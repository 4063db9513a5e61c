use tcsearch::decode::strip_span_tags;
use tcsearch::extract::{parse_search_results, trim_html, SearchResult};
use tcsearch::number::parse_bounded;

fn row(hanzi: &str, pinyin: &str, meaning: &str, name: &str, dir: &str) -> String {
    format!(
        "<tr><td><div class=\"leadXXL chinese\">{}</div></td><td><span class=\"pinyin\">{}</span></td>\
         <td><span style=\"color:#0066FF\"> {}</span></td>\
         <td><a onclick=\"playAudio(&quot;{}&quot;,&quot;t&quot;,{})\">play</a></td></tr>\n",
        hanzi, pinyin, meaning, name, dir
    )
}

fn fields(r: &SearchResult) -> (&str, &str, &str, &str, &str) {
    (&r.hanzi, &r.pinyin, &r.meaning, &r.audio_name, &r.audio_dir)
}

#[test]
fn page_without_rows_gives_nothing() {
    assert!(parse_search_results("").is_empty());
    assert!(parse_search_results("<html><body>No match here</body></html>").is_empty());
    let partial = "<tr><div class=\"leadXXL chinese\">好</div><span class=\"pinyin\">hǎo</span></tr>";
    assert!(parse_search_results(partial).is_empty());
}

#[test]
fn one_row_gives_its_five_fields() {
    let page = row("你好", "nǐ hǎo", "hello", "word123.mp3", "2573");
    let rs = parse_search_results(&page);
    assert_eq!(rs.len(), 1);
    assert_eq!(fields(&rs[0]), ("你好", "nǐ hǎo", "hello", "word123.mp3", "2573"));
}

#[test]
fn entities_are_decoded_and_headword_markup_stripped() {
    let page = row(
        " <span class=\"hl\">你</span>&amp;<span>好</span> ",
        "n&quot;i",
        "you &amp; me &lt;3",
        "a&#98;c.mp3",
        "12",
    );
    let rs = parse_search_results(&page);
    assert_eq!(rs.len(), 1);
    assert_eq!(fields(&rs[0]), ("你&好", "n\"i", "you & me <3", "abc.mp3", "12"));
}

#[test]
fn quote_delimiters_and_single_quotes_are_accepted() {
    let page = "<tr><div class='leadXXL chinese'>水</div> <span class=\"pinyin\">shuǐ</span> \
                <span style='color:#0066FF'> water</span> playAudio(\"s1.mp3\", 'x',77)</tr>";
    let rs = parse_search_results(page);
    assert_eq!(rs.len(), 1);
    assert_eq!(fields(&rs[0]), ("水", "shuǐ", "water", "s1.mp3", "77"));
}

#[test]
fn incomplete_rows_are_skipped_and_order_kept() {
    let broken = "<tr><div class=\"leadXXL chinese\">坏</div><span class=\"pinyin\">huài</span></tr>\n";
    let page = format!(
        "{}{}{}",
        row("一", "yī", "one", "a.mp3", "1"),
        broken,
        row("二", "èr", "two", "b.mp3", "2")
    );
    let rs = parse_search_results(&page);
    assert_eq!(rs.len(), 2);
    assert_eq!(rs[0].hanzi, "一");
    assert_eq!(rs[1].hanzi, "二");
}

#[test]
fn empty_fields_still_count_and_duplicates_are_kept() {
    let r = row("空", "", "", "c.mp3", "3");
    let page = format!("{}{}", r, r);
    let rs = parse_search_results(&page);
    assert_eq!(rs.len(), 2);
    assert_eq!(fields(&rs[0]), ("空", "", "", "c.mp3", "3"));
    assert_eq!(fields(&rs[1]), fields(&rs[0]));
}

#[test]
fn agrees_with_the_row_pattern_on_plain_rows() {
    let page = format!(
        "{}{}{}",
        row("我", "wǒ", "I", "word1.mp3", "10"),
        row("你们", "nǐmen", "you (plural)", "n2.mp3", "2001"),
        row("他", "tā", "he", "t3.mp3", "999")
    );
    let re = regex::Regex::new(
        r#"<tr>.+?<div class=['"]leadXXL chinese['"]>(.+?)</div>.+?<span class="pinyin">([^>]+)</span>.+?color:#0066FF['"]> ([^>]+)</span>.+?playAudio\((?:"|&quot;)(.+?)(?:"|&quot;).+?,(\d+)\)"#,
    )
    .unwrap();
    let expected: Vec<Vec<String>> = re
        .captures_iter(&page)
        .map(|c| (1..6).map(|k| c.get(k).unwrap().as_str().to_string()).collect())
        .collect();
    let rs = parse_search_results(&page);
    assert_eq!(rs.len(), expected.len());
    for (r, e) in rs.iter().zip(expected.iter()) {
        let got = vec![
            r.hanzi.clone(),
            r.pinyin.clone(),
            r.meaning.clone(),
            r.audio_name.clone(),
            r.audio_dir.clone(),
        ];
        assert_eq!(&got, e);
    }
}

#[test]
fn trim_starts_at_the_marker() {
    let page = "<head>chrome</head>Showing searches of Pinyin: ni<tr>";
    assert_eq!(trim_html(page), "Showing searches of Pinyin: ni<tr>");
}

#[test]
fn trim_keeps_a_page_without_marker() {
    let page = "<head>你好</head><tr>rows</tr>";
    assert_eq!(trim_html(page), page);
    assert_eq!(trim_html(""), "");
}

#[test]
fn trim_twice_is_trim_once() {
    let pages = [
        "前言 Showing searches of Pinyin x Showing searches of Pinyin y",
        "no marker at all",
        "Showing searches of Pinyin",
    ];
    for p in pages.iter() {
        let once = trim_html(p);
        assert_eq!(trim_html(once), once);
    }
    assert_eq!(trim_html(pages[0]), "Showing searches of Pinyin x Showing searches of Pinyin y");
}

#[test]
fn span_tags_are_removed_left_to_right() {
    assert_eq!(strip_span_tags(b"<span a=\"1\">x</span>y</spanner>z"), b"xyz".to_vec());
    assert_eq!(strip_span_tags(b"a<span b"), b"a<span b".to_vec());
    assert_eq!(strip_span_tags(b"<b>k</b>"), b"<b>k</b>".to_vec());
    assert_eq!(strip_span_tags(b""), b"".to_vec());
}

#[test]
fn bounded_decimal_reading() {
    assert_eq!(parse_bounded(b"00042", -100, 100), Some(42));
    assert_eq!(parse_bounded(b"-100", -100, 100), Some(-100));
    assert_eq!(parse_bounded(b"101", -100, 100), None);
    assert_eq!(parse_bounded(b"99999999999999999999", -100, 100), None);
    assert_eq!(parse_bounded(b"4x", -100, 100), None);
    assert_eq!(parse_bounded(b" 4", -100, 100), None);
}
