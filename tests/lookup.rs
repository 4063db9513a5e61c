use tcsearch::extract::{parse_search_results, SearchResult};
use tcsearch::lookup::{audio_file_path, listing_line, get_download_url, parse_choice, search_url, tsv_entry};

fn result(hanzi: &str, pinyin: &str, name: &str, dir: &str) -> SearchResult {
    SearchResult {
        hanzi: hanzi.to_string(),
        pinyin: pinyin.to_string(),
        meaning: "m".to_string(),
        audio_name: name.to_string(),
        audio_dir: dir.to_string(),
    }
}

#[test]
fn word_files_use_the_fixed_directory() {
    let r = result("好", "hǎo", "word123.mp3", "2573");
    assert_eq!(
        get_download_url(&r).unwrap(),
        "http://www.trainchinese.com/v1/voicefiles/words_0/word123.mp3"
    );
    let r = result("好", "hǎo", "word123.mp3", "not a number");
    assert_eq!(
        get_download_url(&r).unwrap(),
        "http://www.trainchinese.com/v1/voicefiles/words_0/word123.mp3"
    );
}

#[test]
fn other_files_use_the_bucket_of_the_token() {
    let r = result("好", "hǎo", "x9.mp3", "2573");
    assert_eq!(
        get_download_url(&r).unwrap(),
        "http://www.trainchinese.com/v1/word_lists/tc_words/w_dirs/w573/x9.mp3"
    );
    let r = result("好", "hǎo", "x9.mp3", "1000");
    assert_eq!(
        get_download_url(&r).unwrap(),
        "http://www.trainchinese.com/v1/word_lists/tc_words/w_dirs/w0/x9.mp3"
    );
    let r = result("好", "hǎo", "wor.mp3", "+0007");
    assert_eq!(
        get_download_url(&r).unwrap(),
        "http://www.trainchinese.com/v1/word_lists/tc_words/w_dirs/w7/wor.mp3"
    );
    let r = result("好", "hǎo", "x.mp3", "-2573");
    assert_eq!(
        get_download_url(&r).unwrap(),
        "http://www.trainchinese.com/v1/word_lists/tc_words/w_dirs/w-573/x.mp3"
    );
}

#[test]
fn a_token_that_is_no_integer_gives_no_address() {
    for d in ["", "12a", "abc", "-", "+", "1.5", " 12"].iter() {
        let r = result("好", "hǎo", "x.mp3", d);
        assert!(get_download_url(&r).is_none());
    }
    let r = result("好", "hǎo", "x.mp3", "2147483647");
    assert_eq!(
        get_download_url(&r).unwrap(),
        "http://www.trainchinese.com/v1/word_lists/tc_words/w_dirs/w647/x.mp3"
    );
}

#[test]
fn large_tokens_are_bucketed_too() {
    let r = result("好", "hǎo", "x.mp3", "2147483648");
    assert_eq!(
        get_download_url(&r).unwrap(),
        "http://www.trainchinese.com/v1/word_lists/tc_words/w_dirs/w648/x.mp3"
    );
    let r = result("好", "hǎo", "abc.mp3", "99999999999");
    assert_eq!(
        get_download_url(&r).unwrap(),
        "http://www.trainchinese.com/v1/word_lists/tc_words/w_dirs/w999/abc.mp3"
    );
    let r = result("好", "hǎo", "abc.mp3", "123456789012345678901234567890");
    assert_eq!(
        get_download_url(&r).unwrap(),
        "http://www.trainchinese.com/v1/word_lists/tc_words/w_dirs/w890/abc.mp3"
    );
}

#[test]
fn listing_shows_number_and_texts() {
    let mut r = result("你好", "nǐ hǎo", "word1.mp3", "1");
    r.meaning = "hello".to_string();
    assert_eq!(listing_line(0, &r), "[0] 你好\tnǐ hǎo\thello");
    assert_eq!(listing_line(12, &r), "[12] 你好\tnǐ hǎo\thello");
}

#[test]
fn search_address_embeds_the_query() {
    assert_eq!(
        search_url("nihao"),
        "http://www.trainchinese.com/v2/search.php?searchWord=nihao&rAp=0&height=0&width=0"
    );
}

#[test]
fn ledger_line_for_a_choice() {
    let r = result("你好", "nǐ hǎo", "word1.mp3", "1");
    assert_eq!(tsv_entry(&r, "hello"), "你好\tnǐ hǎo [sound:你好.mp3]\thello\n");
}

#[test]
fn audio_file_is_named_after_the_headword() {
    let r = result("你好", "nǐ hǎo", "word1.mp3", "1");
    assert_eq!(audio_file_path("/anki/media", &r), "/anki/media/你好.mp3");
}

#[test]
fn invalid_choice_then_valid_one() {
    assert_eq!(parse_choice("abc\n"), None);
    assert_eq!(parse_choice("1\n"), Some(1));
}

#[test]
fn choice_reading_follows_small_integers() {
    assert_eq!(parse_choice("  7 \r\n"), Some(7));
    assert_eq!(parse_choice("-128"), Some(-128));
    assert_eq!(parse_choice("127"), Some(127));
    assert_eq!(parse_choice("128"), None);
    assert_eq!(parse_choice(""), None);
    assert_eq!(parse_choice("1 2"), None);
}

#[test]
fn three_rows_choose_the_second() {
    let mut page = String::from("<html><table>");
    for (h, p, n, d) in [("一", "yī", "a1.mp3", "1001"), ("二", "èr", "b2.mp3", "2573"), ("三", "sān", "word3.mp3", "3")].iter() {
        page.push_str(&format!(
            "<tr><div class=\"leadXXL chinese\">{}</div><span class=\"pinyin\">{}</span>\
             <span style=\"color:#0066FF\"> g</span>playAudio(&quot;{}&quot;,&quot;q&quot;,{})</tr>\n",
            h, p, n, d
        ));
    }
    let rs = parse_search_results(&page);
    assert_eq!(rs.len(), 3);
    let choice = parse_choice("1").unwrap();
    let item = &rs[choice as usize];
    assert_eq!(audio_file_path("col", item), "col/二.mp3");
    assert_eq!(
        get_download_url(item).unwrap(),
        "http://www.trainchinese.com/v1/word_lists/tc_words/w_dirs/w573/b2.mp3"
    );
    assert_eq!(tsv_entry(item, "test"), "二\tèr [sound:二.mp3]\ttest\n");
}
