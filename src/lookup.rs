//! Addresses on the dictionary site, the flashcard line of a chosen result and
//! the reading of the user's choice.
use vstd::prelude::*;
use vstd::string::*;
use vstd::utf8::encode_utf8;
use crate::decode::{trim_text, trim_white};
use crate::extract::{ResultView, SearchResult};
use crate::number::{
    bucket, decimal_bucket, decimal_chars, push_decimal, decimal_value, parse_bounded, parse_within, push_signed, signed_chars,
};

verus! {

/// The address of the search page for `query`.
pub open spec fn search_address(query: Seq<char>) -> Seq<char> {
    "http://www.trainchinese.com/v2/search.php?searchWord="@ + query
        + "&rAp=0&height=0&width=0"@
}

/// Builds the address of the search page; the query is inserted as it is.
pub fn search_url(query: &str) -> (r: String)
    ensures
        r@ == search_address(query@),
{
    let mut s = String::from_str("http://www.trainchinese.com/v2/search.php?searchWord=");
    s.append(query);
    s.append("&rAp=0&height=0&width=0");
    s
}

pub open spec fn starts_with_word(s: Seq<char>) -> bool {
    s.len() >= 4 && s.subrange(0, 4) == "word"@
}

/// The address of a result's audio clip; `None` where the layout needs a
/// directory token that is not a decimal integer.
pub open spec fn download_address(v: ResultView) -> Option<Seq<char>> {
    if starts_with_word(v.audio_name) {
        Some("http://www.trainchinese.com/v1/voicefiles/words_0/"@ + v.audio_name)
    } else {
        match decimal_value(encode_utf8(v.audio_dir)) {
            Some(d) => Some(
                "http://www.trainchinese.com/v1/word_lists/tc_words/w_dirs/w"@ + signed_chars(
                    bucket(d),
                ) + "/"@ + v.audio_name,
            ),
            None => None,
        }
    }
}

fn has_word_prefix(s: &str) -> (r: bool)
    ensures
        r == starts_with_word(s@),
{
    proof {
        reveal_strlit("word");
        assert("word"@ =~= seq!['w', 'o', 'r', 'd']);
    }
    if s.unicode_len() < 4 {
        return false;
    }
    let r = s.get_char(0) == 'w' && s.get_char(1) == 'o' && s.get_char(2) == 'r' && s.get_char(3)
        == 'd';
    assert(r == (s@.subrange(0, 4) =~= "word"@));
    r
}

/// Derives where the audio clip of a result is served from.
pub fn get_download_url(item: &SearchResult) -> (r: Option<String>)
    ensures
        match r {
            Some(u) => download_address(item@) == Some(u@),
            None => download_address(item@) is None,
        },
{
    let name = item.audio_name.as_str();
    if has_word_prefix(name) {
        let mut s = String::from_str("http://www.trainchinese.com/v1/voicefiles/words_0/");
        s.append(name);
        return Some(s);
    }
    let b = match decimal_bucket(item.audio_dir.as_str().as_bytes()) {
        None => return None,
        Some(b) => b,
    };
    let mut s = String::from_str("http://www.trainchinese.com/v1/word_lists/tc_words/w_dirs/w");
    push_signed(&mut s, b);
    s.append("/");
    s.append(name);
    Some(s)
}

/// The flashcard line of a result: headword, romanization with a sound
/// reference to the headword's clip, and the meaning, tab-separated.
pub open spec fn entry_line(v: ResultView, meaning: Seq<char>) -> Seq<char> {
    v.hanzi + "\t"@ + v.pinyin + " [sound:"@ + v.hanzi + ".mp3]\t"@ + meaning + "\n"@
}

/// Builds the line that the ledger gets for a chosen result.
pub fn tsv_entry(item: &SearchResult, meaning: &str) -> (r: String)
    ensures
        r@ == entry_line(item@, meaning@),
{
    let mut s = String::from_str(item.hanzi.as_str());
    s.append("\t");
    s.append(item.pinyin.as_str());
    s.append(" [sound:");
    s.append(item.hanzi.as_str());
    s.append(".mp3]\t");
    s.append(meaning);
    s.append("\n");
    s
}

/// The line that lists a result under its number: `[index] headword`, then
/// the romanization and the gloss, tab-separated.
pub open spec fn listing_text(index: nat, v: ResultView) -> Seq<char> {
    "["@ + decimal_chars(index) + "] "@ + v.hanzi + "\t"@ + v.pinyin + "\t"@ + v.meaning
}

/// Builds the line that shows a result to choose from.
pub fn listing_line(index: u32, item: &SearchResult) -> (r: String)
    ensures
        r@ == listing_text(index as nat, item@),
{
    let mut s = String::from_str("[");
    push_decimal(&mut s, index);
    s.append("] ");
    s.append(item.hanzi.as_str());
    s.append("\t");
    s.append(item.pinyin.as_str());
    s.append("\t");
    s.append(item.meaning.as_str());
    s
}

/// Where the audio clip of a result is stored: a file named after the headword.
pub fn audio_file_path(dir: &str, item: &SearchResult) -> (r: String)
    ensures
        r@ == dir@ + "/"@ + item.hanzi@ + ".mp3"@,
{
    let mut s = String::from_str(dir);
    s.append("/");
    s.append(item.hanzi.as_str());
    s.append(".mp3");
    s
}

/// Reads a typed choice: the trimmed line as an 8-bit decimal integer.
pub fn parse_choice(line: &str) -> (r: Option<i8>)
    ensures
        match r {
            Some(v) => parse_within(encode_utf8(trim_white(line@)), -128, 127) == Some(v as int),
            None => parse_within(encode_utf8(trim_white(line@)), -128, 127) is None,
        },
{
    let t = trim_text(line);
    match parse_bounded(t.as_str().as_bytes(), -128, 127) {
        Some(v) => Some(v as i8),
        None => None,
    }
}

} // verus!
