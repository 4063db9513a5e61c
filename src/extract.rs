//! The search results page: trimming and extraction of result records.
use vstd::prelude::*;
use vstd::slice::slice_subrange;
use vstd::string::*;
use vstd::utf8::{decode_utf8, valid_utf8};
use crate::decode::{
    decode_entities, entity_decoded, strip_span_tags, strip_spans, trim_text, trim_white, utf8_string,
};
use crate::row::{raw_row, row_parts};
use crate::text::{find_pat, first_pat, lemma_first_pat, pat_at};

verus! {

/// One entry of the search results.
pub struct SearchResult {
    /// The word in Chinese characters.
    pub hanzi: String,
    /// Its romanized reading.
    pub pinyin: String,
    /// A short English gloss.
    pub meaning: String,
    /// The file name of its audio clip.
    pub audio_name: String,
    /// The token from which the clip's directory is derived.
    pub audio_dir: String,
}

/// The texts of a search result.
pub struct ResultView {
    pub hanzi: Seq<char>,
    pub pinyin: Seq<char>,
    pub meaning: Seq<char>,
    pub audio_name: Seq<char>,
    pub audio_dir: Seq<char>,
}

impl View for SearchResult {
    type V = ResultView;

    open spec fn view(&self) -> ResultView {
        ResultView {
            hanzi: self.hanzi@,
            pinyin: self.pinyin@,
            meaning: self.meaning@,
            audio_name: self.audio_name@,
            audio_dir: self.audio_dir@,
        }
    }
}

/// A raw text with its character references decoded, if that gives UTF-8.
pub open spec fn decoded_text(raw: Seq<u8>) -> Option<Seq<char>> {
    if valid_utf8(entity_decoded(raw)) {
        Some(decode_utf8(entity_decoded(raw)))
    } else {
        None
    }
}

/// A raw headword decoded, without span tags and surrounding white space.
pub open spec fn decoded_headword(raw: Seq<u8>) -> Option<Seq<char>> {
    let t = strip_spans(entity_decoded(raw));
    if valid_utf8(t) {
        Some(trim_white(decode_utf8(t)))
    } else {
        None
    }
}

/// The record that a row gives, if it has every part and each part decodes
/// to UTF-8; a row that falls short gives no record.
#[verifier::opaque]
pub open spec fn record_of(c: Seq<u8>) -> Option<ResultView> {
    match raw_row(c) {
        None => None,
        Some(raw) => match (
            decoded_headword(raw.0),
            decoded_text(raw.1),
            decoded_text(raw.2),
            decoded_text(raw.3),
            decoded_text(raw.4),
        ) {
            (Some(h), Some(p), Some(g), Some(n), Some(d)) => Some(
                ResultView { hanzi: h, pinyin: p, meaning: g, audio_name: n, audio_dir: d },
            ),
            _ => None,
        },
    }
}

pub open spec fn row_mark() -> Seq<u8> {
    "<tr>".spec_bytes()
}

/// Where the row that starts at `s` ends: at the next row marker, or the end.
pub open spec fn row_end(b: Seq<u8>, s: int) -> int {
    match first_pat(b, row_mark(), s) {
        Some(j) => j,
        None => b.len() as int,
    }
}

proof fn lemma_row_mark_len()
    ensures
        row_mark().len() == 4,
{
    reveal_strlit("<tr>");
    broadcast use vstd::string::is_ascii_spec_bytes;

    assert(is_ascii("<tr>"));
}

/// A row ends after its marker, within the page.
proof fn lemma_row_advance(b: Seq<u8>, from: int)
    ensures
        first_pat(b, row_mark(), from) matches Some(i) ==> from < i + row_mark().len() <= row_end(
            b,
            i + row_mark().len(),
        ) <= b.len(),
{
    lemma_row_mark_len();
    lemma_first_pat(b, row_mark(), from);
    if let Some(i) = first_pat(b, row_mark(), from) {
        lemma_first_pat(b, row_mark(), i + 4);
    }
}

#[via_fn]
proof fn results_from_decreases(b: Seq<u8>, from: int) {
    lemma_row_advance(b, from);
}

#[via_fn]
proof fn rows_from_decreases(b: Seq<u8>, from: int) {
    lemma_row_advance(b, from);
}

/// The records of the rows that start at or after `from`, in page order.
pub open spec fn results_from(b: Seq<u8>, from: int) -> Seq<ResultView>
    decreases b.len() - from,
    via results_from_decreases
{
    if from < 0 {
        seq![]
    } else {
        match first_pat(b, row_mark(), from) {
            None => seq![],
            Some(i) => {
                let s = i + row_mark().len();
                let e = row_end(b, s);
                let rest = results_from(b, e);
                match record_of(b.subrange(s, e)) {
                    Some(r) => seq![r] + rest,
                    None => rest,
                }
            },
        }
    }
}

/// The records of a page, in page order.
pub open spec fn search_results(b: Seq<u8>) -> Seq<ResultView> {
    results_from(b, 0)
}

fn decode_text(raw: &Vec<u8>) -> (r: Option<String>)
    ensures
        match r {
            None => decoded_text(raw@) is None,
            Some(s) => decoded_text(raw@) == Some(s@),
        },
{
    utf8_string(decode_entities(raw.as_slice()))
}

fn decode_headword(raw: &Vec<u8>) -> (r: Option<String>)
    ensures
        match r {
            None => decoded_headword(raw@) is None,
            Some(s) => decoded_headword(raw@) == Some(s@),
        },
{
    let u = decode_entities(raw.as_slice());
    let t = strip_span_tags(u.as_slice());
    match utf8_string(t) {
        None => None,
        Some(s) => Some(trim_text(s.as_str())),
    }
}

/// Builds the record of one row.
pub fn record_from_row(c: &[u8]) -> (r: Option<SearchResult>)
    ensures
        match r {
            None => record_of(c@) is None,
            Some(x) => record_of(c@) == Some(x@),
        },
{
    reveal(record_of);
    let raw = match row_parts(c) {
        None => return None,
        Some(raw) => raw,
    };
    let h = decode_headword(&raw.0);
    let p = decode_text(&raw.1);
    let g = decode_text(&raw.2);
    let n = decode_text(&raw.3);
    let d = decode_text(&raw.4);
    match (h, p, g, n, d) {
        (Some(h), Some(p), Some(g), Some(n), Some(d)) => Some(
            SearchResult { hanzi: h, pinyin: p, meaning: g, audio_name: n, audio_dir: d },
        ),
        _ => None,
    }
}

pub open spec fn views(v: Seq<SearchResult>) -> Seq<ResultView> {
    v.map_values(|x: SearchResult| x@)
}

/// Extracts the result records of a search page, in page order.
pub fn parse_search_results(html: &str) -> (r: Vec<SearchResult>)
    ensures
        views(r@) == search_results(html.spec_bytes()),
{
    let b = html.as_bytes();
    let n = b.len();
    let mark = "<tr>".as_bytes();
    let mut out: Vec<SearchResult> = Vec::new();
    let mut pos: usize = 0;
    proof {
        lemma_row_mark_len();
    }

    loop
        invariant
            pos <= b@.len(),
            row_mark().len() == 4,
            n == b@.len(),
            mark@ == row_mark(),
            b@ == html.spec_bytes(),
            views(out@) + results_from(b@, pos as int) == search_results(b@),
        ensures
            views(out@) == search_results(b@),
        decreases b@.len() - pos,
    {
        let i = match find_pat(b, mark, pos) {
            None => {
                assert(views(out@) + results_from(b@, pos as int) =~= views(out@));
                break;
            },
            Some(i) => i,
        };
        let s = i + mark.len();
        let e = match find_pat(b, mark, s) {
            None => b.len(),
            Some(j) => j,
        };
        let ghost before = views(out@);
        assert(results_from(b@, pos as int) == match record_of(b@.subrange(s as int, e as int)) {
            Some(r) => seq![r] + results_from(b@, e as int),
            None => results_from(b@, e as int),
        });
        let rec = record_from_row(slice_subrange(b, s, e));
        match rec {
            Some(x) => {
                out.push(x);
                assert(views(out@) =~= before.push(x@));
                assert(before + results_from(b@, pos as int) =~= views(out@) + results_from(
                    b@,
                    e as int,
                ));
            },
            None => {},
        }
        pos = e;
    }
    out
}

/// The rows of the page that start at or after `from`, in page order.
pub open spec fn rows_from(b: Seq<u8>, from: int) -> Seq<Seq<u8>>
    decreases b.len() - from,
    via rows_from_decreases
{
    if from < 0 {
        seq![]
    } else {
        match first_pat(b, row_mark(), from) {
            None => seq![],
            Some(i) => {
                let s = i + row_mark().len();
                let e = row_end(b, s);
                seq![b.subrange(s, e)] + rows_from(b, e)
            },
        }
    }
}

/// The records of the rows that give one, in order.
pub open spec fn records_of_rows(rows: Seq<Seq<u8>>) -> Seq<ResultView>
    decreases rows.len(),
{
    if rows.len() == 0 {
        seq![]
    } else {
        let rest = records_of_rows(rows.drop_first());
        match record_of(rows[0]) {
            Some(r) => seq![r] + rest,
            None => rest,
        }
    }
}

proof fn lemma_rows_records_from(b: Seq<u8>, from: int)
    ensures
        results_from(b, from) == records_of_rows(rows_from(b, from)),
    decreases b.len() - from,
{
    if from >= 0 {
        if let Some(i) = first_pat(b, row_mark(), from) {
            let s = i + row_mark().len();
            let e = row_end(b, s);
            lemma_row_advance(b, from);
            lemma_rows_records_from(b, e);
            assert(rows_from(b, from).drop_first() =~= rows_from(b, e));
        }
    }
}

/// The results of a page are the records of its rows, in page order; a row
/// that lacks a part, or whose texts do not decode, gives none.
pub proof fn lemma_results_are_row_records(b: Seq<u8>)
    ensures
        search_results(b) == records_of_rows(rows_from(b, 0)),
{
    lemma_rows_records_from(b, 0);
}

proof fn lemma_no_match_from(b: Seq<u8>, from: int)
    requires
        forall|k: int|
            0 <= k < rows_from(b, from).len() ==> (#[trigger] record_of(rows_from(b, from)[k])) is None,
    ensures
        results_from(b, from) == Seq::<ResultView>::empty(),
    decreases b.len() - from,
{
    if from >= 0 {
        if let Some(i) = first_pat(b, row_mark(), from) {
            let s = i + row_mark().len();
            let e = row_end(b, s);
            lemma_row_advance(b, from);
            assert(rows_from(b, from)[0] == b.subrange(s, e));
            assert forall|k: int| 0 <= k < rows_from(b, e).len() implies (#[trigger] record_of(
                rows_from(b, e)[k],
            )) is None by {
                assert(rows_from(b, e)[k] == rows_from(b, from)[k + 1]);
            }
            lemma_no_match_from(b, e);
        }
    }
}

/// A page none of whose rows gives a record yields no results.
pub proof fn lemma_no_matching_rows(b: Seq<u8>)
    requires
        forall|k: int|
            0 <= k < rows_from(b, 0).len() ==> (#[trigger] record_of(rows_from(b, 0)[k])) is None,
    ensures
        search_results(b) == Seq::<ResultView>::empty(),
{
    lemma_no_match_from(b, 0);
}

pub open spec fn results_marker() -> Seq<u8> {
    "Showing searches of Pinyin".spec_bytes()
}

/// The page from the first results marker on, or the whole page without one.
pub open spec fn trimmed(b: Seq<u8>) -> Seq<u8> {
    match first_pat(b, results_marker(), 0) {
        None => b,
        Some(i) => b.subrange(i, b.len() as int),
    }
}

/// Trimming a trimmed page changes nothing, and a page without the results
/// marker is kept whole.
pub proof fn lemma_trim_idempotent(b: Seq<u8>)
    ensures
        trimmed(trimmed(b)) == trimmed(b),
        (forall|i: int| !pat_at(b, i, results_marker())) ==> trimmed(b) == b,
{
    let m = results_marker();
    lemma_first_pat(b, m, 0);
    if let Some(i) = first_pat(b, m, 0) {
        let t = b.subrange(i, b.len() as int);
        assert forall|k: int| 0 <= k < m.len() implies crate::text::byte_fits(
            #[trigger] m[k],
            t[0 + k],
        ) by {
            assert(crate::text::byte_fits(m[k], b[i + k]));
        }
        assert(pat_at(t, 0, m));
        assert(t.subrange(0, t.len() as int) =~= t);
    }
}

/// Drops what comes before the results marker of a page.
pub fn trim_html(html: &str) -> (r: &str)
    ensures
        r.spec_bytes() == trimmed(html.spec_bytes()),
{
    let b = html.as_bytes();
    let marker = "Showing searches of Pinyin".as_bytes();
    match find_pat(b, marker, 0) {
        None => html,
        Some(i) => {
            proof {
                reveal_strlit("Showing searches of Pinyin");
                broadcast use vstd::string::is_ascii_spec_bytes;
                broadcast use vstd::utf8::group_utf8_lib;

                assert(is_ascii("Showing searches of Pinyin"));
                assert(marker@[0] == 83u8);
                assert(pat_at(b@, i as int, marker@));
                assert(crate::text::byte_fits(marker@[0], b@[i as int + 0]));
                assert(html.is_char_boundary(i as usize));
            }
            let (_, rest) = html.split_at(i);
            rest
        },
    }
}

} // verus!
