//! The grammar of one result row of the search page.
//!
//! A row is the text between a `<tr>` marker and the next one, or the end of
//! the page. In order, it holds the headword container, the romanization span,
//! the gloss span (after one space) and the audio trigger
//! `playAudio(<quoted name>...,<digits>)`. Each part is found by the first
//! occurrence of its opening marker after the previous part, and ends at the
//! first closing marker after that. The name is quoted by a double quote or
//! its entity `&quot;`, which follows `playAudio(` directly; the trigger ends
//! at the first comma that is followed by digits and `)`. In the markers a
//! single quote stands for either quote character.
use vstd::prelude::*;
use vstd::slice::{slice_subrange, slice_to_vec};
use vstd::string::*;
use crate::number::is_digit;
use crate::text::{as_pos, find_pat, first_pat, pat_at, pattern_at};

verus! {

pub open spec fn lead_open() -> Seq<u8> {
    "<div class='leadXXL chinese'>".spec_bytes()
}

pub open spec fn div_close() -> Seq<u8> {
    "</div>".spec_bytes()
}

pub open spec fn pinyin_open() -> Seq<u8> {
    "<span class=\"pinyin\">".spec_bytes()
}

pub open spec fn span_close() -> Seq<u8> {
    "</span>".spec_bytes()
}

pub open spec fn gloss_open() -> Seq<u8> {
    "color:#0066FF'> ".spec_bytes()
}

pub open spec fn play_open() -> Seq<u8> {
    "playAudio(".spec_bytes()
}

pub open spec fn quot_entity() -> Seq<u8> {
    "&quot;".spec_bytes()
}

/// The number of ASCII digits in the run that starts at `j`.
pub open spec fn digit_run(c: Seq<u8>, j: int) -> nat
    decreases c.len() - j,
{
    if 0 <= j < c.len() && is_digit(c[j]) {
        1 + digit_run(c, j + 1)
    } else {
        0
    }
}

/// The length of the quote delimiter at `i` (a double quote or its entity), or 0.
pub open spec fn delim_len(c: Seq<u8>, i: int) -> int {
    if 0 <= i < c.len() && c[i] == 34u8 {
        1
    } else if pat_at(c, i, quot_entity()) {
        quot_entity().len() as int
    } else {
        0
    }
}

/// The first quote delimiter at or after `from`.
pub open spec fn first_delim(c: Seq<u8>, from: int) -> Option<int>
    decreases c.len() - from,
{
    if from < 0 || from >= c.len() {
        None
    } else if delim_len(c, from) > 0 {
        Some(from)
    } else {
        first_delim(c, from + 1)
    }
}

/// A comma, a run of digits and a closing parenthesis start at `i`.
pub open spec fn trailer_at(c: Seq<u8>, i: int) -> bool {
    &&& 0 <= i < c.len()
    &&& c[i] == 44u8
    &&& digit_run(c, i + 1) > 0
    &&& i + 1 + digit_run(c, i + 1) < c.len()
    &&& c[i + 1 + digit_run(c, i + 1)] == 41u8
}

/// The first trailer at or after `from`.
pub open spec fn first_trailer(c: Seq<u8>, from: int) -> Option<int>
    decreases c.len() - from,
{
    if from < 0 || from >= c.len() {
        None
    } else if trailer_at(c, from) {
        Some(from)
    } else {
        first_trailer(c, from + 1)
    }
}

/// The raw texts of a row, from the audio trigger on: file name and directory token.
pub open spec fn raw_audio(c: Seq<u8>, from: int) -> Option<(Seq<u8>, Seq<u8>)> {
    match first_pat(c, play_open(), from) {
        None => None,
        Some(q) => {
            let n0 = q + play_open().len() + delim_len(c, q + play_open().len());
            if delim_len(c, q + play_open().len()) == 0 {
                None
            } else {
                match first_delim(c, n0) {
                    None => None,
                    Some(n1) => match first_trailer(c, n1 + delim_len(c, n1)) {
                        None => None,
                        Some(t) => Some(
                            (c.subrange(n0, n1), c.subrange(t + 1, t + 1 + digit_run(c, t + 1))),
                        ),
                    },
                }
            }
        },
    }
}

/// The five raw texts of a row: headword, romanization, gloss, audio file
/// name, audio directory token; `None` where a part is missing.
pub open spec fn raw_row(c: Seq<u8>) -> Option<(Seq<u8>, Seq<u8>, Seq<u8>, Seq<u8>, Seq<u8>)> {
    match first_pat(c, lead_open(), 0) {
        None => None,
        Some(a) => {
            let h0 = a + lead_open().len();
            match first_pat(c, div_close(), h0) {
                None => None,
                Some(h1) => match first_pat(c, pinyin_open(), h1 + div_close().len()) {
                    None => None,
                    Some(b) => {
                        let pin0 = b + pinyin_open().len();
                        match first_pat(c, span_close(), pin0) {
                            None => None,
                            Some(pin1) => match first_pat(c, gloss_open(), pin1 + span_close().len()) {
                                None => None,
                                Some(g) => {
                                    let g0 = g + gloss_open().len();
                                    match first_pat(c, span_close(), g0) {
                                        None => None,
                                        Some(g1) => match raw_audio(c, g1 + span_close().len()) {
                                            None => None,
                                            Some(audio) => Some(
                                                (
                                                    c.subrange(h0, h1),
                                                    c.subrange(pin0, pin1),
                                                    c.subrange(g0, g1),
                                                    audio.0,
                                                    audio.1,
                                                ),
                                            ),
                                        },
                                    }
                                },
                            },
                        }
                    },
                },
            }
        },
    }
}

fn digits_from(c: &[u8], j: usize) -> (r: usize)
    requires
        j <= c@.len(),
    ensures
        r == digit_run(c@, j as int),
        j + r <= c@.len(),
{
    let mut k = j;
    while k < c.len() && 48u8 <= c[k] && c[k] <= 57u8
        invariant
            j <= k <= c@.len(),
            digit_run(c@, j as int) == (k - j) + digit_run(c@, k as int),
        decreases c@.len() - k,
    {
        k += 1;
    }
    k - j
}

fn delim_at(c: &[u8], i: usize) -> (r: usize)
    ensures
        r == delim_len(c@, i as int),
        r > 0 ==> i + r <= c@.len(),
{
    if i < c.len() && c[i] == 34u8 {
        1
    } else if pattern_at(c, i, "&quot;".as_bytes()) {
        "&quot;".as_bytes().len()
    } else {
        0
    }
}

fn find_delim(c: &[u8], from: usize) -> (r: Option<usize>)
    ensures
        as_pos(r) == first_delim(c@, from as int),
        r matches Some(i) ==> from <= i < c@.len(),
{
    let mut i = from;
    while i < c.len()
        invariant
            from <= i,
            first_delim(c@, from as int) == first_delim(c@, i as int),
        decreases c@.len() - i,
    {
        if delim_at(c, i) > 0 {
            return Some(i);
        }
        i += 1;
    }
    None
}

fn find_trailer(c: &[u8], from: usize) -> (r: Option<usize>)
    ensures
        as_pos(r) == first_trailer(c@, from as int),
        r matches Some(i) ==> from <= i < c@.len(),
{
    let mut i = from;
    while i < c.len()
        invariant
            from <= i,
            first_trailer(c@, from as int) == first_trailer(c@, i as int),
        decreases c@.len() - i,
    {
        if c[i] == 44u8 {
            let k = digits_from(c, i + 1);
            if k > 0 && i + 1 + k < c.len() && c[i + 1 + k] == 41u8 {
                return Some(i);
            }
        }
        i += 1;
    }
    None
}

fn copy_range(c: &[u8], a: usize, b: usize) -> (r: Vec<u8>)
    requires
        a <= b <= c@.len(),
    ensures
        r@ == c@.subrange(a as int, b as int),
{
    slice_to_vec(slice_subrange(c, a, b))
}

fn audio_parts(c: &[u8], from: usize) -> (r: Option<(Vec<u8>, Vec<u8>)>)
    ensures
        match r {
            None => raw_audio(c@, from as int) is None,
            Some(v) => raw_audio(c@, from as int) == Some((v.0@, v.1@)),
        },
{
    // Positions below stay within the slice length, which fits in `usize`.
    let _len = c.len();
    let play = "playAudio(".as_bytes();
    let q = match find_pat(c, play, from) {
        None => return None,
        Some(q) => q,
    };
    let d = delim_at(c, q + play.len());
    if d == 0 {
        return None;
    }
    let n0 = q + play.len() + d;
    let n1 = match find_delim(c, n0) {
        None => return None,
        Some(n1) => n1,
    };
    let d1 = delim_at(c, n1);
    let t = match find_trailer(c, n1 + d1) {
        None => return None,
        Some(t) => t,
    };
    let k = digits_from(c, t + 1);
    Some((copy_range(c, n0, n1), copy_range(c, t + 1, t + 1 + k)))
}

/// Splits one row into its five raw texts.
pub fn row_parts(c: &[u8]) -> (r: Option<(Vec<u8>, Vec<u8>, Vec<u8>, Vec<u8>, Vec<u8>)>)
    ensures
        match r {
            None => raw_row(c@) is None,
            Some(v) => raw_row(c@) == Some((v.0@, v.1@, v.2@, v.3@, v.4@)),
        },
{
    // Positions below stay within the slice length, which fits in `usize`.
    let _len = c.len();
    let lead = "<div class='leadXXL chinese'>".as_bytes();
    let div_end = "</div>".as_bytes();
    let pinyin = "<span class=\"pinyin\">".as_bytes();
    let span_end = "</span>".as_bytes();
    let gloss = "color:#0066FF'> ".as_bytes();
    let a = match find_pat(c, lead, 0) {
        None => return None,
        Some(a) => a,
    };
    let h0 = a + lead.len();
    let h1 = match find_pat(c, div_end, h0) {
        None => return None,
        Some(h1) => h1,
    };
    let b = match find_pat(c, pinyin, h1 + div_end.len()) {
        None => return None,
        Some(b) => b,
    };
    let pin0 = b + pinyin.len();
    let pin1 = match find_pat(c, span_end, pin0) {
        None => return None,
        Some(pin1) => pin1,
    };
    let g = match find_pat(c, gloss, pin1 + span_end.len()) {
        None => return None,
        Some(g) => g,
    };
    let g0 = g + gloss.len();
    let g1 = match find_pat(c, span_end, g0) {
        None => return None,
        Some(g1) => g1,
    };
    let audio = match audio_parts(c, g1 + span_end.len()) {
        None => return None,
        Some(audio) => audio,
    };
    Some(
        (
            copy_range(c, h0, h1),
            copy_range(c, pin0, pin1),
            copy_range(c, g0, g1),
            audio.0,
            audio.1,
        ),
    )
}

} // verus!
