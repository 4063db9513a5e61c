//! Decoding of the raw texts of a row: character references, inline span
//! tags, UTF-8 and surrounding white space.
use vstd::prelude::*;
use vstd::string::*;
use vstd::utf8::{decode_utf8, valid_utf8};
use crate::text::{find_pat, first_pat, pat_at, pattern_at};

verus! {

/// The bytes that the HTML character-reference decoder makes of `b`.
pub uninterp spec fn unescaped(b: Seq<u8>) -> Seq<u8>;

/// Relies on marksman_escape::Unescape: it decodes the named, decimal and
/// hexadecimal character references of a byte stream, and hands every byte
/// that does not follow an ampersand through unchanged.
#[verifier::external_body]
pub(crate) fn unescape_bytes(b: &[u8]) -> (r: Vec<u8>)
    ensures
        r@ == unescaped(b@),
        (forall|i: int| 0 <= i < b@.len() ==> b@[i] != 38u8) ==> r@ == b@,
{
    marksman_escape::Unescape::new(b.iter().cloned()).collect()
}

pub open spec fn has_ampersand(b: Seq<u8>) -> bool {
    exists|i: int| 0 <= i < b.len() && b[i] == 38u8
}

/// A raw text with its character references decoded; a text without an
/// ampersand holds none and stays as it is.
pub open spec fn entity_decoded(b: Seq<u8>) -> Seq<u8> {
    if has_ampersand(b) {
        unescaped(b)
    } else {
        b
    }
}

/// Decodes the character references of a raw text.
pub fn decode_entities(b: &[u8]) -> (r: Vec<u8>)
    ensures
        r@ == entity_decoded(b@),
{
    unescape_bytes(b)
}

/// Relies on String::from_utf8: it succeeds exactly on valid UTF-8 and keeps
/// the bytes.
#[verifier::external_body]
pub(crate) fn utf8_string(v: Vec<u8>) -> (r: Option<String>)
    ensures
        r is Some <==> valid_utf8(v@),
        r matches Some(s) ==> s@ == decode_utf8(v@),
{
    String::from_utf8(v).ok()
}

/// Characters with the Unicode White_Space property.
pub open spec fn is_white(c: char) -> bool {
    let u = c as u32;
    (0x09 <= u <= 0x0d) || u == 0x20 || u == 0x85 || u == 0xa0 || u == 0x1680 || (0x2000 <= u
        <= 0x200a) || u == 0x2028 || u == 0x2029 || u == 0x202f || u == 0x205f || u == 0x3000
}

pub open spec fn trim_start(s: Seq<char>) -> Seq<char>
    decreases s.len(),
{
    if s.len() > 0 && is_white(s[0]) {
        trim_start(s.drop_first())
    } else {
        s
    }
}

pub open spec fn trim_end(s: Seq<char>) -> Seq<char>
    decreases s.len(),
{
    if s.len() > 0 && is_white(s.last()) {
        trim_end(s.drop_last())
    } else {
        s
    }
}

/// `s` without leading and trailing white space.
pub open spec fn trim_white(s: Seq<char>) -> Seq<char> {
    trim_end(trim_start(s))
}

/// Relies on str::trim: it removes leading and trailing characters with the
/// Unicode White_Space property.
#[verifier::external_body]
pub(crate) fn trim_text(s: &str) -> (r: String)
    ensures
        r@ == trim_white(s@),
{
    s.trim().to_string()
}

/// The length of the span tag (`<span...>` or `</span...>`) at `i`, or 0.
pub open spec fn span_tag_len(s: Seq<u8>, i: int) -> int {
    let k = if pat_at(s, i, "<span".spec_bytes()) {
        "<span".spec_bytes().len() as int
    } else if pat_at(s, i, "</span".spec_bytes()) {
        "</span".spec_bytes().len() as int
    } else {
        0
    };
    if k == 0 {
        0
    } else {
        match first_pat(s, ">".spec_bytes(), i + k) {
            Some(j) if j < s.len() => j + 1 - i,
            _ => 0,
        }
    }
}

/// `s` from `i` on, with every span tag removed, scanning left to right.
pub open spec fn strip_from(s: Seq<u8>, i: int) -> Seq<u8>
    decreases s.len() - i,
{
    if i < 0 || i >= s.len() {
        seq![]
    } else if span_tag_len(s, i) > 0 {
        strip_from(s, i + span_tag_len(s, i))
    } else {
        seq![s[i]] + strip_from(s, i + 1)
    }
}

pub open spec fn strip_spans(s: Seq<u8>) -> Seq<u8> {
    strip_from(s, 0)
}

fn span_tag_at(s: &[u8], i: usize) -> (r: usize)
    requires
        i < s@.len(),
    ensures
        r == span_tag_len(s@, i as int),
        i + r <= s@.len(),
{
    // Positions below stay within the slice length, which fits in `usize`.
    let _len = s.len();
    let k: usize = if pattern_at(s, i, "<span".as_bytes()) {
        "<span".as_bytes().len()
    } else if pattern_at(s, i, "</span".as_bytes()) {
        "</span".as_bytes().len()
    } else {
        0
    };
    if k == 0 {
        0
    } else {
        match find_pat(s, ">".as_bytes(), i + k) {
            None => 0,
            Some(j) => {
                proof {
                    reveal_strlit(">");
                    broadcast use vstd::string::is_ascii_spec_bytes;
                    assert(is_ascii(">"));
                    assert(">".spec_bytes().len() == 1);
                }
                assert(j < s@.len());
                j + 1 - i
            },
        }
    }
}

/// Removes every `<span...>` and `</span...>` tag from `s`.
pub fn strip_span_tags(s: &[u8]) -> (r: Vec<u8>)
    ensures
        r@ == strip_spans(s@),
{
    let mut out: Vec<u8> = Vec::new();
    let mut i: usize = 0;
    while i < s.len()
        invariant
            i <= s@.len(),
            out@ + strip_from(s@, i as int) == strip_spans(s@),
        decreases s@.len() - i,
    {
        let t = span_tag_at(s, i);
        if t > 0 {
            i = i + t;
        } else {
            let ghost before = out@;
            out.push(s[i]);
            assert(before + strip_from(s@, i as int) == out@ + strip_from(s@, i + 1));
            i = i + 1;
        }
    }
    assert(strip_from(s@, i as int) == Seq::<u8>::empty());
    assert(out@ + Seq::<u8>::empty() =~= out@);
    out
}

} // verus!
