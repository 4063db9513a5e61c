//! Byte-level pattern search over page text.
use vstd::prelude::*;

verus! {

/// In a pattern, a single quote stands for either quote character.
pub open spec fn byte_fits(p: u8, x: u8) -> bool {
    if p == 39u8 {
        x == 39u8 || x == 34u8
    } else {
        x == p
    }
}

/// Pattern `p` occurs in `s` at position `i`.
pub open spec fn pat_at(s: Seq<u8>, i: int, p: Seq<u8>) -> bool {
    &&& 0 <= i
    &&& i + p.len() <= s.len()
    &&& forall|k: int| 0 <= k < p.len() ==> byte_fits(#[trigger] p[k], s[i + k])
}

/// The first position at or after `from` where `p` occurs in `s`.
pub open spec fn first_pat(s: Seq<u8>, p: Seq<u8>, from: int) -> Option<int>
    decreases s.len() - from,
{
    if from < 0 || from + p.len() > s.len() {
        None
    } else if pat_at(s, from, p) {
        Some(from)
    } else {
        first_pat(s, p, from + 1)
    }
}

pub open spec fn as_pos(r: Option<usize>) -> Option<int> {
    match r {
        Some(i) => Some(i as int),
        None => None,
    }
}

/// What the search finds is an occurrence, at or after the start.
pub proof fn lemma_first_pat(s: Seq<u8>, p: Seq<u8>, from: int)
    ensures
        first_pat(s, p, from) matches Some(j) ==> from <= j && pat_at(s, j, p),
    decreases s.len() - from,
{
    if from >= 0 && from + p.len() <= s.len() && !pat_at(s, from, p) {
        lemma_first_pat(s, p, from + 1);
    }
}

fn fits(p: u8, x: u8) -> (r: bool)
    ensures
        r == byte_fits(p, x),
{
    if p == 39u8 {
        x == 39u8 || x == 34u8
    } else {
        x == p
    }
}

/// Tests whether `p` occurs in `s` at position `i`.
pub fn pattern_at(s: &[u8], i: usize, p: &[u8]) -> (r: bool)
    ensures
        r == pat_at(s@, i as int, p@),
{
    if i > s.len() || p.len() > s.len() - i {
        return false;
    }
    let n = s.len();
    let mut k: usize = 0;
    while k < p.len()
        invariant
            n == s@.len(),
            i <= s@.len(),
            i + p@.len() <= s@.len(),
            k <= p@.len(),
            forall|j: int| 0 <= j < k ==> byte_fits(#[trigger] p@[j], s@[i + j]),
        decreases p@.len() - k,
    {
        if !fits(p[k], s[i + k]) {
            return false;
        }
        k += 1;
    }
    true
}

/// Finds the first occurrence of `p` in `s` at or after `from`.
pub fn find_pat(s: &[u8], p: &[u8], from: usize) -> (r: Option<usize>)
    ensures
        as_pos(r) == first_pat(s@, p@, from as int),
        r matches Some(i) ==> from <= i && pat_at(s@, i as int, p@),
{
    if p.len() > s.len() {
        return None;
    }
    let mut i = from;
    while i <= s.len() - p.len()
        invariant
            from <= i,
            p@.len() <= s@.len(),
            first_pat(s@, p@, from as int) == first_pat(s@, p@, i as int),
        decreases s@.len() - i,
    {
        if pattern_at(s, i, p) {
            return Some(i);
        }
        i += 1;
    }
    None
}

} // verus!
