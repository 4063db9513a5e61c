//! Decimal integers: reading them from text and writing them as text.
use vstd::prelude::*;
use vstd::string::*;
use vstd::arithmetic::div_mod::{lemma_fundamental_div_mod, lemma_mod_multiples_vanish};

verus! {

pub open spec fn is_digit(b: u8) -> bool {
    48u8 <= b <= 57u8
}

pub open spec fn all_digits(d: Seq<u8>) -> bool {
    forall|i: int| 0 <= i < d.len() ==> is_digit(#[trigger] d[i])
}

/// The value of a run of decimal digits.
pub open spec fn digits_value(d: Seq<u8>) -> nat
    decreases d.len(),
{
    if d.len() == 0 {
        0
    } else {
        digits_value(d.drop_last()) * 10 + (d.last() - 48u8) as nat
    }
}

/// The integer that `s` writes in decimal, after an optional sign.
pub open spec fn decimal_value(s: Seq<u8>) -> Option<int> {
    if s.len() > 0 && (s[0] == 43u8 || s[0] == 45u8) {
        let d = s.drop_first();
        if d.len() > 0 && all_digits(d) {
            Some(
                if s[0] == 45u8 {
                    -digits_value(d)
                } else {
                    digits_value(d) as int
                },
            )
        } else {
            None
        }
    } else if s.len() > 0 && all_digits(s) {
        Some(digits_value(s) as int)
    } else {
        None
    }
}

/// The integer that `s` writes in decimal, if it lies in `lo..=hi`.
pub open spec fn parse_within(s: Seq<u8>, lo: int, hi: int) -> Option<int> {
    match decimal_value(s) {
        Some(v) => if lo <= v <= hi {
            Some(v)
        } else {
            None
        },
        None => None,
    }
}

pub open spec fn as_int(r: Option<i64>) -> Option<int> {
    match r {
        Some(v) => Some(v as int),
        None => None,
    }
}

/// A bound above every value that a bounded parse can return.
pub const SATURATION: u64 = 0x2_0000_0000;

/// Reads a decimal integer with an optional sign, accepted only within `lo..=hi`.
pub fn parse_bounded(s: &[u8], lo: i64, hi: i64) -> (r: Option<i64>)
    requires
        -0x1_0000_0000 <= lo,
        hi <= 0x1_0000_0000,
    ensures
        as_int(r) == parse_within(s@, lo as int, hi as int),
{
    let n = s.len();
    if n == 0 {
        return None;
    }
    let neg = s[0] == 45u8;
    let start: usize = if s[0] == 43u8 || s[0] == 45u8 {
        1
    } else {
        0
    };
    if start == n {
        return None;
    }
    let ghost d = s@.subrange(start as int, n as int);
    if start == 1 {
        assert(d =~= s@.drop_first());
    } else {
        assert(d =~= s@);
    }
    assert(!all_digits(d) ==> decimal_value(s@) is None);
    let mut acc: u64 = 0;
    let mut i: usize = start;
    while i < n
        invariant
            n == s@.len(),
            start <= i <= n,
            d == s@.subrange(start as int, n as int),
            !all_digits(d) ==> decimal_value(s@) is None,
            start == 1 ==> d == s@.drop_first() && (s@[0] == 43u8 || s@[0] == 45u8),
            start == 0 ==> d == s@ && !(s@[0] == 43u8 || s@[0] == 45u8),
            neg == (s@[0] == 45u8),
            d.len() > 0,
            all_digits(s@.subrange(start as int, i as int)),
            acc as int == if digits_value(s@.subrange(start as int, i as int))
                < SATURATION as int {
                digits_value(s@.subrange(start as int, i as int)) as int
            } else {
                SATURATION as int
            },
        decreases n - i,
    {
        let c = s[i];
        if c < 48u8 || c > 57u8 {
            assert(!all_digits(d)) by {
                assert(d[i - start] == c);
            }
            return None;
        }
        let ghost prev = s@.subrange(start as int, i as int);
        let ghost next = s@.subrange(start as int, i + 1);
        assert(next.drop_last() =~= prev);
        assert(next.last() == c);
        let step = acc * 10 + (c - 48u8) as u64;
        acc = if step < SATURATION {
            step
        } else {
            SATURATION
        };
        assert(digits_value(next) == digits_value(prev) * 10 + (c - 48u8) as nat);
        assert(digits_value(prev) >= SATURATION ==> digits_value(next) >= SATURATION)
            by (nonlinear_arith)
            requires
                digits_value(next) == digits_value(prev) * 10 + (c - 48u8) as nat,
        ;
        assert(all_digits(next)) by {
            assert forall|k: int| 0 <= k < next.len() implies is_digit(#[trigger] next[k]) by {
                if k < prev.len() {
                    assert(next[k] == prev[k]);
                }
            }
        }
        i += 1;
    }
    if acc >= SATURATION {
        return None;
    }
    let v: i64 = if neg {
        -(acc as i64)
    } else {
        acc as i64
    };
    if lo <= v && v <= hi {
        Some(v)
    } else {
        None
    }
}

/// The directory bucket of a value: its remainder by 1000, with the sign of
/// the value.
pub open spec fn bucket(d: int) -> int {
    if d >= 0 {
        d % 1000
    } else {
        -((-d) % 1000)
    }
}

proof fn lemma_mod_step(v: int, c: int)
    requires
        0 <= v,
        0 <= c,
    ensures
        (v * 10 + c) % 1000 == ((v % 1000) * 10 + c) % 1000,
{
    lemma_fundamental_div_mod(v, 1000);
    let q = v / 1000;
    let r = v % 1000;
    assert(v * 10 + c == 1000 * (q * 10) + (r * 10 + c)) by (nonlinear_arith)
        requires
            v == 1000 * q + r,
    ;
    lemma_mod_multiples_vanish(q * 10, r * 10 + c, 1000);
}

/// Reads a decimal integer of any size, with an optional sign, and gives its
/// bucket.
pub fn decimal_bucket(s: &[u8]) -> (r: Option<i32>)
    ensures
        match decimal_value(s@) {
            Some(v) => r == Some(bucket(v) as i32),
            None => r is None,
        },
{
    let n = s.len();
    if n == 0 {
        return None;
    }
    let neg = s[0] == 45u8;
    let start: usize = if s[0] == 43u8 || s[0] == 45u8 {
        1
    } else {
        0
    };
    if start == n {
        return None;
    }
    let ghost d = s@.subrange(start as int, n as int);
    if start == 1 {
        assert(d =~= s@.drop_first());
    } else {
        assert(d =~= s@);
    }
    assert(!all_digits(d) ==> decimal_value(s@) is None);
    let mut acc: u32 = 0;
    let mut i: usize = start;
    while i < n
        invariant
            n == s@.len(),
            start <= i <= n,
            d == s@.subrange(start as int, n as int),
            start == 1 ==> d == s@.drop_first() && (s@[0] == 43u8 || s@[0] == 45u8),
            start == 0 ==> d == s@ && !(s@[0] == 43u8 || s@[0] == 45u8),
            neg == (s@[0] == 45u8),
            d.len() > 0,
            !all_digits(d) ==> decimal_value(s@) is None,
            all_digits(s@.subrange(start as int, i as int)),
            acc as int == digits_value(s@.subrange(start as int, i as int)) % 1000,
        decreases n - i,
    {
        let c = s[i];
        if c < 48u8 || c > 57u8 {
            assert(!all_digits(d)) by {
                assert(d[i - start] == c);
            }
            return None;
        }
        let ghost prev = s@.subrange(start as int, i as int);
        let ghost next = s@.subrange(start as int, i + 1);
        assert(next.drop_last() =~= prev);
        assert(next.last() == c);
        proof {
            lemma_mod_step(digits_value(prev) as int, (c - 48u8) as int);
        }
        acc = (acc * 10 + (c - 48u8) as u32) % 1000;
        assert(all_digits(next)) by {
            assert forall|k: int| 0 <= k < next.len() implies is_digit(#[trigger] next[k]) by {
                if k < prev.len() {
                    assert(next[k] == prev[k]);
                }
            }
        }
        i += 1;
    }
    if neg {
        Some(-(acc as i32))
    } else {
        Some(acc as i32)
    }
}

pub open spec fn digit_char(d: nat) -> char {
    (48 + d) as char
}

/// The decimal digits of `n`.
pub open spec fn decimal_chars(n: nat) -> Seq<char>
    decreases n,
{
    if n < 10 {
        seq![digit_char(n)]
    } else {
        decimal_chars(n / 10).push(digit_char(n % 10))
    }
}

/// `v` written in decimal, with a minus sign when negative.
pub open spec fn signed_chars(v: int) -> Seq<char> {
    if v < 0 {
        seq!['-'] + decimal_chars((-v) as nat)
    } else {
        decimal_chars(v as nat)
    }
}

fn digit_str(d: u32) -> (r: &'static str)
    requires
        d < 10,
    ensures
        r@ == seq![digit_char(d as nat)],
{
    match d {
        0 => {
            proof {
                reveal_strlit("0");
                assert("0"@ =~= seq![digit_char(0)]);
            }
            "0"
        },
        1 => {
            proof {
                reveal_strlit("1");
                assert("1"@ =~= seq![digit_char(1)]);
            }
            "1"
        },
        2 => {
            proof {
                reveal_strlit("2");
                assert("2"@ =~= seq![digit_char(2)]);
            }
            "2"
        },
        3 => {
            proof {
                reveal_strlit("3");
                assert("3"@ =~= seq![digit_char(3)]);
            }
            "3"
        },
        4 => {
            proof {
                reveal_strlit("4");
                assert("4"@ =~= seq![digit_char(4)]);
            }
            "4"
        },
        5 => {
            proof {
                reveal_strlit("5");
                assert("5"@ =~= seq![digit_char(5)]);
            }
            "5"
        },
        6 => {
            proof {
                reveal_strlit("6");
                assert("6"@ =~= seq![digit_char(6)]);
            }
            "6"
        },
        7 => {
            proof {
                reveal_strlit("7");
                assert("7"@ =~= seq![digit_char(7)]);
            }
            "7"
        },
        8 => {
            proof {
                reveal_strlit("8");
                assert("8"@ =~= seq![digit_char(8)]);
            }
            "8"
        },
        _ => {
            proof {
                reveal_strlit("9");
                assert("9"@ =~= seq![digit_char(9)]);
            }
            "9"
        },
    }
}

/// Appends the decimal digits of `n`.
pub fn push_decimal(s: &mut String, n: u32)
    ensures
        final(s)@ == old(s)@ + decimal_chars(n as nat),
    decreases n,
{
    if n >= 10 {
        push_decimal(s, n / 10);
    }
    s.append(digit_str(n % 10));
    assert(final(s)@ =~= old(s)@ + decimal_chars(n as nat));
}

/// Appends `v` in decimal, with a minus sign when negative.
pub fn push_signed(s: &mut String, v: i32)
    ensures
        final(s)@ == old(s)@ + signed_chars(v as int),
{
    if v < 0 {
        s.append("-");
        proof {
            reveal_strlit("-");
        }
        let m: u32 = if v == i32::MIN {
            0x8000_0000
        } else {
            (-v) as u32
        };
        push_decimal(s, m);
        assert(final(s)@ =~= old(s)@ + signed_chars(v as int));
    } else {
        push_decimal(s, v as u32);
    }
}

} // verus!
