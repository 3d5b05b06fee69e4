use vstd::prelude::*;
use vstd::string::*;

verus! {

pub open spec fn is_digit(c: char) -> bool {
    '0' <= c && c <= '9'
}

pub open spec fn all_digits(t: Seq<char>) -> bool {
    forall|i: int| 0 <= i < t.len() ==> #[trigger] is_digit(t[i])
}

/// The number that a string of decimal digits spells.
pub open spec fn digits_value(t: Seq<char>) -> nat
    decreases t.len(),
{
    if t.len() == 0 {
        0
    } else {
        digits_value(t.drop_last()) * 10 + (t.last() as int - '0' as int) as nat
    }
}

/// The digits of an unsigned decimal text, after an optional `+`.
pub open spec fn unsigned_digits(t: Seq<char>) -> Seq<char> {
    if t.len() > 0 && t[0] == '+' {
        t.subrange(1, t.len() as int)
    } else {
        t
    }
}

/// The value of an unsigned decimal text: an optional `+`, then one digit or more.
pub open spec fn unsigned_value(t: Seq<char>) -> Option<nat> {
    let d = unsigned_digits(t);
    if d.len() > 0 && all_digits(d) {
        Some(digits_value(d))
    } else {
        None
    }
}

/// What `u8`'s decimal parser makes of `t`.
pub open spec fn u8_of(t: Seq<char>) -> Option<u8> {
    match unsigned_value(t) {
        Some(v) => if v <= 255 {
            Some(v as u8)
        } else {
            None
        },
        None => None,
    }
}

/// An unsigned decimal text's value, saturated at 256.
pub open spec fn capped_value(t: Seq<char>) -> Option<u16> {
    match unsigned_value(t) {
        Some(v) => Some(if v > 255 { 256u16 } else { v as u16 }),
        None => None,
    }
}

/// Parses a `u8` written in decimal, as `str::parse::<u8>` does.
pub fn parse_u8(s: &str) -> (r: Option<u8>)
    ensures
        r == u8_of(s@),
{
    match parse_capped(s) {
        Some(v) => if v > 255 {
            None
        } else {
            Some(v as u8)
        },
        None => None,
    }
}

/// What `isize`'s decimal parser makes of `t`: an optional sign, then one
/// digit or more, within the range of `isize`.
pub open spec fn isize_of(t: Seq<char>) -> Option<isize> {
    if t.len() > 0 && t[0] == '-' {
        let d = t.subrange(1, t.len() as int);
        if d.len() > 0 && all_digits(d) && -digits_value(d) >= isize::MIN {
            Some((-digits_value(d)) as isize)
        } else {
            None
        }
    } else {
        match unsigned_value(t) {
            Some(v) => if v <= isize::MAX {
                Some(v as isize)
            } else {
                None
            },
            None => None,
        }
    }
}

/// Parses an `isize` written in decimal, as `str::parse::<isize>` does.
pub fn parse_isize(s: &str) -> (r: Option<isize>)
    ensures
        r == isize_of(s@),
{
    let n = s.unicode_len();
    let neg = n > 0 && s.get_char(0) == '-';
    let start: usize = if n > 0 && (s.get_char(0) == '+' || s.get_char(0) == '-') {
        1
    } else {
        0
    };
    if !neg {
        assert(unsigned_digits(s@) =~= s@.subrange(start as int, n as int));
    }
    let cap: u128 = 0x1_0000_0000_0000_0000;
    match digits_capped(s, start, cap) {
        None => None,
        Some(v) => {
            if neg {
                if v <= (isize::MAX as u128) + 1 {
                    let x: i128 = -(v as i128);
                    Some(x as isize)
                } else {
                    None
                }
            } else if v <= isize::MAX as u128 {
                Some(v as isize)
            } else {
                None
            }
        },
    }
}

/// Reads an unsigned decimal text; values above 255 come back as 256.
pub fn parse_capped(s: &str) -> (r: Option<u16>)
    ensures
        r == capped_value(s@),
{
    let n = s.unicode_len();
    let start: usize = if n > 0 && s.get_char(0) == '+' {
        1
    } else {
        0
    };
    assert(unsigned_digits(s@) =~= s@.subrange(start as int, n as int));
    match digits_capped(s, start, 256) {
        Some(v) => Some(v as u16),
        None => None,
    }
}

/// The value of the digits `s[start..]`, saturated at `cap`; `None` unless
/// they are one digit or more.
pub fn digits_capped(s: &str, start: usize, cap: u128) -> (r: Option<u128>)
    requires
        start <= s@.len(),
        cap <= 0x1_0000_0000_0000_0000,
    ensures
        r == (if s@.subrange(start as int, s@.len() as int).len() > 0 && all_digits(
            s@.subrange(start as int, s@.len() as int),
        ) {
            Some(
                if digits_value(s@.subrange(start as int, s@.len() as int)) > cap {
                    cap
                } else {
                    digits_value(s@.subrange(start as int, s@.len() as int)) as u128
                },
            )
        } else {
            None::<u128>
        }),
{
    let n = s.unicode_len();
    let ghost d = s@.subrange(start as int, n as int);
    if start == n {
        return None;
    }
    let mut v: u128 = 0;
    let mut i: usize = start;
    while i < n
        invariant
            n == s@.len(),
            start <= i <= n,
            cap <= 0x1_0000_0000_0000_0000,
            d == s@.subrange(start as int, n as int),
            forall|k: int| start <= k < i ==> #[trigger] is_digit(s@[k]),
            v == if digits_value(s@.subrange(start as int, i as int)) > cap {
                cap as nat
            } else {
                digits_value(s@.subrange(start as int, i as int))
            },
        decreases n - i,
    {
        let c = s.get_char(i);
        if !('0' <= c && c <= '9') {
            assert(!is_digit(d[i - start]));
            assert(!all_digits(d));
            return None;
        }
        let ghost pre = s@.subrange(start as int, i as int);
        assert(s@.subrange(start as int, i + 1).drop_last() =~= pre);
        let digit = ((c as u32) - ('0' as u32)) as u128;
        if v >= cap {
            v = cap;
        } else {
            v = v * 10 + digit;
            if v > cap {
                v = cap;
            }
        }
        i = i + 1;
    }
    assert(forall|k: int| 0 <= k < d.len() ==> #[trigger] is_digit(d[k]) <== is_digit(s@[k + start]));
    assert(s@.subrange(start as int, n as int) =~= d);
    Some(v)
}

} // verus!
