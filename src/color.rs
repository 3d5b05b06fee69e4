use vstd::prelude::*;
use vstd::string::*;

verus! {

/// An RGB triplet, one byte per channel.
pub type Color = (u8, u8, u8);

/// Value of one hexadecimal digit, either case.
pub open spec fn hex_digit(c: char) -> Option<u8> {
    if '0' <= c && c <= '9' {
        Some((c as u32 - '0' as u32) as u8)
    } else if 'a' <= c && c <= 'f' {
        Some((c as u32 - 'a' as u32 + 10) as u8)
    } else if 'A' <= c && c <= 'F' {
        Some((c as u32 - 'A' as u32 + 10) as u8)
    } else {
        None
    }
}

pub open spec fn is_hex_digit(c: char) -> bool {
    hex_digit(c) is Some
}

/// Byte given by the two hex digits `s[i]` and `s[i + 1]`.
pub open spec fn hex_byte(s: Seq<char>, i: int) -> u8 {
    (hex_digit(s[i]).unwrap() * 16 + hex_digit(s[i + 1]).unwrap()) as u8
}

/// The color an `RRGGBB` text denotes, if it is one.
pub open spec fn rgb_of(s: Seq<char>) -> Option<Color> {
    if s.len() == 6 && forall|i: int| 0 <= i < 6 ==> #[trigger] is_hex_digit(s[i]) {
        Some((hex_byte(s, 0), hex_byte(s, 2), hex_byte(s, 4)))
    } else {
        None
    }
}

pub trait ColorMethods: Sized {
    const BLACK: Self;
    const WHITE: Self;

    const RED: Self;
    const GREEN: Self;
    const BLUE: Self;

    const YELLOW: Self;
    const CYAN: Self;
    const MAGENTA: Self;

    /// The value `s` denotes, if any.
    spec fn parsed(s: Seq<char>) -> Option<Self>;

    fn from_str(s: &str) -> (r: Result<Self, String>)
        ensures
            match r {
                Ok(c) => Self::parsed(s@) == Some(c),
                Err(m) => Self::parsed(s@) is None && m@ == s@ + " is not an RRGGBB value"@,
            },
    ;
}

fn hex_nibble(c: char) -> (r: Option<u8>)
    ensures
        r == hex_digit(c),
{
    if '0' <= c && c <= '9' {
        Some((c as u32 - '0' as u32) as u8)
    } else if 'a' <= c && c <= 'f' {
        Some((c as u32 - 'a' as u32 + 10) as u8)
    } else if 'A' <= c && c <= 'F' {
        Some((c as u32 - 'A' as u32 + 10) as u8)
    } else {
        None
    }
}

impl ColorMethods for Color {
    const BLACK: Color = (0x00, 0x00, 0x00);
    const WHITE: Color = (0xff, 0xff, 0xff);

    const RED: Color = (0xff, 0x00, 0x00);
    const GREEN: Color = (0x00, 0xff, 0x00);
    const BLUE: Color = (0x00, 0x00, 0xff);

    const YELLOW: Color = (0xff, 0xff, 0x00);
    const CYAN: Color = (0x00, 0xff, 0xff);
    const MAGENTA: Color = (0xff, 0x00, 0xff);

    open spec fn parsed(s: Seq<char>) -> Option<Color> {
        rgb_of(s)
    }

    fn from_str(s: &str) -> (r: Result<Color, String>) {
        let n = s.unicode_len();
        if n != 6 {
            let mut m = s.to_owned();
            m.append(" is not an RRGGBB value");
            return Err(m);
        }
        let mut bytes: Vec<u8> = Vec::new();
        let mut i: usize = 0;
        while i < 6
            invariant
                n == 6,
                s@.len() == 6,
                0 <= i <= 6,
                bytes@.len() == i,
                forall|k: int| 0 <= k < i ==> #[trigger] is_hex_digit(s@[k]),
                forall|k: int| 0 <= k < i ==> bytes@[k] == hex_digit(s@[k]).unwrap(),
                forall|k: int| 0 <= k < i ==> bytes@[k] < 16,
            decreases 6 - i,
        {
            match hex_nibble(s.get_char(i)) {
                Some(v) => bytes.push(v),
                None => {
                    assert(!is_hex_digit(s@[i as int]));
                    let mut m = s.to_owned();
                    m.append(" is not an RRGGBB value");
                    return Err(m);
                },
            }
            i = i + 1;
        }
        Ok((bytes[0] * 16 + bytes[1], bytes[2] * 16 + bytes[3], bytes[4] * 16 + bytes[5]))
    }
}

} // verus!
