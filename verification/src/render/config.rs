//! Parsing of `#rrggbb` colors as the renderer reads them from the
//! configuration.

use vstd::prelude::*;
use vstd::utf8::encode_utf8;

verus! {

broadcast use vstd::utf8::encode_utf8_valid_utf8;

/// The value of an ASCII hexadecimal digit.
pub open spec fn hex_digit(b: u8) -> Option<u8> {
    if 48 <= b <= 57 {
        Some((b - 48) as u8)
    } else if 97 <= b <= 102 {
        Some((b - 87) as u8)
    } else if 65 <= b <= 70 {
        Some((b - 55) as u8)
    } else {
        None
    }
}

/// The byte that two hex digits stand for; a pair that is not two hex
/// digits (a sign among them) stands for none.
pub open spec fn hex_pair(b0: u8, b1: u8) -> Option<u8> {
    match (hex_digit(b0), hex_digit(b1)) {
        (Some(h), Some(l)) => Some((h * 16 + l) as u8),
        _ => None,
    }
}

/// The text without a leading `#`.
pub open spec fn without_hash(b: Seq<u8>) -> Seq<u8> {
    if b.len() > 0 && b[0] == 35 {
        b.skip(1)
    } else {
        b
    }
}

/// The color that a hex text stands for: six hex digits after an optional
/// `#`, two for each of red, green and blue.
pub open spec fn hex_rgb(b: Seq<u8>) -> Option<(u8, u8, u8)> {
    let h = without_hash(b);
    if h.len() != 6 {
        None
    } else {
        match (hex_pair(h[0], h[1]), hex_pair(h[2], h[3]), hex_pair(h[4], h[5])) {
            (Some(r), Some(g), Some(bl)) => Some((r, g, bl)),
            _ => None,
        }
    }
}

fn hex_digit_exec(b: u8) -> (r: Option<u8>)
    ensures
        r == hex_digit(b),
{
    if 48 <= b && b <= 57 {
        Some(b - 48)
    } else if 97 <= b && b <= 102 {
        Some(b - 87)
    } else if 65 <= b && b <= 70 {
        Some(b - 55)
    } else {
        None
    }
}

fn hex_pair_exec(b0: u8, b1: u8) -> (r: Option<u8>)
    ensures
        r == hex_pair(b0, b1),
{
    match (hex_digit_exec(b0), hex_digit_exec(b1)) {
        (Some(h), Some(l)) => Some(h * 16 + l),
        _ => None,
    }
}

/// Parse a hex color string like "#1e1e2e" or "1e1e2e" into its red, green
/// and blue components.
///
/// Returns `None` if the string is not a valid 6-digit hex color.
pub fn parse_hex_rgb(hex: &str) -> (r: Option<(u8, u8, u8)>)
    ensures
        r == hex_rgb(encode_utf8(hex@)),
{
    let bytes = hex.as_bytes();
    let ghost all = encode_utf8(hex@);
    let off: usize = if bytes.len() > 0 && bytes[0] == 35 {
        1
    } else {
        0
    };
    let ghost h = without_hash(all);
    proof {
        if off == 1 {
            assert(h =~= all.skip(1));
        }
    }
    if bytes.len() - off != 6 {
        return None;
    }
    assert(forall|k: int| 0 <= k < 6 ==> h[k] == bytes@[off + k]);
    let r = hex_pair_exec(bytes[off], bytes[off + 1]);
    let r = match r {
        Some(v) => v,
        None => {
            return None;
        },
    };
    let g = match hex_pair_exec(bytes[off + 2], bytes[off + 3]) {
        Some(v) => v,
        None => {
            return None;
        },
    };
    let b = match hex_pair_exec(bytes[off + 4], bytes[off + 5]) {
        Some(v) => v,
        None => {
            return None;
        },
    };
    Some((r, g, b))
}

} // verus!
