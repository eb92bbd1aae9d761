//! Hexadecimal rendering of byte buffers, two digits per byte, for showing
//! raw input in diagnostics. Returned as ASCII bytes; a caller that wants a
//! `String` converts the bytes it gets.

use vstd::prelude::*;
use vstd::slice::slice_index_get;

verus! {

/// The upper-case ASCII hex digit for `n`, which must be below 16.
pub open spec fn hex_digit_upper(n: u8) -> u8 {
    if n < 10 {
        (48 + n) as u8
    } else {
        (55 + n) as u8
    }
}

/// The lower-case ASCII hex digit for `n`, which must be below 16.
pub open spec fn hex_digit_lower(n: u8) -> u8 {
    if n < 10 {
        (48 + n) as u8
    } else {
        (87 + n) as u8
    }
}

/// The upper-case hex rendering of a byte sequence: for each byte, the digit
/// of its high nibble, then the digit of its low nibble.
pub open spec fn hex_upper_of(s: Seq<u8>) -> Seq<u8> {
    Seq::new(
        2 * s.len(),
        |i: int| if i % 2 == 0 {
            hex_digit_upper((s[i / 2] / 16) as u8)
        } else {
            hex_digit_upper((s[i / 2] % 16) as u8)
        },
    )
}

/// The lower-case hex rendering of a byte sequence.
pub open spec fn hex_lower_of(s: Seq<u8>) -> Seq<u8> {
    Seq::new(
        2 * s.len(),
        |i: int| if i % 2 == 0 {
            hex_digit_lower((s[i / 2] / 16) as u8)
        } else {
            hex_digit_lower((s[i / 2] % 16) as u8)
        },
    )
}

/// One hex digit, in the requested case.
fn hex_digit(n: u8, upper: bool) -> (r: u8)
    requires
        n < 16,
    ensures
        r == if upper {
            hex_digit_upper(n)
        } else {
            hex_digit_lower(n)
        },
{
    if n < 10 {
        48 + n
    } else if upper {
        55 + n
    } else {
        87 + n
    }
}

/// Renders `bytes` as upper-case hex, two digits per byte.
pub fn upper_hex(bytes: &[u8]) -> (r: Vec<u8>)
    ensures
        r@ == hex_upper_of(bytes@),
{
    let mut out: Vec<u8> = Vec::new();
    let mut i: usize = 0;
    while i < bytes.len()
        invariant
            i <= bytes@.len(),
            out@.len() == 2 * i,
            forall|j: int| 0 <= j < out@.len() ==> out@[j] == hex_upper_of(bytes@)[j],
        decreases bytes@.len() - i,
    {
        let b = *slice_index_get(bytes, i);
        out.push(hex_digit(b / 16, true));
        out.push(hex_digit(b % 16, true));
        i += 1;
    }
    proof {
        assert(out@ =~= hex_upper_of(bytes@));
    }
    out
}

/// Renders `bytes` as lower-case hex, two digits per byte.
pub fn lower_hex(bytes: &[u8]) -> (r: Vec<u8>)
    ensures
        r@ == hex_lower_of(bytes@),
{
    let mut out: Vec<u8> = Vec::new();
    let mut i: usize = 0;
    while i < bytes.len()
        invariant
            i <= bytes@.len(),
            out@.len() == 2 * i,
            forall|j: int| 0 <= j < out@.len() ==> out@[j] == hex_lower_of(bytes@)[j],
        decreases bytes@.len() - i,
    {
        let b = *slice_index_get(bytes, i);
        out.push(hex_digit(b / 16, false));
        out.push(hex_digit(b % 16, false));
        i += 1;
    }
    proof {
        assert(out@ =~= hex_lower_of(bytes@));
    }
    out
}

} // verus!
