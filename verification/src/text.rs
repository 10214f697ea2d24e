//! The text that integer formatting produces, as used in messages.
use vstd::prelude::*;

verus! {

/// The character of decimal digit `d` (`d < 10`).
pub open spec fn digit_char(d: nat) -> char {
    (0x30 + d) as char
}

/// `n` in decimal, most significant digit first, with no leading zeros
/// (`"0"` for zero): what `{}` prints for an unsigned integer.
pub open spec fn decimal(n: nat) -> Seq<char>
    decreases n,
{
    if n < 10 {
        seq![digit_char(n)]
    } else {
        decimal(n / 10) + seq![digit_char(n % 10)]
    }
}

/// The character of hexadecimal digit `d` (`d < 16`), upper case.
pub open spec fn hex_digit_char(d: nat) -> char {
    if d < 10 {
        digit_char(d)
    } else {
        (0x41 + d - 10) as char
    }
}

/// `v` as `0x` and four upper-case hexadecimal digits: what `{:#06X}`
/// prints for a `u16`.
pub open spec fn hex4(v: u16) -> Seq<char> {
    let n = v as nat;
    seq!['0', 'x'] + seq![
        hex_digit_char((n / 0x1000) % 16),
        hex_digit_char((n / 0x100) % 16),
        hex_digit_char((n / 0x10) % 16),
        hex_digit_char(n % 16),
    ]
}

} // verus!
