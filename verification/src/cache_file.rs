//! Names of the files that hold a cached SFMT output stream.

use vstd::prelude::*;
use crate::text::{decimal_text, join_text, number_text};

verus! {

/// Uppercase hexadecimal digit of `d` (0..16).
pub open spec fn hex_digit(d: int) -> char {
    if d < 10 {
        (d + '0' as int) as char
    } else {
        (d - 10 + 'A' as int) as char
    }
}

/// `v` as exactly eight uppercase hexadecimal digits.
pub open spec fn hex8_text(v: u32) -> Seq<char> {
    Seq::new(8, |i: int| hex_digit(((v as int) / pow16(7 - i)) % 16))
}

pub open spec fn pow16(k: int) -> int
    decreases k,
{
    if k <= 0 {
        1
    } else {
        16 * pow16(k - 1)
    }
}

/// A signed integer in decimal, `-` before a negative one.
pub open spec fn signed_decimal_text(n: int) -> Seq<char> {
    if n < 0 {
        "-"@ + decimal_text((-n) as nat)
    } else {
        decimal_text(n as nat)
    }
}

/// `format!("{:08X}", v)`.
#[verifier::external_body]
fn hex8(v: u32) -> (r: String)
    ensures
        r@ == hex8_text(v),
{
    format!("{:08X}", v)
}

fn signed_number(n: i64) -> (r: String)
    ensures
        r@ == signed_decimal_text(n as int),
{
    if n < 0 {
        let magnitude: u64 = (-(n as i128)) as u64;
        join_text("-", &number_text(magnitude))
    } else {
        number_text(n as u64)
    }
}

/// The cache file of the stream of `seed` up to `last_position`:
/// `sfmt_<seed in 8 hex digits>_<last position>.bin`.
pub fn cache_file_name(seed: u32, last_position: i64) -> (r: String)
    ensures
        r@ == "sfmt_"@ + hex8_text(seed) + "_"@ + signed_decimal_text(last_position as int) + ".bin"@,
{
    let a = join_text("sfmt_", &hex8(seed));
    let b = join_text(&a, "_");
    let c = join_text(&b, &signed_number(last_position));
    join_text(&c, ".bin")
}

/// A tone of the fallback notification: frequency in hertz, length in
/// milliseconds.
pub type Tone = (u32, u32);

/// The fallback tone of a blink notification.
pub fn fallback_beep() -> (r: Vec<Tone>)
    ensures
        r@ == seq![(880u32, 120u32)],
{
    let mut v: Vec<Tone> = Vec::new();
    v.push((880, 120));
    v
}

/// The fallback tones when no candidate was found: a falling pair.
pub fn fallback_candidate_not_found() -> (r: Vec<Tone>)
    ensures
        r@ == seq![(330u32, 120u32), (220u32, 160u32)],
{
    let mut v: Vec<Tone> = Vec::new();
    v.push((330, 120));
    v.push((220, 160));
    v
}

} // verus!
