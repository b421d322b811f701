//! Reading numbers from the user's text fields, and composing the messages
//! that report a bad field.

use vstd::prelude::*;
use vstd::string::StringExecFns;

verus! {

/// Unicode `White_Space`, the characters `str::trim` removes.
pub open spec fn is_white_space(c: char) -> bool {
    let n = c as int;
    ||| 0x9 <= n <= 0xd
    ||| n == 0x20
    ||| n == 0x85
    ||| n == 0xa0
    ||| n == 0x1680
    ||| 0x2000 <= n <= 0x200a
    ||| n == 0x2028
    ||| n == 0x2029
    ||| n == 0x202f
    ||| n == 0x205f
    ||| n == 0x3000
}

pub open spec fn trim_start_spec(s: Seq<char>) -> Seq<char>
    decreases s.len(),
{
    if s.len() > 0 && is_white_space(s[0]) {
        trim_start_spec(s.drop_first())
    } else {
        s
    }
}

pub open spec fn trim_end_spec(s: Seq<char>) -> Seq<char>
    decreases s.len(),
{
    if s.len() > 0 && is_white_space(s.last()) {
        trim_end_spec(s.drop_last())
    } else {
        s
    }
}

/// The text without leading and trailing white space.
pub open spec fn trimmed(s: Seq<char>) -> Seq<char> {
    trim_end_spec(trim_start_spec(s))
}

pub open spec fn is_decimal_digit(c: char) -> bool {
    '0' as int <= c as int <= '9' as int
}

pub open spec fn all_decimal_digits(s: Seq<char>) -> bool {
    forall|i: int| 0 <= i < s.len() ==> is_decimal_digit(#[trigger] s[i])
}

/// The value of a run of decimal digits.
pub open spec fn decimal_value(s: Seq<char>) -> int
    decreases s.len(),
{
    if s.len() == 0 {
        0
    } else {
        decimal_value(s.drop_last()) * 10 + (s.last() as int - '0' as int)
    }
}

/// What `str::parse::<i64>` accepts: an optional sign, then one or more
/// decimal digits, with a value in range.
pub open spec fn parsed_i64(s: Seq<char>) -> Option<i64> {
    let negative = s.len() > 0 && s[0] == '-';
    let signed = s.len() > 0 && (s[0] == '-' || s[0] == '+');
    let digits = if signed { s.drop_first() } else { s };
    let v = if negative { -decimal_value(digits) } else { decimal_value(digits) };
    if digits.len() == 0 || !all_decimal_digits(digits) || v < i64::MIN || v > i64::MAX {
        None
    } else {
        Some(v as i64)
    }
}

/// What `str::parse` accepts for an unsigned type with largest value
/// `max`: an optional `+`, then one or more decimal digits, in range.
pub open spec fn parsed_unsigned(s: Seq<char>, max: int) -> Option<int> {
    let digits = if s.len() > 0 && s[0] == '+' { s.drop_first() } else { s };
    if digits.len() == 0 || !all_decimal_digits(digits) || decimal_value(digits) > max {
        None
    } else {
        Some(decimal_value(digits))
    }
}

pub open spec fn hex_digit_value(c: char) -> int {
    let n = c as int;
    if '0' as int <= n <= '9' as int {
        n - '0' as int
    } else if 'a' as int <= n <= 'f' as int {
        n - 'a' as int + 10
    } else if 'A' as int <= n <= 'F' as int {
        n - 'A' as int + 10
    } else {
        -1
    }
}

pub open spec fn all_hex_digits(s: Seq<char>) -> bool {
    forall|i: int| 0 <= i < s.len() ==> hex_digit_value(#[trigger] s[i]) >= 0
}

pub open spec fn hex_value(s: Seq<char>) -> int
    decreases s.len(),
{
    if s.len() == 0 {
        0
    } else {
        hex_value(s.drop_last()) * 16 + hex_digit_value(s.last())
    }
}

/// What `u32::from_str_radix(_, 16)` accepts: an optional `+`, then one or
/// more hexadecimal digits, with a value that fits.
pub open spec fn parsed_hex_u32(s: Seq<char>) -> Option<u32> {
    let digits = if s.len() > 0 && s[0] == '+' { s.drop_first() } else { s };
    if digits.len() == 0 || !all_hex_digits(digits) || hex_value(digits) > u32::MAX {
        None
    } else {
        Some(hex_value(digits) as u32)
    }
}

/// The text with every leading `0x` removed, as `trim_start_matches("0x")`.
pub open spec fn strip_hex_prefix(s: Seq<char>) -> Seq<char>
    decreases s.len(),
{
    if s.len() >= 2 && s[0] == '0' && s[1] == 'x' {
        strip_hex_prefix(s.subrange(2, s.len() as int))
    } else {
        s
    }
}

/// The NPC range separators, ASCII and full-width tilde.
pub open spec fn is_range_separator(c: char) -> bool {
    c == '~' || c == '～'
}

/// The pieces between separators, as `str::split` yields them: the text
/// read left to right, a separator closing the current piece.
pub open spec fn split_pieces(s: Seq<char>) -> Seq<Seq<char>>
    decreases s.len(),
{
    if s.len() == 0 {
        seq![Seq::<char>::empty()]
    } else {
        let prev = split_pieces(s.drop_last());
        if is_range_separator(s.last()) {
            prev.push(Seq::<char>::empty())
        } else {
            prev.update(prev.len() - 1, prev.last().push(s.last()))
        }
    }
}

/// Decimal representation of a natural number.
pub open spec fn decimal_text(n: nat) -> Seq<char>
    decreases n,
{
    if n < 10 {
        seq![(n + '0' as nat) as char]
    } else {
        decimal_text(n / 10).push(((n % 10) + '0' as nat) as char)
    }
}

/// `str::trim`.
#[verifier::external_body]
pub(crate) fn trim_text(s: &str) -> (r: &str)
    ensures
        r@ == trimmed(s@),
{
    s.trim()
}

/// `str::parse::<i64>`, with the error dropped.
#[verifier::external_body]
pub(crate) fn parse_i64(s: &str) -> (r: Option<i64>)
    ensures
        r == parsed_i64(s@),
{
    s.parse::<i64>().ok()
}

/// `str::parse::<u64>`, with the error dropped.
#[verifier::external_body]
pub(crate) fn parse_u64(s: &str) -> (r: Option<u64>)
    ensures
        r is Some <==> parsed_unsigned(s@, u64::MAX as int) is Some,
        r is Some ==> r->0 == parsed_unsigned(s@, u64::MAX as int)->0,
{
    s.parse::<u64>().ok()
}

/// `str::parse::<usize>`, with the error dropped.
#[verifier::external_body]
pub(crate) fn parse_usize(s: &str) -> (r: Option<usize>)
    ensures
        r is Some <==> parsed_unsigned(s@, usize::MAX as int) is Some,
        r is Some ==> r->0 == parsed_unsigned(s@, usize::MAX as int)->0,
{
    s.parse::<usize>().ok()
}

/// `u32::from_str_radix(s, 16)`, with the error dropped.
#[verifier::external_body]
pub(crate) fn parse_hex_u32(s: &str) -> (r: Option<u32>)
    ensures
        r == parsed_hex_u32(s@),
{
    u32::from_str_radix(s, 16).ok()
}

/// `str::trim_start_matches("0x")`.
#[verifier::external_body]
pub(crate) fn strip_hex_prefix_text(s: &str) -> (r: &str)
    ensures
        r@ == strip_hex_prefix(s@),
{
    s.trim_start_matches("0x")
}

/// `str::split` on the NPC range separators, each piece copied out.
#[verifier::external_body]
pub(crate) fn split_range_text(s: &str) -> (r: Vec<String>)
    ensures
        r@.len() == split_pieces(s@).len(),
        forall|i: int| 0 <= i < r@.len() ==> (#[trigger] r@[i])@ == split_pieces(s@)[i],
{
    s.split(['~', '～']).map(|piece| piece.to_string()).collect()
}

/// Two texts side by side.
pub(crate) fn join_text(a: &str, b: &str) -> (r: String)
    ensures
        r@ == a@ + b@,
{
    let mut r = String::from_str(a);
    r.append(b);
    r
}

/// `format!` of a number in decimal.
#[verifier::external_body]
pub(crate) fn number_text(n: u64) -> (r: String)
    ensures
        r@ == decimal_text(n as nat),
{
    format!("{}", n)
}

/// Message for a field that is not an integer.
pub open spec fn not_integer_message(label: Seq<char>) -> Seq<char> {
    label + "は整数で入力してください。"@
}

/// Message for a field that is negative.
pub open spec fn negative_message(label: Seq<char>) -> Seq<char> {
    label + "は0以上で入力してください。"@
}

/// A non-negative integer read from a text field, surrounding white space
/// ignored.
pub fn parse_nonnegative(text: &str, label: &str) -> (r: Result<i64, String>)
    ensures
        ({
            let p = parsed_i64(trimmed(text@));
            &&& p is None ==> r is Err && r->Err_0@ == not_integer_message(label@)
            &&& (p is Some && p->0 < 0) ==> r is Err && r->Err_0@ == negative_message(label@)
            &&& (p is Some && p->0 >= 0) ==> r == Ok::<i64, String>(p->0)
        }),
{
    let value = match parse_i64(trim_text(text)) {
        Some(v) => v,
        None => {
            let suffix = "は整数で入力してください。";
            return Err(join_text(label, suffix));
        },
    };
    if value < 0 {
        let suffix = "は0以上で入力してください。";
        return Err(join_text(label, suffix));
    }
    Ok(value)
}

} // verus!
