//! Rendering numbers as text, for error messages.
use vstd::prelude::*;
use vstd::string::StringExecFns;

verus! {

/// One decimal digit.
pub open spec fn digit_text(d: int) -> Seq<char> {
    if d == 0 {
        "0"@
    } else if d == 1 {
        "1"@
    } else if d == 2 {
        "2"@
    } else if d == 3 {
        "3"@
    } else if d == 4 {
        "4"@
    } else if d == 5 {
        "5"@
    } else if d == 6 {
        "6"@
    } else if d == 7 {
        "7"@
    } else if d == 8 {
        "8"@
    } else if d == 9 {
        "9"@
    } else if d == 10 {
        "a"@
    } else if d == 11 {
        "b"@
    } else if d == 12 {
        "c"@
    } else if d == 13 {
        "d"@
    } else if d == 14 {
        "e"@
    } else {
        "f"@
    }
}

/// The decimal digits of `n`, most significant first.
pub open spec fn digits(n: nat) -> Seq<char>
    decreases n,
{
    if n < 10 {
        digit_text(n as int)
    } else {
        digits(n / 10) + digit_text((n % 10) as int)
    }
}

/// `n` in decimal, with a leading minus sign when it is negative.
pub open spec fn decimal(n: int) -> Seq<char> {
    if n < 0 {
        "-"@ + digits((-n) as nat)
    } else {
        digits(n as nat)
    }
}

/// The lowest `count` hexadecimal digits of `n`, most significant first.
pub open spec fn hex_digits(n: nat, count: nat) -> Seq<char>
    decreases count,
{
    if count == 0 {
        Seq::empty()
    } else {
        hex_digits(n / 16, (count - 1) as nat) + digit_text((n % 16) as int)
    }
}

/// A 32-bit word as `0x` and eight digits.
pub open spec fn hex_word(n: u32) -> Seq<char> {
    "0x"@ + hex_digits(n as nat, 8)
}

fn digit_str(d: u32) -> (r: &'static str)
    requires
        d < 16,
    ensures
        r@ == digit_text(d as int),
{
    match d {
        0 => "0",
        1 => "1",
        2 => "2",
        3 => "3",
        4 => "4",
        5 => "5",
        6 => "6",
        7 => "7",
        8 => "8",
        9 => "9",
        10 => "a",
        11 => "b",
        12 => "c",
        13 => "d",
        14 => "e",
        _ => "f",
    }
}

fn append_digits(out: &mut String, n: u128)
    ensures
        final(out)@ == old(out)@ + digits(n as nat),
    decreases n,
{
    if n < 10 {
        out.append(digit_str(n as u32));
    } else {
        append_digits(out, n / 10);
        out.append(digit_str((n % 10) as u32));
        assert(out@ =~= old(out)@ + digits(n as nat));
    }
}

/// Appends `n` in decimal.
pub fn append_int(out: &mut String, n: i128)
    requires
        n > i128::MIN,
    ensures
        final(out)@ == old(out)@ + decimal(n as int),
{
    if n < 0 {
        out.append("-");
        append_digits(out, (-n) as u128);
        assert(out@ =~= old(out)@ + decimal(n as int));
    } else {
        append_digits(out, n as u128);
    }
}

fn append_hex_digits(out: &mut String, n: u32, count: u32)
    ensures
        final(out)@ == old(out)@ + hex_digits(n as nat, count as nat),
    decreases count,
{
    if count > 0 {
        append_hex_digits(out, n / 16, count - 1);
        out.append(digit_str(n % 16));
        assert(out@ =~= old(out)@ + hex_digits(n as nat, count as nat));
    } else {
        assert(out@ =~= old(out)@ + hex_digits(n as nat, count as nat));
    }
}

/// Appends a 32-bit word as `0x` and eight digits.
pub fn append_hex_word(out: &mut String, n: u32)
    ensures
        final(out)@ == old(out)@ + hex_word(n),
{
    out.append("0x");
    append_hex_digits(out, n, 8);
    assert(out@ =~= old(out)@ + hex_word(n));
}

/// `{:?}` of a text: the text in double quotes, with the escapes the standard
/// library's `Debug` for `str` uses.
pub uninterp spec fn quoted(text: Seq<char>) -> Seq<char>;

/// Renders a text as the standard library's `Debug` for `str` does. Claimed of
/// that rendering: it depends on the text alone.
#[verifier::external_body]
pub(crate) fn quote(text: &str) -> (r: String)
    ensures
        r@ == quoted(text@),
{
    format!("{:?}", text)
}

} // verus!
