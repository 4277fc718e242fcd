//! Building diagnostic text: decimal numbers and byte literals.
use vstd::prelude::*;

verus! {

/// Appends one character to a `String`.
///
/// Calls `String::push`, whose documentation says that it appends the given
/// `char` to the end of the string; the contract states exactly that.
#[verifier::external_body]
pub(crate) fn push_char(s: &mut String, c: char)
    ensures
        final(s)@ == old(s)@.push(c),
{
    s.push(c);
}

/// The character of a decimal digit `0 <= d < 10`.
pub open spec fn digit_char(d: int) -> char {
    (48 + d) as char
}

/// The character of a lower-case hexadecimal digit `0 <= d < 16`.
pub open spec fn hex_char(d: int) -> char {
    if d < 10 {
        (48 + d) as char
    } else {
        (87 + d) as char
    }
}

/// The decimal notation of a natural number, without leading zeros.
pub open spec fn spec_decimal(n: nat) -> Seq<char>
    decreases n,
{
    if n < 10 {
        seq![digit_char(n as int)]
    } else {
        spec_decimal(n / 10) + seq![digit_char((n % 10) as int)]
    }
}

/// The decimal notation of an integer, with a leading `-` when negative.
pub open spec fn spec_decimal_i64(v: int) -> Seq<char> {
    if v < 0 {
        seq!['-'] + spec_decimal((-v) as nat)
    } else {
        spec_decimal(v as nat)
    }
}

/// The lower-case hexadecimal notation of a byte, without leading zeros.
pub open spec fn spec_hex_byte(b: u8) -> Seq<char> {
    if b < 16 {
        seq![hex_char(b as int)]
    } else {
        seq![hex_char(b as int / 16), hex_char(b as int % 16)]
    }
}

/// How a byte, read as the character with the same number (Latin-1), is
/// written as a quoted character literal: `'@'`, `'Ã'`, `'\n'`, `'\''`, or
/// `'\u{7f}'` for the control characters, the no-break space `0xa0` and the
/// soft hyphen `0xad`, which have no printable form.
pub open spec fn byte_literal_text(b: u8) -> Seq<char> {
    if b == 0 {
        seq!['\'', '\\', '0', '\'']
    } else if b == 9 {
        seq!['\'', '\\', 't', '\'']
    } else if b == 10 {
        seq!['\'', '\\', 'n', '\'']
    } else if b == 13 {
        seq!['\'', '\\', 'r', '\'']
    } else if b == 39 {
        seq!['\'', '\\', '\'', '\'']
    } else if b == 92 {
        seq!['\'', '\\', '\\', '\'']
    } else if 32 <= b <= 126 || (161 <= b && b != 173) {
        seq!['\'', b as char, '\'']
    } else {
        seq!['\'', '\\', 'u', '{'] + spec_hex_byte(b) + seq!['}', '\'']
    }
}

/// Appends the decimal notation of `n`.
pub fn push_decimal(out: &mut String, n: u64)
    ensures
        final(out)@ == old(out)@ + spec_decimal(n as nat),
    decreases n,
{
    if n >= 10 {
        push_decimal(out, n / 10);
    }
    let d: u8 = (n % 10) as u8;
    push_char(out, (48u8 + d) as char);
    assert(final(out)@ =~= old(out)@ + spec_decimal(n as nat));
}

/// Appends the decimal notation of `v`, with a leading `-` when negative.
pub fn push_decimal_i64(out: &mut String, v: i64)
    ensures
        final(out)@ == old(out)@ + spec_decimal_i64(v as int),
{
    if v < 0 {
        push_char(out, '-');
        let magnitude: u64 = if v == i64::MIN {
            9223372036854775808u64
        } else {
            (-v) as u64
        };
        push_decimal(out, magnitude);
        assert(final(out)@ =~= old(out)@ + spec_decimal_i64(v as int));
    } else {
        push_decimal(out, v as u64);
    }
}

fn push_hex_digit(out: &mut String, d: u8)
    requires
        d < 16,
    ensures
        final(out)@ == old(out)@.push(hex_char(d as int)),
{
    if d < 10 {
        push_char(out, (48u8 + d) as char);
    } else {
        push_char(out, (87u8 + d) as char);
    }
}

/// Appends the quoted character literal of a byte (see `byte_literal_text`).
pub fn push_byte_literal(out: &mut String, b: u8)
    ensures
        final(out)@ == old(out)@ + byte_literal_text(b),
{
    let ghost start = old(out)@;
    push_char(out, '\'');
    if b == 0 {
        push_char(out, '\\');
        push_char(out, '0');
    } else if b == 9 {
        push_char(out, '\\');
        push_char(out, 't');
    } else if b == 10 {
        push_char(out, '\\');
        push_char(out, 'n');
    } else if b == 13 {
        push_char(out, '\\');
        push_char(out, 'r');
    } else if b == 39 {
        push_char(out, '\\');
        push_char(out, '\'');
    } else if b == 92 {
        push_char(out, '\\');
        push_char(out, '\\');
    } else if (32 <= b && b <= 126) || (161 <= b && b != 173) {
        push_char(out, b as char);
    } else {
        push_char(out, '\\');
        push_char(out, 'u');
        push_char(out, '{');
        if b >= 16 {
            push_hex_digit(out, b / 16);
        }
        push_hex_digit(out, b % 16);
        push_char(out, '}');
    }
    push_char(out, '\'');
    assert(out@ =~= start + byte_literal_text(b));
}

} // verus!
