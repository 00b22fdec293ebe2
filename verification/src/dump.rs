//! Printing the bytes of a converted report descriptor: base64, a hex
//! string or a Python bytes literal.
use vstd::prelude::*;
use vstd::string::*;
use crate::text::{push_char, push_str_chars};

verus! {

/// The ways the bytes can be printed.
#[derive(Debug, Clone, Copy, PartialEq, Eq)]
pub enum DumpFormat {
    /// Base64 with the standard alphabet and padding.
    Base64,
    /// Two lower case hexadecimal digits per byte.
    Hex,
    /// A Python bytes literal, `b'\x01\x02'`.
    Python,
}

/// The lower case hexadecimal digit for `d < 16`.
pub open spec fn hex_lower_char(d: nat) -> char {
    if d < 10 {
        ('0' as nat + d) as char
    } else {
        ('a' as nat + d - 10) as char
    }
}

/// `format!("{:02x}", b)`.
pub open spec fn byte_hex(b: u8) -> Seq<char> {
    seq![hex_lower_char((b / 16) as nat), hex_lower_char((b % 16) as nat)]
}

/// Every byte as two lower case hexadecimal digits.
pub open spec fn hex_string(bytes: Seq<u8>) -> Seq<char>
    decreases bytes.len(),
{
    if bytes.len() == 0 {
        Seq::empty()
    } else {
        hex_string(bytes.drop_last()) + byte_hex(bytes.last())
    }
}

/// Every byte as `\x` and two lower case hexadecimal digits.
pub open spec fn escaped_bytes(bytes: Seq<u8>) -> Seq<char>
    decreases bytes.len(),
{
    if bytes.len() == 0 {
        Seq::empty()
    } else {
        escaped_bytes(bytes.drop_last()) + seq!['\\', 'x'] + byte_hex(bytes.last())
    }
}

/// The bytes as a Python bytes literal.
pub open spec fn python_literal(bytes: Seq<u8>) -> Seq<char> {
    seq!['b', '\''] + escaped_bytes(bytes) + seq!['\'']
}

fn lower_digit(d: u8) -> (c: char)
    requires
        d < 16,
    ensures
        c == hex_lower_char(d as nat),
{
    if d < 10 {
        (48 + d) as char
    } else {
        (87 + d) as char
    }
}

fn push_byte_hex(out: &mut String, b: u8)
    ensures
        final(out)@ == old(out)@ + byte_hex(b),
{
    push_char(out, lower_digit(b / 16));
    push_char(out, lower_digit(b % 16));
    assert(final(out)@ =~= old(out)@ + byte_hex(b));
}

/// The bytes as a string of lower case hexadecimal digits, two per byte.
pub fn hex_dump(bytes: &[u8]) -> (r: String)
    ensures
        r@ == hex_string(bytes@),
{
    let mut s = String::new();
    let mut i: usize = 0;
    while i < bytes.len()
        invariant
            i <= bytes@.len(),
            s@ == hex_string(bytes@.take(i as int)),
        decreases bytes@.len() - i,
    {
        assert(bytes@.take(i + 1).drop_last() =~= bytes@.take(i as int));
        push_byte_hex(&mut s, bytes[i]);
        i = i + 1;
    }
    assert(bytes@.take(bytes@.len() as int) =~= bytes@);
    s
}

/// The bytes as a Python bytes literal such as `b'\x01\x02'`.
pub fn python_dump(bytes: &[u8]) -> (r: String)
    ensures
        r@ == python_literal(bytes@),
{
    let mut s = String::new();
    push_char(&mut s, 'b');
    push_char(&mut s, '\'');
    let ghost head = s@;
    let mut i: usize = 0;
    while i < bytes.len()
        invariant
            i <= bytes@.len(),
            head == seq!['b', '\''],
            s@ == head + escaped_bytes(bytes@.take(i as int)),
        decreases bytes@.len() - i,
    {
        assert(bytes@.take(i + 1).drop_last() =~= bytes@.take(i as int));
        push_char(&mut s, '\\');
        push_char(&mut s, 'x');
        push_byte_hex(&mut s, bytes[i]);
        assert(s@ =~= head + escaped_bytes(bytes@.take(i + 1)));
        i = i + 1;
    }
    assert(bytes@.take(bytes@.len() as int) =~= bytes@);
    push_char(&mut s, '\'');
    assert(s@ =~= python_literal(bytes@));
    s
}

/// The character of the standard base64 alphabet for the six bits `v < 64`:
/// `A`-`Z`, `a`-`z`, `0`-`9`, `+` and `/`.
pub open spec fn base64_char(v: nat) -> char {
    if v < 26 {
        ('A' as nat + v) as char
    } else if v < 52 {
        ('a' as nat + (v - 26)) as char
    } else if v < 62 {
        ('0' as nat + (v - 52)) as char
    } else if v == 62 {
        '+'
    } else {
        '/'
    }
}

/// Standard base64 with padding: every group of three bytes becomes four
/// characters of six bits each, high bits first; a last group of one or two
/// bytes is filled with zero bits and padded with `=` to four characters.
pub open spec fn base64_standard(bytes: Seq<u8>) -> Seq<char>
    decreases bytes.len(),
{
    if bytes.len() == 0 {
        Seq::empty()
    } else if bytes.len() == 1 {
        let a = bytes[0] as nat;
        seq![base64_char(a / 4), base64_char((a % 4) * 16), '=', '=']
    } else if bytes.len() == 2 {
        let a = bytes[0] as nat;
        let b = bytes[1] as nat;
        seq![base64_char(a / 4), base64_char((a % 4) * 16 + b / 16), base64_char((b % 16) * 4), '=']
    } else {
        let a = bytes[0] as nat;
        let b = bytes[1] as nat;
        let c = bytes[2] as nat;
        seq![
            base64_char(a / 4),
            base64_char((a % 4) * 16 + b / 16),
            base64_char((b % 16) * 4 + c / 64),
            base64_char(c % 64),
        ] + base64_standard(bytes.skip(3))
    }
}

/// Whether the length of the base64 text of `n` bytes fits in a `usize`,
/// which the `base64` crate checks before it encodes.
pub open spec fn base64_len_fits(n: nat) -> bool {
    (n + 2) / 3 * 4 <= usize::MAX
}

/// Trusted: `base64::Engine::encode` with `general_purpose::STANDARD` gives
/// the standard base64 text of the bytes, with padding (`base64_standard`).
/// The crate panics only when the length of the encoding overflows a
/// `usize`, which `requires` rules out.
#[verifier::external_body]
fn encode_base64(bytes: &[u8]) -> (r: String)
    requires
        base64_len_fits(bytes@.len()),
    ensures
        r@ == base64_standard(bytes@),
{
    base64::Engine::encode(&base64::engine::general_purpose::STANDARD, bytes)
}

/// What the bytes print as in `format`.
pub open spec fn dump_text(bytes: Seq<u8>, format: DumpFormat) -> Seq<char> {
    match format {
        DumpFormat::Base64 => base64_standard(bytes),
        DumpFormat::Hex => hex_string(bytes),
        DumpFormat::Python => python_literal(bytes),
    }
}

/// The bytes printed in `format`.
pub fn dump_bytes(bytes: &[u8], format: DumpFormat) -> (r: String)
    requires
        base64_len_fits(bytes@.len()),
    ensures
        r@ == dump_text(bytes@, format),
{
    match format {
        DumpFormat::Base64 => encode_base64(bytes),
        DumpFormat::Hex => hex_dump(bytes),
        DumpFormat::Python => python_dump(bytes),
    }
}

} // verus!
