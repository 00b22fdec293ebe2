//! Hexadecimal numbers: parsing as `u32::from_str_radix(s, 16)` does, and
//! printing in upper case as `format!("{:0width$X}")` does.
use vstd::prelude::*;
use vstd::string::*;

verus! {

/// The value of a hexadecimal digit (either case).
pub open spec fn hex_digit_value(c: char) -> Option<nat> {
    if '0' <= c && c <= '9' {
        Some((c as nat - '0' as nat) as nat)
    } else if 'a' <= c && c <= 'f' {
        Some((c as nat - 'a' as nat + 10) as nat)
    } else if 'A' <= c && c <= 'F' {
        Some((c as nat - 'A' as nat + 10) as nat)
    } else {
        None
    }
}

/// The value of a string made only of hexadecimal digits, most
/// significant first; `None` when any character is not one.  The empty
/// string has the value 0.
pub open spec fn hex_value(s: Seq<char>) -> Option<nat>
    decreases s.len(),
{
    if s.len() == 0 {
        Some(0)
    } else {
        match (hex_value(s.drop_last()), hex_digit_value(s.last())) {
            (Some(v), Some(d)) => Some(16 * v + d),
            _ => None,
        }
    }
}

/// What `u32::from_str_radix(s, 16)` accepts: an optional `+`, then at
/// least one hexadecimal digit, with a value that fits in 32 bits.
pub open spec fn spec_parse_hex_u32(s: Seq<char>) -> Option<u32> {
    let digits = if s.len() > 0 && s[0] == '+' {
        s.skip(1)
    } else {
        s
    };
    if digits.len() == 0 {
        None
    } else {
        match hex_value(digits) {
            Some(v) => if v <= u32::MAX {
                Some(v as u32)
            } else {
                None
            },
            None => None,
        }
    }
}

fn digit_value(c: char) -> (r: Option<u32>)
    ensures
        match hex_digit_value(c) {
            Some(d) => r == Some(d as u32),
            None => r is None,
        },
{
    if '0' <= c && c <= '9' {
        Some((c as u32) - ('0' as u32))
    } else if 'a' <= c && c <= 'f' {
        Some((c as u32) - ('a' as u32) + 10)
    } else if 'A' <= c && c <= 'F' {
        Some((c as u32) - ('A' as u32) + 10)
    } else {
        None
    }
}

proof fn lemma_hex_value_stays_none(s: Seq<char>, j: int, m: int)
    requires
        0 <= j <= m <= s.len(),
        hex_value(s.take(j)) is None,
    ensures
        hex_value(s.take(m)) is None,
    decreases m - j,
{
    if j < m {
        assert(s.take(j + 1).drop_last() =~= s.take(j));
        lemma_hex_value_stays_none(s, j + 1, m);
    }
}

proof fn lemma_hex_value_grows(v: nat, d: nat)
    requires
        v > u32::MAX,
    ensures
        16 * v + d > u32::MAX,
{
}

/// Parses `s` as `u32::from_str_radix(s, 16)` does.
pub fn parse_hex_u32(s: &str) -> (r: Option<u32>)
    ensures
        r == spec_parse_hex_u32(s@),
{
    let n = s.unicode_len();
    let start: usize = if n > 0 && s.get_char(0) == '+' {
        1
    } else {
        0
    };
    let ghost digits = s@.skip(start as int);
    assert(start == 0 ==> digits =~= s@);
    if start == n {
        return None;
    }
    let mut acc: u32 = 0;
    let mut overflow = false;
    let mut i = start;
    assert(digits.take(0) =~= Seq::<char>::empty());
    while i < n
        invariant
            start <= i <= n,
            n == s@.len(),
            start == 0 || start == 1,
            (start == 1) == (s@.len() > 0 && s@[0] == '+'),
            digits == s@.skip(start as int),
            !overflow ==> hex_value(digits.take(i - start)) == Some(acc as nat),
            overflow ==> match hex_value(digits.take(i - start)) {
                Some(v) => v > u32::MAX,
                None => true,
            },
        decreases n - i,
    {
        let c = s.get_char(i);
        let ghost k = i - start;
        assert(digits.take(k + 1).drop_last() =~= digits.take(k));
        assert(digits.take(k + 1).last() == c);
        match digit_value(c) {
            None => {
                proof {
                    assert(hex_value(digits.take(k + 1)) is None);
                    lemma_hex_value_stays_none(digits, k + 1, digits.len() as int);
                    assert(digits.take(digits.len() as int) =~= digits);
                    assert(start == 0 ==> digits =~= s@);
                }
                return None;
            },
            Some(d) => {
                if !overflow {
                    if acc <= 0x0fff_ffff {
                        acc = acc * 16 + d;
                    } else {
                        assert(16 * (acc as nat) + d > u32::MAX) by (nonlinear_arith)
                            requires
                                acc > 0x0fff_ffff,
                        ;
                        overflow = true;
                    }
                } else {
                    proof {
                        if let Some(v) = hex_value(digits.take(k)) {
                            lemma_hex_value_grows(v, d as nat);
                        }
                    }
                }
            },
        }
        i = i + 1;
    }
    assert(digits.take(n - start) =~= digits);
    if overflow {
        None
    } else {
        Some(acc)
    }
}

/// The upper case hexadecimal digit for `d < 16`.
pub open spec fn hex_upper_char(d: nat) -> char {
    if d < 10 {
        ('0' as nat + d) as char
    } else {
        ('A' as nat + d - 10) as char
    }
}

/// The upper case hexadecimal digits of `v`, without leading zeros (`0`
/// for zero).
pub open spec fn hex_digits(v: nat) -> Seq<char>
    decreases v,
{
    if v < 16 {
        seq![hex_upper_char(v)]
    } else {
        hex_digits(v / 16).push(hex_upper_char(v % 16))
    }
}

/// `s` with `0`s in front until it is at least `width` long.
pub open spec fn zero_padded(s: Seq<char>, width: nat) -> Seq<char> {
    if s.len() < width {
        Seq::new((width - s.len()) as nat, |i: int| '0') + s
    } else {
        s
    }
}

/// `format!("{:0width$X}", v)`.
pub open spec fn hex_upper(v: nat, width: nat) -> Seq<char> {
    zero_padded(hex_digits(v), width)
}

fn digit_char(d: u32) -> (c: char)
    requires
        d < 16,
    ensures
        c == hex_upper_char(d as nat),
{
    if d < 10 {
        let x: u8 = (48 + d) as u8;
        x as char
    } else {
        let x: u8 = (55 + d) as u8;
        x as char
    }
}

fn push_hex_digits(out: &mut String, v: u32)
    ensures
        final(out)@ == old(out)@ + hex_digits(v as nat),
    decreases v,
{
    if v >= 16 {
        push_hex_digits(out, v / 16);
    }
    let c = digit_char(v % 16);
    crate::text::push_char(out, c);
    assert(hex_digits(v as nat) == if v < 16 {
        seq![hex_upper_char(v as nat)]
    } else {
        hex_digits((v / 16) as nat).push(hex_upper_char((v % 16) as nat))
    });
}

fn hex_digit_count(v: u32) -> (n: usize)
    ensures
        n == hex_digits(v as nat).len(),
        n <= 8,
    decreases v,
{
    if v >= 16 {
        proof {
            lemma_hex_digits_len((v / 16) as nat);
        }
        let k = hex_digit_count(v / 16);
        assert(hex_digits((v / 16) as nat).len() <= 7) by {
            reveal_with_fuel(pow16, 8);
            assert(pow16(7) == 0x1000_0000);
            lemma_hex_digits_bound((v / 16) as nat, 7);
        }
        k + 1
    } else {
        1
    }
}

proof fn lemma_hex_digits_len(v: nat)
    ensures
        hex_digits(v).len() >= 1,
    decreases v,
{
    if v >= 16 {
        lemma_hex_digits_len(v / 16);
    }
}

proof fn lemma_hex_digits_bound(v: nat, k: nat)
    requires
        k >= 1,
        v < pow16(k),
    ensures
        hex_digits(v).len() <= k,
    decreases v,
{
    if v >= 16 {
        assert(k >= 2) by {
            if k == 1 {
                assert(pow16(1) == 16 * pow16(0));
            }
        }
        assert(v / 16 < pow16((k - 1) as nat)) by (nonlinear_arith)
            requires
                v < pow16(k),
                k > 0,
                pow16(k) == 16 * pow16((k - 1) as nat),
        ;
        lemma_hex_digits_bound(v / 16, (k - 1) as nat);
    }
}

/// `16` to the power `k`.
pub open spec fn pow16(k: nat) -> nat
    decreases k,
{
    if k == 0 {
        1
    } else {
        16 * pow16((k - 1) as nat)
    }
}

/// Appends `v` in upper case hexadecimal, zero padded to `width`.
pub fn push_hex_upper(out: &mut String, v: u32, width: usize)
    ensures
        final(out)@ == old(out)@ + hex_upper(v as nat, width as nat),
{
    let n = hex_digit_count(v);
    let ghost start = out@;
    let mut i = n;
    while i < width
        invariant
            n <= i <= width || (i == n && width <= n),
            out@ == start + Seq::new((i - n) as nat, |j: int| '0'),
        decreases width - i,
    {
        crate::text::push_char(out, '0');
        assert(Seq::new((i + 1 - n) as nat, |j: int| '0') =~= Seq::new((i - n) as nat, |j: int| '0').push('0'));
        i = i + 1;
    }
    let ghost pad = out@;
    push_hex_digits(out, v);
    proof {
        if n < width {
            assert(i == width);
            assert(out@ =~= start + zero_padded(hex_digits(v as nat), width as nat));
        } else {
            assert(Seq::new((i - n) as nat, |j: int| '0') =~= Seq::<char>::empty());
            assert(out@ =~= start + zero_padded(hex_digits(v as nat), width as nat));
        }
    }
}

/// `v` in upper case hexadecimal, zero padded to `width`.
pub fn hex_upper_string(v: u32, width: usize) -> (r: String)
    ensures
        r@ == hex_upper(v as nat, width as nat),
{
    let mut s = String::new();
    push_hex_upper(&mut s, v, width);
    assert(s@ =~= hex_upper(v as nat, width as nat));
    s
}

/// Reading back what was printed: the upper case hexadecimal digits of
/// `v` have the value `v`.
pub proof fn lemma_hex_digits_value(v: nat)
    ensures
        hex_value(hex_digits(v)) == Some(v),
    decreases v,
{
    if v < 16 {
        let s = hex_digits(v);
        assert(s.drop_last() =~= Seq::<char>::empty());
        assert(s.last() == hex_upper_char(v));
        lemma_hex_upper_char_value(v);
        assert(hex_value(s.drop_last()) == Some(0nat));
    } else {
        lemma_hex_digits_value(v / 16);
        let s = hex_digits(v);
        assert(s.drop_last() == hex_digits(v / 16));
        assert(s.last() == hex_upper_char(v % 16));
        lemma_hex_upper_char_value(v % 16);
        assert(16 * (v / 16) + v % 16 == v) by (nonlinear_arith);
    }
}

proof fn lemma_hex_upper_char_value(d: nat)
    requires
        d < 16,
    ensures
        hex_digit_value(hex_upper_char(d)) == Some(d),
{
}

/// Leading zeros do not change the value of a hexadecimal string.
pub proof fn lemma_hex_value_leading_zeros(k: nat, s: Seq<char>)
    ensures
        hex_value(Seq::new(k, |i: int| '0') + s) == hex_value(s),
    decreases s.len(), k,
{
    let z = Seq::new(k, |i: int| '0');
    if s.len() == 0 {
        assert(z + s =~= z);
        if k > 0 {
            assert(z.drop_last() =~= Seq::new((k - 1) as nat, |i: int| '0'));
            lemma_hex_value_leading_zeros((k - 1) as nat, s);
            assert(Seq::new((k - 1) as nat, |i: int| '0') + s =~= Seq::new((k - 1) as nat, |i: int| '0'));
        }
    } else {
        assert((z + s).drop_last() =~= z + s.drop_last());
        assert((z + s).last() == s.last());
        lemma_hex_value_leading_zeros(k, s.drop_last());
    }
}

/// Printing `v` in upper case hexadecimal, zero padded to any width, and
/// parsing it as `u32::from_str_radix(.., 16)` gives `v` back.
pub proof fn lemma_hex_upper_parses_back(v: u32, width: nat)
    ensures
        spec_parse_hex_u32(hex_upper(v as nat, width)) == Some(v),
{
    let d = hex_digits(v as nat);
    lemma_hex_digits_value(v as nat);
    lemma_hex_digits_nonempty(v as nat);
    let p = hex_upper(v as nat, width);
    if d.len() < width {
        lemma_hex_value_leading_zeros((width - d.len()) as nat, d);
        assert(p[0] == '0');
    } else {
        assert(p == d);
        lemma_hex_digits_first(v as nat);
    }
    assert(p.len() > 0 && p[0] != '+');
}

proof fn lemma_hex_digits_nonempty(v: nat)
    ensures
        hex_digits(v).len() > 0,
    decreases v,
{
    if v >= 16 {
        lemma_hex_digits_nonempty(v / 16);
    }
}

proof fn lemma_hex_digits_first(v: nat)
    ensures
        hex_digits(v).len() > 0,
        hex_digits(v)[0] != '+',
    decreases v,
{
    if v >= 16 {
        lemma_hex_digits_first(v / 16);
        assert(hex_digits(v)[0] == hex_digits(v / 16)[0]);
    }
}

} // verus!
