//! Character-level helpers shared by the string handling of the library.
use vstd::prelude::*;
use vstd::string::*;

verus! {

/// Appends one character to a `String` (std's `String::push`).
/// Trusted: std documents that `push` appends the given char to the end of the string.
#[verifier::external_body]
pub(crate) fn push_char(s: &mut String, c: char)
    ensures
        final(s)@ == old(s)@.push(c),
{
    s.push(c);
}

/// The characters of `s`, one by one.
pub fn chars_of(s: &str) -> (v: Vec<char>)
    ensures
        v@ == s@,
{
    let n = s.unicode_len();
    let mut v: Vec<char> = Vec::new();
    let mut i: usize = 0;
    while i < n
        invariant
            n == s@.len(),
            i <= n,
            v@ == s@.subrange(0, i as int),
        decreases n - i,
    {
        let c = s.get_char(i);
        v.push(c);
        i = i + 1;
    }
    assert(v@ == s@);
    v
}

/// A `String` holding exactly the characters `v[from..to]`.
pub fn string_from_chars(v: &[char], from: usize, to: usize) -> (s: String)
    requires
        from <= to <= v@.len(),
    ensures
        s@ == v@.subrange(from as int, to as int),
{
    let mut s = String::new();
    let mut i: usize = from;
    while i < to
        invariant
            from <= i <= to <= v@.len(),
            s@ == v@.subrange(from as int, i as int),
        decreases to - i,
    {
        push_char(&mut s, v[i]);
        assert(v@.subrange(from as int, i + 1) == v@.subrange(from as int, i as int).push(v@[i as int]));
        i = i + 1;
    }
    s
}

/// A `String` with the same characters as `s`.
pub fn string_of(s: &str) -> (r: String)
    ensures
        r@ == s@,
{
    let v = chars_of(s);
    string_from_chars(v.as_slice(), 0, v.len())
}

/// Appends all characters of `t` to `s`.
pub fn push_str_chars(s: &mut String, t: &str)
    ensures
        final(s)@ == old(s)@ + t@,
{
    let v = chars_of(t);
    let ghost start = s@;
    let mut i: usize = 0;
    while i < v.len()
        invariant
            v@ == t@,
            i <= v@.len(),
            s@ == start + v@.subrange(0, i as int),
        decreases v@.len() - i,
    {
        push_char(s, v[i]);
        assert(v@.subrange(0, i + 1) == v@.subrange(0, i as int).push(v@[i as int]));
        i = i + 1;
    }
    assert(v@.subrange(0, v@.len() as int) == v@);
}

/// Whether two strings hold the same characters.
pub fn chars_eq(a: &[char], b: &[char]) -> (r: bool)
    ensures
        r == (a@ == b@),
{
    if a.len() != b.len() {
        return false;
    }
    let mut i: usize = 0;
    while i < a.len()
        invariant
            a@.len() == b@.len(),
            i <= a@.len(),
            forall|j: int| 0 <= j < i ==> a@[j] == b@[j],
        decreases a@.len() - i,
    {
        if a[i] != b[i] {
            return false;
        }
        i = i + 1;
    }
    assert(a@ =~= b@);
    true
}

/// Whether two string slices hold the same characters.
pub fn str_eq(a: &str, b: &str) -> (r: bool)
    ensures
        r == (a@ == b@),
{
    let va = chars_of(a);
    let vb = chars_of(b);
    chars_eq(va.as_slice(), vb.as_slice())
}

/// Whether `s` starts with `prefix`.
pub open spec fn has_prefix(s: Seq<char>, prefix: Seq<char>) -> bool {
    prefix.len() <= s.len() && s.subrange(0, prefix.len() as int) == prefix
}

/// Whether `s` ends with `suffix`.
pub open spec fn has_suffix(s: Seq<char>, suffix: Seq<char>) -> bool {
    suffix.len() <= s.len() && s.subrange(s.len() - suffix.len(), s.len() as int) == suffix
}

/// Whether `s` contains the character `c`.
pub open spec fn has_char(s: Seq<char>, c: char) -> bool {
    exists|i: int| 0 <= i < s.len() && s[i] == c
}

/// Whether `s[at..]` starts with `prefix`.
pub fn chars_have_prefix_at(s: &[char], at: usize, prefix: &[char]) -> (r: bool)
    requires
        at <= s@.len(),
    ensures
        r == has_prefix(s@.skip(at as int), prefix@),
{
    if prefix.len() > s.len() - at {
        return false;
    }
    let mut i: usize = 0;
    while i < prefix.len()
        invariant
            at + prefix@.len() <= s.len(),
            i <= prefix@.len(),
            forall|j: int| 0 <= j < i ==> s@[at + j] == prefix@[j],
        decreases prefix@.len() - i,
    {
        if s[at + i] != prefix[i] {
            assert(s@.skip(at as int).subrange(0, prefix@.len() as int)[i as int] != prefix@[i as int]);
            return false;
        }
        i = i + 1;
    }
    assert(s@.skip(at as int).subrange(0, prefix@.len() as int) =~= prefix@);
    true
}

/// Whether `s` starts with `prefix`.
pub fn str_starts_with(s: &str, prefix: &str) -> (r: bool)
    ensures
        r == has_prefix(s@, prefix@),
{
    let vs = chars_of(s);
    let vp = chars_of(prefix);
    let r = chars_have_prefix_at(vs.as_slice(), 0, vp.as_slice());
    assert(vs@.skip(0) == vs@);
    r
}

/// Whether `s` ends with `suffix`.
pub fn str_ends_with(s: &str, suffix: &str) -> (r: bool)
    ensures
        r == has_suffix(s@, suffix@),
{
    let vs = chars_of(s);
    let vx = chars_of(suffix);
    if vx.len() > vs.len() {
        return false;
    }
    let at = vs.len() - vx.len();
    let r = chars_have_prefix_at(vs.as_slice(), at, vx.as_slice());
    assert(vs@.skip(at as int).subrange(0, vx@.len() as int) =~= vs@.subrange(at as int, vs@.len() as int));
    r
}

/// The position of the first `c` in `s`, if any.
pub open spec fn first_index_of(s: Seq<char>, c: char) -> Option<int>
    decreases s.len(),
{
    if s.len() == 0 {
        None
    } else if s[0] == c {
        Some(0)
    } else {
        match first_index_of(s.drop_first(), c) {
            Some(i) => Some(i + 1),
            None => None,
        }
    }
}

/// `first_index_of` points at the first occurrence, and `None` means there is none.
pub proof fn lemma_first_index_of(s: Seq<char>, c: char)
    ensures
        match first_index_of(s, c) {
            Some(i) => 0 <= i < s.len() && s[i] == c && forall|j: int| 0 <= j < i ==> s[j] != c,
            None => forall|j: int| 0 <= j < s.len() ==> s[j] != c,
        },
    decreases s.len(),
{
    if s.len() > 0 && s[0] != c {
        lemma_first_index_of(s.drop_first(), c);
        match first_index_of(s.drop_first(), c) {
            Some(i) => {
                assert forall|j: int| 0 <= j < i + 1 implies s[j] != c by {
                    if j > 0 {
                        assert(s[j] == s.drop_first()[j - 1]);
                    }
                }
            },
            None => {
                assert forall|j: int| 0 <= j < s.len() implies s[j] != c by {
                    if j > 0 {
                        assert(s[j] == s.drop_first()[j - 1]);
                    }
                }
            },
        }
    }
}

/// Finds the first `c` in `s`.
pub fn find_char(s: &[char], c: char) -> (r: Option<usize>)
    ensures
        match r {
            Some(i) => first_index_of(s@, c) == Some(i as int),
            None => first_index_of(s@, c) is None,
        },
{
    proof {
        lemma_first_index_of(s@, c);
    }
    let mut i: usize = 0;
    while i < s.len()
        invariant
            i <= s@.len(),
            forall|j: int| 0 <= j < i ==> s@[j] != c,
            match first_index_of(s@, c) {
                Some(k) => 0 <= k < s@.len() && s@[k] == c && forall|j: int| 0 <= j < k ==> s@[j] != c,
                None => forall|j: int| 0 <= j < s@.len() ==> s@[j] != c,
            },
        decreases s@.len() - i,
    {
        if s[i] == c {
            return Some(i);
        }
        i = i + 1;
    }
    None
}

/// The White_Space characters of Unicode, which `char::is_whitespace` recognises.
pub open spec fn is_whitespace(c: char) -> bool {
    ||| ('\u{9}' <= c && c <= '\u{d}')
    ||| c == ' '
    ||| c == '\u{85}'
    ||| c == '\u{a0}'
    ||| c == '\u{1680}'
    ||| ('\u{2000}' <= c && c <= '\u{200a}')
    ||| c == '\u{2028}'
    ||| c == '\u{2029}'
    ||| c == '\u{202f}'
    ||| c == '\u{205f}'
    ||| c == '\u{3000}'
}

/// Whether `c` is Unicode white space.
pub fn char_is_whitespace(c: char) -> (r: bool)
    ensures
        r == is_whitespace(c),
{
    ('\u{9}' <= c && c <= '\u{d}') || c == ' ' || c == '\u{85}' || c == '\u{a0}' || c
        == '\u{1680}' || ('\u{2000}' <= c && c <= '\u{200a}') || c == '\u{2028}' || c
        == '\u{2029}' || c == '\u{202f}' || c == '\u{205f}' || c == '\u{3000}'
}

/// Whether any character of `s` is white space.
pub open spec fn has_whitespace(s: Seq<char>) -> bool {
    exists|i: int| 0 <= i < s.len() && is_whitespace(s[i])
}

/// Whether any character of `s` is white space.
pub fn chars_have_whitespace(s: &[char]) -> (r: bool)
    ensures
        r == has_whitespace(s@),
{
    let mut i: usize = 0;
    while i < s.len()
        invariant
            i <= s@.len(),
            forall|j: int| 0 <= j < i ==> !is_whitespace(s@[j]),
        decreases s@.len() - i,
    {
        if char_is_whitespace(s[i]) {
            return true;
        }
        i = i + 1;
    }
    false
}

/// `s` without its leading white space.
pub open spec fn trim_start(s: Seq<char>) -> Seq<char>
    decreases s.len(),
{
    if s.len() > 0 && is_whitespace(s[0]) {
        trim_start(s.drop_first())
    } else {
        s
    }
}

/// `s` without its trailing white space.
pub open spec fn trim_end(s: Seq<char>) -> Seq<char>
    decreases s.len(),
{
    if s.len() > 0 && is_whitespace(s.last()) {
        trim_end(s.drop_last())
    } else {
        s
    }
}

/// `s` without leading and trailing white space (`str::trim`).
pub open spec fn trim(s: Seq<char>) -> Seq<char> {
    trim_end(trim_start(s))
}

/// Bounds `[from, to)` such that `s[from..to]` is `trim(s[lo..hi])`.
pub fn trim_bounds(s: &[char], lo: usize, hi: usize) -> (r: (usize, usize))
    requires
        lo <= hi <= s@.len(),
    ensures
        lo <= r.0 <= r.1 <= hi,
        s@.subrange(r.0 as int, r.1 as int) == trim(s@.subrange(lo as int, hi as int)),
{
    let ghost t = s@.subrange(lo as int, hi as int);
    let mut from: usize = lo;
    assert(t == s@.subrange(from as int, hi as int));
    while from < hi && char_is_whitespace(s[from])
        invariant
            lo <= from <= hi <= s@.len(),
            t == s@.subrange(lo as int, hi as int),
            trim_start(t) == trim_start(s@.subrange(from as int, hi as int)),
        decreases hi - from,
    {
        assert(s@.subrange(from as int, hi as int).drop_first() == s@.subrange(from + 1, hi as int));
        from = from + 1;
    }
    assert(trim_start(t) == s@.subrange(from as int, hi as int));
    let mut to: usize = hi;
    while to > from && char_is_whitespace(s[to - 1])
        invariant
            lo <= from <= to <= hi <= s@.len(),
            t == s@.subrange(lo as int, hi as int),
            trim(t) == trim_end(s@.subrange(from as int, to as int)),
        decreases to,
    {
        assert(s@.subrange(from as int, to as int).drop_last() == s@.subrange(from as int, to - 1));
        to = to - 1;
    }
    (from, to)
}

/// Finds the first `c` in `s[from..]`, as a position in `s`.
pub fn find_char_from(s: &[char], from: usize, c: char) -> (r: Option<usize>)
    requires
        from <= s@.len(),
    ensures
        match r {
            Some(i) => from <= i < s@.len() && first_index_of(s@.skip(from as int), c) == Some(i - from),
            None => first_index_of(s@.skip(from as int), c) is None,
        },
{
    proof {
        lemma_first_index_of(s@.skip(from as int), c);
    }
    let mut i: usize = from;
    while i < s.len()
        invariant
            from <= i <= s@.len(),
            forall|j: int| from <= j < i ==> s@[j] != c,
            match first_index_of(s@.skip(from as int), c) {
                Some(k) => 0 <= k < s@.len() - from && s@.skip(from as int)[k] == c && forall|j: int|
                    0 <= j < k ==> s@.skip(from as int)[j] != c,
                None => forall|j: int| 0 <= j < s@.len() - from ==> s@.skip(from as int)[j] != c,
            },
        decreases s@.len() - i,
    {
        if s[i] == c {
            proof {
                let t = s@.skip(from as int);
                assert(t[i - from] == c);
                if let Some(k) = first_index_of(t, c) {
                    if k < i - from {
                        assert(t[k] == s@[from + k]);
                    }
                }
            }
            return Some(i);
        }
        i = i + 1;
    }
    proof {
        let t = s@.skip(from as int);
        if let Some(k) = first_index_of(t, c) {
            assert(t[k] == s@[from + k]);
        }
    }
    None
}

/// How many bytes UTF-8 takes for `c`.
pub open spec fn utf8_len(c: char) -> nat {
    if (c as u32) < 0x80 {
        1
    } else if (c as u32) < 0x800 {
        2
    } else if (c as u32) < 0x10000 {
        3
    } else {
        4
    }
}

/// `&s[n..]` with `n` counted in bytes, as string slicing does; `None`
/// where slicing panics (`n` past the end or inside a character).
pub open spec fn skip_bytes(s: Seq<char>, n: nat) -> Option<Seq<char>>
    decreases s.len(),
{
    if n == 0 {
        Some(s)
    } else if s.len() == 0 || utf8_len(s[0]) > n {
        None
    } else {
        skip_bytes(s.drop_first(), (n - utf8_len(s[0])) as nat)
    }
}

fn char_utf8_len(c: char) -> (r: usize)
    ensures
        r == utf8_len(c),
{
    let v = c as u32;
    if v < 0x80 {
        1
    } else if v < 0x800 {
        2
    } else if v < 0x10000 {
        3
    } else {
        4
    }
}

/// `&s[n..]`, with `n` counted in bytes; `None` where that slice would
/// panic.
pub fn str_skip_bytes(s: &str, n: usize) -> (r: Option<&str>)
    ensures
        match skip_bytes(s@, n as nat) {
            Some(t) => r matches Some(u) && u@ == t,
            None => r is None,
        },
{
    let len = s.unicode_len();
    let mut i: usize = 0;
    let mut left = n;
    assert(s@.skip(0) =~= s@);
    while left > 0
        invariant
            len == s@.len(),
            i <= len,
            left <= n,
            skip_bytes(s@.skip(i as int), left as nat) == skip_bytes(s@, n as nat),
        decreases left,
    {
        if i == len {
            return None;
        }
        let w = char_utf8_len(s.get_char(i));
        if w > left {
            return None;
        }
        assert(s@.skip(i as int).drop_first() =~= s@.skip(i + 1));
        left = left - w;
        i = i + 1;
    }
    Some(s.substring_char(i, len))
}

/// Whether `t` occurs in `s` as a contiguous piece.
pub open spec fn has_substring(s: Seq<char>, t: Seq<char>) -> bool {
    exists|i: int| 0 <= i && i + t.len() <= s.len() && #[trigger] s.subrange(i, i + t.len()) == t
}

/// Whether `t` occurs in `s` (`str::contains` with a string pattern).
pub fn str_contains(s: &str, t: &str) -> (r: bool)
    ensures
        r == has_substring(s@, t@),
{
    let vs = chars_of(s);
    let vt = chars_of(t);
    if vt.len() > vs.len() {
        return false;
    }
    let last = vs.len() - vt.len();
    let mut i: usize = 0;
    loop
        invariant
            vs@ == s@,
            vt@ == t@,
            last == vs@.len() - vt@.len(),
            i <= last,
            forall|j: int| 0 <= j < i ==> #[trigger] vs@.subrange(j, j + vt@.len()) != vt@,
        decreases last - i,
    {
        assert(vs@.skip(i as int).subrange(0, vt@.len() as int) =~= vs@.subrange(i as int, i + vt@.len()));
        if chars_have_prefix_at(vs.as_slice(), i, vt.as_slice()) {
            return true;
        }
        if i == last {
            assert forall|j: int| 0 <= j && j + t@.len() <= s@.len() implies #[trigger] s@.subrange(j, j + t@.len())
                != t@ by {
                assert(j <= i);
            }
            return false;
        }
        i = i + 1;
    }
}

} // verus!
