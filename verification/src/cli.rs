//! The `add` command line: device paths, then BPF objects after a `-`.
use vstd::prelude::*;
use vstd::string::*;

verus! {

/// Why a list of command line paths was refused.
#[derive(Debug, Clone, Copy, PartialEq, Eq)]
pub enum SplitPathsError {
    /// No path at all was given.
    MissingDevice,
    /// A device or object path is empty or a lone `-`.
    InvalidPath,
}

impl SplitPathsError {
    /// The message the command line prints for this error.
    pub fn message(&self) -> (r: &'static str)
        ensures
            *self == SplitPathsError::MissingDevice ==> r@ == "At least one device path is required"@,
            *self == SplitPathsError::InvalidPath ==> r@ == "Invalid device or object path"@,
    {
        match self {
            SplitPathsError::MissingDevice => "At least one device path is required",
            SplitPathsError::InvalidPath => "Invalid device or object path",
        }
    }
}

/// The characters of each string.
pub open spec fn string_views(v: Seq<String>) -> Seq<Seq<char>> {
    v.map_values(|s: String| s@)
}

/// The `-` that separates device paths from BPF object paths.
pub open spec fn is_divider(s: Seq<char>) -> bool {
    s == seq!['-']
}

/// The position of the first `-` among `p`, if any.
pub open spec fn first_divider(p: Seq<Seq<char>>) -> Option<int>
    decreases p.len(),
{
    if p.len() == 0 {
        None
    } else if is_divider(p[0]) {
        Some(0)
    } else {
        match first_divider(p.drop_first()) {
            Some(i) => Some(i + 1),
            None => None,
        }
    }
}

/// `first_divider` points at the first `-`, and `None` means there is none.
pub proof fn lemma_first_divider(p: Seq<Seq<char>>)
    ensures
        match first_divider(p) {
            Some(i) => 0 <= i < p.len() && is_divider(p[i]) && forall|j: int|
                0 <= j < i ==> !is_divider(#[trigger] p[j]),
            None => forall|j: int| 0 <= j < p.len() ==> !is_divider(#[trigger] p[j]),
        },
    decreases p.len(),
{
    if p.len() > 0 && !is_divider(p[0]) {
        let q = p.drop_first();
        lemma_first_divider(q);
        match first_divider(q) {
            Some(i) => {
                assert forall|j: int| 0 <= j < i + 1 implies !is_divider(#[trigger] p[j]) by {
                    if j > 0 {
                        assert(p[j] == q[j - 1]);
                    }
                }
            },
            None => {
                assert forall|j: int| 0 <= j < p.len() implies !is_divider(#[trigger] p[j]) by {
                    if j > 0 {
                        assert(p[j] == q[j - 1]);
                    }
                }
            },
        }
    }
}

/// How a non-empty list of paths divides into devices and objects:
/// one path is a device; two paths are a device and an object unless the
/// first is `-`; otherwise everything before the first `-` are devices and
/// everything after it objects (all devices when there is no `-`).
pub open spec fn divide_paths(p: Seq<Seq<char>>) -> (Seq<Seq<char>>, Seq<Seq<char>>) {
    if p.len() == 1 {
        (p, seq![])
    } else if p.len() == 2 && !is_divider(p[0]) {
        (seq![p[0]], seq![p[1]])
    } else {
        match first_divider(p) {
            Some(i) => (p.take(i), p.skip(i + 1)),
            None => (p, seq![]),
        }
    }
}

/// Neither an empty path nor a lone `-`.
pub open spec fn all_valid_paths(p: Seq<Seq<char>>) -> bool {
    forall|i: int| 0 <= i < p.len() ==> #[trigger] p[i].len() > 0 && !is_divider(p[i])
}

/// The result of splitting the command line paths `p`.
pub open spec fn spec_split_paths(p: Seq<Seq<char>>) -> Result<
    (Seq<Seq<char>>, Seq<Seq<char>>),
    SplitPathsError,
> {
    if p.len() == 0 {
        Err(SplitPathsError::MissingDevice)
    } else {
        let (d, o) = divide_paths(p);
        if all_valid_paths(d) && all_valid_paths(o) {
            Ok((d, o))
        } else {
            Err(SplitPathsError::InvalidPath)
        }
    }
}

fn is_divider_str(s: &String) -> (r: bool)
    ensures
        r == is_divider(s@),
{
    let t = s.as_str();
    let n = t.unicode_len();
    if n == 1 {
        let c = t.get_char(0);
        assert(c == '-' ==> t@ =~= seq!['-']);
        c == '-'
    } else {
        false
    }
}

/// Copies of `v[from..to]`.
fn copy_range(v: &Vec<String>, from: usize, to: usize) -> (r: Vec<String>)
    requires
        from <= to <= v@.len(),
    ensures
        string_views(r@) == string_views(v@).subrange(from as int, to as int),
{
    let mut out: Vec<String> = Vec::new();
    let mut i = from;
    while i < to
        invariant
            from <= i <= to <= v@.len(),
            string_views(out@) =~= string_views(v@).subrange(from as int, i as int),
        decreases to - i,
    {
        let s = v[i].clone();
        let ghost before = out@;
        out.push(s);
        assert(out@ == before.push(s));
        assert(s@ == string_views(v@)[i as int]);
        assert(string_views(out@) =~= string_views(before).push(s@));
        assert(string_views(out@) =~= string_views(v@).subrange(from as int, i + 1));
        i = i + 1;
    }
    out
}

/// Whether every path is non-empty and not a lone `-`.
fn paths_are_valid(v: &Vec<String>) -> (r: bool)
    ensures
        r == all_valid_paths(string_views(v@)),
{
    let mut i: usize = 0;
    while i < v.len()
        invariant
            i <= v@.len(),
            forall|j: int| 0 <= j < i ==> #[trigger] string_views(v@)[j].len() > 0 && !is_divider(string_views(v@)[j]),
        decreases v@.len() - i,
    {
        let empty = v[i].as_str().unicode_len() == 0;
        if empty || is_divider_str(&v[i]) {
            assert(!(string_views(v@)[i as int].len() > 0 && !is_divider(string_views(v@)[i as int])));
            return false;
        }
        i = i + 1;
    }
    true
}

/// The position of the first `-` among the paths.
fn find_divider(v: &Vec<String>) -> (r: Option<usize>)
    ensures
        match r {
            Some(i) => first_divider(string_views(v@)) == Some(i as int),
            None => first_divider(string_views(v@)) is None,
        },
{
    let ghost p = string_views(v@);
    proof {
        lemma_first_divider(p);
    }
    let mut i: usize = 0;
    while i < v.len()
        invariant
            p == string_views(v@),
            i <= v@.len(),
            forall|j: int| 0 <= j < i ==> !is_divider(#[trigger] p[j]),
            match first_divider(p) {
                Some(k) => 0 <= k < p.len() && is_divider(p[k]) && forall|j: int|
                    0 <= j < k ==> !is_divider(#[trigger] p[j]),
                None => forall|j: int| 0 <= j < p.len() ==> !is_divider(#[trigger] p[j]),
            },
        decreases v@.len() - i,
    {
        if is_divider_str(&v[i]) {
            proof {
                assert(is_divider(p[i as int]));
                if let Some(k) = first_divider(p) {
                    assert(!is_divider(p[k]) || k >= i);
                }
            }
            return Some(i);
        }
        i = i + 1;
    }
    proof {
        if let Some(k) = first_divider(p) {
            assert(is_divider(p[k]));
        }
    }
    None
}

/// Split a list of paths at the first `-` element, so that
/// `[a, b, c, -, d, e]` becomes `[a, b, c]` and `[d, e]`.  A single path is
/// a device; two paths are a device and a BPF object unless the first is
/// `-`.  A leading `-` leaves no device: the objects then go to every
/// device they match.  No path may be empty or a lone `-`.
pub fn split_paths(paths: Vec<String>) -> (r: Result<(Vec<String>, Vec<String>), SplitPathsError>)
    ensures
        match spec_split_paths(string_views(paths@)) {
            Ok((d, o)) => r matches Ok((rd, ro)) && string_views(rd@) == d && string_views(ro@) == o,
            Err(e) => r == Err::<(Vec<String>, Vec<String>), SplitPathsError>(e),
        },
{
    let ghost p = string_views(paths@);
    proof {
        lemma_first_divider(p);
    }
    let n = paths.len();
    if n == 0 {
        return Err(SplitPathsError::MissingDevice);
    }
    let none: Vec<String> = Vec::new();
    assert(string_views(none@) =~= Seq::<Seq<char>>::empty());
    let (devices, objects) = if n == 1 {
        (copy_range(&paths, 0, 1), none)
    } else if n == 2 && !is_divider_str(&paths[0]) {
        (copy_range(&paths, 0, 1), copy_range(&paths, 1, 2))
    } else {
        match find_divider(&paths) {
            Some(i) => (copy_range(&paths, 0, i), copy_range(&paths, i + 1, n)),
            None => (copy_range(&paths, 0, n), none),
        }
    };
    proof {
        assert(p.subrange(0, n as int) =~= p);
        assert(p.subrange(0, 1) =~= seq![p[0]]);
        if n == 2 {
            assert(p.subrange(1, 2) =~= seq![p[1]]);
        }
        match first_divider(p) {
            Some(i) => {
                assert(p.subrange(0, i) =~= p.take(i));
                assert(p.subrange(i + 1, n as int) =~= p.skip(i + 1));
            },
            None => {},
        }
    }
    if paths_are_valid(&devices) && paths_are_valid(&objects) {
        Ok((devices, objects))
    } else {
        Err(SplitPathsError::InvalidPath)
    }
}

/// Splitting loses no path and moves none: the devices followed by the
/// objects are the paths given, with the `-` between them when there was
/// one.
pub proof fn lemma_split_paths_keeps_order(p: Seq<Seq<char>>)
    requires
        spec_split_paths(p) is Ok,
    ensures
        ({
            let (d, o) = spec_split_paths(p)->Ok_0;
            p == d + o || p == d + seq![seq!['-']] + o
        }),
{
    let (d, o) = divide_paths(p);
    if p.len() == 1 {
        assert(p =~= d + o);
    } else if p.len() == 2 && !is_divider(p[0]) {
        assert(p =~= d + o);
    } else {
        lemma_first_divider(p);
        match first_divider(p) {
            Some(i) => {
                assert(p =~= p.take(i) + seq![seq!['-']] + p.skip(i + 1));
            },
            None => {
                assert(p =~= d + o);
            },
        }
    }
}

/// The output formats of `list-loaded`.
#[derive(Debug, Clone, Copy, PartialEq, Eq)]
pub enum ListFormat {
    /// Everything, as JSON.
    Json,
    /// Only the udev properties, as `NAME=VALUE` lines.
    Udev,
}

/// The format a `--format` argument names, if any.
pub open spec fn list_format_of(s: Seq<char>) -> Option<ListFormat> {
    if s == "json"@ {
        Some(ListFormat::Json)
    } else if s == "udev"@ {
        Some(ListFormat::Udev)
    } else {
        None
    }
}

/// Reads a `--format` argument: `json` or `udev`, nothing else.
pub fn parse_list_format(s: &str) -> (r: Option<ListFormat>)
    ensures
        r == list_format_of(s@),
{
    if crate::text::str_eq(s, "json") {
        Some(ListFormat::Json)
    } else if crate::text::str_eq(s, "udev") {
        Some(ListFormat::Udev)
    } else {
        None
    }
}

/// The message for a `--format` that is neither `json` nor `udev`.
pub fn unknown_format_message(s: &str) -> (r: String)
    ensures
        r@ == "Unknown format '"@ + s@ + "', expected 'json' or 'udev'"@,
{
    let mut m = String::new();
    crate::text::push_str_chars(&mut m, "Unknown format '");
    crate::text::push_str_chars(&mut m, s);
    crate::text::push_str_chars(&mut m, "', expected 'json' or 'udev'");
    assert(m@ =~= "Unknown format '"@ + s@ + "', expected 'json' or 'udev'"@);
    m
}

} // verus!
