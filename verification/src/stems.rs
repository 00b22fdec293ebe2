//! Grouping BPF objects that differ only in their priority prefix
//! (`0010-foo.bpf.o`, `0020-foo.bpf.o`) so that each group is tried from
//! the highest priority down.
use vstd::prelude::*;
use crate::order::{seq_lt, lemma_lt_irreflexive, lemma_lt_transitive, lemma_lt_total, chars_lt};
use crate::text::{chars_of, chars_eq, find_char, first_index_of, lemma_first_index_of};
use crate::cli::string_views;
use crate::paths::{path_file_name, file_name};

verus! {

/// Whether object `a` is tried before object `b` of the same stem: its
/// lower-cased name comes later, or the names are equal and `a` came first.
pub open spec fn key_before(keys: Seq<Seq<char>>, a: int, b: int) -> bool {
    seq_lt(keys[b], keys[a]) || (keys[a] == keys[b] && a < b)
}

/// The order in which objects are listed: by stem, then as `key_before`.
pub open spec fn listed_before(stems: Seq<Seq<char>>, keys: Seq<Seq<char>>, a: int, b: int) -> bool {
    seq_lt(stems[a], stems[b]) || (stems[a] == stems[b] && key_before(keys, a, b))
}

proof fn lemma_listed_transitive(stems: Seq<Seq<char>>, keys: Seq<Seq<char>>, a: int, b: int, c: int)
    requires
        listed_before(stems, keys, a, b),
        listed_before(stems, keys, b, c),
    ensures
        listed_before(stems, keys, a, c),
{
    if seq_lt(stems[a], stems[b]) && seq_lt(stems[b], stems[c]) {
        lemma_lt_transitive(stems[a], stems[b], stems[c]);
    }
    if stems[a] == stems[b] && stems[b] == stems[c] {
        if seq_lt(keys[b], keys[a]) && seq_lt(keys[c], keys[b]) {
            lemma_lt_transitive(keys[c], keys[b], keys[a]);
        }
    }
}

proof fn lemma_listed_total(stems: Seq<Seq<char>>, keys: Seq<Seq<char>>, a: int, b: int)
    requires
        a != b,
    ensures
        listed_before(stems, keys, a, b) || listed_before(stems, keys, b, a),
{
    if stems[a] != stems[b] {
        lemma_lt_total(stems[a], stems[b]);
    } else if keys[a] != keys[b] {
        lemma_lt_total(keys[a], keys[b]);
    }
}

/// Whether `order` lists positions strictly by `listed_before`.
pub open spec fn is_listed_order(stems: Seq<Seq<char>>, keys: Seq<Seq<char>>, order: Seq<usize>) -> bool {
    forall|j1: int, j2: int|
        0 <= j1 < j2 < order.len() ==> listed_before(stems, keys, #[trigger] order[j1] as int, #[trigger] order[j2] as int)
}

fn listed_before_exec(sv: &Vec<Vec<char>>, kv: &Vec<Vec<char>>, a: usize, b: usize) -> (r: bool)
    requires
        a < sv@.len(),
        b < sv@.len(),
        sv@.len() == kv@.len(),
    ensures
        r == listed_before(views_of(sv@), views_of(kv@), a as int, b as int),
{
    let sa = sv[a].as_slice();
    let sb = sv[b].as_slice();
    if chars_lt(sa, sb) {
        return true;
    }
    if !chars_eq(sa, sb) {
        return false;
    }
    let ka = kv[a].as_slice();
    let kb = kv[b].as_slice();
    if chars_lt(kb, ka) {
        return true;
    }
    chars_eq(ka, kb) && a < b
}

/// The characters of each `Vec<char>`.
pub open spec fn views_of(v: Seq<Vec<char>>) -> Seq<Seq<char>> {
    v.map_values(|x: Vec<char>| x@)
}

/// All positions `0..n`, ordered by `listed_before`.
fn listed_order(sv: &Vec<Vec<char>>, kv: &Vec<Vec<char>>) -> (order: Vec<usize>)
    requires
        sv@.len() == kv@.len(),
    ensures
        order@.len() == sv@.len(),
        is_listed_order(views_of(sv@), views_of(kv@), order@),
        forall|j: int| 0 <= j < order@.len() ==> order@[j] < sv@.len(),
        forall|x: usize| x < sv@.len() ==> #[trigger] order@.contains(x),
{
    let ghost stems = views_of(sv@);
    let ghost keys = views_of(kv@);
    let n = sv.len();
    let mut order: Vec<usize> = Vec::new();
    let mut i: usize = 0;
    while i < n
        invariant
            n == sv@.len(),
            sv@.len() == kv@.len(),
            stems == views_of(sv@),
            keys == views_of(kv@),
            i <= n,
            order@.len() == i,
            is_listed_order(stems, keys, order@),
            forall|j: int| 0 <= j < order@.len() ==> order@[j] < i,
            forall|x: usize| x < i ==> #[trigger] order@.contains(x),
        decreases n - i,
    {
        let mut pos: usize = 0;
        while pos < order.len() && listed_before_exec(sv, kv, order[pos], i)
            invariant
                n == sv@.len(),
                sv@.len() == kv@.len(),
                stems == views_of(sv@),
                keys == views_of(kv@),
                i < n,
                pos <= order@.len(),
                forall|j: int| 0 <= j < order@.len() ==> order@[j] < i,
                forall|j: int| 0 <= j < pos ==> listed_before(stems, keys, #[trigger] order@[j] as int, i as int),
            decreases order@.len() - pos,
        {
            pos = pos + 1;
        }
        let ghost old_order = order@;
        proof {
            assert forall|j: int| pos <= j < old_order.len() implies listed_before(
                stems,
                keys,
                i as int,
                #[trigger] old_order[j] as int,
            ) by {
                let p = old_order[pos as int] as int;
                assert(!listed_before(stems, keys, p, i as int));
                lemma_listed_total(stems, keys, p, i as int);
                if j > pos {
                    assert(listed_before(stems, keys, p, old_order[j] as int));
                    lemma_listed_transitive(stems, keys, i as int, p, old_order[j] as int);
                }
            }
        }
        order.insert(pos, i);
        proof {
            let s = order@;
            assert(s == old_order.insert(pos as int, i));
            assert forall|j1: int, j2: int|
                0 <= j1 < j2 < s.len() implies listed_before(stems, keys, #[trigger] s[j1] as int, #[trigger] s[j2] as int) by {
                if j2 < pos {
                    assert(s[j1] == old_order[j1] && s[j2] == old_order[j2]);
                } else if j2 == pos {
                    assert(s[j1] == old_order[j1]);
                } else if j1 < pos {
                    assert(s[j1] == old_order[j1] && s[j2] == old_order[j2 - 1]);
                } else if j1 == pos {
                    assert(s[j2] == old_order[j2 - 1]);
                } else {
                    assert(s[j1] == old_order[j1 - 1] && s[j2] == old_order[j2 - 1]);
                }
            }
            assert forall|j: int| 0 <= j < s.len() implies s[j] < i + 1 by {
                if j < pos {
                    assert(s[j] == old_order[j]);
                } else if j > pos {
                    assert(s[j] == old_order[j - 1]);
                }
            }
            assert forall|x: usize| x < i + 1 implies #[trigger] s.contains(x) by {
                if x < i {
                    assert(old_order.contains(x));
                    let j = choose|j: int| 0 <= j < old_order.len() && old_order[j] == x;
                    if j < pos {
                        assert(s[j] == x);
                    } else {
                        assert(s[j + 1] == x);
                    }
                } else {
                    assert(s[pos as int] == i);
                }
            }
        }
        i = i + 1;
    }
    order
}

/// The positions in each group.
pub open spec fn group_views(groups: Seq<Vec<usize>>) -> Seq<Seq<usize>> {
    groups.map_values(|g: Vec<usize>| g@)
}

/// Whether position `x` is in one of the groups.
pub open spec fn in_some_group(groups: Seq<Seq<usize>>, x: usize) -> bool {
    exists|g: int, m: int| 0 <= g < groups.len() && 0 <= m < groups[g].len() && groups[g][m] == x
}

/// Whether the closed groups are well formed: none is empty, the members
/// of each share its stem, each is listed by `key_before`, and the stems
/// of the groups rise strictly.
pub open spec fn groups_well_formed(stems: Seq<Seq<char>>, keys: Seq<Seq<char>>, groups: Seq<Seq<usize>>) -> bool {
    &&& forall|g: int| 0 <= g < groups.len() ==> #[trigger] groups[g].len() > 0
    &&& forall|g: int, m: int|
        0 <= g < groups.len() && 0 <= m < groups[g].len() ==> (#[trigger] groups[g][m]) < stems.len()
            && stems[groups[g][m] as int] == stems[groups[g][0] as int]
    &&& forall|g: int, m1: int, m2: int|
        0 <= g < groups.len() && 0 <= m1 < m2 < groups[g].len() ==> key_before(
            keys,
            #[trigger] groups[g][m1] as int,
            #[trigger] groups[g][m2] as int,
        )
    &&& forall|g1: int, g2: int|
        0 <= g1 < g2 < groups.len() ==> seq_lt(
            stems[#[trigger] groups[g1][0] as int],
            stems[#[trigger] groups[g2][0] as int],
        )
}

/// Whether `groups` groups the positions `0..n` of `stems` by stem: every
/// position is in a group, the groups are well formed, and so ordered by
/// stem, each listed from the greatest key down.
pub open spec fn is_stem_grouping(stems: Seq<Seq<char>>, keys: Seq<Seq<char>>, groups: Seq<Seq<usize>>) -> bool {
    &&& groups_well_formed(stems, keys, groups)
    &&& forall|x: usize| x < stems.len() ==> #[trigger] in_some_group(groups, x)
}

/// Cuts a listed order into its runs of equal stems.
fn runs_of(sv: &Vec<Vec<char>>, kv: &Vec<Vec<char>>, order: &Vec<usize>) -> (groups: Vec<Vec<usize>>)
    requires
        sv@.len() == kv@.len(),
        order@.len() == sv@.len(),
        is_listed_order(views_of(sv@), views_of(kv@), order@),
        forall|j: int| 0 <= j < order@.len() ==> order@[j] < sv@.len(),
        forall|x: usize| x < sv@.len() ==> #[trigger] order@.contains(x),
    ensures
        is_stem_grouping(views_of(sv@), views_of(kv@), group_views(groups@)),
{
    let ghost stems = views_of(sv@);
    let ghost keys = views_of(kv@);
    let n = order.len();
    let mut groups: Vec<Vec<usize>> = Vec::new();
    let mut current: Vec<usize> = Vec::new();
    let mut start: usize = 0;
    let mut k: usize = 0;
    while k < n
        invariant
            n == order@.len(),
            n == sv@.len(),
            sv@.len() == kv@.len(),
            stems == views_of(sv@),
            keys == views_of(kv@),
            is_listed_order(stems, keys, order@),
            forall|j: int| 0 <= j < order@.len() ==> order@[j] < sv@.len(),
            start <= k <= n,
            k > 0 ==> start < k,
            k == 0 ==> groups@.len() == 0,
            current@ == order@.subrange(start as int, k as int),
            forall|t: int| start <= t < k ==> stems[#[trigger] order@[t] as int] == stems[order@[start as int] as int],
            groups_well_formed(stems, keys, group_views(groups@)),
            k > 0 ==> forall|g: int|
                0 <= g < groups@.len() ==> seq_lt(
                    stems[#[trigger] group_views(groups@)[g][0] as int],
                    stems[order@[start as int] as int],
                ),
            forall|t: int| 0 <= t < start ==> in_some_group(group_views(groups@), #[trigger] order@[t]),
        decreases n - k,
    {
        let x = order[k];
        if k == 0 {
            current.push(x);
            assert(current@ =~= order@.subrange(0, 1));
        } else if chars_eq(sv[x].as_slice(), sv[current[0]].as_slice()) {
            current.push(x);
            assert(current@ =~= order@.subrange(start as int, k + 1));
        } else {
            let ghost old_groups = group_views(groups@);
            let ghost closed = current@;
            proof {
                lemma_close_run(stems, keys, order@, start as int, k as int, old_groups);
            }
            groups.push(current);
            assert(group_views(groups@) =~= old_groups.push(closed));
            current = Vec::new();
            current.push(x);
            proof {
                let ng = group_views(groups@);
                assert forall|t: int| 0 <= t < k implies in_some_group(ng, #[trigger] order@[t]) by {
                    if t < start {
                        assert(in_some_group(old_groups, order@[t]));
                        let (g, m) = choose|g: int, m: int|
                            0 <= g < old_groups.len() && 0 <= m < old_groups[g].len() && old_groups[g][m] == order@[t];
                        assert(ng[g][m] == order@[t]);
                    } else {
                        assert(ng[old_groups.len() as int][t - start] == order@[t]);
                    }
                }
                assert forall|g: int| 0 <= g < ng.len() implies seq_lt(
                    stems[#[trigger] ng[g][0] as int],
                    stems[order@[k as int] as int],
                ) by {
                    let a = order@[start as int] as int;
                    let b = order@[k as int] as int;
                    assert(listed_before(stems, keys, a, b));
                    assert(stems[a] != stems[b]);
                    if g < old_groups.len() {
                        assert(ng[g] == old_groups[g]);
                        lemma_lt_transitive(stems[ng[g][0] as int], stems[a], stems[b]);
                    } else {
                        assert(ng[g][0] == a);
                    }
                }
            }
            start = k;
            assert(current@ =~= order@.subrange(start as int, k + 1));
        }
        k = k + 1;
    }
    if n > 0 {
        let ghost old_groups = group_views(groups@);
        let ghost closed = current@;
        proof {
            lemma_close_run(stems, keys, order@, start as int, n as int, old_groups);
        }
        groups.push(current);
        proof {
            let ng = group_views(groups@);
            assert(ng =~= old_groups.push(closed));
            assert forall|t: int| 0 <= t < n implies in_some_group(ng, #[trigger] order@[t]) by {
                if t < start {
                    assert(in_some_group(old_groups, order@[t]));
                    let (g, m) = choose|g: int, m: int|
                        0 <= g < old_groups.len() && 0 <= m < old_groups[g].len() && old_groups[g][m] == order@[t];
                    assert(ng[g][m] == order@[t]);
                } else {
                    assert(ng[old_groups.len() as int][t - start] == order@[t]);
                }
            }
            assert forall|x: usize| x < stems.len() implies #[trigger] in_some_group(ng, x) by {
                assert(order@.contains(x));
                let t = choose|t: int| 0 <= t < order@.len() && order@[t] == x;
                assert(in_some_group(ng, order@[t]));
            }
        }
    }
    groups
}

/// Closing the run `order[start..k]` keeps the groups well formed.
proof fn lemma_close_run(
    stems: Seq<Seq<char>>,
    keys: Seq<Seq<char>>,
    order: Seq<usize>,
    start: int,
    k: int,
    groups: Seq<Seq<usize>>,
)
    requires
        0 <= start < k <= order.len(),
        is_listed_order(stems, keys, order),
        forall|j: int| 0 <= j < order.len() ==> order[j] < stems.len(),
        stems.len() == keys.len(),
        forall|t: int| start <= t < k ==> stems[#[trigger] order[t] as int] == stems[order[start] as int],
        groups_well_formed(stems, keys, groups),
        forall|g: int|
            0 <= g < groups.len() ==> seq_lt(stems[#[trigger] groups[g][0] as int], stems[order[start] as int]),
    ensures
        groups_well_formed(stems, keys, groups.push(order.subrange(start, k))),
{
    let run = order.subrange(start, k);
    let ng = groups.push(run);
    assert(ng[groups.len() as int] == run);
    assert forall|g: int, m: int| 0 <= g < ng.len() && 0 <= m < ng[g].len() implies (#[trigger] ng[g][m]) < stems.len()
        && stems[ng[g][m] as int] == stems[ng[g][0] as int] by {
        if g < groups.len() {
            assert(ng[g] == groups[g]);
        } else {
            assert(run[m] == order[start + m]);
            assert(run[0] == order[start]);
        }
    }
    assert forall|g: int, m1: int, m2: int| 0 <= g < ng.len() && 0 <= m1 < m2 < ng[g].len() implies key_before(
        keys,
        #[trigger] ng[g][m1] as int,
        #[trigger] ng[g][m2] as int,
    ) by {
        if g < groups.len() {
            assert(ng[g] == groups[g]);
        } else {
            let a = order[start + m1];
            let b = order[start + m2];
            assert(run[m1] == a && run[m2] == b);
            assert(listed_before(stems, keys, a as int, b as int));
            assert(stems[a as int] == stems[order[start] as int]);
            assert(stems[b as int] == stems[order[start] as int]);
            lemma_lt_irreflexive(stems[a as int]);
        }
    }
    assert forall|g1: int, g2: int| 0 <= g1 < g2 < ng.len() implies seq_lt(
        stems[#[trigger] ng[g1][0] as int],
        stems[#[trigger] ng[g2][0] as int],
    ) by {
        assert(ng[g1] == groups[g1]);
        if g2 < groups.len() {
            assert(ng[g2] == groups[g2]);
        } else {
            assert(ng[g2][0] == order[start]);
        }
    }
}

/// The characters of each string, one `Vec` per string.
fn char_vecs(v: &Vec<String>) -> (r: Vec<Vec<char>>)
    ensures
        r@.len() == v@.len(),
        views_of(r@) == string_views(v@),
{
    let mut out: Vec<Vec<char>> = Vec::new();
    let mut i: usize = 0;
    while i < v.len()
        invariant
            i <= v@.len(),
            out@.len() == i,
            views_of(out@) =~= string_views(v@).take(i as int),
        decreases v@.len() - i,
    {
        let c = chars_of(v[i].as_str());
        let ghost before = out@;
        out.push(c);
        assert(views_of(out@) =~= views_of(before).push(c@));
        assert(string_views(v@).take(i + 1) =~= string_views(v@).take(i as int).push(v@[i as int]@));
        i = i + 1;
    }
    assert(string_views(v@).take(v@.len() as int) =~= string_views(v@));
    out
}

/// Groups the positions of `stems` by equal stem.  The groups come in
/// rising order of their stems; within a group the positions are listed by
/// falling key, equal keys in the order given.
pub fn group_by_stem(stems: &Vec<String>, keys: &Vec<String>) -> (groups: Vec<Vec<usize>>)
    requires
        stems@.len() == keys@.len(),
    ensures
        is_stem_grouping(string_views(stems@), string_views(keys@), group_views(groups@)),
{
    let sv = char_vecs(stems);
    let kv = char_vecs(keys);
    let order = listed_order(&sv, &kv);
    runs_of(&sv, &kv, &order)
}

// ---------------------------------------------------------------------
// Object files
// ---------------------------------------------------------------------

/// Names what `str::to_lowercase` returns for a string: its lower case
/// form under Unicode's rules (a function of the string alone).
pub uninterp spec fn lowercase(s: Seq<char>) -> Seq<char>;

/// Whether every character of `s` is ASCII.
pub open spec fn is_ascii_text(s: Seq<char>) -> bool {
    forall|k: int| 0 <= k < s.len() ==> (#[trigger] s[k] as nat) < 128
}

/// `s` with the ASCII letters `A` to `Z` turned into `a` to `z`.
pub open spec fn ascii_lower(s: Seq<char>) -> Seq<char> {
    s.map_values(|c: char| if 'A' <= c && c <= 'Z' {
        ((c as nat) + 32) as char
    } else {
        c
    })
}

/// Trusted: `str::to_lowercase` of std returns a new `String` holding the
/// lower case form of `s` under Unicode's rules, which the name `lowercase`
/// stands for.  Of ASCII text the contract also states what std documents
/// with `to_ascii_lowercase`: `A` to `Z` become `a` to `z` and nothing else
/// changes; of other text it says no more.
#[verifier::external_body]
fn to_lowercase(s: &str) -> (r: String)
    ensures
        r@ == lowercase(s@),
        is_ascii_text(s@) ==> r@ == ascii_lower(s@),
{
    s.to_lowercase()
}

/// The stem of an ASCII file name, as `stem_of` gives it: what follows its
/// first `-` (the whole name if it has none), with `A` to `Z` in lower case.
pub open spec fn ascii_stem(name: Seq<char>) -> Seq<char> {
    match first_index_of(name, '-') {
        Some(i) => ascii_lower(name.skip(i + 1)),
        None => ascii_lower(name),
    }
}

/// Whether the positions `i` and `j` are in one group.
pub open spec fn same_group(groups: Seq<Seq<usize>>, i: int, j: int) -> bool {
    exists|g: int, a: int, b: int|
        0 <= g < groups.len() && 0 <= a < groups[g].len() && 0 <= b < groups[g].len()
            && groups[g][a] as int == i && groups[g][b] as int == j
}

/// In a grouping by stem, positions with equal stems are in one group.
pub proof fn lemma_equal_stems_share_group(
    stems: Seq<Seq<char>>,
    keys: Seq<Seq<char>>,
    groups: Seq<Seq<usize>>,
    i: usize,
    j: usize,
)
    requires
        is_stem_grouping(stems, keys, groups),
        i < stems.len(),
        j < stems.len(),
        stems[i as int] == stems[j as int],
    ensures
        same_group(groups, i as int, j as int),
{
    assert(in_some_group(groups, i));
    assert(in_some_group(groups, j));
    let (g1, m1) = choose|g: int, m: int| 0 <= g < groups.len() && 0 <= m < groups[g].len() && groups[g][m] == i;
    let (g2, m2) = choose|g: int, m: int| 0 <= g < groups.len() && 0 <= m < groups[g].len() && groups[g][m] == j;
    assert(stems[groups[g1][m1] as int] == stems[groups[g1][0] as int]);
    assert(stems[groups[g2][m2] as int] == stems[groups[g2][0] as int]);
    lemma_lt_irreflexive(stems[i as int]);
    if g1 < g2 {
        assert(seq_lt(stems[groups[g1][0] as int], stems[groups[g2][0] as int]));
    } else if g2 < g1 {
        assert(seq_lt(stems[groups[g2][0] as int], stems[groups[g1][0] as int]));
    }
    assert(g1 == g2);
}

/// The stem of an object's file name: what follows its first `-` (the
/// whole name if it has none), in lower case.
pub open spec fn stem_of(name: Seq<char>) -> Seq<char> {
    match first_index_of(name, '-') {
        Some(i) => lowercase(name.skip(i + 1)),
        None => lowercase(name),
    }
}

/// The file name of each path.
pub open spec fn object_names(paths: Seq<String>) -> Seq<Seq<char>> {
    Seq::new(paths.len(), |i: int| path_file_name(paths[i]@)->Some_0)
}

/// The stem of each path's file name.
pub open spec fn path_stems(paths: Seq<String>) -> Seq<Seq<char>> {
    Seq::new(paths.len(), |i: int| stem_of(object_names(paths)[i]))
}

/// The lower case file name of each path.
pub open spec fn path_keys(paths: Seq<String>) -> Seq<Seq<char>> {
    Seq::new(paths.len(), |i: int| lowercase(object_names(paths)[i]))
}

fn stem_and_key(path: &String) -> (r: (String, String))
    requires
        path_file_name(path@) is Some,
    ensures
        r.0@ == stem_of(path_file_name(path@)->Some_0),
        r.1@ == lowercase(path_file_name(path@)->Some_0),
        is_ascii_text(path_file_name(path@)->Some_0) ==> r.0@ == ascii_stem(path_file_name(path@)->Some_0),
{
    let name = match file_name(path.as_str()) {
        Some(n) => n,
        None => String::new(),
    };
    let v = chars_of(name.as_str());
    let vlen = v.len();
    let stem = match find_char(v.as_slice(), '-') {
        Some(i) => {
            proof {
                lemma_first_index_of(v@, '-');
            }
            assert(i < v@.len());
            let rest = name.as_str().substring_char(i + 1, vlen);
            assert(rest@ =~= name@.skip(i + 1));
            proof {
                if is_ascii_text(name@) {
                    assert forall|k: int| 0 <= k < rest@.len() implies (#[trigger] rest@[k] as nat) < 128 by {
                        assert(rest@[k] == name@[k + i + 1]);
                    }
                }
            }
            to_lowercase(rest)
        },
        None => to_lowercase(name.as_str()),
    };
    (stem, to_lowercase(name.as_str()))
}

/// Groups object paths such as `0010-foo.bpf.o` and `0020-foo.bpf.o` by
/// stem (the lower case text after the first `-` of the file name), the
/// groups by rising stem, each group by falling lower case file name so
/// that `0020-foo` comes before `0010-foo`; paths with equal names keep
/// their order.  The first object of a group that loads wins.
pub fn sort_by_stem(paths: &Vec<String>) -> (r: Vec<Vec<String>>)
    requires
        forall|i: int| 0 <= i < paths@.len() ==> path_file_name(#[trigger] paths@[i]@) is Some,
    ensures
        exists|groups: Seq<Seq<usize>>|
            {
                &&& is_stem_grouping(path_stems(paths@), path_keys(paths@), groups)
                &&& r@.len() == groups.len()
                &&& forall|g: int| 0 <= g < groups.len() ==> (#[trigger] r@[g])@.len() == groups[g].len()
                &&& forall|g: int, m: int|
                    0 <= g < groups.len() && 0 <= m < groups[g].len() ==> (#[trigger] r@[g]@[m])@
                        == paths@[groups[g][m] as int]@
                &&& forall|i: int, j: int|
                    0 <= i < paths@.len() && 0 <= j < paths@.len() && is_ascii_text(
                        #[trigger] object_names(paths@)[i],
                    ) && is_ascii_text(#[trigger] object_names(paths@)[j]) && ascii_stem(
                        object_names(paths@)[i],
                    ) == ascii_stem(object_names(paths@)[j]) ==> same_group(groups, i, j)
            },
{
    let mut stems: Vec<String> = Vec::new();
    let mut keys: Vec<String> = Vec::new();
    let mut i: usize = 0;
    while i < paths.len()
        invariant
            i <= paths@.len(),
            forall|j: int| 0 <= j < paths@.len() ==> path_file_name(#[trigger] paths@[j]@) is Some,
            string_views(stems@) =~= path_stems(paths@).take(i as int),
            string_views(keys@) =~= path_keys(paths@).take(i as int),
            forall|j: int|
                0 <= j < i && is_ascii_text(#[trigger] object_names(paths@)[j]) ==> path_stems(paths@)[j]
                    == ascii_stem(object_names(paths@)[j]),
        decreases paths@.len() - i,
    {
        let (s, k) = stem_and_key(&paths[i]);
        assert(object_names(paths@)[i as int] == path_file_name(paths@[i as int]@)->Some_0);
        let ghost s0 = stems@;
        let ghost k0 = keys@;
        stems.push(s);
        keys.push(k);
        assert(string_views(stems@) =~= string_views(s0).push(s@));
        assert(string_views(keys@) =~= string_views(k0).push(k@));
        i = i + 1;
    }
    assert(path_stems(paths@).take(paths@.len() as int) =~= path_stems(paths@));
    assert(path_keys(paths@).take(paths@.len() as int) =~= path_keys(paths@));
    let groups = group_by_stem(&stems, &keys);
    let ghost gv = group_views(groups@);
    proof {
        assert forall|i: int, j: int|
            0 <= i < paths@.len() && 0 <= j < paths@.len() && is_ascii_text(
                #[trigger] object_names(paths@)[i],
            ) && is_ascii_text(#[trigger] object_names(paths@)[j]) && ascii_stem(object_names(paths@)[i])
                == ascii_stem(object_names(paths@)[j]) implies same_group(gv, i, j) by {
            lemma_equal_stems_share_group(path_stems(paths@), path_keys(paths@), gv, i as usize, j as usize);
        }
    }
    let mut out: Vec<Vec<String>> = Vec::new();
    let mut g: usize = 0;
    while g < groups.len()
        invariant
            g <= groups@.len(),
            gv == group_views(groups@),
            is_stem_grouping(path_stems(paths@), path_keys(paths@), gv),
            out@.len() == g,
            forall|h: int| 0 <= h < g ==> (#[trigger] out@[h])@.len() == gv[h].len(),
            forall|h: int, m: int|
                0 <= h < g && 0 <= m < gv[h].len() ==> (#[trigger] out@[h]@[m])@ == paths@[gv[h][m] as int]@,
        decreases groups@.len() - g,
    {
        let mut members: Vec<String> = Vec::new();
        let mut m: usize = 0;
        while m < groups[g].len()
            invariant
                g < groups@.len(),
                gv == group_views(groups@),
                is_stem_grouping(path_stems(paths@), path_keys(paths@), gv),
                m <= gv[g as int].len(),
                members@.len() == m,
                forall|j: int| 0 <= j < m ==> (#[trigger] members@[j])@ == paths@[gv[g as int][j] as int]@,
            decreases gv[g as int].len() - m,
        {
            let idx = groups[g][m];
            assert(gv[g as int][m as int] == idx);
            assert(idx < paths@.len());
            members.push(paths[idx].clone());
            m = m + 1;
        }
        let ghost o0 = out@;
        out.push(members);
        proof {
            assert forall|h: int, j: int|
                0 <= h < g + 1 && 0 <= j < gv[h].len() implies (#[trigger] out@[h]@[j])@ == paths@[gv[h][j] as int]@ by {
                if h < g {
                    assert(out@[h] == o0[h]);
                }
            }
        }
        g = g + 1;
    }
    out
}

/// A grouping by stem lists every position exactly once: it is in some
/// group, and no position is in two places.
pub proof fn lemma_stem_grouping_lists_once(
    stems: Seq<Seq<char>>,
    keys: Seq<Seq<char>>,
    groups: Seq<Seq<usize>>,
    g1: int,
    m1: int,
    g2: int,
    m2: int,
)
    requires
        is_stem_grouping(stems, keys, groups),
        0 <= g1 < groups.len(),
        0 <= m1 < groups[g1].len(),
        0 <= g2 < groups.len(),
        0 <= m2 < groups[g2].len(),
        groups[g1][m1] == groups[g2][m2],
    ensures
        g1 == g2 && m1 == m2,
{
    let x = groups[g1][m1] as int;
    assert(stems[x] == stems[groups[g1][0] as int]);
    assert(stems[groups[g2][m2] as int] == stems[groups[g2][0] as int]);
    lemma_lt_irreflexive(stems[x]);
    lemma_lt_irreflexive(keys[x]);
    if g1 < g2 {
        assert(seq_lt(stems[groups[g1][0] as int], stems[groups[g2][0] as int]));
    } else if g2 < g1 {
        assert(seq_lt(stems[groups[g2][0] as int], stems[groups[g1][0] as int]));
    } else if m1 < m2 {
        assert(key_before(keys, groups[g1][m1] as int, groups[g1][m2] as int));
    } else if m2 < m1 {
        assert(key_before(keys, groups[g1][m2] as int, groups[g1][m1] as int));
    }
}

} // verus!
