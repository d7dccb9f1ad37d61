//! Display names for files: the last component of the path, and a longer
//! end of the path where several files share a last component.

use vstd::prelude::*;
use crate::diff::{FileDiff, FileDiffView, files_view, lines_view};
use crate::path_map::PathMap;
use crate::text::{
    base_start, base_start_upto, basename, chars_of, ends_with, lemma_base_start_bounds, substring,
};

verus! {

/// Display names by path.
pub type DisplayNames = PathMap<String>;

/// Number of paths among the first `n` that end with `suffix`.
pub open spec fn count_ending(paths: Seq<Seq<char>>, n: int, suffix: Seq<char>) -> nat
    decreases n,
{
    if n <= 0 || n > paths.len() {
        0
    } else {
        count_ending(paths, n - 1, suffix) + if ends_with(paths[n - 1], suffix) {
            1nat
        } else {
            0nat
        }
    }
}

/// The shortest end of `path` that starts with a component at `start` or
/// before it and that exactly one of `all` ends with; `path` itself where
/// there is none.
pub open spec fn unique_suffix_from(path: Seq<char>, all: Seq<Seq<char>>, start: int) -> Seq<char>
    decreases start,
{
    if start < 0 || start > path.len() {
        path
    } else if count_ending(all, all.len() as int, path.skip(start)) == 1 {
        path.skip(start)
    } else if start == 0 {
        path
    } else {
        proof {
            lemma_base_start_bounds(path, start - 1);
        }
        unique_suffix_from(path, all, base_start_upto(path, start - 1))
    }
}

/// The shortest end of `path`, made of whole components, that exactly one
/// of `all` ends with; `path` itself where there is none.
pub open spec fn spec_unique_suffix(path: Seq<char>, all: Seq<Seq<char>>) -> Seq<char> {
    unique_suffix_from(path, all, base_start(path))
}

/// The paths among the first `n` whose last component is `base`, in order.
pub open spec fn same_base(paths: Seq<Seq<char>>, n: int, base: Seq<char>) -> Seq<Seq<char>>
    decreases n,
{
    if n <= 0 || n > paths.len() {
        Seq::empty()
    } else if basename(paths[n - 1]) == base {
        same_base(paths, n - 1, base).push(paths[n - 1])
    } else {
        same_base(paths, n - 1, base)
    }
}

/// The paths of a list of files.
pub open spec fn paths_of(files: Seq<FileDiffView>) -> Seq<Seq<char>> {
    files.map_values(|f: FileDiffView| f.path)
}

/// The name under which a path is shown: its last component, or, where
/// other paths share that component, its shortest unique end among them.
pub open spec fn spec_display_name(paths: Seq<Seq<char>>, path: Seq<char>) -> Seq<char> {
    let group = same_base(paths, paths.len() as int, basename(path));
    if group.len() > 1 {
        spec_unique_suffix(path, group)
    } else {
        basename(path)
    }
}

/// The character sequences of a list of paths.
pub open spec fn chars_view(paths: Seq<Vec<char>>) -> Seq<Seq<char>> {
    paths.map_values(|p: Vec<char>| p@)
}

/// Whether `s` ends with what follows the first `from` characters of `t`.
fn ends_with_tail(s: &[char], t: &[char], from: usize) -> (ends: bool)
    requires
        from <= t@.len(),
    ensures
        ends == ends_with(s@, t@.skip(from as int)),
{
    let t_len = t.len();
    let tail = t_len - from;
    if tail > s.len() {
        return false;
    }
    let len = s.len();
    let shift = len - tail;
    let mut i: usize = 0;
    while i < tail
        invariant
            i <= tail,
            len == s@.len(),
            t_len == t@.len(),
            tail == t@.len() - from,
            shift + tail == len,
            forall|k: int|
                0 <= k < i ==> s@.skip(shift as int)[k] == #[trigger] t@.skip(from as int)[k],
        decreases tail - i,
    {
        if s[shift + i] != t[from + i] {
            assert(s@.skip(shift as int)[i as int] != t@.skip(from as int)[i as int]);
            return false;
        }
        i += 1;
    }
    assert(s@.skip(shift as int) =~= t@.skip(from as int));
    true
}

/// Number of paths that end with what follows the first `from` characters
/// of `t`.
fn count_paths_ending(paths: &Vec<Vec<char>>, t: &[char], from: usize) -> (count: usize)
    requires
        from <= t@.len(),
    ensures
        count == count_ending(chars_view(paths@), paths@.len() as int, t@.skip(from as int)),
{
    let ghost views = chars_view(paths@);
    let mut count: usize = 0;
    let mut i: usize = 0;
    while i < paths.len()
        invariant
            i <= paths@.len(),
            from <= t@.len(),
            views == chars_view(paths@),
            count <= i,
            count == count_ending(views, i as int, t@.skip(from as int)),
        decreases paths@.len() - i,
    {
        if ends_with_tail(paths[i].as_slice(), t, from) {
            count += 1;
        }
        i += 1;
    }
    count
}

/// Start of the last component of the first `n` characters.
fn base_start_before(s: &[char], n: usize) -> (start: usize)
    requires
        n <= s@.len(),
    ensures
        start == base_start_upto(s@, n as int),
        start <= n,
{
    let mut k: usize = n;
    while k > 0 && s[k - 1] != '/'
        invariant
            k <= n,
            n <= s@.len(),
            base_start_upto(s@, k as int) == base_start_upto(s@, n as int),
        decreases k,
    {
        k -= 1;
    }
    k
}

/// Start of the shortest end of `path`, made of whole components, that
/// exactly one of `all` ends with; `None` where there is no such end.
fn unique_suffix_start(path: &[char], all: &Vec<Vec<char>>) -> (start: Option<usize>)
    ensures
        match start {
            Some(k) => k <= path@.len() && spec_unique_suffix(path@, chars_view(all@)) == path@.skip(
                k as int,
            ),
            None => spec_unique_suffix(path@, chars_view(all@)) == path@,
        },
{
    let ghost views = chars_view(all@);
    let mut start = base_start_before(path, path.len());
    loop
        invariant
            start <= path@.len(),
            views == chars_view(all@),
            unique_suffix_from(path@, views, start as int) == spec_unique_suffix(path@, views),
        decreases start,
    {
        if count_paths_ending(all, path, start) == 1 {
            return Some(start);
        }
        if start == 0 {
            return None;
        }
        start = base_start_before(path, start - 1);
    }
}

/// The characters of each path.
fn all_chars(paths: &[String]) -> (chars: Vec<Vec<char>>)
    ensures
        chars_view(chars@) == lines_view(paths@),
{
    let mut chars: Vec<Vec<char>> = Vec::new();
    let mut i: usize = 0;
    while i < paths.len()
        invariant
            i <= paths@.len(),
            chars@.len() == i,
            forall|k: int| 0 <= k < i ==> (#[trigger] chars@[k])@ == paths@[k]@,
        decreases paths@.len() - i,
    {
        chars.push(chars_of(paths[i].as_str()));
        i += 1;
    }
    assert(chars_view(chars@) =~= lines_view(paths@));
    chars
}

/// The shortest end of `path`, made of whole components, that exactly one
/// of `all_paths` ends with; `path` itself where there is none.
pub fn find_unique_suffix(path: &str, all_paths: &[String]) -> (suffix: String)
    ensures
        suffix@ == spec_unique_suffix(path@, lines_view(all_paths@)),
{
    let chars = chars_of(path);
    let all = all_chars(all_paths);
    match unique_suffix_start(chars.as_slice(), &all) {
        Some(start) => {
            let suffix = substring(path, start, chars.len());
            assert(suffix@ =~= path@.skip(start as int));
            suffix
        },
        None => path.to_owned(),
    }
}

/// The name under which each file of a diff set is shown, by path.
pub fn get_display_names(diffs: &[FileDiff]) -> (names: DisplayNames)
    ensures
        forall|p: Seq<char>|
            names@.contains_key(p) <==> exists|i: int|
                0 <= i < diffs@.len() && (#[trigger] diffs@[i]).path@ == p,
        forall|i: int|
            0 <= i < diffs@.len() ==> names@[(#[trigger] diffs@[i]).path@]@ == spec_display_name(
                paths_of(files_view(diffs@)),
                diffs@[i].path@,
            ),
{
    let ghost paths = paths_of(files_view(diffs@));
    let mut chars: Vec<Vec<char>> = Vec::new();
    let mut bases: Vec<usize> = Vec::new();
    let mut i: usize = 0;
    while i < diffs.len()
        invariant
            i <= diffs@.len(),
            paths == paths_of(files_view(diffs@)),
            chars@.len() == i,
            bases@.len() == i,
            forall|k: int| 0 <= k < i ==> (#[trigger] chars@[k])@ == paths[k],
            forall|k: int| 0 <= k < i ==> (#[trigger] bases@[k]) == base_start(paths[k]),
        decreases diffs@.len() - i,
    {
        let c = chars_of(diffs[i].path.as_str());
        bases.push(crate::text::base_start_of(c.as_slice()));
        chars.push(c);
        i += 1;
    }
    let mut names: DisplayNames = PathMap::new();
    let mut i: usize = 0;
    while i < diffs.len()
        invariant
            i <= diffs@.len(),
            paths == paths_of(files_view(diffs@)),
            paths.len() == diffs@.len(),
            chars@.len() == diffs@.len(),
            bases@.len() == diffs@.len(),
            forall|k: int| 0 <= k < diffs@.len() ==> (#[trigger] chars@[k])@ == paths[k],
            forall|k: int| 0 <= k < diffs@.len() ==> (#[trigger] bases@[k]) == base_start(paths[k]),
            forall|p: Seq<char>|
                names@.contains_key(p) <==> exists|k: int| 0 <= k < i && #[trigger] paths[k] == p,
            forall|k: int|
                0 <= k < i ==> names@[#[trigger] paths[k]]@ == spec_display_name(paths, paths[k]),
        decreases diffs@.len() - i,
    {
        let path = diffs[i].path.as_str();
        let ghost base = basename(paths[i as int]);
        assert(path@ == paths[i as int]);
        proof {
            lemma_base_start_bounds(paths[i as int], paths[i as int].len() as int);
        }
        let mut group: Vec<Vec<char>> = Vec::new();
        let mut j: usize = 0;
        while j < diffs.len()
            invariant
                j <= diffs@.len(),
                i < diffs@.len(),
                paths == paths_of(files_view(diffs@)),
                paths.len() == diffs@.len(),
                chars@.len() == diffs@.len(),
                bases@.len() == diffs@.len(),
                base == basename(paths[i as int]),
                forall|k: int| 0 <= k < diffs@.len() ==> (#[trigger] chars@[k])@ == paths[k],
                forall|k: int|
                    0 <= k < diffs@.len() ==> (#[trigger] bases@[k]) == base_start(paths[k]),
                chars_view(group@) == same_base(paths, j as int, base),
            decreases diffs@.len() - j,
        {
            let ghost so_far = group@;
            proof {
                lemma_base_start_bounds(paths[j as int], paths[j as int].len() as int);
                lemma_base_start_bounds(paths[i as int], paths[i as int].len() as int);
            }
            let same = ends_with_tail(chars[j].as_slice(), chars[i].as_slice(), bases[i])
                && chars[j].len() - bases[j] == chars[i].len() - bases[i];
            proof {
                let pj = paths[j as int];
                let bj = bases@[j as int] as int;
                if same {
                    assert(pj.skip(pj.len() - base.len()) == base);
                    assert(basename(pj) =~= base);
                } else if basename(pj) == base {
                    assert(pj.len() - bj == base.len());
                    assert(ends_with(pj, base));
                }
                assert(same == (basename(pj) == base));
            }
            if same {
                let member = chars_of(diffs[j].path.as_str());
                assert(member@ == paths[j as int]);
                group.push(member);
                assert(chars_view(group@) =~= chars_view(so_far).push(paths[j as int]));
            }
            j += 1;
        }
        let name = if group.len() > 1 {
            match unique_suffix_start(chars[i].as_slice(), &group) {
                Some(start) => {
                    let suffix = substring(path, start, chars[i].len());
                    assert(suffix@ =~= path@.skip(start as int));
                    suffix
                },
                None => path.to_owned(),
            }
        } else {
            let base_name = substring(path, bases[i], chars[i].len());
            assert(base_name@ =~= base);
            base_name
        };
        let ghost before = names@;
        names.insert(path, name);
        proof {
            assert(name@ == spec_display_name(paths, paths[i as int]));
            assert forall|p: Seq<char>| names@.contains_key(p) <==> exists|k: int|
                0 <= k < i + 1 && #[trigger] paths[k] == p by {
                if names@.contains_key(p) {
                    if p == paths[i as int] {
                    } else {
                        assert(before.contains_key(p));
                        let k = choose|k: int| 0 <= k < i && #[trigger] paths[k] == p;
                        assert(0 <= k < i + 1 && paths[k] == p);
                    }
                }
                if exists|k: int| 0 <= k < i + 1 && #[trigger] paths[k] == p {
                    let k = choose|k: int| 0 <= k < i + 1 && #[trigger] paths[k] == p;
                    if k < i {
                        assert(before.contains_key(p));
                    }
                }
            }
        }
        i += 1;
    }
    proof {
        assert forall|p: Seq<char>| names@.contains_key(p) <==> exists|k: int|
            0 <= k < diffs@.len() && (#[trigger] diffs@[k]).path@ == p by {
            if names@.contains_key(p) {
                let k = choose|k: int| 0 <= k < diffs@.len() && #[trigger] paths[k] == p;
                assert(diffs@[k].path@ == p);
            }
            if exists|k: int| 0 <= k < diffs@.len() && (#[trigger] diffs@[k]).path@ == p {
                let k = choose|k: int| 0 <= k < diffs@.len() && (#[trigger] diffs@[k]).path@ == p;
                assert(paths[k] == p);
            }
        }
        assert forall|k: int| 0 <= k < diffs@.len() implies names@[(#[trigger] diffs@[k]).path@]@
            == spec_display_name(paths, diffs@[k].path@) by {
            assert(paths[k] == diffs@[k].path@);
        }
    }
    names
}

} // verus!
