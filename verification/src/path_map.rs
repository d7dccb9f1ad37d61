//! Side tables keyed by path. The collapse map, which records the folders
//! that the user has closed or opened, is one: it outlives every rebuild of
//! the file tree.

use vstd::prelude::*;
use crate::text::str_equal;

verus! {

/// What the entries from `k` on say, an earlier entry winning over a later
/// one with the same path.
pub open spec fn entries_from<V>(entries: Seq<(String, V)>, k: int) -> Map<Seq<char>, V>
    decreases entries.len() - k,
{
    if k < 0 || k >= entries.len() {
        Map::empty()
    } else {
        entries_from(entries, k + 1).insert(entries[k].0@, entries[k].1)
    }
}

/// Whether a folder is open: as the map says, and open where the map is
/// silent.
pub open spec fn is_expanded(states: Map<Seq<char>, bool>, path: Seq<char>) -> bool {
    if states.contains_key(path) {
        states[path]
    } else {
        true
    }
}

/// The map after the state of `path` was flipped.
pub open spec fn spec_toggle(states: Map<Seq<char>, bool>, path: Seq<char>) -> Map<
    Seq<char>,
    bool,
> {
    states.insert(path, !is_expanded(states, path))
}

/// A table from paths to values.
pub struct PathMap<V> {
    entries: Vec<(String, V)>,
}

/// Expansion states of folders by path.
pub type CollapseMap = PathMap<bool>;

impl<V> View for PathMap<V> {
    type V = Map<Seq<char>, V>;

    closed spec fn view(&self) -> Map<Seq<char>, V> {
        entries_from(self.entries@, 0)
    }
}

/// Replacing the first entry of a path changes what the map says of that
/// path and nothing else.
proof fn lemma_replace_first<V>(
    entries: Seq<(String, V)>,
    after: Seq<(String, V)>,
    k: int,
    j: int,
    expanded: V,
)
    requires
        0 <= k <= j < entries.len(),
        after.len() == entries.len(),
        forall|i: int| 0 <= i < entries.len() && i != j ==> after[i] == entries[i],
        after[j].0@ == entries[j].0@,
        after[j].1 == expanded,
        forall|i: int| k <= i < j ==> (#[trigger] entries[i]).0@ != entries[j].0@,
    ensures
        entries_from(after, k) == entries_from(entries, k).insert(entries[j].0@, expanded),
    decreases j - k,
{
    if k < j {
        lemma_replace_first(entries, after, k + 1, j, expanded);
        assert(entries_from(after, k) =~= entries_from(entries, k).insert(entries[j].0@, expanded));
    } else {
        lemma_same_tail(entries, after, j + 1);
        assert(entries_from(after, k) =~= entries_from(entries, k).insert(entries[j].0@, expanded));
    }
}

/// Entries that agree from `k` on say the same from `k` on.
proof fn lemma_same_tail<V>(entries: Seq<(String, V)>, after: Seq<(String, V)>, k: int)
    requires
        0 <= k <= entries.len(),
        after.len() == entries.len(),
        forall|i: int| k <= i < entries.len() ==> after[i] == entries[i],
    ensures
        entries_from(after, k) == entries_from(entries, k),
    decreases entries.len() - k,
{
    if k < entries.len() {
        lemma_same_tail(entries, after, k + 1);
    }
}

/// An entry appended for a path that no entry has adds that path and
/// changes nothing else.
proof fn lemma_append_new<V>(entries: Seq<(String, V)>, entry: (String, V), k: int)
    requires
        0 <= k <= entries.len(),
        forall|i: int| k <= i < entries.len() ==> (#[trigger] entries[i]).0@ != entry.0@,
    ensures
        entries_from(entries.push(entry), k) == entries_from(entries, k).insert(
            entry.0@,
            entry.1,
        ),
    decreases entries.len() - k,
{
    let after = entries.push(entry);
    if k < entries.len() {
        lemma_append_new(entries, entry, k + 1);
        assert(after[k] == entries[k]);
        assert(entries_from(after, k) =~= entries_from(entries, k).insert(entry.0@, entry.1));
    } else {
        assert(entries_from(after, k + 1) =~= Map::<Seq<char>, V>::empty());
        assert(entries_from(after, k) =~= entries_from(entries, k).insert(entry.0@, entry.1));
    }
}

/// A path that no entry from `k` on has is not in what they say; the first
/// entry of a path decides what they say of it.
proof fn lemma_lookup<V>(entries: Seq<(String, V)>, k: int, j: int, path: Seq<char>)
    requires
        0 <= k <= j <= entries.len(),
        forall|i: int| k <= i < j ==> (#[trigger] entries[i]).0@ != path,
        j < entries.len() ==> entries[j].0@ == path,
    ensures
        j == entries.len() ==> !entries_from(entries, k).contains_key(path),
        j < entries.len() ==> entries_from(entries, k).contains_key(path) && entries_from(
            entries,
            k,
        )[path] == entries[j].1,
    decreases j - k,
{
    if k < j {
        lemma_lookup(entries, k + 1, j, path);
    }
}

/// Position of the first entry from `k` on for `path`; the number of
/// entries where there is none.
spec fn first_entry<V>(entries: Seq<(String, V)>, path: Seq<char>, k: int) -> int
    decreases entries.len() - k,
{
    if k < 0 || k >= entries.len() || entries[k].0@ == path {
        k
    } else {
        first_entry(entries, path, k + 1)
    }
}

/// The first entry for a path stands behind entries for other paths only.
proof fn lemma_first_entry<V>(entries: Seq<(String, V)>, path: Seq<char>, k: int)
    requires
        0 <= k <= entries.len(),
    ensures
        k <= first_entry(entries, path, k) <= entries.len(),
        forall|i: int| k <= i < first_entry(entries, path, k) ==> (#[trigger] entries[i]).0@ != path,
        first_entry(entries, path, k) < entries.len() ==> entries[first_entry(
            entries,
            path,
            k,
        )].0@ == path,
    decreases entries.len() - k,
{
    if k < entries.len() && entries[k].0@ != path {
        lemma_first_entry(entries, path, k + 1);
    }
}

/// Taking out an entry changes nothing of what is said of other paths.
proof fn lemma_remove_entry<V>(entries: Seq<(String, V)>, j: int, path: Seq<char>)
    requires
        0 <= j < entries.len(),
        entries[j].0@ != path,
    ensures
        entries_from(entries.remove(j), 0).contains_key(path) == entries_from(
            entries,
            0,
        ).contains_key(path),
        entries_from(entries, 0).contains_key(path) ==> entries_from(entries.remove(j), 0)[path]
            == entries_from(entries, 0)[path],
{
    let after = entries.remove(j);
    let r = first_entry(entries, path, 0);
    lemma_first_entry(entries, path, 0);
    lemma_lookup(entries, 0, r, path);
    let r2 = if r < j {
        r
    } else {
        r - 1
    };
    assert forall|i: int| 0 <= i < r2 implies (#[trigger] after[i]).0@ != path by {
        if i < j {
            assert(after[i] == entries[i]);
        } else {
            assert(after[i] == entries[i + 1]);
        }
    }
    if r < entries.len() {
        assert(after[r2] == entries[r]);
    }
    lemma_lookup(after, 0, r2, path);
}

impl<V> PathMap<V> {
    /// A table without entries.
    pub fn new() -> (table: PathMap<V>)
        ensures
            table@ == Map::<Seq<char>, V>::empty(),
    {
        PathMap { entries: Vec::new() }
    }

    /// Position of the first entry for `path`; the number of entries where
    /// there is none.
    fn position(&self, path: &str) -> (j: usize)
        ensures
            j <= self.entries@.len(),
            forall|i: int| 0 <= i < j ==> (#[trigger] self.entries@[i]).0@ != path@,
            j < self.entries@.len() ==> self.entries@[j as int].0@ == path@,
    {
        let mut j: usize = 0;
        while j < self.entries.len()
            invariant
                j <= self.entries@.len(),
                forall|i: int| 0 <= i < j ==> (#[trigger] self.entries@[i]).0@ != path@,
            decreases self.entries@.len() - j,
        {
            if str_equal(self.entries[j].0.as_str(), path) {
                return j;
            }
            j += 1;
        }
        j
    }

    /// The value recorded for a path, if any.
    pub fn get(&self, path: &str) -> (value: Option<&V>)
        ensures
            match value {
                Some(v) => self@.contains_key(path@) && *v == self@[path@],
                None => !self@.contains_key(path@),
            },
    {
        let j = self.position(path);
        proof {
            lemma_lookup(self.entries@, 0, j as int, path@);
        }
        if j < self.entries.len() {
            Some(&self.entries[j].1)
        } else {
            None
        }
    }

    /// Whether a value is recorded for a path.
    pub fn contains(&self, path: &str) -> (known: bool)
        ensures
            known == self@.contains_key(path@),
    {
        self.get(path).is_some()
    }

    /// Records a value for a path, in place of what was recorded for it.
    pub fn insert(&mut self, path: &str, value: V)
        ensures
            final(self)@ == old(self)@.insert(path@, value),
    {
        let j = self.position(path);
        let ghost before = self.entries@;
        let entry = (path.to_owned(), value);
        if j < self.entries.len() {
            self.entries.set(j, entry);
            proof {
                lemma_replace_first(before, self.entries@, 0, j as int, value);
            }
        } else {
            self.entries.push(entry);
            proof {
                lemma_append_new(before, entry, 0);
            }
        }
    }
}

impl<V> PathMap<V> {
    /// Forgets what is recorded for a path.
    pub fn remove(&mut self, path: &str)
        ensures
            final(self)@ == old(self)@.remove(path@),
    {
        let ghost start = self@;
        loop
            invariant
                forall|p: Seq<char>|
                    p != path@ ==> self@.contains_key(p) == #[trigger] start.contains_key(p),
                forall|p: Seq<char>|
                    p != path@ && #[trigger] start.contains_key(p) ==> self@[p] == start[p],
            ensures
                !self@.contains_key(path@),
            decreases self.entries@.len(),
        {
            let j = self.position(path);
            proof {
                lemma_lookup(self.entries@, 0, j as int, path@);
            }
            if j >= self.entries.len() {
                break;
            }
            let ghost before = self.entries@;
            self.entries.remove(j);
            proof {
                assert forall|p: Seq<char>| p != path@ implies self@.contains_key(p)
                    == #[trigger] start.contains_key(p) by {
                    lemma_remove_entry(before, j as int, p);
                }
                assert forall|p: Seq<char>|
                    p != path@ && #[trigger] start.contains_key(p) implies self@[p] == start[p] by {
                    lemma_remove_entry(before, j as int, p);
                }
            }
        }
        assert(self@ =~= start.remove(path@));
    }

    /// Forgets everything.
    pub fn clear(&mut self)
        ensures
            final(self)@ == Map::<Seq<char>, V>::empty(),
    {
        self.entries = Vec::new();
    }
}

impl PathMap<bool> {
    /// Whether a folder is open: as the map says, and open where the map is
    /// silent.
    pub fn expanded(&self, path: &str) -> (open: bool)
        ensures
            open == is_expanded(self@, path@),
    {
        match self.get(path) {
            Some(state) => *state,
            None => true,
        }
    }

    /// Flips the state of a folder and returns the new state.
    pub fn toggle(&mut self, path: &str) -> (expanded: bool)
        ensures
            expanded == !is_expanded(old(self)@, path@),
            final(self)@ == spec_toggle(old(self)@, path@),
    {
        let expanded = !self.expanded(path);
        self.insert(path, expanded);
        expanded
    }
}

/// Flipping a folder twice leaves every folder as open or closed as it
/// was.
pub proof fn lemma_toggle_twice(states: Map<Seq<char>, bool>, path: Seq<char>, other: Seq<char>)
    ensures
        is_expanded(spec_toggle(spec_toggle(states, path), path), other) == is_expanded(
            states,
            other,
        ),
{
}

} // verus!
