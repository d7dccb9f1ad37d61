//! The cache of tokenized lines: what a tokenizer has made of the lines of
//! a text, kept under a key until the text changes.
//!
//! The cache is an object of its own that is handed to whoever tokenizes;
//! it is emptied when the diff set is loaded anew.

use vstd::prelude::*;
use crate::path_map::PathMap;

verus! {

/// Tokenized lines by key. `T` is what a tokenizer makes of a piece of a
/// line.
pub struct LineCache<T> {
    table: PathMap<Vec<Vec<T>>>,
}

impl<T> View for LineCache<T> {
    type V = Map<Seq<char>, Vec<Vec<T>>>;

    closed spec fn view(&self) -> Map<Seq<char>, Vec<Vec<T>>> {
        self.table@
    }
}

impl<T> LineCache<T> {
    /// An empty cache.
    pub fn new() -> (cache: LineCache<T>)
        ensures
            cache@ == Map::<Seq<char>, Vec<Vec<T>>>::empty(),
    {
        LineCache { table: PathMap::new() }
    }

    /// The lines kept under a key, where they are as many as `count`: a
    /// text of another length is another text.
    pub fn lines(&self, key: &str, count: usize) -> (lines: Option<&Vec<Vec<T>>>)
        ensures
            match lines {
                Some(l) => self@.contains_key(key@) && *l == self@[key@] && l@.len() == count,
                None => !self@.contains_key(key@) || self@[key@]@.len() != count,
            },
    {
        match self.table.get(key) {
            Some(lines) => if lines.len() == count {
                Some(lines)
            } else {
                None
            },
            None => None,
        }
    }

    /// Line `index` of the lines kept under a key.
    pub fn line(&self, key: &str, index: usize) -> (line: Option<&Vec<T>>)
        ensures
            match line {
                Some(l) => self@.contains_key(key@) && index < self@[key@]@.len() && *l
                    == self@[key@]@[index as int],
                None => !self@.contains_key(key@) || index >= self@[key@]@.len(),
            },
    {
        match self.table.get(key) {
            Some(lines) => if index < lines.len() {
                Some(&lines[index])
            } else {
                None
            },
            None => None,
        }
    }

    /// Keeps lines under a key, in place of what was kept under it.
    pub fn store(&mut self, key: &str, lines: Vec<Vec<T>>)
        ensures
            final(self)@ == old(self)@.insert(key@, lines),
    {
        self.table.insert(key, lines);
    }

    /// Forgets the lines kept under a key.
    pub fn invalidate(&mut self, key: &str)
        ensures
            final(self)@ == old(self)@.remove(key@),
    {
        self.table.remove(key);
    }

    /// Forgets all lines.
    pub fn clear(&mut self)
        ensures
            final(self)@ == Map::<Seq<char>, Vec<Vec<T>>>::empty(),
    {
        self.table.clear();
    }
}

} // verus!
