//! Diff alignment, virtual line addressing and file-tree navigation for a
//! terminal diff viewer.
//!
//! The library turns a set of file diffs into display rows that can be
//! addressed by an absolute row number, keeps a browsable tree of the files,
//! and holds the navigation state that ties the two together. It paints
//! nothing and reads nothing: rows name what they show by position, and
//! every input arrives as a plain value.
//!
//! - [`diff`], [`patch`]: the diff model and its construction from a patch.
//! - [`pairing`], [`rows`], [`cells`]: the rows of a file in each layout.
//! - [`index`], [`limits`]: row counts, file starts and scroll bounds.
//! - [`file_tree`], [`path_map`], [`names`]: the file tree, the collapse map
//!   and display names.
//! - [`nav`], [`state`], [`keys`], [`input`], [`view`], [`filter`]: cursor
//!   arithmetic, the navigation state and what input does to it.
//! - [`text`], [`width`], [`labels`], [`layout`], [`syntax`], [`cache`]:
//!   texts, their width on screen, the furniture of the screen and the
//!   cache of tokenized lines.
//! - [`commits`], [`worktree`]: commits and worktrees as the viewer sees
//!   them.
//! - [`row_laws`], [`tree_laws`], [`nav_laws`]: what holds of rows, of the
//!   file tree and of navigation.

pub mod cache;
pub mod cells;
pub mod commits;
pub mod diff;
pub mod file_tree;
pub mod filter;
pub mod index;
pub mod input;
pub mod keys;
pub mod labels;
pub mod layout;
pub mod limits;
pub mod names;
pub mod nav;
pub mod nav_laws;
pub mod pairing;
pub mod patch;
pub mod path_map;
pub mod row_laws;
pub mod rows;
pub mod state;
pub mod syntax;
pub mod text;
pub mod tree_laws;
pub mod view;
pub mod width;
pub mod worktree;
