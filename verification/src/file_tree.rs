//! The file tree index: a folder and file hierarchy built from the paths of
//! a diff set, kept as one list of nodes in path order.

use vstd::prelude::*;
use crate::path_map::{CollapseMap, is_expanded};
use crate::diff::{
    FileDiff, FileDiffView, files_view, lemma_total_added_monotonic,
    lemma_total_removed_monotonic, total_added, total_removed,
};
use crate::tree_laws::{
    files_mean, folders_complete, folders_first, holds_files, lemma_tree_means, lemma_tree_order,
    sorted,
};
use crate::text::{
    base_start_of, basename, chars_equal, chars_less, chars_of, count_slashes, slash_count,
    starts_component, str_equal, substring, text_less,
};

verus! {

/// A name of a lock file.
pub open spec fn is_lock_name(name: Seq<char>) -> bool {
    ||| name == "go.sum"@
    ||| name == "package-lock.json"@
    ||| name == "yarn.lock"@
    ||| name == "pnpm-lock.yaml"@
    ||| name == "Cargo.lock"@
    ||| name == "Gemfile.lock"@
    ||| name == "poetry.lock"@
    ||| name == "composer.lock"@
}

/// A component of the path starts with a dot.
pub open spec fn has_dot_component(path: Seq<char>) -> bool {
    exists|i: int| starts_component(path, i) && #[trigger] path[i] == '.'
}

/// A path is hidden when one of its components starts with a dot or its
/// last component is the name of a lock file.
pub open spec fn spec_is_hidden_file(path: Seq<char>) -> bool {
    has_dot_component(path) || is_lock_name(basename(path))
}

/// Whether a name is that of a lock file.
fn is_lock_file_name(name: &str) -> (lock: bool)
    ensures
        lock == is_lock_name(name@),
{
    str_equal(name, "go.sum") || str_equal(name, "package-lock.json") || str_equal(
        name,
        "yarn.lock",
    ) || str_equal(name, "pnpm-lock.yaml") || str_equal(name, "Cargo.lock") || str_equal(
        name,
        "Gemfile.lock",
    ) || str_equal(name, "poetry.lock") || str_equal(name, "composer.lock")
}

/// Whether a path is hidden: a dotfile, a file below a dot folder, or a
/// lock file.
pub fn is_hidden_file(path: &str) -> (hidden: bool)
    ensures
        hidden == spec_is_hidden_file(path@),
{
    let chars = chars_of(path);
    let mut i: usize = 0;
    while i < chars.len()
        invariant
            i <= chars@.len(),
            chars@ == path@,
            forall|k: int| 0 <= k < i && starts_component(path@, k) ==> #[trigger] path@[k] != '.',
        decreases chars@.len() - i,
    {
        if chars[i] == '.' && (i == 0 || chars[i - 1] == '/') {
            assert(starts_component(path@, i as int));
            return true;
        }
        i += 1;
    }
    let start = base_start_of(chars.as_slice());
    let name = substring(path, start, chars.len());
    assert(name@ =~= basename(path@));
    is_lock_file_name(name.as_str())
}

/// One row of the file browser.
#[derive(Debug, Clone)]
pub struct TreeNode {
    /// Last component of the path.
    pub name: String,
    /// Full path, separated by `/`.
    pub path: String,
    pub is_folder: bool,
    /// Number of `/` in the path.
    pub depth: usize,
    /// Lines added: the file's own, or the sum over the files below a
    /// folder.
    pub added: usize,
    pub removed: usize,
    /// Position of the file in the diff set; folders have none.
    pub diff_index: Option<usize>,
    /// Whether a folder is open.
    pub expanded: bool,
    pub is_hidden: bool,
}

/// A node of the file tree as a mathematical value.
pub struct TreeNodeView {
    pub name: Seq<char>,
    pub path: Seq<char>,
    pub is_folder: bool,
    pub depth: nat,
    pub added: nat,
    pub removed: nat,
    pub diff_index: Option<nat>,
    pub expanded: bool,
    pub is_hidden: bool,
}

impl View for TreeNode {
    type V = TreeNodeView;

    open spec fn view(&self) -> TreeNodeView {
        TreeNodeView {
            name: self.name@,
            path: self.path@,
            is_folder: self.is_folder,
            depth: self.depth as nat,
            added: self.added as nat,
            removed: self.removed as nat,
            diff_index: match self.diff_index {
                Some(i) => Some(i as nat),
                None => None,
            },
            expanded: self.expanded,
            is_hidden: self.is_hidden,
        }
    }
}

/// The views of a list of nodes.
pub open spec fn tree_view(nodes: Seq<TreeNode>) -> Seq<TreeNodeView> {
    nodes.map_values(|n: TreeNode| n@)
}

/// The node of file `i` of the diff set.
pub open spec fn file_node(f: FileDiffView, i: int) -> TreeNodeView {
    TreeNodeView {
        name: basename(f.path),
        path: f.path,
        is_folder: false,
        depth: slash_count(f.path),
        added: f.added,
        removed: f.removed,
        diff_index: Some(i as nat),
        expanded: false,
        is_hidden: spec_is_hidden_file(f.path),
    }
}

/// The node of a folder with the given totals.
pub open spec fn folder_node(
    path: Seq<char>,
    added: nat,
    removed: nat,
    states: Map<Seq<char>, bool>,
) -> TreeNodeView {
    TreeNodeView {
        name: basename(path),
        path: path,
        is_folder: true,
        depth: slash_count(path),
        added: added,
        removed: removed,
        diff_index: None,
        expanded: is_expanded(states, path),
        is_hidden: spec_is_hidden_file(path),
    }
}

/// Position of the first node from `k` on whose path does not sort before
/// `path`: where a folder with that path stands or is to stand.
pub open spec fn first_not_below(tree: Seq<TreeNodeView>, path: Seq<char>, k: int) -> int
    decreases tree.len() - k,
{
    if k < 0 || k >= tree.len() || !text_less(tree[k].path, path) {
        k
    } else {
        first_not_below(tree, path, k + 1)
    }
}

/// Position of the first node from `k` on whose path sorts behind `path`:
/// where a file with that path is to stand, behind all nodes of the same
/// path.
pub open spec fn first_above(tree: Seq<TreeNodeView>, path: Seq<char>, k: int) -> int
    decreases tree.len() - k,
{
    if k < 0 || k >= tree.len() || text_less(path, tree[k].path) {
        k
    } else {
        first_above(tree, path, k + 1)
    }
}

/// The tree after the lines of a file were credited to the folder `path`:
/// the folder's node gains them, and is put in at its place in path order
/// where the tree had none.
pub open spec fn credit_folder(
    tree: Seq<TreeNodeView>,
    path: Seq<char>,
    added: nat,
    removed: nat,
    states: Map<Seq<char>, bool>,
) -> Seq<TreeNodeView> {
    let k = first_not_below(tree, path, 0);
    if k < tree.len() && tree[k].is_folder && tree[k].path == path {
        tree.update(
            k,
            TreeNodeView {
                added: tree[k].added + added,
                removed: tree[k].removed + removed,
                ..tree[k]
            },
        )
    } else {
        tree.insert(k, folder_node(path, added, removed, states))
    }
}

/// The tree after the lines of file `f` were credited to its folders: one
/// for each `/` among the first `n` characters of its path, the folder's
/// path being what stands before that `/`.
pub open spec fn credit_folders(
    tree: Seq<TreeNodeView>,
    f: FileDiffView,
    n: int,
    states: Map<Seq<char>, bool>,
) -> Seq<TreeNodeView>
    decreases n,
{
    if n <= 0 || n > f.path.len() {
        tree
    } else {
        let before = credit_folders(tree, f, n - 1, states);
        if f.path[n - 1] == '/' {
            credit_folder(before, f.path.take(n - 1), f.added, f.removed, states)
        } else {
            before
        }
    }
}

/// The tree after file `i` of the diff set was added: its folders
/// credited, its own node behind every node that does not sort behind it.
pub open spec fn add_file(
    tree: Seq<TreeNodeView>,
    f: FileDiffView,
    i: int,
    states: Map<Seq<char>, bool>,
) -> Seq<TreeNodeView> {
    let credited = credit_folders(tree, f, f.path.len() as int, states);
    credited.insert(first_above(credited, f.path, 0), file_node(f, i))
}

/// The tree of the first `n` files.
pub open spec fn tree_upto(files: Seq<FileDiffView>, n: int, states: Map<Seq<char>, bool>) -> Seq<
    TreeNodeView,
>
    decreases n,
{
    if n <= 0 || n > files.len() {
        Seq::empty()
    } else {
        add_file(tree_upto(files, n - 1, states), files[n - 1], n - 1, states)
    }
}

/// The file tree of a diff set: a node for every file and for every folder
/// above a file, in path order, a folder before the files of the same path
/// and files of the same path in the order of the diff set. A folder's
/// totals are the sums over the files below it.
pub open spec fn spec_file_tree(files: Seq<FileDiffView>, states: Map<Seq<char>, bool>) -> Seq<
    TreeNodeView,
> {
    tree_upto(files, files.len() as int, states)
}

/// No node has more lines than `added` and `removed`.
pub open spec fn totals_within(tree: Seq<TreeNodeView>, added: int, removed: int) -> bool {
    forall|k: int|
        0 <= k < tree.len() ==> (#[trigger] tree[k]).added <= added && tree[k].removed <= removed
}

/// No node whose path has `len` characters or more has more lines than
/// `added` and `removed`.
pub open spec fn long_paths_within(
    tree: Seq<TreeNodeView>,
    len: int,
    added: int,
    removed: int,
) -> bool {
    forall|k: int|
        0 <= k < tree.len() && (#[trigger] tree[k]).path.len() >= len ==> tree[k].added <= added
            && tree[k].removed <= removed
}

/// The characters of a node's path.
fn node_path_chars(tree: &Vec<TreeNode>, k: usize) -> (chars: Vec<char>)
    requires
        k < tree@.len(),
    ensures
        chars@ == tree_view(tree@)[k as int].path,
{
    chars_of(tree[k].path.as_str())
}

/// Position of the first node whose path does not sort before `path`.
fn lower_position(tree: &Vec<TreeNode>, path: &[char]) -> (k: usize)
    ensures
        k == first_not_below(tree_view(tree@), path@, 0),
        k <= tree@.len(),
{
    let ghost nodes = tree_view(tree@);
    let mut k: usize = 0;
    while k < tree.len()
        invariant
            k <= tree@.len(),
            nodes == tree_view(tree@),
            first_not_below(nodes, path@, k as int) == first_not_below(nodes, path@, 0),
        decreases tree@.len() - k,
    {
        let chars = node_path_chars(tree, k);
        if !chars_less(chars.as_slice(), path) {
            return k;
        }
        k += 1;
    }
    k
}

/// Position of the first node whose path sorts behind `path`.
fn upper_position(tree: &Vec<TreeNode>, path: &[char]) -> (k: usize)
    ensures
        k == first_above(tree_view(tree@), path@, 0),
        k <= tree@.len(),
{
    let ghost nodes = tree_view(tree@);
    let mut k: usize = 0;
    while k < tree.len()
        invariant
            k <= tree@.len(),
            nodes == tree_view(tree@),
            first_above(nodes, path@, k as int) == first_above(nodes, path@, 0),
        decreases tree@.len() - k,
    {
        let chars = node_path_chars(tree, k);
        if chars_less(path, chars.as_slice()) {
            return k;
        }
        k += 1;
    }
    k
}

/// Credits the lines of a file to the folder whose path is the first
/// `len` characters of the file's path.
fn credit_folder_node(
    tree: &mut Vec<TreeNode>,
    file_path: &str,
    file_chars: &Vec<char>,
    len: usize,
    added: usize,
    removed: usize,
    states: &CollapseMap,
    Ghost(max_added): Ghost<nat>,
    Ghost(max_removed): Ghost<nat>,
)
    requires
        file_chars@ == file_path@,
        len <= file_chars@.len(),
        max_added + added <= usize::MAX,
        max_removed + removed <= usize::MAX,
        totals_within(tree_view(old(tree)@), max_added + added, max_removed + removed),
        long_paths_within(tree_view(old(tree)@), len as int, max_added as int, max_removed as int),
    ensures
        tree_view(final(tree)@) == credit_folder(
            tree_view(old(tree)@),
            file_path@.take(len as int),
            added as nat,
            removed as nat,
            states@,
        ),
        totals_within(tree_view(final(tree)@), max_added + added, max_removed + removed),
        long_paths_within(
            tree_view(final(tree)@),
            len as int + 1,
            max_added as int,
            max_removed as int,
        ),
{
    let ghost before = tree_view(tree@);
    let ghost path = file_path@.take(len as int);
    let folder = substring(file_path, 0, len);
    let folder_chars = chars_of(folder.as_str());
    assert(folder_chars@ =~= path);
    let k = lower_position(tree, folder_chars.as_slice());
    let mut found = false;
    if k < tree.len() && tree[k].is_folder {
        let chars = node_path_chars(tree, k);
        found = chars_equal(chars.as_slice(), folder_chars.as_slice());
    }
    if found {
        let node = tree.remove(k);
        let credited = TreeNode {
            name: node.name,
            path: node.path,
            is_folder: node.is_folder,
            depth: node.depth,
            added: node.added + added,
            removed: node.removed + removed,
            diff_index: node.diff_index,
            expanded: node.expanded,
            is_hidden: node.is_hidden,
        };
        tree.insert(k, credited);
        assert(tree_view(tree@) =~= credit_folder(
            before,
            path,
            added as nat,
            removed as nat,
            states@,
        ));
    } else {
        let start = base_start_of(folder_chars.as_slice());
        let name = substring(folder.as_str(), start, folder_chars.len());
        assert(name@ =~= basename(path));
        let node = TreeNode {
            name,
            depth: count_slashes(folder_chars.as_slice()),
            is_folder: true,
            added,
            removed,
            diff_index: None,
            expanded: states.expanded(folder.as_str()),
            is_hidden: is_hidden_file(folder.as_str()),
            path: folder,
        };
        let ghost at_insert = tree@;
        tree.insert(k, node);
        assert(tree_view(tree@) =~= tree_view(at_insert).insert(k as int, node@));
    }
}

/// Builds the file tree of a diff set. Folders are open unless the
/// collapse map says otherwise.
///
/// The tree stands in path order with a folder before every other node of
/// its path. It has a folder for every path above a file and no other
/// folder, each with the lines of the files below it, and a node for every
/// file and no other node.
pub fn build_file_tree(diffs: &[FileDiff], expanded_folders: &CollapseMap) -> (tree: Vec<TreeNode>)
    requires
        total_added(files_view(diffs@), diffs@.len() as int) <= usize::MAX,
        total_removed(files_view(diffs@), diffs@.len() as int) <= usize::MAX,
    ensures
        tree_view(tree@) == spec_file_tree(files_view(diffs@), expanded_folders@),
        sorted(tree_view(tree@)),
        folders_first(tree_view(tree@)),
        folders_complete(tree_view(tree@), files_view(diffs@), diffs@.len() as int, expanded_folders@),
        files_mean(tree_view(tree@), files_view(diffs@), diffs@.len() as int),
        holds_files(tree_view(tree@), files_view(diffs@), diffs@.len() as int),
{
    let ghost files = files_view(diffs@);
    let ghost states = expanded_folders@;
    let mut tree: Vec<TreeNode> = Vec::new();
    let mut i: usize = 0;
    assert(tree_view(tree@) =~= tree_upto(files, 0, states));
    while i < diffs.len()
        invariant
            i <= diffs@.len(),
            files == files_view(diffs@),
            states == expanded_folders@,
            total_added(files, diffs@.len() as int) <= usize::MAX,
            total_removed(files, diffs@.len() as int) <= usize::MAX,
            tree_view(tree@) == tree_upto(files, i as int, states),
            totals_within(
                tree_view(tree@),
                total_added(files, i as int) as int,
                total_removed(files, i as int) as int,
            ),
        decreases diffs@.len() - i,
    {
        let diff = &diffs[i];
        let ghost f = files[i as int];
        let ghost start = tree_view(tree@);
        let ghost max_added = total_added(files, i as int);
        let ghost max_removed = total_removed(files, i as int);
        proof {
            lemma_total_added_monotonic(files, i as int + 1, diffs@.len() as int);
            lemma_total_removed_monotonic(files, i as int + 1, diffs@.len() as int);
        }
        let path = diff.path.as_str();
        let chars = chars_of(path);
        let mut n: usize = 0;
        while n < chars.len()
            invariant
                n <= chars@.len(),
                chars@ == path@,
                path@ == f.path,
                f.added == diff.added,
                f.removed == diff.removed,
                states == expanded_folders@,
                max_added + diff.added <= usize::MAX,
                max_removed + diff.removed <= usize::MAX,
                tree_view(tree@) == credit_folders(start, f, n as int, states),
                totals_within(tree_view(tree@), max_added + diff.added, max_removed + diff.removed),
                long_paths_within(tree_view(tree@), n as int, max_added as int, max_removed as int),
            decreases chars@.len() - n,
        {
            if chars[n] == '/' {
                credit_folder_node(
                    &mut tree,
                    path,
                    &chars,
                    n,
                    diff.added,
                    diff.removed,
                    expanded_folders,
                    Ghost(max_added),
                    Ghost(max_removed),
                );
            }
            n += 1;
        }
        let k = upper_position(&tree, chars.as_slice());
        let start_of_name = base_start_of(chars.as_slice());
        let name = substring(path, start_of_name, chars.len());
        assert(name@ =~= basename(path@));
        let node = TreeNode {
            name,
            path: diff.path.clone(),
            is_folder: false,
            depth: count_slashes(chars.as_slice()),
            added: diff.added,
            removed: diff.removed,
            diff_index: Some(i),
            expanded: false,
            is_hidden: is_hidden_file(path),
        };
        let ghost at_insert = tree@;
        tree.insert(k, node);
        assert(tree_view(tree@) =~= tree_view(at_insert).insert(k as int, node@));
        i += 1;
    }
    proof {
        lemma_tree_order(files, files.len() as int, states);
        lemma_tree_means(files, files.len() as int, states);
    }
    tree
}

/// `path` lies below the folder `folder`: it is the folder's path, a `/`
/// and something more.
pub open spec fn strictly_under(path: Seq<char>, folder: Seq<char>) -> bool {
    &&& path.len() > folder.len() + 1
    &&& path.take(folder.len() as int) == folder
    &&& path[folder.len() as int] == '/'
}

/// `node` is a closed folder above `path`.
pub open spec fn closes(node: TreeNodeView, path: Seq<char>) -> bool {
    node.is_folder && !node.expanded && strictly_under(path, node.path)
}

/// Node `i` is hidden: a closed folder above it stands earlier in the
/// list.
pub open spec fn hidden_at(nodes: Seq<TreeNodeView>, i: int) -> bool {
    exists|j: int| 0 <= j < i && closes(#[trigger] nodes[j], nodes[i].path)
}

/// Positions of the nodes among the first `n` that are not hidden, in
/// order.
pub open spec fn visible_upto(nodes: Seq<TreeNodeView>, n: int) -> Seq<int>
    decreases n,
{
    if n <= 0 || n > nodes.len() {
        Seq::empty()
    } else if hidden_at(nodes, n - 1) {
        visible_upto(nodes, n - 1)
    } else {
        visible_upto(nodes, n - 1).push(n - 1)
    }
}

/// Positions of the nodes that are shown, in order.
pub open spec fn spec_visible_indices(nodes: Seq<TreeNodeView>) -> Seq<int> {
    visible_upto(nodes, nodes.len() as int)
}

/// The nodes that are shown, in order: every node but those below a
/// closed folder. A closed folder itself is shown.
pub open spec fn spec_flatten(nodes: Seq<TreeNodeView>) -> Seq<TreeNodeView> {
    spec_visible_indices(nodes).map_values(|i: int| nodes[i])
}

/// Positions as integers.
pub open spec fn positions_view(positions: Seq<usize>) -> Seq<int> {
    positions.map_values(|i: usize| i as int)
}

/// The views of a list of borrowed nodes.
pub open spec fn node_refs_view(nodes: Seq<&TreeNode>) -> Seq<TreeNodeView> {
    nodes.map_values(|n: &TreeNode| n@)
}

/// Whether `path` lies below the folder `folder`.
fn is_strictly_under(path: &[char], folder: &[char]) -> (under: bool)
    ensures
        under == strictly_under(path@, folder@),
{
    let len = folder.len();
    if path.len() <= len || path.len() - len <= 1 {
        return false;
    }
    if path[len] != '/' {
        return false;
    }
    let mut i: usize = 0;
    while i < len
        invariant
            i <= len,
            len == folder@.len(),
            len < path@.len(),
            forall|k: int| 0 <= k < i ==> path@[k] == folder@[k],
        decreases len - i,
    {
        if path[i] != folder[i] {
            assert(path@.take(len as int)[i as int] != folder@[i as int]);
            return false;
        }
        i += 1;
    }
    assert(path@.take(len as int) =~= folder@);
    true
}

/// Whether `path` lies below one of the folders `closed`.
fn under_any(path: &[char], closed: &Vec<Vec<char>>) -> (found: bool)
    ensures
        found == exists|t: int| 0 <= t < closed@.len() && strictly_under(path@, #[trigger] closed@[t]@),
{
    let mut t: usize = 0;
    while t < closed.len()
        invariant
            t <= closed@.len(),
            forall|u: int| 0 <= u < t ==> !strictly_under(path@, #[trigger] closed@[u]@),
        decreases closed@.len() - t,
    {
        if is_strictly_under(path, closed[t].as_slice()) {
            return true;
        }
        t += 1;
    }
    false
}

/// Positions of the nodes that are shown, in order.
pub fn visible_nodes(nodes: &[TreeNode]) -> (positions: Vec<usize>)
    ensures
        positions_view(positions@) == spec_visible_indices(tree_view(nodes@)),
        forall|k: int| 0 <= k < positions@.len() ==> (#[trigger] positions@[k]) < nodes@.len(),
{
    let ghost views = tree_view(nodes@);
    let mut positions: Vec<usize> = Vec::new();
    let mut closed: Vec<Vec<char>> = Vec::new();
    let ghost mut closed_at: Seq<int> = Seq::empty();
    let mut i: usize = 0;
    assert(positions_view(positions@) =~= visible_upto(views, 0));
    while i < nodes.len()
        invariant
            i <= nodes@.len(),
            views == tree_view(nodes@),
            positions_view(positions@) == visible_upto(views, i as int),
            forall|k: int| 0 <= k < positions@.len() ==> (#[trigger] positions@[k]) < nodes@.len(),
            closed_at.len() == closed@.len(),
            forall|t: int|
                0 <= t < closed@.len() ==> {
                    &&& 0 <= #[trigger] closed_at[t] < i
                    &&& views[closed_at[t]].is_folder
                    &&& !views[closed_at[t]].expanded
                    &&& closed@[t]@ == views[closed_at[t]].path
                },
            forall|j: int|
                0 <= j < i && (#[trigger] views[j]).is_folder && !views[j].expanded ==> exists|t: int|
                    0 <= t < closed@.len() && #[trigger] closed_at[t] == j,
        decreases nodes@.len() - i,
    {
        let chars = chars_of(nodes[i].path.as_str());
        let hidden = under_any(chars.as_slice(), &closed);
        proof {
            if hidden {
                let t = choose|t: int|
                    0 <= t < closed@.len() && strictly_under(chars@, #[trigger] closed@[t]@);
                assert(closes(views[closed_at[t]], views[i as int].path));
            } else {
                assert forall|j: int| 0 <= j < i implies !closes(
                    #[trigger] views[j],
                    views[i as int].path,
                ) by {
                    if views[j].is_folder && !views[j].expanded {
                        let t = choose|t: int| 0 <= t < closed@.len() && #[trigger] closed_at[t] == j;
                        assert(!strictly_under(chars@, closed@[t]@));
                    }
                }
            }
            assert(hidden == hidden_at(views, i as int));
        }
        if !hidden {
            let ghost so_far = positions@;
            positions.push(i);
            assert(positions_view(positions@) =~= positions_view(so_far).push(i as int));
        }
        if nodes[i].is_folder && !nodes[i].expanded {
            let ghost old_closed = closed@;
            let ghost old_at = closed_at;
            closed.push(chars);
            proof {
                closed_at = closed_at.push(i as int);
                assert forall|j: int|
                    0 <= j < i + 1 && (#[trigger] views[j]).is_folder
                        && !views[j].expanded implies exists|t: int|
                    0 <= t < closed@.len() && #[trigger] closed_at[t] == j by {
                    if j < i {
                        let t = choose|t: int| 0 <= t < old_closed.len() && #[trigger] old_at[t] == j;
                        assert(closed_at[t] == j);
                    } else {
                        assert(closed_at[old_closed.len() as int] == j);
                    }
                }
            }
        }
        i += 1;
    }
    positions
}

/// The nodes that are shown, in order: every node but those below a closed
/// folder.
pub fn flatten_tree<'a>(nodes: &'a [TreeNode]) -> (flat: Vec<&'a TreeNode>)
    ensures
        node_refs_view(flat@) == spec_flatten(tree_view(nodes@)),
        flat@.len() == spec_visible_indices(tree_view(nodes@)).len(),
        forall|k: int|
            0 <= k < flat@.len() ==> *(#[trigger] flat@[k]) == nodes@[spec_visible_indices(
                tree_view(nodes@),
            )[k]],
{
    let ghost views = tree_view(nodes@);
    let positions = visible_nodes(nodes);
    let ghost visible = spec_visible_indices(views);
    let mut flat: Vec<&'a TreeNode> = Vec::new();
    let mut k: usize = 0;
    assert(positions_view(positions@).len() == positions@.len());
    while k < positions.len()
        invariant
            k <= positions@.len(),
            views == tree_view(nodes@),
            visible == spec_visible_indices(views),
            positions_view(positions@) == visible,
            visible.len() == positions@.len(),
            forall|q: int| 0 <= q < positions@.len() ==> (#[trigger] positions@[q]) < nodes@.len(),
            flat@.len() == k,
            forall|q: int| 0 <= q < k ==> *(#[trigger] flat@[q]) == nodes@[visible[q]],
        decreases positions@.len() - k,
    {
        let i = positions[k];
        assert(positions_view(positions@)[k as int] == i as int);
        flat.push(&nodes[i]);
        k += 1;
    }
    assert(node_refs_view(flat@) =~= spec_flatten(views));
    flat
}

/// Positions of shown nodes lie among the first `n`, ascend, and are the
/// positions of the nodes that are not hidden.
pub proof fn lemma_visible_upto(nodes: Seq<TreeNodeView>, n: int)
    requires
        0 <= n <= nodes.len(),
    ensures
        forall|k: int|
            0 <= k < visible_upto(nodes, n).len() ==> 0 <= #[trigger] visible_upto(nodes, n)[k]
                < n && !hidden_at(nodes, visible_upto(nodes, n)[k]),
        forall|a: int, b: int|
            0 <= a < b < visible_upto(nodes, n).len() ==> #[trigger] visible_upto(nodes, n)[a]
                < #[trigger] visible_upto(nodes, n)[b],
        forall|i: int|
            0 <= i < n && !hidden_at(nodes, i) ==> exists|k: int|
                0 <= k < visible_upto(nodes, n).len() && #[trigger] visible_upto(nodes, n)[k] == i,
        visible_upto(nodes, n).len() <= n,
    decreases n,
{
    if n > 0 {
        lemma_visible_upto(nodes, n - 1);
        let before = visible_upto(nodes, n - 1);
        let now = visible_upto(nodes, n);
        assert forall|i: int| 0 <= i < n && !hidden_at(nodes, i) implies exists|k: int|
            0 <= k < now.len() && #[trigger] now[k] == i by {
            if i < n - 1 {
                let k = choose|k: int| 0 <= k < before.len() && #[trigger] before[k] == i;
                assert(now[k] == i);
            } else {
                assert(now[now.len() - 1] == i);
            }
        }
    }
}

/// Where no node is hidden, every position is shown.
proof fn lemma_all_visible(nodes: Seq<TreeNodeView>, n: int)
    requires
        0 <= n <= nodes.len(),
        forall|i: int| 0 <= i < nodes.len() ==> !hidden_at(nodes, i),
    ensures
        visible_upto(nodes, n) == Seq::new(n as nat, |i: int| i),
    decreases n,
{
    if n > 0 {
        lemma_all_visible(nodes, n - 1);
        assert(visible_upto(nodes, n) =~= Seq::new(n as nat, |i: int| i));
    } else {
        assert(visible_upto(nodes, n) =~= Seq::new(n as nat, |i: int| i));
    }
}

/// Flattening what was flattened changes nothing: no shown node lies below
/// a closed folder that is shown before it.
pub proof fn lemma_flatten_idempotent(nodes: Seq<TreeNodeView>)
    ensures
        spec_flatten(spec_flatten(nodes)) == spec_flatten(nodes),
{
    let visible = spec_visible_indices(nodes);
    let flat = spec_flatten(nodes);
    lemma_visible_upto(nodes, nodes.len() as int);
    assert forall|b: int| 0 <= b < flat.len() implies !hidden_at(flat, b) by {
        if hidden_at(flat, b) {
            let a = choose|a: int| 0 <= a < b && closes(#[trigger] flat[a], flat[b].path);
            assert(visible[a] < visible[b]);
            assert(closes(nodes[visible[a]], nodes[visible[b]].path));
            assert(hidden_at(nodes, visible[b]));
        }
    }
    lemma_all_visible(flat, flat.len() as int);
    assert(spec_flatten(flat) =~= flat);
}

/// Two diff sets have the same paths and the same totals, file by file.
pub open spec fn same_shape(a: Seq<FileDiffView>, b: Seq<FileDiffView>) -> bool {
    &&& a.len() == b.len()
    &&& forall|i: int|
        0 <= i < a.len() ==> (#[trigger] a[i]).path == b[i].path && a[i].added == b[i].added
            && a[i].removed == b[i].removed
}

/// Crediting the folders of a file uses its path and its totals alone.
proof fn lemma_credit_folders_same_shape(
    tree: Seq<TreeNodeView>,
    f: FileDiffView,
    g: FileDiffView,
    n: int,
    states: Map<Seq<char>, bool>,
)
    requires
        f.path == g.path,
        f.added == g.added,
        f.removed == g.removed,
    ensures
        credit_folders(tree, f, n, states) == credit_folders(tree, g, n, states),
    decreases n,
{
    if n > 0 && n <= f.path.len() {
        lemma_credit_folders_same_shape(tree, f, g, n - 1, states);
    }
}

/// The tree is made of paths and totals alone: diff sets of the same shape
/// have the same tree.
pub proof fn lemma_tree_same_shape(
    a: Seq<FileDiffView>,
    b: Seq<FileDiffView>,
    n: int,
    states: Map<Seq<char>, bool>,
)
    requires
        same_shape(a, b),
        0 <= n <= a.len(),
    ensures
        tree_upto(a, n, states) == tree_upto(b, n, states),
    decreases n,
{
    if n > 0 {
        lemma_tree_same_shape(a, b, n - 1, states);
        lemma_credit_folders_same_shape(
            tree_upto(a, n - 1, states),
            a[n - 1],
            b[n - 1],
            a[n - 1].path.len() as int,
            states,
        );
    }
}

} // verus!
