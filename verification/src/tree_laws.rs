//! Laws of the file tree: its order, the place of folders in it, and what
//! the collapse map does to it.

use vstd::prelude::*;
use crate::diff::FileDiffView;
use crate::file_tree::{
    TreeNodeView, add_file, credit_folder, credit_folders, file_node, first_above,
    first_not_below, folder_node, spec_file_tree, tree_upto,
};
use crate::path_map::{is_expanded, spec_toggle};
use crate::text::{less_from, text_less};

verus! {

/// No text sorts before itself.
pub proof fn lemma_less_irreflexive(a: Seq<char>, i: int)
    requires
        0 <= i,
    ensures
        !less_from(a, a, i),
    decreases a.len() - i,
{
    if i < a.len() {
        lemma_less_irreflexive(a, i + 1);
    }
}

/// Of two texts that agree before `i` and sort one before the other, the
/// second does not sort before the first.
pub proof fn lemma_less_asymmetric(a: Seq<char>, b: Seq<char>, i: int)
    requires
        0 <= i,
        less_from(a, b, i),
    ensures
        !less_from(b, a, i),
    decreases a.len() - i,
{
    if i < a.len() && i < b.len() && a[i] == b[i] {
        lemma_less_asymmetric(a, b, i + 1);
    }
}

/// The order of texts is transitive.
pub proof fn lemma_less_transitive(a: Seq<char>, b: Seq<char>, c: Seq<char>, i: int)
    requires
        0 <= i,
        less_from(a, b, i),
        less_from(b, c, i),
    ensures
        less_from(a, c, i),
    decreases a.len() - i,
{
    if i < a.len() && i < b.len() && i < c.len() && a[i] == b[i] && b[i] == c[i] {
        lemma_less_transitive(a, b, c, i + 1);
    }
}

/// Two texts that agree before `i` are the same, or one sorts before the
/// other.
pub proof fn lemma_less_total(a: Seq<char>, b: Seq<char>, i: int)
    requires
        0 <= i <= a.len(),
        i <= b.len(),
        a.take(i) == b.take(i),
    ensures
        a == b || less_from(a, b, i) || less_from(b, a, i),
    decreases a.len() - i,
{
    if i < a.len() && i < b.len() {
        if a[i] == b[i] {
            assert(a.take(i + 1) =~= a.take(i).push(a[i]));
            assert(b.take(i + 1) =~= b.take(i).push(b[i]));
            lemma_less_total(a, b, i + 1);
        }
    } else if i == a.len() && i == b.len() {
        assert(a =~= a.take(i));
        assert(b =~= b.take(i));
    }
}

/// What does not sort before a text that does not sort before a third
/// does not sort before the third.
pub proof fn lemma_not_less_transitive(a: Seq<char>, b: Seq<char>, c: Seq<char>)
    requires
        !text_less(b, a),
        !text_less(c, b),
    ensures
        !text_less(c, a),
{
    if text_less(c, a) {
        assert(a.take(0) =~= b.take(0));
        assert(b.take(0) =~= c.take(0));
        lemma_less_total(a, b, 0);
        lemma_less_total(b, c, 0);
        if a == b {
        } else if b == c {
        } else {
            lemma_less_transitive(c, a, b, 0);
        }
    }
}

/// The nodes stand in path order.
pub open spec fn sorted(tree: Seq<TreeNodeView>) -> bool {
    forall|i: int, j: int|
        0 <= i < j < tree.len() ==> !text_less((#[trigger] tree[j]).path, (#[trigger] tree[i]).path)
}

/// A folder stands before every other node of the same path: no folder
/// follows a node of its own path.
pub open spec fn folders_first(tree: Seq<TreeNodeView>) -> bool {
    forall|i: int, j: int|
        0 <= i < j < tree.len() && (#[trigger] tree[i]).path == (#[trigger] tree[j]).path
            ==> !tree[j].is_folder
}

/// The node at `first_not_below` is the first whose path does not sort
/// before `path`.
pub proof fn lemma_first_not_below(tree: Seq<TreeNodeView>, path: Seq<char>, k: int)
    requires
        0 <= k <= tree.len(),
    ensures
        k <= first_not_below(tree, path, k) <= tree.len(),
        forall|i: int| k <= i < first_not_below(tree, path, k) ==> text_less((#[trigger] tree[i]).path, path),
        first_not_below(tree, path, k) < tree.len() ==> !text_less(
            tree[first_not_below(tree, path, k)].path,
            path,
        ),
    decreases tree.len() - k,
{
    if k < tree.len() && text_less(tree[k].path, path) {
        lemma_first_not_below(tree, path, k + 1);
    }
}

/// The node at `first_above` is the first whose path sorts behind `path`.
pub proof fn lemma_first_above(tree: Seq<TreeNodeView>, path: Seq<char>, k: int)
    requires
        0 <= k <= tree.len(),
    ensures
        k <= first_above(tree, path, k) <= tree.len(),
        forall|i: int| k <= i < first_above(tree, path, k) ==> !text_less(path, (#[trigger] tree[i]).path),
        first_above(tree, path, k) < tree.len() ==> text_less(
            path,
            tree[first_above(tree, path, k)].path,
        ),
    decreases tree.len() - k,
{
    if k < tree.len() && !text_less(path, tree[k].path) {
        lemma_first_above(tree, path, k + 1);
    }
}

/// Crediting a folder keeps the order of the tree and the place of its
/// folders.
pub proof fn lemma_credit_folder_keeps_order(
    tree: Seq<TreeNodeView>,
    path: Seq<char>,
    added: nat,
    removed: nat,
    states: Map<Seq<char>, bool>,
)
    requires
        sorted(tree),
        folders_first(tree),
    ensures
        sorted(credit_folder(tree, path, added, removed, states)),
        folders_first(credit_folder(tree, path, added, removed, states)),
{
    let k = first_not_below(tree, path, 0);
    let after = credit_folder(tree, path, added, removed, states);
    lemma_first_not_below(tree, path, 0);
    if k < tree.len() && tree[k].is_folder && tree[k].path == path {
        assert forall|i: int, j: int| 0 <= i < j < after.len() implies !text_less(
            (#[trigger] after[j]).path,
            (#[trigger] after[i]).path,
        ) by {
            assert(after[i].path == tree[i].path);
            assert(after[j].path == tree[j].path);
        }
        assert forall|i: int, j: int|
            0 <= i < j < after.len() && (#[trigger] after[i]).path == (
            #[trigger] after[j]).path implies !after[j].is_folder by {
            assert(after[i].path == tree[i].path);
            assert(after[j].path == tree[j].path);
            assert(after[j].is_folder == tree[j].is_folder);
        }
    } else {
        assert forall|j: int| k <= j < tree.len() implies !text_less(
            (#[trigger] tree[j]).path,
            path,
        ) by {
            if j > k {
                assert(!text_less(tree[j].path, tree[k].path));
                lemma_not_less_transitive(path, tree[k].path, tree[j].path);
            }
        }
        assert forall|i: int, j: int| 0 <= i < j < after.len() implies !text_less(
            (#[trigger] after[j]).path,
            (#[trigger] after[i]).path,
        ) by {
            if j == k {
                assert(after[i] == tree[i]);
                lemma_less_asymmetric(tree[i].path, path, 0);
            } else if i == k {
                assert(after[j] == tree[j - 1]);
            } else {
                let oi = if i < k {
                    i
                } else {
                    i - 1
                };
                let oj = if j < k {
                    j
                } else {
                    j - 1
                };
                assert(after[i] == tree[oi]);
                assert(after[j] == tree[oj]);
            }
        }
        assert forall|i: int, j: int|
            0 <= i < j < after.len() && (#[trigger] after[i]).path == (
            #[trigger] after[j]).path implies !after[j].is_folder by {
            if j == k {
                assert(after[i] == tree[i]);
                lemma_less_irreflexive(path, 0);
            } else if i == k {
                assert(after[j] == tree[j - 1]);
                if tree[j - 1].is_folder {
                    if j - 1 == k {
                    } else {
                        assert(!text_less(tree[j - 1].path, tree[k].path));
                        assert(!text_less(tree[k].path, path));
                        assert(path.take(0) =~= tree[k].path.take(0));
                        lemma_less_total(path, tree[k].path, 0);
                        if path == tree[k].path {
                            assert(tree[k].path == tree[j - 1].path);
                        } else {
                            lemma_less_irreflexive(path, 0);
                        }
                    }
                }
            } else {
                let oi = if i < k {
                    i
                } else {
                    i - 1
                };
                let oj = if j < k {
                    j
                } else {
                    j - 1
                };
                assert(after[i] == tree[oi]);
                assert(after[j] == tree[oj]);
            }
        }
    }
}

/// Crediting the folders of a file keeps the order of the tree and the
/// place of its folders.
pub proof fn lemma_credit_folders_keeps_order(
    tree: Seq<TreeNodeView>,
    f: FileDiffView,
    n: int,
    states: Map<Seq<char>, bool>,
)
    requires
        sorted(tree),
        folders_first(tree),
    ensures
        sorted(credit_folders(tree, f, n, states)),
        folders_first(credit_folders(tree, f, n, states)),
    decreases n,
{
    if n > 0 && n <= f.path.len() {
        lemma_credit_folders_keeps_order(tree, f, n - 1, states);
        if f.path[n - 1] == '/' {
            lemma_credit_folder_keeps_order(
                credit_folders(tree, f, n - 1, states),
                f.path.take(n - 1),
                f.added,
                f.removed,
                states,
            );
        }
    }
}

/// Adding a file keeps the order of the tree and the place of its folders.
pub proof fn lemma_add_file_keeps_order(
    tree: Seq<TreeNodeView>,
    f: FileDiffView,
    i: int,
    states: Map<Seq<char>, bool>,
)
    requires
        sorted(tree),
        folders_first(tree),
    ensures
        sorted(add_file(tree, f, i, states)),
        folders_first(add_file(tree, f, i, states)),
{
    let credited = credit_folders(tree, f, f.path.len() as int, states);
    lemma_credit_folders_keeps_order(tree, f, f.path.len() as int, states);
    let k = first_above(credited, f.path, 0);
    lemma_first_above(credited, f.path, 0);
    let after = add_file(tree, f, i, states);
    assert forall|j: int| k <= j < credited.len() implies text_less(
        f.path,
        (#[trigger] credited[j]).path,
    ) by {
        if j > k {
            assert(!text_less(credited[j].path, credited[k].path));
            assert(f.path.take(0) =~= credited[j].path.take(0));
            lemma_less_total(f.path, credited[j].path, 0);
            if f.path == credited[j].path {
            } else if text_less(credited[j].path, f.path) {
                lemma_less_transitive(credited[j].path, f.path, credited[k].path, 0);
            }
        }
    }
    assert forall|a: int, b: int| 0 <= a < b < after.len() implies !text_less(
        (#[trigger] after[b]).path,
        (#[trigger] after[a]).path,
    ) by {
        if b == k {
            assert(after[a] == credited[a]);
        } else if a == k {
            assert(after[b] == credited[b - 1]);
            lemma_less_asymmetric(f.path, credited[b - 1].path, 0);
        } else {
            let oa = if a < k {
                a
            } else {
                a - 1
            };
            let ob = if b < k {
                b
            } else {
                b - 1
            };
            assert(after[a] == credited[oa]);
            assert(after[b] == credited[ob]);
        }
    }
    assert forall|a: int, b: int|
        0 <= a < b < after.len() && (#[trigger] after[a]).path == (
        #[trigger] after[b]).path implies !after[b].is_folder by {
        if b == k {
        } else if a == k {
            assert(after[b] == credited[b - 1]);
            lemma_less_irreflexive(f.path, 0);
        } else {
            let oa = if a < k {
                a
            } else {
                a - 1
            };
            let ob = if b < k {
                b
            } else {
                b - 1
            };
            assert(after[a] == credited[oa]);
            assert(after[b] == credited[ob]);
        }
    }
}

/// The file tree stands in path order, and a folder stands before every
/// other node of its path; so a path has at most one folder.
pub proof fn lemma_tree_order(files: Seq<FileDiffView>, n: int, states: Map<Seq<char>, bool>)
    requires
        0 <= n <= files.len(),
    ensures
        sorted(tree_upto(files, n, states)),
        folders_first(tree_upto(files, n, states)),
    decreases n,
{
    if n > 0 {
        lemma_tree_order(files, n - 1, states);
        lemma_add_file_keeps_order(tree_upto(files, n - 1, states), files[n - 1], n - 1, states);
    }
}

/// The node with its folder flag as the collapse map says.
pub open spec fn with_state(node: TreeNodeView, states: Map<Seq<char>, bool>) -> TreeNodeView {
    if node.is_folder {
        TreeNodeView { expanded: is_expanded(states, node.path), ..node }
    } else {
        node
    }
}

/// The tree with every folder open or closed as the collapse map says.
pub open spec fn with_states(tree: Seq<TreeNodeView>, states: Map<Seq<char>, bool>) -> Seq<
    TreeNodeView,
> {
    tree.map_values(|node: TreeNodeView| with_state(node, states))
}

/// Where a path stands in the tree does not depend on which folders are
/// open.
proof fn lemma_positions_ignore_states(
    tree: Seq<TreeNodeView>,
    states: Map<Seq<char>, bool>,
    path: Seq<char>,
    k: int,
)
    requires
        0 <= k,
    ensures
        first_not_below(with_states(tree, states), path, k) == first_not_below(tree, path, k),
        first_above(with_states(tree, states), path, k) == first_above(tree, path, k),
    decreases tree.len() - k,
{
    if k < tree.len() {
        lemma_positions_ignore_states(tree, states, path, k + 1);
    }
}

/// Crediting folders and setting the folder flags can be done in either
/// order.
proof fn lemma_credit_folders_with_states(
    tree: Seq<TreeNodeView>,
    f: FileDiffView,
    n: int,
    from: Map<Seq<char>, bool>,
    to: Map<Seq<char>, bool>,
)
    ensures
        credit_folders(with_states(tree, to), f, n, to) == with_states(
            credit_folders(tree, f, n, from),
            to,
        ),
    decreases n,
{
    if n > 0 && n <= f.path.len() {
        lemma_credit_folders_with_states(tree, f, n - 1, from, to);
        if f.path[n - 1] == '/' {
            let before = credit_folders(tree, f, n - 1, from);
            let path = f.path.take(n - 1);
            lemma_positions_ignore_states(before, to, path, 0);
            lemma_first_not_below(before, path, 0);
            assert(credit_folder(with_states(before, to), path, f.added, f.removed, to)
                =~= with_states(credit_folder(before, path, f.added, f.removed, from), to));
        }
    }
}

/// The tree under one collapse map is the tree under another with its
/// folders opened and closed as the first map says: the collapse map
/// decides the folder flags and nothing else.
pub proof fn lemma_tree_with_states(
    files: Seq<FileDiffView>,
    n: int,
    from: Map<Seq<char>, bool>,
    to: Map<Seq<char>, bool>,
)
    requires
        0 <= n <= files.len(),
    ensures
        tree_upto(files, n, to) == with_states(tree_upto(files, n, from), to),
    decreases n,
{
    if n > 0 {
        lemma_tree_with_states(files, n - 1, from, to);
        let f = files[n - 1];
        let before = tree_upto(files, n - 1, from);
        lemma_credit_folders_with_states(before, f, f.path.len() as int, from, to);
        let credited = credit_folders(before, f, f.path.len() as int, from);
        lemma_positions_ignore_states(credited, to, f.path, 0);
        lemma_first_above(credited, f.path, 0);
        assert(tree_upto(files, n, to) =~= with_states(tree_upto(files, n, from), to));
    } else {
        assert(tree_upto(files, n, to) =~= with_states(tree_upto(files, n, from), to));
    }
}

/// Collapse maps that say the same of every folder give the same tree.
pub proof fn lemma_tree_depends_on_expansion(
    files: Seq<FileDiffView>,
    a: Map<Seq<char>, bool>,
    b: Map<Seq<char>, bool>,
)
    requires
        forall|path: Seq<char>| is_expanded(a, path) == is_expanded(b, path),
    ensures
        spec_file_tree(files, a) == spec_file_tree(files, b),
{
    let n = files.len() as int;
    lemma_tree_with_states(files, n, a, b);
    lemma_tree_with_states(files, n, a, a);
    assert(with_states(tree_upto(files, n, a), b) =~= with_states(tree_upto(files, n, a), a));
}

/// Flipping a folder twice gives the tree back.
pub proof fn lemma_toggle_twice_restores_tree(
    files: Seq<FileDiffView>,
    states: Map<Seq<char>, bool>,
    path: Seq<char>,
)
    ensures
        spec_file_tree(files, spec_toggle(spec_toggle(states, path), path)) == spec_file_tree(
            files,
            states,
        ),
{
    lemma_tree_depends_on_expansion(files, spec_toggle(spec_toggle(states, path), path), states);
}

/// `folder` is a folder above the file `path`: what stands in `path` before
/// one of its `/`.
pub open spec fn is_folder_of(folder: Seq<char>, path: Seq<char>) -> bool {
    &&& folder.len() < path.len()
    &&& path[folder.len() as int] == '/'
    &&& path.take(folder.len() as int) == folder
}

/// `folder` is a folder above one of the first `n` files.
pub open spec fn is_folder_among(files: Seq<FileDiffView>, n: int, folder: Seq<char>) -> bool {
    exists|i: int| 0 <= i < n && is_folder_of(folder, (#[trigger] files[i]).path)
}

/// Lines added in the files below `folder` among the first `n` files.
pub open spec fn folder_added(files: Seq<FileDiffView>, n: int, folder: Seq<char>) -> nat
    decreases n,
{
    if n <= 0 || n > files.len() {
        0
    } else {
        folder_added(files, n - 1, folder) + if is_folder_of(folder, files[n - 1].path) {
            files[n - 1].added
        } else {
            0
        }
    }
}

/// Lines removed in the files below `folder` among the first `n` files.
pub open spec fn folder_removed(files: Seq<FileDiffView>, n: int, folder: Seq<char>) -> nat
    decreases n,
{
    if n <= 0 || n > files.len() {
        0
    } else {
        folder_removed(files, n - 1, folder) + if is_folder_of(folder, files[n - 1].path) {
            files[n - 1].removed
        } else {
            0
        }
    }
}

/// `node` is the folder with path `path`.
pub open spec fn is_folder_at(node: TreeNodeView, path: Seq<char>) -> bool {
    node.is_folder && node.path == path
}

/// The tree holds `node`.
pub open spec fn holds(tree: Seq<TreeNodeView>, node: TreeNodeView) -> bool {
    exists|k: int| 0 <= k < tree.len() && #[trigger] tree[k] == node
}

/// The tree holds the folder `path`.
pub open spec fn holds_folder(tree: Seq<TreeNodeView>, path: Seq<char>) -> bool {
    exists|k: int| 0 <= k < tree.len() && is_folder_at(#[trigger] tree[k], path)
}

/// In an ordered tree the folder of a path stands where `first_not_below`
/// finds the path.
proof fn lemma_folder_position(tree: Seq<TreeNodeView>, path: Seq<char>, j: int)
    requires
        sorted(tree),
        folders_first(tree),
        0 <= j < tree.len(),
        is_folder_at(tree[j], path),
    ensures
        first_not_below(tree, path, 0) == j,
{
    let k = first_not_below(tree, path, 0);
    lemma_first_not_below(tree, path, 0);
    lemma_less_irreflexive(path, 0);
    if j < k {
        assert(text_less(tree[j].path, path));
    } else if k < j {
        assert(!text_less(tree[j].path, tree[k].path));
        assert(path.take(0) =~= tree[k].path.take(0));
        lemma_less_total(path, tree[k].path, 0);
        assert(tree[k].path == path);
    }
}

/// What crediting a folder does: the folder of the path gains the lines,
/// or comes into the tree with them, and every other node stays.
proof fn lemma_credit_folder_effect(
    tree: Seq<TreeNodeView>,
    path: Seq<char>,
    added: nat,
    removed: nat,
    states: Map<Seq<char>, bool>,
)
    requires
        sorted(tree),
        folders_first(tree),
    ensures
        ({
            let after = credit_folder(tree, path, added, removed, states);
            &&& forall|k: int|
                0 <= k < after.len() && !is_folder_at(#[trigger] after[k], path) ==> holds(
                    tree,
                    after[k],
                )
            &&& forall|j: int|
                0 <= j < tree.len() && !is_folder_at(#[trigger] tree[j], path) ==> holds(
                    after,
                    tree[j],
                )
            &&& holds_folder(after, path)
            &&& forall|k: int|
                0 <= k < after.len() && is_folder_at(#[trigger] after[k], path) ==> if holds_folder(
                    tree,
                    path,
                ) {
                    exists|j: int|
                        0 <= j < tree.len() && is_folder_at(#[trigger] tree[j], path) && after[k] == (
                        TreeNodeView {
                            added: tree[j].added + added,
                            removed: tree[j].removed + removed,
                            ..tree[j]
                        })
                } else {
                    after[k] == folder_node(path, added, removed, states)
                }
        }),
{
    let k0 = first_not_below(tree, path, 0);
    let after = credit_folder(tree, path, added, removed, states);
    lemma_first_not_below(tree, path, 0);
    if holds_folder(tree, path) {
        let j = choose|j: int| 0 <= j < tree.len() && is_folder_at(#[trigger] tree[j], path);
        lemma_folder_position(tree, path, j);
        assert(after[k0] == (TreeNodeView {
            added: tree[k0].added + added,
            removed: tree[k0].removed + removed,
            ..tree[k0]
        }));
        assert(is_folder_at(after[k0], path));
        assert forall|k: int|
            0 <= k < after.len() && !is_folder_at(#[trigger] after[k], path) implies holds(
            tree,
            after[k],
        ) by {
            assert(tree[k] == after[k]);
        }
        assert forall|j2: int|
            0 <= j2 < tree.len() && !is_folder_at(#[trigger] tree[j2], path) implies holds(
            after,
            tree[j2],
        ) by {
            assert(after[j2] == tree[j2]);
        }
        assert forall|k: int|
            0 <= k < after.len() && is_folder_at(#[trigger] after[k], path) implies exists|j2: int|
            0 <= j2 < tree.len() && is_folder_at(#[trigger] tree[j2], path) && after[k] == (
            TreeNodeView {
                added: tree[j2].added + added,
                removed: tree[j2].removed + removed,
                ..tree[j2]
            }) by {
            if k != k0 {
                assert(after[k] == tree[k]);
                lemma_folder_position(tree, path, k);
            }
            assert(is_folder_at(tree[k0], path));
        }
    } else {
        if k0 < tree.len() && tree[k0].is_folder && tree[k0].path == path {
            assert(is_folder_at(tree[k0], path));
        }
        let node = folder_node(path, added, removed, states);
        assert(after == tree.insert(k0, node));
        assert(after[k0] == node);
        assert(is_folder_at(after[k0], path));
        assert forall|k: int|
            0 <= k < after.len() && !is_folder_at(#[trigger] after[k], path) implies holds(
            tree,
            after[k],
        ) by {
            let o = if k < k0 {
                k
            } else {
                k - 1
            };
            assert(tree[o] == after[k]);
        }
        assert forall|j2: int|
            0 <= j2 < tree.len() && !is_folder_at(#[trigger] tree[j2], path) implies holds(
            after,
            tree[j2],
        ) by {
            let o = if j2 < k0 {
                j2
            } else {
                j2 + 1
            };
            assert(after[o] == tree[j2]);
        }
        assert forall|k: int|
            0 <= k < after.len() && is_folder_at(#[trigger] after[k], path) implies after[k]
            == node by {
            if k != k0 {
                let o = if k < k0 {
                    k
                } else {
                    k - 1
                };
                assert(tree[o] == after[k]);
                assert(is_folder_at(tree[o], path));
            }
        }
    }
}

/// Lines that a folder has after the folders of file `f` (the file behind
/// the first `i`) were credited along the first `m` characters of its
/// path.
pub open spec fn credited_added(
    files: Seq<FileDiffView>,
    i: int,
    f: FileDiffView,
    m: int,
    folder: Seq<char>,
) -> nat {
    folder_added(files, i, folder) + if is_folder_of(folder, f.path) && folder.len() < m {
        f.added
    } else {
        0
    }
}

/// Lines removed that a folder has after the folders of file `f` were
/// credited along the first `m` characters of its path.
pub open spec fn credited_removed(
    files: Seq<FileDiffView>,
    i: int,
    f: FileDiffView,
    m: int,
    folder: Seq<char>,
) -> nat {
    folder_removed(files, i, folder) + if is_folder_of(folder, f.path) && folder.len() < m {
        f.removed
    } else {
        0
    }
}

/// `node` is the node of a folder with the given totals.
#[verifier::opaque]
pub open spec fn is_folder_with(
    node: TreeNodeView,
    added: nat,
    removed: nat,
    states: Map<Seq<char>, bool>,
) -> bool {
    node == folder_node(node.path, added, removed, states)
}

/// A new folder node is the node of its path with its totals.
proof fn lemma_new_folder(path: Seq<char>, added: nat, removed: nat, states: Map<Seq<char>, bool>)
    ensures
        is_folder_with(folder_node(path, added, removed, states), added, removed, states),
        folder_node(path, added, removed, states).path == path,
        folder_node(path, added, removed, states).is_folder,
{
    reveal(is_folder_with);
}

/// What `is_folder_with` says.
proof fn lemma_folder_is(
    node: TreeNodeView,
    added: nat,
    removed: nat,
    states: Map<Seq<char>, bool>,
)
    ensures
        is_folder_with(node, added, removed, states) == (node == folder_node(
            node.path,
            added,
            removed,
            states,
        )),
{
    reveal(is_folder_with);
}

/// A folder node that gains lines is the node of its path with the larger
/// totals.
proof fn lemma_folder_gains(
    node: TreeNodeView,
    added: nat,
    removed: nat,
    more_added: nat,
    more_removed: nat,
    states: Map<Seq<char>, bool>,
)
    requires
        is_folder_with(node, added, removed, states),
    ensures
        node.added == added,
        node.removed == removed,
        is_folder_with(
            TreeNodeView {
                added: node.added + more_added,
                removed: node.removed + more_removed,
                ..node
            },
            added + more_added,
            removed + more_removed,
            states,
        ),
{
    reveal(is_folder_with);
}

/// `folder` is a folder that has been credited: one above the first `i`
/// files, or one above `f` within the first `m` characters of its path.
pub open spec fn is_credited(
    files: Seq<FileDiffView>,
    i: int,
    f: FileDiffView,
    m: int,
    folder: Seq<char>,
) -> bool {
    is_folder_among(files, i, folder) || (is_folder_of(folder, f.path) && folder.len() < m)
}

/// Every folder of the tree has been credited and has its lines so far.
pub open spec fn folders_mean(
    tree: Seq<TreeNodeView>,
    files: Seq<FileDiffView>,
    i: int,
    f: FileDiffView,
    m: int,
    states: Map<Seq<char>, bool>,
) -> bool {
    forall|k: int|
        0 <= k < tree.len() && (#[trigger] tree[k]).is_folder ==> is_credited(
            files,
            i,
            f,
            m,
            tree[k].path,
        ) && is_folder_with(
            tree[k],
            credited_added(files, i, f, m, tree[k].path),
            credited_removed(files, i, f, m, tree[k].path),
            states,
        )
}

/// Every node of the tree that is no folder is the node of one of the
/// first `i` files.
pub open spec fn files_mean(tree: Seq<TreeNodeView>, files: Seq<FileDiffView>, i: int) -> bool {
    forall|k: int|
        0 <= k < tree.len() && !(#[trigger] tree[k]).is_folder ==> exists|j: int|
            0 <= j < i && tree[k] == #[trigger] file_node(files[j], j)
}

/// The tree holds the node of each of the first `i` files.
pub open spec fn holds_files(tree: Seq<TreeNodeView>, files: Seq<FileDiffView>, i: int) -> bool {
    forall|j: int| 0 <= j < i ==> holds(tree, #[trigger] file_node(files[j], j))
}

/// The tree holds every folder that has been credited.
pub open spec fn holds_credited(
    tree: Seq<TreeNodeView>,
    files: Seq<FileDiffView>,
    i: int,
    f: FileDiffView,
    m: int,
) -> bool {
    forall|folder: Seq<char>|
        #![trigger holds_folder(tree, folder)]
        is_credited(files, i, f, m, folder) ==> holds_folder(tree, folder)
}

/// A path that is above none of the first `n` files has no lines.
proof fn lemma_no_folder_has_no_lines(files: Seq<FileDiffView>, n: int, folder: Seq<char>)
    requires
        0 <= n <= files.len(),
        !is_folder_among(files, n, folder),
    ensures
        folder_added(files, n, folder) == 0,
        folder_removed(files, n, folder) == 0,
    decreases n,
{
    if n > 0 {
        assert(!is_folder_of(folder, files[n - 1].path));
        assert(!is_folder_among(files, n - 1, folder)) by {
            if is_folder_among(files, n - 1, folder) {
                let j = choose|j: int| 0 <= j < n - 1 && is_folder_of(folder, (#[trigger] files[j]).path);
                assert(0 <= j < n && is_folder_of(folder, files[j].path));
            }
        }
        lemma_no_folder_has_no_lines(files, n - 1, folder);
    }
}

/// The folder above `path` that ends before position `m - 1` is the only
/// one with `m - 1` characters.
proof fn lemma_folder_by_length(path: Seq<char>, m: int, folder: Seq<char>)
    requires
        0 < m <= path.len(),
        is_folder_of(folder, path),
        folder.len() == m - 1,
    ensures
        folder == path.take(m - 1),
        path[m - 1] == '/',
{
}

/// Crediting a folder of a file leaves every folder with its lines so far.
proof fn lemma_credit_keeps_folders_meaning(
    before: Seq<TreeNodeView>,
    files: Seq<FileDiffView>,
    i: int,
    m: int,
    states: Map<Seq<char>, bool>,
)
    requires
        0 <= i < files.len(),
        0 < m <= files[i].path.len(),
        files[i].path[m - 1] == '/',
        sorted(before),
        folders_first(before),
        folders_mean(before, files, i, files[i], m - 1, states),
        holds_credited(before, files, i, files[i], m - 1),
    ensures
        folders_mean(
            credit_folder(
                before,
                files[i].path.take(m - 1),
                files[i].added,
                files[i].removed,
                states,
            ),
            files,
            i,
            files[i],
            m,
            states,
        ),
{
    let f = files[i];
    let q0 = f.path.take(m - 1);
    let after = credit_folder(before, q0, f.added, f.removed, states);
    lemma_credit_folder_effect(before, q0, f.added, f.removed, states);
    assert(is_folder_of(q0, f.path));
    assert forall|k: int| 0 <= k < after.len() && (#[trigger] after[k]).is_folder implies is_credited(
        files,
        i,
        f,
        m,
        after[k].path,
    ) && is_folder_with(
        after[k],
        credited_added(files, i, f, m, after[k].path),
        credited_removed(files, i, f, m, after[k].path),
        states,
    ) by {
        let q = after[k].path;
        if is_folder_at(after[k], q0) {
            if holds_folder(before, q0) {
                let j = choose|j: int|
                    0 <= j < before.len() && is_folder_at(#[trigger] before[j], q0) && after[k] == (
                    TreeNodeView {
                        added: before[j].added + f.added,
                        removed: before[j].removed + f.removed,
                        ..before[j]
                    });
                assert(before[j].is_folder);
                lemma_folder_gains(
                    before[j],
                    credited_added(files, i, f, m - 1, q0),
                    credited_removed(files, i, f, m - 1, q0),
                    f.added,
                    f.removed,
                    states,
                );
            } else {
                assert(!is_credited(files, i, f, m - 1, q0));
                lemma_no_folder_has_no_lines(files, i, q0);
                lemma_new_folder(q0, f.added, f.removed, states);
            }
        } else {
            assert(holds(before, after[k]));
            let j = choose|j: int| 0 <= j < before.len() && #[trigger] before[j] == after[k];
            assert(before[j].is_folder);
            if is_folder_of(q, f.path) && q.len() == m - 1 {
                lemma_folder_by_length(f.path, m, q);
            }
        }
    }
}

/// Crediting a folder leaves the file nodes as they are.
proof fn lemma_credit_keeps_files(
    before: Seq<TreeNodeView>,
    files: Seq<FileDiffView>,
    i: int,
    path: Seq<char>,
    added: nat,
    removed: nat,
    states: Map<Seq<char>, bool>,
)
    requires
        sorted(before),
        folders_first(before),
        files_mean(before, files, i),
        holds_files(before, files, i),
    ensures
        files_mean(credit_folder(before, path, added, removed, states), files, i),
        holds_files(credit_folder(before, path, added, removed, states), files, i),
{
    let after = credit_folder(before, path, added, removed, states);
    lemma_credit_folder_effect(before, path, added, removed, states);
    assert forall|k: int|
        0 <= k < after.len() && !(#[trigger] after[k]).is_folder implies exists|j: int|
        0 <= j < i && after[k] == #[trigger] file_node(files[j], j) by {
        assert(holds(before, after[k]));
        let j = choose|j: int| 0 <= j < before.len() && #[trigger] before[j] == after[k];
        assert(!before[j].is_folder);
    }
    assert forall|j: int| 0 <= j < i implies holds(after, #[trigger] file_node(files[j], j)) by {
        assert(holds(before, file_node(files[j], j)));
        let k = choose|k: int|
            0 <= k < before.len() && #[trigger] before[k] == file_node(files[j], j);
        assert(!is_folder_at(before[k], path));
        assert(holds(after, before[k]));
    }
}

/// Crediting a folder of a file leaves the tree with every folder credited
/// so far.
proof fn lemma_credit_holds_credited(
    before: Seq<TreeNodeView>,
    files: Seq<FileDiffView>,
    i: int,
    m: int,
    states: Map<Seq<char>, bool>,
)
    requires
        0 <= i < files.len(),
        0 < m <= files[i].path.len(),
        files[i].path[m - 1] == '/',
        sorted(before),
        folders_first(before),
        holds_credited(before, files, i, files[i], m - 1),
    ensures
        holds_credited(
            credit_folder(
                before,
                files[i].path.take(m - 1),
                files[i].added,
                files[i].removed,
                states,
            ),
            files,
            i,
            files[i],
            m,
        ),
{
    let f = files[i];
    let q0 = f.path.take(m - 1);
    let after = credit_folder(before, q0, f.added, f.removed, states);
    lemma_credit_folder_effect(before, q0, f.added, f.removed, states);
    assert forall|folder: Seq<char>| is_credited(files, i, f, m, folder) implies #[trigger] holds_folder(
        after,
        folder,
    ) by {
        if folder != q0 {
            if is_folder_of(folder, f.path) && folder.len() == m - 1 {
                lemma_folder_by_length(f.path, m, folder);
            }
            assert(is_credited(files, i, f, m - 1, folder));
            assert(holds_folder(before, folder));
            let k = choose|k: int| 0 <= k < before.len() && is_folder_at(#[trigger] before[k], folder);
            assert(!is_folder_at(before[k], q0));
            assert(holds(after, before[k]));
            let k2 = choose|k2: int| 0 <= k2 < after.len() && #[trigger] after[k2] == before[k];
            assert(is_folder_at(after[k2], folder));
        }
    }
}

/// A character other than `/` credits no folder.
proof fn lemma_no_credit_at(files: Seq<FileDiffView>, i: int, m: int)
    requires
        0 <= i < files.len(),
        0 < m <= files[i].path.len(),
        files[i].path[m - 1] != '/',
    ensures
        forall|q: Seq<char>|
            #![trigger is_credited(files, i, files[i], m, q)]
            is_credited(files, i, files[i], m, q) == is_credited(files, i, files[i], m - 1, q),
        forall|q: Seq<char>|
            #![trigger credited_added(files, i, files[i], m, q)]
            credited_added(files, i, files[i], m, q) == credited_added(files, i, files[i], m - 1, q),
        forall|q: Seq<char>|
            #![trigger credited_removed(files, i, files[i], m, q)]
            credited_removed(files, i, files[i], m, q) == credited_removed(
                files,
                i,
                files[i],
                m - 1,
                q,
            ),
{
}

/// Crediting the folders of a file along its path keeps the meaning of the
/// tree.
proof fn lemma_credit_folders_means(
    tree: Seq<TreeNodeView>,
    files: Seq<FileDiffView>,
    i: int,
    m: int,
    states: Map<Seq<char>, bool>,
)
    requires
        0 <= i < files.len(),
        0 <= m <= files[i].path.len(),
        sorted(tree),
        folders_first(tree),
        folders_mean(tree, files, i, files[i], 0, states),
        files_mean(tree, files, i),
        holds_files(tree, files, i),
        holds_credited(tree, files, i, files[i], 0),
    ensures
        folders_mean(credit_folders(tree, files[i], m, states), files, i, files[i], m, states),
        files_mean(credit_folders(tree, files[i], m, states), files, i),
        holds_files(credit_folders(tree, files[i], m, states), files, i),
        holds_credited(credit_folders(tree, files[i], m, states), files, i, files[i], m),
        sorted(credit_folders(tree, files[i], m, states)),
        folders_first(credit_folders(tree, files[i], m, states)),
    decreases m,
{
    let f = files[i];
    lemma_credit_folders_keeps_order(tree, f, m, states);
    if m > 0 {
        lemma_credit_folders_means(tree, files, i, m - 1, states);
        let before = credit_folders(tree, f, m - 1, states);
        if f.path[m - 1] == '/' {
            lemma_credit_keeps_folders_meaning(before, files, i, m, states);
            lemma_credit_keeps_files(before, files, i, f.path.take(m - 1), f.added, f.removed, states);
            lemma_credit_holds_credited(before, files, i, m, states);
        } else {
            lemma_no_credit_at(files, i, m);
            assert(folders_mean(before, files, i, f, m, states)) by {
                assert forall|k: int|
                    0 <= k < before.len() && (#[trigger] before[k]).is_folder implies is_credited(
                    files,
                    i,
                    f,
                    m,
                    before[k].path,
                ) && is_folder_with(
                    before[k],
                    credited_added(files, i, f, m, before[k].path),
                    credited_removed(files, i, f, m, before[k].path),
                    states,
                ) by {
                    let q = before[k].path;
                    assert(is_credited(files, i, f, m, q) == is_credited(files, i, f, m - 1, q));
                    assert(credited_added(files, i, f, m, q) == credited_added(files, i, f, m - 1, q));
                    assert(credited_removed(files, i, f, m, q) == credited_removed(
                        files,
                        i,
                        f,
                        m - 1,
                        q,
                    ));
                }
            }
            assert(holds_credited(before, files, i, f, m)) by {
                assert forall|folder: Seq<char>|
                    is_credited(files, i, f, m, folder) implies #[trigger] holds_folder(
                    before,
                    folder,
                ) by {
                    assert(is_credited(files, i, f, m, folder) == is_credited(
                        files,
                        i,
                        f,
                        m - 1,
                        folder,
                    ));
                }
            }
        }
    }
}

/// Once the whole path of file `i` is looked at, the folders credited are
/// those above the first `i + 1` files, with their lines.
proof fn lemma_credited_is_next(files: Seq<FileDiffView>, i: int, q: Seq<char>)
    requires
        0 <= i < files.len(),
    ensures
        is_credited(files, i, files[i], files[i].path.len() as int, q) == is_folder_among(
            files,
            i + 1,
            q,
        ),
        credited_added(files, i, files[i], files[i].path.len() as int, q) == folder_added(
            files,
            i + 1,
            q,
        ),
        credited_removed(files, i, files[i], files[i].path.len() as int, q) == folder_removed(
            files,
            i + 1,
            q,
        ),
{
    let f = files[i];
    if is_folder_among(files, i + 1, q) {
        let j = choose|j: int| 0 <= j < i + 1 && is_folder_of(q, (#[trigger] files[j]).path);
        if j < i {
            assert(is_folder_among(files, i, q));
        }
    }
    if is_folder_among(files, i, q) {
        let j = choose|j: int| 0 <= j < i && is_folder_of(q, (#[trigger] files[j]).path);
        assert(0 <= j < i + 1 && is_folder_of(q, files[j].path));
    }
    if is_folder_of(q, f.path) {
        assert(0 <= i < i + 1 && is_folder_of(q, files[i].path));
    }
}

/// With nothing of a path looked at, the folders credited are those above
/// the files before.
proof fn lemma_credited_at_start(files: Seq<FileDiffView>, i: int, q: Seq<char>)
    requires
        0 <= i < files.len(),
    ensures
        is_credited(files, i, files[i], 0, q) == is_folder_among(files, i, q),
        credited_added(files, i, files[i], 0, q) == folder_added(files, i, q),
        credited_removed(files, i, files[i], 0, q) == folder_removed(files, i, q),
{
}

/// The tree of the first `n` files has a folder for every path above one
/// of the files and no other folder, each with the lines of the files
/// below it.
pub open spec fn folders_complete(
    tree: Seq<TreeNodeView>,
    files: Seq<FileDiffView>,
    n: int,
    states: Map<Seq<char>, bool>,
) -> bool {
    &&& forall|k: int|
        0 <= k < tree.len() && (#[trigger] tree[k]).is_folder ==> is_folder_among(
            files,
            n,
            tree[k].path,
        ) && tree[k] == folder_node(
            tree[k].path,
            folder_added(files, n, tree[k].path),
            folder_removed(files, n, tree[k].path),
            states,
        )
    &&& forall|folder: Seq<char>|
        #![trigger holds_folder(tree, folder)]
        is_folder_among(files, n, folder) ==> holds_folder(tree, folder)
}

/// Putting in the node of a file leaves the folders complete.
proof fn lemma_insert_file_keeps_folders(
    credited: Seq<TreeNodeView>,
    files: Seq<FileDiffView>,
    i: int,
    k0: int,
    states: Map<Seq<char>, bool>,
)
    requires
        0 <= i < files.len(),
        0 <= k0 <= credited.len(),
        folders_mean(credited, files, i, files[i], files[i].path.len() as int, states),
        holds_credited(credited, files, i, files[i], files[i].path.len() as int),
    ensures
        folders_complete(credited.insert(k0, file_node(files[i], i)), files, i + 1, states),
{
    let f = files[i];
    let tree = credited.insert(k0, file_node(f, i));
    assert forall|k: int| 0 <= k < tree.len() && (#[trigger] tree[k]).is_folder implies is_folder_among(
        files,
        i + 1,
        tree[k].path,
    ) && tree[k] == folder_node(
        tree[k].path,
        folder_added(files, i + 1, tree[k].path),
        folder_removed(files, i + 1, tree[k].path),
        states,
    ) by {
        let o = if k < k0 {
            k
        } else {
            k - 1
        };
        assert(credited[o] == tree[k]);
        assert(credited[o].is_folder);
        lemma_credited_is_next(files, i, tree[k].path);
        lemma_folder_is(
            credited[o],
            folder_added(files, i + 1, tree[k].path),
            folder_removed(files, i + 1, tree[k].path),
            states,
        );
    }
    assert forall|folder: Seq<char>| is_folder_among(files, i + 1, folder) implies #[trigger] holds_folder(
        tree,
        folder,
    ) by {
        lemma_credited_is_next(files, i, folder);
        assert(holds_folder(credited, folder));
        let k = choose|k: int| 0 <= k < credited.len() && is_folder_at(#[trigger] credited[k], folder);
        let o = if k < k0 {
            k
        } else {
            k + 1
        };
        assert(tree[o] == credited[k]);
        assert(is_folder_at(tree[o], folder));
    }
}

/// Putting in the node of a file makes the file nodes those of one file
/// more.
proof fn lemma_insert_file_keeps_files(
    credited: Seq<TreeNodeView>,
    files: Seq<FileDiffView>,
    i: int,
    k0: int,
)
    requires
        0 <= i < files.len(),
        0 <= k0 <= credited.len(),
        files_mean(credited, files, i),
        holds_files(credited, files, i),
    ensures
        files_mean(credited.insert(k0, file_node(files[i], i)), files, i + 1),
        holds_files(credited.insert(k0, file_node(files[i], i)), files, i + 1),
{
    let tree = credited.insert(k0, file_node(files[i], i));
    assert forall|k: int|
        0 <= k < tree.len() && !(#[trigger] tree[k]).is_folder implies exists|j: int|
        0 <= j < i + 1 && tree[k] == #[trigger] file_node(files[j], j) by {
        if k == k0 {
            assert(tree[k] == file_node(files[i], i));
        } else {
            let o = if k < k0 {
                k
            } else {
                k - 1
            };
            assert(credited[o] == tree[k]);
            assert(!credited[o].is_folder);
            let j = choose|j: int| 0 <= j < i && credited[o] == #[trigger] file_node(files[j], j);
            assert(0 <= j < i + 1 && tree[k] == file_node(files[j], j));
        }
    }
    assert forall|j: int| 0 <= j < i + 1 implies holds(tree, #[trigger] file_node(files[j], j)) by {
        if j == i {
            assert(tree[k0] == file_node(files[j], j));
        } else {
            assert(holds(credited, file_node(files[j], j)));
            let k = choose|k: int|
                0 <= k < credited.len() && #[trigger] credited[k] == file_node(files[j], j);
            let o = if k < k0 {
                k
            } else {
                k + 1
            };
            assert(tree[o] == credited[k]);
        }
    }
}

/// What the tree of the first `n` files is made of: a folder for every
/// path above a file and no other folder, each with the lines of the files
/// below it; and a node for every file and no other node.
pub proof fn lemma_tree_means(files: Seq<FileDiffView>, n: int, states: Map<Seq<char>, bool>)
    requires
        0 <= n <= files.len(),
    ensures
        folders_complete(tree_upto(files, n, states), files, n, states),
        files_mean(tree_upto(files, n, states), files, n),
        holds_files(tree_upto(files, n, states), files, n),
    decreases n,
{
    if n > 0 {
        let i = n - 1;
        let f = files[i];
        let before = tree_upto(files, i, states);
        lemma_tree_means(files, i, states);
        lemma_tree_order(files, i, states);
        assert(folders_mean(before, files, i, f, 0, states)) by {
            assert forall|k: int|
                0 <= k < before.len() && (#[trigger] before[k]).is_folder implies is_credited(
                files,
                i,
                f,
                0,
                before[k].path,
            ) && is_folder_with(
                before[k],
                credited_added(files, i, f, 0, before[k].path),
                credited_removed(files, i, f, 0, before[k].path),
                states,
            ) by {
                lemma_credited_at_start(files, i, before[k].path);
                lemma_folder_is(
                    before[k],
                    folder_added(files, i, before[k].path),
                    folder_removed(files, i, before[k].path),
                    states,
                );
            }
        }
        assert(holds_credited(before, files, i, f, 0)) by {
            assert forall|folder: Seq<char>|
                is_credited(files, i, f, 0, folder) implies #[trigger] holds_folder(
                before,
                folder,
            ) by {
                lemma_credited_at_start(files, i, folder);
            }
        }
        lemma_credit_folders_means(before, files, i, f.path.len() as int, states);
        let credited = credit_folders(before, f, f.path.len() as int, states);
        let k0 = first_above(credited, f.path, 0);
        lemma_first_above(credited, f.path, 0);
        lemma_insert_file_keeps_folders(credited, files, i, k0, states);
        lemma_insert_file_keeps_files(credited, files, i, k0);
    } else {
        let tree = tree_upto(files, n, states);
        assert forall|folder: Seq<char>| is_folder_among(files, n, folder) implies #[trigger] holds_folder(
            tree,
            folder,
        ) by {
        }
    }
}

} // verus!
