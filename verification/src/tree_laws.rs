//! Properties of the folder tree that hold of every tree the catalogue can
//! produce, proved over the specification of `create_graph` and
//! `from_graph`.
use vstd::prelude::*;
use crate::graph::{lemma_out_neighbor_is_target, out_neighbors};
use crate::paths::{depth_level, lemma_sep_positions, parent_path, root_path, sep_positions};
use crate::records::DbHoldView;
use crate::tree::{
    child_keys, child_label, initial_tree, insert_row, key_for, lemma_insert_row_wf, lemma_tree_after_wf,
    path_of, root_row, rows_fit, spec_create_graph, spec_from_graph, tree_after, tree_wf,
    HolderView,
};

verus! {

/// A parent path is strictly shorter than the path it comes from.
pub proof fn lemma_parent_shorter(s: Seq<char>)
    requires
        sep_positions(s).len() >= 1,
    ensures
        parent_path(s).len() < s.len(),
{
    lemma_sep_positions(s);
    let p = sep_positions(s);
    assert(0 <= p[p.len() - 1] < s.len());
}

/// The shape that every built tree keeps, given the path of its root.
pub open spec fn tree_shape(t: HolderView, root: Seq<char>) -> bool {
    &&& t.map.contains_key(root)
    &&& t.map[root] == 0
    &&& t.nodes.len() >= 1
    &&& t.nodes[0].level == 2
    &&& forall|k: Seq<char>| #[trigger] t.map.contains_key(k) ==> k.len() >= root.len()
    &&& forall|i: int|
        1 <= i < t.nodes.len() ==> #[trigger] t.nodes[i].level == depth_level(path_of(t, i))
    &&& forall|i: int, j: int|
        0 <= i < t.nodes.len() && 1 <= j < t.nodes[i].contents.len() ==> {
            let x = #[trigger] t.nodes[i].contents[j];
            &&& x.dirornot != 1
            &&& parent_path(x.filepath) == path_of(t, i)
        }
}

/// Filing a row keeps the shape.
proof fn lemma_insert_row_shape(t: HolderView, x: DbHoldView, root: Seq<char>)
    requires
        tree_wf(t),
        tree_shape(t, root),
        sep_positions(x.filepath).len() >= 1,
        t.nodes.len() + 1 < u32::MAX,
        t.edges.len() + 1 < u32::MAX,
    ensures
        tree_shape(insert_row(t, x), root),
{
    lemma_insert_row_wf(t, x);
    let u = insert_row(t, x);
    let parent = parent_path(x.filepath);
    if t.map.contains_key(parent) {
        if x.dirornot == 1 {
            lemma_parent_shorter(x.filepath);
            assert(x.filepath != root);
            assert forall|i: int| 1 <= i < u.nodes.len() implies #[trigger] u.nodes[i].level
                == depth_level(path_of(u, i)) by {
                if i < t.nodes.len() {
                    assert(u.nodes[i] == t.nodes[i]);
                }
            }
            assert forall|i: int, j: int|
                0 <= i < u.nodes.len() && 1 <= j < u.nodes[i].contents.len() implies {
                let y = #[trigger] u.nodes[i].contents[j];
                &&& y.dirornot != 1
                &&& parent_path(y.filepath) == path_of(u, i)
            } by {
                assert(i < t.nodes.len());
                assert(u.nodes[i] == t.nodes[i]);
            }
        } else {
            let d = t.map[parent] as int;
            assert(path_of(t, d) == parent);
            assert forall|i: int| 1 <= i < u.nodes.len() implies #[trigger] u.nodes[i].level
                == depth_level(path_of(u, i)) by {
                if i != d {
                    assert(u.nodes[i] == t.nodes[i]);
                } else {
                    assert(u.nodes[i].contents[0] == t.nodes[i].contents[0]);
                }
            }
            assert forall|i: int, j: int|
                0 <= i < u.nodes.len() && 1 <= j < u.nodes[i].contents.len() implies {
                let y = #[trigger] u.nodes[i].contents[j];
                &&& y.dirornot != 1
                &&& parent_path(y.filepath) == path_of(u, i)
            } by {
                if i != d {
                    assert(u.nodes[i] == t.nodes[i]);
                } else {
                    assert(u.nodes[i].contents[0] == t.nodes[i].contents[0]);
                    if j < t.nodes[i].contents.len() {
                        assert(u.nodes[i].contents[j] == t.nodes[i].contents[j]);
                    }
                }
            }
            assert(u.nodes[0].level == t.nodes[0].level);
        }
    }
}

/// Every tree built from fitting rows keeps the shape, rooted at the
/// library root named by the first row.
pub proof fn lemma_tree_after_shape(rows: Seq<DbHoldView>, n: nat)
    requires
        rows_fit(rows),
        n <= rows.len(),
    ensures
        tree_shape(tree_after(rows, n), root_path(rows[0].filepath)),
    decreases n,
{
    let root = root_path(rows[0].filepath);
    if n == 0 {
        let t = initial_tree(rows[0]);
        assert(t.map.contains_key(root));
        assert forall|k: Seq<char>| #[trigger] t.map.contains_key(k) implies k.len() >= root.len() by {
            assert(k == root);
        }
    } else {
        lemma_tree_after_shape(rows, (n - 1) as nat);
        lemma_tree_after_wf(rows, (n - 1) as nat);
        assert(sep_positions(rows[n - 1].filepath).len() >= 1);
        lemma_insert_row_shape(tree_after(rows, (n - 1) as nat), rows[n - 1], root);
    }
}

/// Every node keeps the row it was made from in first place.
proof fn lemma_first_rows_stay(rows: Seq<DbHoldView>, n: nat)
    requires
        rows_fit(rows),
        n <= rows.len(),
    ensures
        tree_after(rows, n).nodes[0].contents[0] == root_row(rows[0]),
    decreases n,
{
    if n > 0 {
        lemma_first_rows_stay(rows, (n - 1) as nat);
        lemma_tree_after_wf(rows, (n - 1) as nat);
        lemma_tree_after_shape(rows, (n - 1) as nat);
        let t = tree_after(rows, (n - 1) as nat);
        let u = tree_after(rows, n);
        assert(t.nodes[0].contents.len() > 0);
        assert(u.nodes[0].contents[0] == t.nodes[0].contents[0]);
    }
}

/// The library root stays findable: in the tree built from fitting rows,
/// looking up the root path gives the root node, at depth 2, whose first
/// row is the first row renamed to the root.
pub proof fn lemma_root_found(rows: Seq<DbHoldView>)
    requires
        rows_fit(rows),
    ensures
        spec_from_graph(spec_create_graph(rows), root_path(rows[0].filepath)) matches Some(n) && {
            &&& n.id == root_path(rows[0].filepath)
            &&& n.level == 2
            &&& n.contents[0] == root_row(rows[0])
        },
{
    lemma_tree_after_shape(rows, rows.len());
    lemma_first_rows_stay(rows, rows.len());
}

/// Depth of every folder: in a built tree, the folder found under path `k`
/// has depth 2 when `k` is the library root, and otherwise the number of
/// separators in `k` less one.
pub proof fn lemma_folder_depth(rows: Seq<DbHoldView>, k: Seq<char>)
    requires
        rows_fit(rows),
        spec_create_graph(rows).map.contains_key(k),
    ensures
        spec_from_graph(spec_create_graph(rows), k) matches Some(n) && n.level == (if k
            == root_path(rows[0].filepath) {
            2
        } else {
            depth_level(k)
        }),
{
    let t = spec_create_graph(rows);
    lemma_tree_after_shape(rows, rows.len());
    lemma_tree_after_wf(rows, rows.len());
    let i = t.map[k] as int;
    assert(path_of(t, i) == k);
    if k != root_path(rows[0].filepath) {
        assert(i != 0);
    }
}

/// What a folder holds: in a built tree, the folder found under path `k`
/// holds first its own row (whose path is `k`), and after it only rows that
/// are not folders and whose parent folder is `k`.
pub proof fn lemma_folder_contents(rows: Seq<DbHoldView>, k: Seq<char>)
    requires
        rows_fit(rows),
        spec_create_graph(rows).map.contains_key(k),
    ensures
        spec_from_graph(spec_create_graph(rows), k) matches Some(n) && {
            &&& n.contents.len() >= 1
            &&& n.contents[0].filepath == k
            &&& forall|j: int|
                1 <= j < n.contents.len() ==> (#[trigger] n.contents[j]).dirornot != 1
                    && parent_path(n.contents[j].filepath) == k
        },
{
    let t = spec_create_graph(rows);
    lemma_tree_after_shape(rows, rows.len());
    lemma_tree_after_wf(rows, rows.len());
    let i = t.map[k] as int;
    assert(path_of(t, i) == k);
    assert forall|j: int| 1 <= j < t.nodes[i].contents.len() implies (
    #[trigger] t.nodes[i].contents[j]).dirornot != 1 && parent_path(t.nodes[i].contents[j].filepath)
        == k by {
        assert(t.nodes[i].contents[j] == t.nodes[i].contents[j]);
    }
}

/// Where each listed path comes from: entry `j` of `child_keys(m, cs)` is
/// the path mapped to some node of `cs`.
proof fn lemma_child_key_origin(m: Map<Seq<char>, usize>, cs: Seq<usize>, j: int)
    requires
        0 <= j < child_keys(m, cs).len(),
    ensures
        exists|q: int| 0 <= q < cs.len() && key_for(m, #[trigger] cs[q]) == Some(child_keys(m, cs)[j]),
    decreases cs.len(),
{
    let rest = child_keys(m, cs.drop_last());
    let last = cs.len() - 1;
    assert(cs[last] == cs.last());
    if j < rest.len() {
        lemma_child_key_origin(m, cs.drop_last(), j);
        let q = choose|q: int|
            0 <= q < cs.drop_last().len() && key_for(m, #[trigger] cs.drop_last()[q]) == Some(rest[j]);
        assert(cs[q] == cs.drop_last()[q]);
        assert(child_keys(m, cs)[j] == rest[j]);
    } else {
        assert(key_for(m, cs[last]) == Some(child_keys(m, cs)[j]));
    }
}

/// Sub-folders are what they claim: in any well-formed tree, every child
/// path listed for the folder `p` is itself indexed, and its parent folder
/// is `p`.
pub proof fn lemma_children_are_subfolders(t: HolderView, p: Seq<char>)
    requires
        tree_wf(t),
        t.map.contains_key(p),
    ensures
        spec_from_graph(t, p) matches Some(n) && forall|j: int|
            0 <= j < n.children.len() ==> t.map.contains_key(#[trigger] n.children[j])
                && parent_path(n.children[j]) == p,
{
    let a = t.map[p];
    let cs = out_neighbors(t.edges, a);
    let ch = child_keys(t.map, cs);
    assert forall|j: int| 0 <= j < ch.len() implies t.map.contains_key(#[trigger] ch[j])
        && parent_path(ch[j]) == p by {
        lemma_child_key_origin(t.map, cs, j);
        let q = choose|q: int| 0 <= q < cs.len() && key_for(t.map, #[trigger] cs[q]) == Some(ch[j]);
        let c = cs[q];
        assert(exists|k: Seq<char>| t.map.contains_key(k) && t.map[k] == c);
        let k = ch[j];
        assert(t.map.contains_key(k) && t.map[k] == c);
        lemma_out_neighbor_is_target(t.edges, a, q);
        let e = choose|e: int| 0 <= e < t.edges.len() && (#[trigger] t.edges[e]).0 == a && t.edges[e].1 == cs[q];
        assert(parent_path(path_of(t, c as int)) == path_of(t, a as int));
        assert(path_of(t, t.map[k] as int) == k);
        assert(path_of(t, t.map[p] as int) == p);
    }
}

/// The folder rows have pairwise distinct paths.
pub open spec fn distinct_folder_paths(rows: Seq<DbHoldView>) -> bool {
    forall|i: int, j: int|
        0 <= i < j < rows.len() && #[trigger] rows[i].dirornot == 1 && #[trigger] rows[j].dirornot == 1
            ==> rows[i].filepath != rows[j].filepath
}

/// Every indexed path other than the root is linked from its parent
/// folder's node.
pub open spec fn linked_to_parent(t: HolderView, root: Seq<char>) -> bool {
    forall|k: Seq<char>|
        #[trigger] t.map.contains_key(k) && k != root ==> t.map.contains_key(parent_path(k)) && exists|e: int|
            0 <= e < t.edges.len() && (#[trigger] t.edges[e]).0 == t.map[parent_path(k)] && t.edges[e].1
                == t.map[k]
}

/// Every indexed path is the root or the path of a folder row among the
/// first `n` rows.
pub open spec fn keys_from_rows(t: HolderView, rows: Seq<DbHoldView>, n: nat, root: Seq<char>) -> bool {
    forall|k: Seq<char>|
        #[trigger] t.map.contains_key(k) ==> k == root || exists|j: int|
            0 <= j < n && (#[trigger] rows[j]).dirornot == 1 && rows[j].filepath == k
}

proof fn lemma_tree_after_linked(rows: Seq<DbHoldView>, n: nat)
    requires
        rows_fit(rows),
        distinct_folder_paths(rows),
        n <= rows.len(),
    ensures
        linked_to_parent(tree_after(rows, n), root_path(rows[0].filepath)),
        keys_from_rows(tree_after(rows, n), rows, n, root_path(rows[0].filepath)),
    decreases n,
{
    let root = root_path(rows[0].filepath);
    if n == 0 {
        let t = initial_tree(rows[0]);
        assert forall|k: Seq<char>| #[trigger] t.map.contains_key(k) implies k == root by {}
    } else {
        let m = (n - 1) as nat;
        lemma_tree_after_linked(rows, m);
        lemma_tree_after_shape(rows, m);
        let t = tree_after(rows, m);
        let u = tree_after(rows, n);
        let x = rows[n - 1];
        let parent = parent_path(x.filepath);
        assert(sep_positions(x.filepath).len() >= 1);
        if t.map.contains_key(parent) && x.dirornot == 1 {
            lemma_parent_shorter(x.filepath);
            assert(!t.map.contains_key(x.filepath)) by {
                if t.map.contains_key(x.filepath) {
                    assert(x.filepath != root);
                    let j = choose|j: int| 0 <= j < m && (#[trigger] rows[j]).dirornot == 1 && rows[j].filepath == x.filepath;
                    assert(rows[j].dirornot == 1 && rows[n - 1].dirornot == 1);
                }
            }
            assert forall|k: Seq<char>| #[trigger] u.map.contains_key(k) && k != root implies u.map.contains_key(
                parent_path(k),
            ) && exists|e: int|
                0 <= e < u.edges.len() && (#[trigger] u.edges[e]).0 == u.map[parent_path(k)] && u.edges[e].1
                    == u.map[k] by {
                if k == x.filepath {
                    let e = t.edges.len() as int;
                    assert(u.edges[e] == (t.map[parent], t.nodes.len() as usize, "child"@));
                } else {
                    assert(t.map.contains_key(k));
                    let e = choose|e: int|
                        0 <= e < t.edges.len() && (#[trigger] t.edges[e]).0 == t.map[parent_path(k)]
                            && t.edges[e].1 == t.map[k];
                    assert(u.edges[e] == t.edges[e]);
                }
            }
            assert forall|k: Seq<char>| #[trigger] u.map.contains_key(k) implies k == root || exists|j: int|
                0 <= j < n && (#[trigger] rows[j]).dirornot == 1 && rows[j].filepath == k by {
                if k == x.filepath {
                    assert(rows[n - 1].dirornot == 1);
                } else if k != root {
                    assert(t.map.contains_key(k));
                    let j = choose|j: int| 0 <= j < m && (#[trigger] rows[j]).dirornot == 1 && rows[j].filepath == k;
                    assert(0 <= j < n);
                }
            }
        } else {
            assert forall|k: Seq<char>| #[trigger] u.map.contains_key(k) implies k == root || exists|j: int|
                0 <= j < n && (#[trigger] rows[j]).dirornot == 1 && rows[j].filepath == k by {
                if k != root {
                    let j = choose|j: int| 0 <= j < m && (#[trigger] rows[j]).dirornot == 1 && rows[j].filepath == k;
                    assert(0 <= j < n);
                }
            }
            assert forall|k: Seq<char>| #[trigger] u.map.contains_key(k) && k != root implies u.map.contains_key(
                parent_path(k),
            ) && exists|e: int|
                0 <= e < u.edges.len() && (#[trigger] u.edges[e]).0 == u.map[parent_path(k)] && u.edges[e].1
                    == u.map[k] by {
                let e = choose|e: int|
                    0 <= e < t.edges.len() && (#[trigger] t.edges[e]).0 == t.map[parent_path(k)] && t.edges[e].1
                        == t.map[k];
                assert(u.edges[e] == t.edges[e]);
            }
        }
    }
}

/// The target of an edge is listed among the neighbours of its source.
proof fn lemma_edge_target_listed(edges: Seq<(usize, usize, Seq<char>)>, e: int)
    requires
        0 <= e < edges.len(),
    ensures
        out_neighbors(edges, edges[e].0).contains(edges[e].1),
    decreases edges.len(),
{
    let a = edges[e].0;
    let out = out_neighbors(edges, a);
    let init = edges.drop_last();
    let rest = out_neighbors(init, a);
    if e == edges.len() - 1 {
        assert(out[0] == edges[e].1);
    } else {
        lemma_edge_target_listed(init, e);
        assert(init[e] == edges[e]);
        let q = choose|q: int| 0 <= q < rest.len() && rest[q] == edges[e].1;
        if edges.last().0 == a {
            assert(out[q + 1] == rest[q]);
        } else {
            assert(out[q] == rest[q]);
        }
    }
}

/// A node whose path is known is listed by that path.
proof fn lemma_child_keys_contains(m: Map<Seq<char>, usize>, cs: Seq<usize>, q: int, k: Seq<char>)
    requires
        0 <= q < cs.len(),
        key_for(m, cs[q]) == Some(k),
    ensures
        child_keys(m, cs).contains(k),
    decreases cs.len(),
{
    let init = cs.drop_last();
    let rest = child_keys(m, init);
    if q == cs.len() - 1 {
        assert(cs.last() == cs[q]);
        assert(child_keys(m, cs) == rest.push(k));
        assert(child_keys(m, cs)[rest.len() as int] == k);
    } else {
        assert(init[q] == cs[q]);
        lemma_child_keys_contains(m, init, q, k);
        let i = choose|i: int| 0 <= i < rest.len() && rest[i] == k;
        match key_for(m, cs.last()) {
            Some(k2) => {
                assert(child_keys(m, cs)[i] == rest[i]);
            },
            None => {},
        }
    }
}

/// Every sub-folder is listed: when the folder rows have distinct paths,
/// each indexed path other than the library root is listed among the
/// children of its parent folder, which is itself indexed.
pub proof fn lemma_subfolders_listed(rows: Seq<DbHoldView>, k: Seq<char>)
    requires
        rows_fit(rows),
        distinct_folder_paths(rows),
        spec_create_graph(rows).map.contains_key(k),
        k != root_path(rows[0].filepath),
    ensures
        spec_from_graph(spec_create_graph(rows), parent_path(k)) matches Some(n) && n.children.contains(
            k,
        ),
{
    let t = spec_create_graph(rows);
    lemma_tree_after_linked(rows, rows.len());
    lemma_tree_after_wf(rows, rows.len());
    let p = parent_path(k);
    assert(t.map.contains_key(p));
    let e = choose|e: int| 0 <= e < t.edges.len() && (#[trigger] t.edges[e]).0 == t.map[p] && t.edges[e].1 == t.map[k];
    lemma_edge_target_listed(t.edges, e);
    let cs = out_neighbors(t.edges, t.map[p]);
    let q = choose|q: int| 0 <= q < cs.len() && cs[q] == t.map[k];
    assert(path_of(t, t.map[k] as int) == k);
    assert(exists|k2: Seq<char>| t.map.contains_key(k2) && t.map[k2] == t.map[k]);
    let k2 = choose|k2: Seq<char>| t.map.contains_key(k2) && t.map[k2] == t.map[k];
    assert(path_of(t, t.map[k2] as int) == k2);
    assert(key_for(t.map, cs[q]) == Some(k));
    lemma_child_keys_contains(t.map, cs, q, k);
}

/// The number of edges that lead into node `b`.
pub open spec fn in_degree(edges: Seq<(usize, usize, Seq<char>)>, b: usize) -> nat
    decreases edges.len(),
{
    if edges.len() == 0 {
        0
    } else {
        in_degree(edges.drop_last(), b) + if edges.last().1 == b {
            1nat
        } else {
            0nat
        }
    }
}

/// Edge `e` leads into node `e + 1` and is labelled `child`; there is one
/// edge fewer than nodes.
pub open spec fn edges_numbered(t: HolderView) -> bool {
    &&& t.edges.len() + 1 == t.nodes.len()
    &&& forall|e: int|
        0 <= e < t.edges.len() ==> (#[trigger] t.edges[e]).1 == e + 1 && t.edges[e].2 == child_label()
}

proof fn lemma_tree_after_numbered(rows: Seq<DbHoldView>, n: nat)
    requires
        rows_fit(rows),
        n <= rows.len(),
    ensures
        edges_numbered(tree_after(rows, n)),
    decreases n,
{
    if n > 0 {
        let m = (n - 1) as nat;
        lemma_tree_after_numbered(rows, m);
        lemma_tree_after_wf(rows, m);
        let t = tree_after(rows, m);
        let u = tree_after(rows, n);
        assert(t.nodes.len() < u32::MAX);
        assert((t.nodes.len() as usize) as int == t.nodes.len());
        assert forall|e: int| 0 <= e < u.edges.len() implies (#[trigger] u.edges[e]).1 == e + 1
            && u.edges[e].2 == child_label() by {
            if e < t.edges.len() {
                assert(u.edges[e] == t.edges[e]);
            }
        }
    }
}

/// When edge `e` leads into node `e + 1`, node 0 has no incoming edge and
/// every node from 1 to the edge count has exactly one.
proof fn lemma_in_degree_numbered(edges: Seq<(usize, usize, Seq<char>)>, b: usize)
    requires
        forall|e: int| 0 <= e < edges.len() ==> (#[trigger] edges[e]).1 == e + 1,
    ensures
        in_degree(edges, b) == (if 1 <= b <= edges.len() {
            1nat
        } else {
            0nat
        }),
    decreases edges.len(),
{
    if edges.len() > 0 {
        let init = edges.drop_last();
        assert forall|e: int| 0 <= e < init.len() implies (#[trigger] init[e]).1 == e + 1 by {
            assert(init[e] == edges[e]);
        }
        lemma_in_degree_numbered(init, b);
        assert(edges.last() == edges[edges.len() - 1]);
    }
}

/// The shape of a tree: the root sits at node 0 with no incoming edge;
/// every other node has exactly one incoming edge; every edge is labelled
/// `child` and joins two nodes; distinct indexed paths name distinct
/// nodes; and an edge between two indexed nodes leads from the parent
/// folder's path to the child's path.
pub open spec fn tree_is_rooted(t: HolderView, root: Seq<char>) -> bool {
    &&& t.map.contains_key(root)
    &&& t.map[root] == 0
    &&& in_degree(t.edges, 0) == 0
    &&& forall|b: usize| 1 <= b < t.nodes.len() ==> #[trigger] in_degree(t.edges, b) == 1
    &&& forall|e: int|
        0 <= e < t.edges.len() ==> (#[trigger] t.edges[e]).2 == child_label() && t.edges[e].0
            < t.nodes.len() && t.edges[e].1 < t.nodes.len()
    &&& forall|k: Seq<char>| #[trigger] t.map.contains_key(k) ==> t.map[k] < t.nodes.len()
    &&& forall|k1: Seq<char>, k2: Seq<char>|
        #[trigger] t.map.contains_key(k1) && #[trigger] t.map.contains_key(k2) && t.map[k1] == t.map[k2]
            ==> k1 == k2
    &&& forall|e: int, ku: Seq<char>, kv: Seq<char>|
        0 <= e < t.edges.len() && #[trigger] t.map.contains_key(ku) && #[trigger] t.map.contains_key(
            kv,
        ) && t.map[ku] == (#[trigger] t.edges[e]).0 && t.map[kv] == t.edges[e].1 ==> ku == parent_path(
            kv,
        )
}

/// The tree built from fitting rows is rooted at the library root named
/// by the first row, as `tree_is_rooted` says.
pub proof fn lemma_tree_is_rooted(rows: Seq<DbHoldView>)
    requires
        rows_fit(rows),
    ensures
        tree_is_rooted(spec_create_graph(rows), root_path(rows[0].filepath)),
{
    let t = spec_create_graph(rows);
    let root = root_path(rows[0].filepath);
    lemma_tree_after_shape(rows, rows.len());
    lemma_tree_after_wf(rows, rows.len());
    lemma_tree_after_numbered(rows, rows.len());
    lemma_in_degree_numbered(t.edges, 0);
    assert forall|b: usize| 1 <= b < t.nodes.len() implies #[trigger] in_degree(t.edges, b) == 1 by {
        lemma_in_degree_numbered(t.edges, b);
    }
    assert forall|k1: Seq<char>, k2: Seq<char>|
        #[trigger] t.map.contains_key(k1) && #[trigger] t.map.contains_key(k2) && t.map[k1] == t.map[k2]
        implies k1 == k2 by {
        assert(path_of(t, t.map[k1] as int) == k1);
        assert(path_of(t, t.map[k2] as int) == k2);
    }
    assert forall|e: int, ku: Seq<char>, kv: Seq<char>|
        0 <= e < t.edges.len() && #[trigger] t.map.contains_key(ku) && #[trigger] t.map.contains_key(kv)
            && t.map[ku] == (#[trigger] t.edges[e]).0 && t.map[kv] == t.edges[e].1 implies ku
        == parent_path(kv) by {
        assert(path_of(t, t.map[ku] as int) == ku);
        assert(path_of(t, t.map[kv] as int) == kv);
        let (a, b, _) = t.edges[e];
        assert(parent_path(path_of(t, b as int)) == path_of(t, a as int));
    }
}

/// The rows of `s` that are files directly inside folder `p`, in order.
pub open spec fn files_under(s: Seq<DbHoldView>, p: Seq<char>) -> Seq<DbHoldView>
    decreases s.len(),
{
    if s.len() == 0 {
        Seq::empty()
    } else {
        let rest = files_under(s.drop_last(), p);
        let x = s.last();
        if x.dirornot != 1 && parent_path(x.filepath) == p {
            rest.push(x)
        } else {
            rest
        }
    }
}

/// Every indexed folder holds its own row followed by the file rows
/// directly inside it that came after the folder was made (for the root,
/// after the start), among the first `n` rows.
pub open spec fn files_filed(t: HolderView, rows: Seq<DbHoldView>, n: nat, root: Seq<char>) -> bool {
    forall|p: Seq<char>|
        #[trigger] t.map.contains_key(p) ==> if p == root {
            t.nodes[t.map[p] as int].contents == seq![root_row(rows[0])] + files_under(
                rows.subrange(0, n as int),
                p,
            )
        } else {
            exists|c: int|
                0 <= c < n && (#[trigger] rows[c]).dirornot == 1 && rows[c].filepath == p
                    && t.nodes[t.map[p] as int].contents == seq![rows[c]] + files_under(
                    rows.subrange(c + 1, n as int),
                    p,
                )
        }
}

/// One more row, at position `n`, extends the window `a..n`.
proof fn lemma_files_under_step(rows: Seq<DbHoldView>, a: int, n: int, p: Seq<char>)
    requires
        0 <= a <= n < rows.len(),
    ensures
        files_under(rows.subrange(a, n + 1), p) == (if rows[n].dirornot != 1 && parent_path(
            rows[n].filepath,
        ) == p {
            files_under(rows.subrange(a, n), p).push(rows[n])
        } else {
            files_under(rows.subrange(a, n), p)
        }),
{
    let r = rows.subrange(a, n + 1);
    assert(r.drop_last() =~= rows.subrange(a, n));
    assert(r.last() == rows[n]);
}

proof fn lemma_tree_after_files(rows: Seq<DbHoldView>, n: nat)
    requires
        rows_fit(rows),
        distinct_folder_paths(rows),
        n <= rows.len(),
    ensures
        files_filed(tree_after(rows, n), rows, n, root_path(rows[0].filepath)),
    decreases n,
{
    let root = root_path(rows[0].filepath);
    if n == 0 {
        let t = initial_tree(rows[0]);
        assert forall|p: Seq<char>| #[trigger] t.map.contains_key(p) implies p == root && t.nodes[t.map[p] as int].contents
            == seq![root_row(rows[0])] + files_under(rows.subrange(0, 0), p) by {
            assert(files_under(rows.subrange(0, 0), p) =~= Seq::<DbHoldView>::empty());
            assert(seq![root_row(rows[0])] + Seq::<DbHoldView>::empty() =~= seq![root_row(rows[0])]);
        }
    } else {
        let m = (n - 1) as nat;
        let k = m as int;
        lemma_tree_after_files(rows, m);
        lemma_tree_after_wf(rows, m);
        lemma_tree_after_shape(rows, m);
        lemma_tree_after_linked(rows, m);
        let t = tree_after(rows, m);
        let u = tree_after(rows, n);
        let x = rows[k];
        let q = parent_path(x.filepath);
        assert(sep_positions(x.filepath).len() >= 1);
        assert(u == insert_row(t, x));
        let inserted = t.map.contains_key(q);
        if inserted && x.dirornot == 1 {
            lemma_parent_shorter(x.filepath);
            assert(!t.map.contains_key(x.filepath)) by {
                if t.map.contains_key(x.filepath) {
                    assert(x.filepath != root);
                    let j = choose|j: int| 0 <= j < m && (#[trigger] rows[j]).dirornot == 1 && rows[j].filepath == x.filepath;
                    assert(rows[j].dirornot == 1 && rows[k].dirornot == 1);
                }
            }
        }
        assert forall|p: Seq<char>| #[trigger] u.map.contains_key(p) implies if p == root {
            u.nodes[u.map[p] as int].contents == seq![root_row(rows[0])] + files_under(
                rows.subrange(0, n as int),
                p,
            )
        } else {
            exists|c: int|
                0 <= c < n && (#[trigger] rows[c]).dirornot == 1 && rows[c].filepath == p
                    && u.nodes[u.map[p] as int].contents == seq![rows[c]] + files_under(
                    rows.subrange(c + 1, n as int),
                    p,
                )
        } by {
            if inserted && x.dirornot == 1 && p == x.filepath {
                lemma_parent_shorter(x.filepath);
                let i = t.nodes.len() as int;
                assert(u.map[p] as int == i);
                assert(u.nodes[i].contents == seq![x]);
                assert(files_under(rows.subrange(k + 1, n as int), p) =~= Seq::<DbHoldView>::empty());
                assert(seq![rows[k]] + Seq::<DbHoldView>::empty() =~= seq![rows[k]]);
                assert(rows[k].dirornot == 1 && rows[k].filepath == p);
            } else {
                assert(t.map.contains_key(p));
                let d = t.map[p] as int;
                assert(u.map[p] == t.map[p]);
                assert(path_of(t, d) == p);
                let touched = inserted && x.dirornot != 1 && q == p;
                if inserted && x.dirornot != 1 && q != p {
                    assert(t.map[q] != t.map[p]) by {
                        assert(path_of(t, t.map[q] as int) == q);
                    }
                }
                if touched {
                    assert(u.nodes[d].contents == t.nodes[d].contents.push(x));
                } else {
                    assert(u.nodes[d] == t.nodes[d]);
                }
                if p == root {
                    lemma_files_under_step(rows, 0, k, p);
                    if touched {
                        assert(seq![root_row(rows[0])] + files_under(rows.subrange(0, k), p).push(x)
                            =~= (seq![root_row(rows[0])] + files_under(rows.subrange(0, k), p)).push(x));
                    }
                } else {
                    let c = choose|c: int|
                        0 <= c < m && (#[trigger] rows[c]).dirornot == 1 && rows[c].filepath == p
                            && t.nodes[t.map[p] as int].contents == seq![rows[c]] + files_under(
                            rows.subrange(c + 1, m as int),
                            p,
                        );
                    lemma_files_under_step(rows, c + 1, k, p);
                    if touched {
                        assert(seq![rows[c]] + files_under(rows.subrange(c + 1, k), p).push(x)
                            =~= (seq![rows[c]] + files_under(rows.subrange(c + 1, k), p)).push(x));
                    }
                    assert(rows[c].dirornot == 1);
                }
            }
        }
    }
}

/// Every file is filed in the library root: when the folder rows have
/// distinct paths, the root holds its own row followed by every file row
/// directly inside the root, in row order.
pub proof fn lemma_root_holds_its_files(rows: Seq<DbHoldView>)
    requires
        rows_fit(rows),
        distinct_folder_paths(rows),
    ensures
        spec_from_graph(spec_create_graph(rows), root_path(rows[0].filepath)) matches Some(n)
            && n.contents == seq![root_row(rows[0])] + files_under(rows, root_path(rows[0].filepath)),
{
    lemma_tree_after_files(rows, rows.len());
    lemma_tree_after_shape(rows, rows.len());
    assert(rows.subrange(0, rows.len() as int) =~= rows);
}

/// Every file is filed in its folder: when the folder rows have distinct
/// paths, an indexed folder made from row `c` holds that row followed by
/// every later file row directly inside it, in row order.
pub proof fn lemma_folder_holds_its_files(rows: Seq<DbHoldView>, c: int)
    requires
        rows_fit(rows),
        distinct_folder_paths(rows),
        0 <= c < rows.len(),
        rows[c].dirornot == 1,
        rows[c].filepath != root_path(rows[0].filepath),
        spec_create_graph(rows).map.contains_key(rows[c].filepath),
    ensures
        spec_from_graph(spec_create_graph(rows), rows[c].filepath) matches Some(n) && n.contents
            == seq![rows[c]] + files_under(rows.subrange(c + 1, rows.len() as int), rows[c].filepath),
{
    let p = rows[c].filepath;
    let t = spec_create_graph(rows);
    lemma_tree_after_files(rows, rows.len());
    assert(t.map.contains_key(p));
    let c2 = choose|c2: int|
        0 <= c2 < rows.len() && (#[trigger] rows[c2]).dirornot == 1 && rows[c2].filepath == p
            && t.nodes[t.map[p] as int].contents == seq![rows[c2]] + files_under(
            rows.subrange(c2 + 1, rows.len() as int),
            p,
        );
    if c2 != c {
        if c < c2 {
            assert(rows[c].filepath != rows[c2].filepath);
        } else {
            assert(rows[c2].filepath != rows[c].filepath);
        }
    }
}

} // verus!
