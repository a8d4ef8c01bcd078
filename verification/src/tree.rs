//! The folder tree of the library, built from the rows of the catalogue
//! database: each node is a folder holding its own row and the rows of the
//! files directly inside it; edges lead from a folder to its sub-folders.
use petgraph::graph::Graph;
use vstd::hash_map::StringHashMap;
use vstd::prelude::*;
use crate::graph::{
    graph_add_edge, graph_add_node, graph_neighbors, graph_new, graph_node_weight,
    graph_replace_weight, lemma_out_neighbor_is_target, out_neighbors, tree_edges, tree_nodes,
};
use crate::paths::{
    depth_level, parent_and_level, parent_path, root_name, root_of, root_path, separator_positions,
    sep_positions,
};
use crate::records::{duplicate_rows, rows_view, dbHold, DbHoldView};

verus! {

/// A node of the folder tree: the rows it holds and its depth.
#[derive(Debug)]
pub struct TreeNode {
    pub contents: Vec<dbHold>,
    pub nodelevel: i32,
}

/// The abstract value of a tree node.
pub ghost struct TreeNodeView {
    pub contents: Seq<DbHoldView>,
    pub level: i32,
}

impl View for TreeNode {
    type V = TreeNodeView;

    open spec fn view(&self) -> TreeNodeView {
        TreeNodeView { contents: rows_view(self.contents@), level: self.nodelevel }
    }
}

/// The folder tree together with the index of each folder path. Its fields
/// are private, so every tree is built by `create_graph` or `empty_holder`
/// and is well formed.
pub struct Holder {
    map: StringHashMap<usize>,
    tree: Graph<TreeNode, String>,
}

/// The abstract value of a folder tree: the path index, the nodes and the
/// edges in the order they were added.
pub ghost struct HolderView {
    pub map: Map<Seq<char>, usize>,
    pub nodes: Seq<TreeNodeView>,
    pub edges: Seq<(usize, usize, Seq<char>)>,
}

impl View for Holder {
    type V = HolderView;

    closed spec fn view(&self) -> HolderView {
        HolderView { map: self.map@, nodes: tree_nodes(self.tree), edges: tree_edges(self.tree) }
    }
}

/// The weight put on every edge.
pub open spec fn child_label() -> Seq<char> {
    "child"@
}

/// The path of node `i`: that of the first row it holds.
pub open spec fn path_of(t: HolderView, i: int) -> Seq<char> {
    t.nodes[i].contents[0].filepath
}

/// Well-formedness of a folder tree: every node holds at least its own row,
/// every indexed path names a node whose own row has that path, and every
/// edge leads from the folder that contains its target.
pub open spec fn tree_wf(t: HolderView) -> bool {
    &&& t.nodes.len() < u32::MAX
    &&& t.edges.len() < u32::MAX
    &&& forall|i: int| 0 <= i < t.nodes.len() ==> #[trigger] t.nodes[i].contents.len() > 0
    &&& forall|k: Seq<char>|
        #[trigger] t.map.contains_key(k) ==> t.map[k] < t.nodes.len() && path_of(
            t,
            t.map[k] as int,
        ) == k
    &&& forall|e: int|
        0 <= e < t.edges.len() ==> {
            let (a, b, _) = #[trigger] t.edges[e];
            &&& a < t.nodes.len()
            &&& b < t.nodes.len()
            &&& parent_path(path_of(t, b as int)) == path_of(t, a as int)
        }
}

impl Holder {
    /// Every tree is well formed.
    #[verifier::type_invariant]
    closed spec fn wf(self) -> bool {
        tree_wf(self@)
    }
}

/// The root node's own row: the first row, renamed and re-pathed to the
/// library root that its path names.
pub open spec fn root_row(r: DbHoldView) -> DbHoldView {
    DbHoldView { name: root_name(r.filepath), filepath: root_path(r.filepath), ..r }
}

/// The tree before any row is filed: the root node at depth 2, indexed by
/// its path.
pub open spec fn initial_tree(r0: DbHoldView) -> HolderView {
    HolderView {
        map: Map::<Seq<char>, usize>::empty().insert(root_path(r0.filepath), 0usize),
        nodes: seq![TreeNodeView { contents: seq![root_row(r0)], level: 2 }],
        edges: Seq::empty(),
    }
}

/// Files one row into the tree. A row whose parent folder is not indexed is
/// dropped. A folder row (`dirornot == 1`) becomes a new node, linked from
/// its parent and indexed by its path; any other row joins the contents of
/// its parent's node.
pub open spec fn insert_row(t: HolderView, x: DbHoldView) -> HolderView {
    let parent = parent_path(x.filepath);
    if !t.map.contains_key(parent) {
        t
    } else if x.dirornot == 1 {
        let i = t.nodes.len() as usize;
        HolderView {
            map: t.map.insert(x.filepath, i),
            nodes: t.nodes.push(TreeNodeView { contents: seq![x], level: depth_level(x.filepath) }),
            edges: t.edges.push((t.map[parent], i, child_label())),
        }
    } else {
        let d = t.map[parent] as int;
        HolderView {
            nodes: t.nodes.update(
                d,
                TreeNodeView { contents: t.nodes[d].contents.push(x), level: t.nodes[d].level },
            ),
            ..t
        }
    }
}

/// The tree after the root is made from `rows[0]` and the first `n` rows
/// are filed in order.
pub open spec fn tree_after(rows: Seq<DbHoldView>, n: nat) -> HolderView
    decreases n,
{
    if n == 0 {
        initial_tree(rows[0])
    } else {
        insert_row(tree_after(rows, (n - 1) as nat), rows[n - 1])
    }
}

/// The tree built from all the rows.
pub open spec fn spec_create_graph(rows: Seq<DbHoldView>) -> HolderView {
    tree_after(rows, rows.len())
}

/// What `create_graph` needs of its rows: at least one row; the first row's
/// path has at least three components; every path has at least two; and
/// the rows leave room for a node index per row below `u32::MAX`.
pub open spec fn rows_fit(rows: Seq<DbHoldView>) -> bool {
    &&& 0 < rows.len()
    &&& rows.len() + 1 < u32::MAX
    &&& sep_positions(rows[0].filepath).len() >= 2
    &&& forall|i: int| 0 <= i < rows.len() ==> sep_positions(#[trigger] rows[i].filepath).len() >= 1
}

/// The tree that stands in when the catalogue cannot be read: no folders
/// at all.
pub fn empty_holder() -> (h: Holder)
    ensures
        h@.map == Map::<Seq<char>, usize>::empty(),
        h@.nodes == Seq::<TreeNodeView>::empty(),
        h@.edges == Seq::<(usize, usize, Seq<char>)>::empty(),
        tree_wf(h@),
{
    Holder { map: StringHashMap::new(), tree: graph_new() }
}

/// Whether the rows meet what `create_graph` needs of them.
pub fn rows_fit_check(rows: &Vec<dbHold>) -> (r: bool)
    ensures
        r == rows_fit(rows_view(rows@)),
{
    let ghost rv = rows_view(rows@);
    let n = rows.len();
    if n == 0 || n >= 4294967294usize {
        return false;
    }
    let first = separator_positions(rows[0].filepath.as_str());
    proof {
        assert(first@.len() == sep_positions(rows@[0].filepath@).len());
    }
    if first.len() < 2 {
        return false;
    }
    let mut i: usize = 0;
    while i < n
        invariant
            n == rows@.len(),
            rv == rows_view(rows@),
            i <= n,
            forall|j: int| 0 <= j < i ==> sep_positions(#[trigger] rv[j].filepath).len() >= 1,
        decreases n - i,
    {
        let p = separator_positions(rows[i].filepath.as_str());
        proof {
            assert(p@.len() == sep_positions(rv[i as int].filepath).len());
        }
        if p.len() == 0 {
            return false;
        }
        i = i + 1;
    }
    true
}

/// Filing a row keeps the tree well formed, as long as there is room for
/// one more node and one more edge.
pub proof fn lemma_insert_row_wf(t: HolderView, x: DbHoldView)
    requires
        tree_wf(t),
        sep_positions(x.filepath).len() >= 1,
        t.nodes.len() + 1 < u32::MAX,
        t.edges.len() + 1 < u32::MAX,
    ensures
        tree_wf(insert_row(t, x)),
        insert_row(t, x).nodes.len() <= t.nodes.len() + 1,
        insert_row(t, x).edges.len() <= t.edges.len() + 1,
{
    let u = insert_row(t, x);
    let parent = parent_path(x.filepath);
    if t.map.contains_key(parent) {
        if x.dirornot == 1 {
            let i = t.nodes.len() as usize;
            assert(path_of(u, i as int) == x.filepath);
            assert forall|j: int| 0 <= j < t.nodes.len() implies path_of(u, j) == path_of(t, j) by {
                assert(u.nodes[j] == t.nodes[j]);
            }
            assert forall|j: int| 0 <= j < u.nodes.len() implies #[trigger] u.nodes[j].contents.len() > 0 by {
                if j < t.nodes.len() {
                    assert(u.nodes[j] == t.nodes[j]);
                }
            }
            assert forall|k: Seq<char>| #[trigger] u.map.contains_key(k) implies u.map[k] < u.nodes.len()
                && path_of(u, u.map[k] as int) == k by {
                if k != x.filepath {
                    assert(t.map.contains_key(k));
                    assert(path_of(u, t.map[k] as int) == path_of(t, t.map[k] as int));
                }
            }
            assert forall|e: int| 0 <= e < u.edges.len() implies {
                let (a, b, _) = #[trigger] u.edges[e];
                &&& a < u.nodes.len()
                &&& b < u.nodes.len()
                &&& parent_path(path_of(u, b as int)) == path_of(u, a as int)
            } by {
                if e < t.edges.len() {
                    assert(u.edges[e] == t.edges[e]);
                    let (a, b, _) = t.edges[e];
                    assert(path_of(u, a as int) == path_of(t, a as int));
                    assert(path_of(u, b as int) == path_of(t, b as int));
                } else {
                    assert(u.edges[e] == (t.map[parent], i, child_label()));
                    assert(path_of(u, t.map[parent] as int) == path_of(t, t.map[parent] as int));
                }
            }
        } else {
            let d = t.map[parent] as int;
            assert forall|j: int| 0 <= j < t.nodes.len() implies path_of(u, j) == path_of(t, j)
                && #[trigger] u.nodes[j].contents.len() > 0 by {
                if j == d {
                    assert(u.nodes[j].contents == t.nodes[d].contents.push(x));
                    assert(u.nodes[j].contents[0] == t.nodes[d].contents[0]);
                } else {
                    assert(u.nodes[j] == t.nodes[j]);
                }
            }
            assert forall|k: Seq<char>| #[trigger] u.map.contains_key(k) implies u.map[k] < u.nodes.len()
                && path_of(u, u.map[k] as int) == k by {
                assert(path_of(u, t.map[k] as int) == path_of(t, t.map[k] as int));
            }
            assert forall|e: int| 0 <= e < u.edges.len() implies {
                let (a, b, _) = #[trigger] u.edges[e];
                &&& a < u.nodes.len()
                &&& b < u.nodes.len()
                &&& parent_path(path_of(u, b as int)) == path_of(u, a as int)
            } by {
                let (a, b, _) = t.edges[e];
                assert(path_of(u, a as int) == path_of(t, a as int));
                assert(path_of(u, b as int) == path_of(t, b as int));
            }
        }
    }
}

/// The tree built from any prefix of fitting rows is well formed, has at
/// most one node more than the rows filed and at most one edge per row.
pub proof fn lemma_tree_after_wf(rows: Seq<DbHoldView>, n: nat)
    requires
        rows_fit(rows),
        n <= rows.len(),
    ensures
        tree_wf(tree_after(rows, n)),
        tree_after(rows, n).nodes.len() <= n + 1,
        tree_after(rows, n).edges.len() <= n,
    decreases n,
{
    if n == 0 {
        let t = initial_tree(rows[0]);
        assert(path_of(t, 0) == root_path(rows[0].filepath));
    } else {
        lemma_tree_after_wf(rows, (n - 1) as nat);
        assert(sep_positions(rows[n - 1].filepath).len() >= 1);
        lemma_insert_row_wf(tree_after(rows, (n - 1) as nat), rows[n - 1]);
    }
}

/// Builds the folder tree from the catalogue rows, in the order the
/// database returned them. The root node is made from the first row and
/// names the library root (the first three components of its path); then
/// every row, the first included, is filed as `insert_row` says.
pub fn create_graph(rows: Vec<dbHold>) -> (h: Holder)
    requires
        rows_fit(rows_view(rows@)),
    ensures
        h@ == spec_create_graph(rows_view(rows@)),
        tree_wf(h@),
{
    let ghost rv = rows_view(rows@);
    let mut graph = graph_new();
    let mut track: StringHashMap<usize> = StringHashMap::new();
    proof {
        assert(rv[0] == rows@[0]@);
    }
    let (root_path_s, root_name_s) = root_of(rows[0].filepath.as_str());
    let mut root = rows[0].duplicate();
    root.name = root_name_s;
    root.filepath = root_path_s.clone();
    let mut vals: Vec<dbHold> = Vec::new();
    vals.push(root);
    let idx = graph_add_node(&mut graph, TreeNode { contents: vals, nodelevel: 2 });
    track.insert(root_path_s, idx);
    proof {
        let t = HolderView { map: track@, nodes: tree_nodes(graph), edges: tree_edges(graph) };
        assert(vals@[0]@ == root_row(rv[0]));
        assert(rows_view(vals@) =~= seq![root_row(rv[0])]);
        assert(t.nodes =~= initial_tree(rv[0]).nodes);
        assert(t.map =~= initial_tree(rv[0]).map);
        assert(t.edges =~= initial_tree(rv[0]).edges);
        lemma_tree_after_wf(rv, 0);
    }
    for x in it: rows.into_iter()
        invariant
            rows_view(it.seq()) == rv,
            rows_fit(rv),
            it.index() <= rv.len(),
            (HolderView { map: track@, nodes: tree_nodes(graph), edges: tree_edges(graph) })
                == tree_after(rv, it.index() as nat),
    {
        let ghost t = HolderView { map: track@, nodes: tree_nodes(graph), edges: tree_edges(graph) };
        let ghost k = it.index();
        proof {
            assert(x@ == rv[k as int]);
            lemma_tree_after_wf(rv, k as nat);
            assert(sep_positions(rv[k as int].filepath).len() >= 1);
        }
        let (parent, level) = parent_and_level(x.filepath.as_str());
        let found = match track.get(parent.as_str()) {
            Some(p) => Some(*p),
            None => None,
        };
        match found {
            Some(pi) => {
                proof {
                    assert(t.map.contains_key(parent@));
                }
                if x.dirornot == 1 {
                    let key = x.filepath.clone();
                    let mut contents: Vec<dbHold> = Vec::new();
                    contents.push(x);
                    proof {
                        assert(rows_view(contents@) =~= seq![rv[k as int]]);
                    }
                    let ni = graph_add_node(&mut graph, TreeNode { contents, nodelevel: level });
                    graph_add_edge(&mut graph, pi, ni, "child".to_owned());
                    track.insert(key, ni);
                    proof {
                        let u = HolderView { map: track@, nodes: tree_nodes(graph), edges: tree_edges(graph) };
                        let v = insert_row(t, rv[k as int]);
                        assert(u.nodes =~= v.nodes);
                        assert(u.edges =~= v.edges);
                        assert(u.map =~= v.map);
                    }
                } else {
                    let mut node = graph_replace_weight(
                        &mut graph,
                        pi,
                        TreeNode { contents: Vec::new(), nodelevel: 0 },
                    );
                    node.contents.push(x);
                    let _ = graph_replace_weight(&mut graph, pi, node);
                    proof {
                        let u = HolderView { map: track@, nodes: tree_nodes(graph), edges: tree_edges(graph) };
                        let v = insert_row(t, rv[k as int]);
                        assert(rows_view(node.contents@) =~= t.nodes[pi as int].contents.push(rv[k as int]));
                        assert(u.nodes =~= v.nodes);
                    }
                }
            },
            None => {},
        }
    }
    proof {
        lemma_tree_after_wf(rv, rv.len());
    }
    Holder { map: track, tree: graph }
}

/// A folder as the web front end receives it: its path, the rows it holds,
/// its depth and the paths of its sub-folders.
pub struct FrontendNode {
    pub id: String,
    pub contents: Vec<dbHold>,
    pub level: i32,
    pub children: Vec<String>,
}

/// The abstract value of a front-end folder.
pub ghost struct FrontendNodeView {
    pub id: Seq<char>,
    pub contents: Seq<DbHoldView>,
    pub level: i32,
    pub children: Seq<Seq<char>>,
}

/// The abstract value of a sequence of texts.
pub open spec fn texts_view(v: Seq<String>) -> Seq<Seq<char>> {
    v.map_values(|s: String| s@)
}

impl View for FrontendNode {
    type V = FrontendNodeView;

    open spec fn view(&self) -> FrontendNodeView {
        FrontendNodeView {
            id: self.id@,
            contents: rows_view(self.contents@),
            level: self.level,
            children: texts_view(self.children@),
        }
    }
}

/// The abstract value of an optional front-end folder.
pub open spec fn frontend_view(r: Option<FrontendNode>) -> Option<FrontendNodeView> {
    match r {
        Some(n) => Some(n@),
        None => None,
    }
}

/// The path that the index maps to node `c`, if there is one.
pub open spec fn key_for(m: Map<Seq<char>, usize>, c: usize) -> Option<Seq<char>> {
    if exists|k: Seq<char>| m.contains_key(k) && m[k] == c {
        Some(choose|k: Seq<char>| m.contains_key(k) && m[k] == c)
    } else {
        None
    }
}

/// The indexed paths of the nodes `cs`, in order, skipping nodes that no
/// path maps to.
pub open spec fn child_keys(m: Map<Seq<char>, usize>, cs: Seq<usize>) -> Seq<Seq<char>>
    decreases cs.len(),
{
    if cs.len() == 0 {
        Seq::empty()
    } else {
        let rest = child_keys(m, cs.drop_last());
        match key_for(m, cs.last()) {
            Some(k) => rest.push(k),
            None => rest,
        }
    }
}

/// The front-end view of the folder indexed by `p`: its path, the rows of
/// its node, the node's depth, and the paths of its sub-folders in the order
/// the graph lists them (most recently linked first).
pub open spec fn spec_from_graph(t: HolderView, p: Seq<char>) -> Option<FrontendNodeView> {
    if t.map.contains_key(p) {
        let i = t.map[p];
        Some(
            FrontendNodeView {
                id: p,
                contents: t.nodes[i as int].contents,
                level: t.nodes[i as int].level,
                children: child_keys(t.map, out_neighbors(t.edges, i)),
            },
        )
    } else {
        None
    }
}

/// In a well-formed tree, the path mapped to node `c` is the path of its
/// own row, when the index maps that path to `c`.
pub proof fn lemma_key_for_wf(t: HolderView, c: usize)
    requires
        tree_wf(t),
        c < t.nodes.len(),
    ensures
        key_for(t.map, c) == (if t.map.contains_key(path_of(t, c as int)) && t.map[path_of(
            t,
            c as int,
        )] == c {
            Some(path_of(t, c as int))
        } else {
            None
        }),
{
    if exists|k: Seq<char>| t.map.contains_key(k) && t.map[k] == c {
        let k = choose|k: Seq<char>| t.map.contains_key(k) && t.map[k] == c;
        assert(path_of(t, t.map[k] as int) == k);
    }
}

impl FrontendNode {
    /// An empty front-end folder.
    pub fn new() -> (r: FrontendNode)
        ensures
            r@ == (FrontendNodeView {
                id: Seq::empty(),
                contents: Seq::empty(),
                level: 0,
                children: Seq::empty(),
            }),
    {
        let r = FrontendNode { id: String::new(), contents: Vec::new(), level: 0, children: Vec::new() };
        assert(rows_view(r.contents@) =~= Seq::empty());
        assert(texts_view(r.children@) =~= Seq::empty());
        r
    }

    /// The front-end view of the folder whose path is `node_path`, or `None`
    /// when no folder has that path.
    pub fn from_graph(holder: &Holder, node_path: &str) -> (r: Option<FrontendNode>)
        ensures
            frontend_view(r) == spec_from_graph(holder@, node_path@),
    {
        proof {
            use_type_invariant(holder);
        }
        let ghost t = holder@;
        let i = match holder.map.get(node_path) {
            Some(i) => *i,
            None => {
                return None;
            },
        };
        proof {
            assert(t.map.contains_key(node_path@));
        }
        let node = match graph_node_weight(&holder.tree, i) {
            Some(n) => n,
            None => {
                return None;
            },
        };
        let nbrs = graph_neighbors(&holder.tree, i);
        let mut children: Vec<String> = Vec::new();
        for j in 0..nbrs.len()
            invariant
                tree_wf(t),
                t == holder@,
                nbrs@ == out_neighbors(t.edges, i),
                j <= nbrs@.len(),
                texts_view(children@) == child_keys(t.map, nbrs@.take(j as int)),
        {
            let c = nbrs[j];
            proof {
                lemma_out_neighbor_is_target(t.edges, i, j as int);
                let e = choose|e: int|
                    0 <= e < t.edges.len() && (#[trigger] t.edges[e]).0 == i && t.edges[e].1 == nbrs@[j as int];
                assert(c < t.nodes.len());
                lemma_key_for_wf(t, c);
                assert(nbrs@.take(j + 1).drop_last() =~= nbrs@.take(j as int));
                assert(nbrs@.take(j + 1).last() == c);
            }
            let ghost before = children@;
            match graph_node_weight(&holder.tree, c) {
                Some(w) => {
                    proof {
                        assert(t.nodes[c as int].contents.len() > 0);
                    }
                    let key = &w.contents[0].filepath;
                    match holder.map.get(key.as_str()) {
                        Some(ci) => {
                            if *ci == c {
                                children.push(key.clone());
                            }
                        },
                        None => {},
                    }
                },
                None => {},
            }
            proof {
                assert(texts_view(children@) =~= child_keys(t.map, nbrs@.take(j + 1)));
            }
        }
        proof {
            assert(nbrs@.take(nbrs@.len() as int) =~= nbrs@);
        }
        let r = FrontendNode {
            id: node_path.to_owned(),
            contents: duplicate_rows(&node.contents),
            level: node.nodelevel,
            children,
        };
        Some(r)
    }
}

} // verus!
