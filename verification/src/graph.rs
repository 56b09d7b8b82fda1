//! The graph of the report: the process tree below the root tracee, drawn
//! from the process table.

use crate::shape::{acyclic, closed, ranked, same_edges};
use crate::table::{ProcTable, Record};
use vstd::prelude::*;

verus! {

broadcast use {
    vstd::std_specs::vec::axiom_vec_decreases_to_view,
    vstd::seq::axiom_seq_index_decreases,
    vstd::seq::axiom_seq_subrange_decreases,
};

/// One process in the report's graph.
#[derive(Debug, PartialEq, Eq)]
pub struct Node {
    /// The process id.
    pub id: i32,
    /// The memory reading of the process, in bytes.
    pub rss: u64,
    /// The children of the process in the order of their discovery, or `None`
    /// where it has none.
    pub children: Option<Vec<Node>>,
}

/// The mathematical value of a [`Node`].
pub struct Tree {
    pub id: i32,
    pub rss: u64,
    pub children: Option<Seq<Tree>>,
}

impl View for Node {
    type V = Tree;

    open spec fn view(&self) -> Tree {
        tree_of(*self)
    }
}

/// The mathematical value of `node`.
pub open spec fn tree_of(node: Node) -> Tree
    decreases node,
{
    Tree {
        id: node.id,
        rss: node.rss,
        children: match node.children {
            Some(nodes) => Some(trees(nodes@)),
            None => None,
        },
    }
}

/// The mathematical values of `nodes`, one by one.
pub open spec fn trees(nodes: Seq<Node>) -> Seq<Tree>
    decreases nodes,
{
    if nodes.len() == 0 {
        Seq::empty()
    } else {
        trees(nodes.drop_last()).push(tree_of(nodes.last()))
    }
}

/// The tree that `table` holds below `id`, where it is less than `depth`
/// records deep; `None` where `id` or one of its descendants has no record,
/// or where the tree goes deeper.
pub open spec fn drawn(table: Map<i32, Record>, id: i32, depth: nat) -> Option<Tree>
    decreases depth, 0nat,
{
    if depth == 0 || !table.contains_key(id) {
        None
    } else {
        match drawn_all(table, table[id].children, (depth - 1) as nat) {
            Some(below) => Some(
                Tree {
                    id,
                    rss: table[id].rss,
                    children: if below.len() == 0 {
                        None
                    } else {
                        Some(below)
                    },
                },
            ),
            None => None,
        }
    }
}

/// The trees below each of `ids`, in their order; `None` where one of them
/// cannot be drawn.
pub open spec fn drawn_all(table: Map<i32, Record>, ids: Seq<i32>, depth: nat) -> Option<Seq<Tree>>
    decreases depth, 1 + ids.len(),
{
    if ids.len() == 0 {
        Some(Seq::empty())
    } else {
        match (drawn_all(table, ids.drop_last(), depth), drawn(table, ids.last(), depth)) {
            (Some(before), Some(tree)) => Some(before.push(tree)),
            _ => None,
        }
    }
}

/// The graph of the report: the tree below `root`, which no chain of
/// children longer than the table itself can be part of.
pub open spec fn graph(table: Map<i32, Record>, root: i32) -> Option<Tree> {
    drawn(table, root, table.dom().len())
}

/// Where the trees below the first `upto` of `ids` cannot be drawn, those
/// below all of `ids` cannot either.
proof fn lemma_drawn_all_fails_early(table: Map<i32, Record>, ids: Seq<i32>, upto: int, depth: nat)
    requires
        0 <= upto <= ids.len(),
        drawn_all(table, ids.take(upto), depth) is None,
    ensures
        drawn_all(table, ids, depth) is None,
    decreases ids.len(),
{
    if upto == ids.len() {
        assert(ids.take(upto) =~= ids);
    } else {
        assert(ids.drop_last().take(upto) =~= ids.take(upto));
        lemma_drawn_all_fails_early(table, ids.drop_last(), upto, depth);
    }
}

/// The tree below `pid`, where it is less than `depth` records deep.
pub fn subtree(pid: i32, table: &ProcTable, depth: usize) -> (node: Option<Node>)
    ensures
        match node {
            Some(node) => drawn(table@, pid, depth as nat) == Some(node@),
            None => drawn(table@, pid, depth as nat) is None,
        },
    decreases depth,
{
    if depth == 0 {
        return None;
    }
    let info = match table.get(pid) {
        Some(info) => info,
        None => {
            return None;
        },
    };
    let ghost ids = table@[pid].children;
    let mut below: Vec<Node> = Vec::new();
    let mut i: usize = 0;
    while i < info.children.len()
        invariant
            i <= info.children.len(),
            depth > 0,
            table@.contains_key(pid),
            ids == table@[pid].children,
            info.children@ == ids,
            drawn_all(table@, ids.take(i as int), (depth - 1) as nat) == Some(trees(below@)),
        decreases info.children.len() - i,
    {
        let ghost seen = ids.take(i as int);
        let ghost more = ids.take(i + 1);
        proof {
            assert(more.drop_last() =~= seen);
            assert(more.last() == ids[i as int]);
        }
        match subtree(info.children[i], table, depth - 1) {
            Some(node) => {
                let ghost before = below@;
                below.push(node);
                proof {
                    assert(below@.drop_last() =~= before);
                }
            },
            None => {
                proof {
                    lemma_drawn_all_fails_early(table@, ids, i + 1, (depth - 1) as nat);
                }
                return None;
            },
        }
        i += 1;
    }
    proof {
        assert(ids.take(i as int) =~= ids);
    }
    let children = if below.len() == 0 {
        None
    } else {
        Some(below)
    };
    let node = Node { id: pid, rss: info.rss, children };
    Some(node)
}

/// The graph of the report: the tree below `pid`. The result is `None` where
/// `pid` or one of its descendants has no record, or where a record descends
/// from itself.
pub fn tree(pid: i32, table: &ProcTable) -> (node: Option<Node>)
    ensures
        match node {
            Some(node) => graph(table@, pid) == Some(node@),
            None => graph(table@, pid) is None,
        },
{
    subtree(pid, table, table.len())
}

/// In a table whose ids are ranked, the tree below an id can be drawn within
/// as many levels as there are ranks from the id's own upwards.
proof fn lemma_ranked_can_be_drawn(
    table: Map<i32, Record>,
    rank: spec_fn(i32) -> nat,
    id: i32,
    depth: nat,
)
    requires
        closed(table),
        ranked(table, rank),
        table.contains_key(id),
        depth + rank(id) >= table.dom().len(),
    ensures
        drawn(table, id, depth) is Some,
    decreases depth, 0nat,
{
    assert(rank(id) < table.dom().len());
    lemma_ranked_children_can_be_drawn(
        table,
        rank,
        id,
        table[id].children.len() as int,
        (depth - 1) as nat,
    );
    assert(table[id].children.take(table[id].children.len() as int) =~= table[id].children);
}

/// The same of the first `upto` children of `id`.
proof fn lemma_ranked_children_can_be_drawn(
    table: Map<i32, Record>,
    rank: spec_fn(i32) -> nat,
    id: i32,
    upto: int,
    depth: nat,
)
    requires
        closed(table),
        ranked(table, rank),
        table.contains_key(id),
        0 <= upto <= table[id].children.len(),
        depth + 1 + rank(id) >= table.dom().len(),
    ensures
        drawn_all(table, table[id].children.take(upto), depth) is Some,
    decreases depth, 1 + upto,
{
    let ids = table[id].children.take(upto);
    if upto > 0 {
        let child = table[id].children[upto - 1];
        assert(ids.drop_last() =~= table[id].children.take(upto - 1));
        assert(ids.last() == child);
        assert(table.contains_key(child));
        assert(rank(id) < rank(child));
        lemma_ranked_children_can_be_drawn(table, rank, id, upto - 1, depth);
        lemma_ranked_can_be_drawn(table, rank, child, depth);
    }
}

/// The graph can be drawn wherever the root tracee has a record, every child
/// has one, and no record descends from itself.
pub proof fn lemma_graph_exists(table: Map<i32, Record>, root: i32)
    requires
        table.contains_key(root),
        closed(table),
        acyclic(table),
    ensures
        graph(table, root) is Some,
{
    let rank = choose|rank: spec_fn(i32) -> nat| ranked(table, rank);
    lemma_ranked_can_be_drawn(table, rank, root, table.dom().len());
}

/// The outline of `tree`: the tree without its memory readings.
pub open spec fn outline(tree: Tree) -> Tree
    decreases tree,
{
    Tree {
        id: tree.id,
        rss: 0,
        children: match tree.children {
            Some(below) => Some(outlines(below)),
            None => None,
        },
    }
}

/// The outlines of `trees`, one by one.
pub open spec fn outlines(trees: Seq<Tree>) -> Seq<Tree>
    decreases trees,
{
    if trees.len() == 0 {
        Seq::empty()
    } else {
        outlines(trees.drop_last()).push(outline(trees.last()))
    }
}

/// The outline of the tree that is drawn, if one is drawn.
pub open spec fn outline_if_drawn(drawn: Option<Tree>) -> Option<Tree> {
    match drawn {
        Some(tree) => Some(outline(tree)),
        None => None,
    }
}

/// The outlines of the trees that are drawn, if they are drawn.
pub open spec fn outlines_if_drawn(drawn: Option<Seq<Tree>>) -> Option<Seq<Tree>> {
    match drawn {
        Some(trees) => Some(outlines(trees)),
        None => None,
    }
}

/// Two tables with the same ids and the same children show the same tree
/// below an id, but for the memory readings.
pub proof fn lemma_outline_ignores_readings(
    a: Map<i32, Record>,
    b: Map<i32, Record>,
    id: i32,
    depth: nat,
)
    requires
        same_edges(a, b),
    ensures
        outline_if_drawn(drawn(a, id, depth)) == outline_if_drawn(drawn(b, id, depth)),
    decreases depth, 0nat,
{
    if depth > 0 && a.contains_key(id) {
        assert(b.contains_key(id));
        assert(a[id].children == b[id].children);
        lemma_outlines_ignore_readings(a, b, a[id].children, (depth - 1) as nat);
        let below_a = drawn_all(a, a[id].children, (depth - 1) as nat);
        let below_b = drawn_all(b, b[id].children, (depth - 1) as nat);
        if below_a is Some {
            lemma_outlines_len(below_a->0);
            lemma_outlines_len(below_b->0);
        }
    }
}

/// The same of the trees below each of `ids`.
pub proof fn lemma_outlines_ignore_readings(
    a: Map<i32, Record>,
    b: Map<i32, Record>,
    ids: Seq<i32>,
    depth: nat,
)
    requires
        same_edges(a, b),
    ensures
        outlines_if_drawn(drawn_all(a, ids, depth)) == outlines_if_drawn(drawn_all(b, ids, depth)),
    decreases depth, 1 + ids.len(),
{
    if ids.len() > 0 {
        lemma_outlines_ignore_readings(a, b, ids.drop_last(), depth);
        lemma_outline_ignores_readings(a, b, ids.last(), depth);
        let before_a = drawn_all(a, ids.drop_last(), depth);
        let before_b = drawn_all(b, ids.drop_last(), depth);
        let last_a = drawn(a, ids.last(), depth);
        let last_b = drawn(b, ids.last(), depth);
        if before_a is Some && last_a is Some {
            assert(before_a->0.push(last_a->0).drop_last() =~= before_a->0);
            assert(before_b->0.push(last_b->0).drop_last() =~= before_b->0);
        }
    }
}

/// There are as many outlines as there are trees.
proof fn lemma_outlines_len(trees: Seq<Tree>)
    ensures
        outlines(trees).len() == trees.len(),
    decreases trees.len(),
{
    if trees.len() > 0 {
        lemma_outlines_len(trees.drop_last());
    }
}

} // verus!
