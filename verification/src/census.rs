//! Who is in the graph: in the graph of a table that is a tree, every process
//! of the table appears, and none appears twice.

use crate::graph::{drawn, drawn_all, graph, lemma_graph_exists, Tree};
use crate::shape::{closed, edge, is_tree, one_parent, ranked};
use crate::table::Record;
use vstd::prelude::*;

verus! {

/// The ids of `tree`: its own, then those of the trees below it in their
/// order.
pub open spec fn members(tree: Tree) -> Seq<i32>
    decreases tree,
{
    match tree.children {
        Some(below) => seq![tree.id] + members_all(below),
        None => seq![tree.id],
    }
}

/// The ids of `trees`, tree by tree.
pub open spec fn members_all(trees: Seq<Tree>) -> Seq<i32>
    decreases trees,
{
    if trees.len() == 0 {
        Seq::empty()
    } else {
        members_all(trees.drop_last()) + members(trees.last())
    }
}

/// The ids of the tree that `table` holds below `id`, less than `depth`
/// records deep.
pub open spec fn listed(table: Map<i32, Record>, id: i32, depth: nat) -> Seq<i32>
    decreases depth, 0nat,
{
    if depth == 0 || !table.contains_key(id) {
        Seq::empty()
    } else {
        seq![id] + listed_all(table, table[id].children, (depth - 1) as nat)
    }
}

/// The ids of the trees that `table` holds below each of `ids`.
pub open spec fn listed_all(table: Map<i32, Record>, ids: Seq<i32>, depth: nat) -> Seq<i32>
    decreases depth, 1 + ids.len(),
{
    if ids.len() == 0 {
        Seq::empty()
    } else {
        listed_all(table, ids.drop_last(), depth) + listed(table, ids.last(), depth)
    }
}

/// The table is finite, every child has a record, and `rank` ranks the ids.
pub open spec fn orderly(table: Map<i32, Record>, rank: spec_fn(i32) -> nat) -> bool {
    table.dom().finite() && closed(table) && ranked(table, rank)
}

/// `id` has a record, and `depth` is enough to reach every descendant of it.
pub open spec fn within(
    table: Map<i32, Record>,
    rank: spec_fn(i32) -> nat,
    id: i32,
    depth: nat,
) -> bool {
    table.contains_key(id) && depth + rank(id) >= table.dom().len()
}

/// The ids of a tree that is drawn are those that are listed.
proof fn lemma_members_are_listed(table: Map<i32, Record>, id: i32, depth: nat)
    requires
        drawn(table, id, depth) is Some,
    ensures
        members(drawn(table, id, depth)->0) == listed(table, id, depth),
    decreases depth, 0nat,
{
    let below = drawn_all(table, table[id].children, (depth - 1) as nat);
    lemma_members_all_are_listed(table, table[id].children, (depth - 1) as nat);
    if below->0.len() == 0 {
        assert(members_all(below->0) =~= Seq::<i32>::empty());
        assert(listed(table, id, depth) =~= seq![id]);
    }
}

/// The same of the trees below each of `ids`.
proof fn lemma_members_all_are_listed(table: Map<i32, Record>, ids: Seq<i32>, depth: nat)
    requires
        drawn_all(table, ids, depth) is Some,
    ensures
        members_all(drawn_all(table, ids, depth)->0) == listed_all(table, ids, depth),
    decreases depth, 1 + ids.len(),
{
    if ids.len() > 0 {
        let before = drawn_all(table, ids.drop_last(), depth)->0;
        let last = drawn(table, ids.last(), depth)->0;
        lemma_members_all_are_listed(table, ids.drop_last(), depth);
        lemma_members_are_listed(table, ids.last(), depth);
        assert(before.push(last).drop_last() =~= before);
    }
}

/// An id is listed below `ids` exactly if it is listed below one of them.
proof fn lemma_listed_all(table: Map<i32, Record>, ids: Seq<i32>, depth: nat, x: i32)
    ensures
        listed_all(table, ids, depth).contains(x) <==> exists|k: int|
            0 <= k < ids.len() && #[trigger] listed(table, ids[k], depth).contains(x),
    decreases ids.len(),
{
    if ids.len() > 0 {
        let before = listed_all(table, ids.drop_last(), depth);
        let last = listed(table, ids.last(), depth);
        lemma_listed_all(table, ids.drop_last(), depth, x);
        lemma_concat_contains(before, last, x);
        if before.contains(x) {
            let k = choose|k: int|
                0 <= k < ids.drop_last().len() && #[trigger] listed(
                    table,
                    ids.drop_last()[k],
                    depth,
                ).contains(x);
            assert(ids[k] == ids.drop_last()[k]);
        }
        if last.contains(x) {
            assert(ids[ids.len() - 1] == ids.last());
        }
        if exists|k: int| 0 <= k < ids.len() && #[trigger] listed(table, ids[k], depth).contains(x) {
            let k = choose|k: int|
                0 <= k < ids.len() && #[trigger] listed(table, ids[k], depth).contains(x);
            if k < ids.len() - 1 {
                assert(ids.drop_last()[k] == ids[k]);
            }
        }
    }
}

/// A sequence made of two holds what one of the two holds.
proof fn lemma_concat_contains(a: Seq<i32>, b: Seq<i32>, x: i32)
    ensures
        (a + b).contains(x) <==> a.contains(x) || b.contains(x),
{
    if a.contains(x) {
        let i = choose|i: int| 0 <= i < a.len() && a[i] == x;
        assert((a + b)[i] == x);
    }
    if b.contains(x) {
        let i = choose|i: int| 0 <= i < b.len() && b[i] == x;
        assert((a + b)[a.len() + i] == x);
    }
    if (a + b).contains(x) {
        let i = choose|i: int| 0 <= i < (a + b).len() && (a + b)[i] == x;
        if i < a.len() {
            assert(a[i] == x);
        } else {
            assert(b[i - a.len()] == x);
        }
    }
}

/// What is listed below `id` is `id` itself or listed below one of its
/// children.
proof fn lemma_listed(table: Map<i32, Record>, rank: spec_fn(i32) -> nat, id: i32, depth: nat, x: i32)
    requires
        orderly(table, rank),
        within(table, rank, id, depth),
    ensures
        depth > 0,
        listed(table, id, depth).contains(id),
        listed(table, id, depth).contains(x) <==> x == id || exists|k: int|
            0 <= k < table[id].children.len() && #[trigger] listed(
                table,
                table[id].children[k],
                (depth - 1) as nat,
            ).contains(x),
        forall|k: int|
            0 <= k < table[id].children.len() ==> within(
                table,
                rank,
                #[trigger] table[id].children[k],
                (depth - 1) as nat,
            ),
{
    assert(rank(id) < table.dom().len());
    let below = listed_all(table, table[id].children, (depth - 1) as nat);
    lemma_concat_contains(seq![id], below, x);
    lemma_concat_contains(seq![id], below, id);
    assert(seq![id][0] == id);
    lemma_listed_all(table, table[id].children, (depth - 1) as nat, x);
    assert(seq![id].contains(x) <==> x == id);
}

/// What is listed below `id` has a record, and ranks above `id` unless it is
/// `id` itself.
proof fn lemma_listed_ranks(
    table: Map<i32, Record>,
    rank: spec_fn(i32) -> nat,
    id: i32,
    depth: nat,
    x: i32,
)
    requires
        orderly(table, rank),
        within(table, rank, id, depth),
        listed(table, id, depth).contains(x),
    ensures
        table.contains_key(x),
        x == id || rank(x) > rank(id),
        x != id ==> exists|parent: i32, at: int| edge(table, parent, at, x),
    decreases depth,
{
    lemma_listed(table, rank, id, depth, x);
    if x != id {
        let k = choose|k: int|
            0 <= k < table[id].children.len() && #[trigger] listed(
                table,
                table[id].children[k],
                (depth - 1) as nat,
            ).contains(x);
        let child = table[id].children[k];
        assert(rank(id) < rank(child));
        lemma_listed_ranks(table, rank, child, (depth - 1) as nat, x);
        if x == child {
            assert(edge(table, id, k, x));
        }
    }
}

/// With a process, its children are listed.
proof fn lemma_listed_children(
    table: Map<i32, Record>,
    rank: spec_fn(i32) -> nat,
    id: i32,
    depth: nat,
    parent: i32,
    at: int,
    child: i32,
)
    requires
        orderly(table, rank),
        within(table, rank, id, depth),
        listed(table, id, depth).contains(parent),
        edge(table, parent, at, child),
    ensures
        listed(table, id, depth).contains(child),
    decreases depth,
{
    lemma_listed(table, rank, id, depth, parent);
    lemma_listed(table, rank, id, depth, child);
    if parent == id {
        let below = table[id].children[at];
        lemma_listed(table, rank, below, (depth - 1) as nat, below);
    } else {
        let k = choose|k: int|
            0 <= k < table[id].children.len() && #[trigger] listed(
                table,
                table[id].children[k],
                (depth - 1) as nat,
            ).contains(parent);
        lemma_listed_children(table, rank, table[id].children[k], (depth - 1) as nat, parent, at, child);
    }
}

/// With a process other than `id`, its parent is listed.
proof fn lemma_listed_parent(
    table: Map<i32, Record>,
    rank: spec_fn(i32) -> nat,
    root: i32,
    id: i32,
    depth: nat,
    parent: i32,
    at: int,
    child: i32,
)
    requires
        orderly(table, rank),
        one_parent(table, root),
        within(table, rank, id, depth),
        listed(table, id, depth).contains(child),
        child != id,
        edge(table, parent, at, child),
    ensures
        listed(table, id, depth).contains(parent),
    decreases depth,
{
    lemma_listed(table, rank, id, depth, child);
    lemma_listed(table, rank, id, depth, parent);
    let k = choose|k: int|
        0 <= k < table[id].children.len() && #[trigger] listed(
            table,
            table[id].children[k],
            (depth - 1) as nat,
        ).contains(child);
    let below = table[id].children[k];
    if child == below {
        assert(edge(table, id, k, child));
    } else {
        lemma_listed_parent(table, rank, root, below, (depth - 1) as nat, parent, at, child);
    }
}

/// No process is listed below two children of one process.
proof fn lemma_siblings_apart(
    table: Map<i32, Record>,
    rank: spec_fn(i32) -> nat,
    root: i32,
    id: i32,
    depth: nat,
    i: int,
    j: int,
    x: i32,
)
    requires
        orderly(table, rank),
        one_parent(table, root),
        table.contains_key(id),
        0 <= i < table[id].children.len(),
        0 <= j < table[id].children.len(),
        i != j,
        within(table, rank, table[id].children[i], depth),
        within(table, rank, table[id].children[j], depth),
    ensures
        !(listed(table, table[id].children[i], depth).contains(x) && listed(
            table,
            table[id].children[j],
            depth,
        ).contains(x)),
    decreases rank(x),
{
    let a = table[id].children[i];
    let b = table[id].children[j];
    if listed(table, a, depth).contains(x) && listed(table, b, depth).contains(x) {
        assert(edge(table, id, i, a));
        assert(edge(table, id, j, b));
        assert(rank(id) < rank(a));
        assert(rank(id) < rank(b));
        lemma_listed_ranks(table, rank, a, depth, x);
        lemma_listed_ranks(table, rank, b, depth, x);
        if x == a {
            assert(x != b);
            lemma_listed_parent(table, rank, root, b, depth, id, i, x);
            lemma_listed_ranks(table, rank, b, depth, id);
        } else if x == b {
            lemma_listed_parent(table, rank, root, a, depth, id, j, x);
            lemma_listed_ranks(table, rank, a, depth, id);
        } else {
            let (parent, at) = choose|parent: i32, at: int| edge(table, parent, at, x);
            assert(rank(parent) < rank(table[parent].children[at]));
            lemma_listed_parent(table, rank, root, a, depth, parent, at, x);
            lemma_listed_parent(table, rank, root, b, depth, parent, at, x);
            lemma_siblings_apart(table, rank, root, id, depth, i, j, parent);
        }
    }
}

/// No process is listed twice below `id`.
proof fn lemma_listed_once(
    table: Map<i32, Record>,
    rank: spec_fn(i32) -> nat,
    root: i32,
    id: i32,
    depth: nat,
)
    requires
        orderly(table, rank),
        one_parent(table, root),
        within(table, rank, id, depth),
    ensures
        listed(table, id, depth).no_duplicates(),
    decreases depth, 0nat,
{
    lemma_listed(table, rank, id, depth, id);
    let children = table[id].children;
    let below = listed_all(table, children, (depth - 1) as nat);
    lemma_listed_all_once(table, rank, root, id, (depth - 1) as nat, children.len() as int);
    assert(children.take(children.len() as int) =~= children);
    assert forall|k: int| 0 <= k < below.len() implies id != below[k] by {
        let x = below[k];
        assert(below.contains(x));
        lemma_listed_all(table, children, (depth - 1) as nat, x);
        let c = choose|c: int|
            0 <= c < children.len() && #[trigger] listed(table, children[c], (depth - 1) as nat).contains(
                x,
            );
        assert(rank(id) < rank(children[c]));
        lemma_listed_ranks(table, rank, children[c], (depth - 1) as nat, x);
    }
    vstd::seq_lib::lemma_no_dup_in_concat(seq![id], below);
}

/// No process is listed twice below the first `upto` children of `id`.
proof fn lemma_listed_all_once(
    table: Map<i32, Record>,
    rank: spec_fn(i32) -> nat,
    root: i32,
    id: i32,
    depth: nat,
    upto: int,
)
    requires
        orderly(table, rank),
        one_parent(table, root),
        within(table, rank, id, depth + 1),
        0 <= upto <= table[id].children.len(),
    ensures
        listed_all(table, table[id].children.take(upto), depth).no_duplicates(),
    decreases depth, 1 + upto,
{
    let children = table[id].children;
    if upto > 0 {
        let ids = children.take(upto);
        let last = children[upto - 1];
        assert(ids.drop_last() =~= children.take(upto - 1));
        assert(ids.last() == last);
        lemma_listed(table, rank, id, depth + 1, id);
        lemma_listed_all_once(table, rank, root, id, depth, upto - 1);
        lemma_listed_once(table, rank, root, last, depth);
        let before = listed_all(table, ids.drop_last(), depth);
        let after = listed(table, last, depth);
        assert forall|p: int, q: int| 0 <= p < before.len() && 0 <= q < after.len() implies before[p]
            != after[q] by {
            let x = before[p];
            if x == after[q] {
                assert(before.contains(x));
                assert(after.contains(x));
                lemma_listed_all(table, ids.drop_last(), depth, x);
                let c = choose|c: int|
                    0 <= c < ids.drop_last().len() && #[trigger] listed(
                        table,
                        ids.drop_last()[c],
                        depth,
                    ).contains(x);
                assert(ids.drop_last()[c] == children[c]);
                lemma_siblings_apart(table, rank, root, id, depth, c, upto - 1, x);
            }
        }
        vstd::seq_lib::lemma_no_dup_in_concat(before, after);
    }
}

/// Every process of the table is listed below the root.
proof fn lemma_all_listed(table: Map<i32, Record>, rank: spec_fn(i32) -> nat, root: i32, x: i32)
    requires
        orderly(table, rank),
        one_parent(table, root),
        table.contains_key(root),
        table.contains_key(x),
    ensures
        listed(table, root, table.dom().len()).contains(x),
    decreases rank(x),
{
    let size = table.dom().len();
    lemma_listed(table, rank, root, size, x);
    if x != root {
        let (parent, at) = choose|parent: i32, at: int| edge(table, parent, at, x);
        assert(rank(parent) < rank(table[parent].children[at]));
        lemma_all_listed(table, rank, root, parent);
        lemma_listed_children(table, rank, root, size, parent, at, x);
    }
}

/// In the graph of a table that is a tree, every process of the table
/// appears exactly once: the graph has as many nodes as the table has
/// records.
pub proof fn lemma_graph_holds_everyone_once(table: Map<i32, Record>, root: i32)
    requires
        is_tree(table, root),
    ensures
        graph(table, root) is Some,
        members(graph(table, root)->0).no_duplicates(),
        members(graph(table, root)->0).to_set() == table.dom(),
        members(graph(table, root)->0).len() == table.dom().len(),
{
    let size = table.dom().len();
    let rank = choose|rank: spec_fn(i32) -> nat| ranked(table, rank);
    lemma_graph_exists(table, root);
    lemma_members_are_listed(table, root, size);
    let all = listed(table, root, size);
    lemma_listed_once(table, rank, root, root, size);
    assert(all.to_set() =~= table.dom()) by {
        assert forall|x: i32| all.contains(x) <==> table.contains_key(x) by {
            if all.contains(x) {
                lemma_listed_ranks(table, rank, root, size, x);
            }
            if table.contains_key(x) {
                lemma_all_listed(table, rank, root, x);
            }
        }
    }
    all.unique_seq_to_set();
}

} // verus!
