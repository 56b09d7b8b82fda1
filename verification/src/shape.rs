//! The shape of the process table: when its records form a tree below the
//! root tracee, and which changes keep them one.

use crate::table::{amend, Record};
use vstd::prelude::*;

verus! {

/// In `table`, `child` is the child of `parent` at place `at`.
pub open spec fn edge(table: Map<i32, Record>, parent: i32, at: int, child: i32) -> bool {
    &&& table.contains_key(parent)
    &&& 0 <= at < table[parent].children.len()
    &&& table[parent].children[at] == child
}

/// Every id that a record of `table` names as a child has a record itself.
pub open spec fn closed(table: Map<i32, Record>) -> bool {
    forall|parent: i32, at: int|
        table.contains_key(parent) && 0 <= at < table[parent].children.len()
            ==> table.contains_key(#[trigger] table[parent].children[at])
}

/// `root` is nobody's child, and every other id of `table` is the child of
/// exactly one record, at exactly one place.
pub open spec fn one_parent(table: Map<i32, Record>, root: i32) -> bool {
    &&& forall|parent: i32, at: int|
        table.contains_key(parent) && 0 <= at < table[parent].children.len()
            ==> #[trigger] table[parent].children[at] != root
    &&& forall|child: i32|
        table.contains_key(child) && child != root ==> exists|parent: i32, at: int|
            edge(table, parent, at, child)
    &&& forall|child: i32, first: i32, here: int, second: i32, there: int|
        edge(table, first, here, child) && edge(table, second, there, child) ==> first == second
            && here == there
}

/// `rank` numbers the ids of `table` below the table's size, and every child
/// above its parent.
pub open spec fn ranked(table: Map<i32, Record>, rank: spec_fn(i32) -> nat) -> bool {
    &&& forall|id: i32| table.contains_key(id) ==> #[trigger] rank(id) < table.dom().len()
    &&& forall|parent: i32, at: int|
        table.contains_key(parent) && 0 <= at < table[parent].children.len() ==> rank(parent)
            < rank(#[trigger] table[parent].children[at])
}

/// No record of `table` is its own descendant.
pub open spec fn acyclic(table: Map<i32, Record>) -> bool {
    exists|rank: spec_fn(i32) -> nat| ranked(table, rank)
}

/// The records of `table` form a tree with `root` at the top: every child has
/// a record, nothing descends from itself, and every id but `root` has
/// exactly one parent.
pub open spec fn is_tree(table: Map<i32, Record>, root: i32) -> bool {
    &&& table.dom().finite()
    &&& table.contains_key(root)
    &&& closed(table)
    &&& one_parent(table, root)
    &&& acyclic(table)
}

/// `after` has the ids of `before`, and each of them the children it had.
pub open spec fn same_edges(before: Map<i32, Record>, after: Map<i32, Record>) -> bool {
    &&& before.dom() == after.dom()
    &&& forall|id: i32| before.contains_key(id) ==> (#[trigger] before[id]).children == after[id].children
}

/// `after` has the ids of `before`, and each record is what it was but for
/// the memory reading.
pub open spec fn same_but_readings(before: Map<i32, Record>, after: Map<i32, Record>) -> bool {
    &&& before.dom() == after.dom()
    &&& forall|id: i32|
        before.contains_key(id) ==> (#[trigger] before[id]).children == after[id].children
            && before[id].exited == after[id].exited
}

/// A table that holds only the fresh record of `root` is a tree.
pub proof fn lemma_root_alone_is_tree(root: i32)
    ensures
        is_tree(Map::<i32, Record>::empty().insert(root, Record::fresh()), root),
{
    let table = Map::<i32, Record>::empty().insert(root, Record::fresh());
    assert(table.dom() =~= set![root]);
    let rank = |id: i32| 0nat;
    assert(ranked(table, rank));
}

/// A table stays a tree when records change but no list of children does.
pub proof fn lemma_same_edges_same_tree(before: Map<i32, Record>, after: Map<i32, Record>, root: i32)
    requires
        is_tree(before, root),
        same_edges(before, after),
    ensures
        is_tree(after, root),
{
    assert forall|parent: i32, at: int|
        after.contains_key(parent) && 0 <= at < after[parent].children.len() implies after.contains_key(
        #[trigger] after[parent].children[at],
    ) && after[parent].children[at] != root by {
        assert(before[parent].children[at] == after[parent].children[at]);
    }
    assert forall|child: i32| after.contains_key(child) && child != root implies exists|
        parent: i32,
        at: int,
    |
        edge(after, parent, at, child) by {
        let (parent, at) = choose|parent: i32, at: int| edge(before, parent, at, child);
        assert(before[parent].children == after[parent].children);
        assert(edge(after, parent, at, child));
    }
    assert forall|child: i32, first: i32, here: int, second: i32, there: int|
        edge(after, first, here, child) && edge(after, second, there, child) implies first == second && here == there by {
        assert(before[first].children == after[first].children);
        assert(before[second].children == after[second].children);
        assert(edge(before, first, here, child) && edge(before, second, there, child));
    }
    let rank = choose|rank: spec_fn(i32) -> nat| ranked(before, rank);
    assert(ranked(after, rank)) by {
        assert forall|parent: i32, at: int|
            after.contains_key(parent) && 0 <= at < after[parent].children.len() implies rank(parent)
            < rank(#[trigger] after[parent].children[at]) by {
            assert(before[parent].children[at] == after[parent].children[at]);
        }
    }
}

/// Marking a record as exited, or storing a memory reading in it, leaves the
/// lists of children as they were.
pub proof fn lemma_amend_same_edges(table: Map<i32, Record>, id: i32, f: spec_fn(Record) -> Record)
    requires
        forall|r: Record| (#[trigger] f(r)).children == r.children,
    ensures
        same_edges(table, amend(table, id, f)),
{
    assert(amend(table, id, f).dom() =~= table.dom());
}

/// Every child keeps its record when records change but no list of children
/// does.
pub proof fn lemma_same_edges_closed(before: Map<i32, Record>, after: Map<i32, Record>)
    requires
        closed(before),
        same_edges(before, after),
    ensures
        closed(after),
{
    assert forall|parent: i32, at: int|
        after.contains_key(parent) && 0 <= at < after[parent].children.len() implies after.contains_key(
        #[trigger] after[parent].children[at],
    ) by {
        assert(before[parent].children[at] == after[parent].children[at]);
    }
}

/// The table after the discovery of `child` as a new child of `parent`.
pub open spec fn with_child(table: Map<i32, Record>, parent: i32, child: i32) -> Map<i32, Record> {
    amend(table.insert(child, Record::fresh()), parent, |r: Record| r.parent_of(child))
}

/// Every child keeps its record when a process gets a child, whether or not
/// the child had a record before.
pub proof fn lemma_new_child_closed(table: Map<i32, Record>, parent: i32, child: i32)
    requires
        closed(table),
    ensures
        closed(with_child(table, parent, child)),
        with_child(table, parent, child).dom() == table.dom().insert(child),
{
    let grown = table.insert(child, Record::fresh());
    let after = with_child(table, parent, child);
    assert(after.dom() =~= table.dom().insert(child));
    assert forall|p: i32, a: int|
        after.contains_key(p) && 0 <= a < after[p].children.len() implies after.contains_key(
        #[trigger] after[p].children[a],
    ) by {
        if p == parent {
            if a < grown[p].children.len() {
                assert(after[p].children[a] == grown[p].children[a]);
                if p != child {
                    assert(table.contains_key(table[p].children[a]));
                }
            }
        } else if p != child {
            assert(after[p] == table[p]);
            assert(table.contains_key(table[p].children[a]));
        }
    }
}

/// A tree stays a tree when a process that has a record gets a child that
/// had none.
pub proof fn lemma_new_child_keeps_tree(table: Map<i32, Record>, root: i32, parent: i32, child: i32)
    requires
        is_tree(table, root),
        table.contains_key(parent),
        !table.contains_key(child),
    ensures
        is_tree(with_child(table, parent, child), root),
{
    let after = with_child(table, parent, child);
    let last = table[parent].children.len() as int;
    assert(after.dom() =~= table.dom().insert(child));
    assert(after[parent].children == table[parent].children.push(child));
    assert(after[child].children == Seq::<i32>::empty());
    assert forall|id: i32| table.contains_key(id) && id != parent implies #[trigger] after[id]
        == table[id] by {}
    // an edge of the new table is an edge of the old one, or the new edge
    assert forall|p: i32, a: int, c: i32| #[trigger] edge(after, p, a, c) implies edge(table, p, a, c)
        || (p == parent && a == last && c == child) by {
        if p == parent {
            if a != last {
                assert(table[parent].children[a] == after[parent].children[a]);
            }
        } else {
            assert(p != child);
            assert(after[p] == table[p]);
        }
    }
    assert forall|p: i32, a: int, c: i32| #[trigger] edge(table, p, a, c) implies edge(after, p, a, c) by {
        if p == parent {
            assert(table[parent].children[a] == after[parent].children[a]);
        } else {
            assert(after[p] == table[p]);
        }
    }
    assert(edge(after, parent, last, child));
    assert(closed(after)) by {
        assert forall|p: i32, a: int|
            after.contains_key(p) && 0 <= a < after[p].children.len() implies after.contains_key(
            #[trigger] after[p].children[a],
        ) by {
            let c = after[p].children[a];
            assert(edge(after, p, a, c));
            if edge(table, p, a, c) {
                assert(table.contains_key(table[p].children[a]));
            }
        }
    }
    assert(one_parent(after, root)) by {
        assert forall|p: i32, a: int|
            after.contains_key(p) && 0 <= a < after[p].children.len() implies #[trigger] after[p].children[a]
            != root by {
            let c = after[p].children[a];
            assert(edge(after, p, a, c));
            if edge(table, p, a, c) {
                assert(table[p].children[a] != root);
            }
        }
        assert forall|c: i32| after.contains_key(c) && c != root implies exists|p: i32, a: int|
            edge(after, p, a, c) by {
            if c == child {
                assert(edge(after, parent, last, c));
            } else {
                let (p, a) = choose|p: i32, a: int| edge(table, p, a, c);
                assert(edge(after, p, a, c));
            }
        }
        assert forall|c: i32, first: i32, here: int, second: i32, there: int|
            edge(after, first, here, c) && edge(after, second, there, c) implies first == second && here == there by {
            if edge(table, first, here, c) {
                assert(table.contains_key(table[first].children[here]));
            }
            if edge(table, second, there, c) {
                assert(table.contains_key(table[second].children[there]));
            }
        }
    }
    let rank = choose|rank: spec_fn(i32) -> nat| ranked(table, rank);
    let size = table.dom().len();
    let grown = |id: i32|
        if id == child {
            size
        } else {
            rank(id)
        };
    assert(ranked(after, grown)) by {
        assert(after.dom().len() == size + 1);
        assert forall|id: i32| after.contains_key(id) implies #[trigger] grown(id)
            < after.dom().len() by {
            if id != child {
                assert(rank(id) < size);
            }
        }
        assert forall|p: i32, a: int|
            after.contains_key(p) && 0 <= a < after[p].children.len() implies grown(p) < grown(
            #[trigger] after[p].children[a],
        ) by {
            let c = after[p].children[a];
            assert(edge(after, p, a, c));
            assert(p != child);
            assert(rank(p) < size);
            if edge(table, p, a, c) {
                assert(table.contains_key(table[p].children[a]));
                assert(rank(p) < rank(table[p].children[a]));
            }
        }
    }
}

} // verus!
