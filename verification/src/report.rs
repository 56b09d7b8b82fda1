//! The result of a run: which memory readings count, their sum, and the
//! record that is written out at the end.
//!
//! A new process shares its parent's pages until one of the two writes to
//! them, so adding up every process's reading would count the same memory
//! many times. The sum therefore takes the reading of the root tracee, and of
//! every process that went on to have children of its own.

use crate::graph::{graph, lemma_outline_ignores_readings, outline_if_drawn, tree, Node};
use crate::census::{lemma_graph_holds_everyone_once, members};
use crate::shape::{is_tree, same_edges};
use crate::table::{ProcTable, Record};
use vstd::prelude::*;
use vstd::set_lib::lemma_len_subset;

verus! {

/// Whether the reading of `id` is part of the sum: `id` has a record, and is
/// the root tracee or has at least one child.
pub open spec fn counts(table: Map<i32, Record>, root: i32, id: i32) -> bool {
    table.contains_key(id) && (id == root || table[id].children.len() > 0)
}

/// The ids whose readings are part of the sum.
pub open spec fn counted(table: Map<i32, Record>, root: i32) -> Set<i32> {
    Set::new(|id: i32| counts(table, root, id))
}

/// The sum of the readings of `ids`.
pub open spec fn sum_rss(table: Map<i32, Record>, ids: Set<i32>) -> int {
    ids.fold(0int, |sum: int, id: i32| sum + table[id].rss)
}

/// The sum of the readings that count, each taken once.
pub open spec fn total_rss(table: Map<i32, Record>, root: i32) -> int {
    sum_rss(table, counted(table, root))
}

/// The result of a run.
#[derive(Debug, PartialEq, Eq)]
pub struct Report {
    /// The sum of the readings that count, in bytes.
    pub max_rss: u64,
    /// The number of processes that were seen.
    pub total_pids: u64,
    /// The number of processes whose readings are part of the sum.
    pub total_reads: u64,
    /// The exit code of the root tracee, where the supervisor was asked to
    /// hand it on.
    pub exit_code: Option<i32>,
    /// The process tree below the root tracee.
    pub graph: Node,
}

/// Why no report can be drawn up.
#[derive(Debug, Clone, Copy, PartialEq, Eq, Structural)]
pub enum ReportError {
    /// The sum of the readings does not fit in sixty-four bits.
    TooLarge,
    /// The records do not hold a graph below the root tracee: the root or one
    /// of its descendants has no record, or a record descends from itself.
    NoGraph,
}

/// No more readings are part of the sum than there are records.
pub proof fn lemma_reads_within_pids(table: Map<i32, Record>, root: i32)
    requires
        table.dom().finite(),
    ensures
        counted(table, root).finite(),
        counted(table, root).len() <= table.dom().len(),
{
    assert(counted(table, root).subset_of(table.dom()));
    lemma_len_subset(counted(table, root), table.dom());
}

/// Two tables with the same ids and the same children give reports with the
/// same number of processes, the same readings counted, and the same graph
/// but for the readings themselves.
pub proof fn lemma_report_ignores_readings(a: Map<i32, Record>, b: Map<i32, Record>, root: i32)
    requires
        same_edges(a, b),
    ensures
        a.dom().len() == b.dom().len(),
        counted(a, root) == counted(b, root),
        outline_if_drawn(graph(a, root)) == outline_if_drawn(graph(b, root)),
{
    assert(counted(a, root) =~= counted(b, root)) by {
        assert forall|id: i32| counts(a, root, id) == counts(b, root, id) by {
            if a.contains_key(id) {
                assert(a[id].children == b[id].children);
            }
        }
    }
    lemma_outline_ignores_readings(a, b, root, a.dom().len());
}

/// Draws up the report of a run from its process table, the id of the root
/// tracee, and the exit code to be handed on, if any.
///
/// Where the table is a tree below the root tracee, the graph can be drawn,
/// and it has as many nodes as the table has records.
pub fn summarize(table: &ProcTable, root: i32, exit_code: Option<i32>) -> (result: Result<
    Report,
    ReportError,
>)
    ensures
        match result {
            Ok(report) => {
                &&& report.max_rss == total_rss(table@, root)
                &&& report.total_pids == table@.dom().len()
                &&& report.total_reads == counted(table@, root).len()
                &&& report.total_reads <= report.total_pids
                &&& report.exit_code == exit_code
                &&& graph(table@, root) == Some(report.graph@)
            },
            Err(ReportError::TooLarge) => total_rss(table@, root) > u64::MAX,
            Err(ReportError::NoGraph) => {
                &&& total_rss(table@, root) <= u64::MAX
                &&& graph(table@, root) is None
            },
        },
        is_tree(table@, root) ==> result != Err::<Report, ReportError>(ReportError::NoGraph),
        is_tree(table@, root) && result is Ok ==> members(result->Ok_0.graph@).len()
            == result->Ok_0.total_pids,
{
    let ids = table.ids();
    let ghost add = |sum: int, id: i32| sum + table@[id].rss;
    let ghost mut seen: Set<i32> = Set::empty();
    let mut sum: u128 = 0;
    let mut reads: usize = 0;
    let mut i: usize = 0;
    proof {
        table.lemma_finite();
        vstd::set::fold::lemma_fold_empty(0int, add);
    }
    while i < ids.len()
        invariant
            i <= ids.len(),
            ids@.no_duplicates(),
            ids@.to_set() == table@.dom(),
            ids@.len() <= usize::MAX,
            add == (|sum: int, id: i32| sum + table@[id].rss),
            seen.finite(),
            forall|id: i32|
                seen.contains(id) <==> counts(table@, root, id) && exists|j: int|
                    0 <= j < i && #[trigger] ids@[j] == id,
            sum == seen.fold(0int, add),
            sum <= i * u64::MAX,
            reads == seen.len(),
            reads <= i,
        decreases ids.len() - i,
    {
        let id = ids[i];
        assert(ids@.to_set().contains(id));
        let (selected, rss) = match table.get(id) {
            Some(info) => (id == root || info.children.len() > 0, info.rss),
            None => (false, 0),
        };
        let ghost before = seen;
        if selected {
            proof {
                assert(!seen.contains(id)) by {
                    if seen.contains(id) {
                        let j = choose|j: int| 0 <= j < i && #[trigger] ids@[j] == id;
                        assert(ids@[j] == ids@[i as int]);
                    }
                }
                assert(vstd::set::fold::is_fun_commutative(add));
                vstd::set::fold::lemma_fold_insert(seen, 0int, add, id);
                seen = seen.insert(id);
                assert(i * u64::MAX + u64::MAX == (i + 1) * u64::MAX) by (nonlinear_arith);
                assert(i * u64::MAX <= usize::MAX * u64::MAX) by (nonlinear_arith)
                    requires
                        i <= usize::MAX,
                ;
            }
            sum = sum + rss as u128;
            reads = reads + 1;
        } else {
            proof {
                assert(i * u64::MAX <= (i + 1) * u64::MAX) by (nonlinear_arith);
            }
        }
        proof {
            assert forall|x: i32|
                seen.contains(x) <==> counts(table@, root, x) && exists|j: int|
                    0 <= j < i + 1 && #[trigger] ids@[j] == x by {
                if seen.contains(x) && x != id {
                    assert(before.contains(x));
                    let j = choose|j: int| 0 <= j < i && #[trigger] ids@[j] == x;
                    assert(0 <= j < i + 1 && ids@[j] == x);
                }
                if seen.contains(x) && x == id {
                    assert(ids@[i as int] == x);
                }
                if counts(table@, root, x) && exists|j: int| 0 <= j < i + 1 && #[trigger] ids@[j] == x {
                    let j = choose|j: int| 0 <= j < i + 1 && #[trigger] ids@[j] == x;
                    if j < i {
                        assert(before.contains(x));
                    }
                }
            }
        }
        i += 1;
    }
    proof {
        assert(seen =~= counted(table@, root)) by {
            assert forall|id: i32| counts(table@, root, id) implies seen.contains(id) by {
                assert(ids@.to_set().contains(id));
                let j = choose|j: int| 0 <= j < ids@.len() && ids@[j] == id;
                assert(0 <= j < i && ids@[j] == id);
            }
        }
        lemma_reads_within_pids(table@, root);
        if is_tree(table@, root) {
            lemma_graph_holds_everyone_once(table@, root);
        }
    }
    if sum > u64::MAX as u128 {
        return Err(ReportError::TooLarge);
    }
    match tree(root, table) {
        Some(graph) => Ok(
            Report {
                max_rss: sum as u64,
                total_pids: table.len() as u64,
                total_reads: reads as u64,
                exit_code,
                graph,
            },
        ),
        None => Err(ReportError::NoGraph),
    }
}

} // verus!
