//! What the event pump keeps to, step by step: its records stay, its tree
//! stays a tree, exit codes come from the root tracee alone, memory is read
//! once and steers nothing, and every pass comes to its end.

use crate::model::{
    attends, awaited, effect, follows, names_stranger, sound, Next, PumpView,
};
use crate::protocol::{Phase, Reply, Request, Status};
use crate::shape::{
    closed, is_tree, lemma_amend_same_edges, lemma_new_child_closed, lemma_new_child_keeps_tree,
    lemma_same_edges_closed, lemma_same_edges_same_tree, same_but_readings, with_child,
};
use crate::table::{alive, all_gone, amend, lists_alive, Record};
use vstd::prelude::*;

verus! {

/// How many replies the pump can still take before the pass must end.
pub open spec fn pass_left(s: PumpView) -> nat {
    4 * s.queue.len() + match s.phase {
        Phase::Polling(_) => 3nat,
        Phase::Probing(_) | Phase::Naming(_) => 2nat,
        Phase::Leaving(_) | Phase::Resuming(_) => 1nat,
        _ => 0nat,
    }
}

/// Whether the pump is in the middle of a pass.
pub open spec fn in_pass(s: PumpView) -> bool {
    s.phase is Polling || s.phase is Probing || s.phase is Naming || s.phase is Leaving
        || s.phase is Resuming
}

/// A step of the pump keeps every record, and keeps the pump sound.
pub proof fn lemma_step_sound(pre: PumpView, reply: Reply, post: PumpView, request: Request)
    requires
        sound(pre),
        follows(pre, reply, post, request),
    ensures
        sound(post),
        pre.table.dom().subset_of(post.table.dom()),
{
    let e = effect(pre, reply);
    lemma_effect_table(pre, reply);
    assert forall|i: int| 0 <= i < pre.queue.len() implies alive(e.table, #[trigger] pre.queue[i]) by {}
    match e.next {
        Next::Advance => {
            if pre.queue.len() > 0 {
                assert(!post.queue.contains(pre.queue.last()));
                assert forall|i: int| 0 <= i < post.queue.len() implies alive(
                    post.table,
                    #[trigger] post.queue[i],
                ) by {}
            }
        },
        Next::Begin => {
            if !all_gone(e.table) {
                let id = request->Poll_0;
                let all = post.queue.push(id);
                assert(all[post.queue.len() as int] == id);
                assert(all.contains(id));
                assert forall|i: int| 0 <= i < post.queue.len() implies alive(
                    post.table,
                    #[trigger] post.queue[i],
                ) by {
                    assert(all[i] == post.queue[i]);
                }
                assert(post.queue.no_duplicates()) by {
                    assert forall|i: int, j: int|
                        0 <= i < post.queue.len() && 0 <= j < post.queue.len() && i != j implies post.queue[i]
                        != post.queue[j] by {
                        assert(all[i] == post.queue[i] && all[j] == post.queue[j]);
                    }
                }
                assert(!post.queue.contains(id)) by {
                    if post.queue.contains(id) {
                        let i = choose|i: int| 0 <= i < post.queue.len() && post.queue[i] == id;
                        assert(all[i] == all[post.queue.len() as int]);
                    }
                }
            }
        },
        _ => {},
    }
}

/// The table that a reply leaves behind holds every record that was there,
/// and a record of every child.
proof fn lemma_effect_table(s: PumpView, reply: Reply)
    requires
        sound(s),
    ensures
        closed(effect(s, reply).table),
        effect(s, reply).table.dom().finite(),
        s.table.dom().subset_of(effect(s, reply).table.dom()),
        forall|id: i32|
            s.table.contains_key(id) && names_stranger(s, reply) && (#[trigger] s.table[id]).exited
                ==> effect(s, reply).table[id].exited,
        forall|id: i32|
            alive(s.table, id) && awaited(s) != Some(id) ==> #[trigger] alive(
                effect(s, reply).table,
                id,
            ),
        effect(s, reply).next matches Next::Ask(_, phase) && (phase is Configuring
            || phase is Starting || phase is Probing || phase is Naming || phase is Resuming)
            ==> alive(effect(s, reply).table, awaited(s)->0),
{
    let e = effect(s, reply);
    let gone = |r: Record| r.gone();
    match s.phase {
        Phase::Polling(id) => {
            lemma_amend_same_edges(s.table, id, gone);
            lemma_same_edges_closed(s.table, amend(s.table, id, gone));
        },
        Phase::Probing(id) => {
            match reply {
                Reply::Rss(bytes) => {
                    let probe = |r: Record| r.measured(bytes);
                    let measured = amend(s.table, id, probe);
                    lemma_amend_same_edges(s.table, id, probe);
                    lemma_same_edges_closed(s.table, measured);
                    lemma_amend_same_edges(measured, id, gone);
                    lemma_same_edges_closed(measured, amend(measured, id, gone));
                },
                _ => {
                    lemma_amend_same_edges(s.table, id, gone);
                    lemma_same_edges_closed(s.table, amend(s.table, id, gone));
                },
            }
        },
        Phase::Leaving(id) => {
            lemma_amend_same_edges(s.table, id, gone);
            lemma_same_edges_closed(s.table, amend(s.table, id, gone));
        },
        Phase::Naming(id) => {
            match reply {
                Reply::Child(child) => {
                    lemma_new_child_closed(s.table, id, child);
                },
                _ => {},
            }
        },
        _ => {},
    }
}

/// A step of the pump keeps the table a tree below the root tracee, as long
/// as every new child is a process that had no record.
pub proof fn lemma_step_keeps_tree(pre: PumpView, reply: Reply, post: PumpView, request: Request)
    requires
        sound(pre),
        follows(pre, reply, post, request),
        is_tree(pre.table, pre.root),
        names_stranger(pre, reply),
    ensures
        is_tree(post.table, post.root),
{
    let gone = |r: Record| r.gone();
    match pre.phase {
        Phase::Polling(id) => {
            lemma_amend_same_edges(pre.table, id, gone);
            lemma_same_edges_same_tree(pre.table, amend(pre.table, id, gone), pre.root);
        },
        Phase::Probing(id) => {
            match reply {
                Reply::Rss(bytes) => {
                    let probe = |r: Record| r.measured(bytes);
                    let measured = amend(pre.table, id, probe);
                    lemma_amend_same_edges(pre.table, id, probe);
                    lemma_same_edges_same_tree(pre.table, measured, pre.root);
                    lemma_amend_same_edges(measured, id, gone);
                    lemma_same_edges_same_tree(measured, amend(measured, id, gone), pre.root);
                },
                _ => {
                    lemma_amend_same_edges(pre.table, id, gone);
                    lemma_same_edges_same_tree(pre.table, amend(pre.table, id, gone), pre.root);
                },
            }
        },
        Phase::Leaving(id) => {
            lemma_amend_same_edges(pre.table, id, gone);
            lemma_same_edges_same_tree(pre.table, amend(pre.table, id, gone), pre.root);
        },
        Phase::Naming(id) => {
            match reply {
                Reply::Child(child) => {
                    lemma_new_child_keeps_tree(pre.table, pre.root, id, child);
                },
                _ => {},
            }
        },
        _ => {},
    }
}

/// A record that is marked as exited stays so, as long as every new child is
/// a process that had no record.
pub proof fn lemma_exited_stays(pre: PumpView, reply: Reply, post: PumpView, request: Request, id: i32)
    requires
        sound(pre),
        follows(pre, reply, post, request),
        names_stranger(pre, reply),
        pre.table.contains_key(id),
        pre.table[id].exited,
    ensures
        post.table.contains_key(id),
        post.table[id].exited,
{
    lemma_effect_table(pre, reply);
}

/// The exit code changes only when the root tracee is seen to have ended
/// while codes are handed on: then it is the code that the tracee exited
/// with, or 128 more than the number of the signal that killed it.
pub proof fn lemma_exit_code(pre: PumpView, reply: Reply, post: PumpView, request: Request)
    requires
        follows(pre, reply, post, request),
    ensures
        post.exit_code == if pre.propagate && pre.phase == Phase::Polling(pre.root) {
            match reply {
                Reply::Status(Status::Exited(code)) => code as int,
                Reply::Status(Status::Signaled(signal)) => 128 + signal,
                _ => pre.exit_code as int,
            }
        } else {
            pre.exit_code as int
        },
{
}

/// The pump asks for the memory reading of a process only while the record
/// of the process is not marked as exited. A reading is stored in the record
/// of the process that it was asked for, and that record is then marked as
/// exited, unless the process is the root tracee and its exit code is
/// wanted. No other reply changes the reading of a record, as long as every
/// new child is a process that had no record.
pub proof fn lemma_reads_once(pre: PumpView, reply: Reply, post: PumpView, request: Request)
    requires
        sound(pre),
        follows(pre, reply, post, request),
    ensures
        request matches Request::ReadRss(id) ==> alive(post.table, id) && post.phase
            == Phase::Probing(id),
        match (pre.phase, reply) {
            (Phase::Probing(id), Reply::Rss(bytes)) => {
                &&& post.table[id].rss == bytes
                &&& post.table[id].exited == !(id == pre.root && pre.propagate)
            },
            _ => true,
        },
        names_stranger(pre, reply) ==> forall|id: i32|
            pre.table.contains_key(id) && (#[trigger] post.table[id]).rss != pre.table[id].rss
                ==> pre.phase == Phase::Probing(id) && reply is Rss,
{
    lemma_step_sound(pre, reply, post, request);
}

/// Whether the replies `a` and `b` are the same but for a memory reading.
pub open spec fn same_but_reading(a: Reply, b: Reply) -> bool {
    a == b || (a is Rss && b is Rss)
}

/// Memory readings do not steer the pump: two pumps that differ in nothing
/// but the readings in their tables answer replies that differ in nothing
/// but a reading with the same request, and differ in nothing but readings
/// afterwards.
pub proof fn lemma_readings_do_not_steer(
    pre: PumpView,
    reply: Reply,
    post: PumpView,
    request: Request,
    other_pre: PumpView,
    other_reply: Reply,
)
    requires
        follows(pre, reply, post, request),
        same_but_readings(pre.table, other_pre.table),
        other_pre == (PumpView { table: other_pre.table, ..pre }),
        same_but_reading(reply, other_reply),
    ensures
        same_but_readings(post.table, effect(other_pre, other_reply).table),
        follows(
            other_pre,
            other_reply,
            PumpView { table: effect(other_pre, other_reply).table, ..post },
            request,
        ),
{
    let e = effect(pre, reply);
    let f = effect(other_pre, other_reply);
    assert(same_but_readings(e.table, f.table) && e.next == f.next && e.exit_code == f.exit_code) by {
        match (pre.phase, reply) {
            (Phase::Naming(id), Reply::Child(child)) => {
                assert(with_child(other_pre.table, id, child).dom()
                    =~= other_pre.table.dom().insert(child));
            },
            _ => {},
        }
    }
    assert(all_gone(e.table) == all_gone(f.table)) by {
        if all_gone(e.table) {
            assert forall|id: i32| f.table.contains_key(id) implies (#[trigger] f.table[id]).exited by {
                assert(e.table[id].exited);
            }
        }
        if all_gone(f.table) {
            assert forall|id: i32| e.table.contains_key(id) implies (#[trigger] e.table[id]).exited by {}
        }
    }
    assert forall|ids: Seq<i32>| lists_alive(e.table, ids) implies lists_alive(f.table, ids) by {
        assert forall|id: i32| ids.contains(id) <==> alive(f.table, id) by {}
    }
}

/// The pump finishes only when every record is marked as exited; and at the
/// start of a pass, it finishes whenever that is so.
pub proof fn lemma_finish(pre: PumpView, reply: Reply, post: PumpView, request: Request)
    requires
        sound(pre),
        follows(pre, reply, post, request),
    ensures
        request == Request::Finish ==> all_gone(post.table),
        effect(pre, reply).next is Begin ==> (request == Request::Finish <==> all_gone(post.table)),
{
}

/// Once every record is marked as exited, the pump finishes with the next
/// reply or the one after it, unless it gives up.
pub proof fn lemma_finishes_once_all_gone(
    pre: PumpView,
    reply: Reply,
    between: PumpView,
    request: Request,
    next_reply: Reply,
    post: PumpView,
    next_request: Request,
)
    requires
        sound(pre),
        all_gone(pre.table),
        follows(pre, reply, between, request),
        follows(between, next_reply, post, next_request),
    ensures
        request == Request::Finish || request is Abort || next_request == Request::Finish
            || next_request is Abort,
{
    lemma_step_sound(pre, reply, between, request);
    assert(all_gone(between.table)) by {
        if pre.phase is Leaving {
            assert forall|x: i32| between.table.contains_key(x) implies (#[trigger] between.table[x]).exited by {}
        }
    }
}

/// Within a pass, every reply brings the end of the pass nearer: the pump
/// either ends the pass, or gives up, or has fewer replies left to take.
pub proof fn lemma_pass_ends(pre: PumpView, reply: Reply, post: PumpView, request: Request)
    requires
        in_pass(pre),
        follows(pre, reply, post, request),
    ensures
        request == Request::Sleep || request is Abort || (in_pass(post) && pass_left(post)
            < pass_left(pre)),
{
}

} // verus!
