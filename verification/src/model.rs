//! The event pump as mathematics: what a pump is, what a reply makes of it,
//! and what holds of every pump.

use crate::protocol::{
    Fault, Phase, Reply, Request, Status, ESRCH, PTRACE_EVENT_CLONE, PTRACE_EVENT_EXIT,
    PTRACE_EVENT_FORK, PTRACE_EVENT_VFORK, SIGNAL_EXIT_BASE, SIGTRAP, TRACE_OPTIONS,
};
use crate::shape::{closed, with_child};
use crate::table::{alive, all_gone, amend, lists_alive, Record};
use vstd::prelude::*;

verus! {

/// The mathematical value of a [`Pump`](crate::pump::Pump).
pub struct PumpView {
    /// The id of the root tracee.
    pub root: i32,
    /// Whether the exit code of the root tracee is to be handed on.
    pub propagate: bool,
    /// The exit code to hand on.
    pub exit_code: i32,
    /// The process table.
    pub table: Map<i32, Record>,
    /// The ids that are still to be polled in this pass; the last comes first.
    pub queue: Seq<i32>,
    /// Where the pump stands.
    pub phase: Phase,
}

/// What the pump does once it has acted on a reply.
pub enum Next {
    /// Ask for this, and wait for the answer in this phase.
    Ask(Request, Phase),
    /// Go on with the pass.
    Advance,
    /// Start a new pass.
    Begin,
    /// Give up.
    Stop(Fault),
    /// Stay as it is, and say again what it said last.
    Repeat(Request),
}

/// What a reply makes of the table and of the exit code, and what follows.
pub struct Effect {
    pub table: Map<i32, Record>,
    pub exit_code: i32,
    pub next: Next,
}

/// Whether `event` is the code of a trace event that reports a new child.
pub open spec fn makes_child(event: i32) -> bool {
    event == PTRACE_EVENT_FORK || event == PTRACE_EVENT_VFORK || event == PTRACE_EVENT_CLONE
}

/// The exit code to hand on once process `id` is known to have ended with
/// `code`: that code where `id` is the root tracee and codes are handed on,
/// and the code known so far where not.
pub open spec fn handed_on(s: PumpView, id: i32, code: int) -> int {
    if s.propagate && id == s.root {
        code
    } else {
        s.exit_code as int
    }
}

/// What the status `status` of process `id` makes of the pump `s`.
pub open spec fn on_status(s: PumpView, id: i32, status: Status) -> Effect {
    match status {
        Status::StillAlive => Effect { table: s.table, exit_code: s.exit_code, next: Next::Advance },
        Status::Exited(code) => Effect {
            table: amend(s.table, id, |r: Record| r.gone()),
            exit_code: handed_on(s, id, code as int) as i32,
            next: Next::Advance,
        },
        Status::Signaled(signal) => Effect {
            table: amend(s.table, id, |r: Record| r.gone()),
            exit_code: handed_on(s, id, SIGNAL_EXIT_BASE + signal) as i32,
            next: Next::Advance,
        },
        Status::PtraceEvent(event) => Effect {
            table: s.table,
            exit_code: s.exit_code,
            next: if event == PTRACE_EVENT_EXIT {
                Next::Ask(Request::ReadRss(id), Phase::Probing(id))
            } else if makes_child(event) {
                Next::Ask(Request::NewChild(id), Phase::Naming(id))
            } else {
                Next::Ask(Request::Resume(id, None), Phase::Resuming(id))
            },
        },
        Status::Stopped(signal) => Effect {
            table: s.table,
            exit_code: s.exit_code,
            next: Next::Ask(
                Request::Resume(
                    id,
                    if signal == SIGTRAP {
                        None
                    } else {
                        Some(signal)
                    },
                ),
                Phase::Resuming(id),
            ),
        },
        Status::Other => Effect {
            table: s.table,
            exit_code: s.exit_code,
            next: Next::Ask(Request::Resume(id, None), Phase::Resuming(id)),
        },
    }
}

/// The effect of a reply that leaves table and exit code as they are.
pub open spec fn only(s: PumpView, next: Next) -> Effect {
    Effect { table: s.table, exit_code: s.exit_code, next }
}

/// The effect of a reply that is a failure where failures end the run, or
/// that does not answer the request.
pub open spec fn refused(s: PumpView, reply: Reply) -> Effect {
    match reply {
        Reply::Failed(errno) => only(s, Next::Stop(Fault::Kernel(errno))),
        _ => only(s, Next::Stop(Fault::Protocol)),
    }
}

/// What the reply `reply` makes of the pump `s`.
pub open spec fn effect(s: PumpView, reply: Reply) -> Effect {
    match s.phase {
        Phase::Stopping => match reply {
            Reply::Status(_) => only(
                s,
                Next::Ask(Request::SetOptions(s.root, TRACE_OPTIONS), Phase::Configuring),
            ),
            _ => refused(s, reply),
        },
        Phase::Configuring => match reply {
            Reply::Done => only(s, Next::Ask(Request::Resume(s.root, None), Phase::Starting)),
            _ => refused(s, reply),
        },
        Phase::Starting => match reply {
            Reply::Done => only(s, Next::Begin),
            _ => refused(s, reply),
        },
        Phase::Polling(id) => match reply {
            Reply::Status(status) => on_status(s, id, status),
            _ => refused(s, reply),
        },
        Phase::Probing(id) => match reply {
            Reply::Rss(bytes) => {
                let measured = amend(s.table, id, |r: Record| r.measured(bytes));
                if id == s.root && s.propagate {
                    Effect {
                        table: measured,
                        exit_code: s.exit_code,
                        next: Next::Ask(Request::Resume(id, None), Phase::Leaving(id)),
                    }
                } else {
                    Effect {
                        table: amend(measured, id, |r: Record| r.gone()),
                        exit_code: s.exit_code,
                        next: Next::Ask(Request::Detach(id), Phase::Leaving(id)),
                    }
                }
            },
            Reply::Failed(_) => Effect {
                table: amend(s.table, id, |r: Record| r.gone()),
                exit_code: s.exit_code,
                next: Next::Advance,
            },
            _ => refused(s, reply),
        },
        Phase::Leaving(id) => match reply {
            Reply::Done => only(s, Next::Advance),
            Reply::Failed(errno) => if errno == ESRCH {
                Effect {
                    table: amend(s.table, id, |r: Record| r.gone()),
                    exit_code: s.exit_code,
                    next: Next::Advance,
                }
            } else {
                refused(s, reply)
            },
            _ => refused(s, reply),
        },
        Phase::Naming(id) => match reply {
            Reply::Child(child) => Effect {
                table: with_child(s.table, id, child),
                exit_code: s.exit_code,
                next: Next::Ask(Request::Resume(id, None), Phase::Resuming(id)),
            },
            _ => refused(s, reply),
        },
        Phase::Resuming(_) => match reply {
            Reply::Done => only(s, Next::Advance),
            _ => refused(s, reply),
        },
        Phase::Sleeping => match reply {
            Reply::Done => only(s, Next::Begin),
            _ => refused(s, reply),
        },
        Phase::Finished => only(s, Next::Repeat(Request::Finish)),
        Phase::Failed(fault) => only(s, Next::Repeat(Request::Abort(fault))),
    }
}

/// From `queue`, the pump `post` polls the id that comes first and keeps the
/// others for later, or goes to sleep where `queue` is empty.
pub open spec fn polls_next(queue: Seq<i32>, post: PumpView, request: Request) -> bool {
    if queue.len() == 0 {
        &&& post.queue == queue
        &&& post.phase == Phase::Sleeping
        &&& request == Request::Sleep
    } else {
        &&& post.queue == queue.drop_last()
        &&& post.phase == Phase::Polling(queue.last())
        &&& request == Request::Poll(queue.last())
    }
}

/// The pump `post` and the request `request` are what the pump `pre` makes
/// of the reply `reply`.
pub open spec fn follows(pre: PumpView, reply: Reply, post: PumpView, request: Request) -> bool {
    let e = effect(pre, reply);
    &&& post.root == pre.root
    &&& post.propagate == pre.propagate
    &&& post.table == e.table
    &&& post.exit_code == e.exit_code
    &&& match e.next {
        Next::Ask(asked, phase) => {
            &&& post.queue == pre.queue
            &&& post.phase == phase
            &&& request == asked
        },
        Next::Advance => polls_next(pre.queue, post, request),
        Next::Begin => if all_gone(e.table) {
            &&& post.queue == Seq::<i32>::empty()
            &&& post.phase == Phase::Finished
            &&& request == Request::Finish
        } else {
            &&& request matches Request::Poll(id)
            &&& post.phase == Phase::Polling(id)
            &&& lists_alive(e.table, post.queue.push(id))
        },
        Next::Stop(fault) => {
            &&& post.queue == pre.queue
            &&& post.phase == Phase::Failed(fault)
            &&& request == Request::Abort(fault)
        },
        Next::Repeat(again) => {
            &&& post.queue == pre.queue
            &&& post.phase == pre.phase
            &&& request == again
        },
    }
}

/// The process that the phase `phase` waits to hear of, if any.
pub open spec fn awaited(s: PumpView) -> Option<i32> {
    match s.phase {
        Phase::Stopping | Phase::Configuring | Phase::Starting => Some(s.root),
        Phase::Polling(id) | Phase::Probing(id) | Phase::Leaving(id) | Phase::Naming(id)
        | Phase::Resuming(id) => Some(id),
        Phase::Sleeping | Phase::Finished | Phase::Failed(_) => None,
    }
}

/// Whether the pump deals with a process that it takes to be alive: it is
/// in the handshake with the root tracee, or it waits for a process's status
/// or memory reading, for the id of its new child, or for it to be resumed
/// after a stop.
pub open spec fn attends(s: PumpView) -> bool {
    s.phase is Stopping || s.phase is Configuring || s.phase is Starting || s.phase is Polling
        || s.phase is Probing || s.phase is Naming || s.phase is Resuming
}

/// What holds of every pump: the root tracee and every process that the pump
/// waits to hear of have a record, and so has every child; the processes
/// that are still to be polled, and the process that the pump attends to,
/// have records that are not marked as exited; every record is marked as
/// exited once the pump has finished; and without an exit code to hand on
/// the exit code is zero.
pub open spec fn sound(s: PumpView) -> bool {
    &&& s.table.dom().finite()
    &&& s.table.contains_key(s.root)
    &&& closed(s.table)
    &&& s.queue.no_duplicates()
    &&& forall|i: int| 0 <= i < s.queue.len() ==> alive(s.table, #[trigger] s.queue[i])
    &&& awaited(s) matches Some(id) ==> s.table.contains_key(id) && !s.queue.contains(id)
    &&& attends(s) ==> alive(s.table, awaited(s)->0)
    &&& s.phase == Phase::Finished ==> all_gone(s.table)
    &&& !s.propagate ==> s.exit_code == 0
}

/// A reply that names a new child names a process that has no record yet.
pub open spec fn names_stranger(s: PumpView, reply: Reply) -> bool {
    s.phase is Naming && reply is Child ==> !s.table.contains_key(reply->Child_0)
}

} // verus!
