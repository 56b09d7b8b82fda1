//! The event pump: the decisions of the supervisor, as a state machine.
//!
//! The pump never touches the kernel itself. It hands out one [`Request`] at
//! a time, its caller carries the request out and hands back the [`Reply`],
//! and the pump answers with the next request. All that the supervisor knows
//! of the traced processes is kept in the pump's [`ProcTable`].
//!
//! A run starts with the handshake on the root tracee: wait for the stop that
//! the tracee raises on itself, set the trace options, resume it. Then the
//! pump goes round in passes. At the start of a pass it finishes if every
//! record is marked as exited; otherwise it takes the ids that are still
//! alive, polls each of them once without blocking, acts on what the kernel
//! reports, and sleeps before the next pass.

use crate::census::members;
use crate::graph::graph;
use crate::laws::{lemma_exited_stays, lemma_finish, lemma_step_keeps_tree, lemma_step_sound};
use crate::model::{follows, names_stranger, polls_next, refused, sound, Next, PumpView};
use crate::protocol::{
    Fault, Phase, Reply, Request, Status, ESRCH, PTRACE_EVENT_CLONE, PTRACE_EVENT_EXIT,
    PTRACE_EVENT_FORK, PTRACE_EVENT_VFORK, SIGNAL_EXIT_BASE, SIGTRAP, TRACE_OPTIONS,
};
use crate::report::{counted, summarize, total_rss, Report, ReportError};
use crate::shape::{is_tree, lemma_root_alone_is_tree};
use crate::table::{alive, all_gone, lists_alive, ProcTable, Record};
use vstd::prelude::*;

verus! {

/// The event pump.
pub struct Pump {
    root: i32,
    propagate: bool,
    exit_code: i32,
    table: ProcTable,
    queue: Vec<i32>,
    phase: Phase,
}

impl View for Pump {
    type V = PumpView;

    closed spec fn view(&self) -> PumpView {
        PumpView {
            root: self.root,
            propagate: self.propagate,
            exit_code: self.exit_code,
            table: self.table@,
            queue: self.queue@,
            phase: self.phase,
        }
    }
}

impl Pump {
    /// What every pump that this module hands out satisfies.
    pub open spec fn wf(&self) -> bool {
        sound(self@)
    }

    /// A pump for the run of the root tracee `root`, and the first request:
    /// to wait for the stop that the tracee raises on itself. With
    /// `propagate`, the exit code of the root tracee is handed on.
    pub fn new(root: i32, propagate: bool) -> (start: (Pump, Request))
        ensures
            start.0.wf(),
            start.0@ == (PumpView {
                root,
                propagate,
                exit_code: 0,
                table: Map::<i32, Record>::empty().insert(root, Record::fresh()),
                queue: Seq::<i32>::empty(),
                phase: Phase::Stopping,
            }),
            start.1 == Request::AwaitStop(root),
            is_tree(start.0@.table, root),
    {
        let mut table = ProcTable::new();
        table.insert_new(root);
        let pump = Pump {
            root,
            propagate,
            exit_code: 0,
            table,
            queue: Vec::new(),
            phase: Phase::Stopping,
        };
        proof {
            lemma_root_alone_is_tree(root);
            assert(pump@.queue =~= Seq::<i32>::empty());
        }
        (pump, Request::AwaitStop(root))
    }

    /// The id of the root tracee.
    pub fn root(&self) -> (root: i32)
        ensures
            root == self@.root,
    {
        self.root
    }

    /// Whether the exit code of the root tracee is handed on.
    pub fn propagate(&self) -> (propagate: bool)
        ensures
            propagate == self@.propagate,
    {
        self.propagate
    }

    /// The exit code for the supervisor itself: that of the root tracee where
    /// it is handed on and known, and zero where not.
    pub fn exit_code(&self) -> (code: i32)
        ensures
            code == self@.exit_code,
    {
        self.exit_code
    }

    /// Where the pump stands.
    pub fn phase(&self) -> (phase: Phase)
        ensures
            phase == self@.phase,
    {
        self.phase
    }

    /// The process table.
    pub fn table(&self) -> (table: &ProcTable)
        ensures
            table@ == self@.table,
    {
        &self.table
    }

    /// Whether the pump has finished: every process has gone.
    pub fn is_finished(&self) -> (finished: bool)
        ensures
            finished == (self@.phase == Phase::Finished),
    {
        match self.phase {
            Phase::Finished => true,
            _ => false,
        }
    }

    /// The report of the run as it stands. The exit code is part of it only
    /// where it is handed on. Where the table is a tree below the root
    /// tracee, the graph can be drawn, and it has as many nodes as the table
    /// has records.
    pub fn report(&self) -> (result: Result<Report, ReportError>)
        ensures
            match result {
                Ok(report) => {
                    &&& report.max_rss == total_rss(self@.table, self@.root)
                    &&& report.total_pids == self@.table.dom().len()
                    &&& report.total_reads == counted(self@.table, self@.root).len()
                    &&& report.total_reads <= report.total_pids
                    &&& report.exit_code == if self@.propagate {
                        Some(self@.exit_code)
                    } else {
                        None
                    }
                    &&& graph(self@.table, self@.root) == Some(report.graph@)
                },
                Err(ReportError::TooLarge) => total_rss(self@.table, self@.root)
                    > u64::MAX,
                Err(ReportError::NoGraph) => {
                    &&& total_rss(self@.table, self@.root) <= u64::MAX
                    &&& graph(self@.table, self@.root) is None
                },
            },
            is_tree(self@.table, self@.root) ==> result != Err::<Report, ReportError>(
                ReportError::NoGraph,
            ),
            is_tree(self@.table, self@.root) && result is Ok ==> members(result->Ok_0.graph@).len()
                == result->Ok_0.total_pids,
    {
        let exit_code = if self.propagate {
            Some(self.exit_code)
        } else {
            None
        };
        summarize(&self.table, self.root, exit_code)
    }

    /// Asks for `asked` and waits for the answer in `phase`.
    fn ask(&mut self, asked: Request, phase: Phase) -> (request: Request)
        ensures
            final(self)@ == (PumpView { phase, ..old(self)@ }),
            request == asked,
    {
        self.phase = phase;
        asked
    }

    /// Gives up.
    fn stop(&mut self, fault: Fault) -> (request: Request)
        ensures
            final(self)@ == (PumpView { phase: Phase::Failed(fault), ..old(self)@ }),
            request == Request::Abort(fault),
    {
        self.phase = Phase::Failed(fault);
        Request::Abort(fault)
    }

    /// Gives up on a reply that is a failure, or that does not answer the
    /// request.
    fn refuse(&mut self, reply: Reply) -> (request: Request)
        ensures
            refused(old(self)@, reply).next matches Next::Stop(fault) && final(self)@ == (PumpView {
                phase: Phase::Failed(fault),
                ..old(self)@
            }) && request == Request::Abort(fault),
    {
        match reply {
            Reply::Failed(errno) => self.stop(Fault::Kernel(errno)),
            _ => self.stop(Fault::Protocol),
        }
    }

    /// Polls the next process of the pass, or goes to sleep where none is left.
    fn advance(&mut self) -> (request: Request)
        ensures
            final(self)@.root == old(self)@.root,
            final(self)@.propagate == old(self)@.propagate,
            final(self)@.exit_code == old(self)@.exit_code,
            final(self)@.table == old(self)@.table,
            polls_next(old(self)@.queue, final(self)@, request),
    {
        match self.queue.pop() {
            Some(id) => {
                self.phase = Phase::Polling(id);
                Request::Poll(id)
            },
            None => {
                self.phase = Phase::Sleeping;
                Request::Sleep
            },
        }
    }

    /// Starts a new pass, or finishes where every record is marked as exited.
    fn begin(&mut self) -> (request: Request)
        ensures
            final(self)@.root == old(self)@.root,
            final(self)@.propagate == old(self)@.propagate,
            final(self)@.exit_code == old(self)@.exit_code,
            final(self)@.table == old(self)@.table,
            if all_gone(old(self)@.table) {
                &&& final(self)@.queue == Seq::<i32>::empty()
                &&& final(self)@.phase == Phase::Finished
                &&& request == Request::Finish
            } else {
                &&& request matches Request::Poll(id)
                &&& final(self)@.phase == Phase::Polling(id)
                &&& lists_alive(old(self)@.table, final(self)@.queue.push(id))
            },
    {
        if self.table.all_exited() {
            self.queue = Vec::new();
            self.phase = Phase::Finished;
            return Request::Finish;
        }
        let snapshot = self.table.alive_ids();
        let ghost all = snapshot@;
        self.queue = snapshot;
        match self.queue.pop() {
            Some(id) => {
                self.phase = Phase::Polling(id);
                assert(self.queue@.push(id) =~= all);
                Request::Poll(id)
            },
            None => {
                proof {
                    let id = choose|id: i32|
                        self.table@.contains_key(id) && !(#[trigger] self.table@[id]).exited;
                    assert(alive(self.table@, id));
                    assert(all.contains(id));
                }
                self.phase = Phase::Sleeping;
                Request::Sleep
            },
        }
    }

    /// Acts on the status `status` of process `id`.
    fn handle_status(&mut self, id: i32, status: Status) -> (request: Request)
        requires
            old(self)@.phase == Phase::Polling(id),
        ensures
            follows(old(self)@, Reply::Status(status), final(self)@, request),
    {
        match status {
            Status::StillAlive => self.advance(),
            Status::Exited(code) => {
                self.table.mark_exited(id);
                if self.propagate && id == self.root {
                    self.exit_code = code;
                }
                self.advance()
            },
            Status::Signaled(signal) => {
                self.table.mark_exited(id);
                if self.propagate && id == self.root {
                    self.exit_code = SIGNAL_EXIT_BASE + signal as i32;
                }
                self.advance()
            },
            Status::PtraceEvent(event) => {
                if event == PTRACE_EVENT_EXIT {
                    self.ask(Request::ReadRss(id), Phase::Probing(id))
                } else if event == PTRACE_EVENT_FORK || event == PTRACE_EVENT_VFORK || event
                    == PTRACE_EVENT_CLONE {
                    self.ask(Request::NewChild(id), Phase::Naming(id))
                } else {
                    self.ask(Request::Resume(id, None), Phase::Resuming(id))
                }
            },
            Status::Stopped(signal) => {
                let deliver = if signal == SIGTRAP {
                    None
                } else {
                    Some(signal)
                };
                self.ask(Request::Resume(id, deliver), Phase::Resuming(id))
            },
            Status::Other => self.ask(Request::Resume(id, None), Phase::Resuming(id)),
        }
    }

    /// Acts on the reply to the request that the pump made last, and says
    /// what is to be done next.
    ///
    /// The tree of processes stays a tree, and a record that is marked as
    /// exited stays so, as long as the kernel names no process as a new child
    /// that has a record already.
    pub fn handle(&mut self, reply: Reply) -> (request: Request)
        requires
            old(self).wf(),
        ensures
            final(self).wf(),
            follows(old(self)@, reply, final(self)@, request),
            old(self)@.table.dom().subset_of(final(self)@.table.dom()),
            request == Request::Finish ==> all_gone(final(self)@.table),
            names_stranger(old(self)@, reply) && is_tree(old(self)@.table, old(self)@.root)
                ==> is_tree(final(self)@.table, final(self)@.root),
            names_stranger(old(self)@, reply) ==> forall|id: i32|
                old(self)@.table.contains_key(id) && (#[trigger] old(self)@.table[id]).exited
                    ==> final(self)@.table[id].exited,
    {
        let phase = self.phase;
        let request = match phase {
            Phase::Stopping => match reply {
                Reply::Status(_) => self.ask(Request::SetOptions(self.root, TRACE_OPTIONS), Phase::Configuring),
                _ => self.refuse(reply),
            },
            Phase::Configuring => match reply {
                Reply::Done => self.ask(Request::Resume(self.root, None), Phase::Starting),
                _ => self.refuse(reply),
            },
            Phase::Starting => match reply {
                Reply::Done => self.begin(),
                _ => self.refuse(reply),
            },
            Phase::Polling(id) => match reply {
                Reply::Status(status) => self.handle_status(id, status),
                _ => self.refuse(reply),
            },
            Phase::Probing(id) => match reply {
                Reply::Rss(bytes) => {
                    self.table.record_rss(id, bytes);
                    if id == self.root && self.propagate {
                        self.ask(Request::Resume(id, None), Phase::Leaving(id))
                    } else {
                        self.table.mark_exited(id);
                        self.ask(Request::Detach(id), Phase::Leaving(id))
                    }
                },
                Reply::Failed(_) => {
                    self.table.mark_exited(id);
                    self.advance()
                },
                _ => self.refuse(reply),
            },
            Phase::Leaving(id) => match reply {
                Reply::Done => self.advance(),
                Reply::Failed(errno) => {
                    if errno == ESRCH {
                        self.table.mark_exited(id);
                        self.advance()
                    } else {
                        self.refuse(reply)
                    }
                },
                _ => self.refuse(reply),
            },
            Phase::Naming(id) => match reply {
                Reply::Child(child) => {
                    self.table.insert_new(child);
                    self.table.append_child(id, child);
                    self.ask(Request::Resume(id, None), Phase::Resuming(id))
                },
                _ => self.refuse(reply),
            },
            Phase::Resuming(_) => match reply {
                Reply::Done => self.advance(),
                _ => self.refuse(reply),
            },
            Phase::Sleeping => match reply {
                Reply::Done => self.begin(),
                _ => self.refuse(reply),
            },
            Phase::Finished => Request::Finish,
            Phase::Failed(fault) => Request::Abort(fault),
        };
        proof {
            lemma_step_sound(old(self)@, reply, self@, request);
            lemma_finish(old(self)@, reply, self@, request);
            if names_stranger(old(self)@, reply) {
                if is_tree(old(self)@.table, old(self)@.root) {
                    lemma_step_keeps_tree(old(self)@, reply, self@, request);
                }
                assert forall|id: i32|
                    old(self)@.table.contains_key(id) && (#[trigger] old(self)@.table[id]).exited implies self@.table[id].exited by {
                    lemma_exited_stays(old(self)@, reply, self@, request, id);
                }
            }
        }
        request
    }
}

} // verus!
