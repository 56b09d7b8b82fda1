//! What passes between the event pump and its caller: the requests that the
//! pump makes, the replies that it takes, and the numbers by which the
//! kernel names signals, trace events and errors.

use vstd::prelude::*;

verus! {

/// The number of the trace-trap signal.
pub const SIGTRAP: u8 = 5;

/// The code of the trace event that reports a fork.
pub const PTRACE_EVENT_FORK: i32 = 1;

/// The code of the trace event that reports a vfork.
pub const PTRACE_EVENT_VFORK: i32 = 2;

/// The code of the trace event that reports a clone, as for a new thread.
pub const PTRACE_EVENT_CLONE: i32 = 3;

/// The code of the trace event that reports that a process is about to exit.
pub const PTRACE_EVENT_EXIT: i32 = 6;

/// The trace option that makes the kernel report every fork of a tracee.
pub const PTRACE_O_TRACEFORK: i32 = 0x02;

/// The trace option that makes the kernel report every vfork of a tracee.
pub const PTRACE_O_TRACEVFORK: i32 = 0x04;

/// The trace option that makes the kernel report every clone of a tracee.
pub const PTRACE_O_TRACECLONE: i32 = 0x08;

/// The trace option that makes the kernel report the exit of a tracee before
/// it takes place.
pub const PTRACE_O_TRACEEXIT: i32 = 0x40;

/// The trace options that the pump asks for: the four above. The children
/// that a tracee makes become tracees with the same options.
pub const TRACE_OPTIONS: i32 = PTRACE_O_TRACEEXIT | PTRACE_O_TRACEFORK | PTRACE_O_TRACEVFORK
    | PTRACE_O_TRACECLONE;

/// The error number that says that there is no such process.
pub const ESRCH: i32 = 3;

/// What is added to the number of a signal to make the exit code of a process
/// that the signal killed.
pub const SIGNAL_EXIT_BASE: i32 = 128;

/// How long a sleep between two passes lasts, in microseconds: short enough
/// to catch a process before it is gone, long enough to leave the processor
/// to the processes that are measured.
pub const PAUSE_MICROS: u64 = 200;

/// What the kernel reports of one tracee when asked without blocking.
#[derive(Debug, Clone, Copy, PartialEq, Eq)]
pub enum Status {
    /// Nothing has changed since the tracee was last asked about.
    StillAlive,
    /// The tracee has terminated normally, with this exit code.
    Exited(i32),
    /// The tracee has been killed by the signal of this number.
    Signaled(u8),
    /// The tracee has stopped at the trace event of this code.
    PtraceEvent(i32),
    /// The tracee has stopped on delivery of the signal of this number.
    Stopped(u8),
    /// Anything else.
    Other,
}

/// Why the pump gives up.
#[derive(Debug, Clone, Copy, PartialEq, Eq)]
pub enum Fault {
    /// The kernel refused an operation, with this error number.
    Kernel(i32),
    /// The pump was handed a reply that does not answer its request.
    Protocol,
}

/// What the pump asks its caller to do next.
#[derive(Debug, Clone, Copy, PartialEq, Eq)]
pub enum Request {
    /// Block until the process reports its first stop.
    AwaitStop(i32),
    /// Set these trace options on the process.
    SetOptions(i32, i32),
    /// Fetch the status of the process without blocking.
    Poll(i32),
    /// Read the resident set size of the process.
    ReadRss(i32),
    /// Ask the kernel for the id of the child that the process has just made.
    NewChild(i32),
    /// Let the process run on, delivering the signal of this number if any.
    Resume(i32, Option<u8>),
    /// Stop tracing the process.
    Detach(i32),
    /// Sleep for [`PAUSE_MICROS`] microseconds.
    Sleep,
    /// Every process has gone: write the report.
    Finish,
    /// Give up.
    Abort(Fault),
}

/// What came of carrying out a request.
#[derive(Debug, Clone, Copy, PartialEq, Eq)]
pub enum Reply {
    /// The status that the kernel reported.
    Status(Status),
    /// The resident set size, in bytes.
    Rss(u64),
    /// The id of the new child.
    Child(i32),
    /// The request was carried out and has nothing to report.
    Done,
    /// The request failed, with this error number.
    Failed(i32),
}

/// Where the pump stands: which request it is waiting to hear of.
#[derive(Debug, Clone, Copy, PartialEq, Eq)]
pub enum Phase {
    /// Waiting for the first stop of the root tracee.
    Stopping,
    /// Waiting for the trace options to be set.
    Configuring,
    /// Waiting for the root tracee to be resumed for the first time.
    Starting,
    /// Waiting for the status of this process.
    Polling(i32),
    /// Waiting for the memory reading of this process, which is about to exit.
    Probing(i32),
    /// Waiting to hear that this process, which is about to exit, was
    /// resumed or detached.
    Leaving(i32),
    /// Waiting for the id of the new child of this process.
    Naming(i32),
    /// Waiting to hear that this process was resumed.
    Resuming(i32),
    /// Waiting for the sleep between two passes to end.
    Sleeping,
    /// Every process has gone.
    Finished,
    /// The pump has given up.
    Failed(Fault),
}

} // verus!
