use std::collections::{HashMap, HashSet, VecDeque};

use max_rss::graph::Node;
use max_rss::protocol::{
    Fault, Phase, Reply, Request, Status, ESRCH, PTRACE_EVENT_CLONE, PTRACE_EVENT_EXIT,
    PTRACE_EVENT_FORK, PTRACE_EVENT_VFORK, SIGTRAP, TRACE_OPTIONS,
};
use max_rss::pump::Pump;
use max_rss::report::Report;

const SIGSTOP: u8 = 19;
const SIGKILL: u8 = 9;
const EPERM: i32 = 1;

/// A kernel made of lists: what each process reports when it is polled, which
/// children it gets, and how large it is.
struct Kernel {
    events: HashMap<i32, VecDeque<Status>>,
    children: HashMap<i32, VecDeque<i32>>,
    rss: HashMap<i32, u64>,
    unreadable: HashSet<i32>,
    vanished: HashSet<i32>,
    log: Vec<Request>,
}

impl Kernel {
    fn new() -> Kernel {
        Kernel {
            events: HashMap::new(),
            children: HashMap::new(),
            rss: HashMap::new(),
            unreadable: HashSet::new(),
            vanished: HashSet::new(),
            log: Vec::new(),
        }
    }

    fn process(&mut self, id: i32, rss: u64, events: &[Status]) {
        self.events.insert(id, events.iter().copied().collect());
        self.rss.insert(id, rss);
    }

    fn offspring(&mut self, id: i32, children: &[i32]) {
        self.children.insert(id, children.iter().copied().collect());
    }

    fn answer(&mut self, request: Request) -> Reply {
        self.log.push(request);
        match request {
            Request::AwaitStop(_) => Reply::Status(Status::Stopped(SIGSTOP)),
            Request::SetOptions(_, _) | Request::Sleep => Reply::Done,
            Request::Poll(id) => {
                let next = self.events.get_mut(&id).and_then(|events| events.pop_front());
                Reply::Status(next.unwrap_or(Status::StillAlive))
            }
            Request::ReadRss(id) => {
                if self.unreadable.contains(&id) {
                    Reply::Failed(ESRCH)
                } else {
                    Reply::Rss(self.rss[&id])
                }
            }
            Request::NewChild(id) => {
                Reply::Child(self.children.get_mut(&id).unwrap().pop_front().unwrap())
            }
            Request::Resume(id, _) | Request::Detach(id) => {
                if self.vanished.contains(&id) {
                    Reply::Failed(ESRCH)
                } else {
                    Reply::Done
                }
            }
            Request::Finish | Request::Abort(_) => unreachable!(),
        }
    }
}

/// Runs the pump against the kernel until it finishes or gives up.
fn run(kernel: &mut Kernel, root: i32, propagate: bool) -> (Pump, Request) {
    let (mut pump, mut request) = Pump::new(root, propagate);
    for _ in 0..10_000 {
        if matches!(request, Request::Finish | Request::Abort(_)) {
            return (pump, request);
        }
        let reply = kernel.answer(request);
        request = pump.handle(reply);
    }
    panic!("the pump did not come to an end");
}

fn finished(kernel: &mut Kernel, root: i32, propagate: bool) -> (Pump, Report) {
    let (pump, last) = run(kernel, root, propagate);
    assert_eq!(last, Request::Finish);
    assert!(pump.is_finished());
    assert!(pump.table().all_exited());
    let report = pump.report().unwrap();
    (pump, report)
}

fn count(node: &Node) -> u64 {
    1 + node.children.iter().flatten().map(count).sum::<u64>()
}

fn exits() -> [Status; 1] {
    [Status::PtraceEvent(PTRACE_EVENT_EXIT)]
}

#[test]
fn print() {
    let mut kernel = Kernel::new();
    kernel.process(10, 4096, &[Status::PtraceEvent(PTRACE_EVENT_EXIT), Status::Exited(0)]);
    let (_, report) = finished(&mut kernel, 10, true);
    assert_eq!(report.total_pids, 1);
    assert_eq!(report.total_reads, 1);
}

#[test]
fn fork() {
    let mut kernel = Kernel::new();
    kernel.process(
        10,
        8192,
        &[
            Status::PtraceEvent(PTRACE_EVENT_FORK),
            Status::PtraceEvent(PTRACE_EVENT_EXIT),
            Status::Exited(0),
        ],
    );
    kernel.offspring(10, &[11]);
    kernel.process(11, 4096, &[Status::Stopped(SIGSTOP), Status::PtraceEvent(PTRACE_EVENT_EXIT)]);
    let (_, report) = finished(&mut kernel, 10, true);
    assert_eq!(report.total_pids, 2);
    assert_eq!(report.total_reads, 1);
    assert_eq!(report.max_rss, 8192);
    assert_eq!(
        report.graph,
        Node {
            id: 10,
            rss: 8192,
            children: Some(vec![Node { id: 11, rss: 4096, children: None }]),
        }
    );
}

#[test]
fn double_fork() {
    let mut kernel = Kernel::new();
    kernel.process(
        10,
        1000,
        &[
            Status::PtraceEvent(PTRACE_EVENT_FORK),
            Status::PtraceEvent(PTRACE_EVENT_FORK),
            Status::PtraceEvent(PTRACE_EVENT_EXIT),
            Status::Exited(0),
        ],
    );
    kernel.offspring(10, &[11, 12]);
    kernel.process(
        11,
        200,
        &[Status::PtraceEvent(PTRACE_EVENT_FORK), Status::PtraceEvent(PTRACE_EVENT_EXIT)],
    );
    kernel.offspring(11, &[13]);
    kernel.process(12, 30, &exits());
    kernel.process(13, 4, &exits());
    let (_, report) = finished(&mut kernel, 10, true);
    assert_eq!(report.total_pids, 4);
    assert_eq!(report.total_reads, 2);
    assert_eq!(report.max_rss, 1200);
    assert_eq!(count(&report.graph), 4);
}

#[test]
fn forks_in_a_chain() {
    let mut kernel = Kernel::new();
    kernel.process(
        1,
        100,
        &[
            Status::PtraceEvent(PTRACE_EVENT_FORK),
            Status::PtraceEvent(PTRACE_EVENT_EXIT),
            Status::Exited(0),
        ],
    );
    kernel.offspring(1, &[2]);
    kernel.process(
        2,
        20,
        &[Status::PtraceEvent(PTRACE_EVENT_VFORK), Status::PtraceEvent(PTRACE_EVENT_EXIT)],
    );
    kernel.offspring(2, &[3]);
    kernel.process(3, 3, &exits());
    let (_, report) = finished(&mut kernel, 1, true);
    assert_eq!(report.total_pids, 3);
    assert_eq!(report.total_reads, 2);
    assert_eq!(report.max_rss, 120);
    assert_eq!(
        report.graph,
        Node {
            id: 1,
            rss: 100,
            children: Some(vec![Node {
                id: 2,
                rss: 20,
                children: Some(vec![Node { id: 3, rss: 3, children: None }]),
            }]),
        }
    );
}

fn with_threads(kernel: &mut Kernel, id: i32, rss: u64, first: i32, ends: &[Status]) {
    let mut events = vec![Status::PtraceEvent(PTRACE_EVENT_CLONE); 10];
    events.extend_from_slice(ends);
    kernel.process(id, rss, &events);
    let threads: Vec<i32> = (first..first + 10).collect();
    kernel.offspring(id, &threads);
    for thread in threads {
        kernel.process(thread, rss, &exits());
    }
}

#[test]
fn threads() {
    let mut kernel = Kernel::new();
    with_threads(
        &mut kernel,
        50,
        7000,
        100,
        &[Status::PtraceEvent(PTRACE_EVENT_EXIT), Status::Exited(0)],
    );
    let (_, report) = finished(&mut kernel, 50, true);
    assert_eq!(report.total_pids, 11);
    assert_eq!(report.total_reads, 1);
    assert_eq!(report.max_rss, 7000);
    assert_eq!(count(&report.graph), 11);
    let ids: Vec<i32> = report.graph.children.unwrap().iter().map(|node| node.id).collect();
    assert_eq!(ids, (100..110).collect::<Vec<i32>>());
}

#[test]
fn fork_threads() {
    let mut kernel = Kernel::new();
    kernel.process(
        50,
        500,
        &[
            Status::PtraceEvent(PTRACE_EVENT_FORK),
            Status::PtraceEvent(PTRACE_EVENT_EXIT),
            Status::Exited(0),
        ],
    );
    kernel.offspring(50, &[51]);
    with_threads(&mut kernel, 51, 60, 100, &exits());
    let (_, report) = finished(&mut kernel, 50, true);
    assert_eq!(report.total_pids, 12);
    assert_eq!(report.total_reads, 2);
    assert_eq!(report.max_rss, 560);
}

#[test]
fn kill_threads() {
    let mut kernel = Kernel::new();
    with_threads(&mut kernel, 50, 7000, 100, &[Status::Signaled(SIGKILL)]);
    let (pump, report) = finished(&mut kernel, 50, true);
    assert_eq!(report.total_pids, 11);
    assert_eq!(report.total_reads, 1);
    assert_eq!(pump.exit_code(), 128 + 9);
}

#[test]
fn tracee_exit_0() {
    let mut kernel = Kernel::new();
    kernel.process(10, 4096, &[Status::PtraceEvent(PTRACE_EVENT_EXIT), Status::Exited(0)]);
    let (pump, report) = finished(&mut kernel, 10, true);
    assert_eq!(report.exit_code, Some(0));
    assert_eq!(report.total_pids, 1);
    assert_eq!(report.total_reads, 1);
    assert_eq!(pump.exit_code(), 0);
}

#[test]
fn tracee_exit_1() {
    let mut kernel = Kernel::new();
    kernel.process(10, 4096, &[Status::PtraceEvent(PTRACE_EVENT_EXIT), Status::Exited(1)]);
    let (pump, report) = finished(&mut kernel, 10, true);
    assert_eq!(report.exit_code, Some(1));
    assert_eq!(report.total_pids, 1);
    assert_eq!(report.total_reads, 1);
    assert_eq!(pump.exit_code(), 1);
}

#[test]
fn exit_code_is_kept_back_unless_asked_for() {
    let mut kernel = Kernel::new();
    kernel.process(10, 4096, &exits());
    let (pump, report) = finished(&mut kernel, 10, false);
    assert_eq!(report.exit_code, None);
    assert_eq!(report.total_pids, 1);
    assert_eq!(report.total_reads, 1);
    assert_eq!(report.max_rss, 4096);
    assert_eq!(pump.exit_code(), 0);
    assert_eq!(
        kernel.log,
        vec![
            Request::AwaitStop(10),
            Request::SetOptions(10, TRACE_OPTIONS),
            Request::Resume(10, None),
            Request::Poll(10),
            Request::ReadRss(10),
            Request::Detach(10),
            Request::Sleep,
        ]
    );
}

#[test]
fn root_is_resumed_at_its_exit_when_its_code_is_wanted() {
    let mut kernel = Kernel::new();
    kernel.process(10, 4096, &[Status::PtraceEvent(PTRACE_EVENT_EXIT), Status::Exited(3)]);
    let (pump, _) = finished(&mut kernel, 10, true);
    assert_eq!(pump.exit_code(), 3);
    assert_eq!(
        kernel.log,
        vec![
            Request::AwaitStop(10),
            Request::SetOptions(10, TRACE_OPTIONS),
            Request::Resume(10, None),
            Request::Poll(10),
            Request::ReadRss(10),
            Request::Resume(10, None),
            Request::Sleep,
            Request::Poll(10),
            Request::Sleep,
        ]
    );
}

#[test]
fn killed_before_any_descendant() {
    let mut kernel = Kernel::new();
    kernel.process(10, 4096, &[Status::Signaled(15)]);
    let (pump, report) = finished(&mut kernel, 10, true);
    assert_eq!(report.total_pids, 1);
    assert_eq!(report.total_reads, 1);
    assert_eq!(report.max_rss, 0);
    assert_eq!(report.exit_code, Some(128 + 15));
    assert_eq!(pump.exit_code(), 143);
}

#[test]
fn handshake_comes_first() {
    let (mut pump, first) = Pump::new(7, false);
    assert_eq!(first, Request::AwaitStop(7));
    assert_eq!(pump.phase(), Phase::Stopping);
    assert_eq!(pump.handle(Reply::Status(Status::Stopped(SIGSTOP))), Request::SetOptions(7, TRACE_OPTIONS));
    assert_eq!(pump.phase(), Phase::Configuring);
    assert_eq!(pump.handle(Reply::Done), Request::Resume(7, None));
    assert_eq!(pump.phase(), Phase::Starting);
    assert_eq!(pump.handle(Reply::Done), Request::Poll(7));
    assert_eq!(pump.phase(), Phase::Polling(7));
}

#[test]
fn handshake_failure_is_fatal() {
    let (mut pump, _) = Pump::new(7, false);
    assert_eq!(pump.handle(Reply::Failed(EPERM)), Request::Abort(Fault::Kernel(EPERM)));
    assert_eq!(pump.phase(), Phase::Failed(Fault::Kernel(EPERM)));
    assert_eq!(pump.handle(Reply::Done), Request::Abort(Fault::Kernel(EPERM)));

    let (mut pump, _) = Pump::new(7, false);
    pump.handle(Reply::Status(Status::Stopped(SIGSTOP)));
    assert_eq!(pump.handle(Reply::Failed(ESRCH)), Request::Abort(Fault::Kernel(ESRCH)));
}

fn started(root: i32, propagate: bool) -> Pump {
    let (mut pump, _) = Pump::new(root, propagate);
    pump.handle(Reply::Status(Status::Stopped(SIGSTOP)));
    pump.handle(Reply::Done);
    assert_eq!(pump.handle(Reply::Done), Request::Poll(root));
    pump
}

#[test]
fn signals_are_handed_back_but_for_the_trap() {
    let mut pump = started(7, false);
    assert_eq!(pump.handle(Reply::Status(Status::Stopped(SIGTRAP))), Request::Resume(7, None));
    assert_eq!(pump.handle(Reply::Done), Request::Sleep);
    assert_eq!(pump.handle(Reply::Done), Request::Poll(7));
    assert_eq!(pump.handle(Reply::Status(Status::Stopped(10))), Request::Resume(7, Some(10)));
    assert_eq!(pump.handle(Reply::Done), Request::Sleep);
    assert_eq!(pump.handle(Reply::Done), Request::Poll(7));
    assert_eq!(pump.handle(Reply::Status(Status::Other)), Request::Resume(7, None));
    assert_eq!(pump.handle(Reply::Done), Request::Sleep);
    assert_eq!(pump.handle(Reply::Done), Request::Poll(7));
    assert_eq!(pump.handle(Reply::Status(Status::PtraceEvent(4))), Request::Resume(7, None));
    assert_eq!(pump.handle(Reply::Failed(EPERM)), Request::Abort(Fault::Kernel(EPERM)));
}

#[test]
fn still_alive_is_passed_over() {
    let mut pump = started(7, false);
    assert_eq!(pump.handle(Reply::Status(Status::StillAlive)), Request::Sleep);
    assert_eq!(pump.phase(), Phase::Sleeping);
    assert_eq!(pump.handle(Reply::Done), Request::Poll(7));
    assert!(!pump.is_finished());
}

#[test]
fn poll_failure_is_fatal() {
    let mut pump = started(7, false);
    assert_eq!(pump.handle(Reply::Failed(10)), Request::Abort(Fault::Kernel(10)));
}

#[test]
fn wrong_reply_is_a_protocol_fault() {
    let mut pump = started(7, false);
    assert_eq!(pump.handle(Reply::Rss(1)), Request::Abort(Fault::Protocol));
    assert_eq!(pump.phase(), Phase::Failed(Fault::Protocol));
    assert_eq!(pump.handle(Reply::Status(Status::StillAlive)), Request::Abort(Fault::Protocol));
}

#[test]
fn vanished_at_detach_is_recovered() {
    let mut kernel = Kernel::new();
    kernel.process(
        1,
        100,
        &[
            Status::PtraceEvent(PTRACE_EVENT_FORK),
            Status::PtraceEvent(PTRACE_EVENT_EXIT),
            Status::Exited(0),
        ],
    );
    kernel.offspring(1, &[2]);
    kernel.process(
        2,
        20,
        &[Status::PtraceEvent(PTRACE_EVENT_FORK), Status::PtraceEvent(PTRACE_EVENT_EXIT)],
    );
    kernel.offspring(2, &[3]);
    kernel.process(3, 3, &exits());
    kernel.vanished.insert(3);
    let (_, report) = finished(&mut kernel, 1, true);
    assert_eq!(report.total_pids, 3);
    assert_eq!(report.total_reads, 2);
    assert_eq!(report.max_rss, 120);
}

#[test]
fn vanished_at_the_probe_is_recovered() {
    let mut kernel = Kernel::new();
    kernel.process(
        1,
        100,
        &[
            Status::PtraceEvent(PTRACE_EVENT_FORK),
            Status::PtraceEvent(PTRACE_EVENT_EXIT),
            Status::Exited(0),
        ],
    );
    kernel.offspring(1, &[2]);
    kernel.process(2, 20, &exits());
    kernel.unreadable.insert(2);
    let (pump, report) = finished(&mut kernel, 1, true);
    assert_eq!(report.total_pids, 2);
    assert_eq!(report.total_reads, 1);
    let child = pump.table().get(2).unwrap();
    assert!(child.exited);
    assert_eq!(child.rss, 0);
    assert!(!kernel.log.contains(&Request::Detach(2)));
}

#[test]
fn other_failures_at_detach_are_fatal() {
    let mut pump = started(7, false);
    assert_eq!(
        pump.handle(Reply::Status(Status::PtraceEvent(PTRACE_EVENT_EXIT))),
        Request::ReadRss(7)
    );
    assert_eq!(pump.handle(Reply::Rss(5)), Request::Detach(7));
    assert!(pump.table().get(7).unwrap().exited);
    assert_eq!(pump.handle(Reply::Failed(EPERM)), Request::Abort(Fault::Kernel(EPERM)));
}

#[test]
fn pass_goes_on_after_an_exit_is_seen() {
    let mut pump = started(1, false);
    assert_eq!(
        pump.handle(Reply::Status(Status::PtraceEvent(PTRACE_EVENT_CLONE))),
        Request::NewChild(1)
    );
    assert_eq!(pump.handle(Reply::Child(2)), Request::Resume(1, None));
    assert_eq!(pump.handle(Reply::Done), Request::Sleep);
    let first = pump.handle(Reply::Done);
    let (first, second) = match first {
        Request::Poll(1) => (1, 2),
        Request::Poll(2) => (2, 1),
        other => panic!("{:?}", other),
    };
    assert_eq!(
        pump.handle(Reply::Status(Status::PtraceEvent(PTRACE_EVENT_EXIT))),
        Request::ReadRss(first)
    );
    assert_eq!(pump.handle(Reply::Rss(9)), Request::Detach(first));
    assert_eq!(pump.handle(Reply::Done), Request::Poll(second));
    assert_eq!(pump.handle(Reply::Status(Status::StillAlive)), Request::Sleep);
    assert_eq!(pump.handle(Reply::Done), Request::Poll(second));
}

#[test]
fn every_alive_process_is_polled_once_in_a_pass() {
    let mut kernel = Kernel::new();
    kernel.process(1, 0, &[Status::PtraceEvent(PTRACE_EVENT_FORK); 4]);
    kernel.offspring(1, &[2, 3, 4, 5]);
    let (mut pump, mut request) = Pump::new(1, false);
    for _ in 0..200 {
        let reply = kernel.answer(request);
        request = pump.handle(reply);
    }
    assert_eq!(pump.table().len(), 5);
    let passes: Vec<&[Request]> = kernel.log.split(|request| *request == Request::Sleep).collect();
    assert!(passes.len() > 10);
    for pass in &passes[5..passes.len() - 1] {
        let mut polled: Vec<i32> = pass
            .iter()
            .map(|request| match request {
                Request::Poll(id) => *id,
                other => panic!("{:?}", other),
            })
            .collect();
        polled.sort();
        assert_eq!(polled, vec![1, 2, 3, 4, 5]);
    }
}

#[test]
fn pause_is_short() {
    assert_eq!(max_rss::protocol::PAUSE_MICROS, 200);
}

#[test]
fn constants_are_those_of_the_kernel() {
    assert_eq!(PTRACE_EVENT_FORK, nix::sys::ptrace::Event::PTRACE_EVENT_FORK as i32);
    assert_eq!(PTRACE_EVENT_VFORK, nix::sys::ptrace::Event::PTRACE_EVENT_VFORK as i32);
    assert_eq!(PTRACE_EVENT_CLONE, nix::sys::ptrace::Event::PTRACE_EVENT_CLONE as i32);
    assert_eq!(PTRACE_EVENT_EXIT, nix::sys::ptrace::Event::PTRACE_EVENT_EXIT as i32);
    assert_eq!(SIGTRAP as i32, nix::sys::signal::Signal::SIGTRAP as i32);
    let options = nix::sys::ptrace::Options::PTRACE_O_TRACEEXIT
        | nix::sys::ptrace::Options::PTRACE_O_TRACEFORK
        | nix::sys::ptrace::Options::PTRACE_O_TRACEVFORK
        | nix::sys::ptrace::Options::PTRACE_O_TRACECLONE;
    assert_eq!(TRACE_OPTIONS, options.bits());
    assert_eq!(TRACE_OPTIONS, 0x4e);
    assert_eq!(nix::sys::ptrace::Options::from_bits(TRACE_OPTIONS), Some(options));
    assert_eq!(ESRCH, nix::errno::Errno::ESRCH as i32);
}

/// Whether the records of the pump's table form a tree below `root`.
fn is_tree(pump: &Pump, root: i32) -> bool {
    let table = pump.table();
    let ids = table.ids();
    let mut parents: HashMap<i32, usize> = HashMap::new();
    for id in &ids {
        for child in &table.get(*id).unwrap().children {
            if !table.contains(*child) {
                return false;
            }
            *parents.entry(*child).or_insert(0) += 1;
        }
    }
    let nodes = count(&max_rss::graph::tree(root, table).unwrap()) as usize;
    !parents.contains_key(&root)
        && ids.iter().all(|id| *id == root || parents.get(id) == Some(&1))
        && nodes == ids.len()
}

fn busy_family(readings: [u64; 6]) -> Kernel {
    let mut kernel = Kernel::new();
    kernel.process(
        1,
        readings[0],
        &[
            Status::PtraceEvent(PTRACE_EVENT_FORK),
            Status::Stopped(17),
            Status::PtraceEvent(PTRACE_EVENT_CLONE),
            Status::StillAlive,
            Status::PtraceEvent(PTRACE_EVENT_EXIT),
            Status::Exited(4),
        ],
    );
    kernel.offspring(1, &[2, 3]);
    kernel.process(
        2,
        readings[1],
        &[
            Status::Stopped(SIGSTOP),
            Status::PtraceEvent(PTRACE_EVENT_VFORK),
            Status::PtraceEvent(PTRACE_EVENT_FORK),
            Status::PtraceEvent(PTRACE_EVENT_EXIT),
        ],
    );
    kernel.offspring(2, &[4, 5]);
    kernel.process(3, readings[2], &[Status::Stopped(SIGTRAP), Status::PtraceEvent(PTRACE_EVENT_EXIT)]);
    kernel.process(4, readings[3], &[Status::PtraceEvent(PTRACE_EVENT_FORK), Status::Signaled(11)]);
    kernel.offspring(4, &[6]);
    kernel.process(5, readings[4], &exits());
    kernel.process(6, readings[5], &exits());
    kernel
}

#[test]
fn table_is_a_tree_all_along() {
    let mut kernel = busy_family([1, 2, 3, 4, 5, 6]);
    let (mut pump, mut request) = Pump::new(1, true);
    let mut exited: HashSet<i32> = HashSet::new();
    while request != Request::Finish {
        assert!(is_tree(&pump, 1));
        for id in pump.table().ids() {
            if pump.table().get(id).unwrap().exited {
                exited.insert(id);
            }
        }
        for id in &exited {
            assert!(pump.table().get(*id).unwrap().exited);
        }
        let reply = kernel.answer(request);
        request = pump.handle(reply);
    }
    assert!(is_tree(&pump, 1));
    assert_eq!(pump.table().len(), 6);
    let report = pump.report().unwrap();
    assert_eq!(report.total_pids, 6);
    assert_eq!(report.total_reads, 3);
    assert!(report.total_reads <= report.total_pids);
    assert_eq!(report.max_rss, 1 + 2);
    assert_eq!(report.exit_code, Some(4));
    let reads = kernel.log.iter().filter(|request| matches!(request, Request::ReadRss(_))).count();
    assert_eq!(reads, 5);
    for id in 1..=6 {
        let asked = kernel.log.iter().filter(|request| **request == Request::ReadRss(id)).count();
        assert!(asked <= 1);
    }
}

fn without_readings(node: &Node) -> Node {
    Node {
        id: node.id,
        rss: 0,
        children: node
            .children
            .as_ref()
            .map(|children| children.iter().map(without_readings).collect()),
    }
}

#[test]
fn readings_do_not_change_the_shape() {
    let (_, small) = finished(&mut busy_family([1, 2, 3, 4, 5, 6]), 1, true);
    let (_, large) = finished(&mut busy_family([600, 50, 4000, 3, 20, 1]), 1, true);
    assert_eq!(small.total_pids, large.total_pids);
    assert_eq!(small.total_reads, large.total_reads);
    assert_eq!(small.exit_code, large.exit_code);
    assert_eq!(without_readings(&small.graph), without_readings(&large.graph));
    assert_ne!(small.graph, large.graph);
    assert_eq!(large.max_rss, 600 + 50);
}

#[test]
fn a_known_id_as_new_child_replaces_the_record() {
    let mut pump = started(1, false);
    pump.handle(Reply::Status(Status::PtraceEvent(PTRACE_EVENT_FORK)));
    pump.handle(Reply::Child(2));
    pump.handle(Reply::Done);
    let mut request = pump.handle(Reply::Done);
    // poll until process 2 is seen to exit, passing over process 1
    loop {
        match request {
            Request::Poll(2) => break,
            Request::Poll(1) => request = pump.handle(Reply::Status(Status::StillAlive)),
            Request::Sleep => request = pump.handle(Reply::Done),
            other => panic!("{:?}", other),
        }
    }
    assert_eq!(pump.handle(Reply::Status(Status::PtraceEvent(PTRACE_EVENT_EXIT))), Request::ReadRss(2));
    assert_eq!(pump.handle(Reply::Rss(77)), Request::Detach(2));
    let mut request = pump.handle(Reply::Done);
    loop {
        match request {
            Request::Poll(1) => break,
            Request::Sleep => request = pump.handle(Reply::Done),
            other => panic!("{:?}", other),
        }
    }
    assert!(pump.table().get(2).unwrap().exited);
    assert_eq!(pump.handle(Reply::Status(Status::PtraceEvent(PTRACE_EVENT_FORK))), Request::NewChild(1));
    assert_eq!(pump.handle(Reply::Child(2)), Request::Resume(1, None));
    let again = pump.table().get(2).unwrap();
    assert!(!again.exited);
    assert_eq!(again.rss, 0);
    assert_eq!(pump.table().get(1).unwrap().children, vec![2, 2]);
    assert_eq!(pump.table().len(), 2);
    assert!(!is_tree(&pump, 1));
}

#[test]
fn pump_remembers_what_it_was_made_for() {
    let (pump, _) = Pump::new(42, true);
    assert_eq!(pump.root(), 42);
    assert!(pump.propagate());
    assert_eq!(pump.exit_code(), 0);
    assert!(!pump.is_finished());
    assert_eq!(pump.table().len(), 1);
    assert!(pump.table().contains(42));
    let (pump, _) = Pump::new(-3, false);
    assert_eq!(pump.root(), -3);
    assert!(!pump.propagate());
}

#[test]
fn finished_pump_stays_finished() {
    let mut kernel = Kernel::new();
    kernel.process(10, 1, &exits());
    let (mut pump, last) = run(&mut kernel, 10, false);
    assert_eq!(last, Request::Finish);
    assert_eq!(pump.handle(Reply::Done), Request::Finish);
    assert_eq!(pump.handle(Reply::Failed(ESRCH)), Request::Finish);
    assert_eq!(pump.phase(), Phase::Finished);
}
