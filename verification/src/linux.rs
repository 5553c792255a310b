//! Recording on Linux, through ptrace.
//!
//! [`Tracer`] decides what each stop of a traced task means and what becomes
//! of the task next; whoever runs it waits for stops, reads what it asks for
//! and resumes tasks as it says.

use crate::ancestry::Ancestry;
#[allow(unused_imports)]
use crate::ancestry::{lemma_linked, AncestryView};
use crate::blind_spots::BlindSpots;
#[allow(unused_imports)]
use crate::blind_spots::{missed, BlindSpot};
use crate::model::{FileOpen, Process, Rename, Segment};
#[allow(unused_imports)]
use crate::model::{FileOpenView, RenameView, SegmentView};
use crate::perfetto::{WriteError, Writer};
#[allow(unused_imports)]
use crate::perfetto::reading::{lemma_segment_shown, shows_exit_code};
#[allow(unused_imports)]
use crate::perfetto::wire::{fits, Field};
#[allow(unused_imports)]
use crate::perfetto::{
    file_open_packet, process_started_packets, rename_packet, segment_begin, segment_packets,
};
#[allow(unused_imports)]
use crate::status::{clamped, detail, exit_code, fate};
use crate::status::clamp_code;
use crate::table::{holds_value, keys};
use crate::text::{join_texts, push_signed, text_file_name};
#[allow(unused_imports)]
use crate::text::{
    before_nul, bytes_of, contents, decimal, decoded, file_name, joined, text_of, views,
};
use ptrace::{wexitstatus, wifexited, wifsignaled, wifstopped, wstopevent, wstopsig, wtermsig};
#[allow(unused_imports)]
use ptrace::{signaled, stop_event, stopped};
use seccomp::{is_bare_rename, is_rename, SyscallNumbers};
#[allow(unused_imports)]
use seccomp::renames;
use std::collections::{HashMap, HashSet};
use tracee::{c_string, resolve_at_path, resolve_open_path};
#[allow(unused_imports)]
use tracee::resolved;
use vstd::prelude::*;
use vstd::string::*;

pub mod history;
pub mod laws;
pub mod ptrace;
pub mod seccomp;
pub mod tracee;

verus! {

broadcast use vstd::std_specs::hash::group_hash_axioms;

pub const MINIMUM_SEGMENT_DURATION_NS: u64 = 1;

pub const SIGNAL_EXIT_STATUS_OFFSET: i32 = 128;

/// Exit status of the forked child when it cannot make itself traceable.
pub const TRACE_SETUP_FAILURE_STATUS: i32 = 126;

/// Exit status of the forked child when the command itself cannot start.
pub const EXEC_FAILURE_STATUS: i32 = 127;

pub const AT_FDCWD: i32 = -100;

/// What is known of a process that is running.
#[derive(Debug)]
pub struct ProcessState {
    pub process: Process,
    pub segment: Option<Segment>,
}

#[verifier::ext_equal]
pub struct ProcessStateView {
    pub process: Process,
    pub segment: Option<SegmentView>,
}

impl View for ProcessState {
    type V = ProcessStateView;

    open spec fn view(&self) -> ProcessStateView {
        ProcessStateView {
            process: self.process,
            segment: match self.segment {
                Some(segment) => Some(segment@),
                None => None,
            },
        }
    }
}

/// A file that a task is about to open.
#[derive(Debug)]
pub struct PendingOpen {
    pub timestamp_ns: u64,
    pub raw_path: String,
    pub flags: u64,
}

#[verifier::ext_equal]
pub struct PendingOpenView {
    pub timestamp_ns: u64,
    pub raw_path: Seq<char>,
    pub flags: u64,
}

impl View for PendingOpen {
    type V = PendingOpenView;

    open spec fn view(&self) -> PendingOpenView {
        PendingOpenView {
            timestamp_ns: self.timestamp_ns,
            raw_path: self.raw_path@,
            flags: self.flags,
        }
    }
}

/// What a tracer knows at one moment.
#[verifier::ext_equal]
pub struct TracerView {
    pub root_pid: i32,
    pub root_exit_code: Option<u8>,
    /// Tasks that have not ended.
    pub active: Set<i32>,
    /// Tasks whose initial stop has been seen.
    pub started: Set<i32>,
    /// The process that each task belongs to.
    pub tasks: Map<i32, i32>,
    /// Tasks announced by a parent and not seen since, with that parent.
    pub newborns: Map<i32, i32>,
    pub pending_opens: Map<i32, PendingOpenView>,
    pub pending_renames: Map<i32, RenameView>,
    pub exit_codes: Map<i32, u32>,
    pub processes: Map<i32, ProcessStateView>,
    pub ancestry: AncestryView,
}

pub struct Tracer {
    root_pid: i32,
    root_exit_code: Option<u8>,
    active: HashSet<i32>,
    // Initial stops and parent clone events may arrive in either order.
    started: HashSet<i32>,
    tasks: HashMap<i32, i32>,
    newborns: HashMap<i32, i32>,
    pending_opens: HashMap<i32, PendingOpen>,
    pending_renames: HashMap<i32, Rename>,
    exit_codes: HashMap<i32, u32>,
    processes: HashMap<i32, ProcessState>,
    ancestry: Ancestry,
}

impl View for Tracer {
    type V = TracerView;

    closed spec fn view(&self) -> TracerView {
        TracerView {
            root_pid: self.root_pid,
            root_exit_code: self.root_exit_code,
            active: self.active@,
            started: self.started@,
            tasks: self.tasks@,
            newborns: self.newborns@,
            pending_opens: self.pending_opens@.map_values(|pending: PendingOpen| pending@),
            pending_renames: self.pending_renames@.map_values(|pending: Rename| pending@),
            exit_codes: self.exit_codes@,
            processes: self.processes@.map_values(|state: ProcessState| state@),
            ancestry: self.ancestry@,
        }
    }
}

/// What to do with a task that stopped.
#[derive(Clone, Copy, Debug, PartialEq, Eq)]
pub enum Next {
    /// Nothing; the task did not stop.
    Ignore,
    /// The task is gone. With it ended a process that ran from `start_ns` on.
    Exited { process: Option<(i32, u64)> },
    /// Let the task run, up to its next system call or not, after handing it
    /// a signal.
    Resume { signal: i32, to_syscall: bool },
    /// Look at a ptrace event.
    Event { event: u32 },
    /// Look at a system call.
    Syscall,
}

impl TracerView {
    /// What is known of a command that is stopped before it runs.
    pub open spec fn fresh(
        child: i32,
        name: Seq<char>,
        command: Seq<char>,
        cwd: Seq<char>,
    ) -> TracerView {
        TracerView {
            root_pid: child,
            root_exit_code: None,
            active: set![child],
            started: set![child],
            tasks: map![child => child],
            newborns: Map::empty(),
            pending_opens: Map::empty(),
            pending_renames: Map::empty(),
            exit_codes: Map::empty(),
            processes: map![
                child => ProcessStateView {
                    process: Process {
                        pid: child,
                        parent_pid: 0,
                        build_parent_pid: 0,
                        execed: false,
                    },
                    segment: Some(
                        SegmentView {
                            start_ns: 0,
                            end_ns: 0,
                            name,
                            command,
                            cwd,
                            exit_code: None,
                        },
                    ),
                }
            ],
            ancestry: AncestryView::nobody().born(child, 0),
        }
    }

    /// The process that a task belongs to.
    pub open spec fn tgid(self, tid: i32) -> i32 {
        if self.tasks.contains_key(tid) {
            self.tasks[tid]
        } else {
            tid
        }
    }

    /// The nearest ancestor known to have run a program of its own, of a
    /// process that `parent_pid` creates now.
    pub open spec fn build_parent(self, parent_pid: i32) -> i32 {
        self.ancestry.nearest(parent_pid)
    }

    /// Whether a task is inside a call whose end matters.
    pub open spec fn pending(self, tid: i32) -> bool {
        self.pending_opens.contains_key(tid) || self.pending_renames.contains_key(tid)
    }

    /// How a task goes on.
    pub open spec fn resumed(self, tid: i32, signal: i32) -> Next {
        Next::Resume { signal, to_syscall: self.pending(tid) }
    }

    /// What is known of a process forked by another.
    pub open spec fn forked(self, tgid: i32, parent_tgid: i32, now_ns: u64) -> ProcessStateView {
        let parent = if self.processes.contains_key(parent_tgid) {
            self.processes[parent_tgid].segment
        } else {
            None
        };
        ProcessStateView {
            process: Process {
                pid: tgid,
                parent_pid: parent_tgid,
                build_parent_pid: self.build_parent(parent_tgid),
                execed: false,
            },
            segment: Some(
                SegmentView {
                    start_ns: now_ns,
                    end_ns: 0,
                    name: match parent {
                        Some(segment) => "fork:"@ + segment.name,
                        None => "fork"@,
                    },
                    command: match parent {
                        Some(segment) => segment.command,
                        None => Seq::empty(),
                    },
                    cwd: match parent {
                        Some(segment) => segment.cwd,
                        None => Seq::empty(),
                    },
                    exit_code: None,
                },
            ),
        }
    }

    /// Whether registering a task brings a process that was not known.
    pub open spec fn announces(self, tgid: i32, parent_tgid: i32) -> bool {
        tgid != parent_tgid && !self.processes.contains_key(tgid)
    }

    /// After a task of process `tgid`, created by `parent_tgid`, was registered.
    pub open spec fn registered(
        self,
        tid: i32,
        tgid: i32,
        parent_tgid: i32,
        now_ns: u64,
    ) -> TracerView {
        TracerView {
            tasks: self.tasks.insert(tid, tgid),
            processes: if self.announces(tgid, parent_tgid) {
                self.processes.insert(tgid, self.forked(tgid, parent_tgid, now_ns))
            } else {
                self.processes
            },
            ancestry: if self.announces(tgid, parent_tgid) {
                self.ancestry.born(tgid, parent_tgid)
            } else {
                self.ancestry
            },
            ..self
        }
    }

    /// After a task created another one, which belongs to process `tgid` or is
    /// one of its own.
    pub open spec fn created(
        self,
        tid: i32,
        child: i32,
        tgid: Option<i32>,
        now_ns: u64,
    ) -> TracerView {
        let parent = self.tgid(tid);
        TracerView {
            active: self.active.insert(child),
            newborns: self.newborns.insert(child, parent),
            ..self.registered(
                child,
                match tgid {
                    Some(tgid) => tgid,
                    None => child,
                },
                parent,
                now_ns,
            )
        }
    }

    /// What a registration writes.
    pub open spec fn announcement(self, tgid: i32, parent_tgid: i32) -> Seq<Seq<Field>> {
        if self.announces(tgid, parent_tgid) {
            process_started_packets(tgid)
        } else {
            Seq::empty()
        }
    }
}

/// Registering a task twice is harmless: the second time changes nothing and
/// announces nothing.
pub proof fn lemma_registration_idempotent(
    state: TracerView,
    tid: i32,
    tgid: i32,
    parent_tgid: i32,
    now_ns: u64,
    later_ns: u64,
)
    ensures
        ({
            let once = state.registered(tid, tgid, parent_tgid, now_ns);
            &&& once.registered(tid, tgid, parent_tgid, later_ns) == once
            &&& once.announcement(tgid, parent_tgid) == Seq::<Seq<Field>>::empty()
        }),
{
    let once = state.registered(tid, tgid, parent_tgid, now_ns);
    assert(once.registered(tid, tgid, parent_tgid, later_ns) =~= once);
}

/// The name of a task that has no better one.
pub open spec fn task_name(tid: i32) -> Seq<char> {
    "pid:"@ + decimal(tid as int)
}

fn task_text(tid: i32) -> (name: String)
    ensures
        name@ == task_name(tid),
{
    let mut name = "pid:".to_owned();
    push_signed(&mut name, tid as i64);
    name
}

/// The texts of arguments that may be missing.
pub open spec fn argument_texts(argv: Option<Vec<String>>) -> Option<Seq<Seq<char>>> {
    match argv {
        Some(argv) => Some(views(argv@)),
        None => None,
    }
}

/// The arguments of a program that a task began to run.
pub open spec fn exec_arguments(tid: i32, argv: Option<Seq<Seq<char>>>) -> Seq<Seq<char>> {
    match argv {
        Some(argv) => argv,
        None => seq![task_name(tid)],
    }
}

/// The name of a program that a task began to run.
pub open spec fn exec_name(tid: i32, argv: Seq<Seq<char>>) -> Seq<char> {
    if argv.len() > 0 && file_name(argv[0]) is Some {
        file_name(argv[0])->0
    } else {
        task_name(tid)
    }
}

/// A point in time, but never before a segment that ends there has lasted.
pub open spec fn end_after(now_ns: u64, start_ns: u64) -> u64 {
    let soonest = if start_ns == u64::MAX {
        u64::MAX
    } else {
        (start_ns + 1) as u64
    };
    if now_ns < soonest {
        soonest
    } else {
        now_ns
    }
}

impl TracerView {
    /// After a process first seen when it ran a program was taken in.
    pub open spec fn adopted(self, tid: i32, tgid: i32, parent_pid: i32, now_ns: u64) -> TracerView {
        TracerView {
            tasks: if self.tasks.contains_key(tid) {
                self.tasks
            } else {
                self.tasks.insert(tid, tgid)
            },
            active: self.active.insert(tid),
            processes: self.processes.insert(
                tgid,
                ProcessStateView {
                    process: Process {
                        pid: tgid,
                        parent_pid,
                        build_parent_pid: self.build_parent(parent_pid),
                        execed: false,
                    },
                    segment: Some(
                        SegmentView {
                            start_ns: now_ns,
                            end_ns: 0,
                            name: Seq::empty(),
                            command: Seq::empty(),
                            cwd: Seq::empty(),
                            exit_code: None,
                        },
                    ),
                },
            ),
            ancestry: self.ancestry.born(tgid, parent_pid),
            ..self
        }
    }

    /// With the process of a task known, taking it in if need be.
    pub open spec fn known(self, tid: i32, parent_pid: Option<i32>, now_ns: u64) -> TracerView {
        let tgid = self.tgid(tid);
        if self.processes.contains_key(tgid) {
            self
        } else {
            self.adopted(
                tid,
                tgid,
                match parent_pid {
                    Some(parent_pid) => parent_pid,
                    None => 0,
                },
                now_ns,
            )
        }
    }

    /// The segment that ends when a task runs another program, if one does.
    pub open spec fn replaced(self, tid: i32, now_ns: u64) -> Option<(Process, SegmentView)> {
        let tgid = self.tgid(tid);
        if self.processes.contains_key(tgid) && self.processes[tgid].process.execed {
            match self.processes[tgid].segment {
                Some(segment) => Some(
                    (
                        self.processes[tgid].process,
                        SegmentView { end_ns: end_after(now_ns, segment.start_ns), ..segment },
                    ),
                ),
                None => None,
            }
        } else {
            None
        }
    }

    /// After a task began to run a program.
    pub open spec fn execed(
        self,
        tid: i32,
        argv: Seq<Seq<char>>,
        cwd: Seq<char>,
        parent_pid: Option<i32>,
        now_ns: u64,
    ) -> TracerView {
        let tgid = self.tgid(tid);
        let known = self.known(tid, parent_pid, now_ns);
        let state = known.processes[tgid];
        let name = exec_name(tid, argv);
        let command = joined(argv, " "@);
        let running = if state.process.execed {
            ProcessStateView {
                process: state.process,
                segment: Some(
                    SegmentView { start_ns: now_ns, end_ns: 0, name, command, cwd, exit_code: None },
                ),
            }
        } else {
            ProcessStateView {
                process: Process { execed: true, ..state.process },
                segment: match state.segment {
                    Some(segment) => Some(SegmentView { name, command, cwd, ..segment }),
                    None => None,
                },
            }
        };
        TracerView {
            processes: known.processes.insert(tgid, running),
            ancestry: if state.process.execed {
                known.ancestry
            } else {
                known.ancestry.ran(tgid)
            },
            ..known
        }
    }

    /// What running a program writes.
    pub open spec fn exec_packets(self, tid: i32, now_ns: u64) -> Seq<Seq<Field>> {
        let tgid = self.tgid(tid);
        if !self.processes.contains_key(tgid) {
            process_started_packets(tgid)
        } else {
            match self.replaced(tid, now_ns) {
                Some((process, segment)) => segment_packets(process, segment),
                None => Seq::empty(),
            }
        }
    }

    /// Whether what running a program ends can be written.
    pub open spec fn exec_fits(self, tid: i32, now_ns: u64) -> bool {
        match self.replaced(tid, now_ns) {
            Some((process, segment)) => fits(segment_begin(process, segment)),
            None => true,
        }
    }

    /// After a task ended, before its process is looked at.
    pub open spec fn ended(self, tid: i32, code: u32) -> TracerView {
        TracerView {
            active: self.active.remove(tid),
            started: self.started.remove(tid),
            pending_opens: self.pending_opens.remove(tid),
            pending_renames: self.pending_renames.remove(tid),
            newborns: self.newborns.remove(tid),
            tasks: self.tasks.remove(tid),
            root_exit_code: if tid == self.root_pid {
                Some(clamped(code))
            } else {
                self.root_exit_code
            },
            exit_codes: self.exit_codes.insert(self.tgid(tid), code),
            ..self
        }
    }

    /// The segment that ends with a task, if it was the last of its process.
    pub open spec fn last_segment(self, tid: i32, code: u32, now_ns: u64) -> Option<
        (Process, SegmentView),
    > {
        let tgid = self.tgid(tid);
        let ended = self.ended(tid, code);
        if ended.tasks.contains_value(tgid) || !ended.processes.contains_key(tgid) {
            None
        } else {
            match ended.processes[tgid].segment {
                Some(segment) => Some(
                    (
                        ended.processes[tgid].process,
                        SegmentView {
                            end_ns: end_after(now_ns, segment.start_ns),
                            exit_code: Some(code),
                            ..segment
                        },
                    ),
                ),
                None => None,
            }
        }
    }

    /// After a task ended.
    pub open spec fn exited(self, tid: i32, code: u32, now_ns: u64) -> TracerView {
        let tgid = self.tgid(tid);
        let ended = self.ended(tid, code);
        if ended.tasks.contains_value(tgid) {
            ended
        } else {
            TracerView {
                processes: ended.processes.remove(tgid),
                ancestry: if ended.processes.contains_key(tgid) {
                    ended.ancestry.gone(tgid)
                } else {
                    ended.ancestry
                },
                exit_codes: if self.last_segment(tid, code, now_ns) is Some {
                    ended.exit_codes.remove(tgid)
                } else {
                    ended.exit_codes
                },
                ..ended
            }
        }
    }
}

/// A process that becomes known gets its tracks in the same step, and nothing
/// else does: registering a task introduces at most the task's process, and
/// so does a program that a task begins to run.
pub proof fn lemma_known_once_announced(
    state: TracerView,
    tid: i32,
    tgid: i32,
    parent_tgid: i32,
    argv: Seq<Seq<char>>,
    cwd: Seq<char>,
    parent_pid: Option<i32>,
    now_ns: u64,
)
    ensures
        ({
            let registered = state.registered(tid, tgid, parent_tgid, now_ns);
            &&& state.announces(tgid, parent_tgid) ==> registered.processes.dom()
                == state.processes.dom().insert(tgid) && state.announcement(tgid, parent_tgid)
                == process_started_packets(tgid)
            &&& !state.announces(tgid, parent_tgid) ==> registered.processes == state.processes
                && state.announcement(tgid, parent_tgid) == Seq::<Seq<Field>>::empty()
        }),
        ({
            let execed = state.execed(tid, argv, cwd, parent_pid, now_ns);
            &&& execed.processes.dom() == state.processes.dom().insert(state.tgid(tid))
            &&& !state.processes.contains_key(state.tgid(tid)) ==> state.exec_packets(tid, now_ns)
                == process_started_packets(state.tgid(tid))
        }),
{
    let registered = state.registered(tid, tgid, parent_tgid, now_ns);
    if state.announces(tgid, parent_tgid) {
        assert(registered.processes.dom() =~= state.processes.dom().insert(tgid));
    }
    let execed = state.execed(tid, argv, cwd, parent_pid, now_ns);
    assert(execed.processes.dom() =~= state.processes.dom().insert(state.tgid(tid)));
}

/// The programs that a process runs one after the other follow each other
/// without a gap: the slice of one ends when that of the next begins, or a
/// moment later if it would be empty.
pub proof fn lemma_programs_adjoin(
    state: TracerView,
    tid: i32,
    argv: Seq<Seq<char>>,
    cwd: Seq<char>,
    parent_pid: Option<i32>,
    now_ns: u64,
)
    ensures
        state.replaced(tid, now_ns) matches Some((process, segment)) ==> {
            let next = state.execed(tid, argv, cwd, parent_pid, now_ns).processes[state.tgid(
                tid,
            )].segment;
            &&& next is Some
            &&& next->0.start_ns == now_ns
            &&& segment.end_ns >= now_ns
            &&& segment.end_ns > segment.start_ns || segment.start_ns == u64::MAX
            &&& segment.start_ns < now_ns ==> segment.end_ns == now_ns
        },
{
}

/// A process is written and forgotten when the last of its tasks ends, and
/// not before; other processes are left alone.
pub proof fn lemma_process_ends_with_last_task(
    state: TracerView,
    tid: i32,
    code: u32,
    now_ns: u64,
)
    ensures
        ({
            let tgid = state.tgid(tid);
            let after = state.exited(tid, code, now_ns);
            let others = exists|other: i32|
                other != tid && #[trigger] state.tasks.contains_key(other) && state.tasks[other]
                    == tgid;
            &&& others ==> after.processes == state.processes && state.last_segment(
                tid,
                code,
                now_ns,
            ) is None
            &&& !others ==> after.processes == state.processes.remove(tgid) && (state.last_segment(
                tid,
                code,
                now_ns,
            ) is Some <==> state.processes.contains_key(tgid)
                && state.processes[tgid].segment is Some)
        }),
{
    let tgid = state.tgid(tid);
    let left = state.tasks.remove(tid);
    if exists|other: i32|
        other != tid && #[trigger] state.tasks.contains_key(other) && state.tasks[other] == tgid {
        let other = choose|other: i32|
            other != tid && #[trigger] state.tasks.contains_key(other) && state.tasks[other]
                == tgid;
        assert(left.contains_key(other) && left[other] == tgid);
        assert(left.contains_value(tgid));
    }
    if left.contains_value(tgid) {
        let other = choose|other: i32| #[trigger]
            left.dom().contains(other) && left[other] == tgid;
        assert(state.tasks.contains_key(other));
    }
}

/// Every process stands under its own pid, and where it came from is known.
pub open spec fn consistent(state: TracerView) -> bool {
    &&& state.ancestry.linked()
    &&& state.ancestry.members.dom() == state.processes.dom()
    &&& forall|pid: i32| #[trigger]
        state.processes.contains_key(pid) ==> state.processes[pid].process.pid == pid
            && state.ancestry.members[pid].execed == state.processes[pid].process.execed
}

impl Tracer {
    pub closed spec fn wf(&self) -> bool {
        consistent(self@)
    }

    /// A tracer's processes stand under their own pids, and where they came
    /// from is known.
    pub proof fn lemma_consistent(&self)
        requires
            self.wf(),
        ensures
            consistent(self@),
    {
    }

    /// Starts with a command that is stopped before it runs.
    pub fn new(child: i32, name: String, command: String, cwd: String, writer: &mut Writer) -> (result:
        Result<Self, WriteError>)
        requires
            old(writer).wf(),
        ensures
            final(writer).extends(old(writer), process_started_packets(child)),
            result is Ok,
            result->Ok_0.wf(),
            result->Ok_0@ == TracerView::fresh(child, name@, command@, cwd@),
    {
        writer.process_started(child)?;
        let mut active: HashSet<i32> = HashSet::new();
        active.insert(child);
        // The caller consumes the root's initial stop.
        let mut started: HashSet<i32> = HashSet::new();
        started.insert(child);
        let mut tasks: HashMap<i32, i32> = HashMap::new();
        tasks.insert(child, child);
        let state = ProcessState {
            process: Process { pid: child, parent_pid: 0, build_parent_pid: 0, execed: false },
            segment: Some(
                Segment { start_ns: 0, end_ns: 0, name, command, cwd, exit_code: None },
            ),
        };
        let mut processes: HashMap<i32, ProcessState> = HashMap::new();
        processes.insert(child, state);
        let mut ancestry = Ancestry::new();
        ancestry.start(child, 0);
        let tracer = Tracer {
            root_pid: child,
            root_exit_code: None,
            active,
            started,
            tasks,
            newborns: HashMap::new(),
            pending_opens: HashMap::new(),
            pending_renames: HashMap::new(),
            exit_codes: HashMap::new(),
            processes,
            ancestry,
        };
        proof {
            assert(tracer@.pending_opens =~= Map::empty());
            assert(tracer@.pending_renames =~= Map::empty());
            assert(tracer@.processes =~= map![child => state@]);
            assert(tracer@.ancestry.members.dom() =~= tracer@.processes.dom());
        }
        Ok(tracer)
    }
}

impl Tracer {
    /// Whether any task is left to wait for.
    pub fn running(&self) -> (running: bool)
        ensures
            running == !self@.active.is_empty(),
    {
        !self.active.is_empty()
    }

    /// Whether the process of a task has to be looked up when it stops.
    pub fn is_newborn(&self, tid: i32) -> (newborn: bool)
        ensures
            newborn == self@.newborns.contains_key(tid),
    {
        self.newborns.contains_key(&tid)
    }

    fn tgid_of(&self, tid: i32) -> (tgid: i32)
        ensures
            tgid == self@.tgid(tid),
    {
        match self.tasks.get(&tid) {
            Some(tgid) => *tgid,
            None => tid,
        }
    }

    fn resume_with_mode(&self, tid: i32, signal: i32) -> (next: Next)
        ensures
            next == self@.resumed(tid, signal),
    {
        Next::Resume {
            signal,
            to_syscall: self.pending_opens.contains_key(&tid) || self.pending_renames.contains_key(
                &tid,
            ),
        }
    }

    /// Registers a task, and its process if that is new.
    fn initialize_newborn(
        &mut self,
        tid: i32,
        parent_tgid: i32,
        tgid: Option<i32>,
        now_ns: u64,
        writer: &mut Writer,
    ) -> (result: Result<(), WriteError>)
        requires
            old(self).wf(),
            old(writer).wf(),
        ensures
            result is Ok,
            final(self).wf(),
            ({
                let tgid = match tgid {
                    Some(tgid) => tgid,
                    None => tid,
                };
                &&& final(self)@ == old(self)@.registered(tid, tgid, parent_tgid, now_ns)
                &&& final(writer).extends(
                    old(writer),
                    old(self)@.announcement(tgid, parent_tgid),
                )
            }),
    {
        let tgid: i32 = match tgid {
            Some(tgid) => tgid,
            None => tid,
        };
        self.tasks.insert(tid, tgid);
        if tgid == parent_tgid || self.processes.contains_key(&tgid) {
            return Ok(());
        }
        let build_parent_pid: i32 = self.ancestry.nearest(parent_tgid);
        let (name, command, cwd) = match self.processes.get(&parent_tgid) {
            Some(parent) => match &parent.segment {
                Some(segment) => {
                    let mut name = "fork:".to_owned();
                    name.append(segment.name.as_str());
                    (name, segment.command.clone(), segment.cwd.clone())
                },
                None => ("fork".to_owned(), String::new(), String::new()),
            },
            None => ("fork".to_owned(), String::new(), String::new()),
        };
        writer.process_started(tgid)?;
        let state = ProcessState {
            process: Process { pid: tgid, parent_pid: parent_tgid, build_parent_pid, execed: false },
            segment: Some(
                Segment { start_ns: now_ns, end_ns: 0, name, command, cwd, exit_code: None },
            ),
        };
        assert(state@ == old(self)@.forked(tgid, parent_tgid, now_ns));
        self.processes.insert(tgid, state);
        self.ancestry.start(tgid, parent_tgid);
        proof {
            assert(self@.processes =~= old(self)@.processes.insert(tgid, state@));
            lemma_linked(old(self)@.ancestry, tgid, parent_tgid);
            assert(self@.ancestry.members.dom() =~= self@.processes.dom());
        }
        Ok(())
    }

    /// Takes note of a task that another one created.
    pub fn handle_new_task(
        &mut self,
        tid: i32,
        message: u64,
        tgid: Option<i32>,
        now_ns: u64,
        writer: &mut Writer,
    ) -> (result: Result<Next, WriteError>)
        requires
            old(self).wf(),
            old(writer).wf(),
        ensures
            final(self).wf(),
            final(self)@ == old(self)@.created(tid, message as i32, tgid, now_ns),
            final(writer).extends(
                old(writer),
                old(self)@.announcement(
                    match tgid {
                        Some(tgid) => tgid,
                        None => message as i32,
                    },
                    old(self)@.tgid(tid),
                ),
            ),
            result == Ok::<Next, WriteError>(final(self)@.resumed(tid, 0)),
    {
        let child: i32 = #[verifier::truncate] (message as i32);
        let parent: i32 = self.tgid_of(tid);
        self.active.insert(child);
        // Register immediately because clone and child stops race.
        // Re-registration is harmless.
        self.initialize_newborn(child, parent, tgid, now_ns, writer)?;
        self.newborns.insert(child, parent);
        Ok(self.resume_with_mode(tid, 0))
    }

    /// Register a process first observed at exec, with the parent it says it has.
    fn adopt_unknown_process(
        &mut self,
        tid: i32,
        tgid: i32,
        parent_pid: Option<i32>,
        now_ns: u64,
        writer: &mut Writer,
    ) -> (result: Result<(), WriteError>)
        requires
            old(self).wf(),
            old(writer).wf(),
            !old(self)@.processes.contains_key(tgid),
        ensures
            result is Ok,
            final(self).wf(),
            final(self)@ == old(self)@.adopted(
                tid,
                tgid,
                match parent_pid {
                    Some(parent_pid) => parent_pid,
                    None => 0,
                },
                now_ns,
            ),
            final(writer).extends(old(writer), process_started_packets(tgid)),
    {
        let parent_pid: i32 = match parent_pid {
            Some(parent_pid) => parent_pid,
            None => 0,
        };
        let build_parent_pid: i32 = self.ancestry.nearest(parent_pid);
        if !self.tasks.contains_key(&tid) {
            self.tasks.insert(tid, tgid);
        }
        self.active.insert(tid);
        writer.process_started(tgid)?;
        let state = ProcessState {
            process: Process { pid: tgid, parent_pid, build_parent_pid, execed: false },
            segment: Some(
                Segment {
                    start_ns: now_ns,
                    end_ns: 0,
                    name: String::new(),
                    command: String::new(),
                    cwd: String::new(),
                    exit_code: None,
                },
            ),
        };
        self.processes.insert(tgid, state);
        self.ancestry.start(tgid, parent_pid);
        proof {
            assert(self@.processes =~= old(self)@.processes.insert(tgid, state@));
            lemma_linked(old(self)@.ancestry, tgid, parent_pid);
            assert(self@.ancestry.members.dom() =~= self@.processes.dom());
        }
        Ok(())
    }

    /// Takes note that a task began to run a program: its arguments, working
    /// directory and parent as far as they could be read.
    pub fn handle_exec(
        &mut self,
        tid: i32,
        argv: Option<Vec<String>>,
        cwd: Option<String>,
        parent_pid: Option<i32>,
        now_ns: u64,
        writer: &mut Writer,
        blind_spots: &mut BlindSpots,
    ) -> (result: Result<Next, WriteError>)
        requires
            old(self).wf(),
            old(writer).wf(),
        ensures
            final(self).wf(),
            ({
                let arguments = exec_arguments(tid, argument_texts(argv));
                let directory = match cwd {
                    Some(cwd) => cwd@,
                    None => Seq::empty(),
                };
                let done = old(self)@.execed(tid, arguments, directory, parent_pid, now_ns);
                &&& result == (if old(self)@.exec_fits(tid, now_ns) {
                    Ok::<Next, WriteError>(done.resumed(tid, 0))
                } else {
                    Err(WriteError::TooLong)
                })
                &&& result is Ok ==> final(self)@ == done
                &&& result is Ok ==> final(writer).extends(
                    old(writer),
                    old(self)@.exec_packets(tid, now_ns),
                )
                &&& result is Err ==> final(self)@ == old(self)@
                &&& result is Err ==> final(writer).extends(old(writer), Seq::empty())
                &&& forall|spot: BlindSpot| #[trigger]
                    final(blind_spots).seen(spot) == (match (
                        old(blind_spots).seen(spot),
                        missed(arguments),
                    ) {
                        (None, Some((noticed, program))) => if noticed == spot {
                            Some(program)
                        } else {
                            None
                        },
                        (seen, _) => seen,
                    })
            }),
    {
        let tgid: i32 = self.tgid_of(tid);
        let ghost given = argument_texts(argv);
        let argv = match argv {
            Some(argv) => argv,
            None => {
                let mut alone: Vec<String> = Vec::new();
                alone.push(task_text(tid));
                assert(views(alone@) =~= seq![task_name(tid)]);
                alone
            },
        };
        let ghost arguments = exec_arguments(tid, given);
        assert(views(argv@) == arguments);
        blind_spots.observe(argv.as_slice());
        let command = join_texts(argv.as_slice(), " ");
        let name = if argv.len() > 0 {
            assert(arguments[0] == argv@[0]@);
            match text_file_name(argv[0].as_str()) {
                Some(name) => name,
                None => task_text(tid),
            }
        } else {
            task_text(tid)
        };
        let cwd = match cwd {
            Some(cwd) => cwd,
            None => String::new(),
        };
        // Exec and the parent's fork event may be observed out of order.
        if !self.processes.contains_key(&tgid) {
            self.adopt_unknown_process(tid, tgid, parent_pid, now_ns, writer)?;
        }
        let ghost known = self@;
        assert(known == old(self)@.known(tid, parent_pid, now_ns));
        assert(known.processes.contains_key(tgid));
        let mut state = match self.processes.remove(&tgid) {
            Some(state) => state,
            None => {
                return Ok(self.resume_with_mode(tid, 0));
            },
        };
        let ghost before = state@;
        assert(before == known.processes[tgid]);
        if state.process.execed {
            let mut previous = None;
            std::mem::swap(&mut previous, &mut state.segment);
            if let Some(mut segment) = previous {
                let end_ns: u64 = segment.end_ns;
                let soonest: u64 = segment.start_ns.saturating_add(MINIMUM_SEGMENT_DURATION_NS);
                segment.end_ns = if now_ns < soonest {
                    soonest
                } else {
                    now_ns
                };
                assert(old(self)@.replaced(tid, now_ns) == Some((state.process, segment@)));
                if let Err(error) = writer.segment(state.process, &segment) {
                    segment.end_ns = end_ns;
                    state.segment = Some(segment);
                    assert(state@ == before);
                    self.processes.insert(tgid, state);
                    assert(self@.processes =~= known.processes);
                    assert(self@ =~= old(self)@);
                    assert(writer@ =~= old(writer)@ + Seq::empty());
                    return Err(error);
                }
            }
            state.segment = Some(
                Segment { start_ns: now_ns, end_ns: 0, name, command, cwd, exit_code: None },
            );
        } else {
            state.process.execed = true;
            self.ancestry.exec(tgid);
            let mut initial = None;
            std::mem::swap(&mut initial, &mut state.segment);
            if let Some(mut segment) = initial {
                segment.name = name;
                segment.command = command;
                segment.cwd = cwd;
                state.segment = Some(segment);
            }
        }
        let ghost after = state@;
        self.processes.insert(tgid, state);
        proof {
            assert(self@.processes =~= known.processes.insert(tgid, after));
            lemma_linked(known.ancestry, tgid, tgid);
            assert(self@.ancestry.members.dom() =~= self@.processes.dom());
            assert(writer@ =~= old(writer)@ + old(self)@.exec_packets(tid, now_ns));
        }
        Ok(self.resume_with_mode(tid, 0))
    }
}

impl Tracer {
    /// Takes note that a task ended. If it was the last of its process, the
    /// process's segment is written; the result names the process and when
    /// that segment began.
    fn handle_task_exit(&mut self, tid: i32, status: i32, now_ns: u64, writer: &mut Writer) -> (result:
        Result<Option<(i32, u64)>, WriteError>)
        requires
            old(self).wf(),
            old(writer).wf(),
        ensures
            final(self).wf(),
            final(self)@ == old(self)@.exited(tid, exit_code(status), now_ns),
            match old(self)@.last_segment(tid, exit_code(status), now_ns) {
                Some((process, segment)) => if fits(segment_begin(process, segment)) {
                    &&& result == Ok::<Option<(i32, u64)>, WriteError>(
                        Some((old(self)@.tgid(tid), segment.start_ns)),
                    )
                    &&& final(writer).extends(old(writer), segment_packets(process, segment))
                } else {
                    &&& result == Err::<Option<(i32, u64)>, WriteError>(WriteError::TooLong)
                    &&& final(writer).extends(old(writer), Seq::empty())
                },
                None => {
                    &&& result == Ok::<Option<(i32, u64)>, WriteError>(None)
                    &&& final(writer).extends(old(writer), Seq::empty())
                },
            },
    {
        let tgid: i32 = self.tgid_of(tid);
        self.active.remove(&tid);
        self.started.remove(&tid);
        self.pending_opens.remove(&tid);
        self.pending_renames.remove(&tid);
        self.newborns.remove(&tid);
        self.tasks.remove(&tid);
        let code: u32 = if wifexited(status) {
            wexitstatus(status) as u32
        } else {
            (SIGNAL_EXIT_STATUS_OFFSET + wtermsig(status)) as u32
        };
        if tid == self.root_pid {
            self.root_exit_code = Some(clamp_code(code));
        }
        self.exit_codes.insert(tgid, code);
        proof {
            let ended = old(self)@.ended(tid, code);
            assert(self@.pending_opens =~= ended.pending_opens);
            assert(self@.pending_renames =~= ended.pending_renames);
            assert(self@ =~= ended);
            assert(writer@ =~= old(writer)@ + Seq::empty());
        }
        if holds_value(&self.tasks, tgid) {
            return Ok(None);
        }
        let ghost ended = self@;
        let removed = self.processes.remove(&tgid);
        assert(self@.processes =~= ended.processes.remove(tgid));
        if let Some(state) = removed {
            assert(ended.processes.contains_key(tgid) && ended.processes[tgid] == state@);
            self.ancestry.end(tgid);
            proof {
                lemma_linked(ended.ancestry, tgid, tgid);
                assert(self@.ancestry.members.dom() =~= self@.processes.dom());
            }
            if let Some(segment) = state.segment {
                let mut segment = segment;
                let soonest: u64 = segment.start_ns.saturating_add(MINIMUM_SEGMENT_DURATION_NS);
                segment.end_ns = if now_ns < soonest {
                    soonest
                } else {
                    now_ns
                };
                segment.exit_code = self.exit_codes.remove(&tgid);
                assert(old(self)@.last_segment(tid, code, now_ns) == Some(
                    (state.process, segment@),
                ));
                writer.segment(state.process, &segment)?;
                return Ok(Some((tgid, segment.start_ns)));
            }
        } else {
            assert(self@.processes =~= ended.processes);
        }
        Ok(None)
    }

    /// Takes note of what was waited for: the end of a task or a stop. `tgid`
    /// is the process of the task, needed for a newborn only.
    pub fn handle_wait(
        &mut self,
        tid: i32,
        status: i32,
        tgid: Option<i32>,
        now_ns: u64,
        writer: &mut Writer,
    ) -> (result: Result<Next, WriteError>)
        requires
            old(self).wf(),
            old(writer).wf(),
        ensures
            final(self).wf(),
            if fate(status) == 0 || signaled(status) {
                let code = exit_code(status);
                &&& final(self)@ == old(self)@.exited(tid, code, now_ns)
                &&& match old(self)@.last_segment(tid, code, now_ns) {
                    Some((process, segment)) => if fits(segment_begin(process, segment)) {
                        &&& result == Ok::<Next, WriteError>(
                            Next::Exited {
                                process: Some((old(self)@.tgid(tid), segment.start_ns)),
                            },
                        )
                        &&& final(writer).extends(old(writer), segment_packets(process, segment))
                    } else {
                        &&& result == Err::<Next, WriteError>(WriteError::TooLong)
                        &&& final(writer).extends(old(writer), Seq::empty())
                    },
                    None => {
                        &&& result == Ok::<Next, WriteError>(Next::Exited { process: None })
                        &&& final(writer).extends(old(writer), Seq::empty())
                    },
                }
            } else if !stopped(status) {
                &&& result == Ok::<Next, WriteError>(Next::Ignore)
                &&& final(self)@ == old(self)@
                &&& final(writer).extends(old(writer), Seq::empty())
            } else {
                &&& result == Ok::<Next, WriteError>(old(self)@.after_stop(tid, status))
                &&& final(self)@ == old(self)@.at_stop(tid, status, tgid, now_ns)
                &&& final(writer).extends(
                    old(writer),
                    old(self)@.stop_announcement(tid, tgid),
                )
            },
            result matches Ok(Next::Exited { process: Some(_) }) ==> shows_exit_code(
                final(writer)@[old(writer)@.len() as int],
                if status % 128 == 0 {
                    (status as int / 256) % 256
                } else {
                    128 + status as int % 128
                },
            ),
    {
        if wifexited(status) || wifsignaled(status) {
            proof {
                if let Some((process, segment)) = self@.last_segment(
                    tid,
                    exit_code(status),
                    now_ns,
                ) {
                    lemma_segment_shown(process, segment);
                }
            }
            let process = self.handle_task_exit(tid, status, now_ns, writer)?;
            return Ok(Next::Exited { process });
        }
        assert(writer@ =~= old(writer)@ + Seq::empty());
        if !wifstopped(status) {
            return Ok(Next::Ignore);
        }
        // Register the task without assuming which ptrace stop arrived.
        if let Some(parent_tgid) = self.newborns.remove(&tid) {
            self.initialize_newborn(tid, parent_tgid, tgid, now_ns, writer)?;
        }
        assert(self@ =~= old(self)@.claimed(tid, tgid, now_ns));
        let signal: i32 = wstopsig(status);
        let event: u32 = wstopevent(status);
        // Consume exactly one initial SIGSTOP per task.
        let first_stop = self.started.insert(tid);
        if first_stop && event == 0 && signal == ptrace::SIGSTOP {
            self.active.insert(tid);
            return Ok(Next::Resume { signal: 0, to_syscall: false });
        }
        if event != 0 {
            Ok(Next::Event { event })
        } else if signal == ptrace::SYSCALL_STOP {
            Ok(Next::Syscall)
        } else {
            Ok(self.resume_with_mode(tid, signal))
        }
    }
}

impl TracerView {
    /// Whether a stop is the initial one of a task.
    pub open spec fn initial_stop(self, tid: i32, status: i32) -> bool {
        !self.started.contains(tid) && stop_event(status) == 0 && detail(status)
            == ptrace::SIGSTOP
    }

    /// With a newborn that stopped registered.
    pub open spec fn claimed(self, tid: i32, tgid: Option<i32>, now_ns: u64) -> TracerView {
        if self.newborns.contains_key(tid) {
            TracerView { newborns: self.newborns.remove(tid), ..self }.registered(
                tid,
                match tgid {
                    Some(tgid) => tgid,
                    None => tid,
                },
                self.newborns[tid],
                now_ns,
            )
        } else {
            self
        }
    }

    /// After a stop was taken note of.
    pub open spec fn at_stop(
        self,
        tid: i32,
        status: i32,
        tgid: Option<i32>,
        now_ns: u64,
    ) -> TracerView {
        let claimed = self.claimed(tid, tgid, now_ns);
        TracerView {
            started: claimed.started.insert(tid),
            active: if self.initial_stop(tid, status) {
                claimed.active.insert(tid)
            } else {
                claimed.active
            },
            ..claimed
        }
    }

    /// What a stop writes.
    pub open spec fn stop_announcement(self, tid: i32, tgid: Option<i32>) -> Seq<Seq<Field>> {
        if self.newborns.contains_key(tid) {
            self.announcement(
                match tgid {
                    Some(tgid) => tgid,
                    None => tid,
                },
                self.newborns[tid],
            )
        } else {
            Seq::empty()
        }
    }

    /// What to do about a stop.
    pub open spec fn after_stop(self, tid: i32, status: i32) -> Next {
        if self.initial_stop(tid, status) {
            Next::Resume { signal: 0, to_syscall: false }
        } else if stop_event(status) != 0 {
            Next::Event { event: stop_event(status) }
        } else if detail(status) == ptrace::SYSCALL_STOP {
            Next::Syscall
        } else {
            self.resumed(tid, detail(status) as i32)
        }
    }
}

/// Exactly one initial stop of a task is swallowed: a second SIGSTOP while
/// the task lives is handed on to it.
pub proof fn lemma_initial_stop_once(
    state: TracerView,
    tid: i32,
    status: i32,
    tgid: Option<i32>,
    now_ns: u64,
    later_status: i32,
)
    requires
        stop_event(later_status) == 0,
        detail(later_status) == ptrace::SIGSTOP,
    ensures
        ({
            let seen = state.at_stop(tid, status, tgid, now_ns);
            &&& !seen.initial_stop(tid, later_status)
            &&& seen.after_stop(tid, later_status) == seen.resumed(tid, ptrace::SIGSTOP)
        }),
{
}

/// What kind of ptrace event stopped a task.
#[derive(Clone, Copy, Debug, PartialEq, Eq, Structural)]
pub enum EventKind {
    NewTask,
    Exec,
    Seccomp,
    Other,
}

/// The kind of a ptrace event.
pub open spec fn kind_of(event: u32) -> EventKind {
    if event == ptrace::EVENT_FORK || event == ptrace::EVENT_VFORK || event
        == ptrace::EVENT_CLONE {
        EventKind::NewTask
    } else if event == ptrace::EVENT_EXEC {
        EventKind::Exec
    } else if event == ptrace::EVENT_SECCOMP {
        EventKind::Seccomp
    } else {
        EventKind::Other
    }
}

pub fn event_kind(event: u32) -> (kind: EventKind)
    ensures
        kind == kind_of(event),
{
    if event == ptrace::EVENT_FORK || event == ptrace::EVENT_VFORK || event
        == ptrace::EVENT_CLONE {
        EventKind::NewTask
    } else if event == ptrace::EVENT_EXEC {
        EventKind::Exec
    } else if event == ptrace::EVENT_SECCOMP {
        EventKind::Seccomp
    } else {
        EventKind::Other
    }
}

/// A path in a task's memory, relative to a directory descriptor.
#[derive(Clone, Copy, Debug, PartialEq, Eq, Structural)]
pub struct PathAt {
    pub dirfd: i32,
    pub address: u64,
}

/// Where the flags of an open stand.
#[derive(Clone, Copy, Debug, PartialEq, Eq, Structural)]
pub enum OpenFlags {
    Known { flags: u64 },
    InMemory { address: u64 },
}

/// What has to be read from a task that the filter stopped.
#[derive(Clone, Copy, Debug, PartialEq, Eq, Structural)]
pub enum SeccompRequest {
    Rename { from: PathAt, to: PathAt },
    Open { path: u64, flags: OpenFlags },
}

/// What a system call that the filter stopped is about.
pub open spec fn request_of(numbers: SyscallNumbers, nr: i64, args: Seq<u64>) -> SeccompRequest {
    if numbers.rename == Some(nr) {
        // rename(old, new)
        SeccompRequest::Rename {
            from: PathAt { dirfd: AT_FDCWD, address: args[0] },
            to: PathAt { dirfd: AT_FDCWD, address: args[1] },
        }
    } else if renames(numbers, nr) {
        // renameat[2](olddirfd, old, newdirfd, new)
        SeccompRequest::Rename {
            from: PathAt { dirfd: args[0] as i32, address: args[1] },
            to: PathAt { dirfd: args[2] as i32, address: args[3] },
        }
    } else {
        SeccompRequest::Open {
            path: args[1],
            flags: if nr == numbers.openat {
                OpenFlags::Known { flags: args[2] }
            } else {
                OpenFlags::InMemory { address: args[2] }
            },
        }
    }
}

/// What to read from a task that the filter stopped. `None` if the kernel's
/// information is about something else.
pub fn seccomp_request(numbers: &SyscallNumbers, op: u8, nr: u64, args: &[u64; 6]) -> (request:
    Option<SeccompRequest>)
    ensures
        request == (if op == ptrace::SYSCALL_INFO_SECCOMP {
            Some(request_of(*numbers, nr as i64, args@))
        } else {
            None
        }),
        request is Some <==> op == 3,
{
    if op != ptrace::SYSCALL_INFO_SECCOMP {
        return None;
    }
    let nr: i64 = #[verifier::truncate] (nr as i64);
    if is_bare_rename(numbers, nr) {
        return Some(
            SeccompRequest::Rename {
                from: PathAt { dirfd: AT_FDCWD, address: args[0] },
                to: PathAt { dirfd: AT_FDCWD, address: args[1] },
            },
        );
    }
    if is_rename(numbers, nr) {
        return Some(
            SeccompRequest::Rename {
                from: PathAt {
                    dirfd: #[verifier::truncate] (args[0] as i32),
                    address: args[1],
                },
                to: PathAt { dirfd: #[verifier::truncate] (args[2] as i32), address: args[3] },
            },
        );
    }
    Some(
        SeccompRequest::Open {
            path: args[1],
            flags: if nr == numbers.openat {
                OpenFlags::Known { flags: args[2] }
            } else {
                OpenFlags::InMemory { address: args[2] }
            },
        },
    )
}

/// One side of a rename, resolved while its directory descriptor is valid;
/// `None` if no path could be read.
pub open spec fn rename_side(memory: Option<Seq<u8>>, base: Option<Seq<char>>) -> Option<Seq<char>> {
    match memory {
        Some(memory) => {
            let raw = decoded(before_nul(memory));
            if raw.len() == 0 {
                None
            } else {
                Some(resolved(base, raw))
            }
        },
        None => None,
    }
}

fn rename_path(memory: &Option<Vec<u8>>, base: &Option<String>) -> (path: Option<String>)
    ensures
        text_of(path) == rename_side(bytes_of(*memory), text_of(*base)),
{
    match memory {
        Some(memory) => {
            let raw = c_string(memory.as_slice());
            if raw.as_str().unicode_len() == 0 {
                None
            } else {
                Some(resolve_at_path(base, raw.as_str()))
            }
        },
        None => None,
    }
}

/// What was read from a task that the filter stopped.
pub enum SeccompRead {
    Rename {
        from: Option<Vec<u8>>,
        from_base: Option<String>,
        to: Option<Vec<u8>>,
        to_base: Option<String>,
    },
    Open { path: Option<Vec<u8>>, flags: Option<u64> },
}

impl TracerView {
    /// After a task was seen to enter a call.
    pub open spec fn entered(self, tid: i32, read: SeccompRead, now_ns: u64) -> TracerView {
        match read {
            SeccompRead::Rename { from, from_base, to, to_base } => match (
                rename_side(bytes_of(from), text_of(from_base)),
                rename_side(bytes_of(to), text_of(to_base)),
            ) {
                (Some(from), Some(to)) => TracerView {
                    pending_renames: self.pending_renames.insert(
                        tid,
                        RenameView { timestamp_ns: now_ns, from, to },
                    ),
                    ..self
                },
                _ => self,
            },
            SeccompRead::Open { path, flags } => TracerView {
                pending_opens: self.pending_opens.insert(
                    tid,
                    PendingOpenView {
                        timestamp_ns: now_ns,
                        raw_path: match bytes_of(path) {
                            Some(memory) => decoded(before_nul(memory)),
                            None => "<unreadable path>"@,
                        },
                        flags: match flags {
                            Some(flags) => flags,
                            None => 0,
                        },
                    },
                ),
                ..self
            },
        }
    }
}

/// What a task waits for inside a system call.
#[derive(Clone, Copy, Debug, PartialEq, Eq, Structural)]
pub enum Awaited {
    Nothing,
    Rename,
    Open,
}

/// What the kernel says of a task at a system call.
#[derive(Clone, Copy, Debug)]
pub struct SyscallReturn {
    pub op: u8,
    pub value: i64,
}

impl TracerView {
    pub open spec fn awaits(self, tid: i32) -> Awaited {
        if self.pending_renames.contains_key(tid) {
            Awaited::Rename
        } else if self.pending_opens.contains_key(tid) {
            Awaited::Open
        } else {
            Awaited::Nothing
        }
    }

    /// The file that a task opened.
    pub open spec fn opened(
        self,
        tid: i32,
        value: i64,
        link: Option<Seq<char>>,
        cwd: Option<Seq<char>>,
    ) -> FileOpenView {
        let pending = self.pending_opens[tid];
        FileOpenView {
            timestamp_ns: pending.timestamp_ns,
            path: match link {
                Some(link) => link,
                None => resolved(cwd, pending.raw_path),
            },
            flags: pending.flags,
            fd: value as i32,
        }
    }

    /// What the return of a system call writes.
    pub open spec fn return_packets(
        self,
        tid: i32,
        returned: Option<SyscallReturn>,
        link: Option<Seq<char>>,
        cwd: Option<Seq<char>>,
    ) -> Seq<Seq<Field>> {
        match (self.awaits(tid), returned) {
            (Awaited::Rename, Some(returned)) => if returned.op == ptrace::SYSCALL_INFO_EXIT
                && returned.value == 0 {
                seq![rename_packet(self.tgid(tid), self.pending_renames[tid])]
            } else {
                seq![]
            },
            (Awaited::Open, Some(returned)) => if returned.op == ptrace::SYSCALL_INFO_EXIT
                && returned.value >= 0 {
                seq![
                    file_open_packet(self.tgid(tid), self.opened(tid, returned.value, link, cwd)),
                ]
            } else {
                seq![]
            },
            _ => seq![],
        }
    }

    /// After a stop at a system call.
    pub open spec fn returned(self, tid: i32, returned: Option<SyscallReturn>) -> TracerView {
        if returned is Some && returned->0.op != ptrace::SYSCALL_INFO_EXIT {
            self
        } else {
            match self.awaits(tid) {
                Awaited::Rename => TracerView {
                    pending_renames: self.pending_renames.remove(tid),
                    ..self
                },
                Awaited::Open => TracerView {
                    pending_opens: self.pending_opens.remove(tid),
                    ..self
                },
                Awaited::Nothing => self,
            }
        }
    }
}

impl Tracer {
    /// Takes note of a call that a task is about to make; the task then runs
    /// to the end of that call.
    pub fn handle_seccomp(&mut self, tid: i32, read: SeccompRead, now_ns: u64)
        requires
            old(self).wf(),
        ensures
            final(self).wf(),
            final(self)@ == old(self)@.entered(tid, read, now_ns),
    {
        match read {
            SeccompRead::Rename { from, from_base, to, to_base } => {
                let from = rename_path(&from, &from_base);
                let to = rename_path(&to, &to_base);
                if let (Some(from), Some(to)) = (from, to) {
                    let pending = Rename { timestamp_ns: now_ns, from, to };
                    self.pending_renames.insert(tid, pending);
                    assert(self@.pending_renames =~= old(self)@.pending_renames.insert(
                        tid,
                        pending@,
                    ));
                }
            },
            SeccompRead::Open { path, flags } => {
                let raw_path = match path {
                    Some(memory) => c_string(memory.as_slice()),
                    None => "<unreadable path>".to_owned(),
                };
                let flags: u64 = match flags {
                    Some(flags) => flags,
                    None => 0,
                };
                let pending = PendingOpen { timestamp_ns: now_ns, raw_path, flags };
                self.pending_opens.insert(tid, pending);
                assert(self@.pending_opens =~= old(self)@.pending_opens.insert(tid, pending@));
            },
        }
    }

    /// What a task waits for inside a system call.
    pub fn awaited(&self, tid: i32) -> (awaited: Awaited)
        ensures
            awaited == self@.awaits(tid),
    {
        if self.pending_renames.contains_key(&tid) {
            Awaited::Rename
        } else if self.pending_opens.contains_key(&tid) {
            Awaited::Open
        } else {
            Awaited::Nothing
        }
    }

    /// Takes note of a stop at a system call. `returned` is what the kernel
    /// says of the call, `None` if the task is gone; `link` is where a
    /// descriptor that it returned leads and `cwd` the task's working
    /// directory, as far as they could be read. A task whose open is awaited
    /// has to be there still.
    pub fn handle_syscall_stop(
        &mut self,
        tid: i32,
        returned: Option<SyscallReturn>,
        link: Option<String>,
        cwd: Option<String>,
        writer: &mut Writer,
    ) -> (result: Result<Next, WriteError>)
        requires
            old(self).wf(),
            old(writer).wf(),
            old(self)@.awaits(tid) == Awaited::Open ==> returned is Some,
        ensures
            final(self).wf(),
            final(self)@ == old(self)@.returned(tid, returned),
            ({
                let packets = old(self)@.return_packets(
                    tid,
                    returned,
                    text_of(link),
                    text_of(cwd),
                );
                let fine = packets.len() == 0 || fits(packets[0]);
                &&& result == (if !fine {
                    Err::<Next, WriteError>(WriteError::TooLong)
                } else if old(self)@.awaits(tid) == Awaited::Nothing {
                    Ok(Next::Resume { signal: 0, to_syscall: false })
                } else {
                    match returned {
                        None => Ok(Next::Ignore),
                        Some(returned) => Ok(
                            Next::Resume {
                                signal: 0,
                                to_syscall: returned.op != ptrace::SYSCALL_INFO_EXIT,
                            },
                        ),
                    }
                })
                &&& final(writer).extends(
                    old(writer),
                    if fine {
                        packets
                    } else {
                        Seq::empty()
                    },
                )
            }),
    {
        assert(writer@ =~= old(writer)@ + Seq::empty());
        if let Some(pending) = self.pending_renames.remove(&tid) {
            assert(self@.pending_renames =~= old(self)@.pending_renames.remove(tid));
            assert(pending@ == old(self)@.pending_renames[tid]);
            let returned = match returned {
                Some(returned) => returned,
                None => {
                    return Ok(Next::Ignore);
                },
            };
            if returned.op != ptrace::SYSCALL_INFO_EXIT {
                self.pending_renames.insert(tid, pending);
                assert(self@.pending_renames =~= old(self)@.pending_renames);
                return Ok(Next::Resume { signal: 0, to_syscall: true });
            }
            // Only a rename that succeeded moved anything.
            if returned.value == 0 {
                let tgid: i32 = self.tgid_of(tid);
                writer.rename(tgid, &pending)?;
                assert(writer@ =~= old(writer)@ + seq![rename_packet(tgid, pending@)]);
            }
            return Ok(Next::Resume { signal: 0, to_syscall: false });
        }
        assert(self@.pending_renames =~= old(self)@.pending_renames);
        let pending = match self.pending_opens.remove(&tid) {
            Some(pending) => pending,
            None => {
                assert(self@.pending_opens =~= old(self)@.pending_opens);
                return Ok(Next::Resume { signal: 0, to_syscall: false });
            },
        };
        assert(self@.pending_opens =~= old(self)@.pending_opens.remove(tid));
        assert(pending@ == old(self)@.pending_opens[tid]);
        let returned = returned.unwrap();
        if returned.op != ptrace::SYSCALL_INFO_EXIT {
            self.pending_opens.insert(tid, pending);
            assert(self@.pending_opens =~= old(self)@.pending_opens);
            return Ok(Next::Resume { signal: 0, to_syscall: true });
        }
        if returned.value >= 0 {
            let fd: i32 = #[verifier::truncate] (returned.value as i32);
            let path = resolve_open_path(&link, &cwd, pending.raw_path.as_str());
            let tgid: i32 = self.tgid_of(tid);
            let open = FileOpen {
                timestamp_ns: pending.timestamp_ns,
                path,
                flags: pending.flags,
                fd,
            };
            assert(open@ == old(self)@.opened(
                tid,
                returned.value,
                text_of(link),
                text_of(cwd),
            ));
            writer.file_open(tgid, &open)?;
            assert(writer@ =~= old(writer)@ + seq![file_open_packet(tgid, open@)]);
        }
        Ok(Next::Resume { signal: 0, to_syscall: false })
    }

    /// What to do about an event that needs no more than this.
    pub fn handle_other_event(&self, tid: i32) -> (next: Next)
        ensures
            next == self@.resumed(tid, 0),
    {
        self.resume_with_mode(tid, 0)
    }
}

impl ProcessStateView {
    /// The segment of a process as it is written when recording ends.
    pub open spec fn cut_off(self, end_ns: u64) -> Option<(Process, SegmentView)> {
        match self.segment {
            Some(segment) => Some((self.process, SegmentView { end_ns, ..segment })),
            None => None,
        }
    }

    /// What is written of a process that is running when recording ends.
    pub open spec fn cut_off_packets(self, end_ns: u64) -> Seq<Seq<Field>> {
        match self.cut_off(end_ns) {
            Some((process, segment)) => segment_packets(process, segment),
            None => Seq::empty(),
        }
    }

    pub open spec fn cut_off_fits(self, end_ns: u64) -> bool {
        match self.cut_off(end_ns) {
            Some((process, segment)) => fits(segment_begin(process, segment)),
            None => true,
        }
    }
}

impl ProcessState {
    /// Writes what is known of a process that is running when recording ends.
    fn flush(self, end_ns: u64, writer: &mut Writer) -> (result: Result<(), WriteError>)
        requires
            old(writer).wf(),
        ensures
            result == (if self@.cut_off_fits(end_ns) {
                Ok::<(), WriteError>(())
            } else {
                Err(WriteError::TooLong)
            }),
            result is Ok ==> final(writer).extends(old(writer), self@.cut_off_packets(end_ns)),
            result is Err ==> final(writer).extends(old(writer), Seq::empty()),
    {
        if let Some(segment) = self.segment {
            let mut segment = segment;
            segment.end_ns = end_ns;
            assert(self@.cut_off(end_ns) == Some((self.process, segment@)));
            return writer.segment(self.process, &segment);
        }
        assert(writer@ =~= writer@ + Seq::empty());
        Ok(())
    }
}

impl TracerView {
    /// What is written of some processes when recording ends, in that order.
    pub open spec fn flushed(self, order: Seq<i32>, end_ns: u64) -> Seq<Seq<Field>>
        decreases order.len(),
    {
        if order.len() == 0 {
            Seq::empty()
        } else {
            self.flushed(order.drop_last(), end_ns) + self.processes[order.last()].cut_off_packets(
                end_ns,
            )
        }
    }

    /// What a recording that ends now comes to.
    pub open spec fn outcome(self, end_ns: u64) -> Result<u8, WriteError> {
        if forall|pid: i32| #[trigger]
            self.processes.contains_key(pid) ==> self.processes[pid].cut_off_fits(end_ns) {
            Ok(
                match self.root_exit_code {
                    Some(code) => code,
                    None => 1,
                },
            )
        } else {
            Err(WriteError::TooLong)
        }
    }

    /// Whether an order goes through each known process once.
    pub open spec fn covers(self, order: Seq<i32>) -> bool {
        order.no_duplicates() && order.to_set() == self.processes.dom()
    }
}

impl Tracer {
    /// Ends the recording: writes what is still running, in no particular
    /// order, and gives the exit code of the command, or one if it is unknown.
    #[verifier::spinoff_prover]
    pub fn finish(self, end_ns: u64, writer: &mut Writer) -> (result: Result<u8, WriteError>)
        requires
            self.wf(),
            old(writer).wf(),
        ensures
            result == self@.outcome(end_ns),
            result is Ok ==> exists|order: Seq<i32>| #[trigger]
                self@.covers(order) && final(writer).extends(
                    old(writer),
                    self@.flushed(order, end_ns),
                ),
            result is Err ==> exists|order: Seq<i32>, length: int|
                #![trigger self@.covers(order), order.take(length)]
                self@.covers(order) && 0 <= length < order.len() && final(writer).extends(
                    old(writer),
                    self@.flushed(order.take(length), end_ns),
                ),
    {
        let mut tracer = self;
        let order = keys(&tracer.processes);
        let ghost state = self@;
        assert(state.processes.dom() =~= self.processes@.dom());
        assert(state.covers(order@));
        assert(order@.take(0) =~= Seq::<i32>::empty());
        assert(writer@ =~= old(writer)@ + Seq::empty());
        for i in 0..order.len()
            invariant
                state == self@,
                state.covers(order@),
                writer.extends(old(writer), state.flushed(order@.take(i as int), end_ns)),
                forall|j: int|
                    i <= j < order@.len() ==> #[trigger] tracer.processes@.contains_key(order@[j])
                        && tracer.processes@[order@[j]]@ == state.processes[order@[j]],
                forall|j: int|
                    0 <= j < i ==> state.processes[#[trigger] order@[j]].cut_off_fits(end_ns),
                tracer.root_exit_code == self.root_exit_code,
        {
            let pid: i32 = order[i];
            assert(tracer.processes@.contains_key(order@[i as int]));
            assert(order@.to_set().contains(pid));
            let ghost known = tracer.processes@;
            let removed = tracer.processes.remove(&pid);
            proof {
                assert(order@.take(i + 1).drop_last() =~= order@.take(i as int));
                assert(order@.take(i + 1).last() == pid);
                assert forall|j: int| i < j < order@.len() implies #[trigger] tracer.processes@.contains_key(
                    order@[j],
                ) && tracer.processes@[order@[j]]@ == state.processes[order@[j]] by {
                    assert(known.contains_key(order@[j]));
                    assert(order@[j] != order@[i as int]);
                }
            }
            let ghost before = *writer;
            if let Some(left) = removed {
                assert(left@ == state.processes[pid]);
                if let Err(error) = left.flush(end_ns, writer) {
                    assert(state.processes.contains_key(pid));
                    assert(before@ + Seq::empty() =~= before@);
                    assert(writer.extends(
                        old(writer),
                        state.flushed(order@.take(i as int), end_ns),
                    ));
                    return Err(error);
                }
            }
            proof {
                assert(writer@ =~= old(writer)@ + state.flushed(order@.take(i + 1), end_ns));
                assert forall|j: int| i + 1 <= j < order@.len() implies #[trigger] tracer.processes@.contains_key(
                    order@[j],
                ) && tracer.processes@[order@[j]]@ == state.processes[order@[j]] by {
                    assert(known.contains_key(order@[j]));
                }
            }
        }
        proof {
            assert(order@.take(order@.len() as int) =~= order@);
            assert forall|pid: i32| #[trigger]
                state.processes.contains_key(pid) implies state.processes[pid].cut_off_fits(
                end_ns,
            ) by {
                assert(order@.to_set().contains(pid));
                let j = choose|j: int| 0 <= j < order@.len() && order@[j] == pid;
                assert(state.processes[order@[j]].cut_off_fits(end_ns));
            }
        }
        Ok(
            match tracer.root_exit_code {
                Some(code) => code,
                None => 1,
            },
        )
    }
}

/// What to do when waiting for a task failed.
#[derive(Clone, Copy, Debug, PartialEq, Eq, Structural)]
pub enum WaitFailure {
    Retry,
    /// There is nothing left to wait for.
    Finished,
    Fatal,
}

/// What an error number of a wait calls for.
pub open spec fn failure_of(errno: i32) -> WaitFailure {
    if errno == ptrace::EINTR {
        WaitFailure::Retry
    } else if errno == ptrace::ECHILD {
        WaitFailure::Finished
    } else {
        WaitFailure::Fatal
    }
}

pub fn wait_failure(errno: i32) -> (failure: WaitFailure)
    ensures
        failure == failure_of(errno),
{
    if errno == ptrace::EINTR {
        WaitFailure::Retry
    } else if errno == ptrace::ECHILD {
        WaitFailure::Finished
    } else {
        WaitFailure::Fatal
    }
}

/// Why a command cannot be recorded.
#[derive(Clone, Copy, Debug, PartialEq, Eq, Structural)]
pub enum CommandError {
    Empty,
    NulByte,
}

impl CommandError {
    pub fn message(&self) -> (message: &'static str)
        ensures
            message@ == (match self {
                CommandError::Empty => "empty command"@,
                CommandError::NulByte => "command argument contains a NUL byte"@,
            }),
    {
        match self {
            CommandError::Empty => "empty command",
            CommandError::NulByte => "command argument contains a NUL byte",
        }
    }
}

/// The arguments with the zero byte that ends each for the system.
pub open spec fn terminated(command: Seq<Vec<u8>>) -> Seq<Seq<u8>> {
    command.map_values(|argument: Vec<u8>| argument@.push(0))
}

/// The arguments of a command as the system takes them.
pub fn make_argv(command: &[Vec<u8>]) -> (argv: Result<Vec<Vec<u8>>, CommandError>)
    ensures
        match argv {
            Ok(argv) => {
                &&& command@.len() > 0
                &&& forall|i: int|
                    0 <= i < command@.len() ==> !(#[trigger] command@[i])@.contains(0)
                &&& contents(argv@) == terminated(command@)
            },
            Err(CommandError::Empty) => command@.len() == 0,
            Err(CommandError::NulByte) => exists|i: int|
                0 <= i < command@.len() && (#[trigger] command@[i])@.contains(0),
        },
{
    if command.len() == 0 {
        return Err(CommandError::Empty);
    }
    let mut argv: Vec<Vec<u8>> = Vec::new();
    for i in 0..command.len()
        invariant
            forall|j: int| 0 <= j < i ==> !(#[trigger] command@[j])@.contains(0),
            contents(argv@) =~= terminated(command@).take(i as int),
    {
        let source = &command[i];
        let mut argument: Vec<u8> = Vec::new();
        for j in 0..source.len()
            invariant
                source@ == command@[i as int]@,
                i < command@.len(),
                argument@ =~= source@.take(j as int),
                !source@.take(j as int).contains(0),
        {
            if source[j] == 0 {
                assert(command@[i as int]@[j as int] == 0);
                return Err(CommandError::NulByte);
            }
            argument.push(source[j]);
            assert(source@.take(j + 1) =~= source@.take(j as int).push(source@[j as int]));
        }
        assert(source@.take(source@.len() as int) =~= source@);
        argument.push(0);
        let ghost before = contents(argv@);
        argv.push(argument);
        assert(contents(argv@) =~= before.push(source@.push(0)));
    }
    assert(terminated(command@).take(command@.len() as int) =~= terminated(command@));
    Ok(argv)
}

/// Why tracing a command could not begin.
#[derive(Clone, Copy, Debug, PartialEq, Eq, Structural)]
pub enum StartFailure {
    /// The child said that it cannot be traced here.
    NotPermitted,
    DidNotStop,
}

/// Whether a command that was first waited for with a status can be traced.
pub open spec fn begun(status: i32) -> Result<(), StartFailure> {
    if stopped(status) {
        Ok(())
    } else if fate(status) == 0 && detail(status) == TRACE_SETUP_FAILURE_STATUS {
        Err(StartFailure::NotPermitted)
    } else {
        Err(StartFailure::DidNotStop)
    }
}

/// Looks at what a freshly forked command was first waited for with.
pub fn initial_stop(status: i32) -> (result: Result<(), StartFailure>)
    ensures
        result == begun(status),
{
    if wifstopped(status) {
        return Ok(());
    }
    assert(status & 0x7f == status % 128) by (bit_vector);
    assert((status >> 8) & 0xff == (status / 256) % 256) by (bit_vector);
    if libc::WIFEXITED(status) && libc::WEXITSTATUS(status) == TRACE_SETUP_FAILURE_STATUS {
        return Err(StartFailure::NotPermitted);
    }
    Err(StartFailure::DidNotStop)
}

impl StartFailure {
    pub open spec fn text(&self) -> Seq<char> {
        match self {
            StartFailure::NotPermitted => "tracing could not start here (see above); in Docker add --cap-add SYS_PTRACE, keep kernel.yama.ptrace_scope below 3, and note that gVisor-style sandboxes cannot trace at all"@,
            StartFailure::DidNotStop => "traced child did not stop before exec"@,
        }
    }

    pub fn message(&self) -> (message: &'static str)
        ensures
            message@ == self.text(),
    {
        match self {
            StartFailure::NotPermitted => "tracing could not start here (see above); in Docker add --cap-add SYS_PTRACE, keep kernel.yama.ptrace_scope below 3, and note that gVisor-style sandboxes cannot trace at all",
            StartFailure::DidNotStop => "traced child did not stop before exec",
        }
    }
}

/// What the child says of a failure, by its error number; nothing if there
/// are no better words than the number.
pub open spec fn reason(errno: i32) -> Seq<char> {
    if errno == 1 {
        "operation not permitted"@
    } else if errno == 13 {
        "permission denied"@
    } else if errno == 2 {
        "no such file or directory"@
    } else if errno == 8 {
        "not an executable"@
    } else if errno == 38 {
        "not supported by this kernel"@
    } else if errno == 22 {
        "invalid argument"@
    } else {
        ""@
    }
}

pub const EPERM: i32 = 1;

pub const ENOENT: i32 = 2;

pub const ENOEXEC: i32 = 8;

pub const EACCES: i32 = 13;

pub const EINVAL: i32 = 22;

pub const ENOSYS: i32 = 38;

pub fn failure_reason(errno: i32) -> (words: &'static str)
    ensures
        words@ == reason(errno),
{
    if errno == EPERM {
        "operation not permitted"
    } else if errno == EACCES {
        "permission denied"
    } else if errno == ENOENT {
        "no such file or directory"
    } else if errno == ENOEXEC {
        "not an executable"
    } else if errno == ENOSYS {
        "not supported by this kernel"
    } else if errno == EINVAL {
        "invalid argument"
    } else {
        ""
    }
}

/// Digits as bytes.
pub open spec fn digit_bytes(text: Seq<char>) -> Seq<u8> {
    text.map_values(|c: char| c as u8)
}

/// Writes an error number's digits to the end of a buffer, without taking
/// memory, as the child must between fork and exec; they begin at the index
/// that is returned. A sign is left out.
pub fn errno_digits(errno: i32, buffer: &mut [u8; 11]) -> (start: usize)
    ensures
        start < 11,
        final(buffer)@.subrange(start as int, 11) == digit_bytes(
            crate::text::digits(
                if errno < 0 {
                    -errno as nat
                } else {
                    errno as nat
                },
            ),
        ),
{
    let magnitude: u64 = if errno < 0 {
        (-(errno as i64)) as u64
    } else {
        errno as u64
    };
    let ghost whole = crate::text::digits(magnitude as nat);
    let mut index: usize = 11;
    let mut remaining: u64 = magnitude;
    assert(buffer@.subrange(11, 11) =~= digit_bytes(Seq::empty()));
    assert(whole + Seq::<char>::empty() =~= whole);
    loop
        invariant
            1 <= index <= 11,
            whole == crate::text::digits(magnitude as nat),
            magnitude == (if errno < 0 {
                -errno as nat
            } else {
                errno as nat
            }),
            index == 11 ==> remaining <= 0x8000_0000,
            index == 10 ==> remaining < 1_000_000_000,
            index == 9 ==> remaining < 100_000_000,
            index == 8 ==> remaining < 10_000_000,
            index == 7 ==> remaining < 1_000_000,
            index == 6 ==> remaining < 100_000,
            index == 5 ==> remaining < 10_000,
            index == 4 ==> remaining < 1_000,
            index == 3 ==> remaining < 100,
            index == 2 ==> remaining < 10,
            index == 1 ==> remaining < 1,
            exists|rest: Seq<char>| #[trigger]
                digit_bytes(rest) == buffer@.subrange(index as int, 11)
                    && crate::text::digits(remaining as nat) + rest == whole,
        decreases remaining, index,
    {
        let ghost rest = choose|rest: Seq<char>| #[trigger]
            digit_bytes(rest) == buffer@.subrange(index as int, 11)
                && crate::text::digits(remaining as nat) + rest == whole;
        let ghost before = buffer@;
        index = index - 1;
        buffer[index] = 48 + (remaining % 10) as u8;
        proof {
            let last = crate::text::digit((remaining % 10) as nat);
            let longer = seq![last] + rest;
            assert(buffer@.subrange(index as int, 11) =~= seq![last as u8] + before.subrange(
                index + 1,
                11,
            ));
            assert(digit_bytes(longer) =~= seq![last as u8] + digit_bytes(rest));
            if remaining >= 10 {
                assert(crate::text::digits(remaining as nat / 10) + longer =~= whole);
            } else {
                assert(longer =~= whole);
            }
        }
        remaining = remaining / 10;
        if remaining == 0 {
            return index;
        }
    }
}

} // verus!
