//! Turns the collector's events into the same process segments the Linux
//! tracer records.

use super::event::{Event, Message};
#[allow(unused_imports)]
use super::event::{EventView, MessageView};
use crate::ancestry::Ancestry;
#[allow(unused_imports)]
use crate::ancestry::{lemma_linked, AncestryView};
use crate::blind_spots::BlindSpots;
#[allow(unused_imports)]
use crate::blind_spots::{missed, BlindSpot};
#[allow(unused_imports)]
use crate::linux::{end_after, task_name};
use crate::model::{Process, Segment};
#[allow(unused_imports)]
use crate::model::SegmentView;
use crate::perfetto::{WriteError, Writer};
#[allow(unused_imports)]
use crate::perfetto::wire::{fits, Field};
#[allow(unused_imports)]
use crate::perfetto::{process_started_packets, segment_begin, segment_packets, trace_bytes};
use crate::status::{clamp_code, exit_code_of};
#[allow(unused_imports)]
use crate::status::{clamped, exit_code};
use crate::table::keys;
use crate::text::{push_signed, text_file_name};
#[allow(unused_imports)]
use crate::text::{file_name, views};
use std::collections::{HashMap, HashSet};
use vstd::prelude::*;
use vstd::string::*;

verus! {

broadcast use vstd::std_specs::hash::group_hash_axioms;

pub const MINIMUM_SEGMENT_DURATION_NS: u64 = 1;

/// The raw exit status of a child that `posix_spawn` created but could not
/// exec. `posix_spawnp` tries each `PATH` directory in turn, so one spawn can
/// leave a row of these; no program ever ran in them.
pub const FAILED_SPAWN_STAT: i32 = 1;

/// One thing that a tracker had to say.
#[verifier::ext_equal]
pub enum Record {
    Started { pid: i32 },
    Segment { process: Process, segment: SegmentView },
}

/// Where a tracker's records go: the trace writer, or a list in memory.
pub trait Sink: Sized {
    /// What a sink needs to work.
    spec fn wf(&self) -> bool;

    /// What the trace held before the sink was told anything.
    spec fn start(&self) -> Seq<Seq<Field>>;

    /// What a sink was told so far.
    spec fn log(&self) -> Seq<Record>;

    /// Whether a sink has room for a record; being told another one does not
    /// change that.
    spec fn takes(&self, record: Record) -> bool;

    fn process_started(&mut self, pid: i32) -> (result: Result<(), WriteError>)
        requires
            old(self).wf(),
        ensures
            final(self).wf(),
            final(self).start() == old(self).start(),
            forall|record: Record| #[trigger] final(self).takes(record) == old(self).takes(record),
            ({
                let told = Record::Started { pid };
                if old(self).takes(told) {
                    &&& result == Ok::<(), WriteError>(())
                    &&& final(self).log() == old(self).log().push(told)
                } else {
                    &&& result == Err::<(), WriteError>(WriteError::TooLong)
                    &&& final(self).log() == old(self).log()
                }
            }),
    ;

    fn segment(&mut self, process: Process, segment: &Segment) -> (result: Result<(), WriteError>)
        requires
            old(self).wf(),
        ensures
            final(self).wf(),
            final(self).start() == old(self).start(),
            forall|record: Record| #[trigger] final(self).takes(record) == old(self).takes(record),
            ({
                let told = Record::Segment { process, segment: segment@ };
                if old(self).takes(told) {
                    &&& result == Ok::<(), WriteError>(())
                    &&& final(self).log() == old(self).log().push(told)
                } else {
                    &&& result == Err::<(), WriteError>(WriteError::TooLong)
                    &&& final(self).log() == old(self).log()
                }
            }),
    ;
}

/// Whether a sink has room for each of some records.
pub open spec fn takes_all<S: Sink>(sink: S, records: Seq<Record>) -> bool {
    forall|i: int| 0 <= i < records.len() ==> sink.takes(#[trigger] records[i])
}

/// What becomes of a sink that some records are handed to, one by one: it
/// holds all of them, or, if it has no room for one, those before it.
pub open spec fn told<S: Sink>(
    before: S,
    after: S,
    records: Seq<Record>,
    result: Result<(), WriteError>,
) -> bool {
    &&& after.wf()
    &&& after.start() == before.start()
    &&& forall|record: Record| #[trigger] after.takes(record) == before.takes(record)
    &&& if takes_all(before, records) {
        result == Ok::<(), WriteError>(()) && after.log() == before.log() + records
    } else {
        &&& result == Err::<(), WriteError>(WriteError::TooLong)
        &&& exists|length: int|
            0 <= length < records.len() && takes_all(before, records.take(length))
                && !before.takes(records[length]) && after.log() == before.log()
                + #[trigger] records.take(length)
    }
}

/// What a record puts into a trace.
pub open spec fn record_packets(record: Record) -> Seq<Seq<Field>> {
    match record {
        Record::Started { pid } => process_started_packets(pid),
        Record::Segment { process, segment } => segment_packets(process, segment),
    }
}

/// What some records put into a trace.
pub open spec fn log_packets(log: Seq<Record>) -> Seq<Seq<Field>>
    decreases log.len(),
{
    if log.len() == 0 {
        Seq::empty()
    } else {
        log_packets(log.drop_last()) + record_packets(log.last())
    }
}

/// The trace being recorded.
pub struct TraceSink<'a> {
    pub writer: &'a mut Writer,
    pub start: Ghost<Seq<Seq<Field>>>,
    pub log: Ghost<Seq<Record>>,
}

impl<'a> TraceSink<'a> {
    pub fn new(writer: &'a mut Writer) -> (sink: Self)
        requires
            old(writer).wf(),
        ensures
            sink.wf(),
            *sink.writer == *old(writer),
            *final(sink.writer) == *final(writer),
            sink.start() == old(writer)@,
            sink.log() == Seq::<Record>::empty(),
    {
        let sink = TraceSink {
            writer,
            start: Ghost(old(writer)@),
            log: Ghost(Seq::empty()),
        };
        assert(sink.start@ + log_packets(sink.log@) =~= sink.start@);
        sink
    }

    /// Hands out the bytes of what the trace holds: what it held before, and
    /// what the sink was told since.
    pub fn take(&mut self) -> (bytes: Vec<u8>)
        requires
            old(self).wf(),
        ensures
            bytes@ == trace_bytes(old(self).start() + log_packets(old(self).log())),
            final(self).wf(),
            final(self).start() == Seq::<Seq<Field>>::empty(),
            final(self).log() == Seq::<Record>::empty(),
            *final(final(self).writer) == *final(old(self).writer),
    {
        let bytes = self.writer.take();
        proof {
            self.start@ = Seq::empty();
            self.log@ = Seq::empty();
            assert(self.start@ + log_packets(self.log@) =~= Seq::<Seq<Field>>::empty());
        }
        bytes
    }
}

impl Sink for TraceSink<'_> {
    open spec fn wf(&self) -> bool {
        self.writer.wf() && self.writer@ == self.start@ + log_packets(self.log@)
    }

    open spec fn start(&self) -> Seq<Seq<Field>> {
        self.start@
    }

    open spec fn log(&self) -> Seq<Record> {
        self.log@
    }

    open spec fn takes(&self, record: Record) -> bool {
        match record {
            Record::Started { .. } => true,
            Record::Segment { process, segment } => fits(segment_begin(process, segment)),
        }
    }

    fn process_started(&mut self, pid: i32) -> (result: Result<(), WriteError>)
        ensures
            *final(final(self).writer) == *final(old(self).writer),
    {
        let result = self.writer.process_started(pid);
        proof {
            let record = Record::Started { pid };
            assert(result->Ok_0 == ());
            let log = self.log@.push(record);
            assert(log.drop_last() =~= self.log@);
            assert(self.writer@ =~= self.start@ + log_packets(log));
            self.log@ = log;
        }
        result
    }

    fn segment(&mut self, process: Process, segment: &Segment) -> (result: Result<(), WriteError>)
        ensures
            *final(final(self).writer) == *final(old(self).writer),
    {
        let result = self.writer.segment(process, segment);
        proof {
            let record = Record::Segment { process, segment: segment@ };
            if result is Ok {
                let log = self.log@.push(record);
                assert(log.drop_last() =~= self.log@);
                assert(self.writer@ =~= self.start@ + log_packets(log));
                self.log@ = log;
            }
        }
        result
    }
}

/// One record, kept in memory.
#[derive(Debug)]
pub enum Entry {
    Started { pid: i32 },
    Segment { process: Process, segment: Segment },
}

impl View for Entry {
    type V = Record;

    open spec fn view(&self) -> Record {
        match self {
            Entry::Started { pid } => Record::Started { pid: *pid },
            Entry::Segment { process, segment } => Record::Segment {
                process: *process,
                segment: segment@,
            },
        }
    }
}

/// Keeps records in memory, in the order they came.
#[derive(Debug)]
pub struct Records {
    pub entries: Vec<Entry>,
}

impl Records {
    pub fn new() -> (records: Self)
        ensures
            records.wf(),
            records.log() == Seq::<Record>::empty(),
    {
        let records = Records { entries: Vec::new() };
        assert(records.log() =~= Seq::<Record>::empty());
        records
    }
}

impl Sink for Records {
    open spec fn wf(&self) -> bool {
        true
    }

    open spec fn start(&self) -> Seq<Seq<Field>> {
        Seq::empty()
    }

    open spec fn log(&self) -> Seq<Record> {
        self.entries@.map_values(|entry: Entry| entry@)
    }

    open spec fn takes(&self, record: Record) -> bool {
        true
    }

    fn process_started(&mut self, pid: i32) -> (result: Result<(), WriteError>) {
        self.entries.push(Entry::Started { pid });
        proof {
            let record = Record::Started { pid };
            assert(self.log() =~= old(self).log().push(record));
        }
        Ok(())
    }

    fn segment(&mut self, process: Process, segment: &Segment) -> (result: Result<(), WriteError>) {
        let copy = Segment {
            start_ns: segment.start_ns,
            end_ns: segment.end_ns,
            name: segment.name.clone(),
            command: segment.command.clone(),
            cwd: segment.cwd.clone(),
            exit_code: segment.exit_code,
        };
        self.entries.push(Entry::Segment { process, segment: copy });
        proof {
            let record = Record::Segment { process, segment: segment@ };
            assert(self.log() =~= old(self).log().push(record));
        }
        Ok(())
    }
}

/// Converts `mach_absolute_time` ticks to nanoseconds since recording began.
#[derive(Clone, Copy, Debug)]
pub struct Clock {
    pub origin: u64,
    pub numer: u32,
    pub denom: u32,
}

impl Clock {
    /// Nanoseconds since the origin: none before it, and no more than fit.
    pub open spec fn since(self, mach_time: u64) -> u64 {
        let ticks = if mach_time < self.origin {
            0
        } else {
            mach_time - self.origin
        };
        let ns = ticks * self.numer / self.denom as int;
        if ns > u64::MAX {
            u64::MAX
        } else {
            ns as u64
        }
    }

    /// Time passes in the order of the ticks and starts at the origin.
    pub proof fn lemma_monotone(self, earlier: u64, later: u64)
        requires
            self.denom > 0,
            earlier <= later,
        ensures
            self.since(earlier) <= self.since(later),
            self.since(self.origin) == 0,
    {
        let a = if earlier < self.origin {
            0
        } else {
            earlier - self.origin
        };
        let b = if later < self.origin {
            0
        } else {
            later - self.origin
        };
        vstd::arithmetic::mul::lemma_mul_inequality(a, b, self.numer as int);
        vstd::arithmetic::div_mod::lemma_div_is_ordered(
            a * self.numer,
            b * self.numer,
            self.denom as int,
        );
        assert(0 * self.numer as int == 0) by (nonlinear_arith);
        vstd::arithmetic::div_mod::lemma_div_of0(self.denom as int);
    }

    pub fn ns(&self, mach_time: u64) -> (ns: u64)
        requires
            self.denom > 0,
        ensures
            ns == self.since(mach_time),
    {
        let ticks: u128 = mach_time.saturating_sub(self.origin) as u128;
        let numer: u128 = self.numer as u128;
        let denom: u128 = self.denom as u128;
        assert(ticks * numer <= u64::MAX * u32::MAX) by (nonlinear_arith)
            requires
                ticks <= u64::MAX,
                numer <= u32::MAX,
        ;
        let ns: u128 = ticks * numer / denom;
        if ns > u64::MAX as u128 {
            u64::MAX
        } else {
            ns as u64
        }
    }

    /// Nanoseconds from the origin to now, which is `now` in ticks.
    pub fn elapsed_ns(&self, now: u64) -> (ns: u64)
        requires
            self.denom > 0,
        ensures
            ns == self.since(now),
    {
        self.ns(now)
    }
}

/// What is known of a process that is running.
pub struct ProcessState {
    pub process: Process,
    pub segment: Segment,
}

#[verifier::ext_equal]
pub struct ProcessStateView {
    pub process: Process,
    pub segment: SegmentView,
}

impl View for ProcessState {
    type V = ProcessStateView;

    open spec fn view(&self) -> ProcessStateView {
        ProcessStateView { process: self.process, segment: self.segment@ }
    }
}

/// What a tracker knows at one moment.
#[verifier::ext_equal]
pub struct TrackerView {
    pub root_pid: i32,
    pub root_exit_code: Option<u8>,
    pub processes: Map<i32, ProcessStateView>,
    pub ancestry: AncestryView,
    /// Pids whose tracks are in the trace. A process is only announced once
    /// something is written for it, so a failed spawn leaves nothing behind.
    pub announced: Set<i32>,
}

impl TrackerView {
    /// What is known of a command that was just started.
    pub open spec fn fresh(
        root_pid: i32,
        name: Seq<char>,
        command: Seq<char>,
        cwd: Seq<char>,
    ) -> TrackerView {
        TrackerView {
            root_pid,
            root_exit_code: None,
            processes: map![
                root_pid => ProcessStateView {
                    process: Process {
                        pid: root_pid,
                        parent_pid: 0,
                        build_parent_pid: 0,
                        execed: false,
                    },
                    segment: SegmentView {
                        start_ns: 0,
                        end_ns: 0,
                        name,
                        command,
                        cwd,
                        exit_code: None,
                    },
                }
            ],
            ancestry: AncestryView::nobody().born(root_pid, 0),
            announced: Set::empty(),
        }
    }

    /// The nearest ancestor known to have run a program of its own, of a
    /// process that `parent_pid` creates now.
    pub open spec fn build_parent(self, parent_pid: i32) -> i32 {
        self.ancestry.nearest(parent_pid)
    }

    /// After a process was created by another.
    pub open spec fn started(self, pid: i32, parent_pid: i32, now_ns: u64) -> TrackerView {
        let known = self.processes.contains_key(parent_pid);
        let parent = self.processes[parent_pid].segment;
        TrackerView {
            processes: self.processes.insert(
                pid,
                ProcessStateView {
                    process: Process {
                        pid,
                        parent_pid,
                        build_parent_pid: self.build_parent(parent_pid),
                        execed: false,
                    },
                    segment: SegmentView {
                        start_ns: now_ns,
                        end_ns: 0,
                        name: if known {
                            "fork:"@ + parent.name
                        } else {
                            "fork"@
                        },
                        command: if known {
                            parent.command
                        } else {
                            Seq::empty()
                        },
                        cwd: if known {
                            parent.cwd
                        } else {
                            Seq::empty()
                        },
                        exit_code: None,
                    },
                },
            ),
            ancestry: self.ancestry.born(pid, parent_pid),
            ..self
        }
    }

    /// What is written when a segment of a process ends.
    pub open spec fn records(self, process: Process, segment: SegmentView, pid: i32) -> Seq<Record> {
        if self.announced.contains(pid) {
            seq![Record::Segment { process, segment }]
        } else {
            seq![Record::Started { pid }, Record::Segment { process, segment }]
        }
    }

    /// After a process began to run a program.
    pub open spec fn execed(self, pid: i32, executable: Seq<char>, now_ns: u64) -> TrackerView {
        let state = self.processes[pid];
        let name = match file_name(executable) {
            Some(name) => name,
            None => task_name(pid),
        };
        if state.process.execed {
            TrackerView {
                processes: self.processes.insert(
                    pid,
                    ProcessStateView {
                        process: state.process,
                        segment: SegmentView {
                            start_ns: now_ns,
                            end_ns: 0,
                            name,
                            command: executable,
                            cwd: Seq::empty(),
                            exit_code: None,
                        },
                    },
                ),
                announced: self.announced.insert(pid),
                ..self
            }
        } else {
            TrackerView {
                processes: self.processes.insert(
                    pid,
                    ProcessStateView {
                        process: Process { execed: true, ..state.process },
                        segment: SegmentView { name, command: executable, ..state.segment },
                    },
                ),
                ancestry: self.ancestry.ran(pid),
                ..self
            }
        }
    }

    /// What is written when a process begins to run a program.
    pub open spec fn exec_records(self, pid: i32, now_ns: u64) -> Seq<Record> {
        let state = self.processes[pid];
        if state.process.execed {
            self.records(
                state.process,
                SegmentView {
                    end_ns: end_after(now_ns, state.segment.start_ns),
                    ..state.segment
                },
                pid,
            )
        } else {
            seq![]
        }
    }

    /// Whether a process that ended was a spawn that never ran anything.
    pub open spec fn failed_spawn(self, pid: i32, stat: i32) -> bool {
        stat == FAILED_SPAWN_STAT && !self.processes[pid].process.execed
    }

    /// After a process ended.
    pub open spec fn exited(self, pid: i32, stat: i32) -> TrackerView {
        let gone = TrackerView {
            processes: self.processes.remove(pid),
            ancestry: self.ancestry.gone(pid),
            ..self
        };
        if self.failed_spawn(pid, stat) {
            gone
        } else {
            TrackerView {
                root_exit_code: if pid == self.root_pid {
                    Some(clamped(exit_code(stat)))
                } else {
                    self.root_exit_code
                },
                announced: self.announced.insert(pid),
                ..gone
            }
        }
    }

    /// What is written when a process ends.
    pub open spec fn exit_records(self, pid: i32, stat: i32, now_ns: u64) -> Seq<Record> {
        let state = self.processes[pid];
        if self.failed_spawn(pid, stat) {
            seq![]
        } else {
            self.records(
                state.process,
                SegmentView {
                    end_ns: end_after(now_ns, state.segment.start_ns),
                    exit_code: Some(exit_code(stat)),
                    ..state.segment
                },
                pid,
            )
        }
    }

    /// With the process that a message is about known, if it can be: children
    /// started with posix_spawn may arrive as an exec with no fork before it.
    pub open spec fn claimed(self, message: MessageView, now_ns: u64) -> TrackerView {
        if !self.processes.contains_key(message.pid) && message.event is Exec
            && self.processes.contains_key(message.ppid) {
            self.started(message.pid, message.ppid, now_ns)
        } else {
            self
        }
    }

    /// After a message.
    pub open spec fn handled(self, message: MessageView, now_ns: u64) -> TrackerView {
        let claimed = self.claimed(message, now_ns);
        if !claimed.processes.contains_key(message.pid) {
            self
        } else {
            match message.event {
                EventView::Fork { child } => if claimed.processes.contains_key(child) {
                    claimed
                } else {
                    claimed.started(child, message.pid, now_ns)
                },
                EventView::Exec { executable, .. } => claimed.execed(
                    message.pid,
                    executable,
                    now_ns,
                ),
                EventView::Exit { stat } => claimed.exited(message.pid, stat),
            }
        }
    }

    /// What a message makes a tracker write.
    pub open spec fn handle_records(self, message: MessageView, now_ns: u64) -> Seq<Record> {
        let claimed = self.claimed(message, now_ns);
        if !claimed.processes.contains_key(message.pid) {
            seq![]
        } else {
            match message.event {
                EventView::Fork { .. } => seq![],
                EventView::Exec { .. } => claimed.exec_records(message.pid, now_ns),
                EventView::Exit { stat } => claimed.exit_records(message.pid, stat, now_ns),
            }
        }
    }

    /// The program that a message makes a tracker look at for blind spots.
    pub open spec fn observed(self, message: MessageView, now_ns: u64) -> Option<Seq<char>> {
        let claimed = self.claimed(message, now_ns);
        match message.event {
            EventView::Exec { executable, .. } => if claimed.processes.contains_key(message.pid) {
                Some(executable)
            } else {
                None
            },
            _ => None,
        }
    }
}

/// Every process stands under its own pid, and where it came from is known.
pub open spec fn consistent(state: TrackerView) -> bool {
    &&& state.ancestry.linked()
    &&& state.ancestry.members.dom() == state.processes.dom()
    &&& forall|pid: i32| #[trigger]
        state.processes.contains_key(pid) ==> state.processes[pid].process.pid == pid
            && state.ancestry.members[pid].execed == state.processes[pid].process.execed
}

pub struct Tracker<'a, S: Sink> {
    pub sink: &'a mut S,
    pub blind_spots: &'a mut BlindSpots,
    pub clock: Clock,
    pub root_pid: i32,
    pub root_exit_code: Option<u8>,
    pub processes: HashMap<i32, ProcessState>,
    pub ancestry: Ancestry,
    pub announced: HashSet<i32>,
}

impl<'a, S: Sink> View for Tracker<'a, S> {
    type V = TrackerView;

    open spec fn view(&self) -> TrackerView {
        TrackerView {
            root_pid: self.root_pid,
            root_exit_code: self.root_exit_code,
            processes: self.processes@.map_values(|state: ProcessState| state@),
            ancestry: self.ancestry@,
            announced: self.announced@,
        }
    }
}

/// What is known of blind spots after a program was looked at.
pub open spec fn spots_after(before: &BlindSpots, after: &BlindSpots, program: Option<Seq<char>>) -> bool {
    forall|spot: BlindSpot| #[trigger]
        after.seen(spot) == (match program {
            Some(program) => match (before.seen(spot), missed(seq![program])) {
                (None, Some((noticed, name))) => if noticed == spot {
                    Some(name)
                } else {
                    None
                },
                (seen, _) => seen,
            },
            None => before.seen(spot),
        })
}

impl<'a, S: Sink> Tracker<'a, S> {
    pub open spec fn wf(&self) -> bool {
        self.sink.wf() && self.clock.denom > 0 && consistent(self@)
    }

    /// Starts following `root_pid`, already started running `command`.
    pub fn new(
        sink: &'a mut S,
        blind_spots: &'a mut BlindSpots,
        clock: Clock,
        root_pid: i32,
        name: String,
        command: String,
        cwd: String,
    ) -> (tracker: Self)
        requires
            old(sink).wf(),
            clock.denom > 0,
        ensures
            tracker.wf(),
            tracker.clock == clock,
            *tracker.sink == *old(sink),
            *final(tracker.sink) == *final(sink),
            *tracker.blind_spots == *old(blind_spots),
            *final(tracker.blind_spots) == *final(blind_spots),
            tracker@ == TrackerView::fresh(root_pid, name@, command@, cwd@),
    {
        let root = ProcessState {
            process: Process { pid: root_pid, parent_pid: 0, build_parent_pid: 0, execed: false },
            segment: Segment { start_ns: 0, end_ns: 0, name, command, cwd, exit_code: None },
        };
        let mut processes: HashMap<i32, ProcessState> = HashMap::new();
        processes.insert(root_pid, root);
        let mut ancestry = Ancestry::new();
        ancestry.start(root_pid, 0);
        let tracker = Tracker {
            sink,
            blind_spots,
            clock,
            root_pid,
            root_exit_code: None,
            processes,
            ancestry,
            announced: HashSet::new(),
        };
        assert(tracker@.processes =~= map![root_pid => root@]);
        assert(tracker@.ancestry.members.dom() =~= tracker@.processes.dom());
        tracker
    }

    pub fn root_exit_code(&self) -> (code: Option<u8>)
        ensures
            code == self@.root_exit_code,
    {
        self.root_exit_code
    }

    fn start_process(&mut self, pid: i32, parent_pid: i32, now_ns: u64)
        requires
            old(self).wf(),
            !old(self)@.processes.contains_key(pid),
        ensures
            final(self).wf(),
            final(self)@ == old(self)@.started(pid, parent_pid, now_ns),
            final(self).clock == old(self).clock,
            *final(self).sink == *old(self).sink,
            *final(final(self).sink) == *final(old(self).sink),
            *final(self).blind_spots == *old(self).blind_spots,
            *final(final(self).blind_spots) == *final(old(self).blind_spots),
    {
        let build_parent_pid: i32 = self.ancestry.nearest(parent_pid);
        let (name, command, cwd) = match self.processes.get(&parent_pid) {
            Some(parent) => {
                let mut name = "fork:".to_owned();
                name.append(parent.segment.name.as_str());
                (name, parent.segment.command.clone(), parent.segment.cwd.clone())
            },
            None => ("fork".to_owned(), String::new(), String::new()),
        };
        let state = ProcessState {
            process: Process { pid, parent_pid, build_parent_pid, execed: false },
            segment: Segment { start_ns: now_ns, end_ns: 0, name, command, cwd, exit_code: None },
        };
        self.processes.insert(pid, state);
        self.ancestry.start(pid, parent_pid);
        proof {
            assert(self@.processes =~= old(self)@.processes.insert(pid, state@));
            assert(self@ =~= old(self)@.started(pid, parent_pid, now_ns));
            lemma_linked(old(self)@.ancestry, pid, parent_pid);
            assert(self@.ancestry.members.dom() =~= self@.processes.dom());
        }
    }
}

proof fn lemma_one_told<S: Sink>(
    before: S,
    after: S,
    record: Record,
    result: Result<(), WriteError>,
)
    requires
        after.wf(),
        after.start() == before.start(),
        forall|other: Record| #[trigger] after.takes(other) == before.takes(other),
        result == (if before.takes(record) {
            Ok::<(), WriteError>(())
        } else {
            Err(WriteError::TooLong)
        }),
        after.log() == (if before.takes(record) {
            before.log().push(record)
        } else {
            before.log()
        }),
    ensures
        told(before, after, seq![record], result),
{
    let records = seq![record];
    assert(records[0] == record);
    assert(takes_all(before, records) == before.takes(record));
    if before.takes(record) {
        assert(before.log() + records =~= after.log());
    } else {
        assert(before.log() + records.take(0) =~= after.log());
        assert(takes_all(before, records.take(0)));
    }
}

proof fn lemma_told_twice<S: Sink>(
    before: S,
    middle: S,
    after: S,
    first: Seq<Record>,
    second: Seq<Record>,
    result: Result<(), WriteError>,
)
    requires
        told(before, middle, first, Ok(())),
        told(middle, after, second, result),
    ensures
        told(before, after, first + second, result),
{
    let all = first + second;
    assert(takes_all(before, first));
    assert forall|i: int| 0 <= i < first.len() implies before.takes(#[trigger] all[i]) by {
        assert(all[i] == first[i]);
    }
    assert forall|i: int| 0 <= i < second.len() implies #[trigger] second[i] == all[first.len() + i] by {
    }
    if takes_all(middle, second) {
        assert forall|i: int| 0 <= i < all.len() implies before.takes(#[trigger] all[i]) by {
            if i >= first.len() {
                assert(middle.takes(second[i - first.len()]));
            }
        }
        assert(before.log() + all =~= before.log() + first + second);
    } else {
        let length = choose|length: int|
            0 <= length < second.len() && takes_all(middle, second.take(length)) && !middle.takes(
                second[length],
            ) && after.log() == middle.log() + #[trigger] second.take(length);
        let reached = first.len() + length;
        assert(!before.takes(all[reached]));
        assert(all.take(reached) =~= first + second.take(length));
        assert forall|i: int| 0 <= i < reached implies before.takes(
            #[trigger] all.take(reached)[i],
        ) by {
            if i < first.len() {
                assert(all.take(reached)[i] == all[i]);
            } else {
                assert(all.take(reached)[i] == second.take(length)[i - first.len()]);
                assert(middle.takes(second.take(length)[i - first.len()]));
            }
        }
        assert(after.log() =~= before.log() + all.take(reached));
    }
}

proof fn lemma_log_packets(first: Seq<Record>, second: Seq<Record>)
    ensures
        log_packets(first + second) == log_packets(first) + log_packets(second),
    decreases second.len(),
{
    if second.len() == 0 {
        assert(first + second =~= first);
        assert(log_packets(first) + log_packets(second) =~= log_packets(first));
    } else {
        let all = first + second;
        lemma_log_packets(first, second.drop_last());
        assert(all.drop_last() =~= first + second.drop_last());
        assert(log_packets(all) =~= log_packets(first) + log_packets(second));
    }
}

/// What a tracker records stands in the trace: the packets of the records that
/// a sink took follow those that were there before.
pub proof fn lemma_records_stand_in_the_trace(
    before: TraceSink,
    after: TraceSink,
    records: Seq<Record>,
)
    requires
        before.wf(),
        told(before, after, records, Ok(())),
    ensures
        old(after.writer)@ == old(before.writer)@ + log_packets(records),
{
    lemma_log_packets(before.log(), records);
    assert(takes_all(before, records));
    assert(after.writer@ =~= before.writer@ + log_packets(records));
}

proof fn lemma_told_refused<S: Sink>(
    before: S,
    after: S,
    first: Seq<Record>,
    all: Seq<Record>,
    result: Result<(), WriteError>,
)
    requires
        told(before, after, first, result),
        result is Err,
        first.len() <= all.len(),
        first == all.take(first.len() as int),
    ensures
        told(before, after, all, result),
{
    let length = choose|length: int|
        0 <= length < first.len() && takes_all(before, first.take(length)) && !before.takes(
            first[length],
        ) && after.log() == before.log() + #[trigger] first.take(length);
    assert(all[length] == first[length]);
    assert(all.take(length) =~= first.take(length));
    assert(!takes_all(before, all));
}

proof fn lemma_told_nothing<S: Sink>(sink: S)
    requires
        sink.wf(),
    ensures
        told(sink, sink, Seq::empty(), Ok(())),
{
    assert(sink.log() + Seq::<Record>::empty() =~= sink.log());
}

impl<'a, S: Sink> Tracker<'a, S> {
    /// Writes a segment, after announcing its process if that is due.
    fn record(&mut self, process: Process, segment: &Segment, pid: i32) -> (result: Result<
        (),
        WriteError,
    >)
        requires
            old(self).sink.wf(),
        ensures
            final(self)@ == (TrackerView {
                announced: old(self)@.announced.insert(pid),
                ..old(self)@
            }),
            told(
                *old(self).sink,
                *final(self).sink,
                old(self)@.records(process, segment@, pid),
                result,
            ),
            final(self).clock == old(self).clock,
            *final(final(self).sink) == *final(old(self).sink),
            *final(self).blind_spots == *old(self).blind_spots,
            *final(final(self).blind_spots) == *final(old(self).blind_spots),
    {
        let ghost records = old(self)@.records(process, segment@, pid);
        let ghost written = Record::Segment { process, segment: segment@ };
        if self.announced.insert(pid) {
            let announced = self.sink.process_started(pid);
            proof {
                lemma_one_told(*old(self).sink, *self.sink, Record::Started { pid }, announced);
                assert(records.take(1) =~= seq![Record::Started { pid }]);
                assert(records.skip(1) =~= seq![written]);
                assert(records =~= records.take(1) + records.skip(1));
            }
            if announced.is_err() {
                proof {
                    lemma_told_refused(
                        *old(self).sink,
                        *self.sink,
                        records.take(1),
                        records,
                        announced,
                    );
                }
                return announced;
            }
            let ghost middle = *self.sink;
            let result = self.sink.segment(process, segment);
            proof {
                lemma_one_told(middle, *self.sink, written, result);
                lemma_told_twice(
                    *old(self).sink,
                    middle,
                    *self.sink,
                    records.take(1),
                    records.skip(1),
                    result,
                );
            }
            result
        } else {
            assert(records =~= seq![written]);
            let result = self.sink.segment(process, segment);
            proof {
                lemma_one_told(*old(self).sink, *self.sink, written, result);
            }
            result
        }
    }

    fn exec(&mut self, pid: i32, now_ns: u64, executable: &String) -> (result: Result<(), WriteError>)
        requires
            old(self).wf(),
            old(self)@.processes.contains_key(pid),
        ensures
            final(self).wf(),
            final(self)@ == old(self)@.execed(pid, executable@, now_ns),
            told(
                *old(self).sink,
                *final(self).sink,
                old(self)@.exec_records(pid, now_ns),
                result,
            ),
            final(self).clock == old(self).clock,
            *final(final(self).sink) == *final(old(self).sink),
            spots_after(old(self).blind_spots, final(self).blind_spots, Some(executable@)),
            *final(final(self).blind_spots) == *final(old(self).blind_spots),
    {
        let ghost known = self@;
        let mut alone: Vec<String> = Vec::new();
        alone.push(executable.clone());
        assert(views(alone@) =~= seq![executable@]);
        self.blind_spots.observe(alone.as_slice());
        let name = match text_file_name(executable.as_str()) {
            Some(name) => name,
            None => {
                let mut name = "pid:".to_owned();
                push_signed(&mut name, pid as i64);
                name
            },
        };
        let command = executable.clone();
        assert(known.processes.contains_key(pid));
        let mut state = match self.processes.remove(&pid) {
            Some(state) => state,
            None => {
                return Ok(());
            },
        };
        assert(state@ == known.processes[pid]);
        if state.process.execed {
            let mut previous = Segment {
                start_ns: now_ns,
                end_ns: 0,
                name,
                command,
                cwd: String::new(),
                exit_code: None,
            };
            std::mem::swap(&mut state.segment, &mut previous);
            let soonest: u64 = previous.start_ns.saturating_add(MINIMUM_SEGMENT_DURATION_NS);
            previous.end_ns = if now_ns < soonest {
                soonest
            } else {
                now_ns
            };
            let process = state.process;
            let ghost after = state@;
            self.processes.insert(pid, state);
            assert(self@.processes =~= known.processes.insert(pid, after));
            let ghost ready = self@;
            assert(ready.records(process, previous@, pid) == known.exec_records(pid, now_ns));
            let result = self.record(process, &previous, pid);
            assert(self@ =~= known.execed(pid, executable@, now_ns));
            assert(self@.ancestry.members.dom() =~= self@.processes.dom());
            result
        } else {
            state.process.execed = true;
            state.segment.name = name;
            state.segment.command = command;
            let ghost after = state@;
            self.processes.insert(pid, state);
            self.ancestry.exec(pid);
            proof {
                assert(self@.processes =~= known.processes.insert(pid, after));
                assert(self@ =~= known.execed(pid, executable@, now_ns));
                lemma_linked(known.ancestry, pid, pid);
                assert(self@.ancestry.members.dom() =~= self@.processes.dom());
                lemma_told_nothing(*self.sink);
            }
            Ok(())
        }
    }

    fn exit(&mut self, pid: i32, now_ns: u64, stat: i32) -> (result: Result<(), WriteError>)
        requires
            old(self).wf(),
            old(self)@.processes.contains_key(pid),
        ensures
            final(self).wf(),
            final(self)@ == old(self)@.exited(pid, stat),
            told(
                *old(self).sink,
                *final(self).sink,
                old(self)@.exit_records(pid, stat, now_ns),
                result,
            ),
            final(self).clock == old(self).clock,
            *final(final(self).sink) == *final(old(self).sink),
            *final(self).blind_spots == *old(self).blind_spots,
            *final(final(self).blind_spots) == *final(old(self).blind_spots),
    {
        let ghost known = self@;
        assert(known.processes.contains_key(pid));
        let state = match self.processes.remove(&pid) {
            Some(state) => state,
            None => {
                return Ok(());
            },
        };
        assert(state@ == known.processes[pid]);
        assert(self@.processes =~= known.processes.remove(pid));
        self.ancestry.end(pid);
        proof {
            lemma_linked(known.ancestry, pid, pid);
            assert(self@.ancestry.members.dom() =~= self@.processes.dom());
            lemma_told_nothing(*self.sink);
        }
        if stat == FAILED_SPAWN_STAT && !state.process.execed {
            return Ok(());
        }
        let code: u32 = exit_code_of(stat);
        if pid == self.root_pid {
            self.root_exit_code = Some(clamp_code(code));
        }
        let process = state.process;
        let mut segment = state.segment;
        let soonest: u64 = segment.start_ns.saturating_add(MINIMUM_SEGMENT_DURATION_NS);
        segment.end_ns = if now_ns < soonest {
            soonest
        } else {
            now_ns
        };
        segment.exit_code = Some(code);
        let ghost ready = self@;
        assert(ready.records(process, segment@, pid) == known.exit_records(pid, stat, now_ns));
        let result = self.record(process, &segment, pid);
        assert(self@ =~= known.exited(pid, stat));
        result
    }

    /// Takes note of a message. What it makes the tracker write goes to the
    /// sink, as far as the sink takes it.
    pub fn handle(&mut self, message: Message) -> (result: Result<(), WriteError>)
        requires
            old(self).wf(),
        ensures
            final(self).wf(),
            ({
                let now_ns = old(self).clock.since(message.mach_time);
                &&& final(self)@ == old(self)@.handled(message@, now_ns)
                &&& result is Ok <==> takes_all(
                    *old(self).sink,
                    old(self)@.handle_records(message@, now_ns),
                )
                &&& told(
                    *old(self).sink,
                    *final(self).sink,
                    old(self)@.handle_records(message@, now_ns),
                    result,
                )
                &&& spots_after(
                    old(self).blind_spots,
                    final(self).blind_spots,
                    old(self)@.observed(message@, now_ns),
                )
            }),
            final(self).clock == old(self).clock,
            *final(final(self).sink) == *final(old(self).sink),
            *final(final(self).blind_spots) == *final(old(self).blind_spots),
    {
        let now_ns: u64 = self.clock.ns(message.mach_time);
        let pid: i32 = message.pid;
        proof {
            lemma_told_nothing(*self.sink);
        }
        if !self.processes.contains_key(&pid) {
            // Children started with posix_spawn may reach us as an exec
            // with no fork before it.
            let spawned = match &message.event {
                Event::Exec { .. } => self.processes.contains_key(&message.ppid),
                _ => false,
            };
            if !spawned {
                return Ok(());
            }
            self.start_process(pid, message.ppid, now_ns);
        }
        assert(self@ == old(self)@.claimed(message@, now_ns));
        match &message.event {
            Event::Fork { child } => {
                if !self.processes.contains_key(child) {
                    self.start_process(*child, pid, now_ns);
                }
                Ok(())
            },
            Event::Exec { executable, .. } => self.exec(pid, now_ns, executable),
            Event::Exit { stat } => self.exit(pid, now_ns, *stat),
        }
    }
}

impl TrackerView {
    /// What is written of a process that is running when recording ends.
    pub open spec fn cut_off(self, pid: i32, end_ns: u64) -> Seq<Record> {
        let state = self.processes[pid];
        self.records(
            state.process,
            SegmentView {
                end_ns: if end_ns < state.segment.start_ns {
                    state.segment.start_ns
                } else {
                    end_ns
                },
                ..state.segment
            },
            pid,
        )
    }

    /// What is written of some processes when recording ends, in that order.
    pub open spec fn flushed(self, order: Seq<i32>, end_ns: u64) -> Seq<Record>
        decreases order.len(),
    {
        if order.len() == 0 {
            Seq::empty()
        } else {
            self.flushed(order.drop_last(), end_ns) + self.cut_off(order.last(), end_ns)
        }
    }

    /// Whether an order goes through each known process once.
    pub open spec fn covers(self, order: Seq<i32>) -> bool {
        order.no_duplicates() && order.to_set() == self.processes.dom()
    }
}

impl<'a, S: Sink> Tracker<'a, S> {
    /// Ends every process still open, in no particular order, as of now,
    /// which is `now` in ticks.
    pub fn finish(self, now: u64) -> (result: Result<(), WriteError>)
        requires
            self.wf(),
        ensures
            result is Ok <==> forall|pid: i32| #[trigger]
                self@.processes.contains_key(pid) ==> takes_all(
                    *old(self.sink),
                    self@.cut_off(pid, self.clock.since(now)),
                ),
            exists|order: Seq<i32>| #[trigger]
                self@.covers(order) && told(
                    *old(self.sink),
                    *final(self.sink),
                    self@.flushed(order, self.clock.since(now)),
                    result,
                ),
            *final(self.blind_spots) == *old(self.blind_spots),
    {
        let end_ns: u64 = self.clock.elapsed_ns(now);
        let ghost state = self@;
        let ghost before = *self.sink;
        let ghost last_sink = *final(self.sink);
        let ghost spots = *self.blind_spots;
        let ghost last_spots = *final(self.blind_spots);
        let mut tracker = self;
        let order = keys(&tracker.processes);
        proof {
            assert(state.processes.dom() =~= tracker.processes@.dom());
            assert(state.covers(order@));
            assert(order@.take(0) =~= Seq::<i32>::empty());
            assert(order@.skip(0) =~= order@);
            assert forall|j: int| 0 <= j < order@.len() implies state.processes.contains_key(
                #[trigger] order@[j],
            ) by {
                assert(order@.to_set().contains(order@[j]));
            }
            lemma_told_nothing(before);
            lemma_flushed_taken(state, before, order@, end_ns);
        }
        for i in 0..order.len()
            invariant
                tracker.sink.wf(),
                state == self@,
                before == *old(self.sink),
                end_ns == self.clock.since(now),
                last_sink == *final(self.sink),
                *final(tracker.sink) == last_sink,
                spots == *old(self.blind_spots),
                *tracker.blind_spots == spots,
                last_spots == *final(self.blind_spots),
                *final(tracker.blind_spots) == last_spots,
                state.covers(order@),
                takes_all(before, state.flushed(order@, end_ns)) <==> forall|pid: i32| #[trigger]
                    state.processes.contains_key(pid) ==> takes_all(
                        before,
                        state.cut_off(pid, end_ns),
                    ),
                told(
                    before,
                    *tracker.sink,
                    state.flushed(order@.take(i as int), end_ns),
                    Ok(()),
                ),
                still_open(tracker@, state, order@.skip(i as int)),
        {
            let pid: i32 = order[i];
            assert(order@.skip(i as int)[0] == pid);
            assert(order@.take(i + 1).drop_last() =~= order@.take(i as int));
            let ghost known_before = tracker@;
            if let Some(known) = tracker.processes.remove(&pid) {
                assert(tracker@.processes =~= known_before.processes.remove(pid));
                let process = known.process;
                let mut segment = known.segment;
                segment.end_ns = if end_ns < segment.start_ns {
                    segment.start_ns
                } else {
                    end_ns
                };
                assert(tracker@.records(process, segment@, pid) == state.cut_off(pid, end_ns));
                let ghost middle = *tracker.sink;
                let result = tracker.record(process, &segment, pid);
                proof {
                    lemma_told_twice(
                        before,
                        middle,
                        *tracker.sink,
                        state.flushed(order@.take(i as int), end_ns),
                        state.cut_off(pid, end_ns),
                        result,
                    );
                }
                if result.is_err() {
                    proof {
                        lemma_flushed_prefix(state, order@, i + 1, end_ns);
                        lemma_told_refused(
                            before,
                            *tracker.sink,
                            state.flushed(order@.take(i + 1), end_ns),
                            state.flushed(order@, end_ns),
                            result,
                        );
                    }
                    return result;
                }
            }
            assert forall|j: int| 0 <= j < order@.skip(i + 1).len() implies {
                let other = #[trigger] order@.skip(i + 1)[j];
                &&& tracker@.processes.contains_key(other)
                &&& tracker@.processes[other] == state.processes[other]
                &&& tracker@.announced.contains(other) == state.announced.contains(other)
            } by {
                assert(order@.skip(i + 1)[j] == order@.skip(i as int)[j + 1]);
                assert(order@[i as int] != order@[i + 1 + j]);
            }
        }
        assert(order@.take(order@.len() as int) =~= order@);
        Ok(())
    }
}

/// Whether a tracker knows of some processes what was known before.
spec fn still_open(now: TrackerView, before: TrackerView, pids: Seq<i32>) -> bool {
    forall|j: int| 0 <= j < pids.len() ==> {
        let pid = #[trigger] pids[j];
        &&& now.processes.contains_key(pid)
        &&& now.processes[pid] == before.processes[pid]
        &&& now.announced.contains(pid) == before.announced.contains(pid)
    }
}

proof fn lemma_flushed_prefix(state: TrackerView, order: Seq<i32>, length: int, end_ns: u64)
    requires
        0 <= length <= order.len(),
    ensures
        ({
            let part = state.flushed(order.take(length), end_ns);
            let all = state.flushed(order, end_ns);
            part.len() <= all.len() && part == all.take(part.len() as int)
        }),
    decreases order.len(),
{
    let part = state.flushed(order.take(length), end_ns);
    let all = state.flushed(order, end_ns);
    if length == order.len() {
        assert(order.take(length) =~= order);
    } else {
        let fewer = order.drop_last();
        lemma_flushed_prefix(state, fewer, length, end_ns);
        assert(fewer.take(length) =~= order.take(length));
    }
    assert(part =~= all.take(part.len() as int));
}

proof fn lemma_flushed_taken<S: Sink>(state: TrackerView, sink: S, order: Seq<i32>, end_ns: u64)
    requires
        state.covers(order),
    ensures
        takes_all(sink, state.flushed(order, end_ns)) <==> forall|pid: i32| #[trigger]
            state.processes.contains_key(pid) ==> takes_all(sink, state.cut_off(pid, end_ns)),
{
    lemma_flushed_each(state, sink, order, end_ns);
    if takes_all(sink, state.flushed(order, end_ns)) {
        assert forall|pid: i32| #[trigger] state.processes.contains_key(pid) implies takes_all(
            sink,
            state.cut_off(pid, end_ns),
        ) by {
            assert(order.to_set().contains(pid));
            let j = choose|j: int| 0 <= j < order.len() && order[j] == pid;
            assert(takes_all(sink, state.cut_off(order[j], end_ns)));
        }
    }
    if forall|pid: i32| #[trigger]
        state.processes.contains_key(pid) ==> takes_all(sink, state.cut_off(pid, end_ns)) {
        assert forall|j: int| 0 <= j < order.len() implies takes_all(
            sink,
            state.cut_off(#[trigger] order[j], end_ns),
        ) by {
            assert(order.to_set().contains(order[j]));
            assert(state.processes.contains_key(order[j]));
        }
    }
}

proof fn lemma_flushed_each<S: Sink>(state: TrackerView, sink: S, order: Seq<i32>, end_ns: u64)
    ensures
        takes_all(sink, state.flushed(order, end_ns)) <==> forall|j: int|
            0 <= j < order.len() ==> takes_all(sink, state.cut_off(#[trigger] order[j], end_ns)),
    decreases order.len(),
{
    if order.len() > 0 {
        let fewer = order.drop_last();
        let part = state.flushed(fewer, end_ns);
        let last = state.cut_off(order.last(), end_ns);
        let all = state.flushed(order, end_ns);
        lemma_flushed_each(state, sink, fewer, end_ns);
        assert(forall|j: int| 0 <= j < fewer.len() ==> #[trigger] fewer[j] == order[j]);
        if takes_all(sink, all) {
            assert forall|i: int| 0 <= i < part.len() implies sink.takes(#[trigger] part[i]) by {
                assert(all[i] == part[i]);
            }
            assert forall|i: int| 0 <= i < last.len() implies sink.takes(#[trigger] last[i]) by {
                assert(all[part.len() + i] == last[i]);
            }
            assert forall|j: int| 0 <= j < order.len() implies takes_all(
                sink,
                state.cut_off(#[trigger] order[j], end_ns),
            ) by {
                if j < fewer.len() {
                    assert(takes_all(sink, state.cut_off(fewer[j], end_ns)));
                }
            }
        }
        if forall|j: int|
            0 <= j < order.len() ==> takes_all(sink, state.cut_off(#[trigger] order[j], end_ns)) {
            assert(takes_all(sink, state.cut_off(order[order.len() - 1], end_ns)));
            assert forall|j: int| 0 <= j < fewer.len() implies takes_all(
                sink,
                state.cut_off(#[trigger] fewer[j], end_ns),
            ) by {
                assert(takes_all(sink, state.cut_off(order[j], end_ns)));
            }
            assert forall|i: int| 0 <= i < all.len() implies sink.takes(#[trigger] all[i]) by {
                if i < part.len() {
                    assert(all[i] == part[i]);
                } else {
                    assert(all[i] == last[i - part.len()]);
                }
            }
        }
    }
}

/// A process is announced at most once, and before anything else is written
/// of it: what a message writes is about one process, begins by announcing it
/// if that was not done before, and leaves it announced.
pub proof fn lemma_announced_once_and_first(state: TrackerView, message: MessageView, now_ns: u64)
    requires
        consistent(state),
    ensures
        ({
            let records = state.handle_records(message, now_ns);
            let after = state.handled(message, now_ns);
            &&& consistent(after)
            &&& state.announced.subset_of(after.announced)
            &&& forall|i: int|
                #![trigger records[i]]
                0 <= i < records.len() ==> {
                    &&& after.announced.contains(message.pid)
                    &&& match records[i] {
                        Record::Started { pid } => i == 0 && pid == message.pid
                            && !state.announced.contains(pid),
                        Record::Segment { process, .. } => process.pid == message.pid && (
                        state.announced.contains(message.pid) || (i == 1 && records[0]
                            == Record::Started { pid: message.pid })),
                    }
                }
        }),
{
    lemma_handled_consistent(state, message, now_ns);
}

proof fn lemma_started_consistent(state: TrackerView, pid: i32, parent_pid: i32, now_ns: u64)
    requires
        consistent(state),
        !state.processes.contains_key(pid),
    ensures
        consistent(state.started(pid, parent_pid, now_ns)),
{
    let after = state.started(pid, parent_pid, now_ns);
    lemma_linked(state.ancestry, pid, parent_pid);
    assert(after.ancestry.members.dom() =~= after.processes.dom());
}

proof fn lemma_handled_consistent(state: TrackerView, message: MessageView, now_ns: u64)
    requires
        consistent(state),
    ensures
        consistent(state.handled(message, now_ns)),
{
    let claimed = state.claimed(message, now_ns);
    let after = state.handled(message, now_ns);
    let pid = message.pid;
    if !state.processes.contains_key(pid) {
        lemma_started_consistent(state, pid, message.ppid, now_ns);
    }
    if claimed.processes.contains_key(pid) {
        lemma_linked(claimed.ancestry, pid, pid);
        if let EventView::Fork { child } = message.event {
            if !claimed.processes.contains_key(child) {
                lemma_started_consistent(claimed, child, pid, now_ns);
            }
        } else {
            assert(after.ancestry.members.dom() =~= after.processes.dom());
        }
    }
}

impl TrackerView {
    /// After some messages, each with its time.
    pub open spec fn followed(self, messages: Seq<(MessageView, u64)>) -> TrackerView
        decreases messages.len(),
    {
        if messages.len() == 0 {
            self
        } else {
            self.followed(messages.drop_last()).handled(messages.last().0, messages.last().1)
        }
    }

    /// What some messages make a tracker write.
    pub open spec fn written(self, messages: Seq<(MessageView, u64)>) -> Seq<Record>
        decreases messages.len(),
    {
        if messages.len() == 0 {
            Seq::empty()
        } else {
            self.written(messages.drop_last()) + self.followed(
                messages.drop_last(),
            ).handle_records(messages.last().0, messages.last().1)
        }
    }
}

/// Whether a record announces a process.
pub open spec fn is_start_of(record: Record, pid: i32) -> bool {
    record == Record::Started { pid }
}

/// Whether a record is a segment of a process.
pub open spec fn is_segment_of(record: Record, pid: i32) -> bool {
    record matches Record::Segment { process, .. } && process.pid == pid
}

/// Whether each announcement is followed by a segment of its process at once.
pub open spec fn starts_in_place(records: Seq<Record>) -> bool {
    forall|i: int, pid: i32|
        0 <= i < records.len() && #[trigger] is_start_of(records[i], pid) ==> i + 1 < records.len()
            && is_segment_of(records[i + 1], pid)
}

/// Whether no process is announced twice.
pub open spec fn starts_once(records: Seq<Record>) -> bool {
    forall|i: int, j: int, pid: i32|
        0 <= i < j < records.len() && #[trigger] is_start_of(records[i], pid)
            ==> !#[trigger] is_start_of(records[j], pid)
}

/// Whether each segment comes after its process is announced.
pub open spec fn segments_follow(records: Seq<Record>) -> bool {
    forall|i: int, pid: i32|
        0 <= i < records.len() && #[trigger] is_segment_of(records[i], pid) ==> exists|j: int|
            0 <= j < i && #[trigger] is_start_of(records[j], pid)
}

/// Whether every process that some records tell of is announced exactly once,
/// and right before its first segment.
pub open spec fn announced_in_place(records: Seq<Record>) -> bool {
    starts_in_place(records) && starts_once(records) && segments_follow(records)
}

spec fn announces(records: Seq<Record>, pids: Set<i32>) -> bool {
    forall|pid: i32| #[trigger] pids.contains(pid) <==> records.contains(Record::Started { pid })
}

/// Whether some records tell of a segment of a process next, after announcing
/// the process if that was not done before.
spec fn tells_next(records: Seq<Record>, more: Seq<Record>, pid: i32) -> bool {
    &&& more.len() > 0
    &&& is_segment_of(more.last(), pid)
    &&& if records.contains(Record::Started { pid }) {
        more.len() == 1
    } else {
        more.len() == 2 && more[0] == Record::Started { pid }
    }
}

#[verifier::spinoff_prover]
proof fn lemma_next_announces(
    records: Seq<Record>,
    more: Seq<Record>,
    pid: i32,
    announced: Set<i32>,
)
    requires
        announces(records, announced),
        tells_next(records, more, pid),
    ensures
        announces(records + more, announced.insert(pid)),
{
    let all = records + more;
    assert forall|other: i32| #[trigger] announced.insert(pid).contains(other) <==> all.contains(
        Record::Started { pid: other },
    ) by {
        let start = Record::Started { pid: other };
        assert(announced.contains(other) <==> records.contains(start));
        if records.contains(start) {
            let i = choose|i: int| 0 <= i < records.len() && records[i] == start;
            assert(all[i] == start);
        } else if other == pid {
            assert(all[records.len() as int] == more[0]);
        } else if all.contains(start) {
            let i = choose|i: int| 0 <= i < all.len() && all[i] == start;
            assert(i >= records.len()) by {
                if i < records.len() {
                    assert(records[i] == start);
                }
            }
            assert(all[i] == more[i - records.len()]);
        }
    }
}

#[verifier::spinoff_prover]
proof fn lemma_next_segments(records: Seq<Record>, more: Seq<Record>, pid: i32)
    requires
        segments_follow(records),
        tells_next(records, more, pid),
    ensures
        segments_follow(records + more),
{
    let all = records + more;
    let start = Record::Started { pid };
    assert forall|i: int, other: i32|
        0 <= i < all.len() && #[trigger] is_segment_of(all[i], other) implies exists|j: int|
        0 <= j < i && #[trigger] is_start_of(all[j], other) by {
        if i < records.len() {
            assert(is_segment_of(records[i], other));
            let j = choose|j: int| 0 <= j < i && #[trigger] is_start_of(records[j], other);
            assert(is_start_of(all[j], other));
        } else if records.contains(start) {
            let j = choose|j: int| 0 <= j < records.len() && records[j] == start;
            assert(is_start_of(all[j], pid));
        } else {
            assert(is_start_of(all[records.len() as int], pid));
        }
    }
}

#[verifier::spinoff_prover]
proof fn lemma_next_starts(records: Seq<Record>, more: Seq<Record>, pid: i32)
    requires
        starts_in_place(records),
        tells_next(records, more, pid),
    ensures
        starts_in_place(records + more),
{
    let all = records + more;
    assert forall|i: int, other: i32|
        0 <= i < all.len() && #[trigger] is_start_of(all[i], other) implies i + 1 < all.len()
        && is_segment_of(all[i + 1], other) by {
        if i < records.len() {
            assert(is_start_of(records[i], other));
            assert(all[i + 1] == records[i + 1]);
        } else {
            assert(all[i] == more[i - records.len()]);
            assert(all[i + 1] == more.last());
        }
    }
}

#[verifier::spinoff_prover]
proof fn lemma_next_starts_once(records: Seq<Record>, more: Seq<Record>, pid: i32)
    requires
        starts_once(records),
        tells_next(records, more, pid),
    ensures
        starts_once(records + more),
{
    let all = records + more;
    assert forall|i: int, j: int, other: i32|
        0 <= i < j < all.len() && #[trigger] is_start_of(all[i], other)
            implies !#[trigger] is_start_of(all[j], other) by {
        if j < records.len() {
            assert(is_start_of(records[i], other));
            assert(is_start_of(records[j], other) == is_start_of(all[j], other));
        } else {
            assert(all[j] == more[j - records.len()]);
            if i < records.len() {
                assert(records[i] == Record::Started { pid: other });
            } else {
                assert(all[i] == more[i - records.len()]);
            }
        }
    }
}

proof fn lemma_announced_then_segment(
    records: Seq<Record>,
    state: TrackerView,
    process: Process,
    segment: SegmentView,
)
    requires
        announced_in_place(records),
        announces(records, state.announced),
    ensures
        announced_in_place(records + state.records(process, segment, process.pid)),
        announces(
            records + state.records(process, segment, process.pid),
            state.announced.insert(process.pid),
        ),
{
    let pid = process.pid;
    let more = state.records(process, segment, pid);
    assert(state.announced.contains(pid) <==> records.contains(Record::Started { pid }));
    lemma_next_announces(records, more, pid, state.announced);
    lemma_next_segments(records, more, pid);
    lemma_next_starts(records, more, pid);
    lemma_next_starts_once(records, more, pid);
}

proof fn lemma_written_in_place(state: TrackerView, messages: Seq<(MessageView, u64)>)
    requires
        consistent(state),
        state.announced == Set::<i32>::empty(),
    ensures
        consistent(state.followed(messages)),
        announced_in_place(state.written(messages)),
        announces(state.written(messages), state.followed(messages).announced),
    decreases messages.len(),
{
    if messages.len() > 0 {
        let (message, now_ns) = messages.last();
        let before = state.followed(messages.drop_last());
        let earlier = state.written(messages.drop_last());
        lemma_written_in_place(state, messages.drop_last());
        lemma_handled_consistent(before, message, now_ns);
        let claimed = before.claimed(message, now_ns);
        let pid = message.pid;
        let records = before.handle_records(message, now_ns);
        if records.len() == 0 {
            assert(earlier + records =~= earlier);
            assert(before.handled(message, now_ns).announced == before.announced);
        } else {
            let last = records.last();
            let process = last->process;
            let segment = last->segment;
            if !before.processes.contains_key(pid) {
                lemma_started_consistent(before, pid, message.ppid, now_ns);
            }
            assert(process == claimed.processes[pid].process);
            assert(records == before.records(process, segment, pid));
            lemma_announced_then_segment(earlier, before, process, segment);
        }
    }
}

proof fn lemma_flushed_in_place(
    records: Seq<Record>,
    state: TrackerView,
    order: Seq<i32>,
    end_ns: u64,
)
    requires
        consistent(state),
        announced_in_place(records),
        announces(records, state.announced),
        order.no_duplicates(),
        forall|i: int| 0 <= i < order.len() ==> state.processes.contains_key(#[trigger] order[i]),
    ensures
        announced_in_place(records + state.flushed(order, end_ns)),
        announces(
            records + state.flushed(order, end_ns),
            state.announced.union(order.to_set()),
        ),
    decreases order.len(),
{
    if order.len() == 0 {
        assert(records + state.flushed(order, end_ns) =~= records);
        assert(state.announced.union(order.to_set()) =~= state.announced);
    } else {
        let fewer = order.drop_last();
        let pid = order.last();
        assert forall|i: int| 0 <= i < fewer.len() implies state.processes.contains_key(
            #[trigger] fewer[i],
        ) by {
            assert(fewer[i] == order[i]);
        }
        lemma_flushed_in_place(records, state, fewer, end_ns);
        let done = TrackerView {
            announced: state.announced.union(fewer.to_set()),
            ..state
        };
        assert(!fewer.contains(pid)) by {
            assert forall|i: int| 0 <= i < fewer.len() implies fewer[i] != pid by {
                assert(order[i] != order[order.len() - 1]);
            }
        }
        assert(state.processes.contains_key(order[order.len() - 1]));
        let last = state.cut_off(pid, end_ns);
        let process = state.processes[pid].process;
        let segment = last.last()->segment;
        assert(last == done.records(process, segment, pid));
        lemma_announced_then_segment(
            records + state.flushed(fewer, end_ns),
            done,
            process,
            segment,
        );
        assert(records + state.flushed(order, end_ns) =~= records + state.flushed(fewer, end_ns)
            + last);
        assert forall|other: i32|
            state.announced.union(order.to_set()).contains(other)
                == #[trigger] done.announced.insert(pid).contains(other) by {
            if fewer.contains(other) {
                let i = choose|i: int| 0 <= i < fewer.len() && fewer[i] == other;
                assert(order[i] == other);
            }
            assert(order[order.len() - 1] == pid);
            if order.contains(other) && other != pid {
                let i = choose|i: int| 0 <= i < order.len() && order[i] == other;
                assert(fewer[i] == other);
            }
        }
        assert(state.announced.union(order.to_set()) =~= done.announced.insert(pid));
    }
}

/// Over a whole recording, from a tracker that has announced nothing to the
/// end of what is still running, every process is announced exactly once, and
/// right before its first segment.
pub proof fn lemma_run_announces_in_place(
    state: TrackerView,
    messages: Seq<(MessageView, u64)>,
    order: Seq<i32>,
    end_ns: u64,
)
    requires
        consistent(state),
        state.announced == Set::<i32>::empty(),
        state.followed(messages).covers(order),
    ensures
        announced_in_place(
            state.written(messages) + state.followed(messages).flushed(order, end_ns),
        ),
        forall|i: int|
            0 <= i < order.len() ==> (state.written(messages) + state.followed(messages).flushed(
                order,
                end_ns,
            )).contains(Record::Started { pid: #[trigger] order[i] }),
{
    let known = state.followed(messages);
    lemma_written_in_place(state, messages);
    assert forall|i: int| 0 <= i < order.len() implies known.processes.contains_key(
        #[trigger] order[i],
    ) by {
        assert(order.to_set().contains(order[i]));
    }
    lemma_flushed_in_place(state.written(messages), known, order, end_ns);
    assert forall|i: int| 0 <= i < order.len() implies (state.written(messages) + known.flushed(
        order,
        end_ns,
    )).contains(Record::Started { pid: #[trigger] order[i] }) by {
        assert(known.announced.union(order.to_set()).contains(order[i]));
    }
}

/// A spawn that fails leaves nothing behind: no record, and the tracker as it
/// was.
pub proof fn lemma_failed_spawn_leaves_nothing(
    state: TrackerView,
    forked: MessageView,
    ended: MessageView,
    child: i32,
    fork_ns: u64,
    exit_ns: u64,
)
    requires
        consistent(state),
        state.processes.contains_key(forked.pid),
        forked.event == (EventView::Fork { child }),
        ended.event == (EventView::Exit { stat: FAILED_SPAWN_STAT }),
        ended.pid == child,
        !state.processes.contains_key(child),
    ensures
        ({
            let between = state.handled(forked, fork_ns);
            &&& state.handle_records(forked, fork_ns) == Seq::<Record>::empty()
            &&& between.handle_records(ended, exit_ns) == Seq::<Record>::empty()
            &&& between.handled(ended, exit_ns) == state
        }),
{
    let between = state.handled(forked, fork_ns);
    lemma_linked(state.ancestry, child, forked.pid);
    assert(between.handled(ended, exit_ns).processes =~= state.processes);
    assert(between.handled(ended, exit_ns) =~= state);
}

/// Processes that the build did not start are ignored: a message about one
/// changes nothing and writes nothing.
pub proof fn lemma_unrelated_ignored(state: TrackerView, message: MessageView, now_ns: u64)
    requires
        !state.processes.contains_key(message.pid),
        !(message.event is Exec) || !state.processes.contains_key(message.ppid),
    ensures
        state.handled(message, now_ns) == state,
        state.handle_records(message, now_ns) == Seq::<Record>::empty(),
        state.observed(message, now_ns) is None,
{
}

} // verus!
