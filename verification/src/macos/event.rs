//! What the collector observed. The tracker turns these into the trace's
//! process segments.

#[allow(unused_imports)]
use crate::text::views;
use vstd::prelude::*;

verus! {

/// One thing a followed process did.
#[derive(Debug, PartialEq)]
pub struct Message {
    /// `mach_absolute_time()` when it happened.
    pub mach_time: u64,
    pub pid: i32,
    /// The parent, when the collector knows it; 0 otherwise.
    pub ppid: i32,
    pub event: Event,
}

#[derive(Debug, PartialEq)]
pub enum Event {
    Fork { child: i32 },
    /// What a process is now running.
    Exec { argv: Vec<String>, executable: String },
    /// A `wait(2)` status.
    Exit { stat: i32 },
}

#[verifier::ext_equal]
pub struct MessageView {
    pub mach_time: u64,
    pub pid: i32,
    pub ppid: i32,
    pub event: EventView,
}

#[verifier::ext_equal]
pub enum EventView {
    Fork { child: i32 },
    Exec { argv: Seq<Seq<char>>, executable: Seq<char> },
    Exit { stat: i32 },
}

impl View for Event {
    type V = EventView;

    open spec fn view(&self) -> EventView {
        match self {
            Event::Fork { child } => EventView::Fork { child: *child },
            Event::Exec { argv, executable } => EventView::Exec {
                argv: views(argv@),
                executable: executable@,
            },
            Event::Exit { stat } => EventView::Exit { stat: *stat },
        }
    }
}

impl View for Message {
    type V = MessageView;

    open spec fn view(&self) -> MessageView {
        MessageView {
            mach_time: self.mach_time,
            pid: self.pid,
            ppid: self.ppid,
            event: self.event@,
        }
    }
}

/// What some messages say.
pub open spec fn message_views(messages: Seq<Message>) -> Seq<MessageView> {
    messages.map_values(|message: Message| message@)
}

} // verus!
