//! What a recording holds.

use vstd::prelude::*;

verus! {

#[derive(Clone, Copy, Debug)]
pub struct Process {
    pub pid: i32,
    pub parent_pid: i32,
    /// Nearest ancestor known to have exec'd when this process was observed.
    pub build_parent_pid: i32,
    /// Whether this pid ever ran a program of its own.
    pub execed: bool,
}

#[derive(Debug)]
pub struct Segment {
    pub start_ns: u64,
    pub end_ns: u64,
    pub name: String,
    pub command: String,
    pub cwd: String,
    pub exit_code: Option<u32>,
}

/// A segment with its texts as sequences of characters.
#[verifier::ext_equal]
pub struct SegmentView {
    pub start_ns: u64,
    pub end_ns: u64,
    pub name: Seq<char>,
    pub command: Seq<char>,
    pub cwd: Seq<char>,
    pub exit_code: Option<u32>,
}

impl View for Segment {
    type V = SegmentView;

    open spec fn view(&self) -> SegmentView {
        SegmentView {
            start_ns: self.start_ns,
            end_ns: self.end_ns,
            name: self.name@,
            command: self.command@,
            cwd: self.cwd@,
            exit_code: self.exit_code,
        }
    }
}

/// A path moved from a temporary or cache location to its final destination.
#[derive(Debug)]
pub struct Rename {
    pub timestamp_ns: u64,
    pub from: String,
    pub to: String,
}

#[verifier::ext_equal]
pub struct RenameView {
    pub timestamp_ns: u64,
    pub from: Seq<char>,
    pub to: Seq<char>,
}

impl View for Rename {
    type V = RenameView;

    open spec fn view(&self) -> RenameView {
        RenameView { timestamp_ns: self.timestamp_ns, from: self.from@, to: self.to@ }
    }
}

#[derive(Debug)]
pub struct FileOpen {
    pub timestamp_ns: u64,
    pub path: String,
    pub flags: u64,
    pub fd: i32,
}

#[verifier::ext_equal]
pub struct FileOpenView {
    pub timestamp_ns: u64,
    pub path: Seq<char>,
    pub flags: u64,
    pub fd: i32,
}

impl View for FileOpen {
    type V = FileOpenView;

    open spec fn view(&self) -> FileOpenView {
        FileOpenView {
            timestamp_ns: self.timestamp_ns,
            path: self.path@,
            flags: self.flags,
            fd: self.fd,
        }
    }
}

} // verus!
