//! What the lines of `eslogger` say.

#[allow(unused_imports)]
use super::{
    access_flags, argv_of, destination_of, event_of, flag_for, message_of, open_flags,
    subscribed_names, without_slashes, EventView, MessageView,
};
#[allow(unused_imports)]
use crate::json::{member_of, JsonView};
use vstd::prelude::*;
use vstd::string::*;

verus! {

/// Whether a value is a whole number that fits.
pub open spec fn is_number(value: Option<JsonView>, number: int) -> bool {
    value matches Some(JsonView::Number { signed: Some(signed), .. }) && signed == number
}

/// Whether a value is a text.
pub open spec fn is_text(value: Option<JsonView>, text: Seq<char>) -> bool {
    value == Some(JsonView::Text { text })
}

/// Whether a value describes the process with a pid.
pub open spec fn is_process(process: Option<JsonView>, pid: i32) -> bool {
    process matches Some(process) && is_number(
        member_of(process.member("audit_token"@), "pid"@),
        pid as int,
    )
}

/// Whether a value describes the file at a path.
pub open spec fn is_file(file: Option<JsonView>, path: Seq<char>) -> bool {
    is_text(member_of(file, "path"@), path)
}

/// Whether a line is about a process, its parent, a time and one thing that
/// happened.
pub open spec fn is_line(
    root: JsonView,
    pid: i32,
    ppid: i32,
    mach_time: u64,
    kind: Seq<char>,
    body: JsonView,
) -> bool {
    &&& is_process(root.member("process"@), pid)
    &&& is_number(member_of(root.member("process"@), "ppid"@), ppid as int)
    &&& root.member("mach_time"@) matches Some(JsonView::Number { unsigned: Some(unsigned), .. })
        && unsigned == mach_time
    &&& root.member("event"@) matches Some(JsonView::Object { entries }) && entries.len() > 0
        && entries[0] == (kind, body)
}

proof fn lemma_kinds_differ()
    ensures
        "fork"@ != "exec"@,
        "fork"@ != "exit"@,
        "fork"@ != "open"@,
        "exec"@ != "exit"@,
        "exec"@ != "open"@,
        "exit"@ != "open"@,
        "create"@ != "rename"@,
        "create"@.len() == 6,
        "rename"@.len() == 6,
        "fork"@.len() == 4,
        "exec"@.len() == 4,
        "exit"@.len() == 4,
        "open"@.len() == 4,
{
    reveal_strlit("fork");
    reveal_strlit("exec");
    reveal_strlit("exit");
    reveal_strlit("open");
    reveal_strlit("create");
    reveal_strlit("rename");
    assert("fork"@[0] == 'f' && "exec"@[0] == 'e' && "exit"@[0] == 'e' && "open"@[0] == 'o');
    assert("exec"@[2] == 'e' && "exit"@[2] == 'i');
    assert("create"@[0] == 'c' && "rename"@[0] == 'r');
}

/// A line about a fork, an end or a program that was run is read as such, with
/// who did it and when.
pub proof fn lemma_process_lines(
    root: JsonView,
    pid: i32,
    ppid: i32,
    mach_time: u64,
    body: JsonView,
    child: i32,
    stat: i32,
    items: Seq<JsonView>,
    cwd: Seq<char>,
    executable: Seq<char>,
)
    ensures
        is_line(root, pid, ppid, mach_time, "fork"@, body) && is_process(
            body.member("child"@),
            child,
        ) ==> message_of(root) == Some(
            MessageView { mach_time, pid, ppid, event: EventView::Fork { child } },
        ),
        is_line(root, pid, ppid, mach_time, "exit"@, body) && is_number(
            body.member("stat"@),
            stat as int,
        ) ==> message_of(root) == Some(
            MessageView { mach_time, pid, ppid, event: EventView::Exit { stat } },
        ),
        is_line(root, pid, ppid, mach_time, "exec"@, body) && body.member("args"@) == Some(
            JsonView::List { items },
        ) && is_file(body.member("cwd"@), cwd) && is_file(
            member_of(body.member("target"@), "executable"@),
            executable,
        ) ==> message_of(root) == Some(
            MessageView {
                mach_time,
                pid,
                ppid,
                event: EventView::Exec {
                    argv: argv_of(Some(JsonView::List { items })),
                    cwd,
                    executable,
                },
            },
        ),
{
    lemma_kinds_differ();
}

/// The arguments of a program are the texts in its list, in their order.
pub proof fn lemma_arguments_listed(items: Seq<JsonView>, i: int, text: Seq<char>)
    requires
        0 <= i < items.len(),
        items[i] == (JsonView::Text { text }),
    ensures
        argv_of(Some(JsonView::List { items })).len() == items.len(),
        argv_of(Some(JsonView::List { items }))[i] == text,
{
}

/// A line about a file that was opened or moved is read as such; a rename
/// leads from the source to the destination.
pub proof fn lemma_file_lines(
    root: JsonView,
    pid: i32,
    ppid: i32,
    mach_time: u64,
    body: JsonView,
    path: Seq<char>,
    fflag: i64,
    to: Seq<char>,
)
    requires
        fflag >= 0,
    ensures
        is_line(root, pid, ppid, mach_time, "open"@, body) && is_file(body.member("file"@), path)
            && is_number(body.member("fflag"@), fflag as int) ==> message_of(root) == Some(
            MessageView {
                mach_time,
                pid,
                ppid,
                event: EventView::Open { path, fflag: fflag as u64 },
            },
        ),
        is_line(root, pid, ppid, mach_time, "rename"@, body) && is_file(
            body.member("source"@),
            path,
        ) && is_file(member_of(body.member("destination"@), "existing_file"@), to) ==> message_of(
            root,
        ) == Some(
            MessageView { mach_time, pid, ppid, event: EventView::Rename { from: path, to } },
        ),
{
    lemma_kinds_differ();
}

/// A destination that does not exist yet is the name in its directory, with
/// one slash in between.
pub proof fn lemma_new_destination(
    destination: JsonView,
    directory: Seq<char>,
    name: Seq<char>,
    slashes: nat,
)
    requires
        destination.member("existing_file"@) is None,
        directory.len() == 0 || directory.last() != '/',
        is_file(
            member_of(destination.member("new_path"@), "dir"@),
            directory + Seq::new(slashes, |i: int| '/'),
        ),
        is_text(member_of(destination.member("new_path"@), "filename"@), name),
    ensures
        destination_of(destination) == Some(directory + seq!['/'] + name),
{
    lemma_slashes(directory, slashes);
    reveal_strlit("/");
    assert("/"@ =~= seq!['/']);
}

proof fn lemma_slashes(text: Seq<char>, slashes: nat)
    requires
        text.len() == 0 || text.last() != '/',
    ensures
        without_slashes(text + Seq::new(slashes, |i: int| '/')) == text,
    decreases slashes,
{
    let all = text + Seq::new(slashes, |i: int| '/');
    if slashes == 0 {
        assert(all =~= text);
    } else {
        assert(all.last() == '/');
        assert(all.drop_last() =~= text + Seq::new((slashes - 1) as nat, |i: int| '/'));
        lemma_slashes(text, (slashes - 1) as nat);
    }
}

/// The flags of an open file say on both systems whether it is read and
/// written, created, emptied, appended to, and whether it must not exist.
pub proof fn lemma_flags_kept(fflag: u64)
    ensures
        ({
            let flags = open_flags(fflag);
            let reads = fflag & 1 != 0;
            let writes = fflag & 2 != 0;
            &&& flags % 4 == (if writes && reads {
                2int
            } else if writes {
                1
            } else {
                0
            })
            &&& flags - flags % 4 == (if fflag & 0x200 != 0 {
                0o100int
            } else {
                0
            }) + (if fflag & 0x800 != 0 {
                0o200int
            } else {
                0
            }) + (if fflag & 0x400 != 0 {
                0o1000int
            } else {
                0
            }) + (if fflag & 0x8 != 0 {
                0o2000int
            } else {
                0
            })
        }),
{
}

/// Processes are always listened for, and files if they are wanted.
pub proof fn lemma_subscribed(file_events: bool)
    ensures
        ({
            let names = subscribed_names(file_events);
            &&& names.take(3) == seq!["fork"@, "exec"@, "exit"@]
            &&& file_events ==> names.skip(3) == seq!["open"@, "create"@, "rename"@]
            &&& !file_events ==> names.len() == 3
        }),
{
}

/// A file that is created is an open for writing that creates it, under the
/// name it gets; a directory that is created is not reported.
pub proof fn lemma_creation_lines(
    root: JsonView,
    pid: i32,
    ppid: i32,
    mach_time: u64,
    body: JsonView,
    destination: JsonView,
    directory: Seq<char>,
    name: Seq<char>,
    mode: u32,
)
    requires
        is_line(root, pid, ppid, mach_time, "create"@, body),
        body.member("destination"@) == Some(destination),
        destination.member("existing_file"@) is None,
        directory.len() == 0 || directory.last() != '/',
        is_file(member_of(destination.member("new_path"@), "dir"@), directory),
        is_text(member_of(destination.member("new_path"@), "filename"@), name),
        is_number(member_of(destination.member("new_path"@), "mode"@), mode as int),
    ensures
        mode & 0o170000 == 0o040000u32 ==> message_of(root) is None,
        mode & 0o170000 != 0o040000u32 ==> message_of(root) == Some(
            MessageView {
                mach_time,
                pid,
                ppid,
                event: EventView::Open {
                    path: directory + seq!['/'] + name,
                    fflag: 0x202,
                },
            },
        ),
{
    lemma_kinds_differ();
    assert(directory + Seq::new(0, |i: int| '/') =~= directory);
    lemma_new_destination(destination, directory, name, 0);
    assert(2u64 | 0x200u64 == 0x202u64) by (bit_vector);
}

} // verus!
