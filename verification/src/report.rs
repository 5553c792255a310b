//! Messages for the person running buildprof, as runs of plain and
//! emphasised text; colour is left to whoever prints them.

use vstd::prelude::*;
use vstd::string::*;

verus! {

pub const PREFIX: &'static str = "buildprof:";

/// Whether messages are coloured.
pub open spec fn coloured(no_color: bool, force: bool, dumb: bool, terminal: bool) -> bool {
    !no_color && (force || (terminal && !dumb))
}

/// Who wants no colour gets none; who forces it gets it otherwise; and a
/// terminal that can show it does.
pub proof fn lemma_coloured(force: bool, dumb: bool, terminal: bool)
    ensures
        !coloured(true, force, dumb, terminal),
        coloured(false, true, dumb, terminal),
        coloured(false, false, dumb, terminal) <==> terminal && !dumb,
{
}

/// Whether messages should be coloured, by the usual conventions: `NO_COLOR`
/// wins over `CLICOLOR_FORCE`, which wins over what the terminal can do.
pub fn colour_wanted(no_color: bool, force: bool, dumb: bool, terminal: bool) -> (wanted: bool)
    ensures
        wanted == coloured(no_color, force, dumb, terminal),
{
    if no_color {
        return false;
    }
    if force {
        return true;
    }
    terminal && !dumb
}

/// Part of a message: a path, URL or command is emphasised.
#[derive(Debug)]
pub struct Span {
    pub text: String,
    pub emphasised: bool,
}

impl View for Span {
    type V = (Seq<char>, bool);

    open spec fn view(&self) -> (Seq<char>, bool) {
        (self.text@, self.emphasised)
    }
}

/// The parts of a message.
pub open spec fn parts(message: Seq<Span>) -> Seq<(Seq<char>, bool)> {
    message.map_values(|span: Span| span@)
}

/// The parts of each of some messages.
pub open spec fn all_parts(messages: Seq<Vec<Span>>) -> Seq<Seq<(Seq<char>, bool)>> {
    messages.map_values(|message: Vec<Span>| parts(message@))
}

pub fn plain(text: &str) -> (span: Span)
    ensures
        span@ == (text@, false),
{
    Span { text: text.to_owned(), emphasised: false }
}

pub fn emph(text: &str) -> (span: Span)
    ensures
        span@ == (text@, true),
{
    Span { text: text.to_owned(), emphasised: true }
}

} // verus!
