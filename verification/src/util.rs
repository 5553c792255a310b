//! Small pure helpers shared by the commands.

#[allow(unused_imports)]
use crate::text::decimal;
use crate::text::{characters, push_unsigned};
use vstd::prelude::*;
use vstd::string::*;

pub mod laws;

verus! {

/// Where `://` first stands in a text, at `from` or later.
pub open spec fn scheme_end(url: Seq<char>, from: int) -> Option<int>
    decreases url.len() - from,
{
    if from + 3 > url.len() {
        None
    } else if url[from] == ':' && url[from + 1] == '/' && url[from + 2] == '/' {
        Some(from)
    } else {
        scheme_end(url, from + 1)
    }
}

/// Whether a character ends the host of a URL: a path, a query or a fragment
/// begins with it.
pub open spec fn ends_host(c: char) -> bool {
    c == '/' || c == '?' || c == '#'
}

/// Where a host that begins at `from` ends: before the first character that
/// is no part of it, or at the end of the text.
pub open spec fn host_end(url: Seq<char>, from: int) -> int
    decreases url.len() - from,
{
    if from >= url.len() {
        url.len() as int
    } else if ends_host(url[from]) {
        from
    } else {
        host_end(url, from + 1)
    }
}

/// Where the host of a URL begins.
pub open spec fn host_start(url: Seq<char>) -> int {
    match scheme_end(url, 0) {
        Some(end) => end + 3,
        None => 0,
    }
}

/// The scheme and host of a URL.
pub open spec fn origin(url: Seq<char>) -> Seq<char> {
    url.take(host_end(url, host_start(url)))
}

proof fn lemma_host_end(url: Seq<char>, from: int)
    requires
        0 <= from <= url.len(),
    ensures
        from <= host_end(url, from) <= url.len(),
        forall|i: int| from <= i < host_end(url, from) ==> !ends_host(#[trigger] url[i]),
        host_end(url, from) < url.len() ==> ends_host(url[host_end(url, from)]),
    decreases url.len() - from,
{
    if from < url.len() && !ends_host(url[from]) {
        lemma_host_end(url, from + 1);
    }
}

proof fn lemma_host_only(url: Seq<char>, from: int)
    requires
        0 <= from <= url.len(),
        forall|i: int| from <= i < url.len() ==> !ends_host(#[trigger] url[i]),
    ensures
        host_end(url, from) == url.len(),
    decreases url.len() - from,
{
    if from < url.len() {
        lemma_host_only(url, from + 1);
    }
}

proof fn lemma_scheme_end(url: Seq<char>, from: int)
    requires
        0 <= from,
    ensures
        scheme_end(url, from) is Some ==> from <= scheme_end(url, from)->0 <= url.len() - 3,
    decreases url.len() - from,
{
    if from + 3 <= url.len() {
        lemma_scheme_end(url, from + 1);
    }
}

proof fn lemma_scheme_end_of_prefix(url: Seq<char>, length: int, from: int)
    requires
        0 <= from,
        0 <= length <= url.len(),
        scheme_end(url, from) is Some ==> scheme_end(url, from)->0 + 3 <= length,
        scheme_end(url, from) is None ==> forall|i: int| from <= i < length ==> url[i] != '/',
    ensures
        scheme_end(url.take(length), from) == scheme_end(url, from),
    decreases url.len() - from,
{
    let prefix = url.take(length);
    lemma_scheme_end(url, from + 1);
    if from + 3 <= length {
        assert(prefix[from] == url[from]);
        assert(prefix[from + 1] == url[from + 1]);
        assert(prefix[from + 2] == url[from + 2]);
    }
    if from + 3 <= url.len() && scheme_end(url, from) != Some(from) {
        lemma_scheme_end_of_prefix(url, length, from + 1);
    }
}

proof fn lemma_scheme_end_extended(url: Seq<char>, tail: Seq<char>, from: int)
    requires
        0 <= from,
        scheme_end(url, from) is Some,
    ensures
        scheme_end(url + tail, from) == scheme_end(url, from),
    decreases url.len() - from,
{
    let all = url + tail;
    if from + 3 <= url.len() {
        assert(all[from] == url[from]);
        assert(all[from + 1] == url[from + 1]);
        assert(all[from + 2] == url[from + 2]);
        if !(url[from] == ':' && url[from + 1] == '/' && url[from + 2] == '/') {
            lemma_scheme_end_extended(url, tail, from + 1);
        }
    }
}

proof fn lemma_host_end_extended(url: Seq<char>, tail: Seq<char>, from: int)
    requires
        0 <= from <= url.len(),
        forall|i: int| from <= i < url.len() ==> !ends_host(#[trigger] url[i]),
        tail.len() == 0 || ends_host(tail[0]),
    ensures
        host_end(url + tail, from) == url.len(),
    decreases url.len() - from,
{
    let all = url + tail;
    if from < url.len() {
        assert(all[from] == url[from]);
        lemma_host_end_extended(url, tail, from + 1);
    } else if tail.len() > 0 {
        assert(all[from] == tail[0]);
    }
}

/// The path, query and fragment of a URL with a scheme do not matter to its
/// origin: any others may follow it in their place.
pub proof fn lemma_only_origin_matters(url: Seq<char>, tail: Seq<char>)
    requires
        scheme_end(url, 0) is Some,
        tail.len() == 0 || ends_host(tail[0]),
    ensures
        origin(origin(url) + tail) == origin(url),
{
    lemma_scheme_end(url, 0);
    let start = host_start(url);
    lemma_host_end(url, start);
    let site = origin(url);
    let end = host_end(url, start);
    assert(site =~= url.take(end));
    lemma_scheme_end_of_prefix(url, end, 0);
    lemma_scheme_end_extended(site, tail, 0);
    assert(host_start(site + tail) == start);
    lemma_host_end_extended(site, tail, start);
    assert(origin(site + tail) =~= site);
}

/// The origin of a URL begins the URL, and is its own origin. It ends where
/// the host does: after the scheme it has nothing that ends a host, and in the
/// URL such a character follows it, or nothing does.
pub proof fn lemma_origin(url: Seq<char>)
    ensures
        origin(url).is_prefix_of(url),
        origin(origin(url)) == origin(url),
        forall|i: int|
            host_start(url) <= i < origin(url).len() ==> !ends_host(#[trigger] origin(url)[i]),
        origin(url) == url || ends_host(url[origin(url).len() as int]),
{
    lemma_scheme_end(url, 0);
    let start = host_start(url);
    lemma_host_end(url, start);
    let end = host_end(url, start);
    let site = origin(url);
    assert(site =~= url.subrange(0, end));
    lemma_scheme_end_of_prefix(url, end, 0);
    assert(host_start(site) == start);
    lemma_host_only(site, start);
    assert(origin(site) =~= site);
    if end == url.len() {
        assert(site =~= url);
    }
}

/// The scheme and host of `url`, which is how the browser names the site in
/// its permission prompts.
pub fn site_origin(url: &str) -> (site: &str)
    ensures
        site@ == origin(url@),
{
    let all = characters(url);
    let length: usize = all.len();
    let mut from: usize = 0;
    let mut start: usize = 0;
    proof {
        lemma_scheme_end(url@, 0);
    }
    while length - from >= 3
        invariant_except_break
            from <= length,
            start == 0,
            scheme_end(url@, 0) == scheme_end(url@, from as int),
        invariant
            length == url@.len(),
            all@ == url@,
        ensures
            start == host_start(url@),
        decreases length - from,
    {
        if all[from] == ':' && all[from + 1] == '/' && all[from + 2] == '/' {
            start = from + 3;
            break;
        }
        from = from + 1;
    }
    let mut end: usize = start;
    while end < length && !(all[end] == '/' || all[end] == '?' || all[end] == '#')
        invariant
            end <= length,
            length == url@.len(),
            all@ == url@,
            host_end(url@, start as int) == host_end(url@, end as int),
        decreases length - end,
    {
        end = end + 1;
    }
    assert(url@.subrange(0, end as int) =~= url@.take(end as int));
    url.substring_char(0, end)
}

/// A stretch of time in words: whole minutes as minutes, the rest as seconds.
pub open spec fn duration_words(seconds: u64) -> Seq<char> {
    if seconds == 1 {
        "1 second"@
    } else if seconds < 60 || seconds % 60 != 0 {
        decimal(seconds as int) + " seconds"@
    } else if seconds == 60 {
        "1 minute"@
    } else {
        decimal(seconds as int / 60) + " minutes"@
    }
}

pub fn humanize_duration(seconds: u64) -> (words: String)
    ensures
        words@ == duration_words(seconds),
{
    if seconds == 1 {
        return "1 second".to_owned();
    }
    if seconds == 60 {
        return "1 minute".to_owned();
    }
    let mut words = String::new();
    if seconds < 60 || seconds % 60 != 0 {
        push_unsigned(&mut words, seconds);
        words.append(" seconds");
        assert(words@ =~= decimal(seconds as int) + " seconds"@);
    } else {
        push_unsigned(&mut words, seconds / 60);
        words.append(" minutes");
        assert(words@ =~= decimal(seconds as int / 60) + " minutes"@);
    }
    words
}

} // verus!
