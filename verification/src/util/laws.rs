//! How sites and stretches of time are put.

#[allow(unused_imports)]
use super::{duration_words, ends_host, host_end, host_start, origin, scheme_end};
#[allow(unused_imports)]
use crate::text::decimal;
use vstd::prelude::*;
use vstd::string::*;

verus! {

/// A stretch of time is given in minutes if it is whole minutes, and in
/// seconds otherwise; one of either is not a plural.
pub proof fn lemma_durations(minutes: u64, seconds: u64)
    requires
        minutes <= u64::MAX / 60,
    ensures
        minutes > 1 ==> duration_words((60 * minutes) as u64) == decimal(minutes as int)
            + " minutes"@,
        minutes == 1 ==> duration_words((60 * minutes) as u64) == "1 minute"@,
        seconds % 60 != 0 && seconds != 1 ==> duration_words(seconds) == decimal(seconds as int)
            + " seconds"@,
        seconds == 1 ==> duration_words(seconds) == "1 second"@,
        duration_words(0) == decimal(0) + " seconds"@,
{
    if minutes > 1 {
        let whole = (60 * minutes) as u64;
        assert(whole as int == 60 * minutes);
        assert(whole % 60 == 0 && whole / 60 == minutes);
    }
}

proof fn lemma_scheme_found(url: Seq<char>, from: int, at: int)
    requires
        0 <= from <= at,
        at + 3 <= url.len(),
        url[at] == ':' && url[at + 1] == '/' && url[at + 2] == '/',
        forall|i: int| from <= i < at ==> url[i] != ':',
    ensures
        scheme_end(url, from) == Some(at),
    decreases at - from,
{
    if from < at {
        lemma_scheme_found(url, from + 1, at);
    }
}

proof fn lemma_host_found(url: Seq<char>, from: int, end: int)
    requires
        0 <= from <= end <= url.len(),
        forall|i: int|
            from <= i < end ==> url[i] != '/' && #[trigger] url[i] != '?' && url[i] != '#',
        end == url.len() || url[end] == '/' || url[end] == '?' || url[end] == '#',
    ensures
        host_end(url, from) == end,
    decreases end - from,
{
    if from < end {
        lemma_host_found(url, from + 1, end);
    }
}

/// The origin of a URL is its scheme and host, without the path, query or
/// fragment that follow.
pub proof fn lemma_origin_of(scheme: Seq<char>, host: Seq<char>, rest: Seq<char>)
    requires
        forall|i: int| 0 <= i < scheme.len() ==> #[trigger] scheme[i] != ':',
        forall|i: int|
            0 <= i < host.len() ==> host[i] != '/' && #[trigger] host[i] != '?' && host[i] != '#',
        rest.len() == 0 || rest[0] == '/' || rest[0] == '?' || rest[0] == '#',
    ensures
        origin(scheme + "://"@ + host + rest) == scheme + "://"@ + host,
{
    reveal_strlit("://");
    let site = scheme + "://"@ + host;
    let url = site + rest;
    let at = scheme.len() as int;
    assert forall|i: int| 0 <= i < at implies url[i] != ':' by {
        assert(url[i] == scheme[i]);
    }
    assert(url[at] == "://"@[0] && url[at + 1] == "://"@[1] && url[at + 2] == "://"@[2]);
    lemma_scheme_found(url, 0, at);
    let start = at + 3;
    let end = start + host.len();
    assert forall|i: int| start <= i < end implies url[i] != '/' && #[trigger] url[i] != '?'
        && url[i] != '#' by {
        assert(url[i] == host[i - start]);
    }
    if rest.len() > 0 {
        assert(url[end] == rest[0]);
    }
    lemma_host_found(url, start, end);
    assert(url.take(end) =~= site);
}

} // verus!
