use buildprof::report::{colour_wanted, emph, plain, PREFIX};
use buildprof::util::{humanize_duration, site_origin};

#[test]
fn colour_follows_the_terminal_and_the_conventions() {
    assert!(colour_wanted(false, false, false, true));
    assert!(!colour_wanted(false, false, false, false));
    assert!(!colour_wanted(true, false, false, true), "NO_COLOR wins");
    assert!(colour_wanted(false, true, false, false), "CLICOLOR_FORCE wins over a pipe");
    assert!(!colour_wanted(true, true, false, true), "NO_COLOR wins over CLICOLOR_FORCE");
    assert!(!colour_wanted(false, false, true, true), "TERM=dumb disables colour");
}

#[test]
fn humanize_reads_naturally() {
    assert_eq!(humanize_duration(1), "1 second");
    assert_eq!(humanize_duration(45), "45 seconds");
    assert_eq!(humanize_duration(60), "1 minute");
    assert_eq!(humanize_duration(90), "90 seconds");
    assert_eq!(humanize_duration(600), "10 minutes");
}

#[test]
fn site_origin_drops_the_path() {
    assert_eq!(
        site_origin("https://buildprof.lalitm.com/v0.2.3"),
        "https://buildprof.lalitm.com"
    );
    assert_eq!(site_origin("http://localhost:10000"), "http://localhost:10000");
}

#[test]
fn humanize_takes_every_duration() {
    assert_eq!(humanize_duration(0), "0 seconds");
    assert_eq!(humanize_duration(u64::MAX), "18446744073709551615 seconds");
}

#[test]
fn site_origin_is_its_own_origin() {
    for url in ["", "/a/b", "host/path", "https://h/\u{e9}/x", "a://b://c/d", "\u{e9}://\u{e9}/"] {
        let origin = site_origin(url);
        assert!(url.starts_with(origin));
        assert_eq!(site_origin(origin), origin);
    }
    assert_eq!(site_origin("a://b://c/d"), "a://b:");
    assert_eq!(site_origin("\u{e9}://\u{e9}/"), "\u{e9}://\u{e9}");
}

#[test]
fn site_origin_drops_a_query_or_fragment() {
    assert_eq!(site_origin("https://example.com?tab=1"), "https://example.com");
    assert_eq!(site_origin("https://example.com#top"), "https://example.com");
    assert_eq!(site_origin("https://example.com:81/a?b#c"), "https://example.com:81");
}

#[test]
fn parts_of_messages_keep_their_emphasis() {
    assert_eq!(PREFIX, "buildprof:");
    let part = emph("a path");
    assert_eq!((part.text.as_str(), part.emphasised), ("a path", true));
    assert!(!plain("words").emphasised);
}

#[test]
fn only_the_origin_of_a_url_matters() {
    for tail in ["", "/", "/a://b", "?q=1", "#top", "/a?b#c"] {
        assert_eq!(site_origin(&format!("https://h:1{tail}")), "https://h:1");
    }
}
