use buildprof::ancestry::Ancestry;

#[test]
fn a_process_of_which_nothing_is_known_may_have_run_a_program() {
    assert_eq!(Ancestry::new().nearest(7), 7);
}

#[test]
fn the_search_goes_past_processes_that_ran_nothing() {
    let mut ancestry = Ancestry::new();
    ancestry.start(10, 0);
    ancestry.start(11, 10);
    ancestry.start(12, 11);
    assert_eq!(ancestry.nearest(12), 0);
    ancestry.exec(10);
    assert_eq!(ancestry.nearest(12), 10);
    ancestry.exec(11);
    assert_eq!(ancestry.nearest(12), 11);
}

#[test]
fn those_below_a_process_remember_what_it_was() {
    let mut ancestry = Ancestry::new();
    ancestry.start(10, 0);
    ancestry.exec(10);
    ancestry.start(11, 10);
    ancestry.start(12, 11);
    ancestry.end(11);
    assert_eq!(ancestry.nearest(12), 10);
    ancestry.end(10);
    assert_eq!(ancestry.nearest(12), 10);
    // Another process under the same pid is not the one that was there.
    ancestry.start(10, 1);
    assert_eq!(ancestry.nearest(12), 10);
    assert_eq!(ancestry.nearest(10), 1);
}
