use jobshell::job_table::{JobTable, ProcessState};

#[test]
fn insert_returns_contiguous_positions() {
    let mut t = JobTable::new();
    assert_eq!(t.len(), 0);
    assert_eq!(t.insert("sleep".to_string(), 100), 1);
    assert_eq!(t.insert("cat".to_string(), 101), 2);
    assert_eq!(t.insert("vi".to_string(), 102), 3);
    assert_eq!(t.len(), 3);

    let listing = t.list();
    assert_eq!(listing.len(), 3);
    for (i, entry) in listing.iter().enumerate() {
        assert_eq!(entry.position, i + 1);
        assert_eq!(entry.state, ProcessState::Background);
    }
    assert_eq!(listing[0].name, "sleep");
    assert_eq!(listing[0].pid, 100);
    assert_eq!(listing[2].name, "vi");
    assert_eq!(listing[2].pid, 102);
}

#[test]
fn length_tracks_inserts_and_successful_removals() {
    let mut t = JobTable::new();
    t.insert("a".to_string(), 1);
    t.insert("b".to_string(), 2);
    t.insert("c".to_string(), 3);
    assert!(t.remove_at(2).is_some());
    assert!(t.remove_at(99).is_none());
    assert!(t.remove_at(0).is_none());
    // three inserts, one successful removal
    assert_eq!(t.len(), 2);

    let listing = t.list();
    assert_eq!(listing[0].position, 1);
    assert_eq!(listing[0].name, "a");
    assert_eq!(listing[1].position, 2);
    assert_eq!(listing[1].name, "c");
}

#[test]
fn remove_at_returns_the_job_and_shifts() {
    let mut t = JobTable::new();
    t.insert("a".to_string(), 10);
    t.insert("b".to_string(), 11);
    let removed = t.remove_at(1).expect("position 1 exists");
    assert_eq!(removed.name, "a");
    assert_eq!(removed.pid, 10);
    let listing = t.list();
    assert_eq!(listing.len(), 1);
    assert_eq!(listing[0].position, 1);
    assert_eq!(listing[0].name, "b");
}

#[test]
fn set_state_in_place_and_ignores_bad_positions() {
    let mut t = JobTable::new();
    t.insert("a".to_string(), 10);
    t.set_state(1, ProcessState::Foreground);
    assert_eq!(t.list()[0].state, ProcessState::Foreground);
    t.set_state(7, ProcessState::Stopped);
    assert_eq!(t.len(), 1);
    assert_eq!(t.list()[0].state, ProcessState::Foreground);
}

#[test]
fn fg_begin_promotes_and_hands_back_the_pid() {
    let mut t = JobTable::new();
    t.insert("sleep".to_string(), 4242);
    assert_eq!(t.fg_begin(1), Some(4242));
    assert_eq!(t.list()[0].state, ProcessState::Foreground);
}

#[test]
fn fg_begin_out_of_range_is_a_silent_no_op() {
    let mut t = JobTable::new();
    t.insert("sleep".to_string(), 4242);
    assert_eq!(t.fg_begin(99), None);
    assert_eq!(t.fg_begin(0), None);
    let listing = t.list();
    assert_eq!(listing.len(), 1);
    assert_eq!(listing[0].name, "sleep");
    assert_eq!(listing[0].state, ProcessState::Background);
}

#[test]
fn remove_pid_takes_the_first_match() {
    let mut t = JobTable::new();
    t.insert("a".to_string(), 5);
    t.insert("b".to_string(), 6);
    t.insert("c".to_string(), 5);
    let removed = t.remove_pid(5).expect("pid 5 is present");
    assert_eq!(removed.name, "a");
    let listing = t.list();
    assert_eq!(listing.len(), 2);
    assert_eq!(listing[0].name, "b");
    assert_eq!(listing[1].name, "c");
    assert!(t.remove_pid(999).is_none());
    assert_eq!(t.len(), 2);
}

#[test]
fn pid_at_looks_up_by_position() {
    let mut t = JobTable::new();
    t.insert("a".to_string(), 7);
    assert_eq!(t.pid_at(1), Some(7));
    assert_eq!(t.pid_at(2), None);
    assert_eq!(t.pid_at(0), None);
}

#[test]
fn process_state_names() {
    assert_eq!(ProcessState::Background.to_string(), "background");
    assert_eq!(ProcessState::Foreground.to_string(), "foreground");
    assert_eq!(ProcessState::Stopped.to_string(), "stopped");
}
