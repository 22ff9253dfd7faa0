use jobshell::job_table::{JobTable, ProcessState};
use jobshell::reaper::PollOutcome;

#[test]
fn reap_removes_exactly_the_exited_job() {
    let mut t = JobTable::new();
    t.insert("a".to_string(), 1);
    t.insert("b".to_string(), 2);
    t.insert("c".to_string(), 3);
    let polls = vec![
        PollOutcome::Running,
        PollOutcome::Exited(0),
        PollOutcome::Running,
    ];
    let removed = t.reap(&polls);
    assert_eq!(removed.len(), 1);
    assert_eq!(removed[0].name, "b");
    assert_eq!(removed[0].pid, 2);
    assert_eq!(removed[0].code, 0);
    let listing = t.list();
    assert_eq!(listing.len(), 2);
    assert_eq!(listing[0].position, 1);
    assert_eq!(listing[0].name, "a");
    assert_eq!(listing[1].position, 2);
    assert_eq!(listing[1].name, "c");
}

#[test]
fn reap_reports_in_table_order() {
    let mut t = JobTable::new();
    t.insert("a".to_string(), 1);
    t.insert("b".to_string(), 2);
    let polls = vec![PollOutcome::Exited(7), PollOutcome::Exited(0)];
    let removed = t.reap(&polls);
    assert_eq!(removed.len(), 2);
    assert_eq!(removed[0].name, "a");
    assert_eq!(removed[0].code, 7);
    assert_eq!(removed[1].name, "b");
    assert_eq!(removed[1].code, 0);
    assert_eq!(t.len(), 0);
}

#[test]
fn reap_leaves_a_job_whose_poll_failed() {
    let mut t = JobTable::new();
    t.insert("a".to_string(), 1);
    let polls = vec![PollOutcome::PollFailed];
    let removed = t.reap(&polls);
    assert!(removed.is_empty());
    let listing = t.list();
    assert_eq!(listing.len(), 1);
    assert_eq!(listing[0].name, "a");
}

#[test]
fn reap_never_disturbs_a_freshly_inserted_job() {
    // an already-exited job is in the table; a new job is inserted
    // just before the reaper's cycle runs
    let mut t = JobTable::new();
    t.insert("old".to_string(), 1);
    t.insert("new".to_string(), 2);
    let polls = vec![PollOutcome::Exited(0), PollOutcome::Running];
    let removed = t.reap(&polls);
    assert_eq!(removed.len(), 1);
    assert_eq!(removed[0].name, "old");
    let listing = t.list();
    assert_eq!(listing.len(), 1);
    assert_eq!(listing[0].position, 1);
    assert_eq!(listing[0].name, "new");
    assert_eq!(listing[0].pid, 2);
    assert_eq!(listing[0].state, ProcessState::Background);
}

#[test]
fn background_job_lifecycle() {
    // launch `sleep 1 &`: one listing line, then the reaper observes
    // completion and the listing is empty
    let mut t = JobTable::new();
    let pos = t.insert("sleep".to_string(), 4242);
    assert_eq!(pos, 1);
    let listing = t.list();
    assert_eq!(listing.len(), 1);
    assert_eq!(listing[0].position, 1);
    assert_eq!(listing[0].name, "sleep");
    assert_eq!(listing[0].pid, 4242);
    assert_eq!(listing[0].state.to_string(), "background");
    let removed = t.reap(&vec![PollOutcome::Exited(0)]);
    assert_eq!(removed.len(), 1);
    assert_eq!(removed[0].name, "sleep");
    assert_eq!(removed[0].pid, 4242);
    assert!(t.list().is_empty());
}

#[test]
fn foreground_wait_at_a_later_position() {
    let mut t = JobTable::new();
    t.insert("cat".to_string(), 7);
    t.insert("sleep".to_string(), 8);
    t.insert("vi".to_string(), 9);
    let pid = t.fg_begin(2).expect("position 2 exists");
    assert_eq!(pid, 8);
    let finished = t.remove_pid(pid).expect("the waited job is still tracked");
    assert_eq!(finished.name, "sleep");
    let listing = t.list();
    assert_eq!(listing.len(), 2);
    assert_eq!(listing[0].name, "cat");
    assert_eq!(listing[1].name, "vi");
}

#[test]
fn foreground_wait_lifecycle() {
    // launch `sleep 1 &` then `fg 1`: the job is promoted, its pid is
    // handed out for the blocking wait, and after the wait completes
    // the job is removed and the listing is empty
    let mut t = JobTable::new();
    t.insert("sleep".to_string(), 4242);
    let pid = t.fg_begin(1).expect("position 1 exists");
    assert_eq!(pid, 4242);
    assert_eq!(t.list()[0].state, ProcessState::Foreground);
    let finished = t.remove_pid(pid).expect("the waited job is still tracked");
    assert_eq!(finished.name, "sleep");
    assert!(t.list().is_empty());
}
