use jobshell::job_table::{JobTable, ProcessState};
use jobshell::render::render_u64;

#[test]
fn decimal_rendering() {
    assert_eq!(render_u64(0), "0");
    assert_eq!(render_u64(7), "7");
    assert_eq!(render_u64(10), "10");
    assert_eq!(render_u64(4242), "4242");
    assert_eq!(render_u64(1234567890), "1234567890");
    assert_eq!(render_u64(u64::MAX), "18446744073709551615");
}

#[test]
fn listing_line_format() {
    let mut t = JobTable::new();
    t.insert("sleep".to_string(), 4242);
    let line = t.list()[0].render();
    assert_eq!(line, "[1] sleep 4242 - background");
}

#[test]
fn listing_line_follows_state_and_position() {
    let mut t = JobTable::new();
    let mut pid: u32 = 100;
    while pid < 112 {
        t.insert("cat".to_string(), pid);
        pid += 1;
    }
    t.set_state(12, ProcessState::Foreground);
    let listing = t.list();
    assert_eq!(listing[11].render(), "[12] cat 111 - foreground");
}
