use er_qs::snapshots::{POLL_MS, QUIET_MS, TIMEOUT_MS};
use er_qs::{backups_to_prune, newest_first, StableWait, MAX_BACKUPS};

#[test]
fn snapshots_listed_newest_first_ties_in_given_order() {
    let keys = vec![Some(10), Some(30), Some(20), Some(30), Some(-5)];
    assert_eq!(newest_first(&keys), vec![1, 3, 2, 0, 4]);
    assert_eq!(newest_first(&vec![]), Vec::<usize>::new());
}

#[test]
fn no_pruning_up_to_the_limit() {
    let keys: Vec<Option<i128>> = (0..MAX_BACKUPS as i128).map(Some).collect();
    assert!(backups_to_prune(&keys).is_empty());
    assert!(backups_to_prune(&vec![]).is_empty());
}

#[test]
fn pruning_removes_the_oldest_beyond_the_limit() {
    // 23 backups, given newest to oldest except a few
    let mut keys: Vec<Option<i128>> = (0..23).map(|i| Some(1000 - i as i128)).collect();
    keys[5] = None; // unknown time counts as oldest
    keys[7] = Some(0);
    keys[9] = Some(0);
    let r = backups_to_prune(&keys);
    assert_eq!(r.len(), 23 - MAX_BACKUPS);
    assert_eq!(r, vec![5, 7, 9]);
}

#[test]
fn wait_ends_when_quiet() {
    let mut w = StableWait::new(0, Some(7), 0);
    assert!(!w.observe(Some(7), POLL_MS));
    assert!(!w.observe(Some(8), 1000)); // a write restarts the quiet window
    assert_eq!(w.last_change, 1000);
    assert!(!w.observe(Some(8), 1000 + QUIET_MS - 1));
    assert!(w.observe(Some(8), 1000 + QUIET_MS));
}

#[test]
fn wait_ends_at_the_timeout() {
    let mut w = StableWait::new(100, None, 100);
    let mut t = 100;
    let mut m = 0i128;
    loop {
        t += POLL_MS;
        m += 1; // the file keeps changing
        if w.observe(Some(m), t) {
            break;
        }
    }
    assert_eq!(t, 100 + TIMEOUT_MS);
}

#[test]
fn clock_going_back_counts_as_no_time() {
    let mut w = StableWait::new(10_000, Some(1), 10_000);
    assert!(!w.observe(Some(1), 5_000));
    assert_eq!(w.start, 10_000);
}
