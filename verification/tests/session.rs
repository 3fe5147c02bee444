use shadow_proxy::router::RouteAction;
use shadow_proxy::session::{Moment, SessionStatus, SessionTracker, TimeOfDay};

const NOON: TimeOfDay = TimeOfDay { hour: 12, minute: 0, second: 0 };

#[test]
fn test_session_lifecycle_and_ring_buffer() {
    let mut tracker = SessionTracker::new(3);

    let sid1 = tracker.start_session(NOON, "github.com:443", "默认代理", RouteAction::Proxy, false);
    assert_eq!(sid1, 1);

    tracker.record_traffic(sid1, 1024, 4096);

    let list1 = tracker.list_sessions(10);
    assert_eq!(list1.len(), 1);
    assert_eq!(list1[0].status, SessionStatus::Active);
    assert_eq!(list1[0].upload_bytes, 1024);
    assert_eq!(list1[0].download_bytes, 4096);

    tracker.finish_session(sid1, SessionStatus::Closed, 500, 1000);

    for i in 2..=4 {
        tracker.start_session(
            NOON,
            &format!("bad-site-{}.com:80", i),
            "阻断恶意网站",
            RouteAction::Block,
            true,
        );
    }

    let list2 = tracker.list_sessions(10);
    assert_eq!(list2.len(), 3);
    assert_eq!(list2[0].target, "bad-site-4.com:80");
    assert_eq!(list2[0].status, SessionStatus::Blocked);
}

#[test]
fn a_session_from_start_to_end() {
    let mut tracker = SessionTracker::new(2);
    let start = Moment {
        unix_secs: 86_400 + 3600 * 5 + 60 * 7 + 9,
        time: TimeOfDay { hour: 23, minute: 7, second: 9 },
        nanos: 1_000_000_000,
    };
    let id = tracker.start_session_at(start, "example.com:80", "r", RouteAction::Direct, false);
    tracker.record_traffic(id, 10, 20);
    let open = tracker.list_sessions_at(1_250_999_999, 5);
    assert_eq!(open[0].duration_ms, 250);
    assert_eq!(open[0].time_str, "23:07:09");
    assert_eq!(open[0].start_time, 86_400 + 3600 * 5 + 60 * 7 + 9);
    tracker.finish_session_at(3_000_000_000, id, SessionStatus::Failed, 1, 2);
    let done = tracker.list_sessions_at(9_000_000_000, 5);
    assert_eq!(done.len(), 1);
    assert_eq!(done[0].duration_ms, 2000);
    assert_eq!(done[0].status, SessionStatus::Failed);
    assert_eq!((done[0].upload_bytes, done[0].download_bytes), (11, 22));
    // A second end adds to the totals only.
    tracker.finish_session_at(4_000_000_000, id, SessionStatus::Closed, 100, 200);
    assert_eq!(tracker.list_sessions_at(0, 5).len(), 1);
    let (_, _, up, down) = tracker.speed_and_totals_at(0, |_, _| 0);
    assert_eq!((up, down), (111, 222));
    tracker.clear();
    assert!(tracker.list_sessions_at(0, 5).is_empty());
}

#[test]
fn rates_are_measured_every_half_second() {
    let rate = |bytes: u64, nanos: u128| (bytes as f64 / (nanos as f64 / 1e9).max(0.001)) as u64;
    let mut tracker = SessionTracker::new(2);
    tracker.record_traffic(99, 1000, 500);
    assert_eq!(tracker.speed_and_totals_at(499_999_999, rate), (0, 0, 1000, 500));
    assert_eq!(tracker.speed_and_totals_at(500_000_000, rate), (2000, 1000, 1000, 500));
    tracker.record_traffic(99, 1, 1);
    assert_eq!(tracker.speed_and_totals_at(900_000_000, rate), (2000, 1000, 1001, 501));
    assert_eq!(tracker.speed_and_totals_at(1_500_000_000, rate), (1, 1, 1001, 501));
    let (_, _, up, down) = tracker.speed_and_totals(rate);
    assert_eq!((up, down), (1001, 501));
}

#[test]
fn the_list_is_cut_at_the_limit() {
    let mut tracker = SessionTracker::default();
    for i in 0..5 {
        tracker.start_session(NOON, &format!("t{}", i), "r", RouteAction::Proxy, i % 2 == 0);
    }
    assert_eq!(tracker.list_sessions(100).len(), 5);
    assert_eq!(tracker.list_sessions(2).len(), 2);
    let three = tracker.list_sessions(3);
    assert_eq!(three[2].target, "t4");
    assert!(three[..2].iter().all(|s| s.status == SessionStatus::Active));
    assert!(tracker.list_sessions(0).is_empty());
}

#[test]
fn a_history_of_none_keeps_one() {
    let mut tracker = SessionTracker::new(0);
    tracker.start_session(NOON, "a", "r", RouteAction::Block, true);
    tracker.start_session(NOON, "b", "r", RouteAction::Block, true);
    let list = tracker.list_sessions(10);
    assert_eq!(list.len(), 1);
    assert_eq!(list[0].target, "b");
    assert_eq!(list[0].id, 2);
}

#[test]
fn counts_that_are_full() {
    let mut tracker = SessionTracker::new(1);
    let id = tracker.start_session(NOON, "a", "r", RouteAction::Proxy, false);
    tracker.record_traffic(id, u64::MAX, 0);
    assert!(!tracker.can_carry(id, 1, 0));
    assert!(tracker.can_carry(id, 0, 1));
    assert!(tracker.can_carry(id + 1, 1, 1));
    tracker.record_traffic(id + 1, 3, 0);
    let (_, _, up, _) = tracker.speed_and_totals_at(0, |_, _| 0);
    assert_eq!(up, 2);
    assert_eq!(SessionStatus::Active.to_text(), "ACTIVE");
    assert_eq!(SessionStatus::Closed.to_text(), "CLOSED");
    assert_eq!(SessionStatus::Blocked.to_text(), "BLOCKED");
    assert_eq!(SessionStatus::Failed.to_text(), "FAILED");
}

#[test]
fn the_clock_goes_on() {
    let mut tracker = SessionTracker::new(1);
    let now = tracker.now(NOON);
    assert!(now.unix_secs > 1_600_000_000);
    assert_eq!(now.time, NOON);
    let id = tracker.start_session(NOON, "a", "r", RouteAction::Proxy, false);
    let start = std::time::Instant::now();
    while start.elapsed().as_millis() < 30 {}
    tracker.finish_session(id, SessionStatus::Closed, 0, 0);
    let list = tracker.list_sessions(1);
    assert!(list[0].duration_ms >= 30);
    assert!(list[0].start_time >= now.unix_secs);
    assert_eq!(list[0].time_str, "12:00:00");
    assert!(tracker.now(NOON).nanos > now.nanos);
}

#[test]
fn the_oldest_leaves_a_full_history() {
    let mut tracker = SessionTracker::new(2);
    let ids = |tracker: &SessionTracker| tracker.list_sessions(usize::MAX).iter().map(|s| s.id).collect::<Vec<u64>>();
    let open = tracker.start_session(NOON, "a", "r", RouteAction::Proxy, false);
    tracker.start_session(NOON, "b", "r", RouteAction::Block, true);
    tracker.start_session(NOON, "c", "r", RouteAction::Block, true);
    let other = tracker.start_session(NOON, "d", "r", RouteAction::Proxy, false);
    tracker.finish_session(other, SessionStatus::Closed, 0, 0);
    assert_eq!(ids(&tracker), [1, 4, 3]);
    tracker.finish_session(open, SessionStatus::Failed, 0, 0);
    assert_eq!(ids(&tracker), [1, 4]);
    tracker.clear();
    assert!(ids(&tracker).is_empty());
    tracker.start_session(NOON, "e", "r", RouteAction::Block, true);
    assert_eq!(ids(&tracker), [5]);
}

#[test]
fn times_of_day() {
    assert_eq!(TimeOfDay::at(0).to_text(), "00:00:00");
    assert_eq!(TimeOfDay::at(86_400 + 3600 * 5 + 60 * 7 + 9).to_text(), "05:07:09");
    assert_eq!(TimeOfDay::at(86_399), TimeOfDay { hour: 23, minute: 59, second: 59 });
    assert_eq!(TimeOfDay { hour: 100, minute: 7, second: 60 }.to_text(), "100:07:60");
}

#[test]
fn totals_and_ids_count_everything() {
    let mut tracker = SessionTracker::new(1);
    let a = tracker.start_session(NOON, "a", "r", RouteAction::Proxy, false);
    tracker.start_session(NOON, "b", "r", RouteAction::Block, true);
    tracker.record_traffic(a, 3, 4);
    tracker.finish_session(a, SessionStatus::Closed, 10, 20);
    tracker.finish_session(a, SessionStatus::Closed, 100, 200);
    tracker.clear();
    let (_, _, up, down) = tracker.speed_and_totals_at(0, |_, _| 0);
    assert_eq!((up, down), (113, 224));
    assert_eq!(tracker.start_session(NOON, "c", "r", RouteAction::Proxy, false), 3);
}
