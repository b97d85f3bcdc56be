use wireauth_filter::address::{IpAddr, SocketAddr};
use wireauth_filter::duration::Duration;
use wireauth_filter::filter::{Filter, FilterAction, Refusal};
use wireauth_filter::history::max_history_capacity;
use wireauth_filter::metrics::{init_filter_executor_metrics, ExecutorMetrics, MetricNames};
use wireauth_filter::state::State;

const NAMES: MetricNames = MetricNames {
    filter_pass: "filter.pass",
    filter_send_cookie: "filter.send_cookie",
    filter_drop: "filter.drop",
    filter_ip_request_history_size: "filter.ip_request_history_size",
};

const SHARED_NAMES: MetricNames = MetricNames {
    filter_pass: "filter.refused_or_passed",
    filter_send_cookie: "filter.send_cookie",
    filter_drop: "filter.refused_or_passed",
    filter_ip_request_history_size: "filter.ip_request_history_size",
};

fn v4(last: u8) -> SocketAddr {
    SocketAddr::new(IpAddr::V4(u32::from_be_bytes([127, 0, 0, last])), 8080)
}

fn secs(s: u64) -> Duration {
    Duration::from_secs(s)
}

fn filter(unverified: u64, verified: u64, interval: u64, window: u64, capacity: usize) -> Filter {
    Filter::new(&NAMES, unverified, verified, secs(interval), secs(window), capacity, 100, 100)
}

fn gauges(filter: &Filter) -> [Option<u64>; 4] {
    let metrics = filter.metrics();
    [
        metrics.gauge("filter.pass"),
        metrics.gauge("filter.send_cookie"),
        metrics.gauge("filter.drop"),
        metrics.gauge("filter.ip_request_history_size"),
    ]
}

#[test]
fn gauges_start_at_zero() {
    let filter = filter(1, 1, 60, 60, 10);
    assert_eq!(gauges(&filter), [Some(0), Some(0), Some(0), Some(0)]);
    assert_eq!(filter.metrics().gauge("filter.other"), None);
    let metrics = init_filter_executor_metrics(&NAMES);
    assert_eq!(metrics.gauge("filter.drop"), Some(0));
}

#[test]
fn each_action_has_its_gauge() {
    let mut filter = filter(1, 2, 60, 60, 10);
    let state = State::new();
    assert_eq!(filter.apply(&state, v4(1), secs(0), false), FilterAction::Pass);
    assert_eq!(gauges(&filter), [Some(1), Some(0), Some(0), Some(0)]);
    assert_eq!(filter.apply(&state, v4(1), secs(0), false), FilterAction::SendCookie);
    assert_eq!(gauges(&filter), [Some(1), Some(1), Some(0), Some(0)]);
    assert_eq!(filter.apply(&state, v4(1), secs(0), true), FilterAction::Pass);
    assert_eq!(gauges(&filter), [Some(2), Some(1), Some(0), Some(1)]);
    assert_eq!(filter.apply(&state, v4(1), secs(0), true), FilterAction::Drop);
    assert_eq!(gauges(&filter), [Some(2), Some(1), Some(1), Some(1)]);
    assert_eq!(filter.apply(&state, v4(2), secs(0), true), FilterAction::Pass);
    assert_eq!(gauges(&filter), [Some(3), Some(1), Some(1), Some(2)]);
}

#[test]
fn actions_with_one_name_share_a_gauge() {
    let mut filter = Filter::new(&SHARED_NAMES, 1, 0, secs(60), secs(60), 10, 100, 100);
    let state = State::new();
    assert_eq!(filter.apply(&state, v4(1), secs(0), false), FilterAction::Pass);
    assert_eq!(filter.apply(&state, v4(1), secs(0), true), FilterAction::Drop);
    assert_eq!(filter.metrics().gauge("filter.refused_or_passed"), Some(2));
}

#[test]
fn gauge_starts_over_after_its_largest_value() {
    let mut metrics = ExecutorMetrics::new();
    metrics.set("g", u64::MAX);
    metrics.set("h", 7);
    metrics.inc("g");
    metrics.inc("h");
    metrics.inc("new");
    assert_eq!(metrics.gauge("g"), Some(0));
    assert_eq!(metrics.gauge("h"), Some(8));
    assert_eq!(metrics.gauge("new"), Some(1));
}

#[test]
fn history_gauge_stops_at_capacity() {
    let mut filter = filter(100, 100, 60, 60, 2);
    let state = State::new();
    for last in 1..5 {
        assert_eq!(filter.apply(&state, v4(last), secs(0), true), FilterAction::Pass);
    }
    assert_eq!(gauges(&filter), [Some(4), Some(0), Some(0), Some(2)]);
}

#[test]
fn window_includes_its_last_moment() {
    let mut filter = filter(100, 100, 1_000, 10, 10);
    let state = State::new();
    assert_eq!(filter.apply(&state, v4(1), secs(5), true), FilterAction::Pass);
    assert_eq!(filter.apply(&state, v4(1), secs(15), true), FilterAction::Drop);
    let just_after = Duration::from_parts(15, 1);
    assert_eq!(filter.apply(&state, v4(1), just_after, true), FilterAction::Pass);
    assert_eq!(filter.apply(&state, v4(1), secs(25), true), FilterAction::Drop);
    assert_eq!(filter.apply(&state, v4(1), secs(26), true), FilterAction::Pass);
}

#[test]
fn earlier_request_than_the_remembered_one_drops() {
    let mut filter = filter(100, 100, 1_000, 10, 10);
    let state = State::new();
    assert_eq!(filter.apply(&state, v4(1), secs(100), true), FilterAction::Pass);
    assert_eq!(filter.apply(&state, v4(1), secs(5), true), FilterAction::Drop);
}

#[test]
fn ports_of_one_address_share_the_window() {
    let mut filter = filter(100, 100, 60, 10, 10);
    let state = State::new();
    let other_port = SocketAddr::new(v4(1).ip(), 9090);
    assert_eq!(filter.apply(&state, v4(1), secs(0), true), FilterAction::Pass);
    assert_eq!(filter.apply(&state, other_port, secs(1), true), FilterAction::Drop);
}

#[test]
fn address_families_are_told_apart() {
    let mut filter = filter(100, 100, 60, 10, 10);
    let state = State::new();
    let bits = u32::from_be_bytes([127, 0, 0, 1]);
    let v6 = SocketAddr::new(IpAddr::V6(bits as u128), 8080);
    assert_eq!(filter.apply(&state, v4(1), secs(0), true), FilterAction::Pass);
    assert_eq!(filter.apply(&state, v6, secs(0), true), FilterAction::Pass);
    assert_eq!(filter.apply(&state, v6, secs(1), true), FilterAction::Drop);
    assert_ne!(v4(1).ip().key(), v6.ip().key());
}

#[test]
fn address_stays_remembered_until_the_history_is_full() {
    let mut filter = filter(100, 100, 60, 1_000, 3);
    let state = State::new();
    assert_eq!(filter.apply(&state, v4(1), secs(0), true), FilterAction::Pass);
    assert_eq!(filter.apply(&state, v4(2), secs(1), true), FilterAction::Pass);
    filter.tick(secs(60));
    assert_eq!(filter.apply(&state, v4(3), secs(61), true), FilterAction::Pass);
    assert_eq!(filter.apply(&state, v4(1), secs(62), true), FilterAction::Drop);
    assert_eq!(filter.apply(&state, v4(4), secs(63), true), FilterAction::Pass);
    assert_eq!(filter.apply(&state, v4(1), secs(64), true), FilterAction::Pass);
    assert_eq!(filter.apply(&state, v4(3), secs(65), true), FilterAction::Drop);
    assert_eq!(filter.apply(&state, v4(2), secs(65), true), FilterAction::Pass);
}

#[test]
fn passing_again_moves_an_address_to_the_front() {
    let mut filter = filter(100, 100, 1_000, 10, 2);
    let state = State::new();
    assert_eq!(filter.apply(&state, v4(1), secs(0), true), FilterAction::Pass);
    assert_eq!(filter.apply(&state, v4(2), secs(15), true), FilterAction::Pass);
    assert_eq!(filter.apply(&state, v4(1), secs(16), true), FilterAction::Pass);
    assert_eq!(gauges(&filter)[3], Some(2));
    assert_eq!(filter.apply(&state, v4(3), secs(17), true), FilterAction::Pass);
    assert_eq!(filter.apply(&state, v4(1), secs(18), true), FilterAction::Drop);
    assert_eq!(filter.apply(&state, v4(2), secs(18), true), FilterAction::Pass);
}

#[test]
fn full_sessions_drop_with_and_without_cookie() {
    let state = State { transport_sessions: 100, pending_sessions: 0 };
    let pending = State { transport_sessions: 0, pending_sessions: 100 };
    let mut filter = filter(0, 1, 60, 60, 10);
    for cookie_valid in [false, true] {
        assert_eq!(filter.apply(&state, v4(1), secs(0), cookie_valid), FilterAction::Drop);
        assert_eq!(filter.apply(&pending, v4(1), secs(0), cookie_valid), FilterAction::Drop);
    }
    let room = State { transport_sessions: 99, pending_sessions: 99 };
    assert_eq!(filter.apply(&room, v4(1), secs(0), false), FilterAction::SendCookie);
    assert_eq!(filter.apply(&room, v4(1), secs(0), true), FilterAction::Pass);
    assert_eq!(filter.cookie_unverified_counter(), 0);
    assert_eq!(filter.cookie_verified_counter(), 1);
}

#[test]
fn next_reset_time_follows_the_last_reset() {
    let mut filter = filter(1, 1, 10, 60, 10);
    assert_eq!(filter.next_reset_time(), secs(10));
    assert_eq!(filter.tick(secs(9)), None);
    assert_eq!(filter.next_reset_time(), secs(10));
    assert_eq!(filter.tick(secs(10)), None);
    assert_eq!(filter.next_reset_time(), secs(20));
    assert_eq!(filter.tick(secs(10)), None);
    assert_eq!(filter.next_reset_time(), secs(20));
    assert_eq!(filter.checked_next_reset_time(), Some(secs(20)));
}

#[test]
fn reset_time_beyond_the_longest_span_is_none() {
    let mut filter = filter(1, 1, 1, 60, 10);
    filter.tick(secs(u64::MAX));
    assert_eq!(filter.checked_next_reset_time(), None);
}

#[test]
fn late_reset_is_reported() {
    let mut filter = filter(1, 1, 1, 60, 10);
    assert_eq!(filter.tick(Duration::from_parts(1, 100_999_999)), None);
    let late = filter.tick(Duration::from_parts(2, 201_999_999)).unwrap();
    assert_eq!(late.elapsed_ms, 101);
    assert_eq!(late.last_reset, Duration::from_parts(1, 100_999_999));
    assert_eq!(late.expected_reset_time, Duration::from_parts(2, 100_999_999));
    assert_eq!(filter.next_reset_time(), Duration::from_parts(3, 201_999_999));
}

#[test]
fn without_interval_every_tick_resets() {
    let mut filter = filter(1, 1, 0, 60, 10);
    let state = State::new();
    filter.tick(secs(5));
    assert_eq!(filter.apply(&state, v4(1), secs(5), false), FilterAction::Pass);
    assert_eq!(filter.tick(secs(4)), None);
    assert_eq!(filter.cookie_unverified_counter(), 0);
    assert_eq!(filter.next_reset_time(), secs(4));
}

#[test]
fn reset_restores_both_budgets_and_keeps_the_history() {
    let mut filter = filter(1, 1, 1, 60, 10);
    let state = State::new();
    assert_eq!(filter.apply(&state, v4(1), secs(0), false), FilterAction::Pass);
    assert_eq!(filter.apply(&state, v4(1), secs(0), true), FilterAction::Pass);
    filter.tick(secs(1));
    assert_eq!(filter.cookie_unverified_counter(), 0);
    assert_eq!(filter.cookie_verified_counter(), 0);
    assert_eq!(filter.apply(&state, v4(1), secs(1), true), FilterAction::Drop);
    assert_eq!(filter.apply(&state, v4(2), secs(1), true), FilterAction::Pass);
    assert_eq!(gauges(&filter), [Some(3), Some(0), Some(1), Some(2)]);
}

#[test]
fn budgets_are_spent_one_by_one() {
    let mut filter = filter(3, 2, 60, 60, 10);
    let state = State::new();
    let mut passed = [0, 0];
    for last in 1..11 {
        if filter.apply(&state, v4(last), secs(0), false) == FilterAction::Pass {
            passed[0] += 1;
        }
        if filter.apply(&state, v4(last), secs(0), true) == FilterAction::Pass {
            passed[1] += 1;
        }
    }
    assert_eq!(passed, [3, 2]);
    assert_eq!(filter.cookie_unverified_counter(), 3);
    assert_eq!(filter.cookie_verified_counter(), 2);
}

#[test]
fn spans_of_time_add_and_subtract() {
    assert_eq!(secs(3).as_nanos(), 3_000_000_000);
    assert_eq!(Duration::from_parts(1, 999_999_999).as_millis(), 1_999);
    assert_eq!(secs(3).checked_sub(secs(1)), Some(secs(2)));
    assert_eq!(secs(1).checked_sub(secs(3)), None);
    assert_eq!(secs(1).saturating_sub(secs(3)), Duration::zero());
    assert_eq!(secs(3).saturating_sub(secs(1)), secs(2));
    assert_eq!(secs(1).checked_add(secs(2)), Some(secs(3)));
    let longest = Duration::from_parts(u64::MAX, 999_999_999);
    assert_eq!(longest.checked_add(Duration::zero()), Some(longest));
    assert_eq!(longest.checked_add(Duration::from_parts(0, 1)), None);
    assert!(secs(2).at_least(secs(2)));
    assert!(!secs(2).at_least(secs(3)));
}

#[test]
fn each_refusal_has_its_reason() {
    let mut filter = Filter::new(&NAMES, 1, 2, secs(60), secs(60), 10, 5, 7);
    let room = State { transport_sessions: 4, pending_sessions: 6 };
    let full = State { transport_sessions: 5, pending_sessions: 7 };
    let pending = State { transport_sessions: 4, pending_sessions: 7 };
    let transport = Some(Refusal::TransportSessions);
    assert_eq!(filter.refusal(&full, v4(1), secs(0), true), transport);
    assert_eq!(filter.refusal(&pending, v4(1), secs(0), false), Some(Refusal::PendingSessions));
    assert_eq!(filter.refusal(&room, v4(1), secs(0), false), None);
    assert_eq!(filter.refusal(&room, v4(1), secs(0), true), None);
    assert_eq!(filter.apply(&room, v4(1), secs(0), false), FilterAction::Pass);
    assert_eq!(filter.refusal(&room, v4(1), secs(0), false), Some(Refusal::UnverifiedRate));
    assert_eq!(filter.apply(&room, v4(1), secs(0), true), FilterAction::Pass);
    assert_eq!(filter.refusal(&room, v4(1), secs(0), true), Some(Refusal::IpRate));
    assert_eq!(filter.apply(&room, v4(2), secs(0), true), FilterAction::Pass);
    assert_eq!(filter.refusal(&room, v4(1), secs(0), true), Some(Refusal::VerifiedRate));
    assert_eq!(gauges(&filter), [Some(3), Some(0), Some(0), Some(2)]);
}

#[test]
fn repeated_passes_of_one_address_push_no_other_out() {
    let mut filter = filter(100, 100, 1_000, 10, 2);
    let state = State::new();
    assert_eq!(filter.apply(&state, v4(1), secs(100), true), FilterAction::Pass);
    for round in 0..3 {
        let now = secs(20 * round);
        assert_eq!(filter.apply(&state, v4(2), now, true), FilterAction::Pass);
    }
    assert_eq!(filter.apply(&state, v4(1), secs(110), true), FilterAction::Drop);
    assert_eq!(filter.apply(&state, v4(1), secs(111), true), FilterAction::Pass);
}

#[test]
fn free_address_stays_free_until_it_passes_again() {
    let mut filter = filter(100, 100, 1_000, 10, 5);
    let state = State::new();
    assert_eq!(filter.apply(&state, v4(1), secs(0), true), FilterAction::Pass);
    assert_eq!(filter.refusal(&state, v4(1), secs(10), true), Some(Refusal::IpRate));
    assert_eq!(filter.refusal(&state, v4(1), secs(11), true), None);
    assert_eq!(filter.apply(&state, v4(2), secs(12), true), FilterAction::Pass);
    assert_eq!(filter.refusal(&state, v4(1), secs(500), true), None);
    assert_eq!(filter.apply(&state, v4(1), secs(500), true), FilterAction::Pass);
    assert_eq!(filter.refusal(&state, v4(1), secs(510), true), Some(Refusal::IpRate));
}

#[test]
fn names_are_compared_by_what_they_hold() {
    let mut metrics = ExecutorMetrics::new();
    metrics.set("filter.a", 1);
    metrics.set("filter.b", 2);
    metrics.set("filter", 3);
    metrics.set("filter.\u{e9}", 4);
    let built = format!("filter.{}", "a");
    assert_eq!(metrics.gauge(&built), Some(1));
    assert_eq!(metrics.gauge("filter.b"), Some(2));
    assert_eq!(metrics.gauge("filter"), Some(3));
    assert_eq!(metrics.gauge("filter.\u{e9}"), Some(4));
    assert_eq!(metrics.gauge("filter.\u{e8}"), None);
    assert_eq!(metrics.gauge(""), None);
}

#[test]
fn largest_history_capacity_follows_the_word_size() {
    if usize::BITS == 32 {
        assert_eq!(max_history_capacity() as u64, 7 << 23);
    } else {
        assert_eq!(max_history_capacity() as u64, 7 << 54);
    }
}
