use wireauth_filter::address::{IpAddr, SocketAddr};
use wireauth_filter::duration::Duration;
use wireauth_filter::filter::{Filter, FilterAction};
use wireauth_filter::metrics::MetricNames;
use wireauth_filter::state::State;

const NAMES: MetricNames = MetricNames {
    filter_pass: "filter.pass",
    filter_send_cookie: "filter.send_cookie",
    filter_drop: "filter.drop",
    filter_ip_request_history_size: "filter.ip_request_history_size",
};

fn socket(a: u8, b: u8, c: u8, d: u8, port: u16) -> SocketAddr {
    SocketAddr::new(IpAddr::V4(u32::from_be_bytes([a, b, c, d])), port)
}

fn insert_transport_session(state: &mut State, _addr: SocketAddr) {
    state.transport_sessions += 1;
}

fn insert_pending_session(state: &mut State, _addr: SocketAddr) {
    state.pending_sessions += 1;
}

fn default_filter() -> Filter {
    Filter::new(
        &NAMES,
        100,
        100,
        Duration::from_secs(60),
        Duration::from_secs(60),
        1_000,
        100,
        100,
    )
}

#[test]
fn test_basic_pass_no_limits() {
    let mut filter = default_filter();
    let state = State::new();
    let addr = socket(127, 0, 0, 1, 8080);
    let action = filter.apply(&state, addr, Duration::zero(), false);
    assert_eq!(action, FilterAction::Pass);
}

#[test]
fn test_total_transport_sessions_drops() {
    let total_transport_sessions = 10;
    let mut filter = Filter::new(
        &NAMES,
        100,
        100,
        Duration::from_secs(60),
        Duration::from_secs(60),
        1_000,
        total_transport_sessions,
        100,
    );
    let mut state = State::new();
    for i in 0..total_transport_sessions {
        let addr: SocketAddr = socket(10, 0, 0, i as u8, 51820);
        insert_transport_session(&mut state, addr);
    }
    let addr = socket(127, 0, 0, 1, 8080);
    let action = filter.apply(&state, addr, Duration::zero(), false);
    assert_eq!(action, FilterAction::Drop);
}

#[test]
fn test_pending_session_limit_drops() {
    let total_pending_sessions = 10;
    let mut filter = Filter::new(
        &NAMES,
        100,
        100,
        Duration::from_secs(60),
        Duration::from_secs(60),
        1_000,
        100,
        total_pending_sessions,
    );
    let mut state = State::new();
    for i in 0..total_pending_sessions {
        let addr: SocketAddr = socket(10, 0, 0, i as u8, 51820);
        insert_pending_session(&mut state, addr);
    }
    let addr = socket(127, 0, 0, 1, 8080);
    let action = filter.apply(&state, addr, Duration::zero(), false);
    assert_eq!(action, FilterAction::Drop);
}

#[test]
fn test_unverified_rate_limit_sends_cookie_after_limit() {
    let unverified_rate_limit = 5;
    let mut filter = Filter::new(
        &NAMES,
        unverified_rate_limit,
        100,
        Duration::from_secs(60),
        Duration::from_secs(60),
        1_000,
        100,
        100,
    );
    let state = State::new();
    let addr = socket(127, 0, 0, 1, 8080);
    for _ in 0..unverified_rate_limit {
        let action = filter.apply(&state, addr, Duration::zero(), false);
        assert_eq!(action, FilterAction::Pass);
    }
    let action = filter.apply(&state, addr, Duration::zero(), false);
    assert_eq!(action, FilterAction::SendCookie);
    assert_eq!(filter.cookie_unverified_counter(), unverified_rate_limit);
}

#[test]
fn test_handshake_rate_limit_drops() {
    let handshake_rate_limit = 5;
    let verified_rate_limit = 2;
    let mut filter = Filter::new(
        &NAMES,
        handshake_rate_limit,
        verified_rate_limit,
        Duration::from_secs(60),
        Duration::from_secs(60),
        1_000,
        100,
        100,
    );
    let state = State::new();
    let addr = socket(127, 0, 0, 1, 8080);
    for _ in 0..handshake_rate_limit {
        let action = filter.apply(&state, addr, Duration::zero(), false);
        assert_eq!(action, FilterAction::Pass);
    }

    let action = filter.apply(&state, addr, Duration::zero(), false);
    assert_eq!(action, FilterAction::SendCookie);

    for i in 0..verified_rate_limit {
        let verified_addr: SocketAddr = socket(127, 0, 0, (i + 2) as u8, 8080);
        let action = filter.apply(&state, verified_addr, Duration::from_secs(61), true);
        assert_eq!(action, FilterAction::Pass);
    }

    let action = filter.apply(&state, addr, Duration::zero(), false);
    assert_eq!(action, FilterAction::SendCookie);
}

#[test]
fn test_handshake_cookie_verified_rate_limit_drops() {
    let verified_rate_limit = 5;
    let mut filter = Filter::new(
        &NAMES,
        100,
        verified_rate_limit,
        Duration::from_secs(60),
        Duration::from_secs(60),
        1_000,
        100,
        100,
    );
    let state = State::new();
    for i in 0..verified_rate_limit {
        let addr: SocketAddr = socket(127, 0, 0, (i + 2) as u8, 8080);
        let action = filter.apply(&state, addr, Duration::from_secs(61), true);
        assert_eq!(action, FilterAction::Pass);
    }
    let action = filter.apply(
        &state,
        socket(127, 0, 0, 2, 8080),
        Duration::from_secs(61),
        true,
    );
    assert_eq!(action, FilterAction::Drop);
}

#[test]
fn test_unverified_rate_limit_does_not_depend_on_verified_budget() {
    let mut filter = Filter::new(
        &NAMES,
        2, // unverified
        0, // verified
        Duration::from_secs(60),
        Duration::from_secs(60),
        1_000,
        100,
        100,
    );
    let state = State::new();
    let addr = socket(127, 0, 0, 1, 8080);

    assert_eq!(
        filter.apply(&state, addr, Duration::zero(), false),
        FilterAction::Pass
    );
    assert_eq!(
        filter.apply(&state, addr, Duration::zero(), false),
        FilterAction::Pass
    );
    assert_eq!(
        filter.apply(&state, addr, Duration::zero(), false),
        FilterAction::SendCookie
    );
}

#[test]
fn test_tick_resets_counter() {
    let handshake_rate_limit = 5;
    let mut filter = Filter::new(
        &NAMES,
        handshake_rate_limit,
        handshake_rate_limit,
        Duration::from_secs(1),
        Duration::from_secs(60),
        1_000,
        100,
        100,
    );
    let state = State::new();
    let addr = socket(127, 0, 0, 1, 8080);
    for _ in 0..handshake_rate_limit {
        filter.apply(&state, addr, Duration::zero(), false);
    }
    filter.tick(Duration::from_secs(1));
    let action = filter.apply(&state, addr, Duration::zero(), false);
    assert_eq!(action, FilterAction::Pass);
}

#[test]
fn test_tick_does_not_reset_before_interval() {
    let handshake_rate_limit = 5;
    let mut filter = Filter::new(
        &NAMES,
        handshake_rate_limit,
        handshake_rate_limit,
        Duration::from_secs(10),
        Duration::from_secs(60),
        1_000,
        100,
        100,
    );
    let state = State::new();
    let addr = socket(127, 0, 0, 1, 8080);
    for _ in 0..handshake_rate_limit {
        filter.apply(&state, addr, Duration::zero(), false);
    }
    filter.tick(Duration::from_secs(5));
    let action = filter.apply(&state, addr, Duration::from_secs(5), false);
    assert_eq!(action, FilterAction::SendCookie);
}

#[test]
fn test_verified_rate_limit_remains_available_after_unverified_limit() {
    let handshake_rate_limit = 5;
    let mut filter = Filter::new(
        &NAMES,
        handshake_rate_limit,
        handshake_rate_limit,
        Duration::from_secs(60),
        Duration::from_secs(60),
        1_000,
        100,
        100,
    );
    let state = State::new();
    let addr = socket(127, 0, 0, 1, 8080);
    for _ in 0..handshake_rate_limit {
        filter.apply(&state, addr, Duration::zero(), false);
    }
    assert_eq!(
        filter.apply(&state, addr, Duration::zero(), false),
        FilterAction::SendCookie
    );
    for i in 0..handshake_rate_limit {
        let verified_addr: SocketAddr = socket(127, 0, 0, (i + 2) as u8, 8080);
        assert_eq!(
            filter.apply(&state, verified_addr, Duration::from_secs(61), true,),
            FilterAction::Pass
        );
    }
    assert_eq!(
        filter.apply(
            &state,
            socket(127, 0, 0, 3, 8080),
            Duration::from_secs(61),
            true,
        ),
        FilterAction::Drop
    );
}

#[test]
fn test_ip_rate_limit_only_applies_to_verified_requests() {
    let mut filter = Filter::new(
        &NAMES,
        100,
        100,
        Duration::from_secs(60),
        Duration::from_secs(5),
        1_000,
        100,
        100,
    );
    let state = State::new();
    let addr = socket(127, 0, 0, 1, 8080);

    assert_eq!(
        filter.apply(&state, addr, Duration::zero(), false),
        FilterAction::Pass
    );
    assert_eq!(
        filter.apply(&state, addr, Duration::from_secs(1), false),
        FilterAction::Pass
    );
    assert_eq!(
        filter.apply(&state, addr, Duration::from_secs(2), true),
        FilterAction::Pass
    );
    assert_eq!(
        filter.apply(&state, addr, Duration::from_secs(3), true),
        FilterAction::Drop
    );
}

#[test]
fn test_drop_does_not_increment_verified_counter() {
    let mut filter = Filter::new(
        &NAMES,
        100,
        2,
        Duration::from_secs(60),
        Duration::from_secs(10),
        1_000,
        100,
        100,
    );
    let state = State::new();

    assert_eq!(
        filter.apply(
            &state,
            socket(127, 0, 0, 1, 8080),
            Duration::zero(),
            true,
        ),
        FilterAction::Pass
    );
    assert_eq!(
        filter.apply(
            &state,
            socket(127, 0, 0, 1, 8080),
            Duration::from_secs(1),
            true,
        ),
        FilterAction::Drop
    );
    assert_eq!(filter.cookie_verified_counter(), 1);
    assert_eq!(
        filter.apply(
            &state,
            socket(127, 0, 0, 2, 8080),
            Duration::from_secs(2),
            true,
        ),
        FilterAction::Pass
    );
    assert_eq!(
        filter.apply(
            &state,
            socket(127, 0, 0, 3, 8080),
            Duration::from_secs(3),
            true,
        ),
        FilterAction::Drop
    );
    assert_eq!(filter.cookie_verified_counter(), 2);
}

#[test]
fn test_send_cookie_does_not_increment_unverified_counter() {
    let mut filter = Filter::new(
        &NAMES,
        1,
        100,
        Duration::from_secs(60),
        Duration::from_secs(10),
        1_000,
        100,
        100,
    );
    let state = State::new();
    let addr = socket(127, 0, 0, 1, 8080);

    assert_eq!(
        filter.apply(&state, addr, Duration::zero(), false),
        FilterAction::Pass
    );
    assert_eq!(filter.cookie_unverified_counter(), 1);
    assert_eq!(
        filter.apply(&state, addr, Duration::from_secs(1), false),
        FilterAction::SendCookie
    );
    assert_eq!(filter.cookie_unverified_counter(), 1);
    assert_eq!(
        filter.apply(&state, addr, Duration::from_secs(2), false),
        FilterAction::SendCookie
    );
    assert_eq!(filter.cookie_unverified_counter(), 1);
}

#[test]
fn test_ip_rate_limit_check_does_not_refresh_lru_recency() {
    let mut filter = Filter::new(
        &NAMES,
        100,
        100,
        Duration::from_secs(60),
        Duration::from_secs(30),
        2,
        100,
        100,
    );
    let state = State::new();

    let addr1: SocketAddr = socket(127, 0, 0, 1, 8080);
    let addr2: SocketAddr = socket(127, 0, 0, 2, 8080);
    let addr3: SocketAddr = socket(127, 0, 0, 3, 8080);

    assert_eq!(
        filter.apply(&state, addr1, Duration::zero(), true),
        FilterAction::Pass
    );
    assert_eq!(
        filter.apply(&state, addr2, Duration::from_secs(20), true),
        FilterAction::Pass
    );
    assert_eq!(
        filter.apply(&state, addr1, Duration::from_secs(25), true),
        FilterAction::Drop
    );
    assert_eq!(
        filter.apply(&state, addr3, Duration::from_secs(40), true),
        FilterAction::Pass
    );
    assert_eq!(
        filter.apply(&state, addr2, Duration::from_secs(41), true),
        FilterAction::Drop
    );
}
