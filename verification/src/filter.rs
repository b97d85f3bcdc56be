use lru::LruCache;
use vstd::prelude::*;

use crate::address::{AddressKey, IpAddr, SocketAddr};
use crate::duration::{Duration, MAX_NANOS};
use crate::history::{
    history_capacity, history_entries, history_len, history_new, history_peek, history_put,
    max_history_capacity_spec,
};
use crate::laws::law_request_keeps_invariant;
use crate::metrics::{init_filter_executor_metrics, ExecutorMetrics, MetricNames};
use crate::model::{FilterConfig, FilterView, Request};
use crate::state::State;

verus! {

/// What becomes of a handshake request.
#[derive(Debug, Clone, Copy, PartialEq, Eq, Structural)]
pub enum FilterAction {
    /// The handshake goes on.
    Pass,
    /// The sender is asked to come back with a cookie.
    SendCookie,
    /// The request is discarded.
    Drop,
}

/// The limit for which a request does not pass.
#[derive(Debug, Clone, Copy, PartialEq, Eq, Structural)]
pub enum Refusal {
    /// There are too many established transport sessions.
    TransportSessions,
    /// There are too many pending sessions.
    PendingSessions,
    /// The budget of requests without a valid cookie is used up.
    UnverifiedRate,
    /// The budget of requests with a valid cookie is used up.
    VerifiedRate,
    /// The address passed a short time ago.
    IpRate,
}

/// A reset that came so late that it is worth a warning.
#[derive(Debug, Clone, Copy, PartialEq, Eq)]
pub struct LateReset {
    /// The whole milliseconds by which it came late.
    pub elapsed_ms: u128,
    /// The reset before.
    pub last_reset: Duration,
    /// When it was due.
    pub expected_reset_time: Duration,
}

/// A reset that comes later than this many milliseconds is reported.
pub const LATE_RESET_MS: u128 = 100;

/// Admission filter for handshake requests.
///
/// Requests with a valid cookie and requests without one have a budget each, which
/// [`Filter::tick`] restores. A request with a valid cookie also has to keep a
/// distance in time from the last one that passed from the same address. Rate
/// limiting goes by whole addresses, which for IPv6 is finer than it should be.
pub struct Filter {
    cookie_unverified_counter: u64,
    cookie_verified_counter: u64,
    last_reset: Duration,
    handshake_cookie_unverified_rate_limit: u64,
    handshake_cookie_verified_rate_limit: u64,
    handshake_rate_reset_interval: Duration,
    ip_request_history: LruCache<AddressKey, u128>,
    ip_rate_limit_window: Duration,
    total_transport_sessions: usize,
    total_pending_sessions: usize,
    metrics: ExecutorMetrics,
    metric_names: &'static MetricNames,
}

impl View for Filter {
    type V = FilterView;

    closed spec fn view(&self) -> FilterView {
        FilterView {
            config: FilterConfig {
                unverified_limit: self.handshake_cookie_unverified_rate_limit as nat,
                verified_limit: self.handshake_cookie_verified_rate_limit as nat,
                reset_interval: self.handshake_rate_reset_interval@,
                ip_window: self.ip_rate_limit_window@,
                history_capacity: history_capacity(self.ip_request_history),
                transport_limit: self.total_transport_sessions as nat,
                pending_limit: self.total_pending_sessions as nat,
                names: *self.metric_names,
            },
            unverified: self.cookie_unverified_counter as nat,
            verified: self.cookie_verified_counter as nat,
            last_reset: self.last_reset@,
            history: history_entries(self.ip_request_history),
            metrics: self.metrics@,
        }
    }
}

impl Filter {
    /// What holds of a filter between two calls.
    pub open spec fn wf(self) -> bool {
        self@.inv()
    }

    /// A filter that has seen no request yet.
    ///
    /// The history has to have room for one address at least, and for no more than
    /// [`crate::history::max_history_capacity`].
    pub fn new(
        metric_names: &'static MetricNames,
        handshake_cookie_unverified_rate_limit: u64,
        handshake_cookie_verified_rate_limit: u64,
        handshake_rate_reset_interval: Duration,
        ip_rate_limit_window: Duration,
        ip_history_capacity: usize,
        total_transport_sessions: usize,
        total_pending_sessions: usize,
    ) -> (filter: Filter)
        requires
            0 < ip_history_capacity <= max_history_capacity_spec(),
        ensures
            filter.wf(),
            filter@ == FilterView::initial(
                FilterConfig {
                    unverified_limit: handshake_cookie_unverified_rate_limit as nat,
                    verified_limit: handshake_cookie_verified_rate_limit as nat,
                    reset_interval: handshake_rate_reset_interval@,
                    ip_window: ip_rate_limit_window@,
                    history_capacity: ip_history_capacity as nat,
                    transport_limit: total_transport_sessions as nat,
                    pending_limit: total_pending_sessions as nat,
                    names: *metric_names,
                },
            ),
            filter@.next_reset() <= MAX_NANOS,
            filter@.config.unverified_limit == handshake_cookie_unverified_rate_limit,
            filter@.config.verified_limit == handshake_cookie_verified_rate_limit,
            filter@.config.reset_interval == handshake_rate_reset_interval@,
            filter@.config.ip_window == ip_rate_limit_window@,
            filter@.config.history_capacity == ip_history_capacity,
            filter@.config.transport_limit == total_transport_sessions,
            filter@.config.pending_limit == total_pending_sessions,
            filter@.config.names == *metric_names,
            filter@.unverified == 0,
            filter@.verified == 0,
            filter@.last_reset == 0,
            filter@.history.len() == 0,
    {
        proof {
            use_type_invariant(&handshake_rate_reset_interval);
        }
        Filter {
            cookie_unverified_counter: 0,
            cookie_verified_counter: 0,
            last_reset: Duration::zero(),
            handshake_cookie_unverified_rate_limit,
            handshake_cookie_verified_rate_limit,
            handshake_rate_reset_interval,
            ip_request_history: history_new(ip_history_capacity),
            ip_rate_limit_window,
            total_transport_sessions,
            total_pending_sessions,
            metrics: init_filter_executor_metrics(metric_names),
            metric_names,
        }
    }

    /// The gauges of the filter.
    pub fn metrics(&self) -> (metrics: &ExecutorMetrics)
        ensures
            metrics@ == self@.metrics,
    {
        &self.metrics
    }

    /// How many requests without a valid cookie passed since the last reset.
    pub fn cookie_unverified_counter(&self) -> (count: u64)
        ensures
            count == self@.unverified,
    {
        self.cookie_unverified_counter
    }

    /// How many requests with a valid cookie passed since the last reset.
    pub fn cookie_verified_counter(&self) -> (count: u64)
        ensures
            count == self@.verified,
    {
        self.cookie_verified_counter
    }

    /// Restores both budgets once the reset interval is over. A reset that comes more
    /// than [`LATE_RESET_MS`] milliseconds after it was due is reported.
    pub fn tick(&mut self, duration_since_start: Duration) -> (late: Option<LateReset>)
        requires
            old(self).wf(),
            old(self)@.next_reset() <= MAX_NANOS,
        ensures
            final(self).wf(),
            final(self)@ == old(self)@.after_tick(duration_since_start@),
            late is Some <==> old(self)@.resets_at(duration_since_start@)
                && old(self)@.reset_delay_ms(duration_since_start@) > LATE_RESET_MS,
            late matches Some(report) ==> {
                &&& report.elapsed_ms == old(self)@.reset_delay_ms(duration_since_start@)
                &&& report.last_reset@ == old(self)@.last_reset
                &&& report.expected_reset_time@ == old(self)@.next_reset()
            },
            // The same, in nanoseconds.
            duration_since_start@ >= old(self)@.last_reset + old(self)@.config.reset_interval ==> {
                &&& final(self)@.unverified == 0
                &&& final(self)@.verified == 0
                &&& final(self)@.last_reset == duration_since_start@
            },
            late is Some <==> duration_since_start@ >= old(self)@.last_reset
                + old(self)@.config.reset_interval + 101_000_000,
            late matches Some(report) ==> {
                &&& report.elapsed_ms * 1_000_000 <= duration_since_start@ - (
                old(self)@.last_reset + old(self)@.config.reset_interval) < (report.elapsed_ms
                    + 1) * 1_000_000
                &&& report.expected_reset_time@ == old(self)@.last_reset
                    + old(self)@.config.reset_interval
            },
    {
        let expected_reset_time = self.next_reset_time();
        if !duration_since_start.saturating_sub(self.last_reset).at_least(
            self.handshake_rate_reset_interval,
        ) {
            return None;
        }
        let late = match duration_since_start.checked_sub(expected_reset_time) {
            Some(elapsed) => {
                let elapsed_ms: u128 = elapsed.as_millis();
                if elapsed_ms > LATE_RESET_MS {
                    Some(LateReset { elapsed_ms, last_reset: self.last_reset, expected_reset_time })
                } else {
                    None
                }
            },
            None => None,
        };
        self.cookie_unverified_counter = 0;
        self.cookie_verified_counter = 0;
        self.last_reset = duration_since_start;
        late
    }

    /// When the next reset is due, if that time can be represented.
    pub fn checked_next_reset_time(&self) -> (due: Option<Duration>)
        ensures
            due is Some <==> self@.next_reset() <= MAX_NANOS,
            due matches Some(time) ==> time@ == self@.next_reset(),
            due is Some <==> self@.last_reset + self@.config.reset_interval <= MAX_NANOS,
            due matches Some(time) ==> time@ == self@.last_reset + self@.config.reset_interval,
    {
        self.last_reset.checked_add(self.handshake_rate_reset_interval)
    }

    /// When the next reset is due.
    pub fn next_reset_time(&self) -> (due: Duration)
        requires
            self@.next_reset() <= MAX_NANOS,
        ensures
            due@ == self@.next_reset(),
            due@ == self@.last_reset + self@.config.reset_interval,
    {
        self.checked_next_reset_time().unwrap()
    }

    /// Decides what becomes of a handshake request that comes at
    /// `duration_since_start` from `remote_addr`.
    pub fn apply(
        &mut self,
        state: &State,
        remote_addr: SocketAddr,
        duration_since_start: Duration,
        cookie_valid: bool,
    ) -> (action: FilterAction)
        requires
            old(self).wf(),
        ensures
            final(self).wf(),
            action == old(self)@.decide(
                Request::of(*state, remote_addr, duration_since_start, cookie_valid),
            ),
            final(self)@ == old(self)@.after(
                Request::of(*state, remote_addr, duration_since_start, cookie_valid),
            ),
            // The same, on the arguments themselves.
            state.transport_sessions >= old(self)@.config.transport_limit
                || state.pending_sessions >= old(self)@.config.pending_limit ==> action
                == FilterAction::Drop,
            state.transport_sessions < old(self)@.config.transport_limit && state.pending_sessions
                < old(self)@.config.pending_limit && !cookie_valid ==> action == if old(
                self,
            )@.unverified < old(self)@.config.unverified_limit {
                FilterAction::Pass
            } else {
                FilterAction::SendCookie
            },
            state.transport_sessions < old(self)@.config.transport_limit && state.pending_sessions
                < old(self)@.config.pending_limit && cookie_valid ==> action == if old(
                self,
            )@.verified < old(self)@.config.verified_limit && (forall|k: int|
                0 <= k < old(self)@.history.len() && (#[trigger] old(self)@.history[k]).0
                    == remote_addr.ip.spec_key() ==> duration_since_start@ > old(
                    self,
                )@.history[k].1 + old(self)@.config.ip_window) {
                FilterAction::Pass
            } else {
                FilterAction::Drop
            },
            cookie_valid && action == FilterAction::Pass ==> final(self)@.history.len() > 0
                && final(self)@.history[0] == (remote_addr.ip.spec_key(), duration_since_start@),
            !cookie_valid || action != FilterAction::Pass ==> final(self)@.history == old(
                self,
            )@.history,
    {
        let ghost request = Request::of(*state, remote_addr, duration_since_start, cookie_valid);
        let transport_sessions: usize = state.transport_sessions_count();
        let pending_sessions: usize = state.pending_sessions_count();

        let mut refusal = self.check_total_transport_sessions(transport_sessions);
        if refusal.is_none() {
            refusal = self.check_pending_session_limit(pending_sessions);
        }
        let action = match refusal {
            Some(action) => action,
            None => {
                if cookie_valid {
                    self.check_verified_request(remote_addr.ip(), duration_since_start)
                } else {
                    self.check_unverified_request()
                }
            },
        };

        if action == FilterAction::Pass {
            if cookie_valid {
                self.cookie_verified_counter = self.cookie_verified_counter + 1;
            } else {
                self.cookie_unverified_counter = self.cookie_unverified_counter + 1;
            }
        }
        self.record_metric(action);
        proof {
            law_request_keeps_invariant(old(self)@, request);
        }
        action
    }

    /// Why a request would not pass, if it would not. Nothing is counted.
    pub fn refusal(
        &self,
        state: &State,
        remote_addr: SocketAddr,
        duration_since_start: Duration,
        cookie_valid: bool,
    ) -> (refusal: Option<Refusal>)
        requires
            self.wf(),
        ensures
            refusal == self@.refusal(
                Request::of(*state, remote_addr, duration_since_start, cookie_valid),
            ),
    {
        if self.check_total_transport_sessions(state.transport_sessions_count()).is_some() {
            Some(Refusal::TransportSessions)
        } else if self.check_pending_session_limit(state.pending_sessions_count()).is_some() {
            Some(Refusal::PendingSessions)
        } else if !cookie_valid {
            if self.check_unverified_request() == FilterAction::Pass {
                None
            } else {
                Some(Refusal::UnverifiedRate)
            }
        } else if self.cookie_verified_counter >= self.handshake_cookie_verified_rate_limit {
            Some(Refusal::VerifiedRate)
        } else if self.check_ip_rate_limit(remote_addr.ip(), duration_since_start) {
            Some(Refusal::IpRate)
        } else {
            None
        }
    }

    /// Refuses every request while there are as many transport sessions as allowed.
    fn check_total_transport_sessions(&self, transport_sessions: usize) -> (refusal: Option<
        FilterAction,
    >)
        ensures
            refusal == if transport_sessions >= self@.config.transport_limit {
                Some(FilterAction::Drop)
            } else {
                None
            },
    {
        if transport_sessions >= self.total_transport_sessions {
            Some(FilterAction::Drop)
        } else {
            None
        }
    }

    /// Refuses every request while there are as many pending sessions as allowed.
    fn check_pending_session_limit(&self, pending_sessions: usize) -> (refusal: Option<
        FilterAction,
    >)
        ensures
            refusal == if pending_sessions >= self@.config.pending_limit {
                Some(FilterAction::Drop)
            } else {
                None
            },
    {
        if pending_sessions >= self.total_pending_sessions {
            Some(FilterAction::Drop)
        } else {
            None
        }
    }

    /// Asks for a cookie once the budget of requests without one is used up.
    fn check_unverified_request(&self) -> (action: FilterAction)
        ensures
            action == if self@.unverified >= self@.config.unverified_limit {
                FilterAction::SendCookie
            } else {
                FilterAction::Pass
            },
    {
        if self.cookie_unverified_counter >= self.handshake_cookie_unverified_rate_limit {
            FilterAction::SendCookie
        } else {
            FilterAction::Pass
        }
    }

    /// Discards a request with a valid cookie if the budget of such requests is used
    /// up, or if its address passed a short time ago. Else the address is remembered.
    fn check_verified_request(&mut self, ip: IpAddr, duration_since_start: Duration) -> (action:
        FilterAction)
        requires
            old(self).wf(),
        ensures
            action == if old(self)@.verified >= old(self)@.config.verified_limit || old(
                self,
            )@.recently_passed(ip, duration_since_start@) {
                FilterAction::Drop
            } else {
                FilterAction::Pass
            },
            final(self)@ == if action == FilterAction::Pass {
                old(self)@.remembering(ip, duration_since_start@)
            } else {
                old(self)@
            },
    {
        if self.cookie_verified_counter >= self.handshake_cookie_verified_rate_limit {
            return FilterAction::Drop;
        }
        if self.check_ip_rate_limit(ip, duration_since_start) {
            return FilterAction::Drop;
        }
        history_put(&mut self.ip_request_history, ip.key(), duration_since_start.as_nanos());
        let history_size: usize = history_len(&self.ip_request_history);
        self.metrics.set(self.metric_names.filter_ip_request_history_size, history_size as u64);
        FilterAction::Pass
    }

    /// Whether the address passed within the window that ends now.
    fn check_ip_rate_limit(&self, ip: IpAddr, duration_since_start: Duration) -> (limited: bool)
        requires
            self.wf(),
        ensures
            limited == self@.recently_passed(ip, duration_since_start@),
    {
        let window_start = duration_since_start.saturating_sub(self.ip_rate_limit_window);
        match history_peek(&self.ip_request_history, ip.key()) {
            Some(last_time) => last_time >= window_start.as_nanos(),
            None => false,
        }
    }

    /// Counts the action in its gauge.
    fn record_metric(&mut self, action: FilterAction)
        ensures
            final(self)@ == old(self)@.counted(action),
    {
        let metric: &'static str = match action {
            FilterAction::Pass => self.metric_names.filter_pass,
            FilterAction::SendCookie => self.metric_names.filter_send_cookie,
            FilterAction::Drop => self.metric_names.filter_drop,
        };
        self.metrics.inc(metric);
    }
}

} // verus!
