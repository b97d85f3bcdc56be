//! What a filter does, in mathematical terms. Times are in nanoseconds since the start.
use vstd::prelude::*;

use crate::address::{IpAddr, SocketAddr};
use crate::duration::{Duration, NANOS_PER_MILLI};
use crate::filter::{FilterAction, Refusal};
use crate::history::{after_put, keys_unique, Entry};
use crate::metrics::{gauge_value, gauges_after_inc, initial_gauges, MetricNames};
use crate::state::State;

verus! {

/// What a filter was set up with.
pub struct FilterConfig {
    /// Requests without a valid cookie that pass between two resets.
    pub unverified_limit: nat,
    /// Requests with a valid cookie that pass between two resets.
    pub verified_limit: nat,
    /// The time between two resets.
    pub reset_interval: nat,
    /// How long an address has to wait after a request with a valid cookie.
    pub ip_window: nat,
    /// How many addresses the history remembers.
    pub history_capacity: nat,
    /// The number of transport sessions at which nothing passes any more.
    pub transport_limit: nat,
    /// The number of pending sessions at which nothing passes any more.
    pub pending_limit: nat,
    /// What the gauges are called.
    pub names: MetricNames,
}

/// A handshake request, and how many sessions there are when it comes.
pub struct Request {
    pub transport_sessions: nat,
    pub pending_sessions: nat,
    pub ip: IpAddr,
    pub now: nat,
    pub cookie_valid: bool,
}

impl Request {
    /// The request that `Filter::apply` is called with.
    pub open spec fn of(
        state: State,
        remote_addr: SocketAddr,
        duration_since_start: Duration,
        cookie_valid: bool,
    ) -> Request {
        Request {
            transport_sessions: state.transport_sessions as nat,
            pending_sessions: state.pending_sessions as nat,
            ip: remote_addr.ip,
            now: duration_since_start@,
            cookie_valid,
        }
    }
}

/// The state of a filter.
pub struct FilterView {
    pub config: FilterConfig,
    /// Requests without a valid cookie that passed since the last reset.
    pub unverified: nat,
    /// Requests with a valid cookie that passed since the last reset.
    pub verified: nat,
    pub last_reset: nat,
    /// When each remembered address last passed with a valid cookie, the latest to
    /// pass first.
    pub history: Seq<Entry>,
    pub metrics: Map<Seq<char>, u64>,
}

impl FilterView {
    /// A filter before its first request.
    pub open spec fn initial(config: FilterConfig) -> FilterView {
        FilterView {
            config,
            unverified: 0,
            verified: 0,
            last_reset: 0,
            history: Seq::empty(),
            metrics: initial_gauges(config.names),
        }
    }

    /// What holds of a filter at all times.
    pub open spec fn inv(self) -> bool {
        &&& self.unverified <= self.config.unverified_limit
        &&& self.verified <= self.config.verified_limit
        &&& 0 < self.config.history_capacity <= u64::MAX
        &&& self.history.len() <= self.config.history_capacity
        &&& keys_unique(self.history)
        &&& self.config.names.distinct() ==> gauge_value(
            self.metrics,
            self.config.names.filter_ip_request_history_size@,
        ) == self.history.len()
    }

    /// Whether there is no room for one more session.
    pub open spec fn sessions_full(self, request: Request) -> bool {
        ||| request.transport_sessions >= self.config.transport_limit
        ||| request.pending_sessions >= self.config.pending_limit
    }

    /// Whether `ip` is remembered to have passed within the window before `now`.
    pub open spec fn recently_passed(self, ip: IpAddr, now: nat) -> bool {
        exists|i: int|
            0 <= i < self.history.len() && (#[trigger] self.history[i]).0 == ip.spec_key()
                && self.history[i].1 + self.config.ip_window >= now
    }

    /// What becomes of a request.
    pub open spec fn decide(self, request: Request) -> FilterAction {
        if self.sessions_full(request) {
            FilterAction::Drop
        } else if request.cookie_valid {
            if self.verified >= self.config.verified_limit || self.recently_passed(
                request.ip,
                request.now,
            ) {
                FilterAction::Drop
            } else {
                FilterAction::Pass
            }
        } else if self.unverified >= self.config.unverified_limit {
            FilterAction::SendCookie
        } else {
            FilterAction::Pass
        }
    }

    /// Why a request does not pass, if it does not: the first limit that it meets.
    pub open spec fn refusal(self, request: Request) -> Option<Refusal> {
        if request.transport_sessions >= self.config.transport_limit {
            Some(Refusal::TransportSessions)
        } else if request.pending_sessions >= self.config.pending_limit {
            Some(Refusal::PendingSessions)
        } else if !request.cookie_valid {
            if self.unverified >= self.config.unverified_limit {
                Some(Refusal::UnverifiedRate)
            } else {
                None
            }
        } else if self.verified >= self.config.verified_limit {
            Some(Refusal::VerifiedRate)
        } else if self.recently_passed(request.ip, request.now) {
            Some(Refusal::IpRate)
        } else {
            None
        }
    }

    /// The name of the gauge that counts `action`.
    pub open spec fn gauge_of(self, action: FilterAction) -> Seq<char> {
        match action {
            FilterAction::Pass => self.config.names.filter_pass@,
            FilterAction::SendCookie => self.config.names.filter_send_cookie@,
            FilterAction::Drop => self.config.names.filter_drop@,
        }
    }

    /// The filter with `action` counted.
    pub open spec fn counted(self, action: FilterAction) -> FilterView {
        FilterView { metrics: gauges_after_inc(self.metrics, self.gauge_of(action)), ..self }
    }

    /// The filter with the address noted as having passed at `now`.
    pub open spec fn remembering(self, ip: IpAddr, now: nat) -> FilterView {
        let history = after_put(self.history, self.config.history_capacity, ip.spec_key(), now);
        FilterView {
            history,
            metrics: self.metrics.insert(
                self.config.names.filter_ip_request_history_size@,
                history.len() as u64,
            ),
            ..self
        }
    }

    /// The filter after it was asked about `request`.
    pub open spec fn after(self, request: Request) -> FilterView {
        let action = self.decide(request);
        if action != FilterAction::Pass {
            self.counted(action)
        } else if request.cookie_valid {
            let next = self.remembering(request.ip, request.now);
            FilterView { verified: next.verified + 1, ..next }.counted(action)
        } else {
            FilterView { unverified: self.unverified + 1, ..self }.counted(action)
        }
    }

    /// When the next reset is due.
    pub open spec fn next_reset(self) -> nat {
        self.last_reset + self.config.reset_interval
    }

    /// Whether a tick at `now` resets the counters. Without an interval every tick does.
    pub open spec fn resets_at(self, now: nat) -> bool {
        now >= self.next_reset() || self.config.reset_interval == 0
    }

    /// The filter after a tick at `now`.
    pub open spec fn after_tick(self, now: nat) -> FilterView {
        if self.resets_at(now) {
            FilterView { unverified: 0, verified: 0, last_reset: now, ..self }
        } else {
            self
        }
    }

    /// By how many whole milliseconds a reset at `now` comes after it was due.
    pub open spec fn reset_delay_ms(self, now: nat) -> nat {
        if now >= self.next_reset() {
            (now - self.next_reset()) as nat / NANOS_PER_MILLI as nat
        } else {
            0
        }
    }
}

/// Something that happens to a filter.
pub enum Event {
    Tick(nat),
    Apply(Request),
}

impl FilterView {
    /// The filter after one event.
    pub open spec fn step(self, event: Event) -> FilterView {
        match event {
            Event::Tick(now) => self.after_tick(now),
            Event::Apply(request) => self.after(request),
        }
    }

    /// The filter after `events`, the first of them first.
    pub open spec fn run(self, events: Seq<Event>) -> FilterView
        decreases events.len(),
    {
        if events.len() == 0 {
            self
        } else {
            self.run(events.drop_last()).step(events.last())
        }
    }

    /// Whether `event` is a request that passes, with or without a valid cookie as
    /// `cookie_valid` says.
    pub open spec fn passes(self, event: Event, cookie_valid: bool) -> bool {
        match event {
            Event::Tick(_) => false,
            Event::Apply(request) => request.cookie_valid == cookie_valid && self.decide(request)
                == FilterAction::Pass,
        }
    }

    /// Which addresses pass with a valid cookie among `events`, and when, the first to
    /// pass first.
    pub open spec fn verified_passes(self, events: Seq<Event>) -> Seq<Entry>
        decreases events.len(),
    {
        if events.len() == 0 {
            Seq::empty()
        } else {
            let before = events.drop_last();
            match events.last() {
                Event::Apply(request) if self.run(before).passes(events.last(), true) => {
                    self.verified_passes(before).push((request.ip.spec_key(), request.now))
                },
                _ => self.verified_passes(before),
            }
        }
    }

    /// How many of the requests among `events` pass, of those with or without a valid
    /// cookie as `cookie_valid` says.
    pub open spec fn pass_count(self, events: Seq<Event>, cookie_valid: bool) -> nat
        decreases events.len(),
    {
        if events.len() == 0 {
            0
        } else {
            let before = events.drop_last();
            self.pass_count(before, cookie_valid) + if self.run(before).passes(
                events.last(),
                cookie_valid,
            ) {
                1nat
            } else {
                0nat
            }
        }
    }
}

} // verus!
