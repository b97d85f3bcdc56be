//! What a filter owes its callers, in plain numbers: limits, times and counts.
use vstd::prelude::*;

use crate::address::{IpAddr, SocketAddr};
use crate::duration::Duration;
use crate::filter::{FilterAction, Refusal};
use crate::history::{
    has_key, keys_of, lemma_after_put, lemma_keys_of_finite, lemma_keys_of_push, lemma_others_all,
    lemma_others_around, max_history_capacity_spec, Entry,
};
use crate::laws::{
    law_address_waits_out_window, law_free_address_stays_free, law_keys_tell_addresses_apart,
    law_new_filter_has_invariant, law_request_keeps_invariant, law_run_keeps_invariant,
    lemma_no_pass_no_entry,
};
use crate::model::{Event, FilterConfig, FilterView, Request};
use crate::state::State;

verus! {

/// What the filter decides on is what it was called with: the session counts, the
/// whole address, the time and the cookie.
pub proof fn law_request_carries_its_arguments(
    state: State,
    remote_addr: SocketAddr,
    duration_since_start: Duration,
    cookie_valid: bool,
)
    ensures
        Request::of(state, remote_addr, duration_since_start, cookie_valid).transport_sessions
            == state.transport_sessions,
        Request::of(state, remote_addr, duration_since_start, cookie_valid).pending_sessions
            == state.pending_sessions,
        Request::of(state, remote_addr, duration_since_start, cookie_valid).ip == remote_addr.ip,
        Request::of(state, remote_addr, duration_since_start, cookie_valid).now
            == duration_since_start@,
        Request::of(state, remote_addr, duration_since_start, cookie_valid).cookie_valid
            == cookie_valid,
{
}

/// Requests of one address and time with the same cookie and session counts are the
/// same to the filter, whatever their port; those of two addresses never are.
pub proof fn law_only_whole_addresses_count(
    state: State,
    a: SocketAddr,
    b: SocketAddr,
    duration_since_start: Duration,
    cookie_valid: bool,
)
    ensures
        a.ip == b.ip <==> Request::of(state, a, duration_since_start, cookie_valid) == Request::of(
            state,
            b,
            duration_since_start,
            cookie_valid,
        ),
{
}

/// A new filter has the settings that it was asked for, full budgets, an empty history,
/// and its four gauges, and no others, at 0.
pub proof fn law_new_filter_is_as_asked_for(config: FilterConfig, name: Seq<char>)
    ensures
        FilterView::initial(config).config == config,
        FilterView::initial(config).unverified == 0,
        FilterView::initial(config).verified == 0,
        FilterView::initial(config).last_reset == 0,
        FilterView::initial(config).history.len() == 0,
        FilterView::initial(config).metrics.contains_key(name) <==> {
            ||| name == config.names.filter_pass@
            ||| name == config.names.filter_send_cookie@
            ||| name == config.names.filter_drop@
            ||| name == config.names.filter_ip_request_history_size@
        },
        FilterView::initial(config).metrics.contains_key(name) ==> FilterView::initial(
            config,
        ).metrics[name] == 0,
{
}

/// While there are as many transport sessions, or as many pending ones, as the filter
/// was set up for, every request is dropped, with or without a cookie, in every state.
pub proof fn law_full_sessions_drop_every_request(v: FilterView, request: Request)
    requires
        request.transport_sessions >= v.config.transport_limit || request.pending_sessions
            >= v.config.pending_limit,
    ensures
        v.decide(request) == FilterAction::Drop,
{
}

/// Below both session limits it makes no difference how many sessions there are, and
/// a request without a valid cookie is never dropped.
pub proof fn law_sessions_below_limits_refuse_nothing(v: FilterView, r: Request, s: Request)
    requires
        r.transport_sessions < v.config.transport_limit,
        r.pending_sessions < v.config.pending_limit,
        s.transport_sessions < v.config.transport_limit,
        s.pending_sessions < v.config.pending_limit,
        r.ip == s.ip,
        r.now == s.now,
        r.cookie_valid == s.cookie_valid,
    ensures
        v.decide(r) == v.decide(s),
        !r.cookie_valid ==> v.decide(r) != FilterAction::Drop,
        r.cookie_valid ==> v.decide(r) != FilterAction::SendCookie,
{
}

/// With room for sessions, a request without a valid cookie passes as long as fewer of
/// them passed since the reset than the limit says; after that it gets a cookie.
pub proof fn law_unverified_limit_decides(v: FilterView, request: Request)
    requires
        request.transport_sessions < v.config.transport_limit,
        request.pending_sessions < v.config.pending_limit,
        !request.cookie_valid,
    ensures
        v.unverified < v.config.unverified_limit ==> v.decide(request) == FilterAction::Pass,
        v.unverified >= v.config.unverified_limit ==> v.decide(request)
            == FilterAction::SendCookie,
{
}

/// With room for sessions, a request with a valid cookie is dropped once as many passed
/// since the reset as the limit says. Before that it is dropped if the history has its
/// address with a time from which no more than the window has gone by, and else passes.
pub proof fn law_verified_limit_and_window_decide(v: FilterView, request: Request, i: int)
    requires
        request.transport_sessions < v.config.transport_limit,
        request.pending_sessions < v.config.pending_limit,
        request.cookie_valid,
    ensures
        v.verified >= v.config.verified_limit ==> v.decide(request) == FilterAction::Drop,
        0 <= i < v.history.len() && v.history[i].0 == request.ip.spec_key() && request.now
            <= v.history[i].1 + v.config.ip_window ==> v.decide(request) == FilterAction::Drop,
        v.verified < v.config.verified_limit && (forall|k: int|
            0 <= k < v.history.len() && (#[trigger] v.history[k]).0 == request.ip.spec_key()
                ==> request.now > v.history[k].1 + v.config.ip_window) ==> v.decide(request)
            == FilterAction::Pass,
{
    if 0 <= i < v.history.len() && v.history[i].0 == request.ip.spec_key() && request.now
        <= v.history[i].1 + v.config.ip_window {
        assert(v.recently_passed(request.ip, request.now));
    }
}

/// The reason for a refusal is the first of these that holds: transport sessions at the
/// limit; pending sessions at the limit; without a valid cookie, the budget of such
/// requests used up; with one, the budget of those used up; its address within the
/// window.
pub proof fn law_refusal_names_the_limit(v: FilterView, request: Request)
    ensures
        v.refusal(request) == Some(Refusal::TransportSessions) <==> request.transport_sessions
            >= v.config.transport_limit,
        v.refusal(request) == Some(Refusal::PendingSessions) <==> request.transport_sessions
            < v.config.transport_limit && request.pending_sessions >= v.config.pending_limit,
        v.refusal(request) == Some(Refusal::UnverifiedRate) <==> request.transport_sessions
            < v.config.transport_limit && request.pending_sessions < v.config.pending_limit
            && !request.cookie_valid && v.unverified >= v.config.unverified_limit,
        v.refusal(request) == Some(Refusal::VerifiedRate) <==> request.transport_sessions
            < v.config.transport_limit && request.pending_sessions < v.config.pending_limit
            && request.cookie_valid && v.verified >= v.config.verified_limit,
        v.refusal(request) == Some(Refusal::IpRate) <==> request.transport_sessions
            < v.config.transport_limit && request.pending_sessions < v.config.pending_limit
            && request.cookie_valid && v.verified < v.config.verified_limit && (exists|k: int|
            0 <= k < v.history.len() && (#[trigger] v.history[k]).0 == request.ip.spec_key()
                && request.now <= v.history[k].1 + v.config.ip_window),
{
    if v.recently_passed(request.ip, request.now) {
        let k = choose|k: int|
            0 <= k < v.history.len() && (#[trigger] v.history[k]).0 == request.ip.spec_key()
                && v.history[k].1 + v.config.ip_window >= request.now;
        assert(request.now <= v.history[k].1 + v.config.ip_window);
    }
}

/// A request changes no setting and no reset time, and both counters together go up by
/// one if it passes and by none if it does not.
pub proof fn law_request_moves_one_counter_at_most(v: FilterView, request: Request)
    ensures
        v.after(request).config == v.config,
        v.after(request).last_reset == v.last_reset,
        v.decide(request) == FilterAction::Pass && request.cookie_valid ==> v.after(
            request,
        ).verified == v.verified + 1 && v.after(request).unverified == v.unverified,
        v.decide(request) == FilterAction::Pass && !request.cookie_valid ==> v.after(
            request,
        ).verified == v.verified && v.after(request).unverified == v.unverified + 1,
        v.decide(request) != FilterAction::Pass ==> v.after(request).verified == v.verified
            && v.after(request).unverified == v.unverified,
{
}

/// Only a request with a valid cookie that passes changes the history. A known address
/// moves to the front with its new time. A new one comes to the front; if that is one
/// more than there is room for, the last entry leaves. Nothing else moves.
pub proof fn law_history_moves_one_address(v: FilterView, request: Request, known: int)
    requires
        v.inv(),
    ensures
        v.decide(request) != FilterAction::Pass || !request.cookie_valid ==> v.after(
            request,
        ).history == v.history,
        v.decide(request) == FilterAction::Pass && request.cookie_valid && 0 <= known
            < v.history.len() && v.history[known].0 == request.ip.spec_key() ==> v.after(
            request,
        ).history == seq![(request.ip.spec_key(), request.now)] + v.history.remove(known),
        v.decide(request) == FilterAction::Pass && request.cookie_valid && (forall|k: int|
            0 <= k < v.history.len() ==> (#[trigger] v.history[k]).0 != request.ip.spec_key())
            && v.history.len() < v.config.history_capacity ==> v.after(request).history
            == seq![(request.ip.spec_key(), request.now)] + v.history,
        v.decide(request) == FilterAction::Pass && request.cookie_valid && (forall|k: int|
            0 <= k < v.history.len() ==> (#[trigger] v.history[k]).0 != request.ip.spec_key())
            && v.history.len() >= v.config.history_capacity ==> v.after(request).history
            == seq![(request.ip.spec_key(), request.now)] + v.history.drop_last(),
{
    let key = request.ip.spec_key();
    if v.decide(request) == FilterAction::Pass && request.cookie_valid {
        if 0 <= known < v.history.len() && v.history[known].0 == key {
            lemma_others_around(v.history, key, known);
            assert(v.after(request).history =~= seq![(key, request.now)] + v.history.remove(known));
        }
        if forall|k: int| 0 <= k < v.history.len() ==> (#[trigger] v.history[k]).0 != key {
            lemma_others_all(v.history, key);
            if v.history.len() < v.config.history_capacity {
                assert(v.after(request).history =~= seq![(key, request.now)] + v.history);
            } else {
                assert(v.after(request).history =~= seq![(key, request.now)]
                    + v.history.drop_last());
            }
        }
    }
}

/// A history never holds more addresses than it was made for, nor one twice, at any
/// point of any run.
pub proof fn law_history_is_bounded(config: FilterConfig, events: Seq<Event>, i: int, j: int)
    requires
        0 < config.history_capacity <= u64::MAX,
    ensures
        FilterView::initial(config).run(events).history.len() <= config.history_capacity,
        0 <= i < j < FilterView::initial(config).run(events).history.len()
            ==> FilterView::initial(config).run(events).history[i].0 != FilterView::initial(
            config,
        ).run(events).history[j].0,
{
    law_new_filter_has_invariant(config);
    law_run_keeps_invariant(FilterView::initial(config), events);
}

/// A request counts in one gauge: that of passes, of cookies or of drops, as its action
/// is, goes up by one, or back to 0 after the largest value. One with a valid cookie
/// that passes sets the history gauge before. Every other gauge stays.
pub proof fn law_gauges_follow_the_action(v: FilterView, request: Request)
    ensures
        ({
            let action = v.decide(request);
            let name = match action {
                FilterAction::Pass => v.config.names.filter_pass@,
                FilterAction::SendCookie => v.config.names.filter_send_cookie@,
                FilterAction::Drop => v.config.names.filter_drop@,
            };
            let before = if action == FilterAction::Pass && request.cookie_valid {
                v.metrics.insert(
                    v.config.names.filter_ip_request_history_size@,
                    v.after(request).history.len() as u64,
                )
            } else {
                v.metrics
            };
            v.after(request).metrics == before.insert(
                name,
                if !before.contains_key(name) {
                    1u64
                } else if before[name] == u64::MAX {
                    0u64
                } else {
                    (before[name] + 1) as u64
                },
            )
        }),
{
}

/// A gauge with a name of its own for the history shows how many addresses it holds, at
/// every point of every run.
pub proof fn law_history_gauge_shows_its_size(config: FilterConfig, events: Seq<Event>)
    requires
        0 < config.history_capacity <= u64::MAX,
        config.names.filter_ip_request_history_size@ != config.names.filter_pass@,
        config.names.filter_ip_request_history_size@ != config.names.filter_send_cookie@,
        config.names.filter_ip_request_history_size@ != config.names.filter_drop@,
    ensures
        ({
            let u = FilterView::initial(config).run(events);
            let name = config.names.filter_ip_request_history_size@;
            u.metrics.contains_key(name) && u.metrics[name] == u.history.len()
        }),
    decreases events.len(),
{
    let v = FilterView::initial(config);
    law_new_filter_has_invariant(config);
    law_run_keeps_invariant(v, events);
    if events.len() > 0 {
        let before = events.drop_last();
        law_history_gauge_shows_its_size(config, before);
        law_run_keeps_invariant(v, before);
    }
}

/// The next reset is due one interval after the last one, whatever has passed since.
pub proof fn law_reset_is_due_one_interval_later(v: FilterView)
    ensures
        v.next_reset() == v.last_reset + v.config.reset_interval,
{
}

/// A tick at least one interval after the last reset restores both budgets, whatever is
/// left of them, and counts the next interval from then. An earlier tick does nothing,
/// unless the interval is 0. No tick touches the settings, the history or the gauges.
pub proof fn law_tick_resets_after_interval(v: FilterView, now: nat)
    ensures
        now >= v.last_reset + v.config.reset_interval ==> {
            &&& v.after_tick(now).unverified == 0
            &&& v.after_tick(now).verified == 0
            &&& v.after_tick(now).last_reset == now
        },
        now < v.last_reset + v.config.reset_interval && v.config.reset_interval > 0 ==> {
            &&& v.after_tick(now).unverified == v.unverified
            &&& v.after_tick(now).verified == v.verified
            &&& v.after_tick(now).last_reset == v.last_reset
        },
        v.config.reset_interval == 0 ==> {
            &&& v.after_tick(now).unverified == 0
            &&& v.after_tick(now).verified == 0
            &&& v.after_tick(now).last_reset == now
        },
        v.after_tick(now).config == v.config,
        v.after_tick(now).history == v.history,
        v.after_tick(now).metrics == v.metrics,
{
}

/// The delay of a reset is the time since it was due, in whole milliseconds.
pub proof fn law_delay_counts_whole_milliseconds(v: FilterView, now: nat)
    ensures
        now >= v.last_reset + v.config.reset_interval ==> {
            &&& v.reset_delay_ms(now) * 1_000_000 <= now - (v.last_reset + v.config.reset_interval)
            &&& now - (v.last_reset + v.config.reset_interval) < (v.reset_delay_ms(now) + 1)
                * 1_000_000
        },
        now < v.last_reset + v.config.reset_interval ==> v.reset_delay_ms(now) == 0,
{
}

/// After a tick one interval or more after the last reset, a request with or without a
/// valid cookie finds its whole budget: with room for sessions, and its address not
/// within the window, it passes if its limit is not 0.
pub proof fn law_due_tick_lets_requests_pass(v: FilterView, now: nat, request: Request)
    requires
        now >= v.last_reset + v.config.reset_interval,
        request.transport_sessions < v.config.transport_limit,
        request.pending_sessions < v.config.pending_limit,
        request.cookie_valid ==> v.config.verified_limit > 0,
        !request.cookie_valid ==> v.config.unverified_limit > 0,
        forall|k: int|
            0 <= k < v.history.len() && (#[trigger] v.history[k]).0 == request.ip.spec_key()
                ==> request.now > v.history[k].1 + v.config.ip_window,
    ensures
        v.after_tick(now).decide(request) == FilterAction::Pass,
{
}

/// A run is what its events do one after the other, and the verified passes of a run
/// are its requests with a valid cookie that pass.
pub proof fn law_run_takes_events_in_turn(
    v: FilterView,
    events: Seq<Event>,
    request: Request,
    now: nat,
)
    ensures
        v.run(Seq::empty()) == v,
        v.run(events.push(Event::Apply(request))) == v.run(events).after(request),
        v.run(events.push(Event::Tick(now))) == v.run(events).after_tick(now),
        v.verified_passes(Seq::empty()) == Seq::<Entry>::empty(),
        v.verified_passes(events.push(Event::Tick(now))) == v.verified_passes(events),
        request.cookie_valid && v.run(events).decide(request) == FilterAction::Pass
            ==> v.verified_passes(events.push(Event::Apply(request))) == v.verified_passes(
            events,
        ).push((request.ip.spec_key(), request.now)),
        !(request.cookie_valid && v.run(events).decide(request) == FilterAction::Pass)
            ==> v.verified_passes(events.push(Event::Apply(request))) == v.verified_passes(events),
{
    assert(events.push(Event::Apply(request)).drop_last() =~= events);
    assert(events.push(Event::Tick(now)).drop_last() =~= events);
}

/// Whether no request with a valid cookie from `ip` passes among `events`.
pub open spec fn never_passes(v: FilterView, ip: IpAddr, events: Seq<Event>) -> bool {
    forall|i: int|
        0 <= i < events.len() && #[trigger] events[i] is Apply
            && events[i]->Apply_0.cookie_valid && events[i]->Apply_0.ip == ip ==> v.run(
            events.take(i),
        ).decide(events[i]->Apply_0) != FilterAction::Pass
}

proof fn lemma_never_passes(v: FilterView, ip: IpAddr, events: Seq<Event>)
    requires
        never_passes(v, ip, events),
    ensures
        !has_key(v.verified_passes(events), ip.spec_key()),
    decreases events.len(),
{
    if events.len() > 0 {
        let before = events.drop_last();
        assert forall|i: int|
            0 <= i < before.len() && #[trigger] before[i] is Apply
                && before[i]->Apply_0.cookie_valid && before[i]->Apply_0.ip == ip implies v.run(
            before.take(i),
        ).decide(before[i]->Apply_0) != FilterAction::Pass by {
            assert(before[i] == events[i]);
            assert(before.take(i) =~= events.take(i));
        }
        lemma_never_passes(v, ip, before);
        assert(events.take(events.len() - 1) =~= before);
        if v.run(before).passes(events.last(), true) {
            let request = events.last()->Apply_0;
            assert(events[events.len() - 1] == Event::Apply(request));
            law_keys_tell_addresses_apart(request.ip, ip);
            let passed = v.verified_passes(before);
            lemma_keys_of_push(passed, (request.ip.spec_key(), request.now));
            assert(!keys_of(passed).contains(ip.spec_key()));
            assert(!keys_of(v.verified_passes(events)).contains(ip.spec_key()));
        }
    }
}

/// An address that passed at one time passes again at any time more than the window
/// later, whatever happens in between, if it has not passed since, there is room for
/// sessions and the budget of such requests is not used up.
pub proof fn law_address_passes_again_after_window(
    v: FilterView,
    first: Request,
    events: Seq<Event>,
    later: Request,
)
    requires
        v.inv(),
        first.cookie_valid,
        v.decide(first) == FilterAction::Pass,
        never_passes(v.after(first), first.ip, events),
        later.cookie_valid,
        later.ip == first.ip,
        later.now > first.now + v.config.ip_window,
        later.transport_sessions < v.config.transport_limit,
        later.pending_sessions < v.config.pending_limit,
        v.after(first).run(events).verified < v.config.verified_limit,
    ensures
        v.after(first).run(events).decide(later) == FilterAction::Pass,
{
    let next = v.after(first);
    let key = first.ip.spec_key();
    law_request_keeps_invariant(v, first);
    lemma_after_put(v.history, v.config.history_capacity, key, first.now);
    lemma_never_passes(next, first.ip, events);
    law_run_keeps_invariant(next, events);
    let u = next.run(events);
    assert forall|k: int| 0 <= k < u.history.len() && (#[trigger] u.history[k]).0 == key implies
        later.now > u.history[k].1 + u.config.ip_window by {
        lemma_no_pass_no_entry(next, key, events, k);
        let m = choose|m: int| 0 <= m < next.history.len() && next.history[m] == u.history[k];
        assert(next.history[0].0 == key);
        assert(m == 0);
    }
    law_verified_limit_and_window_decide(u, later, 0);
}

/// Just after an address passed with a valid cookie, another such request from it is
/// dropped up to the end of the window, and passes from then on, if there is room for
/// sessions and the budget allows one more.
pub proof fn law_window_is_exact(v: FilterView, first: Request, later: Request)
    requires
        v.inv(),
        first.cookie_valid,
        v.decide(first) == FilterAction::Pass,
        later.cookie_valid,
        later.ip == first.ip,
        later.transport_sessions < v.config.transport_limit,
        later.pending_sessions < v.config.pending_limit,
        v.verified + 1 < v.config.verified_limit,
    ensures
        v.after(first).decide(later) == FilterAction::Pass <==> later.now > first.now
            + v.config.ip_window,
        v.after(first).decide(later) == FilterAction::Drop <==> later.now <= first.now
            + v.config.ip_window,
{
    let none = Seq::<Event>::empty();
    law_request_moves_one_counter_at_most(v, first);
    law_run_takes_events_in_turn(v.after(first), none, first, 0);
    if later.now > first.now + v.config.ip_window {
        law_address_passes_again_after_window(v, first, none, later);
    } else {
        law_address_is_held_through_short_run(v, first, none, later);
    }
}

/// An address that passed with a valid cookie is dropped up to the end of the window
/// after any run of fewer events than the history has room for addresses.
pub proof fn law_address_is_held_through_short_run(
    v: FilterView,
    first: Request,
    events: Seq<Event>,
    later: Request,
)
    requires
        v.inv(),
        first.cookie_valid,
        v.decide(first) == FilterAction::Pass,
        events.len() < v.config.history_capacity,
        later.cookie_valid,
        later.ip == first.ip,
        later.now <= first.now + v.config.ip_window,
    ensures
        v.after(first).run(events).decide(later) == FilterAction::Drop,
{
    let passed = v.after(first).verified_passes(events);
    lemma_no_more_keys_than_events(v.after(first), events);
    lemma_keys_of_finite(passed);
    vstd::set_lib::lemma_len_subset(
        keys_of(passed).remove(first.ip.spec_key()),
        keys_of(passed),
    );
    law_address_waits_out_window(v, first, events, later);
}

proof fn lemma_no_more_keys_than_events(v: FilterView, events: Seq<Event>)
    ensures
        keys_of(v.verified_passes(events)).len() <= events.len(),
    decreases events.len(),
{
    let passed = v.verified_passes(events);
    if events.len() == 0 {
        assert(keys_of(passed) =~= Set::empty());
    } else {
        let before = events.drop_last();
        lemma_no_more_keys_than_events(v, before);
        lemma_keys_of_finite(v.verified_passes(before));
        if v.run(before).passes(events.last(), true) {
            let request = events.last()->Apply_0;
            lemma_keys_of_push(v.verified_passes(before), (request.ip.spec_key(), request.now));
        }
    }
}

/// No address is held back because of another one: from a new filter, a request with a
/// valid cookie from an address that has not passed with one passes, whatever other
/// addresses did, if there is room for sessions and the budget is not used up.
pub proof fn law_addresses_do_not_hold_back_each_other(
    config: FilterConfig,
    events: Seq<Event>,
    request: Request,
)
    requires
        0 < config.history_capacity <= u64::MAX,
        never_passes(FilterView::initial(config), request.ip, events),
        request.cookie_valid,
        request.transport_sessions < config.transport_limit,
        request.pending_sessions < config.pending_limit,
        FilterView::initial(config).run(events).verified < config.verified_limit,
    ensures
        FilterView::initial(config).run(events).decide(request) == FilterAction::Pass,
{
    let v = FilterView::initial(config);
    let u = v.run(events);
    let key = request.ip.spec_key();
    law_new_filter_has_invariant(config);
    law_run_keeps_invariant(v, events);
    lemma_never_passes(v, request.ip, events);
    assert forall|k: int| 0 <= k < u.history.len() implies (#[trigger] u.history[k]).0 != key by {
        if u.history[k].0 == key {
            lemma_no_pass_no_entry(v, key, events, k);
        }
    }
    law_verified_limit_and_window_decide(u, request, 0);
}

/// One more address that passes changes nothing for another one, as long as the budget
/// and the history have room for both.
pub proof fn law_pass_of_one_address_leaves_another_free(
    v: FilterView,
    one: Request,
    another: Request,
)
    requires
        v.inv(),
        one.ip != another.ip,
        one.cookie_valid,
        another.cookie_valid,
        v.decide(one) == FilterAction::Pass,
        v.decide(another) == FilterAction::Pass,
        v.verified + 1 < v.config.verified_limit,
    ensures
        v.after(one).decide(another) == FilterAction::Pass,
{
    law_keys_tell_addresses_apart(one.ip, another.ip);
    law_request_moves_one_counter_at_most(v, one);
    law_request_keeps_invariant(v, one);
    let none = Seq::<Event>::empty();
    law_run_takes_events_in_turn(v, none, one, 0);
    let events = none.push(Event::Apply(one));
    law_free_address_stays_free(v, another.ip, another.now, events, another.now);
}

/// Whether every event is a request that finds room for sessions, with a valid cookie
/// or without one as `cookie_valid` says.
pub open spec fn all_find_room(
    config: FilterConfig,
    events: Seq<Event>,
    cookie_valid: bool,
) -> bool {
    forall|i: int|
        0 <= i < events.len() ==> {
            &&& #[trigger] events[i] is Apply
            &&& events[i]->Apply_0.cookie_valid == cookie_valid
            &&& events[i]->Apply_0.transport_sessions < config.transport_limit
            &&& events[i]->Apply_0.pending_sessions < config.pending_limit
        }
}

/// With room for sessions, of a row of requests without a valid cookie exactly those
/// pass that the limit leaves: the counter goes up by one for each, up to the limit,
/// and the first one after that gets a cookie.
pub proof fn law_unverified_limit_is_exact(v: FilterView, events: Seq<Event>, request: Request)
    requires
        v.unverified <= v.config.unverified_limit,
        all_find_room(v.config, events, false),
        !request.cookie_valid,
        request.transport_sessions < v.config.transport_limit,
        request.pending_sessions < v.config.pending_limit,
    ensures
        v.run(events).config == v.config,
        v.unverified + events.len() <= v.config.unverified_limit ==> v.run(events).unverified
            == v.unverified + events.len(),
        v.unverified + events.len() > v.config.unverified_limit ==> v.run(events).unverified
            == v.config.unverified_limit,
        v.unverified + events.len() < v.config.unverified_limit ==> v.run(events).decide(request)
            == FilterAction::Pass,
        v.unverified + events.len() >= v.config.unverified_limit ==> v.run(events).decide(request)
            == FilterAction::SendCookie,
    decreases events.len(),
{
    if events.len() > 0 {
        let before = events.drop_last();
        let last = events.last()->Apply_0;
        assert forall|i: int| 0 <= i < before.len() implies {
            &&& #[trigger] before[i] is Apply
            &&& before[i]->Apply_0.cookie_valid == false
            &&& before[i]->Apply_0.transport_sessions < v.config.transport_limit
            &&& before[i]->Apply_0.pending_sessions < v.config.pending_limit
        } by {
            assert(before[i] == events[i]);
        }
        assert(events[events.len() - 1] is Apply);
        law_unverified_limit_is_exact(v, before, last);
    }
}

/// From a new filter exactly as many requests without a valid cookie pass in a row as
/// it was asked to let pass, and the next one gets a cookie.
pub proof fn law_new_filter_lets_unverified_limit_pass(
    config: FilterConfig,
    events: Seq<Event>,
    request: Request,
)
    requires
        all_find_room(config, events, false),
        !request.cookie_valid,
        request.transport_sessions < config.transport_limit,
        request.pending_sessions < config.pending_limit,
    ensures
        FilterView::initial(config).run(events).decide(request) == FilterAction::Pass
            <==> events.len() < config.unverified_limit,
        FilterView::initial(config).run(events).decide(request) == FilterAction::SendCookie
            <==> events.len() >= config.unverified_limit,
{
    law_unverified_limit_is_exact(FilterView::initial(config), events, request);
}

/// From a new filter exactly as many requests with a valid cookie, each from an address
/// of its own, pass in a row as it was asked to let pass, and the next one is dropped.
pub proof fn law_new_filter_lets_verified_limit_pass(
    config: FilterConfig,
    events: Seq<Event>,
    request: Request,
)
    requires
        0 < config.history_capacity <= u64::MAX,
        all_find_room(config, events, true),
        forall|i: int, j: int|
            0 <= i < j < events.len() ==> (#[trigger] events[i])->Apply_0.ip != (
            #[trigger] events[j])->Apply_0.ip,
        forall|i: int|
            0 <= i < events.len() ==> (#[trigger] events[i])->Apply_0.ip != request.ip,
        request.cookie_valid,
        request.transport_sessions < config.transport_limit,
        request.pending_sessions < config.pending_limit,
    ensures
        FilterView::initial(config).run(events).verified == if events.len()
            < config.verified_limit {
            events.len()
        } else {
            config.verified_limit
        },
        FilterView::initial(config).run(events).decide(request) == FilterAction::Pass
            <==> events.len() < config.verified_limit,
        FilterView::initial(config).run(events).decide(request) == FilterAction::Drop
            <==> events.len() >= config.verified_limit,
    decreases events.len(),
{
    let v = FilterView::initial(config);
    law_new_filter_has_invariant(config);
    law_run_keeps_invariant(v, events);
    if events.len() > 0 {
        let before = events.drop_last();
        let last = events.last()->Apply_0;
        assert(events[events.len() - 1] is Apply);
        assert forall|i: int| 0 <= i < before.len() implies {
            &&& #[trigger] before[i] is Apply
            &&& before[i]->Apply_0.cookie_valid == true
            &&& before[i]->Apply_0.transport_sessions < config.transport_limit
            &&& before[i]->Apply_0.pending_sessions < config.pending_limit
            &&& before[i]->Apply_0.ip != last.ip
        } by {
            assert(before[i] == events[i]);
            assert(events[i]->Apply_0.ip != events[events.len() - 1]->Apply_0.ip);
        }
        assert forall|i: int, j: int| 0 <= i < j < before.len() implies (
        #[trigger] before[i])->Apply_0.ip != (#[trigger] before[j])->Apply_0.ip by {
            assert(before[i] == events[i] && before[j] == events[j]);
        }
        law_new_filter_lets_verified_limit_pass(config, before, last);
        law_run_keeps_invariant(v, before);
    }
    if events.len() < config.verified_limit {
        assert(never_passes(v, request.ip, events));
        law_addresses_do_not_hold_back_each_other(config, events, request);
    }
}

/// The largest history: what a table of at most `isize::MAX` bytes can hold with room
/// to double.
pub proof fn law_largest_history()
    ensures
        usize::BITS == 64 ==> max_history_capacity_spec() == 126_100_789_566_373_888,
        usize::BITS == 32 ==> max_history_capacity_spec() == 58_720_256,
{
}

} // verus!
