//! What holds of a filter over more than one call.
use vstd::prelude::*;
use vstd::set_lib::lemma_len_subset;

use crate::address::{AddressKey, IpAddr};
use crate::filter::{FilterAction, Refusal};
use crate::history::{
    first_entries, has_key, keys_of, latest_first, lemma_after_put, lemma_keys_of_finite,
    lemma_keys_of_push, lemma_latest_first_push, lemma_others_all, lemma_others_from,
    lemma_others_keeps, lemma_others_of_known_key, lemma_put_into_first_entries,
    lemma_unique_prefix_bound, others,
};
use crate::metrics::{gauge_value, incremented};
use crate::model::{Event, FilterConfig, FilterView, Request};

verus! {

/// A new filter that can remember an address has its invariant.
pub proof fn law_new_filter_has_invariant(config: FilterConfig)
    requires
        0 < config.history_capacity <= u64::MAX,
    ensures
        FilterView::initial(config).inv(),
{
}

/// Whatever is asked of a filter, its counters stay within their limits, its history
/// within its capacity and without a repeated address, and the history gauge with it.
pub proof fn law_request_keeps_invariant(v: FilterView, request: Request)
    requires
        v.inv(),
    ensures
        v.after(request).inv(),
        v.after(request).config == v.config,
{
    lemma_after_put(
        v.history,
        v.config.history_capacity,
        request.ip.spec_key(),
        request.now,
    );
}

/// A filter has its invariant, and the settings it was made with, at every point of
/// every run of requests and ticks.
pub proof fn law_run_keeps_invariant(v: FilterView, events: Seq<Event>)
    requires
        v.inv(),
    ensures
        v.run(events).inv(),
        v.run(events).config == v.config,
    decreases events.len(),
{
    if events.len() > 0 {
        law_run_keeps_invariant(v, events.drop_last());
        match events.last() {
            Event::Tick(_) => {},
            Event::Apply(request) => {
                law_request_keeps_invariant(v.run(events.drop_last()), request);
            },
        }
    }
}

/// While the sessions are full every request is dropped. Else a cookie is asked for if
/// and only if the request has no valid one and the budget of such requests is used
/// up, and a request with a valid one is dropped if and only if its budget is used up
/// or its address passed within the window.
pub proof fn law_when_each_action_comes(v: FilterView, request: Request)
    ensures
        v.decide(request) == FilterAction::SendCookie <==> {
            &&& !v.sessions_full(request)
            &&& !request.cookie_valid
            &&& v.unverified >= v.config.unverified_limit
        },
        v.decide(request) == FilterAction::Drop <==> v.sessions_full(request) || {
            &&& request.cookie_valid
            &&& v.verified >= v.config.verified_limit || v.recently_passed(request.ip, request.now)
        },
        v.decide(request) == FilterAction::Pass <==> !v.sessions_full(request) && if request.cookie_valid {
            v.verified < v.config.verified_limit && !v.recently_passed(request.ip, request.now)
        } else {
            v.unverified < v.config.unverified_limit
        },
{
}

/// There is a reason for a refusal if and only if the request does not pass, and a
/// cookie is asked for only on account of the budget of requests without one.
pub proof fn law_refusal_has_its_reason(v: FilterView, request: Request)
    ensures
        v.decide(request) == match v.refusal(request) {
            None => FilterAction::Pass,
            Some(Refusal::UnverifiedRate) => FilterAction::SendCookie,
            Some(_) => FilterAction::Drop,
        },
{
}

/// A request that does not pass uses up no budget, and leaves the history as it was,
/// its order included: only gauges change.
pub proof fn law_refusal_changes_only_gauges(v: FilterView, request: Request)
    requires
        v.decide(request) != FilterAction::Pass,
    ensures
        v.after(request) == (FilterView { metrics: v.after(request).metrics, ..v }),
{
}

/// A request that passes uses up one of the budget that it falls under, and none of
/// the other.
pub proof fn law_pass_uses_one_of_its_budget(v: FilterView, request: Request)
    requires
        v.decide(request) == FilterAction::Pass,
    ensures
        v.after(request).verified == v.verified + if request.cookie_valid {
            1int
        } else {
            0
        },
        v.after(request).unverified == v.unverified + if request.cookie_valid {
            0int
        } else {
            1
        },
        !request.cookie_valid ==> v.after(request).history == v.history,
{
}

/// What becomes of a request without a valid cookie depends on the sessions and on the
/// budget of such requests alone: not on the budget of the others, nor on which
/// addresses passed when, nor on its own address and time.
pub proof fn law_unverified_requests_are_independent(
    v: FilterView,
    w: FilterView,
    r: Request,
    s: Request,
)
    requires
        !r.cookie_valid,
        !s.cookie_valid,
        v.config.transport_limit == w.config.transport_limit,
        v.config.pending_limit == w.config.pending_limit,
        v.config.unverified_limit == w.config.unverified_limit,
        v.unverified == w.unverified,
        r.transport_sessions == s.transport_sessions,
        r.pending_sessions == s.pending_sessions,
    ensures
        v.decide(r) == w.decide(s),
{
}

/// What becomes of a request with a valid cookie does not depend on the budget of the
/// requests without one.
pub proof fn law_verified_requests_are_independent(v: FilterView, w: FilterView, request: Request)
    requires
        request.cookie_valid,
        v.config.transport_limit == w.config.transport_limit,
        v.config.pending_limit == w.config.pending_limit,
        v.config.verified_limit == w.config.verified_limit,
        v.config.ip_window == w.config.ip_window,
        v.verified == w.verified,
        v.history == w.history,
    ensures
        v.decide(request) == w.decide(request),
{
}

/// As long as no tick resets the counters, they count the requests that pass, and no
/// more pass than the limits allow.
pub proof fn law_budget_bounds_passes(v: FilterView, events: Seq<Event>)
    requires
        v.inv(),
        forall|i: int, now: nat|
            0 <= i < events.len() && #[trigger] events[i] == Event::Tick(now) ==> !(
            #[trigger] v.resets_at(now)),
    ensures
        v.run(events).last_reset == v.last_reset,
        v.run(events).unverified == v.unverified + v.pass_count(events, false),
        v.run(events).verified == v.verified + v.pass_count(events, true),
        v.unverified + v.pass_count(events, false) <= v.config.unverified_limit,
        v.verified + v.pass_count(events, true) <= v.config.verified_limit,
    decreases events.len(),
{
    law_run_keeps_invariant(v, events);
    if events.len() > 0 {
        let before = events.drop_last();
        assert forall|i: int, now: nat|
            0 <= i < before.len() && #[trigger] before[i] == Event::Tick(now) implies !(
        #[trigger] v.resets_at(now)) by {
            assert(before[i] == events[i]);
        }
        law_budget_bounds_passes(v, before);
        law_run_keeps_invariant(v, before);
        match events.last() {
            Event::Tick(now) => {
                assert(events[events.len() - 1] == Event::Tick(now));
                assert(!v.resets_at(now));
            },
            Event::Apply(_) => {},
        }
    }
}

/// The address that passed when a run began is still remembered, with a time no
/// earlier than then, if fewer other addresses pass than the history has room for:
/// only such addresses are ahead of it.
proof fn lemma_still_remembered(v: FilterView, ip: IpAddr, since: nat, events: Seq<Event>) -> (i:
    int)
    requires
        v.inv(),
        v.history.len() > 0,
        v.history[0] == (ip.spec_key(), since),
        keys_of(v.verified_passes(events)).remove(ip.spec_key()).len()
            < v.config.history_capacity,
    ensures
        0 <= i < v.run(events).history.len(),
        v.run(events).history[i].0 == ip.spec_key(),
        v.run(events).history[i].1 >= since,
        forall|m: int|
            0 <= m < i ==> has_key(
                v.verified_passes(events),
                (#[trigger] v.run(events).history[m]).0,
            ),
    decreases events.len(),
{
    if events.len() == 0 {
        0
    } else {
        let before = events.drop_last();
        let u = v.run(before);
        law_run_keeps_invariant(v, before);
        let passed = v.verified_passes(before);
        if u.passes(events.last(), true) {
            let request = events.last()->Apply_0;
            let key = request.ip.spec_key();
            let entry = (key, request.now);
            let keys = keys_of(v.verified_passes(events)).remove(ip.spec_key());
            lemma_keys_of_push(passed, entry);
            lemma_keys_of_finite(v.verified_passes(events));
            lemma_len_subset(keys_of(passed).remove(ip.spec_key()), keys);
            let i = lemma_still_remembered(v, ip, since, before);
            if key == ip.spec_key() {
                assert(u.history[i].1 + u.config.ip_window < request.now);
                lemma_after_put(u.history, u.config.history_capacity, key, request.now);
                0
            } else {
                let ahead = u.history.take(i);
                let j = lemma_others_keeps(u.history, key, i);
                let unlimited = seq![entry] + others(u.history, key);
                let room = (others(u.history, key).len() + 1) as nat;
                lemma_after_put(u.history, room, key, request.now);
                assert forall|m: int| 0 <= m < j + 1 implies keys.contains(
                    (#[trigger] unlimited[m]).0,
                ) by {
                    if m == 0 {
                        assert(keys_of(v.verified_passes(events)).contains(key));
                    } else {
                        let k = lemma_others_from(ahead, key, m - 1);
                        assert(unlimited[m] == u.history[k]);
                        assert(keys_of(passed).contains(u.history[k].0));
                        assert(u.history[k].0 != u.history[i].0);
                    }
                }
                lemma_unique_prefix_bound(unlimited, (j + 1) as nat, keys);
                let history = v.run(events).history;
                assert forall|m: int| 0 <= m < j + 1 implies has_key(
                    v.verified_passes(events),
                    (#[trigger] history[m]).0,
                ) by {
                    assert(history[m] == unlimited[m]);
                    assert(keys.contains(unlimited[m].0));
                }
                assert(history[j + 1] == others(u.history, key)[j]);
                j + 1
            }
        } else {
            lemma_still_remembered(v, ip, since, before)
        }
    }
}

/// Two requests with a valid cookie from one address that both pass are more than a
/// window apart, whatever ticks and requests come in between, as long as fewer other
/// addresses pass with a valid cookie in between than the history has room for. One
/// that comes within the window is dropped.
pub proof fn law_address_waits_out_window(
    v: FilterView,
    first: Request,
    events: Seq<Event>,
    later: Request,
)
    requires
        v.inv(),
        first.cookie_valid,
        v.decide(first) == FilterAction::Pass,
        keys_of(v.after(first).verified_passes(events)).remove(first.ip.spec_key()).len()
            < v.config.history_capacity,
        later.cookie_valid,
        later.ip == first.ip,
    ensures
        v.after(first).run(events).decide(later) == FilterAction::Pass ==> later.now > first.now
            + v.config.ip_window,
        later.now <= first.now + v.config.ip_window ==> v.after(first).run(events).decide(later)
            == FilterAction::Drop,
{
    let next = v.after(first);
    law_request_keeps_invariant(v, first);
    lemma_after_put(v.history, v.config.history_capacity, first.ip.spec_key(), first.now);
    let i = lemma_still_remembered(next, first.ip, first.now, events);
    law_run_keeps_invariant(next, events);
    if later.now <= first.now + v.config.ip_window {
        assert(next.run(events).recently_passed(later.ip, later.now));
    }
}

/// After any run of requests and ticks, a filter remembers the addresses that passed
/// with a valid cookie, each with the time of its latest pass, the latest of them
/// first, and as many of them as its history has room for.
pub proof fn law_history_holds_latest_passes(config: FilterConfig, events: Seq<Event>)
    requires
        0 < config.history_capacity <= u64::MAX,
    ensures
        FilterView::initial(config).run(events).history == first_entries(
            latest_first(FilterView::initial(config).verified_passes(events)),
            config.history_capacity,
        ),
    decreases events.len(),
{
    let v = FilterView::initial(config);
    if events.len() == 0 {
        assert(latest_first(v.verified_passes(events)) =~= Seq::empty()) by {
            reveal(Seq::filter);
        }
    } else {
        let before = events.drop_last();
        let u = v.run(before);
        law_history_holds_latest_passes(config, before);
        law_new_filter_has_invariant(config);
        law_run_keeps_invariant(v, before);
        if u.passes(events.last(), true) {
            let request = events.last()->Apply_0;
            let key = request.ip.spec_key();
            let passed = v.verified_passes(before);
            lemma_latest_first_push(passed, (key, request.now));
            lemma_put_into_first_entries(
                latest_first(passed),
                config.history_capacity,
                key,
                request.now,
            );
        }
    }
}

/// Without a pass of its own, a run adds no entry for an address.
pub(crate) proof fn lemma_no_pass_no_entry(v: FilterView, key: AddressKey, events: Seq<Event>, i: int)
    requires
        v.inv(),
        !has_key(v.verified_passes(events), key),
        0 <= i < v.run(events).history.len(),
        v.run(events).history[i].0 == key,
    ensures
        v.history.contains(v.run(events).history[i]),
    decreases events.len(),
{
    if events.len() > 0 {
        let before = events.drop_last();
        let u = v.run(before);
        let passed = v.verified_passes(before);
        law_run_keeps_invariant(v, before);
        if u.passes(events.last(), true) {
            let request = events.last()->Apply_0;
            let put = request.ip.spec_key();
            lemma_keys_of_push(passed, (put, request.now));
            assert(!keys_of(v.verified_passes(events)).contains(key));
            assert(!keys_of(passed).contains(key));
            assert(v.run(events).history[i] == others(u.history, put)[i - 1]);
            let k = lemma_others_from(u.history, put, i - 1);
            lemma_no_pass_no_entry(v, key, before, k);
        } else {
            lemma_no_pass_no_entry(v, key, before, i);
        }
    }
}

/// An address that its window does not hold back at one time is not held back at any
/// later time either, until it passes with a valid cookie again, whatever else happens.
pub proof fn law_free_address_stays_free(
    v: FilterView,
    ip: IpAddr,
    t1: nat,
    events: Seq<Event>,
    t2: nat,
)
    requires
        v.inv(),
        !v.recently_passed(ip, t1),
        t1 <= t2,
        !has_key(v.verified_passes(events), ip.spec_key()),
    ensures
        !v.recently_passed(ip, t2),
        !v.run(events).recently_passed(ip, t2),
{
    let u = v.run(events);
    law_run_keeps_invariant(v, events);
    assert forall|i: int|
        0 <= i < u.history.len() && (#[trigger] u.history[i]).0 == ip.spec_key() implies
        u.history[i].1 + u.config.ip_window < t2 by {
        lemma_no_pass_no_entry(v, ip.spec_key(), events, i);
        let k = choose|k: int| 0 <= k < v.history.len() && v.history[k] == u.history[i];
        assert(v.history[k].0 == ip.spec_key());
    }
}

/// A new address that passes with a full history takes the place of the one that
/// passed longest ago; every other address stays, in its order.
pub proof fn law_full_history_forgets_oldest(v: FilterView, request: Request)
    requires
        v.inv(),
        request.cookie_valid,
        v.decide(request) == FilterAction::Pass,
        v.history.len() == v.config.history_capacity,
        !has_key(v.history, request.ip.spec_key()),
    ensures
        v.after(request).history == seq![(request.ip.spec_key(), request.now)]
            + v.history.drop_last(),
        !has_key(v.after(request).history, v.history.last().0),
{
    let key = request.ip.spec_key();
    let oldest = v.history.last().0;
    lemma_others_all(v.history, key);
    let history = v.after(request).history;
    assert(history =~= seq![(key, request.now)] + v.history.drop_last());
    assert forall|i: int| 0 <= i < history.len() implies (#[trigger] history[i]).0 != oldest by {
        assert(v.history[v.history.len() - 1].0 == oldest);
        if i > 0 {
            assert(history[i] == v.history[i - 1]);
        }
    }
}

/// An address that passes again after it was forgotten, or after its window, is noted
/// first with its new time, and nothing is forgotten on its account if it was known.
pub proof fn law_pass_is_remembered_first(v: FilterView, request: Request)
    requires
        v.inv(),
        request.cookie_valid,
        v.decide(request) == FilterAction::Pass,
    ensures
        v.after(request).history.len() > 0,
        v.after(request).history[0] == (request.ip.spec_key(), request.now),
        has_key(v.history, request.ip.spec_key()) ==> forall|i: int|
            0 <= i < v.history.len() && (#[trigger] v.history[i]).0 != request.ip.spec_key()
                ==> v.after(request).history.contains(v.history[i]),
{
    let key = request.ip.spec_key();
    let history = v.after(request).history;
    lemma_after_put(v.history, v.config.history_capacity, key, request.now);
    if has_key(v.history, key) {
        lemma_others_of_known_key(v.history, key);
        assert forall|i: int|
            0 <= i < v.history.len() && (#[trigger] v.history[i]).0 != key implies history.contains(
            v.history[i],
        ) by {
            let j = lemma_others_keeps(v.history, key, i);
            assert(history[j + 1] == v.history[i]);
        }
    }
}

/// A tick before the next reset is due does nothing, if there is an interval between
/// resets at all.
pub proof fn law_early_tick_does_nothing(v: FilterView, now: nat)
    requires
        v.config.reset_interval > 0,
        now < v.next_reset(),
    ensures
        v.after_tick(now) == v,
{
}

/// A tick when the reset is due, or later, restores both budgets and starts the next
/// interval; what the filter remembers and has counted in its gauges stays.
pub proof fn law_due_tick_restores_budgets(v: FilterView, now: nat)
    requires
        now >= v.next_reset(),
    ensures
        v.after_tick(now) == (FilterView { unverified: 0, verified: 0, last_reset: now, ..v }),
        v.after_tick(now).next_reset() == now + v.config.reset_interval,
{
}

/// A second tick at the same time changes nothing more.
pub proof fn law_tick_is_idempotent(v: FilterView, now: nat)
    ensures
        v.after_tick(now).after_tick(now) == v.after_tick(now),
{
}

/// After a reset, requests without a valid cookie pass again, if any may.
pub proof fn law_reset_lets_requests_pass(v: FilterView, now: nat, request: Request)
    requires
        v.resets_at(now),
        !request.cookie_valid,
        !v.sessions_full(request),
        v.config.unverified_limit > 0,
    ensures
        v.after_tick(now).decide(request) == FilterAction::Pass,
{
}

/// Each request raises the gauge of its action by one and leaves those of the other
/// actions alone, if the gauges have different names.
pub proof fn law_one_gauge_per_request(v: FilterView, request: Request, other: FilterAction)
    requires
        v.config.names.distinct(),
        other != v.decide(request),
    ensures
        gauge_value(v.after(request).metrics, v.gauge_of(v.decide(request))) == incremented(
            gauge_value(v.metrics, v.gauge_of(v.decide(request))),
        ),
        gauge_value(v.after(request).metrics, v.gauge_of(other)) == gauge_value(
            v.metrics,
            v.gauge_of(other),
        ),
{
}

/// Different addresses are told apart in the history, IPv4 from IPv6 included.
pub proof fn law_keys_tell_addresses_apart(a: IpAddr, b: IpAddr)
    ensures
        a.spec_key() == b.spec_key() <==> a == b,
{
}

} // verus!
