use vstd::prelude::*;
use vstd::string::StringSliceAdditionalSpecFns;
use vstd::utf8::encode_utf8_decode_utf8;

verus! {

/// The names under which the filter publishes its gauges.
#[derive(Debug, Clone, Copy)]
pub struct MetricNames {
    /// Counts the requests that were let through.
    pub filter_pass: &'static str,
    /// Counts the requests that were answered with a cookie.
    pub filter_send_cookie: &'static str,
    /// Counts the requests that were discarded.
    pub filter_drop: &'static str,
    /// Follows the number of addresses in the request history.
    pub filter_ip_request_history_size: &'static str,
}

impl MetricNames {
    /// Whether no name is used for two gauges.
    pub open spec fn distinct(self) -> bool {
        &&& self.filter_pass@ != self.filter_send_cookie@
        &&& self.filter_pass@ != self.filter_drop@
        &&& self.filter_pass@ != self.filter_ip_request_history_size@
        &&& self.filter_send_cookie@ != self.filter_drop@
        &&& self.filter_send_cookie@ != self.filter_ip_request_history_size@
        &&& self.filter_drop@ != self.filter_ip_request_history_size@
    }
}

/// One more than `value`, starting over at 0 after `u64::MAX`.
pub open spec fn incremented(value: u64) -> u64 {
    if value == u64::MAX {
        0
    } else {
        (value + 1) as u64
    }
}

/// The value of the gauge `name`; a gauge that was never set stands at 0.
pub open spec fn gauge_value(gauges: Map<Seq<char>, u64>, name: Seq<char>) -> u64 {
    if gauges.contains_key(name) {
        gauges[name]
    } else {
        0
    }
}

/// The gauges after the one called `name` went up by one.
pub open spec fn gauges_after_inc(gauges: Map<Seq<char>, u64>, name: Seq<char>) -> Map<
    Seq<char>,
    u64,
> {
    gauges.insert(name, incremented(gauge_value(gauges, name)))
}

/// The gauges of a filter before its first request.
pub open spec fn initial_gauges(names: MetricNames) -> Map<Seq<char>, u64> {
    Map::<Seq<char>, u64>::empty().insert(names.filter_pass@, 0).insert(
        names.filter_send_cookie@,
        0,
    ).insert(names.filter_drop@, 0).insert(names.filter_ip_request_history_size@, 0)
}

/// The gauges that a list of names and values stands for: the last value of a name counts.
spec fn gauge_map(gauges: Seq<(&'static str, u64)>) -> Map<Seq<char>, u64>
    decreases gauges.len(),
{
    if gauges.len() == 0 {
        Map::empty()
    } else {
        gauge_map(gauges.drop_last()).insert(gauges.last().0@, gauges.last().1)
    }
}

proof fn lemma_absent_name(gauges: Seq<(&'static str, u64)>, name: Seq<char>)
    requires
        forall|j: int| 0 <= j < gauges.len() ==> (#[trigger] gauges[j]).0@ != name,
    ensures
        !gauge_map(gauges).contains_key(name),
    decreases gauges.len(),
{
    if gauges.len() > 0 {
        assert forall|j: int| 0 <= j < gauges.len() - 1 implies (
        #[trigger] gauges.drop_last()[j]).0@ != name by {
            assert(gauges.drop_last()[j] == gauges[j]);
        }
        lemma_absent_name(gauges.drop_last(), name);
    }
}

proof fn lemma_last_of_name(gauges: Seq<(&'static str, u64)>, i: int, value: u64)
    requires
        0 <= i < gauges.len(),
        forall|j: int| i < j < gauges.len() ==> (#[trigger] gauges[j]).0@ != gauges[i].0@,
    ensures
        gauge_map(gauges).contains_key(gauges[i].0@),
        gauge_map(gauges)[gauges[i].0@] == gauges[i].1,
        gauge_map(gauges.update(i, (gauges[i].0, value))) == gauge_map(gauges).insert(
            gauges[i].0@,
            value,
        ),
    decreases gauges.len(),
{
    let updated = gauges.update(i, (gauges[i].0, value));
    if i == gauges.len() - 1 {
        assert(updated.drop_last() =~= gauges.drop_last());
        assert(gauge_map(updated) =~= gauge_map(gauges).insert(gauges[i].0@, value));
    } else {
        let init = gauges.drop_last();
        assert forall|j: int| i < j < init.len() implies (#[trigger] init[j]).0@ != init[i].0@ by {
            assert(init[j] == gauges[j]);
        }
        lemma_last_of_name(init, i, value);
        assert(updated.drop_last() =~= init.update(i, (init[i].0, value)));
        assert(gauges.last().0@ != gauges[i].0@);
        assert(gauge_map(updated) =~= gauge_map(gauges).insert(gauges[i].0@, value));
    }
}

/// Whether two names are the same, which they are if their bytes are.
fn same_name(a: &str, b: &str) -> (same: bool)
    ensures
        same == (a@ == b@),
{
    let a_bytes = a.as_bytes();
    let b_bytes = b.as_bytes();
    proof {
        encode_utf8_decode_utf8(a@);
        encode_utf8_decode_utf8(b@);
    }
    if a_bytes.len() != b_bytes.len() {
        return false;
    }
    let mut i: usize = 0;
    while i < a_bytes.len()
        invariant
            i <= a_bytes.len(),
            a_bytes.len() == b_bytes.len(),
            a_bytes@ == a.spec_bytes(),
            b_bytes@ == b.spec_bytes(),
            forall|j: int| 0 <= j < i ==> a_bytes[j] == b_bytes[j],
        decreases a_bytes.len() - i,
    {
        if a_bytes[i] != b_bytes[i] {
            return false;
        }
        i = i + 1;
    }
    assert(a_bytes@ =~= b_bytes@);
    true
}

/// A registry of gauges, each known by its name.
#[derive(Debug)]
pub struct ExecutorMetrics {
    gauges: Vec<(&'static str, u64)>,
}

impl View for ExecutorMetrics {
    type V = Map<Seq<char>, u64>;

    /// The value of each gauge that was ever set.
    closed spec fn view(&self) -> Map<Seq<char>, u64> {
        gauge_map(self.gauges@)
    }
}

impl ExecutorMetrics {
    /// A registry without gauges.
    pub fn new() -> (metrics: ExecutorMetrics)
        ensures
            metrics@ == Map::<Seq<char>, u64>::empty(),
    {
        ExecutorMetrics { gauges: Vec::new() }
    }

    /// Where the value of `name` stands in the list.
    fn position(&self, name: &str) -> (position: Option<usize>)
        ensures
            match position {
                Some(i) => {
                    &&& i < self.gauges.len()
                    &&& self.gauges[i as int].0@ == name@
                    &&& forall|j: int|
                        i < j < self.gauges.len() ==> (#[trigger] self.gauges[j]).0@ != name@
                },
                None => forall|j: int|
                    0 <= j < self.gauges.len() ==> (#[trigger] self.gauges[j]).0@ != name@,
            },
    {
        let mut i: usize = self.gauges.len();
        while i > 0
            invariant
                i <= self.gauges.len(),
                forall|j: int|
                    i <= j < self.gauges.len() ==> (#[trigger] self.gauges[j]).0@ != name@,
            decreases i,
        {
            i = i - 1;
            if same_name(self.gauges[i].0, name) {
                return Some(i);
            }
        }
        None
    }

    /// The value of the gauge `name`, if it was ever set.
    pub fn gauge(&self, name: &str) -> (value: Option<u64>)
        ensures
            value == if self@.contains_key(name@) {
                Some(self@[name@])
            } else {
                None
            },
    {
        match self.position(name) {
            Some(i) => {
                proof {
                    lemma_last_of_name(self.gauges@, i as int, 0);
                }
                Some(self.gauges[i].1)
            },
            None => {
                proof {
                    lemma_absent_name(self.gauges@, name@);
                }
                None
            },
        }
    }

    /// Sets the gauge `name` to `value`.
    pub fn set(&mut self, name: &'static str, value: u64)
        ensures
            final(self)@ == old(self)@.insert(name@, value),
    {
        match self.position(name) {
            Some(i) => {
                proof {
                    lemma_last_of_name(self.gauges@, i as int, value);
                }
                let kept: &'static str = self.gauges[i].0;
                self.gauges.set(i, (kept, value));
            },
            None => {
                self.gauges.push((name, value));
                assert(self.gauges@.drop_last() =~= old(self).gauges@);
            },
        }
    }

    /// Raises the gauge `name` by one.
    pub fn inc(&mut self, name: &'static str)
        ensures
            final(self)@ == gauges_after_inc(old(self)@, name@),
            final(self)@ == old(self)@.insert(
                name@,
                if !old(self)@.contains_key(name@) {
                    1u64
                } else if old(self)@[name@] == u64::MAX {
                    0u64
                } else {
                    (old(self)@[name@] + 1) as u64
                },
            ),
    {
        let value: u64 = match self.gauge(name) {
            Some(v) => v,
            None => 0,
        };
        self.set(name, value.wrapping_add(1));
    }
}

/// The registry of a new filter: each of its gauges stands at 0.
pub fn init_filter_executor_metrics(names: &'static MetricNames) -> (metrics: ExecutorMetrics)
    ensures
        metrics@ == initial_gauges(*names),
        forall|name: Seq<char>| #[trigger]
            metrics@.contains_key(name) <==> {
                ||| name == names.filter_pass@
                ||| name == names.filter_send_cookie@
                ||| name == names.filter_drop@
                ||| name == names.filter_ip_request_history_size@
            },
        forall|name: Seq<char>| #[trigger]
            metrics@.contains_key(name) ==> metrics@[name] == 0,
{
    let mut metrics = ExecutorMetrics::new();
    metrics.set(names.filter_pass, 0);
    metrics.set(names.filter_send_cookie, 0);
    metrics.set(names.filter_drop, 0);
    metrics.set(names.filter_ip_request_history_size, 0);
    metrics
}

} // verus!
