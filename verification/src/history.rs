use lru::LruCache;
use std::num::NonZeroUsize;
use vstd::prelude::*;

use crate::address::AddressKey;

verus! {

/// An address and the time, in nanoseconds, of its last admitted request.
pub type Entry = (AddressKey, nat);

/// The cache of the `lru` crate, which holds the request history.
#[verifier::external_type_specification]
#[verifier::external_body]
#[verifier::reject_recursive_types(K)]
#[verifier::reject_recursive_types(V)]
#[verifier::reject_recursive_types(S)]
pub struct ExLruCache<K, V, S>(LruCache<K, V, S>);

/// The hasher that the cache hashes its keys with.
#[verifier::external_type_specification]
#[verifier::external_body]
pub struct ExDefaultHasher(lru::DefaultHasher);

/// What a request history holds, the most recently put entry first.
pub uninterp spec fn history_entries(history: LruCache<AddressKey, u128>) -> Seq<Entry>;

/// How many entries a request history was made to hold.
pub uninterp spec fn history_capacity(history: LruCache<AddressKey, u128>) -> nat;

/// Whether no two entries are for the same address.
pub open spec fn keys_unique(entries: Seq<Entry>) -> bool {
    forall|i: int, j: int|
        0 <= i < j < entries.len() ==> (#[trigger] entries[i]).0 != (#[trigger] entries[j]).0
}

/// Whether there is an entry for `key`.
pub open spec fn has_key(entries: Seq<Entry>, key: AddressKey) -> bool {
    exists|i: int| 0 <= i < entries.len() && (#[trigger] entries[i]).0 == key
}

/// The entries for addresses other than `key`, in their order.
pub open spec fn others(entries: Seq<Entry>, key: AddressKey) -> Seq<Entry> {
    entries.filter(|e: Entry| e.0 != key)
}

/// The entries after `key` was put with `value`: its entry comes first, then the
/// others in their order, as many as `capacity` leaves room for.
pub open spec fn after_put(
    entries: Seq<Entry>,
    capacity: nat,
    key: AddressKey,
    value: nat,
) -> Seq<Entry> {
    let rest = others(entries, key);
    let kept = if rest.len() < capacity {
        rest
    } else {
        rest.take(capacity - 1)
    };
    seq![(key, value)] + kept
}

/// Each entry for another address is among the others, behind those of the others
/// that it was behind before.
pub(crate) proof fn lemma_others_keeps(entries: Seq<Entry>, key: AddressKey, i: int) -> (j: int)
    requires
        0 <= i < entries.len(),
        entries[i].0 != key,
    ensures
        j == others(entries.take(i), key).len(),
        0 <= j < others(entries, key).len(),
        others(entries, key)[j] == entries[i],
        forall|m: int|
            0 <= m < j ==> #[trigger] others(entries, key)[m] == others(entries.take(i), key)[m],
{
    reveal(Seq::filter);
    let ahead = entries.take(i);
    let behind = entries.skip(i);
    assert(entries =~= ahead + behind);
    lemma_others_add(ahead, behind, key);
    let first = seq![entries[i]];
    let rest = entries.skip(i + 1);
    assert(behind =~= first + rest);
    lemma_others_add(first, rest, key);
    assert(first.drop_last() =~= Seq::empty());
    assert(others(first.drop_last(), key) =~= Seq::empty());
    assert(others(first, key) =~= first);
    others(ahead, key).len() as int
}

/// The others of two sequences in a row are the others of each in a row.
proof fn lemma_others_add(a: Seq<Entry>, b: Seq<Entry>, key: AddressKey)
    ensures
        others(a + b, key) == others(a, key) + others(b, key),
{
    Seq::filter_distributes_over_add(a, b, |e: Entry| e.0 != key);
}

/// Each of the others is an entry for another address.
pub(crate) proof fn lemma_others_from(entries: Seq<Entry>, key: AddressKey, j: int) -> (i: int)
    requires
        0 <= j < others(entries, key).len(),
    ensures
        0 <= i < entries.len(),
        entries[i] == others(entries, key)[j],
        entries[i].0 != key,
    decreases entries.len(),
{
    reveal(Seq::filter);
    if entries.len() == 0 {
        0
    } else {
        let init = entries.drop_last();
        if j < others(init, key).len() {
            lemma_others_from(init, key, j)
        } else {
            entries.len() - 1
        }
    }
}

proof fn lemma_others_unique(entries: Seq<Entry>, key: AddressKey)
    requires
        keys_unique(entries),
    ensures
        keys_unique(others(entries, key)),
    decreases entries.len(),
{
    reveal(Seq::filter);
    if entries.len() > 0 {
        let init = entries.drop_last();
        let rest = others(entries, key);
        lemma_others_unique(init, key);
        assert forall|i: int, j: int| 0 <= i < j < rest.len() implies (#[trigger] rest[i]).0 != (
        #[trigger] rest[j]).0 by {
            if j == others(init, key).len() {
                let k = lemma_others_from(init, key, i);
                assert(init[k] == entries[k]);
            } else {
                assert(rest[i] == others(init, key)[i]);
                assert(rest[j] == others(init, key)[j]);
            }
        }
    }
}

/// Where there is no entry for `key`, all entries are others.
pub(crate) proof fn lemma_others_all(entries: Seq<Entry>, key: AddressKey)
    requires
        !has_key(entries, key),
    ensures
        others(entries, key) == entries,
    decreases entries.len(),
{
    reveal(Seq::filter);
    if entries.len() > 0 {
        let init = entries.drop_last();
        assert forall|i: int| 0 <= i < init.len() implies (#[trigger] init[i]).0 != key by {
            assert(init[i] == entries[i]);
        }
        lemma_others_all(init, key);
        assert(entries[entries.len() - 1].0 != key);
        assert(init.push(entries.last()) =~= entries);
    }
}

/// The entry for a known `key` is the only one that is not among the others.
pub(crate) proof fn lemma_others_of_known_key(entries: Seq<Entry>, key: AddressKey)
    requires
        keys_unique(entries),
        has_key(entries, key),
    ensures
        others(entries, key).len() == entries.len() - 1,
    decreases entries.len(),
{
    reveal(Seq::filter);
    let init = entries.drop_last();
    let i = choose|i: int| 0 <= i < entries.len() && (#[trigger] entries[i]).0 == key;
    if i == init.len() {
        assert forall|m: int| 0 <= m < init.len() implies (#[trigger] init[m]).0 != key by {
            assert(init[m] == entries[m]);
        }
        lemma_others_all(init, key);
    } else {
        assert(init[i].0 == key);
        assert(entries[entries.len() - 1].0 != key);
        lemma_others_of_known_key(init, key);
    }
}

/// Where the entries are for different addresses, the others of a known one are what is
/// left without its entry.
pub(crate) proof fn lemma_others_around(entries: Seq<Entry>, key: AddressKey, i: int)
    requires
        keys_unique(entries),
        0 <= i < entries.len(),
        entries[i].0 == key,
    ensures
        others(entries, key) == entries.remove(i),
{
    reveal(Seq::filter);
    let ahead = entries.take(i);
    let entry = seq![entries[i]];
    let behind = entries.skip(i + 1);
    assert(entries =~= ahead + entry + behind);
    lemma_others_add(ahead + entry, behind, key);
    lemma_others_add(ahead, entry, key);
    assert(entry.drop_last() =~= Seq::empty());
    assert(others(entry.drop_last(), key) =~= Seq::empty());
    assert(others(entry, key) =~= Seq::empty());
    assert forall|m: int| 0 <= m < ahead.len() implies (#[trigger] ahead[m]).0 != key by {
        assert(ahead[m] == entries[m]);
    }
    assert forall|m: int| 0 <= m < behind.len() implies (#[trigger] behind[m]).0 != key by {
        assert(behind[m] == entries[m + i + 1]);
    }
    lemma_others_all(ahead, key);
    lemma_others_all(behind, key);
    assert(entries.remove(i) =~= ahead + behind);
}

/// A put leaves at most one entry for each address, and no more than there is room for.
pub(crate) proof fn lemma_after_put(entries: Seq<Entry>, capacity: nat, key: AddressKey, value: nat)
    requires
        keys_unique(entries),
        0 < capacity,
    ensures
        keys_unique(after_put(entries, capacity, key, value)),
        0 < after_put(entries, capacity, key, value).len() <= capacity,
        after_put(entries, capacity, key, value)[0] == (key, value),
{
    let rest = others(entries, key);
    let result = after_put(entries, capacity, key, value);
    lemma_others_unique(entries, key);
    assert forall|i: int, j: int| 0 <= i < j < result.len() implies (#[trigger] result[i]).0 != (
    #[trigger] result[j]).0 by {
        assert(result[j] == rest[j - 1]);
        if i == 0 {
            let k = lemma_others_from(entries, key, j - 1);
        } else {
            assert(result[i] == rest[i - 1]);
        }
    }
}

/// The addresses that have an entry.
pub open spec fn keys_of(entries: Seq<Entry>) -> Set<AddressKey> {
    Set::new(|key: AddressKey| has_key(entries, key))
}

/// The first `n` entries, or all of them if there are no more than that.
pub open spec fn first_entries(entries: Seq<Entry>, n: nat) -> Seq<Entry> {
    if entries.len() <= n {
        entries
    } else {
        entries.take(n as int)
    }
}

/// Whether no entry after position `k` of `log` is for the address of that at `k`.
pub open spec fn is_latest(log: Seq<Entry>, k: int) -> bool {
    forall|j: int| k < j < log.len() ==> (#[trigger] log[j]).0 != log[k].0
}

/// The positions in `log` of the latest entry for each address, from the end of `log`
/// to its start.
pub open spec fn latest_positions(log: Seq<Entry>) -> Seq<int> {
    Seq::new(log.len(), |i: int| log.len() - 1 - i).filter(|k: int| is_latest(log, k))
}

/// The latest entry in `log` for each address, from the end of `log` to its start.
pub open spec fn latest_first(log: Seq<Entry>) -> Seq<Entry> {
    latest_positions(log).map_values(|k: int| log[k])
}

pub(crate) proof fn lemma_keys_of_push(entries: Seq<Entry>, e: Entry)
    ensures
        keys_of(entries.push(e)) == keys_of(entries).insert(e.0),
{
    let more = entries.push(e);
    assert forall|key: AddressKey| has_key(more, key) <==> key == e.0 || has_key(entries, key) by {
        if has_key(entries, key) {
            let i = choose|i: int| 0 <= i < entries.len() && (#[trigger] entries[i]).0 == key;
            assert(more[i].0 == key);
        }
        if key == e.0 {
            assert(more[entries.len() as int].0 == key);
        }
        if has_key(more, key) && key != e.0 {
            let i = choose|i: int| 0 <= i < more.len() && (#[trigger] more[i]).0 == key;
            assert(entries[i].0 == key);
        }
    }
    assert(keys_of(more) =~= keys_of(entries).insert(e.0));
}

pub(crate) proof fn lemma_keys_of_finite(entries: Seq<Entry>)
    ensures
        keys_of(entries).finite(),
    decreases entries.len(),
{
    if entries.len() == 0 {
        assert(keys_of(entries) =~= Set::empty());
    } else {
        lemma_keys_of_finite(entries.drop_last());
        lemma_keys_of_push(entries.drop_last(), entries.last());
        assert(entries.drop_last().push(entries.last()) =~= entries);
    }
}

/// There are no more entries for different addresses than there are addresses.
pub(crate) proof fn lemma_unique_prefix_bound(entries: Seq<Entry>, n: nat, keys: Set<AddressKey>)
    requires
        keys_unique(entries),
        n <= entries.len(),
        keys.finite(),
        forall|m: int| 0 <= m < n ==> keys.contains((#[trigger] entries[m]).0),
    ensures
        n <= keys.len(),
    decreases n,
{
    if n > 0 {
        let last = entries[n - 1].0;
        assert(keys.contains(last));
        lemma_unique_prefix_bound(entries, (n - 1) as nat, keys.remove(last));
    }
}

/// Filtering positions of a log by whether they are the latest, and then dropping those
/// for one address, is to filter them in the log that ends with that address.
proof fn lemma_latest_among(log: Seq<Entry>, e: Entry, positions: Seq<int>)
    requires
        forall|i: int| 0 <= i < positions.len() ==> 0 <= #[trigger] positions[i] < log.len(),
    ensures
        positions.filter(|k: int| is_latest(log.push(e), k)).map_values(|k: int| log.push(e)[k])
            == others(
            positions.filter(|k: int| is_latest(log, k)).map_values(|k: int| log[k]),
            e.0,
        ),
    decreases positions.len(),
{
    reveal(Seq::filter);
    let longer = log.push(e);
    let in_longer = |k: int| is_latest(longer, k);
    let in_log = |k: int| is_latest(log, k);
    let at_longer = |k: int| longer[k];
    let at = |k: int| log[k];
    if positions.len() == 0 {
        assert(positions.filter(in_longer).map_values(at_longer) =~= Seq::empty());
        assert(positions.filter(in_log).map_values(at) =~= Seq::empty());
    } else {
        let init = positions.drop_last();
        let k = positions.last();
        assert forall|i: int| 0 <= i < init.len() implies 0 <= #[trigger] init[i] < log.len() by {
            assert(init[i] == positions[i]);
        }
        lemma_latest_among(log, e, init);
        assert(0 <= positions[positions.len() - 1] < log.len());
        assert(longer[k] == log[k]);
        assert(is_latest(longer, k) <==> is_latest(log, k) && log[k].0 != e.0) by {
            if is_latest(longer, k) {
                assert(longer[log.len() as int].0 != log[k].0);
                assert forall|j: int| k < j < log.len() implies (#[trigger] log[j]).0 != log[k].0 by {
                    assert(longer[j] == log[j]);
                }
            }
        }
        let kept = init.filter(in_log).map_values(at);
        if is_latest(log, k) {
            assert(positions.filter(in_log).map_values(at) =~= kept.push(log[k]));
            assert(kept.push(log[k]).drop_last() =~= kept);
        }
        if is_latest(longer, k) {
            assert(positions.filter(in_longer).map_values(at_longer) =~= init.filter(
                in_longer,
            ).map_values(at_longer).push(log[k]));
        }
    }
}

/// One more entry in a log comes first among the latest, and replaces that of its address.
pub(crate) proof fn lemma_latest_first_push(log: Seq<Entry>, e: Entry)
    ensures
        latest_first(log.push(e)) == seq![e] + others(latest_first(log), e.0),
{
    reveal(Seq::filter);
    let longer = log.push(e);
    let n = log.len() as int;
    let in_longer = |k: int| is_latest(longer, k);
    let at_longer = |k: int| longer[k];
    let back = Seq::new(log.len(), |i: int| log.len() - 1 - i);
    let head = seq![n];
    assert(Seq::new(longer.len(), |i: int| longer.len() - 1 - i) =~= head + back);
    Seq::filter_distributes_over_add(head, back, in_longer);
    assert(is_latest(longer, n));
    assert(head.drop_last() =~= Seq::empty());
    assert(head.drop_last().filter(in_longer) =~= Seq::empty());
    assert(head.filter(in_longer) =~= head);
    lemma_latest_among(log, e, back);
    assert(latest_first(longer) =~= seq![e] + back.filter(in_longer).map_values(at_longer));
}

/// A put into the first entries of a longer list gives the first entries of what the
/// same put, without a limit, makes of the list.
pub(crate) proof fn lemma_put_into_first_entries(
    all: Seq<Entry>,
    capacity: nat,
    key: AddressKey,
    value: nat,
)
    requires
        0 < capacity,
        keys_unique(first_entries(all, capacity)),
    ensures
        after_put(first_entries(all, capacity), capacity, key, value) == first_entries(
            seq![(key, value)] + others(all, key),
            capacity,
        ),
{
    let kept = first_entries(all, capacity);
    let result = after_put(kept, capacity, key, value);
    let unlimited = seq![(key, value)] + others(all, key);
    if all.len() <= capacity {
        assert(result =~= first_entries(unlimited, capacity));
    } else {
        let dropped = all.skip(capacity as int);
        assert(all =~= kept + dropped);
        lemma_others_add(kept, dropped, key);
        if has_key(kept, key) {
            lemma_others_of_known_key(kept, key);
        } else {
            lemma_others_all(kept, key);
        }
        assert(result =~= first_entries(unlimited, capacity));
    }
}

/// The largest capacity for which the hash table inside the cache, which is made for
/// the whole capacity at once and may double later, fits in `isize::MAX` bytes.
pub open spec fn max_history_capacity_spec() -> nat {
    if usize::BITS == 32 {
        ((usize::MAX / 512 + 1) * 7) as nat
    } else {
        ((usize::MAX / 1024 + 1) * 7) as nat
    }
}

/// The largest capacity that a request history can be made with.
pub fn max_history_capacity() -> (capacity: usize)
    ensures
        capacity == max_history_capacity_spec(),
{
    if usize::BITS == 32 {
        (usize::MAX / 512 + 1) * 7
    } else {
        (usize::MAX / 1024 + 1) * 7
    }
}

/// Calls `LruCache::new`: the cache is empty and holds at most `capacity` entries.
/// The capacity is positive and within [`max_history_capacity`]: a hash table that is
/// larger than `isize::MAX` bytes panics with a capacity overflow.
#[verifier::external_body]
pub(crate) fn history_new(capacity: usize) -> (history: LruCache<AddressKey, u128>)
    requires
        0 < capacity <= max_history_capacity_spec(),
    ensures
        history_entries(history) == Seq::<Entry>::empty(),
        history_capacity(history) == capacity,
{
    LruCache::new(NonZeroUsize::new(capacity).unwrap())
}

/// Calls `LruCache::put`: the entry for `key` is replaced, or added, and becomes the
/// most recent one; where there was none and the cache is full, the least recent
/// entry leaves. The value that was replaced is returned, if there was one.
#[verifier::external_body]
pub(crate) fn history_put(
    history: &mut LruCache<AddressKey, u128>,
    key: AddressKey,
    value: u128,
) -> (replaced: Option<u128>)
    ensures
        history_entries(*final(history)) == after_put(
            history_entries(*old(history)),
            history_capacity(*old(history)),
            key,
            value as nat,
        ),
        history_capacity(*final(history)) == history_capacity(*old(history)),
        match replaced {
            Some(v) => history_entries(*old(history)).contains((key, v as nat)),
            None => !has_key(history_entries(*old(history)), key),
        },
{
    history.put(key, value)
}

/// Calls `LruCache::peek`: the value of the entry for `key`, if there is one. The
/// cache stays as it is, its order included.
#[verifier::external_body]
pub(crate) fn history_peek(history: &LruCache<AddressKey, u128>, key: AddressKey) -> (value: Option<
    u128,
>)
    ensures
        match value {
            Some(v) => history_entries(*history).contains((key, v as nat)),
            None => !has_key(history_entries(*history), key),
        },
{
    history.peek(&key).copied()
}

/// Calls `LruCache::len`: the number of entries.
#[verifier::external_body]
pub(crate) fn history_len(history: &LruCache<AddressKey, u128>) -> (len: usize)
    ensures
        len == history_entries(*history).len(),
{
    history.len()
}

} // verus!
