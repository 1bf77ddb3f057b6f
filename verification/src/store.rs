//! The counter store: one fixed-window counter per client identity and rule,
//! held in order of last use and bounded in number.

use vstd::prelude::*;
use crate::rule::{Rule, RuleId};

verus! {

/// What a counter is kept for: one client identity under one rule.
pub struct CounterKey {
    pub identity: Seq<char>,
    pub rule: RuleId,
}

/// The usage counted in one window.
pub struct Counter {
    /// Requests admitted since the window began.
    pub count: nat,
    /// The instant at which the window began.
    pub window_start: nat,
    /// The length of the window.
    pub window: nat,
}

/// One resident counter together with its key.
pub struct Slot {
    pub key: CounterKey,
    pub counter: Counter,
}

/// One request as the store sees it: whom it is counted for, under which
/// quota, and when.
pub struct Request {
    pub key: CounterKey,
    pub limit: nat,
    pub window: nat,
    pub now: nat,
}

/// The outcome of counting one request against one rule.
#[derive(Clone, Copy, Debug, PartialEq, Eq, Structural)]
pub enum Decision {
    Admit,
    Reject,
}

impl Counter {
    /// The window of the counter is over at `now`.
    pub open spec fn stale(self, now: nat) -> bool {
        now >= self.window_start + self.window
    }
}

/// True when a window of length `window` that began with `counter` is over
/// at `now`.
pub open spec fn window_elapsed(counter: Counter, window: nat, now: nat) -> bool {
    now >= counter.window_start + window
}

/// The counter that a request at `now` is counted against: the resident one
/// while its window lasts, otherwise an empty one whose window begins at `now`.
pub open spec fn current_counter(found: Option<Counter>, window: nat, now: nat) -> Counter {
    match found {
        Some(counter) if !window_elapsed(counter, window, now) => Counter {
            count: counter.count,
            window_start: counter.window_start,
            window,
        },
        _ => Counter { count: 0, window_start: now, window },
    }
}

/// Counts one request: the counter afterwards, and whether the request was
/// admitted. A request is admitted while fewer than `limit` were admitted in
/// the window; a rejected request leaves the count where it is.
pub open spec fn tick(found: Option<Counter>, limit: nat, window: nat, now: nat) -> (
    Counter,
    bool,
) {
    let counter = current_counter(found, window, now);
    if counter.count < limit {
        (
            Counter {
                count: counter.count + 1,
                window_start: counter.window_start,
                window: counter.window,
            },
            true,
        )
    } else {
        (counter, false)
    }
}

/// The slots that stay when room is made for one more: the least recently
/// used leave first, until fewer than `capacity` are left.
pub open spec fn make_room(slots: Seq<Slot>, capacity: nat) -> Seq<Slot> {
    if slots.len() < capacity {
        slots
    } else {
        slots.skip(slots.len() - capacity + 1)
    }
}

/// The test that a slot passes while its window lasts at `now`.
pub open spec fn in_window(now: nat) -> spec_fn(Slot) -> bool {
    |slot: Slot| !slot.counter.stale(now)
}

/// How many of `requests` are for `key`.
pub open spec fn served_for(requests: Seq<Request>, key: CounterKey) -> nat
    decreases requests.len(),
{
    if requests.len() == 0 {
        0
    } else {
        served_for(requests.drop_last(), key) + if requests.last().key == key {
            1nat
        } else {
            0nat
        }
    }
}

/// The position of the last of `requests` that is for `key`, or -1 where
/// none is.
pub open spec fn last_use(requests: Seq<Request>, key: CounterKey) -> int
    decreases requests.len(),
{
    if requests.len() == 0 {
        -1
    } else if requests.last().key == key {
        requests.len() - 1
    } else {
        last_use(requests.drop_last(), key)
    }
}

/// The abstract state of a counter store.
pub struct CountersView {
    /// The resident counters, least recently used first.
    pub slots: Seq<Slot>,
    /// The most counters that are ever resident.
    pub capacity: nat,
}

impl CountersView {
    /// No key is resident twice, and the residents fit the capacity.
    pub open spec fn wf(self) -> bool {
        &&& 1 <= self.capacity
        &&& self.slots.len() <= self.capacity
        &&& forall|i: int, j: int|
            0 <= i < j < self.slots.len() ==> (#[trigger] self.slots[i]).key != (
            #[trigger] self.slots[j]).key
    }

    /// Whether a counter is kept for `key`.
    pub open spec fn resident(self, key: CounterKey) -> bool {
        exists|i: int| 0 <= i < self.slots.len() && (#[trigger] self.slots[i]).key == key
    }

    /// The position of `key` among the slots, where it is resident.
    pub open spec fn position(self, key: CounterKey) -> int {
        choose|i: int| 0 <= i < self.slots.len() && (#[trigger] self.slots[i]).key == key
    }

    /// The counter kept for `key`, if one is resident.
    pub open spec fn get(self, key: CounterKey) -> Option<Counter> {
        if self.resident(key) {
            Some(self.slots[self.position(key)].counter)
        } else {
            None
        }
    }

    /// The slots other than that of `key`, after room was made for it if it
    /// was not resident.
    pub open spec fn others(self, key: CounterKey) -> Seq<Slot> {
        if self.resident(key) {
            self.slots.remove(self.position(key))
        } else {
            make_room(self.slots, self.capacity)
        }
    }

    /// One request for `key` under a quota of `limit` requests per `window`,
    /// arriving at `now`: the store afterwards and whether the request was
    /// admitted. The counter of `key` becomes the most recently used.
    pub open spec fn observe(self, key: CounterKey, limit: nat, window: nat, now: nat) -> (
        CountersView,
        bool,
    ) {
        let (counter, admitted) = tick(self.get(key), limit, window, now);
        (
            CountersView {
                slots: self.others(key).push(Slot { key, counter }),
                capacity: self.capacity,
            },
            admitted,
        )
    }

    /// One request: the store afterwards and whether the request was admitted.
    pub open spec fn serve(self, request: Request) -> (CountersView, bool) {
        self.observe(request.key, request.limit, request.window, request.now)
    }

    /// The store after `requests` were served in turn.
    pub open spec fn replay(self, requests: Seq<Request>) -> CountersView
        decreases requests.len(),
    {
        if requests.len() == 0 {
            self
        } else {
            self.replay(requests.drop_last()).serve(requests.last()).0
        }
    }

    /// Whether the request at position `n` of `requests` is admitted when
    /// they are served in turn.
    pub open spec fn admits_nth(self, requests: Seq<Request>, n: int) -> bool {
        self.replay(requests.take(n)).serve(requests[n]).1
    }

    /// The store without the counters whose window is over at `now`.
    pub open spec fn purged(self, now: nat) -> CountersView {
        CountersView { slots: self.slots.filter(in_window(now)), capacity: self.capacity }
    }
}

/// In a well-formed store the counter of a slot is the one kept for its key.
pub proof fn lemma_get_slot(store: CountersView, i: int)
    requires
        store.wf(),
        0 <= i < store.slots.len(),
    ensures
        store.resident(store.slots[i].key),
        store.position(store.slots[i].key) == i,
        store.get(store.slots[i].key) == Some(store.slots[i].counter),
{
}

/// Where the slot at `i` beside that of `key` stood in the store.
spec fn origin(store: CountersView, key: CounterKey, i: int) -> int {
    if store.resident(key) {
        if i < store.position(key) {
            i
        } else {
            i + 1
        }
    } else {
        i + (store.slots.len() - make_room(store.slots, store.capacity).len())
    }
}

/// The slots beside that of `key` are slots of the store, none of them for
/// `key`, and few enough to leave room for one more.
proof fn lemma_others(store: CountersView, key: CounterKey)
    requires
        store.wf(),
    ensures
        store.others(key).len() < store.capacity,
        store.resident(key) ==> store.others(key).len() == store.slots.len() - 1 && 0
            <= store.position(key) < store.slots.len() && store.slots[store.position(key)].key
            == key,
        !store.resident(key) ==> store.slots.len() - 1 <= store.others(key).len()
            <= store.slots.len(),
        !store.resident(key) && store.others(key).len() < store.slots.len() ==> store.slots.len()
            == store.capacity,
        forall|i: int|
            0 <= i < store.others(key).len() ==> {
                &&& 0 <= origin(store, key, i) < store.slots.len()
                &&& (#[trigger] store.others(key)[i]) == store.slots[origin(store, key, i)]
                &&& store.others(key)[i].key != key
            },
{
    let rest = store.others(key);
    if store.resident(key) {
        assert forall|i: int| 0 <= i < rest.len() implies 0 <= origin(store, key, i)
            < store.slots.len() && (#[trigger] rest[i]) == store.slots[origin(store, key, i)]
            && rest[i].key != key by {
            lemma_get_slot(store, origin(store, key, i));
            lemma_get_slot(store, store.position(key));
        }
    }
}

/// Serving a request keeps a store well-formed: it never holds more counters
/// than its capacity, and none twice.
pub proof fn lemma_observe_keeps_wf(
    store: CountersView,
    key: CounterKey,
    limit: nat,
    window: nat,
    now: nat,
)
    requires
        store.wf(),
    ensures
        store.observe(key, limit, window, now).0.wf(),
        store.observe(key, limit, window, now).0.capacity == store.capacity,
{
    lemma_others(store, key);
}

/// A request is decided by the counter of its own key alone, and leaves that
/// counter as the most recently used.
pub proof fn lemma_observe_counts(
    store: CountersView,
    key: CounterKey,
    limit: nat,
    window: nat,
    now: nat,
)
    requires
        store.wf(),
    ensures
        store.observe(key, limit, window, now).1 == tick(store.get(key), limit, window, now).1,
        store.observe(key, limit, window, now).0.get(key) == Some(
            tick(store.get(key), limit, window, now).0,
        ),
        store.observe(key, limit, window, now).0.slots.last().key == key,
{
    let after = store.observe(key, limit, window, now).0;
    lemma_observe_keeps_wf(store, key, limit, window, now);
    lemma_get_slot(after, after.slots.len() - 1);
}

/// Counters do not touch one another: a request for one key leaves the
/// counter of every other key as it was. The one exception is eviction, and
/// it takes the least recently used counter only, when the store is full and
/// the request is for a key that is not resident.
pub proof fn lemma_observe_leaves_others(
    store: CountersView,
    key: CounterKey,
    other: CounterKey,
    limit: nat,
    window: nat,
    now: nat,
)
    requires
        store.wf(),
        other != key,
    ensures
        ({
            let after = store.observe(key, limit, window, now).0;
            ||| after.get(other) == store.get(other)
            ||| {
                &&& after.get(other) is None
                &&& !store.resident(key)
                &&& store.slots.len() == store.capacity
                &&& store.slots[0].key == other
            }
        }),
{
    let after = store.observe(key, limit, window, now).0;
    let rest = store.others(key);
    lemma_observe_keeps_wf(store, key, limit, window, now);
    lemma_others(store, key);
    if after.resident(other) {
        let p = after.position(other);
        lemma_get_slot(after, p);
        lemma_get_slot(store, origin(store, key, p));
    } else if store.resident(other) {
        let q = store.position(other);
        let gone = store.slots.len() - rest.len();
        let i = if store.resident(key) {
            if q < store.position(key) {
                q
            } else {
                q - 1
            }
        } else {
            q - gone
        };
        if 0 <= i < rest.len() {
            assert(after.slots[i].key == other);
            assert(false);
        }
    }
}

/// A request that finds no counter for its key, or one whose window is
/// over, begins a new window at its own instant and is admitted, whatever was
/// counted before.
pub proof fn lemma_new_window(store: CountersView, key: CounterKey, limit: nat, window: nat, now: nat)
    requires
        store.wf(),
        limit >= 1,
        store.get(key) matches Some(counter) ==> window_elapsed(counter, window, now),
    ensures
        store.observe(key, limit, window, now).1,
        store.observe(key, limit, window, now).0.get(key) == Some(
            Counter { count: 1, window_start: now, window },
        ),
{
    lemma_observe_counts(store, key, limit, window, now);
}

/// When a full store is asked about a key that is not resident, the counter
/// that leaves is the least recently used one, and no other.
pub proof fn lemma_eviction_takes_least_recent(
    store: CountersView,
    key: CounterKey,
    limit: nat,
    window: nat,
    now: nat,
)
    requires
        store.wf(),
        !store.resident(key),
        store.slots.len() == store.capacity,
    ensures
        store.observe(key, limit, window, now).0.slots == store.slots.drop_first().push(
            Slot { key, counter: tick(None, limit, window, now).0 },
        ),
{
}

/// Every counter in a store that began empty is there because a request
/// asked for its key.
pub proof fn lemma_resident_was_requested(store: CountersView, requests: Seq<Request>, i: int)
    requires
        store.wf(),
        store.slots.len() == 0,
        0 <= i < store.replay(requests).slots.len(),
    ensures
        store.replay(requests).wf(),
        0 <= last_use(requests, store.replay(requests).slots[i].key) < requests.len(),
    decreases requests.len(),
{
    lemma_replay_keeps_wf(store, requests);
    if requests.len() > 0 {
        let before = store.replay(requests.drop_last());
        let request = requests.last();
        lemma_replay_keeps_wf(store, requests.drop_last());
        lemma_others(before, request.key);
        let rest = before.others(request.key);
        if i < rest.len() {
            lemma_resident_was_requested(store, requests.drop_last(), origin(before, request.key, i));
        }
    }
}

/// The slots of a store that began empty stand in the order in which their
/// keys were last asked for: the first slot is the least recently used.
pub proof fn lemma_slots_in_order_of_use(
    store: CountersView,
    requests: Seq<Request>,
    i: int,
    j: int,
)
    requires
        store.wf(),
        store.slots.len() == 0,
        0 <= i < j < store.replay(requests).slots.len(),
    ensures
        last_use(requests, store.replay(requests).slots[i].key) < last_use(
            requests,
            store.replay(requests).slots[j].key,
        ),
    decreases requests.len(),
{
    if requests.len() > 0 {
        let before = store.replay(requests.drop_last());
        let request = requests.last();
        lemma_replay_keeps_wf(store, requests.drop_last());
        lemma_others(before, request.key);
        let rest = before.others(request.key);
        let from = origin(before, request.key, i);
        if j < rest.len() {
            lemma_slots_in_order_of_use(
                store,
                requests.drop_last(),
                from,
                origin(before, request.key, j),
            );
        } else {
            lemma_resident_was_requested(store, requests.drop_last(), from);
        }
    }
}

/// Serving requests in turn keeps a store well-formed.
pub proof fn lemma_replay_keeps_wf(store: CountersView, requests: Seq<Request>)
    requires
        store.wf(),
    ensures
        store.replay(requests).wf(),
        store.replay(requests).capacity == store.capacity,
    decreases requests.len(),
{
    if requests.len() > 0 {
        lemma_replay_keeps_wf(store, requests.drop_last());
        let request = requests.last();
        lemma_observe_keeps_wf(
            store.replay(requests.drop_last()),
            request.key,
            request.limit,
            request.window,
            request.now,
        );
    }
}

/// The counter of `key` after the first `served` of `requests`, when the
/// first of them began a window for `key`, all of them for `key` fall into
/// that window, and the counter stayed resident.
proof fn lemma_window_counter(
    store: CountersView,
    requests: Seq<Request>,
    key: CounterKey,
    limit: nat,
    window: nat,
    served: int,
)
    requires
        store.wf(),
        1 <= served <= requests.len(),
        requests[0].key == key,
        store.get(key) matches Some(counter) ==> window_elapsed(counter, window, requests[0].now),
        forall|i: int|
            0 <= i < requests.len() && (#[trigger] requests[i]).key == key ==> {
                &&& requests[i].limit == limit
                &&& requests[i].window == window
                &&& requests[0].now <= requests[i].now < requests[0].now + window
            },
        forall|i: int|
            1 <= i <= served ==> (#[trigger] store.replay(requests.take(i))).resident(key),
    ensures
        store.replay(requests.take(served)).wf(),
        store.replay(requests.take(served)).get(key) == Some(
            Counter {
                count: if served_for(requests.take(served), key) < limit {
                    served_for(requests.take(served), key)
                } else {
                    limit
                },
                window_start: requests[0].now,
                window,
            },
        ),
    decreases served,
{
    let upto = requests.take(served);
    let request = requests[served - 1];
    assert(upto.drop_last() =~= requests.take(served - 1));
    let before = store.replay(requests.take(served - 1));
    if served > 1 {
        lemma_window_counter(store, requests, key, limit, window, served - 1);
    }
    lemma_observe_keeps_wf(before, request.key, request.limit, request.window, request.now);
    if request.key == key {
        lemma_observe_counts(before, key, limit, window, request.now);
    } else {
        lemma_observe_leaves_others(
            before,
            request.key,
            key,
            request.limit,
            request.window,
            request.now,
        );
    }
}

/// The quota holds in every window: of the requests for one key that fall
/// into the window that the first of them began, one is admitted exactly if
/// fewer than `limit` came before it. So the first `limit` are admitted and
/// every later one is rejected, whatever is asked of other keys in between,
/// for as long as the counter stays resident.
pub proof fn lemma_quota_per_window(
    store: CountersView,
    requests: Seq<Request>,
    key: CounterKey,
    limit: nat,
    window: nat,
    n: int,
)
    requires
        store.wf(),
        0 <= n < requests.len(),
        requests[n].key == key,
        requests[0].key == key,
        store.get(key) matches Some(counter) ==> window_elapsed(counter, window, requests[0].now),
        forall|i: int|
            0 <= i < requests.len() && (#[trigger] requests[i]).key == key ==> {
                &&& requests[i].limit == limit
                &&& requests[i].window == window
                &&& requests[0].now <= requests[i].now < requests[0].now + window
            },
        forall|i: int| 1 <= i <= n ==> (#[trigger] store.replay(requests.take(i))).resident(key),
    ensures
        store.admits_nth(requests, n) == (served_for(requests.take(n), key) < limit),
{
    let before = store.replay(requests.take(n));
    if n > 0 {
        lemma_window_counter(store, requests, key, limit, window, n);
    }
    lemma_observe_counts(before, key, limit, window, requests[n].now);
}

/// A purge of the counters whose window is over is never noticed: a request
/// that comes no earlier than the purge is decided as it would have been
/// without it.
pub proof fn lemma_purge_keeps_verdicts(
    store: CountersView,
    purged_at: nat,
    key: CounterKey,
    limit: nat,
    window: nat,
    now: nat,
)
    requires
        store.wf(),
        purged_at <= now,
        store.get(key) matches Some(counter) ==> counter.window == window,
    ensures
        store.purged(purged_at).wf(),
        store.purged(purged_at).observe(key, limit, window, now).1 == store.observe(
            key,
            limit,
            window,
            now,
        ).1,
        tick(store.purged(purged_at).get(key), limit, window, now) == tick(
            store.get(key),
            limit,
            window,
            now,
        ),
{
    let after = store.purged(purged_at);
    lemma_purged(store, purged_at);
    lemma_observe_counts(store, key, limit, window, now);
    lemma_observe_counts(after, key, limit, window, now);
    if after.resident(key) {
        lemma_get_slot(after, after.position(key));
    } else if store.resident(key) {
        lemma_get_slot(store, store.position(key));
    }
}

/// What a purge leaves: the slots whose window lasts, each with the counter
/// the store kept for it, in a well-formed store.
proof fn lemma_purged(store: CountersView, now: nat)
    requires
        store.wf(),
    ensures
        store.purged(now).wf(),
        forall|i: int|
            0 <= i < store.purged(now).slots.len() ==> {
                &&& in_window(now)(#[trigger] store.purged(now).slots[i])
                &&& store.get(store.purged(now).slots[i].key) == Some(
                    store.purged(now).slots[i].counter,
                )
            },
        forall|q: int|
            0 <= q < store.slots.len() && in_window(now)(#[trigger] store.slots[q]) ==> exists|
                i: int,
            |
                0 <= i < store.purged(now).slots.len() && #[trigger] store.purged(now).slots[i]
                    == store.slots[q],
{
    lemma_kept_in_order(store.slots, in_window(now));
    let kept = store.slots.filter(in_window(now));
    let source = choose|source: Seq<int>| picks(store.slots, in_window(now), kept, source);
    assert forall|i: int| 0 <= i < kept.len() implies in_window(now)(#[trigger] kept[i])
        && store.get(kept[i].key) == Some(kept[i].counter) by {
        lemma_get_slot(store, source[i]);
    }
    assert forall|i: int, j: int| 0 <= i < j < kept.len() implies (#[trigger] kept[i]).key != (
    #[trigger] kept[j]).key by {
        assert(source[i] < source[j]);
    }
    assert(kept.len() <= store.slots.len()) by {
        store.slots.lemma_filter_len(in_window(now));
    }
}

/// `kept` holds the slots of `slots` that pass `test`, the slot at `i` taken
/// from position `source[i]`, positions rising.
spec fn picks(slots: Seq<Slot>, test: spec_fn(Slot) -> bool, kept: Seq<Slot>, source: Seq<int>) -> bool {
    &&& source.len() == kept.len()
    &&& forall|i: int|
        0 <= i < kept.len() ==> 0 <= (#[trigger] source[i]) < slots.len() && kept[i]
            == slots[source[i]] && test(kept[i])
    &&& forall|i: int, j: int|
        0 <= i < j < kept.len() ==> (#[trigger] source[i]) < (#[trigger] source[j])
    &&& forall|q: int|
        0 <= q < slots.len() && test(#[trigger] slots[q]) ==> exists|i: int|
            0 <= i < kept.len() && #[trigger] source[i] == q
}

/// A filter keeps exactly the slots that pass, in their order.
proof fn lemma_kept_in_order(slots: Seq<Slot>, test: spec_fn(Slot) -> bool)
    ensures
        exists|source: Seq<int>| picks(slots, test, slots.filter(test), source),
    decreases slots.len(),
{
    reveal(Seq::filter);
    if slots.len() == 0 {
        assert(picks(slots, test, slots.filter(test), Seq::<int>::empty()));
    } else {
        let front = slots.drop_last();
        lemma_kept_in_order(front, test);
        let source = choose|source: Seq<int>| picks(front, test, front.filter(test), source);
        let kept = slots.filter(test);
        let last = slots.len() - 1;
        if test(slots.last()) {
            let all = source.push(last);
            assert forall|q: int| 0 <= q < slots.len() && test(#[trigger] slots[q]) implies exists|
                i: int,
            |
                0 <= i < kept.len() && #[trigger] all[i] == q by {
                if q < last {
                    assert(front[q] == slots[q]);
                    let i = choose|i: int| 0 <= i < source.len() && #[trigger] source[i] == q;
                    assert(all[i] == q);
                } else {
                    assert(all[source.len() as int] == q);
                }
            }
            assert(picks(slots, test, kept, all));
        } else {
            assert forall|q: int| 0 <= q < slots.len() && test(#[trigger] slots[q]) implies exists|
                i: int,
            |
                0 <= i < kept.len() && #[trigger] source[i] == q by {
                assert(front[q] == slots[q]);
            }
            assert(picks(slots, test, kept, source));
        }
    }
}

/// A resident counter as the store holds it.
#[derive(Debug)]
pub struct CounterEntry {
    identity: String,
    rule: RuleId,
    count: u32,
    window_start: u64,
    window: u64,
}

impl CounterEntry {
    /// The entry as the contracts speak of it.
    pub closed spec fn slot(&self) -> Slot {
        Slot {
            key: CounterKey { identity: self.identity@, rule: self.rule },
            counter: Counter {
                count: self.count as nat,
                window_start: self.window_start as nat,
                window: self.window as nat,
            },
        }
    }
}

/// The room that one resident counter is taken to need, in bytes.
pub const ENTRY_FOOTPRINT: usize = 128;

/// A bounded set of counters in order of last use. A counter is found by
/// going through the resident ones, so every operation takes time in
/// proportion to their number. The store is changed through `&mut` only:
/// whoever shares it among threads puts it behind a lock, and each operation
/// is then one step for all of them.
#[derive(Debug)]
pub struct CounterStore {
    entries: Vec<CounterEntry>,
    capacity: usize,
}

spec fn slots_of(entries: Seq<CounterEntry>) -> Seq<Slot> {
    entries.map_values(|e: CounterEntry| e.slot())
}

/// The position of the entry kept for `identity` under `rule`, if there is one.
fn find_entry(entries: &Vec<CounterEntry>, identity: &String, rule: RuleId) -> (found: Option<usize>)
    ensures
        match found {
            Some(i) => i < entries.len() && slots_of(entries@)[i as int].key == (CounterKey {
                identity: identity@,
                rule,
            }),
            None => forall|i: int|
                0 <= i < entries.len() ==> (#[trigger] slots_of(entries@)[i]).key != (CounterKey {
                    identity: identity@,
                    rule,
                }),
        },
{
    let mut i: usize = 0;
    while i < entries.len()
        invariant
            i <= entries.len(),
            forall|j: int|
                0 <= j < i ==> (#[trigger] slots_of(entries@)[j]).key != (CounterKey {
                    identity: identity@,
                    rule,
                }),
        decreases entries.len() - i,
    {
        if entries[i].rule == rule && entries[i].identity == *identity {
            return Some(i);
        }
        i += 1;
    }
    None
}

impl CounterStore {
    /// What holds of every store: its state is well-formed.
    #[verifier::type_invariant]
    pub open spec fn inv(self) -> bool {
        self.view().wf()
    }

    /// The resident counters in order of last use, and the capacity.
    pub closed spec fn view(&self) -> CountersView {
        CountersView { slots: slots_of(self.entries@), capacity: self.capacity as nat }
    }

    /// An empty store that keeps at most `budget` counters resident, and at
    /// least the one it is asked about.
    pub fn new(budget: usize) -> (store: Self)
        ensures
            store@.slots.len() == 0,
            store@.capacity == if budget == 0 {
                1
            } else {
                budget as nat
            },
            store@.wf(),
    {
        let capacity: usize = if budget == 0 {
            1
        } else {
            budget
        };
        CounterStore { entries: Vec::new(), capacity }
    }

    /// An empty store for a memory ceiling of `bytes`: it keeps as many
    /// counters as the ceiling has room for at `ENTRY_FOOTPRINT` each.
    pub fn with_memory_ceiling(bytes: usize) -> (store: Self)
        ensures
            store@.slots.len() == 0,
            store@.capacity == if bytes < ENTRY_FOOTPRINT {
                1
            } else {
                bytes as nat / ENTRY_FOOTPRINT as nat
            },
            store@.wf(),
    {
        CounterStore::new(bytes / ENTRY_FOOTPRINT)
    }

    /// The number of resident counters.
    pub fn len(&self) -> (n: usize)
        ensures
            n == self@.slots.len(),
            n <= self@.capacity,
    {
        proof {
            use_type_invariant(self);
        }
        self.entries.len()
    }

    /// The most counters that are ever resident.
    pub fn capacity(&self) -> (n: usize)
        ensures
            n == self@.capacity,
            n >= 1,
    {
        proof {
            use_type_invariant(self);
        }
        self.capacity
    }

    /// The count kept for `identity` under the rule `id`, if a counter is
    /// resident for them.
    pub fn usage(&self, identity: &str, id: RuleId) -> (count: Option<u32>)
        ensures
            match count {
                Some(n) => self@.get(CounterKey { identity: identity@, rule: id }) is Some
                    && self@.get(CounterKey { identity: identity@, rule: id })->0.count == n,
                None => self@.get(CounterKey { identity: identity@, rule: id }) is None,
            },
    {
        proof {
            use_type_invariant(self);
        }
        let who = identity.to_owned();
        match find_entry(&self.entries, &who, id) {
            Some(i) => {
                proof {
                    lemma_get_slot(self@, i as int);
                }
                Some(self.entries[i].count)
            },
            None => None,
        }
    }

    /// Counts one request of `identity` at the instant `now` against `rule`,
    /// which the registry knows as `id`.
    pub fn check_and_increment(&mut self, identity: &str, id: RuleId, rule: &Rule, now: u64) -> (decision:
        Decision)
        ensures
            (final(self)@, decision == Decision::Admit) == old(self)@.observe(
                CounterKey { identity: identity@, rule: id },
                rule@.limit,
                rule@.window,
                now as nat,
            ),
            final(self)@.wf(),
    {
        proof {
            use_type_invariant(&*self);
        }
        let ghost key = CounterKey { identity: identity@, rule: id };
        let ghost before = self@;
        let limit = rule.limit;
        let window = rule.window;
        let who = identity.to_owned();
        let mut entries: Vec<CounterEntry> = Vec::new();
        std::mem::swap(&mut entries, &mut self.entries);
        let mut entry = match find_entry(&entries, &who, id) {
            Some(i) => {
                let found = entries.remove(i);
                if now >= found.window_start && now - found.window_start >= window {
                    CounterEntry { identity: who, rule: id, count: 0, window_start: now, window }
                } else {
                    CounterEntry {
                        identity: who,
                        rule: id,
                        count: found.count,
                        window_start: found.window_start,
                        window,
                    }
                }
            },
            None => {
                if entries.len() >= self.capacity {
                    let _ = entries.remove(0);
                }
                CounterEntry { identity: who, rule: id, count: 0, window_start: now, window }
            },
        };
        assert(slots_of(entries@) == before.others(key));
        assert(entry.slot().counter == current_counter(
            before.get(key),
            window as nat,
            now as nat,
        ));
        let decision = if entry.count < limit {
            entry.count = entry.count + 1;
            Decision::Admit
        } else {
            Decision::Reject
        };
        let ghost rest = entries@;
        entries.push(entry);
        assert(slots_of(entries@) =~= slots_of(rest).push(entry.slot()));
        self.entries = entries;
        decision
    }

    /// Drops the counters whose window is over at `now`, and says how many
    /// they were. The others keep their order.
    pub fn purge_stale(&mut self, now: u64) -> (dropped: usize)
        ensures
            final(self)@ == old(self)@.purged(now as nat),
            final(self)@.wf(),
            dropped == old(self)@.slots.len() - final(self)@.slots.len(),
    {
        proof {
            use_type_invariant(&*self);
            lemma_purged(self@, now as nat);
        }
        let ghost before = self@;
        let ghost test = in_window(now as nat);
        let mut entries: Vec<CounterEntry> = Vec::new();
        std::mem::swap(&mut entries, &mut self.entries);
        let total = entries.len();
        let mut kept: Vec<CounterEntry> = Vec::new();
        for entry in it: entries
            invariant
                it.seq().len() == total,
                slots_of(it.seq()) == before.slots,
                test == in_window(now as nat),
                slots_of(kept@) == before.slots.take(it.index() as int).filter(test),
                kept@.len() <= it.index(),
        {
            proof {
                let seen = before.slots.take(it.index() as int);
                assert(before.slots.take(it.index() + 1) =~= seen.push(entry.slot()));
                seen.lemma_filter_push(entry.slot(), test);
            }
            if !(now >= entry.window_start && now - entry.window_start >= entry.window) {
                kept.push(entry);
            }
        }
        assert(before.slots.take(total as int) =~= before.slots);
        let dropped = total - kept.len();
        self.entries = kept;
        dropped
    }
}

} // verus!
