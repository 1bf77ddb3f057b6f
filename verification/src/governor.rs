//! The governor: resolves the rules for a request, counts the request
//! against each of them and combines the outcomes.

use vstd::prelude::*;
use crate::method::HttpMethod;
use crate::registry::{RegistryView, RuleRegistry};
use crate::resolver::{resolve, resolved, Mode};
use crate::rule::RuleId;
use crate::store::{
    lemma_observe_counts, lemma_observe_keeps_wf, lemma_observe_leaves_others, tick, CounterKey,
    CounterStore, Decision, CountersView,
};

verus! {

/// What becomes of a request.
#[derive(Clone, Copy, Debug, PartialEq, Eq, Structural)]
pub enum Verdict {
    /// Every rule that governs the request admits it.
    Admit,
    /// Some rule that governs the request is exhausted.
    Reject,
    /// The request carries no client identity, so nothing can be counted.
    ConfigurationError,
}

/// The abstract state of a governor.
pub struct GovernorView {
    pub registry: RegistryView,
    pub store: CountersView,
}

/// Counts one request of `identity` at `now` against each of `rules` in
/// turn: the store afterwards, and whether every rule admitted the request.
/// The request is counted against every rule, also after one has rejected it.
pub open spec fn count_all(
    registry: RegistryView,
    store: CountersView,
    identity: Seq<char>,
    rules: Seq<RuleId>,
    now: nat,
) -> (CountersView, bool)
    decreases rules.len(),
{
    if rules.len() == 0 {
        (store, true)
    } else {
        let (next, admitted) = match registry.rule(rules[0]) {
            Some(rule) => store.observe(
                CounterKey { identity, rule: rules[0] },
                rule.limit,
                rule.window,
                now,
            ),
            None => (store, true),
        };
        let (last, others) = count_all(registry, next, identity, rules.drop_first(), now);
        (last, admitted && others)
    }
}

/// The identity of a request as the contracts speak of it.
pub open spec fn identity_view(identity: Option<&str>) -> Option<Seq<char>> {
    match identity {
        Some(who) => Some(who@),
        None => None,
    }
}

impl GovernorView {
    /// The rules and the counters are both well-formed.
    pub open spec fn wf(self) -> bool {
        self.registry.wf() && self.store.wf()
    }

    /// One request at the instant `now`: the governor afterwards and the
    /// verdict. Without an identity nothing is counted and the verdict is
    /// `ConfigurationError`. Otherwise the request is counted against every
    /// rule that governs it and admitted if each of them admits it; a request
    /// that no rule governs is admitted.
    pub open spec fn decide(
        self,
        identity: Option<Seq<char>>,
        path: Seq<char>,
        method: HttpMethod,
        mode: Mode,
        now: nat,
    ) -> (GovernorView, Verdict) {
        match identity {
            None => (self, Verdict::ConfigurationError),
            Some(who) => {
                let rules = resolved(self.registry, path, method, mode);
                let (store, admitted) = count_all(self.registry, self.store, who, rules, now);
                (
                    GovernorView { registry: self.registry, store },
                    if admitted {
                        Verdict::Admit
                    } else {
                        Verdict::Reject
                    },
                )
            },
        }
    }
}

/// Under override mode the global rule plays no part: a request that no
/// route rule governs is admitted and counted nowhere, and any other is
/// decided by the counter of its most specific route rule alone.
pub proof fn lemma_override_verdict(
    governor: GovernorView,
    who: Seq<char>,
    path: Seq<char>,
    method: HttpMethod,
    now: nat,
)
    requires
        governor.wf(),
    ensures
        ({
            let (after, verdict) = governor.decide(Some(who), path, method, Mode::Override, now);
            match governor.registry.most_specific(path, method) {
                None => verdict == Verdict::Admit && after == governor,
                Some(i) => {
                    let rule = governor.registry.routes[i];
                    let key = CounterKey { identity: who, rule: RuleId::Route(i as usize) };
                    verdict == Verdict::Admit <==> tick(
                        governor.store.get(key),
                        rule.limit,
                        rule.window,
                        now,
                    ).1
                },
            }
        }),
{
    reveal_with_fuel(count_all, 2);
    if let Some(i) = governor.registry.most_specific(path, method) {
        let rule = governor.registry.routes[i];
        let key = CounterKey { identity: who, rule: RuleId::Route(i as usize) };
        lemma_observe_counts(governor.store, key, rule.limit, rule.window, now);
    }
}

/// Under cumulative mode a request must pass the global rule and the
/// route rule that governs it, so the smaller quota decides. No request
/// passes an exhausted global rule. Where no route rule governs the request
/// the global rule decides alone; where one does, the request is admitted
/// exactly if both counters admit it, unless counting against the global
/// rule first had to evict a counter from a full store.
pub proof fn lemma_cumulative_verdict(
    governor: GovernorView,
    who: Seq<char>,
    path: Seq<char>,
    method: HttpMethod,
    now: nat,
)
    requires
        governor.wf(),
    ensures
        ({
            let verdict = governor.decide(Some(who), path, method, Mode::Cumulative, now).1;
            let global = governor.registry.global;
            let global_key = CounterKey { identity: who, rule: RuleId::Global };
            let global_admits = tick(
                governor.store.get(global_key),
                global.limit,
                global.window,
                now,
            ).1;
            &&& verdict == Verdict::Admit ==> global_admits
            &&& match governor.registry.most_specific(path, method) {
                None => verdict == Verdict::Admit <==> global_admits,
                Some(i) => {
                    let route = governor.registry.routes[i];
                    let route_key = CounterKey { identity: who, rule: RuleId::Route(i as usize) };
                    governor.store.resident(global_key) || governor.store.slots.len()
                        < governor.store.capacity ==> (verdict == Verdict::Admit <==> global_admits
                        && tick(governor.store.get(route_key), route.limit, route.window, now).1)
                },
            }
        }),
{
    reveal_with_fuel(count_all, 3);
    let global = governor.registry.global;
    let global_key = CounterKey { identity: who, rule: RuleId::Global };
    lemma_observe_counts(governor.store, global_key, global.limit, global.window, now);
    lemma_observe_keeps_wf(governor.store, global_key, global.limit, global.window, now);
    let next = governor.store.observe(global_key, global.limit, global.window, now).0;
    if let Some(i) = governor.registry.most_specific(path, method) {
        let route = governor.registry.routes[i];
        let route_key = CounterKey { identity: who, rule: RuleId::Route(i as usize) };
        lemma_observe_counts(next, route_key, route.limit, route.window, now);
        lemma_observe_leaves_others(
            governor.store,
            global_key,
            route_key,
            global.limit,
            global.window,
            now,
        );
    }
}

/// A registry and the counters kept under its rules.
#[derive(Debug)]
pub struct Governor {
    registry: RuleRegistry,
    store: CounterStore,
}

impl Governor {
    /// The rules and the counters that the governor holds.
    pub closed spec fn view(&self) -> GovernorView {
        GovernorView { registry: self.registry@, store: self.store@ }
    }

    /// A governor over `registry` that counts in `store`.
    pub fn new(registry: RuleRegistry, store: CounterStore) -> (governor: Governor)
        ensures
            governor@ == (GovernorView { registry: registry@, store: store@ }),
            governor@.wf(),
    {
        proof {
            use_type_invariant(&registry);
            use_type_invariant(&store);
        }
        Governor { registry, store }
    }

    /// The rules in force.
    pub fn registry(&self) -> (registry: &RuleRegistry)
        ensures
            registry@ == self@.registry,
    {
        &self.registry
    }

    /// The counters kept so far.
    pub fn store(&self) -> (store: &CounterStore)
        ensures
            store@ == self@.store,
    {
        &self.store
    }

    /// Drops the counters whose window is over at `now`, and says how many
    /// they were.
    pub fn purge_stale(&mut self, now: u64) -> (dropped: usize)
        ensures
            final(self)@ == (GovernorView {
                registry: old(self)@.registry,
                store: old(self)@.store.purged(now as nat),
            }),
            dropped == old(self)@.store.slots.len() - final(self)@.store.slots.len(),
            final(self)@.wf(),
    {
        proof {
            use_type_invariant(&self.registry);
        }
        self.store.purge_stale(now)
    }

    /// Decides on one request at the instant `now`. A request without an
    /// identity is a configuration error and leaves the governor as it was;
    /// no other request is.
    pub fn evaluate(
        &mut self,
        identity: Option<&str>,
        path: &str,
        method: HttpMethod,
        mode: Mode,
        now: u64,
    ) -> (verdict: Verdict)
        ensures
            (final(self)@, verdict) == old(self)@.decide(
                identity_view(identity),
                path@,
                method,
                mode,
                now as nat,
            ),
            identity is None <==> verdict == Verdict::ConfigurationError,
            identity is None ==> final(self)@ == old(self)@,
            final(self)@.registry == old(self)@.registry,
            final(self)@.wf(),
    {
        proof {
            use_type_invariant(&self.registry);
            use_type_invariant(&self.store);
        }
        let who = match identity {
            Some(who) => who,
            None => { return Verdict::ConfigurationError; },
        };
        let rules = resolve(&self.registry, path, method, mode);
        let ghost registry = self.registry@;
        let ghost start = self.store@;
        let mut admitted = true;
        let mut i: usize = 0;
        assert(rules@.skip(0) =~= rules@);
        while i < rules.len()
            invariant
                i <= rules.len(),
                self.registry@ == registry,
                self.store@.wf(),
                count_all(registry, start, who@, rules@, now as nat) == ({
                    let (last, others) = count_all(
                        registry,
                        self.store@,
                        who@,
                        rules@.skip(i as int),
                        now as nat,
                    );
                    (last, admitted && others)
                }),
            decreases rules.len() - i,
        {
            let id = rules[i];
            assert(rules@.skip(i as int).drop_first() =~= rules@.skip(i + 1));
            if let Some(rule) = self.registry.rule(id) {
                let decision = self.store.check_and_increment(who, id, rule, now);
                if decision == Decision::Reject {
                    admitted = false;
                }
            }
            i += 1;
        }
        if admitted {
            Verdict::Admit
        } else {
            Verdict::Reject
        }
    }
}

} // verus!
