use axum_governor::store::ENTRY_FOOTPRINT;
use axum_governor::{CounterStore, Decision, MatchKind, Rule, RuleId};

#[test]
fn admits_up_to_the_limit_within_a_window() {
    let rule = Rule::global(1000, 3);
    let mut store = CounterStore::new(16);
    for _ in 0..3 {
        assert_eq!(store.check_and_increment("10.0.0.1", RuleId::Global, &rule, 5), Decision::Admit);
    }
    assert_eq!(store.check_and_increment("10.0.0.1", RuleId::Global, &rule, 999), Decision::Reject);
    assert_eq!(store.usage("10.0.0.1", RuleId::Global), Some(3));
}

#[test]
fn the_request_after_the_last_admitted_one_is_rejected() {
    for limit in [1u32, 2, 5, 20] {
        let rule = Rule::global(1000, limit);
        let mut store = CounterStore::new(4);
        for n in 0..limit {
            assert_eq!(
                store.check_and_increment("a", RuleId::Global, &rule, 100 + n as u64),
                Decision::Admit
            );
        }
        assert_eq!(store.check_and_increment("a", RuleId::Global, &rule, 500), Decision::Reject);
        assert_eq!(store.check_and_increment("a", RuleId::Global, &rule, 1099), Decision::Reject);
    }
}

#[test]
fn a_rejected_request_leaves_the_count_at_the_limit() {
    let rule = Rule::global(1000, 2);
    let mut store = CounterStore::new(4);
    for _ in 0..10 {
        store.check_and_increment("a", RuleId::Global, &rule, 0);
    }
    assert_eq!(store.usage("a", RuleId::Global), Some(2));
}

#[test]
fn a_new_window_begins_once_the_old_one_is_over() {
    let rule = Rule::global(1000, 1);
    let mut store = CounterStore::new(4);
    assert_eq!(store.check_and_increment("a", RuleId::Global, &rule, 100), Decision::Admit);
    assert_eq!(store.check_and_increment("a", RuleId::Global, &rule, 1099), Decision::Reject);
    assert_eq!(store.check_and_increment("a", RuleId::Global, &rule, 1100), Decision::Admit);
    assert_eq!(store.usage("a", RuleId::Global), Some(1));
    assert_eq!(store.check_and_increment("a", RuleId::Global, &rule, 2099), Decision::Reject);
    assert_eq!(store.check_and_increment("a", RuleId::Global, &rule, 5000), Decision::Admit);
}

#[test]
fn a_window_is_counted_from_its_first_request() {
    let rule = Rule::global(1000, 2);
    let mut store = CounterStore::new(4);
    assert_eq!(store.check_and_increment("a", RuleId::Global, &rule, 0), Decision::Admit);
    assert_eq!(store.check_and_increment("a", RuleId::Global, &rule, 900), Decision::Admit);
    assert_eq!(store.check_and_increment("a", RuleId::Global, &rule, 999), Decision::Reject);
    assert_eq!(store.check_and_increment("a", RuleId::Global, &rule, 1000), Decision::Admit);
    assert_eq!(store.check_and_increment("a", RuleId::Global, &rule, 1900), Decision::Admit);
    assert_eq!(store.check_and_increment("a", RuleId::Global, &rule, 1999), Decision::Reject);
}

#[test]
fn a_clock_that_steps_back_begins_no_new_window() {
    let rule = Rule::global(1000, 1);
    let mut store = CounterStore::new(4);
    assert_eq!(store.check_and_increment("a", RuleId::Global, &rule, 5000), Decision::Admit);
    assert_eq!(store.check_and_increment("a", RuleId::Global, &rule, 10), Decision::Reject);
}

#[test]
fn instants_near_the_end_of_time_do_not_overflow() {
    let rule = Rule::global(u64::MAX, 1);
    let mut store = CounterStore::new(4);
    assert_eq!(store.check_and_increment("a", RuleId::Global, &rule, u64::MAX - 1), Decision::Admit);
    assert_eq!(store.check_and_increment("a", RuleId::Global, &rule, u64::MAX), Decision::Reject);
}

#[test]
fn identities_are_counted_apart() {
    let rule = Rule::global(1000, 1);
    let mut store = CounterStore::new(8);
    assert_eq!(store.check_and_increment("user1", RuleId::Global, &rule, 0), Decision::Admit);
    assert_eq!(store.check_and_increment("user1", RuleId::Global, &rule, 1), Decision::Reject);
    assert_eq!(store.check_and_increment("user2", RuleId::Global, &rule, 2), Decision::Admit);
    assert_eq!(store.check_and_increment("user2", RuleId::Global, &rule, 3), Decision::Reject);
    assert_eq!(store.usage("user1", RuleId::Global), Some(1));
    assert_eq!(store.usage("user2", RuleId::Global), Some(1));
    assert_eq!(store.len(), 2);
}

#[test]
fn rules_are_counted_apart() {
    let global = Rule::global(1000, 1);
    let route = Rule::route("/a", MatchKind::Exact, 1000, 2);
    let mut store = CounterStore::new(8);
    assert_eq!(store.check_and_increment("a", RuleId::Global, &global, 0), Decision::Admit);
    assert_eq!(store.check_and_increment("a", RuleId::Route(0), &route, 0), Decision::Admit);
    assert_eq!(store.check_and_increment("a", RuleId::Route(0), &route, 0), Decision::Admit);
    assert_eq!(store.check_and_increment("a", RuleId::Route(1), &route, 0), Decision::Admit);
    assert_eq!(store.check_and_increment("a", RuleId::Global, &global, 0), Decision::Reject);
    assert_eq!(store.check_and_increment("a", RuleId::Route(0), &route, 0), Decision::Reject);
    assert_eq!(store.usage("a", RuleId::Global), Some(1));
    assert_eq!(store.usage("a", RuleId::Route(0)), Some(2));
    assert_eq!(store.usage("a", RuleId::Route(1)), Some(1));
}

#[test]
fn the_least_recently_used_counter_is_evicted_first() {
    let rule = Rule::global(1000, 5);
    let mut store = CounterStore::new(2);
    store.check_and_increment("a", RuleId::Global, &rule, 0);
    store.check_and_increment("b", RuleId::Global, &rule, 1);
    store.check_and_increment("c", RuleId::Global, &rule, 2);
    assert_eq!(store.len(), 2);
    assert_eq!(store.usage("a", RuleId::Global), None);
    assert_eq!(store.usage("b", RuleId::Global), Some(1));
    assert_eq!(store.usage("c", RuleId::Global), Some(1));
}

#[test]
fn use_keeps_a_counter_from_eviction() {
    let rule = Rule::global(1000, 5);
    let mut store = CounterStore::new(2);
    store.check_and_increment("a", RuleId::Global, &rule, 0);
    store.check_and_increment("b", RuleId::Global, &rule, 1);
    store.check_and_increment("a", RuleId::Global, &rule, 2);
    store.check_and_increment("c", RuleId::Global, &rule, 3);
    assert_eq!(store.usage("a", RuleId::Global), Some(2));
    assert_eq!(store.usage("b", RuleId::Global), None);
    assert_eq!(store.usage("c", RuleId::Global), Some(1));
}

#[test]
fn a_rejected_request_counts_as_use() {
    let rule = Rule::global(1000, 1);
    let mut store = CounterStore::new(2);
    store.check_and_increment("a", RuleId::Global, &rule, 0);
    store.check_and_increment("b", RuleId::Global, &rule, 1);
    assert_eq!(store.check_and_increment("a", RuleId::Global, &rule, 2), Decision::Reject);
    store.check_and_increment("c", RuleId::Global, &rule, 3);
    assert_eq!(store.usage("a", RuleId::Global), Some(1));
    assert_eq!(store.usage("b", RuleId::Global), None);
}

#[test]
fn an_evicted_identity_begins_a_fresh_window() {
    let rule = Rule::global(1000, 1);
    let mut store = CounterStore::new(1);
    assert_eq!(store.check_and_increment("a", RuleId::Global, &rule, 0), Decision::Admit);
    assert_eq!(store.check_and_increment("a", RuleId::Global, &rule, 1), Decision::Reject);
    assert_eq!(store.check_and_increment("b", RuleId::Global, &rule, 2), Decision::Admit);
    assert_eq!(store.usage("a", RuleId::Global), None);
    assert_eq!(store.check_and_increment("a", RuleId::Global, &rule, 3), Decision::Admit);
    assert_eq!(store.usage("a", RuleId::Global), Some(1));
    assert_eq!(store.len(), 1);
}

#[test]
fn the_store_never_holds_more_than_its_budget() {
    let rule = Rule::global(1000, 5);
    let mut store = CounterStore::new(3);
    for n in 0..50u64 {
        let who = format!("client-{}", n);
        assert_eq!(store.check_and_increment(&who, RuleId::Global, &rule, n), Decision::Admit);
        assert!(store.len() <= 3);
    }
    assert_eq!(store.len(), 3);
    assert_eq!(store.usage("client-46", RuleId::Global), None);
    assert_eq!(store.usage("client-47", RuleId::Global), Some(1));
    assert_eq!(store.usage("client-49", RuleId::Global), Some(1));
}

#[test]
fn a_budget_of_nothing_still_holds_one_counter() {
    let store = CounterStore::new(0);
    assert_eq!(store.capacity(), 1);
    assert_eq!(store.len(), 0);
    assert_eq!(CounterStore::new(1).capacity(), 1);
    assert_eq!(CounterStore::new(7).capacity(), 7);
}

#[test]
fn a_memory_ceiling_is_divided_by_the_footprint() {
    assert_eq!(ENTRY_FOOTPRINT, 128);
    assert_eq!(CounterStore::with_memory_ceiling(64 * 1024 * 1024).capacity(), 524_288);
    assert_eq!(CounterStore::with_memory_ceiling(1280).capacity(), 10);
    assert_eq!(CounterStore::with_memory_ceiling(1407).capacity(), 10);
    assert_eq!(CounterStore::with_memory_ceiling(128).capacity(), 1);
    assert_eq!(CounterStore::with_memory_ceiling(127).capacity(), 1);
    assert_eq!(CounterStore::with_memory_ceiling(0).capacity(), 1);
}

#[test]
fn usage_of_an_unknown_key_is_none() {
    let rule = Rule::global(1000, 5);
    let mut store = CounterStore::new(4);
    assert_eq!(store.usage("a", RuleId::Global), None);
    store.check_and_increment("a", RuleId::Global, &rule, 0);
    assert_eq!(store.usage("a", RuleId::Route(0)), None);
    assert_eq!(store.usage("b", RuleId::Global), None);
    assert_eq!(store.usage("", RuleId::Global), None);
}

#[test]
fn purge_drops_the_counters_whose_window_is_over() {
    let short = Rule::global(100, 5);
    let long = Rule::route("/a", MatchKind::Exact, 10_000, 5);
    let mut store = CounterStore::new(8);
    store.check_and_increment("a", RuleId::Global, &short, 0);
    store.check_and_increment("a", RuleId::Route(0), &long, 0);
    store.check_and_increment("b", RuleId::Global, &short, 50);
    assert_eq!(store.purge_stale(99), 0);
    assert_eq!(store.len(), 3);
    assert_eq!(store.purge_stale(100), 1);
    assert_eq!(store.usage("a", RuleId::Global), None);
    assert_eq!(store.usage("a", RuleId::Route(0)), Some(1));
    assert_eq!(store.usage("b", RuleId::Global), Some(1));
    assert_eq!(store.purge_stale(20_000), 2);
    assert_eq!(store.len(), 0);
}

#[test]
fn purge_keeps_the_order_of_use() {
    let short = Rule::global(100, 5);
    let long = Rule::global(10_000, 5);
    let mut store = CounterStore::new(3);
    store.check_and_increment("a", RuleId::Global, &long, 0);
    store.check_and_increment("b", RuleId::Global, &short, 1);
    store.check_and_increment("c", RuleId::Global, &long, 2);
    assert_eq!(store.purge_stale(500), 1);
    store.check_and_increment("d", RuleId::Global, &long, 501);
    store.check_and_increment("e", RuleId::Global, &long, 502);
    assert_eq!(store.usage("a", RuleId::Global), None);
    assert_eq!(store.usage("c", RuleId::Global), Some(1));
    assert_eq!(store.usage("d", RuleId::Global), Some(1));
    assert_eq!(store.usage("e", RuleId::Global), Some(1));
}

#[test]
fn a_purge_changes_no_later_decision() {
    let rule = Rule::global(100, 2);
    let mut purged = CounterStore::new(8);
    let mut kept = CounterStore::new(8);
    for store in [&mut purged, &mut kept] {
        store.check_and_increment("a", RuleId::Global, &rule, 0);
        store.check_and_increment("a", RuleId::Global, &rule, 1);
        store.check_and_increment("b", RuleId::Global, &rule, 60);
        store.check_and_increment("b", RuleId::Global, &rule, 61);
    }
    assert_eq!(purged.purge_stale(120), 1);
    for (who, now) in [("a", 120u64), ("b", 130), ("a", 140), ("b", 150), ("a", 150), ("b", 160)] {
        assert_eq!(
            purged.check_and_increment(who, RuleId::Global, &rule, now),
            kept.check_and_increment(who, RuleId::Global, &rule, now)
        );
    }
}

#[test]
fn a_limit_of_nothing_admits_nothing() {
    let rule = Rule::global(1000, 0);
    let mut store = CounterStore::new(4);
    assert_eq!(store.check_and_increment("a", RuleId::Global, &rule, 0), Decision::Reject);
    assert_eq!(store.usage("a", RuleId::Global), Some(0));
}

#[test]
fn the_quota_holds_with_other_traffic_in_between() {
    let rule = Rule::global(1000, 3);
    let other = Rule::route("/x", MatchKind::Prefix, 50, 1);
    let mut store = CounterStore::new(8);
    let mut admitted = 0;
    for n in 0..10u64 {
        if store.check_and_increment("a", RuleId::Global, &rule, 100 + 10 * n) == Decision::Admit {
            admitted += 1;
            assert!(n < 3);
        } else {
            assert!(n >= 3);
        }
        store.check_and_increment("b", RuleId::Global, &rule, 100 + 10 * n);
        store.check_and_increment("a", RuleId::Route(0), &other, 100 + 10 * n);
    }
    assert_eq!(admitted, 3);
    assert_eq!(store.usage("a", RuleId::Global), Some(3));
}
