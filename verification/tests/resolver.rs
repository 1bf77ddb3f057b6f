use axum_governor::{resolve, HttpMethod, MatchKind, Mode, Rule, RuleId, RuleRegistry};

fn sample() -> RuleRegistry {
    RuleRegistry::build(
        Rule::global(1000, 5),
        vec![
            Rule::route("/api/", MatchKind::Prefix, 1000, 10),
            Rule::route("/api/public", MatchKind::Exact, 1000, 10),
            Rule::route("/api/contact", MatchKind::Exact, 1000, 7).for_methods(vec![HttpMethod::Post]),
        ],
    )
    .unwrap()
}

#[test]
fn cumulative_puts_the_global_rule_first() {
    let registry = sample();
    assert_eq!(
        resolve(&registry, "/api/public", HttpMethod::Get, Mode::Cumulative),
        vec![RuleId::Global, RuleId::Route(1)]
    );
}

#[test]
fn cumulative_without_a_route_rule_is_the_global_rule_alone() {
    let registry = sample();
    assert_eq!(
        resolve(&registry, "/", HttpMethod::Get, Mode::Cumulative),
        vec![RuleId::Global]
    );
}

#[test]
fn override_leaves_the_global_rule_out() {
    let registry = sample();
    assert_eq!(
        resolve(&registry, "/api/public", HttpMethod::Get, Mode::Override),
        vec![RuleId::Route(1)]
    );
}

#[test]
fn override_without_a_route_rule_is_empty() {
    let registry = sample();
    assert_eq!(resolve(&registry, "/", HttpMethod::Get, Mode::Override), Vec::<RuleId>::new());
}

#[test]
fn only_the_most_specific_route_rule_is_resolved() {
    let registry = sample();
    assert_eq!(registry.lookup("/api/public", HttpMethod::Get), vec![1, 0]);
    assert_eq!(
        resolve(&registry, "/api/public", HttpMethod::Get, Mode::Cumulative),
        vec![RuleId::Global, RuleId::Route(1)]
    );
    assert_eq!(
        resolve(&registry, "/api/public/v2", HttpMethod::Get, Mode::Override),
        vec![RuleId::Route(0)]
    );
}

#[test]
fn a_rule_for_another_method_is_not_resolved() {
    let registry = sample();
    assert_eq!(
        resolve(&registry, "/api/contact", HttpMethod::Post, Mode::Override),
        vec![RuleId::Route(2)]
    );
    assert_eq!(
        resolve(&registry, "/api/contact", HttpMethod::Get, Mode::Override),
        vec![RuleId::Route(0)]
    );
}
