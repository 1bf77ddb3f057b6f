use axum_governor::{ConfigError, HttpMethod, MatchKind, Rule, Scope};

#[test]
fn global_rule_holds_what_it_was_given() {
    let rule = Rule::global(1000, 5);
    assert!(matches!(rule.scope, Scope::Global));
    assert!(rule.methods.is_empty());
    assert_eq!(rule.window, 1000);
    assert_eq!(rule.limit, 5);
}

#[test]
fn route_rule_holds_what_it_was_given() {
    let rule = Rule::route("/api/login", MatchKind::Prefix, 60_000, 3);
    match &rule.scope {
        Scope::Route { pattern, kind } => {
            assert_eq!(pattern, "/api/login");
            assert_eq!(*kind, MatchKind::Prefix);
        }
        Scope::Global => panic!("a route rule has a pattern"),
    }
    assert!(rule.methods.is_empty());
    assert_eq!(rule.window, 60_000);
    assert_eq!(rule.limit, 3);
}

#[test]
fn for_methods_restricts_and_keeps_the_rest() {
    let rule = Rule::route("/api/contact", MatchKind::Exact, 1000, 7)
        .for_methods(vec![HttpMethod::Post, HttpMethod::Put]);
    assert_eq!(rule.methods, vec![HttpMethod::Post, HttpMethod::Put]);
    assert_eq!(rule.window, 1000);
    assert_eq!(rule.limit, 7);
    assert!(matches!(rule.scope, Scope::Route { .. }));
}

#[test]
fn a_rule_without_methods_allows_every_method() {
    let rule = Rule::route("/x", MatchKind::Exact, 1000, 1);
    assert!(rule.allows(HttpMethod::Get));
    assert!(rule.allows(HttpMethod::Trace));
    assert!(rule.allows(HttpMethod::Other));
}

#[test]
fn a_restricted_rule_allows_its_methods_only() {
    let rule = Rule::route("/x", MatchKind::Exact, 1000, 1)
        .for_methods(vec![HttpMethod::Post, HttpMethod::Patch, HttpMethod::Post]);
    assert!(rule.allows(HttpMethod::Post));
    assert!(rule.allows(HttpMethod::Patch));
    assert!(!rule.allows(HttpMethod::Get));
    assert!(!rule.allows(HttpMethod::Other));
}

#[test]
fn a_well_formed_rule_has_no_defect() {
    assert_eq!(Rule::global(1, 1).defect(false), None);
    assert_eq!(Rule::route("/", MatchKind::Exact, 1, 1).defect(true), None);
    assert_eq!(Rule::route("/", MatchKind::Prefix, u64::MAX, u32::MAX).defect(true), None);
}

#[test]
fn each_defect_is_found() {
    assert_eq!(Rule::global(1000, 0).defect(false), Some(ConfigError::ZeroLimit));
    assert_eq!(Rule::global(0, 5).defect(false), Some(ConfigError::ZeroWindow));
    assert_eq!(
        Rule::route("", MatchKind::Exact, 1000, 5).defect(true),
        Some(ConfigError::EmptyPattern)
    );
    assert_eq!(Rule::global(1000, 5).defect(true), Some(ConfigError::WrongScope));
    assert_eq!(
        Rule::route("/x", MatchKind::Exact, 1000, 5).defect(false),
        Some(ConfigError::WrongScope)
    );
}

#[test]
fn defects_are_reported_in_a_fixed_order() {
    assert_eq!(Rule::global(0, 0).defect(true), Some(ConfigError::WrongScope));
    assert_eq!(Rule::global(0, 0).defect(false), Some(ConfigError::ZeroLimit));
    assert_eq!(
        Rule::route("", MatchKind::Exact, 0, 0).defect(true),
        Some(ConfigError::ZeroLimit)
    );
    assert_eq!(
        Rule::route("", MatchKind::Exact, 0, 1).defect(true),
        Some(ConfigError::ZeroWindow)
    );
}
