//! The resolver: which rules govern a request, and in what order.

use vstd::prelude::*;
use crate::method::HttpMethod;
use crate::registry::{RegistryView, RuleRegistry};
use crate::rule::RuleId;

verus! {

/// How the global default rule and the route rules combine.
#[derive(Clone, Copy, Debug, PartialEq, Eq, Structural)]
pub enum Mode {
    /// A request must pass the global rule and the route rule that governs it.
    Cumulative,
    /// Only a route rule is applied; a request that no route rule governs is
    /// not limited.
    Override,
}

/// The rules that govern a request, in the order in which it is counted
/// against them: the global rule unless the mode leaves it out, then the
/// most specific matching route rule, if there is one. Where several route
/// rules match, the first of the lookup wins in either mode and the others
/// are not counted against.
pub open spec fn resolved(
    registry: RegistryView,
    path: Seq<char>,
    method: HttpMethod,
    mode: Mode,
) -> Seq<RuleId> {
    let base = if mode == Mode::Cumulative {
        seq![RuleId::Global]
    } else {
        Seq::<RuleId>::empty()
    };
    match registry.most_specific(path, method) {
        Some(i) => base.push(RuleId::Route(i as usize)),
        None => base,
    }
}

/// The rules that govern a request for `path` with `method` under `mode`.
pub fn resolve(registry: &RuleRegistry, path: &str, method: HttpMethod, mode: Mode) -> (rules: Vec<
    RuleId,
>)
    ensures
        rules@ == resolved(registry@, path@, method, mode),
{
    let mut rules: Vec<RuleId> = Vec::new();
    if mode == Mode::Cumulative {
        rules.push(RuleId::Global);
    }
    if let Some(i) = registry.most_specific(path, method) {
        rules.push(RuleId::Route(i));
    }
    rules
}

/// Every route rule that is resolved for a request governs it: its pattern
/// takes in the path and it is for the method. A rule restricted to other
/// methods is never counted against.
pub proof fn lemma_resolved_rules_govern(
    registry: RegistryView,
    path: Seq<char>,
    method: HttpMethod,
    mode: Mode,
    k: int,
)
    requires
        registry.wf(),
        0 <= k < resolved(registry, path, method, mode).len(),
        resolved(registry, path, method, mode)[k] is Route,
    ensures
        ({
            let i = resolved(registry, path, method, mode)[k]->Route_0;
            &&& i < registry.routes.len()
            &&& registry.routes[i as int].covers(path)
            &&& registry.routes[i as int].allows(method)
            &&& registry.most_specific(path, method) == Some(i as int)
        }),
{
}

/// Under override mode the global rule is never counted against, and
/// under cumulative mode always, and first.
pub proof fn lemma_global_rule_by_mode(
    registry: RegistryView,
    path: Seq<char>,
    method: HttpMethod,
    mode: Mode,
)
    ensures
        mode == Mode::Override ==> !resolved(registry, path, method, mode).contains(
            RuleId::Global,
        ),
        mode == Mode::Cumulative ==> resolved(registry, path, method, mode)[0] == RuleId::Global,
        resolved(registry, path, method, mode).len() <= 2,
{
}

} // verus!
