//! The rule registry: one global default rule and the route rules in the
//! order of their registration, checked once and then only read.

use vstd::prelude::*;
use crate::method::HttpMethod;
use crate::rule::{ConfigError, MatchKind, Rule, RuleId, RuleView, Scope, ScopeView};
use crate::text::{chars_of, same_chars, starts_with};

verus! {

/// The abstract state of a registry.
pub struct RegistryView {
    pub global: RuleView,
    pub routes: Seq<RuleView>,
}

/// The rules as the contracts speak of them, in their order.
pub open spec fn views_of(rules: Seq<Rule>) -> Seq<RuleView> {
    rules.map_values(|rule: Rule| rule@)
}

/// `i` is the first position of a malformed route rule.
pub open spec fn is_first_defective(routes: Seq<RuleView>, i: int) -> bool {
    &&& 0 <= i < routes.len()
    &&& routes[i].defect(true) is Some
    &&& forall|j: int| 0 <= j < i ==> (#[trigger] routes[j]).defect(true) is None
}

/// What is wrong with a set of rules: the defect of the default rule, or
/// else that of the first malformed route rule.
pub open spec fn first_defect(global: RuleView, routes: Seq<RuleView>) -> Option<ConfigError> {
    if global.defect(false) is Some {
        global.defect(false)
    } else if exists|i: int| is_first_defective(routes, i) {
        routes[choose|i: int| is_first_defective(routes, i)].defect(true)
    } else {
        None
    }
}

impl RegistryView {
    /// The default rule is a well-formed global rule and every route rule a
    /// well-formed route rule, and the route rules can be counted.
    pub open spec fn wf(self) -> bool {
        &&& self.routes.len() <= usize::MAX
        &&& self.global.defect(false) is None
        &&& forall|i: int| 0 <= i < self.routes.len() ==> (#[trigger] self.routes[i]).defect(true) is None
    }

    /// The rule that `id` names, if it names one.
    pub open spec fn rule(self, id: RuleId) -> Option<RuleView> {
        match id {
            RuleId::Global => Some(self.global),
            RuleId::Route(i) => if i < self.routes.len() {
                Some(self.routes[i as int])
            } else {
                None
            },
        }
    }

    /// Whether the route rule at `i` governs a request.
    pub open spec fn matches(self, i: int, path: Seq<char>, method: HttpMethod) -> bool {
        0 <= i < self.routes.len() && self.routes[i].matches(path, method)
    }

    /// Whether the route rule at `i` is more specific than the one at `j`:
    /// an exact rule before a prefix rule, then the longer pattern, then the
    /// earlier registration.
    pub open spec fn outranks(self, i: int, j: int) -> bool {
        let a = self.routes[i].scope;
        let b = self.routes[j].scope;
        if a->kind != b->kind {
            a->kind == MatchKind::Exact
        } else if a->pattern.len() != b->pattern.len() {
            a->pattern.len() > b->pattern.len()
        } else {
            i < j
        }
    }

    /// `found` lists the route rules before position `upto` that govern a
    /// request, each once, every one before those it outranks.
    pub open spec fn lists(
        self,
        found: Seq<usize>,
        upto: int,
        path: Seq<char>,
        method: HttpMethod,
    ) -> bool {
        &&& forall|k: int|
            0 <= k < found.len() ==> (#[trigger] found[k]) < upto && self.matches(
                found[k] as int,
                path,
                method,
            )
        &&& forall|i: int|
            0 <= i < upto && #[trigger] self.matches(i, path, method) ==> exists|k: int|
                0 <= k < found.len() && #[trigger] found[k] == i
        &&& forall|a: int, b: int|
            0 <= a < b < found.len() ==> self.outranks(
                #[trigger] found[a] as int,
                #[trigger] found[b] as int,
            )
    }

    /// `found` is the answer to a lookup: the matching route rules, most
    /// specific first.
    pub open spec fn is_lookup(self, found: Seq<usize>, path: Seq<char>, method: HttpMethod) -> bool {
        self.lists(found, self.routes.len() as int, path, method)
    }

    /// The route rule at `i` governs the request and outranks every other
    /// one that does.
    pub open spec fn is_most_specific(self, i: int, path: Seq<char>, method: HttpMethod) -> bool {
        &&& self.matches(i, path, method)
        &&& forall|j: int|
            j != i && #[trigger] self.matches(j, path, method) ==> self.outranks(i, j)
    }

    /// The most specific route rule that governs a request, if any does.
    pub open spec fn most_specific(self, path: Seq<char>, method: HttpMethod) -> Option<int> {
        if exists|i: int| self.is_most_specific(i, path, method) {
            Some(choose|i: int| self.is_most_specific(i, path, method))
        } else {
            None
        }
    }
}

/// Two answers to one lookup agree on their first `upto` places.
proof fn lemma_lookups_agree(
    registry: RegistryView,
    a: Seq<usize>,
    b: Seq<usize>,
    path: Seq<char>,
    method: HttpMethod,
    upto: int,
)
    requires
        registry.is_lookup(a, path, method),
        registry.is_lookup(b, path, method),
        0 <= upto <= a.len(),
    ensures
        upto <= b.len(),
        forall|k: int| 0 <= k < upto ==> a[k] == b[k],
    decreases upto,
{
    if upto > 0 {
        lemma_lookups_agree(registry, a, b, path, method, upto - 1);
        let k = upto - 1;
        // where `a[k]` stands in `b`, and `b[k]` in `a`: neither before `k`,
        // and not both after it
        let j = choose|j: int| 0 <= j < b.len() && #[trigger] b[j] == a[k] as int;
        let i = choose|i: int| 0 <= i < a.len() && #[trigger] a[i] == b[k] as int;
        assert(j >= k && i >= k);
        assert(j == k || i == k);
    }
}

/// A lookup has one answer only: the matching route rules in the order of
/// their specificity.
pub proof fn lemma_lookup_unique(
    registry: RegistryView,
    a: Seq<usize>,
    b: Seq<usize>,
    path: Seq<char>,
    method: HttpMethod,
)
    requires
        registry.is_lookup(a, path, method),
        registry.is_lookup(b, path, method),
    ensures
        a == b,
{
    lemma_lookups_agree(registry, a, b, path, method, a.len() as int);
    lemma_lookups_agree(registry, b, a, path, method, b.len() as int);
}

/// The most specific matching route rule is the first that a lookup lists,
/// and there is none exactly if the lookup lists nothing.
pub proof fn lemma_lookup_begins_with_most_specific(
    registry: RegistryView,
    found: Seq<usize>,
    path: Seq<char>,
    method: HttpMethod,
)
    requires
        registry.is_lookup(found, path, method),
    ensures
        registry.most_specific(path, method) == if found.len() > 0 {
            Some(found[0] as int)
        } else {
            None
        },
{
    if found.len() > 0 {
        lemma_most_specific_unique(registry, found[0] as int, path, method);
    }
}

/// No two route rules are both the most specific for one request.
pub proof fn lemma_most_specific_unique(
    registry: RegistryView,
    i: int,
    path: Seq<char>,
    method: HttpMethod,
)
    requires
        registry.is_most_specific(i, path, method),
    ensures
        registry.most_specific(path, method) == Some(i),
{
}

/// Among the first `upto` route rules, one that governs the request and
/// outranks every other of them that does.
proof fn lemma_best_among(
    registry: RegistryView,
    path: Seq<char>,
    method: HttpMethod,
    upto: int,
) -> (best: int)
    requires
        0 <= upto <= registry.routes.len(),
        exists|i: int| 0 <= i < upto && registry.matches(i, path, method),
    ensures
        0 <= best < upto,
        registry.matches(best, path, method),
        forall|j: int|
            0 <= j < upto && j != best && #[trigger] registry.matches(j, path, method)
                ==> registry.outranks(best, j),
    decreases upto,
{
    let last = upto - 1;
    if exists|i: int| 0 <= i < last && registry.matches(i, path, method) {
        let before = lemma_best_among(registry, path, method, last);
        if registry.matches(last, path, method) && registry.outranks(last, before) {
            last
        } else {
            before
        }
    } else {
        last
    }
}

/// Where some route rule governs a request, one of them is the most
/// specific: a request is left to the global rule alone only if no route
/// rule matches it.
pub proof fn lemma_match_has_most_specific(
    registry: RegistryView,
    path: Seq<char>,
    method: HttpMethod,
    i: int,
)
    requires
        registry.matches(i, path, method),
    ensures
        registry.most_specific(path, method) is Some,
{
    let best = lemma_best_among(registry, path, method, registry.routes.len() as int);
    assert(registry.is_most_specific(best, path, method));
}

/// A route rule made ready for matching.
#[derive(Debug)]
struct CompiledRoute {
    rule: Rule,
    pattern: Vec<char>,
    kind: MatchKind,
}

impl CompiledRoute {
    spec fn wf(self) -> bool {
        &&& self.rule@.defect(true) is None
        &&& self.rule@.scope == (ScopeView::Route { pattern: self.pattern@, kind: self.kind })
    }

    /// Makes a route rule ready for matching, or says what is wrong with it.
    fn compile(rule: Rule) -> (compiled: Result<CompiledRoute, ConfigError>)
        ensures
            match compiled {
                Ok(route) => route.wf() && route.rule == rule,
                Err(error) => rule@.defect(true) == Some(error),
            },
    {
        let scope = match &rule.scope {
            Scope::Global => None,
            Scope::Route { pattern, kind } => Some((chars_of(pattern.as_str()), *kind)),
        };
        match scope {
            None => Err(ConfigError::WrongScope),
            Some((pattern, kind)) => {
                if rule.limit == 0 {
                    Err(ConfigError::ZeroLimit)
                } else if rule.window == 0 {
                    Err(ConfigError::ZeroWindow)
                } else if pattern.len() == 0 {
                    Err(ConfigError::EmptyPattern)
                } else {
                    Ok(CompiledRoute { rule, pattern, kind })
                }
            },
        }
    }
}

/// The rules in force, checked and ready for matching.
#[derive(Debug)]
pub struct RuleRegistry {
    global: Rule,
    routes: Vec<CompiledRoute>,
}

impl RuleRegistry {
    /// What holds of every registry: its rules are well-formed, and each
    /// route rule is ready for matching.
    #[verifier::type_invariant]
    pub open spec fn inv(self) -> bool {
        self.view().wf() && self.ready()
    }

    /// Every route rule is held together with the characters of its pattern.
    pub closed spec fn ready(self) -> bool {
        forall|i: int| 0 <= i < self.routes@.len() ==> (#[trigger] self.routes@[i]).wf()
    }

    /// The default rule and the route rules in the order of registration.
    pub closed spec fn view(&self) -> RegistryView {
        RegistryView {
            global: self.global@,
            routes: self.routes@.map_values(|route: CompiledRoute| route.rule@),
        }
    }

    /// Checks the rules and makes a registry of them. The rules are refused
    /// together if one of them is malformed.
    pub fn build(default_rule: Rule, route_rules: Vec<Rule>) -> (built: Result<
        RuleRegistry,
        ConfigError,
    >)
        ensures
            built is Ok <==> first_defect(default_rule@, views_of(route_rules@)) is None,
            built matches Ok(registry) ==> registry@ == (RegistryView {
                global: default_rule@,
                routes: views_of(route_rules@),
            }) && registry@.wf(),
            built matches Err(error) ==> first_defect(default_rule@, views_of(route_rules@))
                == Some(error),
    {
        let ghost given = views_of(route_rules@);
        if let Some(error) = default_rule.defect(false) {
            return Err(error);
        }
        let ghost rules = route_rules@;
        let total = route_rules.len();
        let mut routes: Vec<CompiledRoute> = Vec::with_capacity(total);
        for rule in it: route_rules
            invariant
                it.seq() == rules,
                rules.len() == total,
                given == views_of(rules),
                default_rule@.defect(false) is None,
                routes@.len() == it.index(),
                forall|i: int| 0 <= i < it.index() ==> (#[trigger] routes@[i]).wf(),
                forall|i: int| 0 <= i < it.index() ==> (#[trigger] routes@[i]).rule@ == given[i],
                forall|i: int| 0 <= i < it.index() ==> (#[trigger] given[i]).defect(true) is None,
        {
            match CompiledRoute::compile(rule) {
                Ok(route) => {
                    routes.push(route);
                },
                Err(error) => {
                    assert(is_first_defective(given, it.index() as int));
                    return Err(error);
                },
            }
        }
        let registry = RuleRegistry { global: default_rule, routes };
        assert(registry@.routes =~= given);
        Ok(registry)
    }

    /// The number of route rules.
    pub fn route_count(&self) -> (count: usize)
        ensures
            count == self@.routes.len(),
    {
        self.routes.len()
    }

    /// The rule that `id` names, if it names one.
    pub fn rule(&self, id: RuleId) -> (rule: Option<&Rule>)
        ensures
            match rule {
                Some(rule) => self@.rule(id) == Some(rule@),
                None => self@.rule(id) is None,
            },
    {
        match id {
            RuleId::Global => Some(&self.global),
            RuleId::Route(i) => {
                if i < self.routes.len() {
                    Some(&self.routes[i].rule)
                } else {
                    None
                }
            },
        }
    }

    fn route_matches(&self, i: usize, path: &Vec<char>, method: HttpMethod) -> (yes: bool)
        requires
            i < self@.routes.len(),
        ensures
            yes == self@.matches(i as int, path@, method),
    {
        proof {
            use_type_invariant(self);
        }
        let route = &self.routes[i];
        let covered = match route.kind {
            MatchKind::Exact => same_chars(&route.pattern, path),
            MatchKind::Prefix => starts_with(path, &route.pattern),
        };
        covered && route.rule.allows(method)
    }

    fn route_outranks(&self, i: usize, j: usize) -> (yes: bool)
        requires
            i < self@.routes.len(),
            j < self@.routes.len(),
        ensures
            yes == self@.outranks(i as int, j as int),
    {
        proof {
            use_type_invariant(self);
        }
        let a = &self.routes[i];
        let b = &self.routes[j];
        if a.kind != b.kind {
            a.kind == MatchKind::Exact
        } else if a.pattern.len() != b.pattern.len() {
            a.pattern.len() > b.pattern.len()
        } else {
            i < j
        }
    }

    /// The route rules that govern a request for `path` with `method`, by
    /// their positions, most specific first.
    pub fn lookup(&self, path: &str, method: HttpMethod) -> (found: Vec<usize>)
        ensures
            self@.is_lookup(found@, path@, method),
    {
        let letters = chars_of(path);
        let mut found: Vec<usize> = Vec::new();
        let mut i: usize = 0;
        while i < self.routes.len()
            invariant
                i <= self@.routes.len(),
                self@.routes.len() == self.routes@.len(),
                letters@ == path@,
                self@.lists(found@, i as int, path@, method),
            decreases self.routes.len() - i,
        {
            if self.route_matches(i, &letters, method) {
                let mut at: usize = 0;
                while at < found.len() && self.route_outranks(found[at], i)
                    invariant
                        at <= found.len(),
                        i < self@.routes.len(),
                        self@.lists(found@, i as int, path@, method),
                        forall|k: int|
                            0 <= k < at ==> self@.outranks(#[trigger] found@[k] as int, i as int),
                    decreases found.len() - at,
                {
                    at += 1;
                }
                let ghost before = found@;
                found.insert(at, i);
                proof {
                    // every route rule listed before is still listed, one place
                    // later where it stood at or after `at`
                    assert forall|m: int|
                        0 <= m < i + 1 && #[trigger] self@.matches(m, path@, method) implies exists|
                        k: int,
                    |
                        0 <= k < found@.len() && #[trigger] found@[k] == m by {
                        if m == i {
                            assert(found@[at as int] == m);
                        } else {
                            let k0 = choose|k: int| 0 <= k < before.len() && #[trigger] before[k] == m;
                            if k0 < at {
                                assert(found@[k0] == m);
                            } else {
                                assert(found@[k0 + 1] == m);
                            }
                        }
                    }
                }
            }
            i += 1;
        }
        found
    }

    /// The most specific route rule that governs a request for `path` with
    /// `method`, by its position.
    pub fn most_specific(&self, path: &str, method: HttpMethod) -> (best: Option<usize>)
        ensures
            match best {
                Some(i) => self@.most_specific(path@, method) == Some(i as int),
                None => self@.most_specific(path@, method) is None,
            },
    {
        let letters = chars_of(path);
        let mut best: Option<usize> = None;
        let mut i: usize = 0;
        while i < self.routes.len()
            invariant
                i <= self@.routes.len(),
                self@.routes.len() == self.routes@.len(),
                letters@ == path@,
                match best {
                    Some(b) => b < i && self@.matches(b as int, path@, method) && forall|j: int|
                        0 <= j < i && j != b && #[trigger] self@.matches(j, path@, method)
                            ==> self@.outranks(b as int, j),
                    None => forall|j: int| 0 <= j < i ==> !#[trigger] self@.matches(j, path@, method),
                },
            decreases self.routes.len() - i,
        {
            if self.route_matches(i, &letters, method) {
                let better = match best {
                    Some(b) => self.route_outranks(i, b),
                    None => true,
                };
                if better {
                    best = Some(i);
                }
            }
            i += 1;
        }
        proof {
            if let Some(b) = best {
                lemma_most_specific_unique(self@, b as int, path@, method);
            }
        }
        best
    }
}

} // verus!
