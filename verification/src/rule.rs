//! Quota rules: what a rule covers, what it allows, and when it is malformed.

use vstd::prelude::*;
use crate::method::HttpMethod;

verus! {

/// How a route rule's pattern is held against a request path.
#[derive(Clone, Copy, Debug, PartialEq, Eq, Structural)]
pub enum MatchKind {
    /// The path is the pattern.
    Exact,
    /// The path begins with the pattern.
    Prefix,
}

/// What a rule is about: every request, or the requests to some paths.
#[derive(Clone, Debug)]
pub enum Scope {
    Global,
    Route { pattern: String, kind: MatchKind },
}

/// One quota: at most `limit` requests per `window` milliseconds and client.
#[derive(Clone, Debug)]
pub struct Rule {
    pub scope: Scope,
    /// The methods the rule is restricted to; none means every method.
    pub methods: Vec<HttpMethod>,
    /// The length of the counting window, in milliseconds.
    pub window: u64,
    /// The most requests admitted per window and client.
    pub limit: u32,
}

/// The name of a rule inside one registry: the global default, or the route
/// rule at a position of the registration order.
#[derive(Clone, Copy, Debug, PartialEq, Eq, Structural)]
pub enum RuleId {
    Global,
    Route(usize),
}

/// Why a set of rules is refused.
#[derive(Clone, Copy, Debug, PartialEq, Eq, Structural)]
pub enum ConfigError {
    /// The default rule is not global, or a route rule is.
    WrongScope,
    /// A rule admits no request at all.
    ZeroLimit,
    /// A rule's window has no length.
    ZeroWindow,
    /// A route rule's pattern is empty.
    EmptyPattern,
}

/// A scope as the contracts speak of it.
pub enum ScopeView {
    Global,
    Route { pattern: Seq<char>, kind: MatchKind },
}

/// A rule as the contracts speak of it: the methods as a set, the numbers
/// without bounds.
pub struct RuleView {
    pub scope: ScopeView,
    pub methods: Set<HttpMethod>,
    pub window: nat,
    pub limit: nat,
}

impl View for Scope {
    type V = ScopeView;

    open spec fn view(&self) -> ScopeView {
        match *self {
            Scope::Global => ScopeView::Global,
            Scope::Route { pattern, kind } => ScopeView::Route { pattern: pattern@, kind },
        }
    }
}

impl View for Rule {
    type V = RuleView;

    open spec fn view(&self) -> RuleView {
        RuleView {
            scope: self.scope@,
            methods: self.methods@.to_set(),
            window: self.window as nat,
            limit: self.limit as nat,
        }
    }
}

impl RuleView {
    /// A rule without methods is for every method; otherwise it is for the
    /// methods it lists.
    pub open spec fn allows(self, method: HttpMethod) -> bool {
        self.methods == Set::<HttpMethod>::empty() || self.methods.contains(method)
    }

    /// Whether a route rule's pattern takes in `path`. A global rule has no
    /// pattern and covers no path as a route.
    pub open spec fn covers(self, path: Seq<char>) -> bool {
        match self.scope {
            ScopeView::Global => false,
            ScopeView::Route { pattern, kind: MatchKind::Exact } => pattern == path,
            ScopeView::Route { pattern, kind: MatchKind::Prefix } => pattern.is_prefix_of(path),
        }
    }

    /// Whether the rule, as a route rule, governs a request.
    pub open spec fn matches(self, path: Seq<char>, method: HttpMethod) -> bool {
        self.covers(path) && self.allows(method)
    }

    /// The first thing that is wrong with the rule in the place it is given
    /// for: `as_route` says whether that is among the route rules.
    pub open spec fn defect(self, as_route: bool) -> Option<ConfigError> {
        if (self.scope is Route) != as_route {
            Some(ConfigError::WrongScope)
        } else if self.limit == 0 {
            Some(ConfigError::ZeroLimit)
        } else if self.window == 0 {
            Some(ConfigError::ZeroWindow)
        } else if self.scope is Route && self.scope->pattern.len() == 0 {
            Some(ConfigError::EmptyPattern)
        } else {
            None
        }
    }
}

impl Rule {
    /// A rule for every request.
    pub fn global(window: u64, limit: u32) -> (rule: Rule)
        ensures
            rule@ == (RuleView {
                scope: ScopeView::Global,
                methods: Set::empty(),
                window: window as nat,
                limit: limit as nat,
            }),
    {
        let rule = Rule { scope: Scope::Global, methods: Vec::new(), window, limit };
        assert(rule.methods@.to_set() =~= Set::empty());
        rule
    }

    /// A rule for the paths that `pattern` takes in, for every method.
    pub fn route(pattern: &str, kind: MatchKind, window: u64, limit: u32) -> (rule: Rule)
        ensures
            rule@ == (RuleView {
                scope: ScopeView::Route { pattern: pattern@, kind },
                methods: Set::empty(),
                window: window as nat,
                limit: limit as nat,
            }),
    {
        let rule = Rule {
            scope: Scope::Route { pattern: pattern.to_owned(), kind },
            methods: Vec::new(),
            window,
            limit,
        };
        assert(rule.methods@.to_set() =~= Set::empty());
        rule
    }

    /// The same rule, restricted to `methods`.
    pub fn for_methods(self, methods: Vec<HttpMethod>) -> (rule: Rule)
        ensures
            rule@ == (RuleView { methods: methods@.to_set(), ..self@ }),
    {
        Rule { scope: self.scope, methods, window: self.window, limit: self.limit }
    }

    /// Whether the rule is for requests of `method`.
    pub fn allows(&self, method: HttpMethod) -> (yes: bool)
        ensures
            yes == self@.allows(method),
    {
        if self.methods.len() == 0 {
            assert(self.methods@.to_set() =~= Set::empty());
            return true;
        }
        assert(self.methods@.to_set().contains(self.methods@[0]));
        let mut i: usize = 0;
        while i < self.methods.len()
            invariant
                i <= self.methods.len(),
                forall|j: int| 0 <= j < i ==> self.methods@[j] != method,
            decreases self.methods.len() - i,
        {
            if self.methods[i] == method {
                return true;
            }
            i += 1;
        }
        false
    }

    /// Looks for what is wrong with the rule in the place it is given for.
    pub fn defect(&self, as_route: bool) -> (found: Option<ConfigError>)
        ensures
            found == self@.defect(as_route),
    {
        let is_route = match &self.scope {
            Scope::Global => false,
            Scope::Route { .. } => true,
        };
        if is_route != as_route {
            return Some(ConfigError::WrongScope);
        }
        if self.limit == 0 {
            return Some(ConfigError::ZeroLimit);
        }
        if self.window == 0 {
            return Some(ConfigError::ZeroWindow);
        }
        match &self.scope {
            Scope::Global => None,
            Scope::Route { pattern, kind: _ } => {
                if pattern.as_str().is_empty() {
                    Some(ConfigError::EmptyPattern)
                } else {
                    None
                }
            },
        }
    }
}

} // verus!
