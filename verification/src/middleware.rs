//! The interception stage: a governor's verdict on a request, and what is
//! answered when the request is not passed on.

use vstd::prelude::*;
use crate::config::GovernorConfig;
use crate::governor::{identity_view, Governor, Verdict};
use crate::method::{map_method, method_of};

verus! {

/// The status of the answer to a request that a rule rejects.
pub const STATUS_TOO_MANY_REQUESTS: u16 = 429;

/// The status of the answer to a request without a client identity.
pub const STATUS_INTERNAL_SERVER_ERROR: u16 = 500;

/// What the stage does with a request.
#[derive(Clone, Copy, Debug, PartialEq, Eq)]
pub enum Outcome {
    /// The request goes on to the inner service unchanged.
    Forward,
    /// The request is answered at once, with this status and plain-text body.
    Respond { status: u16, body: &'static str },
}

/// What a verdict means for the request it was given on.
pub open spec fn outcome_of(verdict: Verdict) -> Outcome {
    match verdict {
        Verdict::Admit => Outcome::Forward,
        Verdict::Reject => Outcome::Respond {
            status: STATUS_TOO_MANY_REQUESTS,
            body: "Too Many Requests",
        },
        Verdict::ConfigurationError => Outcome::Respond {
            status: STATUS_INTERNAL_SERVER_ERROR,
            body: "Internal Server Error: Rate limiter misconfigured",
        },
    }
}

impl Verdict {
    /// What is done with the request that the verdict was given on.
    pub fn outcome(self) -> (outcome: Outcome)
        ensures
            outcome == outcome_of(self),
    {
        match self {
            Verdict::Admit => Outcome::Forward,
            Verdict::Reject => Outcome::Respond {
                status: STATUS_TOO_MANY_REQUESTS,
                body: "Too Many Requests",
            },
            Verdict::ConfigurationError => Outcome::Respond {
                status: STATUS_INTERNAL_SERVER_ERROR,
                body: "Internal Server Error: Rate limiter misconfigured",
            },
        }
    }
}

/// The rate-limiting stage in front of an inner service.
#[derive(Clone, Debug)]
pub struct GovernorMiddleware<S> {
    inner: S,
    config: GovernorConfig,
}

impl<S> GovernorMiddleware<S> {
    /// The inner service.
    pub closed spec fn inner_value(self) -> S {
        self.inner
    }

    /// The settings that the stage decides under.
    pub closed spec fn settings(self) -> GovernorConfig {
        self.config
    }

    /// A stage in front of `inner` that decides under `config`.
    pub fn new(inner: S, config: GovernorConfig) -> (stage: Self)
        ensures
            stage.inner_value() == inner,
            stage.settings() == config,
    {
        Self { inner, config }
    }

    /// The inner service.
    pub fn inner(&self) -> (inner: &S)
        ensures
            *inner == self.inner_value(),
    {
        &self.inner
    }

    /// The inner service, to drive it; the settings stay as they are.
    pub fn inner_mut(&mut self) -> (inner: &mut S)
        ensures
            *inner == old(self).inner_value(),
            final(self).inner_value() == *final(inner),
            final(self).settings() == old(self).settings(),
    {
        &mut self.inner
    }

    /// The settings that the stage decides under.
    pub fn config(&self) -> (config: GovernorConfig)
        ensures
            config == self.settings(),
    {
        self.config
    }

    /// Takes the stage apart into the inner service and the settings.
    pub fn into_parts(self) -> (parts: (S, GovernorConfig))
        ensures
            parts.0 == self.inner_value(),
            parts.1 == self.settings(),
    {
        (self.inner, self.config)
    }

    /// Decides what is done with one request: the governor's verdict under
    /// this stage's settings, for the method that the token names, turned
    /// into the action to take.
    pub fn intercept(
        &self,
        governor: &mut Governor,
        identity: Option<&str>,
        path: &str,
        method: &str,
        now: u64,
    ) -> (outcome: Outcome)
        ensures
            ({
                let (after, verdict) = old(governor)@.decide(
                    identity_view(identity),
                    path@,
                    method_of(method@),
                    self.settings().spec_mode(),
                    now as nat,
                );
                final(governor)@ == after && outcome == outcome_of(verdict)
            }),
    {
        let verdict = governor.evaluate(identity, path, map_method(method), self.config.mode(), now);
        verdict.outcome()
    }
}

} // verus!
