//! What a governor layer is set up with.

use vstd::prelude::*;
use crate::resolver::Mode;

verus! {

/// The settings of one governor layer.
#[derive(Clone, Copy, Debug, PartialEq, Eq, Structural)]
pub struct GovernorConfig {
    /// Whether only route rules are applied and the global rule is left out.
    pub override_mode: bool,
}

impl GovernorConfig {
    /// The settings to begin with: the global rule and the route rules both
    /// apply.
    pub fn new() -> (config: Self)
        ensures
            !config.override_mode,
    {
        GovernorConfig { override_mode: false }
    }

    /// The same settings with override mode switched on or off.
    pub fn override_mode(self, enabled: bool) -> (config: Self)
        ensures
            config.override_mode == enabled,
    {
        GovernorConfig { override_mode: enabled }
    }

    /// Override mode where it is switched on, cumulative mode otherwise.
    pub open spec fn spec_mode(&self) -> Mode {
        if self.override_mode {
            Mode::Override
        } else {
            Mode::Cumulative
        }
    }

    /// The way in which the rules combine under these settings.
    #[verifier::when_used_as_spec(spec_mode)]
    pub fn mode(&self) -> (mode: Mode)
        ensures
            mode == self.spec_mode(),
    {
        if self.override_mode {
            Mode::Override
        } else {
            Mode::Cumulative
        }
    }
}

impl Default for GovernorConfig {
    fn default() -> (config: Self)
        ensures
            !config.override_mode,
    {
        GovernorConfig::new()
    }
}

} // verus!
