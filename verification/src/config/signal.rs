//! Signal configuration.

use vstd::prelude::*;

verus! {

/// The signals that can stop a daemon.
#[derive(Copy, Clone, Eq, PartialEq, Debug, Structural)]
pub enum SignalConfig {
    SIGINT,
    SIGQUIT,
    SIGTERM,
}

impl SignalConfig {
    /// The signal of that name. The names are `SIGINT`, `SIGQUIT` and
    /// `SIGTERM`, in capitals.
    pub open spec fn spec_from_name(name: Seq<char>) -> Option<SignalConfig> {
        if name == "SIGINT"@ {
            Some(SignalConfig::SIGINT)
        } else if name == "SIGQUIT"@ {
            Some(SignalConfig::SIGQUIT)
        } else if name == "SIGTERM"@ {
            Some(SignalConfig::SIGTERM)
        } else {
            None
        }
    }

    /// The signal of that name, if the name is one of the three.
    pub fn from_name(name: &String) -> (signal: Option<SignalConfig>)
        ensures
            signal == Self::spec_from_name(name@),
    {
        if *name == "SIGINT".to_owned() {
            Some(SignalConfig::SIGINT)
        } else if *name == "SIGQUIT".to_owned() {
            Some(SignalConfig::SIGQUIT)
        } else if *name == "SIGTERM".to_owned() {
            Some(SignalConfig::SIGTERM)
        } else {
            None
        }
    }

    /// The name of the signal.
    pub fn name(&self) -> (name: &'static str)
        ensures
            Self::spec_from_name(name@) == Some(*self),
    {
        proof {
            reveal_strlit("SIGINT");
            reveal_strlit("SIGQUIT");
            reveal_strlit("SIGTERM");
            assert("SIGINT"@.len() != "SIGQUIT"@.len());
            assert("SIGINT"@.len() != "SIGTERM"@.len());
            assert("SIGQUIT"@[3] != "SIGTERM"@[3]);
        }
        match self {
            SignalConfig::SIGINT => "SIGINT",
            SignalConfig::SIGQUIT => "SIGQUIT",
            SignalConfig::SIGTERM => "SIGTERM",
        }
    }
}

} // verus!
