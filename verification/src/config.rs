//! Configuration.
use vstd::prelude::*;

verus! {

/// Configuration for the PBFT service.
#[derive(Clone, Debug)]
pub struct Config {
    /// Some local identifier of the voter.
    pub name: Option<String>,
    /// Stores a justification at least every this many blocks.
    pub justification_period: u32,
    /// Chain specific PBFT protocol name.
    pub protocol_name: String,
}

impl Config {
    /// The local identifier of the voter.
    pub fn name(&self) -> (r: &str)
        ensures
            r@ == (match self.name {
                Some(name) => name@,
                None => "<unknown>"@,
            }),
    {
        match &self.name {
            Some(name) => name.as_str(),
            None => "<unknown>",
        }
    }
}

/// A voter goes by its name if it has one, and all others by one and the same.
pub proof fn law_unnamed_voters(config: Config, r: &str)
    requires
        call_ensures(Config::name, (&config,), r),
    ensures
        config.name matches Some(name) ==> r@ == name@,
        config.name is None ==> r@ == "<unknown>"@,
{
}

} // verus!
