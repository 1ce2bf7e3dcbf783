//! Configuration errors.

use vstd::prelude::*;

verus! {

/// Why a configuration could not be loaded.
#[derive(Debug)]
pub struct ConfigError {
    desc: String,
}

impl ConfigError {
    /// The stored description, for specifications.
    pub closed spec fn spec_desc(&self) -> Seq<char> {
        self.desc@
    }

    /// An error carrying its description.
    pub fn new(detail: String) -> (r: ConfigError)
        ensures
            r.spec_desc() == "Configuration error: "@ + detail@,
            r.spec_desc().len() > 0,
    {
        let mut desc = String::from_str("Configuration error: ");
        desc.append(detail.as_str());
        proof {
            reveal_strlit("Configuration error: ");
        }
        ConfigError { desc }
    }

    /// The description.
    pub fn description(&self) -> (r: &str)
        ensures
            r@ == self.spec_desc(),
    {
        self.desc.as_str()
    }
}

} // verus!
