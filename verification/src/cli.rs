//! Which bash versions a search or a generation is made for.

use vstd::prelude::*;

verus! {

#[derive(Copy, Clone, PartialEq, Eq, PartialOrd, Ord, Debug, Structural)]
pub enum Version {
    /// Bash versions 5.0 and older
    Old,
    /// Bash versions 5.1 and newer
    New,
    /// Try both old and new versions if unsure
    Both,
}

impl Version {
    /// The rule, old or new, is one that this choice of versions takes in.
    pub open spec fn allows(self, is_old: bool) -> bool {
        match self {
            Version::Old => is_old,
            Version::New => !is_old,
            Version::Both => true,
        }
    }

    /// The choice that takes in one rule only.
    pub open spec fn only(is_old: bool) -> Version {
        if is_old {
            Version::Old
        } else {
            Version::New
        }
    }

    /// Whether the old rule and whether the new rule is taken in, in this order.
    pub fn flags(self) -> (flags: (bool, bool))
        ensures
            flags.0 == self.allows(true),
            flags.1 == self.allows(false),
    {
        match self {
            Version::Old => (true, false),
            Version::New => (false, true),
            Version::Both => (true, true),
        }
    }
}

} // verus!
