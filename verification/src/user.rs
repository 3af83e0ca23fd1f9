//! User records as the processor sees them.

use vstd::prelude::*;

verus! {

/// One user record.  The record store owns it; the processor reads the
/// current value and writes back a full replacement of level, badges and
/// the verification flag.
#[derive(Debug)]
pub struct User {
    /// Record-store identifier, as its 24-character hexadecimal form.
    pub id: String,
    /// Display name, if any.
    pub name: Option<String>,
    /// Contact address, if any.
    pub email: Option<String>,
    /// Current gamification level; never negative.
    pub level: u32,
    /// Names of the badges the user holds, in the order they were granted.
    pub badges: Vec<String>,
    /// Whether the user has been verified; once true, never reset.
    pub verified: bool,
}

impl User {
    /// Leaves the badge list exactly as it was, materializing an empty
    /// list for a record that came without one.
    pub fn ensure_badges(&mut self)
        ensures
            final(self).badges@ == old(self).badges@,
            final(self).id == old(self).id,
            final(self).name == old(self).name,
            final(self).email == old(self).email,
            final(self).level == old(self).level,
            final(self).verified == old(self).verified,
    {
        if self.badges.is_empty() {
            let ghost before = self.badges@;
            self.badges = Vec::new();
            proof {
                assert(self.badges@ =~= before);
            }
        }
    }
}

} // verus!
