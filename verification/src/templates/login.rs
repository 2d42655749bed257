//! What the sign-in page offers an anonymous visitor.  The page itself is
//! rendered outside this crate; the decision of which variant to show is
//! made by the invite check in the root route.

use vstd::prelude::*;

verus! {

/// The sign-up offer shown on the sign-in page: a usable invite, a known
/// but spent invite, or no invite at all.
pub enum LoginInvite {
    Invite(String),
    InvalidInvite,
    NoInvite,
}

} // verus!
