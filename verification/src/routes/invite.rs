//! Invite links.

use vstd::prelude::*;

verus! {

/// The link a fresh invite is handed out as.
pub fn invite_url(client_url: &str, token: &str) -> (r: String)
    ensures
        r@ == client_url@ + "?invite="@ + token@,
{
    let mut s = client_url.to_owned();
    s.append("?invite=");
    s.append(token);
    s
}

} // verus!
