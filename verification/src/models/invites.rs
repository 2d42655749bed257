//! Invites: they gate whether anonymous visitors may initiate sign-up.

use crate::error::ApiResult;
use vstd::prelude::*;

verus! {

/// Lifecycle of an invite.
#[derive(Debug, Clone, Copy, PartialEq, Eq, Structural)]
pub enum InviteStatus {
    Sent,
    Accepted,
    Revoked,
}

/// The label under which a status is stored, if the label is recognized.
pub open spec fn status_of_label(s: Seq<char>) -> Option<InviteStatus> {
    if s == "sent"@ {
        Some(InviteStatus::Sent)
    } else if s == "accepted"@ {
        Some(InviteStatus::Accepted)
    } else if s == "revoked"@ {
        Some(InviteStatus::Revoked)
    } else {
        None
    }
}

pub open spec fn label_of_status(s: InviteStatus) -> Seq<char> {
    match s {
        InviteStatus::Sent => "sent"@,
        InviteStatus::Accepted => "accepted"@,
        InviteStatus::Revoked => "revoked"@,
    }
}

impl InviteStatus {
    /// Reads a stored status label; an unknown label is rejected rather
    /// than taken for any status.
    pub fn from_label(s: &str) -> (r: Option<InviteStatus>)
        ensures
            r == status_of_label(s@),
    {
        if crate::codec::str_eq(s, "sent") {
            Some(InviteStatus::Sent)
        } else if crate::codec::str_eq(s, "accepted") {
            Some(InviteStatus::Accepted)
        } else if crate::codec::str_eq(s, "revoked") {
            Some(InviteStatus::Revoked)
        } else {
            proof {
                reveal_strlit("sent");
                reveal_strlit("accepted");
                reveal_strlit("revoked");
            }
            None
        }
    }

    pub fn label(&self) -> (r: &'static str)
        ensures
            r@ == label_of_status(*self),
    {
        match self {
            InviteStatus::Sent => "sent",
            InviteStatus::Accepted => "accepted",
            InviteStatus::Revoked => "revoked",
        }
    }
}

/// Stored labels read back as the status that wrote them.
pub proof fn lemma_status_label_round_trip(s: InviteStatus)
    ensures
        status_of_label(label_of_status(s)) == Some(s),
{
    reveal_strlit("sent");
    reveal_strlit("accepted");
    reveal_strlit("revoked");
    assert("sent"@.len() == 4);
    assert("accepted"@.len() == 8);
    assert("revoked"@.len() == 7);
}

/// Ghost form of an invite.
pub struct InviteView {
    pub id: Seq<char>,
    pub sender_id: Seq<char>,
    pub status: InviteStatus,
    pub created_at: int,
}

/// An invite record.
#[verifier::ext_equal]
pub struct Invite {
    pub id: String,
    pub sender_id: String,
    pub status: InviteStatus,
    pub created_at: i64,
}

impl View for Invite {
    type V = InviteView;

    open spec fn view(&self) -> InviteView {
        InviteView {
            id: self.id@,
            sender_id: self.sender_id@,
            status: self.status,
            created_at: self.created_at as int,
        }
    }
}

/// Invite capability: lookup, creation, and status change.
pub trait InviteDataLayer: crate::database::StoreModel {
    fn get_invite(&self, id: &str) -> (r: ApiResult<Option<Invite>>)
        ensures
            match r {
                Ok(Some(inv)) => self.invites().contains_key(id@) && inv@ == self.invites()[id@]
                    && inv@.id == id@,
                Ok(None) => !self.invites().contains_key(id@),
                Err(_) => true,
            },
    ;

    /// A fresh invite in the `Sent` state, from `sender`.
    fn create_invite(&mut self, sender: &str) -> (r: ApiResult<String>)
        ensures
            crate::database::only_invites_changed(*old(self), *final(self)),
            match r {
                Ok(id) => {
                    &&& !old(self).invites().contains_key(id@)
                    &&& final(self).invites().contains_key(id@)
                    &&& final(self).invites()[id@].sender_id == sender@
                    &&& final(self).invites()[id@].status == InviteStatus::Sent
                    &&& final(self).invites() == old(self).invites().insert(
                        id@,
                        final(self).invites()[id@],
                    )
                },
                Err(_) => final(self).invites() == old(self).invites(),
            },
    ;

    fn update_invite(&mut self, id: &str, status: InviteStatus) -> (r: ApiResult<()>)
        ensures
            crate::database::only_invites_changed(*old(self), *final(self)),
            match r {
                Ok(_) => if old(self).invites().contains_key(id@) {
                    final(self).invites() == old(self).invites().insert(
                        id@,
                        InviteView {
                            status,
                            ..old(self).invites()[id@]
                        },
                    )
                } else {
                    final(self).invites() == old(self).invites()
                },
                Err(_) => final(self).invites() == old(self).invites(),
            },
    ;
}

} // verus!
