//! What the registry reports of a change of ownership and of a burn. The
//! registry hands each event to its caller, who publishes it.

use vstd::prelude::*;

verus! {

/// The characters of a string that may be absent.
pub open spec fn opt_view(s: Option<String>) -> Option<Seq<char>> {
    match s {
        Some(s) => Some(s@),
        None => None,
    }
}

/// A copy of a string that may be absent.
pub fn clone_opt(s: &Option<String>) -> (copy: Option<String>)
    ensures
        opt_view(copy) == opt_view(*s),
{
    match s {
        Some(s) => Some(s.clone()),
        None => None,
    }
}

/// A token changed its owner.
#[derive(Debug, Clone, PartialEq, Eq)]
pub struct TransferEvent {
    pub old_owner_id: String,
    pub new_owner_id: String,
    pub token_id: String,
    /// The approved account that moved the token, where the owner did not.
    pub authorized_id: Option<String>,
    pub memo: Option<String>,
}

/// The value of a [`TransferEvent`].
pub struct TransferEventView {
    pub old_owner_id: Seq<char>,
    pub new_owner_id: Seq<char>,
    pub token_id: Seq<char>,
    pub authorized_id: Option<Seq<char>>,
    pub memo: Option<Seq<char>>,
}

impl View for TransferEvent {
    type V = TransferEventView;

    open spec fn view(&self) -> TransferEventView {
        TransferEventView {
            old_owner_id: self.old_owner_id@,
            new_owner_id: self.new_owner_id@,
            token_id: self.token_id@,
            authorized_id: opt_view(self.authorized_id),
            memo: opt_view(self.memo),
        }
    }
}

/// A token was destroyed.
#[derive(Debug, Clone, PartialEq, Eq)]
pub struct BurnEvent {
    pub owner_id: String,
    pub token_id: String,
}

/// The value of a [`BurnEvent`].
pub struct BurnEventView {
    pub owner_id: Seq<char>,
    pub token_id: Seq<char>,
}

impl View for BurnEvent {
    type V = BurnEventView;

    open spec fn view(&self) -> BurnEventView {
        BurnEventView { owner_id: self.owner_id@, token_id: self.token_id@ }
    }
}

} // verus!
