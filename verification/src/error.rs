//! The ways in which a call on the registry is rejected.

use vstd::prelude::*;

verus! {

/// Why a call was rejected. A rejected call changes nothing.
#[derive(Debug, Clone, Copy, PartialEq, Eq, Structural)]
pub enum NftError {
    /// The token id names no token.
    NotFound,
    /// The caller is neither the token's owner, nor the administrator, nor an
    /// approved account.
    Unauthorized,
    /// The caller named an approval id other than the one recorded for it.
    ApprovalMismatch,
    /// The receiver already owns the token.
    NoOpTransfer,
    /// The minimal payment was not attached to a payable call.
    InsufficientPayment,
    /// A token with this id exists already.
    AlreadyExists,
    /// Every approval id of the token has been handed out.
    ApprovalIdsExhausted,
}

impl NftError {
    /// The text of the message that belongs to each error.
    pub open spec fn spec_message(self) -> Seq<char> {
        match self {
            NftError::NotFound => "Token not found"@,
            NftError::Unauthorized => "Unauthorized"@,
            NftError::ApprovalMismatch => "The given approval_id is different from the actual approval_id"@,
            NftError::NoOpTransfer => "Current and next owner must differ"@,
            NftError::InsufficientPayment => "Requires attached deposit of at least 1 yoctoNEAR"@,
            NftError::AlreadyExists => "token_id must be unique"@,
            NftError::ApprovalIdsExhausted => "No approval id is left for this token"@,
        }
    }

    /// A message for the caller.
    pub fn message(&self) -> (text: &'static str)
        ensures
            text@ == self.spec_message(),
    {
        match self {
            NftError::NotFound => "Token not found",
            NftError::Unauthorized => "Unauthorized",
            NftError::ApprovalMismatch => "The given approval_id is different from the actual approval_id",
            NftError::NoOpTransfer => "Current and next owner must differ",
            NftError::InsufficientPayment => "Requires attached deposit of at least 1 yoctoNEAR",
            NftError::AlreadyExists => "token_id must be unique",
            NftError::ApprovalIdsExhausted => "No approval id is left for this token",
        }
    }
}

} // verus!
