//! A token as callers see it: its id, its owner, what describes it and who
//! may move it for the owner.

use crate::approvals::ApprovalSet;
use vstd::prelude::*;

verus! {

/// Identifies a token. Callers choose it; the registry only compares it.
pub type TokenId = String;

/// Identifies an account.
pub type AccountId = String;

/// What describes a token.
#[derive(Debug, PartialEq, Eq)]
pub struct TokenMetadata {
    pub title: String,
    pub description: String,
    /// How many tokens carried this description when it was minted.
    pub copies: u64,
    /// When the token was minted, in milliseconds.
    pub issued_at: u64,
}

/// The value of a [`TokenMetadata`].
pub struct TokenMetadataView {
    pub title: Seq<char>,
    pub description: Seq<char>,
    pub copies: u64,
    pub issued_at: u64,
}

impl View for TokenMetadata {
    type V = TokenMetadataView;

    open spec fn view(&self) -> TokenMetadataView {
        TokenMetadataView {
            title: self.title@,
            description: self.description@,
            copies: self.copies,
            issued_at: self.issued_at,
        }
    }
}

impl Clone for TokenMetadata {
    fn clone(&self) -> (copy: Self)
        ensures
            copy@ == self@,
    {
        TokenMetadata {
            title: self.title.clone(),
            description: self.description.clone(),
            copies: self.copies,
            issued_at: self.issued_at,
        }
    }
}

/// The approvals of a token. A registry that keeps no approvals says so with
/// `NoApprovals`, which is not the same as a token that nobody is approved for.
#[derive(Debug)]
pub enum TokenApprovals {
    NoApprovals,
    ApprovalSet(ApprovalSet),
}

impl View for TokenApprovals {
    type V = Option<Map<Seq<char>, u64>>;

    open spec fn view(&self) -> Option<Map<Seq<char>, u64>> {
        match self {
            TokenApprovals::NoApprovals => None,
            TokenApprovals::ApprovalSet(set) => Some(set@),
        }
    }
}

/// The accounts approved under `approvals`, none where approvals are not kept.
pub open spec fn granted(approvals: Option<Map<Seq<char>, u64>>) -> Map<Seq<char>, u64> {
    match approvals {
        None => Map::empty(),
        Some(grants) => grants,
    }
}

impl TokenApprovals {
    /// The approval set, where there is one, is well formed.
    pub open spec fn wf(&self) -> bool {
        match self {
            TokenApprovals::NoApprovals => true,
            TokenApprovals::ApprovalSet(set) => set.wf(),
        }
    }
}

impl Clone for TokenApprovals {
    fn clone(&self) -> (copy: Self)
        ensures
            self.wf() ==> copy.wf() && copy@ == self@,
    {
        match self {
            TokenApprovals::NoApprovals => TokenApprovals::NoApprovals,
            TokenApprovals::ApprovalSet(set) => TokenApprovals::ApprovalSet(set.clone()),
        }
    }
}

/// A token with everything the registry records of it.
#[derive(Debug)]
pub struct Token {
    pub token_id: TokenId,
    pub owner_id: AccountId,
    pub metadata: Option<TokenMetadata>,
    pub approved_account_ids: TokenApprovals,
}

/// The value of a [`Token`].
pub struct TokenView {
    pub token_id: Seq<char>,
    pub owner_id: Seq<char>,
    pub metadata: Option<TokenMetadataView>,
    pub approved_account_ids: Option<Map<Seq<char>, u64>>,
}

impl View for Token {
    type V = TokenView;

    open spec fn view(&self) -> TokenView {
        TokenView {
            token_id: self.token_id@,
            owner_id: self.owner_id@,
            metadata: match self.metadata {
                Some(m) => Some(m@),
                None => None,
            },
            approved_account_ids: self.approved_account_ids@,
        }
    }
}

/// Everything the registry keeps of one token, as it is written down when
/// the registry is stored and read back.
#[derive(Debug)]
pub struct TokenRecord {
    pub token_id: TokenId,
    pub owner_id: AccountId,
    pub metadata: TokenMetadata,
    pub approved_account_ids: ApprovalSet,
    /// The largest approval id that the token has used, 0 where it has used
    /// none.
    pub last_approval_id: u64,
}

/// The value of a [`TokenRecord`].
pub struct TokenRecordView {
    pub token_id: Seq<char>,
    pub owner_id: Seq<char>,
    pub metadata: TokenMetadataView,
    pub approved_account_ids: Map<Seq<char>, u64>,
    pub last_approval_id: u64,
}

impl View for TokenRecord {
    type V = TokenRecordView;

    open spec fn view(&self) -> TokenRecordView {
        TokenRecordView {
            token_id: self.token_id@,
            owner_id: self.owner_id@,
            metadata: self.metadata@,
            approved_account_ids: self.approved_account_ids@,
            last_approval_id: self.last_approval_id,
        }
    }
}

/// The values of a list of records.
pub open spec fn records_view(records: Seq<TokenRecord>) -> Seq<TokenRecordView> {
    Seq::new(records.len(), |i: int| records[i]@)
}

/// No token id occurs in two records.
pub open spec fn distinct_ids(records: Seq<TokenRecordView>) -> bool {
    forall|i: int, j: int|
        0 <= i < j < records.len() ==> (#[trigger] records[i]).token_id != (#[trigger] records[j]).token_id
}

} // verus!
