//! The registry as a mathematical object: what it records, what must always
//! hold of it, which calls it accepts and what each accepted call changes.
//!
//! The executable registry in [`crate::contract`] is stated against this
//! model: the view of a `Contract` is a [`LedgerState`], and each of its
//! methods answers and changes that view exactly as the model says.

use crate::approvals::highest_id;
use crate::authorizer::{authorize_spec, AuthDecisionView};
use crate::error::NftError;
use crate::events::{BurnEventView, TransferEventView};
use crate::params::TokenCreateMetadataView;
use crate::token::{granted, TokenMetadataView, TokenRecordView, TokenView};
use crate::transfer_call::{PendingTransferView, ReceiverCallView, ReceiverOutcome};
use vstd::prelude::*;

verus! {

/// The least payment that a payable call must carry.
pub const MINIMAL_PAYMENT: u128 = 1;

/// Nanoseconds in a millisecond: the clock counts the former, a token's
/// metadata the latter.
pub const NANOS_PER_MILLI: u64 = 1_000_000;

/// `token` exists under `owners` and `account` owns it.
pub open spec fn owned_by(
    owners: Map<Seq<char>, Seq<char>>,
    token: Seq<char>,
    account: Seq<char>,
) -> bool {
    owners.contains_key(token) && owners[token] == account
}

/// The index that belongs to a ledger: each account that owns a token, with
/// the set of the tokens it owns.
pub open spec fn owner_index(owners: Map<Seq<char>, Seq<char>>) -> Map<Seq<char>, Set<Seq<char>>> {
    Map::new(
        |o: Seq<char>| exists|t: Seq<char>| owned_by(owners, t, o),
        |o: Seq<char>| Set::new(|t: Seq<char>| owned_by(owners, t, o)),
    )
}

/// A token is in an account's set exactly if the ledger names that account as
/// its owner.
pub open spec fn index_agrees(
    index: Map<Seq<char>, Set<Seq<char>>>,
    owners: Map<Seq<char>, Seq<char>>,
) -> bool {
    forall|o: Seq<char>, t: Seq<char>|
        #![trigger index[o].contains(t)]
        #![trigger owned_by(owners, t, o)]
        (index.contains_key(o) && index[o].contains(t)) <==> owned_by(owners, t, o)
}

/// The index holds no empty set.
pub open spec fn index_is_tight(index: Map<Seq<char>, Set<Seq<char>>>) -> bool {
    forall|o: Seq<char>| #[trigger]
        index.contains_key(o) ==> exists|t: Seq<char>| #[trigger] index[o].contains(t)
}

/// The tokens of `owner` under `index`: none where it has no set.
pub open spec fn tokens_of(index: Map<Seq<char>, Set<Seq<char>>>, owner: Seq<char>) -> Set<Seq<char>> {
    if index.contains_key(owner) {
        index[owner]
    } else {
        Set::empty()
    }
}

/// The index with `token` added to the set of `owner`.
pub open spec fn index_with(
    index: Map<Seq<char>, Set<Seq<char>>>,
    owner: Seq<char>,
    token: Seq<char>,
) -> Map<Seq<char>, Set<Seq<char>>> {
    index.insert(owner, tokens_of(index, owner).insert(token))
}

/// The index with `token` taken out of the set of `owner`, and without that
/// set where nothing is left in it.
pub open spec fn index_without(
    index: Map<Seq<char>, Set<Seq<char>>>,
    owner: Seq<char>,
    token: Seq<char>,
) -> Map<Seq<char>, Set<Seq<char>>> {
    if tokens_of(index, owner).remove(token) == Set::<Seq<char>>::empty() {
        index.remove(owner)
    } else {
        index.insert(owner, tokens_of(index, owner).remove(token))
    }
}

/// The metadata that a mint records: the caller's title and description, one
/// copy, and the time of the mint in milliseconds.
pub open spec fn minted_metadata(
    params: TokenCreateMetadataView,
    block_timestamp: u64,
) -> TokenMetadataView {
    TokenMetadataView {
        title: params.title,
        description: params.description,
        copies: 1,
        issued_at: (block_timestamp / NANOS_PER_MILLI) as u64,
    }
}

/// The larger of two numbers.
pub open spec fn max_nat(a: nat, b: nat) -> nat {
    if a >= b {
        a
    } else {
        b
    }
}

/// Everything the registry records.
#[verifier::ext_equal]
pub struct LedgerState {
    /// The administrator of the collection.
    pub owner_id: Seq<char>,
    /// The ledger: the owner of each token that exists.
    pub owner_by_id: Map<Seq<char>, Seq<char>>,
    /// The description of each token.
    pub token_metadata_by_id: Map<Seq<char>, TokenMetadataView>,
    /// The index: for each account that owns a token, the tokens it owns.
    pub tokens_per_owner: Map<Seq<char>, Set<Seq<char>>>,
    /// For each token, the approved accounts with their approval ids.
    pub approvals_by_id: Map<Seq<char>, Map<Seq<char>, u64>>,
    /// For each token, the id that its next approval gets.
    pub next_approval_id_by_id: Map<Seq<char>, nat>,
}

/// Each record of `records` is what `s` keeps of an existing token.
pub open spec fn records_match(s: LedgerState, records: Seq<TokenRecordView>) -> bool {
    forall|i: int|
        0 <= i < records.len() ==> s.owner_by_id.contains_key((#[trigger] records[i]).token_id)
            && records[i] == s.record(records[i].token_id)
}

/// A call on the registry, with what the environment says of its caller.
pub enum Call {
    Mint {
        caller: Seq<char>,
        token_id: Seq<char>,
        receiver_id: Seq<char>,
        metadata: TokenCreateMetadataView,
        block_timestamp: u64,
    },
    Burn { caller: Seq<char>, attached_deposit: u128, token_id: Seq<char> },
    /// A transfer, or the first phase of a transfer with notification.
    Transfer {
        caller: Seq<char>,
        attached_deposit: u128,
        receiver_id: Seq<char>,
        token_id: Seq<char>,
        approval_id: Option<u64>,
    },
    /// The second phase of a transfer with notification.
    Resolve { pending: PendingTransferView, outcome: ReceiverOutcome },
    Approve { caller: Seq<char>, token_id: Seq<char>, account_id: Seq<char> },
    Revoke { caller: Seq<char>, token_id: Seq<char>, account_id: Seq<char> },
    RevokeAll { caller: Seq<char>, token_id: Seq<char> },
}

impl LedgerState {
    /// The registry of `owner_id` before the first mint.
    pub open spec fn init(owner_id: Seq<char>) -> LedgerState {
        LedgerState {
            owner_id,
            owner_by_id: Map::empty(),
            token_metadata_by_id: Map::empty(),
            tokens_per_owner: Map::empty(),
            approvals_by_id: Map::empty(),
            next_approval_id_by_id: Map::empty(),
        }
    }

    /// What holds of the registry between any two calls.
    ///
    /// The index agrees with the ledger and holds no empty set. Metadata,
    /// approvals and approval counters are kept for exactly the tokens that
    /// exist. Every approval id on record lies below its token's counter,
    /// which starts at 1 and stops one above the largest id there is.
    pub open spec fn inv(self) -> bool {
        &&& index_agrees(self.tokens_per_owner, self.owner_by_id)
        &&& index_is_tight(self.tokens_per_owner)
        &&& self.token_metadata_by_id.dom() =~= self.owner_by_id.dom()
        &&& self.approvals_by_id.dom() =~= self.owner_by_id.dom()
        &&& self.next_approval_id_by_id.dom() =~= self.owner_by_id.dom()
        &&& forall|t: Seq<char>, a: Seq<char>|
            self.approvals_by_id.contains_key(t) && #[trigger] self.approvals_by_id[t].contains_key(a)
                ==> self.approvals_by_id[t][a] < self.next_approval_id_by_id[t]
        &&& forall|t: Seq<char>| #[trigger]
            self.next_approval_id_by_id.contains_key(t) ==> 1 <= self.next_approval_id_by_id[t]
                <= u64::MAX + 1
    }

    /// The token `token_id` as callers see it, if it exists.
    pub open spec fn token(self, token_id: Seq<char>) -> Option<TokenView> {
        if self.owner_by_id.contains_key(token_id) {
            Some(
                TokenView {
                    token_id,
                    owner_id: self.owner_by_id[token_id],
                    metadata: if self.token_metadata_by_id.contains_key(token_id) {
                        Some(self.token_metadata_by_id[token_id])
                    } else {
                        None
                    },
                    approved_account_ids: Some(self.approvals_by_id[token_id]),
                },
            )
        } else {
            None
        }
    }

    /// The ledger with a new owner for one token, and the index that belongs
    /// to it.
    pub open spec fn with_owner(self, token_id: Seq<char>, owner: Seq<char>) -> LedgerState {
        let owners = self.owner_by_id.insert(token_id, owner);
        LedgerState { owner_by_id: owners, tokens_per_owner: owner_index(owners), ..self }
    }

    // Mint

    /// Only the administrator mints, and only a token that does not exist.
    pub open spec fn mint_check(self, caller: Seq<char>, token_id: Seq<char>) -> Result<
        (),
        NftError,
    > {
        if caller != self.owner_id {
            Err(NftError::Unauthorized)
        } else if self.owner_by_id.contains_key(token_id) {
            Err(NftError::AlreadyExists)
        } else {
            Ok(())
        }
    }

    /// The registry after the mint of `token_id` for `receiver_id`.
    pub open spec fn mint(
        self,
        token_id: Seq<char>,
        receiver_id: Seq<char>,
        metadata: TokenMetadataView,
    ) -> LedgerState {
        LedgerState {
            token_metadata_by_id: self.token_metadata_by_id.insert(token_id, metadata),
            approvals_by_id: self.approvals_by_id.insert(token_id, Map::empty()),
            next_approval_id_by_id: self.next_approval_id_by_id.insert(token_id, 1),
            ..self.with_owner(token_id, receiver_id)
        }
    }

    // Burn

    /// A burn is payable, needs the token to exist, and is the owner's alone.
    pub open spec fn burn_check(
        self,
        caller: Seq<char>,
        attached_deposit: u128,
        token_id: Seq<char>,
    ) -> Result<(), NftError> {
        if attached_deposit < MINIMAL_PAYMENT {
            Err(NftError::InsufficientPayment)
        } else if !self.owner_by_id.contains_key(token_id) {
            Err(NftError::NotFound)
        } else if caller != self.owner_by_id[token_id] {
            Err(NftError::Unauthorized)
        } else {
            Ok(())
        }
    }

    /// The registry without `token_id`.
    pub open spec fn burn(self, token_id: Seq<char>) -> LedgerState {
        let owners = self.owner_by_id.remove(token_id);
        LedgerState {
            owner_id: self.owner_id,
            owner_by_id: owners,
            token_metadata_by_id: self.token_metadata_by_id.remove(token_id),
            tokens_per_owner: owner_index(owners),
            approvals_by_id: self.approvals_by_id.remove(token_id),
            next_approval_id_by_id: self.next_approval_id_by_id.remove(token_id),
        }
    }

    /// What a burn of `token_id` reports.
    pub open spec fn burn_event(self, token_id: Seq<char>) -> BurnEventView {
        BurnEventView { owner_id: self.owner_by_id[token_id], token_id }
    }

    // Transfer

    /// A transfer is payable, needs the token to exist and the receiver to be
    /// another account than its owner, and needs an authorized caller: the
    /// first of these that fails decides the error.
    pub open spec fn transfer_check(
        self,
        caller: Seq<char>,
        attached_deposit: u128,
        receiver_id: Seq<char>,
        token_id: Seq<char>,
        approval_id: Option<u64>,
    ) -> Result<AuthDecisionView, NftError> {
        if attached_deposit < MINIMAL_PAYMENT {
            Err(NftError::InsufficientPayment)
        } else if !self.owner_by_id.contains_key(token_id) {
            Err(NftError::NotFound)
        } else if self.owner_by_id[token_id] == receiver_id {
            Err(NftError::NoOpTransfer)
        } else {
            authorize_spec(
                caller,
                self.owner_id,
                self.owner_by_id[token_id],
                self.approvals_by_id[token_id],
                approval_id,
            )
        }
    }

    /// The registry after `token_id` went to `receiver_id`: the ledger names
    /// the new owner, the index follows, and the token's approvals are gone.
    pub open spec fn transfer(self, token_id: Seq<char>, receiver_id: Seq<char>) -> LedgerState {
        LedgerState {
            approvals_by_id: self.approvals_by_id.insert(token_id, Map::empty()),
            ..self.with_owner(token_id, receiver_id)
        }
    }

    /// What a transfer of `token_id` to `receiver_id` reports.
    pub open spec fn transfer_event(
        self,
        decision: AuthDecisionView,
        receiver_id: Seq<char>,
        token_id: Seq<char>,
        memo: Option<Seq<char>>,
    ) -> TransferEventView {
        TransferEventView {
            old_owner_id: self.owner_by_id[token_id],
            new_owner_id: receiver_id,
            token_id,
            authorized_id: decision.acting_for_owner(),
            memo,
        }
    }

    // Transfer with notification

    /// What a transfer with notification keeps for its second phase: the
    /// owner and the approvals from before the token moved.
    pub open spec fn pending(self, token_id: Seq<char>, receiver_id: Seq<char>) -> PendingTransferView {
        PendingTransferView {
            token_id,
            previous_owner_id: self.owner_by_id[token_id],
            receiver_id,
            approved_account_ids: Some(self.approvals_by_id[token_id]),
        }
    }

    /// What the receiver of a transfer with notification is told.
    pub open spec fn receiver_call(
        self,
        caller: Seq<char>,
        receiver_id: Seq<char>,
        token_id: Seq<char>,
        memo: Option<Seq<char>>,
        msg: Seq<char>,
    ) -> ReceiverCallView {
        ReceiverCallView {
            receiver_id,
            sender_id: caller,
            previous_owner_id: self.owner_by_id[token_id],
            token_id,
            memo,
            msg,
        }
    }

    /// The second phase needs the token to exist.
    pub open spec fn resolve_check(self, pending: PendingTransferView) -> Result<(), NftError> {
        if !self.owner_by_id.contains_key(pending.token_id) {
            Err(NftError::NotFound)
        } else {
            Ok(())
        }
    }

    /// Whether the second phase takes the token back: the receiver refuses
    /// it and, as the ledger stands now, still owns it.
    pub open spec fn rolls_back(self, pending: PendingTransferView, outcome: ReceiverOutcome) -> bool {
        owned_by(self.owner_by_id, pending.token_id, pending.receiver_id) && outcome.refuses()
    }

    /// The registry after the rollback of `pending`: the previous owner has
    /// the token again, with the approvals it had given. The token's counter
    /// is raised, where it must be, above every approval id that comes back.
    pub open spec fn roll_back(self, pending: PendingTransferView) -> LedgerState {
        let restored = granted(pending.approved_account_ids);
        LedgerState {
            approvals_by_id: self.approvals_by_id.insert(pending.token_id, restored),
            next_approval_id_by_id: self.next_approval_id_by_id.insert(
                pending.token_id,
                max_nat(
                    self.next_approval_id_by_id[pending.token_id],
                    (highest_id(restored) + 1) as nat,
                ),
            ),
            ..self.with_owner(pending.token_id, pending.previous_owner_id)
        }
    }

    /// What a rollback reports: the way back, with no memo and nobody acting
    /// for the owner.
    pub open spec fn roll_back_event(pending: PendingTransferView) -> TransferEventView {
        TransferEventView {
            old_owner_id: pending.receiver_id,
            new_owner_id: pending.previous_owner_id,
            token_id: pending.token_id,
            authorized_id: None,
            memo: None,
        }
    }

    // Approvals

    /// Only the owner of a token that exists approves an account, as long as
    /// an approval id is left. The answer is the id of the new approval.
    pub open spec fn approve_check(self, caller: Seq<char>, token_id: Seq<char>) -> Result<
        u64,
        NftError,
    > {
        if !self.owner_by_id.contains_key(token_id) {
            Err(NftError::NotFound)
        } else if caller != self.owner_by_id[token_id] {
            Err(NftError::Unauthorized)
        } else if self.next_approval_id_by_id[token_id] > u64::MAX {
            Err(NftError::ApprovalIdsExhausted)
        } else {
            Ok(self.next_approval_id_by_id[token_id] as u64)
        }
    }

    /// The registry after `account_id` was approved for `token_id`: it holds
    /// the id that was next, and the counter has moved on.
    pub open spec fn approve(self, token_id: Seq<char>, account_id: Seq<char>) -> LedgerState {
        let id = self.next_approval_id_by_id[token_id];
        LedgerState {
            approvals_by_id: self.approvals_by_id.insert(
                token_id,
                self.approvals_by_id[token_id].insert(account_id, id as u64),
            ),
            next_approval_id_by_id: self.next_approval_id_by_id.insert(token_id, id + 1),
            ..self
        }
    }

    /// Only the owner of a token that exists withdraws approvals.
    pub open spec fn revoke_check(self, caller: Seq<char>, token_id: Seq<char>) -> Result<
        (),
        NftError,
    > {
        if !self.owner_by_id.contains_key(token_id) {
            Err(NftError::NotFound)
        } else if caller != self.owner_by_id[token_id] {
            Err(NftError::Unauthorized)
        } else {
            Ok(())
        }
    }

    /// The registry after the approval of `account_id` for `token_id` was
    /// withdrawn.
    pub open spec fn revoke(self, token_id: Seq<char>, account_id: Seq<char>) -> LedgerState {
        LedgerState {
            approvals_by_id: self.approvals_by_id.insert(
                token_id,
                self.approvals_by_id[token_id].remove(account_id),
            ),
            ..self
        }
    }

    /// The registry after every approval for `token_id` was withdrawn.
    pub open spec fn revoke_all(self, token_id: Seq<char>) -> LedgerState {
        LedgerState { approvals_by_id: self.approvals_by_id.insert(token_id, Map::empty()), ..self }
    }

    /// Whether `account_id` is approved for `token_id`, under `approval_id`
    /// where one is named.
    pub open spec fn is_approved(
        self,
        token_id: Seq<char>,
        account_id: Seq<char>,
        approval_id: Option<u64>,
    ) -> bool {
        &&& self.approvals_by_id.contains_key(token_id)
        &&& self.approvals_by_id[token_id].contains_key(account_id)
        &&& approval_id matches Some(id) ==> self.approvals_by_id[token_id][account_id] == id
    }

    // Storing and reading back

    /// What is written down of the token `token_id`.
    pub open spec fn record(self, token_id: Seq<char>) -> TokenRecordView {
        TokenRecordView {
            token_id,
            owner_id: self.owner_by_id[token_id],
            metadata: self.token_metadata_by_id[token_id],
            approved_account_ids: self.approvals_by_id[token_id],
            last_approval_id: (self.next_approval_id_by_id[token_id] - 1) as u64,
        }
    }

    /// The registry with the token of `record` added. Its counter is set
    /// above every approval id that the record holds.
    pub open spec fn load(self, record: TokenRecordView) -> LedgerState {
        LedgerState {
            token_metadata_by_id: self.token_metadata_by_id.insert(record.token_id, record.metadata),
            approvals_by_id: self.approvals_by_id.insert(
                record.token_id,
                record.approved_account_ids,
            ),
            next_approval_id_by_id: self.next_approval_id_by_id.insert(
                record.token_id,
                max_nat(
                    (record.last_approval_id + 1) as nat,
                    (highest_id(record.approved_account_ids) + 1) as nat,
                ),
            ),
            ..self.with_owner(record.token_id, record.owner_id)
        }
    }

    /// The registry of `owner_id` that holds the tokens of `records`.
    pub open spec fn loaded(owner_id: Seq<char>, records: Seq<TokenRecordView>) -> LedgerState
        decreases records.len(),
    {
        if records.len() == 0 {
            LedgerState::init(owner_id)
        } else {
            LedgerState::loaded(owner_id, records.drop_first()).load(records.first())
        }
    }

    /// The part of the registry that concerns the tokens of `ids`.
    pub open spec fn restrict(self, ids: Set<Seq<char>>) -> LedgerState {
        let owners = self.owner_by_id.restrict(ids);
        LedgerState {
            owner_id: self.owner_id,
            owner_by_id: owners,
            token_metadata_by_id: self.token_metadata_by_id.restrict(ids),
            tokens_per_owner: owner_index(owners),
            approvals_by_id: self.approvals_by_id.restrict(ids),
            next_approval_id_by_id: self.next_approval_id_by_id.restrict(ids),
        }
    }

    // Calls in sequence

    /// The registry after `call`: changed as the call says where the call is
    /// accepted, and unchanged where it is rejected.
    pub open spec fn step(self, call: Call) -> LedgerState {
        match call {
            Call::Mint { caller, token_id, receiver_id, metadata, block_timestamp } => {
                if self.mint_check(caller, token_id) is Ok {
                    self.mint(token_id, receiver_id, minted_metadata(metadata, block_timestamp))
                } else {
                    self
                }
            },
            Call::Burn { caller, attached_deposit, token_id } => {
                if self.burn_check(caller, attached_deposit, token_id) is Ok {
                    self.burn(token_id)
                } else {
                    self
                }
            },
            Call::Transfer { caller, attached_deposit, receiver_id, token_id, approval_id } => {
                if self.transfer_check(caller, attached_deposit, receiver_id, token_id, approval_id) is Ok {
                    self.transfer(token_id, receiver_id)
                } else {
                    self
                }
            },
            Call::Resolve { pending, outcome } => {
                if self.rolls_back(pending, outcome) {
                    self.roll_back(pending)
                } else {
                    self
                }
            },
            Call::Approve { caller, token_id, account_id } => {
                if self.approve_check(caller, token_id) is Ok {
                    self.approve(token_id, account_id)
                } else {
                    self
                }
            },
            Call::Revoke { caller, token_id, account_id } => {
                if self.revoke_check(caller, token_id) is Ok {
                    self.revoke(token_id, account_id)
                } else {
                    self
                }
            },
            Call::RevokeAll { caller, token_id } => {
                if self.revoke_check(caller, token_id) is Ok {
                    self.revoke_all(token_id)
                } else {
                    self
                }
            },
        }
    }

    /// The registry after the calls of `calls`, one after the other.
    pub open spec fn run(self, calls: Seq<Call>) -> LedgerState
        decreases calls.len(),
    {
        if calls.len() == 0 {
            self
        } else {
            self.run(calls.drop_last()).step(calls.last())
        }
    }
}

} // verus!
