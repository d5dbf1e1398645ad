//! The registry itself: the ledger of owners with its index, the approvals
//! and the metadata, and the calls that read and change them.
//!
//! Every call takes what the environment knows of it (who calls, what payment
//! is attached, what time it is) as plain arguments and hands back what is to
//! be published. A call that is rejected returns the error and leaves the
//! registry as it was.

use crate::approvals::ApprovalSet;
use crate::authorizer::{authorize, AuthDecision, AuthDecisionView};
use crate::error::NftError;
use crate::events::{clone_opt, opt_view, BurnEvent, TransferEvent};
use crate::metadata::ContractMetadata;
use crate::model::{
    index_with, index_without, minted_metadata, owned_by, owner_index, records_match, tokens_of,
    Call, LedgerState, MINIMAL_PAYMENT, NANOS_PER_MILLI,
};
use crate::params::TokenCreateMetadata;
use crate::string_map::StringMap;
use crate::string_set::StringSet;
use crate::theorems::{
    lemma_approve_inv, lemma_burn_inv, lemma_index_determined, lemma_index_with,
    lemma_index_without, lemma_load_inv, lemma_mint_inv, lemma_owner_index, lemma_revoke_inv,
    lemma_roll_back_inv, lemma_transfer_inv, stored_registry_reads_back,
};
use crate::token::{
    distinct_ids, granted, records_view, AccountId, Token, TokenApprovals, TokenId, TokenMetadata,
    TokenRecord,
};
use crate::transfer_call::{
    PendingTransfer, ReceiverCall, ReceiverOutcome, Resolution, ResolutionView, TransferCall,
};
use vstd::prelude::*;

verus! {

/// The ledger as a mathematical map.
spec fn owners_view(owners: StringMap<AccountId>) -> Map<Seq<char>, Seq<char>> {
    Map::new(|t: Seq<char>| owners@.contains_key(t), |t: Seq<char>| owners@[t]@)
}

/// The index as a mathematical map.
spec fn index_view(index: StringMap<StringSet>) -> Map<Seq<char>, Set<Seq<char>>> {
    Map::new(|o: Seq<char>| index@.contains_key(o), |o: Seq<char>| index@[o]@)
}

/// Every set of the index is well formed.
spec fn index_wf(index: StringMap<StringSet>) -> bool {
    &&& index.wf()
    &&& forall|o: Seq<char>| #[trigger] index@.contains_key(o) ==> index@[o].wf()
}

/// Every approval set of the registry is well formed.
spec fn approvals_wf(approvals: StringMap<ApprovalSet>) -> bool {
    &&& approvals.wf()
    &&& forall|t: Seq<char>| #[trigger] approvals@.contains_key(t) ==> approvals@[t].wf()
}

/// Puts `token_id` into the set of `owner_id`, which it makes if need be.
fn index_insert(index: &mut StringMap<StringSet>, owner_id: &AccountId, token_id: &TokenId)
    requires
        index_wf(*old(index)),
    ensures
        index_wf(*final(index)),
        index_view(*final(index)) == index_with(index_view(*old(index)), owner_id@, token_id@),
{
    let mut tokens = match index.remove(owner_id) {
        Some(tokens) => tokens,
        None => StringSet::new(),
    };
    tokens.insert(token_id.clone());
    index.insert(owner_id.clone(), tokens);
    assert(index_view(*index) =~= index_with(index_view(*old(index)), owner_id@, token_id@));
}

/// Takes `token_id` out of the set of `owner_id`, and drops the set where
/// that leaves it empty.
fn index_remove(index: &mut StringMap<StringSet>, owner_id: &AccountId, token_id: &TokenId)
    requires
        index_wf(*old(index)),
    ensures
        index_wf(*final(index)),
        index_view(*final(index)) == index_without(index_view(*old(index)), owner_id@, token_id@),
{
    match index.remove(owner_id) {
        Some(tokens) => {
            let mut tokens = tokens;
            tokens.remove(token_id);
            if !tokens.is_empty() {
                index.insert(owner_id.clone(), tokens);
                assert(index_view(*index) =~= index_without(
                    index_view(*old(index)),
                    owner_id@,
                    token_id@,
                ));
            } else {
                assert(index_view(*index) =~= index_view(*old(index)).remove(owner_id@));
            }
        },
        None => {
            assert(Set::<Seq<char>>::empty().remove(token_id@) =~= Set::<Seq<char>>::empty());
            assert(index_view(*index) =~= index_view(*old(index)).remove(owner_id@));
        },
    }
}

/// The registry.
#[derive(Debug)]
pub struct Contract {
    state_version: u64,
    /// The administrator of the collection.
    owner_id: AccountId,
    /// The ledger: who owns each token.
    owner_by_id: StringMap<AccountId>,
    token_metadata_by_id: StringMap<TokenMetadata>,
    /// The index: which tokens each account owns.
    tokens_per_owner: StringMap<StringSet>,
    /// The approvals of each token that has any.
    approvals_by_id: StringMap<ApprovalSet>,
    /// The largest approval id that each token has used, for each that has
    /// used one.
    last_approval_id_by_id: StringMap<u64>,
    metadata: ContractMetadata,
}

impl View for Contract {
    type V = LedgerState;

    closed spec fn view(&self) -> LedgerState {
        LedgerState {
            owner_id: self.owner_id@,
            owner_by_id: owners_view(self.owner_by_id),
            token_metadata_by_id: Map::new(
                |t: Seq<char>| self.token_metadata_by_id@.contains_key(t),
                |t: Seq<char>| self.token_metadata_by_id@[t]@,
            ),
            tokens_per_owner: index_view(self.tokens_per_owner),
            approvals_by_id: Map::new(
                |t: Seq<char>| self.owner_by_id@.contains_key(t),
                |t: Seq<char>|
                    if self.approvals_by_id@.contains_key(t) {
                        self.approvals_by_id@[t]@
                    } else {
                        Map::empty()
                    },
            ),
            next_approval_id_by_id: Map::new(
                |t: Seq<char>| self.owner_by_id@.contains_key(t),
                |t: Seq<char>|
                    if self.last_approval_id_by_id@.contains_key(t) {
                        (self.last_approval_id_by_id@[t] + 1) as nat
                    } else {
                        1nat
                    },
            ),
        }
    }
}

impl Contract {
    /// The registry is sound: its maps are well formed, it keeps approvals
    /// and counters only for tokens that exist, its metadata is valid, and
    /// its view is as the model demands.
    pub closed spec fn wf(&self) -> bool {
        &&& self.owner_by_id.wf()
        &&& self.token_metadata_by_id.wf()
        &&& index_wf(self.tokens_per_owner)
        &&& approvals_wf(self.approvals_by_id)
        &&& self.last_approval_id_by_id.wf()
        &&& forall|t: Seq<char>| #[trigger]
            self.approvals_by_id@.contains_key(t) ==> self.owner_by_id@.contains_key(t)
        &&& forall|t: Seq<char>| #[trigger]
            self.last_approval_id_by_id@.contains_key(t) ==> self.owner_by_id@.contains_key(t)
        &&& self.metadata.valid()
        &&& self@.inv()
    }

    /// A sound registry is as the model demands.
    pub proof fn lemma_wf_inv(&self)
        requires
            self.wf(),
        ensures
            self@.inv(),
    {
    }

    /// In a sound registry the index agrees with the ledger: a token is in
    /// an account's set exactly if the ledger names that account as its
    /// owner. Every call keeps the registry sound, so this holds after every
    /// call and every sequence of calls.
    pub proof fn lemma_index_agrees(&self, account_id: Seq<char>, token_id: Seq<char>)
        requires
            self.wf(),
        ensures
            (self@.tokens_per_owner.contains_key(account_id)
                && self@.tokens_per_owner[account_id].contains(token_id)) <==> (
            self@.owner_by_id.contains_key(token_id) && self@.owner_by_id[token_id] == account_id),
    {
        assert(owned_by(self@.owner_by_id, token_id, account_id) <==> (
        self@.owner_by_id.contains_key(token_id) && self@.owner_by_id[token_id] == account_id));
    }

    /// The version of the layout of the registry.
    pub closed spec fn spec_state_version(&self) -> u64 {
        self.state_version
    }

    /// The description of the collection.
    pub closed spec fn spec_metadata(&self) -> ContractMetadata {
        self.metadata
    }

    /// A registry without tokens, administered by `owner_id`.
    pub fn new(owner_id: AccountId) -> (contract: Self)
        ensures
            contract.wf(),
            contract@ == LedgerState::init(owner_id@),
            contract.spec_state_version() == 1,
            contract.spec_metadata().valid(),
            contract.spec_metadata().name@ == "eTEU Transfer"@,
            contract.spec_metadata().symbol@ == "ETEUV1"@,
            contract.spec_metadata().icon is None,
            contract.spec_metadata().base_uri is None,
            contract.spec_metadata().reference is None,
            contract.spec_metadata().reference_hash is None,
    {
        let metadata = ContractMetadata {
            standard: "nft-1.0.0".to_owned(),
            name: "eTEU Transfer".to_owned(),
            symbol: "ETEUV1".to_owned(),
            icon: None,
            base_uri: None,
            reference: None,
            reference_hash: None,
        };
        let contract = Contract {
            state_version: 1,
            owner_id,
            owner_by_id: StringMap::new(),
            token_metadata_by_id: StringMap::new(),
            tokens_per_owner: StringMap::new(),
            approvals_by_id: StringMap::new(),
            last_approval_id_by_id: StringMap::new(),
            metadata,
        };
        assert(contract@ =~~= LedgerState::init(owner_id@));
        contract
    }

    /// The version of the layout of the registry.
    pub fn state_version(&self) -> (version: u64)
        ensures
            version == self.spec_state_version(),
    {
        self.state_version
    }

    /// The administrator of the collection.
    pub fn owner_id(&self) -> (owner_id: &AccountId)
        ensures
            owner_id@ == self@.owner_id,
    {
        &self.owner_id
    }

    /// The description of the collection.
    pub fn metadata(&self) -> (metadata: &ContractMetadata)
        ensures
            *metadata == self.spec_metadata(),
    {
        &self.metadata
    }

    /// The token `token_id` with its owner, metadata and approvals, if it
    /// exists.
    pub fn nft_token(&self, token_id: TokenId) -> (token: Option<Token>)
        requires
            self.wf(),
        ensures
            match token {
                Some(token) => Some(token@) == self@.token(token_id@)
                    && token.approved_account_ids.wf(),
                None => self@.token(token_id@) is None,
            },
            token is Some <==> self@.owner_by_id.contains_key(token_id@),
    {
        let owner_id = match self.owner_by_id.get(&token_id) {
            Some(owner_id) => owner_id.clone(),
            None => {
                return None;
            },
        };
        let metadata = match self.token_metadata_by_id.get(&token_id) {
            Some(metadata) => Some(metadata.clone()),
            None => None,
        };
        let approvals = match self.approvals_by_id.get(&token_id) {
            Some(approvals) => approvals.clone(),
            None => ApprovalSet::new(),
        };
        Some(
            Token {
                token_id,
                owner_id,
                metadata,
                approved_account_ids: TokenApprovals::ApprovalSet(approvals),
            },
        )
    }
    /// Mints `token_id` for `receiver_id`, described by `token_metadata` and
    /// stamped with the time `block_timestamp`, which counts nanoseconds.
    ///
    /// Only the administrator mints: any other `caller` is `Unauthorized`. A
    /// `token_id` that exists already is rejected with `AlreadyExists`, and
    /// the token that has it stays as it is.
    pub fn nft_mint(
        &mut self,
        caller: &AccountId,
        token_id: TokenId,
        receiver_id: AccountId,
        token_metadata: TokenCreateMetadata,
        block_timestamp: u64,
    ) -> (result: Result<Token, NftError>)
        requires
            old(self).wf(),
        ensures
            final(self).wf(),
            final(self).spec_state_version() == old(self).spec_state_version(),
            final(self).spec_metadata() == old(self).spec_metadata(),
            final(self)@ == old(self)@.step(
                (Call::Mint {
                    caller: caller@,
                    token_id: token_id@,
                    receiver_id: receiver_id@,
                    metadata: token_metadata@,
                    block_timestamp,
                }),
            ),
            match result {
                Ok(token) => {
                    &&& old(self)@.mint_check(caller@, token_id@) is Ok
                    &&& final(self)@ == old(self)@.mint(
                        token_id@,
                        receiver_id@,
                        minted_metadata(token_metadata@, block_timestamp),
                    )
                    &&& Some(token@) == final(self)@.token(token_id@)
                    &&& token.approved_account_ids.wf()
                },
                Err(e) => {
                    &&& old(self)@.mint_check(caller@, token_id@) == Err::<(), NftError>(e)
                    &&& final(self)@ == old(self)@
                },
            },
    {
        if !(*caller == self.owner_id) {
            return Err(NftError::Unauthorized);
        }
        if self.owner_by_id.contains_key(&token_id) {
            return Err(NftError::AlreadyExists);
        }
        let metadata = TokenMetadata {
            title: token_metadata.title,
            description: token_metadata.description,
            copies: 1,
            issued_at: block_timestamp / NANOS_PER_MILLI,
        };
        self.owner_by_id.insert(token_id.clone(), receiver_id.clone());
        self.token_metadata_by_id.insert(token_id.clone(), metadata.clone());
        index_insert(&mut self.tokens_per_owner, &receiver_id, &token_id);
        proof {
            let before = old(self)@;
            let after = before.mint(token_id@, receiver_id@, metadata@);
            assert(metadata@ == minted_metadata(token_metadata@, block_timestamp));
            assert(owners_view(self.owner_by_id) =~= before.owner_by_id.insert(token_id@, receiver_id@));
            lemma_index_with(before.tokens_per_owner, before.owner_by_id, receiver_id@, token_id@);
            assert(self@ =~~= after);
            lemma_mint_inv(before, token_id@, receiver_id@, metadata@);
        }
        Ok(
            Token {
                token_id,
                owner_id: receiver_id,
                metadata: Some(metadata),
                approved_account_ids: TokenApprovals::ApprovalSet(ApprovalSet::new()),
            },
        )
    }
    /// Burns `token_id`: takes it out of the ledger, the index, the approvals
    /// and the metadata at once, and reports the burn.
    ///
    /// The call is payable, and only the owner burns: in this order it is
    /// rejected with `InsufficientPayment`, with `NotFound` for a token that
    /// does not exist, and with `Unauthorized` for any other `caller`.
    pub fn nft_burn(&mut self, caller: &AccountId, attached_deposit: u128, token_id: TokenId) -> (result:
        Result<BurnEvent, NftError>)
        requires
            old(self).wf(),
        ensures
            final(self).wf(),
            final(self).spec_state_version() == old(self).spec_state_version(),
            final(self).spec_metadata() == old(self).spec_metadata(),
            final(self)@ == old(self)@.step(
                (Call::Burn { caller: caller@, attached_deposit, token_id: token_id@ }),
            ),
            match result {
                Ok(event) => {
                    &&& old(self)@.burn_check(caller@, attached_deposit, token_id@) is Ok
                    &&& final(self)@ == old(self)@.burn(token_id@)
                    &&& event@ == old(self)@.burn_event(token_id@)
                },
                Err(e) => {
                    &&& old(self)@.burn_check(caller@, attached_deposit, token_id@) == Err::<
                        (),
                        NftError,
                    >(e)
                    &&& final(self)@ == old(self)@
                },
            },
    {
        if attached_deposit < MINIMAL_PAYMENT {
            return Err(NftError::InsufficientPayment);
        }
        let owner_id = match self.owner_by_id.get(&token_id) {
            Some(owner_id) => owner_id.clone(),
            None => {
                return Err(NftError::NotFound);
            },
        };
        if !(*caller == owner_id) {
            return Err(NftError::Unauthorized);
        }
        self.last_approval_id_by_id.remove(&token_id);
        self.approvals_by_id.remove(&token_id);
        index_remove(&mut self.tokens_per_owner, &owner_id, &token_id);
        self.token_metadata_by_id.remove(&token_id);
        self.owner_by_id.remove(&token_id);
        proof {
            let before = old(self)@;
            assert(owners_view(self.owner_by_id) =~= before.owner_by_id.remove(token_id@));
            lemma_index_without(before.tokens_per_owner, before.owner_by_id, owner_id@, token_id@);
            assert(self@ =~~= before.burn(token_id@));
            lemma_burn_inv(before, token_id@);
        }
        Ok(BurnEvent { owner_id, token_id })
    }

    /// Moves `token_id` from `owner_id` to `receiver_id`: clears and returns
    /// the token's approvals, names the new owner in the ledger and brings
    /// the index in step.
    fn execute(&mut self, token_id: &TokenId, owner_id: &AccountId, receiver_id: &AccountId) -> (cleared:
        ApprovalSet)
        requires
            old(self).wf(),
            owned_by(old(self)@.owner_by_id, token_id@, owner_id@),
            owner_id@ != receiver_id@,
        ensures
            final(self).wf(),
            final(self).spec_state_version() == old(self).spec_state_version(),
            final(self).spec_metadata() == old(self).spec_metadata(),
            final(self)@ == old(self)@.transfer(token_id@, receiver_id@),
            cleared.wf(),
            cleared@ == old(self)@.approvals_by_id[token_id@],
    {
        let cleared = match self.approvals_by_id.remove(token_id) {
            Some(approvals) => approvals,
            None => ApprovalSet::new(),
        };
        self.owner_by_id.insert(token_id.clone(), receiver_id.clone());
        index_remove(&mut self.tokens_per_owner, owner_id, token_id);
        index_insert(&mut self.tokens_per_owner, receiver_id, token_id);
        proof {
            let before = old(self)@;
            let without = before.owner_by_id.remove(token_id@);
            assert(owners_view(self.owner_by_id) =~= before.owner_by_id.insert(token_id@, receiver_id@));
            assert(without.insert(token_id@, receiver_id@) =~= before.owner_by_id.insert(
                token_id@,
                receiver_id@,
            ));
            lemma_index_without(before.tokens_per_owner, before.owner_by_id, owner_id@, token_id@);
            lemma_owner_index(without);
            lemma_index_with(owner_index(without), without, receiver_id@, token_id@);
            assert(self@ =~~= before.transfer(token_id@, receiver_id@));
            lemma_transfer_inv(before, token_id@, receiver_id@);
        }
        cleared
    }
    /// Checks a transfer and, where it is accepted, executes it. Returns the
    /// previous owner, the capacity in which the caller moved the token, and
    /// the approvals that the transfer cleared.
    fn internal_transfer(
        &mut self,
        caller: &AccountId,
        attached_deposit: u128,
        receiver_id: &AccountId,
        token_id: &TokenId,
        approval_id: Option<u64>,
    ) -> (result: Result<(AccountId, AuthDecision, ApprovalSet), NftError>)
        requires
            old(self).wf(),
        ensures
            final(self).wf(),
            final(self).spec_state_version() == old(self).spec_state_version(),
            final(self).spec_metadata() == old(self).spec_metadata(),
            match result {
                Ok((previous_owner_id, decision, cleared)) => {
                    &&& old(self)@.transfer_check(
                        caller@,
                        attached_deposit,
                        receiver_id@,
                        token_id@,
                        approval_id,
                    ) == Ok::<AuthDecisionView, NftError>(decision@)
                    &&& final(self)@ == old(self)@.transfer(token_id@, receiver_id@)
                    &&& previous_owner_id@ == old(self)@.owner_by_id[token_id@]
                    &&& cleared.wf()
                    &&& cleared@ == old(self)@.approvals_by_id[token_id@]
                },
                Err(e) => {
                    &&& old(self)@.transfer_check(
                        caller@,
                        attached_deposit,
                        receiver_id@,
                        token_id@,
                        approval_id,
                    ) == Err::<AuthDecisionView, NftError>(e)
                    &&& final(self)@ == old(self)@
                },
            },
    {
        if attached_deposit < MINIMAL_PAYMENT {
            return Err(NftError::InsufficientPayment);
        }
        let owner_id = match self.owner_by_id.get(token_id) {
            Some(owner_id) => owner_id.clone(),
            None => {
                return Err(NftError::NotFound);
            },
        };
        if owner_id == *receiver_id {
            return Err(NftError::NoOpTransfer);
        }
        let decision = match authorize(
            caller,
            &self.owner_id,
            &owner_id,
            self.approvals_by_id.get(token_id),
            approval_id,
        ) {
            Ok(decision) => decision,
            Err(e) => {
                return Err(e);
            },
        };
        let cleared = self.execute(token_id, &owner_id, receiver_id);
        Ok((owner_id, decision, cleared))
    }

    /// Transfers `token_id` to `receiver_id` and reports the change of
    /// ownership. The token's approvals do not outlive the transfer.
    ///
    /// The call is payable. The administrator and the owner may always make
    /// it; an approved account may, unless it names an `approval_id` other
    /// than its own. In this order the call is rejected with
    /// `InsufficientPayment`, with `NotFound` for a token that does not
    /// exist, with `NoOpTransfer` where the receiver owns the token, and with
    /// `Unauthorized` or `ApprovalMismatch` as the caller's standing has it.
    pub fn nft_transfer(
        &mut self,
        caller: &AccountId,
        attached_deposit: u128,
        receiver_id: AccountId,
        token_id: TokenId,
        approval_id: Option<u64>,
        memo: Option<String>,
    ) -> (result: Result<TransferEvent, NftError>)
        requires
            old(self).wf(),
        ensures
            final(self).wf(),
            final(self).spec_state_version() == old(self).spec_state_version(),
            final(self).spec_metadata() == old(self).spec_metadata(),
            final(self)@ == old(self)@.step(
                (Call::Transfer {
                    caller: caller@,
                    attached_deposit,
                    receiver_id: receiver_id@,
                    token_id: token_id@,
                    approval_id,
                }),
            ),
            match result {
                Ok(event) => {
                    &&& old(self)@.transfer_check(
                        caller@,
                        attached_deposit,
                        receiver_id@,
                        token_id@,
                        approval_id,
                    ) matches Ok(decision)
                    &&& final(self)@ == old(self)@.transfer(token_id@, receiver_id@)
                    &&& event@ == old(self)@.transfer_event(
                        decision,
                        receiver_id@,
                        token_id@,
                        opt_view(memo),
                    )
                },
                Err(e) => {
                    &&& old(self)@.transfer_check(
                        caller@,
                        attached_deposit,
                        receiver_id@,
                        token_id@,
                        approval_id,
                    ) == Err::<AuthDecisionView, NftError>(e)
                    &&& final(self)@ == old(self)@
                },
            },
    {
        match self.internal_transfer(caller, attached_deposit, &receiver_id, &token_id, approval_id) {
            Ok((previous_owner_id, decision, _)) => Ok(
                TransferEvent {
                    old_owner_id: previous_owner_id,
                    new_owner_id: receiver_id,
                    token_id,
                    authorized_id: match decision {
                        AuthDecision::AuthorizedAsOwner => None,
                        AuthDecision::AuthorizedAsDelegate(account_id) => Some(account_id),
                    },
                    memo,
                },
            ),
            Err(e) => Err(e),
        }
    }

    /// The first phase of a transfer with notification: transfers `token_id`
    /// to `receiver_id` exactly as [`Contract::nft_transfer`] does, and keeps
    /// the previous owner and the cleared approvals for the second phase.
    ///
    /// The caller delivers the returned call to the receiver and then hands
    /// the pending transfer, with the receiver's answer, to
    /// [`Contract::nft_resolve_transfer`].
    pub fn nft_transfer_call(
        &mut self,
        caller: &AccountId,
        attached_deposit: u128,
        receiver_id: AccountId,
        token_id: TokenId,
        approval_id: Option<u64>,
        memo: Option<String>,
        msg: String,
    ) -> (result: Result<TransferCall, NftError>)
        requires
            old(self).wf(),
        ensures
            final(self).wf(),
            final(self).spec_state_version() == old(self).spec_state_version(),
            final(self).spec_metadata() == old(self).spec_metadata(),
            final(self)@ == old(self)@.step(
                (Call::Transfer {
                    caller: caller@,
                    attached_deposit,
                    receiver_id: receiver_id@,
                    token_id: token_id@,
                    approval_id,
                }),
            ),
            match result {
                Ok(started) => {
                    &&& old(self)@.transfer_check(
                        caller@,
                        attached_deposit,
                        receiver_id@,
                        token_id@,
                        approval_id,
                    ) matches Ok(decision)
                    &&& final(self)@ == old(self)@.transfer(token_id@, receiver_id@)
                    &&& started.event@ == old(self)@.transfer_event(
                        decision,
                        receiver_id@,
                        token_id@,
                        opt_view(memo),
                    )
                    &&& started.pending.wf()
                    &&& started.pending@ == old(self)@.pending(token_id@, receiver_id@)
                    &&& started.call@ == old(self)@.receiver_call(
                        caller@,
                        receiver_id@,
                        token_id@,
                        opt_view(memo),
                        msg@,
                    )
                },
                Err(e) => {
                    &&& old(self)@.transfer_check(
                        caller@,
                        attached_deposit,
                        receiver_id@,
                        token_id@,
                        approval_id,
                    ) == Err::<AuthDecisionView, NftError>(e)
                    &&& final(self)@ == old(self)@
                },
            },
    {
        match self.internal_transfer(caller, attached_deposit, &receiver_id, &token_id, approval_id) {
            Ok((previous_owner_id, decision, cleared)) => {
                let event = TransferEvent {
                    old_owner_id: previous_owner_id.clone(),
                    new_owner_id: receiver_id.clone(),
                    token_id: token_id.clone(),
                    authorized_id: match decision {
                        AuthDecision::AuthorizedAsOwner => None,
                        AuthDecision::AuthorizedAsDelegate(account_id) => Some(account_id),
                    },
                    memo: clone_opt(&memo),
                };
                let pending = PendingTransfer {
                    token_id: token_id.clone(),
                    previous_owner_id: previous_owner_id.clone(),
                    receiver_id: receiver_id.clone(),
                    approved_account_ids: TokenApprovals::ApprovalSet(cleared),
                };
                let call = ReceiverCall {
                    receiver_id,
                    sender_id: caller.clone(),
                    previous_owner_id,
                    token_id,
                    memo,
                    msg,
                };
                Ok(TransferCall { event, pending, call })
            },
            Err(e) => Err(e),
        }
    }
    /// The second phase of a transfer with notification: decides by the
    /// receiver's answer, and by the ledger as it stands now, whether the
    /// transfer stays.
    ///
    /// Where the receiver refuses the token and still owns it, the token goes
    /// back to the previous owner with the approvals it had given, and the
    /// way back is reported. In every other case the transfer is final and
    /// nothing changes: so too where the token has moved on since, whatever
    /// the receiver says. A token that no longer exists is answered with
    /// `NotFound`.
    pub fn nft_resolve_transfer(&mut self, pending: PendingTransfer, outcome: ReceiverOutcome) -> (result:
        Result<Resolution, NftError>)
        requires
            old(self).wf(),
            pending.wf(),
        ensures
            final(self).wf(),
            final(self).spec_state_version() == old(self).spec_state_version(),
            final(self).spec_metadata() == old(self).spec_metadata(),
            final(self)@ == old(self)@.step((Call::Resolve { pending: pending@, outcome })),
            match result {
                Ok(resolution) => {
                    &&& old(self)@.resolve_check(pending@) is Ok
                    &&& if old(self)@.rolls_back(pending@, outcome) {
                        &&& final(self)@ == old(self)@.roll_back(pending@)
                        &&& resolution@ == ResolutionView::RolledBack(
                            LedgerState::roll_back_event(pending@),
                        )
                    } else {
                        &&& final(self)@ == old(self)@
                        &&& resolution@ == ResolutionView::Finalized
                    }
                },
                Err(e) => {
                    &&& old(self)@.resolve_check(pending@) == Err::<(), NftError>(e)
                    &&& final(self)@ == old(self)@
                },
            },
    {
        let still_with_receiver = match self.owner_by_id.get(&pending.token_id) {
            Some(current_owner_id) => *current_owner_id == pending.receiver_id,
            None => {
                return Err(NftError::NotFound);
            },
        };
        if !still_with_receiver || !outcome.is_refusal() {
            return Ok(Resolution::Finalized);
        }
        let ghost target = old(self)@.roll_back(pending@);
        let PendingTransfer { token_id, previous_owner_id, receiver_id, approved_account_ids } = pending;
        let restored = match approved_account_ids {
            TokenApprovals::NoApprovals => ApprovalSet::new(),
            TokenApprovals::ApprovalSet(approvals) => approvals,
        };
        let highest = restored.highest_id();
        if !(previous_owner_id == receiver_id) {
            self.execute(&token_id, &receiver_id, &previous_owner_id);
        } else {
            self.approvals_by_id.remove(&token_id);
            proof {
                let before = old(self)@;
                lemma_index_determined(before.tokens_per_owner, before.owner_by_id);
                assert(before.owner_by_id.insert(token_id@, previous_owner_id@) =~= before.owner_by_id);
            }
        }
        let ghost moved = self@;
        assert(moved =~~= old(self)@.transfer(token_id@, previous_owner_id@));
        if !restored.is_empty() {
            self.approvals_by_id.insert(token_id.clone(), restored);
        }
        let last = match self.last_approval_id_by_id.get(&token_id) {
            Some(last) => *last,
            None => 0,
        };
        if highest > last {
            self.last_approval_id_by_id.insert(token_id.clone(), highest);
        }
        proof {
            let after = self@;
            assert(restored@ == granted(pending@.approved_account_ids));
            assert forall|t: Seq<char>| after.approvals_by_id.contains_key(t) implies #[trigger]
                after.approvals_by_id[t] == target.approvals_by_id[t] by {
                if t == token_id@ {
                    assert(after.approvals_by_id[t] == restored@);
                } else {
                    assert(after.approvals_by_id[t] == moved.approvals_by_id[t]);
                    assert(moved.approvals_by_id[t] == old(self)@.approvals_by_id[t]);
                }
            }
            assert(after =~~= target);
            lemma_roll_back_inv(old(self)@, pending@);
        }
        Ok(
            Resolution::RolledBack(
                TransferEvent {
                    old_owner_id: receiver_id,
                    new_owner_id: previous_owner_id,
                    token_id,
                    authorized_id: None,
                    memo: None,
                },
            ),
        )
    }
    /// Approves `account_id` to transfer `token_id` for its owner, and
    /// returns the id of the approval. The ids of a token's approvals start
    /// at 1 and only ever grow: none is handed out twice, whatever is
    /// withdrawn in between.
    ///
    /// Only the owner approves. In this order the call is rejected with
    /// `NotFound` for a token that does not exist, with `Unauthorized` for
    /// any other `caller`, and with `ApprovalIdsExhausted` once the token's
    /// last id has been handed out.
    pub fn nft_approve(&mut self, caller: &AccountId, token_id: TokenId, account_id: AccountId) -> (result:
        Result<u64, NftError>)
        requires
            old(self).wf(),
        ensures
            final(self).wf(),
            final(self).spec_state_version() == old(self).spec_state_version(),
            final(self).spec_metadata() == old(self).spec_metadata(),
            final(self)@ == old(self)@.step(
                (Call::Approve { caller: caller@, token_id: token_id@, account_id: account_id@ }),
            ),
            match result {
                Ok(approval_id) => {
                    &&& old(self)@.approve_check(caller@, token_id@) == Ok::<u64, NftError>(
                        approval_id,
                    )
                    &&& final(self)@ == old(self)@.approve(token_id@, account_id@)
                },
                Err(e) => {
                    &&& old(self)@.approve_check(caller@, token_id@) == Err::<u64, NftError>(e)
                    &&& final(self)@ == old(self)@
                },
            },
    {
        match self.owner_by_id.get(&token_id) {
            Some(owner_id) => {
                if !(*caller == *owner_id) {
                    return Err(NftError::Unauthorized);
                }
            },
            None => {
                return Err(NftError::NotFound);
            },
        }
        let last = match self.last_approval_id_by_id.get(&token_id) {
            Some(last) => *last,
            None => 0,
        };
        if last == u64::MAX {
            return Err(NftError::ApprovalIdsExhausted);
        }
        let approval_id = last + 1;
        let mut approvals = match self.approvals_by_id.remove(&token_id) {
            Some(approvals) => approvals,
            None => ApprovalSet::new(),
        };
        approvals.insert(account_id, approval_id);
        self.approvals_by_id.insert(token_id.clone(), approvals);
        self.last_approval_id_by_id.insert(token_id, approval_id);
        proof {
            let before = old(self)@;
            let target = before.approve(token_id@, account_id@);
            let after = self@;
            assert(after.next_approval_id_by_id =~= target.next_approval_id_by_id);
            assert forall|t: Seq<char>| after.approvals_by_id.contains_key(t) implies #[trigger]
                after.approvals_by_id[t] == target.approvals_by_id[t] by {
                if t != token_id@ {
                    assert(after.approvals_by_id[t] == before.approvals_by_id[t]);
                }
            }
            assert(after =~~= target);
            lemma_approve_inv(before, token_id@, account_id@);
        }
        Ok(approval_id)
    }

    /// Withdraws the approval of `account_id` for `token_id`, if it has one.
    ///
    /// Only the owner withdraws approvals: the call is rejected with
    /// `NotFound` for a token that does not exist and with `Unauthorized`
    /// for any other `caller`.
    pub fn nft_revoke(&mut self, caller: &AccountId, token_id: TokenId, account_id: AccountId) -> (result:
        Result<(), NftError>)
        requires
            old(self).wf(),
        ensures
            final(self).wf(),
            final(self).spec_state_version() == old(self).spec_state_version(),
            final(self).spec_metadata() == old(self).spec_metadata(),
            final(self)@ == old(self)@.step(
                (Call::Revoke { caller: caller@, token_id: token_id@, account_id: account_id@ }),
            ),
            match result {
                Ok(_) => {
                    &&& old(self)@.revoke_check(caller@, token_id@) is Ok
                    &&& final(self)@ == old(self)@.revoke(token_id@, account_id@)
                },
                Err(e) => {
                    &&& old(self)@.revoke_check(caller@, token_id@) == Err::<(), NftError>(e)
                    &&& final(self)@ == old(self)@
                },
            },
    {
        match self.owner_by_id.get(&token_id) {
            Some(owner_id) => {
                if !(*caller == *owner_id) {
                    return Err(NftError::Unauthorized);
                }
            },
            None => {
                return Err(NftError::NotFound);
            },
        }
        match self.approvals_by_id.remove(&token_id) {
            Some(approvals) => {
                let mut approvals = approvals;
                approvals.remove(&account_id);
                if !approvals.is_empty() {
                    self.approvals_by_id.insert(token_id, approvals);
                }
            },
            None => {},
        }
        proof {
            let before = old(self)@;
            let target = before.revoke(token_id@, account_id@);
            let after = self@;
            assert forall|t: Seq<char>| after.approvals_by_id.contains_key(t) implies #[trigger]
                after.approvals_by_id[t] == target.approvals_by_id[t] by {
                if t != token_id@ {
                    assert(after.approvals_by_id[t] == before.approvals_by_id[t]);
                } else {
                    assert(after.approvals_by_id[t] =~= before.approvals_by_id[t].remove(account_id@));
                }
            }
            assert(after =~~= target);
            lemma_revoke_inv(before, token_id@, account_id@);
        }
        Ok(())
    }

    /// Withdraws every approval for `token_id`.
    ///
    /// Only the owner withdraws approvals: the call is rejected with
    /// `NotFound` for a token that does not exist and with `Unauthorized`
    /// for any other `caller`.
    pub fn nft_revoke_all(&mut self, caller: &AccountId, token_id: TokenId) -> (result: Result<
        (),
        NftError,
    >)
        requires
            old(self).wf(),
        ensures
            final(self).wf(),
            final(self).spec_state_version() == old(self).spec_state_version(),
            final(self).spec_metadata() == old(self).spec_metadata(),
            final(self)@ == old(self)@.step(
                (Call::RevokeAll { caller: caller@, token_id: token_id@ }),
            ),
            match result {
                Ok(_) => {
                    &&& old(self)@.revoke_check(caller@, token_id@) is Ok
                    &&& final(self)@ == old(self)@.revoke_all(token_id@)
                },
                Err(e) => {
                    &&& old(self)@.revoke_check(caller@, token_id@) == Err::<(), NftError>(e)
                    &&& final(self)@ == old(self)@
                },
            },
    {
        match self.owner_by_id.get(&token_id) {
            Some(owner_id) => {
                if !(*caller == *owner_id) {
                    return Err(NftError::Unauthorized);
                }
            },
            None => {
                return Err(NftError::NotFound);
            },
        }
        self.approvals_by_id.remove(&token_id);
        proof {
            let before = old(self)@;
            assert(self@ =~~= before.revoke_all(token_id@));
            lemma_revoke_inv(before, token_id@, token_id@);
        }
        Ok(())
    }

    /// Whether `approved_account_id` is approved for `token_id`, and under
    /// `approval_id` where one is named. A token that does not exist is
    /// answered with `NotFound`.
    pub fn nft_is_approved(
        &self,
        token_id: TokenId,
        approved_account_id: AccountId,
        approval_id: Option<u64>,
    ) -> (result: Result<bool, NftError>)
        requires
            self.wf(),
        ensures
            match result {
                Ok(approved) => self@.owner_by_id.contains_key(token_id@) && approved
                    == self@.is_approved(token_id@, approved_account_id@, approval_id),
                Err(e) => !self@.owner_by_id.contains_key(token_id@) && e == NftError::NotFound,
            },
    {
        if !self.owner_by_id.contains_key(&token_id) {
            return Err(NftError::NotFound);
        }
        let actual_approval_id = match self.approvals_by_id.get(&token_id) {
            Some(approvals) => approvals.get(&approved_account_id),
            None => None,
        };
        match actual_approval_id {
            Some(actual) => match approval_id {
                Some(given) => Ok(given == actual),
                None => Ok(true),
            },
            None => Ok(false),
        }
    }

    /// The tokens that `account_id` owns according to the index, each once,
    /// in no particular order.
    pub fn nft_tokens_for_owner(&self, account_id: AccountId) -> (tokens: Vec<TokenId>)
        requires
            self.wf(),
        ensures
            forall|i: int|
                0 <= i < tokens.len() ==> tokens_of(self@.tokens_per_owner, account_id@).contains(
                    #[trigger] tokens[i]@,
                ),
            forall|t: Seq<char>| #[trigger]
                tokens_of(self@.tokens_per_owner, account_id@).contains(t) ==> exists|i: int|
                    0 <= i < tokens.len() && #[trigger] tokens[i]@ == t,
            forall|i: int, j: int|
                0 <= i < j < tokens.len() ==> #[trigger] tokens[i]@ != #[trigger] tokens[j]@,
    {
        match self.tokens_per_owner.get(&account_id) {
            Some(tokens) => tokens.to_vec(),
            None => Vec::new(),
        }
    }
    /// Adds the token of `record` with all that is recorded of it.
    fn load(&mut self, record: TokenRecord)
        requires
            old(self).wf(),
            record.approved_account_ids.wf(),
            !old(self)@.owner_by_id.contains_key(record.token_id@),
        ensures
            final(self).wf(),
            final(self).spec_state_version() == old(self).spec_state_version(),
            final(self).spec_metadata() == old(self).spec_metadata(),
            final(self)@ == old(self)@.load(record@),
    {
        let ghost target = old(self)@.load(record@);
        let TokenRecord { token_id, owner_id, metadata, approved_account_ids, last_approval_id } = record;
        let highest = approved_account_ids.highest_id();
        let last = if highest > last_approval_id {
            highest
        } else {
            last_approval_id
        };
        index_insert(&mut self.tokens_per_owner, &owner_id, &token_id);
        self.owner_by_id.insert(token_id.clone(), owner_id);
        self.token_metadata_by_id.insert(token_id.clone(), metadata);
        if !approved_account_ids.is_empty() {
            self.approvals_by_id.insert(token_id.clone(), approved_account_ids);
        }
        if last > 0 {
            self.last_approval_id_by_id.insert(token_id, last);
        }
        proof {
            let before = old(self)@;
            let after = self@;
            assert(after.owner_by_id =~= target.owner_by_id);
            lemma_index_with(before.tokens_per_owner, before.owner_by_id, record.owner_id@, record.token_id@);
            assert(after.next_approval_id_by_id =~= target.next_approval_id_by_id);
            assert forall|t: Seq<char>| after.approvals_by_id.contains_key(t) implies #[trigger]
                after.approvals_by_id[t] == target.approvals_by_id[t] by {
                if t != record.token_id@ {
                    assert(after.approvals_by_id[t] == before.approvals_by_id[t]);
                }
            }
            assert(after =~~= target);
            lemma_load_inv(before, record@);
        }
    }

    /// The registry of `owner_id` that holds the tokens of `records`: what
    /// [`Contract::records`] wrote down is read back with this.
    ///
    /// Two records with one token id are rejected with `AlreadyExists`.
    pub fn from_records(owner_id: AccountId, records: Vec<TokenRecord>) -> (result: Result<
        Contract,
        NftError,
    >)
        requires
            forall|i: int| 0 <= i < records.len() ==> (#[trigger] records[i]).approved_account_ids.wf(),
        ensures
            match result {
                Ok(contract) => {
                    &&& distinct_ids(records_view(records@))
                    &&& contract.wf()
                    &&& contract@ == LedgerState::loaded(owner_id@, records_view(records@))
                    &&& contract.spec_state_version() == 1
                    &&& contract.spec_metadata().valid()
                },
                Err(e) => e == NftError::AlreadyExists && !distinct_ids(records_view(records@)),
            },
    {
        let ghost all = records_view(records@);
        let ghost n = records.len() as int;
        let mut contract = Contract::new(owner_id);
        let mut rest = records;
        while rest.len() > 0
            invariant
                contract.wf(),
                contract.spec_state_version() == 1,
                contract.spec_metadata().valid(),
                all == records_view(records@),
                n == all.len(),
                rest.len() <= n,
                records_view(rest@) =~= all.subrange(0, rest.len() as int),
                forall|i: int| 0 <= i < rest.len() ==> (#[trigger] rest[i]).approved_account_ids.wf(),
                contract@ == LedgerState::loaded(owner_id@, all.subrange(rest.len() as int, n)),
                forall|t: Seq<char>|
                    contract@.owner_by_id.contains_key(t) <==> exists|j: int|
                        rest.len() <= j < n && (#[trigger] all[j]).token_id == t,
                forall|i: int, j: int|
                    rest.len() <= i < j < n ==> (#[trigger] all[i]).token_id != (
                    #[trigger] all[j]).token_id,
            decreases rest.len(),
        {
            let ghost k = rest.len() as int;
            let ghost before = contract@;
            assert(rest[k - 1].approved_account_ids.wf());
            assert(records_view(rest@)[k - 1] == all[k - 1]);
            let record = rest.pop().unwrap();
            assert(record@ == all[k - 1]);
            if contract.nft_exists(&record.token_id) {
                proof {
                    let j = choose|j: int| k <= j < n && (#[trigger] all[j]).token_id == record.token_id@;
                    assert(all[k - 1].token_id == all[j].token_id);
                    assert(!distinct_ids(all));
                }
                return Err(NftError::AlreadyExists);
            }
            contract.load(record);
            proof {
                let tail = all.subrange(k - 1, n);
                assert(tail.drop_first() =~= all.subrange(k, n));
                assert(tail.first() == all[k - 1]);
                assert(records_view(rest@) =~= all.subrange(0, k - 1));
                assert forall|t: Seq<char>|
                    contract@.owner_by_id.contains_key(t) <==> exists|j: int|
                        k - 1 <= j < n && (#[trigger] all[j]).token_id == t by {
                    if before.owner_by_id.contains_key(t) {
                        let j = choose|j: int| k <= j < n && (#[trigger] all[j]).token_id == t;
                        assert(k - 1 <= j < n && all[j].token_id == t);
                    }
                    if t == all[k - 1].token_id {
                        assert(k - 1 <= k - 1 < n && all[k - 1].token_id == t);
                    }
                }
            }
        }
        proof {
            assert(all.subrange(0, n) =~= all);
        }
        Ok(contract)
    }

    /// Whether the token `token_id` exists.
    pub fn nft_exists(&self, token_id: &TokenId) -> (exists: bool)
        requires
            self.wf(),
        ensures
            exists == self@.owner_by_id.contains_key(token_id@),
    {
        self.owner_by_id.contains_key(token_id)
    }

    /// Everything the registry keeps of its tokens: one record for each
    /// token that exists, in no particular order.
    pub fn records(&self) -> (records: Vec<TokenRecord>)
        requires
            self.wf(),
        ensures
            forall|i: int| 0 <= i < records.len() ==> (#[trigger] records[i]).approved_account_ids.wf(),
            records_match(self@, records_view(records@)),
            forall|t: Seq<char>| #[trigger]
                self@.owner_by_id.contains_key(t) ==> exists|i: int|
                    0 <= i < records.len() && (#[trigger] records[i]).token_id@ == t,
            distinct_ids(records_view(records@)),
            LedgerState::loaded(self@.owner_id, records_view(records@)) == self@,
    {
        let mut records: Vec<TokenRecord> = Vec::new();
        let n = self.owner_by_id.len();
        let mut i: usize = 0;
        proof {
            self.owner_by_id.lemma_slots();
        }
        while i < n
            invariant
                self.wf(),
                i <= n,
                n == self.owner_by_id.spec_len(),
                records.len() == i,
                forall|j: int|
                    0 <= j < i ==> {
                        &&& (#[trigger] records[j]).token_id@ == self.owner_by_id.spec_key(j)
                        &&& records[j]@ == self@.record(records[j].token_id@)
                        &&& records[j].approved_account_ids.wf()
                    },
            decreases n - i,
        {
            proof {
                self.owner_by_id.lemma_slots();
            }
            let token_id = self.owner_by_id.key_at(i).clone();
            let owner_id = self.owner_by_id.value_at(i).clone();
            proof {
                assert(self@.owner_by_id.dom().contains(token_id@));
                assert(self@.token_metadata_by_id.dom().contains(token_id@));
            }
            let metadata = match self.token_metadata_by_id.get(&token_id) {
                Some(metadata) => metadata.clone(),
                None => unreached(),
            };
            let approved_account_ids = match self.approvals_by_id.get(&token_id) {
                Some(approvals) => approvals.clone(),
                None => ApprovalSet::new(),
            };
            let last_approval_id = match self.last_approval_id_by_id.get(&token_id) {
                Some(last) => *last,
                None => 0,
            };
            records.push(
                TokenRecord { token_id, owner_id, metadata, approved_account_ids, last_approval_id },
            );
            i += 1;
        }
        proof {
            self.owner_by_id.lemma_slots();
            assert forall|t: Seq<char>| #[trigger] self@.owner_by_id.contains_key(t) implies exists|
                i: int,
            | 0 <= i < records.len() && (#[trigger] records[i]).token_id@ == t by {
                let j = choose|j: int| 0 <= j < n && self.owner_by_id.spec_key(j) == t;
                assert(records[j].token_id@ == t);
            }
            let views = records_view(records@);
            assert forall|a: int, b: int| 0 <= a < b < views.len() implies (#[trigger] views[a]).token_id
                != (#[trigger] views[b]).token_id by {
                assert(records[a].token_id@ == self.owner_by_id.spec_key(a));
                assert(records[b].token_id@ == self.owner_by_id.spec_key(b));
            }
            assert forall|i: int| 0 <= i < views.len() implies self@.owner_by_id.contains_key(
                (#[trigger] views[i]).token_id,
            ) && views[i] == self@.record(views[i].token_id) by {
                assert(records[i].token_id@ == self.owner_by_id.spec_key(i));
            }
            assert forall|t: Seq<char>| #[trigger] self@.owner_by_id.contains_key(t) implies exists|
                i: int,
            | 0 <= i < views.len() && (#[trigger] views[i]).token_id == t by {
                let j = choose|j: int| 0 <= j < records.len() && (#[trigger] records[j]).token_id@ == t;
                assert(views[j].token_id == t);
            }
            stored_registry_reads_back(self@, views);
        }
        records
    }
    /// How many tokens exist.
    pub fn nft_total_supply(&self) -> (supply: usize)
        requires
            self.wf(),
        ensures
            self@.owner_by_id.dom().finite(),
            supply == self@.owner_by_id.len(),
    {
        assert(self@.owner_by_id.dom() =~= self.owner_by_id@.dom());
        self.owner_by_id.len()
    }

    /// How many tokens `account_id` owns according to the index.
    pub fn nft_supply_for_owner(&self, account_id: AccountId) -> (supply: usize)
        requires
            self.wf(),
        ensures
            tokens_of(self@.tokens_per_owner, account_id@).finite(),
            supply == tokens_of(self@.tokens_per_owner, account_id@).len(),
    {
        match self.tokens_per_owner.get(&account_id) {
            Some(tokens) => tokens.len(),
            None => 0,
        }
    }
}

} // verus!
