//! What follows from the model of the registry, for every state and every
//! sequence of calls.

use crate::approvals::{highest_id, is_highest_id};
use crate::authorizer::AuthDecisionView;
use crate::error::NftError;
use crate::model::{
    index_agrees, index_is_tight, index_with, index_without, minted_metadata, owned_by,
    owner_index, records_match, tokens_of, Call, LedgerState, MINIMAL_PAYMENT,
};
use crate::params::TokenCreateMetadataView;
use crate::token::{distinct_ids, granted, TokenMetadataView, TokenRecordView};
use crate::transfer_call::{PendingTransferView, ReceiverOutcome};
use vstd::prelude::*;

verus! {

/// The index that belongs to a ledger agrees with it and holds no empty set.
pub proof fn lemma_owner_index(owners: Map<Seq<char>, Seq<char>>)
    ensures
        index_agrees(owner_index(owners), owners),
        index_is_tight(owner_index(owners)),
{
    let index = owner_index(owners);
    assert forall|o: Seq<char>| #[trigger] index.contains_key(o) implies exists|t: Seq<char>| #[trigger]
        index[o].contains(t) by {
        let t = choose|t: Seq<char>| owned_by(owners, t, o);
        assert(index[o].contains(t));
    }
}

/// Only one index agrees with a ledger and holds no empty set.
pub proof fn lemma_index_determined(
    index: Map<Seq<char>, Set<Seq<char>>>,
    owners: Map<Seq<char>, Seq<char>>,
)
    requires
        index_agrees(index, owners),
        index_is_tight(index),
    ensures
        index == owner_index(owners),
{
    let other = owner_index(owners);
    assert forall|o: Seq<char>| index.contains_key(o) <==> other.contains_key(o) by {
        if index.contains_key(o) {
            let t = choose|t: Seq<char>| #[trigger] index[o].contains(t);
            assert(owned_by(owners, t, o));
        }
        if other.contains_key(o) {
            let t = choose|t: Seq<char>| owned_by(owners, t, o);
            assert(index.contains_key(o) && index[o].contains(t));
        }
    }
    assert forall|o: Seq<char>| index.contains_key(o) implies index[o] =~= other[o] by {
        assert forall|t: Seq<char>| index[o].contains(t) <==> other[o].contains(t) by {
            assert(other[o].contains(t) <==> owned_by(owners, t, o));
        }
    }
    assert(index =~~= other);
}

/// To add a new token to its owner's set is to keep the index in step with
/// the ledger.
pub proof fn lemma_index_with(
    index: Map<Seq<char>, Set<Seq<char>>>,
    owners: Map<Seq<char>, Seq<char>>,
    owner: Seq<char>,
    token: Seq<char>,
)
    requires
        index_agrees(index, owners),
        index_is_tight(index),
        !owners.contains_key(token),
    ensures
        index_with(index, owner, token) == owner_index(owners.insert(token, owner)),
{
    let after = index_with(index, owner, token);
    let ledger = owners.insert(token, owner);
    assert forall|o: Seq<char>, t: Seq<char>|
        #![trigger after[o].contains(t)]
        #![trigger owned_by(ledger, t, o)]
        (after.contains_key(o) && after[o].contains(t)) <==> owned_by(ledger, t, o) by {
        assert((index.contains_key(o) && index[o].contains(t)) <==> owned_by(owners, t, o));
    }
    assert forall|o: Seq<char>| #[trigger] after.contains_key(o) implies exists|t: Seq<char>| #[trigger]
        after[o].contains(t) by {
        if o == owner {
            assert(after[o].contains(token));
        } else {
            let t = choose|t: Seq<char>| #[trigger] index[o].contains(t);
            assert(after[o].contains(t));
        }
    }
    lemma_index_determined(after, ledger);
}

/// To take a token out of its owner's set, and to drop the set that this
/// empties, is to keep the index in step with the ledger.
pub proof fn lemma_index_without(
    index: Map<Seq<char>, Set<Seq<char>>>,
    owners: Map<Seq<char>, Seq<char>>,
    owner: Seq<char>,
    token: Seq<char>,
)
    requires
        index_agrees(index, owners),
        index_is_tight(index),
        owned_by(owners, token, owner),
    ensures
        index_without(index, owner, token) == owner_index(owners.remove(token)),
{
    let after = index_without(index, owner, token);
    let ledger = owners.remove(token);
    let rest = tokens_of(index, owner).remove(token);
    assert(index.contains_key(owner) && index[owner].contains(token));
    assert forall|o: Seq<char>, t: Seq<char>|
        #![trigger after[o].contains(t)]
        #![trigger owned_by(ledger, t, o)]
        (after.contains_key(o) && after[o].contains(t)) <==> owned_by(ledger, t, o) by {
        assert((index.contains_key(o) && index[o].contains(t)) <==> owned_by(owners, t, o));
        if o == owner && t != token && owned_by(owners, t, o) {
            assert(rest.contains(t));
        }
    }
    assert forall|o: Seq<char>| #[trigger] after.contains_key(o) implies exists|t: Seq<char>| #[trigger]
        after[o].contains(t) by {
        if o == owner {
            assert(rest != Set::<Seq<char>>::empty());
            if forall|t: Seq<char>| !rest.contains(t) {
                assert(rest =~= Set::<Seq<char>>::empty());
            }
            let t = choose|t: Seq<char>| rest.contains(t);
            assert(after[o].contains(t));
        } else {
            let t = choose|t: Seq<char>| #[trigger] index[o].contains(t);
            assert(after[o].contains(t));
        }
    }
    lemma_index_determined(after, ledger);
}

/// A transfer changes the index in two places only: the token leaves the
/// set of its owner, which goes where that empties it, and joins the set of
/// the receiver.
pub proof fn transfer_moves_token_in_index(s: LedgerState, token_id: Seq<char>, receiver_id: Seq<char>)
    requires
        s.inv(),
        s.owner_by_id.contains_key(token_id),
    ensures
        s.transfer(token_id, receiver_id).tokens_per_owner == index_with(
            index_without(s.tokens_per_owner, s.owner_by_id[token_id], token_id),
            receiver_id,
            token_id,
        ),
{
    let without = s.owner_by_id.remove(token_id);
    lemma_index_without(s.tokens_per_owner, s.owner_by_id, s.owner_by_id[token_id], token_id);
    lemma_owner_index(without);
    lemma_index_with(owner_index(without), without, receiver_id, token_id);
    assert(without.insert(token_id, receiver_id) =~= s.owner_by_id.insert(token_id, receiver_id));
}

/// Among ids that none exceeds `bound`, one is the largest.
pub proof fn lemma_highest_id_exists(grants: Map<Seq<char>, u64>, bound: u64)
    requires
        forall|a: Seq<char>| grants.contains_key(a) ==> #[trigger] grants[a] <= bound,
    ensures
        is_highest_id(grants, highest_id(grants)),
    decreases bound,
{
    if bound == 0 {
        assert(is_highest_id(grants, 0));
    } else if exists|a: Seq<char>| grants.contains_key(a) && #[trigger] grants[a] == bound {
        assert(is_highest_id(grants, bound));
    } else {
        lemma_highest_id_exists(grants, (bound - 1) as u64);
    }
}

/// Every approval id of a set lies below the counter that a rollback leaves.
pub proof fn lemma_highest_id_bounds(grants: Map<Seq<char>, u64>)
    ensures
        forall|a: Seq<char>| grants.contains_key(a) ==> #[trigger] grants[a] <= highest_id(grants),
{
    lemma_highest_id_exists(grants, u64::MAX);
}

/// A mint leaves the registry as it must be.
pub proof fn lemma_mint_inv(
    s: LedgerState,
    token_id: Seq<char>,
    receiver_id: Seq<char>,
    metadata: TokenMetadataView,
)
    requires
        s.inv(),
        !s.owner_by_id.contains_key(token_id),
    ensures
        s.mint(token_id, receiver_id, metadata).inv(),
{
    lemma_owner_index(s.mint(token_id, receiver_id, metadata).owner_by_id);
}

/// A burn leaves the registry as it must be.
pub proof fn lemma_burn_inv(s: LedgerState, token_id: Seq<char>)
    requires
        s.inv(),
    ensures
        s.burn(token_id).inv(),
{
    lemma_owner_index(s.burn(token_id).owner_by_id);
}

/// A transfer leaves the registry as it must be.
pub proof fn lemma_transfer_inv(s: LedgerState, token_id: Seq<char>, receiver_id: Seq<char>)
    requires
        s.inv(),
        s.owner_by_id.contains_key(token_id),
    ensures
        s.transfer(token_id, receiver_id).inv(),
{
    lemma_owner_index(s.transfer(token_id, receiver_id).owner_by_id);
}

/// A rollback leaves the registry as it must be, whatever approvals it
/// brings back.
pub proof fn lemma_roll_back_inv(s: LedgerState, pending: PendingTransferView)
    requires
        s.inv(),
        s.owner_by_id.contains_key(pending.token_id),
    ensures
        s.roll_back(pending).inv(),
{
    lemma_owner_index(s.roll_back(pending).owner_by_id);
    lemma_highest_id_bounds(granted(pending.approved_account_ids));
}

/// To add the record of a token that does not exist leaves the registry as
/// it must be.
pub proof fn lemma_load_inv(s: LedgerState, record: TokenRecordView)
    requires
        s.inv(),
        !s.owner_by_id.contains_key(record.token_id),
    ensures
        s.load(record).inv(),
{
    lemma_owner_index(s.load(record).owner_by_id);
    lemma_highest_id_bounds(record.approved_account_ids);
}

/// An approval leaves the registry as it must be.
pub proof fn lemma_approve_inv(s: LedgerState, token_id: Seq<char>, account_id: Seq<char>)
    requires
        s.inv(),
        s.owner_by_id.contains_key(token_id),
        s.next_approval_id_by_id[token_id] <= u64::MAX,
    ensures
        s.approve(token_id, account_id).inv(),
{
}

/// The withdrawal of an approval leaves the registry as it must be.
pub proof fn lemma_revoke_inv(s: LedgerState, token_id: Seq<char>, account_id: Seq<char>)
    requires
        s.inv(),
        s.owner_by_id.contains_key(token_id),
    ensures
        s.revoke(token_id, account_id).inv(),
        s.revoke_all(token_id).inv(),
{
}

/// An accepted or rejected call leaves the registry as it must be.
pub proof fn lemma_step_preserves_inv(s: LedgerState, call: Call)
    requires
        s.inv(),
    ensures
        s.step(call).inv(),
{
    if s.step(call) != s {
        match call {
            Call::Mint { caller, token_id, receiver_id, metadata, block_timestamp } => {
                lemma_mint_inv(s, token_id, receiver_id, minted_metadata(metadata, block_timestamp));
            },
            Call::Burn { caller, attached_deposit, token_id } => {
                lemma_burn_inv(s, token_id);
            },
            Call::Transfer { caller, attached_deposit, receiver_id, token_id, approval_id } => {
                lemma_transfer_inv(s, token_id, receiver_id);
            },
            Call::Resolve { pending, outcome } => {
                lemma_roll_back_inv(s, pending);
            },
            Call::Approve { caller, token_id, account_id } => {
                lemma_approve_inv(s, token_id, account_id);
            },
            Call::Revoke { caller, token_id, account_id } => {
                lemma_revoke_inv(s, token_id, account_id);
            },
            Call::RevokeAll { caller, token_id } => {
                lemma_revoke_inv(s, token_id, token_id);
            },
        }
    }
}

/// The index agrees with the ledger after every sequence of calls: a token
/// is in an account's set exactly if the ledger names that account as its
/// owner. The rest of what must hold of the registry holds too.
pub proof fn lemma_run_preserves_inv(s: LedgerState, calls: Seq<Call>)
    requires
        s.inv(),
    ensures
        s.run(calls).inv(),
        index_agrees(s.run(calls).tokens_per_owner, s.run(calls).owner_by_id),
    decreases calls.len(),
{
    if calls.len() > 0 {
        lemma_run_preserves_inv(s, calls.drop_last());
        lemma_step_preserves_inv(s.run(calls.drop_last()), calls.last());
    }
}

/// The registry starts out as it must be.
pub proof fn lemma_init_inv(owner_id: Seq<char>)
    ensures
        LedgerState::init(owner_id).inv(),
{
}

/// `calls` holds no burn of `token_id`.
pub open spec fn never_burns(calls: Seq<Call>, token_id: Seq<char>) -> bool {
    forall|i: int|
        0 <= i < calls.len() ==> !(#[trigger] calls[i] matches Call::Burn { token_id: burnt, .. }
            && burnt == token_id)
}

/// As long as a token is not burnt it exists, and its approval counter never
/// falls, whatever is called.
pub proof fn lemma_counter_never_falls(s: LedgerState, calls: Seq<Call>, token_id: Seq<char>)
    requires
        s.inv(),
        s.owner_by_id.contains_key(token_id),
        never_burns(calls, token_id),
    ensures
        s.run(calls).inv(),
        s.run(calls).owner_by_id.contains_key(token_id),
        s.run(calls).next_approval_id_by_id[token_id] >= s.next_approval_id_by_id[token_id],
    decreases calls.len(),
{
    if calls.len() > 0 {
        let before = calls.drop_last();
        assert forall|i: int| 0 <= i < before.len() implies !(#[trigger] before[i] matches Call::Burn {
            token_id: burnt,
            ..
        } && burnt == token_id) by {
            assert(before[i] == calls[i]);
        }
        lemma_counter_never_falls(s, before, token_id);
        lemma_step_preserves_inv(s.run(before), calls.last());
        assert(calls[calls.len() - 1] == calls.last());
    }
}

/// Approval ids are never reused. Of two approvals for one token, the later
/// gets the larger id, whatever was called in between: approvals, their
/// withdrawal, transfers, rollbacks. Only a burn of the token ends this,
/// and with it the token.
pub proof fn approval_ids_strictly_increase(
    s: LedgerState,
    first_caller: Seq<char>,
    first_account: Seq<char>,
    between: Seq<Call>,
    second_caller: Seq<char>,
    token_id: Seq<char>,
)
    requires
        s.inv(),
        s.approve_check(first_caller, token_id) is Ok,
        never_burns(between, token_id),
        s.approve(token_id, first_account).run(between).approve_check(second_caller, token_id) is Ok,
    ensures
        s.approve_check(first_caller, token_id).unwrap() < s.approve(token_id, first_account).run(
            between,
        ).approve_check(second_caller, token_id).unwrap(),
{
    lemma_approve_inv(s, token_id, first_account);
    lemma_counter_never_falls(s.approve(token_id, first_account), between, token_id);
}

/// A new approval gets an id above every id that the token has on record,
/// and the first approval of a token gets the id 1.
pub proof fn approval_id_is_fresh(
    s: LedgerState,
    caller: Seq<char>,
    token_id: Seq<char>,
    account_id: Seq<char>,
)
    requires
        s.inv(),
        s.approve_check(caller, token_id) is Ok,
        s.approvals_by_id[token_id].contains_key(account_id),
    ensures
        s.approvals_by_id[token_id][account_id] < s.approve_check(caller, token_id).unwrap(),
        s.approve_check(caller, token_id).unwrap() >= 1,
{
}

/// A freshly minted token has no approvals, and its counter stands at 1,
/// also where a token of that id was burnt before.
pub proof fn minted_token_starts_afresh(
    s: LedgerState,
    token_id: Seq<char>,
    receiver_id: Seq<char>,
    metadata: TokenMetadataView,
)
    ensures
        s.mint(token_id, receiver_id, metadata).approvals_by_id[token_id] == Map::<
            Seq<char>,
            u64,
        >::empty(),
        s.mint(token_id, receiver_id, metadata).next_approval_id_by_id[token_id] == 1,
        s.mint(token_id, receiver_id, metadata).owner_by_id[token_id] == receiver_id,
{
}

/// An approved account that names another approval id than its own is
/// rejected with `ApprovalMismatch`, and nothing changes.
pub proof fn stale_approval_is_rejected(
    s: LedgerState,
    caller: Seq<char>,
    attached_deposit: u128,
    receiver_id: Seq<char>,
    token_id: Seq<char>,
    approval_id: u64,
)
    requires
        attached_deposit >= MINIMAL_PAYMENT,
        s.owner_by_id.contains_key(token_id),
        s.owner_by_id[token_id] != receiver_id,
        caller != s.owner_id,
        caller != s.owner_by_id[token_id],
        s.approvals_by_id[token_id].contains_key(caller),
        s.approvals_by_id[token_id][caller] != approval_id,
    ensures
        s.transfer_check(caller, attached_deposit, receiver_id, token_id, Some(approval_id)) == Err::<
            AuthDecisionView,
            NftError,
        >(NftError::ApprovalMismatch),
        s.step(
            (Call::Transfer {
                caller,
                attached_deposit,
                receiver_id,
                token_id,
                approval_id: Some(approval_id),
            }),
        ) == s,
{
}

/// A rejected call changes nothing.
pub proof fn rejected_call_changes_nothing(s: LedgerState, call: Call)
    ensures
        call matches Call::Mint { caller, token_id, .. } && s.mint_check(caller, token_id) is Err
            ==> s.step(call) == s,
        call matches Call::Burn { caller, attached_deposit, token_id } && s.burn_check(
            caller,
            attached_deposit,
            token_id,
        ) is Err ==> s.step(call) == s,
        call matches Call::Transfer { caller, attached_deposit, receiver_id, token_id, approval_id }
            && s.transfer_check(caller, attached_deposit, receiver_id, token_id, approval_id) is Err
            ==> s.step(call) == s,
        call matches Call::Approve { caller, token_id, .. } && s.approve_check(caller, token_id) is Err
            ==> s.step(call) == s,
        call matches Call::Revoke { caller, token_id, .. } && s.revoke_check(caller, token_id) is Err
            ==> s.step(call) == s,
        call matches Call::RevokeAll { caller, token_id } && s.revoke_check(caller, token_id) is Err
            ==> s.step(call) == s,
{
}

/// A transfer with notification that the receiver refuses leaves the
/// registry exactly as it was before the first phase: the previous owner has
/// the token, with the approvals it had given, and the index, the metadata
/// and the counters are as they were. The two phases report the way there
/// and the way back.
pub proof fn refused_transfer_call_restores(
    s: LedgerState,
    caller: Seq<char>,
    attached_deposit: u128,
    receiver_id: Seq<char>,
    token_id: Seq<char>,
    approval_id: Option<u64>,
    memo: Option<Seq<char>>,
    outcome: ReceiverOutcome,
)
    requires
        s.inv(),
        s.transfer_check(caller, attached_deposit, receiver_id, token_id, approval_id) is Ok,
        outcome.refuses(),
    ensures
        s.transfer(token_id, receiver_id).rolls_back(s.pending(token_id, receiver_id), outcome),
        s.transfer(token_id, receiver_id).roll_back(s.pending(token_id, receiver_id)) == s,
        s.transfer(token_id, receiver_id).step(
            (Call::Resolve { pending: s.pending(token_id, receiver_id), outcome }),
        ) == s,
        ({
            let decision = s.transfer_check(
                caller,
                attached_deposit,
                receiver_id,
                token_id,
                approval_id,
            ).unwrap();
            let there = s.transfer_event(decision, receiver_id, token_id, memo);
            let back = LedgerState::roll_back_event(s.pending(token_id, receiver_id));
            &&& there.old_owner_id == s.owner_by_id[token_id]
            &&& there.new_owner_id == receiver_id
            &&& back.old_owner_id == receiver_id
            &&& back.new_owner_id == s.owner_by_id[token_id]
            &&& there.token_id == token_id
            &&& back.token_id == token_id
        }),
{
    let pending = s.pending(token_id, receiver_id);
    let moved = s.transfer(token_id, receiver_id);
    let back = moved.roll_back(pending);
    let grants = s.approvals_by_id[token_id];
    lemma_highest_id_bounds(grants);
    lemma_highest_id_exists(grants, u64::MAX);
    assert(back.owner_by_id =~= s.owner_by_id);
    lemma_index_determined(s.tokens_per_owner, s.owner_by_id);
    assert(back.approvals_by_id =~= s.approvals_by_id);
    assert(highest_id(grants) + 1 <= s.next_approval_id_by_id[token_id]) by {
        let h = highest_id(grants);
        if h != 0 {
            let a = choose|a: Seq<char>| grants.contains_key(a) && #[trigger] grants[a] == h;
            assert(s.approvals_by_id[token_id].contains_key(a));
        }
    }
    assert(back.next_approval_id_by_id =~= s.next_approval_id_by_id);
    assert(back =~= s);
}

/// Where the token has moved on while the receiver was asked, the transfer
/// is final whatever the receiver answers: the second phase changes nothing.
pub proof fn moved_on_token_is_final(
    s: LedgerState,
    pending: PendingTransferView,
    outcome: ReceiverOutcome,
)
    requires
        !owned_by(s.owner_by_id, pending.token_id, pending.receiver_id),
    ensures
        !s.rolls_back(pending, outcome),
        s.step((Call::Resolve { pending, outcome })) == s,
{
}

/// A receiver that hands the token on to a third account and then refuses
/// it does not get the transfer undone: the third account keeps the token.
pub proof fn receiver_who_transfers_on_cannot_refuse(
    s: LedgerState,
    receiver_id: Seq<char>,
    third_id: Seq<char>,
    token_id: Seq<char>,
    outcome: ReceiverOutcome,
)
    requires
        s.owner_by_id.contains_key(token_id),
        third_id != receiver_id,
    ensures
        ({
            let handed_on = s.transfer(token_id, receiver_id).transfer(token_id, third_id);
            &&& handed_on.step(
                (Call::Resolve { pending: s.pending(token_id, receiver_id), outcome }),
            ) == handed_on
            &&& handed_on.owner_by_id[token_id] == third_id
        }),
{
}

/// Only the owner burns a token, and a burn takes the token out of the
/// ledger, the index, the approvals, their counters and the metadata at
/// once: nothing is left to look up.
pub proof fn burn_removes_everywhere(
    s: LedgerState,
    caller: Seq<char>,
    attached_deposit: u128,
    token_id: Seq<char>,
)
    requires
        s.owner_by_id.contains_key(token_id),
        attached_deposit >= MINIMAL_PAYMENT,
    ensures
        caller != s.owner_by_id[token_id] ==> s.burn_check(caller, attached_deposit, token_id) == Err::<
            (),
            NftError,
        >(NftError::Unauthorized),
        caller == s.owner_by_id[token_id] ==> s.burn_check(caller, attached_deposit, token_id) is Ok,
        !s.burn(token_id).owner_by_id.contains_key(token_id),
        !s.burn(token_id).token_metadata_by_id.contains_key(token_id),
        !s.burn(token_id).approvals_by_id.contains_key(token_id),
        !s.burn(token_id).next_approval_id_by_id.contains_key(token_id),
        forall|o: Seq<char>|
            !(s.burn(token_id).tokens_per_owner.contains_key(o) && #[trigger] s.burn(
                token_id,
            ).tokens_per_owner[o].contains(token_id)),
        s.burn(token_id).token(token_id) is None,
{
    lemma_owner_index(s.burn(token_id).owner_by_id);
    let after = s.burn(token_id);
    assert forall|o: Seq<char>|
        !(after.tokens_per_owner.contains_key(o) && #[trigger] after.tokens_per_owner[o].contains(
            token_id,
        )) by {
        assert(!owned_by(after.owner_by_id, token_id, o));
    }
}

/// A mint under an id that is taken is rejected with `AlreadyExists`, and
/// the token that has the id keeps its owner, its metadata and all else.
pub proof fn mint_of_existing_token_is_rejected(
    s: LedgerState,
    caller: Seq<char>,
    token_id: Seq<char>,
    receiver_id: Seq<char>,
    metadata: TokenCreateMetadataView,
    block_timestamp: u64,
)
    requires
        s.owner_by_id.contains_key(token_id),
    ensures
        s.mint_check(s.owner_id, token_id) == Err::<(), NftError>(NftError::AlreadyExists),
        s.mint_check(caller, token_id) is Err,
        s.step((Call::Mint { caller, token_id, receiver_id, metadata, block_timestamp })) == s,
{
}

/// A transfer to the account that owns the token is rejected with
/// `NoOpTransfer`, whoever asks for it and whatever approval it names.
pub proof fn transfer_to_owner_is_no_op(
    s: LedgerState,
    caller: Seq<char>,
    attached_deposit: u128,
    token_id: Seq<char>,
    approval_id: Option<u64>,
)
    requires
        s.owner_by_id.contains_key(token_id),
        attached_deposit >= MINIMAL_PAYMENT,
    ensures
        s.transfer_check(caller, attached_deposit, s.owner_by_id[token_id], token_id, approval_id)
            == Err::<AuthDecisionView, NftError>(NftError::NoOpTransfer),
{
}

/// The token ids of `records`.
pub open spec fn record_ids(records: Seq<TokenRecordView>) -> Set<Seq<char>> {
    Set::new(|t: Seq<char>| exists|i: int| 0 <= i < records.len() && (#[trigger] records[i]).token_id == t)
}

/// Records taken from a registry load the part of it that they describe.
pub proof fn lemma_loaded_is_restriction(s: LedgerState, records: Seq<TokenRecordView>)
    requires
        s.inv(),
        distinct_ids(records),
        records_match(s, records),
    ensures
        LedgerState::loaded(s.owner_id, records) == s.restrict(record_ids(records)),
    decreases records.len(),
{
    let ids = record_ids(records);
    if records.len() == 0 {
        assert(ids =~= Set::<Seq<char>>::empty());
        assert(s.owner_by_id.restrict(ids) =~= Map::<Seq<char>, Seq<char>>::empty());
        lemma_owner_index(Map::<Seq<char>, Seq<char>>::empty());
        assert(owner_index(Map::<Seq<char>, Seq<char>>::empty()) =~= Map::<
            Seq<char>,
            Set<Seq<char>>,
        >::empty());
        assert(s.restrict(ids) =~~= LedgerState::init(s.owner_id));
    } else {
        let first = records.first();
        let rest = records.drop_first();
        assert forall|i: int| 0 <= i < rest.len() implies s.owner_by_id.contains_key(
            (#[trigger] rest[i]).token_id,
        ) && rest[i] == s.record(rest[i].token_id) by {
            assert(rest[i] == records[i + 1]);
        }
        assert forall|i: int, j: int| 0 <= i < j < rest.len() implies (#[trigger] rest[i]).token_id != (
        #[trigger] rest[j]).token_id by {
            assert(rest[i] == records[i + 1]);
            assert(rest[j] == records[j + 1]);
        }
        lemma_loaded_is_restriction(s, rest);
        let rest_ids = record_ids(rest);
        let part = s.restrict(rest_ids);
        let grown = part.load(first);
        let t0 = first.token_id;
        assert(records[0] == first);
        assert(!rest_ids.contains(t0)) by {
            if rest_ids.contains(t0) {
                let i = choose|i: int| 0 <= i < rest.len() && (#[trigger] rest[i]).token_id == t0;
                assert(rest[i] == records[i + 1]);
            }
        }
        assert(ids =~= rest_ids.insert(t0)) by {
            assert forall|t: Seq<char>| ids.contains(t) <==> rest_ids.insert(t0).contains(t) by {
                if ids.contains(t) {
                    let i = choose|i: int| 0 <= i < records.len() && (#[trigger] records[i]).token_id == t;
                    if i > 0 {
                        assert(rest[i - 1] == records[i]);
                    }
                }
                if rest_ids.contains(t) {
                    let i = choose|i: int| 0 <= i < rest.len() && (#[trigger] rest[i]).token_id == t;
                    assert(rest[i] == records[i + 1]);
                }
            }
        }
        lemma_highest_id_exists(s.approvals_by_id[t0], u64::MAX);
        assert(s.approvals_by_id.dom().contains(t0));
        assert(s.next_approval_id_by_id.dom().contains(t0));
        assert(highest_id(s.approvals_by_id[t0]) + 1 <= s.next_approval_id_by_id[t0]) by {
            let h = highest_id(s.approvals_by_id[t0]);
            if h != 0 {
                let a = choose|a: Seq<char>|
                    s.approvals_by_id[t0].contains_key(a) && #[trigger] s.approvals_by_id[t0][a] == h;
                assert(s.approvals_by_id[t0].contains_key(a));
            }
        }
        assert(grown.owner_by_id =~= s.owner_by_id.restrict(ids));
        assert(grown.token_metadata_by_id =~= s.token_metadata_by_id.restrict(ids));
        assert(grown.approvals_by_id =~= s.approvals_by_id.restrict(ids));
        assert(grown.next_approval_id_by_id =~= s.next_approval_id_by_id.restrict(ids));
        assert(grown =~= s.restrict(ids));
    }
}

/// A registry that is written down and read back is the registry it was:
/// records that describe each of its tokens once load exactly what it holds.
pub proof fn stored_registry_reads_back(s: LedgerState, records: Seq<TokenRecordView>)
    requires
        s.inv(),
        distinct_ids(records),
        records_match(s, records),
        forall|t: Seq<char>| #[trigger]
            s.owner_by_id.contains_key(t) ==> exists|i: int|
                0 <= i < records.len() && (#[trigger] records[i]).token_id == t,
    ensures
        LedgerState::loaded(s.owner_id, records) == s,
{
    lemma_loaded_is_restriction(s, records);
    let ids = record_ids(records);
    assert(ids =~= s.owner_by_id.dom());
    assert(s.owner_by_id.restrict(ids) =~= s.owner_by_id);
    assert(s.token_metadata_by_id.restrict(ids) =~= s.token_metadata_by_id);
    assert(s.approvals_by_id.restrict(ids) =~= s.approvals_by_id);
    assert(s.next_approval_id_by_id.restrict(ids) =~= s.next_approval_id_by_id);
    lemma_index_determined(s.tokens_per_owner, s.owner_by_id);
    assert(s.restrict(ids) =~= s);
}

} // verus!
