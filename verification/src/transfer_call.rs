//! The values that carry a transfer with notification from its first phase,
//! in which the token moves, to its second, in which the receiver's answer
//! decides whether it stays.
//!
//! Such a transfer is idle until [`crate::contract::Contract::nft_transfer_call`]
//! authorizes and executes it. From then on it awaits the receiver, and a
//! [`PendingTransfer`] holds what a rollback needs. The caller delivers the
//! [`ReceiverCall`] and hands the [`ReceiverOutcome`] to
//! [`crate::contract::Contract::nft_resolve_transfer`], which ends the transfer
//! as finalized or rolled back: a [`Resolution`].

use crate::events::{opt_view, TransferEvent, TransferEventView};
use crate::token::{AccountId, TokenApprovals, TokenId};
use vstd::prelude::*;

verus! {

/// What is kept of a transfer while the receiver has not answered.
#[derive(Debug)]
pub struct PendingTransfer {
    pub token_id: TokenId,
    pub previous_owner_id: AccountId,
    pub receiver_id: AccountId,
    /// The approvals that the transfer cleared.
    pub approved_account_ids: TokenApprovals,
}

/// The value of a [`PendingTransfer`].
pub struct PendingTransferView {
    pub token_id: Seq<char>,
    pub previous_owner_id: Seq<char>,
    pub receiver_id: Seq<char>,
    pub approved_account_ids: Option<Map<Seq<char>, u64>>,
}

impl View for PendingTransfer {
    type V = PendingTransferView;

    open spec fn view(&self) -> PendingTransferView {
        PendingTransferView {
            token_id: self.token_id@,
            previous_owner_id: self.previous_owner_id@,
            receiver_id: self.receiver_id@,
            approved_account_ids: self.approved_account_ids@,
        }
    }
}

impl PendingTransfer {
    /// The approvals it holds are well formed.
    pub open spec fn wf(&self) -> bool {
        self.approved_account_ids.wf()
    }
}

/// What the receiver is to be told.
#[derive(Debug, Clone, PartialEq, Eq)]
pub struct ReceiverCall {
    pub receiver_id: AccountId,
    /// The account that asked for the transfer.
    pub sender_id: AccountId,
    pub previous_owner_id: AccountId,
    pub token_id: TokenId,
    /// The memo of the transfer.
    pub memo: Option<String>,
    /// What the sender has to say to the receiver.
    pub msg: String,
}

/// The value of a [`ReceiverCall`].
pub struct ReceiverCallView {
    pub receiver_id: Seq<char>,
    pub sender_id: Seq<char>,
    pub previous_owner_id: Seq<char>,
    pub token_id: Seq<char>,
    pub memo: Option<Seq<char>>,
    pub msg: Seq<char>,
}

impl View for ReceiverCall {
    type V = ReceiverCallView;

    open spec fn view(&self) -> ReceiverCallView {
        ReceiverCallView {
            receiver_id: self.receiver_id@,
            sender_id: self.sender_id@,
            previous_owner_id: self.previous_owner_id@,
            token_id: self.token_id@,
            memo: opt_view(self.memo),
            msg: self.msg@,
        }
    }
}

/// A transfer with notification after its first phase.
#[derive(Debug)]
pub struct TransferCall {
    /// The change of ownership that has taken place.
    pub event: TransferEvent,
    /// What to hand back when the receiver has answered.
    pub pending: PendingTransfer,
    /// What to tell the receiver.
    pub call: ReceiverCall,
}

/// How the call to the receiver ended.
#[derive(Debug, Clone, Copy, PartialEq, Eq, Structural)]
pub enum ReceiverOutcome {
    /// The receiver said whether it may keep the token.
    Signal(bool),
    /// The call failed or was aborted.
    Failed,
    /// The call succeeded and the receiver said nothing.
    NoSignal,
}

impl ReceiverOutcome {
    /// The receiver refuses the token: it said so, or the call to it failed.
    pub open spec fn refuses(self) -> bool {
        match self {
            ReceiverOutcome::Signal(may_keep) => !may_keep,
            ReceiverOutcome::Failed => true,
            ReceiverOutcome::NoSignal => false,
        }
    }

    /// Whether the receiver refuses the token.
    pub fn is_refusal(&self) -> (b: bool)
        ensures
            b == self.refuses(),
    {
        match self {
            ReceiverOutcome::Signal(may_keep) => !*may_keep,
            ReceiverOutcome::Failed => true,
            ReceiverOutcome::NoSignal => false,
        }
    }
}

/// What came back from the call to the receiver.
#[derive(Debug, Clone, PartialEq, Eq)]
pub enum PromiseOutcome {
    /// The call succeeded and returned these bytes.
    Successful(Vec<u8>),
    /// The call failed or was aborted.
    Failed,
}

/// The boolean that `serde_json::from_slice::<bool>` reads from `text`, or
/// `None` where it reports an error.
pub uninterp spec fn json_bool(text: Seq<u8>) -> Option<bool>;

/// `serde_json::Error`, the error of `serde_json::from_slice`. The registry
/// looks at nothing inside it: that there is an error is all it needs.
#[verifier::external_type_specification]
#[verifier::external_body]
pub struct ExJsonError(near_sdk::serde_json::Error);

/// Calls `serde_json::from_slice::<bool>`, which reads `text` as JSON and
/// expects a boolean. Nothing is proved of it: its result is taken to be a
/// function of `text` alone, and `json_bool` is the name of that function.
#[verifier::external_body]
fn json_bool_from_slice(text: &[u8]) -> (parsed: Result<bool, near_sdk::serde_json::Error>)
    ensures
        match parsed {
            Ok(answer) => json_bool(text@) == Some(answer),
            Err(_) => json_bool(text@) is None,
        },
{
    near_sdk::serde_json::from_slice::<bool>(text)
}

/// What the receiver's answer means. The receiver answers whether the token
/// is to be returned to the previous owner: `true` refuses the token,
/// `false` keeps it. Where it gave no such answer it has not refused.
pub open spec fn answer_outcome(answer: Option<bool>) -> ReceiverOutcome {
    match answer {
        Some(return_token) => ReceiverOutcome::Signal(!return_token),
        None => ReceiverOutcome::NoSignal,
    }
}

/// How the call to the receiver ended, given what came back from it: a
/// failed call is a failure, and a call that succeeded is judged by the
/// bytes it returned, read as a JSON boolean.
pub open spec fn receiver_outcome_spec(promise: PromiseOutcome) -> ReceiverOutcome {
    match promise {
        PromiseOutcome::Successful(returned) => answer_outcome(json_bool(returned@)),
        PromiseOutcome::Failed => ReceiverOutcome::Failed,
    }
}

/// The outcome that belongs to the receiver's answer: see [`answer_outcome`].
pub fn outcome_of_answer(answer: Option<bool>) -> (outcome: ReceiverOutcome)
    ensures
        outcome == answer_outcome(answer),
{
    match answer {
        Some(return_token) => ReceiverOutcome::Signal(!return_token),
        None => ReceiverOutcome::NoSignal,
    }
}

/// How the call to the receiver ended, given what came back from it.
pub fn receiver_outcome(promise: &PromiseOutcome) -> (outcome: ReceiverOutcome)
    ensures
        outcome == receiver_outcome_spec(*promise),
{
    match promise {
        PromiseOutcome::Successful(returned) => {
            let answer = match json_bool_from_slice(returned.as_slice()) {
                Ok(answer) => Some(answer),
                Err(_) => None,
            };
            outcome_of_answer(answer)
        },
        PromiseOutcome::Failed => ReceiverOutcome::Failed,
    }
}

/// How a transfer with notification ended.
#[derive(Debug, Clone, PartialEq, Eq)]
pub enum Resolution {
    /// The receiver keeps the token. Nothing changed in the second phase.
    Finalized,
    /// The token went back to its previous owner, which the event reports.
    RolledBack(TransferEvent),
}

/// The value of a [`Resolution`].
pub enum ResolutionView {
    Finalized,
    RolledBack(TransferEventView),
}

impl View for Resolution {
    type V = ResolutionView;

    open spec fn view(&self) -> ResolutionView {
        match self {
            Resolution::Finalized => ResolutionView::Finalized,
            Resolution::RolledBack(event) => ResolutionView::RolledBack(event@),
        }
    }
}

impl Resolution {
    /// Whether the transfer was kept.
    pub open spec fn spec_kept(&self) -> bool {
        self is Finalized
    }

    /// Whether the transfer was kept.
    pub fn kept(&self) -> (b: bool)
        ensures
            b == self.spec_kept(),
    {
        match self {
            Resolution::Finalized => true,
            Resolution::RolledBack(_) => false,
        }
    }
}

} // verus!
