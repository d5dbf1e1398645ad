//! Who may move a token: its owner, the administrator of the collection, or
//! an account that the owner approved.

use crate::approvals::ApprovalSet;
use crate::error::NftError;
use crate::token::AccountId;
use vstd::prelude::*;

verus! {

/// In what capacity a caller moves a token.
#[derive(Debug)]
pub enum AuthDecision {
    /// The caller is the owner or the administrator: nobody acts for anybody.
    AuthorizedAsOwner,
    /// The caller holds an approval and acts for the owner.
    AuthorizedAsDelegate(AccountId),
}

/// The value of an [`AuthDecision`].
pub enum AuthDecisionView {
    AuthorizedAsOwner,
    AuthorizedAsDelegate(Seq<char>),
}

impl View for AuthDecision {
    type V = AuthDecisionView;

    open spec fn view(&self) -> AuthDecisionView {
        match self {
            AuthDecision::AuthorizedAsOwner => AuthDecisionView::AuthorizedAsOwner,
            AuthDecision::AuthorizedAsDelegate(account) => AuthDecisionView::AuthorizedAsDelegate(
                account@,
            ),
        }
    }
}

impl AuthDecisionView {
    /// The account that acts for the owner, if one does.
    pub open spec fn acting_for_owner(self) -> Option<Seq<char>> {
        match self {
            AuthDecisionView::AuthorizedAsOwner => None,
            AuthDecisionView::AuthorizedAsDelegate(account) => Some(account),
        }
    }
}

/// The administrator of the collection may move every token.
pub open spec fn is_privileged_spec(caller: Seq<char>, admin: Seq<char>) -> bool {
    caller == admin
}

/// Whether `caller` is the administrator `admin`.
pub fn is_privileged(caller: &AccountId, admin: &AccountId) -> (b: bool)
    ensures
        b == is_privileged_spec(caller@, admin@),
{
    *caller == *admin
}

/// The decision for `caller` on a token of `owner` under the approvals
/// `grants`, in a collection administered by `admin`.
///
/// The administrator and the owner are authorized as owner whatever else
/// holds. Any other caller needs an approval, and where it names an approval
/// id, that must be the id recorded for it.
pub open spec fn authorize_spec(
    caller: Seq<char>,
    admin: Seq<char>,
    owner: Seq<char>,
    grants: Map<Seq<char>, u64>,
    requested_approval_id: Option<u64>,
) -> Result<AuthDecisionView, NftError> {
    if is_privileged_spec(caller, admin) || caller == owner {
        Ok(AuthDecisionView::AuthorizedAsOwner)
    } else if !grants.contains_key(caller) {
        Err(NftError::Unauthorized)
    } else if requested_approval_id is Some && requested_approval_id->0 != grants[caller] {
        Err(NftError::ApprovalMismatch)
    } else {
        Ok(AuthDecisionView::AuthorizedAsDelegate(caller))
    }
}

/// The approvals behind an optional approval set: none where it is absent.
pub open spec fn grants_of(approvals: Option<&ApprovalSet>) -> Map<Seq<char>, u64> {
    match approvals {
        Some(set) => set@,
        None => Map::empty(),
    }
}

/// Decides whether `caller` may move a token of `owner`. `approvals` is the
/// token's approval set, absent where nobody is approved.
pub fn authorize(
    caller: &AccountId,
    admin: &AccountId,
    owner: &AccountId,
    approvals: Option<&ApprovalSet>,
    requested_approval_id: Option<u64>,
) -> (decision: Result<AuthDecision, NftError>)
    requires
        approvals matches Some(set) ==> set.wf(),
    ensures
        match decision {
            Ok(d) => authorize_spec(
                caller@,
                admin@,
                owner@,
                grants_of(approvals),
                requested_approval_id,
            ) == Ok::<AuthDecisionView, NftError>(d@),
            Err(e) => authorize_spec(
                caller@,
                admin@,
                owner@,
                grants_of(approvals),
                requested_approval_id,
            ) == Err::<AuthDecisionView, NftError>(e),
        },
{
    if is_privileged(caller, admin) || *caller == *owner {
        return Ok(AuthDecision::AuthorizedAsOwner);
    }
    let actual_approval_id = match approvals {
        Some(set) => set.get(caller),
        None => None,
    };
    match actual_approval_id {
        None => Err(NftError::Unauthorized),
        Some(actual) => {
            match requested_approval_id {
                Some(requested) => {
                    if requested != actual {
                        return Err(NftError::ApprovalMismatch);
                    }
                },
                None => {},
            }
            Ok(AuthDecision::AuthorizedAsDelegate(caller.clone()))
        },
    }
}

} // verus!
