use nft::approvals::ApprovalSet;
use nft::contract::Contract;
use nft::error::NftError;
use nft::params::TokenCreateMetadata;
use nft::token::{TokenApprovals, TokenMetadata, TokenRecord};

fn id(name: &str) -> String {
    name.to_string()
}

/// A registry of `admin.near` in which `alice.near` owns `t1` and `t2`.
fn registry() -> Contract {
    let mut contract = Contract::new(id("admin.near"));
    for token_id in ["t1", "t2"] {
        let metadata = TokenCreateMetadata { title: id(token_id), description: id("a token") };
        contract.nft_mint(&id("admin.near"), id(token_id), id("alice.near"), metadata, 0).unwrap();
    }
    contract
}

fn approvals_of(contract: &Contract, token_id: &str) -> Vec<(String, u64)> {
    let token = contract.nft_token(id(token_id)).unwrap();
    let set = match token.approved_account_ids {
        TokenApprovals::ApprovalSet(set) => set,
        TokenApprovals::NoApprovals => panic!("approvals are kept"),
    };
    let mut grants: Vec<(String, u64)> =
        set.accounts().into_iter().map(|account| (account.clone(), set.get(&account).unwrap())).collect();
    grants.sort();
    grants
}

#[test]
fn approval_ids_start_at_one_and_increase() {
    let mut contract = registry();
    let alice = id("alice.near");
    assert_eq!(contract.nft_approve(&alice, id("t1"), id("bob.near")), Ok(1));
    assert_eq!(contract.nft_approve(&alice, id("t1"), id("carol.near")), Ok(2));
    assert_eq!(contract.nft_approve(&alice, id("t1"), id("dave.near")), Ok(3));
    assert_eq!(
        approvals_of(&contract, "t1"),
        vec![(id("bob.near"), 1), (id("carol.near"), 2), (id("dave.near"), 3)]
    );
}

#[test]
fn each_token_counts_its_own_approvals() {
    let mut contract = registry();
    let alice = id("alice.near");
    assert_eq!(contract.nft_approve(&alice, id("t1"), id("bob.near")), Ok(1));
    assert_eq!(contract.nft_approve(&alice, id("t1"), id("carol.near")), Ok(2));
    assert_eq!(contract.nft_approve(&alice, id("t2"), id("bob.near")), Ok(1));
    assert_eq!(approvals_of(&contract, "t2"), vec![(id("bob.near"), 1)]);
}

#[test]
fn approval_ids_are_not_reused_after_revoke_and_regrant() {
    let mut contract = registry();
    let alice = id("alice.near");
    assert_eq!(contract.nft_approve(&alice, id("t1"), id("bob.near")), Ok(1));
    contract.nft_revoke(&alice, id("t1"), id("bob.near")).unwrap();
    assert!(approvals_of(&contract, "t1").is_empty());
    assert_eq!(contract.nft_approve(&alice, id("t1"), id("bob.near")), Ok(2));
    contract.nft_revoke_all(&alice, id("t1")).unwrap();
    assert_eq!(contract.nft_approve(&alice, id("t1"), id("carol.near")), Ok(3));
    assert_eq!(contract.nft_approve(&alice, id("t1"), id("bob.near")), Ok(4));
    assert_eq!(approvals_of(&contract, "t1"), vec![(id("bob.near"), 4), (id("carol.near"), 3)]);
}

#[test]
fn approving_an_account_again_replaces_its_id() {
    let mut contract = registry();
    let alice = id("alice.near");
    assert_eq!(contract.nft_approve(&alice, id("t1"), id("bob.near")), Ok(1));
    assert_eq!(contract.nft_approve(&alice, id("t1"), id("bob.near")), Ok(2));
    assert_eq!(approvals_of(&contract, "t1"), vec![(id("bob.near"), 2)]);
    assert_eq!(contract.nft_is_approved(id("t1"), id("bob.near"), Some(1)), Ok(false));
    assert_eq!(contract.nft_is_approved(id("t1"), id("bob.near"), Some(2)), Ok(true));
}

#[test]
fn approval_ids_keep_increasing_across_owners() {
    let mut contract = registry();
    assert_eq!(contract.nft_approve(&id("alice.near"), id("t1"), id("carol.near")), Ok(1));
    contract.nft_transfer(&id("alice.near"), 1, id("bob.near"), id("t1"), None, None).unwrap();
    assert_eq!(contract.nft_approve(&id("bob.near"), id("t1"), id("carol.near")), Ok(2));
    contract.nft_transfer(&id("carol.near"), 1, id("alice.near"), id("t1"), Some(2), None).unwrap();
    assert_eq!(contract.nft_approve(&id("alice.near"), id("t1"), id("carol.near")), Ok(3));
}

#[test]
fn only_the_owner_approves_and_revokes() {
    let mut contract = registry();
    contract.nft_approve(&id("alice.near"), id("t1"), id("carol.near")).unwrap();
    for caller in ["bob.near", "admin.near", "carol.near"] {
        assert_eq!(contract.nft_approve(&id(caller), id("t1"), id("eve.near")), Err(NftError::Unauthorized));
        assert_eq!(contract.nft_revoke(&id(caller), id("t1"), id("carol.near")), Err(NftError::Unauthorized));
        assert_eq!(contract.nft_revoke_all(&id(caller), id("t1")), Err(NftError::Unauthorized));
    }
    assert_eq!(approvals_of(&contract, "t1"), vec![(id("carol.near"), 1)]);
    assert_eq!(contract.nft_approve(&id("alice.near"), id("t1"), id("dave.near")), Ok(2));
}

#[test]
fn approvals_of_a_missing_token_are_not_found() {
    let mut contract = registry();
    assert_eq!(contract.nft_approve(&id("alice.near"), id("t9"), id("bob.near")), Err(NftError::NotFound));
    assert_eq!(contract.nft_revoke(&id("alice.near"), id("t9"), id("bob.near")), Err(NftError::NotFound));
    assert_eq!(contract.nft_revoke_all(&id("alice.near"), id("t9")), Err(NftError::NotFound));
    assert_eq!(contract.nft_is_approved(id("t9"), id("bob.near"), None), Err(NftError::NotFound));
}

#[test]
fn revoking_what_is_not_approved_changes_nothing() {
    let mut contract = registry();
    let alice = id("alice.near");
    assert_eq!(contract.nft_revoke(&alice, id("t1"), id("bob.near")), Ok(()));
    assert_eq!(contract.nft_revoke_all(&alice, id("t1")), Ok(()));
    contract.nft_approve(&alice, id("t1"), id("carol.near")).unwrap();
    assert_eq!(contract.nft_revoke(&alice, id("t1"), id("bob.near")), Ok(()));
    assert_eq!(approvals_of(&contract, "t1"), vec![(id("carol.near"), 1)]);
    assert_eq!(contract.nft_approve(&alice, id("t1"), id("bob.near")), Ok(2));
}

#[test]
fn revoke_withdraws_one_approval_and_revoke_all_every_one() {
    let mut contract = registry();
    let alice = id("alice.near");
    contract.nft_approve(&alice, id("t1"), id("bob.near")).unwrap();
    contract.nft_approve(&alice, id("t1"), id("carol.near")).unwrap();
    contract.nft_approve(&alice, id("t2"), id("bob.near")).unwrap();
    contract.nft_revoke(&alice, id("t1"), id("bob.near")).unwrap();
    assert_eq!(approvals_of(&contract, "t1"), vec![(id("carol.near"), 2)]);
    assert_eq!(approvals_of(&contract, "t2"), vec![(id("bob.near"), 1)]);
    contract.nft_approve(&alice, id("t1"), id("dave.near")).unwrap();
    contract.nft_revoke_all(&alice, id("t1")).unwrap();
    assert!(approvals_of(&contract, "t1").is_empty());
    assert_eq!(approvals_of(&contract, "t2"), vec![(id("bob.near"), 1)]);
}

#[test]
fn is_approved_checks_the_account_and_the_id() {
    let mut contract = registry();
    contract.nft_approve(&id("alice.near"), id("t1"), id("bob.near")).unwrap();
    contract.nft_approve(&id("alice.near"), id("t1"), id("carol.near")).unwrap();
    assert_eq!(contract.nft_is_approved(id("t1"), id("carol.near"), None), Ok(true));
    assert_eq!(contract.nft_is_approved(id("t1"), id("carol.near"), Some(2)), Ok(true));
    assert_eq!(contract.nft_is_approved(id("t1"), id("carol.near"), Some(1)), Ok(false));
    assert_eq!(contract.nft_is_approved(id("t1"), id("dave.near"), None), Ok(false));
    assert_eq!(contract.nft_is_approved(id("t1"), id("alice.near"), None), Ok(false));
    assert_eq!(contract.nft_is_approved(id("t2"), id("carol.near"), None), Ok(false));
}

#[test]
fn owner_may_approve_itself() {
    let mut contract = registry();
    assert_eq!(contract.nft_approve(&id("alice.near"), id("t1"), id("alice.near")), Ok(1));
    assert_eq!(contract.nft_is_approved(id("t1"), id("alice.near"), Some(1)), Ok(true));
}

#[test]
fn approval_ids_run_out_at_the_largest() {
    let mut approvals = ApprovalSet::new();
    approvals.insert(id("bob.near"), u64::MAX - 1);
    let record = TokenRecord {
        token_id: id("t1"),
        owner_id: id("alice.near"),
        metadata: TokenMetadata { title: id("One"), description: id("the first"), copies: 1, issued_at: 0 },
        approved_account_ids: approvals,
        last_approval_id: u64::MAX - 1,
    };
    let mut contract = Contract::from_records(id("admin.near"), vec![record]).unwrap();
    assert_eq!(contract.nft_approve(&id("alice.near"), id("t1"), id("carol.near")), Ok(u64::MAX));
    assert_eq!(
        contract.nft_approve(&id("alice.near"), id("t1"), id("dave.near")),
        Err(NftError::ApprovalIdsExhausted)
    );
    assert_eq!(approvals_of(&contract, "t1"), vec![(id("bob.near"), u64::MAX - 1), (id("carol.near"), u64::MAX)]);
    assert_eq!(contract.nft_approve(&id("bob.near"), id("t1"), id("dave.near")), Err(NftError::Unauthorized));
    contract.nft_transfer(&id("alice.near"), 1, id("bob.near"), id("t1"), None, None).unwrap();
    assert_eq!(
        contract.nft_approve(&id("bob.near"), id("t1"), id("dave.near")),
        Err(NftError::ApprovalIdsExhausted)
    );
}

#[test]
fn approval_set_is_a_map_from_account_to_id() {
    let mut set = ApprovalSet::new();
    assert!(set.is_empty());
    assert_eq!(set.highest_id(), 0);
    assert_eq!(set.get(&id("bob.near")), None);
    assert!(!set.contains(&id("bob.near")));
    assert!(set.accounts().is_empty());

    assert_eq!(set.insert(id("bob.near"), 3), None);
    assert_eq!(set.insert(id("carol.near"), 9), None);
    assert_eq!(set.insert(id("dave.near"), 5), None);
    assert_eq!(set.insert(id("bob.near"), 4), Some(3));
    assert_eq!(set.len(), 3);
    assert!(!set.is_empty());
    assert!(set.contains(&id("bob.near")));
    assert_eq!(set.get(&id("bob.near")), Some(4));
    assert_eq!(set.get(&id("carol.near")), Some(9));
    assert_eq!(set.highest_id(), 9);
    let mut accounts = set.accounts();
    accounts.sort();
    assert_eq!(accounts, vec![id("bob.near"), id("carol.near"), id("dave.near")]);

    let copy = set.clone();
    assert_eq!(set.remove(&id("carol.near")), Some(9));
    assert_eq!(set.remove(&id("carol.near")), None);
    assert_eq!(set.highest_id(), 5);
    assert_eq!(set.get(&id("carol.near")), None);
    assert_eq!(copy.get(&id("carol.near")), Some(9));
    assert_eq!(copy.get(&id("bob.near")), Some(4));
    assert_eq!(copy.accounts().len(), 3);
}
