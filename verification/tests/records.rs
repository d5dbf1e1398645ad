use nft::approvals::ApprovalSet;
use nft::contract::Contract;
use nft::error::NftError;
use nft::params::TokenCreateMetadata;
use nft::token::{TokenApprovals, TokenMetadata, TokenRecord};

fn id(name: &str) -> String {
    name.to_string()
}

fn record(token_id: &str, owner_id: &str, grants: &[(&str, u64)], last_approval_id: u64) -> TokenRecord {
    let mut approvals = ApprovalSet::new();
    for (account, approval_id) in grants {
        approvals.insert(id(account), *approval_id);
    }
    TokenRecord {
        token_id: id(token_id),
        owner_id: id(owner_id),
        metadata: TokenMetadata { title: id(token_id), description: id("stored"), copies: 1, issued_at: 17 },
        approved_account_ids: approvals,
        last_approval_id,
    }
}

fn approvals_of(contract: &Contract, token_id: &str) -> Vec<(String, u64)> {
    let token = contract.nft_token(id(token_id)).unwrap();
    let set = match token.approved_account_ids {
        TokenApprovals::ApprovalSet(set) => set,
        TokenApprovals::NoApprovals => panic!("approvals are kept"),
    };
    let mut grants: Vec<(String, u64)> =
        set.accounts().into_iter().map(|account| (account.clone(), set.get(&account).unwrap())).collect();
    grants.sort();
    grants
}

#[test]
fn registry_reads_back_what_it_wrote_down() {
    let admin = id("admin.near");
    let mut contract = Contract::new(admin.clone());
    for (token_id, owner_id) in [("t1", "alice.near"), ("t2", "alice.near"), ("t3", "bob.near")] {
        let metadata = TokenCreateMetadata { title: id(token_id), description: id("a token") };
        contract.nft_mint(&admin, id(token_id), id(owner_id), metadata, 5_000_000).unwrap();
    }
    contract.nft_approve(&id("alice.near"), id("t1"), id("carol.near")).unwrap();
    contract.nft_approve(&id("alice.near"), id("t1"), id("dave.near")).unwrap();
    contract.nft_revoke(&id("alice.near"), id("t1"), id("carol.near")).unwrap();
    contract.nft_approve(&id("bob.near"), id("t3"), id("carol.near")).unwrap();
    contract.nft_transfer(&id("bob.near"), 1, id("alice.near"), id("t3"), None, None).unwrap();

    let records = contract.records();
    assert_eq!(records.len(), 3);
    let t1 = records.iter().find(|record| record.token_id == "t1").unwrap();
    assert_eq!(t1.owner_id, "alice.near");
    assert_eq!(t1.last_approval_id, 2);
    assert_eq!(t1.metadata.issued_at, 5);
    let t2 = records.iter().find(|record| record.token_id == "t2").unwrap();
    assert_eq!(t2.last_approval_id, 0);

    let mut restored = Contract::from_records(contract.owner_id().clone(), records).unwrap();
    assert_eq!(restored.owner_id(), "admin.near");
    assert_eq!(restored.state_version(), 1);
    assert_eq!(restored.metadata(), contract.metadata());
    for token_id in ["t1", "t2", "t3"] {
        let before = contract.nft_token(id(token_id)).unwrap();
        let after = restored.nft_token(id(token_id)).unwrap();
        assert_eq!(after.owner_id, before.owner_id);
        assert_eq!(after.metadata, before.metadata);
        assert_eq!(approvals_of(&restored, token_id), approvals_of(&contract, token_id));
    }
    let mut alices = restored.nft_tokens_for_owner(id("alice.near"));
    alices.sort();
    assert_eq!(alices, vec![id("t1"), id("t2"), id("t3")]);
    assert!(restored.nft_tokens_for_owner(id("bob.near")).is_empty());
    assert_eq!(restored.nft_approve(&id("alice.near"), id("t1"), id("erin.near")), Ok(3));
    assert_eq!(restored.nft_approve(&id("alice.near"), id("t2"), id("erin.near")), Ok(1));
    assert_eq!(restored.nft_approve(&id("alice.near"), id("t3"), id("erin.near")), Ok(2));
}

#[test]
fn records_with_one_id_twice_are_rejected() {
    let records = vec![
        record("t1", "alice.near", &[], 0),
        record("t2", "bob.near", &[], 0),
        record("t1", "carol.near", &[], 0),
    ];
    assert_eq!(Contract::from_records(id("admin.near"), records).err(), Some(NftError::AlreadyExists));
}

#[test]
fn no_records_make_an_empty_registry() {
    let contract = Contract::from_records(id("admin.near"), Vec::new()).unwrap();
    assert!(contract.records().is_empty());
    assert!(contract.nft_token(id("t1")).is_none());
}

#[test]
fn loaded_counter_lies_above_every_loaded_id() {
    let records = vec![
        record("t1", "alice.near", &[("bob.near", 7), ("carol.near", 3)], 2),
        record("t2", "alice.near", &[("bob.near", 1)], 9),
        record("t3", "alice.near", &[], 0),
    ];
    let mut contract = Contract::from_records(id("admin.near"), records).unwrap();
    assert_eq!(contract.nft_approve(&id("alice.near"), id("t1"), id("dave.near")), Ok(8));
    assert_eq!(contract.nft_approve(&id("alice.near"), id("t2"), id("dave.near")), Ok(10));
    assert_eq!(contract.nft_approve(&id("alice.near"), id("t3"), id("dave.near")), Ok(1));
    assert_eq!(approvals_of(&contract, "t1"), vec![(id("bob.near"), 7), (id("carol.near"), 3), (id("dave.near"), 8)]);
}
