use nft::contract::Contract;
use nft::error::NftError;
use nft::events::BurnEvent;
use nft::params::TokenCreateMetadata;
use nft::token::TokenApprovals;
use nft::transfer_call::ReceiverOutcome;

const NOW: u64 = 1_700_000_000_123_456_789;

fn id(name: &str) -> String {
    name.to_string()
}

fn create(title: &str) -> TokenCreateMetadata {
    TokenCreateMetadata { title: title.to_string(), description: format!("about {title}") }
}

fn registry_with(tokens: &[(&str, &str)]) -> Contract {
    let mut contract = Contract::new(id("admin.near"));
    for (token_id, owner_id) in tokens {
        contract.nft_mint(&id("admin.near"), id(token_id), id(owner_id), create(token_id), NOW).unwrap();
    }
    contract
}

/// The index names a token under an account exactly if the ledger names that
/// account as the token's owner.
fn assert_index_agrees(contract: &Contract, accounts: &[&str], tokens: &[&str]) {
    for account in accounts {
        let held = contract.nft_tokens_for_owner(id(account));
        for (i, token) in held.iter().enumerate() {
            assert!(!held[..i].contains(token), "{token} is listed twice for {account}");
        }
        for token in tokens {
            let owner = contract.nft_token(id(token)).map(|t| t.owner_id);
            assert_eq!(
                held.contains(&id(token)),
                owner == Some(id(account)),
                "index and ledger disagree on {token} and {account}"
            );
        }
    }
}

#[test]
fn new_registry_is_empty_and_described() {
    let contract = Contract::new(id("admin.near"));
    assert_eq!(contract.state_version(), 1);
    assert_eq!(contract.owner_id(), "admin.near");
    let metadata = contract.metadata();
    assert_eq!(metadata.standard, "nft-1.0.0");
    assert_eq!(metadata.name, "eTEU Transfer");
    assert_eq!(metadata.symbol, "ETEUV1");
    assert_eq!(metadata.icon, None);
    assert_eq!(metadata.base_uri, None);
    assert_eq!(metadata.reference, None);
    assert_eq!(metadata.reference_hash, None);
    assert!(metadata.is_valid());
    assert!(contract.nft_token(id("t1")).is_none());
    assert!(contract.nft_tokens_for_owner(id("admin.near")).is_empty());
    assert!(contract.records().is_empty());
}

#[test]
fn contract_metadata_validity() {
    let mut metadata = Contract::new(id("admin.near")).metadata().clone();
    assert!(metadata.is_valid());
    metadata.reference = Some(id("https://example.org/collection.json"));
    assert!(!metadata.is_valid());
    metadata.reference_hash = Some(vec![7u8; 31]);
    assert!(!metadata.is_valid());
    metadata.reference_hash = Some(vec![7u8; 32]);
    assert!(metadata.is_valid());
    metadata.reference = None;
    assert!(!metadata.is_valid());
    metadata.reference_hash = None;
    metadata.standard = id("nft-2.0.0");
    assert!(!metadata.is_valid());
}

#[test]
fn mint_records_owner_and_metadata() {
    let admin = id("admin.near");
    let mut contract = Contract::new(admin.clone());
    let token = contract.nft_mint(&admin, id("t1"), id("alice.near"), create("One"), NOW).unwrap();
    assert_eq!(token.token_id, "t1");
    assert_eq!(token.owner_id, "alice.near");
    let metadata = token.metadata.unwrap();
    assert_eq!(metadata.title, "One");
    assert_eq!(metadata.description, "about One");
    assert_eq!(metadata.copies, 1);
    assert_eq!(metadata.issued_at, 1_700_000_000_123);
    match token.approved_account_ids {
        TokenApprovals::ApprovalSet(set) => assert!(set.is_empty()),
        TokenApprovals::NoApprovals => panic!("approvals are kept"),
    }

    let stored = contract.nft_token(id("t1")).unwrap();
    assert_eq!(stored.token_id, "t1");
    assert_eq!(stored.owner_id, "alice.near");
    assert_eq!(stored.metadata.unwrap(), metadata);
    assert!(contract.nft_exists(&id("t1")));
    assert_eq!(contract.nft_tokens_for_owner(id("alice.near")), vec![id("t1")]);
}

#[test]
fn mint_stamps_the_time_in_milliseconds() {
    let admin = id("admin.near");
    let mut contract = Contract::new(admin.clone());
    let cases: [(&str, u64, u64); 5] = [
        ("a", 0, 0),
        ("b", 999_999, 0),
        ("c", 1_000_000, 1),
        ("d", 1_999_999, 1),
        ("e", u64::MAX, 18_446_744_073_709),
    ];
    for (token_id, nanos, millis) in cases {
        let token = contract.nft_mint(&admin, id(token_id), id("alice.near"), create(token_id), nanos).unwrap();
        assert_eq!(token.metadata.unwrap().issued_at, millis);
    }
}

#[test]
fn mint_by_anyone_but_the_administrator_is_unauthorized() {
    let mut contract = Contract::new(id("admin.near"));
    let result = contract.nft_mint(&id("eve.near"), id("t1"), id("eve.near"), create("One"), NOW);
    assert_eq!(result.err(), Some(NftError::Unauthorized));
    assert!(contract.nft_token(id("t1")).is_none());
    assert!(contract.nft_tokens_for_owner(id("eve.near")).is_empty());
}

#[test]
fn mint_of_existing_id_fails_and_keeps_the_token() {
    let admin = id("admin.near");
    let mut contract = registry_with(&[("t1", "alice.near")]);
    contract.nft_approve(&id("alice.near"), id("t1"), id("carol.near")).unwrap();
    let before = contract.nft_token(id("t1")).unwrap();

    let result = contract.nft_mint(&admin, id("t1"), id("bob.near"), create("Other"), NOW + 5_000_000);
    assert_eq!(result.err(), Some(NftError::AlreadyExists));

    let after = contract.nft_token(id("t1")).unwrap();
    assert_eq!(after.owner_id, "alice.near");
    assert_eq!(after.metadata, before.metadata);
    assert_eq!(contract.nft_is_approved(id("t1"), id("carol.near"), Some(1)), Ok(true));
    assert!(contract.nft_tokens_for_owner(id("bob.near")).is_empty());
    assert_index_agrees(&contract, &["alice.near", "bob.near", "admin.near"], &["t1"]);
}

#[test]
fn mint_by_stranger_of_existing_id_is_unauthorized() {
    let mut contract = registry_with(&[("t1", "alice.near")]);
    let result = contract.nft_mint(&id("eve.near"), id("t1"), id("eve.near"), create("One"), NOW);
    assert_eq!(result.err(), Some(NftError::Unauthorized));
}

#[test]
fn lookup_of_missing_token_is_none() {
    let contract = registry_with(&[("t1", "alice.near")]);
    assert!(contract.nft_token(id("t2")).is_none());
    assert!(contract.nft_token(id("")).is_none());
    assert!(!contract.nft_exists(&id("t2")));
}

#[test]
fn burn_by_non_owner_is_unauthorized() {
    let mut contract = registry_with(&[("t1", "alice.near")]);
    contract.nft_approve(&id("alice.near"), id("t1"), id("carol.near")).unwrap();
    for caller in ["bob.near", "admin.near", "carol.near"] {
        let result = contract.nft_burn(&id(caller), 1, id("t1"));
        assert_eq!(result.err(), Some(NftError::Unauthorized), "{caller}");
    }
    assert_eq!(contract.nft_token(id("t1")).unwrap().owner_id, "alice.near");
    assert_eq!(contract.nft_is_approved(id("t1"), id("carol.near"), Some(1)), Ok(true));
}

#[test]
fn burn_by_owner_removes_the_token_everywhere() {
    let mut contract = registry_with(&[("t1", "alice.near"), ("t2", "alice.near")]);
    contract.nft_approve(&id("alice.near"), id("t1"), id("carol.near")).unwrap();

    let event = contract.nft_burn(&id("alice.near"), 1, id("t1")).unwrap();
    assert_eq!(event, BurnEvent { owner_id: id("alice.near"), token_id: id("t1") });

    assert!(contract.nft_token(id("t1")).is_none());
    assert!(!contract.nft_exists(&id("t1")));
    assert_eq!(contract.nft_tokens_for_owner(id("alice.near")), vec![id("t2")]);
    assert_eq!(contract.nft_is_approved(id("t1"), id("carol.near"), None), Err(NftError::NotFound));
    assert!(contract.records().iter().all(|record| record.token_id != "t1"));
    assert_eq!(contract.nft_burn(&id("alice.near"), 1, id("t1")).err(), Some(NftError::NotFound));
    assert_index_agrees(&contract, &["alice.near", "carol.near"], &["t1", "t2"]);
}

#[test]
fn burn_of_last_token_drops_the_owners_set() {
    let mut contract = registry_with(&[("t1", "alice.near")]);
    contract.nft_burn(&id("alice.near"), 1, id("t1")).unwrap();
    assert!(contract.nft_tokens_for_owner(id("alice.near")).is_empty());
    assert!(contract.records().is_empty());
}

#[test]
fn burn_without_payment_is_rejected_first() {
    let mut contract = registry_with(&[("t1", "alice.near")]);
    assert_eq!(contract.nft_burn(&id("alice.near"), 0, id("t1")).err(), Some(NftError::InsufficientPayment));
    assert_eq!(contract.nft_burn(&id("bob.near"), 0, id("t1")).err(), Some(NftError::InsufficientPayment));
    assert_eq!(contract.nft_burn(&id("alice.near"), 0, id("nope")).err(), Some(NftError::InsufficientPayment));
    assert!(contract.nft_exists(&id("t1")));
}

#[test]
fn burn_of_missing_token_is_not_found() {
    let mut contract = registry_with(&[("t1", "alice.near")]);
    assert_eq!(contract.nft_burn(&id("alice.near"), 1, id("t2")).err(), Some(NftError::NotFound));
}

#[test]
fn burn_accepts_any_payment_from_the_minimum_up() {
    let mut contract = registry_with(&[("t1", "alice.near"), ("t2", "alice.near")]);
    assert!(contract.nft_burn(&id("alice.near"), 1, id("t1")).is_ok());
    assert!(contract.nft_burn(&id("alice.near"), u128::MAX, id("t2")).is_ok());
}

#[test]
fn token_minted_again_after_a_burn_starts_afresh() {
    let admin = id("admin.near");
    let mut contract = registry_with(&[("t1", "alice.near")]);
    assert_eq!(contract.nft_approve(&id("alice.near"), id("t1"), id("carol.near")), Ok(1));
    assert_eq!(contract.nft_approve(&id("alice.near"), id("t1"), id("dave.near")), Ok(2));
    contract.nft_burn(&id("alice.near"), 1, id("t1")).unwrap();

    contract.nft_mint(&admin, id("t1"), id("bob.near"), create("Again"), NOW).unwrap();
    assert_eq!(contract.nft_is_approved(id("t1"), id("carol.near"), None), Ok(false));
    assert_eq!(contract.nft_approve(&id("bob.near"), id("t1"), id("erin.near")), Ok(1));
    assert_eq!(contract.nft_token(id("t1")).unwrap().metadata.unwrap().title, "Again");
}

#[test]
fn index_agrees_with_ledger_after_every_mutation() {
    let accounts = ["admin.near", "alice.near", "bob.near", "carol.near"];
    let tokens = ["t1", "t2", "t3", "t4"];
    let admin = id("admin.near");
    let mut contract = Contract::new(admin.clone());
    assert_index_agrees(&contract, &accounts, &tokens);

    contract.nft_mint(&admin, id("t1"), id("alice.near"), create("1"), NOW).unwrap();
    assert_index_agrees(&contract, &accounts, &tokens);
    contract.nft_mint(&admin, id("t2"), id("alice.near"), create("2"), NOW).unwrap();
    assert_index_agrees(&contract, &accounts, &tokens);
    contract.nft_mint(&admin, id("t3"), id("bob.near"), create("3"), NOW).unwrap();
    assert_index_agrees(&contract, &accounts, &tokens);

    contract.nft_transfer(&id("alice.near"), 1, id("bob.near"), id("t1"), None, None).unwrap();
    assert_index_agrees(&contract, &accounts, &tokens);
    contract.nft_transfer(&id("alice.near"), 1, id("carol.near"), id("t2"), None, None).unwrap();
    assert_index_agrees(&contract, &accounts, &tokens);
    assert!(contract.nft_tokens_for_owner(id("alice.near")).is_empty());

    let started = contract
        .nft_transfer_call(&id("bob.near"), 1, id("alice.near"), id("t3"), None, None, id("hello"))
        .unwrap();
    assert_index_agrees(&contract, &accounts, &tokens);
    contract.nft_resolve_transfer(started.pending, ReceiverOutcome::Failed).unwrap();
    assert_index_agrees(&contract, &accounts, &tokens);
    assert_eq!(contract.nft_token(id("t3")).unwrap().owner_id, "bob.near");

    let started = contract
        .nft_transfer_call(&admin, 1, id("carol.near"), id("t1"), None, None, id("hello"))
        .unwrap();
    contract.nft_resolve_transfer(started.pending, ReceiverOutcome::Signal(true)).unwrap();
    assert_index_agrees(&contract, &accounts, &tokens);

    contract.nft_burn(&id("carol.near"), 1, id("t2")).unwrap();
    assert_index_agrees(&contract, &accounts, &tokens);
    assert!(contract.nft_transfer(&id("alice.near"), 1, id("bob.near"), id("t1"), None, None).is_err());
    assert_index_agrees(&contract, &accounts, &tokens);
    contract.nft_mint(&admin, id("t4"), id("admin.near"), create("4"), NOW).unwrap();
    assert_index_agrees(&contract, &accounts, &tokens);

    let mut carols = contract.nft_tokens_for_owner(id("carol.near"));
    carols.sort();
    assert_eq!(carols, vec![id("t1")]);
    assert_eq!(contract.nft_tokens_for_owner(id("bob.near")), vec![id("t3")]);
    assert_eq!(contract.nft_tokens_for_owner(id("admin.near")), vec![id("t4")]);
}

#[test]
fn error_messages() {
    assert_eq!(NftError::NotFound.message(), "Token not found");
    assert_eq!(NftError::Unauthorized.message(), "Unauthorized");
    assert_eq!(
        NftError::ApprovalMismatch.message(),
        "The given approval_id is different from the actual approval_id"
    );
    assert_eq!(NftError::NoOpTransfer.message(), "Current and next owner must differ");
    assert_eq!(NftError::InsufficientPayment.message(), "Requires attached deposit of at least 1 yoctoNEAR");
    assert_eq!(NftError::AlreadyExists.message(), "token_id must be unique");
    assert_eq!(NftError::ApprovalIdsExhausted.message(), "No approval id is left for this token");
}

#[test]
fn supply_counts_tokens_and_follows_the_index() {
    let mut contract = registry_with(&[("t1", "alice.near"), ("t2", "alice.near"), ("t3", "bob.near")]);
    assert_eq!(contract.nft_total_supply(), 3);
    assert_eq!(contract.nft_supply_for_owner(id("alice.near")), 2);
    assert_eq!(contract.nft_supply_for_owner(id("bob.near")), 1);
    assert_eq!(contract.nft_supply_for_owner(id("carol.near")), 0);

    contract.nft_transfer(&id("alice.near"), 1, id("bob.near"), id("t1"), None, None).unwrap();
    assert_eq!(contract.nft_total_supply(), 3);
    assert_eq!(contract.nft_supply_for_owner(id("alice.near")), 1);
    assert_eq!(contract.nft_supply_for_owner(id("bob.near")), 2);

    contract.nft_burn(&id("alice.near"), 1, id("t2")).unwrap();
    assert_eq!(contract.nft_total_supply(), 2);
    assert_eq!(contract.nft_supply_for_owner(id("alice.near")), 0);
    assert_eq!(Contract::new(id("admin.near")).nft_total_supply(), 0);
}
