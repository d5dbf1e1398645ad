use nft::approvals::ApprovalSet;
use nft::events::clone_opt;
use nft::string_map::StringMap;
use nft::string_set::StringSet;
use nft::token::{TokenApprovals, TokenMetadata};
use nft::{Contract, NftError, TokenCreateMetadata};

fn id(name: &str) -> String {
    name.to_string()
}

#[test]
fn string_map_keeps_one_value_for_each_key() {
    let mut map: StringMap<u32> = StringMap::new();
    assert!(map.is_empty());
    assert_eq!(map.len(), 0);
    assert_eq!(map.get(&id("a")), None);
    assert!(!map.contains_key(&id("a")));

    assert_eq!(map.insert(id("a"), 1), None);
    assert_eq!(map.insert(id("b"), 2), None);
    assert_eq!(map.insert(id(""), 0), None);
    assert_eq!(map.insert(id("a"), 10), Some(1));
    assert_eq!(map.len(), 3);
    assert!(!map.is_empty());
    assert_eq!(map.get(&id("a")), Some(&10));
    assert_eq!(map.get(&id("b")), Some(&2));
    assert_eq!(map.get(&id("")), Some(&0));
    assert_eq!(map.get(&id("A")), None);
    assert!(map.contains_key(&id("b")));

    let mut seen: Vec<(String, u32)> = (0..map.len()).map(|i| (map.key_at(i).clone(), *map.value_at(i))).collect();
    seen.sort();
    assert_eq!(seen, vec![(id(""), 0), (id("a"), 10), (id("b"), 2)]);

    assert_eq!(map.remove(&id("b")), Some(2));
    assert_eq!(map.remove(&id("b")), None);
    assert_eq!(map.len(), 2);
    assert_eq!(map.get(&id("b")), None);
    assert_eq!(map.get(&id("a")), Some(&10));
    assert_eq!(map.remove(&id("a")), Some(10));
    assert_eq!(map.remove(&id("")), Some(0));
    assert!(map.is_empty());
}

#[test]
fn string_set_holds_each_member_once() {
    let mut set = StringSet::new();
    assert!(set.is_empty());
    assert!(set.to_vec().is_empty());
    assert_eq!(set.len(), 0);
    assert!(set.insert(id("t1")));
    assert!(set.insert(id("t2")));
    assert!(!set.insert(id("t1")));
    assert_eq!(set.len(), 2);
    assert!(set.contains(&id("t1")));
    assert!(!set.contains(&id("t3")));
    let mut members = set.to_vec();
    members.sort();
    assert_eq!(members, vec![id("t1"), id("t2")]);
    assert!(set.remove(&id("t1")));
    assert!(!set.remove(&id("t1")));
    assert!(!set.contains(&id("t1")));
    assert_eq!(set.to_vec(), vec![id("t2")]);
    assert!(set.remove(&id("t2")));
    assert!(set.is_empty());
}

#[test]
fn copies_hold_what_was_copied() {
    let metadata = TokenMetadata { title: id("One"), description: id("the first"), copies: 1, issued_at: 9 };
    let copy = metadata.clone();
    assert_eq!(copy, metadata);

    let mut set = ApprovalSet::new();
    set.insert(id("bob.near"), 2);
    let approvals = TokenApprovals::ApprovalSet(set);
    match approvals.clone() {
        TokenApprovals::ApprovalSet(copy) => {
            assert_eq!(copy.get(&id("bob.near")), Some(2));
            assert_eq!(copy.len(), 1);
        }
        TokenApprovals::NoApprovals => panic!("the copy lost its approvals"),
    }
    assert!(matches!(TokenApprovals::NoApprovals.clone(), TokenApprovals::NoApprovals));

    assert_eq!(clone_opt(&Some(id("memo"))), Some(id("memo")));
    assert_eq!(clone_opt(&None), None);
}

#[test]
fn crate_root_names_the_registry() {
    let mut contract = Contract::new(id("admin.near"));
    let params = TokenCreateMetadata { title: id("One"), description: id("the first") };
    let result = contract.nft_mint(&id("eve.near"), id("t1"), id("eve.near"), params, 0);
    assert_eq!(result.err(), Some(NftError::Unauthorized));
}
