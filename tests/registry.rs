use nft_registry::{
    storage_refund, AccountId, ApprovalTable, Contract, ContractMetadata, NftError, Registry,
    TokenMetadata,
};

fn acct(s: &str) -> AccountId {
    AccountId::new(s.to_string()).expect("valid account id")
}

fn descriptor() -> ContractMetadata {
    ContractMetadata {
        spec: "nft-1.0.0".to_string(),
        name: "NFTup".to_string(),
        symbol: "NFT".to_string(),
        icon: None,
        base_uri: None,
        reference: None,
        reference_hash: None,
    }
}

fn titled(title: &str) -> TokenMetadata {
    let mut m = TokenMetadata::empty();
    m.title = Some(title.to_string());
    m
}

fn registry_with_t1() -> Registry {
    let mut r = Registry::new();
    r.initialize(acct("alice"), descriptor()).unwrap();
    r.nft_mint("t1".to_string(), acct("bob"), titled("First"), 10, 10).unwrap();
    r
}

#[test]
fn mint_then_token_shows_owner_and_metadata() {
    let r = registry_with_t1();
    let t = r.nft_token(&"t1".to_string()).unwrap().unwrap();
    assert_eq!(t.token_id, "t1");
    assert_eq!(t.owner_id.as_str(), "bob");
    assert_eq!(t.metadata.title, Some("First".to_string()));
    assert_eq!(t.metadata.description, None);
    assert_eq!(t.approvals.len(), 0);
}

#[test]
fn duplicate_mint_is_refused_and_owner_kept() {
    let mut r = registry_with_t1();
    let e = r.nft_mint("t1".to_string(), acct("carol"), titled("Second"), 10, 10);
    assert_eq!(e.err(), Some(NftError::DuplicateToken));
    let t = r.nft_token(&"t1".to_string()).unwrap().unwrap();
    assert_eq!(t.owner_id.as_str(), "bob");
    assert_eq!(t.metadata.title, Some("First".to_string()));
    assert_eq!(r.contract().unwrap().nft_total_supply(), 1);
}

#[test]
fn approval_ids_are_never_reused() {
    let mut r = registry_with_t1();
    let t1 = "t1".to_string();
    let bob = acct("bob");
    assert_eq!(r.nft_approve(&t1, acct("dave"), &bob), Ok(1));
    assert_eq!(r.nft_approve(&t1, acct("erin"), &bob), Ok(2));
    assert_eq!(r.nft_revoke_all(&t1, &bob), Ok(()));
    assert_eq!(r.nft_approve(&t1, acct("dave"), &bob), Ok(3));
    let t = r.nft_token(&t1).unwrap().unwrap();
    assert_eq!(t.approvals.approval_id(&acct("dave")), Some(3));
    assert_eq!(t.approvals.approval_id(&acct("erin")), None);
}

#[test]
fn approve_by_non_owner_is_refused() {
    let mut r = registry_with_t1();
    let t1 = "t1".to_string();
    let e = r.nft_approve(&t1, acct("dave"), &acct("carol"));
    assert_eq!(e, Err(NftError::NotOwner));
    let t = r.nft_token(&t1).unwrap().unwrap();
    assert_eq!(t.approvals.len(), 0);
    // The counter did not move: the owner's first approval still gets 1.
    assert_eq!(r.nft_approve(&t1, acct("dave"), &acct("bob")), Ok(1));
}

#[test]
fn metadata_round_trip() {
    let mut r = Registry::new();
    let mut d = descriptor();
    d.icon = Some("data:icon".to_string());
    d.reference = Some("https://example.org/meta.json".to_string());
    d.reference_hash = Some(vec![7u8; 32]);
    r.initialize(acct("alice"), d).unwrap();
    let m = r.nft_metadata().unwrap();
    assert_eq!(m.spec, "nft-1.0.0");
    assert_eq!(m.name, "NFTup");
    assert_eq!(m.symbol, "NFT");
    assert_eq!(m.icon, Some("data:icon".to_string()));
    assert_eq!(m.base_uri, None);
    assert_eq!(m.reference, Some("https://example.org/meta.json".to_string()));
    assert_eq!(m.reference_hash, Some(vec![7u8; 32]));
}

#[test]
fn token_ids_stay_distinct_over_many_mints() {
    let mut r = Registry::new();
    r.initialize(acct("alice"), descriptor()).unwrap();
    for i in 0..5 {
        let id = format!("t{}", i);
        r.nft_mint(id.clone(), acct("bob"), TokenMetadata::empty(), 0, 0).unwrap();
        let again = r.nft_mint(id, acct("carol"), TokenMetadata::empty(), 0, 0);
        assert_eq!(again.err(), Some(NftError::DuplicateToken));
    }
    let all = r.contract().unwrap().nft_tokens(None, None);
    let ids: Vec<String> = all.iter().map(|t| t.token_id.clone()).collect();
    assert_eq!(ids, vec!["t0", "t1", "t2", "t3", "t4"]);
}

#[test]
fn owner_is_receiver_after_mint_and_approvals() {
    let mut r = registry_with_t1();
    r.nft_mint("t2".to_string(), acct("carol"), TokenMetadata::empty(), 0, 0).unwrap();
    let t1 = "t1".to_string();
    r.nft_approve(&t1, acct("dave"), &acct("bob")).unwrap();
    r.nft_revoke(&t1, &acct("dave"), &acct("bob")).unwrap();
    r.nft_revoke_all(&t1, &acct("bob")).unwrap();
    let c = r.contract().unwrap();
    assert_eq!(c.nft_token(&t1).unwrap().owner_id.as_str(), "bob");
    assert_eq!(c.nft_token(&"t2".to_string()).unwrap().owner_id.as_str(), "carol");
    assert_eq!(c.nft_owner_of(&t1).unwrap().as_str(), "bob");
    assert_eq!(c.nft_owner_of(&"t2".to_string()).unwrap().as_str(), "carol");
    assert!(c.nft_owner_of(&"t3".to_string()).is_none());
}

#[test]
fn revoke_twice_succeeds_and_changes_nothing_more() {
    let mut r = registry_with_t1();
    let t1 = "t1".to_string();
    let bob = acct("bob");
    r.nft_approve(&t1, acct("dave"), &bob).unwrap();
    r.nft_approve(&t1, acct("erin"), &bob).unwrap();
    assert_eq!(r.nft_revoke(&t1, &acct("dave"), &bob), Ok(()));
    let after_first = r.nft_token(&t1).unwrap().unwrap();
    assert_eq!(r.nft_revoke(&t1, &acct("dave"), &bob), Ok(()));
    let after_second = r.nft_token(&t1).unwrap().unwrap();
    assert_eq!(after_first.approvals.len(), 1);
    assert_eq!(after_second.approvals.len(), 1);
    assert_eq!(after_second.approvals.approval_id(&acct("erin")), Some(2));
    assert_eq!(after_second.approvals.approval_id(&acct("dave")), None);
    assert_eq!(r.nft_approve(&t1, acct("frank"), &bob), Ok(3));
}

#[test]
fn approval_ids_increase_across_revokes() {
    let mut r = registry_with_t1();
    let t1 = "t1".to_string();
    let bob = acct("bob");
    let mut last = 0u64;
    for name in ["dave", "erin", "dave", "frank"] {
        let id = r.nft_approve(&t1, acct(name), &bob).unwrap();
        assert!(id > last);
        last = id;
        r.nft_revoke(&t1, &acct("erin"), &bob).unwrap();
    }
    assert_eq!(last, 4);
}

#[test]
fn reapproving_replaces_the_id() {
    let mut r = registry_with_t1();
    let t1 = "t1".to_string();
    let bob = acct("bob");
    r.nft_approve(&t1, acct("dave"), &bob).unwrap();
    r.nft_approve(&t1, acct("dave"), &bob).unwrap();
    let c = r.contract().unwrap();
    assert_eq!(c.nft_is_approved(&t1, &acct("dave"), Some(1)), Ok(false));
    assert_eq!(c.nft_is_approved(&t1, &acct("dave"), Some(2)), Ok(true));
    assert_eq!(c.nft_is_approved(&t1, &acct("dave"), None), Ok(true));
    assert_eq!(c.nft_is_approved(&t1, &acct("erin"), None), Ok(false));
    assert_eq!(c.nft_token(&t1).unwrap().approvals.len(), 1);
}

#[test]
fn operations_before_initialize_fail() {
    let mut r = Registry::new();
    let t1 = "t1".to_string();
    assert!(matches!(r.contract(), Err(NftError::NotInitialized)));
    assert!(matches!(r.nft_metadata(), Err(NftError::NotInitialized)));
    assert!(matches!(r.nft_token(&t1), Err(NftError::NotInitialized)));
    let m = r.nft_mint(t1.clone(), acct("bob"), TokenMetadata::empty(), 0, 0);
    assert_eq!(m.err(), Some(NftError::NotInitialized));
    assert_eq!(r.nft_approve(&t1, acct("dave"), &acct("bob")), Err(NftError::NotInitialized));
    assert_eq!(r.nft_revoke(&t1, &acct("dave"), &acct("bob")), Err(NftError::NotInitialized));
    assert_eq!(r.nft_revoke_all(&t1, &acct("bob")), Err(NftError::NotInitialized));
}

#[test]
fn initialize_twice_fails() {
    let mut r = Registry::new();
    assert_eq!(r.initialize(acct("alice"), descriptor()), Ok(()));
    assert_eq!(r.initialize(acct("bob"), descriptor()), Err(NftError::AlreadyInitialized));
    assert_eq!(r.contract().unwrap().owner_id().as_str(), "alice");
    assert!(matches!(
        Contract::new(true, acct("alice"), descriptor()),
        Err(NftError::AlreadyInitialized)
    ));
}

#[test]
fn invalid_descriptors_are_refused() {
    let mut wrong_spec = descriptor();
    wrong_spec.spec = "nft-2.0.0".to_string();
    assert!(!wrong_spec.is_valid());
    let mut no_hash = descriptor();
    no_hash.reference = Some("ref".to_string());
    assert!(!no_hash.is_valid());
    let mut short_hash = descriptor();
    short_hash.reference = Some("ref".to_string());
    short_hash.reference_hash = Some(vec![1u8; 31]);
    assert!(!short_hash.is_valid());
    let mut hash_only = descriptor();
    hash_only.reference_hash = Some(vec![1u8; 32]);
    assert!(hash_only.is_valid());
    let mut short_hash_only = descriptor();
    short_hash_only.reference_hash = Some(vec![1u8; 5]);
    assert!(short_hash_only.is_valid());
    let mut full = descriptor();
    full.reference = Some("ref".to_string());
    full.reference_hash = Some(vec![1u8; 32]);
    assert!(full.is_valid());
    let mut hr = Registry::new();
    assert_eq!(hr.initialize(acct("alice"), hash_only), Ok(()));
    assert_eq!(hr.nft_metadata().unwrap().reference_hash, Some(vec![1u8; 32]));
    let mut r = Registry::new();
    assert_eq!(r.initialize(acct("alice"), wrong_spec), Err(NftError::InvalidMetadata));
    assert!(matches!(r.contract(), Err(NftError::NotInitialized)));
    assert!(matches!(
        Contract::new(false, acct("alice"), short_hash),
        Err(NftError::InvalidMetadata)
    ));
}

#[test]
fn default_descriptor() {
    let m = ContractMetadata::default_meta();
    assert_eq!(m.spec, "nft-1.0.0");
    assert_eq!(m.name, "NFTup");
    assert_eq!(m.symbol, "NFT");
    assert!(m.is_valid());
    assert_eq!(m.icon, None);
    assert_eq!(m.base_uri, None);
    assert_eq!(m.reference, None);
    assert_eq!(m.reference_hash, None);
    let c = Contract::new_default_meta(false, acct("alice")).unwrap();
    let cm = c.nft_metadata();
    assert_eq!(cm.spec, "nft-1.0.0");
    assert_eq!(cm.name, "NFTup");
    assert_eq!(cm.symbol, "NFT");
    assert_eq!(cm.icon, None);
    assert_eq!(cm.base_uri, None);
    assert_eq!(cm.reference, None);
    assert_eq!(cm.reference_hash, None);
    assert_eq!(c.owner_id().as_str(), "alice");
    assert_eq!(c.nft_total_supply(), 0);
    assert!(matches!(
        Contract::new_default_meta(true, acct("alice")),
        Err(NftError::AlreadyInitialized)
    ));
}

#[test]
fn insufficient_deposit_changes_nothing() {
    let mut r = Registry::new();
    r.initialize(acct("alice"), descriptor()).unwrap();
    let e = r.nft_mint("t1".to_string(), acct("bob"), TokenMetadata::empty(), 9, 10);
    assert_eq!(e.err(), Some(NftError::InsufficientDeposit));
    assert!(r.nft_token(&"t1".to_string()).unwrap().is_none());
    assert_eq!(r.contract().unwrap().nft_total_supply(), 0);
    // A duplicate id is reported before a short deposit.
    r.nft_mint("t1".to_string(), acct("bob"), TokenMetadata::empty(), 10, 10).unwrap();
    let e = r.nft_mint("t1".to_string(), acct("bob"), TokenMetadata::empty(), 0, 10);
    assert_eq!(e.err(), Some(NftError::DuplicateToken));
}

#[test]
fn refund_after_storage() {
    assert_eq!(storage_refund(100, 40), 60);
    assert_eq!(storage_refund(41, 40), 0);
    assert_eq!(storage_refund(42, 40), 2);
    assert_eq!(storage_refund(40, 40), 0);
}

#[test]
fn approval_errors_for_missing_token() {
    let mut r = registry_with_t1();
    let missing = "nope".to_string();
    let bob = acct("bob");
    assert_eq!(r.nft_approve(&missing, acct("dave"), &bob), Err(NftError::TokenNotFound));
    assert_eq!(r.nft_revoke(&missing, &acct("dave"), &bob), Err(NftError::TokenNotFound));
    assert_eq!(r.nft_revoke_all(&missing, &bob), Err(NftError::TokenNotFound));
    let c = r.contract().unwrap();
    assert_eq!(c.nft_is_approved(&missing, &acct("dave"), None), Err(NftError::TokenNotFound));
    assert!(c.nft_token(&missing).is_none());
    let t1 = "t1".to_string();
    assert_eq!(r.nft_revoke(&t1, &acct("dave"), &acct("carol")), Err(NftError::NotOwner));
    assert_eq!(r.nft_revoke_all(&t1, &acct("carol")), Err(NftError::NotOwner));
}

#[test]
fn enumeration_pages() {
    let mut r = Registry::new();
    r.initialize(acct("alice"), descriptor()).unwrap();
    for (id, owner) in [("a", "bob"), ("b", "carol"), ("c", "bob"), ("d", "bob"), ("e", "carol")] {
        r.nft_mint(id.to_string(), acct(owner), TokenMetadata::empty(), 0, 0).unwrap();
    }
    let c = r.contract().unwrap();
    let ids = |v: Vec<nft_registry::Token>| -> Vec<String> {
        v.iter().map(|t| t.token_id.clone()).collect()
    };
    assert_eq!(c.nft_total_supply(), 5);
    assert_eq!(ids(c.nft_tokens(Some(1), Some(2))), vec!["b", "c"]);
    assert_eq!(ids(c.nft_tokens(Some(3), None)), vec!["d", "e"]);
    assert_eq!(ids(c.nft_tokens(Some(4), Some(10))), vec!["e"]);
    assert!(c.nft_tokens(Some(5), None).is_empty());
    assert!(c.nft_tokens(Some(u128::MAX), Some(1)).is_empty());
    assert!(c.nft_tokens(None, Some(0)).is_empty());
    let bob = acct("bob");
    assert_eq!(c.nft_supply_for_owner(&bob), 3);
    assert_eq!(c.nft_supply_for_owner(&acct("carol")), 2);
    assert_eq!(c.nft_supply_for_owner(&acct("zed")), 0);
    assert_eq!(ids(c.nft_tokens_for_owner(&bob, None, None)), vec!["a", "c", "d"]);
    assert_eq!(ids(c.nft_tokens_for_owner(&bob, Some(1), Some(1))), vec!["c"]);
    assert!(c.nft_tokens_for_owner(&bob, Some(3), None).is_empty());
    assert!(c.nft_tokens_for_owner(&acct("zed"), None, None).is_empty());
}

#[test]
fn account_ids_follow_the_naming_rule() {
    for ok in ["bob", "ab", "alice.near", "a-b_c.d0", "0x", "app.alice.near"] {
        let a = AccountId::new(ok.to_string()).expect(ok);
        assert_eq!(a.as_str(), ok);
    }
    let long_ok = "a".repeat(64);
    assert!(AccountId::new(long_ok).is_some());
    for bad in ["", "a", "Bob", "a..b", "-ab", "ab-", "a b", "ab.", "é1", "a@b"] {
        assert!(AccountId::new(bad.to_string()).is_none(), "{}", bad);
    }
    assert!(AccountId::new("a".repeat(65)).is_none());
}

#[test]
fn approval_table_on_its_own() {
    let mut t = ApprovalTable::new();
    assert_eq!(t.grant(acct("dave")), 1);
    assert_eq!(t.grant(acct("erin")), 2);
    assert_eq!(t.len(), 2);
    assert!(t.is_approved(&acct("erin"), Some(2)));
    assert!(!t.is_approved(&acct("erin"), Some(1)));
    t.revoke(&acct("dave"));
    t.revoke(&acct("dave"));
    assert_eq!(t.len(), 1);
    assert_eq!(t.entries()[0].account_id.as_str(), "erin");
    t.revoke_all();
    assert_eq!(t.len(), 0);
    assert_eq!(t.grant(acct("dave")), 3);
    let copy = t.copy();
    assert_eq!(copy.approval_id(&acct("dave")), Some(3));
}

#[test]
fn revoke_all_keeps_the_counter() {
    let mut r = registry_with_t1();
    let t1 = "t1".to_string();
    let bob = acct("bob");
    r.nft_approve(&t1, acct("dave"), &bob).unwrap();
    r.nft_approve(&t1, acct("erin"), &bob).unwrap();
    r.nft_revoke_all(&t1, &bob).unwrap();
    let t = r.nft_token(&t1).unwrap().unwrap();
    assert_eq!(t.approvals.len(), 0);
    assert_eq!(t.approvals.counter(), 2);
}
