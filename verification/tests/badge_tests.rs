use quest_platform::badges::BadgeNFT;
use quest_platform::errors::LedgerError;
use quest_platform::ids::{Principal, SymbolId};

fn sym(s: &str) -> SymbolId {
    SymbolId::new(s.as_bytes().to_vec())
}

fn text(s: &str) -> Vec<u8> {
    s.as_bytes().to_vec()
}

#[test]
fn test_initialize() {
    let admin = Principal::new(1);
    let quest_platform = Principal::new(2);

    let mut nft = BadgeNFT::new();
    nft.initialize(admin, quest_platform);

    assert_eq!(nft.total_badges(), 0);
}

#[test]
fn test_mint_badge() {
    let admin = Principal::new(1);
    let quest_platform = Principal::new(2);
    let user = Principal::new(3);

    let mut nft = BadgeNFT::new();
    nft.initialize(admin, quest_platform);

    let badge_id = sym("badge1");
    let quest_id = sym("quest1");
    let metadata = text(r#"{"name":"First Quest Badge","image":"ipfs://..."}"#);

    let minted = nft.mint_badge(user, sym("badge1"), sym("quest1"), metadata, 5);
    assert!(minted.is_ok());

    let badge = nft.get_badge(&badge_id).unwrap();
    assert_eq!(badge.owner, user);
    assert_eq!(badge.quest_id, quest_id);
    assert_eq!(nft.total_badges(), 1);
}

#[test]
fn test_mint_twice_rejected() {
    let mut nft = BadgeNFT::new();
    nft.initialize(Principal::new(1), Principal::new(2));

    assert!(nft.mint_badge(Principal::new(3), sym("badge1"), sym("quest1"), text("m"), 5).is_ok());
    assert_eq!(
        nft.mint_badge(Principal::new(4), sym("badge1"), sym("quest2"), text("n"), 6),
        Err(LedgerError::AlreadyMinted)
    );
    assert_eq!(nft.total_badges(), 1);
    let badge = nft.get_badge(&sym("badge1")).unwrap();
    assert_eq!(badge.owner, Principal::new(3));
}

#[test]
fn test_transfer_updates_reverse_index() {
    let mut nft = BadgeNFT::new();
    nft.initialize(Principal::new(1), Principal::new(2));
    let alice = Principal::new(10);
    let bob = Principal::new(11);

    nft.mint_badge(alice, sym("badge1"), sym("quest1"), text("m"), 1).unwrap();
    nft.mint_badge(alice, sym("badge2"), sym("quest2"), text("m"), 2).unwrap();
    assert_eq!(nft.get_user_badges(alice), vec![sym("badge1"), sym("badge2")]);

    assert_eq!(nft.transfer_badge(alice, bob, &sym("badge1")), Ok(()));

    assert_eq!(nft.owner_of(&sym("badge1")), Some(bob));
    assert_eq!(nft.owner_of(&sym("badge2")), Some(alice));
    assert_eq!(nft.get_user_badges(alice), vec![sym("badge2")]);
    assert_eq!(nft.get_user_badges(bob), vec![sym("badge1")]);

    // moving the last badge away deletes the sender's entry
    assert_eq!(nft.transfer_badge(alice, bob, &sym("badge2")), Ok(()));
    assert_eq!(nft.get_user_badges(alice), Vec::<SymbolId>::new());
    assert_eq!(nft.get_user_badges(bob), vec![sym("badge1"), sym("badge2")]);
    assert_eq!(nft.total_badges(), 2);
}

#[test]
fn test_transfer_unauthorized() {
    let mut nft = BadgeNFT::new();
    nft.initialize(Principal::new(1), Principal::new(2));
    let alice = Principal::new(10);
    let mallory = Principal::new(12);

    nft.mint_badge(alice, sym("badge1"), sym("quest1"), text("m"), 1).unwrap();
    assert_eq!(
        nft.transfer_badge(mallory, mallory, &sym("badge1")),
        Err(LedgerError::Unauthorized)
    );
    assert_eq!(nft.owner_of(&sym("badge1")), Some(alice));
    assert_eq!(nft.get_user_badges(alice), vec![sym("badge1")]);
}

#[test]
fn test_transfer_unknown_badge() {
    let mut nft = BadgeNFT::new();
    nft.initialize(Principal::new(1), Principal::new(2));
    assert_eq!(
        nft.transfer_badge(Principal::new(10), Principal::new(11), &sym("nothere")),
        Err(LedgerError::NotFound)
    );
}

#[test]
fn test_transfer_to_self() {
    let mut nft = BadgeNFT::new();
    nft.initialize(Principal::new(1), Principal::new(2));
    let alice = Principal::new(10);

    nft.mint_badge(alice, sym("badge1"), sym("quest1"), text("m"), 1).unwrap();
    nft.mint_badge(alice, sym("badge2"), sym("quest2"), text("m"), 2).unwrap();

    assert_eq!(nft.transfer_badge(alice, alice, &sym("badge1")), Ok(()));
    assert_eq!(nft.owner_of(&sym("badge1")), Some(alice));
    // the id is re-appended after removal, so it moves to the end
    assert_eq!(nft.get_user_badges(alice), vec![sym("badge2"), sym("badge1")]);
}

#[test]
fn test_owner_of_unknown() {
    let nft = BadgeNFT::new();
    assert_eq!(nft.owner_of(&sym("badge1")), None);
    assert!(nft.get_badge(&sym("badge1")).is_none());
}
