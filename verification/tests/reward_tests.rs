use quest_platform::errors::LedgerError;
use quest_platform::ids::Principal;
use quest_platform::rewards::RewardToken;

fn text(s: &str) -> Vec<u8> {
    s.as_bytes().to_vec()
}

#[test]
fn test_initialize_token() {
    let admin = Principal::new(1);

    let mut token = RewardToken::new();

    let name = text("Quest Reward Token");
    let symbol = text("QRT");

    token.initialize(admin, name.clone(), symbol.clone());

    assert_eq!(token.name(), Some(&name));
    assert_eq!(token.symbol(), Some(&symbol));
}

#[test]
fn test_reward_mint_auth() {
    let admin = Principal::new(1);
    let user = Principal::new(2);

    let mut token = RewardToken::new();
    assert_eq!(token.mint(admin, user, 100), Err(LedgerError::Uninitialized));

    token.initialize(admin, text("Quest Reward Token"), text("QRT"));
    assert_eq!(token.mint(user, user, 100), Err(LedgerError::Unauthorized));
    assert_eq!(token.mint(admin, user, 100), Ok(()));
}

#[test]
fn test_uninitialized_token_has_no_metadata() {
    let token = RewardToken::new();
    assert_eq!(token.name(), None);
    assert_eq!(token.symbol(), None);
}
