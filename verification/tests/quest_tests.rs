use quest_platform::errors::LedgerError;
use quest_platform::ids::{Principal, SymbolId};
use quest_platform::quests::{QuestPlatform, QuestStatus};

fn sym(s: &str) -> SymbolId {
    SymbolId::new(s.as_bytes().to_vec())
}

fn text(s: &str) -> Vec<u8> {
    s.as_bytes().to_vec()
}

#[test]
fn test_test_initialize() {
    let admin = Principal::new(1);
    let reward_token = Principal::new(2);

    let mut platform = QuestPlatform::new();
    platform.initialize(admin, reward_token);

    assert_eq!(platform.get_quest_count(), 0);
}

#[test]
fn test_create_quest() {
    let admin = Principal::new(1);
    let creator = Principal::new(3);
    let reward_token = Principal::new(2);

    let mut platform = QuestPlatform::new();
    platform.initialize(admin, reward_token);

    let quest_id = sym("quest1");
    let title = text("Test Quest");
    let description = text("Complete this test quest");

    let created = platform.create_quest(
        creator,
        sym("quest1"),
        title,
        description,
        1000,
        None,
        None,
        Some(100),
        7,
    );
    assert!(created.is_ok());

    let quest = platform.get_quest(&quest_id).unwrap();
    assert_eq!(quest.id, quest_id);
    assert_eq!(quest.creator, creator);
    assert_eq!(quest.status, QuestStatus::Active);
    assert_eq!(platform.get_quest_count(), 1);
}

#[test]
fn test_create_quest_uninitialized() {
    let mut platform = QuestPlatform::new();
    let r = platform.create_quest(
        Principal::new(3),
        sym("quest1"),
        text("Test Quest"),
        text("text"),
        10,
        None,
        None,
        None,
        0,
    );
    assert_eq!(r, Err(LedgerError::Uninitialized));
    assert!(platform.get_quest(&sym("quest1")).is_none());
}

#[test]
fn test_create_duplicate_quest() {
    let mut platform = QuestPlatform::new();
    platform.initialize(Principal::new(1), Principal::new(2));
    let ok = platform.create_quest(
        Principal::new(3),
        sym("quest1"),
        text("a"),
        text("b"),
        10,
        None,
        None,
        None,
        0,
    );
    assert!(ok.is_ok());
    let again = platform.create_quest(
        Principal::new(4),
        sym("quest1"),
        text("c"),
        text("d"),
        20,
        None,
        None,
        None,
        1,
    );
    assert_eq!(again, Err(LedgerError::AlreadyExists));
    assert_eq!(platform.get_quest_count(), 1);
}

#[test]
fn test_exactly_once_completion() {
    let mut platform = QuestPlatform::new();
    platform.initialize(Principal::new(1), Principal::new(2));
    let user = Principal::new(10);
    platform
        .create_quest(
            Principal::new(3),
            sym("quest1"),
            text("t"),
            text("d"),
            100,
            None,
            None,
            None,
            0,
        )
        .unwrap();

    assert!(!platform.has_completed(user, &sym("quest1")));
    assert_eq!(platform.complete_quest(user, &sym("quest1"), 5), Ok(()));
    assert!(platform.has_completed(user, &sym("quest1")));
    assert_eq!(
        platform.complete_quest(user, &sym("quest1"), 6),
        Err(LedgerError::AlreadyCompleted)
    );
    let quest = platform.get_quest(&sym("quest1")).unwrap();
    assert_eq!(quest.current_completions, 1);
}

#[test]
fn test_complete_unknown_quest() {
    let mut platform = QuestPlatform::new();
    platform.initialize(Principal::new(1), Principal::new(2));
    assert_eq!(
        platform.complete_quest(Principal::new(10), &sym("nothere"), 5),
        Err(LedgerError::NotFound)
    );
}

#[test]
fn test_cap_enforcement() {
    let mut platform = QuestPlatform::new();
    platform.initialize(Principal::new(1), Principal::new(2));
    platform
        .create_quest(
            Principal::new(3),
            sym("quest1"),
            text("t"),
            text("d"),
            100,
            None,
            None,
            Some(2),
            0,
        )
        .unwrap();

    assert_eq!(platform.complete_quest(Principal::new(10), &sym("quest1"), 1), Ok(()));
    let quest = platform.get_quest(&sym("quest1")).unwrap();
    assert_eq!(quest.status, QuestStatus::Active);
    assert_eq!(quest.current_completions, 1);

    assert_eq!(platform.complete_quest(Principal::new(11), &sym("quest1"), 2), Ok(()));
    let quest = platform.get_quest(&sym("quest1")).unwrap();
    assert_eq!(quest.status, QuestStatus::Completed);
    assert_eq!(quest.current_completions, 2);

    // the quest is terminal now, so the status guard fires before the cap
    assert_eq!(
        platform.complete_quest(Principal::new(12), &sym("quest1"), 3),
        Err(LedgerError::NotActive)
    );
    let quest = platform.get_quest(&sym("quest1")).unwrap();
    assert_eq!(quest.current_completions, 2);
}

#[test]
fn test_cap_zero_gives_cap_reached() {
    let mut platform = QuestPlatform::new();
    platform.initialize(Principal::new(1), Principal::new(2));
    platform
        .create_quest(
            Principal::new(3),
            sym("quest1"),
            text("t"),
            text("d"),
            100,
            None,
            None,
            Some(0),
            0,
        )
        .unwrap();
    // cap already reached while still active: the first observer pays the flip
    assert_eq!(
        platform.complete_quest(Principal::new(10), &sym("quest1"), 1),
        Err(LedgerError::CapReached)
    );
    let quest = platform.get_quest(&sym("quest1")).unwrap();
    assert_eq!(quest.status, QuestStatus::Completed);
    assert_eq!(quest.current_completions, 0);
}

#[test]
fn test_capped_quest_scenario() {
    let mut platform = QuestPlatform::new();
    platform.initialize(Principal::new(1), Principal::new(2));
    let creator = Principal::new(3);
    platform
        .create_quest(
            creator,
            sym("quest1"),
            text("t"),
            text("d"),
            1000,
            None,
            None,
            Some(1),
            0,
        )
        .unwrap();

    assert_eq!(platform.complete_quest(Principal::new(10), &sym("quest1"), 1), Ok(()));
    let quest = platform.get_quest(&sym("quest1")).unwrap();
    assert_eq!(quest.status, QuestStatus::Completed);
    assert_eq!(quest.current_completions, 1);

    // the first success closed the quest, so the second user hits the
    // status guard, which runs before the cap check
    assert_eq!(
        platform.complete_quest(Principal::new(11), &sym("quest1"), 2),
        Err(LedgerError::NotActive)
    );
    let quest = platform.get_quest(&sym("quest1")).unwrap();
    assert_eq!(quest.current_completions, 1);
}

#[test]
fn test_expiry_sticky() {
    let mut platform = QuestPlatform::new();
    platform.initialize(Principal::new(1), Principal::new(2));
    platform
        .create_quest(
            Principal::new(3),
            sym("quest1"),
            text("t"),
            text("d"),
            100,
            None,
            Some(100),
            None,
            0,
        )
        .unwrap();

    // at the boundary the quest is still completable
    assert_eq!(platform.complete_quest(Principal::new(9), &sym("quest1"), 100), Ok(()));

    // past the boundary: rejected, and the status flips for good
    assert_eq!(
        platform.complete_quest(Principal::new(10), &sym("quest1"), 101),
        Err(LedgerError::Expired)
    );
    let quest = platform.get_quest(&sym("quest1")).unwrap();
    assert_eq!(quest.status, QuestStatus::Cancelled);

    // even a call that is back before the expiry sees NotActive, not Expired
    assert_eq!(
        platform.complete_quest(Principal::new(11), &sym("quest1"), 50),
        Err(LedgerError::NotActive)
    );
    let quest = platform.get_quest(&sym("quest1")).unwrap();
    assert_eq!(quest.status, QuestStatus::Cancelled);
}

#[test]
fn test_cancel_quest_admin_only() {
    let admin = Principal::new(1);
    let mut platform = QuestPlatform::new();
    platform.initialize(admin, Principal::new(2));
    platform
        .create_quest(
            Principal::new(3),
            sym("quest1"),
            text("t"),
            text("d"),
            100,
            None,
            None,
            None,
            0,
        )
        .unwrap();

    assert_eq!(
        platform.cancel_quest(Principal::new(99), &sym("quest1")),
        Err(LedgerError::Unauthorized)
    );
    assert_eq!(
        platform.cancel_quest(admin, &sym("missing")),
        Err(LedgerError::NotFound)
    );
    assert_eq!(platform.cancel_quest(admin, &sym("quest1")), Ok(()));
    let quest = platform.get_quest(&sym("quest1")).unwrap();
    assert_eq!(quest.status, QuestStatus::Cancelled);
    assert_eq!(
        platform.complete_quest(Principal::new(10), &sym("quest1"), 1),
        Err(LedgerError::NotActive)
    );
}

#[test]
fn test_get_active_quests() {
    let admin = Principal::new(1);
    let mut platform = QuestPlatform::new();
    platform.initialize(admin, Principal::new(2));
    for (name, stamp) in [("questa", 0u64), ("questb", 1), ("questc", 2)] {
        platform
            .create_quest(
                Principal::new(3),
                sym(name),
                text("t"),
                text("d"),
                100,
                None,
                None,
                None,
                stamp,
            )
            .unwrap();
    }
    platform.cancel_quest(admin, &sym("questb")).unwrap();

    let active = platform.get_active_quests();
    assert_eq!(active.len(), 2);
    assert_eq!(active[0].id, sym("questa"));
    assert_eq!(active[1].id, sym("questc"));
}

#[test]
fn test_user_completions_order() {
    let mut platform = QuestPlatform::new();
    platform.initialize(Principal::new(1), Principal::new(2));
    let user = Principal::new(10);
    let other = Principal::new(11);
    for name in ["questa", "questb", "questc"] {
        platform
            .create_quest(
                Principal::new(3),
                sym(name),
                text("t"),
                text("d"),
                100,
                None,
                None,
                None,
                0,
            )
            .unwrap();
    }
    platform.complete_quest(user, &sym("questc"), 1).unwrap();
    platform.complete_quest(other, &sym("questb"), 2).unwrap();
    platform.complete_quest(user, &sym("questa"), 3).unwrap();

    let done = platform.get_user_completions(user);
    assert_eq!(done, vec![sym("questc"), sym("questa")]);
    assert_eq!(platform.get_leaderboard().len(), 0);
}
