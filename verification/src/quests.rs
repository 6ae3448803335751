//! The quest ledger and the completion ledger.
//!
//! [`QuestPlatform`] owns the quest-id -> quest map, the quest counter, the
//! platform configuration, and the (user, quest-id) -> completion-record map.
//! Quest completion consults and mutates both maps within one operation, so
//! they live in one state value.
//!
//! Every operation is specified against the mathematical image of the state
//! ([`PlatformV`]): the `ensures` of each mutating function says that the new
//! state is exactly the one the corresponding `*_step` spec function names.

use vstd::prelude::*;

use crate::errors::LedgerError;
use crate::ids::{Principal, SymbolId, sym_eq, copy_bytes, copy_symbol, copy_symbol_opt};

verus! {

/// Lifecycle state of a quest.  `Active` is the only state from which any
/// transition leaves; `Completed` and `Cancelled` are terminal.
#[derive(Clone, Copy, PartialEq, Eq, Structural, Debug)]
pub enum QuestStatus {
    Active,
    Completed,
    Cancelled,
}

/// A task definition with a reward and an optional completion cap and expiry.
#[derive(Clone, Debug)]
pub struct Quest {
    pub id: SymbolId,
    pub creator: Principal,
    pub title: Vec<u8>,
    pub description: Vec<u8>,
    pub reward_amount: i128,
    pub reward_token: Principal,
    pub badge_id: Option<SymbolId>,
    pub status: QuestStatus,
    pub created_at: u64,
    pub expires_at: Option<u64>,
    pub max_completions: Option<i128>,
    pub current_completions: i128,
}

/// A record that one principal finished one quest, exactly once.
#[derive(Clone, Debug)]
pub struct QuestCompletion {
    pub user: Principal,
    pub quest_id: SymbolId,
    pub completed_at: u64,
    pub reward_claimed: bool,
}

/// Mathematical image of a [`Quest`].
#[verifier::ext_equal]
pub ghost struct QuestV {
    pub id: Seq<u8>,
    pub creator: Principal,
    pub title: Seq<u8>,
    pub description: Seq<u8>,
    pub reward_amount: int,
    pub reward_token: Principal,
    pub badge_id: Option<Seq<u8>>,
    pub status: QuestStatus,
    pub created_at: u64,
    pub expires_at: Option<u64>,
    pub max_completions: Option<int>,
    pub current_completions: int,
}

/// Mathematical image of a [`QuestCompletion`].
#[verifier::ext_equal]
pub ghost struct CompletionV {
    pub user: Principal,
    pub quest_id: Seq<u8>,
    pub completed_at: u64,
    pub reward_claimed: bool,
}

impl View for Quest {
    type V = QuestV;

    open spec fn view(&self) -> QuestV {
        QuestV {
            id: self.id@,
            creator: self.creator,
            title: self.title@,
            description: self.description@,
            reward_amount: self.reward_amount as int,
            reward_token: self.reward_token,
            badge_id: match self.badge_id {
                Some(b) => Some(b@),
                None => None,
            },
            status: self.status,
            created_at: self.created_at,
            expires_at: self.expires_at,
            max_completions: match self.max_completions {
                Some(m) => Some(m as int),
                None => None,
            },
            current_completions: self.current_completions as int,
        }
    }
}

impl View for QuestCompletion {
    type V = CompletionV;

    open spec fn view(&self) -> CompletionV {
        CompletionV {
            user: self.user,
            quest_id: self.quest_id@,
            completed_at: self.completed_at,
            reward_claimed: self.reward_claimed,
        }
    }
}

/// The quest platform: configuration, the quest map, the completion map.
pub struct QuestPlatform {
    pub admin: Option<Principal>,
    pub reward_token: Option<Principal>,
    pub initialized: bool,
    pub quest_count: i128,
    pub quests: Vec<Quest>,
    pub completions: Vec<QuestCompletion>,
}

/// Mathematical image of the whole platform state.
#[verifier::ext_equal]
pub ghost struct PlatformV {
    pub admin: Option<Principal>,
    pub reward_token: Option<Principal>,
    pub initialized: bool,
    pub quest_count: int,
    pub quests: Seq<QuestV>,
    pub completions: Seq<CompletionV>,
}

impl View for QuestPlatform {
    type V = PlatformV;

    open spec fn view(&self) -> PlatformV {
        PlatformV {
            admin: self.admin,
            reward_token: self.reward_token,
            initialized: self.initialized,
            quest_count: self.quest_count as int,
            quests: self.quests@.map_values(|q: Quest| q@),
            completions: self.completions@.map_values(|c: QuestCompletion| c@),
        }
    }
}

/// Is a quest with this id present?
pub open spec fn has_quest(qs: Seq<QuestV>, id: Seq<u8>) -> bool {
    exists|i: int| 0 <= i < qs.len() && qs[i].id == id
}

/// The position of the quest with this id (meaningful under [`has_quest`]
/// together with unique ids).
pub open spec fn quest_index(qs: Seq<QuestV>, id: Seq<u8>) -> int {
    choose|i: int| 0 <= i < qs.len() && qs[i].id == id
}

/// The quest with this id, if any.
pub open spec fn quest_lookup(qs: Seq<QuestV>, id: Seq<u8>) -> Option<QuestV> {
    if has_quest(qs, id) {
        Some(qs[quest_index(qs, id)])
    } else {
        None
    }
}

/// Does a completion record for this (user, quest) pair exist?
pub open spec fn has_completion(cs: Seq<CompletionV>, user: Principal, qid: Seq<u8>) -> bool {
    exists|i: int| 0 <= i < cs.len() && cs[i].user == user && cs[i].quest_id == qid
}

/// How many completion records this quest holds, over all users.
pub open spec fn completion_count(cs: Seq<CompletionV>, qid: Seq<u8>) -> int
    decreases cs.len(),
{
    if cs.len() == 0 {
        0
    } else {
        completion_count(cs.drop_last(), qid) + if cs.last().quest_id == qid {
            1int
        } else {
            0int
        }
    }
}

/// Well-formedness of the platform state: unique quest ids, at most one
/// completion record per (user, quest) pair, every record naming an existing
/// quest, every counter agreeing with the records, every cap respected, and
/// the quest counter bounded by the number of quests.
pub open spec fn wf_platform(s: PlatformV) -> bool {
    &&& forall|i: int, j: int|
        0 <= i < j < s.quests.len() ==> s.quests[i].id != s.quests[j].id
    &&& forall|i: int, j: int|
        0 <= i < j < s.completions.len() ==> !(s.completions[i].user == s.completions[j].user
            && s.completions[i].quest_id == s.completions[j].quest_id)
    &&& forall|i: int|
        0 <= i < s.completions.len() ==> has_quest(s.quests, #[trigger] s.completions[i].quest_id)
    &&& forall|i: int|
        0 <= i < s.quests.len() ==> #[trigger] s.quests[i].current_completions
            == completion_count(s.completions, s.quests[i].id)
    &&& forall|i: int|
        0 <= i < s.quests.len() ==> (#[trigger] s.quests[i].max_completions matches Some(m)
            ==> 0 <= m && s.quests[i].current_completions <= m)
    &&& 0 <= s.quest_count <= s.quests.len()
}

/// A quest id held by a well-formed state names exactly one position.
pub proof fn lemma_quest_index_unique(qs: Seq<QuestV>, id: Seq<u8>, i: int)
    requires
        forall|a: int, b: int| 0 <= a < b < qs.len() ==> qs[a].id != qs[b].id,
        0 <= i < qs.len(),
        qs[i].id == id,
    ensures
        has_quest(qs, id),
        quest_index(qs, id) == i,
{
    assert(has_quest(qs, id));
    let j = quest_index(qs, id);
    if j < i {
        assert(qs[j].id != qs[i].id);
    } else if j > i {
        assert(qs[i].id != qs[j].id);
    }
}

/// The number of records a quest holds lies between zero and the number of
/// all records.
pub proof fn lemma_completion_count_bounds(cs: Seq<CompletionV>, qid: Seq<u8>)
    ensures
        0 <= completion_count(cs, qid) <= cs.len(),
    decreases cs.len(),
{
    if cs.len() > 0 {
        lemma_completion_count_bounds(cs.drop_last(), qid);
    }
}

/// Appending one record raises the count of exactly the quest it names.
pub proof fn lemma_completion_count_push(cs: Seq<CompletionV>, c: CompletionV, qid: Seq<u8>)
    ensures
        completion_count(cs.push(c), qid) == completion_count(cs, qid) + if c.quest_id == qid {
            1int
        } else {
            0int
        },
{
    assert(cs.push(c).drop_last() =~= cs);
    assert(cs.push(c).last() == c);
}

/// The state after `initialize`: the configuration is overwritten and the
/// quest counter reset; the quest and completion maps are left as they are.
pub open spec fn initialize_step(s: PlatformV, admin: Principal, reward_token: Principal) -> PlatformV {
    PlatformV {
        admin: Some(admin),
        reward_token: Some(reward_token),
        initialized: true,
        quest_count: 0,
        ..s
    }
}

/// The quest `create_quest` inserts on success.
pub open spec fn created_quest(
    s: PlatformV,
    creator: Principal,
    qid: Seq<u8>,
    title: Seq<u8>,
    description: Seq<u8>,
    reward_amount: int,
    badge_id: Option<Seq<u8>>,
    expires_at: Option<u64>,
    max_completions: Option<int>,
    now: u64,
) -> QuestV {
    QuestV {
        id: qid,
        creator,
        title,
        description,
        reward_amount,
        reward_token: s.reward_token->0,
        badge_id,
        status: QuestStatus::Active,
        created_at: now,
        expires_at,
        max_completions,
        current_completions: 0,
    }
}

/// The state and result of `create_quest`: rejected while the platform is
/// unconfigured, rejected for an id already present, and otherwise one new
/// active quest with zero completions plus one tick of the quest counter.
pub open spec fn create_step(
    s: PlatformV,
    creator: Principal,
    qid: Seq<u8>,
    title: Seq<u8>,
    description: Seq<u8>,
    reward_amount: int,
    badge_id: Option<Seq<u8>>,
    expires_at: Option<u64>,
    max_completions: Option<int>,
    now: u64,
) -> (PlatformV, Result<(), LedgerError>) {
    if s.reward_token is None {
        (s, Err(LedgerError::Uninitialized))
    } else if has_quest(s.quests, qid) {
        (s, Err(LedgerError::AlreadyExists))
    } else {
        (
            PlatformV {
                quests: s.quests.push(created_quest(
                    s, creator, qid, title, description, reward_amount, badge_id, expires_at,
                    max_completions, now,
                )),
                quest_count: s.quest_count + 1,
                ..s
            },
            Ok(()),
        )
    }
}

/// The quest unchanged but for its status.
pub open spec fn quest_with_status(q: QuestV, st: QuestStatus) -> QuestV {
    QuestV { status: st, ..q }
}

/// The state and result of `complete_quest`, following the check order of the
/// completion ledger: existence, active status, expiry, cap, exactly-once.
/// The first caller to observe an expired or capped-out quest flips its
/// status to the terminal state and is rejected; a successful completion
/// raises the counter, records the (user, quest) pair with the reward marked
/// claimed, and closes the quest the moment the counter reaches its cap.
pub open spec fn complete_step(
    s: PlatformV,
    user: Principal,
    qid: Seq<u8>,
    now: u64,
) -> (PlatformV, Result<(), LedgerError>) {
    if !has_quest(s.quests, qid) {
        (s, Err(LedgerError::NotFound))
    } else {
        let i = quest_index(s.quests, qid);
        let q = s.quests[i];
        if q.status != QuestStatus::Active {
            (s, Err(LedgerError::NotActive))
        } else if q.expires_at matches Some(e) && now > e {
            (
                PlatformV { quests: s.quests.update(i, quest_with_status(q, QuestStatus::Cancelled)), ..s },
                Err(LedgerError::Expired),
            )
        } else if q.max_completions matches Some(m) && q.current_completions >= m {
            (
                PlatformV { quests: s.quests.update(i, quest_with_status(q, QuestStatus::Completed)), ..s },
                Err(LedgerError::CapReached),
            )
        } else if has_completion(s.completions, user, qid) {
            (s, Err(LedgerError::AlreadyCompleted))
        } else {
            let new_count = q.current_completions + 1;
            let new_status = if q.max_completions matches Some(m) && new_count >= m {
                QuestStatus::Completed
            } else {
                QuestStatus::Active
            };
            let new_quest = QuestV {
                current_completions: new_count,
                status: new_status,
                ..q
            };
            let record = CompletionV { user, quest_id: qid, completed_at: now, reward_claimed: true };
            (
                PlatformV {
                    quests: s.quests.update(i, new_quest),
                    completions: s.completions.push(record),
                    ..s
                },
                Ok(()),
            )
        }
    }
}

/// The state and result of `cancel_quest`: only the configured admin may
/// cancel, the quest must exist, and its status is set to `Cancelled`
/// unconditionally, even if already terminal.
pub open spec fn cancel_step(
    s: PlatformV,
    caller: Principal,
    qid: Seq<u8>,
) -> (PlatformV, Result<(), LedgerError>) {
    if s.admin is None {
        (s, Err(LedgerError::Uninitialized))
    } else if s.admin != Some(caller) {
        (s, Err(LedgerError::Unauthorized))
    } else if !has_quest(s.quests, qid) {
        (s, Err(LedgerError::NotFound))
    } else {
        let i = quest_index(s.quests, qid);
        (
            PlatformV {
                quests: s.quests.update(i, quest_with_status(s.quests[i], QuestStatus::Cancelled)),
                ..s
            },
            Ok(()),
        )
    }
}

/// A quest no record names holds zero records.
pub proof fn lemma_completion_count_absent(cs: Seq<CompletionV>, qid: Seq<u8>)
    requires
        forall|i: int| 0 <= i < cs.len() ==> #[trigger] cs[i].quest_id != qid,
    ensures
        completion_count(cs, qid) == 0,
    decreases cs.len(),
{
    if cs.len() > 0 {
        assert(forall|i: int|
            0 <= i < cs.drop_last().len() ==> #[trigger] cs.drop_last()[i].quest_id != qid);
        lemma_completion_count_absent(cs.drop_last(), qid);
        assert(cs.last().quest_id != qid);
    }
}

/// The quests with `Active` status, in map order.
pub open spec fn active_quests(qs: Seq<QuestV>) -> Seq<QuestV>
    decreases qs.len(),
{
    if qs.len() == 0 {
        Seq::empty()
    } else {
        active_quests(qs.drop_last()) + if qs.last().status == QuestStatus::Active {
            seq![qs.last()]
        } else {
            Seq::empty()
        }
    }
}

/// Appending a quest appends it to the active selection exactly when it is
/// active.
pub proof fn lemma_active_quests_push(qs: Seq<QuestV>, q: QuestV)
    ensures
        active_quests(qs.push(q)) == active_quests(qs) + if q.status == QuestStatus::Active {
            seq![q]
        } else {
            Seq::<QuestV>::empty()
        },
{
    assert(qs.push(q).drop_last() =~= qs);
    assert(qs.push(q).last() == q);
}

/// The quest ids of one user's completion records, in record order.
pub open spec fn user_completion_ids(cs: Seq<CompletionV>, user: Principal) -> Seq<Seq<u8>>
    decreases cs.len(),
{
    if cs.len() == 0 {
        Seq::empty()
    } else {
        user_completion_ids(cs.drop_last(), user) + if cs.last().user == user {
            seq![cs.last().quest_id]
        } else {
            Seq::empty()
        }
    }
}

/// Appending a record appends its quest id to the user's selection exactly
/// when the record is theirs.
pub proof fn lemma_user_completion_ids_push(cs: Seq<CompletionV>, c: CompletionV, user: Principal)
    ensures
        user_completion_ids(cs.push(c), user) == user_completion_ids(cs, user) + if c.user
            == user {
            seq![c.quest_id]
        } else {
            Seq::<Seq<u8>>::empty()
        },
{
    assert(cs.push(c).drop_last() =~= cs);
    assert(cs.push(c).last() == c);
}

/// Rewriting one quest's status alone preserves well-formedness.
proof fn lemma_wf_status_update(s: PlatformV, i: int, st: QuestStatus)
    requires
        wf_platform(s),
        0 <= i < s.quests.len(),
    ensures
        wf_platform(
            PlatformV { quests: s.quests.update(i, quest_with_status(s.quests[i], st)), ..s },
        ),
{
    let q2 = s.quests.update(i, quest_with_status(s.quests[i], st));
    assert forall|k: int| 0 <= k < q2.len() implies #[trigger] q2[k].id == s.quests[k].id
        && q2[k].current_completions == s.quests[k].current_completions
        && q2[k].max_completions == s.quests[k].max_completions by {}
    assert forall|k: int| 0 <= k < s.completions.len() implies has_quest(
        q2, #[trigger] s.completions[k].quest_id,
    ) by {
        let w = choose|j: int|
            0 <= j < s.quests.len() && s.quests[j].id == s.completions[k].quest_id;
        assert(q2[w].id == s.completions[k].quest_id);
    }
}

/// First position in the quest map holding this id, if any.
fn find_quest(quests: &Vec<Quest>, id: &SymbolId) -> (r: Option<usize>)
    ensures
        match r {
            Some(i) => i < quests@.len() && quests@[i as int]@.id == id@,
            None => !has_quest(quests@.map_values(|q: Quest| q@), id@),
        },
{
    let n = quests.len();
    let mut i: usize = 0;
    while i < n
        invariant
            n == quests@.len(),
            0 <= i <= n,
            forall|j: int| 0 <= j < i ==> quests@[j]@.id != id@,
        decreases n - i,
    {
        if sym_eq(&quests[i].id, id) {
            return Some(i);
        }
        i = i + 1;
    }
    proof {
        let m = quests@.map_values(|q: Quest| q@);
        assert forall|j: int| 0 <= j < m.len() implies m[j].id != id@ by {
            assert(m[j] == quests@[j]@);
        }
    }
    None
}

/// First position in the completion map holding this (user, quest) pair.
fn find_completion(cs: &Vec<QuestCompletion>, user: &Principal, qid: &SymbolId) -> (r: Option<
    usize,
>)
    ensures
        match r {
            Some(i) => i < cs@.len() && cs@[i as int]@.user == *user && cs@[i as int]@.quest_id
                == qid@,
            None => !has_completion(cs@.map_values(|c: QuestCompletion| c@), *user, qid@),
        },
{
    let n = cs.len();
    let mut i: usize = 0;
    while i < n
        invariant
            n == cs@.len(),
            0 <= i <= n,
            forall|j: int| 0 <= j < i ==> !(cs@[j]@.user == *user && cs@[j]@.quest_id == qid@),
        decreases n - i,
    {
        if cs[i].user == *user && sym_eq(&cs[i].quest_id, qid) {
            return Some(i);
        }
        i = i + 1;
    }
    proof {
        let m = cs@.map_values(|c: QuestCompletion| c@);
        assert forall|j: int| 0 <= j < m.len() implies !(m[j].user == *user && m[j].quest_id
            == qid@) by {
            assert(m[j] == cs@[j]@);
        }
    }
    None
}

/// Completion preserves well-formedness, whatever its outcome.
pub proof fn lemma_complete_preserves_wf(s: PlatformV, user: Principal, qid: Seq<u8>, now: u64)
    requires
        wf_platform(s),
    ensures
        wf_platform(complete_step(s, user, qid, now).0),
{
    if has_quest(s.quests, qid) {
        let i = quest_index(s.quests, qid);
        assert(0 <= i < s.quests.len() && s.quests[i].id == qid);
        let q = s.quests[i];
        if q.status != QuestStatus::Active {
        } else if q.expires_at matches Some(e) && now > e {
            lemma_wf_status_update(s, i, QuestStatus::Cancelled);
        } else if q.max_completions matches Some(m) && q.current_completions >= m {
            lemma_wf_status_update(s, i, QuestStatus::Completed);
        } else if has_completion(s.completions, user, qid) {
        } else {
            let s2 = complete_step(s, user, qid, now).0;
            let cv = CompletionV { user, quest_id: qid, completed_at: now, reward_claimed: true };
            assert(s2.completions == s.completions.push(cv));
            assert forall|k: int| 0 <= k < s2.quests.len() implies #[trigger] s2.quests[k].id
                == s.quests[k].id by {}
            assert forall|a: int, b: int| 0 <= a < b < s2.completions.len() implies !(
                s2.completions[a].user == s2.completions[b].user && s2.completions[a].quest_id
                    == s2.completions[b].quest_id) by {
                if b == s.completions.len() {
                    assert(s2.completions[a] == s.completions[a]);
                    if s2.completions[a].user == cv.user && s2.completions[a].quest_id
                        == cv.quest_id {
                        assert(has_completion(s.completions, user, qid));
                    }
                }
            }
            assert forall|k: int| 0 <= k < s2.completions.len() implies has_quest(
                s2.quests, #[trigger] s2.completions[k].quest_id,
            ) by {
                if k < s.completions.len() {
                    let w = choose|j: int|
                        0 <= j < s.quests.len() && s.quests[j].id == s.completions[k].quest_id;
                    assert(s2.quests[w].id == s2.completions[k].quest_id);
                } else {
                    assert(s2.quests[i].id == cv.quest_id);
                }
            }
            assert forall|k: int| 0 <= k < s2.quests.len() implies #[trigger] s2.quests[k]
                .current_completions == completion_count(s2.completions, s2.quests[k].id) by {
                lemma_completion_count_push(s.completions, cv, s2.quests[k].id);
                if k != i {
                    assert(s2.quests[k] == s.quests[k]);
                    assert(s.quests[k].id != q.id);
                }
            }
        }
    }
}

/// A user completes a given quest at most once.  After a successful
/// completion the (user, quest) pair holds a record, and a second attempt
/// by the same user is rejected
/// with `AlreadyCompleted` and changes nothing — provided the first success
/// did not itself close the quest (its status is still `Active`) and the
/// second call does not arrive past the quest's expiry, since the status and
/// expiry guards run first.
pub proof fn lemma_exactly_once_completion(
    s: PlatformV,
    user: Principal,
    qid: Seq<u8>,
    now1: u64,
    now2: u64,
)
    requires
        wf_platform(s),
        complete_step(s, user, qid, now1).1 == Ok::<(), LedgerError>(()),
        ({
            let s1 = complete_step(s, user, qid, now1).0;
            let i1 = quest_index(s1.quests, qid);
            s1.quests[i1].status == QuestStatus::Active && (s1.quests[i1].expires_at matches Some(
                e,
            ) ==> now2 <= e)
        }),
    ensures
        has_completion(complete_step(s, user, qid, now1).0.completions, user, qid),
        complete_step(complete_step(s, user, qid, now1).0, user, qid, now2) == (
            complete_step(s, user, qid, now1).0,
            Err::<(), LedgerError>(LedgerError::AlreadyCompleted),
        ),
{
    let i = quest_index(s.quests, qid);
    assert(0 <= i < s.quests.len() && s.quests[i].id == qid);
    let q = s.quests[i];
    let s1 = complete_step(s, user, qid, now1).0;
    let cv = CompletionV { user, quest_id: qid, completed_at: now1, reward_claimed: true };
    assert(s1.completions[s.completions.len() as int] == cv);
    assert(has_completion(s1.completions, user, qid));
    assert forall|a: int, b: int| 0 <= a < b < s1.quests.len() implies s1.quests[a].id
        != s1.quests[b].id by {
        assert(s1.quests[a].id == s.quests[a].id);
        assert(s1.quests[b].id == s.quests[b].id);
    }
    assert(s1.quests[i].id == qid);
    lemma_quest_index_unique(s1.quests, qid, i);
    let q1 = s1.quests[i];
    assert(q1.status == QuestStatus::Active);
    if q1.max_completions is Some {
        assert(q1.current_completions < q1.max_completions->0);
    }
}

/// The completion cap is enforced.  For a quest with a completion cap that
/// is still active:
/// a successful completion raises the counter by one and closes the quest
/// exactly when the counter reaches the cap; and an attempt that finds the
/// counter already at the cap is rejected with `CapReached`, closes the
/// quest, and leaves the counter and the completion records untouched.
pub proof fn lemma_cap_enforcement(s: PlatformV, user: Principal, qid: Seq<u8>, now: u64)
    requires
        wf_platform(s),
        has_quest(s.quests, qid),
        s.quests[quest_index(s.quests, qid)].status == QuestStatus::Active,
        s.quests[quest_index(s.quests, qid)].max_completions is Some,
    ensures
        ({
            let i = quest_index(s.quests, qid);
            let q = s.quests[i];
            let m = q.max_completions->0;
            let s1 = complete_step(s, user, qid, now).0;
            let r = complete_step(s, user, qid, now).1;
            &&& r == Ok::<(), LedgerError>(()) ==> s1.quests[i].current_completions
                == q.current_completions + 1
            &&& r == Ok::<(), LedgerError>(()) ==> (s1.quests[i].status == QuestStatus::Completed
                <==> q.current_completions + 1 == m)
            &&& q.current_completions >= m && !(q.expires_at matches Some(e) && now > e) ==> r
                == Err::<(), LedgerError>(LedgerError::CapReached) && s1.quests[i].status
                == QuestStatus::Completed && s1.quests[i].current_completions
                == q.current_completions && s1.completions == s.completions
        }),
{
    let i = quest_index(s.quests, qid);
    assert(0 <= i < s.quests.len() && s.quests[i].id == qid);
    let q = s.quests[i];
    let m = q.max_completions->0;
    assert(q.current_completions <= m);
}

/// A cancelled quest stays cancelled: any completion attempt is rejected
/// with `NotActive` — never `Expired` — and changes nothing.
pub proof fn lemma_cancelled_is_permanent(s: PlatformV, user: Principal, qid: Seq<u8>, now: u64)
    requires
        wf_platform(s),
        has_quest(s.quests, qid),
        s.quests[quest_index(s.quests, qid)].status == QuestStatus::Cancelled,
    ensures
        complete_step(s, user, qid, now) == (s, Err::<(), LedgerError>(LedgerError::NotActive)),
{
    let i = quest_index(s.quests, qid);
    assert(0 <= i < s.quests.len() && s.quests[i].id == qid);
}

/// An observed expiry is permanent.  A completion attempt on an active quest past its
/// expiry is rejected with `Expired` and flips the status to `Cancelled`;
/// from then on every completion attempt by anyone, at any time, is rejected
/// with `NotActive` and changes nothing.
pub proof fn lemma_expiry_sticky(s: PlatformV, user: Principal, qid: Seq<u8>, now: u64)
    requires
        wf_platform(s),
        has_quest(s.quests, qid),
        s.quests[quest_index(s.quests, qid)].status == QuestStatus::Active,
        s.quests[quest_index(s.quests, qid)].expires_at matches Some(e) && now > e,
    ensures
        complete_step(s, user, qid, now).1 == Err::<(), LedgerError>(LedgerError::Expired),
        ({
            let s1 = complete_step(s, user, qid, now).0;
            &&& s1.quests[quest_index(s1.quests, qid)].status == QuestStatus::Cancelled
            &&& forall|u2: Principal, now2: u64|
                complete_step(s1, u2, qid, now2) == (
                    s1,
                    Err::<(), LedgerError>(LedgerError::NotActive),
                )
        }),
{
    let i = quest_index(s.quests, qid);
    assert(0 <= i < s.quests.len() && s.quests[i].id == qid);
    let s1 = complete_step(s, user, qid, now).0;
    lemma_complete_preserves_wf(s, user, qid, now);
    assert forall|a: int, b: int| 0 <= a < b < s1.quests.len() implies s1.quests[a].id
        != s1.quests[b].id by {
        assert(s1.quests[a].id == s.quests[a].id);
        assert(s1.quests[b].id == s.quests[b].id);
    }
    assert(s1.quests[i].id == qid);
    lemma_quest_index_unique(s1.quests, qid, i);
    assert forall|u2: Principal, now2: u64|
        complete_step(s1, u2, qid, now2) == (
            s1,
            Err::<(), LedgerError>(LedgerError::NotActive),
        ) by {
        lemma_cancelled_is_permanent(s1, u2, qid, now2);
    }
}

/// A fresh quest value with the same mathematical image.
fn copy_quest(q: &Quest) -> (r: Quest)
    ensures
        r@ == q@,
{
    let r = Quest {
        id: copy_symbol(&q.id),
        creator: q.creator,
        title: copy_bytes(&q.title),
        description: copy_bytes(&q.description),
        reward_amount: q.reward_amount,
        reward_token: q.reward_token,
        badge_id: copy_symbol_opt(&q.badge_id),
        status: q.status,
        created_at: q.created_at,
        expires_at: q.expires_at,
        max_completions: q.max_completions,
        current_completions: q.current_completions,
    };
    proof {
        assert(r@ =~= q@);
    }
    r
}

impl QuestPlatform {
    /// An empty, unconfigured platform.
    pub fn new() -> (s: QuestPlatform)
        ensures
            s@ == (PlatformV {
                admin: None,
                reward_token: None,
                initialized: false,
                quest_count: 0,
                quests: Seq::<QuestV>::empty(),
                completions: Seq::<CompletionV>::empty(),
            }),
            wf_platform(s@),
    {
        let s = QuestPlatform {
            admin: None,
            reward_token: None,
            initialized: false,
            quest_count: 0,
            quests: Vec::new(),
            completions: Vec::new(),
        };
        proof {
            assert(s@.quests =~= Seq::<QuestV>::empty());
            assert(s@.completions =~= Seq::<CompletionV>::empty());
        }
        s
    }

    /// Configure the platform: the admin principal and the reward-token
    /// account.  Re-initialization silently overwrites the configuration and
    /// resets the quest counter; the quest and completion maps are kept.
    pub fn initialize(&mut self, admin: Principal, reward_token: Principal)
        requires
            wf_platform(old(self)@),
        ensures
            final(self)@ == initialize_step(old(self)@, admin, reward_token),
            wf_platform(final(self)@),
    {
        self.admin = Some(admin);
        self.reward_token = Some(reward_token);
        self.initialized = true;
        self.quest_count = 0;
        proof {
            assert(self@ =~= initialize_step(old(self)@, admin, reward_token));
        }
    }

    /// Create a new quest.  The creator must have proved authorization to the
    /// host before this is called.  Fails with `Uninitialized` while the
    /// platform has no reward-token configuration, and with `AlreadyExists`
    /// for a quest id already present; otherwise the quest starts `Active`
    /// with zero completions and the quest counter ticks once.
    pub fn create_quest(
        &mut self,
        creator: Principal,
        quest_id: SymbolId,
        title: Vec<u8>,
        description: Vec<u8>,
        reward_amount: i128,
        badge_id: Option<SymbolId>,
        expires_at: Option<u64>,
        max_completions: Option<i128>,
        now: u64,
    ) -> (r: Result<(), LedgerError>)
        requires
            wf_platform(old(self)@),
            reward_amount >= 0,
            max_completions matches Some(m) ==> m >= 0,
        ensures
            final(self)@ == create_step(
                old(self)@, creator, quest_id@, title@, description@, reward_amount as int,
                match badge_id { Some(b) => Some(b@), None => None }, expires_at,
                match max_completions { Some(m) => Some(m as int), None => None }, now,
            ).0,
            r == create_step(
                old(self)@, creator, quest_id@, title@, description@, reward_amount as int,
                match badge_id { Some(b) => Some(b@), None => None }, expires_at,
                match max_completions { Some(m) => Some(m as int), None => None }, now,
            ).1,
            wf_platform(final(self)@),
    {
        let ghost s0 = self@;
        let reward_token = match self.reward_token {
            Some(t) => t,
            None => {
                return Err(LedgerError::Uninitialized);
            },
        };
        if let Some(i) = find_quest(&self.quests, &quest_id) {
            proof {
                assert(s0.quests[i as int] == self.quests@[i as int]@);
                lemma_quest_index_unique(s0.quests, quest_id@, i as int);
            }
            return Err(LedgerError::AlreadyExists);
        }
        let ghost old_len = self.quests@.len();
        let n = self.quests.len();
        proof {
            assert(s0.quest_count <= old_len == n <= usize::MAX);
            assert(s0.quest_count + 1 <= i128::MAX);
        }
        let quest = Quest {
            id: quest_id,
            creator,
            title,
            description,
            reward_amount,
            reward_token,
            badge_id,
            status: QuestStatus::Active,
            created_at: now,
            expires_at,
            max_completions,
            current_completions: 0,
        };
        let ghost qv = quest@;
        self.quests.push(quest);
        self.quest_count = self.quest_count + 1;
        proof {
            assert(self@.quests =~= s0.quests.push(qv));
            assert(self@ =~= create_step(
                s0, creator, qv.id, qv.title, qv.description, qv.reward_amount, qv.badge_id,
                qv.expires_at, qv.max_completions, now,
            ).0);
            assert forall|i: int| 0 <= i < self@.completions.len() implies has_quest(
                self@.quests, #[trigger] self@.completions[i].quest_id,
            ) by {
                assert(has_quest(s0.quests, s0.completions[i].quest_id));
                let w = choose|k: int|
                    0 <= k < s0.quests.len() && s0.quests[k].id == s0.completions[i].quest_id;
                assert(self@.quests[w].id == self@.completions[i].quest_id);
            }
            assert forall|i: int| 0 <= i < self@.quests.len() implies #[trigger] self@.quests[i]
                .current_completions == completion_count(self@.completions, self@.quests[i].id) by {
                if i < s0.quests.len() {
                    assert(self@.quests[i] == s0.quests[i]);
                } else {
                    assert(self@.quests[i] == qv);
                    assert(forall|k: int|
                        0 <= k < s0.completions.len() ==> #[trigger] s0.completions[k].quest_id
                            != qv.id);
                    lemma_completion_count_absent(s0.completions, qv.id);
                }
            }
            assert(wf_platform(self@));
        }
        Ok(())
    }

    /// Complete a quest on behalf of a user and record the claimed reward.
    /// The user must have proved authorization to the host; `now` is the
    /// host's ledger timestamp.  The checks run in order: the quest must
    /// exist, must be `Active`, must not be past its expiry (the first
    /// observer flips it to `Cancelled` and is rejected with `Expired`), must
    /// not already be at its cap (the first observer flips it to `Completed`
    /// and is rejected with `CapReached`), and the (user, quest) pair must
    /// not already hold a record.  Success raises the completion counter,
    /// closes the quest when the counter reaches the cap, and appends the
    /// completion record with the reward marked claimed.
    pub fn complete_quest(&mut self, user: Principal, quest_id: &SymbolId, now: u64) -> (r:
        Result<(), LedgerError>)
        requires
            wf_platform(old(self)@),
        ensures
            final(self)@ == complete_step(old(self)@, user, quest_id@, now).0,
            r == complete_step(old(self)@, user, quest_id@, now).1,
            wf_platform(final(self)@),
    {
        let ghost s0 = self@;
        let idx = match find_quest(&self.quests, quest_id) {
            Some(i) => i,
            None => {
                return Err(LedgerError::NotFound);
            },
        };
        proof {
            assert(s0.quests[idx as int] == self.quests@[idx as int]@);
            lemma_quest_index_unique(s0.quests, quest_id@, idx as int);
        }
        let ghost qv = s0.quests[idx as int];
        if self.quests[idx].status != QuestStatus::Active {
            return Err(LedgerError::NotActive);
        }
        let expired = match self.quests[idx].expires_at {
            Some(e) => now > e,
            None => false,
        };
        if expired {
            let q = &mut self.quests[idx];
            q.status = QuestStatus::Cancelled;
            proof {
                lemma_wf_status_update(s0, idx as int, QuestStatus::Cancelled);
                assert(self@.quests =~= s0.quests.update(
                    idx as int, quest_with_status(qv, QuestStatus::Cancelled),
                ));
                assert(self@ =~= complete_step(s0, user, quest_id@, now).0);
            }
            return Err(LedgerError::Expired);
        }
        let cap_hit = match self.quests[idx].max_completions {
            Some(m) => self.quests[idx].current_completions >= m,
            None => false,
        };
        if cap_hit {
            let q = &mut self.quests[idx];
            q.status = QuestStatus::Completed;
            proof {
                lemma_wf_status_update(s0, idx as int, QuestStatus::Completed);
                assert(self@.quests =~= s0.quests.update(
                    idx as int, quest_with_status(qv, QuestStatus::Completed),
                ));
                assert(self@ =~= complete_step(s0, user, quest_id@, now).0);
            }
            return Err(LedgerError::CapReached);
        }
        if let Some(ci) = find_completion(&self.completions, &user, quest_id) {
            proof {
                assert(s0.completions[ci as int] == self.completions@[ci as int]@);
                assert(has_completion(s0.completions, user, quest_id@));
            }
            return Err(LedgerError::AlreadyCompleted);
        }
        let clen = self.completions.len();
        proof {
            lemma_completion_count_bounds(s0.completions, qv.id);
            assert(qv.current_completions == completion_count(s0.completions, qv.id));
            assert(qv.current_completions <= clen as int);
            assert(qv.current_completions + 1 <= i128::MAX);
        }
        let q = &mut self.quests[idx];
        let new_count: i128 = q.current_completions + 1;
        q.current_completions = new_count;
        let capped = match q.max_completions {
            Some(m) => new_count >= m,
            None => false,
        };
        if capped {
            q.status = QuestStatus::Completed;
        }
        let record = QuestCompletion {
            user,
            quest_id: copy_symbol(quest_id),
            completed_at: now,
            reward_claimed: true,
        };
        let ghost cv = record@;
        self.completions.push(record);
        proof {
            let newqv = QuestV {
                current_completions: qv.current_completions + 1,
                status: if qv.max_completions matches Some(m) && qv.current_completions + 1 >= m {
                    QuestStatus::Completed
                } else {
                    QuestStatus::Active
                },
                ..qv
            };
            assert(self@.quests =~= s0.quests.update(idx as int, newqv));
            assert(self@.completions =~= s0.completions.push(cv));
            assert(self@ =~= complete_step(s0, user, quest_id@, now).0);
            lemma_complete_preserves_wf(s0, user, quest_id@, now);
        }
        Ok(())
    }

    /// Cancel a quest.  Only the configured admin may do this, and the caller
    /// must have proved that identity to the host.  The status is set to
    /// `Cancelled` unconditionally, even if the quest is already terminal.
    pub fn cancel_quest(&mut self, caller: Principal, quest_id: &SymbolId) -> (r: Result<
        (),
        LedgerError,
    >)
        requires
            wf_platform(old(self)@),
        ensures
            final(self)@ == cancel_step(old(self)@, caller, quest_id@).0,
            r == cancel_step(old(self)@, caller, quest_id@).1,
            wf_platform(final(self)@),
    {
        let ghost s0 = self@;
        let admin = match self.admin {
            Some(a) => a,
            None => {
                return Err(LedgerError::Uninitialized);
            },
        };
        if admin != caller {
            return Err(LedgerError::Unauthorized);
        }
        let idx = match find_quest(&self.quests, quest_id) {
            Some(i) => i,
            None => {
                return Err(LedgerError::NotFound);
            },
        };
        proof {
            assert(s0.quests[idx as int] == self.quests@[idx as int]@);
            lemma_quest_index_unique(s0.quests, quest_id@, idx as int);
        }
        let q = &mut self.quests[idx];
        q.status = QuestStatus::Cancelled;
        proof {
            lemma_wf_status_update(s0, idx as int, QuestStatus::Cancelled);
            assert(self@.quests =~= s0.quests.update(
                idx as int, quest_with_status(s0.quests[idx as int], QuestStatus::Cancelled),
            ));
            assert(self@ =~= cancel_step(s0, caller, quest_id@).0);
        }
        Ok(())
    }

    /// The quest with this id, if any.
    pub fn get_quest(&self, quest_id: &SymbolId) -> (r: Option<Quest>)
        requires
            wf_platform(self@),
        ensures
            match r {
                Some(q) => has_quest(self@.quests, quest_id@) && q@ == self@.quests[quest_index(
                    self@.quests, quest_id@,
                )],
                None => !has_quest(self@.quests, quest_id@),
            },
    {
        match find_quest(&self.quests, quest_id) {
            Some(i) => {
                proof {
                    assert(self@.quests[i as int] == self.quests@[i as int]@);
                    lemma_quest_index_unique(self@.quests, quest_id@, i as int);
                }
                Some(copy_quest(&self.quests[i]))
            },
            None => None,
        }
    }

    /// Whether this user holds a completion record for this quest.
    pub fn has_completed(&self, user: Principal, quest_id: &SymbolId) -> (r: bool)
        ensures
            r == has_completion(self@.completions, user, quest_id@),
    {
        match find_completion(&self.completions, &user, quest_id) {
            Some(i) => {
                proof {
                    assert(self@.completions[i as int] == self.completions@[i as int]@);
                }
                true
            },
            None => false,
        }
    }

    /// How many quests were created since the last initialization.
    pub fn get_quest_count(&self) -> (r: i128)
        ensures
            r as int == self@.quest_count,
    {
        self.quest_count
    }

    /// All quests whose status is `Active`, in map order.
    pub fn get_active_quests(&self) -> (r: Vec<Quest>)
        ensures
            r@.map_values(|q: Quest| q@) == active_quests(self@.quests),
    {
        let mut r: Vec<Quest> = Vec::new();
        let n = self.quests.len();
        let mut i: usize = 0;
        proof {
            assert(r@.map_values(|q: Quest| q@) =~= active_quests(self@.quests.subrange(0, 0)));
        }
        while i < n
            invariant
                n == self.quests@.len(),
                0 <= i <= n,
                r@.map_values(|q: Quest| q@) == active_quests(self@.quests.subrange(0, i as int)),
            decreases n - i,
        {
            let ghost pre = self@.quests.subrange(0, i as int);
            let ghost qv = self@.quests[i as int];
            let is_active = match self.quests[i].status {
                QuestStatus::Active => true,
                _ => false,
            };
            if is_active {
                let ghost r0 = r@;
                r.push(copy_quest(&self.quests[i]));
                proof {
                    assert(r@.map_values(|q: Quest| q@) =~= r0.map_values(|q: Quest| q@).push(qv));
                }
            }
            proof {
                assert(self@.quests.subrange(0, i as int + 1) =~= pre.push(qv));
                lemma_active_quests_push(pre, qv);
                if !is_active {
                    assert(active_quests(pre.push(qv)) =~= active_quests(pre));
                }
            }
            i = i + 1;
        }
        proof {
            assert(self@.quests.subrange(0, n as int) =~= self@.quests);
        }
        r
    }

    /// The quest ids of this user's completion records, in record order.
    pub fn get_user_completions(&self, user: Principal) -> (r: Vec<SymbolId>)
        ensures
            r@.map_values(|s: SymbolId| s@) == user_completion_ids(self@.completions, user),
    {
        let mut r: Vec<SymbolId> = Vec::new();
        let n = self.completions.len();
        let mut i: usize = 0;
        proof {
            assert(r@.map_values(|s: SymbolId| s@) =~= user_completion_ids(
                self@.completions.subrange(0, 0), user,
            ));
        }
        while i < n
            invariant
                n == self.completions@.len(),
                0 <= i <= n,
                r@.map_values(|s: SymbolId| s@) == user_completion_ids(
                    self@.completions.subrange(0, i as int), user,
                ),
            decreases n - i,
        {
            let ghost pre = self@.completions.subrange(0, i as int);
            let ghost cv = self@.completions[i as int];
            let is_theirs = self.completions[i].user == user;
            if is_theirs {
                let ghost r0 = r@;
                r.push(copy_symbol(&self.completions[i].quest_id));
                proof {
                    assert(r@.map_values(|s: SymbolId| s@) =~= r0.map_values(|s: SymbolId| s@)
                        .push(cv.quest_id));
                }
            }
            proof {
                assert(self@.completions.subrange(0, i as int + 1) =~= pre.push(cv));
                lemma_user_completion_ids_push(pre, cv, user);
                if !is_theirs {
                    assert(user_completion_ids(pre.push(cv), user) =~= user_completion_ids(
                        pre, user,
                    ));
                }
            }
            i = i + 1;
        }
        proof {
            assert(self@.completions.subrange(0, n as int) =~= self@.completions);
        }
        r
    }

    /// The ledger keeps no leaderboard index, so no ranking can be produced
    /// from its state; the result is always empty.  Callers that need a
    /// ranking must maintain one outside this ledger.
    pub fn get_leaderboard(&self) -> (r: Vec<(Principal, i128)>)
        ensures
            r@.len() == 0,
    {
        Vec::new()
    }
}

} // verus!
