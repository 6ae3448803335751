//! The badge ownership ledger.
//!
//! [`BadgeNFT`] owns the badge-id -> badge map and the reverse index
//! owner -> list of badge ids.  Minting enforces mint-once; transfer enforces
//! that only the current owner moves a badge.  The badge record and the
//! reverse index are two representations of ownership, and every operation
//! keeps them in agreement ([`wf_nft`]).

use vstd::prelude::*;

use crate::errors::LedgerError;
use crate::ids::{Principal, SymbolId, sym_eq, copy_bytes, copy_symbol};

verus! {

/// A non-fungible proof of completion of one quest.
#[derive(Clone, Debug)]
pub struct Badge {
    pub id: SymbolId,
    pub quest_id: SymbolId,
    pub owner: Principal,
    pub minted_at: u64,
    pub metadata: Vec<u8>,
}

/// Mathematical image of a [`Badge`].
#[verifier::ext_equal]
pub ghost struct BadgeV {
    pub id: Seq<u8>,
    pub quest_id: Seq<u8>,
    pub owner: Principal,
    pub minted_at: u64,
    pub metadata: Seq<u8>,
}

impl View for Badge {
    type V = BadgeV;

    open spec fn view(&self) -> BadgeV {
        BadgeV {
            id: self.id@,
            quest_id: self.quest_id@,
            owner: self.owner,
            minted_at: self.minted_at,
            metadata: self.metadata@,
        }
    }
}

/// One reverse-index entry: the badges a principal holds, in mint/receive
/// order.
#[derive(Clone, Debug)]
pub struct OwnerBadges {
    pub owner: Principal,
    pub badge_ids: Vec<SymbolId>,
}

/// Mathematical image of an [`OwnerBadges`] entry.
#[verifier::ext_equal]
pub ghost struct OwnerBadgesV {
    pub owner: Principal,
    pub badge_ids: Seq<Seq<u8>>,
}

impl View for OwnerBadges {
    type V = OwnerBadgesV;

    open spec fn view(&self) -> OwnerBadgesV {
        OwnerBadgesV {
            owner: self.owner,
            badge_ids: self.badge_ids@.map_values(|s: SymbolId| s@),
        }
    }
}

/// The badge ledger: configuration, the badge map, the reverse index.
pub struct BadgeNFT {
    pub admin: Option<Principal>,
    pub quest_platform: Option<Principal>,
    pub initialized: bool,
    pub badge_count: i128,
    pub badges: Vec<Badge>,
    pub owners: Vec<OwnerBadges>,
}

/// Mathematical image of the whole badge-ledger state.
#[verifier::ext_equal]
pub ghost struct NftV {
    pub admin: Option<Principal>,
    pub quest_platform: Option<Principal>,
    pub initialized: bool,
    pub badge_count: int,
    pub badges: Seq<BadgeV>,
    pub owners: Seq<OwnerBadgesV>,
}

impl View for BadgeNFT {
    type V = NftV;

    open spec fn view(&self) -> NftV {
        NftV {
            admin: self.admin,
            quest_platform: self.quest_platform,
            initialized: self.initialized,
            badge_count: self.badge_count as int,
            badges: self.badges@.map_values(|b: Badge| b@),
            owners: self.owners@.map_values(|e: OwnerBadges| e@),
        }
    }
}

/// Is a badge with this id present?
pub open spec fn has_badge(bs: Seq<BadgeV>, id: Seq<u8>) -> bool {
    exists|i: int| 0 <= i < bs.len() && bs[i].id == id
}

/// The position of the badge with this id (meaningful under [`has_badge`]
/// together with unique ids).
pub open spec fn badge_index(bs: Seq<BadgeV>, id: Seq<u8>) -> int {
    choose|i: int| 0 <= i < bs.len() && bs[i].id == id
}

/// Is there a reverse-index entry for this principal?
pub open spec fn has_owner(os: Seq<OwnerBadgesV>, p: Principal) -> bool {
    exists|k: int| 0 <= k < os.len() && os[k].owner == p
}

/// The position of this principal's reverse-index entry.
pub open spec fn owner_index(os: Seq<OwnerBadgesV>, p: Principal) -> int {
    choose|k: int| 0 <= k < os.len() && os[k].owner == p
}

/// Does this id list contain this id?
pub open spec fn list_has(ids: Seq<Seq<u8>>, id: Seq<u8>) -> bool {
    exists|j: int| 0 <= j < ids.len() && ids[j] == id
}

/// The position of this id in the list.
pub open spec fn id_pos(ids: Seq<Seq<u8>>, id: Seq<u8>) -> int {
    choose|j: int| 0 <= j < ids.len() && ids[j] == id
}

/// The badge at this position is listed in its owner's reverse-index entry.
pub open spec fn badge_listed(badges: Seq<BadgeV>, owners: Seq<OwnerBadgesV>, i: int) -> bool {
    exists|k: int|
        0 <= k < owners.len() && owners[k].owner == badges[i].owner && list_has(
            owners[k].badge_ids,
            badges[i].id,
        )
}

/// The id at position `j` of entry `k` names an existing badge held by that
/// entry's principal.
pub open spec fn entry_item_valid(badges: Seq<BadgeV>, owners: Seq<OwnerBadgesV>, k: int, j: int) -> bool {
    exists|b: int|
        0 <= b < badges.len() && badges[b].id == owners[k].badge_ids[j] && badges[b].owner
            == owners[k].owner
}

/// Well-formedness of the badge ledger: unique badge ids, unique reverse-index
/// keys, agreement in both directions between the badge map and the reverse
/// index, no duplicate ids within an entry, no empty entries, and the badge
/// counter bounded by the number of badges.
pub open spec fn wf_nft(s: NftV) -> bool {
    &&& forall|i: int, j: int| 0 <= i < j < s.badges.len() ==> s.badges[i].id != s.badges[j].id
    &&& forall|i: int, j: int|
        0 <= i < j < s.owners.len() ==> s.owners[i].owner != s.owners[j].owner
    &&& forall|i: int| 0 <= i < s.badges.len() ==> #[trigger] badge_listed(s.badges, s.owners, i)
    &&& forall|k: int, j: int|
        0 <= k < s.owners.len() && 0 <= j < s.owners[k].badge_ids.len()
            ==> #[trigger] entry_item_valid(s.badges, s.owners, k, j)
    &&& forall|k: int, j1: int, j2: int|
        0 <= k < s.owners.len() && 0 <= j1 < j2 < s.owners[k].badge_ids.len()
            ==> s.owners[k].badge_ids[j1] != s.owners[k].badge_ids[j2]
    &&& forall|k: int| 0 <= k < s.owners.len() ==> #[trigger] s.owners[k].badge_ids.len() > 0
    &&& 0 <= s.badge_count <= s.badges.len()
}

/// A badge id held by a well-formed ledger names exactly one position.
pub proof fn lemma_badge_index_unique(bs: Seq<BadgeV>, id: Seq<u8>, i: int)
    requires
        forall|a: int, b: int| 0 <= a < b < bs.len() ==> bs[a].id != bs[b].id,
        0 <= i < bs.len(),
        bs[i].id == id,
    ensures
        has_badge(bs, id),
        badge_index(bs, id) == i,
{
    assert(has_badge(bs, id));
    let j = badge_index(bs, id);
    if j < i {
        assert(bs[j].id != bs[i].id);
    } else if j > i {
        assert(bs[i].id != bs[j].id);
    }
}

/// A principal with an entry in a well-formed index has exactly one.
pub proof fn lemma_owner_index_unique(os: Seq<OwnerBadgesV>, p: Principal, k: int)
    requires
        forall|a: int, b: int| 0 <= a < b < os.len() ==> os[a].owner != os[b].owner,
        0 <= k < os.len(),
        os[k].owner == p,
    ensures
        has_owner(os, p),
        owner_index(os, p) == k,
{
    assert(has_owner(os, p));
    let j = owner_index(os, p);
    if j < k {
        assert(os[j].owner != os[k].owner);
    } else if j > k {
        assert(os[k].owner != os[j].owner);
    }
}

/// In a duplicate-free list an id sits at exactly one position.
pub proof fn lemma_id_pos_unique(ids: Seq<Seq<u8>>, id: Seq<u8>, j: int)
    requires
        forall|a: int, b: int| 0 <= a < b < ids.len() ==> ids[a] != ids[b],
        0 <= j < ids.len(),
        ids[j] == id,
    ensures
        list_has(ids, id),
        id_pos(ids, id) == j,
{
    assert(list_has(ids, id));
    let j2 = id_pos(ids, id);
    if j2 < j {
        assert(ids[j2] != ids[j]);
    } else if j2 > j {
        assert(ids[j] != ids[j2]);
    }
}

/// The state and result of `mint_badge`: rejected for an id already minted;
/// otherwise the badge is inserted with the recipient as owner, the id is
/// appended to the recipient's reverse-index entry (created if absent), and
/// the badge counter ticks once.
pub open spec fn mint_step(
    s: NftV,
    to: Principal,
    badge_id: Seq<u8>,
    quest_id: Seq<u8>,
    metadata: Seq<u8>,
    now: u64,
) -> (NftV, Result<(), LedgerError>) {
    if has_badge(s.badges, badge_id) {
        (s, Err(LedgerError::AlreadyMinted))
    } else {
        let b = BadgeV { id: badge_id, quest_id, owner: to, minted_at: now, metadata };
        let owners2 = if has_owner(s.owners, to) {
            let k = owner_index(s.owners, to);
            s.owners.update(
                k,
                OwnerBadgesV { owner: to, badge_ids: s.owners[k].badge_ids.push(badge_id) },
            )
        } else {
            s.owners.push(OwnerBadgesV { owner: to, badge_ids: seq![badge_id] })
        };
        (
            NftV {
                badges: s.badges.push(b),
                owners: owners2,
                badge_count: s.badge_count + 1,
                ..s
            },
            Ok(()),
        )
    }
}

/// Minting preserves well-formedness, whatever its outcome.
pub proof fn lemma_mint_preserves_wf(
    s: NftV,
    to: Principal,
    badge_id: Seq<u8>,
    quest_id: Seq<u8>,
    metadata: Seq<u8>,
    now: u64,
)
    requires
        wf_nft(s),
    ensures
        wf_nft(mint_step(s, to, badge_id, quest_id, metadata, now).0),
{
    if !has_badge(s.badges, badge_id) {
        let s2 = mint_step(s, to, badge_id, quest_id, metadata, now).0;
        let n = s.badges.len() as int;
        assert forall|i: int, j: int| 0 <= i < j < s2.badges.len() implies s2.badges[i].id
            != s2.badges[j].id by {
            if j == n {
                assert(s2.badges[i] == s.badges[i]);
                if s.badges[i].id == badge_id {
                    assert(has_badge(s.badges, badge_id));
                }
            }
        }
        if has_owner(s.owners, to) {
            let k = owner_index(s.owners, to);
            assert(0 <= k < s.owners.len() && s.owners[k].owner == to);
            assert forall|i: int| 0 <= i < s2.badges.len() implies #[trigger] badge_listed(
                s2.badges, s2.owners, i,
            ) by {
                if i < n {
                    assert(badge_listed(s.badges, s.owners, i));
                    let w = choose|w: int|
                        0 <= w < s.owners.len() && s.owners[w].owner == s.badges[i].owner
                            && list_has(s.owners[w].badge_ids, s.badges[i].id);
                    let j = id_pos(s.owners[w].badge_ids, s.badges[i].id);
                    assert(0 <= j < s.owners[w].badge_ids.len() && s.owners[w].badge_ids[j]
                        == s.badges[i].id);
                    assert(s2.owners[w].badge_ids[j] == s.badges[i].id);
                    assert(list_has(s2.owners[w].badge_ids, s2.badges[i].id));
                } else {
                    let newlen = s.owners[k].badge_ids.len() as int;
                    assert(s2.owners[k].badge_ids[newlen] == badge_id);
                    assert(list_has(s2.owners[k].badge_ids, s2.badges[i].id));
                }
            }
            assert forall|k2: int, j: int|
                0 <= k2 < s2.owners.len() && 0 <= j < s2.owners[k2].badge_ids.len() implies
                #[trigger] entry_item_valid(s2.badges, s2.owners, k2, j) by {
                if k2 == k && j == s.owners[k].badge_ids.len() {
                    assert(s2.badges[n].id == badge_id);
                    assert(s2.owners[k2].badge_ids[j] == badge_id);
                } else {
                    assert(entry_item_valid(s.badges, s.owners, k2, j));
                    let b = choose|b: int|
                        0 <= b < s.badges.len() && s.badges[b].id == s.owners[k2].badge_ids[j]
                            && s.badges[b].owner == s.owners[k2].owner;
                    assert(s2.badges[b] == s.badges[b]);
                    assert(s2.owners[k2].badge_ids[j] == s.owners[k2].badge_ids[j]);
                    assert(s2.owners[k2].owner == s.owners[k2].owner);
                }
            }
            assert forall|k2: int, j1: int, j2: int|
                0 <= k2 < s2.owners.len() && 0 <= j1 < j2 < s2.owners[k2].badge_ids.len() implies
                s2.owners[k2].badge_ids[j1] != s2.owners[k2].badge_ids[j2] by {
                if k2 == k && j2 == s.owners[k].badge_ids.len() {
                    assert(s2.owners[k2].badge_ids[j1] == s.owners[k].badge_ids[j1]);
                    assert(entry_item_valid(s.badges, s.owners, k, j1));
                    if s.owners[k].badge_ids[j1] == badge_id {
                        let b = choose|b: int|
                            0 <= b < s.badges.len() && s.badges[b].id == s.owners[k].badge_ids[j1]
                                && s.badges[b].owner == s.owners[k].owner;
                        assert(has_badge(s.badges, badge_id));
                    }
                }
            }
        } else {
            let m = s.owners.len() as int;
            assert forall|i: int, j: int| 0 <= i < j < s2.owners.len() implies s2.owners[i].owner
                != s2.owners[j].owner by {
                if j == m {
                    assert(s2.owners[i] == s.owners[i]);
                    if s.owners[i].owner == to {
                        assert(has_owner(s.owners, to));
                    }
                }
            }
            assert forall|i: int| 0 <= i < s2.badges.len() implies #[trigger] badge_listed(
                s2.badges, s2.owners, i,
            ) by {
                if i < n {
                    assert(badge_listed(s.badges, s.owners, i));
                    let w = choose|w: int|
                        0 <= w < s.owners.len() && s.owners[w].owner == s.badges[i].owner
                            && list_has(s.owners[w].badge_ids, s.badges[i].id);
                    let j = id_pos(s.owners[w].badge_ids, s.badges[i].id);
                    assert(0 <= j < s.owners[w].badge_ids.len() && s.owners[w].badge_ids[j]
                        == s.badges[i].id);
                    assert(s2.owners[w].badge_ids[j] == s.badges[i].id);
                    assert(list_has(s2.owners[w].badge_ids, s2.badges[i].id));
                } else {
                    assert(s2.owners[m].owner == to);
                    assert(s2.owners[m].badge_ids[0] == badge_id);
                    assert(list_has(s2.owners[m].badge_ids, s2.badges[i].id));
                }
            }
            assert forall|k2: int, j: int|
                0 <= k2 < s2.owners.len() && 0 <= j < s2.owners[k2].badge_ids.len() implies
                #[trigger] entry_item_valid(s2.badges, s2.owners, k2, j) by {
                if k2 == m {
                    assert(s2.badges[n].id == badge_id);
                    assert(s2.owners[k2].badge_ids[j] == badge_id);
                } else {
                    assert(entry_item_valid(s.badges, s.owners, k2, j));
                    let b = choose|b: int|
                        0 <= b < s.badges.len() && s.badges[b].id == s.owners[k2].badge_ids[j]
                            && s.badges[b].owner == s.owners[k2].owner;
                    assert(s2.badges[b] == s.badges[b]);
                    assert(s2.owners[k2].badge_ids[j] == s.owners[k2].badge_ids[j]);
                }
            }
        }
    }
}

/// The state and result of `transfer_badge`: rejected for an unknown badge
/// id, rejected with `Unauthorized` when `from` is not the badge's owner, and
/// otherwise the badge's owner field is rewritten to `to`, the id is removed
/// from `from`'s reverse-index entry (the entry itself is deleted when it
/// becomes empty), and the id is appended to `to`'s entry (created if
/// absent), all in one step.
pub open spec fn transfer_step(
    s: NftV,
    from: Principal,
    to: Principal,
    badge_id: Seq<u8>,
) -> (NftV, Result<(), LedgerError>) {
    if !has_badge(s.badges, badge_id) {
        (s, Err(LedgerError::NotFound))
    } else {
        let bi = badge_index(s.badges, badge_id);
        let b = s.badges[bi];
        if b.owner != from {
            (s, Err(LedgerError::Unauthorized))
        } else {
            let badges2 = s.badges.update(bi, BadgeV { owner: to, ..b });
            let fk = owner_index(s.owners, from);
            let flist2 = s.owners[fk].badge_ids.remove(
                id_pos(s.owners[fk].badge_ids, badge_id),
            );
            let owners1 = if flist2.len() == 0 {
                s.owners.remove(fk)
            } else {
                s.owners.update(fk, OwnerBadgesV { owner: from, badge_ids: flist2 })
            };
            let owners2 = if has_owner(owners1, to) {
                let tk = owner_index(owners1, to);
                owners1.update(
                    tk,
                    OwnerBadgesV { owner: to, badge_ids: owners1[tk].badge_ids.push(badge_id) },
                )
            } else {
                owners1.push(OwnerBadgesV { owner: to, badge_ids: seq![badge_id] })
            };
            (NftV { badges: badges2, owners: owners2, ..s }, Ok(()))
        }
    }
}

/// Transfer preserves well-formedness, whatever its outcome.
pub proof fn lemma_transfer_preserves_wf(s: NftV, from: Principal, to: Principal, badge_id: Seq<u8>)
    requires
        wf_nft(s),
    ensures
        wf_nft(transfer_step(s, from, to, badge_id).0),
{
    if !has_badge(s.badges, badge_id) {
        return;
    }
    let bi = badge_index(s.badges, badge_id);
    assert(0 <= bi < s.badges.len() && s.badges[bi].id == badge_id);
    let b = s.badges[bi];
    if b.owner != from {
        return;
    }
    let s2 = transfer_step(s, from, to, badge_id).0;
    let badges2 = s2.badges;
    assert forall|i: int| 0 <= i < badges2.len() implies #[trigger] badges2[i].id
        == s.badges[i].id && badges2[i].owner == (if i == bi {
        to
    } else {
        s.badges[i].owner
    }) by {}
    // The entry of `from`, and the position of the id in it.
    assert(badge_listed(s.badges, s.owners, bi));
    let fk0 = choose|k: int|
        0 <= k < s.owners.len() && s.owners[k].owner == b.owner && list_has(
            s.owners[k].badge_ids,
            b.id,
        );
    lemma_owner_index_unique(s.owners, from, fk0);
    let fk = owner_index(s.owners, from);
    let flist = s.owners[fk].badge_ids;
    assert forall|a: int, c: int| 0 <= a < c < flist.len() implies flist[a] != flist[c] by {
        assert(s.owners[fk].badge_ids[a] != s.owners[fk].badge_ids[c]);
    }
    assert(list_has(flist, badge_id));
    let p0 = choose|j: int| 0 <= j < flist.len() && flist[j] == badge_id;
    lemma_id_pos_unique(flist, badge_id, p0);
    let p = id_pos(flist, badge_id);
    flist.remove_ensures(p);
    let flist2 = flist.remove(p);
    assert forall|j: int| 0 <= j < flist2.len() implies flist2[j] != badge_id && list_has(
        flist, #[trigger] flist2[j],
    ) by {
        if j < p {
            assert(flist2[j] == flist[j]);
        } else {
            assert(flist2[j] == flist[j + 1]);
        }
    }
    assert forall|a: int, c: int| 0 <= a < c < flist2.len() implies flist2[a] != flist2[c] by {
        if c < p {
        } else if a < p {
            assert(flist2[a] == flist[a] && flist2[c] == flist[c + 1]);
        } else {
            assert(flist2[a] == flist[a + 1] && flist2[c] == flist[c + 1]);
        }
    }
    assert forall|z: Seq<u8>| list_has(flist, z) && z != badge_id implies list_has(
        flist2, z,
    ) by {
        let j = choose|j: int| 0 <= j < flist.len() && flist[j] == z;
        if j < p {
            assert(flist2[j] == z);
        } else {
            assert(j > p);
            assert(flist2[j - 1] == flist[j]);
        }
    }
    // The index after the removal from `from`'s entry.
    let owners1 = if flist2.len() == 0 {
        s.owners.remove(fk)
    } else {
        s.owners.update(fk, OwnerBadgesV { owner: from, badge_ids: flist2 })
    };
    if flist2.len() == 0 {
        s.owners.remove_ensures(fk);
    }
    // Every entry of owners1 is an entry of s.owners, with `from`'s list
    // shrunk; keys stay distinct.
    assert forall|k: int| 0 <= k < owners1.len() implies exists|k0: int|
        0 <= k0 < s.owners.len() && #[trigger] owners1[k].owner == s.owners[k0].owner && (
        owners1[k].badge_ids == s.owners[k0].badge_ids || (k0 == fk && owners1[k].badge_ids
            == flist2)) by {
        if flist2.len() == 0 {
            if k < fk {
                assert(owners1[k] == s.owners[k]);
            } else {
                assert(owners1[k] == s.owners[k + 1]);
            }
        } else {
            if k != fk {
                assert(owners1[k] == s.owners[k]);
            } else {
                assert(owners1[k].owner == s.owners[fk].owner);
            }
        }
    }
    assert forall|a: int, c: int| 0 <= a < c < owners1.len() implies owners1[a].owner
        != owners1[c].owner by {
        if flist2.len() == 0 {
            if a < fk && c < fk {
                assert(owners1[a] == s.owners[a] && owners1[c] == s.owners[c]);
            } else if a < fk {
                assert(owners1[a] == s.owners[a] && owners1[c] == s.owners[c + 1]);
            } else {
                assert(owners1[a] == s.owners[a + 1] && owners1[c] == s.owners[c + 1]);
            }
        }
    }
    // No entry of owners1 lists the transferred id.
    assert forall|k: int, j: int|
        0 <= k < owners1.len() && 0 <= j < owners1[k].badge_ids.len() implies #[trigger]
    owners1[k].badge_ids[j] != badge_id by {
        let k0 = choose|k0: int|
            0 <= k0 < s.owners.len() && owners1[k].owner == s.owners[k0].owner && (
            owners1[k].badge_ids == s.owners[k0].badge_ids || (k0 == fk && owners1[k].badge_ids
                == flist2));
        if owners1[k].badge_ids == flist2 && k0 == fk {
        } else {
            if owners1[k].badge_ids[j] == badge_id {
                assert(entry_item_valid(s.badges, s.owners, k0, j));
                let w = choose|w: int|
                    0 <= w < s.badges.len() && s.badges[w].id == s.owners[k0].badge_ids[j]
                        && s.badges[w].owner == s.owners[k0].owner;
                lemma_badge_index_unique(s.badges, badge_id, w);
                assert(w == bi);
                assert(s.owners[k0].owner == from);
                lemma_owner_index_unique(s.owners, from, k0);
            }
        }
    }
    let owners2 = s2.owners;
    // Keys of owners2 stay distinct.
    assert forall|a: int, c: int| 0 <= a < c < owners2.len() implies owners2[a].owner
        != owners2[c].owner by {
        if !has_owner(owners1, to) {
            if c == owners1.len() {
                assert(owners2[a].owner == owners1[a].owner);
                if owners1[a].owner == to {
                    assert(has_owner(owners1, to));
                }
            }
        }
    }
    // Entry lists of owners2: each either an owners1 list, or one with the
    // transferred id appended, or the fresh singleton.
    let tk = owner_index(owners1, to);
    if has_owner(owners1, to) {
        assert(0 <= tk < owners1.len() && owners1[tk].owner == to);
    }
    // Clause: every badge is listed under its owner.
    assert forall|i: int| 0 <= i < badges2.len() implies #[trigger] badge_listed(
        badges2, owners2, i,
    ) by {
        if i == bi {
            if has_owner(owners1, to) {
                let l = owners1[tk].badge_ids.len() as int;
                assert(owners2[tk].owner == to);
                assert(owners2[tk].badge_ids[l] == badge_id);
                assert(list_has(owners2[tk].badge_ids, badges2[i].id));
            } else {
                let m = owners1.len() as int;
                assert(owners2[m].owner == to);
                assert(owners2[m].badge_ids[0] == badge_id);
                assert(list_has(owners2[m].badge_ids, badges2[i].id));
            }
        } else {
            let x = s.badges[i];
            assert(x.id != badge_id);
            assert(badge_listed(s.badges, s.owners, i));
            let k0 = choose|k: int|
                0 <= k < s.owners.len() && s.owners[k].owner == x.owner && list_has(
                    s.owners[k].badge_ids,
                    x.id,
                );
            // locate the surviving entry in owners1
            let k1: int = if x.owner == from {
                lemma_owner_index_unique(s.owners, from, k0);
                assert(k0 == fk);
                assert(list_has(flist, x.id));
                assert(list_has(flist2, x.id));
                let j2 = choose|j: int| 0 <= j < flist2.len() && flist2[j] == x.id;
                assert(flist2.len() > 0);
                fk
            } else {
                if flist2.len() == 0 {
                    if k0 < fk {
                        assert(owners1[k0] == s.owners[k0]);
                        k0
                    } else {
                        assert(k0 != fk);
                        assert(owners1[k0 - 1] == s.owners[k0]);
                        k0 - 1
                    }
                } else {
                    assert(k0 != fk);
                    assert(owners1[k0] == s.owners[k0]);
                    k0
                }
            };
            assert(0 <= k1 < owners1.len() && owners1[k1].owner == x.owner && list_has(
                owners1[k1].badge_ids,
                x.id,
            ));
            if has_owner(owners1, to) && k1 == tk {
                let j = choose|j: int|
                    0 <= j < owners1[k1].badge_ids.len() && owners1[k1].badge_ids[j] == x.id;
                assert(owners2[tk].badge_ids[j] == x.id);
                assert(list_has(owners2[tk].badge_ids, badges2[i].id));
            } else {
                assert(owners2[k1] == owners1[k1]);
                assert(list_has(owners2[k1].badge_ids, badges2[i].id));
            }
        }
    }
    // Clause: every listed id names an existing badge of the entry's owner.
    assert forall|k: int, j: int|
        0 <= k < owners2.len() && 0 <= j < owners2[k].badge_ids.len() implies #[trigger]
    entry_item_valid(badges2, owners2, k, j) by {
        let z = owners2[k].badge_ids[j];
        let is_new_id = if has_owner(owners1, to) {
            k == tk && j == owners1[tk].badge_ids.len()
        } else {
            k == owners1.len() as int
        };
        if is_new_id {
            assert(z == badge_id);
            assert(badges2[bi].id == badge_id && badges2[bi].owner == to);
            assert(owners2[k].owner == to);
        } else {
            // the item comes from owners1
            assert(0 <= k < owners1.len() && j < owners1[k].badge_ids.len() && owners1[k].owner
                == owners2[k].owner && owners1[k].badge_ids[j] == z);
            assert(z != badge_id);
            let k0 = choose|k0: int|
                0 <= k0 < s.owners.len() && owners1[k].owner == s.owners[k0].owner && (
                owners1[k].badge_ids == s.owners[k0].badge_ids || (k0 == fk
                    && owners1[k].badge_ids == flist2));
            if owners1[k].badge_ids == flist2 && k0 == fk {
                assert(list_has(flist, z));
                let jf = choose|jf: int| 0 <= jf < flist.len() && flist[jf] == z;
                assert(entry_item_valid(s.badges, s.owners, fk, jf));
                let w = choose|w: int|
                    0 <= w < s.badges.len() && s.badges[w].id == s.owners[fk].badge_ids[jf]
                        && s.badges[w].owner == s.owners[fk].owner;
                assert(w != bi);
                assert(badges2[w].id == z && badges2[w].owner == s.owners[fk].owner);
                assert(owners2[k].owner == s.owners[fk].owner || owners2[k].owner == from);
            } else {
                assert(entry_item_valid(s.badges, s.owners, k0, j));
                let w = choose|w: int|
                    0 <= w < s.badges.len() && s.badges[w].id == s.owners[k0].badge_ids[j]
                        && s.badges[w].owner == s.owners[k0].owner;
                if w == bi {
                    assert(z == badge_id);
                }
                assert(badges2[w].id == z && badges2[w].owner == s.owners[k0].owner);
            }
        }
    }
    // Clause: no duplicates within an entry.
    assert forall|k: int, j1: int, j2: int|
        0 <= k < owners2.len() && 0 <= j1 < j2 < owners2[k].badge_ids.len() implies owners2[k]
        .badge_ids[j1] != owners2[k].badge_ids[j2] by {
        let is_push_entry = has_owner(owners1, to) && k == tk;
        if is_push_entry && j2 == owners1[tk].badge_ids.len() {
            assert(owners2[k].badge_ids[j1] == owners1[tk].badge_ids[j1]);
            assert(owners1[tk].badge_ids[j1] != badge_id);
        } else if !has_owner(owners1, to) && k == owners1.len() {
        } else {
            // both positions lie in an owners1 list
            assert(owners2[k].badge_ids[j1] == owners1[k].badge_ids[j1]);
            assert(owners2[k].badge_ids[j2] == owners1[k].badge_ids[j2]);
            let k0 = choose|k0: int|
                0 <= k0 < s.owners.len() && owners1[k].owner == s.owners[k0].owner && (
                owners1[k].badge_ids == s.owners[k0].badge_ids || (k0 == fk
                    && owners1[k].badge_ids == flist2));
            if owners1[k].badge_ids == flist2 && k0 == fk {
            } else {
                assert(s.owners[k0].badge_ids[j1] != s.owners[k0].badge_ids[j2]);
            }
        }
    }
    // Clause: no empty entries.
    assert forall|k: int| 0 <= k < owners2.len() implies #[trigger] owners2[k].badge_ids.len()
        > 0 by {
        if has_owner(owners1, to) && k == tk {
        } else if !has_owner(owners1, to) && k == owners1.len() {
        } else {
            let k0 = choose|k0: int|
                0 <= k0 < s.owners.len() && owners1[k].owner == s.owners[k0].owner && (
                owners1[k].badge_ids == s.owners[k0].badge_ids || (k0 == fk
                    && owners1[k].badge_ids == flist2));
            if owners1[k].badge_ids == flist2 && k0 == fk {
            } else {
                assert(s.owners[k0].badge_ids.len() > 0);
            }
        }
    }
}

/// A badge id can be minted only once.  After a successful mint of a badge id, any
/// later mint of the same id — to anyone, with any payload — is rejected
/// with `AlreadyMinted` and changes nothing; the badge counter has grown by
/// exactly one, not two.
pub proof fn lemma_mint_idempotency_rejection(
    s: NftV,
    to1: Principal,
    to2: Principal,
    badge_id: Seq<u8>,
    quest_id1: Seq<u8>,
    quest_id2: Seq<u8>,
    metadata1: Seq<u8>,
    metadata2: Seq<u8>,
    now1: u64,
    now2: u64,
)
    requires
        wf_nft(s),
        mint_step(s, to1, badge_id, quest_id1, metadata1, now1).1 == Ok::<(), LedgerError>(()),
    ensures
        ({
            let s1 = mint_step(s, to1, badge_id, quest_id1, metadata1, now1).0;
            &&& s1.badge_count == s.badge_count + 1
            &&& mint_step(s1, to2, badge_id, quest_id2, metadata2, now2) == (
                s1,
                Err::<(), LedgerError>(LedgerError::AlreadyMinted),
            )
        }),
{
    let s1 = mint_step(s, to1, badge_id, quest_id1, metadata1, now1).0;
    assert(s1.badges[s.badges.len() as int].id == badge_id);
    assert(has_badge(s1.badges, badge_id));
}

/// The badge map and the reverse index agree.  In a well-formed ledger — and
/// every operation returns a well-formed ledger — a badge id never appears
/// in two reverse-index entries: any two positions listing it belong to one
/// entry, whose key is the badge's `owner` field.
pub proof fn lemma_ownership_index_agree(s: NftV, k1: int, j1: int, k2: int, j2: int)
    requires
        wf_nft(s),
        0 <= k1 < s.owners.len(),
        0 <= j1 < s.owners[k1].badge_ids.len(),
        0 <= k2 < s.owners.len(),
        0 <= j2 < s.owners[k2].badge_ids.len(),
        s.owners[k1].badge_ids[j1] == s.owners[k2].badge_ids[j2],
    ensures
        k1 == k2,
        has_badge(s.badges, s.owners[k1].badge_ids[j1]),
        s.badges[badge_index(s.badges, s.owners[k1].badge_ids[j1])].owner == s.owners[k1].owner,
{
    let z = s.owners[k1].badge_ids[j1];
    assert(entry_item_valid(s.badges, s.owners, k1, j1));
    assert(entry_item_valid(s.badges, s.owners, k2, j2));
    let b1 = choose|b: int|
        0 <= b < s.badges.len() && s.badges[b].id == s.owners[k1].badge_ids[j1] && s.badges[b]
            .owner == s.owners[k1].owner;
    let b2 = choose|b: int|
        0 <= b < s.badges.len() && s.badges[b].id == s.owners[k2].badge_ids[j2] && s.badges[b]
            .owner == s.owners[k2].owner;
    lemma_badge_index_unique(s.badges, z, b1);
    lemma_badge_index_unique(s.badges, z, b2);
    assert(s.owners[k1].owner == s.owners[k2].owner);
    if k1 < k2 {
        assert(s.owners[k1].owner != s.owners[k2].owner);
    } else if k2 < k1 {
        assert(s.owners[k2].owner != s.owners[k1].owner);
    }
}

/// Only the owner can move a badge.  A transfer whose `from` argument — the identity
/// the host authenticated — is not the badge's current owner is rejected
/// with `Unauthorized` and changes nothing, whatever `from` was.
pub proof fn lemma_transfer_authorization(s: NftV, from: Principal, to: Principal, badge_id: Seq<u8>)
    requires
        wf_nft(s),
        has_badge(s.badges, badge_id),
        s.badges[badge_index(s.badges, badge_id)].owner != from,
    ensures
        transfer_step(s, from, to, badge_id) == (
            s,
            Err::<(), LedgerError>(LedgerError::Unauthorized),
        ),
{
}

/// First position in the badge map holding this id, if any.
fn find_badge(badges: &Vec<Badge>, id: &SymbolId) -> (r: Option<usize>)
    ensures
        match r {
            Some(i) => i < badges@.len() && badges@[i as int]@.id == id@,
            None => !has_badge(badges@.map_values(|b: Badge| b@), id@),
        },
{
    let n = badges.len();
    let mut i: usize = 0;
    while i < n
        invariant
            n == badges@.len(),
            0 <= i <= n,
            forall|j: int| 0 <= j < i ==> badges@[j]@.id != id@,
        decreases n - i,
    {
        if sym_eq(&badges[i].id, id) {
            return Some(i);
        }
        i = i + 1;
    }
    proof {
        let m = badges@.map_values(|b: Badge| b@);
        assert forall|j: int| 0 <= j < m.len() implies m[j].id != id@ by {
            assert(m[j] == badges@[j]@);
        }
    }
    None
}

/// First position in the reverse index keyed by this principal, if any.
fn find_owner(owners: &Vec<OwnerBadges>, p: &Principal) -> (r: Option<usize>)
    ensures
        match r {
            Some(k) => k < owners@.len() && owners@[k as int]@.owner == *p,
            None => !has_owner(owners@.map_values(|e: OwnerBadges| e@), *p),
        },
{
    let n = owners.len();
    let mut i: usize = 0;
    while i < n
        invariant
            n == owners@.len(),
            0 <= i <= n,
            forall|j: int| 0 <= j < i ==> owners@[j]@.owner != *p,
        decreases n - i,
    {
        if owners[i].owner == *p {
            return Some(i);
        }
        i = i + 1;
    }
    proof {
        let m = owners@.map_values(|e: OwnerBadges| e@);
        assert forall|j: int| 0 <= j < m.len() implies m[j].owner != *p by {
            assert(m[j] == owners@[j]@);
        }
    }
    None
}

/// First position of this id in an id list, if any.
fn find_in_list(ids: &Vec<SymbolId>, id: &SymbolId) -> (r: Option<usize>)
    ensures
        match r {
            Some(j) => j < ids@.len() && ids@[j as int]@ == id@,
            None => !list_has(ids@.map_values(|s: SymbolId| s@), id@),
        },
{
    let n = ids.len();
    let mut i: usize = 0;
    while i < n
        invariant
            n == ids@.len(),
            0 <= i <= n,
            forall|j: int| 0 <= j < i ==> ids@[j]@ != id@,
        decreases n - i,
    {
        if sym_eq(&ids[i], id) {
            return Some(i);
        }
        i = i + 1;
    }
    proof {
        let m = ids@.map_values(|s: SymbolId| s@);
        assert forall|j: int| 0 <= j < m.len() implies m[j] != id@ by {
            assert(m[j] == ids@[j]@);
        }
    }
    None
}

/// A fresh badge value with the same mathematical image.
fn copy_badge(b: &Badge) -> (r: Badge)
    ensures
        r@ == b@,
{
    let r = Badge {
        id: copy_symbol(&b.id),
        quest_id: copy_symbol(&b.quest_id),
        owner: b.owner,
        minted_at: b.minted_at,
        metadata: copy_bytes(&b.metadata),
    };
    proof {
        assert(r@ =~= b@);
    }
    r
}

impl BadgeNFT {
    /// An empty, unconfigured badge ledger.
    pub fn new() -> (s: BadgeNFT)
        ensures
            s@ == (NftV {
                admin: None,
                quest_platform: None,
                initialized: false,
                badge_count: 0,
                badges: Seq::<BadgeV>::empty(),
                owners: Seq::<OwnerBadgesV>::empty(),
            }),
            wf_nft(s@),
    {
        let s = BadgeNFT {
            admin: None,
            quest_platform: None,
            initialized: false,
            badge_count: 0,
            badges: Vec::new(),
            owners: Vec::new(),
        };
        proof {
            assert(s@.badges =~= Seq::<BadgeV>::empty());
            assert(s@.owners =~= Seq::<OwnerBadgesV>::empty());
        }
        s
    }

    /// Configure the badge ledger: the admin principal and the quest-platform
    /// account expected to drive minting.  Re-initialization silently
    /// overwrites the configuration and resets the badge counter; the badge
    /// map and the reverse index are kept.
    pub fn initialize(&mut self, admin: Principal, quest_platform: Principal)
        requires
            wf_nft(old(self)@),
        ensures
            final(self)@ == (NftV {
                admin: Some(admin),
                quest_platform: Some(quest_platform),
                initialized: true,
                badge_count: 0,
                ..old(self)@
            }),
            wf_nft(final(self)@),
    {
        self.admin = Some(admin);
        self.quest_platform = Some(quest_platform);
        self.initialized = true;
        self.badge_count = 0;
        proof {
            assert(self@ =~= (NftV {
                admin: Some(admin),
                quest_platform: Some(quest_platform),
                initialized: true,
                badge_count: 0,
                ..old(self)@
            }));
        }
    }

    /// Mint a badge to a user.  Fails with `AlreadyMinted` for a badge id
    /// already present; otherwise inserts the badge, appends the id to the
    /// recipient's reverse-index entry, and ticks the badge counter.  The
    /// ledger itself enforces no caller identity here: the host is trusted
    /// to let only the quest-platform account invoke it.
    pub fn mint_badge(
        &mut self,
        to: Principal,
        badge_id: SymbolId,
        quest_id: SymbolId,
        metadata: Vec<u8>,
        now: u64,
    ) -> (r: Result<(), LedgerError>)
        requires
            wf_nft(old(self)@),
        ensures
            final(self)@ == mint_step(old(self)@, to, badge_id@, quest_id@, metadata@, now).0,
            r == mint_step(old(self)@, to, badge_id@, quest_id@, metadata@, now).1,
            wf_nft(final(self)@),
    {
        let ghost s0 = self@;
        if let Some(i) = find_badge(&self.badges, &badge_id) {
            proof {
                assert(s0.badges[i as int] == self.badges@[i as int]@);
                assert(has_badge(s0.badges, badge_id@));
            }
            return Err(LedgerError::AlreadyMinted);
        }
        let n = self.badges.len();
        proof {
            assert(s0.badge_count <= n <= usize::MAX);
            assert(s0.badge_count + 1 <= i128::MAX);
        }
        let list_id = copy_symbol(&badge_id);
        let badge = Badge { id: badge_id, quest_id, owner: to, minted_at: now, metadata };
        let ghost bv = badge@;
        self.badges.push(badge);
        match find_owner(&self.owners, &to) {
            Some(k) => {
                proof {
                    assert(s0.owners[k as int] == self.owners@[k as int]@);
                    lemma_owner_index_unique(s0.owners, to, k as int);
                }
                let entry = &mut self.owners[k];
                entry.badge_ids.push(list_id);
                proof {
                    assert(self@.owners =~~= s0.owners.update(
                        k as int,
                        OwnerBadgesV {
                            owner: to,
                            badge_ids: s0.owners[k as int].badge_ids.push(bv.id),
                        },
                    ));
                }
            },
            None => {
                let mut ids: Vec<SymbolId> = Vec::new();
                ids.push(list_id);
                let ghost entry_v = OwnerBadgesV { owner: to, badge_ids: seq![bv.id] };
                let entry = OwnerBadges { owner: to, badge_ids: ids };
                proof {
                    assert(entry@ =~~= entry_v);
                }
                self.owners.push(entry);
                proof {
                    assert(self@.owners =~~= s0.owners.push(entry_v));
                }
            },
        }
        self.badge_count = self.badge_count + 1;
        proof {
            assert(self@.badges =~= s0.badges.push(bv));
            assert(self@ =~~= mint_step(s0, to, bv.id, bv.quest_id, bv.metadata, now).0);
            lemma_mint_preserves_wf(s0, to, bv.id, bv.quest_id, bv.metadata, now);
        }
        Ok(())
    }

    /// Transfer a badge.  The `from` principal must have proved
    /// authorization to the host before this is called; the ledger rejects
    /// the transfer with `Unauthorized` whenever `from` is not the badge's
    /// current owner, whatever value was passed for it.  On success the
    /// badge's owner and both reverse-index entries change together: the id
    /// leaves `from`'s entry (which is deleted if it becomes empty) and is
    /// appended to `to`'s entry (which is created if absent).
    pub fn transfer_badge(&mut self, from: Principal, to: Principal, badge_id: &SymbolId) -> (r:
        Result<(), LedgerError>)
        requires
            wf_nft(old(self)@),
        ensures
            final(self)@ == transfer_step(old(self)@, from, to, badge_id@).0,
            r == transfer_step(old(self)@, from, to, badge_id@).1,
            wf_nft(final(self)@),
    {
        let ghost s0 = self@;
        let bi = match find_badge(&self.badges, badge_id) {
            Some(i) => i,
            None => {
                return Err(LedgerError::NotFound);
            },
        };
        proof {
            assert(s0.badges[bi as int] == self.badges@[bi as int]@);
            lemma_badge_index_unique(s0.badges, badge_id@, bi as int);
        }
        if self.badges[bi].owner != from {
            return Err(LedgerError::Unauthorized);
        }
        let ghost bv = s0.badges[bi as int];
        let bref = &mut self.badges[bi];
        bref.owner = to;
        proof {
            assert(self@.badges =~~= s0.badges.update(bi as int, BadgeV { owner: to, ..bv }));
            assert(self@.owners == s0.owners);
        }
        let fk = match find_owner(&self.owners, &from) {
            Some(k) => k,
            None => {
                proof {
                    assert(badge_listed(s0.badges, s0.owners, bi as int));
                    let k0 = choose|k: int|
                        0 <= k < s0.owners.len() && s0.owners[k].owner == s0.badges[bi as int]
                            .owner && list_has(s0.owners[k].badge_ids, s0.badges[bi as int].id);
                    assert(false);
                }
                return Err(LedgerError::NotFound);
            },
        };
        proof {
            assert(s0.owners[fk as int] == self.owners@[fk as int]@);
            lemma_owner_index_unique(s0.owners, from, fk as int);
        }
        let ghost flist = s0.owners[fk as int].badge_ids;
        let p = match find_in_list(&self.owners[fk].badge_ids, badge_id) {
            Some(j) => j,
            None => {
                proof {
                    assert(badge_listed(s0.badges, s0.owners, bi as int));
                    let k0 = choose|k: int|
                        0 <= k < s0.owners.len() && s0.owners[k].owner == s0.badges[bi as int]
                            .owner && list_has(s0.owners[k].badge_ids, s0.badges[bi as int].id);
                    lemma_owner_index_unique(s0.owners, from, k0);
                    assert(k0 == fk as int);
                    assert(list_has(flist, badge_id@));
                    let j0 = choose|j: int| 0 <= j < flist.len() && flist[j] == badge_id@;
                    assert(self.owners@[fk as int]@.badge_ids[j0] == badge_id@);
                    assert(false);
                }
                return Err(LedgerError::NotFound);
            },
        };
        proof {
            assert forall|a: int, c: int| 0 <= a < c < flist.len() implies flist[a]
                != flist[c] by {
                assert(s0.owners[fk as int].badge_ids[a] != s0.owners[fk as int].badge_ids[c]);
            }
            assert(self.owners@[fk as int]@.badge_ids[p as int] == badge_id@);
            lemma_id_pos_unique(flist, badge_id@, p as int);
        }
        let ghost flist2 = flist.remove(p as int);
        let entry = &mut self.owners[fk];
        let ghost evec = entry.badge_ids@;
        let _removed = entry.badge_ids.remove(p);
        let flen = entry.badge_ids.len();
        proof {
            flist.remove_ensures(p as int);
            evec.remove_ensures(p as int);
            assert(entry.badge_ids@.map_values(|s: SymbolId| s@) =~= flist2);
        }
        if flen == 0 {
            let _gone = self.owners.remove(fk);
            proof {
                s0.owners.remove_ensures(fk as int);
                assert(self@.owners =~~= s0.owners.remove(fk as int));
            }
        } else {
            proof {
                assert(self@.owners =~~= s0.owners.update(
                    fk as int, OwnerBadgesV { owner: from, badge_ids: flist2 },
                ));
            }
        }
        let ghost o1 = self@.owners;
        proof {
            assert forall|a: int, c: int| 0 <= a < c < o1.len() implies o1[a].owner
                != o1[c].owner by {
                if flist2.len() == 0 {
                    if a < fk as int && c < fk as int {
                        assert(o1[a] == s0.owners[a] && o1[c] == s0.owners[c]);
                    } else if a < fk as int {
                        assert(o1[a] == s0.owners[a] && o1[c] == s0.owners[c + 1]);
                    } else {
                        assert(o1[a] == s0.owners[a + 1] && o1[c] == s0.owners[c + 1]);
                    }
                }
            }
        }
        match find_owner(&self.owners, &to) {
            Some(tk) => {
                proof {
                    assert(o1[tk as int] == self.owners@[tk as int]@);
                    lemma_owner_index_unique(o1, to, tk as int);
                }
                let entry2 = &mut self.owners[tk];
                entry2.badge_ids.push(copy_symbol(badge_id));
                proof {
                    assert(entry2.badge_ids@.map_values(|s: SymbolId| s@) =~= o1[tk as int]
                        .badge_ids.push(badge_id@));
                    assert(self@.owners =~~= o1.update(
                        tk as int,
                        OwnerBadgesV {
                            owner: to,
                            badge_ids: o1[tk as int].badge_ids.push(badge_id@),
                        },
                    ));
                }
            },
            None => {
                let mut ids: Vec<SymbolId> = Vec::new();
                ids.push(copy_symbol(badge_id));
                let nentry = OwnerBadges { owner: to, badge_ids: ids };
                proof {
                    assert(nentry@ =~~= (OwnerBadgesV { owner: to, badge_ids: seq![badge_id@] }));
                }
                self.owners.push(nentry);
                proof {
                    assert(self@.owners =~~= o1.push(
                        OwnerBadgesV { owner: to, badge_ids: seq![badge_id@] },
                    ));
                }
            },
        }
        proof {
            assert(self@ =~~= transfer_step(s0, from, to, badge_id@).0);
            lemma_transfer_preserves_wf(s0, from, to, badge_id@);
        }
        Ok(())
    }

    /// The badge with this id, if any.
    pub fn get_badge(&self, badge_id: &SymbolId) -> (r: Option<Badge>)
        requires
            wf_nft(self@),
        ensures
            match r {
                Some(b) => has_badge(self@.badges, badge_id@) && b@ == self@.badges[badge_index(
                    self@.badges, badge_id@,
                )],
                None => !has_badge(self@.badges, badge_id@),
            },
    {
        match find_badge(&self.badges, badge_id) {
            Some(i) => {
                proof {
                    assert(self@.badges[i as int] == self.badges@[i as int]@);
                    lemma_badge_index_unique(self@.badges, badge_id@, i as int);
                }
                Some(copy_badge(&self.badges[i]))
            },
            None => None,
        }
    }

    /// The owner of the badge with this id, if any.
    pub fn owner_of(&self, badge_id: &SymbolId) -> (r: Option<Principal>)
        requires
            wf_nft(self@),
        ensures
            match r {
                Some(p) => has_badge(self@.badges, badge_id@) && p == self@.badges[badge_index(
                    self@.badges, badge_id@,
                )].owner,
                None => !has_badge(self@.badges, badge_id@),
            },
    {
        match find_badge(&self.badges, badge_id) {
            Some(i) => {
                proof {
                    assert(self@.badges[i as int] == self.badges@[i as int]@);
                    lemma_badge_index_unique(self@.badges, badge_id@, i as int);
                }
                Some(self.badges[i].owner)
            },
            None => None,
        }
    }

    /// The ids of the badges this principal holds, in mint/receive order;
    /// empty for a principal with no entry.
    pub fn get_user_badges(&self, owner: Principal) -> (r: Vec<SymbolId>)
        requires
            wf_nft(self@),
        ensures
            r@.map_values(|s: SymbolId| s@) == if has_owner(self@.owners, owner) {
                self@.owners[owner_index(self@.owners, owner)].badge_ids
            } else {
                Seq::<Seq<u8>>::empty()
            },
    {
        match find_owner(&self.owners, &owner) {
            Some(k) => {
                proof {
                    assert(self@.owners[k as int] == self.owners@[k as int]@);
                    lemma_owner_index_unique(self@.owners, owner, k as int);
                }
                let src_list = &self.owners[k].badge_ids;
                let mut r: Vec<SymbolId> = Vec::new();
                let n = src_list.len();
                let mut i: usize = 0;
                while i < n
                    invariant
                        n == src_list@.len(),
                        0 <= i <= n,
                        r@.map_values(|s: SymbolId| s@) =~= src_list@.map_values(
                            |s: SymbolId| s@,
                        ).subrange(0, i as int),
                    decreases n - i,
                {
                    let ghost r0 = r@;
                    r.push(copy_symbol(&src_list[i]));
                    proof {
                        assert(r@.map_values(|s: SymbolId| s@) =~= r0.map_values(
                            |s: SymbolId| s@,
                        ).push(src_list@[i as int]@));
                    }
                    i = i + 1;
                }
                proof {
                    assert(r@.map_values(|s: SymbolId| s@) =~= self@.owners[k as int].badge_ids);
                }
                r
            },
            None => {
                let r: Vec<SymbolId> = Vec::new();
                proof {
                    assert(r@.map_values(|s: SymbolId| s@) =~= Seq::<Seq<u8>>::empty());
                }
                r
            },
        }
    }

    /// How many badges were minted since the last initialization.
    pub fn total_badges(&self) -> (r: i128)
        ensures
            r as int == self@.badge_count,
    {
        self.badge_count
    }
}

} // verus!
