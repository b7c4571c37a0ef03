//! The registry state and its guarded transitions. Each public operation
//! models one call into the deployed collection: it validates the required
//! prior state, applies the transition, and reports a symbolic `Error`
//! otherwise, leaving the state untouched on failure. Proof of identity
//! (that the caller controls the acting address) is the host gate's
//! business and stays outside; the role rules themselves — owner, admin,
//! minter, approved spender — are all here.

use vstd::hash_map::HashMapWithView;
use vstd::prelude::*;

use crate::lifecycle::{
    extend_live_exec, extended_live, INSTANCE_BUMP_AMOUNT, INSTANCE_LIFETIME_THRESHOLD,
    PERSISTENT_BUMP_AMOUNT, PERSISTENT_LIFETIME_THRESHOLD,
};
use crate::types::{
    approvals_unique, grants_unique, valid_collection_info, Address, Approval, CollectionInfo,
    Error, Expiration, Ledger, OperatorGrant, TokenInfo,
};

verus! {

broadcast use vstd::std_specs::hash::group_hash_axioms;

/// The build-time version constant reported by `version`.
pub const VERSION: u32 = 1;

/// The whole state of one deployed collection, held as plain data: the
/// singleton collection record and its one-way flags, the items keyed by
/// numeric id, the two counters, the operator grants, and the retention
/// windows the store keeps per record.
pub struct NFTCollection {
    /// The singleton record; `None` until `initialize` succeeds.
    pub collection: Option<CollectionInfo>,
    /// One-way: set by `freeze_collection`, never cleared.
    pub frozen: bool,
    /// One-way: set at initialization, never cleared.
    pub minter_frozen: bool,
    /// The items, keyed by id. An item exists iff its key is present.
    pub items: HashMapWithView<u32, TokenInfo>,
    /// Retention window of each item record; same keys as `items`.
    pub item_live: HashMapWithView<u32, u32>,
    /// Retention window of the collection record.
    pub collection_live: u32,
    /// Number of live items: raised by mint, lowered by burn.
    pub tokens_count: u32,
    /// High-water mark of ever-minted ids; never lowered.
    pub max_token_id: u32,
    /// Operator grants written by `approve_all`; no authority check reads
    /// them.
    pub operators: Vec<OperatorGrant>,
}

impl NFTCollection {
    /// Internal consistency: the counter equals the number of items, every
    /// item id is within the high-water mark, every item record has a
    /// retention window, approval lists hold one entry per spender, and
    /// grants hold one entry per pair.
    pub open spec fn wf(self) -> bool {
        &&& self.items@.dom().finite()
        &&& self.item_live@.dom() == self.items@.dom()
        &&& self.tokens_count as int == self.items@.dom().len()
        &&& forall|id: u32| self.items@.dom().contains(id) ==> id <= self.max_token_id
        &&& forall|id: u32|
            self.items@.dom().contains(id) ==> approvals_unique(
                #[trigger] self.items@[id].approvals@,
            )
        &&& grants_unique(self.operators@)
    }

    /// A fresh deployment: nothing initialized, nothing minted.
    pub fn new() -> (c: Self)
        ensures
            c.wf(),
            c.collection is None,
            !c.frozen,
            !c.minter_frozen,
            c.items@ == Map::<u32, TokenInfo>::empty(),
            c.item_live@ == Map::<u32, u32>::empty(),
            c.collection_live == 0,
            c.tokens_count == 0,
            c.max_token_id == 0,
            c.operators@.len() == 0,
    {
        let c = NFTCollection {
            collection: None,
            frozen: false,
            minter_frozen: false,
            items: HashMapWithView::new(),
            item_live: HashMapWithView::new(),
            collection_live: 0,
            tokens_count: 0,
            max_token_id: 0,
            operators: Vec::new(),
        };
        proof {
            assert(c.items@.dom() =~= Set::<u32>::empty());
            assert(c.item_live@.dom() =~= Set::<u32>::empty());
        }
        c
    }

    /// The outcome `initialize` owes for a given prior state and record.
    pub open spec fn initialize_outcome(pre: Self, info: CollectionInfo) -> Result<(), Error> {
        if pre.collection is Some {
            Err(Error::AlreadyInitialized)
        } else if !valid_collection_info(info) {
            Err(Error::InvalidCollectionInfo)
        } else {
            Ok(())
        }
    }

    /// Creates the singleton collection record, once. The caller must have
    /// proved control of `collection_info.creator` to the host gate. With
    /// `freeze_minter`, the minter role becomes permanently unchangeable.
    pub fn initialize(&mut self, collection_info: CollectionInfo, freeze_minter: bool) -> (r:
        Result<(), Error>)
        requires
            old(self).wf(),
        ensures
            final(self).wf(),
            r == Self::initialize_outcome(*old(self), collection_info),
            r is Err ==> *final(self) == *old(self),
            r is Ok ==> final(self).collection == Some(collection_info),
            r is Ok ==> final(self).minter_frozen == (old(self).minter_frozen || freeze_minter),
            final(self).frozen == old(self).frozen,
            final(self).items@ == old(self).items@,
            final(self).item_live@ == old(self).item_live@,
            final(self).collection_live == old(self).collection_live,
            final(self).tokens_count == old(self).tokens_count,
            final(self).max_token_id == old(self).max_token_id,
            final(self).operators@ == old(self).operators@,
    {
        if self.collection.is_some() {
            return Err(Error::AlreadyInitialized);
        }
        if !crate::types::collection_info_is_valid(&collection_info) {
            return Err(Error::InvalidCollectionInfo);
        }
        if freeze_minter {
            self.minter_frozen = true;
        }
        self.collection = Some(collection_info);
        Ok(())
    }

    /// The retention window of an item record, zero when no record exists.
    pub open spec fn live_of(self, id: u32) -> u32 {
        if self.item_live@.dom().contains(id) {
            self.item_live@[id]
        } else {
            0
        }
    }

    /// Writes an item record and refreshes its retention window, as the
    /// store does on every write.
    fn set_token_info(&mut self, token_id: u32, info: TokenInfo, led: Ledger)
        ensures
            final(self).items@ == old(self).items@.insert(token_id, info),
            final(self).item_live@ == old(self).item_live@.insert(
                token_id,
                extended_live(
                    old(self).live_of(token_id),
                    led.sequence,
                    PERSISTENT_LIFETIME_THRESHOLD,
                    PERSISTENT_BUMP_AMOUNT,
                ),
            ),
            final(self).collection == old(self).collection,
            final(self).frozen == old(self).frozen,
            final(self).minter_frozen == old(self).minter_frozen,
            final(self).collection_live == old(self).collection_live,
            final(self).tokens_count == old(self).tokens_count,
            final(self).max_token_id == old(self).max_token_id,
            final(self).operators == old(self).operators,
    {
        let prev: u32 = match self.item_live.get(&token_id) {
            Some(l) => *l,
            None => 0,
        };
        let refreshed: u32 = extend_live_exec(
            prev,
            led.sequence,
            PERSISTENT_LIFETIME_THRESHOLD,
            PERSISTENT_BUMP_AMOUNT,
        );
        self.items.insert(token_id, info);
        self.item_live.insert(token_id, refreshed);
    }

    /// The outcome `mint` and `bulk_mint` owe for one id in a given prior
    /// state.
    pub open spec fn mint_outcome(pre: Self, token_id: u32) -> Result<(), Error> {
        if pre.collection is None {
            Err(Error::NotInitialized)
        } else if pre.items@.dom().contains(token_id) {
            Err(Error::AlreadyMinted)
        } else {
            Ok(())
        }
    }

    /// Creates the item with the given id, owned by `owner` and carrying no
    /// approvals. The caller must have proved control of the current minter
    /// identity to the host gate.
    pub fn mint(&mut self, owner: Address, token_id: u32, token_uri: Vec<u8>, led: Ledger) -> (r:
        Result<(), Error>)
        requires
            old(self).wf(),
            old(self).tokens_count < u32::MAX,
        ensures
            final(self).wf(),
            r == Self::mint_outcome(*old(self), token_id),
            r is Err ==> *final(self) == *old(self),
            r is Ok ==> {
                &&& final(self).items@.dom() == old(self).items@.dom().insert(token_id)
                &&& final(self).items@[token_id].owner == owner
                &&& final(self).items@[token_id].token_uri == token_uri
                &&& final(self).items@[token_id].approvals@.len() == 0
                &&& forall|id: u32|
                    id != token_id && old(self).items@.dom().contains(id) ==> final(self).items@[id]
                        == old(self).items@[id]
                &&& final(self).tokens_count == old(self).tokens_count + 1
                &&& final(self).max_token_id == (if token_id > old(self).max_token_id {
                    token_id
                } else {
                    old(self).max_token_id
                })
                &&& final(self).item_live@[token_id] == extended_live(
                    0,
                    led.sequence,
                    PERSISTENT_LIFETIME_THRESHOLD,
                    PERSISTENT_BUMP_AMOUNT,
                )
                &&& forall|id: u32|
                    id != token_id && old(self).item_live@.dom().contains(id)
                        ==> final(self).item_live@[id] == old(self).item_live@[id]
            },
            final(self).collection == old(self).collection,
            final(self).frozen == old(self).frozen,
            final(self).minter_frozen == old(self).minter_frozen,
            final(self).collection_live == old(self).collection_live,
            final(self).operators == old(self).operators,
    {
        if self.collection.is_none() {
            return Err(Error::NotInitialized);
        }
        if self.items.contains_key(&token_id) {
            return Err(Error::AlreadyMinted);
        }
        let info = TokenInfo { owner, approvals: Vec::new(), token_uri };
        self.set_token_info(token_id, info, led);
        self.tokens_count = self.tokens_count + 1;
        if self.max_token_id < token_id {
            self.max_token_id = token_id;
        }
        Ok(())
    }

    /// A batch cannot be applied when some id in it is already minted, or
    /// appears twice in the batch itself.
    pub open spec fn bulk_conflict(pre: Self, tokens: Seq<(u32, Vec<u8>)>) -> bool {
        ||| exists|i: int|
            0 <= i < tokens.len() && pre.items@.dom().contains(#[trigger] tokens[i].0)
        ||| exists|i: int, j: int|
            0 <= j < i < tokens.len() && #[trigger] tokens[j].0 == #[trigger] tokens[i].0
    }

    /// The outcome `bulk_mint` owes for a given prior state and batch.
    pub open spec fn bulk_mint_outcome(pre: Self, tokens: Seq<(u32, Vec<u8>)>) -> Result<
        (),
        Error,
    > {
        if pre.collection is None {
            Err(Error::NotInitialized)
        } else if Self::bulk_conflict(pre, tokens) {
            Err(Error::AlreadyMinted)
        } else {
            Ok(())
        }
    }

    /// The high-water mark after minting every id of `s` over `base`.
    pub open spec fn max_id_after(base: u32, s: Seq<(u32, Vec<u8>)>) -> u32
        decreases s.len(),
    {
        if s.len() == 0 {
            base
        } else {
            let rest = Self::max_id_after(base, s.drop_last());
            if s.last().0 > rest {
                s.last().0
            } else {
                rest
            }
        }
    }

    proof fn lemma_max_id_after_step(base: u32, s: Seq<(u32, Vec<u8>)>, i: int)
        requires
            0 <= i < s.len(),
        ensures
            Self::max_id_after(base, s.subrange(0, i + 1)) == ({
                let m = Self::max_id_after(base, s.subrange(0, i));
                if s[i].0 > m {
                    s[i].0
                } else {
                    m
                }
            }),
    {
        assert(s.subrange(0, i + 1).drop_last() =~= s.subrange(0, i));
        assert(s.subrange(0, i + 1).last() == s[i]);
    }

    /// Mints a whole batch of id/reference pairs for one owner, atomically:
    /// when any id collides — with an existing item or within the batch —
    /// nothing is committed. The caller must have proved control of the
    /// current minter identity to the host gate.
    #[verifier::loop_isolation(false)]
    pub fn bulk_mint(&mut self, owner: Address, tokens: Vec<(u32, Vec<u8>)>, led: Ledger) -> (r:
        Result<(), Error>)
        requires
            old(self).wf(),
            old(self).tokens_count + tokens@.len() <= u32::MAX,
        ensures
            final(self).wf(),
            r == Self::bulk_mint_outcome(*old(self), tokens@),
            r is Err ==> *final(self) == *old(self),
            r is Ok ==> {
                &&& forall|id: u32|
                    final(self).items@.dom().contains(id) <==> old(self).items@.dom().contains(id)
                        || exists|k: int| 0 <= k < tokens@.len() && #[trigger] tokens@[k].0 == id
                &&& forall|k: int|
                    0 <= k < tokens@.len() ==> {
                        &&& final(self).items@[#[trigger] tokens@[k].0].owner == owner
                        &&& final(self).items@[tokens@[k].0].token_uri@ == tokens@[k].1@
                        &&& final(self).items@[tokens@[k].0].approvals@.len() == 0
                        &&& final(self).item_live@[tokens@[k].0] == extended_live(
                            0,
                            led.sequence,
                            PERSISTENT_LIFETIME_THRESHOLD,
                            PERSISTENT_BUMP_AMOUNT,
                        )
                    }
                &&& forall|id: u32|
                    old(self).items@.dom().contains(id) ==> final(self).items@[id] == old(
                        self,
                    ).items@[id] && final(self).item_live@[id] == old(self).item_live@[id]
                &&& final(self).tokens_count == old(self).tokens_count + tokens@.len()
                &&& final(self).max_token_id == Self::max_id_after(
                    old(self).max_token_id,
                    tokens@,
                )
            },
            final(self).collection == old(self).collection,
            final(self).frozen == old(self).frozen,
            final(self).minter_frozen == old(self).minter_frozen,
            final(self).collection_live == old(self).collection_live,
            final(self).operators == old(self).operators,
    {
        let ghost pre = *self;
        if self.collection.is_none() {
            return Err(Error::NotInitialized);
        }
        let n: usize = tokens.len();
        let mut i: usize = 0;
        while i < n
            invariant
                i <= n,
                forall|k: int| 0 <= k < i ==> !pre.items@.dom().contains(#[trigger] tokens@[k].0),
                forall|k: int, l: int|
                    0 <= l < k < i ==> #[trigger] tokens@[l].0 != #[trigger] tokens@[k].0,
            decreases n - i,
        {
            let id: u32 = tokens[i].0;
            if self.items.contains_key(&id) {
                return Err(Error::AlreadyMinted);
            }
            let mut j: usize = 0;
            while j < i
                invariant
                    j <= i,
                    forall|l: int| 0 <= l < j ==> #[trigger] tokens@[l].0 != tokens@[i as int].0,
                decreases i - j,
            {
                if tokens[j].0 == id {
                    return Err(Error::AlreadyMinted);
                }
                j += 1;
            }
            i += 1;
        }
        let mut i: usize = 0;
        while i < n
            invariant
                i <= n,
                self.wf(),
                self.collection == pre.collection,
                self.frozen == pre.frozen,
                self.minter_frozen == pre.minter_frozen,
                self.collection_live == pre.collection_live,
                self.operators == pre.operators,
                self.tokens_count == pre.tokens_count + i,
                self.max_token_id == Self::max_id_after(
                    pre.max_token_id,
                    tokens@.subrange(0, i as int),
                ),
                forall|id: u32|
                    self.items@.dom().contains(id) <==> pre.items@.dom().contains(id) || exists|
                        k: int,
                    | 0 <= k < i && #[trigger] tokens@[k].0 == id,
                forall|k: int|
                    0 <= k < i ==> {
                        &&& self.items@[#[trigger] tokens@[k].0].owner == owner
                        &&& self.items@[tokens@[k].0].token_uri@ == tokens@[k].1@
                        &&& self.items@[tokens@[k].0].approvals@.len() == 0
                        &&& self.item_live@[tokens@[k].0] == extended_live(
                            0,
                            led.sequence,
                            PERSISTENT_LIFETIME_THRESHOLD,
                            PERSISTENT_BUMP_AMOUNT,
                        )
                    },
                forall|id: u32|
                    pre.items@.dom().contains(id) ==> self.items@[id] == pre.items@[id]
                        && self.item_live@[id] == pre.item_live@[id],
            decreases n - i,
        {
            let id: u32 = tokens[i].0;
            let uri: Vec<u8> = crate::types::copy_bytes(&tokens[i].1);
            let info = TokenInfo { owner, approvals: Vec::new(), token_uri: uri };
            proof {
                assert(!self.items@.dom().contains(id));
                assert(self.live_of(id) == 0);
            }
            self.set_token_info(id, info, led);
            self.tokens_count = self.tokens_count + 1;
            if self.max_token_id < id {
                self.max_token_id = id;
            }
            proof {
                Self::lemma_max_id_after_step(pre.max_token_id, tokens@, i as int);
            }
            i += 1;
        }
        proof {
            assert(tokens@.subrange(0, n as int) =~= tokens@);
        }
        Ok(())
    }

    /// The outcome every per-item authority-gated operation owes: the item
    /// must exist, and `who` must be its owner or hold a live approval.
    pub open spec fn item_authority_outcome(
        pre: Self,
        who: Address,
        token_id: u32,
        led: Ledger,
    ) -> Result<(), Error> {
        if !pre.items@.dom().contains(token_id) {
            Err(Error::NotNFT)
        } else if !pre.items@[token_id].can_operate(who, led) {
            Err(Error::NotAuthorized)
        } else {
            Ok(())
        }
    }

    /// Moves the item to `to` and clears every approval on it. The caller
    /// must have proved control of `from` to the host gate; `from` must be
    /// the owner or hold a live approval.
    pub fn transfer(&mut self, from: Address, to: Address, token_id: u32, led: Ledger) -> (r:
        Result<(), Error>)
        requires
            old(self).wf(),
        ensures
            final(self).wf(),
            r == Self::item_authority_outcome(*old(self), from, token_id, led),
            r is Err ==> *final(self) == *old(self),
            r is Ok ==> {
                &&& final(self).items@.dom() == old(self).items@.dom()
                &&& final(self).items@[token_id].owner == to
                &&& final(self).items@[token_id].approvals@.len() == 0
                &&& final(self).items@[token_id].token_uri@ == old(
                    self,
                ).items@[token_id].token_uri@
                &&& forall|id: u32|
                    id != token_id && old(self).items@.dom().contains(id) ==> final(self).items@[id]
                        == old(self).items@[id] && final(self).item_live@[id] == old(
                        self,
                    ).item_live@[id]
                &&& final(self).item_live@[token_id] == extended_live(
                    old(self).live_of(token_id),
                    led.sequence,
                    PERSISTENT_LIFETIME_THRESHOLD,
                    PERSISTENT_BUMP_AMOUNT,
                )
            },
            final(self).collection == old(self).collection,
            final(self).frozen == old(self).frozen,
            final(self).minter_frozen == old(self).minter_frozen,
            final(self).collection_live == old(self).collection_live,
            final(self).tokens_count == old(self).tokens_count,
            final(self).max_token_id == old(self).max_token_id,
            final(self).operators == old(self).operators,
    {
        let ghost pre = *self;
        let moved: TokenInfo = match self.items.get(&token_id) {
            None => {
                return Err(Error::NotNFT);
            },
            Some(t) => {
                if !t.check_can_operate(from, &led) {
                    return Err(Error::NotAuthorized);
                }
                TokenInfo {
                    owner: to,
                    approvals: Vec::new(),
                    token_uri: crate::types::copy_bytes(&t.token_uri),
                }
            },
        };
        self.set_token_info(token_id, moved, led);
        proof {
            assert(self.items@.dom() =~= pre.items@.dom());
        }
        Ok(())
    }

    /// The expiration an approval gets when none is supplied.
    pub open spec fn effective_expiration(e: Option<Expiration>) -> Expiration {
        match e {
            None => Expiration::Never,
            Some(x) => x,
        }
    }

    /// Sets (or overwrites) the approval of `spender` on the item. The
    /// caller must have proved control of `owner` to the host gate; `owner`
    /// must be the item's owner or hold a live approval itself. A supplied
    /// expiration that has already lapsed is rejected.
    pub fn approve(
        &mut self,
        owner: Address,
        spender: Address,
        token_id: u32,
        expires: Option<Expiration>,
        led: Ledger,
    ) -> (r: Result<(), Error>)
        requires
            old(self).wf(),
        ensures
            final(self).wf(),
            r == ({
                let base = Self::item_authority_outcome(*old(self), owner, token_id, led);
                if base is Err {
                    base
                } else if Self::effective_expiration(expires).spec_is_expired(led) {
                    Err(Error::NotAuthorized)
                } else {
                    Ok(())
                }
            }),
            r is Err ==> *final(self) == *old(self),
            r is Ok ==> {
                let a_old = old(self).items@[token_id].approvals@;
                let a_new = final(self).items@[token_id].approvals@;
                &&& final(self).items@.dom() == old(self).items@.dom()
                &&& final(self).items@[token_id].owner == old(self).items@[token_id].owner
                &&& final(self).items@[token_id].token_uri@ == old(
                    self,
                ).items@[token_id].token_uri@
                &&& a_new.contains(
                    (Approval { spender, expires: Self::effective_expiration(expires) }),
                )
                &&& forall|i: int|
                    0 <= i < a_new.len() && a_new[i].spender != spender ==> a_old.contains(
                        #[trigger] a_new[i],
                    )
                &&& forall|j: int|
                    0 <= j < a_old.len() && a_old[j].spender != spender ==> a_new.contains(
                        #[trigger] a_old[j],
                    )
                &&& forall|id: u32|
                    id != token_id && old(self).items@.dom().contains(id) ==> final(self).items@[id]
                        == old(self).items@[id] && final(self).item_live@[id] == old(
                        self,
                    ).item_live@[id]
                &&& final(self).item_live@[token_id] == extended_live(
                    old(self).live_of(token_id),
                    led.sequence,
                    PERSISTENT_LIFETIME_THRESHOLD,
                    PERSISTENT_BUMP_AMOUNT,
                )
            },
            final(self).collection == old(self).collection,
            final(self).frozen == old(self).frozen,
            final(self).minter_frozen == old(self).minter_frozen,
            final(self).collection_live == old(self).collection_live,
            final(self).tokens_count == old(self).tokens_count,
            final(self).max_token_id == old(self).max_token_id,
            final(self).operators == old(self).operators,
    {
        let ghost pre = *self;
        let t: &TokenInfo = match self.items.get(&token_id) {
            None => {
                return Err(Error::NotNFT);
            },
            Some(t) => t,
        };
        if !t.check_can_operate(owner, &led) {
            return Err(Error::NotAuthorized);
        }
        let eff: Expiration = match expires {
            None => Expiration::Never,
            Some(x) => x,
        };
        if eff.is_expired(&led) {
            return Err(Error::NotAuthorized);
        }
        let ghost a_old = t.approvals@;
        proof {
            assert(approvals_unique(a_old));
        }
        let mut kept = crate::types::approvals_without(&t.approvals, spender);
        let ghost kept_view = kept@;
        kept.push(Approval { spender, expires: eff });
        proof {
            assert forall|i: int, j: int| 0 <= i < j < kept@.len() implies kept@[i].spender
                != kept@[j].spender by {
                if j == kept@.len() - 1 {
                    assert(kept@[i] == kept_view[i]);
                }
            }
        }
        let updated = TokenInfo {
            owner: t.owner,
            approvals: kept,
            token_uri: crate::types::copy_bytes(&t.token_uri),
        };
        let ghost new_aps = updated.approvals@;
        self.set_token_info(token_id, updated, led);
        proof {
            assert(self.items@.dom() =~= pre.items@.dom());
            assert(self.items@[token_id].approvals@ == new_aps);
            let entry = (Approval { spender, expires: Self::effective_expiration(expires) });
            assert(new_aps[new_aps.len() - 1] == entry);
            assert(new_aps.contains(entry));
            assert forall|i: int| 0 <= i < new_aps.len() && new_aps[i].spender != spender implies
                a_old.contains(new_aps[i]) by {
                assert(new_aps[new_aps.len() - 1].spender == spender);
                assert(new_aps[i] == kept_view[i]);
            }
            assert forall|j: int| 0 <= j < a_old.len() && a_old[j].spender != spender implies
                new_aps.contains(a_old[j]) by {
                assert(kept_view.contains(a_old[j]));
                let k = choose|k: int| 0 <= k < kept_view.len() && kept_view[k] == a_old[j];
                assert(new_aps[k] == a_old[j]);
            }
        }
        Ok(())
    }

    /// Removes the approval of `spender` on the item, lapsed or not. The
    /// same authority rule as `approve` gates the call.
    pub fn revoke(&mut self, owner: Address, spender: Address, token_id: u32, led: Ledger) -> (r:
        Result<(), Error>)
        requires
            old(self).wf(),
        ensures
            final(self).wf(),
            r == Self::item_authority_outcome(*old(self), owner, token_id, led),
            r is Err ==> *final(self) == *old(self),
            r is Ok ==> {
                let a_old = old(self).items@[token_id].approvals@;
                let a_new = final(self).items@[token_id].approvals@;
                &&& final(self).items@.dom() == old(self).items@.dom()
                &&& final(self).items@[token_id].owner == old(self).items@[token_id].owner
                &&& final(self).items@[token_id].token_uri@ == old(
                    self,
                ).items@[token_id].token_uri@
                &&& forall|i: int| 0 <= i < a_new.len() ==> a_new[i].spender != spender
                &&& forall|i: int| 0 <= i < a_new.len() ==> a_old.contains(#[trigger] a_new[i])
                &&& forall|j: int|
                    0 <= j < a_old.len() && a_old[j].spender != spender ==> a_new.contains(
                        #[trigger] a_old[j],
                    )
                &&& forall|id: u32|
                    id != token_id && old(self).items@.dom().contains(id) ==> final(self).items@[id]
                        == old(self).items@[id] && final(self).item_live@[id] == old(
                        self,
                    ).item_live@[id]
                &&& final(self).item_live@[token_id] == extended_live(
                    old(self).live_of(token_id),
                    led.sequence,
                    PERSISTENT_LIFETIME_THRESHOLD,
                    PERSISTENT_BUMP_AMOUNT,
                )
            },
            final(self).collection == old(self).collection,
            final(self).frozen == old(self).frozen,
            final(self).minter_frozen == old(self).minter_frozen,
            final(self).collection_live == old(self).collection_live,
            final(self).tokens_count == old(self).tokens_count,
            final(self).max_token_id == old(self).max_token_id,
            final(self).operators == old(self).operators,
    {
        let ghost pre = *self;
        let updated: TokenInfo = match self.items.get(&token_id) {
            None => {
                return Err(Error::NotNFT);
            },
            Some(t) => {
                if !t.check_can_operate(owner, &led) {
                    return Err(Error::NotAuthorized);
                }
                proof {
                    assert(approvals_unique(t.approvals@));
                }
                let kept = crate::types::approvals_without(&t.approvals, spender);
                TokenInfo {
                    owner: t.owner,
                    approvals: kept,
                    token_uri: crate::types::copy_bytes(&t.token_uri),
                }
            },
        };
        self.set_token_info(token_id, updated, led);
        proof {
            assert(self.items@.dom() =~= pre.items@.dom());
        }
        Ok(())
    }

    /// Destroys the item outright; its id is never reused automatically and
    /// the high-water mark keeps it. The caller must have proved control of
    /// `owner` to the host gate; `owner` must be the item's owner or hold a
    /// live approval.
    pub fn burn(&mut self, owner: Address, token_id: u32, led: Ledger) -> (r: Result<(), Error>)
        requires
            old(self).wf(),
        ensures
            final(self).wf(),
            r == Self::item_authority_outcome(*old(self), owner, token_id, led),
            r is Err ==> *final(self) == *old(self),
            r is Ok ==> {
                &&& final(self).items@ == old(self).items@.remove(token_id)
                &&& final(self).item_live@ == old(self).item_live@.remove(token_id)
                &&& final(self).tokens_count == old(self).tokens_count - 1
            },
            final(self).collection == old(self).collection,
            final(self).frozen == old(self).frozen,
            final(self).minter_frozen == old(self).minter_frozen,
            final(self).collection_live == old(self).collection_live,
            final(self).max_token_id == old(self).max_token_id,
            final(self).operators == old(self).operators,
    {
        let ghost pre = *self;
        match self.items.get(&token_id) {
            None => {
                return Err(Error::NotNFT);
            },
            Some(t) => {
                if !t.check_can_operate(owner, &led) {
                    return Err(Error::NotAuthorized);
                }
            },
        };
        proof {
            assert(pre.items@.dom().remove(token_id).len() == pre.items@.dom().len() - 1);
        }
        self.items.remove(&token_id);
        self.item_live.remove(&token_id);
        self.tokens_count = self.tokens_count - 1;
        Ok(())
    }

    /// Sets the one-way frozen flag, permanently disabling metadata
    /// mutation and code replacement. The caller must have proved control
    /// of the admin identity to the host gate.
    pub fn freeze_collection(&mut self) -> (r: Result<(), Error>)
        requires
            old(self).wf(),
        ensures
            final(self).wf(),
            r == (if old(self).collection is None {
                Err::<(), Error>(Error::NotInitialized)
            } else {
                Ok::<(), Error>(())
            }),
            r is Err ==> *final(self) == *old(self),
            final(self).frozen == (old(self).frozen || r is Ok),
            final(self).collection == old(self).collection,
            final(self).minter_frozen == old(self).minter_frozen,
            final(self).items@ == old(self).items@,
            final(self).item_live@ == old(self).item_live@,
            final(self).collection_live == old(self).collection_live,
            final(self).tokens_count == old(self).tokens_count,
            final(self).max_token_id == old(self).max_token_id,
            final(self).operators == old(self).operators,
    {
        if self.collection.is_none() {
            return Err(Error::NotInitialized);
        }
        self.frozen = true;
        Ok(())
    }

    /// The outcome `update_token_url` owes.
    pub open spec fn update_token_url_outcome(pre: Self, token_id: u32) -> Result<(), Error> {
        if pre.frozen {
            Err(Error::Frozen)
        } else if pre.collection is None {
            Err(Error::NotInitialized)
        } else if !pre.items@.dom().contains(token_id) {
            Err(Error::NotNFT)
        } else {
            Ok(())
        }
    }

    /// Replaces the item's metadata reference. Admin-gated (the caller must
    /// have proved control of the admin identity) and disabled once the
    /// collection is frozen.
    pub fn update_token_url(&mut self, token_id: u32, token_uri: Vec<u8>, led: Ledger) -> (r:
        Result<(), Error>)
        requires
            old(self).wf(),
        ensures
            final(self).wf(),
            r == Self::update_token_url_outcome(*old(self), token_id),
            r is Err ==> *final(self) == *old(self),
            r is Ok ==> {
                &&& final(self).items@.dom() == old(self).items@.dom()
                &&& final(self).items@[token_id].token_uri == token_uri
                &&& final(self).items@[token_id].owner == old(self).items@[token_id].owner
                &&& final(self).items@[token_id].approvals@ == old(
                    self,
                ).items@[token_id].approvals@
                &&& forall|id: u32|
                    id != token_id && old(self).items@.dom().contains(id) ==> final(self).items@[id]
                        == old(self).items@[id] && final(self).item_live@[id] == old(
                        self,
                    ).item_live@[id]
                &&& final(self).item_live@[token_id] == extended_live(
                    old(self).live_of(token_id),
                    led.sequence,
                    PERSISTENT_LIFETIME_THRESHOLD,
                    PERSISTENT_BUMP_AMOUNT,
                )
            },
            final(self).collection == old(self).collection,
            final(self).frozen == old(self).frozen,
            final(self).minter_frozen == old(self).minter_frozen,
            final(self).collection_live == old(self).collection_live,
            final(self).tokens_count == old(self).tokens_count,
            final(self).max_token_id == old(self).max_token_id,
            final(self).operators == old(self).operators,
    {
        let ghost pre = *self;
        if self.frozen {
            return Err(Error::Frozen);
        }
        if self.collection.is_none() {
            return Err(Error::NotInitialized);
        }
        let updated: TokenInfo = match self.items.get(&token_id) {
            None => {
                return Err(Error::NotNFT);
            },
            Some(t) => TokenInfo {
                owner: t.owner,
                approvals: crate::types::copy_approvals(&t.approvals),
                token_uri,
            },
        };
        self.set_token_info(token_id, updated, led);
        proof {
            assert(self.items@.dom() =~= pre.items@.dom());
        }
        Ok(())
    }

    /// The outcome `update_collection_info` owes: frozen state, missing
    /// state, a frozen minter role being changed, the immutable creator
    /// being changed, and the bounds of the new record, in that order.
    pub open spec fn update_collection_info_outcome(pre: Self, new_info: CollectionInfo) -> Result<
        (),
        Error,
    > {
        if pre.frozen {
            Err(Error::Frozen)
        } else {
            match pre.collection {
                None => Err(Error::NotInitialized),
                Some(cur) => {
                    if cur.minter != new_info.minter && pre.minter_frozen {
                        Err(Error::MinterFrozen)
                    } else if cur.creator != new_info.creator {
                        Err(Error::InvalidCollectionInfo)
                    } else if !valid_collection_info(new_info) {
                        Err(Error::InvalidCollectionInfo)
                    } else {
                        Ok(())
                    }
                },
            }
        }
    }

    /// Overwrites the collection record. Admin-gated; the creator is
    /// immutable, the minter immutable once the minter-frozen flag is set,
    /// and the whole operation disabled once the collection is frozen.
    pub fn update_collection_info(&mut self, new_collection_info: CollectionInfo) -> (r: Result<
        (),
        Error,
    >)
        requires
            old(self).wf(),
        ensures
            final(self).wf(),
            r == Self::update_collection_info_outcome(*old(self), new_collection_info),
            r is Err ==> *final(self) == *old(self),
            r is Ok ==> final(self).collection == Some(new_collection_info),
            final(self).frozen == old(self).frozen,
            final(self).minter_frozen == old(self).minter_frozen,
            final(self).items@ == old(self).items@,
            final(self).item_live@ == old(self).item_live@,
            final(self).collection_live == old(self).collection_live,
            final(self).tokens_count == old(self).tokens_count,
            final(self).max_token_id == old(self).max_token_id,
            final(self).operators == old(self).operators,
    {
        if self.frozen {
            return Err(Error::Frozen);
        }
        match &self.collection {
            None => {
                return Err(Error::NotInitialized);
            },
            Some(cur) => {
                if cur.minter != new_collection_info.minter && self.minter_frozen {
                    return Err(Error::MinterFrozen);
                }
                if cur.creator != new_collection_info.creator {
                    return Err(Error::InvalidCollectionInfo);
                }
            },
        }
        if !crate::types::collection_info_is_valid(&new_collection_info) {
            return Err(Error::InvalidCollectionInfo);
        }
        self.collection = Some(new_collection_info);
        Ok(())
    }

    /// The outcome `upgrade` owes.
    pub open spec fn upgrade_outcome(pre: Self) -> Result<(), Error> {
        if pre.frozen {
            Err(Error::Frozen)
        } else if pre.collection is None {
            Err(Error::NotInitialized)
        } else {
            Ok(())
        }
    }

    /// Whether a code replacement may proceed: admin-gated and disabled
    /// once the collection is frozen. The replacement itself is the host's
    /// privileged facility; this decides it only.
    pub fn upgrade(&self) -> (r: Result<(), Error>)
        ensures
            r == Self::upgrade_outcome(*self),
    {
        if self.frozen {
            return Err(Error::Frozen);
        }
        if self.collection.is_none() {
            return Err(Error::NotInitialized);
        }
        Ok(())
    }

    /// Writes the short-lived operator grant for `(owner, operator)`,
    /// lapsing at `expiration_ledger`; the store keeps it exactly until
    /// then. The caller must have proved control of `owner` to the host
    /// gate, and the expiration must lie strictly ahead of the clock. No
    /// authority check consults these grants.
    pub fn approve_all(
        &mut self,
        owner: Address,
        operator: Address,
        expiration_ledger: u32,
        led: Ledger,
    )
        requires
            old(self).wf(),
            led.sequence < expiration_ledger,
        ensures
            final(self).wf(),
            final(self).operators@.contains(
                (OperatorGrant { owner, operator, expiration: expiration_ledger }),
            ),
            forall|i: int|
                0 <= i < final(self).operators@.len() && !(final(self).operators@[i].owner == owner
                    && final(self).operators@[i].operator == operator) ==> old(
                    self,
                ).operators@.contains(#[trigger] final(self).operators@[i]),
            forall|j: int|
                0 <= j < old(self).operators@.len() && !(old(self).operators@[j].owner == owner
                    && old(self).operators@[j].operator == operator)
                    ==> final(self).operators@.contains(#[trigger] old(self).operators@[j]),
            final(self).collection == old(self).collection,
            final(self).frozen == old(self).frozen,
            final(self).minter_frozen == old(self).minter_frozen,
            final(self).items@ == old(self).items@,
            final(self).item_live@ == old(self).item_live@,
            final(self).collection_live == old(self).collection_live,
            final(self).tokens_count == old(self).tokens_count,
            final(self).max_token_id == old(self).max_token_id,
    {
        let ghost g_old = self.operators@;
        let mut kept = crate::types::grants_without(&self.operators, owner, operator);
        let ghost kept_view = kept@;
        kept.push(OperatorGrant { owner, operator, expiration: expiration_ledger });
        proof {
            assert forall|i: int, j: int| 0 <= i < j < kept@.len() implies !(kept@[i].owner
                == kept@[j].owner && kept@[i].operator == kept@[j].operator) by {
                if j == kept@.len() - 1 {
                    assert(kept@[i] == kept_view[i]);
                }
            }
            assert forall|j: int|
                0 <= j < g_old.len() && !(g_old[j].owner == owner && g_old[j].operator == operator)
                    implies kept@.contains(#[trigger] g_old[j]) by {
                assert(kept_view.contains(g_old[j]));
                let k = choose|k: int| 0 <= k < kept_view.len() && kept_view[k] == g_old[j];
                assert(kept@[k] == g_old[j]);
            }
            assert forall|i: int|
                0 <= i < kept@.len() && !(kept@[i].owner == owner && kept@[i].operator == operator)
                    implies g_old.contains(#[trigger] kept@[i]) by {
                assert(kept@[kept@.len() - 1].owner == owner);
                assert(kept@[i] == kept_view[i]);
            }
            assert(kept@[kept@.len() - 1] == (OperatorGrant {
                owner,
                operator,
                expiration: expiration_ledger,
            }));
        }
        self.operators = kept;
    }

    /// Removes the operator grant for `(owner, operator)`, if any. The
    /// caller must have proved control of `owner` to the host gate.
    pub fn revoke_all(&mut self, owner: Address, operator: Address)
        requires
            old(self).wf(),
        ensures
            final(self).wf(),
            !crate::types::has_grant(final(self).operators@, owner, operator),
            forall|i: int|
                0 <= i < final(self).operators@.len() ==> old(self).operators@.contains(
                    #[trigger] final(self).operators@[i],
                ),
            forall|j: int|
                0 <= j < old(self).operators@.len() && !(old(self).operators@[j].owner == owner
                    && old(self).operators@[j].operator == operator)
                    ==> final(self).operators@.contains(#[trigger] old(self).operators@[j]),
            final(self).collection == old(self).collection,
            final(self).frozen == old(self).frozen,
            final(self).minter_frozen == old(self).minter_frozen,
            final(self).items@ == old(self).items@,
            final(self).item_live@ == old(self).item_live@,
            final(self).collection_live == old(self).collection_live,
            final(self).tokens_count == old(self).tokens_count,
            final(self).max_token_id == old(self).max_token_id,
    {
        let kept = crate::types::grants_without(&self.operators, owner, operator);
        self.operators = kept;
    }

    /// Refreshes the retention window of one item record; a no-op when the
    /// item does not exist. Callable by anyone: keeping state alive only
    /// costs the caller.
    pub fn extend_ttl_item(&mut self, token_id: u32, led: Ledger)
        requires
            old(self).wf(),
        ensures
            final(self).wf(),
            old(self).items@.dom().contains(token_id) ==> final(self).item_live@ == old(
                self,
            ).item_live@.insert(
                token_id,
                extended_live(
                    old(self).live_of(token_id),
                    led.sequence,
                    PERSISTENT_LIFETIME_THRESHOLD,
                    PERSISTENT_BUMP_AMOUNT,
                ),
            ),
            !old(self).items@.dom().contains(token_id) ==> final(self).item_live@ == old(
                self,
            ).item_live@,
            final(self).collection == old(self).collection,
            final(self).frozen == old(self).frozen,
            final(self).minter_frozen == old(self).minter_frozen,
            final(self).items@ == old(self).items@,
            final(self).collection_live == old(self).collection_live,
            final(self).tokens_count == old(self).tokens_count,
            final(self).max_token_id == old(self).max_token_id,
            final(self).operators == old(self).operators,
    {
        let ghost pre = *self;
        if self.items.contains_key(&token_id) {
            let prev: u32 = match self.item_live.get(&token_id) {
                Some(l) => *l,
                None => 0,
            };
            let refreshed: u32 = extend_live_exec(
                prev,
                led.sequence,
                PERSISTENT_LIFETIME_THRESHOLD,
                PERSISTENT_BUMP_AMOUNT,
            );
            self.item_live.insert(token_id, refreshed);
            proof {
                assert(self.item_live@.dom() =~= pre.item_live@.dom());
            }
        }
    }

    /// The last id a range-bounded walk visits: `start_after + limit`,
    /// clipped to the high-water mark.
    pub open spec fn scan_end(start_after: u32, limit: u32, max_token_id: u32) -> int {
        if start_after + limit > max_token_id {
            max_token_id as int
        } else {
            start_after + limit
        }
    }

    /// Refreshes the collection record's retention window, and — when
    /// `limit` is positive — that of every existing item with id in
    /// `[start_after, min(start_after + limit, max_token_id)]`. Callable by
    /// anyone.
    #[verifier::loop_isolation(false)]
    pub fn extend_ttl_collection(&mut self, start_after: u32, limit: u32, led: Ledger)
        requires
            old(self).wf(),
            start_after + limit <= u32::MAX,
        ensures
            final(self).wf(),
            final(self).collection_live == extended_live(
                old(self).collection_live,
                led.sequence,
                INSTANCE_LIFETIME_THRESHOLD,
                INSTANCE_BUMP_AMOUNT,
            ),
            final(self).item_live@.dom() == old(self).item_live@.dom(),
            forall|id: u32|
                old(self).item_live@.dom().contains(id) ==> final(self).item_live@[id] == (
                if limit > 0 && start_after <= id && id <= Self::scan_end(
                    start_after,
                    limit,
                    old(self).max_token_id,
                ) {
                    extended_live(
                        old(self).item_live@[id],
                        led.sequence,
                        PERSISTENT_LIFETIME_THRESHOLD,
                        PERSISTENT_BUMP_AMOUNT,
                    )
                } else {
                    old(self).item_live@[id]
                }),
            final(self).collection == old(self).collection,
            final(self).frozen == old(self).frozen,
            final(self).minter_frozen == old(self).minter_frozen,
            final(self).items@ == old(self).items@,
            final(self).tokens_count == old(self).tokens_count,
            final(self).max_token_id == old(self).max_token_id,
            final(self).operators == old(self).operators,
    {
        let ghost pre = *self;
        self.collection_live = extend_live_exec(
            self.collection_live,
            led.sequence,
            INSTANCE_LIFETIME_THRESHOLD,
            INSTANCE_BUMP_AMOUNT,
        );
        if limit > 0 {
            let mut end: u32 = start_after + limit;
            if end > self.max_token_id {
                end = self.max_token_id;
            }
            let mut n: u64 = start_after as u64;
            while n <= end as u64
                invariant
                    start_after as u64 <= n,
                    n <= end as u64 + 1 || n == start_after as u64,
                    self.items@ == pre.items@,
                    self.item_live@.dom() == pre.item_live@.dom(),
                    self.collection == pre.collection,
                    self.frozen == pre.frozen,
                    self.minter_frozen == pre.minter_frozen,
                    self.collection_live == extended_live(
                        pre.collection_live,
                        led.sequence,
                        INSTANCE_LIFETIME_THRESHOLD,
                        INSTANCE_BUMP_AMOUNT,
                    ),
                    self.tokens_count == pre.tokens_count,
                    self.max_token_id == pre.max_token_id,
                    self.operators == pre.operators,
                    forall|id: u32|
                        pre.item_live@.dom().contains(id) ==> self.item_live@[id] == (
                        if start_after <= id && (id as u64) < n {
                            extended_live(
                                pre.item_live@[id],
                                led.sequence,
                                PERSISTENT_LIFETIME_THRESHOLD,
                                PERSISTENT_BUMP_AMOUNT,
                            )
                        } else {
                            pre.item_live@[id]
                        }),
                decreases end as u64 + 1 - n,
            {
                let id: u32 = n as u32;
                let ghost dom_before = self.item_live@.dom();
                if self.items.contains_key(&id) {
                    let prev: u32 = match self.item_live.get(&id) {
                        Some(l) => *l,
                        None => 0,
                    };
                    let refreshed: u32 = extend_live_exec(
                        prev,
                        led.sequence,
                        PERSISTENT_LIFETIME_THRESHOLD,
                        PERSISTENT_BUMP_AMOUNT,
                    );
                    self.item_live.insert(id, refreshed);
                    proof {
                        assert(self.item_live@.dom() =~= dom_before);
                    }
                }
                n += 1;
            }
        }
    }

    /// Whether `freeze_collection` has ever succeeded.
    pub fn is_collection_frozen(&self) -> (r: bool)
        ensures
            r == self.frozen,
    {
        self.frozen
    }

    /// The singleton collection record.
    pub fn get_collection_info(&self) -> (r: Result<&CollectionInfo, Error>)
        ensures
            match r {
                Ok(c) => self.collection == Some(*c),
                Err(e) => self.collection is None && e == Error::NotInitialized,
            },
    {
        match &self.collection {
            Some(c) => Ok(c),
            None => Err(Error::NotInitialized),
        }
    }

    /// The item with the given id.
    pub fn get_token_info(&self, token_id: u32) -> (r: Result<&TokenInfo, Error>)
        ensures
            match r {
                Ok(t) => self.items@.dom().contains(token_id) && *t == self.items@[token_id],
                Err(e) => !self.items@.dom().contains(token_id) && e == Error::NotNFT,
            },
    {
        match self.items.get(&token_id) {
            Some(t) => Ok(t),
            None => Err(Error::NotNFT),
        }
    }

    /// Once an item id exists — as it does right after a successful mint —
    /// any further mint of the same id is owed `AlreadyMinted`.
    pub proof fn lemma_remint_fails(post: Self, token_id: u32)
        requires
            post.collection is Some,
            post.items@.dom().contains(token_id),
        ensures
            Self::mint_outcome(post, token_id) == Err::<(), Error>(Error::AlreadyMinted),
    {
    }

    /// After a burn the item is gone: a state whose items are the prior
    /// ones with `token_id` removed no longer contains `token_id`, so every
    /// per-item operation on it — `get_token_info` included — is owed
    /// `NotNFT`.
    pub proof fn lemma_burn_removes(pre: Self, post: Self, token_id: u32, who: Address, led: Ledger)
        requires
            post.items@ == pre.items@.remove(token_id),
        ensures
            !post.items@.dom().contains(token_id),
            Self::item_authority_outcome(post, who, token_id, led) == Err::<(), Error>(
                Error::NotNFT,
            ),
    {
    }

    /// Approval expiry, for an item whose approvals carry `spender` only
    /// with expiration height `h`: someone other than the owner holding
    /// that approval is owed `NotAuthorized` from height `h` on, and
    /// success strictly before it.
    pub proof fn lemma_approval_expiry(pre: Self, spender: Address, token_id: u32, h: u32, led: Ledger)
        requires
            pre.items@.dom().contains(token_id),
            spender != pre.items@[token_id].owner,
            forall|i: int|
                0 <= i < pre.items@[token_id].approvals@.len() && (
                #[trigger] pre.items@[token_id].approvals@[i]).spender == spender
                    ==> pre.items@[token_id].approvals@[i].expires == Expiration::AtHeight(h),
        ensures
            led.sequence >= h ==> Self::item_authority_outcome(pre, spender, token_id, led)
                == Err::<(), Error>(Error::NotAuthorized),
            led.sequence < h && pre.items@[token_id].has_approval(spender)
                ==> Self::item_authority_outcome(pre, spender, token_id, led) == Ok::<(), Error>(
                (),
            ),
    {
        let t = pre.items@[token_id];
        if led.sequence >= h {
            assert(!t.approval_allows(spender, led)) by {
                if t.approval_allows(spender, led) {
                    let i = choose|i: int|
                        0 <= i < t.approvals@.len() && t.approvals@[i].spender == spender
                            && !t.approvals@[i].expires.spec_is_expired(led);
                    assert(t.approvals@[i].expires == Expiration::AtHeight(h));
                }
            }
        } else {
            if t.has_approval(spender) {
                let i = choose|i: int|
                    0 <= i < t.approvals@.len() && t.approvals@[i].spender == spender;
                assert(t.approvals@[i].expires == Expiration::AtHeight(h));
                assert(!t.approvals@[i].expires.spec_is_expired(led));
                assert(t.approval_allows(spender, led));
            }
        }
    }

    /// The creator is immutable: with the collection initialized, not
    /// frozen, and the minter untouched by the freeze flag, a record whose
    /// creator differs from the stored one is owed `InvalidCollectionInfo`,
    /// whatever else it holds.
    pub proof fn lemma_creator_immutable(pre: Self, new_info: CollectionInfo)
        requires
            !pre.frozen,
            pre.collection is Some,
            match pre.collection {
                Some(cur) => (cur.minter == new_info.minter || !pre.minter_frozen)
                    && cur.creator != new_info.creator,
                None => false,
            },
        ensures
            Self::update_collection_info_outcome(pre, new_info) == Err::<(), Error>(
                Error::InvalidCollectionInfo,
            ),
    {
    }

    /// Freezing is one-way and total for metadata: in any frozen state —
    /// and every operation's contract keeps the flag set once it is — the
    /// three admin mutations are owed `Frozen`, whoever calls them.
    pub proof fn lemma_frozen_blocks(pre: Self, token_id: u32, new_info: CollectionInfo)
        requires
            pre.frozen,
        ensures
            Self::update_collection_info_outcome(pre, new_info) == Err::<(), Error>(Error::Frozen),
            Self::update_token_url_outcome(pre, token_id) == Err::<(), Error>(Error::Frozen),
            Self::upgrade_outcome(pre) == Err::<(), Error>(Error::Frozen),
    {
    }

    /// Whether the owner filter accepts an item.
    pub open spec fn owner_matches(t: TokenInfo, owner: Option<Address>) -> bool {
        match owner {
            None => true,
            Some(a) => t.owner == a,
        }
    }

    /// Whether the scan reports the id: the item exists and the filter
    /// accepts it.
    pub open spec fn scan_selected(
        m: Map<u32, TokenInfo>,
        owner: Option<Address>,
        id: int,
    ) -> bool {
        0 <= id <= u32::MAX && m.dom().contains(id as u32) && Self::owner_matches(
            m[id as u32],
            owner,
        )
    }

    /// The ids a scan of `[lo, hi]` reports, in ascending order.
    pub open spec fn scan_ids(
        m: Map<u32, TokenInfo>,
        owner: Option<Address>,
        lo: int,
        hi: int,
    ) -> Seq<u32>
        decreases hi + 1 - lo,
    {
        if lo > hi {
            Seq::empty()
        } else {
            (if Self::scan_selected(m, owner, lo) {
                seq![lo as u32]
            } else {
                Seq::empty()
            }) + Self::scan_ids(m, owner, lo + 1, hi)
        }
    }

    proof fn lemma_scan_ids_snoc(m: Map<u32, TokenInfo>, owner: Option<Address>, lo: int, hi: int)
        requires
            lo <= hi,
        ensures
            Self::scan_ids(m, owner, lo, hi) == Self::scan_ids(m, owner, lo, hi - 1) + (
            if Self::scan_selected(m, owner, hi) {
                seq![hi as u32]
            } else {
                Seq::<u32>::empty()
            }),
        decreases hi - lo,
    {
        if lo < hi {
            Self::lemma_scan_ids_snoc(m, owner, lo + 1, hi);
            let front = if Self::scan_selected(m, owner, lo) {
                seq![lo as u32]
            } else {
                Seq::<u32>::empty()
            };
            let tail = if Self::scan_selected(m, owner, hi) {
                seq![hi as u32]
            } else {
                Seq::<u32>::empty()
            };
            assert(Self::scan_ids(m, owner, lo, hi) == front + Self::scan_ids(m, owner, lo + 1, hi));
            assert(Self::scan_ids(m, owner, lo + 1, hi) == Self::scan_ids(m, owner, lo + 1, hi - 1)
                + tail);
            assert(Self::scan_ids(m, owner, lo, hi - 1) == front + Self::scan_ids(
                m,
                owner,
                lo + 1,
                hi - 1,
            ));
            assert(Self::scan_ids(m, owner, lo, hi) =~= Self::scan_ids(m, owner, lo, hi - 1)
                + tail);
        } else {
            assert(Self::scan_ids(m, owner, lo, hi - 1) == Seq::<u32>::empty());
            assert(Self::scan_ids(m, owner, lo + 1, hi) == Seq::<u32>::empty());
            assert(Self::scan_ids(m, owner, lo, hi) =~= Self::scan_ids(m, owner, lo, hi - 1) + (
            if Self::scan_selected(m, owner, hi) {
                seq![hi as u32]
            } else {
                Seq::<u32>::empty()
            }));
        }
    }

    /// What a scan reports: exactly the ids in `[lo, hi]` whose item exists
    /// and passes the filter, each once, in strictly ascending order.
    pub proof fn lemma_scan_ids_characterizes(
        m: Map<u32, TokenInfo>,
        owner: Option<Address>,
        lo: int,
        hi: int,
    )
        ensures
            forall|k: int|
                0 <= k < Self::scan_ids(m, owner, lo, hi).len() ==> {
                    let id = #[trigger] Self::scan_ids(m, owner, lo, hi)[k];
                    lo <= id <= hi && Self::scan_selected(m, owner, id as int)
                },
            forall|id: int|
                lo <= id <= hi && Self::scan_selected(m, owner, id) ==> Self::scan_ids(
                    m,
                    owner,
                    lo,
                    hi,
                ).contains(id as u32),
            forall|k1: int, k2: int|
                0 <= k1 < k2 < Self::scan_ids(m, owner, lo, hi).len() ==> Self::scan_ids(
                    m,
                    owner,
                    lo,
                    hi,
                )[k1] < Self::scan_ids(m, owner, lo, hi)[k2],
        decreases hi + 1 - lo,
    {
        if lo <= hi {
            Self::lemma_scan_ids_characterizes(m, owner, lo + 1, hi);
            let rest = Self::scan_ids(m, owner, lo + 1, hi);
            let whole = Self::scan_ids(m, owner, lo, hi);
            if Self::scan_selected(m, owner, lo) {
                assert(whole == seq![lo as u32] + rest);
                assert(whole[0] == lo as u32);
                assert forall|id: int|
                    lo <= id <= hi && Self::scan_selected(m, owner, id) implies whole.contains(
                    id as u32) by {
                    if id == lo {
                        assert(whole[0] == id as u32);
                    } else {
                        assert(rest.contains(id as u32));
                        let k = choose|k: int| 0 <= k < rest.len() && rest[k] == id as u32;
                        assert(whole[k + 1] == id as u32);
                    }
                }
            } else {
                assert(whole =~= rest);
                assert forall|id: int|
                    lo <= id <= hi && Self::scan_selected(m, owner, id) implies whole.contains(
                    id as u32) by {
                    assert(id != lo);
                    assert(rest.contains(id as u32));
                }
            }
        }
    }

    /// Lists the existing items with id in `[start_after,
    /// min(start_after + limit, max_token_id)]`, in ascending id order,
    /// optionally only those owned by `owner`. Requires no authorization.
    #[verifier::loop_isolation(false)]
    pub fn get_tokens(&self, owner: Option<Address>, start_after: u32, limit: u32) -> (out: Vec<
        TokenInfo,
    >)
        requires
            start_after + limit <= u32::MAX,
        ensures
            ({
                let ids = Self::scan_ids(
                    self.items@,
                    owner,
                    start_after as int,
                    Self::scan_end(start_after, limit, self.max_token_id),
                );
                &&& out@.len() == ids.len()
                &&& forall|k: int|
                    0 <= k < ids.len() ==> {
                        &&& (#[trigger] out@[k]).owner == self.items@[ids[k]].owner
                        &&& out@[k].token_uri@ == self.items@[ids[k]].token_uri@
                        &&& out@[k].approvals@ == self.items@[ids[k]].approvals@
                    }
            }),
    {
        let mut out: Vec<TokenInfo> = Vec::new();
        let mut end: u32 = start_after + limit;
        if end > self.max_token_id {
            end = self.max_token_id;
        }
        let ghost m = self.items@;
        let mut n: u64 = start_after as u64;
        while n <= end as u64
            invariant
                start_after as u64 <= n,
                n <= end as u64 + 1 || n == start_after as u64,
                out@.len() == Self::scan_ids(m, owner, start_after as int, n - 1).len(),
                forall|k: int|
                    0 <= k < out@.len() ==> {
                        let ids = Self::scan_ids(m, owner, start_after as int, n - 1);
                        &&& (#[trigger] out@[k]).owner == m[ids[k]].owner
                        &&& out@[k].token_uri@ == m[ids[k]].token_uri@
                        &&& out@[k].approvals@ == m[ids[k]].approvals@
                    },
            decreases end as u64 + 1 - n,
        {
            let id: u32 = n as u32;
            let ghost ids_before = Self::scan_ids(m, owner, start_after as int, n - 1);
            proof {
                Self::lemma_scan_ids_snoc(m, owner, start_after as int, n as int);
            }
            match self.items.get(&id) {
                None => {},
                Some(t) => {
                    let wanted: bool = match owner {
                        None => true,
                        Some(a) => t.owner == a,
                    };
                    if wanted {
                        let item = TokenInfo {
                            owner: t.owner,
                            approvals: crate::types::copy_approvals(&t.approvals),
                            token_uri: crate::types::copy_bytes(&t.token_uri),
                        };
                        out.push(item);
                    }
                },
            }
            proof {
                let ids_now = Self::scan_ids(m, owner, start_after as int, n as int);
                if Self::scan_selected(m, owner, n as int) {
                    assert(ids_now == ids_before + seq![id]);
                    assert(ids_now[ids_now.len() - 1] == id);
                } else {
                    assert(ids_now =~= ids_before);
                }
                assert forall|k: int| 0 <= k < out@.len() implies {
                    &&& (#[trigger] out@[k]).owner == m[ids_now[k]].owner
                    &&& out@[k].token_uri@ == m[ids_now[k]].token_uri@
                    &&& out@[k].approvals@ == m[ids_now[k]].approvals@
                } by {
                    if k < ids_before.len() {
                        assert(ids_now[k] == ids_before[k]);
                    }
                }
            }
            n += 1;
        }
        proof {
            if n == start_after as u64 {
                assert(Self::scan_ids(
                    m,
                    owner,
                    start_after as int,
                    Self::scan_end(start_after, limit, self.max_token_id),
                ) == Seq::<u32>::empty());
            }
        }
        out
    }

    /// High-water mark of ever-minted ids.
    pub fn get_max_token_id(&self) -> (r: u32)
        ensures
            r == self.max_token_id,
    {
        self.max_token_id
    }

    /// Number of live items.
    pub fn get_tokens_count(&self) -> (r: u32)
        ensures
            r == self.tokens_count,
    {
        self.tokens_count
    }

    /// The build-time version constant.
    pub fn version() -> (r: u32)
        ensures
            r == VERSION,
    {
        VERSION
    }
}

} // verus!
