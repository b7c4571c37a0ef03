//! Domain values of the registry: identities, the ledger clock reading,
//! grant expirations, per-item approval entries, collection metadata and its
//! validation rule, operator grants, and the error taxonomy.

use vstd::prelude::*;

verus! {

/// An identity, as proved to the host's authorization gate. The registry
/// only ever compares identities for equality, so a plain number stands
/// for one here.
pub type Address = u64;

/// Bound on the collection name, in code units.
pub const MAX_NAME_LENGTH: usize = 128;

/// Bound on the collection description, in code units.
pub const MAX_DESCRIPTION_LENGTH: usize = 512;

/// Bound on the collection's external link, in code units.
pub const MAX_LINK_LENGTH: usize = 100;

/// Bound on the royalty share, in basis points (50%).
pub const MAX_ROYALTY_SHARE: u32 = 5000;

/// A reading of the ledger's clock: the monotonic block sequence number and
/// the block timestamp. Operations that decide expiry take the reading as an
/// argument; the registry never keeps a clock of its own.
#[derive(Clone, Copy, PartialEq, Eq, Structural, Debug)]
pub struct Ledger {
    pub sequence: u32,
    pub timestamp: u64,
}

/// When a grant stops being valid: never, at a ledger height, or at a
/// timestamp. This is a data-level expiry on approvals, distinct from the
/// storage-retention windows handled by the lifecycle operations.
#[derive(Clone, Copy, PartialEq, Eq, Structural, Debug)]
pub enum Expiration {
    Never,
    AtHeight(u32),
    AtTime(u64),
}

impl Expiration {
    /// Whether the grant has lapsed at the given clock reading. A grant
    /// bound to height `h` lapses once the ledger reaches `h`.
    pub open spec fn spec_is_expired(self, led: Ledger) -> bool {
        match self {
            Expiration::Never => false,
            Expiration::AtHeight(h) => led.sequence >= h,
            Expiration::AtTime(t) => led.timestamp >= t,
        }
    }

    pub fn is_expired(&self, led: &Ledger) -> (r: bool)
        ensures
            r == self.spec_is_expired(*led),
    {
        match self {
            Expiration::Never => false,
            Expiration::AtHeight(h) => led.sequence >= *h,
            Expiration::AtTime(t) => led.timestamp >= *t,
        }
    }
}

/// One per-item approval: `spender` may transfer, burn, or further approve
/// the item until `expires` lapses.
#[derive(Clone, Copy, PartialEq, Eq, Structural, Debug)]
pub struct Approval {
    pub spender: Address,
    pub expires: Expiration,
}

/// Each spender holds at most one approval entry on an item; the order of
/// entries carries no meaning.
pub open spec fn approvals_unique(s: Seq<Approval>) -> bool {
    forall|i: int, j: int| 0 <= i < j < s.len() ==> s[i].spender != s[j].spender
}

/// One uniquely numbered item of the collection.
pub struct TokenInfo {
    pub owner: Address,
    pub approvals: Vec<Approval>,
    pub token_uri: Vec<u8>,
}

impl TokenInfo {
    /// Some approval entry for `spender` is present, lapsed or not.
    pub open spec fn has_approval(self, spender: Address) -> bool {
        exists|i: int|
            0 <= i < self.approvals@.len() && self.approvals@[i].spender == spender
    }

    /// An approval entry for `spender` is present and has not lapsed.
    pub open spec fn approval_allows(self, spender: Address, led: Ledger) -> bool {
        exists|i: int|
            0 <= i < self.approvals@.len() && self.approvals@[i].spender == spender
                && !self.approvals@[i].expires.spec_is_expired(led)
    }

    /// The one authority rule shared by transfer, burn, approve and revoke:
    /// the acting identity is the owner, or holds a live approval.
    pub open spec fn can_operate(self, who: Address, led: Ledger) -> bool {
        who == self.owner || self.approval_allows(who, led)
    }

    pub fn check_can_operate(&self, who: Address, led: &Ledger) -> (r: bool)
        ensures
            r == self.can_operate(who, *led),
    {
        if who == self.owner {
            return true;
        }
        let n: usize = self.approvals.len();
        let mut i: usize = 0;
        while i < n
            invariant
                n == self.approvals@.len(),
                i <= n,
                forall|k: int|
                    0 <= k < i ==> !(self.approvals@[k].spender == who
                        && !self.approvals@[k].expires.spec_is_expired(*led)),
            decreases n - i,
        {
            let a = self.approvals[i];
            if a.spender == who && !a.expires.is_expired(led) {
                return true;
            }
            i += 1;
        }
        false
    }
}

/// The approval entries of `src` that belong to spenders other than
/// `spender`, in their original order.
pub fn approvals_without(src: &Vec<Approval>, spender: Address) -> (out: Vec<Approval>)
    requires
        approvals_unique(src@),
    ensures
        approvals_unique(out@),
        forall|i: int| 0 <= i < out@.len() ==> out@[i].spender != spender,
        forall|i: int| 0 <= i < out@.len() ==> src@.contains(#[trigger] out@[i]),
        forall|j: int|
            0 <= j < src@.len() && src@[j].spender != spender ==> out@.contains(
                #[trigger] src@[j],
            ),
    {
    let n: usize = src.len();
    let mut out: Vec<Approval> = Vec::new();
    let mut i: usize = 0;
    while i < n
        invariant
            approvals_unique(src@),
            approvals_unique(out@),
            n == src@.len(),
            i <= n,
            forall|k: int| 0 <= k < out@.len() ==> out@[k].spender != spender,
            forall|k: int|
                0 <= k < out@.len() ==> exists|j: int| 0 <= j < i && src@[j] == #[trigger] out@[k],
            forall|j: int|
                0 <= j < i && src@[j].spender != spender ==> out@.contains(#[trigger] src@[j]),
        decreases n - i,
    {
        let a = src[i];
        let ghost prev = out@;
        if a.spender != spender {
            out.push(a);
            proof {
                assert forall|j: int| 0 <= j < i + 1 && src@[j].spender != spender implies out@
                    .contains(#[trigger] src@[j]) by {
                    if j < i {
                        let k = choose|k: int| 0 <= k < prev.len() && prev[k] == src@[j];
                        assert(out@[k] == src@[j]);
                    } else {
                        assert(out@[out@.len() - 1] == src@[j]);
                    }
                }
                assert forall|k: int| 0 <= k < out@.len() implies exists|j: int|
                    0 <= j < i + 1 && src@[j] == #[trigger] out@[k] by {
                    if k < prev.len() {
                        assert(out@[k] == prev[k]);
                        let j = choose|j: int| 0 <= j < i && src@[j] == prev[k];
                        assert(src@[j] == out@[k]);
                    } else {
                        assert(src@[i as int] == out@[k]);
                    }
                }
                assert forall|k1: int, k2: int| 0 <= k1 < k2 < out@.len() implies out@[k1].spender
                    != out@[k2].spender by {
                    if k2 == out@.len() - 1 {
                        let j = choose|j: int| 0 <= j < i && src@[j] == prev[k1];
                        assert(src@[j].spender == out@[k1].spender);
                        assert(out@[k2] == src@[i as int]);
                    } else {
                        assert(prev[k1] == out@[k1] && prev[k2] == out@[k2]);
                    }
                }
            }
        }
        i += 1;
    }
    proof {
        assert forall|k: int| 0 <= k < out@.len() implies src@.contains(#[trigger] out@[k]) by {
            let j = choose|j: int| 0 <= j < i && src@[j] == out@[k];
            assert(0 <= j < src@.len() && src@[j] == out@[k]);
        }
    }
    out
}

/// Copies a byte string; the registry rewrites whole item records, as the
/// underlying store does.
pub fn copy_bytes(src: &Vec<u8>) -> (out: Vec<u8>)
    ensures
        out@ == src@,
{
    let n: usize = src.len();
    let mut out: Vec<u8> = Vec::new();
    let mut i: usize = 0;
    while i < n
        invariant
            n == src@.len(),
            i <= n,
            out@ == src@.subrange(0, i as int),
        decreases n - i,
    {
        out.push(src[i]);
        proof {
            assert(out@ =~= src@.subrange(0, i + 1));
        }
        i += 1;
    }
    proof {
        assert(out@ =~= src@);
    }
    out
}

/// Copies an approval list.
pub fn copy_approvals(src: &Vec<Approval>) -> (out: Vec<Approval>)
    ensures
        out@ == src@,
{
    let n: usize = src.len();
    let mut out: Vec<Approval> = Vec::new();
    let mut i: usize = 0;
    while i < n
        invariant
            n == src@.len(),
            i <= n,
            out@ == src@.subrange(0, i as int),
        decreases n - i,
    {
        out.push(src[i]);
        proof {
            assert(out@ =~= src@.subrange(0, i + 1));
        }
        i += 1;
    }
    proof {
        assert(out@ =~= src@);
    }
    out
}

/// Royalty terms: validated as bounded data, never applied to transfers.
#[derive(Clone, Copy, PartialEq, Eq, Structural, Debug)]
pub struct RoyaltyInfo {
    pub recipient: Address,
    pub share: u32,
}

/// The collection's singleton record. `creator` is immutable once set;
/// `admin` gates administrative actions; `minter` gates minting and may be
/// frozen permanently at initialization.
pub struct CollectionInfo {
    pub creator: Address,
    pub admin: Address,
    pub minter: Address,
    pub name: Option<Vec<u8>>,
    pub description: Option<Vec<u8>>,
    pub external_link: Option<Vec<u8>>,
    pub royalty_info: Option<RoyaltyInfo>,
}

/// The bounds a collection record must meet: name, description and link
/// lengths, and the royalty share cap.
pub open spec fn valid_collection_info(c: CollectionInfo) -> bool {
    &&& match c.name {
        Some(n) => n@.len() <= MAX_NAME_LENGTH,
        None => true,
    }
    &&& match c.description {
        Some(d) => d@.len() <= MAX_DESCRIPTION_LENGTH,
        None => true,
    }
    &&& match c.external_link {
        Some(l) => l@.len() <= MAX_LINK_LENGTH,
        None => true,
    }
    &&& match c.royalty_info {
        Some(r) => r.share <= MAX_ROYALTY_SHARE,
        None => true,
    }
}

/// Checks the bounds of `valid_collection_info` on a concrete record.
pub fn collection_info_is_valid(c: &CollectionInfo) -> (r: bool)
    ensures
        r == valid_collection_info(*c),
{
    let name_ok: bool = match &c.name {
        Some(n) => n.len() <= MAX_NAME_LENGTH,
        None => true,
    };
    let description_ok: bool = match &c.description {
        Some(d) => d.len() <= MAX_DESCRIPTION_LENGTH,
        None => true,
    };
    let link_ok: bool = match &c.external_link {
        Some(l) => l.len() <= MAX_LINK_LENGTH,
        None => true,
    };
    let royalty_ok: bool = match &c.royalty_info {
        Some(r) => r.share <= MAX_ROYALTY_SHARE,
        None => true,
    };
    name_ok && description_ok && link_ok && royalty_ok
}

/// A collection-wide operator grant, keyed by the owner/operator pair and
/// carrying the absolute ledger height at which it lapses. Written by
/// `approve_all` and removed by `revoke_all`; no authority check reads it.
#[derive(Clone, Copy, PartialEq, Eq, Structural, Debug)]
pub struct OperatorGrant {
    pub owner: Address,
    pub operator: Address,
    pub expiration: u32,
}

/// At most one grant per owner/operator pair.
pub open spec fn grants_unique(s: Seq<OperatorGrant>) -> bool {
    forall|i: int, j: int|
        0 <= i < j < s.len() ==> !(s[i].owner == s[j].owner && s[i].operator == s[j].operator)
}

/// A grant for the pair is present, lapsed or not.
pub open spec fn has_grant(s: Seq<OperatorGrant>, owner: Address, operator: Address) -> bool {
    exists|i: int| 0 <= i < s.len() && s[i].owner == owner && s[i].operator == operator
}

/// The grants of `src` that belong to pairs other than `(owner, operator)`,
/// in their original order.
pub fn grants_without(src: &Vec<OperatorGrant>, owner: Address, operator: Address) -> (out: Vec<
    OperatorGrant,
>)
    requires
        grants_unique(src@),
    ensures
        grants_unique(out@),
        forall|i: int|
            0 <= i < out@.len() ==> !(out@[i].owner == owner && out@[i].operator == operator),
        forall|i: int| 0 <= i < out@.len() ==> src@.contains(#[trigger] out@[i]),
        forall|j: int|
            0 <= j < src@.len() && !(src@[j].owner == owner && src@[j].operator == operator)
                ==> out@.contains(#[trigger] src@[j]),
    {
    let n: usize = src.len();
    let mut out: Vec<OperatorGrant> = Vec::new();
    let mut i: usize = 0;
    while i < n
        invariant
            grants_unique(src@),
            grants_unique(out@),
            n == src@.len(),
            i <= n,
            forall|k: int|
                0 <= k < out@.len() ==> !(out@[k].owner == owner && out@[k].operator == operator),
            forall|k: int|
                0 <= k < out@.len() ==> exists|j: int| 0 <= j < i && src@[j] == #[trigger] out@[k],
            forall|j: int|
                0 <= j < i && !(src@[j].owner == owner && src@[j].operator == operator)
                    ==> out@.contains(#[trigger] src@[j]),
        decreases n - i,
    {
        let g = src[i];
        let ghost prev = out@;
        if !(g.owner == owner && g.operator == operator) {
            out.push(g);
            proof {
                assert forall|j: int|
                    0 <= j < i + 1 && !(src@[j].owner == owner && src@[j].operator == operator)
                        implies out@.contains(#[trigger] src@[j]) by {
                    if j < i {
                        let k = choose|k: int| 0 <= k < prev.len() && prev[k] == src@[j];
                        assert(out@[k] == src@[j]);
                    } else {
                        assert(out@[out@.len() - 1] == src@[j]);
                    }
                }
                assert forall|k: int| 0 <= k < out@.len() implies exists|j: int|
                    0 <= j < i + 1 && src@[j] == #[trigger] out@[k] by {
                    if k < prev.len() {
                        assert(out@[k] == prev[k]);
                        let j = choose|j: int| 0 <= j < i && src@[j] == prev[k];
                        assert(src@[j] == out@[k]);
                    } else {
                        assert(src@[i as int] == out@[k]);
                    }
                }
                assert forall|k1: int, k2: int| 0 <= k1 < k2 < out@.len() implies !(out@[k1].owner
                    == out@[k2].owner && out@[k1].operator == out@[k2].operator) by {
                    if k2 == out@.len() - 1 {
                        let j = choose|j: int| 0 <= j < i && src@[j] == prev[k1];
                        assert(src@[j] == out@[k1]);
                        assert(out@[k2] == src@[i as int]);
                    } else {
                        assert(prev[k1] == out@[k1] && prev[k2] == out@[k2]);
                    }
                }
            }
        }
        i += 1;
    }
    proof {
        assert forall|k: int| 0 <= k < out@.len() implies src@.contains(#[trigger] out@[k]) by {
            let j = choose|j: int| 0 <= j < i && src@[j] == out@[k];
            assert(0 <= j < src@.len() && src@[j] == out@[k]);
        }
    }
    out
}

/// Why a call was rejected. Every failure leaves the registry unchanged.
#[derive(Clone, Copy, PartialEq, Eq, Structural, Debug)]
pub enum Error {
    /// `initialize` was called on an initialized registry.
    AlreadyInitialized,
    /// The operation needs the collection record, which does not exist yet.
    NotInitialized,
    /// The named item does not exist (never minted, or burned).
    NotNFT,
    /// The item id is already taken.
    AlreadyMinted,
    /// The acting identity is neither the owner nor a live approved spender,
    /// or a supplied expiration has already lapsed.
    NotAuthorized,
    /// The collection is frozen; metadata mutation is permanently disabled.
    Frozen,
    /// The minter role is frozen and may not be changed.
    MinterFrozen,
    /// A bounded field exceeds its limit, or an immutable field was changed.
    InvalidCollectionInfo,
}

} // verus!
