//! Account identifiers and the plain records that pool operations hand out.

use vstd::prelude::*;

verus! {

/// The two kinds of account that can hold assets.
#[derive(Clone, Copy, Debug, PartialEq, Eq, Hash, Structural)]
pub enum AddressKind {
    /// An account controlled by a key pair.
    Account,
    /// An account controlled by a deployed program.
    Contract,
}

/// An account identifier: a kind and a 256-bit key, held as two words.
///
/// Two addresses are the same account exactly when all three fields agree.
#[derive(Clone, Copy, Debug, PartialEq, Eq, Hash, Structural)]
pub struct Address {
    pub kind: AddressKind,
    pub hi: u128,
    pub lo: u128,
}

impl AddressKind {
    /// The rank of a kind in the canonical order: accounts come first.
    pub open spec fn rank(self) -> int {
        match self {
            AddressKind::Account => 0,
            AddressKind::Contract => 1,
        }
    }
}

impl Address {
    /// The canonical strict order on addresses: by kind, then by the high
    /// word of the key, then by the low word.
    pub open spec fn spec_precedes(self, other: Address) -> bool {
        self.kind.rank() < other.kind.rank() || (self.kind == other.kind && (self.hi < other.hi
            || (self.hi == other.hi && self.lo < other.lo)))
    }

    /// The address of a key-controlled account.
    pub fn account(hi: u128, lo: u128) -> (a: Address)
        ensures
            a == (Address { kind: AddressKind::Account, hi, lo }),
    {
        Address { kind: AddressKind::Account, hi, lo }
    }

    /// The address of a program-controlled account.
    pub fn contract(hi: u128, lo: u128) -> (a: Address)
        ensures
            a == (Address { kind: AddressKind::Contract, hi, lo }),
    {
        Address { kind: AddressKind::Contract, hi, lo }
    }

    /// Whether `self` comes strictly before `other` in the canonical order.
    pub fn precedes(&self, other: &Address) -> (b: bool)
        ensures
            b == self.spec_precedes(*other),
    {
        let self_first = match (self.kind, other.kind) {
            (AddressKind::Account, AddressKind::Contract) => true,
            _ => false,
        };
        self_first || (self.kind == other.kind && (self.hi < other.hi || (self.hi == other.hi
            && self.lo < other.lo)))
    }
}

/// The canonical order is total: of two different addresses exactly one
/// precedes the other, and no address precedes itself.
pub proof fn lemma_order_is_total(a: Address, b: Address)
    ensures
        a == b ==> !a.spec_precedes(b) && !b.spec_precedes(a),
        a != b ==> (a.spec_precedes(b) <==> !b.spec_precedes(a)),
{
}

/// The canonical order is transitive.
pub proof fn lemma_order_is_transitive(a: Address, b: Address, c: Address)
    requires
        a.spec_precedes(b),
        b.spec_precedes(c),
    ensures
        a.spec_precedes(c),
{
}

/// Two asset identifiers in canonical order: the one that precedes the other
/// comes first. Equal identifiers are returned as they are.
pub fn sort_tokens(token_a: &Address, token_b: &Address) -> (pair: (Address, Address))
    ensures
        pair == if token_a.spec_precedes(*token_b) {
            (*token_a, *token_b)
        } else {
            (*token_b, *token_a)
        },
        *token_a != *token_b ==> pair.0.spec_precedes(pair.1),
{
    if token_a.precedes(token_b) {
        (*token_a, *token_b)
    } else {
        (*token_b, *token_a)
    }
}

/// A snapshot of a pool: its two assets, their reserves, the outstanding
/// share supply and the swap fee.
#[derive(Clone, Copy, Debug, PartialEq, Eq, Structural)]
pub struct PairInfo {
    pub token_a: Address,
    pub token_b: Address,
    pub reserve_a: i128,
    pub reserve_b: i128,
    pub total_shares: i128,
    pub fee_bps: u32,
}

/// An instruction to move `amount` of the asset `asset` from the account
/// `from` to the account `to`.
#[derive(Clone, Copy, Debug, PartialEq, Eq, Structural)]
pub struct AssetTransfer {
    pub asset: Address,
    pub from: Address,
    pub to: Address,
    pub amount: i128,
}

} // verus!
