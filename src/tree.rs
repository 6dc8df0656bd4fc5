//! Operation modes, the values each mode attaches to a key, and the keyed
//! collections ("trees") that carry requests, views, writes, events and grants.
use crate::keys::{
    ExactV, FlexFuzzyNodeKey, FlexFuzzyV, FlexNodeKey, FlexV, FuzzyNodeKey, FuzzyV, NodeKey,
};
use vstd::prelude::*;

verus! {

/// What a mode attaches to an account-asset key.
pub trait Mode {
    type AccountAsset: std::fmt::Debug + Clone + PartialEq + Eq;
}

#[derive(Debug, Clone, PartialEq, Eq)]
pub enum NodeValue<T: Mode> {
    AccountAsset(T::AccountAsset),
}

impl<T: Mode> NodeValue<T> {
    pub open spec fn value(self) -> T::AccountAsset {
        match self {
            NodeValue::AccountAsset(v) => v,
        }
    }
}

/// Entries keyed by exact keys.
#[derive(Debug, Clone, PartialEq, Eq)]
pub struct Tree<T: Mode>(pub Vec<(NodeKey, NodeValue<T>)>);

/// Entries keyed by flex keys.
#[derive(Debug, Clone, PartialEq, Eq)]
pub struct FlexTree<T: Mode>(pub Vec<(FlexNodeKey, NodeValue<T>)>);

/// Entries keyed by patterns.
#[derive(Debug, Clone, PartialEq, Eq)]
pub struct FuzzyTree<T: Mode>(pub Vec<(FuzzyNodeKey, NodeValue<T>)>);

/// Entries keyed by flex patterns.
#[derive(Debug, Clone, PartialEq, Eq)]
pub struct FlexFuzzyTree<T: Mode>(pub Vec<(FlexFuzzyNodeKey, NodeValue<T>)>);

impl<T: Mode> Tree<T> {
    pub open spec fn entries(&self) -> Seq<(ExactV, T::AccountAsset)> {
        self.0@.map_values(|e: (NodeKey, NodeValue<T>)| (e.0@, e.1.value()))
    }
}

impl<T: Mode> FlexTree<T> {
    pub open spec fn entries(&self) -> Seq<(FlexV, T::AccountAsset)> {
        self.0@.map_values(|e: (FlexNodeKey, NodeValue<T>)| (e.0@, e.1.value()))
    }
}

impl<T: Mode> FuzzyTree<T> {
    pub open spec fn entries(&self) -> Seq<(FuzzyV, T::AccountAsset)> {
        self.0@.map_values(|e: (FuzzyNodeKey, NodeValue<T>)| (e.0@, e.1.value()))
    }

    /// The patterns alone, in order.
    pub open spec fn patterns(&self) -> Seq<FuzzyV> {
        self.0@.map_values(|e: (FuzzyNodeKey, NodeValue<T>)| e.0@)
    }
}

impl<T: Mode> FlexFuzzyTree<T> {
    pub open spec fn entries(&self) -> Seq<(FlexFuzzyV, T::AccountAsset)> {
        self.0@.map_values(|e: (FlexFuzzyNodeKey, NodeValue<T>)| (e.0@, e.1.value()))
    }
}

// ---------------------------------------------------------------------------
// Modes and their values
/// Read mode: a requested pattern carries no value.
#[derive(Debug, Clone, PartialEq, Eq)]
pub struct Read;

#[derive(Debug, Clone, PartialEq, Eq)]
pub struct AccountAssetR;

impl Mode for Read {
    type AccountAsset = AccountAssetR;
}

/// View mode: what the ledger discloses of a record.
#[derive(Debug, Clone, PartialEq, Eq)]
pub struct StateView;

#[derive(Debug, Clone, PartialEq, Eq)]
pub struct AccountAssetV {
    pub balance: u32,
}

impl Mode for StateView {
    type AccountAsset = AccountAssetV;
}

/// Write mode: a signed change of a balance.
#[derive(Debug, Clone, PartialEq, Eq)]
pub struct Write;

#[derive(Debug, Clone, Copy, PartialEq, Eq)]
pub enum AccountAssetW {
    Send(u32),
    Receive(u32),
}

impl Mode for Write {
    type AccountAsset = AccountAssetW;
}

/// Event mode: the single-bit classification of an operation.
#[derive(Debug, Clone, PartialEq, Eq)]
pub struct Event;

#[derive(Debug, Clone, Copy, PartialEq, Eq)]
pub enum AccountAssetE {
    Read,
    Receive,
    Send,
    Mint,
    Burn,
}

pub const READ_BIT: u8 = 0b0000_0001;

pub const RECEIVE_BIT: u8 = 0b0000_0010;

pub const SEND_BIT: u8 = 0b0000_0100;

pub const MINT_BIT: u8 = 0b0001_0000;

pub const BURN_BIT: u8 = 0b0010_0000;

impl AccountAssetE {
    pub open spec fn spec_status_bit(self) -> u8 {
        match self {
            AccountAssetE::Read => READ_BIT,
            AccountAssetE::Receive => RECEIVE_BIT,
            AccountAssetE::Send => SEND_BIT,
            AccountAssetE::Mint => MINT_BIT,
            AccountAssetE::Burn => BURN_BIT,
        }
    }

    /// The bit that stands for this operation in a capability's mask.
    pub fn status_bit(&self) -> (r: u8)
        ensures
            r == self.spec_status_bit(),
    {
        match self {
            AccountAssetE::Read => READ_BIT,
            AccountAssetE::Receive => RECEIVE_BIT,
            AccountAssetE::Send => SEND_BIT,
            AccountAssetE::Mint => MINT_BIT,
            AccountAssetE::Burn => BURN_BIT,
        }
    }

    /// The operation a status bit stands for; `None` for any other value.
    pub fn from_status_bit(bit: u8) -> (r: Option<AccountAssetE>)
        ensures
            match r {
                Some(e) => e.spec_status_bit() == bit,
                None => bit != READ_BIT && bit != RECEIVE_BIT && bit != SEND_BIT && bit != MINT_BIT
                    && bit != BURN_BIT,
            },
    {
        if bit == READ_BIT {
            Some(AccountAssetE::Read)
        } else if bit == RECEIVE_BIT {
            Some(AccountAssetE::Receive)
        } else if bit == SEND_BIT {
            Some(AccountAssetE::Send)
        } else if bit == MINT_BIT {
            Some(AccountAssetE::Mint)
        } else if bit == BURN_BIT {
            Some(AccountAssetE::Burn)
        } else {
            None
        }
    }
}

impl Mode for Event {
    type AccountAsset = AccountAssetE;
}

/// Allow mode: the operations a grant permits, as a bitmask.
#[derive(Debug, Clone, PartialEq, Eq)]
pub struct Allow;

#[derive(Debug, Clone, Copy, PartialEq, Eq)]
pub struct AccountAssetA {
    pub bit_mask: u8,
}

impl Mode for Allow {
    type AccountAsset = AccountAssetA;
}

/// Patterns an instruction asks to read.
pub type ReadSet = FuzzyTree<Read>;

/// Records disclosed to an instruction.
pub type ViewSet = Tree<StateView>;

/// Intended balance changes, keyed by unresolved keys.
pub type WriteSet = FlexTree<Write>;

/// Classified operations on resolved keys.
pub type EventSet = Tree<Event>;

/// Capability grants: pattern to bitmask.
pub type AllowSet = FlexFuzzyTree<Allow>;

// ---------------------------------------------------------------------------
// Sequences of keyed entries
/// No two entries share a key.
pub open spec fn unique_keys<K, V>(s: Seq<(K, V)>) -> bool {
    forall|i: int, j: int| 0 <= i < j < s.len() ==> s[i].0 != s[j].0
}

/// Some entry has key `k`.
pub open spec fn has_key<K, V>(s: Seq<(K, V)>, k: K) -> bool {
    exists|i: int| 0 <= i < s.len() && s[i].0 == k
}

/// The position of the entry with key `k`, or -1 where there is none.
pub open spec fn key_index<K, V>(s: Seq<(K, V)>, k: K) -> int {
    if has_key(s, k) {
        choose|i: int| 0 <= i < s.len() && s[i].0 == k
    } else {
        -1
    }
}

/// Under unique keys the position of a key is the one where it stands.
pub proof fn lemma_key_index<K, V>(s: Seq<(K, V)>, i: int)
    requires
        unique_keys(s),
        0 <= i < s.len(),
    ensures
        key_index(s, s[i].0) == i,
{
    let k = s[i].0;
    assert(has_key(s, k));
    let j = key_index(s, k);
    assert(0 <= j < s.len() && s[j].0 == k);
}

/// Replacing the value at a key's position keeps keys unique.
pub proof fn lemma_update_unique<K, V>(s: Seq<(K, V)>, i: int, v: V)
    requires
        unique_keys(s),
        0 <= i < s.len(),
    ensures
        unique_keys(s.update(i, (s[i].0, v))),
{
    let t = s.update(i, (s[i].0, v));
    assert forall|a: int, b: int| 0 <= a < b < t.len() implies t[a].0 != t[b].0 by {
        assert(t[a].0 == s[a].0 && t[b].0 == s[b].0);
    }
}

/// Appending a new key keeps keys unique.
pub proof fn lemma_push_unique<K, V>(s: Seq<(K, V)>, k: K, v: V)
    requires
        unique_keys(s),
        !has_key(s, k),
    ensures
        unique_keys(s.push((k, v))),
{
    let t = s.push((k, v));
    assert forall|a: int, b: int| 0 <= a < b < t.len() implies t[a].0 != t[b].0 by {
        if b == s.len() {
            assert(s[a].0 != k);
        }
    }
}

} // verus!
