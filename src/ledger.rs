//! The world ledger: resource records keyed by exact keys, role grants and
//! authority-role assignments.
use crate::error::Rejection;
use crate::keys::{
    captures_exact, resolve_key, AccountK, AccountAssetK, AccountPermissionK, Capture, ExactV,
    FlexNodeKey, FlexV, FuzzyV, NodeKey, PermissionK, Resolve,
};
use crate::tree::{
    has_key, key_index, lemma_key_index, lemma_push_unique, lemma_update_unique, unique_keys,
    AccountAssetV, AccountAssetW, AllowSet, NodeValue, ReadSet, Tree, ViewSet, WriteSet,
};
use vstd::prelude::*;

verus! {

/// The grants of one role.
#[derive(Debug, Clone, PartialEq, Eq)]
pub struct PermissionV {
    pub permission: AllowSet,
}

/// The committed state.
#[derive(Debug, Clone, PartialEq, Eq)]
pub struct World {
    /// Role to its grants.
    pub permission: Vec<(PermissionK, PermissionV)>,
    /// Account-asset key to its record.
    pub account_asset: Vec<(AccountAssetK, AccountAssetV)>,
    /// Pairs (authority, role): the authority holds the role.
    pub account_permission: Vec<AccountPermissionK>,
}

/// A record list as keys and values.
pub open spec fn record_model(v: Seq<(AccountAssetK, AccountAssetV)>) -> Seq<(ExactV, AccountAssetV)> {
    v.map_values(|e: (AccountAssetK, AccountAssetV)| (e.0@, e.1))
}

/// Some requested pattern captures the key.
pub open spec fn captured_by_any(request: Seq<FuzzyV>, k: ExactV) -> bool {
    exists|j: int| 0 <= j < request.len() && captures_exact(request[j], k)
}

/// The records that a request may disclose.
pub open spec fn disclosed(request: Seq<FuzzyV>) -> spec_fn((ExactV, AccountAssetV)) -> bool {
    |e: (ExactV, AccountAssetV)| captured_by_any(request, e.0)
}

/// `x + y`, or the largest `u32` where the sum exceeds it.
pub open spec fn sat_add(x: u32, y: u32) -> u32 {
    if x + y > u32::MAX {
        u32::MAX
    } else {
        (x + y) as u32
    }
}

/// One balance change on the records: Receive creates a record or adds to it,
/// saturating; Send needs a record holding at least the amount.
pub open spec fn apply_op(s: Seq<(ExactV, AccountAssetV)>, k: ExactV, w: AccountAssetW) -> Option<
    Seq<(ExactV, AccountAssetV)>,
> {
    let i = key_index(s, k);
    match w {
        AccountAssetW::Receive(a) => if i >= 0 {
            Some(s.update(i, (k, AccountAssetV { balance: sat_add(s[i].1.balance, a) })))
        } else {
            Some(s.push((k, AccountAssetV { balance: a })))
        },
        AccountAssetW::Send(a) => if i >= 0 && s[i].1.balance >= a {
            Some(s.update(i, (k, AccountAssetV { balance: (s[i].1.balance - a) as u32 })))
        } else {
            None
        },
    }
}

/// Balance changes applied in order; `None` where one of them cannot be.
pub open spec fn apply_ops(s: Seq<(ExactV, AccountAssetV)>, ops: Seq<(ExactV, AccountAssetW)>) -> Option<
    Seq<(ExactV, AccountAssetV)>,
>
    decreases ops.len(),
{
    if ops.len() == 0 {
        Some(s)
    } else {
        match apply_op(s, ops[0].0, ops[0].1) {
            Some(t) => apply_ops(t, ops.drop_first()),
            None => None,
        }
    }
}

/// Write intents with `This` resolved against the authority.
pub open spec fn resolve_ops(w: Seq<(FlexV, AccountAssetW)>, this: Seq<char>) -> Seq<
    (ExactV, AccountAssetW),
> {
    w.map_values(|e: (FlexV, AccountAssetW)| (resolve_key(e.0, this), e.1))
}

proof fn lemma_apply_op_unique(s: Seq<(ExactV, AccountAssetV)>, k: ExactV, w: AccountAssetW)
    requires
        unique_keys(s),
    ensures
        apply_op(s, k, w) matches Some(t) ==> unique_keys(t),
{
    let i = key_index(s, k);
    if i >= 0 {
        assert(0 <= i < s.len() && s[i].0 == k);
        match w {
            AccountAssetW::Receive(a) => lemma_update_unique(
                s,
                i,
                AccountAssetV { balance: sat_add(s[i].1.balance, a) },
            ),
            AccountAssetW::Send(a) => if s[i].1.balance >= a {
                lemma_update_unique(s, i, AccountAssetV { balance: (s[i].1.balance - a) as u32 })
            },
        }
    } else {
        lemma_push_unique(s, k, AccountAssetV { balance: 0 });
        match w {
            AccountAssetW::Receive(a) => lemma_push_unique(s, k, AccountAssetV { balance: a }),
            AccountAssetW::Send(_) => {},
        }
    }
}

/// The position of a key among records with unique keys.
fn find_record(records: &Vec<(AccountAssetK, AccountAssetV)>, key: &AccountAssetK) -> (r: Option<
    usize,
>)
    requires
        unique_keys(record_model(records@)),
    ensures
        ({
            let s = record_model(records@);
            match r {
                Some(i) => i < records.len() && key_index(s, key@) == i,
                None => key_index(s, key@) == -1,
            }
        }),
{
    let ghost s = record_model(records@);
    let mut i: usize = 0;
    while i < records.len()
        invariant
            i <= records.len(),
            s == record_model(records@),
            unique_keys(s),
            forall|j: int| 0 <= j < i ==> s[j].0 != key@,
        decreases records.len() - i,
    {
        let k = &records[i].0;
        if k.0 == key.0 && k.1 == key.1 {
            proof {
                lemma_key_index(s, i as int);
            }
            return Some(i);
        }
        i = i + 1;
    }
    assert(!has_key(s, key@));
    None
}

fn copy_records(v: &Vec<(AccountAssetK, AccountAssetV)>) -> (r: Vec<(AccountAssetK, AccountAssetV)>)
    ensures
        r@ == v@,
{
    let mut r: Vec<(AccountAssetK, AccountAssetV)> = Vec::new();
    let mut i: usize = 0;
    while i < v.len()
        invariant
            i <= v.len(),
            r@ == v@.subrange(0, i as int),
        decreases v.len() - i,
    {
        r.push((v[i].0.duplicate(), AccountAssetV { balance: v[i].1.balance }));
        i = i + 1;
        assert(r@ =~= v@.subrange(0, i as int));
    }
    assert(v@.subrange(0, v.len() as int) =~= v@);
    r
}

impl World {
    /// The records, as keys and values.
    pub open spec fn records(&self) -> Seq<(ExactV, AccountAssetV)> {
        record_model(self.account_asset@)
    }

    /// Each record key occurs once.
    pub open spec fn wf(&self) -> bool {
        unique_keys(self.records())
    }

    /// Whether each record key occurs once.
    pub fn is_well_formed(&self) -> (r: bool)
        ensures
            r == self.wf(),
    {
        let ghost s = self.records();
        let n = self.account_asset.len();
        let mut i: usize = 0;
        while i < n
            invariant
                n == self.account_asset.len(),
                s == self.records(),
                i <= n,
                forall|a: int, b: int| 0 <= a < b < n && a < i ==> s[a].0 != s[b].0,
            decreases n - i,
        {
            let mut j: usize = i + 1;
            while j < n
                invariant
                    n == self.account_asset.len(),
                    s == self.records(),
                    i < n,
                    i + 1 <= j <= n,
                    forall|a: int, b: int| 0 <= a < b < n && a < i ==> s[a].0 != s[b].0,
                    forall|b: int| i < b < j ==> s[i as int].0 != s[b].0,
                decreases n - j,
            {
                let x = &self.account_asset[i].0;
                let y = &self.account_asset[j].0;
                if x.0 == y.0 && x.1 == y.1 {
                    assert(s[i as int].0 == s[j as int].0);
                    return false;
                }
                j = j + 1;
            }
            i = i + 1;
        }
        true
    }

    /// Every record captured by at least one requested pattern, in ledger
    /// order; nothing else is disclosed.
    pub fn read(&self, request: &ReadSet) -> (r: ViewSet)
        ensures
            r.entries() == self.records().filter(disclosed(request.patterns())),
    {
        let ghost pred = disclosed(request.patterns());
        let ghost s = self.records();
        let mut out: Vec<(NodeKey, NodeValue<crate::tree::StateView>)> = Vec::new();
        let mut i: usize = 0;
        while i < self.account_asset.len()
            invariant
                i <= self.account_asset.len(),
                s == self.records(),
                pred == disclosed(request.patterns()),
                Tree(out).entries() == s.subrange(0, i as int).filter(pred),
            decreases self.account_asset.len() - i,
        {
            let (key, value) = &self.account_asset[i];
            let mut captured = false;
            let mut j: usize = 0;
            while j < request.0.len()
                invariant
                    j <= request.0.len(),
                    request.patterns().len() == request.0.len(),
                    captured == exists|t: int|
                        0 <= t < j && captures_exact(request.patterns()[t], key@),
                decreases request.0.len() - j,
            {
                assert(request.patterns()[j as int] == request.0@[j as int].0@);
                if request.0[j].0.captures(&NodeKey::AccountAsset(key.duplicate())) {
                    captured = true;
                }
                j = j + 1;
            }
            proof {
                reveal(Seq::filter);
                assert(s.subrange(0, i + 1).drop_last() =~= s.subrange(0, i as int));
                assert(s[i as int] == (key@, *value));
                assert(s.subrange(0, i + 1).last() == s[i as int]);
                assert(j == request.0.len());
                assert(captured_by_any(request.patterns(), key@) == captured);
                assert(pred(s[i as int]) == captured);
            }
            if captured {
                out.push(
                    (
                        NodeKey::AccountAsset(key.duplicate()),
                        NodeValue::AccountAsset(AccountAssetV { balance: value.balance }),
                    ),
                );
                assert(Tree(out).entries() =~= s.subrange(0, i + 1).filter(pred));
            } else {
                assert(Tree(out).entries() =~= s.subrange(0, i + 1).filter(pred));
            }
            i = i + 1;
        }
        assert(s.subrange(0, s.len() as int) =~= s);
        Tree(out)
    }

    /// Applies the balance changes in order, with `This` resolved against the
    /// authority, as one atomic batch: where a Send cannot be met nothing
    /// changes and the result is `InsufficientBalance`.
    pub fn write(&mut self, request: &WriteSet, authority: &AccountK) -> (r: Result<(), Rejection>)
        requires
            old(self).wf(),
        ensures
            final(self).wf(),
            final(self).permission == old(self).permission,
            final(self).account_permission == old(self).account_permission,
            match apply_ops(old(self).records(), resolve_ops(request.entries(), authority.0@)) {
                Some(t) => r is Ok && final(self).records() == t,
                None => r == Err::<(), Rejection>(Rejection::InsufficientBalance) && *final(self)
                    == *old(self),
            },
    {
        let ghost ops = resolve_ops(request.entries(), authority.0@);
        let ghost start = self.records();
        let mut next = copy_records(&self.account_asset);
        assert(ops.subrange(0, ops.len() as int) =~= ops);
        let mut i: usize = 0;
        while i < request.0.len()
            invariant
                i <= request.0.len(),
                *self == *old(self),
                self.wf(),
                ops == resolve_ops(request.entries(), authority.0@),
                start == self.records(),
                unique_keys(record_model(next@)),
                apply_ops(start, ops) == apply_ops(record_model(next@), ops.subrange(i as int, ops.len() as int)),
            decreases request.0.len() - i,
        {
            let ghost before = record_model(next@);
            let (flex, value) = &request.0[i];
            let NodeValue::AccountAsset(change) = value;
            let FlexNodeKey::AccountAsset(flex) = flex.duplicate();
            let key = flex.resolve(authority.0.clone());
            proof {
                let rest = ops.subrange(i as int, ops.len() as int);
                assert(rest[0] == ops[i as int]);
                assert(rest.drop_first() =~= ops.subrange(i + 1, ops.len() as int));
                assert(ops[i as int] == (key@, *change));
                lemma_apply_op_unique(before, key@, *change);
            }
            let found = find_record(&next, &key);
            match change {
                AccountAssetW::Receive(amount) => {
                    match found {
                        Some(j) => {
                            let balance = next[j].1.balance.saturating_add(*amount);
                            next.set(j, (key, AccountAssetV { balance }));
                        },
                        None => {
                            next.push((key, AccountAssetV { balance: *amount }));
                        },
                    }
                },
                AccountAssetW::Send(amount) => {
                    match found {
                        Some(j) => {
                            if next[j].1.balance < *amount {
                                return Err(Rejection::InsufficientBalance);
                            }
                            let balance = next[j].1.balance - *amount;
                            next.set(j, (key, AccountAssetV { balance }));
                        },
                        None => {
                            return Err(Rejection::InsufficientBalance);
                        },
                    }
                },
            }
            assert(record_model(next@) =~= apply_op(before, key@, *change)->Some_0);
            i = i + 1;
        }
        assert(ops.subrange(ops.len() as int, ops.len() as int) =~= Seq::<(ExactV, AccountAssetW)>::empty());
        self.account_asset = next;
        Ok(())
    }
}

/// A Send larger than the stored balance, or with no record to send from,
/// fails and so changes nothing; a Receive never fails, and leaves the record
/// at the saturated sum, or at the amount where there was none.
pub proof fn lemma_balance_changes(s: Seq<(ExactV, AccountAssetV)>, k: ExactV, amount: u32)
    requires
        unique_keys(s),
    ensures
        (!has_key(s, k) || s[key_index(s, k)].1.balance < amount) ==> apply_ops(
            s,
            seq![(k, AccountAssetW::Send(amount))],
        ) is None,
        apply_ops(s, seq![(k, AccountAssetW::Receive(amount))]) matches Some(t) && has_key(t, k)
            && t[key_index(t, k)].1.balance == if has_key(s, k) {
            sat_add(s[key_index(s, k)].1.balance, amount)
        } else {
            amount
        },
{
    let send = seq![(k, AccountAssetW::Send(amount))];
    let receive = seq![(k, AccountAssetW::Receive(amount))];
    assert(send[0] == (k, AccountAssetW::Send(amount)));
    assert(receive[0] == (k, AccountAssetW::Receive(amount)));
    assert(send.drop_first().len() == 0);
    assert(receive.drop_first().len() == 0);
    lemma_apply_op_unique(s, k, AccountAssetW::Receive(amount));
    let t = apply_op(s, k, AccountAssetW::Receive(amount))->Some_0;
    assert(apply_ops(t, receive.drop_first()) == Some(t));
    assert(apply_ops(s, receive) == Some(t));
    let i = key_index(s, k);
    if i >= 0 {
        assert(0 <= i < s.len() && s[i].0 == k);
        assert(has_key(s, k));
        assert(t[i].0 == k);
        lemma_key_index(t, i);
    } else {
        assert(t[s.len() as int].0 == k);
        lemma_key_index(t, s.len() as int);
    }
}

} // verus!
