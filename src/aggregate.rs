//! The write aggregator: merges same-key intents of the same kind by summing
//! their amounts, and rejects a batch that mixes Receive and Send on one key.
use crate::error::Rejection;
use crate::keys::{same_flex, FlexNodeKey, FlexV};
use crate::tree::{
    has_key, key_index, lemma_key_index, lemma_push_unique, lemma_update_unique, unique_keys,
    AccountAssetW, FlexTree, NodeValue, Write, WriteSet,
};
use vstd::prelude::*;

verus! {

/// Adds one intent to merged intents: appended under a new key, summed with an
/// intent of the same kind under the same key, rejected against the other kind.
pub open spec fn merge_intent(
    acc: Result<Seq<(FlexV, AccountAssetW)>, Rejection>,
    e: (FlexV, AccountAssetW),
) -> Result<Seq<(FlexV, AccountAssetW)>, Rejection> {
    match acc {
        Err(x) => Err(x),
        Ok(s) => {
            let i = key_index(s, e.0);
            if i < 0 {
                Ok(s.push(e))
            } else {
                match (s[i].1, e.1) {
                    (AccountAssetW::Receive(a), AccountAssetW::Receive(b)) => if a + b > u32::MAX {
                        Err(Rejection::AmountOverflow)
                    } else {
                        Ok(s.update(i, (e.0, AccountAssetW::Receive((a + b) as u32))))
                    },
                    (AccountAssetW::Send(a), AccountAssetW::Send(b)) => if a + b > u32::MAX {
                        Err(Rejection::AmountOverflow)
                    } else {
                        Ok(s.update(i, (e.0, AccountAssetW::Send((a + b) as u32))))
                    },
                    _ => Err(Rejection::AggregationConflict),
                }
            }
        },
    }
}

/// Intents summed in order of arrival, each key kept where it first occurs.
pub open spec fn sum_intents(w: Seq<(FlexV, AccountAssetW)>) -> Result<
    Seq<(FlexV, AccountAssetW)>,
    Rejection,
>
    decreases w.len(),
{
    if w.len() == 0 {
        Ok(Seq::empty())
    } else {
        merge_intent(sum_intents(w.drop_last()), w.last())
    }
}

/// The intent adds to a balance.
pub open spec fn is_receive(w: AccountAssetW) -> bool {
    w is Receive
}

/// Some key carries both a Receive and a Send.
pub open spec fn mixes_kinds(w: Seq<(FlexV, AccountAssetW)>) -> bool {
    exists|i: int, j: int|
        0 <= i < w.len() && 0 <= j < w.len() && #[trigger] w[i].0 == #[trigger] w[j].0
            && is_receive(w[i].1) != is_receive(w[j].1)
}

/// The merged intents: `AggregationConflict` where some key mixes Receive and
/// Send, whatever the order; otherwise the same-kind sums in order of first
/// occurrence, or `AmountOverflow` where a key's sum exceeds `u32::MAX`.
pub open spec fn aggregate_intents(w: Seq<(FlexV, AccountAssetW)>) -> Result<
    Seq<(FlexV, AccountAssetW)>,
    Rejection,
> {
    if mixes_kinds(w) {
        Err(Rejection::AggregationConflict)
    } else {
        sum_intents(w)
    }
}

proof fn lemma_merge_intent_unique(s: Seq<(FlexV, AccountAssetW)>, e: (FlexV, AccountAssetW))
    requires
        unique_keys(s),
    ensures
        merge_intent(Ok(s), e) matches Ok(t) ==> unique_keys(t),
{
    let i = key_index(s, e.0);
    if i >= 0 {
        assert(0 <= i < s.len() && s[i].0 == e.0);
        match (s[i].1, e.1) {
            (AccountAssetW::Receive(a), AccountAssetW::Receive(b)) => {
                lemma_update_unique(s, i, AccountAssetW::Receive((a + b) as u32));
            },
            (AccountAssetW::Send(a), AccountAssetW::Send(b)) => {
                lemma_update_unique(s, i, AccountAssetW::Send((a + b) as u32));
            },
            _ => {},
        }
    } else {
        lemma_push_unique(s, e.0, e.1);
    }
}

/// Once a prefix is rejected, so is every longer prefix, for the same reason.
proof fn lemma_aggregate_rejected(w: Seq<(FlexV, AccountAssetW)>, n: int, m: int)
    requires
        0 <= n <= m <= w.len(),
        sum_intents(w.subrange(0, n)) is Err,
    ensures
        sum_intents(w.subrange(0, m)) == sum_intents(w.subrange(0, n)),
    decreases m - n,
{
    if m > n {
        lemma_aggregate_rejected(w, n, m - 1);
        assert(w.subrange(0, m).drop_last() =~= w.subrange(0, m - 1));
    }
}

/// The summing fold only reports a conflict where the intents mix kinds, and
/// every merged entry carries the key and kind of some intent.
proof fn lemma_sum_kinds(w: Seq<(FlexV, AccountAssetW)>)
    ensures
        sum_intents(w) matches Ok(s) ==> forall|k: int|
            0 <= k < s.len() ==> kind_seen(w, w.len() as int, #[trigger] s[k]),
        sum_intents(w) == Err::<Seq<(FlexV, AccountAssetW)>, _>(Rejection::AggregationConflict)
            ==> mixes_kinds(w),
    decreases w.len(),
{
    if w.len() > 0 {
        let p = w.drop_last();
        let e = w.last();
        let n = w.len() - 1;
        lemma_sum_kinds(p);
        assert forall|t: int| 0 <= t < n implies #[trigger] w[t] == p[t] by {}
        match sum_intents(p) {
            Err(x) => {
                if x == Rejection::AggregationConflict {
                    let (a, b) = choose|a: int, b: int|
                        0 <= a < p.len() && 0 <= b < p.len() && #[trigger] p[a].0 == #[trigger] p[b].0
                            && is_receive(p[a].1) != is_receive(p[b].1);
                    assert(w[a].0 == w[b].0);
                }
            },
            Ok(s) => {
                let i = key_index(s, e.0);
                if i >= 0 {
                    assert(0 <= i < s.len() && s[i].0 == e.0);
                    assert(kind_seen(p, n, s[i]));
                    let t = choose|t: int|
                        0 <= t < n && #[trigger] p[t].0 == s[i].0 && is_receive(p[t].1) == is_receive(
                            s[i].1,
                        );
                    assert(w[n] == e);
                    if is_receive(s[i].1) != is_receive(e.1) {
                        assert(w[t].0 == w[n].0);
                    }
                }
                if let Ok(r) = sum_intents(w) {
                    assert forall|k: int| 0 <= k < r.len() implies kind_seen(
                        w,
                        w.len() as int,
                        #[trigger] r[k],
                    ) by {
                        if k < s.len() && (i < 0 || k != i) {
                            assert(r[k] == s[k]);
                            assert(kind_seen(p, n, s[k]));
                            let t = choose|t: int|
                                0 <= t < n && #[trigger] p[t].0 == s[k].0 && is_receive(p[t].1)
                                    == is_receive(s[k].1);
                            assert(w[t].0 == r[k].0);
                        } else {
                            assert(w[n] == e);
                            assert(w[n].0 == r[k].0 && is_receive(w[n].1) == is_receive(r[k].1));
                        }
                    }
                }
            },
        }
    }
}

/// A batch is rejected as contradictory exactly when some key carries both a
/// Receive and a Send; so two batches holding the same intents, in any order,
/// are either both rejected as contradictory or neither is.
pub proof fn lemma_conflict_order_independent(
    w1: Seq<(FlexV, AccountAssetW)>,
    w2: Seq<(FlexV, AccountAssetW)>,
)
    requires
        forall|x| w1.contains(x) <==> w2.contains(x),
    ensures
        (aggregate_intents(w1) == Err::<Seq<(FlexV, AccountAssetW)>, _>(
            Rejection::AggregationConflict,
        )) == mixes_kinds(w1),
        mixes_kinds(w1) == mixes_kinds(w2),
        (aggregate_intents(w1) == Err::<Seq<(FlexV, AccountAssetW)>, _>(
            Rejection::AggregationConflict,
        )) == (aggregate_intents(w2) == Err::<Seq<(FlexV, AccountAssetW)>, _>(
            Rejection::AggregationConflict,
        )),
{
    lemma_sum_kinds(w1);
    lemma_sum_kinds(w2);
    lemma_mixes_same_elements(w1, w2);
    lemma_mixes_same_elements(w2, w1);
}

proof fn lemma_mixes_same_elements(w1: Seq<(FlexV, AccountAssetW)>, w2: Seq<(FlexV, AccountAssetW)>)
    requires
        forall|x| w1.contains(x) ==> w2.contains(x),
    ensures
        mixes_kinds(w1) ==> mixes_kinds(w2),
{
    if mixes_kinds(w1) {
        let (a, b) = choose|a: int, b: int|
            0 <= a < w1.len() && 0 <= b < w1.len() && #[trigger] w1[a].0 == #[trigger] w1[b].0
                && is_receive(w1[a].1) != is_receive(w1[b].1);
        assert(w1.contains(w1[a]));
        assert(w1.contains(w1[b]));
        let a2 = choose|a2: int| 0 <= a2 < w2.len() && w2[a2] == w1[a];
        let b2 = choose|b2: int| 0 <= b2 < w2.len() && w2[b2] == w1[b];
        assert(w2[a2].0 == w2[b2].0);
    }
}

/// The amount an intent carries.
pub open spec fn amount_of(w: AccountAssetW) -> nat {
    match w {
        AccountAssetW::Receive(a) => a as nat,
        AccountAssetW::Send(a) => a as nat,
    }
}

/// The sum of the amounts of all intents on key `k`.
pub open spec fn key_total(w: Seq<(FlexV, AccountAssetW)>, k: FlexV) -> nat
    decreases w.len(),
{
    if w.len() == 0 {
        0
    } else {
        key_total(w.drop_last(), k) + if w.last().0 == k {
            amount_of(w.last().1)
        } else {
            0
        }
    }
}

/// The amount merged under key `k`; 0 where there is none.
pub open spec fn amount_at(s: Seq<(FlexV, AccountAssetW)>, k: FlexV) -> nat {
    if has_key(s, k) {
        amount_of(s[key_index(s, k)].1)
    } else {
        0
    }
}

proof fn lemma_sum_totals(w: Seq<(FlexV, AccountAssetW)>)
    requires
        !mixes_kinds(w),
    ensures
        (sum_intents(w) is Ok) == (forall|k: FlexV| #[trigger] key_total(w, k) <= u32::MAX),
        sum_intents(w) matches Ok(s) ==> unique_keys(s) && forall|k: FlexV|
            #[trigger] amount_at(s, k) == key_total(w, k),
        sum_intents(w) is Err ==> sum_intents(w) == Err::<Seq<(FlexV, AccountAssetW)>, _>(
            Rejection::AmountOverflow,
        ),
    decreases w.len(),
{
    if w.len() == 0 {
        assert forall|k: FlexV| #[trigger] amount_at(Seq::<(FlexV, AccountAssetW)>::empty(), k)
            == key_total(w, k) by {}
    } else {
        let p = w.drop_last();
        let e = w.last();
        let n = w.len() - 1;
        assert(w[n] == e);
        assert forall|t: int| 0 <= t < n implies #[trigger] w[t] == p[t] by {}
        assert(!mixes_kinds(p)) by {
            if mixes_kinds(p) {
                let (a, b) = choose|a: int, b: int|
                    0 <= a < p.len() && 0 <= b < p.len() && #[trigger] p[a].0 == #[trigger] p[b].0
                        && is_receive(p[a].1) != is_receive(p[b].1);
                assert(w[a].0 == w[b].0);
            }
        }
        lemma_sum_totals(p);
        lemma_sum_kinds(p);
        match sum_intents(p) {
            Err(x) => {
                let k = choose|k: FlexV| !(#[trigger] key_total(p, k) <= u32::MAX);
                assert(key_total(w, k) >= key_total(p, k));
            },
            Ok(s) => {
                lemma_merge_intent_unique(s, e);
                let i = key_index(s, e.0);
                if i >= 0 {
                    assert(0 <= i < s.len() && s[i].0 == e.0);
                    assert(kind_seen(p, n, s[i]));
                    let t = choose|t: int|
                        0 <= t < n && #[trigger] p[t].0 == s[i].0 && is_receive(p[t].1) == is_receive(
                            s[i].1,
                        );
                    assert(w[t].0 == w[n].0);
                    assert(is_receive(s[i].1) == is_receive(e.1));
                    assert(amount_at(s, e.0) == amount_of(s[i].1));
                    assert(key_total(w, e.0) == amount_of(s[i].1) + amount_of(e.1));
                }
                match sum_intents(w) {
                    Ok(r) => {
                        assert forall|k: FlexV| #[trigger] amount_at(r, k) == key_total(w, k) by {
                            assert(amount_at(s, k) == key_total(p, k));
                            if k == e.0 {
                                if i >= 0 {
                                    lemma_key_index(r, i);
                                    assert(r[i].0 == e.0);
                                    assert(amount_of(r[i].1) == amount_of(s[i].1) + amount_of(e.1));
                                } else {
                                    assert(r[s.len() as int].0 == e.0);
                                    lemma_key_index(r, s.len() as int);
                                    assert(amount_at(s, k) == 0);
                                }
                            } else {
                                assert(key_total(w, k) == key_total(p, k));
                                if has_key(s, k) {
                                    let j = key_index(s, k);
                                    assert(0 <= j < s.len() && s[j].0 == k);
                                    assert(r[j] == s[j]);
                                    lemma_key_index(r, j);
                                } else {
                                    assert(!has_key(r, k)) by {
                                        if has_key(r, k) {
                                            let j = choose|j: int| 0 <= j < r.len() && r[j].0 == k;
                                            if j < s.len() && (i < 0 || j != i) {
                                                assert(s[j].0 == k);
                                            }
                                        }
                                    }
                                }
                            }
                        }
                        assert forall|k: FlexV| #[trigger] key_total(w, k) <= u32::MAX by {
                            if k != e.0 {
                                assert(key_total(w, k) == key_total(p, k));
                            } else {
                                assert(amount_at(r, k) == key_total(w, k));
                                if has_key(r, k) {
                                    let j = key_index(r, k);
                                    assert(0 <= j < r.len() && r[j].0 == k);
                                }
                            }
                        }
                    },
                    Err(_) => {
                        assert(!(key_total(w, e.0) <= u32::MAX));
                    },
                }
            },
        }
    }
}

/// Without a key that mixes kinds, a batch overflows exactly when the total
/// of some key exceeds `u32::MAX`; otherwise each merged key carries the total
/// of its intents. Together with the conflict rule, whether and why a batch
/// is rejected depends only on each key's kinds and total, not on the order
/// of the intents.
pub proof fn lemma_aggregate_totals(w: Seq<(FlexV, AccountAssetW)>)
    ensures
        aggregate_intents(w) is Err ==> aggregate_intents(w) == Err::<
            Seq<(FlexV, AccountAssetW)>,
            _,
        >(Rejection::AggregationConflict) || aggregate_intents(w) == Err::<
            Seq<(FlexV, AccountAssetW)>,
            _,
        >(Rejection::AmountOverflow),
        !mixes_kinds(w) ==> ((aggregate_intents(w) is Ok) == (forall|k: FlexV|
            #[trigger] key_total(w, k) <= u32::MAX)),
        aggregate_intents(w) matches Ok(s) ==> forall|k: FlexV|
            #[trigger] amount_at(s, k) == key_total(w, k),
{
    if !mixes_kinds(w) {
        lemma_sum_totals(w);
    }
}

fn find_intent(acc: &Vec<(FlexNodeKey, NodeValue<Write>)>, key: &FlexNodeKey) -> (r: Option<usize>)
    requires
        unique_keys(FlexTree(*acc).entries()),
    ensures
        match r {
            Some(i) => i < acc.len() && key_index(FlexTree(*acc).entries(), key@) == i,
            None => key_index(FlexTree(*acc).entries(), key@) == -1,
        },
{
    let ghost s = FlexTree(*acc).entries();
    let mut i: usize = 0;
    while i < acc.len()
        invariant
            i <= acc.len(),
            s == FlexTree(*acc).entries(),
            unique_keys(s),
            forall|j: int| 0 <= j < i ==> s[j].0 != key@,
        decreases acc.len() - i,
    {
        if same_flex(&acc[i].0, key) {
            proof {
                lemma_key_index(s, i as int);
            }
            return Some(i);
        }
        i = i + 1;
    }
    assert(!has_key(s, key@));
    None
}

/// Some intent among the first `n` has the entry's key and kind.
spec fn kind_seen(w: Seq<(FlexV, AccountAssetW)>, n: int, e: (FlexV, AccountAssetW)) -> bool {
    exists|t: int| 0 <= t < n && #[trigger] w[t].0 == e.0 && is_receive(w[t].1) == is_receive(e.1)
}

/// Whether some key carries both a Receive and a Send.
fn mixes(entries: &Vec<(FlexNodeKey, NodeValue<Write>)>) -> (r: bool)
    ensures
        r == mixes_kinds(FlexTree(*entries).entries()),
{
    let ghost w = FlexTree(*entries).entries();
    let n = entries.len();
    let mut i: usize = 0;
    while i < n
        invariant
            n == entries.len(),
            w == FlexTree(*entries).entries(),
            i <= n,
            forall|a: int, b: int|
                0 <= a < i && 0 <= b < n ==> !(w[a].0 == w[b].0 && is_receive(w[a].1) != is_receive(
                    w[b].1,
                )),
        decreases n - i,
    {
        let mut j: usize = 0;
        while j < n
            invariant
                n == entries.len(),
                w == FlexTree(*entries).entries(),
                i < n,
                j <= n,
                forall|a: int, b: int|
                    0 <= a < i && 0 <= b < n ==> !(w[a].0 == w[b].0 && is_receive(w[a].1)
                        != is_receive(w[b].1)),
                forall|b: int|
                    0 <= b < j ==> !(w[i as int].0 == w[b].0 && is_receive(w[i as int].1)
                        != is_receive(w[b].1)),
            decreases n - j,
        {
            let NodeValue::AccountAsset(x) = &entries[i].1;
            let NodeValue::AccountAsset(y) = &entries[j].1;
            let kinds_differ = match (x, y) {
                (AccountAssetW::Receive(_), AccountAssetW::Send(_)) => true,
                (AccountAssetW::Send(_), AccountAssetW::Receive(_)) => true,
                _ => false,
            };
            if kinds_differ && same_flex(&entries[i].0, &entries[j].0) {
                assert(w[i as int].0 == w[j as int].0);
                return true;
            }
            j = j + 1;
        }
        i = i + 1;
    }
    false
}

impl FlexTree<Write> {
    /// Merges same-key intents of the same kind by summing amounts, keeping each
    /// key where it first occurs; `This` stays unresolved. Where any key mixes
    /// Receive and Send the result is `AggregationConflict`; otherwise a sum
    /// beyond `u32::MAX` gives `AmountOverflow`.
    pub fn aggregate(&self) -> (r: Result<WriteSet, Rejection>)
        ensures
            match r {
                Ok(t) => aggregate_intents(self.entries()) == Ok::<_, Rejection>(t.entries())
                    && unique_keys(t.entries()),
                Err(e) => aggregate_intents(self.entries()) == Err::<Seq<(FlexV, AccountAssetW)>, _>(e),
            },
    {
        let ghost w = self.entries();
        if mixes(&self.0) {
            return Err(Rejection::AggregationConflict);
        }
        let mut acc: Vec<(FlexNodeKey, NodeValue<Write>)> = Vec::new();
        let mut i: usize = 0;
        assert(FlexTree(acc).entries() =~= Seq::<(FlexV, AccountAssetW)>::empty());
        assert(w.subrange(0, 0) =~= Seq::<(FlexV, AccountAssetW)>::empty());
        while i < self.0.len()
            invariant
                i <= self.0.len(),
                w == self.entries(),
                !mixes_kinds(w),
                unique_keys(FlexTree(acc).entries()),
                sum_intents(w.subrange(0, i as int)) == Ok::<_, Rejection>(
                    FlexTree(acc).entries(),
                ),
                forall|k: int|
                    0 <= k < acc.len() ==> kind_seen(w, i as int, #[trigger] FlexTree(acc).entries()[k]),
            decreases self.0.len() - i,
        {
            let ghost before = FlexTree(acc).entries();
            let (key, value) = &self.0[i];
            let NodeValue::AccountAsset(change) = value;
            proof {
                assert(w.subrange(0, i + 1).drop_last() =~= w.subrange(0, i as int));
                assert(w.subrange(0, i + 1).last() == (key@, *change));
                lemma_merge_intent_unique(before, (key@, *change));
            }
            match find_intent(&acc, key) {
                None => {
                    acc.push((key.duplicate(), NodeValue::AccountAsset(*change)));
                },
                Some(k) => {
                    let NodeValue::AccountAsset(held) = acc[k].1;
                    let merged = match (held, *change) {
                        (AccountAssetW::Receive(a), AccountAssetW::Receive(b)) => match a.checked_add(b) {
                            Some(sum) => AccountAssetW::Receive(sum),
                            None => {
                                proof {
                                    lemma_aggregate_rejected(w, i + 1, w.len() as int);
                                    assert(w.subrange(0, w.len() as int) =~= w);
                                }
                                return Err(Rejection::AmountOverflow);
                            },
                        },
                        (AccountAssetW::Send(a), AccountAssetW::Send(b)) => match a.checked_add(b) {
                            Some(sum) => AccountAssetW::Send(sum),
                            None => {
                                proof {
                                    lemma_aggregate_rejected(w, i + 1, w.len() as int);
                                    assert(w.subrange(0, w.len() as int) =~= w);
                                }
                                return Err(Rejection::AmountOverflow);
                            },
                        },
                        _ => {
                            proof {
                                assert(before[k as int].0 == key@);
                                assert(kind_seen(w, i as int, before[k as int]));
                                let t = choose|t: int|
                                    0 <= t < i && #[trigger] w[t].0 == before[k as int].0
                                        && is_receive(w[t].1) == is_receive(before[k as int].1);
                                assert(w[i as int] == (key@, *change));
                                assert(w[t].0 == w[i as int].0);
                            }
                            return Err(Rejection::AggregationConflict);
                        },
                    };
                    acc.set(k, (key.duplicate(), NodeValue::AccountAsset(merged)));
                },
            }
            assert(merge_intent(Ok(before), (key@, *change)) is Ok);
            assert(FlexTree(acc).entries() =~= merge_intent(Ok(before), (key@, *change))->Ok_0);
            proof {
                assert(w[i as int] == (key@, *change));
                let after = FlexTree(acc).entries();
                assert forall|k: int| 0 <= k < acc.len() implies kind_seen(
                    w,
                    i + 1,
                    #[trigger] FlexTree(acc).entries()[k],
                ) by {
                    if k < before.len() {
                        assert(kind_seen(w, i as int, before[k]));
                        let t = choose|t: int|
                            0 <= t < i && #[trigger] w[t].0 == before[k].0 && is_receive(w[t].1)
                                == is_receive(before[k].1);
                        assert(w[t].0 == after[k].0 && is_receive(w[t].1) == is_receive(after[k].1));
                    } else {
                        assert(w[i as int].0 == after[k].0 && is_receive(w[i as int].1) == is_receive(after[k].1));
                    }
                }
            }
            i = i + 1;
        }
        assert(w.subrange(0, w.len() as int) =~= w);
        Ok(FlexTree(acc))
    }
}

} // verus!
