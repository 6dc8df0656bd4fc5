//! The permission store: an authority's effective capability is the OR-merge,
//! by pattern, of every grant of every role it holds.
use crate::keys::{AccountK, FlexFuzzyNodeKey, FlexFuzzyV, same_flex_fuzzy};
use crate::ledger::World;
use crate::tree::{
    has_key, key_index, lemma_key_index, lemma_push_unique, lemma_update_unique, unique_keys,
    AccountAssetA, Allow, AllowSet, FlexFuzzyTree, NodeValue,
};
use vstd::prelude::*;

verus! {

/// Grants as patterns and bitmasks.
pub open spec fn grant_model(t: AllowSet) -> Seq<(FlexFuzzyV, u8)> {
    t.entries().map_values(|e: (FlexFuzzyV, AccountAssetA)| (e.0, e.1.bit_mask))
}

/// Adds one grant: OR-merged into the entry with the same pattern, else appended.
pub open spec fn merge_grant(acc: Seq<(FlexFuzzyV, u8)>, g: (FlexFuzzyV, u8)) -> Seq<
    (FlexFuzzyV, u8),
> {
    let i = key_index(acc, g.0);
    if i >= 0 {
        acc.update(i, (g.0, acc[i].1 | g.1))
    } else {
        acc.push(g)
    }
}

/// Adds grants in order.
pub open spec fn merge_grants(acc: Seq<(FlexFuzzyV, u8)>, gs: Seq<(FlexFuzzyV, u8)>) -> Seq<
    (FlexFuzzyV, u8),
>
    decreases gs.len(),
{
    if gs.len() == 0 {
        acc
    } else {
        merge_grant(merge_grants(acc, gs.drop_last()), gs.last())
    }
}

/// The mask held for a pattern; 0 where there is none.
pub open spec fn mask_at(s: Seq<(FlexFuzzyV, u8)>, p: FlexFuzzyV) -> u8 {
    if has_key(s, p) {
        s[key_index(s, p)].1
    } else {
        0
    }
}

/// Bit `b` of a mask is set.
pub open spec fn bit(m: u8, b: u8) -> bool {
    (m >> b) & 1u8 == 1u8
}

impl World {
    /// The authority holds the role.
    pub open spec fn holds_role(&self, authority: Seq<char>, role: Seq<char>) -> bool {
        exists|k: int|
            0 <= k < self.account_permission.len() && #[trigger] self.account_permission@[k]@ == (
                authority,
                role,
            )
    }

    /// The grants of role entry `i`.
    pub open spec fn role_grants(&self, i: int) -> Seq<(FlexFuzzyV, u8)> {
        grant_model(self.permission@[i].1.permission)
    }

    /// Role entry `i` is held by the authority.
    pub open spec fn role_held(&self, authority: Seq<char>, i: int) -> bool {
        self.holds_role(authority, self.permission@[i].0.0@)
    }

    /// The merged grants of the held roles among the first `n` role entries.
    pub open spec fn capability_upto(&self, authority: Seq<char>, n: int) -> Seq<(FlexFuzzyV, u8)>
        decreases n,
    {
        if n <= 0 {
            Seq::empty()
        } else {
            let prev = self.capability_upto(authority, n - 1);
            if self.role_held(authority, n - 1) {
                merge_grants(prev, self.role_grants(n - 1))
            } else {
                prev
            }
        }
    }

    /// The effective capability of an authority.
    pub open spec fn capability(&self, authority: Seq<char>) -> Seq<(FlexFuzzyV, u8)> {
        self.capability_upto(authority, self.permission.len() as int)
    }

    /// Whether the authority holds the role.
    pub fn has_role(&self, authority: &AccountK, role: &crate::keys::PermissionK) -> (r: bool)
        ensures
            r == self.holds_role(authority.0@, role.0@),
    {
        let mut k: usize = 0;
        while k < self.account_permission.len()
            invariant
                k <= self.account_permission.len(),
                forall|t: int|
                    0 <= t < k ==> #[trigger] self.account_permission@[t]@ != (authority.0@, role.0@),
            decreases self.account_permission.len() - k,
        {
            let pair = &self.account_permission[k];
            if pair.0 == authority.0 && pair.1 == role.0 {
                assert(self.account_permission@[k as int]@ == (authority.0@, role.0@));
                return true;
            }
            k = k + 1;
        }
        false
    }

    /// The effective capability of an authority: every grant of every role it
    /// holds, OR-merged by pattern.
    pub fn permission(&self, authority: &AccountK) -> (r: AllowSet)
        ensures
            grant_model(r) == self.capability(authority.0@),
            unique_keys(grant_model(r)),
    {
        let mut acc: Vec<(FlexFuzzyNodeKey, NodeValue<Allow>)> = Vec::new();
        let mut i: usize = 0;
        assert(grant_model(FlexFuzzyTree(acc)) =~= Seq::<(FlexFuzzyV, u8)>::empty());
        while i < self.permission.len()
            invariant
                i <= self.permission.len(),
                grant_model(FlexFuzzyTree(acc)) == self.capability_upto(authority.0@, i as int),
                unique_keys(grant_model(FlexFuzzyTree(acc))),
            decreases self.permission.len() - i,
        {
            let (role, grants) = &self.permission[i];
            if self.has_role(authority, role) {
                merge_into(&mut acc, &grants.permission);
            }
            i = i + 1;
        }
        FlexFuzzyTree(acc)
    }
}

/// The position of a pattern among entries with unique patterns.
fn find_grant(acc: &Vec<(FlexFuzzyNodeKey, NodeValue<Allow>)>, key: &FlexFuzzyNodeKey) -> (r:
    Option<usize>)
    requires
        unique_keys(grant_model(FlexFuzzyTree(*acc))),
    ensures
        match r {
            Some(i) => i < acc.len() && key_index(grant_model(FlexFuzzyTree(*acc)), key@) == i,
            None => key_index(grant_model(FlexFuzzyTree(*acc)), key@) == -1,
        },
{
    let ghost s = grant_model(FlexFuzzyTree(*acc));
    let mut i: usize = 0;
    while i < acc.len()
        invariant
            i <= acc.len(),
            s == grant_model(FlexFuzzyTree(*acc)),
            unique_keys(s),
            forall|j: int| 0 <= j < i ==> s[j].0 != key@,
        decreases acc.len() - i,
    {
        if same_flex_fuzzy(&acc[i].0, key) {
            proof {
                lemma_key_index(s, i as int);
            }
            return Some(i);
        }
        i = i + 1;
    }
    assert(!has_key(s, key@));
    None
}

proof fn lemma_merge_grant_unique(acc: Seq<(FlexFuzzyV, u8)>, g: (FlexFuzzyV, u8))
    requires
        unique_keys(acc),
    ensures
        unique_keys(merge_grant(acc, g)),
{
    let i = key_index(acc, g.0);
    if i >= 0 {
        assert(0 <= i < acc.len() && acc[i].0 == g.0);
        lemma_update_unique(acc, i, acc[i].1 | g.1);
    } else {
        lemma_push_unique(acc, g.0, g.1);
    }
}

/// OR-merges grants into an accumulator with unique patterns.
fn merge_into(acc: &mut Vec<(FlexFuzzyNodeKey, NodeValue<Allow>)>, grants: &AllowSet)
    requires
        unique_keys(grant_model(FlexFuzzyTree(*old(acc)))),
    ensures
        unique_keys(grant_model(FlexFuzzyTree(*final(acc)))),
        grant_model(FlexFuzzyTree(*final(acc))) == merge_grants(
            grant_model(FlexFuzzyTree(*old(acc))),
            grant_model(*grants),
        ),
{
    let ghost start = grant_model(FlexFuzzyTree(*acc));
    let ghost gs = grant_model(*grants);
    let mut j: usize = 0;
    while j < grants.0.len()
        invariant
            j <= grants.0.len(),
            gs == grant_model(*grants),
            unique_keys(grant_model(FlexFuzzyTree(*acc))),
            grant_model(FlexFuzzyTree(*acc)) == merge_grants(start, gs.subrange(0, j as int)),
        decreases grants.0.len() - j,
    {
        let ghost before = grant_model(FlexFuzzyTree(*acc));
        let (key, value) = &grants.0[j];
        let NodeValue::AccountAsset(AccountAssetA { bit_mask }) = value;
        proof {
            assert(gs.subrange(0, j + 1).drop_last() =~= gs.subrange(0, j as int));
            assert(gs.subrange(0, j + 1).last() == (key@, *bit_mask));
            lemma_merge_grant_unique(before, (key@, *bit_mask));
        }
        match find_grant(acc, key) {
            Some(k) => {
                let NodeValue::AccountAsset(AccountAssetA { bit_mask: held }) = acc[k].1;
                acc.set(
                    k,
                    (key.duplicate(), NodeValue::AccountAsset(AccountAssetA { bit_mask: held | *bit_mask })),
                );
            },
            None => {
                acc.push((key.duplicate(), NodeValue::AccountAsset(AccountAssetA { bit_mask: *bit_mask })));
            },
        }
        assert(grant_model(FlexFuzzyTree(*acc)) =~= merge_grant(before, (key@, *bit_mask)));
        j = j + 1;
    }
    assert(gs.subrange(0, gs.len() as int) =~= gs);
}

// ---------------------------------------------------------------------------
// Order independence
proof fn lemma_or_bit(x: u8, y: u8, b: u8)
    requires
        b < 8,
    ensures
        bit(x | y, b) == (bit(x, b) || bit(y, b)),
{
    assert(((x | y) >> b) & 1u8 == 1u8 <==> ((x >> b) & 1u8 == 1u8 || (y >> b) & 1u8 == 1u8))
        by (bit_vector)
        requires
            b < 8,
    ;
}

proof fn lemma_zero_bit(b: u8)
    ensures
        !bit(0, b),
{
    assert((0u8 >> b) & 1u8 != 1u8) by (bit_vector);
}

proof fn lemma_bits_eq(x: u8, y: u8)
    requires
        forall|b: u8| b < 8 ==> bit(x, b) == bit(y, b),
    ensures
        x == y,
{
    assert(bit(x, 0) == bit(y, 0));
    assert(bit(x, 1) == bit(y, 1));
    assert(bit(x, 2) == bit(y, 2));
    assert(bit(x, 3) == bit(y, 3));
    assert(bit(x, 4) == bit(y, 4));
    assert(bit(x, 5) == bit(y, 5));
    assert(bit(x, 6) == bit(y, 6));
    assert(bit(x, 7) == bit(y, 7));
    assert(x == y) by (bit_vector)
        requires
            ((x >> 0u8) & 1u8 == 1u8) == ((y >> 0u8) & 1u8 == 1u8),
            ((x >> 1u8) & 1u8 == 1u8) == ((y >> 1u8) & 1u8 == 1u8),
            ((x >> 2u8) & 1u8 == 1u8) == ((y >> 2u8) & 1u8 == 1u8),
            ((x >> 3u8) & 1u8 == 1u8) == ((y >> 3u8) & 1u8 == 1u8),
            ((x >> 4u8) & 1u8 == 1u8) == ((y >> 4u8) & 1u8 == 1u8),
            ((x >> 5u8) & 1u8 == 1u8) == ((y >> 5u8) & 1u8 == 1u8),
            ((x >> 6u8) & 1u8 == 1u8) == ((y >> 6u8) & 1u8 == 1u8),
            ((x >> 7u8) & 1u8 == 1u8) == ((y >> 7u8) & 1u8 == 1u8),
    ;
}

/// What one merge step does to presence and to each bit of a pattern's mask.
proof fn lemma_merge_grant_bits(acc: Seq<(FlexFuzzyV, u8)>, g: (FlexFuzzyV, u8))
    requires
        unique_keys(acc),
    ensures
        forall|p: FlexFuzzyV|
            #[trigger] has_key(merge_grant(acc, g), p) == (has_key(acc, p) || g.0 == p),
        forall|p: FlexFuzzyV, b: u8|
            b < 8 ==> #[trigger] bit(mask_at(merge_grant(acc, g), p), b) == (bit(mask_at(acc, p), b)
                || (g.0 == p && bit(g.1, b))),
{
    let m = merge_grant(acc, g);
    let i = key_index(acc, g.0);
    lemma_merge_grant_unique(acc, g);
    assert forall|p: FlexFuzzyV| #[trigger] has_key(m, p) == (has_key(acc, p) || g.0 == p) by {
        if has_key(acc, p) {
            let t = choose|t: int| 0 <= t < acc.len() && acc[t].0 == p;
            assert(m[t].0 == p);
        }
        if g.0 == p {
            if i >= 0 {
                assert(m[i].0 == p);
            } else {
                assert(m[acc.len() as int].0 == p);
            }
        }
        if has_key(m, p) {
            let t = choose|t: int| 0 <= t < m.len() && m[t].0 == p;
            if t < acc.len() {
                assert(acc[t].0 == p || t == i);
            }
        }
    }
    assert forall|p: FlexFuzzyV, b: u8| b < 8 implies #[trigger] bit(mask_at(m, p), b) == (bit(
        mask_at(acc, p),
        b,
    ) || (g.0 == p && bit(g.1, b))) by {
        lemma_zero_bit(b);
        if g.0 == p {
            if i >= 0 {
                assert(0 <= i < acc.len() && acc[i].0 == p);
                lemma_key_index(acc, i);
                lemma_key_index(m, i);
                lemma_or_bit(acc[i].1, g.1, b);
            } else {
                lemma_key_index(m, acc.len() as int);
            }
        } else if has_key(acc, p) {
            let t = key_index(acc, p);
            assert(0 <= t < acc.len() && acc[t].0 == p);
            assert(m[t] == acc[t]);
            lemma_key_index(m, t);
        } else {
            assert(!has_key(m, p));
        }
    }
}

/// Grants of a list `gs` merged into `acc`: presence and bits are those of `acc`
/// or of some grant.
proof fn lemma_merge_grants_bits(acc: Seq<(FlexFuzzyV, u8)>, gs: Seq<(FlexFuzzyV, u8)>)
    requires
        unique_keys(acc),
    ensures
        unique_keys(merge_grants(acc, gs)),
        forall|p: FlexFuzzyV|
            #[trigger] has_key(merge_grants(acc, gs), p) == (has_key(acc, p) || exists|j: int|
                0 <= j < gs.len() && #[trigger] gs[j].0 == p),
        forall|p: FlexFuzzyV, b: u8|
            b < 8 ==> #[trigger] bit(mask_at(merge_grants(acc, gs), p), b) == (bit(mask_at(acc, p), b)
                || exists|j: int| 0 <= j < gs.len() && #[trigger] gs[j].0 == p && bit(gs[j].1, b)),
    decreases gs.len(),
{
    if gs.len() > 0 {
        let rest = gs.drop_last();
        lemma_merge_grants_bits(acc, rest);
        let m = merge_grants(acc, rest);
        lemma_merge_grant_unique(m, gs.last());
        lemma_merge_grant_bits(m, gs.last());
        assert forall|p: FlexFuzzyV| #[trigger] has_key(merge_grants(acc, gs), p) == (has_key(acc, p)
            || exists|j: int| 0 <= j < gs.len() && #[trigger] gs[j].0 == p) by {
            if exists|j: int| 0 <= j < gs.len() && #[trigger] gs[j].0 == p {
                let j = choose|j: int| 0 <= j < gs.len() && #[trigger] gs[j].0 == p;
                if j < rest.len() {
                    assert(rest[j].0 == p);
                }
            }
            if exists|j: int| 0 <= j < rest.len() && #[trigger] rest[j].0 == p {
                let j = choose|j: int| 0 <= j < rest.len() && #[trigger] rest[j].0 == p;
                assert(gs[j].0 == p);
            }
        }
        assert forall|p: FlexFuzzyV, b: u8| b < 8 implies #[trigger] bit(
            mask_at(merge_grants(acc, gs), p),
            b,
        ) == (bit(mask_at(acc, p), b) || exists|j: int|
            0 <= j < gs.len() && #[trigger] gs[j].0 == p && bit(gs[j].1, b)) by {
            if exists|j: int| 0 <= j < gs.len() && #[trigger] gs[j].0 == p && bit(gs[j].1, b) {
                let j = choose|j: int| 0 <= j < gs.len() && #[trigger] gs[j].0 == p && bit(gs[j].1, b);
                if j < rest.len() {
                    assert(rest[j].0 == p && bit(rest[j].1, b));
                }
            }
            if exists|j: int| 0 <= j < rest.len() && #[trigger] rest[j].0 == p && bit(rest[j].1, b) {
                let j = choose|j: int|
                    0 <= j < rest.len() && #[trigger] rest[j].0 == p && bit(rest[j].1, b);
                assert(gs[j].0 == p && bit(gs[j].1, b));
            }
        }
    }
}

impl World {
    /// Some held role among the first `n` entries grants the pattern.
    pub open spec fn granted_upto(&self, authority: Seq<char>, n: int, p: FlexFuzzyV) -> bool {
        exists|i: int, j: int|
            0 <= i < n && self.role_held(authority, i) && 0 <= j < self.role_grants(i).len()
                && #[trigger] self.role_grants(i)[j].0 == p
    }

    /// Some held role among the first `n` entries grants bit `b` on the pattern.
    pub open spec fn granted_bit_upto(&self, authority: Seq<char>, n: int, p: FlexFuzzyV, b: u8) -> bool {
        exists|i: int, j: int|
            0 <= i < n && self.role_held(authority, i) && 0 <= j < self.role_grants(i).len()
                && #[trigger] self.role_grants(i)[j].0 == p && bit(self.role_grants(i)[j].1, b)
    }

    /// The merged capability holds a pattern iff a held role grants it, and a
    /// bit of its mask iff a held role grants that bit on it.
    pub proof fn lemma_capability_bits(&self, authority: Seq<char>, n: int)
        requires
            0 <= n <= self.permission.len(),
        ensures
            unique_keys(self.capability_upto(authority, n)),
            forall|p: FlexFuzzyV|
                #[trigger] has_key(self.capability_upto(authority, n), p) == self.granted_upto(
                    authority,
                    n,
                    p,
                ),
            forall|p: FlexFuzzyV, b: u8|
                b < 8 ==> #[trigger] bit(mask_at(self.capability_upto(authority, n), p), b)
                    == self.granted_bit_upto(authority, n, p, b),
        decreases n,
    {
        if n == 0 {
            assert forall|p: FlexFuzzyV, b: u8| b < 8 implies #[trigger] bit(
                mask_at(self.capability_upto(authority, n), p),
                b,
            ) == self.granted_bit_upto(authority, n, p, b) by {
                lemma_zero_bit(b);
            }
        } else {
            self.lemma_capability_bits(authority, n - 1);
            let prev = self.capability_upto(authority, n - 1);
            let gs = self.role_grants(n - 1);
            if self.role_held(authority, n - 1) {
                lemma_merge_grants_bits(prev, gs);
            }
            assert forall|p: FlexFuzzyV| #[trigger] has_key(self.capability_upto(authority, n), p)
                == self.granted_upto(authority, n, p) by {
                if self.granted_upto(authority, n, p) {
                    let (i, j) = choose|i: int, j: int|
                        0 <= i < n && self.role_held(authority, i) && 0 <= j < self.role_grants(
                            i,
                        ).len() && #[trigger] self.role_grants(i)[j].0 == p;
                    if i < n - 1 {
                        assert(self.granted_upto(authority, n - 1, p));
                    } else {
                        assert(gs[j].0 == p);
                    }
                }
                if self.granted_upto(authority, n - 1, p) {
                    let (i, j) = choose|i: int, j: int|
                        0 <= i < n - 1 && self.role_held(authority, i) && 0 <= j < self.role_grants(
                            i,
                        ).len() && #[trigger] self.role_grants(i)[j].0 == p;
                    assert(self.role_grants(i)[j].0 == p);
                }
                if self.role_held(authority, n - 1) && exists|j: int|
                    0 <= j < gs.len() && #[trigger] gs[j].0 == p {
                    let j = choose|j: int| 0 <= j < gs.len() && #[trigger] gs[j].0 == p;
                    assert(self.role_grants(n - 1)[j].0 == p);
                }
            }
            assert forall|p: FlexFuzzyV, b: u8| b < 8 implies #[trigger] bit(
                mask_at(self.capability_upto(authority, n), p),
                b,
            ) == self.granted_bit_upto(authority, n, p, b) by {
                if self.granted_bit_upto(authority, n, p, b) {
                    let (i, j) = choose|i: int, j: int|
                        0 <= i < n && self.role_held(authority, i) && 0 <= j < self.role_grants(
                            i,
                        ).len() && #[trigger] self.role_grants(i)[j].0 == p && bit(
                            self.role_grants(i)[j].1,
                            b,
                        );
                    if i < n - 1 {
                        assert(self.granted_bit_upto(authority, n - 1, p, b));
                    } else {
                        assert(gs[j].0 == p && bit(gs[j].1, b));
                    }
                }
                if self.granted_bit_upto(authority, n - 1, p, b) {
                    let (i, j) = choose|i: int, j: int|
                        0 <= i < n - 1 && self.role_held(authority, i) && 0 <= j < self.role_grants(
                            i,
                        ).len() && #[trigger] self.role_grants(i)[j].0 == p && bit(
                            self.role_grants(i)[j].1,
                            b,
                        );
                    assert(self.role_grants(i)[j].0 == p);
                }
                if self.role_held(authority, n - 1) && exists|j: int|
                    0 <= j < gs.len() && #[trigger] gs[j].0 == p && bit(gs[j].1, b) {
                    let j = choose|j: int| 0 <= j < gs.len() && #[trigger] gs[j].0 == p && bit(gs[j].1, b);
                    assert(self.role_grants(n - 1)[j].0 == p);
                }
            }
        }
    }
}

/// Permission union is commutative, associative and idempotent: the effective
/// capability of an authority depends only on which patterns, and which bits
/// on each, its held roles grant, however those grants are spread over roles,
/// ordered, grouped or repeated.
pub proof fn lemma_capability_determined_by_grants(w1: World, w2: World, authority: Seq<char>)
    requires
        forall|p: FlexFuzzyV|
            w1.granted_upto(authority, w1.permission.len() as int, p) == w2.granted_upto(
                authority,
                w2.permission.len() as int,
                p,
            ),
        forall|p: FlexFuzzyV, b: u8|
            b < 8 ==> w1.granted_bit_upto(authority, w1.permission.len() as int, p, b)
                == w2.granted_bit_upto(authority, w2.permission.len() as int, p, b),
    ensures
        forall|p: FlexFuzzyV|
            has_key(w1.capability(authority), p) == has_key(w2.capability(authority), p),
        forall|p: FlexFuzzyV|
            mask_at(w1.capability(authority), p) == mask_at(w2.capability(authority), p),
{
    w1.lemma_capability_bits(authority, w1.permission.len() as int);
    w2.lemma_capability_bits(authority, w2.permission.len() as int);
    assert forall|p: FlexFuzzyV|
        mask_at(w1.capability(authority), p) == mask_at(w2.capability(authority), p) by {
        let c1 = w1.capability(authority);
        let c2 = w2.capability(authority);
        assert forall|b: u8| b < 8 implies bit(mask_at(c1, p), b) == bit(mask_at(c2, p), b) by {
            assert(bit(mask_at(c1, p), b) == w1.granted_bit_upto(authority, w1.permission.len() as int, p, b));
            assert(bit(mask_at(c2, p), b) == w2.granted_bit_upto(authority, w2.permission.len() as int, p, b));
        }
        lemma_bits_eq(mask_at(c1, p), mask_at(c2, p));
    }
    assert forall|p: FlexFuzzyV|
        has_key(w1.capability(authority), p) == has_key(w2.capability(authority), p) by {
        assert(has_key(w1.capability(authority), p) == w1.granted_upto(authority, w1.permission.len() as int, p));
        assert(has_key(w2.capability(authority), p) == w2.granted_upto(authority, w2.permission.len() as int, p));
    }
}

/// Swapping the grant sets of two roles that the authority holds leaves its
/// effective capability unchanged.
pub proof fn lemma_capability_swap_grants(
    w1: World,
    w2: World,
    authority: Seq<char>,
    i1: int,
    i2: int,
)
    requires
        0 <= i1 < w1.permission.len(),
        0 <= i2 < w1.permission.len(),
        w1.role_held(authority, i1),
        w1.role_held(authority, i2),
        w2.account_permission == w1.account_permission,
        w2.permission@ == w1.permission@.update(
            i1,
            (w1.permission@[i1].0, w1.permission@[i2].1),
        ).update(i2, (w1.permission@[i2].0, w1.permission@[i1].1)),
    ensures
        forall|p: FlexFuzzyV|
            has_key(w1.capability(authority), p) == has_key(w2.capability(authority), p),
        forall|p: FlexFuzzyV|
            mask_at(w1.capability(authority), p) == mask_at(w2.capability(authority), p),
{
    let n = w1.permission.len() as int;
    assert(w2.permission.len() == n);
    // the role entry of `w2` that carries the grants of entry `i` of `w1`, and back
    let other = |i: int| if i == i1 { i2 } else if i == i2 { i1 } else { i };
    assert forall|i: int| 0 <= i < n implies #[trigger] w2.role_grants(other(i)) == w1.role_grants(i)
        && w2.role_held(authority, other(i)) == w1.role_held(authority, i) by {
        assert(w2.account_permission@ == w1.account_permission@);
        if i == i1 || i == i2 {
            assert(w2.role_held(authority, i1) == w1.role_held(authority, i1));
            assert(w2.role_held(authority, i2) == w1.role_held(authority, i2));
        }
    }
    assert forall|i: int| 0 <= i < n implies #[trigger] w1.role_grants(other(i)) == w2.role_grants(i)
        && w1.role_held(authority, other(i)) == w2.role_held(authority, i) by {
        assert(w2.account_permission@ == w1.account_permission@);
        if i == i1 || i == i2 {
            assert(w2.role_held(authority, i1) == w1.role_held(authority, i1));
            assert(w2.role_held(authority, i2) == w1.role_held(authority, i2));
        }
    }
    assert forall|p: FlexFuzzyV|
        w1.granted_upto(authority, n, p) == w2.granted_upto(authority, n, p) by {
        if w1.granted_upto(authority, n, p) {
            let (i, j) = choose|i: int, j: int|
                0 <= i < n && w1.role_held(authority, i) && 0 <= j < w1.role_grants(i).len()
                    && #[trigger] w1.role_grants(i)[j].0 == p;
            assert(w2.role_grants(other(i)) == w1.role_grants(i));
            assert(w2.role_grants(other(i))[j].0 == p);
        }
        if w2.granted_upto(authority, n, p) {
            let (i, j) = choose|i: int, j: int|
                0 <= i < n && w2.role_held(authority, i) && 0 <= j < w2.role_grants(i).len()
                    && #[trigger] w2.role_grants(i)[j].0 == p;
            assert(w1.role_grants(other(i)) == w2.role_grants(i));
            assert(w1.role_grants(other(i))[j].0 == p);
        }
    }
    assert forall|p: FlexFuzzyV, b: u8| b < 8 implies w1.granted_bit_upto(authority, n, p, b)
        == w2.granted_bit_upto(authority, n, p, b) by {
        if w1.granted_bit_upto(authority, n, p, b) {
            let (i, j) = choose|i: int, j: int|
                0 <= i < n && w1.role_held(authority, i) && 0 <= j < w1.role_grants(i).len()
                    && #[trigger] w1.role_grants(i)[j].0 == p && bit(w1.role_grants(i)[j].1, b);
            assert(w2.role_grants(other(i)) == w1.role_grants(i));
            assert(w2.role_grants(other(i))[j].0 == p);
        }
        if w2.granted_bit_upto(authority, n, p, b) {
            let (i, j) = choose|i: int, j: int|
                0 <= i < n && w2.role_held(authority, i) && 0 <= j < w2.role_grants(i).len()
                    && #[trigger] w2.role_grants(i)[j].0 == p && bit(w2.role_grants(i)[j].1, b);
            assert(w1.role_grants(other(i)) == w2.role_grants(i));
            assert(w1.role_grants(other(i))[j].0 == p);
        }
    }
    lemma_capability_determined_by_grants(w1, w2, authority);
}

/// Replacing two roles that the authority holds by one new role whose grants
/// are their OR-merge leaves its effective capability unchanged.
pub proof fn lemma_capability_group_roles(
    w1: World,
    w2: World,
    authority: Seq<char>,
    i1: int,
    i2: int,
)
    requires
        0 <= i1 < w1.permission.len(),
        0 <= i2 < w1.permission.len(),
        w1.role_held(authority, i1),
        w1.role_held(authority, i2),
        w2.permission.len() == w1.permission.len() + 1,
        forall|i: int| 0 <= i < w1.permission.len() ==> w2.permission@[i] == w1.permission@[i],
        forall|i: int|
            0 <= i < w1.permission.len() && i != i1 && i != i2 ==> w2.role_held(authority, i)
                == w1.role_held(authority, i),
        !w2.role_held(authority, i1),
        !w2.role_held(authority, i2),
        w2.role_held(authority, w1.permission.len() as int),
        w2.role_grants(w1.permission.len() as int) == merge_grants(
            merge_grants(Seq::empty(), w1.role_grants(i1)),
            w1.role_grants(i2),
        ),
    ensures
        forall|p: FlexFuzzyV|
            has_key(w1.capability(authority), p) == has_key(w2.capability(authority), p),
        forall|p: FlexFuzzyV|
            mask_at(w1.capability(authority), p) == mask_at(w2.capability(authority), p),
{
    let n = w1.permission.len() as int;
    let g1 = w1.role_grants(i1);
    let g2 = w1.role_grants(i2);
    let m1 = merge_grants(Seq::empty(), g1);
    let merged = w2.role_grants(n);
    lemma_merge_grants_bits(Seq::empty(), g1);
    lemma_merge_grants_bits(m1, g2);
    assert forall|i: int| 0 <= i < n implies #[trigger] w2.role_grants(i) == w1.role_grants(i) by {}
    assert forall|p: FlexFuzzyV|
        w1.granted_upto(authority, n, p) == w2.granted_upto(authority, n + 1, p) by {
        if w1.granted_upto(authority, n, p) {
            let (i, j) = choose|i: int, j: int|
                0 <= i < n && w1.role_held(authority, i) && 0 <= j < w1.role_grants(i).len()
                    && #[trigger] w1.role_grants(i)[j].0 == p;
            if i == i1 || i == i2 {
                if i == i1 {
                    assert(g1[j].0 == p);
                    assert(has_key(m1, p));
                } else {
                    assert(g2[j].0 == p);
                }
                assert(has_key(merged, p));
                let k = choose|k: int| 0 <= k < merged.len() && merged[k].0 == p;
                assert(w2.role_grants(n)[k].0 == p);
            } else {
                assert(w2.role_grants(i)[j].0 == p);
            }
        }
        if w2.granted_upto(authority, n + 1, p) {
            let (i, j) = choose|i: int, j: int|
                0 <= i < n + 1 && w2.role_held(authority, i) && 0 <= j < w2.role_grants(i).len()
                    && #[trigger] w2.role_grants(i)[j].0 == p;
            if i == n {
                assert(merged[j].0 == p);
                assert(has_key(merged, p));
                if has_key(m1, p) {
                    let k = choose|k: int| 0 <= k < g1.len() && #[trigger] g1[k].0 == p;
                    assert(w1.role_grants(i1)[k].0 == p);
                } else {
                    let k = choose|k: int| 0 <= k < g2.len() && #[trigger] g2[k].0 == p;
                    assert(w1.role_grants(i2)[k].0 == p);
                }
            } else {
                assert(w1.role_grants(i)[j].0 == p);
            }
        }
    }
    assert forall|p: FlexFuzzyV, b: u8| b < 8 implies w1.granted_bit_upto(authority, n, p, b)
        == w2.granted_bit_upto(authority, n + 1, p, b) by {
        lemma_zero_bit(b);
        if w1.granted_bit_upto(authority, n, p, b) {
            let (i, j) = choose|i: int, j: int|
                0 <= i < n && w1.role_held(authority, i) && 0 <= j < w1.role_grants(i).len()
                    && #[trigger] w1.role_grants(i)[j].0 == p && bit(w1.role_grants(i)[j].1, b);
            if i == i1 || i == i2 {
                if i == i1 {
                    assert(g1[j].0 == p && bit(g1[j].1, b));
                    assert(bit(mask_at(m1, p), b));
                } else {
                    assert(g2[j].0 == p && bit(g2[j].1, b));
                }
                assert(bit(mask_at(merged, p), b));
                assert(has_key(merged, p));
                let k = key_index(merged, p);
                assert(0 <= k < merged.len() && merged[k].0 == p);
                assert(w2.role_grants(n)[k].0 == p && bit(w2.role_grants(n)[k].1, b));
            } else {
                assert(w2.role_grants(i)[j].0 == p);
            }
        }
        if w2.granted_bit_upto(authority, n + 1, p, b) {
            let (i, j) = choose|i: int, j: int|
                0 <= i < n + 1 && w2.role_held(authority, i) && 0 <= j < w2.role_grants(i).len()
                    && #[trigger] w2.role_grants(i)[j].0 == p && bit(w2.role_grants(i)[j].1, b);
            if i == n {
                assert(merged[j].0 == p);
                lemma_key_index(merged, j);
                assert(bit(mask_at(merged, p), b));
                if bit(mask_at(m1, p), b) {
                    let k = choose|k: int| 0 <= k < g1.len() && #[trigger] g1[k].0 == p && bit(g1[k].1, b);
                    assert(w1.role_grants(i1)[k].0 == p);
                } else {
                    let k = choose|k: int| 0 <= k < g2.len() && #[trigger] g2[k].0 == p && bit(g2[k].1, b);
                    assert(w1.role_grants(i2)[k].0 == p);
                }
            } else {
                assert(w1.role_grants(i)[j].0 == p);
            }
        }
    }
    lemma_capability_determined_by_grants(w1, w2, authority);
}

/// Permission union is order-free: two worlds holding the same role entries and
/// the same role assignments, in any order and with any repetition, give every
/// authority the same effective capability, pattern by pattern.
pub proof fn lemma_capability_order_independent(w1: World, w2: World, authority: Seq<char>)
    requires
        forall|x| w1.permission@.contains(x) <==> w2.permission@.contains(x),
        forall|x| w1.account_permission@.contains(x) <==> w2.account_permission@.contains(x),
    ensures
        forall|p: FlexFuzzyV|
            has_key(w1.capability(authority), p) == has_key(w2.capability(authority), p),
        forall|p: FlexFuzzyV|
            mask_at(w1.capability(authority), p) == mask_at(w2.capability(authority), p),
{
    lemma_same_grants(w1, w2, authority);
    lemma_same_grants(w2, w1, authority);
    lemma_capability_determined_by_grants(w1, w2, authority);
}

/// What `w1`'s held roles grant, `w2`'s held roles grant too.
proof fn lemma_same_grants(w1: World, w2: World, authority: Seq<char>)
    requires
        forall|x| w1.permission@.contains(x) <==> w2.permission@.contains(x),
        forall|x| w1.account_permission@.contains(x) <==> w2.account_permission@.contains(x),
    ensures
        forall|p: FlexFuzzyV|
            w1.granted_upto(authority, w1.permission.len() as int, p) ==> w2.granted_upto(
                authority,
                w2.permission.len() as int,
                p,
            ),
        forall|p: FlexFuzzyV, b: u8|
            w1.granted_bit_upto(authority, w1.permission.len() as int, p, b)
                ==> w2.granted_bit_upto(authority, w2.permission.len() as int, p, b),
{
    assert forall|i: int| 0 <= i < w1.permission.len() && w1.role_held(authority, i) implies exists|
        i2: int,
    |
        0 <= i2 < w2.permission.len() && w2.permission@[i2] == w1.permission@[i]
            && w2.role_held(authority, i2) by {
        assert(w1.permission@.contains(w1.permission@[i]));
        let i2 = choose|i2: int| 0 <= i2 < w2.permission.len() && w2.permission@[i2] == w1.permission@[i];
        let k = choose|k: int|
            0 <= k < w1.account_permission.len() && #[trigger] w1.account_permission@[k]@ == (
                authority,
                w1.permission@[i].0.0@,
            );
        assert(w1.account_permission@.contains(w1.account_permission@[k]));
        let k2 = choose|k2: int|
            0 <= k2 < w2.account_permission.len() && w2.account_permission@[k2] == w1.account_permission@[k];
        assert(w2.account_permission@[k2]@ == (authority, w2.permission@[i2].0.0@));
        assert(w2.holds_role(authority, w2.permission@[i2].0.0@));
        assert(w2.role_held(authority, i2));
    }
    assert forall|p: FlexFuzzyV| w1.granted_upto(authority, w1.permission.len() as int, p) implies w2.granted_upto(
        authority,
        w2.permission.len() as int,
        p,
    ) by {
        let (i, j) = choose|i: int, j: int|
            0 <= i < w1.permission.len() && w1.role_held(authority, i) && 0 <= j < w1.role_grants(
                i,
            ).len() && #[trigger] w1.role_grants(i)[j].0 == p;
        let i2 = choose|i2: int|
            0 <= i2 < w2.permission.len() && w2.permission@[i2] == w1.permission@[i] && w2.role_held(authority, i2);
        assert(w2.role_grants(i2)[j].0 == p);
    }
    assert forall|p: FlexFuzzyV, b: u8| w1.granted_bit_upto(authority, w1.permission.len() as int, p, b) implies w2.granted_bit_upto(
        authority,
        w2.permission.len() as int,
        p,
        b,
    ) by {
        let (i, j) = choose|i: int, j: int|
            0 <= i < w1.permission.len() && w1.role_held(authority, i) && 0 <= j < w1.role_grants(
                i,
            ).len() && #[trigger] w1.role_grants(i)[j].0 == p && bit(w1.role_grants(i)[j].1, b);
        let i2 = choose|i2: int|
            0 <= i2 < w2.permission.len() && w2.permission@[i2] == w1.permission@[i] && w2.role_held(authority, i2);
        assert(w2.role_grants(i2)[j].0 == p);
    }
}

} // verus!
