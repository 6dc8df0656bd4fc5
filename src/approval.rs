//! The approval engine: decides a batch of reads or of write events against a
//! capability whose `This` positions are resolved against the authority.
use crate::keys::{
    captures_exact, captures_fuzzy, resolve_key, resolve_pattern, AccountK, Capture, ExactV,
    FlexV, FuzzyNodeKey, FuzzyV, KeyElem, NodeKey, Resolve,
};
use crate::permission::grant_model;
use crate::tree::{
    AccountAssetA, AccountAssetE, AccountAssetW, Allow, Event, EventSet, FlexFuzzyTree,
    FlexTree,
    FuzzyTree, NodeValue, ReadSet, Tree, Write, WriteSet, READ_BIT,
};
use vstd::prelude::*;

verus! {

/// A resolved capability as patterns and bitmasks.
pub open spec fn allow_model(t: FuzzyTree<Allow>) -> Seq<(FuzzyV, u8)> {
    t.entries().map_values(|e: (FuzzyV, AccountAssetA)| (e.0, e.1.bit_mask))
}

/// A capability with `This` resolved against the authority.
pub open spec fn resolve_grants(g: Seq<(crate::keys::FlexFuzzyV, u8)>, this: Seq<char>) -> Seq<
    (FuzzyV, u8),
> {
    g.map_values(|e: (crate::keys::FlexFuzzyV, u8)| (resolve_pattern(e.0, this), e.1))
}

/// A requested pattern is approved: some grant captures it and carries the read bit.
pub open spec fn read_item_approved(allow: Seq<(FuzzyV, u8)>, q: FuzzyV) -> bool {
    exists|j: int|
        0 <= j < allow.len() && captures_fuzzy(#[trigger] allow[j].0, q) && READ_BIT & !allow[j].1
            == 0
}

/// Every requested pattern is approved.
pub open spec fn read_approved(request: Seq<FuzzyV>, allow: Seq<(FuzzyV, u8)>) -> bool {
    forall|i: int| 0 <= i < request.len() ==> read_item_approved(allow, #[trigger] request[i])
}

/// The OR of the masks of all grants that capture the key.
pub open spec fn union_mask(allow: Seq<(FuzzyV, u8)>, k: ExactV) -> u8
    decreases allow.len(),
{
    if allow.len() == 0 {
        0
    } else {
        let rest = union_mask(allow.drop_last(), k);
        if captures_exact(allow.last().0, k) {
            rest | allow.last().1
        } else {
            rest
        }
    }
}

/// Some grant captures the key.
pub open spec fn any_captures(allow: Seq<(FuzzyV, u8)>, k: ExactV) -> bool {
    exists|j: int| 0 <= j < allow.len() && captures_exact(#[trigger] allow[j].0, k)
}

/// An event is approved: some grant captures its key and its status bit lies
/// within the union of the capturing grants' masks.
pub open spec fn event_approved(allow: Seq<(FuzzyV, u8)>, k: ExactV, status: u8) -> bool {
    any_captures(allow, k) && status & !union_mask(allow, k) == 0
}

/// Every event is approved, each on its own.
pub open spec fn write_approved(events: Seq<(ExactV, AccountAssetE)>, allow: Seq<(FuzzyV, u8)>) -> bool {
    forall|i: int|
        0 <= i < events.len() ==> event_approved(
            allow,
            (#[trigger] events[i]).0,
            events[i].1.spec_status_bit(),
        )
}

/// The event that a write intent stands for.
pub open spec fn event_of(w: AccountAssetW) -> AccountAssetE {
    match w {
        AccountAssetW::Send(_) => AccountAssetE::Send,
        AccountAssetW::Receive(_) => AccountAssetE::Receive,
    }
}

/// One event per write intent, in order, on the resolved key.
pub open spec fn events_of(w: Seq<(FlexV, AccountAssetW)>, this: Seq<char>) -> Seq<
    (ExactV, AccountAssetE),
> {
    w.map_values(|e: (FlexV, AccountAssetW)| (resolve_key(e.0, this), event_of(e.1)))
}

/// The default authorizer.
pub struct Authorizer;

impl Authorizer {
    /// Approves the batch iff every requested pattern is captured by a grant
    /// that carries the read bit; an empty batch is approved.
    pub fn read_approval(signals: &ReadSet, receptors: &FuzzyTree<Allow>) -> (r: bool)
        ensures
            r == read_approved(signals.patterns(), allow_model(*receptors)),
    {
        let ghost allow = allow_model(*receptors);
        let ghost request = signals.patterns();
        let mut i: usize = 0;
        while i < signals.0.len()
            invariant
                i <= signals.0.len(),
                allow == allow_model(*receptors),
                request == signals.patterns(),
                forall|t: int| 0 <= t < i ==> read_item_approved(allow, #[trigger] request[t]),
            decreases signals.0.len() - i,
        {
            let signal = &signals.0[i].0;
            let mut approved = false;
            let mut j: usize = 0;
            while j < receptors.0.len()
                invariant
                    j <= receptors.0.len(),
                    allow == allow_model(*receptors),
                    request == signals.patterns(),
                    i < signals.0.len(),
                    signal@ == request[i as int],
                    approved == exists|t: int|
                        0 <= t < j && captures_fuzzy(#[trigger] allow[t].0, request[i as int])
                            && READ_BIT & !allow[t].1 == 0,
                decreases receptors.0.len() - j,
            {
                let (pattern, value) = &receptors.0[j];
                let NodeValue::AccountAsset(AccountAssetA { bit_mask }) = value;
                assert(allow[j as int] == (pattern@, *bit_mask));
                if pattern.captures(signal) && READ_BIT & !*bit_mask == 0 {
                    assert(captures_fuzzy(allow[j as int].0, request[i as int]) && READ_BIT
                        & !allow[j as int].1 == 0);
                    approved = true;
                }
                j = j + 1;
            }
            if !approved {
                return false;
            }
            i = i + 1;
        }
        true
    }

    /// Approves the batch iff every event, evaluated on its own, is captured by
    /// some grant and its status bit lies within the union of the capturing
    /// grants' masks; an empty batch is approved.
    pub fn write_approval(signals: &EventSet, receptors: &FuzzyTree<Allow>) -> (r: bool)
        ensures
            r == write_approved(signals.entries(), allow_model(*receptors)),
    {
        let ghost allow = allow_model(*receptors);
        let ghost events = signals.entries();
        let mut i: usize = 0;
        while i < signals.0.len()
            invariant
                i <= signals.0.len(),
                allow == allow_model(*receptors),
                events == signals.entries(),
                forall|t: int|
                    0 <= t < i ==> event_approved(
                        allow,
                        (#[trigger] events[t]).0,
                        events[t].1.spec_status_bit(),
                    ),
            decreases signals.0.len() - i,
        {
            let (key, value) = &signals.0[i];
            let NodeValue::AccountAsset(status) = value;
            let status_bit = status.status_bit();
            let mut union: u8 = 0;
            let mut matched = false;
            let mut j: usize = 0;
            while j < receptors.0.len()
                invariant
                    j <= receptors.0.len(),
                    allow == allow_model(*receptors),
                    union == union_mask(allow.subrange(0, j as int), key@),
                    matched == exists|t: int|
                        0 <= t < j && captures_exact(#[trigger] allow[t].0, key@),
                decreases receptors.0.len() - j,
            {
                let (pattern, value) = &receptors.0[j];
                let NodeValue::AccountAsset(AccountAssetA { bit_mask }) = value;
                proof {
                    assert(allow[j as int] == (pattern@, *bit_mask));
                    assert(allow.subrange(0, j + 1).drop_last() =~= allow.subrange(0, j as int));
                    assert(allow.subrange(0, j + 1).last() == allow[j as int]);
                }
                if pattern.captures(key) {
                    assert(captures_exact(allow[j as int].0, key@));
                    union = union | *bit_mask;
                    matched = true;
                }
                j = j + 1;
            }
            assert(allow.subrange(0, allow.len() as int) =~= allow);
            assert(events[i as int] == (key@, *status));
            if !matched || status_bit & !union != 0 {
                return false;
            }
            i = i + 1;
        }
        true
    }
}

impl Tree<Event> {
    /// One event per write intent, on the key resolved against the authority:
    /// a Send stands for the send bit, a Receive for the receive bit. Duplicates
    /// are kept.
    pub fn from_writes(write_set: &WriteSet, authority: &AccountK) -> (r: EventSet)
        ensures
            r.entries() == events_of(write_set.entries(), authority.0@),
    {
        let ghost target = events_of(write_set.entries(), authority.0@);
        let mut out: Vec<(NodeKey, NodeValue<Event>)> = Vec::new();
        let mut i: usize = 0;
        while i < write_set.0.len()
            invariant
                i <= write_set.0.len(),
                target == events_of(write_set.entries(), authority.0@),
                Tree(out).entries() == target.subrange(0, i as int),
            decreases write_set.0.len() - i,
        {
            let (key, value) = &write_set.0[i];
            let NodeValue::AccountAsset(change) = value;
            let event = match change {
                AccountAssetW::Send(_) => AccountAssetE::Send,
                AccountAssetW::Receive(_) => AccountAssetE::Receive,
            };
            let resolved = key.duplicate().resolve(authority.0.clone());
            proof {
                crate::keys::lemma_resolve_key_view(*key, authority.0);
                assert(target[i as int] == (resolved@, event));
            }
            let ghost prev = Tree(out).entries();
            let ghost rv = resolved@;
            out.push((resolved, NodeValue::AccountAsset(event)));
            assert(Tree(out).entries() =~= prev.push((rv, event)));
            i = i + 1;
            assert(Tree(out).entries() =~= target.subrange(0, i as int));
        }
        assert(target.subrange(0, target.len() as int) =~= target);
        Tree(out)
    }
}

impl FlexFuzzyTree<Allow> {
    /// The grants with `This` resolved against `this`, entry by entry.
    pub fn resolve(&self, this: &KeyElem) -> (r: FuzzyTree<Allow>)
        ensures
            allow_model(r) == resolve_grants(grant_model(*self), this@),
    {
        let ghost target = resolve_grants(grant_model(*self), this@);
        let mut out: Vec<(FuzzyNodeKey, NodeValue<Allow>)> = Vec::new();
        let mut i: usize = 0;
        while i < self.0.len()
            invariant
                i <= self.0.len(),
                target == resolve_grants(grant_model(*self), this@),
                allow_model(FuzzyTree(out)) == target.subrange(0, i as int),
            decreases self.0.len() - i,
        {
            let (key, value) = &self.0[i];
            let NodeValue::AccountAsset(AccountAssetA { bit_mask }) = value;
            let resolved = key.duplicate().resolve(this.clone());
            proof {
                crate::keys::lemma_resolve_pattern_view(*key, *this);
                assert(target[i as int] == (resolved@, *bit_mask));
            }
            let ghost prev = allow_model(FuzzyTree(out));
            let ghost rv = resolved@;
            out.push((resolved, NodeValue::AccountAsset(AccountAssetA { bit_mask: *bit_mask })));
            assert(allow_model(FuzzyTree(out)) =~= prev.push((rv, *bit_mask)));
            i = i + 1;
            assert(allow_model(FuzzyTree(out)) =~= target.subrange(0, i as int));
        }
        assert(target.subrange(0, target.len() as int) =~= target);
        FuzzyTree(out)
    }
}

impl FlexTree<Write> {
    /// The intents with `This` resolved against `this`, entry by entry.
    pub fn resolve(&self, this: &KeyElem) -> (r: Tree<Write>)
        ensures
            r.entries() == self.entries().map_values(
                |e: (FlexV, AccountAssetW)| (resolve_key(e.0, this@), e.1),
            ),
    {
        let ghost target = self.entries().map_values(
            |e: (FlexV, AccountAssetW)| (resolve_key(e.0, this@), e.1),
        );
        let mut out: Vec<(NodeKey, NodeValue<Write>)> = Vec::new();
        let mut i: usize = 0;
        while i < self.0.len()
            invariant
                i <= self.0.len(),
                target == self.entries().map_values(
                    |e: (FlexV, AccountAssetW)| (resolve_key(e.0, this@), e.1),
                ),
                Tree(out).entries() == target.subrange(0, i as int),
            decreases self.0.len() - i,
        {
            let (key, value) = &self.0[i];
            let NodeValue::AccountAsset(change) = value;
            let resolved = key.duplicate().resolve(this.clone());
            proof {
                crate::keys::lemma_resolve_key_view(*key, *this);
                assert(target[i as int] == (resolved@, *change));
            }
            let ghost prev = Tree(out).entries();
            let ghost rv = resolved@;
            out.push((resolved, NodeValue::AccountAsset(*change)));
            assert(Tree(out).entries() =~= prev.push((rv, *change)));
            i = i + 1;
            assert(Tree(out).entries() =~= target.subrange(0, i as int));
        }
        assert(target.subrange(0, target.len() as int) =~= target);
        Tree(out)
    }
}

/// A pending write is approved iff each of its events, taken alone, would be:
/// one rejected event rejects the whole batch.
pub proof fn lemma_write_approval_per_event(
    events: Seq<(ExactV, AccountAssetE)>,
    allow: Seq<(FuzzyV, u8)>,
)
    ensures
        write_approved(events, allow) <==> forall|i: int|
            0 <= i < events.len() ==> write_approved(seq![#[trigger] events[i]], allow),
        forall|i: int|
            0 <= i < events.len() && !event_approved(
                allow,
                (#[trigger] events[i]).0,
                events[i].1.spec_status_bit(),
            ) ==> !write_approved(events, allow),
{
    assert forall|i: int| 0 <= i < events.len() implies write_approved(
        seq![#[trigger] events[i]],
        allow,
    ) == event_approved(allow, events[i].0, events[i].1.spec_status_bit()) by {
        let one = seq![events[i]];
        assert(one[0] == events[i]);
    }
}

} // verus!
