//! Key algebra: exact keys, wildcard ("fuzzy") patterns and self-referential
//! ("flex") keys, with capture and resolution.
use vstd::prelude::*;

verus! {

/// An opaque identifier: an account, an asset or a role.
pub type KeyElem = String;

/// A key element that may stand for the authority driving the current operation.
#[derive(Debug, Clone, PartialEq, Eq, PartialOrd, Ord, Hash)]
pub enum FlexKeyElem {
    /// The authority currently executing; resolved to a concrete element at evaluation time.
    This,
    /// An explicit, concrete element.
    That(KeyElem),
}

/// Mathematical model of a [`FlexKeyElem`].
pub enum FlexElem {
    This,
    That(Seq<char>),
}

#[derive(Debug, Clone, PartialEq, Eq, PartialOrd, Ord, Hash)]
pub struct SingleKey(pub KeyElem);

#[derive(Debug, Clone, PartialEq, Eq, PartialOrd, Ord, Hash)]
pub struct FlexSingleKey(pub FlexKeyElem);

#[derive(Debug, Clone, PartialEq, Eq, PartialOrd, Ord, Hash)]
pub struct CompositeKey(pub KeyElem, pub KeyElem);

#[derive(Debug, Clone, PartialEq, Eq, PartialOrd, Ord, Hash)]
pub struct FlexCompositeKey(pub FlexKeyElem, pub KeyElem);

#[derive(Debug, Clone, PartialEq, Eq, PartialOrd, Ord, Hash)]
pub struct FuzzySingleKey(pub Option<KeyElem>);

#[derive(Debug, Clone, PartialEq, Eq, PartialOrd, Ord, Hash)]
pub struct FlexFuzzySingleKey(pub Option<FlexKeyElem>);

#[derive(Debug, Clone, PartialEq, Eq, PartialOrd, Ord, Hash)]
pub struct FuzzyCompositeKey(pub Option<KeyElem>, pub Option<KeyElem>);

#[derive(Debug, Clone, PartialEq, Eq, PartialOrd, Ord, Hash)]
pub struct FlexFuzzyCompositeKey(pub Option<FlexKeyElem>, pub Option<KeyElem>);

pub type AccountK = SingleKey;

pub type ExecutableK = SingleKey;

pub type PermissionK = SingleKey;

pub type AccountAssetK = CompositeKey;

pub type AccountPermissionK = CompositeKey;

pub type FlexAccountAssetK = FlexCompositeKey;

pub type FuzzyAccountK = FuzzySingleKey;

pub type FuzzyAccountAssetK = FuzzyCompositeKey;

pub type FlexFuzzyAccountAssetK = FlexFuzzyCompositeKey;

#[derive(Debug, Clone, PartialEq, Eq, PartialOrd, Ord, Hash)]
pub enum NodeKey {
    AccountAsset(AccountAssetK),
}

#[derive(Debug, Clone, PartialEq, Eq, PartialOrd, Ord, Hash)]
pub enum FlexNodeKey {
    AccountAsset(FlexAccountAssetK),
}

#[derive(Debug, Clone, PartialEq, Eq, PartialOrd, Ord, Hash)]
pub enum FuzzyNodeKey {
    AccountAsset(FuzzyAccountAssetK),
}

#[derive(Debug, Clone, PartialEq, Eq, PartialOrd, Ord, Hash)]
pub enum FlexFuzzyNodeKey {
    AccountAsset(FlexFuzzyAccountAssetK),
}

/// Model of an exact two-position key.
pub type ExactV = (Seq<char>, Seq<char>);

/// Model of a two-position pattern; `None` is a wildcard.
pub type FuzzyV = (Option<Seq<char>>, Option<Seq<char>>);

/// Model of a two-position key whose first position may be `This`.
pub type FlexV = (FlexElem, Seq<char>);

/// Model of a two-position pattern whose first position may be `This`.
pub type FlexFuzzyV = (Option<FlexElem>, Option<Seq<char>>);

pub open spec fn opt_view(o: Option<KeyElem>) -> Option<Seq<char>> {
    match o {
        Some(s) => Some(s@),
        None => None,
    }
}

pub open spec fn opt_flex_view(o: Option<FlexKeyElem>) -> Option<FlexElem> {
    match o {
        Some(e) => Some(e@),
        None => None,
    }
}

impl View for FlexKeyElem {
    type V = FlexElem;

    open spec fn view(&self) -> FlexElem {
        match self {
            FlexKeyElem::This => FlexElem::This,
            FlexKeyElem::That(k) => FlexElem::That(k@),
        }
    }
}

impl View for CompositeKey {
    type V = ExactV;

    open spec fn view(&self) -> ExactV {
        (self.0@, self.1@)
    }
}

impl View for FlexCompositeKey {
    type V = FlexV;

    open spec fn view(&self) -> FlexV {
        (self.0@, self.1@)
    }
}

impl View for FuzzyCompositeKey {
    type V = FuzzyV;

    open spec fn view(&self) -> FuzzyV {
        (opt_view(self.0), opt_view(self.1))
    }
}

impl View for FlexFuzzyCompositeKey {
    type V = FlexFuzzyV;

    open spec fn view(&self) -> FlexFuzzyV {
        (opt_flex_view(self.0), opt_view(self.1))
    }
}

impl View for NodeKey {
    type V = ExactV;

    open spec fn view(&self) -> ExactV {
        match self {
            NodeKey::AccountAsset(k) => k@,
        }
    }
}

impl View for FlexNodeKey {
    type V = FlexV;

    open spec fn view(&self) -> FlexV {
        match self {
            FlexNodeKey::AccountAsset(k) => k@,
        }
    }
}

impl View for FuzzyNodeKey {
    type V = FuzzyV;

    open spec fn view(&self) -> FuzzyV {
        match self {
            FuzzyNodeKey::AccountAsset(k) => k@,
        }
    }
}

impl View for FlexFuzzyNodeKey {
    type V = FlexFuzzyV;

    open spec fn view(&self) -> FlexFuzzyV {
        match self {
            FlexFuzzyNodeKey::AccountAsset(k) => k@,
        }
    }
}

// ---------------------------------------------------------------------------
// Capture
/// A pattern position admits a concrete element: it is a wildcard or equal to it.
pub open spec fn elem_captures(p: Option<Seq<char>>, c: Seq<char>) -> bool {
    p is None || p == Some(c)
}

/// A pattern position admits a candidate pattern position: it is a wildcard, or
/// both carry the same concrete element.
pub open spec fn elem_captures_fuzzy(p: Option<Seq<char>>, c: Option<Seq<char>>) -> bool {
    p is None || (c is Some && p == c)
}

/// A pattern captures an exact key: positionwise conjunction.
pub open spec fn captures_exact(p: FuzzyV, c: ExactV) -> bool {
    elem_captures(p.0, c.0) && elem_captures(p.1, c.1)
}

/// A pattern captures another pattern: a wildcard in the candidate is only
/// admitted by a wildcard.
pub open spec fn captures_fuzzy(p: FuzzyV, c: FuzzyV) -> bool {
    elem_captures_fuzzy(p.0, c.0) && elem_captures_fuzzy(p.1, c.1)
}

/// Whether a pattern admits a candidate.
pub trait Capture<T> {
    spec fn spec_captures(&self, candidate: &T) -> bool;

    fn captures(&self, candidate: &T) -> (r: bool)
        ensures
            r == self.spec_captures(candidate),
    ;
}

fn opt_elem_captures(p: &Option<KeyElem>, c: &KeyElem) -> (r: bool)
    ensures
        r == elem_captures(opt_view(*p), c@),
{
    match p {
        None => true,
        Some(p) => *p == *c,
    }
}

fn opt_elem_captures_fuzzy(p: &Option<KeyElem>, c: &Option<KeyElem>) -> (r: bool)
    ensures
        r == elem_captures_fuzzy(opt_view(*p), opt_view(*c)),
{
    match p {
        None => true,
        Some(p) => match c {
            None => false,
            Some(c) => *p == *c,
        },
    }
}

impl Capture<SingleKey> for FuzzySingleKey {
    open spec fn spec_captures(&self, candidate: &SingleKey) -> bool {
        elem_captures(opt_view(self.0), candidate.0@)
    }

    fn captures(&self, candidate: &SingleKey) -> (r: bool) {
        opt_elem_captures(&self.0, &candidate.0)
    }
}

impl Capture<CompositeKey> for FuzzyCompositeKey {
    open spec fn spec_captures(&self, candidate: &CompositeKey) -> bool {
        captures_exact(self@, candidate@)
    }

    fn captures(&self, candidate: &CompositeKey) -> (r: bool) {
        opt_elem_captures(&self.0, &candidate.0) && opt_elem_captures(&self.1, &candidate.1)
    }
}

impl Capture<FuzzyCompositeKey> for FuzzyCompositeKey {
    open spec fn spec_captures(&self, candidate: &FuzzyCompositeKey) -> bool {
        captures_fuzzy(self@, candidate@)
    }

    fn captures(&self, candidate: &FuzzyCompositeKey) -> (r: bool) {
        opt_elem_captures_fuzzy(&self.0, &candidate.0) && opt_elem_captures_fuzzy(
            &self.1,
            &candidate.1,
        )
    }
}

impl Capture<NodeKey> for FuzzyNodeKey {
    open spec fn spec_captures(&self, candidate: &NodeKey) -> bool {
        captures_exact(self@, candidate@)
    }

    fn captures(&self, candidate: &NodeKey) -> (r: bool) {
        let FuzzyNodeKey::AccountAsset(p) = self;
        let NodeKey::AccountAsset(c) = candidate;
        p.captures(c)
    }
}

impl Capture<FuzzyNodeKey> for FuzzyNodeKey {
    open spec fn spec_captures(&self, candidate: &FuzzyNodeKey) -> bool {
        captures_fuzzy(self@, candidate@)
    }

    fn captures(&self, candidate: &FuzzyNodeKey) -> (r: bool) {
        let FuzzyNodeKey::AccountAsset(p) = self;
        let FuzzyNodeKey::AccountAsset(c) = candidate;
        p.captures(c)
    }
}

// ---------------------------------------------------------------------------
// Resolution of `This`
/// Resolution of one element against the authority `this`.
pub open spec fn resolve_elem(e: FlexElem, this: Seq<char>) -> Seq<char> {
    match e {
        FlexElem::This => this,
        FlexElem::That(x) => x,
    }
}

pub open spec fn resolve_opt_elem(e: Option<FlexElem>, this: Seq<char>) -> Option<Seq<char>> {
    match e {
        Some(x) => Some(resolve_elem(x, this)),
        None => None,
    }
}

/// Resolution of a flex key's model.
pub open spec fn resolve_key(k: FlexV, this: Seq<char>) -> ExactV {
    (resolve_elem(k.0, this), k.1)
}

/// Resolution of a flex pattern's model.
pub open spec fn resolve_pattern(p: FlexFuzzyV, this: Seq<char>) -> FuzzyV {
    (resolve_opt_elem(p.0, this), p.1)
}

/// Replaces every `This` with a concrete authority.
pub trait Resolve: Sized {
    type Resolved;

    spec fn spec_resolve(self, this: KeyElem) -> Self::Resolved;

    fn resolve(self, this: KeyElem) -> (r: Self::Resolved)
        ensures
            r == self.spec_resolve(this),
    ;
}

/// Turns a concrete element back into an explicit flex element.
pub trait UnResolve: Sized {
    type UnResolved;

    spec fn spec_unresolve(self) -> Self::UnResolved;

    fn unresolve(self) -> (r: Self::UnResolved)
        ensures
            r == self.spec_unresolve(),
    ;
}

impl Resolve for FlexKeyElem {
    type Resolved = KeyElem;

    open spec fn spec_resolve(self, this: KeyElem) -> KeyElem {
        match self {
            FlexKeyElem::This => this,
            FlexKeyElem::That(that) => that,
        }
    }

    fn resolve(self, this: KeyElem) -> (r: KeyElem) {
        match self {
            FlexKeyElem::This => this,
            FlexKeyElem::That(that) => that,
        }
    }
}

impl UnResolve for KeyElem {
    type UnResolved = FlexKeyElem;

    open spec fn spec_unresolve(self) -> FlexKeyElem {
        FlexKeyElem::That(self)
    }

    fn unresolve(self) -> (r: FlexKeyElem) {
        FlexKeyElem::That(self)
    }
}

pub open spec fn resolve_opt(e: Option<FlexKeyElem>, this: KeyElem) -> Option<KeyElem> {
    match e {
        Some(x) => Some(x.spec_resolve(this)),
        None => None,
    }
}

fn resolve_option(e: Option<FlexKeyElem>, this: KeyElem) -> (r: Option<KeyElem>)
    ensures
        r == resolve_opt(e, this),
{
    match e {
        Some(x) => Some(x.resolve(this)),
        None => None,
    }
}

impl Resolve for FlexSingleKey {
    type Resolved = SingleKey;

    open spec fn spec_resolve(self, this: KeyElem) -> SingleKey {
        SingleKey(self.0.spec_resolve(this))
    }

    fn resolve(self, this: KeyElem) -> (r: SingleKey) {
        SingleKey(self.0.resolve(this))
    }
}

impl Resolve for FlexFuzzySingleKey {
    type Resolved = FuzzySingleKey;

    open spec fn spec_resolve(self, this: KeyElem) -> FuzzySingleKey {
        FuzzySingleKey(resolve_opt(self.0, this))
    }

    fn resolve(self, this: KeyElem) -> (r: FuzzySingleKey) {
        FuzzySingleKey(resolve_option(self.0, this))
    }
}

impl Resolve for FlexCompositeKey {
    type Resolved = CompositeKey;

    open spec fn spec_resolve(self, this: KeyElem) -> CompositeKey {
        CompositeKey(self.0.spec_resolve(this), self.1)
    }

    fn resolve(self, this: KeyElem) -> (r: CompositeKey) {
        CompositeKey(self.0.resolve(this), self.1)
    }
}

impl Resolve for FlexFuzzyCompositeKey {
    type Resolved = FuzzyCompositeKey;

    open spec fn spec_resolve(self, this: KeyElem) -> FuzzyCompositeKey {
        FuzzyCompositeKey(resolve_opt(self.0, this), self.1)
    }

    fn resolve(self, this: KeyElem) -> (r: FuzzyCompositeKey) {
        FuzzyCompositeKey(resolve_option(self.0, this), self.1)
    }
}

impl Resolve for FlexNodeKey {
    type Resolved = NodeKey;

    open spec fn spec_resolve(self, this: KeyElem) -> NodeKey {
        match self {
            FlexNodeKey::AccountAsset(key) => NodeKey::AccountAsset(key.spec_resolve(this)),
        }
    }

    fn resolve(self, this: KeyElem) -> (r: NodeKey) {
        match self {
            FlexNodeKey::AccountAsset(key) => NodeKey::AccountAsset(key.resolve(this)),
        }
    }
}

impl Resolve for FlexFuzzyNodeKey {
    type Resolved = FuzzyNodeKey;

    open spec fn spec_resolve(self, this: KeyElem) -> FuzzyNodeKey {
        match self {
            FlexFuzzyNodeKey::AccountAsset(key) => FuzzyNodeKey::AccountAsset(
                key.spec_resolve(this),
            ),
        }
    }

    fn resolve(self, this: KeyElem) -> (r: FuzzyNodeKey) {
        match self {
            FlexFuzzyNodeKey::AccountAsset(key) => FuzzyNodeKey::AccountAsset(key.resolve(this)),
        }
    }
}

/// The model of a resolved flex key is the resolution of its model.
pub proof fn lemma_resolve_key_view(k: FlexNodeKey, this: KeyElem)
    ensures
        k.spec_resolve(this)@ == resolve_key(k@, this@),
{
}

/// The model of a resolved flex pattern is the resolution of its model.
pub proof fn lemma_resolve_pattern_view(p: FlexFuzzyNodeKey, this: KeyElem)
    ensures
        p.spec_resolve(this)@ == resolve_pattern(p@, this@),
{
}

// ---------------------------------------------------------------------------
// Equality of keys by their models
pub fn same_exact(a: &NodeKey, b: &NodeKey) -> (r: bool)
    ensures
        r == (a@ == b@),
{
    let NodeKey::AccountAsset(a) = a;
    let NodeKey::AccountAsset(b) = b;
    a.0 == b.0 && a.1 == b.1
}

fn same_flex_elem(a: &FlexKeyElem, b: &FlexKeyElem) -> (r: bool)
    ensures
        r == (a@ == b@),
{
    match (a, b) {
        (FlexKeyElem::This, FlexKeyElem::This) => true,
        (FlexKeyElem::That(x), FlexKeyElem::That(y)) => *x == *y,
        _ => false,
    }
}

fn same_opt_elem(a: &Option<KeyElem>, b: &Option<KeyElem>) -> (r: bool)
    ensures
        r == (opt_view(*a) == opt_view(*b)),
{
    match (a, b) {
        (None, None) => true,
        (Some(x), Some(y)) => *x == *y,
        _ => false,
    }
}

pub fn same_flex(a: &FlexNodeKey, b: &FlexNodeKey) -> (r: bool)
    ensures
        r == (a@ == b@),
{
    let FlexNodeKey::AccountAsset(a) = a;
    let FlexNodeKey::AccountAsset(b) = b;
    same_flex_elem(&a.0, &b.0) && a.1 == b.1
}

pub fn same_flex_fuzzy(a: &FlexFuzzyNodeKey, b: &FlexFuzzyNodeKey) -> (r: bool)
    ensures
        r == (a@ == b@),
{
    let FlexFuzzyNodeKey::AccountAsset(a) = a;
    let FlexFuzzyNodeKey::AccountAsset(b) = b;
    let first = match (&a.0, &b.0) {
        (None, None) => true,
        (Some(x), Some(y)) => same_flex_elem(x, y),
        _ => false,
    };
    first && same_opt_elem(&a.1, &b.1)
}

// ---------------------------------------------------------------------------
// Copies that keep the value
impl SingleKey {
    pub fn duplicate(&self) -> (r: Self)
        ensures
            r == *self,
    {
        SingleKey(self.0.clone())
    }
}

impl CompositeKey {
    pub fn duplicate(&self) -> (r: Self)
        ensures
            r == *self,
    {
        CompositeKey(self.0.clone(), self.1.clone())
    }
}

impl FlexKeyElem {
    pub fn duplicate(&self) -> (r: Self)
        ensures
            r == *self,
    {
        match self {
            FlexKeyElem::This => FlexKeyElem::This,
            FlexKeyElem::That(k) => FlexKeyElem::That(k.clone()),
        }
    }
}

fn duplicate_opt(o: &Option<KeyElem>) -> (r: Option<KeyElem>)
    ensures
        r == *o,
{
    match o {
        Some(k) => Some(k.clone()),
        None => None,
    }
}

impl NodeKey {
    pub fn duplicate(&self) -> (r: Self)
        ensures
            r == *self,
    {
        let NodeKey::AccountAsset(k) = self;
        NodeKey::AccountAsset(k.duplicate())
    }
}

impl FlexNodeKey {
    pub fn duplicate(&self) -> (r: Self)
        ensures
            r == *self,
    {
        let FlexNodeKey::AccountAsset(k) = self;
        FlexNodeKey::AccountAsset(FlexCompositeKey(k.0.duplicate(), k.1.clone()))
    }
}

impl FuzzyNodeKey {
    pub fn duplicate(&self) -> (r: Self)
        ensures
            r == *self,
    {
        let FuzzyNodeKey::AccountAsset(k) = self;
        FuzzyNodeKey::AccountAsset(FuzzyCompositeKey(duplicate_opt(&k.0), duplicate_opt(&k.1)))
    }
}

impl FlexFuzzyNodeKey {
    pub fn duplicate(&self) -> (r: Self)
        ensures
            r == *self,
    {
        let FlexFuzzyNodeKey::AccountAsset(k) = self;
        let first = match &k.0 {
            Some(e) => Some(e.duplicate()),
            None => None,
        };
        FlexFuzzyNodeKey::AccountAsset(FlexFuzzyCompositeKey(first, duplicate_opt(&k.1)))
    }
}

// ---------------------------------------------------------------------------
// Generalizations of an exact key
/// Every pattern that generalizes an exact key: each position either kept or
/// replaced by a wildcard, so that the patterns are exactly those capturing the
/// key, without repetition.
pub fn super_keys(key: &CompositeKey) -> (r: Vec<FuzzyCompositeKey>)
    ensures
        r.len() == 4,
        forall|i: int| 0 <= i < r.len() ==> captures_exact(#[trigger] r@[i]@, key@),
        forall|p: FuzzyV| captures_exact(p, key@) ==> exists|i: int| 0 <= i < r.len() && #[trigger] r@[i]@ == p,
        forall|i: int, j: int| 0 <= i < j < r.len() ==> r@[i]@ != r@[j]@,
{
    let mut r: Vec<FuzzyCompositeKey> = Vec::new();
    r.push(FuzzyCompositeKey(None, None));
    r.push(FuzzyCompositeKey(None, Some(key.1.clone())));
    r.push(FuzzyCompositeKey(Some(key.0.clone()), None));
    r.push(FuzzyCompositeKey(Some(key.0.clone()), Some(key.1.clone())));
    assert(r@[0]@ == (None::<Seq<char>>, None::<Seq<char>>));
    assert(r@[1]@ == (None::<Seq<char>>, Some(key.1@)));
    assert(r@[2]@ == (Some(key.0@), None::<Seq<char>>));
    assert(r@[3]@ == (Some(key.0@), Some(key.1@)));
    assert forall|p: FuzzyV| captures_exact(p, key@) implies exists|i: int|
        0 <= i < r.len() && #[trigger] r@[i]@ == p by {
        if p.0 is None {
            if p.1 is None {
                assert(r@[0]@ == p);
            } else {
                assert(r@[1]@ == p);
            }
        } else {
            if p.1 is None {
                assert(r@[2]@ == p);
            } else {
                assert(r@[3]@ == p);
            }
        }
    }
    r
}

// ---------------------------------------------------------------------------
// Laws
/// An all-wildcard pattern captures every key; a fully concrete pattern captures
/// the key with the same elements; a pattern whose first element differs from
/// the key's does not capture it.
pub proof fn lemma_capture_laws(k: ExactV, a: Seq<char>, b: Seq<char>, c: Seq<char>)
    ensures
        captures_exact((None, None), k),
        captures_exact((Some(a), Some(b)), (a, b)),
        a != c ==> forall|y: Option<Seq<char>>, z: Seq<char>|
            !#[trigger] captures_exact((Some(a), y), (c, z)),
{
}

/// `This` resolves to the authority; `That(x)` resolves to `x` whatever the authority.
pub proof fn lemma_resolve_laws(authority: KeyElem, x: KeyElem, other: KeyElem)
    ensures
        FlexKeyElem::This.spec_resolve(authority) == authority,
        FlexKeyElem::That(x).spec_resolve(authority) == x,
        FlexKeyElem::That(x).spec_resolve(authority) == FlexKeyElem::That(x).spec_resolve(other),
{
}

/// Resolution is idempotent: a resolved element holds no `This`, so resolving its
/// explicit form again against any authority gives it back.
pub proof fn lemma_resolve_idempotent(e: FlexKeyElem, authority: KeyElem, other: KeyElem)
    ensures
        e.spec_resolve(authority).spec_unresolve().spec_resolve(other) == e.spec_resolve(
            authority,
        ),
{
}

} // verus!
