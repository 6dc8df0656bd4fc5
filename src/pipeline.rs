//! The execution pipeline. Each phase is a value consumed by the only legal
//! next step, so no phase can be revisited: the read request is approved
//! before the ledger is read, the view is all the instruction sees, and the
//! write intents are approved before the ledger is changed.
use crate::aggregate::aggregate_intents;
use crate::approval::{
    allow_model, events_of, read_approved, resolve_grants, write_approved, Authorizer,
};
use crate::error::Rejection;
use crate::instruction::SupplyAll;
use crate::keys::{AccountK, ExactV, FuzzyV};
use crate::ledger::{apply_ops, disclosed, resolve_ops, World};
use crate::tree::{
    AccountAssetV, AccountAssetW, Allow, EventSet, FuzzyTree, ReadSet, Tree, ViewSet, Write,
    WriteSet,
};
use vstd::prelude::*;

verus! {

/// An attempt started on behalf of an authority.
pub struct Init {
    authority: AccountK,
}

/// The instruction has said what it wants to read.
pub struct ToRead {
    authority: AccountK,
    request: ReadSet,
}

/// The read request is approved.
pub struct Reading {
    authority: AccountK,
    request: ReadSet,
    permission: FuzzyTree<Allow>,
}

/// The approved records have been read.
pub struct HasRead {
    authority: AccountK,
    view: ViewSet,
    permission: FuzzyTree<Allow>,
}

/// The instruction has said what it wants to write.
pub struct ToWrite {
    authority: AccountK,
    request: WriteSet,
    permission: FuzzyTree<Allow>,
}

/// The write intents are approved.
pub struct Writing {
    authority: AccountK,
    request: WriteSet,
}

/// The writes are committed.
pub struct HasWritten {
    result: Tree<Write>,
}

/// The capability of an authority with `This` resolved against it.
pub open spec fn resolved_capability(world: World, authority: Seq<char>) -> Seq<(FuzzyV, u8)> {
    resolve_grants(world.capability(authority), authority)
}

/// Merged intents applied to the records, or why they cannot be.
pub open spec fn commit_outcome(
    records: Seq<(ExactV, AccountAssetV)>,
    intents: Seq<(crate::keys::FlexV, AccountAssetW)>,
    authority: Seq<char>,
) -> Result<Seq<(ExactV, AccountAssetV)>, Rejection> {
    match aggregate_intents(intents) {
        Err(e) => Err(e),
        Ok(merged) => match apply_ops(records, resolve_ops(merged, authority)) {
            Some(t) => Ok(t),
            None => Err(Rejection::InsufficientBalance),
        },
    }
}

/// The intents the supply instruction derives from what it may read.
pub open spec fn supply_intents(world: World, instruction: SupplyAll) -> Seq<
    (crate::keys::FlexV, AccountAssetW),
> {
    instruction.spec_write_request(world.records().filter(disclosed(instruction.spec_read_request())))
}

/// What an attempt of the supply instruction yields: the records after commit,
/// or the first gate that stops it.
pub open spec fn execution_outcome(world: World, authority: Seq<char>, instruction: SupplyAll) -> Result<
    Seq<(ExactV, AccountAssetV)>,
    Rejection,
> {
    let allow = resolved_capability(world, authority);
    let request = instruction.spec_read_request();
    if !read_approved(request, allow) {
        Err(Rejection::ReadRejected)
    } else {
        let intents = supply_intents(world, instruction);
        if !write_approved(events_of(intents, authority), allow) {
            Err(Rejection::WriteRejected)
        } else {
            commit_outcome(world.records(), intents, authority)
        }
    }
}

/// Starts an attempt on behalf of `authority`.
pub fn initiate(authority: AccountK) -> (r: Init)
    ensures
        r.authority() == authority,
{
    Init { authority }
}

impl Init {
    pub closed spec fn authority(&self) -> AccountK {
        self.authority
    }

    /// Records the patterns the instruction asks to read.
    pub fn read_request(self, request: ReadSet) -> (r: ToRead)
        ensures
            r.authority() == self.authority(),
            r.request() == request,
    {
        ToRead { authority: self.authority, request }
    }
}

impl ToRead {
    pub closed spec fn authority(&self) -> AccountK {
        self.authority
    }

    pub closed spec fn request(&self) -> ReadSet {
        self.request
    }

    /// Approves the read request against the authority's capability, resolved
    /// against the authority; `ReadRejected` where it is denied.
    pub fn read_approval(self, world: &World) -> (r: Result<Reading, Rejection>)
        ensures
            match r {
                Ok(next) => read_approved(
                    self.request().patterns(),
                    resolved_capability(*world, self.authority().0@),
                ) && next.authority() == self.authority() && next.request() == self.request()
                    && allow_model(next.permission()) == resolved_capability(
                    *world,
                    self.authority().0@,
                ),
                Err(e) => e == Rejection::ReadRejected && !read_approved(
                    self.request().patterns(),
                    resolved_capability(*world, self.authority().0@),
                ),
            },
    {
        let ToRead { authority, request } = self;
        let permission = world.permission(&authority).resolve(&authority.0);
        if !Authorizer::read_approval(&request, &permission) {
            return Err(Rejection::ReadRejected);
        }
        Ok(Reading { authority, request, permission })
    }
}

impl Reading {
    pub closed spec fn authority(&self) -> AccountK {
        self.authority
    }

    pub closed spec fn request(&self) -> ReadSet {
        self.request
    }

    pub closed spec fn permission(&self) -> FuzzyTree<Allow> {
        self.permission
    }

    /// Reads the approved records; never fails.
    pub fn read(self, world: &World) -> (r: Result<HasRead, Rejection>)
        ensures
            r matches Ok(next) && next.authority() == self.authority() && next.permission()
                == self.permission() && next.spec_view().entries() == world.records().filter(
                disclosed(self.request().patterns()),
            ),
    {
        let Reading { authority, request, permission } = self;
        let view = world.read(&request);
        Ok(HasRead { authority, view, permission })
    }
}

impl HasRead {
    pub closed spec fn authority(&self) -> AccountK {
        self.authority
    }

    pub closed spec fn permission(&self) -> FuzzyTree<Allow> {
        self.permission
    }

    pub closed spec fn spec_view(&self) -> ViewSet {
        self.view
    }

    /// The records the instruction may see.
    pub fn view(&self) -> (r: &ViewSet)
        ensures
            *r == self.spec_view(),
    {
        &self.view
    }

    /// Records the intents the instruction derived from the view.
    pub fn write_request(self, request: WriteSet) -> (r: ToWrite)
        ensures
            r.authority() == self.authority(),
            r.permission() == self.permission(),
            r.request() == request,
    {
        ToWrite { authority: self.authority, request, permission: self.permission }
    }
}

impl ToWrite {
    pub closed spec fn authority(&self) -> AccountK {
        self.authority
    }

    pub closed spec fn permission(&self) -> FuzzyTree<Allow> {
        self.permission
    }

    pub closed spec fn request(&self) -> WriteSet {
        self.request
    }

    /// Approves the events derived from the intents; `WriteRejected` where any
    /// one of them is denied.
    pub fn write_approval(self) -> (r: Result<Writing, Rejection>)
        ensures
            match r {
                Ok(next) => write_approved(
                    events_of(self.request().entries(), self.authority().0@),
                    allow_model(self.permission()),
                ) && next.authority() == self.authority() && next.request() == self.request(),
                Err(e) => e == Rejection::WriteRejected && !write_approved(
                    events_of(self.request().entries(), self.authority().0@),
                    allow_model(self.permission()),
                ),
            },
    {
        let ToWrite { authority, request, permission } = self;
        let events = EventSet::from_writes(&request, &authority);
        if !Authorizer::write_approval(&events, &permission) {
            return Err(Rejection::WriteRejected);
        }
        Ok(Writing { authority, request })
    }
}

impl Writing {
    pub closed spec fn authority(&self) -> AccountK {
        self.authority
    }

    pub closed spec fn request(&self) -> WriteSet {
        self.request
    }

    /// Merges the intents and applies them to the ledger as one batch, with
    /// `This` resolved against the authority. On any failure the ledger is
    /// unchanged.
    pub fn write(self, world: &mut World) -> (r: Result<HasWritten, Rejection>)
        requires
            old(world).wf(),
        ensures
            final(world).wf(),
            final(world).permission == old(world).permission,
            final(world).account_permission == old(world).account_permission,
            match r {
                Ok(done) => commit_outcome(
                    old(world).records(),
                    self.request().entries(),
                    self.authority().0@,
                ) == Ok::<_, Rejection>(final(world).records()) && (aggregate_intents(
                    self.request().entries(),
                ) matches Ok(merged) && done.result().entries() == resolve_ops(
                    merged,
                    self.authority().0@,
                )),
                Err(e) => commit_outcome(
                    old(world).records(),
                    self.request().entries(),
                    self.authority().0@,
                ) == Err::<Seq<(ExactV, AccountAssetV)>, _>(e) && *final(world) == *old(world),
            },
    {
        let Writing { authority, request } = self;
        let merged = match request.aggregate() {
            Ok(m) => m,
            Err(e) => return Err(e),
        };
        match world.write(&merged, &authority) {
            Ok(()) => {},
            Err(e) => return Err(e),
        }
        let result = merged.resolve(&authority.0);
        Ok(HasWritten { result })
    }
}

impl HasWritten {
    pub closed spec fn result(&self) -> Tree<Write> {
        self.result
    }

    /// The committed changes, on resolved keys.
    pub fn committed(&self) -> (r: &Tree<Write>)
        ensures
            *r == self.result(),
    {
        &self.result
    }
}

/// Runs the supply instruction for `authority` through every phase. On success
/// the records are those `execution_outcome` gives; on rejection the ledger is
/// unchanged and the reason is the first gate that stopped the attempt.
pub fn execute(world: &mut World, authority: AccountK, instruction: &SupplyAll) -> (r: Result<
    HasWritten,
    Rejection,
>)
    requires
        old(world).wf(),
    ensures
        final(world).wf(),
        final(world).permission == old(world).permission,
        final(world).account_permission == old(world).account_permission,
        match r {
            Ok(done) => execution_outcome(*old(world), authority.0@, *instruction) == Ok::<
                _,
                Rejection,
            >(final(world).records()) && (aggregate_intents(
                supply_intents(*old(world), *instruction),
            ) matches Ok(merged) && done.result().entries() == resolve_ops(merged, authority.0@)),
            Err(e) => execution_outcome(*old(world), authority.0@, *instruction) == Err::<
                Seq<(ExactV, AccountAssetV)>,
                _,
            >(e) && *final(world) == *old(world),
        },
{
    let started = initiate(authority);
    let to_read = started.read_request(instruction.read_request());
    let reading = match to_read.read_approval(world) {
        Ok(next) => next,
        Err(e) => return Err(e),
    };
    let has_read = match reading.read(world) {
        Ok(next) => next,
        Err(e) => return Err(e),
    };
    let intents = instruction.write_request(has_read.view());
    let to_write = has_read.write_request(intents);
    let writing = match to_write.write_approval() {
        Ok(next) => next,
        Err(e) => return Err(e),
    };
    writing.write(world)
}

} // verus!
