//! UCC-backed collectives.
//!
//! A collective is begun by [`barrier`], [`broadcast`], [`collect`] or [`reduce`], which return a
//! [`CollectiveRequest`]. Its caller makes the UCC calls that the request asks for; a blocking
//! collective does so until [`CollectiveRequest::test`] finds it ended. UCC team creation uses
//! PMIx for the required out-of-band allgather, see [`crate::oob`].

use vstd::prelude::*;

use crate::error::{Error, Result, UccStatus};
use crate::init;
#[allow(unused_imports)]
use crate::init::{Lifecycle, LifecycleModel};
use crate::pod;
use crate::pod::{ByteOrder, Pod};

verus! {

/// The codes by which UCC reports the state of a posted collective.
#[derive(Debug, Clone, Copy, PartialEq, Eq, Structural)]
pub struct UccCodes {
    /// `UCC_OK`.
    pub ok: i32,
    /// `UCC_INPROGRESS`.
    pub in_progress: i32,
    /// `UCC_ERR_NO_MESSAGE`.
    pub no_message: i32,
}

impl UccCodes {
    /// Whether a code says that a collective has not ended: it is in progress, or waits for
    /// messages.
    pub open spec fn unfinished(self, code: i32) -> bool {
        code != self.ok && (code == self.in_progress || code == self.no_message)
    }
}

/// The team of all PEs in which collectives run, and this PE's place in it.
#[derive(Debug, Clone, Copy, PartialEq, Eq, Structural)]
pub struct Runtime {
    pub rank: u32,
    pub size: u32,
    pub codes: UccCodes,
}

/// The endpoints of an out-of-band allgather.
#[derive(Debug, Clone, Copy, PartialEq, Eq, Structural)]
pub struct OobEndpoints {
    /// How many PEs take part.
    pub n_oob_eps: u32,
    /// Which of them this PE is.
    pub oob_ep: u32,
}

/// What a UCC team is asked for.
#[derive(Debug, Clone, Copy, PartialEq, Eq, Structural)]
pub struct TeamRequest {
    pub team_size: u64,
    pub oob: OobEndpoints,
}

/// The setup of a runtime: the call to make next, or how it ended.
#[derive(Debug, Clone, Copy, PartialEq, Eq)]
pub enum RuntimeSetup {
    /// Initialize the UCC library.
    InitLib(Runtime),
    /// Create a UCC context.
    CreateContext(Runtime),
    /// Create a team that meets the request.
    CreateTeam(Runtime, TeamRequest),
    Ready(Runtime),
    Failed(Error),
}

/// What a call of a runtime setup returned.
#[derive(Debug, Clone, Copy, PartialEq, Eq)]
pub enum RuntimeEvent {
    Lib(std::result::Result<(), UccStatus>),
    Context(std::result::Result<(), UccStatus>),
    Team(std::result::Result<(), UccStatus>),
}

/// Turn the status of a failed UCC call into an error. The raw code is preserved.
pub fn map_ucc(status: UccStatus) -> (error: Error)
    ensures
        error == Error::Ucc(status),
{
    Error::Ucc(status)
}

/// The setup of collectives for PE `rank` of a job of `size` PEs.
pub open spec fn runtime_setup(rank: u32, size: usize, codes: UccCodes) -> Result<RuntimeSetup> {
    if size > u32::MAX {
        Err(Error::Usage("job size exceeds UCC limits"))
    } else {
        Ok(RuntimeSetup::InitLib(Runtime { rank, size: size as u32, codes }))
    }
}

impl Runtime {
    /// The team of all PEs: as many as the job has, gathered out of band in rank order.
    pub open spec fn team_request(self) -> TeamRequest {
        TeamRequest {
            team_size: self.size as u64,
            oob: OobEndpoints { n_oob_eps: self.size, oob_ep: self.rank },
        }
    }

    /// Begin to set up collectives for PE `rank` of a job of `size` PEs.
    pub fn new(rank: u32, size: usize, codes: UccCodes) -> (setup: Result<RuntimeSetup>)
        ensures
            setup == runtime_setup(rank, size, codes),
    {
        if size > u32::MAX as usize {
            return Err(Error::Usage("job size exceeds UCC limits"));
        }
        Ok(RuntimeSetup::InitLib(Runtime { rank, size: size as u32, codes }))
    }
}

/// Return the endpoints of the out-of-band allgather of a runtime.
fn ucc_oob(runtime: Runtime) -> (oob: OobEndpoints)
    ensures
        oob == runtime.team_request().oob,
{
    OobEndpoints { n_oob_eps: runtime.size, oob_ep: runtime.rank }
}

impl RuntimeSetup {
    /// The setup that follows when the call that it asks for returned `event`. An event that does
    /// not answer the call changes nothing.
    pub open spec fn next(self, event: RuntimeEvent) -> RuntimeSetup {
        match (self, event) {
            (RuntimeSetup::InitLib(runtime), RuntimeEvent::Lib(outcome)) => match outcome {
                Ok(_) => RuntimeSetup::CreateContext(runtime),
                Err(status) => RuntimeSetup::Failed(Error::Ucc(status)),
            },
            (RuntimeSetup::CreateContext(runtime), RuntimeEvent::Context(outcome)) => match outcome {
                Ok(_) => RuntimeSetup::CreateTeam(runtime, runtime.team_request()),
                Err(status) => RuntimeSetup::Failed(Error::Ucc(status)),
            },
            (RuntimeSetup::CreateTeam(runtime, _), RuntimeEvent::Team(outcome)) => match outcome {
                Ok(_) => RuntimeSetup::Ready(runtime),
                Err(status) => RuntimeSetup::Failed(Error::Ucc(status)),
            },
            _ => self,
        }
    }

    /// The setup after a sequence of events.
    pub open spec fn run(self, events: Seq<RuntimeEvent>) -> RuntimeSetup
        decreases events.len(),
    {
        if events.len() == 0 {
            self
        } else {
            self.run(events.drop_last()).next(events.last())
        }
    }

    /// Take note of what a call returned.
    pub fn advance(self, event: RuntimeEvent) -> (after: RuntimeSetup)
        ensures
            after == self.next(event),
    {
        match (self, event) {
            (RuntimeSetup::InitLib(runtime), RuntimeEvent::Lib(outcome)) => match outcome {
                Ok(_) => RuntimeSetup::CreateContext(runtime),
                Err(status) => RuntimeSetup::Failed(map_ucc(status)),
            },
            (RuntimeSetup::CreateContext(runtime), RuntimeEvent::Context(outcome)) => match outcome {
                Ok(_) => RuntimeSetup::CreateTeam(
                    runtime,
                    TeamRequest { team_size: runtime.size as u64, oob: ucc_oob(runtime) },
                ),
                Err(status) => RuntimeSetup::Failed(map_ucc(status)),
            },
            (RuntimeSetup::CreateTeam(runtime, _), RuntimeEvent::Team(outcome)) => match outcome {
                Ok(_) => RuntimeSetup::Ready(runtime),
                Err(status) => RuntimeSetup::Failed(map_ucc(status)),
            },
            (setup, _) => setup,
        }
    }
}

/// A runtime is set up for the PE and the job asked for, exactly where 32 bits hold the job size.
pub proof fn law_runtime_is_set_up_for_the_job(rank: u32, size: usize, codes: UccCodes)
    ensures
        runtime_setup(rank, size, codes) is Ok <==> size <= u32::MAX,
        runtime_setup(rank, size, codes) matches Ok(setup) ==> {
            &&& setup matches RuntimeSetup::InitLib(runtime)
            &&& runtime.rank == rank
            &&& runtime.size == size
            &&& runtime.codes == codes
        },
        size > u32::MAX ==> runtime_setup(rank, size, codes) == Err::<RuntimeSetup, Error>(
            Error::Usage("job size exceeds UCC limits"),
        ),
{
}

/// Where UCC grants every call, a setup makes three of them and ends with the runtime asked for.
/// The team has as many PEs as the job, and this PE's rank is its place in the allgather.
pub proof fn law_granted_runtime_is_ready(runtime: Runtime)
    ensures
        ({
            let context = RuntimeSetup::InitLib(runtime).next(RuntimeEvent::Lib(Ok(())));
            let team = context.next(RuntimeEvent::Context(Ok(())));
            &&& context == RuntimeSetup::CreateContext(runtime)
            &&& team matches RuntimeSetup::CreateTeam(of, request) && {
                &&& of == runtime
                &&& request.team_size == runtime.size
                &&& request.oob.n_oob_eps == runtime.size
                &&& request.oob.oob_ep == runtime.rank
            }
            &&& team.next(RuntimeEvent::Team(Ok(()))) == RuntimeSetup::Ready(runtime)
        }),
{
}

/// A setup fails exactly where the call that it asked for failed, with the status of that call.
pub proof fn law_runtime_fails_with_the_status_of_its_call(
    setup: RuntimeSetup,
    event: RuntimeEvent,
)
    requires
        !(setup is Failed),
    ensures
        setup.next(event) is Failed <==> match event {
            RuntimeEvent::Lib(outcome) => setup is InitLib && outcome is Err,
            RuntimeEvent::Context(outcome) => setup is CreateContext && outcome is Err,
            RuntimeEvent::Team(outcome) => setup is CreateTeam && outcome is Err,
        },
        setup.next(event) matches RuntimeSetup::Failed(error) ==> error == Error::Ucc(
            match event {
                RuntimeEvent::Lib(outcome) => outcome->Err_0,
                RuntimeEvent::Context(outcome) => outcome->Err_0,
                RuntimeEvent::Team(outcome) => outcome->Err_0,
            },
        ),
{
}

/// An event that does not answer the call that a setup asks for changes nothing. A setup that has
/// ended asks for none.
pub proof fn law_stray_runtime_event_changes_nothing(setup: RuntimeSetup, event: RuntimeEvent)
    requires
        !(setup is InitLib && event is Lib),
        !(setup is CreateContext && event is Context),
        !(setup is CreateTeam && event is Team),
    ensures
        setup.next(event) == setup,
{
}

spec fn runtime_saw(asked: Runtime, setup: RuntimeSetup, events: Seq<RuntimeEvent>) -> bool {
    let lib = events.contains(RuntimeEvent::Lib(Ok(())));
    let context = events.contains(RuntimeEvent::Context(Ok(())));
    match setup {
        RuntimeSetup::InitLib(runtime) => runtime == asked,
        RuntimeSetup::CreateContext(runtime) => runtime == asked && lib,
        RuntimeSetup::CreateTeam(runtime, request) => runtime == asked && request
            == asked.team_request() && lib && context,
        RuntimeSetup::Ready(runtime) => runtime == asked && lib && context && events.contains(
            RuntimeEvent::Team(Ok(())),
        ),
        RuntimeSetup::Failed(_) => true,
    }
}

proof fn lemma_runtime_saw(asked: Runtime, events: Seq<RuntimeEvent>)
    ensures
        runtime_saw(asked, RuntimeSetup::InitLib(asked).run(events), events),
    decreases events.len(),
{
    if events.len() > 0 {
        let n = events.len() - 1;
        let before = events.drop_last();
        lemma_runtime_saw(asked, before);
        assert(events.contains(events[n]));
        assert forall|e: RuntimeEvent| #[trigger] before.contains(e) implies events.contains(e) by {
            let i = choose|i: int| 0 <= i < n && before[i] == e;
            assert(events[i] == e);
        }
        match events[n] {
            RuntimeEvent::Lib(Ok(done)) => assert(done == ()),
            RuntimeEvent::Context(Ok(done)) => assert(done == ()),
            RuntimeEvent::Team(Ok(done)) => assert(done == ()),
            _ => {},
        }
    }
}

/// A runtime is ready only where UCC granted it: the library was initialized, a context was
/// created, and the team of all PEs was formed. The runtime is the one asked for.
pub proof fn law_ready_runtime_was_granted(
    asked: Runtime,
    events: Seq<RuntimeEvent>,
    ready: Runtime,
)
    requires
        RuntimeSetup::InitLib(asked).run(events) == RuntimeSetup::Ready(ready),
    ensures
        ready == asked,
        events.contains(RuntimeEvent::Lib(Ok(()))),
        events.contains(RuntimeEvent::Context(Ok(()))),
        events.contains(RuntimeEvent::Team(Ok(()))),
{
    lemma_runtime_saw(asked, events);
}

/// The UCC types of the values that a collective can carry.
#[derive(Debug, Clone, Copy, PartialEq, Eq, Structural)]
pub enum UccDatatype {
    Int8,
    Uint8,
    Int16,
    Uint16,
    Int32,
    Uint32,
    Int64,
    Uint64,
    Float32,
    Float64,
}

/// The reductions that UCC defines.
#[derive(Debug, Clone, Copy, PartialEq, Eq, Structural)]
pub enum UccReductionOp {
    Sum,
    Prod,
    Max,
    Min,
    Land,
    Lor,
    Lxor,
    Band,
    Bor,
    Bxor,
    /// Any reduction that is not one of OpenSHMEM's.
    Other,
}

impl UccDatatype {
    /// Whether values of this type are integers.
    pub open spec fn is_integer(self) -> bool {
        self != UccDatatype::Float32 && self != UccDatatype::Float64
    }

    /// Whether a reduction is offered for this type: the sum, the maximum and the minimum for
    /// every type, the bitwise reductions for integers, and nothing else.
    pub open spec fn reduces_by(self, op: UccReductionOp) -> bool {
        match op {
            UccReductionOp::Sum | UccReductionOp::Max | UccReductionOp::Min => true,
            UccReductionOp::Band | UccReductionOp::Bor | UccReductionOp::Bxor => self.is_integer(),
            _ => false,
        }
    }

    /// Return whether a reduction is offered for this type.
    pub fn supports(self, op: UccReductionOp) -> (supported: bool)
        ensures
            supported == self.reduces_by(op),
    {
        match op {
            UccReductionOp::Sum | UccReductionOp::Max | UccReductionOp::Min => true,
            UccReductionOp::Band | UccReductionOp::Bor | UccReductionOp::Bxor => match self {
                UccDatatype::Float32 | UccDatatype::Float64 => false,
                _ => true,
            },
            _ => false,
        }
    }
}

/// The sum, the maximum and the minimum are offered for every type, bitwise reductions for exactly
/// the integers, and no other reduction for any type.
pub proof fn law_offered_reductions(datatype: UccDatatype, op: UccReductionOp)
    ensures
        op is Sum || op is Max || op is Min ==> datatype.reduces_by(op),
        op is Band || op is Bor || op is Bxor ==> (datatype.reduces_by(op) <==> !(
        datatype is Float32 || datatype is Float64)),
        op is Prod || op is Land || op is Lor || op is Lxor || op is Other
            ==> !datatype.reduces_by(op),
{
}

/// Encode values for a collective, in a given byte order.
pub fn encode<T: Pod>(order: ByteOrder, values: &[T]) -> (encoded: Result<Vec<u8>>)
    ensures
        match encoded {
            Ok(bytes) => values@.len() * T::size() <= usize::MAX && bytes@ == pod::encoded(
                order,
                values@,
            ),
            Err(error) => values@.len() * T::size() > usize::MAX && error == Error::Usage(
                "collective buffer size overflow",
            ),
        },
{
    proof {
        T::lemma_size();
    }
    match values.len().checked_mul(T::SIZE) {
        Some(_) => Ok(pod::encode_values(order, values)),
        None => Err(Error::Usage("collective buffer size overflow")),
    }
}

/// What it is to decode `bytes` in place of the values `before`: there must be exactly the bytes
/// of as many values, and then the values are replaced. Otherwise they stay.
pub open spec fn decodes<T: Pod>(
    order: ByteOrder,
    bytes: Seq<u8>,
    before: Seq<T>,
    result: Result<()>,
    after: Seq<T>,
) -> bool {
    if before.len() * T::size() > usize::MAX {
        &&& result == Err::<(), Error>(Error::Usage("collective buffer size overflow"))
        &&& after == before
    } else if bytes.len() != before.len() * T::size() {
        &&& result == Err::<(), Error>(
            Error::Usage("collective buffer has an invalid byte length"),
        )
        &&& after == before
    } else {
        &&& result == Ok::<(), Error>(())
        &&& after == pod::decoded::<T>(order, bytes)
        &&& after.len() == before.len()
    }
}

/// Decode the bytes that a collective left, in a given byte order, in place of `values`.
pub fn decode<T: Pod>(order: ByteOrder, bytes: &[u8], values: &mut [T]) -> (result: Result<()>)
    ensures
        decodes(order, bytes@, old(values)@, result, final(values)@),
{
    proof {
        T::lemma_size();
    }
    match values.len().checked_mul(T::SIZE) {
        Some(len) => if bytes.len() != len {
            return Err(Error::Usage("collective buffer has an invalid byte length"));
        },
        None => return Err(Error::Usage("collective buffer size overflow")),
    }
    proof {
        let n = values@.len();
        assert(bytes@.len() / T::size() == n) by (nonlinear_arith)
            requires
                bytes@.len() == n * T::size(),
                T::size() > 0,
        ;
    }
    let decoded = pod::decode_values::<T>(order, bytes);
    let mut next: usize = 0;
    while next < values.len()
        invariant
            next <= values@.len(),
            values@.len() == decoded@.len(),
            forall|i: int| 0 <= i < next ==> values@[i] == decoded@[i],
        decreases values@.len() - next,
    {
        values[next] = decoded[next];
        next = next + 1;
    }
    assert(values@ =~= decoded@);
    Ok(())
}

/// Decoding succeeds exactly where there are the bytes of as many values as there are. The values
/// then have those bytes. Where it fails the values stay.
pub proof fn law_decoding_is_exact<T: Pod>(
    order: ByteOrder,
    bytes: Seq<u8>,
    before: Seq<T>,
    result: Result<()>,
    after: Seq<T>,
)
    requires
        decodes(order, bytes, before, result, after),
    ensures
        before.len() * T::size() <= usize::MAX ==> (result is Ok <==> bytes.len() == before.len()
            * T::size()),
        result is Ok ==> after.len() == before.len() && pod::encoded(order, after) == bytes,
        result is Err ==> after == before,
        before.len() * T::size() <= usize::MAX && result is Err ==> result == Err::<(), Error>(
            Error::Usage("collective buffer has an invalid byte length"),
        ),
        before.len() * T::size() > usize::MAX ==> result == Err::<(), Error>(
            Error::Usage("collective buffer size overflow"),
        ),
{
    if result is Ok {
        T::lemma_size();
        let n = before.len();
        assert((n * T::size()) % T::size() == 0) by (nonlinear_arith)
            requires
                T::size() > 0,
        ;
        pod::law_encode_undoes_decode::<T>(order, bytes);
    }
}

/// Where every PE ends up with the bytes that one of them encoded, all end up with its values.
pub proof fn law_decoding_restores_values<T: Pod>(
    order: ByteOrder,
    sent: Seq<T>,
    before: Seq<T>,
    result: Result<()>,
    after: Seq<T>,
)
    requires
        sent.len() * T::size() <= usize::MAX,
        before.len() == sent.len(),
        decodes(order, pod::encoded(order, sent), before, result, after),
    ensures
        result is Ok,
        after == sent,
{
    pod::law_encoded_len(order, sent);
    pod::law_decode_undoes_encode(order, sent);
}

/// The contributions of all PEs, one after the other in rank order.
pub open spec fn in_rank_order<A>(parts: Seq<Seq<A>>) -> Seq<A>
    decreases parts.len(),
{
    if parts.len() == 0 {
        seq![]
    } else {
        in_rank_order(parts.drop_last()) + parts.last()
    }
}

proof fn lemma_encoded_in_rank_order<T: Pod>(
    order: ByteOrder,
    parts: Seq<Seq<T>>,
    bytes: Seq<Seq<u8>>,
)
    requires
        bytes.len() == parts.len(),
        forall|rank: int|
            0 <= rank < parts.len() ==> #[trigger] bytes[rank] == pod::encoded(order, parts[rank]),
    ensures
        pod::encoded(order, in_rank_order(parts)) == in_rank_order(bytes),
    decreases parts.len(),
{
    if parts.len() > 0 {
        lemma_encoded_in_rank_order(order, parts.drop_last(), bytes.drop_last());
        pod::law_encoding_distributes(order, in_rank_order(parts.drop_last()), parts.last());
        assert(bytes.last() == bytes[parts.len() - 1]);
    }
}

/// Where the receive buffer holds the bytes that each PE encoded, in rank order, the values read
/// from it are the contributions of the PEs in rank order.
pub proof fn law_collect_is_in_rank_order<T: Pod>(
    order: ByteOrder,
    parts: Seq<Seq<T>>,
    bytes: Seq<Seq<u8>>,
)
    requires
        bytes.len() == parts.len(),
        forall|rank: int|
            0 <= rank < parts.len() ==> #[trigger] bytes[rank] == pod::encoded(order, parts[rank]),
    ensures
        pod::decoded::<T>(order, in_rank_order(bytes)) == in_rank_order(parts),
{
    lemma_encoded_in_rank_order(order, parts, bytes);
    pod::law_decode_undoes_encode(order, in_rank_order(parts));
}

/// A collect of `values` on each of `ranks` PEs yields as many values from each: whatever bytes
/// fill the receive buffer, it holds that many values.
pub proof fn law_collect_has_every_value<T: Pod>(
    order: ByteOrder,
    values: Seq<T>,
    ranks: nat,
    received: Seq<u8>,
)
    requires
        received.len() == pod::encoded(order, values).len() * ranks,
    ensures
        pod::decoded::<T>(order, received).len() == values.len() * ranks,
{
    T::lemma_size();
    pod::law_encoded_len(order, values);
    let n = values.len();
    assert(n * T::size() * ranks / T::size() == n * ranks) by (nonlinear_arith)
        requires
            T::size() > 0,
    ;
}

/// The collectives that UCC is asked for.
#[derive(Debug, Clone, Copy, PartialEq, Eq, Structural)]
pub enum UccCollectiveType {
    Barrier,
    Broadcast,
    Allgather,
    Allreduce,
}

/// What UCC is asked for.
#[derive(Debug, Clone, Copy, PartialEq, Eq, Structural)]
pub struct Plan {
    pub kind: UccCollectiveType,
    /// The number of values that each PE contributes.
    pub count: u64,
    pub dtype: Option<UccDatatype>,
    pub root: Option<u64>,
    pub op: Option<UccReductionOp>,
}

impl Plan {
    /// Whether the number of PEs in the team has to be known first: to check the root of a
    /// broadcast, or to make room for what an allgather receives.
    pub open spec fn depends_on_team(self) -> bool {
        self.kind == UccCollectiveType::Broadcast || self.kind == UccCollectiveType::Allgather
    }
}

/// A collective: the call to make next, or how it ended.
#[derive(Debug, Clone, Copy, PartialEq, Eq)]
pub enum CollectiveStep {
    /// Ask for the number of PEs in the team.
    TeamSize,
    /// Initialize the collective that is planned.
    Init,
    /// Post it.
    Post,
    /// Look at the status of its request.
    Poll,
    /// Let the context make progress.
    Progress,
    /// Finalize the collective, which is complete.
    Finalize,
    Done,
    Failed(Error),
}

/// What a call of a collective returned.
#[derive(Debug, Clone, Copy, PartialEq, Eq)]
pub enum CollectiveEvent {
    TeamSize(std::result::Result<usize, UccStatus>),
    Initialized(std::result::Result<(), UccStatus>),
    Posted(std::result::Result<(), UccStatus>),
    Polled(UccStatus),
    Progressed,
    Finalized(std::result::Result<(), UccStatus>),
}

/// A collective: what was planned, the bytes that this PE contributes, how many bytes it receives
/// apart from them, and how far the collective has come.
#[verifier::ext_equal]
pub struct CollectiveModel {
    pub plan: Plan,
    pub order: ByteOrder,
    pub codes: UccCodes,
    pub buffer: Seq<u8>,
    pub receives: usize,
    pub step: CollectiveStep,
}

impl CollectiveModel {
    /// A collective at its first step.
    pub open spec fn started(
        plan: Plan,
        order: ByteOrder,
        codes: UccCodes,
        buffer: Seq<u8>,
    ) -> CollectiveModel {
        CollectiveModel {
            plan,
            order,
            codes,
            buffer,
            receives: 0,
            step: if plan.depends_on_team() {
                CollectiveStep::TeamSize
            } else {
                CollectiveStep::Init
            },
        }
    }

    /// The collective that follows when the team turns out to have `ranks` PEs.
    pub open spec fn in_team_of(self, ranks: usize) -> CollectiveModel {
        match self.plan.kind {
            UccCollectiveType::Broadcast => CollectiveModel {
                step: if self.plan.root matches Some(root) && root >= ranks {
                    CollectiveStep::Failed(Error::Usage("broadcast root is outside the UCC team"))
                } else {
                    CollectiveStep::Init
                },
                ..self
            },
            UccCollectiveType::Allgather => if self.buffer.len() * ranks > usize::MAX {
                CollectiveModel {
                    step: CollectiveStep::Failed(
                        Error::Usage("collective receive buffer overflow"),
                    ),
                    ..self
                }
            } else {
                CollectiveModel {
                    receives: (self.buffer.len() * ranks) as usize,
                    step: CollectiveStep::Init,
                    ..self
                }
            },
            _ => CollectiveModel { step: CollectiveStep::Init, ..self },
        }
    }

    /// The step that follows when the request has the given status: a complete collective is
    /// finalized, and an unfinished one needs progress. Any other status is a failure.
    pub open spec fn polled(self, status: UccStatus) -> CollectiveStep {
        if status.raw() == self.codes.ok {
            CollectiveStep::Finalize
        } else if self.codes.unfinished(status.raw()) {
            CollectiveStep::Progress
        } else {
            CollectiveStep::Failed(Error::Ucc(status))
        }
    }

    /// The collective that follows when the call that the step asks for returned `event`. An
    /// event that does not answer the call changes nothing.
    pub open spec fn next(self, event: CollectiveEvent) -> CollectiveModel {
        match (self.step, event) {
            (CollectiveStep::TeamSize, CollectiveEvent::TeamSize(outcome)) => match outcome {
                Ok(ranks) => self.in_team_of(ranks),
                Err(status) => self.failed(status),
            },
            (CollectiveStep::Init, CollectiveEvent::Initialized(outcome)) => match outcome {
                Ok(_) => CollectiveModel { step: CollectiveStep::Post, ..self },
                Err(status) => self.failed(status),
            },
            (CollectiveStep::Post, CollectiveEvent::Posted(outcome)) => match outcome {
                Ok(_) => CollectiveModel { step: CollectiveStep::Poll, ..self },
                Err(status) => self.failed(status),
            },
            (CollectiveStep::Poll, CollectiveEvent::Polled(status)) => CollectiveModel {
                step: self.polled(status),
                ..self
            },
            (CollectiveStep::Progress, CollectiveEvent::Progressed) => CollectiveModel {
                step: CollectiveStep::Poll,
                ..self
            },
            (CollectiveStep::Finalize, CollectiveEvent::Finalized(outcome)) => match outcome {
                Ok(_) => CollectiveModel { step: CollectiveStep::Done, ..self },
                Err(status) => self.failed(status),
            },
            _ => self,
        }
    }

    pub open spec fn failed(self, status: UccStatus) -> CollectiveModel {
        CollectiveModel { step: CollectiveStep::Failed(Error::Ucc(status)), ..self }
    }

    /// The collective after a sequence of events.
    pub open spec fn run(self, events: Seq<CollectiveEvent>) -> CollectiveModel
        decreases events.len(),
    {
        if events.len() == 0 {
            self
        } else {
            self.run(events.drop_last()).next(events.last())
        }
    }
}

/// A broadcast or a collect asks for the size of the team first; a barrier or a reduction is
/// initialized at once. Every collective keeps what it was begun with.
pub proof fn law_collective_begins_as_planned(
    plan: Plan,
    order: ByteOrder,
    codes: UccCodes,
    buffer: Seq<u8>,
)
    ensures
        ({
            let begun = CollectiveModel::started(plan, order, codes, buffer);
            &&& begun.plan == plan
            &&& begun.order == order
            &&& begun.codes == codes
            &&& begun.buffer == buffer
            &&& begun.receives == 0
            &&& plan.kind is Broadcast || plan.kind is Allgather ==> begun.step is TeamSize
            &&& plan.kind is Barrier || plan.kind is Allreduce ==> begun.step is Init
        }),
{
}

/// A broadcast whose team size was learnt goes on to be initialized exactly where its root is one
/// of the PEs of the team. Otherwise it is refused.
pub proof fn law_broadcast_accepts_exactly_the_roots_of_its_team(
    broadcast: CollectiveModel,
    root: u64,
    ranks: usize,
)
    requires
        broadcast.plan.kind is Broadcast,
        broadcast.plan.root == Some(root),
        broadcast.step is TeamSize,
    ensures
        ({
            let after = broadcast.next(CollectiveEvent::TeamSize(Ok(ranks)));
            &&& after.step is Init <==> 0 <= root < ranks
            &&& root >= ranks ==> after.step == CollectiveStep::Failed(
                Error::Usage("broadcast root is outside the UCC team"),
            )
            &&& after.receives == broadcast.receives
        }),
{
}

/// A root that a team accepts is accepted by every larger team.
pub proof fn law_broadcast_root_stays_valid_in_larger_teams(
    broadcast: CollectiveModel,
    ranks: usize,
    more: usize,
)
    requires
        broadcast.plan.kind is Broadcast,
        broadcast.step is TeamSize,
        broadcast.next(CollectiveEvent::TeamSize(Ok(ranks))).step is Init,
        ranks <= more,
    ensures
        broadcast.next(CollectiveEvent::TeamSize(Ok(more))).step is Init,
{
}

/// A collect whose team size was learnt makes room for exactly the contribution of each PE, where
/// memory can hold them all: what it receives holds as many values from every PE as this PE
/// contributed. Otherwise it is refused.
pub proof fn law_collect_makes_room_for_every_pe<T: Pod>(
    collect: CollectiveModel,
    values: Seq<T>,
    ranks: usize,
    received: Seq<u8>,
)
    requires
        collect.plan.kind is Allgather,
        collect.step is TeamSize,
        collect.buffer == pod::encoded(collect.order, values),
    ensures
        ({
            let after = collect.next(CollectiveEvent::TeamSize(Ok(ranks)));
            &&& after.step is Init <==> values.len() * T::size() * ranks <= usize::MAX
            &&& after.step is Init ==> after.receives == values.len() * T::size() * ranks
            &&& !(after.step is Init) ==> after.step == CollectiveStep::Failed(
                Error::Usage("collective receive buffer overflow"),
            )
            &&& after.step is Init && received.len() == after.receives ==> pod::decoded::<T>(
                collect.order,
                received,
            ).len() == values.len() * ranks
        }),
{
    pod::law_encoded_len(collect.order, values);
    if received.len() == pod::encoded(collect.order, values).len() * ranks {
        law_collect_has_every_value(collect.order, values, ranks as nat, received);
    }
}

/// No event changes what a collective was begun with. The room for what it receives is decided
/// once, when the team size is learnt.
pub proof fn law_collective_keeps_what_it_was_begun_with(
    collective: CollectiveModel,
    event: CollectiveEvent,
)
    ensures
        ({
            let after = collective.next(event);
            &&& after.plan == collective.plan
            &&& after.order == collective.order
            &&& after.codes == collective.codes
            &&& after.buffer == collective.buffer
            &&& !(collective.step is TeamSize && collective.plan.kind is Allgather)
                ==> after.receives == collective.receives
            &&& collective.step is Done || collective.step is Failed ==> after == collective
        }),
{
}

/// Where UCC grants the calls, a collective is initialized, posted and then looked at. Finalizing
/// one that is complete ends it.
pub proof fn law_granted_calls_lead_on(collective: CollectiveModel)
    ensures
        collective.step is Init ==> collective.next(CollectiveEvent::Initialized(Ok(()))).step
            is Post,
        collective.step is Post ==> collective.next(CollectiveEvent::Posted(Ok(()))).step is Poll,
        collective.step is Progress ==> collective.next(CollectiveEvent::Progressed).step is Poll,
        collective.step is Finalize ==> collective.next(CollectiveEvent::Finalized(Ok(()))).step
            is Done,
        collective.step is TeamSize && (collective.plan.kind is Barrier
            || collective.plan.kind is Allreduce || (collective.plan.kind is Broadcast
            && collective.plan.root is None)) ==> forall|ranks: usize| (
        #[trigger] collective.next(CollectiveEvent::TeamSize(Ok(ranks)))).step is Init,
{
}

/// The status of a posted collective decides alone: complete is finalized, in progress or waiting
/// for messages is given progress, and anything else ends the collective with that status.
pub proof fn law_status_decides(collective: CollectiveModel, status: UccStatus)
    requires
        collective.step is Poll,
    ensures
        ({
            let code = match status {
                UccStatus::Known(error) => error.code,
                UccStatus::Unknown(code) => code,
            };
            let codes = collective.codes;
            let after = collective.next(CollectiveEvent::Polled(status)).step;
            &&& after is Finalize <==> code == codes.ok
            &&& after is Progress <==> code != codes.ok && (code == codes.in_progress || code
                == codes.no_message)
            &&& !(after is Finalize || after is Progress) ==> after == CollectiveStep::Failed(
                Error::Ucc(status),
            )
        }),
{
}

/// Apart from the status of its request and from what the team size rules out, a collective fails
/// exactly where the call that it asked for failed, with the status of that call.
pub proof fn law_collective_fails_with_the_status_of_its_call(
    collective: CollectiveModel,
    event: CollectiveEvent,
)
    requires
        !(collective.step is Failed),
        !(event is Polled),
        event matches CollectiveEvent::TeamSize(outcome) ==> outcome is Err,
    ensures
        collective.next(event).step is Failed <==> match event {
            CollectiveEvent::TeamSize(outcome) => collective.step is TeamSize,
            CollectiveEvent::Initialized(outcome) => collective.step is Init && outcome is Err,
            CollectiveEvent::Posted(outcome) => collective.step is Post && outcome is Err,
            CollectiveEvent::Finalized(outcome) => collective.step is Finalize && outcome is Err,
            _ => false,
        },
        collective.next(event).step matches CollectiveStep::Failed(error) ==> error == Error::Ucc(
            match event {
                CollectiveEvent::TeamSize(outcome) => outcome->Err_0,
                CollectiveEvent::Initialized(outcome) => outcome->Err_0,
                CollectiveEvent::Posted(outcome) => outcome->Err_0,
                CollectiveEvent::Finalized(outcome) => outcome->Err_0,
                _ => UccStatus::Unknown(0),
            },
        ),
{
}

/// An event that does not answer the call that a collective asks for changes nothing. A collective
/// that has ended asks for none.
pub proof fn law_stray_event_changes_no_collective(
    collective: CollectiveModel,
    event: CollectiveEvent,
)
    requires
        !(collective.step is TeamSize && event is TeamSize),
        !(collective.step is Init && event is Initialized),
        !(collective.step is Post && event is Posted),
        !(collective.step is Poll && event is Polled),
        !(collective.step is Progress && event is Progressed),
        !(collective.step is Finalize && event is Finalized),
    ensures
        collective.next(event) == collective,
{
}

/// Whether some poll found the request complete.
pub open spec fn reported_complete(codes: UccCodes, events: Seq<CollectiveEvent>) -> bool {
    exists|i: int|
        0 <= i < events.len() && (#[trigger] events[i] matches CollectiveEvent::Polled(status)
            && status.raw() == codes.ok)
}

spec fn collective_saw(start: CollectiveModel, events: Seq<CollectiveEvent>) -> bool {
    let now = start.run(events);
    let initialized = events.contains(CollectiveEvent::Initialized(Ok(())));
    let posted = events.contains(CollectiveEvent::Posted(Ok(())));
    let complete = reported_complete(start.codes, events);
    &&& now.codes == start.codes
    &&& match now.step {
        CollectiveStep::Post => initialized,
        CollectiveStep::Poll | CollectiveStep::Progress => initialized && posted,
        CollectiveStep::Finalize => initialized && posted && complete,
        CollectiveStep::Done => initialized && posted && complete && events.contains(
            CollectiveEvent::Finalized(Ok(())),
        ),
        _ => true,
    }
}

proof fn lemma_collective_saw(start: CollectiveModel, events: Seq<CollectiveEvent>)
    requires
        start.step == CollectiveStep::TeamSize || start.step == CollectiveStep::Init,
    ensures
        collective_saw(start, events),
    decreases events.len(),
{
    if events.len() > 0 {
        let n = events.len() - 1;
        let before = events.drop_last();
        lemma_collective_saw(start, before);
        assert(events.contains(events[n]));
        assert forall|e: CollectiveEvent| #[trigger] before.contains(e) implies events.contains(
            e,
        ) by {
            let i = choose|i: int| 0 <= i < n && before[i] == e;
            assert(events[i] == e);
        }
        if reported_complete(start.codes, before) {
            let i = choose|i: int|
                0 <= i < before.len() && (#[trigger] before[i] matches CollectiveEvent::Polled(
                    status,
                ) && status.raw() == start.codes.ok);
            assert(events[i] == before[i]);
        }
        match events[n] {
            CollectiveEvent::Initialized(Ok(done)) => assert(done == ()),
            CollectiveEvent::Posted(Ok(done)) => assert(done == ()),
            CollectiveEvent::Finalized(Ok(done)) => assert(done == ()),
            _ => {},
        }
    }
}

/// A collective is done only where UCC said so: it was initialized and posted, its request was
/// found complete, and it was finalized.
pub proof fn law_collective_done_only_when_reported(
    plan: Plan,
    order: ByteOrder,
    codes: UccCodes,
    buffer: Seq<u8>,
    events: Seq<CollectiveEvent>,
)
    requires
        CollectiveModel::started(plan, order, codes, buffer).run(events).step
            == CollectiveStep::Done,
    ensures
        events.contains(CollectiveEvent::Initialized(Ok(()))),
        events.contains(CollectiveEvent::Posted(Ok(()))),
        reported_complete(codes, events),
        events.contains(CollectiveEvent::Finalized(Ok(()))),
{
    lemma_collective_saw(CollectiveModel::started(plan, order, codes, buffer), events);
}

/// Waiting has no timeout: however often a posted collective is found unfinished, it is given
/// progress and looked at again.
pub proof fn law_polling_never_times_out(
    collective: CollectiveModel,
    events: Seq<CollectiveEvent>,
)
    requires
        collective.step == CollectiveStep::Poll,
        forall|i: int|
            0 <= i < events.len() ==> match #[trigger] events[i] {
                CollectiveEvent::Polled(status) => collective.codes.unfinished(status.raw()),
                CollectiveEvent::Progressed => true,
                _ => false,
            },
    ensures
        ({
            let now = collective.run(events);
            &&& now.step == CollectiveStep::Poll || now.step == CollectiveStep::Progress
            &&& now == (CollectiveModel { step: now.step, ..collective })
        }),
    decreases events.len(),
{
    if events.len() > 0 {
        let before = events.drop_last();
        assert forall|i: int| 0 <= i < before.len() implies match #[trigger] before[i] {
            CollectiveEvent::Polled(status) => collective.codes.unfinished(status.raw()),
            CollectiveEvent::Progressed => true,
            _ => false,
        } by {
            assert(before[i] == events[i]);
        }
        law_polling_never_times_out(collective, before);
        assert(events.last() == events[events.len() - 1]);
    }
}

/// Some looks at an unfinished request, each followed by progress.
pub open spec fn unfinished_looks(codes: UccCodes, events: Seq<CollectiveEvent>) -> bool {
    &&& events.len() % 2 == 0
    &&& forall|i: int|
        0 <= i < events.len() ==> if i % 2 == 0 {
            #[trigger] events[i] matches CollectiveEvent::Polled(status) && codes.unfinished(
                status.raw(),
            )
        } else {
            events[i] == CollectiveEvent::Progressed
        }
}

proof fn lemma_looks_lead_back(collective: CollectiveModel, looks: Seq<CollectiveEvent>)
    requires
        collective.step == CollectiveStep::Poll,
        unfinished_looks(collective.codes, looks),
    ensures
        collective.run(looks) == collective,
    decreases looks.len(),
{
    if looks.len() > 0 {
        let n = looks.len() as int;
        let polled = looks.drop_last();
        let before = polled.drop_last();
        assert forall|i: int| 0 <= i < before.len() implies if i % 2 == 0 {
            #[trigger] before[i] matches CollectiveEvent::Polled(status)
                && collective.codes.unfinished(status.raw())
        } else {
            before[i] == CollectiveEvent::Progressed
        } by {
            assert(before[i] == looks[i]);
        }
        lemma_looks_lead_back(collective, before);
        assert(polled.last() == looks[n - 2]);
        assert(looks.last() == looks[n - 1]);
        assert(collective.run(polled).step == CollectiveStep::Progress);
    }
}

/// Waiting drives a posted collective to completion: however often it is found unfinished, once
/// its request is found complete it is finalized, and is then done.
pub proof fn law_waiting_drives_to_completion(
    collective: CollectiveModel,
    looks: Seq<CollectiveEvent>,
    complete: UccStatus,
)
    requires
        collective.step == CollectiveStep::Poll,
        unfinished_looks(collective.codes, looks),
        complete.raw() == collective.codes.ok,
    ensures
        collective.run(looks.push(CollectiveEvent::Polled(complete))).step
            == CollectiveStep::Finalize,
        collective.run(
            looks.push(CollectiveEvent::Polled(complete)).push(CollectiveEvent::Finalized(Ok(()))),
        ).step == CollectiveStep::Done,
{
    lemma_looks_lead_back(collective, looks);
    let polled = looks.push(CollectiveEvent::Polled(complete));
    assert(polled.drop_last() =~= looks);
    let ended = polled.push(CollectiveEvent::Finalized(Ok(())));
    assert(ended.drop_last() =~= polled);
}

proof fn lemma_run_in_two(
    collective: CollectiveModel,
    first: Seq<CollectiveEvent>,
    then_on: Seq<CollectiveEvent>,
)
    ensures
        collective.run(first + then_on) == collective.run(first).run(then_on),
    decreases then_on.len(),
{
    if then_on.len() == 0 {
        assert(first + then_on =~= first);
    } else {
        lemma_run_in_two(collective, first, then_on.drop_last());
        assert((first + then_on).drop_last() =~= first + then_on.drop_last());
    }
}

/// A collective that UCC carries out is done: it is initialized, posted, looked at until its
/// request is complete, and finalized.
pub proof fn law_carried_out_collective_is_done(
    collective: CollectiveModel,
    looks: Seq<CollectiveEvent>,
    complete: UccStatus,
)
    requires
        collective.step is Init,
        unfinished_looks(collective.codes, looks),
        complete.raw() == collective.codes.ok,
    ensures
        ({
            let posted = seq![
                CollectiveEvent::Initialized(Ok(())),
                CollectiveEvent::Posted(Ok(())),
            ];
            let done = collective.run(
                posted + looks.push(CollectiveEvent::Polled(complete)).push(
                    CollectiveEvent::Finalized(Ok(())),
                ),
            );
            &&& done.step is Done
            &&& done == (CollectiveModel { step: CollectiveStep::Done, ..collective })
        }),
{
    let posted = seq![CollectiveEvent::Initialized(Ok(())), CollectiveEvent::Posted(Ok(()))];
    let rest = looks.push(CollectiveEvent::Polled(complete)).push(
        CollectiveEvent::Finalized(Ok(())),
    );
    reveal_with_fuel(CollectiveModel::run, 3);
    assert(posted.drop_last() =~= seq![CollectiveEvent::Initialized(Ok(()))]);
    assert(posted.drop_last().drop_last() =~= seq![]);
    let waiting = CollectiveModel { step: CollectiveStep::Poll, ..collective };
    assert(collective.run(posted) == waiting);
    lemma_run_in_two(collective, posted, rest);
    lemma_looks_lead_back(waiting, looks);
    let polled = looks.push(CollectiveEvent::Polled(complete));
    assert(polled.drop_last() =~= looks);
    assert(rest.drop_last() =~= polled);
}

/// A collective that was begun.
#[derive(Debug)]
pub struct CollectiveRequest {
    plan: Plan,
    order: ByteOrder,
    codes: UccCodes,
    buffer: Vec<u8>,
    receives: usize,
    step: CollectiveStep,
}

impl View for CollectiveRequest {
    type V = CollectiveModel;

    closed spec fn view(&self) -> CollectiveModel {
        CollectiveModel {
            plan: self.plan,
            order: self.order,
            codes: self.codes,
            buffer: self.buffer@,
            receives: self.receives,
            step: self.step,
        }
    }
}

impl CollectiveRequest {
    fn of(plan: Plan, order: ByteOrder, codes: UccCodes, buffer: Vec<u8>) -> (request: Self)
        ensures
            request@ == CollectiveModel::started(plan, order, codes, buffer@),
    {
        let step = match plan.kind {
            UccCollectiveType::Broadcast
            | UccCollectiveType::Allgather => CollectiveStep::TeamSize,
            _ => CollectiveStep::Init,
        };
        CollectiveRequest { plan, order, codes, buffer, receives: 0, step }
    }

    /// Return what UCC is asked for.
    pub fn plan(&self) -> (plan: Plan)
        ensures
            plan == self@.plan,
    {
        self.plan
    }

    /// Return the bytes that this PE contributes. All collectives but an allgather replace them.
    pub fn buffer(&self) -> (buffer: &[u8])
        ensures
            buffer@ == self@.buffer,
    {
        self.buffer.as_slice()
    }

    /// Return how many bytes an allgather receives. They are known once it is to be initialized.
    pub fn receives(&self) -> (len: usize)
        ensures
            len == self@.receives,
    {
        self.receives
    }

    /// Return the call to make next.
    pub fn step(&self) -> (step: CollectiveStep)
        ensures
            step == self@.step,
    {
        self.step
    }

    /// Return how the collective ended, once it has.
    pub fn test(&self) -> (outcome: Option<Result<()>>)
        ensures
            outcome == match self@.step {
                CollectiveStep::Done => Some(Ok::<(), Error>(())),
                CollectiveStep::Failed(error) => Some(Err(error)),
                _ => None,
            },
    {
        match self.step {
            CollectiveStep::Done => Some(Ok(())),
            CollectiveStep::Failed(error) => Some(Err(error)),
            _ => None,
        }
    }

    fn join_team(&mut self, ranks: usize)
        requires
            old(self)@.step == CollectiveStep::TeamSize,
        ensures
            final(self)@ == old(self)@.in_team_of(ranks),
            old(self)@.plan.kind is Broadcast && old(self)@.plan.root is Some ==> (
            final(self)@.step is Init <==> old(self)@.plan.root->Some_0 < ranks),
            old(self)@.plan.kind is Allgather ==> (final(self)@.step is Init <==> old(
                self,
            )@.buffer.len() * ranks <= usize::MAX),
            old(self)@.plan.kind is Allgather && final(self)@.step is Init ==> final(self)@.receives
                == old(self)@.buffer.len() * ranks,
    {
        match self.plan.kind {
            UccCollectiveType::Broadcast => {
                let outside = match self.plan.root {
                    Some(root) => root >= ranks as u64,
                    None => false,
                };
                self.step = if outside {
                    CollectiveStep::Failed(Error::Usage("broadcast root is outside the UCC team"))
                } else {
                    CollectiveStep::Init
                };
            },
            UccCollectiveType::Allgather => match self.buffer.len().checked_mul(ranks) {
                Some(receives) => {
                    self.receives = receives;
                    self.step = CollectiveStep::Init;
                },
                None => {
                    self.step = CollectiveStep::Failed(
                        Error::Usage("collective receive buffer overflow"),
                    );
                },
            },
            _ => {
                self.step = CollectiveStep::Init;
            },
        }
    }

    /// Judge the status of the request.
    fn wait(&self, status: UccStatus) -> (step: CollectiveStep)
        ensures
            step == self@.polled(status),
    {
        let code = status.to_raw();
        if code == self.codes.ok {
            CollectiveStep::Finalize
        } else if code == self.codes.in_progress || code == self.codes.no_message {
            CollectiveStep::Progress
        } else {
            CollectiveStep::Failed(map_ucc(status))
        }
    }

    /// Take note of what a call returned.
    pub fn advance(&mut self, event: CollectiveEvent)
        ensures
            final(self)@ == old(self)@.next(event),
            old(self)@.step is TeamSize && old(self)@.plan.kind is Broadcast ==> (event
                matches CollectiveEvent::TeamSize(Ok(ranks)) ==> (old(self)@.plan.root matches Some(
                root,
            ) ==> (final(self)@.step is Init <==> root < ranks))),
            old(self)@.step is TeamSize && old(self)@.plan.kind is Allgather ==> (event
                matches CollectiveEvent::TeamSize(Ok(ranks)) ==> (if old(self)@.buffer.len() * ranks
                <= usize::MAX {
                final(self)@.step is Init && final(self)@.receives == old(self)@.buffer.len() * ranks
            } else {
                final(self)@.step is Failed
            })),
    {
        match (self.step, event) {
            (CollectiveStep::TeamSize, CollectiveEvent::TeamSize(outcome)) => match outcome {
                Ok(ranks) => self.join_team(ranks),
                Err(status) => {
                    self.step = CollectiveStep::Failed(map_ucc(status));
                },
            },
            (CollectiveStep::Init, CollectiveEvent::Initialized(outcome)) => match outcome {
                Ok(_) => {
                    self.step = CollectiveStep::Post;
                },
                Err(status) => {
                    self.step = CollectiveStep::Failed(map_ucc(status));
                },
            },
            (CollectiveStep::Post, CollectiveEvent::Posted(outcome)) => match outcome {
                Ok(_) => {
                    self.step = CollectiveStep::Poll;
                },
                Err(status) => {
                    self.step = CollectiveStep::Failed(map_ucc(status));
                },
            },
            (CollectiveStep::Poll, CollectiveEvent::Polled(status)) => {
                self.step = self.wait(status);
            },
            (CollectiveStep::Progress, CollectiveEvent::Progressed) => {
                self.step = CollectiveStep::Poll;
            },
            (CollectiveStep::Finalize, CollectiveEvent::Finalized(outcome)) => match outcome {
                Ok(_) => {
                    self.step = CollectiveStep::Done;
                },
                Err(status) => {
                    self.step = CollectiveStep::Failed(map_ucc(status));
                },
            },
            _ => {},
        }
    }

    /// End a collective that replaces its values: once it is done, decode what it left in the
    /// buffer. Where it failed, or has not ended, the values stay.
    pub fn finish<T: Pod>(&self, bytes: &[u8], values: &mut [T]) -> (outcome: Option<Result<()>>)
        ensures
            match self@.step {
                CollectiveStep::Done => outcome matches Some(result) && decodes(
                    self@.order,
                    bytes@,
                    old(values)@,
                    result,
                    final(values)@,
                ),
                CollectiveStep::Failed(error) => outcome == Some(Err::<(), Error>(error))
                    && final(values)@ == old(values)@,
                _ => outcome is None && final(values)@ == old(values)@,
            },
    {
        match self.step {
            CollectiveStep::Done => Some(decode(self.order, bytes, values)),
            CollectiveStep::Failed(error) => Some(Err(error)),
            _ => None,
        }
    }

    /// End an allgather: once it is done, decode what it received.
    pub fn collected<T: Pod>(&self, received: &[u8]) -> (outcome: Option<Result<Vec<T>>>)
        ensures
            match self@.step {
                CollectiveStep::Done => outcome matches Some(Ok(values)) && values@
                    == pod::decoded::<T>(self@.order, received@),
                CollectiveStep::Failed(error) => outcome == Some(Err::<Vec<T>, Error>(error)),
                _ => outcome is None,
            },
    {
        match self.step {
            CollectiveStep::Done => Some(Ok(pod::decode_values(self.order, received))),
            CollectiveStep::Failed(error) => Some(Err(error)),
            _ => None,
        }
    }
}

/// The runtime of a process that can take part in collectives.
pub open spec fn runtime_of(lifecycle: LifecycleModel) -> Result<Runtime> {
    match lifecycle.state {
        None => Err(Error::NotInitialized),
        Some(state) => match state.collectives {
            None => Err(Error::Internal("collectives are not initialized")),
            Some(runtime) => Ok(runtime),
        },
    }
}

fn find_runtime(lifecycle: &Lifecycle) -> (runtime: Result<Runtime>)
    ensures
        runtime == runtime_of(lifecycle@),
{
    match init::with_state(lifecycle) {
        Ok(state) => match state.collectives() {
            Some(runtime) => Ok(runtime),
            None => Err(Error::Internal("collectives are not initialized")),
        },
        Err(error) => Err(error),
    }
}

/// Whether a collective was begun where the process can take part in one, with a given plan and
/// contribution.
pub open spec fn begins(
    lifecycle: LifecycleModel,
    plan: Plan,
    buffer: Seq<u8>,
    begun: Result<CollectiveRequest>,
) -> bool {
    match runtime_of(lifecycle) {
        Ok(runtime) => begun matches Ok(request) && request@ == CollectiveModel::started(
            plan,
            lifecycle.order,
            runtime.codes,
            buffer,
        ),
        Err(error) => begun == Err::<CollectiveRequest, Error>(error),
    }
}

/// A collective begins exactly in a process that is initialized and has a collective runtime. It
/// carries the plan, the bytes and the byte order it was begun with, and the codes of the runtime.
pub proof fn law_collective_begins_in_a_runtime(
    lifecycle: LifecycleModel,
    plan: Plan,
    buffer: Seq<u8>,
    begun: Result<CollectiveRequest>,
)
    requires
        begins(lifecycle, plan, buffer, begun),
    ensures
        begun is Ok <==> (lifecycle.state matches Some(state) && state.collectives is Some),
        lifecycle.state is None ==> begun == Err::<CollectiveRequest, Error>(
            Error::NotInitialized,
        ),
        lifecycle.state matches Some(state) && state.collectives is None ==> begun == Err::<
            CollectiveRequest,
            Error,
        >(Error::Internal("collectives are not initialized")),
        begun matches Ok(request) ==> {
            &&& request@.plan == plan
            &&& request@.buffer == buffer
            &&& request@.order == lifecycle.order
            &&& request@.codes == lifecycle.state->Some_0.collectives->Some_0.codes
            &&& request@.receives == 0
            &&& plan.kind is Broadcast || plan.kind is Allgather ==> request@.step is TeamSize
            &&& plan.kind is Barrier || plan.kind is Allreduce ==> request@.step is Init
        },
{
}

/// Begin to synchronize all PEs in the process-global UCC team.
pub fn barrier(lifecycle: &Lifecycle) -> (begun: Result<CollectiveRequest>)
    ensures
        begins(
            lifecycle@,
            (Plan { kind: UccCollectiveType::Barrier, count: 1, dtype: None, root: None, op: None }),
            seq![0],
            begun,
        ),
{
    let runtime = match find_runtime(lifecycle) {
        Ok(runtime) => runtime,
        Err(error) => return Err(error),
    };
    let stub: Vec<u8> = vec![0];
    assert(stub@ =~= seq![0]);
    let plan = Plan {
        kind: UccCollectiveType::Barrier,
        count: 1,
        dtype: None,
        root: None,
        op: None,
    };
    Ok(CollectiveRequest::of(plan, lifecycle.order(), runtime.codes, stub))
}

/// Begin to broadcast a typed buffer from `root`.
pub fn broadcast<T: Pod>(lifecycle: &Lifecycle, root: usize, values: &[T]) -> (begun: Result<
    CollectiveRequest,
>)
    ensures
        if values@.len() == 0 {
            begun == Err::<CollectiveRequest, Error>(
                Error::Usage("collective buffer must be non-empty"),
            )
        } else if values@.len() * T::size() > usize::MAX {
            begun == Err::<CollectiveRequest, Error>(
                Error::Usage("collective buffer size overflow"),
            )
        } else {
            begins(
                lifecycle@,
                (Plan {
                    kind: UccCollectiveType::Broadcast,
                    count: values@.len() as u64,
                    dtype: Some(T::datatype()),
                    root: Some(root as u64),
                    op: None,
                }),
                pod::encoded(lifecycle@.order, values@),
                begun,
            )
        },
{
    if values.len() == 0 {
        return Err(Error::Usage("collective buffer must be non-empty"));
    }
    let bytes = match encode(lifecycle.order(), values) {
        Ok(bytes) => bytes,
        Err(error) => return Err(error),
    };
    let runtime = match find_runtime(lifecycle) {
        Ok(runtime) => runtime,
        Err(error) => return Err(error),
    };
    let plan = Plan {
        kind: UccCollectiveType::Broadcast,
        count: values.len() as u64,
        dtype: Some(T::ucc_datatype()),
        root: Some(root as u64),
        op: None,
    };
    Ok(CollectiveRequest::of(plan, lifecycle.order(), runtime.codes, bytes))
}

/// Begin to gather equal-sized typed contributions in rank order.
pub fn collect<T: Pod>(lifecycle: &Lifecycle, values: &[T]) -> (begun: Result<CollectiveRequest>)
    ensures
        if values@.len() == 0 {
            begun == Err::<CollectiveRequest, Error>(
                Error::Usage("collective contribution must be non-empty"),
            )
        } else if runtime_of(lifecycle@) is Ok && values@.len() * T::size() > usize::MAX {
            begun == Err::<CollectiveRequest, Error>(
                Error::Usage("collective buffer size overflow"),
            )
        } else {
            begins(
                lifecycle@,
                (Plan {
                    kind: UccCollectiveType::Allgather,
                    count: values@.len() as u64,
                    dtype: Some(T::datatype()),
                    root: None,
                    op: None,
                }),
                pod::encoded(lifecycle@.order, values@),
                begun,
            )
        },
{
    if values.len() == 0 {
        return Err(Error::Usage("collective contribution must be non-empty"));
    }
    let runtime = match find_runtime(lifecycle) {
        Ok(runtime) => runtime,
        Err(error) => return Err(error),
    };
    let send = match encode(lifecycle.order(), values) {
        Ok(bytes) => bytes,
        Err(error) => return Err(error),
    };
    let plan = Plan {
        kind: UccCollectiveType::Allgather,
        count: values.len() as u64,
        dtype: Some(T::ucc_datatype()),
        root: None,
        op: None,
    };
    Ok(CollectiveRequest::of(plan, lifecycle.order(), runtime.codes, send))
}

/// Begin an allreduce in place, using the supported subset of OpenSHMEM reductions.
///
/// The logical product and boolean reductions (`Prod`, `Land`, `Lor`, and
/// `Lxor`) are not currently exposed; integer bitwise reductions are supported
/// where applicable.
pub fn reduce<T: Pod>(lifecycle: &Lifecycle, op: UccReductionOp, values: &[T]) -> (begun: Result<
    CollectiveRequest,
>)
    ensures
        if !T::datatype().reduces_by(op) {
            begun == Err::<CollectiveRequest, Error>(
                Error::Usage("reduction operation is not supported for this POD type"),
            )
        } else if values@.len() * T::size() > usize::MAX {
            begun == Err::<CollectiveRequest, Error>(
                Error::Usage("collective buffer size overflow"),
            )
        } else {
            begins(
                lifecycle@,
                (Plan {
                    kind: UccCollectiveType::Allreduce,
                    count: values@.len() as u64,
                    dtype: Some(T::datatype()),
                    root: None,
                    op: Some(op),
                }),
                pod::encoded(lifecycle@.order, values@),
                begun,
            )
        },
{
    if !T::reduction_supported(op) {
        return Err(Error::Usage("reduction operation is not supported for this POD type"));
    }
    let bytes = match encode(lifecycle.order(), values) {
        Ok(bytes) => bytes,
        Err(error) => return Err(error),
    };
    let runtime = match find_runtime(lifecycle) {
        Ok(runtime) => runtime,
        Err(error) => return Err(error),
    };
    let plan = Plan {
        kind: UccCollectiveType::Allreduce,
        count: values.len() as u64,
        dtype: Some(T::ucc_datatype()),
        root: None,
        op: Some(op),
    };
    Ok(CollectiveRequest::of(plan, lifecycle.order(), runtime.codes, bytes))
}

} // verus!
