//! PMIx KVS bootstrap for UCX worker addresses and symmetric-heap keys.

use std::collections::BTreeMap;

use vstd::prelude::*;

#[allow(unused_imports)]
use crate::error;
use crate::error::{Error, PmixError, Result, UcsStatus};
use crate::rma::UcxTransport;
#[allow(unused_imports)]
use crate::symheap::{PeerRkey, PeerRkeys, SymHeap};

verus! {

/// The names under which a PE publishes what its peers need to reach it.
#[derive(Debug, Clone, Copy, PartialEq, Eq, Structural)]
pub enum BootstrapKey {
    WorkerAddr,
    HeapRkey,
    HeapBase,
}

impl BootstrapKey {
    pub open spec fn name(self) -> Seq<char> {
        match self {
            BootstrapKey::WorkerAddr => "shmem.worker.addr"@,
            BootstrapKey::HeapRkey => "shmem.heap.rkey"@,
            BootstrapKey::HeapBase => "shmem.heap.base"@,
        }
    }

    /// No name holds a NUL character, so that one can mark its end.
    pub proof fn law_name_is_nul_free(self)
        ensures
            !self.name().contains('\0'),
    {
        reveal_strlit("shmem.worker.addr");
        reveal_strlit("shmem.heap.rkey");
        reveal_strlit("shmem.heap.base");
    }

    /// Each key has the name under which every PE looks for it.
    pub proof fn law_names_are_those_looked_for(self)
        ensures
            self is WorkerAddr ==> self.name() == "shmem.worker.addr"@,
            self is HeapRkey ==> self.name() == "shmem.heap.rkey"@,
            self is HeapBase ==> self.name() == "shmem.heap.base"@,
    {
    }

    /// Different keys have different names.
    pub proof fn law_names_differ(self, other: BootstrapKey)
        requires
            self != other,
        ensures
            self.name() != other.name(),
    {
        reveal_strlit("shmem.worker.addr");
        reveal_strlit("shmem.heap.rkey");
        reveal_strlit("shmem.heap.base");
        assert("shmem.worker.addr"@[6] == 'w');
        assert("shmem.heap.rkey"@[6] == 'h');
        assert("shmem.heap.base"@[6] == 'h');
        assert("shmem.heap.rkey"@[11] == 'r');
        assert("shmem.heap.base"@[11] == 'b');
    }

    /// Return the name under which a value is published.
    pub fn put_key(self) -> (key: &'static str)
        ensures
            key@ == self.name(),
    {
        match self {
            BootstrapKey::WorkerAddr => "shmem.worker.addr",
            BootstrapKey::HeapRkey => "shmem.heap.rkey",
            BootstrapKey::HeapBase => "shmem.heap.base",
        }
    }

    /// Return the NUL-terminated name under which a value is looked up.
    pub fn get_key(self) -> (key: Vec<u8>)
        ensures
            key@ == vstd::utf8::encode_utf8(self.name()).push(0),
    {
        let mut key = self.put_key().as_bytes_vec();
        key.push(0);
        key
    }
}

/// A peer that this PE has an endpoint to: where its heap lies.
#[derive(Debug, Clone, Copy, PartialEq, Eq, Structural)]
pub struct PeerConnection {
    pub heap_base: u64,
}

/// What the exchange yields: the heap metadata of every PE, and the connected peers.
#[derive(Debug)]
pub struct Bootstrap {
    pub peer_rkeys: PeerRkeys,
    pub peers: BTreeMap<u32, PeerConnection>,
}

impl Bootstrap {
    /// There is one entry per PE, each with the base that the PE published, and a nonzero base
    /// and a framed rkey.
    pub open spec fn covers(&self, pes: int) -> bool {
        complete_below(self.peer_rkeys@, self.peers@, pes)
    }
}

/// Whether exactly the PEs below `pes` are known, each with complete metadata.
pub open spec fn complete_below(
    rkeys: Map<u32, PeerRkey>,
    peers: Map<u32, PeerConnection>,
    pes: int,
) -> bool {
    &&& forall|pe: u32| #[trigger] peers.contains_key(pe) <==> pe < pes
    &&& forall|pe: u32| #[trigger] rkeys.contains_key(pe) <==> pe < pes
    &&& forall|pe: u32|
        pe < pes ==> {
            &&& (#[trigger] peers[pe]).heap_base == rkeys[pe].heap_base
            &&& complete_metadata(rkeys[pe].rkey@, rkeys[pe].heap_base)
        }
}

/// A rkey comes with a four-byte frame, and a heap does not lie at address zero.
pub open spec fn complete_metadata(rkey: Seq<u8>, heap_base: u64) -> bool {
    rkey.len() >= 4 && heap_base != 0
}

/// The error for a PMIx call that failed with a raw status: `known` is the status, where it is
/// one that PMIx defines.
pub open spec fn status_failure(known: Option<PmixError>) -> Error {
    Error::Pmix(
        match known {
            Some(error) => error,
            None => PmixError::Error,
        },
    )
}

/// Turn the raw status of a failed PMIx call into an error.
pub fn pmix_error(known: Option<PmixError>) -> (error: Error)
    ensures
        error == status_failure(known),
{
    match known {
        Some(error) => Error::Pmix(error),
        None => Error::Pmix(PmixError::Error),
    }
}

/// What came of publishing a value.
#[derive(Debug, Clone, Copy, PartialEq, Eq)]
pub enum PutOutcome {
    Stored,
    /// PMIx takes no value of these bytes.
    Rejected,
    /// The value could not be built.
    NotBuilt,
    /// The value could not be stored.
    Refused(Option<PmixError>),
}

/// The error for bytes that could not be published.
pub open spec fn put_bytes_failure(outcome: PutOutcome) -> Option<Error> {
    match outcome {
        PutOutcome::Stored => None,
        PutOutcome::Rejected => Some(Error::Usage("bootstrap byte value must not be empty")),
        PutOutcome::NotBuilt => Some(Error::Usage("failed to build bootstrap byte value")),
        PutOutcome::Refused(known) => Some(status_failure(known)),
    }
}

/// Judge what came of publishing bytes.
pub fn put_bytes(outcome: PutOutcome) -> (result: Result<()>)
    ensures
        match put_bytes_failure(outcome) {
            None => result == Ok::<(), Error>(()),
            Some(error) => result == Err::<(), Error>(error),
        },
{
    match outcome {
        PutOutcome::Stored => Ok(()),
        PutOutcome::Rejected => Err(Error::Usage("bootstrap byte value must not be empty")),
        PutOutcome::NotBuilt => Err(Error::Usage("failed to build bootstrap byte value")),
        PutOutcome::Refused(known) => Err(pmix_error(known)),
    }
}

/// The error for a heap base that could not be published.
pub open spec fn put_base_failure(outcome: PutOutcome) -> Option<Error> {
    match outcome {
        PutOutcome::Stored => None,
        PutOutcome::Refused(known) => Some(status_failure(known)),
        _ => Some(Error::Usage("failed to build heap base value")),
    }
}

/// The exchange: the call to make next, or how it ended.
#[derive(Debug)]
pub enum Step {
    /// Publish the worker address.
    PutAddress,
    /// Publish the heap rkey.
    PutRkey,
    /// Publish the heap base.
    PutBase,
    /// Commit what was published.
    Commit,
    /// Name all PEs of the job.
    ResolveAll,
    /// Wait until every PE has committed.
    Fence,
    /// Name one PE.
    ResolvePeer { pe: u32 },
    /// Get the worker address of a PE.
    GetAddress { pe: u32 },
    /// Get the heap rkey of a PE.
    GetRkey { pe: u32, address: Vec<u8> },
    /// Get the heap base of a PE.
    GetBase { pe: u32, address: Vec<u8>, rkey: Vec<u8> },
    /// Create an endpoint to the worker address of a PE.
    Connect { pe: u32, address: Vec<u8>, rkey: Vec<u8>, heap_base: u64 },
    /// Unpack the heap rkey of a PE on its endpoint.
    Unpack { pe: u32, rkey: Vec<u8>, heap_base: u64 },
    Done,
    Failed(Error),
}

/// What a call of the exchange returned.
#[derive(Debug)]
pub enum Event {
    Put(PutOutcome),
    Committed(std::result::Result<(), Option<PmixError>>),
    Resolved(std::result::Result<(), PmixError>),
    Fenced(std::result::Result<(), Option<PmixError>>),
    Bytes(std::result::Result<Vec<u8>, PmixError>),
    Number(std::result::Result<u64, PmixError>),
    Connected(std::result::Result<(), UcsStatus>),
    Unpacked(std::result::Result<(), UcsStatus>),
}

/// The step at which the exchange with peers goes on from PE `pe`.
pub open spec fn peer_step(pe: int, pes: u32) -> Step {
    if pe < pes {
        Step::ResolvePeer { pe: pe as u32 }
    } else {
        Step::Done
    }
}

impl Step {
    /// The step that follows when the call that this step asks for returned `event`, in a job of
    /// `pes` PEs. An event that does not answer the call changes nothing.
    pub open spec fn next(self, event: Event, pes: u32) -> Step {
        match (self, event) {
            (Step::PutAddress, Event::Put(outcome)) => match put_bytes_failure(outcome) {
                None => Step::PutRkey,
                Some(error) => Step::Failed(error),
            },
            (Step::PutRkey, Event::Put(outcome)) => match put_bytes_failure(outcome) {
                None => Step::PutBase,
                Some(error) => Step::Failed(error),
            },
            (Step::PutBase, Event::Put(outcome)) => match put_base_failure(outcome) {
                None => Step::Commit,
                Some(error) => Step::Failed(error),
            },
            (Step::Commit, Event::Committed(outcome)) => match outcome {
                Ok(_) => Step::ResolveAll,
                Err(known) => Step::Failed(status_failure(known)),
            },
            (Step::ResolveAll, Event::Resolved(outcome)) => match outcome {
                Ok(_) => Step::Fence,
                Err(error) => Step::Failed(error::pmix_failure(error)),
            },
            (Step::Fence, Event::Fenced(outcome)) => match outcome {
                Ok(_) => peer_step(0, pes),
                Err(known) => Step::Failed(status_failure(known)),
            },
            (Step::ResolvePeer { pe }, Event::Resolved(outcome)) => match outcome {
                Ok(_) => Step::GetAddress { pe },
                Err(error) => Step::Failed(error::pmix_failure(error)),
            },
            (Step::GetAddress { pe }, Event::Bytes(outcome)) => match outcome {
                Ok(address) => Step::GetRkey { pe, address },
                Err(error) => Step::Failed(error::pmix_failure(error)),
            },
            (Step::GetRkey { pe, address }, Event::Bytes(outcome)) => match outcome {
                Ok(rkey) => Step::GetBase { pe, address, rkey },
                Err(error) => Step::Failed(error::pmix_failure(error)),
            },
            (Step::GetBase { pe, address, rkey }, Event::Number(outcome)) => match outcome {
                Ok(heap_base) => if address@.len() > 0 && complete_metadata(rkey@, heap_base) {
                    Step::Connect { pe, address, rkey, heap_base }
                } else {
                    Step::Failed(Error::Internal("peer published incomplete bootstrap metadata"))
                },
                Err(error) => Step::Failed(error::pmix_failure(error)),
            },
            (
                Step::Connect { pe, address, rkey, heap_base },
                Event::Connected(outcome),
            ) => match outcome {
                Ok(_) => Step::Unpack { pe, rkey, heap_base },
                Err(status) => Step::Failed(error::ucx_failure(status)),
            },
            (Step::Unpack { pe, rkey, heap_base }, Event::Unpacked(outcome)) => match outcome {
                Ok(_) => peer_step(pe + 1, pes),
                Err(status) => Step::Failed(error::ucx_failure(status)),
            },
            _ => self,
        }
    }

    /// Which PE this step asks, and for which key.
    pub open spec fn lookup(self) -> Option<(u32, BootstrapKey)> {
        match self {
            Step::GetAddress { pe } => Some((pe, BootstrapKey::WorkerAddr)),
            Step::GetRkey { pe, .. } => Some((pe, BootstrapKey::HeapRkey)),
            Step::GetBase { pe, .. } => Some((pe, BootstrapKey::HeapBase)),
            _ => None,
        }
    }

    /// The PE that the exchange is at: those below it are connected.
    pub open spec fn reached(self, pes: u32) -> int {
        match self {
            Step::ResolvePeer { pe } => pe as int,
            Step::GetAddress { pe } => pe as int,
            Step::GetRkey { pe, .. } => pe as int,
            Step::GetBase { pe, .. } => pe as int,
            Step::Connect { pe, .. } => pe as int,
            Step::Unpack { pe, .. } => pe as int,
            Step::Done => pes as int,
            _ => 0,
        }
    }
}

/// What a PE publishes about itself.
#[verifier::ext_equal]
pub struct OwnMetadata {
    pub address: Seq<u8>,
    pub rkey: Seq<u8>,
    pub heap_base: u64,
}

/// An exchange: what this PE publishes, how far it has come and what it has found.
#[verifier::ext_equal]
pub struct HandshakeModel {
    pub own: OwnMetadata,
    /// The number of PEs in the job.
    pub pes: u32,
    pub step: Step,
    pub rkeys: Map<u32, PeerRkey>,
    pub peers: Map<u32, PeerConnection>,
}

impl HandshakeModel {
    /// The exchange that follows when the call that the step asks for returned `event`: a PE
    /// whose rkey is unpacked is connected.
    pub open spec fn next(self, event: Event) -> HandshakeModel {
        let after = HandshakeModel { step: self.step.next(event, self.pes), ..self };
        match (self.step, event) {
            (Step::Unpack { pe, rkey, heap_base }, Event::Unpacked(Ok(_))) => HandshakeModel {
                rkeys: self.rkeys.insert(pe, PeerRkey { heap_base, rkey }),
                peers: self.peers.insert(pe, PeerConnection { heap_base }),
                ..after
            },
            _ => after,
        }
    }

    /// Exactly the PEs below the one the exchange is at are connected, with complete metadata.
    pub open spec fn wf(self) -> bool {
        &&& match self.step {
            Step::Failed(_) => true,
            _ => complete_below(self.rkeys, self.peers, self.step.reached(self.pes)),
        }
        &&& match self.step {
            Step::ResolvePeer { pe } => pe < self.pes,
            Step::GetAddress { pe } => pe < self.pes,
            Step::GetRkey { pe, .. } => pe < self.pes,
            Step::GetBase { pe, .. } => pe < self.pes,
            Step::Connect { pe, address, rkey, heap_base } => pe < self.pes && address@.len() > 0
                && complete_metadata(rkey@, heap_base),
            Step::Unpack { pe, rkey, heap_base } => pe < self.pes && complete_metadata(
                rkey@,
                heap_base,
            ),
            _ => true,
        }
    }

    /// Every step keeps the exchange well formed.
    pub proof fn law_steps_keep_order(self, event: Event)
        requires
            self.wf(),
        ensures
            self.next(event).wf(),
    {
    }

    /// An exchange at its first step.
    pub open spec fn started(own: OwnMetadata, pes: u32) -> HandshakeModel {
        HandshakeModel { own, pes, step: Step::PutAddress, rkeys: Map::empty(), peers: Map::empty() }
    }

    /// The exchange after a sequence of events.
    pub open spec fn run(self, events: Seq<Event>) -> HandshakeModel
        decreases events.len(),
    {
        if events.len() == 0 {
            self
        } else {
            self.run(events.drop_last()).next(events.last())
        }
    }
}

/// Whether an exchange is past the fence: peers are being asked for their metadata, or all were.
pub open spec fn past_fence(step: Step) -> bool {
    match step {
        Step::PutAddress | Step::PutRkey | Step::PutBase | Step::Commit | Step::ResolveAll
        | Step::Fence | Step::Failed(_) => false,
        _ => true,
    }
}

/// What has happened by the time an exchange stands where it stands.
spec fn handshake_saw(step: Step, events: Seq<Event>) -> bool {
    match step {
        Step::ResolveAll | Step::Fence => exists|i: int|
            0 <= i < events.len() && #[trigger] events[i] == Event::Committed(Ok(())),
        _ => past_fence(step) ==> committed_then_fenced(events),
    }
}

/// Whether a successful commit came before a successful fence.
pub open spec fn committed_then_fenced(events: Seq<Event>) -> bool {
    exists|i: int, j: int|
        #![trigger events[i], events[j]]
        0 <= i < j < events.len() && events[i] == Event::Committed(Ok(())) && events[j]
            == Event::Fenced(Ok(()))
}

proof fn lemma_handshake_saw(start: HandshakeModel, events: Seq<Event>)
    requires
        start.step == Step::PutAddress,
    ensures
        handshake_saw(start.run(events).step, events),
    decreases events.len(),
{
    if events.len() > 0 {
        let n = events.len() - 1;
        let before = events.drop_last();
        lemma_handshake_saw(start, before);
        match events[n] {
            Event::Committed(Ok(done)) => assert(done == ()),
            Event::Fenced(Ok(done)) => assert(done == ()),
            _ => {},
        }
        assert(forall|i: int| 0 <= i < n ==> before[i] == #[trigger] events[i]);
        let step = start.run(before).step;
        if committed_then_fenced(before) {
            let (i, j) = choose|i: int, j: int|
                #![trigger before[i], before[j]]
                0 <= i < j < before.len() && before[i] == Event::Committed(Ok(())) && before[j]
                    == Event::Fenced(Ok(()));
            assert(events[i] == before[i] && events[j] == before[j]);
        }
        if step is ResolveAll || step is Fence {
            let i = choose|i: int|
                0 <= i < before.len() && #[trigger] before[i] == Event::Committed(Ok(()));
            assert(events[i] == before[i]);
            assert(events[n] == events[n]);
        }
    }
}

/// No peer is asked for anything before this PE has committed what it publishes and the fence
/// has been passed.
pub proof fn law_fence_before_any_get(own: OwnMetadata, pes: u32, events: Seq<Event>)
    requires
        past_fence(HandshakeModel::started(own, pes).run(events).step),
    ensures
        committed_then_fenced(events),
{
    lemma_handshake_saw(HandshakeModel::started(own, pes), events);
}

proof fn lemma_run_wf(start: HandshakeModel, events: Seq<Event>)
    requires
        start.wf(),
    ensures
        start.run(events).wf(),
        start.run(events).pes == start.pes,
        start.run(events).own == start.own,
    decreases events.len(),
{
    if events.len() > 0 {
        lemma_run_wf(start, events.drop_last());
        start.run(events.drop_last()).law_steps_keep_order(events.last());
    }
}

/// An exchange that is done has one entry per PE of the job.
pub proof fn law_done_covers_every_pe(own: OwnMetadata, pes: u32, events: Seq<Event>)
    requires
        HandshakeModel::started(own, pes).run(events).step == Step::Done,
    ensures
        complete_below(
            HandshakeModel::started(own, pes).run(events).rkeys,
            HandshakeModel::started(own, pes).run(events).peers,
            pes as int,
        ),
{
    lemma_run_wf(HandshakeModel::started(own, pes), events);
}

impl Step {
    /// Whether an event answers the call that this step asks for.
    pub open spec fn answered_by(self, event: Event) -> bool {
        match self {
            Step::PutAddress | Step::PutRkey | Step::PutBase => event is Put,
            Step::Commit => event is Committed,
            Step::ResolveAll | Step::ResolvePeer { .. } => event is Resolved,
            Step::Fence => event is Fenced,
            Step::GetAddress { .. } | Step::GetRkey { .. } => event is Bytes,
            Step::GetBase { .. } => event is Number,
            Step::Connect { .. } => event is Connected,
            Step::Unpack { .. } => event is Unpacked,
            Step::Done | Step::Failed(_) => false,
        }
    }

    /// How many calls an exchange between `pes` PEs still takes, where all of them succeed: six to
    /// publish, and six for each PE.
    pub open spec fn calls_left(self, pes: u32) -> int {
        match self {
            Step::PutAddress => 6 + 6 * pes,
            Step::PutRkey => 5 + 6 * pes,
            Step::PutBase => 4 + 6 * pes,
            Step::Commit => 3 + 6 * pes,
            Step::ResolveAll => 2 + 6 * pes,
            Step::Fence => 1 + 6 * pes,
            Step::ResolvePeer { pe } => 6 * (pes - pe),
            Step::GetAddress { pe } => 6 * (pes - pe) - 1,
            Step::GetRkey { pe, .. } => 6 * (pes - pe) - 2,
            Step::GetBase { pe, .. } => 6 * (pes - pe) - 3,
            Step::Connect { pe, .. } => 6 * (pes - pe) - 4,
            Step::Unpack { pe, .. } => 6 * (pes - pe) - 5,
            Step::Done | Step::Failed(_) => 0,
        }
    }
}

proof fn lemma_calls_left(exchange: HandshakeModel)
    requires
        exchange.wf(),
    ensures
        exchange.step.calls_left(exchange.pes) >= 0,
        exchange.step is Done || exchange.step is Failed <==> exchange.step.calls_left(exchange.pes)
            == 0,
{
}

proof fn lemma_answer_counts(exchange: HandshakeModel, event: Event)
    requires
        exchange.wf(),
        exchange.step.answered_by(event),
    ensures
        ({
            let after = exchange.step.next(event, exchange.pes);
            after is Failed || after.calls_left(exchange.pes) == exchange.step.calls_left(
                exchange.pes,
            ) - 1
        }),
{
}

/// An exchange in which each event answers the call asked for ends after at most as many calls as
/// it takes where all succeed, and has ended exactly where no call is left.
#[verifier::spinoff_prover]
#[verifier::rlimit(40)]
pub proof fn law_exchange_ends(own: OwnMetadata, pes: u32, events: Seq<Event>)
    requires
        forall|i: int|
            0 <= i < events.len() ==> HandshakeModel::started(own, pes).run(
                events.take(i),
            ).step.answered_by(#[trigger] events[i]),
    ensures
        ({
            let step = HandshakeModel::started(own, pes).run(events).step;
            &&& events.len() + step.calls_left(pes) <= 6 + 6 * pes
            &&& !(step is Failed) ==> events.len() + step.calls_left(pes) == 6 + 6 * pes
            &&& step is Done || step is Failed <==> step.calls_left(pes) == 0
        }),
    decreases events.len(),
{
    let start = HandshakeModel::started(own, pes);
    lemma_run_wf(start, events);
    lemma_calls_left(start.run(events));
    if events.len() > 0 {
        let n = events.len() - 1;
        let before = events.drop_last();
        assert forall|i: int| 0 <= i < before.len() implies start.run(
            before.take(i),
        ).step.answered_by(#[trigger] before[i]) by {
            assert(before[i] == events[i]);
            assert(before.take(i) =~= events.take(i));
        }
        law_exchange_ends(own, pes, before);
        lemma_run_wf(start, before);
        assert(start.run(before).step.answered_by(events[n])) by {
            assert(events.take(n) =~= before);
        }
        lemma_calls_left(start.run(before));
        lemma_answer_counts(start.run(before), events[n]);
    }
}

/// Whether PE `pe` was asked for what it published under `key` and `answer` came back.
pub open spec fn answered(
    start: HandshakeModel,
    events: Seq<Event>,
    pe: u32,
    key: BootstrapKey,
    answer: Event,
) -> bool {
    exists|i: int|
        0 <= i < events.len() && #[trigger] events[i] == answer && start.run(
            events.take(i),
        ).step.lookup() == Some((pe, key))
}

proof fn lemma_answered_before(
    start: HandshakeModel,
    events: Seq<Event>,
    pe: u32,
    key: BootstrapKey,
    answer: Event,
)
    requires
        events.len() > 0,
        answered(start, events.drop_last(), pe, key, answer),
    ensures
        answered(start, events, pe, key, answer),
{
    let before = events.drop_last();
    let i = choose|i: int|
        0 <= i < before.len() && #[trigger] before[i] == answer && start.run(
            before.take(i),
        ).step.lookup() == Some((pe, key));
    assert(events[i] == before[i]);
    assert(events.take(i) =~= before.take(i));
}

/// Everything that an exchange holds about a PE is what that PE answered.
spec fn looked_up(start: HandshakeModel, events: Seq<Event>) -> bool {
    let exchange = start.run(events);
    &&& forall|pe: u32| #[trigger]
        exchange.rkeys.contains_key(pe) ==> {
            &&& answered(
                start,
                events,
                pe,
                BootstrapKey::HeapRkey,
                Event::Bytes(Ok(exchange.rkeys[pe].rkey)),
            )
            &&& answered(
                start,
                events,
                pe,
                BootstrapKey::HeapBase,
                Event::Number(Ok(exchange.rkeys[pe].heap_base)),
            )
        }
    &&& step_looked_up(start, events, exchange.step)
}

spec fn step_looked_up(start: HandshakeModel, events: Seq<Event>, step: Step) -> bool {
    let address_of = |pe: u32, address: Vec<u8>|
        answered(start, events, pe, BootstrapKey::WorkerAddr, Event::Bytes(Ok(address)));
    let rkey_of = |pe: u32, rkey: Vec<u8>|
        answered(start, events, pe, BootstrapKey::HeapRkey, Event::Bytes(Ok(rkey)));
    let base_of = |pe: u32, base: u64|
        answered(start, events, pe, BootstrapKey::HeapBase, Event::Number(Ok(base)));
    match step {
        Step::GetRkey { pe, address } => address_of(pe, address),
        Step::GetBase { pe, address, rkey } => address_of(pe, address) && rkey_of(pe, rkey),
        Step::Connect { pe, address, rkey, heap_base } => address_of(pe, address) && rkey_of(
            pe,
            rkey,
        ) && base_of(pe, heap_base),
        Step::Unpack { pe, rkey, heap_base } => rkey_of(pe, rkey) && base_of(pe, heap_base),
        _ => true,
    }
}

proof fn lemma_step_looked_up_before(start: HandshakeModel, events: Seq<Event>, step: Step)
    requires
        events.len() > 0,
        step_looked_up(start, events.drop_last(), step),
    ensures
        step_looked_up(start, events, step),
{
    match step {
        Step::GetRkey { pe, address } => {
            lemma_answered_before(
                start,
                events,
                pe,
                BootstrapKey::WorkerAddr,
                Event::Bytes(Ok(address)),
            );
        },
        Step::GetBase { pe, address, rkey } => {
            lemma_answered_before(
                start,
                events,
                pe,
                BootstrapKey::WorkerAddr,
                Event::Bytes(Ok(address)),
            );
            lemma_answered_before(
                start,
                events,
                pe,
                BootstrapKey::HeapRkey,
                Event::Bytes(Ok(rkey)),
            );
        },
        Step::Connect { pe, address, rkey, heap_base } => {
            lemma_answered_before(
                start,
                events,
                pe,
                BootstrapKey::WorkerAddr,
                Event::Bytes(Ok(address)),
            );
            lemma_answered_before(
                start,
                events,
                pe,
                BootstrapKey::HeapRkey,
                Event::Bytes(Ok(rkey)),
            );
            lemma_answered_before(
                start,
                events,
                pe,
                BootstrapKey::HeapBase,
                Event::Number(Ok(heap_base)),
            );
        },
        Step::Unpack { pe, rkey, heap_base } => {
            lemma_answered_before(
                start,
                events,
                pe,
                BootstrapKey::HeapRkey,
                Event::Bytes(Ok(rkey)),
            );
            lemma_answered_before(
                start,
                events,
                pe,
                BootstrapKey::HeapBase,
                Event::Number(Ok(heap_base)),
            );
        },
        _ => {},
    }
}

proof fn lemma_looked_up(start: HandshakeModel, events: Seq<Event>)
    requires
        start.step == Step::PutAddress,
        start.rkeys == Map::<u32, PeerRkey>::empty(),
    ensures
        looked_up(start, events),
    decreases events.len(),
{
    if events.len() > 0 {
        let n = events.len() - 1;
        let before = events.drop_last();
        lemma_looked_up(start, before);
        let was = start.run(before);
        lemma_step_looked_up_before(start, events, was.step);
        assert forall|pe: u32| #[trigger] was.rkeys.contains_key(pe) implies answered(
            start,
            events,
            pe,
            BootstrapKey::HeapRkey,
            Event::Bytes(Ok(was.rkeys[pe].rkey)),
        ) && answered(
            start,
            events,
            pe,
            BootstrapKey::HeapBase,
            Event::Number(Ok(was.rkeys[pe].heap_base)),
        ) by {
            lemma_answered_before(
                start,
                events,
                pe,
                BootstrapKey::HeapRkey,
                Event::Bytes(Ok(was.rkeys[pe].rkey)),
            );
            lemma_answered_before(
                start,
                events,
                pe,
                BootstrapKey::HeapBase,
                Event::Number(Ok(was.rkeys[pe].heap_base)),
            );
        }
        assert(events.take(n) =~= before);
        assert(events[n] == events.last());
        if let Some((pe, key)) = was.step.lookup() {
            assert(answered(start, events, pe, key, events.last()));
        }
    }
}

/// The framed rkey and the base that are kept for a PE are those that it published: what came
/// back when that PE was asked for them.
pub proof fn law_peer_metadata_is_retained(
    own: OwnMetadata,
    pes: u32,
    events: Seq<Event>,
    pe: u32,
)
    requires
        HandshakeModel::started(own, pes).run(events).rkeys.contains_key(pe),
    ensures
        ({
            let start = HandshakeModel::started(own, pes);
            let kept = start.run(events).rkeys[pe];
            &&& answered(start, events, pe, BootstrapKey::HeapRkey, Event::Bytes(Ok(kept.rkey)))
            &&& answered(
                start,
                events,
                pe,
                BootstrapKey::HeapBase,
                Event::Number(Ok(kept.heap_base)),
            )
        }),
{
    lemma_looked_up(HandshakeModel::started(own, pes), events);
}

/// Whether an event is a true answer to the lookup of a step: if it brings a value, it is the one
/// that the PE asked has published.
pub open spec fn answers_truly(
    step: Step,
    event: Event,
    published: spec_fn(u32) -> OwnMetadata,
) -> bool {
    match (step.lookup(), event) {
        (Some((pe, BootstrapKey::WorkerAddr)), Event::Bytes(Ok(bytes))) => bytes@ == published(
            pe,
        ).address,
        (Some((pe, BootstrapKey::HeapRkey)), Event::Bytes(Ok(bytes))) => bytes@ == published(
            pe,
        ).rkey,
        (Some((pe, BootstrapKey::HeapBase)), Event::Number(Ok(base))) => base == published(
            pe,
        ).heap_base,
        _ => true,
    }
}

/// Where every lookup is answered truly, an exchange that is done knows of every PE of the job
/// exactly the heap base and the framed rkey that this PE published.
pub proof fn law_exchange_yields_what_was_published(
    own: OwnMetadata,
    pes: u32,
    events: Seq<Event>,
    published: spec_fn(u32) -> OwnMetadata,
    pe: u32,
)
    requires
        HandshakeModel::started(own, pes).run(events).step == Step::Done,
        pe < pes,
        forall|i: int|
            0 <= i < events.len() ==> answers_truly(
                HandshakeModel::started(own, pes).run(events.take(i)).step,
                #[trigger] events[i],
                published,
            ),
    ensures
        ({
            let done = HandshakeModel::started(own, pes).run(events);
            &&& done.rkeys.contains_key(pe)
            &&& done.rkeys[pe].heap_base == published(pe).heap_base
            &&& done.rkeys[pe].rkey@ == published(pe).rkey
            &&& done.peers.contains_key(pe)
            &&& done.peers[pe].heap_base == published(pe).heap_base
        }),
{
    law_done_covers_every_pe(own, pes, events);
    let start = HandshakeModel::started(own, pes);
    let done = start.run(events);
    assert(done.rkeys.contains_key(pe));
    assert(done.peers[pe].heap_base == done.rkeys[pe].heap_base);
    law_peer_metadata_is_retained(own, pes, events, pe);
    let kept = done.rkeys[pe];
    let i = choose|i: int|
        0 <= i < events.len() && #[trigger] events[i] == Event::Bytes(Ok(kept.rkey)) && start.run(
            events.take(i),
        ).step.lookup() == Some((pe, BootstrapKey::HeapRkey));
    assert(answers_truly(start.run(events.take(i)).step, events[i], published));
    let j = choose|j: int|
        0 <= j < events.len() && #[trigger] events[j] == Event::Number(Ok(kept.heap_base))
            && start.run(events.take(j)).step.lookup() == Some((pe, BootstrapKey::HeapBase));
    assert(answers_truly(start.run(events.take(j)).step, events[j], published));
}

/// The endpoint to a PE is created to the worker address that this PE published.
pub proof fn law_endpoint_has_the_published_address(
    own: OwnMetadata,
    pes: u32,
    events: Seq<Event>,
    pe: u32,
    address: Vec<u8>,
)
    requires
        HandshakeModel::started(own, pes).run(events).step matches Step::Connect {
            pe: to,
            address: at,
            ..
        } && to == pe && at == address,
    ensures
        answered(
            HandshakeModel::started(own, pes),
            events,
            pe,
            BootstrapKey::WorkerAddr,
            Event::Bytes(Ok(address)),
        ),
        address@.len() > 0,
{
    lemma_looked_up(HandshakeModel::started(own, pes), events);
    lemma_run_wf(HandshakeModel::started(own, pes), events);
}

/// What is unpacked on the endpoint to a PE is the complete framed rkey that this PE published.
pub proof fn law_unpacked_rkey_is_the_published_one(
    own: OwnMetadata,
    pes: u32,
    events: Seq<Event>,
    pe: u32,
    rkey: Vec<u8>,
)
    requires
        HandshakeModel::started(own, pes).run(events).step matches Step::Unpack {
            pe: of,
            rkey: framed,
            ..
        } && of == pe && framed == rkey,
    ensures
        answered(
            HandshakeModel::started(own, pes),
            events,
            pe,
            BootstrapKey::HeapRkey,
            Event::Bytes(Ok(rkey)),
        ),
        rkey@.len() >= 4,
{
    lemma_looked_up(HandshakeModel::started(own, pes), events);
    lemma_run_wf(HandshakeModel::started(own, pes), events);
}

/// A value counts as published exactly where it was stored. A status that PMIx defines is kept, and
/// any other is the generic failure.
pub proof fn law_only_stored_values_are_published(outcome: PutOutcome)
    ensures
        put_bytes_failure(outcome) is None <==> outcome is Stored,
        put_base_failure(outcome) is None <==> outcome is Stored,
        outcome matches PutOutcome::Refused(known) ==> {
            let kept = Error::Pmix(
                if known is Some {
                    known->Some_0
                } else {
                    PmixError::Error
                },
            );
            put_bytes_failure(outcome) == Some(kept) && put_base_failure(outcome) == Some(kept)
        },
        outcome is Rejected ==> put_bytes_failure(outcome) == Some(
            Error::Usage("bootstrap byte value must not be empty"),
        ),
        outcome is NotBuilt ==> put_bytes_failure(outcome) == Some(
            Error::Usage("failed to build bootstrap byte value"),
        ),
        outcome is Rejected || outcome is NotBuilt ==> put_base_failure(outcome) == Some(
            Error::Usage("failed to build heap base value"),
        ),
{
}

/// The status of a failed PMIx call is kept where PMIx defines it, and is the generic failure
/// otherwise.
pub proof fn law_pmix_status_is_kept(known: Option<PmixError>)
    ensures
        known matches Some(error) ==> status_failure(known) == Error::Pmix(error),
        known is None ==> status_failure(known) == Error::Pmix(PmixError::Error),
{
}

/// An exchange fails exactly where the call that it asked for failed, or where a peer published an
/// empty worker address, a rkey without its frame, or a heap at address zero.
pub proof fn law_exchange_fails_only_for_cause(step: Step, event: Event, pes: u32)
    requires
        !(step is Failed),
    ensures
        step.next(event, pes) is Failed <==> match event {
            Event::Put(outcome) => (step is PutAddress || step is PutRkey || step is PutBase) && !(
            outcome is Stored),
            Event::Committed(outcome) => step is Commit && outcome is Err,
            Event::Resolved(outcome) => (step is ResolveAll || step is ResolvePeer)
                && outcome is Err,
            Event::Fenced(outcome) => step is Fence && outcome is Err,
            Event::Bytes(outcome) => (step is GetAddress || step is GetRkey) && outcome is Err,
            Event::Number(outcome) => step matches Step::GetBase { address, rkey, .. } && !(
            outcome matches Ok(base) && address@.len() >= 1 && rkey@.len() >= 4 && base >= 1),
            Event::Connected(outcome) => step is Connect && outcome is Err,
            Event::Unpacked(outcome) => step is Unpack && outcome is Err,
        },
        step.next(event, pes) matches Step::Failed(error) ==> match event {
            Event::Put(PutOutcome::Refused(Some(known))) => error == Error::Pmix(known),
            Event::Put(PutOutcome::Refused(None)) => error == Error::Pmix(PmixError::Error),
            Event::Committed(Err(Some(known))) => error == Error::Pmix(known),
            Event::Committed(Err(None)) => error == Error::Pmix(PmixError::Error),
            Event::Fenced(Err(Some(known))) => error == Error::Pmix(known),
            Event::Fenced(Err(None)) => error == Error::Pmix(PmixError::Error),
            Event::Resolved(Err(status)) => !(status is Success) ==> error == Error::Pmix(status),
            Event::Bytes(Err(status)) => !(status is Success) ==> error == Error::Pmix(status),
            Event::Number(Err(status)) => !(status is Success) ==> error == Error::Pmix(status),
            Event::Number(Ok(_)) => error == Error::Internal(
                "peer published incomplete bootstrap metadata",
            ),
            Event::Connected(Err(status)) => status.code != 0 ==> error == Error::Ucx(status),
            Event::Unpacked(Err(status)) => status.code != 0 ==> error == Error::Ucx(status),
            _ => true,
        },
{
}

/// An event that does not answer the call that an exchange asks for changes nothing. An exchange
/// that has ended asks for none.
pub proof fn law_stray_event_changes_no_exchange(exchange: HandshakeModel, event: Event)
    requires
        !((exchange.step is PutAddress || exchange.step is PutRkey || exchange.step is PutBase)
            && event is Put),
        !(exchange.step is Commit && event is Committed),
        !((exchange.step is ResolveAll || exchange.step is ResolvePeer) && event is Resolved),
        !(exchange.step is Fence && event is Fenced),
        !((exchange.step is GetAddress || exchange.step is GetRkey) && event is Bytes),
        !(exchange.step is GetBase && event is Number),
        !(exchange.step is Connect && event is Connected),
        !(exchange.step is Unpack && event is Unpacked),
    ensures
        exchange.next(event) == exchange,
{
}

/// Where every call succeeds, an exchange publishes the address, the rkey and the base, commits and
/// fences.
pub proof fn law_exchange_publishes_then_fences(pes: u32)
    ensures
        Step::PutAddress.next(Event::Put(PutOutcome::Stored), pes) is PutRkey,
        Step::PutRkey.next(Event::Put(PutOutcome::Stored), pes) is PutBase,
        Step::PutBase.next(Event::Put(PutOutcome::Stored), pes) is Commit,
        Step::Commit.next(Event::Committed(Ok(())), pes) is ResolveAll,
        Step::ResolveAll.next(Event::Resolved(Ok(())), pes) is Fence,
        pes == 0 ==> Step::Fence.next(Event::Fenced(Ok(())), pes) is Done,
        pes > 0 ==> (Step::Fence.next(Event::Fenced(Ok(())), pes) matches Step::ResolvePeer { pe }
            && pe == 0),
{
}

/// Where every call succeeds and a peer published complete metadata, an exchange gets its address,
/// rkey and base, connects to that address, unpacks that rkey, and goes on to the next PE until
/// none is left.
pub proof fn law_exchange_takes_each_pe_in_turn(
    pe: u32,
    pes: u32,
    address: Vec<u8>,
    rkey: Vec<u8>,
    heap_base: u64,
)
    requires
        pe < pes,
        address@.len() >= 1,
        rkey@.len() >= 4,
        heap_base >= 1,
    ensures
        ({
            let asked = (Step::ResolvePeer { pe }).next(Event::Resolved(Ok(())), pes);
            let with_address = asked.next(Event::Bytes(Ok(address)), pes);
            let with_rkey = with_address.next(Event::Bytes(Ok(rkey)), pes);
            let with_base = with_rkey.next(Event::Number(Ok(heap_base)), pes);
            let connected = with_base.next(Event::Connected(Ok(())), pes);
            let unpacked = connected.next(Event::Unpacked(Ok(())), pes);
            &&& asked.lookup() == Some((pe, BootstrapKey::WorkerAddr))
            &&& with_address.lookup() == Some((pe, BootstrapKey::HeapRkey))
            &&& with_rkey.lookup() == Some((pe, BootstrapKey::HeapBase))
            &&& with_base == (Step::Connect { pe, address, rkey, heap_base })
            &&& connected == (Step::Unpack { pe, rkey, heap_base })
            &&& pe + 1 == pes ==> unpacked is Done
            &&& pe + 1 < pes ==> (unpacked matches Step::ResolvePeer { pe: next } && next == pe + 1)
        }),
{
}

/// A PE is asked for its address, its rkey and its base, each under the key for it, and for nothing
/// else.
pub proof fn law_each_lookup_has_its_key(step: Step)
    ensures
        step matches Step::GetAddress { pe } ==> step.lookup() == Some(
            (pe, BootstrapKey::WorkerAddr),
        ),
        step matches Step::GetRkey { pe, .. } ==> step.lookup() == Some((pe, BootstrapKey::HeapRkey)),
        step matches Step::GetBase { pe, .. } ==> step.lookup() == Some((pe, BootstrapKey::HeapBase)),
        !(step is GetAddress || step is GetRkey || step is GetBase) ==> step.lookup() is None,
{
}

/// Only a PE whose rkey is unpacked becomes known, with the rkey and the base of that step. What is
/// known of other PEs stays, and so does what this PE publishes.
pub proof fn law_only_unpacking_adds_a_peer(exchange: HandshakeModel, event: Event, other: u32)
    ensures
        ({
            let after = exchange.next(event);
            &&& after.own == exchange.own
            &&& after.pes == exchange.pes
            &&& event == Event::Unpacked(Ok(())) ==> (exchange.step matches Step::Unpack {
                pe,
                rkey,
                heap_base,
            } ==> {
                &&& after.rkeys.contains_key(pe)
                &&& after.rkeys[pe].rkey == rkey
                &&& after.rkeys[pe].heap_base == heap_base
                &&& after.peers.contains_key(pe)
                &&& after.peers[pe].heap_base == heap_base
                &&& other != pe ==> {
                    &&& after.rkeys.contains_key(other) <==> exchange.rkeys.contains_key(other)
                    &&& after.rkeys[other] == exchange.rkeys[other]
                    &&& after.peers.contains_key(other) <==> exchange.peers.contains_key(other)
                    &&& after.peers[other] == exchange.peers[other]
                }
            })
            &&& !(exchange.step is Unpack && event == Event::Unpacked(Ok(()))) ==> after.rkeys
                == exchange.rkeys && after.peers == exchange.peers
        }),
{
    if let Event::Unpacked(Ok(done)) = event {
        assert(done == ());
    }
}

/// A value to publish.
#[derive(Debug)]
pub enum Publication<'a> {
    Bytes(&'a [u8]),
    Number(u64),
}

/// The exchange of worker addresses and heap keys between the PEs of a job.
#[derive(Debug)]
pub struct Handshake {
    address: Vec<u8>,
    rkey: Vec<u8>,
    heap_base: u64,
    pes: u32,
    step: Step,
    peer_rkeys: PeerRkeys,
    peers: BTreeMap<u32, PeerConnection>,
}

impl View for Handshake {
    type V = HandshakeModel;

    closed spec fn view(&self) -> HandshakeModel {
        HandshakeModel {
            own: OwnMetadata {
                address: self.address@,
                rkey: self.rkey@,
                heap_base: self.heap_base,
            },
            pes: self.pes,
            step: self.step,
            rkeys: self.peer_rkeys@,
            peers: self.peers@,
        }
    }
}

/// The exchange between the PEs of a job of `size` PEs. PEs are numbered with 32 bits; of a larger
/// job size only the low 32 bits count.
pub open spec fn exchange_of(own: OwnMetadata, size: usize) -> Result<HandshakeModel> {
    if size == 0 {
        Err(Error::Usage("bootstrap job size must be nonzero"))
    } else {
        Ok(HandshakeModel::started(own, (size as int % 0x1_0000_0000) as u32))
    }
}

/// An exchange is begun exactly in a job that has PEs. It publishes what it was given, knows no PE
/// yet, and is between as many PEs as the low 32 bits of the job size say.
pub proof fn law_exchange_is_between_the_pes_of_the_job(own: OwnMetadata, size: usize)
    ensures
        exchange_of(own, size) is Ok <==> size >= 1,
        size == 0 ==> exchange_of(own, size) == Err::<HandshakeModel, Error>(
            Error::Usage("bootstrap job size must be nonzero"),
        ),
        exchange_of(own, size) matches Ok(exchange) ==> {
            &&& exchange.own == own
            &&& exchange.step is PutAddress
            &&& size <= u32::MAX ==> exchange.pes == size
            &&& (size - exchange.pes) % 0x1_0000_0000 == 0
            &&& forall|pe: u32| !#[trigger] exchange.rkeys.contains_key(pe)
            &&& forall|pe: u32| !#[trigger] exchange.peers.contains_key(pe)
        },
{
}

/// Begin to publish metadata, fence, then create an endpoint and unpacked rkey per PE.
///
/// PEs are numbered with 32 bits; of a larger job size only the low 32 bits count.
pub fn handshake(transport: &UcxTransport, heap: &SymHeap, size: usize) -> (started: Result<
    Handshake,
>)
    ensures
        ({
            let own = OwnMetadata {
                address: transport.spec_packed_address(),
                rkey: heap@.rkey,
                heap_base: heap@.base as u64,
            };
            match started {
                Ok(exchange) => exchange@.wf() && exchange_of(own, size) == Ok::<
                    HandshakeModel,
                    Error,
                >(exchange@),
                Err(error) => exchange_of(own, size) == Err::<HandshakeModel, Error>(error),
            }
        }),
{
    if size == 0 {
        return Err(Error::Usage("bootstrap job size must be nonzero"));
    }
    let wide = size as u64;
    assert(wide as u32 == wide % 0x1_0000_0000) by (bit_vector);
    let exchange = Handshake {
        address: vstd::slice::slice_to_vec(transport.packed_address()),
        rkey: vstd::slice::slice_to_vec(heap.packed_rkey()),
        heap_base: heap.local_base(),
        pes: wide as u32,
        step: Step::PutAddress,
        peer_rkeys: PeerRkeys::default(),
        peers: BTreeMap::new(),
    };
    proof {
        let own = OwnMetadata {
            address: transport.spec_packed_address(),
            rkey: heap@.rkey,
            heap_base: heap@.base as u64,
        };
        assert(exchange@ =~= HandshakeModel::started(own, wide as u32));
    }
    Ok(exchange)
}

fn next_peer(pe: u32, pes: u32) -> (step: Step)
    requires
        pe < pes,
    ensures
        step == peer_step(pe + 1, pes),
{
    if pe + 1 < pes {
        Step::ResolvePeer { pe: pe + 1 }
    } else {
        Step::Done
    }
}

impl Handshake {
    /// Return the call to make next.
    pub fn step(&self) -> (step: &Step)
        ensures
            *step == self@.step,
    {
        &self.step
    }

    /// Return what to publish next, and under which key.
    pub fn to_publish(&self) -> (publication: Option<(BootstrapKey, Publication<'_>)>)
        ensures
            match self@.step {
                Step::PutAddress => publication matches Some(
                    (BootstrapKey::WorkerAddr, Publication::Bytes(bytes)),
                ) && bytes@ == self@.own.address,
                Step::PutRkey => publication matches Some(
                    (BootstrapKey::HeapRkey, Publication::Bytes(bytes)),
                ) && bytes@ == self@.own.rkey,
                Step::PutBase => publication matches Some(
                    (BootstrapKey::HeapBase, Publication::Number(base)),
                ) && base == self@.own.heap_base,
                _ => publication is None,
            },
    {
        match &self.step {
            Step::PutAddress => Some(
                (BootstrapKey::WorkerAddr, Publication::Bytes(self.address.as_slice())),
            ),
            Step::PutRkey => Some(
                (BootstrapKey::HeapRkey, Publication::Bytes(self.rkey.as_slice())),
            ),
            Step::PutBase => Some((BootstrapKey::HeapBase, Publication::Number(self.heap_base))),
            _ => None,
        }
    }

    /// Return which PE to ask next, and for which key.
    pub fn to_get(&self) -> (lookup: Option<(u32, BootstrapKey)>)
        ensures
            lookup == self@.step.lookup(),
    {
        match &self.step {
            Step::GetAddress { pe } => Some((*pe, BootstrapKey::WorkerAddr)),
            Step::GetRkey { pe, .. } => Some((*pe, BootstrapKey::HeapRkey)),
            Step::GetBase { pe, .. } => Some((*pe, BootstrapKey::HeapBase)),
            _ => None,
        }
    }

    /// Take note of what a call returned.
    pub fn advance(self, event: Event) -> (after: Handshake)
        requires
            self@.wf(),
        ensures
            after@ == self@.next(event),
            after@.wf(),
    {
        let ghost before = self@;
        let Handshake {
            address: own_address,
            rkey: own_rkey,
            heap_base: own_base,
            pes,
            step,
            peer_rkeys,
            peers,
        } = self;
        let mut peer_rkeys = peer_rkeys;
        let mut peers = peers;
        let next = match (step, event) {
            (Step::PutAddress, Event::Put(outcome)) => match put_bytes(outcome) {
                Ok(_) => Step::PutRkey,
                Err(error) => Step::Failed(error),
            },
            (Step::PutRkey, Event::Put(outcome)) => match put_bytes(outcome) {
                Ok(_) => Step::PutBase,
                Err(error) => Step::Failed(error),
            },
            (Step::PutBase, Event::Put(outcome)) => match outcome {
                PutOutcome::Stored => Step::Commit,
                PutOutcome::Refused(known) => Step::Failed(pmix_error(known)),
                _ => Step::Failed(Error::Usage("failed to build heap base value")),
            },
            (Step::Commit, Event::Committed(outcome)) => match outcome {
                Ok(_) => Step::ResolveAll,
                Err(known) => Step::Failed(pmix_error(known)),
            },
            (Step::ResolveAll, Event::Resolved(outcome)) => match outcome {
                Ok(_) => Step::Fence,
                Err(error) => Step::Failed(Error::from(error)),
            },
            (Step::Fence, Event::Fenced(outcome)) => match outcome {
                Ok(_) => if pes > 0 {
                    Step::ResolvePeer { pe: 0 }
                } else {
                    Step::Done
                },
                Err(known) => Step::Failed(pmix_error(known)),
            },
            (Step::ResolvePeer { pe }, Event::Resolved(outcome)) => match outcome {
                Ok(_) => Step::GetAddress { pe },
                Err(error) => Step::Failed(Error::from(error)),
            },
            (Step::GetAddress { pe }, Event::Bytes(outcome)) => match outcome {
                Ok(address) => Step::GetRkey { pe, address },
                Err(error) => Step::Failed(Error::from(error)),
            },
            (Step::GetRkey { pe, address }, Event::Bytes(outcome)) => match outcome {
                Ok(rkey) => Step::GetBase { pe, address, rkey },
                Err(error) => Step::Failed(Error::from(error)),
            },
            (Step::GetBase { pe, address, rkey }, Event::Number(outcome)) => match outcome {
                Ok(heap_base) => if address.len() == 0 || rkey.len() < 4 || heap_base == 0 {
                    Step::Failed(Error::Internal("peer published incomplete bootstrap metadata"))
                } else {
                    Step::Connect { pe, address, rkey, heap_base }
                },
                Err(error) => Step::Failed(Error::from(error)),
            },
            (
                Step::Connect { pe, address: _, rkey, heap_base },
                Event::Connected(outcome),
            ) => match outcome {
                Ok(_) => Step::Unpack { pe, rkey, heap_base },
                Err(status) => Step::Failed(Error::from(status)),
            },
            (Step::Unpack { pe, rkey, heap_base }, Event::Unpacked(outcome)) => match outcome {
                Ok(_) => {
                    peer_rkeys.insert(pe, heap_base, rkey);
                    peers.insert(pe, PeerConnection { heap_base });
                    next_peer(pe, pes)
                },
                Err(status) => Step::Failed(Error::from(status)),
            },
            (step, _) => step,
        };
        let after = Handshake {
            address: own_address,
            rkey: own_rkey,
            heap_base: own_base,
            pes,
            step: next,
            peer_rkeys,
            peers,
        };
        proof {
            before.law_steps_keep_order(event);
            assert(after@ =~= before.next(event));
        }
        after
    }

    /// Return what the exchange found, once it is done, or why it failed.
    pub fn finish(self) -> (outcome: Option<Result<Bootstrap>>)
        requires
            self@.wf(),
        ensures
            match self@.step {
                Step::Done => outcome matches Some(Ok(bootstrap)) && bootstrap.covers(
                    self@.pes as int,
                ) && bootstrap.peer_rkeys@ == self@.rkeys && bootstrap.peers@ == self@.peers,
                Step::Failed(error) => outcome == Some(Err::<Bootstrap, Error>(error)),
                _ => outcome is None,
            },
    {
        match self.step {
            Step::Done => Some(
                Ok(Bootstrap { peer_rkeys: self.peer_rkeys, peers: self.peers }),
            ),
            Step::Failed(error) => Some(Err(error)),
            _ => None,
        }
    }
}

} // verus!
