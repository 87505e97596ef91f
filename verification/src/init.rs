//! PMIx-backed OpenSHMEM process lifecycle.
//!
//! A process must call [`init`] before [`my_pe`] or [`n_pes`], and should call
//! [`finalize`] exactly once when it is done. The latter is safe to call more
//! than once. Dropping a PMIx client does not finalize its session, so the client is
//! disconnected explicitly, also where initialization fails half way.
//!
//! A [`Lifecycle`] is the state of one process. Its caller keeps it behind a mutex, together
//! with the PMIx client and the UCX handles.

use std::collections::BTreeMap;

use vstd::prelude::*;

#[allow(unused_imports)]
use crate::bootstrap;
use crate::bootstrap::{Bootstrap, PeerConnection};
#[allow(unused_imports)]
use crate::bootstrap::{Event, HandshakeModel, OwnMetadata, Step};
#[allow(unused_imports)]
use crate::coll;
use crate::coll::{Runtime, RuntimeEvent, RuntimeSetup, UccCodes};
#[allow(unused_imports)]
use crate::error;
use crate::error::{Error, PmixError, Result};
#[allow(unused_imports)]
use crate::heap_model::{HeapModel, ALIGNMENT};
use crate::pod::ByteOrder;
#[allow(unused_imports)]
use crate::rma;
use crate::rma::{TransportSetup, UcxTransport};
use crate::settings;
#[allow(unused_imports)]
use crate::symheap::{PeerRkey, PeerRkeys, SymHeap, SymPtr};

verus! {

/// What an initialized process knows about itself and its job.
#[derive(Debug)]
pub struct ShmemState {
    peers: BTreeMap<u32, PeerConnection>,
    heap: SymHeap,
    transport: UcxTransport,
    rank: u32,
    size: usize,
    peer_rkeys: PeerRkeys,
    collectives: Option<Runtime>,
}

/// What an initialized process knows about itself and its job.
#[verifier::ext_equal]
pub struct StateModel {
    /// The connected peers.
    pub peers: Map<u32, PeerConnection>,
    pub heap: HeapModel,
    pub transport: UcxTransport,
    pub rank: u32,
    pub size: usize,
    pub rkeys: Map<u32, PeerRkey>,
    /// The collective runtime, where there is one.
    pub collectives: Option<Runtime>,
}

impl View for ShmemState {
    type V = StateModel;

    closed spec fn view(&self) -> StateModel {
        StateModel {
            peers: self.peers@,
            heap: self.heap@,
            transport: self.transport,
            rank: self.rank,
            size: self.size,
            rkeys: self.peer_rkeys@,
            collectives: self.collectives,
        }
    }
}

/// The numbers of the connected peers, in ascending order.
pub open spec fn ascending(pes: Seq<u32>, peers: Map<u32, PeerConnection>) -> bool {
    &&& forall|i: int, j: int|
        #![trigger pes[i], pes[j]]
        0 <= i < j < pes.len() ==> pes[i] < pes[j]
    &&& forall|pe: u32| pes.contains(pe) <==> #[trigger] peers.contains_key(pe)
}

impl ShmemState {
    /// Return the peer with the given number, where it is connected.
    pub fn peer(&self, pe: u32) -> (peer: Option<PeerConnection>)
        ensures
            peer == if self@.peers.contains_key(pe) {
                Some(self@.peers[pe])
            } else {
                None
            },
    {
        match self.peers.get(&pe) {
            Some(peer) => Some(*peer),
            None => None,
        }
    }

    /// Return the numbers of the connected peers, in ascending order.
    pub fn pes(&self) -> (pes: Vec<u32>)
        ensures
            ascending(pes@, self@.peers),
    {
        let mut pes: Vec<u32> = Vec::new();
        for pe in it: self.peers.keys()
            invariant
                pes@ =~= it.seq().take(it.index()).map_values(|pe: &u32| *pe),
        {
            pes.push(*pe);
        }
        proof {
            let keys = vstd::std_specs::iter::IteratorSpec::remaining(
                &vstd::std_specs::btree::spec_keys_iter(&self.peers),
            );
            assert(pes@ =~= keys.unref());
            assert forall|pe: u32| pes@.contains(pe) <==> #[trigger] self@.peers.contains_key(
                pe,
            ) by {
                assert(pes@.to_set().contains(pe) <==> self.peers@.dom().contains(pe));
            }
            assert(vstd::laws_cmp::obeys_cmp::<&u32>());
            assert(vstd::std_specs::btree::increasing_seq(keys));
            assert forall|i: int, j: int|
                #![trigger pes@[i], pes@[j]]
                0 <= i < j < pes@.len() implies pes@[i] < pes@[j] by {
                assert(vstd::std_specs::cmp::OrdSpec::cmp_spec(&keys[i], &keys[j]) is Less);
            }
        }
        pes
    }

    /// Return the transport of the process.
    pub fn transport(&self) -> (transport: &UcxTransport)
        ensures
            *transport == self@.transport,
    {
        &self.transport
    }

    /// Return the heap metadata of the PEs of the job.
    pub fn peer_rkeys(&self) -> (keys: &PeerRkeys)
        ensures
            keys@ == self@.rkeys,
    {
        &self.peer_rkeys
    }

    /// Return the collective runtime, where there is one.
    pub fn collectives(&self) -> (runtime: Option<Runtime>)
        ensures
            runtime == self@.collectives,
    {
        self.collectives
    }
}

/// The lifecycle of a process: the order of its bytes, and its state while it is initialized.
#[derive(Debug)]
pub struct Lifecycle {
    order: ByteOrder,
    state: Option<ShmemState>,
}

/// The lifecycle of a process.
#[verifier::ext_equal]
pub struct LifecycleModel {
    pub order: ByteOrder,
    pub state: Option<StateModel>,
}

impl View for Lifecycle {
    type V = LifecycleModel;

    closed spec fn view(&self) -> LifecycleModel {
        LifecycleModel {
            order: self.order,
            state: match self.state {
                Some(state) => Some(state@),
                None => None,
            },
        }
    }
}

impl LifecycleModel {
    /// The heap of an initialized process is well formed.
    pub open spec fn wf(self) -> bool {
        self.state matches Some(state) ==> state.heap.wf()
    }

    /// The lifecycle after finalization.
    pub open spec fn finalized(self) -> LifecycleModel {
        LifecycleModel { state: None, ..self }
    }

    /// Finalization is idempotent: a second one changes nothing and finds nothing to disconnect.
    pub proof fn law_finalize_is_idempotent(self)
        ensures
            self.finalized().finalized() == self.finalized(),
            self.finalized().state is None,
            self.finalized().order == self.order,
    {
    }
}

impl Lifecycle {
    pub open spec fn wf(&self) -> bool {
        self@.wf()
    }

    /// A process that is not initialized and whose bytes stand in the given order.
    pub fn with_order(order: ByteOrder) -> (lifecycle: Lifecycle)
        ensures
            lifecycle.wf(),
            lifecycle@ == (LifecycleModel { order, state: None }),
    {
        Lifecycle { order, state: None }
    }

    /// A process on this machine that is not initialized. Its bytes stand in the machine's order;
    /// which of the two that is depends on the machine and is left open.
    pub fn new() -> (lifecycle: Lifecycle)
        ensures
            lifecycle.wf(),
            lifecycle@.state is None,
    {
        Lifecycle::with_order(ByteOrder::native())
    }

    /// Return the order of the process's bytes.
    pub fn order(&self) -> (order: ByteOrder)
        ensures
            order == self@.order,
    {
        self.order
    }
}

/// Return the state of an initialized process.
pub fn with_state(lifecycle: &Lifecycle) -> (state: Result<&ShmemState>)
    ensures
        match lifecycle@.state {
            Some(model) => state matches Ok(state) && state@ == model,
            None => state == Err::<&ShmemState, Error>(Error::NotInitialized),
        },
{
    match &lifecycle.state {
        Some(state) => Ok(state),
        None => Err(Error::NotInitialized),
    }
}

/// The initialization of a process: the call to make next, or how it ended. Where collectives are
/// offered, the codes of UCC are at hand from the start.
#[derive(Debug)]
pub enum Startup {
    /// Connect to the PMIx server.
    Connect { ucc: Option<UccCodes> },
    /// Create a transport, by this setup.
    OpenTransport { ucc: Option<UccCodes>, rank: u32, setup: TransportSetup },
    /// Create and register the symmetric heap.
    CreateHeap { ucc: Option<UccCodes>, rank: u32, transport: UcxTransport },
    /// Ask PMIx for the job size, and look for `PMIX_SIZE` in the environment.
    QuerySize { ucc: Option<UccCodes>, rank: u32, transport: UcxTransport, heap: SymHeap },
    /// Exchange metadata with the peers.
    Handshake {
        ucc: Option<UccCodes>,
        rank: u32,
        transport: UcxTransport,
        heap: SymHeap,
        size: usize,
    },
    /// Form the team of all PEs, by this setup.
    FormTeam {
        rank: u32,
        transport: UcxTransport,
        heap: SymHeap,
        size: usize,
        found: Bootstrap,
        setup: RuntimeSetup,
    },
    /// Disconnect from the PMIx server: initialization has failed.
    Disconnect(Error),
    Ready {
        rank: u32,
        transport: UcxTransport,
        heap: SymHeap,
        size: usize,
        found: Bootstrap,
        collectives: Option<Runtime>,
    },
    Failed(Error),
}

/// What a call of an initialization returned.
#[derive(Debug)]
pub enum StartupEvent {
    /// The rank of the process, where a client is connected.
    Connected(std::result::Result<u32, PmixError>),
    Transport(Result<UcxTransport>),
    Heap(Result<SymHeap>),
    /// The job size that PMIx publishes and the text of `PMIX_SIZE`, where there are such.
    Size { published: Option<u32>, setting: Option<String> },
    Handshaken(Result<Bootstrap>),
    /// What a call of the team setup returned.
    Team(RuntimeEvent),
    Disconnected,
}

/// The job size: the one that PMIx publishes, or else the one that `PMIX_SIZE` spells.
pub open spec fn job_size(published: Option<u32>, setting: Option<String>) -> Option<usize> {
    match published {
        Some(size) => Some(size as usize),
        None => match setting {
            Some(text) => settings::parsed(text@),
            None => None,
        },
    }
}

fn find_job_size(published: Option<u32>, setting: Option<String>) -> (size: Option<usize>)
    ensures
        size == job_size(published, setting),
{
    match published {
        Some(size) => Some(size as usize),
        None => match setting {
            Some(text) => settings::parse_usize(text.as_str()),
            None => None,
        },
    }
}

impl StartupEvent {
    /// A heap that was created is well formed.
    pub open spec fn wf(self) -> bool {
        self matches StartupEvent::Heap(Ok(heap)) ==> heap.wf()
    }
}

impl Startup {
    pub open spec fn wf(self) -> bool {
        match self {
            Startup::QuerySize { heap, .. } => heap.wf(),
            Startup::Handshake { heap, .. } => heap.wf(),
            Startup::FormTeam { heap, .. } => heap.wf(),
            Startup::Ready { heap, .. } => heap.wf(),
            _ => true,
        }
    }

    /// The initialization of a process that has found its peers: where collectives are offered, it
    /// forms the team of all PEs; otherwise it is ready.
    pub open spec fn connected(
        ucc: Option<UccCodes>,
        rank: u32,
        transport: UcxTransport,
        heap: SymHeap,
        size: usize,
        found: Bootstrap,
    ) -> Startup {
        match ucc {
            None => Startup::Ready { rank, transport, heap, size, found, collectives: None },
            Some(codes) => match coll::runtime_setup(rank, size, codes) {
                Ok(setup) => Startup::FormTeam { rank, transport, heap, size, found, setup },
                Err(error) => Startup::Disconnect(error),
            },
        }
    }

    /// The initialization that follows when the call it asks for returned `event`. Once a client
    /// is connected, any failure disconnects it first. An event that does not answer the call
    /// changes nothing.
    pub open spec fn next(self, event: StartupEvent) -> Startup {
        match (self, event) {
            (Startup::Connect { ucc }, StartupEvent::Connected(outcome)) => match outcome {
                Ok(rank) => Startup::OpenTransport {
                    ucc,
                    rank,
                    setup: TransportSetup::ReadConfig(rma::context_request(1)),
                },
                Err(error) => Startup::Failed(error::pmix_failure(error)),
            },
            (
                Startup::OpenTransport { ucc, rank, .. },
                StartupEvent::Transport(outcome),
            ) => match outcome {
                Ok(transport) => Startup::CreateHeap { ucc, rank, transport },
                Err(error) => Startup::Disconnect(error),
            },
            (
                Startup::CreateHeap { ucc, rank, transport },
                StartupEvent::Heap(outcome),
            ) => match outcome {
                Ok(heap) => Startup::QuerySize { ucc, rank, transport, heap },
                Err(error) => Startup::Disconnect(error),
            },
            (
                Startup::QuerySize { ucc, rank, transport, heap },
                StartupEvent::Size { published, setting },
            ) => match job_size(published, setting) {
                Some(size) => Startup::Handshake { ucc, rank, transport, heap, size },
                None => Startup::Disconnect(
                    Error::Internal(
                        "PMIx job size unavailable and PMIX_SIZE is not set to a valid value",
                    ),
                ),
            },
            (
                Startup::Handshake { ucc, rank, transport, heap, size },
                StartupEvent::Handshaken(outcome),
            ) => match outcome {
                Ok(found) => Startup::connected(ucc, rank, transport, heap, size, found),
                Err(error) => Startup::Disconnect(error),
            },
            (
                Startup::FormTeam { rank, transport, heap, size, found, setup },
                StartupEvent::Team(event),
            ) => match setup.next(event) {
                RuntimeSetup::Ready(runtime) => Startup::Ready {
                    rank,
                    transport,
                    heap,
                    size,
                    found,
                    collectives: Some(runtime),
                },
                RuntimeSetup::Failed(error) => Startup::Disconnect(error),
                setup => Startup::FormTeam { rank, transport, heap, size, found, setup },
            },
            (Startup::Disconnect(error), StartupEvent::Disconnected) => Startup::Failed(error),
            _ => self,
        }
    }

    /// Take note of what a call returned.
    pub fn advance(self, event: StartupEvent) -> (after: Startup)
        requires
            self.wf(),
            event.wf(),
        ensures
            after == self.next(event),
            after.wf(),
    {
        match (self, event) {
            (Startup::Connect { ucc }, StartupEvent::Connected(outcome)) => match outcome {
                Ok(rank) => Startup::OpenTransport { ucc, rank, setup: UcxTransport::new(1) },
                Err(error) => Startup::Failed(Error::from(error)),
            },
            (
                Startup::OpenTransport { ucc, rank, .. },
                StartupEvent::Transport(outcome),
            ) => match outcome {
                Ok(transport) => Startup::CreateHeap { ucc, rank, transport },
                Err(error) => Startup::Disconnect(error),
            },
            (
                Startup::CreateHeap { ucc, rank, transport },
                StartupEvent::Heap(outcome),
            ) => match outcome {
                Ok(heap) => Startup::QuerySize { ucc, rank, transport, heap },
                Err(error) => Startup::Disconnect(error),
            },
            (
                Startup::QuerySize { ucc, rank, transport, heap },
                StartupEvent::Size { published, setting },
            ) => match find_job_size(published, setting) {
                Some(size) => Startup::Handshake { ucc, rank, transport, heap, size },
                None => Startup::Disconnect(
                    Error::Internal(
                        "PMIx job size unavailable and PMIX_SIZE is not set to a valid value",
                    ),
                ),
            },
            (
                Startup::Handshake { ucc, rank, transport, heap, size },
                StartupEvent::Handshaken(outcome),
            ) => match outcome {
                Ok(found) => match ucc {
                    None => Startup::Ready {
                        rank,
                        transport,
                        heap,
                        size,
                        found,
                        collectives: None,
                    },
                    Some(codes) => match Runtime::new(rank, size, codes) {
                        Ok(setup) => Startup::FormTeam {
                            rank,
                            transport,
                            heap,
                            size,
                            found,
                            setup,
                        },
                        Err(error) => Startup::Disconnect(error),
                    },
                },
                Err(error) => Startup::Disconnect(error),
            },
            (
                Startup::FormTeam { rank, transport, heap, size, found, setup },
                StartupEvent::Team(event),
            ) => match setup.advance(event) {
                RuntimeSetup::Ready(runtime) => Startup::Ready {
                    rank,
                    transport,
                    heap,
                    size,
                    found,
                    collectives: Some(runtime),
                },
                RuntimeSetup::Failed(error) => Startup::Disconnect(error),
                setup => Startup::FormTeam { rank, transport, heap, size, found, setup },
            },
            (Startup::Disconnect(error), StartupEvent::Disconnected) => Startup::Failed(error),
            (startup, _) => startup,
        }
    }

    /// The initialization after a sequence of events.
    pub open spec fn run(self, events: Seq<StartupEvent>) -> Startup
        decreases events.len(),
    {
        if events.len() == 0 {
            self
        } else {
            self.run(events.drop_last()).next(events.last())
        }
    }

    /// Whether the process has a connected PMIx client.
    pub open spec fn has_client(self) -> bool {
        !(self is Connect || self is Failed)
    }

    /// The state of a process that is ready.
    pub open spec fn state(self) -> Option<StateModel> {
        match self {
            Startup::Ready { rank, transport, heap, size, found, collectives } => Some(
                StateModel {
                    peers: found.peers@,
                    heap: heap@,
                    transport,
                    rank,
                    size,
                    rkeys: found.peer_rkeys@,
                    collectives,
                },
            ),
            _ => None,
        }
    }
}

/// How often a client is connected in the course of an initialization.
pub open spec fn connections(ucc: Option<UccCodes>, events: Seq<StartupEvent>) -> nat
    decreases events.len(),
{
    if events.len() == 0 {
        0
    } else {
        let before = (Startup::Connect { ucc }).run(events.drop_last());
        let opened: nat = if !before.has_client() && before.next(events.last()).has_client() {
            1
        } else {
            0
        };
        connections(ucc, events.drop_last()) + opened
    }
}

/// How often the client is disconnected in the course of an initialization.
pub open spec fn disconnections(ucc: Option<UccCodes>, events: Seq<StartupEvent>) -> nat
    decreases events.len(),
{
    if events.len() == 0 {
        0
    } else {
        let before = (Startup::Connect { ucc }).run(events.drop_last());
        let closed: nat = if before is Disconnect && events.last() is Disconnected {
            1
        } else {
            0
        };
        disconnections(ucc, events.drop_last()) + closed
    }
}

/// An initialization connects at most one client. A failed one has disconnected every client it
/// connected, and a successful one has disconnected none.
pub proof fn law_failed_startup_disconnects(ucc: Option<UccCodes>, events: Seq<StartupEvent>)
    ensures
        ({
            let now = (Startup::Connect { ucc }).run(events);
            &&& connections(ucc, events) <= 1
            &&& now is Failed ==> disconnections(ucc, events) == connections(ucc, events)
            &&& now is Ready ==> disconnections(ucc, events) == 0 && connections(ucc, events) == 1
        }),
{
    lemma_client_count(ucc, events);
}

proof fn lemma_client_count(ucc: Option<UccCodes>, events: Seq<StartupEvent>)
    ensures
        ({
            let now = (Startup::Connect { ucc }).run(events);
            let opened = connections(ucc, events);
            let closed = disconnections(ucc, events);
            &&& opened <= 1
            &&& now is Connect ==> opened == 0 && closed == 0
            &&& now.has_client() ==> opened == 1 && closed == 0
            &&& now is Failed ==> closed == opened
        }),
    decreases events.len(),
{
    if events.len() > 0 {
        lemma_client_count(ucc, events.drop_last());
    }
}

/// What an initialization knows of its collectives: the codes it began with, then the runtime of
/// this PE in the team of all PEs.
spec fn startup_tells(ucc: Option<UccCodes>, startup: Startup) -> bool {
    match startup {
        Startup::Connect { ucc: told } => told == ucc,
        Startup::OpenTransport { ucc: told, .. } => told == ucc,
        Startup::CreateHeap { ucc: told, .. } => told == ucc,
        Startup::QuerySize { ucc: told, .. } => told == ucc,
        Startup::Handshake { ucc: told, .. } => told == ucc,
        Startup::FormTeam { rank, size, setup, .. } => ucc matches Some(codes) && size <= u32::MAX
            && {
            let runtime = Runtime { rank, size: size as u32, codes };
            match setup {
                RuntimeSetup::InitLib(of) => of == runtime,
                RuntimeSetup::CreateContext(of) => of == runtime,
                RuntimeSetup::CreateTeam(of, _) => of == runtime,
                _ => false,
            }
        },
        Startup::Ready { rank, size, collectives, .. } => match ucc {
            None => collectives is None,
            Some(codes) => size <= u32::MAX && collectives == Some(
                Runtime { rank, size: size as u32, codes },
            ),
        },
        Startup::Disconnect(_) | Startup::Failed(_) => true,
    }
}

proof fn lemma_startup_tells(ucc: Option<UccCodes>, events: Seq<StartupEvent>)
    ensures
        startup_tells(ucc, (Startup::Connect { ucc }).run(events)),
    decreases events.len(),
{
    if events.len() > 0 {
        lemma_startup_tells(ucc, events.drop_last());
    }
}

/// Initialization sets up collectives: where they are offered, an initialized process has a runtime
/// for its place in the team of all PEs, and can begin a collective.
pub proof fn law_initialization_sets_up_collectives(
    ucc: Option<UccCodes>,
    events: Seq<StartupEvent>,
    state: StateModel,
    order: ByteOrder,
)
    requires
        (Startup::Connect { ucc }).run(events).state() == Some(state),
    ensures
        match ucc {
            Some(codes) => {
                &&& state.size <= u32::MAX
                &&& coll::runtime_of(LifecycleModel { order, state: Some(state) }) == Ok::<
                    Runtime,
                    Error,
                >(Runtime { rank: state.rank, size: state.size as u32, codes })
            },
            None => state.collectives is None,
        },
{
    lemma_startup_tells(ucc, events);
}

/// Whether an initialization past its handshake keeps what the handshake found.
spec fn keeps_found(startup: Startup, size: usize, found: Bootstrap) -> bool {
    match startup {
        Startup::FormTeam { size: asked, found: kept, .. } => asked == size && kept == found,
        Startup::Ready { size: asked, found: kept, .. } => asked == size && kept == found,
        Startup::Disconnect(_) | Startup::Failed(_) => true,
        _ => false,
    }
}

proof fn lemma_found_is_kept(
    startup: Startup,
    events: Seq<StartupEvent>,
    size: usize,
    found: Bootstrap,
)
    requires
        keeps_found(startup, size, found),
    ensures
        keeps_found(startup.run(events), size, found),
    decreases events.len(),
{
    if events.len() > 0 {
        lemma_found_is_kept(startup, events.drop_last(), size, found);
    }
}

/// The stored peers are those of the job: where the exchange of an initialization ended in what was
/// `found`, the state of the initialized process has at least one PE, and knows exactly the PEs
/// below the job size, each with complete metadata. The job size is one that 32 bits can hold.
pub proof fn law_initialized_process_knows_its_job(
    own: OwnMetadata,
    size: usize,
    exchange: HandshakeModel,
    exchanged: Seq<Event>,
    found: Bootstrap,
    waiting: Startup,
    later: Seq<StartupEvent>,
    state: StateModel,
)
    requires
        size <= u32::MAX,
        bootstrap::exchange_of(own, size) == Ok::<HandshakeModel, Error>(exchange),
        exchange.run(exchanged).step == Step::Done,
        found.peer_rkeys@ == exchange.run(exchanged).rkeys,
        found.peers@ == exchange.run(exchanged).peers,
        waiting matches Startup::Handshake { size: asked, .. } && asked == size,
        waiting.next(StartupEvent::Handshaken(Ok(found))).run(later).state() == Some(state),
    ensures
        state.size == size,
        state.size >= 1,
        bootstrap::complete_below(state.rkeys, state.peers, state.size as int),
        forall|pe: int|
            0 <= pe ==> (#[trigger] rma::member(state.peers, pe) is Ok <==> pe < state.size),
{
    bootstrap::law_done_covers_every_pe(own, size as u32, exchanged);
    lemma_found_is_kept(
        waiting.next(StartupEvent::Handshaken(Ok(found))),
        later,
        size,
        found,
    );
    assert forall|pe: int| 0 <= pe implies (#[trigger] rma::member(state.peers, pe) is Ok <==> pe
        < state.size) by {
        rma::law_exactly_the_job_is_addressable(state.rkeys, state.peers, size as int, pe);
    }
}

/// The job size that PMIx publishes counts, whatever `PMIX_SIZE` says. Where there is none, the
/// number that `PMIX_SIZE` spells counts, and where that spells none the job size is not known.
pub proof fn law_published_job_size_comes_first(published: Option<u32>, setting: Option<String>)
    ensures
        published matches Some(size) ==> (job_size(published, setting) matches Some(known) && known
            == size),
        published is None && setting is None ==> job_size(published, setting) is None,
        published is None ==> (setting matches Some(text) ==> job_size(published, setting)
            == settings::parsed(text@)),
{
}

/// The peers that are walked in ascending order are exactly the connected ones, none twice.
pub proof fn law_ascending_names_each_peer_once(pes: Seq<u32>, peers: Map<u32, PeerConnection>)
    requires
        ascending(pes, peers),
    ensures
        forall|i: int| 0 <= i < pes.len() ==> peers.contains_key(#[trigger] pes[i]),
        forall|pe: u32| #[trigger]
            peers.contains_key(pe) ==> exists|i: int| 0 <= i < pes.len() && pes[i] == pe,
        pes.no_duplicates(),
        forall|i: int, j: int|
            #![trigger pes[i], pes[j]]
            0 <= i < j < pes.len() ==> pes[i] < pes[j],
{
    assert forall|i: int| 0 <= i < pes.len() implies peers.contains_key(#[trigger] pes[i]) by {
        assert(pes.contains(pes[i]));
    }
}

/// An initialization in which every call succeeds ends ready, with the rank, the transport, the
/// heap, the job size and the peers that the calls returned, and with a collective runtime exactly
/// where collectives are offered.
pub proof fn law_successful_startup_keeps_what_it_was_given(
    ucc: Option<UccCodes>,
    rank: u32,
    transport: UcxTransport,
    heap: SymHeap,
    size: u32,
    setting: Option<String>,
    found: Bootstrap,
)
    ensures
        ({
            let opening = (Startup::Connect { ucc }).next(StartupEvent::Connected(Ok(rank)));
            let creating = opening.next(StartupEvent::Transport(Ok(transport)));
            let asking = creating.next(StartupEvent::Heap(Ok(heap)));
            let exchanging = asking.next(StartupEvent::Size { published: Some(size), setting });
            let exchanged = exchanging.next(StartupEvent::Handshaken(Ok(found)));
            let ended = if ucc is None {
                exchanged
            } else {
                exchanged.next(StartupEvent::Team(RuntimeEvent::Lib(Ok(())))).next(
                    StartupEvent::Team(RuntimeEvent::Context(Ok(()))),
                ).next(StartupEvent::Team(RuntimeEvent::Team(Ok(()))))
            };
            &&& opening matches Startup::OpenTransport { setup, .. } && setup
                == TransportSetup::ReadConfig(rma::context_request(1))
            &&& creating is CreateHeap
            &&& asking is QuerySize
            &&& exchanging is Handshake
            &&& ended.state() matches Some(state) && {
                &&& state.rank == rank
                &&& state.transport == transport
                &&& state.heap == heap@
                &&& state.size == size
                &&& state.peers == found.peers@
                &&& state.rkeys == found.peer_rkeys@
                &&& match ucc {
                    None => state.collectives is None,
                    Some(codes) => state.collectives matches Some(runtime) && runtime.rank == rank
                        && runtime.size == size && runtime.codes == codes,
                }
            }
        }),
{
}

/// The exchange goes on with the job size that is known, wherever it is known from, and keeps what
/// was given before. Where it is not known, the initialization fails.
pub proof fn law_known_job_size_is_the_one_used(
    asking: Startup,
    published: Option<u32>,
    setting: Option<String>,
)
    requires
        asking is QuerySize,
    ensures
        ({
            let after = asking.next(StartupEvent::Size { published, setting });
            match job_size(published, setting) {
                Some(size) => {
                    &&& after matches Startup::Handshake { ucc, rank, transport, heap, size: asked }
                    &&& asked == size
                    &&& asking == (Startup::QuerySize { ucc, rank, transport, heap })
                },
                None => after == Startup::Disconnect(
                    Error::Internal(
                        "PMIx job size unavailable and PMIX_SIZE is not set to a valid value",
                    ),
                ),
            }
        }),
{
}

/// An initialization fails exactly where the call that it asked for failed, where no job size is
/// known, or where the job is too large for collectives that are offered. Where a client is
/// connected it is disconnected first, and the error is the one of the call.
pub proof fn law_startup_fails_only_for_cause(startup: Startup, event: StartupEvent)
    requires
        !(startup is Disconnect || startup is Failed),
    ensures
        ({
            let after = startup.next(event);
            &&& after is Failed <==> startup is Connect && (event matches StartupEvent::Connected(
                outcome,
            ) && outcome is Err)
            &&& after is Disconnect <==> match event {
                StartupEvent::Connected(_) => false,
                StartupEvent::Transport(outcome) => startup is OpenTransport && outcome is Err,
                StartupEvent::Heap(outcome) => startup is CreateHeap && outcome is Err,
                StartupEvent::Size { published, setting } => startup is QuerySize && job_size(
                    published,
                    setting,
                ) is None,
                StartupEvent::Handshaken(outcome) => startup matches Startup::Handshake {
                    ucc,
                    size,
                    ..
                } && (outcome is Err || (ucc is Some && size > u32::MAX)),
                StartupEvent::Team(answer) => startup matches Startup::FormTeam { setup, .. }
                    && setup.next(answer) is Failed,
                StartupEvent::Disconnected => false,
            }
            &&& after matches Startup::Failed(error) ==> (event matches StartupEvent::Connected(
                Err(status),
            ) ==> (!(status is Success) ==> error == Error::Pmix(status)))
            &&& after matches Startup::Disconnect(error) ==> match event {
                StartupEvent::Transport(Err(cause)) => error == cause,
                StartupEvent::Heap(Err(cause)) => error == cause,
                StartupEvent::Handshaken(Err(cause)) => error == cause,
                StartupEvent::Handshaken(Ok(_)) => error == Error::Usage(
                    "job size exceeds UCC limits",
                ),
                StartupEvent::Team(answer) => startup matches Startup::FormTeam { setup, .. }
                    && setup.next(answer) == RuntimeSetup::Failed(error),
                _ => true,
            }
        }),
{
}

/// A failed initialization that is disconnected has failed for the reason it was disconnected.
pub proof fn law_disconnecting_keeps_the_error(error: Error)
    ensures
        Startup::Disconnect(error).next(StartupEvent::Disconnected) == Startup::Failed(error),
{
}

/// An event that does not answer the call that an initialization asks for changes nothing. An
/// initialization that has ended asks for none.
pub proof fn law_stray_event_changes_no_startup(startup: Startup, event: StartupEvent)
    requires
        !(startup is Connect && event is Connected),
        !(startup is OpenTransport && event is Transport),
        !(startup is CreateHeap && event is Heap),
        !(startup is QuerySize && event is Size),
        !(startup is Handshake && event is Handshaken),
        !(startup is FormTeam && event is Team),
        !(startup is Disconnect && event is Disconnected),
    ensures
        startup.next(event) == startup,
{
}

/// A process has a state exactly where its initialization ended ready.
pub proof fn law_only_a_ready_startup_has_a_state(startup: Startup)
    ensures
        startup.state() is Some <==> startup is Ready,
{
}

/// Begin to initialize the OpenSHMEM process and cache its PE identity.
///
/// This is one logical initialization per process. Calling it while already
/// initialized returns [`Error::AlreadyInitialized`]. PMIx job size is read
/// from `PMIX_JOB_SIZE`; if that value is unavailable, `PMIX_SIZE` is used as a
/// compatibility fallback for PRRTE environments that do not publish it.
///
/// Where collectives are offered, `ucc` gives the codes of UCC, and initialization forms the team
/// of all PEs.
pub fn init(lifecycle: &Lifecycle, ucc: Option<UccCodes>) -> (startup: Result<Startup>)
    ensures
        match lifecycle@.state {
            Some(_) => startup == Err::<Startup, Error>(Error::AlreadyInitialized),
            None => startup == Ok::<Startup, Error>(Startup::Connect { ucc }),
        },
{
    match &lifecycle.state {
        Some(_) => Err(Error::AlreadyInitialized),
        None => Ok(Startup::Connect { ucc }),
    }
}

/// End an initialization: keep the state of a process that is ready, or return why it failed.
/// An initialization that has not ended changes nothing.
pub fn complete(lifecycle: &mut Lifecycle, startup: Startup) -> (outcome: Option<Result<()>>)
    requires
        old(lifecycle).wf(),
        old(lifecycle)@.state is None,
        startup.wf(),
    ensures
        final(lifecycle).wf(),
        match startup {
            Startup::Ready { .. } => {
                &&& outcome == Some(Ok::<(), Error>(()))
                &&& final(lifecycle)@ == (LifecycleModel {
                    order: old(lifecycle)@.order,
                    state: startup.state(),
                })
            },
            Startup::Failed(error) => {
                &&& outcome == Some(Err::<(), Error>(error))
                &&& final(lifecycle)@ == old(lifecycle)@
            },
            _ => outcome is None && final(lifecycle)@ == old(lifecycle)@,
        },
{
    match startup {
        Startup::Ready { rank, transport, heap, size, found, collectives } => {
            let Bootstrap { peer_rkeys, peers } = found;
            lifecycle.state = Some(
                ShmemState { peers, heap, transport, rank, size, peer_rkeys, collectives },
            );
            Some(Ok(()))
        },
        Startup::Failed(error) => Some(Err(error)),
        _ => None,
    }
}

/// Return this process's PE rank, mirroring `shmem_my_pe()`.
pub fn my_pe(lifecycle: &Lifecycle) -> (rank: Result<u32>)
    ensures
        rank == match lifecycle@.state {
            Some(state) => Ok::<u32, Error>(state.rank),
            None => Err(Error::NotInitialized),
        },
{
    match &lifecycle.state {
        Some(state) => Ok(state.rank),
        None => Err(Error::NotInitialized),
    }
}

/// Return the number of PEs in the job, mirroring `shmem_n_pes()`.
pub fn n_pes(lifecycle: &Lifecycle) -> (size: Result<usize>)
    ensures
        size == match lifecycle@.state {
            Some(state) => Ok::<usize, Error>(state.size),
            None => Err(Error::NotInitialized),
        },
{
    match &lifecycle.state {
        Some(state) => Ok(state.size),
        None => Err(Error::NotInitialized),
    }
}

/// Allocate symmetric memory, mirroring `shmem_malloc()`.
pub fn malloc(lifecycle: &mut Lifecycle, size: usize) -> (result: Result<SymPtr>)
    requires
        old(lifecycle).wf(),
    ensures
        final(lifecycle).wf(),
        match old(lifecycle)@.state {
            Some(before) => exists|heap: HeapModel| #[trigger]
                before.heap.mallocs(size as int, result, heap) && final(lifecycle)@ == (
                LifecycleModel { state: Some(StateModel { heap, ..before }), ..old(lifecycle)@ }),
            None => {
                &&& result == Err::<SymPtr, Error>(Error::NotInitialized)
                &&& final(lifecycle)@ == old(lifecycle)@
            },
        },
        result matches Ok(ptr) ==> ptr.addr() % ALIGNMENT == 0,
{
    match &mut lifecycle.state {
        Some(state) => {
            let result = state.heap.malloc(size);
            assert(old(lifecycle)@.state->Some_0.heap.mallocs(size as int, result, state.heap@));
            result
        },
        None => Err(Error::NotInitialized),
    }
}

/// Return symmetric memory, mirroring `shmem_free()`.
pub fn free(lifecycle: &mut Lifecycle, ptr: SymPtr) -> (result: Result<()>)
    requires
        old(lifecycle).wf(),
    ensures
        final(lifecycle).wf(),
        match old(lifecycle)@.state {
            Some(before) => exists|heap: HeapModel| #[trigger]
                before.heap.frees(ptr, result, heap) && final(lifecycle)@ == (LifecycleModel {
                    state: Some(StateModel { heap, ..before }),
                    ..old(lifecycle)@
                }),
            None => {
                &&& result == Err::<(), Error>(Error::NotInitialized)
                &&& final(lifecycle)@ == old(lifecycle)@
            },
        },
        result is Ok <==> (old(lifecycle)@.state matches Some(before)
            && before.heap.live.contains_key(ptr.addr())),
{
    match &mut lifecycle.state {
        Some(state) => {
            let result = state.heap.free(ptr);
            assert(old(lifecycle)@.state->Some_0.heap.frees(ptr, result, state.heap@));
            result
        },
        None => Err(Error::NotInitialized),
    }
}

/// Return the local address of the first byte of the symmetric heap.
pub fn heap_base(lifecycle: &Lifecycle) -> (base: Result<u64>)
    ensures
        match lifecycle@.state {
            Some(state) => base matches Ok(base) && base == state.heap.base,
            None => base == Err::<u64, Error>(Error::NotInitialized),
        },
{
    match &lifecycle.state {
        Some(state) => Ok(state.heap.local_base()),
        None => Err(Error::NotInitialized),
    }
}

/// Begin to finalize the PMIx session.
///
/// Finalization is idempotent. The state is cleared at once and handed to the caller: where there
/// was one, the client is to be disconnected, and [`disconnected`] says what to return.
pub fn finalize(lifecycle: &mut Lifecycle) -> (taken: Option<ShmemState>)
    requires
        old(lifecycle).wf(),
    ensures
        final(lifecycle).wf(),
        final(lifecycle)@ == old(lifecycle)@.finalized(),
        match old(lifecycle)@.state {
            Some(state) => taken matches Some(taken) && taken@ == state,
            None => taken is None,
        },
{
    lifecycle.state.take()
}

/// Judge what came of disconnecting the client of a finalized process.
pub fn disconnected(outcome: std::result::Result<(), Option<PmixError>>) -> (result: Result<()>)
    ensures
        result == match outcome {
            Ok(_) => Ok::<(), Error>(()),
            Err(known) => Err(bootstrap::status_failure(known)),
        },
{
    match outcome {
        Ok(_) => Ok(()),
        Err(known) => Err(bootstrap::pmix_error(known)),
    }
}

} // verus!
