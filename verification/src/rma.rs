//! UCX transport setup, one-sided transfers and their completion.
//!
//! The transport is deliberately gated by UCX context creation with the RMA
//! feature. This asks UCX, rather than parsing `ucx_info -d`, whether the
//! locally configured transports can provide the requested UCP API.
//!
//! UCX transport expectations:
//! - `self`/`cma`/intra-node transports support single-PE loopback.
//! - `tcp` supports zcopy RMA, but does not provide atomics.
//! - `ib`/`rc` and `rc_verbs` are the production inter-node transports.

use vstd::prelude::*;

#[allow(unused_imports)]
use crate::bootstrap;
use crate::bootstrap::PeerConnection;
#[allow(unused_imports)]
use crate::error;
use crate::error::{Error, Result, UcsStatus};
#[allow(unused_imports)]
use crate::heap_model::HeapModel;
use crate::init;
#[allow(unused_imports)]
use crate::init::{Lifecycle, LifecycleModel, ShmemState};
#[allow(unused_imports)]
use crate::pod;
pub use crate::pod::Pod;
#[allow(unused_imports)]
use crate::symheap::{PeerRkey, SymPtr};

verus! {

/// The capabilities required by the transport bootstrap.
#[derive(Debug, Clone, Copy, PartialEq, Eq, Structural)]
pub struct TransportCapabilities {
    /// UCP RMA put/get operations are available.
    pub rma: bool,
    /// The worker can be used for single-PE loopback addressing.
    pub loopback: bool,
}

/// How a worker may be entered by several threads.
#[derive(Debug, Clone, Copy, PartialEq, Eq, Structural)]
pub enum ThreadMode {
    /// By one thread at a time.
    Serialized,
}

/// What a UCX context is asked for.
#[derive(Debug, Clone, Copy, PartialEq, Eq, Structural)]
pub struct ContextRequest {
    /// Tag matching.
    pub tag: bool,
    /// Remote memory access.
    pub rma: bool,
    /// Memory handles that can be exported.
    pub exported_memh: bool,
    /// The number of workers that threads share.
    pub mt_workers_shared: u32,
    pub estimated_num_eps: usize,
}

/// Why the UCX configuration could not be read.
#[derive(Debug, Clone, Copy, PartialEq, Eq)]
pub enum ConfigError {
    Ucs(UcsStatus),
    /// A configuration string held a NUL byte.
    Nul,
}

/// The address and the capabilities of the UCX worker of one OpenSHMEM PE.
#[derive(Debug)]
pub struct UcxTransport {
    packed_address: Vec<u8>,
    capabilities: TransportCapabilities,
}

/// The setup of a transport: the call to make next, or how it ended.
#[derive(Debug)]
pub enum TransportSetup {
    /// Read the UCX configuration, then create a context with this request.
    ReadConfig(ContextRequest),
    /// Create a context that meets the request.
    CreateContext(ContextRequest),
    /// Create a worker for use in this mode.
    CreateWorker(ThreadMode),
    /// Pack the address of the worker.
    PackAddress,
    /// Put the worker, whose packed address is at hand, behind a mutex.
    ShareWorker(Vec<u8>),
    Ready(UcxTransport),
    Failed(Error),
}

/// What a call of a transport setup returned.
#[derive(Debug)]
pub enum SetupEvent {
    Config(std::result::Result<(), ConfigError>),
    Context(std::result::Result<(), UcsStatus>),
    Worker(std::result::Result<(), UcsStatus>),
    Address(std::result::Result<Vec<u8>, UcsStatus>),
    Shared(std::result::Result<(), UcsStatus>),
}

/// The request for a context with tag matching, RMA and exported memory handles, and one worker
/// that threads share.
pub open spec fn context_request(estimated_num_eps: usize) -> ContextRequest {
    ContextRequest {
        tag: true,
        rma: true,
        exported_memh: true,
        mt_workers_shared: 1,
        estimated_num_eps,
    }
}

/// The error for a configuration that could not be read.
pub open spec fn config_failure(error: ConfigError) -> Error {
    match error {
        ConfigError::Ucs(status) => error::ucx_failure(status),
        ConfigError::Nul => Error::Internal("invalid UCX configuration string"),
    }
}

impl UcxTransport {
    pub closed spec fn spec_packed_address(&self) -> Seq<u8> {
        self.packed_address@
    }

    pub closed spec fn spec_capabilities(&self) -> TransportCapabilities {
        self.capabilities
    }

    /// A transport offers RMA, and loopback exactly where its worker has an address.
    pub open spec fn wf(&self) -> bool {
        self.spec_capabilities() == (TransportCapabilities {
            rma: true,
            loopback: self.spec_packed_address().len() > 0,
        })
    }

    /// Begin to create a transport, requesting RMA and exported-memory-handle support.
    ///
    /// Context creation is the capability gate: UCX returns an error when no
    /// usable transport satisfies the requested feature set. The worker is
    /// serialized by its binding-level mutex so that its handle can be retained in
    /// the process-global lifecycle state.
    pub fn new(estimated_num_eps: usize) -> (setup: TransportSetup)
        ensures
            setup == TransportSetup::ReadConfig(context_request(estimated_num_eps)),
            setup matches TransportSetup::ReadConfig(request) && request.tag && request.rma
                && request.exported_memh && request.mt_workers_shared == 1
                && request.estimated_num_eps == estimated_num_eps,
    {
        TransportSetup::ReadConfig(
            ContextRequest {
                tag: true,
                rma: true,
                exported_memh: true,
                mt_workers_shared: 1,
                estimated_num_eps,
            },
        )
    }

    /// Return the address to which a loopback endpoint is created.
    pub fn loopback_endpoint(&self) -> (address: Result<&[u8]>)
        ensures
            match address {
                Ok(address) => self.spec_capabilities().loopback && address@
                    == self.spec_packed_address(),
                Err(error) => !self.spec_capabilities().loopback && error == Error::Internal(
                    "UCX worker has no loopback address",
                ),
            },
    {
        if !self.capabilities.loopback {
            return Err(Error::Internal("UCX worker has no loopback address"));
        }
        Ok(self.packed_address.as_slice())
    }

    /// Return the capability decision made during construction.
    pub fn capabilities(&self) -> (capabilities: TransportCapabilities)
        ensures
            capabilities == self.spec_capabilities(),
    {
        self.capabilities
    }

    /// Return the packed worker address for the PMIx exchange.
    pub fn packed_address(&self) -> (address: &[u8])
        ensures
            address@ == self.spec_packed_address(),
    {
        self.packed_address.as_slice()
    }
}

impl TransportSetup {
    /// Whether `after` follows when the call that this setup asks for returned `event`. An event
    /// that does not answer the call changes nothing.
    pub open spec fn follows(self, event: SetupEvent, after: TransportSetup) -> bool {
        match (self, event) {
            (TransportSetup::ReadConfig(request), SetupEvent::Config(outcome)) => match outcome {
                Ok(_) => after == TransportSetup::CreateContext(request),
                Err(error) => after == TransportSetup::Failed(config_failure(error)),
            },
            (TransportSetup::CreateContext(_), SetupEvent::Context(outcome)) => match outcome {
                Ok(_) => after == TransportSetup::CreateWorker(ThreadMode::Serialized),
                Err(status) => after == TransportSetup::Failed(error::ucx_failure(status)),
            },
            (TransportSetup::CreateWorker(_), SetupEvent::Worker(outcome)) => match outcome {
                Ok(_) => after == TransportSetup::PackAddress,
                Err(status) => after == TransportSetup::Failed(error::ucx_failure(status)),
            },
            (TransportSetup::PackAddress, SetupEvent::Address(outcome)) => match outcome {
                Ok(address) => after == TransportSetup::ShareWorker(address),
                Err(status) => after == TransportSetup::Failed(error::ucx_failure(status)),
            },
            (TransportSetup::ShareWorker(address), SetupEvent::Shared(outcome)) => match outcome {
                Ok(_) => after matches TransportSetup::Ready(transport) && transport.wf()
                    && transport.spec_packed_address() == address@,
                Err(status) => after == TransportSetup::Failed(error::ucx_failure(status)),
            },
            _ => after == self,
        }
    }

    /// Take note of what a call returned.
    pub fn advance(self, event: SetupEvent) -> (after: TransportSetup)
        ensures
            self.follows(event, after),
    {
        match (self, event) {
            (TransportSetup::ReadConfig(request), SetupEvent::Config(outcome)) => match outcome {
                Ok(_) => TransportSetup::CreateContext(request),
                Err(ConfigError::Ucs(status)) => TransportSetup::Failed(Error::from(status)),
                Err(ConfigError::Nul) => TransportSetup::Failed(
                    Error::Internal("invalid UCX configuration string"),
                ),
            },
            (TransportSetup::CreateContext(_), SetupEvent::Context(outcome)) => match outcome {
                Ok(_) => TransportSetup::CreateWorker(ThreadMode::Serialized),
                Err(status) => TransportSetup::Failed(Error::from(status)),
            },
            (TransportSetup::CreateWorker(_), SetupEvent::Worker(outcome)) => match outcome {
                Ok(_) => TransportSetup::PackAddress,
                Err(status) => TransportSetup::Failed(Error::from(status)),
            },
            (TransportSetup::PackAddress, SetupEvent::Address(outcome)) => match outcome {
                Ok(address) => TransportSetup::ShareWorker(address),
                Err(status) => TransportSetup::Failed(Error::from(status)),
            },
            (
                TransportSetup::ShareWorker(packed_address),
                SetupEvent::Shared(outcome),
            ) => match outcome {
                Ok(_) => TransportSetup::Ready(
                    UcxTransport {
                        capabilities: TransportCapabilities {
                            rma: true,
                            loopback: packed_address.len() > 0,
                        },
                        packed_address,
                    },
                ),
                Err(status) => TransportSetup::Failed(Error::from(status)),
            },
            (setup, _) => setup,
        }
    }
}

/// The states that a setup goes through, one more than the events it is told.
pub open spec fn setup_run(states: Seq<TransportSetup>, events: Seq<SetupEvent>) -> bool {
    &&& states.len() == events.len() + 1
    &&& forall|i: int|
        #![trigger events[i]]
        0 <= i < events.len() ==> states[i].follows(events[i], states[i + 1])
}

/// What has been seen by the time a setup stands where it stands.
spec fn setup_saw(request: ContextRequest, state: TransportSetup, events: Seq<SetupEvent>) -> bool {
    let config = events.contains(SetupEvent::Config(Ok(())));
    let context = events.contains(SetupEvent::Context(Ok(())));
    let worker = events.contains(SetupEvent::Worker(Ok(())));
    match state {
        TransportSetup::ReadConfig(asked) => asked == request,
        TransportSetup::CreateContext(asked) => asked == request && config,
        TransportSetup::CreateWorker(_) => config && context,
        TransportSetup::PackAddress => config && context && worker,
        TransportSetup::ShareWorker(address) => config && context && worker && events.contains(
            SetupEvent::Address(Ok(address)),
        ),
        TransportSetup::Ready(transport) => config && context && worker && events.contains(
            SetupEvent::Shared(Ok(())),
        ) && transport.wf() && exists|address: Vec<u8>| #[trigger]
            events.contains(SetupEvent::Address(Ok(address))) && address@
                == transport.spec_packed_address(),
        TransportSetup::Failed(_) => true,
    }
}

proof fn lemma_setup_saw(
    request: ContextRequest,
    states: Seq<TransportSetup>,
    events: Seq<SetupEvent>,
)
    requires
        setup_run(states, events),
        states[0] == TransportSetup::ReadConfig(request),
    ensures
        setup_saw(request, states.last(), events),
    decreases events.len(),
{
    if events.len() > 0 {
        let n = events.len() - 1;
        lemma_setup_earlier(states, events);
        lemma_setup_saw(request, states.take(n + 1), events.take(n));
        assert(states[n].follows(events[n], states[n + 1]));
        assert(events.contains(events[n]));
        assert forall|e: SetupEvent| #[trigger] events.take(n).contains(e) implies events.contains(
            e,
        ) by {
            let i = choose|i: int| 0 <= i < n && events.take(n)[i] == e;
            assert(events[i] == e);
        }
        match events[n] {
            SetupEvent::Config(Ok(done)) => assert(done == ()),
            SetupEvent::Context(Ok(done)) => assert(done == ()),
            SetupEvent::Worker(Ok(done)) => assert(done == ()),
            SetupEvent::Shared(Ok(done)) => assert(done == ()),
            _ => {},
        }
    }
}

/// A transport is ready only where UCX granted what was requested: the configuration was read, a
/// context was created, and a worker was created and shared. The address of the transport is the
/// one that UCX packed.
pub proof fn law_ready_transport_was_granted(
    request: ContextRequest,
    states: Seq<TransportSetup>,
    events: Seq<SetupEvent>,
    transport: UcxTransport,
)
    requires
        setup_run(states, events),
        states[0] == TransportSetup::ReadConfig(request),
        states.last() == TransportSetup::Ready(transport),
    ensures
        transport.wf(),
        events.contains(SetupEvent::Config(Ok(()))),
        events.contains(SetupEvent::Context(Ok(()))),
        events.contains(SetupEvent::Worker(Ok(()))),
        events.contains(SetupEvent::Shared(Ok(()))),
        exists|address: Vec<u8>| #[trigger]
            events.contains(SetupEvent::Address(Ok(address))) && address@
                == transport.spec_packed_address(),
{
    lemma_setup_saw(request, states, events);
}

/// A context is always asked for tag matching, RMA and exported memory handles, for one worker that
/// threads share, and for as many endpoints as estimated.
pub proof fn law_context_is_asked_for_rma(estimated_num_eps: usize)
    ensures
        ({
            let request = context_request(estimated_num_eps);
            &&& request.tag
            &&& request.rma
            &&& request.exported_memh
            &&& request.mt_workers_shared == 1
            &&& request.estimated_num_eps == estimated_num_eps
        }),
{
}

/// Where UCX grants every call, a setup makes five of them, in order, and ends with a transport of
/// the packed address, which offers RMA, and loopback exactly where the address is not empty.
pub proof fn law_granted_setup_is_ready(
    request: ContextRequest,
    states: Seq<TransportSetup>,
    address: Vec<u8>,
)
    requires
        setup_run(
            states,
            seq![
                SetupEvent::Config(Ok(())),
                SetupEvent::Context(Ok(())),
                SetupEvent::Worker(Ok(())),
                SetupEvent::Address(Ok(address)),
                SetupEvent::Shared(Ok(())),
            ],
        ),
        states[0] == TransportSetup::ReadConfig(request),
    ensures
        states[1] == TransportSetup::CreateContext(request),
        states[2] == TransportSetup::CreateWorker(ThreadMode::Serialized),
        states[3] is PackAddress,
        states[4] == TransportSetup::ShareWorker(address),
        states[5] matches TransportSetup::Ready(transport) && {
            &&& transport.spec_packed_address() == address@
            &&& transport.spec_capabilities().rma
            &&& transport.spec_capabilities().loopback <==> address@.len() > 0
        },
{
    let events = seq![
        SetupEvent::Config(Ok(())),
        SetupEvent::Context(Ok(())),
        SetupEvent::Worker(Ok(())),
        SetupEvent::Address(Ok(address)),
        SetupEvent::Shared(Ok(())),
    ];
    assert(states[0].follows(events[0], states[1]));
    assert(states[1].follows(events[1], states[2]));
    assert(states[2].follows(events[2], states[3]));
    assert(states[3].follows(events[3], states[4]));
    assert(states[4].follows(events[4], states[5]));
}

/// A setup fails exactly where the call that it asked for failed, with the status of that call.
pub proof fn law_setup_fails_with_the_status_of_its_call(
    setup: TransportSetup,
    event: SetupEvent,
    after: TransportSetup,
)
    requires
        setup.follows(event, after),
        !(setup is Failed),
    ensures
        after is Failed <==> match event {
            SetupEvent::Config(outcome) => setup is ReadConfig && outcome is Err,
            SetupEvent::Context(outcome) => setup is CreateContext && outcome is Err,
            SetupEvent::Worker(outcome) => setup is CreateWorker && outcome is Err,
            SetupEvent::Address(outcome) => setup is PackAddress && outcome is Err,
            SetupEvent::Shared(outcome) => setup is ShareWorker && outcome is Err,
        },
        after matches TransportSetup::Failed(error) ==> match event {
            SetupEvent::Config(Err(ConfigError::Nul)) => error == Error::Internal(
                "invalid UCX configuration string",
            ),
            SetupEvent::Config(Err(ConfigError::Ucs(status))) => status.code != 0 ==> error
                == Error::Ucx(status),
            SetupEvent::Context(Err(status)) => status.code != 0 ==> error == Error::Ucx(status),
            SetupEvent::Worker(Err(status)) => status.code != 0 ==> error == Error::Ucx(status),
            SetupEvent::Address(Err(status)) => status.code != 0 ==> error == Error::Ucx(status),
            SetupEvent::Shared(Err(status)) => status.code != 0 ==> error == Error::Ucx(status),
            _ => false,
        },
        setup is Ready ==> after == setup,
{
}

/// An event that does not answer the call that a setup asks for changes nothing. A setup that has
/// ended asks for none.
pub proof fn law_stray_event_changes_no_setup(
    setup: TransportSetup,
    event: SetupEvent,
    after: TransportSetup,
)
    requires
        setup.follows(event, after),
        !(setup is ReadConfig && event is Config),
        !(setup is CreateContext && event is Context),
        !(setup is CreateWorker && event is Worker),
        !(setup is PackAddress && event is Address),
        !(setup is ShareWorker && event is Shared),
    ensures
        after == setup,
{
}

proof fn lemma_setup_earlier(states: Seq<TransportSetup>, events: Seq<SetupEvent>)
    requires
        setup_run(states, events),
        events.len() > 0,
    ensures
        setup_run(states.take(events.len() as int), events.take(events.len() - 1)),
{
    let n = events.len() - 1;
    assert forall|i: int|
        #![trigger events.take(n)[i]]
        0 <= i < n implies states.take(n + 1)[i].follows(
        events.take(n)[i],
        states.take(n + 1)[i + 1],
    ) by {
        assert(states[i].follows(events[i], states[i + 1]));
    }
}

/// An operation on one endpoint: what to do next until UCX reports that it is complete, or how it
/// ended.
#[derive(Debug, Clone, Copy, PartialEq, Eq)]
pub enum Completion {
    /// Issue the operation.
    Issue,
    /// Wait for its request.
    Wait,
    /// Free its request, which is complete.
    Release,
    Complete,
    Failed(Error),
}

/// What a call of an operation returned.
#[derive(Debug, Clone, Copy, PartialEq, Eq)]
pub enum Progress {
    /// The operation was issued: whether UCX returned a request for it, or was done at once.
    Issued(std::result::Result<bool, UcsStatus>),
    /// The request was waited for: whether it is complete.
    Waited(std::result::Result<bool, UcsStatus>),
    Released,
}

impl Completion {
    /// What follows when the call that is asked for returned `event`.
    ///
    /// Waiting has a fixed number of progress rounds. RMA operations can legitimately need more
    /// for large transfers, so an incomplete request is waited for again instead of being
    /// treated as timed out. An event that does not answer the call changes nothing.
    pub open spec fn next(self, event: Progress) -> Completion {
        match (self, event) {
            (Completion::Issue, Progress::Issued(outcome)) => match outcome {
                Ok(true) => Completion::Wait,
                Ok(false) => Completion::Complete,
                Err(status) => Completion::Failed(error::ucx_failure(status)),
            },
            (Completion::Wait, Progress::Waited(outcome)) => match outcome {
                Ok(true) => Completion::Release,
                Ok(false) => Completion::Wait,
                Err(status) => Completion::Failed(error::ucx_failure(status)),
            },
            (Completion::Release, Progress::Released) => Completion::Complete,
            _ => self,
        }
    }

    /// What follows a sequence of events.
    pub open spec fn run(self, events: Seq<Progress>) -> Completion
        decreases events.len(),
    {
        if events.len() == 0 {
            self
        } else {
            self.run(events.drop_last()).next(events.last())
        }
    }

    /// Take note of what a call returned.
    pub fn advance(self, event: Progress) -> (after: Completion)
        ensures
            after == self.next(event),
    {
        match (self, event) {
            (Completion::Issue, Progress::Issued(outcome)) => match outcome {
                Ok(true) => Completion::Wait,
                Ok(false) => Completion::Complete,
                Err(status) => Completion::Failed(Error::from(status)),
            },
            (Completion::Wait, Progress::Waited(outcome)) => match outcome {
                Ok(true) => Completion::Release,
                Ok(false) => Completion::Wait,
                Err(status) => Completion::Failed(Error::from(status)),
            },
            (Completion::Release, Progress::Released) => Completion::Complete,
            (same, _) => same,
        }
    }

    /// Return how the operation ended, once it has.
    pub fn outcome(self) -> (outcome: Option<Result<()>>)
        ensures
            outcome == match self {
                Completion::Complete => Some(Ok::<(), Error>(())),
                Completion::Failed(error) => Some(Err(error)),
                _ => None,
            },
    {
        match self {
            Completion::Complete => Some(Ok(())),
            Completion::Failed(error) => Some(Err(error)),
            _ => None,
        }
    }
}

/// An operation is complete only where UCX said so: it was done when it was issued, or it was
/// issued, its request was reported complete, and the request has been freed.
pub proof fn law_complete_only_when_reported(events: Seq<Progress>)
    requires
        Completion::Issue.run(events) == Completion::Complete,
    ensures
        events.contains(Progress::Issued(Ok(false))) || (events.contains(Progress::Issued(Ok(true)))
            && events.contains(Progress::Waited(Ok(true))) && events.contains(Progress::Released)),
{
    lemma_completion_saw(events);
}

proof fn lemma_completion_saw(events: Seq<Progress>)
    ensures
        match Completion::Issue.run(events) {
            Completion::Wait => events.contains(Progress::Issued(Ok(true))),
            Completion::Release => events.contains(Progress::Issued(Ok(true))) && events.contains(
                Progress::Waited(Ok(true)),
            ),
            Completion::Complete => events.contains(Progress::Issued(Ok(false))) || (
            events.contains(Progress::Issued(Ok(true))) && events.contains(
                Progress::Waited(Ok(true)),
            ) && events.contains(Progress::Released)),
            _ => true,
        },
    decreases events.len(),
{
    if events.len() > 0 {
        let n = events.len() - 1;
        let before = events.drop_last();
        lemma_completion_saw(before);
        assert(events.contains(events[n]));
        assert forall|e: Progress| #[trigger] before.contains(e) implies events.contains(e) by {
            let i = choose|i: int| 0 <= i < n && before[i] == e;
            assert(events[i] == e);
        }
    }
}

/// Waiting has no timeout: however often a request is reported incomplete, it is waited for.
pub proof fn law_waiting_never_times_out(events: Seq<Progress>)
    requires
        forall|i: int|
            0 <= i < events.len() ==> #[trigger] events[i] == Progress::Waited(Ok(false)),
    ensures
        Completion::Wait.run(events) == Completion::Wait,
    decreases events.len(),
{
    if events.len() > 0 {
        let n = events.len() - 1;
        let before = events.drop_last();
        assert forall|i: int| 0 <= i < before.len() implies #[trigger] before[i]
            == Progress::Waited(Ok(false)) by {
            assert(before[i] == events[i]);
        }
        law_waiting_never_times_out(before);
        assert(events[n] == Progress::Waited(Ok(false)));
    }
}

/// An operation that UCX carries out is completed: at once where it was done when it was issued,
/// and otherwise once its request, however often it was found incomplete, is reported complete
/// and freed.
pub proof fn law_carried_out_operation_completes(waits: Seq<Progress>)
    requires
        forall|i: int| 0 <= i < waits.len() ==> #[trigger] waits[i] == Progress::Waited(Ok(false)),
    ensures
        Completion::Issue.run(seq![Progress::Issued(Ok(false))]) == Completion::Complete,
        Completion::Issue.run(
            (seq![Progress::Issued(Ok(true))] + waits).push(Progress::Waited(Ok(true))).push(
                Progress::Released,
            ),
        ) == Completion::Complete,
    decreases waits.len(),
{
    reveal_with_fuel(Completion::run, 3);
    let at_once = seq![Progress::Issued(Ok(false))];
    assert(at_once.drop_last() =~= seq![]);
    let issued = seq![Progress::Issued(Ok(true))];
    lemma_issued_waits(waits);
    let waited = (issued + waits).push(Progress::Waited(Ok(true)));
    assert(waited.drop_last() =~= issued + waits);
    let released = waited.push(Progress::Released);
    assert(released.drop_last() =~= waited);
}

proof fn lemma_issued_waits(waits: Seq<Progress>)
    requires
        forall|i: int| 0 <= i < waits.len() ==> #[trigger] waits[i] == Progress::Waited(Ok(false)),
    ensures
        Completion::Issue.run(seq![Progress::Issued(Ok(true))] + waits) == Completion::Wait,
    decreases waits.len(),
{
    let all = seq![Progress::Issued(Ok(true))] + waits;
    if waits.len() == 0 {
        assert(all.drop_last() =~= seq![]);
        assert(Completion::Issue.run(seq![]) == Completion::Issue);
        assert(all.last() == Progress::Issued(Ok(true)));
    } else {
        let before = waits.drop_last();
        assert forall|i: int| 0 <= i < before.len() implies #[trigger] before[i]
            == Progress::Waited(Ok(false)) by {
            assert(before[i] == waits[i]);
        }
        lemma_issued_waits(before);
        assert(all.drop_last() =~= seq![Progress::Issued(Ok(true))] + before);
        assert(all.last() == waits[waits.len() - 1]);
    }
}

/// An operation fails exactly where UCX failed the call that was asked for, and with the status
/// of that call.
pub proof fn law_operation_fails_with_the_status_of_its_call(
    operation: Completion,
    event: Progress,
)
    requires
        !(operation is Failed),
    ensures
        operation.next(event) is Failed <==> (operation is Issue && (event matches Progress::Issued(
            outcome,
        ) && outcome is Err)) || (operation is Wait && (event matches Progress::Waited(outcome)
            && outcome is Err)),
        operation.next(event) matches Completion::Failed(error) ==> {
            let status = match event {
                Progress::Issued(outcome) => outcome->Err_0,
                Progress::Waited(outcome) => outcome->Err_0,
                Progress::Released => UcsStatus { code: 0 },
            };
            if status.code == 0 {
                error is Internal
            } else {
                error == Error::Ucx(status)
            }
        },
{
}

/// An event that does not answer the call that an operation asks for changes nothing.
pub proof fn law_stray_event_changes_no_operation(operation: Completion, event: Progress)
    requires
        !(operation is Issue && event is Issued),
        !(operation is Wait && event is Waited),
        !(operation is Release && event is Released),
    ensures
        operation.next(event) == operation,
{
}

/// An operation that has ended stays as it ended.
pub proof fn law_ended_operation_stays(operation: Completion, event: Progress)
    requires
        operation is Complete || operation is Failed,
    ensures
        operation.next(event) == operation,
{
}

/// Where a range of `len` bytes at `offset` in the heap of PE `pe` lies: the PE and the remote
/// address of the first byte.
pub open spec fn located(
    peers: Map<u32, PeerConnection>,
    pe: int,
    offset: int,
    len: int,
) -> Result<(u32, u64)> {
    if pe > u32::MAX {
        Err(Error::Usage("PE number is out of range"))
    } else if !peers.contains_key(pe as u32) {
        Err(Error::Usage("PE number is not in the job"))
    } else if peers[pe as u32].heap_base + offset > u64::MAX {
        Err(Error::Usage("RMA address overflow"))
    } else if offset + len > u64::MAX {
        Err(Error::Usage("RMA range overflow"))
    } else {
        Ok((pe as u32, (peers[pe as u32].heap_base + offset) as u64))
    }
}

/// Locate a range in the heap of a PE.
pub fn peer_and_address(
    state: &ShmemState,
    pe: usize,
    offset: usize,
    len: usize,
) -> (located: Result<(u32, u64)>)
    ensures
        located == self::located(state@.peers, pe as int, offset as int, len as int),
        located matches Ok((to, address)) ==> to == pe && address == state@.peers[to].heap_base
            + offset,
{
    let pe = match find_peer(state, pe) {
        Ok(pe) => pe,
        Err(error) => return Err(error),
    };
    let heap_base = match state.peer(pe) {
        Some(peer) => peer.heap_base,
        None => return Err(Error::Usage("PE number is not in the job")),
    };
    let offset = offset as u64;
    let address = match heap_base.checked_add(offset) {
        Some(address) => address,
        None => return Err(Error::Usage("RMA address overflow")),
    };
    match offset.checked_add(len as u64) {
        Some(_) => Ok((pe, address)),
        None => Err(Error::Usage("RMA range overflow")),
    }
}

/// The number of a PE that is in the job.
pub open spec fn member(peers: Map<u32, PeerConnection>, pe: int) -> Result<u32> {
    if pe > u32::MAX {
        Err(Error::Usage("PE number is out of range"))
    } else if !peers.contains_key(pe as u32) {
        Err(Error::Usage("PE number is not in the job"))
    } else {
        Ok(pe as u32)
    }
}

fn find_peer(state: &ShmemState, pe: usize) -> (found: Result<u32>)
    ensures
        found == member(state@.peers, pe as int),
{
    if pe > u32::MAX as usize {
        return Err(Error::Usage("PE number is out of range"));
    }
    let pe = pe as u32;
    match state.peer(pe) {
        Some(_) => Ok(pe),
        None => Err(Error::Usage("PE number is not in the job")),
    }
}

/// A located range is the one asked for: it names the PE that was passed in, and begins as far
/// into the heap of that PE as the offset says. Every range of a PE of the job is located, unless
/// its address or its end does not fit in 64 bits.
pub proof fn law_located_range_is_the_one_asked_for(
    peers: Map<u32, PeerConnection>,
    pe: int,
    offset: int,
    len: int,
)
    requires
        0 <= pe,
        0 <= offset,
        0 <= len,
    ensures
        located(peers, pe, offset, len) matches Ok((to, address)) ==> {
            &&& to == pe
            &&& peers.contains_key(to)
            &&& address - peers[to].heap_base == offset
            &&& offset + len <= u64::MAX
        },
        forall|member: u32|
            member == pe && #[trigger] peers.contains_key(member) && peers[member].heap_base + offset
                <= u64::MAX && offset + len <= u64::MAX ==> located(peers, pe, offset, len) is Ok,
        pe > u32::MAX ==> located(peers, pe, offset, len) == Err::<(u32, u64), Error>(
            Error::Usage("PE number is out of range"),
        ),
        forall|stranger: u32|
            stranger == pe && !#[trigger] peers.contains_key(stranger) ==> located(
                peers,
                pe,
                offset,
                len,
            ) == Err::<(u32, u64), Error>(Error::Usage("PE number is not in the job")),
        forall|member: u32|
            member == pe && #[trigger] peers.contains_key(member) && peers[member].heap_base + offset
                > u64::MAX ==> located(peers, pe, offset, len) == Err::<(u32, u64), Error>(
                Error::Usage("RMA address overflow"),
            ),
        forall|member: u32|
            member == pe && #[trigger] peers.contains_key(member) && peers[member].heap_base + offset
                <= u64::MAX && offset + len > u64::MAX ==> located(peers, pe, offset, len) == Err::<
                (u32, u64),
                Error,
            >(Error::Usage("RMA range overflow")),
{
}

/// The number of a PE is found as it is, exactly where the PE is in the job.
pub proof fn law_member_is_the_pe_asked_for(peers: Map<u32, PeerConnection>, pe: int)
    requires
        0 <= pe,
    ensures
        member(peers, pe) matches Ok(found) ==> found == pe && peers.contains_key(found),
        forall|peer: u32|
            peer == pe && #[trigger] peers.contains_key(peer) ==> member(peers, pe) is Ok,
        pe > u32::MAX ==> member(peers, pe) == Err::<u32, Error>(
            Error::Usage("PE number is out of range"),
        ),
        forall|stranger: u32|
            stranger == pe && !#[trigger] peers.contains_key(stranger) ==> member(peers, pe) == Err::<
                u32,
                Error,
            >(Error::Usage("PE number is not in the job")),
{
}

/// The address of a range is the translation of its symmetric pointer: what lies at some offset
/// here is found at the same offset there.
pub proof fn law_address_is_translation(
    peers: Map<u32, PeerConnection>,
    pe: int,
    addr: u64,
    local_base: u64,
    len: int,
)
    requires
        0 <= pe,
        0 <= len,
        located(peers, pe, SymPtr::offset_of(addr as int, local_base as int), len) is Ok,
    ensures
        located(peers, pe, SymPtr::offset_of(addr as int, local_base as int), len)->Ok_0.1
            == SymPtr::remote_of(
            addr as int,
            local_base as int,
            peers[pe as u32].heap_base as int,
        ),
{
}

/// After an exchange that covers a job, exactly the PEs of the job can be addressed.
pub proof fn law_exactly_the_job_is_addressable(
    rkeys: Map<u32, PeerRkey>,
    peers: Map<u32, PeerConnection>,
    size: int,
    pe: int,
)
    requires
        bootstrap::complete_below(rkeys, peers, size),
        0 <= size <= u32::MAX,
        0 <= pe,
    ensures
        member(peers, pe) is Ok <==> pe < size,
        member(peers, pe) matches Ok(found) ==> found == pe,
{
    if pe <= u32::MAX {
        assert(peers.contains_key(pe as u32) <==> (pe as u32) < size);
    }
}

/// A live allocation has the same place in every heap of the job: its bytes lie inside the heap
/// of each peer whose heap is as large as the local one, and are located there.
pub proof fn law_allocations_are_inside_every_heap(
    heap: HeapModel,
    ptr: SymPtr,
    peers: Map<u32, PeerConnection>,
    pe: u32,
)
    requires
        heap.wf(),
        heap.live.contains_key(ptr.addr()),
        peers.contains_key(pe),
        peers[pe].heap_base + heap.capacity <= u64::MAX,
    ensures
        ({
            let offset = SymPtr::offset_of(ptr.addr() as int, heap.base);
            let len = heap.live[ptr.addr()] as int;
            &&& 0 <= offset
            &&& offset + len <= heap.capacity
            &&& located(peers, pe as int, offset, len) matches Ok((to, address)) && to == pe
                && address == peers[pe].heap_base + offset
        }),
{
    assert(heap.live_span(ptr.addr()).inside(heap.capacity));
    SymPtr::law_no_wrap_inside_a_heap(ptr.addr() as int, heap.base, peers[pe].heap_base as int);
}

/// Different live allocations share no byte in the heap of any peer.
pub proof fn law_allocations_are_apart_in_every_heap(
    heap: HeapModel,
    a: SymPtr,
    b: SymPtr,
    peers: Map<u32, PeerConnection>,
    pe: u32,
)
    requires
        heap.wf(),
        heap.live.contains_key(a.addr()),
        heap.live.contains_key(b.addr()),
        a.addr() != b.addr(),
        peers.contains_key(pe),
        peers[pe].heap_base + heap.capacity <= u64::MAX,
    ensures
        ({
            let to = |ptr: SymPtr|
                SymPtr::remote_of(ptr.addr() as int, heap.base, peers[pe].heap_base as int);
            to(a) + heap.live[a.addr()] <= to(b) || to(b) + heap.live[b.addr()] <= to(a)
        }),
{
    assert(heap.live_span(a.addr()).inside(heap.capacity));
    assert(heap.live_span(b.addr()).inside(heap.capacity));
    assert(heap.live_span(a.addr()).apart(heap.live_span(b.addr())));
    SymPtr::law_no_wrap_inside_a_heap(a.addr() as int, heap.base, peers[pe].heap_base as int);
    SymPtr::law_no_wrap_inside_a_heap(b.addr() as int, heap.base, peers[pe].heap_base as int);
}

/// A blocking transfer: between which bytes of which PE, and how far it has come.
#[derive(Debug, Clone, Copy, PartialEq, Eq)]
pub struct Transfer {
    pub pe: u32,
    /// The remote address of the first byte.
    pub address: u64,
    /// The number of bytes.
    pub len: usize,
    pub completion: Completion,
}

/// The transfer of `len` bytes at `offset` in the heap of PE `pe`. One without bytes is complete
/// at once.
pub open spec fn transfer(lifecycle: LifecycleModel, pe: int, offset: int, len: usize) -> Result<
    Transfer,
> {
    match lifecycle.state {
        None => Err(Error::NotInitialized),
        Some(state) => match located(state.peers, pe, offset, len as int) {
            Err(error) => Err(error),
            Ok((pe, address)) => Ok(
                Transfer {
                    pe,
                    address,
                    len,
                    completion: if len == 0 {
                        Completion::Complete
                    } else {
                        Completion::Issue
                    },
                },
            ),
        },
    }
}

/// A transfer is begun exactly where the process is initialized and the range can be located. It
/// is for the PE, the place and the number of bytes asked for, and it is complete at its beginning
/// only where it has no bytes: otherwise the operation is still to be issued.
pub proof fn law_begun_transfer_is_the_one_asked_for(
    lifecycle: LifecycleModel,
    pe: int,
    offset: int,
    len: usize,
)
    requires
        0 <= pe,
        0 <= offset,
    ensures
        lifecycle.state is None ==> transfer(lifecycle, pe, offset, len) == Err::<Transfer, Error>(
            Error::NotInitialized,
        ),
        transfer(lifecycle, pe, offset, len) matches Ok(begun) ==> {
            &&& lifecycle.state matches Some(state) && state.peers.contains_key(begun.pe)
                && begun.address - state.peers[begun.pe].heap_base == offset
            &&& begun.pe == pe
            &&& begun.len == len
            &&& begun.completion == if len == 0 {
                Completion::Complete
            } else {
                Completion::Issue
            }
        },
        lifecycle.state matches Some(state) ==> (transfer(lifecycle, pe, offset, len) is Ok
            <==> located(state.peers, pe, offset, len as int) is Ok),
        lifecycle.state matches Some(state) ==> (located(state.peers, pe, offset, len as int)
            matches Err(error) ==> transfer(lifecycle, pe, offset, len) == Err::<Transfer, Error>(
            error,
        )),
{
}

/// Bytes move before a transfer is complete: one that has bytes becomes complete only by events in
/// which its operation was issued and UCX reported it done.
pub proof fn law_transfer_completes_only_by_its_operation(
    lifecycle: LifecycleModel,
    pe: int,
    offset: int,
    len: usize,
    begun: Transfer,
    events: Seq<Progress>,
)
    requires
        transfer(lifecycle, pe, offset, len) == Ok::<Transfer, Error>(begun),
        len > 0,
        begun.completion.run(events) == Completion::Complete,
    ensures
        events.contains(Progress::Issued(Ok(false))) || (events.contains(Progress::Issued(Ok(true)))
            && events.contains(Progress::Waited(Ok(true))) && events.contains(Progress::Released)),
{
    law_complete_only_when_reported(events);
}

fn begin_transfer(
    lifecycle: &Lifecycle,
    pe: usize,
    offset: usize,
    len: usize,
) -> (begun: Result<Transfer>)
    ensures
        begun == transfer(lifecycle@, pe as int, offset as int, len),
        begun matches Ok(transfer) ==> transfer.pe == pe && transfer.len == len && (
        transfer.completion == Completion::Complete <==> len == 0),
{
    let state = match init::with_state(lifecycle) {
        Ok(state) => state,
        Err(error) => return Err(error),
    };
    match peer_and_address(state, pe, offset, len) {
        Err(error) => Err(error),
        Ok((pe, address)) => Ok(
            Transfer {
                pe,
                address,
                len,
                completion: if len == 0 {
                    Completion::Complete
                } else {
                    Completion::Issue
                },
            },
        ),
    }
}

/// Begin to put raw bytes in the destination PE's symmetric heap.
///
/// UCX may return an asynchronous request. The transfer is complete only once that request is,
/// because the source is borrowed.
pub fn putmem(
    lifecycle: &Lifecycle,
    dst_pe: usize,
    bytes: &[u8],
    dst_offset: usize,
) -> (begun: Result<Transfer>)
    ensures
        begun == transfer(lifecycle@, dst_pe as int, dst_offset as int, bytes.len()),
        begun matches Ok(transfer) ==> transfer.pe == dst_pe && transfer.len == bytes@.len() && (
        transfer.completion == Completion::Complete <==> bytes@.len() == 0),
{
    begin_transfer(lifecycle, dst_pe, dst_offset, bytes.len())
}

/// Begin to get raw bytes. They may be read only after the transfer is complete.
pub fn getmem(
    lifecycle: &Lifecycle,
    src_pe: usize,
    src_offset: usize,
    len: usize,
) -> (begun: Result<Transfer>)
    ensures
        begun == transfer(lifecycle@, src_pe as int, src_offset as int, len),
        begun matches Ok(transfer) ==> transfer.pe == src_pe && transfer.len == len && (
        transfer.completion == Completion::Complete <==> len == 0),
{
    begin_transfer(lifecycle, src_pe, src_offset, len)
}

/// A put of typed values: their bytes and the transfer that carries them.
#[derive(Debug)]
pub struct Put {
    pub bytes: Vec<u8>,
    pub transfer: Transfer,
}

/// Begin to put typed POD values in native-endian representation.
pub fn put<T: Pod>(
    lifecycle: &Lifecycle,
    dst_pe: usize,
    src: &[T],
    dst_offset: usize,
) -> (begun: Result<Put>)
    ensures
        src@.len() * T::size() > usize::MAX ==> begun == Err::<Put, Error>(
            Error::Usage("typed RMA length overflow"),
        ),
        src@.len() * T::size() <= usize::MAX ==> match transfer(
            lifecycle@,
            dst_pe as int,
            dst_offset as int,
            (src@.len() * T::size()) as usize,
        ) {
            Err(error) => begun == Err::<Put, Error>(error),
            Ok(transfer) => begun matches Ok(put) && put.transfer == transfer && put.bytes@
                == pod::encoded(lifecycle@.order, src@),
        },
{
    proof {
        T::lemma_size();
    }
    match src.len().checked_mul(T::SIZE) {
        None => return Err(Error::Usage("typed RMA length overflow")),
        Some(_) => {},
    }
    proof {
        pod::law_encoded_len(lifecycle@.order, src@);
    }
    let bytes = pod::encode_values(lifecycle.order(), src);
    match putmem(lifecycle, dst_pe, bytes.as_slice(), dst_offset) {
        Ok(transfer) => Ok(Put { bytes, transfer }),
        Err(error) => Err(error),
    }
}

/// Begin to get typed POD values: `len_elems` of them.
pub fn get<T: Pod>(
    lifecycle: &Lifecycle,
    src_pe: usize,
    src_offset: usize,
    len_elems: usize,
) -> (begun: Result<Transfer>)
    ensures
        begun == if len_elems * T::size() > usize::MAX {
            Err::<Transfer, Error>(Error::Usage("typed RMA length overflow"))
        } else {
            transfer(
                lifecycle@,
                src_pe as int,
                src_offset as int,
                (len_elems * T::size()) as usize,
            )
        },
{
    proof {
        T::lemma_size();
    }
    match len_elems.checked_mul(T::SIZE) {
        None => Err(Error::Usage("typed RMA length overflow")),
        Some(len) => getmem(lifecycle, src_pe, src_offset, len),
    }
}

/// End a get: once it is complete, decode the bytes that it read.
pub fn received<T: Pod>(lifecycle: &Lifecycle, got: &Transfer, bytes: &[u8]) -> (outcome: Option<
    Result<Vec<T>>,
>)
    ensures
        match got.completion {
            Completion::Complete => outcome matches Some(Ok(values)) && values@ == pod::decoded::<T>(
                lifecycle@.order,
                bytes@,
            ),
            Completion::Failed(error) => outcome == Some(Err::<Vec<T>, Error>(error)),
            _ => outcome is None,
        },
{
    match got.completion {
        Completion::Complete => Some(Ok(pod::decode_values(lifecycle.order(), bytes))),
        Completion::Failed(error) => Some(Err(error)),
        _ => None,
    }
}

/// The bytes of a PE's memory, by address, after some were stored.
pub open spec fn stored(memory: spec_fn(int) -> u8, address: int, bytes: Seq<u8>) -> spec_fn(
    int,
) -> u8 {
    |at: int|
        if address <= at < address + bytes.len() {
            bytes[at - address]
        } else {
            memory(at)
        }
}

/// The bytes of a PE's memory that lie at an address.
pub open spec fn loaded(memory: spec_fn(int) -> u8, address: int, len: nat) -> Seq<u8> {
    Seq::new(len, |i: int| memory(address + i))
}

/// A get reads what a put wrote: a put of values and a get of as many from the same place name
/// the same bytes of the same PE, as many as the values take. Once the memory of that PE holds
/// what the put stores, the get reads the values back.
pub proof fn law_get_reads_what_put_wrote<T: Pod>(
    lifecycle: LifecycleModel,
    pe: int,
    offset: int,
    src: Seq<T>,
    put: Put,
    got: Transfer,
    memory: spec_fn(int) -> u8,
)
    requires
        src.len() * T::size() <= usize::MAX,
        transfer(lifecycle, pe, offset, (src.len() * T::size()) as usize) == Ok::<Transfer, Error>(
            put.transfer,
        ),
        put.bytes@ == pod::encoded(lifecycle.order, src),
        transfer(lifecycle, pe, offset, (src.len() * T::size()) as usize) == Ok::<Transfer, Error>(
            got,
        ),
    ensures
        got == put.transfer,
        put.bytes@.len() == got.len,
        pod::decoded::<T>(
            lifecycle.order,
            loaded(
                stored(memory, put.transfer.address as int, put.bytes@),
                got.address as int,
                got.len as nat,
            ),
        ) == src,
{
    pod::law_encoded_len(lifecycle.order, src);
    pod::law_decode_undoes_encode(lifecycle.order, src);
    assert(loaded(
        stored(memory, put.transfer.address as int, put.bytes@),
        got.address as int,
        got.len as nat,
    ) =~= put.bytes@);
}

/// A put leaves alone what it does not name: a get of a range apart from the one that a put
/// stores reads what it read before.
pub proof fn law_put_leaves_other_ranges(
    memory: spec_fn(int) -> u8,
    address: int,
    bytes: Seq<u8>,
    other: int,
    len: nat,
)
    requires
        address + bytes.len() <= other || other + len <= address,
    ensures
        loaded(stored(memory, address, bytes), other, len) == loaded(memory, other, len),
{
    assert(loaded(stored(memory, address, bytes), other, len) =~= loaded(memory, other, len));
}

/// Whether RMA operations can be ordered: the process is initialized. If so, the worker is to
/// fence, and [`fenced`] says what to return.
///
/// The fence orders RMA operations issued before this call before RMA operations issued
/// afterward. It is worker-scoped, and so stronger than per-PE ordering. It is not a completion
/// operation: use [`quiet`] when remote data must be complete before proceeding.
pub fn fence(lifecycle: &Lifecycle) -> (allowed: Result<()>)
    ensures
        allowed == match lifecycle@.state {
            Some(_) => Ok::<(), Error>(()),
            None => Err(Error::NotInitialized),
        },
{
    match init::with_state(lifecycle) {
        Ok(_) => Ok(()),
        Err(error) => Err(error),
    }
}

/// Judge what came of a worker fence.
pub fn fenced(outcome: std::result::Result<(), UcsStatus>) -> (result: Result<()>)
    ensures
        result == match outcome {
            Ok(_) => Ok::<(), Error>(()),
            Err(status) => Err(error::ucx_failure(status)),
        },
{
    match outcome {
        Ok(_) => Ok(()),
        Err(status) => Err(Error::from(status)),
    }
}

/// The flushes of a run of endpoints: the PEs, how many are flushed, and how far the flush of the
/// next one has come.
#[verifier::ext_equal]
pub struct QuietModel {
    pub pes: Seq<u32>,
    pub flushed: int,
    pub completion: Completion,
}

impl QuietModel {
    /// The flushes at a PE, or at the end.
    pub open spec fn at(pes: Seq<u32>, flushed: int) -> QuietModel {
        QuietModel {
            pes,
            flushed,
            completion: if flushed < pes.len() {
                Completion::Issue
            } else {
                Completion::Complete
            },
        }
    }

    /// Some PE is being flushed, or all are flushed and the whole is complete.
    pub open spec fn wf(self) -> bool {
        &&& 0 <= self.flushed <= self.pes.len()
        &&& self.completion == Completion::Complete <==> self.flushed == self.pes.len()
    }

    /// What follows when the call that is asked for returned `event`: once the flush of a PE is
    /// complete, the next one is flushed. The first failure ends the whole.
    pub open spec fn next(self, event: Progress) -> QuietModel {
        let after = self.completion.next(event);
        if self.flushed < self.pes.len() && after == Completion::Complete {
            QuietModel::at(self.pes, self.flushed + 1)
        } else {
            QuietModel { completion: after, ..self }
        }
    }

    /// What follows a sequence of events.
    pub open spec fn run(self, events: Seq<Progress>) -> QuietModel
        decreases events.len(),
    {
        if events.len() == 0 {
            self
        } else {
            self.run(events.drop_last()).next(events.last())
        }
    }
}

/// Whether the events between two neighbouring cuts complete an operation.
pub open spec fn stretch_completes(events: Seq<Progress>, cuts: Seq<int>, k: int) -> bool {
    &&& 0 <= cuts[k] <= cuts[k + 1] <= events.len()
    &&& Completion::Issue.run(events.subrange(cuts[k], cuts[k + 1])) == Completion::Complete
}

/// Whether `cuts` divides a beginning of `events` into stretches, each of which completes an
/// operation.
pub open spec fn completed_stretches(events: Seq<Progress>, cuts: Seq<int>) -> bool {
    &&& cuts.len() > 0
    &&& cuts[0] == 0
    &&& forall|k: int| 0 <= k < cuts.len() - 1 ==> #[trigger] stretch_completes(events, cuts, k)
}

proof fn lemma_quiet_stretches(pes: Seq<u32>, events: Seq<Progress>) -> (cuts: Seq<int>)
    ensures
        completed_stretches(events, cuts),
        0 <= cuts.last() <= events.len(),
        ({
            let quiet = QuietModel::at(pes, 0).run(events);
            &&& quiet.wf()
            &&& quiet.pes == pes
            &&& cuts.len() == quiet.flushed + 1
            &&& quiet.flushed < pes.len() ==> quiet.completion == Completion::Issue.run(
                events.skip(cuts.last()),
            )
        }),
    decreases events.len(),
{
    if events.len() == 0 {
        assert(events.skip(0) =~= Seq::empty());
        seq![0int]
    } else {
        let before = events.drop_last();
        let cuts = lemma_quiet_stretches(pes, before);
        let quiet = QuietModel::at(pes, 0).run(before);
        assert forall|k: int| 0 <= k < cuts.len() - 1 implies #[trigger] stretch_completes(
            events,
            cuts,
            k,
        ) by {
            assert(stretch_completes(before, cuts, k));
            assert(events.subrange(cuts[k], cuts[k + 1]) =~= before.subrange(cuts[k], cuts[k + 1]));
        }
        let stretch = events.skip(cuts.last());
        assert(stretch.drop_last() =~= before.skip(cuts.last()));
        assert(stretch.last() == events.last());
        if quiet.flushed < pes.len() && quiet.completion.next(events.last())
            == Completion::Complete {
            let longer = cuts.push(events.len() as int);
            assert forall|k: int| 0 <= k < longer.len() - 1 implies #[trigger] stretch_completes(
                events,
                longer,
                k,
            ) by {
                if k < cuts.len() - 1 {
                    assert(stretch_completes(events, cuts, k));
                } else {
                    assert(events.subrange(longer[k], longer[k + 1]) =~= stretch);
                }
            }
            assert(events.skip(events.len() as int) =~= Seq::empty());
            longer
        } else {
            cuts
        }
    }
}

/// Quiet is completion: it is complete only after each of its PEs, one after the other, had an
/// operation of its own issued and reported complete.
pub proof fn law_quiet_completes_every_pe(pes: Seq<u32>, events: Seq<Progress>)
    requires
        QuietModel::at(pes, 0).run(events).completion == Completion::Complete,
    ensures
        exists|cuts: Seq<int>| #[trigger]
            completed_stretches(events, cuts) && cuts.len() == pes.len() + 1,
{
    let cuts = lemma_quiet_stretches(pes, events);
}

/// Where UCX carries out every flush, quiet flushes the PEs in the order they stand in, none
/// twice, and is complete after the last.
pub proof fn law_quiet_flushes_in_order(pes: Seq<u32>, events: Seq<Progress>)
    requires
        events.len() <= pes.len(),
        forall|i: int| 0 <= i < events.len() ==> #[trigger] events[i] == Progress::Issued(Ok(false)),
    ensures
        ({
            let quiet = QuietModel::at(pes, 0).run(events);
            &&& quiet.pes == pes
            &&& quiet.flushed == events.len()
            &&& quiet.completion == Completion::Complete <==> events.len() == pes.len()
            &&& events.len() < pes.len() ==> quiet.completion == Completion::Issue
        }),
    decreases events.len(),
{
    if events.len() > 0 {
        let before = events.drop_last();
        assert forall|i: int| 0 <= i < before.len() implies #[trigger] before[i]
            == Progress::Issued(Ok(false)) by {
            assert(before[i] == events[i]);
        }
        law_quiet_flushes_in_order(pes, before);
        assert(events.last() == events[events.len() - 1]);
    }
}

/// Quiet ends at the first failed flush, with the status of its call, and flushes no later PE.
pub proof fn law_quiet_ends_at_the_first_failure(quiet: QuietModel, event: Progress)
    requires
        quiet.wf(),
        !(quiet.completion is Failed),
    ensures
        quiet.next(event).completion is Failed <==> (quiet.completion is Issue && (event
            matches Progress::Issued(outcome) && outcome is Err)) || (quiet.completion is Wait && (
        event matches Progress::Waited(outcome) && outcome is Err)),
        quiet.next(event).completion is Failed ==> quiet.next(event).flushed == quiet.flushed,
        quiet.next(event).completion matches Completion::Failed(error) ==> {
            let status = match event {
                Progress::Issued(outcome) => outcome->Err_0,
                Progress::Waited(outcome) => outcome->Err_0,
                Progress::Released => UcsStatus { code: 0 },
            };
            if status.code == 0 {
                error is Internal
            } else {
                error == Error::Ucx(status)
            }
        },
        forall|later: Progress| #[trigger]
            quiet.next(event).next(later) == quiet.next(event) || !(quiet.next(
                event,
            ).completion is Failed),
{
}

/// The completion of outstanding RMA operations, one endpoint after the other.
#[derive(Debug)]
pub struct Quiet {
    pes: Vec<u32>,
    flushed: usize,
    completion: Completion,
}

impl View for Quiet {
    type V = QuietModel;

    closed spec fn view(&self) -> QuietModel {
        QuietModel {
            pes: self.pes@,
            flushed: self.flushed as int,
            completion: self.completion,
        }
    }
}

impl Quiet {
    fn of(pes: Vec<u32>) -> (quiet: Quiet)
        ensures
            quiet@ == QuietModel::at(pes@, 0),
            quiet@.wf(),
    {
        let completion = if pes.len() > 0 {
            Completion::Issue
        } else {
            Completion::Complete
        };
        Quiet { pes, flushed: 0, completion }
    }

    /// Return the PE whose endpoint is being flushed.
    pub fn pe(&self) -> (pe: Option<u32>)
        requires
            self@.wf(),
        ensures
            pe == if self@.flushed < self@.pes.len() {
                Some(self@.pes[self@.flushed])
            } else {
                None
            },
    {
        if self.flushed < self.pes.len() {
            Some(self.pes[self.flushed])
        } else {
            None
        }
    }

    /// Return what to do next with the flush of that endpoint, or how the whole ended.
    pub fn completion(&self) -> (completion: Completion)
        ensures
            completion == self@.completion,
    {
        self.completion
    }

    /// Take note of what a call returned.
    pub fn advance(&mut self, event: Progress)
        requires
            old(self)@.wf(),
        ensures
            final(self)@.wf(),
            final(self)@ == old(self)@.next(event),
    {
        let after = self.completion.advance(event);
        let flushed = match after {
            Completion::Complete => self.flushed < self.pes.len(),
            _ => false,
        };
        if flushed {
            self.flushed = self.flushed + 1;
            self.completion = if self.flushed < self.pes.len() {
                Completion::Issue
            } else {
                Completion::Complete
            };
        } else {
            self.completion = after;
        }
    }
}

/// Begin to complete all outstanding RMA operations on every connected PE.
///
/// This is completion, not merely ordering: each endpoint flush waits until
/// prior RMA has completed remotely. In contrast, [`fence`] only orders RMA
/// before and after the call. Use quiet before observing remote results or
/// reusing data that was the source of a put. This loops over endpoints so
/// PE-specific completion remains explicit.
pub fn quiet(lifecycle: &Lifecycle) -> (begun: Result<Quiet>)
    ensures
        match lifecycle@.state {
            Some(state) => begun matches Ok(quiet) && quiet@.wf() && init::ascending(
                quiet@.pes,
                state.peers,
            ) && quiet@ == QuietModel::at(quiet@.pes, 0),
            None => begun == Err::<Quiet, Error>(Error::NotInitialized),
        },
{
    match init::with_state(lifecycle) {
        Ok(state) => Ok(Quiet::of(state.pes())),
        Err(error) => Err(error),
    }
}

/// Begin to complete outstanding RMA operations for one PE.
pub fn quiet_pe(lifecycle: &Lifecycle, pe: usize) -> (begun: Result<Quiet>)
    ensures
        match lifecycle@.state {
            Some(state) => match member(state.peers, pe as int) {
                Ok(pe) => begun matches Ok(quiet) && quiet@.wf() && quiet@ == QuietModel::at(
                    seq![pe],
                    0,
                ),
                Err(error) => begun == Err::<Quiet, Error>(error),
            },
            None => begun == Err::<Quiet, Error>(Error::NotInitialized),
        },
{
    let state = match init::with_state(lifecycle) {
        Ok(state) => state,
        Err(error) => return Err(error),
    };
    match find_peer(state, pe) {
        Ok(pe) => {
            let quiet = Quiet::of(vec![pe]);
            assert(quiet@.pes =~= seq![pe]);
            Ok(quiet)
        },
        Err(error) => Err(error),
    }
}

/// Alias for [`quiet`], completing RMA operations for all PEs.
pub fn quiet_all(lifecycle: &Lifecycle) -> (begun: Result<Quiet>)
    ensures
        match lifecycle@.state {
            Some(state) => begun matches Ok(quiet) && quiet@.wf() && init::ascending(
                quiet@.pes,
                state.peers,
            ) && quiet@ == QuietModel::at(quiet@.pes, 0),
            None => begun == Err::<Quiet, Error>(Error::NotInitialized),
        },
{
    quiet(lifecycle)
}

} // verus!
