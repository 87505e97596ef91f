use openshmem::bootstrap::{Bootstrap, PeerConnection};
use openshmem::error::{Error, PmixError, UccStatus, UcsStatus};
use openshmem::init::{
    complete, disconnected, finalize, free, heap_base, init, malloc, my_pe, n_pes, with_state,
    Lifecycle, Startup, StartupEvent,
};
use openshmem::coll::{barrier, Runtime, RuntimeEvent, UccCodes};
use openshmem::rma::{SetupEvent, TransportSetup, UcxTransport};
use openshmem::symheap::{PeerRkeys, SymHeap};

fn ready_worker() -> UcxTransport {
    let setup = UcxTransport::new(1)
        .advance(SetupEvent::Config(Ok(())))
        .advance(SetupEvent::Context(Ok(())))
        .advance(SetupEvent::Worker(Ok(())))
        .advance(SetupEvent::Address(Ok(vec![5])))
        .advance(SetupEvent::Shared(Ok(())));
    match setup {
        TransportSetup::Ready(transport) => transport,
        other => panic!("{:?}", other),
    }
}

fn small_heap() -> SymHeap {
    SymHeap::with_size(64, 0x4000, Ok(vec![4, 0, 0, 0])).unwrap()
}

fn two_peers() -> Bootstrap {
    let mut peer_rkeys = PeerRkeys::default();
    let mut peers = std::collections::BTreeMap::new();
    for pe in [1, 0] {
        peer_rkeys.insert(pe, 0x4000, vec![4, 0, 0, 0]);
        peers.insert(pe, PeerConnection { heap_base: 0x4000 });
    }
    Bootstrap { peer_rkeys, peers }
}

const CODES: UccCodes = UccCodes { ok: 0, in_progress: 1, no_message: -6 };

fn with_heap() -> Startup {
    with_heap_and(None)
}

fn with_heap_and(ucc: Option<UccCodes>) -> Startup {
    init(&Lifecycle::new(), ucc)
        .unwrap()
        .advance(StartupEvent::Connected(Ok(1)))
        .advance(StartupEvent::Transport(Ok(ready_worker())))
        .advance(StartupEvent::Heap(Ok(small_heap())))
}

fn started() -> Lifecycle {
    let mut lifecycle = Lifecycle::new();
    let startup = with_heap()
        .advance(StartupEvent::Size { published: Some(2), setting: None })
        .advance(StartupEvent::Handshaken(Ok(two_peers())));
    assert_eq!(complete(&mut lifecycle, startup), Some(Ok(())));
    lifecycle
}

fn error_of(startup: Startup) -> Error {
    assert!(matches!(startup, Startup::Disconnect(_)));
    match startup.advance(StartupEvent::Disconnected) {
        Startup::Failed(error) => error,
        other => panic!("{:?}", other),
    }
}

#[test]
fn queries_fail_before_initialization() {
    let lifecycle = Lifecycle::new();
    assert!(matches!(my_pe(&lifecycle), Err(Error::NotInitialized)));
    assert!(matches!(n_pes(&lifecycle), Err(Error::NotInitialized)));
}

#[test]
fn finalize_is_idempotent_without_a_pmix_server() {
    let mut lifecycle = Lifecycle::new();
    assert!(finalize(&mut lifecycle).is_none(), "finalize before init is a no-op");
    assert!(finalize(&mut lifecycle).is_none(), "repeated finalize is a no-op");
}

#[test]
fn an_initialized_process_knows_its_place() {
    let lifecycle = started();
    assert_eq!(my_pe(&lifecycle), Ok(1));
    assert_eq!(n_pes(&lifecycle), Ok(2));
    assert_eq!(heap_base(&lifecycle), Ok(0x4000));
    assert!(matches!(init(&lifecycle, None), Err(Error::AlreadyInitialized)));
    let state = with_state(&lifecycle).unwrap();
    assert_eq!(state.pes(), [0, 1]);
    assert_eq!(state.peer(1), Some(PeerConnection { heap_base: 0x4000 }));
    assert_eq!(state.peer(2), None);
    assert_eq!(state.peer_rkeys().get(0).unwrap().rkey, [4, 0, 0, 0]);
    assert_eq!(state.transport().packed_address(), [5]);
    assert_eq!(state.collectives(), None);
}

#[test]
fn finalization_clears_the_state_once() {
    let mut lifecycle = started();
    assert!(finalize(&mut lifecycle).is_some());
    assert_eq!(my_pe(&lifecycle), Err(Error::NotInitialized));
    assert!(finalize(&mut lifecycle).is_none());
    assert_eq!(disconnected(Ok(())), Ok(()));
    assert_eq!(disconnected(Err(None)), Err(Error::Pmix(PmixError::Error)));
    assert_eq!(
        disconnected(Err(Some(PmixError::Status(-25)))),
        Err(Error::Pmix(PmixError::Status(-25)))
    );
}

#[test]
fn the_job_size_falls_back_to_the_environment() {
    let sizes = [
        (Some(3), Some("9"), Some(3)),
        (Some(3), None, Some(3)),
        (None, Some("9"), Some(9)),
        (None, Some("nine"), None),
        (None, None, None),
    ];
    for (published, text, expected) in sizes {
        let setting = text.map(String::from);
        match with_heap().advance(StartupEvent::Size { published, setting }) {
            Startup::Handshake { size, rank, .. } => {
                assert_eq!(Some(size), expected);
                assert_eq!(rank, 1);
            }
            startup => {
                assert_eq!(expected, None);
                assert_eq!(
                    error_of(startup),
                    Error::Internal(
                        "PMIx job size unavailable and PMIX_SIZE is not set to a valid value"
                    )
                );
            }
        }
    }
}

#[test]
fn a_failed_initialization_disconnects_the_client() {
    let lifecycle = Lifecycle::new();
    let refused = init(&lifecycle, None)
        .unwrap()
        .advance(StartupEvent::Connected(Err(PmixError::Status(-25))));
    assert!(matches!(refused, Startup::Failed(Error::Pmix(PmixError::Status(-25)))));

    let connected = || init(&lifecycle, None).unwrap().advance(StartupEvent::Connected(Ok(0)));
    let ucx = Error::Ucx(UcsStatus { code: -6 });
    let without_transport = connected().advance(StartupEvent::Transport(Err(ucx)));
    assert_eq!(error_of(without_transport), ucx);

    let small = Error::Usage("symmetric heap is too small");
    let without_heap = connected()
        .advance(StartupEvent::Transport(Ok(ready_worker())))
        .advance(StartupEvent::Heap(Err(small)));
    assert_eq!(error_of(without_heap), small);

    let alone = Error::Internal("peer published incomplete bootstrap metadata");
    let without_peers = with_heap()
        .advance(StartupEvent::Size { published: Some(2), setting: None })
        .advance(StartupEvent::Handshaken(Err(alone)));
    assert_eq!(error_of(without_peers), alone);
}

#[test]
fn an_unfinished_initialization_leaves_no_state() {
    let mut lifecycle = Lifecycle::new();
    assert_eq!(complete(&mut lifecycle, with_heap()), None);
    let failed = Startup::Failed(Error::NotInitialized);
    assert_eq!(complete(&mut lifecycle, failed), Some(Err(Error::NotInitialized)));
    assert_eq!(n_pes(&lifecycle), Err(Error::NotInitialized));
}

#[test]
fn a_transport_for_one_endpoint_is_opened_first() {
    let startup = init(&Lifecycle::new(), None).unwrap();
    assert!(matches!(startup, Startup::Connect { .. }));
    match startup.advance(StartupEvent::Connected(Ok(7))) {
        Startup::OpenTransport { rank, setup: TransportSetup::ReadConfig(request), .. } => {
            assert_eq!(rank, 7);
            assert_eq!(request.estimated_num_eps, 1);
            assert!(request.rma && request.tag && request.exported_memh);
        }
        other => panic!("{:?}", other),
    }
}

#[test]
fn symmetric_memory_needs_an_initialized_process() {
    let mut lifecycle = Lifecycle::new();
    assert_eq!(malloc(&mut lifecycle, 8), Err(Error::NotInitialized));
    assert_eq!(heap_base(&lifecycle), Err(Error::NotInitialized));
    let mut lifecycle = started();
    let buffer = malloc(&mut lifecycle, 8).unwrap();
    assert_eq!(buffer.offset_from(0x4000), 0);
    assert_eq!(malloc(&mut lifecycle, 64), Err(Error::Usage("symmetric heap exhausted")));
    assert_eq!(free(&mut lifecycle, buffer), Ok(()));
    assert_eq!(free(&mut lifecycle, buffer), Err(Error::Usage("invalid symmetric pointer")));
    assert_eq!(malloc(&mut lifecycle, 64), Ok(buffer));
    let mut gone = Lifecycle::new();
    assert_eq!(free(&mut gone, buffer), Err(Error::NotInitialized));
}

fn forming_a_team() -> Startup {
    with_heap_and(Some(CODES))
        .advance(StartupEvent::Size { published: Some(2), setting: None })
        .advance(StartupEvent::Handshaken(Ok(two_peers())))
}

#[test]
fn initialization_sets_up_collectives() {
    let startup = forming_a_team()
        .advance(StartupEvent::Team(RuntimeEvent::Lib(Ok(()))))
        .advance(StartupEvent::Team(RuntimeEvent::Context(Ok(()))));
    assert!(matches!(startup, Startup::FormTeam { .. }));
    let startup = startup.advance(StartupEvent::Team(RuntimeEvent::Team(Ok(()))));
    let mut lifecycle = Lifecycle::new();
    assert_eq!(complete(&mut lifecycle, startup), Some(Ok(())));
    let runtime = Runtime { rank: 1, size: 2, codes: CODES };
    assert_eq!(with_state(&lifecycle).unwrap().collectives(), Some(runtime));
    assert!(barrier(&lifecycle).is_ok());
    assert!(finalize(&mut lifecycle).is_some());
    assert!(matches!(barrier(&lifecycle), Err(Error::NotInitialized)));
}

#[test]
fn a_team_that_cannot_be_formed_fails_initialization() {
    let refused = UccStatus::Unknown(-5);
    let startup = forming_a_team().advance(StartupEvent::Team(RuntimeEvent::Lib(Err(refused))));
    assert_eq!(error_of(startup), Error::Ucc(refused));
    let startup = with_heap_and(Some(CODES))
        .advance(StartupEvent::Size { published: None, setting: Some(String::from("4294967296")) })
        .advance(StartupEvent::Handshaken(Ok(two_peers())));
    assert_eq!(error_of(startup), Error::Usage("job size exceeds UCC limits"));
}

#[test]
fn allocations_are_aligned() {
    let mut lifecycle = started();
    for size in [1, 7, 9] {
        assert_eq!(malloc(&mut lifecycle, size).unwrap().offset_from(0) % 8, 0);
    }
}
