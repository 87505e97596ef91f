use openshmem::bootstrap::Bootstrap;
use openshmem::coll::{
    barrier, broadcast, collect, decode, encode, map_ucc, reduce, CollectiveEvent,
    CollectiveRequest, CollectiveStep, OobEndpoints, Plan, Runtime, RuntimeEvent, RuntimeSetup,
    TeamRequest, UccCodes, UccCollectiveType, UccDatatype, UccReductionOp,
};
use openshmem::error::{Error, Result, UccError, UccStatus};
use openshmem::init::{complete, init, Lifecycle, StartupEvent};
use openshmem::pod::{ByteOrder, DoubleBits, Pod, SingleBits};
use openshmem::rma::{SetupEvent, TransportSetup, UcxTransport};
use openshmem::symheap::{PeerRkeys, SymHeap};

const CODES: UccCodes = UccCodes { ok: 0, in_progress: 1, no_message: -6 };
const OK: UccStatus = UccStatus::Known(UccError { code: 0, failure: false });
const IN_PROGRESS: UccStatus = UccStatus::Known(UccError { code: 1, failure: false });
const NO_MESSAGE: UccStatus = UccStatus::Known(UccError { code: -6, failure: true });
const TIMED_OUT: UccStatus = UccStatus::Known(UccError { code: -8, failure: true });

fn started_with(ucc: Option<UccCodes>) -> Lifecycle {
    let mut lifecycle = Lifecycle::with_order(ByteOrder::Little);
    let setup = UcxTransport::new(1)
        .advance(SetupEvent::Config(Ok(())))
        .advance(SetupEvent::Context(Ok(())))
        .advance(SetupEvent::Worker(Ok(())))
        .advance(SetupEvent::Address(Ok(vec![1])))
        .advance(SetupEvent::Shared(Ok(())));
    let transport = match setup {
        TransportSetup::Ready(transport) => transport,
        other => panic!("{:?}", other),
    };
    let heap = SymHeap::with_size(64, 0x1000, Ok(vec![1, 2, 3, 4])).unwrap();
    let found = Bootstrap {
        peer_rkeys: PeerRkeys::default(),
        peers: std::collections::BTreeMap::new(),
    };
    let mut startup = init(&lifecycle, ucc)
        .unwrap()
        .advance(StartupEvent::Connected(Ok(0)))
        .advance(StartupEvent::Transport(Ok(transport)))
        .advance(StartupEvent::Heap(Ok(heap)))
        .advance(StartupEvent::Size { published: Some(3), setting: None })
        .advance(StartupEvent::Handshaken(Ok(found)));
    if ucc.is_some() {
        startup = startup
            .advance(StartupEvent::Team(RuntimeEvent::Lib(Ok(()))))
            .advance(StartupEvent::Team(RuntimeEvent::Context(Ok(()))))
            .advance(StartupEvent::Team(RuntimeEvent::Team(Ok(()))));
    }
    assert_eq!(complete(&mut lifecycle, startup), Some(Ok(())));
    lifecycle
}

fn lone_pe() -> Lifecycle {
    started_with(None)
}

fn team_member() -> Lifecycle {
    started_with(Some(CODES))
}

fn run_to_the_end(request: &mut CollectiveRequest) {
    request.advance(CollectiveEvent::Initialized(Ok(())));
    request.advance(CollectiveEvent::Posted(Ok(())));
    request.advance(CollectiveEvent::Polled(NO_MESSAGE));
    request.advance(CollectiveEvent::Progressed);
    request.advance(CollectiveEvent::Polled(OK));
    request.advance(CollectiveEvent::Finalized(Ok(())));
}

#[test]
fn public_symbols_compile() {
    let _: fn(&Lifecycle) -> Result<CollectiveRequest> = barrier;
    let _: fn(&Lifecycle, usize, &[u8]) -> Result<CollectiveRequest> = broadcast;
    let _: fn(&Lifecycle, &[u8]) -> Result<CollectiveRequest> = collect;
    let _: fn(&Lifecycle, UccReductionOp, &[u8]) -> Result<CollectiveRequest> = reduce;
}

#[test]
fn unknown_ucc_status_preserves_raw_code() {
    let error = map_ucc(UccStatus::Unknown(-777));
    assert!(matches!(error, Error::Ucc(UccStatus::Unknown(-777))));
}

#[test]
fn a_runtime_spans_the_job() {
    let setup = Runtime::new(2, 5, CODES).unwrap();
    let runtime = Runtime { rank: 2, size: 5, codes: CODES };
    assert_eq!(setup, RuntimeSetup::InitLib(runtime));
    let setup = setup.advance(RuntimeEvent::Lib(Ok(())));
    assert_eq!(setup, RuntimeSetup::CreateContext(runtime));
    let setup = setup.advance(RuntimeEvent::Context(Ok(())));
    let request =
        TeamRequest { team_size: 5, oob: OobEndpoints { n_oob_eps: 5, oob_ep: 2 } };
    assert_eq!(setup, RuntimeSetup::CreateTeam(runtime, request));
    assert_eq!(setup.advance(RuntimeEvent::Lib(Ok(()))), setup);
    assert_eq!(setup.advance(RuntimeEvent::Team(Ok(()))), RuntimeSetup::Ready(runtime));
    assert_eq!(
        setup.advance(RuntimeEvent::Team(Err(TIMED_OUT))),
        RuntimeSetup::Failed(Error::Ucc(TIMED_OUT))
    );
    assert_eq!(
        Runtime::new(0, 1 << 32, CODES),
        Err(Error::Usage("job size exceeds UCC limits"))
    );
    assert!(Runtime::new(0, u32::MAX as usize, CODES).is_ok());
}

#[test]
fn reductions_depend_on_the_type() {
    for op in [UccReductionOp::Sum, UccReductionOp::Max, UccReductionOp::Min] {
        assert!(u8::reduction_supported(op));
        assert!(DoubleBits::reduction_supported(op));
    }
    for op in [UccReductionOp::Band, UccReductionOp::Bor, UccReductionOp::Bxor] {
        assert!(i64::reduction_supported(op));
        assert!(!SingleBits::reduction_supported(op));
    }
    for op in [
        UccReductionOp::Prod,
        UccReductionOp::Land,
        UccReductionOp::Lor,
        UccReductionOp::Lxor,
        UccReductionOp::Other,
    ] {
        assert!(!u32::reduction_supported(op));
        assert!(!DoubleBits::reduction_supported(op));
    }
}

#[test]
fn values_have_their_ucc_types() {
    assert_eq!(u8::ucc_datatype(), UccDatatype::Uint8);
    assert_eq!(i8::ucc_datatype(), UccDatatype::Int8);
    assert_eq!(u16::ucc_datatype(), UccDatatype::Uint16);
    assert_eq!(i16::ucc_datatype(), UccDatatype::Int16);
    assert_eq!(u32::ucc_datatype(), UccDatatype::Uint32);
    assert_eq!(i32::ucc_datatype(), UccDatatype::Int32);
    assert_eq!(u64::ucc_datatype(), UccDatatype::Uint64);
    assert_eq!(i64::ucc_datatype(), UccDatatype::Int64);
    assert_eq!(SingleBits::ucc_datatype(), UccDatatype::Float32);
    assert_eq!(DoubleBits::ucc_datatype(), UccDatatype::Float64);
}

#[test]
fn buffers_are_encoded_and_decoded_in_place() {
    let bytes = encode(ByteOrder::Big, &[1_u16, 2]).unwrap();
    assert_eq!(bytes, [0, 1, 0, 2]);
    let mut values = [9_u16, 9];
    assert_eq!(decode(ByteOrder::Big, &bytes, &mut values), Ok(()));
    assert_eq!(values, [1, 2]);
    assert_eq!(
        decode(ByteOrder::Big, &bytes[..3], &mut values),
        Err(Error::Usage("collective buffer has an invalid byte length"))
    );
    assert_eq!(values, [1, 2]);
}

#[test]
fn collectives_need_a_runtime() {
    let off = Lifecycle::new();
    assert!(matches!(barrier(&off), Err(Error::NotInitialized)));
    assert!(matches!(broadcast(&off, 0, &[1_u8]), Err(Error::NotInitialized)));
    assert!(matches!(collect(&off, &[1_u8]), Err(Error::NotInitialized)));
    assert!(matches!(reduce(&off, UccReductionOp::Sum, &[1_u8]), Err(Error::NotInitialized)));
    let alone = lone_pe();
    let missing = "collectives are not initialized";
    assert!(matches!(barrier(&alone), Err(Error::Internal(m)) if m == missing));
    assert!(matches!(broadcast(&alone, 0, &[1_u8]), Err(Error::Internal(m)) if m == missing));
    assert!(matches!(collect(&alone, &[1_u8]), Err(Error::Internal(m)) if m == missing));
    assert!(
        matches!(reduce(&alone, UccReductionOp::Sum, &[1_u8]), Err(Error::Internal(m)) if m == missing)
    );
}

#[test]
fn arguments_are_checked_before_the_state() {
    let off = Lifecycle::new();
    assert!(matches!(
        broadcast::<u8>(&off, 0, &[]),
        Err(Error::Usage("collective buffer must be non-empty"))
    ));
    assert!(matches!(
        collect::<u8>(&off, &[]),
        Err(Error::Usage("collective contribution must be non-empty"))
    ));
    assert!(matches!(
        reduce(&off, UccReductionOp::Prod, &[1_u8]),
        Err(Error::Usage("reduction operation is not supported for this POD type"))
    ));
    assert!(matches!(
        reduce(&off, UccReductionOp::Band, &[SingleBits(0)]),
        Err(Error::Usage("reduction operation is not supported for this POD type"))
    ));
}

#[test]
fn a_barrier_runs_to_completion() {
    let mut request = barrier(&team_member()).unwrap();
    assert_eq!(
        request.plan(),
        Plan { kind: UccCollectiveType::Barrier, count: 1, dtype: None, root: None, op: None }
    );
    assert_eq!(request.buffer(), [0]);
    assert_eq!(request.step(), CollectiveStep::Init);
    assert_eq!(request.test(), None);
    run_to_the_end(&mut request);
    assert_eq!(request.test(), Some(Ok(())));
}

#[test]
fn polling_waits_without_a_limit() {
    let mut request = barrier(&team_member()).unwrap();
    request.advance(CollectiveEvent::Initialized(Ok(())));
    request.advance(CollectiveEvent::Posted(Ok(())));
    for _ in 0..1000 {
        for unfinished in [NO_MESSAGE, IN_PROGRESS] {
            request.advance(CollectiveEvent::Polled(unfinished));
            assert_eq!(request.step(), CollectiveStep::Progress);
            request.advance(CollectiveEvent::Progressed);
            assert_eq!(request.step(), CollectiveStep::Poll);
        }
    }
    request.advance(CollectiveEvent::Polled(TIMED_OUT));
    assert_eq!(request.test(), Some(Err(Error::Ucc(TIMED_OUT))));
    request.advance(CollectiveEvent::Polled(OK));
    assert_eq!(request.test(), Some(Err(Error::Ucc(TIMED_OUT))));
}

#[test]
fn a_collective_in_progress_is_waited_for() {
    let mut request = barrier(&team_member()).unwrap();
    request.advance(CollectiveEvent::Initialized(Ok(())));
    request.advance(CollectiveEvent::Posted(Ok(())));
    request.advance(CollectiveEvent::Polled(IN_PROGRESS));
    assert_eq!(request.test(), None);
    request.advance(CollectiveEvent::Progressed);
    request.advance(CollectiveEvent::Polled(OK));
    assert_eq!(request.step(), CollectiveStep::Finalize);
    request.advance(CollectiveEvent::Finalized(Ok(())));
    assert_eq!(request.test(), Some(Ok(())));
}

#[test]
fn each_failed_call_ends_a_collective() {
    let lifecycle = team_member();
    let mut unsized_team = broadcast(&lifecycle, 0, &[1_u8]).unwrap();
    unsized_team.advance(CollectiveEvent::TeamSize(Err(TIMED_OUT)));
    assert_eq!(unsized_team.test(), Some(Err(Error::Ucc(TIMED_OUT))));
    let mut refused = barrier(&lifecycle).unwrap();
    refused.advance(CollectiveEvent::Initialized(Err(UccStatus::Unknown(-50))));
    assert_eq!(refused.test(), Some(Err(Error::Ucc(UccStatus::Unknown(-50)))));
    let mut unposted = barrier(&lifecycle).unwrap();
    unposted.advance(CollectiveEvent::Initialized(Ok(())));
    unposted.advance(CollectiveEvent::Posted(Err(TIMED_OUT)));
    assert_eq!(unposted.test(), Some(Err(Error::Ucc(TIMED_OUT))));
    let mut open = barrier(&lifecycle).unwrap();
    open.advance(CollectiveEvent::Initialized(Ok(())));
    open.advance(CollectiveEvent::Posted(Ok(())));
    open.advance(CollectiveEvent::Polled(OK));
    open.advance(CollectiveEvent::Finalized(Err(TIMED_OUT)));
    assert_eq!(open.test(), Some(Err(Error::Ucc(TIMED_OUT))));
}

#[test]
fn a_broadcast_replaces_the_values() {
    let lifecycle = team_member();
    let mut values = [1_u32, 2];
    let mut request = broadcast(&lifecycle, 2, &values).unwrap();
    assert_eq!(request.step(), CollectiveStep::TeamSize);
    assert_eq!(
        request.plan(),
        Plan {
            kind: UccCollectiveType::Broadcast,
            count: 2,
            dtype: Some(UccDatatype::Uint32),
            root: Some(2),
            op: None,
        }
    );
    assert_eq!(request.buffer(), [1, 0, 0, 0, 2, 0, 0, 0]);
    let sent = encode(ByteOrder::Little, &[70_000_u32, 5]).unwrap();
    assert_eq!(request.finish(&sent, &mut values), None);
    request.advance(CollectiveEvent::TeamSize(Ok(3)));
    run_to_the_end(&mut request);
    assert_eq!(request.finish(&sent, &mut values), Some(Ok(())));
    assert_eq!(values, [70_000, 5]);
}

#[test]
fn a_root_outside_the_team_is_refused() {
    let mut values = [1_u8];
    let mut request = broadcast(&team_member(), 3, &values).unwrap();
    request.advance(CollectiveEvent::TeamSize(Ok(3)));
    let outside = Error::Usage("broadcast root is outside the UCC team");
    assert_eq!(request.test(), Some(Err(outside)));
    assert_eq!(request.finish(&[9], &mut values), Some(Err(outside)));
    assert_eq!(values, [1]);
}

#[test]
fn a_collect_gathers_in_rank_order() {
    let mut request = collect(&team_member(), &[10_u16, 11]).unwrap();
    assert_eq!(request.receives(), 0);
    request.advance(CollectiveEvent::TeamSize(Ok(3)));
    assert_eq!(request.receives(), 12);
    assert_eq!(request.plan().kind, UccCollectiveType::Allgather);
    assert_eq!(request.plan().count, 2);
    let mut received = Vec::new();
    for rank in 0..3_u16 {
        received.extend(encode(ByteOrder::Little, &[10 * rank, 10 * rank + 1]).unwrap());
    }
    assert_eq!(request.collected::<u16>(&received), None);
    run_to_the_end(&mut request);
    assert_eq!(request.collected::<u16>(&received), Some(Ok(vec![0, 1, 10, 11, 20, 21])));
}

#[test]
fn a_receive_buffer_must_fit_in_memory() {
    let mut request = collect(&team_member(), &[1_u16]).unwrap();
    request.advance(CollectiveEvent::TeamSize(Ok(usize::MAX)));
    let overflow = Error::Usage("collective receive buffer overflow");
    assert_eq!(request.test(), Some(Err(overflow)));
    assert_eq!(request.collected::<u16>(&[]), Some(Err(overflow)));
    assert_eq!(request.receives(), 0);
}

#[test]
fn a_reduction_is_asked_for_by_type_and_operation() {
    let mut values = [-3_i64];
    let mut request = reduce(&team_member(), UccReductionOp::Sum, &values).unwrap();
    assert_eq!(request.step(), CollectiveStep::Init);
    assert_eq!(
        request.plan(),
        Plan {
            kind: UccCollectiveType::Allreduce,
            count: 1,
            dtype: Some(UccDatatype::Int64),
            root: None,
            op: Some(UccReductionOp::Sum),
        }
    );
    run_to_the_end(&mut request);
    let sum = encode(ByteOrder::Little, &[-9_i64]).unwrap();
    assert_eq!(request.finish(&sum, &mut values), Some(Ok(())));
    assert_eq!(values, [-9]);
    let empty = reduce::<u8>(&team_member(), UccReductionOp::Max, &[]).unwrap();
    assert_eq!(empty.plan().count, 0);
}
