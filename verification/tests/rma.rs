use openshmem::bootstrap::{Bootstrap, PeerConnection};
use openshmem::error::{Error, Result, UcsStatus};
use openshmem::init::{complete, heap_base, init, malloc, Lifecycle, StartupEvent};
use openshmem::pod::ByteOrder;
use openshmem::rma::{
    fence, fenced, get, getmem, peer_and_address, put, putmem, quiet, quiet_all, quiet_pe,
    received, Completion, ConfigError, Progress, SetupEvent, ThreadMode, Transfer,
    TransportCapabilities, TransportSetup, UcxTransport,
};
use openshmem::symheap::{PeerRkeys, SymHeap};

fn transport_with(address: &[u8]) -> UcxTransport {
    let setup = UcxTransport::new(1)
        .advance(SetupEvent::Config(Ok(())))
        .advance(SetupEvent::Context(Ok(())))
        .advance(SetupEvent::Worker(Ok(())))
        .advance(SetupEvent::Address(Ok(address.to_vec())))
        .advance(SetupEvent::Shared(Ok(())));
    match setup {
        TransportSetup::Ready(transport) => transport,
        other => panic!("UCX RMA context and worker: {:?}", other),
    }
}

fn job_of(bases: &[(u32, u64)]) -> Lifecycle {
    let mut lifecycle = Lifecycle::with_order(ByteOrder::Little);
    let mut peers = std::collections::BTreeMap::new();
    let mut peer_rkeys = PeerRkeys::default();
    for &(pe, heap_base) in bases {
        peers.insert(pe, PeerConnection { heap_base });
        peer_rkeys.insert(pe, heap_base, vec![1, 2, 3, 4]);
    }
    let heap = SymHeap::with_size(64, 0x1000, Ok(vec![1, 2, 3, 4])).unwrap();
    let startup = init(&lifecycle, None)
        .unwrap()
        .advance(StartupEvent::Connected(Ok(0)))
        .advance(StartupEvent::Transport(Ok(transport_with(&[1]))))
        .advance(StartupEvent::Heap(Ok(heap)))
        .advance(StartupEvent::Size { published: Some(bases.len() as u32), setting: None })
        .advance(StartupEvent::Handshaken(Ok(Bootstrap { peer_rkeys, peers })));
    assert_eq!(complete(&mut lifecycle, startup), Some(Ok(())));
    lifecycle
}

#[test]
fn creates_rma_worker_and_loopback_capability() {
    let transport = transport_with(&[7, 7, 7]);
    assert!(transport.capabilities().rma);
    assert!(transport.capabilities().loopback);
    assert!(!transport.packed_address().is_empty());
}

/// Drives an operation whose request takes some rounds of waiting.
fn drive(mut completion: Completion, mut rounds: u32, mut operation: impl FnMut()) -> Result<()> {
    loop {
        let event = match completion {
            Completion::Issue => {
                operation();
                Progress::Issued(Ok(true))
            }
            Completion::Wait if rounds > 0 => {
                rounds -= 1;
                Progress::Waited(Ok(false))
            }
            Completion::Wait => Progress::Waited(Ok(true)),
            Completion::Release => Progress::Released,
            Completion::Complete => return Ok(()),
            Completion::Failed(error) => return Err(error),
        };
        completion = completion.advance(event);
    }
}

#[test]
fn loopback_rma_put_get_roundtrip_uses_real_completion_path() {
    let base = 0x7000_u64;
    let lifecycle = job_of(&[(0, base)]);
    let mut target = vec![0_u8; 4096];
    let transport = transport_with(&[1, 2, 3]);
    transport.loopback_endpoint().expect("self endpoint");
    let source = b"loopback RMA";
    let mut destination = vec![0_u8; source.len()];

    let written = putmem(&lifecycle, 0, source, 0).expect("loopback put");
    let at = (written.address - base) as usize;
    drive(written.completion, 3, || target[at..at + written.len].copy_from_slice(source))
        .expect("put completion");
    fence(&lifecycle).expect("ordering fence");
    let written = putmem(&lifecycle, 0, source, 0).expect("second loopback put");
    drive(written.completion, 0, || target[at..at + written.len].copy_from_slice(source))
        .expect("second put completion");
    let mut flush = quiet_pe(&lifecycle, 0).expect("endpoint flush");
    while flush.completion().outcome().is_none() {
        flush.advance(Progress::Issued(Ok(false)));
    }
    assert_eq!(flush.completion().outcome(), Some(Ok(())), "flush completion");
    let read = getmem(&lifecycle, 0, 0, destination.len()).expect("loopback get");
    let at = (read.address - base) as usize;
    drive(read.completion, 2, || destination.copy_from_slice(&target[at..at + read.len]))
        .expect("get completion");

    assert_eq!(destination, source);
}

#[test]
fn typed_length_overflow_is_rejected_before_state_lookup() {
    let lifecycle = Lifecycle::new();
    assert!(matches!(get::<u64>(&lifecycle, 0, 0, usize::MAX), Err(Error::Usage(_))));
}

#[test]
fn a_worker_without_an_address_has_no_loopback() {
    let transport = transport_with(&[]);
    assert_eq!(
        transport.capabilities(),
        TransportCapabilities { rma: true, loopback: false }
    );
    assert_eq!(
        transport.loopback_endpoint(),
        Err(Error::Internal("UCX worker has no loopback address"))
    );
    assert_eq!(transport_with(&[4, 2]).loopback_endpoint(), Ok(&[4, 2][..]));
}

#[test]
fn transport_setup_asks_for_rma_and_serialized_workers() {
    let setup = UcxTransport::new(12);
    match &setup {
        TransportSetup::ReadConfig(request) => {
            assert!(request.tag && request.rma && request.exported_memh);
            assert_eq!(request.mt_workers_shared, 1);
            assert_eq!(request.estimated_num_eps, 12);
        }
        other => panic!("{:?}", other),
    }
    let setup = setup.advance(SetupEvent::Config(Ok(())));
    assert!(matches!(&setup, TransportSetup::CreateContext(request) if request.estimated_num_eps == 12));
    let setup = setup.advance(SetupEvent::Context(Ok(())));
    assert!(matches!(&setup, TransportSetup::CreateWorker(ThreadMode::Serialized)));
    let setup = setup.advance(SetupEvent::Shared(Ok(())));
    assert!(matches!(&setup, TransportSetup::CreateWorker(_)));
}

#[test]
fn transport_setup_stops_at_the_first_failure() {
    let status = UcsStatus { code: -6 };
    let nul = UcxTransport::new(1).advance(SetupEvent::Config(Err(ConfigError::Nul)));
    assert!(matches!(
        nul,
        TransportSetup::Failed(Error::Internal("invalid UCX configuration string"))
    ));
    let unread = UcxTransport::new(1).advance(SetupEvent::Config(Err(ConfigError::Ucs(status))));
    assert!(matches!(unread, TransportSetup::Failed(Error::Ucx(UcsStatus { code: -6 }))));
    let ungated = UcxTransport::new(1)
        .advance(SetupEvent::Config(Ok(())))
        .advance(SetupEvent::Context(Err(status)))
        .advance(SetupEvent::Worker(Ok(())));
    assert!(matches!(ungated, TransportSetup::Failed(Error::Ucx(UcsStatus { code: -6 }))));
    let unshared = UcxTransport::new(1)
        .advance(SetupEvent::Config(Ok(())))
        .advance(SetupEvent::Context(Ok(())))
        .advance(SetupEvent::Worker(Ok(())))
        .advance(SetupEvent::Address(Ok(vec![1])))
        .advance(SetupEvent::Shared(Err(UcsStatus { code: 0 })));
    assert!(matches!(unshared, TransportSetup::Failed(Error::Internal(_))));
}

#[test]
fn an_operation_is_complete_when_ucx_says_so() {
    let at_once = Completion::Issue.advance(Progress::Issued(Ok(false)));
    assert_eq!(at_once.outcome(), Some(Ok(())));
    let mut waiting = Completion::Issue.advance(Progress::Issued(Ok(true)));
    for _ in 0..1000 {
        waiting = waiting.advance(Progress::Waited(Ok(false)));
        assert_eq!(waiting, Completion::Wait);
        assert_eq!(waiting.outcome(), None);
    }
    let release = waiting.advance(Progress::Waited(Ok(true)));
    assert_eq!(release, Completion::Release);
    assert_eq!(release.advance(Progress::Released), Completion::Complete);
    let failed = waiting.advance(Progress::Waited(Err(UcsStatus { code: -1 })));
    assert_eq!(failed.outcome(), Some(Err(Error::Ucx(UcsStatus { code: -1 }))));
    let refused = Completion::Issue.advance(Progress::Issued(Err(UcsStatus { code: -2 })));
    assert_eq!(refused, Completion::Failed(Error::Ucx(UcsStatus { code: -2 })));
    assert_eq!(refused.advance(Progress::Issued(Ok(false))), refused);
    assert_eq!(Completion::Issue.advance(Progress::Released), Completion::Issue);
}

#[test]
fn ranges_are_located_in_the_peer_heap() {
    let lifecycle = job_of(&[(0, 0x1000), (1, u64::MAX - 16)]);
    let state = openshmem::init::with_state(&lifecycle).unwrap();
    assert_eq!(peer_and_address(state, 0, 8, 100), Ok((0, 0x1008)));
    assert_eq!(peer_and_address(state, 1, 16, 0), Ok((1, u64::MAX)));
    assert_eq!(peer_and_address(state, 1, 17, 0), Err(Error::Usage("RMA address overflow")));
    assert_eq!(
        peer_and_address(state, 0, 8, usize::MAX),
        Err(Error::Usage("RMA range overflow"))
    );
    assert_eq!(
        peer_and_address(state, 2, 0, 1),
        Err(Error::Usage("PE number is not in the job"))
    );
    assert_eq!(
        peer_and_address(state, 1 << 32, 0, 1),
        Err(Error::Usage("PE number is out of range"))
    );
}

#[test]
fn transfers_need_an_initialized_process() {
    let lifecycle = Lifecycle::new();
    assert_eq!(putmem(&lifecycle, 0, &[1], 0), Err(Error::NotInitialized));
    assert_eq!(getmem(&lifecycle, 0, 0, 1), Err(Error::NotInitialized));
    assert!(matches!(put(&lifecycle, 0, &[1_u8], 0), Err(Error::NotInitialized)));
    assert_eq!(get::<u8>(&lifecycle, 0, 0, 1), Err(Error::NotInitialized));
    assert_eq!(fence(&lifecycle), Err(Error::NotInitialized));
    assert!(matches!(quiet(&lifecycle), Err(Error::NotInitialized)));
    assert!(matches!(quiet_pe(&lifecycle, 0), Err(Error::NotInitialized)));
    assert!(matches!(quiet_all(&lifecycle), Err(Error::NotInitialized)));
}

#[test]
fn a_transfer_without_bytes_is_complete_at_once() {
    let lifecycle = job_of(&[(0, 0x1000)]);
    let nothing = Transfer { pe: 0, address: 0x1004, len: 0, completion: Completion::Complete };
    assert_eq!(putmem(&lifecycle, 0, &[], 4), Ok(nothing));
    assert_eq!(getmem(&lifecycle, 0, 4, 0), Ok(nothing));
    let some = Transfer { pe: 0, address: 0x1004, len: 3, completion: Completion::Issue };
    assert_eq!(putmem(&lifecycle, 0, &[1, 2, 3], 4), Ok(some));
    assert_eq!(getmem(&lifecycle, 0, 4, 3), Ok(some));
    assert_eq!(putmem(&lifecycle, 1, &[], 4), Err(Error::Usage("PE number is not in the job")));
}

#[test]
fn a_get_reads_what_a_put_wrote() {
    let lifecycle = job_of(&[(0, 0x1000), (1, 0x8000)]);
    let values = [0x5049_4e47_2d52_4d41_u64, 3];
    let written = put(&lifecycle, 1, &values, 8).unwrap();
    assert_eq!(written.bytes[..8], [0x41, 0x4d, 0x52, 0x2d, 0x47, 0x4e, 0x49, 0x50]);
    assert_eq!(written.transfer.address, 0x8008);
    assert_eq!(written.transfer.len, 16);
    let mut read = get::<u64>(&lifecycle, 1, 8, 2).unwrap();
    assert_eq!(read, written.transfer);
    assert_eq!(received::<u64>(&lifecycle, &read, &written.bytes), None);
    read.completion = read.completion.advance(Progress::Issued(Ok(false)));
    assert_eq!(received::<u64>(&lifecycle, &read, &written.bytes), Some(Ok(values.to_vec())));
    read.completion = Completion::Failed(Error::Ucx(UcsStatus { code: -6 }));
    assert_eq!(
        received::<u64>(&lifecycle, &read, &written.bytes),
        Some(Err(Error::Ucx(UcsStatus { code: -6 })))
    );
}

#[test]
fn an_allocation_has_the_same_place_in_every_heap() {
    let mut lifecycle = job_of(&[(0, 0x1000), (1, 0x8000)]);
    let _first = malloc(&mut lifecycle, 20).unwrap();
    let second = malloc(&mut lifecycle, 40).unwrap();
    let offset = second.offset_from(heap_base(&lifecycle).unwrap());
    assert_eq!(offset, 24);
    let there = putmem(&lifecycle, 1, &[0; 40], offset as usize).unwrap();
    assert_eq!(there.address, second.to_remote_addr(0x1000, 0x8000));
    assert_eq!(there.address + 40, 0x8000 + 64);
}

#[test]
fn puts_to_different_allocations_do_not_meet() {
    let mut lifecycle = job_of(&[(0, 0x1000), (1, 0x8000)]);
    let mut memory = vec![0_u8; 64];
    let base = heap_base(&lifecycle).unwrap();
    let first = malloc(&mut lifecycle, 4).unwrap();
    let second = malloc(&mut lifecycle, 8).unwrap();
    for (ptr, value) in [(first, 0x1111_1111_u32), (second, 0x2222_2222)] {
        let put = put(&lifecycle, 1, &[value], ptr.offset_from(base) as usize).unwrap();
        let at = (put.transfer.address - 0x8000) as usize;
        memory[at..at + put.transfer.len].copy_from_slice(&put.bytes);
    }
    let mut read = get::<u32>(&lifecycle, 1, first.offset_from(base) as usize, 1).unwrap();
    read.completion = Completion::Complete;
    let at = (read.address - 0x8000) as usize;
    assert_eq!(
        received::<u32>(&lifecycle, &read, &memory[at..at + read.len]),
        Some(Ok(vec![0x1111_1111]))
    );
}

#[test]
fn a_fence_reports_the_worker_status() {
    assert_eq!(fence(&job_of(&[(0, 1)])), Ok(()));
    assert_eq!(fenced(Ok(())), Ok(()));
    assert_eq!(
        fenced(Err(UcsStatus { code: -6 })),
        Err(Error::Ucx(UcsStatus { code: -6 }))
    );
}

#[test]
fn quiet_flushes_every_peer_in_order() {
    let lifecycle = job_of(&[(2, 3), (0, 1), (1, 2)]);
    let mut all = quiet(&lifecycle).unwrap();
    assert_eq!(all.pe(), Some(0));
    assert_eq!(all.completion(), Completion::Issue);
    all.advance(Progress::Issued(Ok(false)));
    assert_eq!(all.pe(), Some(1));
    all.advance(Progress::Issued(Ok(true)));
    all.advance(Progress::Waited(Ok(false)));
    all.advance(Progress::Waited(Ok(true)));
    assert_eq!(all.completion(), Completion::Release);
    all.advance(Progress::Released);
    assert_eq!(all.pe(), Some(2));
    assert_eq!(all.completion(), Completion::Issue);
    all.advance(Progress::Issued(Ok(false)));
    assert_eq!(all.pe(), None);
    assert_eq!(all.completion().outcome(), Some(Ok(())));
    all.advance(Progress::Issued(Ok(true)));
    assert_eq!(all.completion(), Completion::Complete);
    assert_eq!(quiet_all(&lifecycle).unwrap().pe(), Some(0));
    assert_eq!(quiet(&job_of(&[])).unwrap().completion(), Completion::Complete);
}

#[test]
fn quiet_stops_at_the_first_failure() {
    let mut all = quiet(&job_of(&[(0, 1), (1, 2)])).unwrap();
    all.advance(Progress::Issued(Err(UcsStatus { code: -6 })));
    assert_eq!(all.pe(), Some(0));
    assert_eq!(all.completion().outcome(), Some(Err(Error::Ucx(UcsStatus { code: -6 }))));
    all.advance(Progress::Issued(Ok(false)));
    assert_eq!(all.pe(), Some(0));
}

#[test]
fn quiet_of_one_pe_flushes_it_alone() {
    let lifecycle = job_of(&[(0, 1), (1, 2)]);
    let mut one = quiet_pe(&lifecycle, 1).unwrap();
    assert_eq!(one.pe(), Some(1));
    one.advance(Progress::Issued(Ok(false)));
    assert_eq!(one.pe(), None);
    assert_eq!(one.completion(), Completion::Complete);
    assert!(matches!(
        quiet_pe(&lifecycle, 2),
        Err(Error::Usage("PE number is not in the job"))
    ));
    assert!(matches!(
        quiet_pe(&lifecycle, usize::MAX),
        Err(Error::Usage("PE number is out of range"))
    ));
}
