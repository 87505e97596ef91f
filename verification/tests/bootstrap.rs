use openshmem::bootstrap::{
    handshake, pmix_error, put_bytes, BootstrapKey, Event, Handshake, PeerConnection, Publication,
    PutOutcome, Step,
};
use openshmem::error::{Error, PmixError, UcsStatus};
use openshmem::rma::{SetupEvent, TransportSetup, UcxTransport};
use openshmem::symheap::{PeerRkeys, SymHeap};

const KEYS: [BootstrapKey; 3] =
    [BootstrapKey::WorkerAddr, BootstrapKey::HeapRkey, BootstrapKey::HeapBase];

fn worker_at(address: &[u8]) -> UcxTransport {
    let setup = UcxTransport::new(1)
        .advance(SetupEvent::Config(Ok(())))
        .advance(SetupEvent::Context(Ok(())))
        .advance(SetupEvent::Worker(Ok(())))
        .advance(SetupEvent::Address(Ok(address.to_vec())))
        .advance(SetupEvent::Shared(Ok(())));
    match setup {
        TransportSetup::Ready(transport) => transport,
        other => panic!("transport is not ready: {:?}", other),
    }
}

fn exchange_of(size: usize) -> Handshake {
    let heap = SymHeap::with_size(64, 0x1000, Ok(vec![3, 0, 0, 0, 9, 8, 7])).unwrap();
    handshake(&worker_at(&[1, 2]), &heap, size).unwrap()
}

fn past_the_fence(size: usize) -> Handshake {
    exchange_of(size)
        .advance(Event::Put(PutOutcome::Stored))
        .advance(Event::Put(PutOutcome::Stored))
        .advance(Event::Put(PutOutcome::Stored))
        .advance(Event::Committed(Ok(())))
        .advance(Event::Resolved(Ok(())))
        .advance(Event::Fenced(Ok(())))
}

fn asked(size: usize, address: &[u8], rkey: &[u8], base: u64) -> Handshake {
    past_the_fence(size)
        .advance(Event::Resolved(Ok(())))
        .advance(Event::Bytes(Ok(address.to_vec())))
        .advance(Event::Bytes(Ok(rkey.to_vec())))
        .advance(Event::Number(Ok(base)))
}

#[test]
fn keys_are_nul_free_content_and_nul_terminated_for_get() {
    for key in KEYS {
        let put = key.put_key();
        let get = key.get_key();
        assert!(!put.as_bytes().contains(&0));
        assert_eq!(get.last(), Some(&0));
        assert_eq!(&get[..get.len() - 1], put.as_bytes());
    }
}

#[test]
fn framed_rkey_roundtrip_is_preserved_in_peer_map() {
    let framed = [3, 0, 0, 0, 9, 8, 7];
    let mut peers = PeerRkeys::default();
    peers.insert(1, 0x1000, framed.to_vec());
    assert_eq!(peers.get(1).unwrap().rkey, framed);
}

#[test]
fn keys_have_their_names() {
    assert_eq!(BootstrapKey::WorkerAddr.put_key(), "shmem.worker.addr");
    assert_eq!(BootstrapKey::HeapRkey.put_key(), "shmem.heap.rkey");
    assert_eq!(BootstrapKey::HeapBase.get_key(), b"shmem.heap.base\0");
}

#[test]
fn an_empty_job_is_refused() {
    let heap = SymHeap::with_size(64, 0x1000, Ok(vec![1, 2, 3, 4])).unwrap();
    let refused = handshake(&worker_at(&[1]), &heap, 0);
    assert!(matches!(refused, Err(Error::Usage("bootstrap job size must be nonzero"))));
}

#[test]
fn pes_are_numbered_with_32_bits() {
    assert!(matches!(past_the_fence(1 << 32).step(), Step::Done));
    assert!(matches!(past_the_fence((1 << 32) + 1).step(), Step::ResolvePeer { pe: 0 }));
}

#[test]
fn each_value_is_published_under_its_key() {
    let exchange = exchange_of(1);
    match exchange.to_publish() {
        Some((key, Publication::Bytes(bytes))) => {
            assert_eq!(key, BootstrapKey::WorkerAddr);
            assert_eq!(bytes, [1, 2]);
        }
        other => panic!("{:?}", other),
    }
    let exchange = exchange.advance(Event::Put(PutOutcome::Stored));
    match exchange.to_publish() {
        Some((key, Publication::Bytes(bytes))) => {
            assert_eq!(key, BootstrapKey::HeapRkey);
            assert_eq!(bytes, [3, 0, 0, 0, 9, 8, 7]);
        }
        other => panic!("{:?}", other),
    }
    let exchange = exchange.advance(Event::Put(PutOutcome::Stored));
    match exchange.to_publish() {
        Some((key, Publication::Number(base))) => {
            assert_eq!(key, BootstrapKey::HeapBase);
            assert_eq!(base, 0x1000);
        }
        other => panic!("{:?}", other),
    }
    let exchange = exchange.advance(Event::Put(PutOutcome::Stored));
    assert!(exchange.to_publish().is_none());
    assert!(matches!(exchange.step(), Step::Commit));
}

#[test]
fn an_exchange_connects_every_pe() {
    let mut exchange = past_the_fence(2);
    for pe in 0..2_u8 {
        assert!(matches!(exchange.step(), Step::ResolvePeer { .. }));
        exchange = exchange.advance(Event::Resolved(Ok(())));
        assert_eq!(exchange.to_get(), Some((pe as u32, BootstrapKey::WorkerAddr)));
        exchange = exchange.advance(Event::Bytes(Ok(vec![pe, 1])));
        assert_eq!(exchange.to_get(), Some((pe as u32, BootstrapKey::HeapRkey)));
        exchange = exchange.advance(Event::Bytes(Ok(vec![1, 0, 0, 0, pe])));
        assert_eq!(exchange.to_get(), Some((pe as u32, BootstrapKey::HeapBase)));
        exchange = exchange.advance(Event::Number(Ok(0x1000 + pe as u64)));
        assert_eq!(exchange.to_get(), None);
        match exchange.step() {
            Step::Connect { address, .. } => assert_eq!(address, &[pe, 1]),
            other => panic!("{:?}", other),
        }
        exchange = exchange.advance(Event::Connected(Ok(())));
        match exchange.step() {
            Step::Unpack { rkey, .. } => assert_eq!(rkey, &[1, 0, 0, 0, pe]),
            other => panic!("{:?}", other),
        }
        exchange = exchange.advance(Event::Unpacked(Ok(())));
    }
    let found = exchange.finish().unwrap().unwrap();
    assert_eq!(found.peers.len(), 2);
    assert_eq!(found.peers[&0], PeerConnection { heap_base: 0x1000 });
    assert_eq!(found.peers[&1], PeerConnection { heap_base: 0x1001 });
    assert_eq!(found.peer_rkeys.get(1).unwrap().rkey, [1, 0, 0, 0, 1]);
    assert_eq!(found.peer_rkeys.get(1).unwrap().heap_base, 0x1001);
    assert!(found.peer_rkeys.get(2).is_none());
}

#[test]
fn an_exchange_takes_six_calls_and_six_per_pe() {
    let mut exchange = exchange_of(3);
    let mut calls = 0;
    while !matches!(exchange.step(), Step::Done) {
        let event = match exchange.step() {
            Step::PutAddress | Step::PutRkey | Step::PutBase => Event::Put(PutOutcome::Stored),
            Step::Commit => Event::Committed(Ok(())),
            Step::ResolveAll | Step::ResolvePeer { .. } => Event::Resolved(Ok(())),
            Step::Fence => Event::Fenced(Ok(())),
            Step::GetAddress { .. } | Step::GetRkey { .. } => Event::Bytes(Ok(vec![1, 2, 3, 4])),
            Step::GetBase { .. } => Event::Number(Ok(64)),
            Step::Connect { .. } => Event::Connected(Ok(())),
            Step::Unpack { .. } => Event::Unpacked(Ok(())),
            Step::Done | Step::Failed(_) => unreachable!(),
        };
        exchange = exchange.advance(event);
        calls += 1;
    }
    assert_eq!(calls, 6 + 6 * 3);
}

#[test]
fn incomplete_metadata_is_refused() {
    let incomplete = Error::Internal("peer published incomplete bootstrap metadata");
    let good = [1, 0, 0, 0];
    for exchange in [
        asked(1, &[], &good, 1),
        asked(1, &[9], &good[..3], 1),
        asked(1, &[9], &good, 0),
    ] {
        match exchange.finish() {
            Some(Err(error)) => assert_eq!(error, incomplete),
            other => panic!("{:?}", other),
        }
    }
    assert!(matches!(asked(1, &[9], &good, 1).step(), Step::Connect { pe: 0, .. }));
}

#[test]
fn each_failed_call_ends_the_exchange() {
    let known = Some(PmixError::Status(-46));
    let pmix = Error::Pmix(PmixError::Status(-46));
    let stored = || Event::Put(PutOutcome::Stored);
    let failures = [
        (exchange_of(1).advance(Event::Put(PutOutcome::Refused(known))), pmix),
        (
            exchange_of(1).advance(Event::Put(PutOutcome::Rejected)),
            Error::Usage("bootstrap byte value must not be empty"),
        ),
        (
            exchange_of(1).advance(stored()).advance(Event::Put(PutOutcome::NotBuilt)),
            Error::Usage("failed to build bootstrap byte value"),
        ),
        (
            exchange_of(1).advance(stored()).advance(stored()).advance(Event::Put(PutOutcome::NotBuilt)),
            Error::Usage("failed to build heap base value"),
        ),
        (
            exchange_of(1)
                .advance(stored())
                .advance(stored())
                .advance(stored())
                .advance(Event::Committed(Err(None))),
            Error::Pmix(PmixError::Error),
        ),
        (past_the_fence(1).advance(Event::Resolved(Err(PmixError::Status(-46)))), pmix),
        (
            past_the_fence(1)
                .advance(Event::Resolved(Ok(())))
                .advance(Event::Bytes(Err(PmixError::Success))),
            Error::Internal("PMIx success was returned where an error was expected"),
        ),
        (
            asked(1, &[1], &[1, 2, 3, 4], 8).advance(Event::Connected(Err(UcsStatus { code: -6 }))),
            Error::Ucx(UcsStatus { code: -6 }),
        ),
        (
            asked(1, &[1], &[1, 2, 3, 4], 8)
                .advance(Event::Connected(Ok(())))
                .advance(Event::Unpacked(Err(UcsStatus { code: -5 }))),
            Error::Ucx(UcsStatus { code: -5 }),
        ),
    ];
    for (exchange, expected) in failures {
        match exchange.advance(Event::Fenced(Ok(()))).finish() {
            Some(Err(error)) => assert_eq!(error, expected),
            other => panic!("{:?}", other),
        }
    }
}

#[test]
fn no_peer_is_asked_before_the_fence() {
    let exchange = exchange_of(2).advance(Event::Fenced(Ok(()))).advance(Event::Committed(Ok(())));
    assert!(matches!(exchange.step(), Step::PutAddress));
    assert_eq!(exchange.to_get(), None);
    assert!(exchange.finish().is_none());
}

#[test]
fn raw_statuses_become_errors() {
    assert_eq!(pmix_error(None), Error::Pmix(PmixError::Error));
    assert_eq!(pmix_error(Some(PmixError::Status(-2))), Error::Pmix(PmixError::Status(-2)));
    assert_eq!(put_bytes(PutOutcome::Stored), Ok(()));
    assert_eq!(put_bytes(PutOutcome::Refused(None)), Err(Error::Pmix(PmixError::Error)));
}
