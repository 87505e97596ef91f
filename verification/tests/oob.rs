use openshmem::oob::{
    allgather, oob_key, req_free, req_test, Gather, GatherEvent, GatherStep, OobCall, OobRequest,
    OOB_DONE, OOB_FAILED, OOB_INVALID,
};

const CALL: OobCall = OobCall { src: true, dst: true, info: Some(3), request: true, len: 2 };

fn fenced_gather() -> Gather {
    allgather(CALL)
        .unwrap()
        .advance(GatherEvent::Put(true))
        .advance(GatherEvent::Committed(true))
        .advance(GatherEvent::Resolved(true))
        .advance(GatherEvent::Fenced(true))
}

#[test]
fn the_oob_key_is_nul_terminated() {
    assert_eq!(oob_key(), b"openshmem.ucc.oob\0");
}

#[test]
fn missing_arguments_are_refused() {
    for call in [
        OobCall { src: false, ..CALL },
        OobCall { dst: false, ..CALL },
        OobCall { info: None, ..CALL },
        OobCall { request: false, ..CALL },
        OobCall { len: 0, ..CALL },
        OobCall { dst: false, len: usize::MAX, ..CALL },
    ] {
        assert!(matches!(allgather(call), Err(-27)));
    }
    assert_eq!(OOB_INVALID, -27);
}

#[test]
fn contributions_are_placed_in_rank_order() {
    let mut gather = fenced_gather();
    let mut destination = [0xff_u8; 6];
    let mut calls = 4;
    for peer in 0..3_u8 {
        assert!(matches!(gather.step(), GatherStep::ResolvePeer { peer: at } if *at == peer as u32));
        gather = gather.advance(GatherEvent::Resolved(true));
        gather = gather.advance(GatherEvent::Bytes(Some(vec![peer, 10 + peer])));
        assert!(gather.request().is_none());
        let (at, bytes) = gather.placement().unwrap();
        assert_eq!(at, 2 * peer as usize);
        destination[at..at + bytes.len()].copy_from_slice(bytes);
        gather = gather.advance(GatherEvent::Placed);
        calls += 3;
    }
    assert_eq!(calls, 4 + 3 * 3);
    assert!(gather.placement().is_none());
    assert_eq!(gather.request(), Some(OobRequest { status: 0 }));
    assert_eq!(destination, [0, 10, 1, 11, 2, 12]);
}

#[test]
fn a_contribution_of_another_length_is_refused() {
    for bytes in [vec![], vec![1], vec![1, 2, 3]] {
        let gather = fenced_gather()
            .advance(GatherEvent::Resolved(true))
            .advance(GatherEvent::Bytes(Some(bytes)));
        assert_eq!(gather.request(), Some(OobRequest { status: OOB_FAILED }));
    }
    assert_eq!(OOB_FAILED, -1);
}

#[test]
fn each_failed_call_ends_an_allgather() {
    let failed = Some(OobRequest { status: -1 });
    let begun = || allgather(CALL).unwrap();
    assert_eq!(begun().advance(GatherEvent::Put(false)).request(), failed);
    let put = || begun().advance(GatherEvent::Put(true));
    assert_eq!(put().advance(GatherEvent::Committed(false)).request(), failed);
    let committed = || put().advance(GatherEvent::Committed(true));
    assert_eq!(committed().advance(GatherEvent::Resolved(false)).request(), failed);
    let resolved = || committed().advance(GatherEvent::Resolved(true));
    assert_eq!(resolved().advance(GatherEvent::Fenced(false)).request(), failed);
    assert_eq!(fenced_gather().advance(GatherEvent::Resolved(false)).request(), failed);
    let get = fenced_gather().advance(GatherEvent::Resolved(true));
    assert_eq!(get.advance(GatherEvent::Bytes(None)).request(), failed);
    assert!(matches!(put().advance(GatherEvent::Fenced(true)).step(), GatherStep::Commit));
}

#[test]
fn a_gather_without_pes_is_done_after_the_fence() {
    let gather = allgather(OobCall { info: Some(0), ..CALL })
        .unwrap()
        .advance(GatherEvent::Put(true))
        .advance(GatherEvent::Committed(true))
        .advance(GatherEvent::Resolved(true))
        .advance(GatherEvent::Fenced(true));
    assert_eq!(gather.request(), Some(OobRequest { status: OOB_DONE }));
}

#[test]
fn requests_are_tested_and_freed() {
    let request = OobRequest { status: -1 };
    assert_eq!(req_test(Some(&request)), -1);
    assert_eq!(req_test(None), -27);
    assert_eq!(req_free(Some(request)), 0);
    assert_eq!(req_free(None), -27);
}
