//! The out-of-band allgather through which the PEs of a job form a UCC team.
//!
//! UCC calls back when it needs the PEs to exchange a few bytes before there is a team. Each PE
//! publishes its contribution in the PMIx key-value store, and reads those of all PEs after a
//! fence.

use vstd::prelude::*;

verus! {

/// What a callback returns when it was done.
pub const OOB_DONE: i32 = 0;

/// What a callback returns when PMIx failed or a PE contributed too few or too many bytes.
pub const OOB_FAILED: i32 = -1;

/// What a callback returns when an argument is missing.
pub const OOB_INVALID: i32 = -27;

/// The name under which a PE publishes its contribution.
pub open spec fn oob_name() -> Seq<char> {
    "openshmem.ucc.oob"@
}

/// The name of a contribution holds no NUL character, so that one can mark its end.
pub proof fn law_oob_name_is_nul_free()
    ensures
        !oob_name().contains('\0'),
        oob_name() == "openshmem.ucc.oob"@,
{
    reveal_strlit("openshmem.ucc.oob");
}

/// Return the NUL-terminated name under which a contribution is published and looked up.
pub fn oob_key() -> (key: Vec<u8>)
    ensures
        key@ == vstd::utf8::encode_utf8(oob_name()).push(0),
{
    let mut key = "openshmem.ucc.oob".as_bytes_vec();
    key.push(0);
    key
}

/// The arguments of an allgather callback: which of its pointers are not null, the number of PEs
/// that `info` tells, and the number of bytes that each PE contributes.
#[derive(Debug, Clone, Copy, PartialEq, Eq, Structural)]
pub struct OobCall {
    pub src: bool,
    pub dst: bool,
    pub info: Option<u32>,
    pub request: bool,
    pub len: usize,
}

impl OobCall {
    /// No argument is missing.
    pub open spec fn complete(self) -> bool {
        self.src && self.dst && self.info is Some && self.request && self.len > 0
    }

    /// The destination has room for the contribution of each PE.
    pub open spec fn has_room(self) -> bool {
        self.info matches Some(size) ==> size * self.len <= usize::MAX
    }
}

/// An allgather: the call to make next, or how it ended.
#[derive(Debug)]
pub enum GatherStep {
    /// Publish the contribution of this PE.
    Put,
    /// Commit what was published.
    Commit,
    /// Name all PEs of the job.
    ResolveAll,
    /// Wait until every PE has committed.
    Fence,
    /// Name one PE.
    ResolvePeer { peer: u32 },
    /// Get the contribution of a PE.
    Get { peer: u32 },
    /// Copy the contribution of a PE to its place in the destination.
    Place { peer: u32, bytes: Vec<u8> },
    Done,
    Failed,
}

/// What a call of an allgather returned, as far as it matters: whether it succeeded, and with
/// which bytes.
#[derive(Debug)]
pub enum GatherEvent {
    Put(bool),
    Committed(bool),
    Resolved(bool),
    Fenced(bool),
    Bytes(Option<Vec<u8>>),
    Placed,
}

/// The step at which an allgather goes on from PE `peer`.
pub open spec fn gather_from(peer: int, size: u32) -> GatherStep {
    if peer < size {
        GatherStep::ResolvePeer { peer: peer as u32 }
    } else {
        GatherStep::Done
    }
}

/// An allgather: the number of PEs, the bytes that each contributes, and how far it has come.
#[verifier::ext_equal]
pub struct GatherModel {
    pub size: u32,
    pub len: usize,
    pub step: GatherStep,
}

impl GatherModel {
    /// An allgather at its first step.
    pub open spec fn started(size: u32, len: usize) -> GatherModel {
        GatherModel { size, len, step: GatherStep::Put }
    }

    /// The destination has room, the PE asked is one of the job, and what is placed is as long
    /// as a contribution.
    pub open spec fn wf(self) -> bool {
        &&& self.len > 0
        &&& self.size * self.len <= usize::MAX
        &&& match self.step {
            GatherStep::ResolvePeer { peer } => peer < self.size,
            GatherStep::Get { peer } => peer < self.size,
            GatherStep::Place { peer, bytes } => peer < self.size && bytes@.len() == self.len,
            _ => true,
        }
    }

    /// The allgather that follows when the call that the step asks for returned `event`. Any
    /// failure ends it. An event that does not answer the call changes nothing.
    pub open spec fn next(self, event: GatherEvent) -> GatherModel {
        let step = match (self.step, event) {
            (GatherStep::Put, GatherEvent::Put(ok)) => if ok {
                GatherStep::Commit
            } else {
                GatherStep::Failed
            },
            (GatherStep::Commit, GatherEvent::Committed(ok)) => if ok {
                GatherStep::ResolveAll
            } else {
                GatherStep::Failed
            },
            (GatherStep::ResolveAll, GatherEvent::Resolved(ok)) => if ok {
                GatherStep::Fence
            } else {
                GatherStep::Failed
            },
            (GatherStep::Fence, GatherEvent::Fenced(ok)) => if ok {
                gather_from(0, self.size)
            } else {
                GatherStep::Failed
            },
            (GatherStep::ResolvePeer { peer }, GatherEvent::Resolved(ok)) => if ok {
                GatherStep::Get { peer }
            } else {
                GatherStep::Failed
            },
            (GatherStep::Get { peer }, GatherEvent::Bytes(found)) => match found {
                Some(bytes) => if bytes@.len() == self.len {
                    GatherStep::Place { peer, bytes }
                } else {
                    GatherStep::Failed
                },
                None => GatherStep::Failed,
            },
            (GatherStep::Place { peer, bytes }, GatherEvent::Placed) => gather_from(
                peer + 1,
                self.size,
            ),
            _ => self.step,
        };
        GatherModel { step, ..self }
    }

    /// The allgather after a sequence of events.
    pub open spec fn run(self, events: Seq<GatherEvent>) -> GatherModel
        decreases events.len(),
    {
        if events.len() == 0 {
            self
        } else {
            self.run(events.drop_last()).next(events.last())
        }
    }

    /// Every step keeps an allgather well formed.
    pub proof fn law_gather_stays_in_bounds(self, event: GatherEvent)
        requires
            self.wf(),
        ensures
            self.next(event).wf(),
    {
    }

    /// How many contributions are in their place.
    pub open spec fn placed(self) -> int {
        match self.step {
            GatherStep::ResolvePeer { peer } => peer as int,
            GatherStep::Get { peer } => peer as int,
            GatherStep::Place { peer, .. } => peer as int,
            GatherStep::Done => self.size as int,
            _ => 0,
        }
    }
}

/// A destination with some of its bytes overwritten.
pub open spec fn overwritten(dst: Seq<u8>, at: int, bytes: Seq<u8>) -> Seq<u8> {
    dst.take(at) + bytes + dst.skip(at + bytes.len())
}

/// What a destination that began as `dst` holds after a sequence of events, where each
/// contribution was copied to its place.
pub open spec fn destination(start: GatherModel, events: Seq<GatherEvent>, dst: Seq<u8>) -> Seq<u8>
    decreases events.len(),
{
    if events.len() == 0 {
        dst
    } else {
        let so_far = destination(start, events.drop_last(), dst);
        match (start.run(events.drop_last()).step, events.last()) {
            (GatherStep::Place { peer, bytes }, GatherEvent::Placed) => overwritten(
                so_far,
                peer * start.len,
                bytes@,
            ),
            _ => so_far,
        }
    }
}

/// Whether PE `peer` was asked for its contribution and answered with `bytes`.
pub open spec fn contributed(
    start: GatherModel,
    events: Seq<GatherEvent>,
    peer: int,
    bytes: Vec<u8>,
) -> bool {
    exists|i: int|
        0 <= i < events.len() && #[trigger] events[i] == GatherEvent::Bytes(Some(bytes))
            && start.run(events.take(i)).step == (GatherStep::Get { peer: peer as u32 })
}

proof fn lemma_contributed_before(
    start: GatherModel,
    events: Seq<GatherEvent>,
    peer: int,
    bytes: Vec<u8>,
)
    requires
        events.len() > 0,
        contributed(start, events.drop_last(), peer, bytes),
    ensures
        contributed(start, events, peer, bytes),
{
    let before = events.drop_last();
    let i = choose|i: int|
        0 <= i < before.len() && #[trigger] before[i] == GatherEvent::Bytes(Some(bytes))
            && start.run(before.take(i)).step == (GatherStep::Get { peer: peer as u32 });
    assert(events[i] == before[i]);
    assert(events.take(i) =~= before.take(i));
}

/// What has been gathered by the time an allgather stands where it stands.
spec fn gathered(
    start: GatherModel,
    events: Seq<GatherEvent>,
    dst: Seq<u8>,
    parts: Seq<Vec<u8>>,
) -> bool {
    let now = start.run(events);
    let to = destination(start, events, dst);
    &&& parts.len() == now.placed()
    &&& to.len() == dst.len()
    &&& forall|p: int|
        0 <= p < parts.len() ==> contributed(start, events, p, #[trigger] parts[p])
            && to.subrange(p * start.len, p * start.len + start.len) == parts[p]@
    &&& now.step matches GatherStep::Place { peer, bytes } ==> contributed(
        start,
        events,
        peer as int,
        bytes,
    )
}

proof fn lemma_gathered(start: GatherModel, events: Seq<GatherEvent>, dst: Seq<u8>) -> (parts: Seq<
    Vec<u8>,
>)
    requires
        start.wf(),
        start.step == GatherStep::Put,
        dst.len() == start.size * start.len,
    ensures
        start.run(events).wf(),
        start.run(events).size == start.size,
        start.run(events).len == start.len,
        gathered(start, events, dst, parts),
    decreases events.len(),
{
    if events.len() == 0 {
        seq![]
    } else {
        let n = events.len() - 1;
        let before = events.drop_last();
        let parts = lemma_gathered(start, before, dst);
        let was = start.run(before);
        let now = start.run(events);
        was.law_gather_stays_in_bounds(events.last());
        assert forall|p: int| 0 <= p < parts.len() implies contributed(
            start,
            events,
            p,
            #[trigger] parts[p],
        ) by {
            lemma_contributed_before(start, events, p, parts[p]);
        }
        match (was.step, events.last()) {
            (GatherStep::Place { peer, bytes }, GatherEvent::Placed) => {
                let so_far = destination(start, before, dst);
                let to = destination(start, events, dst);
                let len = start.len as int;
                lemma_contributed_before(start, events, peer as int, bytes);
                assert(0 <= peer * len && peer * len + len <= start.size * len) by (nonlinear_arith)
                    requires
                        0 <= peer < start.size,
                        len > 0,
                ;
                let longer = parts.push(bytes);
                assert forall|p: int| 0 <= p < longer.len() implies contributed(
                    start,
                    events,
                    p,
                    #[trigger] longer[p],
                ) && to.subrange(p * len, p * len + len) == longer[p]@ by {
                    if p < parts.len() {
                        assert(0 <= p * len && p * len + len <= peer * len) by (nonlinear_arith)
                            requires
                                0 <= p < peer,
                                len > 0,
                        ;
                        assert(to.subrange(p * len, p * len + len) =~= so_far.subrange(
                            p * len,
                            p * len + len,
                        ));
                        assert(longer[p] == parts[p]);
                    } else {
                        assert(to.subrange(p * len, p * len + len) =~= bytes@);
                    }
                }
                longer
            },
            (GatherStep::Get { peer }, GatherEvent::Bytes(Some(bytes))) => {
                if bytes@.len() == start.len {
                    assert(events[n] == GatherEvent::Bytes(Some(bytes)));
                    assert(events.take(n) =~= before);
                    assert(contributed(start, events, peer as int, bytes));
                    parts
                } else {
                    seq![]
                }
            },
            _ => {
                if was.step is Place {
                    lemma_contributed_before(
                        start,
                        events,
                        was.step->Place_peer as int,
                        was.step->Place_bytes,
                    );
                }
                if now.step is Failed {
                    seq![]
                } else {
                    parts
                }
            },
        }
    }
}

/// An allgather that is done has placed the contribution of every PE, each as the PE answered
/// when it was asked, in rank order.
pub proof fn law_gather_is_in_rank_order(
    size: u32,
    len: usize,
    events: Seq<GatherEvent>,
    dst: Seq<u8>,
)
    requires
        GatherModel::started(size, len).wf(),
        GatherModel::started(size, len).run(events).step == GatherStep::Done,
        dst.len() == size * len,
    ensures
        ({
            let start = GatherModel::started(size, len);
            let to = destination(start, events, dst);
            &&& to.len() == dst.len()
            &&& exists|parts: Seq<Vec<u8>>|
                #![trigger parts.len()]
                parts.len() == size && forall|p: int|
                    0 <= p < size ==> contributed(start, events, p, #[trigger] parts[p])
                        && to.subrange(p * len, p * len + len) == parts[p]@
        }),
{
    let start = GatherModel::started(size, len);
    let parts = lemma_gathered(start, events, dst);
    assert(parts.len() == size);
}

impl GatherStep {
    /// Whether an event answers the call that this step asks for.
    pub open spec fn answered_by(self, event: GatherEvent) -> bool {
        match self {
            GatherStep::Put => event is Put,
            GatherStep::Commit => event is Committed,
            GatherStep::ResolveAll | GatherStep::ResolvePeer { .. } => event is Resolved,
            GatherStep::Fence => event is Fenced,
            GatherStep::Get { .. } => event is Bytes,
            GatherStep::Place { .. } => event is Placed,
            GatherStep::Done | GatherStep::Failed => false,
        }
    }

    /// How many calls an allgather between `size` PEs still takes, where all of them succeed: four
    /// to publish, and three for each PE.
    pub open spec fn calls_left(self, size: u32) -> int {
        match self {
            GatherStep::Put => 4 + 3 * size,
            GatherStep::Commit => 3 + 3 * size,
            GatherStep::ResolveAll => 2 + 3 * size,
            GatherStep::Fence => 1 + 3 * size,
            GatherStep::ResolvePeer { peer } => 3 * (size - peer),
            GatherStep::Get { peer } => 3 * (size - peer) - 1,
            GatherStep::Place { peer, .. } => 3 * (size - peer) - 2,
            GatherStep::Done | GatherStep::Failed => 0,
        }
    }
}

/// An allgather in which each event answers the call asked for ends after at most as many calls as
/// it takes where all succeed, and has ended exactly where no call is left.
pub proof fn law_gather_ends(size: u32, len: usize, events: Seq<GatherEvent>)
    requires
        GatherModel::started(size, len).wf(),
        forall|i: int|
            0 <= i < events.len() ==> GatherModel::started(size, len).run(
                events.take(i),
            ).step.answered_by(#[trigger] events[i]),
    ensures
        ({
            let step = GatherModel::started(size, len).run(events).step;
            &&& GatherModel::started(size, len).run(events).wf()
            &&& GatherModel::started(size, len).run(events).size == size
            &&& events.len() + step.calls_left(size) <= 4 + 3 * size
            &&& !(step is Failed) ==> events.len() + step.calls_left(size) == 4 + 3 * size
            &&& step is Done || step is Failed <==> step.calls_left(size) == 0
        }),
    decreases events.len(),
{
    let start = GatherModel::started(size, len);
    if events.len() > 0 {
        let n = events.len() - 1;
        let before = events.drop_last();
        assert forall|i: int| 0 <= i < before.len() implies start.run(
            before.take(i),
        ).step.answered_by(#[trigger] before[i]) by {
            assert(before[i] == events[i]);
            assert(before.take(i) =~= events.take(i));
        }
        law_gather_ends(size, len, before);
        assert(events.take(n) =~= before);
        assert(start.run(before).step.answered_by(events[n]));
        start.run(before).law_gather_stays_in_bounds(events[n]);
    }
}

/// Whether an allgather is past the fence: PEs are being asked for their contributions, or all
/// were.
pub open spec fn gather_past_fence(step: GatherStep) -> bool {
    match step {
        GatherStep::ResolvePeer { .. } | GatherStep::Get { .. } | GatherStep::Place { .. }
        | GatherStep::Done => true,
        _ => false,
    }
}

/// Whether a successful commit came before a successful fence.
pub open spec fn gather_fenced(events: Seq<GatherEvent>) -> bool {
    exists|i: int, j: int|
        #![trigger events[i], events[j]]
        0 <= i < j < events.len() && events[i] == GatherEvent::Committed(true) && events[j]
            == GatherEvent::Fenced(true)
}

spec fn gather_saw(step: GatherStep, events: Seq<GatherEvent>) -> bool {
    match step {
        GatherStep::ResolveAll | GatherStep::Fence => exists|i: int|
            0 <= i < events.len() && #[trigger] events[i] == GatherEvent::Committed(true),
        _ => gather_past_fence(step) ==> gather_fenced(events),
    }
}

proof fn lemma_gather_saw(start: GatherModel, events: Seq<GatherEvent>)
    requires
        start.step == GatherStep::Put,
    ensures
        gather_saw(start.run(events).step, events),
    decreases events.len(),
{
    if events.len() > 0 {
        let n = events.len() - 1;
        let before = events.drop_last();
        lemma_gather_saw(start, before);
        assert(forall|i: int| 0 <= i < n ==> before[i] == #[trigger] events[i]);
        let step = start.run(before).step;
        if gather_fenced(before) {
            let (i, j) = choose|i: int, j: int|
                #![trigger before[i], before[j]]
                0 <= i < j < before.len() && before[i] == GatherEvent::Committed(true)
                    && before[j] == GatherEvent::Fenced(true);
            assert(events[i] == before[i] && events[j] == before[j]);
        }
        if step is ResolveAll || step is Fence {
            let i = choose|i: int|
                0 <= i < before.len() && #[trigger] before[i] == GatherEvent::Committed(true);
            assert(events[i] == before[i]);
        }
        assert(events[n] == events.last());
    }
}

/// No PE is asked for its contribution before this PE has committed its own and the fence has
/// been passed.
pub proof fn law_gather_fences_before_any_get(size: u32, len: usize, events: Seq<GatherEvent>)
    requires
        gather_past_fence(GatherModel::started(size, len).run(events).step),
    ensures
        gather_fenced(events),
{
    lemma_gather_saw(GatherModel::started(size, len), events);
}

/// A call is complete exactly where no pointer is null and there is something to contribute.
pub proof fn law_complete_call_lacks_nothing(call: OobCall)
    ensures
        call.complete() <==> call.src && call.dst && call.request && call.len != 0
            && !(call.info is None),
        call.info matches Some(size) ==> (call.has_room() <==> size * call.len <= usize::MAX),
{
}

/// An allgather fails exactly where the call that it asked for failed, or brought a contribution
/// that is not as long as this PE's. One that has ended stays as it ended.
pub proof fn law_gather_fails_only_for_a_failed_call(gather: GatherModel, event: GatherEvent)
    requires
        !(gather.step is Failed),
    ensures
        gather.next(event).step is Failed <==> match event {
            GatherEvent::Put(ok) => gather.step is Put && !ok,
            GatherEvent::Committed(ok) => gather.step is Commit && !ok,
            GatherEvent::Resolved(ok) => (gather.step is ResolveAll || gather.step is ResolvePeer)
                && !ok,
            GatherEvent::Fenced(ok) => gather.step is Fence && !ok,
            GatherEvent::Bytes(found) => gather.step is Get && !(found matches Some(bytes)
                && bytes@.len() == gather.len),
            GatherEvent::Placed => false,
        },
        gather.step is Done ==> gather.next(event) == gather,
        gather.next(event).size == gather.size,
        gather.next(event).len == gather.len,
{
}

/// An event that does not answer the call that an allgather asks for changes nothing. An allgather
/// that has ended asks for none.
pub proof fn law_stray_event_changes_no_gather(gather: GatherModel, event: GatherEvent)
    requires
        !(gather.step is Put && event is Put),
        !(gather.step is Commit && event is Committed),
        !(gather.step is ResolveAll && event is Resolved),
        !(gather.step is Fence && event is Fenced),
        !(gather.step is ResolvePeer && event is Resolved),
        !(gather.step is Get && event is Bytes),
        !(gather.step is Place && event is Placed),
    ensures
        gather.next(event) == gather,
{
}

/// Where every call succeeds, an allgather publishes, commits and fences once, and then asks each PE
/// in turn, places what that PE contributed, and goes on to the next PE until none is left.
pub proof fn law_gather_asks_each_pe_in_turn(gather: GatherModel)
    requires
        gather.wf(),
    ensures
        gather.step is Put ==> gather.next(GatherEvent::Put(true)).step is Commit,
        gather.step is Commit ==> gather.next(GatherEvent::Committed(true)).step is ResolveAll,
        gather.step is ResolveAll ==> gather.next(GatherEvent::Resolved(true)).step is Fence,
        gather.step is Fence ==> {
            let after = gather.next(GatherEvent::Fenced(true)).step;
            if gather.size == 0 {
                after is Done
            } else {
                after matches GatherStep::ResolvePeer { peer } && peer == 0
            }
        },
        gather.step matches GatherStep::ResolvePeer { peer } ==> (gather.next(
            GatherEvent::Resolved(true),
        ).step matches GatherStep::Get { peer: asked } && asked == peer),
        gather.step matches GatherStep::Get { peer } ==> forall|bytes: Vec<u8>|
            bytes@.len() == gather.len ==> (#[trigger] gather.next(
                GatherEvent::Bytes(Some(bytes)),
            )).step == (GatherStep::Place { peer, bytes }),
        gather.step matches GatherStep::Place { peer, .. } ==> {
            let after = gather.next(GatherEvent::Placed).step;
            if peer + 1 == gather.size {
                after is Done
            } else {
                after matches GatherStep::ResolvePeer { peer: next } && next == peer + 1
            }
        },
{
}

/// An allgather between the PEs of a job.
#[derive(Debug)]
pub struct Gather {
    size: u32,
    len: usize,
    step: GatherStep,
}

impl View for Gather {
    type V = GatherModel;

    closed spec fn view(&self) -> GatherModel {
        GatherModel { size: self.size, len: self.len, step: self.step }
    }
}

/// Begin an allgather, or return the status of a call with missing arguments.
pub fn allgather(call: OobCall) -> (begun: std::result::Result<Gather, i32>)
    requires
        call.complete() ==> call.has_room(),
    ensures
        match begun {
            Ok(gather) => call.complete() && gather@.wf() && gather@ == GatherModel::started(
                call.info->Some_0,
                call.len,
            ),
            Err(status) => !call.complete() && status == OOB_INVALID,
        },
        begun is Ok <==> call.src && call.dst && call.request && call.len > 0 && call.info is Some,
        begun matches Ok(gather) ==> gather@.step is Put && gather@.len == call.len && call.info
            == Some(gather@.size),
        begun matches Err(status) ==> status == -27,
{
    if !call.src || !call.dst || !call.request || call.len == 0 {
        return Err(OOB_INVALID);
    }
    match call.info {
        Some(size) => Ok(Gather { size, len: call.len, step: GatherStep::Put }),
        None => Err(OOB_INVALID),
    }
}

/// The outcome of an allgather, kept until UCC frees it.
#[derive(Debug, PartialEq, Eq)]
pub struct OobRequest {
    pub status: i32,
}

/// Return the status of a request, where there is one.
pub fn req_test(request: Option<&OobRequest>) -> (status: i32)
    ensures
        status == match request {
            Some(request) => request.status,
            None => OOB_INVALID,
        },
        request is None ==> status == -27,
{
    match request {
        Some(request) => request.status,
        None => OOB_INVALID,
    }
}

/// Free a request, where there is one.
pub fn req_free(request: Option<OobRequest>) -> (status: i32)
    ensures
        status == match request {
            Some(_) => OOB_DONE,
            None => OOB_INVALID,
        },
        request is Some ==> status == 0,
        request is None ==> status == -27,
{
    match request {
        Some(_) => OOB_DONE,
        None => OOB_INVALID,
    }
}

impl Gather {
    /// Return the call to make next.
    pub fn step(&self) -> (step: &GatherStep)
        ensures
            *step == self@.step,
    {
        &self.step
    }

    /// Return the bytes to copy next, and where in the destination they belong.
    pub fn placement(&self) -> (placement: Option<(usize, &[u8])>)
        requires
            self@.wf(),
        ensures
            match self@.step {
                GatherStep::Place { peer, bytes } => placement matches Some((at, part)) && at == peer
                    * self@.len && part@ == bytes@ && at + part@.len() <= self@.size * self@.len,
                _ => placement is None,
            },
    {
        match &self.step {
            GatherStep::Place { peer, bytes } => {
                let peer = *peer as usize;
                assert(0 <= peer * self.len && peer * self.len + self.len <= self.size * self.len)
                    by (nonlinear_arith)
                    requires
                        0 <= peer < self.size,
                        self.len > 0,
                ;
                Some((peer * self.len, bytes.as_slice()))
            },
            _ => None,
        }
    }

    /// Take note of what a call returned.
    pub fn advance(self, event: GatherEvent) -> (after: Gather)
        requires
            self@.wf(),
        ensures
            after@ == self@.next(event),
            after@.wf(),
    {
        let ghost before = self@;
        let Gather { size, len, step } = self;
        let next = match (step, event) {
            (GatherStep::Put, GatherEvent::Put(ok)) => if ok {
                GatherStep::Commit
            } else {
                GatherStep::Failed
            },
            (GatherStep::Commit, GatherEvent::Committed(ok)) => if ok {
                GatherStep::ResolveAll
            } else {
                GatherStep::Failed
            },
            (GatherStep::ResolveAll, GatherEvent::Resolved(ok)) => if ok {
                GatherStep::Fence
            } else {
                GatherStep::Failed
            },
            (GatherStep::Fence, GatherEvent::Fenced(ok)) => if !ok {
                GatherStep::Failed
            } else if size > 0 {
                GatherStep::ResolvePeer { peer: 0 }
            } else {
                GatherStep::Done
            },
            (GatherStep::ResolvePeer { peer }, GatherEvent::Resolved(ok)) => if ok {
                GatherStep::Get { peer }
            } else {
                GatherStep::Failed
            },
            (GatherStep::Get { peer }, GatherEvent::Bytes(found)) => match found {
                Some(bytes) => if bytes.len() == len {
                    GatherStep::Place { peer, bytes }
                } else {
                    GatherStep::Failed
                },
                None => GatherStep::Failed,
            },
            (GatherStep::Place { peer, .. }, GatherEvent::Placed) => if peer + 1 < size {
                GatherStep::ResolvePeer { peer: peer + 1 }
            } else {
                GatherStep::Done
            },
            (step, _) => step,
        };
        let after = Gather { size, len, step: next };
        proof {
            before.law_gather_stays_in_bounds(event);
        }
        after
    }

    /// Return the request to hand to UCC, once the allgather has ended. Its status is also what
    /// the callback returns.
    pub fn request(&self) -> (request: Option<OobRequest>)
        ensures
            request == match self@.step {
                GatherStep::Done => Some(OobRequest { status: OOB_DONE }),
                GatherStep::Failed => Some(OobRequest { status: OOB_FAILED }),
                _ => None,
            },
            self@.step is Done ==> request->Some_0.status == 0,
            self@.step is Failed ==> request->Some_0.status == -1,
    {
        match &self.step {
            GatherStep::Done => Some(OobRequest { status: OOB_DONE }),
            GatherStep::Failed => Some(OobRequest { status: OOB_FAILED }),
            _ => None,
        }
    }
}

} // verus!
