//! What a symmetric heap is: a run of bytes tiled by free spans and live allocations.

use vstd::prelude::*;

use crate::error::{Error, Result, UcsStatus};
use crate::symheap::SymPtr;

verus! {

/// Every allocation starts at a multiple of this many bytes from the heap base.
pub const ALIGNMENT: usize = 8;

/// A run of bytes, by its offset from the heap base.
pub struct Span {
    pub start: int,
    pub len: int,
}

impl Span {
    pub open spec fn end(self) -> int {
        self.start + self.len
    }

    pub open spec fn has(self, offset: int) -> bool {
        self.start <= offset < self.end()
    }

    /// Whether two spans share no byte.
    pub open spec fn apart(self, other: Span) -> bool {
        self.end() <= other.start || other.end() <= self.start
    }

    /// A nonempty span of whole alignment units inside a heap of `capacity` bytes.
    pub open spec fn inside(self, capacity: int) -> bool {
        &&& 0 <= self.start
        &&& 0 < self.len
        &&& self.end() <= capacity
        &&& self.start % (ALIGNMENT as int) == 0
        &&& self.len % (ALIGNMENT as int) == 0
    }
}

/// Whether some span holds the byte at `offset`.
pub open spec fn in_spans(spans: Seq<Span>, offset: int) -> bool {
    exists|i: int| 0 <= i < spans.len() && (#[trigger] spans[i]).has(offset)
}

/// Spans in address order with at least one byte between any two.
pub open spec fn separated(spans: Seq<Span>) -> bool {
    forall|i: int, j: int|
        #![trigger spans[i], spans[j]]
        0 <= i < j < spans.len() ==> spans[i].end() < spans[j].start
}

/// The smallest multiple of the alignment that is at least `size`.
pub open spec fn align_up(size: int) -> int {
    (size + ALIGNMENT - 1) / (ALIGNMENT as int) * ALIGNMENT
}

/// The bytes of the whole alignment units among `size` bytes.
pub open spec fn whole_units(size: int) -> int {
    size / (ALIGNMENT as int) * ALIGNMENT
}

/// The first span, at or after index `from`, of at least `len` bytes.
pub open spec fn first_fit_from(spans: Seq<Span>, len: int, from: int) -> Option<int>
    decreases spans.len() - from,
{
    if from >= spans.len() {
        None
    } else if spans[from].len >= len {
        Some(from)
    } else {
        first_fit_from(spans, len, from + 1)
    }
}

/// The first span of at least `len` bytes.
pub open spec fn first_fit(spans: Seq<Span>, len: int) -> Option<int> {
    first_fit_from(spans, len, 0)
}

/// A symmetric heap: where it lies, what is free and what is allocated.
#[verifier::ext_equal]
pub struct HeapModel {
    /// The local address of the first byte.
    pub base: int,
    /// The number of bytes.
    pub capacity: int,
    /// The free spans, by offset from the base.
    pub free: Seq<Span>,
    /// The live allocations: address of the first byte to number of bytes.
    pub live: Map<usize, usize>,
    /// The packed rkey under which the heap is registered.
    pub rkey: Seq<u8>,
}

impl HeapModel {
    /// The bytes of the live allocation at address `addr`.
    pub open spec fn live_span(self, addr: usize) -> Span {
        Span { start: addr - self.base, len: self.live[addr] as int }
    }

    /// Whether some live allocation holds the byte at `offset`.
    pub open spec fn in_live(self, offset: int) -> bool {
        exists|addr: usize|
            #[trigger] self.live.contains_key(addr) && self.live_span(addr).has(offset)
    }

    /// The number of bytes that can be allocated: those of whole alignment units.
    pub open spec fn usable(self) -> int {
        whole_units(self.capacity)
    }

    /// The heap lies at an aligned address. The whole alignment units of the heap are tiled by
    /// its free spans and its live allocations: each byte belongs to exactly one of them, and
    /// neighbouring free spans are merged.
    pub open spec fn wf(self) -> bool {
        &&& 0 <= self.base
        &&& self.base % (ALIGNMENT as int) == 0
        &&& self.base + self.capacity <= usize::MAX
        &&& ALIGNMENT <= self.capacity
        &&& separated(self.free)
        &&& forall|i: int|
            0 <= i < self.free.len() ==> (#[trigger] self.free[i]).inside(self.capacity)
        &&& forall|a: usize| #[trigger]
            self.live.contains_key(a) ==> self.live_span(a).inside(self.capacity)
        &&& forall|a: usize, b: usize|
            #![trigger self.live.contains_key(a), self.live.contains_key(b)]
            self.live.contains_key(a) && self.live.contains_key(b) && a != b
                ==> self.live_span(a).apart(self.live_span(b))
        &&& forall|a: usize, i: int|
            #![trigger self.live.contains_key(a), self.free[i]]
            self.live.contains_key(a) && 0 <= i < self.free.len() ==> self.live_span(a).apart(
                self.free[i],
            )
        &&& forall|x: int|
            0 <= x < self.usable() ==> #[trigger] in_spans(self.free, x) || self.in_live(x)
    }

    /// The heap after `len` bytes are taken from the front of free span `k`.
    pub open spec fn carve(self, k: int, len: int) -> HeapModel {
        let block = self.free[k];
        HeapModel {
            free: if block.len == len {
                self.free.remove(k)
            } else {
                self.free.update(k, Span { start: block.start + len, len: block.len - len })
            },
            live: self.live.insert((self.base + block.start) as usize, len as usize),
            ..self
        }
    }

    /// What an allocation of `size` bytes returns, and the heap it leaves: the first free span
    /// that is long enough gives up its front; a refused request changes nothing.
    pub open spec fn mallocs(self, size: int, result: Result<SymPtr>, after: HeapModel) -> bool {
        if size == 0 {
            &&& result == Err::<SymPtr, Error>(
                Error::Usage("symmetric allocation size must be nonzero"),
            )
            &&& after == self
        } else if size + ALIGNMENT - 1 > usize::MAX {
            &&& result == Err::<SymPtr, Error>(Error::Usage("symmetric allocation size overflow"))
            &&& after == self
        } else {
            match first_fit(self.free, align_up(size)) {
                None => {
                    &&& result == Err::<SymPtr, Error>(Error::Usage("symmetric heap exhausted"))
                    &&& after == self
                },
                Some(k) => {
                    &&& result matches Ok(ptr)
                    &&& ptr.addr() == self.base + self.free[k].start
                    &&& after == self.carve(k, align_up(size))
                },
            }
        }
    }

    /// What returning the allocation at `ptr` returns, and the heap it leaves: the bytes of the
    /// allocation are free again; a pointer that is not live is refused and changes nothing.
    pub open spec fn frees(self, ptr: SymPtr, result: Result<()>, after: HeapModel) -> bool {
        if self.live.contains_key(ptr.addr()) {
            &&& result == Ok::<(), Error>(())
            &&& after.wf()
            &&& after.base == self.base
            &&& after.capacity == self.capacity
            &&& after.live == self.live.remove(ptr.addr())
            &&& after.rkey == self.rkey
            &&& forall|x: int| #[trigger]
                in_spans(after.free, x) <==> in_spans(self.free, x) || self.live_span(
                    ptr.addr(),
                ).has(x)
        } else {
            &&& result == Err::<(), Error>(Error::Usage("invalid symmetric pointer"))
            &&& after == self
        }
    }
}

pub proof fn lemma_carve_wf(m: HeapModel, k: int, len: int)
    requires
        m.wf(),
        0 <= k < m.free.len(),
        0 < len <= m.free[k].len,
        len % (ALIGNMENT as int) == 0,
    ensures
        m.carve(k, len).wf(),
        !m.live.contains_key((m.base + m.free[k].start) as usize),
{
    let n = m.carve(k, len);
    let block = m.free[k];
    let at = (m.base + block.start) as usize;
    assert(block.inside(m.capacity));
    assert(at == m.base + block.start);
    if m.live.contains_key(at) {
        assert(m.live_span(at).inside(m.capacity));
        assert(m.live_span(at).apart(m.free[k]));
    }
    assert(n.live_span(at) == Span { start: block.start, len: len });
    assert forall|a: usize| a != at && m.live.contains_key(a) implies #[trigger] n.live_span(a)
        == m.live_span(a) by {}
    assert forall|i: int| 0 <= i < n.free.len() implies (#[trigger] n.free[i]).inside(
        n.capacity,
    ) && n.live_span(at).apart(n.free[i]) by {
        if block.len == len {
            let j = if i < k { i } else { i + 1 };
            assert(n.free[i] == m.free[j]);
            assert(m.free[j].inside(m.capacity));
        } else {
            assert(m.free[i].inside(m.capacity));
        }
    }
    assert forall|i: int, j: int|
        #![trigger n.free[i], n.free[j]]
        0 <= i < j < n.free.len() implies n.free[i].end() < n.free[j].start by {
        if block.len == len {
            let i0 = if i < k { i } else { i + 1 };
            let j0 = if j < k { j } else { j + 1 };
            assert(n.free[i] == m.free[i0] && n.free[j] == m.free[j0]);
        } else {
            assert(m.free[i].end() < m.free[j].start);
        }
    }
    assert forall|a: usize, i: int|
        #![trigger n.live.contains_key(a), n.free[i]]
        n.live.contains_key(a) && 0 <= i < n.free.len() implies n.live_span(a).apart(
        n.free[i],
    ) by {
        if a != at {
            assert(m.live.contains_key(a));
            if block.len == len {
                let j = if i < k { i } else { i + 1 };
                assert(n.free[i] == m.free[j]);
            } else {
                assert(m.live_span(a).apart(m.free[i]));
            }
        }
    }
    assert forall|a: usize, b: usize|
        #![trigger n.live.contains_key(a), n.live.contains_key(b)]
        n.live.contains_key(a) && n.live.contains_key(b) && a != b implies n.live_span(a).apart(
        n.live_span(b),
    ) by {
        if a != at {
            assert(m.live.contains_key(a));
            assert(m.live_span(a).apart(m.free[k]));
        }
        if b != at {
            assert(m.live.contains_key(b));
            assert(m.live_span(b).apart(m.free[k]));
        }
    }
    assert forall|a: usize| #[trigger] n.live.contains_key(a) implies n.live_span(a).inside(
        n.capacity,
    ) by {
        if a != at {
            assert(m.live.contains_key(a));
        }
    }
    assert forall|x: int| 0 <= x < n.usable() implies #[trigger] in_spans(n.free, x) || n.in_live(
        x,
    ) by {
        assert(in_spans(m.free, x) || m.in_live(x));
        if in_spans(m.free, x) {
            let i = choose|i: int| 0 <= i < m.free.len() && (#[trigger] m.free[i]).has(x);
            if i == k && x < block.start + len {
                assert(n.live.contains_key(at));
                assert(n.live_span(at).has(x));
            } else if block.len == len {
                let j = if i < k { i } else { i - 1 };
                assert(n.free[j] == m.free[i]);
                assert(n.free[j].has(x));
            } else {
                assert(n.free[i].has(x));
            }
        } else {
            let a = choose|a: usize| #[trigger]
                m.live.contains_key(a) && m.live_span(a).has(x);
            assert(n.live.contains_key(a));
            assert(n.live_span(a).has(x));
        }
    }
}

/// Two merged lists of spans that hold the same bytes are the same list.
proof fn lemma_spans_canonical(a: Seq<Span>, b: Seq<Span>)
    requires
        separated(a),
        separated(b),
        forall|i: int| 0 <= i < a.len() ==> 0 < (#[trigger] a[i]).len,
        forall|i: int| 0 <= i < b.len() ==> 0 < (#[trigger] b[i]).len,
        forall|x: int| #[trigger] in_spans(a, x) <==> in_spans(b, x),
    ensures
        a =~= b,
    decreases a.len(),
{
    if a.len() == 0 {
        if b.len() > 0 {
            assert(b[0].has(b[0].start));
            assert(in_spans(b, b[0].start));
            assert(in_spans(a, b[0].start));
        }
    } else {
        assert(a[0].has(a[0].start));
        assert(in_spans(a, a[0].start));
        let i = choose|i: int| 0 <= i < b.len() && (#[trigger] b[i]).has(a[0].start);
        assert(in_spans(b, a[0].start));
        assert(b[0].has(b[0].start));
        assert(in_spans(b, b[0].start));
        assert(in_spans(a, b[0].start));
        let j = choose|j: int| 0 <= j < a.len() && (#[trigger] a[j]).has(b[0].start);
        assert(a[0].start == b[0].start) by {
            if i > 0 {
                assert(b[0].end() < b[i].start);
            }
            if j > 0 {
                assert(a[0].end() < a[j].start);
            }
        }
        lemma_first_end(a, b);
        lemma_first_end(b, a);
        let a1 = a.skip(1);
        let b1 = b.skip(1);
        assert forall|x: int| #[trigger] in_spans(a1, x) <==> in_spans(b1, x) by {
            lemma_in_tail(a, x);
            lemma_in_tail(b, x);
            assert(in_spans(a, x) <==> in_spans(b, x));
        }
        lemma_spans_canonical(a1, b1);
        assert(a =~= seq![a[0]] + a1);
        assert(b =~= seq![b[0]] + b1);
    }
}

/// The tail of a merged list holds what the list holds beyond its first span.
proof fn lemma_in_tail(a: Seq<Span>, x: int)
    requires
        separated(a),
        a.len() > 0,
        forall|i: int| 0 <= i < a.len() ==> 0 < (#[trigger] a[i]).len,
    ensures
        in_spans(a.skip(1), x) <==> in_spans(a, x) && !a[0].has(x),
{
    let t = a.skip(1);
    if in_spans(t, x) {
        let i = choose|i: int| 0 <= i < t.len() && (#[trigger] t[i]).has(x);
        assert(a[i + 1].has(x));
        assert(a[0].end() < a[i + 1].start);
    }
    if in_spans(a, x) && !a[0].has(x) {
        let i = choose|i: int| 0 <= i < a.len() && (#[trigger] a[i]).has(x);
        assert(t[i - 1].has(x));
    }
}

proof fn lemma_first_end(a: Seq<Span>, b: Seq<Span>)
    requires
        separated(a),
        separated(b),
        forall|i: int| 0 <= i < a.len() ==> 0 < (#[trigger] a[i]).len,
        forall|i: int| 0 <= i < b.len() ==> 0 < (#[trigger] b[i]).len,
        forall|x: int| #[trigger] in_spans(a, x) <==> in_spans(b, x),
        a.len() > 0,
        b.len() > 0,
        a[0].start == b[0].start,
    ensures
        a[0].end() <= b[0].end(),
{
    if a[0].end() > b[0].end() {
        let x = b[0].end();
        assert(a[0].has(x));
        assert(in_spans(a, x));
        assert(in_spans(b, x));
        let i = choose|i: int| 0 <= i < b.len() && (#[trigger] b[i]).has(x);
        if i > 0 {
            assert(b[0].end() < b[i].start);
        }
    }
}

impl HeapModel {
    /// A heap is determined by its live allocations: two well-formed heaps of one base, capacity
    /// and rkey with the same allocations have the same free list.
    pub proof fn lemma_live_determines_free(self, other: HeapModel)
        requires
            self.wf(),
            other.wf(),
            self.base == other.base,
            self.capacity == other.capacity,
            self.live == other.live,
            self.rkey == other.rkey,
        ensures
            self == other,
    {
        self.lemma_free_covered_by(other);
        other.lemma_free_covered_by(self);
        lemma_spans_canonical(self.free, other.free);
    }

    proof fn lemma_free_covered_by(self, other: HeapModel)
        requires
            self.wf(),
            other.wf(),
            self.base == other.base,
            self.capacity == other.capacity,
            self.live == other.live,
        ensures
            forall|x: int| #[trigger] in_spans(self.free, x) ==> in_spans(other.free, x),
    {
        assert forall|x: int| #[trigger] in_spans(self.free, x) implies in_spans(
            other.free,
            x,
        ) by {
            let i = choose|i: int| 0 <= i < self.free.len() && (#[trigger] self.free[i]).has(x);
            assert(self.free[i].inside(self.capacity));
            if !in_spans(other.free, x) {
                assert(other.in_live(x));
                let a = choose|a: usize| #[trigger]
                    other.live.contains_key(a) && other.live_span(a).has(x);
                assert(self.live.contains_key(a));
                assert(self.live_span(a).apart(self.free[i]));
            }
        }
    }
}

/// Giving the bytes of the allocation at `at` back to the free spans keeps the heap well formed.
pub proof fn lemma_release_wf(m: HeapModel, n: HeapModel, at: usize)
    requires
        m.wf(),
        m.live.contains_key(at),
        n.base == m.base,
        n.capacity == m.capacity,
        n.live == m.live.remove(at),
        separated(n.free),
        forall|i: int| 0 <= i < n.free.len() ==> (#[trigger] n.free[i]).inside(n.capacity),
        forall|x: int| #[trigger]
            in_spans(n.free, x) <==> in_spans(m.free, x) || m.live_span(at).has(x),
    ensures
        n.wf(),
{
    assert forall|a: usize| #[trigger] n.live.contains_key(a) implies m.live.contains_key(a)
        && n.live_span(a) == m.live_span(a) by {}
    assert forall|a: usize, i: int|
        #![trigger n.live.contains_key(a), n.free[i]]
        n.live.contains_key(a) && 0 <= i < n.free.len() implies n.live_span(a).apart(
        n.free[i],
    ) by {
        assert(m.live.contains_key(a));
        assert(m.live_span(a).inside(m.capacity));
        assert(n.free[i].inside(n.capacity));
        let s = m.live_span(a);
        let t = n.free[i];
        if !s.apart(t) {
            let x = if s.start < t.start { t.start } else { s.start };
            assert(s.has(x) && t.has(x));
            assert(in_spans(n.free, x));
            if in_spans(m.free, x) {
                let j = choose|j: int| 0 <= j < m.free.len() && (#[trigger] m.free[j]).has(x);
                assert(m.live_span(a).apart(m.free[j]));
            } else {
                assert(m.live_span(a).apart(m.live_span(at)));
            }
        }
    }
    assert forall|a: usize, b: usize|
        #![trigger n.live.contains_key(a), n.live.contains_key(b)]
        n.live.contains_key(a) && n.live.contains_key(b) && a != b implies n.live_span(a).apart(
        n.live_span(b),
    ) by {
        assert(m.live.contains_key(a) && m.live.contains_key(b));
    }
    assert forall|x: int| 0 <= x < n.usable() implies #[trigger] in_spans(n.free, x) || n.in_live(
        x,
    ) by {
        assert(in_spans(m.free, x) || m.in_live(x));
        if !in_spans(n.free, x) {
            let a = choose|a: usize| #[trigger]
                m.live.contains_key(a) && m.live_span(a).has(x);
            assert(n.live.contains_key(a));
            assert(n.live_span(a).has(x));
        }
    }
}

/// The number of 64-bit words that hold `size` bytes.
pub open spec fn words_for(size: int) -> int {
    align_up(size) / (ALIGNMENT as int)
}

/// Whether a heap of `size` bytes can be laid out at all.
pub open spec fn size_error(size: int) -> Option<Error> {
    if size < ALIGNMENT {
        Some(Error::Usage("symmetric heap is too small"))
    } else if size + ALIGNMENT - 1 > usize::MAX {
        Some(Error::Usage("symmetric heap size overflow"))
    } else {
        None
    }
}

/// What comes of creating a heap of exactly `size` bytes: the size is checked first, then its
/// registration with UCX counts, and a new heap is free as a whole.
pub open spec fn created(
    size: int,
    base: int,
    registration: std::result::Result<Vec<u8>, UcsStatus>,
    heap: Result<HeapModel>,
) -> bool {
    match (size_error(size), registration) {
        (Some(error), _) => heap == Err::<HeapModel, Error>(error),
        (None, Err(status)) => heap == Err::<HeapModel, Error>(
            crate::error::ucx_failure(status),
        ),
        (None, Ok(rkey)) => {
            &&& heap == Ok::<HeapModel, Error>(
                HeapModel {
                    base,
                    capacity: size,
                    free: seq![Span { start: 0, len: whole_units(size) }],
                    live: Map::empty(),
                    rkey: rkey@,
                },
            )
            &&& heap->Ok_0.wf()
        },
    }
}

proof fn lemma_first_fit_from(spans: Seq<Span>, len: int, from: int)
    requires
        0 <= from,
    ensures
        match first_fit_from(spans, len, from) {
            Some(k) => {
                &&& from <= k < spans.len()
                &&& spans[k].len >= len
                &&& forall|j: int| from <= j < k ==> (#[trigger] spans[j]).len < len
            },
            None => forall|j: int| from <= j < spans.len() ==> (#[trigger] spans[j]).len < len,
        },
    decreases spans.len() - from,
{
    if from < spans.len() && spans[from].len < len {
        lemma_first_fit_from(spans, len, from + 1);
    }
}

/// First fit takes the lowest span that is long enough, and finds none only where none is.
pub proof fn law_first_fit(spans: Seq<Span>, len: int)
    ensures
        match first_fit(spans, len) {
            Some(k) => {
                &&& 0 <= k < spans.len()
                &&& spans[k].len >= len
                &&& forall|j: int| 0 <= j < k ==> (#[trigger] spans[j]).len < len
            },
            None => forall|j: int| 0 <= j < spans.len() ==> (#[trigger] spans[j]).len < len,
        },
{
    lemma_first_fit_from(spans, len, 0);
}

impl HeapModel {
    /// Every byte of a whole alignment unit is either free or belongs to exactly one live
    /// allocation.
    pub proof fn law_every_byte_has_one_owner(self, offset: int)
        requires
            self.wf(),
            0 <= offset < self.usable(),
        ensures
            in_spans(self.free, offset) <==> !self.in_live(offset),
            forall|a: usize, b: usize|
                #![trigger self.live.contains_key(a), self.live.contains_key(b)]
                self.live.contains_key(a) && self.live.contains_key(b) && self.live_span(a).has(
                    offset,
                ) && self.live_span(b).has(offset) ==> a == b,
    {
        assert(in_spans(self.free, offset) || self.in_live(offset));
        if in_spans(self.free, offset) && self.in_live(offset) {
            let i = choose|i: int| 0 <= i < self.free.len() && (#[trigger] self.free[i]).has(
                offset,
            );
            let a = choose|a: usize| #[trigger]
                self.live.contains_key(a) && self.live_span(a).has(offset);
            assert(self.live_span(a).apart(self.free[i]));
        }
    }

    /// An allocation keeps the heap well formed and overlaps nothing that was live: it lies
    /// inside the heap, its address is a multiple of the alignment, and it has at least the bytes
    /// asked for and less than one alignment unit more. Nothing else changes.
    pub proof fn law_malloc_is_fresh(
        self,
        size: int,
        result: Result<SymPtr>,
        after: HeapModel,
    )
        requires
            self.wf(),
            0 <= size <= usize::MAX,
            self.mallocs(size, result, after),
        ensures
            after.wf(),
            result matches Ok(ptr) ==> {
                &&& !self.live.contains_key(ptr.addr())
                &&& after.live == self.live.insert(ptr.addr(), align_up(size) as usize)
                &&& size <= align_up(size) < size + ALIGNMENT
                &&& after.live_span(ptr.addr()).inside(self.capacity)
                &&& ptr.addr() as int % (ALIGNMENT as int) == 0
                &&& self.base <= ptr.addr()
                &&& ptr.addr() + size <= self.base + self.capacity
                &&& after.base == self.base
                &&& after.capacity == self.capacity
                &&& after.rkey == self.rkey
                &&& forall|a: usize| #[trigger]
                    self.live.contains_key(a) ==> after.live_span(ptr.addr()).apart(
                        after.live_span(a),
                    )
            },
    {
        if let Ok(ptr) = result {
            law_first_fit(self.free, align_up(size));
            let k = first_fit(self.free, align_up(size)).unwrap();
            assert(self.free[k].inside(self.capacity));
            lemma_carve_wf(self, k, align_up(size));
            assert(after.live.contains_key(ptr.addr()));
            assert forall|a: usize| #[trigger] self.live.contains_key(a) implies after.live_span(
                ptr.addr(),
            ).apart(after.live_span(a)) by {
                assert(after.live.contains_key(a));
            }
        }
    }

    /// Freeing what was just allocated gives back exactly the heap there was before.
    pub proof fn law_free_undoes_malloc(
        self,
        size: int,
        ptr: SymPtr,
        between: HeapModel,
        result: Result<()>,
        after: HeapModel,
    )
        requires
            self.wf(),
            0 <= size <= usize::MAX,
            self.mallocs(size, Ok(ptr), between),
            between.frees(ptr, result, after),
        ensures
            result == Ok::<(), Error>(()),
            after == self,
    {
        self.law_malloc_is_fresh(size, Ok(ptr), between);
        assert(after.live =~= self.live);
        after.lemma_live_determines_free(self);
    }

    /// A pointer can be freed once: freeing it again is refused and changes nothing.
    pub proof fn law_double_free_refused(
        self,
        ptr: SymPtr,
        between: HeapModel,
        result: Result<()>,
        after: HeapModel,
    )
        requires
            self.frees(ptr, Ok(()), between),
            between.frees(ptr, result, after),
        ensures
            result == Err::<(), Error>(Error::Usage("invalid symmetric pointer")),
            after == between,
    {
    }

    /// Freed space can be allocated again: a request no longer than the freed allocation succeeds.
    pub proof fn law_freed_space_is_reusable(
        self,
        ptr: SymPtr,
        between: HeapModel,
        size: int,
        result: Result<SymPtr>,
        after: HeapModel,
    )
        requires
            self.wf(),
            self.frees(ptr, Ok(()), between),
            0 < size <= self.live[ptr.addr()],
            between.mallocs(size, result, after),
        ensures
            result is Ok,
    {
        let freed = self.live_span(ptr.addr());
        assert(self.live.contains_key(ptr.addr()));
        assert(freed.inside(self.capacity));
        lemma_covering_span(between.free, freed);
        law_first_fit(between.free, align_up(size));
        assert(align_up(size) <= freed.len);
    }

    /// A heap without live allocations is one free span.
    pub proof fn law_all_freed_is_whole(self)
        requires
            self.wf(),
            self.live =~= Map::empty(),
        ensures
            self.free == seq![Span { start: 0, len: self.usable() }],
    {
        let whole = seq![Span { start: 0, len: self.usable() }];
        assert forall|x: int| #[trigger] in_spans(self.free, x) <==> in_spans(whole, x) by {
            if in_spans(self.free, x) {
                let i = choose|i: int| 0 <= i < self.free.len() && (#[trigger] self.free[i]).has(
                    x,
                );
                assert(self.free[i].inside(self.capacity));
                assert(whole[0].has(x));
            }
            if in_spans(whole, x) {
                assert(in_spans(self.free, x) || self.in_live(x));
            }
        }
        lemma_spans_canonical(self.free, whole);
    }
}

/// A run of bytes that merged spans hold lies within one of them.
proof fn lemma_covering_span(spans: Seq<Span>, run: Span)
    requires
        separated(spans),
        0 < run.len,
        forall|x: int| run.has(x) ==> #[trigger] in_spans(spans, x),
    ensures
        exists|i: int|
            0 <= i < spans.len() && (#[trigger] spans[i]).start <= run.start && run.end()
                <= spans[i].end(),
{
    assert(in_spans(spans, run.start));
    let i = choose|i: int| 0 <= i < spans.len() && (#[trigger] spans[i]).has(run.start);
    if spans[i].end() < run.end() {
        let x = spans[i].end();
        assert(in_spans(spans, x));
        let j = choose|j: int| 0 <= j < spans.len() && (#[trigger] spans[j]).has(x);
        if j < i {
            assert(spans[j].end() < spans[i].start);
        } else if j > i {
            assert(spans[i].end() < spans[j].start);
        }
    }
}

impl HeapModel {
    /// Whether a run of bytes lies in the usable part of the heap and in no live allocation.
    pub open spec fn is_free_run(self, run: Span) -> bool {
        &&& 0 <= run.start
        &&& 0 < run.len
        &&& run.end() <= self.usable()
        &&& forall|x: int| run.has(x) ==> !#[trigger] self.in_live(x)
    }

    /// Allocation is refused as exhausted exactly where no run of free bytes is as long as the
    /// size, rounded up to the alignment. Otherwise it takes the lowest such run.
    pub proof fn law_malloc_takes_the_lowest_free_run(
        self,
        size: int,
        result: Result<SymPtr>,
        after: HeapModel,
    )
        requires
            self.wf(),
            0 < size,
            size + ALIGNMENT - 1 <= usize::MAX,
            self.mallocs(size, result, after),
        ensures
            match result {
                Ok(ptr) => {
                    let place = Span { start: ptr.addr() - self.base, len: align_up(size) };
                    &&& self.is_free_run(place)
                    &&& forall|run: Span| #[trigger]
                        self.is_free_run(run) && run.len == place.len ==> place.start <= run.start
                },
                Err(error) => {
                    &&& error == Error::Usage("symmetric heap exhausted")
                    &&& forall|run: Span| #[trigger]
                        self.is_free_run(run) ==> run.len != align_up(size)
                },
            },
    {
        let len = align_up(size);
        law_first_fit(self.free, len);
        assert forall|run: Span| #[trigger]
            self.is_free_run(run) && run.len == len implies result is Ok && {
            let k = first_fit(self.free, len)->Some_0;
            self.free[k].start <= run.start
        } by {
            assert forall|x: int| run.has(x) implies #[trigger] in_spans(self.free, x) by {
                assert(!self.in_live(x));
            }
            lemma_covering_span(self.free, run);
            let i = choose|i: int|
                0 <= i < self.free.len() && (#[trigger] self.free[i]).start <= run.start
                    && run.end() <= self.free[i].end();
            let k = first_fit(self.free, len)->Some_0;
            if k < i {
                assert(self.free[k].end() < self.free[i].start);
            }
        }
        if let Ok(ptr) = result {
            let k = first_fit(self.free, len)->Some_0;
            let place = Span { start: ptr.addr() - self.base, len };
            assert(self.free[k].inside(self.capacity));
            assert forall|x: int| place.has(x) implies !#[trigger] self.in_live(x) by {
                assert(self.free[k].has(x));
                self.law_every_byte_has_one_owner(x);
            }
        }
    }

    /// The length of the live allocation at an offset from the base, where there is one.
    pub open spec fn live_at(self, offset: int) -> Option<usize> {
        let addr = self.base + offset;
        if 0 <= addr <= usize::MAX && self.live.contains_key(addr as usize) {
            Some(self.live[addr as usize])
        } else {
            None
        }
    }

    /// Whether two heaps look the same by offset: what is live and what is free in the one is so
    /// in the other. They may lie at different addresses.
    pub open spec fn symmetric_to(self, other: HeapModel) -> bool {
        &&& self.capacity == other.capacity
        &&& self.free == other.free
        &&& forall|offset: int| #[trigger] self.live_at(offset) == other.live_at(offset)
    }

    /// The free list alone decides where an allocation lies: heaps with equal free lists answer the
    /// same request alike, at the same offset, and have equal free lists afterwards.
    pub proof fn law_free_list_decides_offset(
        a: HeapModel,
        b: HeapModel,
        size: int,
        a_result: Result<SymPtr>,
        a_after: HeapModel,
        b_result: Result<SymPtr>,
        b_after: HeapModel,
    )
        requires
            a.free == b.free,
            a.mallocs(size, a_result, a_after),
            b.mallocs(size, b_result, b_after),
        ensures
            a_after.free == b_after.free,
            match (a_result, b_result) {
                (Ok(p), Ok(q)) => p.addr() - a.base == q.addr() - b.base,
                (Err(e), Err(f)) => e == f,
                _ => false,
            },
    {
    }

    /// Two heaps of one size start out symmetric, wherever they lie.
    pub proof fn law_new_heaps_are_symmetric(
        size: int,
        a_base: int,
        a_registration: std::result::Result<Vec<u8>, UcsStatus>,
        a: HeapModel,
        b_base: int,
        b_registration: std::result::Result<Vec<u8>, UcsStatus>,
        b: HeapModel,
    )
        requires
            created(size, a_base, a_registration, Ok(a)),
            created(size, b_base, b_registration, Ok(b)),
        ensures
            a.symmetric_to(b),
    {
    }

    /// Allocation is symmetric: heaps that look the same answer the same request alike, at the
    /// same offset, and look the same afterwards. The pointer of the one is the translation of
    /// the pointer of the other.
    pub proof fn law_malloc_is_symmetric(
        a: HeapModel,
        b: HeapModel,
        size: int,
        a_result: Result<SymPtr>,
        a_after: HeapModel,
        b_result: Result<SymPtr>,
        b_after: HeapModel,
    )
        requires
            a.wf(),
            b.wf(),
            a.symmetric_to(b),
            0 <= size <= usize::MAX,
            a.mallocs(size, a_result, a_after),
            b.mallocs(size, b_result, b_after),
        ensures
            a_after.symmetric_to(b_after),
            match (a_result, b_result) {
                (Ok(p), Ok(q)) => {
                    &&& p.addr() - a.base == q.addr() - b.base
                    &&& SymPtr::remote_of(p.addr() as int, a.base, b.base) == q.addr()
                },
                (Err(e), Err(f)) => e == f,
                _ => false,
            },
    {
        a.law_malloc_is_fresh(size, a_result, a_after);
        b.law_malloc_is_fresh(size, b_result, b_after);
        if let (Ok(p), Ok(q)) = (a_result, b_result) {
            let at = p.addr() - a.base;
            SymPtr::law_no_wrap_inside_a_heap(p.addr() as int, a.base, b.base);
            assert forall|offset: int| #[trigger]
                a_after.live_at(offset) == b_after.live_at(offset) by {
                assert(a.live_at(offset) == b.live_at(offset));
                if offset != at {
                    assert(a_after.live_at(offset) == a.live_at(offset));
                    assert(b_after.live_at(offset) == b.live_at(offset));
                }
            }
        }
    }

    /// Freeing is symmetric: heaps that look the same answer alike when the same offset is freed,
    /// and look the same afterwards.
    pub proof fn law_free_is_symmetric(
        a: HeapModel,
        b: HeapModel,
        p: SymPtr,
        q: SymPtr,
        a_result: Result<()>,
        a_after: HeapModel,
        b_result: Result<()>,
        b_after: HeapModel,
    )
        requires
            a.wf(),
            b.wf(),
            a.symmetric_to(b),
            p.addr() - a.base == q.addr() - b.base,
            a.frees(p, a_result, a_after),
            b.frees(q, b_result, b_after),
        ensures
            a_after.symmetric_to(b_after),
            a_result == b_result,
    {
        let at = p.addr() - a.base;
        assert(a.live_at(at) == b.live_at(at));
        if a.live.contains_key(p.addr()) {
            assert(a.live_span(p.addr()) == b.live_span(q.addr()));
            assert forall|x: int| #[trigger] in_spans(a_after.free, x) <==> in_spans(
                b_after.free,
                x,
            ) by {
                assert(in_spans(b_after.free, x) <==> in_spans(b.free, x) || b.live_span(
                    q.addr(),
                ).has(x));
            }
            lemma_spans_canonical(a_after.free, b_after.free);
            assert forall|offset: int| #[trigger]
                a_after.live_at(offset) == b_after.live_at(offset) by {
                assert(a.live_at(offset) == b.live_at(offset));
                if offset != at {
                    assert(a_after.live_at(offset) == a.live_at(offset));
                    assert(b_after.live_at(offset) == b.live_at(offset));
                }
            }
        }
    }
}

impl HeapModel {
    /// Freeing succeeds for exactly the live allocations, whatever was freed before. It ends the
    /// life of that allocation and of no other, and its bytes can be allocated again. A refused
    /// free changes nothing.
    pub proof fn law_free_succeeds_for_every_live_allocation(
        self,
        ptr: SymPtr,
        result: Result<()>,
        after: HeapModel,
    )
        requires
            self.wf(),
            self.frees(ptr, result, after),
        ensures
            result is Ok <==> self.live.contains_key(ptr.addr()),
            result is Ok ==> {
                &&& after.wf()
                &&& !after.live.contains_key(ptr.addr())
                &&& forall|a: usize|
                    a != ptr.addr() ==> (#[trigger] after.live.contains_key(a)
                        <==> self.live.contains_key(a))
                &&& forall|a: usize| #[trigger]
                    after.live.contains_key(a) ==> after.live[a] == self.live[a]
                &&& forall|x: int|
                    ptr.addr() <= self.base + x < ptr.addr() + self.live[ptr.addr()]
                        ==> #[trigger] in_spans(after.free, x)
                &&& after.base == self.base
                &&& after.capacity == self.capacity
                &&& after.rkey == self.rkey
            },
            result matches Err(error) ==> error == Error::Usage("invalid symmetric pointer")
                && after == self,
    {
        if self.live.contains_key(ptr.addr()) {
            assert forall|x: int|
                ptr.addr() <= self.base + x < ptr.addr()
                    + self.live[ptr.addr()] implies #[trigger] in_spans(after.free, x) by {
                assert(self.live_span(ptr.addr()).has(x));
            }
        }
    }

    /// Two live allocations can be freed in either order, and leave the same heap.
    pub proof fn law_frees_commute(
        self,
        p: SymPtr,
        q: SymPtr,
        p_first: HeapModel,
        p_then_q: HeapModel,
        q_first: HeapModel,
        q_then_p: HeapModel,
        results: (Result<()>, Result<()>, Result<()>, Result<()>),
    )
        requires
            self.wf(),
            self.live.contains_key(p.addr()),
            self.live.contains_key(q.addr()),
            p.addr() != q.addr(),
            self.frees(p, results.0, p_first),
            p_first.frees(q, results.1, p_then_q),
            self.frees(q, results.2, q_first),
            q_first.frees(p, results.3, q_then_p),
        ensures
            results.0 is Ok,
            results.1 is Ok,
            results.2 is Ok,
            results.3 is Ok,
            p_then_q == q_then_p,
    {
        assert(p_then_q.live =~= q_then_p.live);
        p_then_q.lemma_live_determines_free(q_then_p);
    }

    /// A request for no bytes, or for more than can be rounded up, is refused for that reason
    /// alone. Whatever the reason, a refused request changes nothing.
    pub proof fn law_refused_malloc_changes_nothing(
        self,
        size: int,
        result: Result<SymPtr>,
        after: HeapModel,
    )
        requires
            0 <= size <= usize::MAX,
            self.mallocs(size, result, after),
        ensures
            result is Err ==> after == self,
            size == 0 <==> result == Err::<SymPtr, Error>(
                Error::Usage("symmetric allocation size must be nonzero"),
            ),
            size > usize::MAX - 7 <==> result == Err::<SymPtr, Error>(
                Error::Usage("symmetric allocation size overflow"),
            ),
    {
        reveal_strlit("symmetric allocation size must be nonzero");
        reveal_strlit("symmetric allocation size overflow");
        reveal_strlit("symmetric heap exhausted");
        let zero = "symmetric allocation size must be nonzero"@;
        let overflow = "symmetric allocation size overflow"@;
        let exhausted = "symmetric heap exhausted"@;
        assert(zero.len() == 41);
        assert(overflow.len() == 34);
        assert(exhausted.len() == 24);
    }

    /// A new heap has exactly the size and the place that were asked for, nothing is live in it,
    /// and less than one alignment unit of it cannot be allocated. Only a size too small or too
    /// large, or a failed registration, is refused.
    pub proof fn law_new_heap_is_as_asked(
        size: int,
        base: int,
        registration: std::result::Result<Vec<u8>, UcsStatus>,
        heap: Result<HeapModel>,
    )
        requires
            0 <= size <= usize::MAX,
            created(size, base, registration, heap),
        ensures
            heap is Ok <==> 8 <= size <= usize::MAX - 7 && registration is Ok,
            heap matches Ok(heap) ==> {
                &&& heap.wf()
                &&& heap.capacity == size
                &&& heap.base == base
                &&& heap.rkey == registration->Ok_0@
                &&& forall|a: usize| !#[trigger] heap.live.contains_key(a)
                &&& forall|x: int| 0 <= x <= size - 8 ==> #[trigger] in_spans(heap.free, x)
            },
            size < 8 ==> heap == Err::<HeapModel, Error>(
                Error::Usage("symmetric heap is too small"),
            ),
            size > usize::MAX - 7 ==> heap == Err::<HeapModel, Error>(
                Error::Usage("symmetric heap size overflow"),
            ),
            8 <= size <= usize::MAX - 7 && registration is Err && registration->Err_0.code != 0
                ==> heap == Err::<HeapModel, Error>(Error::Ucx(registration->Err_0)),
    {
        if let Ok(heap) = heap {
            assert forall|x: int| 0 <= x <= size - 8 implies #[trigger] in_spans(heap.free, x) by {
                assert(heap.free[0].has(x));
            }
        }
    }

    /// An empty heap serves every request that its whole units hold, at its base.
    pub proof fn law_empty_heap_serves_what_it_holds(
        self,
        size: int,
        result: Result<SymPtr>,
        after: HeapModel,
    )
        requires
            self.wf(),
            self.live =~= Map::empty(),
            0 < size,
            size + 7 <= self.capacity,
            self.mallocs(size, result, after),
        ensures
            result matches Ok(ptr) && ptr.addr() == self.base,
    {
        self.law_all_freed_is_whole();
        law_first_fit(self.free, align_up(size));
    }
}

/// The words that hold a heap are as few as possible.
pub proof fn law_words_hold_the_size(size: int)
    requires
        0 <= size,
    ensures
        size <= words_for(size) * 8 < size + 8,
{
}

} // verus!
