//! Symmetric heap allocation, peer addressing, and per-PE rkeys.
//!
//! The heap is one contiguous process-local region registered once with UCX. A
//! small free-list allocator returns [`SymPtr`] values, which are deliberately
//! not raw pointers: a symmetric pointer is an address-like private token whose
//! offset is translated to a peer's heap base before an RMA operation.

use std::collections::BTreeMap;

use vstd::prelude::*;

use crate::error::{Error, Result, UcsStatus};
#[allow(unused_imports)]
use crate::heap_model;
use crate::heap_model::{HeapModel, Span, ALIGNMENT};
use crate::settings;

verus! {

/// The heap size used where none is configured.
pub const DEFAULT_HEAP_SIZE: usize = 67_108_864;

/// An address in the symmetric heap; application code cannot dereference it.
#[derive(Debug, Clone, Copy, PartialEq, Eq, Hash, Structural)]
pub struct SymPtr(usize);

/// A number reduced to 64 bits, as address arithmetic on `u64` does.
pub open spec fn wrap64(n: int) -> int {
    n % 0x1_0000_0000_0000_0000
}

impl SymPtr {
    /// The address this token stands for.
    pub closed spec fn addr(self) -> usize {
        self.0
    }

    /// The offset of an address from a heap base.
    pub open spec fn offset_of(addr: int, base: int) -> int {
        wrap64(addr - base)
    }

    /// The address on a peer that has the offset there that `addr` has here.
    pub open spec fn remote_of(addr: int, local_base: int, peer_base: int) -> int {
        wrap64(peer_base + Self::offset_of(addr, local_base))
    }

    /// Translation preserves the offset: the remote address lies as far into the peer's heap as
    /// the local one into its own.
    pub proof fn law_translation_preserves_offset(addr: u64, local_base: u64, peer_base: u64)
        ensures
            Self::offset_of(
                Self::remote_of(addr as int, local_base as int, peer_base as int),
                peer_base as int,
            ) == Self::offset_of(addr as int, local_base as int),
    {
    }

    /// Two peers agree: what one translates for the other, the other translates back.
    pub proof fn law_translation_is_symmetric(addr: u64, local_base: u64, peer_base: u64)
        ensures
            Self::remote_of(
                Self::remote_of(addr as int, local_base as int, peer_base as int),
                peer_base as int,
                local_base as int,
            ) == addr,
    {
    }

    /// Pointers to one address are the same pointer.
    pub proof fn law_addr_determines_pointer(a: SymPtr, b: SymPtr)
        requires
            a.addr() == b.addr(),
        ensures
            a == b,
    {
    }

    /// Inside a heap, offsets and remote addresses do not wrap around.
    pub proof fn law_no_wrap_inside_a_heap(addr: int, base: int, peer_base: int)
        requires
            0 <= addr - base <= u64::MAX,
            0 <= peer_base + (addr - base) <= u64::MAX,
        ensures
            Self::offset_of(addr, base) == addr - base,
            Self::remote_of(addr, base, peer_base) == peer_base + (addr - base),
    {
        vstd::arithmetic::div_mod::lemma_small_mod((addr - base) as nat, 0x1_0000_0000_0000_0000);
        vstd::arithmetic::div_mod::lemma_small_mod(
            (peer_base + (addr - base)) as nat,
            0x1_0000_0000_0000_0000,
        );
    }

    /// The offset of an address from a base is what has to be added to the base to reach the
    /// address, in 64 bits.
    pub proof fn law_base_and_offset_make_the_address(addr: u64, base: u64)
        ensures
            ({
                let offset = Self::offset_of(addr as int, base as int);
                &&& 0 <= offset <= u64::MAX
                &&& base + offset == addr || base + offset == addr + 0x1_0000_0000_0000_0000
                &&& base <= addr ==> offset == addr - base
            }),
    {
    }

    /// The remote address is as far from the base of the peer as the local one from the local base,
    /// in 64 bits. Where both heaps lie at one base, addresses stay as they are.
    pub proof fn law_remote_address_is_as_far_from_its_base(
        addr: u64,
        local_base: u64,
        peer_base: u64,
    )
        ensures
            ({
                let remote = Self::remote_of(addr as int, local_base as int, peer_base as int);
                &&& 0 <= remote <= u64::MAX
                &&& ((remote - peer_base) - (addr - local_base)) % 0x1_0000_0000_0000_0000 == 0
                &&& local_base == peer_base ==> remote == addr
                &&& addr == local_base ==> remote == peer_base
            }),
    {
    }

    /// Return the virtual offset from a local heap base.
    pub fn offset_from(self, local_base: u64) -> (offset: u64)
        ensures
            offset == Self::offset_of(self.addr() as int, local_base as int),
    {
        (self.0 as u64).wrapping_sub(local_base)
    }

    /// Translate this allocation's offset to a target PE's heap address.
    pub fn to_remote_addr(self, local_base: u64, peer_base: u64) -> (remote: u64)
        ensures
            remote == Self::remote_of(self.addr() as int, local_base as int, peer_base as int),
    {
        translate_address(self.0 as u64, local_base, peer_base)
    }
}

/// Return the address on a peer that has the offset there that `address` has here.
pub fn translate_address(address: u64, local_base: u64, peer_base: u64) -> (remote: u64)
    ensures
        remote == SymPtr::remote_of(address as int, local_base as int, peer_base as int),
{
    peer_base.wrapping_add(address.wrapping_sub(local_base))
}

#[derive(Debug, Clone, Copy)]
struct Block {
    start: usize,
    len: usize,
}

impl Block {
    spec fn span(self) -> Span {
        Span { start: self.start as int, len: self.len as int }
    }
}

spec fn spans_of(blocks: Seq<Block>) -> Seq<Span> {
    Seq::new(blocks.len(), |i: int| blocks[i].span())
}

/// Merge blocks, in address order and without overlap, where one ends as the next begins.
fn coalesce(blocks: &Vec<Block>, Ghost(capacity): Ghost<int>) -> (merged: Vec<Block>)
    requires
        capacity <= usize::MAX,
        forall|i: int| 0 <= i < blocks@.len() ==> (#[trigger] blocks@[i]).span().inside(capacity),
        forall|i: int, j: int|
            #![trigger blocks@[i], blocks@[j]]
            0 <= i < j < blocks@.len() ==> blocks@[i].span().end() <= blocks@[j].start,
    ensures
        heap_model::separated(spans_of(merged@)),
        forall|i: int| 0 <= i < merged@.len() ==> (#[trigger] merged@[i]).span().inside(capacity),
        forall|x: int| #[trigger]
            heap_model::in_spans(spans_of(merged@), x) <==> heap_model::in_spans(
                spans_of(blocks@),
                x,
            ),
{
    let mut merged: Vec<Block> = Vec::with_capacity(blocks.len());
    let mut next: usize = 0;
    while next < blocks.len()
        invariant
            next <= blocks@.len(),
            capacity <= usize::MAX,
            forall|i: int|
                0 <= i < blocks@.len() ==> (#[trigger] blocks@[i]).span().inside(capacity),
            forall|i: int, j: int|
                #![trigger blocks@[i], blocks@[j]]
                0 <= i < j < blocks@.len() ==> blocks@[i].span().end() <= blocks@[j].start,
            heap_model::separated(spans_of(merged@)),
            forall|i: int|
                0 <= i < merged@.len() ==> (#[trigger] merged@[i]).span().inside(capacity),
            forall|i: int, j: int|
                #![trigger merged@[i], blocks@[j]]
                0 <= i < merged@.len() && next <= j < blocks@.len() ==> merged@[i].span().end()
                    <= blocks@[j].start,
            forall|x: int| #[trigger]
                heap_model::in_spans(spans_of(merged@), x) <==> heap_model::in_spans(
                    spans_of(blocks@.take(next as int)),
                    x,
                ),
        decreases blocks@.len() - next,
    {
        let block = blocks[next];
        let ghost before = merged@;
        let count = merged.len();
        let mut joined: bool = false;
        if count > 0 {
            let last = merged[count - 1];
            assert(merged@[count - 1].span().inside(capacity));
            assert(blocks@[next as int].span().inside(capacity));
            if last.start + last.len == block.start {
                merged.set(count - 1, Block { start: last.start, len: last.len + block.len });
                joined = true;
            }
        }
        if !joined {
            merged.push(block);
        }
        proof {
            assert(blocks@[next as int].span().inside(capacity));
            lemma_coalesce_step(before, merged@, block, joined);
            let taken = blocks@.take(next as int);
            assert(blocks@.take(next + 1) =~= taken.push(block));
            assert forall|x: int| #[trigger]
                heap_model::in_spans(spans_of(merged@), x) <==> heap_model::in_spans(
                    spans_of(blocks@.take(next + 1)),
                    x,
                ) by {
                lemma_in_pushed(taken, block, x);
                assert(heap_model::in_spans(spans_of(before), x) <==> heap_model::in_spans(
                    spans_of(taken),
                    x,
                ));
            }
            assert forall|i: int, j: int|
                #![trigger merged@[i], blocks@[j]]
                0 <= i < merged@.len() && next < j < blocks@.len() implies merged@[i].span().end()
                <= blocks@[j].start by {
                assert(blocks@[next as int].span().end() <= blocks@[j].start);
                if i < before.len() {
                    assert(before[i].span().end() <= blocks@[next as int].start);
                }
            }
        }
        next = next + 1;
    }
    assert(blocks@.take(next as int) =~= blocks@);
    merged
}

proof fn lemma_in_pushed(blocks: Seq<Block>, block: Block, x: int)
    ensures
        heap_model::in_spans(spans_of(blocks.push(block)), x) <==> heap_model::in_spans(
            spans_of(blocks),
            x,
        ) || block.span().has(x),
{
    let old = spans_of(blocks);
    let new = spans_of(blocks.push(block));
    if heap_model::in_spans(new, x) {
        let i = choose|i: int| 0 <= i < new.len() && (#[trigger] new[i]).has(x);
        if i < old.len() {
            assert(old[i].has(x));
        }
    }
    if heap_model::in_spans(old, x) {
        let i = choose|i: int| 0 <= i < old.len() && (#[trigger] old[i]).has(x);
        assert(new[i].has(x));
    }
    if block.span().has(x) {
        assert(new[old.len() as int].has(x));
    }
}

/// One step of merging: `after` is `before` with `block` appended, or, where `joined`, added to
/// the end of the last block.
proof fn lemma_coalesce_step(before: Seq<Block>, after: Seq<Block>, block: Block, joined: bool)
    requires
        heap_model::separated(spans_of(before)),
        0 < block.len,
        forall|i: int| 0 <= i < before.len() ==> 0 < (#[trigger] before[i]).len,
        forall|i: int|
            0 <= i < before.len() ==> (#[trigger] before[i]).span().end() <= block.start,
        joined ==> before.len() > 0 && before.last().span().end() == block.start && after
            == before.update(
            before.len() - 1,
            Block {
                start: before.last().start,
                len: (before.last().len + block.len) as usize,
            },
        ) && before.last().len + block.len <= usize::MAX,
        !joined ==> after == before.push(block) && (before.len() > 0
            ==> before.last().span().end() != block.start),
    ensures
        heap_model::separated(spans_of(after)),
        forall|x: int| #[trigger]
            heap_model::in_spans(spans_of(after), x) <==> heap_model::in_spans(spans_of(before), x)
                || block.span().has(x),
{
    let b = spans_of(before);
    let a = spans_of(after);
    if joined {
        let n = before.len() - 1;
        assert forall|i: int, j: int|
            #![trigger a[i], a[j]]
            0 <= i < j < a.len() implies a[i].end() < a[j].start by {
            assert(b[i].end() < b[j].start);
        }
        assert forall|x: int| #[trigger]
            heap_model::in_spans(a, x) <==> heap_model::in_spans(b, x) || block.span().has(x) by {
            if heap_model::in_spans(a, x) {
                let i = choose|i: int| 0 <= i < a.len() && (#[trigger] a[i]).has(x);
                if !block.span().has(x) {
                    assert(b[i].has(x));
                }
            }
            if heap_model::in_spans(b, x) {
                let i = choose|i: int| 0 <= i < b.len() && (#[trigger] b[i]).has(x);
                assert(a[i].has(x));
            }
            if block.span().has(x) {
                assert(a[n].has(x));
            }
        }
    } else {
        assert forall|i: int, j: int|
            #![trigger a[i], a[j]]
            0 <= i < j < a.len() implies a[i].end() < a[j].start by {
            if j < b.len() {
                assert(b[i].end() < b[j].start);
            } else {
                assert(before[i].span().end() <= block.start);
                let n = before.len() - 1;
                assert(before[n].span().end() < block.start);
                if i < n {
                    assert(b[i].end() < b[n].start);
                    assert(0 < before[n].len);
                }
            }
        }
        assert forall|x: int| #[trigger]
            heap_model::in_spans(a, x) <==> heap_model::in_spans(b, x) || block.span().has(x) by {
            lemma_in_pushed(before, block, x);
        }
    }
}

/// Heap base and packed rkey advertised by one PE.
#[derive(Debug, Clone, PartialEq, Eq)]
pub struct PeerRkey {
    pub heap_base: u64,
    pub rkey: Vec<u8>,
}

/// Per-PE heap metadata, populated by the PMIx exchange.
#[derive(Debug, Clone)]
pub struct PeerRkeys(BTreeMap<u32, PeerRkey>);

impl View for PeerRkeys {
    type V = Map<u32, PeerRkey>;

    closed spec fn view(&self) -> Map<u32, PeerRkey> {
        self.0@
    }
}

impl Default for PeerRkeys {
    /// No peer is known.
    fn default() -> (keys: Self)
        ensures
            keys@ == Map::<u32, PeerRkey>::empty(),
    {
        PeerRkeys(BTreeMap::new())
    }
}

impl PeerRkeys {
    /// Insert or replace a peer's heap metadata.
    pub fn insert(&mut self, pe: u32, heap_base: u64, rkey: Vec<u8>)
        ensures
            final(self)@ == old(self)@.insert(pe, (PeerRkey { heap_base, rkey })),
    {
        self.0.insert(pe, PeerRkey { heap_base, rkey });
    }

    /// Look up a peer's heap metadata.
    pub fn get(&self, pe: u32) -> (found: Option<&PeerRkey>)
        ensures
            match found {
                Some(key) => self@.contains_key(pe) && *key == self@[pe],
                None => !self@.contains_key(pe),
            },
    {
        self.0.get(&pe)
    }
}

/// Return how many 64-bit words it takes to hold a heap of `size` bytes.
pub fn heap_words(size: usize) -> (words: Result<usize>)
    ensures
        match heap_model::size_error(size as int) {
            Some(error) => words == Err::<usize, Error>(error),
            None => {
                let count = heap_model::words_for(size as int);
                &&& words == Ok::<usize, Error>(count as usize)
                &&& count * ALIGNMENT == heap_model::align_up(size as int) <= usize::MAX
            },
        },
{
    if size < ALIGNMENT {
        return Err(Error::Usage("symmetric heap is too small"));
    }
    match size.checked_add(ALIGNMENT - 1) {
        None => Err(Error::Usage("symmetric heap size overflow")),
        Some(padded) => Ok(padded / ALIGNMENT),
    }
}

/// The free-list allocator of a contiguous UCX-registered symmetric heap.
#[derive(Debug)]
pub struct SymHeap {
    capacity: usize,
    free: Vec<Block>,
    allocations: BTreeMap<usize, usize>,
    packed_rkey: Vec<u8>,
    local_base: u64,
}

impl View for SymHeap {
    type V = HeapModel;

    closed spec fn view(&self) -> HeapModel {
        HeapModel {
            base: self.local_base as int,
            capacity: self.capacity as int,
            free: spans_of(self.free@),
            live: self.allocations@,
            rkey: self.packed_rkey@,
        }
    }
}

impl SymHeap {
    pub open spec fn wf(&self) -> bool {
        self@.wf()
    }

    /// Create a heap of exactly `size` bytes.
    ///
    /// The region itself belongs to the caller: it is made of 64-bit words, lies at `local_base`
    /// and has been offered to UCX, and `registration` is what came of that, the packed rkey or
    /// the status of the call that failed. The size is checked first: [`heap_words`] says how
    /// large a region to take.
    pub fn with_size(
        size: usize,
        local_base: u64,
        registration: std::result::Result<Vec<u8>, UcsStatus>,
    ) -> (heap: Result<Self>)
        requires
            heap_model::size_error(size as int) is None && registration is Ok ==> local_base + size
                <= usize::MAX && local_base % 8 == 0,
        ensures
            heap_model::created(
                size as int,
                local_base as int,
                registration,
                match heap {
                    Ok(heap) => Ok(heap@),
                    Err(error) => Err(error),
                },
            ),
    {
        match heap_words(size) {
            Ok(_) => {},
            Err(error) => return Err(error),
        }
        let packed_rkey = match registration {
            Ok(rkey) => rkey,
            Err(status) => return Err(Error::from(status)),
        };
        let usable = size / ALIGNMENT * ALIGNMENT;
        let mut free: Vec<Block> = Vec::new();
        free.push(Block { start: 0, len: usable });
        let allocations = BTreeMap::new();
        let heap = SymHeap { capacity: size, free, allocations, packed_rkey, local_base };
        proof {
            let whole = Span { start: 0, len: usable as int };
            assert(heap@.free =~= seq![whole]);
            assert forall|x: int| 0 <= x < usable implies #[trigger] heap_model::in_spans(
                heap@.free,
                x,
            ) by {
                assert(heap@.free[0].has(x));
            }
        }
        Ok(heap)
    }

    /// Create a heap of the size that the `SHMEM_SYMMETRIC_SIZE` setting asks for. The other
    /// arguments are those of [`SymHeap::with_size`].
    pub fn new(
        setting: Option<&str>,
        local_base: u64,
        registration: std::result::Result<Vec<u8>, UcsStatus>,
    ) -> (heap: Result<Self>)
        requires
            heap_model::size_error(settings::heap_size(setting) as int) is None && registration is Ok
                ==> local_base + settings::heap_size(setting) <= usize::MAX && local_base % 8 == 0,
        ensures
            heap_model::created(
                settings::heap_size(setting) as int,
                local_base as int,
                registration,
                match heap {
                    Ok(heap) => Ok(heap@),
                    Err(error) => Err(error),
                },
            ),
    {
        Self::with_size(settings::configured_heap_size(setting), local_base, registration)
    }

    /// Allocate at least `size` bytes, aligned to eight bytes.
    pub fn malloc(&mut self, size: usize) -> (result: Result<SymPtr>)
        requires
            old(self).wf(),
        ensures
            final(self).wf(),
            old(self)@.mallocs(size as int, result, final(self)@),
            result matches Ok(ptr) ==> ptr.addr() % ALIGNMENT == 0,
    {
        if size == 0 {
            return Err(Error::Usage("symmetric allocation size must be nonzero"));
        }
        let padded = match size.checked_add(ALIGNMENT - 1) {
            None => return Err(Error::Usage("symmetric allocation size overflow")),
            Some(padded) => padded,
        };
        let requested = padded & !(ALIGNMENT - 1);
        assert(padded & !7usize == padded / 8 * 8) by (bit_vector);
        let mut index: usize = 0;
        while index < self.free.len() && self.free[index].len < requested
            invariant
                index <= self.free@.len(),
                *self == *old(self),
                heap_model::first_fit(self@.free, requested as int) == heap_model::first_fit_from(
                    self@.free,
                    requested as int,
                    index as int,
                ),
            decreases self.free@.len() - index,
        {
            index = index + 1;
        }
        if index == self.free.len() {
            return Err(Error::Usage("symmetric heap exhausted"));
        }
        let ghost before = self@;
        let block = self.free[index];
        proof {
            assert(before.free[index as int] == block.span());
            assert(block.span().inside(before.capacity));
            assert(heap_model::first_fit(before.free, requested as int) == Some(index as int));
            heap_model::lemma_carve_wf(before, index as int, requested as int);
        }
        let ptr = SymPtr(self.local_base as usize + block.start);
        if block.len == requested {
            self.free.remove(index);
        } else {
            self.free.set(
                index,
                Block { start: block.start + requested, len: block.len - requested },
            );
        }
        self.allocations.insert(ptr.0, requested);
        assert(self@ =~= before.carve(index as int, requested as int));
        Ok(ptr)
    }

    /// Return an allocation to the free list; double/foreign frees are errors.
    pub fn free(&mut self, ptr: SymPtr) -> (result: Result<()>)
        requires
            old(self).wf(),
        ensures
            final(self).wf(),
            old(self)@.frees(ptr, result, final(self)@),
            result is Ok <==> old(self)@.live.contains_key(ptr.addr()),
            final(self)@.live == old(self)@.live.remove(ptr.addr()),
    {
        let ghost before = self@;
        let len = match self.allocations.remove(&ptr.0) {
            Some(len) => len,
            None => {
                assert(self@ =~= before);
                return Err(Error::Usage("invalid symmetric pointer"));
            },
        };
        assert(before.live_span(ptr.0).inside(before.capacity));
        let start = ptr.0 - self.local_base as usize;
        let freed = Block { start, len };
        let mut position: usize = 0;
        while position < self.free.len() && self.free[position].start < start
            invariant
                position <= self.free@.len(),
                spans_of(self.free@) == before.free,
                forall|i: int| 0 <= i < position ==> (#[trigger] self.free@[i]).start < start,
                self.local_base == old(self).local_base,
                self.capacity == old(self).capacity,
                self.packed_rkey == old(self).packed_rkey,
                self.allocations@ == before.live.remove(ptr.0),
            decreases self.free@.len() - position,
        {
            position = position + 1;
        }
        let ghost blocks = self.free@;
        self.free.insert(position, freed);
        proof {
            let p = position as int;
            assert forall|i: int| 0 <= i < blocks.len() implies (#[trigger] blocks[i]).span()
                == before.free[i] && blocks[i].span().inside(before.capacity)
                && blocks[i].span().apart(freed.span()) by {
                assert(before.free[i].inside(before.capacity));
                assert(before.live_span(ptr.0).apart(before.free[i]));
            }
            let inserted = self.free@;
            assert forall|i: int|
                0 <= i < inserted.len() implies (#[trigger] inserted[i]).span().inside(
                before.capacity,
            ) by {
                if i < p {
                    assert(inserted[i] == blocks[i]);
                } else if i > p {
                    assert(inserted[i] == blocks[i - 1]);
                }
            }
            assert forall|i: int, j: int|
                #![trigger inserted[i], inserted[j]]
                0 <= i < j < inserted.len() implies inserted[i].span().end()
                <= inserted[j].start by {
                let i0 = if i < p { i } else { i - 1 };
                let j0 = if j < p { j } else { j - 1 };
                if i != p && j != p {
                    assert(inserted[i] == blocks[i0] && inserted[j] == blocks[j0]);
                    assert(before.free[i0].end() < before.free[j0].start);
                } else if i == p {
                    assert(inserted[j] == blocks[j0]);
                    if j0 > p {
                        assert(before.free[p].end() < before.free[j0].start);
                        assert(blocks[p].span() == before.free[p]);
                    }
                } else {
                    assert(inserted[i] == blocks[i0]);
                }
            }
        }
        let merged = coalesce(&self.free, Ghost(before.capacity));
        let ghost inserted = self.free@;
        self.free = merged;
        proof {
            assert forall|x: int| #[trigger]
                heap_model::in_spans(self@.free, x) <==> heap_model::in_spans(before.free, x)
                    || before.live_span(ptr.0).has(x) by {
                assert(heap_model::in_spans(self@.free, x) <==> heap_model::in_spans(
                    spans_of(inserted),
                    x,
                ));
                lemma_in_inserted(blocks, position as int, freed, x);
            }
            heap_model::lemma_release_wf(before, self@, ptr.0);
        }
        Ok(())
    }

    /// Return the local address of the first byte of the heap.
    pub fn local_base(&self) -> (base: u64)
        ensures
            base == self@.base,
    {
        self.local_base
    }

    /// Return the packed rkey under which the heap is registered.
    pub fn packed_rkey(&self) -> (rkey: &[u8])
        ensures
            rkey@ == self@.rkey,
    {
        self.packed_rkey.as_slice()
    }

    /// Return the number of bytes of the heap.
    pub fn capacity(&self) -> (bytes: usize)
        ensures
            bytes == self@.capacity,
    {
        self.capacity
    }
}

proof fn lemma_in_inserted(blocks: Seq<Block>, p: int, block: Block, x: int)
    requires
        0 <= p <= blocks.len(),
    ensures
        heap_model::in_spans(spans_of(blocks.insert(p, block)), x) <==> heap_model::in_spans(
            spans_of(blocks),
            x,
        ) || block.span().has(x),
{
    let old = spans_of(blocks);
    let new = spans_of(blocks.insert(p, block));
    if heap_model::in_spans(new, x) {
        let i = choose|i: int| 0 <= i < new.len() && (#[trigger] new[i]).has(x);
        if i < p {
            assert(old[i].has(x));
        } else if i > p {
            assert(old[i - 1].has(x));
        }
    }
    if heap_model::in_spans(old, x) {
        let i = choose|i: int| 0 <= i < old.len() && (#[trigger] old[i]).has(x);
        if i < p {
            assert(new[i].has(x));
        } else {
            assert(new[i + 1].has(x));
        }
    }
    if block.span().has(x) {
        assert(new[p].has(x));
    }
}

/// Thin handle for allocations from a stored symmetric heap.
///
/// Threads that share a handle take turns: its caller keeps it behind a mutex.
#[derive(Debug)]
pub struct SymAlloc(SymHeap);

impl View for SymAlloc {
    type V = HeapModel;

    closed spec fn view(&self) -> HeapModel {
        self.0@
    }
}

impl SymAlloc {
    pub open spec fn wf(&self) -> bool {
        self@.wf()
    }

    /// Store a heap.
    pub fn new(heap: SymHeap) -> (stored: Self)
        requires
            heap.wf(),
        ensures
            stored.wf(),
            stored@ == heap@,
    {
        SymAlloc(heap)
    }

    /// Allocate at least `size` bytes, aligned to eight bytes.
    pub fn malloc(&mut self, size: usize) -> (result: Result<SymPtr>)
        requires
            old(self).wf(),
        ensures
            final(self).wf(),
            old(self)@.mallocs(size as int, result, final(self)@),
            result matches Ok(ptr) ==> ptr.addr() % ALIGNMENT == 0,
    {
        self.0.malloc(size)
    }

    /// Return an allocation to the free list; double/foreign frees are errors.
    pub fn free(&mut self, ptr: SymPtr) -> (result: Result<()>)
        requires
            old(self).wf(),
        ensures
            final(self).wf(),
            old(self)@.frees(ptr, result, final(self)@),
            result is Ok <==> old(self)@.live.contains_key(ptr.addr()),
            final(self)@.live == old(self)@.live.remove(ptr.addr()),
    {
        self.0.free(ptr)
    }

    /// Return the local address of the first byte of the heap.
    pub fn local_base(&self) -> (base: Result<u64>)
        ensures
            base matches Ok(base) && base == self@.base,
    {
        Ok(self.0.local_base())
    }
}

} // verus!
