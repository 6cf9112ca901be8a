//! A model of a plugin's linear memory: its bytes, and the regions that the
//! plugin's allocator has handed out and not yet taken back.

use crate::frame::{
    encode_frame, frame, frame_at, frame_error, lemma_frame_roundtrip, read_frame, FrameError,
};
use vstd::bytes::lemma_auto_spec_u64_to_from_le_bytes;
use vstd::prelude::*;

verus! {

/// What a `GuestMemory` holds, as mathematical values.
pub struct MemoryView {
    /// The contents of linear memory, indexed by address.
    pub bytes: Seq<u8>,
    /// The live allocations, as (start address, size) pairs, oldest first.
    pub live: Seq<(u64, u64)>,
}

/// Whether two regions share no address.
pub open spec fn disjoint(a: (u64, u64), b: (u64, u64)) -> bool {
    a.0 + a.1 <= b.0 || b.0 + b.1 <= a.0
}

/// Whether a region lies inside a memory of `len` bytes.
pub open spec fn fits(len: int, r: (u64, u64)) -> bool {
    r.0 + r.1 <= len
}

/// The invariant of a plugin's memory: addresses fit in `u64`, every live
/// region holds at least one byte and lies inside memory, and no two live
/// regions overlap.
pub open spec fn memory_wf(m: MemoryView) -> bool {
    &&& m.bytes.len() <= u64::MAX
    &&& forall|i: int| 0 <= i < m.live.len() ==> #[trigger] fits(m.bytes.len() as int, m.live[i])
    &&& forall|i: int| 0 <= i < m.live.len() ==> (#[trigger] m.live[i]).1 > 0
    &&& forall|i: int, j: int|
        0 <= i < m.live.len() && 0 <= j < m.live.len() && i != j ==> disjoint(
            #[trigger] m.live[i],
            #[trigger] m.live[j],
        )
}

/// `bytes` with the bytes from address `at` on replaced by `data`.
pub open spec fn splice(bytes: Seq<u8>, at: int, data: Seq<u8>) -> Seq<u8> {
    bytes.subrange(0, at) + data + bytes.subrange(at + data.len(), bytes.len() as int)
}

/// The linear memory of a plugin together with its allocation table.
pub struct GuestMemory {
    bytes: Vec<u8>,
    live: Vec<(u64, u64)>,
}

impl View for GuestMemory {
    type V = MemoryView;

    closed spec fn view(&self) -> MemoryView {
        MemoryView { bytes: self.bytes@, live: self.live@ }
    }
}

impl GuestMemory {
    #[verifier::type_invariant]
    closed spec fn inv(self) -> bool {
        memory_wf(self@)
    }

    /// An empty memory with nothing allocated.
    pub fn new() -> (m: GuestMemory)
        ensures
            m@.bytes == Seq::<u8>::empty(),
            m@.live == Seq::<(u64, u64)>::empty(),
            memory_wf(m@),
    {
        GuestMemory { bytes: Vec::new(), live: Vec::new() }
    }

    /// A memory holding `bytes`, with nothing allocated.
    pub fn from_bytes(bytes: Vec<u8>) -> (m: GuestMemory)
        ensures
            m@.bytes == bytes@,
            m@.live == Seq::<(u64, u64)>::empty(),
            memory_wf(m@),
    {
        let n = bytes.len();
        assert(n as int <= u64::MAX);
        GuestMemory { bytes, live: Vec::new() }
    }

    /// The contents of memory.
    pub fn bytes(&self) -> (b: &[u8])
        ensures
            b@ == self@.bytes,
    {
        self.bytes.as_slice()
    }

    /// The live allocations, oldest first.
    pub fn live_regions(&self) -> (r: Vec<(u64, u64)>)
        ensures
            r@ == self@.live,
    {
        let mut r: Vec<(u64, u64)> = Vec::new();
        let mut i: usize = 0;
        while i < self.live.len()
            invariant
                i <= self.live@.len(),
                r@ == self.live@.subrange(0, i as int),
            decreases self.live@.len() - i,
        {
            r.push(self.live[i]);
            i = i + 1;
            assert(r@ =~= self.live@.subrange(0, i as int));
        }
        assert(self.live@.subrange(0, self.live@.len() as int) =~= self.live@);
        r
    }

    /// Whether `(ptr, size)` is a live region.
    pub fn is_live(&self, ptr: u64, size: u64) -> (b: bool)
        ensures
            b == self@.live.contains((ptr, size)),
    {
        let mut i: usize = 0;
        while i < self.live.len()
            invariant
                i <= self.live@.len(),
                forall|j: int| 0 <= j < i ==> self.live@[j] != (ptr, size),
            decreases self.live@.len() - i,
        {
            let r = self.live[i];
            if r.0 == ptr && r.1 == size {
                assert(self.live@[i as int] == (ptr, size));
                return true;
            }
            i = i + 1;
        }
        false
    }
}

/// Moves the contents out of `memory`, leaving it empty.
fn take_parts(memory: &mut GuestMemory) -> (parts: (Vec<u8>, Vec<(u64, u64)>))
    ensures
        parts.0@ == old(memory)@.bytes,
        parts.1@ == old(memory)@.live,
        memory_wf(old(memory)@),
{
    proof {
        use_type_invariant(&*memory);
    }
    let mut taken = GuestMemory::new();
    std::mem::swap(memory, &mut taken);
    let GuestMemory { bytes, live } = taken;
    (bytes, live)
}

/// `bytes`, with address 0 held back when memory is empty: no region ever
/// starts at the null address, so an empty memory first gains one zero byte.
pub open spec fn null_guarded(bytes: Seq<u8>) -> Seq<u8> {
    if bytes.len() == 0 {
        seq![0u8]
    } else {
        bytes
    }
}

/// The address handed out for a request of zero bytes: the dangling, non-null
/// address of an empty byte buffer, which reserves nothing.
pub open spec fn dangling_addr() -> u64 {
    1
}

/// `after` is `before` once `wasmium_alloc` has answered a request for `size`
/// bytes with `ptr`.
///
/// For zero bytes nothing is reserved: the address is the dangling one and
/// memory is unchanged. Otherwise memory grew by `size` zero bytes at its end
/// (after the byte that holds back address 0, in an empty memory), where the
/// region starts, so its address is never 0; no earlier byte changed, and the
/// region joined the live ones, overlapping none.
pub open spec fn allocated(before: MemoryView, size: u64, ptr: u64, after: MemoryView) -> bool {
    if size == 0 {
        &&& ptr == dangling_addr()
        &&& after == before
    } else {
        &&& ptr == null_guarded(before.bytes).len()
        &&& ptr > 0
        &&& after.bytes.len() == ptr + size
        &&& after.bytes.subrange(0, ptr as int) == null_guarded(before.bytes)
        &&& forall|i: int| ptr <= i < after.bytes.len() ==> after.bytes[i] == 0
        &&& after.live == before.live.push((ptr, size))
        &&& forall|i: int| 0 <= i < before.live.len() ==> disjoint(before.live[i], (ptr, size))
    }
}

/// `after` is `before` once `wasmium_free` has been told to give back
/// `(ptr, size)`: for zero bytes nothing was reserved and nothing changes;
/// otherwise the first record of that region left the table and no byte
/// changed.
pub open spec fn freed(before: MemoryView, ptr: u64, size: u64, after: MemoryView) -> bool {
    if size == 0 {
        after == before
    } else {
        &&& after.bytes == before.bytes
        &&& exists|i: int|
            is_first_index(before.live, (ptr, size), i) && after.live == before.live.remove(i)
    }
}

/// `after` is `before` once `write_bytes` has written the frame of `data` at
/// `ptr`: those bytes were replaced and nothing else changed.
pub open spec fn written(before: MemoryView, ptr: u64, data: Seq<u8>, after: MemoryView) -> bool {
    &&& after.bytes == splice(before.bytes, ptr as int, frame(data))
    &&& after.live == before.live
}

/// Every memory keeps its invariant.
pub(crate) fn memory_invariant(memory: &GuestMemory)
    ensures
        memory_wf(memory@),
{
    proof {
        use_type_invariant(memory);
    }
}

/// Whether `i` is the first position of `r` in `s`.
pub open spec fn is_first_index(s: Seq<(u64, u64)>, r: (u64, u64), i: int) -> bool {
    &&& 0 <= i < s.len()
    &&& s[i] == r
    &&& forall|j: int| 0 <= j < i ==> s[j] != r
}

proof fn lemma_remove_keeps_wf(m: MemoryView, i: int)
    requires
        memory_wf(m),
        0 <= i < m.live.len(),
    ensures
        memory_wf(MemoryView { bytes: m.bytes, live: m.live.remove(i) }),
{
    let live = m.live.remove(i);
    assert forall|a: int| 0 <= a < live.len() implies #[trigger] fits(m.bytes.len() as int, live[a])
        && live[a].1 > 0 by {
        if a < i {
            assert(live[a] == m.live[a]);
        } else {
            assert(live[a] == m.live[a + 1]);
        }
    }
    assert forall|a: int, b: int|
        0 <= a < live.len() && 0 <= b < live.len() && a != b implies disjoint(
        #[trigger] live[a],
        #[trigger] live[b],
    ) by {
        let a2 = if a < i { a } else { a + 1 };
        let b2 = if b < i { b } else { b + 1 };
        assert(live[a] == m.live[a2]);
        assert(live[b] == m.live[b2]);
    }
}

/// Reserves a fresh region of `size` bytes and returns its address.
///
/// A request for zero bytes reserves nothing and answers with the dangling
/// address. Otherwise memory grows by `size` zero bytes at its end, and the
/// new region is recorded as live; no byte that existed before changes, the
/// region overlaps no region that was live before, and its address is not 0.
pub fn wasmium_alloc(memory: &mut GuestMemory, size: u64) -> (ptr: u64)
    requires
        old(memory)@.bytes.len() + size < usize::MAX,
        size <= isize::MAX,
    ensures
        allocated(old(memory)@, size, ptr, final(memory)@),
        memory_wf(final(memory)@),
{
    if size == 0 {
        memory_invariant(memory);
        return 1;
    }
    let (mut bytes, mut live) = take_parts(memory);
    let ghost m0 = old(memory)@;
    if bytes.len() == 0 {
        bytes.push(0);
    }
    assert(bytes@ =~= null_guarded(m0.bytes));
    let ptr = bytes.len() as u64;
    let mut i: u64 = 0;
    while i < size
        invariant
            i <= size,
            ptr == null_guarded(m0.bytes).len(),
            ptr > 0,
            ptr <= m0.bytes.len() + 1,
            m0.bytes.len() + size < usize::MAX,
            bytes@.len() == ptr + i,
            bytes@.subrange(0, ptr as int) == null_guarded(m0.bytes),
            forall|k: int| ptr <= k < bytes@.len() ==> bytes@[k] == 0,
        decreases size - i,
    {
        let ghost before = bytes@;
        bytes.push(0);
        assert(bytes@.subrange(0, ptr as int) =~= before.subrange(0, ptr as int));
        i = i + 1;
    }
    assert forall|k: int| 0 <= k < live@.len() implies disjoint(#[trigger] live@[k], (ptr, size)) by {
        assert(fits(m0.bytes.len() as int, m0.live[k]));
    }
    live.push((ptr, size));
    assert forall|k: int| 0 <= k < live@.len() implies #[trigger] fits(
        bytes@.len() as int,
        live@[k],
    ) by {
        if k < m0.live.len() {
            assert(fits(m0.bytes.len() as int, m0.live[k]));
        }
    }
    assert forall|k: int| 0 <= k < live@.len() implies (#[trigger] live@[k]).1 > 0 by {
        if k < m0.live.len() {
            assert(m0.live[k].1 > 0);
        }
    }
    assert forall|a: int, b: int|
        0 <= a < live@.len() && 0 <= b < live@.len() && a != b implies disjoint(
        #[trigger] live@[a],
        #[trigger] live@[b],
    ) by {
        if a < m0.live.len() && b < m0.live.len() {
            assert(disjoint(m0.live[a], m0.live[b]));
        } else if a < m0.live.len() {
            assert(fits(m0.bytes.len() as int, m0.live[a]));
        } else {
            assert(fits(m0.bytes.len() as int, m0.live[b]));
        }
    }
    *memory = GuestMemory { bytes, live };
    ptr
}

/// Gives back the live region `(ptr, size)`.
///
/// Giving back zero bytes does nothing, as a request for zero bytes reserved
/// nothing. Otherwise the first record of that region leaves the allocation
/// table; the bytes of memory do not change.
pub fn wasmium_free(memory: &mut GuestMemory, ptr: u64, size: u64)
    requires
        size == 0 || old(memory)@.live.contains((ptr, size)),
    ensures
        freed(old(memory)@, ptr, size, final(memory)@),
        memory_wf(final(memory)@),
{
    if size == 0 {
        memory_invariant(memory);
        return;
    }
    let (bytes, mut live) = take_parts(memory);
    let ghost m0 = old(memory)@;
    let mut i: usize = 0;
    while i < live.len()
        invariant
            i <= live@.len(),
            m0 == old(memory)@,
            live@ == m0.live,
            bytes@ == m0.bytes,
            memory_wf(m0),
            size > 0,
            m0.live.contains((ptr, size)),
            forall|j: int| 0 <= j < i ==> live@[j] != (ptr, size),
        decreases live@.len() - i,
    {
        let r = live[i];
        if r.0 == ptr && r.1 == size {
            proof {
                lemma_remove_keeps_wf(m0, i as int);
            }
            live.remove(i);
            assert(is_first_index(m0.live, (ptr, size), i as int));
            *memory = GuestMemory { bytes, live };
            return;
        }
        i = i + 1;
    }
    *memory = GuestMemory { bytes, live };
}

/// Reserves a region exactly as large as the frame of `payload`, writes the
/// frame there and returns its address: memory grows by that frame at its
/// end (after the byte that holds back address 0, in an empty memory), and
/// the region joins the live ones.
pub fn alloc_frame(memory: &mut GuestMemory, payload: &[u8]) -> (ptr: u64)
    requires
        old(memory)@.bytes.len() + 8 + payload@.len() < usize::MAX,
        8 + payload@.len() <= isize::MAX,
    ensures
        ptr == null_guarded(old(memory)@.bytes).len(),
        ptr > 0,
        final(memory)@.bytes == null_guarded(old(memory)@.bytes) + frame(payload@),
        final(memory)@.live == old(memory)@.live.push((ptr, (8 + payload@.len()) as u64)),
        memory_wf(final(memory)@),
{
    let ghost m0 = memory@;
    let size = payload.len() as u64 + 8;
    let ptr = wasmium_alloc(memory, size);
    let ghost m1 = memory@;
    write_bytes(memory, ptr, payload);
    proof {
        lemma_auto_spec_u64_to_from_le_bytes();
        assert(m1.bytes.subrange(0, ptr as int) == null_guarded(m0.bytes));
        assert(memory@.bytes =~= null_guarded(m0.bytes) + frame(payload@));
    }
    ptr
}

/// Reads the frame that starts at address `ptr` and returns a copy of its
/// payload; a frame that does not lie wholly inside memory is an error.
pub fn read_bytes(memory: &GuestMemory, ptr: u64) -> (r: Result<Vec<u8>, FrameError>)
    ensures
        r is Ok <==> frame_at(memory@.bytes, ptr as int) is Some,
        r matches Ok(p) ==> frame_at(memory@.bytes, ptr as int) == Some(p@),
        r matches Err(e) ==> frame_error(memory@.bytes, ptr as int) == Some(e),
        memory_wf(memory@),
{
    proof {
        use_type_invariant(memory);
    }
    read_frame(memory.bytes.as_slice(), ptr)
}

/// Writes the frame that carries `data` at address `ptr`: the 8-byte
/// little-endian length of `data`, then `data`. Nothing else changes.
pub fn write_bytes(memory: &mut GuestMemory, ptr: u64, data: &[u8])
    requires
        ptr + 8 + data@.len() <= old(memory)@.bytes.len(),
    ensures
        written(old(memory)@, ptr, data@, final(memory)@),
        memory_wf(final(memory)@),
{
    let (mut bytes, live) = take_parts(memory);
    let ghost m0 = old(memory)@;
    let framed = encode_frame(data);
    let total = bytes.len();
    proof {
        vstd::bytes::lemma_auto_spec_u64_to_from_le_bytes();
    }
    assert(ptr <= total);
    let start = ptr as usize;
    let mut k: usize = 0;
    while k < framed.len()
        invariant
            k <= framed@.len(),
            framed@ == frame(data@),
            framed@.len() == 8 + data@.len(),
            start == ptr,
            total == m0.bytes.len(),
            ptr + 8 + data@.len() <= m0.bytes.len(),
            bytes@.len() == m0.bytes.len(),
            forall|i: int|
                0 <= i < bytes@.len() ==> #[trigger] bytes@[i] == if start <= i < start + k {
                    framed@[i - start]
                } else {
                    m0.bytes[i]
                },
        decreases framed@.len() - k,
    {
        bytes.set(start + k, framed[k]);
        k = k + 1;
    }
    assert(bytes@ =~= splice(m0.bytes, ptr as int, frame(data@)));
    *memory = GuestMemory { bytes, live };
}

/// Reading at the address where a frame was written gives back the data
/// that was written.
pub proof fn lemma_read_after_write(before: MemoryView, ptr: u64, data: Seq<u8>, after: MemoryView)
    requires
        memory_wf(before),
        written(before, ptr, data, after),
        ptr + 8 + data.len() <= before.bytes.len(),
    ensures
        frame_at(after.bytes, ptr as int) == Some(data),
{
    lemma_auto_spec_u64_to_from_le_bytes();
    let prefix = before.bytes.subrange(0, ptr as int);
    let suffix = before.bytes.subrange(ptr + 8 + data.len(), before.bytes.len() as int);
    assert(frame(data).len() == 8 + data.len());
    assert(after.bytes =~= prefix + frame(data) + suffix);
    lemma_frame_roundtrip(prefix, data, suffix);
}

/// A frame appended after the bytes `base`, as `alloc_frame` places it,
/// reads back as its payload at the address where it starts.
pub proof fn lemma_appended_frame_reads_back(base: Seq<u8>, payload: Seq<u8>, after: Seq<u8>)
    requires
        payload.len() <= u64::MAX,
        after == base + frame(payload),
    ensures
        frame_at(after, base.len() as int) == Some(payload),
{
    lemma_frame_roundtrip(base, payload, Seq::empty());
    assert(base + frame(payload) + Seq::<u8>::empty() =~= after);
}

/// Writing a frame leaves every frame that lies wholly outside the written
/// bytes readable and unchanged.
pub proof fn lemma_write_preserves_other_frames(
    before: MemoryView,
    ptr: u64,
    data: Seq<u8>,
    after: MemoryView,
    at: int,
)
    requires
        written(before, ptr, data, after),
        ptr + 8 + data.len() <= before.bytes.len(),
        frame_at(before.bytes, at) is Some,
        at + 8 + frame_at(before.bytes, at)->0.len() <= ptr || ptr + 8 + data.len() <= at,
    ensures
        frame_at(after.bytes, at) == frame_at(before.bytes, at),
{
    lemma_auto_spec_u64_to_from_le_bytes();
    assert(frame(data).len() == 8 + data.len());
    let n = frame_at(before.bytes, at)->0.len();
    assert(after.bytes.len() == before.bytes.len());
    assert forall|i: int| at <= i < at + 8 + n implies after.bytes[i] == before.bytes[i] by {}
    assert(after.bytes.subrange(at, at + 8) =~= before.bytes.subrange(at, at + 8));
    assert(after.bytes.subrange(at + 8, at + 8 + n) =~= before.bytes.subrange(at + 8, at + 8 + n));
}

/// Allocation leaves every frame already in memory readable and unchanged.
pub proof fn lemma_alloc_preserves_frames(
    before: MemoryView,
    size: u64,
    ptr: u64,
    after: MemoryView,
    at: int,
)
    requires
        allocated(before, size, ptr, after),
        frame_at(before.bytes, at) is Some,
    ensures
        frame_at(after.bytes, at) == frame_at(before.bytes, at),
{
    if size > 0 {
        let n = frame_at(before.bytes, at)->0.len();
        assert(null_guarded(before.bytes) == before.bytes);
        assert forall|i: int| 0 <= i < before.bytes.len() implies after.bytes[i] == before.bytes[i] by {
            assert(after.bytes.subrange(0, ptr as int)[i] == after.bytes[i]);
        }
        assert(after.bytes.subrange(at, at + 8) =~= before.bytes.subrange(at, at + 8));
        assert(after.bytes.subrange(at + 8, at + 8 + n) =~= before.bytes.subrange(
            at + 8,
            at + 8 + n,
        ));
    }
}

/// Giving back a region right after it was allocated restores the table of
/// live regions exactly and leaves every byte that was in memory before as
/// it was; the memory keeps the bytes it grew by. A request for zero bytes
/// followed by its release leaves memory exactly as it was.
pub proof fn lemma_alloc_then_free(
    m0: MemoryView,
    size: u64,
    ptr: u64,
    m1: MemoryView,
    m2: MemoryView,
)
    requires
        memory_wf(m0),
        allocated(m0, size, ptr, m1),
        freed(m1, ptr, size, m2),
    ensures
        m2.bytes == m1.bytes,
        m2.bytes.subrange(0, m0.bytes.len() as int) == m0.bytes,
        m2.live == m0.live,
        size == 0 ==> m2 == m0,
{
    if size == 0 {
        assert(m0.bytes.subrange(0, m0.bytes.len() as int) =~= m0.bytes);
    } else {
        if m0.bytes.len() > 0 {
            assert(m1.bytes.subrange(0, ptr as int) == m0.bytes);
            assert(m2.bytes.subrange(0, m0.bytes.len() as int) =~= m0.bytes);
        } else {
            assert(m2.bytes.subrange(0, 0) =~= m0.bytes);
        }
        let i = choose|i: int|
            is_first_index(m1.live, (ptr, size), i) && m2.live == m1.live.remove(i);
        if i < m0.live.len() {
            assert(fits(m0.bytes.len() as int, m0.live[i]));
            assert(false);
        }
        assert(m1.live.remove(i) =~= m0.live);
    }
}

} // verus!
