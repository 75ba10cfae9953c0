//! Per-frame bump allocator: a fixed region handed out front to back and
//! released all at once. Allocations are offsets into the region.

use vstd::prelude::*;

verus! {

/// Size of the region: 16 MiB.
pub const BUMP_SIZE: usize = 16777216;
/// Alignment of the region itself (one page).
pub const BUMP_ALIGN: usize = 4096;

/// `align` is a power of two.
pub open spec fn is_pow2(align: usize) -> bool {
    align != 0 && align & ((align - 1) as usize) == 0
}

/// The first offset at or after `current` whose low bits under `align - 1`
/// are cleared: `(current + align - 1) & !(align - 1)`.
pub open spec fn align_up(current: usize, align: usize) -> usize {
    ((current + align - 1) as usize) & !((align - 1) as usize)
}

proof fn lemma_mask_facts(v: usize, m: usize)
    by (bit_vector)
    ensures
        v & !m == v - (v & m),
        v & m <= m,
        (v & !m) & m == 0,
        v & !m <= v,
{
}

proof fn lemma_single_bit(a: u64, k: u64)
    by (bit_vector)
    requires
        k < 64,
        a & ((a - 1) as u64) == 0,
        (a >> k) & 1u64 == 1u64,
    ensures
        a == 1u64 << k,
{
}

proof fn lemma_pow2_mask_mod(r: u64, a: u64)
    requires
        a != 0,
        a & ((a - 1) as u64) == 0,
        r & ((a - 1) as u64) == 0,
    ensures
        r % a == 0,
{
    vstd::std_specs::bits::axiom_u64_trailing_zeros(a);
    let k = vstd::std_specs::bits::u64_trailing_zeros(a) as u64;
    lemma_single_bit(a, k);
    vstd::arithmetic::power2::lemma_pow2_pos(k as nat);
    vstd::bits::lemma_u64_pow2_no_overflow(k as nat);
    vstd::bits::lemma_u64_shl_is_mul(1u64, k);
    assert(a as int == vstd::arithmetic::power2::pow2(k as nat));
    vstd::bits::lemma_u64_low_bits_mask_is_mod(r, k as nat);
}

/// For a power-of-two alignment, the aligned offset is a multiple of
/// `align`, not before `current`, and less than `align` past it.
pub proof fn lemma_align_up_pow2(current: usize, align: usize)
    requires
        is_pow2(align),
        current + align - 1 <= usize::MAX,
    ensures
        align_up(current, align) >= current,
        align_up(current, align) < current + align,
        align_up(current, align) % align == 0,
{
    let m = (align - 1) as usize;
    let v = (current + m) as usize;
    lemma_mask_facts(v, m);
    lemma_pow2_mask_mod(align_up(current, align) as u64, align as u64);
}

/// Bump allocator over a region of `BUMP_SIZE` bytes.
pub struct BumpAllocator {
    offset: usize,
    size: usize,
}

impl BumpAllocator {
    /// Bytes handed out since the last reset.
    pub closed spec fn used_bytes(self) -> nat {
        self.offset as nat
    }

    /// Size of the region.
    pub closed spec fn capacity(self) -> nat {
        self.size as nat
    }

    /// The offset never passes the end of the region.
    pub closed spec fn wf(self) -> bool {
        &&& self.offset <= self.size
        &&& self.size == BUMP_SIZE
    }

    /// An allocator with the whole region free.
    pub fn new() -> (r: BumpAllocator)
        ensures
            r.wf(),
            r.used_bytes() == 0,
            r.capacity() == BUMP_SIZE,
    {
        BumpAllocator { offset: 0, size: BUMP_SIZE }
    }

    /// Reserves `size` bytes aligned by `align`; gives the offset of the
    /// block, or `None` when the rest of the region is too small.
    pub fn allocate(&mut self, size: usize, align: usize) -> (r: Option<usize>)
        requires
            old(self).wf(),
            align >= 1,
            BUMP_SIZE + align <= usize::MAX,
            BUMP_SIZE + align + size <= usize::MAX,
        ensures
            final(self).wf(),
            final(self).capacity() == BUMP_SIZE,
            r is None <==> align_up(old(self).used_bytes() as usize, align) + size > old(self).capacity(),
            r is None ==> final(self).used_bytes() == old(self).used_bytes(),
            r matches Some(a) ==> {
                &&& a == align_up(old(self).used_bytes() as usize, align)
                &&& final(self).used_bytes() == a + size
            },
            is_pow2(align) ==> (r matches Some(a) ==> {
                &&& a % align == 0
                &&& old(self).used_bytes() <= a < old(self).used_bytes() + align
            }),
    {
        let current = self.offset;
        let aligned = (current + align - 1) & !(align - 1);
        assert(aligned == align_up(current, align));
        proof {
            lemma_mask_facts((current + align - 1) as usize, (align - 1) as usize);
        }
        let next = aligned + size;
        if next > self.size {
            return None;
        }
        self.offset = next;
        proof {
            if is_pow2(align) {
                lemma_align_up_pow2(current, align);
            }
        }
        Some(aligned)
    }

    /// Releases every block at once.
    pub fn reset(&mut self)
        requires
            old(self).wf(),
        ensures
            final(self).wf(),
            final(self).used_bytes() == 0,
            final(self).capacity() == BUMP_SIZE,
    {
        self.offset = 0;
    }

    /// Bytes handed out since the last reset.
    pub fn used(&self) -> (r: usize)
        ensures
            r == self.used_bytes(),
    {
        self.offset
    }

    /// Bytes still free.
    pub fn free(&self) -> (r: usize)
        requires
            self.wf(),
        ensures
            r == self.capacity() - self.used_bytes(),
            r == BUMP_SIZE - self.used_bytes(),
    {
        self.size - self.offset
    }
}

/// Two blocks taken one after the other, with no reset between, do not
/// overlap: the second starts at or after the end of the first.
pub proof fn lemma_successive_blocks_disjoint(
    start: usize,
    size1: usize,
    align1: usize,
    size2: usize,
    align2: usize,
)
    requires
        is_pow2(align1),
        is_pow2(align2),
        start <= BUMP_SIZE,
        align_up(start, align1) + size1 <= BUMP_SIZE,
        BUMP_SIZE + align1 <= usize::MAX,
        BUMP_SIZE + align2 <= usize::MAX,
    ensures
        align_up((align_up(start, align1) + size1) as usize, align2) >= align_up(start, align1) + size1,
        align_up(start, align1) >= start,
{
    lemma_align_up_pow2(start, align1);
    lemma_align_up_pow2((align_up(start, align1) + size1) as usize, align2);
}

/// Bytes in use and the blocks handed out after the requests `reqs`
/// (`(size, align)` each) on an allocator that had `start` bytes in use: each
/// request takes the block at `align_up(used, align)` when it fits in the
/// region (as `BumpAllocator::allocate` does) and is refused otherwise.
/// Blocks are `(offset, size)`.
pub open spec fn run(start: usize, reqs: Seq<(usize, usize)>) -> (usize, Seq<(int, int)>)
    decreases reqs.len(),
{
    if reqs.len() == 0 {
        (start, seq![])
    } else {
        let (used, blocks) = run(start, reqs.drop_last());
        let (size, align) = reqs.last();
        let a = align_up(used, align);
        if a + size > BUMP_SIZE {
            (used, blocks)
        } else {
            ((a + size) as usize, blocks.push((a as int, size as int)))
        }
    }
}

/// Every block handed out since the last reset lies inside the region and
/// before the bytes still free, and no two of them overlap: each ends at or
/// before the start of any later one.
pub proof fn lemma_blocks_never_overlap(reqs: Seq<(usize, usize)>)
    requires
        forall|k: int| 0 <= k < reqs.len() ==> #[trigger] is_pow2(reqs[k].1) && BUMP_SIZE + reqs[k].1 <= usize::MAX,
    ensures
        run(0, reqs).0 <= BUMP_SIZE,
        forall|k: int| 0 <= k < run(0, reqs).1.len() ==> {
            &&& 0 <= #[trigger] run(0, reqs).1[k].0
            &&& run(0, reqs).1[k].0 + run(0, reqs).1[k].1 <= run(0, reqs).0
        },
        forall|j: int, k: int| 0 <= j < k < run(0, reqs).1.len() ==>
            #[trigger] run(0, reqs).1[j].0 + run(0, reqs).1[j].1 <= #[trigger] run(0, reqs).1[k].0,
    decreases reqs.len(),
{
    if reqs.len() > 0 {
        let prev = reqs.drop_last();
        assert forall|k: int| 0 <= k < prev.len() implies #[trigger] is_pow2(prev[k].1) && BUMP_SIZE + prev[k].1 <= usize::MAX by {
            assert(prev[k] == reqs[k]);
        }
        lemma_blocks_never_overlap(prev);
        let (used, blocks) = run(0, prev);
        let (size, align) = reqs.last();
        assert(is_pow2(reqs[reqs.len() - 1].1));
        lemma_align_up_pow2(used, align);
    }
}

} // verus!
