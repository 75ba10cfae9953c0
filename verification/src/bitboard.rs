//! Occupancy bitboards: one `u64` holds an 8x8 block of cells, and a grid of
//! such blocks covers a 128x128 map in several layers.

use vstd::prelude::*;
use vstd::std_specs::bits::{u64_trailing_zeros, axiom_u64_trailing_zeros};

verus! {

/// Bit `i` of `v` is one.
pub open spec fn bit(v: u64, i: u64) -> bool {
    (v >> i) & 1u64 == 1u64
}

/// The bit index of cell `(x, y)` inside an 8x8 block.
pub open spec fn cell_bit(x: u8, y: u8) -> u64 {
    (y * 8 + x) as u64
}

/// Number of one bits of `v`.
pub open spec fn popcount(v: u64) -> nat
    decreases v,
{
    if v == 0 {
        0
    } else {
        (v % 2) as nat + popcount(v / 2)
    }
}

proof fn lemma_clear_lowest_halves(v: u64)
    by (bit_vector)
    requires
        v != 0,
    ensures
        v % 2 == 1 ==> v & ((v - 1) as u64) == (v - 1) as u64,
        v % 2 == 0 ==> (v & ((v - 1) as u64)) % 2 == 0
            && (v & ((v - 1) as u64)) / 2 == (v / 2) & ((v / 2 - 1) as u64),
{
}

/// Clearing the lowest one bit of a nonzero value removes exactly one bit.
pub proof fn lemma_popcount_clear_lowest(v: u64)
    requires
        v != 0,
    ensures
        popcount(v & ((v - 1) as u64)) + 1 == popcount(v),
    decreases v,
{
    lemma_clear_lowest_halves(v);
    let w = v & ((v - 1) as u64);
    if v % 2 == 1 {
        assert(w == (v - 1) as u64);
        assert((v - 1) as u64 / 2 == v / 2);
    } else {
        let h = (v / 2) as u64;
        lemma_popcount_clear_lowest(h);
        if w != 0 {
            assert(popcount(w) == popcount(w / 2));
        }
    }
}

proof fn lemma_or_bit(v: u64, k: u64, i: u64)
    by (bit_vector)
    requires
        k < 64,
        i < 64,
    ensures
        ((v | (1u64 << k)) >> i) & 1u64 == 1u64 <==> (i == k || (v >> i) & 1u64 == 1u64),
{
}

proof fn lemma_clear_bit(v: u64, k: u64, i: u64)
    by (bit_vector)
    requires
        k < 64,
        i < 64,
    ensures
        ((v & !(1u64 << k)) >> i) & 1u64 == 1u64 <==> (i != k && (v >> i) & 1u64 == 1u64),
{
}

proof fn lemma_test_bit(v: u64, k: u64)
    by (bit_vector)
    requires
        k < 64,
    ensures
        (v & (1u64 << k)) != 0 <==> (v >> k) & 1u64 == 1u64,
{
}

proof fn lemma_and_bit(a: u64, b: u64, i: u64)
    by (bit_vector)
    requires
        i < 64,
    ensures
        ((a & b) >> i) & 1u64 == 1u64 <==> ((a >> i) & 1u64 == 1u64 && (b >> i) & 1u64 == 1u64),
{
}

proof fn lemma_bitor_bit(a: u64, b: u64, i: u64)
    by (bit_vector)
    requires
        i < 64,
    ensures
        ((a | b) >> i) & 1u64 == 1u64 <==> ((a >> i) & 1u64 == 1u64 || (b >> i) & 1u64 == 1u64),
{
}

proof fn lemma_xor_bit(a: u64, b: u64, i: u64)
    by (bit_vector)
    requires
        i < 64,
    ensures
        ((a ^ b) >> i) & 1u64 == 1u64 <==> ((a >> i) & 1u64 == 1u64) != ((b >> i) & 1u64 == 1u64),
{
}

proof fn lemma_not_bit(a: u64, i: u64)
    by (bit_vector)
    requires
        i < 64,
    ensures
        ((!a) >> i) & 1u64 == 1u64 <==> !((a >> i) & 1u64 == 1u64),
{
}

proof fn lemma_zero_no_bits(v: u64, i: u64)
    by (bit_vector)
    requires
        i < 64,
        v == 0,
    ensures
        !((v >> i) & 1u64 == 1u64),
{
}

/// A value whose 64 bits are all zero is zero, and one with a bit set is not.
proof fn lemma_bits_determine_zero(v: u64)
    ensures
        v == 0 <==> forall|i: u64| i < 64 ==> !bit(v, i),
{
    if v != 0 {
        axiom_u64_trailing_zeros(v);
        let t = u64_trailing_zeros(v) as u64;
        assert(bit(v, t));
    } else {
        assert forall|i: u64| i < 64 implies !bit(v, i) by {
            lemma_zero_no_bits(v, i);
        }
    }
}

proof fn lemma_low_bit_div(v: u64)
    by (bit_vector)
    ensures
        v & 1u64 == v % 2,
        v >> 1u64 == v / 2,
{
}

/// A 64-bit word holds at most 64 one bits.
pub proof fn lemma_popcount_le_64(v: u64)
    ensures
        popcount(v) <= 64,
{
    vstd::arithmetic::power2::lemma2_to64();
    lemma_popcount_bound(v, 64);
}

proof fn lemma_popcount_bound(v: u64, n: nat)
    requires
        n <= 64,
        (v as int) < vstd::arithmetic::power2::pow2(n),
    ensures
        popcount(v) <= n,
    decreases n,
{
    if v != 0 {
        if n == 0 {
            vstd::arithmetic::power2::lemma2_to64();
        } else {
            vstd::arithmetic::power2::lemma_pow2_unfold(n);
            lemma_popcount_bound(v / 2, (n - 1) as nat);
        }
    }
}

/// An 8x8 block of cells; bit `y * 8 + x` is cell `(x, y)`.
#[derive(Copy, Clone, Debug, Default, PartialEq, Eq, Structural)]
pub struct Bitboard64(pub u64);

impl Bitboard64 {
    /// Cell with bit index `i` is occupied.
    #[verifier::inline]
    pub open spec fn has(self, i: u64) -> bool {
        bit(self.0, i)
    }

    /// The block with no cell occupied.
    pub fn empty() -> (r: Bitboard64)
        ensures
            r.0 == 0,
            forall|i: u64| i < 64 ==> !r.has(i),
    {
        proof {
            lemma_bits_determine_zero(0);
        }
        Bitboard64(0)
    }

    /// The block with every cell occupied.
    pub fn full() -> (r: Bitboard64)
        ensures
            r.0 == u64::MAX,
            forall|i: u64| i < 64 ==> r.has(i),
    {
        assert forall|i: u64| i < 64 implies bit(u64::MAX, i) by {
            assert((0xffff_ffff_ffff_ffffu64 >> i) & 1u64 == 1u64) by (bit_vector)
                requires
                    i < 64,
            ;
        }
        Bitboard64(u64::MAX)
    }

    /// Occupies cell `(x, y)`.
    pub fn set(&mut self, x: u8, y: u8)
        requires
            x < 8,
            y < 8,
        ensures
            final(self).0 == old(self).0 | (1u64 << cell_bit(x, y)),
            forall|i: u64| i < 64 ==> (final(self).has(i) <==> (i == cell_bit(x, y) || old(self).has(i))),
    {
        let k: u64 = (y * 8 + x) as u64;
        let newv: u64 = self.0 | (1u64 << k);
        proof {
            assert forall|i: u64| i < 64 implies (bit(newv, i) <==> (i == k || bit(self.0, i))) by {
                lemma_or_bit(self.0, k, i);
            }
        }
        self.0 = newv;
    }

    /// Frees cell `(x, y)`.
    pub fn clear(&mut self, x: u8, y: u8)
        requires
            x < 8,
            y < 8,
        ensures
            final(self).0 == old(self).0 & !(1u64 << cell_bit(x, y)),
            forall|i: u64| i < 64 ==> (final(self).has(i) <==> (i != cell_bit(x, y) && old(self).has(i))),
    {
        let k: u64 = (y * 8 + x) as u64;
        let newv: u64 = self.0 & !(1u64 << k);
        proof {
            assert forall|i: u64| i < 64 implies (bit(newv, i) <==> (i != k && bit(self.0, i))) by {
                lemma_clear_bit(self.0, k, i);
            }
        }
        self.0 = newv;
    }

    /// Cell `(x, y)` is occupied.
    pub fn test(&self, x: u8, y: u8) -> (r: bool)
        requires
            x < 8,
            y < 8,
        ensures
            r == self.has(cell_bit(x, y)),
    {
        let k: u64 = (y * 8 + x) as u64;
        proof {
            lemma_test_bit(self.0, k);
        }
        (self.0 & (1u64 << k)) != 0
    }

    /// Number of occupied cells.
    pub fn count(&self) -> (r: u32)
        ensures
            r == popcount(self.0),
            r <= 64,
    {
        let mut v: u64 = self.0;
        let mut n: u32 = 0;
        proof {
            lemma_popcount_le_64(self.0);
        }
        while v != 0
            invariant
                n + popcount(v) == popcount(self.0),
                popcount(self.0) <= 64,
            decreases v,
        {
            proof {
                lemma_low_bit_div(v);
            }
            n = n + (v & 1) as u32;
            v = v >> 1;
        }
        n
    }

    /// No cell is occupied.
    pub fn is_empty(&self) -> (r: bool)
        ensures
            r == (self.0 == 0),
            r <==> forall|i: u64| i < 64 ==> !self.has(i),
    {
        proof {
            lemma_bits_determine_zero(self.0);
        }
        self.0 == 0
    }

    /// Lowest occupied bit index, if any.
    pub fn first_set(&self) -> (r: Option<u8>)
        ensures
            r is None <==> self.0 == 0,
            r matches Some(i) ==> {
                &&& i < 64
                &&& i == u64_trailing_zeros(self.0)
                &&& self.has(i as u64)
                &&& forall|j: u64| j < i ==> !self.has(j)
            },
    {
        if self.0 == 0 {
            None
        } else {
            proof {
                axiom_u64_trailing_zeros(self.0);
            }
            let t = self.0.trailing_zeros();
            Some(t as u8)
        }
    }

    /// Iterator over the occupied bit indices, lowest first.
    pub fn iter_set(&self) -> (r: BitIterator)
        ensures
            r.bits == self.0,
    {
        BitIterator { bits: self.0 }
    }

    /// Cells occupied in both blocks.
    pub fn bitand(self, rhs: Bitboard64) -> (r: Bitboard64)
        ensures
            r.0 == self.0 & rhs.0,
            forall|i: u64| i < 64 ==> (r.has(i) <==> self.has(i) && rhs.has(i)),
    {
        proof {
            assert forall|i: u64| i < 64 implies (bit(self.0 & rhs.0, i) <==> bit(self.0, i) && bit(rhs.0, i)) by {
                lemma_and_bit(self.0, rhs.0, i);
            }
        }
        Bitboard64(self.0 & rhs.0)
    }

    /// Cells occupied in either block.
    pub fn bitor(self, rhs: Bitboard64) -> (r: Bitboard64)
        ensures
            r.0 == self.0 | rhs.0,
            forall|i: u64| i < 64 ==> (r.has(i) <==> self.has(i) || rhs.has(i)),
    {
        proof {
            assert forall|i: u64| i < 64 implies (bit(self.0 | rhs.0, i) <==> bit(self.0, i) || bit(rhs.0, i)) by {
                lemma_bitor_bit(self.0, rhs.0, i);
            }
        }
        Bitboard64(self.0 | rhs.0)
    }

    /// Cells occupied in exactly one of the blocks.
    pub fn bitxor(self, rhs: Bitboard64) -> (r: Bitboard64)
        ensures
            r.0 == self.0 ^ rhs.0,
            forall|i: u64| i < 64 ==> (r.has(i) <==> self.has(i) != rhs.has(i)),
    {
        proof {
            assert forall|i: u64| i < 64 implies (bit(self.0 ^ rhs.0, i) <==> bit(self.0, i) != bit(rhs.0, i)) by {
                lemma_xor_bit(self.0, rhs.0, i);
            }
        }
        Bitboard64(self.0 ^ rhs.0)
    }

    /// Cells free in this block.
    pub fn not(self) -> (r: Bitboard64)
        ensures
            r.0 == !self.0,
            forall|i: u64| i < 64 ==> (r.has(i) <==> !self.has(i)),
    {
        proof {
            assert forall|i: u64| i < 64 implies (bit(!self.0, i) <==> !bit(self.0, i)) by {
                lemma_not_bit(self.0, i);
            }
        }
        Bitboard64(!self.0)
    }
}

/// Yields the occupied bit indices of a block, lowest first.
pub struct BitIterator {
    pub bits: u64,
}

proof fn lemma_clear_lowest(v: u64, t: u64, i: u64)
    by (bit_vector)
    requires
        v != 0,
        t < 64,
        i < 64,
        (v >> t) & 1u64 == 1u64,
        v << ((64 - t) as u64) == 0 || t == 0,
    ensures
        ((v & ((v - 1u64) as u64)) >> i) & 1u64 == 1u64 <==> (i != t && (v >> i) & 1u64 == 1u64),
{
}

/// The bit indices that iterating `v` yields: its lowest one bit, then those
/// of `v` with that bit cleared.
pub open spec fn set_bits_seq(v: u64) -> Seq<u64>
    decreases popcount(v),
{
    if v == 0 {
        Seq::empty()
    } else {
        proof {
            lemma_popcount_clear_lowest(v);
        }
        seq![u64_trailing_zeros(v) as u64].add(set_bits_seq(v & ((v - 1) as u64)))
    }
}

/// Iterating a block yields each of its occupied bit indices exactly once, in
/// increasing order, and nothing else: as many indices as the block has
/// occupied cells.
pub proof fn lemma_iteration_yields_set_bits(v: u64)
    ensures
        set_bits_seq(v).len() == popcount(v),
        forall|k: int| 0 <= k < set_bits_seq(v).len() ==>
            set_bits_seq(v)[k] < 64 && bit(v, #[trigger] set_bits_seq(v)[k]),
        forall|j: int, k: int| 0 <= j < k < set_bits_seq(v).len() ==>
            set_bits_seq(v)[j] < set_bits_seq(v)[k],
        forall|i: u64| i < 64 && #[trigger] bit(v, i) ==>
            exists|k: int| 0 <= k < set_bits_seq(v).len() && set_bits_seq(v)[k] == i,
    decreases popcount(v),
{
    if v == 0 {
        assert forall|i: u64| i < 64 implies !bit(v, i) by {
            lemma_zero_no_bits(v, i);
        }
    } else {
        axiom_u64_trailing_zeros(v);
        let t = u64_trailing_zeros(v) as u64;
        let w = v & ((v - 1) as u64);
        lemma_popcount_clear_lowest(v);
        lemma_iteration_yields_set_bits(w);
        assert forall|j: u64| j < 64 implies (bit(w, j) <==> (j != t && bit(v, j))) by {
            lemma_clear_lowest(v, t, j);
        }
        let s = set_bits_seq(v);
        let sw = set_bits_seq(w);
        assert(s == seq![t].add(sw));
        assert forall|k: int| 0 <= k < sw.len() implies t < #[trigger] sw[k] by {
            let j = sw[k];
            assert(bit(w, j));
            if j < t {
                assert((v >> j) & 1u64 == 0u64);
            }
        }
        assert forall|k: int| 0 <= k < s.len() implies s[k] < 64 && bit(v, #[trigger] s[k]) by {
            if k > 0 {
                assert(s[k] == sw[k - 1]);
            }
        }
        assert forall|j: int, k: int| 0 <= j < k < s.len() implies s[j] < s[k] by {
            assert(s[k] == sw[k - 1]);
            if j > 0 {
                assert(s[j] == sw[j - 1]);
            }
        }
        assert forall|i: u64| i < 64 && #[trigger] bit(v, i) implies
            exists|k: int| 0 <= k < s.len() && s[k] == i by {
            if i == t {
                assert(s[0] == i);
            } else {
                assert(bit(w, i));
                let k0 = choose|k: int| 0 <= k < sw.len() && sw[k] == i;
                assert(s[k0 + 1] == i);
            }
        }
    }
}

impl BitIterator {
    /// Takes the lowest occupied bit index out of the remaining set.
    pub fn next(&mut self) -> (r: Option<u8>)
        ensures
            old(self).bits == 0 ==> r is None && final(self).bits == 0,
            old(self).bits != 0 ==> {
                &&& r matches Some(i)
                &&& i < 64
                &&& i == u64_trailing_zeros(old(self).bits)
                &&& bit(old(self).bits, i as u64)
                &&& (forall|j: u64| j < i ==> !bit(old(self).bits, j))
                &&& final(self).bits == old(self).bits & ((old(self).bits - 1u64) as u64)
                &&& forall|j: u64| j < 64 ==> (bit(final(self).bits, j) <==> (j != i && bit(old(self).bits, j)))
            },
            old(self).bits != 0 ==> r == Some(set_bits_seq(old(self).bits)[0] as u8)
                && set_bits_seq(final(self).bits) == set_bits_seq(old(self).bits).drop_first(),
    {
        if self.bits == 0 {
            None
        } else {
            let v = self.bits;
            proof {
                axiom_u64_trailing_zeros(v);
            }
            let idx = v.trailing_zeros();
            proof {
                let t = idx as u64;
                assert forall|j: u64| j < 64 implies (bit(v & ((v - 1u64) as u64), j) <==> (j != t && bit(v, j))) by {
                    lemma_clear_lowest(v, t, j);
                }
            }
            self.bits = v & (v - 1);
            Some(idx as u8)
        }
    }

    /// Exact number of indices still to come.
    pub fn size_hint(&self) -> (r: (usize, Option<usize>))
        ensures
            r.0 == popcount(self.bits),
            r.1 == Some(r.0),
    {
        let b = Bitboard64(self.bits);
        let c = b.count() as usize;
        (c, Some(c))
    }
}

/// Side of the map covered by the grid, in cells.
pub const BIT_GRID_SIZE: usize = 128;
/// Blocks of 8x8 cells per side of the grid.
pub const BIT_BLOCKS: usize = 16;
/// Blocks per layer.
pub const BIT_TOTAL_BLOCKS: usize = 256;
/// Number of layers: obstacles, residential, commercial, industrial, roads, traffic.
pub const BIT_LAYERS: usize = 6;

/// Index of the block holding cell `(gx, gy)` of the 128x128 grid.
pub open spec fn block_of(gx: int, gy: int) -> int {
    (gy / 8) * 16 + gx / 8
}

/// Bit of cell `(gx, gy)` inside its block.
pub open spec fn bit_of(gx: int, gy: int) -> u64 {
    ((gy % 8) * 8 + gx % 8) as u64
}

/// Sum of the occupied cells of `n` consecutive blocks starting at `start`.
pub open spec fn blocks_count(s: Seq<Bitboard64>, start: int, n: nat) -> nat
    decreases n,
{
    if n == 0 {
        0
    } else {
        blocks_count(s, start, (n - 1) as nat) + popcount(s[start + n - 1].0)
    }
}

proof fn lemma_blocks_count_bound(s: Seq<Bitboard64>, start: int, n: nat)
    ensures
        blocks_count(s, start, n) <= 64 * n,
    decreases n,
{
    if n > 0 {
        lemma_blocks_count_bound(s, start, (n - 1) as nat);
        lemma_popcount_le_64(s[start + n - 1].0);
    }
}

proof fn lemma_blocks_count_zero(s: Seq<Bitboard64>, start: int, n: nat)
    requires
        forall|i: int| start <= i < start + n ==> s[i].0 == 0,
    ensures
        blocks_count(s, start, n) == 0,
    decreases n,
{
    if n > 0 {
        lemma_blocks_count_zero(s, start, (n - 1) as nat);
    }
}

proof fn lemma_cell_coords(gx: int, gy: int)
    requires
        0 <= gx < 128,
        0 <= gy < 128,
    ensures
        0 <= block_of(gx, gy) < 256,
        bit_of(gx, gy) < 64,
        (block_of(gx, gy) % 16) * 8 + (bit_of(gx, gy) as int) % 8 == gx,
        (block_of(gx, gy) / 16) * 8 + (bit_of(gx, gy) as int) / 8 == gy,
{
}

proof fn lemma_cell_unique(ax: int, ay: int, bx: int, by: int)
    requires
        0 <= ax < 128,
        0 <= ay < 128,
        0 <= bx < 128,
        0 <= by < 128,
        block_of(ax, ay) == block_of(bx, by),
        bit_of(ax, ay) == bit_of(bx, by),
    ensures
        ax == bx && ay == by,
{
    lemma_cell_coords(ax, ay);
    lemma_cell_coords(bx, by);
}

/// Position of cell `(gx, gy)` in the block-major scan order of a layer.
pub open spec fn cell_key(gx: int, gy: int) -> int {
    block_of(gx, gy) * 64 + bit_of(gx, gy) as int
}

proof fn lemma_decode(b: int, k: int)
    requires
        0 <= b < 256,
        0 <= k < 64,
    ensures
        0 <= (b % 16) * 8 + k % 8 < 128,
        0 <= (b / 16) * 8 + k / 8 < 128,
        block_of((b % 16) * 8 + k % 8, (b / 16) * 8 + k / 8) == b,
        bit_of((b % 16) * 8 + k % 8, (b / 16) * 8 + k / 8) == k,
{
}

/// Occupancy grid of 128x128 cells in six layers, each layer 256 blocks of
/// 8x8 cells; block `b` of layer `l` sits at index `l * 256 + b`.
pub struct BitGrid {
    pub layers: Vec<Bitboard64>,
}

impl BitGrid {
    /// The grid holds all six layers.
    pub open spec fn wf(self) -> bool {
        self.layers@.len() == 6 * 256
    }

    /// Cell `(gx, gy)` of `layer` is occupied.
    pub open spec fn cell(self, layer: int, gx: int, gy: int) -> bool {
        bit(self.layers@[layer * 256 + block_of(gx, gy)].0, bit_of(gx, gy))
    }

    /// Number of occupied cells of `layer`.
    pub open spec fn layer_count(self, layer: int) -> nat {
        blocks_count(self.layers@, layer * 256, 256)
    }

    /// A grid with every cell of every layer free.
    pub fn new() -> (r: BitGrid)
        ensures
            r.wf(),
            forall|i: int| 0 <= i < 6 * 256 ==> r.layers@[i].0 == 0,
            forall|l: int, gx: int, gy: int|
                0 <= l < 6 && 0 <= gx < 128 && 0 <= gy < 128 ==> !r.cell(l, gx, gy),
    {
        let layers = vec![Bitboard64::empty(); 6 * BIT_TOTAL_BLOCKS];
        let r = BitGrid { layers };
        proof {
            assert forall|l: int, gx: int, gy: int|
                0 <= l < 6 && 0 <= gx < 128 && 0 <= gy < 128 implies !r.cell(l, gx, gy) by {
                lemma_cell_coords(gx, gy);
                lemma_zero_no_bits(r.layers@[l * 256 + block_of(gx, gy)].0, bit_of(gx, gy));
            }
        }
        r
    }

    /// Block index and in-block coordinates of a cell; coordinates wrap
    /// around the 128-cell map.
    pub fn world_to_bit(wx: usize, wy: usize) -> (r: (usize, u8, u8))
        ensures
            r.0 == block_of(wx as int % 128, wy as int % 128),
            r.0 < 256,
            r.1 == (wx as int % 128) % 8,
            r.2 == (wy as int % 128) % 8,
            cell_bit(r.1, r.2) == bit_of(wx as int % 128, wy as int % 128),
    {
        let gx = wx % BIT_GRID_SIZE;
        let gy = wy % BIT_GRID_SIZE;
        let block_x = gx / 8;
        let block_y = gy / 8;
        let bit_x = (gx % 8) as u8;
        let bit_y = (gy % 8) as u8;
        (block_y * BIT_BLOCKS + block_x, bit_x, bit_y)
    }

    /// Occupies cell `(wx, wy)` (wrapped onto the map) of `layer`.
    pub fn set(&mut self, layer: usize, wx: usize, wy: usize)
        requires
            old(self).wf(),
            layer < 6,
        ensures
            final(self).wf(),
            forall|l: int, gx: int, gy: int|
                0 <= l < 6 && 0 <= gx < 128 && 0 <= gy < 128 ==> (final(self).cell(l, gx, gy) <==> (
                (l == layer && gx == wx as int % 128 && gy == wy as int % 128) || old(self).cell(l, gx, gy))),
    {
        let (block_idx, bx, by) = Self::world_to_bit(wx, wy);
        let idx = layer * BIT_TOTAL_BLOCKS + block_idx;
        let mut b = self.layers[idx];
        b.set(bx, by);
        self.layers.set(idx, b);
        proof {
            let cx = wx as int % 128;
            let cy = wy as int % 128;
            assert forall|l: int, gx: int, gy: int|
                0 <= l < 6 && 0 <= gx < 128 && 0 <= gy < 128 implies (self.cell(l, gx, gy) <==> (
                (l == layer && gx == cx && gy == cy) || old(self).cell(l, gx, gy))) by {
                lemma_cell_coords(gx, gy);
                lemma_cell_coords(cx, cy);
                if l * 256 + block_of(gx, gy) == idx && bit_of(gx, gy) == bit_of(cx, cy) {
                    lemma_cell_unique(gx, gy, cx, cy);
                }
                if l == layer && gx == cx && gy == cy {
                } else if l * 256 + block_of(gx, gy) == idx {
                    assert(l == layer);
                    if bit_of(gx, gy) == bit_of(cx, cy) {
                        lemma_cell_unique(gx, gy, cx, cy);
                    }
                }
            }
        }
    }

    /// Frees cell `(wx, wy)` (wrapped onto the map) of `layer`.
    pub fn clear(&mut self, layer: usize, wx: usize, wy: usize)
        requires
            old(self).wf(),
            layer < 6,
        ensures
            final(self).wf(),
            forall|l: int, gx: int, gy: int|
                0 <= l < 6 && 0 <= gx < 128 && 0 <= gy < 128 ==> (final(self).cell(l, gx, gy) <==> (
                !(l == layer && gx == wx as int % 128 && gy == wy as int % 128) && old(self).cell(l, gx, gy))),
    {
        let (block_idx, bx, by) = Self::world_to_bit(wx, wy);
        let idx = layer * BIT_TOTAL_BLOCKS + block_idx;
        let mut b = self.layers[idx];
        b.clear(bx, by);
        self.layers.set(idx, b);
        proof {
            let cx = wx as int % 128;
            let cy = wy as int % 128;
            assert forall|l: int, gx: int, gy: int|
                0 <= l < 6 && 0 <= gx < 128 && 0 <= gy < 128 implies (self.cell(l, gx, gy) <==> (
                !(l == layer && gx == cx && gy == cy) && old(self).cell(l, gx, gy))) by {
                lemma_cell_coords(gx, gy);
                lemma_cell_coords(cx, cy);
                if l == layer && gx == cx && gy == cy {
                } else if l * 256 + block_of(gx, gy) == idx {
                    assert(l == layer);
                    if bit_of(gx, gy) == bit_of(cx, cy) {
                        lemma_cell_unique(gx, gy, cx, cy);
                    }
                }
            }
        }
    }

    /// Cell `(wx, wy)` (wrapped onto the map) of `layer` is occupied.
    pub fn test(&self, layer: usize, wx: usize, wy: usize) -> (r: bool)
        requires
            self.wf(),
            layer < 6,
        ensures
            r == self.cell(layer as int, wx as int % 128, wy as int % 128),
    {
        let (block_idx, bx, by) = Self::world_to_bit(wx, wy);
        self.layers[layer * BIT_TOTAL_BLOCKS + block_idx].test(bx, by)
    }

    /// Cell `(wx, wy)` holds an obstacle (layer 0).
    pub fn is_obstacle(&self, wx: usize, wy: usize) -> (r: bool)
        requires
            self.wf(),
        ensures
            r == self.cell(0, wx as int % 128, wy as int % 128),
    {
        self.test(0, wx, wy)
    }

    /// Number of occupied cells of `layer`.
    pub fn count_layer(&self, layer: usize) -> (r: u32)
        requires
            self.wf(),
            layer < 6,
        ensures
            r == self.layer_count(layer as int),
    {
        let start = layer * BIT_TOTAL_BLOCKS;
        let mut total: u32 = 0;
        let mut i: usize = 0;
        while i < BIT_TOTAL_BLOCKS
            invariant
                self.wf(),
                start == layer * 256,
                layer < 6,
                i <= 256,
                total == blocks_count(self.layers@, start as int, i as nat),
            decreases 256 - i,
        {
            proof {
                lemma_blocks_count_bound(self.layers@, start as int, i as nat);
            }
            let c = self.layers[start + i].count();
            total = total + c;
            i = i + 1;
        }
        total
    }

    /// Frees every cell of `layer`; the other layers stay as they were.
    pub fn clear_layer(&mut self, layer: usize)
        requires
            old(self).wf(),
            layer < 6,
        ensures
            final(self).wf(),
            forall|i: int| 0 <= i < 6 * 256 ==> final(self).layers@[i] == (
                if layer * 256 <= i < layer * 256 + 256 { Bitboard64(0) } else { old(self).layers@[i] }),
            final(self).layer_count(layer as int) == 0,
    {
        let start = layer * BIT_TOTAL_BLOCKS;
        let mut i: usize = 0;
        while i < BIT_TOTAL_BLOCKS
            invariant
                self.wf(),
                start == layer * 256,
                layer < 6,
                i <= 256,
                forall|j: int| 0 <= j < 6 * 256 ==> self.layers@[j] == (
                    if start <= j < start + i { Bitboard64(0) } else { old(self).layers@[j] }),
            decreases 256 - i,
        {
            self.layers.set(start + i, Bitboard64::empty());
            i = i + 1;
        }
        proof {
            lemma_blocks_count_zero(self.layers@, start as int, 256);
        }
    }

    /// Some cell is occupied in both layers.
    pub fn layers_intersect(&self, layer_a: usize, layer_b: usize) -> (r: bool)
        requires
            self.wf(),
            layer_a < 6,
            layer_b < 6,
        ensures
            r <==> exists|gx: int, gy: int|
                0 <= gx < 128 && 0 <= gy < 128 && #[trigger] self.cell(layer_a as int, gx, gy)
                    && self.cell(layer_b as int, gx, gy),
            r <==> exists|i: int| 0 <= i < 256
                && #[trigger] self.layers@[layer_a * 256 + i].0 & self.layers@[layer_b * 256 + i].0 != 0,
    {
        let off_a = layer_a * BIT_TOTAL_BLOCKS;
        let off_b = layer_b * BIT_TOTAL_BLOCKS;
        let mut i: usize = 0;
        while i < BIT_TOTAL_BLOCKS
            invariant
                self.wf(),
                off_a == layer_a * 256,
                off_b == layer_b * 256,
                layer_a < 6,
                layer_b < 6,
                i <= 256,
                forall|gx: int, gy: int|
                    0 <= gx < 128 && 0 <= gy < 128 && block_of(gx, gy) < i ==> !(
                    #[trigger] self.cell(layer_a as int, gx, gy) && self.cell(layer_b as int, gx, gy)),
                forall|k: int| 0 <= k < i ==> #[trigger] self.layers@[layer_a * 256 + k].0 & self.layers@[layer_b * 256 + k].0 == 0,
            decreases 256 - i,
        {
            let both = self.layers[off_a + i].bitand(self.layers[off_b + i]);
            assert(both.0 == self.layers@[layer_a * 256 + i].0 & self.layers@[layer_b * 256 + i].0);
            if !both.is_empty() {
                proof {
                    let k = choose|k: u64| k < 64 && both.has(k);
                    let gx = (i as int % 16) * 8 + (k as int) % 8;
                    let gy = (i as int / 16) * 8 + (k as int) / 8;
                    assert(block_of(gx, gy) == i);
                    assert(bit_of(gx, gy) == k);
                    assert(self.cell(layer_a as int, gx, gy) && self.cell(layer_b as int, gx, gy));
                }
                return true;
            }
            proof {
                assert forall|gx: int, gy: int|
                    0 <= gx < 128 && 0 <= gy < 128 && block_of(gx, gy) < i + 1 implies !(
                    #[trigger] self.cell(layer_a as int, gx, gy) && self.cell(layer_b as int, gx, gy)) by {
                    lemma_cell_coords(gx, gy);
                    if block_of(gx, gy) == i {
                        assert(!both.has(bit_of(gx, gy)));
                    }
                }
            }
            i = i + 1;
        }
        proof {
            assert forall|gx: int, gy: int|
                0 <= gx < 128 && 0 <= gy < 128 implies !(
                #[trigger] self.cell(layer_a as int, gx, gy) && self.cell(layer_b as int, gx, gy)) by {
                lemma_cell_coords(gx, gy);
            }
        }
        false
    }

    /// Every occupied cell of `layer`, once each, in block-major order
    /// (blocks row by row, then the cells of a block row by row).
    pub fn query_layer(&self, layer: usize) -> (r: Vec<(usize, usize)>)
        requires
            self.wf(),
            layer < 6,
        ensures
            forall|k: int| 0 <= k < r@.len() ==> {
                &&& r@[k].0 < 128
                &&& r@[k].1 < 128
                &&& self.cell(layer as int, r@[k].0 as int, r@[k].1 as int)
            },
            forall|gx: int, gy: int|
                0 <= gx < 128 && 0 <= gy < 128 && #[trigger] self.cell(layer as int, gx, gy) ==>
                exists|k: int| 0 <= k < r@.len() && r@[k] == (gx as usize, gy as usize),
            forall|j: int, k: int| 0 <= j < k < r@.len() ==>
                cell_key(r@[j].0 as int, r@[j].1 as int) < cell_key(r@[k].0 as int, r@[k].1 as int),
            r@.len() == self.layer_count(layer as int),
    {
        let mut result: Vec<(usize, usize)> = Vec::with_capacity(256);
        let layer_offset = layer * BIT_TOTAL_BLOCKS;
        let mut block_idx: usize = 0;
        while block_idx < BIT_TOTAL_BLOCKS
            invariant
                self.wf(),
                layer < 6,
                layer_offset == layer * 256,
                block_idx <= 256,
                result@.len() == blocks_count(self.layers@, layer * 256, block_idx as nat),
                forall|k: int| 0 <= k < result@.len() ==> {
                    &&& result@[k].0 < 128
                    &&& result@[k].1 < 128
                    &&& self.cell(layer as int, result@[k].0 as int, result@[k].1 as int)
                    &&& cell_key(result@[k].0 as int, result@[k].1 as int) < block_idx * 64
                },
                forall|gx: int, gy: int|
                    0 <= gx < 128 && 0 <= gy < 128 && #[trigger] self.cell(layer as int, gx, gy)
                    && cell_key(gx, gy) < block_idx * 64 ==>
                    exists|k: int| 0 <= k < result@.len() && result@[k] == (gx as usize, gy as usize),
                forall|j: int, k: int| 0 <= j < k < result@.len() ==>
                    cell_key(result@[j].0 as int, result@[j].1 as int) < cell_key(result@[k].0 as int, result@[k].1 as int),
            decreases 256 - block_idx,
        {
            let block = self.layers[layer_offset + block_idx];
            let block_y = (block_idx / BIT_BLOCKS) * 8;
            let block_x = (block_idx % BIT_BLOCKS) * 8;
            let mut it = block.iter_set();
            let ghost mut t: int = 0;
            while it.bits != 0
                invariant
                    self.wf(),
                    layer < 6,
                    layer_offset == layer * 256,
                    block_idx < 256,
                    block == self.layers@[layer * 256 + block_idx],
                    block_y == (block_idx / 16) * 8,
                    block_x == (block_idx % 16) * 8,
                    0 <= t <= 64,
                    result@.len() + popcount(it.bits)
                        == blocks_count(self.layers@, layer * 256, block_idx as nat) + popcount(block.0),
                    forall|j: u64| j < 64 ==> (bit(it.bits, j) <==> (bit(block.0, j) && j >= t)),
                    forall|k: int| 0 <= k < result@.len() ==> {
                        &&& result@[k].0 < 128
                        &&& result@[k].1 < 128
                        &&& self.cell(layer as int, result@[k].0 as int, result@[k].1 as int)
                        &&& cell_key(result@[k].0 as int, result@[k].1 as int) < block_idx * 64 + t
                    },
                    forall|gx: int, gy: int|
                        0 <= gx < 128 && 0 <= gy < 128 && #[trigger] self.cell(layer as int, gx, gy)
                        && cell_key(gx, gy) < block_idx * 64 + t ==>
                        exists|k: int| 0 <= k < result@.len() && result@[k] == (gx as usize, gy as usize),
                    forall|j: int, k: int| 0 <= j < k < result@.len() ==>
                        cell_key(result@[j].0 as int, result@[j].1 as int) < cell_key(result@[k].0 as int, result@[k].1 as int),
                decreases 64 - t,
            {
                let ghost old_result = result@;
                let ghost old_bits = it.bits;
                if let Some(bit_idx) = it.next() {
                    proof {
                        lemma_popcount_clear_lowest(old_bits);
                    }
                    let bx = (bit_idx % 8) as usize;
                    let by = (bit_idx / 8) as usize;
                    let cell = (block_x + bx, block_y + by);
                    proof {
                        lemma_decode(block_idx as int, bit_idx as int);
                        assert(cell_key(cell.0 as int, cell.1 as int) == block_idx * 64 + bit_idx);
                        assert(bit(block.0, bit_idx as u64));
                    }
                    result.push(cell);
                    proof {
                        let i = bit_idx as int;
                        assert forall|gx: int, gy: int|
                            0 <= gx < 128 && 0 <= gy < 128 && #[trigger] self.cell(layer as int, gx, gy)
                            && cell_key(gx, gy) < block_idx * 64 + i + 1 implies
                            exists|k: int| 0 <= k < result@.len() && result@[k] == (gx as usize, gy as usize) by {
                            lemma_cell_coords(gx, gy);
                            if cell_key(gx, gy) < block_idx * 64 + t {
                                let k0 = choose|k: int| 0 <= k < old_result.len() && old_result[k] == (gx as usize, gy as usize);
                                assert(result@[k0] == old_result[k0]);
                            } else if cell_key(gx, gy) == block_idx * 64 + i {
                                lemma_cell_unique(gx, gy, cell.0 as int, cell.1 as int);
                                assert(result@[result@.len() - 1] == cell);
                            } else {
                                let j = bit_of(gx, gy);
                                assert(block_of(gx, gy) == block_idx);
                                assert(bit(old_bits, j));
                                assert(false);
                            }
                        }
                        t = i + 1;
                    }
                }
            }
            proof {
                assert(popcount(it.bits) == 0);
                assert(blocks_count(self.layers@, layer * 256, (block_idx + 1) as nat)
                    == blocks_count(self.layers@, layer * 256, block_idx as nat) + popcount(block.0));
                assert forall|gx: int, gy: int|
                    0 <= gx < 128 && 0 <= gy < 128 && #[trigger] self.cell(layer as int, gx, gy)
                    && cell_key(gx, gy) < (block_idx + 1) * 64 implies
                    exists|k: int| 0 <= k < result@.len() && result@[k] == (gx as usize, gy as usize) by {
                    lemma_cell_coords(gx, gy);
                    if cell_key(gx, gy) >= block_idx * 64 + t {
                        let j = bit_of(gx, gy);
                        assert(block_of(gx, gy) == block_idx);
                        lemma_zero_no_bits(it.bits, j);
                        assert(false);
                    }
                }
            }
            block_idx = block_idx + 1;
        }
        proof {
            assert forall|gx: int, gy: int|
                0 <= gx < 128 && 0 <= gy < 128 && #[trigger] self.cell(layer as int, gx, gy) implies
                exists|k: int| 0 <= k < result@.len() && result@[k] == (gx as usize, gy as usize) by {
                lemma_cell_coords(gx, gy);
            }
        }
        result
    }
}

} // verus!
