//! The block map: one bit for each block of the device, set where the block
//! is in use.

use crate::bits::{
    bit_vec_bits, bits_extend, bits_from_bytes, bits_from_elem, bits_get, bits_len, bits_new,
    bits_set, bits_to_bytes, bits_truncate, pack_bits, unpack_bits,
};
use crate::block_number::BlockNumber;
use crate::display::{chunked, display_chunks};
use crate::error::{Error, Result};
use bit_vec::BitVec;
use vstd::prelude::*;

verus! {

/// Whether `i` is the lowest clear bit of `bits`.
pub open spec fn is_first_free(bits: Seq<bool>, i: int) -> bool {
    &&& 0 <= i < bits.len()
    &&& !bits[i]
    &&& forall|j: int| 0 <= j < i ==> bits[j]
}

/// Whether `bits` has a clear bit.
pub open spec fn has_free(bits: Seq<bool>) -> bool {
    exists|i: int| 0 <= i < bits.len() && !#[trigger] bits[i]
}

/// The number of clear bits.
pub open spec fn free_count(bits: Seq<bool>) -> nat
    decreases bits.len(),
{
    if bits.len() == 0 {
        0
    } else {
        free_count(bits.drop_last()) + if bits.last() {
            0nat
        } else {
            1nat
        }
    }
}

/// The character that the block map shows for a bit.
pub open spec fn bit_char(b: bool) -> char {
    if b {
        '1'
    } else {
        '0'
    }
}

/// The bitmap of allocated blocks.
#[derive(Debug)]
pub struct BlockMap {
    vec: BitVec,
}

impl View for BlockMap {
    type V = Seq<bool>;

    /// The bits of the map: bit `i` is set where block `i` is in use.
    closed spec fn view(&self) -> Seq<bool> {
        bit_vec_bits(self.vec)
    }
}

impl BlockMap {
    /// A map of `block_count` blocks, none of them in use.
    pub fn new(block_count: u64) -> (r: BlockMap)
        requires
            block_count <= usize::MAX,
        ensures
            r@ == Seq::new(block_count as nat, |i: int| false),
    {
        BlockMap { vec: bits_from_elem(block_count as usize, false) }
    }

    /// A map without blocks.
    pub fn empty() -> (r: BlockMap)
        ensures
            r@ == Seq::<bool>::empty(),
    {
        BlockMap { vec: bits_new() }
    }

    /// The number of blocks that the map covers.
    pub fn len(&self) -> (r: usize)
        ensures
            r == self@.len(),
    {
        bits_len(&self.vec)
    }

    /// Whether block `block_number` is marked as in use. A block that the
    /// map does not cover is not.
    pub fn get(&self, block_number: BlockNumber) -> (r: bool)
        ensures
            r == (block_number.number < self@.len() && self@[block_number.number as int]),
    {
        let len = bits_len(&self.vec);
        if block_number.number >= len as u64 {
            return false;
        }
        match bits_get(&self.vec, block_number.number as usize) {
            Some(b) => b,
            None => false,
        }
    }

    /// Marks block `block_number` as in use or as free.
    pub fn set(&mut self, block_number: BlockNumber, b: bool)
        requires
            block_number.number < old(self)@.len(),
        ensures
            final(self)@ == old(self)@.update(block_number.number as int, b),
    {
        // The length fits an index, and so does a block number below it.
        let len = bits_len(&self.vec);
        bits_set(&mut self.vec, block_number.number as usize, b)
    }

    /// The lowest block that is free, if there is one.
    fn find_free(vec: &BitVec) -> (r: Option<usize>)
        ensures
            r is Some <==> has_free(bit_vec_bits(*vec)),
            r is Some ==> is_first_free(bit_vec_bits(*vec), r->0 as int),
    {
        let n = bits_len(vec);
        let mut i: usize = 0;
        while i < n
            invariant
                i <= n == bit_vec_bits(*vec).len(),
                forall|j: int| 0 <= j < i ==> bit_vec_bits(*vec)[j],
            decreases n - i,
        {
            match bits_get(vec, i) {
                Some(false) => {
                    return Some(i);
                },
                _ => {},
            }
            i = i + 1;
        }
        None
    }

    /// Marks the lowest free block as in use and returns it. Where no block
    /// is free the map stays as it is.
    pub fn allocate(&mut self) -> (r: Result<BlockNumber>)
        ensures
            r is Ok <==> has_free(old(self)@),
            r is Ok ==> is_first_free(old(self)@, r->Ok_0.number as int) && final(self)@ == old(
                self,
            )@.update(r->Ok_0.number as int, true),
            r is Ok ==> r->Ok_0.number == lowest_free(old(self)@) && final(self)@
                == after_allocations(old(self)@, 1),
            r is Err ==> final(self)@ == old(self)@ && r->Err_0 is Size && r->Err_0->Size_0@
                == "out of blocks"@,
    {
        proof {
            lemma_lowest_free(self@);
            reveal_with_fuel(after_allocations, 2);
        }
        match BlockMap::find_free(&self.vec) {
            Some(i) => {
                let block_number = BlockNumber::new(i as u64);
                self.set(block_number, true);
                Ok(block_number)
            },
            None => Err(Error::Size("out of blocks".to_owned())),
        }
    }

    /// Marks block `block_number` as free.
    pub fn free(&mut self, block_number: BlockNumber)
        requires
            block_number.number < old(self)@.len(),
        ensures
            final(self)@ == old(self)@.update(block_number.number as int, false),
    {
        self.set(block_number, false)
    }

    /// The map packed into bytes, eight blocks to a byte, the lowest block
    /// as the most significant bit. The last byte is filled up with clear
    /// bits.
    pub fn to_bytes(&self) -> (r: Vec<u8>)
        ensures
            r@ == pack_bits(self@),
    {
        bits_to_bytes(&self.vec)
    }

    /// Appends the blocks that `bytes` describe, eight to a byte, the most
    /// significant bit first.
    pub fn extend_from_bytes(&mut self, bytes: &Vec<u8>)
        requires
            old(self)@.len() + 8 * bytes@.len() <= usize::MAX,
        ensures
            final(self)@ == old(self)@ + unpack_bits(bytes@),
    {
        let more = bits_from_bytes(bytes);
        bits_extend(&mut self.vec, more)
    }

    /// Cuts the map down to its first `len` blocks. A map that is no longer
    /// than that stays as it is.
    pub fn truncate(&mut self, len: usize)
        ensures
            final(self)@ == if len < old(self)@.len() {
                old(self)@.take(len as int)
            } else {
                old(self)@
            },
    {
        bits_truncate(&mut self.vec, len)
    }

    /// The characters of the map, one for each block.
    pub open spec fn cells(&self) -> Seq<char> {
        Seq::new(self@.len(), |i: int| bit_char(self@[i]))
    }

    /// The map as text: `1` for a block in use and `0` for a free one, in
    /// rows of 64 blocks.
    pub fn render(&self) -> (r: String)
        ensures
            r@ == chunked(self.cells()),
    {
        let n = bits_len(&self.vec);
        let mut cells: Vec<char> = Vec::new();
        let mut i: usize = 0;
        while i < n
            invariant
                i <= n == self@.len(),
                cells@ == self.cells().take(i as int),
            decreases n - i,
        {
            let c: char = match bits_get(&self.vec, i) {
                Some(true) => '1',
                _ => '0',
            };
            cells.push(c);
            i = i + 1;
        }
        assert(cells@ =~= self.cells());
        display_chunks(&cells)
    }
}

/// The index of the lowest clear bit, or the length where every bit is set.
pub open spec fn lowest_free(bits: Seq<bool>) -> int
    decreases bits.len(),
{
    if bits.len() == 0 || !bits[0] {
        0
    } else {
        1 + lowest_free(bits.drop_first())
    }
}

/// The bits after `n` allocations in a row, each of which sets the lowest
/// clear bit; a full map stays as it is.
pub open spec fn after_allocations(bits: Seq<bool>, n: nat) -> Seq<bool>
    decreases n,
{
    if n == 0 {
        bits
    } else {
        let before = after_allocations(bits, (n - 1) as nat);
        if has_free(before) {
            before.update(lowest_free(before), true)
        } else {
            before
        }
    }
}

/// What the allocation that follows `n` earlier ones returns: the lowest
/// block that is then free, or `None` where the map is full.
pub open spec fn nth_allocation(bits: Seq<bool>, n: nat) -> Option<int> {
    let before = after_allocations(bits, n);
    if has_free(before) {
        Some(lowest_free(before))
    } else {
        None
    }
}

/// `lowest_free` is the lowest clear bit, which exists exactly where some
/// bit is clear.
pub proof fn lemma_lowest_free(bits: Seq<bool>)
    ensures
        0 <= lowest_free(bits) <= bits.len(),
        forall|j: int| 0 <= j < lowest_free(bits) ==> bits[j],
        lowest_free(bits) < bits.len() ==> !bits[lowest_free(bits)],
        has_free(bits) <==> lowest_free(bits) < bits.len(),
        forall|i: int| is_first_free(bits, i) <==> (i == lowest_free(bits) && i < bits.len()),
    decreases bits.len(),
{
    if bits.len() == 0 || !bits[0] {
    } else {
        let rest = bits.drop_first();
        lemma_lowest_free(rest);
        assert forall|j: int| 0 <= j < lowest_free(bits) implies bits[j] by {
            if j > 0 {
                assert(bits[j] == rest[j - 1]);
            }
        }
        if lowest_free(bits) < bits.len() {
            assert(bits[lowest_free(bits)] == rest[lowest_free(rest)]);
        }
    }
    let low = lowest_free(bits);
    if has_free(bits) {
        let i = choose|i: int| 0 <= i < bits.len() && !#[trigger] bits[i];
    }
    assert forall|i: int| is_first_free(bits, i) implies i == low && i < bits.len() by {
        if i < low {
            assert(bits[i]);
        } else if low < i {
            assert(bits[low]);
        }
    }
}

/// Setting a clear bit takes one from the number of clear bits.
pub proof fn lemma_free_count_update(bits: Seq<bool>, i: int)
    requires
        0 <= i < bits.len(),
        !bits[i],
    ensures
        free_count(bits.update(i, true)) + 1 == free_count(bits),
    decreases bits.len(),
{
    let set = bits.update(i, true);
    if i == bits.len() - 1 {
        assert(set.drop_last() =~= bits.drop_last());
    } else {
        lemma_free_count_update(bits.drop_last(), i);
        assert(set.drop_last() =~= bits.drop_last().update(i, true));
    }
}

/// Some bit is clear exactly where the number of clear bits is not 0.
pub proof fn lemma_free_count_positive(bits: Seq<bool>)
    ensures
        has_free(bits) <==> free_count(bits) > 0,
    decreases bits.len(),
{
    if bits.len() > 0 {
        let front = bits.drop_last();
        lemma_free_count_positive(front);
        if has_free(front) {
            let i = choose|i: int| 0 <= i < front.len() && !#[trigger] front[i];
        }
        if !bits.last() {
            assert(!bits[bits.len() - 1]);
        }
        if has_free(bits) {
            let i = choose|i: int| 0 <= i < bits.len() && !#[trigger] bits[i];
            if i < front.len() {
                assert(!front[i]);
            }
        }
    }
}

/// After `n` allocations the map is as long as before, every block that was
/// in use still is, and `n` fewer blocks are free, down to none.
pub proof fn lemma_after_allocations(bits: Seq<bool>, n: nat)
    ensures
        after_allocations(bits, n).len() == bits.len(),
        forall|i: int| 0 <= i < bits.len() && bits[i] ==> after_allocations(bits, n)[i],
        free_count(after_allocations(bits, n)) == if n <= free_count(bits) {
            free_count(bits) - n
        } else {
            0
        },
    decreases n,
{
    if n > 0 {
        let before = after_allocations(bits, (n - 1) as nat);
        lemma_after_allocations(bits, (n - 1) as nat);
        lemma_lowest_free(before);
        lemma_free_count_positive(before);
        if has_free(before) {
            lemma_free_count_update(before, lowest_free(before));
        }
    }
}

/// Later allocations leave set what earlier ones have set.
pub proof fn lemma_allocations_keep(bits: Seq<bool>, m: nat, n: nat, i: int)
    requires
        m <= n,
        0 <= i < bits.len(),
        after_allocations(bits, m)[i],
    ensures
        after_allocations(bits, n)[i],
    decreases n,
{
    if m < n {
        lemma_allocations_keep(bits, m, (n - 1) as nat, i);
        lemma_after_allocations(bits, (n - 1) as nat);
        lemma_lowest_free(after_allocations(bits, (n - 1) as nat));
    }
}

/// Allocations come to an end: on a map with `k` free blocks the first `k`
/// allocations in a row each return a block, and every later one returns
/// none.
pub proof fn lemma_allocations_until_exhaustion(bits: Seq<bool>, n: nat)
    ensures
        nth_allocation(bits, n) is Some <==> n < free_count(bits),
{
    lemma_after_allocations(bits, n);
    lemma_free_count_positive(after_allocations(bits, n));
}

/// Allocations do not overlap: two allocations of a run of allocations
/// never return the same block.
pub proof fn lemma_allocations_distinct(bits: Seq<bool>, m: nat, n: nat)
    requires
        m < n,
        nth_allocation(bits, m) is Some,
        nth_allocation(bits, n) is Some,
    ensures
        nth_allocation(bits, m) != nth_allocation(bits, n),
{
    let first = nth_allocation(bits, m)->0;
    let before = after_allocations(bits, m);
    lemma_after_allocations(bits, m);
    lemma_after_allocations(bits, n);
    lemma_lowest_free(before);
    lemma_allocations_keep(bits, m + 1, n, first);
    lemma_lowest_free(after_allocations(bits, n));
}

} // verus!
