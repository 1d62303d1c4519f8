//! The pointer tree of an inode: how a logical block offset leads through
//! blocks of pointers to the slot that names the block of the file.
//!
//! An inode of level 0 holds the slots itself. At a higher level each of its
//! pointers names a block of pointers one level lower. A slot that holds
//! block 0 is empty.

use crate::block_map::{has_free, lowest_free, BlockMap};
use crate::block_number::{BlockNumber, BlockOffset};
use crate::cache::{Cache, EntryView};
use crate::device::BlockDevice;
use crate::error::{Error, ErrorView, Result};
use crate::fs::FileSystem;
use crate::inode::{INode, INODE_POINTERS};
use crate::inode::pointers_from_image;
use vstd::arithmetic::power::pow;
use vstd::prelude::*;

verus! {

/// How many block numbers a block of `block_size` bytes holds.
pub open spec fn fanout(block_size: u16) -> int {
    block_size as int / 8
}

/// How many blocks of a file one pointer of a tree of the given level
/// stands for.
pub open spec fn per_level(block_size: u16, level: nat) -> int {
    pow(fanout(block_size), level)
}

/// `base` to the power of `exponent`, or `None` where that is more than
/// `u64::MAX`.
pub fn power(base: u64, exponent: u8) -> (r: Option<u64>)
    ensures
        r is Some <==> pow(base as int, exponent as nat) <= u64::MAX,
        r is Some ==> r->0 == pow(base as int, exponent as nat),
{
    broadcast use vstd::arithmetic::power::lemma_pow0;

    if base == 0 {
        proof {
            if exponent > 0 {
                vstd::arithmetic::power::lemma0_pow(exponent as nat);
            }
        }
        return Some(if exponent == 0 {
            1
        } else {
            0
        });
    }
    let mut acc: u64 = 1;
    let mut i: u8 = 0;
    while i < exponent
        invariant
            i <= exponent,
            base >= 1,
            acc == pow(base as int, i as nat),
            acc >= 1,
        decreases exponent - i,
    {
        proof {
            vstd::arithmetic::power::lemma_pow_adds(base as int, i as nat, 1);
            vstd::arithmetic::power::lemma_pow1(base as int);
        }
        if acc > u64::MAX / base {
            proof {
                assert(acc * base > u64::MAX) by (nonlinear_arith)
                    requires
                        acc > u64::MAX / base,
                        base >= 1,
                ;
                vstd::arithmetic::power::lemma_pow_increases(
                    base as nat,
                    (i + 1) as nat,
                    exponent as nat,
                );
            }
            return None;
        }
        proof {
            assert(acc * base <= u64::MAX) by (nonlinear_arith)
                requires
                    acc <= u64::MAX / base,
                    base >= 1,
            ;
            assert(acc * base >= 1) by (nonlinear_arith)
                requires
                    acc >= 1,
                    base >= 1,
            ;
        }
        acc = acc * base;
        i = i + 1;
    }
    Some(acc)
}

/// Which pointer of a tree of the given level `offset` falls under, and the
/// offset that is left below that pointer.
pub fn split_offset(offset: u64, level: u8, fanout: u64) -> (r: (u64, u64))
    requires
        fanout >= 1,
    ensures
        r.0 == offset as int / pow(fanout as int, level as nat),
        r.1 == offset as int % pow(fanout as int, level as nat),
{
    proof {
        vstd::arithmetic::power::lemma_pow_positive(fanout as int, level as nat);
    }
    match power(fanout, level) {
        Some(span) => (offset / span, offset % span),
        None => {
            proof {
                let span = pow(fanout as int, level as nat);
                vstd::arithmetic::div_mod::lemma_small_mod(offset as nat, span as nat);
                vstd::arithmetic::div_mod::lemma_basic_div(offset as int, span);
            }
            (0, offset)
        },
    }
}

/// Whether `offset` lies within what `pointers` pointers of a tree of the
/// given level stand for.
pub fn within_reach(offset: u64, pointers: u64, level: u8, fanout: u64) -> (r: bool)
    requires
        fanout >= 1,
    ensures
        r == (offset < pointers * pow(fanout as int, level as nat)),
{
    proof {
        vstd::arithmetic::power::lemma_pow_positive(fanout as int, level as nat);
    }
    if pointers == 0 {
        return false;
    }
    match power(fanout, level) {
        None => {
            assert(pointers * pow(fanout as int, level as nat) > u64::MAX) by (nonlinear_arith)
                requires
                    pointers >= 1,
                    pow(fanout as int, level as nat) > u64::MAX,
            ;
            true
        },
        Some(span) => {
            if span > u64::MAX / pointers {
                assert(pointers * span > u64::MAX) by (nonlinear_arith)
                    requires
                        span > u64::MAX / pointers,
                        pointers >= 1,
                ;
                true
            } else {
                assert(pointers * span <= u64::MAX) by (nonlinear_arith)
                    requires
                        span <= u64::MAX / pointers,
                        pointers >= 1,
                ;
                offset < pointers * span
            }
        },
    }
}

/// What the cache and the device say of each block when it is read as a
/// block of pointers: the block numbers, or why it cannot be read.
pub type Links = Map<u64, core::result::Result<Seq<BlockNumber>, ErrorView>>;

/// A slot of the tree: the block of pointers that holds it, or `None` for
/// the inode itself, its index there, and what it holds.
pub struct Slot {
    pub holder: Option<u64>,
    pub index: int,
    pub value: BlockNumber,
}

/// The slot that `offset` leads to in the tree below `ptrs`, which `holder`
/// holds: an error where the offset is out of reach or a block of pointers
/// cannot be read, `None` where the way ends at an empty pointer above the
/// slots.
pub open spec fn locate(
    links: Links,
    block_size: u16,
    holder: Option<u64>,
    ptrs: Seq<BlockNumber>,
    offset: int,
    level: nat,
) -> core::result::Result<Option<Slot>, ErrorView>
    decreases level,
{
    if level == 0 {
        if offset < ptrs.len() {
            Ok(Some(Slot { holder, index: offset, value: ptrs[offset] }))
        } else {
            Err(ErrorView::Overflow)
        }
    } else {
        let child = offset / per_level(block_size, level);
        let rest = offset % per_level(block_size, level);
        if child >= ptrs.len() {
            Err(ErrorView::Overflow)
        } else if ptrs[child].number == 0 {
            Ok(None)
        } else {
            match links[ptrs[child].number] {
                Err(kind) => Err(kind),
                Ok(next) => locate(
                    links,
                    block_size,
                    Some(ptrs[child].number),
                    next,
                    rest,
                    (level - 1) as nat,
                ),
            }
        }
    }
}

/// The block that `offset` resolves to in the tree below `ptrs`: the block
/// in its slot, or `None` for a hole.
pub open spec fn resolve(
    links: Links,
    block_size: u16,
    holder: Option<u64>,
    ptrs: Seq<BlockNumber>,
    offset: int,
    level: nat,
) -> core::result::Result<Option<BlockNumber>, ErrorView> {
    match locate(links, block_size, holder, ptrs, offset, level) {
        Err(kind) => Err(kind),
        Ok(None) => Ok(None),
        Ok(Some(slot)) => if slot.value.number == 0 {
            Ok(None)
        } else {
            Ok(Some(slot.value))
        },
    }
}

/// The blocks of pointers that are read on the way to the slot of `offset`.
pub open spec fn visited(
    links: Links,
    block_size: u16,
    ptrs: Seq<BlockNumber>,
    offset: int,
    level: nat,
) -> Set<u64>
    decreases level,
{
    if level == 0 {
        Set::empty()
    } else {
        let child = offset / per_level(block_size, level);
        let rest = offset % per_level(block_size, level);
        if child >= ptrs.len() || ptrs[child].number == 0 {
            Set::empty()
        } else {
            match links[ptrs[child].number] {
                Err(_) => Set::empty(),
                Ok(next) => visited(links, block_size, next, rest, (level - 1) as nat).insert(
                    ptrs[child].number,
                ),
            }
        }
    }
}

/// Whether every entry of `after` that holds raw bytes was in `before` as
/// it is.
pub open spec fn keeps_raw(before: Map<u64, EntryView>, after: Map<u64, EntryView>) -> bool {
    forall|k: u64| #[trigger]
        after.contains_key(k) && after[k] is Block ==> before.contains_key(k) && before[k]
            == after[k]
}

impl BlockDevice {
    /// How many blocks of a file one pointer of a tree of the given level
    /// stands for: the number of block numbers in a block, to the power of
    /// the level. `None` where that is more than `u64::MAX`.
    pub fn block_numbers_per_level(&self, level: u8) -> (r: Option<u64>)
        ensures
            r is Some <==> per_level(self.config.block_size, level as nat) <= u64::MAX,
            r is Some ==> r->0 == per_level(self.config.block_size, level as nat),
    {
        power(self.block_numbers_per_block() as u64, level)
    }
}

impl Cache {
    /// What reading block `b` as a block of pointers gives: the cached
    /// block numbers, else those that the device stores.
    pub open spec fn pointers(&self, b: u64) -> core::result::Result<Seq<BlockNumber>, ErrorView> {
        if self.model().contains_key(b) {
            match self.model()[b] {
                EntryView::Pointers(pointers) => Ok(pointers),
                EntryView::Block(_) => Err(ErrorView::CacheInvalid),
            }
        } else if b < self.device.config.block_count {
            Ok(pointers_from_image(self.device.block(b as int)))
        } else {
            Err(
                ErrorView::Size(
                    self.device.refusal(
                        BlockNumber { number: b },
                        self.device.config.block_size as usize,
                    ),
                ),
            )
        }
    }

    /// What reading gives for every block.
    pub open spec fn links(&self) -> Links {
        Map::total(|b: u64| self.pointers(b))
    }
}

/// Whether `after` is `before` with blocks read in from the device: what
/// was cached stays as it is, and each new entry holds the block numbers
/// that the device stores for its block.
pub open spec fn read_through(
    before: Map<u64, EntryView>,
    after: Map<u64, EntryView>,
    device: BlockDevice,
) -> bool {
    &&& forall|k: u64| #[trigger] before.contains_key(k) ==> after.contains_key(k)
    &&& forall|k: u64| #[trigger]
        after.contains_key(k) ==> if before.contains_key(k) {
            after[k] == before[k]
        } else {
            k < device.config.block_count && after[k] == EntryView::Pointers(
                pointers_from_image(device.block(k as int)),
            )
        }
}

/// Reading blocks in from the device changes nothing of what reading gives.
pub proof fn lemma_read_through_links(before: Cache, after: Cache)
    requires
        before.device == after.device,
        read_through(before.model(), after.model(), before.device),
    ensures
        after.links() == before.links(),
{
    assert forall|b: u64| after.pointers(b) == before.pointers(b) by {
        if after.model().contains_key(b) {
            assert(before.model().contains_key(b) || !before.model().contains_key(b));
        }
    }
}

/// Whether what `r` returns is what `expected` says: the same value, or an
/// error of the same kind.
pub open spec fn agrees<T>(r: Result<T>, expected: core::result::Result<T, ErrorView>) -> bool {
    match expected {
        Ok(value) => r is Ok && r->Ok_0 == value,
        Err(error) => r is Err && r->Err_0@ == error,
    }
}

/// Follows `offset` down the tree below `block_ptrs` and returns the block
/// in its slot, or `None` for a hole.
fn lookup_in(
    cache: &mut Cache,
    offset: u64,
    block_ptrs: &Vec<BlockNumber>,
    level: u8,
    Ghost(holder): Ghost<Option<u64>>,
) -> (r: Result<Option<BlockNumber>>)
    requires
        old(cache).device.wf(),
        old(cache).device.config.block_size >= 8,
    ensures
        final(cache).device == old(cache).device,
        read_through(old(cache).model(), final(cache).model(), old(cache).device),
        final(cache).model().dom() == old(cache).model().dom().union(
            visited(
                old(cache).links(),
                old(cache).device.config.block_size,
                block_ptrs@,
                offset as int,
                level as nat,
            ),
        ),
        final(cache).model().contains_key(0) ==> old(cache).model().contains_key(0),
        final(cache).links() == old(cache).links(),
        agrees(
            r,
            resolve(
                old(cache).links(),
                old(cache).device.config.block_size,
                holder,
                block_ptrs@,
                offset as int,
                level as nat,
            ),
        ),
    decreases level,
{
    if level == 0 {
        if offset < block_ptrs.len() as u64 {
            let block_num = block_ptrs[offset as usize];
            if block_num.is_master() {
                Ok(None)
            } else {
                Ok(Some(block_num))
            }
        } else {
            Err(Error::Overflow)
        }
    } else {
        let fanout = cache.device.block_numbers_per_block() as u64;
        let (next_block, next_offset) = split_offset(offset, level, fanout);
        if next_block >= block_ptrs.len() as u64 {
            return Err(Error::Overflow);
        }
        let next_block_index = block_ptrs[next_block as usize];
        if next_block_index.is_master() {
            Ok(None)
        } else {
            let ghost before = *cache;
            let read = cache.read_pointers(next_block_index);
            proof {
                lemma_read_through_links(before, *cache);
            }
            proof {
                if read is Err {
                    assert(cache.model().dom() =~= before.model().dom().union(Set::empty()));
                }
            }
            let next_block_ptrs = read?;
            let ghost middle = cache.model().dom();
            assert(middle =~= before.model().dom().insert(next_block_index.number));
            let r = lookup_in(
                cache,
                next_offset,
                &next_block_ptrs,
                level - 1,
                Ghost(Some(next_block_index.number)),
            );
            proof {
                let below = visited(
                    before.links(),
                    before.device.config.block_size,
                    next_block_ptrs@,
                    next_offset as int,
                    (level - 1) as nat,
                );
                assert(cache.model().dom() =~= before.model().dom().union(
                    below.insert(next_block_index.number),
                ));
            }
            r
        }
    }
}

/// What an allocation in the tree leaves behind: what it returns, the bits
/// of the block map, the pointers of the array it was started on, and what
/// reading gives for every block of pointers.
pub struct Outcome {
    pub result: core::result::Result<Option<BlockNumber>, ErrorView>,
    pub bits: Seq<bool>,
    pub ptrs: Seq<BlockNumber>,
    pub links: Links,
}

/// Allocation at `offset` in the tree below `ptrs`. A slot that holds a
/// block gives that block and nothing changes. An empty slot is filled with
/// the lowest free block, which is marked as in use; this fails where no
/// block is free. Where the way to the slot ends at an empty pointer,
/// nothing is allocated and the result is `None`.
pub open spec fn filled(
    links: Links,
    block_size: u16,
    bits: Seq<bool>,
    holder: Option<u64>,
    ptrs: Seq<BlockNumber>,
    offset: int,
    level: nat,
) -> Outcome {
    match locate(links, block_size, holder, ptrs, offset, level) {
        Err(kind) => Outcome { result: Err(kind), bits, ptrs, links },
        Ok(None) => Outcome { result: Ok(None), bits, ptrs, links },
        Ok(Some(slot)) => {
            if slot.value.number != 0 {
                Outcome { result: Ok(Some(slot.value)), bits, ptrs, links }
            } else if !has_free(bits) {
                Outcome { result: Err(ErrorView::Size("out of blocks"@)), bits, ptrs, links }
            } else {
                let block = BlockNumber { number: lowest_free(bits) as u64 };
                Outcome {
                    result: Ok(Some(block)),
                    bits: bits.update(lowest_free(bits), true),
                    ptrs: if level == 0 {
                        ptrs.update(slot.index, block)
                    } else {
                        ptrs
                    },
                    links: if level == 0 {
                        links
                    } else {
                        links.insert(
                            slot.holder->0,
                            Ok(links[slot.holder->0]->Ok_0.update(slot.index, block)),
                        )
                    },
                }
            }
        },
    }
}

/// Whether every entry of `after` is as large as it was in `before`, or is
/// new, stands for a block of the device and holds as many block numbers as
/// fit into a block.
pub open spec fn sized_alike(
    before: Map<u64, EntryView>,
    after: Map<u64, EntryView>,
    device: BlockDevice,
) -> bool {
    &&& forall|k: u64| #[trigger] before.contains_key(k) ==> after.contains_key(k)
    &&& forall|k: u64| #[trigger]
        after.contains_key(k) ==> (before.contains_key(k) && after[k].image().len()
            == before[k].image().len()) || (k < device.config.block_count
            && after[k].image().len() == 8 * fanout(device.config.block_size))
}

/// The stored form of a run of block numbers is eight bytes for each.
pub proof fn lemma_pointers_image_len(ptrs: Seq<BlockNumber>)
    ensures
        crate::inode::pointers_image(ptrs).len() == 8 * ptrs.len(),
{
}

/// A block of the device stores as many block numbers as fit into a block.
pub proof fn lemma_block_pointers_len(device: BlockDevice, b: int)
    requires
        device.wf(),
        0 <= b < device.config.block_count,
    ensures
        pointers_from_image(device.block(b)).len() == fanout(device.config.block_size),
{
    crate::device::lemma_block_in_image(
        device.image().len() as int,
        device.config.block_size as int,
        b,
    );
}

/// Allocates at `offset` in the tree below `block_ptrs`: returns the block
/// in the slot of `offset`, after filling the slot with a newly allocated
/// block where it was empty.
fn fill_in(
    block_map: &mut BlockMap,
    cache: &mut Cache,
    offset: u64,
    block_ptrs: &mut Vec<BlockNumber>,
    level: u8,
    Ghost(holder): Ghost<Option<u64>>,
) -> (r: Result<Option<BlockNumber>>)
    requires
        old(cache).device.wf(),
        old(cache).device.config.block_size >= 8,
        old(block_map)@.len() <= old(cache).device.config.block_count,
    ensures
        final(cache).device == old(cache).device,
        sized_alike(old(cache).model(), final(cache).model(), old(cache).device),
        keeps_raw(old(cache).model(), final(cache).model()),
        final(cache).model().dom() == old(cache).model().dom().union(
            visited(
                old(cache).links(),
                old(cache).device.config.block_size,
                old(block_ptrs)@,
                offset as int,
                level as nat,
            ),
        ),
        final(cache).model().contains_key(0) ==> old(cache).model().contains_key(0),
        final(block_map)@.len() == old(block_map)@.len(),
        final(block_ptrs)@.len() == old(block_ptrs)@.len(),
        ({
            let outcome = filled(
                old(cache).links(),
                old(cache).device.config.block_size,
                old(block_map)@,
                holder,
                old(block_ptrs)@,
                offset as int,
                level as nat,
            );
            &&& agrees(r, outcome.result)
            &&& final(block_map)@ == outcome.bits
            &&& final(block_ptrs)@ == outcome.ptrs
            &&& final(cache).links() == outcome.links
        }),
    decreases level,
{
    let ghost links = cache.links();
    if level == 0 {
        if offset < block_ptrs.len() as u64 {
            let block_num = block_ptrs[offset as usize];
            if block_num.is_master() {
                proof {
                    crate::block_map::lemma_lowest_free(block_map@);
                }
                let new_block_num = block_map.allocate()?;
                block_ptrs[offset as usize] = new_block_num;
                Ok(Some(new_block_num))
            } else {
                Ok(Some(block_num))
            }
        } else {
            Err(Error::Overflow)
        }
    } else {
        let fanout = cache.device.block_numbers_per_block() as u64;
        let (next_block, next_offset) = split_offset(offset, level, fanout);
        if next_block >= block_ptrs.len() as u64 {
            return Err(Error::Overflow);
        }
        let next_block_index = block_ptrs[next_block as usize];
        if next_block_index.is_master() {
            Ok(None)
        } else {
            let ghost before = *cache;
            let read = cache.read_pointers(next_block_index);
            proof {
                lemma_read_through_links(before, *cache);
                if !before.model().contains_key(next_block_index.number) && read is Ok {
                    lemma_block_pointers_len(before.device, next_block_index.number as int);
                }
            }
            proof {
                if read is Err {
                    assert(cache.model().dom() =~= before.model().dom().union(Set::empty()));
                }
            }
            let mut next_block_ptrs = read?;
            let ghost middle = *cache;
            let ghost next = next_block_ptrs@;
            let tried = fill_in(
                block_map,
                cache,
                next_offset,
                &mut next_block_ptrs,
                level - 1,
                Ghost(Some(next_block_index.number)),
            );
            proof {
                let below = visited(
                    links,
                    before.device.config.block_size,
                    next,
                    next_offset as int,
                    (level - 1) as nat,
                );
                assert(cache.model().dom() =~= before.model().dom().union(
                    below.insert(next_block_index.number),
                ));
            }
            let r = tried?;
            if level == 1 {
                let ghost inner = *cache;
                cache.write_pointers(next_block_index, next_block_ptrs);
                proof {
                    assert(cache.links() =~= inner.links().insert(
                        next_block_index.number,
                        Ok(next_block_ptrs@),
                    ));
                    if next_block_ptrs@ == next {
                        assert(cache.links() =~= links);
                    }
                    assert(middle.model().contains_key(next_block_index.number));
                }
            }
            proof {
                assert(sized_alike(before.model(), cache.model(), before.device));
            }
            Ok(r)
        }
    }
}

/// What an allocation for an inode leaves behind: what it returns, the
/// bits of the block map, what reading gives for every block of pointers,
/// and the pointers, the level and the length of the inode.
pub struct Allocation {
    pub result: core::result::Result<Option<BlockNumber>, ErrorView>,
    pub bits: Seq<bool>,
    pub links: Links,
    pub ptrs: Seq<BlockNumber>,
    pub level: nat,
    pub length: int,
    /// The blocks that the allocation brings into the cache.
    pub cached: Set<u64>,
}

/// The pointers of an inode that has just grown by a level: the new block
/// of pointers first, then empty slots.
pub open spec fn grown_root(block: BlockNumber, len: nat) -> Seq<BlockNumber> {
    Seq::new(
        len,
        |i: int|
            if i == 0 {
                block
            } else {
                BlockNumber { number: 0 }
            },
    )
}

/// The block of pointers that takes over the pointers of an inode that
/// grows by a level: the pointers of the inode first, then empty slots.
pub open spec fn grown_block(ptrs: Seq<BlockNumber>, block_size: u16) -> Seq<BlockNumber> {
    Seq::new(
        fanout(block_size) as nat,
        |i: int|
            if i < ptrs.len() {
                ptrs[i]
            } else {
                BlockNumber { number: 0 }
            },
    )
}

/// Allocation at `offset`, once the tree reaches far enough or has grown:
/// the slot of `offset` is filled, and the length of the inode goes up by
/// one where that did not fail.
pub open spec fn settled(
    links: Links,
    block_size: u16,
    bits: Seq<bool>,
    ptrs: Seq<BlockNumber>,
    level: nat,
    length: int,
    offset: int,
) -> Allocation {
    let outcome = filled(links, block_size, bits, None, ptrs, offset, level);
    Allocation {
        result: outcome.result,
        bits: outcome.bits,
        links: outcome.links,
        ptrs: outcome.ptrs,
        level,
        length: if outcome.result is Ok {
            length + 1
        } else {
            length
        },
        cached: visited(links, block_size, ptrs, offset, level),
    }
}

/// Allocation at `offset` for an inode. Where the offset lies beyond what
/// the tree reaches, the tree first grows by one level: a newly allocated
/// block of pointers takes over the pointers of the inode and becomes its
/// only pointer. The tree grows by one level at most, and a tree that has
/// grown stays so even where the allocation then fails.
pub open spec fn allocation(
    links: Links,
    block_size: u16,
    bits: Seq<bool>,
    ptrs: Seq<BlockNumber>,
    level: nat,
    length: int,
    offset: int,
) -> Allocation {
    if offset < ptrs.len() * per_level(block_size, level) {
        settled(links, block_size, bits, ptrs, level, length, offset)
    } else if !has_free(bits) {
        Allocation {
            result: Err(ErrorView::Size("out of blocks"@)),
            bits,
            links,
            ptrs,
            level,
            length,
            cached: Set::empty(),
        }
    } else {
        let block = BlockNumber { number: lowest_free(bits) as u64 };
        let grown = settled(
            links.insert(block.number, Ok(grown_block(ptrs, block_size))),
            block_size,
            bits.update(lowest_free(bits), true),
            grown_root(block, ptrs.len()),
            level + 1,
            length,
            offset,
        );
        Allocation { cached: grown.cached.insert(block.number), ..grown }
    }
}

/// Filling an empty slot does not change the way that leads to it: the
/// same offset then leads to the same slot, which now holds the block.
pub proof fn lemma_locate_after_fill(
    links: Links,
    block_size: u16,
    holder: Option<u64>,
    ptrs: Seq<BlockNumber>,
    offset: int,
    level: nat,
    block: BlockNumber,
)
    requires
        0 <= offset,
        block_size >= 8,
        holder matches Some(h) ==> links[h] == Ok::<Seq<BlockNumber>, ErrorView>(ptrs),
        locate(links, block_size, holder, ptrs, offset, level) matches Ok(Some(slot))
            && slot.value.number == 0,
    ensures
        ({
            let slot = locate(links, block_size, holder, ptrs, offset, level)->Ok_0->0;
            let after_links = if slot.holder is Some {
                links.insert(
                    slot.holder->0,
                    Ok(links[slot.holder->0]->Ok_0.update(slot.index, block)),
                )
            } else {
                links
            };
            let after_ptrs = if slot.holder == holder {
                ptrs.update(slot.index, block)
            } else {
                ptrs
            };
            &&& 0 <= slot.index
            &&& level == 0 ==> slot.holder == holder
            &&& level > 0 ==> slot.holder is Some
            &&& slot.holder matches Some(h) ==> links[h] is Ok && slot.index < links[h]->Ok_0.len()
                && links[h]->Ok_0[slot.index] == slot.value
            &&& slot.holder == holder ==> slot.index < ptrs.len() && ptrs[slot.index] == slot.value
            &&& locate(after_links, block_size, holder, after_ptrs, offset, level) == Ok::<
                Option<Slot>,
                ErrorView,
            >(Some(Slot { holder: slot.holder, index: slot.index, value: block }))
        }),
    decreases level,
{
    if level > 0 {
        let span = per_level(block_size, level);
        let child = offset / span;
        let rest = offset % span;
        vstd::arithmetic::power::lemma_pow_positive(fanout(block_size), level);
        vstd::arithmetic::div_mod::lemma_mod_bound(offset, span);
        vstd::arithmetic::div_mod::lemma_div_pos_is_pos(offset, span);
        let c = ptrs[child].number;
        let next = links[c]->Ok_0;
        lemma_locate_after_fill(
            links,
            block_size,
            Some(c),
            next,
            rest,
            (level - 1) as nat,
            block,
        );
        let slot = locate(links, block_size, holder, ptrs, offset, level)->Ok_0->0;
        let after_links = links.insert(
            slot.holder->0,
            Ok(links[slot.holder->0]->Ok_0.update(slot.index, block)),
        );
        let after_next = if slot.holder == Some(c) {
            next.update(slot.index, block)
        } else {
            next
        };
        assert(after_links[c] == Ok::<Seq<BlockNumber>, ErrorView>(after_next));
    }
}

/// What was allocated at an offset is what the offset then resolves to: an
/// allocation that returns a block leaves a tree in which a lookup at the
/// same offset gives that block. Block 0 must be marked as in use, so that
/// it is never handed out.
pub proof fn lemma_allocated_is_resolved(
    links: Links,
    block_size: u16,
    bits: Seq<bool>,
    ptrs: Seq<BlockNumber>,
    level: nat,
    length: int,
    offset: int,
)
    requires
        0 <= offset,
        block_size >= 8,
        bits.len() > 0 ==> bits[0],
        bits.len() <= u64::MAX,
        ptrs.len() > 0,
        allocation(links, block_size, bits, ptrs, level, length, offset).result matches Ok(Some(_)),
    ensures
        ({
            let a = allocation(links, block_size, bits, ptrs, level, length, offset);
            resolve(a.links, block_size, None, a.ptrs, offset, a.level) == a.result
        }),
{
    crate::block_map::lemma_lowest_free(bits);
    if offset < ptrs.len() * per_level(block_size, level) {
        lemma_filled_is_resolved(links, block_size, bits, ptrs, level, offset);
    } else {
        let block = BlockNumber { number: lowest_free(bits) as u64 };
        let bits1 = bits.update(lowest_free(bits), true);
        crate::block_map::lemma_lowest_free(bits1);
        lemma_filled_is_resolved(
            links.insert(block.number, Ok(grown_block(ptrs, block_size))),
            block_size,
            bits1,
            grown_root(block, ptrs.len()),
            level + 1,
            offset,
        );
    }
}

/// Filling the slot of an offset gives a tree in which the offset resolves
/// to the block that the filling returned.
pub proof fn lemma_filled_is_resolved(
    links: Links,
    block_size: u16,
    bits: Seq<bool>,
    ptrs: Seq<BlockNumber>,
    level: nat,
    offset: int,
)
    requires
        0 <= offset,
        block_size >= 8,
        bits.len() > 0 ==> bits[0],
        bits.len() <= u64::MAX,
        filled(links, block_size, bits, None, ptrs, offset, level).result matches Ok(Some(_)),
    ensures
        ({
            let o = filled(links, block_size, bits, None, ptrs, offset, level);
            resolve(o.links, block_size, None, o.ptrs, offset, level) == o.result
        }),
{
    let slot = locate(links, block_size, None, ptrs, offset, level)->Ok_0->0;
    if slot.value.number == 0 {
        crate::block_map::lemma_lowest_free(bits);
        let block = BlockNumber { number: lowest_free(bits) as u64 };
        lemma_locate_after_fill(links, block_size, None, ptrs, offset, level, block);
    }
}

/// A power of a base of at least 2 is at least the same power of 2.
pub proof fn lemma_pow_at_least(base: int, exponent: nat)
    requires
        base >= 2,
    ensures
        pow(base, exponent) >= pow(2, exponent) >= 1,
    decreases exponent,
{
    reveal(pow);
    if exponent > 0 {
        lemma_pow_at_least(base, (exponent - 1) as nat);
        assert(base * pow(base, (exponent - 1) as nat) >= 2 * pow(2, (exponent - 1) as nat))
            by (nonlinear_arith)
            requires
                base >= 2,
                pow(base, (exponent - 1) as nat) >= pow(2, (exponent - 1) as nat) >= 1,
        ;
    }
}

/// A tree of level 64 or more over blocks of at least two pointers reaches
/// every offset of 64 bits.
pub proof fn lemma_deep_tree_reaches_all(block_size: u16, level: nat)
    requires
        block_size >= 16,
        level >= 64,
    ensures
        per_level(block_size, level) > u64::MAX,
{
    lemma_pow_at_least(fanout(block_size), level);
    vstd::arithmetic::power::lemma_pow_increases(2, 64, level);
    vstd::arithmetic::power2::lemma2_to64();
    vstd::arithmetic::power2::lemma_pow2(64);
}

/// The pointers of an inode as a vector.
fn pointers_of(inode: &INode) -> (r: Vec<BlockNumber>)
    ensures
        r@ == inode.block_ptrs@,
{
    let mut out: Vec<BlockNumber> = Vec::new();
    let mut i: usize = 0;
    while i < INODE_POINTERS
        invariant
            i <= INODE_POINTERS,
            out@ == inode.block_ptrs@.take(i as int),
        decreases INODE_POINTERS - i,
    {
        out.push(inode.block_ptrs[i]);
        i = i + 1;
    }
    out
}

/// Eight pointers as the array that an inode keeps.
fn pointer_array(ptrs: &Vec<BlockNumber>) -> (r: [BlockNumber; 8])
    requires
        ptrs@.len() == INODE_POINTERS,
    ensures
        r@ == ptrs@,
{
    let r = [ptrs[0], ptrs[1], ptrs[2], ptrs[3], ptrs[4], ptrs[5], ptrs[6], ptrs[7]];
    r
}

impl FileSystem {
    /// The block that `offset` resolves to in the tree of inode `inode_num`.
    pub open spec fn resolved(&self, inode_num: int, offset: u64) -> core::result::Result<
        Option<BlockNumber>,
        ErrorView,
    > {
        resolve(
            self.cache.links(),
            self.master_block.block_size,
            None,
            self.inode_map@[inode_num].block_ptrs@,
            offset as int,
            self.inode_map@[inode_num].level as nat,
        )
    }

    /// What allocating at `offset` for inode `inode_num` leaves behind.
    pub open spec fn allocated(&self, inode_num: int, offset: u64) -> Allocation {
        allocation(
            self.cache.links(),
            self.master_block.block_size,
            self.block_map@,
            self.inode_map@[inode_num].block_ptrs@,
            self.inode_map@[inode_num].level as nat,
            self.inode_map@[inode_num].length as int,
            offset as int,
        )
    }

    /// The block that holds block `offset` of the file of inode
    /// `inode_num`, or `None` for a hole. Blocks of pointers on the way are
    /// read into the cache.
    pub fn lookup_block_num_from_offset(&mut self, inode_num: usize, offset: BlockOffset) -> (r:
        Result<Option<BlockNumber>>)
        requires
            old(self).wf(),
            inode_num < old(self).inode_map@.len(),
        ensures
            final(self).wf(),
            final(self).master_block == old(self).master_block,
            final(self).block_map == old(self).block_map,
            final(self).inode_map == old(self).inode_map,
            final(self).cache.device == old(self).cache.device,
            read_through(
                old(self).cache.model(),
                final(self).cache.model(),
                old(self).cache.device,
            ),
            final(self).cache.model().dom() == old(self).cache.model().dom().union(
                visited(
                    old(self).cache.links(),
                    old(self).master_block.block_size,
                    old(self).inode_map@[inode_num as int].block_ptrs@,
                    offset.offset as int,
                    old(self).inode_map@[inode_num as int].level as nat,
                ),
            ),
            final(self).cache.links() == old(self).cache.links(),
            agrees(r, old(self).resolved(inode_num as int, offset.offset)),
            old(self).in_session() ==> final(self).in_session(),
            old(self).cache.fits() && old(self).master_block.block_size % 8 == 0
                ==> final(self).cache.fits(),
    {
        let inode = self.inode_map.get(inode_num);
        let block_ptrs = pointers_of(inode);
        let level = inode.level;
        let r = lookup_in(&mut self.cache, offset.offset, &block_ptrs, level, Ghost(None));
        proof {
            lemma_read_through_sized(old(self).cache, self.cache);
            if old(self).cache.fits() && old(self).master_block.block_size % 8 == 0 {
                lemma_sized_alike_fits(old(self).cache, self.cache);
            }
        }
        r
    }

    /// The block that holds block `offset` of the file of inode
    /// `inode_num`, allocated now where the file had a hole there. Where
    /// the offset lies beyond what the tree of the inode reaches, the tree
    /// first grows by one level. The length of the inode goes up by one
    /// unless the call fails.
    pub fn alloc_block_num_from_offset(&mut self, inode_num: usize, offset: BlockOffset) -> (r:
        Result<Option<BlockNumber>>)
        requires
            old(self).wf(),
            inode_num < old(self).inode_map@.len(),
            old(self).inode_map@[inode_num as int].length < u64::MAX,
        ensures
            final(self).wf(),
            final(self).master_block == old(self).master_block,
            final(self).cache.device == old(self).cache.device,
            sized_alike(
                old(self).cache.model(),
                final(self).cache.model(),
                old(self).cache.device,
            ),
            final(self).inode_map@.len() == old(self).inode_map@.len(),
            forall|j: int|
                0 <= j < old(self).inode_map@.len() && j != inode_num ==> final(self).inode_map@[j]
                    == old(self).inode_map@[j],
            ({
                let a = old(self).allocated(inode_num as int, offset.offset);
                let before = old(self).inode_map@[inode_num as int];
                let after = final(self).inode_map@[inode_num as int];
                &&& agrees(r, a.result)
                &&& final(self).block_map@ == a.bits
                &&& final(self).cache.links() == a.links
                &&& final(self).cache.model().dom() == old(self).cache.model().dom().union(
                    a.cached,
                )
                &&& forall|k: u64| #[trigger]
                    final(self).cache.model().contains_key(k) && final(self).cache.model()[k]
                        is Block ==> old(self).cache.model().contains_key(k)
                        && old(self).cache.model()[k] == final(self).cache.model()[k]
                &&& after.block_ptrs@ == a.ptrs
                &&& after.level == a.level
                &&& after.length == a.length
                &&& after.cdate == before.cdate
                &&& after.mdate == before.mdate
                &&& after.flags == before.flags
                &&& after.perms == before.perms
            }),
            old(self).allocates_into(*final(self), inode_num as int, offset.offset),
            old(self).in_session() && old(self).block_map@[0] ==> final(self).in_session(),
            old(self).cache.fits() && old(self).master_block.block_size % 8 == 0
                ==> final(self).cache.fits(),
    {
        let fanout = self.cache.device.block_numbers_per_block();
        let inode = self.inode_map.get(inode_num);
        let mut block_ptrs = pointers_of(inode);
        let mut level = inode.level;
        let length = inode.length;
        let ghost bits = self.block_map@;
        let ghost links = self.cache.links();
        let ghost block_size = self.master_block.block_size;
        if !within_reach(offset.offset, INODE_POINTERS as u64, level, fanout as u64) {
            proof {
                crate::block_map::lemma_lowest_free(bits);
                if level >= 64 {
                    lemma_deep_tree_reaches_all(block_size, level as nat);
                }
            }
            let new_block_num = self.block_map.allocate()?;
            let mut new_block: Vec<BlockNumber> = Vec::new();
            let mut i: usize = 0;
            while i < fanout
                invariant
                    i <= fanout,
                    fanout >= INODE_POINTERS,
                    block_ptrs@.len() == INODE_POINTERS,
                    new_block@.len() == i,
                    forall|k: int|
                        0 <= k < i ==> new_block@[k] == if k < block_ptrs@.len() {
                            block_ptrs@[k]
                        } else {
                            BlockNumber { number: 0 }
                        },
                decreases fanout - i,
            {
                if i < INODE_POINTERS {
                    new_block.push(block_ptrs[i]);
                } else {
                    new_block.push(BlockNumber::master());
                }
                i = i + 1;
            }
            assert(new_block@ =~= grown_block(block_ptrs@, block_size));
            self.cache.write_pointers(new_block_num, new_block);
            proof {
                assert(self.cache.links() =~= links.insert(
                    new_block_num.number,
                    Ok(grown_block(block_ptrs@, block_size)),
                ));
                lemma_pointers_image_len(grown_block(block_ptrs@, block_size));
                assert(sized_alike(
                    old(self).cache.model(),
                    self.cache.model(),
                    old(self).cache.device,
                ));
            }
            let mut new_block_ptrs: Vec<BlockNumber> = Vec::new();
            new_block_ptrs.push(new_block_num);
            let mut j: usize = 1;
            while j < INODE_POINTERS
                invariant
                    1 <= j <= INODE_POINTERS,
                    new_block_ptrs@.len() == j,
                    new_block_ptrs@[0] == new_block_num,
                    forall|k: int| 1 <= k < j ==> new_block_ptrs@[k].number == 0,
                decreases INODE_POINTERS - j,
            {
                new_block_ptrs.push(BlockNumber::master());
                j = j + 1;
            }
            assert(new_block_ptrs@ =~= grown_root(new_block_num, 8));
            block_ptrs = new_block_ptrs;
            level = level + 1;
            self.inode_map.vec[inode_num].block_ptrs = pointer_array(&block_ptrs);
            self.inode_map.vec[inode_num].level = level;
        }
        let ghost grown = self.cache.model();
        let filled = fill_in(
            &mut self.block_map,
            &mut self.cache,
            offset.offset,
            &mut block_ptrs,
            level,
            Ghost(None),
        );
        proof {
            assert(sized_alike(grown, self.cache.model(), old(self).cache.device));
            assert(sized_alike(
                old(self).cache.model(),
                self.cache.model(),
                old(self).cache.device,
            ));
            if old(self).cache.fits() && old(self).master_block.block_size % 8 == 0 {
                lemma_sized_alike_fits(old(self).cache, self.cache);
            }
        }
        let r = filled?;
        self.inode_map.vec[inode_num].block_ptrs = pointer_array(&block_ptrs);
        self.inode_map.vec[inode_num].length = length + 1;
        Ok(r)
    }
}

/// Entries that were read in from the device are as large as a block
/// holds block numbers.
pub proof fn lemma_read_through_sized(before: Cache, after: Cache)
    requires
        before.device == after.device,
        before.device.wf(),
        read_through(before.model(), after.model(), before.device),
    ensures
        sized_alike(before.model(), after.model(), before.device),
{
    assert forall|k: u64| #[trigger] after.model().contains_key(k) implies (
    before.model().contains_key(k) && after.model()[k].image().len()
        == before.model()[k].image().len()) || (k < before.device.config.block_count
        && after.model()[k].image().len() == 8 * fanout(before.device.config.block_size)) by {
        if !before.model().contains_key(k) {
            lemma_block_pointers_len(before.device, k as int);
        }
    }
}

/// On a device whose blocks hold whole block numbers, a cache that the
/// device takes stays so when entries keep their size or new ones are as
/// large as a block of pointers.
pub proof fn lemma_sized_alike_fits(before: Cache, after: Cache)
    requires
        before.device == after.device,
        before.device.wf(),
        before.device.config.block_size % 8 == 0,
        before.fits(),
        sized_alike(before.model(), after.model(), before.device),
    ensures
        after.fits(),
{
    assert forall|k: u64| #[trigger] after.entries@.contains_key(k) implies after.device.accepts(
        BlockNumber { number: k },
        after.entries@[k]@.image().len(),
    ) by {
        assert(after.model().contains_key(k));
        if before.model().contains_key(k) {
            assert(before.entries@.contains_key(k));
        }
    }
}

/// What was allocated at an offset is what a lookup at the same offset then
/// gives, for every state of the file system: where allocating for an inode
/// returns a block, the file system that the allocation leaves resolves the
/// offset to that block. Block 0 must be marked as in use.
pub proof fn lemma_alloc_then_lookup(
    before: FileSystem,
    after: FileSystem,
    inode_num: int,
    offset: u64,
)
    requires
        before.wf(),
        0 <= inode_num < before.inode_map@.len(),
        before.block_map@[0],
        before.allocated(inode_num, offset).result matches Ok(Some(_)),
        after.master_block == before.master_block,
        after.cache.links() == before.allocated(inode_num, offset).links,
        after.inode_map@[inode_num].block_ptrs@ == before.allocated(inode_num, offset).ptrs,
        after.inode_map@[inode_num].level == before.allocated(inode_num, offset).level,
    ensures
        after.resolved(inode_num, offset) == before.allocated(inode_num, offset).result,
{
    lemma_allocated_is_resolved(
        before.cache.links(),
        before.master_block.block_size,
        before.block_map@,
        before.inode_map@[inode_num].block_ptrs@,
        before.inode_map@[inode_num].level as nat,
        before.inode_map@[inode_num].length as int,
        offset as int,
    );
}

} // verus!
