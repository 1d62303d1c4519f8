//! The block cache: blocks that were read from the device or are waiting to
//! be written to it, each kept either as raw bytes or as block numbers.

use crate::block_number::BlockNumber;
use crate::device::{overwrite, BlockDevice};
use crate::error::{Error, Result};
use crate::inode::{pointers_from_image, pointers_image};
use std::collections::HashMap;
use vstd::bytes::{u64_from_le_bytes, u64_to_le_bytes};
use vstd::prelude::*;
use vstd::slice::slice_subrange;
use vstd::std_specs::iter::IteratorSpec;

verus! {

broadcast use vstd::std_specs::hash::group_hash_axioms;

/// What the cache holds for one block.
#[derive(Debug)]
pub enum CacheEntry {
    /// The bytes of the block.
    Block { block: Vec<u8> },
    /// The block numbers that the block stores.
    Pointers { pointers: Vec<BlockNumber> },
}

/// A cache entry as plain values.
pub enum EntryView {
    Block(Seq<u8>),
    Pointers(Seq<BlockNumber>),
}

impl EntryView {
    /// The bytes that the entry stands for.
    pub open spec fn image(self) -> Seq<u8> {
        match self {
            EntryView::Block(block) => block,
            EntryView::Pointers(pointers) => pointers_image(pointers),
        }
    }
}

impl View for CacheEntry {
    type V = EntryView;

    open spec fn view(&self) -> EntryView {
        match self {
            CacheEntry::Block { block } => EntryView::Block(block@),
            CacheEntry::Pointers { pointers } => EntryView::Pointers(pointers@),
        }
    }
}

/// The bytes that store `v`: eight for each block number, the least
/// significant byte first.
pub fn to_u8(v: &Vec<BlockNumber>) -> (r: Vec<u8>)
    ensures
        r@ == pointers_image(v@),
{
    let mut out: Vec<u8> = Vec::new();
    let mut i: usize = 0;
    while i < v.len()
        invariant
            i <= v.len(),
            out@ == pointers_image(v@.take(i as int)),
        decreases v.len() - i,
    {
        let mut group = u64_to_le_bytes(v[i].number);
        proof {
            vstd::bytes::lemma_auto_spec_u64_to_from_le_bytes();
            assert((out@ + group@) =~= pointers_image(v@.take(i + 1))) by {
                let next = pointers_image(v@.take(i + 1));
                assert forall|j: int| 0 <= j < next.len() implies (out@ + group@)[j] == next[j] by {
                    if j < 8 * i {
                        assert(j / 8 < i);
                    } else {
                        assert(j % 8 == j - 8 * i);
                    }
                }
            }
        }
        out.append(&mut group);
        i = i + 1;
    }
    out
}

/// The block numbers that `v` stores, eight bytes each. Bytes behind the
/// last whole group of eight are ignored.
pub fn from_u8(v: &Vec<u8>) -> (r: Vec<BlockNumber>)
    ensures
        r@ == pointers_from_image(v@),
{
    let count: usize = v.len() / 8;
    let mut out: Vec<BlockNumber> = Vec::new();
    let mut i: usize = 0;
    while i < count
        invariant
            i <= count == v.len() / 8,
            out@ == pointers_from_image(v@).take(i as int),
        decreases count - i,
    {
        let group = slice_subrange(v.as_slice(), 8 * i, 8 * i + 8);
        let number = u64_from_le_bytes(group);
        out.push(BlockNumber::new(number));
        i = i + 1;
    }
    out
}

impl CacheEntry {
    /// The bytes of the block that the entry stands for.
    pub fn bytes(&self) -> (r: Vec<u8>)
        ensures
            r@ == self@.image(),
    {
        match self {
            CacheEntry::Block { block } => block.clone(),
            CacheEntry::Pointers { pointers } => to_u8(pointers),
        }
    }
}

/// The bytes of `image` after each block that `entries` names was replaced
/// by the bytes that `entries` gives for it.
pub open spec fn flushed_image(image: Seq<u8>, block_size: u16, entries: Map<u64, Seq<u8>>) -> Seq<
    u8,
> {
    Seq::new(
        image.len(),
        |p: int|
            if entries.contains_key((p / block_size as int) as u64) {
                entries[(p / block_size as int) as u64][p % block_size as int]
            } else {
                image[p]
            },
    )
}

/// A cache over a device.
#[derive(Debug)]
pub struct Cache {
    pub entries: HashMap<u64, CacheEntry>,
    pub device: BlockDevice,
}

impl Cache {
    /// The entries of the cache as plain values, by block number.
    pub open spec fn model(&self) -> Map<u64, EntryView> {
        Map::new(|k: u64| self.entries@.contains_key(k), |k: u64| self.entries@[k]@)
    }

    /// The bytes that each entry stands for, by block number.
    pub open spec fn images(&self) -> Map<u64, Seq<u8>> {
        Map::new(|k: u64| self.entries@.contains_key(k), |k: u64| self.entries@[k]@.image())
    }

    /// Whether `done` is a part of the entries that the device takes, each
    /// with the bytes it stands for.
    pub open spec fn holds_fitting(&self, done: Map<u64, Seq<u8>>) -> bool {
        forall|k: u64| #[trigger]
            done.contains_key(k) ==> self.entries@.contains_key(k) && done[k]
                == self.entries@[k]@.image() && self.device.accepts(
                BlockNumber { number: k },
                done[k].len(),
            )
    }

    /// Whether the device refuses the entry of block `k` with the error
    /// `error`.
    pub open spec fn refuses(&self, k: u64, error: Error) -> bool {
        &&& self.entries@.contains_key(k)
        &&& !self.device.accepts(BlockNumber { number: k }, self.entries@[k]@.image().len())
        &&& error is Size
        &&& error->Size_0@ == self.device.refusal(
            BlockNumber { number: k },
            self.entries@[k]@.image().len() as usize,
        )
    }

    /// Whether the device takes every entry: each stands for a block of the
    /// device and is one block long.
    pub open spec fn fits(&self) -> bool {
        forall|k: u64| #[trigger]
            self.entries@.contains_key(k) ==> self.device.accepts(
                BlockNumber { number: k },
                self.entries@[k]@.image().len(),
            )
    }

    /// An empty cache over `device`.
    pub fn new(device: BlockDevice) -> (r: Cache)
        ensures
            r.device == device,
            r.model() == Map::<u64, EntryView>::empty(),
    {
        let r = Cache { entries: HashMap::new(), device };
        r
    }

    /// The bytes of block `block_num`: from the cache where it holds them,
    /// else from the device, and then the cache keeps them. A block that
    /// the cache holds as block numbers is refused.
    pub fn read(&mut self, block_num: BlockNumber) -> (r: Result<Vec<u8>>)
        requires
            old(self).device.wf(),
        ensures
            final(self).device == old(self).device,
            old(self).model().contains_key(block_num.number) ==> final(self).model() == old(
                self,
            ).model() && match old(self).model()[block_num.number] {
                EntryView::Block(block) => r is Ok && r->Ok_0@ == block,
                EntryView::Pointers(_) => r is Err && r->Err_0 is CacheInvalid,
            },
            !old(self).model().contains_key(block_num.number) && block_num.number < old(
                self,
            ).device.config.block_count ==> r is Ok && r->Ok_0@ == old(self).device.block(
                block_num.number as int,
            ) && final(self).model() == old(self).model().insert(
                block_num.number,
                EntryView::Block(r->Ok_0@),
            ),
            !old(self).model().contains_key(block_num.number) && block_num.number >= old(
                self,
            ).device.config.block_count ==> final(self).model() == old(self).model() && r is Err
                && r->Err_0 is Size && r->Err_0->Size_0@ == old(self).device.refusal(
                block_num,
                old(self).device.config.block_size as usize,
            ),
    {
        let block_size = self.device.config.block_size as usize;
        match self.entries.get(&block_num.number) {
            Some(entry) => {
                match entry {
                    CacheEntry::Block { block } => Ok(block.clone()),
                    CacheEntry::Pointers { .. } => Err(Error::CacheInvalid),
                }
            },
            None => {
                let mut block: Vec<u8> = vec![0u8; block_size];
                self.device.read(block_num, &mut block)?;
                let cache_entry = CacheEntry::Block { block: block.clone() };
                self.entries.insert(block_num.number, cache_entry);
                assert(final(self).model() =~= old(self).model().insert(
                    block_num.number,
                    EntryView::Block(block@),
                ));
                Ok(block)
            },
        }
    }

    /// The block numbers that block `block_num` stores: from the cache
    /// where it holds them, else from the device, and then the cache keeps
    /// them. A block that the cache holds as raw bytes is refused.
    pub fn read_pointers(&mut self, block_num: BlockNumber) -> (r: Result<Vec<BlockNumber>>)
        requires
            old(self).device.wf(),
        ensures
            final(self).device == old(self).device,
            old(self).model().contains_key(block_num.number) ==> final(self).model() == old(
                self,
            ).model() && match old(self).model()[block_num.number] {
                EntryView::Pointers(pointers) => r is Ok && r->Ok_0@ == pointers,
                EntryView::Block(_) => r is Err && r->Err_0 is CacheInvalid,
            },
            !old(self).model().contains_key(block_num.number) && block_num.number < old(
                self,
            ).device.config.block_count ==> r is Ok && r->Ok_0@ == pointers_from_image(
                old(self).device.block(block_num.number as int),
            ) && final(self).model() == old(self).model().insert(
                block_num.number,
                EntryView::Pointers(r->Ok_0@),
            ),
            !old(self).model().contains_key(block_num.number) && block_num.number >= old(
                self,
            ).device.config.block_count ==> final(self).model() == old(self).model() && r is Err
                && r->Err_0 is Size && r->Err_0->Size_0@ == old(self).device.refusal(
                block_num,
                old(self).device.config.block_size as usize,
            ),
    {
        let block_size = self.device.config.block_size as usize;
        match self.entries.get(&block_num.number) {
            Some(entry) => {
                match entry {
                    CacheEntry::Block { .. } => Err(Error::CacheInvalid),
                    CacheEntry::Pointers { pointers } => Ok(pointers.clone()),
                }
            },
            None => {
                let mut block: Vec<u8> = vec![0u8; block_size];
                self.device.read(block_num, &mut block)?;
                let pointers = from_u8(&block);
                let cache_entry = CacheEntry::Pointers { pointers: pointers.clone() };
                self.entries.insert(block_num.number, cache_entry);
                assert(final(self).model() =~= old(self).model().insert(
                    block_num.number,
                    EntryView::Pointers(pointers@),
                ));
                Ok(pointers)
            },
        }
    }

    /// Makes `pointers` the entry of block `block_num`, whatever the cache
    /// held for it.
    pub fn write_pointers(&mut self, block_num: BlockNumber, pointers: Vec<BlockNumber>)
        ensures
            final(self).device == old(self).device,
            final(self).model() == old(self).model().insert(
                block_num.number,
                EntryView::Pointers(pointers@),
            ),
    {
        self.entries.insert(block_num.number, CacheEntry::Pointers { pointers });
        assert(final(self).model() =~= old(self).model().insert(
            block_num.number,
            EntryView::Pointers(pointers@),
        ));
    }

    /// Writes every entry back to its block of the device. Where the device
    /// refuses an entry, the call fails with the error of the device, and
    /// the entries written before stay written. In which order the entries
    /// are written is open.
    pub fn flush(&mut self) -> (r: Result<()>)
        requires
            old(self).device.wf(),
        ensures
            final(self).entries == old(self).entries,
            final(self).device.wf(),
            final(self).device.config == old(self).device.config,
            final(self).device.image().len() == old(self).device.image().len(),
            r is Ok <==> old(self).fits(),
            r is Ok ==> final(self).device.image() == flushed_image(
                old(self).device.image(),
                old(self).device.config.block_size,
                old(self).images(),
            ),
            r is Err ==> r->Err_0 is Size,
            r is Err ==> exists|done: Map<u64, Seq<u8>>, k: u64|
                #![trigger old(self).holds_fitting(done), old(self).refuses(k, r->Err_0)]
                old(self).holds_fitting(done) && old(self).refuses(k, r->Err_0)
                    && final(self).device.image() == flushed_image(
                    old(self).device.image(),
                    old(self).device.config.block_size,
                    done,
                ),
    {
        let ghost start = self.device.image();
        let ghost block_size = self.device.config.block_size;
        let ghost mut done: Map<u64, Seq<u8>> = Map::empty();
        let ghost all = vstd::std_specs::hash::spec_hash_map_iter(&self.entries).remaining();
        let ghost mut count: int = 0;
        proof {
            assert(self.device.image() =~= flushed_image(start, block_size, done));
        }
        for pair in it: self.entries.iter()
            invariant
                self.entries == old(self).entries,
                self.device.wf(),
                self.device.config == old(self).device.config,
                block_size == self.device.config.block_size,
                start == old(self).device.image(),
                self.device.image().len() == start.len(),
                it.seq().no_duplicates(),
                it.seq() == all,
                it.index() == count,
                all == vstd::std_specs::hash::spec_hash_map_iter(&old(self).entries).remaining(),
                forall|k: u64|
                    done.contains_key(k) <==> exists|j: int|
                        0 <= j < it.index() && *(#[trigger] it.seq()[j]).0 == k,
                forall|k: u64| #[trigger]
                    done.contains_key(k) ==> old(self).entries@.contains_key(k) && done[k] == old(
                        self,
                    ).entries@[k]@.image() && old(self).device.accepts(
                        BlockNumber { number: k },
                        done[k].len(),
                    ),
                self.device.image() == flushed_image(start, block_size, done),
        {
            let key: u64 = *pair.0;
            let mut bytes = pair.1.bytes();
            proof {
                vstd::std_specs::hash::axiom_spec_hash_map_iter(&old(self).entries);
                assert(!done.contains_key(key)) by {
                    if done.contains_key(key) {
                        let j = choose|j: int|
                            0 <= j < it.index() && *(#[trigger] it.seq()[j]).0 == key;
                    }
                }
            }
            let total = self.device.image_len();
            match self.device.write(BlockNumber::new(key), &mut bytes) {
                Err(e) => {
                    proof {
                        assert(old(self).holds_fitting(done));
                        assert(old(self).refuses(key, e));
                    }
                    return Err(e);
                },
                Ok(()) => {},
            }
            proof {
                let after = done.insert(key, bytes@);
                crate::device::lemma_block_in_image(total as int, block_size as int, key as int);
                lemma_flush_step(start, block_size, done, key, bytes@);
                assert forall|k: u64| after.contains_key(k) <==> exists|j: int|
                    0 <= j < it.index() + 1 && *(#[trigger] it.seq()[j]).0 == k by {
                    if after.contains_key(k) {
                        if k == key {
                            assert(*it.seq()[it.index()].0 == k);
                        } else {
                            let j = choose|j: int|
                                0 <= j < it.index() && *(#[trigger] it.seq()[j]).0 == k;
                        }
                    }
                    if exists|j: int| 0 <= j < it.index() + 1 && *(#[trigger] it.seq()[j]).0 == k {
                        let j = choose|j: int|
                            0 <= j < it.index() + 1 && *(#[trigger] it.seq()[j]).0 == k;
                        if j < it.index() {
                            assert(done.contains_key(k));
                        }
                    }
                }
                done = after;
                count = count + 1;
            }
        }
        proof {
            vstd::std_specs::hash::axiom_spec_hash_map_iter(&old(self).entries);
            assert forall|k: u64| #[trigger]
                old(self).entries@.contains_key(k) implies done.contains_key(k) by {
                let pair = (&k, &old(self).entries@[k]);
            }
        }
        Ok(())
    }
}

/// Writing one more entry to its block gives the image in which that block,
/// too, is replaced.
pub proof fn lemma_flush_step(
    start: Seq<u8>,
    block_size: u16,
    done: Map<u64, Seq<u8>>,
    key: u64,
    bytes: Seq<u8>,
)
    requires
        block_size > 0,
        bytes.len() == block_size,
        key * block_size + block_size <= start.len() <= u64::MAX,
    ensures
        overwrite(flushed_image(start, block_size, done), key * block_size, bytes)
            =~= flushed_image(start, block_size, done.insert(key, bytes)),
{
    let size = block_size as int;
    let before = flushed_image(start, block_size, done);
    let left = overwrite(before, key * block_size, bytes);
    let right = flushed_image(start, block_size, done.insert(key, bytes));
    assert forall|p: int| 0 <= p < start.len() implies left[p] == right[p] by {
        lemma_block_of_position(p, size, key as int);
        assert(0 <= p / size <= p) by (nonlinear_arith)
            requires
                0 <= p,
                size > 0,
        ;
        assert(before[p] == if done.contains_key((p / size) as u64) {
            done[(p / size) as u64][p % size]
        } else {
            start[p]
        });
        if key * size <= p < key * size + size {
            assert(left[p] == bytes[p - key * size]);
        } else {
            assert(left[p] == before[p]);
        }
    }
}

/// A position lies in block `k` exactly where dividing it by the block size
/// gives `k`, and then the remainder is its place in the block.
pub proof fn lemma_block_of_position(p: int, size: int, k: int)
    requires
        size > 0,
        0 <= p,
        0 <= k,
    ensures
        (k * size <= p < k * size + size) <==> p / size == k,
        p / size == k ==> p % size == p - k * size,
{
    vstd::arithmetic::div_mod::lemma_fundamental_div_mod(p, size);
    vstd::arithmetic::div_mod::lemma_mod_bound(p, size);
    if k * size <= p < k * size + size {
        vstd::arithmetic::div_mod::lemma_fundamental_div_mod_converse(p, size, k, p - k * size);
    }
    if p / size == k {
        assert(size * (p / size) == k * size) by (nonlinear_arith)
            requires
                p / size == k,
        ;
    }
}

} // verus!
