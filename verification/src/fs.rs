//! The file system: master block, block map, inode table and block cache
//! over one device, with formatting, mounting, flushing and unmounting.

use crate::bits::{byte_bit, pack_bits, packed_len};
use crate::block_map::BlockMap;
use crate::block_number::{BlockNumber, Sequence, Step};
use crate::cache::{flushed_image, Cache, EntryView};
use crate::device::{lemma_block_in_image, overwrite, BlockDevice};
use crate::error::{Error, Result};
use crate::inode::{
    inode_stored_in, INode, INodeMap, Timestamp, INODE_BYTES,
};
use crate::master_block::{
    inode_map_start, master_from_image, MasterBlock, MasterBlockFlags, MASTER_BLOCK_BYTES, SYNCED,
};
use vstd::prelude::*;

verus! {

/// The number of inodes of a freshly formatted file system.
pub const INODE_COUNT: u16 = 10;

/// The message of the error for a master block that describes another
/// device than the one it was read from.
pub open spec fn mismatch_message() -> Seq<char> {
    "master block does not match the device"@
}

/// Whether master block `m` describes a device of this block size and block
/// count, with the block map at block 1, the inode table right behind it,
/// and the whole table on the device.
pub open spec fn describes(m: MasterBlock, block_size: u16, block_count: u64) -> bool {
    &&& m.block_size == block_size
    &&& m.block_count == block_count
    &&& m.block_map.number == 1
    &&& m.inode_map.number == inode_map_start(block_size, block_count)
    &&& m.inode_map.number + m.inode_count <= block_count
}

/// The number of blocks that the packed block map fills, the last one
/// perhaps in part.
pub open spec fn bitmap_blocks(block_size: u16, block_count: u64) -> int {
    (packed_len(block_count as nat) + block_size - 1) / (block_size as int)
}

/// The image after the packed block map was stored in it: the packed bits
/// from block 1 on, the last block of them filled up with zero bytes.
pub open spec fn bitmap_image(image: Seq<u8>, block_size: u16, bits: Seq<bool>) -> Seq<u8> {
    let packed = pack_bits(bits);
    let size = block_size as int;
    let blocks = (packed.len() + size - 1) / size;
    Seq::new(
        image.len(),
        |p: int|
            if size <= p < size + blocks * size {
                if p - size < packed.len() {
                    packed[p - size]
                } else {
                    0u8
                }
            } else {
                image[p]
            },
    )
}

/// The image after the inode table was stored in it: one inode in each
/// block from `inode_map` on.
pub open spec fn inodes_image(
    image: Seq<u8>,
    block_size: u16,
    inode_map: int,
    inodes: Seq<INode>,
) -> Seq<u8> {
    let size = block_size as int;
    Seq::new(
        image.len(),
        |p: int|
            if inode_map * size <= p < (inode_map + inodes.len()) * size {
                inodes[(p - inode_map * size) / size].block_image(block_size)[(p - inode_map
                    * size) % size]
            } else {
                image[p]
            },
    )
}

/// The image after the block map and then the inode table were stored in
/// it.
pub open spec fn tables_image(
    image: Seq<u8>,
    block_size: u16,
    inode_map: int,
    bits: Seq<bool>,
    inodes: Seq<INode>,
) -> Seq<u8> {
    inodes_image(bitmap_image(image, block_size, bits), block_size, inode_map, inodes)
}

/// The packed block map never reaches into the inode table: it fills at
/// most the blocks between block 1 and the start of the table.
pub proof fn lemma_bitmap_blocks_bound(block_size: u16, block_count: u64)
    requires
        block_size > 0,
    ensures
        0 <= bitmap_blocks(block_size, block_count),
        1 + bitmap_blocks(block_size, block_count) <= inode_map_start(block_size, block_count),
        packed_len(block_count as nat) <= bitmap_blocks(block_size, block_count) * block_size,
{
    let size = block_size as int;
    let count = block_count as int;
    let packed = packed_len(block_count as nat) as int;
    let rows = (count / size) / 8;
    vstd::arithmetic::div_mod::lemma_div_denominator(count, size, 8);
    vstd::arithmetic::div_mod::lemma_fundamental_div_mod(count, size * 8);
    vstd::arithmetic::div_mod::lemma_mod_bound(count, size * 8);
    assert(count < (rows + 1) * (size * 8)) by (nonlinear_arith)
        requires
            count == (size * 8) * rows + count % (size * 8),
            count % (size * 8) < size * 8,
    ;
    assert((rows + 1) * (size * 8) == 8 * ((rows + 1) * size)) by (nonlinear_arith);
    assert((packed + size - 1) / size <= rows + 1) by (nonlinear_arith)
        requires
            packed <= (rows + 1) * size,
            size > 0,
    ;
    assert(0 <= (packed + size - 1) / size) by (nonlinear_arith)
        requires
            0 <= packed,
            size > 0,
    ;
    assert(packed <= ((packed + size - 1) / size) * size) by (nonlinear_arith)
        requires
            0 <= packed,
            size > 0,
    ;
}

/// The bits that the image stores as its block map: bit `i` is bit `i % 8`
/// of byte `i / 8` behind block 0, counted from the most significant bit.
pub open spec fn stored_bits(image: Seq<u8>, block_size: u16, block_count: u64) -> Seq<bool> {
    Seq::new(block_count as nat, |i: int| byte_bit(image[block_size + i / 8], i % 8))
}

/// The master block that block 0 of the device stores.
pub open spec fn stored_master(device: &BlockDevice) -> MasterBlock {
    master_from_image(device.block(0))
}

/// A mounted file system.
#[derive(Debug)]
pub struct FileSystem {
    pub master_block: MasterBlock,
    pub block_map: BlockMap,
    pub inode_map: INodeMap,
    pub cache: Cache,
}

/// What mounting gives: the file system, and whether it had been unmounted
/// cleanly.
#[derive(Debug)]
pub struct Mount {
    pub file_system: FileSystem,
    pub clean_mount: bool,
}

impl FileSystem {
    /// The parts of the file system agree: the master block describes the
    /// device, the block map covers every block, the inode table has as many
    /// slots as the master block says, and a block is large enough for the
    /// master block and, where there are inodes, for an inode.
    pub open spec fn wf(&self) -> bool {
        &&& self.cache.device.wf()
        &&& describes(
            self.master_block,
            self.cache.device.config.block_size,
            self.cache.device.config.block_count,
        )
        &&& self.block_map@.len() == self.master_block.block_count
        &&& self.inode_map@.len() == self.master_block.inode_count
        &&& self.master_block.block_size >= MASTER_BLOCK_BYTES
        &&& self.master_block.inode_count > 0 ==> self.master_block.block_size >= INODE_BYTES
    }

    /// The first block behind the master block, the block map and the inode
    /// table.
    pub open spec fn first_data_block(&self) -> int {
        self.master_block.inode_map.number + self.master_block.inode_count
    }

    /// Whether a device can be formatted: its blocks are large enough for an
    /// inode, and it has room for the master block, the block map and the
    /// inode table.
    pub open spec fn can_format(device: &BlockDevice) -> bool {
        &&& device.wf()
        &&& device.config.block_size >= INODE_BYTES
        &&& inode_map_start(device.config.block_size, device.config.block_count) + INODE_COUNT
            <= device.config.block_count
    }

    /// Whether this is the file system that formatting `device` at `now`
    /// gives.
    pub open spec fn is_format_of(&self, device: BlockDevice, now: Timestamp) -> bool {
        &&& self.cache.device == device
        &&& self.cache.model() == Map::<u64, EntryView>::empty()
        &&& self.master_block.block_size == device.config.block_size
        &&& self.master_block.block_count == device.config.block_count
        &&& self.master_block.inode_count == INODE_COUNT
        &&& self.master_block.block_map.number == 1
        &&& self.master_block.inode_map.number == inode_map_start(
            device.config.block_size,
            device.config.block_count,
        )
        &&& self.master_block.flags.bits == SYNCED
        &&& self.block_map@ == Seq::new(
            device.config.block_count as nat,
            |i: int| i < self.first_data_block(),
        )
        &&& self.inode_map.is_fresh(INODE_COUNT, now)
    }

    /// Formats `device` at `now`: every block up to the end of the inode
    /// table is marked as in use, every inode is free.
    pub fn format_at(device: BlockDevice, now: Timestamp) -> (r: FileSystem)
        requires
            FileSystem::can_format(&device),
        ensures
            r.wf(),
            r.is_format_of(device, now),
    {
        let block_size = device.config.block_size;
        let block_count = device.config.block_count;
        // The image fits into memory, so the block count fits an index.
        let total = device.image_len();
        let mut block_map = BlockMap::new(block_count);
        let master_block = MasterBlock::new(block_size, block_count, INODE_COUNT);
        let claimed_blocks: u64 = master_block.inode_map.number + INODE_COUNT as u64;
        let mut run = Sequence::new(BlockNumber::master(), claimed_blocks);
        loop
            invariant
                run.end.number == claimed_blocks <= block_count,
                run.current.number <= claimed_blocks,
                block_map@ == Seq::new(block_count as nat, |i: int| i < run.current.number),
            ensures
                run.current.number == claimed_blocks,
            decreases claimed_blocks - run.current.number,
        {
            match run.next() {
                None => {
                    break ;
                },
                Some(i) => {
                    block_map.set(i, true);
                    assert(block_map@ =~= Seq::new(
                        block_count as nat,
                        |i: int| i < run.current.number,
                    ));
                },
            }
        }
        let inode_map = INodeMap::with_time(INODE_COUNT, now);
        let cache = Cache::new(device);
        let r = FileSystem { master_block, block_map, inode_map, cache };
        assert(r.block_map@ =~= Seq::new(
            device.config.block_count as nat,
            |i: int| i < r.first_data_block(),
        ));
        r
    }

    /// Formats `device` at the time of the call.
    pub fn new(device: BlockDevice) -> (r: FileSystem)
        requires
            FileSystem::can_format(&device),
        ensures
            r.wf(),
            exists|now: Timestamp| r.is_format_of(device, now),
    {
        let now = crate::inode::clock_now();
        FileSystem::format_at(device, now)
    }

    /// Stores the packed block map in the blocks from block 1 on.
    fn store_block_map(&mut self)
        requires
            old(self).wf(),
        ensures
            final(self).wf(),
            final(self).master_block == old(self).master_block,
            final(self).block_map == old(self).block_map,
            final(self).inode_map == old(self).inode_map,
            final(self).cache.entries == old(self).cache.entries,
            final(self).cache.device.config == old(self).cache.device.config,
            final(self).cache.device.image() == bitmap_image(
                old(self).cache.device.image(),
                old(self).master_block.block_size,
                old(self).block_map@,
            ),
    {
        let bytes = self.block_map.to_bytes();
        let size = self.master_block.block_size as usize;
        let total = self.cache.device.image_len();
        let ghost start_image = self.cache.device.image();
        let ghost block_size = self.master_block.block_size;
        let ghost packed = bytes@;
        let ghost blocks = bitmap_blocks(block_size, self.master_block.block_count);
        proof {
            lemma_bitmap_blocks_bound(block_size, self.master_block.block_count);
        }
        let mut block_number = self.master_block.block_map;
        let mut start: usize = 0;
        let ghost mut written: int = 0;
        while start < bytes.len()
            invariant
                self.wf(),
                self.master_block == old(self).master_block,
                self.block_map == old(self).block_map,
                self.inode_map == old(self).inode_map,
                self.cache.entries == old(self).cache.entries,
                self.cache.device.config == old(self).cache.device.config,
                size == block_size == self.master_block.block_size,
                packed == bytes@,
                packed == pack_bits(self.block_map@),
                blocks == bitmap_blocks(block_size, self.master_block.block_count),
                1 + blocks <= self.master_block.inode_map.number,
                packed.len() <= blocks * size,
                0 <= written <= blocks,
                block_number.number == 1 + written,
                start <= bytes.len(),
                start == if written * size <= bytes.len() {
                    written * size
                } else {
                    bytes.len() as int
                },
                start < bytes.len() ==> written < blocks,
                start == bytes.len() ==> written == blocks,
                start_image == old(self).cache.device.image(),
                total == self.cache.device.image().len(),
                self.cache.device.image() == bitmap_prefix(start_image, block_size, packed, written),
            decreases bytes.len() - start,
        {
            let mut bm_vec: Vec<u8> = vec![0u8; size];
            let end: usize = if bytes.len() - start < size {
                bytes.len()
            } else {
                start + size
            };
            let mut j: usize = 0;
            while j < end - start
                invariant
                    start <= end <= bytes.len(),
                    end - start <= size == bm_vec.len(),
                    j <= end - start,
                    forall|k: int| 0 <= k < j ==> bm_vec@[k] == bytes@[start + k],
                    forall|k: int| j <= k < size ==> bm_vec@[k] == 0u8,
                decreases end - start - j,
            {
                bm_vec[j] = bytes[start + j];
                j = j + 1;
            }
            proof {
                assert(written < blocks) by {
                    if written >= blocks {
                        assert(written * size >= blocks * size) by (nonlinear_arith)
                            requires
                                written >= blocks,
                                size >= 0,
                        ;
                    }
                }
                lemma_block_in_image(total as int, size as int, block_number.number as int);
            }
            let stored = self.cache.device.write(block_number, &mut bm_vec);
            proof {
                assert(stored is Ok);
                lemma_bitmap_step(start_image, block_size, packed, written, bm_vec@);
                assert((written + 1) * size == written * size + size) by (nonlinear_arith);
                if end == bytes.len() {
                    lemma_bitmap_blocks_exact(packed.len() as int, size as int, written);
                }
                written = written + 1;
            }
            block_number.inc();
            start = end;
        }
        proof {
            assert(bitmap_prefix(start_image, block_size, packed, blocks) =~= bitmap_image(
                start_image,
                block_size,
                self.block_map@,
            ));
        }
    }

    /// Stores each inode in its block of the inode table.
    fn store_inodes(&mut self) -> (r: Result<()>)
        requires
            old(self).wf(),
        ensures
            r is Ok,
            final(self).wf(),
            final(self).master_block == old(self).master_block,
            final(self).block_map == old(self).block_map,
            final(self).inode_map == old(self).inode_map,
            final(self).cache.entries == old(self).cache.entries,
            final(self).cache.device.config == old(self).cache.device.config,
            final(self).cache.device.image() == inodes_image(
                old(self).cache.device.image(),
                old(self).master_block.block_size,
                old(self).master_block.inode_map.number as int,
                old(self).inode_map@,
            ),
    {
        let count = self.inode_map.len();
        let block_size = self.master_block.block_size;
        let total = self.cache.device.image_len();
        let ghost start_image = self.cache.device.image();
        let ghost first = self.master_block.inode_map.number as int;
        let mut block_number = self.master_block.inode_map;
        let mut i: usize = 0;
        assert(self.cache.device.image() =~= inodes_image(
            start_image,
            block_size,
            first,
            self.inode_map@.take(0),
        ));
        while i < count
            invariant
                self.wf(),
                self.master_block == old(self).master_block,
                self.block_map == old(self).block_map,
                self.inode_map == old(self).inode_map,
                self.cache.entries == old(self).cache.entries,
                self.cache.device.config == old(self).cache.device.config,
                block_size == self.master_block.block_size,
                count == self.inode_map@.len(),
                first == self.master_block.inode_map.number,
                i <= count,
                block_number.number == first + i,
                total == self.cache.device.image().len(),
                start_image == old(self).cache.device.image(),
                self.cache.device.image() == inodes_image(
                    start_image,
                    block_size,
                    first,
                    self.inode_map@.take(i as int),
                ),
            decreases count - i,
        {
            let mut node_bytes = self.inode_map.get(i).to_block(block_size)?;
            proof {
                lemma_block_in_image(total as int, block_size as int, block_number.number as int);
                crate::inode::lemma_inode_round_trip(self.inode_map@[i as int], Seq::empty());
            }
            self.cache.device.write(block_number, &mut node_bytes)?;
            proof {
                lemma_inodes_step(start_image, block_size, first, self.inode_map@, i as int);
            }
            block_number.inc();
            i = i + 1;
        }
        assert(self.inode_map@.take(count as int) =~= self.inode_map@);
        Ok(())
    }

    /// The image of the device after a flush: the block map and the inode
    /// table stored in their blocks, and then every cache entry in its
    /// block.
    pub open spec fn flushed(&self) -> Seq<u8> {
        flushed_image(
            tables_image(
                self.cache.device.image(),
                self.master_block.block_size,
                self.master_block.inode_map.number as int,
                self.block_map@,
                self.inode_map@,
            ),
            self.master_block.block_size,
            self.cache.images(),
        )
    }

    /// The image of the device after a clean unmount: flushed, and with the
    /// master block in block 0, marked as cleanly unmounted.
    pub open spec fn closed(&self) -> Seq<u8> {
        overwrite(self.flushed(), 0, self.master_block.with_sync_status(true).block_image())
    }

    /// Flushes the file system: stores the block map and the inode table in
    /// their blocks and writes every cache entry back. The master block is
    /// not written. The flush fails where the device refuses a cache entry;
    /// the tables are stored by then. A session stays a session, also where
    /// the flush fails.
    pub fn write(&mut self) -> (r: Result<()>)
        requires
            old(self).wf(),
        ensures
            final(self).wf(),
            final(self).master_block == old(self).master_block,
            final(self).block_map == old(self).block_map,
            final(self).inode_map == old(self).inode_map,
            final(self).cache.entries == old(self).cache.entries,
            final(self).cache.device.config == old(self).cache.device.config,
            r is Ok <==> old(self).cache.fits(),
            r is Ok ==> final(self).cache.device.image() == old(self).flushed(),
            r is Err ==> r->Err_0 is Size,
            r is Err ==> exists|done: Map<u64, Seq<u8>>, k: u64|
                #![trigger old(self).cache.holds_fitting(done), old(self).cache.refuses(k, r->Err_0)]
                old(self).cache.holds_fitting(done) && old(self).cache.refuses(k, r->Err_0)
                    && final(self).cache.device.image() == flushed_image(
                    tables_image(
                        old(self).cache.device.image(),
                        old(self).master_block.block_size,
                        old(self).master_block.inode_map.number as int,
                        old(self).block_map@,
                        old(self).inode_map@,
                    ),
                    old(self).master_block.block_size,
                    done,
                ),
            old(self).in_session() ==> final(self).in_session(),
    {
        self.store_block_map();
        self.store_inodes()?;
        let ghost stored = self.cache;
        let r = self.cache.flush();
        proof {
            if r is Err {
                let (done, k) = choose|done: Map<u64, Seq<u8>>, k: u64|
                    #![trigger stored.holds_fitting(done), stored.refuses(k, r->Err_0)]
                    stored.holds_fitting(done) && stored.refuses(k, r->Err_0)
                        && self.cache.device.image() == flushed_image(
                        stored.device.image(),
                        stored.device.config.block_size,
                        done,
                    );
                assert(old(self).cache.holds_fitting(done));
                assert(old(self).cache.refuses(k, r->Err_0));
                if old(self).in_session() {
                    assert(!done.contains_key(0)) by {
                        if done.contains_key(0) {
                            assert(old(self).cache.model().contains_key(0));
                        }
                    }
                    lemma_flush_keeps_master(*old(self), done);
                }
            }
            if r is Ok && old(self).in_session() {
                lemma_flush_keeps_master(*old(self), old(self).cache.images());
            }
        }
        r
    }

    /// Unmounts the file system: flushes it, marks it as cleanly unmounted
    /// and stores the master block. Returns the device, whose image is to be
    /// stored in its file.
    pub fn close(self) -> (r: Result<BlockDevice>)
        requires
            self.wf(),
        ensures
            r is Ok <==> self.cache.fits(),
            r is Ok ==> r->Ok_0.wf() && r->Ok_0.config == self.cache.device.config
                && r->Ok_0.image() == self.closed(),
            r is Err ==> r->Err_0 is Size,
    {
        let mut fs = self;
        fs.write()?;
        fs.master_block.write_sync_status(&mut fs.cache.device, true)?;
        Ok(fs.cache.device)
    }

    /// Whether `device` holds a file system that can be mounted: block 0
    /// stores a master block that describes the device, and the blocks are
    /// large enough for the inodes, if there are any.
    pub open spec fn can_mount(device: &BlockDevice) -> bool {
        &&& device.config.block_count > 0
        &&& device.config.block_size >= MASTER_BLOCK_BYTES
        &&& describes(
            stored_master(device),
            device.config.block_size,
            device.config.block_count,
        )
        &&& stored_master(device).inode_count > 0 ==> device.config.block_size >= INODE_BYTES
    }

    /// Whether `r` is the error that mounting `device` fails with: the
    /// error of the device where it has no block 0, an error of reading
    /// where a block is too small for the master block or for an inode, and
    /// else the error for a master block that does not describe the device.
    pub open spec fn mount_refusal(device: &BlockDevice, error: Error) -> bool {
        if device.config.block_count == 0 {
            error is Size && error->Size_0@ == device.refusal(
                BlockNumber { number: 0 },
                device.config.block_size as usize,
            )
        } else if device.config.block_size < MASTER_BLOCK_BYTES {
            error is Bincode
        } else if !describes(
            stored_master(device),
            device.config.block_size,
            device.config.block_count,
        ) {
            error is Size && error->Size_0@ == mismatch_message()
        } else {
            error is Bincode
        }
    }

    /// Whether this is the file system that mounting `device` gives: the
    /// master block, the block map and the inodes are those that the device
    /// stores, the cache is empty, and on the device the master block is no
    /// longer marked as cleanly unmounted.
    pub open spec fn is_mount_of(&self, device: &BlockDevice) -> bool {
        let m = stored_master(device);
        &&& self.master_block == m.with_sync_status(false)
        &&& self.block_map@ == stored_bits(
            device.image(),
            device.config.block_size,
            device.config.block_count,
        )
        &&& self.inode_map@.len() == m.inode_count
        &&& forall|i: int|
            0 <= i < m.inode_count ==> inode_stored_in(
                #[trigger] self.inode_map@[i],
                device.block(m.inode_map.number + i),
            )
        &&& self.cache.model() == Map::<u64, EntryView>::empty()
        &&& self.cache.device.config == device.config
        &&& self.cache.device.image() == overwrite(
            device.image(),
            0,
            self.master_block.block_image(),
        )
    }

    /// Reads the block map out of the blocks behind the master block.
    fn load_block_map(device: &mut BlockDevice, master_block: &MasterBlock) -> (r: Result<BlockMap>)
        requires
            old(device).wf(),
            describes(
                *master_block,
                old(device).config.block_size,
                old(device).config.block_count,
            ),
            old(device).config.block_size >= MASTER_BLOCK_BYTES,
        ensures
            *final(device) == *old(device),
            r is Ok,
            r->Ok_0@ == stored_bits(
                old(device).image(),
                old(device).config.block_size,
                old(device).config.block_count,
            ),
    {
        let block_size = master_block.block_size;
        let block_count = master_block.block_count;
        let total = device.image_len();
        let ghost image = device.image();
        let ghost size = block_size as int;
        proof {
            assert(block_count * size <= total) by (nonlinear_arith)
                requires
                    block_count == total as int / size,
                    size > 0,
                    total >= 0,
            ;
            assert(block_count * 29 <= block_count * size) by (nonlinear_arith)
                requires
                    size >= 29,
            ;
        }
        let rows: u64 = master_block.block_map_blocks();
        let mut block_map = BlockMap::empty();
        let mut block_number = master_block.block_map;
        let mut done: u64 = 0;
        while done < rows
            invariant
                *device == *old(device),
                device.wf(),
                image == device.image(),
                total == image.len(),
                size == block_size == device.config.block_size,
                block_count == device.config.block_count,
                size >= 29,
                block_count * 29 <= total,
                rows == 1 + (block_count as int / size) / 8,
                rows + 1 <= block_count,
                done <= rows,
                block_number.number == 1 + done,
                block_map@ == stored_bits(image, block_size, block_count).take(
                    if 8 * size * done <= block_count {
                        8 * size * done
                    } else {
                        block_count as int
                    },
                ),
            decreases rows - done,
        {
            let mut bm_vec: Vec<u8> = vec![0u8; block_size as usize];
            device.read(block_number, &mut bm_vec)?;
            let ghost before = block_map@;
            proof {
                lemma_block_in_image(total as int, size, block_number.number as int);
            }
            block_map.extend_from_bytes(&bm_vec);
            block_map.truncate(block_count as usize);
            proof {
                assert(8 * size * (done + 1) == 8 * size * done + 8 * size) by (nonlinear_arith);
                assert((1 + done) * size == size + done * size) by (nonlinear_arith);
                assert(0 <= 8 * size * done) by (nonlinear_arith)
                    requires
                        size >= 0,
                        done >= 0,
                ;
                let all = stored_bits(image, block_size, block_count);
                let target = all.take(
                    if 8 * size * (done + 1) <= block_count {
                        8 * size * (done + 1)
                    } else {
                        block_count as int
                    },
                );
                assert forall|i: int| 0 <= i < target.len() implies block_map@[i] == target[i] by {
                    if i >= before.len() {
                        let k = i - 8 * size * done;
                        assert(i / 8 == size * done + k / 8 && i % 8 == k % 8) by {
                            assert(8 * size * done == 8 * (size * done)) by (nonlinear_arith);
                            vstd::arithmetic::div_mod::lemma_fundamental_div_mod(k, 8);
                            vstd::arithmetic::div_mod::lemma_fundamental_div_mod_converse(
                                i,
                                8,
                                size * done + k / 8,
                                k % 8,
                            );
                        }
                        assert(size * done == done * size) by (nonlinear_arith);
                    }
                }
            }
            block_number.inc();
            done = done + 1;
        }
        proof {
            assert(8 * size * rows > block_count) by {
                let count = block_count as int;
                vstd::arithmetic::div_mod::lemma_div_denominator(count, size, 8);
                vstd::arithmetic::div_mod::lemma_fundamental_div_mod(count, size * 8);
                vstd::arithmetic::div_mod::lemma_mod_bound(count, size * 8);
                assert(count < 8 * size * rows) by (nonlinear_arith)
                    requires
                        count == (size * 8) * (rows - 1) + count % (size * 8),
                        count % (size * 8) < size * 8,
                ;
            }
            assert(stored_bits(image, block_size, block_count).take(block_count as int)
                =~= stored_bits(image, block_size, block_count));
        }
        Ok(block_map)
    }

    /// Reads the inode table out of its blocks.
    fn load_inodes(device: &mut BlockDevice, master_block: &MasterBlock) -> (r: Result<INodeMap>)
        requires
            old(device).wf(),
            describes(
                *master_block,
                old(device).config.block_size,
                old(device).config.block_count,
            ),
        ensures
            *final(device) == *old(device),
            r is Ok <==> (master_block.inode_count > 0 ==> master_block.block_size
                >= INODE_BYTES),
            r is Ok ==> r->Ok_0@.len() == master_block.inode_count && forall|i: int|
                0 <= i < master_block.inode_count ==> inode_stored_in(
                    #[trigger] r->Ok_0@[i],
                    old(device).block(master_block.inode_map.number + i),
                ),
            r is Err ==> r->Err_0 is Bincode,
    {
        let mut nodes: Vec<INode> = Vec::new();
        let mut block_number = master_block.inode_map;
        let mut i: u16 = 0;
        while i < master_block.inode_count
            invariant
                *device == *old(device),
                device.wf(),
                describes(*master_block, device.config.block_size, device.config.block_count),
                i <= master_block.inode_count,
                block_number.number == master_block.inode_map.number + i,
                nodes@.len() == i,
                i > 0 ==> master_block.block_size >= INODE_BYTES,
                forall|j: int|
                    0 <= j < i ==> inode_stored_in(
                        #[trigger] nodes@[j],
                        device.block(master_block.inode_map.number + j),
                    ),
            decreases master_block.inode_count - i,
        {
            let mut node_bytes: Vec<u8> = vec![0u8; master_block.block_size as usize];
            device.read(block_number, &mut node_bytes)?;
            block_number.inc();
            let node = INode::from_block(&node_bytes)?;
            nodes.push(node);
            i = i + 1;
        }
        Ok(INodeMap { vec: nodes })
    }

    /// Mounts the file system that `device` holds: reads the master block,
    /// the block map and the inode table, and stores the master block again
    /// without the mark of a clean unmount. A master block that does not
    /// describe the device is refused.
    pub fn read(device: BlockDevice) -> (r: Result<Mount>)
        requires
            device.wf(),
        ensures
            r is Ok <==> FileSystem::can_mount(&device),
            r is Ok ==> r->Ok_0.file_system.wf() && r->Ok_0.file_system.is_mount_of(&device)
                && r->Ok_0.file_system.in_session() && r->Ok_0.clean_mount == stored_master(
                &device,
            ).flags.has(MasterBlockFlags { bits: SYNCED }),
            r is Err ==> FileSystem::mount_refusal(&device, r->Err_0),
    {
        let mut device = device;
        let block_size = device.config.block_size;
        let block_count = device.config.block_count;
        let mut mb_vec: Vec<u8> = vec![0u8; block_size as usize];
        device.read(BlockNumber::master(), &mut mb_vec)?;
        let mut master_block = MasterBlock::read(&mb_vec)?;
        let start: u64 = 2 + (block_count / (block_size as u64)) / 8;
        if !(master_block.block_size == block_size && master_block.block_count == block_count
            && master_block.block_map.number == 1 && master_block.inode_map.number == start
            && master_block.inode_count as u64 <= block_count && start <= block_count
            - master_block.inode_count as u64) {
            return Err(Error::Size("master block does not match the device".to_owned()));
        }
        let block_map = FileSystem::load_block_map(&mut device, &master_block)?;
        let inode_map = FileSystem::load_inodes(&mut device, &master_block)?;
        let clean_mount = master_block.flags.contains(MasterBlockFlags::synced());
        let ghost stored = master_block.flags.bits;
        master_block.write_sync_status(&mut device, false)?;
        let total = device.image_len();
        let cache = Cache::new(device);
        let file_system = FileSystem { master_block, block_map, inode_map, cache };
        proof {
            crate::master_block::lemma_synced_flag(stored);
            lemma_block_in_image(total as int, block_size as int, 0);
            crate::master_block::lemma_master_round_trip(
                file_system.master_block,
                crate::master_block::zeros((block_size - MASTER_BLOCK_BYTES) as nat),
            );
            assert(file_system.cache.device.block(0) =~= file_system.master_block.block_image());
        }
        Ok(Mount { file_system, clean_mount })
    }
}

/// Storing the next inode moves the stored part of the inode table on by one
/// block.
pub proof fn lemma_inodes_step(
    image: Seq<u8>,
    block_size: u16,
    first: int,
    inodes: Seq<INode>,
    i: int,
)
    requires
        block_size >= INODE_BYTES,
        0 <= first,
        0 <= i < inodes.len(),
        (first + i) * block_size + block_size <= image.len(),
    ensures
        overwrite(
            inodes_image(image, block_size, first, inodes.take(i)),
            (first + i) * block_size,
            inodes[i].block_image(block_size),
        ) =~= inodes_image(image, block_size, first, inodes.take(i + 1)),
{
    let size = block_size as int;
    let before = inodes_image(image, block_size, first, inodes.take(i));
    let left = overwrite(before, (first + i) * size, inodes[i].block_image(block_size));
    let right = inodes_image(image, block_size, first, inodes.take(i + 1));
    crate::inode::lemma_inode_round_trip(inodes[i], Seq::empty());
    assert((first + i) * size == first * size + i * size) by (nonlinear_arith);
    assert((first + i + 1) * size == first * size + i * size + size) by (nonlinear_arith);
    assert forall|p: int| 0 <= p < image.len() implies left[p] == right[p] by {
        let q = p - first * size;
        if 0 <= q {
            crate::cache::lemma_block_of_position(q, size, i);
            if q < i * size {
                assert(q / size < i) by (nonlinear_arith)
                    requires
                        0 <= q < i * size,
                        size > 0,
                ;
                assert(0 <= q / size) by (nonlinear_arith)
                    requires
                        0 <= q,
                        size > 0,
                ;
            }
        }
    }
}

/// The image after the first `written` blocks of the packed block map were
/// stored in it.
pub open spec fn bitmap_prefix(image: Seq<u8>, block_size: u16, packed: Seq<u8>, written: int) -> Seq<
    u8,
> {
    let size = block_size as int;
    Seq::new(
        image.len(),
        |p: int|
            if size <= p < size + written * size {
                if p - size < packed.len() {
                    packed[p - size]
                } else {
                    0u8
                }
            } else {
                image[p]
            },
    )
}

/// Storing the next block of the packed block map moves the stored part on
/// by one block.
pub proof fn lemma_bitmap_step(
    image: Seq<u8>,
    block_size: u16,
    packed: Seq<u8>,
    written: int,
    block: Seq<u8>,
)
    requires
        block_size > 0,
        0 <= written,
        block.len() == block_size,
        (1 + written) * block_size + block_size <= image.len(),
        forall|k: int|
            0 <= k < block_size ==> block[k] == if written * block_size + k < packed.len() {
                packed[written * block_size + k]
            } else {
                0u8
            },
    ensures
        overwrite(
            bitmap_prefix(image, block_size, packed, written),
            (1 + written) * block_size,
            block,
        ) =~= bitmap_prefix(image, block_size, packed, written + 1),
{
    let size = block_size as int;
    assert((1 + written) * size == size + written * size) by (nonlinear_arith);
    assert((written + 1) * size == written * size + size) by (nonlinear_arith);
}

/// Bytes that fill `full` blocks and reach into the next one fill
/// `full + 1` blocks.
pub proof fn lemma_bitmap_blocks_exact(packed: int, size: int, full: int)
    requires
        size > 0,
        0 <= full,
        full * size < packed <= full * size + size,
    ensures
        (packed + size - 1) / size == full + 1,
{
    let rest = packed - 1 - full * size;
    assert(packed + size - 1 == (full + 1) * size + rest) by (nonlinear_arith)
        requires
            rest == packed - 1 - full * size,
    ;
    vstd::arithmetic::div_mod::lemma_fundamental_div_mod_converse(
        packed + size - 1,
        size,
        full + 1,
        rest,
    );
}

impl FileSystem {
    /// Whether the cache keeps clear of the master block, the block map and
    /// the inode table.
    pub open spec fn cache_in_data(&self) -> bool {
        forall|k: u64| #[trigger]
            self.cache.model().contains_key(k) ==> k >= self.first_data_block()
    }

    /// Whether the file system is in a session that was begun by mounting
    /// and not ended yet: block 0 of the device stores the master block, not
    /// marked as cleanly unmounted, and the cache holds nothing for block 0.
    pub open spec fn in_session(&self) -> bool {
        &&& !self.master_block.flags.has(MasterBlockFlags { bits: SYNCED })
        &&& self.cache.device.block(0) == self.master_block.block_image()
        &&& !self.cache.model().contains_key(0)
    }
}

/// What a flush does to each byte of the image, for a file system whose
/// cache keeps clear of the tables: block 0 stays, the blocks behind it
/// take the packed block map, and the blocks of the inode table take the
/// inodes.
pub proof fn lemma_flushed_tables(fs: FileSystem, p: int)
    requires
        fs.wf(),
        fs.cache.fits(),
        0 <= p < fs.cache.device.image().len(),
        !fs.cache.model().contains_key((p / fs.master_block.block_size as int) as u64),
    ensures
        ({
            let size = fs.master_block.block_size as int;
            let first = fs.master_block.inode_map.number as int;
            let packed = pack_bits(fs.block_map@);
            &&& p < size ==> fs.flushed()[p] == fs.cache.device.image()[p]
            &&& size <= p < size + packed.len() ==> fs.flushed()[p] == packed[p - size]
            &&& first * size <= p < (first + fs.inode_map@.len()) * size ==> fs.flushed()[p]
                == fs.inode_map@[(p - first * size) / size].block_image(
                fs.master_block.block_size,
            )[(p - first * size) % size]
        }),
{
    let size = fs.master_block.block_size as int;
    let first = fs.master_block.inode_map.number as int;
    let blocks = bitmap_blocks(fs.master_block.block_size, fs.master_block.block_count);
    lemma_bitmap_blocks_bound(fs.master_block.block_size, fs.master_block.block_count);
    assert(first * size >= 2 * size) by (nonlinear_arith)
        requires
            first >= 2,
            size > 0,
    ;
    assert(size + blocks * size <= first * size) by (nonlinear_arith)
        requires
            1 + blocks <= first,
            size > 0,
    ;
    assert(0 <= p / size) by (nonlinear_arith)
        requires
            0 <= p,
            size > 0,
    ;
}

/// Mounting what was unmounted gives back what was there: for a file system
/// whose cache keeps clear of the tables, the device that a clean unmount
/// leaves can be mounted, counts as cleanly unmounted, and stores the same
/// master block, the same block map and the same inodes.
pub proof fn lemma_close_then_mount(fs: FileSystem, closed: BlockDevice, mounted: FileSystem)
    requires
        fs.wf(),
        fs.cache.fits(),
        fs.cache_in_data(),
        closed.config == fs.cache.device.config,
        closed.image() == fs.closed(),
        mounted.is_mount_of(&closed),
    ensures
        closed.wf(),
        FileSystem::can_mount(&closed),
        stored_master(&closed) == fs.master_block.with_sync_status(true),
        stored_master(&closed).flags.has(MasterBlockFlags { bits: SYNCED }),
        mounted.master_block == fs.master_block.with_sync_status(false),
        mounted.block_map@ == fs.block_map@,
        mounted.inode_map@.len() == fs.inode_map@.len(),
        forall|i: int|
            0 <= i < fs.inode_map@.len() ==> (#[trigger] mounted.inode_map@[i]).same_as(
                fs.inode_map@[i],
            ),
{
    let size = fs.master_block.block_size as int;
    let count = fs.master_block.block_count as int;
    let first = fs.master_block.inode_map.number as int;
    let len = fs.cache.device.image().len() as int;
    let master = fs.master_block.with_sync_status(true);
    let image = closed.image();
    crate::master_block::lemma_synced_flag(fs.master_block.flags.bits);
    crate::master_block::lemma_master_round_trip(
        master,
        crate::master_block::zeros((size - MASTER_BLOCK_BYTES) as nat),
    );
    lemma_block_in_image(len, size, 0);
    assert(closed.block(0) =~= master.block_image());
    lemma_bitmap_blocks_bound(fs.master_block.block_size, fs.master_block.block_count);
    let packed = pack_bits(fs.block_map@);
    assert(count * size <= len) by (nonlinear_arith)
        requires
            count == len / size,
            size > 0,
            len >= 0,
    ;
    assert(first * size <= count * size) by (nonlinear_arith)
        requires
            first <= count,
            size > 0,
    ;
    let blocks = bitmap_blocks(fs.master_block.block_size, fs.master_block.block_count);
    assert(size + blocks * size <= first * size) by (nonlinear_arith)
        requires
            1 + blocks <= first,
            size > 0,
    ;
    assert forall|i: int| 0 <= i < count implies mounted.block_map@[i] == fs.block_map@[i] by {
        let p = size + i / 8;
        crate::cache::lemma_block_of_position(p, size, p / size);
        assert(p / size < first) by {
            if p / size >= first {
                assert((p / size) * size >= first * size) by (nonlinear_arith)
                    requires
                        p / size >= first,
                        size > 0,
                ;
            }
        }
        assert(0 <= p / size) by (nonlinear_arith)
            requires
                0 <= p,
                size > 0,
        ;
        lemma_flushed_tables(fs, p);
        assert(image[p] == packed[i / 8]);
        crate::bits::lemma_packed_byte_bit(fs.block_map@, i / 8, i % 8);
    }
    assert forall|i: int| 0 <= i < fs.inode_map@.len() implies (
    #[trigger] mounted.inode_map@[i]).same_as(fs.inode_map@[i]) by {
        let block = closed.block(first + i);
        let stored = fs.inode_map@[i].block_image(fs.master_block.block_size);
        lemma_block_in_image(len, size, first + i);
        crate::inode::lemma_inode_round_trip(
            fs.inode_map@[i],
            Seq::new((size - INODE_BYTES) as nat, |i: int| 0u8),
        );
        assert((first + i) * size == first * size + i * size) by (nonlinear_arith);
        assert((first + fs.inode_map@.len()) * size >= (first + i) * size + size)
            by (nonlinear_arith)
            requires
                i + 1 <= fs.inode_map@.len(),
                size > 0,
        ;
        assert forall|q: int| 0 <= q < size implies block[q] == stored[q] by {
            let p = (first + i) * size + q;
            crate::cache::lemma_block_of_position(p, size, first + i);
            crate::cache::lemma_block_of_position(p - first * size, size, i);
            lemma_flushed_tables(fs, p);
        }
        assert(block =~= stored);
        crate::inode::lemma_inode_stored_once(mounted.inode_map@[i], fs.inode_map@[i], block);
    }
}

/// Formatting, unmounting and mounting again gives back the freshly
/// formatted file system: the same master block, marked as cleanly
/// unmounted, the same block map and the same inodes.
pub proof fn lemma_format_round_trip(
    device: BlockDevice,
    now: Timestamp,
    fs: FileSystem,
    closed: BlockDevice,
    mounted: FileSystem,
)
    requires
        FileSystem::can_format(&device),
        fs.wf(),
        fs.is_format_of(device, now),
        closed.config == device.config,
        closed.image() == fs.closed(),
        mounted.is_mount_of(&closed),
    ensures
        FileSystem::can_mount(&closed),
        stored_master(&closed) == fs.master_block,
        stored_master(&closed).flags.has(MasterBlockFlags { bits: SYNCED }),
        mounted.block_map@ == fs.block_map@,
        mounted.inode_map@.len() == fs.inode_map@.len(),
        forall|i: int|
            0 <= i < fs.inode_map@.len() ==> (#[trigger] mounted.inode_map@[i]).same_as(
                fs.inode_map@[i],
            ),
{
    crate::master_block::lemma_synced_flag(fs.master_block.flags.bits);
    assert(fs.cache.fits()) by {
        assert forall|k: u64| #[trigger] fs.cache.entries@.contains_key(k) implies false by {
            assert(fs.cache.model().contains_key(k));
        }
    }
    lemma_close_then_mount(fs, closed, mounted);
    assert(0x80u8 | 0x80u8 == 0x80u8) by (bit_vector);
    assert(fs.master_block.flags.with(MasterBlockFlags { bits: SYNCED }, true)
        == fs.master_block.flags);
}

/// A session that is not ended by an unmount leaves a device that mounts
/// as not cleanly unmounted.
pub proof fn lemma_session_mounts_unclean(fs: FileSystem)
    requires
        fs.wf(),
        fs.in_session(),
    ensures
        FileSystem::can_mount(&fs.cache.device),
        !stored_master(&fs.cache.device).flags.has(MasterBlockFlags { bits: SYNCED }),
{
    crate::master_block::lemma_master_round_trip(
        fs.master_block,
        crate::master_block::zeros((fs.master_block.block_size - MASTER_BLOCK_BYTES) as nat),
    );
}

/// A flush leaves block 0 as it is, whether it writes all cache entries
/// back or a part of them, as long as none of them stands for block 0.
pub proof fn lemma_flush_keeps_master(fs: FileSystem, done: Map<u64, Seq<u8>>)
    requires
        fs.wf(),
        !done.contains_key(0),
    ensures
        flushed_image(
            tables_image(
                fs.cache.device.image(),
                fs.master_block.block_size,
                fs.master_block.inode_map.number as int,
                fs.block_map@,
                fs.inode_map@,
            ),
            fs.master_block.block_size,
            done,
        ).subrange(0, fs.master_block.block_size as int) == fs.cache.device.block(0),
{
    let size = fs.master_block.block_size as int;
    let first = fs.master_block.inode_map.number as int;
    let len = fs.cache.device.image().len() as int;
    let tables = tables_image(
        fs.cache.device.image(),
        fs.master_block.block_size,
        first,
        fs.block_map@,
        fs.inode_map@,
    );
    let after = flushed_image(tables, fs.master_block.block_size, done);
    lemma_block_in_image(len, size, 0);
    assert(first * size >= 2 * size) by (nonlinear_arith)
        requires
            first >= 2,
            size > 0,
    ;
    assert forall|p: int| 0 <= p < size implies after[p] == fs.cache.device.image()[p] by {
        crate::cache::lemma_block_of_position(p, size, 0);
    }
    assert(after.subrange(0, size) =~= fs.cache.device.block(0));
}

} // verus!
