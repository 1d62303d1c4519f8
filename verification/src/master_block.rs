//! The master block: the geometry of the file system and where its tables
//! start, kept in block 0 of the device.

use crate::block_number::BlockNumber;
use crate::device::{overwrite, BlockDevice};
use crate::error::{Error, Result};
use vstd::bytes::{
    spec_u16_from_le_bytes, spec_u16_to_le_bytes, spec_u64_from_le_bytes, spec_u64_to_le_bytes,
};
use vstd::prelude::*;

verus! {

/// The bit that marks a file system as cleanly unmounted.
pub const SYNCED: u8 = 0b1000_0000;

/// The number of bytes of a stored master block.
pub const MASTER_BLOCK_BYTES: usize = 29;

/// The flags of the master block, one bit each.
#[derive(Copy, Clone, Debug, PartialEq, Eq, Structural, Hash)]
pub struct MasterBlockFlags {
    pub bits: u8,
}

impl MasterBlockFlags {
    /// No flag set.
    pub fn empty() -> (r: MasterBlockFlags)
        ensures
            r.bits == 0,
    {
        MasterBlockFlags { bits: 0 }
    }

    /// The flag of a cleanly unmounted file system.
    pub fn synced() -> (r: MasterBlockFlags)
        ensures
            r.bits == SYNCED,
    {
        MasterBlockFlags { bits: SYNCED }
    }

    /// Whether every flag of `other` is set in `self`.
    pub open spec fn has(&self, other: MasterBlockFlags) -> bool {
        self.bits & other.bits == other.bits
    }

    /// `self` with the flags of `other` set or cleared.
    pub open spec fn with(&self, other: MasterBlockFlags, value: bool) -> MasterBlockFlags {
        if value {
            MasterBlockFlags { bits: self.bits | other.bits }
        } else {
            MasterBlockFlags { bits: self.bits & !other.bits }
        }
    }

    /// Whether every flag of `other` is set in `self`.
    pub fn contains(&self, other: MasterBlockFlags) -> (r: bool)
        ensures
            r == self.has(other),
    {
        self.bits & other.bits == other.bits
    }

    /// Sets or clears the flags of `other`.
    pub fn set(&mut self, other: MasterBlockFlags, value: bool)
        ensures
            *final(self) == old(self).with(other, value),
    {
        if value {
            self.bits = self.bits | other.bits;
        } else {
            self.bits = self.bits & !other.bits;
        }
    }
}

/// Setting a flag makes it contained, clearing it makes it not contained,
/// and the other bits stay.
pub proof fn lemma_synced_flag(bits: u8)
    ensures
        (bits | SYNCED) & SYNCED == SYNCED,
        (bits & !SYNCED) & SYNCED != SYNCED,
        bits & SYNCED == SYNCED ==> (bits | SYNCED) == bits,
        bits & SYNCED != SYNCED ==> (bits & !SYNCED) == bits,
        ((bits & !SYNCED) | SYNCED) == (bits | SYNCED),
        ((bits | SYNCED) & !SYNCED) == (bits & !SYNCED),
{
    assert((bits | 0x80u8) & 0x80u8 == 0x80u8) by (bit_vector);
    assert((bits & !0x80u8) & 0x80u8 != 0x80u8) by (bit_vector);
    assert(bits & 0x80u8 == 0x80u8 ==> (bits | 0x80u8) == bits) by (bit_vector);
    assert(bits & 0x80u8 != 0x80u8 ==> (bits & !0x80u8) == bits) by (bit_vector);
    assert(((bits & !0x80u8) | 0x80u8) == (bits | 0x80u8)) by (bit_vector);
    assert(((bits | 0x80u8) & !0x80u8) == (bits & !0x80u8)) by (bit_vector);
}

/// The superblock of the file system.
#[derive(Clone, Debug)]
pub struct MasterBlock {
    pub block_size: u16,
    pub block_count: u64,
    pub inode_count: u16,
    pub block_map: BlockNumber,
    pub inode_map: BlockNumber,
    pub flags: MasterBlockFlags,
}

/// The block at which the inode table of a device of this geometry starts.
pub open spec fn inode_map_start(block_size: u16, block_count: u64) -> int {
    2 + (block_count as int / block_size as int) / 8
}

/// The stored form of a master block: its fields in order, integers with the
/// least significant byte first, the flags as one byte.
pub open spec fn master_image(m: MasterBlock) -> Seq<u8> {
    spec_u16_to_le_bytes(m.block_size) + spec_u64_to_le_bytes(m.block_count)
        + spec_u16_to_le_bytes(m.inode_count) + spec_u64_to_le_bytes(m.block_map.number)
        + spec_u64_to_le_bytes(m.inode_map.number) + seq![m.flags.bits]
}

/// The master block that the first `MASTER_BLOCK_BYTES` bytes of `bytes`
/// store.
pub open spec fn master_from_image(bytes: Seq<u8>) -> MasterBlock {
    MasterBlock {
        block_size: spec_u16_from_le_bytes(bytes.subrange(0, 2)),
        block_count: spec_u64_from_le_bytes(bytes.subrange(2, 10)),
        inode_count: spec_u16_from_le_bytes(bytes.subrange(10, 12)),
        block_map: BlockNumber { number: spec_u64_from_le_bytes(bytes.subrange(12, 20)) },
        inode_map: BlockNumber { number: spec_u64_from_le_bytes(bytes.subrange(20, 28)) },
        flags: MasterBlockFlags { bits: bytes[28] },
    }
}

/// `n` zero bytes.
pub open spec fn zeros(n: nat) -> Seq<u8> {
    Seq::new(n, |i: int| 0u8)
}

/// A stored master block is `MASTER_BLOCK_BYTES` long, and reading it back
/// gives the master block that was stored, whatever follows it.
pub proof fn lemma_master_round_trip(m: MasterBlock, rest: Seq<u8>)
    ensures
        master_image(m).len() == MASTER_BLOCK_BYTES,
        master_from_image(master_image(m) + rest) == m,
{
    vstd::bytes::lemma_auto_spec_u16_to_from_le_bytes();
    vstd::bytes::lemma_auto_spec_u64_to_from_le_bytes();
    let image = master_image(m);
    let all = image + rest;
    assert(all.subrange(0, 2) =~= spec_u16_to_le_bytes(m.block_size));
    assert(all.subrange(2, 10) =~= spec_u64_to_le_bytes(m.block_count));
    assert(all.subrange(10, 12) =~= spec_u16_to_le_bytes(m.inode_count));
    assert(all.subrange(12, 20) =~= spec_u64_to_le_bytes(m.block_map.number));
    assert(all.subrange(20, 28) =~= spec_u64_to_le_bytes(m.inode_map.number));
}

/// `bincode::serialize_into` on the six fields of a master block, with the
/// front of `buf` as the writer. The fields are written in order, integers
/// in fixed width with the least significant byte first. The call fails
/// where `buf` is too short to take them all; what `buf` then holds is not
/// stated.
#[verifier::external_body]
fn master_into_bytes(m: &MasterBlock, buf: &mut Vec<u8>) -> (r: core::result::Result<
    (),
    Box<bincode::ErrorKind>,
>)
    ensures
        final(buf)@.len() == old(buf)@.len(),
        r is Ok <==> old(buf)@.len() >= MASTER_BLOCK_BYTES,
        r is Ok ==> final(buf)@ == master_image(*m) + old(buf)@.skip(MASTER_BLOCK_BYTES as int),
{
    let fields = (
        m.block_size,
        m.block_count,
        m.inode_count,
        m.block_map.number,
        m.inode_map.number,
        m.flags.bits,
    );
    bincode::serialize_into(&mut buf[..], &fields)
}

/// `bincode::deserialize_from` for the six fields of a master block, with
/// `bytes` as the reader. The fields are read in order from the front;
/// bytes behind them are ignored. The call fails where `bytes` ends before
/// the last field does.
#[verifier::external_body]
fn master_from_bytes(bytes: &Vec<u8>) -> (r: core::result::Result<
    MasterBlock,
    Box<bincode::ErrorKind>,
>)
    ensures
        r is Ok <==> bytes@.len() >= MASTER_BLOCK_BYTES,
        r is Ok ==> r->Ok_0 == master_from_image(bytes@),
{
    let fields: (u16, u64, u16, u64, u64, u8) = bincode::deserialize_from(&bytes[..])?;
    Ok(
        MasterBlock {
            block_size: fields.0,
            block_count: fields.1,
            inode_count: fields.2,
            block_map: BlockNumber { number: fields.3 },
            inode_map: BlockNumber { number: fields.4 },
            flags: MasterBlockFlags { bits: fields.5 },
        },
    )
}

impl MasterBlock {
    /// The master block of a freshly formatted device: the block map starts
    /// at block 1, the inode table behind it, and the file system counts as
    /// cleanly unmounted.
    pub fn new(block_size: u16, block_count: u64, inode_count: u16) -> (r: MasterBlock)
        requires
            block_size > 0,
        ensures
            r.block_size == block_size,
            r.block_count == block_count,
            r.inode_count == inode_count,
            r.block_map.number == 1,
            r.inode_map.number == inode_map_start(block_size, block_count),
            r.flags.bits == SYNCED,
    {
        MasterBlock {
            block_size,
            block_count,
            inode_count,
            block_map: BlockNumber::new(1),
            inode_map: BlockNumber::new(2 + (block_count / (block_size as u64)) / 8),
            flags: MasterBlockFlags::synced(),
        }
    }

    /// The number of blocks set aside for the block map.
    pub open spec fn spec_block_map_blocks(&self) -> int {
        1 + (self.block_count as int / self.block_size as int) / 8
    }

    /// The number of blocks set aside for the block map.
    pub fn block_map_blocks(&self) -> (r: u64)
        requires
            self.block_size > 0,
        ensures
            r == self.spec_block_map_blocks(),
    {
        1 + self.block_count / (self.block_size as u64) / 8
    }

    /// The block that stores this master block: its stored form, filled up
    /// with zero bytes to the block size.
    pub open spec fn block_image(&self) -> Seq<u8> {
        master_image(*self) + zeros((self.block_size - MASTER_BLOCK_BYTES) as nat)
    }

    /// The same master block with the clean-unmount flag set to `status`.
    pub open spec fn with_sync_status(&self, status: bool) -> MasterBlock {
        MasterBlock {
            block_size: self.block_size,
            block_count: self.block_count,
            inode_count: self.inode_count,
            block_map: self.block_map,
            inode_map: self.inode_map,
            flags: self.flags.with(MasterBlockFlags { bits: SYNCED }, status),
        }
    }

    /// Whether `write` can store this master block on `device`: it fits into
    /// a block of its own block size, and the device has a block 0 of that
    /// size.
    pub open spec fn fits(&self, device: &BlockDevice) -> bool {
        &&& self.block_size >= MASTER_BLOCK_BYTES
        &&& device.accepts(BlockNumber { number: 0 }, self.block_size as nat)
    }

    /// Stores the master block in block 0 of `device`.
    pub fn write(&self, device: &mut BlockDevice) -> (r: Result<()>)
        requires
            old(device).wf(),
        ensures
            final(device).wf(),
            final(device).config == old(device).config,
            r is Ok <==> self.fits(old(device)),
            r is Ok ==> final(device).image() == overwrite(
                old(device).image(),
                0,
                self.block_image(),
            ),
            r is Err ==> final(device).image() == old(device).image(),
            self.block_size < MASTER_BLOCK_BYTES ==> r is Err && r->Err_0 is Bincode,
            self.block_size >= MASTER_BLOCK_BYTES && !self.fits(old(device)) ==> r is Err
                && r->Err_0 is Size && r->Err_0->Size_0@ == old(device).refusal(
                BlockNumber { number: 0 },
                self.block_size as usize,
            ),
    {
        let mut buf: Vec<u8> = vec![0u8; self.block_size as usize];
        match master_into_bytes(self, &mut buf) {
            Err(e) => {
                return Err(Error::Bincode(e));
            },
            Ok(()) => {},
        }
        device.write(BlockNumber::master(), &mut buf)
    }

    /// Sets the clean-unmount flag to `status` and stores the master block
    /// in block 0 of `device`. Where storing fails, `self` stays as it was.
    pub fn write_sync_status(&mut self, device: &mut BlockDevice, status: bool) -> (r: Result<()>)
        requires
            old(device).wf(),
        ensures
            final(device).wf(),
            final(device).config == old(device).config,
            r is Ok <==> old(self).fits(old(device)),
            r is Ok ==> *final(self) == old(self).with_sync_status(status) && final(device).image()
                == overwrite(old(device).image(), 0, final(self).block_image()),
            r is Err ==> *final(self) == *old(self) && final(device).image() == old(
                device,
            ).image(),
            old(self).block_size < MASTER_BLOCK_BYTES ==> r is Err && r->Err_0 is Bincode,
            old(self).block_size >= MASTER_BLOCK_BYTES && !old(self).fits(old(device)) ==> r is Err
                && r->Err_0 is Size && r->Err_0->Size_0@ == old(device).refusal(
                BlockNumber { number: 0 },
                old(self).block_size as usize,
            ),
    {
        let mut flags = self.flags;
        flags.set(MasterBlockFlags::synced(), status);
        let master_block = MasterBlock {
            block_size: self.block_size,
            block_count: self.block_count,
            inode_count: self.inode_count,
            block_map: self.block_map,
            inode_map: self.inode_map,
            flags,
        };
        master_block.write(device)?;
        *self = master_block;
        Ok(())
    }

    /// Reads the master block out of the bytes of block 0.
    pub fn read(bytes: &Vec<u8>) -> (r: Result<MasterBlock>)
        ensures
            r is Ok <==> bytes@.len() >= MASTER_BLOCK_BYTES,
            r is Ok ==> r->Ok_0 == master_from_image(bytes@),
            r is Err ==> r->Err_0 is Bincode,
    {
        match master_from_bytes(bytes) {
            Ok(m) => Ok(m),
            Err(e) => Err(Error::Bincode(e)),
        }
    }
}

} // verus!
