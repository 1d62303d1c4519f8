//! The commands of a shell session on the file system: making a device,
//! mounting it, handing out and freeing blocks, showing the block map, and
//! unmounting.
//!
//! A session holds at most one mounted file system. The commands compute;
//! reading the device file, storing it and printing are left to the caller.

use crate::block_map::{has_free, lowest_free};
use crate::block_number::BlockNumber;
use crate::device::{
    block_number_message, chosen_size, first_dot, is_device_name, name_digits, BlockDevice,
    DEFAULT_BLOCK_SIZE,
};
use crate::display::chunked;
use crate::error::{Error, Result};
use crate::fs::{stored_master, FileSystem, Mount, INODE_COUNT};
use crate::inode::Timestamp;
use crate::master_block::{inode_map_start, MasterBlockFlags, SYNCED};
use crate::text::{decimal, digits_value, push_decimal, push_str, string_of};
use vstd::prelude::*;

verus! {

/// The smallest block size that `new_fs` takes.
pub const MIN_BLOCK_SIZE: u16 = 128;

/// The message of the error for a block size below `MIN_BLOCK_SIZE`.
pub open spec fn small_block_message(block_size: u16) -> Seq<char> {
    "The block size must be at least 128 you gave: "@ + decimal(block_size as nat)
}

/// The message of the error for a device that cannot hold the master block,
/// the block map and the inode table.
pub open spec fn few_blocks_message(block_count: u64) -> Seq<char> {
    "The device needs room for its tables, more than the blocks you gave: "@ + decimal(
        block_count as nat,
    )
}

/// The message of the error for a device whose image does not fit into
/// memory.
pub open spec fn large_device_message() -> Seq<char> {
    "The device is too large"@
}

/// Whether `new_fs` makes a file system on a device of this geometry: the
/// blocks are large enough, the device holds the tables, and its image fits
/// into memory.
pub open spec fn can_make(block_count: u64, block_size: u16) -> bool {
    &&& block_count > 0
    &&& block_size >= MIN_BLOCK_SIZE
    &&& block_count * block_size <= usize::MAX
    &&& inode_map_start(block_size, block_count) + INODE_COUNT <= block_count
}

/// Makes a device of `block_count` blocks under `file_name`, formats it at
/// `now` and unmounts it. The image of the device that comes back is what
/// the file of the device is to hold.
pub fn new_fs_at(file_name: &str, block_count: u64, block_size: Option<u16>, now: Timestamp) -> (r:
    Result<BlockDevice>)
    ensures
        r is Ok <==> can_make(block_count, chosen_size(block_size)),
        r is Ok ==> ({
            let device = r->Ok_0;
            &&& device.wf()
            &&& device.config.path@ == file_name@
            &&& device.config.block_size == chosen_size(block_size)
            &&& device.config.block_count == block_count
            &&& device.image().len() == block_count * chosen_size(block_size)
            &&& FileSystem::can_mount(&device)
            &&& stored_master(&device).flags.has(MasterBlockFlags { bits: SYNCED })
            &&& exists|blank: BlockDevice, fs: FileSystem|
                blank.config == device.config && blank.image() == Seq::new(
                    (block_count * chosen_size(block_size)) as nat,
                    |i: int| 0u8,
                ) && fs.wf() && #[trigger] fs.is_format_of(blank, now) && device.image()
                    == fs.closed()
        }),
        r is Err ==> r->Err_0 is Size,
        block_count == 0 ==> r is Err && r->Err_0->Size_0@ == crate::device::zero_count_message(0),
        block_count > 0 && chosen_size(block_size) == 0 ==> r is Err && r->Err_0->Size_0@
            == crate::device::zero_size_message(0),
        block_count > 0 && 0 < chosen_size(block_size) < MIN_BLOCK_SIZE ==> r is Err
            && r->Err_0->Size_0@ == small_block_message(chosen_size(block_size)),
        block_count > 0 && chosen_size(block_size) >= MIN_BLOCK_SIZE && block_count * chosen_size(
            block_size,
        ) > usize::MAX ==> r is Err && r->Err_0->Size_0@ == large_device_message(),
        block_count > 0 && chosen_size(block_size) >= MIN_BLOCK_SIZE && block_count * chosen_size(
            block_size,
        ) <= usize::MAX && !can_make(block_count, chosen_size(block_size)) ==> r is Err
            && r->Err_0->Size_0@ == few_blocks_message(block_count),
{
    let size: u16 = match block_size {
        Some(size) => size,
        None => DEFAULT_BLOCK_SIZE,
    };
    if block_count > 0 && size > 0 {
        if size < MIN_BLOCK_SIZE {
            let mut out: Vec<char> = Vec::new();
            push_str(&mut out, "The block size must be at least 128 you gave: ");
            push_decimal(size as u64, &mut out);
            return Err(Error::Size(string_of(&out)));
        }
        if block_count > (usize::MAX as u64) / (size as u64) {
            proof {
                assert(block_count * size > usize::MAX) by (nonlinear_arith)
                    requires
                        block_count > (usize::MAX as int) / (size as int),
                        size > 0,
                ;
            }
            return Err(Error::Size("The device is too large".to_owned()));
        }
        proof {
            assert(block_count * size <= usize::MAX) by (nonlinear_arith)
                requires
                    block_count <= (usize::MAX as int) / (size as int),
                    size > 0,
            ;
        }
    } else {
        assert(block_count * size == 0) by (nonlinear_arith)
            requires
                block_count == 0 || size == 0,
        ;
    }
    let device = BlockDevice::create(file_name, block_count, block_size)?;
    let ghost blank = device;
    let needed: u64 = 2 + (block_count / (size as u64)) / 8 + INODE_COUNT as u64;
    if needed > block_count {
        let mut out: Vec<char> = Vec::new();
        push_str(
            &mut out,
            "The device needs room for its tables, more than the blocks you gave: ",
        );
        push_decimal(block_count, &mut out);
        return Err(Error::Size(string_of(&out)));
    }
    let newfs = FileSystem::format_at(device, now);
    let ghost fresh = newfs;
    proof {
        assert(newfs.cache.fits()) by {
            assert forall|k: u64| #[trigger] newfs.cache.entries@.contains_key(k) implies false by {
                assert(newfs.cache.model().contains_key(k));
            }
        }
        crate::master_block::lemma_synced_flag(newfs.master_block.flags.bits);
        assert(0x80u8 | 0x80u8 == 0x80u8) by (bit_vector);
        crate::master_block::lemma_master_round_trip(
            newfs.master_block,
            crate::master_block::zeros(
                (size - crate::master_block::MASTER_BLOCK_BYTES) as nat,
            ),
        );
        crate::device::lemma_block_in_image((block_count * size) as int, size as int, 0);
    }
    let closed = newfs.close()?;
    proof {
        assert(closed.block(0) =~= newfs.master_block.with_sync_status(true).block_image());
        assert(fresh.is_format_of(blank, now) && closed.image() == fresh.closed());
    }
    Ok(closed)
}

/// Makes a device of `block_count` blocks under `file_name`, formats it at
/// the time of the call and unmounts it.
pub fn new_fs(file_name: &str, block_count: u64, block_size: Option<u16>) -> (r: Result<
    BlockDevice,
>)
    ensures
        r is Ok <==> can_make(block_count, chosen_size(block_size)),
        r is Ok ==> ({
            let device = r->Ok_0;
            &&& device.wf()
            &&& device.config.path@ == file_name@
            &&& device.config.block_size == chosen_size(block_size)
            &&& device.config.block_count == block_count
            &&& device.image().len() == block_count * chosen_size(block_size)
            &&& FileSystem::can_mount(&device)
            &&& stored_master(&device).flags.has(MasterBlockFlags { bits: SYNCED })
            &&& exists|now: Timestamp, blank: BlockDevice, fs: FileSystem|
                blank.config == device.config && blank.image() == Seq::new(
                    (block_count * chosen_size(block_size)) as nat,
                    |i: int| 0u8,
                ) && fs.wf() && #[trigger] fs.is_format_of(blank, now) && device.image()
                    == fs.closed()
        }),
        r is Err ==> r->Err_0 is Size,
        block_count == 0 ==> r is Err && r->Err_0->Size_0@ == crate::device::zero_count_message(0),
        block_count > 0 && chosen_size(block_size) == 0 ==> r is Err && r->Err_0->Size_0@
            == crate::device::zero_size_message(0),
        block_count > 0 && 0 < chosen_size(block_size) < MIN_BLOCK_SIZE ==> r is Err
            && r->Err_0->Size_0@ == small_block_message(chosen_size(block_size)),
        block_count > 0 && chosen_size(block_size) >= MIN_BLOCK_SIZE && block_count * chosen_size(
            block_size,
        ) > usize::MAX ==> r is Err && r->Err_0->Size_0@ == large_device_message(),
        block_count > 0 && chosen_size(block_size) >= MIN_BLOCK_SIZE && block_count * chosen_size(
            block_size,
        ) <= usize::MAX && !can_make(block_count, chosen_size(block_size)) ==> r is Err
            && r->Err_0->Size_0@ == few_blocks_message(block_count),
{
    let now = crate::inode::clock_now();
    new_fs_at(file_name, block_count, block_size, now)
}

/// A shell session: the file system that is mounted, if one is.
pub struct Session {
    mounted: Option<FileSystem>,
}

impl Session {
    /// What is mounted is well formed. Every session that the functions
    /// of this type make or change is so.
    pub closed spec fn wf(&self) -> bool {
        self.mounted matches Some(fs) ==> fs.wf()
    }

    /// The file system that is mounted, if one is.
    pub closed spec fn fs(&self) -> Option<FileSystem> {
        self.mounted
    }

    /// A session with nothing mounted.
    pub fn new() -> (r: Session)
        ensures
            r.wf(),
            r.fs() is None,
    {
        Session { mounted: None }
    }

    /// Whether a file system is mounted.
    pub fn is_mounted(&self) -> (r: bool)
        ensures
            r == self.fs() is Some,
    {
        self.mounted.is_some()
    }

    /// Mounts the file system that the file `file_name` holds, given the
    /// bytes of that file, in place of what was mounted. Returns whether the
    /// file system had been unmounted cleanly. Where mounting fails, what
    /// was mounted stays mounted.
    pub fn mount(&mut self, file_name: &str, image: Vec<u8>) -> (r: Result<bool>)
        requires
            old(self).wf(),
        ensures
            final(self).wf(),
            r is Err ==> final(self).fs() == old(self).fs(),
            r is Ok ==> final(self).fs() is Some && final(self).fs()->0.wf(),
            r is Ok ==> final(self).fs()->0.in_session(),
            r is Ok <==> is_device_name(file_name@) && digits_value(name_digits(file_name@)) > 0
                && exists|device: BlockDevice| #[trigger]
                device.wf() && device.image() == image@ && device.config.block_size
                    == digits_value(name_digits(file_name@)) && FileSystem::can_mount(&device),
            r is Ok ==> exists|device: BlockDevice| #[trigger]
                device.wf() && device.image() == image@ && device.config.path@
                    == file_name@.take(first_dot(file_name@)) && device.config.block_size
                    == digits_value(name_digits(file_name@)) && final(self).fs()->0.is_mount_of(
                    &device,
                ) && r->Ok_0 == stored_master(&device).flags.has(
                    MasterBlockFlags { bits: SYNCED },
                ),
            !is_device_name(file_name@) ==> r is Err && r->Err_0 is Parse,
            is_device_name(file_name@) && digits_value(name_digits(file_name@)) == 0 ==> r is Err
                && r->Err_0 is Size && r->Err_0->Size_0@ == crate::device::zero_size_message(0),
            r is Err ==> forall|device: BlockDevice| #[trigger]
                device.wf() && device.image() == image@ && device.config.block_size
                    == digits_value(name_digits(file_name@)) && is_device_name(file_name@)
                    ==> FileSystem::mount_refusal(&device, r->Err_0),
    {
        let device = BlockDevice::open(file_name, image)?;
        let ghost opened = device;
        let mounted = FileSystem::read(device);
        proof {
            assert forall|other: BlockDevice|
                other.wf() && other.image() == image@ && other.config.block_size
                    == opened.config.block_size implies FileSystem::can_mount(&other)
                == FileSystem::can_mount(&opened) && (mounted is Err ==> FileSystem::mount_refusal(
                &other,
                mounted->Err_0,
            )) by {
                assert(other.block(0) == opened.block(0));
            }
        }
        let Mount { file_system, clean_mount } = mounted?;
        self.mounted = Some(file_system);
        Ok(clean_mount)
    }

    /// The bytes of the device of the mounted file system, as they are to
    /// be stored in its file, or `None` where nothing is mounted.
    pub fn device_image(&self) -> (r: Option<Vec<u8>>)
        ensures
            r is Some <==> self.fs() is Some,
            r is Some ==> r->0@ == self.fs()->0.cache.device.image(),
    {
        match &self.mounted {
            Some(fs) => Some(fs.cache.device.data.clone()),
            None => None,
        }
    }

    /// The name of the file that holds the device of the mounted file
    /// system, or `None` where nothing is mounted.
    pub fn device_file(&self) -> (r: Option<String>)
        ensures
            r is Some <==> self.fs() is Some,
            r is Some ==> r->0@ == crate::device::device_file_name(
                self.fs()->0.cache.device.config.path@,
                self.fs()->0.cache.device.config.block_size,
            ),
    {
        match &self.mounted {
            Some(fs) => Some(fs.cache.device.config.file()),
            None => None,
        }
    }

    /// The block map of the mounted file system as text, or `None` where
    /// nothing is mounted.
    pub fn block_map(&self) -> (r: Option<String>)
        ensures
            r is Some <==> self.fs() is Some,
            r is Some ==> r->0@ == chunked(self.fs()->0.block_map.cells()),
    {
        match &self.mounted {
            Some(fs) => Some(fs.block_map.render()),
            None => None,
        }
    }

    /// Hands out the lowest free block of the mounted file system. Gives
    /// `None` where nothing is mounted.
    pub fn alloc_block(&mut self) -> (r: Option<Result<BlockNumber>>)
        requires
            old(self).wf(),
        ensures
            final(self).wf(),
            r is Some <==> old(self).fs() is Some,
            r is None ==> final(self).fs() is None,
            r is Some ==> ({
                let before = old(self).fs()->0;
                let after = final(self).fs()->0;
                &&& final(self).fs() is Some
                &&& after.master_block == before.master_block
                &&& after.inode_map == before.inode_map
                &&& after.cache == before.cache
                &&& r->0 is Ok <==> has_free(before.block_map@)
                &&& r->0 is Ok ==> r->0->Ok_0.number == lowest_free(before.block_map@)
                    && after.block_map@ == before.block_map@.update(
                    lowest_free(before.block_map@),
                    true,
                )
                &&& r->0 is Err ==> after.block_map@ == before.block_map@ && r->0->Err_0 is Size
                    && r->0->Err_0->Size_0@ == "out of blocks"@
            }),
    {
        match self.mounted.take() {
            Some(fs) => {
                let mut fs = fs;
                let r = fs.block_map.allocate();
                proof {
                    crate::block_map::lemma_lowest_free(old(self).fs()->0.block_map@);
                }
                self.mounted = Some(fs);
                Some(r)
            },
            None => None,
        }
    }

    /// Marks block `block_number` of the mounted file system as free. A
    /// block that the device does not have is refused. Gives `None` where
    /// nothing is mounted.
    pub fn free_block(&mut self, block_number: BlockNumber) -> (r: Option<Result<()>>)
        requires
            old(self).wf(),
        ensures
            final(self).wf(),
            r is Some <==> old(self).fs() is Some,
            r is None ==> final(self).fs() is None,
            r is Some ==> ({
                let before = old(self).fs()->0;
                let after = final(self).fs()->0;
                &&& final(self).fs() is Some
                &&& after.master_block == before.master_block
                &&& after.inode_map == before.inode_map
                &&& after.cache == before.cache
                &&& r->0 is Ok <==> block_number.number < before.block_map@.len()
                &&& r->0 is Ok ==> after.block_map@ == before.block_map@.update(
                    block_number.number as int,
                    false,
                )
                &&& r->0 is Err ==> after.block_map@ == before.block_map@ && r->0->Err_0 is Size
                    && r->0->Err_0->Size_0@ == block_number_message(
                    before.master_block.block_count,
                    block_number.number,
                )
            }),
    {
        match self.mounted.take() {
            Some(fs) => {
                let mut fs = fs;
                let r = if block_number.number >= fs.block_map.len() as u64 {
                    let mut out: Vec<char> = Vec::new();
                    push_str(&mut out, "create: block_count [");
                    push_decimal(fs.master_block.block_count, &mut out);
                    push_str(&mut out, "] is less than the requested block number [");
                    push_decimal(block_number.number, &mut out);
                    push_str(&mut out, "]");
                    assert(out@ =~= block_number_message(
                        fs.master_block.block_count,
                        block_number.number,
                    ));
                    Err(Error::Size(string_of(&out)))
                } else {
                    fs.block_map.free(block_number);
                    Ok(())
                };
                self.mounted = Some(fs);
                Some(r)
            },
            None => None,
        }
    }

    /// Unmounts the mounted file system and returns its device, whose image
    /// is to be stored in its file. Afterwards nothing is mounted, also
    /// where unmounting fails. Gives `None` where nothing was mounted.
    pub fn unmount(&mut self) -> (r: Option<Result<BlockDevice>>)
        requires
            old(self).wf(),
        ensures
            final(self).wf(),
            final(self).fs() is None,
            r is Some <==> old(self).fs() is Some,
            r is Some ==> ({
                let fs = old(self).fs()->0;
                &&& r->0 is Ok <==> fs.cache.fits()
                &&& r->0 is Ok ==> r->0->Ok_0.wf() && r->0->Ok_0.config == fs.cache.device.config
                    && r->0->Ok_0.image() == fs.closed()
                &&& r->0 is Err ==> r->0->Err_0 is Size
            }),
    {
        match self.mounted.take() {
            Some(fs) => Some(fs.close()),
            None => None,
        }
    }
}

} // verus!
