//! Inodes and the inode table.

use crate::block_number::BlockNumber;
use crate::display::{chunked, display_chunks};
use crate::error::{Error, Result};
use crate::text::chars_of;
use vstd::bytes::{
    spec_u16_from_le_bytes, spec_u16_to_le_bytes, spec_u32_from_le_bytes, spec_u32_to_le_bytes,
    spec_u64_from_le_bytes, spec_u64_to_le_bytes,
};
use vstd::prelude::*;

verus! {

/// The slot holds no inode.
pub const FREE: u8 = 0b1000_0000;

/// The inode is a regular file.
pub const FILE: u8 = 0b0100_0000;

/// The inode is a directory.
pub const DIR: u8 = 0b0010_0000;

/// The inode is a symbolic link.
pub const LINK: u8 = 0b0001_0000;

/// The inode is a block of pointers.
pub const PTR: u8 = 0b0000_1000;

/// The inode is a block of data.
pub const DATA: u8 = 0b0000_0100;

/// The number of block pointers that an inode holds itself.
pub const INODE_POINTERS: usize = 8;

/// The number of bytes of a stored inode.
pub const INODE_BYTES: usize = 100;

/// A point in time: whole seconds since the Unix epoch, and the nanoseconds
/// of the second that has begun.
#[derive(Copy, Clone, Debug, PartialEq, Eq, Structural, Hash)]
pub struct Timestamp {
    pub secs: u64,
    pub nanos: u32,
}

/// `SystemTime::now`, as the time that has passed since the Unix epoch. A
/// clock that stands before the epoch reads as the epoch. Nothing is stated
/// of the time that comes back.
#[verifier::external_body]
pub(crate) fn clock_now() -> (r: Timestamp) {
    let since = std::time::SystemTime::now().duration_since(
        std::time::UNIX_EPOCH,
    ).unwrap_or_default();
    Timestamp { secs: since.as_secs(), nanos: since.subsec_nanos() }
}

/// What an inode slot holds, one bit for each kind.
#[derive(Copy, Clone, Debug, PartialEq, Eq, Structural, Hash)]
pub struct INodeFlags {
    pub bits: u8,
}

/// The flags that an inode type letter stands for, if it is one.
pub open spec fn flags_of_letter(s: Seq<char>) -> Option<u8> {
    if s == seq!['0'] {
        Some(FREE)
    } else if s == seq!['f'] {
        Some(FILE)
    } else if s == seq!['s'] {
        Some(LINK)
    } else if s == seq!['d'] {
        Some(DIR)
    } else if s == seq!['D'] {
        Some(DATA)
    } else {
        None
    }
}

/// The letter that the inode table shows for a slot with these flags: the
/// letter of the first kind that is set, in the order free, file, directory,
/// link, pointers, data.
pub open spec fn letter_of_flags(bits: u8) -> char {
    if bits & FREE == FREE {
        '0'
    } else if bits & FILE == FILE {
        'f'
    } else if bits & DIR == DIR {
        'd'
    } else if bits & LINK == LINK {
        's'
    } else if bits & PTR == PTR {
        'b'
    } else if bits & DATA == DATA {
        'D'
    } else {
        '0'
    }
}

impl INodeFlags {
    /// The flags of a free slot.
    pub fn free() -> (r: INodeFlags)
        ensures
            r.bits == FREE,
    {
        INodeFlags { bits: FREE }
    }

    /// The flags of a regular file.
    pub fn file() -> (r: INodeFlags)
        ensures
            r.bits == FILE,
    {
        INodeFlags { bits: FILE }
    }

    /// The flags of a directory.
    pub fn dir() -> (r: INodeFlags)
        ensures
            r.bits == DIR,
    {
        INodeFlags { bits: DIR }
    }

    /// The flags of a symbolic link.
    pub fn link() -> (r: INodeFlags)
        ensures
            r.bits == LINK,
    {
        INodeFlags { bits: LINK }
    }

    /// The flags of a block of pointers.
    pub fn ptr() -> (r: INodeFlags)
        ensures
            r.bits == PTR,
    {
        INodeFlags { bits: PTR }
    }

    /// The flags of a block of data.
    pub fn data() -> (r: INodeFlags)
        ensures
            r.bits == DATA,
    {
        INodeFlags { bits: DATA }
    }

    /// Whether every flag of `other` is set in `self`.
    pub fn contains(&self, other: INodeFlags) -> (r: bool)
        ensures
            r == (self.bits & other.bits == other.bits),
    {
        self.bits & other.bits == other.bits
    }

    /// Reads an inode type letter, as the inode table shows it: `0` is a
    /// free slot, `f` a file, `s` a link, `d` a directory and `D` a block of
    /// data. Anything else, longer or shorter, is refused.
    pub fn parse(s: &str) -> (r: Result<INodeFlags>)
        ensures
            r is Ok <==> flags_of_letter(s@) is Some,
            r is Ok ==> Some(r->Ok_0.bits) == flags_of_letter(s@),
            r is Err ==> r->Err_0 is Parse,
    {
        let chars = chars_of(s);
        if chars.len() != 1 {
            return Err(Error::Parse);
        }
        let c: char = chars[0];
        assert(chars@ =~= seq![c]);
        if c == '0' {
            Ok(INodeFlags::free())
        } else if c == 'f' {
            Ok(INodeFlags::file())
        } else if c == 's' {
            Ok(INodeFlags::link())
        } else if c == 'd' {
            Ok(INodeFlags::dir())
        } else if c == 'D' {
            Ok(INodeFlags::data())
        } else {
            Err(Error::Parse)
        }
    }

    /// The letter that the inode table shows for these flags.
    pub fn letter(&self) -> (r: char)
        ensures
            r == letter_of_flags(self.bits),
    {
        if self.contains(INodeFlags::free()) {
            '0'
        } else if self.contains(INodeFlags::file()) {
            'f'
        } else if self.contains(INodeFlags::dir()) {
            'd'
        } else if self.contains(INodeFlags::link()) {
            's'
        } else if self.contains(INodeFlags::ptr()) {
            'b'
        } else if self.contains(INodeFlags::data()) {
            'D'
        } else {
            '0'
        }
    }
}

/// The permission bits of an inode. None is in use.
#[derive(Copy, Clone, Debug, PartialEq, Eq, Structural, Hash)]
pub struct Permissions {
    pub bits: u16,
}

/// One entry of the inode table: what kind of thing it is, when it was made
/// and changed, how long it is, and where its blocks are.
#[derive(Debug)]
pub struct INode {
    pub cdate: Timestamp,
    pub mdate: Timestamp,
    pub flags: INodeFlags,
    pub perms: Permissions,
    pub length: u64,
    pub level: u8,
    pub block_ptrs: [BlockNumber; 8],
}

/// The stored form of a run of block numbers: eight bytes each, the least
/// significant byte first.
pub open spec fn pointers_image(ptrs: Seq<BlockNumber>) -> Seq<u8> {
    Seq::new(8 * ptrs.len(), |i: int| spec_u64_to_le_bytes(ptrs[i / 8].number)[i % 8])
}

/// The block numbers that `bytes` store, eight bytes each. Bytes behind the
/// last whole group of eight are ignored.
pub open spec fn pointers_from_image(bytes: Seq<u8>) -> Seq<BlockNumber> {
    Seq::new(
        bytes.len() / 8,
        |i: int| BlockNumber { number: spec_u64_from_le_bytes(bytes.subrange(8 * i, 8 * i + 8)) },
    )
}

/// The stored form of a point in time: seconds in eight bytes, nanoseconds in
/// four, the least significant byte first.
pub open spec fn timestamp_image(t: Timestamp) -> Seq<u8> {
    spec_u64_to_le_bytes(t.secs) + spec_u32_to_le_bytes(t.nanos)
}

/// The stored form of an inode: its fields in order.
pub open spec fn inode_image(inode: INode) -> Seq<u8> {
    timestamp_image(inode.cdate) + timestamp_image(inode.mdate) + seq![inode.flags.bits]
        + spec_u16_to_le_bytes(inode.perms.bits) + spec_u64_to_le_bytes(inode.length)
        + seq![inode.level] + pointers_image(inode.block_ptrs@)
}

/// The point in time that the first twelve bytes of `bytes` store.
pub open spec fn timestamp_from_image(bytes: Seq<u8>) -> Timestamp {
    Timestamp {
        secs: spec_u64_from_le_bytes(bytes.subrange(0, 8)),
        nanos: spec_u32_from_le_bytes(bytes.subrange(8, 12)),
    }
}

/// Whether `inode` is what the first `INODE_BYTES` bytes of `bytes` store.
pub open spec fn inode_stored_in(inode: INode, bytes: Seq<u8>) -> bool {
    &&& inode.cdate == timestamp_from_image(bytes.subrange(0, 12))
    &&& inode.mdate == timestamp_from_image(bytes.subrange(12, 24))
    &&& inode.flags.bits == bytes[24]
    &&& inode.perms.bits == spec_u16_from_le_bytes(bytes.subrange(25, 27))
    &&& inode.length == spec_u64_from_le_bytes(bytes.subrange(27, 35))
    &&& inode.level == bytes[35]
    &&& inode.block_ptrs@ == pointers_from_image(bytes.subrange(36, 100))
}

impl INode {
    /// A free inode made and last changed at `now`.
    pub fn new(now: Timestamp) -> (r: INode)
        ensures
            r.is_fresh(now),
    {
        let r = INode {
            cdate: now,
            mdate: now,
            flags: INodeFlags::free(),
            perms: Permissions { bits: 0 },
            length: 0,
            level: 0,
            block_ptrs: [BlockNumber { number: 0 };8],
        };
        assert(r.block_ptrs@ =~= Seq::new(8, |i: int| BlockNumber { number: 0 }));
        r
    }

    /// Whether this is the inode that `new` makes at `now`.
    pub open spec fn is_fresh(&self, now: Timestamp) -> bool {
        &&& self.cdate == now
        &&& self.mdate == now
        &&& self.flags.bits == FREE
        &&& self.perms.bits == 0
        &&& self.length == 0
        &&& self.level == 0
        &&& self.block_ptrs@ == Seq::new(8, |i: int| BlockNumber { number: 0 })
    }
}

/// A stored run of block numbers is eight bytes for each, and reading it
/// back gives the block numbers that were stored.
pub proof fn lemma_pointers_round_trip(ptrs: Seq<BlockNumber>)
    ensures
        pointers_image(ptrs).len() == 8 * ptrs.len(),
        pointers_from_image(pointers_image(ptrs)) == ptrs,
{
    vstd::bytes::lemma_auto_spec_u64_to_from_le_bytes();
    let image = pointers_image(ptrs);
    let back = pointers_from_image(image);
    assert forall|i: int| 0 <= i < ptrs.len() implies back[i] == ptrs[i] by {
        let group = image.subrange(8 * i, 8 * i + 8);
        let stored = spec_u64_to_le_bytes(ptrs[i].number);
        assert forall|k: int| 0 <= k < 8 implies group[k] == stored[k] by {
            assert((8 * i + k) % 8 == k);
        }
        assert(group =~= stored);
    }
}

/// Bytes in whole groups of eight are the stored form of the block numbers
/// that they store.
pub proof fn lemma_pointers_image_of_bytes(bytes: Seq<u8>)
    requires
        bytes.len() % 8 == 0,
    ensures
        pointers_from_image(bytes).len() * 8 == bytes.len(),
        pointers_image(pointers_from_image(bytes)) == bytes,
{
    vstd::bytes::lemma_auto_spec_u64_to_from_le_bytes();
    let ptrs = pointers_from_image(bytes);
    let image = pointers_image(ptrs);
    assert forall|j: int| 0 <= j < bytes.len() implies image[j] == bytes[j] by {
        let i = j / 8;
        let group = bytes.subrange(8 * i, 8 * i + 8);
        assert(group[j % 8] == bytes[8 * i + j % 8]);
    }
}

/// A stored inode is `INODE_BYTES` long, and it is the inode that its bytes
/// store, whatever follows them.
pub proof fn lemma_inode_round_trip(inode: INode, rest: Seq<u8>)
    ensures
        inode_image(inode).len() == INODE_BYTES,
        inode_stored_in(inode, inode_image(inode) + rest),
{
    vstd::bytes::lemma_auto_spec_u16_to_from_le_bytes();
    vstd::bytes::lemma_auto_spec_u32_to_from_le_bytes();
    vstd::bytes::lemma_auto_spec_u64_to_from_le_bytes();
    lemma_pointers_round_trip(inode.block_ptrs@);
    let all = inode_image(inode) + rest;
    let created = all.subrange(0, 12);
    let changed = all.subrange(12, 24);
    assert(created.subrange(0, 8) =~= spec_u64_to_le_bytes(inode.cdate.secs));
    assert(created.subrange(8, 12) =~= spec_u32_to_le_bytes(inode.cdate.nanos));
    assert(changed.subrange(0, 8) =~= spec_u64_to_le_bytes(inode.mdate.secs));
    assert(changed.subrange(8, 12) =~= spec_u32_to_le_bytes(inode.mdate.nanos));
    assert(all.subrange(25, 27) =~= spec_u16_to_le_bytes(inode.perms.bits));
    assert(all.subrange(27, 35) =~= spec_u64_to_le_bytes(inode.length));
    assert(all.subrange(36, 100) =~= pointers_image(inode.block_ptrs@));
}

/// Two inodes that the same bytes store have the same fields.
pub proof fn lemma_inode_stored_once(a: INode, b: INode, bytes: Seq<u8>)
    requires
        inode_stored_in(a, bytes),
        inode_stored_in(b, bytes),
    ensures
        a.same_as(b),
{
}

/// `bincode::serialize_into` on the fields of an inode, with the front of
/// `buf` as the writer: the two points in time as seconds and nanoseconds,
/// the flags, the permissions, the length, the level and the eight block
/// numbers, integers in fixed width with the least significant byte first.
/// The call fails where `buf` is too short to take them all; what `buf`
/// then holds is not stated.
#[verifier::external_body]
fn inode_into_bytes(inode: &INode, buf: &mut Vec<u8>) -> (r: core::result::Result<
    (),
    Box<bincode::ErrorKind>,
>)
    ensures
        final(buf)@.len() == old(buf)@.len(),
        r is Ok <==> old(buf)@.len() >= INODE_BYTES,
        r is Ok ==> final(buf)@ == inode_image(*inode) + old(buf)@.skip(INODE_BYTES as int),
{
    let fields = (
        (inode.cdate.secs, inode.cdate.nanos),
        (inode.mdate.secs, inode.mdate.nanos),
        inode.flags.bits,
        inode.perms.bits,
        inode.length,
        inode.level,
        inode.block_ptrs.map(|b| b.number),
    );
    bincode::serialize_into(&mut buf[..], &fields)
}

/// `bincode::deserialize_from` for the fields of an inode, with `bytes` as
/// the reader. The fields are read in order from the front; bytes behind
/// them are ignored. The call fails where `bytes` ends before the last
/// field does.
#[verifier::external_body]
fn inode_from_bytes(bytes: &Vec<u8>) -> (r: core::result::Result<INode, Box<bincode::ErrorKind>>)
    ensures
        r is Ok <==> bytes@.len() >= INODE_BYTES,
        r is Ok ==> inode_stored_in(r->Ok_0, bytes@),
{
    let f: ((u64, u32), (u64, u32), u8, u16, u64, u8, [u64; 8]) = bincode::deserialize_from(
        &bytes[..],
    )?;
    Ok(
        INode {
            cdate: Timestamp { secs: f.0.0, nanos: f.0.1 },
            mdate: Timestamp { secs: f.1.0, nanos: f.1.1 },
            flags: INodeFlags { bits: f.2 },
            perms: Permissions { bits: f.3 },
            length: f.4,
            level: f.5,
            block_ptrs: f.6.map(|number| BlockNumber { number }),
        },
    )
}

impl INode {
    /// Whether the two inodes have the same fields.
    pub open spec fn same_as(&self, other: INode) -> bool {
        &&& self.cdate == other.cdate
        &&& self.mdate == other.mdate
        &&& self.flags == other.flags
        &&& self.perms == other.perms
        &&& self.length == other.length
        &&& self.level == other.level
        &&& self.block_ptrs@ == other.block_ptrs@
    }

    /// The block that stores this inode on a device with blocks of
    /// `block_size` bytes: its stored form, filled up with zero bytes.
    pub open spec fn block_image(&self, block_size: u16) -> Seq<u8> {
        inode_image(*self) + Seq::new((block_size - INODE_BYTES) as nat, |i: int| 0u8)
    }

    /// The block of `block_size` bytes that stores this inode.
    pub fn to_block(&self, block_size: u16) -> (r: Result<Vec<u8>>)
        ensures
            r is Ok <==> block_size >= INODE_BYTES,
            r is Ok ==> r->Ok_0@ == self.block_image(block_size),
            r is Err ==> r->Err_0 is Bincode,
    {
        let mut buf: Vec<u8> = vec![0u8; block_size as usize];
        match inode_into_bytes(self, &mut buf) {
            Err(e) => Err(Error::Bincode(e)),
            Ok(()) => {
                Ok(buf)
            },
        }
    }

    /// Reads an inode out of the bytes of its block.
    pub fn from_block(bytes: &Vec<u8>) -> (r: Result<INode>)
        ensures
            r is Ok <==> bytes@.len() >= INODE_BYTES,
            r is Ok ==> inode_stored_in(r->Ok_0, bytes@),
            r is Err ==> r->Err_0 is Bincode,
    {
        match inode_from_bytes(bytes) {
            Ok(inode) => Ok(inode),
            Err(e) => Err(Error::Bincode(e)),
        }
    }
}

/// Whether slot `i` is the first slot of `nodes` that is free.
pub open spec fn is_first_free_slot(nodes: Seq<INode>, i: int) -> bool {
    &&& 0 <= i < nodes.len()
    &&& nodes[i].flags.bits == FREE
    &&& forall|j: int| 0 <= j < i ==> nodes[j].flags.bits != FREE
}

/// Whether `nodes` has a free slot.
pub open spec fn has_free_slot(nodes: Seq<INode>) -> bool {
    exists|i: int| 0 <= i < nodes.len() && (#[trigger] nodes[i]).flags.bits == FREE
}

/// The inode table: a fixed number of slots, each an inode or free.
#[derive(Debug)]
pub struct INodeMap {
    pub vec: Vec<INode>,
}

impl View for INodeMap {
    type V = Seq<INode>;

    /// The slots of the table, in order.
    open spec fn view(&self) -> Seq<INode> {
        self.vec@
    }
}

impl INodeMap {
    /// Whether this is a table of `inode_count` free inodes, all made at
    /// `now`.
    pub open spec fn is_fresh(&self, inode_count: u16, now: Timestamp) -> bool {
        &&& self@.len() == inode_count
        &&& forall|i: int| 0 <= i < self@.len() ==> (#[trigger] self@[i]).is_fresh(now)
    }

    /// A table of `inode_count` free inodes, all made at `now`.
    pub fn with_time(inode_count: u16, now: Timestamp) -> (r: INodeMap)
        ensures
            r.is_fresh(inode_count, now),
    {
        let mut nodes: Vec<INode> = Vec::new();
        let mut i: u16 = 0;
        while i < inode_count
            invariant
                i <= inode_count,
                nodes@.len() == i,
                forall|j: int| 0 <= j < nodes@.len() ==> (#[trigger] nodes@[j]).is_fresh(now),
            decreases inode_count - i,
        {
            nodes.push(INode::new(now));
            i = i + 1;
        }
        INodeMap { vec: nodes }
    }

    /// A table of `inode_count` free inodes, all made at the time of the
    /// call.
    pub fn new(inode_count: u16) -> (r: INodeMap)
        ensures
            exists|now: Timestamp| r.is_fresh(inode_count, now),
    {
        let now = clock_now();
        INodeMap::with_time(inode_count, now)
    }

    /// The number of slots.
    pub fn len(&self) -> (r: usize)
        ensures
            r == self@.len(),
    {
        self.vec.len()
    }

    /// The first free slot, if there is one.
    fn find_free(&self) -> (r: Option<usize>)
        ensures
            r is Some <==> has_free_slot(self@),
            r is Some ==> is_first_free_slot(self@, r->0 as int),
    {
        let mut i: usize = 0;
        while i < self.vec.len()
            invariant
                i <= self.vec.len(),
                forall|j: int| 0 <= j < i ==> self@[j].flags.bits != FREE,
            decreases self.vec.len() - i,
        {
            if self.vec[i].flags.bits == FREE {
                return Some(i);
            }
            i = i + 1;
        }
        None
    }

    /// Whether `after` is `before` with slot `i` handed out under `flags`
    /// at `now`: the flags and the time of the last change are new, the
    /// rest of the slot and all other slots are as before.
    pub open spec fn handed_out(
        before: Seq<INode>,
        after: Seq<INode>,
        i: int,
        flags: INodeFlags,
        now: Timestamp,
    ) -> bool {
        &&& after.len() == before.len()
        &&& forall|j: int| 0 <= j < before.len() && j != i ==> after[j] == before[j]
        &&& after[i].flags == flags
        &&& after[i].mdate == now
        &&& after[i].cdate == before[i].cdate
        &&& after[i].perms == before[i].perms
        &&& after[i].length == before[i].length
        &&& after[i].level == before[i].level
        &&& after[i].block_ptrs == before[i].block_ptrs
    }

    /// Hands out the first free slot under `flags`, changed at `now`, and
    /// returns its index. Where no slot is free the table stays as it is.
    pub fn allocate_at(&mut self, flags: INodeFlags, now: Timestamp) -> (r: Option<usize>)
        ensures
            r is Some <==> has_free_slot(old(self)@),
            r is Some ==> is_first_free_slot(old(self)@, r->0 as int) && INodeMap::handed_out(
                old(self)@,
                final(self)@,
                r->0 as int,
                flags,
                now,
            ),
            r is None ==> final(self)@ == old(self)@,
    {
        match self.find_free() {
            Some(i) => {
                self.vec[i].flags = flags;
                self.vec[i].mdate = now;
                Some(i)
            },
            None => None,
        }
    }

    /// Hands out the first free slot under `flags`, changed at the time of
    /// the call, and returns its index. Where no slot is free the table
    /// stays as it is.
    pub fn allocate(&mut self, flags: INodeFlags) -> (r: Option<usize>)
        ensures
            r is Some <==> has_free_slot(old(self)@),
            r is Some ==> is_first_free_slot(old(self)@, r->0 as int) && exists|now: Timestamp|
                INodeMap::handed_out(old(self)@, final(self)@, r->0 as int, flags, now),
            r is None ==> final(self)@ == old(self)@,
    {
        let now = clock_now();
        self.allocate_at(flags, now)
    }

    /// The inode in slot `index`.
    pub fn get(&self, index: usize) -> (r: &INode)
        requires
            index < self@.len(),
        ensures
            *r == self@[index as int],
    {
        &self.vec[index]
    }

    /// The inode in slot `index`, to be changed in place.
    pub fn get_mut(&mut self, index: usize) -> (r: &mut INode)
        requires
            index < old(self)@.len(),
        ensures
            *r == old(self)@[index as int],
            final(self)@ == old(self)@.update(index as int, *final(r)),
    {
        &mut self.vec[index]
    }

    /// Marks slot `block_number` as free. The rest of the slot stays.
    pub fn free(&mut self, block_number: BlockNumber)
        requires
            block_number.number < old(self)@.len(),
        ensures
            final(self)@.len() == old(self)@.len(),
            forall|j: int|
                0 <= j < old(self)@.len() && j != block_number.number ==> final(self)@[j] == old(
                    self,
                )@[j],
            final(self)@[block_number.number as int].flags.bits == FREE,
            final(self)@[block_number.number as int].same_as(
                INode { flags: INodeFlags { bits: FREE }, ..old(self)@[block_number.number as int] },
            ),
    {
        // The length fits an index, and so does a slot number below it.
        let n = self.vec.len();
        let index = block_number.index();
        self.vec[index].flags = INodeFlags::free();
    }

    /// The characters of the table, one for each slot.
    pub open spec fn cells(&self) -> Seq<char> {
        Seq::new(self@.len(), |i: int| letter_of_flags(self@[i].flags.bits))
    }

    /// The table as text: one letter for each slot, in rows of 64 slots.
    pub fn render(&self) -> (r: String)
        ensures
            r@ == chunked(self.cells()),
    {
        let mut cells: Vec<char> = Vec::new();
        let mut i: usize = 0;
        while i < self.vec.len()
            invariant
                i <= self.vec.len(),
                cells@ == self.cells().take(i as int),
            decreases self.vec.len() - i,
        {
            cells.push(self.vec[i].flags.letter());
            i = i + 1;
        }
        assert(cells@ =~= self.cells());
        display_chunks(&cells)
    }
}

} // verus!
