//! The simulated block device: a linear array of fixed-size blocks, together
//! with the file name it is stored under.
//!
//! The device holds its blocks in memory. Loading the image from the host
//! file and storing it back is left to the caller.

use crate::block_number::BlockNumber;
use crate::error::{Error, Result};
use crate::text::{
    all_digits, chars_of, decimal, digits_value, parse_digits, push_decimal, push_str, string_of,
};
use vstd::prelude::*;
use vstd::slice::slice_subrange;

verus! {

/// The block size that `BlockDevice::create` uses where none is given.
pub const DEFAULT_BLOCK_SIZE: u16 = 1024;

/// The index of the first `.` in `s`, or the length of `s` where it has none.
pub open spec fn first_dot(s: Seq<char>) -> int
    decreases s.len(),
{
    if s.len() == 0 || s[0] == '.' {
        0
    } else {
        1 + first_dot(s.drop_first())
    }
}

/// The ending of every device file name.
pub open spec fn dev_suffix() -> Seq<char> {
    seq!['.', 'd', 'e', 'v']
}

/// The digits of a device file name: what stands between the first `.` and
/// the last four characters.
pub open spec fn name_digits(s: Seq<char>) -> Seq<char> {
    s.subrange(first_dot(s) + 1, s.len() - 4)
}

/// Whether `s` has the form `<stem>.<size>.dev`: a stem without a `.`, a
/// decimal block size that fits 16 bits, and the ending `.dev`.
pub open spec fn is_device_name(s: Seq<char>) -> bool {
    &&& first_dot(s) + 1 < s.len() - 4
    &&& all_digits(name_digits(s))
    &&& digits_value(name_digits(s)) <= u16::MAX
    &&& s.subrange(s.len() - 4, s.len() as int) == dev_suffix()
}

/// The file name of the device with the given stem and block size.
pub open spec fn device_file_name(path: Seq<char>, block_size: u16) -> Seq<char> {
    path + seq!['.'] + decimal(block_size as nat) + dev_suffix()
}

/// The message of the error for a block number at or past the block count.
pub open spec fn block_number_message(block_count: u64, block_num: u64) -> Seq<char> {
    "create: block_count ["@ + decimal(block_count as nat)
        + "] is less than the requested block number ["@ + decimal(block_num as nat) + "]"@
}

/// The message of the error for a buffer that is not one block long.
pub open spec fn buffer_length_message(buf_len: usize, block_size: u16) -> Seq<char> {
    "read: buffer length ["@ + decimal(buf_len as nat) + "] does not equal block_size ["@
        + decimal(block_size as nat) + "]"@
}

/// The message of the error for a device without blocks.
pub open spec fn zero_count_message(block_count: u64) -> Seq<char> {
    "create: block_count ["@ + decimal(block_count as nat) + "] is less than 1"@
}

/// The message of the error for a device with empty blocks.
pub open spec fn zero_size_message(block_size: u16) -> Seq<char> {
    "create: block_size ["@ + decimal(block_size as nat) + "] is less than 1"@
}

/// `a`, then the numeral of `n`, then `b`.
fn message_one(a: &str, n: u64, b: &str) -> (r: String)
    ensures
        r@ == a@ + decimal(n as nat) + b@,
{
    let mut out: Vec<char> = Vec::new();
    push_str(&mut out, a);
    push_decimal(n, &mut out);
    push_str(&mut out, b);
    string_of(&out)
}

/// `a`, the numeral of `n`, `b`, the numeral of `m`, then `c`.
fn message_two(a: &str, n: u64, b: &str, m: u64, c: &str) -> (r: String)
    ensures
        r@ == a@ + decimal(n as nat) + b@ + decimal(m as nat) + c@,
{
    let mut out: Vec<char> = Vec::new();
    push_str(&mut out, a);
    push_decimal(n, &mut out);
    push_str(&mut out, b);
    push_decimal(m, &mut out);
    push_str(&mut out, c);
    string_of(&out)
}

/// The two parts of a device file name: the stem and the block size.
#[derive(Clone, Debug, PartialEq)]
pub struct DevicePath {
    pub file: String,
    pub block_size: u16,
}

impl DevicePath {
    /// Reads stem and block size out of a device file name.
    pub fn new(s: &str) -> (r: Result<DevicePath>)
        ensures
            r is Ok <==> is_device_name(s@),
            r is Ok ==> r->Ok_0.file@ == s@.take(first_dot(s@)) && r->Ok_0.block_size
                == digits_value(name_digits(s@)),
            r is Err ==> r->Err_0 is Parse,
    {
        let config = DeviceConfig::parse(s)?;
        Ok(DevicePath { file: config.path, block_size: config.block_size })
    }

    /// The file name that the two parts make: `<file>.<block_size>.dev`.
    pub fn into_file_name(self) -> (r: String)
        ensures
            r@ == device_file_name(self.file@, self.block_size),
    {
        DeviceConfig { path: self.file, block_size: self.block_size, block_count: 0 }.file()
    }
}

/// Where a device lives and how it is cut into blocks.
#[derive(Clone, Debug, PartialEq)]
pub struct DeviceConfig {
    pub path: String,
    pub block_size: u16,
    pub block_count: u64,
}

impl DeviceConfig {
    /// The configuration of a device under `path`, with no blocks yet.
    pub fn new(path: &str) -> (r: DeviceConfig)
        ensures
            r.path@ == path@,
            r.block_size == 0,
            r.block_count == 0,
    {
        DeviceConfig { path: path.to_owned(), block_size: 0, block_count: 0 }
    }

    /// Reads stem and block size out of a device file name. The block count
    /// is left at 0.
    pub fn parse(s: &str) -> (r: Result<DeviceConfig>)
        ensures
            r is Ok <==> is_device_name(s@),
            r is Ok ==> r->Ok_0.path@ == s@.take(first_dot(s@)) && r->Ok_0.block_size
                == digits_value(name_digits(s@)) && r->Ok_0.block_count == 0,
            r is Err ==> r->Err_0 is Parse,
    {
        let chars = chars_of(s);
        let len = chars.len();
        let mut dot: usize = 0;
        assert(chars@.skip(0) =~= chars@);
        while dot < len && chars[dot] != '.'
            invariant
                dot <= len == chars.len(),
                first_dot(chars@) == dot + first_dot(chars@.skip(dot as int)),
            decreases len - dot,
        {
            assert(chars@.skip(dot as int).drop_first() =~= chars@.skip(dot + 1));
            dot = dot + 1;
        }
        assert(first_dot(chars@) == dot) by {
            if dot < len {
                assert(chars@.skip(dot as int)[0] == '.');
            }
        }
        if len < 4 || dot >= len - 4 || dot + 1 >= len - 4 {
            return Err(Error::Parse);
        }
        let end = len - 4;
        if !(chars[end] == '.' && chars[end + 1] == 'd' && chars[end + 2] == 'e' && chars[end + 3]
            == 'v') {
            return Err(Error::Parse);
        }
        assert(chars@.subrange(len - 4, len as int) =~= dev_suffix());
        match parse_digits(&chars, dot + 1, end) {
            None => Err(Error::Parse),
            Some(value) => {
                if value > u16::MAX as u64 {
                    return Err(Error::Parse);
                }
                let mut stem: Vec<char> = Vec::new();
                let mut i: usize = 0;
                while i < dot
                    invariant
                        i <= dot <= chars.len(),
                        stem@ == chars@.take(i as int),
                    decreases dot - i,
                {
                    stem.push(chars[i]);
                    i = i + 1;
                }
                Ok(
                    DeviceConfig {
                        path: string_of(&stem),
                        block_size: value as u16,
                        block_count: 0,
                    },
                )
            },
        }
    }

    /// The same configuration with another block size.
    pub fn block_size(self, block_size: u16) -> (r: DeviceConfig)
        ensures
            r.path == self.path,
            r.block_size == block_size,
            r.block_count == self.block_count,
    {
        let mut config = self;
        config.block_size = block_size;
        config
    }

    /// The same configuration with another block count.
    pub fn block_count(self, block_count: u64) -> (r: DeviceConfig)
        ensures
            r.path == self.path,
            r.block_size == self.block_size,
            r.block_count == block_count,
    {
        let mut config = self;
        config.block_count = block_count;
        config
    }

    /// The name of the file that holds the device: `<path>.<block_size>.dev`.
    pub fn file(&self) -> (r: String)
        ensures
            r@ == device_file_name(self.path@, self.block_size),
    {
        let mut out: Vec<char> = Vec::new();
        push_str(&mut out, self.path.as_str());
        out.push('.');
        push_decimal(self.block_size as u64, &mut out);
        push_str(&mut out, ".dev");
        proof {
            reveal_strlit(".dev");
        }
        string_of(&out)
    }
}

/// The block size that `create` uses for `optional_size`.
pub open spec fn chosen_size(optional_size: Option<u16>) -> u16 {
    match optional_size {
        Some(size) => size,
        None => DEFAULT_BLOCK_SIZE,
    }
}

/// `image` with the bytes from `at` on replaced by `block`.
pub open spec fn overwrite(image: Seq<u8>, at: int, block: Seq<u8>) -> Seq<u8> {
    Seq::new(
        image.len(),
        |i: int|
            if at <= i < at + block.len() {
                block[i - at]
            } else {
                image[i]
            },
    )
}

/// A device of `block_count` blocks of `block_size` bytes each.
#[derive(Debug)]
pub struct BlockDevice {
    pub config: DeviceConfig,
    pub data: Vec<u8>,
}

impl BlockDevice {
    /// The bytes of the device, block after block.
    pub open spec fn image(&self) -> Seq<u8> {
        self.data@
    }

    /// The configuration fits the image: blocks are not empty, and the block
    /// count is the number of whole blocks in the image.
    pub open spec fn wf(&self) -> bool {
        &&& self.config.block_size > 0
        &&& self.config.block_count == self.image().len() / (self.config.block_size as nat)
    }

    /// The bytes of block `b`.
    pub open spec fn block(&self, b: int) -> Seq<u8> {
        self.image().subrange(
            b * self.config.block_size,
            b * self.config.block_size + self.config.block_size,
        )
    }

    /// Whether a buffer of `buf_len` bytes can be moved to or from block
    /// `block_num`.
    pub open spec fn accepts(&self, block_num: BlockNumber, buf_len: nat) -> bool {
        block_num.number < self.config.block_count && buf_len == self.config.block_size
    }

    /// The message of the error that `read` and `write` give for a block
    /// number or a buffer that the device does not accept.
    pub open spec fn refusal(&self, block_num: BlockNumber, buf_len: usize) -> Seq<char> {
        if self.config.block_count <= block_num.number {
            block_number_message(self.config.block_count, block_num.number)
        } else {
            buffer_length_message(buf_len, self.config.block_size)
        }
    }

    /// A new device under `path` with `count` blocks of the given size, or
    /// of `DEFAULT_BLOCK_SIZE` bytes. Every byte of it is zero.
    pub fn create(path: &str, count: u64, optional_size: Option<u16>) -> (r: Result<BlockDevice>)
        requires
            count * chosen_size(optional_size) <= usize::MAX,
        ensures
            r is Ok <==> count > 0 && chosen_size(optional_size) > 0,
            r is Ok ==> ({
                let device = r->Ok_0;
                &&& device.wf()
                &&& device.config.path@ == path@
                &&& device.config.block_size == chosen_size(optional_size)
                &&& device.config.block_count == count
                &&& device.image() == Seq::new(
                    (count * chosen_size(optional_size)) as nat,
                    |i: int| 0u8,
                )
            }),
            count == 0 ==> r is Err && r->Err_0 is Size && r->Err_0->Size_0@ == zero_count_message(
                count,
            ),
            count > 0 && chosen_size(optional_size) == 0 ==> r is Err && r->Err_0 is Size
                && r->Err_0->Size_0@ == zero_size_message(0),
    {
        let size: u16 = match optional_size {
            Some(size) => size,
            None => DEFAULT_BLOCK_SIZE,
        };
        let config = DeviceConfig::new(path).block_count(count).block_size(size);
        if config.block_count == 0 {
            return Err(
                Error::Size(message_one("create: block_count [", count, "] is less than 1")),
            );
        }
        if config.block_size == 0 {
            return Err(
                Error::Size(message_one("create: block_size [", size as u64, "] is less than 1")),
            );
        }
        let total: usize = (count * (size as u64)) as usize;
        let data: Vec<u8> = vec![0u8; total];
        proof {
            assert((count * size) / (size as int) == count) by (nonlinear_arith)
                requires
                    size > 0,
            ;
        }
        Ok(BlockDevice { config, data })
    }

    /// The device that the file `path` holds, given the bytes of that file.
    /// The block size comes from the name, the block count from the length.
    pub fn open(path: &str, image: Vec<u8>) -> (r: Result<BlockDevice>)
        ensures
            r is Ok <==> is_device_name(path@) && digits_value(name_digits(path@)) > 0,
            r is Ok ==> ({
                let device = r->Ok_0;
                &&& device.wf()
                &&& device.config.path@ == path@.take(first_dot(path@))
                &&& device.config.block_size == digits_value(name_digits(path@))
                &&& device.image() == image@
            }),
            !is_device_name(path@) ==> r is Err && r->Err_0 is Parse,
            is_device_name(path@) && digits_value(name_digits(path@)) == 0 ==> r is Err
                && r->Err_0 is Size && r->Err_0->Size_0@ == zero_size_message(0),
    {
        let parsed = DeviceConfig::parse(path);
        match parsed {
            Err(_) => Err(Error::Parse),
            Ok(config) => {
                if config.block_size == 0 {
                    return Err(
                        Error::Size(message_one("create: block_size [", 0, "] is less than 1")),
                    );
                }
                let block_size = config.block_size;
                let block_count: u64 = (image.len() / (block_size as usize)) as u64;
                let config = config.block_count(block_count);
                Ok(BlockDevice { config, data: image })
            },
        }
    }

    /// The bytes of the device, to be stored in the file that holds it.
    pub fn into_image(self) -> (r: Vec<u8>)
        ensures
            r@ == self.image(),
    {
        self.data
    }

    /// The number of bytes of the device.
    pub fn image_len(&self) -> (r: usize)
        ensures
            r == self.image().len(),
    {
        self.data.len()
    }

    /// Where block `block_num` starts in the image, or the error for a block
    /// number or a buffer length that the device does not accept.
    fn seek(&self, block_num: BlockNumber, buf_len: usize) -> (r: Result<usize>)
        requires
            self.wf(),
        ensures
            r is Ok <==> self.accepts(block_num, buf_len as nat),
            r is Ok ==> r->Ok_0 == block_num.number * self.config.block_size && r->Ok_0
                + self.config.block_size <= self.image().len(),
            r is Err ==> r->Err_0 is Size && r->Err_0->Size_0@ == self.refusal(
                block_num,
                buf_len,
            ),
    {
        let block_count = self.config.block_count;
        if block_count <= block_num.number {
            return Err(
                Error::Size(
                    message_two(
                        "create: block_count [",
                        block_count,
                        "] is less than the requested block number [",
                        block_num.number,
                        "]",
                    ),
                ),
            );
        }
        let block_size = self.config.block_size;
        if block_size as usize != buf_len {
            return Err(
                Error::Size(
                    message_two(
                        "read: buffer length [",
                        buf_len as u64,
                        "] does not equal block_size [",
                        block_size as u64,
                        "]",
                    ),
                ),
            );
        }
        let total = self.data.len();
        proof {
            lemma_block_in_image(total as int, block_size as int, block_num.number as int);
        }
        Ok((block_num.number * (block_size as u64)) as usize)
    }

    /// Copies block `block_num` into `buf`, which must be one block long.
    pub fn read(&mut self, block_num: BlockNumber, buf: &mut Vec<u8>) -> (r: Result<()>)
        requires
            old(self).wf(),
        ensures
            *final(self) == *old(self),
            r is Ok <==> old(self).accepts(block_num, old(buf)@.len()),
            r is Ok ==> final(buf)@ == old(self).block(block_num.number as int),
            final(buf)@.len() == old(buf)@.len(),
            r is Err ==> final(buf)@ == old(buf)@ && r->Err_0 is Size && r->Err_0->Size_0@
                == old(self).refusal(block_num, old(buf).len()),
    {
        let start = self.seek(block_num, buf.len())?;
        let block_size = self.config.block_size as usize;
        let total = self.data.len();
        buf.clear();
        buf.extend_from_slice(slice_subrange(self.data.as_slice(), start, start + block_size));
        Ok(())
    }

    /// Stores `buf`, which must be one block long, as block `block_num`.
    /// Every other block stays as it was.
    pub fn write(&mut self, block_num: BlockNumber, buf: &mut Vec<u8>) -> (r: Result<()>)
        requires
            old(self).wf(),
        ensures
            final(self).config == old(self).config,
            final(self).wf(),
            final(buf)@ == old(buf)@,
            r is Ok <==> old(self).accepts(block_num, old(buf)@.len()),
            r is Ok ==> final(self).image() == overwrite(
                old(self).image(),
                block_num.number * old(self).config.block_size,
                old(buf)@,
            ),
            r is Err ==> final(self).image() == old(self).image() && r->Err_0 is Size
                && r->Err_0->Size_0@ == old(self).refusal(block_num, old(buf).len()),
    {
        let start = self.seek(block_num, buf.len())?;
        let block_size = self.config.block_size as usize;
        let mut i: usize = 0;
        while i < block_size
            invariant
                i <= block_size == buf.len(),
                start + block_size <= self.data.len(),
                self.data.len() == old(self).data.len(),
                self.config == old(self).config,
                buf@ == old(buf)@,
                self.data@ == overwrite(old(self).data@, start as int, buf@.take(i as int)),
            decreases block_size - i,
        {
            self.data[start + i] = buf[i];
            i = i + 1;
        }
        Ok(())
    }

    /// How many block numbers fit into one block.
    pub fn block_numbers_per_block(&self) -> (r: usize)
        ensures
            r == self.config.block_size / 8,
    {
        (self.config.block_size / 8) as usize
    }
}

/// A block below the block count lies inside the image.
pub proof fn lemma_block_in_image(len: int, block_size: int, b: int)
    requires
        block_size > 0,
        0 <= b < len / block_size,
        0 <= len,
    ensures
        0 <= b * block_size,
        b * block_size + block_size <= len,
{
    assert(b * block_size + block_size <= (len / block_size) * block_size) by (nonlinear_arith)
        requires
            b + 1 <= len / block_size,
            block_size > 0,
    ;
    assert((len / block_size) * block_size <= len) by (nonlinear_arith)
        requires
            block_size > 0,
            0 <= len,
    ;
    assert(0 <= b * block_size) by (nonlinear_arith)
        requires
            0 <= b,
            block_size > 0,
    ;
}

/// What was written to a block is what the block then holds, and every
/// other block holds what it held before.
pub proof fn lemma_write_then_read(
    before: BlockDevice,
    after: BlockDevice,
    block_num: BlockNumber,
    buf: Seq<u8>,
    other: BlockNumber,
)
    requires
        before.wf(),
        before.accepts(block_num, buf.len()),
        after.config == before.config,
        after.image() == overwrite(
            before.image(),
            block_num.number * before.config.block_size,
            buf,
        ),
        other.number < before.config.block_count,
    ensures
        after.wf(),
        after.block(block_num.number as int) == buf,
        other != block_num ==> after.block(other.number as int) == before.block(
            other.number as int,
        ),
{
    let size = before.config.block_size as int;
    let len = before.image().len() as int;
    lemma_block_in_image(len, size, block_num.number as int);
    lemma_block_in_image(len, size, other.number as int);
    if other != block_num {
        let a = block_num.number as int;
        let b = other.number as int;
        assert(b * size + size <= a * size || a * size + size <= b * size) by (nonlinear_arith)
            requires
                a != b,
                size > 0,
        ;
    }
}

/// The first `.` of a text is where no `.` stands before and one stands
/// there.
pub proof fn lemma_first_dot(s: Seq<char>, n: int)
    requires
        0 <= n <= s.len(),
        forall|i: int| 0 <= i < n ==> s[i] != '.',
        n < s.len() ==> s[n] == '.',
    ensures
        first_dot(s) == n,
    decreases s.len(),
{
    if n > 0 {
        let rest = s.drop_first();
        assert forall|i: int| 0 <= i < n - 1 implies rest[i] != '.' by {
            assert(rest[i] == s[i + 1]);
        }
        lemma_first_dot(rest, n - 1);
    }
}

/// The name of a device file is read back as it was made: for a stem
/// without a `.`, the file name of a device is a device file name, and
/// reading it gives the stem and the block size.
pub proof fn lemma_device_name_round_trip(path: Seq<char>, block_size: u16)
    requires
        forall|i: int| 0 <= i < path.len() ==> path[i] != '.',
    ensures
        is_device_name(device_file_name(path, block_size)),
        device_file_name(path, block_size).take(first_dot(device_file_name(path, block_size)))
            == path,
        digits_value(name_digits(device_file_name(path, block_size))) == block_size,
{
    let name = device_file_name(path, block_size);
    let digits = decimal(block_size as nat);
    crate::text::lemma_decimal_digits(block_size as nat);
    assert forall|i: int| 0 <= i < path.len() implies name[i] != '.' by {
        assert(name[i] == path[i]);
    }
    lemma_first_dot(name, path.len() as int);
    assert(name_digits(name) =~= digits);
    assert(name.subrange(name.len() - 4, name.len() as int) =~= dev_suffix());
}

} // verus!
