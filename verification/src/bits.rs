//! The boundary to the `bit_vec` crate: what the library assumes of
//! `BitVec`, and the byte layout of a packed bitmap.
//!
//! Nothing in this file is proved about `bit_vec` itself. Each wrapper names
//! the method it calls and states what that method is taken to do.

use bit_vec::BitVec;
use vstd::prelude::*;

verus! {

#[verifier::external_type_specification]
#[verifier::external_body]
#[verifier::reject_recursive_types(B)]
pub struct ExBitVec<B>(bit_vec::BitVec<B>);

/// The bits that a bit vector holds, first to last.
pub uninterp spec fn bit_vec_bits(v: BitVec<u32>) -> Seq<bool>;

/// 1 where bit `i` exists and is set, else 0.
pub open spec fn bit_at(bits: Seq<bool>, i: int) -> int {
    if 0 <= i < bits.len() && bits[i] {
        1
    } else {
        0
    }
}

/// Byte `k` of the packed form of `bits`: bit `8 * k` is the most significant
/// bit of the byte, and bits past the end count as clear.
pub open spec fn packed_byte(bits: Seq<bool>, k: int) -> u8 {
    (128 * bit_at(bits, 8 * k) + 64 * bit_at(bits, 8 * k + 1) + 32 * bit_at(bits, 8 * k + 2) + 16
        * bit_at(bits, 8 * k + 3) + 8 * bit_at(bits, 8 * k + 4) + 4 * bit_at(bits, 8 * k + 5) + 2
        * bit_at(bits, 8 * k + 6) + bit_at(bits, 8 * k + 7)) as u8
}

/// The number of bytes that hold `n` bits.
pub open spec fn packed_len(n: nat) -> nat {
    ((n + 7) / 8) as nat
}

/// The packed form of `bits`: eight bits to a byte, most significant bit
/// first, the last byte filled up with clear bits.
pub open spec fn pack_bits(bits: Seq<bool>) -> Seq<u8> {
    Seq::new(packed_len(bits.len()), |k: int| packed_byte(bits, k))
}

/// Bit `j` of byte `b`, counted from the most significant bit.
pub open spec fn byte_bit(b: u8, j: int) -> bool {
    if j == 0 {
        (b as int / 128) % 2 == 1
    } else if j == 1 {
        (b as int / 64) % 2 == 1
    } else if j == 2 {
        (b as int / 32) % 2 == 1
    } else if j == 3 {
        (b as int / 16) % 2 == 1
    } else if j == 4 {
        (b as int / 8) % 2 == 1
    } else if j == 5 {
        (b as int / 4) % 2 == 1
    } else if j == 6 {
        (b as int / 2) % 2 == 1
    } else {
        (b as int) % 2 == 1
    }
}

/// The bits of `bytes`: each byte gives eight bits, most significant first.
pub open spec fn unpack_bits(bytes: Seq<u8>) -> Seq<bool> {
    Seq::new(8 * bytes.len(), |i: int| byte_bit(bytes[i / 8], i % 8))
}

/// Unpacking a packed byte gives back the bit it was built from.
pub proof fn lemma_packed_byte_bit(bits: Seq<bool>, k: int, j: int)
    requires
        0 <= j < 8,
    ensures
        byte_bit(packed_byte(bits, k), j) == (bit_at(bits, 8 * k + j) == 1),
{
}

/// Unpacking what was packed gives the bits back, followed by clear bits up
/// to the next multiple of eight.
pub proof fn lemma_unpack_pack(bits: Seq<bool>)
    ensures
        unpack_bits(pack_bits(bits)).len() == 8 * packed_len(bits.len()),
        unpack_bits(pack_bits(bits)).len() >= bits.len(),
        unpack_bits(pack_bits(bits)).take(bits.len() as int) =~= bits,
        forall|i: int|
            bits.len() <= i < 8 * packed_len(bits.len()) ==> !(#[trigger] unpack_bits(
                pack_bits(bits),
            )[i]),
{
    let packed = pack_bits(bits);
    let back = unpack_bits(packed);
    assert forall|i: int| 0 <= i < back.len() implies #[trigger] back[i] == (bit_at(bits, i)
        == 1) by {
        lemma_packed_byte_bit(bits, i / 8, i % 8);
    }
}

/// `BitVec::new`: an empty bit vector.
#[verifier::external_body]
pub(crate) fn bits_new() -> (r: BitVec)
    ensures
        bit_vec_bits(r) == Seq::<bool>::empty(),
{
    BitVec::new()
}

/// `BitVec::from_elem`: a bit vector of `nbits` bits, each equal to `bit`.
#[verifier::external_body]
pub(crate) fn bits_from_elem(nbits: usize, bit: bool) -> (r: BitVec)
    ensures
        bit_vec_bits(r) == Seq::new(nbits as nat, |i: int| bit),
{
    BitVec::from_elem(nbits, bit)
}

/// `BitVec::from_bytes`: each byte becomes eight bits, the most significant
/// bit of each byte first. The crate panics where the number of bits does
/// not fit `usize`, so such inputs are left out.
#[verifier::external_body]
pub(crate) fn bits_from_bytes(bytes: &Vec<u8>) -> (r: BitVec)
    requires
        8 * bytes@.len() <= usize::MAX,
    ensures
        bit_vec_bits(r) == unpack_bits(bytes@),
{
    BitVec::from_bytes(bytes.as_slice())
}

/// `BitVec::to_bytes`: the bits packed eight to a byte, the first bit as the
/// most significant bit of the first byte, the last byte filled up with
/// clear bits.
#[verifier::external_body]
pub(crate) fn bits_to_bytes(v: &BitVec) -> (r: Vec<u8>)
    ensures
        r@ == pack_bits(bit_vec_bits(*v)),
{
    v.to_bytes()
}

/// `BitVec::len`: the number of bits.
#[verifier::external_body]
pub(crate) fn bits_len(v: &BitVec) -> (r: usize)
    ensures
        r == bit_vec_bits(*v).len(),
{
    v.len()
}

/// `BitVec::get`: the bit at `i`, or `None` past the end.
#[verifier::external_body]
pub(crate) fn bits_get(v: &BitVec, i: usize) -> (r: Option<bool>)
    ensures
        r == if i < bit_vec_bits(*v).len() {
            Some(bit_vec_bits(*v)[i as int])
        } else {
            None
        },
{
    v.get(i)
}

/// `BitVec::set`: stores `x` at `i` and leaves every other bit as it was.
/// The crate panics where `i` is past the end, so such calls are left out.
#[verifier::external_body]
pub(crate) fn bits_set(v: &mut BitVec, i: usize, x: bool)
    requires
        i < bit_vec_bits(*old(v)).len(),
    ensures
        bit_vec_bits(*final(v)) == bit_vec_bits(*old(v)).update(i as int, x),
{
    v.set(i, x)
}

/// `Extend::extend` of `BitVec`, fed with another bit vector: the bits of
/// `more` are pushed behind those of `v`, in order. The crate panics where
/// the new length does not fit `usize`, so such calls are left out.
#[verifier::external_body]
pub(crate) fn bits_extend(v: &mut BitVec, more: BitVec)
    requires
        bit_vec_bits(*old(v)).len() + bit_vec_bits(more).len() <= usize::MAX,
    ensures
        bit_vec_bits(*final(v)) == bit_vec_bits(*old(v)) + bit_vec_bits(more),
{
    v.extend(more)
}

/// `BitVec::truncate`: keeps the first `len` bits; a `len` at or past the
/// current length changes nothing.
#[verifier::external_body]
pub(crate) fn bits_truncate(v: &mut BitVec, len: usize)
    ensures
        bit_vec_bits(*final(v)) == if len < bit_vec_bits(*old(v)).len() {
            bit_vec_bits(*old(v)).take(len as int)
        } else {
            bit_vec_bits(*old(v))
        },
{
    v.truncate(len)
}

} // verus!
