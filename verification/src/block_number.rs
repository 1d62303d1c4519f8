//! Value types that name device blocks and logical offsets inside a file.

use vstd::prelude::*;
use vstd::std_specs::cmp::{PartialEqSpec, PartialEqSpecImpl};
use vstd::std_specs::convert::FromSpec;

verus! {

/// A counter that can move one position forward.
pub trait Step: Sized {
    /// The position the value stands at.
    spec fn position(&self) -> nat;

    /// Moves to the next position.
    fn inc(&mut self)
        requires
            old(self).position() < u64::MAX,
        ensures
            final(self).position() == old(self).position() + 1,
    ;
}

/// The index of a block on the device. Block 0 holds the master block, and
/// doubles as the "no block" mark in pointer slots.
#[derive(Copy, Clone, Debug, Eq, PartialOrd, Ord, Hash)]
pub struct BlockNumber {
    pub number: u64,
}

impl PartialEq for BlockNumber {
    fn eq(&self, other: &BlockNumber) -> (r: bool) {
        self.number == other.number
    }
}

impl PartialEqSpecImpl for BlockNumber {
    open spec fn obeys_eq_spec() -> bool {
        true
    }

    open spec fn eq_spec(&self, other: &BlockNumber) -> bool {
        self.number == other.number
    }
}

/// The number of the block that holds the master block.
pub const MASTER_BLOCK_NUMBER: u64 = 0;

impl BlockNumber {
    pub fn new(number: u64) -> (r: BlockNumber)
        ensures
            r.number == number,
    {
        BlockNumber { number }
    }

    /// The block that holds the master block.
    pub fn master() -> (r: BlockNumber)
        ensures
            r.number == MASTER_BLOCK_NUMBER,
    {
        BlockNumber { number: MASTER_BLOCK_NUMBER }
    }

    /// Whether this is the master block, which in a pointer slot stands
    /// for "no block".
    pub fn is_master(&self) -> (r: bool)
        ensures
            r == (self.number == MASTER_BLOCK_NUMBER),
    {
        self.number == MASTER_BLOCK_NUMBER
    }

    /// The block number as an index into in-memory tables.
    pub fn index(&self) -> (r: usize)
        requires
            self.number <= usize::MAX,
        ensures
            r == self.number,
    {
        self.number as usize
    }

    /// The run of block numbers from `self` up to, but without, `end`.
    pub fn seq(self, end: u64) -> (r: Sequence<BlockNumber>)
        ensures
            r.current == self,
            r.end.number == end,
    {
        Sequence { current: self, end: BlockNumber::new(end) }
    }
}

impl From<u64> for BlockNumber {
    fn from(number: u64) -> (r: BlockNumber) {
        BlockNumber { number }
    }
}

impl vstd::std_specs::convert::FromSpecImpl<u64> for BlockNumber {
    open spec fn obeys_from_spec() -> bool {
        true
    }

    open spec fn from_spec(number: u64) -> BlockNumber {
        BlockNumber { number }
    }
}

impl Step for BlockNumber {
    open spec fn position(&self) -> nat {
        self.number as nat
    }

    fn inc(&mut self) {
        self.number = self.number + 1;
    }
}

/// A run of consecutive positions, handed out one at a time.
#[derive(Copy, Clone)]
pub struct Sequence<S> {
    pub current: S,
    pub end: S,
}

impl<S: From<u64>> Sequence<S> {
    pub fn new(start: S, end: u64) -> (r: Sequence<S>)
        ensures
            r.current == start,
            S::obeys_from_spec() ==> r.end == S::from_spec(end),
    {
        Sequence { current: start, end: S::from(end) }
    }
}

impl<S: Copy + PartialEq + Step> Sequence<S> {
    /// The positions still to be handed out, as far as the two ends are
    /// in order.
    pub open spec fn remaining(&self) -> nat {
        if self.current.position() <= self.end.position() {
            (self.end.position() - self.current.position()) as nat
        } else {
            0
        }
    }

    /// Hands out the current position and moves on, or `None` once the
    /// current position equals the end.
    pub fn next(&mut self) -> (r: Option<S>)
        requires
            S::obeys_eq_spec(),
            !old(self).current.eq_spec(&old(self).end) ==> old(self).current.position() < u64::MAX,
        ensures
            old(self).current.eq_spec(&old(self).end) ==> r is None && *final(self) == *old(self),
            !old(self).current.eq_spec(&old(self).end) ==> r == Some(old(self).current)
                && final(self).end == old(self).end
                && final(self).current.position() == old(self).current.position() + 1,
    {
        if self.current == self.end {
            None
        } else {
            let res = self.current;
            self.current.inc();
            Some(res)
        }
    }
}

/// The index of a block inside a file, counted from the file's start.
#[derive(Copy, Clone, Debug, Eq, PartialOrd, Ord, Hash)]
pub struct BlockOffset {
    pub offset: u64,
}

impl PartialEq for BlockOffset {
    fn eq(&self, other: &BlockOffset) -> (r: bool) {
        self.offset == other.offset
    }
}

impl PartialEqSpecImpl for BlockOffset {
    open spec fn obeys_eq_spec() -> bool {
        true
    }

    open spec fn eq_spec(&self, other: &BlockOffset) -> bool {
        self.offset == other.offset
    }
}

impl BlockOffset {
    pub fn new(offset: u64) -> (r: BlockOffset)
        ensures
            r.offset == offset,
    {
        BlockOffset { offset }
    }

    pub fn zero() -> (r: BlockOffset)
        ensures
            r.offset == 0,
    {
        BlockOffset::new(0)
    }

    /// The offset as an index into a pointer array.
    pub fn index(&self) -> (r: usize)
        requires
            self.offset <= usize::MAX,
        ensures
            r == self.offset,
    {
        self.offset as usize
    }

    /// Whether the offset is below `bound`.
    pub fn below(&self, bound: usize) -> (r: bool)
        ensures
            r == (self.offset < bound),
    {
        self.offset < bound as u64
    }

    /// The offset divided by `divisor`.
    pub fn div(self, divisor: usize) -> (r: BlockOffset)
        requires
            divisor > 0,
        ensures
            r.offset == self.offset / (divisor as u64),
    {
        BlockOffset { offset: self.offset / (divisor as u64) }
    }

    /// The offset modulo `modulus`.
    pub fn rem(self, modulus: usize) -> (r: BlockOffset)
        requires
            modulus > 0,
        ensures
            r.offset == self.offset % (modulus as u64),
    {
        BlockOffset { offset: self.offset % (modulus as u64) }
    }
}

impl From<u64> for BlockOffset {
    fn from(offset: u64) -> (r: BlockOffset) {
        BlockOffset { offset }
    }
}

impl vstd::std_specs::convert::FromSpecImpl<u64> for BlockOffset {
    open spec fn obeys_from_spec() -> bool {
        true
    }

    open spec fn from_spec(offset: u64) -> BlockOffset {
        BlockOffset { offset }
    }
}

impl Step for BlockOffset {
    open spec fn position(&self) -> nat {
        self.offset as nat
    }

    fn inc(&mut self) {
        self.offset = self.offset + 1;
    }
}

} // verus!
