//! The text form of the block map and of the inode table: one character for
//! each slot, in rows of 64, with a bar behind every group of eight.

use crate::text::string_of;
use vstd::prelude::*;

verus! {

/// The number of slots in a row.
pub const ROW: usize = 64;

/// The number of slots in a group.
pub const GROUP: usize = 8;

/// What slot `i` adds to the text: its character, and behind it a line
/// break where it ends a row, else a bar where it ends a group.
pub open spec fn chunk_cell(c: char, i: int) -> Seq<char> {
    if (i + 1) % 64 == 0 {
        seq![c, '\n']
    } else if (i + 1) % 8 == 0 {
        seq![c, '|']
    } else {
        seq![c]
    }
}

/// The cells of all slots, one after the other.
pub open spec fn chunk_rows(items: Seq<char>) -> Seq<char>
    decreases items.len(),
{
    if items.len() == 0 {
        Seq::empty()
    } else {
        chunk_rows(items.drop_last()) + chunk_cell(items.last(), items.len() - 1)
    }
}

/// The text of `items`: the cells of all slots, and a line break behind a
/// last row that is not full.
pub open spec fn chunked(items: Seq<char>) -> Seq<char> {
    if items.len() % 64 == 0 {
        chunk_rows(items)
    } else {
        chunk_rows(items).push('\n')
    }
}

/// Lays the characters out in rows of 64 with a bar behind every group of
/// eight but the last of a row.
pub fn display_chunks(items: &Vec<char>) -> (r: String)
    ensures
        r@ == chunked(items@),
{
    let mut s: Vec<char> = Vec::new();
    let mut i: usize = 0;
    let mut flushed = true;
    let mut k: usize = 0;
    while k < items.len()
        invariant
            k <= items.len(),
            i < 64,
            i == k % 64,
            flushed == (i == 0),
            s@ == chunk_rows(items@.take(k as int)),
        decreases items.len() - k,
    {
        proof {
            assert(items@.take(k + 1).drop_last() =~= items@.take(k as int));
        }
        s.push(items[k]);
        i = i + 1;
        if i != ROW {
            flushed = false;
            if i % GROUP == 0 {
                s.push('|');
            }
        } else {
            s.push('\n');
            i = 0;
            flushed = true;
        }
        k = k + 1;
    }
    assert(items@.take(k as int) =~= items@);
    if !flushed {
        s.push('\n');
    }
    string_of(&s)
}

} // verus!
