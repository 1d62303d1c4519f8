//! What later allocations leave alone: a block that an offset resolves to
//! stays where it is while other slots are filled and trees grow.

use crate::block_map::{has_free, lowest_free};
use crate::block_number::BlockNumber;
use crate::error::ErrorView;
use crate::fs::FileSystem;
use crate::tree::{
    allocation, fanout, filled, grown_block, grown_root, lemma_allocated_is_resolved,
    lemma_locate_after_fill, locate, per_level, resolve, visited, Links, Slot,
};
use vstd::prelude::*;

verus! {

/// Whether every block of pointers on the way to the slot of `offset` is
/// marked as in use.
pub open spec fn way_in_use(
    links: Links,
    block_size: u16,
    bits: Seq<bool>,
    ptrs: Seq<BlockNumber>,
    offset: int,
    level: nat,
) -> bool {
    forall|k: u64| #[trigger]
        visited(links, block_size, ptrs, offset, level).contains(k) ==> k < bits.len()
            && bits[k as int]
}

/// Whether `offset` is settled at `block`: it resolves to that block, which
/// is not block 0, and the way to its slot is marked as in use.
pub open spec fn held(
    links: Links,
    block_size: u16,
    bits: Seq<bool>,
    ptrs: Seq<BlockNumber>,
    offset: int,
    level: nat,
    block: BlockNumber,
) -> bool {
    &&& block.number != 0
    &&& resolve(links, block_size, None, ptrs, offset, level) == Ok::<
        Option<BlockNumber>,
        ErrorView,
    >(Some(block))
    &&& way_in_use(links, block_size, bits, ptrs, offset, level)
}

/// An offset that leads to a slot lies within what the tree reaches.
pub proof fn lemma_located_in_reach(
    links: Links,
    block_size: u16,
    holder: Option<u64>,
    ptrs: Seq<BlockNumber>,
    offset: int,
    level: nat,
)
    requires
        0 <= offset,
        block_size >= 8,
        locate(links, block_size, holder, ptrs, offset, level) matches Ok(Some(_)),
    ensures
        offset < ptrs.len() * per_level(block_size, level),
{
    let span = per_level(block_size, level);
    vstd::arithmetic::power::lemma_pow_positive(fanout(block_size), level);
    if level == 0 {
        vstd::arithmetic::power::lemma_pow0(fanout(block_size));
        assert(ptrs.len() * span == ptrs.len()) by (nonlinear_arith)
            requires
                span == 1,
        ;
    } else {
        let child = offset / span;
        vstd::arithmetic::div_mod::lemma_fundamental_div_mod(offset, span);
        vstd::arithmetic::div_mod::lemma_mod_bound(offset, span);
        assert(span * child + span <= ptrs.len() * span) by (nonlinear_arith)
            requires
                child + 1 <= ptrs.len(),
                span > 0,
        ;
    }
}

/// The way to a slot depends on the blocks on it alone: where two readings
/// agree on every block on the way, the offset leads to the same slot by
/// the same way.
pub proof fn lemma_same_way(
    links: Links,
    other: Links,
    block_size: u16,
    holder: Option<u64>,
    ptrs: Seq<BlockNumber>,
    offset: int,
    level: nat,
)
    requires
        locate(links, block_size, holder, ptrs, offset, level) matches Ok(Some(_)),
        forall|k: u64| #[trigger]
            visited(links, block_size, ptrs, offset, level).contains(k) ==> other[k] == links[k],
    ensures
        locate(other, block_size, holder, ptrs, offset, level) == locate(
            links,
            block_size,
            holder,
            ptrs,
            offset,
            level,
        ),
        visited(other, block_size, ptrs, offset, level) == visited(
            links,
            block_size,
            ptrs,
            offset,
            level,
        ),
    decreases level,
{
    if level > 0 {
        let span = per_level(block_size, level);
        let child = offset / span;
        let rest = offset % span;
        let c = ptrs[child].number;
        let next = links[c]->Ok_0;
        let below = visited(links, block_size, next, rest, (level - 1) as nat);
        assert(visited(links, block_size, ptrs, offset, level) == below.insert(c));
        assert(below.insert(c).contains(c));
        assert forall|k: u64| #[trigger] below.contains(k) implies other[k] == links[k] by {
            assert(below.insert(c).contains(k));
        }
        lemma_same_way(links, other, block_size, Some(c), next, rest, (level - 1) as nat);
    }
}

/// Filling an empty slot changes no way: an offset that leads to a slot
/// leads to the same slot, by the same way, after an empty slot of some
/// block of pointers was filled. The slot holds what it held, unless it is
/// the slot that was filled.
pub proof fn lemma_fill_keeps_way(
    links: Links,
    block_size: u16,
    holder: Option<u64>,
    ptrs: Seq<BlockNumber>,
    offset: int,
    level: nat,
    filled_block: u64,
    filled_index: int,
    value: BlockNumber,
)
    requires
        0 <= offset,
        block_size >= 8,
        holder matches Some(h) ==> links[h] == Ok::<Seq<BlockNumber>, ErrorView>(ptrs),
        links[filled_block] is Ok,
        0 <= filled_index < links[filled_block]->Ok_0.len(),
        links[filled_block]->Ok_0[filled_index].number == 0,
        locate(links, block_size, holder, ptrs, offset, level) matches Ok(Some(_)),
    ensures
        ({
            let after = links.insert(
                filled_block,
                Ok(links[filled_block]->Ok_0.update(filled_index, value)),
            );
            let after_ptrs = if holder == Some(filled_block) {
                ptrs.update(filled_index, value)
            } else {
                ptrs
            };
            let slot = locate(links, block_size, holder, ptrs, offset, level)->Ok_0->0;
            &&& locate(after, block_size, holder, after_ptrs, offset, level) == Ok::<
                Option<Slot>,
                ErrorView,
            >(
                Some(
                    Slot {
                        holder: slot.holder,
                        index: slot.index,
                        value: if slot.holder == Some(filled_block) && slot.index
                            == filled_index {
                            value
                        } else {
                            slot.value
                        },
                    },
                ),
            )
            &&& visited(after, block_size, after_ptrs, offset, level) == visited(
                links,
                block_size,
                ptrs,
                offset,
                level,
            )
            &&& slot.holder matches Some(x) ==> links[x] is Ok && 0 <= slot.index
                < links[x]->Ok_0.len() && links[x]->Ok_0[slot.index] == slot.value
        }),
    decreases level,
{
    let after = links.insert(
        filled_block,
        Ok(links[filled_block]->Ok_0.update(filled_index, value)),
    );
    if level > 0 {
        let span = per_level(block_size, level);
        let child = offset / span;
        let rest = offset % span;
        vstd::arithmetic::power::lemma_pow_positive(fanout(block_size), level);
        vstd::arithmetic::div_mod::lemma_mod_bound(offset, span);
        vstd::arithmetic::div_mod::lemma_div_pos_is_pos(offset, span);
        let c = ptrs[child].number;
        let next = links[c]->Ok_0;
        lemma_fill_keeps_way(
            links,
            block_size,
            Some(c),
            next,
            rest,
            (level - 1) as nat,
            filled_block,
            filled_index,
            value,
        );
        let after_next = if c == filled_block {
            next.update(filled_index, value)
        } else {
            next
        };
        assert(after[c] == Ok::<Seq<BlockNumber>, ErrorView>(after_next));
    }
}

/// Growth changes no way but for its first step: an offset that led to a
/// slot leads, in the tree that has grown by a level, through the new block
/// of pointers to a slot of the same index that holds the same block.
pub proof fn lemma_growth_keeps_way(
    links: Links,
    block_size: u16,
    ptrs: Seq<BlockNumber>,
    offset: int,
    level: nat,
    block: BlockNumber,
)
    requires
        0 <= offset,
        block_size >= 8,
        ptrs.len() <= fanout(block_size),
        block.number != 0,
        !visited(links, block_size, ptrs, offset, level).contains(block.number),
        locate(links, block_size, None, ptrs, offset, level) matches Ok(Some(_)),
    ensures
        ({
            let grown = links.insert(block.number, Ok(grown_block(ptrs, block_size)));
            let root = grown_root(block, ptrs.len());
            let slot = locate(links, block_size, None, ptrs, offset, level)->Ok_0->0;
            &&& locate(grown, block_size, None, root, offset, level + 1) == Ok::<
                Option<Slot>,
                ErrorView,
            >(
                Some(
                    Slot {
                        holder: if level == 0 {
                            Some(block.number)
                        } else {
                            slot.holder
                        },
                        index: slot.index,
                        value: slot.value,
                    },
                ),
            )
            &&& visited(grown, block_size, root, offset, level + 1) == visited(
                links,
                block_size,
                ptrs,
                offset,
                level,
            ).insert(block.number)
        }),
{
    let many = fanout(block_size);
    let grown = links.insert(block.number, Ok(grown_block(ptrs, block_size)));
    let root = grown_root(block, ptrs.len());
    let array = grown_block(ptrs, block_size);
    let span = per_level(block_size, level);
    let above = per_level(block_size, level + 1);
    vstd::arithmetic::power::lemma_pow_positive(many, level);
    lemma_located_in_reach(links, block_size, None, ptrs, offset, level);
    assert(above == many * span) by {
        reveal(vstd::arithmetic::power::pow);
    }
    assert(ptrs.len() * span <= many * span) by (nonlinear_arith)
        requires
            ptrs.len() <= many,
            span > 0,
    ;
    vstd::arithmetic::div_mod::lemma_basic_div(offset, above);
    vstd::arithmetic::div_mod::lemma_small_mod(offset as nat, above as nat);
    assert(ptrs.len() > 0) by {
        if ptrs.len() == 0 {
            assert(ptrs.len() * span == 0) by (nonlinear_arith)
                requires
                    ptrs.len() == 0,
            ;
        }
    }
    let slot = locate(links, block_size, None, ptrs, offset, level)->Ok_0->0;
    assert(locate(grown, block_size, None, root, offset, level + 1) == locate(
        grown,
        block_size,
        Some(block.number),
        array,
        offset,
        level,
    ));
    assert(visited(grown, block_size, root, offset, level + 1) == visited(
        grown,
        block_size,
        array,
        offset,
        level,
    ).insert(block.number));
    if level == 0 {
        vstd::arithmetic::power::lemma_pow0(many);
        assert(offset < ptrs.len()) by (nonlinear_arith)
            requires
                offset < ptrs.len() * span,
                span == 1,
        ;
    } else {
        let child = offset / span;
        let rest = offset % span;
        vstd::arithmetic::div_mod::lemma_mod_bound(offset, span);
        vstd::arithmetic::div_mod::lemma_div_pos_is_pos(offset, span);
        let c = ptrs[child].number;
        let next = links[c]->Ok_0;
        let below = visited(links, block_size, next, rest, (level - 1) as nat);
        assert forall|k: u64| #[trigger] below.contains(k) implies grown[k] == links[k] by {
            assert(below.insert(c).contains(k));
        }
        lemma_same_way(links, grown, block_size, Some(c), next, rest, (level - 1) as nat);
        assert(locate(grown, block_size, Some(block.number), array, offset, level) == locate(
            grown,
            block_size,
            Some(c),
            next,
            rest,
            (level - 1) as nat,
        ));
        assert(locate(links, block_size, None, ptrs, offset, level) == locate(
            links,
            block_size,
            Some(c),
            next,
            rest,
            (level - 1) as nat,
        ));
    }
}

/// Filling a slot keeps what is settled: an offset that is settled at a
/// block is settled at that block after the slot of another offset was
/// filled, in the same tree (`same`) or in the tree of another inode.
pub proof fn lemma_filling_keeps(
    links: Links,
    block_size: u16,
    bits: Seq<bool>,
    ptrs: Seq<BlockNumber>,
    offset: int,
    level: nat,
    same: bool,
    watched_ptrs: Seq<BlockNumber>,
    watched_offset: int,
    watched_level: nat,
    block: BlockNumber,
)
    requires
        0 <= offset,
        0 <= watched_offset,
        block_size >= 8,
        same ==> watched_ptrs == ptrs && watched_level == level,
        held(links, block_size, bits, watched_ptrs, watched_offset, watched_level, block),
    ensures
        ({
            let outcome = filled(links, block_size, bits, None, ptrs, offset, level);
            held(
                outcome.links,
                block_size,
                outcome.bits,
                if same {
                    outcome.ptrs
                } else {
                    watched_ptrs
                },
                watched_offset,
                watched_level,
                block,
            )
        }),
{
    let outcome = filled(links, block_size, bits, None, ptrs, offset, level);
    let found = locate(links, block_size, None, ptrs, offset, level);
    if found matches Ok(Some(_)) && found->Ok_0->0.value.number == 0 && has_free(bits) {
        let slot = found->Ok_0->0;
        let fresh = BlockNumber { number: lowest_free(bits) as u64 };
        crate::block_map::lemma_lowest_free(bits);
        lemma_locate_after_fill(links, block_size, None, ptrs, offset, level, fresh);
        if level == 0 {
            if same {
                assert(visited(links, block_size, outcome.ptrs, watched_offset, 0)
                    =~= visited(links, block_size, watched_ptrs, watched_offset, 0));
            }
        } else {
            lemma_fill_keeps_way(
                links,
                block_size,
                None,
                watched_ptrs,
                watched_offset,
                watched_level,
                slot.holder->0,
                slot.index,
                fresh,
            );
        }
    }
}

/// Block 0 is never the lowest free block where it is marked as in use.
proof fn lemma_fresh_block(bits: Seq<bool>)
    requires
        has_free(bits),
        bits[0],
    ensures
        0 < lowest_free(bits) < bits.len(),
        !bits[lowest_free(bits)],
{
    crate::block_map::lemma_lowest_free(bits);
}

/// An allocation keeps what is settled: an offset that is settled at a
/// block is settled at that block after an allocation at any offset, in the
/// same tree (`same`) or in the tree of another inode, whether the tree
/// grows by it or not. Block 0 must be marked as in use.
pub proof fn lemma_allocation_keeps(
    links: Links,
    block_size: u16,
    bits: Seq<bool>,
    ptrs: Seq<BlockNumber>,
    level: nat,
    length: int,
    offset: int,
    same: bool,
    watched_ptrs: Seq<BlockNumber>,
    watched_offset: int,
    watched_level: nat,
    block: BlockNumber,
)
    requires
        0 <= offset,
        0 <= watched_offset,
        block_size >= 8,
        ptrs.len() <= fanout(block_size),
        bits.len() > 0 ==> bits[0],
        bits.len() <= u64::MAX,
        same ==> watched_ptrs == ptrs && watched_level == level,
        held(links, block_size, bits, watched_ptrs, watched_offset, watched_level, block),
    ensures
        ({
            let a = allocation(links, block_size, bits, ptrs, level, length, offset);
            held(
                a.links,
                block_size,
                a.bits,
                if same {
                    a.ptrs
                } else {
                    watched_ptrs
                },
                watched_offset,
                if same {
                    a.level
                } else {
                    watched_level
                },
                block,
            )
        }),
{
    if offset < ptrs.len() * per_level(block_size, level) {
        lemma_filling_keeps(
            links,
            block_size,
            bits,
            ptrs,
            offset,
            level,
            same,
            watched_ptrs,
            watched_offset,
            watched_level,
            block,
        );
    } else if has_free(bits) {
        lemma_fresh_block(bits);
        let fresh = BlockNumber { number: lowest_free(bits) as u64 };
        let grown = links.insert(fresh.number, Ok(grown_block(ptrs, block_size)));
        let marked = bits.update(lowest_free(bits), true);
        let root = grown_root(fresh, ptrs.len());
        let way = visited(links, block_size, watched_ptrs, watched_offset, watched_level);
        if same {
            lemma_growth_keeps_way(links, block_size, ptrs, watched_offset, level, fresh);
        } else {
            assert forall|k: u64| #[trigger] way.contains(k) implies grown[k] == links[k] by {}
            lemma_same_way(
                links,
                grown,
                block_size,
                None,
                watched_ptrs,
                watched_offset,
                watched_level,
            );
            assert(held(
                grown,
                block_size,
                marked,
                watched_ptrs,
                watched_offset,
                watched_level,
                block,
            ));
        }
        lemma_filling_keeps(
            grown,
            block_size,
            marked,
            root,
            offset,
            level + 1,
            same,
            if same {
                root
            } else {
                watched_ptrs
            },
            watched_offset,
            if same {
                level + 1
            } else {
                watched_level
            },
            block,
        );
    }
}

/// Filling the slot of an offset keeps the way to it.
proof fn lemma_filling_keeps_own_way(
    links: Links,
    block_size: u16,
    bits: Seq<bool>,
    ptrs: Seq<BlockNumber>,
    offset: int,
    level: nat,
)
    requires
        0 <= offset,
        block_size >= 8,
    ensures
        ({
            let outcome = filled(links, block_size, bits, None, ptrs, offset, level);
            &&& visited(outcome.links, block_size, outcome.ptrs, offset, level) == visited(
                links,
                block_size,
                ptrs,
                offset,
                level,
            )
            &&& forall|k: int| 0 <= k < bits.len() && bits[k] ==> outcome.bits[k]
            &&& outcome.bits.len() == bits.len()
        }),
{
    let outcome = filled(links, block_size, bits, None, ptrs, offset, level);
    let found = locate(links, block_size, None, ptrs, offset, level);
    if found matches Ok(Some(_)) && found->Ok_0->0.value.number == 0 && has_free(bits) {
        let slot = found->Ok_0->0;
        let fresh = BlockNumber { number: lowest_free(bits) as u64 };
        crate::block_map::lemma_lowest_free(bits);
        lemma_locate_after_fill(links, block_size, None, ptrs, offset, level, fresh);
        if level == 0 {
            assert(visited(links, block_size, outcome.ptrs, offset, 0) =~= visited(
                links,
                block_size,
                ptrs,
                offset,
                0,
            ));
        } else {
            lemma_fill_keeps_way(
                links,
                block_size,
                None,
                ptrs,
                offset,
                level,
                slot.holder->0,
                slot.index,
                fresh,
            );
        }
    }
}

/// In a tree that has just grown, the way to an offset beyond the old reach
/// leads through the new block of pointers alone.
proof fn lemma_way_after_growth(
    links: Links,
    block_size: u16,
    ptrs: Seq<BlockNumber>,
    offset: int,
    level: nat,
    block: BlockNumber,
)
    requires
        block_size >= 8,
        offset >= ptrs.len() * per_level(block_size, level),
        0 <= offset,
        locate(
            links.insert(block.number, Ok(grown_block(ptrs, block_size))),
            block_size,
            None,
            grown_root(block, ptrs.len()),
            offset,
            level + 1,
        ) matches Ok(Some(_)),
    ensures
        visited(
            links.insert(block.number, Ok(grown_block(ptrs, block_size))),
            block_size,
            grown_root(block, ptrs.len()),
            offset,
            level + 1,
        ) == Set::<u64>::empty().insert(block.number),
{
    let many = fanout(block_size);
    let grown = links.insert(block.number, Ok(grown_block(ptrs, block_size)));
    let root = grown_root(block, ptrs.len());
    let array = grown_block(ptrs, block_size);
    let span = per_level(block_size, level);
    let above = per_level(block_size, level + 1);
    vstd::arithmetic::power::lemma_pow_positive(many, level);
    vstd::arithmetic::power::lemma_pow_positive(many, level + 1);
    let first = offset / above;
    let rest = offset % above;
    vstd::arithmetic::div_mod::lemma_fundamental_div_mod(offset, above);
    vstd::arithmetic::div_mod::lemma_mod_bound(offset, above);
    vstd::arithmetic::div_mod::lemma_div_pos_is_pos(offset, above);
    assert(first == 0) by {
        if first != 0 {
            assert(root[first].number == 0);
        }
    }
    assert(rest == offset) by (nonlinear_arith)
        requires
            offset == above * first + rest,
            first == 0,
    ;
    assert(locate(grown, block_size, None, root, offset, level + 1) == locate(
        grown,
        block_size,
        Some(block.number),
        array,
        offset,
        level,
    ));
    if level > 0 {
        let child = offset / span;
        vstd::arithmetic::div_mod::lemma_fundamental_div_mod(offset, span);
        vstd::arithmetic::div_mod::lemma_mod_bound(offset, span);
        vstd::arithmetic::div_mod::lemma_div_pos_is_pos(offset, span);
        assert(child >= ptrs.len()) by {
            if child < ptrs.len() {
                assert(span * child + span <= ptrs.len() * span) by (nonlinear_arith)
                    requires
                        child + 1 <= ptrs.len(),
                        span > 0,
                ;
            }
        }
    }
    assert(visited(grown, block_size, array, offset, level) =~= Set::<u64>::empty());
}

/// What was allocated is settled: where an allocation returns a block, the
/// offset is settled at that block in the tree that the allocation leaves.
/// Block 0 must be marked as in use, and so must the way to the offset in a
/// tree that reaches it.
pub proof fn lemma_allocation_settles(
    links: Links,
    block_size: u16,
    bits: Seq<bool>,
    ptrs: Seq<BlockNumber>,
    level: nat,
    length: int,
    offset: int,
)
    requires
        0 <= offset,
        block_size >= 8,
        bits.len() > 0 ==> bits[0],
        bits.len() <= u64::MAX,
        ptrs.len() > 0,
        offset < ptrs.len() * per_level(block_size, level) ==> way_in_use(
            links,
            block_size,
            bits,
            ptrs,
            offset,
            level,
        ),
        allocation(links, block_size, bits, ptrs, level, length, offset).result matches Ok(Some(_)),
    ensures
        ({
            let a = allocation(links, block_size, bits, ptrs, level, length, offset);
            held(a.links, block_size, a.bits, a.ptrs, offset, a.level, a.result->Ok_0->0)
        }),
{
    lemma_allocated_is_resolved(links, block_size, bits, ptrs, level, length, offset);
    crate::block_map::lemma_lowest_free(bits);
    if offset < ptrs.len() * per_level(block_size, level) {
        lemma_filling_keeps_own_way(links, block_size, bits, ptrs, offset, level);
    } else {
        lemma_fresh_block(bits);
        let fresh = BlockNumber { number: lowest_free(bits) as u64 };
        let grown = links.insert(fresh.number, Ok(grown_block(ptrs, block_size)));
        let marked = bits.update(lowest_free(bits), true);
        let root = grown_root(fresh, ptrs.len());
        crate::block_map::lemma_lowest_free(marked);
        lemma_way_after_growth(links, block_size, ptrs, offset, level, fresh);
        lemma_filling_keeps_own_way(grown, block_size, marked, root, offset, level + 1);
    }
}

/// Offsets under the same last block of pointers share their way: two
/// offsets that differ in their place in that block alone are reached
/// through the same blocks of pointers.
pub proof fn lemma_neighbours_share_way(
    links: Links,
    block_size: u16,
    ptrs: Seq<BlockNumber>,
    one: int,
    other: int,
    level: nat,
)
    requires
        0 <= one,
        0 <= other,
        block_size >= 8,
        one / fanout(block_size) == other / fanout(block_size),
    ensures
        visited(links, block_size, ptrs, one, level) == visited(
            links,
            block_size,
            ptrs,
            other,
            level,
        ),
    decreases level,
{
    if level > 0 {
        let many = fanout(block_size);
        let below = per_level(block_size, (level - 1) as nat);
        let span = per_level(block_size, level);
        vstd::arithmetic::power::lemma_pow_positive(many, (level - 1) as nat);
        assert(span == many * below) by {
            reveal(vstd::arithmetic::power::pow);
        }
        vstd::arithmetic::div_mod::lemma_div_denominator(one, many, below);
        vstd::arithmetic::div_mod::lemma_div_denominator(other, many, below);
        vstd::arithmetic::div_mod::lemma_breakdown(one, many, below);
        vstd::arithmetic::div_mod::lemma_breakdown(other, many, below);
        vstd::arithmetic::div_mod::lemma_mod_bound(one, many);
        vstd::arithmetic::div_mod::lemma_mod_bound(other, many);
        vstd::arithmetic::div_mod::lemma_mod_bound(one / many, below);
        vstd::arithmetic::div_mod::lemma_fundamental_div_mod_converse(
            one % span,
            many,
            (one / many) % below,
            one % many,
        );
        vstd::arithmetic::div_mod::lemma_fundamental_div_mod_converse(
            other % span,
            many,
            (other / many) % below,
            other % many,
        );
        let child = one / span;
        if 0 <= child < ptrs.len() && ptrs[child].number != 0 {
            if links[ptrs[child].number] is Ok {
                lemma_neighbours_share_way(
                    links,
                    block_size,
                    links[ptrs[child].number]->Ok_0,
                    one % span,
                    other % span,
                    (level - 1) as nat,
                );
            }
        }
    }
}

impl FileSystem {
    /// Whether the way to block `offset` of the file of inode `inode_num`
    /// is marked as in use in the block map.
    pub open spec fn way_marked(&self, inode_num: int, offset: u64) -> bool {
        way_in_use(
            self.cache.links(),
            self.master_block.block_size,
            self.block_map@,
            self.inode_map@[inode_num].block_ptrs@,
            offset as int,
            self.inode_map@[inode_num].level as nat,
        )
    }

    /// Whether block `offset` of the file of inode `inode_num` is settled
    /// at `block`: a lookup gives that block, which is not block 0, and
    /// the way to it is marked as in use.
    pub open spec fn settled_at(&self, inode_num: int, offset: u64, block: BlockNumber) -> bool {
        held(
            self.cache.links(),
            self.master_block.block_size,
            self.block_map@,
            self.inode_map@[inode_num].block_ptrs@,
            offset as int,
            self.inode_map@[inode_num].level as nat,
            block,
        )
    }

    /// Whether `after` is what allocating at `offset` for inode `inode_num`
    /// makes of `self`, as far as the trees go: the block map, the blocks of
    /// pointers and the tree of that inode are as the allocation leaves
    /// them, and the trees of the other inodes are as they were.
    pub open spec fn allocates_into(&self, after: FileSystem, inode_num: int, offset: u64) -> bool {
        let a = self.allocated(inode_num, offset);
        &&& after.master_block == self.master_block
        &&& after.block_map@ == a.bits
        &&& after.cache.links() == a.links
        &&& after.inode_map@.len() == self.inode_map@.len()
        &&& after.inode_map@[inode_num].block_ptrs@ == a.ptrs
        &&& after.inode_map@[inode_num].level == a.level
        &&& forall|k: int|
            0 <= k < self.inode_map@.len() && k != inode_num ==> (
            #[trigger] after.inode_map@[k]).block_ptrs@ == self.inode_map@[k].block_ptrs@
                && after.inode_map@[k].level == self.inode_map@[k].level
    }
}

/// What was allocated at an offset is settled there: where allocating for an
/// inode returns a block, the file system that the allocation leaves has
/// the offset settled at that block, so that a lookup gives it. Block 0 must
/// be marked as in use, and so must the way to the offset where the tree
/// reaches it already.
pub proof fn lemma_alloc_settles(
    before: FileSystem,
    after: FileSystem,
    inode_num: int,
    offset: u64,
)
    requires
        before.wf(),
        0 <= inode_num < before.inode_map@.len(),
        before.block_map@[0],
        offset < 8 * per_level(
            before.master_block.block_size,
            before.inode_map@[inode_num].level as nat,
        ) ==> before.way_marked(inode_num, offset),
        before.allocated(inode_num, offset).result matches Ok(Some(_)),
        before.allocates_into(after, inode_num, offset),
    ensures
        after.settled_at(inode_num, offset, before.allocated(inode_num, offset).result->Ok_0->0),
        after.resolved(inode_num, offset) == before.allocated(inode_num, offset).result,
        after.block_map@[0],
{
    let inode = before.inode_map@[inode_num];
    lemma_allocation_settles(
        before.cache.links(),
        before.master_block.block_size,
        before.block_map@,
        inode.block_ptrs@,
        inode.level as nat,
        inode.length as int,
        offset as int,
    );
    lemma_allocation_keeps_marks(
        before.cache.links(),
        before.master_block.block_size,
        before.block_map@,
        inode.block_ptrs@,
        inode.level as nat,
        inode.length as int,
        offset as int,
    );
}

/// Later allocations keep what earlier ones have settled: a block that an
/// offset of a file is settled at stays settled there through an allocation
/// at any offset of the same file or of another one, also one by which a
/// tree grows. So a lookup gives what an allocation returned, whatever was
/// allocated between the two. Block 0 must be marked as in use.
pub proof fn lemma_later_alloc_keeps(
    before: FileSystem,
    after: FileSystem,
    inode_num: int,
    offset: u64,
    settled_inode: int,
    settled_offset: u64,
    block: BlockNumber,
)
    requires
        before.wf(),
        0 <= inode_num < before.inode_map@.len(),
        0 <= settled_inode < before.inode_map@.len(),
        before.block_map@[0],
        before.settled_at(settled_inode, settled_offset, block),
        before.allocates_into(after, inode_num, offset),
    ensures
        after.settled_at(settled_inode, settled_offset, block),
        after.block_map@[0],
{
    let inode = before.inode_map@[inode_num];
    let watched = before.inode_map@[settled_inode];
    lemma_allocation_keeps(
        before.cache.links(),
        before.master_block.block_size,
        before.block_map@,
        inode.block_ptrs@,
        inode.level as nat,
        inode.length as int,
        offset as int,
        settled_inode == inode_num,
        watched.block_ptrs@,
        settled_offset as int,
        watched.level as nat,
        block,
    );
    lemma_allocation_keeps_marks(
        before.cache.links(),
        before.master_block.block_size,
        before.block_map@,
        inode.block_ptrs@,
        inode.level as nat,
        inode.length as int,
        offset as int,
    );
}

/// An allocation takes no mark away: every block that was marked as in use
/// still is.
pub proof fn lemma_allocation_keeps_marks(
    links: Links,
    block_size: u16,
    bits: Seq<bool>,
    ptrs: Seq<BlockNumber>,
    level: nat,
    length: int,
    offset: int,
)
    ensures
        ({
            let a = allocation(links, block_size, bits, ptrs, level, length, offset);
            &&& a.bits.len() == bits.len()
            &&& forall|k: int| 0 <= k < bits.len() && bits[k] ==> a.bits[k]
        }),
{
    crate::block_map::lemma_lowest_free(bits);
    if has_free(bits) {
        crate::block_map::lemma_lowest_free(bits.update(lowest_free(bits), true));
    }
}

} // verus!
