//! What each operation on a container changes and what it leaves, field by field,
//! byte by byte and bit by bit.
use crate::arena::ArenaSlice;
use crate::row_container::ContainerModel;
use vstd::prelude::*;

verus! {

// Rows.

/// A new row comes behind the others, is as long as they are and holds only zero
/// bytes. All else stays, but that a block is added when 1024 rows fill each of
/// those there are.
pub proof fn law_new_row(container: ContainerModel)
    requires
        container.valid(),
    ensures
        ({
            let after = container.with_row();
            let n = container.rows.len() as int;
            &&& after.rows.len() == n + 1
            &&& forall|i: int| 0 <= i < n ==> #[trigger] after.rows[i] == container.rows[i]
            &&& after.rows[n].len() == container.row_size
            &&& forall|k: int|
                0 <= k < container.row_size ==> #[trigger] after.rows[n][k] == 0
            &&& after.blocks == (if n == 1024 * container.blocks {
                container.blocks + 1
            } else {
                container.blocks
            })
            &&& after.columns == container.columns
            &&& after.kinds == container.kinds
            &&& after.agg_state_offset == container.agg_state_offset
            &&& after.row_size == container.row_size
            &&& after.arena == container.arena
        }),
{
}

/// Rows lie 1024 to a block, in as few blocks as that takes, and in one where there
/// is no row; there is room for more up to the end of the last block.
pub proof fn law_rows_fill_blocks(container: ContainerModel)
    requires
        container.valid(),
    ensures
        container.blocks >= 1,
        container.rows.len() <= 1024 * container.blocks,
        container.blocks > 1 ==> 1024 * (container.blocks - 1) < container.rows.len(),
        container.rows_left() == 1024 * container.blocks - container.rows.len(),
{
}

/// Writing a row changes that row and nothing else.
pub proof fn law_row_write(container: ContainerModel, index: int, bytes: Seq<u8>)
    requires
        0 <= index < container.rows.len(),
    ensures
        ({
            let after = container.with_row_bytes(index, bytes);
            &&& after.rows.len() == container.rows.len()
            &&& after.rows[index] == bytes
            &&& forall|i: int|
                0 <= i < container.rows.len() && i != index ==> #[trigger] after.rows[i]
                    == container.rows[i]
            &&& after.blocks == container.blocks
            &&& after.columns == container.columns
            &&& after.kinds == container.kinds
            &&& after.agg_state_offset == container.agg_state_offset
            &&& after.row_size == container.row_size
            &&& after.arena == container.arena
        }),
{
}

// Null bits.

/// A column is null where a bit of its mask is set in its null byte.
pub proof fn law_null_reads_bits(row: Seq<u8>, at: int, mask: u8)
    requires
        0 <= at < row.len(),
    ensures
        crate::row_container::is_null(row, at, mask) <==> (exists|k: u8|
            k < 8 && #[trigger] ((mask >> k) & 1) == 1 && (row[at] >> k) & 1 == 1),
{
    let byte = row[at];
    assert(byte & mask != 0 <==> ((mask >> 0) & 1 == 1 && (byte >> 0) & 1 == 1) || ((mask >> 1) & 1
        == 1 && (byte >> 1) & 1 == 1) || ((mask >> 2) & 1 == 1 && (byte >> 2) & 1 == 1) || ((mask
        >> 3) & 1 == 1 && (byte >> 3) & 1 == 1) || ((mask >> 4) & 1 == 1 && (byte >> 4) & 1 == 1)
        || ((mask >> 5) & 1 == 1 && (byte >> 5) & 1 == 1) || ((mask >> 6) & 1 == 1 && (byte >> 6)
        & 1 == 1) || ((mask >> 7) & 1 == 1 && (byte >> 7) & 1 == 1)) by (bit_vector);
    if byte & mask != 0 {
        assert(exists|k: u8| k < 8 && #[trigger] ((mask >> k) & 1) == 1 && (byte >> k) & 1 == 1);
    } else {
        assert forall|k: u8| k < 8 && #[trigger] ((mask >> k) & 1) == 1 implies (byte >> k) & 1
            != 1 by {
            assert(k < 8 && (mask >> k) & 1 == 1 && byte & mask == 0 ==> (byte >> k) & 1 != 1)
                by (bit_vector);
        }
    }
}

/// Setting a column null sets the bits of its mask in its null byte, clearing it
/// clears them; all other bits and all other bytes stay.
pub proof fn law_null_writes_bits(row: Seq<u8>, at: int, mask: u8, i: int, k: u8)
    requires
        0 <= at < row.len(),
        0 <= i < row.len(),
        k < 8,
    ensures
        ({
            let set = crate::row_container::with_null_set(row, at, mask);
            let cleared = crate::row_container::with_null_cleared(row, at, mask);
            let chosen = i == at && (mask >> k) & 1 == 1;
            &&& set.len() == row.len()
            &&& cleared.len() == row.len()
            &&& (set[i] >> k) & 1 == 1 <==> chosen || (row[i] >> k) & 1 == 1
            &&& (cleared[i] >> k) & 1 == 1 <==> !chosen && (row[i] >> k) & 1 == 1
            &&& i != at ==> set[i] == row[i] && cleared[i] == row[i]
        }),
{
    let byte = row[at];
    assert((((byte | mask) >> k) & 1 == 1 <==> (mask >> k) & 1 == 1 || (byte >> k) & 1 == 1) && (((
    byte & !mask) >> k) & 1 == 1 <==> (mask >> k) & 1 != 1 && (byte >> k) & 1 == 1))
        by (bit_vector)
        requires
            k < 8,
    ;
}

// The string arena.

/// In a container made without varchar columns the first string opens the first
/// block. With such a column there is a block already, and a string goes to its
/// front if 64 KiB hold it, else to a block of its own.
pub proof fn law_first_allocation(with_block: bool, slice: ArenaSlice)
    requires
        crate::arena::ArenaModel::fresh(with_block).hands_out(slice.len as nat, slice),
    ensures
        slice.offset == 0,
        slice.block == (if with_block && slice.len > 65536 {
            1int
        } else {
            0
        }),
{
}

/// A string comes directly behind the one before it if both end within 64 KiB,
/// and else goes to the front of the next block.
pub proof fn law_next_allocation(
    arena: crate::arena::ArenaModel,
    first: ArenaSlice,
    second: ArenaSlice,
)
    requires
        arena.valid(),
        arena.hands_out(first.len as nat, first),
        arena.allocated(first.len as nat).hands_out(second.len as nat, second),
    ensures
        first.offset + first.len + second.len <= 65536 ==> {
            &&& second.block == first.block
            &&& second.offset == first.offset + first.len
        },
        first.offset + first.len + second.len > 65536 ==> {
            &&& second.block == first.block + 1
            &&& second.offset == 0
        },
{
}

/// An allocation leaves every byte of every block, and adds at most one block: of
/// 64 KiB, or of the string's length if that is more, with only zero bytes. What is
/// handed out has the length asked for and lies in the last block.
pub proof fn law_allocation_keeps_blocks(
    arena: crate::arena::ArenaModel,
    slice: ArenaSlice,
    b: int,
)
    requires
        arena.valid(),
        arena.hands_out(slice.len as nat, slice),
    ensures
        ({
            let after = arena.allocated(slice.len as nat);
            &&& 0 <= b < arena.blocks.len() ==> after.blocks[b] == arena.blocks[b]
            &&& after.blocks.len() == (if slice.block == arena.blocks.len() {
                arena.blocks.len() + 1
            } else {
                arena.blocks.len()
            })
            &&& slice.block == after.blocks.len() - 1
            &&& after.current == slice.block
            &&& after.offset == slice.offset + slice.len
            &&& slice.block == arena.blocks.len() ==> {
                let block = after.blocks[slice.block as int];
                &&& block.len() == (if slice.len > 65536 {
                    slice.len as int
                } else {
                    65536
                })
                &&& forall|k: int| 0 <= k < block.len() ==> #[trigger] block[k] == 0
            }
        }),
{
}

/// The bytes handed out are zero, and no byte of them was handed out before: those
/// that were lie in other places, as they were, and can be reached as before.
pub proof fn law_allocated_bytes_are_new(
    arena: crate::arena::ArenaModel,
    slice: ArenaSlice,
    earlier: ArenaSlice,
)
    requires
        arena.valid(),
        arena.hands_out(slice.len as nat, slice),
    ensures
        ({
            let after = arena.allocated(slice.len as nat);
            &&& after.in_use(slice)
            &&& after.bytes(slice).len() == slice.len
            &&& forall|k: int| 0 <= k < slice.len ==> #[trigger] after.bytes(slice)[k] == 0
            &&& arena.in_use(earlier) ==> {
                &&& slice.block == earlier.block ==> earlier.offset + earlier.len <= slice.offset
                &&& after.in_use(earlier)
                &&& after.bytes(earlier).len() == earlier.len
                &&& forall|k: int|
                    0 <= k < earlier.len ==> #[trigger] after.bytes(earlier)[k]
                        == arena.blocks[earlier.block as int][earlier.offset + k]
            }
        }),
{
    crate::laws::law_allocation_is_fresh(arena, slice, earlier);
}

/// An allocation leaves the rows and their layout.
pub proof fn law_allocation_keeps_rows(container: ContainerModel, size: nat)
    ensures
        ({
            let after = container.with_allocation(size);
            &&& after.rows == container.rows
            &&& after.blocks == container.blocks
            &&& after.columns == container.columns
            &&& after.kinds == container.kinds
            &&& after.agg_state_offset == container.agg_state_offset
            &&& after.row_size == container.row_size
            &&& after.arena == container.arena.allocated(size)
        }),
{
}

/// Writing a string changes the bytes of the string, each to the one written in
/// its place, and no other byte of the arena, no row and no layout.
pub proof fn law_string_write(
    container: ContainerModel,
    slice: ArenaSlice,
    bytes: Seq<u8>,
    b: int,
    k: int,
)
    requires
        container.arena.in_use(slice),
        bytes.len() == slice.len,
        0 <= b < container.arena.blocks.len(),
        0 <= k < container.arena.blocks[b].len(),
    ensures
        ({
            let after = container.with_arena_bytes(slice, bytes);
            &&& after.arena.blocks.len() == container.arena.blocks.len()
            &&& after.arena.blocks[b].len() == container.arena.blocks[b].len()
            &&& after.arena.blocks[b][k] == (if b == slice.block && slice.offset <= k < slice.offset
                + slice.len {
                bytes[k - slice.offset]
            } else {
                container.arena.blocks[b][k]
            })
            &&& after.arena.current == container.arena.current
            &&& after.arena.offset == container.arena.offset
            &&& after.rows == container.rows
            &&& after.blocks == container.blocks
            &&& after.columns == container.columns
            &&& after.kinds == container.kinds
            &&& after.agg_state_offset == container.agg_state_offset
            &&& after.row_size == container.row_size
        }),
{
}

// Lanes.

/// The lanes of a word are its low and its high half, and a word of lanes is put
/// together from its four lanes, the lowest first.
pub proof fn law_lanes_make_up_the_word(lanes: crate::lanes::Lanes)
    ensures
        lanes.low == lanes.lane_32(0) + lanes.lane_32(1) * 0x1_0000_0000,
        lanes.high == lanes.lane_32(2) + lanes.lane_32(3) * 0x1_0000_0000,
{
    let (low, high) = (lanes.low, lanes.high);
    assert(low == (low & 0xFFFF_FFFF) as u32 + ((low >> 32) as u32) * 0x1_0000_0000 && high == (
    high & 0xFFFF_FFFF) as u32 + ((high >> 32) as u32) * 0x1_0000_0000) by (bit_vector);
}

} // verus!
