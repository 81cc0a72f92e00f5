//! Where in a row the columns, their null bits and the aggregation state lie.
//!
//! A row is, from its first byte on: the key columns one after another, one
//! null bit per key, eight to a byte, and the aggregation state.
use crate::row_container::{ColumnKind, VARCHAR_SLOT_SIZE};
use vstd::prelude::*;

verus! {

/// What a column descriptor says: where the value lies in a row, and in which
/// byte and under which mask its null bit lies.
pub struct ColumnModel {
    pub offset: nat,
    pub null_byte: nat,
    pub null_mask: u8,
}

/// How many bytes a column takes in a row: a varchar column holds a slot of
/// pointer size, whatever its nominal size.
pub open spec fn column_width(size: usize, kind: ColumnKind) -> nat {
    match kind {
        ColumnKind::Fixed => size as nat,
        ColumnKind::Varchar => VARCHAR_SLOT_SIZE as nat,
    }
}

/// Where column `i` begins: behind the columns before it.
pub open spec fn column_offset(sizes: Seq<usize>, kinds: Seq<ColumnKind>, i: int) -> nat
    decreases i,
{
    if i <= 0 {
        0
    } else {
        column_offset(sizes, kinds, i - 1) + column_width(sizes[i - 1], kinds[i - 1])
    }
}

/// Where the null bits begin: behind the last column.
pub open spec fn null_block_start(sizes: Seq<usize>, kinds: Seq<ColumnKind>) -> nat {
    column_offset(sizes, kinds, sizes.len() as int)
}

/// How many bytes the null bits of `num_keys` columns take.
pub open spec fn null_bytes(num_keys: nat) -> nat {
    (num_keys + 7) / 8
}

/// Where the aggregation state begins: behind the null bits.
pub open spec fn agg_state_offset(sizes: Seq<usize>, kinds: Seq<ColumnKind>) -> nat {
    null_block_start(sizes, kinds) + null_bytes(sizes.len())
}

/// How many bytes a row takes.
pub open spec fn row_size(
    sizes: Seq<usize>,
    kinds: Seq<ColumnKind>,
    agg_state_size: nat,
) -> nat {
    agg_state_offset(sizes, kinds) + agg_state_size
}

/// What is left of a column's position when it is packed into 64 bits: 32 bits
/// for the offset, 24 for the null byte and 8 for the null mask.
///
/// A null byte that takes more than 24 bits runs into the offset's bits.
pub open spec fn packed_column(offset: nat, null_bit: nat, null_block_start: nat) -> ColumnModel {
    let null_byte = (null_block_start + null_bit / 8) as u64;
    ColumnModel {
        offset: ((offset as u64 % 0x1_0000_0000) | ((null_byte / 0x100_0000) % 0x1_0000_0000))
            as nat,
        null_byte: (null_byte % 0x100_0000) as nat,
        null_mask: 1u8 << ((null_bit % 8) as usize),
    }
}

/// The descriptors of all columns.
pub open spec fn packed_columns(sizes: Seq<usize>, kinds: Seq<ColumnKind>) -> Seq<ColumnModel> {
    Seq::new(
        sizes.len(),
        |i: int|
            packed_column(
                column_offset(sizes, kinds, i),
                i as nat,
                null_block_start(sizes, kinds),
            ),
    )
}

/// Columns lie in the order of their numbers.
pub proof fn lemma_column_offset_monotone(
    sizes: Seq<usize>,
    kinds: Seq<ColumnKind>,
    i: int,
    j: int,
)
    requires
        i <= j,
    ensures
        column_offset(sizes, kinds, i) <= column_offset(sizes, kinds, j),
    decreases j,
{
    if i < j && 0 < j {
        lemma_column_offset_monotone(sizes, kinds, i, j - 1);
    }
}

/// The null bit of a column lies before the aggregation state, also where its
/// byte takes more bits than the packing keeps.
pub proof fn lemma_packed_null_bit(sizes: Seq<usize>, kinds: Seq<ColumnKind>, i: int)
    requires
        0 <= i < sizes.len(),
        agg_state_offset(sizes, kinds) <= isize::MAX,
    ensures
        packed_columns(sizes, kinds)[i].null_byte < agg_state_offset(sizes, kinds),
        packed_columns(sizes, kinds)[i].null_mask != 0,
{
    let bit = (i % 8) as usize;
    assert(1u8 << bit != 0) by (bit_vector)
        requires
            bit < 8,
    ;
}

} // verus!
