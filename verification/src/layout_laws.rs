//! Where a fresh container puts things, in terms of the key sizes and kinds that
//! it was made for.
use crate::row_container::ColumnKind;
use vstd::prelude::*;

verus! {

/// A varchar column takes as many bytes as a machine word does.
pub proof fn law_varchar_slot_is_a_word()
    ensures
        crate::row_container::VARCHAR_SLOT_SIZE == vstd::layout::size_of::<usize>(),
        crate::row_container::VARCHAR_SLOT_SIZE * 8 == usize::BITS,
{
    broadcast use vstd::layout::group_layout_axioms;

}

/// The columns lie one behind the other, a fixed one in as many bytes as its key
/// size says and a varchar one in those of a pointer. Behind them come the null
/// bits, in as few bytes as hold one for each column, then the aggregation state,
/// and then the row ends.
pub proof fn law_row_is_the_sum_of_its_parts(
    sizes: Seq<usize>,
    kinds: Seq<ColumnKind>,
    agg_state_size: nat,
)
    requires
        sizes.len() == kinds.len(),
    ensures
        ({
            let container = crate::row_container::ContainerModel::fresh(
                sizes,
                kinds,
                agg_state_size,
            );
            let keys = Seq::new(
                sizes.len(),
                |k: int|
                    if kinds[k] == ColumnKind::Fixed {
                        sizes[k] as int
                    } else {
                        usize::BITS as int / 8
                    },
            ).fold_left(0int, |sum: int, width: int| sum + width);
            let null_bytes = container.agg_state_offset - keys;
            &&& 0 <= 8 * null_bytes - sizes.len() < 8
            &&& container.row_size == container.agg_state_offset + agg_state_size
            &&& container.agg_state_offset == crate::layout::agg_state_offset(sizes, kinds)
            &&& container.row_size == crate::layout::row_size(sizes, kinds, agg_state_size)
        }),
{
    lemma_keys_sum(sizes, kinds, sizes.len() as int);
}

/// A fresh container has the kinds that it was made with, a descriptor for each
/// of them, no row, and one block to put rows in. Its arena is empty; it has a
/// block, of 64 KiB, all zero, exactly where there is a varchar column.
pub proof fn law_fresh_container(sizes: Seq<usize>, kinds: Seq<ColumnKind>, agg_state_size: nat)
    requires
        sizes.len() == kinds.len(),
    ensures
        ({
            let container = crate::row_container::ContainerModel::fresh(
                sizes,
                kinds,
                agg_state_size,
            );
            &&& container.kinds.len() == kinds.len()
            &&& forall|i: int| 0 <= i < kinds.len() ==> #[trigger] container.kinds[i] == kinds[i]
            &&& container.columns.len() == sizes.len()
            &&& container.rows.len() == 0
            &&& container.blocks == 1
            &&& container.arena.offset == 0
            &&& container.arena.current == 0
            &&& (exists|i: int| 0 <= i < kinds.len() && #[trigger] kinds[i] == ColumnKind::Varchar)
                ==> {
                &&& container.arena.blocks.len() == 1
                &&& container.arena.blocks[0].len() == 65536
                &&& forall|k: int| 0 <= k < 65536 ==> #[trigger] container.arena.blocks[0][k] == 0
            }
            &&& (forall|i: int| 0 <= i < kinds.len() ==> #[trigger] kinds[i] == ColumnKind::Fixed)
                ==> container.arena.blocks.len() == 0
        }),
{
    if exists|i: int| 0 <= i < kinds.len() && #[trigger] kinds[i] == ColumnKind::Varchar {
        assert(kinds.contains(ColumnKind::Varchar));
    }
}

/// A column begins where the widths of those before it add up to, and its null
/// bit is the bit of its number, counted from the end of the columns, the lowest
/// bit of a byte first.
pub proof fn law_column_lies_behind_those_before(
    sizes: Seq<usize>,
    kinds: Seq<ColumnKind>,
    agg_state_size: nat,
    i: int,
)
    requires
        sizes.len() == kinds.len(),
        0 <= i < sizes.len(),
        crate::layout::agg_state_offset(sizes, kinds) <= 0x100_0000,
    ensures
        ({
            let column = crate::row_container::ContainerModel::fresh(
                sizes,
                kinds,
                agg_state_size,
            ).columns[i];
            let widths = Seq::new(
                sizes.len(),
                |k: int|
                    if kinds[k] == ColumnKind::Fixed {
                        sizes[k] as int
                    } else {
                        usize::BITS as int / 8
                    },
            );
            let before = widths.take(i).fold_left(0int, |sum: int, width: int| sum + width);
            let keys = widths.fold_left(0int, |sum: int, width: int| sum + width);
            &&& column.offset == before
            &&& 8 * keys + i == 8 * column.null_byte + i % 8
            &&& forall|bit: u8|
                bit < 8 ==> (#[trigger] ((column.null_mask >> bit) & 1) == 1 <==> bit == i % 8)
        }),
{
    let widths = lemma_keys_sum(sizes, kinds, i);
    let all = lemma_keys_sum(sizes, kinds, sizes.len() as int);
    assert(all.take(i) =~= widths);
    let start = crate::layout::null_block_start(sizes, kinds);
    crate::layout::lemma_column_offset_monotone(sizes, kinds, i, sizes.len() as int);
    crate::laws::law_unpack_after_pack(
        crate::layout::column_offset(sizes, kinds, i),
        i as nat,
        start,
    );
    lemma_mask_bits((i % 8) as usize);
}

/// No later column, no null bit and no byte of the aggregation state lies inside
/// the bytes of a key: as many as its key size says where it is fixed, those of a
/// pointer where it is a varchar.
pub proof fn law_keys_have_room(
    sizes: Seq<usize>,
    kinds: Seq<ColumnKind>,
    agg_state_size: nat,
    i: int,
    j: int,
)
    requires
        sizes.len() == kinds.len(),
        0 <= i < sizes.len(),
        0 <= j < sizes.len(),
        crate::layout::agg_state_offset(sizes, kinds) <= 0x100_0000,
    ensures
        ({
            let container = crate::row_container::ContainerModel::fresh(
                sizes,
                kinds,
                agg_state_size,
            );
            let column = container.columns[i];
            let end = if kinds[i] == ColumnKind::Fixed {
                column.offset + sizes[i]
            } else {
                column.offset + usize::BITS as int / 8
            };
            &&& i < j ==> end <= container.columns[j].offset
            &&& i + 1 == j ==> end == container.columns[j].offset
            &&& end <= container.columns[j].null_byte
            &&& i + 1 == sizes.len() ==> end == container.columns[0].null_byte
            &&& container.columns[j].null_byte < container.agg_state_offset
            &&& container.agg_state_offset <= container.row_size
            &&& container.columns[0].offset == 0
        }),
{
    crate::laws::law_column_in_row(sizes, kinds, agg_state_size, 0);
    crate::laws::law_column_in_row(sizes, kinds, agg_state_size, i);
    crate::laws::law_column_in_row(sizes, kinds, agg_state_size, j);
    crate::layout::lemma_column_offset_monotone(sizes, kinds, i + 1, sizes.len() as int);
    if i < j {
        crate::layout::lemma_column_offset_monotone(sizes, kinds, i + 1, j);
    }
}

/// The descriptor of a column is the packing of where the column begins and of
/// its null bit, whether or not they fit.
pub proof fn law_columns_are_packed(
    sizes: Seq<usize>,
    kinds: Seq<ColumnKind>,
    agg_state_size: nat,
    i: int,
)
    requires
        sizes.len() == kinds.len(),
        0 <= i < sizes.len(),
    ensures
        ({
            let widths = Seq::new(
                sizes.len(),
                |k: int|
                    if kinds[k] == ColumnKind::Fixed {
                        sizes[k] as int
                    } else {
                        usize::BITS as int / 8
                    },
            );
            let before = widths.take(i).fold_left(0int, |sum: int, width: int| sum + width);
            let keys = widths.fold_left(0int, |sum: int, width: int| sum + width);
            &&& 0 <= before <= keys
            &&& crate::row_container::ContainerModel::fresh(
                sizes,
                kinds,
                agg_state_size,
            ).columns[i] == crate::layout::packed_column(before as nat, i as nat, keys as nat)
        }),
{
    let widths = lemma_keys_sum(sizes, kinds, i);
    let all = lemma_keys_sum(sizes, kinds, sizes.len() as int);
    assert(all.take(i) =~= widths);
    crate::layout::lemma_column_offset_monotone(sizes, kinds, i, sizes.len() as int);
}

/// Packing keeps the 32 low bits of the offset and the 24 low bits of the null
/// byte's place. A bit of that place above the 24 shows in the offset, 24 bits
/// further down, if it is among the next 32. The mask has one bit, that of the null
/// bit in its byte.
pub proof fn law_packed_bits(offset: u64, null_bit: nat, null_block_start: nat, k: u64)
    requires
        null_block_start + null_bit / 8 <= u64::MAX,
        k < 64,
    ensures
        ({
            let column = crate::layout::packed_column(offset as nat, null_bit, null_block_start);
            let null_byte = (null_block_start + null_bit / 8) as u64;
            &&& column.offset <= u64::MAX
            &&& ((column.offset as u64) >> k) & 1 == 1 <==> k < 32 && ((offset >> k) & 1 == 1 || (
            null_byte >> ((k + 24) as u64)) & 1 == 1)
            &&& column.null_byte <= u64::MAX
            &&& ((column.null_byte as u64) >> k) & 1 == 1 <==> k < 24 && (null_byte >> k) & 1 == 1
            &&& forall|bit: u8|
                bit < 8 ==> (#[trigger] ((column.null_mask >> bit) & 1) == 1 <==> bit == null_bit
                    % 8)
        }),
{
    let null_byte = (null_block_start + null_bit / 8) as u64;
    let k24 = (k + 24) as u64;
    let high = (offset % 0x1_0000_0000) | ((null_byte / 0x100_0000) % 0x1_0000_0000);
    let low = null_byte % 0x100_0000;
    assert(((high >> k) & 1 == 1 <==> k < 32 && ((offset >> k) & 1 == 1 || (null_byte >> k24) & 1
        == 1)) && ((low >> k) & 1 == 1 <==> k < 24 && (null_byte >> k) & 1 == 1)) by (bit_vector)
        requires
            k < 64,
            k24 == k + 24,
            high == (offset % 0x1_0000_0000) | ((null_byte / 0x100_0000) % 0x1_0000_0000),
            low == null_byte % 0x100_0000,
    ;
    lemma_mask_bits((null_bit % 8) as usize);
}

proof fn lemma_mask_bits(at: usize)
    requires
        at < 8,
    ensures
        forall|bit: u8|
            bit < 8 ==> (#[trigger] (((1u8 << at) >> bit) & 1) == 1 <==> bit == at),
{
    assert forall|bit: u8| bit < 8 implies (#[trigger] (((1u8 << at) >> bit) & 1) == 1 <==> bit
        == at) by {
        assert(((1u8 << at) >> bit) & 1 == 1 <==> bit == at) by (bit_vector)
            requires
                at < 8,
                bit < 8,
        ;
    }
}

/// The widths of the first `n` columns; they add up to where column `n` begins.
proof fn lemma_keys_sum(sizes: Seq<usize>, kinds: Seq<ColumnKind>, n: int) -> (widths: Seq<int>)
    requires
        0 <= n <= sizes.len(),
    ensures
        widths == Seq::new(
            n as nat,
            |k: int|
                if kinds[k] == ColumnKind::Fixed {
                    sizes[k] as int
                } else {
                    usize::BITS as int / 8
                },
        ),
        widths.fold_left(0int, |sum: int, width: int| sum + width)
            == crate::layout::column_offset(sizes, kinds, n),
    decreases n,
{
    let widths = Seq::new(
        n as nat,
        |k: int|
            if kinds[k] == ColumnKind::Fixed {
                sizes[k] as int
            } else {
                usize::BITS as int / 8
            },
    );
    if n > 0 {
        let shorter = lemma_keys_sum(sizes, kinds, n - 1);
        assert(widths.drop_last() =~= shorter);
    }
    widths
}

} // verus!
