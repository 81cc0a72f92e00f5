//! What holds across several operations on rows, containers and batches.
use crate::arena::ArenaSlice;
use crate::row_container::ColumnKind;
use crate::row_value::RowValue;
use vstd::prelude::*;

verus! {

// Values in a row.

/// A value that was stored is read back, and the row keeps its length.
pub proof fn law_read_after_store<T: RowValue>(row: Seq<u8>, offset: int, value: T)
    requires
        0 <= offset,
        offset + T::width() <= row.len(),
    ensures
        crate::row_container::with_value(row, offset, value).len() == row.len(),
        crate::row_container::value_at::<T>(
            crate::row_container::with_value(row, offset, value),
            offset,
        ) == value,
{
    let order = crate::byte_order::native();
    value.lemma_value_round_trip(order);
    assert(crate::row_container::with_value(row, offset, value).subrange(
        offset,
        offset + T::width(),
    ) =~= value.to_bytes(order));
}

/// Storing a value leaves the values that lie elsewhere as they are.
pub proof fn law_store_keeps_other_values<T: RowValue, U: RowValue>(
    row: Seq<u8>,
    offset: int,
    value: T,
    other: int,
)
    requires
        0 <= offset,
        offset + T::width() <= row.len(),
        0 <= other,
        other + U::width() <= row.len(),
        offset + T::width() <= other || other + U::width() <= offset,
    ensures
        crate::row_container::value_at::<U>(
            crate::row_container::with_value(row, offset, value),
            other,
        ) == crate::row_container::value_at::<U>(row, other),
{
    value.lemma_value_round_trip(crate::byte_order::native());
    assert(crate::row_container::with_value(row, offset, value).subrange(
        other,
        other + U::width(),
    ) =~= row.subrange(other, other + U::width()));
}

/// Storing what is there changes nothing.
pub proof fn law_store_of_read<T: RowValue>(row: Seq<u8>, offset: int)
    requires
        0 <= offset,
        offset + T::width() <= row.len(),
    ensures
        crate::row_container::with_value(
            row,
            offset,
            crate::row_container::value_at::<T>(row, offset),
        ) == row,
{
    let bytes = row.subrange(offset, offset + T::width());
    T::lemma_bytes_round_trip(bytes, crate::byte_order::native());
    assert(crate::byte_order::overwrite(row, offset, bytes) =~= row);
}

/// Of two values stored in one place the second stays.
pub proof fn law_store_twice<T: RowValue>(row: Seq<u8>, offset: int, first: T, second: T)
    requires
        0 <= offset,
        offset + T::width() <= row.len(),
    ensures
        crate::row_container::with_value(
            crate::row_container::with_value(row, offset, first),
            offset,
            second,
        ) == crate::row_container::with_value(row, offset, second),
{
    first.lemma_value_round_trip(crate::byte_order::native());
    second.lemma_value_round_trip(crate::byte_order::native());
    assert(crate::row_container::with_value(
        crate::row_container::with_value(row, offset, first),
        offset,
        second,
    ) =~= crate::row_container::with_value(row, offset, second));
}

// Null bits.

/// A column is null after its null bit was set, and not null after it was
/// cleared.
pub proof fn law_null_flag(row: Seq<u8>, at: int, mask: u8)
    requires
        0 <= at < row.len(),
        mask != 0,
    ensures
        crate::row_container::is_null(
            crate::row_container::with_null_set(row, at, mask),
            at,
            mask,
        ),
        !crate::row_container::is_null(
            crate::row_container::with_null_cleared(row, at, mask),
            at,
            mask,
        ),
{
    let byte = row[at];
    assert((byte | mask) & mask != 0) by (bit_vector)
        requires
            mask != 0,
    ;
    assert((byte & !mask) & mask == 0) by (bit_vector);
}

/// Clearing undoes setting, and setting undoes clearing.
pub proof fn law_null_flag_last_wins(row: Seq<u8>, at: int, mask: u8)
    requires
        0 <= at < row.len(),
    ensures
        crate::row_container::with_null_cleared(
            crate::row_container::with_null_set(row, at, mask),
            at,
            mask,
        ) == crate::row_container::with_null_cleared(row, at, mask),
        crate::row_container::with_null_set(
            crate::row_container::with_null_cleared(row, at, mask),
            at,
            mask,
        ) == crate::row_container::with_null_set(row, at, mask),
{
    let byte = row[at];
    assert((byte | mask) & !mask == byte & !mask && (byte & !mask) | mask == byte | mask)
        by (bit_vector);
    assert(crate::row_container::with_null_cleared(
        crate::row_container::with_null_set(row, at, mask),
        at,
        mask,
    ) =~= crate::row_container::with_null_cleared(row, at, mask));
    assert(crate::row_container::with_null_set(
        crate::row_container::with_null_cleared(row, at, mask),
        at,
        mask,
    ) =~= crate::row_container::with_null_set(row, at, mask));
}

/// Setting or clearing a null bit leaves all other null bits as they are.
pub proof fn law_null_flags_apart(row: Seq<u8>, at: int, mask: u8, other: int, other_mask: u8)
    requires
        0 <= at < row.len(),
        0 <= other < row.len(),
        at != other || mask & other_mask == 0,
    ensures
        crate::row_container::is_null(
            crate::row_container::with_null_set(row, at, mask),
            other,
            other_mask,
        ) == crate::row_container::is_null(row, other, other_mask),
        crate::row_container::is_null(
            crate::row_container::with_null_cleared(row, at, mask),
            other,
            other_mask,
        ) == crate::row_container::is_null(row, other, other_mask),
{
    if at == other {
        let byte = row[at];
        assert((byte | mask) & other_mask == byte & other_mask && (byte & !mask) & other_mask
            == byte & other_mask) by (bit_vector)
            requires
                mask & other_mask == 0,
        ;
    }
}

/// Storing a value leaves the null bits outside of it as they are, and setting
/// or clearing a null bit leaves the values that do not hold it as they are.
pub proof fn law_values_and_null_flags_apart<T: RowValue>(
    row: Seq<u8>,
    offset: int,
    value: T,
    at: int,
    mask: u8,
)
    requires
        0 <= offset,
        offset + T::width() <= row.len(),
        0 <= at < row.len(),
        at < offset || offset + T::width() <= at,
    ensures
        crate::row_container::is_null(
            crate::row_container::with_value(row, offset, value),
            at,
            mask,
        ) == crate::row_container::is_null(row, at, mask),
        crate::row_container::value_at::<T>(
            crate::row_container::with_null_set(row, at, mask),
            offset,
        ) == crate::row_container::value_at::<T>(row, offset),
        crate::row_container::value_at::<T>(
            crate::row_container::with_null_cleared(row, at, mask),
            offset,
        ) == crate::row_container::value_at::<T>(row, offset),
{
    value.lemma_value_round_trip(crate::byte_order::native());
    let end = offset + T::width();
    assert(crate::row_container::with_null_set(row, at, mask).subrange(offset, end)
        =~= row.subrange(offset, end));
    assert(crate::row_container::with_null_cleared(row, at, mask).subrange(offset, end)
        =~= row.subrange(offset, end));
}

// The layout of a row.

/// A descriptor gives back what was packed into it, as far as it fits: 32 bits
/// of offset and 24 bits of null byte.
pub proof fn law_unpack_after_pack(offset: nat, null_bit: nat, null_block_start: nat)
    requires
        offset < 0x1_0000_0000,
        null_block_start + null_bit / 8 < 0x100_0000,
    ensures
        crate::layout::packed_column(offset, null_bit, null_block_start) == (
        crate::layout::ColumnModel {
            offset,
            null_byte: null_block_start + null_bit / 8,
            null_mask: 1u8 << ((null_bit % 8) as usize),
        }),
{
    let o = offset as u64;
    assert(o | 0u64 == o) by (bit_vector);
}

/// A column lies before the null bits, its null bit lies before the aggregation
/// state, and all of them lie in the row.
pub proof fn law_column_in_row(
    sizes: Seq<usize>,
    kinds: Seq<ColumnKind>,
    agg_state_size: nat,
    i: int,
)
    requires
        0 <= i < sizes.len(),
        sizes.len() == kinds.len(),
        crate::layout::null_block_start(sizes, kinds) + i / 8 < 0x100_0000,
    ensures
        ({
            let container = crate::row_container::ContainerModel::fresh(
                sizes,
                kinds,
                agg_state_size,
            );
            let column = container.columns[i];
            let start = crate::layout::null_block_start(sizes, kinds);
            &&& column.offset == crate::layout::column_offset(sizes, kinds, i)
            &&& column.offset + crate::layout::column_width(sizes[i], kinds[i]) <= start
            &&& column.null_byte == start + i / 8
            &&& column.null_byte < container.agg_state_offset
            &&& container.agg_state_offset + agg_state_size == container.row_size
            &&& column.null_mask != 0
        }),
{
    let start = crate::layout::null_block_start(sizes, kinds);
    let bit = (i % 8) as usize;
    crate::layout::lemma_column_offset_monotone(sizes, kinds, i + 1, sizes.len() as int);
    law_unpack_after_pack(crate::layout::column_offset(sizes, kinds, i), i as nat, start);
    assert(1u8 << bit != 0) by (bit_vector)
        requires
            bit < 8,
    ;
}

/// Two columns have no byte and no null bit in common.
pub proof fn law_columns_apart(
    sizes: Seq<usize>,
    kinds: Seq<ColumnKind>,
    agg_state_size: nat,
    i: int,
    j: int,
)
    requires
        0 <= i < j < sizes.len(),
        sizes.len() == kinds.len(),
        crate::layout::null_block_start(sizes, kinds) + j / 8 < 0x100_0000,
    ensures
        ({
            let columns = crate::row_container::ContainerModel::fresh(
                sizes,
                kinds,
                agg_state_size,
            ).columns;
            &&& columns[i].offset + crate::layout::column_width(sizes[i], kinds[i])
                <= columns[j].offset
            &&& columns[i].null_byte != columns[j].null_byte || columns[i].null_mask
                & columns[j].null_mask == 0
        }),
{
    law_column_in_row(sizes, kinds, agg_state_size, i);
    law_column_in_row(sizes, kinds, agg_state_size, j);
    crate::layout::lemma_column_offset_monotone(sizes, kinds, i + 1, j);
    let a = (i % 8) as usize;
    let b = (j % 8) as usize;
    if i / 8 == j / 8 {
        assert((1u8 << a) & (1u8 << b) == 0) by (bit_vector)
            requires
                a < 8,
                b < 8,
                a != b,
        ;
    }
}

/// A value stored in its column, no wider than the column, leaves the value of
/// every other column, every null bit and the aggregation state as they are.
pub proof fn law_column_store_is_local<T: RowValue, U: RowValue>(
    sizes: Seq<usize>,
    kinds: Seq<ColumnKind>,
    agg_state_size: nat,
    i: int,
    j: int,
    row: Seq<u8>,
    value: T,
)
    requires
        sizes.len() == kinds.len(),
        0 <= i < sizes.len(),
        0 <= j < sizes.len(),
        crate::layout::null_block_start(sizes, kinds) + i / 8 < 0x100_0000,
        crate::layout::null_block_start(sizes, kinds) + j / 8 < 0x100_0000,
        row.len() == crate::layout::row_size(sizes, kinds, agg_state_size),
        T::width() <= crate::layout::column_width(sizes[i], kinds[i]),
        U::width() <= crate::layout::column_width(sizes[j], kinds[j]),
    ensures
        ({
            let container = crate::row_container::ContainerModel::fresh(
                sizes,
                kinds,
                agg_state_size,
            );
            let (ci, cj) = (container.columns[i], container.columns[j]);
            let after = crate::row_container::with_value(row, ci.offset as int, value);
            &&& crate::row_container::value_at::<T>(after, ci.offset as int) == value
            &&& i != j ==> crate::row_container::value_at::<U>(after, cj.offset as int)
                == crate::row_container::value_at::<U>(row, cj.offset as int)
            &&& crate::row_container::is_null(after, cj.null_byte as int, cj.null_mask)
                == crate::row_container::is_null(row, cj.null_byte as int, cj.null_mask)
            &&& after.skip(container.agg_state_offset as int) == row.skip(
                container.agg_state_offset as int,
            )
        }),
{
    let container = crate::row_container::ContainerModel::fresh(sizes, kinds, agg_state_size);
    let (ci, cj) = (container.columns[i], container.columns[j]);
    law_column_in_row(sizes, kinds, agg_state_size, i);
    law_column_in_row(sizes, kinds, agg_state_size, j);
    law_read_after_store(row, ci.offset as int, value);
    if i < j {
        law_columns_apart(sizes, kinds, agg_state_size, i, j);
    } else if j < i {
        law_columns_apart(sizes, kinds, agg_state_size, j, i);
    }
    if i != j {
        law_store_keeps_other_values::<T, U>(row, ci.offset as int, value, cj.offset as int);
    }
    law_values_and_null_flags_apart(
        row,
        ci.offset as int,
        value,
        cj.null_byte as int,
        cj.null_mask,
    );
    value.lemma_value_round_trip(crate::byte_order::native());
    assert(crate::row_container::with_value(row, ci.offset as int, value).skip(
        container.agg_state_offset as int,
    ) =~= row.skip(container.agg_state_offset as int));
}

// Containers.

/// A fresh container is valid.
pub proof fn law_fresh_is_valid(sizes: Seq<usize>, kinds: Seq<ColumnKind>, agg_state_size: nat)
    requires
        sizes.len() == kinds.len(),
        crate::layout::row_size(sizes, kinds, agg_state_size)
            * crate::row_container::BLOCK_ROWS <= isize::MAX,
    ensures
        crate::row_container::ContainerModel::fresh(sizes, kinds, agg_state_size).valid(),
{
    assert forall|i: int| 0 <= i < sizes.len() implies (
    #[trigger] crate::layout::packed_columns(sizes, kinds)[i]).null_byte
        < crate::layout::agg_state_offset(sizes, kinds) && crate::layout::packed_columns(
        sizes,
        kinds,
    )[i].null_mask != 0 by {
        crate::layout::lemma_packed_null_bit(sizes, kinds, i);
    }
}

/// Every operation on a valid container leaves a valid one.
pub proof fn law_valid_is_kept(
    container: crate::row_container::ContainerModel,
    index: int,
    bytes: Seq<u8>,
    size: nat,
    slice: ArenaSlice,
    slice_bytes: Seq<u8>,
)
    requires
        container.valid(),
    ensures
        container.with_row().valid(),
        0 <= index < container.rows.len() && bytes.len() == container.row_size
            ==> container.with_row_bytes(index, bytes).valid(),
        size <= isize::MAX ==> container.with_allocation(size).valid(),
        container.arena.in_use(slice) && slice_bytes.len() == slice.len
            ==> container.with_arena_bytes(slice, slice_bytes).valid(),
{
    if size <= isize::MAX {
        lemma_allocated_valid(container.arena, size);
    }
    if container.arena.in_use(slice) && slice_bytes.len() == slice.len {
        law_arena_write_is_local(container.arena, slice, slice_bytes, slice);
    }
}

/// A row keeps its number and its bytes while rows are added, other rows are
/// written and strings are allocated and written; bytes written to it are its
/// bytes.
pub proof fn law_rows_are_stable(
    container: crate::row_container::ContainerModel,
    i: int,
    other: int,
    bytes: Seq<u8>,
    size: nat,
    slice: ArenaSlice,
    slice_bytes: Seq<u8>,
)
    requires
        0 <= i < container.rows.len(),
    ensures
        container.with_row().rows[i] == container.rows[i],
        0 <= other < container.rows.len() && other != i ==> container.with_row_bytes(
            other,
            bytes,
        ).rows[i] == container.rows[i],
        container.with_row_bytes(i, bytes).rows[i] == bytes,
        container.with_allocation(size).rows[i] == container.rows[i],
        container.with_arena_bytes(slice, slice_bytes).rows[i] == container.rows[i],
{
}

/// No operation changes the layout of the rows.
pub proof fn law_layout_is_kept(
    container: crate::row_container::ContainerModel,
    index: int,
    bytes: Seq<u8>,
    size: nat,
    slice: ArenaSlice,
    slice_bytes: Seq<u8>,
)
    ensures
        same_layout(container.with_row(), container),
        same_layout(container.with_row_bytes(index, bytes), container),
        same_layout(container.with_allocation(size), container),
        same_layout(container.with_arena_bytes(slice, slice_bytes), container),
{
}

/// Whether two containers lay out their rows in the same way.
pub open spec fn same_layout(
    a: crate::row_container::ContainerModel,
    b: crate::row_container::ContainerModel,
) -> bool {
    &&& a.columns == b.columns
    &&& a.kinds == b.kinds
    &&& a.agg_state_offset == b.agg_state_offset
    &&& a.row_size == b.row_size
}

/// The blocks counted as needed for some more rows are the blocks that the
/// container has more once it holds them.
pub proof fn law_needed_blocks_are_added(
    before: crate::row_container::ContainerModel,
    after: crate::row_container::ContainerModel,
    additional: nat,
    needed: nat,
)
    requires
        before.valid(),
        after.valid(),
        after.rows.len() == before.rows.len() + additional,
        additional <= before.rows_left() + needed * crate::row_container::BLOCK_ROWS,
        needed > 0 ==> before.rows_left() + (needed - 1) * crate::row_container::BLOCK_ROWS
            < additional,
    ensures
        after.blocks == before.blocks + needed,
{
}

/// No column of a new row is null.
pub proof fn law_new_row_is_not_null(
    container: crate::row_container::ContainerModel,
    at: int,
    mask: u8,
)
    requires
        0 <= at < container.row_size,
    ensures
        !crate::row_container::is_null(
            container.with_row().rows[container.rows.len() as int],
            at,
            mask,
        ),
{
    assert(0u8 & mask == 0) by (bit_vector);
}

// The arena.

proof fn lemma_allocated_valid(arena: crate::arena::ArenaModel, size: nat)
    requires
        arena.valid(),
        size <= isize::MAX,
    ensures
        arena.allocated(size).valid(),
{
    let after = arena.allocated(size);
    if !arena.opens_block(size) {
        assert(arena.blocks[arena.current as int].len()
            >= crate::arena::VARCHAR_ARENA_BLOCK_SIZE);
    }
}

/// The bytes that an allocation hands out are zero and apart from those handed
/// out before, which stay in their place and as they are.
pub proof fn law_allocation_is_fresh(
    arena: crate::arena::ArenaModel,
    slice: ArenaSlice,
    earlier: ArenaSlice,
)
    requires
        arena.valid(),
        arena.hands_out(slice.len as nat, slice),
    ensures
        ({
            let after = arena.allocated(slice.len as nat);
            &&& after.in_use(slice)
            &&& after.bytes(slice) == crate::arena::zeros(slice.len as nat)
            &&& arena.in_use(earlier) ==> {
                &&& crate::arena::ArenaModel::apart(earlier, slice)
                &&& after.in_use(earlier)
                &&& after.bytes(earlier) == arena.bytes(earlier)
            }
        }),
{
    let after = arena.allocated(slice.len as nat);
    if !arena.opens_block(slice.len as nat) {
        assert(arena.blocks[arena.current as int].len()
            >= crate::arena::VARCHAR_ARENA_BLOCK_SIZE);
    }
    assert(after.bytes(slice) =~= crate::arena::zeros(slice.len as nat));
    if arena.in_use(earlier) {
        assert(after.bytes(earlier) =~= arena.bytes(earlier));
    }
}

/// An allocation gives zero bytes apart from all earlier ones, and leaves those,
/// every row, the blocks of rows and the layout as they are.
pub proof fn law_allocation_disturbs_nothing(
    container: crate::row_container::ContainerModel,
    slice: ArenaSlice,
    earlier: ArenaSlice,
)
    requires
        container.valid(),
        container.arena.hands_out(slice.len as nat, slice),
    ensures
        ({
            let after = container.with_allocation(slice.len as nat);
            &&& after.arena.in_use(slice)
            &&& after.arena.bytes(slice) == crate::arena::zeros(slice.len as nat)
            &&& container.arena.in_use(earlier) ==> {
                &&& crate::arena::ArenaModel::apart(earlier, slice)
                &&& after.arena.in_use(earlier)
                &&& after.arena.bytes(earlier) == container.arena.bytes(earlier)
            }
            &&& after.rows == container.rows
            &&& after.blocks == container.blocks
            &&& same_layout(after, container)
        }),
{
    law_allocation_is_fresh(container.arena, slice, earlier);
}

/// Adding and writing rows leaves every string in its place and as it is.
pub proof fn law_strings_are_stable(
    container: crate::row_container::ContainerModel,
    index: int,
    bytes: Seq<u8>,
    slice: ArenaSlice,
)
    requires
        container.arena.in_use(slice),
    ensures
        container.with_row().arena.in_use(slice),
        container.with_row().arena.bytes(slice) == container.arena.bytes(slice),
        container.with_row_bytes(index, bytes).arena.in_use(slice),
        container.with_row_bytes(index, bytes).arena.bytes(slice) == container.arena.bytes(slice),
{
}

/// Bytes written to a slice are read back from it, and slices apart from it keep
/// theirs.
pub proof fn law_arena_write_is_local(
    arena: crate::arena::ArenaModel,
    slice: ArenaSlice,
    bytes: Seq<u8>,
    other: ArenaSlice,
)
    requires
        arena.valid(),
        arena.in_use(slice),
        bytes.len() == slice.len,
    ensures
        arena.with_bytes(slice, bytes).valid(),
        arena.with_bytes(slice, bytes).bytes(slice) == bytes,
        arena.in_use(other) ==> {
            &&& arena.with_bytes(slice, bytes).in_use(other)
            &&& crate::arena::ArenaModel::apart(slice, other) ==> arena.with_bytes(
                slice,
                bytes,
            ).bytes(other) == arena.bytes(other)
        },
{
    let after = arena.with_bytes(slice, bytes);
    assert(after.bytes(slice) =~= bytes);
    if arena.in_use(other) && crate::arena::ArenaModel::apart(slice, other) {
        assert(after.bytes(other) =~= arena.bytes(other));
    }
    let current = arena.current as int;
    assert forall|k: int| after.offset <= k < after.blocks[current].len() implies
        #[trigger] after.blocks[current][k] == 0 by {
        assert(arena.blocks[current][k] == 0);
    }
}

// Batches.

pub proof fn lemma_left_behind(s: Seq<u32>, p: spec_fn(u32) -> bool)
    ensures
        forall|i: int|
            0 <= i < crate::batch_compare::left_behind(s, p).len() ==> !p(
                #[trigger] crate::batch_compare::left_behind(s, p)[i],
            ),
        s.filter(p).to_multiset().add(crate::batch_compare::left_behind(s, p).to_multiset())
            =~= s.to_multiset(),
    decreases s.len(),
{
    broadcast use vstd::seq_lib::group_to_multiset_ensures;

    reveal(Seq::filter);
    if s.len() > 0 {
        let shorter = s.drop_last();
        let back = crate::batch_compare::left_behind(shorter, p);
        lemma_left_behind(shorter, p);
        assert(s =~= shorter.push(s.last()));
        if p(s.last()) && back.len() > 0 {
            assert(back =~= seq![back.first()] + back.drop_first());
            vstd::seq_lib::lemma_multiset_commutative(
                seq![back.first()],
                back.drop_first(),
            );
            assert(crate::batch_compare::rotated(back) =~= back.drop_first() + seq![back.first()]);
            vstd::seq_lib::lemma_multiset_commutative(
                back.drop_first(),
                seq![back.first()],
            );
        }
    }
}

/// A comparison moves the row numbers about and loses none.
pub proof fn law_comparison_permutes(s: Seq<u32>, count: int, p: spec_fn(u32) -> bool)
    requires
        0 <= count <= s.len(),
    ensures
        crate::batch_compare::fronted(s, count, p).to_multiset() == s.to_multiset(),
{
    let head = s.take(count);
    let front = head.filter(p);
    let back = crate::batch_compare::left_behind(head, p);
    lemma_left_behind(head, p);
    vstd::seq_lib::lemma_multiset_commutative(front, back);
    vstd::seq_lib::lemma_multiset_commutative(front + back, s.skip(count));
    vstd::seq_lib::lemma_multiset_commutative(head, s.skip(count));
    assert(s =~= head + s.skip(count));
}

/// After a comparison, the rows that differ come first, in the order in which
/// they were; those that agree come next; and the row numbers behind the first
/// `count` are as they were.
pub proof fn law_comparison_partitions(s: Seq<u32>, count: int, p: spec_fn(u32) -> bool)
    requires
        0 <= count <= s.len(),
    ensures
        ({
            let after = crate::batch_compare::fronted(s, count, p);
            let unequal = crate::batch_compare::matching(s, count, p) as int;
            &&& after.len() == s.len()
            &&& unequal <= count
            &&& after.take(unequal) == s.take(count).filter(p)
            &&& forall|i: int| 0 <= i < unequal ==> p(#[trigger] after[i])
            &&& forall|i: int| unequal <= i < count ==> !p(#[trigger] after[i])
            &&& forall|i: int| count <= i < s.len() ==> #[trigger] after[i] == s[i]
        }),
{
    let head = s.take(count);
    let front = head.filter(p);
    let back = crate::batch_compare::left_behind(head, p);
    let after = crate::batch_compare::fronted(s, count, p);
    crate::batch_compare::lemma_parts_len(head, p);
    lemma_left_behind(head, p);
    broadcast use vstd::seq_lib::group_filter_ensures;

    assert(after.take(front.len() as int) =~= front);
    assert forall|i: int| 0 <= i < front.len() implies p(#[trigger] after[i]) by {
        assert(after[i] == front[i]);
    }
    assert forall|i: int| front.len() <= i < count implies !p(#[trigger] after[i]) by {
        assert(after[i] == back[i - front.len()]);
    }
}

/// Comparing once more, the same rows or fewer, moves none, and finds as many as
/// before, or all that were asked for where they are fewer.
pub proof fn law_comparison_is_idempotent(
    s: Seq<u32>,
    count: int,
    again: int,
    p: spec_fn(u32) -> bool,
)
    requires
        0 <= again <= count <= s.len(),
    ensures
        ({
            let after = crate::batch_compare::fronted(s, count, p);
            let unequal = crate::batch_compare::matching(s, count, p) as int;
            &&& crate::batch_compare::fronted(after, again, p) == after
            &&& crate::batch_compare::matching(after, again, p) == (if again < unequal {
                again
            } else {
                unequal
            })
        }),
{
    let after = crate::batch_compare::fronted(s, count, p);
    let unequal = crate::batch_compare::matching(s, count, p) as int;
    let split = if again < unequal {
        again
    } else {
        unequal
    };
    law_comparison_partitions(s, count, p);
    lemma_parted_stays(after, again, split, p);
}

/// Comparing row numbers of which those that differ are in front moves none.
proof fn lemma_parted_stays(s: Seq<u32>, count: int, k: int, p: spec_fn(u32) -> bool)
    requires
        0 <= k <= count <= s.len(),
        forall|i: int| 0 <= i < k ==> p(#[trigger] s[i]),
        forall|i: int| k <= i < count ==> !p(#[trigger] s[i]),
    ensures
        crate::batch_compare::fronted(s, count, p) == s,
        crate::batch_compare::matching(s, count, p) == k,
{
    lemma_parted(s.take(count), k, p);
    lemma_three_parts(s, count, k);
}

proof fn lemma_three_parts(s: Seq<u32>, count: int, k: int)
    requires
        0 <= k <= count <= s.len(),
    ensures
        s.take(count).take(k) + s.take(count).skip(k) + s.skip(count) == s,
{
    let parts = s.take(count).take(k) + s.take(count).skip(k) + s.skip(count);
    assert(parts.len() == s.len());
    assert forall|i: int| 0 <= i < s.len() implies parts[i] == s[i] by {}
    assert(parts =~= s);
}

/// Items with `p` in front of items without `p` are parted as they are.
proof fn lemma_parted(s: Seq<u32>, k: int, p: spec_fn(u32) -> bool)
    requires
        0 <= k <= s.len(),
        forall|i: int| 0 <= i < k ==> p(#[trigger] s[i]),
        forall|i: int| k <= i < s.len() ==> !p(#[trigger] s[i]),
    ensures
        s.filter(p) == s.take(k),
        crate::batch_compare::left_behind(s, p) == s.skip(k),
    decreases s.len(),
{
    if k == s.len() {
        lemma_filter_of_all(s, p);
        crate::batch_compare::lemma_parts_len(s, p);
        assert(s.take(k) =~= s);
        assert(crate::batch_compare::left_behind(s, p) =~= s.skip(k));
    } else {
        reveal(Seq::filter);
        let shorter = s.drop_last();
        lemma_parted(shorter, k, p);
        assert(shorter.take(k) =~= s.take(k));
        assert(shorter.skip(k).push(s.last()) =~= s.skip(k));
    }
}

/// Where no row differs, a comparison finds none and moves none.
pub proof fn law_comparison_of_equal_rows(s: Seq<u32>, count: int, p: spec_fn(u32) -> bool)
    requires
        0 <= count <= s.len(),
        forall|i: int| 0 <= i < count ==> !p(#[trigger] s[i]),
    ensures
        crate::batch_compare::fronted(s, count, p) == s,
        crate::batch_compare::matching(s, count, p) == 0,
{
    lemma_parted_stays(s, count, 0, p);
}

/// Where every row differs, a comparison finds all of them and moves none.
pub proof fn law_comparison_of_unequal_rows(s: Seq<u32>, count: int, p: spec_fn(u32) -> bool)
    requires
        0 <= count <= s.len(),
        forall|i: int| 0 <= i < count ==> p(#[trigger] s[i]),
    ensures
        crate::batch_compare::fronted(s, count, p) == s,
        crate::batch_compare::matching(s, count, p) == count,
{
    lemma_parted_stays(s, count, count, p);
}

proof fn lemma_filter_of_all(s: Seq<u32>, p: spec_fn(u32) -> bool)
    requires
        forall|i: int| 0 <= i < s.len() ==> p(#[trigger] s[i]),
    ensures
        s.filter(p) == s,
    decreases s.len(),
{
    reveal(Seq::filter);
    if s.len() > 0 {
        lemma_filter_of_all(s.drop_last(), p);
        assert(s =~= s.drop_last().push(s.last()));
    }
}

} // verus!
