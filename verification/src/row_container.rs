//! Row-oriented storage for group keys and aggregation state.
use crate::arena::{ArenaSlice, VARCHAR_ARENA_BLOCK_SIZE};
use crate::byte_order::native_order;
use crate::row_value::RowValue;
use vstd::prelude::*;

verus! {

/// How many rows a block holds.
pub const BLOCK_ROWS: usize = 1024;

/// How many bytes a varchar column takes in a row: the size of a pointer.
pub const VARCHAR_SLOT_SIZE: usize = (usize::BITS / 8) as usize;

/// Column kind.
#[derive(Clone, Copy, PartialEq, Eq, Structural, Debug)]
pub enum ColumnKind {
    /// A value of fixed width, kept in the row.
    Fixed,
    /// A string, kept in the arena and found through a slot in the row.
    Varchar,
}

/// Offset, null byte offset and null mask of a column, packed into 64 bits.
#[derive(Clone, Copy)]
pub struct RowColumn {
    packed: u64,
}

impl View for RowColumn {
    type V = crate::layout::ColumnModel;

    closed spec fn view(&self) -> crate::layout::ColumnModel {
        crate::layout::ColumnModel {
            offset: (self.packed >> 32) as nat,
            null_byte: ((self.packed >> 8) & 0x00FF_FFFF) as nat,
            null_mask: (self.packed & 0xFF) as u8,
        }
    }
}

impl RowColumn {
    /// Packs a column's offset and the place of its null bit, which is bit
    /// number `null_bit_offset` of the null bits that begin at
    /// `null_block_start`.
    pub fn pack(offset: usize, null_bit_offset: usize, null_block_start: usize) -> (column: Self)
        requires
            null_block_start + null_bit_offset / 8 <= usize::MAX,
        ensures
            column@ == crate::layout::packed_column(
                offset as nat,
                null_bit_offset as nat,
                null_block_start as nat,
            ),
    {
        let null_byte = null_block_start + null_bit_offset / 8;
        assert(null_bit_offset & 7 == null_bit_offset % 8) by (bit_vector);
        let null_mask: u8 = 1u8 << (null_bit_offset & 7);
        let packed = ((offset as u64) << 32) | ((null_byte as u64) << 8) | (null_mask as u64);
        proof {
            let o = offset as u64;
            let n = null_byte as u64;
            let m = null_mask as u64;
            assert(packed >> 32 == (o % 0x1_0000_0000) | ((n / 0x100_0000) % 0x1_0000_0000)
                && (packed >> 8) & 0x00FF_FFFF == n % 0x100_0000 && packed & 0xFF == m)
                by (bit_vector)
                requires
                    m < 0x100,
                    packed == (o << 32) | (n << 8) | m,
            ;
        }
        RowColumn { packed }
    }

    /// Where in a row the column's value begins.
    #[inline(always)]
    pub fn offset(&self) -> (offset: usize)
        ensures
            offset == self@.offset,
    {
        let packed = self.packed;
        assert(packed >> 32 <= 0xFFFF_FFFF) by (bit_vector);
        (self.packed >> 32) as usize
    }

    /// Which byte of a row holds the column's null bit.
    #[inline(always)]
    pub fn null_byte(&self) -> (null_byte: usize)
        ensures
            null_byte == self@.null_byte,
    {
        let packed = self.packed;
        assert((packed >> 8) & 0x00FF_FFFF <= 0x00FF_FFFF) by (bit_vector);
        ((self.packed >> 8) & 0x00FF_FFFF) as usize
    }

    /// The column's null bit in that byte.
    #[inline(always)]
    pub fn null_mask(&self) -> (null_mask: u8)
        ensures
            null_mask == self@.null_mask,
    {
        (self.packed & 0xFF) as u8
    }
}

/// What a container holds: the layout of its rows, the rows in the order in
/// which they were added, the number of blocks they lie in, and the string arena.
#[verifier::ext_equal]
pub struct ContainerModel {
    pub columns: Seq<crate::layout::ColumnModel>,
    pub kinds: Seq<ColumnKind>,
    pub agg_state_offset: nat,
    pub row_size: nat,
    pub rows: Seq<Seq<u8>>,
    pub blocks: nat,
    pub arena: crate::arena::ArenaModel,
}

impl ContainerModel {
    /// A container with one block and without rows, laid out for keys of the
    /// given sizes and kinds. Its arena has a block where there is a varchar
    /// column.
    pub open spec fn fresh(
        sizes: Seq<usize>,
        kinds: Seq<ColumnKind>,
        agg_state_size: nat,
    ) -> ContainerModel {
        ContainerModel {
            columns: crate::layout::packed_columns(sizes, kinds),
            kinds,
            agg_state_offset: crate::layout::agg_state_offset(sizes, kinds),
            row_size: crate::layout::row_size(sizes, kinds, agg_state_size),
            rows: seq![],
            blocks: 1,
            arena: crate::arena::ArenaModel::fresh(kinds.contains(ColumnKind::Varchar)),
        }
    }

    /// The container with one more row, all of its bytes zero. Where no block has
    /// room for it, there is one more block.
    pub open spec fn with_row(self) -> ContainerModel {
        ContainerModel {
            rows: self.rows.push(crate::arena::zeros(self.row_size)),
            blocks: if self.rows_left() == 0 {
                self.blocks + 1
            } else {
                self.blocks
            },
            ..self
        }
    }

    /// The container with `bytes` in the place of row `index`.
    pub open spec fn with_row_bytes(self, index: int, bytes: Seq<u8>) -> ContainerModel {
        ContainerModel { rows: self.rows.update(index, bytes), ..self }
    }

    /// The container after an arena allocation.
    pub open spec fn with_allocation(self, size: nat) -> ContainerModel {
        ContainerModel { arena: self.arena.allocated(size), ..self }
    }

    /// The container with `bytes` in the place of an arena slice.
    pub open spec fn with_arena_bytes(self, slice: ArenaSlice, bytes: Seq<u8>) -> ContainerModel {
        ContainerModel { arena: self.arena.with_bytes(slice, bytes), ..self }
    }

    /// How many more rows the blocks can take.
    pub open spec fn rows_left(self) -> int {
        self.blocks * BLOCK_ROWS - self.rows.len()
    }

    /// What holds of every container.
    pub open spec fn valid(self) -> bool {
        &&& self.columns.len() == self.kinds.len()
        &&& forall|i: int|
            0 <= i < self.columns.len() ==> (#[trigger] self.columns[i]).null_byte
                < self.agg_state_offset && self.columns[i].null_mask != 0
        &&& self.agg_state_offset <= self.row_size
        &&& self.row_size * BLOCK_ROWS <= isize::MAX
        &&& forall|i: int|
            0 <= i < self.rows.len() ==> (#[trigger] self.rows[i]).len() == self.row_size
        &&& self.blocks > 0
        &&& 0 <= self.rows_left() <= BLOCK_ROWS
        &&& self.rows_left() == BLOCK_ROWS ==> self.rows.len() == 0
        &&& self.arena.valid()
    }
}

/// Stores group rows in blocks of a fixed number of rows.
///
/// A row is named by its number. A block is never moved or resized, so a row
/// keeps its number and its bytes while others are added.
pub struct RowContainer {
    blocks: Vec<Vec<u8>>,
    row_size: usize,
    columns: Vec<RowColumn>,
    column_kinds: Vec<ColumnKind>,
    agg_state_offset: usize,
    num_keys: usize,
    num_rows: usize,
    current_block_idx: usize,
    current_row_in_block: usize,
    varchar_arena_blocks: Vec<Vec<u8>>,
    varchar_arena_current_block: usize,
    varchar_arena_offset: usize,
}

/// The bytes of row `index`, which lies in block `index / BLOCK_ROWS`.
spec fn row_in_blocks(blocks: Seq<Vec<u8>>, row_size: nat, index: int) -> Seq<u8> {
    let start = (index % BLOCK_ROWS as int) * row_size;
    blocks[index / BLOCK_ROWS as int]@.subrange(start, start + row_size)
}

impl View for RowContainer {
    type V = ContainerModel;

    closed spec fn view(&self) -> ContainerModel {
        ContainerModel {
            columns: Seq::new(self.columns@.len(), |i: int| self.columns@[i]@),
            kinds: self.column_kinds@,
            agg_state_offset: self.agg_state_offset as nat,
            row_size: self.row_size as nat,
            rows: Seq::new(
                self.num_rows as nat,
                |i: int| row_in_blocks(self.blocks@, self.row_size as nat, i),
            ),
            blocks: self.blocks@.len(),
            arena: crate::arena::ArenaModel {
                blocks: Seq::new(
                    self.varchar_arena_blocks@.len(),
                    |b: int| self.varchar_arena_blocks@[b]@,
                ),
                current: self.varchar_arena_current_block as nat,
                offset: self.varchar_arena_offset as nat,
            },
        }
    }
}

impl RowContainer {
    /// What every operation keeps.
    pub closed spec fn wf(&self) -> bool {
        &&& self.columns@.len() == self.num_keys
        &&& self.column_kinds@.len() == self.num_keys
        &&& forall|i: int|
            0 <= i < self.columns@.len() ==> (#[trigger] self.columns@[i])@.null_byte
                < self.agg_state_offset && self.columns@[i]@.null_mask != 0
        &&& self.agg_state_offset <= self.row_size
        &&& self.row_size * BLOCK_ROWS <= isize::MAX
        &&& self.blocks_wf()
        &&& self@.arena.valid()
    }

    /// All blocks but the last are full, and what is left of the last is zero.
    spec fn blocks_wf(&self) -> bool {
        &&& self.blocks@.len() > 0
        &&& self.current_block_idx == self.blocks@.len() - 1
        &&& self.current_row_in_block <= BLOCK_ROWS
        &&& self.num_rows == self.current_block_idx * BLOCK_ROWS + self.current_row_in_block
        &&& self.current_row_in_block == 0 ==> self.current_block_idx == 0
        &&& forall|b: int|
            0 <= b < self.blocks@.len() ==> (#[trigger] self.blocks@[b])@.len() == self.row_size
                * BLOCK_ROWS
        &&& forall|k: int|
            self.current_row_in_block * self.row_size <= k < self.row_size * BLOCK_ROWS
                ==> #[trigger] self.blocks@[self.current_block_idx as int]@[k] == 0
    }

    /// Whether `after` differs from the container in the bytes of row `index`.
    spec fn row_replaced(&self, after: RowContainer, index: int, bytes: Seq<u8>) -> bool {
        let b = index / BLOCK_ROWS as int;
        let start = (index % BLOCK_ROWS as int) * self.row_size;
        &&& bytes.len() == self.row_size
        &&& after == (RowContainer { blocks: after.blocks, ..*self })
        &&& after.blocks@.len() == self.blocks@.len()
        &&& forall|c: int|
            0 <= c < self.blocks@.len() && c != b ==> after.blocks@[c] == self.blocks@[c]
        &&& after.blocks@[b]@ == crate::byte_order::overwrite(self.blocks@[b]@, start, bytes)
    }

    /// Whether `after` differs from the container in the bytes of an arena slice.
    spec fn arena_slice_replaced(
        &self,
        after: RowContainer,
        slice: ArenaSlice,
        bytes: Seq<u8>,
    ) -> bool {
        let b = slice.block as int;
        &&& bytes.len() == slice.len
        &&& after == (RowContainer { varchar_arena_blocks: after.varchar_arena_blocks, ..*self })
        &&& after.varchar_arena_blocks@.len() == self.varchar_arena_blocks@.len()
        &&& forall|c: int|
            0 <= c < self.varchar_arena_blocks@.len() && c != b ==> after.varchar_arena_blocks@[c]
                == self.varchar_arena_blocks@[c]
        &&& after.varchar_arena_blocks@[b]@ == crate::byte_order::overwrite(
            self.varchar_arena_blocks@[b]@,
            slice.offset as int,
            bytes,
        )
    }

    /// A well-formed container is valid.
    pub proof fn lemma_valid(&self)
        requires
            self.wf(),
        ensures
            self@.valid(),
    {
        assert forall|i: int| 0 <= i < self@.rows.len() implies (#[trigger] self@.rows[i]).len()
            == self@.row_size by {
            lemma_row_in_block(self.row_size as int, i % BLOCK_ROWS as int);
        }
    }

    /// Create with all fixed-width columns.
    pub fn new(key_sizes: &[usize], agg_state_size: usize) -> (container: Self)
        requires
            crate::layout::row_size(
                key_sizes@,
                Seq::new(key_sizes@.len(), |i: int| ColumnKind::Fixed),
                agg_state_size as nat,
            ) * BLOCK_ROWS <= isize::MAX,
        ensures
            container.wf(),
            container@ == ContainerModel::fresh(
                key_sizes@,
                Seq::new(key_sizes@.len(), |i: int| ColumnKind::Fixed),
                agg_state_size as nat,
            ),
    {
        let kinds = vec![ColumnKind::Fixed; key_sizes.len()];
        assert(kinds@ =~= Seq::new(key_sizes@.len(), |i: int| ColumnKind::Fixed));
        Self::with_kinds(key_sizes, kinds.as_slice(), agg_state_size)
    }

    /// Create with explicit column kinds.
    pub fn with_kinds(
        key_sizes: &[usize],
        kinds: &[ColumnKind],
        agg_state_size: usize,
    ) -> (container: Self)
        requires
            key_sizes@.len() == kinds@.len(),
            crate::layout::row_size(key_sizes@, kinds@, agg_state_size as nat) * BLOCK_ROWS
                <= isize::MAX,
        ensures
            container.wf(),
            container@ == ContainerModel::fresh(key_sizes@, kinds@, agg_state_size as nat),
    {
        let num_keys = key_sizes.len();

        let mut offsets: Vec<usize> = Vec::with_capacity(num_keys);
        let mut cur_offset: usize = 0;
        let mut has_varchar = false;
        let mut i: usize = 0;
        while i < num_keys
            invariant
                i <= num_keys,
                num_keys == key_sizes@.len(),
                num_keys == kinds@.len(),
                crate::layout::null_block_start(key_sizes@, kinds@) <= isize::MAX,
                cur_offset == crate::layout::column_offset(key_sizes@, kinds@, i as int),
                offsets@.len() == i,
                forall|j: int|
                    0 <= j < i ==> #[trigger] offsets@[j] == crate::layout::column_offset(
                        key_sizes@,
                        kinds@,
                        j,
                    ),
                has_varchar <==> kinds@.take(i as int).contains(ColumnKind::Varchar),
            decreases num_keys - i,
        {
            offsets.push(cur_offset);
            let width = match kinds[i] {
                ColumnKind::Fixed => key_sizes[i],
                ColumnKind::Varchar => VARCHAR_SLOT_SIZE,
            };
            proof {
                crate::layout::lemma_column_offset_monotone(
                    key_sizes@,
                    kinds@,
                    i + 1,
                    num_keys as int,
                );
                let seen = kinds@.take(i as int);
                let next = kinds@.take(i + 1);
                assert(next =~= seen.push(kinds@[i as int]));
                assert(next[i as int] == kinds@[i as int]);
                assert(forall|j: int| 0 <= j < i ==> #[trigger] next[j] == seen[j]);
                assert(next.contains(ColumnKind::Varchar) <==> seen.contains(ColumnKind::Varchar)
                    || kinds@[i as int] == ColumnKind::Varchar);
            }
            cur_offset = cur_offset + width;
            has_varchar = has_varchar || kinds[i] == ColumnKind::Varchar;
            i = i + 1;
        }
        assert(kinds@.take(num_keys as int) =~= kinds@);

        let null_block_start = cur_offset;
        let null_bytes = (num_keys + 7) / 8;
        let agg_state_offset = null_block_start + null_bytes;
        let row_size = agg_state_offset + agg_state_size;

        let mut columns: Vec<RowColumn> = Vec::with_capacity(num_keys);
        let mut i: usize = 0;
        while i < num_keys
            invariant
                i <= num_keys,
                num_keys == key_sizes@.len(),
                offsets@.len() == num_keys,
                null_block_start == crate::layout::null_block_start(key_sizes@, kinds@),
                null_block_start + (num_keys + 7) / 8 <= isize::MAX,
                forall|j: int|
                    0 <= j < num_keys ==> #[trigger] offsets@[j] == crate::layout::column_offset(
                        key_sizes@,
                        kinds@,
                        j,
                    ),
                columns@.len() == i,
                forall|j: int|
                    0 <= j < i ==> (#[trigger] columns@[j])@ == crate::layout::packed_columns(
                        key_sizes@,
                        kinds@,
                    )[j],
            decreases num_keys - i,
        {
            columns.push(RowColumn::pack(offsets[i], i, null_block_start));
            i = i + 1;
        }

        let first_block = vec![0u8; row_size * BLOCK_ROWS];
        let mut varchar_arena_blocks: Vec<Vec<u8>> = Vec::new();
        if has_varchar {
            varchar_arena_blocks.push(vec![0u8; VARCHAR_ARENA_BLOCK_SIZE]);
        }
        let container = RowContainer {
            blocks: vec![first_block],
            row_size,
            columns,
            column_kinds: vstd::slice::slice_to_vec(kinds),
            agg_state_offset,
            num_keys,
            num_rows: 0,
            current_block_idx: 0,
            current_row_in_block: 0,
            varchar_arena_blocks,
            varchar_arena_current_block: 0,
            varchar_arena_offset: 0,
        };
        proof {
            let fresh = ContainerModel::fresh(key_sizes@, kinds@, agg_state_size as nat);
            assert(container@.columns =~= fresh.columns);
            assert forall|j: int| 0 <= j < num_keys implies (
            #[trigger] container.columns@[j])@.null_byte < container.agg_state_offset
                && container.columns@[j]@.null_mask != 0 by {
                crate::layout::lemma_packed_null_bit(key_sizes@, kinds@, j);
                assert(container@.columns[j] == container.columns@[j]@);
            }
            assert(container@.arena.blocks =~~= fresh.arena.blocks);
            assert(container@ =~~= fresh);
        }
        container
    }

    /// Adds a row, all of its bytes zero, and returns its number. The number
    /// stays valid, and the rows before it stay as they are.
    pub fn new_row(&mut self) -> (index: usize)
        requires
            old(self).wf(),
            old(self)@.rows.len() < usize::MAX,
        ensures
            final(self).wf(),
            final(self)@ == old(self)@.with_row(),
            index == old(self)@.rows.len(),
    {
        let ghost before = *self;
        if self.current_row_in_block >= BLOCK_ROWS {
            let new_block = vec![0u8; self.row_size * BLOCK_ROWS];
            self.blocks.push(new_block);
            self.current_block_idx = self.blocks.len() - 1;
            self.current_row_in_block = 0;
        }
        let index = self.num_rows;
        proof {
            let size = self.row_size as int;
            let r = self.current_row_in_block as int;
            assert(index as int / BLOCK_ROWS as int == self.current_block_idx);
            assert(index as int % BLOCK_ROWS as int == r);
            lemma_row_in_block(size, r);
            assert(row_in_blocks(self.blocks@, size as nat, index as int)
                =~= crate::arena::zeros(size as nat));
        }
        self.current_row_in_block = self.current_row_in_block + 1;
        self.num_rows = self.num_rows + 1;
        proof {
            let size = self.row_size as nat;
            assert forall|i: int| 0 <= i < index implies row_in_blocks(self.blocks@, size, i)
                == row_in_blocks(before.blocks@, size, i) by {}
            assert(self@ =~~= before@.with_row());
        }
        index
    }

    /// How many more blocks it takes to hold `additional` more rows: the fewest
    /// that, with what is left of the last block, have room for them.
    pub fn blocks_needed(&self, additional: usize) -> (blocks: usize)
        requires
            self.wf(),
            additional - self@.rows_left() + BLOCK_ROWS <= usize::MAX,
        ensures
            additional <= self@.rows_left() + blocks * BLOCK_ROWS,
            blocks > 0 ==> self@.rows_left() + (blocks - 1) * BLOCK_ROWS < additional,
    {
        let rows_in_current = BLOCK_ROWS - self.current_row_in_block;
        assert(rows_in_current == self@.rows_left());
        if additional > rows_in_current {
            let extra_needed = additional - rows_in_current;
            (extra_needed + BLOCK_ROWS - 1) / BLOCK_ROWS
        } else {
            0
        }
    }

    /// Makes room in the list of blocks for the blocks that `additional` more
    /// rows take. What the container holds stays as it is; how much room the list
    /// has is up to the allocator and shows in no other operation.
    pub fn reserve(&mut self, additional: usize)
        requires
            old(self).wf(),
            additional - old(self)@.rows_left() + BLOCK_ROWS <= usize::MAX,
        ensures
            final(self).wf(),
            final(self)@ == old(self)@,
    {
        let blocks = self.blocks_needed(additional);
        if blocks > 0 {
            self.blocks.reserve(blocks);
        }
    }

    /// The bytes of a row.
    pub fn row(&self, index: usize) -> (row: &[u8])
        requires
            self.wf(),
            index < self@.rows.len(),
        ensures
            row@ == self@.rows[index as int],
    {
        proof {
            lemma_row_in_block(self.row_size as int, index as int % BLOCK_ROWS as int);
        }
        let start = (index % BLOCK_ROWS) * self.row_size;
        vstd::slice::slice_subrange(
            self.blocks[index / BLOCK_ROWS].as_slice(),
            start,
            start + self.row_size,
        )
    }

    /// The bytes of a row, for writing. Once they are written, with their number
    /// unchanged, the row holds them and all else is as before.
    pub fn row_mut(&mut self, index: usize) -> (row: &mut [u8])
        requires
            old(self).wf(),
            index < old(self)@.rows.len(),
        ensures
            row@ == old(self)@.rows[index as int],
            final(row)@.len() == row@.len() ==> {
                &&& final(self).wf()
                &&& final(self)@ == old(self)@.with_row_bytes(index as int, final(row)@)
            },
    {
        let ghost before = *self;
        proof {
            lemma_row_in_block(self.row_size as int, index as int % BLOCK_ROWS as int);
        }
        let start = (index % BLOCK_ROWS) * self.row_size;
        let end = start + self.row_size;
        let row = run_mut(&mut self.blocks[index / BLOCK_ROWS], start, end);
        proof {
            lemma_rows_replaced(before, index as int);
        }
        assert(final(row)@.len() == row@.len() ==> before.row_replaced(
            after_borrow(*self),
            index as int,
            final(row)@,
        ));
        row
    }

    /// Whether a bit of `null_mask` is set in byte `null_byte` of a row.
    #[inline(always)]
    pub fn is_null_at(row: &[u8], null_byte: usize, null_mask: u8) -> (null: bool)
        requires
            null_byte < row@.len(),
        ensures
            null == is_null(row@, null_byte as int, null_mask),
    {
        row[null_byte] & null_mask != 0
    }

    /// Sets the bits of `null_mask` in byte `null_byte` of a row.
    #[inline(always)]
    pub fn set_null_at(row: &mut [u8], null_byte: usize, null_mask: u8)
        requires
            null_byte < old(row)@.len(),
        ensures
            final(row)@ == with_null_set(old(row)@, null_byte as int, null_mask),
    {
        row[null_byte] = row[null_byte] | null_mask;
    }

    /// Clears the bits of `null_mask` in byte `null_byte` of a row.
    #[inline(always)]
    pub fn clear_null_at(row: &mut [u8], null_byte: usize, null_mask: u8)
        requires
            null_byte < old(row)@.len(),
        ensures
            final(row)@ == with_null_cleared(old(row)@, null_byte as int, null_mask),
    {
        row[null_byte] = row[null_byte] & !null_mask;
    }

    /// Reads the value at `offset` in a row.
    #[inline(always)]
    pub fn read_value<T: RowValue>(row: &[u8], offset: usize) -> (value: T)
        requires
            offset + T::width() <= row@.len(),
        ensures
            value == value_at::<T>(row@, offset as int),
    {
        T::load(row, offset, native_order())
    }

    /// Stores a value at `offset` in a row.
    #[inline(always)]
    pub fn store_value<T: RowValue>(row: &mut [u8], offset: usize, value: T)
        requires
            offset + T::width() <= old(row)@.len(),
        ensures
            final(row)@ == with_value(old(row)@, offset as int, value),
    {
        value.store(row, offset, native_order());
    }

    /// The descriptor of a column.
    #[inline(always)]
    pub fn column_at(&self, col_idx: usize) -> (column: RowColumn)
        requires
            self.wf(),
            col_idx < self@.columns.len(),
        ensures
            column@ == self@.columns[col_idx as int],
    {
        self.columns[col_idx]
    }

    /// Where in a row the aggregation state begins.
    #[inline(always)]
    pub fn agg_state_offset(&self) -> (offset: usize)
        ensures
            offset == self@.agg_state_offset,
    {
        self.agg_state_offset
    }

    /// How many bytes a row takes.
    #[inline(always)]
    pub fn row_size(&self) -> (size: usize)
        ensures
            size == self@.row_size,
    {
        self.row_size
    }

    /// How many key columns there are.
    pub fn num_keys(&self) -> (num_keys: usize)
        requires
            self.wf(),
        ensures
            num_keys == self@.columns.len(),
    {
        self.num_keys
    }

    /// How many rows there are.
    pub fn num_rows(&self) -> (num_rows: usize)
        ensures
            num_rows == self@.rows.len(),
    {
        self.num_rows
    }

    /// The kind of a column.
    pub fn column_kind(&self, col_idx: usize) -> (kind: ColumnKind)
        requires
            col_idx < self@.kinds.len(),
        ensures
            kind == self@.kinds[col_idx as int],
    {
        self.column_kinds[col_idx]
    }

    /// Allocates bytes from the string arena. They are zero, and apart from all
    /// that were allocated before, which stay as they are.
    pub fn arena_alloc(&mut self, size: usize) -> (slice: ArenaSlice)
        requires
            old(self).wf(),
            size <= isize::MAX,
        ensures
            final(self).wf(),
            final(self)@ == old(self)@.with_allocation(size as nat),
            old(self)@.arena.hands_out(size as nat, slice),
            final(self)@.arena.in_use(slice),
            final(self)@.arena.bytes(slice) == crate::arena::zeros(size as nat),
            forall|earlier: ArenaSlice| #[trigger]
                old(self)@.arena.in_use(earlier) ==> {
                    &&& crate::arena::ArenaModel::apart(earlier, slice)
                    &&& final(self)@.arena.in_use(earlier)
                    &&& final(self)@.arena.bytes(earlier) == old(self)@.arena.bytes(earlier)
                },
    {
        let ghost before = *self;
        if self.varchar_arena_blocks.is_empty() || self.varchar_arena_offset + size
            > VARCHAR_ARENA_BLOCK_SIZE {
            let block_size = if size < VARCHAR_ARENA_BLOCK_SIZE {
                VARCHAR_ARENA_BLOCK_SIZE
            } else {
                size
            };
            self.varchar_arena_blocks.push(vec![0u8; block_size]);
            self.varchar_arena_current_block = self.varchar_arena_blocks.len() - 1;
            self.varchar_arena_offset = 0;
        }
        let slice = ArenaSlice {
            block: self.varchar_arena_current_block,
            offset: self.varchar_arena_offset,
            len: size,
        };
        self.varchar_arena_offset = self.varchar_arena_offset + size;
        proof {
            let after = before@.with_allocation(size as nat);
            assert(self@.rows =~= after.rows);
            assert(self@.arena.blocks =~~= after.arena.blocks);
            assert(self@ =~~= after);
            assert forall|earlier: ArenaSlice| #[trigger]
                before@.arena.in_use(earlier) implies {
                &&& crate::arena::ArenaModel::apart(earlier, slice)
                &&& self@.arena.in_use(earlier)
                &&& self@.arena.bytes(earlier) == before@.arena.bytes(earlier)
            } by {
                crate::laws::law_allocation_is_fresh(before@.arena, slice, earlier);
            }
            crate::laws::law_allocation_is_fresh(before@.arena, slice, slice);
        }
        slice
    }

    /// The bytes of an arena slice.
    pub fn arena_bytes(&self, slice: ArenaSlice) -> (bytes: &[u8])
        requires
            self@.arena.in_use(slice),
        ensures
            bytes@ == self@.arena.bytes(slice),
    {
        let block = self.varchar_arena_blocks[slice.block].as_slice();
        assert(block@ == self@.arena.blocks[slice.block as int]);
        assert(block.len() == block@.len());
        vstd::slice::slice_subrange(
            block,
            slice.offset,
            slice.offset + slice.len,
        )
    }

    /// The bytes of an arena slice, for writing. Once they are written, with
    /// their number unchanged, the slice holds them and all else is as before.
    pub fn arena_bytes_mut(&mut self, slice: ArenaSlice) -> (bytes: &mut [u8])
        requires
            old(self).wf(),
            old(self)@.arena.in_use(slice),
        ensures
            bytes@ == old(self)@.arena.bytes(slice),
            final(bytes)@.len() == bytes@.len() ==> {
                &&& final(self).wf()
                &&& final(self)@ == old(self)@.with_arena_bytes(slice, final(bytes)@)
            },
    {
        let ghost before = *self;
        let block = &mut self.varchar_arena_blocks[slice.block];
        assert(block@ == before@.arena.blocks[slice.block as int]);
        assert(block.len() == block@.len());
        let bytes = run_mut(block, slice.offset, slice.offset + slice.len);
        proof {
            lemma_arena_slices_replaced(before, slice);
        }
        assert(final(bytes)@.len() == bytes@.len() ==> before.arena_slice_replaced(
            after_borrow(*self),
            slice,
            final(bytes)@,
        ));
        bytes
    }
}

/// The bytes of a block from `start` to `end`, for writing.
fn run_mut(block: &mut Vec<u8>, start: usize, end: usize) -> (run: &mut [u8])
    requires
        start <= end <= old(block)@.len(),
    ensures
        run@ == old(block)@.subrange(start as int, end as int),
        final(run)@.len() == run@.len() ==> final(block)@ == crate::byte_order::overwrite(
            old(block)@,
            start as int,
            final(run)@,
        ),
{
    let ghost before = block@;
    let (head, _tail) = block.as_mut_slice().split_at_mut(end);
    let (_front, run) = head.split_at_mut(start);
    assert(final(run)@.len() == run@.len() ==> after_borrow(*block)@
        =~= crate::byte_order::overwrite(before, start as int, final(run)@));
    run
}

/// Whether a bit of `mask` is set in byte `at` of `row`.
pub open spec fn is_null(row: Seq<u8>, at: int, mask: u8) -> bool {
    row[at] & mask != 0
}

/// `row` with the bits of `mask` set in byte `at`.
pub open spec fn with_null_set(row: Seq<u8>, at: int, mask: u8) -> Seq<u8> {
    row.update(at, row[at] | mask)
}

/// `row` with the bits of `mask` cleared in byte `at`.
pub open spec fn with_null_cleared(row: Seq<u8>, at: int, mask: u8) -> Seq<u8> {
    row.update(at, row[at] & !mask)
}

/// The value at `offset` in `row`, in the byte order of the machine.
pub open spec fn value_at<T: RowValue>(row: Seq<u8>, offset: int) -> T {
    T::from_bytes(row.subrange(offset, offset + T::width()), crate::byte_order::native())
}

/// `row` with `value` stored at `offset`, in the byte order of the machine.
pub open spec fn with_value<T: RowValue>(row: Seq<u8>, offset: int, value: T) -> Seq<u8> {
    crate::byte_order::overwrite(row, offset, value.to_bytes(crate::byte_order::native()))
}

/// A container that differs in the bytes of one row.
proof fn lemma_row_replaced(
    before: RowContainer,
    after: RowContainer,
    index: int,
    bytes: Seq<u8>,
)
    requires
        before.wf(),
        0 <= index < before.num_rows,
        before.row_replaced(after, index, bytes),
    ensures
        after.wf(),
        after@ == before@.with_row_bytes(index, bytes),
{
    let size = before.row_size as int;
    let b = index / BLOCK_ROWS as int;
    let r = index % BLOCK_ROWS as int;
    lemma_row_in_block(size, r);
    assert forall|k: int|
        after.current_row_in_block * size <= k < size * BLOCK_ROWS implies #[trigger] after.blocks@[
    after.current_block_idx as int]@[k] == 0 by {
        if b == before.current_block_idx {
            lemma_rows_apart(size, r, before.current_row_in_block as int);
        }
        assert(before.blocks@[before.current_block_idx as int]@[k] == 0);
    }
    assert forall|i: int| 0 <= i < before.num_rows implies row_in_blocks(
        after.blocks@,
        size as nat,
        i,
    ) == before@.rows.update(index, bytes)[i] by {
        let s = i % BLOCK_ROWS as int;
        lemma_row_in_block(size, s);
        if i / BLOCK_ROWS as int == b && s != r {
            if s < r {
                lemma_rows_apart(size, s, r);
            } else {
                lemma_rows_apart(size, r, s);
            }
        }
        assert(row_in_blocks(after.blocks@, size as nat, i) =~= before@.rows.update(
            index,
            bytes,
        )[i]);
    }
    assert(after@.rows =~= before@.rows.update(index, bytes));
    assert(after@ =~~= before@.with_row_bytes(index, bytes));
}

/// The same of whatever bytes come to be written to the row.
proof fn lemma_rows_replaced(before: RowContainer, index: int)
    requires
        before.wf(),
        0 <= index < before.num_rows,
    ensures
        forall|after: RowContainer, bytes: Seq<u8>| #[trigger]
            before.row_replaced(after, index, bytes) ==> after.wf() && after@
                == before@.with_row_bytes(index, bytes),
{
    assert forall|after: RowContainer, bytes: Seq<u8>| #[trigger]
        before.row_replaced(after, index, bytes) implies after.wf() && after@
        == before@.with_row_bytes(index, bytes) by {
        lemma_row_replaced(before, after, index, bytes);
    }
}

/// A container that differs in the bytes of one arena slice.
proof fn lemma_arena_bytes_replaced(
    before: RowContainer,
    after: RowContainer,
    slice: ArenaSlice,
    bytes: Seq<u8>,
)
    requires
        before.wf(),
        before@.arena.in_use(slice),
        before.arena_slice_replaced(after, slice, bytes),
    ensures
        after.wf(),
        after@ == before@.with_arena_bytes(slice, bytes),
{
    assert(after@.arena.blocks =~= before@.with_arena_bytes(slice, bytes).arena.blocks);
    assert(after@.rows =~= before@.rows);
    assert(after@ =~~= before@.with_arena_bytes(slice, bytes));
    let current = after@.arena.current as int;
    assert forall|k: int|
        after@.arena.blocks.len() > 0 && after@.arena.offset <= k
            < after@.arena.blocks[current].len() implies #[trigger] after@.arena.blocks[current][k]
        == 0 by {
        assert(before@.arena.blocks[current][k] == 0);
    }
}

/// The same of whatever bytes come to be written to the slice.
proof fn lemma_arena_slices_replaced(before: RowContainer, slice: ArenaSlice)
    requires
        before.wf(),
        before@.arena.in_use(slice),
    ensures
        forall|after: RowContainer, bytes: Seq<u8>| #[trigger]
            before.arena_slice_replaced(after, slice, bytes) ==> after.wf() && after@
                == before@.with_arena_bytes(slice, bytes),
{
    assert forall|after: RowContainer, bytes: Seq<u8>| #[trigger]
        before.arena_slice_replaced(after, slice, bytes) implies after.wf() && after@
        == before@.with_arena_bytes(slice, bytes) by {
        lemma_arena_bytes_replaced(before, after, slice, bytes);
    }
}

/// Row `r` of a block ends before row `s` begins.
proof fn lemma_rows_apart(row_size: int, r: int, s: int)
    requires
        0 <= row_size,
        r < s,
    ensures
        r * row_size + row_size <= s * row_size,
{
    assert(r * row_size + row_size <= s * row_size) by (nonlinear_arith)
        requires
            0 <= row_size,
            r < s,
    ;
}

/// Row `r` of a block lies inside the block.
proof fn lemma_row_in_block(row_size: int, r: int)
    requires
        0 <= r < BLOCK_ROWS,
        0 <= row_size,
    ensures
        0 <= r * row_size,
        r * row_size + row_size == (r + 1) * row_size,
        r * row_size + row_size <= row_size * BLOCK_ROWS,
{
    assert(0 <= r * row_size && r * row_size + row_size == (r + 1) * row_size && (r + 1) * row_size
        <= row_size * 1024) by (nonlinear_arith)
        requires
            0 <= r < 1024,
            0 <= row_size,
    ;
}

} // verus!
