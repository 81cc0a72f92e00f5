use taper_hashmap::arena::{ArenaSlice, VARCHAR_ARENA_BLOCK_SIZE};
use taper_hashmap::row_container::{
    ColumnKind, RowColumn, RowContainer, BLOCK_ROWS, VARCHAR_SLOT_SIZE,
};

#[test]
fn test_row_layout() {
    let rc = RowContainer::new(&[8, 4], 8);
    assert_eq!(rc.column_at(0).offset(), 0);
    assert_eq!(rc.column_at(1).offset(), 8);
    assert_eq!(rc.agg_state_offset(), 13);
    assert_eq!(rc.row_size(), 21);
    assert_eq!(rc.column_at(0).null_byte(), 12);
    assert_eq!(rc.column_at(0).null_mask(), 0x01);
    assert_eq!(rc.column_at(1).null_byte(), 12);
    assert_eq!(rc.column_at(1).null_mask(), 0x02);
}

#[test]
fn test_row_container_basic() {
    let mut rc = RowContainer::new(&[8, 8], 8);
    let row = rc.new_row();
    let col0 = rc.column_at(0);
    let col1 = rc.column_at(1);
    RowContainer::store_value::<i64>(rc.row_mut(row), col0.offset(), 12345);
    RowContainer::store_value::<i64>(rc.row_mut(row), col1.offset(), 67890);
    assert_eq!(RowContainer::read_value::<i64>(rc.row(row), col0.offset()), 12345);
    assert_eq!(RowContainer::read_value::<i64>(rc.row(row), col1.offset()), 67890);
    assert!(!RowContainer::is_null_at(rc.row(row), col0.null_byte(), col0.null_mask()));
}

#[test]
fn test_null_operations() {
    let mut rc = RowContainer::new(&[8, 8], 8);
    let row = rc.new_row();
    let col0 = rc.column_at(0);
    assert!(!RowContainer::is_null_at(rc.row(row), col0.null_byte(), col0.null_mask()));
    RowContainer::set_null_at(rc.row_mut(row), col0.null_byte(), col0.null_mask());
    assert!(RowContainer::is_null_at(rc.row(row), col0.null_byte(), col0.null_mask()));
    RowContainer::clear_null_at(rc.row_mut(row), col0.null_byte(), col0.null_mask());
    assert!(!RowContainer::is_null_at(rc.row(row), col0.null_byte(), col0.null_mask()));
}

#[test]
fn test_many_columns_null_packing() {
    let rc = RowContainer::new(&[8; 10], 8);
    assert_eq!(rc.column_at(7).null_mask(), 0x80);
    let null_block_start = 8 * 10;
    assert_eq!(rc.column_at(8).null_byte(), null_block_start + 1);
    assert_eq!(rc.column_at(8).null_mask(), 0x01);
    assert_eq!(rc.column_at(9).null_byte(), null_block_start + 1);
    assert_eq!(rc.column_at(9).null_mask(), 0x02);
}

#[test]
fn test_pointer_stability() {
    let mut rc = RowContainer::new(&[8, 8], 8);
    let mut ptrs: Vec<usize> = Vec::new();
    let col0 = rc.column_at(0);
    for i in 0..5000 {
        let row = rc.new_row();
        RowContainer::store_value::<i64>(rc.row_mut(row), col0.offset(), i as i64);
        ptrs.push(row);
    }
    for (i, &ptr) in ptrs.iter().enumerate() {
        assert_eq!(RowContainer::read_value::<i64>(rc.row(ptr), col0.offset()), i as i64);
    }
    assert_eq!(rc.num_rows(), 5000);
}

#[test]
fn varchar_columns_take_a_pointer_slot() {
    let kinds = [ColumnKind::Varchar, ColumnKind::Fixed, ColumnKind::Varchar];
    let rc = RowContainer::with_kinds(&[1000, 4, 0], &kinds, 16);
    assert_eq!(VARCHAR_SLOT_SIZE, std::mem::size_of::<usize>());
    assert_eq!(rc.column_at(0).offset(), 0);
    assert_eq!(rc.column_at(1).offset(), VARCHAR_SLOT_SIZE);
    assert_eq!(rc.column_at(2).offset(), VARCHAR_SLOT_SIZE + 4);
    assert_eq!(rc.column_at(2).null_byte(), 2 * VARCHAR_SLOT_SIZE + 4);
    assert_eq!(rc.column_at(2).null_mask(), 0x04);
    assert_eq!(rc.agg_state_offset(), 2 * VARCHAR_SLOT_SIZE + 5);
    assert_eq!(rc.row_size(), 2 * VARCHAR_SLOT_SIZE + 21);
    assert_eq!(rc.num_keys(), 3);
    assert_eq!(rc.column_kind(0), ColumnKind::Varchar);
    assert_eq!(rc.column_kind(1), ColumnKind::Fixed);
    assert_eq!(rc.column_kind(2), ColumnKind::Varchar);
}

#[test]
fn container_without_keys_or_state() {
    let mut rc = RowContainer::new(&[], 0);
    assert_eq!(rc.row_size(), 0);
    assert_eq!(rc.agg_state_offset(), 0);
    assert_eq!(rc.num_keys(), 0);
    for i in 0..3000 {
        assert_eq!(rc.new_row(), i);
    }
    assert_eq!(rc.num_rows(), 3000);
    assert_eq!(rc.row(2999).len(), 0);
}

#[test]
fn rows_begin_as_zeros() {
    let mut rc = RowContainer::new(&[8; 9], 8);
    for _ in 0..(2 * BLOCK_ROWS + 1) {
        let row = rc.new_row();
        assert!(rc.row(row).iter().all(|b| *b == 0));
        for byte in rc.row_mut(row) {
            *byte = 0xFF;
        }
    }
    assert!(rc.row(BLOCK_ROWS).iter().all(|b| *b == 0xFF));
}

#[test]
fn columns_do_not_disturb_each_other() {
    let mut rc = RowContainer::new(&[1, 2, 4, 8, 16, 1, 2, 4, 8], 8);
    let row = rc.new_row();
    let at: Vec<RowColumn> = (0..9).map(|i| rc.column_at(i)).collect();
    RowContainer::store_value::<u8>(rc.row_mut(row), at[0].offset(), 0xA1);
    RowContainer::store_value::<u16>(rc.row_mut(row), at[1].offset(), 0xA1A2);
    RowContainer::store_value::<u32>(rc.row_mut(row), at[2].offset(), 0xA1A2_A3A4);
    RowContainer::store_value::<u64>(rc.row_mut(row), at[3].offset(), u64::MAX - 7);
    RowContainer::store_value::<i128>(rc.row_mut(row), at[4].offset(), i128::MIN + 3);
    RowContainer::store_value::<i8>(rc.row_mut(row), at[5].offset(), -5);
    RowContainer::store_value::<i16>(rc.row_mut(row), at[6].offset(), -500);
    RowContainer::store_value::<i32>(rc.row_mut(row), at[7].offset(), i32::MIN);
    RowContainer::store_value::<i64>(rc.row_mut(row), at[8].offset(), i64::MIN + 1);
    RowContainer::set_null_at(rc.row_mut(row), at[8].null_byte(), at[8].null_mask());
    RowContainer::set_null_at(rc.row_mut(row), at[3].null_byte(), at[3].null_mask());
    let agg = rc.agg_state_offset();
    RowContainer::store_value::<u64>(rc.row_mut(row), agg, 99);

    let bytes = rc.row(row);
    assert_eq!(RowContainer::read_value::<u8>(bytes, at[0].offset()), 0xA1);
    assert_eq!(RowContainer::read_value::<u16>(bytes, at[1].offset()), 0xA1A2);
    assert_eq!(RowContainer::read_value::<u32>(bytes, at[2].offset()), 0xA1A2_A3A4);
    assert_eq!(RowContainer::read_value::<u64>(bytes, at[3].offset()), u64::MAX - 7);
    assert_eq!(RowContainer::read_value::<i128>(bytes, at[4].offset()), i128::MIN + 3);
    assert_eq!(RowContainer::read_value::<i8>(bytes, at[5].offset()), -5);
    assert_eq!(RowContainer::read_value::<i16>(bytes, at[6].offset()), -500);
    assert_eq!(RowContainer::read_value::<i32>(bytes, at[7].offset()), i32::MIN);
    assert_eq!(RowContainer::read_value::<i64>(bytes, at[8].offset()), i64::MIN + 1);
    assert_eq!(RowContainer::read_value::<u64>(bytes, agg), 99);
    for (i, column) in at.iter().enumerate() {
        let null = RowContainer::is_null_at(bytes, column.null_byte(), column.null_mask());
        assert_eq!(null, i == 3 || i == 8);
    }
}

#[test]
fn last_null_operation_wins() {
    let mut row = [0b1010_0101u8; 3];
    RowContainer::set_null_at(&mut row, 1, 0b0000_0010);
    assert_eq!(row, [0b1010_0101, 0b1010_0111, 0b1010_0101]);
    RowContainer::clear_null_at(&mut row, 1, 0b0000_0010);
    assert_eq!(row, [0b1010_0101; 3]);
    RowContainer::clear_null_at(&mut row, 2, 0b0000_0101);
    assert_eq!(row[2], 0b1010_0000);
    assert!(RowContainer::is_null_at(&row, 0, 0b0001_0001));
    assert!(!RowContainer::is_null_at(&row, 2, 0b0000_0101));
}

#[test]
fn packing_keeps_what_fits() {
    let column = RowColumn::pack(0xFFFF_FFFF, 13, 0x00FF_FFFE);
    assert_eq!(column.offset(), 0xFFFF_FFFF);
    assert_eq!(column.null_byte(), 0x00FF_FFFF);
    assert_eq!(column.null_mask(), 0x20);
}

#[test]
fn wide_null_byte_runs_into_the_offset() {
    let column = RowColumn::pack(4, 0, 0x0300_0005);
    assert_eq!(column.offset(), 4 | 3);
    assert_eq!(column.null_byte(), 5);
    assert_eq!(column.null_mask(), 1);
}

#[test]
fn blocks_needed_counts_whole_blocks() {
    let mut rc = RowContainer::new(&[8], 8);
    assert_eq!(rc.blocks_needed(0), 0);
    assert_eq!(rc.blocks_needed(BLOCK_ROWS), 0);
    assert_eq!(rc.blocks_needed(BLOCK_ROWS + 1), 1);
    assert_eq!(rc.blocks_needed(3 * BLOCK_ROWS), 2);
    for _ in 0..BLOCK_ROWS {
        rc.new_row();
    }
    assert_eq!(rc.blocks_needed(0), 0);
    assert_eq!(rc.blocks_needed(1), 1);
    rc.new_row();
    assert_eq!(rc.blocks_needed(BLOCK_ROWS - 1), 0);
    assert_eq!(rc.blocks_needed(BLOCK_ROWS), 1);
}

#[test]
fn reserve_keeps_the_rows() {
    let mut rc = RowContainer::new(&[8], 0);
    let row = rc.new_row();
    RowContainer::store_value::<i64>(rc.row_mut(row), 0, -9);
    rc.reserve(100_000);
    assert_eq!(rc.num_rows(), 1);
    assert_eq!(RowContainer::read_value::<i64>(rc.row(row), 0), -9);
}

#[test]
fn arena_fills_blocks_from_the_front() {
    let mut rc = RowContainer::with_kinds(&[0], &[ColumnKind::Varchar], 0);
    let block = VARCHAR_ARENA_BLOCK_SIZE;
    assert_eq!(rc.arena_alloc(10), ArenaSlice { block: 0, offset: 0, len: 10 });
    assert_eq!(rc.arena_alloc(0), ArenaSlice { block: 0, offset: 10, len: 0 });
    assert_eq!(rc.arena_alloc(block - 10), ArenaSlice { block: 0, offset: 10, len: block - 10 });
    assert_eq!(rc.arena_alloc(1), ArenaSlice { block: 1, offset: 0, len: 1 });
    assert_eq!(rc.arena_alloc(block), ArenaSlice { block: 2, offset: 0, len: block });
    assert_eq!(rc.arena_alloc(3 * block), ArenaSlice { block: 3, offset: 0, len: 3 * block });
    assert_eq!(rc.arena_alloc(0), ArenaSlice { block: 4, offset: 0, len: 0 });
    assert_eq!(rc.arena_alloc(7), ArenaSlice { block: 4, offset: 0, len: 7 });
}

#[test]
fn arena_without_varchar_column_opens_a_block_on_demand() {
    let mut rc = RowContainer::new(&[8], 0);
    assert_eq!(rc.arena_alloc(0), ArenaSlice { block: 0, offset: 0, len: 0 });
    assert_eq!(rc.arena_alloc(5), ArenaSlice { block: 0, offset: 0, len: 5 });
    assert_eq!(rc.arena_alloc(5), ArenaSlice { block: 0, offset: 5, len: 5 });
}

#[test]
fn arena_slices_keep_their_bytes() {
    let mut rc = RowContainer::with_kinds(&[0, 8], &[ColumnKind::Varchar, ColumnKind::Fixed], 0);
    let mut slices: Vec<ArenaSlice> = Vec::new();
    for i in 0..3000usize {
        let slice = rc.arena_alloc(i % 97);
        assert!(rc.arena_bytes(slice).iter().all(|b| *b == 0));
        for byte in rc.arena_bytes_mut(slice) {
            *byte = (i % 251) as u8 + 1;
        }
        slices.push(slice);
        rc.new_row();
    }
    for (i, slice) in slices.iter().enumerate() {
        assert_eq!(rc.arena_bytes(*slice).len(), i % 97);
        assert!(rc.arena_bytes(*slice).iter().all(|b| *b == (i % 251) as u8 + 1));
    }
    assert!(rc.row(2999).iter().all(|b| *b == 0));
}

#[test]
fn allocations_leave_rows_and_layout() {
    let mut rc = RowContainer::with_kinds(&[0, 8], &[ColumnKind::Varchar, ColumnKind::Fixed], 8);
    let row = rc.new_row();
    let offset = rc.column_at(1).offset();
    RowContainer::store_value::<i64>(rc.row_mut(row), offset, -77);
    let early = rc.arena_alloc(4);
    rc.arena_bytes_mut(early).copy_from_slice(b"text");
    let (size, state) = (rc.row_size(), rc.agg_state_offset());
    for len in [1, VARCHAR_ARENA_BLOCK_SIZE - 5, VARCHAR_ARENA_BLOCK_SIZE + 1, 0] {
        let slice = rc.arena_alloc(len);
        assert_eq!(rc.arena_bytes(slice).len(), len);
        assert!(slice.block != early.block || early.offset + early.len <= slice.offset);
    }
    assert_eq!(rc.arena_bytes(early), b"text");
    assert_eq!(RowContainer::read_value::<i64>(rc.row(row), offset), -77);
    assert_eq!((rc.num_rows(), rc.num_keys(), rc.row_size()), (1, 2, size));
    assert_eq!((rc.agg_state_offset(), rc.column_at(1).offset()), (state, offset));
    assert_eq!(rc.column_kind(0), ColumnKind::Varchar);
}

#[test]
fn null_bits_lie_before_the_state() {
    let rc = RowContainer::new(&[3; 17], 5);
    for i in 0..rc.num_keys() {
        assert!(rc.column_at(i).null_byte() < rc.agg_state_offset());
        assert_ne!(rc.column_at(i).null_mask(), 0);
    }
    assert_eq!(rc.column_at(16).null_byte() + 1, rc.agg_state_offset());
}
