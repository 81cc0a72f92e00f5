use taper_hashmap::byte_order::{native_order, read_uint, write_uint, ByteOrder};
use taper_hashmap::row_container::RowContainer;
use taper_hashmap::row_value::RowValue;

#[test]
fn values_lie_in_native_byte_order() {
    let mut row = [0u8; 12];
    RowContainer::store_value::<u32>(&mut row, 3, 0x0102_0304);
    assert_eq!(row[3..7], 0x0102_0304u32.to_ne_bytes());
    RowContainer::store_value::<i64>(&mut row, 1, -2);
    assert_eq!(row[1..9], (-2i64).to_ne_bytes());
    assert_eq!(row[0], 0);
    assert_eq!(row[9..12], [0, 0, 0]);
    let bytes = 0x1122_3344_5566_7788i64.to_ne_bytes();
    assert_eq!(RowContainer::read_value::<i64>(&bytes, 0), 0x1122_3344_5566_7788);
}

#[test]
fn native_order_is_that_of_the_machine() {
    let little = 1u16.to_ne_bytes() == [1, 0];
    assert_eq!(native_order() == ByteOrder::Little, little);
    assert_eq!(native_order() == ByteOrder::Big, !little);
}

#[test]
fn both_byte_orders() {
    let mut row = [0xEEu8; 6];
    0x0102_0304u32.store(&mut row, 1, ByteOrder::Little);
    assert_eq!(row, [0xEE, 4, 3, 2, 1, 0xEE]);
    assert_eq!(u32::load(&row, 1, ByteOrder::Little), 0x0102_0304);
    assert_eq!(u32::load(&row, 1, ByteOrder::Big), 0x0403_0201);
    (-2i16).store(&mut row, 4, ByteOrder::Big);
    assert_eq!(row, [0xEE, 4, 3, 2, 0xFF, 0xFE]);
    assert_eq!(i16::load(&row, 4, ByteOrder::Big), -2);
    assert_eq!(i16::load(&row, 4, ByteOrder::Little), -257);
}

#[test]
fn integers_of_any_width() {
    let mut row = [0u8; 16];
    write_uint(&mut row, 2, 3, 0x01AA_BBCC, ByteOrder::Little);
    assert_eq!(row[0..6], [0, 0, 0xCC, 0xBB, 0xAA, 0]);
    assert_eq!(read_uint(&row, 2, 3, ByteOrder::Little), 0xAABBCC);
    assert_eq!(read_uint(&row, 2, 3, ByteOrder::Big), 0xCCBBAA);
    assert_eq!(read_uint(&row, 2, 0, ByteOrder::Little), 0);
    write_uint(&mut row, 0, 16, u128::MAX - 1, ByteOrder::Big);
    assert_eq!(row, (u128::MAX - 1).to_be_bytes());
    assert_eq!(read_uint(&row, 0, 16, ByteOrder::Big), u128::MAX - 1);
}

#[test]
fn every_type_reads_what_it_stored() {
    let mut row = [0x5Au8; 24];
    RowContainer::store_value::<u8>(&mut row, 5, 200);
    assert_eq!(RowContainer::read_value::<u8>(&row, 5), 200);
    RowContainer::store_value::<u16>(&mut row, 5, 60_000);
    assert_eq!(RowContainer::read_value::<u16>(&row, 5), 60_000);
    RowContainer::store_value::<u32>(&mut row, 5, u32::MAX);
    assert_eq!(RowContainer::read_value::<u32>(&row, 5), u32::MAX);
    RowContainer::store_value::<u64>(&mut row, 5, u64::MAX - 5);
    assert_eq!(RowContainer::read_value::<u64>(&row, 5), u64::MAX - 5);
    RowContainer::store_value::<u128>(&mut row, 5, u128::MAX - 5);
    assert_eq!(RowContainer::read_value::<u128>(&row, 5), u128::MAX - 5);
    RowContainer::store_value::<usize>(&mut row, 5, usize::MAX - 5);
    assert_eq!(RowContainer::read_value::<usize>(&row, 5), usize::MAX - 5);
    RowContainer::store_value::<i8>(&mut row, 5, i8::MIN);
    assert_eq!(RowContainer::read_value::<i8>(&row, 5), i8::MIN);
    RowContainer::store_value::<i16>(&mut row, 5, i16::MIN);
    assert_eq!(RowContainer::read_value::<i16>(&row, 5), i16::MIN);
    RowContainer::store_value::<i32>(&mut row, 5, -1);
    assert_eq!(RowContainer::read_value::<i32>(&row, 5), -1);
    RowContainer::store_value::<i64>(&mut row, 5, i64::MAX);
    assert_eq!(RowContainer::read_value::<i64>(&row, 5), i64::MAX);
    RowContainer::store_value::<i128>(&mut row, 5, i128::MIN);
    assert_eq!(RowContainer::read_value::<i128>(&row, 5), i128::MIN);
    RowContainer::store_value::<isize>(&mut row, 5, isize::MIN);
    assert_eq!(RowContainer::read_value::<isize>(&row, 5), isize::MIN);
    assert_eq!(row[0..5], [0x5A; 5]);
    assert_eq!(row[21..24], [0x5A; 3]);
}

#[test]
fn storing_what_is_there_changes_nothing() {
    let mut row = [1u8, 2, 3, 4, 5, 6, 7, 8, 9, 10];
    let value = RowContainer::read_value::<i64>(&row, 1);
    RowContainer::store_value::<i64>(&mut row, 1, value);
    assert_eq!(row, [1, 2, 3, 4, 5, 6, 7, 8, 9, 10]);
    RowContainer::store_value::<i64>(&mut row, 1, 17);
    RowContainer::store_value::<i64>(&mut row, 1, value);
    assert_eq!(row, [1, 2, 3, 4, 5, 6, 7, 8, 9, 10]);
}
