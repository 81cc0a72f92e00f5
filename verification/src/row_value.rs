//! The types whose values can be read from a row and stored in it.
use crate::byte_order::ByteOrder;
use crate::byte_order::{read_uint, write_uint};
use vstd::prelude::*;

verus! {

/// A type with a fixed width in a row.
///
/// A value lies in a row as its memory representation, unaligned. Every value
/// has one representation, and every representation is that of one value.
pub trait RowValue: Copy {
    /// How many bytes a value takes.
    spec fn width() -> nat;

    /// The value that `bytes` represents.
    spec fn from_bytes(bytes: Seq<u8>, order: ByteOrder) -> Self;

    /// The bytes that represent the value.
    spec fn to_bytes(self, order: ByteOrder) -> Seq<u8>;

    /// The representation of a value has the type's width and represents the
    /// value.
    proof fn lemma_value_round_trip(self, order: ByteOrder)
        ensures
            self.to_bytes(order).len() == Self::width(),
            Self::from_bytes(self.to_bytes(order), order) == self,
    ;

    /// Bytes of the type's width represent a value whose representation they are.
    proof fn lemma_bytes_round_trip(bytes: Seq<u8>, order: ByteOrder)
        requires
            bytes.len() == Self::width(),
        ensures
            Self::from_bytes(bytes, order).to_bytes(order) == bytes,
    ;

    /// Reads the value whose first byte lies at `offset`.
    fn load(row: &[u8], offset: usize, order: ByteOrder) -> (value: Self)
        requires
            offset + Self::width() <= row@.len(),
        ensures
            value == Self::from_bytes(
                row@.subrange(offset as int, offset + Self::width()),
                order,
            ),
    ;

    /// Writes the value from `offset` on, and no other byte.
    fn store(self, row: &mut [u8], offset: usize, order: ByteOrder)
        requires
            offset + Self::width() <= old(row)@.len(),
        ensures
            final(row)@ == crate::byte_order::overwrite(
                old(row)@,
                offset as int,
                self.to_bytes(order),
            ),
    ;
}

impl RowValue for u8 {
    open spec fn width() -> nat {
        1
    }

    open spec fn from_bytes(bytes: Seq<u8>, order: ByteOrder) -> Self {
        crate::byte_order::value_of(bytes, order) as u8
    }

    open spec fn to_bytes(self, order: ByteOrder) -> Seq<u8> {
        crate::byte_order::bytes_of(self as nat, 1, order)
    }

    proof fn lemma_value_round_trip(self, order: ByteOrder) {
        crate::byte_order::lemma_pow256_values();
        crate::byte_order::lemma_value_round_trip(self as nat, 1, order);
    }

    proof fn lemma_bytes_round_trip(bytes: Seq<u8>, order: ByteOrder) {
        crate::byte_order::lemma_pow256_values();
        crate::byte_order::lemma_value_of_bound(bytes, order);
        crate::byte_order::lemma_bytes_round_trip(bytes, order);
    }

    fn load(row: &[u8], offset: usize, order: ByteOrder) -> (value: Self) {
        let value = read_uint(row, offset, 1, order);
        value as u8
    }

    fn store(self, row: &mut [u8], offset: usize, order: ByteOrder) {
        write_uint(row, offset, 1, self as u128, order);
    }
}

impl RowValue for u16 {
    open spec fn width() -> nat {
        2
    }

    open spec fn from_bytes(bytes: Seq<u8>, order: ByteOrder) -> Self {
        crate::byte_order::value_of(bytes, order) as u16
    }

    open spec fn to_bytes(self, order: ByteOrder) -> Seq<u8> {
        crate::byte_order::bytes_of(self as nat, 2, order)
    }

    proof fn lemma_value_round_trip(self, order: ByteOrder) {
        crate::byte_order::lemma_pow256_values();
        crate::byte_order::lemma_value_round_trip(self as nat, 2, order);
    }

    proof fn lemma_bytes_round_trip(bytes: Seq<u8>, order: ByteOrder) {
        crate::byte_order::lemma_pow256_values();
        crate::byte_order::lemma_value_of_bound(bytes, order);
        crate::byte_order::lemma_bytes_round_trip(bytes, order);
    }

    fn load(row: &[u8], offset: usize, order: ByteOrder) -> (value: Self) {
        let value = read_uint(row, offset, 2, order);
        value as u16
    }

    fn store(self, row: &mut [u8], offset: usize, order: ByteOrder) {
        write_uint(row, offset, 2, self as u128, order);
    }
}

impl RowValue for u32 {
    open spec fn width() -> nat {
        4
    }

    open spec fn from_bytes(bytes: Seq<u8>, order: ByteOrder) -> Self {
        crate::byte_order::value_of(bytes, order) as u32
    }

    open spec fn to_bytes(self, order: ByteOrder) -> Seq<u8> {
        crate::byte_order::bytes_of(self as nat, 4, order)
    }

    proof fn lemma_value_round_trip(self, order: ByteOrder) {
        crate::byte_order::lemma_pow256_values();
        crate::byte_order::lemma_value_round_trip(self as nat, 4, order);
    }

    proof fn lemma_bytes_round_trip(bytes: Seq<u8>, order: ByteOrder) {
        crate::byte_order::lemma_pow256_values();
        crate::byte_order::lemma_value_of_bound(bytes, order);
        crate::byte_order::lemma_bytes_round_trip(bytes, order);
    }

    fn load(row: &[u8], offset: usize, order: ByteOrder) -> (value: Self) {
        let value = read_uint(row, offset, 4, order);
        value as u32
    }

    fn store(self, row: &mut [u8], offset: usize, order: ByteOrder) {
        write_uint(row, offset, 4, self as u128, order);
    }
}

impl RowValue for u64 {
    open spec fn width() -> nat {
        8
    }

    open spec fn from_bytes(bytes: Seq<u8>, order: ByteOrder) -> Self {
        crate::byte_order::value_of(bytes, order) as u64
    }

    open spec fn to_bytes(self, order: ByteOrder) -> Seq<u8> {
        crate::byte_order::bytes_of(self as nat, 8, order)
    }

    proof fn lemma_value_round_trip(self, order: ByteOrder) {
        crate::byte_order::lemma_pow256_values();
        crate::byte_order::lemma_value_round_trip(self as nat, 8, order);
    }

    proof fn lemma_bytes_round_trip(bytes: Seq<u8>, order: ByteOrder) {
        crate::byte_order::lemma_pow256_values();
        crate::byte_order::lemma_value_of_bound(bytes, order);
        crate::byte_order::lemma_bytes_round_trip(bytes, order);
    }

    fn load(row: &[u8], offset: usize, order: ByteOrder) -> (value: Self) {
        let value = read_uint(row, offset, 8, order);
        value as u64
    }

    fn store(self, row: &mut [u8], offset: usize, order: ByteOrder) {
        write_uint(row, offset, 8, self as u128, order);
    }
}

impl RowValue for u128 {
    open spec fn width() -> nat {
        16
    }

    open spec fn from_bytes(bytes: Seq<u8>, order: ByteOrder) -> Self {
        crate::byte_order::value_of(bytes, order) as u128
    }

    open spec fn to_bytes(self, order: ByteOrder) -> Seq<u8> {
        crate::byte_order::bytes_of(self as nat, 16, order)
    }

    proof fn lemma_value_round_trip(self, order: ByteOrder) {
        crate::byte_order::lemma_pow256_values();
        crate::byte_order::lemma_value_round_trip(self as nat, 16, order);
    }

    proof fn lemma_bytes_round_trip(bytes: Seq<u8>, order: ByteOrder) {
        crate::byte_order::lemma_pow256_values();
        crate::byte_order::lemma_value_of_bound(bytes, order);
        crate::byte_order::lemma_bytes_round_trip(bytes, order);
    }

    fn load(row: &[u8], offset: usize, order: ByteOrder) -> (value: Self) {
        let value = read_uint(row, offset, 16, order);
        value as u128
    }

    fn store(self, row: &mut [u8], offset: usize, order: ByteOrder) {
        write_uint(row, offset, 16, self as u128, order);
    }
}

impl RowValue for usize {
    open spec fn width() -> nat {
        (usize::BITS / 8) as nat
    }

    open spec fn from_bytes(bytes: Seq<u8>, order: ByteOrder) -> Self {
        crate::byte_order::value_of(bytes, order) as usize
    }

    open spec fn to_bytes(self, order: ByteOrder) -> Seq<u8> {
        crate::byte_order::bytes_of(self as nat, (usize::BITS / 8) as nat, order)
    }

    proof fn lemma_value_round_trip(self, order: ByteOrder) {
        crate::byte_order::lemma_pow256_values();
        crate::byte_order::lemma_value_round_trip(self as nat, (usize::BITS / 8) as nat, order);
    }

    proof fn lemma_bytes_round_trip(bytes: Seq<u8>, order: ByteOrder) {
        crate::byte_order::lemma_pow256_values();
        crate::byte_order::lemma_value_of_bound(bytes, order);
        crate::byte_order::lemma_bytes_round_trip(bytes, order);
    }

    fn load(row: &[u8], offset: usize, order: ByteOrder) -> (value: Self) {
        let value = read_uint(row, offset, (usize::BITS / 8) as usize, order);
        value as usize
    }

    fn store(self, row: &mut [u8], offset: usize, order: ByteOrder) {
        write_uint(row, offset, (usize::BITS / 8) as usize, self as u128, order);
    }
}

impl RowValue for i8 {
    open spec fn width() -> nat {
        1
    }

    open spec fn from_bytes(bytes: Seq<u8>, order: ByteOrder) -> Self {
        (crate::byte_order::value_of(bytes, order) as u8) as i8
    }

    open spec fn to_bytes(self, order: ByteOrder) -> Seq<u8> {
        crate::byte_order::bytes_of((self as u8) as nat, 1, order)
    }

    proof fn lemma_value_round_trip(self, order: ByteOrder) {
        crate::byte_order::lemma_pow256_values();
        crate::byte_order::lemma_value_round_trip((self as u8) as nat, 1, order);
        assert((self as u8) as i8 == self) by (bit_vector);
    }

    proof fn lemma_bytes_round_trip(bytes: Seq<u8>, order: ByteOrder) {
        let value = crate::byte_order::value_of(bytes, order) as u8;
        crate::byte_order::lemma_pow256_values();
        crate::byte_order::lemma_value_of_bound(bytes, order);
        crate::byte_order::lemma_bytes_round_trip(bytes, order);
        assert((value as i8) as u8 == value) by (bit_vector);
    }

    fn load(row: &[u8], offset: usize, order: ByteOrder) -> (value: Self) {
        let value = read_uint(row, offset, 1, order);
        (value as u8) as i8
    }

    fn store(self, row: &mut [u8], offset: usize, order: ByteOrder) {
        write_uint(row, offset, 1, (self as u8) as u128, order);
    }
}

impl RowValue for i16 {
    open spec fn width() -> nat {
        2
    }

    open spec fn from_bytes(bytes: Seq<u8>, order: ByteOrder) -> Self {
        (crate::byte_order::value_of(bytes, order) as u16) as i16
    }

    open spec fn to_bytes(self, order: ByteOrder) -> Seq<u8> {
        crate::byte_order::bytes_of((self as u16) as nat, 2, order)
    }

    proof fn lemma_value_round_trip(self, order: ByteOrder) {
        crate::byte_order::lemma_pow256_values();
        crate::byte_order::lemma_value_round_trip((self as u16) as nat, 2, order);
        assert((self as u16) as i16 == self) by (bit_vector);
    }

    proof fn lemma_bytes_round_trip(bytes: Seq<u8>, order: ByteOrder) {
        let value = crate::byte_order::value_of(bytes, order) as u16;
        crate::byte_order::lemma_pow256_values();
        crate::byte_order::lemma_value_of_bound(bytes, order);
        crate::byte_order::lemma_bytes_round_trip(bytes, order);
        assert((value as i16) as u16 == value) by (bit_vector);
    }

    fn load(row: &[u8], offset: usize, order: ByteOrder) -> (value: Self) {
        let value = read_uint(row, offset, 2, order);
        (value as u16) as i16
    }

    fn store(self, row: &mut [u8], offset: usize, order: ByteOrder) {
        write_uint(row, offset, 2, (self as u16) as u128, order);
    }
}

impl RowValue for i32 {
    open spec fn width() -> nat {
        4
    }

    open spec fn from_bytes(bytes: Seq<u8>, order: ByteOrder) -> Self {
        (crate::byte_order::value_of(bytes, order) as u32) as i32
    }

    open spec fn to_bytes(self, order: ByteOrder) -> Seq<u8> {
        crate::byte_order::bytes_of((self as u32) as nat, 4, order)
    }

    proof fn lemma_value_round_trip(self, order: ByteOrder) {
        crate::byte_order::lemma_pow256_values();
        crate::byte_order::lemma_value_round_trip((self as u32) as nat, 4, order);
        assert((self as u32) as i32 == self) by (bit_vector);
    }

    proof fn lemma_bytes_round_trip(bytes: Seq<u8>, order: ByteOrder) {
        let value = crate::byte_order::value_of(bytes, order) as u32;
        crate::byte_order::lemma_pow256_values();
        crate::byte_order::lemma_value_of_bound(bytes, order);
        crate::byte_order::lemma_bytes_round_trip(bytes, order);
        assert((value as i32) as u32 == value) by (bit_vector);
    }

    fn load(row: &[u8], offset: usize, order: ByteOrder) -> (value: Self) {
        let value = read_uint(row, offset, 4, order);
        (value as u32) as i32
    }

    fn store(self, row: &mut [u8], offset: usize, order: ByteOrder) {
        write_uint(row, offset, 4, (self as u32) as u128, order);
    }
}

impl RowValue for i64 {
    open spec fn width() -> nat {
        8
    }

    open spec fn from_bytes(bytes: Seq<u8>, order: ByteOrder) -> Self {
        (crate::byte_order::value_of(bytes, order) as u64) as i64
    }

    open spec fn to_bytes(self, order: ByteOrder) -> Seq<u8> {
        crate::byte_order::bytes_of((self as u64) as nat, 8, order)
    }

    proof fn lemma_value_round_trip(self, order: ByteOrder) {
        crate::byte_order::lemma_pow256_values();
        crate::byte_order::lemma_value_round_trip((self as u64) as nat, 8, order);
        assert((self as u64) as i64 == self) by (bit_vector);
    }

    proof fn lemma_bytes_round_trip(bytes: Seq<u8>, order: ByteOrder) {
        let value = crate::byte_order::value_of(bytes, order) as u64;
        crate::byte_order::lemma_pow256_values();
        crate::byte_order::lemma_value_of_bound(bytes, order);
        crate::byte_order::lemma_bytes_round_trip(bytes, order);
        assert((value as i64) as u64 == value) by (bit_vector);
    }

    fn load(row: &[u8], offset: usize, order: ByteOrder) -> (value: Self) {
        let value = read_uint(row, offset, 8, order);
        (value as u64) as i64
    }

    fn store(self, row: &mut [u8], offset: usize, order: ByteOrder) {
        write_uint(row, offset, 8, (self as u64) as u128, order);
    }
}

impl RowValue for i128 {
    open spec fn width() -> nat {
        16
    }

    open spec fn from_bytes(bytes: Seq<u8>, order: ByteOrder) -> Self {
        (crate::byte_order::value_of(bytes, order) as u128) as i128
    }

    open spec fn to_bytes(self, order: ByteOrder) -> Seq<u8> {
        crate::byte_order::bytes_of((self as u128) as nat, 16, order)
    }

    proof fn lemma_value_round_trip(self, order: ByteOrder) {
        crate::byte_order::lemma_pow256_values();
        crate::byte_order::lemma_value_round_trip((self as u128) as nat, 16, order);
        assert((self as u128) as i128 == self) by (bit_vector);
    }

    proof fn lemma_bytes_round_trip(bytes: Seq<u8>, order: ByteOrder) {
        let value = crate::byte_order::value_of(bytes, order) as u128;
        crate::byte_order::lemma_pow256_values();
        crate::byte_order::lemma_value_of_bound(bytes, order);
        crate::byte_order::lemma_bytes_round_trip(bytes, order);
        assert((value as i128) as u128 == value) by (bit_vector);
    }

    fn load(row: &[u8], offset: usize, order: ByteOrder) -> (value: Self) {
        let value = read_uint(row, offset, 16, order);
        (value as u128) as i128
    }

    fn store(self, row: &mut [u8], offset: usize, order: ByteOrder) {
        write_uint(row, offset, 16, (self as u128) as u128, order);
    }
}

impl RowValue for isize {
    open spec fn width() -> nat {
        (usize::BITS / 8) as nat
    }

    open spec fn from_bytes(bytes: Seq<u8>, order: ByteOrder) -> Self {
        (crate::byte_order::value_of(bytes, order) as usize) as isize
    }

    open spec fn to_bytes(self, order: ByteOrder) -> Seq<u8> {
        crate::byte_order::bytes_of((self as usize) as nat, (usize::BITS / 8) as nat, order)
    }

    proof fn lemma_value_round_trip(self, order: ByteOrder) {
        crate::byte_order::lemma_pow256_values();
        crate::byte_order::lemma_value_round_trip((self as usize) as nat, (usize::BITS / 8) as nat, order);
        assert((self as usize) as isize == self) by (bit_vector);
    }

    proof fn lemma_bytes_round_trip(bytes: Seq<u8>, order: ByteOrder) {
        let value = crate::byte_order::value_of(bytes, order) as usize;
        crate::byte_order::lemma_pow256_values();
        crate::byte_order::lemma_value_of_bound(bytes, order);
        crate::byte_order::lemma_bytes_round_trip(bytes, order);
        assert((value as isize) as usize == value) by (bit_vector);
    }

    fn load(row: &[u8], offset: usize, order: ByteOrder) -> (value: Self) {
        let value = read_uint(row, offset, (usize::BITS / 8) as usize, order);
        (value as usize) as isize
    }

    fn store(self, row: &mut [u8], offset: usize, order: ByteOrder) {
        write_uint(row, offset, (usize::BITS / 8) as usize, (self as usize) as u128, order);
    }
}

} // verus!
