//! What the bytes of a row mean as integers, written out byte by byte.
use crate::byte_order::ByteOrder;
use crate::row_value::RowValue;
use vstd::prelude::*;

verus! {

/// The bytes of a number are its base-256 digits: the first is the least
/// significant in little-endian order, the last in big-endian order.
pub proof fn law_bytes_are_digits(bytes: Seq<u8>, order: ByteOrder, k: int)
    requires
        0 <= k < bytes.len(),
    ensures
        crate::byte_order::value_of(bytes, order) < vstd::arithmetic::power::pow(
            256,
            bytes.len(),
        ),
        crate::byte_order::value_of(bytes, order) as int / vstd::arithmetic::power::pow(
            256,
            k as nat,
        ) % 256 == (if order == ByteOrder::Little {
            bytes[k]
        } else {
            bytes[bytes.len() - 1 - k]
        }),
{
    let digits = crate::byte_order::in_order(bytes, order);
    lemma_digit(digits, k);
    lemma_digits_bound(digits);
}

/// A number is written as its base-256 digits, as many of them as there is room
/// for, the least significant first in little-endian order, last in big-endian
/// order.
pub proof fn law_digits_are_bytes(value: nat, n: nat, order: ByteOrder, k: int)
    requires
        0 <= k < n,
    ensures
        crate::byte_order::bytes_of(value, n, order).len() == n,
        crate::byte_order::bytes_of(value, n, order)[if order == ByteOrder::Little {
            k
        } else {
            n - 1 - k
        }] == value as int / vstd::arithmetic::power::pow(256, k as nat) % 256,
{
    lemma_written_digit(value, n, k);
}

/// Writing bytes over a row leaves what lies before and behind them.
pub proof fn law_overwrite(row: Seq<u8>, offset: int, bytes: Seq<u8>)
    requires
        0 <= offset,
        offset + bytes.len() <= row.len(),
    ensures
        crate::byte_order::overwrite(row, offset, bytes) == row.subrange(0, offset) + bytes
            + row.subrange(offset + bytes.len(), row.len() as int),
{
    assert(crate::byte_order::overwrite(row, offset, bytes) =~= row.subrange(0, offset) + bytes
        + row.subrange(offset + bytes.len(), row.len() as int));
}

/// Storing a value changes bytes only where the value lies.
pub proof fn law_store_writes_its_bytes<T: RowValue>(row: Seq<u8>, offset: int, value: T, i: int)
    requires
        0 <= offset,
        offset + T::width() <= row.len(),
        0 <= i < row.len(),
    ensures
        crate::row_container::with_value(row, offset, value).len() == row.len(),
        i < offset || offset + T::width() <= i ==> crate::row_container::with_value(
            row,
            offset,
            value,
        )[i] == row[i],
{
    value.lemma_value_round_trip(crate::byte_order::native());
}

proof fn lemma_digit(digits: Seq<u8>, k: int)
    requires
        0 <= k < digits.len(),
    ensures
        crate::byte_order::digits_value(digits) as int / vstd::arithmetic::power::pow(
            256,
            k as nat,
        ) % 256 == digits[k],
    decreases k,
{
    reveal(vstd::arithmetic::power::pow);
    let value = crate::byte_order::digits_value(digits) as int;
    let rest = digits.drop_first();
    if k > 0 {
        lemma_digit(rest, k - 1);
        vstd::arithmetic::power::lemma_pow_positive(256, (k - 1) as nat);
        vstd::arithmetic::div_mod::lemma_div_denominator(
            value,
            256,
            vstd::arithmetic::power::pow(256, (k - 1) as nat),
        );
        assert(value / 256 == crate::byte_order::digits_value(rest));
    }
}

proof fn lemma_digits_bound(digits: Seq<u8>)
    ensures
        crate::byte_order::digits_value(digits) < vstd::arithmetic::power::pow(
            256,
            digits.len(),
        ),
    decreases digits.len(),
{
    reveal(vstd::arithmetic::power::pow);
    if digits.len() > 0 {
        lemma_digits_bound(digits.drop_first());
    }
}

proof fn lemma_written_digit(value: nat, n: nat, k: int)
    requires
        0 <= k < n,
    ensures
        crate::byte_order::value_digits(value, n).len() == n,
        crate::byte_order::value_digits(value, n)[k] == value as int
            / vstd::arithmetic::power::pow(256, k as nat) % 256,
    decreases n,
{
    reveal(vstd::arithmetic::power::pow);
    let rest = crate::byte_order::value_digits(value / 256, (n - 1) as nat);
    if n > 1 {
        lemma_written_digit(value / 256, (n - 1) as nat, if k > 0 {
            k - 1
        } else {
            0
        });
    }
    if k > 0 {
        vstd::arithmetic::power::lemma_pow_positive(256, (k - 1) as nat);
        vstd::arithmetic::div_mod::lemma_div_denominator(
            value as int,
            256,
            vstd::arithmetic::power::pow(256, (k - 1) as nat),
        );
    }
}

proof fn lemma_value_split(d: Seq<u8>, k: int)
    requires
        0 <= k <= d.len(),
    ensures
        crate::byte_order::digits_value(d) == crate::byte_order::digits_value(d.take(k))
            + crate::byte_order::pow256(k as nat) * crate::byte_order::digits_value(d.skip(k)),
    decreases k,
{
    if k == 0 {
        assert(d.skip(0) =~= d);
        assert(crate::byte_order::digits_value(d.take(0)) == 0);
        assert(crate::byte_order::pow256(0) * crate::byte_order::digits_value(d)
            == crate::byte_order::digits_value(d)) by (nonlinear_arith)
            requires
                crate::byte_order::pow256(0) == 1,
        ;
    } else {
        let rest = d.drop_first();
        lemma_value_split(rest, k - 1);
        assert(d.take(k).drop_first() =~= rest.take(k - 1));
        assert(d.skip(k) =~= rest.skip(k - 1));
        let p = crate::byte_order::pow256((k - 1) as nat);
        let high = crate::byte_order::digits_value(d.skip(k));
        assert(256 * (p * high) == (256 * p) * high) by (nonlinear_arith);
    }
}

proof fn lemma_value_1(d: Seq<u8>)
    requires
        d.len() == 1,
    ensures
        crate::byte_order::digits_value(d) == d[0],
{
    assert(crate::byte_order::digits_value(d.drop_first()) == 0);
}

proof fn lemma_value_2(d: Seq<u8>)
    requires
        d.len() == 2,
    ensures
        crate::byte_order::digits_value(d) == d[0]
            + d[1] * 0x100,
{
    lemma_value_split(d, 1);
    lemma_value_1(d.take(1));
    lemma_value_1(d.skip(1));
    crate::byte_order::lemma_pow256_values();
}

proof fn lemma_value_4(d: Seq<u8>)
    requires
        d.len() == 4,
    ensures
        crate::byte_order::digits_value(d) == d[0]
            + d[1] * 0x100
            + d[2] * 0x1_0000
            + d[3] * 0x100_0000,
{
    lemma_value_split(d, 2);
    lemma_value_2(d.take(2));
    lemma_value_2(d.skip(2));
    crate::byte_order::lemma_pow256_values();
}

proof fn lemma_value_8(d: Seq<u8>)
    requires
        d.len() == 8,
    ensures
        crate::byte_order::digits_value(d) == d[0]
            + d[1] * 0x100
            + d[2] * 0x1_0000
            + d[3] * 0x100_0000
            + d[4] * 0x1_0000_0000
            + d[5] * 0x100_0000_0000
            + d[6] * 0x1_0000_0000_0000
            + d[7] * 0x100_0000_0000_0000,
{
    lemma_value_split(d, 4);
    lemma_value_4(d.take(4));
    lemma_value_4(d.skip(4));
    crate::byte_order::lemma_pow256_values();
}

proof fn lemma_value_16(d: Seq<u8>)
    requires
        d.len() == 16,
    ensures
        crate::byte_order::digits_value(d) == d[0]
            + d[1] * 0x100
            + d[2] * 0x1_0000
            + d[3] * 0x100_0000
            + d[4] * 0x1_0000_0000
            + d[5] * 0x100_0000_0000
            + d[6] * 0x1_0000_0000_0000
            + d[7] * 0x100_0000_0000_0000
            + d[8] * 0x1_0000_0000_0000_0000int
            + d[9] * 0x100_0000_0000_0000_0000int
            + d[10] * 0x1_0000_0000_0000_0000_0000int
            + d[11] * 0x100_0000_0000_0000_0000_0000int
            + d[12] * 0x1_0000_0000_0000_0000_0000_0000int
            + d[13] * 0x100_0000_0000_0000_0000_0000_0000int
            + d[14] * 0x1_0000_0000_0000_0000_0000_0000_0000int
            + d[15] * 0x100_0000_0000_0000_0000_0000_0000_0000int,
{
    lemma_value_split(d, 8);
    lemma_value_8(d.take(8));
    lemma_value_8(d.skip(8));
    crate::byte_order::lemma_pow256_values();
}

/// A `u8` is the sum of its bytes, each weighted by its place.
pub proof fn law_reads_u8(row: Seq<u8>, offset: int)
    requires
        0 <= offset,
        offset + 1 <= row.len(),
    ensures
        ({
            let little = row[offset];
            let big = row[offset];
            let bytes = row.subrange(offset, offset + 1);
            &&& u8::width() == 1
            &&& u8::from_bytes(bytes, ByteOrder::Little) == little
            &&& u8::from_bytes(bytes, ByteOrder::Big) == big
            &&& crate::row_container::value_at::<u8>(row, offset) == (
            if vstd::endian::endianness() is Little {
                little as int
            } else {
                big as int
            })
            &&& (forall|k: int| offset <= k < offset + 1 ==> row[k] == 0)
                ==> crate::row_container::value_at::<u8>(row, offset) == 0
        }),
{
    let bytes = row.subrange(offset, offset + 1);
    lemma_value_1(bytes);
    lemma_value_1(bytes.reverse());
    crate::byte_order::lemma_value_of_bound(bytes, ByteOrder::Little);
    crate::byte_order::lemma_value_of_bound(bytes, ByteOrder::Big);
    crate::byte_order::lemma_pow256_values();
}

/// A `u16` is the sum of its bytes, each weighted by its place.
pub proof fn law_reads_u16(row: Seq<u8>, offset: int)
    requires
        0 <= offset,
        offset + 2 <= row.len(),
    ensures
        ({
            let little = row[offset]
                + row[offset + 1] * 0x100;
            let big = row[offset + 1]
                + row[offset] * 0x100;
            let bytes = row.subrange(offset, offset + 2);
            &&& u16::width() == 2
            &&& u16::from_bytes(bytes, ByteOrder::Little) == little
            &&& u16::from_bytes(bytes, ByteOrder::Big) == big
            &&& crate::row_container::value_at::<u16>(row, offset) == (
            if vstd::endian::endianness() is Little {
                little as int
            } else {
                big as int
            })
            &&& (forall|k: int| offset <= k < offset + 2 ==> row[k] == 0)
                ==> crate::row_container::value_at::<u16>(row, offset) == 0
        }),
{
    let bytes = row.subrange(offset, offset + 2);
    lemma_value_2(bytes);
    lemma_value_2(bytes.reverse());
    crate::byte_order::lemma_value_of_bound(bytes, ByteOrder::Little);
    crate::byte_order::lemma_value_of_bound(bytes, ByteOrder::Big);
    crate::byte_order::lemma_pow256_values();
}

/// A `u32` is the sum of its bytes, each weighted by its place.
pub proof fn law_reads_u32(row: Seq<u8>, offset: int)
    requires
        0 <= offset,
        offset + 4 <= row.len(),
    ensures
        ({
            let little = row[offset]
                + row[offset + 1] * 0x100
                + row[offset + 2] * 0x1_0000
                + row[offset + 3] * 0x100_0000;
            let big = row[offset + 3]
                + row[offset + 2] * 0x100
                + row[offset + 1] * 0x1_0000
                + row[offset] * 0x100_0000;
            let bytes = row.subrange(offset, offset + 4);
            &&& u32::width() == 4
            &&& u32::from_bytes(bytes, ByteOrder::Little) == little
            &&& u32::from_bytes(bytes, ByteOrder::Big) == big
            &&& crate::row_container::value_at::<u32>(row, offset) == (
            if vstd::endian::endianness() is Little {
                little as int
            } else {
                big as int
            })
            &&& (forall|k: int| offset <= k < offset + 4 ==> row[k] == 0)
                ==> crate::row_container::value_at::<u32>(row, offset) == 0
        }),
{
    let bytes = row.subrange(offset, offset + 4);
    lemma_value_4(bytes);
    lemma_value_4(bytes.reverse());
    crate::byte_order::lemma_value_of_bound(bytes, ByteOrder::Little);
    crate::byte_order::lemma_value_of_bound(bytes, ByteOrder::Big);
    crate::byte_order::lemma_pow256_values();
}

/// A `u64` is the sum of its bytes, each weighted by its place.
pub proof fn law_reads_u64(row: Seq<u8>, offset: int)
    requires
        0 <= offset,
        offset + 8 <= row.len(),
    ensures
        ({
            let little = row[offset]
                + row[offset + 1] * 0x100
                + row[offset + 2] * 0x1_0000
                + row[offset + 3] * 0x100_0000
                + row[offset + 4] * 0x1_0000_0000
                + row[offset + 5] * 0x100_0000_0000
                + row[offset + 6] * 0x1_0000_0000_0000
                + row[offset + 7] * 0x100_0000_0000_0000;
            let big = row[offset + 7]
                + row[offset + 6] * 0x100
                + row[offset + 5] * 0x1_0000
                + row[offset + 4] * 0x100_0000
                + row[offset + 3] * 0x1_0000_0000
                + row[offset + 2] * 0x100_0000_0000
                + row[offset + 1] * 0x1_0000_0000_0000
                + row[offset] * 0x100_0000_0000_0000;
            let bytes = row.subrange(offset, offset + 8);
            &&& u64::width() == 8
            &&& u64::from_bytes(bytes, ByteOrder::Little) == little
            &&& u64::from_bytes(bytes, ByteOrder::Big) == big
            &&& crate::row_container::value_at::<u64>(row, offset) == (
            if vstd::endian::endianness() is Little {
                little as int
            } else {
                big as int
            })
            &&& (forall|k: int| offset <= k < offset + 8 ==> row[k] == 0)
                ==> crate::row_container::value_at::<u64>(row, offset) == 0
        }),
{
    let bytes = row.subrange(offset, offset + 8);
    lemma_value_8(bytes);
    lemma_value_8(bytes.reverse());
    crate::byte_order::lemma_value_of_bound(bytes, ByteOrder::Little);
    crate::byte_order::lemma_value_of_bound(bytes, ByteOrder::Big);
    crate::byte_order::lemma_pow256_values();
}

/// A `u128` is the sum of its bytes, each weighted by its place.
pub proof fn law_reads_u128(row: Seq<u8>, offset: int)
    requires
        0 <= offset,
        offset + 16 <= row.len(),
    ensures
        ({
            let little = row[offset]
                + row[offset + 1] * 0x100
                + row[offset + 2] * 0x1_0000
                + row[offset + 3] * 0x100_0000
                + row[offset + 4] * 0x1_0000_0000
                + row[offset + 5] * 0x100_0000_0000
                + row[offset + 6] * 0x1_0000_0000_0000
                + row[offset + 7] * 0x100_0000_0000_0000
                + row[offset + 8] * 0x1_0000_0000_0000_0000int
                + row[offset + 9] * 0x100_0000_0000_0000_0000int
                + row[offset + 10] * 0x1_0000_0000_0000_0000_0000int
                + row[offset + 11] * 0x100_0000_0000_0000_0000_0000int
                + row[offset + 12] * 0x1_0000_0000_0000_0000_0000_0000int
                + row[offset + 13] * 0x100_0000_0000_0000_0000_0000_0000int
                + row[offset + 14] * 0x1_0000_0000_0000_0000_0000_0000_0000int
                + row[offset + 15] * 0x100_0000_0000_0000_0000_0000_0000_0000int;
            let big = row[offset + 15]
                + row[offset + 14] * 0x100
                + row[offset + 13] * 0x1_0000
                + row[offset + 12] * 0x100_0000
                + row[offset + 11] * 0x1_0000_0000
                + row[offset + 10] * 0x100_0000_0000
                + row[offset + 9] * 0x1_0000_0000_0000
                + row[offset + 8] * 0x100_0000_0000_0000
                + row[offset + 7] * 0x1_0000_0000_0000_0000int
                + row[offset + 6] * 0x100_0000_0000_0000_0000int
                + row[offset + 5] * 0x1_0000_0000_0000_0000_0000int
                + row[offset + 4] * 0x100_0000_0000_0000_0000_0000int
                + row[offset + 3] * 0x1_0000_0000_0000_0000_0000_0000int
                + row[offset + 2] * 0x100_0000_0000_0000_0000_0000_0000int
                + row[offset + 1] * 0x1_0000_0000_0000_0000_0000_0000_0000int
                + row[offset] * 0x100_0000_0000_0000_0000_0000_0000_0000int;
            let bytes = row.subrange(offset, offset + 16);
            &&& u128::width() == 16
            &&& u128::from_bytes(bytes, ByteOrder::Little) == little
            &&& u128::from_bytes(bytes, ByteOrder::Big) == big
            &&& crate::row_container::value_at::<u128>(row, offset) == (
            if vstd::endian::endianness() is Little {
                little as int
            } else {
                big as int
            })
            &&& (forall|k: int| offset <= k < offset + 16 ==> row[k] == 0)
                ==> crate::row_container::value_at::<u128>(row, offset) == 0
        }),
{
    let bytes = row.subrange(offset, offset + 16);
    lemma_value_16(bytes);
    lemma_value_16(bytes.reverse());
    crate::byte_order::lemma_value_of_bound(bytes, ByteOrder::Little);
    crate::byte_order::lemma_value_of_bound(bytes, ByteOrder::Big);
    crate::byte_order::lemma_pow256_values();
}

/// An `i8` is read in two's complement: as the sum of its bytes, each weighted by
/// its place, less 2^8 where the sum is 2^7 or more.
pub proof fn law_reads_i8(row: Seq<u8>, offset: int)
    requires
        0 <= offset,
        offset + 1 <= row.len(),
    ensures
        ({
            let little = row[offset];
            let big = row[offset];
            let bytes = row.subrange(offset, offset + 1);
            let native = if vstd::endian::endianness() is Little {
                little as int
            } else {
                big as int
            };
            &&& i8::width() == 1
            &&& i8::from_bytes(bytes, ByteOrder::Little) == (if little < 0x80int {
                little as int
            } else {
                little - 0x100int
            })
            &&& i8::from_bytes(bytes, ByteOrder::Big) == (if big < 0x80int {
                big as int
            } else {
                big - 0x100int
            })
            &&& crate::row_container::value_at::<i8>(row, offset) == (if native < 0x80int {
                native
            } else {
                native - 0x100int
            })
            &&& crate::row_container::value_at::<u8>(row, offset) == (
            if crate::row_container::value_at::<i8>(row, offset) >= 0 {
                crate::row_container::value_at::<i8>(row, offset) as int
            } else {
                crate::row_container::value_at::<i8>(row, offset) + 0x100int
            })
            &&& (forall|k: int| offset <= k < offset + 1 ==> row[k] == 0)
                ==> crate::row_container::value_at::<i8>(row, offset) == 0
        }),
{
    law_reads_u8(row, offset);
    let bytes = row.subrange(offset, offset + 1);
    lemma_signed_8(u8::from_bytes(bytes, ByteOrder::Little));
    lemma_signed_8(u8::from_bytes(bytes, ByteOrder::Big));
}

proof fn lemma_signed_8(value: u8)
    ensures
        value < 0x80 ==> value as i8 == value,
        value >= 0x80 ==> value as i8 == value - 0x100int,
{
    assert((value < 0x80u8 ==> value as i8 == value) && (value >= 0x80u8
        ==> value as i8 == value - 0xffu8 - 1)) by (bit_vector);
}

/// An `i16` is read in two's complement: as the sum of its bytes, each weighted by
/// its place, less 2^16 where the sum is 2^15 or more.
pub proof fn law_reads_i16(row: Seq<u8>, offset: int)
    requires
        0 <= offset,
        offset + 2 <= row.len(),
    ensures
        ({
            let little = row[offset]
                + row[offset + 1] * 0x100;
            let big = row[offset + 1]
                + row[offset] * 0x100;
            let bytes = row.subrange(offset, offset + 2);
            let native = if vstd::endian::endianness() is Little {
                little as int
            } else {
                big as int
            };
            &&& i16::width() == 2
            &&& i16::from_bytes(bytes, ByteOrder::Little) == (if little < 0x8000int {
                little as int
            } else {
                little - 0x1_0000int
            })
            &&& i16::from_bytes(bytes, ByteOrder::Big) == (if big < 0x8000int {
                big as int
            } else {
                big - 0x1_0000int
            })
            &&& crate::row_container::value_at::<i16>(row, offset) == (if native < 0x8000int {
                native
            } else {
                native - 0x1_0000int
            })
            &&& crate::row_container::value_at::<u16>(row, offset) == (
            if crate::row_container::value_at::<i16>(row, offset) >= 0 {
                crate::row_container::value_at::<i16>(row, offset) as int
            } else {
                crate::row_container::value_at::<i16>(row, offset) + 0x1_0000int
            })
            &&& (forall|k: int| offset <= k < offset + 2 ==> row[k] == 0)
                ==> crate::row_container::value_at::<i16>(row, offset) == 0
        }),
{
    law_reads_u16(row, offset);
    let bytes = row.subrange(offset, offset + 2);
    lemma_signed_16(u16::from_bytes(bytes, ByteOrder::Little));
    lemma_signed_16(u16::from_bytes(bytes, ByteOrder::Big));
}

proof fn lemma_signed_16(value: u16)
    ensures
        value < 0x8000 ==> value as i16 == value,
        value >= 0x8000 ==> value as i16 == value - 0x1_0000int,
{
    assert((value < 0x8000u16 ==> value as i16 == value) && (value >= 0x8000u16
        ==> value as i16 == value - 0xffffu16 - 1)) by (bit_vector);
}

/// An `i32` is read in two's complement: as the sum of its bytes, each weighted by
/// its place, less 2^32 where the sum is 2^31 or more.
pub proof fn law_reads_i32(row: Seq<u8>, offset: int)
    requires
        0 <= offset,
        offset + 4 <= row.len(),
    ensures
        ({
            let little = row[offset]
                + row[offset + 1] * 0x100
                + row[offset + 2] * 0x1_0000
                + row[offset + 3] * 0x100_0000;
            let big = row[offset + 3]
                + row[offset + 2] * 0x100
                + row[offset + 1] * 0x1_0000
                + row[offset] * 0x100_0000;
            let bytes = row.subrange(offset, offset + 4);
            let native = if vstd::endian::endianness() is Little {
                little as int
            } else {
                big as int
            };
            &&& i32::width() == 4
            &&& i32::from_bytes(bytes, ByteOrder::Little) == (if little < 0x8000_0000int {
                little as int
            } else {
                little - 0x1_0000_0000int
            })
            &&& i32::from_bytes(bytes, ByteOrder::Big) == (if big < 0x8000_0000int {
                big as int
            } else {
                big - 0x1_0000_0000int
            })
            &&& crate::row_container::value_at::<i32>(row, offset) == (if native < 0x8000_0000int {
                native
            } else {
                native - 0x1_0000_0000int
            })
            &&& crate::row_container::value_at::<u32>(row, offset) == (
            if crate::row_container::value_at::<i32>(row, offset) >= 0 {
                crate::row_container::value_at::<i32>(row, offset) as int
            } else {
                crate::row_container::value_at::<i32>(row, offset) + 0x1_0000_0000int
            })
            &&& (forall|k: int| offset <= k < offset + 4 ==> row[k] == 0)
                ==> crate::row_container::value_at::<i32>(row, offset) == 0
        }),
{
    law_reads_u32(row, offset);
    let bytes = row.subrange(offset, offset + 4);
    lemma_signed_32(u32::from_bytes(bytes, ByteOrder::Little));
    lemma_signed_32(u32::from_bytes(bytes, ByteOrder::Big));
}

proof fn lemma_signed_32(value: u32)
    ensures
        value < 0x8000_0000 ==> value as i32 == value,
        value >= 0x8000_0000 ==> value as i32 == value - 0x1_0000_0000int,
{
    assert((value < 0x8000_0000u32 ==> value as i32 == value) && (value >= 0x8000_0000u32
        ==> value as i32 == value - 0xffff_ffffu32 - 1)) by (bit_vector);
}

/// An `i64` is read in two's complement: as the sum of its bytes, each weighted by
/// its place, less 2^64 where the sum is 2^63 or more.
pub proof fn law_reads_i64(row: Seq<u8>, offset: int)
    requires
        0 <= offset,
        offset + 8 <= row.len(),
    ensures
        ({
            let little = row[offset]
                + row[offset + 1] * 0x100
                + row[offset + 2] * 0x1_0000
                + row[offset + 3] * 0x100_0000
                + row[offset + 4] * 0x1_0000_0000
                + row[offset + 5] * 0x100_0000_0000
                + row[offset + 6] * 0x1_0000_0000_0000
                + row[offset + 7] * 0x100_0000_0000_0000;
            let big = row[offset + 7]
                + row[offset + 6] * 0x100
                + row[offset + 5] * 0x1_0000
                + row[offset + 4] * 0x100_0000
                + row[offset + 3] * 0x1_0000_0000
                + row[offset + 2] * 0x100_0000_0000
                + row[offset + 1] * 0x1_0000_0000_0000
                + row[offset] * 0x100_0000_0000_0000;
            let bytes = row.subrange(offset, offset + 8);
            let native = if vstd::endian::endianness() is Little {
                little as int
            } else {
                big as int
            };
            &&& i64::width() == 8
            &&& i64::from_bytes(bytes, ByteOrder::Little) == (if little < 0x8000_0000_0000_0000int {
                little as int
            } else {
                little - 0x1_0000_0000_0000_0000int
            })
            &&& i64::from_bytes(bytes, ByteOrder::Big) == (if big < 0x8000_0000_0000_0000int {
                big as int
            } else {
                big - 0x1_0000_0000_0000_0000int
            })
            &&& crate::row_container::value_at::<i64>(row, offset) == (if native < 0x8000_0000_0000_0000int {
                native
            } else {
                native - 0x1_0000_0000_0000_0000int
            })
            &&& crate::row_container::value_at::<u64>(row, offset) == (
            if crate::row_container::value_at::<i64>(row, offset) >= 0 {
                crate::row_container::value_at::<i64>(row, offset) as int
            } else {
                crate::row_container::value_at::<i64>(row, offset) + 0x1_0000_0000_0000_0000int
            })
            &&& (forall|k: int| offset <= k < offset + 8 ==> row[k] == 0)
                ==> crate::row_container::value_at::<i64>(row, offset) == 0
        }),
{
    law_reads_u64(row, offset);
    let bytes = row.subrange(offset, offset + 8);
    lemma_signed_64(u64::from_bytes(bytes, ByteOrder::Little));
    lemma_signed_64(u64::from_bytes(bytes, ByteOrder::Big));
}

proof fn lemma_signed_64(value: u64)
    ensures
        value < 0x8000_0000_0000_0000 ==> value as i64 == value,
        value >= 0x8000_0000_0000_0000 ==> value as i64 == value - 0x1_0000_0000_0000_0000int,
{
    assert((value < 0x8000_0000_0000_0000u64 ==> value as i64 == value) && (value >= 0x8000_0000_0000_0000u64
        ==> value as i64 == value - 0xffff_ffff_ffff_ffffu64 - 1)) by (bit_vector);
}

/// An `i128` is read in two's complement: as the sum of its bytes, each weighted by
/// its place, less 2^128 where the sum is 2^127 or more.
pub proof fn law_reads_i128(row: Seq<u8>, offset: int)
    requires
        0 <= offset,
        offset + 16 <= row.len(),
    ensures
        ({
            let little = row[offset]
                + row[offset + 1] * 0x100
                + row[offset + 2] * 0x1_0000
                + row[offset + 3] * 0x100_0000
                + row[offset + 4] * 0x1_0000_0000
                + row[offset + 5] * 0x100_0000_0000
                + row[offset + 6] * 0x1_0000_0000_0000
                + row[offset + 7] * 0x100_0000_0000_0000
                + row[offset + 8] * 0x1_0000_0000_0000_0000int
                + row[offset + 9] * 0x100_0000_0000_0000_0000int
                + row[offset + 10] * 0x1_0000_0000_0000_0000_0000int
                + row[offset + 11] * 0x100_0000_0000_0000_0000_0000int
                + row[offset + 12] * 0x1_0000_0000_0000_0000_0000_0000int
                + row[offset + 13] * 0x100_0000_0000_0000_0000_0000_0000int
                + row[offset + 14] * 0x1_0000_0000_0000_0000_0000_0000_0000int
                + row[offset + 15] * 0x100_0000_0000_0000_0000_0000_0000_0000int;
            let big = row[offset + 15]
                + row[offset + 14] * 0x100
                + row[offset + 13] * 0x1_0000
                + row[offset + 12] * 0x100_0000
                + row[offset + 11] * 0x1_0000_0000
                + row[offset + 10] * 0x100_0000_0000
                + row[offset + 9] * 0x1_0000_0000_0000
                + row[offset + 8] * 0x100_0000_0000_0000
                + row[offset + 7] * 0x1_0000_0000_0000_0000int
                + row[offset + 6] * 0x100_0000_0000_0000_0000int
                + row[offset + 5] * 0x1_0000_0000_0000_0000_0000int
                + row[offset + 4] * 0x100_0000_0000_0000_0000_0000int
                + row[offset + 3] * 0x1_0000_0000_0000_0000_0000_0000int
                + row[offset + 2] * 0x100_0000_0000_0000_0000_0000_0000int
                + row[offset + 1] * 0x1_0000_0000_0000_0000_0000_0000_0000int
                + row[offset] * 0x100_0000_0000_0000_0000_0000_0000_0000int;
            let bytes = row.subrange(offset, offset + 16);
            let native = if vstd::endian::endianness() is Little {
                little as int
            } else {
                big as int
            };
            &&& i128::width() == 16
            &&& i128::from_bytes(bytes, ByteOrder::Little) == (if little < 0x8000_0000_0000_0000_0000_0000_0000_0000int {
                little as int
            } else {
                little - 0x1_0000_0000_0000_0000_0000_0000_0000_0000int
            })
            &&& i128::from_bytes(bytes, ByteOrder::Big) == (if big < 0x8000_0000_0000_0000_0000_0000_0000_0000int {
                big as int
            } else {
                big - 0x1_0000_0000_0000_0000_0000_0000_0000_0000int
            })
            &&& crate::row_container::value_at::<i128>(row, offset) == (if native < 0x8000_0000_0000_0000_0000_0000_0000_0000int {
                native
            } else {
                native - 0x1_0000_0000_0000_0000_0000_0000_0000_0000int
            })
            &&& crate::row_container::value_at::<u128>(row, offset) == (
            if crate::row_container::value_at::<i128>(row, offset) >= 0 {
                crate::row_container::value_at::<i128>(row, offset) as int
            } else {
                crate::row_container::value_at::<i128>(row, offset) + 0x1_0000_0000_0000_0000_0000_0000_0000_0000int
            })
            &&& (forall|k: int| offset <= k < offset + 16 ==> row[k] == 0)
                ==> crate::row_container::value_at::<i128>(row, offset) == 0
        }),
{
    law_reads_u128(row, offset);
    let bytes = row.subrange(offset, offset + 16);
    lemma_signed_128(u128::from_bytes(bytes, ByteOrder::Little));
    lemma_signed_128(u128::from_bytes(bytes, ByteOrder::Big));
}

proof fn lemma_signed_128(value: u128)
    ensures
        value < 0x8000_0000_0000_0000_0000_0000_0000_0000 ==> value as i128 == value,
        value >= 0x8000_0000_0000_0000_0000_0000_0000_0000 ==> value as i128 == value - 0x1_0000_0000_0000_0000_0000_0000_0000_0000int,
{
    assert((value < 0x8000_0000_0000_0000_0000_0000_0000_0000u128 ==> value as i128 == value) && (value >= 0x8000_0000_0000_0000_0000_0000_0000_0000u128
        ==> value as i128 == value - 0xffff_ffff_ffff_ffff_ffff_ffff_ffff_ffffu128 - 1)) by (bit_vector);
}

/// A `usize` or `isize` is read as the integer of its width.
pub proof fn law_reads_pointer_sized(row: Seq<u8>, offset: int)
    requires
        0 <= offset,
        offset + usize::BITS / 8 <= row.len(),
    ensures
        usize::width() * 8 == usize::BITS,
        isize::width() * 8 == usize::BITS,
        usize::BITS == 64 ==> crate::row_container::value_at::<usize>(row, offset)
            == crate::row_container::value_at::<u64>(row, offset),
        usize::BITS == 32 ==> crate::row_container::value_at::<usize>(row, offset)
            == crate::row_container::value_at::<u32>(row, offset),
        usize::BITS == 64 ==> crate::row_container::value_at::<isize>(row, offset)
            == crate::row_container::value_at::<i64>(row, offset),
        usize::BITS == 32 ==> crate::row_container::value_at::<isize>(row, offset)
            == crate::row_container::value_at::<i32>(row, offset),
{
}

} // verus!
