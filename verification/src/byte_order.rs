//! Non-negative integers as sequences of bytes, in either byte order.
use vstd::prelude::*;

verus! {

/// The order in which the bytes of an integer lie in memory.
#[derive(Clone, Copy, PartialEq, Eq, Structural, Debug)]
pub enum ByteOrder {
    /// Least significant byte first.
    Little,
    /// Most significant byte first.
    Big,
}

/// The byte order of the machine that runs the program.
pub open spec fn native() -> ByteOrder {
    match vstd::endian::endianness() {
        vstd::endian::Endian::Little => ByteOrder::Little,
        vstd::endian::Endian::Big => ByteOrder::Big,
    }
}

/// How many values `n` bytes can tell apart.
pub open spec fn pow256(n: nat) -> nat
    decreases n,
{
    if n == 0 {
        1
    } else {
        256 * pow256((n - 1) as nat)
    }
}

/// The number whose base-256 digits are `digits`, least significant first.
pub open spec fn digits_value(digits: Seq<u8>) -> nat
    decreases digits.len(),
{
    if digits.len() == 0 {
        0
    } else {
        digits[0] as nat + 256 * digits_value(digits.drop_first())
    }
}

/// The `n` least significant base-256 digits of `value`, least significant first.
pub open spec fn value_digits(value: nat, n: nat) -> Seq<u8>
    decreases n,
{
    if n == 0 {
        Seq::empty()
    } else {
        seq![(value % 256) as u8] + value_digits(value / 256, (n - 1) as nat)
    }
}

/// `bytes` read from its least significant byte on, or the other way round:
/// turns memory order into digit order and back.
pub open spec fn in_order(bytes: Seq<u8>, order: ByteOrder) -> Seq<u8> {
    match order {
        ByteOrder::Little => bytes,
        ByteOrder::Big => bytes.reverse(),
    }
}

/// The number that `bytes` holds in the given byte order.
pub open spec fn value_of(bytes: Seq<u8>, order: ByteOrder) -> nat {
    digits_value(in_order(bytes, order))
}

/// The `n` bytes that hold `value` in the given byte order.
pub open spec fn bytes_of(value: nat, n: nat, order: ByteOrder) -> Seq<u8> {
    in_order(value_digits(value, n), order)
}

/// `row` with `bytes` written over it from `offset` on.
pub open spec fn overwrite(row: Seq<u8>, offset: int, bytes: Seq<u8>) -> Seq<u8> {
    Seq::new(
        row.len(),
        |i: int|
            if offset <= i < offset + bytes.len() {
                bytes[i - offset]
            } else {
                row[i]
            },
    )
}

proof fn lemma_pow256_monotone(m: nat, n: nat)
    requires
        m <= n,
    ensures
        pow256(m) <= pow256(n),
    decreases n,
{
    if m < n {
        lemma_pow256_monotone(m, (n - 1) as nat);
    }
}

/// The powers that the integer types need.
pub proof fn lemma_pow256_values()
    ensures
        pow256(1) == 0x100,
        pow256(2) == 0x1_0000,
        pow256(4) == 0x1_0000_0000,
        pow256(8) == 0x1_0000_0000_0000_0000,
        pow256(16) == 0x1_0000_0000_0000_0000_0000_0000_0000_0000,
{
    reveal_with_fuel(pow256, 17);
}

proof fn lemma_digits_value_bound(digits: Seq<u8>)
    ensures
        digits_value(digits) < pow256(digits.len()),
    decreases digits.len(),
{
    if digits.len() > 0 {
        lemma_digits_value_bound(digits.drop_first());
    }
}

proof fn lemma_value_digits_len(value: nat, n: nat)
    ensures
        value_digits(value, n).len() == n,
    decreases n,
{
    if n > 0 {
        lemma_value_digits_len(value / 256, (n - 1) as nat);
    }
}

proof fn lemma_digits_of_value(value: nat, n: nat)
    requires
        value < pow256(n),
    ensures
        digits_value(value_digits(value, n)) == value,
    decreases n,
{
    if n > 0 {
        let rest = value_digits(value / 256, (n - 1) as nat);
        lemma_digits_of_value(value / 256, (n - 1) as nat);
        assert(value_digits(value, n).drop_first() =~= rest);
    }
}

proof fn lemma_value_of_digits(digits: Seq<u8>)
    ensures
        value_digits(digits_value(digits), digits.len()) == digits,
    decreases digits.len(),
{
    if digits.len() > 0 {
        lemma_value_of_digits(digits.drop_first());
        let value = digits_value(digits);
        assert(value % 256 == digits[0] && value / 256 == digits_value(digits.drop_first()));
        assert(value_digits(value, digits.len()) =~= digits);
    }
}

pub proof fn lemma_value_of_bound(bytes: Seq<u8>, order: ByteOrder)
    ensures
        value_of(bytes, order) < pow256(bytes.len()),
{
    lemma_digits_value_bound(in_order(bytes, order));
}

/// Writing a number and reading it back gives the number.
pub proof fn lemma_value_round_trip(value: nat, n: nat, order: ByteOrder)
    requires
        value < pow256(n),
    ensures
        bytes_of(value, n, order).len() == n,
        value_of(bytes_of(value, n, order), order) == value,
{
    let digits = value_digits(value, n);
    lemma_value_digits_len(value, n);
    lemma_digits_of_value(value, n);
    assert(in_order(in_order(digits, order), order) =~= digits);
}

/// Reading a number and writing it back gives the bytes.
pub proof fn lemma_bytes_round_trip(bytes: Seq<u8>, order: ByteOrder)
    ensures
        bytes_of(value_of(bytes, order), bytes.len(), order) == bytes,
{
    lemma_value_of_digits(in_order(bytes, order));
    assert(in_order(in_order(bytes, order), order) =~= bytes);
}

/// The two bytes of `value` as they lie in memory.
///
/// Calls `u16::to_ne_bytes`, and claims that it gives the number's bytes in the
/// byte order of the machine.
#[verifier::external_body]
fn native_bytes_u16(value: u16) -> (bytes: [u8; 2])
    ensures
        bytes@ == bytes_of(value as nat, 2, native()),
{
    value.to_ne_bytes()
}

/// Tells the byte order of the machine.
pub fn native_order() -> (order: ByteOrder)
    ensures
        order == native(),
{
    let bytes = native_bytes_u16(1);
    proof {
        reveal_with_fuel(value_digits, 3);
    }
    if bytes[0] == 1 {
        ByteOrder::Little
    } else {
        ByteOrder::Big
    }
}

/// Where digit `k` of an `n`-byte number lies, counted from its first byte.
spec fn digit_position(k: int, n: int, order: ByteOrder) -> int {
    match order {
        ByteOrder::Little => k,
        ByteOrder::Big => n - 1 - k,
    }
}

fn position(k: usize, n: usize, order: ByteOrder) -> (at: usize)
    requires
        k < n,
    ensures
        at == digit_position(k as int, n as int, order),
{
    match order {
        ByteOrder::Little => k,
        ByteOrder::Big => n - 1 - k,
    }
}

/// Reads the `n`-byte number at `offset`.
pub fn read_uint(row: &[u8], offset: usize, n: usize, order: ByteOrder) -> (value: u128)
    requires
        n <= 16,
        offset + n <= row@.len(),
    ensures
        value == value_of(row@.subrange(offset as int, offset + n), order),
{
    let ghost digits = in_order(row@.subrange(offset as int, offset + n), order);
    let mut value: u128 = 0;
    let mut k: usize = n;
    assert(digits.skip(n as int) =~= Seq::empty());
    while k > 0
        invariant
            k <= n <= 16,
            offset + n <= row.len(),
            digits == in_order(row@.subrange(offset as int, offset + n), order),
            value == digits_value(digits.skip(k as int)),
        decreases k,
    {
        k = k - 1;
        let byte = row[offset + position(k, n, order)];
        proof {
            let tail = digits.skip(k as int);
            assert(tail.drop_first() =~= digits.skip(k + 1));
            assert(tail[0] == byte);
            lemma_digits_value_bound(tail);
            lemma_pow256_monotone(tail.len(), 16);
            lemma_pow256_values();
        }
        value = byte as u128 + 256 * value;
    }
    assert(digits.skip(0) =~= digits);
    value
}

/// Writes the `n` least significant bytes of `value` at `offset`.
pub fn write_uint(row: &mut [u8], offset: usize, n: usize, value: u128, order: ByteOrder)
    requires
        offset + n <= old(row)@.len(),
    ensures
        final(row)@ == overwrite(
            old(row)@,
            offset as int,
            bytes_of(value as nat, n as nat, order),
        ),
{
    let ghost digits = value_digits(value as nat, n as nat);
    let ghost before = row@;
    let mut rest: u128 = value;
    let mut k: usize = 0;
    proof {
        lemma_value_digits_len(value as nat, n as nat);
        assert(digits.skip(0) =~= digits);
    }
    while k < n
        invariant
            k <= n,
            offset + n <= row.len(),
            row@.len() == before.len(),
            digits.len() == n,
            digits.skip(k as int) == value_digits(rest as nat, (n - k) as nat),
            forall|j: int|
                0 <= j < k ==> row@[offset + #[trigger] digit_position(j, n as int, order)]
                    == digits[j],
            forall|i: int|
                0 <= i < row@.len() && !(offset <= i < offset + n) ==> row@[i] == before[i],
        decreases n - k,
    {
        let at = offset + position(k, n, order);
        let ghost tail = value_digits(rest as nat / 256, (n - k - 1) as nat);
        row[at] = (rest % 256) as u8;
        proof {
            assert(digits[k as int] == digits.skip(k as int)[0]);
            assert(digits.skip(k + 1) =~= digits.skip(k as int).drop_first());
            assert(digits.skip(k as int).drop_first() =~= tail);
        }
        rest = rest / 256;
        k = k + 1;
    }
    proof {
        let bytes = in_order(digits, order);
        assert forall|i: int| offset <= i < offset + n implies row@[i] == bytes[i - offset] by {
            let j = digit_position(i - offset, n as int, order);
            assert(digit_position(j, n as int, order) == i - offset);
        }
        assert(row@ =~= overwrite(before, offset as int, bytes));
    }
}

} // verus!
