//! Batch key comparison: input values against the values stored in rows.
//!
//! Every function here takes row numbers, and moves those whose stored value
//! differs from the input value to the front.
use crate::lanes::{pack_32, Lanes};
use crate::row_container::RowContainer;
use crate::row_value::RowValue;
use vstd::prelude::*;

verus! {

/// Tells of a row number whether the value stored at `offset` in that row
/// differs from the input value.
pub open spec fn differs<T: RowValue>(
    input_values: Seq<T>,
    groups: Seq<&[u8]>,
    offset: int,
) -> spec_fn(u32) -> bool {
    |idx: u32|
        crate::row_container::value_at::<T>(groups[idx as int]@, offset)
            != input_values[idx as int]
}

/// Whether the first `count` row numbers name rows that have an input value and
/// are long enough to hold a stored one.
pub open spec fn comparable<T: RowValue>(
    indices: Seq<u32>,
    count: int,
    input_values: Seq<T>,
    groups: Seq<&[u8]>,
    offset: int,
) -> bool {
    &&& count <= indices.len()
    &&& forall|i: int|
        0 <= i < count ==> {
            &&& (#[trigger] indices[i]) < input_values.len()
            &&& indices[i] < groups.len()
            &&& offset + T::width() <= groups[indices[i] as int]@.len()
        }
}

/// `s` with its first item moved to the end.
pub open spec fn rotated(s: Seq<u32>) -> Seq<u32> {
    if s.len() == 0 {
        s
    } else {
        s.drop_first().push(s.first())
    }
}

/// The items of `s` without `p`, in the order in which they are left: an item
/// with `p` that passes to the front takes the place of the first of them, which
/// goes to the end.
pub open spec fn left_behind(s: Seq<u32>, p: spec_fn(u32) -> bool) -> Seq<u32>
    decreases s.len(),
{
    if s.len() == 0 {
        s
    } else if p(s.last()) {
        rotated(left_behind(s.drop_last(), p))
    } else {
        left_behind(s.drop_last(), p).push(s.last())
    }
}

/// `s` with those of its first `count` items that have `p` moved to the front, in
/// the order in which they were; behind them the others of the first `count`,
/// and then the rest.
pub open spec fn fronted(s: Seq<u32>, count: int, p: spec_fn(u32) -> bool) -> Seq<u32> {
    s.take(count).filter(p) + left_behind(s.take(count), p) + s.skip(count)
}

/// How many of the first `count` items of `s` have `p`.
pub open spec fn matching(s: Seq<u32>, count: int, p: spec_fn(u32) -> bool) -> nat {
    s.take(count).filter(p).len()
}

/// `s` with two of its items exchanged.
pub open spec fn swapped(s: Seq<u32>, i: int, j: int) -> Seq<u32> {
    s.update(i, s[j]).update(j, s[i])
}

pub proof fn lemma_parts_len(s: Seq<u32>, p: spec_fn(u32) -> bool)
    ensures
        s.filter(p).len() + left_behind(s, p).len() == s.len(),
    decreases s.len(),
{
    reveal(Seq::filter);
    if s.len() > 0 {
        lemma_parts_len(s.drop_last(), p);
    }
}

/// One more item.
pub proof fn lemma_step(s: Seq<u32>, i: int, p: spec_fn(u32) -> bool)
    requires
        0 <= i < s.len(),
    ensures
        matching(s, i, p) <= i,
        fronted(s, i, p).len() == s.len(),
        fronted(s, i, p).skip(i) == s.skip(i),
        p(s[i]) ==> {
            &&& fronted(s, i + 1, p) == swapped(fronted(s, i, p), i, matching(s, i, p) as int)
            &&& matching(s, i + 1, p) == matching(s, i, p) + 1
        },
        !p(s[i]) ==> {
            &&& fronted(s, i + 1, p) == fronted(s, i, p)
            &&& matching(s, i + 1, p) == matching(s, i, p)
        },
{
    reveal(Seq::filter);
    let now = s.take(i);
    let next = s.take(i + 1);
    assert(next.drop_last() =~= now);
    assert(next.last() == s[i]);
    lemma_parts_len(now, p);
    assert(fronted(s, i, p).skip(i) =~= s.skip(i));
    if p(s[i]) {
        assert(fronted(s, i + 1, p) =~= swapped(
            fronted(s, i, p),
            i,
            matching(s, i, p) as int,
        ));
    } else {
        assert(fronted(s, i + 1, p) =~= fronted(s, i, p));
    }
}

pub proof fn lemma_start(s: Seq<u32>, p: spec_fn(u32) -> bool)
    ensures
        fronted(s, 0, p) == s,
        matching(s, 0, p) == 0,
{
    reveal(Seq::filter);
    assert(fronted(s, 0, p) =~= s);
}

/// Exchanges two items.
fn swap(indices: &mut [u32], i: usize, j: usize)
    requires
        i < old(indices)@.len(),
        j < old(indices)@.len(),
    ensures
        final(indices)@ == swapped(old(indices)@, i as int, j as int),
{
    let first = indices[i];
    indices[i] = indices[j];
    indices[j] = first;
}

/// Compares 64-bit keys one row at a time.
///
/// Returns how many of the first `count` rows differ. Their numbers are moved to
/// the front of `indices`.
pub fn compare_i64_scalar(
    indices: &mut [u32],
    count: usize,
    input_values: &[i64],
    groups: &[&[u8]],
    offset: usize,
) -> (unequal: usize)
    requires
        comparable(old(indices)@, count as int, input_values@, groups@, offset as int),
    ensures
        final(indices)@ == fronted(
            old(indices)@,
            count as int,
            differs(input_values@, groups@, offset as int),
        ),
        unequal == matching(
            old(indices)@,
            count as int,
            differs(input_values@, groups@, offset as int),
        ),
{
    let ghost before = indices@;
    let ghost p = differs(input_values@, groups@, offset as int);
    let mut idx_from: usize = 0;
    let mut i: usize = 0;
    proof {
        lemma_start(before, p);
    }
    while i < count
        invariant
            i <= count,
            comparable(before, count as int, input_values@, groups@, offset as int),
            p == differs(input_values@, groups@, offset as int),
            indices@ == fronted(before, i as int, p),
            idx_from == matching(before, i as int, p),
        decreases count - i,
    {
        proof {
            lemma_step(before, i as int, p);
            assert(indices@.skip(i as int)[0] == before.skip(i as int)[0]);
        }
        let idx = indices[i] as usize;
        let stored = RowContainer::read_value::<i64>(groups[idx], offset);
        let input = input_values[idx];
        if stored != input {
            swap(indices, i, idx_from);
            idx_from = idx_from + 1;
        }
        i = i + 1;
    }
    idx_from
}

/// Compares 32-bit keys one row at a time.
///
/// Returns how many of the first `count` rows differ. Their numbers are moved to
/// the front of `indices`.
pub fn compare_i32_scalar(
    indices: &mut [u32],
    count: usize,
    input_values: &[i32],
    groups: &[&[u8]],
    offset: usize,
) -> (unequal: usize)
    requires
        comparable(old(indices)@, count as int, input_values@, groups@, offset as int),
    ensures
        final(indices)@ == fronted(
            old(indices)@,
            count as int,
            differs(input_values@, groups@, offset as int),
        ),
        unequal == matching(
            old(indices)@,
            count as int,
            differs(input_values@, groups@, offset as int),
        ),
{
    let ghost before = indices@;
    let ghost p = differs(input_values@, groups@, offset as int);
    let mut idx_from: usize = 0;
    let mut i: usize = 0;
    proof {
        lemma_start(before, p);
    }
    while i < count
        invariant
            i <= count,
            comparable(before, count as int, input_values@, groups@, offset as int),
            p == differs(input_values@, groups@, offset as int),
            indices@ == fronted(before, i as int, p),
            idx_from == matching(before, i as int, p),
        decreases count - i,
    {
        proof {
            lemma_step(before, i as int, p);
            assert(indices@.skip(i as int)[0] == before.skip(i as int)[0]);
        }
        let idx = indices[i] as usize;
        let stored = RowContainer::read_value::<i32>(groups[idx], offset);
        let input = input_values[idx];
        if stored != input {
            swap(indices, i, idx_from);
            idx_from = idx_from + 1;
        }
        i = i + 1;
    }
    idx_from
}

/// Compares 64-bit keys two rows at a time, in two lanes.
///
/// Returns how many of the first `count` rows differ. Their numbers are moved to
/// the front of `indices`.
pub fn compare_i64_neon(
    indices: &mut [u32],
    count: usize,
    input_values: &[i64],
    groups: &[&[u8]],
    offset: usize,
) -> (unequal: usize)
    requires
        comparable(old(indices)@, count as int, input_values@, groups@, offset as int),
    ensures
        final(indices)@ == fronted(
            old(indices)@,
            count as int,
            differs(input_values@, groups@, offset as int),
        ),
        unequal == matching(
            old(indices)@,
            count as int,
            differs(input_values@, groups@, offset as int),
        ),
{
    let ghost before = indices@;
    let ghost p = differs(input_values@, groups@, offset as int);
    let mut idx_from: usize = 0;
    let mut i: usize = 0;
    proof {
        lemma_start(before, p);
    }
    // Two rows at a time.
    while 2 <= count - i
        invariant
            i <= count,
            comparable(before, count as int, input_values@, groups@, offset as int),
            p == differs(input_values@, groups@, offset as int),
            indices@ == fronted(before, i as int, p),
            idx_from == matching(before, i as int, p),
        decreases count - i,
    {
        proof {
            lemma_step(before, i as int, p);
            lemma_step(before, i + 1, p);
            assert(indices@.skip(i as int)[0] == before.skip(i as int)[0]);
            assert(indices@.skip(i as int)[1] == before.skip(i as int)[1]);
        }
        let idx0 = indices[i] as usize;
        let idx1 = indices[i + 1] as usize;
        let stored0 = RowContainer::read_value::<i64>(groups[idx0], offset);
        let stored1 = RowContainer::read_value::<i64>(groups[idx1], offset);
        let input0 = input_values[idx0];
        let input1 = input_values[idx1];

        let v_stored = Lanes::combine(stored0 as u64, stored1 as u64);
        let v_input = Lanes::combine(input0 as u64, input1 as u64);
        let equal = v_stored.equal_64(v_input);
        proof {
            crate::lanes::lemma_same_bits_64(stored0, input0);
            crate::lanes::lemma_same_bits_64(stored1, input1);
        }
        if equal.low == 0 {
            swap(indices, i, idx_from);
            idx_from = idx_from + 1;
        }
        if equal.high == 0 {
            swap(indices, i + 1, idx_from);
            idx_from = idx_from + 1;
        }
        i = i + 2;
    }
    // The row that remains.
    while i < count
        invariant
            i <= count,
            comparable(before, count as int, input_values@, groups@, offset as int),
            p == differs(input_values@, groups@, offset as int),
            indices@ == fronted(before, i as int, p),
            idx_from == matching(before, i as int, p),
        decreases count - i,
    {
        proof {
            lemma_step(before, i as int, p);
            assert(indices@.skip(i as int)[0] == before.skip(i as int)[0]);
        }
        let idx = indices[i] as usize;
        let stored = RowContainer::read_value::<i64>(groups[idx], offset);
        let input = input_values[idx];
        if stored != input {
            swap(indices, i, idx_from);
            idx_from = idx_from + 1;
        }
        i = i + 1;
    }
    idx_from
}

/// Compares 32-bit keys four rows at a time, in four lanes.
///
/// Returns how many of the first `count` rows differ. Their numbers are moved to
/// the front of `indices`.
pub fn compare_i32_neon(
    indices: &mut [u32],
    count: usize,
    input_values: &[i32],
    groups: &[&[u8]],
    offset: usize,
) -> (unequal: usize)
    requires
        comparable(old(indices)@, count as int, input_values@, groups@, offset as int),
    ensures
        final(indices)@ == fronted(
            old(indices)@,
            count as int,
            differs(input_values@, groups@, offset as int),
        ),
        unequal == matching(
            old(indices)@,
            count as int,
            differs(input_values@, groups@, offset as int),
        ),
{
    let ghost before = indices@;
    let ghost p = differs(input_values@, groups@, offset as int);
    let mut idx_from: usize = 0;
    let mut i: usize = 0;
    proof {
        lemma_start(before, p);
    }
    // Four rows at a time.
    while 4 <= count - i
        invariant
            i <= count,
            comparable(before, count as int, input_values@, groups@, offset as int),
            p == differs(input_values@, groups@, offset as int),
            indices@ == fronted(before, i as int, p),
            idx_from == matching(before, i as int, p),
        decreases count - i,
    {
        proof {
            lemma_step(before, i as int, p);
            lemma_step(before, i + 1, p);
            lemma_step(before, i + 2, p);
            lemma_step(before, i + 3, p);
            assert(forall|k: int|
                0 <= k < 4 ==> #[trigger] before[i + k] == before.skip(i as int)[k]);
            assert(forall|k: int|
                0 <= k < 4 ==> #[trigger] indices@[i + k] == indices@.skip(i as int)[k]);
        }
        let idx0 = indices[i] as usize;
        let idx1 = indices[i + 1] as usize;
        let idx2 = indices[i + 2] as usize;
        let idx3 = indices[i + 3] as usize;
        let stored0 = RowContainer::read_value::<i32>(groups[idx0], offset);
        let stored1 = RowContainer::read_value::<i32>(groups[idx1], offset);
        let stored2 = RowContainer::read_value::<i32>(groups[idx2], offset);
        let stored3 = RowContainer::read_value::<i32>(groups[idx3], offset);
        let input0 = input_values[idx0];
        let input1 = input_values[idx1];
        let input2 = input_values[idx2];
        let input3 = input_values[idx3];

        let v_stored = Lanes::combine(pack_32(stored0, stored1), pack_32(stored2, stored3));
        let v_input = Lanes::combine(pack_32(input0, input1), pack_32(input2, input3));
        let (equal0, equal1, equal2, equal3) = v_stored.equal_32(v_input).split_32();
        proof {
            crate::lanes::lemma_same_bits_32(stored0, input0);
            crate::lanes::lemma_same_bits_32(stored1, input1);
            crate::lanes::lemma_same_bits_32(stored2, input2);
            crate::lanes::lemma_same_bits_32(stored3, input3);
        }
        if equal0 == 0 {
            swap(indices, i, idx_from);
            idx_from = idx_from + 1;
        }
        if equal1 == 0 {
            swap(indices, i + 1, idx_from);
            idx_from = idx_from + 1;
        }
        if equal2 == 0 {
            swap(indices, i + 2, idx_from);
            idx_from = idx_from + 1;
        }
        if equal3 == 0 {
            swap(indices, i + 3, idx_from);
            idx_from = idx_from + 1;
        }
        i = i + 4;
    }
    // The rows that remain.
    while i < count
        invariant
            i <= count,
            comparable(before, count as int, input_values@, groups@, offset as int),
            p == differs(input_values@, groups@, offset as int),
            indices@ == fronted(before, i as int, p),
            idx_from == matching(before, i as int, p),
        decreases count - i,
    {
        proof {
            lemma_step(before, i as int, p);
            assert(indices@.skip(i as int)[0] == before.skip(i as int)[0]);
        }
        let idx = indices[i] as usize;
        let stored = RowContainer::read_value::<i32>(groups[idx], offset);
        let input = input_values[idx];
        if stored != input {
            swap(indices, i, idx_from);
            idx_from = idx_from + 1;
        }
        i = i + 1;
    }
    idx_from
}

/// Compares 32-bit keys.
///
/// Returns how many of the first `count` rows differ. Their numbers are moved to
/// the front of `indices`.
pub fn compare_i32(
    indices: &mut [u32],
    count: usize,
    input_values: &[i32],
    groups: &[&[u8]],
    offset: usize,
) -> (unequal: usize)
    requires
        comparable(old(indices)@, count as int, input_values@, groups@, offset as int),
    ensures
        final(indices)@ == fronted(
            old(indices)@,
            count as int,
            differs(input_values@, groups@, offset as int),
        ),
        unequal == matching(
            old(indices)@,
            count as int,
            differs(input_values@, groups@, offset as int),
        ),
{
    compare_i32_scalar(indices, count, input_values, groups, offset)
}

/// Compares 64-bit keys.
///
/// Returns how many of the first `count` rows differ. Their numbers are moved to
/// the front of `indices`.
pub fn compare_i64(
    indices: &mut [u32],
    count: usize,
    input_values: &[i64],
    groups: &[&[u8]],
    offset: usize,
) -> (unequal: usize)
    requires
        comparable(old(indices)@, count as int, input_values@, groups@, offset as int),
    ensures
        final(indices)@ == fronted(
            old(indices)@,
            count as int,
            differs(input_values@, groups@, offset as int),
        ),
        unequal == matching(
            old(indices)@,
            count as int,
            differs(input_values@, groups@, offset as int),
        ),
{
    compare_i64_scalar(indices, count, input_values, groups, offset)
}

} // verus!
