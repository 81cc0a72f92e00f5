//! What a comparison reports, in terms of the integers that the rows hold.
use crate::row_value::RowValue;
use vstd::prelude::*;

verus! {

/// One more row: if it differs, its number goes behind those already in front, and
/// the number that was there takes its place; if not, nothing moves. With no row,
/// nothing is counted and nothing moves.
pub proof fn law_comparison_row_by_row(s: Seq<u32>, count: int, p: spec_fn(u32) -> bool)
    requires
        0 <= count < s.len(),
    ensures
        crate::batch_compare::fronted(s, 0, p) == s,
        crate::batch_compare::matching(s, 0, p) == 0,
        ({
            let now = crate::batch_compare::fronted(s, count, p);
            let unequal = crate::batch_compare::matching(s, count, p) as int;
            let next = crate::batch_compare::fronted(s, count + 1, p);
            &&& 0 <= unequal <= count
            &&& now[count] == s[count]
            &&& next.len() == now.len() == s.len()
            &&& p(s[count]) ==> {
                &&& crate::batch_compare::matching(s, count + 1, p) == unequal + 1
                &&& next[unequal] == s[count]
                &&& unequal < count ==> next[count] == now[unequal]
                &&& forall|i: int|
                    0 <= i < s.len() && i != unequal && i != count ==> #[trigger] next[i] == now[i]
            }
            &&& !p(s[count]) ==> {
                &&& crate::batch_compare::matching(s, count + 1, p) == unequal
                &&& next == now
            }
        }),
{
    crate::batch_compare::lemma_start(s, p);
    crate::batch_compare::lemma_step(s, count, p);
    let now = crate::batch_compare::fronted(s, count, p);
    assert(now.skip(count)[0] == s.skip(count)[0]);
}

/// Any rows that have an input value and are long enough to hold a key can be
/// compared, whatever the values and the keys are.
pub proof fn law_comparable<T: RowValue>(
    indices: Seq<u32>,
    count: int,
    input: Seq<T>,
    groups: Seq<&[u8]>,
    offset: int,
)
    requires
        0 <= count <= indices.len(),
        forall|i: int|
            0 <= i < count ==> {
                &&& (#[trigger] indices[i]) < input.len()
                &&& indices[i] < groups.len()
                &&& offset + T::width() <= groups[indices[i] as int]@.len()
            },
    ensures
        crate::batch_compare::comparable(indices, count, input, groups, offset),
{
}

/// A row into which a key was stored is among those that differ, in front, exactly
/// where the key is not the input value, and otherwise among those that agree.
pub proof fn law_compare_after_store<T: RowValue>(
    indices: Seq<u32>,
    count: int,
    input: Seq<T>,
    groups: Seq<&[u8]>,
    offset: int,
    i: int,
    row: Seq<u8>,
    key: T,
)
    requires
        0 <= i < count <= indices.len(),
        0 <= offset,
        offset + T::width() <= row.len(),
        groups[indices[i] as int]@ == crate::row_container::with_value(row, offset, key),
    ensures
        ({
            let p = crate::batch_compare::differs(input, groups, offset);
            let after = crate::batch_compare::fronted(indices, count, p);
            let unequal = crate::batch_compare::matching(indices, count, p) as int;
            &&& key != input[indices[i] as int] <==> (exists|j: int|
                0 <= j < unequal && #[trigger] after[j] == indices[i])
            &&& key == input[indices[i] as int] <==> (exists|j: int|
                unequal <= j < count && #[trigger] after[j] == indices[i])
        }),
{
    let p = crate::batch_compare::differs(input, groups, offset);
    let after = crate::batch_compare::fronted(indices, count, p);
    let unequal = crate::batch_compare::matching(indices, count, p) as int;
    let idx = indices[i];
    crate::laws::law_read_after_store(row, offset, key);
    assert(p(idx) <==> key != input[idx as int]);
    crate::laws::law_comparison_partitions(indices, count, p);
    lemma_still_there(indices, count, p, i);
    let at = choose|j: int| 0 <= j < count && #[trigger] after[j] == idx;
    assert(at < unequal <==> p(after[at]));
}

/// Exchanging what the rows hold with the input values changes neither the count
/// nor the order.
pub proof fn law_comparison_is_symmetric<T: RowValue>(
    indices: Seq<u32>,
    count: int,
    input: Seq<T>,
    groups: Seq<&[u8]>,
    other_input: Seq<T>,
    other_groups: Seq<&[u8]>,
    offset: int,
)
    requires
        0 <= count <= indices.len(),
        forall|i: int|
            0 <= i < count ==> {
                let idx = #[trigger] indices[i] as int;
                &&& crate::row_container::value_at::<T>(groups[idx]@, offset) == other_input[idx]
                &&& crate::row_container::value_at::<T>(other_groups[idx]@, offset) == input[idx]
            },
    ensures
        ({
            let p = crate::batch_compare::differs(input, groups, offset);
            let q = crate::batch_compare::differs(other_input, other_groups, offset);
            &&& crate::batch_compare::matching(indices, count, p)
                == crate::batch_compare::matching(indices, count, q)
            &&& crate::batch_compare::fronted(indices, count, p)
                == crate::batch_compare::fronted(indices, count, q)
        }),
{
    let p = crate::batch_compare::differs(input, groups, offset);
    let q = crate::batch_compare::differs(other_input, other_groups, offset);
    let head = indices.take(count);
    assert forall|i: int| 0 <= i < head.len() implies p(#[trigger] head[i]) == q(head[i]) by {
        assert(head[i] == indices[i]);
    }
    lemma_same_parts(head, p, q);
}

/// Comparing 64-bit keys: given the integers that the rows hold, in two's
/// complement and in the byte order of the machine, exactly the rows whose integer
/// is not the input integer are counted, and they come first, in the order in which
/// they were. The rows whose integer is the input integer follow, and nothing
/// behind the first `count` changes.
pub proof fn law_compare_i64(
    indices: Seq<u32>,
    count: int,
    input: Seq<i64>,
    groups: Seq<&[u8]>,
    offset: int,
    stored: Seq<int>,
)
    requires
        0 <= count <= indices.len(),
        0 <= offset,
        forall|i: int|
            0 <= i < count ==> {
                let row = groups[indices[i] as int]@;
                let little = row[offset]
                    + row[offset + 1] * 0x100
                    + row[offset + 2] * 0x1_0000
                    + row[offset + 3] * 0x100_0000
                    + row[offset + 4] * 0x1_0000_0000
                    + row[offset + 5] * 0x100_0000_0000
                    + row[offset + 6] * 0x1_0000_0000_0000
                    + row[offset + 7] * 0x100_0000_0000_0000;
                let big = row[offset + 7]
                    + row[offset + 6] * 0x100
                    + row[offset + 5] * 0x1_0000
                    + row[offset + 4] * 0x100_0000
                    + row[offset + 3] * 0x1_0000_0000
                    + row[offset + 2] * 0x100_0000_0000
                    + row[offset + 1] * 0x1_0000_0000_0000
                    + row[offset] * 0x100_0000_0000_0000;
                let native = if vstd::endian::endianness() is Little {
                    little as int
                } else {
                    big as int
                };
                &&& (#[trigger] indices[i]) < input.len()
                &&& indices[i] < groups.len()
                &&& offset + 8 <= row.len()
                &&& stored[indices[i] as int] == (if native < 0x8000_0000_0000_0000int {
                    native
                } else {
                    native - 0x1_0000_0000_0000_0000int
                })
            },
    ensures
        crate::batch_compare::comparable::<i64>(indices, count, input, groups, offset),
        ({
            let p = crate::batch_compare::differs::<i64>(input, groups, offset);
            let after = crate::batch_compare::fronted(indices, count, p);
            let unequal = crate::batch_compare::matching(indices, count, p) as int;
            &&& after.take(unequal) == indices.take(count).filter(
                |idx: u32| stored[idx as int] != input[idx as int],
            )
            &&& unequal == indices.take(count).filter(
                |idx: u32| stored[idx as int] != input[idx as int],
            ).len()
            &&& after.len() == indices.len()
            &&& after.to_multiset() == indices.to_multiset()
            &&& forall|j: int|
                0 <= j < unequal ==> stored[#[trigger] after[j] as int] != input[after[j] as int]
            &&& forall|j: int|
                unequal <= j < count ==> stored[#[trigger] after[j] as int] == input[after[j] as int]
            &&& forall|j: int| count <= j < indices.len() ==> #[trigger] after[j] == indices[j]
        }),
{
    let p = crate::batch_compare::differs::<i64>(input, groups, offset);
    let q = |idx: u32| stored[idx as int] != input[idx as int];
    assert forall|i: int| 0 <= i < count implies p(#[trigger] indices[i]) == q(indices[i]) by {
        crate::value_laws::law_reads_i64(groups[indices[i] as int]@, offset);
    }
    lemma_same_comparison(indices, count, p, q);
}

/// Comparing 32-bit keys: given the integers that the rows hold, in two's
/// complement and in the byte order of the machine, exactly the rows whose integer
/// is not the input integer are counted, and they come first, in the order in which
/// they were. The rows whose integer is the input integer follow, and nothing
/// behind the first `count` changes.
pub proof fn law_compare_i32(
    indices: Seq<u32>,
    count: int,
    input: Seq<i32>,
    groups: Seq<&[u8]>,
    offset: int,
    stored: Seq<int>,
)
    requires
        0 <= count <= indices.len(),
        0 <= offset,
        forall|i: int|
            0 <= i < count ==> {
                let row = groups[indices[i] as int]@;
                let little = row[offset]
                    + row[offset + 1] * 0x100
                    + row[offset + 2] * 0x1_0000
                    + row[offset + 3] * 0x100_0000;
                let big = row[offset + 3]
                    + row[offset + 2] * 0x100
                    + row[offset + 1] * 0x1_0000
                    + row[offset] * 0x100_0000;
                let native = if vstd::endian::endianness() is Little {
                    little as int
                } else {
                    big as int
                };
                &&& (#[trigger] indices[i]) < input.len()
                &&& indices[i] < groups.len()
                &&& offset + 4 <= row.len()
                &&& stored[indices[i] as int] == (if native < 0x8000_0000int {
                    native
                } else {
                    native - 0x1_0000_0000int
                })
            },
    ensures
        crate::batch_compare::comparable::<i32>(indices, count, input, groups, offset),
        ({
            let p = crate::batch_compare::differs::<i32>(input, groups, offset);
            let after = crate::batch_compare::fronted(indices, count, p);
            let unequal = crate::batch_compare::matching(indices, count, p) as int;
            &&& after.take(unequal) == indices.take(count).filter(
                |idx: u32| stored[idx as int] != input[idx as int],
            )
            &&& unequal == indices.take(count).filter(
                |idx: u32| stored[idx as int] != input[idx as int],
            ).len()
            &&& after.len() == indices.len()
            &&& after.to_multiset() == indices.to_multiset()
            &&& forall|j: int|
                0 <= j < unequal ==> stored[#[trigger] after[j] as int] != input[after[j] as int]
            &&& forall|j: int|
                unequal <= j < count ==> stored[#[trigger] after[j] as int] == input[after[j] as int]
            &&& forall|j: int| count <= j < indices.len() ==> #[trigger] after[j] == indices[j]
        }),
{
    let p = crate::batch_compare::differs::<i32>(input, groups, offset);
    let q = |idx: u32| stored[idx as int] != input[idx as int];
    assert forall|i: int| 0 <= i < count implies p(#[trigger] indices[i]) == q(indices[i]) by {
        crate::value_laws::law_reads_i32(groups[indices[i] as int]@, offset);
    }
    lemma_same_comparison(indices, count, p, q);
}

proof fn lemma_same_parts(s: Seq<u32>, p: spec_fn(u32) -> bool, q: spec_fn(u32) -> bool)
    requires
        forall|i: int| 0 <= i < s.len() ==> p(#[trigger] s[i]) == q(s[i]),
    ensures
        s.filter(p) == s.filter(q),
        crate::batch_compare::left_behind(s, p) == crate::batch_compare::left_behind(s, q),
    decreases s.len(),
{
    reveal(Seq::filter);
    if s.len() > 0 {
        lemma_same_parts(s.drop_last(), p, q);
        assert(p(s[s.len() - 1]) == q(s[s.len() - 1]));
    }
}

/// The number that stood at `i` is still among the first `count`.
proof fn lemma_still_there(s: Seq<u32>, count: int, p: spec_fn(u32) -> bool, i: int)
    requires
        0 <= i < count <= s.len(),
    ensures
        exists|j: int|
            0 <= j < count && #[trigger] crate::batch_compare::fronted(s, count, p)[j] == s[i],
{
    broadcast use vstd::seq_lib::group_to_multiset_ensures;

    let head = s.take(count);
    let front = head.filter(p);
    let back = crate::batch_compare::left_behind(head, p);
    let after = crate::batch_compare::fronted(s, count, p);
    crate::laws::lemma_left_behind(head, p);
    crate::batch_compare::lemma_parts_len(head, p);
    assert(head[i] == s[i]);
    assert(head.contains(s[i]));
    assert(head.to_multiset().count(s[i]) > 0);
    if front.contains(s[i]) {
        let j = choose|j: int| 0 <= j < front.len() && front[j] == s[i];
        assert(after[j] == s[i]);
    } else {
        assert(back.contains(s[i]));
        let j = choose|j: int| 0 <= j < back.len() && back[j] == s[i];
        assert(after[front.len() + j] == s[i]);
    }
}

/// The number that comes to stand at `j` was among the first `count`.
proof fn lemma_was_there(s: Seq<u32>, count: int, p: spec_fn(u32) -> bool, j: int)
    requires
        0 <= j < count <= s.len(),
    ensures
        exists|i: int|
            0 <= i < count && #[trigger] s[i] == crate::batch_compare::fronted(s, count, p)[j],
{
    broadcast use vstd::seq_lib::group_to_multiset_ensures;

    let head = s.take(count);
    let front = head.filter(p);
    let back = crate::batch_compare::left_behind(head, p);
    let x = crate::batch_compare::fronted(s, count, p)[j];
    crate::laws::lemma_left_behind(head, p);
    crate::batch_compare::lemma_parts_len(head, p);
    if j < front.len() {
        assert(x == front[j]);
        assert(front.contains(x));
    } else {
        assert(x == back[j - front.len()]);
        assert(back.contains(x));
    }
    assert(head.to_multiset().count(x) > 0);
    assert(head.contains(x));
    let i = choose|i: int| 0 <= i < head.len() && head[i] == x;
    assert(s[i] == x);
}

proof fn lemma_same_comparison(
    s: Seq<u32>,
    count: int,
    p: spec_fn(u32) -> bool,
    q: spec_fn(u32) -> bool,
)
    requires
        0 <= count <= s.len(),
        forall|i: int| 0 <= i < count ==> p(#[trigger] s[i]) == q(s[i]),
    ensures
        ({
            let after = crate::batch_compare::fronted(s, count, p);
            let unequal = crate::batch_compare::matching(s, count, p) as int;
            &&& after.take(unequal) == s.take(count).filter(q)
            &&& unequal == s.take(count).filter(q).len()
            &&& unequal <= count
            &&& after.len() == s.len()
            &&& after.to_multiset() == s.to_multiset()
            &&& forall|j: int| 0 <= j < unequal ==> q(#[trigger] after[j])
            &&& forall|j: int| unequal <= j < count ==> !q(#[trigger] after[j])
            &&& forall|j: int| count <= j < s.len() ==> #[trigger] after[j] == s[j]
        }),
{
    let head = s.take(count);
    let after = crate::batch_compare::fronted(s, count, p);
    assert forall|i: int| 0 <= i < head.len() implies p(#[trigger] head[i]) == q(head[i]) by {
        assert(head[i] == s[i]);
    }
    lemma_same_parts(head, p, q);
    crate::laws::law_comparison_partitions(s, count, p);
    crate::laws::law_comparison_permutes(s, count, p);
    assert forall|j: int| 0 <= j < count implies p(#[trigger] after[j]) == q(after[j]) by {
        lemma_was_there(s, count, p, j);
    }
}

} // verus!
