use taper_hashmap::batch_compare::{
    compare_i32, compare_i32_neon, compare_i32_scalar, compare_i64, compare_i64_neon,
    compare_i64_scalar,
};
use taper_hashmap::lanes::{pack_32, Lanes};
use taper_hashmap::row_container::RowContainer;

#[test]
fn test_compare_scalar_basic() {
    // Three rows, one of them with a mismatch.
    let mut pool = vec![0u8; 100];
    let offset = 0;

    // Row 0: stored value = 42
    pool[0..8].copy_from_slice(&42i64.to_ne_bytes());
    // Row 1: stored value = 77
    pool[16..24].copy_from_slice(&77i64.to_ne_bytes());
    // Row 2: stored value = 42 (but the input is different)
    pool[32..40].copy_from_slice(&42i64.to_ne_bytes());

    let groups: Vec<&[u8]> = vec![&pool[0..], &pool[16..], &pool[32..]];

    let input_values: Vec<i64> = vec![42, 77, 99];
    let mut indices: Vec<u32> = vec![0, 1, 2];

    let unequals = compare_i64_scalar(&mut indices, 3, &input_values, &groups, offset);

    assert_eq!(unequals, 1);
    assert_eq!(indices[0], 2);
}

fn next(state: &mut u64) -> u64 {
    *state = state.wrapping_mul(6364136223846793005).wrapping_add(1442695040888963407);
    *state >> 33
}

#[test]
fn all_i64_comparisons_agree() {
    let mut state = 7u64;
    for count in 0..40usize {
        let mut rc = RowContainer::new(&[4, 8], 8);
        let offset = rc.column_at(1).offset();
        let mut input: Vec<i64> = Vec::new();
        for _ in 0..count + 2 {
            let row = rc.new_row();
            let value = next(&mut state) as i64 - (1 << 30);
            RowContainer::store_value::<i64>(rc.row_mut(row), offset, value);
            input.push(if next(&mut state) % 2 == 0 { value } else { value ^ (1 << 40) });
        }
        let groups: Vec<&[u8]> = (0..count + 2).map(|i| rc.row(i)).collect();
        let before: Vec<u32> = (0..count as u32 + 2).rev().collect();
        let expected: Vec<u32> = before[..count]
            .iter()
            .copied()
            .filter(|&i| {
                RowContainer::read_value::<i64>(groups[i as usize], offset) != input[i as usize]
            })
            .collect();

        let mut scalar = before.clone();
        let n = compare_i64_scalar(&mut scalar, count, &input, &groups, offset);
        assert_eq!(scalar[..n], expected);
        assert_eq!(scalar[count..], before[count..]);
        let mut sorted = scalar.clone();
        sorted.sort();
        sorted.reverse();
        assert_eq!(sorted, before);

        let mut lanes = before.clone();
        assert_eq!(compare_i64_neon(&mut lanes, count, &input, &groups, offset), n);
        assert_eq!(lanes, scalar);
        let mut dispatched = before.clone();
        assert_eq!(compare_i64(&mut dispatched, count, &input, &groups, offset), n);
        assert_eq!(dispatched, scalar);

        // Comparing once more, all of the rows or the first few, moves none.
        assert_eq!(compare_i64(&mut dispatched, count, &input, &groups, offset), n);
        assert_eq!(dispatched, scalar);
        assert_eq!(compare_i64(&mut dispatched, n / 2, &input, &groups, offset), n / 2);
        assert_eq!(dispatched, scalar);
        assert_eq!(compare_i64(&mut dispatched, n, &input, &groups, offset), n);
        assert_eq!(dispatched, scalar);
    }
}

#[test]
fn all_i32_comparisons_agree() {
    let mut state = 11u64;
    for count in 0..40usize {
        let mut rc = RowContainer::new(&[4, 8], 8);
        let offset = rc.column_at(0).offset();
        let mut input: Vec<i32> = Vec::new();
        for _ in 0..count + 2 {
            let row = rc.new_row();
            let value = next(&mut state) as i32 - (1 << 29);
            RowContainer::store_value::<i32>(rc.row_mut(row), offset, value);
            input.push(if next(&mut state) % 3 != 0 { value } else { !value });
        }
        let groups: Vec<&[u8]> = (0..count + 2).map(|i| rc.row(i)).collect();
        let before: Vec<u32> = (0..count as u32 + 2).collect();
        let expected: Vec<u32> = before[..count]
            .iter()
            .copied()
            .filter(|&i| {
                RowContainer::read_value::<i32>(groups[i as usize], offset) != input[i as usize]
            })
            .collect();

        let mut scalar = before.clone();
        let n = compare_i32_scalar(&mut scalar, count, &input, &groups, offset);
        assert_eq!(scalar[..n], expected);
        assert_eq!(scalar[count..], before[count..]);

        let mut lanes = before.clone();
        assert_eq!(compare_i32_neon(&mut lanes, count, &input, &groups, offset), n);
        assert_eq!(lanes, scalar);
        let mut dispatched = before.clone();
        assert_eq!(compare_i32(&mut dispatched, count, &input, &groups, offset), n);
        assert_eq!(dispatched, scalar);
    }
}

#[test]
fn equal_rows_rotate_behind_the_unequal() {
    let rows: Vec<[u8; 4]> = (0..6i32).map(|i| i.to_ne_bytes()).collect();
    let groups: Vec<&[u8]> = rows.iter().map(|r| &r[..]).collect();
    // Rows 2 and 4 differ.
    let input = vec![0, 1, -2, 3, -4, 5];
    let mut indices: Vec<u32> = vec![0, 1, 2, 3, 4, 5];
    assert_eq!(compare_i32_neon(&mut indices, 6, &input, &groups, 0), 2);
    assert_eq!(indices, [2, 4, 0, 3, 1, 5]);
}

#[test]
fn repeated_row_numbers_are_kept() {
    let rows: Vec<[u8; 8]> = vec![1i64.to_ne_bytes(), 2i64.to_ne_bytes()];
    let groups: Vec<&[u8]> = rows.iter().map(|r| &r[..]).collect();
    let mut indices: Vec<u32> = vec![0, 1, 0, 1, 1];
    assert_eq!(compare_i64(&mut indices, 5, &[1, 3], &groups, 0), 3);
    assert_eq!(indices, [1, 1, 1, 0, 0]);
}

#[test]
fn nothing_moves_where_all_agree_or_all_differ() {
    let rows: Vec<[u8; 8]> = (0..5i64).map(|i| i.to_ne_bytes()).collect();
    let groups: Vec<&[u8]> = rows.iter().map(|r| &r[..]).collect();
    let mut indices: Vec<u32> = vec![4, 2, 0, 1, 3];
    assert_eq!(compare_i64_neon(&mut indices, 5, &[0, 1, 2, 3, 4], &groups, 0), 0);
    assert_eq!(indices, [4, 2, 0, 1, 3]);
    assert_eq!(compare_i64_neon(&mut indices, 5, &[-1; 5], &groups, 0), 5);
    assert_eq!(indices, [4, 2, 0, 1, 3]);
    assert_eq!(compare_i64_neon(&mut indices, 0, &[], &[], 0), 0);
}

#[test]
fn lane_masks() {
    let a = Lanes::combine(pack_32(1, -2), pack_32(i32::MIN, 7));
    let b = Lanes::combine(pack_32(1, 2), pack_32(i32::MIN, 8));
    assert_eq!(a.equal_32(b).split_32(), (u32::MAX, 0, u32::MAX, 0));
    assert_eq!(pack_32(1, -2), 0xFFFF_FFFE_0000_0001);
    let c = Lanes::combine(5, u64::MAX).equal_64(Lanes::combine(6, u64::MAX));
    assert_eq!((c.low, c.high), (0, u64::MAX));
}
