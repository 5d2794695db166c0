use rocknpu::capi::W8Matrix;
use rocknpu::compare::{cpu_grouped_reference, reference_nk};
use rocknpu::groups::{
    activation_part, group_moves, group_part, group_scale, row_group_move, GroupMove, PartRange,
};
use rocknpu::keys::DecodeWeightKind;
use rocknpu::quant::{grouped_place, prepare_grouped_w8a8};
use rocknpu::route::expected_bytes;
use rocknpu::samples::pattern;

#[test]
fn parts_follow_each_other() {
    assert_eq!(group_part(3, 512, 0), PartRange { start: 0, len: 1536 });
    assert_eq!(group_part(3, 512, 2), PartRange { start: 3072, len: 1536 });
    assert_eq!(group_scale(16, 2, 5), 37);
}

#[test]
fn a_part_holds_its_group_of_every_row() {
    let a: Vec<i8> = (0..12).collect();
    assert_eq!(activation_part(&a, 2, 6, 2, 0), vec![0, 1, 6, 7]);
    assert_eq!(activation_part(&a, 2, 6, 2, 2), vec![4, 5, 10, 11]);
}

#[test]
fn shares_name_their_scales() {
    let moves = group_moves(2, 3, 1);
    assert_eq!(
        moves[1],
        GroupMove { src: 3, weight_scale: 3, activation_scale: 3, dst: 3, len: 3 }
    );
    assert_eq!(
        row_group_move(3, 2),
        GroupMove { src: 6, weight_scale: 6, activation_scale: 2, dst: 0, len: 3 }
    );
}

#[test]
fn grouped_products_are_products_of_the_scaled_rows() {
    let (m, n, size, groups) = (2usize, 3usize, 512usize, 2usize);
    let k = size * groups;
    let a = pattern(m * k, 7, 3, 9, 4);
    let b = pattern(n * k, 5, 1, 11, 5);
    let kind = DecodeWeightKind::Q4K;
    let bytes = expected_bytes(kind, k, n).unwrap();
    let layout = prepare_grouped_w8a8(kind, k, n, size, bytes).unwrap();
    let mut grouped = vec![0i8; n * k];
    for channel in 0..n {
        for group in 0..groups {
            let (_, start) = grouped_place(&layout, n, group, channel);
            let from = channel * k + group * size;
            grouped[start..start + size].copy_from_slice(&b[from..from + size]);
        }
    }
    let a_scales: Vec<i64> = vec![2, 3, 5, 7];
    let w_scales: Vec<i64> = vec![1, 2, 3, 4, 5, 6];
    let mut out = vec![0i64; m * n];
    let mut plain = vec![0i64; m * n];
    for group in 0..groups {
        let rows = activation_part(&a, m, k, size, group);
        let range = group_part(n, size, group);
        let weights = &grouped[range.start..range.start + range.len];
        let product: Vec<i32> = rows
            .chunks_exact(size)
            .flat_map(|row| reference_nk(row, weights, size, 0, size, n))
            .collect();
        for mv in group_moves(m, n, group) {
            for i in 0..mv.len {
                let value = product[mv.src + i] as i64;
                plain[mv.dst + i] += value;
                out[mv.dst + i] +=
                    value * a_scales[mv.activation_scale] * w_scales[mv.weight_scale + i];
            }
        }
    }
    for row in 0..m {
        for col in 0..n {
            let (mut scaled, mut whole) = (0i64, 0i64);
            for kk in 0..k {
                let g = kk / size;
                let (x, y) = (a[row * k + kk] as i64, b[col * k + kk] as i64);
                whole += x * y;
                scaled += x * a_scales[g * m + row] * y * w_scales[g * n + col];
            }
            assert_eq!(plain[row * n + col], whole);
            assert_eq!(out[row * n + col], scaled);
        }
    }
}

#[test]
fn one_row_reads_its_groups_in_order() {
    let (k, n, size) = (6usize, 2usize, 3usize);
    let a = pattern(k, 7, 3, 9, 4);
    let b = pattern(n * k, 5, 1, 11, 5);
    let product = cpu_grouped_reference(&a, &b, k, n, size).unwrap();
    let mut sums = vec![0i32; n];
    for group in 0..k / size {
        let mv = row_group_move(n, group);
        for i in 0..mv.len {
            sums[mv.dst + i] += product[mv.src + i] as i32;
        }
    }
    assert_eq!(sums, reference_nk(&a, &b, k, 0, k, n));
}

#[test]
fn matrices_end_in_memory() {
    let matrix = W8Matrix { weights: 10, scales: 20, output: 30, n: 4 };
    assert!(matrix.ends_in_memory(512));
    assert!(!matrix.ends_in_memory(usize::MAX));
    assert!(!W8Matrix { weights: usize::MAX - 2047, ..matrix }.ends_in_memory(512));
    assert!(!W8Matrix { scales: usize::MAX - 15, ..matrix }.ends_in_memory(512));
    assert!(!W8Matrix { output: usize::MAX - 15, ..matrix }.ends_in_memory(512));
}
