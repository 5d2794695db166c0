use rocknpu::bytes::{get_i16, get_i32, get_u16, get_u32, half_bytes, put_le, words_bytes};
use rocknpu::compare::{
    add_partial, argmax, argmax_first, common_mismatches, cpu_grouped_reference, cpu_reference, extract_weight_slice,
    mismatch_count, percentile_index, place_columns, read_whole_words, read_words, reference_nk,
    verify, verify_common, verify_exact, MergeError,
    Mismatch, Verdict,
};
use rocknpu::fwht::{fwht_pairs, Butterfly};
use rocknpu::int4::{pack_activation, pack_weights_kn, put_nibble};
use rocknpu::keys::{DecodeWeightKey, DecodeWeightKind};
use rocknpu::quant::{
    decodes_in_parallel, grouped_place, max_abs_finite, pad_k, power_of_two, prepare_grouped_w8a8,
    prepare_q4_k_grouped_w4a4, prepare_q4_k_w4a4, prepare_w8a8, quantize_symmetric_i4_grouped,
    slice_rows, sum_partials, QuantLayout,
};
use rocknpu::samples::{lcg_next, pattern, xorshift_next};
use rocknpu::table::Table;
use rocknpu::trace::{join_patterns, save_trace, TraceTensor};

fn fwht_norm_in_place(values: &mut [f32]) -> bool {
    let Some(pairs) = fwht_pairs(values.len()) else {
        return false;
    };
    for Butterfly { lo, hi } in pairs {
        let (a, b) = (values[lo], values[hi]);
        values[lo] = a + b;
        values[hi] = a - b;
    }
    let norm = (values.len() as f32).sqrt().recip();
    for v in values.iter_mut() {
        *v *= norm;
    }
    true
}

#[test]
fn normalized_fwht_preserves_dot_product() {
    let mut a = vec![1.0, -2.0, 3.5, 0.25, -1.5, 2.25, 0.5, -0.75];
    let mut b = vec![-0.5, 1.25, 2.0, -3.0, 0.75, -1.0, 4.0, 0.5];
    let before: f32 = a.iter().zip(&b).map(|(x, y)| x * y).sum();
    assert!(fwht_norm_in_place(&mut a));
    assert!(fwht_norm_in_place(&mut b));
    let after: f32 = a.iter().zip(&b).map(|(x, y)| x * y).sum();
    assert!((before - after).abs() < 1.0e-5);
}

#[test]
fn transform_pairs_double_in_width() {
    let pairs: Vec<(usize, usize)> = fwht_pairs(4).unwrap().iter().map(|p| (p.lo, p.hi)).collect();
    assert_eq!(pairs, vec![(0, 1), (2, 3), (0, 2), (1, 3)]);
    assert_eq!(fwht_pairs(1).unwrap(), vec![]);
    assert!(fwht_pairs(0).is_none());
    assert!(fwht_pairs(6).is_none());
    assert!(power_of_two(4096) && power_of_two(1));
    assert!(!power_of_two(0) && !power_of_two(24));
}

fn patterns(values: &[f32]) -> Vec<u32> {
    values.iter().map(|v| v.to_bits()).collect()
}

#[test]
fn neon_max_abs_matches_scalar_and_rejects_nonfinite() {
    let mut values = (0..2051)
        .map(|i| (((i * 7_919) % 65_521) as f32 - 32_760.0) * 0.001)
        .collect::<Vec<_>>();
    let scalar = values.iter().fold(0.0f32, |m, &v| m.max(v.abs()));
    let found = max_abs_finite(&patterns(&values)).expect("finite input");
    assert_eq!(found, scalar.to_bits());
    values[1024] = f32::INFINITY;
    assert!(max_abs_finite(&patterns(&values)).is_none());
    values[1024] = f32::NAN;
    assert!(max_abs_finite(&patterns(&values)).is_none());
    assert_eq!(max_abs_finite(&[]), Some(0));
    assert_eq!(max_abs_finite(&patterns(&[-0.0, 0.0])), Some(0));
}

#[test]
fn layouts_follow_the_format() {
    let whole = QuantLayout { row_bytes: 288, groups: 1, group_size: 512, values: 1536, scales: 3 };
    assert_eq!(prepare_w8a8(DecodeWeightKind::Q4K, 512, 3, 864), Some(whole));
    assert_eq!(prepare_w8a8(DecodeWeightKind::Q4K, 512, 3, 865), None);
    assert_eq!(prepare_w8a8(DecodeWeightKind::Q6K, 512, 3, 1260).unwrap().row_bytes, 420);
    assert_eq!(prepare_q4_k_w4a4(512, 3, 864), Some(whole));
    let grouped = prepare_grouped_w8a8(DecodeWeightKind::Q6K, 1024, 2, 512, 1680).unwrap();
    assert_eq!((grouped.groups, grouped.scales), (2, 4));
    assert_eq!(prepare_grouped_w8a8(DecodeWeightKind::Q6K, 1024, 2, 256, 1680), None);
    assert_eq!(prepare_grouped_w8a8(DecodeWeightKind::Q6K, 1024, 2, 0, 1680), None);
    assert_eq!(prepare_q4_k_grouped_w4a4(512, 3, 32, true, 864).unwrap().groups, 16);
    assert_eq!(prepare_q4_k_grouped_w4a4(768, 3, 32, true, 1296), None);
    assert_eq!(prepare_q4_k_grouped_w4a4(288, 3, 32, false, 432), None);
    assert_eq!(prepare_q4_k_w4a4(288, 3, 432), None);
    assert_eq!(prepare_w8a8(DecodeWeightKind::Q4K, 288, 3, 432), None);
    assert_eq!(prepare_w8a8(DecodeWeightKind::Q4K, 0, 3, 5), None);
    let wide = prepare_w8a8(DecodeWeightKind::Q4K, 4128, 300, 300 * 16 * 144).unwrap();
    assert_eq!((wide.row_bytes, wide.values), (16 * 144, 300 * 4128));
    assert_eq!(prepare_w8a8(DecodeWeightKind::Q6K, 4128, 300, 300 * 16 * 210), None);
    assert_eq!(prepare_q4_k_grouped_w4a4(768, 3, 32, false, 1296).unwrap().groups, 24);
    assert_eq!(grouped_place(&grouped, 2, 1, 1), (3, 1536));
    assert_eq!(quantize_symmetric_i4_grouped(768, 256, false), Some(3));
    assert_eq!(quantize_symmetric_i4_grouped(768, 256, true), None);
    assert_eq!(quantize_symmetric_i4_grouped(768, 500, false), None);
    assert_eq!(quantize_symmetric_i4_grouped(768, 0, false), None);
    assert!(decodes_in_parallel(true, 1 << 20));
    assert!(!decodes_in_parallel(true, (1 << 20) - 1));
    assert!(!decodes_in_parallel(false, 1 << 20));
}

#[test]
fn padding_keeps_products() {
    let a = pad_k(&[1i8, 2, 3, 4], 2, 2, 3, 0);
    assert_eq!(a, vec![1, 2, 0, 3, 4, 0]);
    let b = pad_k(&[5i8, 6], 1, 2, 3, 0);
    assert_eq!(reference_nk(&b, &a, 3, 0, 3, 2), reference_nk(&[5, 6], &[1, 2, 3, 4], 2, 0, 2, 2));
}

#[test]
fn slices_of_a_row_add_up() {
    let (a, b) = (pattern(12, 5, 1, 7, 3), pattern(24, 3, 0, 11, 5));
    let whole = reference_nk(&a, &b, 12, 0, 12, 2);
    let parts: Vec<i32> = [(0, 5), (5, 7)]
        .iter()
        .flat_map(|&(k0, len)| reference_nk(&a, &b, 12, k0, len, 2))
        .collect();
    assert_eq!(sum_partials(&parts, 2, 2, 0, 2), whole);
    assert_eq!(slice_rows(&b, 2, 12, 5, 2), vec![b[5], b[6], b[17], b[18]]);
    assert_eq!(extract_weight_slice(&b, 12, 2, 5, 2), vec![b[5], b[6], b[17], b[18]]);
    assert_eq!(sum_partials(&[i32::MAX, 1, 1, -1], 4, 1, 0, 1), vec![i32::MIN]);
    assert_eq!(sum_partials(&[i32::MAX, 1, -1], 3, 1, 0, 1), vec![i32::MAX]);
}

#[test]
fn nibbles_are_packed_low_first() {
    assert_eq!(pack_activation(&[1, -1, -8, 7]), vec![0xf1, 0x78]);
    let mut bytes = vec![0x00, 0x21];
    put_nibble(&mut bytes, 3, -4);
    assert_eq!(bytes, vec![0x00, 0xc1]);
    let mut weights = vec![0i8; 64 * 128];
    weights[33 * 128 + 65] = -3;
    let packed = pack_weights_kn(&weights, 64, 128);
    assert_eq!(packed.len(), 64 * 64);
    let at = ((2 + 1) * 64 + 1) * 32 + 1;
    assert_eq!(packed[at / 2], 0xd0);
    assert_eq!(packed.iter().filter(|b| **b != 0).count(), 1);
}

#[test]
fn references_agree() {
    let a = pattern(6, 3, 0, 5, 2);
    let b_kn = pattern(12, 7, 2, 9, 4);
    let mut b_nk = vec![0i8; 12];
    for k in 0..6 {
        for n in 0..2 {
            b_nk[n * 6 + k] = b_kn[k * 2 + n];
        }
    }
    assert_eq!(cpu_reference(&a, &b_kn, 6, 2), reference_nk(&a, &b_nk, 6, 0, 6, 2));
    let groups = cpu_grouped_reference(&a, &b_nk, 6, 2, 3).unwrap();
    let first = reference_nk(&a, &b_nk, 6, 0, 3, 2);
    assert_eq!(groups[..2].iter().map(|v| *v as i32).collect::<Vec<_>>(), first);
    assert_eq!(cpu_grouped_reference(&[127, 127, 127], &[127, 127, 127], 3, 1, 3), None);
}

#[test]
fn differences_are_shown() {
    assert!(matches!(verify(&[1, 2], &[1, 2], 8), Verdict::Same));
    assert!(matches!(verify(&[1], &[1, 2], 8), Verdict::Length));
    match verify(&[1, 5, 6, 7], &[1, 2, 3, 4], 2) {
        Verdict::Different { examples } => assert_eq!(
            examples,
            vec![Mismatch { index: 1, want: 2, got: 5 }, Mismatch { index: 2, want: 3, got: 6 }]
        ),
        _ => panic!("not seen"),
    }
    assert_eq!(mismatch_count(&[1, 2, 3], &[1, 4]), 1);
}

#[test]
fn only_the_common_part_is_compared() {
    assert_eq!(verify_common(&[1, 2, 9], &[1, 2], 10), Ok(()));
    assert_eq!(verify_common(&[1], &[1, 2], 10), Ok(()));
    assert_eq!(verify_common(&[], &[1], 10), Ok(()));
    let differs = vec![Mismatch { index: 1, want: 2, got: 5 }];
    assert_eq!(verify_common(&[1, 5], &[1, 2, 3], 10), Err(differs));
    assert_eq!(common_mismatches(&[1, 5], &[2, 6], 0), vec![]);
}

#[test]
fn a_wrong_length_is_no_match() {
    assert_eq!(verify_exact(&[1, 2], &[1, 2], 8), Ok(()));
    assert_eq!(verify_exact(&[1, 2], &[1, 2, 3], 8), Err(vec![]));
    let differs = vec![Mismatch { index: 0, want: 4, got: 1 }];
    assert_eq!(verify_exact(&[1, 2, 3], &[4, 2], 8), Err(differs));
}

#[test]
fn worker_results_are_merged() {
    let mut values = vec![0; 4];
    assert_eq!(place_columns(&mut values, 0, 2, 1, 2, &[7, 8]), Ok(()));
    assert_eq!(values, vec![0, 7, 8, 0]);
    assert_eq!(place_columns(&mut values, 2, 2, 1, 2, &[7, 8]), Err(MergeError::Metadata));
    assert_eq!(place_columns(&mut values, 0, 2, 3, 2, &[7, 8]), Err(MergeError::Metadata));
    assert_eq!(place_columns(&mut values, 0, 2, 1, 2, &[7]), Err(MergeError::Length));
    assert_eq!(add_partial(&mut values, 1, 2, &[1, 1, 1, 1]), Ok(()));
    assert_eq!(values, vec![1, 8, 9, 1]);
    assert_eq!(add_partial(&mut values, 3, 2, &[1, 1, 1, 1]), Err(MergeError::Metadata));
    assert_eq!(add_partial(&mut values, 0, 2, &[1]), Err(MergeError::Length));
    assert_eq!(add_partial(&mut values, 0, 2, &[1, i32::MAX, 1, 1]), Err(MergeError::Overflow));
    assert_eq!(values, vec![2, 8, 9, 1]);
}

#[test]
fn largest_value_is_the_last_of_equals() {
    let bits = |v: &[f32]| v.iter().map(|x| x.to_bits()).collect::<Vec<u32>>();
    assert_eq!(argmax(&bits(&[1.0, 3.0, 3.0, -4.0])), Some(2));
    assert_eq!(argmax(&bits(&[-3.0, -1.0, -2.0])), Some(1));
    assert_eq!(argmax(&bits(&[0.0, -0.0])), Some(0));
    assert_eq!(argmax(&[]), None);
    assert_eq!(percentile_index(11, 95, 100), 9);
    assert_eq!(percentile_index(1, 1, 2), 0);
    assert_eq!(read_words(&[1, 0, 0, 0, 0, 1, 0, 0]), Some(vec![1, 256]));
    assert_eq!(read_words(&[1, 2, 3]), None);
}

#[test]
fn largest_value_may_be_the_first_of_equals() {
    let best = |v: &[f32]| argmax_first(&v.iter().map(|x| x.to_bits()).collect::<Vec<u32>>());
    assert_eq!(best(&[1.0, 3.0, 3.0, -4.0]), 1);
    assert_eq!(best(&[-3.0, -1.0, -1.0]), 1);
    assert_eq!(best(&[-0.0, 0.0]), 0);
    assert_eq!(best(&[f32::NAN, 5.0]), 0);
    assert_eq!(best(&[1.0, f32::NAN, 5.0, f32::INFINITY]), 3);
    assert_eq!(best(&[f32::NEG_INFINITY, -f32::NAN, -5.0]), 2);
    assert_eq!(best(&[]), 0);
}

#[test]
fn odd_bytes_may_be_left_out() {
    assert_eq!(read_whole_words(&[1, 0, 0, 0, 0, 1, 0, 0, 7, 7]), vec![1, 256]);
    assert_eq!(read_whole_words(&[1, 2, 3]), vec![]);
}

#[test]
fn generators_repeat() {
    assert_eq!(pattern(4, 17, 3, 15, 7), vec![-4, -2, 0, 2]);
    let mut seed = 1u64;
    let first = lcg_next(&mut seed);
    assert_eq!(seed, 1u64.wrapping_mul(6364136223846793005).wrapping_add(1442695040888963407));
    assert_eq!(first, (seed >> 32) as u32);
    let mut s = 1u64;
    assert_eq!(xorshift_next(&mut s), 0x40822041);
    let mut zero = 0u64;
    assert_eq!(xorshift_next(&mut zero), 0);
}

#[test]
fn numbers_are_little_endian() {
    let mut out = Vec::new();
    put_le(&mut out, 0x0102_0304, 4);
    assert_eq!(out, vec![4, 3, 2, 1]);
    assert_eq!(get_u32(&out, 0), 0x0102_0304);
    assert_eq!(get_u16(&out, 1), 0x0203);
    assert_eq!(get_i16(&[0xfe, 0xff], 0), -2);
    assert_eq!(get_i32(&[0, 0xfe, 0xff, 0xff, 0xff], 1), -2);
    assert_eq!(half_bytes(&[0x3c00, 1]), vec![0x00, 0x3c, 1, 0]);
    assert_eq!(words_bytes(&[0x0807060504030201]), vec![1, 2, 3, 4, 5, 6, 7, 8]);
}

fn tensor(op: &str, dims: Vec<usize>, values: Vec<u16>) -> TraceTensor {
    TraceTensor { op: op.to_string(), name: "t".to_string(), dims, values }
}

#[test]
fn traces_say_where_values_start() {
    let trace = [tensor("Conv", vec![1, 2], vec![1, 2]), tensor("Relu", vec![3], vec![3, 4, 5])];
    let saved = save_trace(&trace, false);
    assert_eq!(saved.meta, "Conv\tt\t1\t2\t0\t2\nRelu\tt\t3\t2\t3\n");
    assert_eq!(saved.raw, vec![1, 0, 2, 0, 3, 0, 4, 0, 5, 0]);
    let saved = save_trace(&trace, true);
    assert_eq!(
        saved.meta,
        "index\top\tname\tdims\toffset\tcount\n0\tConv\tt\t1x2\t0\t2\n1\tRelu\tt\t3\t2\t3\n"
    );
    assert_eq!(join_patterns(&[0x3c00, 0x1]), format!("{:04x},{:04x}", 0x3c00, 1));
}

#[test]
fn tables_hold_each_key_once() {
    let key = |address: usize| DecodeWeightKey {
        address,
        bytes: 1,
        k: 2,
        n: 3,
        kind: DecodeWeightKind::Q4K,
    };
    let mut table: Table<DecodeWeightKey, u64> = Table::new();
    assert_eq!(table.len(), 0);
    table.insert(key(1), 10);
    table.insert(key(2), 20);
    table.insert(key(1), 11);
    assert_eq!(table.len(), 2);
    assert_eq!(table.get(&key(1)), Some(&11));
    assert!(table.contains_key(&key(2)));
    assert_eq!(table.remove(&key(1)), Some(11));
    assert_eq!(table.remove(&key(1)), None);
    assert_eq!(table.row(0).1, 20);
}
