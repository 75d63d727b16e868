//! The key/value cache and grouped-query attention.
use rustorch::nn::gqa::{
    gqa_by_rows, gqa_forward_f32, replicate_kv, AttentionShape, GQAError, GqaShape,
};
use rustorch::nn::kv_cache::{KVCache, KVCacheError};
use rustorch::nn::softmax_row::{attend_row, SoftmaxKernel};

fn softmax_average(q: &[f32], k: &[f32], v: &[f32], d: usize) -> Vec<f32> {
    let n = k.len() / d;
    let scale = 1.0 / (d as f32).sqrt();
    let scores: Vec<f32> = (0..n)
        .map(|j| (0..d).map(|i| q[i] * k[j * d + i]).sum::<f32>() * scale)
        .collect();
    let top = scores.iter().copied().fold(f32::NEG_INFINITY, f32::max);
    let weights: Vec<f32> = scores.iter().map(|s| (s - top).exp()).collect();
    let total: f32 = weights.iter().sum();
    (0..d)
        .map(|i| (0..n).map(|j| weights[j] * v[j * d + i]).sum::<f32>() / total)
        .collect()
}

fn attention(q: &[f32], k: &[f32], v: &[f32], s: GqaShape) -> Vec<f32> {
    let d = s.head_dim;
    let mut out = Vec::new();
    for h in 0..s.batch * s.n_heads {
        let kv = h * s.seq_kv * d;
        for p in 0..s.seq_q {
            let at = (h * s.seq_q + p) * d;
            out.extend(softmax_average(
                &q[at..at + d],
                &k[kv..kv + s.seq_kv * d],
                &v[kv..kv + s.seq_kv * d],
                d,
            ));
        }
    }
    out
}

/// The axes of attention in which every query head has its own keys.
fn own_heads(a: AttentionShape) -> GqaShape {
    GqaShape {
        batch: a.batch,
        n_heads: a.n_heads,
        n_kv_heads: a.n_heads,
        seq_q: a.seq_len,
        seq_kv: a.seq_len,
        head_dim: a.head_dim,
    }
}

fn gqa(q: &[f32], k: &[f32], v: &[f32], out: &mut [f32], s: GqaShape) -> Result<(), GQAError> {
    gqa_forward_f32(
        q,
        k,
        v,
        out,
        s,
        &|axes: AttentionShape, a: &[f32], b: &[f32], c: &[f32]| {
            Some(attention(a, b, c, own_heads(axes)))
        },
        &SoftmaxKernel {
            zero: 0.0,
            lowest: f32::NEG_INFINITY,
            mul_add: |acc: f32, a: f32, b: f32| acc + a * b,
            scale: |dot: f32, width: usize| dot * (1.0 / (width as f32).sqrt()),
            max: f32::max,
            exp_of: |score: f32, top: f32| (score - top).exp(),
            sum: |a: f32, b: f32| a + b,
            recip: |total: f32| 1.0 / total,
            weigh: |e: f32, inv: f32| e * inv,
        },
    )
}

fn shape(
    batch: usize,
    n_heads: usize,
    n_kv_heads: usize,
    seq_q: usize,
    seq_kv: usize,
    head_dim: usize,
) -> GqaShape {
    GqaShape { batch, n_heads, n_kv_heads, seq_q, seq_kv, head_dim }
}

#[test]
fn gqa_with_n_kv_heads_eq_n_heads_matches_mha() {
    let (n_heads, seq, head_dim) = (4, 3, 4);
    let n = n_heads * seq * head_dim;
    let q: Vec<f32> = (0..n).map(|i| (i as f32 + 1.0) * 0.01).collect();
    let k: Vec<f32> = (0..n).map(|i| (i as f32 + 1.0) * 0.02).collect();
    let v: Vec<f32> = (0..n).map(|i| (i as f32 + 1.0) * 0.03).collect();
    let mut out = vec![0.0_f32; n];
    gqa(&q, &k, &v, &mut out, shape(1, n_heads, n_heads, seq, seq, head_dim)).unwrap();
    for h in 0..n_heads {
        let block = h * seq * head_dim..(h + 1) * seq * head_dim;
        let v_min = v[block.clone()].iter().copied().fold(f32::INFINITY, f32::min);
        let v_max = v[block.clone()].iter().copied().fold(f32::NEG_INFINITY, f32::max);
        for &x in &out[block] {
            assert!(x >= v_min - 1e-5 && x <= v_max + 1e-5, "h={h}: {x}");
        }
    }
}

#[test]
fn gqa_4_to_1_group_ratio_runs_and_outputs_finite() {
    let (n_heads, n_kv_heads, seq, head_dim) = (8, 2, 4, 8);
    let q: Vec<f32> = (0..n_heads * seq * head_dim).map(|i| (i as f32 * 0.001).sin()).collect();
    let k: Vec<f32> = (0..n_kv_heads * seq * head_dim).map(|i| (i as f32 * 0.001).cos()).collect();
    let v: Vec<f32> = (0..n_kv_heads * seq * head_dim)
        .map(|i| ((i as f32 + 1.0) * 0.0005).tan())
        .collect();
    let mut out = vec![0.0_f32; n_heads * seq * head_dim];
    gqa(&q, &k, &v, &mut out, shape(1, n_heads, n_kv_heads, seq, seq, head_dim)).unwrap();
    for &x in out.iter() {
        assert!(x.is_finite(), "non-finite: {x}");
    }
    let group_size = n_heads / n_kv_heads;
    for kv_h in 0..n_kv_heads {
        let off0 = kv_h * group_size * seq * head_dim;
        let off1 = (kv_h * group_size + group_size - 1) * seq * head_dim;
        let diff: f32 = (0..head_dim).map(|d| (out[off0 + d] - out[off1 + d]).abs()).sum();
        assert!(diff > 1e-6, "kv group {kv_h}: heads should differ");
    }
}

#[test]
fn gqa_head_count_mismatch_returns_err() {
    let q = vec![0.0_f32; 5 * 4];
    let k = vec![0.0_f32; 2 * 4];
    let v = vec![0.0_f32; 2 * 4];
    let mut out = vec![0.0_f32; 5 * 4];
    let err = gqa(&q, &k, &v, &mut out, shape(1, 5, 2, 1, 1, 4)).unwrap_err();
    assert!(matches!(err, GQAError::HeadCountMismatch { .. }));
    assert_eq!(err.message(), "gqa: n_heads 5 not divisible by n_kv_heads 2");
}

#[test]
fn gqa_wrong_input_length_returns_err() {
    let q = vec![0.0_f32; 7];
    let k = vec![0.0_f32; 2 * 4];
    let v = vec![0.0_f32; 2 * 4];
    let mut out = vec![0.0_f32; 4 * 4];
    let err = gqa(&q, &k, &v, &mut out, shape(1, 4, 2, 1, 1, 4)).unwrap_err();
    assert!(matches!(err, GQAError::WrongInputLen { .. }));
    assert_eq!(err.message(), "gqa: q expected 16 f32, got 7");
}

#[test]
fn gqa_decode_step_matches_attention_over_replicated_heads() {
    let s = shape(2, 4, 2, 1, 5, 3);
    let q: Vec<f32> = (0..2 * 4 * 3).map(|i| (i as f32 * 0.3).sin()).collect();
    let k: Vec<f32> = (0..2 * 2 * 5 * 3).map(|i| (i as f32 * 0.7).cos()).collect();
    let v: Vec<f32> = (0..2 * 2 * 5 * 3).map(|i| i as f32 * 0.1).collect();
    let mut out = vec![0.0_f32; q.len()];
    gqa(&q, &k, &v, &mut out, s).unwrap();
    let expected = attention(&q, &replicate_kv(&k, s), &replicate_kv(&v, s), s);
    for (a, b) in out.iter().zip(&expected) {
        assert!((a - b).abs() < 1e-6, "{a} vs {b}");
    }
}

#[test]
fn grouped_attention_is_attention_on_replicas() {
    for (seq_q, seq_kv) in [(1, 5), (4, 4)] {
        let s = shape(2, 6, 3, seq_q, seq_kv, 3);
        let own = GqaShape { n_kv_heads: 6, ..s };
        let q: Vec<f32> = (0..2 * 6 * seq_q * 3).map(|i| (i as f32 * 0.3).sin()).collect();
        let k: Vec<f32> = (0..2 * 3 * seq_kv * 3).map(|i| (i as f32 * 0.7).cos()).collect();
        let v: Vec<f32> = (0..2 * 3 * seq_kv * 3).map(|i| i as f32 * 0.1).collect();
        let mut out1 = vec![0.0_f32; q.len()];
        let mut out2 = vec![0.0_f32; q.len()];
        gqa(&q, &k, &v, &mut out1, s).unwrap();
        gqa(&q, &replicate_kv(&k, s), &replicate_kv(&v, s), &mut out2, own).unwrap();
        assert_eq!(out1, out2);
    }
}

#[test]
fn grouped_attention_overwrites_its_output() {
    for (seq_q, seq_kv) in [(1, 5), (4, 4)] {
        let s = shape(1, 4, 2, seq_q, seq_kv, 2);
        let q: Vec<f32> = (0..4 * seq_q * 2).map(|i| (i as f32 * 0.3).sin()).collect();
        let k: Vec<f32> = (0..2 * seq_kv * 2).map(|i| (i as f32 * 0.7).cos()).collect();
        let mut out1 = vec![0.0_f32; q.len()];
        let mut out2 = vec![f32::NAN; q.len()];
        gqa(&q, &k, &k, &mut out1, s).unwrap();
        gqa(&q, &k, &k, &mut out2, s).unwrap();
        assert_eq!(out1, out2);
    }
}

#[test]
fn the_prefill_kernel_is_handed_the_axes_of_all_query_heads() {
    let s = shape(2, 4, 2, 3, 3, 1);
    let mut out = [0_i64; 24];
    gqa_forward_f32(
        &[1; 24],
        &[5; 12],
        &[7; 12],
        &mut out,
        s,
        &|a: AttentionShape, q: &[i64], k: &[i64], v: &[i64]| {
            let axes = AttentionShape { batch: 2, n_heads: 4, seq_len: 3, head_dim: 1 };
            assert_eq!(a, axes);
            Some((0..24).map(|i| q[i] + k[i] * v[i]).collect())
        },
        &counting_kernel(),
    )
    .unwrap();
    assert_eq!(out, [36; 24]);
}

#[test]
fn scores_are_scaled_by_the_width_of_a_row() {
    let kernel = SoftmaxKernel {
        zero: 0_i64,
        lowest: i64::MIN,
        mul_add: |acc: i64, a: i64, b: i64| acc + a * b,
        scale: |dot: i64, width: usize| dot * 100 + width as i64,
        max: |a: i64, b: i64| a.max(b),
        exp_of: |score: i64, _: i64| score,
        sum: |a: i64, b: i64| a + b,
        recip: |_: i64| 1,
        weigh: |e: i64, inv: i64| e * inv,
    };
    assert_eq!(attend_row(&kernel, &[1, 2, 3], &[1, 1, 1], &[1, 10, 100], 1), [603, 6030, 60300]);
}

#[test]
fn replication_gives_each_group_its_head() {
    let s = shape(1, 4, 2, 1, 2, 1);
    assert_eq!(replicate_kv(&[1, 2, 3, 4], s), vec![1, 2, 1, 2, 3, 4, 3, 4]);
}

/// A kernel on whole numbers in which every key has the same weight.
fn counting_kernel<T: Copy + std::ops::Add<Output = T> + std::ops::Mul<Output = T> + Default>(
) -> SoftmaxKernel<
    T,
    impl Fn(T, T, T) -> T,
    impl Fn(T, usize) -> T,
    impl Fn(T, T) -> T,
    impl Fn(T, T) -> T,
    impl Fn(T, T) -> T,
    impl Fn(T) -> T,
    impl Fn(T, T) -> T,
> {
    SoftmaxKernel {
        zero: T::default(),
        lowest: T::default(),
        mul_add: |acc: T, a: T, b: T| acc + a * b,
        scale: |dot: T, _: usize| dot,
        max: |a: T, _: T| a,
        exp_of: |score: T, _: T| score,
        sum: |a: T, b: T| a + b,
        recip: |total: T| total,
        weigh: |e: T, _: T| e,
    }
}

#[test]
fn row_kernel_applies_its_steps_in_order() {
    // scores are the dot products 1*1+2*2 = 5 and 1*3+2*4 = 11
    let out = attend_row(&counting_kernel::<i64>(), &[1, 2], &[1, 2, 3, 4], &[10, 20, 30, 40], 2);
    assert_eq!(out, vec![5 * 10 + 11 * 30, 5 * 20 + 11 * 40]);
    assert_eq!(attend_row(&counting_kernel::<i64>(), &[7, 8], &[], &[], 0), vec![0, 0]);
}

#[test]
fn rows_reach_the_key_block_of_their_group() {
    let s = shape(1, 4, 2, 1, 2, 1);
    let mut out = [0; 4];
    gqa_by_rows(
        &[1, 2, 3, 4],
        &[10, 11, 20, 21],
        &[0, 0, 0, 0],
        &mut out,
        s,
        &|_: AttentionShape, _: &[i32], _: &[i32], _: &[i32]| None,
        &|q: &[i32], k: &[i32], _: &[i32]| vec![q[0] * 100 + k[0]],
    )
    .unwrap();
    assert_eq!(out, [110, 210, 320, 420]);
}

#[test]
fn gqa_reports_a_flash_kernel_that_gives_up() {
    let s = shape(1, 1, 1, 1, 1, 1);
    let mut out = [9.0_f32];
    let err = gqa_forward_f32(
        &[1.0],
        &[1.0],
        &[1.0],
        &mut out,
        s,
        &|_: AttentionShape, _: &[f32], _: &[f32], _: &[f32]| None,
        &counting_kernel(),
    )
    .unwrap_err();
    assert_eq!(err, GQAError::WrongInputLen { which: "flash_forward", expected: 0, got: 0 });
    assert_eq!(out, [9.0]);
}

#[test]
fn kv_cache_append_and_read_back() {
    let mut cache = KVCache::new(2, 1, 2, 4, 8, 0.0_f32);
    assert_eq!(cache.num_layers(), 2);
    assert_eq!(cache.max_seq(), 8);
    assert_eq!(cache.current_len(), 0);
    let n = 2 * 3 * 4;
    let new_k: Vec<f32> = (0..n).map(|i| i as f32 * 0.1).collect();
    let new_v: Vec<f32> = (0..n).map(|i| i as f32 * 0.01).collect();
    cache.append(0, 3, &new_k, &new_v).unwrap();
    cache.append(1, 3, &new_k, &new_v).unwrap();
    cache.advance(3).unwrap();
    assert_eq!(cache.current_len(), 3);
    let k_buf = cache.k_buffer(0).unwrap();
    for s in 0..3 {
        for d in 0..4 {
            assert!((k_buf[s * 4 + d] - new_k[s * 4 + d]).abs() < 1e-6, "h=0 s={s} d={d}");
            assert_eq!(k_buf[32 + s * 4 + d], new_k[12 + s * 4 + d], "h=1 s={s} d={d}");
        }
    }
    assert_eq!(cache.v_buffer(1).unwrap()[32], new_v[12]);
    assert!(cache.k_buffer(2).is_none());
    assert_eq!(cache.dims(), Some((1, 2, 8, 4)));
}

#[test]
fn kv_cache_overflow_returns_err() {
    let mut cache = KVCache::new(1, 1, 1, 4, 4, 0.0_f32);
    let buf = vec![0.0_f32; 5 * 4];
    let err = cache.append(0, 5, &buf, &buf).unwrap_err();
    assert!(matches!(err, KVCacheError::Overflow { .. }));
    assert_eq!(err.message(), "kv_cache overflow: requested 5 positions, max 4");
    assert!(cache.advance(5).is_err());
}

#[test]
fn kv_cache_wrong_input_len() {
    let mut cache = KVCache::new(1, 1, 1, 4, 8, 0.0_f32);
    let bad = vec![0.0_f32; 3];
    let err = cache.append(0, 1, &bad, &bad).unwrap_err();
    assert!(matches!(err, KVCacheError::WrongInputLen { .. }));
    assert_eq!(err.message(), "kv_cache append: expected 4 f32, got K=3 V=3");
}

#[test]
fn kv_cache_layer_out_of_range() {
    let mut cache = KVCache::new(2, 1, 1, 4, 8, 0.0_f32);
    let buf = vec![0.0_f32; 4];
    let err = cache.append(2, 1, &buf, &buf).unwrap_err();
    assert!(matches!(err, KVCacheError::LayerOutOfRange { .. }));
    assert_eq!(err.message(), "kv_cache layer 2 out of range (have 2)");
}

#[test]
fn kv_cache_clear_resets_current_len() {
    let mut cache = KVCache::new(1, 1, 1, 4, 8, 0.0_f32);
    let buf = vec![0.0_f32; 4];
    cache.append(0, 1, &buf, &buf).unwrap();
    cache.advance(1).unwrap();
    assert_eq!(cache.current_len(), 1);
    cache.clear();
    assert_eq!(cache.current_len(), 0);
}

#[test]
fn kv_cache_appends_accumulate() {
    let mut cache = KVCache::new(1, 1, 1, 1, 4, 0_i32);
    for t in 1..=3 {
        cache.append(0, 1, &[t], &[-t]).unwrap();
        cache.advance(1).unwrap();
    }
    assert_eq!(cache.k_buffer(0).unwrap(), &[1, 2, 3, 0]);
    assert_eq!(cache.v_buffer(0).unwrap(), &[-1, -2, -3, 0]);
    assert_eq!(KVCacheError::Aliased.message(), "kv_cache: tensor was aliased");
}
