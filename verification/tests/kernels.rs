//! Plans carried out on a software device.
//!
//! The device walks the launch grid of each dispatch, so that a row that no
//! thread or threadgroup covers stays unwritten.
use rustorch::metal::backend::plan_buffers;
use rustorch::metal::decode::{
    gqa_decode_batched_f32, gqa_decode_f32, kv_append_batched_f32, kv_append_f32,
    rms_norm_batched_f32, rms_norm_f32, rope_half_split_batched_f32, rope_half_split_f32,
};
use rustorch::metal::dispatch::{Binding, Dispatch, Plan};
use rustorch::metal::elementwise::add_f32;
use rustorch::metal::matmul::{
    matmul_simdgroup_f32, matmul_simdgroup_f32_a_t, matmul_simdgroup_f32_b_t,
    matmul_simdgroup_f32_coarsened_wide_bias,
};
use rustorch::metal::reduce::{mean_f32, mse_reduce_f32, sum_f32};
use rustorch::metal::sgemv::{
    sgemv_f32_simd, sgemv_q4_k_f32_batch_into, sgemv_q4_k_f32_into, sgemv_q4_k_f32_pair_into,
    sgemv_q4_k_f32_quadcoop_into, sgemv_q4_k_f32_triple_into, sgemv_q4_k_f32_triple_simdcoop_into,
};

// ---- the device ----

#[derive(Clone)]
enum Mem {
    Floats(Vec<f32>),
    Bytes(Vec<u8>),
    Words(Vec<u32>),
}

fn zeros(n: usize) -> Mem {
    Mem::Floats(vec![0.0; n])
}

fn floats(m: &Mem) -> Vec<f32> {
    match m {
        Mem::Floats(f) => f.clone(),
        _ => panic!("not a float buffer"),
    }
}

struct Bench<'a> {
    args: &'a mut Vec<Mem>,
    temps: Vec<Mem>,
}

impl Bench<'_> {
    fn words(&self, d: &Dispatch, at: usize) -> Vec<usize> {
        let w: &Vec<u32> = match &d.bindings[at] {
            Binding::Words(w) => w,
            Binding::Temp(i) => match &self.temps[*i] {
                Mem::Words(w) => w,
                _ => panic!("not a word buffer"),
            },
            _ => panic!("no words at {at}"),
        };
        w.iter().map(|v| *v as usize).collect()
    }

    fn scalar(&self, d: &Dispatch, at: usize) -> f32 {
        match &d.bindings[at] {
            Binding::Words(w) => f32::from_bits(w[0]),
            Binding::InvSqrt(n) => 1.0 / (*n as f32).sqrt(),
            _ => panic!("no scalar at {at}"),
        }
    }

    fn mem(&self, d: &Dispatch, at: usize) -> &Mem {
        match &d.bindings[at] {
            Binding::Arg(i) => &self.args[*i],
            Binding::Temp(i) => &self.temps[*i],
            _ => panic!("no buffer at {at}"),
        }
    }

    fn load(&self, d: &Dispatch, at: usize) -> Vec<f32> {
        floats(self.mem(d, at))
    }

    fn rows(&self, d: &Dispatch, at: usize) -> Vec<f32> {
        match self.mem(d, at) {
            Mem::Bytes(b) => decode_q4k(b),
            _ => panic!("no quantised weights at {at}"),
        }
    }

    fn store(&mut self, d: &Dispatch, at: usize, values: Vec<f32>) {
        match &d.bindings[at] {
            Binding::Arg(i) => self.args[*i] = Mem::Floats(values),
            Binding::Temp(i) => self.temps[*i] = Mem::Floats(values),
            _ => panic!("no buffer at {at}"),
        }
    }
}

/// Threadgroups of a launch along each axis.
fn groups(d: &Dispatch) -> (usize, usize) {
    if d.by_groups {
        (d.grid.0 as usize, d.grid.1 as usize)
    } else {
        (d.grid.0.div_ceil(d.group.0) as usize, d.grid.1.div_ceil(d.group.1) as usize)
    }
}

fn half(lo: u8, hi: u8) -> f32 {
    let bits = u32::from(lo) | (u32::from(hi) << 8);
    let mantissa = (bits & 0x3ff) as f32 / 1024.0;
    let exponent = ((bits >> 10) & 0x1f) as i32;
    (1.0 + mantissa) * 2.0_f32.powi(exponent - 15)
}

fn decode_q4k(bytes: &[u8]) -> Vec<f32> {
    let mut out: Vec<f32> = Vec::with_capacity(bytes.len() / 144 * 256);
    for block in bytes.chunks(144) {
        let d = half(block[0], block[1]);
        let dmin = half(block[2], block[3]);
        let packed = &block[4..16];
        let mut sc = [0u8; 8];
        let mut m = [0u8; 8];
        for i in 0..4 {
            sc[i] = packed[i] & 0x3f;
            m[i] = packed[i + 4] & 0x3f;
            sc[i + 4] = (packed[i + 8] & 0x0f) | ((packed[i] >> 6) << 4);
            m[i + 4] = (packed[i + 8] >> 4) | ((packed[i + 4] >> 6) << 4);
        }
        for j in 0..8 {
            let scale = d * f32::from(sc[j]);
            let min = dmin * f32::from(m[j]);
            let at = 16 + j / 2 * 32;
            let mut i = 0;
            while i < 32 {
                let q = if j % 2 == 0 { block[at + i] & 0x0f } else { block[at + i] >> 4 };
                out.push(scale * f32::from(q) - min);
                i += 1;
            }
        }
    }
    out
}

/// Dot product of `x` and `w`, summed in `lanes` interleaved runs of 256.
fn dot(x: &[f32], w: &[f32], lanes: usize) -> f32 {
    let k = x.len();
    let mut sum = 0.0;
    for lane in 0..lanes {
        let mut partial = 0.0;
        let mut block = lane * 256;
        while block < k {
            let end = k.min(block + 256);
            let mut i = block;
            while i < end {
                partial += x[i] * w[i];
                i += 1;
            }
            block += 256 * lanes;
        }
        sum += partial;
    }
    sum
}

/// One tile of rows and columns of a product.
#[allow(clippy::too_many_arguments)]
fn tile(
    d: &Dispatch,
    (tm, tn): (usize, usize),
    (m, k, n): (usize, usize, usize),
    a: &[f32],
    b: &[f32],
    (a_t, b_t): (bool, bool),
    bias: Option<&[f32]>,
    c: &mut [f32],
) {
    let (gx, gy) = groups(d);
    for ty in 0..gy {
        for tx in 0..gx {
            for i in ty * tm..(m.min((ty + 1) * tm)) {
                for j in tx * tn..(n.min((tx + 1) * tn)) {
                    let mut acc = 0.0;
                    let mut kk = 0;
                    while kk < k {
                        let av = if a_t { a[kk * m + i] } else { a[i * k + kk] };
                        let bv = if b_t { b[j * k + kk] } else { b[kk * n + j] };
                        acc += av * bv;
                        kk += 1;
                    }
                    c[i * n + j] = acc + bias.map_or(0.0, |v| v[j]);
                }
            }
        }
    }
}

fn attend(
    q: &[f32],
    k: &[f32],
    v: &[f32],
    head_dim: usize,
    kv_len: usize,
    scale: f32,
    out: &mut [f32],
) {
    let mut scores: Vec<f32> = (0..kv_len)
        .map(|p| {
            let row = &k[p * head_dim..(p + 1) * head_dim];
            q.iter().zip(row).map(|(a, b)| a * b).sum::<f32>() * scale
        })
        .collect();
    let max = scores.iter().cloned().fold(f32::NEG_INFINITY, f32::max);
    for s in scores.iter_mut() {
        *s = (*s - max).exp();
    }
    let sum: f32 = scores.iter().sum();
    for (dd, o) in out.iter_mut().enumerate() {
        *o = scores.iter().enumerate().map(|(p, s)| s / sum * v[p * head_dim + dd]).sum();
    }
}

fn launch(d: &Dispatch, t: &mut Bench) {
    let (gx, gy) = groups(d);
    let (threads_x, threads_y) = (d.grid.0 as usize, d.grid.1 as usize);
    match d.entry {
        "add_f32" => {
            let (a, b, mut out) = (t.load(d, 0), t.load(d, 1), t.load(d, 2));
            let n = t.words(d, 3)[0];
            for gid in 0..threads_x.min(n) {
                out[gid] = a[gid] + b[gid];
            }
            t.store(d, 2, out);
        }
        "matmul_simdgroup_f32" => {
            let (a, b, mut c, w) = (t.load(d, 0), t.load(d, 1), t.load(d, 2), t.words(d, 3));
            let dims = (w[0], w[1], w[2]);
            tile(d, (8, 8), dims, &a, &b, (false, false), None, &mut c);
            t.store(d, 2, c);
        }
        "matmul_simdgroup_f32_b_t" | "matmul_simdgroup_f32_a_t" => {
            let b_t = d.entry.ends_with("b_t");
            let (a, b, mut c, w) = (t.load(d, 0), t.load(d, 1), t.load(d, 2), t.words(d, 3));
            let dims = (w[0], w[1], w[2]);
            tile(d, (16, 256), dims, &a, &b, (!b_t, b_t), None, &mut c);
            t.store(d, 2, c);
        }
        "matmul_simdgroup_f32_coarsened_wide_bias" => {
            let (a, b, bias, mut c) = (t.load(d, 0), t.load(d, 1), t.load(d, 2), t.load(d, 3));
            let w = t.words(d, 4);
            let dims = (w[0], w[1], w[2]);
            tile(d, (16, 256), dims, &a, &b, (false, false), Some(&bias), &mut c);
            t.store(d, 3, c);
        }
        "reduce_partial_f32" | "mse_reduce_partial_f32" => {
            let squared = d.entry.starts_with("mse");
            let n = t.words(d, 0)[0];
            let a = t.load(d, 1);
            let b = if squared { t.load(d, 2) } else { vec![0.0; n] };
            let at = if squared { 3 } else { 2 };
            let mut out = t.load(d, at);
            let stride = d.group.0 as usize;
            for g in 0..gx {
                let mut s: Vec<f32> = (g * stride..(g + 1) * stride)
                    .map(|i| match (i < n, squared) {
                        (true, true) => (a[i] - b[i]) * (a[i] - b[i]),
                        (true, false) => a[i],
                        (false, _) => 0.0,
                    })
                    .collect();
                let mut half = stride / 2;
                while half > 0 {
                    for i in 0..half {
                        s[i] += s[i + half];
                    }
                    half /= 2;
                }
                out[g] = s[0];
            }
            t.store(d, at, out);
        }
        "reduce_finalise_f32" => {
            let w = t.words(d, 0);
            let (partials, mut out, count) = (t.load(d, 1), t.load(d, 2), t.words(d, 3)[0]);
            let mut acc: f32 = partials[..count].iter().sum();
            if w[1] == 1 {
                acc /= w[0] as f32;
            }
            out[0] = acc;
            t.store(d, 2, out);
        }
        "sgemv_f32_simd" => {
            let (x, w, mut y, dims) = (t.load(d, 0), t.load(d, 1), t.load(d, 2), t.words(d, 3));
            for j in 0..threads_x.min(dims[1]) {
                y[j] = (0..dims[0]).map(|k| x[k] * w[k * dims[1] + j]).sum();
            }
            t.store(d, 2, y);
        }
        "sgemv_q4_k_f32" | "sgemv_q4_k_f32_quadcoop" => {
            let (x, w, mut y, dims) = (t.load(d, 0), t.rows(d, 1), t.load(d, 2), t.words(d, 3));
            let k = dims[0];
            let (rows, lanes) = if d.entry.ends_with("quadcoop") {
                (4 * gx, 8)
            } else {
                (threads_x, 1)
            };
            for j in 0..rows.min(dims[1]) {
                y[j] = dot(&x[..k], &w[j * k..(j + 1) * k], lanes);
            }
            t.store(d, 2, y);
        }
        "sgemv_q4_k_f32_batch" => {
            let (x, w, mut y, dims) = (t.load(d, 0), t.rows(d, 1), t.load(d, 2), t.words(d, 3));
            let (k, n) = (dims[0], dims[1]);
            for b in 0..threads_y.min(dims[2]) {
                for j in 0..threads_x.min(n) {
                    y[b * n + j] = dot(&x[b * k..(b + 1) * k], &w[j * k..(j + 1) * k], 1);
                }
            }
            t.store(d, 2, y);
        }
        "sgemv_q4_k_f32_triple" | "sgemv_q4_k_f32_triple_simdcoop" => {
            let dims = t.words(d, 7);
            let k = dims[0];
            let x = t.load(d, 0);
            let (rows, lanes) = if d.entry.ends_with("simdcoop") {
                (gx, 32)
            } else {
                (threads_x, 1)
            };
            let mut first = 0;
            for slot in 0..3 {
                let n = dims[1 + slot];
                let w = t.rows(d, 1 + slot);
                let mut out = t.load(d, 4 + slot);
                for j in 0..n.min(rows.saturating_sub(first)) {
                    out[j] = dot(&x[..k], &w[j * k..(j + 1) * k], lanes);
                }
                first += n;
                t.store(d, 4 + slot, out);
            }
        }
        "rms_norm_f32" | "rms_norm_batched_f32" => {
            let (x, gamma, mut y) = (t.load(d, 0), t.load(d, 1), t.load(d, 2));
            let dims = t.words(d, 3);
            let (dim, rows) = (dims[0], if dims.len() == 2 { dims[1].min(gx) } else { 1 });
            let eps = t.scalar(d, 4);
            for b in 0..rows {
                let row = &x[b * dim..(b + 1) * dim];
                let total: f32 = row.iter().map(|v| v * v).sum();
                let inv = 1.0 / (total / dim as f32 + eps).sqrt();
                for i in 0..dim {
                    y[b * dim + i] = row[i] * inv * gamma[i];
                }
            }
            t.store(d, 2, y);
        }
        "rope_half_split_f32" | "rope_half_split_batched_f32" => {
            let batched = d.entry.contains("batched");
            let (mut x, cos, sin, w) = (t.load(d, 0), t.load(d, 1), t.load(d, 2), t.words(d, 3));
            let (heads, head_dim) = (w[0], w[1]);
            let rope = if batched { head_dim } else { w[2] };
            let base = if batched { w[2] } else { w[3] };
            let rows = if batched { w[3].min(threads_y) } else { 1 };
            let half = rope / 2;
            for b in 0..rows {
                for flat in 0..threads_x.min(heads * half) {
                    let (h, k) = (flat / half, flat % half);
                    let i0 = b * heads * head_dim + h * head_dim + k;
                    let i1 = i0 + half;
                    let at = (base + b) * half + k;
                    let (x0, x1) = (x[i0], x[i1]);
                    x[i0] = x0 * cos[at] - x1 * sin[at];
                    x[i1] = x1 * cos[at] + x0 * sin[at];
                }
            }
            t.store(d, 0, x);
        }
        "kv_append_f32" => {
            let (src, mut dst, w) = (t.load(d, 0), t.load(d, 1), t.words(d, 2));
            let max_seq = t.words(d, 3)[0];
            let (head_dim, position, total) = (w[1], w[2], w[0] * w[1]);
            let at = |i: usize| i / head_dim * max_seq * head_dim + position * head_dim
                + i % head_dim;
            for gid in 0..threads_x {
                if gid < total / 4 {
                    for i in 4 * gid..4 * gid + 4 {
                        dst[at(i)] = src[i];
                    }
                } else {
                    let i = total / 4 * 4 + (gid - total / 4);
                    if i < total {
                        dst[at(i)] = src[i];
                    }
                }
            }
            t.store(d, 1, dst);
        }
        "kv_append_batched_f32" => {
            let (src, mut dst, w) = (t.load(d, 0), t.load(d, 1), t.words(d, 2));
            let max_seq = t.words(d, 3)[0];
            let (head_dim, per_token) = (w[1], w[0] * w[1]);
            for gid in 0..threads_x.min(w[3] * per_token) {
                let (b, flat) = (gid / per_token, gid % per_token);
                let (h, dd) = (flat / head_dim, flat % head_dim);
                dst[h * max_seq * head_dim + (w[2] + b) * head_dim + dd] = src[gid];
            }
            t.store(d, 1, dst);
        }
        "gqa_decode_f32" | "gqa_decode_batched_f32" => {
            let batched = d.entry.contains("batched");
            let (q, k, v) = (t.load(d, 0), t.load(d, 1), t.load(d, 2));
            let (mut out, w, w2) = (t.load(d, 3), t.words(d, 4), t.words(d, 5));
            let scale = t.scalar(d, 6);
            let (heads, kv, dim, max_seq) = (w[0], w[1], w[2], w2[0]);
            assert_eq!((gy, d.group.0), (1, 32));
            for g in 0..gx {
                let (b, h) = (g / heads, g % heads);
                let kv_len = if batched { w2[1] + b + 1 } else { w[3] };
                assert!(d.shared.unwrap() as usize >= 4 * kv_len);
                let cache = h / (heads / kv) * max_seq * dim;
                let at = (b * heads + h) * dim;
                attend(
                    &q[at..at + dim],
                    &k[cache..],
                    &v[cache..],
                    dim,
                    kv_len,
                    scale,
                    &mut out[at..at + dim],
                );
            }
            t.store(d, 3, out);
        }
        other => panic!("no kernel {other}"),
    }
}

/// Carries out a plan on the caller's buffers and hands back its result.
fn run(plan: &Plan, args: &mut Vec<Mem>) -> Vec<f32> {
    let sizes = plan_buffers(plan).unwrap();
    let temps: Vec<Mem> = plan
        .allocs
        .iter()
        .zip(sizes)
        .map(|(a, size)| {
            if a.words.is_empty() { zeros(size as usize / 4) } else { Mem::Words(a.words.clone()) }
        })
        .collect();
    let mut bench = Bench { args, temps };
    for d in &plan.dispatches {
        launch(d, &mut bench);
    }
    plan.result.map_or(vec![], |i| floats(&bench.temps[i]))
}

// ---- references ----

fn det_vec(n: usize, seed: f32) -> Vec<f32> {
    (0..n).map(|i| ((i as f32 + 1.0) * seed * 0.001).sin()).collect()
}

fn cpu_matmul(a: &[f32], b: &[f32], m: usize, k: usize, n: usize) -> Vec<f32> {
    let mut c = vec![0.0_f32; m * n];
    for i in 0..m {
        for kk in 0..k {
            let av = a[i * k + kk];
            let mut j = 0;
            while j < n {
                c[i * n + j] += av * b[kk * n + j];
                j += 1;
            }
        }
    }
    c
}

fn cpu_matmul_b_t(a: &[f32], b: &[f32], m: usize, k: usize, n: usize) -> Vec<f32> {
    let mut c = vec![0.0_f32; m * n];
    for i in 0..m {
        for j in 0..n {
            c[i * n + j] = (0..k).map(|kk| a[i * k + kk] * b[j * k + kk]).sum();
        }
    }
    c
}

fn cpu_matmul_a_t(a: &[f32], b: &[f32], m: usize, k: usize, n: usize) -> Vec<f32> {
    let mut c = vec![0.0_f32; m * n];
    for i in 0..m {
        for j in 0..n {
            c[i * n + j] = (0..k).map(|kk| a[kk * m + i] * b[kk * n + j]).sum();
        }
    }
    c
}

fn cosine_sim(a: &[f32], b: &[f32]) -> f64 {
    let (mut dot, mut na, mut nb) = (0.0_f64, 0.0_f64, 0.0_f64);
    for i in 0..a.len() {
        dot += f64::from(a[i]) * f64::from(b[i]);
        na += f64::from(a[i]).powi(2);
        nb += f64::from(b[i]).powi(2);
    }
    dot / (na.sqrt() * nb.sqrt())
}

fn build_test_q4k_matrix(n: usize, k: usize, seed: u32) -> Mem {
    let blocks = n * (k / 256);
    let mut buf = vec![0u8; blocks * 144];
    let mut s = seed;
    let mut rand_byte = || {
        s = s.wrapping_mul(1103515245).wrapping_add(12345);
        (s >> 8) as u8
    };
    for blk in 0..blocks {
        let off = blk * 144;
        // 0.05 and 0.01 in half precision.
        buf[off] = 0x66;
        buf[off + 1] = 0x2a;
        buf[off + 2] = 0x1f;
        buf[off + 3] = 0x21;
        for i in 4..16 {
            buf[off + i] = rand_byte() & 0x3f;
        }
        for i in 0..128 {
            buf[off + 16 + i] = rand_byte();
        }
    }
    Mem::Bytes(buf)
}

fn sine_input(k: usize) -> Vec<f32> {
    (0..k).map(|i| ((i as f32 + 1.0) * 0.001).sin()).collect()
}

fn single(x: &[f32], w: &Mem, k: usize, n: usize) -> Vec<f32> {
    let mut args = vec![Mem::Floats(x.to_vec()), w.clone(), zeros(n)];
    run(&sgemv_q4_k_f32_into(true, k, n).unwrap(), &mut args);
    floats(&args[2])
}

fn close(a: &[f32], b: &[f32], floor: f32, tolerance: f32) {
    assert_eq!(a.len(), b.len());
    for (x, y) in a.iter().zip(b) {
        let r = (x - y).abs() / x.abs().max(floor);
        assert!(r < tolerance, "{x} vs {y} (rel {r:.3e})");
    }
}

// ---- products ----

#[test]
fn sgemv_f32_simd_matches_cpu_reference() {
    let (k, n) = (64, 256);
    let x = det_vec(k, 1.0);
    let w = det_vec(k * n, 0.5);
    let y_ref: Vec<f32> =
        (0..n).map(|j| (0..k).map(|i| x[i] * w[i * n + j]).sum::<f32>()).collect();
    let mut args = vec![Mem::Floats(x), Mem::Floats(w)];
    let y = run(&sgemv_f32_simd(true, k, n).unwrap(), &mut args);
    close(&y_ref, &y, 1e-4, 1e-3);
}

#[test]
fn matmul_simdgroup_f32_parity_with_cpu_64x64() {
    let (m, k, n) = (64, 64, 64);
    let (a, b) = (det_vec(m * k, 1.0), det_vec(k * n, 0.5));
    let expected = cpu_matmul(&a, &b, m, k, n);
    let mut args = vec![Mem::Floats(a), Mem::Floats(b)];
    let got = run(&matmul_simdgroup_f32(true, m, k, n).unwrap(), &mut args);
    assert!(cosine_sim(&got, &expected) > 0.999);
}

#[test]
fn add_f32_smoke_parity_with_cpu() {
    let n = 1024;
    let lhs: Vec<f32> = (0..n).map(|i| i as f32 * 0.5).collect();
    let rhs: Vec<f32> = (0..n).map(|i| (i as f32 + 1.0) * 0.25).collect();
    let expected: Vec<f32> = lhs.iter().zip(rhs.iter()).map(|(&a, &b)| a + b).collect();
    let bytes = n as u64 * 4;
    let mut args = vec![Mem::Floats(lhs), Mem::Floats(rhs)];
    let got = run(&add_f32(bytes, bytes, n).unwrap(), &mut args);
    for i in 0..n {
        assert!((got[i] - expected[i]).abs() < 1e-6, "{i}: {} vs {}", got[i], expected[i]);
    }
}

#[test]
fn matmul_simdgroup_f32_b_t_parity_with_cpu_16x16x256() {
    let (m, k, n) = (16, 16, 256);
    let (a, b) = (det_vec(m * k, 1.0), det_vec(n * k, 0.5));
    let expected = cpu_matmul_b_t(&a, &b, m, k, n);
    let mut args = vec![Mem::Floats(a), Mem::Floats(b)];
    let got = run(&matmul_simdgroup_f32_b_t(true, m, k, n).unwrap(), &mut args);
    assert!(cosine_sim(&got, &expected) > 0.999);
}

#[test]
fn matmul_simdgroup_f32_a_t_parity_with_cpu_16x16x256() {
    let (m, k, n) = (16, 16, 256);
    let (a, b) = (det_vec(k * m, 1.0), det_vec(k * n, 0.5));
    let expected = cpu_matmul_a_t(&a, &b, m, k, n);
    let mut args = vec![Mem::Floats(a), Mem::Floats(b)];
    let got = run(&matmul_simdgroup_f32_a_t(true, m, k, n).unwrap(), &mut args);
    assert!(cosine_sim(&got, &expected) > 0.999);
}

#[test]
fn matmul_simdgroup_f32_coarsened_wide_bias_parity_64x1024x1024() {
    let (m, k, n) = (64, 1024, 1024);
    let (a, b, bias) = (det_vec(m * k, 1.0), det_vec(k * n, 0.5), det_vec(n, 0.25));
    let mut expected = cpu_matmul(&a, &b, m, k, n);
    for i in 0..m {
        for j in 0..n {
            expected[i * n + j] += bias[j];
        }
    }
    let mut args = vec![Mem::Floats(a), Mem::Floats(b), Mem::Floats(bias)];
    let plan = matmul_simdgroup_f32_coarsened_wide_bias(true, m, k, n).unwrap();
    let got = run(&plan, &mut args);
    assert!(cosine_sim(&got, &expected) > 0.999);
}

// ---- reductions ----

#[test]
fn mse_reduce_f32_mean_parity_with_cpu_8192() {
    let n = 8192;
    let (a, b) = (det_vec(n, 1.0), det_vec(n, 0.5));
    let mut acc = 0.0f64;
    for i in 0..n {
        let d = f64::from(a[i] - b[i]);
        acc += d * d;
    }
    let expected_mean = (acc / n as f64) as f32;
    let expected_sum = acc as f32;
    let mut args = vec![Mem::Floats(a), Mem::Floats(b)];
    let mean = run(&mse_reduce_f32(n, 1).unwrap(), &mut args);
    close(&[expected_mean], &mean, 1e-6, 1e-4);
    let sum = run(&mse_reduce_f32(n, 0).unwrap(), &mut args);
    close(&[expected_sum], &sum, 1e-6, 1e-4);
}

#[test]
fn reductions_reach_the_last_group() {
    let n = 600;
    let mut args = vec![Mem::Floats((0..n).map(|i| i as f32).collect())];
    assert_eq!(run(&sum_f32(n).unwrap(), &mut args), vec![179700.0]);
    assert_eq!(run(&mean_f32(n).unwrap(), &mut args), vec![299.5]);
}

// ---- quantised weights ----

#[test]
fn sgemv_q4_k_f32_triple_matches_three_singles() {
    let (k, n_q, n_k, n_v) = (256, 8, 4, 4);
    let w_q = build_test_q4k_matrix(n_q, k, 11);
    let w_k = build_test_q4k_matrix(n_k, k, 17);
    let w_v = build_test_q4k_matrix(n_v, k, 23);
    let x = sine_input(k);
    let singles =
        [single(&x, &w_q, k, n_q), single(&x, &w_k, k, n_k), single(&x, &w_v, k, n_v)];
    let mut args = vec![Mem::Floats(x), w_q, w_k, w_v, zeros(n_q), zeros(n_k), zeros(n_v)];
    run(&sgemv_q4_k_f32_triple_into(true, k, n_q, n_k, n_v).unwrap(), &mut args);
    for (i, s) in singles.iter().enumerate() {
        for (a, b) in s.iter().zip(floats(&args[4 + i])) {
            assert!((a - b).abs() < 1e-4, "{i}: {a} vs {b}");
        }
    }
}

#[test]
fn sgemv_q4_k_f32_pair_matches_two_singles() {
    let (k, n_a, n_b) = (256, 8, 6);
    let w_a = build_test_q4k_matrix(n_a, k, 31);
    let w_b = build_test_q4k_matrix(n_b, k, 37);
    let x = sine_input(k);
    let singles = [single(&x, &w_a, k, n_a), single(&x, &w_b, k, n_b)];
    let mut args = vec![Mem::Floats(x), w_a, w_b, zeros(n_a), zeros(n_b)];
    run(&sgemv_q4_k_f32_pair_into(true, k, n_a, n_b).unwrap(), &mut args);
    for (i, s) in singles.iter().enumerate() {
        for (a, b) in s.iter().zip(floats(&args[3 + i])) {
            assert!((a - b).abs() < 1e-4, "{i}: {a} vs {b}");
        }
    }
}

#[test]
fn sgemv_q4_k_f32_triple_simdcoop_matches_three_singles() {
    let (k, n_q, n_k, n_v) = (4096, 64, 16, 16);
    let w_q = build_test_q4k_matrix(n_q, k, 71);
    let w_k = build_test_q4k_matrix(n_k, k, 73);
    let w_v = build_test_q4k_matrix(n_v, k, 79);
    let x = sine_input(k);
    let singles =
        [single(&x, &w_q, k, n_q), single(&x, &w_k, k, n_k), single(&x, &w_v, k, n_v)];
    let mut args = vec![Mem::Floats(x), w_q, w_k, w_v, zeros(n_q), zeros(n_k), zeros(n_v)];
    run(&sgemv_q4_k_f32_triple_simdcoop_into(true, k, n_q, n_k, n_v).unwrap(), &mut args);
    for (i, s) in singles.iter().enumerate() {
        close(s, &floats(&args[4 + i]), 1e-3, 1e-3);
    }
}

#[test]
fn sgemv_q4_k_f32_quadcoop_matches_single() {
    for &(k, n) in &[(5120usize, 5120usize), (5120, 1024), (5120, 27)] {
        let w = build_test_q4k_matrix(n, k, 91);
        let x = sine_input(k);
        let s = single(&x, &w, k, n);
        let mut args = vec![Mem::Floats(x), w, zeros(n)];
        run(&sgemv_q4_k_f32_quadcoop_into(true, k, n).unwrap(), &mut args);
        close(&s, &floats(&args[2]), 1e-3, 1e-3);
    }
}

#[test]
fn sgemv_q4_k_f32_batch_matches_singles() {
    let (k, n, b) = (5120usize, 5120usize, 4usize);
    let w = build_test_q4k_matrix(n, k, 137);
    let mut x_all = vec![0.0f32; b * k];
    for batch in 0..b {
        for i in 0..k {
            x_all[batch * k + i] = ((i as f32 + 1.0) * 0.001 * (batch as f32 + 1.0)).sin();
        }
    }
    let mut y_ref: Vec<f32> = vec![];
    for batch in 0..b {
        y_ref.extend(single(&x_all[batch * k..(batch + 1) * k], &w, k, n));
    }
    let mut args = vec![Mem::Floats(x_all), w, zeros(b * n)];
    run(&sgemv_q4_k_f32_batch_into(true, k, n, b).unwrap(), &mut args);
    close(&y_ref, &floats(&args[2]), 1e-3, 1e-3);
}

// ---- decoding ----

#[test]
fn rms_norm_batched_f32_matches_singles() {
    let (d, b) = (5120usize, 4usize);
    let eps = 1e-6_f32.to_bits();
    let mut x_all = vec![0.0f32; b * d];
    for batch in 0..b {
        for i in 0..d {
            x_all[batch * d + i] = ((i as f32 + 1.0) * 0.001 * (batch as f32 + 1.0)).sin();
        }
    }
    let gamma: Vec<f32> = (0..d).map(|i| 0.5 + ((i as f32 * 0.001).cos()) * 0.5).collect();
    let mut seq: Vec<f32> = vec![];
    for batch in 0..b {
        let row = x_all[batch * d..(batch + 1) * d].to_vec();
        let mut args = vec![Mem::Floats(row), Mem::Floats(gamma.clone()), zeros(d)];
        run(&rms_norm_f32(d, eps).unwrap(), &mut args);
        seq.extend(floats(&args[2]));
    }
    let mut args = vec![Mem::Floats(x_all), Mem::Floats(gamma), zeros(b * d)];
    run(&rms_norm_batched_f32(d, b, eps).unwrap(), &mut args);
    close(&seq, &floats(&args[2]), 1e-4, 1e-3);
}

#[test]
fn rope_half_split_batched_f32_matches_singles() {
    let (n_heads, head_dim, max_seq, pos_base, b) = (4usize, 64usize, 32usize, 5usize, 4usize);
    let row_size = n_heads * head_dim;
    let mut x_all = vec![0.0f32; b * row_size];
    for batch in 0..b {
        for i in 0..row_size {
            x_all[batch * row_size + i] = ((i as f32 + 1.0 + batch as f32) * 0.01).sin();
        }
    }
    let half_dim = head_dim / 2;
    let mut cos_tab = vec![0.0f32; max_seq * half_dim];
    let mut sin_tab = vec![0.0f32; max_seq * half_dim];
    for p in 0..max_seq {
        for k in 0..half_dim {
            let theta = (p as f32) * 0.001 * ((k + 1) as f32);
            cos_tab[p * half_dim + k] = theta.cos();
            sin_tab[p * half_dim + k] = theta.sin();
        }
    }
    let tables = [Mem::Floats(cos_tab), Mem::Floats(sin_tab)];
    let mut seq: Vec<f32> = vec![];
    for batch in 0..b {
        let row = x_all[batch * row_size..(batch + 1) * row_size].to_vec();
        let mut args = vec![Mem::Floats(row), tables[0].clone(), tables[1].clone()];
        let plan = rope_half_split_f32(n_heads, head_dim, head_dim, pos_base + batch).unwrap();
        run(&plan, &mut args);
        seq.extend(floats(&args[0]));
    }
    let mut args = vec![Mem::Floats(x_all), tables[0].clone(), tables[1].clone()];
    run(&rope_half_split_batched_f32(n_heads, head_dim, pos_base, b).unwrap(), &mut args);
    close(&seq, &floats(&args[0]), 1e-4, 1e-4);
}

#[test]
fn kv_append_batched_f32_matches_singles() {
    let (n_kv, head_dim, max_seq, pos_base, b) = (4usize, 64usize, 32usize, 3usize, 4usize);
    let per_token = n_kv * head_dim;
    let mut src_all = vec![0.0f32; b * per_token];
    for batch in 0..b {
        for i in 0..per_token {
            src_all[batch * per_token + i] = ((i as f32 + 1.0 + batch as f32 * 7.0) * 0.01).sin();
        }
    }
    let mut cache = zeros(n_kv * max_seq * head_dim);
    for batch in 0..b {
        let src = src_all[batch * per_token..(batch + 1) * per_token].to_vec();
        let mut args = vec![Mem::Floats(src), cache];
        run(&kv_append_f32(n_kv, head_dim, pos_base + batch, max_seq).unwrap(), &mut args);
        cache = args[1].clone();
    }
    let seq = floats(&cache);
    let mut args = vec![Mem::Floats(src_all), zeros(n_kv * max_seq * head_dim)];
    run(&kv_append_batched_f32(n_kv, head_dim, pos_base, b, max_seq).unwrap(), &mut args);
    let bat = floats(&args[1]);
    for i in 0..n_kv * max_seq * head_dim {
        assert_eq!(seq[i], bat[i], "cache mismatch at {i}");
    }
    assert!(seq.iter().any(|v| *v != 0.0));
}

#[test]
fn appends_keep_heads_apart_for_any_head_size() {
    let (n_kv, head_dim, max_seq, position) = (3usize, 6usize, 5usize, 2usize);
    let src: Vec<f32> = (1..=n_kv * head_dim).map(|i| i as f32).collect();
    let mut args = vec![Mem::Floats(src.clone()), zeros(n_kv * max_seq * head_dim)];
    run(&kv_append_f32(n_kv, head_dim, position, max_seq).unwrap(), &mut args);
    let cache = floats(&args[1]);
    for (i, v) in cache.iter().enumerate() {
        let (head, row, d) = (i / (max_seq * head_dim), i / head_dim % max_seq, i % head_dim);
        let expected = if row == position { src[head * head_dim + d] } else { 0.0 };
        assert_eq!(*v, expected, "head {head} row {row} column {d}");
    }
}

#[test]
fn gqa_decode_batched_f32_matches_singles() {
    let (n_heads, n_kv, head_dim) = (4usize, 2usize, 64usize);
    let (max_seq, pos_base, b) = (32usize, 5usize, 4usize);
    let q_size = n_heads * head_dim;
    let kv_size = n_kv * max_seq * head_dim;
    let mut q_all = vec![0.0f32; b * q_size];
    for batch in 0..b {
        for i in 0..q_size {
            q_all[batch * q_size + i] = ((i as f32 + 1.0 + batch as f32 * 3.0) * 0.01).sin();
        }
    }
    let mut k_cache = vec![0.0f32; kv_size];
    let mut v_cache = vec![0.0f32; kv_size];
    for kvh in 0..n_kv {
        for p in 0..pos_base + b {
            for d in 0..head_dim {
                let idx = kvh * max_seq * head_dim + p * head_dim + d;
                k_cache[idx] = ((kvh + 1) as f32 + p as f32 * 0.7 + d as f32 * 0.01).cos();
                v_cache[idx] = ((kvh + 1) as f32 + p as f32 * 0.5 + d as f32 * 0.02).sin();
            }
        }
    }
    let caches = [Mem::Floats(k_cache), Mem::Floats(v_cache)];
    let mut seq: Vec<f32> = vec![];
    for batch in 0..b {
        let q = q_all[batch * q_size..(batch + 1) * q_size].to_vec();
        let mut args = vec![Mem::Floats(q), caches[0].clone(), caches[1].clone(), zeros(q_size)];
        let kv_len = pos_base + batch + 1;
        run(&gqa_decode_f32(n_heads, n_kv, head_dim, kv_len, max_seq).unwrap(), &mut args);
        seq.extend(floats(&args[3]));
    }
    let mut args =
        vec![Mem::Floats(q_all), caches[0].clone(), caches[1].clone(), zeros(b * q_size)];
    let plan = gqa_decode_batched_f32(n_heads, n_kv, head_dim, pos_base, b, max_seq).unwrap();
    run(&plan, &mut args);
    close(&seq, &floats(&args[3]), 1e-4, 1e-3);
}
