//! Plans, routing and bookkeeping of the device backend.
use rustorch::metal::async_amx::{
    AmxJob, AmxWorker, AsyncAmxExecutor, Deed, Happening, Message, Phase, SyncedJob,
};
use rustorch::metal::backend::{
    check_shared, missing_device_text, plan_buffers, CompileFailure, MetalBackend, Submit,
};
use rustorch::metal::decode::{gqa_decode_f32, rms_norm_f32, rope_half_split_f32};
use rustorch::metal::dispatch::{div_ceil, Binding, Dispatch, Plan};
use rustorch::metal::elementwise::{add_f32, mul_scalar_f32, relu_f32, sub_f32};
use rustorch::metal::error::MetalError;
use rustorch::metal::fused_adamw::{
    allocate_zeros, fused_adamw_step, fused_adamw_step_inplace, AdamWStepParams, StepBuffers,
};
use rustorch::metal::matmul::{
    matmul_simdgroup_f32, matmul_simdgroup_f32_coarsened_wide, matmul_simdgroup_f32_via_bf16,
};
use rustorch::metal::profiler::{sample_buffer_error, setup, MetalProfiler, MAX_DISPATCHES};
use rustorch::metal::reduce::{mean_f32, mse_reduce_f32, sum_dim_2d_f32, sum_f32, transpose2d_f32};
use rustorch::metal::repack::{repack_q4_k_transposed, repack_q6_k_transposed};
use rustorch::metal::routing::{
    fallback1, fallback2, tensor_to_cpu, to_gpu, BackendError, Download, Operand, Placement, Route,
    Upload,
};
use rustorch::metal::sgemv::{sgemv_q4_k_f32_into, sgemv_q4_k_f32_lcpp_nr2_into};
use rustorch::metal::ssm::zero_f32;
use rustorch::text::Text;

fn words(d: &Dispatch, at: usize) -> Vec<u32> {
    match &d.bindings[at] {
        Binding::Words(w) => w.clone(),
        other => panic!("{other:?}"),
    }
}

fn text(r: Result<Plan, MetalError>) -> String {
    r.unwrap_err().message()
}

// ---- errors ----

#[test]
fn errors_render_like_their_kind() {
    let s = || "x".to_string();
    assert_eq!(MetalError::NoDevice(s()).message(), "no Metal device available: x");
    assert_eq!(MetalError::ShaderCompile(s()).message(), "shader compile failed: x");
    assert_eq!(MetalError::PipelineState(s()).message(), "pipeline state creation failed: x");
    assert_eq!(
        MetalError::AllocFailed { requested: 12, reason: s() }.message(),
        "Metal allocation failed: 12 bytes (x)"
    );
    assert_eq!(MetalError::ShapeMismatch(s()).message(), "Metal shape mismatch: x");
    assert_eq!(MetalError::Unsupported(s()).message(), "unsupported operation: x");
}

#[test]
fn texts_join_numbers_and_shapes() {
    let t = Text::start("a ").num(0).lit(" b ").num(1203).lit(" ").shape(&[2, 30]).finish();
    assert_eq!(t, "a 0 b 1203 [2, 30]");
    assert_eq!(Text::start("").shape(&[]).finish(), "[]");
}

// ---- plans ----

#[test]
fn element_wise_sum_plan() {
    let p = add_f32(40, 40, 10).unwrap();
    assert_eq!(p.allocs.len(), 2);
    assert_eq!(p.allocs[0].bytes, 40);
    assert_eq!(p.allocs[1].words, vec![10]);
    assert_eq!(p.result, Some(0));
    let d = &p.dispatches[0];
    assert_eq!((d.name, d.entry), ("add_f32", "add_f32"));
    assert_eq!((d.grid, d.group, d.by_groups), ((10, 1, 1), (256, 1, 1), false));
    assert_eq!((d.group_width(1024), d.group_width(64)), (256, 64));
    assert_eq!(
        text(add_f32(39, 40, 10)),
        "Metal shape mismatch: add_f32: lhs/rhs buffer length too small (n=10, need 40 bytes)"
    );
}

#[test]
fn element_wise_plans_differ_by_kind() {
    let sub = sub_f32(7).unwrap();
    let relu = relu_f32(7).unwrap();
    assert_ne!(sub.dispatches[0].name, relu.dispatches[0].name);
    let scaled = mul_scalar_f32(2.5_f32.to_bits(), 7).unwrap();
    let all: Vec<u32> = scaled
        .allocs
        .iter()
        .flat_map(|a| a.words.clone())
        .chain(scaled.dispatches[0].bindings.iter().flat_map(|b| match b {
            Binding::Words(w) => w.clone(),
            _ => vec![],
        }))
        .collect();
    assert!(all.contains(&2.5_f32.to_bits()));
}

#[test]
fn reductions_have_one_partial_per_256_elements() {
    let p = sum_f32(1000).unwrap();
    assert_eq!(p.allocs[0].bytes, 4 * 4);
    assert_eq!(p.dispatches[0].grid.0, 4 * 256);
    assert_eq!(p.allocs[3].words, vec![4]);
    assert_eq!(p.result, Some(2));
    let m = mean_f32(1000).unwrap();
    assert_eq!((m.dispatches[0].name, m.dispatches[1].name), ("mean_partial", "mean_final"));
    let mse = mse_reduce_f32(8192, 1).unwrap();
    assert_eq!(words(&mse.dispatches[0], 0), vec![8192, 1]);
    assert_eq!(words(&mse.dispatches[1], 3), vec![32]);
    assert_eq!(mse.result, Some(1));
}

#[test]
fn axis_reductions_refuse_other_axes() {
    assert!(sum_dim_2d_f32(3, 4, 0).is_ok());
    assert!(sum_dim_2d_f32(3, 4, 1).is_ok());
    assert!(sum_dim_2d_f32(3, 4, 2).is_err());
    assert!(transpose2d_f32(3, 4).is_ok());
}

#[test]
fn products_need_the_device_and_whole_tiles() {
    let p = matmul_simdgroup_f32(true, 16, 8, 24).unwrap();
    assert_eq!(p.allocs[0].bytes, 16 * 24 * 4);
    assert_eq!(p.dispatches[0].grid, (24 / 8 * 32, 16 / 8, 1));
    assert_eq!(
        text(matmul_simdgroup_f32(false, 16, 8, 24)),
        "unsupported operation: matmul_simdgroup_f32 needs MTLGPUFamily::Metal3 (M3+, A17 Pro+)"
    );
    assert_eq!(
        text(matmul_simdgroup_f32(true, 16, 7, 24)),
        "Metal shape mismatch: matmul_simdgroup_f32 v1 needs shapes divisible by 8: \
         got m=16, k=7, n=24"
    );
    assert!(matmul_simdgroup_f32_coarsened_wide(true, 16, 8, 256).is_ok());
    assert!(matmul_simdgroup_f32_coarsened_wide(true, 8, 8, 256).is_err());
}

#[test]
fn product_through_16_bit_copies() {
    let p = matmul_simdgroup_f32_via_bf16(true, 8, 16, 64).unwrap();
    let names: Vec<&str> = p.dispatches.iter().map(|d| d.name).collect();
    assert_eq!(
        names,
        vec!["cast_f32_to_bf16", "cast_f32_to_bf16", "matmul_simdgroup_bf16", "cast_bf16_to_f32"]
    );
    let bytes: Vec<usize> = p.allocs.iter().map(|a| a.bytes).collect();
    assert_eq!(bytes, vec![8 * 16 * 2, 4, 16 * 64 * 2, 4, 8 * 64 * 2, 16, 8 * 64 * 4, 4]);
    assert_eq!(p.result, Some(6));
}

#[test]
fn quantised_products_cover_their_rows() {
    let p = sgemv_q4_k_f32_into(true, 512, 100).unwrap();
    assert_eq!(words(&p.dispatches[0], 3), vec![512, 100]);
    assert_eq!(p.dispatches[0].grid.0, 100);
    assert_eq!(
        text(sgemv_q4_k_f32_into(true, 300, 100)),
        "Metal shape mismatch: sgemv_q4_k_f32 needs K>=1, N>=1, K%256==0: got K=300, N=100"
    );
    assert!(sgemv_q4_k_f32_into(false, 512, 100).is_err());
    assert!(sgemv_q4_k_f32_lcpp_nr2_into(true, 512, 101).is_ok());
    assert!(sgemv_q4_k_f32_lcpp_nr2_into(true, 512, 0).is_err());
}

#[test]
fn decode_kernels_check_their_shapes() {
    assert!(rms_norm_f32(64, 1e-6_f32.to_bits()).is_ok());
    assert!(gqa_decode_f32(8, 2, 64, 10, 128).is_ok());
    assert!(rope_half_split_f32(4, 64, 64, 3).is_ok());
    assert!(zero_f32(12).is_ok());
}

#[test]
fn rounding_up() {
    assert_eq!((div_ceil(0, 4), div_ceil(1, 4), div_ceil(4, 4), div_ceil(5, 4)), (0, 1, 1, 2));
}

#[test]
fn optimiser_steps_lay_out_their_parameters() {
    let f = |v: f32| v.to_bits();
    let params = AdamWStepParams {
        lr: f(0.1),
        beta1: f(0.9),
        beta2: f(0.999),
        eps: f(1e-8),
        weight_decay: f(0.01),
        bc1: f(0.1),
        bc2: f(0.001),
    };
    let lens = StepBuffers { param: 400, grad: 400, m: 400, v: 400 };
    let p = fused_adamw_step(lens, 100, params).unwrap();
    assert_eq!(p.allocs[0].bytes, 400);
    assert_eq!(p.allocs[1].bytes, 32);
    assert_eq!(p.allocs[1].words[0], f(0.1));
    assert_eq!(p.allocs[1].words[7], 100);
    let q = fused_adamw_step_inplace(lens, 100, params).unwrap();
    assert_eq!(words(&q.dispatches[0], 0).len(), 8);
    assert_eq!(q.result, None);
    let short = StepBuffers { v: 399, ..lens };
    assert_eq!(
        text(fused_adamw_step(short, 100, params)),
        "Metal shape mismatch: fused_adamw: buffer too small for n=100 (need 400 bytes each)"
    );
    assert_eq!(allocate_zeros(3).unwrap(), 12);
}

#[test]
fn empty_buffers_are_refused_when_a_plan_is_carried_out() {
    assert_eq!(plan_buffers(&add_f32(8, 8, 2).unwrap()).unwrap(), vec![8, 4]);
    let e = plan_buffers(&add_f32(0, 0, 0).unwrap()).unwrap_err();
    assert_eq!(e.message(), "Metal shape mismatch: alloc_shared: byte_len must be > 0");
    assert_eq!(check_shared(4096).unwrap(), 4096);
}

// ---- repacking ----

#[test]
fn repacking_moves_whole_blocks() {
    let (k, n) = (512, 3);
    let src: Vec<u8> = (0..n * 2 * 144).map(|i| (i / 144) as u8).collect();
    let dst = repack_q4_k_transposed(&src, k, n);
    let order: Vec<u8> = dst.chunks(144).map(|b| b[0]).collect();
    assert_eq!(order, vec![0, 2, 4, 1, 3, 5]);
    assert!(dst.chunks(144).all(|b| b.iter().all(|v| *v == b[0])));
    let src6: Vec<u8> = (0..n * 2 * 210).map(|i| (i / 210) as u8).collect();
    let order6: Vec<u8> = repack_q6_k_transposed(&src6, k, n).chunks(210).map(|b| b[0]).collect();
    assert_eq!(order6, order);
}

// ---- backend ----

#[test]
fn backend_state() {
    let none: Result<MetalBackend<u8, u8>, MetalError> = MetalBackend::new(None, true);
    let e = none.err().unwrap();
    assert_eq!(
        e.message(),
        "no Metal device available: MTLCreateSystemDefaultDevice returned nil"
    );
    assert!(missing_device_text(&e).starts_with("rustorch-metal: no Metal device (no Metal"));
    let mut b: MetalBackend<u8, u8> = MetalBackend::new(Some("M4".to_string()), true).unwrap();
    assert_eq!(b.adapter_name(), "M4");
    assert_eq!(b.name(), "metal");
    assert!(b.supports_metal3());
    assert_eq!(b.drain(), Submit::Empty);
    assert!(b.with_encoder());
    assert!(!b.with_encoder());
    assert_eq!(b.drain(), Submit::Pending);
    assert_eq!(b.drain(), Submit::Empty);
    assert!(b.alloc_shared(0).is_err());
    assert_eq!(
        b.alloc_private(0).unwrap_err().message(),
        "Metal shape mismatch: alloc_private: byte_len must be > 0"
    );
}

#[test]
fn pipelines_are_compiled_once() {
    let mut b: MetalBackend<String, u8> = MetalBackend::new(Some("d".to_string()), true).unwrap();
    let compile = |s: &str, _: &str, runs: u32| (Ok(s.to_string()), runs + 1);
    let (first, runs) = b.pipeline("k", "src1", "f", 0, &compile);
    assert_eq!((first.unwrap().as_str(), runs), ("src1", 1));
    let (again, runs) = b.pipeline("k", "src2", "f", runs, &compile);
    assert_eq!((again.unwrap().as_str(), runs), ("src1", 1));
    let (bad, runs) = b.pipeline("q", "src", "main0", runs, &|_: &str, _: &str, n: u32| {
        (Err(CompileFailure::Function("gone".to_string())), n + 1)
    });
    assert_eq!(
        bad.unwrap_err().message(),
        "pipeline state creation failed: get_function main0: gone"
    );
    assert_eq!(runs, 2);
    let (bad, _) = b.pipeline("q", "src", "f", runs, &|_: &str, _: &str, n: u32| {
        (Err(CompileFailure::Source("line 1".to_string())), n)
    });
    assert_eq!(bad.unwrap_err().message(), "shader compile failed: line 1");
    let (bad, _) = b.pipeline("q", "src", "f", runs, &|_: &str, _: &str, n: u32| {
        (Err(CompileFailure::Pipeline("limits".to_string())), n)
    });
    assert_eq!(bad.unwrap_err().message(), "pipeline state creation failed: limits");
}

/// The copy under key 7, and how often it was cast.
fn copy_of(b: &mut MetalBackend<u8, usize>, n: usize, runs: u32) -> (usize, u32) {
    let (copy, runs) = b.ensure_bf16(7, n, runs, &|n: usize, runs: u32| (Ok(n), runs + 1));
    (*copy.unwrap(), runs)
}

#[test]
fn copies_are_kept_until_evicted() {
    let mut b: MetalBackend<u8, usize> = MetalBackend::new(Some("d".to_string()), true).unwrap();
    assert_eq!(copy_of(&mut b, 10, 0), (10, 1));
    assert_eq!(copy_of(&mut b, 99, 1), (10, 1));
    b.evict_bf16(7);
    assert_eq!(copy_of(&mut b, 99, 1), (99, 2));
    b.clear_bf16_cache();
    assert_eq!(copy_of(&mut b, 5, 2), (5, 3));
    let fail = |_: usize, runs: u32| (Err(MetalError::Unsupported("x".to_string())), runs + 1);
    let (e, runs) = b.ensure_bf16(8, 5, 3, &fail);
    assert_eq!(e.unwrap_err().message(), "unsupported operation: x");
    assert_eq!(runs, 4);
}

#[test]
fn drain_forgets_the_copies_and_keeps_the_pipelines() {
    let mut b: MetalBackend<u8, usize> = MetalBackend::new(Some("d".to_string()), true).unwrap();
    let compile = |_: &str, _: &str, n: u8| (Ok(n), n + 1);
    let (made, n) = b.pipeline("k", "s", "f", 1, &compile);
    assert_eq!((*made.unwrap(), n), (1, 2));
    assert_eq!(copy_of(&mut b, 10, 0), (10, 1));
    b.with_encoder();
    assert_eq!(b.drain(), Submit::Pending);
    assert_eq!(copy_of(&mut b, 11, 1), (11, 2));
    let (kept, n) = b.pipeline("k", "s", "f", n, &compile);
    assert_eq!((*kept.unwrap(), n), (1, 2));
}

// ---- routing ----

fn host(shape: &[usize]) -> Operand {
    Operand { shape: shape.to_vec(), placement: Placement::Host { dense: true } }
}

fn device() -> MetalBackend<u8, u8> {
    MetalBackend::new(Some("d".to_string()), true).unwrap()
}

#[test]
fn sums_of_equal_shapes_run_on_the_device() {
    let mut b = device();
    match b.add(&host(&[2, 3]), &host(&[2, 3])).unwrap() {
        Route::Native { uploads, plan, shape } => {
            assert_eq!(uploads, vec![Upload::Copy(24), Upload::Copy(24)]);
            assert_eq!(plan.dispatches[0].name, "add_f32");
            assert_eq!(shape, vec![2, 3]);
        }
        other => panic!("{other:?}"),
    }
    assert!(matches!(b.add(&host(&[2, 3]), &host(&[3])).unwrap(), Route::Fallback(_)));
    let on = Operand { shape: vec![2, 3], placement: Placement::Device { bytes: 24 } };
    match b.add(&on, &host(&[2, 3])).unwrap() {
        Route::Native { uploads, .. } => assert_eq!(uploads[0], Upload::Reuse(24)),
        other => panic!("{other:?}"),
    }
    let short = Operand { shape: vec![2, 3], placement: Placement::Device { bytes: 20 } };
    match b.add(&short, &host(&[2, 3])).unwrap_err() {
        BackendError::NumericalError(m) => assert_eq!(
            m,
            "add: metal: Metal shape mismatch: add_f32: lhs/rhs buffer length too small \
             (n=6, need 24 bytes)"
        ),
        other => panic!("{other:?}"),
    }
}

#[test]
fn products_run_on_the_device_in_multiples_of_eight() {
    let mut b = device();
    match b.matmul(&host(&[16, 8]), &host(&[8, 24])).unwrap() {
        Route::Native { shape, .. } => assert_eq!(shape, vec![16, 24]),
        other => panic!("{other:?}"),
    }
    assert!(matches!(b.matmul(&host(&[16, 7]), &host(&[7, 24])).unwrap(), Route::Fallback(_)));
    assert!(matches!(b.matmul(&host(&[2, 8, 8]), &host(&[8, 8])).unwrap(), Route::Fallback(_)));
    match b.matmul(&host(&[8, 8]), &host(&[16, 8])).unwrap_err() {
        BackendError::ShapeMismatch { op, lhs, rhs } => {
            assert_eq!((op, lhs, rhs), ("matmul", vec![8, 8], vec![16, 8]))
        }
        other => panic!("{other:?}"),
    }
    let mut old: MetalBackend<u8, u8> = MetalBackend::new(Some("d".to_string()), false).unwrap();
    assert!(matches!(old.matmul(&host(&[8, 8]), &host(&[8, 8])).unwrap(), Route::Fallback(_)));
}

#[test]
fn transfers_depend_on_the_placement() {
    let gap = Operand { shape: vec![4], placement: Placement::Host { dense: false } };
    assert_eq!(
        to_gpu(&gap).unwrap_err().message(),
        "Metal shape mismatch: to_gpu: source tensor must be contiguous F32 on CPU"
    );
    assert!(to_gpu(&host(&[0])).is_err());
    let on = Operand { shape: vec![4], placement: Placement::Device { bytes: 16 } };
    let mut b = device();
    let read = |submit: Submit| Download::Read { submit, elements: 4 };
    assert_eq!(tensor_to_cpu(&mut b, &on).unwrap(), read(Submit::Empty));
    assert_eq!(tensor_to_cpu(&mut b, &gap).unwrap(), Download::AsIs);
    let far = Operand {
        shape: vec![4],
        placement: Placement::Elsewhere { device: "Cuda".to_string() },
    };
    match fallback1(&mut b, &far).unwrap_err() {
        BackendError::NumericalError(m) => assert_eq!(
            m,
            "cpu_fallback: metal: Metal shape mismatch: tensor_to_cpu: storage variant not \
             supported by rustorch-metal (device=Cuda)"
        ),
        other => panic!("{other:?}"),
    }
}

#[test]
fn reads_wait_for_pending_work() {
    let on = || Operand { shape: vec![4], placement: Placement::Device { bytes: 16 } };
    let read = |submit: Submit| Download::Read { submit, elements: 4 };
    let mut b = device();
    b.with_encoder();
    assert_eq!(tensor_to_cpu(&mut b, &host(&[4])).unwrap(), Download::AsIs);
    assert_eq!(tensor_to_cpu(&mut b, &on()).unwrap(), read(Submit::Pending));
    assert_eq!(b.drain(), Submit::Empty);
    b.with_encoder();
    match fallback2(&mut b, &on(), &on()).unwrap() {
        Route::Fallback(reads) => {
            assert_eq!(reads, vec![read(Submit::Pending), read(Submit::Empty)])
        }
        other => panic!("{other:?}"),
    }
    b.with_encoder();
    match b.add(&on(), &host(&[2])).unwrap() {
        Route::Fallback(reads) => assert_eq!(reads, vec![read(Submit::Pending), Download::AsIs]),
        other => panic!("{other:?}"),
    }
    b.with_encoder();
    assert!(matches!(b.add(&on(), &on()).unwrap(), Route::Native { .. }));
    assert_eq!(b.drain(), Submit::Pending);
}

// ---- profiler ----

#[test]
fn profiler_setup_needs_timestamps() {
    let sets = vec!["stage".to_string(), "timestamp".to_string()];
    let s = setup(true, &sets).unwrap();
    assert_eq!((s.counter_set, s.sample_count, s.dest_bytes), (1, 4096, 32768));
    assert!(setup(false, &sets).is_err());
    assert_eq!(
        setup(true, &vec!["stage".to_string()]).unwrap_err().message(),
        "unsupported operation: no timestamp counter set on device"
    );
    assert_eq!(
        sample_buffer_error("full").message(),
        "unsupported operation: counter sample buffer: full"
    );
}

#[test]
fn profiler_pairs_resolve_and_aggregate() {
    let mut p = MetalProfiler::new(100, 10, 300, 110);
    assert_eq!(p.tick_to_ns(), (200, 100));
    assert_eq!(p.alloc_pair("a"), Some(0));
    assert_eq!(p.alloc_pair("b"), Some(2));
    assert_eq!(p.alloc_pair("a"), Some(4));
    assert_eq!((p.n_pairs(), p.schedule_resolve()), (3, 6));
    let resolved = p.resolve(&[0, 5, 10, 40, 50, 52], &|t: u64, ns: u64, ticks: u64| t * ns / ticks);
    assert_eq!(resolved, vec![("a", 10), ("b", 60), ("a", 4)]);
    let agg = MetalProfiler::aggregate(&resolved);
    assert_eq!(agg, vec![("b", 60, 1), ("a", 14, 2)]);
    assert_eq!(MetalProfiler::print_summary(&agg), Some((74, 3)));
    p.reset();
    assert_eq!(p.n_pairs(), 0);
    assert_eq!(MetalProfiler::print_summary(&vec![]), None);
}

#[test]
fn profiler_runs_out_of_slots() {
    let mut p = MetalProfiler::new(0, 0, 0, 0);
    assert_eq!(p.tick_to_ns(), (1, 1));
    for _ in 0..MAX_DISPATCHES {
        assert!(p.alloc_pair("x").is_some());
    }
    assert_eq!(p.alloc_pair("x"), None);
}

// ---- the worker beside the device ----

fn job() -> AmxJob {
    AmxJob { h: 0, w: 1, out: 2, k: 256, n: 64 }
}

#[test]
fn executor_counts_and_numbers() {
    let mut e = AsyncAmxExecutor::default();
    let m = e.submit(job());
    assert_eq!(m, Message::Job(SyncedJob { job: job(), wait_value: 0, signal_value: 0 }));
    assert_eq!((e.n_submitted(), e.n_completed()), (1, 0));
    assert!(!e.reached(1));
    e.record_completion();
    assert!(e.reached(e.n_submitted()));
    let mut s = AsyncAmxExecutor::with_event();
    assert_eq!(s.next_event_pair(), (1, 2));
    assert_eq!(s.next_event_pair(), (3, 4));
    assert_eq!(
        s.submit_with_sync(job(), 3, 4),
        Message::Job(SyncedJob { job: job(), wait_value: 3, signal_value: 4 })
    );
    let call = job().sgemv_call();
    assert_eq!((call.rows, call.cols, call.stride), (64, 256, 256));
}

#[test]
fn worker_waits_runs_and_signals() {
    let mut w = AmxWorker::start(true);
    let synced = SyncedJob { job: job(), wait_value: 5, signal_value: 6 };
    assert_eq!(w.step(Happening::Received(Message::Job(synced))), Some(Deed::Poll));
    assert_eq!(w.step(Happening::Signaled(4)), Some(Deed::Poll));
    assert_eq!(w.step(Happening::Finished), None);
    assert_eq!(w.step(Happening::Signaled(5)), Some(Deed::Run(job())));
    assert_eq!(w.step(Happening::Finished), Some(Deed::Complete(Some(6))));
    assert_eq!(w.step(Happening::Received(Message::Shutdown)), Some(Deed::Stop));
    assert_eq!(w.phase, Phase::Stopped);
    assert_eq!(w.step(Happening::Closed), None);
}

#[test]
fn worker_without_an_event_neither_waits_nor_signals() {
    let mut w = AmxWorker::start(false);
    let synced = SyncedJob { job: job(), wait_value: 5, signal_value: 6 };
    assert_eq!(w.step(Happening::Received(Message::Job(synced))), Some(Deed::Run(job())));
    assert_eq!(w.step(Happening::Finished), Some(Deed::Complete(None)));
    assert_eq!(w.step(Happening::Closed), Some(Deed::Stop));
}

// ---- the worker with a host that carries out what it is told ----

struct Host {
    exec: AsyncAmxExecutor,
    worker: AmxWorker,
    queue: Vec<Message>,
    event: u64,
    mem: Vec<Vec<f32>>,
}

impl Host {
    fn new(exec: AsyncAmxExecutor, synced: bool, mem: Vec<Vec<f32>>) -> Self {
        Host { exec, worker: AmxWorker::start(synced), queue: vec![], event: 0, mem }
    }

    fn submit(&mut self, job: AmxJob) {
        let m = self.exec.submit(job);
        self.queue.push(m);
    }

    /// Works until the queue is empty or the worker waits for the event.
    fn work(&mut self) {
        let mut deed = match self.worker.phase {
            Phase::Waiting(_) => Some(Deed::Poll),
            _ => Some(Deed::Receive),
        };
        while let Some(d) = deed {
            deed = match d {
                Deed::Receive => {
                    if self.queue.is_empty() {
                        return;
                    }
                    let m = self.queue.remove(0);
                    self.worker.step(Happening::Received(m))
                }
                Deed::Complete(value) => {
                    if let Some(v) = value {
                        self.event = v;
                    }
                    self.exec.record_completion();
                    Some(Deed::Receive)
                }
                Deed::Poll => {
                    let deed = self.worker.step(Happening::Signaled(self.event));
                    if deed == Some(Deed::Poll) {
                        return;
                    }
                    deed
                }
                Deed::Run(job) => {
                    let call = job.sgemv_call();
                    let (h, w) = (self.mem[job.h].clone(), self.mem[job.w].clone());
                    let stride = call.stride as usize;
                    for i in 0..call.rows as usize {
                        let row = &w[i * stride..i * stride + call.cols as usize];
                        self.mem[job.out][i] = row.iter().zip(&h).map(|(a, b)| a * b).sum();
                    }
                    self.worker.step(Happening::Finished)
                }
                Deed::Stop => return,
            };
        }
    }
}

fn naive_sgemv(h: &[f32], w: &[f32], n: usize, k: usize) -> Vec<f32> {
    let mut out = vec![0.0f32; n];
    for i in 0..n {
        let mut s = 0.0f32;
        for j in 0..k {
            s += w[i * k + j] * h[j];
        }
        out[i] = s;
    }
    out
}

fn operands(n: usize, k: usize) -> (Vec<f32>, Vec<f32>) {
    let h = (0..k).map(|i| ((i as f32) * 0.01).sin()).collect();
    let w = (0..n * k).map(|i| ((i as f32) * 0.005).cos()).collect();
    (h, w)
}

fn same_rows(expected: &[f32], out: &[f32]) {
    for i in 0..expected.len() {
        let rel = (expected[i] - out[i]).abs() / expected[i].abs().max(1e-6);
        assert!(rel < 1e-4, "row {i}: expected {} got {} (rel {rel:.3e})", expected[i], out[i]);
    }
}

#[test]
fn submit_and_wait_single_job_matches_naive() {
    let (k, n) = (256, 64);
    let (h, w) = operands(n, k);
    let expected = naive_sgemv(&h, &w, n, k);
    let mut host = Host::new(AsyncAmxExecutor::new(), false, vec![h, w, vec![0.0; n]]);
    host.submit(AmxJob { h: 0, w: 1, out: 2, k, n });
    host.work();
    assert!(host.exec.reached(host.exec.n_submitted()));
    same_rows(&expected, &host.mem[2]);
    assert_eq!(host.exec.n_submitted(), 1);
    assert_eq!(host.exec.n_completed(), 1);
}

#[test]
fn submit_many_jobs_all_complete() {
    let (k, n, n_jobs) = (128, 32, 50);
    let (h, w) = operands(n, k);
    let expected = naive_sgemv(&h, &w, n, k);
    let mut mem = vec![h, w];
    mem.extend((0..n_jobs).map(|_| vec![0.0f32; n]));
    let mut host = Host::new(AsyncAmxExecutor::new(), false, mem);
    for j in 0..n_jobs {
        host.submit(AmxJob { h: 0, w: 1, out: 2 + j, k, n });
    }
    host.work();
    for j in 0..n_jobs {
        same_rows(&expected, &host.mem[2 + j]);
    }
    assert_eq!(host.exec.n_submitted(), n_jobs as u64);
    assert_eq!(host.exec.n_completed(), n_jobs as u64);
}

#[test]
fn submit_with_sync_waits_and_signals() {
    let (k, n) = (64, 32);
    let (h, w) = operands(n, k);
    let expected = naive_sgemv(&h, &w, n, k);
    let mut host = Host::new(AsyncAmxExecutor::with_event(), true, vec![h, w, vec![0.0; n]]);
    let (wait_v, signal_v) = host.exec.next_event_pair();
    assert_eq!(signal_v, wait_v + 1);
    let m = host.exec.submit_with_sync(AmxJob { h: 0, w: 1, out: 2, k, n }, wait_v, signal_v);
    host.queue.push(m);
    host.work();
    assert_eq!(host.exec.n_completed(), 0, "worker should be waiting on event");
    host.event = wait_v;
    host.work();
    assert_eq!(host.exec.n_completed(), 1);
    same_rows(&expected, &host.mem[2]);
    assert!(host.event >= signal_v);
}

#[test]
fn drop_cleans_up_worker() {
    let mem = vec![vec![1.0f32; 16], vec![1.0f32; 16 * 4], vec![0.0f32; 4]];
    let mut host = Host::new(AsyncAmxExecutor::new(), false, mem);
    host.submit(AmxJob { h: 0, w: 1, out: 2, k: 16, n: 4 });
    host.work();
    host.queue.push(Message::Shutdown);
    host.work();
    assert_eq!(host.worker.phase, Phase::Stopped);
    assert_eq!(host.mem[2], vec![16.0; 4]);
}

#[test]
fn smoke_init_default_device() {
    assert!(!device().adapter_name().is_empty());
}

#[test]
fn alloc_shared_returns_writable_buffer() {
    assert!(device().alloc_shared(1024).unwrap() >= 1024);
}

#[test]
fn metal_backend_initialises() {
    assert!(!device().adapter_name().is_empty(), "adapter name must be non-empty");
}

#[test]
fn metal_backend_can_allocate_shared_buffer() {
    let mut b = device();
    let mut buf = vec![0u8; b.alloc_shared(4096).unwrap() as usize];
    assert!(buf.len() >= 4096);
    for (i, v) in buf.iter_mut().enumerate().take(16) {
        *v = (i * 3) as u8;
    }
    let expected: Vec<u8> = (0..16usize).map(|i| (i * 3) as u8).collect();
    assert_eq!(&buf[..16], expected.as_slice());
}
