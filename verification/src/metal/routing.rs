//! Which operations run on the device, and what has to move for them.
use crate::metal::backend::{check_shared, BackendModel, MetalBackend, Submit};
use crate::metal::backend;
use crate::metal::dispatch;
use crate::metal::dispatch::{Plan, PlanModel};
use crate::metal::elementwise::add_f32;
use crate::metal::error::{shape_mismatch, ErrorModel, MetalError};
use crate::metal::matmul;
use crate::metal::matmul::{matmul_simdgroup_f32, Tiling};
use crate::nn::init;
use crate::nn::param::copy_shape;
use crate::text;
use crate::text::Text;
use crate::metal::device;
use crate::metal::device::{Launch, Memory};
use crate::metal::elementwise;
use crate::nn::meaning::Num;
use vstd::prelude::*;

verus! {

/// Errors of an operation.
#[derive(Debug)]
pub enum BackendError {
    /// The computation failed.
    NumericalError(String),
    /// The operands do not fit each other.
    ShapeMismatch { op: &'static str, lhs: Vec<usize>, rhs: Vec<usize> },
}

/// Errors of an operation, as mathematical values.
pub enum BackendErrorModel {
    NumericalError(Seq<char>),
    ShapeMismatch { op: Seq<char>, lhs: Seq<usize>, rhs: Seq<usize> },
}

impl View for BackendError {
    type V = BackendErrorModel;

    open spec fn view(&self) -> BackendErrorModel {
        match self {
            BackendError::NumericalError(s) => BackendErrorModel::NumericalError(s@),
            BackendError::ShapeMismatch { op, lhs, rhs } => BackendErrorModel::ShapeMismatch {
                op: op@,
                lhs: lhs@,
                rhs: rhs@,
            },
        }
    }
}

/// The error of operation `op` when the device reports `e`.
pub open spec fn failed(op: Seq<char>, e: ErrorModel) -> BackendErrorModel {
    BackendErrorModel::NumericalError(op + ": metal: "@ + e.text())
}

fn metal_err(op: &str, err: MetalError) -> (r: BackendError)
    ensures
        r@ == failed(op@, err@),
{
    let m = err.message();
    BackendError::NumericalError(Text::start(op).lit(": metal: ").lit(m.as_str()).finish())
}

/// Where the elements of a tensor lie.
#[derive(Debug)]
pub enum Placement {
    /// In host memory; `dense` where they are single-precision numbers in
    /// row-major order without gaps.
    Host { dense: bool },
    /// In a device buffer of the given length in bytes.
    Device { bytes: u64 },
    /// On another device, which is named.
    Elsewhere { device: String },
}

/// Where the elements of a tensor lie, as a mathematical value.
pub enum PlacementModel {
    Host { dense: bool },
    Device { bytes: u64 },
    Elsewhere { device: Seq<char> },
}

/// What routing looks at in a tensor.
#[derive(Debug)]
pub struct Operand {
    pub shape: Vec<usize>,
    pub placement: Placement,
}

/// What routing looks at in a tensor, as a mathematical value.
pub struct OperandModel {
    pub shape: Seq<usize>,
    pub placement: PlacementModel,
}

impl View for Placement {
    type V = PlacementModel;

    open spec fn view(&self) -> PlacementModel {
        match self {
            Placement::Host { dense } => PlacementModel::Host { dense: *dense },
            Placement::Device { bytes } => PlacementModel::Device { bytes: *bytes },
            Placement::Elsewhere { device } => PlacementModel::Elsewhere { device: device@ },
        }
    }
}

impl View for Operand {
    type V = OperandModel;

    open spec fn view(&self) -> OperandModel {
        OperandModel { shape: self.shape@, placement: self.placement@ }
    }
}

impl OperandModel {
    /// Number of elements.
    pub open spec fn numel(self) -> int {
        init::product(self.shape)
    }

    /// The sizes of the tensor fit the machine.
    pub open spec fn fits(self) -> bool {
        init::products_fit(self.shape) && self.numel() * 4 <= usize::MAX
    }
}

impl Operand {
    fn numel(&self) -> (r: usize)
        requires
            self@.fits(),
        ensures
            r == self@.numel(),
    {
        assert(self.shape@.skip(0) =~= self.shape@);
        init::product_from(self.shape.as_slice(), 0)
    }
}

/// How the elements of a tensor reach the device.
#[derive(Debug, Clone, Copy, PartialEq, Eq, Structural)]
pub enum Upload {
    /// They are in a device buffer of this length already.
    Reuse(u64),
    /// They are copied into a fresh shared buffer of this length.
    Copy(u64),
}

impl Upload {
    /// Length of the device buffer in bytes.
    pub open spec fn len_spec(self) -> u64 {
        match self {
            Upload::Reuse(n) => n,
            Upload::Copy(n) => n,
        }
    }

    fn len(self) -> (r: u64)
        ensures
            r == self.len_spec(),
    {
        match self {
            Upload::Reuse(n) => n,
            Upload::Copy(n) => n,
        }
    }
}

/// How a tensor reaches the device, or why it cannot: first its buffer has to
/// be possible, then its elements have to be readable.
pub open spec fn uploads(t: OperandModel) -> Result<Upload, ErrorModel> {
    match t.placement {
        PlacementModel::Device { bytes } => Ok(Upload::Reuse(bytes)),
        _ => match backend::shared_size(t.numel() * 4) {
            Err(e) => Err(e),
            Ok(n) => if t.placement matches PlacementModel::Host { dense } && dense {
                Ok(Upload::Copy(n as u64))
            } else {
                Err(
                    ErrorModel::ShapeMismatch(
                        "to_gpu: source tensor must be contiguous F32 on CPU"@,
                    ),
                )
            },
        },
    }
}

/// The outcome of an upload decision, as a mathematical value.
pub open spec fn upload_view(r: Result<Upload, MetalError>) -> Result<Upload, ErrorModel> {
    match r {
        Ok(u) => Ok(u),
        Err(e) => Err(e@),
    }
}

/// Decides how a tensor reaches the device.
pub fn to_gpu(t: &Operand) -> (r: Result<Upload, MetalError>)
    requires
        t@.fits(),
    ensures
        upload_view(r) == uploads(t@),
{
    let dense: bool = match &t.placement {
        Placement::Device { bytes } => {
            return Ok(Upload::Reuse(*bytes));
        },
        Placement::Host { dense } => *dense,
        Placement::Elsewhere { .. } => false,
    };
    let n: usize = t.numel();
    match check_shared(n * 4) {
        Err(e) => Err(e),
        Ok(bytes) => {
            if !dense {
                return Err(
                    shape_mismatch(
                        Text::start("to_gpu: source tensor must be contiguous F32 on CPU"),
                    ),
                );
            }
            Ok(Upload::Copy(bytes))
        },
    }
}

/// How the elements of a tensor reach host memory.
#[derive(Debug, Clone, Copy, PartialEq, Eq, Structural)]
pub enum Download {
    /// They are there already.
    AsIs,
    /// The work that may still write them is submitted and waited for, and
    /// then this many elements are read from the device buffer.
    Read { submit: Submit, elements: usize },
}

/// How a tensor reaches host memory when `submit` covers all pending work, or
/// why it cannot.
pub open spec fn downloads(submit: Submit, t: OperandModel) -> Result<Download, ErrorModel> {
    match t.placement {
        PlacementModel::Host { .. } => Ok(Download::AsIs),
        PlacementModel::Device { .. } => Ok(
            Download::Read { submit, elements: t.numel() as usize },
        ),
        PlacementModel::Elsewhere { device } => Err(
            ErrorModel::ShapeMismatch(
                "tensor_to_cpu: storage variant not supported by rustorch-metal (device="@ + device
                    + ")"@,
            ),
        ),
    }
}

/// The backend once a tensor was read: a device buffer is read from a drained
/// backend.
pub open spec fn after_read<P, B>(b: BackendModel<P, B>, t: OperandModel) -> BackendModel<P, B> {
    if t.placement is Device {
        b.drained()
    } else {
        b
    }
}

/// The outcome of a download decision, as a mathematical value.
pub open spec fn download_view(r: Result<Download, MetalError>) -> Result<Download, ErrorModel> {
    match r {
        Ok(d) => Ok(d),
        Err(e) => Err(e@),
    }
}

/// Decides how a tensor reaches host memory. A device buffer is read only
/// behind all work that was encoded before, so afterwards nothing is pending.
pub fn tensor_to_cpu<P, B>(backend: &mut MetalBackend<P, B>, t: &Operand) -> (r: Result<
    Download,
    MetalError,
>)
    requires
        t@.fits(),
    ensures
        download_view(r) == downloads(old(backend)@.submit(), t@),
        final(backend)@ == after_read(old(backend)@, t@),
{
    match &t.placement {
        Placement::Host { .. } => Ok(Download::AsIs),
        Placement::Device { .. } => {
            let submit = backend.drain();
            Ok(Download::Read { submit, elements: t.numel() })
        },
        Placement::Elsewhere { device } => Err(
            shape_mismatch(
                Text::start(
                    "tensor_to_cpu: storage variant not supported by rustorch-metal (device=",
                ).lit(device.as_str()).lit(")"),
            ),
        ),
    }
}

/// How an operation is carried out.
#[derive(Debug)]
pub enum Route {
    /// On the host; the result is marked as belonging to the device.
    Fallback(Vec<Download>),
    /// On the device; the result has the given shape.
    Native { uploads: Vec<Upload>, plan: Plan, shape: Vec<usize> },
}

/// How an operation is carried out, as a mathematical value.
pub enum RouteModel {
    Fallback(Seq<Download>),
    Native { uploads: Seq<Upload>, plan: PlanModel, shape: Seq<usize> },
}

impl View for Route {
    type V = RouteModel;

    open spec fn view(&self) -> RouteModel {
        match self {
            Route::Fallback(d) => RouteModel::Fallback(d@),
            Route::Native { uploads, plan, shape } => RouteModel::Native {
                uploads: uploads@,
                plan: plan@,
                shape: shape@,
            },
        }
    }
}

/// The outcome of routing, as a mathematical value.
pub open spec fn route_view(r: Result<Route, BackendError>) -> Result<
    RouteModel,
    BackendErrorModel,
> {
    match r {
        Ok(x) => Ok(x@),
        Err(e) => Err(e@),
    }
}

/// A fallback with one operand.
pub open spec fn fallback_one(submit: Submit, t: OperandModel) -> Result<
    RouteModel,
    BackendErrorModel,
> {
    match downloads(submit, t) {
        Err(e) => Err(failed("cpu_fallback"@, e)),
        Ok(d) => Ok(RouteModel::Fallback(seq![d])),
    }
}

/// A fallback with two operands; the first that cannot be read is reported.
pub open spec fn fallback_two<P, B>(
    b: BackendModel<P, B>,
    lhs: OperandModel,
    rhs: OperandModel,
) -> Result<RouteModel, BackendErrorModel> {
    match downloads(b.submit(), lhs) {
        Err(e) => Err(failed("cpu_fallback"@, e)),
        Ok(l) => match downloads(after_read(b, lhs).submit(), rhs) {
            Err(e) => Err(failed("cpu_fallback"@, e)),
            Ok(r) => Ok(RouteModel::Fallback(seq![l, r])),
        },
    }
}

/// The backend behind a fallback with two operands: the second is read only
/// where the first could be.
pub open spec fn after_two<P, B>(
    b: BackendModel<P, B>,
    lhs: OperandModel,
    rhs: OperandModel,
) -> BackendModel<P, B> {
    if lhs.placement is Elsewhere {
        b
    } else {
        after_read(after_read(b, lhs), rhs)
    }
}

/// Routes an operation on one tensor that has no kernel on the device.
pub fn fallback1<P, B>(backend: &mut MetalBackend<P, B>, src: &Operand) -> (r: Result<
    Route,
    BackendError,
>)
    requires
        src@.fits(),
    ensures
        route_view(r) == fallback_one(old(backend)@.submit(), src@),
        final(backend)@ == after_read(old(backend)@, src@),
{
    match tensor_to_cpu(backend, src) {
        Err(e) => Err(metal_err("cpu_fallback", e)),
        Ok(d) => {
            let mut v: Vec<Download> = Vec::new();
            v.push(d);
            assert(v@ =~= seq![d]);
            Ok(Route::Fallback(v))
        },
    }
}

/// Routes an operation on two tensors that has no kernel on the device.
pub fn fallback2<P, B>(backend: &mut MetalBackend<P, B>, lhs: &Operand, rhs: &Operand) -> (r:
    Result<Route, BackendError>)
    requires
        lhs@.fits(),
        rhs@.fits(),
    ensures
        route_view(r) == fallback_two(old(backend)@, lhs@, rhs@),
        final(backend)@ == after_two(old(backend)@, lhs@, rhs@),
{
    match tensor_to_cpu(backend, lhs) {
        Err(e) => Err(metal_err("cpu_fallback", e)),
        Ok(l) => match tensor_to_cpu(backend, rhs) {
            Err(e) => Err(metal_err("cpu_fallback", e)),
            Ok(d) => {
                let mut v: Vec<Download> = Vec::new();
                v.push(l);
                v.push(d);
                assert(v@ =~= seq![l, d]);
                Ok(Route::Fallback(v))
            },
        },
    }
}

fn same_shape(a: &[usize], b: &[usize]) -> (r: bool)
    ensures
        r == (a@ == b@),
{
    if a.len() != b.len() {
        return false;
    }
    let mut i: usize = 0;
    while i < a.len()
        invariant
            i <= a@.len(),
            a@.len() == b@.len(),
            forall|k: int| 0 <= k < i ==> a@[k] == b@[k],
        decreases a.len() - i,
    {
        if a[i] != b[i] {
            return false;
        }
        i += 1;
    }
    assert(a@ =~= b@);
    true
}

fn both(l: Upload, r: Upload) -> (v: Vec<Upload>)
    ensures
        v@ == seq![l, r],
{
    let mut v: Vec<Upload> = Vec::new();
    v.push(l);
    v.push(r);
    assert(v@ =~= seq![l, r]);
    v
}

/// The route of an operation whose operands are uploaded and whose kernel is
/// planned from the buffer lengths; every device error names the operation.
pub open spec fn native(
    op: Seq<char>,
    lhs: OperandModel,
    rhs: OperandModel,
    plan: spec_fn(Upload, Upload) -> Result<PlanModel, ErrorModel>,
    shape: Seq<usize>,
) -> Result<RouteModel, BackendErrorModel> {
    match uploads(lhs) {
        Err(e) => Err(failed(op, e)),
        Ok(l) => match uploads(rhs) {
            Err(e) => Err(failed(op, e)),
            Ok(r) => match plan(l, r) {
                Err(e) => Err(failed(op, e)),
                Ok(p) => Ok(RouteModel::Native { uploads: seq![l, r], plan: p, shape }),
            },
        },
    }
}

/// The kernel call of an element-wise sum of `n` elements.
pub open spec fn add_plan(l: u64, r: u64, n: int) -> Result<PlanModel, ErrorModel> {
    if l < n * 4 || r < n * 4 {
        Err(
            ErrorModel::ShapeMismatch(
                "add_f32: lhs/rhs buffer length too small (n="@ + text::decimal(n as nat)
                    + ", need "@ + text::decimal((n * 4) as nat) + " bytes)"@,
            ),
        )
    } else {
        Ok(
            PlanModel::empty().buffer((n * 4) as nat).uniform(4, seq![n as u32]).launch(
                dispatch::DispatchModel::kernel("add_f32"@, "add_f32"@).arg(0).arg(1).temp(0).temp(
                    1,
                ).threads(n as nat, 1, 256).clamped(),
            ).returning(0),
        )
    }
}

/// The route of a sum: on the device where the shapes are equal.
pub open spec fn add_route<P, B>(
    b: BackendModel<P, B>,
    lhs: OperandModel,
    rhs: OperandModel,
) -> Result<RouteModel, BackendErrorModel> {
    if lhs.shape != rhs.shape {
        fallback_two(b, lhs, rhs)
    } else {
        native(
            "add"@,
            lhs,
            rhs,
            |l: Upload, r: Upload| add_plan(l.len_spec(), r.len_spec(), lhs.numel()),
            lhs.shape,
        )
    }
}

/// The kernel call of a matrix product.
pub open spec fn matmul_plan(m: usize, k: usize, n: usize) -> PlanModel {
    matmul::buffered("matmul_simdgroup_f32"@, Tiling::Single, 4, m, k, n)
}

/// A product has a kernel on the device: matrices that fit each other, of
/// sizes that are multiples of eight, and matrix instructions.
pub open spec fn product_native(metal3: bool, lhs: OperandModel, rhs: OperandModel) -> bool {
    &&& metal3
    &&& lhs.shape[0] % 8 == 0
    &&& lhs.shape[1] % 8 == 0
    &&& rhs.shape[1] % 8 == 0
}

/// Both operands are matrices.
pub open spec fn matrices(lhs: OperandModel, rhs: OperandModel) -> bool {
    lhs.shape.len() == 2 && rhs.shape.len() == 2
}

/// The route of a product: on the device for matrices of sizes that are
/// multiples of eight, where the device has matrix instructions.
pub open spec fn matmul_route<P, B>(
    b: BackendModel<P, B>,
    lhs: OperandModel,
    rhs: OperandModel,
) -> Result<RouteModel, BackendErrorModel> {
    if !matrices(lhs, rhs) {
        fallback_two(b, lhs, rhs)
    } else if lhs.shape[1] != rhs.shape[0] {
        Err(
            BackendErrorModel::ShapeMismatch { op: "matmul"@, lhs: lhs.shape, rhs: rhs.shape },
        )
    } else if !product_native(b.metal3, lhs, rhs) {
        fallback_two(b, lhs, rhs)
    } else {
        let m = lhs.shape[0];
        let k = lhs.shape[1];
        let n = rhs.shape[1];
        native(
            "matmul"@,
            lhs,
            rhs,
            |l: Upload, r: Upload| Ok(matmul_plan(m, k, n)),
            seq![m, n],
        )
    }
}

/// The backend behind a routed product: drained where the product falls back
/// to the host and an operand is on the device.
pub open spec fn after_matmul<P, B>(
    b: BackendModel<P, B>,
    lhs: OperandModel,
    rhs: OperandModel,
) -> BackendModel<P, B> {
    if !matrices(lhs, rhs) || (lhs.shape[1] == rhs.shape[0] && !product_native(
        b.metal3,
        lhs,
        rhs,
    )) {
        after_two(b, lhs, rhs)
    } else {
        b
    }
}

/// The sizes of a product on the device fit the machine.
pub open spec fn product_fits(lhs: OperandModel, rhs: OperandModel) -> bool {
    matrices(lhs, rhs) ==> matmul::sizes_fit(
        Tiling::Single,
        lhs.shape[0] as int,
        rhs.shape[1] as int,
        4,
    )
}

impl<P, B> MetalBackend<P, B> {
    /// The name under which the backend is registered.
    pub fn name(&self) -> (r: &'static str)
        ensures
            r@ == "metal"@,
    {
        "metal"
    }

    /// Routes an element-wise sum.
    pub fn add(&mut self, lhs: &Operand, rhs: &Operand) -> (r: Result<Route, BackendError>)
        requires
            lhs@.fits(),
            rhs@.fits(),
        ensures
            route_view(r) == add_route(old(self)@, lhs@, rhs@),
            final(self)@ == if lhs@.shape != rhs@.shape {
                after_two(old(self)@, lhs@, rhs@)
            } else {
                old(self)@
            },
    {
        if !same_shape(lhs.shape.as_slice(), rhs.shape.as_slice()) {
            return fallback2(self, lhs, rhs);
        }
        let n: usize = lhs.numel();
        match to_gpu(lhs) {
            Err(e) => Err(metal_err("add", e)),
            Ok(l) => match to_gpu(rhs) {
                Err(e) => Err(metal_err("add", e)),
                Ok(u) => match add_f32(l.len(), u.len(), n) {
                    Err(e) => Err(metal_err("add", e)),
                    Ok(plan) => Ok(
                        Route::Native {
                            uploads: both(l, u),
                            plan,
                            shape: copy_shape(lhs.shape.as_slice()),
                        },
                    ),
                },
            },
        }
    }

    /// Routes a matrix product.
    pub fn matmul(&mut self, lhs: &Operand, rhs: &Operand) -> (r: Result<
        Route,
        BackendError,
    >)
        requires
            lhs@.fits(),
            rhs@.fits(),
            product_fits(lhs@, rhs@),
        ensures
            route_view(r) == matmul_route(old(self)@, lhs@, rhs@),
            final(self)@ == after_matmul(old(self)@, lhs@, rhs@),
    {
        if lhs.shape.len() != 2 || rhs.shape.len() != 2 {
            return fallback2(self, lhs, rhs);
        }
        let (m, k1) = (lhs.shape[0], lhs.shape[1]);
        let (k2, n) = (rhs.shape[0], rhs.shape[1]);
        if k1 != k2 {
            return Err(
                BackendError::ShapeMismatch {
                    op: "matmul",
                    lhs: copy_shape(lhs.shape.as_slice()),
                    rhs: copy_shape(rhs.shape.as_slice()),
                },
            );
        }
        if m % 8 != 0 || k1 % 8 != 0 || n % 8 != 0 || !self.supports_metal3() {
            return fallback2(self, lhs, rhs);
        }
        match to_gpu(lhs) {
            Err(e) => Err(metal_err("matmul", e)),
            Ok(l) => match to_gpu(rhs) {
                Err(e) => Err(metal_err("matmul", e)),
                Ok(u) => match matmul_simdgroup_f32(self.supports_metal3(), m, k1, n) {
                    Err(e) => Err(metal_err("matmul", e)),
                    Ok(plan) => {
                        let mut shape: Vec<usize> = Vec::new();
                        shape.push(m);
                        shape.push(n);
                        assert(shape@ =~= seq![m, n]);
                        Ok(Route::Native { uploads: both(l, u), plan, shape })
                    },
                },
            },
        }
    }
}

/// What was uploaded is read back in the same number of elements: an upload
/// buffer holds four bytes for each element that a later read takes.
pub proof fn law_upload_matches_download(t: OperandModel, u: Upload, submit: Submit)
    requires
        t.fits(),
        t.placement is Host,
        uploads(t) == Ok::<Upload, ErrorModel>(u),
    ensures
        u.len_spec() == t.numel() * 4,
        downloads(
            submit,
            OperandModel { placement: PlacementModel::Device { bytes: u.len_spec() }, ..t },
        ) == Ok::<Download, ErrorModel>(
            Download::Read { submit, elements: t.numel() as usize },
        ),
{
    init::lemma_product_nonneg(t.shape);
}

/// A sum of two dense host tensors of one nonempty shape runs on the device:
/// the buffers that are made for it are long enough for its kernel.
pub proof fn law_dense_sum_is_native<P, B>(
    b: BackendModel<P, B>,
    lhs: OperandModel,
    rhs: OperandModel,
)
    requires
        lhs.fits(),
        rhs.fits(),
        lhs.shape == rhs.shape,
        lhs.numel() > 0,
        lhs.placement == (PlacementModel::Host { dense: true }),
        rhs.placement == (PlacementModel::Host { dense: true }),
    ensures
        add_route(b, lhs, rhs) matches Ok(RouteModel::Native { uploads, plan, shape }) && shape
            == lhs.shape && plan.result == Some(0nat),
{
}

/// A product of dense host matrices whose sizes are nonzero multiples of
/// eight runs on a device with matrix instructions, and nowhere else.
pub proof fn law_aligned_product_is_native<P, B>(
    b: BackendModel<P, B>,
    lhs: OperandModel,
    rhs: OperandModel,
)
    requires
        lhs.fits(),
        rhs.fits(),
        lhs.shape.len() == 2 && rhs.shape.len() == 2,
        lhs.shape[1] == rhs.shape[0],
        lhs.numel() > 0 && rhs.numel() > 0,
        lhs.placement == (PlacementModel::Host { dense: true }),
        rhs.placement == (PlacementModel::Host { dense: true }),
    ensures
        matmul_route(b, lhs, rhs) matches Ok(route) && (route is Native <==> b.metal3
            && lhs.shape[0] % 8 == 0 && lhs.shape[1] % 8 == 0 && rhs.shape[1] % 8 == 0),
{
}

/// A host read sees the results of all kernels: where a tensor is read from
/// its device buffer, what was pending is submitted first, and nothing is
/// pending any more.
pub proof fn law_reads_follow_pending_work<P, B>(b: BackendModel<P, B>, t: OperandModel)
    requires
        t.placement is Device,
    ensures
        downloads(b.submit(), t) matches Ok(Download::Read { submit, elements }) && (b.pending
            ==> submit == Submit::Pending),
        !after_read(b, t).pending,
{
}

/// What a sum computes on the device: its two uploads are those of the
/// operands in their order, and each element of the answer, which has the
/// shape of the operands, is the sum of theirs.
pub proof fn law_routed_sum_computes<P, B, T>(
    b: BackendModel<P, B>,
    lhs: OperandModel,
    rhs: OperandModel,
    num: Num<T>,
    device: spec_fn(Seq<char>, Launch<T>) -> Seq<Seq<T>>,
    mem: Memory<T>,
    x: int,
)
    requires
        lhs.fits(),
        lhs.numel() <= u32::MAX,
        forall|l: Launch<T>| #[trigger] device("add_f32"@, l) == elementwise::add_kernel(num, l),
        mem.args.len() == 2,
        mem.temps.len() == 2,
        mem.temps[0].len() == lhs.numel(),
        0 <= x < lhs.numel(),
    ensures
        add_route(b, lhs, rhs) matches Ok(RouteModel::Native { uploads: up, plan, shape }) ==> {
            &&& device::answer(device, plan, mem)[x] == (num.add)(mem.args[0][x], mem.args[1][x])
            &&& shape == lhs.shape
            &&& shape == rhs.shape
            &&& up.len() == 2
            &&& uploads(lhs) == Ok::<Upload, ErrorModel>(up[0])
            &&& uploads(rhs) == Ok::<Upload, ErrorModel>(up[1])
        },
{
    if let Ok(RouteModel::Native { uploads: up, plan, shape }) = add_route(b, lhs, rhs) {
        let n = lhs.numel();
        assert(plan == elementwise::sum_plan(n as usize));
        elementwise::law_add_computes(n as usize, num, device, mem, x);
    }
}

/// What a matrix product computes on the device: its two uploads are those of
/// the operands in their order, and element `[i, j]` of the `[m, n]` answer is
/// the sum of the products along row `i` of the left and column `j` of the
/// right one.
pub proof fn law_routed_product_computes<P, B, T>(
    b: BackendModel<P, B>,
    lhs: OperandModel,
    rhs: OperandModel,
    num: Num<T>,
    device: spec_fn(Seq<char>, Launch<T>) -> Seq<Seq<T>>,
    mem: Memory<T>,
    i: int,
    j: int,
)
    requires
        lhs.shape.len() == 2,
        rhs.shape.len() == 2,
        lhs.shape[0] <= u32::MAX && lhs.shape[1] <= u32::MAX && rhs.shape[1] <= u32::MAX,
        forall|l: Launch<T>| #[trigger]
            device("matmul_simdgroup_f32"@, l) == matmul::product_kernel(
                num,
                false,
                false,
                8,
                8,
                l,
            ),
        mem.args.len() == 2,
        mem.temps.len() == 2,
        mem.temps[0].len() == lhs.shape[0] * rhs.shape[1],
        0 <= i < lhs.shape[0],
        0 <= j < rhs.shape[1],
    ensures
        matmul_route(b, lhs, rhs) matches Ok(RouteModel::Native { uploads: up, plan, shape }) ==> {
            let n = rhs.shape[1];
            let k = lhs.shape[1];
            &&& device::answer(device, plan, mem)[i * n + j] == num.sum(
                k as int,
                |l: int| (num.mul)(mem.args[0][i * k + l], mem.args[1][l * n + j]),
            )
            &&& k == rhs.shape[0]
            &&& shape == seq![lhs.shape[0], n]
            &&& up.len() == 2
            &&& uploads(lhs) == Ok::<Upload, ErrorModel>(up[0])
            &&& uploads(rhs) == Ok::<Upload, ErrorModel>(up[1])
        },
{
    if let Ok(RouteModel::Native { uploads: up, plan, shape }) = matmul_route(b, lhs, rhs) {
        let m = lhs.shape[0];
        let k = lhs.shape[1];
        let n = rhs.shape[1];
        assert(plan == matmul_plan(m, k, n));
        assert(m * n >= 0) by (nonlinear_arith);
        matmul::law_product_computes(
            "matmul_simdgroup_f32"@,
            Tiling::Single,
            4,
            m,
            k,
            n,
            num,
            device,
            mem,
            i,
            j,
        );
    }
}

/// The calls route as stated: a sum by the route of sums and a product by the
/// route of products, from the state that the backend is in.
pub proof fn law_route_calls<P, B>(
    b: &mut MetalBackend<P, B>,
    lhs: &Operand,
    rhs: &Operand,
    r: Result<Route, BackendError>,
)
    ensures
        call_ensures(MetalBackend::<P, B>::add, (b, lhs, rhs), r) ==> route_view(r) == add_route(
            old(b)@,
            lhs@,
            rhs@,
        ),
        call_ensures(MetalBackend::<P, B>::matmul, (b, lhs, rhs), r) ==> route_view(r)
            == matmul_route(old(b)@, lhs@, rhs@),
{
}

} // verus!
