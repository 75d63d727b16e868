//! Planning layer of the GPU backend.
pub mod async_amx;
pub mod backend;
pub mod calls;
pub mod decode;
pub mod decode_value;
pub mod device;
pub mod dispatch;
pub mod elementwise;
pub mod error;
pub mod fused_adamw;
pub mod matmul;
pub mod profiler;
pub mod reduce;
pub mod repack;
pub mod routing;
pub mod sgemv;
pub mod sgemv_value;
pub mod ssm;
pub mod ssm_value;
