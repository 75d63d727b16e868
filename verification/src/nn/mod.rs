//! Neural-network layers.
pub mod activation;
pub mod attention;
pub mod attention_value;
pub mod calls;
pub mod checkpointed;
pub mod container;
pub mod conv;
pub mod embedding;
pub mod fold;
pub mod fresh;
pub mod fused_norm;
pub mod gqa;
pub mod hooks;
pub mod init;
pub mod kv_cache;
pub mod layer;
pub mod linear;
pub mod loss;
pub mod masks;
pub mod meaning;
pub mod module;
pub mod norm;
pub mod param;
pub mod pool;
pub mod program;
pub mod single;
pub mod softmax_row;
