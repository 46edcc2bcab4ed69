pub mod bytes;
pub mod cache;
pub mod cli;
pub mod container;
pub mod conversation;
pub mod generation;
pub mod loader;
pub mod model;
pub mod pack;
pub mod permutation;
pub mod perplexity;
pub mod quant_file;
pub mod quant_linear;
pub mod quant_q8k_128;
pub mod quantize;
pub mod repl;
pub mod scratch;
pub mod sources;
pub mod text;
pub mod tokens;
pub mod types;
