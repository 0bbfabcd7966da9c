//! Front-end-neutral contracts, session orchestration and media logic for airec.

pub mod error;
pub mod event;
pub mod model;
pub mod records;
pub mod resolve;
pub mod session;
pub mod pipeline_run;
pub mod input;
pub mod sampler;
pub mod palette;
pub mod lzw;
pub mod lzw_decoding;
pub mod gif;
pub mod text;
pub mod image;
pub mod median_cut;
pub mod frame_diff;
pub mod settings;
pub mod numbers;
pub mod cli;
pub mod options;
pub mod reporting;
pub mod protocol;
pub mod encoder;
pub mod targets;
pub mod laws;
pub mod conversion;
