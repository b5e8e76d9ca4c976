//! Word-aligned segmentation of a document and the decisions of a
//! sequential translation pipeline that sends each segment to a
//! text-generation service and appends the results to an output sink.

pub mod client;
pub mod driver;
pub mod json;
pub mod segmenter;
pub mod text;

pub use segmenter::split_text_smartly;
