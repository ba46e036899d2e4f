//! Container-level decoder driver for a lossless audio stream: marker,
//! metadata blocks and frames are parsed incrementally from a byte window,
//! then frames are decoded on demand into a reusable planar buffer and read
//! out as interleaved samples.

pub mod model;
pub mod decode;
pub mod parser;
pub mod producer;
pub mod stream;
pub mod laws;
