//! AV1 bitstream assembler for static-image videos.

pub mod adts;
pub mod api;
pub mod assemble;
pub mod bitio;
pub mod bytes;
pub mod container;
pub mod error;
pub mod fields;
pub mod frame_header;
pub mod inspect;
pub mod ivf;
pub mod model;
pub mod mp4;
pub mod obu;
pub mod seq_header;
pub mod text;
pub mod uheader;
