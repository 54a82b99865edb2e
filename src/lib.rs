//! A codec for the "Quite OK Image" format: an RGBA pixel grid is turned into a
//! compact, lossless byte stream and back.
//!
//! The modules are laid out leaves first:
//! - `pixel`: the pixel value, its hash, wrap-around differences and the chunk classifier;
//! - `image`: the image value and the errors of the codec;
//! - `format`: the wire format (header, end marker, chunk tags) and the single-chunk decoders;
//! - `encoder` and `decoder`: the two directions, each stated against a model of the stream;
//! - `laws`: properties that relate the two directions;
//! - `demo`: a sample image.

pub mod decoder;
pub mod demo;
pub mod encoder;
pub mod format;
pub mod image;
pub mod laws;
pub mod pixel;

pub use decoder::decode;
pub use demo::checkerboard;
pub use encoder::encode_from_image;
pub use format::{dec_diff, dec_luma, dec_rgb, dec_rgba, qoi_file_name, read_header, read_tag};
pub use image::{Image, ImgError};
pub use pixel::{color_hash, ChunkType, Pixel};
