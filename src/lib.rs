//! Capture of an e-ink tablet's framebuffer as an endlessly repeating,
//! frame-aligned byte stream, with an optional pen-position overlay.
//!
//! - `frame`: the bookkeeping of the frame stream and its resynchronisation.
//! - `overlay`: pen state and the glyph stamped on outgoing bytes.
//! - `device`: where the pixels of each supported device are read from.
//! - `text`: small parsers used by `device`.
//! - `options`: startup configuration.
pub mod options;
pub mod overlay;
pub mod frame;
pub mod text;
pub mod device;
