//! A verified pixel-batching render backend for small SPI displays.
//!
//! Drawing operations are turned into an ordered sequence of colored pixels,
//! which a two-stage greedy run-length compressor groups into the fewest
//! rectangular hardware write transactions that fit the transport's bounded
//! buffers.

pub mod batch;
pub mod bounded;
pub mod brush;
pub mod context;
pub mod egfx;
pub mod geom;
pub mod shapes;
pub mod status;
pub mod text;
pub mod transform;
