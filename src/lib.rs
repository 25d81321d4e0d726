//! Text-art video rendering: glyph atlases fitted to a cell height, the
//! mapping of a coarse luminance grid onto a full-size frame, the compositor
//! that stamps glyphs, and the decode/encode handshake that drives it.
pub mod atlas;
pub mod compose;
pub mod layout;
pub mod pipeline;
pub mod scan;
pub mod streams;
pub mod timing;
