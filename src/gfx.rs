//! Drawing onto pixel targets: target adapters, line and rectangle
//! primitives, and bitmap fonts.

pub mod draw_target;
pub mod primitives;
pub mod bitmap_font;
pub mod fonts;
pub mod glyph_art;
