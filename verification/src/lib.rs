//! Theme definitions for a code editor, compiled between a compact,
//! palette-based authored form and a flat, fully resolved output form.
//!
//! The core of the library is the palette resolution engine: named color
//! entries may reference one another and carry perceptual modifiers, and
//! resolution turns them into literal colors with cycle detection. Around
//! it sit the forward style compiler (authored form to flat form), the
//! reverse decompiler (flat form back to named form, with automatic color
//! naming), and the extractor that factors shared structure out of two
//! theme variants.
pub mod color;
pub mod compile;
pub mod decompile;
pub mod error;
pub mod extract;
pub mod flat;
pub mod kdl_out;
pub mod namer;
pub mod palette;
pub mod schema;

pub use color::{BaseColorKind, Color, ColorModifiers, HexColor, parse_hex_color};
pub use error::ThemeError;
