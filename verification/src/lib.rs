//! Verified core of the Knave shell: scene content, search, input handling,
//! icon and preview decoding, and the application catalog rules.

pub mod binary32;
pub mod catalog;
pub mod desktop;
pub mod glyph;
pub mod icon;
pub mod laws;
pub mod order;
pub mod preview;
pub mod raster;
pub mod runtime;
pub mod sampling;
pub mod scene;
pub mod search;
pub mod shell;
pub mod text;
pub mod texture;
pub mod ui;
