//! Terminal styles for file categories: colors, font styles, themes and the
//! `LS_COLORS` expression assembled from them.

pub mod color;
pub mod document;
pub mod error;
pub mod filetypes;
pub mod font_style;
pub mod output;
pub mod sort;
pub mod text;
pub mod theme;
pub mod types;
pub mod util;
