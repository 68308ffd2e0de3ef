//! The rendering pipeline's stages.

pub mod highlighter;
pub mod images;
pub mod parser;
pub mod special_blocks;
pub mod stability;

pub use highlighter::highlight_code;
pub use images::resolve_image_paths;
pub use parser::render_markdown_html;
pub use special_blocks::{extract_special_blocks, SpecialBlock};
