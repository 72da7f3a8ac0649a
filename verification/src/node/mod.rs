//! The nodes of formatted text.
pub mod block;
pub mod code_block;
pub mod element;
pub mod element_laws;
pub mod highlight;
pub mod inline;
pub mod look_laws;
pub mod markdown;
pub mod markdown_laws;
pub mod marks;
pub mod paint;
pub mod paint_laws;
pub mod paragraph;
pub mod refs;
pub mod segment_laws;
pub mod segments;
pub mod table;
pub mod table_layout;
pub mod text_laws;
