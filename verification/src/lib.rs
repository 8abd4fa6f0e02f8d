//! Text document model for rich text views: markdown-derived blocks and inline
//! nodes, their plain-text and markdown renderings, and the selection and run
//! bookkeeping that the view layer relies on.
//!
//! All text is held as UTF-8 bytes (`Vec<u8>`), because every offset that the
//! library handles (spans, mark ranges, selections, run lengths) is a byte
//! offset into such text.

pub mod bytes;
pub mod utils;
pub mod inline;
pub mod math;
pub mod node;
pub mod text;
pub mod serialize;
pub mod document;
pub mod markdown;
pub mod options;
pub mod equality;
pub mod layout;
pub mod flow;
pub mod syntax_tree;
