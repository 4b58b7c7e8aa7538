//! A small HTML document model and its renderer.
//!
//! A document is a tree of nodes: elements with attributes and optional
//! content, ordered lists of siblings, and literal text leaves. Rendering is a
//! pure function from a tree to its textual markup.

pub mod attrs;
pub mod node;
pub mod render;

pub use attrs::attrs;
pub use attrs::html_attrs_tostr;
pub use node::Node;
pub use render::render;
pub use render::render_document;
