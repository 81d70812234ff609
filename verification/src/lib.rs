//! A typed markup-construction library: callers build an in-memory tree of
//! tagged nodes and render it to markup text under a configurable formatting
//! context. Construction validates attribute names against the reserved
//! handler prefix and style key, a resolver normalizes any order of typed
//! containers into one canonical record, and the renderer is proved to emit
//! exactly the text that the specification-level rendering function describes.

pub mod containers;
pub mod format;
pub mod render;
pub mod tags;
pub mod text;

pub use containers::TagError;
pub use containers::TagHandler;
pub use containers::TagProp;
pub use containers::TagStyle;
pub use format::TagFormatter;
pub use render::render;
pub use tags::Children;
pub use tags::TagArg;
pub use tags::UnitTag;
pub use tags::x;
