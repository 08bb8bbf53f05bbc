//! Token-efficient, polyglot Lisp editing: reading a file's shape cheaply,
//! anchoring any target by a short content hash, editing by anchor, and
//! reindenting Lisp source the way Emacs does.

pub mod text;
pub mod reader;
pub mod nameless;
pub mod config;
pub mod indent_table;
pub mod format;
pub mod edit;
pub mod hash;
pub mod linehash;
pub mod write;
pub mod apply;
pub mod patch;
pub mod parinfer;
pub mod outline;
pub mod resolve;
pub mod structural;
pub mod sexpr;
pub mod diff;
pub mod refactor;
pub mod rewrite;
pub mod extract;
pub mod units;
pub mod html;

pub use outline::{outline, OutlineEntry};
