//! Discovers static module-dependency relationships among Emacs Lisp source
//! files in a directory: extracts `(require '...)` declarations, resolves each
//! against the set of locally present modules, builds forward and reverse
//! dependency indexes, and answers per-module dependency queries and the
//! "toplevel modules" query (modules nothing else depends on).

pub mod feature;
pub mod index;
pub mod laws;
pub mod parser;
pub mod resolver;
