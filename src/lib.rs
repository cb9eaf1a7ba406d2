//! Lexical scope resolution for a JavaScript bundler: a table of nested
//! scopes, each with its own name bindings, and a chain-walking lookup that
//! caches negative results. Beside it, the data that describes a module's
//! exports and the dependency that answers questions about them.

mod bindings;
pub mod exports_info;
pub mod exports_info_dependency;
pub mod laws;
pub mod scope;

pub use exports_info::{ExportInfo, ExportsInfo, ProvidedInfo};
pub use exports_info_dependency::{ExportsInfoDependency, JsAstPath};
pub use scope::{ScopeInfo, ScopeInfoDB, ScopeInfoId, ScopeTable, ScopeView};
