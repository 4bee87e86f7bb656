//! The shape of a parsed module as the core reads it.
//!
//! Tokenizing and full syntax-tree parsing are external collaborators; the
//! worker only ever inspects the top-level module items, and of those only
//! whether they carry a static dependency specifier. `ModuleItem` records
//! exactly that much of each top-level item, in source order.

use vstd::prelude::*;

verus! {

/// One top-level item of a parsed module.
pub enum ModuleItem {
    /// A static `import ... from "specifier"` declaration.
    Import { specifier: String },
    /// An `export { ... }` declaration, re-exporting from `src` when present.
    ExportNamed { src: Option<String> },
    /// An `export * from "specifier"` declaration.
    ExportAll { specifier: String },
    /// Any other module-level declaration (default exports, and so on).
    OtherDecl,
    /// A plain statement.
    Stmt,
}

} // verus!
