//! The scope-aware analyzer's product.
//!
//! The full scan itself — a visitor walking every scope of the syntax tree —
//! is an external collaborator. It hands the worker one `ScanOutput` per
//! module: the root scope's declared names with their bind kinds, the local
//! export table, the named re-export table, the identifier occurrences to
//! link, and per-statement metadata. Symbol marks are not part of it: the
//! worker allocates every mark itself, through the shared `SymbolBox`.

use vstd::prelude::*;

verus! {

/// How a root-scope name came to be bound.
#[derive(Clone, Copy, PartialEq, Eq, Structural, Debug)]
pub enum BindType {
    /// Bound by an import declaration.
    Import,
    /// Bound by a plain declaration in the module itself.
    Declaration,
}

/// Per-statement metadata: which of the root scope's declared names this
/// statement declares, as indices into the scan's declared-name list.
pub struct StatementInfo {
    pub declared: Vec<usize>,
}

/// Everything the full scan yields for one module.
pub struct ScanOutput {
    /// The root scope's declared names, each with its bind kind.
    pub declared_symbols: Vec<(String, BindType)>,
    /// Exported name to the local name it exports.
    pub local_exports: Vec<(String, String)>,
    /// Re-exported name to the source-module specifier it comes from.
    pub re_exports: Vec<(String, String)>,
    /// Identifier occurrences in the module body, to be linked to their
    /// declaring marks.
    pub referenced_names: Vec<String>,
    /// One entry per statement of the module, in source order.
    pub statement_infos: Vec<StatementInfo>,
}

/// Statement metadata points into a declared-name list of length `n`.
pub open spec fn stmt_indices_valid(infos: Seq<StatementInfo>, n: int) -> bool {
    forall|i: int, j: int|
        0 <= i < infos.len() && 0 <= j < infos[i].declared@.len()
            ==> #[trigger] infos[i].declared@[j] < n
}

/// No declared name is attributed to two statement positions.
pub open spec fn stmt_indices_distinct(infos: Seq<StatementInfo>) -> bool {
    forall|i1: int, j1: int, i2: int, j2: int|
        0 <= i1 < infos.len() && 0 <= j1 < infos[i1].declared@.len() && 0 <= i2 < infos.len() && 0
            <= j2 < infos[i2].declared@.len() && (i1 != i2 || j1 != j2)
            ==> #[trigger] infos[i1].declared@[j1] != #[trigger] infos[i2].declared@[j2]
}

impl ScanOutput {
    /// A well-formed scan: statement metadata points into the declared-name
    /// list, and no declared name is attributed to two statements.
    pub open spec fn wf(self) -> bool {
        &&& stmt_indices_valid(self.statement_infos@, self.declared_symbols@.len() as int)
        &&& stmt_indices_distinct(self.statement_infos@)
    }
}

} // verus!
