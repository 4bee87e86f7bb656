//! The message protocol from workers to the graph assembler.
//!
//! Two message kinds flow over the result channel: discovered inter-module
//! dependency edges, and fully analyzed module records. Ordering across
//! senders is not guaranteed; each worker's own log is ordered.

use vstd::prelude::*;

use crate::module::Module;

verus! {

/// The relation a dependency edge carries: which statement kind produced it.
#[derive(Clone, Copy, PartialEq, Eq, Structural, Debug)]
pub enum Rel {
    /// A static `import ... from` statement.
    Import,
    /// An `export { ... } from` statement.
    ReExportNamed,
    /// An `export * from` statement.
    ReExportAll,
}

/// One message to the graph assembler.
pub enum Msg {
    /// A dependency edge: from-module id, to-module id, relation. One edge
    /// is emitted per static statement; duplicates are not merged here.
    DependencyReference(String, String, Rel),
    /// A fully analyzed module record; at most one is ever emitted per
    /// module id.
    NewModule(Module),
}

impl Msg {
    /// Whether this message carries an analyzed module.
    pub open spec fn is_new_module(self) -> bool {
        match self {
            Msg::NewModule(_) => true,
            _ => false,
        }
    }

    /// The module a `NewModule` message carries.
    pub open spec fn module_of(self) -> Module
        recommends
            self.is_new_module(),
    {
        match self {
            Msg::NewModule(m) => m,
            _ => arbitrary(),
        }
    }

    /// Whether this message is the dependency edge (`from`, `to`, `rel`).
    pub open spec fn is_edge(self, from: Seq<char>, to: Seq<char>, rel: Rel) -> bool {
        match self {
            Msg::DependencyReference(f, t, r) => f@ == from && t@ == to && r == rel,
            _ => false,
        }
    }
}

} // verus!
