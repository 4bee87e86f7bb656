//! Plain value types shared across the core: resolved module references,
//! the resolver table, and build diagnostics.

use vstd::prelude::*;

verus! {

/// A claimed module reference, as produced by the resolver: the canonical
/// module identifier plus whether the module lives outside the graph's
/// control (runtime/platform modules, which are never parsed).
pub struct ResolvedId {
    pub id: String,
    pub external: bool,
}

impl View for ResolvedId {
    type V = (Seq<char>, bool);

    open spec fn view(&self) -> (Seq<char>, bool) {
        (self.id@, self.external)
    }
}

impl Clone for ResolvedId {
    fn clone(&self) -> (r: Self)
        ensures
            r == *self,
    {
        ResolvedId { id: self.id.clone(), external: self.external }
    }
}

/// One row of the resolver table: from inside `importer`, the specifier
/// `specifier` maps to `resolved`.
pub struct ResolverEntry {
    pub importer: String,
    pub specifier: String,
    pub resolved: ResolvedId,
}

/// The module-path resolver, deterministic given its inputs: a finite table
/// from (importer, specifier) to a resolved reference. The real resolution
/// algorithm is an external collaborator; the core consumes its outcome as
/// data, so a specifier outside the table is a resolution failure.
pub struct Resolver {
    pub entries: Vec<ResolverEntry>,
}

/// First-match lookup over the resolver table, the mathematical meaning of
/// `Resolver::resolve`.
pub open spec fn lookup_resolved(
    entries: Seq<ResolverEntry>,
    importer: Seq<char>,
    specifier: Seq<char>,
) -> Option<(Seq<char>, bool)>
    decreases entries.len(),
{
    if entries.len() == 0 {
        None
    } else if entries[0].importer@ == importer && entries[0].specifier@ == specifier {
        Some(entries[0].resolved@)
    } else {
        lookup_resolved(entries.drop_first(), importer, specifier)
    }
}

impl Resolver {
    /// What this resolver answers for (importer, specifier).
    pub open spec fn resolve_spec(self, importer: Seq<char>, specifier: Seq<char>) -> Option<
        (Seq<char>, bool),
    > {
        lookup_resolved(self.entries@, importer, specifier)
    }

    /// Maps `specifier`, imported from `importer`, to a resolved module
    /// reference; `None` is a resolution failure.
    pub fn resolve(&self, importer: &String, specifier: &String) -> (r: Option<ResolvedId>)
        ensures
            match r {
                Some(x) => self.resolve_spec(importer@, specifier@) == Some(x@),
                None => self.resolve_spec(importer@, specifier@) is None,
            },
    {
        let mut i: usize = 0;
        proof {
            assert(self.entries@.skip(0) =~= self.entries@);
        }
        while i < self.entries.len()
            invariant
                i <= self.entries.len(),
                lookup_resolved(self.entries@, importer@, specifier@) == lookup_resolved(
                    self.entries@.skip(i as int),
                    importer@,
                    specifier@,
                ),
            decreases self.entries.len() - i,
        {
            let entry = &self.entries[i];
            proof {
                assert(self.entries@.skip(i as int)[0] == self.entries@[i as int]);
            }
            if entry.importer == *importer && entry.specifier == *specifier {
                return Some(entry.resolved.clone());
            }
            proof {
                assert(self.entries@.skip(i as int).drop_first() =~= self.entries@.skip(
                    i as int + 1,
                ));
            }
            i = i + 1;
        }
        proof {
            assert(self.entries@.skip(i as int) =~= Seq::<ResolverEntry>::empty());
        }
        None
    }
}

/// Which collaborator failed for a module; each failure is module-local.
#[derive(Clone, Copy, PartialEq, Eq, Structural, Debug)]
pub enum DiagnosticKind {
    /// The source for the module could not be read.
    LoadError,
    /// The source was read but is not syntactically well formed.
    ParseError,
    /// An import or re-export specifier could not be mapped to a module id.
    ResolveError,
}

/// A module-local build diagnostic: the failing module and, for resolution
/// failures, the specifier that could not be resolved.
pub struct Diagnostic {
    pub module_id: String,
    pub kind: DiagnosticKind,
    pub specifier: Option<String>,
}

} // verus!
