//! The analyzed unit: one module's identity, statements, export tables and
//! symbol maps, together with the linking steps that run after scanning.

use vstd::prelude::*;

use crate::scanner::{stmt_indices_distinct, stmt_indices_valid, StatementInfo};
use crate::shared::{index_contents, index_insert, StatementIndex};
use crate::symbol_box::Mark;
use crate::types::{ResolvedId, Resolver};

verus! {

/// One statement of the module after binding: the marks it declares.
pub struct Statement {
    pub declared_marks: Vec<Mark>,
}

/// First-match lookup of a name in a symbol map.
pub open spec fn find_mark(entries: Seq<(String, Mark)>, name: Seq<char>) -> Option<Mark>
    decreases entries.len(),
{
    if entries.len() == 0 {
        None
    } else if entries[0].0@ == name {
        Some(entries[0].1)
    } else {
        find_mark(entries.drop_first(), name)
    }
}

/// The mark a local name stands for: its declaration if there is one, else
/// the binding its import introduced.
pub open spec fn local_mark_of(
    declared: Seq<(String, Mark)>,
    imported: Seq<(String, Mark)>,
    name: Seq<char>,
) -> Option<Mark> {
    match find_mark(declared, name) {
        Some(m) => Some(m),
        None => find_mark(imported, name),
    }
}

/// Looks `name` up in a symbol map, first match wins.
pub fn lookup_mark(entries: &Vec<(String, Mark)>, name: &String) -> (r: Option<Mark>)
    ensures
        r == find_mark(entries@, name@),
{
    let mut i: usize = 0;
    proof {
        assert(entries@.skip(0) =~= entries@);
    }
    while i < entries.len()
        invariant
            i <= entries.len(),
            find_mark(entries@, name@) == find_mark(entries@.skip(i as int), name@),
        decreases entries.len() - i,
    {
        proof {
            assert(entries@.skip(i as int)[0] == entries@[i as int]);
        }
        if entries[i].0 == *name {
            return Some(entries[i].1);
        }
        proof {
            assert(entries@.skip(i as int).drop_first() =~= entries@.skip(i as int + 1));
        }
        i = i + 1;
    }
    proof {
        assert(entries@.skip(i as int) =~= Seq::<(String, Mark)>::empty());
    }
    None
}

/// The view of a symbol map: each name as a character sequence, with its
/// mark.
pub open spec fn sym_views(s: Seq<(String, Mark)>) -> Seq<(Seq<char>, Mark)> {
    s.map_values(|p: (String, Mark)| (p.0@, p.1))
}

/// Pairwise-distinct marks.
pub open spec fn marks_distinct_seq(s: Seq<Mark>) -> bool {
    forall|a: int, b: int| 0 <= a < b < s.len() ==> s[a] != s[b]
}

/// The mark the statement-index entry for statement `i`, declared name `j`,
/// is keyed by.
pub open spec fn stmt_key(infos: Seq<StatementInfo>, marks: Seq<Mark>, i: int, j: int) -> Mark {
    marks[infos[i].declared@[j] as int]
}

/// The statement index `m` records that statement `i` of module `id`
/// declared its `j`-th name.
pub open spec fn stmt_recorded(
    m: Map<Mark, (Seq<char>, usize)>,
    infos: Seq<StatementInfo>,
    marks: Seq<Mark>,
    id: Seq<char>,
    i: int,
    j: int,
) -> bool {
    &&& m.contains_key(stmt_key(infos, marks, i, j))
    &&& m[stmt_key(infos, marks, i, j)] == (id, i as usize)
}

/// The analyzed module.
pub struct Module {
    /// Canonical module identifier.
    pub id: String,
    /// The statement sequence, attached after scanning.
    pub statements: Vec<Statement>,
    /// Exported name to the local name it exports.
    pub local_exports: Vec<(String, String)>,
    /// Re-exported name to the source-module specifier it comes from.
    pub re_exports: Vec<(String, String)>,
    /// Source specifiers of `export * from` statements.
    pub re_export_all_sources: Vec<String>,
    /// Imported name to its symbol mark.
    pub imported_symbols: Vec<(String, Mark)>,
    /// Locally declared name to its symbol mark.
    pub declared_symbols: Vec<(String, Mark)>,
    /// Exported name to its underlying local mark, where one exists.
    pub linked_exports: Vec<(String, Option<Mark>)>,
    /// Identifier occurrence to its declaring mark, where one exists.
    pub local_bindings: Vec<(String, Option<Mark>)>,
    /// The synthetic mark of the module's export-namespace object,
    /// allocated exactly once per module.
    pub namespace_mark: Option<Mark>,
}

impl Module {
    /// The marks of the imported and declared symbol maps, in map order.
    pub open spec fn symbol_marks(self) -> Seq<Mark> {
        self.imported_symbols@.map_values(|p: (String, Mark)| p.1) + self.declared_symbols@.map_values(
            |p: (String, Mark)| p.1,
        )
    }

    /// Whether `m` is one of this module's marks, the namespace mark included.
    pub open spec fn has_mark(self, m: Mark) -> bool {
        self.symbol_marks().contains(m) || self.namespace_mark == Some(m)
    }

    /// Every name in the imported and declared maps has a distinct mark.
    pub open spec fn marks_distinct(self) -> bool {
        forall|a: int, b: int|
            0 <= a < b < self.symbol_marks().len() ==> self.symbol_marks()[a]
                != self.symbol_marks()[b]
    }

    /// The module invariant on symbol identity: all imported and declared
    /// marks are pairwise distinct, and the namespace mark exists — exactly
    /// one — and differs from every one of them.
    pub open spec fn wf_symbols(self) -> bool {
        &&& self.marks_distinct()
        &&& match self.namespace_mark {
            Some(nm) => !self.symbol_marks().contains(nm),
            None => false,
        }
    }

    /// Every mark of the module lies below `bound`.
    pub open spec fn marks_below(self, bound: u64) -> bool {
        forall|m: Mark| self.has_mark(m) ==> m < bound
    }

    /// A fresh, empty module record for `id`.
    pub fn new(id: String) -> (m: Module)
        ensures
            m.id == id,
            m.statements@ =~= Seq::<Statement>::empty(),
            m.local_exports@ =~= Seq::<(String, String)>::empty(),
            m.re_exports@ =~= Seq::<(String, String)>::empty(),
            m.re_export_all_sources@ =~= Seq::<String>::empty(),
            m.imported_symbols@ =~= Seq::<(String, Mark)>::empty(),
            m.declared_symbols@ =~= Seq::<(String, Mark)>::empty(),
            m.linked_exports@ =~= Seq::<(String, Option<Mark>)>::empty(),
            m.local_bindings@ =~= Seq::<(String, Option<Mark>)>::empty(),
            m.namespace_mark is None,
    {
        Module {
            id,
            statements: Vec::new(),
            local_exports: Vec::new(),
            re_exports: Vec::new(),
            re_export_all_sources: Vec::new(),
            imported_symbols: Vec::new(),
            declared_symbols: Vec::new(),
            linked_exports: Vec::new(),
            local_bindings: Vec::new(),
            namespace_mark: None,
        }
    }

    /// Resolves a specifier found in this module, through the resolver table.
    pub fn resolve_id(&self, resolver: &Resolver, specifier: &String) -> (r: Option<ResolvedId>)
        ensures
            match r {
                Some(x) => resolver.resolve_spec(self.id@, specifier@) == Some(x@),
                None => resolver.resolve_spec(self.id@, specifier@) is None,
            },
    {
        resolver.resolve(&self.id, specifier)
    }

    /// Resolves each exported name to the mark of the local binding it
    /// exports: local declarations shadow imported bindings.
    pub fn link_local_exports(&mut self)
        ensures
            final(self).id == old(self).id,
            final(self).statements == old(self).statements,
            final(self).local_exports == old(self).local_exports,
            final(self).re_exports == old(self).re_exports,
            final(self).re_export_all_sources == old(self).re_export_all_sources,
            final(self).imported_symbols == old(self).imported_symbols,
            final(self).declared_symbols == old(self).declared_symbols,
            final(self).local_bindings == old(self).local_bindings,
            final(self).namespace_mark == old(self).namespace_mark,
            final(self).linked_exports@.len() == old(self).local_exports@.len(),
            forall|i: int| 0 <= i < old(self).local_exports@.len()
                ==> (#[trigger] final(self).linked_exports@[i]).0@ == old(self).local_exports@[i].0@
                && final(self).linked_exports@[i].1 == local_mark_of(
                    old(self).declared_symbols@,
                    old(self).imported_symbols@,
                    old(self).local_exports@[i].1@,
                ),
    {
        let mut linked: Vec<(String, Option<Mark>)> = Vec::new();
        let mut i: usize = 0;
        while i < self.local_exports.len()
            invariant
                *self == *old(self),
                i <= self.local_exports@.len(),
                linked@.len() == i,
                forall|k: int| 0 <= k < i
                    ==> (#[trigger] linked@[k]).0@ == self.local_exports@[k].0@
                    && linked@[k].1 == local_mark_of(
                        self.declared_symbols@,
                        self.imported_symbols@,
                        self.local_exports@[k].1@,
                    ),
            decreases self.local_exports@.len() - i,
        {
            let name = self.local_exports[i].0.clone();
            let m: Option<Mark> = match lookup_mark(&self.declared_symbols, &self.local_exports[i].1) {
                Some(m) => Some(m),
                None => lookup_mark(&self.imported_symbols, &self.local_exports[i].1),
            };
            linked.push((name, m));
            i = i + 1;
        }
        self.linked_exports = linked;
    }

    /// Attaches the statement sequence to the module and records, in the
    /// shared statement index, which module and statement position declared
    /// each mark. `marks` gives the mark of each scanned declared name, in
    /// scan order; each mark is written by exactly one binding, so no entry
    /// already present may be overwritten.
    pub fn set_statements(
        &mut self,
        infos: &Vec<StatementInfo>,
        marks: &Vec<Mark>,
        index: &mut StatementIndex,
    )
        requires
            stmt_indices_valid(infos@, marks@.len() as int),
            stmt_indices_distinct(infos@),
            marks_distinct_seq(marks@),
            forall|d: int|
                0 <= d < marks@.len() ==> !index_contents(*old(index)).contains_key(
                    #[trigger] marks@[d],
                ),
        ensures
            final(self).id == old(self).id,
            final(self).local_exports == old(self).local_exports,
            final(self).re_exports == old(self).re_exports,
            final(self).re_export_all_sources == old(self).re_export_all_sources,
            final(self).imported_symbols == old(self).imported_symbols,
            final(self).declared_symbols == old(self).declared_symbols,
            final(self).linked_exports == old(self).linked_exports,
            final(self).local_bindings == old(self).local_bindings,
            final(self).namespace_mark == old(self).namespace_mark,
            final(self).statements@.len() == infos@.len(),
            forall|i: int| 0 <= i < infos@.len()
                ==> (#[trigger] final(self).statements@[i]).declared_marks@.len()
                == infos@[i].declared@.len(),
            forall|i: int, j: int|
                0 <= i < infos@.len() && 0 <= j < infos@[i].declared@.len()
                    ==> #[trigger] final(self).statements@[i].declared_marks@[j] == stmt_key(
                    infos@,
                    marks@,
                    i,
                    j,
                ),
            forall|k: Mark|
                index_contents(*old(index)).contains_key(k) ==> #[trigger] index_contents(
                    *final(index),
                ).contains_key(k) && index_contents(*final(index))[k] == index_contents(
                    *old(index),
                )[k],
            forall|k: Mark|
                #[trigger] index_contents(*final(index)).contains_key(k) ==> index_contents(
                    *old(index),
                ).contains_key(k) || marks@.contains(k),
            forall|i: int, j: int|
                0 <= i < infos@.len() && 0 <= j < infos@[i].declared@.len()
                    ==> #[trigger] stmt_recorded(
                    index_contents(*final(index)),
                    infos@,
                    marks@,
                    old(self).id@,
                    i,
                    j,
                ),
    {
        let mut stmts: Vec<Statement> = Vec::new();
        let mut i: usize = 0;
        #[verifier::loop_isolation(false)]
        while i < infos.len()
            invariant
                *self == *old(self),
                i <= infos@.len(),
                stmts@.len() == i,
                forall|i2: int| 0 <= i2 < i
                    ==> (#[trigger] stmts@[i2]).declared_marks@.len()
                    == infos@[i2].declared@.len(),
                forall|i2: int, j2: int|
                    0 <= i2 < i && 0 <= j2 < infos@[i2].declared@.len()
                        ==> #[trigger] stmts@[i2].declared_marks@[j2] == stmt_key(
                        infos@,
                        marks@,
                        i2,
                        j2,
                    ),
                forall|k: Mark|
                    index_contents(*old(index)).contains_key(k) ==> #[trigger] index_contents(
                        *index,
                    ).contains_key(k) && index_contents(*index)[k] == index_contents(
                        *old(index),
                    )[k],
                forall|k: Mark|
                    #[trigger] index_contents(*index).contains_key(k) ==> index_contents(
                        *old(index),
                    ).contains_key(k) || marks@.contains(k),
                forall|i2: int, j2: int|
                    0 <= i2 < i && 0 <= j2 < infos@[i2].declared@.len()
                        ==> #[trigger] stmt_recorded(
                        index_contents(*index),
                        infos@,
                        marks@,
                        old(self).id@,
                        i2,
                        j2,
                    ),
            decreases infos@.len() - i,
        {
            let mut declared_marks: Vec<Mark> = Vec::new();
            let mut j: usize = 0;
            #[verifier::loop_isolation(false)]
            while j < infos[i].declared.len()
                invariant
                    j <= infos@[i as int].declared@.len(),
                    declared_marks@.len() == j,
                    forall|j2: int| 0 <= j2 < j
                        ==> #[trigger] declared_marks@[j2] == stmt_key(
                        infos@,
                        marks@,
                        i as int,
                        j2,
                    ),
                    forall|k: Mark|
                        index_contents(*old(index)).contains_key(k) ==> #[trigger] index_contents(
                            *index,
                        ).contains_key(k) && index_contents(*index)[k] == index_contents(
                            *old(index),
                        )[k],
                    forall|k: Mark|
                        #[trigger] index_contents(*index).contains_key(k) ==> index_contents(
                            *old(index),
                        ).contains_key(k) || marks@.contains(k),
                    forall|i2: int, j2: int|
                        (0 <= i2 < i && 0 <= j2 < infos@[i2].declared@.len()) || (i2 == i && 0 <= j2
                            < j) ==> #[trigger] stmt_recorded(
                            index_contents(*index),
                            infos@,
                            marks@,
                            old(self).id@,
                            i2,
                            j2,
                        ),
                decreases infos@[i as int].declared@.len() - j,
            {
                let d = infos[i].declared[j];
                let m = marks[d];
                proof {
                    assert(marks@.contains(marks@[d as int]));
                    assert forall|i2: int, j2: int|
                        ((0 <= i2 < i && 0 <= j2 < infos@[i2].declared@.len()) || (i2 == i && 0
                            <= j2 < j)) implies stmt_key(infos@, marks@, i2, j2)
                        != marks@[d as int] by {
                        let d2 = infos@[i2].declared@[j2];
                        assert(d2 != infos@[i as int].declared@[j as int]);
                        if d2 < d {
                            assert(marks@[d2 as int] != marks@[d as int]);
                        } else {
                            assert(marks@[d as int] != marks@[d2 as int]);
                        }
                    }
                }
                declared_marks.push(m);
                let ghost prev = index_contents(*index);
                index_insert(index, m, self.id.clone(), i);
                proof {
                    assert forall|i2: int, j2: int|
                        ((0 <= i2 < i && 0 <= j2 < infos@[i2].declared@.len()) || (i2 == i && 0
                            <= j2 < j)) implies stmt_recorded(
                        index_contents(*index),
                        infos@,
                        marks@,
                        old(self).id@,
                        i2,
                        j2,
                    ) by {
                        assert(stmt_recorded(prev, infos@, marks@, old(self).id@, i2, j2));
                    }
                }
                j = j + 1;
            }
            stmts.push(Statement { declared_marks });
            i = i + 1;
        }
        self.statements = stmts;
    }

    /// Links identifier occurrences of the module body to their declaring
    /// marks, local declarations first, imported bindings second.
    pub fn bind_local_references(&mut self, referenced: &Vec<String>)
        ensures
            final(self).id == old(self).id,
            final(self).statements == old(self).statements,
            final(self).local_exports == old(self).local_exports,
            final(self).re_exports == old(self).re_exports,
            final(self).re_export_all_sources == old(self).re_export_all_sources,
            final(self).imported_symbols == old(self).imported_symbols,
            final(self).declared_symbols == old(self).declared_symbols,
            final(self).linked_exports == old(self).linked_exports,
            final(self).namespace_mark == old(self).namespace_mark,
            final(self).local_bindings@.len() == referenced@.len(),
            forall|i: int| 0 <= i < referenced@.len()
                ==> (#[trigger] final(self).local_bindings@[i]).0@ == referenced@[i]@
                && final(self).local_bindings@[i].1 == local_mark_of(
                    old(self).declared_symbols@,
                    old(self).imported_symbols@,
                    referenced@[i]@,
                ),
    {
        let mut bound: Vec<(String, Option<Mark>)> = Vec::new();
        let mut i: usize = 0;
        while i < referenced.len()
            invariant
                *self == *old(self),
                i <= referenced@.len(),
                bound@.len() == i,
                forall|k: int| 0 <= k < i
                    ==> (#[trigger] bound@[k]).0@ == referenced@[k]@
                    && bound@[k].1 == local_mark_of(
                        self.declared_symbols@,
                        self.imported_symbols@,
                        referenced@[k]@,
                    ),
            decreases referenced@.len() - i,
        {
            let name = referenced[i].clone();
            let m: Option<Mark> = match lookup_mark(&self.declared_symbols, &referenced[i]) {
                Some(m) => Some(m),
                None => lookup_mark(&self.imported_symbols, &referenced[i]),
            };
            bound.push((name, m));
            i = i + 1;
        }
        self.local_bindings = bound;
    }
}

} // verus!
