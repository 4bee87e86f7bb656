//! The worker: the unit of concurrent execution.
//!
//! A worker repeatedly claims one unprocessed module from the job queue,
//! pre-scans its top-level items to push newly discovered dependencies back
//! onto the queue as early as possible, emits one dependency edge per static
//! import/export-from statement, classifies the scanned bindings into
//! imported and declared symbol maps with freshly allocated marks, allocates
//! the module's namespace mark, binds statements into the shared statement
//! index, links local references and exports, and emits the finished module.
//!
//! Loading and parsing are external collaborators: the worker consumes their
//! outcome as a `SourceSet`, in which a missing id is an unreadable source
//! and an entry without a parse is a syntax failure.

use vstd::multiset::Multiset;
use vstd::prelude::*;

use crate::ast::ModuleItem;
use crate::graph::{Msg, Rel};
use crate::module::{local_mark_of, stmt_key, stmt_recorded, sym_views, Module};
use crate::scanner::{BindType, ScanOutput};
use crate::shared::{
    index_contents, index_new, processed_contains, processed_insert, processed_new, queue_contents,
    queue_new, queue_pop, queue_push, set_contents, JobQueue, ProcessedSet, StatementIndex,
};
use crate::symbol_box::{Mark, SymbolBox};
use crate::types::{Diagnostic, DiagnosticKind, ResolvedId, Resolver};

verus! {

/// The load+parse outcome for one module id: its top-level items and the
/// full scan of its tree.
pub struct ParsedModule {
    pub items: Vec<ModuleItem>,
    pub scan: ScanOutput,
}

/// One module the loader could read: its id, and its parse when the source
/// was syntactically well formed.
pub struct SourceEntry {
    pub id: String,
    pub parsed: Option<ParsedModule>,
}

/// What the loader and parser collaborators answer for each module id: an id
/// missing from the table is an unreadable source (a load failure), an entry
/// with no parse is a parse failure.
pub struct SourceSet {
    pub entries: Vec<SourceEntry>,
}

/// The first entry for `id` in the source table.
pub open spec fn first_source(entries: Seq<SourceEntry>, id: Seq<char>) -> Option<SourceEntry>
    decreases entries.len(),
{
    if entries.len() == 0 {
        None
    } else if entries[0].id@ == id {
        Some(entries[0])
    } else {
        first_source(entries.drop_first(), id)
    }
}

impl SourceSet {
    /// Looks a module id up in the table, first entry wins.
    pub fn find(&self, id: &String) -> (r: Option<usize>)
        ensures
            match r {
                Some(k) => k < self.entries@.len() && self.entries@[k as int].id@ == id@
                    && first_source(self.entries@, id@) == Some(self.entries@[k as int]),
                None => first_source(self.entries@, id@) is None,
            },
    {
        let mut i: usize = 0;
        proof {
            assert(self.entries@.skip(0) =~= self.entries@);
        }
        while i < self.entries.len()
            invariant
                i <= self.entries@.len(),
                first_source(self.entries@, id@) == first_source(
                    self.entries@.skip(i as int),
                    id@,
                ),
            decreases self.entries@.len() - i,
        {
            proof {
                assert(self.entries@.skip(i as int)[0] == self.entries@[i as int]);
            }
            if self.entries[i].id == *id {
                return Some(i);
            }
            proof {
                assert(self.entries@.skip(i as int).drop_first() =~= self.entries@.skip(
                    i as int + 1,
                ));
            }
            i = i + 1;
        }
        proof {
            assert(self.entries@.skip(i as int) =~= Seq::<SourceEntry>::empty());
        }
        None
    }
}

/// The worker and the shared build state it acts on: the symbol allocator,
/// the job queue, the processed set, the statement index, the resolver
/// table, and this worker's ordered message log and diagnostics.
pub struct Worker {
    pub symbol_box: SymbolBox,
    pub job_queue: JobQueue,
    pub processed_id: ProcessedSet,
    pub mark_to_stmt: StatementIndex,
    pub resolver: Resolver,
    pub emitted: Vec<Msg>,
    pub diagnostics: Vec<Diagnostic>,
}

impl Worker {
    /// The state invariant the worker maintains across claims.
    ///
    /// At most one `NewModule` message per module id ever stands in the log,
    /// and each emitted id is in the processed set; every emitted module has
    /// exactly one namespace mark and pairwise distinct symbol marks, all
    /// issued by the allocator; marks never collide across emitted modules;
    /// and every statement-index key was issued by the allocator.
    pub open spec fn wf(self) -> bool {
        &&& set_contents(self.processed_id).finite()
        &&& forall|k: int|
            0 <= k < self.emitted@.len() && (#[trigger] self.emitted@[k]).is_new_module()
                ==> set_contents(self.processed_id).contains(self.emitted@[k].module_of().id@)
        &&& forall|k1: int, k2: int|
            0 <= k1 < k2 < self.emitted@.len() && (#[trigger] self.emitted@[k1]).is_new_module()
                && (#[trigger] self.emitted@[k2]).is_new_module()
                ==> self.emitted@[k1].module_of().id@ != self.emitted@[k2].module_of().id@
        &&& forall|k: int|
            0 <= k < self.emitted@.len() && (#[trigger] self.emitted@[k]).is_new_module()
                ==> self.emitted@[k].module_of().wf_symbols()
                && self.emitted@[k].module_of().marks_below(self.symbol_box.next())
        &&& forall|k1: int, k2: int, m: Mark|
            0 <= k1 < k2 < self.emitted@.len() && self.emitted@[k1].is_new_module()
                && self.emitted@[k2].is_new_module()
                ==> !((#[trigger] self.emitted@[k1].module_of().has_mark(m))
                && (#[trigger] self.emitted@[k2].module_of().has_mark(m)))
        &&& forall|m: Mark|
            index_contents(self.mark_to_stmt).contains_key(m) ==> m < self.symbol_box.next()
    }

    /// A fresh build: empty queue, empty processed set, empty index, no
    /// marks issued, nothing emitted.
    pub fn new(resolver: Resolver) -> (w: Worker)
        ensures
            w.wf(),
            w.symbol_box.next() == 0,
            queue_contents(w.job_queue) == Multiset::<(Seq<char>, bool)>::empty(),
            set_contents(w.processed_id) == Set::<Seq<char>>::empty(),
            index_contents(w.mark_to_stmt) == (Map::<Mark, (Seq<char>, usize)>::empty()),
            w.resolver == resolver,
            w.emitted@ =~= Seq::<Msg>::empty(),
            w.diagnostics@ =~= Seq::<Diagnostic>::empty(),
    {
        Worker {
            symbol_box: SymbolBox::new(),
            job_queue: queue_new(),
            processed_id: processed_new(),
            mark_to_stmt: index_new(),
            resolver,
            emitted: Vec::new(),
            diagnostics: Vec::new(),
        }
    }

    /// Seeds the job queue with a module reference; the driver pushes the
    /// entry module here before workers start.
    pub fn seed(&mut self, entry: ResolvedId)
        ensures
            final(self).symbol_box == old(self).symbol_box,
            final(self).processed_id == old(self).processed_id,
            final(self).mark_to_stmt == old(self).mark_to_stmt,
            final(self).resolver == old(self).resolver,
            final(self).emitted == old(self).emitted,
            final(self).diagnostics == old(self).diagnostics,
            queue_contents(final(self).job_queue) == queue_contents(old(self).job_queue).insert(
                entry@,
            ),
            old(self).wf() ==> final(self).wf(),
    {
        queue_push(&mut self.job_queue, entry);
    }

    /// Claims one job: pops a reference off the queue and claims it if its
    /// module id is not processed yet, marking it processed. A popped
    /// duplicate is silently dropped — the claim returns `None` and the
    /// caller retries. `None` with an unchanged processed set and an empty
    /// or shrunk queue is therefore not termination by itself.
    pub fn fetch_job(&mut self) -> (r: Option<ResolvedId>)
        ensures
            final(self).symbol_box == old(self).symbol_box,
            final(self).mark_to_stmt == old(self).mark_to_stmt,
            final(self).resolver == old(self).resolver,
            final(self).emitted == old(self).emitted,
            final(self).diagnostics == old(self).diagnostics,
            old(self).wf() ==> final(self).wf(),
            match r {
                Some(x) => {
                    &&& queue_contents(old(self).job_queue).contains(x@)
                    &&& queue_contents(final(self).job_queue) == queue_contents(
                        old(self).job_queue,
                    ).remove(x@)
                    &&& !set_contents(old(self).processed_id).contains(x.id@)
                    &&& set_contents(final(self).processed_id) == set_contents(
                        old(self).processed_id,
                    ).insert(x.id@)
                },
                None => {
                    &&& final(self).processed_id == old(self).processed_id
                    &&& (queue_contents(old(self).job_queue).len() == 0 && queue_contents(
                        final(self).job_queue,
                    ) == queue_contents(old(self).job_queue)) || (exists|v: (Seq<char>, bool)|
                        queue_contents(old(self).job_queue).contains(v) && set_contents(
                            old(self).processed_id,
                        ).contains(v.0) && queue_contents(final(self).job_queue) == queue_contents(
                            old(self).job_queue,
                        ).remove(v))
                },
            },
    {
        match queue_pop(&mut self.job_queue) {
            None => None,
            Some(resolved_id) => {
                if processed_contains(&self.processed_id, &resolved_id.id) {
                    None
                } else {
                    let _newly_claimed = processed_insert(&mut self.processed_id, resolved_id.id.clone());
                    Some(resolved_id)
                }
            },
        }
    }

    /// Fast path for analyzing static import and export: walks only the
    /// top-level module items and pushes every resolvable static dependency
    /// onto the job queue at once, before full analysis runs, so idle
    /// workers can pick them up. Allocates no marks and emits no messages.
    pub fn pre_analyze_imported_module(&mut self, module: &Module, items: &Vec<ModuleItem>)
        ensures
            final(self).symbol_box == old(self).symbol_box,
            final(self).processed_id == old(self).processed_id,
            final(self).mark_to_stmt == old(self).mark_to_stmt,
            final(self).resolver == old(self).resolver,
            final(self).emitted == old(self).emitted,
            final(self).diagnostics == old(self).diagnostics,
            queue_contents(final(self).job_queue) == queue_contents(old(self).job_queue).add(
                prescan_pushes(old(self).resolver, module.id@, items@).to_multiset(),
            ),
            old(self).wf() ==> final(self).wf(),
    {
        broadcast use vstd::seq_lib::group_to_multiset_ensures;

        proof {
            assert(items@.take(0) =~= Seq::<ModuleItem>::empty());
            assert(prescan_pushes(self.resolver, module.id@, items@.take(0)) =~= Seq::<
                (Seq<char>, bool),
            >::empty());
            assert(queue_contents(self.job_queue).add(
                prescan_pushes(self.resolver, module.id@, items@.take(0)).to_multiset(),
            ) =~= queue_contents(self.job_queue));
        }
        let mut i: usize = 0;
        #[verifier::loop_isolation(false)]
        while i < items.len()
            invariant
                i <= items@.len(),
                *self == (Worker { job_queue: self.job_queue, ..*old(self) }),
                queue_contents(self.job_queue) == queue_contents(old(self).job_queue).add(
                    prescan_pushes(
                        old(self).resolver,
                        module.id@,
                        items@.take(i as int),
                    ).to_multiset(),
                ),
            decreases items@.len() - i,
        {
            let ghost deps_i = static_deps(items@.take(i as int));
            let ghost pushes_i = prescan_pushes(
                old(self).resolver,
                module.id@,
                items@.take(i as int),
            );
            proof {
                assert(items@.take(i + 1).drop_last() =~= items@.take(i as int));
                assert(items@.take(i + 1).last() == items@[i as int]);
            }
            let depended: Option<&String> = match &items[i] {
                ModuleItem::Import { specifier } => Some(specifier),
                ModuleItem::ExportNamed { src } => match src {
                    Some(source_node) => Some(source_node),
                    None => None,
                },
                ModuleItem::ExportAll { specifier } => Some(specifier),
                _ => None,
            };
            if let Some(depended) = depended {
                let ghost d = item_dep(items@[i as int]).unwrap();
                proof {
                    assert(static_deps(items@.take(i + 1)) == deps_i.push(d));
                    assert(deps_i.push(d).drop_last() =~= deps_i);
                    assert(deps_i.push(d).last() == d);
                }
                match module.resolve_id(&self.resolver, depended) {
                    Some(resolved_id) => {
                        proof {
                            assert(resolved_deps(old(self).resolver, module.id@, deps_i.push(d))
                                == resolved_deps(old(self).resolver, module.id@, deps_i).push(
                                (resolved_id@, d.1),
                            ));
                            assert(prescan_pushes(
                                old(self).resolver,
                                module.id@,
                                items@.take(i + 1),
                            ) =~= pushes_i.push(resolved_id@));
                        }
                        queue_push(&mut self.job_queue, resolved_id);
                        proof {
                            assert(queue_contents(self.job_queue) =~= queue_contents(
                                old(self).job_queue,
                            ).add(
                                prescan_pushes(
                                    old(self).resolver,
                                    module.id@,
                                    items@.take(i + 1),
                                ).to_multiset(),
                            ));
                        }
                    },
                    None => {
                        proof {
                            assert(resolved_deps(old(self).resolver, module.id@, deps_i.push(d))
                                == resolved_deps(old(self).resolver, module.id@, deps_i));
                            assert(prescan_pushes(
                                old(self).resolver,
                                module.id@,
                                items@.take(i + 1),
                            ) =~= pushes_i);
                        }
                    },
                }
            } else {
                proof {
                    assert(static_deps(items@.take(i + 1)) == deps_i);
                    assert(prescan_pushes(old(self).resolver, module.id@, items@.take(i + 1))
                        =~= pushes_i);
                }
            }
            i = i + 1;
        }
        proof {
            assert(items@.take(items@.len() as int) =~= items@);
        }
    }

    /// Emits one dependency edge per static import, export-from and
    /// export-all statement of the module, in source order; a specifier the
    /// resolver cannot map yields a module-local diagnostic instead of an
    /// edge. The job queue carries work, the message log carries graph
    /// edges: both derive from the same statements.
    fn send_dependencies(&mut self, module: &Module, items: &Vec<ModuleItem>)
        ensures
            final(self).symbol_box == old(self).symbol_box,
            final(self).job_queue == old(self).job_queue,
            final(self).processed_id == old(self).processed_id,
            final(self).mark_to_stmt == old(self).mark_to_stmt,
            final(self).resolver == old(self).resolver,
            final(self).emitted@.len() == old(self).emitted@.len() + resolved_deps(
                old(self).resolver,
                module.id@,
                static_deps(items@),
            ).len(),
            forall|k: int|
                0 <= k < old(self).emitted@.len() ==> #[trigger] final(self).emitted@[k] == old(self).emitted@[k],
            forall|e: int|
                0 <= e < resolved_deps(old(self).resolver, module.id@, static_deps(items@)).len()
                    ==> (#[trigger] final(self).emitted@[old(self).emitted@.len() + e]).is_edge(
                    module.id@,
                    resolved_deps(old(self).resolver, module.id@, static_deps(items@))[e].0.0,
                    resolved_deps(old(self).resolver, module.id@, static_deps(items@))[e].1,
                ),
            final(self).diagnostics@.len() == old(self).diagnostics@.len() + unresolved_deps(
                old(self).resolver,
                module.id@,
                static_deps(items@),
            ).len(),
            forall|k: int|
                0 <= k < old(self).diagnostics@.len() ==> #[trigger] final(self).diagnostics@[k]
                    == old(self).diagnostics@[k],
            forall|e: int|
                0 <= e < unresolved_deps(old(self).resolver, module.id@, static_deps(items@)).len()
                    ==> diag_is_unresolved(
                    #[trigger] final(self).diagnostics@[old(self).diagnostics@.len() + e],
                    module.id@,
                    unresolved_deps(old(self).resolver, module.id@, static_deps(items@))[e],
                ),
            old(self).wf() ==> final(self).wf(),
    {
        proof {
            assert(items@.take(0) =~= Seq::<ModuleItem>::empty());
        }
        let mut i: usize = 0;
        #[verifier::loop_isolation(false)]
        while i < items.len()
            invariant
                i <= items@.len(),
                *self == (Worker {
                    emitted: self.emitted,
                    diagnostics: self.diagnostics,
                    ..*old(self)
                }),
                self.emitted@.len() == old(self).emitted@.len() + resolved_deps(
                    old(self).resolver,
                    module.id@,
                    static_deps(items@.take(i as int)),
                ).len(),
                forall|k: int|
                    0 <= k < old(self).emitted@.len() ==> #[trigger] self.emitted@[k] == old(self).emitted@[k],
                forall|e: int|
                    0 <= e < resolved_deps(
                        old(self).resolver,
                        module.id@,
                        static_deps(items@.take(i as int)),
                    ).len() ==> (#[trigger] self.emitted@[old(self).emitted@.len() + e]).is_edge(
                        module.id@,
                        resolved_deps(
                            old(self).resolver,
                            module.id@,
                            static_deps(items@.take(i as int)),
                        )[e].0.0,
                        resolved_deps(
                            old(self).resolver,
                            module.id@,
                            static_deps(items@.take(i as int)),
                        )[e].1,
                    ),
                self.diagnostics@.len() == old(self).diagnostics@.len() + unresolved_deps(
                    old(self).resolver,
                    module.id@,
                    static_deps(items@.take(i as int)),
                ).len(),
                forall|k: int|
                    0 <= k < old(self).diagnostics@.len() ==> #[trigger] self.diagnostics@[k]
                        == old(self).diagnostics@[k],
                forall|e: int|
                    0 <= e < unresolved_deps(
                        old(self).resolver,
                        module.id@,
                        static_deps(items@.take(i as int)),
                    ).len() ==> diag_is_unresolved(
                        #[trigger] self.diagnostics@[old(self).diagnostics@.len() + e],
                        module.id@,
                        unresolved_deps(
                            old(self).resolver,
                            module.id@,
                            static_deps(items@.take(i as int)),
                        )[e],
                    ),
            decreases items@.len() - i,
        {
            let ghost deps_i = static_deps(items@.take(i as int));
            proof {
                assert(items@.take(i + 1).drop_last() =~= items@.take(i as int));
                assert(items@.take(i + 1).last() == items@[i as int]);
            }
            let depended: Option<(&String, Rel)> = match &items[i] {
                ModuleItem::Import { specifier } => Some((specifier, Rel::Import)),
                ModuleItem::ExportNamed { src } => match src {
                    Some(source_node) => Some((source_node, Rel::ReExportNamed)),
                    None => None,
                },
                ModuleItem::ExportAll { specifier } => Some((specifier, Rel::ReExportAll)),
                _ => None,
            };
            if let Some((depended, rel)) = depended {
                let ghost d = item_dep(items@[i as int]).unwrap();
                proof {
                    assert(static_deps(items@.take(i + 1)) == deps_i.push(d));
                    assert(deps_i.push(d).drop_last() =~= deps_i);
                    assert(deps_i.push(d).last() == d);
                    assert(d.1 == rel);
                }
                match module.resolve_id(&self.resolver, depended) {
                    Some(resolved_id) => {
                        self.emitted.push(
                            Msg::DependencyReference(module.id.clone(), resolved_id.id, rel),
                        );
                    },
                    None => {
                        self.diagnostics.push(
                            Diagnostic {
                                module_id: module.id.clone(),
                                kind: DiagnosticKind::ResolveError,
                                specifier: Some(depended.clone()),
                            },
                        );
                    },
                }
            } else {
                proof {
                    assert(static_deps(items@.take(i + 1)) == deps_i);
                }
            }
            i = i + 1;
        }
        proof {
            assert(items@.take(items@.len() as int) =~= items@);
            if old(self).wf() {
                let edges = resolved_deps(old(self).resolver, module.id@, static_deps(items@));
                assert forall|k: int|
                    0 <= k < self.emitted@.len() && (#[trigger] self.emitted@[k]).is_new_module()
                    implies k < old(self).emitted@.len() && self.emitted@[k] == old(self).emitted@[k] by {
                    if k >= old(self).emitted@.len() {
                        let e = k - old(self).emitted@.len();
                        assert(0 <= e < edges.len());
                        assert((self.emitted@[old(self).emitted@.len() + e]).is_edge(
                            module.id@,
                            edges[e].0.0,
                            edges[e].1,
                        ));
                        assert(old(self).emitted@.len() + e == k);
                    }
                }
                assert(self.wf());
            }
        }
    }

    /// Partitions the root scope's declared names into the module's
    /// imported and declared symbol maps — the bind kind decides — and
    /// allocates one fresh mark per name through the symbol box, in scan
    /// order. Returns the marks in scan order, for statement binding.
    fn classify_bindings(
        &mut self,
        module: &mut Module,
        declared: &Vec<(String, BindType)>,
    ) -> (marks: Vec<Mark>)
        requires
            old(self).symbol_box.next() + declared@.len() <= u64::MAX,
            old(module).imported_symbols@.len() == 0,
            old(module).declared_symbols@.len() == 0,
        ensures
            *final(self) == (Worker { symbol_box: final(self).symbol_box, ..*old(self) }),
            final(self).symbol_box.next() == old(self).symbol_box.next() + declared@.len(),
            marks@.len() == declared@.len(),
            forall|k: int|
                0 <= k < declared@.len() ==> #[trigger] marks@[k] == old(self).symbol_box.next()
                    + k,
            *final(module) == (Module {
                imported_symbols: final(module).imported_symbols,
                declared_symbols: final(module).declared_symbols,
                ..*old(module)
            }),
            sym_views(final(module).imported_symbols@) == imported_of(
                declared@,
                old(self).symbol_box.next(),
            ),
            sym_views(final(module).declared_symbols@) == declared_of(
                declared@,
                old(self).symbol_box.next(),
            ),
            final(module).marks_distinct(),
            forall|k: int|
                0 <= k < final(module).symbol_marks().len() ==> old(self).symbol_box.next() <= (
                #[trigger] final(module).symbol_marks()[k]) < final(self).symbol_box.next(),
            old(self).wf() ==> final(self).wf(),
    {
        let ghost start = self.symbol_box.next();
        proof {
            assert(declared@.take(0) =~= Seq::<(String, BindType)>::empty());
            assert(sym_views(module.imported_symbols@) =~= imported_of(declared@.take(0), start));
            assert(sym_views(module.declared_symbols@) =~= declared_of(declared@.take(0), start));
        }
        let mut marks: Vec<Mark> = Vec::new();
        let mut i: usize = 0;
        #[verifier::loop_isolation(false)]
        while i < declared.len()
            invariant
                i <= declared@.len(),
                *self == (Worker { symbol_box: self.symbol_box, ..*old(self) }),
                self.symbol_box.next() == start + i,
                marks@.len() == i,
                forall|k: int| 0 <= k < i ==> #[trigger] marks@[k] == start + k,
                *module == (Module {
                    imported_symbols: module.imported_symbols,
                    declared_symbols: module.declared_symbols,
                    ..*old(module)
                }),
                sym_views(module.imported_symbols@) == imported_of(declared@.take(i as int), start),
                sym_views(module.declared_symbols@) == declared_of(declared@.take(i as int), start),
            decreases declared@.len() - i,
        {
            proof {
                assert(declared@.take(i + 1).drop_last() =~= declared@.take(i as int));
                assert(declared@.take(i + 1).last() == declared@[i as int]);
            }
            let name = declared[i].0.clone();
            let bind_type = declared[i].1;
            let m = self.symbol_box.new_mark();
            marks.push(m);
            if BindType::Import == bind_type {
                module.imported_symbols.push((name, m));
                proof {
                    assert(sym_views(module.imported_symbols@) =~= imported_of(
                        declared@.take(i + 1),
                        start,
                    ));
                    assert(sym_views(module.declared_symbols@) == declared_of(
                        declared@.take(i + 1),
                        start,
                    ));
                }
            } else {
                module.declared_symbols.push((name, m));
                proof {
                    assert(sym_views(module.declared_symbols@) =~= declared_of(
                        declared@.take(i + 1),
                        start,
                    ));
                    assert(sym_views(module.imported_symbols@) == imported_of(
                        declared@.take(i + 1),
                        start,
                    ));
                }
            }
            i = i + 1;
        }
        proof {
            assert(declared@.take(declared@.len() as int) =~= declared@);
            lemma_classified_marks(declared@, start);
            let imp = module.imported_symbols@;
            let dec = module.declared_symbols@;
            assert forall|k: int| 0 <= k < module.symbol_marks().len() implies start <= (
            #[trigger] module.symbol_marks()[k]) < start + declared@.len() by {
                if k < imp.len() {
                    assert(module.symbol_marks()[k] == sym_views(imp)[k].1);
                    assert(sym_views(imp)[k] == imported_of(declared@, start)[k]);
                } else {
                    assert(module.symbol_marks()[k] == sym_views(dec)[k - imp.len()].1);
                    assert(sym_views(dec)[k - imp.len()] == declared_of(declared@, start)[k
                        - imp.len()]);
                }
            }
            assert forall|a: int, b: int|
                0 <= a < b < module.symbol_marks().len() implies module.symbol_marks()[a]
                != module.symbol_marks()[b] by {
                if b < imp.len() {
                    assert(module.symbol_marks()[a] == imported_of(declared@, start)[a].1);
                    assert(module.symbol_marks()[b] == imported_of(declared@, start)[b].1);
                } else if a >= imp.len() {
                    assert(module.symbol_marks()[a] == declared_of(declared@, start)[a
                        - imp.len()].1);
                    assert(module.symbol_marks()[b] == declared_of(declared@, start)[b
                        - imp.len()].1);
                } else {
                    assert(module.symbol_marks()[a] == imported_of(declared@, start)[a].1);
                    assert(module.symbol_marks()[b] == declared_of(declared@, start)[b
                        - imp.len()].1);
                }
            }
        }
        marks
    }

    /// One pass of the worker loop: claims one job and drives it through
    /// the whole pipeline — external check, load, parse, pre-scan,
    /// dependency-edge emission, binding classification, namespace
    /// allocation, statement binding, local-reference resolution, export
    /// linking — and emits the finished module. A load, parse or resolve
    /// failure is module-local: it yields a diagnostic and the worker goes
    /// on claiming; only the failing module is excluded from the graph.
    #[verifier::rlimit(100)]
    pub fn run(&mut self, sources: &SourceSet) -> (outcome: RunOutcome)
        requires
            old(self).wf(),
            forall|k: int|
                0 <= k < sources.entries@.len() ==> ((#[trigger] sources.entries@[k]).parsed
                    matches Some(pm) ==> pm.scan.wf()),
            forall|k: int|
                0 <= k < sources.entries@.len() ==> old(self).symbol_box.next() + marks_needed(
                    #[trigger] sources.entries@[k],
                ) <= u64::MAX,
        ensures
            final(self).wf(),
            final(self).resolver == old(self).resolver,
            match outcome {
                RunOutcome::Idle => {
                    &&& *final(self) == (Worker { job_queue: final(self).job_queue, ..*old(self) })
                    &&& (queue_contents(old(self).job_queue).len() == 0 && queue_contents(
                        final(self).job_queue,
                    ) == queue_contents(old(self).job_queue)) || (exists|v: (Seq<char>, bool)|
                        queue_contents(old(self).job_queue).contains(v) && set_contents(
                            old(self).processed_id,
                        ).contains(v.0) && queue_contents(final(self).job_queue) == queue_contents(
                            old(self).job_queue,
                        ).remove(v))
                },
                RunOutcome::External(s) => {
                    &&& queue_contents(old(self).job_queue).contains((s@, true))
                    &&& !set_contents(old(self).processed_id).contains(s@)
                    &&& queue_contents(final(self).job_queue) == queue_contents(
                        old(self).job_queue,
                    ).remove((s@, true))
                    &&& set_contents(final(self).processed_id) == set_contents(
                        old(self).processed_id,
                    ).insert(s@)
                    &&& *final(self) == (Worker {
                        job_queue: final(self).job_queue,
                        processed_id: final(self).processed_id,
                        ..*old(self)
                    })
                },
                RunOutcome::LoadFailed(s) => {
                    &&& queue_contents(old(self).job_queue).contains((s@, false))
                    &&& !set_contents(old(self).processed_id).contains(s@)
                    &&& first_source(sources.entries@, s@) is None
                    &&& queue_contents(final(self).job_queue) == queue_contents(
                        old(self).job_queue,
                    ).remove((s@, false))
                    &&& set_contents(final(self).processed_id) == set_contents(
                        old(self).processed_id,
                    ).insert(s@)
                    &&& final(self).diagnostics@.len() == old(self).diagnostics@.len() + 1
                    &&& forall|k: int|
                        0 <= k < old(self).diagnostics@.len() ==> #[trigger] final(self).diagnostics@[k] == old(self).diagnostics@[k]
                    &&& final(self).diagnostics@.last().module_id@ == s@
                    &&& final(self).diagnostics@.last().kind == DiagnosticKind::LoadError
                    &&& final(self).diagnostics@.last().specifier is None
                    &&& *final(self) == (Worker {
                        job_queue: final(self).job_queue,
                        processed_id: final(self).processed_id,
                        diagnostics: final(self).diagnostics,
                        ..*old(self)
                    })
                },
                RunOutcome::ParseFailed(s) => {
                    &&& queue_contents(old(self).job_queue).contains((s@, false))
                    &&& !set_contents(old(self).processed_id).contains(s@)
                    &&& first_source(sources.entries@, s@) matches Some(e) && e.parsed is None
                    &&& queue_contents(final(self).job_queue) == queue_contents(
                        old(self).job_queue,
                    ).remove((s@, false))
                    &&& set_contents(final(self).processed_id) == set_contents(
                        old(self).processed_id,
                    ).insert(s@)
                    &&& final(self).diagnostics@.len() == old(self).diagnostics@.len() + 1
                    &&& forall|k: int|
                        0 <= k < old(self).diagnostics@.len() ==> #[trigger] final(self).diagnostics@[k] == old(self).diagnostics@[k]
                    &&& final(self).diagnostics@.last().module_id@ == s@
                    &&& final(self).diagnostics@.last().kind == DiagnosticKind::ParseError
                    &&& final(self).diagnostics@.last().specifier is None
                    &&& *final(self) == (Worker {
                        job_queue: final(self).job_queue,
                        processed_id: final(self).processed_id,
                        diagnostics: final(self).diagnostics,
                        ..*old(self)
                    })
                },
                RunOutcome::Analyzed(s) => {
                    &&& queue_contents(old(self).job_queue).contains((s@, false))
                    &&& !set_contents(old(self).processed_id).contains(s@)
                    &&& first_source(sources.entries@, s@) matches Some(e) && e.parsed matches Some(
                        pm,
                    ) && run_analyzed_ok(*old(self), *final(self), s@, pm)
                },
            },
    {
        let job = self.fetch_job();
        match job {
            None => RunOutcome::Idle,
            Some(resolved_id) => {
                if resolved_id.external {
                    // External module: treated as a leaf with no body; no
                    // message is emitted in this version.
                    RunOutcome::External(resolved_id.id)
                } else {
                    let mut module = Module::new(resolved_id.id.clone());
                    match sources.find(&module.id) {
                        None => {
                            self.diagnostics.push(
                                Diagnostic {
                                    module_id: module.id,
                                    kind: DiagnosticKind::LoadError,
                                    specifier: None,
                                },
                            );
                            RunOutcome::LoadFailed(resolved_id.id)
                        },
                        Some(found) => {
                            let entry = &sources.entries[found];
                            match &entry.parsed {
                                None => {
                                    self.diagnostics.push(
                                        Diagnostic {
                                            module_id: module.id,
                                            kind: DiagnosticKind::ParseError,
                                            specifier: None,
                                        },
                                    );
                                    RunOutcome::ParseFailed(resolved_id.id)
                                },
                                Some(pm) => {
                                    let ghost start = self.symbol_box.next();
                                    let ghost n = pm.scan.declared_symbols@.len() as int;
                                    self.pre_analyze_imported_module(&module, &pm.items);
                                    self.send_dependencies(&module, &pm.items);
                                    module.local_exports = clone_string_pairs(
                                        &pm.scan.local_exports,
                                    );
                                    module.re_exports = clone_string_pairs(&pm.scan.re_exports);
                                    module.re_export_all_sources = collect_export_all_sources(
                                        &pm.items,
                                    );
                                    let marks = self.classify_bindings(
                                        &mut module,
                                        &pm.scan.declared_symbols,
                                    );
                                    let ghost mc = module;
                                    module.namespace_mark = Some(self.symbol_box.new_mark());
                                    proof {
                                        assert(marks@ =~= seq_marks(start, n));
                                        assert forall|d: int| 0 <= d < marks@.len() implies
                                            !index_contents(self.mark_to_stmt).contains_key(
                                            #[trigger] marks@[d],
                                        ) by {
                                            assert(marks@[d] >= start);
                                        }
                                    }
                                    module.set_statements(
                                        &pm.scan.statement_infos,
                                        &marks,
                                        &mut self.mark_to_stmt,
                                    );
                                    module.bind_local_references(&pm.scan.referenced_names);
                                    module.link_local_exports();
                                    proof {
                                        assert(module.symbol_marks() =~= mc.symbol_marks());
                                        assert forall|mm: Mark|
                                            module.symbol_marks().contains(mm) implies start <= mm
                                            < start + n by {
                                            let k = choose|k: int|
                                                0 <= k < module.symbol_marks().len()
                                                    && module.symbol_marks()[k] == mm;
                                            assert(mc.symbol_marks()[k] == mm);
                                            assert(start <= mc.symbol_marks()[k] < start + n);
                                        }
                                        assert forall|a: int, b: int|
                                            0 <= a < b < module.symbol_marks().len() implies
                                            module.symbol_marks()[a] != module.symbol_marks()[b]
                                            by {
                                            assert(module.symbol_marks()[a]
                                                == mc.symbol_marks()[a]);
                                            assert(module.symbol_marks()[b]
                                                == mc.symbol_marks()[b]);
                                        }
                                        assert(module.wf_symbols());
                                    }
                                    let ghost emitted_mid = self.emitted@;
                                    let ghost module_snapshot = module;
                                    self.emitted.push(Msg::NewModule(module));
                                    proof {
                                        assert(self.emitted@.last() == Msg::NewModule(
                                            module_snapshot,
                                        ));
                                        assert(self.emitted@.last().module_of()
                                            == module_snapshot);
                                        assert(analyzed_module_ok(
                                            module_snapshot,
                                            resolved_id.id@,
                                            *pm,
                                            start,
                                        ));
                                        assert(self.wf()) by {
                                            let edges = resolved_deps(
                                                old(self).resolver,
                                                module_snapshot.id@,
                                                static_deps(pm.items@),
                                            );
                                            assert forall|k: int|
                                                0 <= k < self.emitted@.len() && (
                                                #[trigger] self.emitted@[k]).is_new_module() && k
                                                    + 1 < self.emitted@.len() implies k < old(self).emitted@.len() && self.emitted@[k] == old(self).emitted@[k] by {
                                                assert(self.emitted@[k] == emitted_mid[k]);
                                                if k >= old(self).emitted@.len() {
                                                    let e = k - old(self).emitted@.len();
                                                    assert(0 <= e < edges.len());
                                                    assert((emitted_mid[old(self).emitted@.len()
                                                        + e]).is_edge(
                                                        module_snapshot.id@,
                                                        edges[e].0.0,
                                                        edges[e].1,
                                                    ));
                                                    assert(old(self).emitted@.len() + e == k);
                                                }
                                            }
                                            assert forall|k: int|
                                                0 <= k < self.emitted@.len() && (
                                                #[trigger] self.emitted@[k]).is_new_module()
                                                implies set_contents(self.processed_id).contains(
                                                self.emitted@[k].module_of().id@,
                                            ) && self.emitted@[k].module_of().wf_symbols()
                                                && self.emitted@[k].module_of().marks_below(
                                                self.symbol_box.next(),
                                            ) by {
                                                if k + 1 < self.emitted@.len() {
                                                    assert(self.emitted@[k] == old(self).emitted@[k]);
                                                }
                                            }
                                            assert forall|k1: int, k2: int|
                                                0 <= k1 < k2 < self.emitted@.len() && (
                                                #[trigger] self.emitted@[k1]).is_new_module() && (
                                                #[trigger] self.emitted@[k2]).is_new_module()
                                                implies self.emitted@[k1].module_of().id@
                                                != self.emitted@[k2].module_of().id@ by {
                                                assert(self.emitted@[k1] == old(self).emitted@[k1]);
                                                if k2 + 1 < self.emitted@.len() {
                                                    assert(self.emitted@[k2] == old(self).emitted@[k2]);
                                                } else {
                                                    assert(set_contents(
                                                        old(self).processed_id,
                                                    ).contains(
                                                        self.emitted@[k1].module_of().id@,
                                                    ));
                                                }
                                            }
                                            assert forall|k1: int, k2: int, mm: Mark|
                                                0 <= k1 < k2 < self.emitted@.len()
                                                    && self.emitted@[k1].is_new_module()
                                                    && self.emitted@[k2].is_new_module()
                                                    implies !((#[trigger] self.emitted@[
                                            k1].module_of().has_mark(mm)) && (
                                            #[trigger] self.emitted@[k2].module_of().has_mark(mm)))
                                                by {
                                                assert(self.emitted@[k1] == old(self).emitted@[k1]);
                                                if k2 + 1 < self.emitted@.len() {
                                                    assert(self.emitted@[k2] == old(self).emitted@[k2]);
                                                } else {
                                                    if self.emitted@[k1].module_of().has_mark(mm) {
                                                        assert(mm < start);
                                                        if module_snapshot.has_mark(mm) {
                                                            assert(module_snapshot.symbol_marks().contains(
                                                                mm,
                                                            ) || module_snapshot.namespace_mark
                                                                == Some(mm));
                                                            assert(false);
                                                        }
                                                    }
                                                }
                                            }
                                        }
                                    }
                                    RunOutcome::Analyzed(resolved_id.id)
                                },
                            }
                        },
                    }
                }
            },
        }
    }
}


/// The static dependency a top-level item carries, if any: the specifier
/// and the relation kind of the statement.
pub open spec fn item_dep(it: ModuleItem) -> Option<(Seq<char>, Rel)> {
    match it {
        ModuleItem::Import { specifier } => Some((specifier@, Rel::Import)),
        ModuleItem::ExportNamed { src } => match src {
            Some(s) => Some((s@, Rel::ReExportNamed)),
            None => None,
        },
        ModuleItem::ExportAll { specifier } => Some((specifier@, Rel::ReExportAll)),
        ModuleItem::OtherDecl => None,
        ModuleItem::Stmt => None,
    }
}

/// The static dependencies of a module's top-level items, in source order:
/// one per import, export-from and export-all statement.
pub open spec fn static_deps(items: Seq<ModuleItem>) -> Seq<(Seq<char>, Rel)>
    decreases items.len(),
{
    if items.len() == 0 {
        Seq::empty()
    } else {
        match item_dep(items.last()) {
            Some(d) => static_deps(items.drop_last()).push(d),
            None => static_deps(items.drop_last()),
        }
    }
}

/// The static dependencies the resolver can map, each with its target, in
/// source order.
pub open spec fn resolved_deps(
    r: Resolver,
    from: Seq<char>,
    deps: Seq<(Seq<char>, Rel)>,
) -> Seq<((Seq<char>, bool), Rel)>
    decreases deps.len(),
{
    if deps.len() == 0 {
        Seq::empty()
    } else {
        match r.resolve_spec(from, deps.last().0) {
            Some(t) => resolved_deps(r, from, deps.drop_last()).push((t, deps.last().1)),
            None => resolved_deps(r, from, deps.drop_last()),
        }
    }
}

/// The dependency specifiers the resolver cannot map, in source order.
pub open spec fn unresolved_deps(
    r: Resolver,
    from: Seq<char>,
    deps: Seq<(Seq<char>, Rel)>,
) -> Seq<Seq<char>>
    decreases deps.len(),
{
    if deps.len() == 0 {
        Seq::empty()
    } else {
        match r.resolve_spec(from, deps.last().0) {
            Some(t) => unresolved_deps(r, from, deps.drop_last()),
            None => unresolved_deps(r, from, deps.drop_last()).push(deps.last().0),
        }
    }
}

/// The module references the pre-scan pushes onto the job queue, in order.
pub open spec fn prescan_pushes(
    r: Resolver,
    from: Seq<char>,
    items: Seq<ModuleItem>,
) -> Seq<(Seq<char>, bool)> {
    resolved_deps(r, from, static_deps(items)).map_values(|p: ((Seq<char>, bool), Rel)| p.0)
}

/// A diagnostic reporting that `specifier`, found in module `from`, did not
/// resolve.
pub open spec fn diag_is_unresolved(d: Diagnostic, from: Seq<char>, specifier: Seq<char>) -> bool {
    &&& d.module_id@ == from
    &&& d.kind == DiagnosticKind::ResolveError
    &&& match d.specifier {
        Some(s) => s@ == specifier,
        None => false,
    }
}

/// Dependency completeness: when every static dependency of a module's
/// items resolves, exactly one dependency edge arises per static
/// import/export-from/export-all statement, in source order, with the
/// relation matching the statement kind.
pub proof fn lemma_dependency_completeness(r: Resolver, from: Seq<char>, deps: Seq<(Seq<char>, Rel)>)
    requires
        forall|k: int|
            0 <= k < deps.len() ==> r.resolve_spec(from, (#[trigger] deps[k]).0) is Some,
    ensures
        resolved_deps(r, from, deps).len() == deps.len(),
        forall|k: int|
            0 <= k < deps.len() ==> (#[trigger] resolved_deps(r, from, deps)[k]).1 == deps[k].1
                && Some(resolved_deps(r, from, deps)[k].0) == r.resolve_spec(from, deps[k].0),
    decreases deps.len(),
{
    if deps.len() > 0 {
        assert(deps.drop_last() =~= deps.subrange(0, deps.len() - 1));
        assert(forall|k: int|
            0 <= k < deps.drop_last().len() ==> #[trigger] deps.drop_last()[k] == deps[k]);
        lemma_dependency_completeness(r, from, deps.drop_last());
    }
}

/// Pre-scan/full-scan consistency: the references the fast path pushes onto
/// the job queue are exactly, and in the same order, the targets of the
/// dependency edges derived from the full tables — the fast path never
/// discovers a static dependency the full scan misses, nor the other way
/// round.
pub proof fn lemma_prescan_fullscan_consistency(r: Resolver, from: Seq<char>, items: Seq<ModuleItem>)
    ensures
        prescan_pushes(r, from, items).len() == resolved_deps(r, from, static_deps(items)).len(),
        forall|k: int|
            0 <= k < prescan_pushes(r, from, items).len() ==> (#[trigger] prescan_pushes(
                r,
                from,
                items,
            )[k]).0 == resolved_deps(r, from, static_deps(items))[k].0.0 && prescan_pushes(
                r,
                from,
                items,
            )[k].1 == resolved_deps(r, from, static_deps(items))[k].0.1,
{
}


/// The imported-symbols map classification yields: the names bound by
/// imports, in scan order, where the name at scan position `k` gets mark
/// `start + k`.
pub open spec fn imported_of(decls: Seq<(String, BindType)>, start: Mark) -> Seq<(Seq<char>, Mark)>
    decreases decls.len(),
{
    if decls.len() == 0 {
        Seq::empty()
    } else if decls.last().1 == BindType::Import {
        imported_of(decls.drop_last(), start).push(
            (decls.last().0@, (start + decls.len() - 1) as Mark),
        )
    } else {
        imported_of(decls.drop_last(), start)
    }
}

/// The declared-symbols map classification yields: every name not bound by
/// an import, in scan order, with the same mark assignment.
pub open spec fn declared_of(decls: Seq<(String, BindType)>, start: Mark) -> Seq<(Seq<char>, Mark)>
    decreases decls.len(),
{
    if decls.len() == 0 {
        Seq::empty()
    } else if decls.last().1 == BindType::Import {
        declared_of(decls.drop_last(), start)
    } else {
        declared_of(decls.drop_last(), start).push(
            (decls.last().0@, (start + decls.len() - 1) as Mark),
        )
    }
}

/// Marks assigned by classification are strictly increasing within each
/// map, all lie in `[start, start + decls.len())`, and the two maps never
/// share one.
pub proof fn lemma_classified_marks(decls: Seq<(String, BindType)>, start: Mark)
    requires
        start + decls.len() <= u64::MAX,
    ensures
        imported_of(decls, start).len() + declared_of(decls, start).len() == decls.len(),
        forall|a: int, b: int|
            0 <= a < b < imported_of(decls, start).len() ==> (#[trigger] imported_of(
                decls,
                start,
            )[a]).1 < (#[trigger] imported_of(decls, start)[b]).1,
        forall|k: int|
            0 <= k < imported_of(decls, start).len() ==> start <= (#[trigger] imported_of(
                decls,
                start,
            )[k]).1 < start + decls.len(),
        forall|a: int, b: int|
            0 <= a < b < declared_of(decls, start).len() ==> (#[trigger] declared_of(
                decls,
                start,
            )[a]).1 < (#[trigger] declared_of(decls, start)[b]).1,
        forall|k: int|
            0 <= k < declared_of(decls, start).len() ==> start <= (#[trigger] declared_of(
                decls,
                start,
            )[k]).1 < start + decls.len(),
        forall|k1: int, k2: int|
            0 <= k1 < imported_of(decls, start).len() && 0 <= k2 < declared_of(decls, start).len()
                ==> (#[trigger] imported_of(decls, start)[k1]).1 != (#[trigger] declared_of(
                decls,
                start,
            )[k2]).1,
    decreases decls.len(),
{
    if decls.len() > 0 {
        lemma_classified_marks(decls.drop_last(), start);
    }
}


/// The source specifiers of the `export * from` statements, in order.
pub open spec fn export_all_specs(items: Seq<ModuleItem>) -> Seq<Seq<char>>
    decreases items.len(),
{
    if items.len() == 0 {
        Seq::empty()
    } else {
        match items.last() {
            ModuleItem::ExportAll { specifier } => export_all_specs(items.drop_last()).push(
                specifier@,
            ),
            _ => export_all_specs(items.drop_last()),
        }
    }
}

/// Collects the `export * from` source specifiers of a module's items.
fn collect_export_all_sources(items: &Vec<ModuleItem>) -> (r: Vec<String>)
    ensures
        r@.len() == export_all_specs(items@).len(),
        forall|k: int|
            0 <= k < export_all_specs(items@).len() ==> (#[trigger] r@[k])@ == export_all_specs(
                items@,
            )[k],
{
    proof {
        assert(items@.take(0) =~= Seq::<ModuleItem>::empty());
    }
    let mut r: Vec<String> = Vec::new();
    let mut i: usize = 0;
    #[verifier::loop_isolation(false)]
    while i < items.len()
        invariant
            i <= items@.len(),
            r@.len() == export_all_specs(items@.take(i as int)).len(),
            forall|k: int|
                0 <= k < export_all_specs(items@.take(i as int)).len() ==> (#[trigger] r@[k])@
                    == export_all_specs(items@.take(i as int))[k],
        decreases items@.len() - i,
    {
        proof {
            assert(items@.take(i + 1).drop_last() =~= items@.take(i as int));
            assert(items@.take(i + 1).last() == items@[i as int]);
        }
        if let ModuleItem::ExportAll { specifier } = &items[i] {
            r.push(specifier.clone());
        }
        i = i + 1;
    }
    proof {
        assert(items@.take(items@.len() as int) =~= items@);
    }
    r
}

/// Copies a table of name pairs, entry by entry.
fn clone_string_pairs(v: &Vec<(String, String)>) -> (r: Vec<(String, String)>)
    ensures
        r@.len() == v@.len(),
        forall|k: int|
            0 <= k < v@.len() ==> (#[trigger] r@[k]).0@ == v@[k].0@ && r@[k].1@ == v@[k].1@,
{
    let mut r: Vec<(String, String)> = Vec::new();
    let mut i: usize = 0;
    #[verifier::loop_isolation(false)]
    while i < v.len()
        invariant
            i <= v@.len(),
            r@.len() == i,
            forall|k: int|
                0 <= k < i ==> (#[trigger] r@[k]).0@ == v@[k].0@ && r@[k].1@ == v@[k].1@,
        decreases v@.len() - i,
    {
        r.push((v[i].0.clone(), v[i].1.clone()));
        i = i + 1;
    }
    r
}

/// The marks classification assigns for `n` scanned names, in scan order.
pub open spec fn seq_marks(start: Mark, n: int) -> Seq<Mark> {
    Seq::new(n as nat, |k: int| (start + k) as Mark)
}

/// How many fresh marks analyzing this source-table entry takes: one per
/// scanned declared name, plus the namespace mark.
pub open spec fn marks_needed(e: SourceEntry) -> int {
    match e.parsed {
        Some(pm) => pm.scan.declared_symbols@.len() as int + 1,
        None => 0,
    }
}

/// What the emitted module record holds after full analysis of the parse
/// `pm` claimed under `id`, when mark allocation began at `start`.
pub open spec fn analyzed_module_ok(m: Module, id: Seq<char>, pm: ParsedModule, start: Mark) -> bool {
    let n = pm.scan.declared_symbols@.len() as int;
    &&& m.id@ == id
    &&& sym_views(m.imported_symbols@) == imported_of(pm.scan.declared_symbols@, start)
    &&& sym_views(m.declared_symbols@) == declared_of(pm.scan.declared_symbols@, start)
    &&& m.namespace_mark == Some((start + n) as Mark)
    &&& m.wf_symbols()
    &&& m.local_exports@.len() == pm.scan.local_exports@.len()
    &&& forall|k: int|
        0 <= k < pm.scan.local_exports@.len() ==> (#[trigger] m.local_exports@[k]).0@
            == pm.scan.local_exports@[k].0@ && m.local_exports@[k].1@
            == pm.scan.local_exports@[k].1@
    &&& m.re_exports@.len() == pm.scan.re_exports@.len()
    &&& forall|k: int|
        0 <= k < pm.scan.re_exports@.len() ==> (#[trigger] m.re_exports@[k]).0@
            == pm.scan.re_exports@[k].0@ && m.re_exports@[k].1@ == pm.scan.re_exports@[k].1@
    &&& m.re_export_all_sources@.len() == export_all_specs(pm.items@).len()
    &&& forall|k: int|
        0 <= k < export_all_specs(pm.items@).len() ==> (#[trigger] m.re_export_all_sources@[k])@
            == export_all_specs(pm.items@)[k]
    &&& m.statements@.len() == pm.scan.statement_infos@.len()
    &&& forall|i: int|
        0 <= i < pm.scan.statement_infos@.len() ==> (#[trigger] m.statements@[i]).declared_marks@.len()
            == pm.scan.statement_infos@[i].declared@.len()
    &&& forall|i: int, j: int|
        0 <= i < pm.scan.statement_infos@.len() && 0 <= j
            < pm.scan.statement_infos@[i].declared@.len()
            ==> #[trigger] m.statements@[i].declared_marks@[j] == stmt_key(
            pm.scan.statement_infos@,
            seq_marks(start, n),
            i,
            j,
        )
    &&& m.linked_exports@.len() == m.local_exports@.len()
    &&& forall|k: int|
        0 <= k < m.local_exports@.len() ==> (#[trigger] m.linked_exports@[k]).0@
            == m.local_exports@[k].0@ && m.linked_exports@[k].1 == local_mark_of(
            m.declared_symbols@,
            m.imported_symbols@,
            m.local_exports@[k].1@,
        )
    &&& m.local_bindings@.len() == pm.scan.referenced_names@.len()
    &&& forall|k: int|
        0 <= k < pm.scan.referenced_names@.len() ==> (#[trigger] m.local_bindings@[k]).0@
            == pm.scan.referenced_names@[k]@ && m.local_bindings@[k].1 == local_mark_of(
            m.declared_symbols@,
            m.imported_symbols@,
            pm.scan.referenced_names@[k]@,
        )
}

/// Everything one fully analyzed claim changes, from worker state `pre` to
/// `post`: the claim itself, the pre-scan pushes, the dependency edges and
/// resolve diagnostics, the allocation window, the statement-index entries,
/// and the final `NewModule` message.
pub open spec fn run_analyzed_ok(pre: Worker, post: Worker, id: Seq<char>, pm: ParsedModule) -> bool {
    let start = pre.symbol_box.next();
    let n = pm.scan.declared_symbols@.len() as int;
    let edges = resolved_deps(pre.resolver, id, static_deps(pm.items@));
    let misses = unresolved_deps(pre.resolver, id, static_deps(pm.items@));
    &&& post.resolver == pre.resolver
    &&& queue_contents(post.job_queue) == queue_contents(pre.job_queue).remove((id, false)).add(
        prescan_pushes(pre.resolver, id, pm.items@).to_multiset(),
    )
    &&& set_contents(post.processed_id) == set_contents(pre.processed_id).insert(id)
    &&& post.symbol_box.next() == start + n + 1
    &&& post.emitted@.len() == pre.emitted@.len() + edges.len() + 1
    &&& forall|k: int|
        0 <= k < pre.emitted@.len() ==> #[trigger] post.emitted@[k] == pre.emitted@[k]
    &&& forall|e: int|
        0 <= e < edges.len() ==> (#[trigger] post.emitted@[pre.emitted@.len() + e]).is_edge(
            id,
            edges[e].0.0,
            edges[e].1,
        )
    &&& post.emitted@.last().is_new_module()
    &&& analyzed_module_ok(post.emitted@.last().module_of(), id, pm, start)
    &&& post.diagnostics@.len() == pre.diagnostics@.len() + misses.len()
    &&& forall|k: int|
        0 <= k < pre.diagnostics@.len() ==> #[trigger] post.diagnostics@[k]
            == pre.diagnostics@[k]
    &&& forall|e: int|
        0 <= e < misses.len() ==> diag_is_unresolved(
            #[trigger] post.diagnostics@[pre.diagnostics@.len() + e],
            id,
            misses[e],
        )
    &&& forall|k: Mark|
        index_contents(pre.mark_to_stmt).contains_key(k) ==> #[trigger] index_contents(
            post.mark_to_stmt,
        ).contains_key(k) && index_contents(post.mark_to_stmt)[k] == index_contents(
            pre.mark_to_stmt,
        )[k]
    &&& forall|k: Mark|
        #[trigger] index_contents(post.mark_to_stmt).contains_key(k) ==> index_contents(
            pre.mark_to_stmt,
        ).contains_key(k) || seq_marks(start, n).contains(k)
    &&& forall|i: int, j: int|
        0 <= i < pm.scan.statement_infos@.len() && 0 <= j
            < pm.scan.statement_infos@[i].declared@.len() ==> #[trigger] stmt_recorded(
            index_contents(post.mark_to_stmt),
            pm.scan.statement_infos@,
            seq_marks(start, n),
            id,
            i,
            j,
        )
}


/// What one pass of the claim loop did, naming the module id it claimed.
pub enum RunOutcome {
    /// Nothing claimed: the queue was empty, or the popped reference was a
    /// duplicate and was silently dropped — the caller retries.
    Idle,
    /// The claimed module is external: analysis is skipped entirely and no
    /// message is emitted.
    External(String),
    /// The claimed module's source could not be read; a module-local
    /// diagnostic was recorded.
    LoadFailed(String),
    /// The claimed module's source does not parse; a module-local
    /// diagnostic was recorded.
    ParseFailed(String),
    /// The claimed module was fully analyzed and emitted.
    Analyzed(String),
}

/// At-most-once analysis: in a well-formed worker state, no module id is
/// carried by two `NewModule` messages — two log positions bearing the same
/// analyzed module id are the same position, however many times the id was
/// pushed onto the job queue.
pub proof fn lemma_at_most_once(w: Worker, k1: int, k2: int)
    requires
        w.wf(),
        0 <= k1 < w.emitted@.len(),
        0 <= k2 < w.emitted@.len(),
        w.emitted@[k1].is_new_module(),
        w.emitted@[k2].is_new_module(),
        w.emitted@[k1].module_of().id@ == w.emitted@[k2].module_of().id@,
    ensures
        k1 == k2,
{
}


/// Exactly-once emission: after a claim ends in full analysis, the log holds
/// exactly one `NewModule` message bearing the claimed id — the one the
/// claim appended — however many times the id was pushed onto the queue.
pub proof fn lemma_exactly_once(pre: Worker, post: Worker, id: Seq<char>, pm: ParsedModule)
    requires
        post.wf(),
        run_analyzed_ok(pre, post, id, pm),
    ensures
        post.emitted@.last().is_new_module(),
        post.emitted@.last().module_of().id@ == id,
        forall|k: int|
            0 <= k < post.emitted@.len() - 1 ==> !((#[trigger] post.emitted@[k]).is_new_module()
                && post.emitted@[k].module_of().id@ == id),
{
    assert forall|k: int|
        0 <= k < post.emitted@.len() - 1 implies !((#[trigger] post.emitted@[k]).is_new_module()
            && post.emitted@[k].module_of().id@ == id) by {
        if post.emitted@[k].is_new_module() && post.emitted@[k].module_of().id@ == id {
            lemma_at_most_once(post, k, post.emitted@.len() - 1);
        }
    }
}

/// Mark uniqueness across emitted modules: in a well-formed worker state, a
/// symbol mark used by two emitted modules belongs to one module only.
pub proof fn lemma_emitted_marks_disjoint(w: Worker, k1: int, k2: int, m: Mark)
    requires
        w.wf(),
        0 <= k1 < w.emitted@.len(),
        0 <= k2 < w.emitted@.len(),
        k1 != k2,
        w.emitted@[k1].is_new_module(),
        w.emitted@[k2].is_new_module(),
        w.emitted@[k1].module_of().has_mark(m),
    ensures
        !w.emitted@[k2].module_of().has_mark(m),
{
}

} // verus!
