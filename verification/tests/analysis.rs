//! Unit-level behavior: the symbol box, claim deduplication, binding
//! classification, statement indexing and export linking.

use module_graph::ast::ModuleItem;
use module_graph::graph::Msg;
use module_graph::scanner::{BindType, ScanOutput, StatementInfo};
use module_graph::shared::{index_get, processed_len};
use module_graph::symbol_box::SymbolBox;
use module_graph::types::{ResolvedId, Resolver};
use module_graph::worker::{ParsedModule, RunOutcome, SourceEntry, SourceSet, Worker};

fn internal(id: &str) -> ResolvedId {
    ResolvedId { id: String::from(id), external: false }
}

#[test]
fn symbol_box_issues_increasing_marks() {
    let mut symbol_box = SymbolBox::new();
    let m0 = symbol_box.new_mark();
    let m1 = symbol_box.new_mark();
    let m2 = symbol_box.new_mark();
    assert_eq!(m0, 0);
    assert_eq!(m1, 1);
    assert_eq!(m2, 2);
    assert!(m0 != m1 && m1 != m2 && m0 != m2);
}

#[test]
fn duplicate_pushes_claim_once() {
    let mut worker = Worker::new(Resolver { entries: Vec::new() });
    worker.seed(internal("a"));
    worker.seed(internal("a"));
    worker.seed(internal("a"));
    let first = worker.fetch_job();
    assert!(first.is_some());
    assert_eq!(first.unwrap().id, "a");
    // All later pops of the same id are dropped.
    assert!(worker.fetch_job().is_none());
    assert!(worker.fetch_job().is_none());
    assert!(worker.fetch_job().is_none());
    assert_eq!(processed_len(&worker.processed_id), 1);
}

fn one_module_sources() -> SourceSet {
    SourceSet {
        entries: vec![SourceEntry {
            id: String::from("a"),
            parsed: Some(ParsedModule {
                items: vec![ModuleItem::Stmt, ModuleItem::Stmt],
                scan: ScanOutput {
                    declared_symbols: vec![
                        (String::from("x"), BindType::Declaration),
                        (String::from("imp"), BindType::Import),
                        (String::from("y"), BindType::Declaration),
                    ],
                    local_exports: vec![
                        (String::from("default"), String::from("x")),
                        (String::from("gone"), String::from("z")),
                    ],
                    re_exports: vec![(String::from("r"), String::from("b"))],
                    referenced_names: vec![
                        String::from("y"),
                        String::from("imp"),
                        String::from("undeclared"),
                    ],
                    statement_infos: vec![
                        StatementInfo { declared: vec![0, 1] },
                        StatementInfo { declared: vec![2] },
                    ],
                },
            }),
        }],
    }
}

#[test]
fn classification_partitions_by_bind_kind() {
    let mut worker = Worker::new(Resolver { entries: Vec::new() });
    worker.seed(internal("a"));
    assert!(matches!(worker.run(&one_module_sources()), RunOutcome::Analyzed(id) if id == "a"));
    let module = match worker.emitted.last().unwrap() {
        Msg::NewModule(module) => module,
        _ => panic!("expected a module record"),
    };
    // Marks are issued in scan order: x -> 0, imp -> 1, y -> 2.
    assert_eq!(module.declared_symbols, vec![(String::from("x"), 0), (String::from("y"), 2)]);
    assert_eq!(module.imported_symbols, vec![(String::from("imp"), 1)]);
}

#[test]
fn namespace_mark_is_fresh() {
    let mut worker = Worker::new(Resolver { entries: Vec::new() });
    worker.seed(internal("a"));
    assert!(matches!(worker.run(&one_module_sources()), RunOutcome::Analyzed(_)));
    let module = match worker.emitted.last().unwrap() {
        Msg::NewModule(module) => module,
        _ => panic!("expected a module record"),
    };
    // Exactly one namespace mark, allocated after the three bindings.
    let namespace = module.namespace_mark.unwrap();
    assert_eq!(namespace, 3);
    for (_, mark) in module.declared_symbols.iter().chain(module.imported_symbols.iter()) {
        assert!(*mark != namespace);
    }
}

#[test]
fn statement_index_records_declaring_statement() {
    let mut worker = Worker::new(Resolver { entries: Vec::new() });
    worker.seed(internal("a"));
    assert!(matches!(worker.run(&one_module_sources()), RunOutcome::Analyzed(_)));
    // x and imp are declared by statement 0, y by statement 1.
    assert_eq!(index_get(&worker.mark_to_stmt, 0), Some((String::from("a"), 0)));
    assert_eq!(index_get(&worker.mark_to_stmt, 1), Some((String::from("a"), 0)));
    assert_eq!(index_get(&worker.mark_to_stmt, 2), Some((String::from("a"), 1)));
    // The namespace mark declares no statement.
    assert_eq!(index_get(&worker.mark_to_stmt, 3), None);
    let module = match worker.emitted.last().unwrap() {
        Msg::NewModule(module) => module,
        _ => panic!("expected a module record"),
    };
    assert_eq!(module.statements.len(), 2);
    assert_eq!(module.statements[0].declared_marks, vec![0, 1]);
    assert_eq!(module.statements[1].declared_marks, vec![2]);
}

#[test]
fn exports_and_references_link_to_marks() {
    let mut worker = Worker::new(Resolver { entries: Vec::new() });
    worker.seed(internal("a"));
    assert!(matches!(worker.run(&one_module_sources()), RunOutcome::Analyzed(_)));
    let module = match worker.emitted.last().unwrap() {
        Msg::NewModule(module) => module,
        _ => panic!("expected a module record"),
    };
    // "default" exports x (mark 0); "gone" exports an unknown local name.
    assert_eq!(
        module.linked_exports,
        vec![(String::from("default"), Some(0)), (String::from("gone"), None)]
    );
    // References link to declarations and imports; unknown names stay open.
    assert_eq!(
        module.local_bindings,
        vec![
            (String::from("y"), Some(2)),
            (String::from("imp"), Some(1)),
            (String::from("undeclared"), None),
        ]
    );
    assert_eq!(module.re_exports, vec![(String::from("r"), String::from("b"))]);
    assert_eq!(module.local_exports.len(), 2);
}

#[test]
fn marks_stay_unique_across_modules() {
    // Two modules analyzed in one run share no mark.
    let resolver = Resolver {
        entries: vec![module_graph::types::ResolverEntry {
            importer: String::from("a"),
            specifier: String::from("b"),
            resolved: ResolvedId { id: String::from("b"), external: false },
        }],
    };
    let sources = SourceSet {
        entries: vec![
            SourceEntry {
                id: String::from("a"),
                parsed: Some(ParsedModule {
                    items: vec![ModuleItem::Import { specifier: String::from("b") }],
                    scan: ScanOutput {
                        declared_symbols: vec![(String::from("p"), BindType::Declaration)],
                        local_exports: Vec::new(),
                        re_exports: Vec::new(),
                        referenced_names: Vec::new(),
                        statement_infos: Vec::new(),
                    },
                }),
            },
            SourceEntry {
                id: String::from("b"),
                parsed: Some(ParsedModule {
                    items: Vec::new(),
                    scan: ScanOutput {
                        declared_symbols: vec![(String::from("q"), BindType::Declaration)],
                        local_exports: Vec::new(),
                        re_exports: Vec::new(),
                        referenced_names: Vec::new(),
                        statement_infos: Vec::new(),
                    },
                }),
            },
        ],
    };
    let mut worker = Worker::new(resolver);
    worker.seed(internal("a"));
    assert!(matches!(worker.run(&sources), RunOutcome::Analyzed(_)));
    assert!(matches!(worker.run(&sources), RunOutcome::Analyzed(_)));
    let mut all_marks: Vec<u64> = Vec::new();
    for msg in &worker.emitted {
        if let Msg::NewModule(module) = msg {
            for (_, mark) in module.declared_symbols.iter().chain(module.imported_symbols.iter()) {
                all_marks.push(*mark);
            }
            all_marks.push(module.namespace_mark.unwrap());
        }
    }
    let before = all_marks.len();
    all_marks.sort();
    all_marks.dedup();
    assert_eq!(all_marks.len(), before);
    assert_eq!(before, 4);
}
