//! End-to-end claim-loop scenarios over small module graphs.

use module_graph::ast::ModuleItem;
use module_graph::graph::{Msg, Rel};
use module_graph::scanner::ScanOutput;
use module_graph::shared::processed_len;
use module_graph::types::{DiagnosticKind, ResolvedId, Resolver, ResolverEntry};
use module_graph::worker::{ParsedModule, RunOutcome, SourceEntry, SourceSet, Worker};

fn empty_scan() -> ScanOutput {
    ScanOutput {
        declared_symbols: Vec::new(),
        local_exports: Vec::new(),
        re_exports: Vec::new(),
        referenced_names: Vec::new(),
        statement_infos: Vec::new(),
    }
}

fn resolver_edge(importer: &str, specifier: &str, target: &str) -> ResolverEntry {
    ResolverEntry {
        importer: String::from(importer),
        specifier: String::from(specifier),
        resolved: ResolvedId { id: String::from(target), external: false },
    }
}

fn internal(id: &str) -> ResolvedId {
    ResolvedId { id: String::from(id), external: false }
}

fn count_new_modules(msgs: &[Msg], id: &str) -> usize {
    msgs.iter()
        .filter(|m| match m {
            Msg::NewModule(module) => module.id == id,
            _ => false,
        })
        .count()
}

fn count_edges(msgs: &[Msg], from: &str, to: &str, rel: Rel) -> usize {
    msgs.iter()
        .filter(|m| match m {
            Msg::DependencyReference(f, t, r) => f == from && t == to && *r == rel,
            _ => false,
        })
        .count()
}

#[test]
fn entry_imports_leaf() {
    // a imports b; b has no imports.
    let resolver = Resolver { entries: vec![resolver_edge("a", "b", "b")] };
    let sources = SourceSet {
        entries: vec![
            SourceEntry {
                id: String::from("a"),
                parsed: Some(ParsedModule {
                    items: vec![ModuleItem::Import { specifier: String::from("b") }],
                    scan: empty_scan(),
                }),
            },
            SourceEntry {
                id: String::from("b"),
                parsed: Some(ParsedModule { items: Vec::new(), scan: empty_scan() }),
            },
        ],
    };
    let mut worker = Worker::new(resolver);
    worker.seed(internal("a"));
    assert!(matches!(worker.run(&sources), RunOutcome::Analyzed(id) if id == "a"));
    assert!(matches!(worker.run(&sources), RunOutcome::Analyzed(id) if id == "b"));
    assert!(matches!(worker.run(&sources), RunOutcome::Idle));

    assert_eq!(count_new_modules(&worker.emitted, "a"), 1);
    assert_eq!(count_new_modules(&worker.emitted, "b"), 1);
    assert_eq!(count_edges(&worker.emitted, "a", "b", Rel::Import), 1);
    assert_eq!(worker.emitted.len(), 3);
    assert_eq!(processed_len(&worker.processed_id), 2);
    assert!(worker.diagnostics.is_empty());
}

#[test]
fn import_cycle_terminates() {
    // a imports b, b imports a: both processed exactly once, no deadlock.
    let resolver = Resolver {
        entries: vec![resolver_edge("a", "b", "b"), resolver_edge("b", "a", "a")],
    };
    let sources = SourceSet {
        entries: vec![
            SourceEntry {
                id: String::from("a"),
                parsed: Some(ParsedModule {
                    items: vec![ModuleItem::Import { specifier: String::from("b") }],
                    scan: empty_scan(),
                }),
            },
            SourceEntry {
                id: String::from("b"),
                parsed: Some(ParsedModule {
                    items: vec![ModuleItem::Import { specifier: String::from("a") }],
                    scan: empty_scan(),
                }),
            },
        ],
    };
    let mut worker = Worker::new(resolver);
    worker.seed(internal("a"));
    let mut analyzed = 0;
    let mut passes = 0;
    loop {
        passes += 1;
        assert!(passes <= 10, "claim loop failed to quiesce");
        match worker.run(&sources) {
            RunOutcome::Analyzed(_) => analyzed += 1,
            RunOutcome::Idle => {
                // Idle may mean a dropped duplicate; one more Idle with no
                // change means the queue is drained.
                if matches!(worker.run(&sources), RunOutcome::Idle) {
                    break;
                }
            }
            other => panic!("unexpected outcome: {:?}", outcome_name(&other)),
        }
    }
    assert_eq!(analyzed, 2);
    assert_eq!(count_new_modules(&worker.emitted, "a"), 1);
    assert_eq!(count_new_modules(&worker.emitted, "b"), 1);
    assert_eq!(count_edges(&worker.emitted, "a", "b", Rel::Import), 1);
    assert_eq!(count_edges(&worker.emitted, "b", "a", Rel::Import), 1);
    assert_eq!(processed_len(&worker.processed_id), 2);
}

fn outcome_name(outcome: &RunOutcome) -> &'static str {
    match outcome {
        RunOutcome::Idle => "Idle",
        RunOutcome::External(_) => "External",
        RunOutcome::LoadFailed(_) => "LoadFailed",
        RunOutcome::ParseFailed(_) => "ParseFailed",
        RunOutcome::Analyzed(_) => "Analyzed",
    }
}

#[test]
fn export_all_with_parse_failure() {
    // a has `export * from "b"`, b fails to parse: the edge and NewModule(a)
    // are still emitted, no NewModule for b, and a diagnostic names b.
    let resolver = Resolver { entries: vec![resolver_edge("a", "b", "b")] };
    let sources = SourceSet {
        entries: vec![
            SourceEntry {
                id: String::from("a"),
                parsed: Some(ParsedModule {
                    items: vec![ModuleItem::ExportAll { specifier: String::from("b") }],
                    scan: empty_scan(),
                }),
            },
            SourceEntry { id: String::from("b"), parsed: None },
        ],
    };
    let mut worker = Worker::new(resolver);
    worker.seed(internal("a"));
    assert!(matches!(worker.run(&sources), RunOutcome::Analyzed(id) if id == "a"));
    assert!(matches!(worker.run(&sources), RunOutcome::ParseFailed(id) if id == "b"));
    assert!(matches!(worker.run(&sources), RunOutcome::Idle));

    assert_eq!(count_edges(&worker.emitted, "a", "b", Rel::ReExportAll), 1);
    assert_eq!(count_new_modules(&worker.emitted, "a"), 1);
    assert_eq!(count_new_modules(&worker.emitted, "b"), 0);
    assert_eq!(worker.diagnostics.len(), 1);
    assert_eq!(worker.diagnostics[0].module_id, "b");
    assert_eq!(worker.diagnostics[0].kind, DiagnosticKind::ParseError);
}

#[test]
fn load_failure_is_module_local() {
    // a imports missing module m: m yields a LoadError diagnostic, a is
    // still analyzed, and the worker keeps claiming.
    let resolver = Resolver { entries: vec![resolver_edge("a", "m", "m")] };
    let sources = SourceSet {
        entries: vec![SourceEntry {
            id: String::from("a"),
            parsed: Some(ParsedModule {
                items: vec![ModuleItem::Import { specifier: String::from("m") }],
                scan: empty_scan(),
            }),
        }],
    };
    let mut worker = Worker::new(resolver);
    worker.seed(internal("a"));
    assert!(matches!(worker.run(&sources), RunOutcome::Analyzed(id) if id == "a"));
    assert!(matches!(worker.run(&sources), RunOutcome::LoadFailed(id) if id == "m"));
    assert_eq!(count_new_modules(&worker.emitted, "a"), 1);
    assert_eq!(count_edges(&worker.emitted, "a", "m", Rel::Import), 1);
    assert_eq!(worker.diagnostics.len(), 1);
    assert_eq!(worker.diagnostics[0].module_id, "m");
    assert_eq!(worker.diagnostics[0].kind, DiagnosticKind::LoadError);
}

#[test]
fn unresolvable_specifier_yields_diagnostic() {
    // A specifier outside the resolver table yields no edge and a
    // ResolveError diagnostic carrying the specifier.
    let resolver = Resolver { entries: Vec::new() };
    let sources = SourceSet {
        entries: vec![SourceEntry {
            id: String::from("a"),
            parsed: Some(ParsedModule {
                items: vec![ModuleItem::Import { specifier: String::from("ghost-pkg") }],
                scan: empty_scan(),
            }),
        }],
    };
    let mut worker = Worker::new(resolver);
    worker.seed(internal("a"));
    assert!(matches!(worker.run(&sources), RunOutcome::Analyzed(id) if id == "a"));
    assert_eq!(count_new_modules(&worker.emitted, "a"), 1);
    assert_eq!(worker.emitted.len(), 1);
    assert_eq!(worker.diagnostics.len(), 1);
    assert_eq!(worker.diagnostics[0].module_id, "a");
    assert_eq!(worker.diagnostics[0].kind, DiagnosticKind::ResolveError);
    assert_eq!(worker.diagnostics[0].specifier.as_deref(), Some("ghost-pkg"));
}

#[test]
fn external_module_is_skipped() {
    let resolver = Resolver { entries: Vec::new() };
    let sources = SourceSet { entries: Vec::new() };
    let mut worker = Worker::new(resolver);
    worker.seed(ResolvedId { id: String::from("os"), external: true });
    assert!(matches!(worker.run(&sources), RunOutcome::External(id) if id == "os"));
    assert!(worker.emitted.is_empty());
    assert!(worker.diagnostics.is_empty());
    assert_eq!(processed_len(&worker.processed_id), 1);
}

#[test]
fn dependency_count_matches_statements() {
    // One edge per static statement, relation matching the statement kind;
    // duplicates across statements are not merged.
    let resolver = Resolver {
        entries: vec![
            resolver_edge("a", "b", "b"),
            resolver_edge("a", "c", "c"),
        ],
    };
    let sources = SourceSet {
        entries: vec![
            SourceEntry {
                id: String::from("a"),
                parsed: Some(ParsedModule {
                    items: vec![
                        ModuleItem::Import { specifier: String::from("b") },
                        ModuleItem::Stmt,
                        ModuleItem::ExportNamed { src: Some(String::from("c")) },
                        ModuleItem::ExportNamed { src: None },
                        ModuleItem::ExportAll { specifier: String::from("b") },
                        ModuleItem::Import { specifier: String::from("b") },
                        ModuleItem::OtherDecl,
                    ],
                    scan: empty_scan(),
                }),
            },
            SourceEntry {
                id: String::from("b"),
                parsed: Some(ParsedModule { items: Vec::new(), scan: empty_scan() }),
            },
            SourceEntry {
                id: String::from("c"),
                parsed: Some(ParsedModule { items: Vec::new(), scan: empty_scan() }),
            },
        ],
    };
    let mut worker = Worker::new(resolver);
    worker.seed(internal("a"));
    assert!(matches!(worker.run(&sources), RunOutcome::Analyzed(id) if id == "a"));
    let edges: Vec<&Msg> = worker
        .emitted
        .iter()
        .filter(|m| matches!(m, Msg::DependencyReference(..)))
        .collect();
    assert_eq!(edges.len(), 4);
    assert_eq!(count_edges(&worker.emitted, "a", "b", Rel::Import), 2);
    assert_eq!(count_edges(&worker.emitted, "a", "c", Rel::ReExportNamed), 1);
    assert_eq!(count_edges(&worker.emitted, "a", "b", Rel::ReExportAll), 1);
    // The module record lists the export-all source.
    match worker.emitted.last().unwrap() {
        Msg::NewModule(module) => {
            assert_eq!(module.id, "a");
            assert_eq!(module.re_export_all_sources, vec![String::from("b")]);
        }
        _ => panic!("last message must be the module record"),
    }
}
