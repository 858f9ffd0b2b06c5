//! Tests of the two-stage coordinator that need no file system.

use ms2cc::pipeline::{PipelineConfig, PipelineCoordinator};
use ms2cc::Ms2ccError;

fn make_coordinator(log_lines: Vec<String>) -> PipelineCoordinator {
    PipelineCoordinator::new(PipelineConfig {
        source_directory: "/src".to_string(),
        exclude_directories: Vec::new(),
        file_extensions: vec!["cpp".to_string()],
        compiler_executable: "cl.exe".to_string(),
        log_path: "msbuild.log".to_string(),
        log_lines,
        max_threads: 2,
    })
}

#[test]
fn lookup_stage_builds_index_and_collects_errors() {
    let coordinator = make_coordinator(Vec::new());
    let entries = vec![
        Ok("/src/main.cpp".to_string()),
        Err(Ms2ccError::io_error("denied".to_string(), "/src/locked".to_string())),
        Ok("/other/util.cpp".to_string()),
        Ok("/src2/MAIN.CPP".to_string()),
    ];

    let lookup = coordinator.build_lookup_tree(entries);
    assert_eq!(lookup.errors.len(), 1);
    assert!(matches!(lookup.errors[0], Ms2ccError::Io { .. }));
    // main.cpp was seen under two parents, so it is ambiguous now.
    assert_eq!(lookup.file_index.lookup(&"main.cpp".to_string()), None);
    assert_eq!(
        lookup.file_index.lookup(&"util.cpp".to_string()),
        Some("/other".to_string())
    );
}

#[test]
fn lookup_stage_lowercases_with_unicode_semantics() {
    let coordinator = make_coordinator(Vec::new());
    let lookup = coordinator.build_lookup_tree(vec![Ok("/SRC/Файл.CPP".to_string())]);
    assert!(lookup.errors.is_empty());
    assert_eq!(
        lookup.file_index.lookup(&"файл.cpp".to_string()),
        Some("/src".to_string())
    );
}

#[test]
fn pipeline_collects_errors_from_database_stage() {
    let mut coordinator = make_coordinator(vec!["cl.exe /c missing.cpp".to_string()]);

    let lookup = coordinator.build_lookup_tree(vec![Ok("/src/main.cpp".to_string())]);
    assert!(lookup.errors.is_empty());

    let database = coordinator.generate_compile_commands(&lookup.file_index);
    assert!(database.compile_commands.is_empty());
    assert!(
        database
            .errors
            .iter()
            .any(|error| matches!(error, Ms2ccError::MissingFoArgument { .. })),
        "expected missing /Fo argument error, found {:?}",
        database.errors
    );
}

#[test]
fn database_stage_reports_unexpected_lines() {
    let mut coordinator =
        make_coordinator(vec!["cl.exe /c".to_string(), "cl.exe /nologo".to_string()]);

    let lookup = coordinator.build_lookup_tree(Vec::new());
    let database = coordinator.generate_compile_commands(&lookup.file_index);
    assert!(database.compile_commands.is_empty());
    assert_eq!(database.errors.len(), 1);
    assert!(matches!(database.errors[0], Ms2ccError::UnexpectedLine { .. }));
}
