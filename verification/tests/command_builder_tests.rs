//! Tests of the command resolver on inputs that need no file system.

use ms2cc::resolve::CommandBuilder;
use ms2cc::FileIndex;
use ms2cc::Ms2ccError;

#[test]
fn reports_missing_tokens() {
    let index = FileIndex::new();
    let builder = CommandBuilder::new(&index);

    let results = builder.build(Vec::new());
    assert_eq!(results.len(), 1);
    assert!(matches!(results[0], Err(Ms2ccError::EmptyTokenVector)));
}

#[test]
fn reports_missing_trailing_file() {
    let index = FileIndex::new();
    let builder = CommandBuilder::new(&index);

    let results = builder.build(vec!["cl.exe".to_string(), "/c".to_string()]);
    assert_eq!(results.len(), 1);
    assert!(matches!(results[0], Err(Ms2ccError::MissingTrailingFile { .. })));
}

#[test]
fn reports_missing_fo_argument() {
    let index = FileIndex::new();
    let builder = CommandBuilder::new(&index);

    let results = builder.build(vec![
        "cl.exe".to_string(),
        "/c".to_string(),
        "missing.cpp".to_string(),
    ]);
    assert_eq!(results.len(), 1);
    assert!(matches!(results[0], Err(Ms2ccError::MissingFoArgument { .. })));
}

#[test]
fn reports_unresolved_source_path() {
    let index = FileIndex::new();
    let builder = CommandBuilder::new(&index);

    let results = builder.build(vec![
        "cl.exe".to_string(),
        "/c".to_string(),
        "/FoC:/nonexistent/out/".to_string(),
        "missing.cpp".to_string(),
    ]);
    assert_eq!(results.len(), 1);
    assert!(matches!(
        results[0],
        Err(Ms2ccError::UnresolvedSourcePath { ref file, .. }) if file == "missing.cpp"
    ));
}
