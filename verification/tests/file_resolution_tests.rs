//! Tests of resolution against a real directory tree, end to end.

use ms2cc::pipeline::{PipelineConfig, PipelineCoordinator};
use ms2cc::resolve::CommandBuilder;
use ms2cc::FileIndex;
use tempfile::{Builder, NamedTempFile, TempDir};

/// A directory with exactly the given name, inside `parent`.
fn named_dir(parent: &std::path::Path, name: &str) -> TempDir {
    Builder::new()
        .prefix(name)
        .rand_bytes(0)
        .tempdir_in(parent)
        .expect("create test dir")
}

/// A file with exactly the given name, inside `dir`.
fn named_file(dir: &std::path::Path, name: &str) -> NamedTempFile {
    Builder::new()
        .prefix(name)
        .suffix("")
        .rand_bytes(0)
        .tempfile_in(dir)
        .expect("create source file")
}

#[test]
fn processes_multiple_trailing_files() {
    let dir = named_dir(std::path::Path::new("/tmp"), "ms2cc_multi_trailing");
    let files = ["main.cpp", "foo.cpp", "bar.cpp"];

    let mut index = FileIndex::new();
    let mut handles: Vec<NamedTempFile> = Vec::new();
    for file in &files {
        handles.push(named_file(dir.path(), file));
        index.record(file.to_string(), dir.path().to_str().unwrap().to_string());
    }

    let builder = CommandBuilder::new(&index);

    let mut command = vec!["cl.exe".to_string(), "/c".to_string(), "/DDEBUG".to_string()];
    command.extend(files.iter().map(|file| file.to_string()));

    let results = builder.build(command.clone());
    assert_eq!(results.len(), files.len());

    for (result, file) in results.iter().zip(files.iter()) {
        match result {
            Ok(cmd) => {
                assert_eq!(cmd.directory, dir.path().to_str().unwrap());
                assert_eq!(cmd.file, *file);
                assert_eq!(cmd.arguments, command);
            },
            Err(err) => panic!("Unexpected error: {err:?}"),
        }
    }
}

#[test]
fn end_to_end_single_record() {
    let root = named_dir(std::path::Path::new("/tmp"), "ms2cc_end_to_end");
    let src = named_dir(root.path(), "src");
    let _main = named_file(src.path(), "main.cpp");

    // Stage one consumes what the walker would emit: the lower-cased
    // absolute paths of the allowed files under the root.
    let walked = vec![Ok(src.path().join("main.cpp").to_str().unwrap().to_lowercase())];

    let mut coordinator = PipelineCoordinator::new(PipelineConfig {
        source_directory: root.path().to_str().unwrap().to_string(),
        exclude_directories: Vec::new(),
        file_extensions: vec!["cpp".to_string()],
        compiler_executable: "cl.exe".to_string(),
        log_path: "msbuild.log".to_string(),
        log_lines: vec!["cl.exe /c main.cpp".to_string()],
        max_threads: 2,
    });

    let lookup = coordinator.build_lookup_tree(walked);
    assert!(lookup.errors.is_empty());
    assert_eq!(lookup.file_index.len(), 1);

    let database = coordinator.generate_compile_commands(&lookup.file_index);
    assert!(database.errors.is_empty(), "errors: {:?}", database.errors);
    assert_eq!(database.compile_commands.len(), 1);

    let command = &database.compile_commands[0];
    assert_eq!(command.file, "main.cpp");
    assert_eq!(command.directory, src.path().to_str().unwrap().to_lowercase());
    assert_eq!(command.arguments, vec!["cl.exe", "/c", "main.cpp"]);
}

#[test]
fn absolute_argument_resolves_directly() {
    let dir = named_dir(std::path::Path::new("/tmp"), "ms2cc_absolute_arg");
    let file = named_file(dir.path(), "one.cpp");

    let index = FileIndex::new();
    let builder = CommandBuilder::new(&index);
    let results = builder.build(vec![
        "cl.exe".to_string(),
        "/c".to_string(),
        file.path().to_str().unwrap().to_string(),
    ]);
    assert_eq!(results.len(), 1);
    let record = results[0].as_ref().expect("record");
    assert_eq!(record.file, "one.cpp");
    assert_eq!(record.directory, dir.path().to_str().unwrap());
}

#[test]
fn fo_argument_guides_resolution() {
    let dir = named_dir(std::path::Path::new("/tmp"), "ms2cc_fo_hint");
    let out = named_dir(dir.path(), "debug");
    let _main = named_file(dir.path(), "main.cpp");

    // The file is not in the index; the /Fo path points at a child of the
    // directory that holds it, so popping one component finds the file.
    let index = FileIndex::new();
    let builder = CommandBuilder::new(&index);
    let fo = format!("/Fo{}/", out.path().to_str().unwrap());
    let results = builder.build(vec!["cl.exe".to_string(), fo, "main.cpp".to_string()]);
    assert_eq!(results.len(), 1);
    let record = results[0].as_ref().expect("record");
    assert_eq!(record.file, "main.cpp");
    assert_eq!(record.directory, dir.path().to_str().unwrap());
}
