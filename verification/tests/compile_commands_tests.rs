//! Tests of record construction and the `/Fo` helpers.

use ms2cc::compile_commands;
use ms2cc::Ms2ccError;

#[test]
fn test_create_compile_command() {
    let path = "C:/projects/src/file.cpp".to_string();
    let args = vec!["cl.exe".to_string(), "/c".to_string(), "file.cpp".to_string()];

    let result = compile_commands::create_compile_command(path, args.clone());
    assert!(result.is_ok());

    let cmd = result.unwrap();
    assert_eq!(cmd.file, "file.cpp");
    assert_eq!(cmd.directory, "C:/projects/src");
    assert_eq!(cmd.arguments, args);
}

#[test]
fn test_find_fo_argument() {
    let args = vec!["cl.exe".to_string(), "/FoDebug/".to_string(), "file.cpp".to_string()];

    let fo_arg = compile_commands::find_fo_argument(&args);
    assert_eq!(fo_arg, Some("/FoDebug/".to_string()));

    let args_no_fo = vec!["cl.exe".to_string(), "file.cpp".to_string()];
    assert!(compile_commands::find_fo_argument(&args_no_fo).is_none());
}

#[test]
fn test_extract_fo_path() {
    let result = compile_commands::extract_fo_path("/FoDebug/obj/");
    assert!(result.is_ok());
    assert_eq!(result.unwrap(), "Debug/obj/");

    let invalid = compile_commands::extract_fo_path("invalid");
    assert!(matches!(
        invalid,
        Err(Ms2ccError::InvalidFoArgument { argument }) if argument == "invalid"
    ));
}

#[test]
fn test_create_compile_command_missing_parent() {
    let path = "file.cpp".to_string();
    let result =
        compile_commands::create_compile_command(path.clone(), vec!["cl.exe".to_string()]);
    assert!(matches!(
        result,
        Err(Ms2ccError::MissingParent { path: p }) if p == path
    ));
}

#[test]
fn test_structured_errors_from_compile_commands() {
    let err =
        compile_commands::create_compile_command("file.cpp".to_string(), Vec::new()).unwrap_err();
    assert!(matches!(err, Ms2ccError::MissingParent { .. }));

    let fo_err = compile_commands::extract_fo_path("/FXbad").unwrap_err();
    assert!(matches!(
        fo_err,
        Ms2ccError::InvalidFoArgument { argument } if argument == "/FXbad"
    ));
}

#[test]
fn test_fo_argument_edge_cases() {
    let fo_cases = [
        ("/Fo", true),
        ("/FoDebug/", true),
        ("/Fo/very/long/path/to/output/directory/", true),
        ("/FoRelative/path", true),
        ("/Fo.", true),
        ("/Fo..", true),
        ("/Fo/", true),
    ];

    for (fo_arg, should_succeed) in &fo_cases {
        let result = compile_commands::extract_fo_path(fo_arg);
        if *should_succeed {
            assert!(result.is_ok(), "/Fo parsing should succeed for: {}", fo_arg);
        } else {
            assert!(result.is_err(), "/Fo parsing should fail for: {}", fo_arg);
        }
    }

    let arg_lists = [
        vec!["cl.exe", "/c", "/FoDebug/", "main.cpp"],
        vec!["cl.exe", "/c", "main.cpp"],
        vec!["cl.exe", "/c", "/Zi", "/FoRelease/", "/W3", "main.cpp"],
        vec!["/FoFirst/", "cl.exe", "/c", "main.cpp"],
        vec!["cl.exe", "/c", "main.cpp", "/FoLast/"],
    ];

    for args in &arg_lists {
        let owned: Vec<String> = args.iter().map(|a| a.to_string()).collect();
        let result = compile_commands::find_fo_argument(&owned);

        let has_fo = args.iter().any(|arg| arg.starts_with("/Fo"));
        if has_fo {
            assert!(result.is_some(), "Should find /Fo in: {:?}", args);
        } else {
            assert!(result.is_none(), "Should not find /Fo in: {:?}", args);
        }
    }
}
