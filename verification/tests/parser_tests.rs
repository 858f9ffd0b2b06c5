//! Unit tests covering the pure parsing helpers.

use ms2cc::parser;
use ms2cc::Ms2ccError;

#[test]
fn test_ends_with_cpp_source_file() {
    let extensions = vec!["cpp".to_string(), "c".to_string(), "h".to_string()];

    assert!(parser::ends_with_cpp_source_file("file.cpp", &extensions));
    assert!(parser::ends_with_cpp_source_file("file.CPP", &extensions));
    assert!(parser::ends_with_cpp_source_file("file.cpp\"  ", &extensions));
    assert!(parser::ends_with_cpp_source_file("file.h'", &extensions));
    assert!(!parser::ends_with_cpp_source_file("file", &extensions));
    assert!(!parser::ends_with_cpp_source_file("", &extensions));
}

#[test]
fn test_should_exclude_directory() {
    let excludes = vec![".git".to_string(), "target".to_string()];

    assert!(parser::should_exclude_directory(".git", &excludes));
    assert!(parser::should_exclude_directory(".GIT", &excludes));
    assert!(parser::should_exclude_directory("target", &excludes));
    assert!(!parser::should_exclude_directory("src", &excludes));
}

#[test]
fn test_should_process_file_extension() {
    let extensions = vec!["cpp".to_string(), "h".to_string()];

    assert!(parser::should_process_file_extension("cpp", &extensions));
    assert!(parser::should_process_file_extension("CPP", &extensions));
    assert!(parser::should_process_file_extension("h", &extensions));
    assert!(!parser::should_process_file_extension("txt", &extensions));
}

#[test]
fn test_tokenize_compile_command() {
    let line = "cl.exe /c /Zi file.cpp";
    let tokens = parser::tokenize_compile_command(line);
    assert_eq!(tokens, vec!["cl.exe", "/c", "/Zi", "file.cpp"]);
}

#[test]
fn test_tokenize_compile_command_with_quotes() {
    let line = r#""C:\Program Files\cl.exe" /c /I"C:\Some Path" main.cpp"#;
    let tokens = parser::tokenize_compile_command(line);
    assert_eq!(
        tokens,
        vec!["C:\\Program Files\\cl.exe", "/c", "/IC:\\Some Path", "main.cpp",]
    );
}

#[test]
fn test_tokenize_compile_command_with_empty_argument() {
    let line = r#"cl.exe "" "C:\path with spaces\file.cpp""#;
    let tokens = parser::tokenize_compile_command(line);
    assert_eq!(tokens, vec!["cl.exe", "", "C:\\path with spaces\\file.cpp",]);
}

#[test]
fn test_tokenize_compile_command_with_escaped_quote() {
    let line = r#"cl.exe "/D\"VALUE\"" main.cpp"#;
    let tokens = parser::tokenize_compile_command(line);
    assert_eq!(tokens, vec!["cl.exe", "/D\"VALUE\"", "main.cpp"]);
}

#[test]
fn test_tokenize_compile_command_with_trailing_backslash() {
    let line = r#"cl.exe /I"C:\include\\" main.cpp"#;
    let tokens = parser::tokenize_compile_command(line);
    assert_eq!(tokens, vec!["cl.exe", "/IC:\\include\\", "main.cpp"]);
}

#[test]
fn test_tokenize_compile_command_unquoted_executable_path() {
    let line = r#"C:\Program Files\Microsoft Visual Studio\2022\Enterprise\VC\Tools\MSVC\14.44.35207\bin\HostX64\x64\CL.exe /c main.cpp"#;
    let tokens = parser::tokenize_compile_command(line);
    assert_eq!(
        tokens,
        vec![
            "C:\\Program Files\\Microsoft Visual Studio\\2022\\Enterprise\\VC\\Tools\\MSVC\\14.44.35207\\bin\\HostX64\\x64\\CL.exe",
            "/c",
            "main.cpp",
        ]
    );
}

#[test]
fn only_a_single_trailing_quote_is_dropped() {
    let extensions = vec!["cpp".to_string()];

    assert!(parser::ends_with_cpp_source_file("file.cpp\"", &extensions));
    assert!(parser::ends_with_cpp_source_file("file.cpp'  ", &extensions));
    assert!(!parser::ends_with_cpp_source_file("file.cpp\"\"", &extensions));
    assert!(!parser::ends_with_cpp_source_file("file.cpp\"'", &extensions));
}

#[test]
fn test_extract_and_validate_filename_success() {
    let result = parser::extract_and_validate_filename("file.cpp");
    assert!(matches!(result, Ok(ref value) if value == "file.cpp"));

    let result = parser::extract_and_validate_filename("path/to/file.cpp");
    assert!(matches!(result, Ok(ref value) if value == "file.cpp"));
}

#[test]
fn test_extract_and_validate_filename_missing_extension() {
    let result = parser::extract_and_validate_filename("file");
    assert!(matches!(
        result,
        Err(Ms2ccError::MissingExtension { ref path }) if path == "file"
    ));
}

#[test]
fn test_extract_and_validate_filename_missing_file_name() {
    let result = parser::extract_and_validate_filename("");
    assert!(matches!(result, Err(Ms2ccError::MissingFileName { .. })));
}

#[test]
fn test_extract_and_validate_filename_preserves_case() {
    let result = parser::extract_and_validate_filename("SubDir/FiLe.CpP").unwrap();
    assert_eq!(result, "FiLe.CpP");
}
