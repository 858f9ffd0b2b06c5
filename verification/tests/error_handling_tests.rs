//! Regression and edge-case tests covering the structured error behavior
//! and resilience against malformed inputs.

use ms2cc::compile_commands;
use ms2cc::parser;
use ms2cc::Config;
use ms2cc::Ms2ccError;

#[test]
fn test_malformed_input_handling() {
    let _config = Config::default();

    let malformed_cases = [
        "",
        "not a compile command",
        "cl.exe /c",
        "cl.exe /c file_without_extension",
        "cl.exe /c .cpp",
    ];

    for case in malformed_cases {
        let tokens = parser::tokenize_compile_command(case);

        if !tokens.is_empty() {
            let last_token = tokens.last().unwrap();
            let result = parser::extract_and_validate_filename(last_token);
            assert!(result.is_err());
        }

        for token in tokens {
            assert!(!token.contains('"'), "Token should not retain quotes: {token:?}");
        }
    }
}

#[test]
fn test_structured_errors_from_parser() {
    let missing_extension = parser::extract_and_validate_filename("file");
    assert!(matches!(missing_extension, Err(Ms2ccError::MissingExtension { .. })));

    let missing_file_name = parser::extract_and_validate_filename("/");
    assert!(matches!(missing_file_name, Err(Ms2ccError::MissingFileName { .. })));
}

#[test]
fn test_boundary_conditions() {
    let config = Config::default();

    let long_string = "a".repeat(10000);
    let tokens = parser::tokenize_compile_command(&long_string);
    assert_eq!(tokens, vec![long_string.clone()]);

    let many_quotes = "\"".repeat(1000);
    let tokens = parser::tokenize_compile_command(&many_quotes);
    assert_eq!(tokens, vec![String::new()]);

    let mixed = format!(
        "{}cl.exe{} /c{} main.cpp{}",
        "\"".repeat(100),
        "\"".repeat(100),
        "\"".repeat(100),
        "\"".repeat(100)
    );
    let tokens = parser::tokenize_compile_command(&mixed);
    assert!(tokens.iter().any(|t| t.contains("cl.exe")));
    assert!(tokens.iter().any(|t| t.contains("main.cpp")));
    assert!(tokens.iter().all(|t| !t.contains('"')));

    let edge_case_dirs = [
        "",
        ".",
        "..",
        "very_long_directory_name_that_might_cause_issues",
        "dir-with-dashes",
        "dir.with.dots",
    ];

    for dir in edge_case_dirs {
        let result = parser::should_exclude_directory(dir, &config.exclude_directories);
        assert!(!result);
    }

    let edge_case_exts = [
        ("", false),
        ("c", true),
        ("C", true),
        ("cPP", true),
        ("h++", true),
        ("very_long_extension", false),
        ("1", false),
        ("123", false),
    ];

    for (ext, expected) in edge_case_exts {
        let actual = parser::should_process_file_extension(ext, &config.file_extensions);
        assert_eq!(actual, expected);
    }
}

#[test]
fn test_unicode_and_special_characters() {
    let unicode_cases = [
        "cl.exe /c файл.cpp",
        "cl.exe /c 测试.cpp",
        "cl.exe /c тест.cpp",
        "cl.exe /c プログラム.cpp",
        "cl.exe /c 🚀test.cpp",
    ];

    for case in &unicode_cases {
        let tokens = parser::tokenize_compile_command(case);
        assert!(tokens.len() >= 3, "Should tokenize Unicode strings");
        assert_eq!(tokens.join(" "), *case);
    }

    let special_chars = [
        "cl.exe /c \"path with spaces.cpp\"",
        "cl.exe /c path-with-dashes.cpp",
        "cl.exe /c path_with_underscores.cpp",
        "cl.exe /c path.with.dots.cpp",
        "cl.exe /c path(with)parens.cpp",
        "cl.exe /c path[with]brackets.cpp",
    ];

    for case in &special_chars {
        let tokens = parser::tokenize_compile_command(case);
        assert!(tokens.len() >= 3, "Should handle special characters: {}", case);
        assert!(tokens.iter().all(|t| !t.contains('"')), "Should remove quotes: {}", case);
    }
}

#[test]
fn test_case_sensitivity() {
    let config = Config::default();

    let case_variants = [
        ("cpp", true),
        ("CPP", true),
        ("Cpp", true),
        ("cPp", true),
        ("c", true),
        ("C", true),
        ("h", true),
        ("H", true),
        ("TXT", false),
        ("txt", false),
        ("Txt", false),
    ];

    for (ext, should_match) in &case_variants {
        let result = parser::should_process_file_extension(ext, &config.file_extensions);
        assert_eq!(result, *should_match, "Case sensitivity test failed for: {}", ext);
    }

    let dir_variants = [
        (".git", true),
        (".GIT", true),
        (".Git", true),
        (".gIt", true),
        ("git", false),
        ("GIT", false),
    ];

    for (dir, should_exclude) in &dir_variants {
        let result = parser::should_exclude_directory(dir, &config.exclude_directories);
        assert_eq!(result, *should_exclude, "Directory exclusion test failed for: {}", dir);
    }
}

#[test]
fn test_memory_usage_patterns() {
    for _ in 0..1000 {
        let large_string = "cl.exe ".to_owned() + &"/D DEFINE=1 ".repeat(100) + "main.cpp";

        let tokens = parser::tokenize_compile_command(&large_string);
        assert!(!tokens.is_empty());
        assert!(tokens.iter().any(|t| t.contains("cl.exe")));

        drop(tokens);
    }

    for size in [10, 100, 1000, 10000] {
        let test_string = "cl.exe /c ".to_owned() + &"A".repeat(size) + ".cpp";

        let result = parser::tokenize_compile_command(&test_string);
        assert_eq!(result.len(), 3);
        assert!(result.iter().all(|t| !t.contains('"')));
    }
}

#[test]
fn test_compile_command_creation_errors() {
    let error_cases = ["/", "/non/existent/path/main.cpp", "relative/path/main.cpp"];

    for path_str in &error_cases {
        let args = vec!["cl.exe".to_string(), "/c".to_string(), path_str.to_string()];

        let result = compile_commands::create_compile_command(path_str.to_string(), args);

        if path_str.len() <= 3 {
            assert!(result.is_err(), "Root path should fail: {}", path_str);
        }
    }
}
