//! Broader tests that mirror how the surrounding program classifies and
//! tokenizes log lines.

use ms2cc::parser;
use ms2cc::Config;

/// Returns `true` if the given line references the target compiler token,
/// trimming surrounding quotes along the way.
fn contains_compiler_token(line: &str, compiler: &str) -> bool {
    line.split_whitespace()
        .map(|token| token.trim_matches(|c| matches!(c, '"' | '\'')))
        .any(|token| token.eq_ignore_ascii_case(compiler))
}

#[test]
fn test_msbuild_log_parsing_realistic() {
    let lines = [
        "Microsoft (R) Build Engine version 16.11.2+f32259642 for .NET Framework",
        "Copyright (C) Microsoft Corporation. All rights reserved.",
        "",
        "  cl.exe /c /Zi /nologo /W3 /WX- /diagnostics:column /Od /Ob0 /D WIN32 /D _WINDOWS /D _DEBUG /D _UNICODE /D UNICODE /Gm- /EHsc /RTC1 /MDd /GS /fp:precise /Zc:wchar_t /Zc:forScope /Zc:inline /Fo\"Debug\\\\\" /Fd\"Debug\\\\vc143.pdb\" /external:W3 /Gd /TP /analyze- /errorReport:prompt main.cpp",
        "  main.cpp",
        "",
        "  cl.exe /c /Zi /nologo /W3 /WX- /diagnostics:column /Od /Ob0 /D WIN32",
        "  /D _WINDOWS /D _DEBUG /D _UNICODE /D UNICODE /Gm- /EHsc /RTC1 /MDd /GS",
        "  /fp:precise /Zc:wchar_t /Zc:forScope /Zc:inline /Fo\"Debug\\\\\" utils.cpp",
        "  utils.cpp",
        "",
        "Build succeeded.",
        "    0 Warning(s)",
        "    0 Error(s)",
    ];

    let config = Config::default();

    let mut single_line_commands = 0;
    let mut multi_line_potential = 0;

    for line in lines {
        if contains_compiler_token(line, &config.compiler_executable) {
            if parser::ends_with_cpp_source_file(line, &config.file_extensions) {
                single_line_commands += 1;
            } else {
                multi_line_potential += 1;
            }
        }
    }

    assert_eq!(single_line_commands, 1);
    assert_eq!(multi_line_potential, 1);
}

#[test]
fn test_error_conditions_in_parsing() {
    let config = Config::default();

    let long_line = format!("cl.exe {} main.cpp", "/D VERY_LONG_DEFINE=1".repeat(100));
    let test_cases = [
        ("", false),
        ("some random build output", false),
        ("cl.exe /c /Zi /nologo", false),
        ("cl.exe /c /Zi script.py", false),
        ("cl.exe /c /Zi ///invalid//path.cpp", true),
        (long_line.as_str(), true),
    ];

    for (line, should_match) in &test_cases {
        let contains_compiler = contains_compiler_token(line, &config.compiler_executable);
        let ends_with_cpp = parser::ends_with_cpp_source_file(line, &config.file_extensions);

        if *should_match {
            assert!(contains_compiler && ends_with_cpp, "Line should match: {}", line);
        } else {
            assert!(!(contains_compiler && ends_with_cpp), "Line should not match: {}", line);
        }
    }
}

#[test]
fn test_tokenization_edge_cases() {
    let long_input = format!(
        "cl.exe {} main.cpp",
        (0..50).map(|_| "/DVERY_LONG_DEFINE=\"test value\"").collect::<Vec<_>>().join(" ")
    );
    let long_expected = {
        let mut expected = vec!["cl.exe"];
        expected.extend(vec!["/DVERY_LONG_DEFINE=test value"; 50]);
        expected.push("main.cpp");
        expected
    };

    let test_cases = [
        ("cl.exe /c main.cpp", vec!["cl.exe", "/c", "main.cpp"]),
        ("cl.exe    /c     main.cpp", vec!["cl.exe", "/c", "main.cpp"]),
        ("cl.exe\t/c\t \tmain.cpp", vec!["cl.exe", "/c", "main.cpp"]),
        ("  cl.exe /c main.cpp  ", vec!["cl.exe", "/c", "main.cpp"]),
        ("", vec![]),
        ("cl.exe", vec!["cl.exe"]),
        (long_input.as_str(), long_expected),
    ];

    for (input, expected) in &test_cases {
        let tokens = parser::tokenize_compile_command(input);
        assert_eq!(tokens, *expected, "Failed for input: '{}'", input);
    }
}

#[test]
fn test_tokenize_compile_command_edge_cases() {
    let test_cases = [
        ("cl.exe /c main.cpp", vec!["cl.exe", "/c", "main.cpp"]),
        (r#""cl.exe" /c "main.cpp""#, vec!["cl.exe", "/c", "main.cpp"]),
        (r#"cl.exe /I"C:\path with spaces""#, vec!["cl.exe", "/IC:\\path with spaces"]),
        (r#"cl.exe """#, vec!["cl.exe", ""]),
        (r#"""#, vec![""]),
        ("", Vec::<&str>::new()),
    ];

    for (input, expected) in &test_cases {
        let tokens = parser::tokenize_compile_command(input);
        let expected: Vec<String> = expected.iter().map(|s| s.to_string()).collect();
        assert_eq!(tokens, expected, "Failed for input: '{input}'");
    }
}

#[test]
fn test_memory_efficiency() {
    let large_line = "cl.exe ".to_owned() + &"/DTEST=1 ".repeat(1000) + "main.cpp";

    let tokens = parser::tokenize_compile_command(&large_line);
    assert_eq!(tokens.first().unwrap(), "cl.exe");
    assert_eq!(tokens.last().unwrap(), "main.cpp");
    assert_eq!(tokens.len(), 1002);

    let quoted_line = format!("\"{}\"", large_line);
    let quoted_tokens = parser::tokenize_compile_command(&quoted_line);
    assert_eq!(quoted_tokens, vec![large_line]);
}
