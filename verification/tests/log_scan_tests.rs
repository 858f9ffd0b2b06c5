//! Tests of the log-scanning state machine and the token adaptor.

use ms2cc::log_scan::{first_executable_name, LogLineIter, TokenIter};
use ms2cc::Ms2ccError;

fn make_lines(lines: &[&str]) -> Vec<String> {
    lines.iter().map(|l| l.to_string()).collect()
}

#[test]
fn detects_single_line_commands() {
    let mut iter = LogLineIter::new(
        make_lines(&["cl.exe /c main.cpp"]),
        "cl.exe",
        vec!["cpp".to_string()],
    );

    let command = iter.next_item().expect("command present").unwrap();
    assert_eq!(command, "cl.exe /c main.cpp");
    assert!(iter.next_item().is_none());
}

#[test]
fn merges_multi_line_commands() {
    let mut iter = LogLineIter::new(
        make_lines(&["cl.exe /c", "  /Iinc", "  main.cpp"]),
        "cl.exe",
        vec!["cpp".to_string()],
    );

    let command = iter.next_item().expect("command present").unwrap();
    assert_eq!(command, "cl.exe /c   /Iinc   main.cpp");
}

#[test]
fn surfaces_unexpected_lines() {
    let mut iter = LogLineIter::new(
        make_lines(&["cl.exe /c", "cl.exe /nologo"]),
        "cl.exe",
        vec!["cpp".to_string()],
    );

    let err = iter.next_item().expect("item present").expect_err("expected error");
    assert!(matches!(err, Ms2ccError::UnexpectedLine { .. }));
}

#[test]
fn token_iter_preserves_errors() {
    let iter = LogLineIter::new(
        make_lines(&["cl.exe /c main.cpp"]),
        "cl.exe",
        vec!["cpp".to_string()],
    );
    let mut tokens = TokenIter::new(iter);

    let command_tokens = tokens.next_item().expect("tokens").unwrap();
    assert_eq!(command_tokens, vec!["cl.exe", "/c", "main.cpp"]);
}

#[test]
fn detects_executable_name() {
    assert_eq!(
        first_executable_name(" C:/Toolchains/cl.exe /c"),
        Some("cl.exe".to_string())
    );
}

#[test]
fn strips_line_endings_before_scanning() {
    let mut iter = LogLineIter::new(
        make_lines(&["cl.exe /c main.cpp\r\n"]),
        "cl.exe",
        vec!["cpp".to_string()],
    );

    let command = iter.next_item().expect("command present").unwrap();
    assert_eq!(command, "cl.exe /c main.cpp");
}

#[test]
fn matches_compiler_after_another_executable() {
    let mut iter = LogLineIter::new(
        make_lines(&["link.exe then cl.exe /c main.cpp"]),
        "cl.exe",
        vec!["cpp".to_string()],
    );

    let command = iter.next_item().expect("command present").unwrap();
    assert_eq!(command, "link.exe then cl.exe /c main.cpp");
}

#[test]
fn requires_a_whole_token_match() {
    let mut iter = LogLineIter::new(
        make_lines(&["xcl.exe /c main.cpp"]),
        "cl.exe",
        vec!["cpp".to_string()],
    );

    assert!(iter.next_item().is_none());
}

#[test]
fn matches_compiler_name_case_insensitively() {
    let mut iter = LogLineIter::new(
        make_lines(&["  C:\\tools\\CL.EXE /c main.cpp"]),
        "cl.exe",
        vec!["cpp".to_string()],
    );

    let command = iter.next_item().expect("command present").unwrap();
    assert_eq!(command, "  C:\\tools\\CL.EXE /c main.cpp");
}
