//! Concrete instances of the round-trip laws.

use ms2cc::parser;

#[test]
fn tokenize_round_trips_plain_token_vectors() {
    let vectors: Vec<Vec<&str>> = vec![
        vec!["cl.exe", "/c", "main.cpp"],
        vec!["cl.exe", "/DDEBUG=1", "/Iinclude", "a.cpp", "b.cpp"],
        vec!["a"],
        vec!["cl.exe", "/D\\escape\\", "x.cpp"],
    ];

    for v in vectors {
        let owned: Vec<String> = v.iter().map(|s| s.to_string()).collect();
        let joined = owned.join(" ");
        assert_eq!(parser::tokenize_compile_command(&joined), owned, "for {joined:?}");
    }
}

#[test]
fn tokenize_strips_quotes_and_keeps_contents() {
    let contents = ["x", "a b c", "C:\\Program Files\\cl", "tab\there", ""];
    for x in contents {
        let quoted = format!("\"{}\"", x);
        assert_eq!(
            parser::tokenize_compile_command(&quoted),
            vec![x.to_string()],
            "for {quoted:?}"
        );
    }
}

#[test]
fn empty_quoted_argument_is_preserved() {
    let tokens = parser::tokenize_compile_command(r#"cl.exe "" "a b.cpp""#);
    assert_eq!(tokens, vec!["cl.exe", "", "a b.cpp"]);
}

#[test]
fn escaped_quote_is_preserved_literally() {
    let tokens = parser::tokenize_compile_command(r#"cl.exe "/D\"V\"" main.cpp"#);
    assert_eq!(tokens, vec!["cl.exe", "/D\"V\"", "main.cpp"]);
}

#[test]
fn reassembly_needs_colon_and_executable_tail() {
    // With a drive-letter colon and a later executable tail, tokens merge.
    let merged = parser::tokenize_compile_command("C:\\Program Files\\x\\cl.exe /c a.cpp");
    assert_eq!(merged, vec!["C:\\Program Files\\x\\cl.exe", "/c", "a.cpp"]);

    // Without the colon the same shape stays split.
    let unmerged = parser::tokenize_compile_command("Program Files\\x\\cl.exe /c a.cpp");
    assert_eq!(unmerged, vec!["Program", "Files\\x\\cl.exe", "/c", "a.cpp"]);

    // With a colon but no executable tail anywhere, nothing merges either.
    let no_tail = parser::tokenize_compile_command("C:x y z");
    assert_eq!(no_tail, vec!["C:x", "y", "z"]);
}

#[test]
fn is_executable_path_checks_known_suffixes() {
    assert!(parser::is_executable_path("C:\\tools\\cl.exe"));
    assert!(parser::is_executable_path("  setup.BAT  "));
    assert!(parser::is_executable_path("run.com"));
    assert!(parser::is_executable_path("go.cmd"));
    assert!(!parser::is_executable_path("main.cpp"));
    assert!(!parser::is_executable_path("cl.exe /c"));
}
