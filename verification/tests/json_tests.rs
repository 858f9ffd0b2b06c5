//! Tests of the compilation-database writer and reader.

use ms2cc::{deserialize, serialize, CompileCommand};

fn sample() -> CompileCommand {
    CompileCommand {
        file: "file.cpp".to_string(),
        directory: "/tmp/project".to_string(),
        arguments: vec!["cl.exe".to_string(), "/c".to_string(), "file.cpp".to_string()],
    }
}

#[test]
fn lib_test_compile_command_serialization_roundtrip() {
    let commands = vec![sample()];
    let json = serialize(&commands);
    let rebuilt = deserialize(json.as_str()).expect("deserialize");
    assert_eq!(rebuilt, commands);
}

#[test]
fn serialization_has_exact_canonical_form() {
    let json = serialize(&vec![sample()]);
    assert_eq!(
        json,
        "[{\"file\":\"file.cpp\",\"directory\":\"/tmp/project\",\"arguments\":[\"cl.exe\",\"/c\",\"file.cpp\"]}]"
    );

    let empty = serialize(&Vec::new());
    assert_eq!(empty, "[]");
}

#[test]
fn serialization_roundtrip_with_awkward_characters() {
    let commands = vec![
        CompileCommand {
            file: "a \"b\".cpp".to_string(),
            directory: "C:\\dir\\sub".to_string(),
            arguments: vec![
                "cl.exe".to_string(),
                "/DVALUE=\"x\\y\"".to_string(),
                "line\nbreak\ttab\rret".to_string(),
                "\u{1}low control".to_string(),
                String::new(),
                "файл 测试 🚀.cpp".to_string(),
            ],
        },
        CompileCommand {
            file: "b.cpp".to_string(),
            directory: "/src".to_string(),
            arguments: Vec::new(),
        },
    ];
    let json = serialize(&commands);
    let rebuilt = deserialize(json.as_str()).expect("deserialize");
    assert_eq!(rebuilt, commands);
}

#[test]
fn deserialization_rejects_malformed_text() {
    assert!(deserialize("").is_none());
    assert!(deserialize("{}").is_none());
    assert!(deserialize("[").is_none());
    assert!(deserialize("[{\"file\":\"a.cpp\"}]").is_none());
    assert!(deserialize("[] ").is_none());
    assert!(deserialize("[{\"file\":\"a\",\"directory\":\"b\",\"arguments\":[]}] x").is_none());
}

#[test]
fn deserialization_reads_written_records_back() {
    let commands = vec![
        CompileCommand {
            file: "main.cpp".to_string(),
            directory: "/work/src".to_string(),
            arguments: vec!["cl.exe".to_string(), "/c".to_string(), "main.cpp".to_string()],
        },
        CompileCommand {
            file: "util.cpp".to_string(),
            directory: "/work/other".to_string(),
            arguments: vec!["cl.exe".to_string(), "util.cpp".to_string()],
        },
    ];
    let json = serialize(&commands);
    let rebuilt = deserialize(json.as_str()).expect("deserialize");
    assert_eq!(rebuilt.len(), 2);
    assert_eq!(rebuilt[0].file, "main.cpp");
    assert_eq!(rebuilt[1].directory, "/work/other");
}
