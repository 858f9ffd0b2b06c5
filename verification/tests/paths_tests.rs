//! Tests of the path model and normalization.

use ms2cc::paths;

#[test]
fn file_name_and_parent_components() {
    assert_eq!(paths::file_name_of("C:/projects/src/file.cpp"), Some("file.cpp".to_string()));
    assert_eq!(paths::file_name_of("C:\\projects\\src\\file.cpp"), Some("file.cpp".to_string()));
    assert_eq!(paths::file_name_of("/"), None);
    assert_eq!(paths::file_name_of(".."), None);
    assert_eq!(paths::parent_of("C:/projects/src/file.cpp"), Some("C:/projects/src".to_string()));
    assert_eq!(paths::parent_of("/main.cpp"), Some("/".to_string()));
    assert_eq!(paths::parent_of("file.cpp"), Some(String::new()));
    assert_eq!(paths::parent_of("/"), None);
}

#[test]
fn absolute_and_rooted_paths() {
    assert!(paths::is_absolute("/src/main.cpp"));
    assert!(paths::is_absolute("C:\\src\\main.cpp"));
    assert!(paths::is_absolute("c:/src/main.cpp"));
    assert!(paths::is_absolute("\\\\server\\share"));
    assert!(!paths::is_absolute("src/main.cpp"));
    assert!(!paths::is_absolute("C:main.cpp"));

    assert!(paths::has_root("\\debug\\out"));
    assert!(!paths::has_root("debug/out"));
}

#[test]
fn normalize_path_lowercases_with_unicode_semantics() {
    assert_eq!(paths::normalize_path("/SRC/File.CPP"), "/src/file.cpp");
    assert_eq!(paths::normalize_path("/SRC/ФАЙЛ.CPP"), "/src/файл.cpp");
}
