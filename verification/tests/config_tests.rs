//! Checks of the default configuration values.

use ms2cc::config::{self, DEFAULT_COMPILER_EXECUTABLE};
use ms2cc::Config;

#[test]
fn default_config_matches_constants() {
    let config = Config::default();
    assert_eq!(config.exclude_directories, config::default_exclude_directories());
    assert_eq!(config.file_extensions, config::default_file_extensions());
    assert_eq!(config.compiler_executable, DEFAULT_COMPILER_EXECUTABLE);
}

#[test]
fn default_lists_include_expected_entries() {
    let excludes = config::default_exclude_directories();
    assert!(excludes.iter().any(|value| value == ".git"));

    let extensions = config::default_file_extensions();
    for ext in ["c", "cpp", "h", "hpp"] {
        assert!(extensions.iter().any(|value| value == ext));
    }
}
