//! Configuration shared by the library stages and their callers.

use vstd::prelude::*;

verus! {

/// Default compiler executable name to search for in logs.
pub const DEFAULT_COMPILER_EXECUTABLE: &'static str = "cl.exe";

/// Default number of worker threads per pipeline stage.
pub const DEFAULT_MAX_THREADS: usize = 8;

/// The default list of directory names excluded from traversal.
pub open spec fn spec_default_exclude_directories() -> Seq<Seq<char>> {
    seq![".git"@]
}

/// The default list of file extensions that are processed.
pub open spec fn spec_default_file_extensions() -> Seq<Seq<char>> {
    seq![
        "c"@,
        "cc"@,
        "cpp"@,
        "cxx"@,
        "c++"@,
        "h"@,
        "hh"@,
        "hpp"@,
        "hxx"@,
        "h++"@,
        "inl"@,
    ]
}

/// Configuration for the log-to-database run.
#[derive(Debug, Clone)]
pub struct Config {
    pub exclude_directories: Vec<String>,
    pub file_extensions: Vec<String>,
    pub compiler_executable: String,
}

/// Returns the default exclude directories as owned strings.
pub fn default_exclude_directories() -> (r: Vec<String>)
    ensures
        r.deep_view() == spec_default_exclude_directories(),
{
    let mut v: Vec<String> = Vec::new();
    v.push(".git".to_owned());
    proof {
        assert(v.deep_view() =~~= spec_default_exclude_directories());
    }
    v
}

/// Returns the default file extensions as owned strings.
pub fn default_file_extensions() -> (r: Vec<String>)
    ensures
        r.deep_view() == spec_default_file_extensions(),
{
    let mut v: Vec<String> = Vec::new();
    v.push("c".to_owned());
    v.push("cc".to_owned());
    v.push("cpp".to_owned());
    v.push("cxx".to_owned());
    v.push("c++".to_owned());
    v.push("h".to_owned());
    v.push("hh".to_owned());
    v.push("hpp".to_owned());
    v.push("hxx".to_owned());
    v.push("h++".to_owned());
    v.push("inl".to_owned());
    proof {
        assert(v.deep_view() =~~= spec_default_file_extensions());
    }
    v
}

impl Config {
    /// Returns the default exclude directories as owned strings.
    pub fn default_exclude_directories() -> (r: Vec<String>)
        ensures
            r.deep_view() == spec_default_exclude_directories(),
    {
        default_exclude_directories()
    }

    /// Returns the default file extensions as owned strings.
    pub fn default_file_extensions() -> (r: Vec<String>)
        ensures
            r.deep_view() == spec_default_file_extensions(),
    {
        default_file_extensions()
    }
}

impl Default for Config {
    /// The baseline configuration: default lists and the default compiler name.
    fn default() -> (c: Config)
        ensures
            c.exclude_directories.deep_view() == spec_default_exclude_directories(),
            c.file_extensions.deep_view() == spec_default_file_extensions(),
            c.compiler_executable@ == DEFAULT_COMPILER_EXECUTABLE@,
    {
        Config {
            exclude_directories: default_exclude_directories(),
            file_extensions: default_file_extensions(),
            compiler_executable: DEFAULT_COMPILER_EXECUTABLE.to_owned(),
        }
    }
}

} // verus!
