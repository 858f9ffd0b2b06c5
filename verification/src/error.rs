//! The closed set of structured error values used throughout the library.
//!
//! Every fallible step returns one of these variants; errors are collected,
//! never thrown, so one bad line or path cannot abort a run.

use vstd::prelude::*;

verus! {

/// Structured error value covering filesystem, log-structure and resolution
/// failures discovered while translating a build log into database records.
#[derive(Debug, Clone, PartialEq)]
pub enum Ms2ccError {
    /// The path has no file-name component.
    MissingFileName { path: String },
    /// The file name has no extension.
    MissingExtension { path: String },
    /// The path has no parent directory.
    MissingParent { path: String },
    /// An argument taken for a `/Fo` flag does not start with `/Fo`.
    InvalidFoArgument { argument: String },
    /// No `/Fo` argument was present although one was needed.
    MissingFoArgument { arguments: Vec<String> },
    /// The path could not be normalized to text.
    PathNormalization { path: String },
    /// A directory entry was neither a file nor a directory.
    UnexpectedEntry { path: String },
    /// Reading the log failed.
    LogRead { message: String, path: String },
    /// A command was resolved from an empty token vector.
    EmptyTokenVector,
    /// No trailing source-file argument was found.
    MissingTrailingFile { arguments: Vec<String> },
    /// A new invocation started before the previous one was finished.
    UnexpectedLine { line: String, current: String },
    /// No existing absolute path could be computed for the source file.
    UnresolvedSourcePath { file: String, arguments: Vec<String> },
    /// A general I/O failure tagged with the offending path.
    Io { message: String, path: String },
}

/// The mathematical shape of an error value: the same variants over
/// character sequences.
pub enum ErrV {
    MissingFileName { path: Seq<char> },
    MissingExtension { path: Seq<char> },
    MissingParent { path: Seq<char> },
    InvalidFoArgument { argument: Seq<char> },
    MissingFoArgument { arguments: Seq<Seq<char>> },
    PathNormalization { path: Seq<char> },
    UnexpectedEntry { path: Seq<char> },
    LogRead { message: Seq<char>, path: Seq<char> },
    EmptyTokenVector,
    MissingTrailingFile { arguments: Seq<Seq<char>> },
    UnexpectedLine { line: Seq<char>, current: Seq<char> },
    UnresolvedSourcePath { file: Seq<char>, arguments: Seq<Seq<char>> },
    Io { message: Seq<char>, path: Seq<char> },
}

impl DeepView for Ms2ccError {
    type V = ErrV;

    open spec fn deep_view(&self) -> ErrV {
        match self {
            Ms2ccError::MissingFileName { path } => ErrV::MissingFileName { path: path@ },
            Ms2ccError::MissingExtension { path } => ErrV::MissingExtension { path: path@ },
            Ms2ccError::MissingParent { path } => ErrV::MissingParent { path: path@ },
            Ms2ccError::InvalidFoArgument { argument } => ErrV::InvalidFoArgument {
                argument: argument@,
            },
            Ms2ccError::MissingFoArgument { arguments } => ErrV::MissingFoArgument {
                arguments: arguments.deep_view(),
            },
            Ms2ccError::PathNormalization { path } => ErrV::PathNormalization { path: path@ },
            Ms2ccError::UnexpectedEntry { path } => ErrV::UnexpectedEntry { path: path@ },
            Ms2ccError::LogRead { message, path } => ErrV::LogRead {
                message: message@,
                path: path@,
            },
            Ms2ccError::EmptyTokenVector => ErrV::EmptyTokenVector,
            Ms2ccError::MissingTrailingFile { arguments } => ErrV::MissingTrailingFile {
                arguments: arguments.deep_view(),
            },
            Ms2ccError::UnexpectedLine { line, current } => ErrV::UnexpectedLine {
                line: line@,
                current: current@,
            },
            Ms2ccError::UnresolvedSourcePath { file, arguments } => ErrV::UnresolvedSourcePath {
                file: file@,
                arguments: arguments.deep_view(),
            },
            Ms2ccError::Io { message, path } => ErrV::Io { message: message@, path: path@ },
        }
    }
}

/// Copies an error value for value.
pub fn clone_error(e: &Ms2ccError) -> (r: Ms2ccError)
    ensures
        r.deep_view() == e.deep_view(),
{
    match e {
        Ms2ccError::MissingFileName { path } => Ms2ccError::MissingFileName {
            path: path.clone(),
        },
        Ms2ccError::MissingExtension { path } => Ms2ccError::MissingExtension {
            path: path.clone(),
        },
        Ms2ccError::MissingParent { path } => Ms2ccError::MissingParent { path: path.clone() },
        Ms2ccError::InvalidFoArgument { argument } => Ms2ccError::InvalidFoArgument {
            argument: argument.clone(),
        },
        Ms2ccError::MissingFoArgument { arguments } => Ms2ccError::MissingFoArgument {
            arguments: crate::text::clone_string_vec(arguments),
        },
        Ms2ccError::PathNormalization { path } => Ms2ccError::PathNormalization {
            path: path.clone(),
        },
        Ms2ccError::UnexpectedEntry { path } => Ms2ccError::UnexpectedEntry {
            path: path.clone(),
        },
        Ms2ccError::LogRead { message, path } => Ms2ccError::LogRead {
            message: message.clone(),
            path: path.clone(),
        },
        Ms2ccError::EmptyTokenVector => Ms2ccError::EmptyTokenVector,
        Ms2ccError::MissingTrailingFile { arguments } => Ms2ccError::MissingTrailingFile {
            arguments: crate::text::clone_string_vec(arguments),
        },
        Ms2ccError::UnexpectedLine { line, current } => Ms2ccError::UnexpectedLine {
            line: line.clone(),
            current: current.clone(),
        },
        Ms2ccError::UnresolvedSourcePath { file, arguments } => Ms2ccError::UnresolvedSourcePath {
            file: file.clone(),
            arguments: crate::text::clone_string_vec(arguments),
        },
        Ms2ccError::Io { message, path } => Ms2ccError::Io {
            message: message.clone(),
            path: path.clone(),
        },
    }
}

impl Ms2ccError {
    /// Wraps an I/O failure message together with the path that triggered it.
    pub fn io_error(message: String, path: String) -> (r: Ms2ccError)
        ensures
            r.deep_view() == (ErrV::Io { message: message@, path: path@ }),
    {
        Ms2ccError::Io { message, path }
    }
}

} // verus!
