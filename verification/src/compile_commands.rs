//! Compilation database records and the helpers that build them.

use vstd::prelude::*;

use crate::error::ErrV;
use crate::error::Ms2ccError;
use crate::paths::spec_file_name;
use crate::paths::spec_parent;
use crate::text::char_range_to_string;
use crate::text::chars_starts_with;
use crate::text::spec_starts_with;
use crate::text::str_to_char_vec;

verus! {

/// One compilation database entry: the file that was compiled, the working
/// directory, and the argument vector exactly as the log showed it.
#[derive(Debug, Clone, PartialEq)]
pub struct CompileCommand {
    pub file: String,
    pub directory: String,
    pub arguments: Vec<String>,
}

/// The mathematical shape of a record.
pub struct CompileCommandV {
    pub file: Seq<char>,
    pub directory: Seq<char>,
    pub arguments: Seq<Seq<char>>,
}

impl DeepView for CompileCommand {
    type V = CompileCommandV;

    open spec fn deep_view(&self) -> CompileCommandV {
        CompileCommandV {
            file: self.file@,
            directory: self.directory@,
            arguments: self.arguments.deep_view(),
        }
    }
}

/// Builds a record out of a resolved path and the raw argument vector.
///
/// The argument vector is carried unchanged, so the output mirrors the
/// compiler invocation the log actually showed.
pub fn create_compile_command(path: String, arguments: Vec<String>) -> (r: Result<
    CompileCommand,
    Ms2ccError,
>)
    ensures
        match r {
            Ok(c) => {
                &&& spec_parent(path@) is Some
                &&& spec_parent(path@)->0.len() > 0
                &&& spec_file_name(path@) is Some
                &&& c.deep_view() == (CompileCommandV {
                    file: spec_file_name(path@)->0,
                    directory: spec_parent(path@)->0,
                    arguments: arguments.deep_view(),
                })
            },
            Err(e) => {
                if spec_parent(path@) is None || spec_parent(path@)->0.len() == 0 {
                    e.deep_view() == (ErrV::MissingParent { path: path@ })
                } else {
                    spec_file_name(path@) is None && e.deep_view() == (ErrV::MissingFileName {
                        path: path@,
                    })
                }
            },
        },
{
    let parent = crate::paths::parent_of(path.as_str());
    let directory = match parent {
        Some(p) => {
            if p.as_str().is_empty() {
                return Err(Ms2ccError::MissingParent { path });
            }
            p
        },
        None => {
            return Err(Ms2ccError::MissingParent { path });
        },
    };
    let name = match crate::paths::file_name_of(path.as_str()) {
        Some(n) => n,
        None => {
            return Err(Ms2ccError::MissingFileName { path });
        },
    };
    Ok(CompileCommand { file: name, directory, arguments })
}

/// The `/Fo` flag's literal prefix.
pub open spec fn fo_prefix() -> Seq<char> {
    seq!['/', 'F', 'o']
}

/// The least index `>= j` of an argument that starts with `/Fo`.
pub open spec fn spec_first_fo(args: Seq<Seq<char>>, j: int) -> Option<int>
    decreases args.len() - j,
{
    if j >= args.len() {
        None
    } else if spec_starts_with(args[j], fo_prefix()) {
        Some(j)
    } else {
        spec_first_fo(args, j + 1)
    }
}

/// The argument the first-`/Fo` search names does start with `/Fo`.
pub proof fn lemma_first_fo_starts_with(args: Seq<Seq<char>>, k: int)
    requires
        spec_first_fo(args, k) is Some,
    ensures
        spec_starts_with(args[spec_first_fo(args, k)->0], fo_prefix()),
    decreases args.len() - k,
{
    if k < args.len() && !spec_starts_with(args[k], fo_prefix()) {
        lemma_first_fo_starts_with(args, k + 1);
    }
}

/// Finds the first `/Fo` argument, if one is present.
pub fn find_fo_argument(arguments: &Vec<String>) -> (r: Option<String>)
    ensures
        match r {
            Some(a) => {
                &&& spec_first_fo(arguments.deep_view(), 0) is Some
                &&& a@ == arguments.deep_view()[spec_first_fo(arguments.deep_view(), 0)->0]
            },
            None => spec_first_fo(arguments.deep_view(), 0) is None,
        },
{
    let ghost argsv = arguments.deep_view();
    let prefix = vec!['/', 'F', 'o'];
    proof {
        assert(prefix@ =~= fo_prefix());
    }
    let mut j: usize = 0;
    while j < arguments.len()
        invariant
            j <= arguments.len(),
            argsv == arguments.deep_view(),
            arguments.len() == argsv.len(),
            prefix@ == fo_prefix(),
            spec_first_fo(argsv, 0) == spec_first_fo(argsv, j as int),
        decreases arguments.len() - j,
    {
        let cand = str_to_char_vec(arguments[j].as_str());
        proof {
            assert(argsv[j as int] == arguments@[j as int]@);
        }
        if chars_starts_with(&cand, &prefix) {
            return Some(arguments[j].clone());
        }
        j = j + 1;
    }
    None
}

/// Strips the `/Fo` prefix off the flag, leaving the output path it names.
pub fn extract_fo_path(fo_argument: &str) -> (r: Result<String, Ms2ccError>)
    ensures
        match r {
            Ok(p) => spec_starts_with(fo_argument@, fo_prefix()) && p@ == fo_argument@.skip(3),
            Err(e) => !spec_starts_with(fo_argument@, fo_prefix()) && e.deep_view() == (
            ErrV::InvalidFoArgument { argument: fo_argument@ }),
        },
{
    let cs = str_to_char_vec(fo_argument);
    let prefix = vec!['/', 'F', 'o'];
    proof {
        assert(prefix@ =~= fo_prefix());
    }
    if chars_starts_with(&cs, &prefix) {
        proof {
            assert(cs@.subrange(3, cs@.len() as int) =~= fo_argument@.skip(3));
        }
        Ok(char_range_to_string(&cs, 3, cs.len()))
    } else {
        Err(Ms2ccError::InvalidFoArgument { argument: fo_argument.to_owned() })
    }
}

} // verus!
