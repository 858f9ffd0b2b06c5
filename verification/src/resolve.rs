//! The command resolver: turns one token vector into database records.
//!
//! The trailing arguments that look like source files are resolved, each to
//! an absolute path, from three sources in order: the argument itself when
//! absolute, the file-name index, and the directory named by a `/Fo` flag,
//! whose ancestors are probed on disk one by one.  Whether a path exists
//! only the file system can say, so the contracts pin every answer down to
//! the candidate forms and promise the errors that do not depend on disk.

use vstd::prelude::*;

use crate::compile_commands::create_compile_command;
use crate::compile_commands::extract_fo_path;
use crate::compile_commands::find_fo_argument;
use crate::compile_commands::spec_first_fo;
use crate::compile_commands::CompileCommand;
use crate::compile_commands::CompileCommandV;
use crate::error::ErrV;
use crate::error::Ms2ccError;
use crate::index::index_entries;
use crate::index::FileIndex;
use crate::parser::extract_and_validate_filename;
use crate::parser::spec_is_source_arg;
use crate::paths::has_root;
use crate::paths::is_absolute;
use crate::paths::lemma_parent_shorter;
use crate::paths::path_join;
use crate::paths::path_pop;
use crate::paths::spec_file_name;
use crate::paths::spec_has_ext;
use crate::paths::spec_is_absolute;
use crate::paths::spec_join;
use crate::paths::spec_parent;

verus! {

/// The `/Fo` path of a token vector: the first `/Fo` argument without its
/// prefix.
pub open spec fn fo_path_of(args: Seq<Seq<char>>) -> Seq<char> {
    args[spec_first_fo(args, 0)->0].skip(3)
}

/// Whether `q` can be reached from `start` by removing trailing components.
pub open spec fn reachable_by_pops(start: Seq<char>, q: Seq<char>) -> bool
    decreases start.len(),
{
    if q == start {
        true
    } else if spec_parent(start) is Some {
        proof {
            lemma_parent_shorter(start);
        }
        reachable_by_pops(spec_parent(start)->0, q)
    } else {
        false
    }
}

/// The candidate path known before any disk probe: the argument itself when
/// absolute, else the indexed directory joined with the file name, else
/// nothing.
pub open spec fn first_candidate(
    entries: Map<Seq<char>, Option<Seq<char>>>,
    arg: Seq<char>,
) -> Seq<char> {
    let name = spec_file_name(arg)->0;
    if spec_is_absolute(arg) {
        arg
    } else if entries.contains_key(name) && entries[name] is Some {
        spec_join(entries[name]->0, name)
    } else {
        Seq::empty()
    }
}

/// Every path the resolver can return for `arg`: the probe-free candidate,
/// or a form derived from the `/Fo` directory or one of its ancestors.
pub open spec fn resolve_ok(
    entries: Map<Seq<char>, Option<Seq<char>>>,
    args: Seq<Seq<char>>,
    arg: Seq<char>,
    p: Seq<char>,
) -> bool {
    let name = spec_file_name(arg)->0;
    &&& spec_is_absolute(p)
    &&& {
        ||| p == first_candidate(entries, arg)
        ||| (spec_first_fo(args, 0) is Some && exists|q: Seq<char>|
            #[trigger] reachable_by_pops(fo_path_of(args), q) && (p == spec_join(q, name) || p
                == spec_join(q, arg) || p == q))
    }
}

/// The errors the resolver can report for `arg`, each tied to the state
/// that produces it.
pub open spec fn resolve_err_ok(
    entries: Map<Seq<char>, Option<Seq<char>>>,
    args: Seq<Seq<char>>,
    arg: Seq<char>,
    e: ErrV,
) -> bool {
    match e {
        ErrV::MissingFileName { path } => path == arg && spec_file_name(arg) is None,
        ErrV::MissingExtension { path } => path == arg && spec_file_name(arg) is Some
            && !spec_has_ext(spec_file_name(arg)->0),
        ErrV::MissingFoArgument { arguments } => arguments == args && spec_is_source_arg(arg)
            && !spec_is_absolute(first_candidate(entries, arg)) && spec_first_fo(args, 0) is None,
        ErrV::UnresolvedSourcePath { file, arguments } => file == spec_file_name(arg)->0
            && arguments == args && spec_is_source_arg(arg),
        _ => false,
    }
}

/// Relies on `std::path::Path::is_file`: whether an existing regular file
/// bears this name right now.  The answer depends on the state of the file
/// system, so nothing is assumed of it.
#[verifier::external_body]
fn probe_is_file(path: &String) -> bool {
    std::path::Path::new(path.as_str()).is_file()
}

/// The final gate of every resolution: the path must be absolute and a
/// file must exist there.
fn finish_resolution(path: String, file_name: String, arguments: &Vec<String>) -> (r: Result<
    String,
    Ms2ccError,
>)
    ensures
        match r {
            Ok(p) => p@ == path@ && spec_is_absolute(p@),
            Err(e) => e.deep_view() == (ErrV::UnresolvedSourcePath {
                file: file_name@,
                arguments: arguments.deep_view(),
            }),
        },
{
    if !is_absolute(path.as_str()) {
        return Err(
            Ms2ccError::UnresolvedSourcePath { file: file_name, arguments: arguments.clone() },
        );
    }
    if !probe_is_file(&path) {
        return Err(
            Ms2ccError::UnresolvedSourcePath { file: file_name, arguments: arguments.clone() },
        );
    }
    Ok(path)
}

/// Resolves one source-file argument to an absolute path.
pub fn resolve_source_path(
    index: &FileIndex,
    arguments: &Vec<String>,
    file_argument: &String,
) -> (r: Result<String, Ms2ccError>)
    ensures
        match r {
            Ok(p) => spec_is_source_arg(file_argument@) && resolve_ok(
                index_entries(*index),
                arguments.deep_view(),
                file_argument@,
                p@,
            ),
            Err(e) => resolve_err_ok(
                index_entries(*index),
                arguments.deep_view(),
                file_argument@,
                e.deep_view(),
            ),
        },
        (spec_is_source_arg(file_argument@) && !spec_is_absolute(
            first_candidate(index_entries(*index), file_argument@),
        ) && spec_first_fo(arguments.deep_view(), 0) is None) ==> r is Err
            && r->Err_0.deep_view() == (ErrV::MissingFoArgument {
            arguments: arguments.deep_view(),
        }),
        (spec_is_absolute(file_argument@) && r is Ok) ==> r->Ok_0@ == file_argument@,
        (spec_is_absolute(first_candidate(index_entries(*index), file_argument@)) && r is Ok)
            ==> r->Ok_0@ == first_candidate(index_entries(*index), file_argument@),
{
    let ghost entries = index_entries(*index);
    let ghost argsv = arguments.deep_view();
    let ghost argv = file_argument@;
    let file_name = match extract_and_validate_filename(file_argument.as_str()) {
        Ok(n) => n,
        Err(e) => {
            return Err(e);
        },
    };
    let mut path: String;
    if is_absolute(file_argument.as_str()) {
        path = file_argument.clone();
    } else {
        match index.lookup(&file_name) {
            Some(parent) => {
                path = path_join(parent.as_str(), file_name.as_str());
            },
            None => {
                path = String::new();
            },
        }
    }
    proof {
        assert(spec_is_absolute(path@) ==> path@ == first_candidate(entries, argv));
        assert(spec_is_absolute(first_candidate(entries, argv)) ==> path@ == first_candidate(
            entries,
            argv,
        ));
    }
    if !is_absolute(path.as_str()) {
        proof {
            assert(!spec_is_absolute(first_candidate(entries, argv)));
        }
        let fo_argument = match find_fo_argument(arguments) {
            Some(a) => a,
            None => {
                return Err(Ms2ccError::MissingFoArgument { arguments: arguments.clone() });
            },
        };
        // The found argument starts with the prefix, so stripping it
        // cannot fail; the proof shows the branch unreachable.
        let mut fo_path = match extract_fo_path(fo_argument.as_str()) {
            Ok(p) => p,
            Err(e) => {
                proof {
                    crate::compile_commands::lemma_first_fo_starts_with(argsv, 0);
                    assert(false);
                }
                return Err(e);
            },
        };
        let ghost fo0 = fo_path_of(argsv);
        proof {
            assert(fo_path@ == fo0);
        }
        while has_root(fo_path.as_str())
            invariant
                entries == index_entries(*index),
                argsv == arguments.deep_view(),
                argv == file_argument@,
                spec_is_source_arg(argv),
                !spec_is_absolute(argv),
                !spec_is_absolute(first_candidate(entries, argv)),
                file_name@ == spec_file_name(argv)->0,
                spec_first_fo(argsv, 0) is Some,
                fo0 == fo_path_of(argsv),
                reachable_by_pops(fo0, fo_path@),
            decreases fo_path@.len(),
        {
            let test1 = path_join(fo_path.as_str(), file_name.as_str());
            if probe_is_file(&test1) {
                return finish_resolution(test1, file_name, arguments);
            }
            let test2 = path_join(fo_path.as_str(), file_argument.as_str());
            if probe_is_file(&test2) {
                return finish_resolution(test2, file_name, arguments);
            }
            let ghost before = fo_path@;
            let popped = path_pop(&mut fo_path);
            if !popped {
                break;
            }
            proof {
                lemma_parent_shorter(before);
                assert(reachable_by_pops(fo_path@, fo_path@));
                assert(reachable_by_pops(before, fo_path@));
                lemma_pops_compose(fo0, before, fo_path@);
            }
        }
        if path.as_str().is_empty() {
            path = fo_path;
        }
    }
    finish_resolution(path, file_name, arguments)
}

/// Reachability by pops runs through intermediate stops.
proof fn lemma_pops_compose(a: Seq<char>, b: Seq<char>, c: Seq<char>)
    requires
        reachable_by_pops(a, b),
        reachable_by_pops(b, c),
    ensures
        reachable_by_pops(a, c),
    decreases a.len(),
{
    if b == a {
    } else if spec_parent(a) is Some {
        lemma_parent_shorter(a);
        lemma_pops_compose(spec_parent(a)->0, b, c);
    }
}

/// How many arguments at the tail of the vector look like source files.
pub open spec fn trailing_src_count(args: Seq<Seq<char>>) -> int
    decreases args.len(),
{
    if args.len() == 0 {
        0
    } else if spec_is_source_arg(args.last()) {
        1 + trailing_src_count(args.drop_last())
    } else {
        0
    }
}

/// The trailing-source count never exceeds the argument count.
pub proof fn lemma_trailing_count_le(args: Seq<Seq<char>>)
    ensures
        0 <= trailing_src_count(args) <= args.len(),
    decreases args.len(),
{
    if args.len() > 0 && spec_is_source_arg(args.last()) {
        lemma_trailing_count_le(args.drop_last());
    }
}

/// The scan from the end stops exactly at the trailing-source count.
proof fn lemma_trailing_count(args: Seq<Seq<char>>, start: int)
    requires
        0 <= start <= args.len(),
        forall|t: int| start <= t < args.len() ==> spec_is_source_arg(#[trigger] args[t]),
        start > 0 ==> !spec_is_source_arg(args[start - 1]),
    ensures
        trailing_src_count(args) == args.len() - start,
    decreases args.len(),
{
    if args.len() == 0 {
    } else if start < args.len() {
        assert(spec_is_source_arg(args.last()));
        assert(args.drop_last() =~= args.take(args.len() - 1));
        assert(forall|t: int|
            start <= t < args.drop_last().len() ==> spec_is_source_arg(
                #[trigger] args.drop_last()[t],
            ));
        if start > 0 {
            assert(args.drop_last()[start - 1] == args[start - 1]);
        }
        lemma_trailing_count(args.drop_last(), start);
    } else {
        if args.len() > 0 {
            assert(!spec_is_source_arg(args.last()));
        }
    }
}

/// Whether an argument looks like a source file.
fn is_source_file_argument(arg: &str) -> (r: bool)
    ensures
        r == spec_is_source_arg(arg@),
{
    let checked = extract_and_validate_filename(arg);
    match checked {
        Ok(_) => true,
        Err(_) => false,
    }
}

/// The mathematical shape of one resolver outcome.
pub open spec fn out_view(r: Result<CompileCommand, Ms2ccError>) -> Result<CompileCommandV, ErrV> {
    match r {
        Ok(c) => Ok(c.deep_view()),
        Err(e) => Err(e.deep_view()),
    }
}

/// A whole outcome vector in its mathematical shape.
pub open spec fn outs_view(s: Seq<Result<CompileCommand, Ms2ccError>>) -> Seq<
    Result<CompileCommandV, ErrV>,
> {
    s.map_values(|x: Result<CompileCommand, Ms2ccError>| out_view(x))
}

/// What one emitted outcome for `arg` may be: a record built from a path
/// the resolver can return, carrying the unchanged argument vector, or an
/// error the resolver or the record builder is allowed to report.
pub open spec fn build_outcome(
    entries: Map<Seq<char>, Option<Seq<char>>>,
    args: Seq<Seq<char>>,
    arg: Seq<char>,
    out: Result<CompileCommandV, ErrV>,
) -> bool {
    match out {
        Ok(c) => exists|p: Seq<char>|
            {
                &&& #[trigger] resolve_ok(entries, args, arg, p)
                &&& spec_parent(p) is Some
                &&& spec_parent(p)->0.len() > 0
                &&& spec_file_name(p) is Some
                &&& c == (CompileCommandV {
                    file: spec_file_name(p)->0,
                    directory: spec_parent(p)->0,
                    arguments: args,
                })
            },
        Err(e) => {
            ||| resolve_err_ok(entries, args, arg, e)
            ||| exists|p: Seq<char>|
                {
                    &&& #[trigger] resolve_ok(entries, args, arg, p)
                    &&& match e {
                        ErrV::MissingParent { path } => path == p && (spec_parent(p) is None
                            || spec_parent(p)->0.len() == 0),
                        ErrV::MissingFileName { path } => path == p && spec_file_name(p) is None,
                        _ => false,
                    }
                }
        },
    }
}

/// The command resolver: one token vector in, one ordered outcome list out.
pub struct CommandBuilder<'a> {
    pub file_index: &'a FileIndex,
}

impl<'a> CommandBuilder<'a> {
    /// A resolver reading the given finished file-name index.
    pub fn new(file_index: &'a FileIndex) -> (r: CommandBuilder<'a>)
        ensures
            r.file_index == file_index,
    {
        CommandBuilder { file_index }
    }

    /// Resolves one token vector into records and errors, in the order of
    /// the trailing source-file arguments.
    ///
    /// An empty vector yields exactly the one empty-vector error; a vector
    /// without trailing source files exactly the one missing-trailing-file
    /// error; otherwise one outcome per trailing source argument, each
    /// carrying the unchanged argument vector.
    pub fn build(&self, tokens: Vec<String>) -> (results: Vec<
        Result<CompileCommand, Ms2ccError>,
    >)
        ensures
            tokens.deep_view().len() == 0 ==> results@.len() == 1 && out_view(results@[0])
                == Err::<CompileCommandV, ErrV>(ErrV::EmptyTokenVector),
            tokens.deep_view().len() > 0 && trailing_src_count(tokens.deep_view()) == 0
                ==> results@.len() == 1 && out_view(results@[0]) == Err::<CompileCommandV, ErrV>(
                ErrV::MissingTrailingFile { arguments: tokens.deep_view() },
            ),
            trailing_src_count(tokens.deep_view()) > 0 ==> {
                let argsv = tokens.deep_view();
                let k = trailing_src_count(argsv);
                &&& results@.len() == k
                &&& forall|t: int|
                    0 <= t < k ==> build_outcome(
                        index_entries(*self.file_index),
                        argsv,
                        argsv[argsv.len() - k + t],
                        out_view(#[trigger] results@[t]),
                    )
            },
{
        let ghost entries = index_entries(*self.file_index);
        let ghost argsv = tokens.deep_view();
        if tokens.len() == 0 {
            let mut results: Vec<Result<CompileCommand, Ms2ccError>> = Vec::new();
            results.push(Err(Ms2ccError::EmptyTokenVector));
            return results;
        }
        let mut start: usize = tokens.len();
        while start > 0 && is_source_file_argument(tokens[start - 1].as_str())
            invariant
                start <= tokens.len(),
                argsv == tokens.deep_view(),
                forall|t: int|
                    start <= t < argsv.len() ==> spec_is_source_arg(#[trigger] argsv[t]),
            decreases start,
        {
            proof {
                assert(argsv[start - 1] == tokens@[start - 1]@);
            }
            start = start - 1;
        }
        proof {
            if start > 0 {
                assert(argsv[start - 1] == tokens@[start - 1]@);
            }
            lemma_trailing_count(argsv, start as int);
        }
        if start == tokens.len() {
            let mut results: Vec<Result<CompileCommand, Ms2ccError>> = Vec::new();
            results.push(Err(Ms2ccError::MissingTrailingFile { arguments: tokens }));
            return results;
        }
        let ghost k = trailing_src_count(argsv);
        let index = self.file_index;
        let mut results: Vec<Result<CompileCommand, Ms2ccError>> = Vec::new();
        let mut i: usize = start;
        while i < tokens.len()
            invariant
                start <= i <= tokens.len(),
                argsv == tokens.deep_view(),
                k == trailing_src_count(argsv),
                k == argsv.len() - start,
                entries == index_entries(*index),
                results@.len() == i - start,
                forall|t: int|
                    0 <= t < results@.len() ==> build_outcome(
                        entries,
                        argsv,
                        argsv[start + t],
                        out_view(#[trigger] results@[t]),
                    ),
            decreases tokens.len() - i,
        {
            proof {
                assert(argsv[i as int] == tokens@[i as int]@);
            }
            let outcome = resolve_source_path(index, &tokens, &tokens[i]);
            match outcome {
                Ok(path) => {
                    let ghost pv = path@;
                    let arguments = crate::text::clone_string_vec(&tokens);
                    let record = create_compile_command(path, arguments);
                    proof {
                        assert(resolve_ok(entries, argsv, argsv[i as int], pv));
                    }
                    match record {
                        Ok(c) => {
                            results.push(Ok(c));
                        },
                        Err(e) => {
                            results.push(Err(e));
                        },
                    }
                },
                Err(e) => {
                    results.push(Err(e));
                },
            }
            i = i + 1;
        }
        results
    }
}

} // verus!
