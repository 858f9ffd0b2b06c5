//! The two-stage pipeline, run to completion in order.
//!
//! Stage one consumes the walker's findings and builds the file-name index;
//! stage two scans the buffered log lines, tokenizes each logical command
//! and resolves it against the finished index.  The log lines can be taken
//! only once, which makes the two-phase call order mandatory.  The caller
//! owns the threads and channels, if any: the coordinator itself is the
//! sequential heart of both stages.

use vstd::prelude::*;

use crate::compile_commands::CompileCommand;
use crate::compile_commands::CompileCommandV;
use crate::error::ErrV;
use crate::error::Ms2ccError;
use crate::index::index_entries;
use crate::index::no_entries;
use crate::index::recorded_entry;
use crate::index::FileIndex;
use crate::log_scan::scan_outputs;
use crate::log_scan::LogLineIter;
use crate::log_scan::ScanItem;
use crate::log_scan::TokenIter;
use crate::parser::spec_tokenize;
use crate::paths::normalize_path;
use crate::paths::spec_file_name;
use crate::paths::spec_parent;
use crate::resolve::build_outcome;
use crate::resolve::out_view;
use crate::resolve::outs_view;
use crate::resolve::trailing_src_count;
use crate::resolve::CommandBuilder;
use crate::text::clone_string_vec;
use crate::text::unicode_lower;

verus! {

/// Configuration values required to execute the pipeline.
pub struct PipelineConfig {
    pub source_directory: String,
    pub exclude_directories: Vec<String>,
    pub file_extensions: Vec<String>,
    pub compiler_executable: String,
    pub log_path: String,
    pub log_lines: Vec<String>,
    pub max_threads: usize,
}

/// Coordinates the filesystem-index stage and the log-processing stage.
pub struct PipelineCoordinator {
    pub source_directory: String,
    pub exclude_directories: Vec<String>,
    pub file_extensions: Vec<String>,
    pub compiler_executable: String,
    pub log_path: String,
    pub log_lines: Option<Vec<String>>,
    pub max_threads: usize,
}

/// Outcome of the filesystem indexing stage.
pub struct LookupResult {
    pub file_index: FileIndex,
    pub errors: Vec<Ms2ccError>,
}

/// Outcome of the compile command generation stage.
pub struct DatabaseResult {
    pub compile_commands: Vec<CompileCommand>,
    pub errors: Vec<Ms2ccError>,
}

/// One walker finding folded into the index contents: when the path has a
/// file name and a parent, the lower-cased pair is recorded.
pub open spec fn index_step(
    m: Map<Seq<char>, Option<Seq<char>>>,
    path: Seq<char>,
) -> Map<Seq<char>, Option<Seq<char>>> {
    if spec_file_name(path) is Some && spec_parent(path) is Some {
        let n = unicode_lower(spec_file_name(path)->0);
        let p = unicode_lower(spec_parent(path)->0);
        m.insert(n, recorded_entry(m, n, p))
    } else {
        m
    }
}

/// The walker findings as character sequences and error shapes.
pub open spec fn walk_view(
    items: Seq<Result<String, Ms2ccError>>,
) -> Seq<Result<Seq<char>, ErrV>> {
    items.map_values(
        |it: Result<String, Ms2ccError>|
            match it {
                Ok(p) => Ok(p@),
                Err(e) => Err(e.deep_view()),
            },
    )
}

/// The index contents after folding a stream of walker findings into `m`.
pub open spec fn built_index_from(
    m: Map<Seq<char>, Option<Seq<char>>>,
    items: Seq<Result<Seq<char>, ErrV>>,
) -> Map<Seq<char>, Option<Seq<char>>>
    decreases items.len(),
{
    if items.len() == 0 {
        m
    } else {
        let m2 = match items[0] {
            Ok(path) => index_step(m, path),
            Err(_) => m,
        };
        built_index_from(m2, items.drop_first())
    }
}

/// The errors of a walker stream, in order.
pub open spec fn walk_errors(items: Seq<Result<Seq<char>, ErrV>>) -> Seq<ErrV>
    decreases items.len(),
{
    if items.len() == 0 {
        Seq::empty()
    } else {
        let rest = walk_errors(items.drop_first());
        match items[0] {
            Ok(_) => rest,
            Err(e) => seq![e] + rest,
        }
    }
}

/// The records of a flattened outcome stream, in order.
pub open spec fn oks_of(s: Seq<Result<CompileCommandV, ErrV>>) -> Seq<CompileCommandV>
    decreases s.len(),
{
    if s.len() == 0 {
        Seq::empty()
    } else {
        let rest = oks_of(s.drop_first());
        match s[0] {
            Ok(c) => seq![c] + rest,
            Err(_) => rest,
        }
    }
}

/// The errors of a flattened outcome stream, in order.
pub open spec fn errs_of(s: Seq<Result<CompileCommandV, ErrV>>) -> Seq<ErrV>
    decreases s.len(),
{
    if s.len() == 0 {
        Seq::empty()
    } else {
        let rest = errs_of(s.drop_first());
        match s[0] {
            Ok(_) => rest,
            Err(e) => seq![e] + rest,
        }
    }
}

/// Outcome groups joined into one stream.
pub open spec fn flat(groups: Seq<Seq<Result<CompileCommandV, ErrV>>>) -> Seq<
    Result<CompileCommandV, ErrV>,
>
    decreases groups.len(),
{
    if groups.len() == 0 {
        Seq::empty()
    } else {
        groups[0] + flat(groups.drop_first())
    }
}

/// What one scanner event may contribute to the database: the unexpected
/// lines their error, each complete command the resolver's outcomes for
/// its token vector.
pub open spec fn group_valid(
    entries: Map<Seq<char>, Option<Seq<char>>>,
    item: ScanItem,
    group: Seq<Result<CompileCommandV, ErrV>>,
) -> bool {
    match item {
        ScanItem::Unexpected { line, current } => group == seq![
            Err::<CompileCommandV, ErrV>(ErrV::UnexpectedLine { line: line, current: current }),
        ],
        ScanItem::Command { text } => {
            let args = spec_tokenize(text);
            let k = trailing_src_count(args);
            if args.len() == 0 {
                group == seq![Err::<CompileCommandV, ErrV>(ErrV::EmptyTokenVector)]
            } else if k == 0 {
                group == seq![
                    Err::<CompileCommandV, ErrV>(ErrV::MissingTrailingFile { arguments: args }),
                ]
            } else {
                group.len() == k && forall|t: int|
                    0 <= t < k ==> build_outcome(
                        entries,
                        args,
                        args[args.len() - k + t],
                        #[trigger] group[t],
                    )
            }
        },
    }
}

/// The scanner events of the coordinator's buffered log.
pub open spec fn stage_two_events(c: PipelineCoordinator) -> Seq<ScanItem> {
    scan_outputs(
        None,
        c.log_lines->0.deep_view().map_values(|l: Seq<char>| crate::text::trim_end_eol(l)),
        unicode_lower(c.compiler_executable@),
        c.file_extensions.deep_view(),
    )
}

/// Whether `groups` realizes the scanner events one for one.
pub open spec fn db_outcomes(
    entries: Map<Seq<char>, Option<Seq<char>>>,
    outs: Seq<ScanItem>,
    groups: Seq<Seq<Result<CompileCommandV, ErrV>>>,
) -> bool {
    groups.len() == outs.len() && forall|i: int|
        0 <= i < outs.len() ==> group_valid(entries, outs[i], #[trigger] groups[i])
}

/// Splitting a stream distributes over concatenation.
proof fn lemma_split_app(a: Seq<Result<CompileCommandV, ErrV>>, b: Seq<
    Result<CompileCommandV, ErrV>,
>)
    ensures
        oks_of(a + b) == oks_of(a) + oks_of(b),
        errs_of(a + b) == errs_of(a) + errs_of(b),
    decreases a.len(),
{
    if a.len() == 0 {
        assert(a + b =~= b);
        assert(oks_of(a) + oks_of(b) =~= oks_of(b));
        assert(errs_of(a) + errs_of(b) =~= errs_of(b));
    } else {
        assert((a + b).drop_first() =~= a.drop_first() + b);
        lemma_split_app(a.drop_first(), b);
        match a[0] {
            Ok(_) => {
                assert(oks_of(a + b) =~= oks_of(a) + oks_of(b));
                assert(errs_of(a + b) =~= errs_of(a) + errs_of(b));
            },
            Err(_) => {
                assert(oks_of(a + b) =~= oks_of(a) + oks_of(b));
                assert(errs_of(a + b) =~= errs_of(a) + errs_of(b));
            },
        }
    }
}

/// Appending one group extends the joined stream at its end.
proof fn lemma_flat_push(groups: Seq<Seq<Result<CompileCommandV, ErrV>>>, g: Seq<
    Result<CompileCommandV, ErrV>,
>)
    ensures
        flat(groups.push(g)) == flat(groups) + g,
    decreases groups.len(),
{
    if groups.len() == 0 {
        let gp = groups.push(g);
        assert(gp.drop_first() =~= Seq::<Seq<Result<CompileCommandV, ErrV>>>::empty());
        assert(flat(gp) == gp[0] + flat(gp.drop_first()));
        assert(gp[0] == g);
        assert(flat(gp) =~= flat(groups) + g);
    } else {
        let gp = groups.push(g);
        assert(gp.drop_first() =~= groups.drop_first().push(g));
        lemma_flat_push(groups.drop_first(), g);
        assert(gp[0] == groups[0]);
        assert(flat(gp) == gp[0] + flat(gp.drop_first()));
        assert(flat(gp.drop_first()) == flat(groups.drop_first()) + g);
        assert(flat(gp) =~= flat(groups) + g);
    }
}

impl PipelineCoordinator {
    /// A coordinator holding the validated configuration and the buffered
    /// log lines.
    pub fn new(config: PipelineConfig) -> (r: PipelineCoordinator)
        ensures
            r.source_directory == config.source_directory,
            r.exclude_directories == config.exclude_directories,
            r.file_extensions == config.file_extensions,
            r.compiler_executable == config.compiler_executable,
            r.log_path == config.log_path,
            r.log_lines == Some(config.log_lines),
            r.max_threads == config.max_threads,
    {
        PipelineCoordinator {
            source_directory: config.source_directory,
            exclude_directories: config.exclude_directories,
            file_extensions: config.file_extensions,
            compiler_executable: config.compiler_executable,
            log_path: config.log_path,
            log_lines: Some(config.log_lines),
            max_threads: config.max_threads,
        }
    }

    /// Stage one: folds the walker findings into a fresh file-name index
    /// and collects the walker's errors, in order.
    pub fn build_lookup_tree(&self, entries: Vec<Result<String, Ms2ccError>>) -> (r: LookupResult)
        ensures
            index_entries(r.file_index) == built_index_from(no_entries(), walk_view(entries@)),
            r.errors.deep_view() == walk_errors(walk_view(entries@)),
    {
        let ghost wv = walk_view(entries@);
        let mut file_index = FileIndex::new();
        let mut errors: Vec<Ms2ccError> = Vec::new();
        let mut i: usize = 0;
        proof {
            assert(wv.skip(0) =~= wv);
            assert(errors.deep_view() + walk_errors(wv) =~= walk_errors(wv));
        }
        while i < entries.len()
            invariant
                i <= entries.len(),
                wv == walk_view(entries@),
                wv.len() == entries@.len(),
                built_index_from(no_entries(), wv) == built_index_from(
                    index_entries(file_index),
                    wv.skip(i as int),
                ),
                walk_errors(wv) == errors.deep_view() + walk_errors(wv.skip(i as int)),
            decreases entries.len() - i,
        {
            proof {
                assert(wv.skip(i as int)[0] == wv[i as int]);
                assert(wv.skip(i as int).drop_first() =~= wv.skip(i as int + 1));
            }
            match &entries[i] {
                Ok(path) => {
                    proof {
                        assert(wv[i as int] == Ok::<Seq<char>, ErrV>(path@));
                    }
                    let name_opt = crate::paths::file_name_of(path.as_str());
                    let parent_opt = crate::paths::parent_of(path.as_str());
                    match (name_opt, parent_opt) {
                        (Some(name), Some(parent)) => {
                            let ghost pre = index_entries(file_index);
                            let lname = normalize_path(name.as_str());
                            let lparent = normalize_path(parent.as_str());
                            file_index.record(lname, lparent);
                            proof {
                                assert(spec_file_name(path@) is Some);
                                assert(spec_parent(path@) is Some);
                                assert(index_entries(file_index) == index_step(pre, path@));
                            }
                        },
                        _ => {
                            proof {
                                assert(index_step(index_entries(file_index), path@)
                                    == index_entries(file_index));
                            }
                        },
                    }
                },
                Err(e) => {
                    errors.push(crate::error::clone_error(e));
                },
            }
            i = i + 1;
            proof {
                assert(walk_errors(wv) =~= errors.deep_view() + walk_errors(wv.skip(i as int)));
            }
        }
        proof {
            assert(wv.skip(entries@.len() as int) =~= Seq::<Result<Seq<char>, ErrV>>::empty());
            assert(errors.deep_view() + walk_errors(wv.skip(entries@.len() as int)) =~= errors
                .deep_view());
        }
        LookupResult { file_index, errors }
    }

    /// Stage two: scans the buffered log, tokenizes each logical command,
    /// resolves it against the finished index, and collects the records
    /// and errors each in emission order.
    ///
    /// The log lines are consumed: the stage can run only once.
    pub fn generate_compile_commands(&mut self, file_index: &FileIndex) -> (r: DatabaseResult)
        requires
            old(self).log_lines is Some,
        ensures
            final(self).log_lines is None,
            final(self).source_directory == old(self).source_directory,
            final(self).exclude_directories == old(self).exclude_directories,
            final(self).file_extensions == old(self).file_extensions,
            final(self).compiler_executable == old(self).compiler_executable,
            final(self).log_path == old(self).log_path,
            final(self).max_threads == old(self).max_threads,
            exists|groups: Seq<Seq<Result<CompileCommandV, ErrV>>>|
                #![trigger db_outcomes(index_entries(*file_index), stage_two_events(*old(self)), groups)]
                {
                    &&& db_outcomes(
                        index_entries(*file_index),
                        stage_two_events(*old(self)),
                        groups,
                    )
                    &&& r.compile_commands.deep_view() == oks_of(flat(groups))
                    &&& r.errors.deep_view() == errs_of(flat(groups))
                },
    {
        let lines = self.log_lines.take().unwrap();
        let extensions = clone_string_vec(&self.file_extensions);
        proof {
            assert(extensions.deep_view() =~= self.file_extensions.deep_view());
        }
        let scanner = LogLineIter::new(lines, self.compiler_executable.as_str(), extensions);
        proof {
            assert(scanner.lines.deep_view().skip(0) =~= scanner.lines.deep_view());
        }
        let ghost outs = scanner.remaining_outputs();
        let mut tokens_iter = TokenIter::new(scanner);
        let builder = CommandBuilder::new(file_index);
        let mut compile_commands: Vec<CompileCommand> = Vec::new();
        let mut errors: Vec<Ms2ccError> = Vec::new();
        let ghost entries = index_entries(*file_index);
        let ghost mut groups: Seq<Seq<Result<CompileCommandV, ErrV>>> = Seq::empty();
        let ghost mut done: Seq<ScanItem> = Seq::empty();
        proof {
            assert(flat(groups) =~= Seq::<Result<CompileCommandV, ErrV>>::empty());
            assert(done + tokens_iter.inner.remaining_outputs() =~= outs);
        }
        loop
            invariant_except_break
                entries == index_entries(*file_index),
                builder.file_index == file_index,
                outs == done + tokens_iter.inner.remaining_outputs(),
                db_outcomes(entries, done, groups),
                compile_commands.deep_view() == oks_of(flat(groups)),
                errors.deep_view() == errs_of(flat(groups)),
            ensures
                db_outcomes(entries, outs, groups),
                compile_commands.deep_view() == oks_of(flat(groups)),
                errors.deep_view() == errs_of(flat(groups)),
            decreases tokens_iter.inner.remaining_outputs().len(),
        {
            let ghost rem_before = tokens_iter.inner.remaining_outputs();
            let item = tokens_iter.next_item();
            match item {
                None => {
                    proof {
                        assert(outs =~= done);
                    }
                    break;
                },
                Some(next) => {
                    let ghost head = rem_before[0];
                    let group: Vec<Result<CompileCommand, Ms2ccError>> = match next {
                        Ok(tokens) => builder.build(tokens),
                        Err(e) => {
                            let mut one: Vec<Result<CompileCommand, Ms2ccError>> = Vec::new();
                            one.push(Err(e));
                            one
                        },
                    };
                    let ghost gv = outs_view(group@);
                    proof {
                        if head is Unexpected {
                            assert(gv =~= seq![
                                Err::<CompileCommandV, ErrV>(
                                    ErrV::UnexpectedLine {
                                        line: head->Unexpected_line,
                                        current: head->Unexpected_current,
                                    },
                                ),
                            ]);
                        } else {
                            let args = spec_tokenize(head->Command_text);
                            crate::resolve::lemma_trailing_count_le(args);
                            let k = trailing_src_count(args);
                            if args.len() == 0 {
                                assert(gv =~= seq![
                                    Err::<CompileCommandV, ErrV>(ErrV::EmptyTokenVector),
                                ]);
                            } else if k == 0 {
                                assert(gv =~= seq![
                                    Err::<CompileCommandV, ErrV>(
                                        ErrV::MissingTrailingFile { arguments: args },
                                    ),
                                ]);
                            } else {
                                assert forall|t: int| 0 <= t < k implies build_outcome(
                                    entries,
                                    args,
                                    args[args.len() - k + t],
                                    #[trigger] gv[t],
                                ) by {
                                    assert(gv[t] == out_view(group@[t]));
                                }
                            }
                        }
                        assert(group_valid(entries, head, gv));
                    }
                    push_group(&mut compile_commands, &mut errors, group);
                    proof {
                        let ghost groups0 = groups;
                        done = done.push(head);
                        groups = groups.push(gv);
                        lemma_flat_push(groups0, gv);
                        lemma_split_app(flat(groups0), gv);
                        assert(done + tokens_iter.inner.remaining_outputs() =~= outs);
                        assert forall|i: int| 0 <= i < done.len() implies group_valid(
                            entries,
                            done[i],
                            #[trigger] groups[i],
                        ) by {
                            if i < done.len() - 1 {
                                assert(groups[i] == groups0[i]);
                                assert(done[i] == done.drop_last()[i]);
                            }
                        }
                    }
                },
            }
        }
        proof {
            assert(outs == stage_two_events(*old(self)));
            assert(db_outcomes(index_entries(*file_index), stage_two_events(*old(self)), groups));
        }
        DatabaseResult { compile_commands, errors }
    }
}

/// Moves one group of outcomes onto the records and errors, keeping each
/// side's order.
fn push_group(
    compile_commands: &mut Vec<CompileCommand>,
    errors: &mut Vec<Ms2ccError>,
    group: Vec<Result<CompileCommand, Ms2ccError>>,
)
    ensures
        final(compile_commands).deep_view() == old(compile_commands).deep_view() + oks_of(
            outs_view(group@),
        ),
        final(errors).deep_view() == old(errors).deep_view() + errs_of(outs_view(group@)),
{
    let ghost gv = outs_view(group@);
    let mut rest = group;
    let ghost mut j: int = 0;
    proof {
        assert(outs_view(rest@) =~= gv.skip(0));
        assert(old(compile_commands).deep_view() + oks_of(gv.take(0)) =~= compile_commands
            .deep_view());
        assert(old(errors).deep_view() + errs_of(gv.take(0)) =~= errors.deep_view());
    }
    while rest.len() > 0
        invariant
            0 <= j <= gv.len(),
            j == gv.len() - rest@.len(),
            outs_view(rest@) == gv.skip(j),
            compile_commands.deep_view() == old(compile_commands).deep_view() + oks_of(
                gv.take(j),
            ),
            errors.deep_view() == old(errors).deep_view() + errs_of(gv.take(j)),
        decreases rest.len(),
    {
        let ghost rb = rest@;
        proof {
            assert(outs_view(rb)[0] == out_view(rb[0]));
            assert(gv.skip(j)[0] == gv[j]);
            assert(gv[j] == out_view(rb[0]));
        }
        let x = rest.remove(0);
        proof {
            assert(rest@ =~= rb.drop_first());
            assert forall|t: int| 0 <= t < rest@.len() implies #[trigger] outs_view(rest@)[t]
                == gv.skip(j + 1)[t] by {
                assert(outs_view(rest@)[t] == out_view(rest@[t]));
                assert(rest@[t] == rb[t + 1]);
                assert(outs_view(rb)[t + 1] == out_view(rb[t + 1]));
                assert(gv.skip(j)[t + 1] == gv[j + 1 + t]);
            }
            assert(outs_view(rest@) =~= gv.skip(j + 1));
            assert(gv.take(j + 1) =~= gv.take(j) + seq![gv[j]]);
            lemma_split_app(gv.take(j), seq![gv[j]]);
            assert(seq![gv[j]].drop_first() =~= Seq::<Result<CompileCommandV, ErrV>>::empty());
            assert(seq![gv[j]][0] == gv[j]);
        }
        match x {
            Ok(c) => {
                proof {
                    assert(gv[j] == Ok::<CompileCommandV, ErrV>(c.deep_view()));
                    let sg = seq![gv[j]];
                    assert(sg.len() == 1 && sg[0] == gv[j]);
                    assert(oks_of(sg.drop_first()) =~= Seq::<CompileCommandV>::empty());
                    assert(errs_of(sg.drop_first()) =~= Seq::<ErrV>::empty());
                    assert(oks_of(sg) == seq![c.deep_view()] + oks_of(sg.drop_first()));
                    assert(oks_of(sg) =~= seq![c.deep_view()]);
                    assert(errs_of(sg) =~= Seq::<ErrV>::empty());
                }
                let ghost cc_pre = compile_commands.deep_view();
                compile_commands.push(c);
                proof {
                    assert(compile_commands.deep_view() =~= cc_pre.push(c.deep_view()));
                    assert(oks_of(gv.take(j + 1)) == oks_of(gv.take(j)) + oks_of(seq![gv[j]]));
                    assert(compile_commands.deep_view() =~= old(compile_commands).deep_view()
                        + oks_of(gv.take(j + 1)));
                    assert(errs_of(gv.take(j + 1)) == errs_of(gv.take(j)) + errs_of(seq![gv[j]]));
                    assert(errors.deep_view() =~= old(errors).deep_view() + errs_of(
                        gv.take(j + 1),
                    ));
                }
            },
            Err(e) => {
                proof {
                    assert(gv[j] == Err::<CompileCommandV, ErrV>(e.deep_view()));
                    let sg = seq![gv[j]];
                    assert(sg.len() == 1 && sg[0] == gv[j]);
                    assert(oks_of(sg.drop_first()) =~= Seq::<CompileCommandV>::empty());
                    assert(errs_of(sg.drop_first()) =~= Seq::<ErrV>::empty());
                    assert(errs_of(sg) == seq![e.deep_view()] + errs_of(sg.drop_first()));
                    assert(errs_of(sg) =~= seq![e.deep_view()]);
                    assert(oks_of(sg) =~= Seq::<CompileCommandV>::empty());
                }
                let ghost ee_pre = errors.deep_view();
                errors.push(e);
                proof {
                    assert(errors.deep_view() =~= ee_pre.push(e.deep_view()));
                    assert(errs_of(gv.take(j + 1)) == errs_of(gv.take(j)) + errs_of(seq![gv[j]]));
                    assert(errors.deep_view() =~= old(errors).deep_view() + errs_of(
                        gv.take(j + 1),
                    ));
                    assert(oks_of(gv.take(j + 1)) == oks_of(gv.take(j)) + oks_of(seq![gv[j]]));
                    assert(compile_commands.deep_view() =~= old(compile_commands).deep_view()
                        + oks_of(gv.take(j + 1)));
                }
            },
        }
        proof {
            j = j + 1;
        }
    }
    proof {
        assert(gv.take(gv.len() as int) =~= gv);
    }
}

} // verus!
