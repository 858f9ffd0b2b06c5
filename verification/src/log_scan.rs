//! The log-scanning state machine.
//!
//! The scanner walks the log line by line.  A line holding the target
//! compiler's name as a whole token starts a command; the command is complete
//! once a line ends in a source-file extension — compilers place the file
//! last, and the log dialect wraps long invocations over several physical
//! lines with no continuation marker, so that trailing extension is the one
//! reliable anchor.  A fresh compiler line arriving while a command is
//! still open is reported as an unexpected line and the partial command is
//! dropped, so one malformed log region never ends the run.

use vstd::prelude::*;

use crate::error::ErrV;
use crate::error::Ms2ccError;
use crate::parser::ends_with_cpp_source_file;
use crate::parser::spec_ends_with_src;
use crate::parser::spec_tokenize;
use crate::parser::tokenize_compile_command;
use crate::text::char_range_to_string;
use crate::text::chars_contains_seq;
use crate::text::chars_find_seq;
use crate::text::lower_string_unicode;
use crate::text::spec_contains_seq;
use crate::text::unicode_lower;
use crate::text::str_to_char_vec;
use crate::text::trim_end_eol;
use crate::text::trim_end_eol_index;
use crate::text::trim_end_quotes;
use crate::text::trim_end_quotes_range;
use crate::text::trim_start_quotes;
use crate::text::trim_start_quotes_range;

verus! {

/// Whether `c` can end the text just before an executable name: path
/// separators, blanks, quotes and an opening parenthesis.
pub open spec fn is_break_char(c: char) -> bool {
    c == '\\' || c == '/' || c == ' ' || c == '\t' || c == '"' || c == '\'' || c == '('
}

/// The index of the last break character of `s`, or `-1`.
pub open spec fn find_last_break(s: Seq<char>) -> int
    decreases s.len(),
{
    if s.len() == 0 {
        -1
    } else if is_break_char(s.last()) {
        s.len() - 1
    } else {
        find_last_break(s.drop_last())
    }
}

/// The index one past the last break character of `cs[..end]`.
fn break_scan(cs: &Vec<char>, end: usize) -> (i: usize)
    requires
        end <= cs.len(),
    ensures
        i <= end,
        find_last_break(cs@.take(end as int)) == i as int - 1,
{
    let mut i: usize = end;
    while i > 0 && !(cs[i - 1] == '\\' || cs[i - 1] == '/' || cs[i - 1] == ' ' || cs[i - 1]
        == '\t' || cs[i - 1] == '"' || cs[i - 1] == '\'' || cs[i - 1] == '(')
        invariant
            i <= end <= cs.len(),
            find_last_break(cs@.take(end as int)) == find_last_break(cs@.take(i as int)),
        decreases i,
    {
        proof {
            assert(cs@.take(i as int).drop_last() =~= cs@.take(i as int - 1));
        }
        i = i - 1;
    }
    i
}

/// Whether `c` bounds a token.
fn is_break(c: char) -> (r: bool)
    ensures
        r == is_break_char(c),
{
    c == '\\' || c == '/' || c == ' ' || c == '\t' || c == '"' || c == '\'' || c == '('
}

/// Whether position `i` of `s` holds `comp` as a whole token: the
/// occurrence is bounded by break characters or by the ends of the line.
pub open spec fn compiler_token_at(s: Seq<char>, comp: Seq<char>, i: int) -> bool {
    &&& 0 <= i
    &&& i + comp.len() <= s.len()
    &&& s.subrange(i, i + comp.len()) == comp
    &&& (i == 0 || is_break_char(s[i - 1]))
    &&& (i + comp.len() == s.len() || is_break_char(s[i + comp.len()]))
}

/// Whether `s` holds `comp` as a whole token at any position.
pub open spec fn spec_has_compiler_token(s: Seq<char>, comp: Seq<char>) -> bool {
    exists|i: int| #[trigger] compiler_token_at(s, comp, i)
}

/// Scans a line for the compiler name as a whole token.
fn has_compiler_token(cs: &Vec<char>, comp: &Vec<char>) -> (r: bool)
    ensures
        r == spec_has_compiler_token(cs@, comp@),
{
    let n = cs.len();
    let m = comp.len();
    if m > n {
        proof {
            assert(forall|k: int| !(#[trigger] compiler_token_at(cs@, comp@, k)));
        }
        return false;
    }
    let bound = n - m;
    let mut i: usize = 0;
    loop
        invariant_except_break
            n == cs.len(),
            m == comp.len(),
            m <= n,
            bound == n - m,
            i <= bound,
            forall|k: int| 0 <= k < i ==> !(#[trigger] compiler_token_at(cs@, comp@, k)),
        ensures
            forall|k: int| 0 <= k <= bound ==> !(#[trigger] compiler_token_at(cs@, comp@, k)),
        decreases bound - i,
    {
        let mut j: usize = 0;
        let mut matched: bool = true;
        while j < m
            invariant
                i + m <= n,
                n == cs.len(),
                m == comp.len(),
                j <= m,
                matched ==> forall|k: int| 0 <= k < j ==> cs@[i + k] == comp@[k],
                !matched ==> cs@.subrange(i as int, i + comp@.len()) != comp@,
            decreases m - j,
        {
            if cs[i + j] != comp[j] {
                proof {
                    assert(cs@.subrange(i as int, i + comp@.len())[j as int] != comp@[
                    j as int]);
                }
                matched = false;
                j = m;
            } else {
                j = j + 1;
            }
        }
        if matched {
            proof {
                assert(cs@.subrange(i as int, i + comp@.len()) =~= comp@);
            }
            let left_ok = if i == 0 {
                true
            } else {
                is_break(cs[i - 1])
            };
            let right_ok = if i + m == n {
                true
            } else {
                is_break(cs[i + m])
            };
            if left_ok && right_ok {
                proof {
                    assert(compiler_token_at(cs@, comp@, i as int));
                }
                return true;
            }
        }
        proof {
            assert(!compiler_token_at(cs@, comp@, i as int));
        }
        if i == bound {
            break;
        }
        i = i + 1;
    }
    proof {
        assert(forall|k: int| !(#[trigger] compiler_token_at(cs@, comp@, k)));
    }
    false
}

/// The first index at or after `j` where `needle` occurs in `hay`; `-1`
/// when it occurs nowhere there.
pub open spec fn spec_find_seq(hay: Seq<char>, needle: Seq<char>, j: int) -> int
    decreases hay.len() + 1 - j,
{
    if j < 0 || j + needle.len() > hay.len() {
        -1
    } else if hay.subrange(j, j + needle.len()) == needle {
        j
    } else {
        spec_find_seq(hay, needle, j + 1)
    }
}

/// A first match found by scanning is the first match of the search spec.
proof fn lemma_find_seq_some(hay: Seq<char>, needle: Seq<char>, j: int, i: int)
    requires
        0 <= j <= i,
        i + needle.len() <= hay.len(),
        hay.subrange(i, i + needle.len()) == needle,
        forall|k: int| 0 <= k < i ==> #[trigger] hay.subrange(k, k + needle.len()) != needle,
    ensures
        spec_find_seq(hay, needle, j) == i,
    decreases i - j,
{
    if j < i {
        lemma_find_seq_some(hay, needle, j + 1, i);
    }
}

/// When no position matches, the search spec reports `-1`.
proof fn lemma_find_seq_none(hay: Seq<char>, needle: Seq<char>, j: int)
    requires
        0 <= j,
        forall|k: int|
            0 <= k && k + needle.len() <= hay.len() ==> #[trigger] hay.subrange(
                k,
                k + needle.len(),
            ) != needle,
    ensures
        spec_find_seq(hay, needle, j) == -1,
    decreases hay.len() + 1 - j,
{
    if j + needle.len() <= hay.len() {
        lemma_find_seq_none(hay, needle, j + 1);
    }
}

/// The first executable name of a line: the text running from the last
/// break character before the first `.exe` up to that `.exe`, stripped of
/// surrounding quotes.  Nothing, when the line holds no `.exe`.
pub open spec fn spec_first_exec_name(line: Seq<char>) -> Option<Seq<char>> {
    let m = spec_find_seq(line, seq!['.', 'e', 'x', 'e'], 0);
    if m == -1 {
        None
    } else {
        let prefix = line.take(m + 4);
        let start = find_last_break(prefix) + 1;
        Some(
            trim_start_quotes(trim_end_quotes(prefix.subrange(start, prefix.len() as int))),
        )
    }
}

/// Picks the first executable name out of a line.
pub fn first_executable_name(line: &str) -> (r: Option<String>)
    ensures
        match r {
            Some(name) => spec_first_exec_name(line@) == Some(name@),
            None => spec_first_exec_name(line@) is None,
        },
{
    let cs = str_to_char_vec(line);
    let needle = vec!['.', 'e', 'x', 'e'];
    proof {
        assert(needle@ =~= seq!['.', 'e', 'x', 'e']);
    }
    let found = chars_find_seq(&cs, &needle);
    match found {
        None => {
            proof {
                lemma_find_seq_none(cs@, needle@, 0);
            }
            None
        },
        Some(m) => {
            proof {
                lemma_find_seq_some(cs@, needle@, 0, m as int);
                assert(needle@.len() == 4);
                assert(m + 4 <= cs.len());
            }
            let pend = m + 4;
            let start = break_scan(&cs, pend);
            proof {
                assert(cs@.take(pend as int).subrange(start as int, pend as int) =~= cs@.subrange(
                    start as int,
                    pend as int,
                ));
            }
            let e2 = trim_end_quotes_range(&cs, start, pend);
            let s2 = trim_start_quotes_range(&cs, start, e2);
            Some(char_range_to_string(&cs, s2, e2))
        },
    }
}

/// One event the scanner can emit: a complete logical command, or an
/// unexpected fresh compiler line together with the partial command it
/// interrupted.
pub enum ScanItem {
    Command { text: Seq<char> },
    Unexpected { line: Seq<char>, current: Seq<char> },
}

/// One line of scanner input: the new accumulation state and the event
/// emitted, if any.  A fresh line starts a command when it holds the
/// lower-cased compiler name as a whole token at any position.
pub open spec fn scan_step(
    pending: Option<Seq<char>>,
    line: Seq<char>,
    comp: Seq<char>,
    exts: Seq<Seq<char>>,
) -> (Option<Seq<char>>, Option<ScanItem>) {
    match pending {
        Some(cmd) => {
            let joined = cmd + seq![' '] + line;
            if spec_ends_with_src(line, exts) {
                (None, Some(ScanItem::Command { text: joined }))
            } else if spec_contains_seq(unicode_lower(line), comp) {
                (None, Some(ScanItem::Unexpected { line: line, current: joined }))
            } else {
                (Some(joined), None)
            }
        },
        None => {
            if !spec_has_compiler_token(unicode_lower(line), comp) {
                (None, None)
            } else if spec_ends_with_src(line, exts) {
                (None, Some(ScanItem::Command { text: line }))
            } else {
                (Some(line), None)
            }
        },
    }
}

/// Every event the scanner will emit for the given lines, starting from
/// the given accumulation state.  A command still open at the end of the
/// log is dropped.
pub open spec fn scan_outputs(
    pending: Option<Seq<char>>,
    lines: Seq<Seq<char>>,
    comp: Seq<char>,
    exts: Seq<Seq<char>>,
) -> Seq<ScanItem>
    decreases lines.len(),
{
    if lines.len() == 0 {
        Seq::empty()
    } else {
        let stepped = scan_step(pending, lines[0], comp, exts);
        let rest = scan_outputs(stepped.0, lines.drop_first(), comp, exts);
        match stepped.1 {
            Some(item) => seq![item] + rest,
            None => rest,
        }
    }
}

/// Whether an emitted value realizes a scanner event.
pub open spec fn item_matches(item: ScanItem, r: Result<String, Ms2ccError>) -> bool {
    match item {
        ScanItem::Command { text } => r is Ok && r->Ok_0@ == text,
        ScanItem::Unexpected { line, current } => r is Err && r->Err_0.deep_view() == (
        ErrV::UnexpectedLine { line: line, current: current }),
    }
}

/// The scanner: yields the logical compile commands found in the log
/// lines, and an error for each unexpected interleaved compiler line.
pub struct LogLineIter {
    pub lines: Vec<String>,
    pub pos: usize,
    pub compiler_exe_lower: String,
    pub file_extensions: Vec<String>,
    pub pending_command: Option<String>,
}

/// The accumulation state as a character sequence.
pub open spec fn pending_view(p: Option<String>) -> Option<Seq<char>> {
    match p {
        Some(s) => Some(s@),
        None => None,
    }
}

impl LogLineIter {
    /// The log lines not yet consumed, each without its line ending.
    pub open spec fn remaining_lines(self) -> Seq<Seq<char>> {
        if self.pos <= self.lines.len() {
            self.lines.deep_view().skip(self.pos as int).map_values(
                |l: Seq<char>| trim_end_eol(l),
            )
        } else {
            Seq::empty()
        }
    }

    /// The events this scanner will still emit.
    pub open spec fn remaining_outputs(self) -> Seq<ScanItem> {
        scan_outputs(
            pending_view(self.pending_command),
            self.remaining_lines(),
            self.compiler_exe_lower@,
            self.file_extensions.deep_view(),
        )
    }

    /// A scanner over the given log lines, looking for the given compiler
    /// executable (matched on the lower-cased line) and extensions.
    pub fn new(lines: Vec<String>, compiler_executable: &str, file_extensions: Vec<String>) -> (r:
        LogLineIter)
        ensures
            r.lines == lines,
            r.pos == 0,
            r.compiler_exe_lower@ == unicode_lower(compiler_executable@),
            r.file_extensions == file_extensions,
            r.pending_command is None,
    {
        LogLineIter {
            lines,
            pos: 0,
            compiler_exe_lower: lower_string_unicode(compiler_executable),
            file_extensions,
            pending_command: None,
        }
    }

    /// The next scanner event: the next complete logical command, or the
    /// next unexpected-line error; nothing once the lines are exhausted.
    pub fn next_item(&mut self) -> (r: Option<Result<String, Ms2ccError>>)
        ensures
            final(self).lines == old(self).lines,
            final(self).compiler_exe_lower == old(self).compiler_exe_lower,
            final(self).file_extensions == old(self).file_extensions,
            match r {
                None => old(self).remaining_outputs() == Seq::<ScanItem>::empty()
                    && final(self).remaining_outputs() == Seq::<ScanItem>::empty(),
                Some(item) => old(self).remaining_outputs().len() > 0 && item_matches(
                    old(self).remaining_outputs()[0],
                    item,
                ) && final(self).remaining_outputs() == old(self).remaining_outputs().drop_first(),
            },
    {
        while self.pos < self.lines.len()
            invariant
                self.lines == old(self).lines,
                self.compiler_exe_lower == old(self).compiler_exe_lower,
                self.file_extensions == old(self).file_extensions,
                self.remaining_outputs() == old(self).remaining_outputs(),
            decreases self.lines.len() - self.pos,
        {
            let ghost before = *self;
            let ghost comp = self.compiler_exe_lower@;
            let ghost exts = self.file_extensions.deep_view();
            let cs = str_to_char_vec(self.lines[self.pos].as_str());
            proof {
                assert(cs@.take(cs.len() as int) =~= cs@);
            }
            let e = trim_end_eol_index(&cs, cs.len());
            proof {
                assert(cs@.take(e as int) =~= cs@.subrange(0, e as int));
            }
            let line = char_range_to_string(&cs, 0, e);
            self.pos = self.pos + 1;
            proof {
                lemma_remaining_lines_step(before, *self);
                assert(line@ == before.remaining_lines()[0]);
                lemma_scan_emit(
                    pending_view(before.pending_command),
                    before.remaining_lines(),
                    comp,
                    exts,
                );
            }
            let ghost rest = self.remaining_lines();
            let pending = self.pending_command.take();
            match pending {
                Some(cmd) => {
                    let ghost cmdv = cmd@;
                    let mut joined = cmd;
                    joined.append(" ");
                    joined.append(line.as_str());
                    proof {
                        reveal_strlit(" ");
                        assert(" "@ =~= seq![' ']);
                        assert(joined@ == cmdv + seq![' '] + line@);
                    }
                    if ends_with_cpp_source_file(line.as_str(), &self.file_extensions) {
                        proof {
                            let item = ScanItem::Command { text: joined@ };
                            assert(scan_step(Some(cmdv), line@, comp, exts) == (
                                None::<Seq<char>>,
                                Some(item),
                            ));
                            assert((seq![item] + scan_outputs(None, rest, comp, exts))
                                .drop_first() =~= scan_outputs(None, rest, comp, exts));
                        }
                        return Some(Ok(joined));
                    }
                    let lower_line = lower_string_unicode(line.as_str());
                    let lower_cs = str_to_char_vec(lower_line.as_str());
                    let comp_cs = str_to_char_vec(self.compiler_exe_lower.as_str());
                    if chars_contains_seq(&lower_cs, &comp_cs) {
                        proof {
                            let item = ScanItem::Unexpected { line: line@, current: joined@ };
                            assert(scan_step(Some(cmdv), line@, comp, exts) == (
                                None::<Seq<char>>,
                                Some(item),
                            ));
                            assert((seq![item] + scan_outputs(None, rest, comp, exts))
                                .drop_first() =~= scan_outputs(None, rest, comp, exts));
                        }
                        return Some(
                            Err(Ms2ccError::UnexpectedLine { line: line, current: joined }),
                        );
                    }
                    proof {
                        assert(scan_step(Some(cmdv), line@, comp, exts) == (
                            Some(joined@),
                            None::<ScanItem>,
                        ));
                    }
                    self.pending_command = Some(joined);
                },
                None => {
                    let lower_line = lower_string_unicode(line.as_str());
                    let lower_cs = str_to_char_vec(lower_line.as_str());
                    let comp_cs = str_to_char_vec(self.compiler_exe_lower.as_str());
                    if has_compiler_token(&lower_cs, &comp_cs) {
                        if ends_with_cpp_source_file(line.as_str(), &self.file_extensions) {
                            proof {
                                let item = ScanItem::Command { text: line@ };
                                assert(scan_step(None, line@, comp, exts) == (
                                    None::<Seq<char>>,
                                    Some(item),
                                ));
                                assert((seq![item] + scan_outputs(None, rest, comp, exts))
                                    .drop_first() =~= scan_outputs(None, rest, comp, exts));
                            }
                            return Some(Ok(line));
                        }
                        proof {
                            assert(scan_step(None, line@, comp, exts) == (
                                Some(line@),
                                None::<ScanItem>,
                            ));
                        }
                        self.pending_command = Some(line);
                    } else {
                        proof {
                            assert(scan_step(None, line@, comp, exts) == (
                                None::<Seq<char>>,
                                None::<ScanItem>,
                            ));
                        }
                    }
                },
            }
        }
        proof {
            assert(self.remaining_lines().len() == 0);
            assert(self.remaining_outputs() =~= Seq::<ScanItem>::empty());
        }
        None
    }
}

/// One line of output unfolds to one step of the state machine.
proof fn lemma_scan_emit(
    p: Option<Seq<char>>,
    lines: Seq<Seq<char>>,
    comp: Seq<char>,
    exts: Seq<Seq<char>>,
)
    requires
        lines.len() > 0,
    ensures
        ({
            let stepped = scan_step(p, lines[0], comp, exts);
            scan_outputs(p, lines, comp, exts) == match stepped.1 {
                Some(item) => seq![item] + scan_outputs(
                    stepped.0,
                    lines.drop_first(),
                    comp,
                    exts,
                ),
                None => scan_outputs(stepped.0, lines.drop_first(), comp, exts),
            }
        }),
{
}

/// Consuming one line shifts the remaining lines by one.
proof fn lemma_remaining_lines_step(before: LogLineIter, after: LogLineIter)
    requires
        before.pos < before.lines.len(),
        after.lines == before.lines,
        after.pos == before.pos + 1,
    ensures
        before.remaining_lines().len() > 0,
        before.remaining_lines()[0] == trim_end_eol(before.lines.deep_view()[before.pos as int]),
        after.remaining_lines() == before.remaining_lines().drop_first(),
{
    let dv = before.lines.deep_view();
    assert(dv.skip(before.pos as int).map_values(|l: Seq<char>| trim_end_eol(l)).drop_first()
        =~= dv.skip(before.pos as int + 1).map_values(|l: Seq<char>| trim_end_eol(l)));
}

/// The tokenizing adaptor: passes scanner errors through and splits each
/// complete command into its argument tokens.
pub struct TokenIter {
    pub inner: LogLineIter,
}

impl TokenIter {
    /// Wraps a scanner.
    pub fn new(inner: LogLineIter) -> (r: TokenIter)
        ensures
            r.inner == inner,
    {
        TokenIter { inner }
    }

    /// The next token vector, or the next scanner error unchanged.
    pub fn next_item(&mut self) -> (r: Option<Result<Vec<String>, Ms2ccError>>)
        ensures
            match r {
                None => old(self).inner.remaining_outputs() == Seq::<ScanItem>::empty()
                    && final(self).inner.remaining_outputs() == Seq::<ScanItem>::empty(),
                Some(item) => {
                    &&& old(self).inner.remaining_outputs().len() > 0
                    &&& final(self).inner.remaining_outputs() == old(self)
                        .inner.remaining_outputs().drop_first()
                    &&& match item {
                        Ok(tokens) => old(self).inner.remaining_outputs()[0] matches
                            ScanItem::Command { text } && tokens.deep_view() == spec_tokenize(
                            text,
                        ),
                        Err(e) => old(self).inner.remaining_outputs()[0] matches
                            ScanItem::Unexpected { line, current } && e.deep_view() == (
                        ErrV::UnexpectedLine { line: line, current: current }),
                    }
                },
            },
    {
        let item = self.inner.next_item();
        match item {
            None => None,
            Some(next) => {
                match next {
                    Ok(command) => Some(Ok(tokenize_compile_command(command.as_str()))),
                    Err(e) => Some(Err(e)),
                }
            },
        }
    }
}

} // verus!
