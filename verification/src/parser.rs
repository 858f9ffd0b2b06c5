//! The command-line tokenizer and the line classification helpers.
//!
//! The tokenizer reproduces native Windows command-line splitting: whitespace
//! separates arguments unless inside double quotes, backslashes are deferred
//! because their meaning depends on whether a quote follows, and empty quoted
//! arguments are kept.  A second pass re-joins an unquoted executable path
//! that embedded spaces had fragmented.

use vstd::prelude::*;

use crate::error::ErrV;
use crate::error::Ms2ccError;
use crate::paths::spec_file_name;
use crate::paths::spec_has_ext;
use crate::text::char_sub_vec;
use crate::text::chars_contains_char;
use crate::text::chars_ends_with_ignore_case;
use crate::text::chars_to_string;
use crate::text::is_ws;
use crate::text::is_ws_char;
use crate::text::spec_ends_with;
use crate::text::spec_lower;
use crate::text::str_eq_ignore_case;
use crate::text::str_to_char_vec;
use crate::text::is_quote_char;
use crate::text::trim_end_ws;
use crate::text::trim_end_ws_index;
use crate::text::trim_start_ws;
use crate::text::trim_start_ws_index;

verus! {

/// A run of `n` backslashes.
pub open spec fn bs_seq(n: nat) -> Seq<char> {
    Seq::new(n, |i: int| '\\')
}

/// The tokenizer's whole state between two characters: the closed tokens,
/// the argument being built, the quote flag, the count of backslashes whose
/// meaning is still open, and whether an argument is in progress at all.
pub struct TokSt {
    pub toks: Seq<Seq<char>>,
    pub cur: Seq<char>,
    pub in_quotes: bool,
    pub bs: nat,
    pub in_arg: bool,
}

/// The state before any character is read.
pub open spec fn tok_init() -> TokSt {
    TokSt { toks: Seq::empty(), cur: Seq::empty(), in_quotes: false, bs: 0, in_arg: false }
}

/// One character of tokenizer input.
///
/// A backslash is only buffered.  A quote first settles the buffered
/// backslashes: half of them become literal, and the quote itself either
/// toggles the quote state (even count) or is itself literal (odd count).
/// Whitespace outside quotes closes the argument in progress, if any.
/// Everything else is literal text.
pub open spec fn tok_step(st: TokSt, c: char) -> TokSt {
    if c == '\\' {
        TokSt {
            toks: st.toks,
            cur: st.cur,
            in_quotes: st.in_quotes,
            bs: st.bs + 1,
            in_arg: st.in_arg,
        }
    } else if c == '"' {
        let cur1 = st.cur + bs_seq(st.bs / 2);
        if st.bs % 2 == 0 {
            TokSt { toks: st.toks, cur: cur1, in_quotes: !st.in_quotes, bs: 0, in_arg: true }
        } else {
            TokSt {
                toks: st.toks,
                cur: cur1.push('"'),
                in_quotes: st.in_quotes,
                bs: 0,
                in_arg: true,
            }
        }
    } else if is_ws_char(c) && !st.in_quotes {
        let cur1 = st.cur + bs_seq(st.bs);
        let arg1 = st.in_arg || st.bs > 0;
        if arg1 {
            TokSt {
                toks: st.toks.push(cur1),
                cur: Seq::empty(),
                in_quotes: false,
                bs: 0,
                in_arg: false,
            }
        } else {
            TokSt { toks: st.toks, cur: cur1, in_quotes: false, bs: 0, in_arg: false }
        }
    } else {
        TokSt {
            toks: st.toks,
            cur: st.cur + bs_seq(st.bs) + seq![c],
            in_quotes: st.in_quotes,
            bs: 0,
            in_arg: true,
        }
    }
}

/// The tokenizer run over a whole character sequence.
pub open spec fn tok_run(st: TokSt, s: Seq<char>) -> TokSt
    decreases s.len(),
{
    if s.len() == 0 {
        st
    } else {
        tok_run(tok_step(st, s[0]), s.drop_first())
    }
}

/// End of input: buffered backslashes become literal and an argument in
/// progress is closed.
pub open spec fn tok_fin(st: TokSt) -> Seq<Seq<char>> {
    let cur1 = st.cur + bs_seq(st.bs);
    if st.in_arg || st.bs > 0 {
        st.toks.push(cur1)
    } else {
        st.toks
    }
}

/// The tokens of `s` before executable-path reassembly.
pub open spec fn split_tokens(s: Seq<char>) -> Seq<Seq<char>> {
    tok_fin(tok_run(tok_init(), s))
}

/// Running the tokenizer over a concatenation runs it over each part in turn.
pub proof fn lemma_tok_run_app(st: TokSt, a: Seq<char>, b: Seq<char>)
    ensures
        tok_run(st, a + b) == tok_run(tok_run(st, a), b),
    decreases a.len(),
{
    if a.len() == 0 {
        assert(a + b =~= b);
    } else {
        assert((a + b).drop_first() =~= a.drop_first() + b);
        lemma_tok_run_app(tok_step(st, a[0]), a.drop_first(), b);
    }
}

/// Reading one more character applies one more step.
pub proof fn lemma_tok_run_snoc(st: TokSt, s: Seq<char>, i: int)
    requires
        0 <= i < s.len(),
    ensures
        tok_run(st, s.take(i + 1)) == tok_step(tok_run(st, s.take(i)), s[i]),
{
    assert(s.take(i + 1) =~= s.take(i) + seq![s[i]]);
    lemma_tok_run_app(st, s.take(i), seq![s[i]]);
    let st2 = tok_run(st, s.take(i));
    let single = seq![s[i]];
    assert(single.drop_first() =~= Seq::<char>::empty());
    assert(tok_run(st2, single) == tok_run(tok_step(st2, single[0]), single.drop_first()));
    assert(tok_run(tok_step(st2, single[0]), single.drop_first()) == tok_step(st2, s[i]));
}

/// Appends `n` backslashes to a character vector.
fn push_backslashes(cur: &mut Vec<char>, n: usize)
    ensures
        final(cur)@ == old(cur)@ + bs_seq(n as nat),
{
    let mut k: usize = 0;
    while k < n
        invariant
            k <= n,
            cur@ == old(cur)@ + bs_seq(k as nat),
        decreases n - k,
    {
        cur.push('\\');
        k = k + 1;
        proof {
            assert(old(cur)@ + bs_seq(k as nat) =~= (old(cur)@ + bs_seq((k - 1) as nat)).push('\\'));
        }
    }
}

/// Splits a command line into raw tokens, without the reassembly pass.
fn split_compile_command(cs: &Vec<char>) -> (tokens: Vec<String>)
    ensures
        tokens.deep_view() == split_tokens(cs@),
{
    let ghost s = cs@;
    let mut toks: Vec<String> = Vec::new();
    let mut cur: Vec<char> = Vec::new();
    let mut in_quotes: bool = false;
    let mut bs: usize = 0;
    let mut in_arg: bool = false;
    let mut i: usize = 0;
    while i < cs.len()
        invariant
            i <= cs.len(),
            bs <= i,
            s == cs@,
            toks.deep_view() == tok_run(tok_init(), s.take(i as int)).toks,
            cur@ == tok_run(tok_init(), s.take(i as int)).cur,
            in_quotes == tok_run(tok_init(), s.take(i as int)).in_quotes,
            bs as nat == tok_run(tok_init(), s.take(i as int)).bs,
            in_arg == tok_run(tok_init(), s.take(i as int)).in_arg,
        decreases cs.len() - i,
    {
        let ghost st = tok_run(tok_init(), s.take(i as int));
        proof {
            lemma_tok_run_snoc(tok_init(), s, i as int);
        }
        let c = cs[i];
        if c == '\\' {
            bs = bs + 1;
        } else if c == '"' {
            push_backslashes(&mut cur, bs / 2);
            if bs % 2 == 0 {
                in_quotes = !in_quotes;
            } else {
                cur.push('"');
            }
            in_arg = true;
            bs = 0;
        } else if is_ws(c) && !in_quotes {
            if bs > 0 {
                push_backslashes(&mut cur, bs);
                in_arg = true;
                bs = 0;
            }
            if in_arg {
                let token = chars_to_string(&cur);
                toks.push(token);
                cur.clear();
                in_arg = false;
            }
            proof {
                assert(toks.deep_view() =~= tok_step(st, s[i as int]).toks);
            }
        } else {
            push_backslashes(&mut cur, bs);
            cur.push(c);
            in_arg = true;
            bs = 0;
        }
        i = i + 1;
    }
    proof {
        assert(s.take(cs.len() as int) =~= s);
    }
    if bs > 0 {
        push_backslashes(&mut cur, bs);
        in_arg = true;
    }
    if in_arg {
        let token = chars_to_string(&cur);
        toks.push(token);
    }
    proof {
        assert(toks.deep_view() =~= tok_fin(tok_run(tok_init(), s)));
    }
    toks
}

/// Whether any entry of `list` equals `needle` ignoring ASCII case.
pub open spec fn spec_slice_contains_ic(list: Seq<Seq<char>>, needle: Seq<char>) -> bool {
    exists|i: int| 0 <= i < list.len() && spec_lower(#[trigger] list[i]) == spec_lower(needle)
}

/// Scans a list of strings for an entry matching `needle`, ignoring ASCII case.
pub fn slice_contains_ignore_ascii_case(slice: &Vec<String>, needle: &str) -> (r: bool)
    ensures
        r == spec_slice_contains_ic(slice.deep_view(), needle@),
{
    let mut i: usize = 0;
    while i < slice.len()
        invariant
            i <= slice.len(),
            forall|k: int|
                0 <= k < i ==> spec_lower(#[trigger] slice.deep_view()[k]) != spec_lower(needle@),
        decreases slice.len() - i,
    {
        if str_eq_ignore_case(slice[i].as_str(), needle) {
            proof {
                assert(spec_lower(slice.deep_view()[i as int]) == spec_lower(needle@));
            }
            return true;
        }
        proof {
            assert(spec_lower(slice.deep_view()[i as int]) != spec_lower(needle@));
        }
        i = i + 1;
    }
    false
}

/// Whether `value` ends with `suffix`, ignoring ASCII case.
pub fn ends_with_ignore_ascii_case(value: &str, suffix: &str) -> (r: bool)
    ensures
        r == spec_ends_with(spec_lower(value@), spec_lower(suffix@)),
{
    let v = str_to_char_vec(value);
    let s = str_to_char_vec(suffix);
    chars_ends_with_ignore_case(&v, &s)
}

/// `s` without its last character when that character is a quote.
pub open spec fn strip_one_quote(s: Seq<char>) -> Seq<char> {
    if s.len() > 0 && is_quote_char(s.last()) {
        s.drop_last()
    } else {
        s
    }
}

/// Whether `s`, once its trailing whitespace and then a single trailing
/// quote character are dropped, ends with one of the extensions, ignoring
/// case.
pub open spec fn spec_ends_with_src(s: Seq<char>, exts: Seq<Seq<char>>) -> bool {
    exists|i: int|
        0 <= i < exts.len() && spec_ends_with(
            spec_lower(strip_one_quote(trim_end_ws(s))),
            spec_lower(#[trigger] exts[i]),
        )
}

/// Whether a line ends with one of the source-file extensions, allowing
/// for trailing whitespace and a single trailing quote after the file
/// name.
pub fn ends_with_cpp_source_file(line: &str, file_extensions: &Vec<String>) -> (r: bool)
    ensures
        r == spec_ends_with_src(line@, file_extensions.deep_view()),
{
    let cs = str_to_char_vec(line);
    let e1 = trim_end_ws_index(&cs, cs.len());
    let e2: usize = if e1 > 0 && (cs[e1 - 1] == '"' || cs[e1 - 1] == '\'') {
        e1 - 1
    } else {
        e1
    };
    proof {
        assert(cs@.take(cs.len() as int) =~= cs@);
        if e2 < e1 {
            assert(cs@.take(e1 as int).drop_last() =~= cs@.take(e2 as int));
        }
        assert(strip_one_quote(trim_end_ws(line@)) == cs@.take(e2 as int));
        assert(cs@.take(e2 as int) =~= cs@.subrange(0, e2 as int));
    }
    let trimmed = char_sub_vec(&cs, 0, e2);
    let mut i: usize = 0;
    while i < file_extensions.len()
        invariant
            i <= file_extensions.len(),
            trimmed@ == strip_one_quote(trim_end_ws(line@)),
            forall|k: int|
                0 <= k < i ==> !spec_ends_with(
                    spec_lower(strip_one_quote(trim_end_ws(line@))),
                    spec_lower(#[trigger] file_extensions.deep_view()[k]),
                ),
        decreases file_extensions.len() - i,
    {
        let ext = str_to_char_vec(file_extensions[i].as_str());
        if chars_ends_with_ignore_case(&trimmed, &ext) {
            proof {
                assert(spec_ends_with(
                    spec_lower(strip_one_quote(trim_end_ws(line@))),
                    spec_lower(file_extensions.deep_view()[i as int]),
                ));
            }
            return true;
        }
        proof {
            assert(!spec_ends_with(
                spec_lower(strip_one_quote(trim_end_ws(line@))),
                spec_lower(file_extensions.deep_view()[i as int]),
            ));
        }
        i = i + 1;
    }
    false
}

/// Extracts the file-name component of an argument and checks that it has
/// an extension; source-file arguments are recognized this way.
pub fn extract_and_validate_filename(arg_path: &str) -> (r: Result<String, Ms2ccError>)
    ensures
        match r {
            Ok(name) => {
                &&& spec_file_name(arg_path@) == Some(name@)
                &&& spec_has_ext(name@)
            },
            Err(e) => {
                if spec_file_name(arg_path@) is None {
                    e.deep_view() == (ErrV::MissingFileName { path: arg_path@ })
                } else {
                    !spec_has_ext(spec_file_name(arg_path@)->0) && e.deep_view() == (
                    ErrV::MissingExtension { path: arg_path@ })
                }
            },
        },
{
    let name = match crate::paths::file_name_of(arg_path) {
        Some(n) => n,
        None => {
            return Err(Ms2ccError::MissingFileName { path: arg_path.to_owned() });
        },
    };
    if !crate::paths::has_extension(name.as_str()) {
        return Err(Ms2ccError::MissingExtension { path: arg_path.to_owned() });
    }
    Ok(name)
}

/// Whether an argument names a source file: it has a file-name component
/// with an extension.
pub open spec fn spec_is_source_arg(arg: Seq<char>) -> bool {
    spec_file_name(arg) is Some && spec_has_ext(spec_file_name(arg)->0)
}

/// Whether the directory name matches one of the excluded names, ignoring
/// ASCII case.
pub fn should_exclude_directory(dir_name: &str, exclude_directories: &Vec<String>) -> (r: bool)
    ensures
        r == spec_slice_contains_ic(exclude_directories.deep_view(), dir_name@),
{
    slice_contains_ignore_ascii_case(exclude_directories, dir_name)
}

/// Whether the file extension is one of the processed extensions, ignoring
/// ASCII case.
pub fn should_process_file_extension(ext: &str, file_extensions: &Vec<String>) -> (r: bool)
    ensures
        r == spec_slice_contains_ic(file_extensions.deep_view(), ext@),
{
    slice_contains_ignore_ascii_case(file_extensions, ext)
}

/// Whether the token, trimmed of surrounding whitespace, names a Windows
/// executable: it ends with `.exe`, `.com`, `.cmd` or `.bat`, ignoring case.
pub open spec fn spec_is_exec_path(t: Seq<char>) -> bool {
    let u = spec_lower(trim_start_ws(trim_end_ws(t)));
    ||| spec_ends_with(u, seq!['.', 'e', 'x', 'e'])
    ||| spec_ends_with(u, seq!['.', 'c', 'o', 'm'])
    ||| spec_ends_with(u, seq!['.', 'c', 'm', 'd'])
    ||| spec_ends_with(u, seq!['.', 'b', 'a', 't'])
}

/// Whether a character vector looks like a Windows executable path.
fn is_exec_path_chars(cs: &Vec<char>) -> (r: bool)
    ensures
        r == spec_is_exec_path(cs@),
{
    let e = trim_end_ws_index(cs, cs.len());
    proof {
        assert(cs@.take(cs.len() as int) =~= cs@);
        assert(cs@.take(e as int) =~= cs@.subrange(0, e as int));
    }
    let s0 = trim_start_ws_index(cs, 0, e);
    let trimmed = char_sub_vec(cs, s0, e);
    let exe = vec!['.', 'e', 'x', 'e'];
    let com = vec!['.', 'c', 'o', 'm'];
    let cmd = vec!['.', 'c', 'm', 'd'];
    let bat = vec!['.', 'b', 'a', 't'];
    proof {
        assert(spec_lower(exe@) =~= exe@);
        assert(spec_lower(com@) =~= com@);
        assert(spec_lower(cmd@) =~= cmd@);
        assert(spec_lower(bat@) =~= bat@);
    }
    chars_ends_with_ignore_case(&trimmed, &exe) || chars_ends_with_ignore_case(&trimmed, &com)
        || chars_ends_with_ignore_case(&trimmed, &cmd) || chars_ends_with_ignore_case(
        &trimmed,
        &bat,
    )
}

/// Whether the token looks like a Windows executable path.
pub fn is_executable_path(token: &str) -> (r: bool)
    ensures
        r == spec_is_exec_path(token@),
{
    let cs = str_to_char_vec(token);
    is_exec_path_chars(&cs)
}

/// The first `j + 1` tokens, joined by single spaces.
pub open spec fn join_upto(toks: Seq<Seq<char>>, j: int) -> Seq<char>
    decreases j,
{
    if j <= 0 {
        toks[0]
    } else {
        join_upto(toks, j - 1) + seq![' '] + toks[j]
    }
}

/// The least index `>= j` whose joined prefix looks like an executable path.
pub open spec fn first_merge_end(toks: Seq<Seq<char>>, j: int) -> Option<int>
    decreases toks.len() - j,
{
    if j >= toks.len() {
        None
    } else if spec_is_exec_path(join_upto(toks, j)) {
        Some(j)
    } else {
        first_merge_end(toks, j + 1)
    }
}

/// The reassembly pass: when the first token has a drive-letter colon but
/// does not yet look like an executable path, following tokens are glued
/// back (space-joined) until the join does, and the joined prefix replaces
/// the tokens it consumed.
pub open spec fn merge_exec_path(toks: Seq<Seq<char>>) -> Seq<Seq<char>> {
    if toks.len() > 0 && toks[0].contains(':') && !spec_is_exec_path(toks[0]) {
        match first_merge_end(toks, 1) {
            Some(j) => seq![join_upto(toks, j)] + toks.skip(j + 1),
            None => toks,
        }
    } else {
        toks
    }
}

/// The tokens of one logical command line.
pub open spec fn spec_tokenize(s: Seq<char>) -> Seq<Seq<char>> {
    merge_exec_path(split_tokens(s))
}

/// Splits a command line into argument tokens following native quoting
/// rules, then re-joins an unquoted executable path fragmented by spaces.
pub fn tokenize_compile_command(line: &str) -> (tokens: Vec<String>)
    ensures
        tokens.deep_view() == spec_tokenize(line@),
{
    let cs = str_to_char_vec(line);
    let toks = split_compile_command(&cs);
    let ghost toksv = toks.deep_view();
    if toks.len() == 0 {
        return toks;
    }
    let first_chars = str_to_char_vec(toks[0].as_str());
    proof {
        assert(toksv[0] == toks@[0]@);
    }
    if !chars_contains_char(&first_chars, ':') {
        return toks;
    }
    if is_exec_path_chars(&first_chars) {
        return toks;
    }
    let mut merged: Vec<char> = first_chars;
    let mut j: usize = 1;
    while j < toks.len()
        invariant
            1 <= j <= toks.len(),
            toksv == toks.deep_view(),
            toks.len() == toksv.len(),
            toksv == split_tokens(line@),
            toksv.len() > 0,
            toksv[0].contains(':'),
            !spec_is_exec_path(toksv[0]),
            merged@ == join_upto(toksv, j - 1),
            first_merge_end(toksv, 1) == first_merge_end(toksv, j as int),
        decreases toks.len() - j,
    {
        merged.push(' ');
        let mut part = str_to_char_vec(toks[j].as_str());
        merged.append(&mut part);
        proof {
            assert(toksv[j as int] == toks@[j as int]@);
            assert(merged@ =~= join_upto(toksv, j as int));
        }
        if is_exec_path_chars(&merged) {
            let mut result: Vec<String> = Vec::new();
            result.push(chars_to_string(&merged));
            let mut k: usize = j + 1;
            while k < toks.len()
                invariant
                    j + 1 <= k <= toks.len(),
                    toksv == toks.deep_view(),
                    j < toksv.len(),
                    result@.len() == k - j,
                    result@[0]@ == join_upto(toksv, j as int),
                    forall|t: int| 1 <= t < result@.len() ==> result@[t]@ == toksv[j + t],
                decreases toks.len() - k,
            {
                proof {
                    assert(toksv[k as int] == toks@[k as int]@);
                }
                result.push(toks[k].clone());
                k = k + 1;
            }
            proof {
                assert(first_merge_end(toksv, j as int) == Some(j as int));
                let target = seq![join_upto(toksv, j as int)] + toksv.skip(j + 1);
                assert forall|t: int| 0 <= t < result.deep_view().len() implies result.deep_view()[t]
                    == target[t] by {
                    assert(result.deep_view()[t] == result@[t]@);
                    if t >= 1 {
                        assert(toksv.skip(j + 1)[t - 1] == toksv[j + t]);
                    }
                }
                assert(result.deep_view() =~= target);
            }
            return result;
        }
        j = j + 1;
    }
    toks
}

} // verus!
