//! Round-trip laws of the tokenizer.
//!
//! Rendering a vector of plain tokens with single spaces and tokenizing the
//! result gives the vector back, and a quoted string tokenizes to exactly
//! its contents.  Each law names the inputs it must leave out: rendering
//! with spaces cannot distinguish an empty token from nothing, quotes and
//! whitespace inside a token change the rendering's meaning, a trailing
//! backslash would escape the closing quote, and a token that looks like an
//! executable's tail can wake the reassembly pass.

use vstd::prelude::*;

use crate::parser::bs_seq;
use crate::parser::first_merge_end;
use crate::parser::join_upto;
use crate::parser::merge_exec_path;
use crate::parser::spec_is_exec_path;
use crate::parser::spec_tokenize;
use crate::parser::split_tokens;
use crate::parser::tok_fin;
use crate::parser::tok_init;
use crate::parser::tok_run;
use crate::parser::tok_step;
use crate::parser::TokSt;
use crate::parser::lemma_tok_run_app;
use crate::text::is_ws_char;
use crate::text::spec_ends_with;
use crate::text::spec_lower;
use crate::text::trim_end_ws;
use crate::text::trim_start_ws;

verus! {

/// A character that survives rendering untouched: not whitespace and not a
/// quote.
pub open spec fn clean_char(c: char) -> bool {
    !is_ws_char(c) && c != '"'
}

/// A token whose space-joined rendering reads back unchanged: non-empty
/// and made of clean characters.
pub open spec fn clean_token(t: Seq<char>) -> bool {
    t.len() > 0 && forall|i: int| 0 <= i < t.len() ==> clean_char(#[trigger] t[i])
}

/// The space-joined rendering of a token vector.
pub open spec fn space_joined(v: Seq<Seq<char>>) -> Seq<char>
    decreases v.len(),
{
    if v.len() == 0 {
        Seq::empty()
    } else if v.len() == 1 {
        v[0]
    } else {
        v[0] + seq![' '] + space_joined(v.drop_first())
    }
}

/// Whether a token ends in one of the four executable extensions, the
/// condition under which a space-joined prefix ending in it looks like an
/// executable path.
pub open spec fn ends_exec_ext(t: Seq<char>) -> bool {
    ||| spec_ends_with(spec_lower(t), seq!['.', 'e', 'x', 'e'])
    ||| spec_ends_with(spec_lower(t), seq!['.', 'c', 'o', 'm'])
    ||| spec_ends_with(spec_lower(t), seq!['.', 'c', 'm', 'd'])
    ||| spec_ends_with(spec_lower(t), seq!['.', 'b', 'a', 't'])
}

/// The backslashes still buffered, made literal.
pub open spec fn flushed(st: TokSt) -> Seq<char> {
    st.cur + bs_seq(st.bs)
}

/// One more buffered backslash is one more literal backslash.
proof fn lemma_bs_snoc(n: nat)
    ensures
        bs_seq(n + 1) == bs_seq(n).push('\\'),
{
    assert(bs_seq(n + 1) =~= bs_seq(n).push('\\'));
}

/// Outside quotes, clean characters only extend the argument in progress.
proof fn lemma_run_clean(st: TokSt, t: Seq<char>)
    requires
        !st.in_quotes,
        forall|i: int| 0 <= i < t.len() ==> clean_char(#[trigger] t[i]),
    ensures
        tok_run(st, t).toks == st.toks,
        flushed(tok_run(st, t)) == flushed(st) + t,
        !tok_run(st, t).in_quotes,
        (t.len() > 0 || st.in_arg || st.bs > 0) ==> (tok_run(st, t).in_arg || tok_run(st, t).bs
            > 0),
        (st.in_arg || st.bs > 0) ==> (tok_run(st, t).in_arg || tok_run(st, t).bs > 0),
    decreases t.len(),
{
    if t.len() == 0 {
        assert(flushed(st) + t =~= flushed(st));
    } else {
        let c = t[0];
        assert(clean_char(c));
        let st1 = tok_step(st, c);
        if c == '\\' {
            lemma_bs_snoc(st.bs);
            assert(flushed(st1) =~= flushed(st).push(c));
        } else {
            assert(flushed(st1) =~= st.cur + bs_seq(st.bs) + seq![c]);
            assert(flushed(st1) =~= flushed(st).push(c));
        }
        lemma_run_clean(st1, t.drop_first());
        assert(flushed(st) + t =~= (flushed(st).push(c)) + t.drop_first());
    }
}

/// Inside quotes, every character but a quote is literal text.
proof fn lemma_run_quoted(st: TokSt, t: Seq<char>)
    requires
        st.in_quotes,
        forall|i: int| 0 <= i < t.len() ==> #[trigger] t[i] != '"',
    ensures
        tok_run(st, t).toks == st.toks,
        flushed(tok_run(st, t)) == flushed(st) + t,
        tok_run(st, t).in_quotes,
        tok_run(st, t).in_arg == (st.in_arg || exists|i: int| 0 <= i < t.len() && #[trigger] t[i]
            != '\\'),
        (t.len() > 0 && t.last() != '\\') ==> tok_run(st, t).bs == 0,
    decreases t.len(),
{
    if t.len() == 0 {
        assert(flushed(st) + t =~= flushed(st));
    } else {
        let c = t[0];
        let st1 = tok_step(st, c);
        if c == '\\' {
            lemma_bs_snoc(st.bs);
            assert(flushed(st1) =~= flushed(st).push(c));
        } else {
            assert(flushed(st1) =~= flushed(st).push(c));
        }
        lemma_run_quoted(st1, t.drop_first());
        assert(flushed(st) + t =~= (flushed(st).push(c)) + t.drop_first());
        if st.in_arg || exists|i: int| 0 <= i < t.len() && #[trigger] t[i] != '\\' {
            if !st1.in_arg {
                assert(c == '\\');
                assert(exists|i: int| 0 <= i < t.drop_first().len() && #[trigger] t.drop_first()[i]
                    != '\\') by {
                    let w = choose|i: int| 0 <= i < t.len() && #[trigger] t[i] != '\\';
                    assert(t.drop_first()[w - 1] != '\\');
                }
            }
            assert(tok_run(st, t).in_arg);
        } else {
            assert(forall|i: int| 0 <= i < t.len() ==> #[trigger] t[i] == '\\');
            assert(forall|i: int|
                0 <= i < t.drop_first().len() ==> #[trigger] t.drop_first()[i] == '\\');
            assert(!st1.in_arg);
            assert(!tok_run(st, t).in_arg);
        }
        if t.len() > 0 && t.last() != '\\' {
            if t.len() == 1 {
                assert(c != '\\');
                assert(tok_run(st, t) == tok_run(st1, t.drop_first()));
            } else {
                assert(t.drop_first().last() == t.last());
            }
        }
    }
}

/// Splitting the rendering of clean tokens recovers them, whatever tokens
/// were closed before.
proof fn lemma_split_clean(base: Seq<Seq<char>>, v: Seq<Seq<char>>)
    requires
        forall|i: int| 0 <= i < v.len() ==> clean_token(#[trigger] v[i]),
    ensures
        tok_fin(
            tok_run(
                TokSt {
                    toks: base,
                    cur: Seq::empty(),
                    in_quotes: false,
                    bs: 0,
                    in_arg: false,
                },
                space_joined(v),
            ),
        ) == base + v,
    decreases v.len(),
{
    let st0 = TokSt { toks: base, cur: Seq::empty(), in_quotes: false, bs: 0, in_arg: false };
    if v.len() == 0 {
        assert(tok_run(st0, space_joined(v)) == st0);
        assert(tok_fin(st0) =~= base + v);
    } else if v.len() == 1 {
        assert(clean_token(v[0]));
        lemma_run_clean(st0, v[0]);
        let st1 = tok_run(st0, v[0]);
        assert(flushed(st0) =~= Seq::<char>::empty());
        assert(flushed(st0) + v[0] =~= v[0]);
        assert(st1.in_arg || st1.bs > 0);
        assert(tok_fin(st1) == st1.toks.push(flushed(st1)));
        assert(base.push(v[0]) =~= base + v);
    } else {
        assert(clean_token(v[0]));
        assert(space_joined(v) == v[0] + seq![' '] + space_joined(v.drop_first()));
        lemma_tok_run_app(st0, v[0], seq![' '] + space_joined(v.drop_first()));
        assert(v[0] + (seq![' '] + space_joined(v.drop_first())) =~= space_joined(v));
        lemma_run_clean(st0, v[0]);
        let st1 = tok_run(st0, v[0]);
        assert(flushed(st0) + v[0] =~= v[0]);
        lemma_tok_run_app(st1, seq![' '], space_joined(v.drop_first()));
        assert(seq![' '] + space_joined(v.drop_first()) =~= seq![
            ' ',
        ] + space_joined(v.drop_first()));
        let st2 = tok_run(st1, seq![' ']);
        assert(seq![' '].drop_first() =~= Seq::<char>::empty());
        assert(seq![' '][0] == ' ');
        assert(tok_run(st1, seq![' ']) == tok_run(tok_step(st1, ' '), seq![' '].drop_first()));
        assert(tok_run(tok_step(st1, ' '), Seq::<char>::empty()) == tok_step(st1, ' '));
        assert(st2 == tok_step(st1, ' '));
        assert(is_ws_char(' ') && !st1.in_quotes);
        assert(st1.in_arg || st1.bs > 0);
        assert(st2.toks == base.push(st1.cur + bs_seq(st1.bs)));
        assert(st1.cur + bs_seq(st1.bs) == flushed(st1));
        let st3 = TokSt {
            toks: base.push(v[0]),
            cur: Seq::empty(),
            in_quotes: false,
            bs: 0,
            in_arg: false,
        };
        assert(st2.cur =~= st3.cur);
        assert(st2 == st3);
        lemma_split_clean(base.push(v[0]), v.drop_first());
        assert(base.push(v[0]) + v.drop_first() =~= base + v);
    }
}

/// A clean token starts and ends with a non-whitespace character, so
/// whitespace trimming leaves the rendering alone.
proof fn lemma_trim_id(s: Seq<char>)
    requires
        s.len() > 0,
        !is_ws_char(s.first()),
        !is_ws_char(s.last()),
    ensures
        trim_start_ws(trim_end_ws(s)) == s,
{
    assert(trim_end_ws(s) == s);
    assert(trim_start_ws(s) == s);
}

/// The rendering of clean tokens keeps the first token's first character
/// and the last token's last character.
proof fn lemma_space_joined_ends(v: Seq<Seq<char>>)
    requires
        v.len() > 0,
        forall|i: int| 0 <= i < v.len() ==> clean_token(#[trigger] v[i]),
    ensures
        space_joined(v).len() > 0,
        space_joined(v).first() == v[0].first(),
        space_joined(v).last() == v[v.len() - 1].last(),
    decreases v.len(),
{
    if v.len() == 1 {
    } else {
        lemma_space_joined_ends(v.drop_first());
        let s = space_joined(v);
        assert(s == v[0] + seq![' '] + space_joined(v.drop_first()));
        assert(s.first() == v[0].first());
        assert(s.last() == space_joined(v.drop_first()).last());
        assert(v.drop_first()[v.drop_first().len() - 1] == v[v.len() - 1]);
    }
}

/// Case folding distributes over concatenation.
proof fn lemma_lower_app(a: Seq<char>, b: Seq<char>)
    ensures
        spec_lower(a + b) == spec_lower(a) + spec_lower(b),
{
    assert(spec_lower(a + b) =~= spec_lower(a) + spec_lower(b));
}

/// A suffix check across `a + " " + b` is a suffix check on `b` alone,
/// for a pattern without whitespace: a shorter `b` would put the space
/// inside the pattern.
proof fn lemma_ends_with_after_space(a: Seq<char>, b: Seq<char>, pat: Seq<char>)
    requires
        forall|i: int| 0 <= i < pat.len() ==> !is_ws_char(#[trigger] pat[i]),
    ensures
        spec_ends_with(spec_lower(a + seq![' '] + b), pat) == (b.len() >= pat.len()
            && spec_ends_with(spec_lower(b), pat)),
{
    let u = a + seq![' '] + b;
    lemma_lower_app(a + seq![' '], b);
    lemma_lower_app(a, seq![' ']);
    let lu = spec_lower(u);
    assert(lu =~= spec_lower(a) + spec_lower(seq![' ']) + spec_lower(b));
    assert(spec_lower(seq![' ']) =~= seq![' ']);
    assert(lu.len() == a.len() + 1 + b.len());
    if b.len() >= pat.len() {
        if lu.len() >= pat.len() {
            assert(lu.subrange(lu.len() - pat.len(), lu.len() as int) =~= spec_lower(b).subrange(
                spec_lower(b).len() - pat.len(),
                spec_lower(b).len() as int,
            ));
        }
    } else {
        if lu.len() >= pat.len() {
            let q = pat.len() - 1 - b.len();
            assert(lu[a.len() as int] == ' ');
            if lu.subrange(lu.len() - pat.len(), lu.len() as int) == pat {
                assert(lu.subrange(lu.len() - pat.len(), lu.len() as int)[q] == lu[a.len() as int]);
                assert(pat[q] == ' ');
                assert(is_ws_char(' '));
                assert(false);
            }
        }
    }
}

/// The rendering up to token `j` keeps the outermost characters of the
/// tokens it joins.
proof fn lemma_join_ends(v: Seq<Seq<char>>, j: int)
    requires
        0 <= j < v.len(),
        forall|i: int| 0 <= i < v.len() ==> clean_token(#[trigger] v[i]),
    ensures
        join_upto(v, j).len() > 0,
        join_upto(v, j).first() == v[0].first(),
        join_upto(v, j).last() == v[j].last(),
    decreases j,
{
    if j > 0 {
        lemma_join_ends(v, j - 1);
        assert(join_upto(v, j) == join_upto(v, j - 1) + seq![' '] + v[j]);
        assert(v[j].len() > 0);
    }
}

/// A joined prefix looks like an executable path exactly when its last
/// token ends in an executable extension.
proof fn lemma_join_exec(v: Seq<Seq<char>>, j: int)
    requires
        1 <= j < v.len(),
        forall|i: int| 0 <= i < v.len() ==> clean_token(#[trigger] v[i]),
    ensures
        spec_is_exec_path(join_upto(v, j)) == ends_exec_ext(v[j]),
{
    let u = join_upto(v, j);
    assert(u == join_upto(v, j - 1) + seq![' '] + v[j]);
    lemma_join_ends(v, j);
    assert(clean_token(v[0]) && clean_token(v[j]));
    assert(!is_ws_char(u.first()));
    assert(!is_ws_char(u.last()));
    lemma_trim_id(u);
    let a = join_upto(v, j - 1);
    let b = v[j];
    let exe = seq!['.', 'e', 'x', 'e'];
    let com = seq!['.', 'c', 'o', 'm'];
    let cmd = seq!['.', 'c', 'm', 'd'];
    let bat = seq!['.', 'b', 'a', 't'];
    assert(forall|i: int| 0 <= i < exe.len() ==> !is_ws_char(#[trigger] exe[i]));
    assert(forall|i: int| 0 <= i < com.len() ==> !is_ws_char(#[trigger] com[i]));
    assert(forall|i: int| 0 <= i < cmd.len() ==> !is_ws_char(#[trigger] cmd[i]));
    assert(forall|i: int| 0 <= i < bat.len() ==> !is_ws_char(#[trigger] bat[i]));
    lemma_ends_with_after_space(a, b, exe);
    lemma_ends_with_after_space(a, b, com);
    lemma_ends_with_after_space(a, b, cmd);
    lemma_ends_with_after_space(a, b, bat);
    assert(spec_lower(b).len() == b.len());
}

/// Where no joined prefix looks like an executable path, the search finds
/// nothing.
proof fn lemma_fme_none(v: Seq<Seq<char>>, j: int)
    requires
        0 <= j,
        forall|t: int| j <= t < v.len() ==> !spec_is_exec_path(#[trigger] join_upto(v, t)),
    ensures
        first_merge_end(v, j) is None,
    decreases v.len() + 1 - j,
{
    if j < v.len() {
        lemma_fme_none(v, j + 1);
    }
}

/// Under the law's conditions the reassembly pass changes nothing.
proof fn lemma_merge_id(v: Seq<Seq<char>>)
    requires
        v.len() > 0,
        forall|i: int| 0 <= i < v.len() ==> clean_token(#[trigger] v[i]),
        !v[0].contains(':') || spec_is_exec_path(v[0]) || (forall|j: int|
            1 <= j < v.len() ==> !ends_exec_ext(#[trigger] v[j])),
    ensures
        merge_exec_path(v) == v,
{
    if v[0].contains(':') && !spec_is_exec_path(v[0]) {
        assert forall|t: int| 1 <= t < v.len() implies !spec_is_exec_path(
            #[trigger] join_upto(v, t),
        ) by {
            lemma_join_exec(v, t);
        }
        lemma_fme_none(v, 1);
    }
}

/// Law: tokenizing the space-joined rendering of a token vector returns
/// the vector unchanged, as long as each token is non-empty and free of
/// quotes and whitespace, and the vector cannot wake the executable-path
/// reassembly: its first token has no colon, or already looks like an
/// executable path, or no later token ends in an executable extension.
pub proof fn lemma_tokenize_round_trip(v: Seq<Seq<char>>)
    requires
        forall|i: int| 0 <= i < v.len() ==> clean_token(#[trigger] v[i]),
        v.len() > 0 ==> (!v[0].contains(':') || spec_is_exec_path(v[0]) || (forall|j: int|
            1 <= j < v.len() ==> !ends_exec_ext(#[trigger] v[j]))),
    ensures
        spec_tokenize(space_joined(v)) == v,
{
    lemma_split_clean(Seq::empty(), v);
    assert(tok_init() == TokSt {
        toks: Seq::<Seq<char>>::empty(),
        cur: Seq::<char>::empty(),
        in_quotes: false,
        bs: 0,
        in_arg: false,
    });
    assert(split_tokens(space_joined(v)) == Seq::empty() + v);
    assert(Seq::empty() + v =~= v);
    if v.len() == 0 {
        assert(merge_exec_path(v) == v);
    } else {
        lemma_merge_id(v);
    }
}

/// Law: a quoted string tokenizes to a single token holding exactly its
/// contents — the quotes are stripped, the contents, whitespace included,
/// are preserved.  The contents must hold no quote of their own and must
/// not end in a backslash, which would escape the closing quote.
pub proof fn lemma_tokenize_quoted(x: Seq<char>)
    requires
        !x.contains('"'),
        x.len() > 0 ==> x.last() != '\\',
    ensures
        spec_tokenize(seq!['"'] + x + seq!['"']) == seq![x],
{
    let s = seq!['"'] + x + seq!['"'];
    let st0 = tok_init();
    lemma_tok_run_app(st0, seq!['"'], x + seq!['"']);
    assert(seq!['"'] + (x + seq!['"']) =~= s);
    assert(seq!['"'][0] == '"');
    assert(seq!['"'].drop_first() =~= Seq::<char>::empty());
    assert(tok_run(st0, seq!['"']) == tok_run(tok_step(st0, '"'), seq!['"'].drop_first()));
    let st1 = tok_step(st0, '"');
    assert(tok_run(st0, seq!['"']) == st1);
    assert(st1.in_quotes && st1.bs == 0 && st1.in_arg);
    assert(st1.cur =~= Seq::<char>::empty());
    assert(st1.toks =~= Seq::<Seq<char>>::empty());
    lemma_tok_run_app(st1, x, seq!['"']);
    assert forall|i: int| 0 <= i < x.len() implies #[trigger] x[i] != '"' by {
        if x[i] == '"' {
            assert(x.contains('"'));
        }
    }
    lemma_run_quoted(st1, x);
    let st2 = tok_run(st1, x);
    assert(flushed(st2) == flushed(st1) + x);
    assert(flushed(st1) =~= Seq::<char>::empty());
    assert(flushed(st1) + x =~= x);
    assert(st2.bs == 0);
    assert(st2.cur + bs_seq(0) =~= st2.cur);
    assert(st2.cur == x);
    assert(seq!['"'].drop_first() =~= Seq::<char>::empty());
    assert(tok_run(st2, seq!['"']) == tok_run(tok_step(st2, '"'), seq!['"'].drop_first()));
    let st3 = tok_step(st2, '"');
    assert(tok_run(st2, seq!['"']) == st3);
    assert(st3.cur =~= x);
    assert(st3.in_arg);
    assert(st3.bs == 0);
    assert(st3.toks =~= Seq::<Seq<char>>::empty());
    assert(tok_run(st0, s) == st3);
    assert(tok_fin(st3) == st3.toks.push(st3.cur + bs_seq(0)));
    assert(st3.cur + bs_seq(0) =~= x);
    assert(split_tokens(s) =~= seq![x]);
    let toks = split_tokens(s);
    if toks[0].contains(':') && !spec_is_exec_path(toks[0]) {
        assert(first_merge_end(toks, 1) is None);
    }
    assert(merge_exec_path(toks) == toks);
}

} // verus!
