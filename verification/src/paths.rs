//! A character-level model of the paths the log dialect contains.
//!
//! Log lines mix Windows and POSIX notation, so both `/` and `\` count as
//! separators, a path is absolute when it starts with a separator, with a
//! drive letter and a separator, or with a UNC `\\` prefix, and comparisons
//! are made on the text alone — the functions here never touch the disk.

use vstd::prelude::*;

use crate::text::char_range_to_string;
use crate::text::push_char;
use crate::text::lower_string_unicode;
use crate::text::str_to_char_vec;
use crate::text::unicode_lower;

verus! {

/// Whether `c` separates path components.
pub open spec fn is_sep(c: char) -> bool {
    c == '/' || c == '\\'
}

/// Whether `c` is an ASCII letter, as a drive letter must be.
pub open spec fn is_drive_letter(c: char) -> bool {
    ('A' <= c && c <= 'Z') || ('a' <= c && c <= 'z')
}

/// The index of the last separator of `s`, or `-1` when it has none.
pub open spec fn find_last_sep(s: Seq<char>) -> int
    decreases s.len(),
{
    if s.len() == 0 {
        -1
    } else if is_sep(s.last()) {
        s.len() - 1
    } else {
        find_last_sep(s.drop_last())
    }
}

/// `s` without its trailing separators.
pub open spec fn trim_end_seps(s: Seq<char>) -> Seq<char>
    decreases s.len(),
{
    if s.len() > 0 && is_sep(s.last()) {
        trim_end_seps(s.drop_last())
    } else {
        s
    }
}

/// The file-name component of `s`: the text after the last separator, with
/// trailing separators ignored; none when that text is empty, `.` or `..`.
pub open spec fn spec_file_name(s: Seq<char>) -> Option<Seq<char>> {
    let u = trim_end_seps(s);
    if u.len() == 0 {
        None
    } else {
        let n = u.subrange(find_last_sep(u) + 1, u.len() as int);
        if n == seq!['.'] || n == seq!['.', '.'] {
            None
        } else {
            Some(n)
        }
    }
}

/// The parent of `s`: everything before the file-name component, without a
/// trailing separator except when the parent is the root itself.
pub open spec fn spec_parent(s: Seq<char>) -> Option<Seq<char>> {
    let u = trim_end_seps(s);
    if u.len() == 0 {
        None
    } else {
        let i = find_last_sep(u);
        if i == -1 {
            Some(Seq::empty())
        } else {
            let p = trim_end_seps(u.take(i));
            if p.len() == 0 {
                Some(u.take(1))
            } else {
                Some(p)
            }
        }
    }
}

/// Whether the file name has an extension: a dot somewhere after its first
/// character.
pub open spec fn spec_has_ext(n: Seq<char>) -> bool {
    exists|i: int| 1 <= i < n.len() && n[i] == '.'
}

/// Whether `s` is an absolute path: it starts with a separator, with a
/// drive letter, a colon and a separator, or with a UNC `\\` prefix.
pub open spec fn spec_is_absolute(s: Seq<char>) -> bool {
    ||| (s.len() >= 1 && s[0] == '/')
    ||| (s.len() >= 3 && is_drive_letter(s[0]) && s[1] == ':' && is_sep(s[2]))
    ||| (s.len() >= 2 && s[0] == '\\' && s[1] == '\\')
}

/// Whether `s` has a root: it starts with a separator, or with a drive
/// letter, a colon and a separator.
pub open spec fn spec_has_root(s: Seq<char>) -> bool {
    ||| (s.len() >= 1 && is_sep(s[0]))
    ||| (s.len() >= 3 && is_drive_letter(s[0]) && s[1] == ':' && is_sep(s[2]))
}

/// `dir` with `name` appended as one more component.
pub open spec fn spec_join(dir: Seq<char>, name: Seq<char>) -> Seq<char> {
    if dir.len() == 0 {
        name
    } else if is_sep(dir.last()) {
        dir + name
    } else {
        dir + seq!['/'] + name
    }
}

/// Index cut of the trailing separators of `cs[..end]`.
fn trim_end_seps_index(cs: &Vec<char>, end: usize) -> (e: usize)
    requires
        end <= cs.len(),
    ensures
        e <= end,
        trim_end_seps(cs@.take(end as int)) == cs@.take(e as int),
{
    let mut e: usize = end;
    while e > 0 && (cs[e - 1] == '/' || cs[e - 1] == '\\')
        invariant
            e <= end <= cs.len(),
            trim_end_seps(cs@.take(end as int)) == trim_end_seps(cs@.take(e as int)),
        decreases e,
    {
        proof {
            assert(cs@.take(e as int).drop_last() =~= cs@.take(e as int - 1));
        }
        e = e - 1;
    }
    e
}

/// The index one past the last separator of `cs[..end]`; `0` when there is
/// no separator.
fn last_sep_scan(cs: &Vec<char>, end: usize) -> (i: usize)
    requires
        end <= cs.len(),
    ensures
        i <= end,
        find_last_sep(cs@.take(end as int)) == i as int - 1,
{
    let mut i: usize = end;
    while i > 0 && !(cs[i - 1] == '/' || cs[i - 1] == '\\')
        invariant
            i <= end <= cs.len(),
            find_last_sep(cs@.take(end as int)) == find_last_sep(cs@.take(i as int)),
        decreases i,
    {
        proof {
            assert(cs@.take(i as int).drop_last() =~= cs@.take(i as int - 1));
        }
        i = i - 1;
    }
    i
}

/// The file-name component of `path`, if it has one.
pub fn file_name_of(path: &str) -> (r: Option<String>)
    ensures
        match r {
            Some(n) => spec_file_name(path@) == Some(n@),
            None => spec_file_name(path@) is None,
        },
{
    let cs = str_to_char_vec(path);
    proof {
        assert(cs@.take(cs.len() as int) =~= cs@);
    }
    let e = trim_end_seps_index(&cs, cs.len());
    if e == 0 {
        return None;
    }
    let i = last_sep_scan(&cs, e);
    proof {
        assert(cs@.take(e as int).subrange(i as int, e as int) =~= cs@.subrange(
            i as int,
            e as int,
        ));
    }
    if e - i == 1 && cs[i] == '.' {
        proof {
            assert(cs@.subrange(i as int, e as int) =~= seq!['.']);
        }
        return None;
    }
    if e - i == 2 && cs[i] == '.' && cs[i + 1] == '.' {
        proof {
            assert(cs@.subrange(i as int, e as int) =~= seq!['.', '.']);
        }
        return None;
    }
    proof {
        let n = cs@.subrange(i as int, e as int);
        assert(n != seq!['.'] && n != seq!['.', '.']) by {
            assert(seq!['.'][0] == '.' && seq!['.'].len() == 1);
            assert(seq!['.', '.'][0] == '.' && seq!['.', '.'][1] == '.' && seq![
                '.',
                '.',
            ].len() == 2);
            if n == seq!['.'] {
                assert(n.len() == 1);
                assert(n[0] == cs@[i as int]);
                assert(cs@[i as int] == '.');
            }
            if n == seq!['.', '.'] {
                assert(n.len() == 2);
                assert(n[0] == cs@[i as int] && n[1] == cs@[i as int + 1]);
                assert(cs@[i as int] == '.' && cs@[i as int + 1] == '.');
            }
        }
    }
    Some(char_range_to_string(&cs, i, e))
}

/// The parent component of `path`, if it has one.
pub fn parent_of(path: &str) -> (r: Option<String>)
    ensures
        match r {
            Some(p) => spec_parent(path@) == Some(p@),
            None => spec_parent(path@) is None,
        },
{
    let cs = str_to_char_vec(path);
    proof {
        assert(cs@.take(cs.len() as int) =~= cs@);
    }
    let e = trim_end_seps_index(&cs, cs.len());
    if e == 0 {
        return None;
    }
    let i = last_sep_scan(&cs, e);
    if i == 0 {
        proof {
            assert(cs@.take(e as int).take(0) =~= cs@.take(0));
            assert(cs@.take(0) =~= Seq::<char>::empty());
        }
        return Some(String::new());
    }
    proof {
        assert(cs@.take(e as int).take(i as int - 1) =~= cs@.take(i as int - 1));
    }
    let p = trim_end_seps_index(&cs, i - 1);
    if p == 0 {
        proof {
            assert(cs@.take(e as int).take(1) =~= cs@.subrange(0, 1));
        }
        return Some(char_range_to_string(&cs, 0, 1));
    }
    proof {
        assert(cs@.take(p as int) =~= cs@.subrange(0, p as int));
    }
    Some(char_range_to_string(&cs, 0, p))
}

/// Whether the file name has an extension.
pub fn has_extension(name: &str) -> (r: bool)
    ensures
        r == spec_has_ext(name@),
{
    let cs = str_to_char_vec(name);
    let mut i: usize = 1;
    if cs.len() == 0 {
        return false;
    }
    while i < cs.len()
        invariant
            1 <= i,
            cs@ == name@,
            i <= cs.len(),
            forall|k: int| 1 <= k < i ==> name@[k] != '.',
        decreases cs.len() - i,
    {
        if cs[i] == '.' {
            proof {
                assert(name@[i as int] == '.');
            }
            return true;
        }
        i = i + 1;
    }
    false
}

/// Whether `path` is absolute.
pub fn is_absolute(path: &str) -> (r: bool)
    ensures
        r == spec_is_absolute(path@),
{
    let cs = str_to_char_vec(path);
    if cs.len() >= 1 && cs[0] == '/' {
        return true;
    }
    if cs.len() >= 2 && cs[0] == '\\' && cs[1] == '\\' {
        return true;
    }
    if cs.len() >= 3 {
        let c = cs[0];
        let drive = ('A' <= c && c <= 'Z') || ('a' <= c && c <= 'z');
        if drive && cs[1] == ':' && (cs[2] == '/' || cs[2] == '\\') {
            return true;
        }
    }
    false
}

/// Whether `path` has a root.
pub fn has_root(path: &str) -> (r: bool)
    ensures
        r == spec_has_root(path@),
{
    let cs = str_to_char_vec(path);
    if cs.len() >= 1 && (cs[0] == '/' || cs[0] == '\\') {
        return true;
    }
    if cs.len() >= 3 {
        let c = cs[0];
        let drive = ('A' <= c && c <= 'Z') || ('a' <= c && c <= 'z');
        if drive && cs[1] == ':' && (cs[2] == '/' || cs[2] == '\\') {
            return true;
        }
    }
    false
}

/// Joins a directory and a further component into one path.
pub fn path_join(dir: &str, name: &str) -> (r: String)
    ensures
        r@ == spec_join(dir@, name@),
{
    let dv = str_to_char_vec(dir);
    let nv = str_to_char_vec(name);
    if dv.len() == 0 {
        let mut out: Vec<char> = Vec::new();
        let mut out2 = nv;
        out.append(&mut out2);
        proof {
            assert(out@ =~= name@);
        }
        return crate::text::chars_to_string(&out);
    }
    let mut out = dv;
    let last = out[out.len() - 1];
    if !(last == '/' || last == '\\') {
        out.push('/');
        proof {
            assert(out@ =~= dir@ + seq!['/']);
        }
    }
    let mut tail = nv;
    out.append(&mut tail);
    proof {
        assert(out@ =~= spec_join(dir@, name@));
    }
    crate::text::chars_to_string(&out)
}

/// Removes the last component of the path; reports whether it could.
pub fn path_pop(path: &mut String) -> (r: bool)
    ensures
        match spec_parent(old(path)@) {
            Some(p) => r == true && final(path)@ == p,
            None => r == false && final(path)@ == old(path)@,
        },
{
    let parent = parent_of(path.as_str());
    match parent {
        Some(p) => {
            *path = p;
            true
        },
        None => false,
    }
}

/// A parent is always strictly shorter than the path it came from.
pub proof fn lemma_parent_shorter(s: Seq<char>)
    requires
        spec_parent(s) is Some,
    ensures
        spec_parent(s)->0.len() < s.len(),
{
    let u = trim_end_seps(s);
    lemma_trim_end_seps_len(s);
    let i = find_last_sep(u);
    if u.len() > 0 && i == -1 {
        assert(spec_parent(s) == Some(Seq::<char>::empty()));
    } else if u.len() > 0 {
        lemma_find_last_sep_range(u);
        lemma_trim_end_seps_last(s);
        assert(!is_sep(u.last()));
        assert(find_last_sep(u) == find_last_sep(u.drop_last()));
        lemma_find_last_sep_range(u.drop_last());
        assert(i <= u.len() - 2);
        let p = trim_end_seps(u.take(i));
        lemma_trim_end_seps_len(u.take(i));
        assert(p.len() <= i);
        if p.len() == 0 {
            assert(spec_parent(s) == Some(u.take(1)));
            assert(u.take(1).len() == 1);
            assert(u.len() >= 2);
        } else {
            assert(spec_parent(s) == Some(p));
        }
    }
}

/// What trimming trailing separators leaves never ends with a separator.
pub proof fn lemma_trim_end_seps_last(s: Seq<char>)
    ensures
        trim_end_seps(s).len() > 0 ==> !is_sep(trim_end_seps(s).last()),
    decreases s.len(),
{
    if s.len() > 0 && is_sep(s.last()) {
        lemma_trim_end_seps_last(s.drop_last());
    }
}

/// Trimming separators never lengthens a sequence.
pub proof fn lemma_trim_end_seps_len(s: Seq<char>)
    ensures
        trim_end_seps(s).len() <= s.len(),
    decreases s.len(),
{
    if s.len() > 0 && is_sep(s.last()) {
        lemma_trim_end_seps_len(s.drop_last());
    }
}

/// The last-separator index lies below the length.
pub proof fn lemma_find_last_sep_range(s: Seq<char>)
    ensures
        -1 <= find_last_sep(s) < s.len(),
    decreases s.len(),
{
    if s.len() > 0 && !is_sep(s.last()) {
        lemma_find_last_sep_range(s.drop_last());
    }
}

/// Lower-cases a path for case-insensitive comparison, with Unicode
/// lower-casing semantics.
pub fn normalize_path(path: &str) -> (r: String)
    ensures
        r@ == unicode_lower(path@),
{
    lower_string_unicode(path)
}

} // verus!
