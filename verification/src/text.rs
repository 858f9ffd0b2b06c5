//! Character-level helpers shared by the parsing modules.
//!
//! Case-insensitive comparisons fold ASCII letters only, mirroring the
//! original flag dialect's `eq_ignore_ascii_case` checks, and stay fully
//! specified.  Where whole text is lower-cased once — path normalization,
//! the scanner's view of a log line — Unicode lower-casing is used, named
//! by `unicode_lower` and carried out by `str::to_lowercase`.

use vstd::prelude::*;
use vstd::std_specs::iter::IteratorSpec;

verus! {

broadcast use vstd::string::group_string_axioms;

/// The Unicode `White_Space` code points, the set `char::is_whitespace` tests.
pub open spec fn is_ws_char(c: char) -> bool {
    let u = c as u32;
    u == 0x9 || u == 0xA || u == 0xB || u == 0xC || u == 0xD || u == 0x20 || u == 0x85
        || u == 0xA0 || u == 0x1680 || (0x2000 <= u && u <= 0x200A) || u == 0x2028
        || u == 0x2029 || u == 0x202F || u == 0x205F || u == 0x3000
}

/// Whether `c` is a whitespace character.
pub fn is_ws(c: char) -> (r: bool)
    ensures
        r == is_ws_char(c),
{
    match c {
        '\u{9}' | '\u{A}' | '\u{B}' | '\u{C}' | '\u{D}' | '\u{20}' | '\u{85}' | '\u{A0}'
            | '\u{1680}' | '\u{2000}' | '\u{2001}' | '\u{2002}' | '\u{2003}' | '\u{2004}'
            | '\u{2005}' | '\u{2006}' | '\u{2007}' | '\u{2008}' | '\u{2009}' | '\u{200A}'
            | '\u{2028}' | '\u{2029}' | '\u{202F}' | '\u{205F}' | '\u{3000}' => true,
        _ => false,
    }
}

/// ASCII case folding of one character.
pub open spec fn spec_lower_char(c: char) -> char {
    if 0x41 <= c as u32 && c as u32 <= 0x5A {
        (c as u32 + 0x20) as char
    } else {
        c
    }
}

/// A character sequence, ASCII-folded to lower case.
pub open spec fn spec_lower(s: Seq<char>) -> Seq<char> {
    s.map_values(|c: char| spec_lower_char(c))
}

/// ASCII case folding of one character.
pub fn lower_char(c: char) -> (r: char)
    ensures
        r == spec_lower_char(c),
{
    match c {
        'A' => 'a',
        'B' => 'b',
        'C' => 'c',
        'D' => 'd',
        'E' => 'e',
        'F' => 'f',
        'G' => 'g',
        'H' => 'h',
        'I' => 'i',
        'J' => 'j',
        'K' => 'k',
        'L' => 'l',
        'M' => 'm',
        'N' => 'n',
        'O' => 'o',
        'P' => 'p',
        'Q' => 'q',
        'R' => 'r',
        'S' => 's',
        'T' => 't',
        'U' => 'u',
        'V' => 'v',
        'W' => 'w',
        'X' => 'x',
        'Y' => 'y',
        'Z' => 'z',
        _ => c,
    }
}

/// Relies on `String::push`: it appends exactly the one character.
#[verifier::external_body]
pub fn push_char(s: &mut String, c: char)
    ensures
        final(s)@ == old(s)@.push(c),
{
    s.push(c);
}

/// Collects the characters of a string slice into a vector.
pub fn str_to_char_vec(s: &str) -> (v: Vec<char>)
    ensures
        v@ == s@,
{
    let mut v: Vec<char> = Vec::new();
    let mut it = s.chars();
    loop
        invariant_except_break
            it.decrease() is Some,
            v@ + it.remaining() == s@,
        ensures
            v@ == s@,
        decreases it.decrease()->0,
    {
        match it.next() {
            Some(c) => {
                v.push(c);
                proof {
                    assert(v@ + it.remaining() =~= s@);
                }
            },
            None => {
                proof {
                    assert(v@ + it.remaining() =~= v@);
                }
                break;
            },
        }
    }
    v
}

/// Builds a string out of a vector of characters.
pub fn chars_to_string(cs: &Vec<char>) -> (s: String)
    ensures
        s@ == cs@,
{
    let mut s = String::new();
    let mut i: usize = 0;
    while i < cs.len()
        invariant
            i <= cs.len(),
            s@ == cs@.take(i as int),
        decreases cs.len() - i,
    {
        push_char(&mut s, cs[i]);
        i = i + 1;
        proof {
            assert(cs@.take(i as int) =~= cs@.take(i as int - 1).push(cs@[i as int - 1]));
        }
    }
    proof {
        assert(cs@.take(cs.len() as int) =~= cs@);
    }
    s
}

/// What `str::to_lowercase` returns: the Unicode lower-casing of a
/// character sequence.
pub uninterp spec fn unicode_lower(s: Seq<char>) -> Seq<char>;

/// Relies on `str::to_lowercase`: the result depends on the characters
/// alone, and lower-casing an empty string gives an empty string.
#[verifier::external_body]
pub(crate) fn lower_string_unicode(s: &str) -> (r: String)
    ensures
        r@ == unicode_lower(s@),
        s@.len() == 0 ==> r@.len() == 0,
{
    s.to_lowercase()
}

/// Whether two character vectors are equal once ASCII-folded to lower case.
pub fn chars_eq_ignore_case(a: &Vec<char>, b: &Vec<char>) -> (r: bool)
    ensures
        r == (spec_lower(a@) == spec_lower(b@)),
{
    if a.len() != b.len() {
        proof {
            assert(spec_lower(a@).len() == a@.len());
            assert(spec_lower(b@).len() == b@.len());
        }
        return false;
    }
    let mut i: usize = 0;
    while i < a.len()
        invariant
            i <= a.len(),
            a.len() == b.len(),
            forall|k: int| 0 <= k < i ==> spec_lower(a@)[k] == spec_lower(b@)[k],
        decreases a.len() - i,
    {
        if lower_char(a[i]) != lower_char(b[i]) {
            proof {
                assert(spec_lower(a@)[i as int] != spec_lower(b@)[i as int]);
            }
            return false;
        }
        i = i + 1;
    }
    proof {
        assert(spec_lower(a@) =~= spec_lower(b@));
    }
    true
}

/// Whether two strings are equal ignoring ASCII case.
pub fn str_eq_ignore_case(a: &str, b: &str) -> (r: bool)
    ensures
        r == (spec_lower(a@) == spec_lower(b@)),
{
    let av = str_to_char_vec(a);
    let bv = str_to_char_vec(b);
    chars_eq_ignore_case(&av, &bv)
}

/// Whether `s` ends with `suffix`.
pub open spec fn spec_ends_with(s: Seq<char>, suffix: Seq<char>) -> bool {
    s.len() >= suffix.len() && s.subrange(s.len() - suffix.len(), s.len() as int) == suffix
}

/// Whether `s` starts with `prefix`.
pub open spec fn spec_starts_with(s: Seq<char>, prefix: Seq<char>) -> bool {
    s.len() >= prefix.len() && s.take(prefix.len() as int) == prefix
}

/// Whether the tail of `s` (of `suffix`'s length) equals `suffix` ignoring ASCII case.
pub fn chars_ends_with_ignore_case(s: &Vec<char>, suffix: &Vec<char>) -> (r: bool)
    ensures
        r == spec_ends_with(spec_lower(s@), spec_lower(suffix@)),
{
    if suffix.len() > s.len() {
        return false;
    }
    let start: usize = s.len() - suffix.len();
    let mut i: usize = 0;
    while i < suffix.len()
        invariant
            i <= suffix.len(),
            start == s.len() - suffix.len(),
            forall|k: int| 0 <= k < i ==> spec_lower(s@)[start + k] == spec_lower(suffix@)[k],
        decreases suffix.len() - i,
    {
        if lower_char(s[start + i]) != lower_char(suffix[i]) {
            proof {
                assert(spec_lower(s@).subrange(start as int, s@.len() as int)[i as int] !=
                    spec_lower(suffix@)[i as int]);
            }
            return false;
        }
        i = i + 1;
    }
    proof {
        assert(spec_lower(s@).subrange(
            spec_lower(s@).len() - spec_lower(suffix@).len(),
            spec_lower(s@).len() as int,
        ) =~= spec_lower(suffix@));
    }
    true
}

/// Whether `s` starts with `prefix`, case-sensitively.
pub fn chars_starts_with(s: &Vec<char>, prefix: &Vec<char>) -> (r: bool)
    ensures
        r == spec_starts_with(s@, prefix@),
{
    if prefix.len() > s.len() {
        return false;
    }
    let mut i: usize = 0;
    while i < prefix.len()
        invariant
            i <= prefix.len() <= s.len(),
            forall|k: int| 0 <= k < i ==> s@[k] == prefix@[k],
        decreases prefix.len() - i,
    {
        if s[i] != prefix[i] {
            proof {
                assert(s@.take(prefix@.len() as int)[i as int] != prefix@[i as int]);
            }
            return false;
        }
        i = i + 1;
    }
    proof {
        assert(s@.take(prefix@.len() as int) =~= prefix@);
    }
    true
}

/// Whether `c` is one of the two quote characters trimmed from line ends.
pub open spec fn is_quote_char(c: char) -> bool {
    c == '"' || c == '\''
}

/// Whether `c` is a carriage return or a line feed.
pub open spec fn is_eol_char(c: char) -> bool {
    c == '\r' || c == '\n'
}

/// `s` without its trailing whitespace.
pub open spec fn trim_end_ws(s: Seq<char>) -> Seq<char>
    decreases s.len(),
{
    if s.len() > 0 && is_ws_char(s.last()) {
        trim_end_ws(s.drop_last())
    } else {
        s
    }
}

/// `s` without its leading whitespace.
pub open spec fn trim_start_ws(s: Seq<char>) -> Seq<char>
    decreases s.len(),
{
    if s.len() > 0 && is_ws_char(s.first()) {
        trim_start_ws(s.drop_first())
    } else {
        s
    }
}

/// `s` without its trailing quote characters.
pub open spec fn trim_end_quotes(s: Seq<char>) -> Seq<char>
    decreases s.len(),
{
    if s.len() > 0 && is_quote_char(s.last()) {
        trim_end_quotes(s.drop_last())
    } else {
        s
    }
}

/// `s` without its leading quote characters.
pub open spec fn trim_start_quotes(s: Seq<char>) -> Seq<char>
    decreases s.len(),
{
    if s.len() > 0 && is_quote_char(s.first()) {
        trim_start_quotes(s.drop_first())
    } else {
        s
    }
}

/// `s` without its trailing carriage returns and line feeds.
pub open spec fn trim_end_eol(s: Seq<char>) -> Seq<char>
    decreases s.len(),
{
    if s.len() > 0 && is_eol_char(s.last()) {
        trim_end_eol(s.drop_last())
    } else {
        s
    }
}

/// Index cut of the trailing whitespace of `cs[..end]`.
pub fn trim_end_ws_index(cs: &Vec<char>, end: usize) -> (e: usize)
    requires
        end <= cs.len(),
    ensures
        e <= end,
        trim_end_ws(cs@.take(end as int)) == cs@.take(e as int),
{
    let mut e: usize = end;
    while e > 0 && is_ws(cs[e - 1])
        invariant
            e <= end <= cs.len(),
            trim_end_ws(cs@.take(end as int)) == trim_end_ws(cs@.take(e as int)),
        decreases e,
    {
        proof {
            assert(cs@.take(e as int).drop_last() =~= cs@.take(e as int - 1));
        }
        e = e - 1;
    }
    e
}

/// Index cut of the leading whitespace of `cs[start..end]`.
pub fn trim_start_ws_index(cs: &Vec<char>, start: usize, end: usize) -> (s2: usize)
    requires
        start <= end <= cs.len(),
    ensures
        start <= s2 <= end,
        trim_start_ws(cs@.subrange(start as int, end as int)) == cs@.subrange(
            s2 as int,
            end as int,
        ),
{
    let mut s2: usize = start;
    while s2 < end && is_ws(cs[s2])
        invariant
            start <= s2 <= end <= cs.len(),
            trim_start_ws(cs@.subrange(start as int, end as int)) == trim_start_ws(
                cs@.subrange(s2 as int, end as int),
            ),
        decreases end - s2,
    {
        proof {
            assert(cs@.subrange(s2 as int, end as int).drop_first() =~= cs@.subrange(
                s2 as int + 1,
                end as int,
            ));
        }
        s2 = s2 + 1;
    }
    s2
}

/// Index cut of the trailing quote characters of `cs[start..end]`.
pub fn trim_end_quotes_range(cs: &Vec<char>, start: usize, end: usize) -> (e: usize)
    requires
        start <= end <= cs.len(),
    ensures
        start <= e <= end,
        trim_end_quotes(cs@.subrange(start as int, end as int)) == cs@.subrange(
            start as int,
            e as int,
        ),
{
    let mut e: usize = end;
    while e > start && (cs[e - 1] == '"' || cs[e - 1] == '\'')
        invariant
            start <= e <= end <= cs.len(),
            trim_end_quotes(cs@.subrange(start as int, end as int)) == trim_end_quotes(
                cs@.subrange(start as int, e as int),
            ),
        decreases e,
    {
        proof {
            assert(cs@.subrange(start as int, e as int).drop_last() =~= cs@.subrange(
                start as int,
                e as int - 1,
            ));
        }
        e = e - 1;
    }
    e
}

/// Index cut of the leading quote characters of `cs[start..end]`.
pub fn trim_start_quotes_range(cs: &Vec<char>, start: usize, end: usize) -> (s2: usize)
    requires
        start <= end <= cs.len(),
    ensures
        start <= s2 <= end,
        trim_start_quotes(cs@.subrange(start as int, end as int)) == cs@.subrange(
            s2 as int,
            end as int,
        ),
{
    let mut s2: usize = start;
    while s2 < end && (cs[s2] == '"' || cs[s2] == '\'')
        invariant
            start <= s2 <= end <= cs.len(),
            trim_start_quotes(cs@.subrange(start as int, end as int)) == trim_start_quotes(
                cs@.subrange(s2 as int, end as int),
            ),
        decreases end - s2,
    {
        proof {
            assert(cs@.subrange(s2 as int, end as int).drop_first() =~= cs@.subrange(
                s2 as int + 1,
                end as int,
            ));
        }
        s2 = s2 + 1;
    }
    s2
}

/// Index cut of the trailing carriage returns and line feeds of `cs[..end]`.
pub fn trim_end_eol_index(cs: &Vec<char>, end: usize) -> (e: usize)
    requires
        end <= cs.len(),
    ensures
        e <= end,
        trim_end_eol(cs@.take(end as int)) == cs@.take(e as int),
{
    let mut e: usize = end;
    while e > 0 && (cs[e - 1] == '\r' || cs[e - 1] == '\n')
        invariant
            e <= end <= cs.len(),
            trim_end_eol(cs@.take(end as int)) == trim_end_eol(cs@.take(e as int)),
        decreases e,
    {
        proof {
            assert(cs@.take(e as int).drop_last() =~= cs@.take(e as int - 1));
        }
        e = e - 1;
    }
    e
}

/// Whether some position of `hay` begins an occurrence of `needle`.
pub open spec fn spec_contains_seq(hay: Seq<char>, needle: Seq<char>) -> bool {
    exists|i: int|
        0 <= i && i + needle.len() <= hay.len() && #[trigger] hay.subrange(i, i + needle.len())
            == needle
}

/// Whether `i` is the first position of `hay` where `needle` occurs.
pub open spec fn first_match_at(hay: Seq<char>, needle: Seq<char>, i: int) -> bool {
    &&& 0 <= i
    &&& i + needle.len() <= hay.len()
    &&& hay.subrange(i, i + needle.len()) == needle
    &&& forall|k: int|
        0 <= k < i ==> #[trigger] hay.subrange(k, k + needle.len()) != needle
}

/// Finds the first occurrence of `needle` in `hay`, if any.
pub fn chars_find_seq(hay: &Vec<char>, needle: &Vec<char>) -> (r: Option<usize>)
    ensures
        match r {
            Some(i) => first_match_at(hay@, needle@, i as int),
            None => !spec_contains_seq(hay@, needle@),
        },
{
    if needle.len() > hay.len() {
        return None;
    }
    if needle.len() == 0 {
        proof {
            assert(hay@.subrange(0, 0) =~= needle@);
        }
        return Some(0);
    }
    let last_start: usize = hay.len() - needle.len();
    let mut i: usize = 0;
    while i <= last_start
        invariant
            needle.len() <= hay.len(),
            last_start == hay.len() - needle.len(),
            needle.len() >= 1,
            i <= last_start + 1,
            forall|k: int|
                0 <= k < i ==> #[trigger] hay@.subrange(k, k + needle@.len()) != needle@,
        decreases last_start + 1 - i,
    {
        let mut j: usize = 0;
        let mut matched: bool = true;
        while j < needle.len()
            invariant
                i + needle.len() <= hay.len(),
                j <= needle.len(),
                matched ==> forall|k: int| 0 <= k < j ==> hay@[i + k] == needle@[k],
                !matched ==> hay@.subrange(i as int, i + needle@.len()) != needle@,
            decreases needle.len() - j,
        {
            if hay[i + j] != needle[j] {
                proof {
                    assert(hay@.subrange(i as int, i + needle@.len())[j as int] != needle@[
                    j as int]);
                }
                matched = false;
                j = needle.len();
            } else {
                j = j + 1;
            }
        }
        if matched {
            proof {
                assert(hay@.subrange(i as int, i + needle@.len()) =~= needle@);
            }
            return Some(i);
        }
        i = i + 1;
    }
    proof {
        assert forall|k: int| 0 <= k && k + needle@.len() <= hay@.len() implies #[trigger] hay@
            .subrange(k, k + needle@.len()) != needle@ by {
            assert(k < i);
        }
    }
    None
}

/// Whether `needle` occurs anywhere in `hay`.
pub fn chars_contains_seq(hay: &Vec<char>, needle: &Vec<char>) -> (r: bool)
    ensures
        r == spec_contains_seq(hay@, needle@),
{
    let found = chars_find_seq(hay, needle);
    match found {
        Some(_) => true,
        None => false,
    }
}

/// Whether the character `c` occurs in `cs`.
pub fn chars_contains_char(cs: &Vec<char>, c: char) -> (r: bool)
    ensures
        r == cs@.contains(c),
{
    let mut i: usize = 0;
    while i < cs.len()
        invariant
            i <= cs.len(),
            forall|k: int| 0 <= k < i ==> cs@[k] != c,
        decreases cs.len() - i,
    {
        if cs[i] == c {
            return true;
        }
        i = i + 1;
    }
    false
}

/// Copies a range of a character vector into a new vector.
pub fn char_sub_vec(cs: &Vec<char>, start: usize, end: usize) -> (v: Vec<char>)
    requires
        start <= end <= cs.len(),
    ensures
        v@ == cs@.subrange(start as int, end as int),
{
    let mut v: Vec<char> = Vec::new();
    let mut i: usize = start;
    while i < end
        invariant
            start <= i <= end <= cs.len(),
            v@ == cs@.subrange(start as int, i as int),
        decreases end - i,
    {
        v.push(cs[i]);
        i = i + 1;
        proof {
            assert(cs@.subrange(start as int, i as int) =~= cs@.subrange(
                start as int,
                i as int - 1,
            ).push(cs@[i as int - 1]));
        }
    }
    v
}

/// Copies a vector of strings, value for value.
pub fn clone_string_vec(v: &Vec<String>) -> (r: Vec<String>)
    ensures
        r@ == v@,
{
    let mut r: Vec<String> = Vec::new();
    let mut i: usize = 0;
    while i < v.len()
        invariant
            i <= v.len(),
            r@ == v@.take(i as int),
        decreases v.len() - i,
    {
        r.push(v[i].clone());
        i = i + 1;
        proof {
            assert(v@.take(i as int) =~= v@.take(i as int - 1).push(v@[i as int - 1]));
        }
    }
    proof {
        assert(v@.take(v.len() as int) =~= v@);
    }
    r
}

/// Builds a string out of a range of a character vector.
pub fn char_range_to_string(cs: &Vec<char>, start: usize, end: usize) -> (s: String)
    requires
        start <= end <= cs.len(),
    ensures
        s@ == cs@.subrange(start as int, end as int),
{
    let mut s = String::new();
    let mut i: usize = start;
    while i < end
        invariant
            start <= i <= end <= cs.len(),
            s@ == cs@.subrange(start as int, i as int),
        decreases end - i,
    {
        push_char(&mut s, cs[i]);
        i = i + 1;
        proof {
            assert(cs@.subrange(start as int, i as int) =~= cs@.subrange(
                start as int,
                i as int - 1,
            ).push(cs@[i as int - 1]));
        }
    }
    s
}

} // verus!
