//! The compilation-database file format: a JSON array of records, each
//! holding the file, the working directory and the argument list.
//!
//! The writer emits one canonical form — fixed key order, no blank
//! space — and the reader accepts exactly that form.  Reading back what
//! was written yields the same record list; the law at the end states it.

use vstd::prelude::*;

use crate::compile_commands::CompileCommand;
use crate::compile_commands::CompileCommandV;
use crate::text::chars_to_string;
use crate::text::str_to_char_vec;

verus! {

/// The hexadecimal digit of a value below sixteen, in lower case.
pub open spec fn hexd(n: int) -> char {
    if n < 10 {
        (0x30 + n) as char
    } else {
        (0x57 + n) as char
    }
}

/// The escape of one character: quotes and backslashes get a backslash,
/// the three named controls their letter, other controls a `\u00..` form,
/// everything else stands for itself.
pub open spec fn esc_char(c: char) -> Seq<char> {
    if c == '"' {
        seq!['\\', '"']
    } else if c == '\\' {
        seq!['\\', '\\']
    } else if c == '\n' {
        seq!['\\', 'n']
    } else if c == '\r' {
        seq!['\\', 'r']
    } else if c == '\t' {
        seq!['\\', 't']
    } else if (c as u32) < 0x20 {
        seq!['\\', 'u', '0', '0', hexd((c as u32) as int / 16), hexd((c as u32) as int % 16)]
    } else {
        seq![c]
    }
}

/// A whole character sequence, escaped.
pub open spec fn esc(s: Seq<char>) -> Seq<char>
    decreases s.len(),
{
    if s.len() == 0 {
        Seq::empty()
    } else {
        esc_char(s[0]) + esc(s.drop_first())
    }
}

/// A string value: the escaped text between quotes.
pub open spec fn enc_str(s: Seq<char>) -> Seq<char> {
    seq!['"'] + esc(s) + seq!['"']
}

/// The record opener and its first key.
pub open spec fn key_file() -> Seq<char> {
    seq!['{', '"', 'f', 'i', 'l', 'e', '"', ':']
}

/// The second key, with its separating comma.
pub open spec fn key_directory() -> Seq<char> {
    seq![',', '"', 'd', 'i', 'r', 'e', 'c', 't', 'o', 'r', 'y', '"', ':']
}

/// The third key, with its separating comma.
pub open spec fn key_arguments() -> Seq<char> {
    seq![',', '"', 'a', 'r', 'g', 'u', 'm', 'e', 'n', 't', 's', '"', ':']
}

/// The items of a string array, separated by commas.
pub open spec fn enc_args_items(l: Seq<Seq<char>>) -> Seq<char>
    decreases l.len(),
{
    if l.len() == 0 {
        Seq::empty()
    } else if l.len() == 1 {
        enc_str(l[0])
    } else {
        enc_str(l[0]) + seq![','] + enc_args_items(l.drop_first())
    }
}

/// A string array.
pub open spec fn enc_args(l: Seq<Seq<char>>) -> Seq<char> {
    seq!['['] + enc_args_items(l) + seq![']']
}

/// One record.
pub open spec fn enc_record(c: CompileCommandV) -> Seq<char> {
    key_file() + enc_str(c.file) + key_directory() + enc_str(c.directory) + key_arguments()
        + enc_args(c.arguments) + seq!['}']
}

/// The items of the record array, separated by commas.
pub open spec fn enc_db_items(l: Seq<CompileCommandV>) -> Seq<char>
    decreases l.len(),
{
    if l.len() == 0 {
        Seq::empty()
    } else if l.len() == 1 {
        enc_record(l[0])
    } else {
        enc_record(l[0]) + seq![','] + enc_db_items(l.drop_first())
    }
}

/// A whole database.
pub open spec fn spec_serialize(l: Seq<CompileCommandV>) -> Seq<char> {
    seq!['['] + enc_db_items(l) + seq![']']
}

/// Whether `c` is a lower-case hexadecimal digit.
pub open spec fn is_hexd(c: char) -> bool {
    (0x30 <= (c as u32) as int && (c as u32) as int <= 0x39) || (0x61 <= (c as u32) as int && (
    c as u32) as int <= 0x66)
}

/// The value of a lower-case hexadecimal digit.
pub open spec fn hexv(c: char) -> int {
    if (c as u32) as int <= 0x39 {
        (c as u32) as int - 0x30
    } else {
        (c as u32) as int - 0x57
    }
}

/// Reads a string body up to its closing quote; yields the text and what
/// follows the quote.
pub open spec fn p_str_body(s: Seq<char>) -> Option<(Seq<char>, Seq<char>)>
    decreases s.len(),
{
    if s.len() == 0 {
        None
    } else if s[0] == '"' {
        Some((Seq::empty(), s.drop_first()))
    } else if s[0] == '\\' {
        if s.len() < 2 {
            None
        } else if s[1] == '"' || s[1] == '\\' || s[1] == 'n' || s[1] == 'r' || s[1] == 't' {
            let c = if s[1] == '"' {
                '"'
            } else if s[1] == '\\' {
                '\\'
            } else if s[1] == 'n' {
                '\n'
            } else if s[1] == 'r' {
                '\r'
            } else {
                '\t'
            };
            match p_str_body(s.skip(2)) {
                Some(p) => Some((seq![c] + p.0, p.1)),
                None => None,
            }
        } else if s[1] == 'u' {
            if s.len() < 6 || s[2] != '0' || s[3] != '0' || !is_hexd(s[4]) || !is_hexd(s[5]) {
                None
            } else {
                let c = ((hexv(s[4]) * 16 + hexv(s[5])) as u32) as char;
                match p_str_body(s.skip(6)) {
                    Some(p) => Some((seq![c] + p.0, p.1)),
                    None => None,
                }
            }
        } else {
            None
        }
    } else {
        match p_str_body(s.drop_first()) {
            Some(p) => Some((seq![s[0]] + p.0, p.1)),
            None => None,
        }
    }
}

/// Reads a quoted string value.
pub open spec fn p_string(s: Seq<char>) -> Option<(Seq<char>, Seq<char>)> {
    if s.len() > 0 && s[0] == '"' {
        p_str_body(s.drop_first())
    } else {
        None
    }
}

/// What a string-body parse consumes is part of the input.
pub proof fn lemma_p_str_body_shrinks(s: Seq<char>)
    ensures
        p_str_body(s) matches Some(p) ==> p.1.len() < s.len(),
    decreases s.len(),
{
    if s.len() == 0 {
    } else if s[0] == '"' {
    } else if s[0] == '\\' {
        if s.len() >= 2 && (s[1] == '"' || s[1] == '\\' || s[1] == 'n' || s[1] == 'r' || s[1]
            == 't') {
            lemma_p_str_body_shrinks(s.skip(2));
        } else if s.len() >= 2 && s[1] == 'u' {
            if s.len() >= 6 {
                lemma_p_str_body_shrinks(s.skip(6));
            }
        }
    } else {
        lemma_p_str_body_shrinks(s.drop_first());
    }
}

/// What a string parse consumes is part of the input.
pub proof fn lemma_p_string_shrinks(s: Seq<char>)
    ensures
        p_string(s) matches Some(p) ==> p.1.len() < s.len(),
{
    if s.len() > 0 && s[0] == '"' {
        lemma_p_str_body_shrinks(s.drop_first());
    }
}

/// Reads the items of a non-empty string array, from after the opening
/// bracket or a comma; yields the items and what follows the bracket.
pub open spec fn p_args_items(s: Seq<char>) -> Option<(Seq<Seq<char>>, Seq<char>)>
    decreases s.len(),
{
    match p_string(s) {
        None => None,
        Some(p) => {
            let rem = p.1;
            proof {
                lemma_p_string_shrinks(s);
            }
            if rem.len() == 0 {
                None
            } else if rem[0] == ',' {
                match p_args_items(rem.drop_first()) {
                    Some(q) => Some((seq![p.0] + q.0, q.1)),
                    None => None,
                }
            } else if rem[0] == ']' {
                Some((seq![p.0], rem.drop_first()))
            } else {
                None
            }
        },
    }
}

/// Reads a whole string array.
pub open spec fn p_args(s: Seq<char>) -> Option<(Seq<Seq<char>>, Seq<char>)> {
    if s.len() >= 2 && s[0] == '[' && s[1] == ']' {
        Some((Seq::empty(), s.skip(2)))
    } else if s.len() >= 1 && s[0] == '[' {
        p_args_items(s.drop_first())
    } else {
        None
    }
}

/// What an array parse consumes is part of the input.
pub proof fn lemma_p_args_items_shrinks(s: Seq<char>)
    ensures
        p_args_items(s) matches Some(p) ==> p.1.len() < s.len(),
    decreases s.len(),
{
    match p_string(s) {
        None => {},
        Some(p) => {
            lemma_p_string_shrinks(s);
            if p.1.len() > 0 && p.1[0] == ',' {
                lemma_p_args_items_shrinks(p.1.drop_first());
            }
        },
    }
}

/// Reads one record.
pub open spec fn p_record(s: Seq<char>) -> Option<(CompileCommandV, Seq<char>)> {
    if s.len() < key_file().len() || s.take(key_file().len() as int) != key_file() {
        None
    } else {
        match p_string(s.skip(key_file().len() as int)) {
            None => None,
            Some(pf) => {
                let s1 = pf.1;
                if s1.len() < key_directory().len() || s1.take(key_directory().len() as int)
                    != key_directory() {
                    None
                } else {
                    match p_string(s1.skip(key_directory().len() as int)) {
                        None => None,
                        Some(pd) => {
                            let s2 = pd.1;
                            if s2.len() < key_arguments().len() || s2.take(
                                key_arguments().len() as int,
                            ) != key_arguments() {
                                None
                            } else {
                                match p_args(s2.skip(key_arguments().len() as int)) {
                                    None => None,
                                    Some(pa) => {
                                        let s3 = pa.1;
                                        if s3.len() >= 1 && s3[0] == '}' {
                                            Some(
                                                (
                                                    CompileCommandV {
                                                        file: pf.0,
                                                        directory: pd.0,
                                                        arguments: pa.0,
                                                    },
                                                    s3.drop_first(),
                                                ),
                                            )
                                        } else {
                                            None
                                        }
                                    },
                                }
                            }
                        },
                    }
                }
            },
        }
    }
}

/// What a record parse consumes is part of the input.
pub proof fn lemma_p_record_shrinks(s: Seq<char>)
    ensures
        p_record(s) matches Some(p) ==> p.1.len() < s.len(),
{
    if s.len() >= key_file().len() && s.take(key_file().len() as int) == key_file() {
        let t0 = s.skip(key_file().len() as int);
        lemma_p_string_shrinks(t0);
        match p_string(t0) {
            None => {},
            Some(pf) => {
                let s1 = pf.1;
                if s1.len() >= key_directory().len() && s1.take(key_directory().len() as int)
                    == key_directory() {
                    let t1 = s1.skip(key_directory().len() as int);
                    lemma_p_string_shrinks(t1);
                    match p_string(t1) {
                        None => {},
                        Some(pd) => {
                            let s2 = pd.1;
                            if s2.len() >= key_arguments().len() && s2.take(
                                key_arguments().len() as int,
                            ) == key_arguments() {
                                let t2 = s2.skip(key_arguments().len() as int);
                                lemma_p_args_items_shrinks(t2.drop_first());
                                match p_args(t2) {
                                    None => {},
                                    Some(pa) => {},
                                }
                            }
                        },
                    }
                }
            },
        }
    }
}

/// Reads the items of a non-empty record array.
pub open spec fn p_db_items(s: Seq<char>) -> Option<(Seq<CompileCommandV>, Seq<char>)>
    decreases s.len(),
{
    match p_record(s) {
        None => None,
        Some(p) => {
            let rem = p.1;
            proof {
                lemma_p_record_shrinks(s);
            }
            if rem.len() == 0 {
                None
            } else if rem[0] == ',' {
                match p_db_items(rem.drop_first()) {
                    Some(q) => Some((seq![p.0] + q.0, q.1)),
                    None => None,
                }
            } else if rem[0] == ']' {
                Some((seq![p.0], rem.drop_first()))
            } else {
                None
            }
        },
    }
}

/// Reads a whole database text: a record array consuming all the input.
pub open spec fn spec_parse(s: Seq<char>) -> Option<Seq<CompileCommandV>> {
    if s.len() >= 2 && s[0] == '[' && s[1] == ']' && s.len() == 2 {
        Some(Seq::empty())
    } else if s.len() >= 1 && s[0] == '[' {
        match p_db_items(s.drop_first()) {
            Some(p) => {
                if p.1.len() == 0 {
                    Some(p.0)
                } else {
                    None
                }
            },
            None => None,
        }
    } else {
        None
    }
}

/// For a control character, the two emitted digits read back as the
/// character: there are only thirty-two cases, checked one by one.
proof fn lemma_control_roundtrip(c: char)
    requires
        (c as u32) < 0x20,
    ensures
        is_hexd(hexd((c as u32) as int / 16)),
        is_hexd(hexd((c as u32) as int % 16)),
        (((hexv(hexd((c as u32) as int / 16)) * 16 + hexv(hexd((c as u32) as int % 16)))
            as u32) as char) == c,
{
    let v = c as u32;
    if v == 0x0 {
        vstd::utf8::char_u32_cast(c, v);
        assert((0x0u32 as char) == '\u{0}');
        assert(c == '\u{0}');
        assert(hexd((c as u32) as int / 16) == '0' && hexd((c as u32) as int % 16) == '0');
        assert(is_hexd('0') && is_hexd('0'));
        assert((((hexv('0') * 16 + hexv('0'))) as u32) as char == c);
    }
    if v == 0x1 {
        vstd::utf8::char_u32_cast(c, v);
        assert((0x1u32 as char) == '\u{1}');
        assert(c == '\u{1}');
        assert(hexd((c as u32) as int / 16) == '0' && hexd((c as u32) as int % 16) == '1');
        assert(is_hexd('0') && is_hexd('1'));
        assert((((hexv('0') * 16 + hexv('1'))) as u32) as char == c);
    }
    if v == 0x2 {
        vstd::utf8::char_u32_cast(c, v);
        assert((0x2u32 as char) == '\u{2}');
        assert(c == '\u{2}');
        assert(hexd((c as u32) as int / 16) == '0' && hexd((c as u32) as int % 16) == '2');
        assert(is_hexd('0') && is_hexd('2'));
        assert((((hexv('0') * 16 + hexv('2'))) as u32) as char == c);
    }
    if v == 0x3 {
        vstd::utf8::char_u32_cast(c, v);
        assert((0x3u32 as char) == '\u{3}');
        assert(c == '\u{3}');
        assert(hexd((c as u32) as int / 16) == '0' && hexd((c as u32) as int % 16) == '3');
        assert(is_hexd('0') && is_hexd('3'));
        assert((((hexv('0') * 16 + hexv('3'))) as u32) as char == c);
    }
    if v == 0x4 {
        vstd::utf8::char_u32_cast(c, v);
        assert((0x4u32 as char) == '\u{4}');
        assert(c == '\u{4}');
        assert(hexd((c as u32) as int / 16) == '0' && hexd((c as u32) as int % 16) == '4');
        assert(is_hexd('0') && is_hexd('4'));
        assert((((hexv('0') * 16 + hexv('4'))) as u32) as char == c);
    }
    if v == 0x5 {
        vstd::utf8::char_u32_cast(c, v);
        assert((0x5u32 as char) == '\u{5}');
        assert(c == '\u{5}');
        assert(hexd((c as u32) as int / 16) == '0' && hexd((c as u32) as int % 16) == '5');
        assert(is_hexd('0') && is_hexd('5'));
        assert((((hexv('0') * 16 + hexv('5'))) as u32) as char == c);
    }
    if v == 0x6 {
        vstd::utf8::char_u32_cast(c, v);
        assert((0x6u32 as char) == '\u{6}');
        assert(c == '\u{6}');
        assert(hexd((c as u32) as int / 16) == '0' && hexd((c as u32) as int % 16) == '6');
        assert(is_hexd('0') && is_hexd('6'));
        assert((((hexv('0') * 16 + hexv('6'))) as u32) as char == c);
    }
    if v == 0x7 {
        vstd::utf8::char_u32_cast(c, v);
        assert((0x7u32 as char) == '\u{7}');
        assert(c == '\u{7}');
        assert(hexd((c as u32) as int / 16) == '0' && hexd((c as u32) as int % 16) == '7');
        assert(is_hexd('0') && is_hexd('7'));
        assert((((hexv('0') * 16 + hexv('7'))) as u32) as char == c);
    }
    if v == 0x8 {
        vstd::utf8::char_u32_cast(c, v);
        assert((0x8u32 as char) == '\u{8}');
        assert(c == '\u{8}');
        assert(hexd((c as u32) as int / 16) == '0' && hexd((c as u32) as int % 16) == '8');
        assert(is_hexd('0') && is_hexd('8'));
        assert((((hexv('0') * 16 + hexv('8'))) as u32) as char == c);
    }
    if v == 0x9 {
        vstd::utf8::char_u32_cast(c, v);
        assert((0x9u32 as char) == '\u{9}');
        assert(c == '\u{9}');
        assert(hexd((c as u32) as int / 16) == '0' && hexd((c as u32) as int % 16) == '9');
        assert(is_hexd('0') && is_hexd('9'));
        assert((((hexv('0') * 16 + hexv('9'))) as u32) as char == c);
    }
    if v == 0xa {
        vstd::utf8::char_u32_cast(c, v);
        assert((0xau32 as char) == '\u{a}');
        assert(c == '\u{a}');
        assert(hexd((c as u32) as int / 16) == '0' && hexd((c as u32) as int % 16) == 'a');
        assert(is_hexd('0') && is_hexd('a'));
        assert((((hexv('0') * 16 + hexv('a'))) as u32) as char == c);
    }
    if v == 0xb {
        vstd::utf8::char_u32_cast(c, v);
        assert((0xbu32 as char) == '\u{b}');
        assert(c == '\u{b}');
        assert(hexd((c as u32) as int / 16) == '0' && hexd((c as u32) as int % 16) == 'b');
        assert(is_hexd('0') && is_hexd('b'));
        assert((((hexv('0') * 16 + hexv('b'))) as u32) as char == c);
    }
    if v == 0xc {
        vstd::utf8::char_u32_cast(c, v);
        assert((0xcu32 as char) == '\u{c}');
        assert(c == '\u{c}');
        assert(hexd((c as u32) as int / 16) == '0' && hexd((c as u32) as int % 16) == 'c');
        assert(is_hexd('0') && is_hexd('c'));
        assert((((hexv('0') * 16 + hexv('c'))) as u32) as char == c);
    }
    if v == 0xd {
        vstd::utf8::char_u32_cast(c, v);
        assert((0xdu32 as char) == '\u{d}');
        assert(c == '\u{d}');
        assert(hexd((c as u32) as int / 16) == '0' && hexd((c as u32) as int % 16) == 'd');
        assert(is_hexd('0') && is_hexd('d'));
        assert((((hexv('0') * 16 + hexv('d'))) as u32) as char == c);
    }
    if v == 0xe {
        vstd::utf8::char_u32_cast(c, v);
        assert((0xeu32 as char) == '\u{e}');
        assert(c == '\u{e}');
        assert(hexd((c as u32) as int / 16) == '0' && hexd((c as u32) as int % 16) == 'e');
        assert(is_hexd('0') && is_hexd('e'));
        assert((((hexv('0') * 16 + hexv('e'))) as u32) as char == c);
    }
    if v == 0xf {
        vstd::utf8::char_u32_cast(c, v);
        assert((0xfu32 as char) == '\u{f}');
        assert(c == '\u{f}');
        assert(hexd((c as u32) as int / 16) == '0' && hexd((c as u32) as int % 16) == 'f');
        assert(is_hexd('0') && is_hexd('f'));
        assert((((hexv('0') * 16 + hexv('f'))) as u32) as char == c);
    }
    if v == 0x10 {
        vstd::utf8::char_u32_cast(c, v);
        assert((0x10u32 as char) == '\u{10}');
        assert(c == '\u{10}');
        assert(hexd((c as u32) as int / 16) == '1' && hexd((c as u32) as int % 16) == '0');
        assert(is_hexd('1') && is_hexd('0'));
        assert((((hexv('1') * 16 + hexv('0'))) as u32) as char == c);
    }
    if v == 0x11 {
        vstd::utf8::char_u32_cast(c, v);
        assert((0x11u32 as char) == '\u{11}');
        assert(c == '\u{11}');
        assert(hexd((c as u32) as int / 16) == '1' && hexd((c as u32) as int % 16) == '1');
        assert(is_hexd('1') && is_hexd('1'));
        assert((((hexv('1') * 16 + hexv('1'))) as u32) as char == c);
    }
    if v == 0x12 {
        vstd::utf8::char_u32_cast(c, v);
        assert((0x12u32 as char) == '\u{12}');
        assert(c == '\u{12}');
        assert(hexd((c as u32) as int / 16) == '1' && hexd((c as u32) as int % 16) == '2');
        assert(is_hexd('1') && is_hexd('2'));
        assert((((hexv('1') * 16 + hexv('2'))) as u32) as char == c);
    }
    if v == 0x13 {
        vstd::utf8::char_u32_cast(c, v);
        assert((0x13u32 as char) == '\u{13}');
        assert(c == '\u{13}');
        assert(hexd((c as u32) as int / 16) == '1' && hexd((c as u32) as int % 16) == '3');
        assert(is_hexd('1') && is_hexd('3'));
        assert((((hexv('1') * 16 + hexv('3'))) as u32) as char == c);
    }
    if v == 0x14 {
        vstd::utf8::char_u32_cast(c, v);
        assert((0x14u32 as char) == '\u{14}');
        assert(c == '\u{14}');
        assert(hexd((c as u32) as int / 16) == '1' && hexd((c as u32) as int % 16) == '4');
        assert(is_hexd('1') && is_hexd('4'));
        assert((((hexv('1') * 16 + hexv('4'))) as u32) as char == c);
    }
    if v == 0x15 {
        vstd::utf8::char_u32_cast(c, v);
        assert((0x15u32 as char) == '\u{15}');
        assert(c == '\u{15}');
        assert(hexd((c as u32) as int / 16) == '1' && hexd((c as u32) as int % 16) == '5');
        assert(is_hexd('1') && is_hexd('5'));
        assert((((hexv('1') * 16 + hexv('5'))) as u32) as char == c);
    }
    if v == 0x16 {
        vstd::utf8::char_u32_cast(c, v);
        assert((0x16u32 as char) == '\u{16}');
        assert(c == '\u{16}');
        assert(hexd((c as u32) as int / 16) == '1' && hexd((c as u32) as int % 16) == '6');
        assert(is_hexd('1') && is_hexd('6'));
        assert((((hexv('1') * 16 + hexv('6'))) as u32) as char == c);
    }
    if v == 0x17 {
        vstd::utf8::char_u32_cast(c, v);
        assert((0x17u32 as char) == '\u{17}');
        assert(c == '\u{17}');
        assert(hexd((c as u32) as int / 16) == '1' && hexd((c as u32) as int % 16) == '7');
        assert(is_hexd('1') && is_hexd('7'));
        assert((((hexv('1') * 16 + hexv('7'))) as u32) as char == c);
    }
    if v == 0x18 {
        vstd::utf8::char_u32_cast(c, v);
        assert((0x18u32 as char) == '\u{18}');
        assert(c == '\u{18}');
        assert(hexd((c as u32) as int / 16) == '1' && hexd((c as u32) as int % 16) == '8');
        assert(is_hexd('1') && is_hexd('8'));
        assert((((hexv('1') * 16 + hexv('8'))) as u32) as char == c);
    }
    if v == 0x19 {
        vstd::utf8::char_u32_cast(c, v);
        assert((0x19u32 as char) == '\u{19}');
        assert(c == '\u{19}');
        assert(hexd((c as u32) as int / 16) == '1' && hexd((c as u32) as int % 16) == '9');
        assert(is_hexd('1') && is_hexd('9'));
        assert((((hexv('1') * 16 + hexv('9'))) as u32) as char == c);
    }
    if v == 0x1a {
        vstd::utf8::char_u32_cast(c, v);
        assert((0x1au32 as char) == '\u{1a}');
        assert(c == '\u{1a}');
        assert(hexd((c as u32) as int / 16) == '1' && hexd((c as u32) as int % 16) == 'a');
        assert(is_hexd('1') && is_hexd('a'));
        assert((((hexv('1') * 16 + hexv('a'))) as u32) as char == c);
    }
    if v == 0x1b {
        vstd::utf8::char_u32_cast(c, v);
        assert((0x1bu32 as char) == '\u{1b}');
        assert(c == '\u{1b}');
        assert(hexd((c as u32) as int / 16) == '1' && hexd((c as u32) as int % 16) == 'b');
        assert(is_hexd('1') && is_hexd('b'));
        assert((((hexv('1') * 16 + hexv('b'))) as u32) as char == c);
    }
    if v == 0x1c {
        vstd::utf8::char_u32_cast(c, v);
        assert((0x1cu32 as char) == '\u{1c}');
        assert(c == '\u{1c}');
        assert(hexd((c as u32) as int / 16) == '1' && hexd((c as u32) as int % 16) == 'c');
        assert(is_hexd('1') && is_hexd('c'));
        assert((((hexv('1') * 16 + hexv('c'))) as u32) as char == c);
    }
    if v == 0x1d {
        vstd::utf8::char_u32_cast(c, v);
        assert((0x1du32 as char) == '\u{1d}');
        assert(c == '\u{1d}');
        assert(hexd((c as u32) as int / 16) == '1' && hexd((c as u32) as int % 16) == 'd');
        assert(is_hexd('1') && is_hexd('d'));
        assert((((hexv('1') * 16 + hexv('d'))) as u32) as char == c);
    }
    if v == 0x1e {
        vstd::utf8::char_u32_cast(c, v);
        assert((0x1eu32 as char) == '\u{1e}');
        assert(c == '\u{1e}');
        assert(hexd((c as u32) as int / 16) == '1' && hexd((c as u32) as int % 16) == 'e');
        assert(is_hexd('1') && is_hexd('e'));
        assert((((hexv('1') * 16 + hexv('e'))) as u32) as char == c);
    }
    if v == 0x1f {
        vstd::utf8::char_u32_cast(c, v);
        assert((0x1fu32 as char) == '\u{1f}');
        assert(c == '\u{1f}');
        assert(hexd((c as u32) as int / 16) == '1' && hexd((c as u32) as int % 16) == 'f');
        assert(is_hexd('1') && is_hexd('f'));
        assert((((hexv('1') * 16 + hexv('f'))) as u32) as char == c);
    }
}

/// An escaped text followed by a closing quote reads back as the text.
proof fn lemma_parse_esc(x: Seq<char>, rest: Seq<char>)
    ensures
        p_str_body(esc(x) + seq!['"'] + rest) == Some((x, rest)),
    decreases x.len(),
{
    let s = esc(x) + seq!['"'] + rest;
    if x.len() == 0 {
        assert(esc(x) =~= Seq::<char>::empty());
        assert(s[0] == '"');
        assert(s.drop_first() =~= rest);
    } else {
        let c = x[0];
        let tail = esc(x.drop_first()) + seq!['"'] + rest;
        assert(esc(x) == esc_char(c) + esc(x.drop_first()));
        assert(s =~= esc_char(c) + tail);
        lemma_parse_esc(x.drop_first(), rest);
        if c == '"' || c == '\\' || c == '\n' || c == '\r' || c == '\t' {
            assert(s[0] == '\\');
            assert(s.skip(2) =~= tail);
            assert(seq![c] + x.drop_first() =~= x);
        } else if (c as u32) < 0x20 {
            assert(s[0] == '\\' && s[1] == 'u' && s[2] == '0' && s[3] == '0');
            lemma_control_roundtrip(c);
            assert(is_hexd(s[4]) && is_hexd(s[5]));
            assert(((hexv(s[4]) * 16 + hexv(s[5])) as u32) as char == c);
            assert(s.skip(6) =~= tail);
            assert(seq![c] + x.drop_first() =~= x);
        } else {
            assert(esc_char(c) =~= seq![c]);
            assert(s[0] == c);
            assert(s[0] != '"' && s[0] != '\\');
            assert(s.drop_first() =~= tail);
            assert(seq![c] + x.drop_first() =~= x);
        }
    }
}

/// A string value reads back as its text.
proof fn lemma_parse_string(x: Seq<char>, rest: Seq<char>)
    ensures
        p_string(enc_str(x) + rest) == Some((x, rest)),
{
    let s = enc_str(x) + rest;
    assert(s[0] == '"');
    assert(s.drop_first() =~= esc(x) + seq!['"'] + rest);
    lemma_parse_esc(x, rest);
}

/// The items of a string array read back as the list.
proof fn lemma_parse_args_items(l: Seq<Seq<char>>, rest: Seq<char>)
    requires
        l.len() >= 1,
    ensures
        p_args_items(enc_args_items(l) + seq![']'] + rest) == Some((l, rest)),
    decreases l.len(),
{
    let s = enc_args_items(l) + seq![']'] + rest;
    if l.len() == 1 {
        assert(s =~= enc_str(l[0]) + (seq![']'] + rest));
        lemma_parse_string(l[0], seq![']'] + rest);
        let rem = seq![']'] + rest;
        assert(rem[0] == ']');
        assert(rem.drop_first() =~= rest);
        assert(seq![l[0]] =~= l);
    } else {
        let t = enc_args_items(l.drop_first()) + seq![']'] + rest;
        assert(s =~= enc_str(l[0]) + (seq![','] + t));
        lemma_parse_string(l[0], seq![','] + t);
        let rem = seq![','] + t;
        assert(rem[0] == ',');
        assert(rem.drop_first() =~= t);
        lemma_parse_args_items(l.drop_first(), rest);
        assert(seq![l[0]] + l.drop_first() =~= l);
    }
}

/// A string array reads back as the list.
proof fn lemma_parse_args(l: Seq<Seq<char>>, rest: Seq<char>)
    ensures
        p_args(enc_args(l) + rest) == Some((l, rest)),
{
    let s = enc_args(l) + rest;
    assert(s[0] == '[');
    if l.len() == 0 {
        assert(enc_args_items(l) =~= Seq::<char>::empty());
        assert(s[1] == ']');
        assert(s.skip(2) =~= rest);
        assert(p_args(s) == Some((Seq::<Seq<char>>::empty(), rest)));
        assert(l =~= Seq::<Seq<char>>::empty());
    } else {
        assert(enc_args_items(l)[0] == '"') by {
            if l.len() == 1 {
                assert(enc_args_items(l) == enc_str(l[0]));
            } else {
                assert(enc_args_items(l) == enc_str(l[0]) + seq![','] + enc_args_items(
                    l.drop_first(),
                ));
            }
            assert(enc_str(l[0])[0] == '"');
        }
        assert(s[1] == '"');
        assert(s.drop_first() =~= enc_args_items(l) + seq![']'] + rest);
        lemma_parse_args_items(l, rest);
    }
}

/// One record reads back as itself.
#[verifier::rlimit(60)]
proof fn lemma_parse_record(c: CompileCommandV, rest: Seq<char>)
    ensures
        p_record(enc_record(c) + rest) == Some((c, rest)),
{
    let s = enc_record(c) + rest;
    let t0 = enc_str(c.file) + key_directory() + enc_str(c.directory) + key_arguments()
        + enc_args(c.arguments) + seq!['}'] + rest;
    assert(s =~= key_file() + t0);
    assert(s.take(key_file().len() as int) =~= key_file());
    assert(s.skip(key_file().len() as int) =~= t0);
    let r1 = key_directory() + enc_str(c.directory) + key_arguments() + enc_args(c.arguments)
        + seq!['}'] + rest;
    assert(t0 =~= enc_str(c.file) + r1);
    lemma_parse_string(c.file, r1);
    assert(r1.take(key_directory().len() as int) =~= key_directory());
    let t1 = enc_str(c.directory) + key_arguments() + enc_args(c.arguments) + seq!['}'] + rest;
    assert(r1.skip(key_directory().len() as int) =~= t1);
    let r2 = key_arguments() + enc_args(c.arguments) + seq!['}'] + rest;
    assert(t1 =~= enc_str(c.directory) + r2);
    lemma_parse_string(c.directory, r2);
    assert(r2.take(key_arguments().len() as int) =~= key_arguments());
    let t2 = enc_args(c.arguments) + seq!['}'] + rest;
    assert(r2.skip(key_arguments().len() as int) =~= t2);
    let r3 = seq!['}'] + rest;
    assert(t2 =~= enc_args(c.arguments) + r3);
    lemma_parse_args(c.arguments, r3);
    assert(r3[0] == '}');
    assert(r3.drop_first() =~= rest);
}

/// The items of the record array read back as the list.
#[verifier::rlimit(60)]
proof fn lemma_parse_db_items(l: Seq<CompileCommandV>, rest: Seq<char>)
    requires
        l.len() >= 1,
    ensures
        p_db_items(enc_db_items(l) + seq![']'] + rest) == Some((l, rest)),
    decreases l.len(),
{
    let s = enc_db_items(l) + seq![']'] + rest;
    if l.len() == 1 {
        assert(s =~= enc_record(l[0]) + (seq![']'] + rest));
        lemma_parse_record(l[0], seq![']'] + rest);
        let rem = seq![']'] + rest;
        assert(rem[0] == ']');
        assert(rem.drop_first() =~= rest);
        assert(seq![l[0]] =~= l);
    } else {
        let t = enc_db_items(l.drop_first()) + seq![']'] + rest;
        assert(s =~= enc_record(l[0]) + (seq![','] + t));
        lemma_parse_record(l[0], seq![','] + t);
        let rem = seq![','] + t;
        assert(rem[0] == ',');
        assert(rem.drop_first() =~= t);
        lemma_parse_db_items(l.drop_first(), rest);
        assert(seq![l[0]] + l.drop_first() =~= l);
    }
}

/// Law: reading a written database back yields the same record list,
/// argument order and content included, for every record list.
pub proof fn lemma_serialize_round_trip(l: Seq<CompileCommandV>)
    ensures
        spec_parse(spec_serialize(l)) == Some(l),
{
    let s = spec_serialize(l);
    assert(s[0] == '[');
    if l.len() == 0 {
        assert(enc_db_items(l) =~= Seq::<char>::empty());
        assert(s.len() == 2 && s[1] == ']');
        assert(l =~= Seq::<CompileCommandV>::empty());
    } else {
        assert(enc_db_items(l)[0] == '{') by {
            if l.len() == 1 {
                assert(enc_db_items(l) == enc_record(l[0]));
            } else {
                assert(enc_db_items(l) == enc_record(l[0]) + seq![','] + enc_db_items(
                    l.drop_first(),
                ));
            }
            assert(enc_record(l[0])[0] == key_file()[0]);
            assert(key_file()[0] == '{');
        }
        assert(s[1] == '{');
        assert(!(s.len() >= 2 && s[0] == '[' && s[1] == ']' && s.len() == 2));
        assert(s.drop_first() =~= enc_db_items(l) + seq![']'] + Seq::<char>::empty());
        lemma_parse_db_items(l, Seq::empty());
    }
}

/// Escaping distributes over concatenation.
proof fn lemma_esc_app(a: Seq<char>, b: Seq<char>)
    ensures
        esc(a + b) == esc(a) + esc(b),
    decreases a.len(),
{
    if a.len() == 0 {
        assert(a + b =~= b);
        assert(esc(a) + esc(b) =~= esc(b));
    } else {
        assert((a + b).drop_first() =~= a.drop_first() + b);
        lemma_esc_app(a.drop_first(), b);
        assert(esc(a + b) =~= esc(a) + esc(b));
    }
}

/// One more string in an array appends a comma and the string.
proof fn lemma_enc_args_items_snoc(l: Seq<Seq<char>>, x: Seq<char>)
    ensures
        enc_args_items(l.push(x)) == if l.len() == 0 {
            enc_str(x)
        } else {
            enc_args_items(l) + seq![','] + enc_str(x)
        },
    decreases l.len(),
{
    let lp = l.push(x);
    if l.len() == 0 {
        assert(lp.len() == 1);
        assert(lp[0] == x);
    } else {
        assert(lp.drop_first() =~= l.drop_first().push(x));
        lemma_enc_args_items_snoc(l.drop_first(), x);
        if l.len() == 1 {
            assert(enc_args_items(lp) =~= enc_args_items(l) + seq![','] + enc_str(x));
        } else {
            assert(enc_args_items(lp) =~= enc_args_items(l) + seq![','] + enc_str(x));
        }
    }
}

/// One more record in the array appends a comma and the record.
proof fn lemma_enc_db_items_snoc(l: Seq<CompileCommandV>, x: CompileCommandV)
    ensures
        enc_db_items(l.push(x)) == if l.len() == 0 {
            enc_record(x)
        } else {
            enc_db_items(l) + seq![','] + enc_record(x)
        },
    decreases l.len(),
{
    let lp = l.push(x);
    if l.len() == 0 {
        assert(lp.len() == 1);
        assert(lp[0] == x);
    } else {
        assert(lp.drop_first() =~= l.drop_first().push(x));
        lemma_enc_db_items_snoc(l.drop_first(), x);
        if l.len() == 1 {
            assert(enc_db_items(lp) =~= enc_db_items(l) + seq![','] + enc_record(x));
        } else {
            assert(enc_db_items(lp) =~= enc_db_items(l) + seq![','] + enc_record(x));
        }
    }
}

/// The hexadecimal digit of a value below sixteen.
fn hexd_exec(n: u32) -> (c: char)
    requires
        n < 16,
    ensures
        c == hexd(n as int),
{
    match n {
        0 => '0',
        1 => '1',
        2 => '2',
        3 => '3',
        4 => '4',
        5 => '5',
        6 => '6',
        7 => '7',
        8 => '8',
        9 => '9',
        10 => 'a',
        11 => 'b',
        12 => 'c',
        13 => 'd',
        14 => 'e',
        _ => 'f',
    }
}

/// Whether `c` is a lower-case hexadecimal digit.
fn is_hexd_exec(c: char) -> (r: bool)
    ensures
        r == is_hexd(c),
{
    ('0' <= c && c <= '9') || ('a' <= c && c <= 'f')
}

/// The value of a lower-case hexadecimal digit.
fn hexv_exec(c: char) -> (n: u32)
    requires
        is_hexd(c),
    ensures
        n as int == hexv(c),
        n < 16,
{
    match c {
        '0' => 0,
        '1' => 1,
        '2' => 2,
        '3' => 3,
        '4' => 4,
        '5' => 5,
        '6' => 6,
        '7' => 7,
        '8' => 8,
        '9' => 9,
        'a' => 10,
        'b' => 11,
        'c' => 12,
        'd' => 13,
        'e' => 14,
        _ => 15,
    }
}

/// Relies on `char::from_u32`: a value below the surrogate range converts
/// to exactly the character with that scalar value.
#[verifier::external_body]
fn char_from_u32(code: u32) -> (c: char)
    requires
        code < 0xD800,
    ensures
        c == code as char,
{
    char::from_u32(code).unwrap()
}

/// Appends the escape of one character.
fn push_esc_char(out: &mut Vec<char>, c: char)
    ensures
        final(out)@ == old(out)@ + esc_char(c),
{
    if c == '"' {
        out.push('\\');
        out.push('"');
        proof {
            assert(out@ =~= old(out)@ + esc_char(c));
        }
    } else if c == '\\' {
        out.push('\\');
        out.push('\\');
        proof {
            assert(out@ =~= old(out)@ + esc_char(c));
        }
    } else if c == '\n' {
        out.push('\\');
        out.push('n');
        proof {
            assert(out@ =~= old(out)@ + esc_char(c));
        }
    } else if c == '\r' {
        out.push('\\');
        out.push('r');
        proof {
            assert(out@ =~= old(out)@ + esc_char(c));
        }
    } else if c == '\t' {
        out.push('\\');
        out.push('t');
        proof {
            assert(out@ =~= old(out)@ + esc_char(c));
        }
    } else {
        let u = c as u32;
        if u < 0x20 {
            out.push('\\');
            out.push('u');
            out.push('0');
            out.push('0');
            out.push(hexd_exec(u / 16));
            out.push(hexd_exec(u % 16));
            proof {
                assert(out@ =~= old(out)@ + esc_char(c));
            }
        } else {
            out.push(c);
            proof {
                assert(esc_char(c) =~= seq![c]);
                assert(out@ =~= old(out)@ + esc_char(c));
            }
        }
    }
}

/// Appends a string value.
fn push_enc_str(out: &mut Vec<char>, s: &String)
    ensures
        final(out)@ == old(out)@ + enc_str(s@),
{
    out.push('"');
    let sv = str_to_char_vec(s.as_str());
    let mut i: usize = 0;
    while i < sv.len()
        invariant
            i <= sv.len(),
            sv@ == s@,
            out@ == old(out)@ + seq!['"'] + esc(s@.take(i as int)),
        decreases sv.len() - i,
    {
        push_esc_char(out, sv[i]);
        i = i + 1;
        proof {
            assert(s@.take(i as int) =~= s@.take(i as int - 1) + seq![s@[i as int - 1]]);
            lemma_esc_app(s@.take(i as int - 1), seq![s@[i as int - 1]]);
            assert(seq![s@[i as int - 1]].drop_first() =~= Seq::<char>::empty());
            assert(seq![s@[i as int - 1]][0] == s@[i as int - 1]);
            assert(esc(Seq::<char>::empty()) =~= Seq::<char>::empty());
            assert(esc(seq![s@[i as int - 1]]) =~= esc_char(s@[i as int - 1]));
            assert(out@ =~= old(out)@ + seq!['"'] + esc(s@.take(i as int)));
        }
    }
    out.push('"');
    proof {
        assert(s@.take(sv.len() as int) =~= s@);
        assert(out@ =~= old(out)@ + enc_str(s@));
    }
}

/// Appends a string array.
fn push_enc_args(out: &mut Vec<char>, args: &Vec<String>)
    ensures
        final(out)@ == old(out)@ + enc_args(args.deep_view()),
{
    let ghost av = args.deep_view();
    out.push('[');
    let mut i: usize = 0;
    while i < args.len()
        invariant
            i <= args.len(),
            av == args.deep_view(),
            av.len() == args@.len(),
            out@ == old(out)@ + seq!['['] + enc_args_items(av.take(i as int)),
        decreases args.len() - i,
    {
        if i > 0 {
            out.push(',');
        }
        proof {
            assert(av[i as int] == args@[i as int]@);
        }
        push_enc_str(out, &args[i]);
        i = i + 1;
        proof {
            assert(av.take(i as int) =~= av.take(i as int - 1).push(av[i as int - 1]));
            lemma_enc_args_items_snoc(av.take(i as int - 1), av[i as int - 1]);
            assert(out@ =~= old(out)@ + seq!['['] + enc_args_items(av.take(i as int)));
        }
    }
    out.push(']');
    proof {
        assert(av.take(args@.len() as int) =~= av);
        assert(out@ =~= old(out)@ + enc_args(av));
    }
}

/// Appends one record.
fn push_enc_record(out: &mut Vec<char>, c: &CompileCommand)
    ensures
        final(out)@ == old(out)@ + enc_record(c.deep_view()),
{
    let kf = vec!['{', '"', 'f', 'i', 'l', 'e', '"', ':'];
    let kd = vec![',', '"', 'd', 'i', 'r', 'e', 'c', 't', 'o', 'r', 'y', '"', ':'];
    let ka = vec![',', '"', 'a', 'r', 'g', 'u', 'm', 'e', 'n', 't', 's', '"', ':'];
    proof {
        assert(kf@ =~= key_file());
        assert(kd@ =~= key_directory());
        assert(ka@ =~= key_arguments());
    }
    let mut kf2 = kf;
    out.append(&mut kf2);
    push_enc_str(out, &c.file);
    let mut kd2 = kd;
    out.append(&mut kd2);
    push_enc_str(out, &c.directory);
    let mut ka2 = ka;
    out.append(&mut ka2);
    push_enc_args(out, &c.arguments);
    out.push('}');
    proof {
        assert(out@ =~= old(out)@ + enc_record(c.deep_view()));
    }
}

/// Writes a record list in the compilation-database format.
pub fn serialize(commands: &Vec<CompileCommand>) -> (r: String)
    ensures
        r@ == spec_serialize(commands.deep_view()),
{
    let ghost cv = commands.deep_view();
    let mut out: Vec<char> = Vec::new();
    out.push('[');
    let mut i: usize = 0;
    while i < commands.len()
        invariant
            i <= commands.len(),
            cv == commands.deep_view(),
            cv.len() == commands@.len(),
            out@ == seq!['['] + enc_db_items(cv.take(i as int)),
        decreases commands.len() - i,
    {
        if i > 0 {
            out.push(',');
        }
        proof {
            assert(cv[i as int] == commands@[i as int].deep_view());
        }
        push_enc_record(&mut out, &commands[i]);
        i = i + 1;
        proof {
            assert(cv.take(i as int) =~= cv.take(i as int - 1).push(cv[i as int - 1]));
            lemma_enc_db_items_snoc(cv.take(i as int - 1), cv[i as int - 1]);
            assert(out@ =~= seq!['['] + enc_db_items(cv.take(i as int)));
        }
    }
    out.push(']');
    proof {
        assert(cv.take(commands@.len() as int) =~= cv);
        assert(out@ =~= spec_serialize(cv));
    }
    chars_to_string(&out)
}

/// Reads a string body from position `i`.
fn d_str_body(cs: &Vec<char>, i: usize) -> (r: Option<(Vec<char>, usize)>)
    requires
        i <= cs.len(),
    ensures
        match r {
            None => p_str_body(cs@.skip(i as int)) is None,
            Some(p) => p.1 <= cs.len() && p_str_body(cs@.skip(i as int)) == Some(
                (p.0@, cs@.skip(p.1 as int)),
            ),
        },
    decreases cs.len() - i,
{
    let ghost s = cs@.skip(i as int);
    if i == cs.len() {
        proof {
            assert(s.len() == 0);
        }
        return None;
    }
    let c0 = cs[i];
    proof {
        assert(s[0] == c0);
    }
    if c0 == '"' {
        proof {
            assert(s.drop_first() =~= cs@.skip(i as int + 1));
        }
        let empty_out: Vec<char> = Vec::new();
        proof {
            assert(empty_out@ =~= Seq::<char>::empty());
        }
        return Some((empty_out, i + 1));
    }
    if c0 == '\\' {
        if i + 1 == cs.len() {
            proof {
                assert(s.len() < 2);
            }
            return None;
        }
        let c1 = cs[i + 1];
        proof {
            assert(s[1] == c1);
        }
        if c1 == '"' || c1 == '\\' || c1 == 'n' || c1 == 'r' || c1 == 't' {
            let dec: char = if c1 == '"' {
                '"'
            } else if c1 == '\\' {
                '\\'
            } else if c1 == 'n' {
                '\n'
            } else if c1 == 'r' {
                '\r'
            } else {
                '\t'
            };
            proof {
                assert(s.skip(2) =~= cs@.skip(i as int + 2));
            }
            let rec = d_str_body(cs, i + 2);
            match rec {
                None => {
                    return None;
                },
                Some(p) => {
                    let mut out: Vec<char> = Vec::new();
                    out.push(dec);
                    let mut tail_part = p.0;
                    out.append(&mut tail_part);
                    proof {
                        assert(out@ =~= seq![dec] + p.0@);
                    }
                    return Some((out, p.1));
                },
            }
        } else if c1 == 'u' {
            if cs.len() - i < 6 {
                proof {
                    assert(s.len() < 6);
                }
                return None;
            }
            proof {
                assert(s[2] == cs@[i as int + 2]);
                assert(s[3] == cs@[i as int + 3]);
                assert(s[4] == cs@[i as int + 4]);
                assert(s[5] == cs@[i as int + 5]);
            }
            if cs[i + 2] != '0' || cs[i + 3] != '0' {
                return None;
            }
            if !is_hexd_exec(cs[i + 4]) || !is_hexd_exec(cs[i + 5]) {
                return None;
            }
            let code = hexv_exec(cs[i + 4]) * 16 + hexv_exec(cs[i + 5]);
            let dec = char_from_u32(code);
            proof {
                assert(dec == ((hexv(s[4]) * 16 + hexv(s[5])) as u32) as char);
                assert(s.skip(6) =~= cs@.skip(i as int + 6));
            }
            let rec = d_str_body(cs, i + 6);
            match rec {
                None => {
                    return None;
                },
                Some(p) => {
                    let mut out: Vec<char> = Vec::new();
                    out.push(dec);
                    let mut tail_part = p.0;
                    out.append(&mut tail_part);
                    proof {
                        assert(out@ =~= seq![dec] + p.0@);
                    }
                    return Some((out, p.1));
                },
            }
        } else {
            return None;
        }
    }
    proof {
        assert(s.drop_first() =~= cs@.skip(i as int + 1));
    }
    let rec = d_str_body(cs, i + 1);
    match rec {
        None => None,
        Some(p) => {
            let mut out: Vec<char> = Vec::new();
            out.push(c0);
            let mut tail_part = p.0;
            out.append(&mut tail_part);
            proof {
                assert(out@ =~= seq![c0] + p.0@);
            }
            Some((out, p.1))
        },
    }
}

/// Reads a quoted string value from position `i`.
fn d_string(cs: &Vec<char>, i: usize) -> (r: Option<(Vec<char>, usize)>)
    requires
        i <= cs.len(),
    ensures
        match r {
            None => p_string(cs@.skip(i as int)) is None,
            Some(p) => i < p.1 <= cs.len() && p_string(cs@.skip(i as int)) == Some(
                (p.0@, cs@.skip(p.1 as int)),
            ),
        },
{
    let ghost s = cs@.skip(i as int);
    if i == cs.len() {
        proof {
            assert(s.len() == 0);
        }
        return None;
    }
    if cs[i] != '"' {
        proof {
            assert(s[0] == cs@[i as int]);
        }
        return None;
    }
    proof {
        assert(s[0] == '"');
        assert(s.drop_first() =~= cs@.skip(i as int + 1));
    }
    let rec = d_str_body(cs, i + 1);
    match rec {
        None => None,
        Some(p) => {
            proof {
                lemma_p_string_shrinks(s);
                assert(cs@.skip(p.1 as int).len() < s.len());
            }
            Some(p)
        },
    }
}

/// Reads the items of a non-empty string array from position `i`.
fn d_args_items(cs: &Vec<char>, i: usize) -> (r: Option<(Vec<String>, usize)>)
    requires
        i <= cs.len(),
    ensures
        match r {
            None => p_args_items(cs@.skip(i as int)) is None,
            Some(p) => i < p.1 <= cs.len() && p_args_items(cs@.skip(i as int)) == Some(
                (p.0.deep_view(), cs@.skip(p.1 as int)),
            ),
        },
    decreases cs.len() - i,
{
    let ghost s = cs@.skip(i as int);
    let first = d_string(cs, i);
    match first {
        None => None,
        Some(p) => {
            let j = p.1;
            let ghost rem = cs@.skip(j as int);
            if j == cs.len() {
                proof {
                    assert(rem.len() == 0);
                }
                return None;
            }
            proof {
                assert(rem[0] == cs@[j as int]);
            }
            if cs[j] == ',' {
                proof {
                    assert(rem.drop_first() =~= cs@.skip(j as int + 1));
                }
                let rec = d_args_items(cs, j + 1);
                match rec {
                    None => None,
                    Some(q) => {
                        let mut out: Vec<String> = Vec::new();
                        out.push(chars_to_string(&p.0));
                        let mut tail_part = q.0;
                        out.append(&mut tail_part);
                        proof {
                            assert(out.deep_view() =~= seq![p.0@] + q.0.deep_view());
                        }
                        Some((out, q.1))
                    },
                }
            } else if cs[j] == ']' {
                proof {
                    assert(rem.drop_first() =~= cs@.skip(j as int + 1));
                }
                let mut out: Vec<String> = Vec::new();
                out.push(chars_to_string(&p.0));
                proof {
                    assert(out.deep_view() =~= seq![p.0@]);
                }
                Some((out, j + 1))
            } else {
                None
            }
        },
    }
}

/// Reads a whole string array from position `i`.
fn d_args(cs: &Vec<char>, i: usize) -> (r: Option<(Vec<String>, usize)>)
    requires
        i <= cs.len(),
    ensures
        match r {
            None => p_args(cs@.skip(i as int)) is None,
            Some(p) => i < p.1 <= cs.len() && p_args(cs@.skip(i as int)) == Some(
                (p.0.deep_view(), cs@.skip(p.1 as int)),
            ),
        },
{
    let ghost s = cs@.skip(i as int);
    if i == cs.len() {
        proof {
            assert(s.len() == 0);
        }
        return None;
    }
    proof {
        assert(s[0] == cs@[i as int]);
    }
    if cs[i] != '[' {
        return None;
    }
    if i + 1 < cs.len() && cs[i + 1] == ']' {
        proof {
            assert(s[1] == cs@[i as int + 1]);
            assert(s.skip(2) =~= cs@.skip(i as int + 2));
        }
        let out: Vec<String> = Vec::new();
        proof {
            assert(out.deep_view() =~= Seq::<Seq<char>>::empty());
        }
        return Some((out, i + 2));
    }
    proof {
        if s.len() >= 2 {
            assert(s[1] == cs@[i as int + 1]);
        }
        assert(s.drop_first() =~= cs@.skip(i as int + 1));
    }
    d_args_items(cs, i + 1)
}

/// Checks that the text at position `i` is exactly `pat`.
fn match_at(cs: &Vec<char>, i: usize, pat: &Vec<char>) -> (r: bool)
    requires
        i <= cs.len(),
    ensures
        r == (i + pat@.len() <= cs.len() && cs@.skip(i as int).take(pat@.len() as int) == pat@),
{
    if pat.len() > cs.len() - i {
        return false;
    }
    let mut k: usize = 0;
    while k < pat.len()
        invariant
            i + pat.len() <= cs.len(),
            k <= pat.len(),
            forall|t: int| 0 <= t < k ==> cs@[i + t] == pat@[t],
        decreases pat.len() - k,
    {
        if cs[i + k] != pat[k] {
            proof {
                assert(cs@.skip(i as int).take(pat@.len() as int)[k as int] != pat@[k as int]);
            }
            return false;
        }
        k = k + 1;
    }
    proof {
        assert(cs@.skip(i as int).take(pat@.len() as int) =~= pat@);
    }
    true
}

/// Reads one record from position `i`.
fn d_record(cs: &Vec<char>, i: usize) -> (r: Option<(CompileCommand, usize)>)
    requires
        i <= cs.len(),
    ensures
        match r {
            None => p_record(cs@.skip(i as int)) is None,
            Some(p) => i < p.1 <= cs.len() && p_record(cs@.skip(i as int)) == Some(
                (p.0.deep_view(), cs@.skip(p.1 as int)),
            ),
        },
{
    let ghost s = cs@.skip(i as int);
    let kf = vec!['{', '"', 'f', 'i', 'l', 'e', '"', ':'];
    let kd = vec![',', '"', 'd', 'i', 'r', 'e', 'c', 't', 'o', 'r', 'y', '"', ':'];
    let ka = vec![',', '"', 'a', 'r', 'g', 'u', 'm', 'e', 'n', 't', 's', '"', ':'];
    proof {
        assert(kf@ =~= key_file());
        assert(kd@ =~= key_directory());
        assert(ka@ =~= key_arguments());
    }
    if !match_at(cs, i, &kf) {
        return None;
    }
    proof {
        assert(s.take(key_file().len() as int) =~= cs@.skip(i as int).take(8));
        assert(s.skip(key_file().len() as int) =~= cs@.skip(i as int + 8));
    }
    let file_part = d_string(cs, i + 8);
    let (file_chars, j1) = match file_part {
        None => {
            return None;
        },
        Some(p) => p,
    };
    let ghost s1 = cs@.skip(j1 as int);
    if !match_at(cs, j1, &kd) {
        proof {
            if s1.len() >= key_directory().len() {
                assert(s1.take(key_directory().len() as int) =~= cs@.skip(j1 as int).take(13));
            }
        }
        return None;
    }
    proof {
        assert(s1.take(key_directory().len() as int) =~= cs@.skip(j1 as int).take(13));
        assert(s1.skip(key_directory().len() as int) =~= cs@.skip(j1 as int + 13));
    }
    let dir_part = d_string(cs, j1 + 13);
    let (dir_chars, j2) = match dir_part {
        None => {
            return None;
        },
        Some(p) => p,
    };
    let ghost s2 = cs@.skip(j2 as int);
    if !match_at(cs, j2, &ka) {
        proof {
            if s2.len() >= key_arguments().len() {
                assert(s2.take(key_arguments().len() as int) =~= cs@.skip(j2 as int).take(13));
            }
        }
        return None;
    }
    proof {
        assert(s2.take(key_arguments().len() as int) =~= cs@.skip(j2 as int).take(13));
        assert(s2.skip(key_arguments().len() as int) =~= cs@.skip(j2 as int + 13));
    }
    let args_part = d_args(cs, j2 + 13);
    let (args, j3) = match args_part {
        None => {
            return None;
        },
        Some(p) => p,
    };
    let ghost s3 = cs@.skip(j3 as int);
    if j3 == cs.len() {
        proof {
            assert(s3.len() == 0);
        }
        return None;
    }
    proof {
        assert(s3[0] == cs@[j3 as int]);
    }
    if cs[j3] != '}' {
        return None;
    }
    proof {
        assert(s3.drop_first() =~= cs@.skip(j3 as int + 1));
    }
    let record = CompileCommand {
        file: chars_to_string(&file_chars),
        directory: chars_to_string(&dir_chars),
        arguments: args,
    };
    Some((record, j3 + 1))
}

/// Reads the items of a non-empty record array from position `i`.
fn d_db_items(cs: &Vec<char>, i: usize) -> (r: Option<(Vec<CompileCommand>, usize)>)
    requires
        i <= cs.len(),
    ensures
        match r {
            None => p_db_items(cs@.skip(i as int)) is None,
            Some(p) => i < p.1 <= cs.len() && p_db_items(cs@.skip(i as int)) == Some(
                (p.0.deep_view(), cs@.skip(p.1 as int)),
            ),
        },
    decreases cs.len() - i,
{
    let ghost s = cs@.skip(i as int);
    let first = d_record(cs, i);
    match first {
        None => None,
        Some(p) => {
            let (record, j) = p;
            let ghost rem = cs@.skip(j as int);
            if j == cs.len() {
                proof {
                    assert(rem.len() == 0);
                }
                return None;
            }
            proof {
                assert(rem[0] == cs@[j as int]);
            }
            if cs[j] == ',' {
                proof {
                    assert(rem.drop_first() =~= cs@.skip(j as int + 1));
                }
                let rec = d_db_items(cs, j + 1);
                match rec {
                    None => None,
                    Some(q) => {
                        let ghost rv = record.deep_view();
                        let mut out: Vec<CompileCommand> = Vec::new();
                        out.push(record);
                        let mut tail_part = q.0;
                        out.append(&mut tail_part);
                        proof {
                            assert(out.deep_view() =~= seq![rv] + q.0.deep_view());
                        }
                        Some((out, q.1))
                    },
                }
            } else if cs[j] == ']' {
                proof {
                    assert(rem.drop_first() =~= cs@.skip(j as int + 1));
                }
                let ghost rv = record.deep_view();
                let mut out: Vec<CompileCommand> = Vec::new();
                out.push(record);
                proof {
                    assert(out.deep_view() =~= seq![rv]);
                }
                Some((out, j + 1))
            } else {
                None
            }
        },
    }
}

/// Reads a whole database text back into records; nothing unless the text
/// is exactly the canonical written form.
pub fn deserialize(text: &str) -> (r: Option<Vec<CompileCommand>>)
    ensures
        match r {
            Some(l) => spec_parse(text@) == Some(l.deep_view()),
            None => spec_parse(text@) is None,
        },
{
    let cs = str_to_char_vec(text);
    if cs.len() == 2 && cs[0] == '[' && cs[1] == ']' {
        let out: Vec<CompileCommand> = Vec::new();
        proof {
            assert(out.deep_view() =~= Seq::<CompileCommandV>::empty());
        }
        return Some(out);
    }
    if cs.len() == 0 || cs[0] != '[' {
        return None;
    }
    proof {
        assert(cs@.drop_first() =~= cs@.skip(1));
        if cs@.len() >= 2 {
            assert(cs@[1] == cs@[1]);
        }
    }
    let items = d_db_items(&cs, 1);
    match items {
        None => None,
        Some(p) => {
            if p.1 == cs.len() {
                proof {
                    assert(cs@.skip(p.1 as int).len() == 0);
                }
                Some(p.0)
            } else {
                proof {
                    assert(cs@.skip(p.1 as int).len() > 0);
                }
                None
            }
        },
    }
}

} // verus!
