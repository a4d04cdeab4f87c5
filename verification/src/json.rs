//! The persistence text format: a JSON document holding the ordered
//! sequence of word records.
//!
//! The document is an array of objects, each with the fields `native`
//! (string), `english` (string), `categories` (array of strings) and
//! `examples` (array of strings), in that order. The writer emits a
//! compact document; the reader additionally allows whitespace between
//! tokens. Reading anything the writer produces gives back exactly the
//! records that were written.

use vstd::prelude::*;
use crate::dictionary::Word;
use crate::dictionary::WordModel;

verus! {

// ---------------------------------------------------------------------
// Writing (specification)
// ---------------------------------------------------------------------

/// How one character of a string is written: the escapes for the quote,
/// the backslash and the common control characters; everything else as
/// itself.
pub open spec fn esc_char(c: char) -> Seq<char> {
    if c == '"' {
        seq!['\\', '"']
    } else if c == '\\' {
        seq!['\\', '\\']
    } else if c == '\n' {
        seq!['\\', 'n']
    } else if c == '\t' {
        seq!['\\', 't']
    } else if c == '\r' {
        seq!['\\', 'r']
    } else {
        seq![c]
    }
}

/// The body of a written string: each character escaped.
pub open spec fn esc(s: Seq<char>) -> Seq<char>
    decreases s.len(),
{
    if s.len() == 0 {
        Seq::empty()
    } else {
        esc_char(s[0]) + esc(s.skip(1))
    }
}

/// A written string: the escaped body between quotes.
pub open spec fn ser_string(s: Seq<char>) -> Seq<char> {
    seq!['"'] + esc(s) + seq!['"']
}

/// The items of a string array after the first, each preceded by a comma.
pub open spec fn ser_string_tail(a: Seq<Seq<char>>) -> Seq<char>
    decreases a.len(),
{
    if a.len() == 0 {
        Seq::empty()
    } else {
        seq![','] + ser_string(a[0]) + ser_string_tail(a.skip(1))
    }
}

/// A written array of strings.
pub open spec fn ser_string_array(a: Seq<Seq<char>>) -> Seq<char> {
    if a.len() == 0 {
        seq!['[', ']']
    } else {
        seq!['['] + ser_string(a[0]) + ser_string_tail(a.skip(1)) + seq![']']
    }
}

pub open spec fn key_native() -> Seq<char> {
    seq!['"', 'n', 'a', 't', 'i', 'v', 'e', '"']
}

pub open spec fn key_english() -> Seq<char> {
    seq!['"', 'e', 'n', 'g', 'l', 'i', 's', 'h', '"']
}

pub open spec fn key_categories() -> Seq<char> {
    seq!['"', 'c', 'a', 't', 'e', 'g', 'o', 'r', 'i', 'e', 's', '"']
}

pub open spec fn key_examples() -> Seq<char> {
    seq!['"', 'e', 'x', 'a', 'm', 'p', 'l', 'e', 's', '"']
}

/// A written record: an object with the four fields in order.
pub open spec fn ser_word(w: WordModel) -> Seq<char> {
    seq!['{'] + key_native() + seq![':'] + ser_string(w.native) + seq![','] + key_english()
        + seq![':'] + ser_string(w.english) + seq![','] + key_categories() + seq![':']
        + ser_string_array(w.categories) + seq![','] + key_examples() + seq![':']
        + ser_string_array(w.examples) + seq!['}']
}

/// The records of the document after the first, each preceded by a comma.
pub open spec fn ser_word_tail(ws: Seq<WordModel>) -> Seq<char>
    decreases ws.len(),
{
    if ws.len() == 0 {
        Seq::empty()
    } else {
        seq![','] + ser_word(ws[0]) + ser_word_tail(ws.skip(1))
    }
}

/// The whole written document: the array of all records.
pub open spec fn ser_words(ws: Seq<WordModel>) -> Seq<char> {
    if ws.len() == 0 {
        seq!['[', ']']
    } else {
        seq!['['] + ser_word(ws[0]) + ser_word_tail(ws.skip(1)) + seq![']']
    }
}

// ---------------------------------------------------------------------
// Reading (specification)
// ---------------------------------------------------------------------
//
// Each reader function takes the remaining input and, on success, yields
// the value read together with the input that follows it.

/// JSON whitespace.
pub open spec fn is_ws(c: char) -> bool {
    c == ' ' || c == '\n' || c == '\t' || c == '\r'
}

/// The input with its leading whitespace removed.
pub open spec fn skip_ws(s: Seq<char>) -> Seq<char>
    decreases s.len(),
{
    if s.len() > 0 && is_ws(s[0]) {
        skip_ws(s.skip(1))
    } else {
        s
    }
}

/// The character an escape sequence `\c` stands for, if `c` is a
/// recognised escape.
pub open spec fn unesc_char(c: char) -> Option<char> {
    if c == '"' {
        Some('"')
    } else if c == '\\' {
        Some('\\')
    } else if c == 'n' {
        Some('\n')
    } else if c == 't' {
        Some('\t')
    } else if c == 'r' {
        Some('\r')
    } else {
        None
    }
}

/// Reads the body of a string, after its opening quote, up to and
/// including its closing quote.
pub open spec fn p_str_chars(s: Seq<char>) -> Option<(Seq<char>, Seq<char>)>
    decreases s.len(),
{
    if s.len() == 0 {
        None
    } else if s[0] == '"' {
        Some((Seq::empty(), s.skip(1)))
    } else if s[0] == '\\' {
        if s.len() < 2 {
            None
        } else {
            match unesc_char(s[1]) {
                None => None,
                Some(c) => match p_str_chars(s.skip(2)) {
                    None => None,
                    Some((v, r)) => Some((seq![c] + v, r)),
                },
            }
        }
    } else {
        match p_str_chars(s.skip(1)) {
            None => None,
            Some((v, r)) => Some((seq![s[0]] + v, r)),
        }
    }
}

/// Reads a quoted string, allowing whitespace before it.
pub open spec fn p_string(s: Seq<char>) -> Option<(Seq<char>, Seq<char>)> {
    let t = skip_ws(s);
    if t.len() > 0 && t[0] == '"' {
        p_str_chars(t.skip(1))
    } else {
        None
    }
}

/// Reads the exact token `tok`, allowing whitespace before it.
pub open spec fn p_tok(s: Seq<char>, tok: Seq<char>) -> Option<Seq<char>> {
    let t = skip_ws(s);
    if tok.len() <= t.len() && t.take(tok.len() as int) == tok {
        Some(t.skip(tok.len() as int))
    } else {
        None
    }
}

// ---------------------------------------------------------------------
// Each reader consumes part of its input
// ---------------------------------------------------------------------

pub proof fn lemma_skip_ws_len(s: Seq<char>)
    ensures
        skip_ws(s).len() <= s.len(),
    decreases s.len(),
{
    if s.len() > 0 && is_ws(s[0]) {
        lemma_skip_ws_len(s.skip(1));
    }
}

pub proof fn lemma_p_tok_len(s: Seq<char>, tok: Seq<char>)
    ensures
        match p_tok(s, tok) {
            Some(r) => r.len() + tok.len() <= s.len(),
            None => true,
        },
{
    lemma_skip_ws_len(s);
}

pub proof fn lemma_p_str_chars_len(s: Seq<char>)
    ensures
        match p_str_chars(s) {
            Some((v, r)) => r.len() < s.len(),
            None => true,
        },
    decreases s.len(),
{
    if s.len() == 0 {
    } else if s[0] == '"' {
    } else if s[0] == '\\' {
        if s.len() >= 2 {
            lemma_p_str_chars_len(s.skip(2));
        }
    } else {
        lemma_p_str_chars_len(s.skip(1));
    }
}

pub proof fn lemma_p_string_len(s: Seq<char>)
    ensures
        match p_string(s) {
            Some((v, r)) => r.len() < s.len(),
            None => true,
        },
{
    lemma_skip_ws_len(s);
    let t = skip_ws(s);
    if t.len() > 0 && t[0] == '"' {
        lemma_p_str_chars_len(t.skip(1));
    }
}

// ---------------------------------------------------------------------
// Reading arrays and records (specification)
// ---------------------------------------------------------------------

/// After one item of a string array: reads either the closing bracket or
/// a comma followed by the next item and the rest of the array.
pub open spec fn p_string_tail(s: Seq<char>) -> Option<(Seq<Seq<char>>, Seq<char>)>
    decreases s.len(),
    via p_string_tail_dec
{
    let t = skip_ws(s);
    if t.len() == 0 {
        None
    } else if t[0] == ']' {
        Some((Seq::empty(), t.skip(1)))
    } else if t[0] == ',' {
        match p_string(t.skip(1)) {
            None => None,
            Some((v, r)) => match p_string_tail(r) {
                None => None,
                Some((vs, r2)) => Some((seq![v] + vs, r2)),
            },
        }
    } else {
        None
    }
}

#[via_fn]
proof fn p_string_tail_dec(s: Seq<char>) {
    lemma_skip_ws_len(s);
    let t = skip_ws(s);
    if t.len() > 0 && t[0] == ',' {
        lemma_p_string_len(t.skip(1));
    }
}

/// Reads a whole array of strings.
pub open spec fn p_string_array(s: Seq<char>) -> Option<(Seq<Seq<char>>, Seq<char>)> {
    match p_tok(s, seq!['[']) {
        None => None,
        Some(r) => {
            let t = skip_ws(r);
            if t.len() > 0 && t[0] == ']' {
                Some((Seq::empty(), t.skip(1)))
            } else {
                match p_string(r) {
                    None => None,
                    Some((v, r2)) => match p_string_tail(r2) {
                        None => None,
                        Some((vs, r3)) => Some((seq![v] + vs, r3)),
                    },
                }
            }
        },
    }
}

/// Reads a string-valued field: the given key, a colon, a string.
pub open spec fn p_field_string(s: Seq<char>, key: Seq<char>) -> Option<(Seq<char>, Seq<char>)> {
    match p_tok(s, key) {
        None => None,
        Some(r) => match p_tok(r, seq![':']) {
            None => None,
            Some(r2) => p_string(r2),
        },
    }
}

/// Reads an array-valued field: the given key, a colon, an array of
/// strings.
pub open spec fn p_field_array(s: Seq<char>, key: Seq<char>) -> Option<(
    Seq<Seq<char>>,
    Seq<char>,
)> {
    match p_tok(s, key) {
        None => None,
        Some(r) => match p_tok(r, seq![':']) {
            None => None,
            Some(r2) => p_string_array(r2),
        },
    }
}

/// Reads one record: an object with the four fields in order.
pub open spec fn p_word(s: Seq<char>) -> Option<(WordModel, Seq<char>)> {
    match p_tok(s, seq!['{']) {
        None => None,
        Some(r0) => match p_field_string(r0, key_native()) {
            None => None,
            Some((ntv, r1)) => match p_tok(r1, seq![',']) {
                None => None,
                Some(r2) => match p_field_string(r2, key_english()) {
                    None => None,
                    Some((eng, r3)) => match p_tok(r3, seq![',']) {
                        None => None,
                        Some(r4) => match p_field_array(r4, key_categories()) {
                            None => None,
                            Some((cats, r5)) => match p_tok(r5, seq![',']) {
                                None => None,
                                Some(r6) => match p_field_array(r6, key_examples()) {
                                    None => None,
                                    Some((exs, r7)) => match p_tok(r7, seq!['}']) {
                                        None => None,
                                        Some(r8) => Some(
                                            (
                                                WordModel {
                                                    native: ntv,
                                                    english: eng,
                                                    categories: cats,
                                                    examples: exs,
                                                },
                                                r8,
                                            ),
                                        ),
                                    },
                                },
                            },
                        },
                    },
                },
            },
        },
    }
}

pub proof fn lemma_p_string_array_len(s: Seq<char>)
    ensures
        match p_string_array(s) {
            Some((vs, r)) => r.len() < s.len(),
            None => true,
        },
    decreases s.len(),
{
    lemma_p_tok_len(s, seq!['[']);
    match p_tok(s, seq!['[']) {
        None => {},
        Some(r) => {
            lemma_skip_ws_len(r);
            lemma_p_string_len(r);
            match p_string(r) {
                None => {},
                Some((v, r2)) => {
                    lemma_p_string_tail_len(r2);
                },
            }
        },
    }
}

pub proof fn lemma_p_string_tail_len(s: Seq<char>)
    ensures
        match p_string_tail(s) {
            Some((vs, r)) => r.len() < s.len(),
            None => true,
        },
    decreases s.len(),
{
    lemma_skip_ws_len(s);
    let t = skip_ws(s);
    if t.len() > 0 && t[0] == ',' {
        lemma_p_string_len(t.skip(1));
        match p_string(t.skip(1)) {
            None => {},
            Some((v, r)) => {
                lemma_p_string_tail_len(r);
            },
        }
    }
}

pub proof fn lemma_p_word_len(s: Seq<char>)
    ensures
        match p_word(s) {
            Some((w, r)) => r.len() < s.len(),
            None => true,
        },
{
    lemma_p_tok_len(s, seq!['{']);
    match p_tok(s, seq!['{']) {
        None => {},
        Some(r0) => {
            lemma_p_field_string_len(r0, key_native());
            match p_field_string(r0, key_native()) {
                None => {},
                Some((ntv, r1)) => {
                    lemma_p_tok_len(r1, seq![',']);
                    match p_tok(r1, seq![',']) {
                        None => {},
                        Some(r2) => {
                            lemma_p_field_string_len(r2, key_english());
                            match p_field_string(r2, key_english()) {
                                None => {},
                                Some((eng, r3)) => {
                                    lemma_p_tok_len(r3, seq![',']);
                                    match p_tok(r3, seq![',']) {
                                        None => {},
                                        Some(r4) => {
                                            lemma_p_field_array_len(r4, key_categories());
                                            match p_field_array(r4, key_categories()) {
                                                None => {},
                                                Some((cats, r5)) => {
                                                    lemma_p_tok_len(r5, seq![',']);
                                                    match p_tok(r5, seq![',']) {
                                                        None => {},
                                                        Some(r6) => {
                                                            lemma_p_field_array_len(
                                                                r6,
                                                                key_examples(),
                                                            );
                                                            match p_field_array(
                                                                r6,
                                                                key_examples(),
                                                            ) {
                                                                None => {},
                                                                Some((exs, r7)) => {
                                                                    lemma_p_tok_len(
                                                                        r7,
                                                                        seq!['}'],
                                                                    );
                                                                },
                                                            }
                                                        },
                                                    }
                                                },
                                            }
                                        },
                                    }
                                },
                            }
                        },
                    }
                },
            }
        },
    }
}

pub proof fn lemma_p_field_string_len(s: Seq<char>, key: Seq<char>)
    ensures
        match p_field_string(s, key) {
            Some((v, r)) => r.len() < s.len(),
            None => true,
        },
{
    lemma_p_tok_len(s, key);
    match p_tok(s, key) {
        None => {},
        Some(r) => {
            lemma_p_tok_len(r, seq![':']);
            match p_tok(r, seq![':']) {
                None => {},
                Some(r2) => {
                    lemma_p_string_len(r2);
                },
            }
        },
    }
}

pub proof fn lemma_p_field_array_len(s: Seq<char>, key: Seq<char>)
    ensures
        match p_field_array(s, key) {
            Some((v, r)) => r.len() < s.len(),
            None => true,
        },
{
    lemma_p_tok_len(s, key);
    match p_tok(s, key) {
        None => {},
        Some(r) => {
            lemma_p_tok_len(r, seq![':']);
            match p_tok(r, seq![':']) {
                None => {},
                Some(r2) => {
                    lemma_p_string_array_len(r2);
                },
            }
        },
    }
}

/// After one record: reads either the closing bracket or a comma
/// followed by the next record and the rest of the array.
pub open spec fn p_word_tail(s: Seq<char>) -> Option<(Seq<WordModel>, Seq<char>)>
    decreases s.len(),
    via p_word_tail_dec
{
    let t = skip_ws(s);
    if t.len() == 0 {
        None
    } else if t[0] == ']' {
        Some((Seq::empty(), t.skip(1)))
    } else if t[0] == ',' {
        match p_word(t.skip(1)) {
            None => None,
            Some((w, r)) => match p_word_tail(r) {
                None => None,
                Some((ws, r2)) => Some((seq![w] + ws, r2)),
            },
        }
    } else {
        None
    }
}

#[via_fn]
proof fn p_word_tail_dec(s: Seq<char>) {
    lemma_skip_ws_len(s);
    let t = skip_ws(s);
    if t.len() > 0 && t[0] == ',' {
        lemma_p_word_len(t.skip(1));
    }
}

/// Reads the whole array of records.
pub open spec fn p_words(s: Seq<char>) -> Option<(Seq<WordModel>, Seq<char>)> {
    match p_tok(s, seq!['[']) {
        None => None,
        Some(r) => {
            let t = skip_ws(r);
            if t.len() > 0 && t[0] == ']' {
                Some((Seq::empty(), t.skip(1)))
            } else {
                match p_word(r) {
                    None => None,
                    Some((w, r2)) => match p_word_tail(r2) {
                        None => None,
                        Some((ws, r3)) => Some((seq![w] + ws, r3)),
                    },
                }
            }
        },
    }
}

/// Reads a whole document: the array of records followed by nothing but
/// whitespace. `None` is a malformed document.
pub open spec fn parse_doc(s: Seq<char>) -> Option<Seq<WordModel>> {
    match p_words(s) {
        None => None,
        Some((ws, r)) => if skip_ws(r).len() == 0 {
            Some(ws)
        } else {
            None
        },
    }
}

// ---------------------------------------------------------------------
// Reading a written document gives back what was written
// ---------------------------------------------------------------------

proof fn lemma_skip_ws_id(s: Seq<char>)
    requires
        s.len() == 0 || !is_ws(s[0]),
    ensures
        skip_ws(s) == s,
{
}

proof fn lemma_p_tok_prefix(tok: Seq<char>, rest: Seq<char>)
    requires
        tok.len() > 0,
        !is_ws(tok[0]),
    ensures
        p_tok(tok + rest, tok) == Some(rest),
{
    let s = tok + rest;
    assert(s[0] == tok[0]);
    lemma_skip_ws_id(s);
    assert(s.take(tok.len() as int) =~= tok);
    assert(s.skip(tok.len() as int) =~= rest);
}

proof fn lemma_esc_rt(v: Seq<char>, rest: Seq<char>)
    ensures
        p_str_chars(esc(v) + seq!['"'] + rest) == Some((v, rest)),
    decreases v.len(),
{
    let s = esc(v) + seq!['"'] + rest;
    if v.len() == 0 {
        assert(esc(v) =~= Seq::<char>::empty());
        assert(s =~= seq!['"'] + rest);
        assert(s[0] == '"');
        assert(s.skip(1) =~= rest);
        assert(Seq::<char>::empty() =~= v);
    } else {
        let c = v[0];
        let v1 = v.skip(1);
        lemma_esc_rt(v1, rest);
        let s1 = esc(v1) + seq!['"'] + rest;
        assert(esc(v) == esc_char(c) + esc(v1));
        assert(seq![c] + v1 =~= v);
        if c == '"' {
            assert(s =~= seq!['\\', '"'] + s1);
            assert(s[0] == '\\' && s[1] == '"');
            assert(s.skip(2) =~= s1);
            assert(p_str_chars(s) == Some((v, rest)));
        } else if c == '\\' {
            assert(s =~= seq!['\\', '\\'] + s1);
            assert(s[0] == '\\' && s[1] == '\\');
            assert(s.skip(2) =~= s1);
            assert(p_str_chars(s) == Some((v, rest)));
        } else if c == '\n' {
            assert(s =~= seq!['\\', 'n'] + s1);
            assert(s[0] == '\\' && s[1] == 'n');
            assert(s.skip(2) =~= s1);
            assert(p_str_chars(s) == Some((v, rest)));
        } else if c == '\t' {
            assert(s =~= seq!['\\', 't'] + s1);
            assert(s[0] == '\\' && s[1] == 't');
            assert(s.skip(2) =~= s1);
            assert(p_str_chars(s) == Some((v, rest)));
        } else if c == '\r' {
            assert(s =~= seq!['\\', 'r'] + s1);
            assert(s[0] == '\\' && s[1] == 'r');
            assert(s.skip(2) =~= s1);
            assert(p_str_chars(s) == Some((v, rest)));
        } else {
            assert(s =~= seq![c] + s1);
            assert(s[0] == c);
            assert(s.skip(1) =~= s1);
            assert(p_str_chars(s) == Some((v, rest)));
        }
    }
}

proof fn lemma_ser_string_rt(v: Seq<char>, rest: Seq<char>)
    ensures
        p_string(ser_string(v) + rest) == Some((v, rest)),
{
    let s = ser_string(v) + rest;
    assert(s =~= seq!['"'] + (esc(v) + seq!['"'] + rest));
    assert(s[0] == '"');
    lemma_skip_ws_id(s);
    assert(s.skip(1) =~= esc(v) + seq!['"'] + rest);
    lemma_esc_rt(v, rest);
}

proof fn lemma_ser_string_tail_rt(a: Seq<Seq<char>>, rest: Seq<char>)
    ensures
        p_string_tail(ser_string_tail(a) + seq![']'] + rest) == Some((a, rest)),
    decreases a.len(),
{
    let s = ser_string_tail(a) + seq![']'] + rest;
    if a.len() == 0 {
        assert(s =~= seq![']'] + rest);
        assert(s[0] == ']');
        lemma_skip_ws_id(s);
        assert(s.skip(1) =~= rest);
        assert(Seq::<Seq<char>>::empty() =~= a);
    } else {
        let x = a[0];
        let a1 = a.skip(1);
        let r1 = ser_string_tail(a1) + seq![']'] + rest;
        assert(s =~= seq![','] + (ser_string(x) + r1));
        assert(s[0] == ',');
        lemma_skip_ws_id(s);
        assert(s.skip(1) =~= ser_string(x) + r1);
        lemma_ser_string_rt(x, r1);
        lemma_ser_string_tail_rt(a1, rest);
        assert(seq![x] + a1 =~= a);
    }
}

proof fn lemma_ser_string_array_rt(a: Seq<Seq<char>>, rest: Seq<char>)
    ensures
        p_string_array(ser_string_array(a) + rest) == Some((a, rest)),
{
    let s = ser_string_array(a) + rest;
    if a.len() == 0 {
        let r = seq![']'] + rest;
        assert(s =~= seq!['['] + r);
        lemma_p_tok_prefix(seq!['['], r);
        assert(r[0] == ']');
        lemma_skip_ws_id(r);
        assert(r.skip(1) =~= rest);
        assert(Seq::<Seq<char>>::empty() =~= a);
    } else {
        let x = a[0];
        let a1 = a.skip(1);
        let r2 = ser_string_tail(a1) + seq![']'] + rest;
        let r = ser_string(x) + r2;
        assert(s =~= seq!['['] + r);
        lemma_p_tok_prefix(seq!['['], r);
        assert(r =~= seq!['"'] + (esc(x) + seq!['"'] + r2));
        assert(r[0] == '"');
        lemma_skip_ws_id(r);
        lemma_ser_string_rt(x, r2);
        lemma_ser_string_tail_rt(a1, rest);
        assert(seq![x] + a1 =~= a);
    }
}

proof fn lemma_field_string_rt(key: Seq<char>, v: Seq<char>, rest: Seq<char>)
    requires
        key.len() > 0,
        !is_ws(key[0]),
    ensures
        p_field_string(key + seq![':'] + ser_string(v) + rest, key) == Some((v, rest)),
{
    let s = key + seq![':'] + ser_string(v) + rest;
    let r1 = seq![':'] + (ser_string(v) + rest);
    assert(s =~= key + r1);
    lemma_p_tok_prefix(key, r1);
    lemma_p_tok_prefix(seq![':'], ser_string(v) + rest);
    lemma_ser_string_rt(v, rest);
}

proof fn lemma_field_array_rt(key: Seq<char>, a: Seq<Seq<char>>, rest: Seq<char>)
    requires
        key.len() > 0,
        !is_ws(key[0]),
    ensures
        p_field_array(key + seq![':'] + ser_string_array(a) + rest, key) == Some((a, rest)),
{
    let s = key + seq![':'] + ser_string_array(a) + rest;
    let r1 = seq![':'] + (ser_string_array(a) + rest);
    assert(s =~= key + r1);
    lemma_p_tok_prefix(key, r1);
    lemma_p_tok_prefix(seq![':'], ser_string_array(a) + rest);
    lemma_ser_string_array_rt(a, rest);
}

#[verifier::rlimit(80)]
#[verifier::spinoff_prover]
proof fn lemma_ser_word_rt(w: WordModel, rest: Seq<char>)
    ensures
        p_word(ser_word(w) + rest) == Some((w, rest)),
{
    let s7 = seq!['}'] + rest;
    let s6 = key_examples() + seq![':'] + ser_string_array(w.examples) + s7;
    let s5 = seq![','] + s6;
    let s4 = key_categories() + seq![':'] + ser_string_array(w.categories) + s5;
    let s3 = seq![','] + s4;
    let s2 = key_english() + seq![':'] + ser_string(w.english) + s3;
    let s1 = seq![','] + s2;
    let s0 = key_native() + seq![':'] + ser_string(w.native) + s1;
    let s = ser_word(w) + rest;
    assert(key_native()[0] == '"' && key_english()[0] == '"' && key_categories()[0] == '"'
        && key_examples()[0] == '"');
    assert(s =~= seq!['{'] + s0);
    lemma_p_tok_prefix(seq!['{'], s0);
    lemma_field_string_rt(key_native(), w.native, s1);
    lemma_p_tok_prefix(seq![','], s2);
    lemma_field_string_rt(key_english(), w.english, s3);
    lemma_p_tok_prefix(seq![','], s4);
    lemma_field_array_rt(key_categories(), w.categories, s5);
    lemma_p_tok_prefix(seq![','], s6);
    lemma_field_array_rt(key_examples(), w.examples, s7);
    lemma_p_tok_prefix(seq!['}'], rest);
}

#[verifier::rlimit(80)]
#[verifier::spinoff_prover]
proof fn lemma_ser_word_tail_rt(ws: Seq<WordModel>, rest: Seq<char>)
    ensures
        p_word_tail(ser_word_tail(ws) + seq![']'] + rest) == Some((ws, rest)),
    decreases ws.len(),
{
    let s = ser_word_tail(ws) + seq![']'] + rest;
    if ws.len() == 0 {
        assert(s =~= seq![']'] + rest);
        assert(s[0] == ']');
        lemma_skip_ws_id(s);
        assert(s.skip(1) =~= rest);
        assert(Seq::<WordModel>::empty() =~= ws);
    } else {
        let w = ws[0];
        let ws1 = ws.skip(1);
        let r1 = ser_word_tail(ws1) + seq![']'] + rest;
        assert(s =~= seq![','] + (ser_word(w) + r1));
        assert(s[0] == ',');
        lemma_skip_ws_id(s);
        assert(s.skip(1) =~= ser_word(w) + r1);
        lemma_ser_word_rt(w, r1);
        lemma_ser_word_tail_rt(ws1, rest);
        assert(seq![w] + ws1 =~= ws);
    }
}

#[verifier::rlimit(60)]
proof fn lemma_ser_words_rt(ws: Seq<WordModel>, rest: Seq<char>)
    ensures
        p_words(ser_words(ws) + rest) == Some((ws, rest)),
{
    let s = ser_words(ws) + rest;
    if ws.len() == 0 {
        let r = seq![']'] + rest;
        assert(s =~= seq!['['] + r);
        lemma_p_tok_prefix(seq!['['], r);
        assert(r[0] == ']');
        lemma_skip_ws_id(r);
        assert(r.skip(1) =~= rest);
        assert(Seq::<WordModel>::empty() =~= ws);
    } else {
        let w = ws[0];
        let ws1 = ws.skip(1);
        let r2 = ser_word_tail(ws1) + seq![']'] + rest;
        let r = ser_word(w) + r2;
        assert(s =~= seq!['['] + r);
        lemma_p_tok_prefix(seq!['['], r);
        assert(r[0] == '{');
        lemma_skip_ws_id(r);
        lemma_ser_word_rt(w, r2);
        lemma_ser_word_tail_rt(ws1, rest);
        assert(seq![w] + ws1 =~= ws);
    }
}

/// The persistence round trip: reading a written document yields exactly
/// the records that were written. In particular, writing what was read
/// back from a written document reproduces that document, so a
/// load-then-save cycle is idempotent at the format level.
pub proof fn lemma_read_write_round_trip(ws: Seq<WordModel>)
    ensures
        parse_doc(ser_words(ws)) == Some(ws),
{
    lemma_ser_words_rt(ws, Seq::empty());
    assert(ser_words(ws) + Seq::<char>::empty() =~= ser_words(ws));
    assert(skip_ws(Seq::<char>::empty()).len() == 0);
}

// ---------------------------------------------------------------------
// Writing (executable)
// ---------------------------------------------------------------------

/// Relies on `String: FromIterator<char>`: collecting characters yields
/// the string of exactly those characters, in order.
#[verifier::external_body]
pub(crate) fn chars_to_string(v: Vec<char>) -> (r: String)
    ensures
        r@ == v@,
{
    v.into_iter().collect()
}

/// The characters of `s`, as a vector.
pub fn str_to_chars(s: &str) -> (v: Vec<char>)
    ensures
        v@ == s@,
{
    let n = s.unicode_len();
    let mut v: Vec<char> = Vec::new();
    let mut i: usize = 0;
    while i < n
        invariant
            i <= n,
            n == s@.len(),
            v@ == s@.take(i as int),
        decreases n - i,
    {
        let c = s.get_char(i);
        v.push(c);
        proof {
            assert(v@ =~= s@.take(i as int + 1));
        }
        i += 1;
    }
    proof {
        assert(s@.take(n as int) =~= s@);
    }
    v
}

/// Appends the escaped body of `s`, from character `i` on, to `out`.
fn write_str_body(out: &mut Vec<char>, s: &str, i: usize)
    requires
        i <= s@.len(),
    ensures
        final(out)@ == old(out)@ + esc(s@.skip(i as int)),
    decreases s@.len() - i@,
{
    let n = s.unicode_len();
    if i < n {
        let ghost o0 = out@;
        let c = s.get_char(i);
        if c == '"' {
            out.push('\\');
            out.push('"');
        } else if c == '\\' {
            out.push('\\');
            out.push('\\');
        } else if c == '\n' {
            out.push('\\');
            out.push('n');
        } else if c == '\t' {
            out.push('\\');
            out.push('t');
        } else if c == '\r' {
            out.push('\\');
            out.push('r');
        } else {
            out.push(c);
        }
        proof {
            assert(out@ =~= o0 + esc_char(s@[i as int]));
        }
        write_str_body(out, s, i + 1);
        proof {
            let t = s@.skip(i as int);
            assert(t[0] == s@[i as int]);
            assert(t.skip(1) =~= s@.skip(i as int + 1));
            assert(out@ =~= o0 + esc(t));
        }
    } else {
        proof {
            assert(s@.skip(i as int) =~= Seq::<char>::empty());
            assert(out@ =~= out@ + esc(s@.skip(i as int)));
        }
    }
}

/// Appends the written form of the string `s` to `out`.
fn write_string(out: &mut Vec<char>, s: &str)
    ensures
        final(out)@ == old(out)@ + ser_string(s@),
{
    let ghost o0 = out@;
    out.push('"');
    write_str_body(out, s, 0);
    out.push('"');
    proof {
        assert(s@.skip(0) =~= s@);
        assert(out@ =~= o0 + ser_string(s@));
    }
}

/// Appends the items of `a` from index `i` on, each preceded by a comma.
fn write_string_tail(out: &mut Vec<char>, a: &Vec<String>, i: usize)
    requires
        i <= a.len(),
    ensures
        final(out)@ == old(out)@ + ser_string_tail(a.deep_view().skip(i as int)),
    decreases a.len() - i,
{
    if i < a.len() {
        let ghost o0 = out@;
        out.push(',');
        write_string(out, a[i].as_str());
        write_string_tail(out, a, i + 1);
        proof {
            let t = a.deep_view().skip(i as int);
            assert(t[0] == a.deep_view()[i as int]);
            assert(t.skip(1) =~= a.deep_view().skip(i as int + 1));
            assert(out@ =~= o0 + ser_string_tail(t));
        }
    } else {
        proof {
            assert(a.deep_view().skip(i as int) =~= Seq::<Seq<char>>::empty());
        }
    }
}

/// Appends the written form of the string array `a` to `out`.
fn write_string_array(out: &mut Vec<char>, a: &Vec<String>)
    ensures
        final(out)@ == old(out)@ + ser_string_array(a.deep_view()),
{
    let ghost o0 = out@;
    out.push('[');
    if a.len() > 0 {
        write_string(out, a[0].as_str());
        write_string_tail(out, a, 1);
        proof {
            assert(a.deep_view()[0] == a@[0]@);
            assert(out@.push(']') =~= o0 + ser_string_array(a.deep_view()));
        }
    } else {
        proof {
            assert(a.deep_view().len() == 0);
            assert(out@.push(']') =~= o0 + ser_string_array(a.deep_view()));
        }
    }
    out.push(']');
}

fn write_key_native(out: &mut Vec<char>)
    ensures
        final(out)@ == old(out)@ + key_native(),
{
    out.push('"');
    out.push('n');
    out.push('a');
    out.push('t');
    out.push('i');
    out.push('v');
    out.push('e');
    out.push('"');
    proof {
        assert(out@ =~= old(out)@ + key_native());
    }
}

fn write_key_english(out: &mut Vec<char>)
    ensures
        final(out)@ == old(out)@ + key_english(),
{
    out.push('"');
    out.push('e');
    out.push('n');
    out.push('g');
    out.push('l');
    out.push('i');
    out.push('s');
    out.push('h');
    out.push('"');
    proof {
        assert(out@ =~= old(out)@ + key_english());
    }
}

fn write_key_categories(out: &mut Vec<char>)
    ensures
        final(out)@ == old(out)@ + key_categories(),
{
    out.push('"');
    out.push('c');
    out.push('a');
    out.push('t');
    out.push('e');
    out.push('g');
    out.push('o');
    out.push('r');
    out.push('i');
    out.push('e');
    out.push('s');
    out.push('"');
    proof {
        assert(out@ =~= old(out)@ + key_categories());
    }
}

fn write_key_examples(out: &mut Vec<char>)
    ensures
        final(out)@ == old(out)@ + key_examples(),
{
    out.push('"');
    out.push('e');
    out.push('x');
    out.push('a');
    out.push('m');
    out.push('p');
    out.push('l');
    out.push('e');
    out.push('s');
    out.push('"');
    proof {
        assert(out@ =~= old(out)@ + key_examples());
    }
}

/// Appends the written form of one record to `out`.
#[verifier::rlimit(60)]
fn write_word(out: &mut Vec<char>, w: &Word)
    ensures
        final(out)@ == old(out)@ + ser_word(w.deep_view()),
{
    let ghost o0 = out@;
    out.push('{');
    write_key_native(out);
    out.push(':');
    write_string(out, w.native.as_str());
    out.push(',');
    write_key_english(out);
    out.push(':');
    write_string(out, w.english.as_str());
    out.push(',');
    write_key_categories(out);
    out.push(':');
    write_string_array(out, &w.categories);
    out.push(',');
    write_key_examples(out);
    out.push(':');
    write_string_array(out, &w.examples);
    out.push('}');
    proof {
        assert(out@ =~= o0 + ser_word(w.deep_view()));
    }
}

/// Appends the records of `words` from index `i` on, each preceded by a
/// comma.
fn write_word_tail(out: &mut Vec<char>, words: &Vec<Word>, i: usize)
    requires
        i <= words.len(),
    ensures
        final(out)@ == old(out)@ + ser_word_tail(words.deep_view().skip(i as int)),
    decreases words.len() - i,
{
    if i < words.len() {
        let ghost o0 = out@;
        out.push(',');
        write_word(out, &words[i]);
        write_word_tail(out, words, i + 1);
        proof {
            let t = words.deep_view().skip(i as int);
            assert(t[0] == words.deep_view()[i as int]);
            assert(t.skip(1) =~= words.deep_view().skip(i as int + 1));
            assert(out@ =~= o0 + ser_word_tail(t));
        }
    } else {
        proof {
            assert(words.deep_view().skip(i as int) =~= Seq::<WordModel>::empty());
        }
    }
}

/// The whole document for the given records, as characters.
pub fn write_json(words: &Vec<Word>) -> (out: Vec<char>)
    ensures
        out@ == ser_words(words.deep_view()),
{
    let mut out: Vec<char> = Vec::new();
    out.push('[');
    if words.len() > 0 {
        write_word(&mut out, &words[0]);
        write_word_tail(&mut out, words, 1);
        proof {
            assert(words.deep_view()[0] == words@[0].deep_view());
            assert(out@.push(']') =~= ser_words(words.deep_view()));
        }
    } else {
        proof {
            assert(words.deep_view().len() == 0);
            assert(out@.push(']') =~= ser_words(words.deep_view()));
        }
    }
    out.push(']');
    out
}

// ---------------------------------------------------------------------
// Reading (executable)
// ---------------------------------------------------------------------

/// Steps past leading whitespace.
fn read_ws(s: &Vec<char>, i: usize) -> (j: usize)
    requires
        i <= s.len(),
    ensures
        i <= j <= s.len(),
        skip_ws(s@.skip(i as int)) == s@.skip(j as int),
    decreases s.len() - i,
{
    if i < s.len() {
        let c = s[i];
        if c == ' ' || c == '\n' || c == '\t' || c == '\r' {
            proof {
                assert(s@.skip(i as int)[0] == s@[i as int]);
                assert(s@.skip(i as int).skip(1) =~= s@.skip(i as int + 1));
            }
            return read_ws(s, i + 1);
        }
        proof {
            assert(s@.skip(i as int)[0] == s@[i as int]);
        }
    }
    i
}

/// Reads the single-character token `c`, allowing whitespace before it.
fn read_ch(s: &Vec<char>, i: usize, c: char) -> (r: Option<usize>)
    requires
        i <= s.len(),
    ensures
        match r {
            Some(j) => i < j <= s.len() && p_tok(s@.skip(i as int), seq![c]) == Some(
                s@.skip(j as int),
            ),
            None => p_tok(s@.skip(i as int), seq![c]) is None,
        },
{
    let j = read_ws(s, i);
    if j < s.len() {
        let ghost t = s@.skip(j as int);
        if s[j] == c {
            proof {
                assert(t.take(1) =~= seq![c]);
                assert(t.skip(1) =~= s@.skip(j as int + 1));
            }
            return Some(j + 1);
        }
        proof {
            assert(t.take(1)[0] == s@[j as int]);
            assert(t.take(1) != seq![c]);
        }
        return None;
    }
    proof {
        assert(s@.skip(j as int).len() == 0);
    }
    None
}

/// Reads the exact token `key`, allowing whitespace before it.
fn read_key(s: &Vec<char>, i: usize, key: &Vec<char>) -> (r: Option<usize>)
    requires
        i <= s.len(),
    ensures
        match r {
            Some(j) => i <= j <= s.len() && p_tok(s@.skip(i as int), key@) == Some(
                s@.skip(j as int),
            ),
            None => p_tok(s@.skip(i as int), key@) is None,
        },
{
    let j = read_ws(s, i);
    let ghost t = s@.skip(j as int);
    if s.len() - j < key.len() {
        return None;
    }
    let mut k: usize = 0;
    while k < key.len()
        invariant
            0 <= k <= key.len(),
            i <= j <= s.len(),
            j + key.len() <= s.len(),
            t == s@.skip(j as int),
            skip_ws(s@.skip(i as int)) == t,
            forall|m: int| 0 <= m < k ==> s@[j + m] == key@[m],
        decreases key.len() - k,
    {
        if s[j + k] != key[k] {
            proof {
                assert(t.take(key@.len() as int)[k as int] == s@[j + k]);
                assert(t.take(key@.len() as int) != key@);
            }
            return None;
        }
        k += 1;
    }
    proof {
        assert(t.take(key@.len() as int) =~= key@);
        assert(t.skip(key@.len() as int) =~= s@.skip(j as int + key@.len() as int));
    }
    Some(j + key.len())
}

/// Reads the body of a string after its opening quote, up to and
/// including its closing quote.
fn read_str_body(s: &Vec<char>, i: usize) -> (r: Option<(Vec<char>, usize)>)
    requires
        i <= s.len(),
    ensures
        match r {
            Some((v, j)) => j <= s.len() && p_str_chars(s@.skip(i as int)) == Some(
                (v@, s@.skip(j as int)),
            ),
            None => p_str_chars(s@.skip(i as int)) is None,
        },
    decreases s.len() - i,
{
    if i >= s.len() {
        return None;
    }
    let c = s[i];
    let ghost t = s@.skip(i as int);
    proof {
        assert(t[0] == s@[i as int]);
        assert(t.skip(1) =~= s@.skip(i as int + 1));
    }
    if c == '"' {
        let v: Vec<char> = Vec::new();
        proof {
            assert(v@ =~= Seq::<char>::empty());
        }
        return Some((v, i + 1));
    }
    if c == '\\' {
        if i + 1 >= s.len() {
            return None;
        }
        let e = s[i + 1];
        proof {
            assert(t[1] == s@[i as int + 1]);
            assert(t.skip(2) =~= s@.skip(i as int + 2));
        }
        let d_opt: Option<char> = if e == '"' {
            Some('"')
        } else if e == '\\' {
            Some('\\')
        } else if e == 'n' {
            Some('\n')
        } else if e == 't' {
            Some('\t')
        } else if e == 'r' {
            Some('\r')
        } else {
            None
        };
        let d = match d_opt {
            None => {
                return None;
            },
            Some(x) => x,
        };
        match read_str_body(s, i + 2) {
            None => None,
            Some((v1, j)) => {
                let mut v = v1;
                let ghost v0 = v@;
                v.insert(0, d);
                proof {
                    assert(v@ =~= seq![d] + v0);
                }
                Some((v, j))
            },
        }
    } else {
        match read_str_body(s, i + 1) {
            None => None,
            Some((v1, j)) => {
                let mut v = v1;
                let ghost v0 = v@;
                v.insert(0, c);
                proof {
                    assert(v@ =~= seq![c] + v0);
                }
                Some((v, j))
            },
        }
    }
}

/// Reads a quoted string, allowing whitespace before it.
fn read_string(s: &Vec<char>, i: usize) -> (r: Option<(String, usize)>)
    requires
        i <= s.len(),
    ensures
        match r {
            Some((v, j)) => j <= s.len() && p_string(s@.skip(i as int)) == Some(
                (v@, s@.skip(j as int)),
            ),
            None => p_string(s@.skip(i as int)) is None,
        },
{
    let j = read_ws(s, i);
    if j < s.len() {
        let c = s[j];
        if c == '"' {
            proof {
                assert(s@.skip(j as int)[0] == s@[j as int]);
                assert(s@.skip(j as int).skip(1) =~= s@.skip(j as int + 1));
            }
            return match read_str_body(s, j + 1) {
                None => None,
                Some((v, j2)) => Some((chars_to_string(v), j2)),
            };
        }
        proof {
            assert(s@.skip(j as int)[0] == s@[j as int]);
        }
    }
    None
}

/// After one item of a string array: reads either the closing bracket or
/// a comma and the rest of the items.
fn read_string_tail(s: &Vec<char>, i: usize) -> (r: Option<(Vec<String>, usize)>)
    requires
        i <= s.len(),
    ensures
        match r {
            Some((a, j)) => j <= s.len() && p_string_tail(s@.skip(i as int)) == Some(
                (a.deep_view(), s@.skip(j as int)),
            ),
            None => p_string_tail(s@.skip(i as int)) is None,
        },
    decreases s.len() - i,
{
    let j = read_ws(s, i);
    if j >= s.len() {
        return None;
    }
    let c = s[j];
    proof {
        assert(s@.skip(j as int)[0] == s@[j as int]);
        assert(s@.skip(j as int).skip(1) =~= s@.skip(j as int + 1));
    }
    if c == ']' {
        let a: Vec<String> = Vec::new();
        proof {
            assert(a.deep_view() =~= Seq::<Seq<char>>::empty());
        }
        return Some((a, j + 1));
    }
    if c != ',' {
        return None;
    }
    match read_string(s, j + 1) {
        None => None,
        Some((v, j2)) => {
            proof {
                lemma_p_string_len(s@.skip(j as int + 1));
            }
            match read_string_tail(s, j2) {
                None => None,
                Some((a1, j3)) => {
                    let mut a = a1;
                    let ghost a0 = a.deep_view();
                    a.insert(0, v);
                    proof {
                        assert(a.deep_view() =~= seq![v@] + a0);
                    }
                    Some((a, j3))
                },
            }
        },
    }
}

/// Reads a whole array of strings.
fn read_string_array(s: &Vec<char>, i: usize) -> (r: Option<(Vec<String>, usize)>)
    requires
        i <= s.len(),
    ensures
        match r {
            Some((a, j)) => j <= s.len() && p_string_array(s@.skip(i as int)) == Some(
                (a.deep_view(), s@.skip(j as int)),
            ),
            None => p_string_array(s@.skip(i as int)) is None,
        },
{
    let j = match read_ch(s, i, '[') {
        None => {
            return None;
        },
        Some(j) => j,
    };
    let j1 = read_ws(s, j);
    if j1 < s.len() {
        let c = s[j1];
        proof {
            assert(s@.skip(j1 as int)[0] == s@[j1 as int]);
        }
        if c == ']' {
            let a: Vec<String> = Vec::new();
            proof {
                assert(a.deep_view() =~= Seq::<Seq<char>>::empty());
                assert(s@.skip(j1 as int).skip(1) =~= s@.skip(j1 as int + 1));
            }
            return Some((a, j1 + 1));
        }
    }
    match read_string(s, j) {
        None => None,
        Some((v, j2)) => match read_string_tail(s, j2) {
            None => None,
            Some((a1, j3)) => {
                let mut a = a1;
                let ghost a0 = a.deep_view();
                a.insert(0, v);
                proof {
                    assert(a.deep_view() =~= seq![v@] + a0);
                }
                Some((a, j3))
            },
        },
    }
}

/// Reads a string-valued field: the given key, a colon, a string.
fn read_field_string(s: &Vec<char>, i: usize, key: &Vec<char>) -> (r: Option<(String, usize)>)
    requires
        i <= s.len(),
    ensures
        match r {
            Some((v, j)) => j <= s.len() && p_field_string(s@.skip(i as int), key@) == Some(
                (v@, s@.skip(j as int)),
            ),
            None => p_field_string(s@.skip(i as int), key@) is None,
        },
{
    match read_key(s, i, key) {
        None => None,
        Some(j) => match read_ch(s, j, ':') {
            None => None,
            Some(j2) => read_string(s, j2),
        },
    }
}

/// Reads an array-valued field: the given key, a colon, an array of
/// strings.
fn read_field_array(s: &Vec<char>, i: usize, key: &Vec<char>) -> (r: Option<
    (Vec<String>, usize),
>)
    requires
        i <= s.len(),
    ensures
        match r {
            Some((a, j)) => j <= s.len() && p_field_array(s@.skip(i as int), key@) == Some(
                (a.deep_view(), s@.skip(j as int)),
            ),
            None => p_field_array(s@.skip(i as int), key@) is None,
        },
{
    match read_key(s, i, key) {
        None => None,
        Some(j) => match read_ch(s, j, ':') {
            None => None,
            Some(j2) => read_string_array(s, j2),
        },
    }
}

fn key_native_exec() -> (k: Vec<char>)
    ensures
        k@ == key_native(),
{
    let k = vec!['"', 'n', 'a', 't', 'i', 'v', 'e', '"'];
    proof {
        assert(k@ =~= key_native());
    }
    k
}

fn key_english_exec() -> (k: Vec<char>)
    ensures
        k@ == key_english(),
{
    let k = vec!['"', 'e', 'n', 'g', 'l', 'i', 's', 'h', '"'];
    proof {
        assert(k@ =~= key_english());
    }
    k
}

fn key_categories_exec() -> (k: Vec<char>)
    ensures
        k@ == key_categories(),
{
    let k = vec!['"', 'c', 'a', 't', 'e', 'g', 'o', 'r', 'i', 'e', 's', '"'];
    proof {
        assert(k@ =~= key_categories());
    }
    k
}

fn key_examples_exec() -> (k: Vec<char>)
    ensures
        k@ == key_examples(),
{
    let k = vec!['"', 'e', 'x', 'a', 'm', 'p', 'l', 'e', 's', '"'];
    proof {
        assert(k@ =~= key_examples());
    }
    k
}

/// Reads one record: an object with the four fields in order.
fn read_word(s: &Vec<char>, i: usize) -> (r: Option<(Word, usize)>)
    requires
        i <= s.len(),
    ensures
        match r {
            Some((w, j)) => j <= s.len() && p_word(s@.skip(i as int)) == Some(
                (w.deep_view(), s@.skip(j as int)),
            ),
            None => p_word(s@.skip(i as int)) is None,
        },
{
    let j0 = match read_ch(s, i, '{') {
        None => {
            return None;
        },
        Some(j) => j,
    };
    let kn = key_native_exec();
    let (native, j1) = match read_field_string(s, j0, &kn) {
        None => {
            return None;
        },
        Some(x) => x,
    };
    let j2 = match read_ch(s, j1, ',') {
        None => {
            return None;
        },
        Some(j) => j,
    };
    let ke = key_english_exec();
    let (english, j3) = match read_field_string(s, j2, &ke) {
        None => {
            return None;
        },
        Some(x) => x,
    };
    let j4 = match read_ch(s, j3, ',') {
        None => {
            return None;
        },
        Some(j) => j,
    };
    let kc = key_categories_exec();
    let (categories, j5) = match read_field_array(s, j4, &kc) {
        None => {
            return None;
        },
        Some(x) => x,
    };
    let j6 = match read_ch(s, j5, ',') {
        None => {
            return None;
        },
        Some(j) => j,
    };
    let kx = key_examples_exec();
    let (examples, j7) = match read_field_array(s, j6, &kx) {
        None => {
            return None;
        },
        Some(x) => x,
    };
    let j8 = match read_ch(s, j7, '}') {
        None => {
            return None;
        },
        Some(j) => j,
    };
    let w = Word { native, english, categories, examples };
    Some((w, j8))
}

/// After one record: reads either the closing bracket or a comma and the
/// rest of the records.
fn read_word_tail(s: &Vec<char>, i: usize) -> (r: Option<(Vec<Word>, usize)>)
    requires
        i <= s.len(),
    ensures
        match r {
            Some((ws, j)) => j <= s.len() && p_word_tail(s@.skip(i as int)) == Some(
                (ws.deep_view(), s@.skip(j as int)),
            ),
            None => p_word_tail(s@.skip(i as int)) is None,
        },
    decreases s.len() - i,
{
    let j = read_ws(s, i);
    if j >= s.len() {
        return None;
    }
    let c = s[j];
    proof {
        assert(s@.skip(j as int)[0] == s@[j as int]);
        assert(s@.skip(j as int).skip(1) =~= s@.skip(j as int + 1));
    }
    if c == ']' {
        let ws: Vec<Word> = Vec::new();
        proof {
            assert(ws.deep_view() =~= Seq::<WordModel>::empty());
        }
        return Some((ws, j + 1));
    }
    if c != ',' {
        return None;
    }
    match read_word(s, j + 1) {
        None => None,
        Some((w, j2)) => {
            proof {
                lemma_p_word_len(s@.skip(j as int + 1));
            }
            match read_word_tail(s, j2) {
                None => None,
                Some((ws1, j3)) => {
                    let mut ws = ws1;
                    let ghost ws0 = ws.deep_view();
                    ws.insert(0, w);
                    proof {
                        assert(ws.deep_view() =~= seq![w.deep_view()] + ws0);
                    }
                    Some((ws, j3))
                },
            }
        },
    }
}

/// Reads the whole array of records.
fn read_words(s: &Vec<char>, i: usize) -> (r: Option<(Vec<Word>, usize)>)
    requires
        i <= s.len(),
    ensures
        match r {
            Some((ws, j)) => j <= s.len() && p_words(s@.skip(i as int)) == Some(
                (ws.deep_view(), s@.skip(j as int)),
            ),
            None => p_words(s@.skip(i as int)) is None,
        },
{
    let j = match read_ch(s, i, '[') {
        None => {
            return None;
        },
        Some(j) => j,
    };
    let j1 = read_ws(s, j);
    if j1 < s.len() {
        let c = s[j1];
        proof {
            assert(s@.skip(j1 as int)[0] == s@[j1 as int]);
        }
        if c == ']' {
            let ws: Vec<Word> = Vec::new();
            proof {
                assert(ws.deep_view() =~= Seq::<WordModel>::empty());
                assert(s@.skip(j1 as int).skip(1) =~= s@.skip(j1 as int + 1));
            }
            return Some((ws, j1 + 1));
        }
    }
    match read_word(s, j) {
        None => None,
        Some((w, j2)) => match read_word_tail(s, j2) {
            None => None,
            Some((ws1, j3)) => {
                let mut ws = ws1;
                let ghost ws0 = ws.deep_view();
                ws.insert(0, w);
                proof {
                    assert(ws.deep_view() =~= seq![w.deep_view()] + ws0);
                }
                Some((ws, j3))
            },
        },
    }
}

/// Reads a whole document. `None` is a malformed document; the caller
/// decides what a malformed document falls back to.
pub fn parse_json(s: &Vec<char>) -> (r: Option<Vec<Word>>)
    ensures
        match r {
            Some(words) => parse_doc(s@) == Some(words.deep_view()),
            None => parse_doc(s@) is None,
        },
{
    proof {
        assert(s@.skip(0) =~= s@);
    }
    match read_words(s, 0) {
        None => None,
        Some((ws, j)) => {
            let j2 = read_ws(s, j);
            if j2 == s.len() {
                Some(ws)
            } else {
                None
            }
        },
    }
}

} // verus!
