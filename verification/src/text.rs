use vstd::prelude::*;
use vstd::std_specs::iter::IteratorSpec;
use crate::token::{Punctuation, QuoteSide};

verus! {

/// Collects the characters of a string, in order.
pub fn chars_of(text: &str) -> (chars: Vec<char>)
    ensures
        chars@ == text@,
{
    broadcast use {vstd::string::axiom_spec_iter, vstd::string::next_postcondition};

    let mut chars: Vec<char> = Vec::new();
    let mut rest = text.chars();
    let mut more = true;
    assert(chars@ + rest.remaining() =~= text@);
    while more
        invariant
            rest.obeys_prophetic_iter_laws(),
            more ==> chars@ + rest.remaining() == text@,
            !more ==> chars@ == text@,
        decreases text@.len() - chars@.len() + (if more { 1int } else { 0int }),
    {
        let ghost before = rest.remaining();
        match rest.next() {
            Some(c) => {
                assert(chars@.push(c) + before.drop_first() =~= chars@ + before);
                chars.push(c);
            },
            None => {
                assert(before.len() == 0);
                assert(chars@ + before =~= chars@);
                more = false;
            },
        }
    }
    chars
}

/// Builds a string from characters with `String::from_iter`: the string
/// holds exactly the given characters, in order.
#[verifier::external_body]
pub(crate) fn string_from_chars(chars: &[char]) -> (s: String)
    ensures
        s@ == chars@,
{
    String::from_iter(chars.iter())
}

/// Upper-cases one character.
pub fn ascii_uppercase(c: char) -> (u: char)
    ensures
        u == spec_ascii_uppercase(c),
{
    if 'a' <= c && c <= 'z' {
        let code: u8 = c as u8;
        (code - 32) as char
    } else {
        c
    }
}

pub open spec fn is_ascii_lowercase(c: char) -> bool {
    'a' <= c <= 'z'
}

/// The upper-case twin of an ASCII lower-case letter; any other character
/// is its own.
pub open spec fn spec_ascii_uppercase(c: char) -> char {
    if is_ascii_lowercase(c) {
        (c as int - 32) as char
    } else {
        c
    }
}

pub open spec fn is_ascii_uppercase(c: char) -> bool {
    'A' <= c <= 'Z'
}

pub open spec fn is_ascii_digit(c: char) -> bool {
    '0' <= c <= '9'
}

/// The curly double quotes count as punctuation; every other character
/// outside ASCII is taken to be part of a word.
pub open spec fn is_curly_quote(c: char) -> bool {
    c == '\u{201c}' || c == '\u{201d}'
}

/// Characters that words are made of.
pub open spec fn is_word_char(c: char) -> bool {
    is_ascii_lowercase(c) || is_ascii_uppercase(c) || is_ascii_digit(c) || (c > '\u{7f}'
        && !is_curly_quote(c))
}

pub open spec fn is_whitespace_char(c: char) -> bool {
    c == ' ' || c == '\t' || c == '\n' || c == '\r'
}

/// The straight and the curly double quotes.
pub open spec fn is_quote_char(c: char) -> bool {
    c == '"' || is_curly_quote(c)
}

/// The punctuation mark that a character stands for, if any. A quotation
/// mark is taken to open a quotation: which side it is on depends on the
/// marks before it and is settled by the tokenizer.
pub open spec fn spec_punctuation_of(c: char) -> Option<Punctuation> {
    if c == '.' {
        Some(Punctuation::Period)
    } else if c == '?' {
        Some(Punctuation::Question)
    } else if c == '!' {
        Some(Punctuation::Bang)
    } else if c == ',' {
        Some(Punctuation::Comma)
    } else if c == ';' {
        Some(Punctuation::Semicolon)
    } else if c == ':' {
        Some(Punctuation::Colon)
    } else if is_quote_char(c) {
        Some(Punctuation::Quote(QuoteSide::Open))
    } else {
        None
    }
}

/// Equality of characters up to the case of ASCII letters.
pub open spec fn spec_eq_ignore_case(a: char, b: char) -> bool {
    a == b || (is_ascii_uppercase(a) && a as int + 32 == b as int) || (is_ascii_uppercase(b)
        && b as int + 32 == a as int)
}

/// Equality of texts up to the case of ASCII letters.
pub open spec fn spec_text_eq_ignore_case(a: Seq<char>, b: Seq<char>) -> bool {
    a.len() == b.len() && forall|k: int|
        0 <= k < a.len() ==> spec_eq_ignore_case(#[trigger] a[k], b[k])
}

pub fn is_lowercase_letter(c: char) -> (b: bool)
    ensures
        b == is_ascii_lowercase(c),
{
    'a' <= c && c <= 'z'
}

pub fn word_char(c: char) -> (b: bool)
    ensures
        b == is_word_char(c),
{
    ('a' <= c && c <= 'z') || ('A' <= c && c <= 'Z') || ('0' <= c && c <= '9') || (c > '\u{7f}'
        && c != '\u{201c}' && c != '\u{201d}')
}

pub fn whitespace_char(c: char) -> (b: bool)
    ensures
        b == is_whitespace_char(c),
{
    c == ' ' || c == '\t' || c == '\n' || c == '\r'
}

pub fn punctuation_of(c: char) -> (p: Option<Punctuation>)
    ensures
        p == spec_punctuation_of(c),
{
    if c == '.' {
        Some(Punctuation::Period)
    } else if c == '?' {
        Some(Punctuation::Question)
    } else if c == '!' {
        Some(Punctuation::Bang)
    } else if c == ',' {
        Some(Punctuation::Comma)
    } else if c == ';' {
        Some(Punctuation::Semicolon)
    } else if c == ':' {
        Some(Punctuation::Colon)
    } else if c == '"' || c == '\u{201c}' || c == '\u{201d}' {
        Some(Punctuation::Quote(QuoteSide::Open))
    } else {
        None
    }
}

pub fn eq_ignore_case(a: char, b: char) -> (r: bool)
    ensures
        r == spec_eq_ignore_case(a, b),
{
    let x: u32 = a as u32;
    let y: u32 = b as u32;
    a == b || ('A' <= a && a <= 'Z' && x + 32 == y) || ('A' <= b && b <= 'Z' && y + 32 == x)
}

/// Compares two texts up to the case of ASCII letters.
pub fn text_eq_ignore_case(a: &[char], b: &[char]) -> (r: bool)
    ensures
        r == spec_text_eq_ignore_case(a@, b@),
{
    if a.len() != b.len() {
        return false;
    }
    let mut k: usize = 0;
    while k < a.len()
        invariant
            a@.len() == b@.len(),
            k <= a@.len(),
            forall|j: int| 0 <= j < k ==> spec_eq_ignore_case(#[trigger] a@[j], b@[j]),
        decreases a@.len() - k,
    {
        if !eq_ignore_case(a[k], b[k]) {
            return false;
        }
        k += 1;
    }
    true
}

} // verus!
