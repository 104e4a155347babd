use vstd::prelude::*;
use crate::span::Span;
use crate::text::{
    chars_of, is_quote_char, is_whitespace_char, is_word_char, punctuation_of,
    spec_punctuation_of, whitespace_char, word_char,
};
use crate::token::{tokens_ordered, tokens_tile, Punctuation, QuoteSide, Token, TokenKind};

verus! {

/// The kind of token that a character belongs to, every quotation mark
/// taken as an opening one.
pub open spec fn classify(c: char) -> TokenKind {
    if is_word_char(c) {
        TokenKind::Word
    } else if is_whitespace_char(c) {
        TokenKind::Whitespace
    } else {
        match spec_punctuation_of(c) {
            Some(p) => TokenKind::Punctuation(p),
            None => TokenKind::Other,
        }
    }
}

/// Words and whitespace form runs; every other character is a token alone.
pub open spec fn forms_runs(kind: TokenKind) -> bool {
    kind == TokenKind::Word || kind == TokenKind::Whitespace
}

/// First position at or after `start` whose character is not of `kind`.
pub open spec fn run_end(source: Seq<char>, start: int, kind: TokenKind) -> int
    decreases source.len() - start,
{
    if 0 <= start < source.len() && classify(source[start]) == kind {
        run_end(source, start + 1, kind)
    } else {
        start
    }
}

/// One past the last character of the token that starts at `start`.
pub open spec fn token_end(source: Seq<char>, start: int) -> int {
    let kind = classify(source[start]);
    if forms_runs(kind) {
        run_end(source, start + 1, kind)
    } else {
        start + 1
    }
}

/// Whether an odd number of the first `n` characters are quotation marks,
/// so that a quotation is open at position `n`.
pub open spec fn inside_quotes(source: Seq<char>, n: int) -> bool
    decreases n,
{
    if n <= 0 || n > source.len() {
        false
    } else {
        inside_quotes(source, n - 1) != is_quote_char(source[n - 1])
    }
}

/// The kind of the token that starts at `start`: that of its first
/// character, but for a quotation mark inside a quotation, which closes it.
pub open spec fn kind_at(source: Seq<char>, start: int) -> TokenKind {
    if is_quote_char(source[start]) && inside_quotes(source, start) {
        TokenKind::Punctuation(Punctuation::Quote(QuoteSide::Close))
    } else {
        classify(source[start])
    }
}

/// The token that starts at `start`.
pub open spec fn token_at(source: Seq<char>, start: int) -> Token {
    Token {
        span: Span { start: start as usize, end: token_end(source, start) as usize },
        kind: kind_at(source, start),
    }
}

/// The tokens of `source` from position `start` on.
pub open spec fn spec_tokens_from(source: Seq<char>, start: int) -> Seq<Token>
    decreases source.len() - start,
    via spec_tokens_from_decreases
{
    if 0 <= start < source.len() {
        seq![token_at(source, start)] + spec_tokens_from(source, token_end(source, start))
    } else {
        Seq::empty()
    }
}

#[via_fn]
proof fn spec_tokens_from_decreases(source: Seq<char>, start: int) {
    if 0 <= start < source.len() {
        lemma_token_end_bounds(source, start);
    }
}

/// The tokens of a text.
pub open spec fn spec_tokens(source: Seq<char>) -> Seq<Token> {
    spec_tokens_from(source, 0)
}

pub proof fn lemma_run_end_bounds(source: Seq<char>, start: int, kind: TokenKind)
    requires
        0 <= start <= source.len(),
    ensures
        start <= run_end(source, start, kind) <= source.len(),
    decreases source.len() - start,
{
    if start < source.len() && classify(source[start]) == kind {
        lemma_run_end_bounds(source, start + 1, kind);
    }
}

pub proof fn lemma_token_end_bounds(source: Seq<char>, start: int)
    requires
        0 <= start < source.len(),
    ensures
        start < token_end(source, start) <= source.len(),
{
    lemma_run_end_bounds(source, start + 1, classify(source[start]));
}

/// Tokenization accounts for every character: the tokens from `start` on
/// are non-empty and cover the rest of the text without gap or overlap.
pub proof fn lemma_tokens_tile(source: Seq<char>, start: int)
    requires
        0 <= start <= source.len() <= usize::MAX,
    ensures
        tokens_tile(spec_tokens_from(source, start), start, source.len() as int),
        forall|i: int|
            0 <= i < spec_tokens_from(source, start).len() ==> start <= (
            #[trigger] spec_tokens_from(source, start)[i]).span.start,
    decreases source.len() - start,
{
    if start < source.len() {
        let end = token_end(source, start);
        lemma_token_end_bounds(source, start);
        lemma_tokens_tile(source, end);
        let rest = spec_tokens_from(source, end);
        let all = spec_tokens_from(source, start);
        assert(all[0] == token_at(source, start));
        assert(forall|i: int| 1 <= i < all.len() ==> all[i] == rest[i - 1]);
        assert(all.len() == rest.len() + 1);
        if rest.len() > 0 {
            assert(all.last() == rest.last());
            assert(all[1] == rest[0]);
        }
        assert forall|i: int, j: int| 0 <= i < j < all.len() implies (#[trigger] all[i]).span.end
            <= (#[trigger] all[j]).span.start by {
            assert(all[j] == rest[j - 1]);
            if i > 0 {
                assert(all[i] == rest[i - 1]);
            }
        }
        assert forall|i: int, j: int| 0 <= i && j == i + 1 && j < all.len() implies (
        #[trigger] all[i]).span.end == (#[trigger] all[j]).span.start by {
            assert(all[j] == rest[j - 1]);
            if i > 0 {
                assert(all[i] == rest[i - 1]);
            }
        }
        assert forall|i: int| 0 <= i < all.len() implies start <= (#[trigger] all[i]).span.start
            < all[i].span.end <= source.len() by {
            if i > 0 {
                assert(all[i] == rest[i - 1]);
            }
        }
    }
}

/// Classifies one character.
pub fn kind_of(c: char) -> (kind: TokenKind)
    ensures
        kind == classify(c),
{
    if word_char(c) {
        TokenKind::Word
    } else if whitespace_char(c) {
        TokenKind::Whitespace
    } else {
        match punctuation_of(c) {
            Some(p) => TokenKind::Punctuation(p),
            None => TokenKind::Other,
        }
    }
}

/// Splits a text into tokens. The result is a function of the text alone,
/// and the empty text has no tokens.
pub fn tokenize(source: &[char]) -> (tokens: Vec<Token>)
    ensures
        tokens@ == spec_tokens(source@),
        tokens_tile(tokens@, 0, source@.len() as int),
        tokens_ordered(tokens@, source@.len() as int),
{
    let mut tokens: Vec<Token> = Vec::new();
    let mut pos: usize = 0;
    let mut inside = false;
    while pos < source.len()
        invariant
            pos <= source@.len(),
            inside == inside_quotes(source@, pos as int),
            tokens@ + spec_tokens_from(source@, pos as int) == spec_tokens(source@),
        decreases source@.len() - pos,
    {
        let first = kind_of(source[pos]);
        let mut end: usize = pos + 1;
        let mut kind = first;
        match first {
            TokenKind::Word | TokenKind::Whitespace => {
                while end < source.len() && kind_of(source[end]) == first
                    invariant
                        pos < end <= source@.len(),
                        forms_runs(first),
                        inside == inside_quotes(source@, end as int),
                        run_end(source@, end as int, first) == run_end(source@, pos + 1, first),
                    decreases source@.len() - end,
                {
                    end += 1;
                }
            },
            TokenKind::Punctuation(Punctuation::Quote(_)) => {
                if inside {
                    kind = TokenKind::Punctuation(Punctuation::Quote(QuoteSide::Close));
                }
                inside = !inside;
            },
            _ => {},
        }
        let token = Token { span: Span::new(pos, end), kind };
        proof {
            assert(end == token_end(source@, pos as int));
            assert(token == token_at(source@, pos as int));
            assert(tokens@.push(token) + spec_tokens_from(source@, end as int) =~= tokens@
                + spec_tokens_from(source@, pos as int));
        }
        tokens.push(token);
        pos = end;
    }
    proof {
        assert(tokens@ + spec_tokens_from(source@, pos as int) =~= tokens@);
        lemma_tokens_tile(source@, 0);
    }
    tokens
}

/// One past the first token at or after `start` that ends a unit of text:
/// a clause where `clauses` is set, a sentence where it is not. Where no
/// such token follows, the unit runs to the last token.
pub open spec fn spec_unit_end(tokens: Seq<Token>, start: int, clauses: bool) -> int
    decreases tokens.len() - start,
{
    if start < 0 || start >= tokens.len() {
        tokens.len() as int
    } else if ends_unit(tokens[start].kind, clauses) {
        start + 1
    } else {
        spec_unit_end(tokens, start + 1, clauses)
    }
}

pub open spec fn ends_unit(kind: TokenKind, clauses: bool) -> bool {
    if clauses {
        kind.spec_ends_clause()
    } else {
        kind.spec_ends_sentence()
    }
}

/// One past the token that ends the sentence in which token `start` lies.
pub open spec fn spec_sentence_end(tokens: Seq<Token>, start: int) -> int {
    spec_unit_end(tokens, start, false)
}

/// One past the token that ends the clause in which token `start` lies.
pub open spec fn spec_clause_end(tokens: Seq<Token>, start: int) -> int {
    spec_unit_end(tokens, start, true)
}

pub proof fn lemma_unit_end_bounds(tokens: Seq<Token>, start: int, clauses: bool)
    requires
        0 <= start <= tokens.len(),
    ensures
        start <= spec_unit_end(tokens, start, clauses) <= tokens.len(),
        start < tokens.len() ==> start < spec_unit_end(tokens, start, clauses),
    decreases tokens.len() - start,
{
    if start < tokens.len() && !ends_unit(tokens[start].kind, clauses) {
        lemma_unit_end_bounds(tokens, start + 1, clauses);
    }
}

fn unit_end(tokens: &[Token], start: usize, clauses: bool) -> (end: usize)
    requires
        start < tokens@.len(),
    ensures
        end == spec_unit_end(tokens@, start as int, clauses),
        start < end <= tokens@.len(),
{
    let mut i: usize = start;
    while i < tokens.len()
        invariant
            start <= i <= tokens@.len(),
            spec_unit_end(tokens@, i as int, clauses) == spec_unit_end(
                tokens@,
                start as int,
                clauses,
            ),
        decreases tokens@.len() - i,
    {
        let ends = if clauses {
            tokens[i].kind.ends_clause()
        } else {
            tokens[i].kind.ends_sentence()
        };
        if ends {
            return i + 1;
        }
        i += 1;
    }
    proof {
        lemma_unit_end_bounds(tokens@, start as int, clauses);
    }
    i
}

/// Finds the end of the sentence in which token `start` lies.
pub fn sentence_end(tokens: &[Token], start: usize) -> (end: usize)
    requires
        start < tokens@.len(),
    ensures
        end == spec_sentence_end(tokens@, start as int),
        start < end <= tokens@.len(),
{
    unit_end(tokens, start, false)
}

/// Finds the end of the clause in which token `start` lies.
pub fn clause_end(tokens: &[Token], start: usize) -> (end: usize)
    requires
        start < tokens@.len(),
    ensures
        end == spec_clause_end(tokens@, start as int),
        start < end <= tokens@.len(),
{
    unit_end(tokens, start, true)
}

/// The sentences of a token list from token `start` on, each as the range
/// of its tokens. A sentence runs through the mark that ends it; what
/// follows the last such mark is a sentence of its own.
pub open spec fn spec_sentences_from(tokens: Seq<Token>, start: int) -> Seq<(int, int)>
    decreases tokens.len() - start,
    via spec_sentences_from_decreases
{
    if start < 0 || start >= tokens.len() {
        Seq::empty()
    } else {
        seq![(start, spec_sentence_end(tokens, start))] + spec_sentences_from(
            tokens,
            spec_sentence_end(tokens, start),
        )
    }
}

#[via_fn]
proof fn spec_sentences_from_decreases(tokens: Seq<Token>, start: int) {
    if 0 <= start < tokens.len() {
        lemma_unit_end_bounds(tokens, start, false);
    }
}

/// The sentence ranges as pairs of machine offsets.
pub open spec fn bounds_view(bounds: Seq<(usize, usize)>) -> Seq<(int, int)> {
    bounds.map_values(|b: (usize, usize)| (b.0 as int, b.1 as int))
}

/// A text together with its tokens. A document is built once and never
/// changes afterwards.
pub struct Document {
    source: Vec<char>,
    tokens: Vec<Token>,
}

impl Document {
    /// The characters of the text.
    pub closed spec fn source_text(&self) -> Seq<char> {
        self.source@
    }

    /// The tokens of the text.
    pub closed spec fn token_seq(&self) -> Seq<Token> {
        self.tokens@
    }

    /// The tokens are those of the text.
    pub open spec fn wf(&self) -> bool {
        self.token_seq() == spec_tokens(self.source_text())
    }

    /// Tokenizes `text`.
    pub fn new(text: &str) -> (doc: Document)
        ensures
            doc.wf(),
            doc.source_text() == text@,
    {
        Document::from_chars(chars_of(text))
    }

    /// Tokenizes a text given by its characters.
    pub fn from_chars(source: Vec<char>) -> (doc: Document)
        ensures
            doc.wf(),
            doc.source_text() == source@,
    {
        let tokens = tokenize(source.as_slice());
        Document { source, tokens }
    }

    pub fn get_source(&self) -> (source: &[char])
        ensures
            source@ == self.source_text(),
    {
        self.source.as_slice()
    }

    pub fn get_tokens(&self) -> (tokens: &[Token])
        ensures
            tokens@ == self.token_seq(),
            self.wf() ==> tokens_tile(tokens@, 0, self.source_text().len() as int),
    {
        proof {
            if self.wf() {
                self.lemma_tokens_tile();
            }
        }
        self.tokens.as_slice()
    }

    /// The sentences of the document, each as the range of its tokens, in
    /// text order. They are never empty and together hold every token.
    pub fn sentences(&self) -> (bounds: Vec<(usize, usize)>)
        ensures
            bounds_view(bounds@) == spec_sentences_from(self.token_seq(), 0),
    {
        let tokens = self.tokens.as_slice();
        let mut bounds: Vec<(usize, usize)> = Vec::new();
        let mut start: usize = 0;
        proof {
            assert(bounds_view(bounds@) + spec_sentences_from(tokens@, 0) =~= spec_sentences_from(
                tokens@,
                0,
            ));
        }
        while start < tokens.len()
            invariant
                start <= tokens@.len(),
                bounds_view(bounds@) + spec_sentences_from(tokens@, start as int)
                    == spec_sentences_from(tokens@, 0),
            decreases tokens@.len() - start,
        {
            let end = sentence_end(tokens, start);
            proof {
                let rest = spec_sentences_from(tokens@, end as int);
                assert(bounds_view(bounds@.push((start, end))) =~= bounds_view(bounds@).push(
                    (start as int, end as int),
                ));
                assert(bounds_view(bounds@).push((start as int, end as int)) + rest
                    =~= bounds_view(bounds@) + (seq![(start as int, end as int)] + rest));
            }
            bounds.push((start, end));
            start = end;
        }
        proof {
            assert(bounds_view(bounds@) + spec_sentences_from(tokens@, start as int)
                =~= bounds_view(bounds@));
        }
        bounds
    }

    /// The text of a document fits the machine's address space.
    pub proof fn lemma_source_fits(&self)
        ensures
            self.source_text().len() <= usize::MAX,
    {
        assert(self.source@.len() == self.source.len());
    }

    /// The tokens of a document tile its text.
    pub proof fn lemma_tokens_tile(&self)
        requires
            self.wf(),
        ensures
            tokens_tile(self.token_seq(), 0, self.source_text().len() as int),
            tokens_ordered(self.token_seq(), self.source_text().len() as int),
    {
        assert(self.source@.len() == self.source.len());
        lemma_tokens_tile(self.source@, 0);
    }
}

/// Tokenizing equal texts gives equal tokens, span for span.
pub proof fn lemma_tokenization_repeatable(a: Document, b: Document)
    requires
        a.wf(),
        b.wf(),
        a.source_text() == b.source_text(),
    ensures
        a.token_seq() == b.token_seq(),
{
}

} // verus!
