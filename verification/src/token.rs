use vstd::prelude::*;
use crate::span::Span;

verus! {

/// Whether a quotation mark opens a quotation or closes one. The marks of
/// a text pair up in text order: the first opens, the second closes, the
/// third opens again.
#[derive(Clone, Copy, Debug, PartialEq, Eq, Structural)]
pub enum QuoteSide {
    Open,
    Close,
}

/// The punctuation marks that the tokenizer tells apart.
#[derive(Clone, Copy, Debug, PartialEq, Eq, Structural)]
pub enum Punctuation {
    Period,
    Question,
    Bang,
    Comma,
    Semicolon,
    Colon,
    Quote(QuoteSide),
}

/// What a token is.
#[derive(Clone, Copy, Debug, PartialEq, Eq, Structural)]
pub enum TokenKind {
    /// A run of word characters; its text is the token's span of the source.
    Word,
    /// A single punctuation mark.
    Punctuation(Punctuation),
    /// A run of blanks, tabs and line breaks.
    Whitespace,
    /// Any other single character.
    Other,
}

/// A classified piece of the text.
#[derive(Clone, Copy, Debug, PartialEq, Eq, Structural)]
pub struct Token {
    pub span: Span,
    pub kind: TokenKind,
}

impl Punctuation {
    /// Marks that end a sentence.
    pub open spec fn spec_ends_sentence(self) -> bool {
        self == Punctuation::Period || self == Punctuation::Question || self == Punctuation::Bang
    }

    pub fn ends_sentence(&self) -> (b: bool)
        ensures
            b == self.spec_ends_sentence(),
    {
        match self {
            Punctuation::Period | Punctuation::Question | Punctuation::Bang => true,
            _ => false,
        }
    }
}

impl TokenKind {
    pub open spec fn spec_is_word(self) -> bool {
        self == TokenKind::Word
    }

    pub open spec fn spec_is_punctuation(self, mark: Punctuation) -> bool {
        self == TokenKind::Punctuation(mark)
    }

    /// The token is a quotation mark, of either side.
    pub open spec fn spec_is_quote(self) -> bool {
        self == TokenKind::Punctuation(Punctuation::Quote(QuoteSide::Open)) || self
            == TokenKind::Punctuation(Punctuation::Quote(QuoteSide::Close))
    }

    /// The token ends a sentence.
    pub open spec fn spec_ends_sentence(self) -> bool {
        match self {
            TokenKind::Punctuation(p) => p.spec_ends_sentence(),
            _ => false,
        }
    }

    /// The token ends a clause: a comma, or whatever ends a sentence.
    pub open spec fn spec_ends_clause(self) -> bool {
        self == TokenKind::Punctuation(Punctuation::Comma) || self.spec_ends_sentence()
    }

    pub fn is_word(&self) -> (b: bool)
        ensures
            b == self.spec_is_word(),
    {
        match self {
            TokenKind::Word => true,
            _ => false,
        }
    }

    pub fn is_punctuation(&self, mark: Punctuation) -> (b: bool)
        ensures
            b == self.spec_is_punctuation(mark),
    {
        match self {
            TokenKind::Punctuation(p) => *p == mark,
            _ => false,
        }
    }

    pub fn is_quote(&self) -> (b: bool)
        ensures
            b == self.spec_is_quote(),
    {
        match self {
            TokenKind::Punctuation(Punctuation::Quote(_)) => true,
            _ => false,
        }
    }

    pub fn ends_sentence(&self) -> (b: bool)
        ensures
            b == self.spec_ends_sentence(),
    {
        match self {
            TokenKind::Punctuation(p) => p.ends_sentence(),
            _ => false,
        }
    }

    pub fn ends_clause(&self) -> (b: bool)
        ensures
            b == self.spec_ends_clause(),
    {
        match self {
            TokenKind::Punctuation(Punctuation::Comma) => true,
            TokenKind::Punctuation(p) => p.ends_sentence(),
            _ => false,
        }
    }
}

/// Every token lies inside a text of `len` characters and the tokens come
/// in text order without overlap.
pub open spec fn tokens_ordered(tokens: Seq<Token>, len: int) -> bool {
    &&& forall|i: int|
        0 <= i < tokens.len() ==> (#[trigger] tokens[i]).span.start <= tokens[i].span.end <= len
    &&& forall|i: int, j: int|
        0 <= i < j < tokens.len() ==> (#[trigger] tokens[i]).span.end <= (
        #[trigger] tokens[j]).span.start
}

/// Every token selects at least one character of a text of `len`
/// characters, and the tokens follow one another without gap or overlap
/// from position `from` to the last character.
pub open spec fn tokens_tile(tokens: Seq<Token>, from: int, len: int) -> bool {
    &&& tokens_ordered(tokens, len)
    &&& tokens.len() == 0 ==> from >= len
    &&& tokens.len() > 0 ==> tokens[0].span.start == from && tokens.last().span.end == len
    &&& forall|i: int|
        0 <= i < tokens.len() ==> (#[trigger] tokens[i]).span.start < tokens[i].span.end
    &&& forall|i: int, j: int|
        0 <= i && j == i + 1 && j < tokens.len() ==> (#[trigger] tokens[i]).span.end == (
        #[trigger] tokens[j]).span.start
}

} // verus!
