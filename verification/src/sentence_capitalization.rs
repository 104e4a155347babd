use vstd::prelude::*;
use vstd::string::StringExecFns;
use crate::document::{
    lemma_unit_end_bounds, sentence_end, spec_sentence_end, spec_tokens, Document,
};
use crate::lint::{lints_view, spans_valid, Lint, LintKind, LintView, Suggestion};
use crate::span::Span;
use crate::text::{ascii_uppercase, is_ascii_lowercase, is_lowercase_letter, spec_ascii_uppercase};
use crate::token::{tokens_tile, Token, TokenKind};

verus! {

/// The index of the first word among the tokens `start..end`, or `end`
/// where there is none.
pub open spec fn spec_first_word(tokens: Seq<Token>, start: int, end: int) -> int
    decreases end - start,
{
    if start < 0 || start >= end || start >= tokens.len() {
        end
    } else if tokens[start].kind == TokenKind::Word {
        start
    } else {
        spec_first_word(tokens, start + 1, end)
    }
}

/// The finding for a sentence whose first word is `word`: it points at the
/// first letter and proposes the capital in its place.
pub open spec fn capitalization_lint(word: Token, source: Seq<char>) -> LintView {
    LintView {
        span: Span { start: word.span.start, end: (word.span.start + 1) as usize },
        lint_kind: LintKind::Capitalization,
        suggestions: seq![seq![spec_ascii_uppercase(source[word.span.start as int])]],
        message: "This sentence does not start with a capital letter"@,
        priority: 31,
    }
}

/// The finding, if any, for the sentence made of the tokens `start..end`:
/// one where its first word begins with an ASCII lower-case letter.
pub open spec fn spec_sentence_lints(
    tokens: Seq<Token>,
    source: Seq<char>,
    start: int,
    end: int,
) -> Seq<LintView> {
    let w = spec_first_word(tokens, start, end);
    if w < end && is_ascii_lowercase(source[tokens[w].span.start as int]) {
        seq![capitalization_lint(tokens[w], source)]
    } else {
        Seq::empty()
    }
}

/// The findings for the sentences that start at token `start` or later.
pub open spec fn spec_capitalization_from(
    tokens: Seq<Token>,
    source: Seq<char>,
    start: int,
) -> Seq<LintView>
    decreases tokens.len() - start,
    via spec_capitalization_from_decreases
{
    if start < 0 || start >= tokens.len() {
        Seq::empty()
    } else {
        spec_sentence_lints(tokens, source, start, spec_sentence_end(tokens, start))
            + spec_capitalization_from(tokens, source, spec_sentence_end(tokens, start))
    }
}

#[via_fn]
proof fn spec_capitalization_from_decreases(tokens: Seq<Token>, source: Seq<char>, start: int) {
    if 0 <= start < tokens.len() {
        lemma_unit_end_bounds(tokens, start, false);
    }
}

/// The findings of the linter on a text, sentence by sentence.
pub open spec fn spec_sentence_capitalization(source: Seq<char>) -> Seq<LintView> {
    spec_capitalization_from(spec_tokens(source), source, 0)
}

pub proof fn lemma_first_word_bounds(tokens: Seq<Token>, start: int, end: int)
    requires
        0 <= start <= end <= tokens.len(),
    ensures
        start <= spec_first_word(tokens, start, end) <= end,
        spec_first_word(tokens, start, end) < end ==> tokens[spec_first_word(
            tokens,
            start,
            end,
        )].kind == TokenKind::Word,
    decreases end - start,
{
    if start < end && tokens[start].kind != TokenKind::Word {
        lemma_first_word_bounds(tokens, start + 1, end);
    }
}

/// Every finding for the sentences from `start` on points inside the text.
pub proof fn lemma_capitalization_spans(tokens: Seq<Token>, source: Seq<char>, start: int)
    requires
        0 <= start <= tokens.len(),
        source.len() <= usize::MAX,
        tokens_tile(tokens, 0, source.len() as int),
    ensures
        spans_valid(spec_capitalization_from(tokens, source, start), source.len()),
    decreases tokens.len() - start,
{
    if start < tokens.len() {
        let end = spec_sentence_end(tokens, start);
        lemma_unit_end_bounds(tokens, start, false);
        lemma_first_word_bounds(tokens, start, end);
        lemma_capitalization_spans(tokens, source, end);
        let head = spec_sentence_lints(tokens, source, start, end);
        let rest = spec_capitalization_from(tokens, source, end);
        let all = spec_capitalization_from(tokens, source, start);
        assert forall|i: int| 0 <= i < all.len() implies (#[trigger] all[i]).span.within(
            source.len(),
        ) by {
            if i >= head.len() {
                assert(all[i] == rest[i - head.len()]);
            }
        }
    }
}

/// Finds the first word among the tokens `start..end`.
pub fn first_word(tokens: &[Token], start: usize, end: usize) -> (w: usize)
    requires
        start <= end <= tokens@.len(),
    ensures
        w == spec_first_word(tokens@, start as int, end as int),
        start <= w <= end,
{
    let mut i: usize = start;
    while i < end
        invariant
            start <= i <= end <= tokens@.len(),
            spec_first_word(tokens@, i as int, end as int) == spec_first_word(
                tokens@,
                start as int,
                end as int,
            ),
        decreases end - i,
    {
        if tokens[i].kind.is_word() {
            return i;
        }
        i += 1;
    }
    i
}

/// Reports every sentence whose first word begins with a lower-case
/// letter.
pub fn sentence_capitalization_lint(document: &Document) -> (lints: Vec<Lint>)
    requires
        document.wf(),
    ensures
        lints_view(lints@) == spec_sentence_capitalization(document.source_text()),
        spans_valid(lints_view(lints@), document.source_text().len()),
{
    let tokens = document.get_tokens();
    let source = document.get_source();
    proof {
        document.lemma_tokens_tile();
        document.lemma_source_fits();
    }
    let mut lints: Vec<Lint> = Vec::new();
    let mut start: usize = 0;
    proof {
        assert(lints_view(lints@) + spec_capitalization_from(tokens@, source@, 0)
            =~= spec_capitalization_from(tokens@, source@, 0));
    }
    while start < tokens.len()
        invariant
            start <= tokens@.len(),
            source@.len() <= usize::MAX,
            tokens_tile(tokens@, 0, source@.len() as int),
            lints_view(lints@) + spec_capitalization_from(tokens@, source@, start as int)
                == spec_capitalization_from(tokens@, source@, 0),
        decreases tokens@.len() - start,
    {
        let end = sentence_end(tokens, start);
        let w = first_word(tokens, start, end);
        let ghost rest = spec_capitalization_from(tokens@, source@, end as int);
        let mut found = false;
        if w < end {
            let word = tokens[w];
            let letter = source[word.span.start];
            if is_lowercase_letter(letter) {
                let mut replacement: Vec<char> = Vec::new();
                replacement.push(ascii_uppercase(letter));
                let mut suggestions: Vec<Suggestion> = Vec::new();
                suggestions.push(Suggestion::ReplaceWith(replacement));
                let lint = Lint {
                    span: Span::new(word.span.start, word.span.start + 1),
                    lint_kind: LintKind::Capitalization,
                    suggestions,
                    message: String::from_str("This sentence does not start with a capital letter"),
                    priority: 31,
                };
                proof {
                    assert(replacement@ =~= seq![spec_ascii_uppercase(letter)]);
                    assert(lint@.suggestions =~= seq![seq![spec_ascii_uppercase(letter)]]);
                    assert(lint@ == capitalization_lint(word, source@));
                    assert(lints_view(lints@.push(lint)) =~= lints_view(lints@).push(lint@));
                    assert(lints_view(lints@).push(lint@) + rest =~= lints_view(lints@) + (
                    seq![lint@] + rest));
                }
                lints.push(lint);
                found = true;
            }
        }
        proof {
            if !found {
                assert(Seq::<LintView>::empty() + rest =~= rest);
            }
        }
        start = end;
    }
    proof {
        assert(lints_view(lints@) + spec_capitalization_from(tokens@, source@, start as int)
            =~= lints_view(lints@));
        lemma_capitalization_spans(tokens@, source@, 0);
    }
    lints
}

} // verus!
