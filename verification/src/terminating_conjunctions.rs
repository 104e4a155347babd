use vstd::prelude::*;
use vstd::string::StringExecFns;
use crate::document::{
    lemma_unit_end_bounds, spec_clause_end, spec_tokens, spec_unit_end, Document,
};
use crate::lint::{lints_view, spans_valid, Lint, LintKind, LintView, Suggestion};
use crate::linting::{
    lemma_matches_disjoint, lint_with_pattern, spec_match_len, spec_matches, spec_pattern_lints,
    PatternLinter,
};
use crate::patterns::{
    and_then_consumed, spec_match_steps, spec_word_in, words_view, Pattern, PatternView,
};
use crate::span::Span;
use crate::text::chars_of;
use crate::token::{Punctuation, Token, TokenKind};

verus! {

/// Flags a conjunction that stands right before the comma that ends its
/// clause, as in "more often than, we ...". The linter is not part of the
/// registry: a host runs it by itself.
pub struct TerminatingConjunctions {
    pattern: Pattern,
}

/// The words that must not end a clause, lower case.
pub open spec fn conjunctions() -> Seq<Seq<char>> {
    seq![
        "after"@,
        "although"@,
        "as"@,
        "because"@,
        "before"@,
        "if"@,
        "lest"@,
        "once"@,
        "only"@,
        "since"@,
        "so"@,
        "supposing"@,
        "than"@,
        "though"@,
        "till"@,
        "unless"@,
        "until"@,
        "when"@,
        "whenever"@,
        "where"@,
        "whereas"@,
        "wherever"@,
        "whether"@,
        "not"@,
        "while"@,
        "or"@,
        "nor"@,
        "so"@,
        "and"@,
    ]
}

/// One of the words followed by a comma; a match takes the rest of its
/// clause.
pub open spec fn conjunction_rule() -> PatternView {
    PatternView::ConsumesRemaining(
        Box::new(
            PatternView::Sequence(
                seq![
                    PatternView::AnyWordIn(conjunctions()),
                    PatternView::Punctuation(Punctuation::Comma),
                ],
            ),
        ),
    )
}

/// The range of text from the first of the tokens to the last.
pub open spec fn spec_tokens_span(tokens: Seq<Token>) -> Span {
    Span { start: tokens[0].span.start, end: tokens.last().span.end }
}

/// The finding for one match: it covers the matched tokens and quotes
/// their text.
pub open spec fn conjunction_lint(matched_tokens: Seq<Token>, source: Seq<char>) -> LintView {
    LintView {
        span: spec_tokens_span(matched_tokens),
        lint_kind: LintKind::Miscellaneous,
        suggestions: Seq::empty(),
        message: "Subordinating conjunctions like \u{201c}"@ + spec_tokens_span(
            matched_tokens,
        ).content(source) + "\u{201d} should not appear at the end of a clause."@,
        priority: 63,
    }
}

/// The findings of the linter on a text.
pub open spec fn spec_terminating_conjunctions(source: Seq<char>) -> Seq<LintView> {
    spec_matches(conjunction_rule(), spec_tokens(source), source, 0).map_values(
        |m: (int, int)| conjunction_lint(spec_tokens(source).subrange(m.0, m.1), source),
    )
}

/// Whether token `cursor` is one of the words and the next token a comma.
pub open spec fn conjunction_before_comma(
    tokens: Seq<Token>,
    source: Seq<char>,
    cursor: int,
) -> bool {
    &&& 0 <= cursor && cursor + 1 < tokens.len()
    &&& tokens[cursor].kind == TokenKind::Word
    &&& spec_word_in(conjunctions(), tokens[cursor].span.content(source))
    &&& tokens[cursor + 1].kind == TokenKind::Punctuation(Punctuation::Comma)
}

/// On any window the rule matches exactly where the window starts with one
/// of the words followed by a comma, and a match takes the whole window.
pub proof fn lemma_conjunction_rule_match(window: Seq<Token>, source: Seq<char>)
    ensures
        conjunction_rule().spec_match(window, source) == if conjunction_before_comma(
            window,
            source,
            0,
        ) {
            Some(window.len())
        } else {
            None
        },
{
    let steps = seq![
        PatternView::AnyWordIn(conjunctions()),
        PatternView::Punctuation(Punctuation::Comma),
    ];
    let inner = PatternView::Sequence(steps);
    let rest = window.skip(1);
    assert(steps.len() == 2);
    assert(steps[0] == PatternView::AnyWordIn(conjunctions()));
    assert(steps[1] == PatternView::Punctuation(Punctuation::Comma));
    assert(conjunction_rule().spec_match(window, source) == match inner.spec_match(
        window,
        source,
    ) {
        Some(_) => Some(window.len()),
        None => None,
    });
    assert(inner.spec_match(window, source) == match spec_match_steps(steps, 0, window, source) {
        Some(k) => if k > 0 {
            Some(k)
        } else {
            None
        },
        None => None,
    });
    assert(spec_match_steps(steps, 2, rest.skip(1), source) == Some(0nat));
    assert(spec_match_steps(steps, 1, rest, source) == match steps[1].spec_match(rest, source) {
        None => None,
        Some(k) => and_then_consumed(k, spec_match_steps(steps, 2, rest.skip(k as int), source)),
    });
    assert(spec_match_steps(steps, 0, window, source) == match steps[0].spec_match(
        window,
        source,
    ) {
        None => None,
        Some(k) => and_then_consumed(k, spec_match_steps(steps, 1, window.skip(k as int), source)),
    });
    if window.len() > 1 {
        assert(rest[0] == window[1]);
    }
}

/// Anchored at a token, the rule consumes two tokens where the token is
/// one of the words and a comma follows it, the word and the comma, and
/// does not match anywhere else.
pub proof fn lemma_conjunction_match_len(tokens: Seq<Token>, source: Seq<char>, cursor: int)
    requires
        0 <= cursor < tokens.len(),
    ensures
        spec_match_len(conjunction_rule(), tokens, source, cursor) == if conjunction_before_comma(
            tokens,
            source,
            cursor,
        ) {
            2nat
        } else {
            0nat
        },
{
    let end = spec_clause_end(tokens, cursor);
    let window = tokens.subrange(cursor, end);
    lemma_unit_end_bounds(tokens, cursor, true);
    lemma_conjunction_rule_match(window, source);
    reveal_with_fuel(spec_unit_end, 3);
    assert(window[0] == tokens[cursor]);
    if window.len() > 1 {
        assert(window[1] == tokens[cursor + 1]);
    }
}

/// The finding for the word at token `cursor` and the comma behind it: it
/// runs from the start of the word to the end of the comma.
pub open spec fn conjunction_lint_at(tokens: Seq<Token>, source: Seq<char>, cursor: int) -> LintView {
    let span = Span { start: tokens[cursor].span.start, end: tokens[cursor + 1].span.end };
    LintView {
        span,
        lint_kind: LintKind::Miscellaneous,
        suggestions: Seq::empty(),
        message: "Subordinating conjunctions like \u{201c}"@ + span.content(source)
            + "\u{201d} should not appear at the end of a clause."@,
        priority: 63,
    }
}

/// One finding for each token from `cursor` on that is one of the words
/// and stands directly before a comma, in text order.
pub open spec fn spec_conjunctions_from(
    tokens: Seq<Token>,
    source: Seq<char>,
    cursor: int,
) -> Seq<LintView>
    decreases tokens.len() - cursor,
{
    if cursor < 0 || cursor >= tokens.len() {
        Seq::empty()
    } else {
        (if conjunction_before_comma(tokens, source, cursor) {
            seq![conjunction_lint_at(tokens, source, cursor)]
        } else {
            Seq::empty()
        }) + spec_conjunctions_from(tokens, source, cursor + 1)
    }
}

/// The findings that a list of matches gives.
pub open spec fn conjunction_lints_of(
    matches: Seq<(int, int)>,
    tokens: Seq<Token>,
    source: Seq<char>,
) -> Seq<LintView> {
    matches.map_values(|m: (int, int)| conjunction_lint(tokens.subrange(m.0, m.1), source))
}

/// From any token on, the scan with the rule finds one finding for each
/// of the words that stands directly before a comma.
pub proof fn lemma_conjunctions_from(tokens: Seq<Token>, source: Seq<char>, cursor: int)
    requires
        0 <= cursor,
    ensures
        conjunction_lints_of(spec_matches(conjunction_rule(), tokens, source, cursor), tokens, source)
            == spec_conjunctions_from(tokens, source, cursor),
    decreases tokens.len() - cursor,
{
    let found = conjunction_lints_of(
        spec_matches(conjunction_rule(), tokens, source, cursor),
        tokens,
        source,
    );
    if cursor < tokens.len() {
        lemma_conjunction_match_len(tokens, source, cursor);
        if conjunction_before_comma(tokens, source, cursor) {
            lemma_conjunctions_from(tokens, source, cursor + 2);
            let rest = spec_matches(conjunction_rule(), tokens, source, cursor + 2);
            let matched = tokens.subrange(cursor, cursor + 2);
            assert(matched[0] == tokens[cursor]);
            assert(matched.last() == tokens[cursor + 1]);
            assert(conjunction_lint(matched, source) == conjunction_lint_at(tokens, source, cursor));
            assert(spec_matches(conjunction_rule(), tokens, source, cursor) == seq![
                (cursor, cursor + 2),
            ] + rest);
            assert(found =~= seq![conjunction_lint_at(tokens, source, cursor)]
                + conjunction_lints_of(rest, tokens, source));
            assert(!conjunction_before_comma(tokens, source, cursor + 1));
            assert(spec_conjunctions_from(tokens, source, cursor + 1) =~= spec_conjunctions_from(
                tokens,
                source,
                cursor + 2,
            ));
        } else {
            lemma_conjunctions_from(tokens, source, cursor + 1);
            assert(found =~= spec_conjunctions_from(tokens, source, cursor));
        }
    } else {
        assert(found =~= spec_conjunctions_from(tokens, source, cursor));
    }
}

/// The findings of the linter are exactly these: one for each of the
/// words that stands directly before a comma, from the start of the word
/// to the end of the comma, in text order.
pub proof fn lemma_terminating_conjunctions_direct(source: Seq<char>)
    ensures
        spec_terminating_conjunctions(source) == spec_conjunctions_from(
            spec_tokens(source),
            source,
            0,
        ),
{
    lemma_conjunctions_from(spec_tokens(source), source, 0);
    assert(spec_terminating_conjunctions(source) =~= conjunction_lints_of(
        spec_matches(conjunction_rule(), spec_tokens(source), source, 0),
        spec_tokens(source),
        source,
    ));
}

/// Every finding of the linter points inside the text.
pub proof fn lemma_terminating_conjunctions_spans(source: Seq<char>)
    requires
        source.len() <= usize::MAX,
    ensures
        spans_valid(spec_terminating_conjunctions(source), source.len()),
{
    let tokens = spec_tokens(source);
    let matches = spec_matches(conjunction_rule(), tokens, source, 0);
    crate::document::lemma_tokens_tile(source, 0);
    lemma_matches_disjoint(conjunction_rule(), tokens, source, 0);
    assert forall|i: int| 0 <= i < spec_terminating_conjunctions(source).len() implies (
    #[trigger] spec_terminating_conjunctions(source)[i]).span.within(source.len()) by {
        let m = matches[i];
        let matched = tokens.subrange(m.0, m.1);
        assert(matched[0] == tokens[m.0]);
        assert(matched.last() == tokens[m.1 - 1]);
    }
}

/// The findings of the linter come in text order and no two of them share
/// a character: each ends where the next one starts or before.
pub proof fn lemma_terminating_conjunctions_disjoint(source: Seq<char>, i: int, j: int)
    requires
        source.len() <= usize::MAX,
        0 <= i < j < spec_terminating_conjunctions(source).len(),
    ensures
        spec_terminating_conjunctions(source)[i].span.end <= spec_terminating_conjunctions(
            source,
        )[j].span.start,
        !spec_terminating_conjunctions(source)[i].span.spec_overlaps_with(
            spec_terminating_conjunctions(source)[j].span,
        ),
{
    let tokens = spec_tokens(source);
    let matches = spec_matches(conjunction_rule(), tokens, source, 0);
    crate::document::lemma_tokens_tile(source, 0);
    lemma_matches_disjoint(conjunction_rule(), tokens, source, 0);
    let a = matches[i];
    let b = matches[j];
    assert(a.1 <= b.0);
    assert(tokens.subrange(a.0, a.1).last() == tokens[a.1 - 1]);
    assert(tokens.subrange(b.0, b.1)[0] == tokens[b.0]);
}

impl TerminatingConjunctions {
    /// The linter holds the rule of the conjunctions.
    pub open spec fn wf(&self) -> bool {
        self.spec_pattern() == conjunction_rule()
    }

    /// Runs the linter on a document.
    pub fn lint(&self, document: &Document) -> (lints: Vec<Lint>)
        requires
            self.wf(),
            document.wf(),
        ensures
            lints_view(lints@) == spec_terminating_conjunctions(document.source_text()),
            spans_valid(lints_view(lints@), document.source_text().len()),
    {
        let lints = lint_with_pattern(self, document);
        proof {
            assert(spec_pattern_lints(self, document.token_seq(), document.source_text())
                =~= spec_terminating_conjunctions(document.source_text()));
            document.lemma_source_fits();
            lemma_terminating_conjunctions_spans(document.source_text());
        }
        lints
    }
}

impl Default for TerminatingConjunctions {
    fn default() -> (linter: Self)
        ensures
            linter.wf(),
    {
        let mut words: Vec<Vec<char>> = Vec::new();
        words.push(chars_of("after"));
        words.push(chars_of("although"));
        words.push(chars_of("as"));
        words.push(chars_of("because"));
        words.push(chars_of("before"));
        words.push(chars_of("if"));
        words.push(chars_of("lest"));
        words.push(chars_of("once"));
        words.push(chars_of("only"));
        words.push(chars_of("since"));
        words.push(chars_of("so"));
        words.push(chars_of("supposing"));
        words.push(chars_of("than"));
        words.push(chars_of("though"));
        words.push(chars_of("till"));
        words.push(chars_of("unless"));
        words.push(chars_of("until"));
        words.push(chars_of("when"));
        words.push(chars_of("whenever"));
        words.push(chars_of("where"));
        words.push(chars_of("whereas"));
        words.push(chars_of("wherever"));
        words.push(chars_of("whether"));
        words.push(chars_of("not"));
        words.push(chars_of("while"));
        words.push(chars_of("or"));
        words.push(chars_of("nor"));
        words.push(chars_of("so"));
        words.push(chars_of("and"));
        proof {
            assert(words_view(words@) =~= conjunctions());
        }
        let pattern = Pattern::consumes_remaining(
            Pattern::sequence().then_any_word_in(words).then_comma(),
        );
        proof {
            assert(Seq::<PatternView>::empty().push(PatternView::AnyWordIn(conjunctions())).push(
                PatternView::Punctuation(Punctuation::Comma),
            ) =~= seq![
                PatternView::AnyWordIn(conjunctions()),
                PatternView::Punctuation(Punctuation::Comma),
            ]);
        }
        TerminatingConjunctions { pattern }
    }
}

impl PatternLinter for TerminatingConjunctions {
    closed spec fn spec_pattern(&self) -> PatternView {
        self.pattern@
    }

    open spec fn spec_match_to_lint(
        &self,
        matched_tokens: Seq<Token>,
        source: Seq<char>,
    ) -> LintView {
        conjunction_lint(matched_tokens, source)
    }

    fn pattern(&self) -> (p: &Pattern) {
        &self.pattern
    }

    fn match_to_lint(&self, matched_tokens: &[Token], source: &[char]) -> (lint: Lint) {
        let first = matched_tokens[0].span;
        let last = matched_tokens[matched_tokens.len() - 1].span;
        let span = Span::new(first.start, last.end);
        let word = span.get_content_string(source);
        let mut message = String::from_str("Subordinating conjunctions like \u{201c}");
        message.append(word.as_str());
        message.append("\u{201d} should not appear at the end of a clause.");
        let suggestions: Vec<Suggestion> = Vec::new();
        let lint = Lint {
            span,
            lint_kind: LintKind::Miscellaneous,
            suggestions,
            message,
            priority: 63,
        };
        proof {
            assert(lint@.suggestions =~= Seq::<Seq<char>>::empty());
        }
        lint
    }
}

} // verus!
