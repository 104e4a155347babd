use vstd::prelude::*;
use vstd::slice::slice_subrange;
use crate::document::{
    clause_end, lemma_tokens_tile, lemma_unit_end_bounds, spec_clause_end, spec_tokens, Document,
};
use crate::lint::{lints_view, spans_valid, Lint, LintView};
use crate::patterns::{words_view, Pattern, PatternView};
use crate::spell_check::{lemma_spell_check_spans, spec_spell_check, spell_check};
use crate::sentence_capitalization::{
    lemma_capitalization_spans, sentence_capitalization_lint, spec_sentence_capitalization,
};
use crate::terminating_conjunctions::{spec_terminating_conjunctions, TerminatingConjunctions};
use crate::token::{tokens_ordered, Token};
use crate::unclosed_quotes::{lemma_unclosed_quotes_spans, spec_unclosed_quotes, unclosed_quotes};

verus! {

/// A linter made of a pattern and of a rule that turns each match of the
/// pattern into a finding.
pub trait PatternLinter {
    /// The pattern, as a mathematical value.
    spec fn spec_pattern(&self) -> PatternView;

    /// The finding that a match gives.
    spec fn spec_match_to_lint(&self, matched_tokens: Seq<Token>, source: Seq<char>) -> LintView;

    /// The pattern that is slid over the tokens.
    fn pattern(&self) -> (p: &Pattern)
        ensures
            p@ == self.spec_pattern(),
    ;

    /// Turns the tokens of one match into a finding. The tokens are never
    /// empty and come from the text `source`.
    fn match_to_lint(&self, matched_tokens: &[Token], source: &[char]) -> (lint: Lint)
        requires
            matched_tokens@.len() > 0,
            tokens_ordered(matched_tokens@, source@.len() as int),
        ensures
            lint@ == self.spec_match_to_lint(matched_tokens@, source@),
    ;
}

/// How many tokens the pattern consumes when anchored at token `cursor`:
/// the window it is tried on runs from there to the end of the clause, so
/// that a match never leaves the clause in which it starts. Zero where the
/// pattern does not match; a match that consumes no token counts as none.
pub open spec fn spec_match_len(
    pattern: PatternView,
    tokens: Seq<Token>,
    source: Seq<char>,
    cursor: int,
) -> nat {
    match pattern.spec_match(tokens.subrange(cursor, spec_clause_end(tokens, cursor)), source) {
        Some(k) => k,
        None => 0,
    }
}

/// The matches found from token `cursor` on, each as the range of tokens
/// it consumed, in text order. The scan tries the pattern at `cursor`;
/// after a match it goes on behind the consumed tokens, otherwise at the
/// next token.
pub open spec fn spec_matches(
    pattern: PatternView,
    tokens: Seq<Token>,
    source: Seq<char>,
    cursor: int,
) -> Seq<(int, int)>
    decreases tokens.len() - cursor,
    via spec_matches_decreases
{
    if cursor < 0 || cursor >= tokens.len() {
        Seq::empty()
    } else {
        let k = spec_match_len(pattern, tokens, source, cursor);
        if k > 0 {
            seq![(cursor, cursor + k)] + spec_matches(pattern, tokens, source, cursor + k)
        } else {
            spec_matches(pattern, tokens, source, cursor + 1)
        }
    }
}

#[via_fn]
proof fn spec_matches_decreases(
    pattern: PatternView,
    tokens: Seq<Token>,
    source: Seq<char>,
    cursor: int,
) {
    if 0 <= cursor < tokens.len() {
        lemma_match_len_bounded(pattern, tokens, source, cursor);
    }
}

/// The findings of a pattern linter on the tokens from `cursor` on.
pub open spec fn spec_lints_from<L: PatternLinter>(
    linter: &L,
    tokens: Seq<Token>,
    source: Seq<char>,
    cursor: int,
) -> Seq<LintView> {
    spec_matches(linter.spec_pattern(), tokens, source, cursor).map_values(
        |m: (int, int)| linter.spec_match_to_lint(tokens.subrange(m.0, m.1), source),
    )
}

/// The findings of a pattern linter on a text: one for each match, in
/// text order.
pub open spec fn spec_pattern_lints<L: PatternLinter>(
    linter: &L,
    tokens: Seq<Token>,
    source: Seq<char>,
) -> Seq<LintView> {
    spec_lints_from(linter, tokens, source, 0)
}

/// The matches of one scan lie inside the token list, none is empty, and
/// each starts where the one before it ended or later: no two share a
/// token.
pub proof fn lemma_matches_disjoint(
    pattern: PatternView,
    tokens: Seq<Token>,
    source: Seq<char>,
    cursor: int,
)
    requires
        0 <= cursor,
    ensures
        forall|i: int|
            0 <= i < spec_matches(pattern, tokens, source, cursor).len() ==> cursor <= (
            #[trigger] spec_matches(pattern, tokens, source, cursor)[i]).0 < spec_matches(
                pattern,
                tokens,
                source,
                cursor,
            )[i].1 <= tokens.len(),
        forall|i: int, j: int|
            0 <= i < j < spec_matches(pattern, tokens, source, cursor).len() ==> (
            #[trigger] spec_matches(pattern, tokens, source, cursor)[i]).1 <= (
            #[trigger] spec_matches(pattern, tokens, source, cursor)[j]).0,
    decreases tokens.len() - cursor,
{
    if cursor < tokens.len() {
        let all = spec_matches(pattern, tokens, source, cursor);
        let k = spec_match_len(pattern, tokens, source, cursor);
        lemma_match_len_bounded(pattern, tokens, source, cursor);
        if k > 0 {
            let rest = spec_matches(pattern, tokens, source, cursor + k);
            lemma_matches_disjoint(pattern, tokens, source, cursor + k);
            assert(all[0] == (cursor, cursor + k));
            assert(forall|i: int| 1 <= i < all.len() ==> all[i] == rest[i - 1]);
            assert forall|i: int, j: int| 0 <= i < j < all.len() implies (#[trigger] all[i]).1 <= (
            #[trigger] all[j]).0 by {
                assert(all[j] == rest[j - 1]);
                if i > 0 {
                    assert(all[i] == rest[i - 1]);
                }
            }
            assert forall|i: int| 0 <= i < all.len() implies cursor <= (#[trigger] all[i]).0
                < all[i].1 <= tokens.len() by {
                if i > 0 {
                    assert(all[i] == rest[i - 1]);
                }
            }
        } else {
            lemma_matches_disjoint(pattern, tokens, source, cursor + 1);
            assert(all == spec_matches(pattern, tokens, source, cursor + 1));
        }
    }
}

/// A match stays inside the clause in which it starts.
pub proof fn lemma_match_len_bounded(
    pattern: PatternView,
    tokens: Seq<Token>,
    source: Seq<char>,
    cursor: int,
)
    requires
        0 <= cursor < tokens.len(),
    ensures
        cursor + spec_match_len(pattern, tokens, source, cursor) <= spec_clause_end(tokens, cursor)
            <= tokens.len(),
{
    lemma_unit_end_bounds(tokens, cursor, true);
    pattern.lemma_match_bounded(
        tokens.subrange(cursor, spec_clause_end(tokens, cursor)),
        source,
    );
}

/// Slides the linter's pattern over the tokens of a document, clause by
/// clause, and turns every match into a finding.
pub fn lint_with_pattern<L: PatternLinter>(linter: &L, document: &Document) -> (lints: Vec<Lint>)
    requires
        document.wf(),
    ensures
        lints_view(lints@) == spec_pattern_lints(
            linter,
            document.token_seq(),
            document.source_text(),
        ),
{
    let tokens = document.get_tokens();
    let source = document.get_source();
    proof {
        document.lemma_tokens_tile();
    }
    let mut lints: Vec<Lint> = Vec::new();
    let mut cursor: usize = 0;
    proof {
        assert(lints_view(lints@) + spec_lints_from(linter, tokens@, source@, 0)
            =~= spec_lints_from(linter, tokens@, source@, 0));
    }
    while cursor < tokens.len()
        invariant
            cursor <= tokens@.len(),
            tokens_ordered(tokens@, source@.len() as int),
            lints_view(lints@) + spec_lints_from(linter, tokens@, source@, cursor as int)
                == spec_lints_from(linter, tokens@, source@, 0),
        decreases tokens@.len() - cursor,
    {
        let end = clause_end(tokens, cursor);
        let window = slice_subrange(tokens, cursor, end);
        let k = match linter.pattern().try_match(window, source) {
            Some(k) => k,
            None => 0,
        };
        assert(k == spec_match_len(linter.spec_pattern(), tokens@, source@, cursor as int));
        if k > 0 {
            let matched_tokens = slice_subrange(tokens, cursor, cursor + k);
            let lint = linter.match_to_lint(matched_tokens, source);
            proof {
                let rest = spec_lints_from(linter, tokens@, source@, cursor + k);
                assert(spec_lints_from(linter, tokens@, source@, cursor as int) =~= seq![lint@]
                    + rest);
                assert(lints_view(lints@.push(lint)) =~= lints_view(lints@).push(lint@));
                assert(lints_view(lints@).push(lint@) + rest =~= lints_view(lints@) + (seq![lint@]
                    + rest));
            }
            lints.push(lint);
            cursor = cursor + k;
        } else {
            cursor = cursor + 1;
        }
    }
    proof {
        assert(lints_view(lints@) + spec_lints_from(linter, tokens@, source@, cursor as int)
            =~= lints_view(lints@));
    }
    lints
}

/// A linter. Each is a function from a document, and for the spell check
/// the host's word list, to its findings, whether it slides a pattern over
/// the tokens or walks them in a way of its own.
#[derive(Clone, Copy, Debug, PartialEq, Eq, Structural)]
pub enum Linter {
    SpellCheck,
    SentenceCapitalization,
    UnclosedQuotes,
    /// Not part of the registry: a host that wants its findings runs it by
    /// itself or in a list of its own.
    TerminatingConjunctions,
}

impl Linter {
    /// The findings of the linter on a text.
    pub open spec fn spec_lint(
        self,
        source: Seq<char>,
        dictionary: Seq<Seq<char>>,
    ) -> Seq<LintView> {
        match self {
            Linter::SpellCheck => spec_spell_check(source, dictionary),
            Linter::SentenceCapitalization => spec_sentence_capitalization(source),
            Linter::UnclosedQuotes => spec_unclosed_quotes(source),
            Linter::TerminatingConjunctions => spec_terminating_conjunctions(source),
        }
    }

    /// Runs the linter on a document.
    pub fn lint(&self, document: &Document, dictionary: &Vec<Vec<char>>) -> (lints: Vec<Lint>)
        requires
            document.wf(),
        ensures
            lints_view(lints@) == self.spec_lint(document.source_text(), words_view(dictionary@)),
            spans_valid(lints_view(lints@), document.source_text().len()),
    {
        match self {
            Linter::SpellCheck => spell_check(document, dictionary),
            Linter::SentenceCapitalization => sentence_capitalization_lint(document),
            Linter::UnclosedQuotes => unclosed_quotes(document),
            Linter::TerminatingConjunctions => TerminatingConjunctions::default().lint(document),
        }
    }
}

/// The linters of the registry, in the order in which they run: the spell
/// check, sentence capitalization, unclosed quotes. The linter of the
/// terminating conjunctions is not among them.
pub open spec fn registry() -> Seq<Linter> {
    seq![Linter::SpellCheck, Linter::SentenceCapitalization, Linter::UnclosedQuotes]
}

/// The findings of the first `n` linters of a list on a text: those of
/// each linter, one linter after the other. Nothing is merged or dropped.
pub open spec fn spec_run_linters(
    linters: Seq<Linter>,
    source: Seq<char>,
    dictionary: Seq<Seq<char>>,
    n: int,
) -> Seq<LintView>
    decreases n,
{
    if n <= 0 || n > linters.len() {
        Seq::empty()
    } else {
        spec_run_linters(linters, source, dictionary, n - 1) + linters[n - 1].spec_lint(
            source,
            dictionary,
        )
    }
}

/// The findings of all linters of the registry on a text.
pub open spec fn spec_all_linters(source: Seq<char>, dictionary: Seq<Seq<char>>) -> Seq<LintView> {
    spec_run_linters(registry(), source, dictionary, registry().len() as int)
}

/// The findings of the registry are those of its linters, one after the
/// other in registry order; their number is the sum of the linters' own.
pub proof fn lemma_all_linters_concat(source: Seq<char>, dictionary: Seq<Seq<char>>)
    ensures
        spec_all_linters(source, dictionary) == spec_spell_check(source, dictionary)
            + spec_sentence_capitalization(source) + spec_unclosed_quotes(source),
        spec_all_linters(source, dictionary).len() == spec_spell_check(source, dictionary).len()
            + spec_sentence_capitalization(source).len() + spec_unclosed_quotes(source).len(),
{
    reveal_with_fuel(spec_run_linters, 4);
    assert(spec_all_linters(source, dictionary) =~= spec_spell_check(source, dictionary)
        + spec_sentence_capitalization(source) + spec_unclosed_quotes(source));
}

/// A linter added at the end of a list adds its findings behind those of
/// the list and changes none of them.
pub proof fn lemma_added_linter_is_additive(
    linters: Seq<Linter>,
    linter: Linter,
    source: Seq<char>,
    dictionary: Seq<Seq<char>>,
)
    ensures
        spec_run_linters(linters.push(linter), source, dictionary, linters.len() as int + 1)
            == spec_run_linters(linters, source, dictionary, linters.len() as int)
            + linter.spec_lint(source, dictionary),
{
    lemma_run_linters_prefix(
        linters,
        linters.push(linter),
        source,
        dictionary,
        linters.len() as int,
    );
}

/// The findings of the first `n` linters depend on those linters only.
pub proof fn lemma_run_linters_prefix(
    a: Seq<Linter>,
    b: Seq<Linter>,
    source: Seq<char>,
    dictionary: Seq<Seq<char>>,
    n: int,
)
    requires
        0 <= n <= a.len(),
        n <= b.len(),
        forall|i: int| 0 <= i < n ==> a[i] == b[i],
    ensures
        spec_run_linters(a, source, dictionary, n) == spec_run_linters(b, source, dictionary, n),
    decreases n,
{
    if n > 0 {
        lemma_run_linters_prefix(a, b, source, dictionary, n - 1);
    }
}

/// Every finding of the registry points inside the text.
pub proof fn lemma_all_linters_spans(source: Seq<char>, dictionary: Seq<Seq<char>>)
    requires
        source.len() <= usize::MAX,
    ensures
        spans_valid(spec_all_linters(source, dictionary), source.len()),
{
    lemma_all_linters_concat(source, dictionary);
    lemma_tokens_tile(source, 0);
    lemma_spell_check_spans(
        spec_tokens(source),
        source,
        dictionary,
        spec_tokens(source).len() as int,
    );
    lemma_capitalization_spans(spec_tokens(source), source, 0);
    lemma_unclosed_quotes_spans(source);
}

/// Linting is a function of the text and the word list: any two runs on
/// equal texts and equal word lists give the same findings in the same
/// order.
pub proof fn lemma_linting_repeatable(
    first: Seq<Lint>,
    second: Seq<Lint>,
    a: Seq<char>,
    b: Seq<char>,
    dictionary: Seq<Seq<char>>,
)
    requires
        lints_view(first) == spec_all_linters(a, dictionary),
        lints_view(second) == spec_all_linters(b, dictionary),
        a == b,
    ensures
        lints_view(first) == lints_view(second),
{
}

/// The view of two lists, one after the other, is the views one after the
/// other.
pub proof fn lemma_lints_view_concat(a: Seq<Lint>, b: Seq<Lint>)
    ensures
        lints_view(a + b) == lints_view(a) + lints_view(b),
{
    assert(lints_view(a + b) =~= lints_view(a) + lints_view(b));
}

/// A linter that finds nothing on a text leaves the combined findings as
/// they were before it was added.
pub proof fn lemma_silent_linter_is_neutral(
    linters: Seq<Linter>,
    linter: Linter,
    source: Seq<char>,
    dictionary: Seq<Seq<char>>,
)
    requires
        linter.spec_lint(source, dictionary).len() == 0,
    ensures
        spec_run_linters(linters.push(linter), source, dictionary, linters.len() as int + 1)
            == spec_run_linters(linters, source, dictionary, linters.len() as int),
{
    lemma_added_linter_is_additive(linters, linter, source, dictionary);
    assert(spec_run_linters(linters, source, dictionary, linters.len() as int) + linter.spec_lint(
        source,
        dictionary,
    ) =~= spec_run_linters(linters, source, dictionary, linters.len() as int));
}

/// Runs the given linters on a document, one after the other, and
/// returns their findings in that order.
pub fn run_linters(
    linters: &[Linter],
    document: &Document,
    dictionary: &Vec<Vec<char>>,
) -> (lints: Vec<Lint>)
    requires
        document.wf(),
    ensures
        lints_view(lints@) == spec_run_linters(
            linters@,
            document.source_text(),
            words_view(dictionary@),
            linters@.len() as int,
        ),
        spans_valid(lints_view(lints@), document.source_text().len()),
{
    let mut lints: Vec<Lint> = Vec::new();
    let mut i: usize = 0;
    proof {
        assert(lints_view(lints@) =~= Seq::<LintView>::empty());
    }
    while i < linters.len()
        invariant
            i <= linters@.len(),
            document.wf(),
            lints_view(lints@) == spec_run_linters(
                linters@,
                document.source_text(),
                words_view(dictionary@),
                i as int,
            ),
            spans_valid(lints_view(lints@), document.source_text().len()),
        decreases linters@.len() - i,
    {
        let mut found = linters[i].lint(document, dictionary);
        proof {
            lemma_lints_view_concat(lints@, found@);
        }
        lints.append(&mut found);
        i += 1;
    }
    lints
}

/// Runs every linter of the registry on a document, the spell check
/// against the host's word list, and returns their findings, one linter
/// after the other.
pub fn all_linters(document: &Document, dictionary: &Vec<Vec<char>>) -> (lints: Vec<Lint>)
    requires
        document.wf(),
    ensures
        lints_view(lints@) == spec_all_linters(document.source_text(), words_view(dictionary@)),
        spans_valid(lints_view(lints@), document.source_text().len()),
{
    let linters: [Linter; 3] = [
        Linter::SpellCheck,
        Linter::SentenceCapitalization,
        Linter::UnclosedQuotes,
    ];
    proof {
        assert(linters@ =~= registry());
    }
    run_linters(linters.as_slice(), document, dictionary)
}

} // verus!
