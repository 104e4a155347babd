use vstd::prelude::*;
use vstd::string::StringExecFns;
use crate::document::{spec_tokens, Document};
use crate::lint::{lints_view, spans_valid, Lint, LintKind, LintView, Suggestion};
use crate::span::Span;
use crate::token::Token;

verus! {

pub open spec fn is_quote(token: Token) -> bool {
    token.kind.spec_is_quote()
}

/// Whether the first `n` tokens hold an odd number of quotes. Quotes pair
/// up in text order, so an odd number leaves the last one without a twin.
pub open spec fn odd_quotes(tokens: Seq<Token>, n: int) -> bool
    decreases n,
{
    if n <= 0 || n > tokens.len() {
        false
    } else {
        odd_quotes(tokens, n - 1) != is_quote(tokens[n - 1])
    }
}

/// The index of the last quote among the first `n` tokens, or -1.
pub open spec fn last_quote(tokens: Seq<Token>, n: int) -> int
    decreases n,
{
    if n <= 0 || n > tokens.len() {
        -1
    } else if is_quote(tokens[n - 1]) {
        n - 1
    } else {
        last_quote(tokens, n - 1)
    }
}

/// The finding for a quote without a twin.
pub open spec fn quote_lint(span: Span) -> LintView {
    LintView {
        span,
        lint_kind: LintKind::Formatting,
        suggestions: Seq::empty(),
        message: "This quote has no termination."@,
        priority: 255,
    }
}

/// The findings of the linter on a list of tokens: the last quote where
/// the quotes are odd in number, nothing otherwise.
pub open spec fn spec_unclosed_quotes_in(tokens: Seq<Token>) -> Seq<LintView> {
    if odd_quotes(tokens, tokens.len() as int) {
        seq![quote_lint(tokens[last_quote(tokens, tokens.len() as int)].span)]
    } else {
        Seq::empty()
    }
}

/// The findings of the linter on a text.
pub open spec fn spec_unclosed_quotes(source: Seq<char>) -> Seq<LintView> {
    spec_unclosed_quotes_in(spec_tokens(source))
}

/// Where the quotes are odd in number there is a last one.
pub proof fn lemma_odd_quotes_has_last(tokens: Seq<Token>, n: int)
    requires
        0 <= n <= tokens.len(),
        odd_quotes(tokens, n),
    ensures
        0 <= last_quote(tokens, n) < n,
        is_quote(tokens[last_quote(tokens, n)]),
    decreases n,
{
    if n > 0 && !is_quote(tokens[n - 1]) {
        lemma_odd_quotes_has_last(tokens, n - 1);
    }
}

/// Every finding of the linter points inside the text.
pub proof fn lemma_unclosed_quotes_spans(source: Seq<char>)
    requires
        source.len() <= usize::MAX,
    ensures
        spans_valid(spec_unclosed_quotes(source), source.len()),
{
    let tokens = spec_tokens(source);
    crate::document::lemma_tokens_tile(source, 0);
    if odd_quotes(tokens, tokens.len() as int) {
        lemma_odd_quotes_has_last(tokens, tokens.len() as int);
    }
}

/// Reports the quote that has no twin, if there is one.
pub fn unclosed_quotes(document: &Document) -> (lints: Vec<Lint>)
    requires
        document.wf(),
    ensures
        lints_view(lints@) == spec_unclosed_quotes(document.source_text()),
        spans_valid(lints_view(lints@), document.source_text().len()),
{
    let tokens = document.get_tokens();
    let mut odd = false;
    let mut last: usize = 0;
    let mut i: usize = 0;
    while i < tokens.len()
        invariant
            i <= tokens@.len(),
            odd == odd_quotes(tokens@, i as int),
            odd ==> last == last_quote(tokens@, i as int),
            odd ==> last < i,
        decreases tokens@.len() - i,
    {
        if tokens[i].kind.is_quote() {
            odd = !odd;
            last = i;
        } else {
            proof {
                if odd {
                    lemma_odd_quotes_has_last(tokens@, i as int);
                }
            }
        }
        i += 1;
    }
    let mut lints: Vec<Lint> = Vec::new();
    if odd {
        let suggestions: Vec<Suggestion> = Vec::new();
        let lint = Lint {
            span: tokens[last].span,
            lint_kind: LintKind::Formatting,
            suggestions,
            message: String::from_str("This quote has no termination."),
            priority: 255,
        };
        proof {
            assert(lint@.suggestions =~= Seq::<Seq<char>>::empty());
            assert(lint@ == quote_lint(tokens@[last as int].span));
            assert(lints_view(lints@.push(lint)) =~= seq![lint@]);
        }
        lints.push(lint);
    } else {
        proof {
            assert(lints_view(lints@) =~= Seq::<LintView>::empty());
        }
    }
    proof {
        document.lemma_source_fits();
        lemma_unclosed_quotes_spans(document.source_text());
    }
    lints
}

} // verus!
