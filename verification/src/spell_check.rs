use vstd::prelude::*;
use vstd::string::StringExecFns;
use crate::document::{spec_tokens, Document};
use crate::lint::{lints_view, spans_valid, Lint, LintKind, LintView, Suggestion};
use crate::patterns::{spec_word_in, word_in, words_view};
use crate::token::{tokens_tile, Token, TokenKind};

verus! {

/// A word that the word list does not hold. Words are looked up whatever
/// the case of their ASCII letters.
pub open spec fn is_misspelled(token: Token, source: Seq<char>, dictionary: Seq<Seq<char>>) -> bool {
    token.kind == TokenKind::Word && !spec_word_in(dictionary, token.span.content(source))
}

/// The finding for a word that the word list does not hold: it covers the
/// word and quotes it.
pub open spec fn spelling_lint(word: Token, source: Seq<char>) -> LintView {
    LintView {
        span: word.span,
        lint_kind: LintKind::Spelling,
        suggestions: Seq::empty(),
        message: "Did you mean to spell \u{201c}"@ + word.span.content(source)
            + "\u{201d} this way?"@,
        priority: 63,
    }
}

/// The findings for the first `n` tokens: one for each word that the word
/// list does not hold, in text order.
pub open spec fn spec_spell_check_in(
    tokens: Seq<Token>,
    source: Seq<char>,
    dictionary: Seq<Seq<char>>,
    n: int,
) -> Seq<LintView>
    decreases n,
{
    if n <= 0 || n > tokens.len() {
        Seq::empty()
    } else {
        spec_spell_check_in(tokens, source, dictionary, n - 1) + if is_misspelled(
            tokens[n - 1],
            source,
            dictionary,
        ) {
            seq![spelling_lint(tokens[n - 1], source)]
        } else {
            Seq::empty()
        }
    }
}

/// The findings of the spell check on a text, against a word list.
pub open spec fn spec_spell_check(source: Seq<char>, dictionary: Seq<Seq<char>>) -> Seq<LintView> {
    spec_spell_check_in(spec_tokens(source), source, dictionary, spec_tokens(source).len() as int)
}

/// Every finding for the first `n` tokens points inside the text.
pub proof fn lemma_spell_check_spans(
    tokens: Seq<Token>,
    source: Seq<char>,
    dictionary: Seq<Seq<char>>,
    n: int,
)
    requires
        0 <= n <= tokens.len(),
        tokens_tile(tokens, 0, source.len() as int),
    ensures
        spans_valid(spec_spell_check_in(tokens, source, dictionary, n), source.len()),
    decreases n,
{
    if n > 0 {
        lemma_spell_check_spans(tokens, source, dictionary, n - 1);
        let before = spec_spell_check_in(tokens, source, dictionary, n - 1);
        let all = spec_spell_check_in(tokens, source, dictionary, n);
        assert forall|i: int| 0 <= i < all.len() implies (#[trigger] all[i]).span.within(
            source.len(),
        ) by {
            if i < before.len() {
                assert(all[i] == before[i]);
            }
        }
    }
}

/// Reports every word of the document that the host's word list does not
/// hold.
pub fn spell_check(document: &Document, dictionary: &Vec<Vec<char>>) -> (lints: Vec<Lint>)
    requires
        document.wf(),
    ensures
        lints_view(lints@) == spec_spell_check(document.source_text(), words_view(dictionary@)),
        spans_valid(lints_view(lints@), document.source_text().len()),
{
    let tokens = document.get_tokens();
    let source = document.get_source();
    proof {
        document.lemma_tokens_tile();
    }
    let mut lints: Vec<Lint> = Vec::new();
    let mut i: usize = 0;
    proof {
        assert(lints_view(lints@) =~= Seq::<LintView>::empty());
    }
    while i < tokens.len()
        invariant
            i <= tokens@.len(),
            tokens_tile(tokens@, 0, source@.len() as int),
            lints_view(lints@) == spec_spell_check_in(
                tokens@,
                source@,
                words_view(dictionary@),
                i as int,
            ),
        decreases tokens@.len() - i,
    {
        let token = tokens[i];
        let mut found = false;
        if token.kind.is_word() {
            let content = token.span.get_content(source);
            if !word_in(dictionary, content) {
                let word = token.span.get_content_string(source);
                let mut message = String::from_str("Did you mean to spell \u{201c}");
                message.append(word.as_str());
                message.append("\u{201d} this way?");
                let suggestions: Vec<Suggestion> = Vec::new();
                let lint = Lint {
                    span: token.span,
                    lint_kind: LintKind::Spelling,
                    suggestions,
                    message,
                    priority: 63,
                };
                proof {
                    assert(lint@.suggestions =~= Seq::<Seq<char>>::empty());
                    assert(lint@ == spelling_lint(token, source@));
                    assert(lints_view(lints@.push(lint)) =~= lints_view(lints@) + seq![lint@]);
                }
                lints.push(lint);
                found = true;
            }
        }
        proof {
            if !found {
                assert(lints_view(lints@) + Seq::<LintView>::empty() =~= lints_view(lints@));
            }
        }
        i += 1;
    }
    proof {
        lemma_spell_check_spans(tokens@, source@, words_view(dictionary@), tokens@.len() as int);
    }
    lints
}

} // verus!
