use harper_lint::diagnostics::lint_string;
use harper_lint::document::{clause_end, sentence_end, tokenize, Document};
use harper_lint::lint::{LintKind, Suggestion};
use harper_lint::linting::{all_linters, run_linters, Linter};
use harper_lint::patterns::Pattern;
use harper_lint::sentence_capitalization::sentence_capitalization_lint;
use harper_lint::span::Span;
use harper_lint::spell_check::spell_check;
use harper_lint::terminating_conjunctions::TerminatingConjunctions;
use harper_lint::token::{Punctuation, QuoteSide, Token, TokenKind};
use harper_lint::unclosed_quotes::unclosed_quotes;

fn chars(text: &str) -> Vec<char> {
    text.chars().collect()
}

fn words(list: &[&str]) -> Vec<Vec<char>> {
    list.iter().map(|word| word.chars().collect()).collect()
}

#[test]
fn span_overlap_inside() {
    let span = Span::new(5, 10);
    assert!(span.overlaps_with(Span::new(8, 12)));
    assert!(Span::new(8, 12).overlaps_with(span));
}

#[test]
fn span_overlap_touching_boundary_is_no_overlap() {
    let span = Span::new(5, 10);
    assert!(!span.overlaps_with(Span::new(10, 12)));
    assert!(!Span::new(10, 12).overlaps_with(span));
    assert!(!span.overlaps_with(Span::new(0, 5)));
}

#[test]
fn span_overlap_apart_and_nested() {
    let span = Span::new(5, 10);
    assert!(!span.overlaps_with(Span::new(11, 12)));
    assert!(span.overlaps_with(Span::new(6, 7)));
    assert!(span.overlaps_with(Span::new(0, 20)));
    assert!(span.overlaps_with(span));
}

#[test]
fn span_length_and_content() {
    let source = chars("hello world");
    let span = Span::new(6, 11);
    assert_eq!(span.len(), 5);
    assert!(!span.is_empty());
    assert!(Span::new(3, 3).is_empty());
    assert_eq!(span.get_content(&source), &source[6..11]);
    assert_eq!(span.get_content_string(&source), "world");
    assert_eq!(Span::new(0, 0).get_content_string(&source), "");
}

#[test]
fn tokens_of_a_short_text() {
    let document = Document::new("Hi, you.");
    let expected = vec![
        Token { span: Span { start: 0, end: 2 }, kind: TokenKind::Word },
        Token { span: Span { start: 2, end: 3 }, kind: TokenKind::Punctuation(Punctuation::Comma) },
        Token { span: Span { start: 3, end: 4 }, kind: TokenKind::Whitespace },
        Token { span: Span { start: 4, end: 7 }, kind: TokenKind::Word },
        Token { span: Span { start: 7, end: 8 }, kind: TokenKind::Punctuation(Punctuation::Period) },
    ];
    assert_eq!(document.get_tokens(), expected.as_slice());
    assert_eq!(document.get_source(), chars("Hi, you.").as_slice());
}

#[test]
fn tokens_of_marks_blanks_and_other_characters() {
    let tokens = tokenize(&chars("a  \t\n?!;:\"\u{201c}\u{201d}#é9"));
    let kinds: Vec<TokenKind> = tokens.iter().map(|t| t.kind).collect();
    assert_eq!(
        kinds,
        vec![
            TokenKind::Word,
            TokenKind::Whitespace,
            TokenKind::Punctuation(Punctuation::Question),
            TokenKind::Punctuation(Punctuation::Bang),
            TokenKind::Punctuation(Punctuation::Semicolon),
            TokenKind::Punctuation(Punctuation::Colon),
            TokenKind::Punctuation(Punctuation::Quote(QuoteSide::Open)),
            TokenKind::Punctuation(Punctuation::Quote(QuoteSide::Close)),
            TokenKind::Punctuation(Punctuation::Quote(QuoteSide::Open)),
            TokenKind::Other,
            TokenKind::Word,
        ]
    );
    assert_eq!(tokens[1].span, Span { start: 1, end: 5 });
    assert_eq!(tokens[10].span, Span { start: 13, end: 15 });
}

#[test]
fn tokens_cover_every_character() {
    let text = "Well, \"this\" is -- odd?  Yes!";
    let source = chars(text);
    let tokens = tokenize(&source);
    let mut at = 0;
    for token in &tokens {
        assert_eq!(token.span.start, at);
        assert!(token.span.start < token.span.end);
        at = token.span.end;
    }
    assert_eq!(at, source.len());
}

#[test]
fn empty_text_has_no_tokens_and_no_lints() {
    let document = Document::new("");
    assert!(document.get_tokens().is_empty());
    assert!(all_linters(&document, &words(&[])).is_empty());
    assert!(lint_string("", &words(&[])).is_empty());
    assert!(spell_check(&document, &words(&[])).is_empty());
}

#[test]
fn tokenizing_twice_gives_the_same_spans() {
    let text = "One, two. \"Three\" four!";
    let first = Document::new(text);
    let second = Document::from_chars(chars(text));
    assert_eq!(first.get_tokens(), second.get_tokens());
    assert_eq!(first.get_tokens(), tokenize(&chars(text)).as_slice());
}

#[test]
fn sentence_and_clause_ends() {
    let tokens = tokenize(&chars("a, b. c"));
    // a , _ b . _ c
    assert_eq!(tokens.len(), 7);
    assert_eq!(clause_end(&tokens, 0), 2);
    assert_eq!(sentence_end(&tokens, 0), 5);
    assert_eq!(clause_end(&tokens, 2), 5);
    assert_eq!(sentence_end(&tokens, 4), 5);
    assert_eq!(sentence_end(&tokens, 5), 7);
    assert_eq!(clause_end(&tokens, 6), 7);
}

#[test]
fn word_set_and_punctuation_patterns_take_one_token() {
    let source = chars("And, so");
    let tokens = tokenize(&source);
    let word = Pattern::any_word_in(vec![chars("or"), chars("and")]);
    assert_eq!(word.try_match(&tokens, &source), Some(1));
    assert_eq!(word.try_match(&tokens[1..], &source), None);
    assert_eq!(word.try_match(&tokens[3..], &source), None);
    assert_eq!(word.try_match(&tokens[..0], &source), None);
    let comma = Pattern::Punctuation(Punctuation::Comma);
    assert_eq!(comma.try_match(&tokens[1..], &source), Some(1));
    assert_eq!(comma.try_match(&tokens, &source), None);
}

#[test]
fn sequence_pattern_sums_its_steps() {
    let source = chars("and, so");
    let tokens = tokenize(&source);
    let sequence = Pattern::sequence().then_any_word_in(vec![chars("and")]).then_comma();
    assert_eq!(sequence.try_match(&tokens, &source), Some(2));
    assert_eq!(sequence.try_match(&tokens[1..], &source), None);
    assert_eq!(sequence.try_match(&tokens[3..], &source), None);
    assert_eq!(Pattern::sequence().try_match(&tokens, &source), None);
    let longer = Pattern::any_word_in(vec![chars("and")])
        .then_punctuation(Punctuation::Comma)
        .then_pattern(Pattern::any_word_in(vec![chars("so")]));
    assert_eq!(longer.try_match(&tokens, &source), None);
}

#[test]
fn consume_remaining_takes_the_whole_window() {
    let source = chars("and, so");
    let tokens = tokenize(&source);
    let rule = Pattern::consumes_remaining(
        Pattern::sequence().then_any_word_in(vec![chars("and")]).then_comma(),
    );
    assert_eq!(rule.try_match(&tokens, &source), Some(4));
    assert_eq!(rule.try_match(&tokens[..2], &source), Some(2));
    assert_eq!(rule.try_match(&tokens[1..], &source), None);
}

#[test]
fn capitalization_of_each_sentence() {
    let document = Document::new("hello world. this is fine. Ok");
    let lints = sentence_capitalization_lint(&document);
    assert_eq!(lints.len(), 2);
    assert_eq!(lints[0].span, Span { start: 0, end: 1 });
    assert_eq!(lints[0].lint_kind, LintKind::Capitalization);
    assert_eq!(lints[0].priority, 31);
    assert_eq!(lints[0].message, "This sentence does not start with a capital letter");
    assert_eq!(lints[0].suggestions, vec![Suggestion::ReplaceWith(vec!['H'])]);
    assert_eq!(lints[1].span, Span { start: 13, end: 14 });
    assert_eq!(lints[1].suggestions, vec![Suggestion::ReplaceWith(vec!['T'])]);
}

#[test]
fn capitalized_sentences_are_left_alone() {
    let document = Document::new("Hello. 42 is fine. Étude.");
    assert!(sentence_capitalization_lint(&document).is_empty());
}

#[test]
fn quote_without_twin_is_reported() {
    let document = Document::new("He said \"hello.");
    let lints = unclosed_quotes(&document);
    assert_eq!(lints.len(), 1);
    assert_eq!(lints[0].span, Span { start: 8, end: 9 });
    assert_eq!(lints[0].lint_kind, LintKind::Formatting);
    assert_eq!(lints[0].priority, 255);
    assert_eq!(lints[0].message, "This quote has no termination.");
    assert!(lints[0].suggestions.is_empty());
}

#[test]
fn paired_quotes_are_left_alone() {
    assert!(unclosed_quotes(&Document::new("He said \"hello\".")).is_empty());
    let lints = unclosed_quotes(&Document::new("\"a\" and \"b"));
    assert_eq!(lints.len(), 1);
    assert_eq!(lints[0].span, Span { start: 8, end: 9 });
}

#[test]
fn suggestion_display_text() {
    let suggestion = Suggestion::ReplaceWith(vec!['H', 'i']);
    assert_eq!(suggestion.display(), "Replace with: \u{201c}Hi\u{201d}");
}

#[test]
fn words_outside_the_word_list_are_reported() {
    let document = Document::new("Helo wurld, Hello.");
    let lints = spell_check(&document, &words(&["hello", "world"]));
    assert_eq!(lints.len(), 2);
    assert_eq!(lints[0].span, Span { start: 0, end: 4 });
    assert_eq!(lints[0].lint_kind, LintKind::Spelling);
    assert_eq!(lints[0].priority, 63);
    assert!(lints[0].suggestions.is_empty());
    assert_eq!(lints[0].message, "Did you mean to spell \u{201c}Helo\u{201d} this way?");
    assert_eq!(lints[1].span, Span { start: 5, end: 10 });
    assert_eq!(lints[1].message, "Did you mean to spell \u{201c}wurld\u{201d} this way?");
}

#[test]
fn words_of_the_word_list_are_left_alone() {
    let document = Document::new("HELLO, World 42.");
    assert!(spell_check(&document, &words(&["hello", "world", "42"])).is_empty());
    assert_eq!(spell_check(&document, &words(&[])).len(), 3);
}

#[test]
fn registry_output_is_each_linters_output_in_order() {
    let text = "more often than, we said \"so. fine";
    let dictionary = words(&["more", "often", "than", "we", "said", "fine"]);
    let document = Document::new(text);
    let mut expected = spell_check(&document, &dictionary);
    assert_eq!(expected.len(), 1);
    assert_eq!(expected[0].span, Span { start: 26, end: 28 });
    expected.extend(sentence_capitalization_lint(&document));
    expected.extend(unclosed_quotes(&document));
    assert_eq!(expected.len(), 4);
    assert_eq!(all_linters(&document, &dictionary), expected);
    assert_eq!(lint_string(text, &dictionary), expected);
}

#[test]
fn terminating_conjunctions_are_not_in_the_registry() {
    let text = "We stop so, then go.";
    let dictionary = words(&["we", "stop", "so", "then", "go"]);
    let document = Document::new(text);
    assert!(all_linters(&document, &dictionary).is_empty());
    assert_eq!(TerminatingConjunctions::default().lint(&document).len(), 1);
    assert_eq!(Linter::TerminatingConjunctions.lint(&document, &dictionary).len(), 1);
}

#[test]
fn linting_twice_gives_the_same_lints() {
    let text = "since, we \"know. it is so, then";
    let dictionary = words(&["we", "it", "is"]);
    assert_eq!(lint_string(text, &dictionary), lint_string(text, &dictionary));
    assert!(!lint_string(text, &dictionary).is_empty());
}

#[test]
fn lint_spans_lie_inside_the_text() {
    let text = "and, \"\u{e9}\u{201c}. x";
    let len = text.chars().count();
    let lints = lint_string(text, &words(&[]));
    assert!(!lints.is_empty());
    for lint in &lints {
        assert!(lint.span.start <= lint.span.end);
        assert!(lint.span.end <= len);
    }
}

#[test]
fn sentences_of_a_document() {
    let document = Document::new("a, b. c");
    assert_eq!(document.sentences(), vec![(0, 5), (5, 7)]);
    assert!(Document::new("").sentences().is_empty());
    assert_eq!(Document::new("Hi!").sentences(), vec![(0, 2)]);
}

#[test]
fn characters_of_a_text_with_wide_characters() {
    let document = Document::new("\u{e9}\u{201c}a");
    assert_eq!(document.get_source(), &['\u{e9}', '\u{201c}', 'a']);
    assert_eq!(
        Span::new(0, 2).get_content_string(document.get_source()),
        "\u{e9}\u{201c}"
    );
}

#[test]
fn linters_run_in_the_order_given() {
    let document = Document::new("more often than, we said \"so. fine");
    let dictionary = words(&["more", "often", "than", "we", "said", "so", "fine"]);
    assert!(run_linters(&[], &document, &dictionary).is_empty());
    assert_eq!(
        run_linters(&[Linter::UnclosedQuotes], &document, &dictionary),
        unclosed_quotes(&document)
    );
    let mut expected = TerminatingConjunctions::default().lint(&document);
    expected.extend(sentence_capitalization_lint(&document));
    assert_eq!(expected.len(), 3);
    assert_eq!(
        run_linters(
            &[Linter::TerminatingConjunctions, Linter::SentenceCapitalization],
            &document,
            &dictionary
        ),
        expected
    );
    assert_eq!(Linter::SentenceCapitalization.lint(&document, &dictionary).len(), 2);
}

#[test]
fn a_linter_that_finds_nothing_changes_no_totals() {
    let document = Document::new("more often thn, we know.");
    let dictionary = words(&["more", "often", "we", "know"]);
    assert!(Linter::UnclosedQuotes.lint(&document, &dictionary).is_empty());
    let without = run_linters(
        &[Linter::SpellCheck, Linter::SentenceCapitalization],
        &document,
        &dictionary,
    );
    assert_eq!(without.len(), 2);
    assert_eq!(all_linters(&document, &dictionary), without);
}
