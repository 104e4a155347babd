use harper_lint::document::Document;
use harper_lint::lint::LintKind;
use harper_lint::span::Span;
use harper_lint::terminating_conjunctions::TerminatingConjunctions;

fn assert_lint_count(text: &str, linter: TerminatingConjunctions, count: usize) {
    let document = Document::new(text);
    let lints = linter.lint(&document);
    assert_eq!(lints.len(), count);
}

#[test]
fn issue_131() {
    assert_lint_count(
        "More often than, we cannot foresee that of our community.",
        TerminatingConjunctions::default(),
        1,
    )
}

#[test]
fn no_false_positive() {
    assert_lint_count("Cookies and milk.", TerminatingConjunctions::default(), 0)
}

#[test]
fn conjunction_lint_covers_word_through_comma() {
    let document = Document::new("More often than, we cannot foresee that of our community.");
    let lints = TerminatingConjunctions::default().lint(&document);
    assert_eq!(lints.len(), 1);
    assert_eq!(lints[0].span, Span { start: 11, end: 16 });
    assert_eq!(lints[0].lint_kind, LintKind::Miscellaneous);
    assert_eq!(lints[0].priority, 63);
    assert!(lints[0].suggestions.is_empty());
    assert_eq!(
        lints[0].message,
        "Subordinating conjunctions like \u{201c}than,\u{201d} should not appear at the end of a clause."
    );
}

#[test]
fn conjunction_is_found_whatever_its_case() {
    let document = Document::new("I stayed Because, well.");
    let lints = TerminatingConjunctions::default().lint(&document);
    assert_eq!(lints.len(), 1);
    assert_eq!(lints[0].span, Span { start: 9, end: 17 });
}

#[test]
fn conjunction_before_a_blank_and_comma_is_not_flagged() {
    assert_lint_count("More often than , we know.", TerminatingConjunctions::default(), 0);
}

#[test]
fn other_words_before_a_comma_are_not_flagged() {
    assert_lint_count("Cookies, milk and tea.", TerminatingConjunctions::default(), 0);
}

#[test]
fn matches_of_one_linter_share_no_token() {
    let document = Document::new("so, and, if,");
    let lints = TerminatingConjunctions::default().lint(&document);
    assert_eq!(lints.len(), 3);
    assert_eq!(lints[0].span, Span { start: 0, end: 3 });
    assert_eq!(lints[1].span, Span { start: 4, end: 8 });
    assert_eq!(lints[2].span, Span { start: 9, end: 12 });
    for pair in lints.windows(2) {
        assert!(pair[0].span.end <= pair[1].span.start);
        assert!(!pair[0].span.overlaps_with(pair[1].span));
    }
}

#[test]
fn empty_text_has_no_conjunction_lints() {
    assert_lint_count("", TerminatingConjunctions::default(), 0);
}
