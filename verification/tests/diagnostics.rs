use harper_lint::diagnostics::{
    generate_code_actions, generate_diagnostics, index_to_position, line_start, lint_string,
    lint_to_code_actions, lint_to_diagnostic, position_to_index, range_to_span, span_to_range,
    try_position_to_index, try_range_to_span, CodeActionKind, Position, Range,
};
use harper_lint::span::Span;

fn chars(text: &str) -> Vec<char> {
    text.chars().collect()
}

fn words(list: &[&str]) -> Vec<Vec<char>> {
    list.iter().map(|word| word.chars().collect()).collect()
}

#[test]
fn position_after_a_line_break() {
    let source = chars("ab\ncd\nef");
    assert_eq!(index_to_position(&source, 4), Position { line: 1, character: 1 });
    assert_eq!(index_to_position(&source, 3), Position { line: 1, character: 0 });
    assert_eq!(index_to_position(&source, 6), Position { line: 2, character: 0 });
    assert_eq!(index_to_position(&source, 8), Position { line: 2, character: 2 });
}

#[test]
fn position_on_the_first_line_is_the_index() {
    let source = chars("abcd\nef");
    assert_eq!(index_to_position(&source, 0), Position { line: 0, character: 0 });
    assert_eq!(index_to_position(&source, 1), Position { line: 0, character: 1 });
    assert_eq!(index_to_position(&source, 2), Position { line: 0, character: 2 });
    assert_eq!(index_to_position(&source, 4), Position { line: 0, character: 4 });
    assert_eq!(index_to_position(&chars(""), 0), Position { line: 0, character: 0 });
}

#[test]
fn index_of_a_position() {
    let source = chars("ab\ncd\nef");
    assert_eq!(position_to_index(&source, Position { line: 0, character: 1 }), 1);
    assert_eq!(position_to_index(&source, Position { line: 1, character: 1 }), 4);
    assert_eq!(position_to_index(&source, Position { line: 2, character: 0 }), 6);
    assert_eq!(position_to_index(&chars("a\nbc"), Position { line: 1, character: 1 }), 3);
    assert_eq!(
        try_position_to_index(&source, Position { line: 2, character: 1 }),
        Some(7)
    );
}

#[test]
fn start_of_each_line() {
    let source = chars("ab\n\ncd\n");
    assert_eq!(line_start(&source, 0), 0);
    assert_eq!(line_start(&source, 1), 3);
    assert_eq!(line_start(&source, 2), 4);
    assert_eq!(line_start(&source, 3), 7);
}

#[test]
fn a_line_that_the_text_lacks_starts_at_zero() {
    assert_eq!(line_start(&chars("abc"), 3), 0);
    assert_eq!(position_to_index(&chars("abc"), Position { line: 3, character: 2 }), 2);
    assert_eq!(line_start(&chars("ab\ncd"), 2), 0);
}

#[test]
fn index_to_position_and_back() {
    let source = chars("ab\n\ncd\nefg\n");
    for index in 0..=source.len() {
        let position = index_to_position(&source, index);
        assert_eq!(position_to_index(&source, position), index);
    }
}

#[test]
fn ranges_and_spans() {
    let source = chars("ab\ncd");
    assert_eq!(
        span_to_range(&source, Span { start: 3, end: 5 }),
        Range {
            start: Position { line: 1, character: 0 },
            end: Position { line: 1, character: 2 },
        }
    );
    let range = Range {
        start: Position { line: 0, character: 1 },
        end: Position { line: 1, character: 2 },
    };
    assert_eq!(range_to_span(&source, range), Span { start: 1, end: 5 });
    assert_eq!(try_range_to_span(&source, range), Some(Span { start: 1, end: 5 }));
    let backwards = Range {
        start: Position { line: 1, character: 0 },
        end: Position { line: 0, character: 2 },
    };
    assert_eq!(try_range_to_span(&source, backwards), None);
}

#[test]
fn diagnostic_of_a_lint() {
    let text = "Well.\nmore often than, we know.";
    let source = chars(text);
    let lints = lint_string(text, &words(&["well", "more", "often", "than", "we"]));
    assert_eq!(lints.len(), 2);
    let diagnostic = lint_to_diagnostic(&lints[0], &source);
    assert_eq!(diagnostic.source, "Harper");
    assert_eq!(diagnostic.message, lints[0].message);
    assert_eq!(
        diagnostic.range,
        Range {
            start: Position { line: 1, character: 20 },
            end: Position { line: 1, character: 24 },
        }
    );
}

#[test]
fn diagnostics_of_a_text() {
    let text = "Well.\nmore often than, we know.";
    let dictionary = words(&["well", "more", "often", "than", "we"]);
    let diagnostics = generate_diagnostics(text, &dictionary);
    assert_eq!(diagnostics.len(), 2);
    assert_eq!(
        diagnostics[0].message,
        "Did you mean to spell \u{201c}know\u{201d} this way?"
    );
    assert_eq!(diagnostics[1].message, "This sentence does not start with a capital letter");
    assert_eq!(
        diagnostics[1].range,
        Range {
            start: Position { line: 1, character: 0 },
            end: Position { line: 1, character: 1 },
        }
    );
    assert!(generate_diagnostics("", &dictionary).is_empty());
}

#[test]
fn diagnostic_at_the_start_of_the_text() {
    let diagnostics = generate_diagnostics("hello there.", &words(&["hello", "there"]));
    assert_eq!(diagnostics.len(), 1);
    assert_eq!(
        diagnostics[0].range,
        Range {
            start: Position { line: 0, character: 0 },
            end: Position { line: 0, character: 1 },
        }
    );
}

#[test]
fn code_actions_of_a_lint() {
    let lints = lint_string("hello there.", &words(&["hello", "there"]));
    assert_eq!(lints.len(), 1);
    let actions = lint_to_code_actions(&lints[0]);
    assert_eq!(actions.len(), 1);
    assert_eq!(actions[0].title, "Replace with: \u{201c}H\u{201d}");
    assert_eq!(actions[0].kind, CodeActionKind::QuickFix);
}

#[test]
fn code_actions_only_for_lints_in_range() {
    let text = "hello there.";
    let dictionary = words(&["hello", "there"]);
    let inside = Range {
        start: Position { line: 0, character: 0 },
        end: Position { line: 0, character: 3 },
    };
    let actions = generate_code_actions(text, &dictionary, inside);
    assert_eq!(actions.len(), 1);
    assert_eq!(actions[0].title, "Replace with: \u{201c}H\u{201d}");
    let touching = Range {
        start: Position { line: 0, character: 1 },
        end: Position { line: 0, character: 3 },
    };
    assert!(generate_code_actions(text, &dictionary, touching).is_empty());
}

#[test]
fn lints_without_suggestion_give_no_action() {
    let text = "Helo there.";
    let dictionary = words(&["there"]);
    let range = Range {
        start: Position { line: 0, character: 0 },
        end: Position { line: 0, character: 11 },
    };
    assert_eq!(lint_string(text, &dictionary).len(), 1);
    assert!(generate_code_actions(text, &dictionary, range).is_empty());
}
