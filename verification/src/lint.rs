use vstd::prelude::*;
use vstd::string::StringExecFns;
use crate::span::Span;
use crate::text::string_from_chars;

verus! {

/// The family that a finding belongs to. Consumers filter and style by it;
/// the engine itself never reads it.
#[derive(Clone, Copy, Debug, PartialEq, Eq, Structural)]
pub enum LintKind {
    Spelling,
    Capitalization,
    Formatting,
    Repetition,
    Readability,
    Miscellaneous,
}

/// A proposed fix. The engine proposes it and never applies it.
#[derive(Clone, Debug, PartialEq, Eq)]
pub enum Suggestion {
    /// Replace the text under the span with these characters.
    ReplaceWith(Vec<char>),
}

impl View for Suggestion {
    type V = Seq<char>;

    /// The replacement text.
    open spec fn view(&self) -> Seq<char> {
        match self {
            Suggestion::ReplaceWith(text) => text@,
        }
    }
}

/// The form in which a replacement is shown to a user.
pub open spec fn suggestion_text(replacement: Seq<char>) -> Seq<char> {
    "Replace with: \u{201c}"@ + replacement + "\u{201d}"@
}

impl Suggestion {
    /// The suggestion in the form shown to a user.
    pub fn display(&self) -> (s: String)
        ensures
            s@ == suggestion_text(self@),
    {
        match self {
            Suggestion::ReplaceWith(text) => {
                let inner = string_from_chars(text.as_slice());
                let mut s = String::from_str("Replace with: \u{201c}");
                s.append(inner.as_str());
                s.append("\u{201d}");
                s
            },
        }
    }
}

/// A finding: where it is, what it is about and how it may be fixed.
#[derive(Clone, Debug, PartialEq, Eq)]
pub struct Lint {
    pub span: Span,
    pub lint_kind: LintKind,
    pub suggestions: Vec<Suggestion>,
    pub message: String,
    /// Orders findings for presentation only.
    pub priority: u8,
}

/// A finding as a mathematical value.
pub struct LintView {
    pub span: Span,
    pub lint_kind: LintKind,
    pub suggestions: Seq<Seq<char>>,
    pub message: Seq<char>,
    pub priority: u8,
}

impl View for Lint {
    type V = LintView;

    open spec fn view(&self) -> LintView {
        LintView {
            span: self.span,
            lint_kind: self.lint_kind,
            suggestions: self.suggestions@.map_values(|s: Suggestion| s@),
            message: self.message@,
            priority: self.priority,
        }
    }
}

/// A list of findings as a mathematical value.
pub open spec fn lints_view(lints: Seq<Lint>) -> Seq<LintView> {
    lints.map_values(|l: Lint| l@)
}

/// Every finding of the list points inside a text of `len` characters.
pub open spec fn spans_valid(lints: Seq<LintView>, len: nat) -> bool {
    forall|i: int| 0 <= i < lints.len() ==> (#[trigger] lints[i]).span.within(len)
}

} // verus!
