use vstd::prelude::*;
use vstd::string::StringExecFns;
use crate::document::Document;
use crate::lint::{lints_view, spans_valid, suggestion_text, Lint, LintView};
use crate::linting::{all_linters, spec_all_linters};
use crate::patterns::words_view;
use crate::span::Span;

verus! {

/// A place in a text by line and by character offset within the line.
#[derive(Clone, Copy, Debug, PartialEq, Eq, Structural)]
pub struct Position {
    pub line: u32,
    pub character: u32,
}

/// A stretch of text between two positions.
#[derive(Clone, Copy, Debug, PartialEq, Eq, Structural)]
pub struct Range {
    pub start: Position,
    pub end: Position,
}

/// A finding in the form that an editor shows.
#[derive(Clone, Debug, PartialEq, Eq)]
pub struct Diagnostic {
    pub range: Range,
    /// Who reports the finding.
    pub source: String,
    pub message: String,
}

/// What kind of action an editor is offered.
#[derive(Clone, Copy, Debug, PartialEq, Eq, Structural)]
pub enum CodeActionKind {
    QuickFix,
}

/// A fix that an editor may offer for a finding.
#[derive(Clone, Debug, PartialEq, Eq)]
pub struct CodeAction {
    pub title: String,
    pub kind: CodeActionKind,
}

/// A diagnostic as a mathematical value.
pub struct DiagnosticView {
    pub range: Range,
    pub source: Seq<char>,
    pub message: Seq<char>,
}

impl View for Diagnostic {
    type V = DiagnosticView;

    open spec fn view(&self) -> DiagnosticView {
        DiagnosticView { range: self.range, source: self.source@, message: self.message@ }
    }
}

impl View for CodeAction {
    type V = Seq<char>;

    /// The title of the action; every action is a quick fix.
    open spec fn view(&self) -> Seq<char> {
        self.title@
    }
}

pub open spec fn diagnostics_view(diagnostics: Seq<Diagnostic>) -> Seq<DiagnosticView> {
    diagnostics.map_values(|d: Diagnostic| d@)
}

pub open spec fn actions_view(actions: Seq<CodeAction>) -> Seq<Seq<char>> {
    actions.map_values(|a: CodeAction| a@)
}

/// How many of the first `index` characters are line breaks.
pub open spec fn spec_newlines_before(source: Seq<char>, index: int) -> nat
    decreases index,
{
    if index <= 0 || index > source.len() {
        0
    } else {
        spec_newlines_before(source, index - 1) + if source[index - 1] == '\n' {
            1nat
        } else {
            0nat
        }
    }
}

/// The index of the last line break among the first `index` characters.
pub open spec fn spec_last_newline(source: Seq<char>, index: int) -> Option<int>
    decreases index,
{
    if index <= 0 || index > source.len() {
        None
    } else if source[index - 1] == '\n' {
        Some(index - 1)
    } else {
        spec_last_newline(source, index - 1)
    }
}

/// The offset at which the line of the character at `index` starts: one
/// past the last line break before `index`, or 0 where none precedes.
pub open spec fn spec_line_start_before(source: Seq<char>, index: int) -> int {
    match spec_last_newline(source, index) {
        Some(i) => i + 1,
        None => 0,
    }
}

/// The position of the character at `index`: its line is the number of
/// line breaks before it, its column the distance from the start of that
/// line. Both numbers are cut to 32 bits.
pub open spec fn spec_index_to_position(source: Seq<char>, index: usize) -> Position {
    Position {
        line: spec_newlines_before(source, index as int) as u32,
        character: (index - spec_line_start_before(source, index as int)) as u32,
    }
}

/// The offset one past the `line`-th line break at or after `from`; `from`
/// itself for `line` 0. `None` where the text has fewer line breaks.
pub open spec fn spec_line_start_from(source: Seq<char>, from: int, line: nat) -> Option<int>
    decreases source.len() - from,
{
    if line == 0 {
        Some(from)
    } else if from < 0 || from >= source.len() {
        None
    } else if source[from] == '\n' {
        spec_line_start_from(source, from + 1, (line - 1) as nat)
    } else {
        spec_line_start_from(source, from + 1, line)
    }
}

/// The offset at which line `line` starts: 0 for the first line, one past
/// the n-th line break for line n. A line that the text does not have is
/// taken to start at 0.
pub open spec fn spec_line_start(source: Seq<char>, line: u32) -> int {
    match spec_line_start_from(source, 0, line as nat) {
        Some(start) => start,
        None => 0,
    }
}

/// The character offset that a position stands for: the start of its line
/// plus its column.
pub open spec fn spec_position_to_index(source: Seq<char>, position: Position) -> int {
    spec_line_start(source, position.line) + position.character
}

pub open spec fn spec_span_to_range(source: Seq<char>, span: Span) -> Range {
    Range {
        start: spec_index_to_position(source, span.start),
        end: spec_index_to_position(source, span.end),
    }
}

/// The diagnostic for a finding in the text `source`.
pub open spec fn spec_lint_to_diagnostic(lint: LintView, source: Seq<char>) -> DiagnosticView {
    DiagnosticView {
        range: spec_span_to_range(source, lint.span),
        source: "Harper"@,
        message: lint.message,
    }
}

/// The titles of the actions for one finding: one for each suggestion.
pub open spec fn spec_lint_to_code_actions(lint: LintView) -> Seq<Seq<char>> {
    lint.suggestions.map_values(|s: Seq<char>| suggestion_text(s))
}

/// The titles of the actions for the first `n` findings of a list, of
/// those findings only whose span overlaps `span`, in the order of the
/// list.
pub open spec fn spec_actions_in(lints: Seq<LintView>, span: Span, n: int) -> Seq<Seq<char>>
    decreases n,
{
    if n <= 0 || n > lints.len() {
        Seq::empty()
    } else {
        spec_actions_in(lints, span, n - 1) + if lints[n - 1].span.spec_overlaps_with(span) {
            spec_lint_to_code_actions(lints[n - 1])
        } else {
            Seq::empty()
        }
    }
}

/// The diagnostics of a text: one for each finding of the linters.
pub open spec fn spec_diagnostics(
    text: Seq<char>,
    dictionary: Seq<Seq<char>>,
) -> Seq<DiagnosticView> {
    spec_all_linters(text, dictionary).map_values(|l: LintView| spec_lint_to_diagnostic(l, text))
}

/// A range that can be turned into a span of the text: both ends fit the
/// machine's offsets and the range does not run backwards.
pub open spec fn range_maps_forward(source: Seq<char>, range: Range) -> bool {
    spec_position_to_index(source, range.start) <= spec_position_to_index(source, range.end)
        <= usize::MAX
}

/// Between two offsets the number of line breaks does not fall, and it
/// grows by no more than the distance.
pub proof fn lemma_newlines_monotone(source: Seq<char>, a: int, b: int)
    requires
        0 <= a <= b <= source.len(),
    ensures
        spec_newlines_before(source, a) <= spec_newlines_before(source, b)
            <= spec_newlines_before(source, a) + (b - a),
    decreases b - a,
{
    if a < b {
        lemma_newlines_monotone(source, a, b - 1);
    }
}

/// Where no line break lies between two offsets, the last line break
/// before either is the same.
pub proof fn lemma_last_newline_unchanged(source: Seq<char>, a: int, b: int)
    requires
        0 <= a <= b <= source.len(),
        spec_newlines_before(source, a) == spec_newlines_before(source, b),
    ensures
        spec_last_newline(source, b) == spec_last_newline(source, a),
    decreases b - a,
{
    if a < b {
        lemma_newlines_monotone(source, a, b - 1);
        lemma_last_newline_unchanged(source, a, b - 1);
    }
}

/// A line starts at or before every character of it.
pub proof fn lemma_line_start_before_bounds(source: Seq<char>, index: int)
    requires
        0 <= index <= source.len(),
    ensures
        0 <= spec_line_start_before(source, index) <= index,
    decreases index,
{
    if index > 0 && source[index - 1] != '\n' {
        lemma_line_start_before_bounds(source, index - 1);
    }
}

/// Counting line breaks forwards from `from` finds the start of the line
/// of the character at `index`.
pub proof fn lemma_line_start_from(source: Seq<char>, from: int, index: int)
    requires
        0 <= from <= index <= source.len(),
    ensures
        spec_newlines_before(source, from) <= spec_newlines_before(source, index),
        spec_line_start_from(
            source,
            from,
            (spec_newlines_before(source, index) - spec_newlines_before(source, from)) as nat,
        ) == Some(
            if spec_newlines_before(source, index) == spec_newlines_before(source, from) {
                from
            } else {
                spec_line_start_before(source, index)
            },
        ),
    decreases index - from,
{
    lemma_newlines_monotone(source, from, index);
    let k = spec_newlines_before(source, index) - spec_newlines_before(source, from);
    if k > 0 {
        lemma_newlines_monotone(source, from + 1, index);
        lemma_line_start_from(source, from + 1, index);
        if source[from] == '\n' && k == 1 {
            lemma_last_newline_unchanged(source, from + 1, index);
        }
    }
}

/// On the first line the column is the offset itself.
pub proof fn lemma_first_line_position(source: Seq<char>, index: usize)
    requires
        index <= source.len(),
        spec_newlines_before(source, index as int) == 0,
    ensures
        spec_index_to_position(source, index) == (Position { line: 0, character: index as u32 }),
{
    lemma_last_newline_unchanged(source, 0, index as int);
}

/// The two mappings are inverse: the position of an offset stands for
/// that offset, in every text whose offsets fit 32 bits.
pub proof fn lemma_position_round_trip(source: Seq<char>, index: usize)
    requires
        index <= source.len() <= u32::MAX,
    ensures
        spec_position_to_index(source, spec_index_to_position(source, index)) == index,
{
    lemma_newlines_monotone(source, 0, index as int);
    lemma_line_start_before_bounds(source, index as int);
    lemma_line_start_from(source, 0, index as int);
    if spec_newlines_before(source, index as int) == 0 {
        lemma_last_newline_unchanged(source, 0, index as int);
    }
}

/// Finds the position of the character at `index`.
pub fn index_to_position(source: &[char], index: usize) -> (position: Position)
    requires
        index <= source@.len(),
    ensures
        position == spec_index_to_position(source@, index),
{
    let mut lines: usize = 0;
    let mut line_start: usize = 0;
    let mut i: usize = 0;
    while i < index
        invariant
            i <= index <= source@.len(),
            lines == spec_newlines_before(source@, i as int),
            lines <= i,
            line_start == spec_line_start_before(source@, i as int),
            line_start <= i,
        decreases index - i,
    {
        if source[i] == '\n' {
            lines = lines + 1;
            line_start = i + 1;
        }
        i += 1;
    }
    Position {
        line: #[verifier::truncate]
        (lines as u32),
        character: #[verifier::truncate]
        ((index - line_start) as u32),
    }
}

/// Finds the offset at which a line starts.
pub fn line_start(source: &[char], line: u32) -> (start: usize)
    ensures
        start == spec_line_start(source@, line),
        start <= source@.len(),
{
    let mut i: usize = 0;
    let mut remaining: u32 = line;
    while remaining > 0 && i < source.len()
        invariant
            i <= source@.len(),
            spec_line_start_from(source@, i as int, remaining as nat) == spec_line_start_from(
                source@,
                0,
                line as nat,
            ),
        decreases source@.len() - i,
    {
        if source[i] == '\n' {
            remaining = remaining - 1;
        }
        i += 1;
    }
    if remaining == 0 {
        i
    } else {
        0
    }
}

/// Finds the character offset that a position stands for.
pub fn position_to_index(source: &[char], position: Position) -> (index: usize)
    requires
        spec_position_to_index(source@, position) <= usize::MAX,
    ensures
        index == spec_position_to_index(source@, position),
{
    line_start(source, position.line) + position.character as usize
}

/// Finds the character offset that a position stands for, where the
/// machine's offsets can hold it.
pub fn try_position_to_index(source: &[char], position: Position) -> (index: Option<usize>)
    ensures
        index is Some <==> spec_position_to_index(source@, position) <= usize::MAX,
        index is Some ==> index->0 == spec_position_to_index(source@, position),
{
    let start = line_start(source, position.line);
    let character: usize = position.character as usize;
    if character <= usize::MAX - start {
        Some(start + character)
    } else {
        None
    }
}

/// Turns a range into a span of the text, where the range can be turned
/// into one.
pub fn try_range_to_span(source: &[char], range: Range) -> (span: Option<Span>)
    ensures
        span is Some <==> range_maps_forward(source@, range),
        span is Some ==> span->0.start == spec_position_to_index(source@, range.start)
            && span->0.end == spec_position_to_index(source@, range.end),
{
    match try_position_to_index(source, range.start) {
        None => None,
        Some(start) => match try_position_to_index(source, range.end) {
            None => None,
            Some(end) => if start <= end {
                Some(Span::new(start, end))
            } else {
                None
            },
        },
    }
}

pub fn span_to_range(source: &[char], span: Span) -> (range: Range)
    requires
        span.start <= source@.len(),
        span.end <= source@.len(),
    ensures
        range == spec_span_to_range(source@, span),
{
    let start = index_to_position(source, span.start);
    let end = index_to_position(source, span.end);
    Range { start, end }
}

pub fn range_to_span(source: &[char], range: Range) -> (span: Span)
    requires
        range_maps_forward(source@, range),
    ensures
        span.start == spec_position_to_index(source@, range.start),
        span.end == spec_position_to_index(source@, range.end),
{
    let start = position_to_index(source, range.start);
    let end = position_to_index(source, range.end);
    Span::new(start, end)
}

/// Turns a finding into a diagnostic.
pub fn lint_to_diagnostic(lint: &Lint, source: &[char]) -> (diagnostic: Diagnostic)
    requires
        lint.span.within(source@.len()),
    ensures
        diagnostic@ == spec_lint_to_diagnostic(lint@, source@),
{
    let range = span_to_range(source, lint.span);
    Diagnostic { range, source: String::from_str("Harper"), message: lint.message.clone() }
}

/// Turns the suggestions of a finding into actions, one for each.
pub fn lint_to_code_actions(lint: &Lint) -> (actions: Vec<CodeAction>)
    ensures
        actions_view(actions@) == spec_lint_to_code_actions(lint@),
{
    let mut actions: Vec<CodeAction> = Vec::new();
    let mut i: usize = 0;
    while i < lint.suggestions.len()
        invariant
            i <= lint.suggestions@.len(),
            actions@.len() == i,
            forall|j: int|
                0 <= j < i ==> (#[trigger] actions@[j])@ == suggestion_text(lint.suggestions@[j]@),
        decreases lint.suggestions@.len() - i,
    {
        let title = lint.suggestions[i].display();
        actions.push(CodeAction { title, kind: CodeActionKind::QuickFix });
        i += 1;
    }
    proof {
        assert(actions_view(actions@) =~= spec_lint_to_code_actions(lint@));
    }
    actions
}

/// Lints a text: tokenizes it and runs every linter of the registry, the
/// spell check against the host's word list. The result is a function of
/// the text and the word list alone, and every finding points inside the
/// text.
pub fn lint_string(text: &str, dictionary: &Vec<Vec<char>>) -> (lints: Vec<Lint>)
    ensures
        lints_view(lints@) == spec_all_linters(text@, words_view(dictionary@)),
        spans_valid(lints_view(lints@), text@.len()),
{
    let document = Document::new(text);
    all_linters(&document, dictionary)
}

/// The diagnostics for a text: one for each finding, in the order of the
/// findings.
pub fn generate_diagnostics(
    text: &str,
    dictionary: &Vec<Vec<char>>,
) -> (diagnostics: Vec<Diagnostic>)
    ensures
        diagnostics_view(diagnostics@) == spec_diagnostics(text@, words_view(dictionary@)),
{
    let document = Document::new(text);
    let source = document.get_source();
    let lints = all_linters(&document, dictionary);
    let mut diagnostics: Vec<Diagnostic> = Vec::new();
    let mut i: usize = 0;
    while i < lints.len()
        invariant
            i <= lints@.len(),
            source@ == text@,
            spans_valid(lints_view(lints@), source@.len()),
            diagnostics@.len() == i,
            forall|j: int|
                0 <= j < i ==> (#[trigger] diagnostics@[j])@ == spec_lint_to_diagnostic(
                    lints@[j]@,
                    source@,
                ),
        decreases lints@.len() - i,
    {
        assert(lints_view(lints@)[i as int] == lints@[i as int]@);
        diagnostics.push(lint_to_diagnostic(&lints[i], source));
        i += 1;
    }
    proof {
        assert(diagnostics_view(diagnostics@) =~= lints_view(lints@).map_values(
            |l: LintView| spec_lint_to_diagnostic(l, text@),
        ));
    }
    diagnostics
}

/// The actions for the findings of a text that overlap `range`: for each
/// such finding, in the order of the findings, one action for each of its
/// suggestions.
pub fn generate_code_actions(
    text: &str,
    dictionary: &Vec<Vec<char>>,
    range: Range,
) -> (actions: Vec<CodeAction>)
    requires
        range_maps_forward(text@, range),
    ensures
        actions_view(actions@) == spec_actions_in(
            spec_all_linters(text@, words_view(dictionary@)),
            Span {
                start: spec_position_to_index(text@, range.start) as usize,
                end: spec_position_to_index(text@, range.end) as usize,
            },
            spec_all_linters(text@, words_view(dictionary@)).len() as int,
        ),
{
    let document = Document::new(text);
    let source = document.get_source();
    let lints = all_linters(&document, dictionary);
    let span = range_to_span(source, range);
    let mut actions: Vec<CodeAction> = Vec::new();
    let mut i: usize = 0;
    proof {
        assert(actions_view(actions@) =~= spec_actions_in(lints_view(lints@), span, 0));
    }
    while i < lints.len()
        invariant
            i <= lints@.len(),
            actions_view(actions@) == spec_actions_in(lints_view(lints@), span, i as int),
        decreases lints@.len() - i,
    {
        assert(lints_view(lints@)[i as int] == lints@[i as int]@);
        if lints[i].span.overlaps_with(span) {
            let mut more = lint_to_code_actions(&lints[i]);
            proof {
                assert(actions_view(actions@ + more@) =~= actions_view(actions@) + actions_view(
                    more@,
                ));
            }
            actions.append(&mut more);
        } else {
            proof {
                assert(actions_view(actions@) + Seq::<Seq<char>>::empty() =~= actions_view(
                    actions@,
                ));
            }
        }
        i += 1;
    }
    actions
}

} // verus!
