use vstd::prelude::*;
use vstd::slice::slice_subrange;
use crate::text::{spec_text_eq_ignore_case, text_eq_ignore_case};
use crate::token::{Punctuation, Token, TokenKind};

verus! {

/// A rule over a window of tokens, as a mathematical value.
pub enum PatternView {
    AnyWordIn(Seq<Seq<char>>),
    Punctuation(Punctuation),
    Sequence(Seq<PatternView>),
    ConsumesRemaining(Box<PatternView>),
}

/// A rule over a window of tokens: it either matches at the start of the
/// window, consuming some of its tokens, or it does not match. A pattern
/// never looks for a match further into the window: whoever scans a text
/// anchors it anew at every token.
pub enum Pattern {
    /// One word token whose text is in the set, whatever the case of its
    /// ASCII letters.
    AnyWordIn(Vec<Vec<char>>),
    /// One token that is the given punctuation mark.
    Punctuation(Punctuation),
    /// Each pattern in turn, each starting where the one before it ended.
    /// A sequence without patterns matches nothing.
    Sequence(Vec<Pattern>),
    /// Where the inner pattern matches, the match takes the whole window.
    ConsumesRemaining(Box<Pattern>),
}

/// Every token points inside a text of `len` characters.
pub open spec fn spans_within(tokens: Seq<Token>, len: nat) -> bool {
    forall|i: int| 0 <= i < tokens.len() ==> (#[trigger] tokens[i]).span.within(len)
}

/// Some word of the set equals `content` up to the case of ASCII letters.
pub open spec fn spec_word_in(words: Seq<Seq<char>>, content: Seq<char>) -> bool {
    exists|i: int| 0 <= i < words.len() && spec_text_eq_ignore_case(#[trigger] words[i], content)
}

/// The words of a set as mathematical values.
pub open spec fn words_view(words: Seq<Vec<char>>) -> Seq<Seq<char>> {
    words.map_values(|w: Vec<char>| w@)
}

/// The count of a match that consumed `consumed` tokens and then went on
/// as `rest` says.
pub open spec fn and_then_consumed(consumed: nat, rest: Option<nat>) -> Option<nat> {
    match rest {
        Some(r) => Some(consumed + r),
        None => None,
    }
}

/// The match of the patterns `steps[i..]`, one after the other, on a window.
pub open spec fn spec_match_steps(
    steps: Seq<PatternView>,
    i: int,
    tokens: Seq<Token>,
    source: Seq<char>,
) -> Option<nat>
    decreases steps, steps.len() - i,
{
    if i < 0 || i >= steps.len() {
        Some(0)
    } else {
        match steps[i].spec_match(tokens, source) {
            None => None,
            Some(k) => and_then_consumed(
                k,
                spec_match_steps(steps, i + 1, tokens.skip(k as int), source),
            ),
        }
    }
}

/// The first `n` patterns of a list as mathematical values.
pub open spec fn steps_view(steps: Seq<Pattern>, n: int) -> Seq<PatternView>
    decreases steps, n,
{
    if n <= 0 || n > steps.len() {
        Seq::empty()
    } else {
        steps_view(steps, n - 1).push(steps[n - 1].model())
    }
}

pub proof fn lemma_steps_view(steps: Seq<Pattern>, n: int)
    requires
        0 <= n <= steps.len(),
    ensures
        steps_view(steps, n).len() == n,
        forall|i: int| 0 <= i < n ==> (#[trigger] steps_view(steps, n)[i]) == steps[i]@,
    decreases n,
{
    if n > 0 {
        lemma_steps_view(steps, n - 1);
    }
}

impl Pattern {
    /// The pattern as a mathematical value.
    pub open spec fn model(self) -> PatternView
        decreases self,
    {
        match self {
            Pattern::AnyWordIn(words) => PatternView::AnyWordIn(words_view(words@)),
            Pattern::Punctuation(mark) => PatternView::Punctuation(mark),
            Pattern::Sequence(steps) => PatternView::Sequence(
                steps_view(steps@, steps@.len() as int),
            ),
            Pattern::ConsumesRemaining(inner) => PatternView::ConsumesRemaining(
                Box::new(inner.model()),
            ),
        }
    }
}

impl View for Pattern {
    type V = PatternView;

    open spec fn view(&self) -> PatternView {
        self.model()
    }
}

impl PatternView {
    /// Whether the pattern matches at the start of the window `tokens` of
    /// a text `source`, and how many tokens the match consumes.
    pub open spec fn spec_match(self, tokens: Seq<Token>, source: Seq<char>) -> Option<nat>
        decreases self,
    {
        match self {
            PatternView::AnyWordIn(words) => {
                if tokens.len() > 0 && tokens[0].kind == TokenKind::Word && spec_word_in(
                    words,
                    tokens[0].span.content(source),
                ) {
                    Some(1)
                } else {
                    None
                }
            },
            PatternView::Punctuation(mark) => {
                if tokens.len() > 0 && tokens[0].kind == TokenKind::Punctuation(mark) {
                    Some(1)
                } else {
                    None
                }
            },
            PatternView::Sequence(steps) => {
                match spec_match_steps(steps, 0, tokens, source) {
                    Some(k) => if k > 0 {
                        Some(k)
                    } else {
                        None
                    },
                    None => None,
                }
            },
            PatternView::ConsumesRemaining(inner) => {
                match inner.spec_match(tokens, source) {
                    Some(_) => Some(tokens.len()),
                    None => None,
                }
            },
        }
    }

    /// A match consumes at least one token and never more than the window
    /// holds.
    pub proof fn lemma_match_bounded(self, tokens: Seq<Token>, source: Seq<char>)
        ensures
            self.spec_match(tokens, source) is Some ==> 1 <= self.spec_match(tokens, source)->0
                <= tokens.len(),
        decreases self,
    {
        match self {
            PatternView::Sequence(steps) => {
                lemma_steps_bounded(steps, 0, tokens, source);
            },
            PatternView::ConsumesRemaining(inner) => {
                inner.lemma_match_bounded(tokens, source);
            },
            _ => {},
        }
    }
}

/// A sequence never consumes more tokens than the window holds.
pub proof fn lemma_steps_bounded(
    steps: Seq<PatternView>,
    i: int,
    tokens: Seq<Token>,
    source: Seq<char>,
)
    ensures
        spec_match_steps(steps, i, tokens, source) is Some ==> spec_match_steps(
            steps,
            i,
            tokens,
            source,
        )->0 <= tokens.len(),
    decreases steps, steps.len() - i,
{
    if 0 <= i < steps.len() {
        steps[i].lemma_match_bounded(tokens, source);
        match steps[i].spec_match(tokens, source) {
            None => {},
            Some(k) => {
                lemma_steps_bounded(steps, i + 1, tokens.skip(k as int), source);
            },
        }
    }
}

impl Pattern {
    /// An empty sequence, to which patterns are added one by one.
    pub fn sequence() -> (p: Pattern)
        ensures
            p@ == PatternView::Sequence(Seq::empty()),
    {
        let steps: Vec<Pattern> = Vec::new();
        proof {
            lemma_steps_view(steps@, 0);
            assert(steps_view(steps@, 0) =~= Seq::<PatternView>::empty());
        }
        Pattern::Sequence(steps)
    }

    /// The pattern that matches one word of the set.
    pub fn any_word_in(words: Vec<Vec<char>>) -> (p: Pattern)
        ensures
            p@ == PatternView::AnyWordIn(words_view(words@)),
    {
        Pattern::AnyWordIn(words)
    }

    /// The pattern that takes the whole window where `inner` matches.
    pub fn consumes_remaining(inner: Pattern) -> (p: Pattern)
        ensures
            p@ == PatternView::ConsumesRemaining(Box::new(inner@)),
    {
        Pattern::ConsumesRemaining(Box::new(inner))
    }

    /// The steps of the sequence that a builder extends: those of a sequence,
    /// or the pattern itself as the only step.
    pub open spec fn spec_steps(pattern: PatternView) -> Seq<PatternView> {
        match pattern {
            PatternView::Sequence(steps) => steps,
            other => seq![other],
        }
    }

    /// The sequence of this pattern's steps followed by `next`.
    pub fn then_pattern(self, next: Pattern) -> (p: Pattern)
        ensures
            p@ == PatternView::Sequence(Pattern::spec_steps(self@).push(next@)),
    {
        match self {
            Pattern::Sequence(steps) => {
                let mut steps = steps;
                proof {
                    lemma_steps_view(steps@, steps@.len() as int);
                    lemma_steps_view(steps@.push(next), steps@.len() as int + 1);
                    assert(steps_view(steps@.push(next), steps@.len() as int + 1) =~= steps_view(
                        steps@,
                        steps@.len() as int,
                    ).push(next@));
                }
                steps.push(next);
                Pattern::Sequence(steps)
            },
            other => {
                let ghost first = other@;
                let mut steps: Vec<Pattern> = Vec::new();
                steps.push(other);
                steps.push(next);
                proof {
                    lemma_steps_view(steps@, 2);
                    assert(steps_view(steps@, 2) =~= seq![first].push(next@));
                }
                Pattern::Sequence(steps)
            },
        }
    }

    /// This pattern followed by one word of the set.
    pub fn then_any_word_in(self, words: Vec<Vec<char>>) -> (p: Pattern)
        ensures
            p@ == PatternView::Sequence(
                Pattern::spec_steps(self@).push(PatternView::AnyWordIn(words_view(words@))),
            ),
    {
        self.then_pattern(Pattern::AnyWordIn(words))
    }

    /// This pattern followed by the given punctuation mark.
    pub fn then_punctuation(self, mark: Punctuation) -> (p: Pattern)
        ensures
            p@ == PatternView::Sequence(
                Pattern::spec_steps(self@).push(PatternView::Punctuation(mark)),
            ),
    {
        self.then_pattern(Pattern::Punctuation(mark))
    }

    /// This pattern followed by a comma.
    pub fn then_comma(self) -> (p: Pattern)
        ensures
            p@ == PatternView::Sequence(
                Pattern::spec_steps(self@).push(PatternView::Punctuation(Punctuation::Comma)),
            ),
    {
        self.then_punctuation(Punctuation::Comma)
    }

    /// Tries the pattern at the start of the window `tokens`.
    pub fn try_match(&self, tokens: &[Token], source: &[char]) -> (r: Option<usize>)
        requires
            spans_within(tokens@, source@.len()),
        ensures
            r is Some <==> self@.spec_match(tokens@, source@) is Some,
            r is Some ==> r->0 == self@.spec_match(tokens@, source@)->0,
            r is Some ==> 1 <= r->0 <= tokens@.len(),
        decreases self,
    {
        proof {
            self@.lemma_match_bounded(tokens@, source@);
        }
        match self {
            Pattern::AnyWordIn(words) => {
                if tokens.len() > 0 && tokens[0].kind.is_word() && word_in(
                    words,
                    tokens[0].span.get_content(source),
                ) {
                    Some(1)
                } else {
                    None
                }
            },
            Pattern::Punctuation(mark) => {
                if tokens.len() > 0 && tokens[0].kind.is_punctuation(*mark) {
                    Some(1)
                } else {
                    None
                }
            },
            Pattern::Sequence(steps) => {
                let mut consumed: usize = 0;
                let mut i: usize = 0;
                let ghost views = steps_view(steps@, steps@.len() as int);
                proof {
                    assert(tokens@.skip(0) =~= tokens@);
                    lemma_steps_view(steps@, steps@.len() as int);
                }
                while i < steps.len()
                    invariant
                        *self == Pattern::Sequence(*steps),
                        views == steps_view(steps@, steps@.len() as int),
                        views.len() == steps@.len(),
                        forall|j: int| 0 <= j < steps@.len() ==> (#[trigger] views[j]) == steps@[j]@,
                        i <= steps@.len(),
                        consumed <= tokens@.len(),
                        spans_within(tokens@, source@.len()),
                        spec_match_steps(views, 0, tokens@, source@) == and_then_consumed(
                            consumed as nat,
                            spec_match_steps(
                                views,
                                i as int,
                                tokens@.skip(consumed as int),
                                source@,
                            ),
                        ),
                    decreases steps@.len() - i,
                {
                    let window = slice_subrange(tokens, consumed, tokens.len());
                    proof {
                        assert(window@ =~= tokens@.skip(consumed as int));
                        assert(views[i as int] == steps@[i as int]@);
                        views[i as int].lemma_match_bounded(window@, source@);
                    }
                    match steps[i].try_match(window, source) {
                        None => {
                            return None;
                        },
                        Some(k) => {
                            proof {
                                assert(tokens@.skip(consumed as int).skip(k as int) =~= tokens@.skip(
                                    consumed + k,
                                ));
                            }
                            consumed = consumed + k;
                        },
                    }
                    i += 1;
                }
                if consumed > 0 {
                    Some(consumed)
                } else {
                    None
                }
            },
            Pattern::ConsumesRemaining(inner) => {
                match inner.try_match(tokens, source) {
                    Some(_) => Some(tokens.len()),
                    None => None,
                }
            },
        }
    }
}

/// Looks a text up in a word set, ignoring the case of ASCII letters.
pub fn word_in(words: &Vec<Vec<char>>, content: &[char]) -> (found: bool)
    ensures
        found == spec_word_in(words_view(words@), content@),
{
    let mut i: usize = 0;
    while i < words.len()
        invariant
            i <= words@.len(),
            forall|j: int|
                0 <= j < i ==> !spec_text_eq_ignore_case(
                    #[trigger] words_view(words@)[j],
                    content@,
                ),
        decreases words@.len() - i,
    {
        if text_eq_ignore_case(words[i].as_slice(), content) {
            assert(words_view(words@)[i as int] == words@[i as int]@);
            return true;
        }
        assert(words_view(words@)[i as int] == words@[i as int]@);
        i += 1;
    }
    false
}

} // verus!
