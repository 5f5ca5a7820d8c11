//! The matcher: walks a compiled expression tree against an input string by
//! backtracking search and returns the first matched substring.
//!
//! Unless the tree begins with the `^` anchor, the match is unanchored: an
//! attempt is made at offset 0, then at offset 1, and so on, each with a
//! fresh, empty capture list, until one succeeds or the input is exhausted.
//! If the tree's first node is the `^` anchor, exactly one attempt is made
//! at the start of the input.
//!
//! Anchors consume one character: the caller is expected to wrap the input
//! in newline sentinels, and `^` and `$` match those newlines as ordinary
//! one-character nodes rather than asserting a position. Every other leaf
//! consumes exactly one character as well.
//!
//! A greedy repetition inside a sequence first extends itself as far as it
//! can, then tries the remainder of the sequence from the deepest repetition
//! count backwards; the first count from which the remainder succeeds wins.
//! A repetition whose body matches without consuming input cannot extend the
//! match further, so the search stops extending there. Alternation tries its
//! branches in order and commits to the first that succeeds; a failed
//! branch's captures are discarded, never merged. An optional node commits
//! to its inner match when there is one and otherwise matches the empty
//! string. A capture appends its matched text to the capture list at the
//! moment it succeeds, so captures are numbered by the order of success
//! along the surviving path. A backreference replays the captured text
//! character for character, and fails when no such capture exists yet.
//!
//! The `spec_*` functions define these semantics over the model; the
//! executable functions are proved to return exactly what they say.

use crate::character_sets;
use crate::expression::Expression;
use crate::expression::SpecExpression;
use crate::expression::expr_model;
use crate::expression::exprs_model;
use crate::expression::expr_size;
use crate::expression::sum_sizes;
use crate::expression::lemma_expr_size_pos;
use crate::expression::lemma_exprs_model_len;
use crate::expression::lemma_exprs_model_index;
use crate::expression::lemma_model_variants;
use vstd::prelude::*;

verus! {

/// One successful match step: the matched text, the input position after
/// it, and the capture list after it.
pub struct MatchOutcome {
    pub text: Seq<char>,
    pub pos: int,
    pub captures: Seq<Seq<char>>,
}

/// How much input is left from a position; the primary termination measure
/// of the matcher.
pub open spec fn remaining(input: Seq<char>, pos: int) -> int {
    if pos <= input.len() {
        input.len() - pos
    } else {
        0
    }
}

/// Whether a character of the input satisfies an escape class: `d` accepts
/// digits, `w` accepts word characters, `\` accepts a backslash, and
/// anything else accepts nothing.
pub open spec fn escape_matches(next_char: char, escape_pattern: char) -> bool {
    if escape_pattern == 'd' {
        character_sets::is_numeric_character(next_char)
    } else if escape_pattern == 'w' {
        character_sets::is_alphanumeric_character(next_char)
    } else if escape_pattern == '\\' {
        next_char == '\\'
    } else {
        false
    }
}

/// What matching one node at `pos` yields. Failure is `None`; success gives
/// the matched text, the new position, and the new capture list. A bare
/// repetition node fails: the parser only ever places one inside a
/// sequence, which handles it with the remainder in view.
pub open spec fn spec_step(
    e: SpecExpression,
    input: Seq<char>,
    pos: int,
    captures: Seq<Seq<char>>,
) -> Option<MatchOutcome>
    decreases remaining(input, pos), expr_size(e), 0int,
{
    match e {
        SpecExpression::Empty => Some(MatchOutcome { text: Seq::empty(), pos, captures }),
        SpecExpression::Sequence(children) => spec_sequence(children, input, pos, captures),
        SpecExpression::Literal(c) => if 0 <= pos < input.len() && input[pos] == c {
            Some(MatchOutcome { text: seq![c], pos: pos + 1, captures })
        } else {
            None
        },
        SpecExpression::Wildcard => if 0 <= pos < input.len()
            && character_sets::is_valid_character(input[pos]) {
            Some(MatchOutcome { text: seq![input[pos]], pos: pos + 1, captures })
        } else {
            None
        },
        SpecExpression::Escape(class) => if 0 <= pos < input.len() && escape_matches(
            input[pos],
            class,
        ) {
            Some(MatchOutcome { text: seq![input[pos]], pos: pos + 1, captures })
        } else {
            None
        },
        SpecExpression::CharacterGroup(set) => if 0 <= pos < input.len() && set.contains(
            input[pos],
        ) {
            Some(MatchOutcome { text: seq![input[pos]], pos: pos + 1, captures })
        } else {
            None
        },
        SpecExpression::NegativeCharacterGroup(set) => if 0 <= pos < input.len() && !set.contains(
            input[pos],
        ) {
            Some(MatchOutcome { text: seq![input[pos]], pos: pos + 1, captures })
        } else {
            None
        },
        SpecExpression::BeginningOfLine => if 0 <= pos < input.len() && input[pos] == '\n' {
            Some(MatchOutcome { text: Seq::empty(), pos: pos + 1, captures })
        } else {
            None
        },
        SpecExpression::EndOfLine => if 0 <= pos < input.len() && input[pos] == '\n' {
            Some(MatchOutcome { text: Seq::empty(), pos: pos + 1, captures })
        } else {
            None
        },
        SpecExpression::Capture(inner) => match spec_step(*inner, input, pos, captures) {
            Some(o) => Some(
                MatchOutcome { text: o.text, pos: o.pos, captures: o.captures.push(o.text) },
            ),
            None => None,
        },
        SpecExpression::Repeat(_) => None,
        SpecExpression::Optional(inner) => match spec_step(*inner, input, pos, captures) {
            Some(o) => Some(o),
            None => Some(MatchOutcome { text: Seq::empty(), pos, captures }),
        },
        SpecExpression::Alternation(branches) => spec_alternation(branches, input, pos, captures),
        SpecExpression::BackReference(index) => if 1 <= index <= captures.len() {
            let t = captures[index - 1];
            if 0 <= pos && pos + t.len() <= input.len() && input.subrange(
                pos,
                pos + t.len() as int,
            ) == t {
                Some(MatchOutcome { text: t, pos: pos + t.len() as int, captures })
            } else {
                None
            }
        } else {
            None
        },
    }
}

/// What matching a sequence of children at `pos` yields: the children match
/// in order, threading position and captures, and the matched text is the
/// concatenation of theirs. A repetition child is handled together with the
/// remainder of the sequence, which it must look past.
pub open spec fn spec_sequence(
    children: Seq<SpecExpression>,
    input: Seq<char>,
    pos: int,
    captures: Seq<Seq<char>>,
) -> Option<MatchOutcome>
    decreases remaining(input, pos), sum_sizes(children), 1int,
{
    if children.len() == 0 {
        Some(MatchOutcome { text: Seq::empty(), pos, captures })
    } else {
        match children[0] {
            SpecExpression::Repeat(inner) => spec_repeat(
                *inner,
                children.drop_first(),
                input,
                pos,
                captures,
            ),
            _ => match spec_step(children[0], input, pos, captures) {
                Some(o) => if pos <= o.pos <= input.len() {
                    proof {
                        lemma_expr_size_pos(children[0]);
                    }
                    match spec_sequence(children.drop_first(), input, o.pos, o.captures) {
                        Some(o2) => Some(
                            MatchOutcome {
                                text: o.text + o2.text,
                                pos: o2.pos,
                                captures: o2.captures,
                            },
                        ),
                        None => None,
                    }
                } else {
                    None
                },
                None => None,
            },
        }
    }
}

/// What a greedy repetition of `inner`, followed by the sequence `rest`,
/// yields from `pos`: first one more repetition is tried, and the deeper
/// search with it; only when everything deeper fails is `rest` tried here,
/// so the deepest repetition count wins. A repetition that consumes no
/// input cannot extend the match and ends the greedy phase.
pub open spec fn spec_repeat(
    inner: SpecExpression,
    rest: Seq<SpecExpression>,
    input: Seq<char>,
    pos: int,
    captures: Seq<Seq<char>>,
) -> Option<MatchOutcome>
    decreases remaining(input, pos), expr_size(inner) + sum_sizes(rest), 1int,
{
    proof {
        lemma_expr_size_pos(inner);
    }
    match spec_step(inner, input, pos, captures) {
        Some(o) => if pos < o.pos <= input.len() {
            match spec_repeat(inner, rest, input, o.pos, o.captures) {
                Some(o2) => Some(
                    MatchOutcome { text: o.text + o2.text, pos: o2.pos, captures: o2.captures },
                ),
                None => spec_sequence(rest, input, pos, captures),
            }
        } else {
            spec_sequence(rest, input, pos, captures)
        },
        None => spec_sequence(rest, input, pos, captures),
    }
}

/// What an alternation yields: the first branch, in order, that matches;
/// the captures of failed branches are discarded.
pub open spec fn spec_alternation(
    branches: Seq<SpecExpression>,
    input: Seq<char>,
    pos: int,
    captures: Seq<Seq<char>>,
) -> Option<MatchOutcome>
    decreases remaining(input, pos), sum_sizes(branches), 1int,
{
    if branches.len() == 0 {
        None
    } else {
        proof {
            lemma_expr_size_pos(branches[0]);
        }
        match spec_step(branches[0], input, pos, captures) {
            Some(o) => Some(o),
            None => spec_alternation(branches.drop_first(), input, pos, captures),
        }
    }
}

/// Whether a tree's first node is the `^` anchor, in which case the match
/// is attempted once, at the start of the input only.
pub open spec fn starts_with_beginning_anchor(e: SpecExpression) -> bool {
    match e {
        SpecExpression::Sequence(children) => children.len() > 0
            && children[0] is BeginningOfLine,
        _ => false,
    }
}

/// The first offset at or after `from` where the tree matches, each attempt
/// starting with an empty capture list; the result is that attempt's
/// matched text.
pub open spec fn spec_search(e: SpecExpression, input: Seq<char>, from: int) -> Option<Seq<char>>
    decreases input.len() - from,
{
    if from < 0 || from >= input.len() {
        None
    } else {
        match spec_step(e, input, from, Seq::empty()) {
            Some(o) => Some(o.text),
            None => spec_search(e, input, from + 1),
        }
    }
}

/// What matching a tree against an input yields: the first matched
/// substring scanning left to right, or one anchored attempt at the start
/// when the tree begins with `^`.
pub open spec fn spec_evaluate(e: SpecExpression, input: Seq<char>) -> Option<Seq<char>> {
    if starts_with_beginning_anchor(e) {
        match spec_step(e, input, 0, Seq::empty()) {
            Some(o) => Some(o.text),
            None => None,
        }
    } else {
        spec_search(e, input, 0)
    }
}

/// One successful executable match step; see [`MatchOutcome`] for what the
/// fields mean.
pub struct StepResult {
    pub text: Vec<char>,
    pub pos: usize,
    pub captures: Vec<Vec<char>>,
}

/// The model of an executable capture list.
pub open spec fn texts_model(s: Seq<Vec<char>>) -> Seq<Seq<char>> {
    s.map_values(|v: Vec<char>| v@)
}

/// How an executable match step corresponds to the specification-level one.
pub open spec fn outcome_models(r: Option<StepResult>, m: Option<MatchOutcome>) -> bool {
    match (r, m) {
        (Some(s), Some(o)) => s.text@ == o.text && s.pos as int == o.pos && texts_model(s.captures@)
            == o.captures,
        (None, None) => true,
        _ => false,
    }
}

/// How an executable match result corresponds to the specification-level
/// one.
pub open spec fn found_models(r: Option<String>, m: Option<Seq<char>>) -> bool {
    match (r, m) {
        (Some(s), Some(t)) => s@ == t,
        (None, None) => true,
        _ => false,
    }
}

/// A copy of a character vector with the same contents.
fn clone_chars(v: &Vec<char>) -> (r: Vec<char>)
    ensures
        r@ == v@,
{
    vstd::slice::slice_to_vec(v.as_slice())
}

/// A copy of a capture list with the same model.
fn clone_captures(v: &Vec<Vec<char>>) -> (r: Vec<Vec<char>>)
    ensures
        texts_model(r@) == texts_model(v@),
{
    let mut r: Vec<Vec<char>> = Vec::new();
    let mut i: usize = 0;
    while i < v.len()
        invariant
            i <= v@.len(),
            r@.len() == i,
            forall|j: int| 0 <= j < i ==> r@[j]@ == v@[j]@,
        decreases v@.len() - i,
    {
        let t = clone_chars(&v[i]);
        r.push(t);
        i = i + 1;
    }
    proof {
        assert(texts_model(r@) =~= texts_model(v@));
    }
    r
}

/// Membership test of a character in a character-group set.
fn vec_contains_char(v: &Vec<char>, c: char) -> (b: bool)
    ensures
        b == v@.contains(c),
{
    let mut i: usize = 0;
    while i < v.len()
        invariant
            i <= v@.len(),
            forall|j: int| 0 <= j < i ==> v@[j] != c,
        decreases v@.len() - i,
    {
        if v[i] == c {
            return true;
        }
        i = i + 1;
    }
    false
}

/// Whether a character of the input satisfies an escape class; see
/// [`escape_matches`]. An unrecognized class accepts nothing, though the
/// parser never produces one.
pub fn match_escape_pattern(next_char: char, escape_pattern: &char) -> (r: bool)
    ensures
        r == escape_matches(next_char, *escape_pattern),
{
    if *escape_pattern == 'd' {
        character_sets::is_numeric(next_char)
    } else if *escape_pattern == 'w' {
        character_sets::is_alphanumeric(next_char)
    } else if *escape_pattern == '\\' {
        next_char == '\\'
    } else {
        false
    }
}

/// A one-character vector.
fn one_char(c: char) -> (r: Vec<char>)
    ensures
        r@ == seq![c],
{
    let mut r: Vec<char> = Vec::new();
    r.push(c);
    proof {
        assert(r@ =~= seq![c]);
    }
    r
}

/// Matches one node at `pos`: the executable counterpart of [`spec_step`],
/// proved to yield exactly what it says.
pub fn evaluate_from_beginning(
    expression: &Expression,
    input: &Vec<char>,
    pos: usize,
    captures: &Vec<Vec<char>>,
) -> (r: Option<StepResult>)
    requires
        pos <= input@.len(),
    ensures
        outcome_models(
            r,
            spec_step(expr_model(*expression), input@, pos as int, texts_model(captures@)),
        ),
        r is Some ==> pos <= r->0.pos <= input@.len(),
    decreases input@.len() - pos, expr_size(expr_model(*expression)), 0int,
{
    match expression {
        Expression::Empty => Some(
            StepResult { text: Vec::new(), pos, captures: clone_captures(captures) },
        ),
        Expression::Sequence(children) => {
            proof {
                assert(exprs_model(children@).skip(0) =~= exprs_model(children@));
            }
            evaluate_sequence(children, 0, input, pos, captures)
        },
        Expression::Literal(c) => {
            if pos < input.len() && input[pos] == *c {
                Some(
                    StepResult {
                        text: one_char(*c),
                        pos: pos + 1,
                        captures: clone_captures(captures),
                    },
                )
            } else {
                None
            }
        },
        Expression::Wildcard => {
            if pos < input.len() && character_sets::is_valid(input[pos]) {
                Some(
                    StepResult {
                        text: one_char(input[pos]),
                        pos: pos + 1,
                        captures: clone_captures(captures),
                    },
                )
            } else {
                None
            }
        },
        Expression::Escape(class) => {
            if pos < input.len() && match_escape_pattern(input[pos], class) {
                Some(
                    StepResult {
                        text: one_char(input[pos]),
                        pos: pos + 1,
                        captures: clone_captures(captures),
                    },
                )
            } else {
                None
            }
        },
        Expression::CharacterGroup(set) => {
            if pos < input.len() && vec_contains_char(set, input[pos]) {
                Some(
                    StepResult {
                        text: one_char(input[pos]),
                        pos: pos + 1,
                        captures: clone_captures(captures),
                    },
                )
            } else {
                None
            }
        },
        Expression::NegativeCharacterGroup(set) => {
            if pos < input.len() && !vec_contains_char(set, input[pos]) {
                Some(
                    StepResult {
                        text: one_char(input[pos]),
                        pos: pos + 1,
                        captures: clone_captures(captures),
                    },
                )
            } else {
                None
            }
        },
        Expression::BeginningOfLine => {
            if pos < input.len() && input[pos] == '\n' {
                Some(
                    StepResult { text: Vec::new(), pos: pos + 1, captures: clone_captures(captures) },
                )
            } else {
                None
            }
        },
        Expression::EndOfLine => {
            if pos < input.len() && input[pos] == '\n' {
                Some(
                    StepResult { text: Vec::new(), pos: pos + 1, captures: clone_captures(captures) },
                )
            } else {
                None
            }
        },
        Expression::Capture(inner) => {
            match evaluate_from_beginning(&**inner, input, pos, captures) {
                Some(o) => {
                    let StepResult { text, pos: new_pos, captures: mut caps } = o;
                    let recorded = clone_chars(&text);
                    let ghost caps_before = texts_model(caps@);
                    caps.push(recorded);
                    proof {
                        assert(texts_model(caps@) =~= caps_before.push(text@));
                    }
                    Some(StepResult { text, pos: new_pos, captures: caps })
                },
                None => None,
            }
        },
        Expression::Repeat(_) => None,
        Expression::Optional(inner) => {
            match evaluate_from_beginning(&**inner, input, pos, captures) {
                Some(o) => Some(o),
                None => Some(
                    StepResult { text: Vec::new(), pos, captures: clone_captures(captures) },
                ),
            }
        },
        Expression::Alternation(branches) => {
            proof {
                assert(exprs_model(branches@).skip(0) =~= exprs_model(branches@));
            }
            evaluate_alternation(branches, 0, input, pos, captures)
        },
        Expression::BackReference(index) => {
            let idx = *index;
            if 1 <= idx && idx <= captures.len() {
                let needed = &captures[idx - 1];
                let n = needed.len();
                if n <= input.len() - pos {
                    let last = pos + n;
                    let mut k: usize = 0;
                    while k < n
                        invariant
                            k <= n,
                            n == needed@.len(),
                            last == pos + n,
                            pos + n <= input@.len(),
                            1 <= idx <= captures@.len(),
                            needed@ == captures@[idx - 1]@,
                            expr_model(*expression) == SpecExpression::BackReference(idx as int),
                            forall|j: int| 0 <= j < k ==> input@[pos + j] == needed@[j],
                        decreases n - k,
                    {
                        if input[pos + k] != needed[k] {
                            proof {
                                let t = texts_model(captures@)[idx as int - 1];
                                assert(texts_model(captures@).len() == captures@.len());
                                assert(t == needed@);
                                assert(input@.subrange(pos as int, pos + n as int)[k as int]
                                    != t[k as int]);
                                assert(input@.subrange(pos as int, pos + n as int) != t);
                            }
                            return None;
                        }
                        k = k + 1;
                    }
                    proof {
                        assert(input@.subrange(pos as int, pos + n as int) =~= needed@);
                    }
                    Some(
                        StepResult {
                            text: clone_chars(needed),
                            pos: pos + n,
                            captures: clone_captures(captures),
                        },
                    )
                } else {
                    None
                }
            } else {
                None
            }
        },
    }
}

/// Matches the children of a sequence from index `from` on; the executable
/// counterpart of [`spec_sequence`].
fn evaluate_sequence(
    children: &Vec<Expression>,
    from: usize,
    input: &Vec<char>,
    pos: usize,
    captures: &Vec<Vec<char>>,
) -> (r: Option<StepResult>)
    requires
        pos <= input@.len(),
        from <= children@.len(),
    ensures
        outcome_models(
            r,
            spec_sequence(
                exprs_model(children@).skip(from as int),
                input@,
                pos as int,
                texts_model(captures@),
            ),
        ),
        r is Some ==> pos <= r->0.pos <= input@.len(),
    decreases input@.len() - pos, sum_sizes(exprs_model(children@).skip(from as int)), 1int,
{
    let ghost cs = exprs_model(children@).skip(from as int);
    proof {
        broadcast use lemma_exprs_model_len, lemma_exprs_model_index;

    }
    if from == children.len() {
        return Some(StepResult { text: Vec::new(), pos, captures: clone_captures(captures) });
    }
    let child = &children[from];
    proof {
        assert(cs[0] == expr_model(children@[from as int]));
        assert(cs.drop_first() =~= exprs_model(children@).skip(from as int + 1));
        lemma_model_variants(*child);
    }
    match child {
        Expression::Repeat(inner) => {
            proof {
                assert(cs[0] == SpecExpression::Repeat(Box::new(expr_model(**inner))));
                assert(sum_sizes(cs) == expr_size(cs[0]) + sum_sizes(cs.drop_first()));
                assert(expr_size(cs[0]) == 1 + expr_size(expr_model(**inner)));
            }
            evaluate_repeat(&**inner, children, from + 1, input, pos, captures)
        },
        _ => {
            match evaluate_from_beginning(child, input, pos, captures) {
                Some(o) => {
                    proof {
                        lemma_expr_size_pos(cs[0]);
                    }
                    match evaluate_sequence(children, from + 1, input, o.pos, &o.captures) {
                        Some(o2) => {
                            let mut text = o.text;
                            let mut tail = o2.text;
                            text.append(&mut tail);
                            Some(StepResult { text, pos: o2.pos, captures: o2.captures })
                        },
                        None => None,
                    }
                },
                None => None,
            }
        },
    }
}

/// Matches a greedy repetition of `inner` followed by the children of the
/// surrounding sequence from index `from` on; the executable counterpart of
/// [`spec_repeat`].
fn evaluate_repeat(
    inner: &Expression,
    children: &Vec<Expression>,
    from: usize,
    input: &Vec<char>,
    pos: usize,
    captures: &Vec<Vec<char>>,
) -> (r: Option<StepResult>)
    requires
        pos <= input@.len(),
        from <= children@.len(),
    ensures
        outcome_models(
            r,
            spec_repeat(
                expr_model(*inner),
                exprs_model(children@).skip(from as int),
                input@,
                pos as int,
                texts_model(captures@),
            ),
        ),
        r is Some ==> pos <= r->0.pos <= input@.len(),
    decreases input@.len() - pos,
        expr_size(expr_model(*inner)) + sum_sizes(exprs_model(children@).skip(from as int)),
        1int,
{
    proof {
        lemma_expr_size_pos(expr_model(*inner));
    }
    match evaluate_from_beginning(inner, input, pos, captures) {
        Some(o) => {
            if o.pos > pos {
                match evaluate_repeat(inner, children, from, input, o.pos, &o.captures) {
                    Some(o2) => {
                        let mut text = o.text;
                        let mut tail = o2.text;
                        text.append(&mut tail);
                        Some(StepResult { text, pos: o2.pos, captures: o2.captures })
                    },
                    None => evaluate_sequence(children, from, input, pos, captures),
                }
            } else {
                evaluate_sequence(children, from, input, pos, captures)
            }
        },
        None => evaluate_sequence(children, from, input, pos, captures),
    }
}

/// Matches the branches of an alternation from index `from` on; the
/// executable counterpart of [`spec_alternation`].
fn evaluate_alternation(
    branches: &Vec<Expression>,
    from: usize,
    input: &Vec<char>,
    pos: usize,
    captures: &Vec<Vec<char>>,
) -> (r: Option<StepResult>)
    requires
        pos <= input@.len(),
        from <= branches@.len(),
    ensures
        outcome_models(
            r,
            spec_alternation(
                exprs_model(branches@).skip(from as int),
                input@,
                pos as int,
                texts_model(captures@),
            ),
        ),
        r is Some ==> pos <= r->0.pos <= input@.len(),
    decreases input@.len() - pos, sum_sizes(exprs_model(branches@).skip(from as int)), 1int,
{
    let ghost bs = exprs_model(branches@).skip(from as int);
    proof {
        broadcast use lemma_exprs_model_len, lemma_exprs_model_index;

    }
    if from == branches.len() {
        return None;
    }
    proof {
        assert(bs[0] == expr_model(branches@[from as int]));
        assert(bs.drop_first() =~= exprs_model(branches@).skip(from as int + 1));
        lemma_expr_size_pos(bs[0]);
    }
    match evaluate_from_beginning(&branches[from], input, pos, captures) {
        Some(o) => Some(o),
        None => evaluate_alternation(branches, from + 1, input, pos, captures),
    }
}

/// Whether a tree's first node is the `^` anchor; see
/// [`starts_with_beginning_anchor`].
fn begins_with_anchor(expression: &Expression) -> (b: bool)
    ensures
        b == starts_with_beginning_anchor(expr_model(*expression)),
{
    proof {
        lemma_model_variants(*expression);
    }
    match expression {
        Expression::Sequence(children) => {
            proof {
                lemma_exprs_model_len(children@);
            }
            if children.len() > 0 {
                proof {
                    lemma_exprs_model_index(children@, 0);
                    lemma_model_variants(children@[0]);
                }
                matches!(children[0], Expression::BeginningOfLine)
            } else {
                false
            }
        },
        _ => false,
    }
}

/// The characters of a string, in order.
fn chars_of_str(s: &str) -> (r: Vec<char>)
    ensures
        r@ == s@,
{
    let len = s.unicode_len();
    let mut r: Vec<char> = Vec::new();
    let mut i: usize = 0;
    while i < len
        invariant
            i <= len,
            len == s@.len(),
            r@.len() == i,
            forall|j: int| 0 <= j < i ==> r@[j] == s@[j],
        decreases len - i,
    {
        let c = s.get_char(i);
        r.push(c);
        i = i + 1;
    }
    proof {
        assert(r@ =~= s@);
    }
    r
}

/// Relies on `String::push`: appends the given character to the end of the
/// string.
#[verifier::external_body]
fn push_char(s: &mut String, c: char)
    ensures
        final(s)@ == old(s)@.push(c),
{
    s.push(c);
}

/// The string holding the given characters, in order.
fn string_of_chars(v: &Vec<char>) -> (s: String)
    ensures
        s@ == v@,
{
    let mut s = String::new();
    let mut i: usize = 0;
    while i < v.len()
        invariant
            i <= v@.len(),
            s@.len() == i,
            forall|j: int| 0 <= j < i ==> s@[j] == v@[j],
        decreases v@.len() - i,
    {
        push_char(&mut s, v[i]);
        i = i + 1;
    }
    proof {
        assert(s@ =~= v@);
    }
    s
}

/// Matches a compiled tree against an input string and returns the first
/// matched substring scanning left to right, or `None`. When the tree's
/// first node is the `^` anchor, exactly one attempt is made, at the start
/// of the input; otherwise the start offset slides right one character at a
/// time until an attempt succeeds. Every attempt begins with a fresh, empty
/// capture list, so matching is a pure function of the tree and the input.
pub fn evaluate(expression: &Expression, input: &str) -> (r: Option<String>)
    ensures
        found_models(r, spec_evaluate(expr_model(*expression), input@)),
{
    let ghost m = expr_model(*expression);
    let chars = chars_of_str(input);
    let anchored = begins_with_anchor(expression);
    proof {
        assert(texts_model(Seq::<Vec<char>>::empty()) =~= Seq::<Seq<char>>::empty());
    }
    if anchored {
        let empty_caps: Vec<Vec<char>> = Vec::new();
        match evaluate_from_beginning(expression, &chars, 0, &empty_caps) {
            Some(o) => Some(string_of_chars(&o.text)),
            None => None,
        }
    } else {
        let mut i: usize = 0;
        while i < chars.len()
            invariant
                i <= chars@.len(),
                chars@ == input@,
                m == expr_model(*expression),
                !starts_with_beginning_anchor(m),
                spec_search(m, input@, 0) == spec_search(m, input@, i as int),
                texts_model(Seq::<Vec<char>>::empty()) == Seq::<Seq<char>>::empty(),
            decreases chars@.len() - i,
        {
            let empty_caps: Vec<Vec<char>> = Vec::new();
            match evaluate_from_beginning(expression, &chars, i, &empty_caps) {
                Some(o) => {
                    return Some(string_of_chars(&o.text));
                },
                None => {
                    i = i + 1;
                },
            }
        }
        None
    }
}

} // verus!
