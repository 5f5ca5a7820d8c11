//! The parser: consumes the token sequence recursively and produces a single
//! expression tree, or fails on the first structural problem.
//!
//! The grammar has three tiers. A base node is one token (a literal, an
//! anchor, the wildcard), or a bracketed character group, or a backslash
//! followed by digits (a backreference) or an escape letter, or a
//! parenthesized group: the group's interior is split at `|` into
//! alternatives, wrapped in an alternation, and the alternation in a
//! capture. A quantifier (`*`, `+`, `?`) binds to the base node just before
//! it; `+` desugars into the node followed by a repetition of a copy, so the
//! node matches at least once. A quantifier with no operand, on an anchor,
//! or on another quantifier's result is an error, as are unterminated
//! groups and classes, invalid escapes, and a trailing backslash.
//!
//! The specification-level functions `spec_parse*` define the grammar over
//! the token sequence; each executable function is proved to return exactly
//! what they say.

use crate::character_sets;
use crate::expression::Expression;
use crate::expression::SpecExpression;
use crate::expression::expr_model;
use crate::expression::exprs_model;
use crate::expression::lemma_exprs_model_len;
use crate::expression::lemma_exprs_model_index;
use crate::expression::lemma_exprs_model_push;
use crate::token::Token;
use vstd::prelude::*;

verus! {

/// A structural problem in the pattern, found while parsing.
#[derive(Debug, PartialEq, Eq, Structural, Clone, Copy)]
pub enum ParseError {
    /// The pattern ends in a backslash.
    TrailingBackslash,
    /// A backslash is followed by something that names no escape class.
    UnsupportedEscape,
    /// A backreference number does not fit in a machine word.
    BackReferenceTooLarge,
    /// A `(` with no matching `)`.
    UnterminatedGroup,
    /// A `[` with no matching `]`.
    UnterminatedCharacterGroup,
    /// A token inside `[...]` that is neither a literal nor the closing `]`.
    UnexpectedTokenInCharacterGroup,
    /// A quantifier with no node before it to bind to.
    QuantifierWithoutOperand,
    /// A quantifier applied to `^` or `$`.
    QuantifierOnAnchor,
    /// A quantifier applied directly to another quantifier's result.
    QuantifierOnQuantifier,
    /// A token that cannot begin a node: a stray `)`, `]` or `|`.
    UnexpectedToken,
}

/// The quantifier tokens.
pub open spec fn is_quantifier(t: Token) -> bool {
    t is Star || t is Plus || t is Question
}

/// The anchor nodes, to which no quantifier may apply.
pub open spec fn is_anchor(e: SpecExpression) -> bool {
    e is BeginningOfLine || e is EndOfLine
}

/// What a quantifier token makes of its operand.
pub open spec fn apply_quantifier(t: Token, e: SpecExpression) -> SpecExpression {
    if t is Star {
        SpecExpression::Repeat(Box::new(e))
    } else if t is Plus {
        SpecExpression::Sequence(seq![e, SpecExpression::Repeat(Box::new(e))])
    } else {
        SpecExpression::Optional(Box::new(e))
    }
}

/// Whether a token is a digit literal.
pub open spec fn is_digit_token(t: Token) -> bool {
    t matches Token::Literal(d) && character_sets::is_numeric_character(d)
}

/// The position just past the run of digit literals that starts at `i`.
pub open spec fn digit_run_end(tokens: Seq<Token>, i: int) -> int
    decreases tokens.len() - i,
{
    if 0 <= i < tokens.len() && is_digit_token(tokens[i]) {
        digit_run_end(tokens, i + 1)
    } else {
        i
    }
}

/// The digit a token stands for, or zero for any other token.
pub open spec fn digit_of(t: Token) -> int {
    match t {
        Token::Literal(d) => if character_sets::is_numeric_character(d) {
            d as int - '0' as int
        } else {
            0
        },
        _ => 0,
    }
}

/// The decimal value of the digit tokens from `i` (inclusive) to `k`
/// (exclusive), most significant first.
pub open spec fn digits_value(tokens: Seq<Token>, i: int, k: int) -> int
    decreases k - i,
{
    if k <= i {
        0
    } else {
        digits_value(tokens, i, k - 1) * 10 + digit_of(tokens[k - 1])
    }
}

/// A digit run ends no earlier than it starts and no later than the tokens
/// do.
proof fn lemma_digit_run_end_bounds(tokens: Seq<Token>, i: int)
    requires
        0 <= i <= tokens.len(),
    ensures
        i <= digit_run_end(tokens, i) <= tokens.len(),
    decreases tokens.len() - i,
{
    if i < tokens.len() && is_digit_token(tokens[i]) {
        lemma_digit_run_end_bounds(tokens, i + 1);
    }
}

/// A digit run's value is never negative.
proof fn lemma_digits_value_nonneg(tokens: Seq<Token>, i: int, k: int)
    ensures
        digits_value(tokens, i, k) >= 0,
    decreases k - i,
{
    if k > i {
        lemma_digits_value_nonneg(tokens, i, k - 1);
    }
}

/// Reading more digits never makes the value smaller.
proof fn lemma_digits_value_monotone(tokens: Seq<Token>, i: int, a: int, b: int)
    requires
        a <= b,
    ensures
        digits_value(tokens, i, a) <= digits_value(tokens, i, b),
    decreases b - a,
{
    if a < b {
        lemma_digits_value_monotone(tokens, i, a, b - 1);
        lemma_digits_value_nonneg(tokens, i, b - 1);
    }
}

/// What parsing one node after a backslash yields: a backreference if digits
/// follow (consumed greedily, so `\12` refers to group 12), an escape-class
/// node for a recognized escape letter, a literal backslash for a doubled
/// backslash, and an error otherwise. `i` is the position just after the
/// backslash.
pub open spec fn spec_parse_escape(tokens: Seq<Token>, i: int) -> Result<
    (SpecExpression, int),
    ParseError,
> {
    if i >= tokens.len() {
        Err(ParseError::TrailingBackslash)
    } else {
        match tokens[i] {
            Token::Literal(c) => if character_sets::is_numeric_character(c) {
                let k = digit_run_end(tokens, i);
                let v = digits_value(tokens, i, k);
                if v > usize::MAX as int {
                    Err(ParseError::BackReferenceTooLarge)
                } else {
                    Ok((SpecExpression::BackReference(v), k))
                }
            } else if character_sets::is_valid_escape_character(c) {
                Ok((SpecExpression::Escape(c), i + 1))
            } else {
                Err(ParseError::UnsupportedEscape)
            },
            Token::BackSlash => Ok((SpecExpression::Escape('\\'), i + 1)),
            _ => Err(ParseError::UnsupportedEscape),
        }
    }
}

/// What parsing a character group yields, from position `i` inside the
/// brackets: every literal up to the closing `]` joins the set `acc`, in
/// order of appearance; any other token is an error.
pub open spec fn spec_parse_class(
    tokens: Seq<Token>,
    i: int,
    negative: bool,
    acc: Seq<char>,
) -> Result<(SpecExpression, int), ParseError>
    decreases tokens.len() - i,
{
    if i < 0 || i >= tokens.len() {
        Err(ParseError::UnterminatedCharacterGroup)
    } else {
        match tokens[i] {
            Token::CloseBracket => Ok(
                (
                    if negative {
                        SpecExpression::NegativeCharacterGroup(acc)
                    } else {
                        SpecExpression::CharacterGroup(acc)
                    },
                    i + 1,
                ),
            ),
            Token::Literal(c) => spec_parse_class(tokens, i + 1, negative, acc.push(c)),
            _ => Err(ParseError::UnexpectedTokenInCharacterGroup),
        }
    }
}

/// What parsing a parenthesized group yields, from position `i` inside the
/// parentheses: the interior is split at each `|` into alternatives
/// (`current` is the one being read, `alternatives` the finished ones), the
/// alternatives are wrapped in an alternation — a single alternative is a
/// one-branch alternation — and the alternation in a capture.
pub open spec fn spec_parse_group(
    tokens: Seq<Token>,
    i: int,
    current: Seq<SpecExpression>,
    alternatives: Seq<SpecExpression>,
) -> Result<(SpecExpression, int), ParseError>
    decreases tokens.len() - i, 2int,
{
    if i < 0 || i >= tokens.len() {
        Err(ParseError::UnterminatedGroup)
    } else if tokens[i] is CloseParen {
        Ok(
            (
                SpecExpression::Capture(
                    Box::new(
                        SpecExpression::Alternation(
                            alternatives.push(SpecExpression::Sequence(current)),
                        ),
                    ),
                ),
                i + 1,
            ),
        )
    } else if tokens[i] is Pipe {
        spec_parse_group(
            tokens,
            i + 1,
            Seq::empty(),
            alternatives.push(SpecExpression::Sequence(current)),
        )
    } else {
        match spec_parse_unary(tokens, i) {
            Ok((e, j)) => if i < j <= tokens.len() {
                spec_parse_group(tokens, j, current.push(e), alternatives)
            } else {
                Err(ParseError::UnterminatedGroup)
            },
            Err(err) => Err(err),
        }
    }
}

/// What parsing one base node at position `i` yields, before quantifiers are
/// considered.
pub open spec fn spec_parse_base(tokens: Seq<Token>, i: int) -> Result<
    (SpecExpression, int),
    ParseError,
>
    decreases tokens.len() - i, 0int,
{
    if i < 0 || i >= tokens.len() {
        Err(ParseError::UnexpectedToken)
    } else {
        match tokens[i] {
            Token::Literal(c) => Ok((SpecExpression::Literal(c), i + 1)),
            Token::Space => Ok((SpecExpression::Literal(' '), i + 1)),
            Token::Hyphen => Ok((SpecExpression::Literal('-'), i + 1)),
            Token::Caret => Ok((SpecExpression::BeginningOfLine, i + 1)),
            Token::Dollar => Ok((SpecExpression::EndOfLine, i + 1)),
            Token::Dot => Ok((SpecExpression::Wildcard, i + 1)),
            Token::BackSlash => spec_parse_escape(tokens, i + 1),
            Token::OpenParen => spec_parse_group(tokens, i + 1, Seq::empty(), Seq::empty()),
            Token::OpenBracket => if i + 1 < tokens.len() && tokens[i + 1] is Caret {
                spec_parse_class(tokens, i + 2, true, Seq::empty())
            } else {
                spec_parse_class(tokens, i + 1, false, Seq::empty())
            },
            Token::Star => Err(ParseError::QuantifierWithoutOperand),
            Token::Plus => Err(ParseError::QuantifierWithoutOperand),
            Token::Question => Err(ParseError::QuantifierWithoutOperand),
            _ => Err(ParseError::UnexpectedToken),
        }
    }
}

/// What parsing one node at position `i` yields: a base node, with the
/// quantifier just after it applied, if there is one. A quantifier on an
/// anchor, or a second quantifier stacked directly on the first, is an
/// error.
pub open spec fn spec_parse_unary(tokens: Seq<Token>, i: int) -> Result<
    (SpecExpression, int),
    ParseError,
>
    decreases tokens.len() - i, 1int,
{
    match spec_parse_base(tokens, i) {
        Ok((e, j)) => if j < tokens.len() && is_quantifier(tokens[j]) {
            if is_anchor(e) {
                Err(ParseError::QuantifierOnAnchor)
            } else if j + 1 < tokens.len() && is_quantifier(tokens[j + 1]) {
                Err(ParseError::QuantifierOnQuantifier)
            } else {
                Ok((apply_quantifier(tokens[j], e), j + 1))
            }
        } else {
            Ok((e, j))
        },
        Err(err) => Err(err),
    }
}

/// What parsing the whole token sequence from position `i` yields: the nodes
/// of the top-level sequence, in order.
pub open spec fn spec_parse_items(tokens: Seq<Token>, i: int) -> Result<
    Seq<SpecExpression>,
    ParseError,
>
    decreases tokens.len() - i, 2int,
{
    if i < 0 || i >= tokens.len() {
        Ok(Seq::empty())
    } else {
        match spec_parse_unary(tokens, i) {
            Ok((e, j)) => if i < j <= tokens.len() {
                match spec_parse_items(tokens, j) {
                    Ok(rest) => Ok(seq![e] + rest),
                    Err(err) => Err(err),
                }
            } else {
                Ok(Seq::empty())
            },
            Err(err) => Err(err),
        }
    }
}

/// What parsing a token sequence yields: a sequence node over the parsed
/// items, or the first structural error.
pub open spec fn spec_parse(tokens: Seq<Token>) -> Result<SpecExpression, ParseError> {
    match spec_parse_items(tokens, 0) {
        Ok(items) => Ok(SpecExpression::Sequence(items)),
        Err(err) => Err(err),
    }
}

/// How an executable parsing result corresponds to the specification-level
/// one.
pub open spec fn parse_result_models(
    r: Result<Expression, ParseError>,
    m: Result<SpecExpression, ParseError>,
) -> bool {
    match r {
        Ok(e) => m is Ok && expr_model(e) == m->Ok_0,
        Err(err) => m == Err::<SpecExpression, ParseError>(err),
    }
}

/// How one executable parsing step corresponds to the specification-level
/// one: same node model, same next position, and progress within bounds.
pub open spec fn parse_step_models(
    r: Result<(Expression, usize), ParseError>,
    m: Result<(SpecExpression, int), ParseError>,
    lo: int,
    hi: int,
) -> bool {
    match r {
        Ok(p) => {
            &&& m is Ok
            &&& expr_model(p.0) == m->Ok_0.0
            &&& p.1 as int == m->Ok_0.1
            &&& lo < p.1 <= hi
        },
        Err(err) => m == Err::<(SpecExpression, int), ParseError>(err),
    }
}

/// Membership test for the quantifier tokens.
fn is_quantifier_token(t: &Token) -> (b: bool)
    ensures
        b == is_quantifier(*t),
{
    match t {
        Token::Star => true,
        Token::Plus => true,
        Token::Question => true,
        _ => false,
    }
}

/// Membership test for the digit literals.
fn is_digit_literal(t: &Token) -> (b: bool)
    ensures
        b == is_digit_token(*t),
{
    match t {
        Token::Literal(d) => character_sets::is_numeric(*d),
        _ => false,
    }
}

/// Parses the backreference or escape node after a backslash; `j` is the
/// position just after the backslash.
fn parse_escape(tokens: &[Token], j: usize) -> (r: Result<(Expression, usize), ParseError>)
    requires
        j <= tokens@.len(),
    ensures
        parse_step_models(r, spec_parse_escape(tokens@, j as int), j as int, tokens@.len() as int),
{
    if j >= tokens.len() {
        return Err(ParseError::TrailingBackslash);
    }
    match tokens[j] {
        Token::Literal(c) => {
            if character_sets::is_numeric(c) {
                let mut value: usize = ((c as u32) - ('0' as u32)) as usize;
                let mut k: usize = j + 1;
                proof {
                    assert(digits_value(tokens@, j as int, j as int) == 0);
                    assert(digits_value(tokens@, j as int, k as int) == value as int);
                }
                while k < tokens.len() && is_digit_literal(&tokens[k])
                    invariant
                        j < k <= tokens@.len(),
                        digit_run_end(tokens@, j as int) == digit_run_end(tokens@, k as int),
                        digits_value(tokens@, j as int, k as int) == value as int,
                    decreases tokens@.len() - k,
                {
                    // The loop condition guarantees a digit literal here.
                    let d = match tokens[k] {
                        Token::Literal(x) => x,
                        _ => ' ',
                    };
                    let digit = ((d as u32) - ('0' as u32)) as usize;
                    proof {
                        lemma_digit_run_end_bounds(tokens@, k as int + 1);
                        lemma_digits_value_monotone(
                            tokens@,
                            j as int,
                            k as int + 1,
                            digit_run_end(tokens@, k as int + 1),
                        );
                        assert(digits_value(tokens@, j as int, k as int + 1) == value as int * 10
                            + digit as int);
                    }
                    let next = match value.checked_mul(10) {
                        Some(v10) => v10.checked_add(digit),
                        None => None,
                    };
                    match next {
                        Some(v) => {
                            value = v;
                            k = k + 1;
                        },
                        None => {
                            return Err(ParseError::BackReferenceTooLarge);
                        },
                    }
                }
                Ok((Expression::BackReference(value), k))
            } else if character_sets::is_valid_escape(c) {
                Ok((Expression::Escape(c), j + 1))
            } else {
                Err(ParseError::UnsupportedEscape)
            }
        },
        Token::BackSlash => Ok((Expression::Escape('\\'), j + 1)),
        _ => Err(ParseError::UnsupportedEscape),
    }
}

/// Parses a character group; `start` is the position of the first token
/// after the bracket and the optional leading `^`.
fn parse_class(tokens: &[Token], start: usize, negative: bool) -> (r: Result<
    (Expression, usize),
    ParseError,
>)
    requires
        start <= tokens@.len(),
    ensures
        parse_step_models(
            r,
            spec_parse_class(tokens@, start as int, negative, Seq::empty()),
            start as int,
            tokens@.len() as int,
        ),
{
    let mut group_chars: Vec<char> = Vec::new();
    let mut k: usize = start;
    loop
        invariant
            start <= k <= tokens@.len(),
            spec_parse_class(tokens@, start as int, negative, Seq::empty())
                == spec_parse_class(tokens@, k as int, negative, group_chars@),
        decreases tokens@.len() - k,
    {
        if k >= tokens.len() {
            return Err(ParseError::UnterminatedCharacterGroup);
        }
        match tokens[k] {
            Token::CloseBracket => {
                let e = if negative {
                    Expression::NegativeCharacterGroup(group_chars)
                } else {
                    Expression::CharacterGroup(group_chars)
                };
                return Ok((e, k + 1));
            },
            Token::Literal(c) => {
                group_chars.push(c);
                k = k + 1;
            },
            _ => {
                return Err(ParseError::UnexpectedTokenInCharacterGroup);
            },
        }
    }
}

/// Parses a parenthesized group; `start` is the position of the first token
/// after the `(`.
fn parse_group(tokens: &[Token], start: usize) -> (r: Result<(Expression, usize), ParseError>)
    requires
        start <= tokens@.len(),
    ensures
        parse_step_models(
            r,
            spec_parse_group(tokens@, start as int, Seq::empty(), Seq::empty()),
            start as int,
            tokens@.len() as int,
        ),
    decreases tokens@.len() - start, 2int,
{
    let mut current: Vec<Expression> = Vec::new();
    let mut alternatives: Vec<Expression> = Vec::new();
    let mut i: usize = start;
    loop
        invariant
            start <= i <= tokens@.len(),
            spec_parse_group(tokens@, start as int, Seq::empty(), Seq::empty())
                == spec_parse_group(
                tokens@,
                i as int,
                exprs_model(current@),
                exprs_model(alternatives@),
            ),
        decreases tokens@.len() - i,
    {
        if i >= tokens.len() {
            return Err(ParseError::UnterminatedGroup);
        }
        match tokens[i] {
            Token::CloseParen => {
                let ghost cur_m = exprs_model(current@);
                let ghost alts_m = exprs_model(alternatives@);
                proof {
                    lemma_exprs_model_push(alternatives@, Expression::Sequence(current));
                }
                let mut alts = alternatives;
                alts.push(Expression::Sequence(current));
                proof {
                    assert(exprs_model(alts@) == alts_m.push(SpecExpression::Sequence(cur_m)));
                    assert(spec_parse_group(tokens@, i as int, cur_m, alts_m) == Ok::<_, ParseError>(
                        (
                            SpecExpression::Capture(
                                Box::new(
                                    SpecExpression::Alternation(
                                        alts_m.push(SpecExpression::Sequence(cur_m)),
                                    ),
                                ),
                            ),
                            i as int + 1,
                        ),
                    ));
                }
                let e = Expression::Capture(Box::new(Expression::Alternation(alts)));
                proof {
                    assert(expr_model(Expression::Alternation(alts)) == SpecExpression::Alternation(
                        exprs_model(alts@),
                    ));
                    assert(expr_model(e) == SpecExpression::Capture(
                        Box::new(
                            SpecExpression::Alternation(alts_m.push(SpecExpression::Sequence(cur_m))),
                        ),
                    ));
                }
                return Ok((e, i + 1));
            },
            Token::Pipe => {
                proof {
                    lemma_exprs_model_push(alternatives@, Expression::Sequence(current));
                }
                alternatives.push(Expression::Sequence(current));
                current = Vec::new();
                i = i + 1;
            },
            _ => {
                match parse_unary(tokens, i) {
                    Ok((e, j)) => {
                        proof {
                            lemma_exprs_model_push(current@, e);
                        }
                        current.push(e);
                        i = j;
                    },
                    Err(err) => {
                        return Err(err);
                    },
                }
            },
        }
    }
}

/// Parses one base node at position `i`.
fn parse_base_token(tokens: &[Token], i: usize) -> (r: Result<(Expression, usize), ParseError>)
    requires
        i < tokens@.len(),
    ensures
        parse_step_models(r, spec_parse_base(tokens@, i as int), i as int, tokens@.len() as int),
    decreases tokens@.len() - i, 0int,
{
    match tokens[i] {
        Token::Literal(c) => Ok((Expression::Literal(c), i + 1)),
        Token::Space => Ok((Expression::Literal(' '), i + 1)),
        Token::Hyphen => Ok((Expression::Literal('-'), i + 1)),
        Token::Caret => Ok((Expression::BeginningOfLine, i + 1)),
        Token::Dollar => Ok((Expression::EndOfLine, i + 1)),
        Token::Dot => Ok((Expression::Wildcard, i + 1)),
        Token::BackSlash => parse_escape(tokens, i + 1),
        Token::OpenParen => parse_group(tokens, i + 1),
        Token::OpenBracket => {
            let caret = i + 1 < tokens.len() && matches!(tokens[i + 1], Token::Caret);
            if caret {
                parse_class(tokens, i + 2, true)
            } else {
                parse_class(tokens, i + 1, false)
            }
        },
        Token::Star => Err(ParseError::QuantifierWithoutOperand),
        Token::Plus => Err(ParseError::QuantifierWithoutOperand),
        Token::Question => Err(ParseError::QuantifierWithoutOperand),
        _ => Err(ParseError::UnexpectedToken),
    }
}

/// Parses one node at position `i`, applying the quantifier just after it,
/// if any. `+` desugars into the node followed by a repetition of a copy of
/// it, so the node matches at least once.
fn parse_unary(tokens: &[Token], i: usize) -> (r: Result<(Expression, usize), ParseError>)
    requires
        i < tokens@.len(),
    ensures
        parse_step_models(r, spec_parse_unary(tokens@, i as int), i as int, tokens@.len() as int),
    decreases tokens@.len() - i, 1int,
{
    let (lhs, j) = match parse_base_token(tokens, i) {
        Ok(p) => p,
        Err(err) => {
            return Err(err);
        },
    };
    if j < tokens.len() && is_quantifier_token(&tokens[j]) {
        let anchor = matches!(lhs, Expression::BeginningOfLine | Expression::EndOfLine);
        if anchor {
            return Err(ParseError::QuantifierOnAnchor);
        }
        if j + 1 < tokens.len() && is_quantifier_token(&tokens[j + 1]) {
            return Err(ParseError::QuantifierOnQuantifier);
        }
        let quantified = match tokens[j] {
            Token::Plus => {
                let copy = lhs.clone();
                let mut pair: Vec<Expression> = Vec::new();
                pair.push(copy);
                pair.push(Expression::Repeat(Box::new(lhs)));
                proof {
                    broadcast use lemma_exprs_model_len, lemma_exprs_model_index;

                    assert(exprs_model(pair@) =~= seq![
                        spec_parse_base(tokens@, i as int)->Ok_0.0,
                        SpecExpression::Repeat(
                            Box::new(spec_parse_base(tokens@, i as int)->Ok_0.0),
                        ),
                    ]);
                }
                Expression::Sequence(pair)
            },
            Token::Star => Expression::Repeat(Box::new(lhs)),
            _ => Expression::Optional(Box::new(lhs)),
        };
        Ok((quantified, j + 1))
    } else {
        Ok((lhs, j))
    }
}

/// Parses a token sequence into one expression tree: a sequence node over
/// the top-level nodes in order, or the first structural error.
pub fn parse(tokens: &[Token]) -> (r: Result<Expression, ParseError>)
    ensures
        parse_result_models(r, spec_parse(tokens@)),
{
    let mut expressions: Vec<Expression> = Vec::new();
    let mut i: usize = 0;
    while i < tokens.len()
        invariant
            i <= tokens@.len(),
            match spec_parse_items(tokens@, i as int) {
                Ok(rest) => spec_parse_items(tokens@, 0) == Ok::<_, ParseError>(
                    exprs_model(expressions@) + rest,
                ),
                Err(err) => spec_parse_items(tokens@, 0) == Err::<Seq<SpecExpression>, _>(err),
            },
        decreases tokens@.len() - i,
    {
        match parse_unary(tokens, i) {
            Ok((e, j)) => {
                proof {
                    lemma_exprs_model_push(expressions@, e);
                    assert(exprs_model(expressions@) + (seq![expr_model(e)] + spec_parse_items(
                        tokens@,
                        j as int,
                    )->Ok_0) =~= exprs_model(expressions@.push(e)) + spec_parse_items(
                        tokens@,
                        j as int,
                    )->Ok_0);
                }
                expressions.push(e);
                i = j;
            },
            Err(err) => {
                return Err(err);
            },
        }
    }
    proof {
        assert(exprs_model(expressions@) + Seq::<SpecExpression>::empty() =~= exprs_model(
            expressions@,
        ));
    }
    Ok(Expression::Sequence(expressions))
}

} // verus!
