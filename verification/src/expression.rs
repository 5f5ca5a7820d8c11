//! The expression tree a pattern compiles to, and its mathematical model.
//!
//! [`Expression`] is the executable tree built by the parser and walked by
//! the matcher. [`SpecExpression`] is its specification-level counterpart,
//! with sequences in place of vectors; [`expr_model`] maps one to the other,
//! and every contract of the parser and the matcher speaks of the model.

use vstd::prelude::*;

verus! {

/// One node of a compiled pattern.
///
/// A `Repeat` or `Optional` node is always evaluated as a child of a
/// `Sequence`, which tracks what remains after it; the parser never produces
/// one anywhere else.
#[derive(Debug, PartialEq, Eq)]
pub enum Expression {
    /// Matches the empty string.
    Empty,
    /// Matches the children in order, concatenating their matched text.
    Sequence(Vec<Expression>),
    /// Matches exactly that one character.
    Literal(char),
    /// Matches one character of the pattern alphabet.
    Wildcard,
    /// Matches one character of a named class: `d` (digits), `w` (word
    /// characters), or `\` (a literal backslash).
    Escape(char),
    /// Matches one character that is a member of the set.
    CharacterGroup(Vec<char>),
    /// Matches one character that is not a member of the set.
    NegativeCharacterGroup(Vec<char>),
    /// Matches the newline sentinel that the caller prepends to the input.
    BeginningOfLine,
    /// Matches the newline sentinel that the caller appends to the input.
    EndOfLine,
    /// Matches the inner expression and records its matched text as the next
    /// backreference.
    Capture(Box<Expression>),
    /// Matches zero or more repetitions of the inner expression, greedily.
    Repeat(Box<Expression>),
    /// Matches zero or one occurrence of the inner expression.
    Optional(Box<Expression>),
    /// Matches the first branch, in order, that matches.
    Alternation(Vec<Expression>),
    /// Replays the text captured by the capture with this 1-based index.
    BackReference(usize),
}

/// The specification-level form of an [`Expression`]: the same tree with
/// mathematical sequences for children and character sets.
pub enum SpecExpression {
    Empty,
    Sequence(Seq<SpecExpression>),
    Literal(char),
    Wildcard,
    Escape(char),
    CharacterGroup(Seq<char>),
    NegativeCharacterGroup(Seq<char>),
    BeginningOfLine,
    EndOfLine,
    Capture(Box<SpecExpression>),
    Repeat(Box<SpecExpression>),
    Optional(Box<SpecExpression>),
    Alternation(Seq<SpecExpression>),
    BackReference(int),
}

/// The model of an executable expression tree.
pub open spec fn expr_model(e: Expression) -> SpecExpression
    decreases e,
{
    match e {
        Expression::Empty => SpecExpression::Empty,
        Expression::Sequence(children) => SpecExpression::Sequence(exprs_model(children@)),
        Expression::Literal(c) => SpecExpression::Literal(c),
        Expression::Wildcard => SpecExpression::Wildcard,
        Expression::Escape(c) => SpecExpression::Escape(c),
        Expression::CharacterGroup(set) => SpecExpression::CharacterGroup(set@),
        Expression::NegativeCharacterGroup(set) => SpecExpression::NegativeCharacterGroup(set@),
        Expression::BeginningOfLine => SpecExpression::BeginningOfLine,
        Expression::EndOfLine => SpecExpression::EndOfLine,
        Expression::Capture(inner) => SpecExpression::Capture(Box::new(expr_model(*inner))),
        Expression::Repeat(inner) => SpecExpression::Repeat(Box::new(expr_model(*inner))),
        Expression::Optional(inner) => SpecExpression::Optional(Box::new(expr_model(*inner))),
        Expression::Alternation(branches) => SpecExpression::Alternation(exprs_model(branches@)),
        Expression::BackReference(index) => SpecExpression::BackReference(index as int),
    }
}

/// The models of a sequence of executable expressions, elementwise.
pub open spec fn exprs_model(s: Seq<Expression>) -> Seq<SpecExpression>
    decreases s,
{
    if s.len() == 0 {
        Seq::empty()
    } else {
        seq![expr_model(s[0])] + exprs_model(s.drop_first())
    }
}

/// Taking models preserves the length of a sequence.
pub broadcast proof fn lemma_exprs_model_len(s: Seq<Expression>)
    ensures
        #[trigger] exprs_model(s).len() == s.len(),
    decreases s,
{
    if s.len() > 0 {
        lemma_exprs_model_len(s.drop_first());
    }
}

/// Taking models commutes with indexing.
pub broadcast proof fn lemma_exprs_model_index(s: Seq<Expression>, i: int)
    requires
        0 <= i < s.len(),
    ensures
        #[trigger] exprs_model(s)[i] == expr_model(s[i]),
    decreases i,
{
    lemma_exprs_model_len(s);
    if i > 0 {
        lemma_exprs_model_index(s.drop_first(), i - 1);
        assert(s.drop_first()[i - 1] == s[i]);
    }
}

/// Taking models commutes with appending one expression.
pub proof fn lemma_exprs_model_push(s: Seq<Expression>, x: Expression)
    ensures
        exprs_model(s.push(x)) == exprs_model(s).push(expr_model(x)),
{
    broadcast use lemma_exprs_model_len, lemma_exprs_model_index;

    assert(exprs_model(s.push(x)) =~= exprs_model(s).push(expr_model(x)));
}

/// The number of nodes of an expression tree; the termination measure of the
/// matcher.
pub open spec fn expr_size(e: SpecExpression) -> nat
    decreases e,
{
    match e {
        SpecExpression::Sequence(children) => 1 + sum_sizes(children),
        SpecExpression::Capture(inner) => 1 + expr_size(*inner),
        SpecExpression::Repeat(inner) => 1 + expr_size(*inner),
        SpecExpression::Optional(inner) => 1 + expr_size(*inner),
        SpecExpression::Alternation(branches) => 1 + sum_sizes(branches),
        _ => 1,
    }
}

/// The total number of nodes of a sequence of expression trees.
pub open spec fn sum_sizes(s: Seq<SpecExpression>) -> nat
    decreases s,
{
    if s.len() == 0 {
        0
    } else {
        expr_size(s[0]) + sum_sizes(s.drop_first())
    }
}

/// Every tree has at least one node.
pub proof fn lemma_expr_size_pos(e: SpecExpression)
    ensures
        expr_size(e) >= 1,
{
}

/// The model keeps each node's kind: a tree models a repetition, an anchor
/// or a sequence exactly when it is one.
pub proof fn lemma_model_variants(e: Expression)
    ensures
        expr_model(e) is Repeat <==> e is Repeat,
        expr_model(e) is BeginningOfLine <==> e is BeginningOfLine,
        expr_model(e) is Sequence <==> e is Sequence,
{
    match e {
        Expression::Empty => {},
        Expression::Sequence(_) => {},
        Expression::Literal(_) => {},
        Expression::Wildcard => {},
        Expression::Escape(_) => {},
        Expression::CharacterGroup(_) => {},
        Expression::NegativeCharacterGroup(_) => {},
        Expression::BeginningOfLine => {},
        Expression::EndOfLine => {},
        Expression::Capture(_) => {},
        Expression::Repeat(_) => {},
        Expression::Optional(_) => {},
        Expression::Alternation(_) => {},
        Expression::BackReference(_) => {},
    }
}

impl Clone for Expression {
    /// A structural copy: the copy has the same model as the value cloned.
    fn clone(&self) -> (r: Self)
        ensures
            expr_model(r) == expr_model(*self),
        decreases *self,
    {
        match self {
            Expression::Empty => Expression::Empty,
            Expression::Sequence(children) => Expression::Sequence(clone_expressions(children)),
            Expression::Literal(c) => Expression::Literal(*c),
            Expression::Wildcard => Expression::Wildcard,
            Expression::Escape(c) => Expression::Escape(*c),
            Expression::CharacterGroup(set) => Expression::CharacterGroup(
                vstd::slice::slice_to_vec(set.as_slice()),
            ),
            Expression::NegativeCharacterGroup(set) => Expression::NegativeCharacterGroup(
                vstd::slice::slice_to_vec(set.as_slice()),
            ),
            Expression::BeginningOfLine => Expression::BeginningOfLine,
            Expression::EndOfLine => Expression::EndOfLine,
            Expression::Capture(inner) => Expression::Capture(Box::new((**inner).clone())),
            Expression::Repeat(inner) => Expression::Repeat(Box::new((**inner).clone())),
            Expression::Optional(inner) => Expression::Optional(Box::new((**inner).clone())),
            Expression::Alternation(branches) => Expression::Alternation(
                clone_expressions(branches),
            ),
            Expression::BackReference(index) => Expression::BackReference(*index),
        }
    }
}

/// A structural copy of a vector of expressions, elementwise.
fn clone_expressions(v: &Vec<Expression>) -> (r: Vec<Expression>)
    ensures
        exprs_model(r@) == exprs_model(v@),
    decreases v@,
{
    let mut r: Vec<Expression> = Vec::new();
    let mut i: usize = 0;
    while i < v.len()
        invariant
            i <= v@.len(),
            r@.len() == i,
            forall|j: int| 0 <= j < i ==> expr_model(r@[j]) == expr_model(v@[j]),
        decreases v@.len() - i,
    {
        proof {
            assert(decreases_to!(v@ => v@[i as int]));
        }
        let e = v[i].clone();
        r.push(e);
        i = i + 1;
    }
    proof {
        broadcast use lemma_exprs_model_len, lemma_exprs_model_index;

        assert(exprs_model(r@) =~= exprs_model(v@));
    }
    r
}

} // verus!
