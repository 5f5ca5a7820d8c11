use miniregex::compile;
use miniregex::evaluate;
use miniregex::expression::Expression;
use miniregex::parse;
use miniregex::token::Token;
use miniregex::token::tokenize;

#[test]
fn tokenize_classifies_each_character() {
    assert_eq!(
        tokenize("a.c"),
        Ok(vec![Token::Literal('a'), Token::Dot, Token::Literal('c')])
    );
}

#[test]
fn tokenize_handles_metacharacters() {
    assert_eq!(
        tokenize("(a|b)*"),
        Ok(vec![
            Token::OpenParen,
            Token::Literal('a'),
            Token::Pipe,
            Token::Literal('b'),
            Token::CloseParen,
            Token::Star,
        ])
    );
}

#[test]
fn plain_pattern_compiles_to_literal_sequence() {
    assert_eq!(
        compile("ab"),
        Ok(Expression::Sequence(vec![
            Expression::Literal('a'),
            Expression::Literal('b'),
        ]))
    );
}

#[test]
fn group_compiles_to_captured_alternation() {
    assert_eq!(
        compile("(a|b)"),
        Ok(Expression::Sequence(vec![Expression::Capture(Box::new(
            Expression::Alternation(vec![
                Expression::Sequence(vec![Expression::Literal('a')]),
                Expression::Sequence(vec![Expression::Literal('b')]),
            ])
        ))]))
    );
}

#[test]
fn star_compiles_to_repeat() {
    assert_eq!(
        compile("a*"),
        Ok(Expression::Sequence(vec![Expression::Repeat(Box::new(
            Expression::Literal('a')
        ))]))
    );
}

#[test]
fn plus_desugars_to_one_then_repeat() {
    assert_eq!(
        compile("a+"),
        Ok(Expression::Sequence(vec![Expression::Sequence(vec![
            Expression::Literal('a'),
            Expression::Repeat(Box::new(Expression::Literal('a'))),
        ])]))
    );
}

#[test]
fn question_compiles_to_optional() {
    assert_eq!(
        compile("a?"),
        Ok(Expression::Sequence(vec![Expression::Optional(Box::new(
            Expression::Literal('a')
        ))]))
    );
}

#[test]
fn negated_class_keeps_members_in_order() {
    assert_eq!(
        compile("[^ab]"),
        Ok(Expression::Sequence(vec![
            Expression::NegativeCharacterGroup(vec!['a', 'b']),
        ]))
    );
}

#[test]
fn backreference_digits_are_consumed_greedily() {
    assert_eq!(
        compile("\\12"),
        Ok(Expression::Sequence(vec![Expression::BackReference(12)]))
    );
}

#[test]
fn anchors_compile_to_anchor_nodes() {
    assert_eq!(
        compile("^a$"),
        Ok(Expression::Sequence(vec![
            Expression::BeginningOfLine,
            Expression::Literal('a'),
            Expression::EndOfLine,
        ]))
    );
}

#[test]
fn parse_accepts_token_slice() {
    let tokens = tokenize("ab").unwrap();
    assert_eq!(
        parse(&tokens),
        Ok(Expression::Sequence(vec![
            Expression::Literal('a'),
            Expression::Literal('b'),
        ]))
    );
}

#[test]
fn compiling_twice_yields_equal_trees() {
    let first = compile("a(b|c)*d\\1[ef]").unwrap();
    let second = compile("a(b|c)*d\\1[ef]").unwrap();
    assert_eq!(first, second);
}

#[test]
fn matching_twice_yields_equal_results() {
    let expression = compile("(cat|car)s").unwrap();
    let first = evaluate(&expression, "two cars");
    let second = evaluate(&expression, "two cars");
    assert_eq!(first, Some(String::from("cars")));
    assert_eq!(first, second);
}
