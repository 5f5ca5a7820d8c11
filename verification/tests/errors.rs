use miniregex::CompileError;
use miniregex::compile;
use miniregex::parse::ParseError;
use miniregex::token::LexError;
use miniregex::token::tokenize;

#[test]
fn unrecognized_character_is_reported_with_position() {
    assert_eq!(
        tokenize("ab,"),
        Err(LexError { character: ',', position: 2 })
    );
}

#[test]
fn unrecognized_character_stops_compilation() {
    assert_eq!(
        compile("\u{20ac}"),
        Err(CompileError::Lex(LexError { character: '\u{20ac}', position: 0 }))
    );
}

#[test]
fn unterminated_group() {
    assert_eq!(compile("(ab"), Err(CompileError::Parse(ParseError::UnterminatedGroup)));
}

#[test]
fn unterminated_character_group() {
    assert_eq!(
        compile("[ab"),
        Err(CompileError::Parse(ParseError::UnterminatedCharacterGroup))
    );
}

#[test]
fn quantifier_without_operand() {
    assert_eq!(
        compile("*a"),
        Err(CompileError::Parse(ParseError::QuantifierWithoutOperand))
    );
}

#[test]
fn quantifier_on_anchor() {
    assert_eq!(compile("^*"), Err(CompileError::Parse(ParseError::QuantifierOnAnchor)));
}

#[test]
fn quantifier_on_quantifier() {
    assert_eq!(
        compile("a**"),
        Err(CompileError::Parse(ParseError::QuantifierOnQuantifier))
    );
}

#[test]
fn trailing_backslash() {
    assert_eq!(compile("\\"), Err(CompileError::Parse(ParseError::TrailingBackslash)));
}

#[test]
fn unsupported_escape() {
    assert_eq!(compile("\\x"), Err(CompileError::Parse(ParseError::UnsupportedEscape)));
}

#[test]
fn unexpected_token_in_character_group() {
    assert_eq!(
        compile("[a.]"),
        Err(CompileError::Parse(ParseError::UnexpectedTokenInCharacterGroup))
    );
}

#[test]
fn stray_close_paren() {
    assert_eq!(compile(")"), Err(CompileError::Parse(ParseError::UnexpectedToken)));
}

#[test]
fn oversized_backreference_number() {
    assert_eq!(
        compile("\\99999999999999999999999"),
        Err(CompileError::Parse(ParseError::BackReferenceTooLarge))
    );
}
