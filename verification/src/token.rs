//! The tokenizer: turns a pattern string into a flat sequence of lexical
//! tokens.
//!
//! Every character is classified on its own, with no lookahead:
//! multi-character constructs such as `\d` or `(ab)` are resolved later by
//! the parser, as runs of single-character tokens. A character that is
//! neither a metacharacter nor part of the pattern alphabet is a hard
//! failure, reported as a [`LexError`] naming the first such character and
//! its position.

use crate::character_sets;
use vstd::prelude::*;

verus! {

/// One lexical unit of a pattern string.
#[derive(Debug, PartialEq, Eq, Structural, Clone, Copy)]
pub enum Token {
    Literal(char),
    BackSlash,
    OpenParen,
    CloseParen,
    Star,
    Plus,
    Pipe,
    Hyphen,
    Space,
    OpenBracket,
    CloseBracket,
    Dot,
    Caret,
    Dollar,
    Question,
}

/// The first character of the pattern that is not recognized, and where it
/// stands.
#[derive(Debug, PartialEq, Eq, Structural, Clone, Copy)]
pub struct LexError {
    pub character: char,
    pub position: usize,
}

/// The token a single character stands for, or `None` if the character is
/// not part of the pattern language.
pub open spec fn char_token(c: char) -> Option<Token> {
    if c == '$' {
        Some(Token::Dollar)
    } else if c == '^' {
        Some(Token::Caret)
    } else if c == '.' {
        Some(Token::Dot)
    } else if c == '\\' {
        Some(Token::BackSlash)
    } else if c == '(' {
        Some(Token::OpenParen)
    } else if c == ')' {
        Some(Token::CloseParen)
    } else if c == '[' {
        Some(Token::OpenBracket)
    } else if c == ']' {
        Some(Token::CloseBracket)
    } else if c == '*' {
        Some(Token::Star)
    } else if c == '+' {
        Some(Token::Plus)
    } else if c == '?' {
        Some(Token::Question)
    } else if c == '|' {
        Some(Token::Pipe)
    } else if c == '-' {
        Some(Token::Hyphen)
    } else if c == ' ' {
        Some(Token::Space)
    } else if character_sets::is_valid_character(c) {
        Some(Token::Literal(c))
    } else {
        None
    }
}

/// The position of the first character at or after `i` that no token stands
/// for, or the length of the pattern if every character from `i` on is
/// recognized.
pub open spec fn first_unrecognized(s: Seq<char>, i: int) -> int
    decreases s.len() - i,
{
    if i < 0 || i >= s.len() {
        s.len() as int
    } else if char_token(s[i]) is None {
        i
    } else {
        first_unrecognized(s, i + 1)
    }
}

/// What tokenizing a pattern yields: the token of each character in input
/// order, or the first unrecognized character and its position.
pub open spec fn spec_tokenize(s: Seq<char>) -> Result<Seq<Token>, LexError> {
    let bad = first_unrecognized(s, 0);
    if bad == s.len() {
        Ok(Seq::new(s.len(), |i: int| char_token(s[i])->0))
    } else {
        Err(LexError { character: s[bad], position: bad as usize })
    }
}

/// How an executable tokenizing result corresponds to the specification-level
/// one.
pub open spec fn tokens_result_models(
    r: Result<Vec<Token>, LexError>,
    m: Result<Seq<Token>, LexError>,
) -> bool {
    match r {
        Ok(tokens) => m is Ok && tokens@ == m->Ok_0,
        Err(e) => m == Err::<Seq<Token>, LexError>(e),
    }
}

/// Locates the first unrecognized character: when everything before `i` is
/// recognized and `i` is the end or unrecognized, the search from `k` stops
/// at `i`.
pub proof fn lemma_first_unrecognized_here(s: Seq<char>, k: int, i: int)
    requires
        0 <= k <= i <= s.len(),
        forall|j: int| k <= j < i ==> char_token(s[j]) is Some,
        i == s.len() || char_token(s[i]) is None,
    ensures
        first_unrecognized(s, k) == i,
    decreases i - k,
{
    if k < i {
        lemma_first_unrecognized_here(s, k + 1, i);
    }
}

/// Turns a pattern string into its token sequence, or reports the first
/// character that is neither a metacharacter nor in the pattern alphabet.
pub fn tokenize(pattern: &str) -> (r: Result<Vec<Token>, LexError>)
    ensures
        tokens_result_models(r, spec_tokenize(pattern@)),
{
    let ghost s = pattern@;
    let len = pattern.unicode_len();
    let mut tokens: Vec<Token> = Vec::new();
    let mut i: usize = 0;
    while i < len
        invariant
            i <= len,
            len == s.len(),
            s == pattern@,
            tokens@.len() == i,
            forall|j: int| 0 <= j < i ==> char_token(s[j]) is Some,
            forall|j: int| 0 <= j < i ==> tokens@[j] == char_token(s[j])->0,
        decreases len - i,
    {
        let c = pattern.get_char(i);
        let new_token = if c == '$' {
            Token::Dollar
        } else if c == '^' {
            Token::Caret
        } else if c == '.' {
            Token::Dot
        } else if c == '\\' {
            Token::BackSlash
        } else if c == '(' {
            Token::OpenParen
        } else if c == ')' {
            Token::CloseParen
        } else if c == '[' {
            Token::OpenBracket
        } else if c == ']' {
            Token::CloseBracket
        } else if c == '*' {
            Token::Star
        } else if c == '+' {
            Token::Plus
        } else if c == '?' {
            Token::Question
        } else if c == '|' {
            Token::Pipe
        } else if c == '-' {
            Token::Hyphen
        } else if c == ' ' {
            Token::Space
        } else if character_sets::is_valid(c) {
            Token::Literal(c)
        } else {
            proof {
                lemma_first_unrecognized_here(s, 0, i as int);
            }
            return Err(LexError { character: c, position: i });
        };
        tokens.push(new_token);
        i = i + 1;
    }
    proof {
        lemma_first_unrecognized_here(s, 0, len as int);
        assert(tokens@ =~= Seq::new(s.len(), |j: int| char_token(s[j])->0));
    }
    Ok(tokens)
}

} // verus!
