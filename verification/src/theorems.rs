//! Engine-wide laws, each proved from the contracts of the tokenizer, the
//! parser and the matcher.

use crate::CompileError;
use crate::character_sets;
use crate::compile_result_models;
use crate::spec_compile;
use crate::evaluate::MatchOutcome;
use crate::evaluate::found_models;
use crate::evaluate::spec_alternation;
use crate::evaluate::spec_evaluate;
use crate::evaluate::spec_search;
use crate::evaluate::spec_sequence;
use crate::evaluate::spec_step;
use crate::evaluate::starts_with_beginning_anchor;
use crate::expression::Expression;
use crate::expression::SpecExpression;
use crate::expression::expr_model;
use crate::parse::ParseError;
use crate::parse::is_quantifier;
use crate::parse::spec_parse;
use crate::parse::spec_parse_items;
use crate::token::Token;
use crate::token::char_token;
use crate::token::lemma_first_unrecognized_here;
use crate::token::spec_tokenize;
use vstd::prelude::*;

verus! {

/// Compiling the same pattern twice yields structurally equal trees: any two
/// results the compiler's contract allows for one pattern agree, model for
/// model, in success, and in the error reported.
pub proof fn theorem_compile_deterministic(
    pattern: Seq<char>,
    r1: Result<Expression, CompileError>,
    r2: Result<Expression, CompileError>,
)
    requires
        compile_result_models(r1, spec_compile(pattern)),
        compile_result_models(r2, spec_compile(pattern)),
    ensures
        r1 is Ok <==> r2 is Ok,
        r1 is Ok ==> expr_model(r1->Ok_0) == expr_model(r2->Ok_0),
        r1 is Err ==> r1->Err_0 == r2->Err_0,
{
}

/// Matching is a pure function of the tree and the input: any two results
/// the matcher's contract allows for trees with one model and one input
/// agree, so repeated calls observe no side effects.
pub proof fn theorem_evaluate_pure(
    e1: Expression,
    e2: Expression,
    input: Seq<char>,
    r1: Option<String>,
    r2: Option<String>,
)
    requires
        expr_model(e1) == expr_model(e2),
        found_models(r1, spec_evaluate(expr_model(e1), input)),
        found_models(r2, spec_evaluate(expr_model(e2), input)),
    ensures
        r1 is Some <==> r2 is Some,
        r1 is Some ==> r1->0@ == r2->0@,
{
}

/// An alternation yields exactly what its first matching branch yields: when
/// every branch before `j` fails and branch `j` matches, the alternation's
/// outcome is branch `j`'s, and the branches after `j` do not influence it.
pub proof fn theorem_alternation_first_branch(
    branches: Seq<SpecExpression>,
    input: Seq<char>,
    pos: int,
    captures: Seq<Seq<char>>,
    j: int,
)
    requires
        0 <= j < branches.len(),
        spec_step(branches[j], input, pos, captures) is Some,
        forall|k: int| 0 <= k < j ==> spec_step(branches[k], input, pos, captures) is None,
    ensures
        spec_alternation(branches, input, pos, captures) == spec_step(
            branches[j],
            input,
            pos,
            captures,
        ),
    decreases j,
{
    if j > 0 {
        assert(spec_step(branches[0], input, pos, captures) is None);
        assert(branches.drop_first()[j - 1] == branches[j]);
        assert(forall|k: int|
            0 <= k < j - 1 ==> branches.drop_first()[k] == branches[k + 1]
                && spec_step(#[trigger] branches.drop_first()[k], input, pos, captures) is None);
        theorem_alternation_first_branch(branches.drop_first(), input, pos, captures, j - 1);
    }
}

/// An alternation with no matching branch fails.
pub proof fn theorem_alternation_no_branch(
    branches: Seq<SpecExpression>,
    input: Seq<char>,
    pos: int,
    captures: Seq<Seq<char>>,
)
    requires
        forall|k: int| 0 <= k < branches.len() ==> spec_step(branches[k], input, pos, captures)
            is None,
    ensures
        spec_alternation(branches, input, pos, captures) is None,
    decreases branches.len(),
{
    if branches.len() > 0 {
        assert(forall|k: int|
            0 <= k < branches.drop_first().len() ==> branches.drop_first()[k] == branches[k + 1]
                && spec_step(#[trigger] branches.drop_first()[k], input, pos, captures) is None);
        theorem_alternation_no_branch(branches.drop_first(), input, pos, captures);
    }
}

/// A pattern without metacharacters: every character is in the pattern
/// alphabet and stands for itself.
pub open spec fn is_plain_pattern(p: Seq<char>) -> bool {
    forall|i: int| 0 <= i < p.len() ==> character_sets::is_valid_character(p[i])
}

/// The node a plain character compiles to.
pub open spec fn literal_node(c: char) -> SpecExpression {
    SpecExpression::Literal(c)
}

/// The tree such a pattern compiles to: one literal node per character.
pub open spec fn literals_of(p: Seq<char>) -> Seq<SpecExpression>
    decreases p.len(),
{
    if p.len() == 0 {
        Seq::empty()
    } else {
        seq![literal_node(p[0])] + literals_of(p.drop_first())
    }
}

/// There is one literal node per character.
pub proof fn lemma_literals_of_len(p: Seq<char>)
    ensures
        literals_of(p).len() == p.len(),
    decreases p.len(),
{
    if p.len() > 0 {
        lemma_literals_of_len(p.drop_first());
    }
}

/// The literal node at each position carries that position's character.
pub proof fn lemma_literals_of_index(p: Seq<char>, k: int)
    requires
        0 <= k < p.len(),
    ensures
        literals_of(p)[k] == literal_node(p[k]),
    decreases k,
{
    lemma_literals_of_len(p);
    if k > 0 {
        lemma_literals_of_index(p.drop_first(), k - 1);
    }
}

/// The tokens that parse to a single literal node.
spec fn is_literal_token(t: Token) -> bool {
    t matches Token::Literal(_) || t is Space || t is Hyphen
}

/// The character a literal token stands for.
spec fn literal_token_char(t: Token) -> char {
    match t {
        Token::Literal(c) => c,
        Token::Space => ' ',
        Token::Hyphen => '-',
        _ => ' ',
    }
}

/// The characters of a run of literal tokens.
spec fn token_chars(ts: Seq<Token>, i: int, j: int) -> Seq<char>
    decreases j - i,
{
    if j <= i {
        Seq::empty()
    } else {
        seq![literal_token_char(ts[i])] + token_chars(ts, i + 1, j)
    }
}

/// A run of literal tokens has one character per token.
proof fn lemma_token_chars_len(ts: Seq<Token>, i: int, j: int)
    requires
        i <= j,
    ensures
        token_chars(ts, i, j).len() == j - i,
    decreases j - i,
{
    if i < j {
        lemma_token_chars_len(ts, i + 1, j);
    }
}

/// Each character of a run of literal tokens comes from its token.
proof fn lemma_token_chars_index(ts: Seq<Token>, i: int, j: int, k: int)
    requires
        i <= j,
        0 <= k < j - i,
    ensures
        token_chars(ts, i, j)[k] == literal_token_char(ts[i + k]),
    decreases k,
{
    lemma_token_chars_len(ts, i + 1, j);
    if k > 0 {
        lemma_token_chars_index(ts, i + 1, j, k - 1);
    }
}

/// A character of the pattern alphabet tokenizes to a literal token for
/// itself, never to a quantifier.
proof fn lemma_char_token_plain(c: char)
    requires
        character_sets::is_valid_character(c),
    ensures
        char_token(c) is Some,
        is_literal_token(char_token(c)->0),
        literal_token_char(char_token(c)->0) == c,
        !is_quantifier(char_token(c)->0),
{
}

/// Parsing a run of literal tokens, not followed by a quantifier, prepends
/// one literal node per token to whatever the rest parses to.
proof fn lemma_parse_literal_run(ts: Seq<Token>, i: int, j: int)
    requires
        0 <= i <= j <= ts.len(),
        forall|k: int| i <= k < j ==> is_literal_token(ts[k]),
        j == ts.len() || !is_quantifier(ts[j]),
    ensures
        match spec_parse_items(ts, j) {
            Ok(rest) => spec_parse_items(ts, i) == Ok::<_, ParseError>(
                literals_of(token_chars(ts, i, j)) + rest,
            ),
            Err(err) => spec_parse_items(ts, i) == Err::<Seq<SpecExpression>, _>(err),
        },
    decreases j - i,
{
    if i == j {
        match spec_parse_items(ts, j) {
            Ok(rest) => {
                assert(literals_of(token_chars(ts, i, j)) + rest =~= rest);
            },
            Err(_) => {},
        }
    } else {
        let c = literal_token_char(ts[i]);
        assert(is_literal_token(ts[i]));
        assert(crate::parse::spec_parse_base(ts, i) == Ok::<_, ParseError>(
            (SpecExpression::Literal(c), i + 1),
        ));
        if i + 1 < ts.len() && is_quantifier(ts[i + 1]) {
            assert(i + 1 < j ==> is_literal_token(ts[i + 1]));
            assert(false);
        }
        assert(crate::parse::spec_parse_unary(ts, i) == Ok::<_, ParseError>(
            (SpecExpression::Literal(c), i + 1),
        ));
        lemma_parse_literal_run(ts, i + 1, j);
        match spec_parse_items(ts, j) {
            Ok(rest) => {
                let tc_rest = token_chars(ts, i + 1, j);
                lemma_token_chars_len(ts, i + 1, j);
                assert(token_chars(ts, i, j) == seq![c] + tc_rest);
                assert((seq![c] + tc_rest)[0] == c);
                assert((seq![c] + tc_rest).drop_first() =~= tc_rest);
                assert(literals_of(token_chars(ts, i, j)) == seq![literal_node(c)] + literals_of(
                    tc_rest,
                ));
                assert(literals_of(token_chars(ts, i, j)) + rest =~= seq![literal_node(c)] + (
                literals_of(tc_rest) + rest));
            },
            Err(_) => {},
        }
    }
}

/// Matching a run of literal nodes consumes exactly those characters: the
/// run followed by `rest` matches at `pos` exactly when the input carries
/// the run's characters at `pos` and `rest` matches just after them.
proof fn lemma_sequence_literals(
    p: Seq<char>,
    rest: Seq<SpecExpression>,
    input: Seq<char>,
    pos: int,
    captures: Seq<Seq<char>>,
)
    requires
        0 <= pos <= input.len(),
    ensures
        pos + p.len() <= input.len() && input.subrange(pos, pos + p.len()) == p
            ==> spec_sequence(literals_of(p) + rest, input, pos, captures) == (match spec_sequence(
            rest,
            input,
            pos + p.len(),
            captures,
        ) {
            Some(o) => Some(MatchOutcome { text: p + o.text, pos: o.pos, captures: o.captures }),
            None => None::<MatchOutcome>,
        }),
        !(pos + p.len() <= input.len() && input.subrange(pos, pos + p.len()) == p)
            ==> spec_sequence(literals_of(p) + rest, input, pos, captures) is None,
    decreases p.len(),
{
    let whole = literals_of(p) + rest;
    lemma_literals_of_len(p);
    if p.len() == 0 {
        assert(whole =~= rest);
        assert(input.subrange(pos, pos) =~= p);
        match spec_sequence(rest, input, pos, captures) {
            Some(o) => {
                assert(p + o.text =~= o.text);
            },
            None => {},
        }
    } else {
        lemma_literals_of_len(p.drop_first());
        let c = literal_node(p[0]);
        assert(literals_of(p) == seq![c] + literals_of(p.drop_first()));
        assert(whole[0] == c);
        if pos < input.len() && input[pos] == p[0] {
            assert(spec_step(whole[0], input, pos, captures) == Some(
                MatchOutcome { text: seq![input[pos]], pos: pos + 1, captures },
            ));
            assert(whole.drop_first() =~= literals_of(p.drop_first()) + rest);
            lemma_sequence_literals(p.drop_first(), rest, input, pos + 1, captures);
            if pos + p.len() <= input.len() && input.subrange(pos, pos + p.len()) == p {
                assert(input.subrange(pos + 1, pos + p.len()) =~= p.drop_first());
                match spec_sequence(rest, input, pos + p.len(), captures) {
                    Some(o2) => {
                        assert(seq![input[pos]] + (p.drop_first() + o2.text) =~= p + o2.text);
                    },
                    None => {},
                }
            } else {
                if pos + 1 + p.drop_first().len() <= input.len() && input.subrange(
                    pos + 1,
                    pos + 1 + p.drop_first().len(),
                ) == p.drop_first() {
                    assert forall|k: int| 0 <= k < p.len() implies input.subrange(
                        pos,
                        pos + p.len(),
                    )[k] == p[k] by {
                        if k > 0 {
                            assert(input.subrange(pos + 1, pos + 1 + p.drop_first().len())[k - 1]
                                == p.drop_first()[k - 1]);
                        }
                    }
                    assert(input.subrange(pos, pos + p.len()) =~= p);
                    assert(false);
                }
            }
        } else {
            assert(spec_step(whole[0], input, pos, captures) is None);
            if pos + p.len() <= input.len() && input.subrange(pos, pos + p.len()) == p {
                assert(input.subrange(pos, pos + p.len())[0] == input[pos]);
                assert(false);
            }
        }
    }
}

/// Whether the characters of `p` stand in `input` at offset `i` (an offset
/// the unanchored search can reach).
pub open spec fn occurs_at(p: Seq<char>, input: Seq<char>, i: int) -> bool {
    0 <= i < input.len() && i + p.len() <= input.len() && input.subrange(i, i + p.len()) == p
}

/// Where a run of literal nodes matches: searching from `from` succeeds
/// exactly when the pattern's characters occur at some offset the search
/// reaches, and the matched text is then the pattern itself.
proof fn lemma_search_plain(p: Seq<char>, input: Seq<char>, from: int)
    requires
        0 <= from,
    ensures
        (exists|i: int| from <= i && #[trigger] occurs_at(p, input, i)) ==> spec_search(
            SpecExpression::Sequence(literals_of(p)),
            input,
            from,
        ) == Some(p),
        !(exists|i: int| from <= i && #[trigger] occurs_at(p, input, i)) ==> spec_search(
            SpecExpression::Sequence(literals_of(p)),
            input,
            from,
        ) is None,
    decreases input.len() - from,
{
    let e = SpecExpression::Sequence(literals_of(p));
    if from < input.len() {
        lemma_sequence_literals(p, Seq::empty(), input, from, Seq::empty());
        lemma_literals_of_len(p);
        assert(literals_of(p) + Seq::<SpecExpression>::empty() =~= literals_of(p));
        if from + p.len() <= input.len() && input.subrange(from, from + p.len()) == p {
            let o = MatchOutcome {
                text: Seq::empty(),
                pos: from + p.len(),
                captures: Seq::<Seq<char>>::empty(),
            };
            assert(spec_sequence(
                Seq::<SpecExpression>::empty(),
                input,
                from + p.len(),
                Seq::<Seq<char>>::empty(),
            ) == Some(o));
            assert(p + o.text =~= p);
            assert(spec_step(e, input, from, Seq::empty()) == Some(
                MatchOutcome { text: p, pos: from + p.len(), captures: Seq::<Seq<char>>::empty() },
            ));
            assert(occurs_at(p, input, from));
        } else {
            assert(spec_step(e, input, from, Seq::empty()) is None);
            lemma_search_plain(p, input, from + 1);
            if exists|i: int| from <= i && #[trigger] occurs_at(p, input, i) {
                let i = choose|i: int| from <= i && #[trigger] occurs_at(p, input, i);
                assert(!occurs_at(p, input, from));
                assert(from + 1 <= i && occurs_at(p, input, i));
            }
        }
    }
}

/// A pattern without metacharacters compiles to one literal node per
/// character, and matches an input exactly when its characters occur in the
/// input at some offset; the matched text is then the pattern itself.
pub proof fn theorem_plain_pattern(p: Seq<char>, input: Seq<char>)
    requires
        is_plain_pattern(p),
    ensures
        spec_compile(p) == Ok::<_, CompileError>(SpecExpression::Sequence(literals_of(p))),
        spec_evaluate(SpecExpression::Sequence(literals_of(p)), input) == (if exists|i: int|
            #[trigger] occurs_at(p, input, i) {
            Some(p)
        } else {
            None::<Seq<char>>
        }),
{
    let e = SpecExpression::Sequence(literals_of(p));
    assert forall|i: int| 0 <= i < p.len() implies char_token(p[i]) is Some by {
        lemma_char_token_plain(p[i]);
    }
    lemma_first_unrecognized_here(p, 0, p.len() as int);
    let tokens = spec_tokenize(p)->Ok_0;
    assert(tokens.len() == p.len());
    assert forall|k: int| 0 <= k < tokens.len() implies is_literal_token(tokens[k])
        && literal_token_char(tokens[k]) == p[k] && !is_quantifier(tokens[k]) by {
        lemma_char_token_plain(p[k]);
    }
    lemma_parse_literal_run(tokens, 0, tokens.len() as int);
    lemma_token_chars_len(tokens, 0, tokens.len() as int);
    assert forall|k: int| 0 <= k < p.len() implies token_chars(
        tokens,
        0,
        tokens.len() as int,
    )[k] == p[k] by {
        lemma_token_chars_index(tokens, 0, tokens.len() as int, k);
    }
    assert(token_chars(tokens, 0, tokens.len() as int) =~= p);
    lemma_literals_of_len(p);
    assert(literals_of(p) + Seq::<SpecExpression>::empty() =~= literals_of(p));
    assert(spec_parse(tokens) == Ok::<_, ParseError>(e));

    if p.len() > 0 {
        lemma_literals_of_index(p, 0);
    }
    assert(!starts_with_beginning_anchor(e));
    lemma_search_plain(p, input, 0);
    assert((exists|i: int| #[trigger] occurs_at(p, input, i)) <==> (exists|i: int|
        0 <= i && #[trigger] occurs_at(p, input, i)));
}

/// An anchored literal pattern accepts exactly its own line: compiled from
/// `^`, a plain pattern and `$`, and matched against an input wrapped in
/// newline sentinels, it matches exactly when the line between the
/// sentinels is the pattern, and the matched text is then the pattern (the
/// sentinels contribute nothing to it).
pub proof fn theorem_anchored_literal(p: Seq<char>, s: Seq<char>)
    requires
        is_plain_pattern(p),
        forall|i: int| 0 <= i < s.len() ==> s[i] != '\n',
    ensures
        spec_compile(seq!['^'] + p + seq!['$']) == Ok::<_, CompileError>(
            SpecExpression::Sequence(
                seq![SpecExpression::BeginningOfLine] + literals_of(p) + seq![
                    SpecExpression::EndOfLine,
                ],
            ),
        ),
        spec_evaluate(
            SpecExpression::Sequence(
                seq![SpecExpression::BeginningOfLine] + literals_of(p) + seq![
                    SpecExpression::EndOfLine,
                ],
            ),
            seq!['\n'] + s + seq!['\n'],
        ) == (if s == p {
            Some(p)
        } else {
            None::<Seq<char>>
        }),
{
    let q = seq!['^'] + p + seq!['$'];
    let n = q.len() as int;
    let cs = seq![SpecExpression::BeginningOfLine] + literals_of(p) + seq![
        SpecExpression::EndOfLine,
    ];
    let e = SpecExpression::Sequence(cs);
    let w = seq!['\n'] + s + seq!['\n'];
    lemma_literals_of_len(p);

    // The pattern tokenizes: the anchors to their tokens, everything else to
    // a literal token for its character.
    assert(q[0] == '^');
    assert(q[n - 1] == '$');
    assert forall|k: int| 0 <= k < n implies char_token(q[k]) is Some by {
        if 1 <= k <= p.len() {
            assert(q[k] == p[k - 1]);
            lemma_char_token_plain(p[k - 1]);
        }
    }
    lemma_first_unrecognized_here(q, 0, n);
    let tokens = spec_tokenize(q)->Ok_0;
    assert(tokens.len() == n);
    assert(tokens[0] == Token::Caret);
    assert(tokens[n - 1] == Token::Dollar);
    assert forall|k: int| 1 <= k <= p.len() implies is_literal_token(tokens[k])
        && literal_token_char(tokens[k]) == p[k - 1] && !is_quantifier(tokens[k]) by {
        assert(q[k] == p[k - 1]);
        lemma_char_token_plain(p[k - 1]);
    }

    // The pattern parses: the closing anchor first.
    assert(spec_parse_items(tokens, n) == Ok::<_, ParseError>(Seq::<SpecExpression>::empty()));
    assert(crate::parse::spec_parse_unary(tokens, n - 1) == Ok::<_, ParseError>(
        (SpecExpression::EndOfLine, n),
    ));
    assert(spec_parse_items(tokens, n - 1) == Ok::<_, ParseError>(
        seq![SpecExpression::EndOfLine] + Seq::<SpecExpression>::empty(),
    ));
    assert(seq![SpecExpression::EndOfLine] + Seq::<SpecExpression>::empty() =~= seq![
        SpecExpression::EndOfLine,
    ]);

    // Then the run of literals between the anchors.
    lemma_parse_literal_run(tokens, 1, n - 1);
    lemma_token_chars_len(tokens, 1, n - 1);
    assert forall|k: int| 0 <= k < p.len() implies token_chars(tokens, 1, n - 1)[k] == p[k] by {
        lemma_token_chars_index(tokens, 1, n - 1, k);
    }
    assert(token_chars(tokens, 1, n - 1) =~= p);
    assert(spec_parse_items(tokens, 1) == Ok::<_, ParseError>(
        literals_of(p) + seq![SpecExpression::EndOfLine],
    ));

    // Then the opening anchor, which no quantifier follows.
    assert(!is_quantifier(tokens[1]));
    assert(crate::parse::spec_parse_unary(tokens, 0) == Ok::<_, ParseError>(
        (SpecExpression::BeginningOfLine, 1int),
    ));
    assert(spec_parse_items(tokens, 0) == Ok::<_, ParseError>(
        seq![SpecExpression::BeginningOfLine] + (literals_of(p) + seq![
            SpecExpression::EndOfLine,
        ]),
    ));
    assert(seq![SpecExpression::BeginningOfLine] + (literals_of(p) + seq![
        SpecExpression::EndOfLine,
    ]) =~= cs);
    assert(spec_compile(q) == Ok::<_, CompileError>(e));

    // The tree is anchored, so exactly one attempt is made, at the start.
    assert(cs[0] == SpecExpression::BeginningOfLine);
    assert(starts_with_beginning_anchor(e));

    // The attempt: the opening sentinel, then the literals, then the
    // closing sentinel.
    assert(w[0] == '\n');
    assert(w.len() == s.len() + 2);
    assert(spec_step(cs[0], w, 0, Seq::empty()) == Some(
        MatchOutcome { text: Seq::empty(), pos: 1, captures: Seq::<Seq<char>>::empty() },
    ));
    assert(cs.drop_first() =~= literals_of(p) + seq![SpecExpression::EndOfLine]);
    lemma_sequence_literals(p, seq![SpecExpression::EndOfLine], w, 1, Seq::empty());

    if s == p {
        assert forall|k: int| 0 <= k < p.len() implies w.subrange(1, 1 + p.len() as int)[k] == p[k] by {
            assert(w[1 + k] == s[k]);
        }
        assert(w.subrange(1, 1 + p.len() as int) =~= p);
        let after = 1 + p.len() as int;
        assert(w[after] == '\n');
        assert(seq![SpecExpression::EndOfLine][0] == SpecExpression::EndOfLine);
        assert(spec_step(SpecExpression::EndOfLine, w, after, Seq::empty()) == Some(
            MatchOutcome { text: Seq::empty(), pos: after + 1, captures: Seq::<Seq<char>>::empty() },
        ));
        assert(seq![SpecExpression::EndOfLine].drop_first() =~= Seq::<SpecExpression>::empty());
        assert(spec_sequence(Seq::<SpecExpression>::empty(), w, after + 1, Seq::empty()) == Some(
            MatchOutcome { text: Seq::empty(), pos: after + 1, captures: Seq::<Seq<char>>::empty() },
        ));
        assert(spec_sequence(seq![SpecExpression::EndOfLine], w, after, Seq::empty()) == Some(
            MatchOutcome {
                text: Seq::empty() + Seq::empty(),
                pos: after + 1,
                captures: Seq::<Seq<char>>::empty(),
            },
        ));
        assert(Seq::<char>::empty() + Seq::<char>::empty() =~= Seq::<char>::empty());
        assert(p + (Seq::<char>::empty() + Seq::<char>::empty()) =~= p);
        assert(Seq::<char>::empty() + p =~= p);
        assert(spec_sequence(cs.drop_first(), w, 1, Seq::empty()) == Some(
            MatchOutcome { text: p, pos: after + 1, captures: Seq::<Seq<char>>::empty() },
        ));
        assert(spec_sequence(cs, w, 0, Seq::empty()) == Some(
            MatchOutcome {
                text: Seq::<char>::empty() + p,
                pos: after + 1,
                captures: Seq::<Seq<char>>::empty(),
            },
        ));
        assert(spec_step(e, w, 0, Seq::empty()) == Some(
            MatchOutcome {
                text: Seq::<char>::empty() + p,
                pos: after + 1,
                captures: Seq::<Seq<char>>::empty(),
            },
        ));
        assert(spec_evaluate(e, w) == Some(p));
    } else {
        if 1 + p.len() <= w.len() && w.subrange(1, 1 + p.len() as int) == p {
            let after = 1 + p.len() as int;
            if after <= s.len() {
                assert(w[after] == s[after - 1]);
                assert(spec_step(SpecExpression::EndOfLine, w, after, Seq::empty()) is None);
                assert(spec_sequence(seq![SpecExpression::EndOfLine], w, after, Seq::empty())
                    is None);
            } else if after == s.len() + 1 {
                assert(p.len() == s.len());
                assert forall|k: int| 0 <= k < s.len() implies s[k] == p[k] by {
                    assert(w.subrange(1, 1 + p.len() as int)[k] == w[1 + k]);
                    assert(w[1 + k] == s[k]);
                }
                assert(s =~= p);
                assert(false);
            } else {
                assert(after == s.len() + 2);
                assert(spec_step(SpecExpression::EndOfLine, w, after, Seq::empty()) is None);
                assert(spec_sequence(seq![SpecExpression::EndOfLine], w, after, Seq::empty())
                    is None);
            }
        }
        assert(spec_sequence(cs.drop_first(), w, 1, Seq::empty()) is None);
        assert(spec_sequence(cs, w, 0, Seq::empty()) is None);
        assert(spec_step(e, w, 0, Seq::empty()) is None);
        assert(spec_evaluate(e, w) is None);
    }
}

} // verus!
