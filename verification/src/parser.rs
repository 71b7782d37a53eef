//! The policy loader: a small sandboxed configuration language whose whole
//! surface is string and list literals and named-argument calls of the one
//! builtin, `prefix_rule`.  The loader tokenizes and parses the script,
//! interprets each call into rules (fanning out first-token alternatives),
//! validates the inline examples, and finalizes an immutable policy.  The
//! language is total: it has no loops, no names beyond the builtin, and no
//! way to reach the host.

use vstd::prelude::*;

use crate::decision::Decision;
use crate::decision::parse_decision_spec;
use crate::error::Error;
use crate::error::ErrorV;
use crate::rule::PatternTokenV;
use crate::rule::PrefixPatternV;
use crate::rule::PrefixRuleV;
use crate::rule::token_alternatives;
use crate::rule::PatternToken;
use crate::rule::PrefixPattern;
use crate::rule::PrefixRule;
use crate::rule::Rule;
use crate::rule::validate_spec;
use crate::policy::Policy;
use crate::strutil::dec_str;

verus! {

/// One token of the policy script.
#[derive(Debug, Eq, PartialEq)]
pub enum Token {
    LParen,
    RParen,
    LBracket,
    RBracket,
    Comma,
    Equals,
    Ident(String),
    Str(String),
}

/// The mathematical model of a `Token`.
pub enum TokenV {
    LParen,
    RParen,
    LBracket,
    RBracket,
    Comma,
    Equals,
    Ident(Seq<char>),
    Str(Seq<char>),
}

impl View for Token {
    type V = TokenV;

    open spec fn view(&self) -> TokenV {
        match self {
            Token::LParen => TokenV::LParen,
            Token::RParen => TokenV::RParen,
            Token::LBracket => TokenV::LBracket,
            Token::RBracket => TokenV::RBracket,
            Token::Comma => TokenV::Comma,
            Token::Equals => TokenV::Equals,
            Token::Ident(name) => TokenV::Ident(name@),
            Token::Str(value) => TokenV::Str(value@),
        }
    }
}

impl DeepView for Token {
    type V = TokenV;

    open spec fn deep_view(&self) -> TokenV {
        self.view()
    }
}

/// Whitespace between tokens.
pub open spec fn is_space(c: char) -> bool {
    c == ' ' || c == '\t' || c == '\r' || c == '\n'
}

/// The first character of an identifier.
pub open spec fn is_ident_start(c: char) -> bool {
    ('a' <= c && c <= 'z') || ('A' <= c && c <= 'Z') || c == '_'
}

/// A character of an identifier after the first.
pub open spec fn is_ident_char(c: char) -> bool {
    is_ident_start(c) || ('0' <= c && c <= '9')
}

/// What a backslash escape inside a string literal stands for.
pub open spec fn unescaped(c: char) -> Option<char> {
    if c == '"' {
        Some('"')
    } else if c == '\\' {
        Some('\\')
    } else if c == 'n' {
        Some('\n')
    } else if c == 't' {
        Some('\t')
    } else if c == 'r' {
        Some('\r')
    } else {
        None
    }
}

/// Prepend one token to a tokenization result.
pub open spec fn cons_token(t: TokenV, rest: Result<Seq<TokenV>, ErrorV>) -> Result<
    Seq<TokenV>,
    ErrorV,
> {
    match rest {
        Ok(ts) => Ok(seq![t] + ts),
        Err(e) => Err(e),
    }
}

/// The tokens of the script, or the error when a character cannot start a
/// token or a string literal is unterminated or holds an unknown escape.
pub open spec fn spec_tokenize(s: Seq<char>) -> Result<Seq<TokenV>, ErrorV>
    decreases s.len(), 0int,
{
    if s.len() == 0 {
        Ok(Seq::empty())
    } else {
        let c = s[0];
        if is_space(c) {
            spec_tokenize(s.drop_first())
        } else if c == '#' {
            spec_comment(s.drop_first())
        } else if c == '(' {
            cons_token(TokenV::LParen, spec_tokenize(s.drop_first()))
        } else if c == ')' {
            cons_token(TokenV::RParen, spec_tokenize(s.drop_first()))
        } else if c == '[' {
            cons_token(TokenV::LBracket, spec_tokenize(s.drop_first()))
        } else if c == ']' {
            cons_token(TokenV::RBracket, spec_tokenize(s.drop_first()))
        } else if c == ',' {
            cons_token(TokenV::Comma, spec_tokenize(s.drop_first()))
        } else if c == '=' {
            cons_token(TokenV::Equals, spec_tokenize(s.drop_first()))
        } else if c == '"' {
            spec_string(s.drop_first(), Seq::empty())
        } else if is_ident_start(c) {
            spec_ident(s.drop_first(), seq![c])
        } else {
            Err(ErrorV::ConfigLanguage("unexpected character in policy script"@))
        }
    }
}

/// Tokenization inside a comment: everything to the end of the line is
/// dropped.
pub open spec fn spec_comment(s: Seq<char>) -> Result<Seq<TokenV>, ErrorV>
    decreases s.len(), 1int,
{
    if s.len() == 0 {
        Ok(Seq::empty())
    } else if s[0] == '\n' {
        spec_tokenize(s.drop_first())
    } else {
        spec_comment(s.drop_first())
    }
}

/// Tokenization inside a string literal, with the characters read so far.
pub open spec fn spec_string(s: Seq<char>, acc: Seq<char>) -> Result<Seq<TokenV>, ErrorV>
    decreases s.len(), 1int,
{
    if s.len() == 0 {
        Err(ErrorV::ConfigLanguage("unterminated string literal"@))
    } else if s[0] == '"' {
        cons_token(TokenV::Str(acc), spec_tokenize(s.drop_first()))
    } else if s[0] == '\\' {
        if s.len() >= 2 {
            match unescaped(s[1]) {
                Some(u) => spec_string(s.skip(2), acc.push(u)),
                None => Err(ErrorV::ConfigLanguage("unknown escape in string literal"@)),
            }
        } else {
            Err(ErrorV::ConfigLanguage("unterminated escape in string literal"@))
        }
    } else {
        spec_string(s.drop_first(), acc.push(s[0]))
    }
}

/// Tokenization inside an identifier, with the characters read so far.
pub open spec fn spec_ident(s: Seq<char>, acc: Seq<char>) -> Result<Seq<TokenV>, ErrorV>
    decreases s.len(), 1int,
{
    if s.len() > 0 && is_ident_char(s[0]) {
        spec_ident(s.drop_first(), acc.push(s[0]))
    } else {
        cons_token(TokenV::Ident(acc), spec_tokenize(s))
    }
}

/// The arguments one `prefix_rule` call carries, before interpretation.
/// A field is present exactly when the script names it.
pub struct CallArgsV {
    pub pattern: Option<Seq<PatternTokenV>>,
    pub decision: Option<Seq<char>>,
    pub pos_examples: Option<Seq<Seq<Seq<char>>>>,
    pub neg_examples: Option<Seq<Seq<Seq<char>>>>,
    pub id: Option<Seq<char>>,
}

/// A call with no arguments named yet.
pub open spec fn empty_call() -> CallArgsV {
    CallArgsV {
        pattern: None,
        decision: None,
        pos_examples: None,
        neg_examples: None,
        id: None,
    }
}

/// The strings of a pattern-alternatives list, read after its `[`; the
/// result carries the remaining tokens after the closing `]`.
pub open spec fn spec_alt_items(ts: Seq<TokenV>) -> Result<(Seq<Seq<char>>, Seq<TokenV>), ErrorV>
    decreases ts.len(),
{
    if ts.len() == 0 {
        Err(ErrorV::ConfigLanguage("unterminated list"@))
    } else {
        match ts[0] {
            TokenV::RBracket => Ok((Seq::empty(), ts.drop_first())),
            TokenV::Str(s) => if ts.len() >= 2 {
                match ts[1] {
                    TokenV::Comma => match spec_alt_items(ts.skip(2)) {
                        Ok((items, rest)) => Ok((seq![s] + items, rest)),
                        Err(e) => Err(e),
                    },
                    TokenV::RBracket => Ok((seq![s], ts.skip(2))),
                    _ => Err(ErrorV::ConfigLanguage("expected a comma or a closing bracket"@)),
                }
            } else {
                Err(ErrorV::ConfigLanguage("unterminated list"@))
            },
            TokenV::LBracket => Err(ErrorV::InvalidPattern("pattern alternative must be a string"@)),
            _ => Err(ErrorV::ConfigLanguage("expected a string in a pattern alternatives list"@)),
        }
    }
}

/// The strings of one example's token list, read after its `[`.
pub open spec fn spec_example_tokens(ts: Seq<TokenV>) -> Result<
    (Seq<Seq<char>>, Seq<TokenV>),
    ErrorV,
>
    decreases ts.len(),
{
    if ts.len() == 0 {
        Err(ErrorV::ConfigLanguage("unterminated list"@))
    } else {
        match ts[0] {
            TokenV::RBracket => Ok((Seq::empty(), ts.drop_first())),
            TokenV::Str(s) => if ts.len() >= 2 {
                match ts[1] {
                    TokenV::Comma => match spec_example_tokens(ts.skip(2)) {
                        Ok((items, rest)) => Ok((seq![s] + items, rest)),
                        Err(e) => Err(e),
                    },
                    TokenV::RBracket => Ok((seq![s], ts.skip(2))),
                    _ => Err(ErrorV::ConfigLanguage("expected a comma or a closing bracket"@)),
                }
            } else {
                Err(ErrorV::ConfigLanguage("unterminated list"@))
            },
            TokenV::LBracket => Err(ErrorV::InvalidExample("example tokens must be strings"@)),
            _ => Err(ErrorV::ConfigLanguage("expected a string in an example list"@)),
        }
    }
}

/// Reading a list consumes at least its closing bracket.
proof fn lemma_alt_items_consumes(ts: Seq<TokenV>)
    ensures
        spec_alt_items(ts) matches Ok((items, rest)) ==> rest.len() < ts.len(),
    decreases ts.len(),
{
    if ts.len() >= 2 {
        lemma_alt_items_consumes(ts.skip(2));
    }
}

/// Reading a list consumes at least its closing bracket.
proof fn lemma_example_tokens_consumes(ts: Seq<TokenV>)
    ensures
        spec_example_tokens(ts) matches Ok((items, rest)) ==> rest.len() < ts.len(),
    decreases ts.len(),
{
    if ts.len() >= 2 {
        lemma_example_tokens_consumes(ts.skip(2));
    }
}

/// The elements of a `pattern` list, read after its `[`: each one a string
/// or a bracketed list of alternative strings, canonicalized so that a
/// one-element alternatives list becomes a literal.
pub open spec fn spec_pattern_items(ts: Seq<TokenV>) -> Result<
    (Seq<PatternTokenV>, Seq<TokenV>),
    ErrorV,
>
    decreases ts.len(),
    via spec_pattern_items_decreases
{
    if ts.len() == 0 {
        Err(ErrorV::ConfigLanguage("unterminated list"@))
    } else {
        match ts[0] {
            TokenV::RBracket => Ok((Seq::empty(), ts.drop_first())),
            TokenV::Str(s) => if ts.len() >= 2 {
                match ts[1] {
                    TokenV::Comma => match spec_pattern_items(ts.skip(2)) {
                        Ok((items, rest)) => Ok((seq![PatternTokenV::Single(s)] + items, rest)),
                        Err(e) => Err(e),
                    },
                    TokenV::RBracket => Ok((seq![PatternTokenV::Single(s)], ts.skip(2))),
                    _ => Err(ErrorV::ConfigLanguage("expected a comma or a closing bracket"@)),
                }
            } else {
                Err(ErrorV::ConfigLanguage("unterminated list"@))
            },
            TokenV::LBracket => match spec_alt_items(ts.drop_first()) {
                Err(e) => Err(e),
                Ok((alts, rest)) => if alts.len() == 0 {
                    Err(ErrorV::InvalidPattern("pattern alternatives cannot be empty"@))
                } else {
                    let elem = if alts.len() == 1 {
                        PatternTokenV::Single(alts[0])
                    } else {
                        PatternTokenV::Alts(alts)
                    };
                    if rest.len() == 0 {
                        Err(ErrorV::ConfigLanguage("unterminated list"@))
                    } else {
                        match rest[0] {
                            TokenV::Comma => match spec_pattern_items(rest.drop_first()) {
                                Ok((items, tail)) => Ok((seq![elem] + items, tail)),
                                Err(e) => Err(e),
                            },
                            TokenV::RBracket => Ok((seq![elem], rest.drop_first())),
                            _ => Err(
                                ErrorV::ConfigLanguage("expected a comma or a closing bracket"@),
                            ),
                        }
                    }
                },
            },
            _ => Err(
                ErrorV::InvalidPattern("pattern element must be a string or list of strings"@),
            ),
        }
    }
}

#[via_fn]
proof fn spec_pattern_items_decreases(ts: Seq<TokenV>) {
    if ts.len() > 0 && (ts[0] is LBracket) {
        lemma_alt_items_consumes(ts.drop_first());
    }
}

/// The elements of a `match` or `not_match` list, read after its `[`: each
/// one a bracketed list of example tokens.
pub open spec fn spec_example_items(ts: Seq<TokenV>) -> Result<
    (Seq<Seq<Seq<char>>>, Seq<TokenV>),
    ErrorV,
>
    decreases ts.len(),
    via spec_example_items_decreases
{
    if ts.len() == 0 {
        Err(ErrorV::ConfigLanguage("unterminated list"@))
    } else {
        match ts[0] {
            TokenV::RBracket => Ok((Seq::empty(), ts.drop_first())),
            TokenV::LBracket => match spec_example_tokens(ts.drop_first()) {
                Err(e) => Err(e),
                Ok((tokens, rest)) => if tokens.len() == 0 {
                    Err(ErrorV::InvalidExample("example cannot be an empty list"@))
                } else if rest.len() == 0 {
                    Err(ErrorV::ConfigLanguage("unterminated list"@))
                } else {
                    match rest[0] {
                        TokenV::Comma => match spec_example_items(rest.drop_first()) {
                            Ok((items, tail)) => Ok((seq![tokens] + items, tail)),
                            Err(e) => Err(e),
                        },
                        TokenV::RBracket => Ok((seq![tokens], rest.drop_first())),
                        _ => Err(ErrorV::ConfigLanguage("expected a comma or a closing bracket"@)),
                    }
                },
            },
            TokenV::Str(_) => Err(ErrorV::InvalidExample("example must be a list of strings"@)),
            _ => Err(ErrorV::ConfigLanguage("expected a list in an examples list"@)),
        }
    }
}

#[via_fn]
proof fn spec_example_items_decreases(ts: Seq<TokenV>) {
    if ts.len() > 0 && (ts[0] is LBracket) {
        lemma_example_tokens_consumes(ts.drop_first());
    }
}

/// Reading a pattern list consumes at least its closing bracket.
proof fn lemma_pattern_items_consumes(ts: Seq<TokenV>)
    ensures
        spec_pattern_items(ts) matches Ok((items, rest)) ==> rest.len() < ts.len(),
    decreases ts.len(),
{
    if ts.len() > 0 {
        if ts[0] is LBracket {
            lemma_alt_items_consumes(ts.drop_first());
            match spec_alt_items(ts.drop_first()) {
                Ok((alts, rest)) => {
                    if rest.len() > 0 && (rest[0] is Comma) {
                        lemma_pattern_items_consumes(rest.drop_first());
                    }
                },
                Err(_) => {},
            }
        } else if ts.len() >= 2 {
            lemma_pattern_items_consumes(ts.skip(2));
        }
    }
}

/// Reading an examples list consumes at least its closing bracket.
proof fn lemma_example_items_consumes(ts: Seq<TokenV>)
    ensures
        spec_example_items(ts) matches Ok((items, rest)) ==> rest.len() < ts.len(),
    decreases ts.len(),
{
    if ts.len() > 0 {
        if ts[0] is LBracket {
            lemma_example_tokens_consumes(ts.drop_first());
            match spec_example_tokens(ts.drop_first()) {
                Ok((tokens, rest)) => {
                    if rest.len() > 0 && (rest[0] is Comma) {
                        lemma_example_items_consumes(rest.drop_first());
                    }
                },
                Err(_) => {},
            }
        }
    }
}

/// One named argument's value has been read into the call; expect a comma
/// or the closing parenthesis.
pub open spec fn spec_args_after(ts: Seq<TokenV>, call: CallArgsV) -> Result<
    (CallArgsV, Seq<TokenV>),
    ErrorV,
>
    decreases ts.len(), 0int,
{
    if ts.len() == 0 {
        Err(ErrorV::ConfigLanguage("unterminated call"@))
    } else {
        match ts[0] {
            TokenV::Comma => spec_args(ts.drop_first(), call),
            TokenV::RParen => Ok((call, ts.drop_first())),
            _ => Err(ErrorV::ConfigLanguage("expected a comma or a closing parenthesis"@)),
        }
    }
}

/// The named arguments of a call, read after its `(`.  Each is
/// `name = value`, where the value's accepted shape depends on the name;
/// an unknown or repeated name is refused.
pub open spec fn spec_args(ts: Seq<TokenV>, call: CallArgsV) -> Result<
    (CallArgsV, Seq<TokenV>),
    ErrorV,
>
    decreases ts.len(), 1int,
    via spec_args_decreases
{
    if ts.len() == 0 {
        Err(ErrorV::ConfigLanguage("unterminated call"@))
    } else {
        match ts[0] {
            TokenV::RParen => Ok((call, ts.drop_first())),
            TokenV::Ident(name) => if ts.len() >= 2 && (ts[1] is Equals) {
                if name == "pattern"@ {
                    if call.pattern is Some {
                        Err(ErrorV::ConfigLanguage("repeated argument: pattern"@))
                    } else if ts.len() >= 3 && (ts[2] is LBracket) {
                        match spec_pattern_items(ts.skip(3)) {
                            Ok((elems, rest)) => spec_args_after(
                                rest,
                                CallArgsV { pattern: Some(elems), ..call },
                            ),
                            Err(e) => Err(e),
                        }
                    } else {
                        Err(ErrorV::ConfigLanguage("pattern must be a list"@))
                    }
                } else if name == "decision"@ {
                    if call.decision is Some {
                        Err(ErrorV::ConfigLanguage("repeated argument: decision"@))
                    } else if ts.len() >= 3 && (ts[2] is Str) {
                        spec_args_after(
                            ts.skip(3),
                            CallArgsV { decision: Some(ts[2]->Str_0), ..call },
                        )
                    } else {
                        Err(ErrorV::ConfigLanguage("decision must be a string"@))
                    }
                } else if name == "match"@ {
                    if call.pos_examples is Some {
                        Err(ErrorV::ConfigLanguage("repeated argument: match"@))
                    } else if ts.len() >= 3 && (ts[2] is LBracket) {
                        match spec_example_items(ts.skip(3)) {
                            Ok((items, rest)) => spec_args_after(
                                rest,
                                CallArgsV { pos_examples: Some(items), ..call },
                            ),
                            Err(e) => Err(e),
                        }
                    } else {
                        Err(ErrorV::ConfigLanguage("match must be a list"@))
                    }
                } else if name == "not_match"@ {
                    if call.neg_examples is Some {
                        Err(ErrorV::ConfigLanguage("repeated argument: not_match"@))
                    } else if ts.len() >= 3 && (ts[2] is LBracket) {
                        match spec_example_items(ts.skip(3)) {
                            Ok((items, rest)) => spec_args_after(
                                rest,
                                CallArgsV { neg_examples: Some(items), ..call },
                            ),
                            Err(e) => Err(e),
                        }
                    } else {
                        Err(ErrorV::ConfigLanguage("not_match must be a list"@))
                    }
                } else if name == "id"@ {
                    if call.id is Some {
                        Err(ErrorV::ConfigLanguage("repeated argument: id"@))
                    } else if ts.len() >= 3 && (ts[2] is Str) {
                        spec_args_after(ts.skip(3), CallArgsV { id: Some(ts[2]->Str_0), ..call })
                    } else {
                        Err(ErrorV::ConfigLanguage("id must be a string"@))
                    }
                } else {
                    Err(ErrorV::ConfigLanguage("unknown argument"@))
                }
            } else {
                Err(ErrorV::ConfigLanguage("expected '=' after an argument name"@))
            },
            _ => Err(ErrorV::ConfigLanguage("expected an argument name or a closing parenthesis"@)),
        }
    }
}

#[via_fn]
proof fn spec_args_decreases(ts: Seq<TokenV>, call: CallArgsV) {
    if ts.len() >= 3 {
        lemma_pattern_items_consumes(ts.skip(3));
        lemma_example_items_consumes(ts.skip(3));
    }
}

/// The remaining tokens shrink whenever `spec_args` succeeds.
pub open spec fn args_consumed(ts: Seq<TokenV>, call: CallArgsV) -> bool {
    match spec_args(ts, call) {
        Ok((c, rest)) => rest.len() < ts.len(),
        Err(_) => true,
    }
}

/// The remaining tokens shrink whenever `spec_args_after` succeeds.
pub open spec fn args_after_consumed(ts: Seq<TokenV>, call: CallArgsV) -> bool {
    match spec_args_after(ts, call) {
        Ok((c, rest)) => rest.len() < ts.len(),
        Err(_) => true,
    }
}

/// Reading a call's arguments consumes at least the closing parenthesis.
proof fn lemma_args_consumes(ts: Seq<TokenV>)
    ensures
        forall|call: CallArgsV| #[trigger] args_consumed(ts, call),
        forall|call: CallArgsV| #[trigger] args_after_consumed(ts, call),
    decreases ts.len(),
{
    if ts.len() > 0 {
        lemma_args_consumes(ts.drop_first());
        if ts.len() >= 3 {
            lemma_pattern_items_consumes(ts.skip(3));
            lemma_example_items_consumes(ts.skip(3));
            lemma_args_consumes(ts.skip(3));
            match spec_pattern_items(ts.skip(3)) {
                Ok((elems, rest)) => {
                    lemma_args_consumes(rest);
                },
                Err(_) => {},
            }
            match spec_example_items(ts.skip(3)) {
                Ok((items, rest)) => {
                    lemma_args_consumes(rest);
                },
                Err(_) => {},
            }
        }
        assert forall|call: CallArgsV| #[trigger] args_after_consumed(ts, call) by {
            if ts[0] is Comma {
                assert(args_consumed(ts.drop_first(), call));
            }
        }
        assert forall|call: CallArgsV| #[trigger] args_consumed(ts, call) by {
            if ts[0] is Ident && ts.len() >= 3 {
                match spec_pattern_items(ts.skip(3)) {
                    Ok((elems, rest)) => {
                        assert(args_after_consumed(
                            rest,
                            CallArgsV { pattern: Some(elems), ..call },
                        ));
                    },
                    Err(_) => {},
                }
                match spec_example_items(ts.skip(3)) {
                    Ok((items, rest)) => {
                        assert(args_after_consumed(
                            rest,
                            CallArgsV { pos_examples: Some(items), ..call },
                        ));
                        assert(args_after_consumed(
                            rest,
                            CallArgsV { neg_examples: Some(items), ..call },
                        ));
                    },
                    Err(_) => {},
                }
                if ts[2] is Str {
                    assert(args_after_consumed(
                        ts.skip(3),
                        CallArgsV { decision: Some(ts[2]->Str_0), ..call },
                    ));
                    assert(args_after_consumed(
                        ts.skip(3),
                        CallArgsV { id: Some(ts[2]->Str_0), ..call },
                    ));
                }
            }
        }
    }
}

/// Splice a tokenization result after already-read tokens.
pub open spec fn compose_tokens(acc: Seq<TokenV>, rest: Result<Seq<TokenV>, ErrorV>) -> Result<
    Seq<TokenV>,
    ErrorV,
> {
    match rest {
        Ok(ts) => Ok(acc + ts),
        Err(e) => Err(e),
    }
}

/// Reading one more token moves it from the pending side to the read side.
proof fn lemma_compose_cons(acc: Seq<TokenV>, t: TokenV, rest: Result<Seq<TokenV>, ErrorV>)
    ensures
        compose_tokens(acc, cons_token(t, rest)) == compose_tokens(acc.push(t), rest),
{
    match rest {
        Ok(ts) => {
            assert(acc + (seq![t] + ts) =~= acc.push(t) + ts);
        },
        Err(_) => {},
    }
}

/// One character step through the source.
proof fn lemma_skip_step(s: Seq<char>, pos: int)
    requires
        0 <= pos < s.len(),
    ensures
        s.skip(pos).len() == s.len() - pos,
        s.skip(pos)[0] == s[pos],
        s.skip(pos).drop_first() =~= s.skip(pos + 1),
{
}

/// Two characters at once, for escapes.
proof fn lemma_skip_two(s: Seq<char>, pos: int)
    requires
        0 <= pos,
        pos + 2 <= s.len(),
    ensures
        s.skip(pos).skip(2) =~= s.skip(pos + 2),
        s.skip(pos)[1] == s[pos + 1],
{
}

/// Whether a character is token whitespace.
fn space_char(c: char) -> (r: bool)
    ensures
        r == is_space(c),
{
    c == ' ' || c == '\t' || c == '\r' || c == '\n'
}

/// Whether a character can start an identifier.
fn ident_start_char(c: char) -> (r: bool)
    ensures
        r == is_ident_start(c),
{
    ('a' <= c && c <= 'z') || ('A' <= c && c <= 'Z') || c == '_'
}

/// Whether a character can continue an identifier.
fn ident_char(c: char) -> (r: bool)
    ensures
        r == is_ident_char(c),
{
    ident_start_char(c) || ('0' <= c && c <= '9')
}

/// Skip a comment body; the result is the position after the line.
fn scan_comment(src: &Vec<char>, start: usize) -> (r: usize)
    requires
        start <= src.len(),
    ensures
        start <= r <= src.len(),
        spec_comment(src@.skip(start as int)) == spec_tokenize(src@.skip(r as int)),
{
    let n = src.len();
    let mut pos = start;
    while pos < n && src[pos] != '\n'
        invariant
            n == src.len(),
            start <= pos <= n,
            spec_comment(src@.skip(start as int)) == spec_comment(src@.skip(pos as int)),
        decreases n - pos,
    {
        proof {
            lemma_skip_step(src@, pos as int);
        }
        pos += 1;
    }
    if pos < n {
        proof {
            lemma_skip_step(src@, pos as int);
        }
        pos + 1
    } else {
        proof {
            assert(src@.skip(pos as int) =~= Seq::<char>::empty());
        }
        pos
    }
}

/// Read a string literal body; `start` is the position after the opening
/// quote.  The result is the decoded characters and the position after the
/// closing quote.
fn scan_string(src: &Vec<char>, start: usize) -> (r: Result<(Vec<char>, usize), Error>)
    requires
        start <= src.len(),
    ensures
        match r {
            Ok((acc, end)) => start < end <= src.len() && spec_string(
                src@.skip(start as int),
                Seq::empty(),
            ) == cons_token(TokenV::Str(acc@), spec_tokenize(src@.skip(end as int))),
            Err(e) => (spec_string(src@.skip(start as int), Seq::empty()) matches Err(ev) && ev
                == e@),
        },
{
    let n = src.len();
    let mut pos = start;
    let mut acc: Vec<char> = Vec::new();
    while pos < n
        invariant
            n == src.len(),
            start <= pos <= n,
            spec_string(src@.skip(start as int), Seq::empty()) == spec_string(
                src@.skip(pos as int),
                acc@,
            ),
        decreases n - pos,
    {
        proof {
            lemma_skip_step(src@, pos as int);
        }
        let d = src[pos];
        if d == '"' {
            return Ok((acc, pos + 1));
        } else if d == '\\' {
            if pos + 1 >= n {
                proof {
                    assert(src@.skip(pos as int).len() == 1);
                }
                return Err(
                    Error::ConfigLanguage(
                        String::from_str("unterminated escape in string literal"),
                    ),
                );
            }
            let e = src[pos + 1];
            proof {
                lemma_skip_two(src@, pos as int);
            }
            let u: char = if e == '"' {
                '"'
            } else if e == '\\' {
                '\\'
            } else if e == 'n' {
                '\n'
            } else if e == 't' {
                '\t'
            } else if e == 'r' {
                '\r'
            } else {
                return Err(
                    Error::ConfigLanguage(String::from_str("unknown escape in string literal")),
                );
            };
            acc.push(u);
            pos += 2;
        } else {
            acc.push(d);
            pos += 1;
        }
    }
    proof {
        assert(src@.skip(pos as int) =~= Seq::<char>::empty());
    }
    Err(Error::ConfigLanguage(String::from_str("unterminated string literal")))
}

/// Read the rest of an identifier; `start` is the position after its first
/// character.  The result is the identifier's characters and the position
/// after it.
fn scan_ident(src: &Vec<char>, start: usize, first: char) -> (r: (Vec<char>, usize))
    requires
        start <= src.len(),
    ensures
        start <= r.1 <= src.len(),
        spec_ident(src@.skip(start as int), seq![first]) == cons_token(
            TokenV::Ident(r.0@),
            spec_tokenize(src@.skip(r.1 as int)),
        ),
{
    let n = src.len();
    let mut pos = start;
    let mut acc: Vec<char> = Vec::new();
    acc.push(first);
    proof {
        assert(acc@ =~= seq![first]);
    }
    while pos < n && ident_char(src[pos])
        invariant
            n == src.len(),
            start <= pos <= n,
            spec_ident(src@.skip(start as int), seq![first]) == spec_ident(
                src@.skip(pos as int),
                acc@,
            ),
        decreases n - pos,
    {
        proof {
            lemma_skip_step(src@, pos as int);
        }
        acc.push(src[pos]);
        pos += 1;
    }
    proof {
        if pos < n {
            lemma_skip_step(src@, pos as int);
            assert(!is_ident_char(src@.skip(pos as int)[0]));
        } else {
            assert(src@.skip(pos as int) =~= Seq::<char>::empty());
        }
    }
    (acc, pos)
}

/// Cut the script into tokens.
pub fn tokenize(src: &Vec<char>) -> (r: Result<Vec<Token>, Error>)
    ensures
        match r {
            Ok(tokens) => (spec_tokenize(src@) matches Ok(ts) && ts == tokens.deep_view()),
            Err(e) => (spec_tokenize(src@) matches Err(ev) && ev == e@),
        },
{
    let n = src.len();
    let mut out: Vec<Token> = Vec::new();
    let mut pos: usize = 0;
    proof {
        assert(src@.skip(0) =~= src@);
    }
    while pos < n
        invariant
            n == src.len(),
            pos <= n,
            spec_tokenize(src@) == compose_tokens(out.deep_view(), spec_tokenize(src@.skip(
                pos as int,
            ))),
        decreases n - pos,
    {
        let ghost outv = out.deep_view();
        let c = src[pos];
        proof {
            lemma_skip_step(src@, pos as int);
        }
        if space_char(c) {
            pos += 1;
        } else if c == '#' {
            pos = scan_comment(src, pos + 1);
        } else if c == '(' {
            out.push(Token::LParen);
            proof {
                lemma_compose_cons(outv, TokenV::LParen, spec_tokenize(src@.skip(pos + 1)));
                assert(out.deep_view() =~= outv.push(TokenV::LParen));
            }
            pos += 1;
        } else if c == ')' {
            out.push(Token::RParen);
            proof {
                lemma_compose_cons(outv, TokenV::RParen, spec_tokenize(src@.skip(pos + 1)));
                assert(out.deep_view() =~= outv.push(TokenV::RParen));
            }
            pos += 1;
        } else if c == '[' {
            out.push(Token::LBracket);
            proof {
                lemma_compose_cons(outv, TokenV::LBracket, spec_tokenize(src@.skip(pos + 1)));
                assert(out.deep_view() =~= outv.push(TokenV::LBracket));
            }
            pos += 1;
        } else if c == ']' {
            out.push(Token::RBracket);
            proof {
                lemma_compose_cons(outv, TokenV::RBracket, spec_tokenize(src@.skip(pos + 1)));
                assert(out.deep_view() =~= outv.push(TokenV::RBracket));
            }
            pos += 1;
        } else if c == ',' {
            out.push(Token::Comma);
            proof {
                lemma_compose_cons(outv, TokenV::Comma, spec_tokenize(src@.skip(pos + 1)));
                assert(out.deep_view() =~= outv.push(TokenV::Comma));
            }
            pos += 1;
        } else if c == '=' {
            out.push(Token::Equals);
            proof {
                lemma_compose_cons(outv, TokenV::Equals, spec_tokenize(src@.skip(pos + 1)));
                assert(out.deep_view() =~= outv.push(TokenV::Equals));
            }
            pos += 1;
        } else if c == '"' {
            let (chars, end) = match scan_string(src, pos + 1) {
                Ok(ok) => ok,
                Err(e) => {
                    return Err(e);
                },
            };
            let text = crate::strutil::string_from_chars(&chars);
            out.push(Token::Str(text));
            proof {
                lemma_compose_cons(outv, TokenV::Str(chars@), spec_tokenize(src@.skip(end as int)));
                assert(out.deep_view() =~= outv.push(TokenV::Str(chars@)));
            }
            pos = end;
        } else if ident_start_char(c) {
            let (chars, end) = scan_ident(src, pos + 1, c);
            let text = crate::strutil::string_from_chars(&chars);
            out.push(Token::Ident(text));
            proof {
                lemma_compose_cons(
                    outv,
                    TokenV::Ident(chars@),
                    spec_tokenize(src@.skip(end as int)),
                );
                assert(out.deep_view() =~= outv.push(TokenV::Ident(chars@)));
            }
            pos = end;
        } else {
            return Err(
                Error::ConfigLanguage(String::from_str("unexpected character in policy script")),
            );
        }
    }
    proof {
        assert(src@.skip(n as int) =~= Seq::<char>::empty());
        assert(out.deep_view() + Seq::<TokenV>::empty() =~= out.deep_view());
    }
    Ok(out)
}

/// The calls of a script: any number of `prefix_rule(...)` at the top
/// level, nothing else.
pub open spec fn spec_calls(ts: Seq<TokenV>) -> Result<Seq<CallArgsV>, ErrorV>
    decreases ts.len(),
    via spec_calls_decreases
{
    if ts.len() == 0 {
        Ok(Seq::empty())
    } else {
        match ts[0] {
            TokenV::Ident(name) => if name == "prefix_rule"@ {
                if ts.len() >= 2 && (ts[1] is LParen) {
                    match spec_args(ts.skip(2), empty_call()) {
                        Ok((call, rest)) => match spec_calls(rest) {
                            Ok(calls) => Ok(seq![call] + calls),
                            Err(e) => Err(e),
                        },
                        Err(e) => Err(e),
                    }
                } else {
                    Err(ErrorV::ConfigLanguage("expected a parenthesized argument list"@))
                }
            } else {
                Err(ErrorV::ConfigLanguage("unknown function"@))
            },
            _ => Err(ErrorV::ConfigLanguage("expected a function call"@)),
        }
    }
}

#[via_fn]
proof fn spec_calls_decreases(ts: Seq<TokenV>) {
    if ts.len() >= 2 {
        lemma_args_consumes(ts.skip(2));
        assert(args_consumed(ts.skip(2), empty_call()));
    }
}

/// The decision a call declares, `allow` when it declares none.
pub open spec fn spec_decision_of(call: CallArgsV) -> Result<Decision, ErrorV> {
    match call.decision {
        None => Ok(Decision::Allow),
        Some(raw) => match parse_decision_spec(raw) {
            Some(d) => Ok(d),
            None => Err(ErrorV::InvalidDecision(raw)),
        },
    }
}

/// The id a call's rules share: the declared one, else `rule_<n>` for the
/// call's position in the policy.
pub open spec fn spec_rule_id(call: CallArgsV, auto_index: nat) -> Seq<char> {
    match call.id {
        Some(id) => id,
        None => "rule_"@ + dec_str(auto_index),
    }
}

/// The examples a call declares, none by default.
pub open spec fn spec_examples_of(examples: Option<Seq<Seq<Seq<char>>>>) -> Seq<Seq<Seq<char>>> {
    match examples {
        Some(items) => items,
        None => Seq::empty(),
    }
}

/// First-token fan-out: one rule per alternative of the first position, all
/// sharing the id, the tail pattern and the decision.
pub open spec fn fan_out(
    heads: Seq<Seq<char>>,
    tail: Seq<PatternTokenV>,
    id: Seq<char>,
    decision: Decision,
) -> Seq<PrefixRuleV> {
    heads.map_values(
        |h: Seq<char>|
            PrefixRuleV { id: id, pattern: PrefixPatternV { first: h, rest: tail }, decision },
    )
}

/// Check each fanned-out rule against the call's examples, in fan-out
/// order; the first violation aborts the load.
pub open spec fn spec_validate_rules(
    rules: Seq<PrefixRuleV>,
    pos: Seq<Seq<Seq<char>>>,
    neg: Seq<Seq<Seq<char>>>,
) -> Option<ErrorV>
    decreases rules.len(),
{
    if rules.len() == 0 {
        None
    } else {
        match validate_spec(rules[0], pos, neg) {
            Some(e) => Some(e),
            None => spec_validate_rules(rules.drop_first(), pos, neg),
        }
    }
}

/// The rules one call contributes: a required non-empty pattern, a
/// parseable decision, first-token fan-out, and validated examples.
pub open spec fn spec_rules_of_call(call: CallArgsV, auto_index: nat) -> Result<
    Seq<PrefixRuleV>,
    ErrorV,
> {
    match call.pattern {
        None => Err(ErrorV::ConfigLanguage("prefix_rule requires a pattern"@)),
        Some(elems) => match spec_decision_of(call) {
            Err(e) => Err(e),
            Ok(decision) => if elems.len() == 0 {
                Err(ErrorV::InvalidPattern("pattern cannot be empty"@))
            } else {
                let id = spec_rule_id(call, auto_index);
                let rules = fan_out(token_alternatives(elems[0]), elems.drop_first(), id, decision);
                let pos = spec_examples_of(call.pos_examples);
                let neg = spec_examples_of(call.neg_examples);
                match spec_validate_rules(rules, pos, neg) {
                    Some(e) => Err(e),
                    None => Ok(rules),
                }
            },
        },
    }
}

/// The rules of a call sequence, in load order.  The auto-id counter
/// advances once per call.
pub open spec fn spec_interp_calls(calls: Seq<CallArgsV>, auto_index: nat) -> Result<
    Seq<PrefixRuleV>,
    ErrorV,
>
    decreases calls.len(),
{
    if calls.len() == 0 {
        Ok(Seq::empty())
    } else {
        match spec_rules_of_call(calls[0], auto_index) {
            Err(e) => Err(e),
            Ok(rules) => match spec_interp_calls(calls.drop_first(), auto_index + 1) {
                Ok(more) => Ok(rules + more),
                Err(e) => Err(e),
            },
        }
    }
}

/// What loading a policy source yields: the rules of its calls, in load
/// order, or the first error.
pub open spec fn spec_load(src: Seq<char>) -> Result<Seq<PrefixRuleV>, ErrorV> {
    match spec_tokenize(src) {
        Err(e) => Err(e),
        Ok(ts) => match spec_calls(ts) {
            Err(e) => Err(e),
            Ok(calls) => spec_interp_calls(calls, 0),
        },
    }
}

/// Skipping then indexing reads at the offset position.
proof fn lemma_skip_at<A>(s: Seq<A>, pos: int)
    requires
        0 <= pos <= s.len(),
    ensures
        s.skip(pos).len() == s.len() - pos,
        forall|i: int| 0 <= i < s.len() - pos ==> #[trigger] s.skip(pos)[i] == s[pos + i],
        pos < s.len() ==> s.skip(pos).drop_first() =~= s.skip(pos + 1),
{
    if pos < s.len() {
        assert(s.skip(pos).drop_first() =~= s.skip(pos + 1));
    }
}

/// Skipping twice skips the sum.
proof fn lemma_skip_plus<A>(s: Seq<A>, pos: int, k: int)
    requires
        0 <= pos,
        0 <= k,
        pos + k <= s.len(),
    ensures
        s.skip(pos).skip(k) =~= s.skip(pos + k),
{
}

/// The arguments one `prefix_rule` call carries, as parsed.
pub struct CallArgs {
    pub pattern: Option<Vec<PatternToken>>,
    pub decision: Option<String>,
    pub pos_examples: Option<Vec<Vec<String>>>,
    pub neg_examples: Option<Vec<Vec<String>>>,
    pub id: Option<String>,
}

impl View for CallArgs {
    type V = CallArgsV;

    open spec fn view(&self) -> CallArgsV {
        CallArgsV {
            pattern: match self.pattern {
                Some(ref elems) => Some(elems.deep_view()),
                None => None,
            },
            decision: match self.decision {
                Some(ref raw) => Some(raw@),
                None => None,
            },
            pos_examples: match self.pos_examples {
                Some(ref items) => Some(items.deep_view()),
                None => None,
            },
            neg_examples: match self.neg_examples {
                Some(ref items) => Some(items.deep_view()),
                None => None,
            },
            id: match self.id {
                Some(ref id) => Some(id@),
                None => None,
            },
        }
    }
}

impl DeepView for CallArgs {
    type V = CallArgsV;

    open spec fn deep_view(&self) -> CallArgsV {
        self.view()
    }
}

impl CallArgs {
    /// A call with no arguments named yet.
    fn empty() -> (r: CallArgs)
        ensures
            r@ == empty_call(),
    {
        CallArgs { pattern: None, decision: None, pos_examples: None, neg_examples: None, id: None }
    }
}

/// Read the strings of a pattern-alternatives list, after its `[`.
fn parse_alt_items(tokens: &Vec<Token>, pos: usize) -> (r: Result<(Vec<String>, usize), Error>)
    requires
        pos <= tokens.len(),
    ensures
        match r {
            Ok((items, end)) => pos < end <= tokens.len() && (spec_alt_items(
                tokens.deep_view().skip(pos as int),
            ) matches Ok(sr) && sr.0 == items.deep_view() && sr.1 == tokens.deep_view().skip(
                end as int,
            )),
            Err(e) => (spec_alt_items(tokens.deep_view().skip(pos as int)) matches Err(ev) && ev
                == e@),
        },
    decreases tokens.len() - pos,
{
    let ghost tv = tokens.deep_view();
    let ghost ts = tv.skip(pos as int);
    proof {
        lemma_skip_at(tv, pos as int);
    }
    if pos == tokens.len() {
        proof {
            assert(ts.len() == 0);
        }
        return Err(Error::ConfigLanguage(String::from_str("unterminated list")));
    }
    match &tokens[pos] {
        Token::RBracket => {
            let items: Vec<String> = Vec::new();
            proof {
                assert(items.deep_view() =~= Seq::<Seq<char>>::empty());
            }
            Ok((items, pos + 1))
        },
        Token::Str(s) => {
            if pos + 1 == tokens.len() {
                proof {
                    assert(ts.len() == 1);
                }
                return Err(Error::ConfigLanguage(String::from_str("unterminated list")));
            }
            match &tokens[pos + 1] {
                Token::Comma => {
                    proof {
                        lemma_skip_plus(tv, pos as int, 2);
                    }
                    match parse_alt_items(tokens, pos + 2) {
                        Ok((mut items, end)) => {
                            let ghost sub = items.deep_view();
                            items.insert(0, s.clone());
                            proof {
                                assert(items.deep_view() =~= seq![s@] + sub);
                            }
                            Ok((items, end))
                        },
                        Err(e) => Err(e),
                    }
                },
                Token::RBracket => {
                    proof {
                        lemma_skip_plus(tv, pos as int, 2);
                    }
                    let mut items: Vec<String> = Vec::new();
                    items.push(s.clone());
                    proof {
                        assert(items.deep_view() =~= seq![s@]);
                    }
                    Ok((items, pos + 2))
                },
                _ => Err(
                    Error::ConfigLanguage(
                        String::from_str("expected a comma or a closing bracket"),
                    ),
                ),
            }
        },
        Token::LBracket => Err(
            Error::InvalidPattern(String::from_str("pattern alternative must be a string")),
        ),
        _ => Err(
            Error::ConfigLanguage(
                String::from_str("expected a string in a pattern alternatives list"),
            ),
        ),
    }
}

/// Read the strings of one example's token list, after its `[`.
fn parse_example_tokens(tokens: &Vec<Token>, pos: usize) -> (r: Result<
    (Vec<String>, usize),
    Error,
>)
    requires
        pos <= tokens.len(),
    ensures
        match r {
            Ok((items, end)) => pos < end <= tokens.len() && (spec_example_tokens(
                tokens.deep_view().skip(pos as int),
            ) matches Ok(sr) && sr.0 == items.deep_view() && sr.1 == tokens.deep_view().skip(
                end as int,
            )),
            Err(e) => (spec_example_tokens(tokens.deep_view().skip(pos as int)) matches Err(ev)
                && ev == e@),
        },
    decreases tokens.len() - pos,
{
    let ghost tv = tokens.deep_view();
    let ghost ts = tv.skip(pos as int);
    proof {
        lemma_skip_at(tv, pos as int);
    }
    if pos == tokens.len() {
        proof {
            assert(ts.len() == 0);
        }
        return Err(Error::ConfigLanguage(String::from_str("unterminated list")));
    }
    match &tokens[pos] {
        Token::RBracket => {
            let items: Vec<String> = Vec::new();
            proof {
                assert(items.deep_view() =~= Seq::<Seq<char>>::empty());
            }
            Ok((items, pos + 1))
        },
        Token::Str(s) => {
            if pos + 1 == tokens.len() {
                proof {
                    assert(ts.len() == 1);
                }
                return Err(Error::ConfigLanguage(String::from_str("unterminated list")));
            }
            match &tokens[pos + 1] {
                Token::Comma => {
                    proof {
                        lemma_skip_plus(tv, pos as int, 2);
                    }
                    match parse_example_tokens(tokens, pos + 2) {
                        Ok((mut items, end)) => {
                            let ghost sub = items.deep_view();
                            items.insert(0, s.clone());
                            proof {
                                assert(items.deep_view() =~= seq![s@] + sub);
                            }
                            Ok((items, end))
                        },
                        Err(e) => Err(e),
                    }
                },
                Token::RBracket => {
                    proof {
                        lemma_skip_plus(tv, pos as int, 2);
                    }
                    let mut items: Vec<String> = Vec::new();
                    items.push(s.clone());
                    proof {
                        assert(items.deep_view() =~= seq![s@]);
                    }
                    Ok((items, pos + 2))
                },
                _ => Err(
                    Error::ConfigLanguage(
                        String::from_str("expected a comma or a closing bracket"),
                    ),
                ),
            }
        },
        Token::LBracket => Err(
            Error::InvalidExample(String::from_str("example tokens must be strings")),
        ),
        _ => Err(
            Error::ConfigLanguage(String::from_str("expected a string in an example list")),
        ),
    }
}

/// Read the elements of a `pattern` list, after its `[`.
fn parse_pattern_items(tokens: &Vec<Token>, pos: usize) -> (r: Result<
    (Vec<PatternToken>, usize),
    Error,
>)
    requires
        pos <= tokens.len(),
    ensures
        match r {
            Ok((items, end)) => pos < end <= tokens.len() && (spec_pattern_items(
                tokens.deep_view().skip(pos as int),
            ) matches Ok(sr) && sr.0 == items.deep_view() && sr.1 == tokens.deep_view().skip(
                end as int,
            )),
            Err(e) => (spec_pattern_items(tokens.deep_view().skip(pos as int)) matches Err(ev)
                && ev == e@),
        },
    decreases tokens.len() - pos,
{
    let ghost tv = tokens.deep_view();
    let ghost ts = tv.skip(pos as int);
    proof {
        lemma_skip_at(tv, pos as int);
    }
    if pos == tokens.len() {
        proof {
            assert(ts.len() == 0);
        }
        return Err(Error::ConfigLanguage(String::from_str("unterminated list")));
    }
    match &tokens[pos] {
        Token::RBracket => {
            let items: Vec<PatternToken> = Vec::new();
            proof {
                assert(items.deep_view() =~= Seq::<PatternTokenV>::empty());
            }
            Ok((items, pos + 1))
        },
        Token::Str(s) => {
            if pos + 1 == tokens.len() {
                proof {
                    assert(ts.len() == 1);
                }
                return Err(Error::ConfigLanguage(String::from_str("unterminated list")));
            }
            let elem = PatternToken::Single(s.clone());
            match &tokens[pos + 1] {
                Token::Comma => {
                    proof {
                        lemma_skip_plus(tv, pos as int, 2);
                    }
                    match parse_pattern_items(tokens, pos + 2) {
                        Ok((mut items, end)) => {
                            let ghost sub = items.deep_view();
                            items.insert(0, elem);
                            proof {
                                assert(items.deep_view() =~= seq![PatternTokenV::Single(s@)]
                                    + sub);
                            }
                            Ok((items, end))
                        },
                        Err(e) => Err(e),
                    }
                },
                Token::RBracket => {
                    proof {
                        lemma_skip_plus(tv, pos as int, 2);
                    }
                    let mut items: Vec<PatternToken> = Vec::new();
                    items.push(elem);
                    proof {
                        assert(items.deep_view() =~= seq![PatternTokenV::Single(s@)]);
                    }
                    Ok((items, pos + 2))
                },
                _ => Err(
                    Error::ConfigLanguage(
                        String::from_str("expected a comma or a closing bracket"),
                    ),
                ),
            }
        },
        Token::LBracket => {
            let (mut alts, after_alts) = match parse_alt_items(tokens, pos + 1) {
                Ok(ok) => ok,
                Err(e) => {
                    return Err(e);
                },
            };
            if alts.len() == 0 {
                return Err(
                    Error::InvalidPattern(
                        String::from_str("pattern alternatives cannot be empty"),
                    ),
                );
            }
            let elem = if alts.len() == 1 {
                match alts.pop() {
                    Some(only) => PatternToken::Single(only),
                    None => {
                        return Err(
                            Error::InvalidPattern(
                                String::from_str("pattern alternatives cannot be empty"),
                            ),
                        );
                    },
                }
            } else {
                PatternToken::Alts(alts)
            };
            if after_alts == tokens.len() {
                proof {
                    assert(tv.skip(after_alts as int).len() == 0);
                }
                return Err(Error::ConfigLanguage(String::from_str("unterminated list")));
            }
            proof {
                lemma_skip_at(tv, after_alts as int);
            }
            match &tokens[after_alts] {
                Token::Comma => {
                    match parse_pattern_items(tokens, after_alts + 1) {
                        Ok((mut items, end)) => {
                            let ghost sub = items.deep_view();
                            let ghost ev = elem@;
                            items.insert(0, elem);
                            proof {
                                assert(items.deep_view() =~= seq![ev] + sub);
                            }
                            Ok((items, end))
                        },
                        Err(e) => Err(e),
                    }
                },
                Token::RBracket => {
                    let ghost ev = elem@;
                    let mut items: Vec<PatternToken> = Vec::new();
                    items.push(elem);
                    proof {
                        assert(items.deep_view() =~= seq![ev]);
                    }
                    Ok((items, after_alts + 1))
                },
                _ => Err(
                    Error::ConfigLanguage(
                        String::from_str("expected a comma or a closing bracket"),
                    ),
                ),
            }
        },
        _ => Err(
            Error::InvalidPattern(
                String::from_str("pattern element must be a string or list of strings"),
            ),
        ),
    }
}

/// Read the elements of a `match` or `not_match` list, after its `[`.
fn parse_example_items(tokens: &Vec<Token>, pos: usize) -> (r: Result<
    (Vec<Vec<String>>, usize),
    Error,
>)
    requires
        pos <= tokens.len(),
    ensures
        match r {
            Ok((items, end)) => pos < end <= tokens.len() && (spec_example_items(
                tokens.deep_view().skip(pos as int),
            ) matches Ok(sr) && sr.0 == items.deep_view() && sr.1 == tokens.deep_view().skip(
                end as int,
            )),
            Err(e) => (spec_example_items(tokens.deep_view().skip(pos as int)) matches Err(ev)
                && ev == e@),
        },
    decreases tokens.len() - pos,
{
    let ghost tv = tokens.deep_view();
    let ghost ts = tv.skip(pos as int);
    proof {
        lemma_skip_at(tv, pos as int);
    }
    if pos == tokens.len() {
        proof {
            assert(ts.len() == 0);
        }
        return Err(Error::ConfigLanguage(String::from_str("unterminated list")));
    }
    match &tokens[pos] {
        Token::RBracket => {
            let items: Vec<Vec<String>> = Vec::new();
            proof {
                assert(items.deep_view() =~= Seq::<Seq<Seq<char>>>::empty());
            }
            Ok((items, pos + 1))
        },
        Token::LBracket => {
            let (example, after_ex) = match parse_example_tokens(tokens, pos + 1) {
                Ok(ok) => ok,
                Err(e) => {
                    return Err(e);
                },
            };
            if example.len() == 0 {
                return Err(
                    Error::InvalidExample(String::from_str("example cannot be an empty list")),
                );
            }
            if after_ex == tokens.len() {
                proof {
                    assert(tv.skip(after_ex as int).len() == 0);
                }
                return Err(Error::ConfigLanguage(String::from_str("unterminated list")));
            }
            proof {
                lemma_skip_at(tv, after_ex as int);
            }
            match &tokens[after_ex] {
                Token::Comma => {
                    match parse_example_items(tokens, after_ex + 1) {
                        Ok((mut items, end)) => {
                            let ghost sub = items.deep_view();
                            let ghost ev = example.deep_view();
                            items.insert(0, example);
                            proof {
                                assert(items.deep_view() =~= seq![ev] + sub);
                            }
                            Ok((items, end))
                        },
                        Err(e) => Err(e),
                    }
                },
                Token::RBracket => {
                    let ghost ev = example.deep_view();
                    let mut items: Vec<Vec<String>> = Vec::new();
                    items.push(example);
                    proof {
                        assert(items.deep_view() =~= seq![ev]);
                    }
                    Ok((items, after_ex + 1))
                },
                _ => Err(
                    Error::ConfigLanguage(
                        String::from_str("expected a comma or a closing bracket"),
                    ),
                ),
            }
        },
        Token::Str(_) => Err(
            Error::InvalidExample(String::from_str("example must be a list of strings")),
        ),
        _ => Err(
            Error::ConfigLanguage(String::from_str("expected a list in an examples list")),
        ),
    }
}

/// After one argument's value: expect a comma or the closing parenthesis.
fn parse_args_after(tokens: &Vec<Token>, pos: usize, call: CallArgs) -> (r: Result<
    (CallArgs, usize),
    Error,
>)
    requires
        pos <= tokens.len(),
    ensures
        match r {
            Ok((c, end)) => pos < end <= tokens.len() && (spec_args_after(
                tokens.deep_view().skip(pos as int),
                call@,
            ) matches Ok(sr) && sr.0 == c@ && sr.1 == tokens.deep_view().skip(end as int)),
            Err(e) => (spec_args_after(tokens.deep_view().skip(pos as int), call@) matches Err(ev)
                && ev == e@),
        },
    decreases tokens.len() - pos, 0int,
{
    let ghost tv = tokens.deep_view();
    let ghost ts = tv.skip(pos as int);
    proof {
        lemma_skip_at(tv, pos as int);
    }
    if pos == tokens.len() {
        proof {
            assert(ts.len() == 0);
        }
        return Err(Error::ConfigLanguage(String::from_str("unterminated call")));
    }
    match &tokens[pos] {
        Token::Comma => parse_args(tokens, pos + 1, call),
        Token::RParen => Ok((call, pos + 1)),
        _ => Err(
            Error::ConfigLanguage(String::from_str("expected a comma or a closing parenthesis")),
        ),
    }
}

/// Read the named arguments of a call, after its `(`.
fn parse_args(tokens: &Vec<Token>, pos: usize, call: CallArgs) -> (r: Result<
    (CallArgs, usize),
    Error,
>)
    requires
        pos <= tokens.len(),
    ensures
        match r {
            Ok((c, end)) => pos < end <= tokens.len() && (spec_args(
                tokens.deep_view().skip(pos as int),
                call@,
            ) matches Ok(sr) && sr.0 == c@ && sr.1 == tokens.deep_view().skip(end as int)),
            Err(e) => (spec_args(tokens.deep_view().skip(pos as int), call@) matches Err(ev) && ev
                == e@),
        },
    decreases tokens.len() - pos, 1int,
{
    let ghost tv = tokens.deep_view();
    let ghost ts = tv.skip(pos as int);
    proof {
        lemma_skip_at(tv, pos as int);
    }
    if pos == tokens.len() {
        proof {
            assert(ts.len() == 0);
        }
        return Err(Error::ConfigLanguage(String::from_str("unterminated call")));
    }
    match &tokens[pos] {
        Token::RParen => Ok((call, pos + 1)),
        Token::Ident(name) => {
            if pos + 1 == tokens.len() {
                proof {
                    assert(ts.len() == 1);
                }
                return Err(
                    Error::ConfigLanguage(String::from_str("expected '=' after an argument name")),
                );
            }
            let eq_next = match &tokens[pos + 1] {
                Token::Equals => true,
                _ => false,
            };
            if !eq_next {
                return Err(
                    Error::ConfigLanguage(String::from_str("expected '=' after an argument name")),
                );
            }
            if crate::strutil::str_eq(name.as_str(), "pattern") {
                if call.pattern.is_some() {
                    return Err(
                        Error::ConfigLanguage(String::from_str("repeated argument: pattern")),
                    );
                }
                let shape_ok = pos + 2 < tokens.len() && match &tokens[pos + 2] {
                    Token::LBracket => true,
                    _ => false,
                };
                if !shape_ok {
                    return Err(Error::ConfigLanguage(String::from_str("pattern must be a list")));
                }
                proof {
                    lemma_skip_plus(tv, pos as int, 3);
                }
                match parse_pattern_items(tokens, pos + 3) {
                    Ok((elems, end)) => {
                        let updated = CallArgs { pattern: Some(elems), ..call };
                        parse_args_after(tokens, end, updated)
                    },
                    Err(e) => Err(e),
                }
            } else if crate::strutil::str_eq(name.as_str(), "decision") {
                if call.decision.is_some() {
                    return Err(
                        Error::ConfigLanguage(String::from_str("repeated argument: decision")),
                    );
                }
                if pos + 2 < tokens.len() {
                    let raw = match &tokens[pos + 2] {
                        Token::Str(raw) => raw.clone(),
                        _ => {
                            return Err(
                                Error::ConfigLanguage(
                                    String::from_str("decision must be a string"),
                                ),
                            );
                        },
                    };
                    proof {
                        lemma_skip_plus(tv, pos as int, 3);
                    }
                    let updated = CallArgs { decision: Some(raw), ..call };
                    parse_args_after(tokens, pos + 3, updated)
                } else {
                    Err(Error::ConfigLanguage(String::from_str("decision must be a string")))
                }
            } else if crate::strutil::str_eq(name.as_str(), "match") {
                if call.pos_examples.is_some() {
                    return Err(
                        Error::ConfigLanguage(String::from_str("repeated argument: match")),
                    );
                }
                let shape_ok = pos + 2 < tokens.len() && match &tokens[pos + 2] {
                    Token::LBracket => true,
                    _ => false,
                };
                if !shape_ok {
                    return Err(Error::ConfigLanguage(String::from_str("match must be a list")));
                }
                proof {
                    lemma_skip_plus(tv, pos as int, 3);
                }
                match parse_example_items(tokens, pos + 3) {
                    Ok((items, end)) => {
                        let updated = CallArgs { pos_examples: Some(items), ..call };
                        parse_args_after(tokens, end, updated)
                    },
                    Err(e) => Err(e),
                }
            } else if crate::strutil::str_eq(name.as_str(), "not_match") {
                if call.neg_examples.is_some() {
                    return Err(
                        Error::ConfigLanguage(String::from_str("repeated argument: not_match")),
                    );
                }
                let shape_ok = pos + 2 < tokens.len() && match &tokens[pos + 2] {
                    Token::LBracket => true,
                    _ => false,
                };
                if !shape_ok {
                    return Err(
                        Error::ConfigLanguage(String::from_str("not_match must be a list")),
                    );
                }
                proof {
                    lemma_skip_plus(tv, pos as int, 3);
                }
                match parse_example_items(tokens, pos + 3) {
                    Ok((items, end)) => {
                        let updated = CallArgs { neg_examples: Some(items), ..call };
                        parse_args_after(tokens, end, updated)
                    },
                    Err(e) => Err(e),
                }
            } else if crate::strutil::str_eq(name.as_str(), "id") {
                if call.id.is_some() {
                    return Err(Error::ConfigLanguage(String::from_str("repeated argument: id")));
                }
                if pos + 2 < tokens.len() {
                    let raw = match &tokens[pos + 2] {
                        Token::Str(raw) => raw.clone(),
                        _ => {
                            return Err(
                                Error::ConfigLanguage(String::from_str("id must be a string")),
                            );
                        },
                    };
                    proof {
                        lemma_skip_plus(tv, pos as int, 3);
                    }
                    let updated = CallArgs { id: Some(raw), ..call };
                    parse_args_after(tokens, pos + 3, updated)
                } else {
                    Err(Error::ConfigLanguage(String::from_str("id must be a string")))
                }
            } else {
                Err(Error::ConfigLanguage(String::from_str("unknown argument")))
            }
        },
        _ => Err(
            Error::ConfigLanguage(
                String::from_str("expected an argument name or a closing parenthesis"),
            ),
        ),
    }
}

/// Read the calls of a script.
fn parse_calls(tokens: &Vec<Token>, pos: usize) -> (r: Result<Vec<CallArgs>, Error>)
    requires
        pos <= tokens.len(),
    ensures
        match r {
            Ok(calls) => (spec_calls(tokens.deep_view().skip(pos as int)) matches Ok(sc) && sc
                == calls.deep_view()),
            Err(e) => (spec_calls(tokens.deep_view().skip(pos as int)) matches Err(ev) && ev
                == e@),
        },
    decreases tokens.len() - pos,
{
    let ghost tv = tokens.deep_view();
    let ghost ts = tv.skip(pos as int);
    proof {
        lemma_skip_at(tv, pos as int);
    }
    if pos == tokens.len() {
        proof {
            assert(ts.len() == 0);
        }
        let calls: Vec<CallArgs> = Vec::new();
        proof {
            assert(calls.deep_view() =~= Seq::<CallArgsV>::empty());
        }
        return Ok(calls);
    }
    match &tokens[pos] {
        Token::Ident(name) => {
            if !crate::strutil::str_eq(name.as_str(), "prefix_rule") {
                return Err(Error::ConfigLanguage(String::from_str("unknown function")));
            }
            let shape_ok = pos + 1 < tokens.len() && match &tokens[pos + 1] {
                Token::LParen => true,
                _ => false,
            };
            if !shape_ok {
                return Err(
                    Error::ConfigLanguage(
                        String::from_str("expected a parenthesized argument list"),
                    ),
                );
            }
            proof {
                lemma_skip_plus(tv, pos as int, 2);
            }
            match parse_args(tokens, pos + 2, CallArgs::empty()) {
                Ok((one, end)) => match parse_calls(tokens, end) {
                    Ok(mut calls) => {
                        let ghost sub = calls.deep_view();
                        let ghost onev = one@;
                        calls.insert(0, one);
                        proof {
                            assert(calls.deep_view() =~= seq![onev] + sub);
                        }
                        Ok(calls)
                    },
                    Err(e) => Err(e),
                },
                Err(e) => Err(e),
            }
        },
        _ => Err(Error::ConfigLanguage(String::from_str("expected a function call"))),
    }
}

/// Splice an interpretation result after already-gathered rules.
pub open spec fn compose_rules(
    acc: Seq<PrefixRuleV>,
    rest: Result<Seq<PrefixRuleV>, ErrorV>,
) -> Result<Seq<PrefixRuleV>, ErrorV> {
    match rest {
        Ok(more) => Ok(acc + more),
        Err(e) => Err(e),
    }
}

/// Interpret one call: default the decision and the id, fan out the first
/// position, and validate the examples against each fanned-out rule.
fn rules_of_call(call: CallArgs, auto_index: usize) -> (r: Result<Vec<Rule>, Error>)
    ensures
        match r {
            Ok(rules) => (spec_rules_of_call(call@, auto_index as nat) matches Ok(sr) && sr
                == rules.deep_view()),
            Err(e) => (spec_rules_of_call(call@, auto_index as nat) matches Err(ev) && ev == e@),
        },
{
    let ghost cv = call@;
    let CallArgs { pattern, decision, pos_examples, neg_examples, id } = call;
    let pattern_elems = match pattern {
        Some(elems) => elems,
        None => {
            return Err(Error::ConfigLanguage(String::from_str("prefix_rule requires a pattern")));
        },
    };
    let decision = match decision {
        Some(raw) => match Decision::parse(raw.as_str()) {
            Ok(d) => d,
            Err(e) => {
                return Err(e);
            },
        },
        None => Decision::Allow,
    };
    if pattern_elems.len() == 0 {
        return Err(Error::InvalidPattern(String::from_str("pattern cannot be empty")));
    }
    let id: String = match id {
        Some(user) => user,
        None => String::from_str("rule_").concat(
            crate::strutil::usize_to_string(auto_index).as_str(),
        ),
    };
    proof {
        assert(id@ == spec_rule_id(cv, auto_index as nat));
    }
    let heads = pattern_elems[0].alternatives();
    let mut elems = pattern_elems;
    let tail = elems.split_off(1);
    let ghost elems_dv = cv.pattern->Some_0;
    proof {
        assert(tail.deep_view() =~= elems_dv.drop_first());
    }
    let ghost tail_dv = tail.deep_view();
    let ghost heads_dv = heads.deep_view();
    let ghost goal = fan_out(heads_dv, tail_dv, id@, decision);
    let mut rules: Vec<Rule> = Vec::new();
    let n = heads.len();
    let mut k: usize = 0;
    while k < n
        invariant
            n == heads.len(),
            k <= n,
            heads_dv == heads.deep_view(),
            tail_dv == tail.deep_view(),
            id@ == spec_rule_id(cv, auto_index as nat),
            goal == fan_out(heads_dv, tail_dv, id@, decision),
            goal.len() == n,
            rules.deep_view() =~= goal.take(k as int),
        decreases n - k,
    {
        let ghost pre = rules.deep_view();
        let pat = PrefixPattern { first: heads[k].clone(), rest: crate::rule::clone_tokens(&tail) };
        let rule = Rule::Prefix(PrefixRule { id: id.clone(), pattern: pat, decision });
        proof {
            assert(rule@ == goal[k as int]);
        }
        rules.push(rule);
        k += 1;
        proof {
            assert(rules.deep_view() =~= pre.push(goal[k - 1]));
            assert(rules.deep_view() =~= goal.take(k as int));
        }
    }
    proof {
        assert(goal.take(n as int) =~= goal);
    }
    let pos_v: Vec<Vec<String>> = match pos_examples {
        Some(v) => v,
        None => Vec::new(),
    };
    let neg_v: Vec<Vec<String>> = match neg_examples {
        Some(v) => v,
        None => Vec::new(),
    };
    proof {
        assert(pos_v.deep_view() =~= spec_examples_of(cv.pos_examples));
        assert(neg_v.deep_view() =~= spec_examples_of(cv.neg_examples));
    }
    let ghost posd = pos_v.deep_view();
    let ghost negd = neg_v.deep_view();
    let total = rules.len();
    let mut t: usize = 0;
    proof {
        assert(goal.skip(0) =~= goal);
    }
    proof {
        assert(spec_rules_of_call(cv, auto_index as nat) == (
        match spec_validate_rules(goal, posd, negd) {
            Some(e) => Err::<Seq<PrefixRuleV>, ErrorV>(e),
            None => Ok::<Seq<PrefixRuleV>, ErrorV>(goal),
        }));
    }
    #[verifier::loop_isolation(false)]
    while t < total
        invariant
            total == rules.len(),
            t <= total,
            rules.deep_view() == goal,
            goal.len() == total,
            posd == pos_v.deep_view(),
            negd == neg_v.deep_view(),
            spec_validate_rules(goal, posd, negd) == spec_validate_rules(
                goal.skip(t as int),
                posd,
                negd,
            ),
            spec_rules_of_call(cv, auto_index as nat) == (
            match spec_validate_rules(goal, posd, negd) {
                Some(e) => Err::<Seq<PrefixRuleV>, ErrorV>(e),
                None => Ok::<Seq<PrefixRuleV>, ErrorV>(goal),
            }),
        decreases total - t,
    {
        proof {
            lemma_skip_at(goal, t as int);
            assert(goal.skip(t as int)[0] == goal[t as int]);
        }
        proof {
            assert(rules[t as int]@ == goal[t as int]);
        }
        match rules[t].validate_examples(pos_v.as_slice(), neg_v.as_slice()) {
            Ok(_) => {},
            Err(e) => {
                proof {
                    assert(spec_validate_rules(goal.skip(t as int), posd, negd) == Some(e@));
                }
                return Err(e);
            },
        }
        t += 1;
    }
    proof {
        assert(goal.skip(total as int) =~= Seq::<PrefixRuleV>::empty());
    }
    Ok(rules)
}

/// Interpret a call sequence into rules, in load order; the auto-id
/// counter advances once per call.
fn interp_calls(calls: Vec<CallArgs>) -> (r: Result<Vec<Rule>, Error>)
    ensures
        match r {
            Ok(rules) => (spec_interp_calls(calls.deep_view(), 0) matches Ok(sr) && sr
                == rules.deep_view()),
            Err(e) => (spec_interp_calls(calls.deep_view(), 0) matches Err(ev) && ev == e@),
        },
{
    let ghost full = calls.deep_view();
    let mut remaining = calls;
    let ghost n_calls = remaining.len();
    proof {
        assert(full.len() == n_calls <= usize::MAX);
    }
    let mut rules: Vec<Rule> = Vec::new();
    let mut idx: usize = 0;
    proof {
        assert(full.skip(0) =~= full);
    }
    #[verifier::loop_isolation(false)]
    while remaining.len() > 0
        invariant
            idx + remaining.len() == full.len(),
            remaining.deep_view() == full.skip(idx as int),
            spec_interp_calls(full, 0) == compose_rules(
                rules.deep_view(),
                spec_interp_calls(full.skip(idx as int), idx as nat),
            ),
        decreases remaining.len(),
    {
        let ghost pre_rem = remaining.deep_view();
        let ghost pre_rules = rules.deep_view();
        let call = remaining.remove(0);
        proof {
            lemma_skip_at(full, idx as int);
            assert(call@ == full[idx as int]);
            assert(remaining.deep_view() =~= pre_rem.drop_first());
            assert(remaining.deep_view() =~= full.skip(idx + 1));
        }
        match rules_of_call(call, idx) {
            Ok(mut new_rules) => {
                let ghost added = new_rules.deep_view();
                rules.append(&mut new_rules);
                idx += 1;
                proof {
                    assert(rules.deep_view() =~= pre_rules + added);
                    match spec_interp_calls(full.skip(idx as int), idx as nat) {
                        Ok(more) => {
                            assert(pre_rules + (added + more) =~= (pre_rules + added) + more);
                        },
                        Err(_) => {},
                    }
                }
            },
            Err(e) => {
                proof {
                    assert(spec_interp_calls(full.skip(idx as int), idx as nat) == Err::<
                        Seq<PrefixRuleV>,
                        ErrorV,
                    >(e@));
                }
                return Err(e);
            },
        }
    }
    proof {
        assert(full.skip(idx as int) =~= Seq::<CallArgsV>::empty());
        assert(rules.deep_view() + Seq::<PrefixRuleV>::empty() =~= rules.deep_view());
    }
    Ok(rules)
}

/// Loads a policy from its source text, evaluated in the sandboxed
/// configuration language.  The display name is kept for reporting.
pub struct PolicyParser {
    policy_source: String,
    unparsed_policy: String,
}

impl PolicyParser {
    /// The display name the parser was given.
    pub closed spec fn spec_source_name(&self) -> Seq<char> {
        self.policy_source@
    }

    /// The policy text the parser will load.
    pub closed spec fn spec_text(&self) -> Seq<char> {
        self.unparsed_policy@
    }

    /// Remember a policy source: a display name for error reporting and the
    /// policy text itself.
    pub fn new(policy_source: &str, unparsed_policy: &str) -> (r: PolicyParser)
        ensures
            r.spec_source_name() == policy_source@,
            r.spec_text() == unparsed_policy@,
    {
        PolicyParser {
            policy_source: String::from_str(policy_source),
            unparsed_policy: String::from_str(unparsed_policy),
        }
    }

    /// The display name, for error reporting.
    pub fn source(&self) -> (r: &str)
        ensures
            r@ == self.spec_source_name(),
    {
        self.policy_source.as_str()
    }

    /// Load the policy: tokenize and parse the text, interpret every
    /// `prefix_rule` call, and finalize the rules into a policy.  The
    /// policy's model is exactly what `spec_load` yields on the text.
    pub fn parse(&self) -> (r: Result<Policy, Error>)
        ensures
            match r {
                Ok(p) => (spec_load(self.spec_text()) matches Ok(rules) && p@ == rules),
                Err(e) => (spec_load(self.spec_text()) matches Err(ev) && ev == e@),
            },
    {
        let chars = crate::strutil::chars_of(self.unparsed_policy.as_str());
        let tokens = match tokenize(&chars) {
            Ok(tokens) => tokens,
            Err(e) => {
                return Err(e);
            },
        };
        proof {
            assert(tokens.deep_view().skip(0) =~= tokens.deep_view());
        }
        let calls = match parse_calls(&tokens, 0) {
            Ok(calls) => calls,
            Err(e) => {
                return Err(e);
            },
        };
        let rules = match interp_calls(calls) {
            Ok(rules) => rules,
            Err(e) => {
                return Err(e);
            },
        };
        Ok(Policy::new(rules))
    }
}

} // verus!
