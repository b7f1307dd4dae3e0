//! What parsing means: the tree that a grammar gives to a sequence of
//! tokens, as functions on sequences.
//!
//! A token stream is the sequence of its tokens without the end-of-input
//! marker; reading past its end gives the marker and leaves it empty.
use crate::error::ParseError;
use crate::expression::Tree;
use crate::parselets::InfixParselet;
use crate::parselets::Precedence;
use crate::parselets::PrefixParselet;
use crate::token::Lexeme;
use crate::token::TokenType;
use vstd::prelude::*;

verus! {

/// The parselets on file: for each kind of token at most one for the start
/// of an expression and at most one for the place after an expression.
pub struct Grammar {
    pub prefix: Map<TokenType, PrefixParselet>,
    pub infix: Map<TokenType, InfixParselet>,
}

impl Grammar {
    /// The grammar with nothing on file.
    pub open spec fn empty() -> Grammar {
        Grammar { prefix: Map::empty(), infix: Map::empty() }
    }

    /// Nothing is filed under the end-of-input marker, so that no parselet
    /// runs once the input is used up.
    pub open spec fn eof_terminal(self) -> bool {
        !self.prefix.contains_key(TokenType::Eof) && !self.infix.contains_key(TokenType::Eof)
    }

    /// The grammar with `parselet` filed under `kind` for the start of an
    /// expression, in place of what was there.
    pub open spec fn with_prefix(self, kind: TokenType, parselet: PrefixParselet) -> Grammar {
        Grammar { prefix: self.prefix.insert(kind, parselet), infix: self.infix }
    }

    /// The grammar with `parselet` filed under `kind` for the place after an
    /// expression, in place of what was there.
    pub open spec fn with_infix(self, kind: TokenType, parselet: InfixParselet) -> Grammar {
        Grammar { prefix: self.prefix, infix: self.infix.insert(kind, parselet) }
    }

    /// Every kind that has an operator parselet on file has a punctuator, so
    /// that the trees of this grammar can be rendered.
    pub open spec fn punctuated(self) -> bool {
        &&& forall|k: TokenType|
            #![trigger self.prefix.contains_key(k)]
            self.prefix.contains_key(k) && self.prefix[k] is UnaryPrefix
                ==> k.spec_punctuator() is Some
        &&& forall|k: TokenType|
            #![trigger self.infix.contains_key(k)]
            self.infix.contains_key(k) && (self.infix[k] is Binary || self.infix[k] is UnaryPostfix)
                ==> k.spec_punctuator() is Some
    }

    /// How tightly a token of kind `kind` binds to the expression before
    /// it: the precedence of its infix parselet, or 0 where it has none.
    pub open spec fn binding(self, kind: TokenType) -> u8 {
        if self.infix.contains_key(kind) {
            self.infix[kind].spec_precedence()
        } else {
            0
        }
    }
}

/// The token at distance `n` in the stream: the marker past the end.
pub open spec fn token_at(toks: Seq<Lexeme>, n: int) -> Lexeme {
    if 0 <= n < toks.len() {
        toks[n]
    } else {
        Lexeme::eof()
    }
}

/// The upcoming token.
pub open spec fn first(toks: Seq<Lexeme>) -> Lexeme {
    token_at(toks, 0)
}

/// The stream after one token has been taken from it.
pub open spec fn advance(toks: Seq<Lexeme>) -> Seq<Lexeme> {
    if toks.len() > 0 {
        toks.drop_first()
    } else {
        toks
    }
}

/// A tree and the tokens left after it, or the failure.
pub type Parsed = Result<(Tree, Seq<Lexeme>), ParseError>;

/// The success that gives `tree` and leaves `rest`.
pub open spec fn parsed(tree: Tree, rest: Seq<Lexeme>) -> Parsed {
    Ok((tree, rest))
}

/// The failure `e`.
pub open spec fn failed(e: ParseError) -> Parsed {
    Err(e)
}

/// A list of trees and the tokens left after it, or the failure.
pub type ParsedList = Result<(Seq<Tree>, Seq<Lexeme>), ParseError>;

/// Taking a token that must be of kind `kind`.
pub open spec fn expect(toks: Seq<Lexeme>, kind: TokenType) -> Result<Seq<Lexeme>, ParseError> {
    if first(toks).typ == kind {
        Ok(advance(toks))
    } else {
        Err(ParseError::UnexpectedToken { expected: kind, found: first(toks).typ })
    }
}

/// The expression at the front of `toks`, read with the floor `floor`: a
/// prefix parselet reads the first token and what belongs to it, and then
/// infix parselets extend the result for as long as the upcoming token binds
/// more tightly than `floor`.
pub open spec fn parse_prec(g: Grammar, toks: Seq<Lexeme>, floor: nat) -> Parsed
    decreases toks.len(), 0int,
{
    if toks.len() == 0 || !g.prefix.contains_key(toks[0].typ) {
        Err(ParseError::UnparsableToken { found: first(toks).typ })
    } else {
        match parse_prefix(g, g.prefix[toks[0].typ], toks[0], toks.drop_first()) {
            Err(e) => Err(e),
            Ok((left, rest)) => if rest.len() < toks.len() {
                parse_loop(g, left, rest, floor)
            } else {
                arbitrary()
            },
        }
    }
}

/// The extension of `left` by the infix parselets of the upcoming tokens,
/// one after the other, until a token comes that binds no more tightly than
/// `floor`.
pub open spec fn parse_loop(g: Grammar, left: Tree, toks: Seq<Lexeme>, floor: nat) -> Parsed
    decreases toks.len(), 0int,
{
    if toks.len() > 0 && g.binding(toks[0].typ) > floor {
        match parse_infix(g, g.infix[toks[0].typ], left, toks[0], toks.drop_first()) {
            Err(e) => Err(e),
            Ok((next, rest)) => if rest.len() < toks.len() {
                parse_loop(g, next, rest, floor)
            } else {
                arbitrary()
            },
        }
    } else {
        Ok((left, toks))
    }
}

/// What the prefix parselet `p` makes of its token `tok` and the tokens
/// `toks` after it.
pub open spec fn parse_prefix(
    g: Grammar,
    p: PrefixParselet,
    tok: Lexeme,
    toks: Seq<Lexeme>,
) -> Parsed
    decreases toks.len(), 1int,
{
    match p {
        PrefixParselet::Name(_) => Ok((Tree::Name(tok.literal), toks)),
        PrefixParselet::Group(_) => match parse_prec(g, toks, 0) {
            Err(e) => Err(e),
            Ok((inner, rest)) => match expect(rest, TokenType::RightParen) {
                Err(e) => Err(e),
                Ok(after) => Ok((inner, after)),
            },
        },
        PrefixParselet::UnaryPrefix(u) => match parse_prec(g, toks, u.prec as nat) {
            Err(e) => Err(e),
            Ok((right, rest)) => Ok((Tree::Prefix { op: tok.typ, right: Box::new(right) }, rest)),
        },
    }
}

/// What the infix parselet `p` makes of the expression `left` before its
/// token `tok` and the tokens `toks` after it.
pub open spec fn parse_infix(
    g: Grammar,
    p: InfixParselet,
    left: Tree,
    tok: Lexeme,
    toks: Seq<Lexeme>,
) -> Parsed
    decreases toks.len(), 2int,
{
    match p {
        InfixParselet::Assign(_) => match left {
            Tree::Name(name) => match parse_prec(
                g,
                toks,
                (Precedence::Assignment.spec_level() - 1) as nat,
            ) {
                Err(e) => Err(e),
                Ok((right, rest)) => Ok((Tree::Assign { name, right: Box::new(right) }, rest)),
            },
            _ => Err(ParseError::InvalidAssignmentTarget),
        },
        InfixParselet::Cond(_) => match parse_prec(g, toks, 0) {
            Err(e) => Err(e),
            Ok((then_arm, rest)) => match expect(rest, TokenType::Colon) {
                Err(e) => Err(e),
                Ok(after) => if after.len() <= toks.len() {
                    match parse_prec(g, after, (Precedence::Conditional.spec_level() - 1) as nat) {
                        Err(e) => Err(e),
                        Ok((else_arm, last)) => Ok(
                            (
                                Tree::Cond {
                                    cond: Box::new(left),
                                    then_arm: Box::new(then_arm),
                                    else_arm: Box::new(else_arm),
                                },
                                last,
                            ),
                        ),
                    }
                } else {
                    arbitrary()
                },
            },
        },
        InfixParselet::Binary(b) => match parse_prec(
            g,
            toks,
            b.spec_floor(),
        ) {
            Err(e) => Err(e),
            Ok((right, rest)) => Ok(
                (Tree::Infix { left: Box::new(left), op: tok.typ, right: Box::new(right) }, rest),
            ),
        },
        InfixParselet::UnaryPostfix(_) => Ok(
            (Tree::Postfix { left: Box::new(left), op: tok.typ }, toks),
        ),
        InfixParselet::Call(_) => if first(toks).typ == TokenType::RightParen {
            Ok((Tree::Call { func: Box::new(left), args: Seq::empty() }, advance(toks)))
        } else {
            match parse_args(g, toks) {
                Err(e) => Err(e),
                Ok((args, rest)) => match expect(rest, TokenType::RightParen) {
                    Err(e) => Err(e),
                    Ok(after) => Ok((Tree::Call { func: Box::new(left), args }, after)),
                },
            }
        },
    }
}

/// One or more expressions with a comma between neighbours.
pub open spec fn parse_args(g: Grammar, toks: Seq<Lexeme>) -> ParsedList
    decreases toks.len(), 1int,
{
    match parse_prec(g, toks, 0) {
        Err(e) => Err(e),
        Ok((arg, rest)) => if first(rest).typ == TokenType::Comma {
            if rest.len() <= toks.len() {
                match parse_args(g, rest.drop_first()) {
                    Err(e) => Err(e),
                    Ok((more, last)) => Ok((seq![arg] + more, last)),
                }
            } else {
                arbitrary()
            }
        } else {
            Ok((seq![arg], rest))
        },
    }
}

/// An expression uses up at least one token.
pub proof fn lemma_parse_prec_shrinks(g: Grammar, toks: Seq<Lexeme>, floor: nat)
    ensures
        parse_prec(g, toks, floor) matches Ok((_, rest)) ==> rest.len() < toks.len(),
    decreases toks.len(), 0int,
{
    if toks.len() > 0 && g.prefix.contains_key(toks[0].typ) {
        lemma_parse_prefix_shrinks(g, g.prefix[toks[0].typ], toks[0], toks.drop_first());
        if let Ok((left, rest)) = parse_prefix(
            g,
            g.prefix[toks[0].typ],
            toks[0],
            toks.drop_first(),
        ) {
            lemma_parse_loop_shrinks(g, left, rest, floor);
        }
    }
}

/// Extending an expression never lengthens the stream.
pub proof fn lemma_parse_loop_shrinks(g: Grammar, left: Tree, toks: Seq<Lexeme>, floor: nat)
    ensures
        parse_loop(g, left, toks, floor) matches Ok((_, rest)) ==> rest.len() <= toks.len(),
    decreases toks.len(), 0int,
{
    if toks.len() > 0 && g.binding(toks[0].typ) > floor {
        lemma_parse_infix_shrinks(g, g.infix[toks[0].typ], left, toks[0], toks.drop_first());
        if let Ok((next, rest)) = parse_infix(
            g,
            g.infix[toks[0].typ],
            left,
            toks[0],
            toks.drop_first(),
        ) {
            lemma_parse_loop_shrinks(g, next, rest, floor);
        }
    }
}

/// A prefix parselet never lengthens the stream.
pub proof fn lemma_parse_prefix_shrinks(
    g: Grammar,
    p: PrefixParselet,
    tok: Lexeme,
    toks: Seq<Lexeme>,
)
    ensures
        parse_prefix(g, p, tok, toks) matches Ok((_, rest)) ==> rest.len() <= toks.len(),
    decreases toks.len(), 1int,
{
    match p {
        PrefixParselet::Name(_) => {},
        PrefixParselet::Group(_) => {
            lemma_parse_prec_shrinks(g, toks, 0);
        },
        PrefixParselet::UnaryPrefix(u) => {
            lemma_parse_prec_shrinks(g, toks, u.prec as nat);
        },
    }
}

/// An infix parselet never lengthens the stream.
pub proof fn lemma_parse_infix_shrinks(
    g: Grammar,
    p: InfixParselet,
    left: Tree,
    tok: Lexeme,
    toks: Seq<Lexeme>,
)
    ensures
        parse_infix(g, p, left, tok, toks) matches Ok((_, rest)) ==> rest.len() <= toks.len(),
    decreases toks.len(), 2int,
{
    match p {
        InfixParselet::Assign(_) => {
            lemma_parse_prec_shrinks(g, toks, (Precedence::Assignment.spec_level() - 1) as nat);
        },
        InfixParselet::Cond(_) => {
            lemma_parse_prec_shrinks(g, toks, 0);
            if let Ok((_, rest)) = parse_prec(g, toks, 0) {
                if let Ok(after) = expect(rest, TokenType::Colon) {
                    lemma_parse_prec_shrinks(
                        g,
                        after,
                        (Precedence::Conditional.spec_level() - 1) as nat,
                    );
                }
            }
        },
        InfixParselet::Binary(b) => {
            lemma_parse_prec_shrinks(
                g,
                toks,
                b.spec_floor(),
            );
        },
        InfixParselet::UnaryPostfix(_) => {},
        InfixParselet::Call(_) => {
            if first(toks).typ != TokenType::RightParen {
                lemma_parse_args_shrinks(g, toks);
            }
        },
    }
}

/// A list of arguments uses up at least one token.
pub proof fn lemma_parse_args_shrinks(g: Grammar, toks: Seq<Lexeme>)
    ensures
        parse_args(g, toks) matches Ok((args, rest)) ==> rest.len() < toks.len() && args.len()
            > 0,
    decreases toks.len(), 1int,
{
    lemma_parse_prec_shrinks(g, toks, 0);
    if let Ok((_, rest)) = parse_prec(g, toks, 0) {
        if first(rest).typ == TokenType::Comma {
            lemma_parse_args_shrinks(g, rest.drop_first());
        }
    }
}

/// How an expression is read, with the first token and a parselet for it at
/// hand: the prefix parselet, then the extension of what it gives.
pub proof fn lemma_parse_prec_unfolds(g: Grammar, toks: Seq<Lexeme>, floor: nat)
    requires
        toks.len() > 0,
        g.prefix.contains_key(toks[0].typ),
    ensures
        parse_prec(g, toks, floor) == match parse_prefix(
            g,
            g.prefix[toks[0].typ],
            toks[0],
            toks.drop_first(),
        ) {
            Err(e) => Err(e),
            Ok((left, rest)) => parse_loop(g, left, rest, floor),
        },
{
    lemma_parse_prefix_shrinks(g, g.prefix[toks[0].typ], toks[0], toks.drop_first());
}

/// How an expression is extended where the upcoming token binds more
/// tightly than the floor: its infix parselet, then the extension of what it
/// gives.
pub proof fn lemma_parse_loop_unfolds(g: Grammar, left: Tree, toks: Seq<Lexeme>, floor: nat)
    requires
        toks.len() > 0,
        g.binding(toks[0].typ) > floor,
    ensures
        parse_loop(g, left, toks, floor) == match parse_infix(
            g,
            g.infix[toks[0].typ],
            left,
            toks[0],
            toks.drop_first(),
        ) {
            Err(e) => Err(e),
            Ok((next, rest)) => parse_loop(g, next, rest, floor),
        },
{
    lemma_parse_infix_shrinks(g, g.infix[toks[0].typ], left, toks[0], toks.drop_first());
}

/// How a conditional is read: the first branch, a colon, the second branch.
pub proof fn lemma_parse_cond_unfolds(
    g: Grammar,
    p: InfixParselet,
    left: Tree,
    tok: Lexeme,
    toks: Seq<Lexeme>,
)
    requires
        p is Cond,
    ensures
        parse_infix(g, p, left, tok, toks) == match parse_prec(g, toks, 0) {
            Err(e) => Err(e),
            Ok((then_arm, rest)) => match expect(rest, TokenType::Colon) {
                Err(e) => Err(e),
                Ok(after) => match parse_prec(
                    g,
                    after,
                    (Precedence::Conditional.spec_level() - 1) as nat,
                ) {
                    Err(e) => Err(e),
                    Ok((else_arm, last)) => Ok(
                        (
                            Tree::Cond {
                                cond: Box::new(left),
                                then_arm: Box::new(then_arm),
                                else_arm: Box::new(else_arm),
                            },
                            last,
                        ),
                    ),
                },
            },
        },
{
    lemma_parse_prec_shrinks(g, toks, 0);
}

/// How a list of arguments is read: one expression, and after a comma the
/// rest of the list.
pub proof fn lemma_parse_args_unfolds(g: Grammar, toks: Seq<Lexeme>)
    ensures
        parse_args(g, toks) == match parse_prec(g, toks, 0) {
            Err(e) => Err(e),
            Ok((arg, rest)) => if first(rest).typ == TokenType::Comma {
                match parse_args(g, rest.drop_first()) {
                    Err(e) => Err(e),
                    Ok((more, last)) => Ok((seq![arg] + more, last)),
                }
            } else {
                Ok((seq![arg], rest))
            },
        },
{
    lemma_parse_prec_shrinks(g, toks, 0);
}

/// The extension of an expression ends at the end of the input or before a
/// token that binds no more tightly than the floor.
pub proof fn lemma_parse_loop_ends(g: Grammar, left: Tree, toks: Seq<Lexeme>, floor: nat)
    ensures
        parse_loop(g, left, toks, floor) matches Ok((_, rest)) ==> rest.len() == 0 || g.binding(
            rest[0].typ,
        ) <= floor,
    decreases toks.len(),
{
    if toks.len() > 0 && g.binding(toks[0].typ) > floor {
        lemma_parse_infix_shrinks(g, g.infix[toks[0].typ], left, toks[0], toks.drop_first());
        if let Ok((next, rest)) = parse_infix(
            g,
            g.infix[toks[0].typ],
            left,
            toks[0],
            toks.drop_first(),
        ) {
            lemma_parse_loop_ends(g, next, rest, floor);
        }
    }
}

/// An expression ends at the end of the input or before a token that binds
/// no more tightly than the floor.
pub proof fn lemma_parse_prec_ends(g: Grammar, toks: Seq<Lexeme>, floor: nat)
    ensures
        parse_prec(g, toks, floor) matches Ok((_, rest)) ==> rest.len() == 0 || g.binding(
            rest[0].typ,
        ) <= floor,
{
    if toks.len() > 0 && g.prefix.contains_key(toks[0].typ) {
        let p = g.prefix[toks[0].typ];
        lemma_parse_prefix_shrinks(g, p, toks[0], toks.drop_first());
        if let Ok((left, rest)) = parse_prefix(g, p, toks[0], toks.drop_first()) {
            lemma_parse_loop_ends(g, left, rest, floor);
        }
    }
}

/// `rest` is what is left of `toks` after some of its first tokens have
/// been taken.
pub open spec fn is_rest_of(rest: Seq<Lexeme>, toks: Seq<Lexeme>) -> bool {
    rest.len() <= toks.len() && rest == toks.skip(toks.len() - rest.len())
}

/// What is left of what is left of `c` is left of `c`.
pub proof fn lemma_rest_of_rest(a: Seq<Lexeme>, b: Seq<Lexeme>, c: Seq<Lexeme>)
    requires
        is_rest_of(a, b),
        is_rest_of(b, c),
    ensures
        is_rest_of(a, c),
{
    assert(a =~= c.skip(c.len() - a.len()));
}

/// Taking one token leaves the rest.
pub proof fn lemma_rest_of_advance(toks: Seq<Lexeme>)
    ensures
        is_rest_of(toks, toks),
        is_rest_of(advance(toks), toks),
{
    assert(toks =~= toks.skip(0));
    if toks.len() > 0 {
        assert(toks.drop_first() =~= toks.skip(1));
    }
}

/// An expression is read from the front of the stream: what is left
/// afterwards is the rest of it, token for token.
pub proof fn lemma_parse_prec_leaves_rest(g: Grammar, toks: Seq<Lexeme>, floor: nat)
    ensures
        parse_prec(g, toks, floor) matches Ok((_, rest)) ==> is_rest_of(rest, toks),
    decreases toks.len(), 0int,
{
    if toks.len() > 0 && g.prefix.contains_key(toks[0].typ) {
        let p = g.prefix[toks[0].typ];
        lemma_parse_prefix_shrinks(g, p, toks[0], toks.drop_first());
        lemma_parse_prefix_leaves_rest(g, p, toks[0], toks.drop_first());
        if let Ok((left, rest)) = parse_prefix(g, p, toks[0], toks.drop_first()) {
            lemma_parse_loop_leaves_rest(g, left, rest, floor);
            if let Ok((_, last)) = parse_loop(g, left, rest, floor) {
                lemma_rest_of_advance(toks);
                lemma_rest_of_rest(rest, toks.drop_first(), toks);
                lemma_rest_of_rest(last, rest, toks);
            }
        }
    }
}

/// The same for the extension of an expression.
pub proof fn lemma_parse_loop_leaves_rest(g: Grammar, left: Tree, toks: Seq<Lexeme>, floor: nat)
    ensures
        parse_loop(g, left, toks, floor) matches Ok((_, rest)) ==> is_rest_of(rest, toks),
    decreases toks.len(), 0int,
{
    lemma_rest_of_advance(toks);
    if toks.len() > 0 && g.binding(toks[0].typ) > floor {
        let p = g.infix[toks[0].typ];
        lemma_parse_infix_shrinks(g, p, left, toks[0], toks.drop_first());
        lemma_parse_infix_leaves_rest(g, p, left, toks[0], toks.drop_first());
        if let Ok((next, rest)) = parse_infix(g, p, left, toks[0], toks.drop_first()) {
            lemma_parse_loop_leaves_rest(g, next, rest, floor);
            if let Ok((_, last)) = parse_loop(g, next, rest, floor) {
                lemma_rest_of_rest(rest, toks.drop_first(), toks);
                lemma_rest_of_rest(last, rest, toks);
            }
        }
    }
}

/// The same for a prefix parselet.
pub proof fn lemma_parse_prefix_leaves_rest(
    g: Grammar,
    p: PrefixParselet,
    tok: Lexeme,
    toks: Seq<Lexeme>,
)
    ensures
        parse_prefix(g, p, tok, toks) matches Ok((_, rest)) ==> is_rest_of(rest, toks),
    decreases toks.len(), 1int,
{
    lemma_rest_of_advance(toks);
    match p {
        PrefixParselet::Name(_) => {},
        PrefixParselet::Group(_) => {
            lemma_parse_prec_leaves_rest(g, toks, 0);
            if let Ok((_, rest)) = parse_prec(g, toks, 0) {
                lemma_rest_of_advance(rest);
                if let Ok(after) = expect(rest, TokenType::RightParen) {
                    lemma_rest_of_rest(after, rest, toks);
                }
            }
        },
        PrefixParselet::UnaryPrefix(u) => {
            lemma_parse_prec_leaves_rest(g, toks, u.prec as nat);
        },
    }
}

/// The same for an infix parselet.
pub proof fn lemma_parse_infix_leaves_rest(
    g: Grammar,
    p: InfixParselet,
    left: Tree,
    tok: Lexeme,
    toks: Seq<Lexeme>,
)
    ensures
        parse_infix(g, p, left, tok, toks) matches Ok((_, rest)) ==> is_rest_of(rest, toks),
    decreases toks.len(), 2int,
{
    lemma_rest_of_advance(toks);
    match p {
        InfixParselet::Assign(_) => {
            lemma_parse_prec_leaves_rest(
                g,
                toks,
                (Precedence::Assignment.spec_level() - 1) as nat,
            );
        },
        InfixParselet::Cond(_) => {
            lemma_parse_prec_shrinks(g, toks, 0);
            lemma_parse_prec_leaves_rest(g, toks, 0);
            if let Ok((_, rest)) = parse_prec(g, toks, 0) {
                lemma_rest_of_advance(rest);
                if let Ok(after) = expect(rest, TokenType::Colon) {
                    let floor = (Precedence::Conditional.spec_level() - 1) as nat;
                    lemma_parse_prec_leaves_rest(g, after, floor);
                    lemma_rest_of_rest(after, rest, toks);
                    if let Ok((_, last)) = parse_prec(g, after, floor) {
                        lemma_rest_of_rest(last, after, toks);
                    }
                }
            }
        },
        InfixParselet::Binary(b) => {
            lemma_parse_prec_leaves_rest(g, toks, b.spec_floor());
        },
        InfixParselet::UnaryPostfix(_) => {},
        InfixParselet::Call(_) => {
            if first(toks).typ != TokenType::RightParen {
                lemma_parse_args_leaves_rest(g, toks);
                if let Ok((_, rest)) = parse_args(g, toks) {
                    lemma_rest_of_advance(rest);
                    if let Ok(after) = expect(rest, TokenType::RightParen) {
                        lemma_rest_of_rest(after, rest, toks);
                    }
                }
            }
        },
    }
}

/// The same for a list of arguments.
pub proof fn lemma_parse_args_leaves_rest(g: Grammar, toks: Seq<Lexeme>)
    ensures
        parse_args(g, toks) matches Ok((_, rest)) ==> is_rest_of(rest, toks),
    decreases toks.len(), 1int,
{
    lemma_parse_prec_shrinks(g, toks, 0);
    lemma_parse_prec_leaves_rest(g, toks, 0);
    if let Ok((_, rest)) = parse_prec(g, toks, 0) {
        if first(rest).typ == TokenType::Comma {
            lemma_rest_of_advance(rest);
            lemma_parse_args_leaves_rest(g, rest.drop_first());
            if let Ok((_, last)) = parse_args(g, rest.drop_first()) {
                lemma_rest_of_rest(rest.drop_first(), rest, toks);
                lemma_rest_of_rest(last, rest.drop_first(), toks);
            }
        }
    }
}

/// Under a punctuated grammar, the tree of an expression can be rendered.
pub proof fn lemma_parse_prec_printable(g: Grammar, toks: Seq<Lexeme>, floor: nat)
    requires
        g.punctuated(),
    ensures
        parse_prec(g, toks, floor) matches Ok((tree, _)) ==> tree.printable(),
    decreases toks.len(), 0int,
{
    if toks.len() > 0 && g.prefix.contains_key(toks[0].typ) {
        let p = g.prefix[toks[0].typ];
        lemma_parse_prefix_shrinks(g, p, toks[0], toks.drop_first());
        lemma_parse_prefix_printable(g, p, toks[0], toks.drop_first());
        if let Ok((left, rest)) = parse_prefix(g, p, toks[0], toks.drop_first()) {
            lemma_parse_loop_printable(g, left, rest, floor);
        }
    }
}

/// Under a punctuated grammar, the extension of a tree that can be rendered
/// can be rendered.
pub proof fn lemma_parse_loop_printable(g: Grammar, left: Tree, toks: Seq<Lexeme>, floor: nat)
    requires
        g.punctuated(),
        left.printable(),
    ensures
        parse_loop(g, left, toks, floor) matches Ok((tree, _)) ==> tree.printable(),
    decreases toks.len(), 0int,
{
    if toks.len() > 0 && g.binding(toks[0].typ) > floor {
        let p = g.infix[toks[0].typ];
        lemma_parse_infix_shrinks(g, p, left, toks[0], toks.drop_first());
        lemma_parse_infix_printable(g, p, left, toks[0], toks.drop_first());
        if let Ok((next, rest)) = parse_infix(g, p, left, toks[0], toks.drop_first()) {
            lemma_parse_loop_printable(g, next, rest, floor);
        }
    }
}

/// Under a punctuated grammar, what a prefix parselet makes of a token that
/// it is filed under can be rendered.
pub proof fn lemma_parse_prefix_printable(
    g: Grammar,
    p: PrefixParselet,
    tok: Lexeme,
    toks: Seq<Lexeme>,
)
    requires
        g.punctuated(),
        p is UnaryPrefix ==> tok.typ.spec_punctuator() is Some,
    ensures
        parse_prefix(g, p, tok, toks) matches Ok((tree, _)) ==> tree.printable(),
    decreases toks.len(), 1int,
{
    match p {
        PrefixParselet::Name(_) => {},
        PrefixParselet::Group(_) => {
            lemma_parse_prec_printable(g, toks, 0);
        },
        PrefixParselet::UnaryPrefix(u) => {
            lemma_parse_prec_printable(g, toks, u.prec as nat);
        },
    }
}

/// Under a punctuated grammar, what an infix parselet makes of a tree that
/// can be rendered and a token that it is filed under can be rendered.
pub proof fn lemma_parse_infix_printable(
    g: Grammar,
    p: InfixParselet,
    left: Tree,
    tok: Lexeme,
    toks: Seq<Lexeme>,
)
    requires
        g.punctuated(),
        left.printable(),
        p is Binary || p is UnaryPostfix ==> tok.typ.spec_punctuator() is Some,
    ensures
        parse_infix(g, p, left, tok, toks) matches Ok((tree, _)) ==> tree.printable(),
    decreases toks.len(), 2int,
{
    match p {
        InfixParselet::Assign(_) => {
            lemma_parse_prec_printable(g, toks, (Precedence::Assignment.spec_level() - 1) as nat);
        },
        InfixParselet::Cond(_) => {
            lemma_parse_prec_shrinks(g, toks, 0);
            lemma_parse_prec_printable(g, toks, 0);
            if let Ok((_, rest)) = parse_prec(g, toks, 0) {
                if let Ok(after) = expect(rest, TokenType::Colon) {
                    lemma_parse_prec_printable(
                        g,
                        after,
                        (Precedence::Conditional.spec_level() - 1) as nat,
                    );
                }
            }
        },
        InfixParselet::Binary(b) => {
            lemma_parse_prec_printable(
                g,
                toks,
                b.spec_floor(),
            );
        },
        InfixParselet::UnaryPostfix(_) => {},
        InfixParselet::Call(_) => {
            if first(toks).typ != TokenType::RightParen {
                lemma_parse_args_printable(g, toks);
            }
        },
    }
}

/// Under a punctuated grammar, every argument of a list can be rendered.
pub proof fn lemma_parse_args_printable(g: Grammar, toks: Seq<Lexeme>)
    requires
        g.punctuated(),
    ensures
        parse_args(g, toks) matches Ok((args, _)) ==> forall|i: int|
            0 <= i < args.len() ==> (#[trigger] args[i]).printable(),
    decreases toks.len(), 1int,
{
    lemma_parse_prec_shrinks(g, toks, 0);
    lemma_parse_prec_printable(g, toks, 0);
    if let Ok((_, rest)) = parse_prec(g, toks, 0) {
        if first(rest).typ == TokenType::Comma {
            lemma_parse_args_printable(g, rest.drop_first());
        }
    }
}

} // verus!
