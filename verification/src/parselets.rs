//! Parselets: what to do with a token of some kind, at the start of an
//! expression or after one.
use crate::error::ParseError;
use crate::expression::trees_of;
use crate::expression::Expr;
use crate::expression::Tree;
use crate::parser::parsed_as;
use crate::parser::Parser;
use crate::syntax::first;
use crate::syntax::lemma_parse_prec_shrinks;
use crate::syntax::parse_args;
use crate::syntax::parse_infix;
use crate::syntax::parse_prefix;
use crate::syntax::ParsedList;
use crate::token::Lexeme;
use crate::token::Token;
use crate::token::TokenType;
use vstd::prelude::*;

verus! {

/// The binding levels of the grammar, weakest first.
#[derive(Debug, Copy, Clone, PartialEq, Eq, Structural)]
pub enum Precedence {
    Assignment,
    Conditional,
    Sum,
    Product,
    Exponent,
    Prefix,
    Postfix,
    Call,
}

impl Precedence {
    /// The level as a number, from 1 for `Assignment` to 8 for `Call`.
    pub open spec fn spec_level(&self) -> u8 {
        match *self {
            Precedence::Assignment => 1,
            Precedence::Conditional => 2,
            Precedence::Sum => 3,
            Precedence::Product => 4,
            Precedence::Exponent => 5,
            Precedence::Prefix => 6,
            Precedence::Postfix => 7,
            Precedence::Call => 8,
        }
    }

    #[verifier::when_used_as_spec(spec_level)]
    pub fn level(&self) -> (n: u8)
        ensures
            n == self.spec_level(),
    {
        match *self {
            Precedence::Assignment => 1,
            Precedence::Conditional => 2,
            Precedence::Sum => 3,
            Precedence::Product => 4,
            Precedence::Exponent => 5,
            Precedence::Prefix => 6,
            Precedence::Postfix => 7,
            Precedence::Call => 8,
        }
    }
}

/// `name = value`, after the name.
#[derive(Debug, Copy, Clone)]
pub struct Assign;

/// `cond ? then : else`, after the condition.
#[derive(Debug, Copy, Clone)]
pub struct Cond;

/// A binary operator at level `prec`, grouping to the right if `right`.
#[derive(Debug, Copy, Clone)]
pub struct Binary {
    pub prec: u8,
    pub right: bool,
}

/// A unary operator before its operand, which is read at level `prec`.
#[derive(Debug, Copy, Clone)]
pub struct UnaryPrefix {
    pub prec: u8,
}

/// A parenthesised expression, after the opening parenthesis.
#[derive(Debug, Copy, Clone)]
pub struct Group;

/// A name.
#[derive(Debug, Copy, Clone)]
pub struct Name;

/// A unary operator after its operand, at level `prec`.
#[derive(Debug, Copy, Clone)]
pub struct UnaryPostfix {
    pub prec: u8,
}

/// A call, after the function and the opening parenthesis.
#[derive(Debug, Copy, Clone)]
pub struct Call;

/// What can be filed under a kind of token for the start of an expression.
#[derive(Debug, Copy, Clone)]
pub enum PrefixParselet {
    Name(Name),
    Group(Group),
    UnaryPrefix(UnaryPrefix),
}

/// What can be filed under a kind of token for the place after an
/// expression.
#[derive(Debug, Copy, Clone)]
pub enum InfixParselet {
    Assign(Assign),
    Cond(Cond),
    Binary(Binary),
    UnaryPostfix(UnaryPostfix),
    Call(Call),
}

impl InfixParselet {
    /// How tightly the parselet binds to the expression on its left.
    pub open spec fn spec_precedence(&self) -> u8 {
        match *self {
            InfixParselet::Assign(_) => Precedence::Assignment.spec_level(),
            InfixParselet::Cond(_) => Precedence::Conditional.spec_level(),
            InfixParselet::Binary(b) => b.prec,
            InfixParselet::UnaryPostfix(u) => u.prec,
            InfixParselet::Call(_) => Precedence::Call.spec_level(),
        }
    }
}

impl InfixParselet {
    /// The parselet can run: a binary operator that groups to the right
    /// reads its right operand one level below its own, so its level is not
    /// 0.
    pub open spec fn usable(&self) -> bool {
        match *self {
            InfixParselet::Binary(b) => b.usable(),
            _ => true,
        }
    }

    pub fn precedence(&self) -> (prec: u8)
        ensures
            prec == self.spec_precedence(),
    {
        match self {
            InfixParselet::Assign(p) => p.precedence(),
            InfixParselet::Cond(p) => p.precedence(),
            InfixParselet::Binary(p) => p.precedence(),
            InfixParselet::UnaryPostfix(p) => p.precedence(),
            InfixParselet::Call(p) => p.precedence(),
        }
    }

    /// Runs the parselet on the expression `left` and its own token
    /// `token`, which `parser` has just taken.
    pub fn parse<'source>(
        &self,
        parser: &mut Parser<'source>,
        left: Box<Expr<'source>>,
        token: Token<'source>,
    ) -> (res: Result<Box<Expr<'source>>, ParseError>)
        requires
            old(parser).wf(),
            old(parser).grammar().eof_terminal(),
            self.usable(),
        ensures
            final(parser).wf(),
            final(parser).grammar() == old(parser).grammar(),
            parsed_as(
                res,
                final(parser).stream(),
                parse_infix(old(parser).grammar(), *self, left@, token@, old(parser).stream()),
            ),
        decreases old(parser).stream().len(), 3int,
    {
        match self {
            InfixParselet::Assign(p) => p.parse(parser, left, token),
            InfixParselet::Cond(p) => p.parse(parser, left, token),
            InfixParselet::Binary(p) => p.parse(parser, left, token),
            InfixParselet::UnaryPostfix(p) => p.parse(parser, left, token),
            InfixParselet::Call(p) => p.parse(parser, left, token),
        }
    }
}

impl PrefixParselet {
    /// Runs the parselet on its own token `token`, which `parser` has just
    /// taken.
    pub fn parse<'source>(&self, parser: &mut Parser<'source>, token: Token<'source>) -> (res:
        Result<Box<Expr<'source>>, ParseError>)
        requires
            old(parser).wf(),
            old(parser).grammar().eof_terminal(),
        ensures
            final(parser).wf(),
            final(parser).grammar() == old(parser).grammar(),
            parsed_as(
                res,
                final(parser).stream(),
                parse_prefix(old(parser).grammar(), *self, token@, old(parser).stream()),
            ),
        decreases old(parser).stream().len(), 3int,
    {
        match self {
            PrefixParselet::Name(p) => p.parse(parser, token),
            PrefixParselet::Group(p) => p.parse(parser, token),
            PrefixParselet::UnaryPrefix(p) => p.parse(parser, token),
        }
    }
}

impl Assign {
    /// Fails as an invalid target unless the left-hand side is a name,
    /// whatever follows. For a name, reads the right-hand side one level
    /// below assignment, so that a chain of assignments groups to the right.
    pub fn parse<'source>(
        &self,
        parser: &mut Parser<'source>,
        left: Box<Expr<'source>>,
        _token: Token<'source>,
    ) -> (res: Result<Box<Expr<'source>>, ParseError>)
        requires
            old(parser).wf(),
            old(parser).grammar().eof_terminal(),
        ensures
            final(parser).wf(),
            final(parser).grammar() == old(parser).grammar(),
            parsed_as(
                res,
                final(parser).stream(),
                parse_infix(
                    old(parser).grammar(),
                    InfixParselet::Assign(*self),
                    left@,
                    _token@,
                    old(parser).stream(),
                ),
            ),
            !(left@ is Name) ==> res == Err::<Box<Expr<'source>>, ParseError>(
                ParseError::InvalidAssignmentTarget,
            ) && *final(parser) == *old(parser),
        decreases old(parser).stream().len(), 2int,
    {
        match *left {
            Expr::Name(name) => {
                let right = match parser.parse_expression_prec(self.precedence() - 1) {
                    Ok(right) => right,
                    Err(e) => {
                        return Err(e);
                    },
                };
                Ok(Box::new(Expr::Assign { name, right }))
            },
            _ => Err(ParseError::InvalidAssignmentTarget),
        }
    }

    pub fn precedence(&self) -> (prec: u8)
        ensures
            prec == Precedence::Assignment.spec_level(),
    {
        Precedence::Assignment.level()
    }
}

impl Cond {
    /// Reads the first branch as a whole expression, a colon, and the
    /// second branch one level below the conditional, so that a chain of
    /// conditionals groups to the right.
    pub fn parse<'source>(
        &self,
        parser: &mut Parser<'source>,
        left: Box<Expr<'source>>,
        _token: Token<'source>,
    ) -> (res: Result<Box<Expr<'source>>, ParseError>)
        requires
            old(parser).wf(),
            old(parser).grammar().eof_terminal(),
        ensures
            final(parser).wf(),
            final(parser).grammar() == old(parser).grammar(),
            parsed_as(
                res,
                final(parser).stream(),
                parse_infix(
                    old(parser).grammar(),
                    InfixParselet::Cond(*self),
                    left@,
                    _token@,
                    old(parser).stream(),
                ),
            ),
        decreases old(parser).stream().len(), 2int,
    {
        let ghost g = parser.grammar();
        let ghost start = parser.stream();
        proof {
            lemma_parse_prec_shrinks(g, start, 0);
        }
        let then_arm = match parser.parse_expression() {
            Ok(then_arm) => then_arm,
            Err(e) => {
                return Err(e);
            },
        };
        match parser.consume_type(TokenType::Colon) {
            Ok(_) => {},
            Err(e) => {
                return Err(e);
            },
        }
        let else_arm = match parser.parse_expression_prec(self.precedence() - 1) {
            Ok(else_arm) => else_arm,
            Err(e) => {
                return Err(e);
            },
        };
        Ok(Box::new(Expr::Cond { cond: left, then_arm, else_arm }))
    }

    pub fn precedence(&self) -> (prec: u8)
        ensures
            prec == Precedence::Conditional.spec_level(),
    {
        Precedence::Conditional.level()
    }
}

impl Binary {
    /// See [`InfixParselet::usable`].
    pub open spec fn usable(&self) -> bool {
        self.right ==> self.prec >= 1
    }

    /// The floor at which the right operand is read: the operator's own
    /// level, or one below where it groups to the right.
    pub open spec fn spec_floor(&self) -> nat
        recommends
            self.usable(),
    {
        if self.right {
            (self.prec - 1) as nat
        } else {
            self.prec as nat
        }
    }

    /// Reads the right operand at the operator's own level, or one below
    /// where the operator groups to the right.
    pub fn parse<'source>(
        &self,
        parser: &mut Parser<'source>,
        left: Box<Expr<'source>>,
        token: Token<'source>,
    ) -> (res: Result<Box<Expr<'source>>, ParseError>)
        requires
            old(parser).wf(),
            old(parser).grammar().eof_terminal(),
            self.usable(),
        ensures
            final(parser).wf(),
            final(parser).grammar() == old(parser).grammar(),
            parsed_as(
                res,
                final(parser).stream(),
                parse_infix(
                    old(parser).grammar(),
                    InfixParselet::Binary(*self),
                    left@,
                    token@,
                    old(parser).stream(),
                ),
            ),
        decreases old(parser).stream().len(), 2int,
    {
        let floor = self.prec - if self.right {
            1
        } else {
            0
        };
        let right = match parser.parse_expression_prec(floor) {
            Ok(right) => right,
            Err(e) => {
                return Err(e);
            },
        };
        Ok(Box::new(Expr::Infix { left, op: token.typ, right }))
    }

    pub fn precedence(&self) -> (prec: u8)
        ensures
            prec == self.prec,
    {
        self.prec
    }
}

impl UnaryPrefix {
    /// Reads the operand at level `prec`.
    pub fn parse<'source>(&self, parser: &mut Parser<'source>, token: Token<'source>) -> (res:
        Result<Box<Expr<'source>>, ParseError>)
        requires
            old(parser).wf(),
            old(parser).grammar().eof_terminal(),
        ensures
            final(parser).wf(),
            final(parser).grammar() == old(parser).grammar(),
            parsed_as(
                res,
                final(parser).stream(),
                parse_prefix(
                    old(parser).grammar(),
                    PrefixParselet::UnaryPrefix(*self),
                    token@,
                    old(parser).stream(),
                ),
            ),
        decreases old(parser).stream().len(), 2int,
    {
        let right = match parser.parse_expression_prec(self.prec) {
            Ok(right) => right,
            Err(e) => {
                return Err(e);
            },
        };
        Ok(Box::new(Expr::Prefix { op: token.typ, right }))
    }
}

impl Group {
    /// Reads a whole expression and the closing parenthesis. The
    /// parentheses leave no trace in the tree.
    pub fn parse<'source>(&self, parser: &mut Parser<'source>, _token: Token<'source>) -> (res:
        Result<Box<Expr<'source>>, ParseError>)
        requires
            old(parser).wf(),
            old(parser).grammar().eof_terminal(),
        ensures
            final(parser).wf(),
            final(parser).grammar() == old(parser).grammar(),
            parsed_as(
                res,
                final(parser).stream(),
                parse_prefix(
                    old(parser).grammar(),
                    PrefixParselet::Group(*self),
                    _token@,
                    old(parser).stream(),
                ),
            ),
        decreases old(parser).stream().len(), 2int,
    {
        let expr = match parser.parse_expression() {
            Ok(expr) => expr,
            Err(e) => {
                return Err(e);
            },
        };
        match parser.consume_type(TokenType::RightParen) {
            Ok(_) => {},
            Err(e) => {
                return Err(e);
            },
        }
        Ok(expr)
    }
}

impl Name {
    /// The token's text as a name.
    pub fn parse<'source>(&self, _parser: &mut Parser<'source>, token: Token<'source>) -> (res:
        Result<Box<Expr<'source>>, ParseError>)
        requires
            old(_parser).wf(),
        ensures
            *final(_parser) == *old(_parser),
            parsed_as(
                res,
                final(_parser).stream(),
                parse_prefix(
                    old(_parser).grammar(),
                    PrefixParselet::Name(*self),
                    token@,
                    old(_parser).stream(),
                ),
            ),
    {
        Ok(Box::new(Expr::Name(token.literal)))
    }
}

impl UnaryPostfix {
    /// The operator applied to `left`; nothing more is read.
    pub fn parse<'source>(
        &self,
        _parser: &mut Parser<'source>,
        left: Box<Expr<'source>>,
        token: Token<'source>,
    ) -> (res: Result<Box<Expr<'source>>, ParseError>)
        requires
            old(_parser).wf(),
        ensures
            *final(_parser) == *old(_parser),
            parsed_as(
                res,
                final(_parser).stream(),
                parse_infix(
                    old(_parser).grammar(),
                    InfixParselet::UnaryPostfix(*self),
                    left@,
                    token@,
                    old(_parser).stream(),
                ),
            ),
    {
        Ok(Box::new(Expr::Postfix { left, op: token.typ }))
    }

    pub fn precedence(&self) -> (prec: u8)
        ensures
            prec == self.prec,
    {
        self.prec
    }
}

/// `done` put before the list of `r`.
pub open spec fn prepend(done: Seq<Tree>, r: ParsedList) -> ParsedList {
    match r {
        Ok((more, rest)) => Ok((done + more, rest)),
        Err(e) => Err(e),
    }
}

impl Call {
    /// Reads the arguments, with a comma between neighbours, and the
    /// closing parenthesis. There may be no argument at all.
    pub fn parse<'source>(
        &self,
        parser: &mut Parser<'source>,
        left: Box<Expr<'source>>,
        _token: Token<'source>,
    ) -> (res: Result<Box<Expr<'source>>, ParseError>)
        requires
            old(parser).wf(),
            old(parser).grammar().eof_terminal(),
        ensures
            final(parser).wf(),
            final(parser).grammar() == old(parser).grammar(),
            parsed_as(
                res,
                final(parser).stream(),
                parse_infix(
                    old(parser).grammar(),
                    InfixParselet::Call(*self),
                    left@,
                    _token@,
                    old(parser).stream(),
                ),
            ),
        decreases old(parser).stream().len(), 2int,
    {
        let ghost g = parser.grammar();
        let ghost start = parser.stream();
        let mut args: Vec<Box<Expr<'source>>> = Vec::new();
        if !parser.match_type(TokenType::RightParen) {
            proof {
                assert(trees_of(args@) =~= Seq::<Tree>::empty());
                assert(prepend(trees_of(args@), parse_args(g, start)) == parse_args(g, start)) by {
                    if let Ok((more, rest)) = parse_args(g, start) {
                        assert(Seq::<Tree>::empty() + more =~= more);
                    }
                }
            }
            loop
                invariant_except_break
                    parser.stream().len() <= start.len(),
                    prepend(trees_of(args@), parse_args(g, parser.stream())) == parse_args(
                        g,
                        start,
                    ),
                invariant
                    parser.wf(),
                    parser.grammar() == g,
                    g == old(parser).grammar(),
                    start == old(parser).stream(),
                    first(start).typ != TokenType::RightParen,
                    g.eof_terminal(),
                ensures
                    parse_args(g, start) == Ok::<(Seq<Tree>, Seq<Lexeme>), ParseError>(
                        (trees_of(args@), parser.stream()),
                    ),
                decreases parser.stream().len(),
            {
                let ghost here = parser.stream();
                let ghost done = trees_of(args@);
                let ghost before = args@;
                proof {
                    lemma_parse_prec_shrinks(g, here, 0);
                }
                let arg = match parser.parse_expression() {
                    Ok(arg) => arg,
                    Err(e) => {
                        return Err(e);
                    },
                };
                args.push(arg);
                proof {
                    assert(args@.drop_last() =~= before);
                    assert(trees_of(args@) =~= done.push(arg@));
                }
                let ghost rest = parser.stream();
                if !parser.match_type(TokenType::Comma) {
                    proof {
                        assert(done + seq![arg@] =~= done.push(arg@));
                    }
                    break ;
                }
                proof {
                    if let Ok((more, last)) = parse_args(g, rest.drop_first()) {
                        assert(done + (seq![arg@] + more) =~= done.push(arg@) + more);
                    }
                }
            }
            match parser.consume_type(TokenType::RightParen) {
                Ok(_) => {},
                Err(e) => {
                    return Err(e);
                },
            }
        }
        Ok(Box::new(Expr::Call { func: left, args }))
    }

    pub fn precedence(&self) -> (prec: u8)
        ensures
            prec == Precedence::Call.spec_level(),
    {
        Precedence::Call.level()
    }
}

} // verus!
