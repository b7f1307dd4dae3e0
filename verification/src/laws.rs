//! What the reference grammar does with chains of operators.
use crate::expression::op_char;
use crate::expression::spaced;
use crate::expression::Tree;
use crate::parselets::Precedence;
use crate::parser::bantam_grammar;
use crate::syntax::lemma_parse_loop_unfolds;
use crate::syntax::lemma_parse_prec_unfolds;
use crate::syntax::parse_infix;
use crate::syntax::parse_loop;
use crate::syntax::parse_prec;
use crate::expression::render_list;
use crate::syntax::advance;
use crate::syntax::expect;
use crate::syntax::failed;
use crate::syntax::first;
use crate::syntax::lemma_parse_args_unfolds;
use crate::syntax::lemma_parse_cond_unfolds;
use crate::syntax::parse_args;
use crate::syntax::parsed;
use crate::syntax::Grammar;
use crate::error::ParseError;
use crate::parselets::InfixParselet;
use crate::token::Lexeme;
use crate::token::TokenType;
use vstd::prelude::*;

verus! {

/// The four binary operators that group to the left.
pub open spec fn groups_left(op: TokenType) -> bool {
    op == TokenType::Plus || op == TokenType::Minus || op == TokenType::Asterisk || op
        == TokenType::Slash
}

/// The five binary operators.
pub open spec fn is_binary(op: TokenType) -> bool {
    groups_left(op) || op == TokenType::Caret
}

/// The floor at which the reference grammar reads the right operand of the
/// binary operator `op`: its own level, or one below for `^`.
pub open spec fn right_floor(op: TokenType) -> nat {
    if op == TokenType::Caret {
        (bantam_grammar().binding(op) - 1) as nat
    } else {
        bantam_grammar().binding(op) as nat
    }
}

/// The levels of the reference grammar: how tightly each kind of token
/// binds to the expression before it.
pub proof fn lemma_bantam_binding()
    ensures
        bantam_grammar().eof_terminal(),
        bantam_grammar().binding(TokenType::Assign) == Precedence::Assignment.spec_level(),
        bantam_grammar().binding(TokenType::Question) == Precedence::Conditional.spec_level(),
        bantam_grammar().binding(TokenType::Plus) == Precedence::Sum.spec_level(),
        bantam_grammar().binding(TokenType::Minus) == Precedence::Sum.spec_level(),
        bantam_grammar().binding(TokenType::Asterisk) == Precedence::Product.spec_level(),
        bantam_grammar().binding(TokenType::Slash) == Precedence::Product.spec_level(),
        bantam_grammar().binding(TokenType::Caret) == Precedence::Exponent.spec_level(),
        bantam_grammar().binding(TokenType::Bang) == Precedence::Postfix.spec_level(),
        bantam_grammar().binding(TokenType::LeftParen) == Precedence::Call.spec_level(),
        bantam_grammar().binding(TokenType::RightParen) == 0,
        bantam_grammar().binding(TokenType::Comma) == 0,
        bantam_grammar().binding(TokenType::Colon) == 0,
        bantam_grammar().binding(TokenType::Tilde) == 0,
        bantam_grammar().binding(TokenType::Name) == 0,
        bantam_grammar().binding(TokenType::Eof) == 0,
{
}

/// Under the reference grammar, an expression that starts with a name is
/// that name, extended over what follows.
pub proof fn lemma_name_first(name: Lexeme, rest: Seq<Lexeme>, floor: nat)
    requires
        name.typ == TokenType::Name,
    ensures
        parse_prec(bantam_grammar(), seq![name] + rest, floor) == parse_loop(
            bantam_grammar(),
            Tree::Name(name.literal),
            rest,
            floor,
        ),
{
    let toks = seq![name] + rest;
    assert(toks.drop_first() =~= rest);
    lemma_parse_prec_unfolds(bantam_grammar(), toks, floor);
}

/// Under the reference grammar, an expression before a binary operator that
/// binds more tightly than the floor becomes the left operand: the right
/// operand is read at the operator's floor, and the operation is extended
/// over what follows.
pub proof fn lemma_binary_next(left: Tree, op: Lexeme, rest: Seq<Lexeme>, floor: nat)
    requires
        is_binary(op.typ),
        bantam_grammar().binding(op.typ) > floor,
    ensures
        parse_loop(bantam_grammar(), left, seq![op] + rest, floor) == match parse_prec(
            bantam_grammar(),
            rest,
            right_floor(op.typ),
        ) {
            Err(e) => Err(e),
            Ok((right, after)) => parse_loop(
                bantam_grammar(),
                Tree::Infix { left: Box::new(left), op: op.typ, right: Box::new(right) },
                after,
                floor,
            ),
        },
{
    let toks = seq![op] + rest;
    assert(toks.drop_first() =~= rest);
    lemma_bantam_binding();
    lemma_parse_loop_unfolds(bantam_grammar(), left, toks, floor);
}

/// An expression is not extended over a token that binds no more tightly
/// than the floor, nor past the end of the input.
pub proof fn lemma_loop_stops(left: Tree, toks: Seq<Lexeme>, floor: nat)
    requires
        toks.len() == 0 || bantam_grammar().binding(toks[0].typ) <= floor,
    ensures
        parse_loop(bantam_grammar(), left, toks, floor) == parsed(left, toks),
{
}

/// The tree of `a op1 b op2 c` that groups to the left.
pub open spec fn left_chain(
    a: Seq<char>,
    op1: TokenType,
    b: Seq<char>,
    op2: TokenType,
    c: Seq<char>,
) -> Tree {
    Tree::Infix {
        left: Box::new(
            Tree::Infix {
                left: Box::new(Tree::Name(a)),
                op: op1,
                right: Box::new(Tree::Name(b)),
            },
        ),
        op: op2,
        right: Box::new(Tree::Name(c)),
    }
}

/// A chain `a op1 b op2 c` of two operators of one level, both from `+ -` or
/// both from `* /`, groups to the left: its tree is that of `(a op1 b) op2
/// c`, no token is left, and the rendering is `((a op1 b) op2 c)`.
pub proof fn lemma_left_associative_chain(
    a: Lexeme,
    op1: Lexeme,
    b: Lexeme,
    op2: Lexeme,
    c: Lexeme,
)
    requires
        a.typ == TokenType::Name,
        b.typ == TokenType::Name,
        c.typ == TokenType::Name,
        groups_left(op1.typ),
        groups_left(op2.typ),
        bantam_grammar().binding(op1.typ) == bantam_grammar().binding(op2.typ),
    ensures
        parse_prec(bantam_grammar(), seq![a, op1, b, op2, c], 0) == parsed(
            left_chain(a.literal, op1.typ, b.literal, op2.typ, c.literal),
            Seq::empty(),
        ),
        left_chain(a.literal, op1.typ, b.literal, op2.typ, c.literal).render() == seq!['(', '(']
            + a.literal + spaced(op_char(op1.typ)) + b.literal + seq![')'] + spaced(
            op_char(op2.typ),
        ) + c.literal + seq![')'],
{
    let g = bantam_grammar();
    let none = Seq::<Lexeme>::empty();
    let t4 = seq![c] + none;
    let t3 = seq![op2] + t4;
    let t2 = seq![b] + t3;
    let t1 = seq![op1] + t2;
    let t0 = seq![a] + t1;
    assert(t0 =~= seq![a, op1, b, op2, c]);
    lemma_bantam_binding();
    let level = g.binding(op1.typ) as nat;
    let ab = Tree::Infix {
        left: Box::new(Tree::Name(a.literal)),
        op: op1.typ,
        right: Box::new(Tree::Name(b.literal)),
    };
    let abc = left_chain(a.literal, op1.typ, b.literal, op2.typ, c.literal);
    // the right operand of the first operator ends before the second
    lemma_name_first(b, t3, level);
    lemma_loop_stops(Tree::Name(b.literal), t3, level);
    // the right operand of the second operator is the last name
    lemma_name_first(c, none, level);
    lemma_loop_stops(Tree::Name(c.literal), none, level);
    // the chain, from the left
    lemma_name_first(a, t1, 0);
    lemma_binary_next(Tree::Name(a.literal), op1, t2, 0);
    lemma_binary_next(ab, op2, t4, 0);
    lemma_loop_stops(abc, none, 0);
    assert(abc.render() =~= seq!['(', '('] + a.literal + spaced(op_char(op1.typ)) + b.literal
        + seq![')'] + spaced(op_char(op2.typ)) + c.literal + seq![')']) by {
        assert(Tree::Name(a.literal).render() == a.literal);
        assert(Tree::Name(b.literal).render() == b.literal);
        assert(Tree::Name(c.literal).render() == c.literal);
        assert(ab.render() =~= seq!['('] + a.literal + spaced(op_char(op1.typ)) + b.literal
            + seq![')']);
    }
}

/// The tree of `a op1 (b op2 c)`.
pub open spec fn right_chain(
    a: Seq<char>,
    op1: TokenType,
    b: Seq<char>,
    op2: TokenType,
    c: Seq<char>,
) -> Tree {
    Tree::Infix {
        left: Box::new(Tree::Name(a)),
        op: op1,
        right: Box::new(
            Tree::Infix {
                left: Box::new(Tree::Name(b)),
                op: op2,
                right: Box::new(Tree::Name(c)),
            },
        ),
    }
}

/// A chain `a ^ b ^ c` groups to the right: its tree is that of `a ^ (b ^
/// c)`, no token is left, and the rendering is `(a ^ (b ^ c))`.
pub proof fn lemma_right_associative_chain(
    a: Lexeme,
    op1: Lexeme,
    b: Lexeme,
    op2: Lexeme,
    c: Lexeme,
)
    requires
        a.typ == TokenType::Name,
        b.typ == TokenType::Name,
        c.typ == TokenType::Name,
        op1.typ == TokenType::Caret,
        op2.typ == TokenType::Caret,
    ensures
        parse_prec(bantam_grammar(), seq![a, op1, b, op2, c], 0) == parsed(
            right_chain(a.literal, op1.typ, b.literal, op2.typ, c.literal),
            Seq::empty(),
        ),
        right_chain(a.literal, op1.typ, b.literal, op2.typ, c.literal).render() == seq!['(']
            + a.literal + spaced('^') + seq!['('] + b.literal + spaced('^') + c.literal
            + seq![')', ')'],
{
    let none = Seq::<Lexeme>::empty();
    let t4 = seq![c] + none;
    let t3 = seq![op2] + t4;
    let t2 = seq![b] + t3;
    let t1 = seq![op1] + t2;
    let t0 = seq![a] + t1;
    assert(t0 =~= seq![a, op1, b, op2, c]);
    lemma_bantam_binding();
    let floor = right_floor(TokenType::Caret);
    let bc = Tree::Infix {
        left: Box::new(Tree::Name(b.literal)),
        op: op2.typ,
        right: Box::new(Tree::Name(c.literal)),
    };
    let abc = right_chain(a.literal, op1.typ, b.literal, op2.typ, c.literal);
    // the right operand of the second operator is the last name
    lemma_name_first(c, none, floor);
    lemma_loop_stops(Tree::Name(c.literal), none, floor);
    // the right operand of the first operator takes the second operator in
    lemma_name_first(b, t3, floor);
    lemma_binary_next(Tree::Name(b.literal), op2, t4, floor);
    lemma_loop_stops(bc, none, floor);
    // the chain, from the left
    lemma_name_first(a, t1, 0);
    lemma_binary_next(Tree::Name(a.literal), op1, t2, 0);
    lemma_loop_stops(abc, none, 0);
    assert(abc.render() =~= seq!['('] + a.literal + spaced('^') + seq!['('] + b.literal
        + spaced('^') + c.literal + seq![')', ')']) by {
        assert(Tree::Name(a.literal).render() == a.literal);
        assert(Tree::Name(b.literal).render() == b.literal);
        assert(Tree::Name(c.literal).render() == c.literal);
        assert(bc.render() =~= seq!['('] + b.literal + spaced('^') + c.literal + seq![')']);
    }
}

/// Under the reference grammar, an expression before `=` at the outermost
/// floor becomes the target of an assignment. It must be a name, whatever
/// follows; the value is then read down to the level of assignment itself.
pub proof fn lemma_assign_next(left: Tree, op: Lexeme, rest: Seq<Lexeme>)
    requires
        op.typ == TokenType::Assign,
    ensures
        parse_loop(bantam_grammar(), left, seq![op] + rest, 0) == match left {
            Tree::Name(name) => match parse_prec(bantam_grammar(), rest, 0) {
                Err(e) => Err(e),
                Ok((right, after)) => parse_loop(
                    bantam_grammar(),
                    Tree::Assign { name, right: Box::new(right) },
                    after,
                    0,
                ),
            },
            _ => failed(ParseError::InvalidAssignmentTarget),
        },
{
    let toks = seq![op] + rest;
    assert(toks.drop_first() =~= rest);
    lemma_bantam_binding();
    lemma_parse_loop_unfolds(bantam_grammar(), left, toks, 0);
}

/// A chain `a = b = c` groups to the right: its tree is that of `a = (b =
/// c)`, no token is left, and the rendering is `(a = (b = c))`.
pub proof fn lemma_assignment_chain(a: Lexeme, op1: Lexeme, b: Lexeme, op2: Lexeme, c: Lexeme)
    requires
        a.typ == TokenType::Name,
        b.typ == TokenType::Name,
        c.typ == TokenType::Name,
        op1.typ == TokenType::Assign,
        op2.typ == TokenType::Assign,
    ensures
        parse_prec(bantam_grammar(), seq![a, op1, b, op2, c], 0) == parsed(
            Tree::Assign {
                name: a.literal,
                right: Box::new(
                    Tree::Assign { name: b.literal, right: Box::new(Tree::Name(c.literal)) },
                ),
            },
            Seq::empty(),
        ),
        (Tree::Assign {
            name: a.literal,
            right: Box::new(
                Tree::Assign { name: b.literal, right: Box::new(Tree::Name(c.literal)) },
            ),
        }).render() == seq!['('] + a.literal + spaced('=') + seq!['('] + b.literal + spaced('=')
            + c.literal + seq![')', ')'],
{
    let none = Seq::<Lexeme>::empty();
    let t4 = seq![c] + none;
    let t3 = seq![op2] + t4;
    let t2 = seq![b] + t3;
    let t1 = seq![op1] + t2;
    let t0 = seq![a] + t1;
    assert(t0 =~= seq![a, op1, b, op2, c]);
    lemma_bantam_binding();
    let bc = Tree::Assign { name: b.literal, right: Box::new(Tree::Name(c.literal)) };
    let abc = Tree::Assign { name: a.literal, right: Box::new(bc) };
    // the value of the second assignment is the last name
    lemma_name_first(c, none, 0);
    lemma_loop_stops(Tree::Name(c.literal), none, 0);
    // the value of the first assignment is the second assignment
    lemma_name_first(b, t3, 0);
    lemma_assign_next(Tree::Name(b.literal), op2, t4);
    lemma_loop_stops(bc, none, 0);
    // the chain, from the left
    lemma_name_first(a, t1, 0);
    lemma_assign_next(Tree::Name(a.literal), op1, t2);
    lemma_loop_stops(abc, none, 0);
    assert(abc.render() =~= seq!['('] + a.literal + spaced('=') + seq!['('] + b.literal
        + spaced('=') + c.literal + seq![')', ')']) by {
        assert(Tree::Name(c.literal).render() == c.literal);
        assert(bc.render() =~= seq!['('] + b.literal + spaced('=') + c.literal + seq![')']);
    }
}

/// A required token that is the upcoming one is taken.
pub proof fn lemma_expect_taken(tok: Lexeme, rest: Seq<Lexeme>)
    ensures
        expect(seq![tok] + rest, tok.typ) == Ok::<Seq<Lexeme>, ParseError>(rest),
{
    assert((seq![tok] + rest).drop_first() =~= rest);
}

/// Under the reference grammar, an expression before `?` under a floor
/// below the conditional becomes the condition: the first branch is read as
/// a whole expression, a colon is taken, the second branch is read down to
/// the level of the conditional itself, and the conditional is extended
/// over what follows.
pub proof fn lemma_cond_next(left: Tree, op: Lexeme, rest: Seq<Lexeme>, floor: nat)
    requires
        op.typ == TokenType::Question,
        floor < Precedence::Conditional.spec_level(),
    ensures
        parse_loop(bantam_grammar(), left, seq![op] + rest, floor) == match parse_prec(
            bantam_grammar(),
            rest,
            0,
        ) {
            Err(e) => Err(e),
            Ok((then_arm, after)) => match expect(after, TokenType::Colon) {
                Err(e) => Err(e),
                Ok(after) => match parse_prec(bantam_grammar(), after, 1) {
                    Err(e) => Err(e),
                    Ok((else_arm, last)) => parse_loop(
                        bantam_grammar(),
                        Tree::Cond {
                            cond: Box::new(left),
                            then_arm: Box::new(then_arm),
                            else_arm: Box::new(else_arm),
                        },
                        last,
                        floor,
                    ),
                },
            },
        },
{
    let g = bantam_grammar();
    let toks = seq![op] + rest;
    assert(toks.drop_first() =~= rest);
    lemma_bantam_binding();
    lemma_parse_loop_unfolds(g, left, toks, floor);
    lemma_parse_cond_unfolds(g, g.infix[TokenType::Question], left, op, rest);
}

/// Under the reference grammar, an expression that starts with `(` is the
/// expression up to the matching `)`, extended over what follows.
pub proof fn lemma_group_first(open: Lexeme, rest: Seq<Lexeme>, floor: nat)
    requires
        open.typ == TokenType::LeftParen,
    ensures
        parse_prec(bantam_grammar(), seq![open] + rest, floor) == match parse_prec(
            bantam_grammar(),
            rest,
            0,
        ) {
            Err(e) => Err(e),
            Ok((inner, after)) => match expect(after, TokenType::RightParen) {
                Err(e) => Err(e),
                Ok(after) => parse_loop(bantam_grammar(), inner, after, floor),
            },
        },
{
    let toks = seq![open] + rest;
    assert(toks.drop_first() =~= rest);
    lemma_parse_prec_unfolds(bantam_grammar(), toks, floor);
}

/// Under the reference grammar, an expression before `(` becomes the
/// function of a call: there is no argument where `)` follows at once, else
/// a list of arguments up to `)`, and the call is extended over what
/// follows.
pub proof fn lemma_call_next(left: Tree, open: Lexeme, rest: Seq<Lexeme>, floor: nat)
    requires
        open.typ == TokenType::LeftParen,
        floor < Precedence::Call.spec_level(),
    ensures
        parse_loop(bantam_grammar(), left, seq![open] + rest, floor) == if first(rest).typ
            == TokenType::RightParen {
            parse_loop(
                bantam_grammar(),
                Tree::Call { func: Box::new(left), args: Seq::empty() },
                advance(rest),
                floor,
            )
        } else {
            match parse_args(bantam_grammar(), rest) {
                Err(e) => Err(e),
                Ok((args, after)) => match expect(after, TokenType::RightParen) {
                    Err(e) => Err(e),
                    Ok(after) => parse_loop(
                        bantam_grammar(),
                        Tree::Call { func: Box::new(left), args },
                        after,
                        floor,
                    ),
                },
            }
        },
{
    let toks = seq![open] + rest;
    assert(toks.drop_first() =~= rest);
    lemma_bantam_binding();
    lemma_parse_loop_unfolds(bantam_grammar(), left, toks, floor);
}

/// Under the reference grammar, a name before `stop`, a token that binds to
/// nothing before it, is an expression by itself under every floor.
pub proof fn lemma_name_alone(name: Lexeme, rest: Seq<Lexeme>, floor: nat)
    requires
        name.typ == TokenType::Name,
        rest.len() == 0 || bantam_grammar().binding(rest[0].typ) <= floor,
    ensures
        parse_prec(bantam_grammar(), seq![name] + rest, floor) == parsed(
            Tree::Name(name.literal),
            rest,
        ),
{
    lemma_name_first(name, rest, floor);
    lemma_loop_stops(Tree::Name(name.literal), rest, floor);
}

/// A chain `a ? b : c ? d : e` groups to the right in its second branch:
/// its tree is that of `a ? b : (c ? d : e)`, no token is left, and the
/// rendering is `(a ? b : (c ? d : e))`.
pub proof fn lemma_conditional_chain(toks: Seq<Lexeme>)
    requires
        toks.len() == 9,
        forall|i: int| 0 <= i < 9 && i % 2 == 0 ==> (#[trigger] toks[i]).typ == TokenType::Name,
        toks[1].typ == TokenType::Question,
        toks[3].typ == TokenType::Colon,
        toks[5].typ == TokenType::Question,
        toks[7].typ == TokenType::Colon,
    ensures
        parse_prec(bantam_grammar(), toks, 0) == parsed(
            conditional_chain(
                toks[0].literal,
                toks[2].literal,
                toks[4].literal,
                toks[6].literal,
                toks[8].literal,
            ),
            Seq::empty(),
        ),
        conditional_chain(
            toks[0].literal,
            toks[2].literal,
            toks[4].literal,
            toks[6].literal,
            toks[8].literal,
        ).render() == seq!['('] + toks[0].literal + spaced('?') + toks[2].literal + spaced(':')
            + seq!['('] + toks[4].literal + spaced('?') + toks[6].literal + spaced(':')
            + toks[8].literal + seq![')', ')'],
{
    let none = Seq::<Lexeme>::empty();
    let t8 = seq![toks[8]] + none;
    let t7 = seq![toks[7]] + t8;
    let t6 = seq![toks[6]] + t7;
    let t5 = seq![toks[5]] + t6;
    let t4 = seq![toks[4]] + t5;
    let t3 = seq![toks[3]] + t4;
    let t2 = seq![toks[2]] + t3;
    let t1 = seq![toks[1]] + t2;
    let t0 = seq![toks[0]] + t1;
    assert(t0 =~= toks);
    assert(toks[0].typ == TokenType::Name && toks[2].typ == TokenType::Name && toks[4].typ
        == TokenType::Name && toks[6].typ == TokenType::Name && toks[8].typ == TokenType::Name);
    lemma_bantam_binding();
    let (a, b, c, d, e) = (
        Tree::Name(toks[0].literal),
        Tree::Name(toks[2].literal),
        Tree::Name(toks[4].literal),
        Tree::Name(toks[6].literal),
        Tree::Name(toks[8].literal),
    );
    let inner = Tree::Cond { cond: Box::new(c), then_arm: Box::new(d), else_arm: Box::new(e) };
    let whole = Tree::Cond {
        cond: Box::new(a),
        then_arm: Box::new(b),
        else_arm: Box::new(inner),
    };
    // the inner conditional, read under the floor of the outer one
    lemma_name_alone(toks[6], t7, 0);
    lemma_expect_taken(toks[7], t8);
    lemma_name_alone(toks[8], none, 1);
    lemma_name_first(toks[4], t5, 1);
    lemma_cond_next(c, toks[5], t6, 1);
    lemma_loop_stops(inner, none, 1);
    // the outer conditional
    lemma_name_alone(toks[2], t3, 0);
    lemma_expect_taken(toks[3], t4);
    lemma_name_first(toks[0], t1, 0);
    lemma_cond_next(a, toks[1], t2, 0);
    lemma_loop_stops(whole, none, 0);
    assert(whole.render() =~= seq!['('] + toks[0].literal + spaced('?') + toks[2].literal
        + spaced(':') + seq!['('] + toks[4].literal + spaced('?') + toks[6].literal + spaced(':')
        + toks[8].literal + seq![')', ')']) by {
        assert(a.render() == toks[0].literal);
        assert(b.render() == toks[2].literal);
        assert(c.render() == toks[4].literal);
        assert(d.render() == toks[6].literal);
        assert(e.render() == toks[8].literal);
        assert(inner.render() =~= seq!['('] + toks[4].literal + spaced('?') + toks[6].literal
            + spaced(':') + toks[8].literal + seq![')']);
    }
}

/// The tree of `a ? b : (c ? d : e)`.
pub open spec fn conditional_chain(
    a: Seq<char>,
    b: Seq<char>,
    c: Seq<char>,
    d: Seq<char>,
    e: Seq<char>,
) -> Tree {
    Tree::Cond {
        cond: Box::new(Tree::Name(a)),
        then_arm: Box::new(Tree::Name(b)),
        else_arm: Box::new(
            Tree::Cond {
                cond: Box::new(Tree::Name(c)),
                then_arm: Box::new(Tree::Name(d)),
                else_arm: Box::new(Tree::Name(e)),
            },
        ),
    }
}

/// Parentheses override the levels: `a * (b + c)` has the tree of a product
/// whose right operand is the sum, no token is left, and the rendering is
/// `(a * (b + c))`.
pub proof fn lemma_grouping_overrides(toks: Seq<Lexeme>)
    requires
        toks.len() == 7,
        toks[0].typ == TokenType::Name,
        toks[1].typ == TokenType::Asterisk,
        toks[2].typ == TokenType::LeftParen,
        toks[3].typ == TokenType::Name,
        toks[4].typ == TokenType::Plus,
        toks[5].typ == TokenType::Name,
        toks[6].typ == TokenType::RightParen,
    ensures
        parse_prec(bantam_grammar(), toks, 0) == parsed(
            right_chain(
                toks[0].literal,
                TokenType::Asterisk,
                toks[3].literal,
                TokenType::Plus,
                toks[5].literal,
            ),
            Seq::empty(),
        ),
        right_chain(
            toks[0].literal,
            TokenType::Asterisk,
            toks[3].literal,
            TokenType::Plus,
            toks[5].literal,
        ).render() == seq!['('] + toks[0].literal + spaced('*') + seq!['('] + toks[3].literal
            + spaced('+') + toks[5].literal + seq![')', ')'],
{
    let none = Seq::<Lexeme>::empty();
    let t6 = seq![toks[6]] + none;
    let t5 = seq![toks[5]] + t6;
    let t4 = seq![toks[4]] + t5;
    let t3 = seq![toks[3]] + t4;
    let t2 = seq![toks[2]] + t3;
    let t1 = seq![toks[1]] + t2;
    let t0 = seq![toks[0]] + t1;
    assert(t0 =~= toks);
    lemma_bantam_binding();
    let (a, b, c) = (
        Tree::Name(toks[0].literal),
        Tree::Name(toks[3].literal),
        Tree::Name(toks[5].literal),
    );
    let sum = Tree::Infix { left: Box::new(b), op: TokenType::Plus, right: Box::new(c) };
    let product = Tree::Infix { left: Box::new(a), op: TokenType::Asterisk, right: Box::new(sum) };
    // the sum between the parentheses
    lemma_name_alone(toks[5], t6, 3);
    lemma_name_first(toks[3], t4, 0);
    lemma_binary_next(b, toks[4], t5, 0);
    lemma_loop_stops(sum, t6, 0);
    // the group as the right operand of the product
    lemma_expect_taken(toks[6], none);
    lemma_group_first(toks[2], t3, 4);
    lemma_loop_stops(sum, none, 4);
    // the product
    lemma_name_first(toks[0], t1, 0);
    lemma_binary_next(a, toks[1], t2, 0);
    lemma_loop_stops(product, none, 0);
    assert(product.render() =~= seq!['('] + toks[0].literal + spaced('*') + seq!['(']
        + toks[3].literal + spaced('+') + toks[5].literal + seq![')', ')']) by {
        assert(a.render() == toks[0].literal);
        assert(b.render() == toks[3].literal);
        assert(c.render() == toks[5].literal);
        assert(sum.render() =~= seq!['('] + toks[3].literal + spaced('+') + toks[5].literal
            + seq![')']);
    }
}

/// A call without arguments: `a()` has the tree of a call of `a` with an
/// empty list, no token is left, and the rendering is `a()`.
pub proof fn lemma_call_without_arguments(a: Lexeme, open: Lexeme, close: Lexeme)
    requires
        a.typ == TokenType::Name,
        open.typ == TokenType::LeftParen,
        close.typ == TokenType::RightParen,
    ensures
        parse_prec(bantam_grammar(), seq![a, open, close], 0) == parsed(
            Tree::Call { func: Box::new(Tree::Name(a.literal)), args: Seq::empty() },
            Seq::empty(),
        ),
        (Tree::Call { func: Box::new(Tree::Name(a.literal)), args: Seq::empty() }).render()
            == a.literal + seq!['(', ')'],
{
    let none = Seq::<Lexeme>::empty();
    let t2 = seq![close] + none;
    let t1 = seq![open] + t2;
    let t0 = seq![a] + t1;
    assert(t0 =~= seq![a, open, close]);
    assert(advance(t2) =~= none);
    lemma_bantam_binding();
    let call = Tree::Call { func: Box::new(Tree::Name(a.literal)), args: Seq::empty() };
    lemma_name_first(a, t1, 0);
    lemma_call_next(Tree::Name(a.literal), open, t2, 0);
    lemma_loop_stops(call, none, 0);
    assert(call.render() =~= a.literal + seq!['(', ')']) by {
        assert(Tree::Name(a.literal).render() == a.literal);
        assert(render_list(Seq::<Tree>::empty()) =~= Seq::<char>::empty());
    }
}

/// A call with two arguments keeps their order: `a(b, c)` has the tree of a
/// call of `a` with the list `b`, `c`, no token is left, and the rendering
/// is `a(b, c)`.
pub proof fn lemma_call_with_two_arguments(toks: Seq<Lexeme>)
    requires
        toks.len() == 6,
        toks[0].typ == TokenType::Name,
        toks[1].typ == TokenType::LeftParen,
        toks[2].typ == TokenType::Name,
        toks[3].typ == TokenType::Comma,
        toks[4].typ == TokenType::Name,
        toks[5].typ == TokenType::RightParen,
    ensures
        parse_prec(bantam_grammar(), toks, 0) == parsed(
            Tree::Call {
                func: Box::new(Tree::Name(toks[0].literal)),
                args: seq![Tree::Name(toks[2].literal), Tree::Name(toks[4].literal)],
            },
            Seq::empty(),
        ),
        (Tree::Call {
            func: Box::new(Tree::Name(toks[0].literal)),
            args: seq![Tree::Name(toks[2].literal), Tree::Name(toks[4].literal)],
        }).render() == toks[0].literal + seq!['('] + toks[2].literal + seq![',', ' ']
            + toks[4].literal + seq![')'],
{
    let g = bantam_grammar();
    let none = Seq::<Lexeme>::empty();
    let t5 = seq![toks[5]] + none;
    let t4 = seq![toks[4]] + t5;
    let t3 = seq![toks[3]] + t4;
    let t2 = seq![toks[2]] + t3;
    let t1 = seq![toks[1]] + t2;
    let t0 = seq![toks[0]] + t1;
    assert(t0 =~= toks);
    assert(t3.drop_first() =~= t4);
    lemma_bantam_binding();
    let (a, b, c) = (
        Tree::Name(toks[0].literal),
        Tree::Name(toks[2].literal),
        Tree::Name(toks[4].literal),
    );
    let call = Tree::Call { func: Box::new(a), args: seq![b, c] };
    // the list of arguments, from its end
    lemma_name_alone(toks[4], t5, 0);
    lemma_parse_args_unfolds(g, t4);
    lemma_name_alone(toks[2], t3, 0);
    lemma_parse_args_unfolds(g, t2);
    assert(seq![b] + seq![c] =~= seq![b, c]);
    // the call
    lemma_expect_taken(toks[5], none);
    lemma_name_first(toks[0], t1, 0);
    lemma_call_next(a, toks[1], t2, 0);
    lemma_loop_stops(call, none, 0);
    assert(call.render() =~= toks[0].literal + seq!['('] + toks[2].literal + seq![',', ' ']
        + toks[4].literal + seq![')']) by {
        assert(a.render() == toks[0].literal);
        assert(b.render() == toks[2].literal);
        assert(c.render() == toks[4].literal);
        assert(seq![b, c].drop_last() =~= seq![b]);
        assert(render_list(seq![b]) == b.render());
        assert(render_list(seq![b, c]) =~= toks[2].literal + seq![',', ' '] + toks[4].literal);
    }
}

/// Calls chain from the left: `a(b)(c)` has the tree of a call, with the
/// argument `c`, of the call of `a` with the argument `b`; no token is left,
/// and the rendering is `a(b)(c)`.
pub proof fn lemma_chained_calls(toks: Seq<Lexeme>)
    requires
        toks.len() == 7,
        toks[0].typ == TokenType::Name,
        toks[1].typ == TokenType::LeftParen,
        toks[2].typ == TokenType::Name,
        toks[3].typ == TokenType::RightParen,
        toks[4].typ == TokenType::LeftParen,
        toks[5].typ == TokenType::Name,
        toks[6].typ == TokenType::RightParen,
    ensures
        parse_prec(bantam_grammar(), toks, 0) == parsed(
            Tree::Call {
                func: Box::new(
                    Tree::Call {
                        func: Box::new(Tree::Name(toks[0].literal)),
                        args: seq![Tree::Name(toks[2].literal)],
                    },
                ),
                args: seq![Tree::Name(toks[5].literal)],
            },
            Seq::empty(),
        ),
        (Tree::Call {
            func: Box::new(
                Tree::Call {
                    func: Box::new(Tree::Name(toks[0].literal)),
                    args: seq![Tree::Name(toks[2].literal)],
                },
            ),
            args: seq![Tree::Name(toks[5].literal)],
        }).render() == toks[0].literal + seq!['('] + toks[2].literal + seq![')', '(']
            + toks[5].literal + seq![')'],
{
    let g = bantam_grammar();
    let none = Seq::<Lexeme>::empty();
    let t6 = seq![toks[6]] + none;
    let t5 = seq![toks[5]] + t6;
    let t4 = seq![toks[4]] + t5;
    let t3 = seq![toks[3]] + t4;
    let t2 = seq![toks[2]] + t3;
    let t1 = seq![toks[1]] + t2;
    let t0 = seq![toks[0]] + t1;
    assert(t0 =~= toks);
    lemma_bantam_binding();
    let (a, b, c) = (
        Tree::Name(toks[0].literal),
        Tree::Name(toks[2].literal),
        Tree::Name(toks[5].literal),
    );
    let inner = Tree::Call { func: Box::new(a), args: seq![b] };
    let outer = Tree::Call { func: Box::new(inner), args: seq![c] };
    // the second call
    lemma_name_alone(toks[5], t6, 0);
    lemma_parse_args_unfolds(g, t5);
    lemma_expect_taken(toks[6], none);
    lemma_call_next(inner, toks[4], t5, 0);
    lemma_loop_stops(outer, none, 0);
    // the first call
    lemma_name_alone(toks[2], t3, 0);
    lemma_parse_args_unfolds(g, t2);
    lemma_expect_taken(toks[3], t4);
    lemma_name_first(toks[0], t1, 0);
    lemma_call_next(a, toks[1], t2, 0);
    assert(outer.render() =~= toks[0].literal + seq!['('] + toks[2].literal + seq![')', '(']
        + toks[5].literal + seq![')']) by {
        assert(a.render() == toks[0].literal);
        assert(b.render() == toks[2].literal);
        assert(c.render() == toks[5].literal);
        assert(render_list(seq![b]) == b.render());
        assert(render_list(seq![c]) == c.render());
        assert(inner.render() =~= toks[0].literal + seq!['('] + toks[2].literal + seq![')']);
    }
}

/// The tree of `a = ((b + (c * (d ^ e))) - (f / g))`.
pub open spec fn mixed_levels(names: Seq<Seq<char>>) -> Tree
    recommends
        names.len() == 7,
{
    let power = Tree::Infix {
        left: Box::new(Tree::Name(names[3])),
        op: TokenType::Caret,
        right: Box::new(Tree::Name(names[4])),
    };
    let product = Tree::Infix {
        left: Box::new(Tree::Name(names[2])),
        op: TokenType::Asterisk,
        right: Box::new(power),
    };
    let sum = Tree::Infix {
        left: Box::new(Tree::Name(names[1])),
        op: TokenType::Plus,
        right: Box::new(product),
    };
    let quotient = Tree::Infix {
        left: Box::new(Tree::Name(names[5])),
        op: TokenType::Slash,
        right: Box::new(Tree::Name(names[6])),
    };
    let difference = Tree::Infix {
        left: Box::new(sum),
        op: TokenType::Minus,
        right: Box::new(quotient),
    };
    Tree::Assign { name: names[0], right: Box::new(difference) }
}

/// The levels at work together: `a = b + c * d ^ e - f / g` has the tree of
/// `a = ((b + (c * (d ^ e))) - (f / g))`, no token is left, and the
/// rendering is `(a = ((b + (c * (d ^ e))) - (f / g)))`.
pub proof fn lemma_mixed_levels(toks: Seq<Lexeme>)
    requires
        toks.len() == 13,
        forall|i: int| 0 <= i < 13 && i % 2 == 0 ==> (#[trigger] toks[i]).typ == TokenType::Name,
        toks[1].typ == TokenType::Assign,
        toks[3].typ == TokenType::Plus,
        toks[5].typ == TokenType::Asterisk,
        toks[7].typ == TokenType::Caret,
        toks[9].typ == TokenType::Minus,
        toks[11].typ == TokenType::Slash,
    ensures
        parse_prec(bantam_grammar(), toks, 0) == parsed(
            mixed_levels(Seq::new(7, |i: int| toks[2 * i].literal)),
            Seq::empty(),
        ),
        mixed_levels(Seq::new(7, |i: int| toks[2 * i].literal)).render() == seq!['(']
            + toks[0].literal + spaced('=') + seq!['(', '('] + toks[2].literal + spaced('+')
            + seq!['('] + toks[4].literal + spaced('*') + seq!['('] + toks[6].literal + spaced('^')
            + toks[8].literal + seq![')', ')', ')'] + spaced('-') + seq!['('] + toks[10].literal
            + spaced('/') + toks[12].literal + seq![')', ')', ')'],
{
    let none = Seq::<Lexeme>::empty();
    let t12 = seq![toks[12]] + none;
    let t11 = seq![toks[11]] + t12;
    let t10 = seq![toks[10]] + t11;
    let t9 = seq![toks[9]] + t10;
    let t8 = seq![toks[8]] + t9;
    let t7 = seq![toks[7]] + t8;
    let t6 = seq![toks[6]] + t7;
    let t5 = seq![toks[5]] + t6;
    let t4 = seq![toks[4]] + t5;
    let t3 = seq![toks[3]] + t4;
    let t2 = seq![toks[2]] + t3;
    let t1 = seq![toks[1]] + t2;
    let t0 = seq![toks[0]] + t1;
    assert(t0 =~= toks);
    assert(toks[0].typ == TokenType::Name && toks[2].typ == TokenType::Name && toks[4].typ
        == TokenType::Name && toks[6].typ == TokenType::Name && toks[8].typ == TokenType::Name
        && toks[10].typ == TokenType::Name && toks[12].typ == TokenType::Name);
    lemma_bantam_binding();
    let names = Seq::new(7, |i: int| toks[2 * i].literal);
    let (a, b, c, d, e, f, g) = (
        Tree::Name(names[0]),
        Tree::Name(names[1]),
        Tree::Name(names[2]),
        Tree::Name(names[3]),
        Tree::Name(names[4]),
        Tree::Name(names[5]),
        Tree::Name(names[6]),
    );
    let power = Tree::Infix { left: Box::new(d), op: TokenType::Caret, right: Box::new(e) };
    let product = Tree::Infix {
        left: Box::new(c),
        op: TokenType::Asterisk,
        right: Box::new(power),
    };
    let sum = Tree::Infix { left: Box::new(b), op: TokenType::Plus, right: Box::new(product) };
    let quotient = Tree::Infix { left: Box::new(f), op: TokenType::Slash, right: Box::new(g) };
    let difference = Tree::Infix {
        left: Box::new(sum),
        op: TokenType::Minus,
        right: Box::new(quotient),
    };
    let whole = mixed_levels(names);
    // d ^ e, as the right operand of `*`
    lemma_name_alone(toks[8], t9, 4);
    lemma_name_first(toks[6], t7, 4);
    lemma_binary_next(d, toks[7], t8, 4);
    lemma_loop_stops(power, t9, 4);
    // c * (d ^ e), as the right operand of `+`
    lemma_name_first(toks[4], t5, 3);
    lemma_binary_next(c, toks[5], t6, 3);
    lemma_loop_stops(product, t9, 3);
    // f / g, as the right operand of `-`
    lemma_name_alone(toks[12], none, 4);
    lemma_name_first(toks[10], t11, 3);
    lemma_binary_next(f, toks[11], t12, 3);
    lemma_loop_stops(quotient, none, 3);
    // the value of the assignment
    lemma_name_first(toks[2], t3, 0);
    lemma_binary_next(b, toks[3], t4, 0);
    lemma_binary_next(sum, toks[9], t10, 0);
    lemma_loop_stops(difference, none, 0);
    // the assignment
    lemma_name_first(toks[0], t1, 0);
    lemma_assign_next(a, toks[1], t2);
    lemma_loop_stops(whole, none, 0);
    assert(whole.render() =~= seq!['('] + toks[0].literal + spaced('=') + seq!['(', '(']
        + toks[2].literal + spaced('+') + seq!['('] + toks[4].literal + spaced('*') + seq!['(']
        + toks[6].literal + spaced('^') + toks[8].literal + seq![')', ')', ')'] + spaced('-')
        + seq!['('] + toks[10].literal + spaced('/') + toks[12].literal + seq![')', ')', ')'])
        by {
        assert(b.render() == names[1] && c.render() == names[2] && d.render() == names[3]);
        assert(e.render() == names[4] && f.render() == names[5] && g.render() == names[6]);
        assert(power.render() =~= seq!['('] + names[3] + spaced('^') + names[4] + seq![')']);
        assert(product.render() =~= seq!['('] + names[2] + spaced('*') + power.render() + seq![
            ')',
        ]);
        assert(sum.render() =~= seq!['('] + names[1] + spaced('+') + product.render() + seq![')']);
        assert(quotient.render() =~= seq!['('] + names[5] + spaced('/') + names[6] + seq![')']);
        assert(difference.render() =~= seq!['('] + sum.render() + spaced('-')
            + quotient.render() + seq![')']);
    }
}

/// The four prefix operators.
pub open spec fn is_prefix_operator(op: TokenType) -> bool {
    op == TokenType::Plus || op == TokenType::Minus || op == TokenType::Tilde || op
        == TokenType::Bang
}

/// The text `s`, `n` times over.
pub open spec fn repeat(s: Seq<char>, n: nat) -> Seq<char>
    decreases n,
{
    if n == 0 {
        Seq::empty()
    } else {
        s + repeat(s, (n - 1) as nat)
    }
}

/// One more copy may be put at either end.
pub proof fn lemma_repeat_either_end(s: Seq<char>, n: nat)
    ensures
        repeat(s, n) + s == repeat(s, n + 1),
    decreases n,
{
    if n == 0 {
        assert(repeat(s, 0) + s =~= s + repeat(s, 0));
    } else {
        lemma_repeat_either_end(s, (n - 1) as nat);
        assert(repeat(s, n) + s =~= s + (repeat(s, (n - 1) as nat) + s));
    }
}

/// An opening parenthesis and the operator's character for each of `ops`,
/// in order.
pub open spec fn openers(ops: Seq<Lexeme>) -> Seq<char>
    decreases ops.len(),
{
    if ops.len() == 0 {
        Seq::empty()
    } else {
        seq!['(', op_char(ops[0].typ)] + openers(ops.drop_first())
    }
}

/// `operand` under the prefix operators `ops`, the first of them outermost.
pub open spec fn prefix_chain(ops: Seq<Lexeme>, operand: Tree) -> Tree
    decreases ops.len(),
{
    if ops.len() == 0 {
        operand
    } else {
        Tree::Prefix {
            op: ops[0].typ,
            right: Box::new(prefix_chain(ops.drop_first(), operand)),
        }
    }
}

/// The rendering of an operand under prefix operators: each operator opens
/// a parenthesis before itself, and all of them close after the operand.
pub proof fn lemma_prefix_chain_render(ops: Seq<Lexeme>, operand: Tree)
    ensures
        prefix_chain(ops, operand).render() == openers(ops) + operand.render() + repeat(
            seq![')'],
            ops.len(),
        ),
    decreases ops.len(),
{
    let close = seq![')'];
    if ops.len() == 0 {
        assert(openers(ops) + operand.render() + repeat(close, 0) =~= operand.render());
    } else {
        let rest = ops.drop_first();
        let inner = prefix_chain(rest, operand);
        let outer = Tree::Prefix { op: ops[0].typ, right: Box::new(inner) };
        lemma_prefix_chain_render(rest, operand);
        lemma_repeat_either_end(close, rest.len());
        assert(outer.render() == seq!['(', op_char(ops[0].typ)] + inner.render() + close);
        assert(outer.render() =~= openers(ops) + operand.render() + (repeat(close, rest.len())
            + close));
    }
}

/// Prefix operators before a name nest from the right: the first operator
/// is outermost, whatever the floor, and no token is left. So `~ ! - + a`
/// is rendered as `(~(!(-(+a))))`.
pub proof fn lemma_prefix_chain(ops: Seq<Lexeme>, name: Lexeme, floor: nat)
    requires
        forall|i: int| 0 <= i < ops.len() ==> is_prefix_operator(#[trigger] ops[i].typ),
        name.typ == TokenType::Name,
    ensures
        parse_prec(bantam_grammar(), ops + seq![name], floor) == parsed(
            prefix_chain(ops, Tree::Name(name.literal)),
            Seq::empty(),
        ),
        prefix_chain(ops, Tree::Name(name.literal)).render() == openers(ops) + name.literal
            + repeat(seq![')'], ops.len()),
    decreases ops.len(),
{
    lemma_prefix_chain_render(ops, Tree::Name(name.literal));
    assert(Tree::Name(name.literal).render() == name.literal);
    let g = bantam_grammar();
    let none = Seq::<Lexeme>::empty();
    lemma_bantam_binding();
    if ops.len() == 0 {
        assert(ops + seq![name] =~= seq![name] + none);
        lemma_name_first(name, none, floor);
        lemma_loop_stops(Tree::Name(name.literal), none, floor);
    } else {
        let toks = ops + seq![name];
        let inner = prefix_chain(ops.drop_first(), Tree::Name(name.literal));
        assert(toks.drop_first() =~= ops.drop_first() + seq![name]);
        assert(is_prefix_operator(ops[0].typ));
        lemma_prefix_chain(ops.drop_first(), name, Precedence::Prefix.spec_level() as nat);
        lemma_parse_prec_unfolds(g, toks, floor);
        lemma_loop_stops(Tree::Prefix { op: ops[0].typ, right: Box::new(inner) }, none, floor);
    }
}

/// `operand` under `n` postfix operators `!`.
pub open spec fn postfix_chain(operand: Tree, n: nat) -> Tree
    decreases n,
{
    if n == 0 {
        operand
    } else {
        postfix_chain(
            Tree::Postfix { left: Box::new(operand), op: TokenType::Bang },
            (n - 1) as nat,
        )
    }
}

/// The rendering of an operand under `n` postfix operators `!`: `n`
/// parentheses open before the operand, and each operator closes one after
/// itself.
pub proof fn lemma_postfix_chain_render(operand: Tree, n: nat)
    ensures
        postfix_chain(operand, n).render() == repeat(seq!['('], n) + operand.render() + repeat(
            seq!['!', ')'],
            n,
        ),
    decreases n,
{
    let open = seq!['('];
    let close = seq!['!', ')'];
    if n == 0 {
        assert(repeat(open, 0) + operand.render() + repeat(close, 0) =~= operand.render());
    } else {
        let m = (n - 1) as nat;
        let inner = Tree::Postfix { left: Box::new(operand), op: TokenType::Bang };
        lemma_postfix_chain_render(inner, m);
        lemma_repeat_either_end(open, m);
        assert(inner.render() =~= open + operand.render() + close);
        assert(postfix_chain(operand, n).render() =~= (repeat(open, m) + open)
            + operand.render() + (close + repeat(close, m)));
    }
}

/// Postfix operators after an expression nest from the left: the first
/// operator is innermost, under every floor below the postfix level, and
/// no token is left.
pub proof fn lemma_postfix_chain(left: Tree, bangs: Seq<Lexeme>, floor: nat)
    requires
        forall|i: int| 0 <= i < bangs.len() ==> (#[trigger] bangs[i]).typ == TokenType::Bang,
        floor < Precedence::Postfix.spec_level(),
    ensures
        parse_loop(bantam_grammar(), left, bangs, floor) == parsed(
            postfix_chain(left, bangs.len()),
            Seq::empty(),
        ),
    decreases bangs.len(),
{
    let g = bantam_grammar();
    lemma_bantam_binding();
    if bangs.len() == 0 {
        assert(bangs =~= Seq::<Lexeme>::empty());
    } else {
        assert(bangs[0].typ == TokenType::Bang);
        lemma_parse_loop_unfolds(g, left, bangs, floor);
        lemma_postfix_chain(
            Tree::Postfix { left: Box::new(left), op: TokenType::Bang },
            bangs.drop_first(),
            floor,
        );
    }
}

/// Postfix operators after a name nest from the left, and no token is
/// left. So `a ! ! !` is rendered as `(((a!)!)!)`.
pub proof fn lemma_postfix_after_name(name: Lexeme, bangs: Seq<Lexeme>, floor: nat)
    requires
        name.typ == TokenType::Name,
        forall|i: int| 0 <= i < bangs.len() ==> (#[trigger] bangs[i]).typ == TokenType::Bang,
        floor < Precedence::Postfix.spec_level(),
    ensures
        parse_prec(bantam_grammar(), seq![name] + bangs, floor) == parsed(
            postfix_chain(Tree::Name(name.literal), bangs.len()),
            Seq::empty(),
        ),
        postfix_chain(Tree::Name(name.literal), bangs.len()).render() == repeat(
            seq!['('],
            bangs.len(),
        ) + name.literal + repeat(seq!['!', ')'], bangs.len()),
{
    lemma_name_first(name, bangs, floor);
    lemma_postfix_chain(Tree::Name(name.literal), bangs, floor);
    lemma_postfix_chain_render(Tree::Name(name.literal), bangs.len());
    assert(Tree::Name(name.literal).render() == name.literal);
}

/// `~ ! - + a` is rendered as `(~(!(-(+a))))`, and no token is left.
pub proof fn lemma_four_prefix_operators(
    tilde: Lexeme,
    bang: Lexeme,
    minus: Lexeme,
    plus: Lexeme,
    a: Lexeme,
)
    requires
        tilde.typ == TokenType::Tilde,
        bang.typ == TokenType::Bang,
        minus.typ == TokenType::Minus,
        plus.typ == TokenType::Plus,
        a.typ == TokenType::Name,
    ensures
        parse_prec(bantam_grammar(), seq![tilde, bang, minus, plus, a], 0) matches Ok(
            (tree, rest),
        ) && rest.len() == 0 && tree.render() == seq!['(', '~', '(', '!', '(', '-', '(', '+']
            + a.literal + seq![')', ')', ')', ')'],
{
    let ops = seq![tilde, bang, minus, plus];
    let o1 = seq![bang, minus, plus];
    let o2 = seq![minus, plus];
    let o3 = seq![plus];
    let close = seq![')'];
    assert(ops + seq![a] =~= seq![tilde, bang, minus, plus, a]);
    lemma_prefix_chain(ops, a, 0);
    assert(ops.drop_first() =~= o1);
    assert(o1.drop_first() =~= o2);
    assert(o2.drop_first() =~= o3);
    assert(o3.drop_first() =~= Seq::<Lexeme>::empty());
    assert(openers(Seq::<Lexeme>::empty()) =~= Seq::<char>::empty());
    assert(openers(o3) =~= seq!['(', '+']);
    assert(openers(o2) =~= seq!['(', '-', '(', '+']);
    assert(openers(o1) =~= seq!['(', '!', '(', '-', '(', '+']);
    assert(openers(ops) =~= seq!['(', '~', '(', '!', '(', '-', '(', '+']);
    assert(repeat(close, 0) =~= Seq::<char>::empty());
    assert(repeat(close, 1) =~= seq![')']);
    assert(repeat(close, 2) =~= seq![')', ')']);
    assert(repeat(close, 3) =~= seq![')', ')', ')']);
    assert(repeat(close, 4) =~= seq![')', ')', ')', ')']);
}

/// `a ! ! !` is rendered as `(((a!)!)!)`, and no token is left.
pub proof fn lemma_three_postfix_operators(a: Lexeme, b1: Lexeme, b2: Lexeme, b3: Lexeme)
    requires
        a.typ == TokenType::Name,
        b1.typ == TokenType::Bang,
        b2.typ == TokenType::Bang,
        b3.typ == TokenType::Bang,
    ensures
        parse_prec(bantam_grammar(), seq![a, b1, b2, b3], 0) matches Ok((tree, rest))
            && rest.len() == 0 && tree.render() == seq!['(', '(', '('] + a.literal + seq![
            '!',
            ')',
            '!',
            ')',
            '!',
            ')',
        ],
{
    let bangs = seq![b1, b2, b3];
    let open = seq!['('];
    let close = seq!['!', ')'];
    assert(seq![a] + bangs =~= seq![a, b1, b2, b3]);
    lemma_postfix_after_name(a, bangs, 0);
    assert(repeat(open, 0) =~= Seq::<char>::empty());
    assert(repeat(open, 1) =~= seq!['(']);
    assert(repeat(open, 2) =~= seq!['(', '(']);
    assert(repeat(open, 3) =~= seq!['(', '(', '(']);
    assert(repeat(close, 0) =~= Seq::<char>::empty());
    assert(repeat(close, 1) =~= seq!['!', ')']);
    assert(repeat(close, 2) =~= seq!['!', ')', '!', ')']);
    assert(repeat(close, 3) =~= seq!['!', ')', '!', ')', '!', ')']);
}

/// Under any grammar, an assignment whose left-hand side is not a name
/// fails as an invalid target, whatever tokens follow.
pub proof fn lemma_assignment_needs_name(
    g: Grammar,
    p: InfixParselet,
    left: Tree,
    tok: Lexeme,
    toks: Seq<Lexeme>,
)
    requires
        p is Assign,
        !(left is Name),
    ensures
        parse_infix(g, p, left, tok, toks) == failed(ParseError::InvalidAssignmentTarget),
{
}

/// Under any grammar, an assignment to a name succeeds where its
/// right-hand side does, read down to the level of assignment itself, and
/// fails as that does.
pub proof fn lemma_assignment_to_name(
    g: Grammar,
    p: InfixParselet,
    name: Seq<char>,
    tok: Lexeme,
    toks: Seq<Lexeme>,
)
    requires
        p is Assign,
    ensures
        parse_infix(g, p, Tree::Name(name), tok, toks) == match parse_prec(g, toks, 0) {
            Err(e) => failed(e),
            Ok((right, rest)) => parsed(Tree::Assign { name, right: Box::new(right) }, rest),
        },
{
}

} // verus!
