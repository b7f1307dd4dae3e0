use bantam::error::ParseError;
use bantam::expression::Expr;
use bantam::expression::Print;
use bantam::lexer::Lexer;
use bantam::parselets::Binary;
use bantam::parselets::InfixParselet;
use bantam::parselets::Name;
use bantam::parselets::Precedence;
use bantam::parselets::PrefixParselet;
use bantam::parselets::UnaryPostfix;
use bantam::parselets::UnaryPrefix;
use bantam::parser::BantamParser;
use bantam::parser::Parser;
use bantam::token::Token;
use bantam::token::TokenType;

fn printed(source: &str) -> String {
    let mut parser = BantamParser::new(source);
    let expr = parser.parse_expression().unwrap();
    let mut out = String::new();
    expr.print(&mut out);
    out
}

fn test_helper(source: &'static str, expected: &'static str) -> bool {
    printed(source) == expected
}

fn failure(source: &str) -> ParseError {
    match BantamParser::new(source).parse_expression() {
        Ok(_) => panic!("parsed"),
        Err(e) => e,
    }
}

#[test]
fn unary() {
    assert!(test_helper("~ ! - + a", "(~(!(-(+a))))"));
    assert!(test_helper("a ! ! !", "(((a!)!)!)"));
}

#[test]
fn unary_mix_binary() {
    assert!(test_helper("- a * b", "((-a) * b)"));
    assert!(test_helper("! a + b", "((!a) + b)"));
    assert!(test_helper("~ a ^ b", "((~a) ^ b)"));
    assert!(test_helper("- a !", "(-(a!))"));
    assert!(test_helper("! a !", "(!(a!))"));
}

#[test]
fn binary() {
    assert!(test_helper("a = b + c * d ^ e - f / g", "(a = ((b + (c * (d ^ e))) - (f / g)))"));
}

#[test]
fn binary_associativity() {
    assert!(test_helper("a = b = c", "(a = (b = c))"));
    assert!(test_helper("a + b - c", "((a + b) - c)"));
    assert!(test_helper("a * b / c", "((a * b) / c)"));
    assert!(test_helper("a ^ b ^ c", "(a ^ (b ^ c))"));
}

#[test]
fn conditional() {
    assert!(test_helper("a ? b : c ? d : e", "(a ? b : (c ? d : e))"));
    assert!(test_helper("a ? b ? c : d : e", "(a ? (b ? c : d) : e)"));
    assert!(test_helper("a + b ? c * d : e / f", "((a + b) ? (c * d) : (e / f))"));
}

#[test]
fn func_call() {
    assert!(test_helper("a()", "a()"));
    assert!(test_helper("a(b)", "a(b)"));
    assert!(test_helper("a(b,c)", "a(b, c)"));
    assert!(test_helper("a(b)(c)", "a(b)(c)"));
    assert!(test_helper("a(b)+c(d)", "(a(b) + c(d))"));
    assert!(test_helper("a(b?c:d,e+f)", "a((b ? c : d), (e + f))"));
}

#[test]
fn grouping() {
    assert!(test_helper("a + (b + c) + d", "((a + (b + c)) + d)"));
    assert!(test_helper("a ^ (b + c)", "(a ^ (b + c))"));
    assert!(test_helper("( !a ) !", "((!a)!)"));
}

#[test]
fn left_associative_chains() {
    for (op1, op2) in [('+', '+'), ('+', '-'), ('-', '+'), ('-', '-')] {
        let source = format!("a {} b {} c", op1, op2);
        assert_eq!(printed(&source), format!("((a {} b) {} c)", op1, op2));
    }
    for (op1, op2) in [('*', '*'), ('*', '/'), ('/', '*'), ('/', '/')] {
        let source = format!("x {} yy {} zzz", op1, op2);
        assert_eq!(printed(&source), format!("((x {} yy) {} zzz)", op1, op2));
    }
}

#[test]
fn grouping_overrides_precedence() {
    assert_eq!(printed("a * (b + c)"), "(a * (b + c))");
    assert_eq!(printed("(a = b) + c"), "((a = b) + c)");
    assert_eq!(printed("((a))"), "a");
}

#[test]
fn a_single_name() {
    assert_eq!(printed("abc"), "abc");
    assert_eq!(printed("  我们 "), "我们");
}

#[test]
fn call_with_three_arguments_keeps_their_order() {
    assert_eq!(printed("f(x, y, z)"), "f(x, y, z)");
    assert_eq!(printed("f(g(x), h())"), "f(g(x), h())");
}

#[test]
fn the_tree_of_an_assignment() {
    let expr = BantamParser::new("a = -b").parse_expression().unwrap();
    match *expr {
        Expr::Assign { name, right } => {
            assert_eq!(name, "a");
            match *right {
                Expr::Prefix { op, right } => {
                    assert_eq!(op, TokenType::Minus);
                    assert!(matches!(*right, Expr::Name("b")));
                },
                _ => panic!("not a prefix operation"),
            }
        },
        _ => panic!("not an assignment"),
    }
}

#[test]
fn the_tree_of_a_call() {
    let expr = BantamParser::new("f(a, b!)").parse_expression().unwrap();
    match *expr {
        Expr::Call { func, args } => {
            assert!(matches!(*func, Expr::Name("f")));
            assert_eq!(args.len(), 2);
            assert!(matches!(*args[0], Expr::Name("a")));
            assert!(matches!(*args[1], Expr::Postfix { op: TokenType::Bang, .. }));
        },
        _ => panic!("not a call"),
    }
}

#[test]
fn assigning_to_a_compound_fails() {
    assert_eq!(failure("(a+b) = c"), ParseError::InvalidAssignmentTarget);
    assert_eq!(failure("a + b = c"), ParseError::InvalidAssignmentTarget);
    assert_eq!(failure("a() = c"), ParseError::InvalidAssignmentTarget);
}

#[test]
fn the_target_is_checked_whatever_follows() {
    assert_eq!(failure("(a+b) = )"), ParseError::InvalidAssignmentTarget);
    assert_eq!(failure("a + b ="), ParseError::InvalidAssignmentTarget);
    assert_eq!(failure("a! = (b"), ParseError::InvalidAssignmentTarget);
}

#[test]
fn an_assignment_to_a_name_fails_as_its_value_does() {
    assert_eq!(failure("a ="), ParseError::UnparsableToken { found: TokenType::Eof });
    assert_eq!(failure("a = )"), ParseError::UnparsableToken { found: TokenType::RightParen });
    assert_eq!(
        failure("a = (b"),
        ParseError::UnexpectedToken { expected: TokenType::RightParen, found: TokenType::Eof }
    );
    assert_eq!(failure("a = b + c = d"), ParseError::InvalidAssignmentTarget);
}

#[test]
fn unparsable_leading_tokens() {
    assert_eq!(failure(""), ParseError::UnparsableToken { found: TokenType::Eof });
    assert_eq!(failure("* a"), ParseError::UnparsableToken { found: TokenType::Asterisk });
    assert_eq!(failure("a +"), ParseError::UnparsableToken { found: TokenType::Eof });
    assert_eq!(failure("a ? : b"), ParseError::UnparsableToken { found: TokenType::Colon });
    assert_eq!(failure("f(,)"), ParseError::UnparsableToken { found: TokenType::Comma });
}

#[test]
fn unexpected_tokens() {
    assert_eq!(
        failure("(a"),
        ParseError::UnexpectedToken { expected: TokenType::RightParen, found: TokenType::Eof }
    );
    assert_eq!(
        failure("a ? b"),
        ParseError::UnexpectedToken { expected: TokenType::Colon, found: TokenType::Eof }
    );
    assert_eq!(
        failure("a ? b , c"),
        ParseError::UnexpectedToken { expected: TokenType::Colon, found: TokenType::Comma }
    );
    assert_eq!(
        failure("f(a b)"),
        ParseError::UnexpectedToken { expected: TokenType::RightParen, found: TokenType::Name }
    );
}

#[test]
fn parsing_stops_before_what_does_not_belong() {
    let mut parser = BantamParser::new("a + b ) c");
    let expr = parser.parse_expression().unwrap();
    let mut out = String::new();
    expr.print(&mut out);
    assert_eq!(out, "(a + b)");
    assert_eq!(
        parser.parse_expression().err(),
        Some(ParseError::UnparsableToken { found: TokenType::RightParen })
    );
}

#[test]
fn print_appends() {
    let expr = BantamParser::new("a?b:c").parse_expression().unwrap();
    let mut out = String::from("ast: ");
    expr.print(&mut out);
    assert_eq!(out, "ast: (a ? b : c)");
}

#[test]
fn print_a_tree_built_by_hand() {
    let name = |s: &'static str| Box::new(Expr::Name(s));
    let tree = Expr::Call {
        func: Box::new(Expr::Postfix { left: name("f"), op: TokenType::Bang }),
        args: vec![
            Box::new(Expr::Assign { name: "x", right: name("y") }),
            Box::new(Expr::Infix { left: name("a"), op: TokenType::Slash, right: name("b") }),
            Box::new(Expr::Prefix { op: TokenType::Tilde, right: name("c") }),
        ],
    };
    let mut out = String::new();
    tree.print(&mut out);
    assert_eq!(out, "(f!)((x = y), (a / b), (~c))");
}

#[test]
fn the_engine_by_hand() {
    let mut parser = Parser::new(Lexer::new("a , b"));
    assert!(!parser.match_type(TokenType::Comma));
    assert_eq!(parser.consume(), Token { typ: TokenType::Name, literal: "a" });
    assert!(parser.match_type(TokenType::Comma));
    assert_eq!(
        parser.consume_type(TokenType::Colon),
        Err(ParseError::UnexpectedToken { expected: TokenType::Colon, found: TokenType::Name })
    );
    assert_eq!(
        parser.consume_type(TokenType::Name),
        Ok(Token { typ: TokenType::Name, literal: "b" })
    );
    for _ in 0..3 {
        assert_eq!(parser.consume(), Token { typ: TokenType::Eof, literal: "" });
    }
    assert!(parser.match_type(TokenType::Eof));
    assert_eq!(
        parser.consume_type(TokenType::Eof),
        Ok(Token { typ: TokenType::Eof, literal: "" })
    );
}

#[test]
fn a_grammar_of_ones_own() {
    let mut parser = Parser::new(Lexer::new("a - b - c + d"));
    parser.register_prefix(TokenType::Name, PrefixParselet::Name(Name));
    parser.register_infix(TokenType::Minus, InfixParselet::Binary(Binary { prec: 2, right: true }));
    parser.register_infix(TokenType::Plus, InfixParselet::Binary(Binary { prec: 1, right: false }));
    let expr = parser.parse_expression().unwrap();
    let mut out = String::new();
    expr.print(&mut out);
    assert_eq!(out, "((a - (b - c)) + d)");
}

#[test]
fn registering_again_overwrites() {
    let mut parser = Parser::new(Lexer::new("- a ! b"));
    parser.register_prefix(TokenType::Name, PrefixParselet::Name(Name));
    parser.register_prefix(TokenType::Minus, PrefixParselet::UnaryPrefix(UnaryPrefix { prec: 1 }));
    parser.register_infix(TokenType::Bang, InfixParselet::UnaryPostfix(UnaryPostfix { prec: 9 }));
    parser.register_infix(TokenType::Bang, InfixParselet::Binary(Binary { prec: 3, right: false }));
    let expr = parser.parse_expression().unwrap();
    let mut out = String::new();
    expr.print(&mut out);
    assert_eq!(out, "(-(a ! b))");
}

#[test]
fn the_floor_decides_where_an_expression_ends() {
    let mut parser = BantamParser::new("a * b + c");
    let _ = parser.parse_expression().unwrap();
    let mut parser = Parser::new(Lexer::new("a * b + c"));
    parser.register_prefix(TokenType::Name, PrefixParselet::Name(Name));
    parser.register_infix(TokenType::Plus, InfixParselet::Binary(Binary { prec: 3, right: false }));
    parser.register_infix(
        TokenType::Asterisk,
        InfixParselet::Binary(Binary { prec: 4, right: false }),
    );
    let expr = parser.parse_expression_prec(3).unwrap();
    let mut out = String::new();
    expr.print(&mut out);
    assert_eq!(out, "(a * b)");
    assert!(parser.match_type(TokenType::Plus));
}

#[test]
fn precedence_levels() {
    assert_eq!(Precedence::Assignment.level(), 1);
    assert_eq!(Precedence::Conditional.level(), 2);
    assert_eq!(Precedence::Sum.level(), 3);
    assert_eq!(Precedence::Product.level(), 4);
    assert_eq!(Precedence::Exponent.level(), 5);
    assert_eq!(Precedence::Prefix.level(), 6);
    assert_eq!(Precedence::Postfix.level(), 7);
    assert_eq!(Precedence::Call.level(), 8);
    assert_eq!(InfixParselet::Binary(Binary { prec: 42, right: true }).precedence(), 42);
    assert_eq!(InfixParselet::UnaryPostfix(UnaryPostfix { prec: 7 }).precedence(), 7);
}

#[test]
fn looking_ahead_takes_nothing() {
    let mut parser = Parser::new(Lexer::new("a + b"));
    assert_eq!(parser.look_ahead(2), Token { typ: TokenType::Name, literal: "b" });
    assert_eq!(parser.look_ahead(0), Token { typ: TokenType::Name, literal: "a" });
    assert_eq!(parser.look_ahead(1), Token { typ: TokenType::Plus, literal: "+" });
    assert_eq!(parser.look_ahead(3), Token { typ: TokenType::Eof, literal: "" });
    assert_eq!(parser.look_ahead(7), Token { typ: TokenType::Eof, literal: "" });
    assert_eq!(parser.consume(), Token { typ: TokenType::Name, literal: "a" });
    assert_eq!(parser.consume(), Token { typ: TokenType::Plus, literal: "+" });
    assert_eq!(parser.consume(), Token { typ: TokenType::Name, literal: "b" });
    assert_eq!(parser.consume(), Token { typ: TokenType::Eof, literal: "" });
}
