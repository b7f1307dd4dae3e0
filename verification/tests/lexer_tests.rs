use bantam::lexer::Lexer;
use bantam::token::Token;
use bantam::token::TokenType;

fn assert_tok(tok: Token, wantype: TokenType, wantval: &str) {
    assert_eq!(tok, Token { typ: wantype, literal: wantval });
}

fn assert_kind(tok: Token, wantype: TokenType) {
    assert_eq!(tok, Token { typ: wantype, ..tok });
}

#[test]
fn normal_case() {
    let lex = Lexer::new("a=b+c");
    let toks: Vec<Token> = lex.collect();
    assert_eq!(toks.len(), 5);
    assert_tok(toks[0], TokenType::Name, "a");
    assert_kind(toks[1], TokenType::Assign);
}

#[test]
fn skip_blank() {
    let lex = Lexer::new(" a = \t b    + \n c ");
    let toks: Vec<Token> = lex.collect();
    assert_eq!(toks.len(), 5);
    assert_tok(toks[0], TokenType::Name, "a");
    assert_tok(toks[2], TokenType::Name, "b");
    assert_tok(toks[4], TokenType::Name, "c");
}

#[test]
fn name_contain_chinese() {
    let lex = Lexer::new(" 我们 =  我 + 们 ");
    let toks: Vec<Token> = lex.collect();
    assert_eq!(toks.len(), 5);
    assert_tok(toks[0], TokenType::Name, "我们");
    assert_tok(toks[2], TokenType::Name, "我");
    assert_tok(toks[4], TokenType::Name, "们");
}

#[test]
fn ignore_other_chars() {
    let lex = Lexer::new("c123 = a[] + bb{}f");
    let toks: Vec<Token> = lex.collect();
    assert_eq!(toks.len(), 6);
    assert_tok(toks[0], TokenType::Name, "c");
    assert_tok(toks[2], TokenType::Name, "a");
    assert_tok(toks[4], TokenType::Name, "bb");
    assert_tok(toks[5], TokenType::Name, "f");
}

#[test]
fn multi_operator_expr() {
    let lex = Lexer::new("a = b + c * d ^ e - f / g");
    let toks: Vec<Token> = lex.collect();
    assert_eq!(toks.len(), 13);
    assert_tok(toks[10], TokenType::Name, "f");
    assert_kind(toks[5], TokenType::Asterisk);
    assert_kind(toks[7], TokenType::Caret);
    assert_tok(toks[12], TokenType::Name, "g");
}

#[test]
fn return_multi_eof() {
    let mut lex = Lexer::new("a=b+c");
    let mut toks: Vec<Token> = Vec::with_capacity(16);
    for _ in 0..16 {
        toks.push(lex.next_token());
    }
    assert_eq!(toks.len(), 16);
    assert!(toks.iter().skip(5).all(|tok| tok == &Token { typ: TokenType::Eof, literal: "" }));
}

#[test]
fn every_kind_in_order() {
    let lex = Lexer::new("(),=+-*/^~!?:x");
    let kinds: Vec<TokenType> = lex.collect().iter().map(|t| t.typ).collect();
    assert_eq!(kinds, TokenType::all().to_vec()[..14].to_vec());
}

#[test]
fn punctuator_literals_are_slices_of_the_source() {
    let lex = Lexer::new("é+ü");
    let toks = lex.collect();
    assert_eq!(toks.len(), 3);
    assert_tok(toks[0], TokenType::Name, "é");
    assert_tok(toks[1], TokenType::Plus, "+");
    assert_tok(toks[2], TokenType::Name, "ü");
}

#[test]
fn empty_and_blank_sources_have_no_token() {
    assert_eq!(Lexer::new("").collect().len(), 0);
    assert_eq!(Lexer::new(" \t\r\n ").collect().len(), 0);
    assert_eq!(Lexer::new("123 [] {} 4.5 @#").collect().len(), 0);
    let mut lex = Lexer::new("");
    assert_eq!(lex.next_token(), Token { typ: TokenType::Eof, literal: "" });
    assert_eq!(lex.next_token(), Token { typ: TokenType::Eof, literal: "" });
}

#[test]
fn trailing_noise_ends_in_eof() {
    let mut lex = Lexer::new("ab 12 ");
    assert_eq!(lex.next_token(), Token { typ: TokenType::Name, literal: "ab" });
    for _ in 0..4 {
        assert_eq!(lex.next_token(), Token { typ: TokenType::Eof, literal: "" });
    }
}

#[test]
fn next_stops_at_the_end() {
    let mut lex = Lexer::new("a !");
    assert_eq!(lex.next(), Some(Token { typ: TokenType::Name, literal: "a" }));
    assert_eq!(lex.next(), Some(Token { typ: TokenType::Bang, literal: "!" }));
    assert_eq!(lex.next(), None);
    assert_eq!(lex.next(), None);
}

#[test]
fn digits_split_names() {
    let toks = Lexer::new("ab1cd").collect();
    assert_eq!(toks.len(), 2);
    assert_tok(toks[0], TokenType::Name, "ab");
    assert_tok(toks[1], TokenType::Name, "cd");
}

#[test]
fn punctuators_of_the_kinds() {
    assert_eq!(TokenType::LeftParen.punctuator(), Some('('));
    assert_eq!(TokenType::RightParen.punctuator(), Some(')'));
    assert_eq!(TokenType::Comma.punctuator(), Some(','));
    assert_eq!(TokenType::Assign.punctuator(), Some('='));
    assert_eq!(TokenType::Plus.punctuator(), Some('+'));
    assert_eq!(TokenType::Minus.punctuator(), Some('-'));
    assert_eq!(TokenType::Asterisk.punctuator(), Some('*'));
    assert_eq!(TokenType::Slash.punctuator(), Some('/'));
    assert_eq!(TokenType::Caret.punctuator(), Some('^'));
    assert_eq!(TokenType::Tilde.punctuator(), Some('~'));
    assert_eq!(TokenType::Bang.punctuator(), Some('!'));
    assert_eq!(TokenType::Question.punctuator(), Some('?'));
    assert_eq!(TokenType::Colon.punctuator(), Some(':'));
    assert_eq!(TokenType::Name.punctuator(), None);
    assert_eq!(TokenType::Eof.punctuator(), None);
}

#[test]
fn ordinals_follow_the_declaration() {
    let kinds = TokenType::all();
    assert_eq!(kinds.len(), 15);
    for (i, k) in kinds.iter().enumerate() {
        assert_eq!(k.ordinal() as usize, i);
    }
    assert_eq!(kinds[0], TokenType::LeftParen);
    assert_eq!(kinds[14], TokenType::Eof);
}

#[test]
fn names_in_other_scripts() {
    let toks = Lexer::new("我们 = 我 + 们").collect();
    assert_eq!(toks.len(), 5);
    assert_tok(toks[0], TokenType::Name, "我们");
    assert_tok(toks[1], TokenType::Assign, "=");
    assert_tok(toks[2], TokenType::Name, "我");
    assert_tok(toks[3], TokenType::Plus, "+");
    assert_tok(toks[4], TokenType::Name, "们");
}

#[test]
fn digits_and_brackets_are_dropped() {
    let toks = Lexer::new("c123 = a[] + bb{}f").collect();
    let seen: Vec<(TokenType, &str)> = toks.iter().map(|t| (t.typ, t.literal)).collect();
    assert_eq!(
        seen,
        vec![
            (TokenType::Name, "c"),
            (TokenType::Assign, "="),
            (TokenType::Name, "a"),
            (TokenType::Plus, "+"),
            (TokenType::Name, "bb"),
            (TokenType::Name, "f"),
        ]
    );
}
