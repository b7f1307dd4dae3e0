//! The parser engine: a token buffer over the tokenizer, two tables of
//! parselets, and precedence climbing between them.
use crate::error::ParseError;
use crate::expression::Expr;
use crate::expression::Print;
use crate::lexer::lemma_lexemes_hold_no_marker;
use crate::lexer::lexemes;
use crate::lexer::Lexer;
use crate::parselets::Assign;
use crate::parselets::Binary;
use crate::parselets::Call;
use crate::parselets::Cond;
use crate::parselets::Group;
use crate::parselets::InfixParselet;
use crate::parselets::Name;
use crate::parselets::Precedence;
use crate::parselets::PrefixParselet;
use crate::parselets::UnaryPostfix;
use crate::parselets::UnaryPrefix;
use crate::syntax::advance;
use crate::syntax::expect;
use crate::syntax::first;
use crate::syntax::lemma_parse_infix_shrinks;
use crate::syntax::lemma_parse_prec_printable;
use crate::syntax::lemma_parse_prefix_shrinks;
use crate::syntax::parse_loop;
use crate::syntax::parse_prec;
use crate::syntax::token_at;
use crate::syntax::Grammar;
use crate::syntax::Parsed;
use crate::table::table_get;
use crate::table::table_insert;
use crate::table::table_new;
use crate::token::lemma_ordinal_injective;
use crate::token::lexemes_of;
use crate::token::Lexeme;
use crate::token::Token;
use crate::token::TokenType;
use rustc_hash::FxHashMap;
use vstd::prelude::*;
use vstd::std_specs::hash::axiom_u8_obeys_hash_table_key_model;

verus! {

/// `res` and the stream `after` are what `expected` asks for: on success
/// the tree and the tokens left, on failure the error.
pub open spec fn parsed_as(
    res: Result<Box<Expr<'_>>, ParseError>,
    after: Seq<Lexeme>,
    expected: Parsed,
) -> bool {
    match expected {
        Ok((tree, rest)) => res is Ok && res->Ok_0@ == tree && after == rest,
        Err(e) => res is Err && res->Err_0 == e,
    }
}

/// A parser over one source text. Its parselets are filed with
/// [`Parser::register_prefix`] and [`Parser::register_infix`] before the
/// first parse.
pub struct Parser<'source> {
    prefix_map: FxHashMap<u8, PrefixParselet>,
    infix_map: FxHashMap<u8, InfixParselet>,
    tokbuf: Vec<Token<'source>>,
    lexer: Lexer<'source>,
}

impl<'source> Parser<'source> {
    /// The tokens still to come: those in the buffer, then those that the
    /// tokenizer has yet to read. The end-of-input marker is not among them.
    pub closed spec fn stream(&self) -> Seq<Lexeme> {
        lexemes_of(self.tokbuf@) + self.lexer.remaining()
    }

    /// How many of the tokens still to come are held in the buffer.
    pub closed spec fn buffered(&self) -> nat {
        self.tokbuf@.len()
    }

    /// The parselets on file.
    pub closed spec fn grammar(&self) -> Grammar {
        Grammar {
            prefix: Map::new(
                |k: TokenType| self.prefix_map@.contains_key(k.spec_ordinal()),
                |k: TokenType| self.prefix_map@[k.spec_ordinal()],
            ),
            infix: Map::new(
                |k: TokenType| self.infix_map@.contains_key(k.spec_ordinal()),
                |k: TokenType| self.infix_map@[k.spec_ordinal()],
            ),
        }
    }

    /// The tokenizer is well-formed and the buffer holds no end-of-input
    /// marker.
    pub closed spec fn wf(&self) -> bool {
        &&& self.lexer.wf()
        &&& forall|i: int| 0 <= i < self.tokbuf.len() ==> (#[trigger] self.tokbuf@[i]).typ
            != TokenType::Eof
    }

    /// The end-of-input marker is not among the tokens still to come.
    pub proof fn lemma_stream_holds_no_marker(&self)
        requires
            self.wf(),
        ensures
            forall|i: int|
                0 <= i < self.stream().len() ==> (#[trigger] self.stream()[i]).typ
                    != TokenType::Eof,
    {
        lemma_lexemes_hold_no_marker(self.lexer.source(), self.lexer.cursor());
        assert forall|i: int| 0 <= i < self.stream().len() implies (#[trigger] self.stream()[i]).typ
            != TokenType::Eof by {
            if i < self.tokbuf@.len() {
                assert(self.stream()[i] == self.tokbuf@[i]@);
            } else {
                assert(self.stream()[i] == self.lexer.remaining()[i - self.tokbuf@.len()]);
            }
        }
    }

    /// A parser over the tokens that `lexer` has yet to read, with no
    /// parselet on file.
    pub fn new(lexer: Lexer<'source>) -> (parser: Self)
        requires
            lexer.wf(),
        ensures
            parser.wf(),
            parser.stream() == lexer.remaining(),
            parser.grammar() == Grammar::empty(),
    {
        let parser = Self {
            prefix_map: table_new(),
            infix_map: table_new(),
            tokbuf: Vec::new(),
            lexer,
        };
        proof {
            assert(parser.stream() =~= lexer.remaining());
            assert(parser.grammar().prefix =~= Map::empty());
            assert(parser.grammar().infix =~= Map::empty());
        }
        parser
    }

    /// Files `prefix` under `tt` for the start of an expression, in place of
    /// what was there.
    ///
    /// `TokenType::Eof` is taken like any other kind, but a parser with a
    /// parselet on file under it can no longer parse: every parse function
    /// asks for [`Grammar::eof_terminal`], since such a parselet would run
    /// again and again at the end of the input.
    pub fn register_prefix(&mut self, tt: TokenType, prefix: PrefixParselet)
        requires
            old(self).wf(),
        ensures
            final(self).wf(),
            final(self).stream() == old(self).stream(),
            final(self).grammar() == old(self).grammar().with_prefix(tt, prefix),
    {
        broadcast use axiom_u8_obeys_hash_table_key_model;

        table_insert(&mut self.prefix_map, tt.ordinal(), prefix);
        proof {
            assert forall|k: TokenType|
                (k.spec_ordinal() == tt.spec_ordinal() <==> k == tt) by {
                lemma_ordinal_injective(k, tt);
            }
            assert(self.grammar().prefix =~= old(self).grammar().prefix.insert(tt, prefix));
        }
    }

    /// Files `infix` under `tt` for the place after an expression, in place
    /// of what was there.
    ///
    /// `TokenType::Eof` is taken like any other kind, but a parser with a
    /// parselet on file under it can no longer parse: every parse function
    /// asks for [`Grammar::eof_terminal`], since such a parselet would run
    /// again and again at the end of the input.
    pub fn register_infix(&mut self, tt: TokenType, infix: InfixParselet)
        requires
            old(self).wf(),
        ensures
            final(self).wf(),
            final(self).stream() == old(self).stream(),
            final(self).grammar() == old(self).grammar().with_infix(tt, infix),
    {
        broadcast use axiom_u8_obeys_hash_table_key_model;

        table_insert(&mut self.infix_map, tt.ordinal(), infix);
        proof {
            assert forall|k: TokenType|
                (k.spec_ordinal() == tt.spec_ordinal() <==> k == tt) by {
                lemma_ordinal_injective(k, tt);
            }
            assert(self.grammar().infix =~= old(self).grammar().infix.insert(tt, infix));
        }
    }

    /// Reads tokens into the buffer until it holds the one at `distance`,
    /// and gives that token: the end-of-input marker where the input ends
    /// before. Nothing is taken from the stream.
    pub fn look_ahead(&mut self, distance: usize) -> (tok: Token<'source>)
        requires
            old(self).wf(),
        ensures
            final(self).wf(),
            final(self).stream() == old(self).stream(),
            final(self).grammar() == old(self).grammar(),
            tok@ == token_at(old(self).stream(), distance as int),
            final(self).buffered() >= old(self).buffered(),
            tok.typ != TokenType::Eof ==> final(self).buffered() > distance,
    {
        while self.tokbuf.len() <= distance
            invariant
                self.wf(),
                self.stream() == old(self).stream(),
                self.grammar() == old(self).grammar(),
                self.buffered() >= old(self).buffered(),
            decreases distance + 1 - self.tokbuf@.len(),
        {
            let ghost buffered = lexemes_of(self.tokbuf@);
            let ghost coming = self.lexer.remaining();
            let tok = self.lexer.next_token();
            if tok.typ == TokenType::Eof {
                proof {
                    assert(self.stream() =~= buffered);
                }
                return tok;
            }
            self.tokbuf.push(tok);
            proof {
                assert(lexemes_of(self.tokbuf@) =~= buffered.push(tok@));
                assert(self.stream() =~= buffered + coming);
            }
        }
        self.tokbuf[distance]
    }

    /// How tightly the upcoming token binds to the expression before it.
    fn lookahead_precedence(&mut self) -> (prec: u8)
        requires
            old(self).wf(),
        ensures
            final(self).wf(),
            final(self).stream() == old(self).stream(),
            final(self).grammar() == old(self).grammar(),
            prec == old(self).grammar().binding(first(old(self).stream()).typ),
    {
        broadcast use axiom_u8_obeys_hash_table_key_model;

        let tt = self.look_ahead(0).typ;
        if let Some(infix_parselet) = table_get(&self.infix_map, tt.ordinal()) {
            infix_parselet.precedence()
        } else {
            0
        }
    }

    /// Takes the upcoming token if it is of kind `expected`, and says
    /// whether it did.
    pub fn match_type(&mut self, expected: TokenType) -> (matched: bool)
        requires
            old(self).wf(),
        ensures
            final(self).wf(),
            final(self).grammar() == old(self).grammar(),
            matched == (first(old(self).stream()).typ == expected),
            final(self).stream() == if matched {
                advance(old(self).stream())
            } else {
                old(self).stream()
            },
    {
        if self.look_ahead(0).typ != expected {
            false
        } else {
            self.consume();
            true
        }
    }

    /// Takes the upcoming token, which must be of kind `expected`.
    pub fn consume_type(&mut self, expected: TokenType) -> (res: Result<Token<'source>, ParseError>)
        requires
            old(self).wf(),
        ensures
            final(self).wf(),
            final(self).grammar() == old(self).grammar(),
            match expect(old(self).stream(), expected) {
                Ok(after) => res is Ok && res->Ok_0@ == first(old(self).stream())
                    && final(self).stream() == after,
                Err(e) => res is Err && res->Err_0 == e && final(self).stream() == old(
                    self,
                ).stream(),
            },
    {
        let tt = self.look_ahead(0).typ;
        if tt != expected {
            return Err(ParseError::UnexpectedToken { expected, found: tt });
        }
        Ok(self.consume())
    }

    /// Takes the upcoming token. Past the end of the input this is the
    /// end-of-input marker, as often as it is asked for.
    pub fn consume(&mut self) -> (tok: Token<'source>)
        requires
            old(self).wf(),
        ensures
            final(self).wf(),
            final(self).grammar() == old(self).grammar(),
            tok@ == first(old(self).stream()),
            final(self).stream() == advance(old(self).stream()),
    {
        let tok = self.look_ahead(0);
        if self.tokbuf.len() > 0 {
            let ghost buffered = self.tokbuf@;
            let tok = self.tokbuf.remove(0);
            proof {
                assert(lexemes_of(self.tokbuf@) =~= lexemes_of(buffered).drop_first());
                assert(self.stream() =~= (lexemes_of(buffered)
                    + self.lexer.remaining()).drop_first());
            }
            tok
        } else {
            tok
        }
    }

    /// The expression at the front of the stream.
    pub fn parse_expression(&mut self) -> (res: Result<Box<Expr<'source>>, ParseError>)
        requires
            old(self).wf(),
            old(self).grammar().eof_terminal(),
        ensures
            final(self).wf(),
            final(self).grammar() == old(self).grammar(),
            parsed_as(
                res,
                final(self).stream(),
                parse_prec(old(self).grammar(), old(self).stream(), 0),
            ),
        decreases old(self).stream().len(), 1int,
    {
        self.parse_expression_prec(0)
    }

    /// The expression at the front of the stream, read with the floor
    /// `prec`: it ends before the first token that binds no more tightly
    /// than `prec` to what stands before it.
    pub fn parse_expression_prec(&mut self, prec: u8) -> (res: Result<
        Box<Expr<'source>>,
        ParseError,
    >)
        requires
            old(self).wf(),
            old(self).grammar().eof_terminal(),
        ensures
            final(self).wf(),
            final(self).grammar() == old(self).grammar(),
            parsed_as(
                res,
                final(self).stream(),
                parse_prec(old(self).grammar(), old(self).stream(), prec as nat),
            ),
        decreases old(self).stream().len(), 0int,
    {
        broadcast use axiom_u8_obeys_hash_table_key_model;

        let ghost g = self.grammar();
        let ghost start = self.stream();
        let tok = self.consume();
        let prefix = match table_get(&self.prefix_map, tok.typ.ordinal()) {
            Some(prefix) => prefix,
            None => {
                return Err(ParseError::UnparsableToken { found: tok.typ });
            },
        };
        proof {
            lemma_parse_prefix_shrinks(g, prefix, tok@, self.stream());
        }
        let mut left = match prefix.parse(self, tok) {
            Ok(left) => left,
            Err(e) => {
                return Err(e);
            },
        };
        while prec < self.lookahead_precedence()
            invariant
                self.wf(),
                self.grammar() == g,
                g == old(self).grammar(),
                start == old(self).stream(),
                g.eof_terminal(),
                self.stream().len() < start.len(),
                parse_loop(g, left@, self.stream(), prec as nat) == parse_prec(
                    g,
                    start,
                    prec as nat,
                ),
            decreases self.stream().len(),
        {
            let tok = self.consume();
            let infix = table_get(&self.infix_map, tok.typ.ordinal()).unwrap();
            proof {
                lemma_parse_infix_shrinks(g, infix, left@, tok@, self.stream());
            }
            left = match infix.parse(self, left, tok) {
                Ok(left) => left,
                Err(e) => {
                    return Err(e);
                },
            };
        }
        Ok(left)
    }
}

/// The reference grammar: names; grouping and calls with parentheses;
/// assignment; the conditional; sum, product and exponent; four prefix
/// operators and one postfix operator.
pub open spec fn bantam_grammar() -> Grammar {
    let prefix = PrefixParselet::UnaryPrefix(UnaryPrefix { prec: Precedence::Prefix.spec_level() });
    let sum = InfixParselet::Binary(Binary { prec: Precedence::Sum.spec_level(), right: false });
    let product = InfixParselet::Binary(
        Binary { prec: Precedence::Product.spec_level(), right: false },
    );
    let exponent = InfixParselet::Binary(
        Binary { prec: Precedence::Exponent.spec_level(), right: true },
    );
    Grammar::empty().with_prefix(TokenType::Name, PrefixParselet::Name(Name)).with_infix(
        TokenType::Assign,
        InfixParselet::Assign(Assign),
    ).with_infix(TokenType::Question, InfixParselet::Cond(Cond)).with_prefix(
        TokenType::LeftParen,
        PrefixParselet::Group(Group),
    ).with_infix(TokenType::LeftParen, InfixParselet::Call(Call)).with_prefix(
        TokenType::Plus,
        prefix,
    ).with_prefix(TokenType::Minus, prefix).with_prefix(TokenType::Tilde, prefix).with_prefix(
        TokenType::Bang,
        prefix,
    ).with_infix(
        TokenType::Bang,
        InfixParselet::UnaryPostfix(UnaryPostfix { prec: Precedence::Postfix.spec_level() }),
    ).with_infix(TokenType::Plus, sum).with_infix(TokenType::Minus, sum).with_infix(
        TokenType::Asterisk,
        product,
    ).with_infix(TokenType::Slash, product).with_infix(TokenType::Caret, exponent)
}

/// A parser with the reference grammar on file.
pub struct BantamParser<'source>(Parser<'source>);

impl<'source> BantamParser<'source> {
    /// The tokens still to come, without the end-of-input marker.
    pub closed spec fn stream(&self) -> Seq<Lexeme> {
        self.0.stream()
    }

    /// The parselets on file.
    pub closed spec fn grammar(&self) -> Grammar {
        self.0.grammar()
    }

    /// The parser is well-formed and the grammar on file is the reference
    /// grammar.
    pub closed spec fn wf(&self) -> bool {
        self.0.wf() && self.0.grammar() == bantam_grammar()
    }

    /// A well-formed parser has the reference grammar on file.
    pub proof fn lemma_grammar_is_bantam(&self)
        requires
            self.wf(),
        ensures
            self.grammar() == bantam_grammar(),
    {
    }

    /// A parser over the tokens of `source`, with the reference grammar on
    /// file.
    pub fn new(source: &'source str) -> (parser: Self)
        ensures
            parser.wf(),
            parser.grammar() == bantam_grammar(),
            parser.stream() == lexemes(source@),
    {
        let l = Lexer::new(source);
        let mut p = Self(Parser::new(l));

        p.0.register_prefix(TokenType::Name, PrefixParselet::Name(Name));
        p.0.register_infix(TokenType::Assign, InfixParselet::Assign(Assign));
        p.0.register_infix(TokenType::Question, InfixParselet::Cond(Cond));
        p.0.register_prefix(TokenType::LeftParen, PrefixParselet::Group(Group));
        p.0.register_infix(TokenType::LeftParen, InfixParselet::Call(Call));

        let pre = PrefixParselet::UnaryPrefix(UnaryPrefix { prec: Precedence::Prefix.level() });
        p.0.register_prefix(TokenType::Plus, pre);
        p.0.register_prefix(TokenType::Minus, pre);
        p.0.register_prefix(TokenType::Tilde, pre);
        p.0.register_prefix(TokenType::Bang, pre);

        let post = InfixParselet::UnaryPostfix(
            UnaryPostfix { prec: Precedence::Postfix.level() },
        );
        p.0.register_infix(TokenType::Bang, post);

        let sum = InfixParselet::Binary(Binary { prec: Precedence::Sum.level(), right: false });
        let product = InfixParselet::Binary(
            Binary { prec: Precedence::Product.level(), right: false },
        );
        p.0.register_infix(TokenType::Plus, sum);
        p.0.register_infix(TokenType::Minus, sum);
        p.0.register_infix(TokenType::Asterisk, product);
        p.0.register_infix(TokenType::Slash, product);

        let exp = InfixParselet::Binary(Binary { prec: Precedence::Exponent.level(), right: true });
        p.0.register_infix(TokenType::Caret, exp);

        p
    }

    /// The expression at the front of the stream, under the reference
    /// grammar. A tree that comes out can be rendered.
    pub fn parse_expression(&mut self) -> (res: Result<Box<Expr<'source>>, ParseError>)
        requires
            old(self).wf(),
        ensures
            final(self).wf(),
            final(self).grammar() == bantam_grammar(),
            parsed_as(
                res,
                final(self).stream(),
                parse_prec(bantam_grammar(), old(self).stream(), 0),
            ),
            res matches Ok(expr) ==> expr.printable(),
    {
        proof {
            lemma_parse_prec_printable(bantam_grammar(), self.stream(), 0);
        }
        self.0.parse_expression()
    }
}

} // verus!
