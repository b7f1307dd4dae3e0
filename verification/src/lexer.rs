//! The tokenizer: source text to tokens, one per request.
use crate::table::table_get;
use crate::table::table_insert;
use crate::table::table_new;
use crate::text::alphabetic;
use crate::token::kind_of_char;
use crate::token::lemma_punctuator_inverse;
use crate::token::lexemes_of;
use crate::token::Lexeme;
use crate::token::Token;
use crate::token::TokenType;
use rustc_hash::FxHashMap;
use vstd::prelude::*;
use vstd::std_specs::hash::axiom_u32_obeys_hash_table_key_model;
use crate::token::KIND_COUNT;

verus! {

/// Space, tab, carriage return and newline separate tokens.
pub open spec fn is_blank(c: char) -> bool {
    c == ' ' || c == '\t' || c == '\r' || c == '\n'
}

/// A token can start at `c`: a punctuator, or an alphabetic character that
/// is not blank. Everything else is passed over.
pub open spec fn starts_token(c: char) -> bool {
    !is_blank(c) && (kind_of_char(c) is Some || alphabetic(c))
}

/// The first position from `pos` on at which a token starts, or the length
/// of `chars` where there is none.
pub open spec fn token_start(chars: Seq<char>, pos: int) -> int
    decreases chars.len() - pos,
{
    if pos < 0 || pos >= chars.len() {
        chars.len() as int
    } else if starts_token(chars[pos]) {
        pos
    } else {
        token_start(chars, pos + 1)
    }
}

/// The first position from `pos` on that holds no alphabetic character, or
/// the length of `chars` where there is none.
pub open spec fn name_end(chars: Seq<char>, pos: int) -> int
    decreases chars.len() - pos,
{
    if pos < 0 || pos >= chars.len() {
        chars.len() as int
    } else if !alphabetic(chars[pos]) {
        pos
    } else {
        name_end(chars, pos + 1)
    }
}

/// The token read with the cursor at `pos`: the end-of-input marker where no
/// token starts from there on; one punctuator; or a maximal run of
/// alphabetic characters as a name.
pub open spec fn lexeme_at(chars: Seq<char>, pos: int) -> Lexeme {
    let start = token_start(chars, pos);
    if start >= chars.len() {
        Lexeme::eof()
    } else {
        match kind_of_char(chars[start]) {
            Some(kind) => Lexeme { typ: kind, literal: chars.subrange(start, start + 1) },
            None => Lexeme {
                typ: TokenType::Name,
                literal: chars.subrange(start, name_end(chars, start)),
            },
        }
    }
}

/// Where the cursor stands after the token at `pos` has been read.
pub open spec fn lexeme_end(chars: Seq<char>, pos: int) -> int {
    let start = token_start(chars, pos);
    if start >= chars.len() {
        chars.len() as int
    } else if kind_of_char(chars[start]) is Some {
        start + 1
    } else {
        name_end(chars, start)
    }
}

/// The first token starts at or after `pos` and within `chars`.
pub proof fn lemma_token_start_bounds(chars: Seq<char>, pos: int)
    requires
        0 <= pos <= chars.len(),
    ensures
        pos <= token_start(chars, pos) <= chars.len(),
        token_start(chars, pos) < chars.len() ==> starts_token(chars[token_start(chars, pos)]),
        forall|i: int| pos <= i < token_start(chars, pos) ==> !starts_token(#[trigger] chars[i]),
    decreases chars.len() - pos,
{
    if pos < chars.len() && !starts_token(chars[pos]) {
        lemma_token_start_bounds(chars, pos + 1);
    }
}

/// A name ends at or after `pos` and within `chars`; it is alphabetic
/// throughout and is followed by no alphabetic character.
pub proof fn lemma_name_end_bounds(chars: Seq<char>, pos: int)
    requires
        0 <= pos <= chars.len(),
    ensures
        pos <= name_end(chars, pos) <= chars.len(),
        name_end(chars, pos) < chars.len() ==> !alphabetic(chars[name_end(chars, pos)]),
        forall|i: int| pos <= i < name_end(chars, pos) ==> alphabetic(#[trigger] chars[i]),
        pos < chars.len() && alphabetic(chars[pos]) ==> pos < name_end(chars, pos),
    decreases chars.len() - pos,
{
    if pos < chars.len() && alphabetic(chars[pos]) {
        lemma_name_end_bounds(chars, pos + 1);
    }
}

/// Reading a token moves the cursor forward, unless the marker is read with
/// the cursor already at the end.
pub proof fn lemma_lexeme_end_bounds(chars: Seq<char>, pos: int)
    requires
        0 <= pos <= chars.len(),
    ensures
        pos <= lexeme_end(chars, pos) <= chars.len(),
        lexeme_at(chars, pos).typ != TokenType::Eof ==> pos < lexeme_end(chars, pos),
        lexeme_at(chars, pos).typ == TokenType::Eof <==> token_start(chars, pos) >= chars.len(),
        lexeme_at(chars, pos).typ == TokenType::Eof ==> lexeme_at(chars, pos) == Lexeme::eof()
            && lexeme_end(chars, pos) == chars.len(),
{
    lemma_token_start_bounds(chars, pos);
    let start = token_start(chars, pos);
    if start < chars.len() {
        lemma_name_end_bounds(chars, start);
    }
}

/// The tokens that are read from `pos` on, up to the end-of-input marker and
/// without it.
pub open spec fn lexemes_from(chars: Seq<char>, pos: int) -> Seq<Lexeme>
    decreases chars.len() - pos,
{
    if pos < 0 || pos > chars.len() || lexeme_at(chars, pos).typ == TokenType::Eof {
        Seq::empty()
    } else {
        proof {
            lemma_lexeme_end_bounds(chars, pos);
        }
        seq![lexeme_at(chars, pos)] + lexemes_from(chars, lexeme_end(chars, pos))
    }
}

/// The tokens of a whole text.
pub open spec fn lexemes(chars: Seq<char>) -> Seq<Lexeme> {
    lexemes_from(chars, 0)
}

/// A character that starts no token is passed over.
pub proof fn lemma_lexemes_skip(chars: Seq<char>, pos: int)
    requires
        0 <= pos < chars.len(),
        !starts_token(chars[pos]),
    ensures
        lexemes_from(chars, pos) == lexemes_from(chars, pos + 1),
{
    lemma_lexeme_end_bounds(chars, pos);
    lemma_lexeme_end_bounds(chars, pos + 1);
}

/// A punctuator is a token of its kind by itself.
pub proof fn lemma_lexemes_punctuator(chars: Seq<char>, pos: int)
    requires
        0 <= pos < chars.len(),
        kind_of_char(chars[pos]) is Some,
    ensures
        lexemes_from(chars, pos) == seq![
            Lexeme { typ: kind_of_char(chars[pos])->0, literal: chars.subrange(pos, pos + 1) },
        ] + lexemes_from(chars, pos + 1),
{
    lemma_lexeme_end_bounds(chars, pos);
}

/// An alphabetic character that is neither blank nor a punctuator starts a
/// name, which runs up to the next character that is not alphabetic.
pub proof fn lemma_lexemes_name(chars: Seq<char>, pos: int)
    requires
        0 <= pos < chars.len(),
        starts_token(chars[pos]),
        kind_of_char(chars[pos]) is None,
    ensures
        pos < name_end(chars, pos) <= chars.len(),
        lexemes_from(chars, pos) == seq![
            Lexeme { typ: TokenType::Name, literal: chars.subrange(pos, name_end(chars, pos)) },
        ] + lexemes_from(chars, name_end(chars, pos)),
{
    lemma_lexeme_end_bounds(chars, pos);
    lemma_name_end_bounds(chars, pos);
}

/// The end-of-input marker is not among the tokens of a text.
pub proof fn lemma_lexemes_hold_no_marker(chars: Seq<char>, pos: int)
    ensures
        forall|i: int|
            0 <= i < lexemes_from(chars, pos).len() ==> (#[trigger] lexemes_from(chars, pos)[i]).typ
                != TokenType::Eof,
    decreases chars.len() - pos,
{
    if 0 <= pos <= chars.len() && lexeme_at(chars, pos).typ != TokenType::Eof {
        lemma_lexeme_end_bounds(chars, pos);
        lemma_lexemes_hold_no_marker(chars, lexeme_end(chars, pos));
    }
}

/// At the end of the text no token is left, and the end-of-input marker is
/// read without moving the cursor: as often as it is asked for.
pub proof fn lemma_lexemes_end(chars: Seq<char>)
    ensures
        lexemes_from(chars, chars.len() as int) == Seq::<Lexeme>::empty(),
        lexeme_at(chars, chars.len() as int) == Lexeme::eof(),
        lexeme_end(chars, chars.len() as int) == chars.len(),
{
}

/// What `table` files under the character `c`.
spec fn filed_under(table: Map<u32, TokenType>, c: char) -> Option<TokenType> {
    if table.contains_key(c as u32) {
        Some(table[c as u32])
    } else {
        None
    }
}

/// `table` files every punctuator under its kind, and nothing else.
spec fn is_punctuator_table(table: Map<u32, TokenType>) -> bool {
    forall|c: char| #[trigger] filed_under(table, c) == kind_of_char(c)
}

/// The characters of `input`, in order.
fn decode(input: &str) -> (chars: Vec<char>)
    ensures
        chars@ == input@,
{
    let mut chars: Vec<char> = Vec::new();
    for ch in it: input.chars()
        invariant
            it.seq() == input@,
            chars@ == it.seq().take(it.index()),
    {
        chars.push(ch);
        assert(it.seq().take(it.index() + 1) =~= it.seq().take(it.index()).push(ch));
    }
    assert(chars@ =~= input@);
    chars
}

/// The kind that `c` is the punctuator of, if it is among the first `n`
/// kinds.
spec fn kind_among(c: char, n: int) -> Option<TokenType> {
    match kind_of_char(c) {
        Some(k) => if k.spec_ordinal() < n {
            Some(k)
        } else {
            None
        },
        None => None,
    }
}

/// The table from punctuator to kind, filled from the kinds themselves.
fn punctuator_table() -> (table: FxHashMap<u32, TokenType>)
    ensures
        is_punctuator_table(table@),
{
    broadcast use axiom_u32_obeys_hash_table_key_model;

    let mut table: FxHashMap<u32, TokenType> = table_new();
    let kinds = TokenType::all();
    let mut i: usize = 0;
    while i < KIND_COUNT
        invariant
            i <= KIND_COUNT,
            forall|k: TokenType| #[trigger] kinds@[k.spec_ordinal() as int] == k,
            forall|j: int| 0 <= j < KIND_COUNT ==> (#[trigger] kinds@[j]).spec_ordinal() == j,
            forall|c: char| #[trigger] filed_under(table@, c) == kind_among(c, i as int),
        decreases KIND_COUNT - i,
    {
        let tt = kinds[i];
        let ghost before = table@;
        if let Some(punc) = tt.punctuator() {
            table_insert(&mut table, punc as u32, tt);
        }
        proof {
            assert forall|c: char| #[trigger]
                filed_under(table@, c) == kind_among(c, i + 1) by {
                assert(filed_under(before, c) == kind_among(c, i as int));
                lemma_punctuator_inverse(tt, c);
                if let Some(k) = kind_of_char(c) {
                    assert(kinds@[k.spec_ordinal() as int] == k);
                }
                assert(kinds@[i as int].spec_ordinal() == i);
                if let Some(punc) = tt.spec_punctuator() {
                    vstd::utf8::char_u32_cast(c, c as u32);
                    vstd::utf8::char_u32_cast(punc, punc as u32);
                    assert(c as u32 == punc as u32 <==> c == punc);
                }
            }
        }
        i += 1;
    }
    table
}

/// A tokenizer over one source text.
pub struct Lexer<'source> {
    punctuators: FxHashMap<u32, TokenType>,
    input: &'source str,
    chars: Vec<char>,
    c: char,
    ci: usize,
}

impl<'source> Lexer<'source> {
    /// The characters of the source text.
    pub closed spec fn source(&self) -> Seq<char> {
        self.input@
    }

    /// The position of the cursor, in characters from the start.
    pub closed spec fn cursor(&self) -> int {
        self.ci as int
    }

    /// The cursor is within the text, the current character is the one
    /// under it, and the table of punctuators is as it was built.
    pub closed spec fn wf(&self) -> bool {
        &&& self.chars@ == self.input@
        &&& self.ci <= self.chars.len()
        &&& self.c == if self.ci < self.chars.len() {
            self.chars@[self.ci as int]
        } else {
            '\0'
        }
        &&& is_punctuator_table(self.punctuators@)
    }

    /// The tokens still to come, without the end-of-input marker.
    pub open spec fn remaining(&self) -> Seq<Lexeme> {
        lexemes_from(self.source(), self.cursor())
    }

    /// The cursor of a well-formed tokenizer is within the text.
    pub proof fn lemma_cursor_in_bounds(&self)
        requires
            self.wf(),
        ensures
            0 <= self.cursor() <= self.source().len(),
    {
    }

    /// A tokenizer at the start of `input`.
    pub fn new(input: &'source str) -> (lex: Self)
        ensures
            lex.wf(),
            lex.source() == input@,
            lex.cursor() == 0,
            lex.remaining() == lexemes(input@),
    {
        let punctuators = punctuator_table();
        let chars = decode(input);
        let c = if chars.len() > 0 {
            chars[0]
        } else {
            '\0'
        };
        Self { punctuators, input, chars, c, ci: 0 }
    }

    /// The next token. Blanks and characters that start no token are passed
    /// over; once the text is used up, every request gives the end-of-input
    /// marker and changes nothing.
    pub fn next_token(&mut self) -> (tok: Token<'source>)
        requires
            old(self).wf(),
        ensures
            final(self).wf(),
            final(self).source() == old(self).source(),
            tok@ == lexeme_at(old(self).source(), old(self).cursor()),
            final(self).cursor() == lexeme_end(old(self).source(), old(self).cursor()),
            old(self).cursor() <= final(self).cursor() <= final(self).source().len(),
            tok.typ == TokenType::Eof <==> old(self).remaining().len() == 0,
            tok.typ == TokenType::Eof ==> tok@ == Lexeme::eof() && final(self).remaining().len()
                == 0,
            tok.typ != TokenType::Eof ==> old(self).remaining() == seq![tok@]
                + final(self).remaining(),
            old(self).cursor() == old(self).source().len() ==> final(self).cursor() == old(
                self,
            ).cursor(),
    {
        let ghost src = self.source();
        let ghost from = self.cursor();
        proof {
            lemma_token_start_bounds(src, from);
            lemma_lexeme_end_bounds(src, from);
        }
        let mut tok = Token { literal: "", typ: TokenType::Eof };
        proof {
            reveal_strlit("");
            assert(tok.literal@ =~= Seq::<char>::empty());
        }
        loop
            invariant_except_break
                from <= self.cursor() <= src.len(),
                token_start(src, self.cursor()) == token_start(src, from),
                tok.typ == TokenType::Eof,
                tok.literal@ == Seq::<char>::empty(),
            invariant
                self.wf(),
                self.source() == src,
            ensures
                self.wf(),
                self.source() == src,
                tok@ == lexeme_at(src, from),
                self.cursor() == lexeme_end(src, from),
            decreases src.len() - self.cursor(),
        {
            self.skip_chars();
            if self.is_at_end() {
                break ;
            }
            let found = table_get(&self.punctuators, self.c as u32);
            proof {
                broadcast use axiom_u32_obeys_hash_table_key_model;

                assert(found == filed_under(self.punctuators@, self.c));
                assert(found == kind_of_char(self.c));
            }
            if let Some(tt) = found {
                tok = Token { typ: tt, literal: self.input.substring_char(self.ci, self.ci + 1) };
                self.scan_char();
                break ;
            } else if self.c.is_alphabetic() {
                proof {
                    lemma_name_end_bounds(src, self.cursor());
                }
                tok = self.scan_name();
                break ;
            } else {
                self.scan_char();
            }
        }
        proof {
            lemma_lexeme_end_bounds(src, self.cursor());
        }
        tok
    }

    /// The next token, or `None` once the text is used up.
    pub fn next(&mut self) -> (res: Option<Token<'source>>)
        requires
            old(self).wf(),
        ensures
            final(self).wf(),
            final(self).source() == old(self).source(),
            final(self).cursor() == lexeme_end(old(self).source(), old(self).cursor()),
            old(self).cursor() <= final(self).cursor() <= final(self).source().len(),
            match res {
                Some(tok) => tok@ == lexeme_at(old(self).source(), old(self).cursor())
                    && old(self).remaining() == seq![tok@] + final(self).remaining(),
                None => old(self).remaining().len() == 0 && final(self).remaining().len() == 0,
            },
    {
        let tok = self.next_token();
        if tok.typ == TokenType::Eof {
            None
        } else {
            Some(tok)
        }
    }

    /// All the tokens still to come, in order, without the end-of-input
    /// marker.
    pub fn collect(self) -> (toks: Vec<Token<'source>>)
        requires
            self.wf(),
        ensures
            lexemes_of(toks@) == self.remaining(),
    {
        let mut lex = self;
        let mut toks: Vec<Token<'source>> = Vec::new();
        proof {
            assert(lexemes_of(toks@) + lex.remaining() =~= self.remaining());
        }
        loop
            invariant
                lex.wf(),
                lexemes_of(toks@) + lex.remaining() == self.remaining(),
            ensures
                lexemes_of(toks@) == self.remaining(),
            decreases lex.remaining().len(),
        {
            let ghost done = lexemes_of(toks@);
            match lex.next() {
                Some(tok) => {
                    toks.push(tok);
                    proof {
                        assert(lexemes_of(toks@) =~= done.push(tok@));
                        assert(done.push(tok@) + lex.remaining() =~= done + (seq![tok@]
                            + lex.remaining()));
                    }
                },
                None => {
                    proof {
                        assert(done + lex.remaining() =~= done);
                    }
                    break ;
                },
            }
        }
        toks
    }

    /// Reads a name from the cursor on: the maximal run of alphabetic
    /// characters.
    fn scan_name(&mut self) -> (tok: Token<'source>)
        requires
            old(self).wf(),
        ensures
            final(self).wf(),
            final(self).source() == old(self).source(),
            final(self).cursor() == name_end(old(self).source(), old(self).cursor()),
            tok.typ == TokenType::Name,
            tok.literal@ == old(self).source().subrange(old(self).cursor(), final(self).cursor()),
    {
        let start = self.ci;
        proof {
            lemma_name_end_bounds(self.source(), self.cursor());
        }
        while !self.is_at_end() && self.c.is_alphabetic()
            invariant
                self.wf(),
                self.source() == old(self).source(),
                start <= self.ci <= self.chars.len(),
                name_end(self.source(), self.cursor()) == name_end(self.source(), start as int),
            decreases self.chars.len() - self.ci,
        {
            self.scan_char();
        }
        Token { literal: self.input.substring_char(start, self.ci), typ: TokenType::Name }
    }

    /// Moves the cursor one character on.
    fn scan_char(&mut self)
        requires
            old(self).wf(),
            old(self).cursor() < old(self).source().len(),
        ensures
            final(self).wf(),
            final(self).source() == old(self).source(),
            final(self).cursor() == old(self).cursor() + 1,
    {
        self.ci = self.ci + 1;
        if self.ci < self.chars.len() {
            self.c = self.chars[self.ci];
        } else {
            self.c = '\0';
        }
    }

    /// Moves the cursor over blanks.
    fn skip_chars(&mut self)
        requires
            old(self).wf(),
        ensures
            final(self).wf(),
            final(self).source() == old(self).source(),
            old(self).cursor() <= final(self).cursor() <= final(self).source().len(),
            token_start(final(self).source(), final(self).cursor()) == token_start(
                old(self).source(),
                old(self).cursor(),
            ),
            final(self).cursor() < final(self).source().len() ==> !is_blank(
                final(self).source()[final(self).cursor()],
            ),
    {
        while self.c == ' ' || self.c == '\t' || self.c == '\r' || self.c == '\n'
            invariant
                self.wf(),
                self.source() == old(self).source(),
                old(self).cursor() <= self.cursor() <= self.source().len(),
                token_start(self.source(), self.cursor()) == token_start(
                    old(self).source(),
                    old(self).cursor(),
                ),
            decreases self.chars.len() - self.ci,
        {
            self.scan_char()
        }
    }

    /// The cursor is at the end of the text.
    fn is_at_end(&self) -> (at_end: bool)
        requires
            self.wf(),
        ensures
            at_end == (self.cursor() >= self.source().len()),
    {
        self.ci >= self.chars.len()
    }
}

} // verus!
