//! The scanner: a cursor over the bytes of the source text that yields one
//! token per pull.

use super::grammar::{
    in_class, is_digit, is_letter, lemma_run_end, run_end, scan, tentative_kind, text_of, tokens,
    tokens_from, word_kind, ByteClass, CH_ASSIGN, CH_COMMA, CH_DIGIT_0, CH_DIGIT_9, CH_LBRACE,
    CH_LOWER_A, CH_LOWER_Z, CH_LPAREN, CH_NEWLINE, CH_NUL, CH_PLUS, CH_RBRACE, CH_RPAREN,
    CH_SEMICOLON, CH_SPACE, CH_UNDERSCORE, CH_UPPER_A, CH_UPPER_Z,
};
use super::text::{lemma_ascii_bytes, string_from_char, string_from_utf8};
use super::types::{views, Token, TokenType, TokenView};
use vstd::prelude::*;
use vstd::slice::{slice_subrange, slice_to_vec};
use vstd::utf8::encode_utf8;

verus! {

/// Whether `b` belongs to `class`.
fn byte_in_class(class: ByteClass, b: u8) -> (member: bool)
    ensures
        member == in_class(class, b),
{
    match class {
        ByteClass::Blank => b == CH_SPACE || b == CH_NEWLINE,
        ByteClass::Letter => (CH_LOWER_A <= b && b <= CH_LOWER_Z) || (CH_UPPER_A <= b && b
            <= CH_UPPER_Z) || b == CH_UNDERSCORE,
        ByteClass::Digit => CH_DIGIT_0 <= b && b <= CH_DIGIT_9,
    }
}

/// The kind that a token's first byte suggests.
fn classify(b: u8) -> (kind: TokenType)
    ensures
        kind == tentative_kind(b),
{
    if b == CH_ASSIGN {
        TokenType::ASSIGN
    } else if b == CH_PLUS {
        TokenType::PLUS
    } else if b == CH_LPAREN {
        TokenType::LPAREN
    } else if b == CH_RPAREN {
        TokenType::RPAREN
    } else if b == CH_LBRACE {
        TokenType::LBRACE
    } else if b == CH_RBRACE {
        TokenType::RBRACE
    } else if b == CH_COMMA {
        TokenType::COMMA
    } else if b == CH_SEMICOLON {
        TokenType::SEMICOLON
    } else if b == CH_NUL {
        TokenType::EOF
    } else if byte_in_class(ByteClass::Digit, b) {
        TokenType::INT
    } else if byte_in_class(ByteClass::Letter, b) {
        TokenType::IDENT
    } else {
        TokenType::ILLEGAL
    }
}

/// Whether two texts hold the same characters.
fn same_text(a: &str, b: &str) -> (same: bool)
    ensures
        same == (a@ == b@),
{
    let x = a.as_bytes();
    let y = b.as_bytes();
    proof {
        // A text is what its encoding decodes to, so two texts are the same
        // exactly when their encodings are.
        vstd::utf8::encode_utf8_decode_utf8(a@);
        vstd::utf8::encode_utf8_decode_utf8(b@);
    }
    if x.len() != y.len() {
        return false;
    }
    let mut i: usize = 0;
    while i < x.len()
        invariant
            i <= x@.len(),
            x@.len() == y@.len(),
            forall|k: int| 0 <= k < i ==> x@[k] == y@[k],
            x@ == y@ <==> a@ == b@,
        decreases x@.len() - i,
    {
        if x[i] != y[i] {
            return false;
        }
        i += 1;
    }
    assert(x@ =~= y@);
    true
}

/// The kind of a word: that of the keyword it spells, or an identifier.
fn lookup_word(word: &str) -> (kind: TokenType)
    ensures
        kind == word_kind(word@),
{
    if same_text(word, "let") {
        TokenType::LET
    } else if same_text(word, "fn") {
        TokenType::FUNCTION
    } else {
        TokenType::IDENT
    }
}

/// A scanner over a source text. It borrows the text and reads its bytes
/// front to back: the cursor stands at the next byte to read, which is all
/// the lookahead there is, and never moves back. Once it has given out an
/// `EOF` token it is exhausted and gives out nothing more.
pub struct Lexer<'a> {
    input: &'a [u8],
    pos: usize,
    done: bool,
}

impl<'a> Lexer<'a> {
    /// The cursor never leaves the source.
    #[verifier::type_invariant]
    spec fn cursor_in_source(self) -> bool {
        self.pos <= self.input@.len()
    }

    /// The bytes of the source text.
    pub closed spec fn source(&self) -> Seq<u8> {
        self.input@
    }

    /// The position of the next byte to read.
    pub closed spec fn cursor(&self) -> int {
        self.pos as int
    }

    /// Whether the `EOF` token has been given out.
    pub closed spec fn exhausted(&self) -> bool {
        self.done
    }

    /// The tokens that are still to come.
    pub open spec fn remaining(&self) -> Seq<TokenView> {
        if self.exhausted() {
            Seq::empty()
        } else {
            tokens_from(self.source(), self.cursor())
        }
    }

    /// A scanner at the start of `input`, with every token of it still to
    /// come. The source is the UTF-8 encoding of the text.
    pub fn new(input: &'a String) -> (lexer: Self)
        ensures
            lexer.source() == encode_utf8(input@),
            lexer.cursor() == 0,
            !lexer.exhausted(),
            lexer.remaining() == tokens(encode_utf8(input@)),
    {
        Lexer { input: input.as_str().as_bytes(), pos: 0, done: false }
    }

    /// Moves the cursor past the run of bytes of `class` that it stands at.
    fn skip_run(&mut self, class: ByteClass)
        ensures
            final(self).source() == old(self).source(),
            final(self).exhausted() == old(self).exhausted(),
            final(self).cursor() == run_end(old(self).source(), old(self).cursor(), class),
    {
        proof {
            use_type_invariant(&*self);
        }
        while self.pos < self.input.len() && byte_in_class(class, self.input[self.pos])
            invariant
                self.input == old(self).input,
                self.done == old(self).done,
                self.pos <= self.input@.len(),
                run_end(self.input@, self.pos as int, class) == run_end(
                    old(self).input@,
                    old(self).pos as int,
                    class,
                ),
            decreases self.input@.len() - self.pos,
        {
            self.pos += 1;
        }
    }

    /// Reads the run of bytes of `class` that the cursor stands at, and
    /// returns it as text.
    fn read_run(&mut self, class: ByteClass) -> (literal: Option<String>)
        ensures
            final(self).source() == old(self).source(),
            final(self).exhausted() == old(self).exhausted(),
            final(self).cursor() == run_end(old(self).source(), old(self).cursor(), class),
            literal matches Some(run) && run@ == text_of(
                old(self).source().subrange(old(self).cursor(), final(self).cursor()),
            ),
    {
        proof {
            use_type_invariant(&*self);
        }
        let start = self.pos;
        self.skip_run(class);
        proof {
            use_type_invariant(&*self);
            lemma_run_end(self.input@, start as int, class);
        }
        let bytes = slice_to_vec(slice_subrange(self.input, start, self.pos));
        proof {
            assert forall|i: int| 0 <= i < bytes@.len() implies #[trigger] bytes@[i] < 0x80 by {
                assert(in_class(class, self.input@[start + i]));
            }
            lemma_ascii_bytes(bytes@);
            vstd::utf8::encode_utf8_decode_utf8(text_of(bytes@));
        }
        let literal = string_from_utf8(bytes);
        proof {
            vstd::utf8::encode_utf8_decode_utf8(literal.unwrap()@);
        }
        literal
    }

    /// Reads the letters and underscores that the cursor stands at, as far as
    /// they go, and returns them as text. Every byte passed over is a letter
    /// or an underscore, and the byte that the cursor is left at, if there is
    /// one, is not. The text is empty where the cursor stands at none, and it
    /// is never `None`: letters are text whatever stands around them.
    pub fn read_identifier(&mut self) -> (literal: Option<String>)
        ensures
            final(self).source() == old(self).source(),
            final(self).exhausted() == old(self).exhausted(),
            old(self).cursor() <= final(self).cursor() <= final(self).source().len(),
            final(self).cursor() == run_end(
                old(self).source(),
                old(self).cursor(),
                ByteClass::Letter,
            ),
            forall|k: int|
                old(self).cursor() <= k < final(self).cursor() ==> is_letter(
                    #[trigger] final(self).source()[k],
                ),
            final(self).cursor() < final(self).source().len() ==> !is_letter(
                final(self).source()[final(self).cursor()],
            ),
            literal matches Some(word) && word@ == text_of(
                old(self).source().subrange(old(self).cursor(), final(self).cursor()),
            ),
    {
        proof {
            use_type_invariant(&*self);
            lemma_run_end(self.input@, self.pos as int, ByteClass::Letter);
        }
        self.read_run(ByteClass::Letter)
    }

    /// Reads the digits that the cursor stands at, as far as they go, and
    /// returns them as text. Every byte passed over is a digit, and the byte
    /// that the cursor is left at, if there is one, is not. The text is empty
    /// where the cursor stands at none, and it is never `None`.
    pub fn read_int(&mut self) -> (literal: Option<String>)
        ensures
            final(self).source() == old(self).source(),
            final(self).exhausted() == old(self).exhausted(),
            old(self).cursor() <= final(self).cursor() <= final(self).source().len(),
            final(self).cursor() == run_end(
                old(self).source(),
                old(self).cursor(),
                ByteClass::Digit,
            ),
            forall|k: int|
                old(self).cursor() <= k < final(self).cursor() ==> is_digit(
                    #[trigger] final(self).source()[k],
                ),
            final(self).cursor() < final(self).source().len() ==> !is_digit(
                final(self).source()[final(self).cursor()],
            ),
            literal matches Some(digits) && digits@ == text_of(
                old(self).source().subrange(old(self).cursor(), final(self).cursor()),
            ),
    {
        proof {
            use_type_invariant(&*self);
            lemma_run_end(self.input@, self.pos as int, ByteClass::Digit);
        }
        self.read_run(ByteClass::Digit)
    }

    /// Yields the next token, or `None` once the `EOF` token has been given
    /// out; from then on every call yields `None` and changes nothing.
    /// Blanks before the token are passed over. The token is the one that
    /// the grammar finds at the cursor, and the cursor moves past it. An
    /// unknown byte is no failure: it is an `ILLEGAL` token like any other.
    /// What was still to come before the call is this token followed by what
    /// is still to come after it.
    pub fn next(&mut self) -> (token: Option<Token>)
        ensures
            final(self).source() == old(self).source(),
            old(self).cursor() <= final(self).cursor() <= final(self).source().len(),
            old(self).exhausted() ==> token is None && final(self).exhausted()
                && final(self).cursor() == old(self).cursor(),
            !old(self).exhausted() ==> ({
                let step = scan(old(self).source(), old(self).cursor());
                &&& token matches Some(t) && t@ == step.token
                &&& final(self).cursor() == step.next
                &&& final(self).exhausted() == (step.token.kind == TokenType::EOF)
            }),
            old(self).remaining() == (match token {
                Some(t) => seq![t@] + final(self).remaining(),
                None => Seq::empty(),
            }),
    {
        proof {
            use_type_invariant(&*self);
        }
        if self.done {
            return None;
        }
        let ghost source = self.input@;
        let ghost step = scan(source, self.pos as int);
        self.skip_run(ByteClass::Blank);
        proof {
            use_type_invariant(&*self);
            lemma_run_end(source, old(self).pos as int, ByteClass::Blank);
        }
        if self.pos >= self.input.len() {
            self.done = true;
            let token = Token::new(TokenType::EOF, "");
            proof {
                reveal_strlit("");
                assert(token@.literal =~= Seq::<char>::empty());
                assert(seq![token@] + self.remaining() =~= seq![token@]);
            }
            return Some(token);
        }
        let start = self.pos;
        let first = self.input[start];
        let tentative = classify(first);
        proof {
            lemma_run_end(source, start as int, ByteClass::Letter);
            lemma_run_end(source, start as int, ByteClass::Digit);
        }
        let literal = match tentative {
            TokenType::IDENT => self.read_identifier(),
            TokenType::INT => self.read_int(),
            _ => {
                self.pos += 1;
                Some(string_from_char(first as char))
            },
        }?;
        let ttype = match tentative {
            TokenType::IDENT => lookup_word(literal.as_str()),
            _ => tentative,
        };
        if ttype == TokenType::EOF {
            self.done = true;
        }
        let token = Token::new(ttype, literal.as_str());
        proof {
            assert(token@.literal =~= step.token.literal);
            assert(token@ == step.token);
        }
        Some(token)
    }

    /// Pulls every token that is still to come, the `EOF` token last, and
    /// returns them in order.
    pub fn collect(self) -> (all: Vec<Token>)
        ensures
            views(all@) == self.remaining(),
    {
        let mut lexer = self;
        let mut all: Vec<Token> = Vec::new();
        assert(views(all@) + lexer.remaining() =~= self.remaining());
        loop
            invariant
                views(all@) + lexer.remaining() == self.remaining(),
            ensures
                views(all@) == self.remaining(),
            decreases lexer.remaining().len(),
        {
            let ghost pulled = views(all@);
            match lexer.next() {
                Some(token) => {
                    all.push(token);
                    assert(views(all@) =~= pulled + seq![token@]);
                    assert(views(all@) + lexer.remaining() =~= self.remaining());
                },
                None => {
                    assert(pulled + Seq::<TokenView>::empty() =~= pulled);
                    break ;
                },
            }
        }
        all
    }
}

} // verus!
