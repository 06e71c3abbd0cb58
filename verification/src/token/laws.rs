//! What holds of every token sequence, proved from the grammar.

use super::grammar::{
    in_class, is_blank, is_digit, is_letter, lemma_run_end, lemma_run_end_unique,
    lemma_step_advances, run_end, scan, tentative_kind, text_of, tokens, tokens_from, word_kind,
    ByteClass, CH_ASSIGN, CH_COMMA, CH_LBRACE, CH_LPAREN, CH_PLUS, CH_RBRACE, CH_RPAREN,
    CH_SEMICOLON,
};
use super::text::lemma_ascii_bytes;
use super::types::{TokenType, TokenView};
use vstd::prelude::*;
use vstd::utf8::encode_utf8;

verus! {

/// The token that ends every sequence where the source ends: an `EOF` with an
/// empty literal.
pub open spec fn end_token() -> TokenView {
    TokenView { kind: TokenType::EOF, literal: Seq::empty() }
}

/// The token that a byte makes by itself.
pub open spec fn single_token(b: u8) -> TokenView {
    TokenView { kind: tentative_kind(b), literal: seq![b as char] }
}

/// The eight punctuation marks: `=`, `+`, `(`, `)`, `{`, `}`, `,` and `;`.
pub open spec fn is_symbol(b: u8) -> bool {
    b == CH_ASSIGN || b == CH_PLUS || b == CH_LPAREN || b == CH_RPAREN || b == CH_LBRACE || b
        == CH_RBRACE || b == CH_COMMA || b == CH_SEMICOLON
}

/// A byte that is neither a blank, a letter nor a digit is one token by
/// itself, and the cursor moves one byte on.
pub proof fn lemma_scan_single(s: Seq<u8>, pos: int)
    requires
        0 <= pos < s.len(),
        !is_blank(s[pos]),
        !is_letter(s[pos]),
        !is_digit(s[pos]),
    ensures
        scan(s, pos).token == single_token(s[pos]),
        scan(s, pos).next == pos + 1,
{
    assert(run_end(s, pos, ByteClass::Blank) == pos);
    assert(text_of(s.subrange(pos, pos + 1)) =~= seq![s[pos] as char]);
}

/// The punctuation law, from any position on.
proof fn lemma_symbols_from(s: Seq<u8>, pos: int)
    requires
        0 <= pos <= s.len(),
        forall|i: int| 0 <= i < s.len() ==> is_symbol(#[trigger] s[i]),
    ensures
        tokens_from(s, pos) == Seq::new((s.len() - pos) as nat, |i: int| single_token(s[pos + i]))
            + seq![end_token()],
    decreases s.len() - pos,
{
    let rest = Seq::new((s.len() - pos) as nat, |i: int| single_token(s[pos + i]));
    if pos == s.len() {
        assert(run_end(s, pos, ByteClass::Blank) == pos);
        assert(tokens_from(s, pos) =~= rest + seq![end_token()]);
    } else {
        assert(is_symbol(s[pos]));
        lemma_scan_single(s, pos);
        lemma_symbols_from(s, pos + 1);
        let tail = Seq::new((s.len() - (pos + 1)) as nat, |i: int| single_token(s[pos + 1 + i]));
        assert(rest =~= seq![single_token(s[pos])] + tail);
        assert(tokens_from(s, pos) =~= rest + seq![end_token()]);
    }
}

/// A source made of punctuation marks alone yields one token for each byte,
/// in order, each of the kind of its mark and with the mark as its literal,
/// and then one `EOF`.
pub proof fn lemma_symbols_yield_one_token_each(s: Seq<u8>)
    requires
        forall|i: int| 0 <= i < s.len() ==> is_symbol(#[trigger] s[i]),
    ensures
        tokens(s) == Seq::new(s.len(), |i: int| single_token(s[i])) + seq![end_token()],
{
    lemma_symbols_from(s, 0);
    assert(Seq::new((s.len() - 0) as nat, |i: int| single_token(s[0 + i])) =~= Seq::new(
        s.len(),
        |i: int| single_token(s[i]),
    ));
}

/// The shape of a token sequence, from any position on.
proof fn lemma_shape_from(s: Seq<u8>, pos: int)
    requires
        0 <= pos <= s.len(),
    ensures
        1 <= tokens_from(s, pos).len() <= s.len() - pos + 1,
        tokens_from(s, pos).last().kind == TokenType::EOF,
        forall|i: int|
            0 <= i < tokens_from(s, pos).len() - 1 ==> (#[trigger] tokens_from(s, pos)[i]).kind
                != TokenType::EOF,
    decreases s.len() - pos,
{
    let step = scan(s, pos);
    lemma_step_advances(s, pos);
    if step.token.kind != TokenType::EOF {
        lemma_shape_from(s, step.next);
        let rest = tokens_from(s, step.next);
        assert(tokens_from(s, pos) =~= seq![step.token] + rest);
        assert forall|i: int| 0 <= i < tokens_from(s, pos).len() - 1 implies (
        #[trigger] tokens_from(s, pos)[i]).kind != TokenType::EOF by {
            if i > 0 {
                assert(tokens_from(s, pos)[i] == rest[i - 1]);
            }
        }
    }
}

/// A token sequence is finite, with at most one token for each byte of the
/// source and one more. Its last token is an `EOF`, and no token before the
/// last is one: nothing follows the `EOF`.
pub proof fn lemma_eof_is_last_and_only(s: Seq<u8>)
    ensures
        1 <= tokens(s).len() <= s.len() + 1,
        tokens(s).last().kind == TokenType::EOF,
        forall|i: int|
            0 <= i < tokens(s).len() - 1 ==> (#[trigger] tokens(s)[i]).kind != TokenType::EOF,
{
    lemma_shape_from(s, 0);
}

/// Where the `i`-th token from `pos` on is found.
proof fn lemma_token_is_a_step_from(s: Seq<u8>, pos: int, i: int) -> (at: int)
    requires
        0 <= pos <= s.len(),
        0 <= i < tokens_from(s, pos).len(),
    ensures
        pos <= at <= s.len(),
        tokens_from(s, pos)[i] == scan(s, at).token,
    decreases i,
{
    if i == 0 {
        pos
    } else {
        lemma_step_advances(s, pos);
        lemma_token_is_a_step_from(s, scan(s, pos).next, i - 1)
    }
}

/// Every token of a sequence is what one step of the scanner finds at some
/// position of the source. The position is returned.
pub proof fn lemma_token_is_a_step(s: Seq<u8>, i: int) -> (at: int)
    requires
        0 <= i < tokens(s).len(),
    ensures
        0 <= at <= s.len(),
        tokens(s)[i] == scan(s, at).token,
{
    lemma_token_is_a_step_from(s, 0, i)
}

/// A token's literal is the text of the bytes that its step matched: the
/// span from `at.0` to `at.1`, which begins after the blanks that the step
/// passed over and ends where the step left the cursor. The span is returned.
pub proof fn lemma_literal_is_source_text(s: Seq<u8>, i: int) -> (at: (int, int))
    requires
        0 <= i < tokens(s).len(),
    ensures
        0 <= at.0 <= at.1 <= s.len(),
        tokens(s)[i].literal == text_of(s.subrange(at.0, at.1)),
        tokens(s)[i].kind != TokenType::EOF ==> at.0 < at.1,
{
    let pos = lemma_token_is_a_step(s, i);
    lemma_run_end(s, pos, ByteClass::Blank);
    lemma_step_advances(s, pos);
    let start = run_end(s, pos, ByteClass::Blank);
    if start < s.len() {
        lemma_run_end(s, start, ByteClass::Letter);
        lemma_run_end(s, start, ByteClass::Digit);
    } else {
        assert(text_of(s.subrange(start, start)) =~= Seq::<char>::empty());
    }
    (start, scan(s, pos).next)
}

/// The characters that a word is made of.
pub open spec fn is_letter_char(c: char) -> bool {
    ('a' <= c <= 'z') || ('A' <= c <= 'Z') || c == '_'
}

/// A word: one letter or underscore at least, and nothing else.
pub open spec fn is_word(text: Seq<char>) -> bool {
    text.len() > 0 && forall|i: int| 0 <= i < text.len() ==> is_letter_char(#[trigger] text[i])
}

/// A step yields a word's kind exactly when its literal is a word, and then
/// the kind is the one that the word has.
proof fn lemma_step_word(s: Seq<u8>, pos: int)
    requires
        0 <= pos <= s.len(),
    ensures
        ({
            let t = scan(s, pos).token;
            &&& is_word(t.literal) <==> (t.kind == TokenType::IDENT || t.kind == TokenType::LET
                || t.kind == TokenType::FUNCTION)
            &&& is_word(t.literal) ==> t.kind == word_kind(t.literal)
        }),
{
    lemma_run_end(s, pos, ByteClass::Blank);
    let start = run_end(s, pos, ByteClass::Blank);
    let t = scan(s, pos).token;
    if start < s.len() {
        lemma_run_end(s, start, ByteClass::Letter);
        lemma_run_end(s, start, ByteClass::Digit);
        let first = s[start];
        match tentative_kind(first) {
            TokenType::IDENT => {
                assert forall|i: int| 0 <= i < t.literal.len() implies is_letter_char(
                    #[trigger] t.literal[i],
                ) by {
                    assert(in_class(ByteClass::Letter, s[start + i]));
                }
            },
            TokenType::INT => {
                assert(in_class(ByteClass::Digit, s[start]));
                assert(t.literal[0] == first as char);
                assert(!is_letter_char(t.literal[0]));
            },
            _ => {
                assert(t.literal[0] == first as char);
                assert(!is_letter_char(t.literal[0]));
            },
        }
    }
}

/// Keywords take precedence. A token is a `LET` exactly when its literal is
/// `let`, and a `FUNCTION` exactly when its literal is `fn`. A token whose
/// literal is any other word is an `IDENT`, and no other token is one.
pub proof fn lemma_keywords_take_precedence(s: Seq<u8>, i: int)
    requires
        0 <= i < tokens(s).len(),
    ensures
        tokens(s)[i].kind == TokenType::LET <==> tokens(s)[i].literal == "let"@,
        tokens(s)[i].kind == TokenType::FUNCTION <==> tokens(s)[i].literal == "fn"@,
        tokens(s)[i].kind == TokenType::IDENT <==> is_word(tokens(s)[i].literal) && tokens(
            s,
        )[i].literal != "let"@ && tokens(s)[i].literal != "fn"@,
{
    let at = lemma_token_is_a_step(s, i);
    lemma_step_word(s, at);
    reveal_strlit("let");
    reveal_strlit("fn");
    assert(is_word("let"@));
    assert(is_word("fn"@));
}

/// The characters that a number is made of.
pub open spec fn is_digit_char(c: char) -> bool {
    '0' <= c <= '9'
}

/// A number: one digit at least, and nothing else.
pub open spec fn is_number(text: Seq<char>) -> bool {
    text.len() > 0 && forall|i: int| 0 <= i < text.len() ==> is_digit_char(#[trigger] text[i])
}

/// A step yields an `INT` exactly when its literal is a number.
proof fn lemma_step_number(s: Seq<u8>, pos: int)
    requires
        0 <= pos <= s.len(),
    ensures
        scan(s, pos).token.kind == TokenType::INT <==> is_number(scan(s, pos).token.literal),
{
    lemma_run_end(s, pos, ByteClass::Blank);
    let start = run_end(s, pos, ByteClass::Blank);
    let t = scan(s, pos).token;
    if start < s.len() {
        lemma_run_end(s, start, ByteClass::Letter);
        lemma_run_end(s, start, ByteClass::Digit);
        let first = s[start];
        match tentative_kind(first) {
            TokenType::IDENT => {
                assert(in_class(ByteClass::Letter, s[start]));
                assert(t.literal[0] == first as char);
                assert(!is_digit_char(t.literal[0]));
            },
            TokenType::INT => {
                assert forall|i: int| 0 <= i < t.literal.len() implies is_digit_char(
                    #[trigger] t.literal[i],
                ) by {
                    assert(in_class(ByteClass::Digit, s[start + i]));
                }
            },
            _ => {
                assert(t.literal[0] == first as char);
                assert(!is_digit_char(t.literal[0]));
            },
        }
    }
}

/// A token is an `INT` exactly when its literal is a number. No number is
/// empty.
pub proof fn lemma_integers_are_numbers(s: Seq<u8>, i: int)
    requires
        0 <= i < tokens(s).len(),
    ensures
        tokens(s)[i].kind == TokenType::INT <==> is_number(tokens(s)[i].literal),
{
    let at = lemma_token_is_a_step(s, i);
    lemma_step_number(s, at);
}

/// A byte above the ASCII range stands for a character whose encoding
/// begins with a byte above that range too.
proof fn lemma_encode_high_byte(b: u8)
    requires
        b >= 0x80,
    ensures
        encode_utf8(seq![b as char]).len() > 0,
        encode_utf8(seq![b as char])[0] >= 0x80,
{
    let text = seq![b as char];
    let scalar = b as u32;
    assert(text[0] as u32 == scalar);
    assert(vstd::utf8::has_width_2_encoding(scalar));
    assert(vstd::utf8::leading_byte_width_2(scalar) >= 0x80) by (bit_vector)
        requires
            0x80 <= scalar <= 0xff,
    ;
    assert(encode_utf8(text) == vstd::utf8::encode_scalar(scalar) + encode_utf8(
        text.drop_first(),
    ));
}

/// The literal of a step's token, read alone, begins with a token of the
/// same kind.
proof fn lemma_step_relex(s: Seq<u8>, pos: int)
    requires
        0 <= pos <= s.len(),
    ensures
        tokens(encode_utf8(scan(s, pos).token.literal))[0].kind == scan(s, pos).token.kind,
{
    lemma_run_end(s, pos, ByteClass::Blank);
    let start = run_end(s, pos, ByteClass::Blank);
    let t = scan(s, pos).token;
    let again = encode_utf8(t.literal);
    if start < s.len() {
        lemma_run_end(s, start, ByteClass::Letter);
        lemma_run_end(s, start, ByteClass::Digit);
        let first = s[start];
        match tentative_kind(first) {
            TokenType::IDENT => {
                let run = s.subrange(start, run_end(s, start, ByteClass::Letter));
                lemma_run_is_one_token(run, ByteClass::Letter);
            },
            TokenType::INT => {
                let run = s.subrange(start, run_end(s, start, ByteClass::Digit));
                lemma_run_is_one_token(run, ByteClass::Digit);
            },
            _ => {
                assert(t.literal =~= seq![first as char]);
                if first < 0x80 {
                    let one = seq![first];
                    lemma_ascii_bytes(one);
                    assert(text_of(one) =~= t.literal);
                    lemma_scan_single(one, 0);
                } else {
                    lemma_encode_high_byte(first);
                    lemma_scan_single(again, 0);
                }
            },
        }
    } else {
        assert(again =~= Seq::<u8>::empty());
    }
}

/// A source that is one run of letters, or one run of digits, is read as a
/// whole by the first step, and its text encodes to the source again.
proof fn lemma_run_is_one_token(run: Seq<u8>, class: ByteClass)
    requires
        class != ByteClass::Blank,
        run.len() > 0,
        forall|k: int| 0 <= k < run.len() ==> in_class(class, #[trigger] run[k]),
    ensures
        encode_utf8(text_of(run)) == run,
        scan(run, 0).next == run.len(),
        scan(run, 0).token.literal == text_of(run),
        class == ByteClass::Letter ==> scan(run, 0).token.kind == word_kind(text_of(run)),
        class == ByteClass::Digit ==> scan(run, 0).token.kind == TokenType::INT,
{
    assert forall|k: int| 0 <= k < run.len() implies #[trigger] run[k] < 0x80 by {
        assert(in_class(class, run[k]));
    }
    lemma_ascii_bytes(run);
    assert(in_class(class, run[0]));
    assert(run_end(run, 0, ByteClass::Blank) == 0);
    lemma_run_end_unique(run, 0, class, run.len() as int);
    assert(run.subrange(0, run.len() as int) =~= run);
}

/// Reading a token's literal as a source of its own gives a token of the
/// same kind first.
pub proof fn lemma_relexing_keeps_the_kind(s: Seq<u8>, i: int)
    requires
        0 <= i < tokens(s).len(),
    ensures
        tokens(encode_utf8(tokens(s)[i].literal))[0].kind == tokens(s)[i].kind,
{
    let at = lemma_token_is_a_step(s, i);
    lemma_step_relex(s, at);
}

/// A run ends at the same byte whether or not the bytes before `from` are
/// there.
proof fn lemma_run_end_of_the_rest(s: Seq<u8>, from: int, pos: int, class: ByteClass)
    requires
        0 <= from <= pos <= s.len(),
    ensures
        run_end(s.subrange(from, s.len() as int), pos - from, class) == run_end(s, pos, class)
            - from,
    decreases s.len() - pos,
{
    let rest = s.subrange(from, s.len() as int);
    if pos < s.len() {
        assert(rest[pos - from] == s[pos]);
        if in_class(class, s[pos]) {
            lemma_run_end_of_the_rest(s, from, pos + 1, class);
        }
    }
}

/// A step finds the same token whether or not the bytes before `from` are
/// there.
proof fn lemma_scan_of_the_rest(s: Seq<u8>, from: int, pos: int)
    requires
        0 <= from <= pos <= s.len(),
    ensures
        scan(s.subrange(from, s.len() as int), pos - from).token == scan(s, pos).token,
        scan(s.subrange(from, s.len() as int), pos - from).next == scan(s, pos).next - from,
{
    let rest = s.subrange(from, s.len() as int);
    lemma_run_end(s, pos, ByteClass::Blank);
    lemma_run_end_of_the_rest(s, from, pos, ByteClass::Blank);
    let start = run_end(s, pos, ByteClass::Blank);
    if start < s.len() {
        assert(rest[start - from] == s[start]);
        lemma_run_end(s, start, ByteClass::Letter);
        lemma_run_end(s, start, ByteClass::Digit);
        lemma_run_end_of_the_rest(s, from, start, ByteClass::Letter);
        lemma_run_end_of_the_rest(s, from, start, ByteClass::Digit);
        let letters = run_end(s, start, ByteClass::Letter);
        let digits = run_end(s, start, ByteClass::Digit);
        assert(rest.subrange(start - from, letters - from) =~= s.subrange(start, letters));
        assert(rest.subrange(start - from, digits - from) =~= s.subrange(start, digits));
        assert(rest.subrange(start - from, start - from + 1) =~= s.subrange(start, start + 1));
    }
}

/// The tokens from `pos` on are the same whether or not the bytes before
/// `from` are there.
proof fn lemma_tokens_of_the_rest_from(s: Seq<u8>, from: int, pos: int)
    requires
        0 <= from <= pos <= s.len(),
    ensures
        tokens_from(s.subrange(from, s.len() as int), pos - from) == tokens_from(s, pos),
    decreases s.len() - pos,
{
    lemma_scan_of_the_rest(s, from, pos);
    lemma_step_advances(s, pos);
    if scan(s, pos).token.kind != TokenType::EOF {
        lemma_tokens_of_the_rest_from(s, from, scan(s, pos).next);
    }
}

/// What comes before a position has no part in the tokens from that position
/// on: they are the tokens of the rest of the source, read as a source of its
/// own.
pub proof fn lemma_tokens_of_the_rest(s: Seq<u8>, pos: int)
    requires
        0 <= pos <= s.len(),
    ensures
        tokens_from(s, pos) == tokens(s.subrange(pos, s.len() as int)),
{
    lemma_tokens_of_the_rest_from(s, pos, pos);
}

/// An illegal byte is one `ILLEGAL` token and stops nothing: the tokens after
/// it are the tokens of the source that follows it.
pub proof fn lemma_illegal_byte_is_isolated(b: u8, rest: Seq<u8>)
    requires
        tentative_kind(b) == TokenType::ILLEGAL,
        !is_blank(b),
    ensures
        single_token(b).kind == TokenType::ILLEGAL,
        tokens(seq![b] + rest) == seq![single_token(b)] + tokens(rest),
{
    let s = seq![b] + rest;
    lemma_scan_single(s, 0);
    lemma_tokens_of_the_rest(s, 1);
    assert(s.subrange(1, s.len() as int) =~= rest);
}

} // verus!
