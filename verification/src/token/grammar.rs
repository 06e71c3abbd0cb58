//! The lexical grammar, stated over the bytes of the source text.
//!
//! Everything here is mathematics: the classes of byte, the longest run of a
//! class, the token that starts at a position, and the whole token sequence
//! of a source. The scanner's contracts are written in these terms.

use super::types::{TokenType, TokenView};
use vstd::prelude::*;

verus! {

/// The null byte.
pub const CH_NUL: u8 = 0x00;

/// The newline.
pub const CH_NEWLINE: u8 = 0x0a;

/// The space.
pub const CH_SPACE: u8 = 0x20;

/// `(`
pub const CH_LPAREN: u8 = 0x28;

/// `)`
pub const CH_RPAREN: u8 = 0x29;

/// `+`
pub const CH_PLUS: u8 = 0x2b;

/// `,`
pub const CH_COMMA: u8 = 0x2c;

/// `0`
pub const CH_DIGIT_0: u8 = 0x30;

/// `9`
pub const CH_DIGIT_9: u8 = 0x39;

/// `;`
pub const CH_SEMICOLON: u8 = 0x3b;

/// `=`
pub const CH_ASSIGN: u8 = 0x3d;

/// `A`
pub const CH_UPPER_A: u8 = 0x41;

/// `Z`
pub const CH_UPPER_Z: u8 = 0x5a;

/// `_`
pub const CH_UNDERSCORE: u8 = 0x5f;

/// `a`
pub const CH_LOWER_A: u8 = 0x61;

/// `z`
pub const CH_LOWER_Z: u8 = 0x7a;

/// `{`
pub const CH_LBRACE: u8 = 0x7b;

/// `}`
pub const CH_RBRACE: u8 = 0x7d;

/// The classes of byte that the scanner consumes in runs.
#[derive(Clone, Copy, PartialEq, Eq, Structural)]
pub enum ByteClass {
    /// A space or a newline.
    Blank,
    /// An ASCII letter or an underscore.
    Letter,
    /// An ASCII digit.
    Digit,
}

/// Whitespace between tokens: a space or a newline, and nothing else.
pub open spec fn is_blank(b: u8) -> bool {
    b == CH_SPACE || b == CH_NEWLINE
}

/// What an identifier is made of: `a`..`z`, `A`..`Z` and `_`. Digits are not
/// part of it.
pub open spec fn is_letter(b: u8) -> bool {
    (CH_LOWER_A <= b <= CH_LOWER_Z) || (CH_UPPER_A <= b <= CH_UPPER_Z) || b == CH_UNDERSCORE
}

/// What an integer is made of: `0`..`9`.
pub open spec fn is_digit(b: u8) -> bool {
    CH_DIGIT_0 <= b <= CH_DIGIT_9
}

/// Whether `b` belongs to `class`.
pub open spec fn in_class(class: ByteClass, b: u8) -> bool {
    match class {
        ByteClass::Blank => is_blank(b),
        ByteClass::Letter => is_letter(b),
        ByteClass::Digit => is_digit(b),
    }
}

/// The position just past the longest run of bytes of `class` that begins at
/// `start`. It is `start` itself where no such byte stands there.
pub open spec fn run_end(s: Seq<u8>, start: int, class: ByteClass) -> int
    decreases s.len() - start,
{
    if 0 <= start < s.len() && in_class(class, s[start]) {
        run_end(s, start + 1, class)
    } else {
        start
    }
}

/// The kind that a token's first byte suggests, before any literal is read.
pub open spec fn tentative_kind(b: u8) -> TokenType {
    if b == CH_ASSIGN {
        TokenType::ASSIGN
    } else if b == CH_PLUS {
        TokenType::PLUS
    } else if b == CH_LPAREN {
        TokenType::LPAREN
    } else if b == CH_RPAREN {
        TokenType::RPAREN
    } else if b == CH_LBRACE {
        TokenType::LBRACE
    } else if b == CH_RBRACE {
        TokenType::RBRACE
    } else if b == CH_COMMA {
        TokenType::COMMA
    } else if b == CH_SEMICOLON {
        TokenType::SEMICOLON
    } else if b == CH_NUL {
        TokenType::EOF
    } else if is_digit(b) {
        TokenType::INT
    } else if is_letter(b) {
        TokenType::IDENT
    } else {
        TokenType::ILLEGAL
    }
}

/// The characters that stand for the given bytes, one for one: byte `b`
/// becomes the character with code point `b`.
pub open spec fn text_of(bytes: Seq<u8>) -> Seq<char> {
    Seq::new(bytes.len(), |i: int| bytes[i] as char)
}

/// The kind of a word: a keyword's kind where the word is exactly a keyword,
/// an identifier otherwise.
pub open spec fn word_kind(word: Seq<char>) -> TokenType {
    if word == "let"@ {
        TokenType::LET
    } else if word == "fn"@ {
        TokenType::FUNCTION
    } else {
        TokenType::IDENT
    }
}

/// One step of the scanner: the token found, and where the cursor stands
/// after it.
pub ghost struct Step {
    pub token: TokenView,
    pub next: int,
}

/// The step taken from `pos`. Blanks are passed over first. At the end of the
/// source the token is an `EOF` with an empty literal. Otherwise the first
/// byte decides: a letter begins a word, which is read as far as it goes and
/// then looked up among the keywords; a digit begins a number, read as far as
/// it goes; and any other byte is one token by itself, of the kind that the
/// byte suggests and with that byte's character as its literal. A null byte
/// is such a token too: an `EOF` whose literal is the null character.
pub open spec fn scan(s: Seq<u8>, pos: int) -> Step {
    let start = run_end(s, pos, ByteClass::Blank);
    if !(0 <= start < s.len()) {
        Step { token: TokenView { kind: TokenType::EOF, literal: Seq::empty() }, next: start }
    } else {
        match tentative_kind(s[start]) {
            TokenType::IDENT => {
                let end = run_end(s, start, ByteClass::Letter);
                let word = text_of(s.subrange(start, end));
                Step { token: TokenView { kind: word_kind(word), literal: word }, next: end }
            },
            TokenType::INT => {
                let end = run_end(s, start, ByteClass::Digit);
                let digits = text_of(s.subrange(start, end));
                Step { token: TokenView { kind: TokenType::INT, literal: digits }, next: end }
            },
            kind => Step {
                token: TokenView { kind, literal: text_of(s.subrange(start, start + 1)) },
                next: start + 1,
            },
        }
    }
}

/// The tokens that the scanner yields from `pos` on: one step after another,
/// up to and including the first `EOF`. Nothing is scanned after an `EOF`,
/// whether it stands for the end of the source or for a null byte in it.
pub open spec fn tokens_from(s: Seq<u8>, pos: int) -> Seq<TokenView>
    decreases s.len() - pos,
    via tokens_from_terminates
{
    let step = scan(s, pos);
    if step.token.kind == TokenType::EOF {
        seq![step.token]
    } else {
        seq![step.token] + tokens_from(s, step.next)
    }
}

/// Each step that does not end the sequence moves the cursor forward.
#[via_fn]
proof fn tokens_from_terminates(s: Seq<u8>, pos: int) {
    if scan(s, pos).token.kind != TokenType::EOF {
        lemma_step_advances(s, pos);
    }
}

/// The token sequence of a whole source.
pub open spec fn tokens(s: Seq<u8>) -> Seq<TokenView> {
    tokens_from(s, 0)
}

/// A run ends at the first byte that is not of the class, or at the end of
/// the source: every byte passed over is of the class, and the byte at the
/// end, if there is one, is not.
pub proof fn lemma_run_end(s: Seq<u8>, start: int, class: ByteClass)
    requires
        0 <= start <= s.len(),
    ensures
        start <= run_end(s, start, class) <= s.len(),
        forall|k: int| start <= k < run_end(s, start, class) ==> in_class(class, #[trigger] s[k]),
        run_end(s, start, class) < s.len() ==> !in_class(class, s[run_end(s, start, class)]),
    decreases s.len() - start,
{
    if start < s.len() && in_class(class, s[start]) {
        lemma_run_end(s, start + 1, class);
    }
}

/// No other position ends the run: one that is reached over bytes of the
/// class alone, and has no such byte standing at it, is the run's end.
pub proof fn lemma_run_end_unique(s: Seq<u8>, start: int, class: ByteClass, end: int)
    requires
        0 <= start <= end <= s.len(),
        forall|k: int| start <= k < end ==> in_class(class, #[trigger] s[k]),
        end < s.len() ==> !in_class(class, s[end]),
    ensures
        run_end(s, start, class) == end,
    decreases end - start,
{
    if start < end {
        lemma_run_end_unique(s, start + 1, class, end);
    }
}

/// A step never moves the cursor back nor past the end, and a step that does
/// not yield `EOF` moves it forward.
pub proof fn lemma_step_advances(s: Seq<u8>, pos: int)
    requires
        0 <= pos <= s.len(),
    ensures
        pos <= scan(s, pos).next <= s.len(),
        scan(s, pos).token.kind != TokenType::EOF ==> pos < scan(s, pos).next,
{
    lemma_run_end(s, pos, ByteClass::Blank);
    let start = run_end(s, pos, ByteClass::Blank);
    if start < s.len() {
        lemma_run_end(s, start, ByteClass::Letter);
        lemma_run_end(s, start, ByteClass::Digit);
    }
}

} // verus!
