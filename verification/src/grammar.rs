//! The lexical grammar: what scanning a text yields, as a mathematical function of the text.
//!
//! A text is a sequence of characters. [`step`] says what one attempt to recognise a token does
//! at a position; [`scan_from`] chains the attempts up to the end of the text; [`scan`] is the
//! whole pass and [`scan_result`] what the scanner hands to its caller.

use vstd::prelude::*;
use crate::errors::Diagnostic;
use crate::tokens::{DecimalView, TokenKind, TokenView};

verus! {

/// The decimal digits `0` to `9`.
pub open spec fn spec_is_digit(c: char) -> bool {
    '0' <= c && c <= '9'
}

/// The ASCII letters and the underscore: what an identifier starts with.
pub open spec fn spec_is_alpha(c: char) -> bool {
    ('a' <= c && c <= 'z') || ('A' <= c && c <= 'Z') || c == '_'
}

/// The characters that an identifier goes on with.
pub open spec fn spec_is_alpha_numeric(c: char) -> bool {
    spec_is_digit(c) || spec_is_alpha(c)
}

/// The character at `index`, if the text has one there.
pub open spec fn char_at(text: Seq<char>, index: int) -> Option<char> {
    if 0 <= index < text.len() {
        Some(text[index])
    } else {
        None
    }
}

/// The first position at or after `from` whose character fails `keep`, or the end of the
/// text where all of them pass.
pub open spec fn run_end(text: Seq<char>, from: int, keep: spec_fn(char) -> bool) -> int
    decreases text.len() - from,
{
    if 0 <= from < text.len() && keep(text[from]) {
        run_end(text, from + 1, keep)
    } else {
        from
    }
}

/// The end of the run of digits that starts at `from`.
pub open spec fn digits_end(text: Seq<char>, from: int) -> int {
    run_end(text, from, |c: char| spec_is_digit(c))
}

/// The end of the run of letters, digits and underscores that starts at `from`.
pub open spec fn word_end(text: Seq<char>, from: int) -> int {
    run_end(text, from, |c: char| spec_is_alpha_numeric(c))
}

/// The position of the first newline at or after `from`, or the end of the text.
pub open spec fn line_end(text: Seq<char>, from: int) -> int {
    run_end(text, from, |c: char| c != '\n')
}

/// The position of the first double quote at or after `from`, or the end of the text.
pub open spec fn quote_at(text: Seq<char>, from: int) -> int {
    run_end(text, from, |c: char| c != '"')
}

/// How many newline characters a text holds.
pub open spec fn newlines(text: Seq<char>) -> nat {
    text.filter(|c: char| c == '\n').len()
}

/// The value of a decimal digit.
pub open spec fn digit_value(c: char) -> u8 {
    (c as u32 - '0' as u32) as u8
}

/// The values of a run of decimal digits.
pub open spec fn digit_values(text: Seq<char>) -> Seq<u8> {
    text.map_values(|c: char| digit_value(c))
}

/// The token of a character that is a token by itself, whatever follows it.
pub open spec fn punctuation(c: char) -> Option<TokenKind> {
    if c == '(' {
        Some(TokenKind::LeftParen)
    } else if c == ')' {
        Some(TokenKind::RightParen)
    } else if c == '{' {
        Some(TokenKind::LeftBrace)
    } else if c == '}' {
        Some(TokenKind::RightBrace)
    } else if c == ',' {
        Some(TokenKind::Comma)
    } else if c == '.' {
        Some(TokenKind::Dot)
    } else if c == '-' {
        Some(TokenKind::Minus)
    } else if c == '+' {
        Some(TokenKind::Plus)
    } else if c == ';' {
        Some(TokenKind::Semi)
    } else if c == '*' {
        Some(TokenKind::Star)
    } else {
        None
    }
}

/// The token of `!`, `=`, `<` or `>`: the longer category where an `=` follows, the shorter
/// one where none does.
pub open spec fn operator(c: char, equal_follows: bool) -> Option<TokenKind> {
    if c == '!' {
        Some(if equal_follows { TokenKind::BangEqual } else { TokenKind::Bang })
    } else if c == '=' {
        Some(if equal_follows { TokenKind::EqualEqual } else { TokenKind::Equal })
    } else if c == '<' {
        Some(if equal_follows { TokenKind::LessEqual } else { TokenKind::Less })
    } else if c == '>' {
        Some(if equal_follows { TokenKind::GreaterEqual } else { TokenKind::Greater })
    } else {
        None
    }
}

/// The reserved word with the given spelling, if there is one.
pub open spec fn keyword(word: Seq<char>) -> Option<TokenKind> {
    if word == "and"@ {
        Some(TokenKind::And)
    } else if word == "class"@ {
        Some(TokenKind::Class)
    } else if word == "else"@ {
        Some(TokenKind::Else)
    } else if word == "false"@ {
        Some(TokenKind::False)
    } else if word == "for"@ {
        Some(TokenKind::For)
    } else if word == "fun"@ {
        Some(TokenKind::Fun)
    } else if word == "if"@ {
        Some(TokenKind::If)
    } else if word == "nil"@ {
        Some(TokenKind::Nil)
    } else if word == "or"@ {
        Some(TokenKind::Or)
    } else if word == "print"@ {
        Some(TokenKind::Print)
    } else if word == "return"@ {
        Some(TokenKind::Return)
    } else if word == "super"@ {
        Some(TokenKind::Super)
    } else if word == "this"@ {
        Some(TokenKind::This)
    } else if word == "true"@ {
        Some(TokenKind::True)
    } else if word == "var"@ {
        Some(TokenKind::Var)
    } else if word == "while"@ {
        Some(TokenKind::While)
    } else {
        None
    }
}

/// The category of a word: its reserved word, or an identifier that carries the word.
pub open spec fn word_kind(word: Seq<char>) -> TokenKind {
    match keyword(word) {
        Some(kind) => kind,
        None => TokenKind::Identifier(word),
    }
}

/// The diagnostic for a character that starts no token.
pub open spec fn unexpected_character(c: char, line: int) -> Diagnostic {
    Diagnostic {
        line: line as nat,
        context: "parsing"@,
        message: "unexpected character '"@ + seq![c] + "'"@,
    }
}

/// The diagnostic for a string literal that the text ends in.
pub open spec fn unterminated_string(line: int) -> Diagnostic {
    Diagnostic {
        line: line as nat,
        context: "when reading a string"@,
        message: "unterminated string"@,
    }
}

/// The diagnostic for a second decimal point in a number literal.
pub open spec fn unexpected_dot(line: int) -> Diagnostic {
    Diagnostic {
        line: line as nat,
        context: "when parsing a number"@,
        message: "unexpected dot"@,
    }
}

/// What one attempt to recognise a token comes to.
pub ghost enum Lexed {
    /// A token of this category.
    Token(TokenKind),
    /// Whitespace, a newline or a comment: nothing to report.
    Nothing,
    /// A lexical error.
    Error(Diagnostic),
}

/// One attempt to recognise a token: where the cursor and the line counter stand after it,
/// and what it found.
pub ghost struct Step {
    pub next: int,
    pub line: int,
    pub lexed: Lexed,
}

/// A decimal point at `at` that a digit follows: the only one that a number literal takes in.
pub open spec fn fraction_follows(text: Seq<char>, at: int) -> bool {
    &&& char_at(text, at) == Some('.')
    &&& char_at(text, at + 1) matches Some(d)
    &&& spec_is_digit(d)
}

/// The attempt at a string literal whose opening quote is at `pos`.
///
/// The literal runs to the next double quote, over newlines too, and its token carries the
/// text between the quotes and the line of the closing quote. Where no quote follows, the
/// rest of the text is consumed and the error is reported on the line of the opening quote.
pub open spec fn string_step(text: Seq<char>, pos: int, line: int) -> Step {
    let close = quote_at(text, pos + 1);
    if close < text.len() {
        Step {
            next: close + 1,
            line: line + newlines(text.subrange(pos + 1, close)),
            lexed: Lexed::Token(TokenKind::String(text.subrange(pos + 1, close))),
        }
    } else {
        Step {
            next: text.len() as int,
            line: line + newlines(text.subrange(pos + 1, text.len() as int)),
            lexed: Lexed::Error(unterminated_string(line)),
        }
    }
}

/// The attempt at a number literal whose first digit is at `pos`.
///
/// The literal is a run of digits and, where a decimal point and a digit follow it, that
/// point and the run of digits after it. A decimal point that no digit follows is left for
/// the next token. A second decimal point with a digit behind it is consumed and reported,
/// and the literal gives no token.
pub open spec fn number_step(text: Seq<char>, pos: int, line: int) -> Step {
    let whole_end = digits_end(text, pos);
    let whole = digit_values(text.subrange(pos, whole_end));
    if !fraction_follows(text, whole_end) {
        Step {
            next: whole_end,
            line,
            lexed: Lexed::Token(TokenKind::Number(DecimalView { whole, fraction: seq![] })),
        }
    } else {
        let fraction_end = digits_end(text, whole_end + 1);
        let fraction = digit_values(text.subrange(whole_end + 1, fraction_end));
        if fraction_follows(text, fraction_end) {
            Step { next: fraction_end + 1, line, lexed: Lexed::Error(unexpected_dot(line)) }
        } else {
            Step {
                next: fraction_end,
                line,
                lexed: Lexed::Token(TokenKind::Number(DecimalView { whole, fraction })),
            }
        }
    }
}

/// The attempt at an identifier or a reserved word whose first character is at `pos`.
pub open spec fn word_step(text: Seq<char>, pos: int, line: int) -> Step {
    let end = word_end(text, pos);
    Step { next: end, line, lexed: Lexed::Token(word_kind(text.subrange(pos, end))) }
}

/// Whether the character after the one at `pos` is an equal sign.
pub open spec fn equal_follows(text: Seq<char>, pos: int) -> bool {
    char_at(text, pos + 1) == Some('=')
}

/// One attempt to recognise a token at `pos`, a position inside the text, with the line
/// counter at `line`.
///
/// After `!`, `=`, `<` and `>` an equal sign belongs to the operator: the two characters
/// are consumed and make one token of the longer category.
pub open spec fn step(text: Seq<char>, pos: int, line: int) -> Step
    recommends
        0 <= pos < text.len(),
{
    let c = text[pos];
    if let Some(kind) = punctuation(c) {
        Step { next: pos + 1, line, lexed: Lexed::Token(kind) }
    } else if let Some(kind) = operator(c, equal_follows(text, pos)) {
        Step {
            next: if equal_follows(text, pos) {
                pos + 2
            } else {
                pos + 1
            },
            line,
            lexed: Lexed::Token(kind),
        }
    } else if c == '/' {
        if char_at(text, pos + 1) == Some('/') {
            Step { next: line_end(text, pos + 1), line, lexed: Lexed::Nothing }
        } else {
            Step { next: pos + 1, line, lexed: Lexed::Token(TokenKind::Slash) }
        }
    } else if c == ' ' || c == '\t' || c == '\r' {
        Step { next: pos + 1, line, lexed: Lexed::Nothing }
    } else if c == '\n' {
        Step { next: pos + 1, line: line + 1, lexed: Lexed::Nothing }
    } else if c == '"' {
        string_step(text, pos, line)
    } else if spec_is_digit(c) {
        number_step(text, pos, line)
    } else if spec_is_alpha(c) {
        word_step(text, pos, line)
    } else {
        Step { next: pos + 1, line, lexed: Lexed::Error(unexpected_character(c, line)) }
    }
}

/// A word: a letter or an underscore, then letters, digits and underscores.
pub open spec fn is_word(text: Seq<char>) -> bool {
    &&& text.len() >= 1
    &&& spec_is_alpha(text[0])
    &&& forall|i: int| 0 <= i < text.len() ==> spec_is_alpha_numeric(#[trigger] text[i])
}

/// What ties a token to its lexeme, for every token that a pass yields.
///
/// The line is at least 1. The end-of-file token has no lexeme; every other has one. An
/// identifier carries its lexeme, which is a word and no reserved spelling. A reserved word
/// has its spelling as the lexeme. A string carries its lexeme without the two quotes, and
/// holds no quote. A number, written out, is its lexeme. An operator with an equal sign has
/// its two characters as lexeme, the second of which is the equal sign. The other categories
/// have the one character as lexeme that selects them.
pub open spec fn token_is_consistent(token: TokenView) -> bool {
    &&& token.line >= 1
    &&& match token.which {
        TokenKind::EOF => token.lexeme.len() == 0,
        TokenKind::Identifier(word) => {
            &&& word == token.lexeme
            &&& is_word(word)
            &&& keyword(word) is None
        },
        TokenKind::String(payload) => {
            &&& token.lexeme == seq!['"'] + payload + seq!['"']
            &&& forall|i: int| 0 <= i < payload.len() ==> #[trigger] payload[i] != '"'
        },
        TokenKind::Number(value) => {
            &&& value.wf()
            &&& value.rendering() == token.lexeme
        },
        TokenKind::Slash => token.lexeme == seq!['/'],
        which => if which.is_keyword() {
            &&& is_word(token.lexeme)
            &&& keyword(token.lexeme) == Some(which)
        } else if which.is_long_operator() {
            &&& token.lexeme.len() == 2
            &&& token.lexeme[1] == '='
            &&& operator(token.lexeme[0], true) == Some(which)
        } else if which.is_short_operator() {
            &&& token.lexeme.len() == 1
            &&& operator(token.lexeme[0], false) == Some(which)
        } else {
            &&& token.lexeme.len() == 1
            &&& punctuation(token.lexeme[0]) == Some(which)
        },
    }
}

/// The tokens and the diagnostics of a pass, each in the order of the text.
pub ghost struct Scan {
    pub tokens: Seq<TokenView>,
    pub errors: Seq<Diagnostic>,
}

/// The end-of-file token on the given line.
pub open spec fn eof(line: int) -> TokenView {
    TokenView { which: TokenKind::EOF, lexeme: Seq::empty(), line: line as nat }
}

/// A run ends at or after its start and inside the text.
pub proof fn lemma_run_end_bounds(text: Seq<char>, from: int, keep: spec_fn(char) -> bool)
    requires
        0 <= from <= text.len(),
    ensures
        from <= run_end(text, from, keep) <= text.len(),
    decreases text.len() - from,
{
    if from < text.len() && keep(text[from]) {
        lemma_run_end_bounds(text, from + 1, keep);
    }
}

/// A run that starts inside a stretch of characters that all pass `keep` ends where the run
/// from the end of the stretch ends.
pub proof fn lemma_run_end_skips(
    text: Seq<char>,
    from: int,
    to: int,
    keep: spec_fn(char) -> bool,
)
    requires
        0 <= from <= to <= text.len(),
        forall|i: int| from <= i < to ==> keep(#[trigger] text[i]),
    ensures
        run_end(text, from, keep) == run_end(text, to, keep),
    decreases to - from,
{
    if from < to {
        lemma_run_end_skips(text, from + 1, to, keep);
    }
}

/// A run consists of characters that pass `keep`, and stops at the end of the text or at a
/// character that fails it.
pub proof fn lemma_run_end_is_maximal(text: Seq<char>, from: int, keep: spec_fn(char) -> bool)
    requires
        0 <= from <= text.len(),
    ensures
        forall|i: int| from <= i < run_end(text, from, keep) ==> keep(#[trigger] text[i]),
        run_end(text, from, keep) < text.len() ==> !keep(text[run_end(text, from, keep)]),
    decreases text.len() - from,
{
    if from < text.len() && keep(text[from]) {
        lemma_run_end_is_maximal(text, from + 1, keep);
    }
}

/// Counting newlines goes character by character.
pub proof fn lemma_newlines_push(text: Seq<char>, c: char)
    ensures
        newlines(text.push(c)) == newlines(text) + if c == '\n' {
            1nat
        } else {
            0nat
        },
{
    text.lemma_filter_len_push(|c: char| c == '\n', c);
}

/// The empty text holds no newline.
pub proof fn lemma_newlines_empty()
    ensures
        newlines(Seq::<char>::empty()) == 0,
{
    Seq::<char>::empty().lemma_filter_len(|c: char| c == '\n');
}

/// Every attempt inside the text consumes at least one character and stays inside the text.
pub proof fn lemma_step_advances(text: Seq<char>, pos: int, line: int)
    requires
        0 <= pos < text.len(),
    ensures
        pos < step(text, pos, line).next <= text.len(),
{
    let c = text[pos];
    lemma_run_end_bounds(text, pos + 1, |c: char| c != '\n');
    lemma_run_end_bounds(text, pos + 1, |c: char| c != '"');
    lemma_run_end_bounds(text, pos + 1, |c: char| spec_is_digit(c));
    lemma_run_end_bounds(text, pos + 1, |c: char| spec_is_alpha_numeric(c));
    if spec_is_digit(c) {
        let whole_end = digits_end(text, pos);
        if fraction_follows(text, whole_end) {
            lemma_run_end_bounds(text, whole_end + 1, |c: char| spec_is_digit(c));
        }
    }
}

/// The pass from `pos` on, with the line counter at `line`: attempt after attempt up to the
/// end of the text, then the end-of-file token on the line reached.
pub open spec fn scan_from(text: Seq<char>, pos: int, line: int) -> Scan
    decreases text.len() - pos,
    via scan_from_terminates
{
    if 0 <= pos < text.len() {
        let here = step(text, pos, line);
        let rest = scan_from(text, here.next, here.line);
        match here.lexed {
            Lexed::Token(which) => Scan {
                tokens: seq![
                    TokenView {
                        which,
                        lexeme: text.subrange(pos, here.next),
                        line: here.line as nat,
                    },
                ] + rest.tokens,
                errors: rest.errors,
            },
            Lexed::Nothing => rest,
            Lexed::Error(error) => Scan {
                tokens: rest.tokens,
                errors: seq![error] + rest.errors,
            },
        }
    } else {
        Scan { tokens: seq![eof(line)], errors: seq![] }
    }
}

#[via_fn]
proof fn scan_from_terminates(text: Seq<char>, pos: int, line: int) {
    if 0 <= pos < text.len() {
        lemma_step_advances(text, pos, line);
    }
}

/// The pass over a whole text: from its first character, on line 1.
pub open spec fn scan(text: Seq<char>) -> Scan {
    scan_from(text, 0, 1)
}

/// What a pass hands to its caller: all tokens where it met no error, all errors where it
/// met one.
pub open spec fn scan_result(text: Seq<char>) -> Result<Seq<TokenView>, Seq<Diagnostic>> {
    let pass = scan(text);
    if pass.errors.len() == 0 {
        Ok(pass.tokens)
    } else {
        Err(pass.errors)
    }
}

} // verus!
