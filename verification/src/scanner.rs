//! The scanner: a single pass over the source text.

use vstd::prelude::*;
use vstd::string::*;
use vstd::utf8::encode_utf8;
use crate::errors::{
    fault_views, own_faults, report_error, Diagnostic, Fault, LoxDiag, LoxError, LoxResult,
};
use crate::grammar::{
    char_at, digit_value, digit_values, digits_end, eof, fraction_follows, keyword,
    lemma_newlines_push, lemma_run_end_skips, lemma_step_advances, line_end, newlines,
    number_step, scan_from, scan_result, spec_is_alpha, spec_is_alpha_numeric, spec_is_digit,
    step, string_step, unexpected_character, word_end, word_step, Lexed, Step,
};
use crate::text::{lemma_offset_ends, lemma_offset_step, offset_of, slice, width};
use crate::tokens::{
    all_digits, token_views, Decimal, DecimalView, Token, TokenKind, TokenType, TokenView,
};

verus! {

/// Whether `c` is one of the decimal digits `0` to `9`.
pub fn is_digit(c: char) -> (r: bool)
    ensures
        r == spec_is_digit(c),
{
    c >= '0' && c <= '9'
}

/// Whether `c` is an ASCII letter or the underscore.
pub fn is_alpha(c: char) -> (r: bool)
    ensures
        r == spec_is_alpha(c),
{
    c >= 'a' && c <= 'z' || c >= 'A' && c <= 'Z' || c == '_'
}

/// Whether `c` is a decimal digit, an ASCII letter or the underscore.
pub fn is_alpha_numeric(c: char) -> (r: bool)
    ensures
        r == spec_is_alpha_numeric(c),
{
    is_digit(c) || is_alpha(c)
}

/// The value of a decimal digit.
fn digit_of(c: char) -> (value: u8)
    requires
        spec_is_digit(c),
    ensures
        value == digit_value(c),
        value <= 9,
{
    (c as u32 - '0' as u32) as u8
}

/// A place in the source: the index of a character and the byte offset at which it starts.
#[derive(Clone, Copy)]
struct Position {
    index: usize,
    offset: usize,
}

/// A cursor over a source text, with the tokens read so far.
pub struct Scanner<'source> {
    source: &'source str,
    chars: Vec<char>,
    start: Position,
    current: Position,
    line: usize,
    tokens: Vec<Token<'source>>,
}

/// The mathematical content of a [`Scanner`]: the text, the position of the next unread
/// character, the line counter and the tokens read so far.
pub ghost struct ScannerView {
    pub text: Seq<char>,
    pub cursor: int,
    pub line: int,
    pub tokens: Seq<TokenView>,
}

impl ScannerView {
    /// The state after an attempt that began at the cursor.
    pub open spec fn after(self, attempt: Step) -> ScannerView {
        ScannerView {
            text: self.text,
            cursor: attempt.next,
            line: attempt.line,
            tokens: match attempt.lexed {
                Lexed::Token(which) => self.tokens.push(
                    TokenView {
                        which,
                        lexeme: self.text.subrange(self.cursor, attempt.next),
                        line: attempt.line as nat,
                    },
                ),
                _ => self.tokens,
            },
        }
    }

    /// What finishing the pass from this state gives: the tokens read so far and those of the
    /// rest of the text, or the errors of the rest of the text where it has any.
    pub open spec fn outcome(self) -> Result<Seq<TokenView>, Seq<Diagnostic>> {
        let rest = scan_from(self.text, self.cursor, self.line);
        if rest.errors.len() == 0 {
            Ok(self.tokens + rest.tokens)
        } else {
            Err(rest.errors)
        }
    }
}

impl<'source> View for Scanner<'source> {
    type V = ScannerView;

    closed spec fn view(&self) -> ScannerView {
        ScannerView {
            text: self.source@,
            cursor: self.current.index as int,
            line: self.line as int,
            tokens: token_views(self.tokens@),
        }
    }
}

impl<'source> Scanner<'source> {
    /// The scanner's invariant: the buffer holds the source's characters, the cursor is
    /// inside the text and not before the start of the lexeme, both positions know their
    /// byte offsets, and the line counter has room to count every newline of the text.
    pub closed spec fn wf(&self) -> bool {
        &&& self.chars@ == self.source@
        &&& self.chars.len() < usize::MAX
        &&& encode_utf8(self.source@).len() <= usize::MAX
        &&& self.start.index <= self.current.index <= self.chars.len()
        &&& self.start.offset == offset_of(self.source@, self.start.index as int)
        &&& self.current.offset == offset_of(self.source@, self.current.index as int)
        &&& 1 <= self.line <= self.current.index + 1
    }

    /// What a call leaves alone but for the cursor, the line counter and the tokens.
    spec fn same_lexeme(&self, before: &Self) -> bool {
        &&& self.source == before.source
        &&& self.chars == before.chars
        &&& self.start == before.start
    }

    /// A scanner at the start of `source`, on line 1, with no token read.
    pub fn new(source: &'source str) -> (scanner: Self)
        ensures
            scanner.wf(),
            scanner@ == (ScannerView {
                text: source@,
                cursor: 0,
                line: 1,
                tokens: Seq::empty(),
            }),
            scanner@.outcome() == scan_result(source@),
    {
        // Room for every character of the source, which has no more of them than bytes, and
        // for one more.
        let size = source.as_bytes().len();
        let mut chars: Vec<char> = Vec::with_capacity(size.saturating_add(1));
        for c in it: source.chars()
            invariant
                chars@ == it.seq().take(it.index() as int),
        {
            chars.push(c);
        }
        // A buffer that takes one more character held fewer than `usize::MAX` of them: the
        // line counter, which is at most one more than the cursor, cannot overflow.
        chars.push('\n');
        assert(chars.len() == source@.len() + 1);
        chars.pop();
        let origin = Position { index: 0, offset: 0 };
        let scanner = Self {
            source,
            chars,
            start: origin,
            current: origin,
            line: 1,
            tokens: Vec::new(),
        };
        proof {
            lemma_offset_ends(source@);
            assert(scanner.chars@ =~= source@);
            assert(size == encode_utf8(source@).len());
            assert(token_views(scanner.tokens@) =~= Seq::empty());
            let rest = scan_from(source@, 0, 1);
            assert(Seq::<TokenView>::empty() + rest.tokens =~= rest.tokens);
        }
        scanner
    }

    /// The character at the cursor, which stays where it is.
    fn peek(&self) -> (next: Option<char>)
        requires
            self.wf(),
        ensures
            next == char_at(self.source@, self.current.index as int),
    {
        if self.current.index < self.chars.len() {
            Some(self.chars[self.current.index])
        } else {
            None
        }
    }

    /// The character after the one at the cursor.
    fn peek_next(&self) -> (next: Option<char>)
        requires
            self.wf(),
        ensures
            next == char_at(self.source@, self.current.index + 1),
    {
        if self.current.index + 1 < self.chars.len() {
            Some(self.chars[self.current.index + 1])
        } else {
            None
        }
    }

    /// Whether the character after the one at the cursor is a digit.
    fn digit_is_next(&self) -> (found: bool)
        requires
            self.wf(),
        ensures
            found == (char_at(self.source@, self.current.index + 1) matches Some(d)
                && spec_is_digit(d)),
    {
        match self.peek_next() {
            Some(d) => is_digit(d),
            None => false,
        }
    }

    /// Whether the character at the cursor is `expected`. The cursor stays where it is.
    fn matches(&self, expected: char) -> (found: bool)
        requires
            self.wf(),
        ensures
            found == (char_at(self.source@, self.current.index as int) == Some(expected)),
    {
        match self.peek() {
            Some(observed) => observed == expected,
            None => false,
        }
    }

    /// Consumes the character at the cursor and returns it; at the end of the text, returns
    /// nothing and changes nothing.
    fn advance(&mut self) -> (consumed: Option<char>)
        requires
            old(self).wf(),
        ensures
            final(self).wf(),
            final(self).same_lexeme(old(self)),
            final(self).line == old(self).line,
            final(self).tokens == old(self).tokens,
            consumed == char_at(old(self).source@, old(self).current.index as int),
            final(self).current.index == old(self).current.index + if consumed is Some {
                1int
            } else {
                0int
            },
    {
        if self.current.index < self.chars.len() {
            let c = self.chars[self.current.index];
            proof {
                lemma_offset_step(self.source@, self.current.index as int);
            }
            self.current = Position {
                index: self.current.index + 1,
                offset: self.current.offset + width(c),
            };
            Some(c)
        } else {
            None
        }
    }

    /// Appends the token of the given category for the lexeme between the start mark and
    /// the cursor, on the current line.
    fn add_token(&mut self, which: TokenType<'source>)
        requires
            old(self).wf(),
        ensures
            final(self).wf(),
            final(self).same_lexeme(old(self)),
            final(self).current == old(self).current,
            final(self).line == old(self).line,
            token_views(final(self).tokens@) == token_views(old(self).tokens@).push(
                TokenView {
                    which: which@,
                    lexeme: old(self).source@.subrange(
                        old(self).start.index as int,
                        old(self).current.index as int,
                    ),
                    line: old(self).line as nat,
                },
            ),
    {
        let lexeme = slice(
            self.source,
            self.start.offset,
            self.current.offset,
            Ghost(self.start.index as int),
            Ghost(self.current.index as int),
        );
        let token = Token::new(which, lexeme, self.line);
        self.tokens.push(token);
        assert(token_views(final(self).tokens@) =~= token_views(old(self).tokens@).push(token@));
    }

    /// Whether the lexeme between the start mark and the cursor is `word`.
    fn spells(&self, word: &str) -> (found: bool)
        requires
            self.wf(),
        ensures
            found == (self.source@.subrange(
                self.start.index as int,
                self.current.index as int,
            ) == word@),
    {
        let length = word.unicode_len();
        if self.current.index - self.start.index != length {
            return false;
        }
        let mut i: usize = 0;
        while i < length
            invariant
                self.wf(),
                length == word@.len(),
                self.current.index - self.start.index == length,
                i <= length,
                forall|j: int| 0 <= j < i ==> self.chars@[self.start.index + j] == word@[j],
            decreases length - i,
        {
            if self.chars[self.start.index + i] != word.get_char(i) {
                return false;
            }
            i += 1;
        }
        assert(self.source@.subrange(self.start.index as int, self.current.index as int)
            =~= word@);
        true
    }

    /// The reserved word that the lexeme between the start mark and the cursor spells, if it
    /// spells one.
    fn reserved(&self) -> (which: Option<TokenType<'static>>)
        requires
            self.wf(),
        ensures
            match keyword(
                self.source@.subrange(self.start.index as int, self.current.index as int),
            ) {
                Some(kind) => which matches Some(found) && found@ == kind,
                None => which is None,
            },
    {
        if self.spells("and") {
            Some(TokenType::And)
        } else if self.spells("class") {
            Some(TokenType::Class)
        } else if self.spells("else") {
            Some(TokenType::Else)
        } else if self.spells("false") {
            Some(TokenType::False)
        } else if self.spells("for") {
            Some(TokenType::For)
        } else if self.spells("fun") {
            Some(TokenType::Fun)
        } else if self.spells("if") {
            Some(TokenType::If)
        } else if self.spells("nil") {
            Some(TokenType::Nil)
        } else if self.spells("or") {
            Some(TokenType::Or)
        } else if self.spells("print") {
            Some(TokenType::Print)
        } else if self.spells("return") {
            Some(TokenType::Return)
        } else if self.spells("super") {
            Some(TokenType::Super)
        } else if self.spells("this") {
            Some(TokenType::This)
        } else if self.spells("true") {
            Some(TokenType::True)
        } else if self.spells("var") {
            Some(TokenType::Var)
        } else if self.spells("while") {
            Some(TokenType::While)
        } else {
            None
        }
    }

    /// Reads a string literal whose opening quote has just been consumed.
    fn scan_string(&mut self) -> (result: LoxResult<()>)
        requires
            old(self).wf(),
            old(self).current.index == old(self).start.index + 1,
            old(self).source@[old(self).start.index as int] == '"',
            old(self).line <= old(self).current.index,
        ensures
            final(self).wf(),
            final(self)@ == (ScannerView {
                cursor: old(self).start.index as int,
                ..old(self)@
            }).after(string_step(old(self)@.text, old(self).start.index as int, old(self)@.line)),
            match string_step(
                old(self)@.text,
                old(self).start.index as int,
                old(self)@.line,
            ).lexed {
                Lexed::Error(diagnostic) => result matches Err(error) && error@ == Fault::Own(
                    diagnostic,
                ),
                _ => result is Ok,
            },
    {
        let ghost text = self.source@;
        let ghost open = self.start.index as int;
        let first_line = self.line;
        loop
            invariant
                self.wf(),
                self.same_lexeme(old(self)),
                self.tokens == old(self).tokens,
                text == self.source@,
                open == self.start.index,
                text[open] == '"',
                first_line == old(self).line,
                open + 1 <= self.current.index,
                forall|i: int| open + 1 <= i < self.current.index ==> #[trigger] text[i] != '"',
                self.line == first_line + newlines(
                    text.subrange(open + 1, self.current.index as int),
                ),
                self.line <= self.current.index,
            decreases self.chars.len() - self.current.index,
        {
            let ghost at = self.current.index as int;
            match self.peek() {
                None => {
                    proof {
                        lemma_run_end_skips(text, open + 1, at, |c: char| c != '"');
                    }
                    return report_error(
                        first_line,
                        String::from_str("when reading a string"),
                        String::from_str("unterminated string"),
                    );
                },
                Some(c) => {
                    if c == '\n' {
                        self.line += 1;
                    }
                    self.advance();
                    if c == '"' {
                        proof {
                            lemma_run_end_skips(text, open + 1, at, |c: char| c != '"');
                            lemma_offset_step(text, open);
                            lemma_offset_step(text, at);
                        }
                        let payload = slice(
                            self.source,
                            self.start.offset + 1,
                            self.current.offset - 1,
                            Ghost(open + 1),
                            Ghost(at),
                        );
                        self.add_token(TokenType::String(payload));
                        return Ok(());
                    }
                    proof {
                        assert(text.subrange(open + 1, at + 1) =~= text.subrange(
                            open + 1,
                            at,
                        ).push(c));
                        lemma_newlines_push(text.subrange(open + 1, at), c);
                    }
                },
            }
        }
    }

    /// Reads a number literal whose first digit, `first_digit`, has just been consumed.
    fn scan_number(&mut self, first_digit: char) -> (result: LoxResult<()>)
        requires
            old(self).wf(),
            old(self).current.index == old(self).start.index + 1,
            old(self).source@[old(self).start.index as int] == first_digit,
            spec_is_digit(first_digit),
        ensures
            final(self).wf(),
            final(self)@ == (ScannerView {
                cursor: old(self).start.index as int,
                ..old(self)@
            }).after(number_step(old(self)@.text, old(self).start.index as int, old(self)@.line)),
            match number_step(
                old(self)@.text,
                old(self).start.index as int,
                old(self)@.line,
            ).lexed {
                Lexed::Error(diagnostic) => result matches Err(error) && error@ == Fault::Own(
                    diagnostic,
                ),
                _ => result is Ok,
            },
    {
        let ghost text = self.source@;
        let ghost first = self.start.index as int;
        let ghost whole_end: int = 0;
        let mut whole: Vec<u8> = Vec::new();
        let mut fraction: Vec<u8> = Vec::new();
        let mut in_fraction = false;
        whole.push(digit_of(first_digit));
        assert(whole@ =~= digit_values(text.subrange(first, first + 1)));
        loop
            invariant_except_break
                self.wf(),
                self.same_lexeme(old(self)),
                self.tokens == old(self).tokens,
                self.line == old(self).line,
                text == self.source@,
                first == self.start.index,
                first + 1 <= self.current.index,
                whole@.len() >= 1,
                all_digits(whole@),
                all_digits(fraction@),
                !in_fraction ==> {
                    &&& forall|i: int|
                        first <= i < self.current.index ==> spec_is_digit(#[trigger] text[i])
                    &&& whole@ == digit_values(text.subrange(first, self.current.index as int))
                    &&& fraction@ == Seq::<u8>::empty()
                },
                in_fraction ==> {
                    &&& whole_end == digits_end(text, first)
                    &&& fraction_follows(text, whole_end)
                    &&& whole_end + 1 <= self.current.index
                    &&& forall|i: int|
                        whole_end + 1 <= i < self.current.index ==> spec_is_digit(
                            #[trigger] text[i],
                        )
                    &&& whole@ == digit_values(text.subrange(first, whole_end))
                    &&& fraction@ == digit_values(
                        text.subrange(whole_end + 1, self.current.index as int),
                    )
                },
            ensures
                self.wf(),
                self.same_lexeme(old(self)),
                self.tokens == old(self).tokens,
                self.line == old(self).line,
                whole@.len() >= 1,
                all_digits(whole@),
                all_digits(fraction@),
                number_step(text, first, self.line as int) == (Step {
                    next: self.current.index as int,
                    line: self.line as int,
                    lexed: Lexed::Token(
                        TokenKind::Number(DecimalView { whole: whole@, fraction: fraction@ }),
                    ),
                }),
            decreases self.chars.len() - self.current.index,
        {
            let ghost at = self.current.index as int;
            proof {
                if in_fraction {
                    lemma_run_end_skips(text, whole_end + 1, at, |c: char| spec_is_digit(c));
                } else {
                    lemma_run_end_skips(text, first, at, |c: char| spec_is_digit(c));
                }
            }
            match self.peek() {
                Some(c) => {
                    if is_digit(c) {
                        self.advance();
                        if in_fraction {
                            fraction.push(digit_of(c));
                            assert(fraction@ =~= digit_values(
                                text.subrange(whole_end + 1, at + 1),
                            ));
                        } else {
                            whole.push(digit_of(c));
                            assert(whole@ =~= digit_values(text.subrange(first, at + 1)));
                        }
                    } else if c == '.' && self.digit_is_next() {
                        self.advance();
                        if in_fraction {
                            return report_error(
                                self.line,
                                String::from_str("when parsing a number"),
                                String::from_str("unexpected dot"),
                            );
                        }
                        in_fraction = true;
                        proof {
                            whole_end = at;
                            assert(fraction@ =~= digit_values(text.subrange(at + 1, at + 1)));
                        }
                    } else {
                        break;
                    }
                },
                None => {
                    break;
                },
            }
        }
        self.add_token(TokenType::Number(Decimal::from_digits(whole, fraction)));
        Ok(())
    }

    /// Reads an identifier or a reserved word whose first character has just been consumed.
    fn scan_identifier(&mut self) -> (result: LoxResult<()>)
        requires
            old(self).wf(),
            old(self).current.index == old(self).start.index + 1,
            spec_is_alpha(old(self).source@[old(self).start.index as int]),
        ensures
            final(self).wf(),
            final(self)@ == (ScannerView {
                cursor: old(self).start.index as int,
                ..old(self)@
            }).after(word_step(old(self)@.text, old(self).start.index as int, old(self)@.line)),
            result is Ok,
    {
        let ghost text = self.source@;
        let ghost first = self.start.index as int;
        loop
            invariant_except_break
                self.wf(),
                self.same_lexeme(old(self)),
                self.tokens == old(self).tokens,
                self.line == old(self).line,
                text == self.source@,
                first == self.start.index,
                first + 1 <= self.current.index,
                forall|i: int|
                    first <= i < self.current.index ==> spec_is_alpha_numeric(#[trigger] text[i]),
            ensures
                self.wf(),
                self.same_lexeme(old(self)),
                self.tokens == old(self).tokens,
                self.line == old(self).line,
                word_end(text, first) == self.current.index,
            decreases self.chars.len() - self.current.index,
        {
            proof {
                lemma_run_end_skips(
                    text,
                    first,
                    self.current.index as int,
                    |c: char| spec_is_alpha_numeric(c),
                );
            }
            match self.peek() {
                Some(c) => {
                    if !is_alpha_numeric(c) {
                        break;
                    }
                    self.advance();
                },
                None => {
                    break;
                },
            }
        }
        let which = match self.reserved() {
            Some(which) => which,
            None => TokenType::Identifier(
                slice(
                    self.source,
                    self.start.offset,
                    self.current.offset,
                    Ghost(self.start.index as int),
                    Ghost(self.current.index as int),
                ),
            ),
        };
        self.add_token(which);
        Ok(())
    }

    /// One attempt to recognise a token at the cursor.
    ///
    /// Returns `Ok(false)` at the end of the text, where nothing changes. Inside the text the
    /// attempt is the one that [`step`] describes: the cursor and the line counter move as
    /// it says, a token that it finds joins the tokens read so far, and an error that it
    /// finds is returned.
    fn scan_token(&mut self) -> (result: LoxResult<bool>)
        requires
            old(self).wf(),
        ensures
            final(self).wf(),
            old(self)@.cursor >= old(self)@.text.len() ==> {
                &&& result matches Ok(false)
                &&& final(self)@ == old(self)@
            },
            old(self)@.cursor < old(self)@.text.len() ==> {
                let attempt = step(old(self)@.text, old(self)@.cursor, old(self)@.line);
                &&& final(self)@ == old(self)@.after(attempt)
                &&& match attempt.lexed {
                    Lexed::Error(diagnostic) => result matches Err(error) && error@
                        == Fault::Own(diagnostic),
                    _ => result matches Ok(true),
                }
            },
    {
        self.start = self.current;
        let c = match self.advance() {
            Some(c) => c,
            None => {
                return Ok(false);
            },
        };
        let ghost text = self.source@;
        let ghost first = self.start.index as int;
        match c {
            '(' => {
                self.add_token(TokenType::LeftParen);
            },
            ')' => {
                self.add_token(TokenType::RightParen);
            },
            '{' => {
                self.add_token(TokenType::LeftBrace);
            },
            '}' => {
                self.add_token(TokenType::RightBrace);
            },
            ',' => {
                self.add_token(TokenType::Comma);
            },
            '.' => {
                self.add_token(TokenType::Dot);
            },
            '-' => {
                self.add_token(TokenType::Minus);
            },
            '+' => {
                self.add_token(TokenType::Plus);
            },
            ';' => {
                self.add_token(TokenType::Semi);
            },
            '*' => {
                self.add_token(TokenType::Star);
            },
            '!' => {
                let token_type = if self.matches('=') {
                    self.advance();
                    TokenType::BangEqual
                } else {
                    TokenType::Bang
                };
                self.add_token(token_type);
            },
            '=' => {
                let token_type = if self.matches('=') {
                    self.advance();
                    TokenType::EqualEqual
                } else {
                    TokenType::Equal
                };
                self.add_token(token_type);
            },
            '<' => {
                let token_type = if self.matches('=') {
                    self.advance();
                    TokenType::LessEqual
                } else {
                    TokenType::Less
                };
                self.add_token(token_type);
            },
            '>' => {
                let token_type = if self.matches('=') {
                    self.advance();
                    TokenType::GreaterEqual
                } else {
                    TokenType::Greater
                };
                self.add_token(token_type);
            },
            '/' => {
                if self.matches('/') {
                    // A comment goes until the end of the line.
                    loop
                        invariant_except_break
                            self.wf(),
                            self.source == old(self).source,
                            self.start == old(self).current,
                            first == self.start.index,
                            self.tokens == old(self).tokens,
                            self.line == old(self).line,
                            text == self.source@,
                            first + 1 <= self.current.index,
                            forall|i: int|
                                first + 1 <= i < self.current.index ==> #[trigger] text[i]
                                    != '\n',
                        ensures
                            self.wf(),
                            self.source == old(self).source,
                            self.tokens == old(self).tokens,
                            self.line == old(self).line,
                            self.current.index == line_end(text, first + 1),
                        decreases self.chars.len() - self.current.index,
                    {
                        proof {
                            lemma_run_end_skips(
                                text,
                                first + 1,
                                self.current.index as int,
                                |c: char| c != '\n',
                            );
                        }
                        match self.peek() {
                            Some(c) => {
                                if c != '\n' {
                                    self.advance();
                                } else {
                                    break;
                                }
                            },
                            None => {
                                break;
                            },
                        }
                    }
                } else {
                    self.add_token(TokenType::Slash);
                }
            },
            ' ' | '\t' | '\r' => {
                // Do nothing for whitespace.
            },
            '"' => {
                return match self.scan_string() {
                    Ok(()) => Ok(true),
                    Err(error) => Err(error),
                };
            },
            '\n' => {
                self.line += 1;
            },
            _ => {
                if is_digit(c) {
                    return match self.scan_number(c) {
                        Ok(()) => Ok(true),
                        Err(error) => Err(error),
                    };
                } else if is_alpha(c) {
                    return match self.scan_identifier() {
                        Ok(()) => Ok(true),
                        Err(error) => Err(error),
                    };
                } else {
                    let mut message = String::from_str("unexpected character '");
                    message.append(
                        slice(
                            self.source,
                            self.start.offset,
                            self.current.offset,
                            Ghost(first),
                            Ghost(first + 1),
                        ),
                    );
                    message.append("'");
                    assert(message@ =~= unexpected_character(c, self.line as int).message);
                    return report_error(self.line, String::from_str("parsing"), message);
                }
            },
        }
        Ok(true)
    }

    /// Scans the rest of the text and returns every token, or every error.
    ///
    /// The pass does not stop at an error: it reports the error and goes on with the next
    /// character. The tokens end with the end-of-file token. Where the pass met an error, the
    /// tokens are dropped and the errors are returned, in the order of the text; each is an
    /// error of the interpreter's own. For a scanner that [`Scanner::new`] made, the result
    /// is [`scan_result`] of the source text.
    pub fn scan_tokens(self) -> (result: LoxDiag<Vec<Token<'source>>>)
        requires
            self.wf(),
        ensures
            match result {
                Ok(tokens) => self@.outcome() == Ok::<Seq<TokenView>, Seq<Diagnostic>>(
                    token_views(tokens@),
                ),
                Err(errors) => {
                    &&& self@.outcome() matches Err(diagnostics)
                    &&& fault_views(errors@) == own_faults(diagnostics)
                    &&& errors@.len() >= 1
                },
            },
    {
        let mut scanner = self;
        let mut errors: Vec<LoxError> = Vec::new();
        let ghost initial = scanner@;
        let ghost text = scanner.source@;
        let ghost mut found: Seq<Diagnostic> = Seq::empty();
        loop
            invariant_except_break
                scanner.wf(),
                text == scanner@.text,
                fault_views(errors@) == own_faults(found),
                ({
                    let all = scan_from(text, initial.cursor, initial.line);
                    let rest = scan_from(text, scanner@.cursor, scanner@.line);
                    &&& initial.tokens + all.tokens == scanner@.tokens + rest.tokens
                    &&& all.errors == found + rest.errors
                }),
            ensures
                fault_views(errors@) == own_faults(found),
                ({
                    let all = scan_from(text, initial.cursor, initial.line);
                    &&& initial.tokens + all.tokens == scanner@.tokens.push(eof(scanner@.line))
                    &&& all.errors == found
                }),
                1 <= scanner.line,
            decreases text.len() - scanner@.cursor,
        {
            let ghost before = scanner@;
            proof {
                if before.cursor < text.len() {
                    lemma_step_advances(text, before.cursor, before.line);
                }
            }
            match scanner.scan_token() {
                Ok(has_more) => {
                    if !has_more {
                        proof {
                            assert(found + Seq::<Diagnostic>::empty() =~= found);
                            let last = eof(scanner@.line);
                            assert(scanner@.tokens + seq![last] =~= scanner@.tokens.push(last));
                        }
                        break;
                    }
                    proof {
                        let attempt = step(text, before.cursor, before.line);
                        let rest = scan_from(text, attempt.next, attempt.line);
                        if let Lexed::Token(which) = attempt.lexed {
                            let token = TokenView {
                                which,
                                lexeme: text.subrange(before.cursor, attempt.next),
                                line: attempt.line as nat,
                            };
                            assert(before.tokens + (seq![token] + rest.tokens)
                                =~= before.tokens.push(token) + rest.tokens);
                        }
                    }
                },
                Err(err) => {
                    proof {
                        let attempt = step(text, before.cursor, before.line);
                        let rest = scan_from(text, attempt.next, attempt.line);
                        let diagnostic = attempt.lexed->Error_0;
                        assert(found + (seq![diagnostic] + rest.errors) =~= found.push(
                            diagnostic,
                        ) + rest.errors);
                        assert(fault_views(errors@.push(err)) =~= fault_views(errors@).push(
                            err@,
                        ));
                        assert(own_faults(found.push(diagnostic)) =~= own_faults(found).push(
                            Fault::Own(diagnostic),
                        ));
                        found = found.push(diagnostic);
                    }
                    errors.push(err);
                },
            }
        }
        let ghost read = token_views(scanner.tokens@);
        let last = Token::new(TokenType::EOF, "", scanner.line);
        proof {
            reveal_strlit("");
            assert(""@ =~= Seq::<char>::empty());
            assert(last@ == eof(scanner.line as int));
        }
        scanner.tokens.push(last);
        proof {
            assert(token_views(scanner.tokens@) =~= read.push(last@));
            assert(fault_views(errors@).len() == own_faults(found).len());
        }
        if errors.len() == 0 {
            Ok(scanner.tokens)
        } else {
            Err(errors)
        }
    }
}

} // verus!
