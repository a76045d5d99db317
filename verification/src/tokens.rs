//! The token model: the closed set of lexeme categories and the token record.

use vstd::prelude::*;
use vstd::string::*;
use crate::text::{decimal, digit_char, push_decimal, quote, quoted};

verus! {

/// A number literal, digit by digit: the digits before the decimal point and those after it,
/// most significant first, each held as its value `0..=9`.
///
/// The literal is kept exact: the scanner does not round it to a machine number. There is at
/// least one digit before the point.
#[derive(Debug, PartialEq)]
pub struct Decimal {
    whole: Vec<u8>,
    fraction: Vec<u8>,
}

/// The mathematical content of a [`Decimal`].
pub ghost struct DecimalView {
    pub whole: Seq<u8>,
    pub fraction: Seq<u8>,
}

/// Every value is that of a decimal digit.
pub open spec fn all_digits(digits: Seq<u8>) -> bool {
    forall|i: int| 0 <= i < digits.len() ==> #[trigger] digits[i] <= 9
}

/// The characters that write a sequence of digit values.
pub open spec fn digits_text(digits: Seq<u8>) -> Seq<char> {
    digits.map_values(|digit: u8| digit_char(digit as nat))
}

impl DecimalView {
    /// Every digit is a decimal digit and the integer part is not empty.
    pub open spec fn wf(self) -> bool {
        &&& self.whole.len() >= 1
        &&& all_digits(self.whole)
        &&& all_digits(self.fraction)
    }

    /// The literal as text: the digits of the integer part and, where there are digits
    /// after the point, the point and those digits.
    pub open spec fn rendering(self) -> Seq<char> {
        if self.fraction.len() == 0 {
            digits_text(self.whole)
        } else {
            digits_text(self.whole) + "."@ + digits_text(self.fraction)
        }
    }
}

impl View for Decimal {
    type V = DecimalView;

    closed spec fn view(&self) -> DecimalView {
        DecimalView { whole: self.whole@, fraction: self.fraction@ }
    }
}

impl Clone for Decimal {
    /// A literal with the same digits.
    fn clone(&self) -> (copy: Self)
        ensures
            copy@ == self@,
    {
        proof {
            use_type_invariant(self);
        }
        let whole = self.whole.clone();
        let fraction = self.fraction.clone();
        assert(whole@ =~= self.whole@);
        assert(fraction@ =~= self.fraction@);
        Decimal { whole, fraction }
    }
}

/// Whether every value is that of a decimal digit.
fn only_digits(digits: &Vec<u8>) -> (valid: bool)
    ensures
        valid == all_digits(digits@),
{
    let mut i: usize = 0;
    while i < digits.len()
        invariant
            i <= digits.len(),
            forall|j: int| 0 <= j < i ==> #[trigger] digits@[j] <= 9,
        decreases digits.len() - i,
    {
        if digits[i] > 9 {
            return false;
        }
        i += 1;
    }
    true
}

/// Appends the characters that write the digit values to `out`.
fn push_digits(out: &mut String, digits: &Vec<u8>)
    requires
        all_digits(digits@),
    ensures
        final(out)@ == old(out)@ + digits_text(digits@),
{
    let mut i: usize = 0;
    while i < digits.len()
        invariant
            i <= digits.len(),
            all_digits(digits@),
            out@ == old(out)@ + digits_text(digits@.take(i as int)),
        decreases digits.len() - i,
    {
        push_decimal(out, digits[i] as usize);
        assert(out@ =~= old(out)@ + digits_text(digits@.take(i + 1)));
        i += 1;
    }
    assert(digits@.take(i as int) =~= digits@);
}

impl Decimal {
    #[verifier::type_invariant]
    spec fn valid(&self) -> bool {
        self@.wf()
    }

    /// The literal with the given digits before and after the decimal point, where each is
    /// the value of a decimal digit and there is at least one before the point.
    pub fn new(whole: Vec<u8>, fraction: Vec<u8>) -> (literal: Option<Self>)
        ensures
            match literal {
                Some(literal) => {
                    &&& literal@ == (DecimalView { whole: whole@, fraction: fraction@ })
                    &&& literal@.wf()
                },
                None => !(DecimalView { whole: whole@, fraction: fraction@ }).wf(),
            },
    {
        if whole.len() >= 1 && only_digits(&whole) && only_digits(&fraction) {
            Some(Decimal { whole, fraction })
        } else {
            None
        }
    }

    /// The literal of digits that are known to be digits.
    pub(crate) fn from_digits(whole: Vec<u8>, fraction: Vec<u8>) -> (literal: Self)
        requires
            (DecimalView { whole: whole@, fraction: fraction@ }).wf(),
        ensures
            literal@ == (DecimalView { whole: whole@, fraction: fraction@ }),
    {
        Decimal { whole, fraction }
    }

    /// The values of the digits before the decimal point.
    pub fn whole(&self) -> (digits: &[u8])
        ensures
            digits@ == self@.whole,
            self@.wf(),
    {
        proof {
            use_type_invariant(self);
        }
        self.whole.as_slice()
    }

    /// The values of the digits after the decimal point.
    pub fn fraction(&self) -> (digits: &[u8])
        ensures
            digits@ == self@.fraction,
            self@.wf(),
    {
        proof {
            use_type_invariant(self);
        }
        self.fraction.as_slice()
    }

    /// The literal as text, as it was written.
    pub fn render(&self) -> (text: String)
        ensures
            text@ == self@.rendering(),
    {
        proof {
            use_type_invariant(self);
        }
        let mut text = String::new();
        push_digits(&mut text, &self.whole);
        if self.fraction.len() > 0 {
            text.append(".");
            push_digits(&mut text, &self.fraction);
        }
        text
    }
}

/// A category that carries a payload, as text: the name, then the payload in parentheses.
pub open spec fn payload_rendering(name: Seq<char>, payload: Seq<char>) -> Seq<char> {
    name + "("@ + payload + ")"@
}

/// The text of a category that carries a payload: `name`, then `payload` in parentheses.
pub fn with_payload(name: &str, payload: &str) -> (text: String)
    ensures
        text@ == payload_rendering(name@, payload@),
{
    let mut text = String::from_str(name);
    text.append("(");
    text.append(payload);
    text.append(")");
    text
}

/// The category of a lexeme, with the payload of the three literal categories.
#[derive(Clone, Debug, PartialEq)]
pub enum TokenType<'source> {
    // Single char.
    LeftParen,
    RightParen,
    LeftBrace,
    RightBrace,
    Comma,
    Dot,
    Minus,
    Plus,
    Semi,
    Slash,
    Star,
    // One or two.
    Bang,
    BangEqual,
    Equal,
    EqualEqual,
    Greater,
    GreaterEqual,
    Less,
    LessEqual,
    // Literals.
    Identifier(&'source str),
    String(&'source str),
    Number(Decimal),
    // Keywords.
    And,
    Class,
    Else,
    False,
    Fun,
    For,
    If,
    Nil,
    Or,
    Print,
    Return,
    Super,
    This,
    True,
    Var,
    While,
    EOF,
}

/// The mathematical content of a [`TokenType`]: the same categories, with text as a sequence
/// of characters.
pub ghost enum TokenKind {
    LeftParen,
    RightParen,
    LeftBrace,
    RightBrace,
    Comma,
    Dot,
    Minus,
    Plus,
    Semi,
    Slash,
    Star,
    Bang,
    BangEqual,
    Equal,
    EqualEqual,
    Greater,
    GreaterEqual,
    Less,
    LessEqual,
    Identifier(Seq<char>),
    String(Seq<char>),
    Number(DecimalView),
    And,
    Class,
    Else,
    False,
    Fun,
    For,
    If,
    Nil,
    Or,
    Print,
    Return,
    Super,
    This,
    True,
    Var,
    While,
    EOF,
}

impl TokenKind {
    /// One of the four operators of two characters: `!=`, `==`, `<=`, `>=`.
    pub open spec fn is_long_operator(self) -> bool {
        self is BangEqual || self is EqualEqual || self is LessEqual || self is GreaterEqual
    }

    /// One of the four operators of one character that an equal sign makes longer: `!`,
    /// `=`, `<`, `>`.
    pub open spec fn is_short_operator(self) -> bool {
        self is Bang || self is Equal || self is Less || self is Greater
    }

    /// One of the sixteen reserved words.
    pub open spec fn is_keyword(self) -> bool {
        self is And || self is Class || self is Else || self is False || self is Fun
            || self is For || self is If || self is Nil || self is Or || self is Print
            || self is Return || self is Super || self is This || self is True || self is Var
            || self is While
    }

    /// The category as text: its name and, for the three literal categories, the payload in
    /// parentheses. An identifier and a string are written as [`quoted`] writes them, a
    /// number as it was written.
    pub open spec fn rendering(self) -> Seq<char> {
        match self {
            TokenKind::LeftParen => "LeftParen"@,
            TokenKind::RightParen => "RightParen"@,
            TokenKind::LeftBrace => "LeftBrace"@,
            TokenKind::RightBrace => "RightBrace"@,
            TokenKind::Comma => "Comma"@,
            TokenKind::Dot => "Dot"@,
            TokenKind::Minus => "Minus"@,
            TokenKind::Plus => "Plus"@,
            TokenKind::Semi => "Semi"@,
            TokenKind::Slash => "Slash"@,
            TokenKind::Star => "Star"@,
            TokenKind::Bang => "Bang"@,
            TokenKind::BangEqual => "BangEqual"@,
            TokenKind::Equal => "Equal"@,
            TokenKind::EqualEqual => "EqualEqual"@,
            TokenKind::Greater => "Greater"@,
            TokenKind::GreaterEqual => "GreaterEqual"@,
            TokenKind::Less => "Less"@,
            TokenKind::LessEqual => "LessEqual"@,
            TokenKind::Identifier(text) => payload_rendering("Identifier"@, quoted(text)),
            TokenKind::String(text) => payload_rendering("String"@, quoted(text)),
            TokenKind::Number(value) => payload_rendering("Number"@, value.rendering()),
            TokenKind::And => "And"@,
            TokenKind::Class => "Class"@,
            TokenKind::Else => "Else"@,
            TokenKind::False => "False"@,
            TokenKind::Fun => "Fun"@,
            TokenKind::For => "For"@,
            TokenKind::If => "If"@,
            TokenKind::Nil => "Nil"@,
            TokenKind::Or => "Or"@,
            TokenKind::Print => "Print"@,
            TokenKind::Return => "Return"@,
            TokenKind::Super => "Super"@,
            TokenKind::This => "This"@,
            TokenKind::True => "True"@,
            TokenKind::Var => "Var"@,
            TokenKind::While => "While"@,
            TokenKind::EOF => "EOF"@,
        }
    }
}

impl<'source> View for TokenType<'source> {
    type V = TokenKind;

    open spec fn view(&self) -> TokenKind {
        match *self {
            TokenType::LeftParen => TokenKind::LeftParen,
            TokenType::RightParen => TokenKind::RightParen,
            TokenType::LeftBrace => TokenKind::LeftBrace,
            TokenType::RightBrace => TokenKind::RightBrace,
            TokenType::Comma => TokenKind::Comma,
            TokenType::Dot => TokenKind::Dot,
            TokenType::Minus => TokenKind::Minus,
            TokenType::Plus => TokenKind::Plus,
            TokenType::Semi => TokenKind::Semi,
            TokenType::Slash => TokenKind::Slash,
            TokenType::Star => TokenKind::Star,
            TokenType::Bang => TokenKind::Bang,
            TokenType::BangEqual => TokenKind::BangEqual,
            TokenType::Equal => TokenKind::Equal,
            TokenType::EqualEqual => TokenKind::EqualEqual,
            TokenType::Greater => TokenKind::Greater,
            TokenType::GreaterEqual => TokenKind::GreaterEqual,
            TokenType::Less => TokenKind::Less,
            TokenType::LessEqual => TokenKind::LessEqual,
            TokenType::Identifier(text) => TokenKind::Identifier(text@),
            TokenType::String(text) => TokenKind::String(text@),
            TokenType::Number(value) => TokenKind::Number(value@),
            TokenType::And => TokenKind::And,
            TokenType::Class => TokenKind::Class,
            TokenType::Else => TokenKind::Else,
            TokenType::False => TokenKind::False,
            TokenType::Fun => TokenKind::Fun,
            TokenType::For => TokenKind::For,
            TokenType::If => TokenKind::If,
            TokenType::Nil => TokenKind::Nil,
            TokenType::Or => TokenKind::Or,
            TokenType::Print => TokenKind::Print,
            TokenType::Return => TokenKind::Return,
            TokenType::Super => TokenKind::Super,
            TokenType::This => TokenKind::This,
            TokenType::True => TokenKind::True,
            TokenType::Var => TokenKind::Var,
            TokenType::While => TokenKind::While,
            TokenType::EOF => TokenKind::EOF,
        }
    }
}

impl<'source> TokenType<'source> {
    /// The category as text: its name and, for the three literal categories, the payload in
    /// parentheses.
    pub fn render(&self) -> (text: String)
        ensures
            text@ == self@.rendering(),
    {
        match self {
            TokenType::LeftParen => String::from_str("LeftParen"),
            TokenType::RightParen => String::from_str("RightParen"),
            TokenType::LeftBrace => String::from_str("LeftBrace"),
            TokenType::RightBrace => String::from_str("RightBrace"),
            TokenType::Comma => String::from_str("Comma"),
            TokenType::Dot => String::from_str("Dot"),
            TokenType::Minus => String::from_str("Minus"),
            TokenType::Plus => String::from_str("Plus"),
            TokenType::Semi => String::from_str("Semi"),
            TokenType::Slash => String::from_str("Slash"),
            TokenType::Star => String::from_str("Star"),
            TokenType::Bang => String::from_str("Bang"),
            TokenType::BangEqual => String::from_str("BangEqual"),
            TokenType::Equal => String::from_str("Equal"),
            TokenType::EqualEqual => String::from_str("EqualEqual"),
            TokenType::Greater => String::from_str("Greater"),
            TokenType::GreaterEqual => String::from_str("GreaterEqual"),
            TokenType::Less => String::from_str("Less"),
            TokenType::LessEqual => String::from_str("LessEqual"),
            TokenType::Identifier(text) => with_payload("Identifier", quote(text).as_str()),
            TokenType::String(text) => with_payload("String", quote(text).as_str()),
            TokenType::Number(value) => with_payload("Number", value.render().as_str()),
            TokenType::And => String::from_str("And"),
            TokenType::Class => String::from_str("Class"),
            TokenType::Else => String::from_str("Else"),
            TokenType::False => String::from_str("False"),
            TokenType::Fun => String::from_str("Fun"),
            TokenType::For => String::from_str("For"),
            TokenType::If => String::from_str("If"),
            TokenType::Nil => String::from_str("Nil"),
            TokenType::Or => String::from_str("Or"),
            TokenType::Print => String::from_str("Print"),
            TokenType::Return => String::from_str("Return"),
            TokenType::Super => String::from_str("Super"),
            TokenType::This => String::from_str("This"),
            TokenType::True => String::from_str("True"),
            TokenType::Var => String::from_str("Var"),
            TokenType::While => String::from_str("While"),
            TokenType::EOF => String::from_str("EOF"),
        }
    }
}

/// A classified lexeme and the line it was read on.
pub struct Token<'source> {
    pub which: TokenType<'source>,
    lexem: &'source str,
    line: usize,
}

/// The mathematical content of a [`Token`].
pub ghost struct TokenView {
    pub which: TokenKind,
    pub lexeme: Seq<char>,
    pub line: nat,
}

impl TokenView {
    /// The token as text: `<category and payload> at line <line>`.
    pub open spec fn rendering(self) -> Seq<char> {
        self.which.rendering() + " at line "@ + decimal(self.line)
    }
}

impl<'source> View for Token<'source> {
    type V = TokenView;

    closed spec fn view(&self) -> TokenView {
        TokenView { which: self.which@, lexeme: self.lexem@, line: self.line as nat }
    }
}

impl<'source> Token<'source> {
    /// The token of category `which`, read from `lexem` and ending on `line`.
    pub fn new(which: TokenType<'source>, lexem: &'source str, line: usize) -> (token: Token<
        'source,
    >)
        ensures
            token@ == (TokenView { which: which@, lexeme: lexem@, line: line as nat }),
    {
        Token { which, lexem, line }
    }

    /// The token as text: `<category and payload> at line <line>`.
    pub fn render(&self) -> (text: String)
        ensures
            text@ == self@.rendering(),
    {
        let mut text = self.which.render();
        text.append(" at line ");
        push_decimal(&mut text, self.line);
        text
    }

    /// The category of the token, with its payload.
    pub fn category(&self) -> (which: &TokenType<'source>)
        ensures
            which@ == self@.which,
    {
        &self.which
    }

    /// The text that the token was read from.
    pub fn lexeme(&self) -> (text: &'source str)
        ensures
            text@ == self@.lexeme,
    {
        self.lexem
    }

    /// The line on which the token ended, counted from 1.
    pub fn line(&self) -> (line: usize)
        ensures
            line == self@.line,
    {
        self.line
    }
}

/// The views of a sequence of tokens, in order.
pub open spec fn token_views(tokens: Seq<Token<'_>>) -> Seq<TokenView> {
    tokens.map_values(|token: Token| token@)
}

} // verus!
