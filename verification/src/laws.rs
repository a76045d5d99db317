//! Laws of the lexical grammar: what holds of the pass over every text.

use vstd::prelude::*;
use crate::errors::Diagnostic;
use crate::grammar::{
    digit_value, digit_values, digits_end, eof, equal_follows, fraction_follows, is_word,
    keyword, lemma_newlines_empty, lemma_newlines_push, lemma_run_end_bounds,
    lemma_run_end_is_maximal, lemma_run_end_skips, lemma_step_advances, line_end, newlines,
    operator, quote_at, scan, scan_from, scan_result, spec_is_alpha, spec_is_alpha_numeric,
    spec_is_digit, step, token_is_consistent, unexpected_dot, word_end, word_kind, Lexed, Scan,
    Step,
};
use crate::text::digit_char;
use crate::tokens::{all_digits, digits_text, TokenKind, TokenView};

verus! {

/// The newlines of two texts put together are those of the one and those of the other.
pub proof fn lemma_newlines_concat(head: Seq<char>, tail: Seq<char>)
    ensures
        newlines(head + tail) == newlines(head) + newlines(tail),
{
    Seq::filter_distributes_over_add(head, tail, |c: char| c == '\n');
}

/// A text without a newline character counts no newline.
pub proof fn lemma_newlines_none(text: Seq<char>)
    requires
        forall|i: int| 0 <= i < text.len() ==> #[trigger] text[i] != '\n',
    ensures
        newlines(text) == 0,
    decreases text.len(),
{
    if text.len() == 0 {
        assert(text =~= Seq::<char>::empty());
        lemma_newlines_empty();
    } else {
        assert(text =~= text.drop_last().push(text.last()));
        lemma_newlines_push(text.drop_last(), text.last());
        lemma_newlines_none(text.drop_last());
    }
}

/// The newlines of a part of a text, split at a position inside the part.
proof fn lemma_newlines_split(text: Seq<char>, from: int, mid: int, to: int)
    requires
        0 <= from <= mid <= to <= text.len(),
    ensures
        newlines(text.subrange(from, to)) == newlines(text.subrange(from, mid)) + newlines(
            text.subrange(mid, to),
        ),
{
    assert(text.subrange(from, to) =~= text.subrange(from, mid) + text.subrange(mid, to));
    lemma_newlines_concat(text.subrange(from, mid), text.subrange(mid, to));
}

/// The newlines of a single character.
proof fn lemma_newlines_one(text: Seq<char>, at: int)
    requires
        0 <= at < text.len(),
    ensures
        newlines(text.subrange(at, at + 1)) == if text[at] == '\n' {
            1nat
        } else {
            0nat
        },
{
    assert(text.subrange(at, at + 1) =~= Seq::<char>::empty().push(text[at]));
    lemma_newlines_push(Seq::<char>::empty(), text[at]);
    lemma_newlines_empty();
}

/// The line counter counts newlines: an attempt moves it on by the number of newline
/// characters that it consumes.
pub proof fn law_step_counts_newlines(text: Seq<char>, pos: int, line: int)
    requires
        0 <= pos < text.len(),
    ensures
        step(text, pos, line).line == line + newlines(
            text.subrange(pos, step(text, pos, line).next),
        ),
{
    let c = text[pos];
    let here = step(text, pos, line);
    lemma_step_advances(text, pos, line);
    lemma_newlines_one(text, pos);
    lemma_newlines_split(text, pos, pos + 1, here.next);
    if c == '/' && here.lexed is Nothing {
        lemma_run_end_is_maximal(text, pos + 1, |c: char| c != '\n');
        lemma_newlines_none(text.subrange(pos + 1, here.next));
    } else if c == '"' {
        let close = quote_at(text, pos + 1);
        lemma_run_end_bounds(text, pos + 1, |c: char| c != '"');
        lemma_run_end_is_maximal(text, pos + 1, |c: char| c != '"');
        if close < text.len() {
            lemma_newlines_split(text, pos + 1, close, close + 1);
            lemma_newlines_one(text, close);
        }
    } else if spec_is_digit(c) {
        let whole_end = digits_end(text, pos);
        lemma_run_end_bounds(text, pos, |c: char| spec_is_digit(c));
        lemma_run_end_is_maximal(text, pos, |c: char| spec_is_digit(c));
        if fraction_follows(text, whole_end) {
            let fraction_end = digits_end(text, whole_end + 1);
            lemma_run_end_bounds(text, whole_end + 1, |c: char| spec_is_digit(c));
            lemma_run_end_is_maximal(text, whole_end + 1, |c: char| spec_is_digit(c));
            assert forall|i: int| 0 <= i < here.next - (pos + 1) implies #[trigger] text.subrange(
                pos + 1,
                here.next,
            )[i] != '\n' by {
                let at = pos + 1 + i;
                assert(at < whole_end || at == whole_end || at < fraction_end || at
                    == fraction_end);
            }
        }
        lemma_newlines_none(text.subrange(pos + 1, here.next));
    } else if spec_is_alpha(c) {
        lemma_run_end_is_maximal(text, pos, |c: char| spec_is_alpha_numeric(c));
        lemma_newlines_none(text.subrange(pos + 1, here.next));
    } else if here.next == pos + 2 {
        lemma_newlines_one(text, pos + 1);
    } else {
        assert(text.subrange(pos + 1, pos + 1) =~= Seq::<char>::empty());
        lemma_newlines_empty();
    }
}

/// Written out, the values of a run of digits are the run itself.
proof fn lemma_digits_round_trip(text: Seq<char>)
    requires
        forall|i: int| 0 <= i < text.len() ==> spec_is_digit(#[trigger] text[i]),
    ensures
        digits_text(digit_values(text)) == text,
        all_digits(digit_values(text)),
{
    assert forall|i: int| 0 <= i < text.len() implies #[trigger] digits_text(
        digit_values(text),
    )[i] == text[i] by {
        let c = text[i];
        assert(spec_is_digit(c));
        assert(digit_char(digit_value(c) as nat) == c);
    }
    assert(digits_text(digit_values(text)) =~= text);
}

/// The token of an attempt is consistent with its lexeme.
pub proof fn law_step_token_is_consistent(text: Seq<char>, pos: int, line: int)
    requires
        0 <= pos < text.len(),
        1 <= line,
    ensures
        step(text, pos, line).lexed matches Lexed::Token(which) ==> {
            &&& !(which is EOF)
            &&& token_is_consistent(
                TokenView {
                    which,
                    lexeme: text.subrange(pos, step(text, pos, line).next),
                    line: step(text, pos, line).line as nat,
                },
            )
        },
{
    let c = text[pos];
    let here = step(text, pos, line);
    let lexeme = text.subrange(pos, here.next);
    lemma_step_advances(text, pos, line);
    law_step_counts_newlines(text, pos, line);
    if here.lexed is Token {
        if c == '"' {
            let close = quote_at(text, pos + 1);
            lemma_run_end_bounds(text, pos + 1, |c: char| c != '"');
            lemma_run_end_is_maximal(text, pos + 1, |c: char| c != '"');
            assert(lexeme =~= seq!['"'] + text.subrange(pos + 1, close) + seq!['"']);
        } else if spec_is_digit(c) {
            let whole_end = digits_end(text, pos);
            lemma_run_end_bounds(text, pos, |c: char| spec_is_digit(c));
            lemma_run_end_is_maximal(text, pos, |c: char| spec_is_digit(c));
            lemma_digits_round_trip(text.subrange(pos, whole_end));
            if fraction_follows(text, whole_end) {
                let fraction_end = digits_end(text, whole_end + 1);
                lemma_run_end_bounds(text, whole_end + 1, |c: char| spec_is_digit(c));
                lemma_run_end_is_maximal(text, whole_end + 1, |c: char| spec_is_digit(c));
                lemma_digits_round_trip(text.subrange(whole_end + 1, fraction_end));
                reveal_strlit(".");
                assert("."@ =~= seq!['.']);
                assert(lexeme =~= text.subrange(pos, whole_end) + seq!['.'] + text.subrange(
                    whole_end + 1,
                    fraction_end,
                ));
            }
        } else if spec_is_alpha(c) {
            lemma_run_end_is_maximal(text, pos, |c: char| spec_is_alpha_numeric(c));
            assert(is_word(lexeme));
        } else if here.next == pos + 2 {
            assert(lexeme =~= seq![c, '=']);
        } else {
            assert(lexeme =~= seq![c]);
        }
    }
}

/// An operator that an equal sign follows takes the equal sign in: the attempt consumes both
/// characters and gives one token, of the longer category.
pub proof fn law_operator_with_equal(text: Seq<char>, pos: int, line: int)
    requires
        0 <= pos < text.len(),
        text[pos] == '!' || text[pos] == '=' || text[pos] == '<' || text[pos] == '>',
        equal_follows(text, pos),
    ensures
        step(text, pos, line) == (Step {
            next: pos + 2,
            line,
            lexed: Lexed::Token(
                if text[pos] == '!' {
                    TokenKind::BangEqual
                } else if text[pos] == '=' {
                    TokenKind::EqualEqual
                } else if text[pos] == '<' {
                    TokenKind::LessEqual
                } else {
                    TokenKind::GreaterEqual
                },
            ),
        }),
        text.subrange(pos, pos + 2) == seq![text[pos], '='],
{
    assert(text.subrange(pos, pos + 2) =~= seq![text[pos], '=']);
}

/// An operator that no equal sign follows is a token by itself: the attempt consumes the one
/// character and gives the shorter category.
pub proof fn law_operator_without_equal(text: Seq<char>, pos: int, line: int)
    requires
        0 <= pos < text.len(),
        text[pos] == '!' || text[pos] == '=' || text[pos] == '<' || text[pos] == '>',
        !equal_follows(text, pos),
    ensures
        step(text, pos, line) == (Step {
            next: pos + 1,
            line,
            lexed: Lexed::Token(
                if text[pos] == '!' {
                    TokenKind::Bang
                } else if text[pos] == '=' {
                    TokenKind::Equal
                } else if text[pos] == '<' {
                    TokenKind::Less
                } else {
                    TokenKind::Greater
                },
            ),
        }),
{
}

/// A text that is an operator and an equal sign holds one token, whose lexeme is the text,
/// and the end-of-file token.
pub proof fn law_long_operator_alone(text: Seq<char>)
    requires
        text.len() == 2,
        text[0] == '!' || text[0] == '=' || text[0] == '<' || text[0] == '>',
        text[1] == '=',
    ensures
        scan_result(text) == Ok::<Seq<TokenView>, Seq<Diagnostic>>(
            seq![
                TokenView { which: operator(text[0], true)->Some_0, lexeme: text, line: 1 },
                eof(1),
            ],
        ),
{
    law_operator_with_equal(text, 0, 1);
    assert(text.subrange(0, 2) =~= text);
    assert(scan_from(text, 2, 1) == (Scan { tokens: seq![eof(1)], errors: seq![] }));
    let token = TokenView { which: operator(text[0], true)->Some_0, lexeme: text, line: 1 };
    assert(scan(text).tokens =~= seq![token, eof(1)]);
}

/// A letter or an underscore starts a word, wherever it stands: the attempt consumes the
/// longest run of letters, digits and underscores from there, neither more nor less, and
/// gives one token. The token is the reserved word where the run is one of the sixteen
/// reserved spellings, and never an identifier then; it is the identifier that carries the
/// run, character for character, where the run is none of them.
pub proof fn law_word_at(text: Seq<char>, pos: int, line: int)
    requires
        0 <= pos < text.len(),
        spec_is_alpha(text[pos]),
    ensures
        ({
            let end = word_end(text, pos);
            let word = text.subrange(pos, end);
            &&& pos < end <= text.len()
            &&& is_word(word)
            &&& end < text.len() ==> !spec_is_alpha_numeric(text[end])
            &&& step(text, pos, line) == (Step {
                next: end,
                line,
                lexed: Lexed::Token(word_kind(word)),
            })
            &&& match keyword(word) {
                Some(reserved) => word_kind(word) == reserved && reserved.is_keyword(),
                None => word_kind(word) == TokenKind::Identifier(word),
            }
        }),
{
    lemma_run_end_bounds(text, pos, |c: char| spec_is_alpha_numeric(c));
    lemma_run_end_is_maximal(text, pos, |c: char| spec_is_alpha_numeric(c));
    lemma_step_advances(text, pos, line);
}

/// What the pass from a position holds.
///
/// It holds at least the end-of-file token, which is the last token and the only one of its
/// category, on the line that the newlines of the rest of the text lead to. The lines of the
/// tokens never decrease and lie between the starting line and that one. Every token is
/// consistent with its lexeme.
pub proof fn law_scan_from(text: Seq<char>, pos: int, line: int)
    requires
        0 <= pos <= text.len(),
        1 <= line,
    ensures
        ({
            let pass = scan_from(text, pos, line);
            let last_line = line + newlines(text.subrange(pos, text.len() as int));
            &&& pass.tokens.len() >= 1
            &&& pass.tokens.last() == eof(last_line)
            &&& forall|i: int|
                0 <= i < pass.tokens.len() - 1 ==> !((#[trigger] pass.tokens[i]).which is EOF)
            &&& forall|i: int|
                0 <= i < pass.tokens.len() ==> line <= (#[trigger] pass.tokens[i]).line
                    <= last_line
            &&& forall|i: int, j: int|
                0 <= i <= j < pass.tokens.len() ==> (#[trigger] pass.tokens[i]).line <= (
                #[trigger] pass.tokens[j]).line
            &&& forall|i: int|
                0 <= i < pass.tokens.len() ==> token_is_consistent(#[trigger] pass.tokens[i])
        }),
    decreases text.len() - pos,
{
    let pass = scan_from(text, pos, line);
    if pos < text.len() {
        let here = step(text, pos, line);
        lemma_step_advances(text, pos, line);
        law_step_counts_newlines(text, pos, line);
        law_step_token_is_consistent(text, pos, line);
        lemma_newlines_split(text, pos, here.next, text.len() as int);
        law_scan_from(text, here.next, here.line);
        let rest = scan_from(text, here.next, here.line);
        if here.lexed is Token {
            assert(forall|i: int|
                1 <= i < pass.tokens.len() ==> #[trigger] pass.tokens[i] == rest.tokens[i - 1]);
        }
    } else {
        assert(text.subrange(pos, text.len() as int) =~= Seq::<char>::empty());
    }
}

/// Every pass ends with exactly one end-of-file token, whose line is one more than the number
/// of newline characters in the text. The lines of the tokens start at 1 or later and never
/// decrease, and every token is consistent with its lexeme. A pass that fails holds at least
/// one error.
pub proof fn law_scan(text: Seq<char>)
    ensures
        scan(text).tokens.len() >= 1,
        scan(text).tokens.last() == eof(1 + newlines(text) as int),
        forall|i: int|
            0 <= i < scan(text).tokens.len() - 1 ==> !((#[trigger] scan(text).tokens[i]).which
                is EOF),
        forall|i: int|
            0 <= i < scan(text).tokens.len() ==> 1 <= (#[trigger] scan(text).tokens[i]).line <= 1
                + newlines(text),
        forall|i: int, j: int|
            0 <= i <= j < scan(text).tokens.len() ==> (#[trigger] scan(text).tokens[i]).line <= (
            #[trigger] scan(text).tokens[j]).line,
        forall|i: int|
            0 <= i < scan(text).tokens.len() ==> token_is_consistent(
                #[trigger] scan(text).tokens[i],
            ),
        scan_result(text) matches Ok(tokens) ==> tokens == scan(text).tokens,
        scan_result(text) matches Err(errors) ==> errors.len() >= 1,
{
    law_scan_from(text, 0, 1);
    assert(text.subrange(0, text.len() as int) =~= text);
}

/// The empty text holds the end-of-file token on line 1 and nothing else.
pub proof fn law_empty_text()
    ensures
        scan_result(Seq::<char>::empty()) == Ok::<Seq<TokenView>, Seq<Diagnostic>>(
            seq![eof(1)],
        ),
{
}

/// A text that is one line comment, two slashes and no newline after them, holds the
/// end-of-file token on line 1 and nothing else.
pub proof fn law_comment_only(text: Seq<char>)
    requires
        text.len() >= 2,
        text[0] == '/',
        text[1] == '/',
        forall|i: int| 0 <= i < text.len() ==> #[trigger] text[i] != '\n',
    ensures
        scan_result(text) == Ok::<Seq<TokenView>, Seq<Diagnostic>>(seq![eof(1)]),
{
    lemma_run_end_skips(text, 1, text.len() as int, |c: char| c != '\n');
    assert(line_end(text, 1) == text.len());
    assert(scan_from(text, text.len() as int, 1) == (Scan {
        tokens: seq![eof(1)],
        errors: seq![],
    }));
}

/// A number literal with a second decimal point that a digit follows gives no token: the
/// attempt reports the point, on the current line, and leaves the cursor behind it.
pub proof fn law_second_decimal_point(text: Seq<char>, pos: int, line: int)
    requires
        0 <= pos < text.len(),
        spec_is_digit(text[pos]),
        fraction_follows(text, digits_end(text, pos)),
        fraction_follows(text, digits_end(text, digits_end(text, pos) + 1)),
    ensures
        step(text, pos, line) == (Step {
            next: digits_end(text, digits_end(text, pos) + 1) + 1,
            line,
            lexed: Lexed::Error(unexpected_dot(line)),
        }),
        scan_from(text, pos, line).errors.len() >= 1,
        scan_from(text, pos, line).errors[0] == unexpected_dot(line),
        pos == 0 && line == 1 ==> scan_result(text) is Err,
{
    lemma_step_advances(text, pos, line);
}

/// The sixteen reserved spellings, character by character.
pub proof fn law_reserved_spellings()
    ensures
        "and"@ == seq!['a', 'n', 'd'],
        "class"@ == seq!['c', 'l', 'a', 's', 's'],
        "else"@ == seq!['e', 'l', 's', 'e'],
        "false"@ == seq!['f', 'a', 'l', 's', 'e'],
        "for"@ == seq!['f', 'o', 'r'],
        "fun"@ == seq!['f', 'u', 'n'],
        "if"@ == seq!['i', 'f'],
        "nil"@ == seq!['n', 'i', 'l'],
        "or"@ == seq!['o', 'r'],
        "print"@ == seq!['p', 'r', 'i', 'n', 't'],
        "return"@ == seq!['r', 'e', 't', 'u', 'r', 'n'],
        "super"@ == seq!['s', 'u', 'p', 'e', 'r'],
        "this"@ == seq!['t', 'h', 'i', 's'],
        "true"@ == seq!['t', 'r', 'u', 'e'],
        "var"@ == seq!['v', 'a', 'r'],
        "while"@ == seq!['w', 'h', 'i', 'l', 'e'],
{
    reveal_strlit("and");
    reveal_strlit("class");
    reveal_strlit("else");
    reveal_strlit("false");
    reveal_strlit("for");
    reveal_strlit("fun");
    reveal_strlit("if");
    reveal_strlit("nil");
    reveal_strlit("or");
    reveal_strlit("print");
    reveal_strlit("return");
    reveal_strlit("super");
    reveal_strlit("this");
    reveal_strlit("true");
    reveal_strlit("var");
    reveal_strlit("while");
    assert("and"@ =~= seq!['a', 'n', 'd']);
    assert("class"@ =~= seq!['c', 'l', 'a', 's', 's']);
    assert("else"@ =~= seq!['e', 'l', 's', 'e']);
    assert("false"@ =~= seq!['f', 'a', 'l', 's', 'e']);
    assert("for"@ =~= seq!['f', 'o', 'r']);
    assert("fun"@ =~= seq!['f', 'u', 'n']);
    assert("if"@ =~= seq!['i', 'f']);
    assert("nil"@ =~= seq!['n', 'i', 'l']);
    assert("or"@ =~= seq!['o', 'r']);
    assert("print"@ =~= seq!['p', 'r', 'i', 'n', 't']);
    assert("return"@ =~= seq!['r', 'e', 't', 'u', 'r', 'n']);
    assert("super"@ =~= seq!['s', 'u', 'p', 'e', 'r']);
    assert("this"@ =~= seq!['t', 'h', 'i', 's']);
    assert("true"@ =~= seq!['t', 'r', 'u', 'e']);
    assert("var"@ =~= seq!['v', 'a', 'r']);
    assert("while"@ =~= seq!['w', 'h', 'i', 'l', 'e']);
}

/// Each of the sixteen reserved spellings has the category of its reserved word.
pub proof fn law_reserved_words()
    ensures
        word_kind("and"@) == TokenKind::And,
        word_kind("class"@) == TokenKind::Class,
        word_kind("else"@) == TokenKind::Else,
        word_kind("false"@) == TokenKind::False,
        word_kind("for"@) == TokenKind::For,
        word_kind("fun"@) == TokenKind::Fun,
        word_kind("if"@) == TokenKind::If,
        word_kind("nil"@) == TokenKind::Nil,
        word_kind("or"@) == TokenKind::Or,
        word_kind("print"@) == TokenKind::Print,
        word_kind("return"@) == TokenKind::Return,
        word_kind("super"@) == TokenKind::Super,
        word_kind("this"@) == TokenKind::This,
        word_kind("true"@) == TokenKind::True,
        word_kind("var"@) == TokenKind::Var,
        word_kind("while"@) == TokenKind::While,
{
    law_reserved_spellings();
}

/// A word has the category of a reserved word or is an identifier that carries the word
/// itself, and it is an identifier exactly where it is none of the reserved spellings.
pub proof fn law_word_kind(word: Seq<char>)
    ensures
        word_kind(word).is_keyword() || word_kind(word) == TokenKind::Identifier(word),
        word_kind(word).is_keyword() <==> keyword(word) is Some,
{
}

/// Different words have different categories: no two spellings share a reserved word, and
/// an identifier carries its own spelling.
pub proof fn law_word_kind_is_injective(one: Seq<char>, other: Seq<char>)
    requires
        word_kind(one) == word_kind(other),
    ensures
        one == other,
{
    law_reserved_spellings();
}

/// A text that is one word, a letter or an underscore and then letters, digits and
/// underscores, holds one token and the end-of-file token: the word's reserved word, or the
/// identifier that carries the text.
pub proof fn law_word_alone(text: Seq<char>)
    requires
        text.len() >= 1,
        spec_is_alpha(text[0]),
        forall|i: int| 0 <= i < text.len() ==> spec_is_alpha_numeric(#[trigger] text[i]),
    ensures
        scan_result(text) == Ok::<Seq<TokenView>, Seq<Diagnostic>>(
            seq![TokenView { which: word_kind(text), lexeme: text, line: 1 }, eof(1)],
        ),
{
    lemma_run_end_skips(text, 0, text.len() as int, |c: char| spec_is_alpha_numeric(c));
    assert(word_end(text, 0) == text.len());
    assert(text.subrange(0, text.len() as int) =~= text);
    assert(scan_from(text, text.len() as int, 1) == (Scan {
        tokens: seq![eof(1)],
        errors: seq![],
    }));
    let word = TokenView { which: word_kind(text), lexeme: text, line: 1 };
    assert(scan(text).tokens =~= seq![word, eof(1)]);
}

} // verus!
