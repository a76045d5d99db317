//! Text helpers: positions in UTF-8 text and decimal numerals.

use vstd::prelude::*;
use vstd::string::*;
use vstd::utf8::*;

verus! {

/// The number of bytes that a character takes in UTF-8.
pub open spec fn width_of(c: char) -> nat {
    encode_scalar(c as u32).len()
}

/// The number of bytes that the first `index` characters of a text take in UTF-8: the byte
/// offset at which the character at `index` starts.
pub open spec fn offset_of(text: Seq<char>, index: int) -> nat {
    encode_utf8(text.take(index)).len()
}

/// The number of bytes that a character takes in UTF-8.
pub fn width(c: char) -> (n: usize)
    ensures
        n == width_of(c),
        1 <= n <= 4,
{
    let code: u32 = c as u32;
    if code < 0x80 {
        1
    } else if code < 0x800 {
        2
    } else if code < 0x10000 {
        3
    } else {
        4
    }
}

/// The encoding of a concatenation is the concatenation of the encodings.
pub proof fn lemma_encode_concat(a: Seq<char>, b: Seq<char>)
    ensures
        encode_utf8(a + b) == encode_utf8(a) + encode_utf8(b),
    decreases a.len(),
{
    if a.len() == 0 {
        assert(a + b =~= b);
        assert(encode_utf8(a) + encode_utf8(b) =~= encode_utf8(b));
    } else {
        assert((a + b).drop_first() =~= a.drop_first() + b);
        lemma_encode_concat(a.drop_first(), b);
        assert(encode_utf8(a + b) =~= encode_utf8(a) + encode_utf8(b));
    }
}

/// The encoding of one character.
pub proof fn lemma_encode_one(c: char)
    ensures
        encode_utf8(seq![c]) == encode_scalar(c as u32),
{
    assert(seq![c].drop_first() =~= Seq::<char>::empty());
    assert(encode_utf8(Seq::<char>::empty()) =~= Seq::<u8>::empty());
    assert(encode_utf8(seq![c]) =~= encode_scalar(c as u32));
}

/// Offsets start at zero, grow by the width of each character, and end at the length of the
/// encoding.
pub proof fn lemma_offset_step(text: Seq<char>, index: int)
    requires
        0 <= index < text.len(),
    ensures
        offset_of(text, index + 1) == offset_of(text, index) + width_of(text[index]),
        offset_of(text, index + 1) <= encode_utf8(text).len(),
{
    assert(text.take(index + 1) =~= text.take(index) + seq![text[index]]);
    lemma_encode_concat(text.take(index), seq![text[index]]);
    lemma_encode_one(text[index]);
    assert(text =~= text.take(index + 1) + text.skip(index + 1));
    lemma_encode_concat(text.take(index + 1), text.skip(index + 1));
}

/// The offset of the first character is zero and that of the end is the encoding's length.
pub proof fn lemma_offset_ends(text: Seq<char>)
    ensures
        offset_of(text, 0) == 0,
        offset_of(text, text.len() as int) == encode_utf8(text).len(),
{
    assert(text.take(0) =~= Seq::<char>::empty());
    assert(text.take(text.len() as int) =~= text);
}

/// The bytes between two offsets encode the characters between the two positions.
pub proof fn lemma_encode_subrange(text: Seq<char>, from: int, to: int)
    requires
        0 <= from <= to <= text.len(),
    ensures
        offset_of(text, from) <= offset_of(text, to) <= encode_utf8(text).len(),
        encode_utf8(text).subrange(offset_of(text, from) as int, offset_of(text, to) as int)
            == encode_utf8(text.subrange(from, to)),
{
    let head = text.take(from);
    let middle = text.subrange(from, to);
    let tail = text.skip(to);
    assert(text.take(to) =~= head + middle);
    assert(text =~= text.take(to) + tail);
    lemma_encode_concat(head, middle);
    lemma_encode_concat(text.take(to), tail);
    assert(encode_utf8(text).subrange(offset_of(text, from) as int, offset_of(text, to) as int)
        =~= encode_utf8(middle));
}

/// The offset of every position is a character boundary of the encoding.
pub proof fn lemma_offset_is_boundary(text: Seq<char>, index: int)
    requires
        0 <= index <= text.len(),
    ensures
        is_char_boundary(encode_utf8(text), offset_of(text, index) as int),
    decreases index,
{
    let bytes = encode_utf8(text);
    encode_utf8_valid_utf8(text);
    if index == 0 {
        lemma_offset_ends(text);
    } else {
        let rest = text.drop_first();
        encode_utf8_first_scalar(text);
        assert(pop_first_scalar(bytes) =~= encode_utf8(rest));
        assert(text.take(index) =~= seq![text[0]] + rest.take(index - 1));
        lemma_encode_concat(seq![text[0]], rest.take(index - 1));
        lemma_encode_one(text[0]);
        lemma_offset_is_boundary(rest, index - 1);
        lemma_encode_subrange(text, 0, index);
        assert(offset_of(text, index) - length_of_first_scalar(bytes) == offset_of(
            rest,
            index - 1,
        ));
    }
}

/// The part of `source` between the characters at `from` and `to`, found by their byte
/// offsets.
pub(crate) fn slice<'a>(
    source: &'a str,
    from_offset: usize,
    to_offset: usize,
    Ghost(from): Ghost<int>,
    Ghost(to): Ghost<int>,
) -> (part: &'a str)
    requires
        0 <= from <= to <= source@.len(),
        from_offset == offset_of(source@, from),
        to_offset == offset_of(source@, to),
    ensures
        part@ == source@.subrange(from, to),
{
    proof {
        lemma_offset_is_boundary(source@, to);
        lemma_encode_subrange(source@, 0, to);
        lemma_offset_ends(source@);
        assert(source@.subrange(0, to) =~= source@.take(to));
    }
    let (head, _) = source.split_at(to_offset);
    proof {
        encode_utf8_decode_utf8(head@);
        encode_utf8_decode_utf8(source@.take(to));
        assert(head@ == source@.take(to));
        assert(head@.take(from) =~= source@.take(from));
        lemma_offset_is_boundary(head@, from);
        lemma_encode_subrange(head@, from, to);
        lemma_offset_ends(head@);
        assert(head@.subrange(from, to) =~= source@.subrange(from, to));
    }
    let (_, part) = head.split_at(from_offset);
    proof {
        encode_utf8_decode_utf8(part@);
        encode_utf8_decode_utf8(source@.subrange(from, to));
    }
    part
}

/// The text that Rust's `Debug` formatting writes for a string: the string between double
/// quotes, with its escapes for quotes, backslashes and characters that do not print.
pub uninterp spec fn quoted(text: Seq<char>) -> Seq<char>;

/// Formats a string slice with `{:?}`, that is with `<str as core::fmt::Debug>::fmt`.
///
/// Not proved: that the result is a function of the characters of `text` alone, the one that
/// [`quoted`] names. Nothing is claimed of what it holds.
#[verifier::external_body]
pub(crate) fn quote(text: &str) -> (out: String)
    ensures
        out@ == quoted(text@),
{
    format!("{:?}", text)
}

/// The character that writes a digit value.
pub open spec fn digit_char(digit: nat) -> char
    recommends
        digit < 10,
{
    if digit == 0 {
        '0'
    } else if digit == 1 {
        '1'
    } else if digit == 2 {
        '2'
    } else if digit == 3 {
        '3'
    } else if digit == 4 {
        '4'
    } else if digit == 5 {
        '5'
    } else if digit == 6 {
        '6'
    } else if digit == 7 {
        '7'
    } else if digit == 8 {
        '8'
    } else {
        '9'
    }
}

/// The decimal numeral of a natural number, without leading zeros.
pub open spec fn decimal(n: nat) -> Seq<char>
    decreases n,
{
    if n < 10 {
        seq![digit_char(n)]
    } else {
        decimal(n / 10).push(digit_char(n % 10))
    }
}

/// The one-character text of a digit value.
fn digit_text(digit: usize) -> (text: &'static str)
    requires
        digit < 10,
    ensures
        text@ == seq![digit_char(digit as nat)],
{
    proof {
        reveal_strlit("0");
        reveal_strlit("1");
        reveal_strlit("2");
        reveal_strlit("3");
        reveal_strlit("4");
        reveal_strlit("5");
        reveal_strlit("6");
        reveal_strlit("7");
        reveal_strlit("8");
        reveal_strlit("9");
    }
    let text = if digit == 0 {
        "0"
    } else if digit == 1 {
        "1"
    } else if digit == 2 {
        "2"
    } else if digit == 3 {
        "3"
    } else if digit == 4 {
        "4"
    } else if digit == 5 {
        "5"
    } else if digit == 6 {
        "6"
    } else if digit == 7 {
        "7"
    } else if digit == 8 {
        "8"
    } else {
        "9"
    };
    assert(text@ =~= seq![digit_char(digit as nat)]);
    text
}

/// Appends the decimal numeral of `n` to `out`.
pub fn push_decimal(out: &mut String, n: usize)
    ensures
        final(out)@ == old(out)@ + decimal(n as nat),
    decreases n,
{
    if n >= 10 {
        push_decimal(out, n / 10);
    }
    out.append(digit_text(n % 10));
    assert(final(out)@ =~= old(out)@ + decimal(n as nat));
}

} // verus!
