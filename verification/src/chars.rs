use vstd::prelude::*;

verus! {

/// Unicode White_Space, the property that `char::is_whitespace` tests.
pub open spec fn is_unicode_whitespace(c: char) -> bool {
    let u = c as u32;
    ||| 0x09u32 <= u <= 0x0Du32
    ||| u == 0x20u32
    ||| u == 0x85u32
    ||| u == 0xA0u32
    ||| u == 0x1680u32
    ||| 0x2000u32 <= u <= 0x200Au32
    ||| u == 0x2028u32
    ||| u == 0x2029u32
    ||| u == 0x202Fu32
    ||| u == 0x205Fu32
    ||| u == 0x3000u32
}

/// Whether `c` has the Unicode Alphabetic property, as `char::is_alphabetic`
/// reports it.
pub uninterp spec fn unicode_alphabetic(c: char) -> bool;

/// Calls `char::is_alphabetic`. Its contract claims only that the answer is
/// the same for the same character; the Alphabetic table itself is not
/// restated here.
#[verifier::external_body]
pub fn is_alphabetic(c: char) -> (b: bool)
    ensures
        b == unicode_alphabetic(c),
{
    c.is_alphabetic()
}

pub fn is_whitespace(c: char) -> (b: bool)
    ensures
        b == is_unicode_whitespace(c),
{
    let u = c as u32;
    (0x09u32 <= u && u <= 0x0Du32) || u == 0x20u32 || u == 0x85u32 || u == 0xA0u32 || u
        == 0x1680u32 || (0x2000u32 <= u && u <= 0x200Au32) || u == 0x2028u32 || u == 0x2029u32
        || u == 0x202Fu32 || u == 0x205Fu32 || u == 0x3000u32
}

pub open spec fn is_ascii_letter(c: char) -> bool {
    ('a' <= c && c <= 'z') || ('A' <= c && c <= 'Z')
}

pub open spec fn is_ascii_digit(c: char) -> bool {
    '0' <= c && c <= '9'
}

pub open spec fn is_hex_digit(c: char) -> bool {
    ('0' <= c && c <= '9') || ('a' <= c && c <= 'f') || ('A' <= c && c <= 'F')
}

/// The value of a hexadecimal digit.
pub open spec fn hex_digit_value(c: char) -> nat {
    if '0' <= c && c <= '9' {
        ((c as u32) - 48) as nat
    } else if 'a' <= c && c <= 'f' {
        ((c as u32) - 87) as nat
    } else {
        ((c as u32) - 55) as nat
    }
}

/// The number that hexadecimal digits write.
pub open spec fn hex_value(s: Seq<char>) -> nat
    decreases s.len(),
{
    if s.len() == 0 {
        0
    } else {
        hex_value(s.drop_last()) * 16 + hex_digit_value(s.last())
    }
}

/// A Unicode scalar value: a code point that is not a surrogate.
pub open spec fn is_scalar_value(v: nat) -> bool {
    v < 0x110000 && !(0xD800 <= v && v <= 0xDFFF)
}

/// Calls `char::from_u32`, which, as documented, gives a character exactly
/// for Unicode scalar values, the one with that code.
#[verifier::external_body]
pub fn char_from_u32(v: u32) -> (c: Option<char>)
    ensures
        c is Some <==> is_scalar_value(v as nat),
        c matches Some(x) ==> x as u32 == v && x == (v as char),
{
    char::from_u32(v)
}

/// The sets of characters that the parsers read runs of.
#[derive(Clone, Copy, Debug, PartialEq, Eq)]
pub enum CharClass {
    /// Unicode whitespace.
    Whitespace,
    /// Anything but a line feed.
    NotNewline,
    /// Anything but the given character.
    NotChar(char),
    /// Anything but a double quote or a line feed.
    NotQuoteOrNewline,
    /// A space or a horizontal tab.
    Blank,
    /// An alphabetic character or a hyphen.
    AttributeChar,
    /// An ASCII letter or digit, an underscore or a hyphen.
    VariableChar,
    /// An ASCII hexadecimal digit.
    HexDigit,
}

pub open spec fn in_class(k: CharClass, c: char) -> bool {
    match k {
        CharClass::Whitespace => is_unicode_whitespace(c),
        CharClass::NotNewline => c != '\n',
        CharClass::NotChar(x) => c != x,
        CharClass::NotQuoteOrNewline => c != '"' && c != '\n',
        CharClass::Blank => c == ' ' || c == '\t',
        CharClass::AttributeChar => unicode_alphabetic(c) || c == '-',
        CharClass::VariableChar => is_ascii_letter(c) || is_ascii_digit(c) || c == '_' || c
            == '-',
        CharClass::HexDigit => is_hex_digit(c),
    }
}

pub fn class_contains(k: CharClass, c: char) -> (b: bool)
    ensures
        b == in_class(k, c),
{
    match k {
        CharClass::Whitespace => is_whitespace(c),
        CharClass::NotNewline => c != '\n',
        CharClass::NotChar(x) => c != x,
        CharClass::NotQuoteOrNewline => c != '"' && c != '\n',
        CharClass::Blank => c == ' ' || c == '\t',
        CharClass::AttributeChar => is_alphabetic(c) || c == '-',
        CharClass::VariableChar => ('a' <= c && c <= 'z') || ('A' <= c && c <= 'Z') || ('0' <= c
            && c <= '9') || c == '_' || c == '-',
        CharClass::HexDigit => ('0' <= c && c <= '9') || ('a' <= c && c <= 'f') || ('A' <= c && c <= 'F'),
    }
}

/// The length of the run of characters of class `k` that starts at `i`.
pub open spec fn span_len(text: Seq<char>, i: int, k: CharClass) -> nat
    decreases text.len() - i,
{
    if i < 0 || i >= text.len() || !in_class(k, text[i]) {
        0
    } else {
        1 + span_len(text, i + 1, k)
    }
}

pub proof fn lemma_span_len_bound(text: Seq<char>, i: int, k: CharClass)
    requires
        0 <= i,
    ensures
        i + span_len(text, i, k) <= text.len() || span_len(text, i, k) == 0,
        span_len(text, i, k) > 0 ==> i + span_len(text, i, k) <= text.len(),
        forall|j: int| i <= j < i + span_len(text, i, k) ==> in_class(k, #[trigger] text[j]),
        i + span_len(text, i, k) < text.len() ==> !in_class(k, text[i + span_len(text, i, k)]),
    decreases text.len() - i,
{
    if i < text.len() && in_class(k, text[i]) {
        lemma_span_len_bound(text, i + 1, k);
    }
}

} // verus!
