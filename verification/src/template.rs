use vstd::prelude::*;
use crate::ast::{Expr, ExprV, Template, TemplateElement, TemplateElementV, TemplateV, Variable, VariableV, elements_view};
use crate::chars::{CharClass, char_from_u32, hex_digit_value, hex_value, is_ascii_letter, is_hex_digit, is_scalar_value, lemma_span_len_bound};
use crate::error::{Error, ErrorV, ParseError, ParseErrorV, ParseResult, error_at, expecting, expecting_error, result_view};
use crate::primitives::{literal, spec_blanks, spec_literal, try_literal, zero_or_more_spaces};
use crate::reader::{Reader, ReaderState, SourceInfo, advance_while, advanced, lemma_advanced_refl, lemma_advanced_trans, read_between, skip_n, string_of};

verus! {

/// One unit of template text: a character with the source text that wrote
/// it, or a placeholder.
pub enum TItem {
    Char { value: char, encoded: Seq<char> },
    Placeholder(ExprV),
}

/// The character that the escape `\e` stands for in a quoted template.
pub open spec fn escaped_char(e: char) -> Option<char> {
    if e == '"' {
        Some('"')
    } else if e == '\\' {
        Some('\\')
    } else if e == '/' {
        Some('/')
    } else if e == 'b' {
        Some('\x08')
    } else if e == 'f' {
        Some('\x0c')
    } else if e == 'n' {
        Some('\n')
    } else if e == 'r' {
        Some('\r')
    } else if e == 't' {
        Some('\t')
    } else {
        None
    }
}

fn escape_value(e: char) -> (r: Option<char>)
    ensures
        r == escaped_char(e),
{
    if e == '"' {
        Some('"')
    } else if e == '\\' {
        Some('\\')
    } else if e == '/' {
        Some('/')
    } else if e == 'b' {
        Some('\x08')
    } else if e == 'f' {
        Some('\x0c')
    } else if e == 'n' {
        Some('\n')
    } else if e == 'r' {
        Some('\r')
    } else if e == 't' {
        Some('\t')
    } else {
        None
    }
}

/// A placeholder `{{ name }}` read from `st`, which stands at `{{`: blanks,
/// a variable name (an ASCII letter, then ASCII letters, digits, `_` or
/// `-`), blanks, and `}}`.
pub open spec fn spec_placeholder(text: Seq<char>, st: ReaderState) -> (Result<ExprV, ErrorV>, ReaderState) {
    let st1 = skip_n(text, st, 2);
    let (space0, st2) = spec_blanks(text, st1);
    if st2.cursor >= text.len() || !is_ascii_letter(text[st2.cursor as int]) {
        (Err(error_at(st2.pos, false, ParseErrorV::TemplateVariable)), st2)
    } else {
        let st3 = advance_while(text, st2, CharClass::VariableChar);
        let variable = VariableV { name: read_between(text, st2, st3), source_info: SourceInfo { start: st2.pos, end: st3.pos } };
        let (space1, st4) = spec_blanks(text, st3);
        let (r5, st5) = spec_literal(text, st4, "}}"@, false);
        match r5 {
            Err(e) => (Err(e), st5),
            Ok(_) => (Ok(ExprV { space0, variable, space1 }), st5),
        }
    }
}

pub proof fn lemma_placeholder_progress(text: Seq<char>, st: ReaderState)
    requires
        st.cursor + 1 < text.len() <= usize::MAX,
    ensures
        spec_placeholder(text, st).1.cursor <= text.len(),
        spec_placeholder(text, st).0 is Ok ==> spec_placeholder(text, st).1.cursor >= st.cursor + 2,
{
    let st1 = skip_n(text, st, 2);
    lemma_span_len_bound(text, st1.cursor as int, CharClass::Blank);
    let st2 = spec_blanks(text, st1).1;
    if st2.cursor < text.len() && is_ascii_letter(text[st2.cursor as int]) {
        lemma_span_len_bound(text, st2.cursor as int, CharClass::VariableChar);
        let st3 = advance_while(text, st2, CharClass::VariableChar);
        lemma_span_len_bound(text, st3.cursor as int, CharClass::Blank);
    }
}

pub fn placeholder(reader: &mut Reader) -> (res: ParseResult<Expr>)
    requires
        old(reader).wf(),
        old(reader).state.cursor + 1 < old(reader).text().len(),
        old(reader).text()[old(reader).state.cursor as int] == '{',
        old(reader).text()[old(reader).state.cursor + 1] == '{',
    ensures
        final(reader).wf(),
        final(reader).text() == old(reader).text(),
        advanced(old(reader).text(), old(reader).state, final(reader).state),
        (result_view(res), final(reader).state) == spec_placeholder(old(reader).text(), old(reader).state),
{
    let ghost text = reader.text();
    let ghost st0 = reader.state;
    reader.read();
    let ghost sa = reader.state;
    reader.read();
    proof {
        lemma_advanced_trans(text, st0, sa, reader.state);
        let two = text.subrange(st0.cursor as int, st0.cursor + 2);
        assert(text.subrange(st0.cursor as int, reader.state.cursor as int) =~= two);
    }
    let ghost st1 = reader.state;
    let space0 = zero_or_more_spaces(reader);
    let st2 = reader.state;
    proof {
        lemma_advanced_trans(text, st0, st1, st2);
    }
    let first = reader.peek();
    let ok = match first {
        Some(c) => ('a' <= c && c <= 'z') || ('A' <= c && c <= 'Z'),
        None => false,
    };
    if !ok {
        return Err(Error::new(st2.pos, false, ParseError::TemplateVariable));
    }
    let name = reader.read_while(CharClass::VariableChar);
    let st3 = reader.state;
    proof {
        lemma_advanced_trans(text, st0, st2, st3);
    }
    let variable = Variable { name: string_of(name.as_slice()), source_info: SourceInfo::new(st2.pos, st3.pos) };
    let space1 = zero_or_more_spaces(reader);
    let ghost st4 = reader.state;
    proof {
        lemma_advanced_trans(text, st0, st3, st4);
    }
    let r = literal("}}", reader);
    proof {
        lemma_advanced_trans(text, st0, st4, reader.state);
    }
    match r {
        Err(e) => Err(e),
        Ok(_) => Ok(Expr { space0, variable, space1 }),
    }
}

/// A `\u{...}` escape read from `st`, which stands at `\u`: one to six
/// hexadecimal digits in braces, writing a Unicode scalar value.
pub open spec fn spec_unicode_escape(text: Seq<char>, st: ReaderState) -> (Result<char, ErrorV>, ReaderState) {
    let st1 = skip_n(text, st, 2);
    let (r2, st2) = spec_literal(text, st1, "{"@, false);
    match r2 {
        Err(e) => (Err(e), st2),
        Ok(_) => {
            let st3 = advance_while(text, st2, CharClass::HexDigit);
            let digits = read_between(text, st2, st3);
            if digits.len() == 0 || digits.len() > 6 || !is_scalar_value(hex_value(digits)) {
                (Err(error_at(st3.pos, false, ParseErrorV::Unicode)), st3)
            } else {
                let (r4, st4) = spec_literal(text, st3, "}"@, false);
                match r4 {
                    Err(e) => (Err(e), st4),
                    Ok(_) => (Ok((hex_value(digits) as u32) as char), st4),
                }
            }
        },
    }
}

pub proof fn lemma_hex_value_bound(s: Seq<char>)
    requires
        forall|i: int| 0 <= i < s.len() ==> is_hex_digit(#[trigger] s[i]),
    ensures
        s.len() <= 6 ==> hex_value(s) < 0x1000000,
        s.len() <= 5 ==> hex_value(s) < 0x100000,
        s.len() <= 4 ==> hex_value(s) < 0x10000,
        s.len() <= 3 ==> hex_value(s) < 0x1000,
        s.len() <= 2 ==> hex_value(s) < 0x100,
        s.len() <= 1 ==> hex_value(s) < 0x10,
    decreases s.len(),
{
    if s.len() > 0 {
        lemma_hex_value_bound(s.drop_last());
        assert(hex_digit_value(s.last()) < 16);
    }
}

proof fn lemma_unicode_escape_progress(text: Seq<char>, st: ReaderState)
    requires
        st.cursor + 1 < text.len() <= usize::MAX,
    ensures
        spec_unicode_escape(text, st).1.cursor <= text.len(),
        spec_unicode_escape(text, st).1.cursor >= st.cursor,
        spec_unicode_escape(text, st).0 is Ok ==> spec_unicode_escape(text, st).1.cursor > st.cursor,
{
    let st1 = skip_n(text, st, 2);
    let st2 = spec_literal(text, st1, "{"@, false).1;
    lemma_span_len_bound(text, st2.cursor as int, CharClass::HexDigit);
}

fn unicode_escape(reader: &mut Reader) -> (res: ParseResult<char>)
    requires
        old(reader).wf(),
        old(reader).state.cursor + 1 < old(reader).text().len(),
        old(reader).text()[old(reader).state.cursor as int] == '\\',
        old(reader).text()[old(reader).state.cursor + 1] == 'u',
    ensures
        final(reader).wf(),
        final(reader).text() == old(reader).text(),
        advanced(old(reader).text(), old(reader).state, final(reader).state),
        (result_view(res), final(reader).state) == spec_unicode_escape(old(reader).text(), old(reader).state),
{
    let ghost text = reader.text();
    let ghost st0 = reader.state;
    reader.read();
    let ghost sa = reader.state;
    reader.read();
    proof {
        lemma_advanced_trans(text, st0, sa, reader.state);
        assert(text.subrange(st0.cursor as int, reader.state.cursor as int) =~= text.subrange(st0.cursor as int, st0.cursor + 2));
    }
    let ghost st1 = reader.state;
    let r2 = literal("{", reader);
    proof {
        lemma_advanced_trans(text, st0, st1, reader.state);
    }
    if let Err(e) = r2 {
        return Err(e);
    }
    let ghost st2 = reader.state;
    let digits = reader.read_while(CharClass::HexDigit);
    let st3 = reader.state;
    proof {
        lemma_advanced_trans(text, st0, st2, st3);
        lemma_span_len_bound(text, st2.cursor as int, CharClass::HexDigit);
        assert forall|i: int| 0 <= i < digits@.len() implies is_hex_digit(#[trigger] digits@[i]) by {
            assert(digits@[i] == text[st2.cursor + i]);
        }
        lemma_hex_value_bound(digits@);
    }
    if digits.len() == 0 || digits.len() > 6 {
        return Err(Error::new(st3.pos, false, ParseError::Unicode));
    }
    let mut value: u32 = 0;
    let mut i: usize = 0;
    while i < digits.len()
        invariant
            i <= digits.len() <= 6,
            forall|j: int| 0 <= j < digits@.len() ==> is_hex_digit(#[trigger] digits@[j]),
            value == hex_value(digits@.take(i as int)),
        decreases digits.len() - i,
    {
        let d = digits[i];
        proof {
            assert(digits@.take(i + 1).drop_last() =~= digits@.take(i as int));
            assert(digits@.take(i + 1).last() == d);
            assert forall|j: int| 0 <= j < digits@.take(i as int).len() implies is_hex_digit(#[trigger] digits@.take(i as int)[j]) by {
                assert(digits@.take(i as int)[j] == digits@[j]);
            }
            lemma_hex_value_bound(digits@.take(i as int));
            assert(is_hex_digit(d));
        }
        let dv: u32 = if '0' <= d && d <= '9' {
            (d as u32) - 48
        } else if 'a' <= d && d <= 'f' {
            (d as u32) - 87
        } else {
            (d as u32) - 55
        };
        value = value * 16 + dv;
        i = i + 1;
    }
    proof {
        assert(digits@.take(i as int) =~= digits@);
    }
    let c = match char_from_u32(value) {
        None => {
            return Err(Error::new(st3.pos, false, ParseError::Unicode));
        },
        Some(c) => c,
    };
    proof {
        assert(is_scalar_value(hex_value(digits@)));
    }
    let r4 = literal("}", reader);
    proof {
        lemma_advanced_trans(text, st0, st3, reader.state);
    }
    match r4 {
        Err(e) => Err(e),
        Ok(_) => Ok(c),
    }
}

pub open spec fn prepend_item(x: TItem, o: (Result<Seq<TItem>, ErrorV>, ReaderState)) -> (Result<Seq<TItem>, ErrorV>, ReaderState) {
    match o.0 {
        Ok(items) => (Ok(seq![x] + items), o.1),
        Err(e) => (Err(e), o.1),
    }
}

pub open spec fn prefix_items(acc: Seq<TItem>, o: (Result<Seq<TItem>, ErrorV>, ReaderState)) -> (Result<Seq<TItem>, ErrorV>, ReaderState) {
    match o.0 {
        Ok(items) => (Ok(acc + items), o.1),
        Err(e) => (Err(e), o.1),
    }
}

/// Where a template ends: at the end of the text when unquoted, before a
/// `"` when quoted.
pub open spec fn template_stops(text: Seq<char>, st: ReaderState, quoted: bool) -> bool {
    if quoted {
        st.cursor < text.len() && text[st.cursor as int] == '"'
    } else {
        st.cursor >= text.len()
    }
}

/// One unit read at `st`, which is neither at the end of the text nor where
/// the template stops.
pub open spec fn spec_item(text: Seq<char>, st: ReaderState, quoted: bool) -> (Result<TItem, ErrorV>, ReaderState) {
    let c = text[st.cursor as int];
    if c == '{' && st.cursor + 1 < text.len() && text[st.cursor + 1] == '{' {
        let (r, st1) = spec_placeholder(text, st);
        match r {
            Err(e) => (Err(e), st1),
            Ok(x) => (Ok(TItem::Placeholder(x)), st1),
        }
    } else if quoted && c == '\\' {
        if st.cursor + 1 >= text.len() {
            (Err(error_at(st.pos, false, ParseErrorV::Escape)), st)
        } else {
            let e = text[st.cursor + 1];
            if e == 'u' {
                let (r, st1) = spec_unicode_escape(text, st);
                match r {
                    Err(er) => (Err(er), st1),
                    Ok(v) => (Ok(TItem::Char { value: v, encoded: read_between(text, st, st1) }), st1),
                }
            } else {
                match escaped_char(e) {
                    None => (Err(error_at(st.pos, false, ParseErrorV::Escape)), st),
                    Some(v) => (Ok(TItem::Char { value: v, encoded: seq![c, e] }), skip_n(text, st, 2)),
                }
            }
        }
    } else {
        (Ok(TItem::Char { value: c, encoded: seq![c] }), skip_n(text, st, 1))
    }
}

pub proof fn lemma_item_progress(text: Seq<char>, st: ReaderState, quoted: bool)
    requires
        st.cursor < text.len() <= usize::MAX,
    ensures
        spec_item(text, st, quoted).1.cursor <= text.len(),
        spec_item(text, st, quoted).0 is Ok ==> spec_item(text, st, quoted).1.cursor > st.cursor,
{
    let c = text[st.cursor as int];
    if c == '{' && st.cursor + 1 < text.len() && text[st.cursor + 1] == '{' {
        lemma_placeholder_progress(text, st);
    } else if quoted && c == '\\' && st.cursor + 1 < text.len() && text[st.cursor + 1] == 'u' {
        lemma_unicode_escape_progress(text, st);
    }
}

/// The units of a template read from `st`. A quoted template stops before
/// its closing `"`, and fails when the text ends first; it reads `\`
/// escapes. An unquoted template reads to the end of the text. `{{` always
/// opens a placeholder.
pub open spec fn spec_template_items(text: Seq<char>, st: ReaderState, quoted: bool) -> (Result<Seq<TItem>, ErrorV>, ReaderState)
    decreases text.len() - st.cursor,
    when st.cursor <= text.len() <= usize::MAX
{
    if template_stops(text, st, quoted) {
        (Ok(Seq::empty()), st)
    } else if st.cursor >= text.len() {
        (Err(expecting(st.pos, false, "\""@)), st)
    } else {
        let (r, st1) = spec_item(text, st, quoted);
        match r {
            Err(e) => (Err(e), st1),
            Ok(x) => {
                proof {
                    lemma_item_progress(text, st, quoted);
                }
                prepend_item(x, spec_template_items(text, st1, quoted))
            },
        }
    }
}

/// Template elements from units: consecutive characters make one text
/// element, and each placeholder is an element of its own.
pub open spec fn group(items: Seq<TItem>) -> Seq<TemplateElementV>
    decreases items.len(),
{
    if items.len() == 0 {
        Seq::empty()
    } else {
        let g = group(items.drop_last());
        match items.last() {
            TItem::Char { value, encoded } => {
                if g.len() > 0 && g.last() is Text {
                    g.update(
                        g.len() - 1,
                        TemplateElementV::Text { value: g.last()->value.push(value), encoded: g.last()->encoded + encoded },
                    )
                } else {
                    g.push(TemplateElementV::Text { value: seq![value], encoded })
                }
            },
            TItem::Placeholder(x) => g.push(TemplateElementV::Expression(x)),
        }
    }
}

pub open spec fn spec_template_elements(text: Seq<char>, st: ReaderState, quoted: bool) -> (Result<Seq<TemplateElementV>, ErrorV>, ReaderState) {
    let (r, st1) = spec_template_items(text, st, quoted);
    match r {
        Ok(items) => (Ok(group(items)), st1),
        Err(e) => (Err(e), st1),
    }
}

pub open spec fn elements_result_view(r: ParseResult<Vec<TemplateElement>>) -> Result<Seq<TemplateElementV>, ErrorV> {
    match r {
        Ok(v) => Ok(elements_view(v@)),
        Err(e) => Err(e@),
    }
}

/// The elements built so far and the pending text.
pub open spec fn built(elements: Seq<TemplateElement>, value: Seq<char>, encoded: Seq<char>) -> Seq<TemplateElementV> {
    if value.len() > 0 {
        elements_view(elements).push(TemplateElementV::Text { value, encoded })
    } else {
        elements_view(elements)
    }
}

pub open spec fn no_trailing_text(elements: Seq<TemplateElement>) -> bool {
    elements.len() == 0 || elements.last() is Expression
}

proof fn lemma_group_push(items: Seq<TItem>, x: TItem)
    ensures
        group(items.push(x)) == ({
            let g = group(items);
            match x {
                TItem::Char { value, encoded } => {
                    if g.len() > 0 && g.last() is Text {
                        g.update(
                            g.len() - 1,
                            TemplateElementV::Text { value: g.last()->value.push(value), encoded: g.last()->encoded + encoded },
                        )
                    } else {
                        g.push(TemplateElementV::Text { value: seq![value], encoded })
                    }
                },
                TItem::Placeholder(e) => g.push(TemplateElementV::Expression(e)),
            }
        }),
{
    assert(items.push(x).drop_last() =~= items);
}

/// A unit as read: a character with its source, or a placeholder.
pub enum Unit {
    Char { value: char, encoded: Vec<char> },
    Placeholder(Expr),
}

impl View for Unit {
    type V = TItem;

    open spec fn view(&self) -> TItem {
        match self {
            Unit::Char { value, encoded } => TItem::Char { value: *value, encoded: encoded@ },
            Unit::Placeholder(x) => TItem::Placeholder(x@),
        }
    }
}

fn read_item(reader: &mut Reader, quoted: bool) -> (res: ParseResult<Unit>)
    requires
        old(reader).wf(),
        old(reader).state.cursor < old(reader).text().len(),
        !template_stops(old(reader).text(), old(reader).state, quoted),
    ensures
        final(reader).wf(),
        final(reader).text() == old(reader).text(),
        advanced(old(reader).text(), old(reader).state, final(reader).state),
        (result_view(res), final(reader).state) == spec_item(old(reader).text(), old(reader).state, quoted),
{
    let ghost text = reader.text();
    let cur = reader.state;
    let c = reader.peek().unwrap();
    let second = reader.peek_second();
    let opens = c == '{' && match second {
        Some(d) => d == '{',
        None => false,
    };
    if opens {
        let r = placeholder(reader);
        match r {
            Err(e) => Err(e),
            Ok(x) => Ok(Unit::Placeholder(x)),
        }
    } else if quoted && c == '\\' {
        proof {
            lemma_advanced_refl(text, cur);
        }
        let e = match second {
            None => {
                return Err(Error::new(cur.pos, false, ParseError::Escape));
            },
            Some(e) => e,
        };
        if e == 'u' {
            let r = unicode_escape(reader);
            let v = match r {
                Err(er) => {
                    return Err(er);
                },
                Ok(v) => v,
            };
            proof {
                lemma_unicode_escape_progress(text, cur);
            }
            let encoded = reader.chars_between(cur.cursor, reader.state.cursor);
            return Ok(Unit::Char { value: v, encoded });
        }
        let v = match escape_value(e) {
            None => {
                return Err(Error::new(cur.pos, false, ParseError::Escape));
            },
            Some(v) => v,
        };
        reader.read();
        let ghost mid = reader.state;
        reader.read();
        proof {
            lemma_advanced_trans(text, cur, mid, reader.state);
        }
        let mut encoded: Vec<char> = Vec::new();
        encoded.push(c);
        encoded.push(e);
        proof {
            assert(encoded@ =~= seq![c, e]);
        }
        Ok(Unit::Char { value: v, encoded })
    } else {
        reader.read();
        let mut encoded: Vec<char> = Vec::new();
        encoded.push(c);
        proof {
            assert(encoded@ =~= seq![c]);
        }
        Ok(Unit::Char { value: c, encoded })
    }
}

/// Adds the pending text, if any, as a text element.
fn flush_text(elements: &mut Vec<TemplateElement>, value: &Vec<char>, encoded: &Vec<char>)
    ensures
        elements_view(final(elements)@) == built(old(elements)@, value@, encoded@),
        value@.len() > 0 ==> final(elements)@.last() is String,
        value@.len() == 0 ==> final(elements)@ == old(elements)@,
{
    if value.len() > 0 {
        let v = string_of(value.as_slice());
        let en = string_of(encoded.as_slice());
        let ghost before = elements@;
        elements.push(TemplateElement::String { value: v, encoded: en });
        proof {
            assert(elements_view(elements@) =~= elements_view(before).push(TemplateElementV::Text { value: value@, encoded: encoded@ }));
        }
    }
}

proof fn lemma_built_char(acc: Seq<TItem>, els: Seq<TemplateElement>, value: Seq<char>, encoded: Seq<char>, v: char, e: Seq<char>)
    requires
        group(acc) == built(els, value, encoded),
        no_trailing_text(els),
        value.len() == 0 ==> encoded.len() == 0,
    ensures
        group(acc.push(TItem::Char { value: v, encoded: e })) == built(els, value.push(v), encoded + e),
{
    lemma_group_push(acc, TItem::Char { value: v, encoded: e });
    let g = group(acc);
    if value.len() > 0 {
        assert(g.last() is Text);
        assert(g.update(g.len() - 1, TemplateElementV::Text { value: value.push(v), encoded: encoded + e })
            =~= elements_view(els).push(TemplateElementV::Text { value: value.push(v), encoded: encoded + e }));
    } else {
        if els.len() > 0 {
            assert(g.last() == els.last()@);
        }
        assert(seq![v] =~= value.push(v));
        assert(e =~= encoded + e);
    }
}

/// Reads the elements of a template (see `spec_template_items`).
pub fn template_elements(reader: &mut Reader, quoted: bool) -> (res: ParseResult<Vec<TemplateElement>>)
    requires
        old(reader).wf(),
    ensures
        final(reader).wf(),
        final(reader).text() == old(reader).text(),
        advanced(old(reader).text(), old(reader).state, final(reader).state),
        (elements_result_view(res), final(reader).state) == spec_template_elements(old(reader).text(), old(reader).state, quoted),
{
    let ghost text = reader.text();
    let ghost start = reader.state;
    let mut elements: Vec<TemplateElement> = Vec::new();
    let mut value: Vec<char> = Vec::new();
    let mut encoded: Vec<char> = Vec::new();
    let ghost mut acc: Seq<TItem> = Seq::empty();
    proof {
        lemma_advanced_refl(text, start);
        let o = spec_template_items(text, start, quoted);
        match o.0 {
            Ok(items) => { assert(acc + items =~= items); },
            Err(e) => {},
        }
        assert(elements_view(elements@) =~= Seq::<TemplateElementV>::empty());
    }
    loop
        invariant
            reader.wf(),
            reader.text() == text,
            text == old(reader).text(),
            start == old(reader).state,
            advanced(text, start, reader.state),
            spec_template_items(text, start, quoted) == prefix_items(acc, spec_template_items(text, reader.state, quoted)),
            group(acc) == built(elements@, value@, encoded@),
            no_trailing_text(elements@),
            value@.len() == 0 ==> encoded@.len() == 0,
        ensures
            reader.wf(),
            reader.text() == text,
            advanced(text, start, reader.state),
            spec_template_items(text, start, quoted) == (Ok::<Seq<TItem>, ErrorV>(acc), reader.state),
            group(acc) == built(elements@, value@, encoded@),
        decreases text.len() - reader.state.cursor,
    {
        let ghost cur = reader.state;
        let stops = if quoted {
            match reader.peek() {
                Some(c) => c == '"',
                None => false,
            }
        } else {
            reader.is_eof()
        };
        if stops {
            proof {
                assert(acc + Seq::<TItem>::empty() =~= acc);
            }
            break;
        }
        if reader.is_eof() {
            return Err(expecting_error(reader.state.pos, false, "\""));
        }
        let r = read_item(reader, quoted);
        proof {
            lemma_advanced_trans(text, start, cur, reader.state);
        }
        let unit = match r {
            Err(e) => {
                return Err(e);
            },
            Ok(u) => u,
        };
        proof {
            lemma_item_progress(text, cur, quoted);
            let item = unit@;
            match spec_template_items(text, reader.state, quoted).0 {
                Ok(items) => { assert(acc + (seq![item] + items) =~= acc.push(item) + items); },
                Err(er) => {},
            }
        }
        match unit {
            Unit::Char { value: v, encoded: e } => {
                proof {
                    lemma_built_char(acc, elements@, value@, encoded@, v, e@);
                    acc = acc.push(TItem::Char { value: v, encoded: e@ });
                }
                value.push(v);
                let mut e = e;
                encoded.append(&mut e);
            },
            Unit::Placeholder(x) => {
                proof {
                    lemma_group_push(acc, TItem::Placeholder(x@));
                }
                flush_text(&mut elements, &value, &encoded);
                let ghost flushed = elements@;
                elements.push(TemplateElement::Expression(x));
                proof {
                    assert(elements_view(elements@) =~= elements_view(flushed).push(TemplateElementV::Expression(x@)));
                    acc = acc.push(TItem::Placeholder(x@));
                }
                value = Vec::new();
                encoded = Vec::new();
            },
        }
    }
    flush_text(&mut elements, &value, &encoded);
    Ok(elements)
}

/// A double-quoted template: a recoverable failure without an opening
/// quote; then its elements and the closing quote. Its span covers both
/// quotes.
pub open spec fn spec_quoted_template(text: Seq<char>, st: ReaderState) -> (Result<TemplateV, ErrorV>, ReaderState) {
    let (r1, st1) = spec_literal(text, st, "\""@, true);
    match r1 {
        Err(e) => (Err(e), st1),
        Ok(_) => {
            let (r2, st2) = spec_template_elements(text, st1, true);
            match r2 {
                Err(e) => (Err(e), st2),
                Ok(els) => {
                    let (r3, st3) = spec_literal(text, st2, "\""@, false);
                    match r3 {
                        Err(e) => (Err(e), st3),
                        Ok(_) => (
                            Ok(TemplateV { delimiter: Some('"'), elements: els, source_info: SourceInfo { start: st.pos, end: st3.pos } }),
                            st3,
                        ),
                    }
                },
            }
        },
    }
}

pub fn quoted_template(reader: &mut Reader) -> (res: ParseResult<Template>)
    requires
        old(reader).wf(),
    ensures
        final(reader).wf(),
        final(reader).text() == old(reader).text(),
        advanced(old(reader).text(), old(reader).state, final(reader).state),
        (result_view(res), final(reader).state) == spec_quoted_template(old(reader).text(), old(reader).state),
{
    let ghost text = reader.text();
    let start = reader.state;
    try_literal("\"", reader)?;
    let ghost st1 = reader.state;
    let r2 = template_elements(reader, true);
    proof {
        lemma_advanced_trans(text, start, st1, reader.state);
    }
    let elements = match r2 {
        Err(e) => {
            return Err(e);
        },
        Ok(els) => els,
    };
    let ghost st2 = reader.state;
    let r3 = literal("\"", reader);
    proof {
        lemma_advanced_trans(text, start, st2, reader.state);
    }
    match r3 {
        Err(e) => Err(e),
        Ok(_) => Ok(Template { delimiter: Some('"'), elements, source_info: SourceInfo::new(start.pos, reader.state.pos) }),
    }
}

/// The rest of the text from `st`, read as a template without quotes.
pub open spec fn spec_unquoted_template(text: Seq<char>, st: ReaderState) -> (Result<TemplateV, ErrorV>, ReaderState) {
    let (r, st1) = spec_template_elements(text, st, false);
    match r {
        Err(e) => (Err(e), st1),
        Ok(els) => (Ok(TemplateV { delimiter: None, elements: els, source_info: SourceInfo { start: st.pos, end: st1.pos } }), st1),
    }
}

pub fn unquoted_template(reader: &mut Reader) -> (res: ParseResult<Template>)
    requires
        old(reader).wf(),
    ensures
        final(reader).wf(),
        final(reader).text() == old(reader).text(),
        advanced(old(reader).text(), old(reader).state, final(reader).state),
        (result_view(res), final(reader).state) == spec_unquoted_template(old(reader).text(), old(reader).state),
{
    let start = reader.state;
    let r = template_elements(reader, false);
    match r {
        Err(e) => Err(e),
        Ok(elements) => Ok(Template { delimiter: None, elements, source_info: SourceInfo::new(start.pos, reader.state.pos) }),
    }
}

/// The source text of the character units, in order.
pub open spec fn joined_encoded(items: Seq<TItem>) -> Seq<char>
    decreases items.len(),
{
    if items.len() == 0 {
        Seq::empty()
    } else {
        let head = match items[0] {
            TItem::Char { encoded, .. } => encoded,
            TItem::Placeholder(_) => Seq::empty(),
        };
        head + joined_encoded(items.drop_first())
    }
}

/// The `encoded` texts of the text elements, in order.
pub open spec fn elements_encoded(els: Seq<TemplateElementV>) -> Seq<char>
    decreases els.len(),
{
    if els.len() == 0 {
        Seq::empty()
    } else {
        let tail = match els.last() {
            TemplateElementV::Text { encoded, .. } => encoded,
            TemplateElementV::Expression(_) => Seq::empty(),
        };
        elements_encoded(els.drop_last()) + tail
    }
}

pub open spec fn has_no_placeholder(items: Seq<TItem>) -> bool {
    forall|i: int| 0 <= i < items.len() ==> items[i] is Char
}

pub open spec fn has_no_expression(els: Seq<TemplateElementV>) -> bool {
    forall|i: int| 0 <= i < els.len() ==> els[i] is Text
}

proof fn lemma_joined_push(items: Seq<TItem>, x: TItem)
    ensures
        joined_encoded(items.push(x)) == joined_encoded(items) + match x {
            TItem::Char { encoded, .. } => encoded,
            TItem::Placeholder(_) => Seq::<char>::empty(),
        },
    decreases items.len(),
{
    let tail = match x {
        TItem::Char { encoded, .. } => encoded,
        TItem::Placeholder(_) => Seq::<char>::empty(),
    };
    if items.len() == 0 {
        assert(items.push(x).drop_first() =~= Seq::<TItem>::empty());
        assert(items.push(x)[0] == x);
        assert(joined_encoded(Seq::<TItem>::empty()) == Seq::<char>::empty());
        assert(tail + Seq::<char>::empty() =~= tail);
        assert(Seq::<char>::empty() + tail =~= tail);
    } else {
        lemma_joined_push(items.drop_first(), x);
        assert(items.push(x).drop_first() =~= items.drop_first().push(x));
        let head = match items[0] {
            TItem::Char { encoded, .. } => encoded,
            TItem::Placeholder(_) => Seq::<char>::empty(),
        };
        assert(head + (joined_encoded(items.drop_first()) + tail) =~= (head + joined_encoded(items.drop_first())) + tail);
    }
}

/// Grouping keeps the source texts: the text elements' `encoded`, joined,
/// are the character units' sources, joined.
proof fn lemma_group_encoded(items: Seq<TItem>)
    ensures
        elements_encoded(group(items)) == joined_encoded(items),
        has_no_placeholder(items) ==> has_no_expression(group(items)),
        has_no_expression(group(items)) ==> has_no_placeholder(items),
    decreases items.len(),
{
    if items.len() == 0 {
    } else {
        let init = items.drop_last();
        let x = items.last();
        lemma_group_encoded(init);
        lemma_group_push(init, x);
        assert(init.push(x) =~= items);
        lemma_joined_push(init, x);
        let g = group(init);
        match x {
            TItem::Char { value, encoded } => {
                if g.len() > 0 && g.last() is Text {
                    let ng = g.update(
                        g.len() - 1,
                        TemplateElementV::Text { value: g.last()->value.push(value), encoded: g.last()->encoded + encoded },
                    );
                    assert(ng.drop_last() =~= g.drop_last());
                    assert(elements_encoded(g) == elements_encoded(g.drop_last()) + g.last()->encoded);
                    assert(elements_encoded(g.drop_last()) + (g.last()->encoded + encoded) =~= (elements_encoded(g.drop_last())
                        + g.last()->encoded) + encoded);
                    if has_no_placeholder(items) {
                        assert forall|i: int| 0 <= i < init.len() implies init[i] is Char by {
                            assert(init[i] == items[i]);
                        }
                        assert forall|i: int| 0 <= i < ng.len() implies ng[i] is Text by {
                            if i < ng.len() - 1 {
                                assert(ng[i] == g[i]);
                            }
                        }
                    }
                    if has_no_expression(ng) {
                        assert forall|i: int| 0 <= i < g.len() implies g[i] is Text by {
                            if i < g.len() - 1 {
                                assert(ng[i] == g[i]);
                            }
                        }
                        assert forall|i: int| 0 <= i < items.len() implies items[i] is Char by {
                            if i < init.len() {
                                assert(items[i] == init[i]);
                            }
                        }
                    }
                } else {
                    let ng = g.push(TemplateElementV::Text { value: seq![value], encoded });
                    assert(ng.drop_last() =~= g);
                    if has_no_placeholder(items) {
                        assert forall|i: int| 0 <= i < init.len() implies init[i] is Char by {
                            assert(init[i] == items[i]);
                        }
                        assert forall|i: int| 0 <= i < ng.len() implies ng[i] is Text by {
                            if i < g.len() {
                                assert(ng[i] == g[i]);
                            }
                        }
                    }
                    if has_no_expression(ng) {
                        assert forall|i: int| 0 <= i < g.len() implies g[i] is Text by {
                            assert(ng[i] == g[i]);
                        }
                        assert forall|i: int| 0 <= i < items.len() implies items[i] is Char by {
                            if i < init.len() {
                                assert(items[i] == init[i]);
                            }
                        }
                    }
                }
            },
            TItem::Placeholder(e) => {
                let ng = g.push(TemplateElementV::Expression(e));
                assert(ng.drop_last() =~= g);
                assert(elements_encoded(g) + Seq::<char>::empty() =~= elements_encoded(g));
                assert(!has_no_placeholder(items)) by {
                    assert(!(items[items.len() - 1] is Char));
                }
                assert(!has_no_expression(ng)) by {
                    assert(!(ng[ng.len() - 1] is Text));
                }
            },
        }
    }
}

/// The units read without placeholders have as sources, joined, the text
/// that was read.
proof fn lemma_items_source(text: Seq<char>, st: ReaderState, quoted: bool)
    requires
        st.cursor <= text.len() <= usize::MAX,
    ensures
        spec_template_items(text, st, quoted).0 matches Ok(items) ==> {
            &&& spec_template_items(text, st, quoted).1.cursor <= text.len()
            &&& st.cursor <= spec_template_items(text, st, quoted).1.cursor
            &&& (has_no_placeholder(items) ==> joined_encoded(items) == read_between(
                text,
                st,
                spec_template_items(text, st, quoted).1,
            ))
        },
    decreases text.len() - st.cursor,
{
    if template_stops(text, st, quoted) {
        assert(read_between(text, st, st) =~= Seq::<char>::empty());
    } else if st.cursor >= text.len() {
    } else {
        let (r, st1) = spec_item(text, st, quoted);
        lemma_item_progress(text, st, quoted);
        match r {
            Err(e) => {},
            Ok(x) => {
                lemma_items_source(text, st1, quoted);
                let (rest, st2) = spec_template_items(text, st1, quoted);
                match rest {
                    Err(e) => {},
                    Ok(items) => {
                        let all = seq![x] + items;
                        assert(all.drop_first() =~= items);
                        assert(all[0] == x);
                        if has_no_placeholder(all) {
                            assert forall|i: int| 0 <= i < items.len() implies items[i] is Char by {
                                assert(items[i] == all[i + 1]);
                            }
                            assert(x is Char);
                            let c = text[st.cursor as int];
                            let enc = match x {
                                TItem::Char { encoded, .. } => encoded,
                                TItem::Placeholder(_) => Seq::<char>::empty(),
                            };
                            if c == '{' && st.cursor + 1 < text.len() && text[st.cursor + 1] == '{' {
                            } else if quoted && c == '\\' {
                                if text[st.cursor + 1] == 'u' {
                                } else {
                                    assert(enc =~= read_between(text, st, st1));
                                }
                            } else {
                                assert(enc =~= read_between(text, st, st1));
                            }
                            assert(enc == read_between(text, st, st1));
                            assert(read_between(text, st, st2) =~= read_between(text, st, st1) + read_between(text, st1, st2));
                        }
                    },
                }
            },
        }
    }
}

/// A quoted template without placeholders keeps its source: the `encoded`
/// texts of its elements, joined, are exactly the text between its quotes.
pub proof fn lemma_quoted_template_source(text: Seq<char>, st: ReaderState)
    requires
        st.cursor <= text.len() <= usize::MAX,
    ensures
        spec_quoted_template(text, st).0 matches Ok(t) ==> (has_no_expression(t.elements) ==> elements_encoded(
            t.elements,
        ) == text.subrange(st.cursor + 1, spec_quoted_template(text, st).1.cursor - 1)),
{
    reveal_strlit("\"");
    let (r1, st1) = spec_literal(text, st, "\""@, true);
    if r1 is Ok {
        lemma_items_source(text, st1, true);
        let (ri, st2) = spec_template_items(text, st1, true);
        match ri {
            Ok(items) => {
                lemma_group_encoded(items);
            },
            Err(_) => {},
        }
    }
}

} // verus!
