use vstd::prelude::*;
use crate::ast::{Whitespace, WhitespaceV};
use crate::chars::{CharClass, lemma_span_len_bound};
use crate::error::{Error, ErrorV, ParseError, ParseErrorV, ParseResult, error_at, expecting, expecting_error, result_view};
use crate::reader::{Reader, ReaderState, SourceInfo, advance_while, advanced, chars_of, lemma_advanced_refl, lemma_advanced_trans, read_between, skip_n, state_ok, string_of};

verus! {

/// `text` holds `s` from index `i` on.
pub open spec fn starts_with_at(text: Seq<char>, i: int, s: Seq<char>) -> bool {
    i + s.len() <= text.len() && text.subrange(i, i + s.len()) == s
}

/// Reading the exact text `s`: on a mismatch nothing is read, and the
/// failure is at the current position.
pub open spec fn spec_literal(text: Seq<char>, st: ReaderState, s: Seq<char>, recoverable: bool) -> (Result<(), ErrorV>, ReaderState) {
    if starts_with_at(text, st.cursor as int, s) {
        (Ok(()), skip_n(text, st, s.len()))
    } else {
        (Err(expecting(st.pos, recoverable, s)), st)
    }
}

fn literal_impl(s: &str, reader: &mut Reader, recoverable: bool) -> (res: ParseResult<()>)
    requires
        old(reader).wf(),
    ensures
        final(reader).wf(),
        final(reader).text() == old(reader).text(),
        advanced(old(reader).text(), old(reader).state, final(reader).state),
        (result_view(res), final(reader).state) == spec_literal(old(reader).text(), old(reader).state, s@, recoverable),
{
    let ghost text = reader.text();
    let chars = chars_of(s);
    let start = reader.state;
    let mut i: usize = 0;
    proof {
        lemma_advanced_refl(text, start);
        assert(text.subrange(start.cursor as int, start.cursor as int) =~= chars@.take(0));
    }
    while i < chars.len()
        invariant
            reader.wf(),
            reader.text() == text,
            text == old(reader).text(),
            start == old(reader).state,
            state_ok(text, start),
            chars@ == s@,
            i <= chars.len(),
            start.cursor + i <= text.len(),
            advanced(text, start, reader.state),
            reader.state.cursor == start.cursor + i,
            text.subrange(start.cursor as int, start.cursor + i) == chars@.take(i as int),
        decreases chars.len() - i,
    {
        let ghost before = reader.state;
        let expected = chars[i];
        let c = reader.read();
        proof {
            lemma_advanced_trans(text, start, before, reader.state);
        }
        let matched = match c {
            Some(x) => x == expected,
            None => false,
        };
        if !matched {
            reader.seek(start);
            proof {
                lemma_advanced_refl(text, start);
            }
            assert(!starts_with_at(text, start.cursor as int, s@)) by {
                if starts_with_at(text, start.cursor as int, s@) {
                    assert(text.subrange(start.cursor as int, start.cursor + s@.len())[i as int]
                        == text[start.cursor + i]);
                }
            }
            return Err(expecting_error(start.pos, recoverable, s));
        }
        proof {
            assert(text.subrange(start.cursor as int, start.cursor + i + 1) =~= chars@.take(i + 1));
        }
        i = i + 1;
    }
    proof {
        assert(chars@.take(i as int) =~= s@);
    }
    Ok(())
}

/// Reads the exact text `s`; on a mismatch, fails without recovery.
pub fn literal(s: &str, reader: &mut Reader) -> (res: ParseResult<()>)
    requires
        old(reader).wf(),
    ensures
        final(reader).wf(),
        final(reader).text() == old(reader).text(),
        advanced(old(reader).text(), old(reader).state, final(reader).state),
        (result_view(res), final(reader).state) == spec_literal(old(reader).text(), old(reader).state, s@, false),
{
    literal_impl(s, reader, false)
}

/// Reads the exact text `s`; on a mismatch, fails recoverably.
pub fn try_literal(s: &str, reader: &mut Reader) -> (res: ParseResult<()>)
    requires
        old(reader).wf(),
    ensures
        final(reader).wf(),
        final(reader).text() == old(reader).text(),
        advanced(old(reader).text(), old(reader).state, final(reader).state),
        (result_view(res), final(reader).state) == spec_literal(old(reader).text(), old(reader).state, s@, true),
{
    literal_impl(s, reader, true)
}

/// The run of spaces and tabs at `st`, and the state after it.
pub open spec fn spec_blanks(text: Seq<char>, st: ReaderState) -> (WhitespaceV, ReaderState) {
    let st1 = advance_while(text, st, CharClass::Blank);
    (WhitespaceV { value: read_between(text, st, st1), source_info: SourceInfo { start: st.pos, end: st1.pos } }, st1)
}

/// At least one space or tab; with none, a recoverable `Space` failure.
pub open spec fn spec_one_or_more_spaces(text: Seq<char>, st: ReaderState) -> (Result<WhitespaceV, ErrorV>, ReaderState) {
    let (ws, st1) = spec_blanks(text, st);
    if st1.cursor == st.cursor {
        (Err(error_at(st.pos, true, ParseErrorV::Space)), st)
    } else {
        (Ok(ws), st1)
    }
}

fn blanks(reader: &mut Reader) -> (ws: Whitespace)
    requires
        old(reader).wf(),
    ensures
        final(reader).wf(),
        final(reader).text() == old(reader).text(),
        advanced(old(reader).text(), old(reader).state, final(reader).state),
        (ws@, final(reader).state) == spec_blanks(old(reader).text(), old(reader).state),
{
    let start = reader.state;
    let v = reader.read_while(CharClass::Blank);
    Whitespace { value: string_of(v.as_slice()), source_info: SourceInfo::new(start.pos, reader.state.pos) }
}

pub fn one_or_more_spaces(reader: &mut Reader) -> (res: ParseResult<Whitespace>)
    requires
        old(reader).wf(),
    ensures
        final(reader).wf(),
        final(reader).text() == old(reader).text(),
        advanced(old(reader).text(), old(reader).state, final(reader).state),
        (result_view(res), final(reader).state) == spec_one_or_more_spaces(old(reader).text(), old(reader).state),
{
    let start = reader.state;
    let ws = blanks(reader);
    if reader.state.cursor == start.cursor {
        reader.seek(start);
        proof {
            lemma_advanced_refl(reader.text(), start);
        }
        return Err(Error::new(start.pos, true, ParseError::Space));
    }
    Ok(ws)
}

/// Any run of spaces and tabs, possibly empty.
pub fn zero_or_more_spaces(reader: &mut Reader) -> (ws: Whitespace)
    requires
        old(reader).wf(),
    ensures
        final(reader).wf(),
        final(reader).text() == old(reader).text(),
        advanced(old(reader).text(), old(reader).state, final(reader).state),
        (ws@, final(reader).state) == spec_blanks(old(reader).text(), old(reader).state),
{
    blanks(reader)
}

/// A double-quoted string on one line, taken as it is written.
pub open spec fn spec_quoted_oneline_string(text: Seq<char>, st: ReaderState) -> (Result<Seq<char>, ErrorV>, ReaderState) {
    let (r1, st1) = spec_literal(text, st, "\""@, false);
    match r1 {
        Err(e) => (Err(e), st1),
        Ok(_) => {
            let st2 = advance_while(text, st1, CharClass::NotQuoteOrNewline);
            let (r3, st3) = spec_literal(text, st2, "\""@, false);
            match r3 {
                Err(e) => (Err(e), st3),
                Ok(_) => (Ok(read_between(text, st1, st2)), st3),
            }
        },
    }
}

pub fn quoted_oneline_string(reader: &mut Reader) -> (res: ParseResult<String>)
    requires
        old(reader).wf(),
    ensures
        final(reader).wf(),
        final(reader).text() == old(reader).text(),
        advanced(old(reader).text(), old(reader).state, final(reader).state),
        (result_view(res), final(reader).state) == spec_quoted_oneline_string(old(reader).text(), old(reader).state),
{
    let ghost text = reader.text();
    let ghost st0 = reader.state;
    literal("\"", reader)?;
    let ghost st1 = reader.state;
    let v = reader.read_while(CharClass::NotQuoteOrNewline);
    let ghost st2 = reader.state;
    proof {
        lemma_advanced_trans(text, st0, st1, st2);
    }
    let r = literal("\"", reader);
    proof {
        lemma_advanced_trans(text, st0, st2, reader.state);
    }
    match r {
        Err(e) => Err(e),
        Ok(_) => Ok(string_of(v.as_slice())),
    }
}

/// A quoted one-line string reads its two quotes and its content.
pub proof fn lemma_quoted_oneline_consumes(text: Seq<char>, st: ReaderState)
    requires
        state_ok(text, st),
    ensures
        spec_quoted_oneline_string(text, st).0 matches Ok(q) ==> {
            &&& spec_quoted_oneline_string(text, st).1.cursor == st.cursor + q.len() + 2
            &&& spec_quoted_oneline_string(text, st).1.cursor <= text.len()
        },
{
    reveal_strlit("\"");
    let st1 = skip_n(text, st, 1);
    if starts_with_at(text, st.cursor as int, "\""@) {
        lemma_span_len_bound(text, st1.cursor as int, CharClass::NotQuoteOrNewline);
    }
}

} // verus!
