use vstd::prelude::*;
use crate::ast::{Filter, FilterValue, Whitespace, WhitespaceV};
use crate::combinators::{Outcome, keyword, or_else};
use crate::error::{ErrorV, ParseResult, expecting, expecting_error, result_view};
use crate::primitives::{one_or_more_spaces, spec_one_or_more_spaces, try_literal};
use crate::reader::{Reader, ReaderState, SourceInfo, advanced, lemma_advanced_refl, lemma_advanced_trans};
use crate::chars::{CharClass, lemma_span_len_bound};

verus! {

/// The filter named at `st`, tried in a fixed order.
pub open spec fn spec_filter_value(text: Seq<char>, st: ReaderState) -> Outcome<FilterValue> {
    or_else(keyword(text, st, "base64Decode"@, FilterValue::Base64Decode),
    or_else(keyword(text, st, "base64Encode"@, FilterValue::Base64Encode),
    or_else(keyword(text, st, "count"@, FilterValue::Count),
    or_else(keyword(text, st, "daysAfterNow"@, FilterValue::DaysAfterNow),
    or_else(keyword(text, st, "daysBeforeNow"@, FilterValue::DaysBeforeNow),
    or_else(keyword(text, st, "htmlEscape"@, FilterValue::HtmlEscape),
    or_else(keyword(text, st, "htmlUnescape"@, FilterValue::HtmlUnescape),
    or_else(keyword(text, st, "location"@, FilterValue::Location),
    or_else(keyword(text, st, "toFloat"@, FilterValue::ToFloat),
    or_else(keyword(text, st, "toHex"@, FilterValue::ToHex),
    or_else(keyword(text, st, "toInt"@, FilterValue::ToInt),
    or_else(keyword(text, st, "urlDecode"@, FilterValue::UrlDecode),
    or_else(keyword(text, st, "urlEncode"@, FilterValue::UrlEncode),
    or_else(keyword(text, st, "utf8Decode"@, FilterValue::Utf8Decode),
    keyword(text, st, "utf8Encode"@, FilterValue::Utf8Encode)))))))))))))))
}

fn filter_value(reader: &mut Reader) -> (res: ParseResult<FilterValue>)
    requires
        old(reader).wf(),
    ensures
        final(reader).wf(),
        final(reader).text() == old(reader).text(),
        advanced(old(reader).text(), old(reader).state, final(reader).state),
        (result_view(res), final(reader).state) == spec_filter_value(old(reader).text(), old(reader).state),
{
    if try_literal("base64Decode", reader).is_ok() {
        return Ok(FilterValue::Base64Decode);
    }
    if try_literal("base64Encode", reader).is_ok() {
        return Ok(FilterValue::Base64Encode);
    }
    if try_literal("count", reader).is_ok() {
        return Ok(FilterValue::Count);
    }
    if try_literal("daysAfterNow", reader).is_ok() {
        return Ok(FilterValue::DaysAfterNow);
    }
    if try_literal("daysBeforeNow", reader).is_ok() {
        return Ok(FilterValue::DaysBeforeNow);
    }
    if try_literal("htmlEscape", reader).is_ok() {
        return Ok(FilterValue::HtmlEscape);
    }
    if try_literal("htmlUnescape", reader).is_ok() {
        return Ok(FilterValue::HtmlUnescape);
    }
    if try_literal("location", reader).is_ok() {
        return Ok(FilterValue::Location);
    }
    if try_literal("toFloat", reader).is_ok() {
        return Ok(FilterValue::ToFloat);
    }
    if try_literal("toHex", reader).is_ok() {
        return Ok(FilterValue::ToHex);
    }
    if try_literal("toInt", reader).is_ok() {
        return Ok(FilterValue::ToInt);
    }
    if try_literal("urlDecode", reader).is_ok() {
        return Ok(FilterValue::UrlDecode);
    }
    if try_literal("urlEncode", reader).is_ok() {
        return Ok(FilterValue::UrlEncode);
    }
    if try_literal("utf8Decode", reader).is_ok() {
        return Ok(FilterValue::Utf8Decode);
    }
    match try_literal("utf8Encode", reader) {
        Ok(_) => Ok(FilterValue::Utf8Encode),
        Err(e) => Err(e),
    }
}

/// A filter: its name, spanning what was read. A recoverable failure says
/// that a filter was expected.
pub open spec fn spec_filter(text: Seq<char>, st: ReaderState) -> Outcome<Filter> {
    let (r, st1) = spec_filter_value(text, st);
    match r {
        Ok(v) => (Ok(Filter { source_info: SourceInfo { start: st.pos, end: st1.pos }, value: v }), st1),
        Err(e) => if e.recoverable {
            (Err(expecting(e.pos, true, "filter"@)), st1)
        } else {
            (Err(e), st1)
        },
    }
}

pub fn filter(reader: &mut Reader) -> (res: ParseResult<Filter>)
    requires
        old(reader).wf(),
    ensures
        final(reader).wf(),
        final(reader).text() == old(reader).text(),
        advanced(old(reader).text(), old(reader).state, final(reader).state),
        (result_view(res), final(reader).state) == spec_filter(old(reader).text(), old(reader).state),
{
    let start = reader.state;
    match filter_value(reader) {
        Ok(value) => Ok(Filter { source_info: SourceInfo::new(start.pos, reader.state.pos), value }),
        Err(e) => {
            if e.recoverable {
                Err(expecting_error(e.pos, true, "filter"))
            } else {
                Err(e)
            }
        },
    }
}

/// Blanks followed by a filter.
pub open spec fn spec_space_filter(text: Seq<char>, st: ReaderState) -> Outcome<(WhitespaceV, Filter)> {
    let (r1, st1) = spec_one_or_more_spaces(text, st);
    match r1 {
        Err(e) => (Err(e), st1),
        Ok(ws) => {
            let (r2, st2) = spec_filter(text, st1);
            match r2 {
                Err(e) => (Err(e), st2),
                Ok(f) => (Ok((ws, f)), st2),
            }
        },
    }
}

pub proof fn lemma_space_filter_progress(text: Seq<char>, st: ReaderState)
    requires
        st.cursor < text.len() <= usize::MAX,
    ensures
        spec_space_filter(text, st).1.cursor <= text.len(),
        spec_space_filter(text, st).0 is Ok ==> spec_space_filter(text, st).1.cursor > st.cursor,
{
    lemma_span_len_bound(text, st.cursor as int, CharClass::Blank);
}

pub open spec fn prepend_filter(x: (WhitespaceV, Filter), o: Outcome<Seq<(WhitespaceV, Filter)>>) -> Outcome<Seq<(WhitespaceV, Filter)>> {
    match o.0 {
        Ok(v) => (Ok(seq![x] + v), o.1),
        Err(e) => (Err(e), o.1),
    }
}

pub open spec fn prefix_filters(acc: Seq<(WhitespaceV, Filter)>, o: Outcome<Seq<(WhitespaceV, Filter)>>) -> Outcome<Seq<(WhitespaceV, Filter)>> {
    match o.0 {
        Ok(v) => (Ok(acc + v), o.1),
        Err(e) => (Err(e), o.1),
    }
}

/// Zero or more `blanks filter` pairs; a recoverable failure ends the list
/// where that pair began.
pub open spec fn spec_filters(text: Seq<char>, st: ReaderState) -> Outcome<Seq<(WhitespaceV, Filter)>>
    decreases text.len() - st.cursor,
    when st.cursor <= text.len() <= usize::MAX
{
    if st.cursor >= text.len() {
        (Ok(Seq::empty()), st)
    } else {
        let (r, st1) = spec_space_filter(text, st);
        match r {
            Err(e) => if e.recoverable {
                (Ok(Seq::empty()), st)
            } else {
                (Err(e), st1)
            },
            Ok(x) => {
                proof {
                    lemma_space_filter_progress(text, st);
                }
                prepend_filter(x, spec_filters(text, st1))
            },
        }
    }
}

pub open spec fn filters_view(v: Seq<(Whitespace, Filter)>) -> Seq<(WhitespaceV, Filter)> {
    v.map_values(|x: (Whitespace, Filter)| (x.0@, x.1))
}

pub open spec fn filters_result_view(r: ParseResult<Vec<(Whitespace, Filter)>>) -> Result<Seq<(WhitespaceV, Filter)>, ErrorV> {
    match r {
        Ok(v) => Ok(filters_view(v@)),
        Err(e) => Err(e@),
    }
}

fn space_filter(reader: &mut Reader) -> (res: ParseResult<(Whitespace, Filter)>)
    requires
        old(reader).wf(),
    ensures
        final(reader).wf(),
        final(reader).text() == old(reader).text(),
        advanced(old(reader).text(), old(reader).state, final(reader).state),
        (res, final(reader).state) matches (r, s) && s == spec_space_filter(old(reader).text(), old(reader).state).1
            && match r {
                Ok(x) => spec_space_filter(old(reader).text(), old(reader).state).0 == Ok::<(WhitespaceV, Filter), ErrorV>((x.0@, x.1)),
                Err(e) => spec_space_filter(old(reader).text(), old(reader).state).0 == Err::<(WhitespaceV, Filter), ErrorV>(e@),
            },
{
    let ghost text = reader.text();
    let ghost st0 = reader.state;
    let space = one_or_more_spaces(reader)?;
    let ghost st1 = reader.state;
    let f = filter(reader);
    proof {
        lemma_advanced_trans(text, st0, st1, reader.state);
    }
    match f {
        Err(e) => Err(e),
        Ok(f) => Ok((space, f)),
    }
}

/// Reads the filters that follow a query.
pub fn filters(reader: &mut Reader) -> (res: ParseResult<Vec<(Whitespace, Filter)>>)
    requires
        old(reader).wf(),
    ensures
        final(reader).wf(),
        final(reader).text() == old(reader).text(),
        advanced(old(reader).text(), old(reader).state, final(reader).state),
        (filters_result_view(res), final(reader).state) == spec_filters(old(reader).text(), old(reader).state),
{
    let ghost text = reader.text();
    let ghost start = reader.state;
    let mut v: Vec<(Whitespace, Filter)> = Vec::new();
    proof {
        lemma_advanced_refl(text, start);
        match spec_filters(text, start).0 {
            Ok(items) => { assert(filters_view(v@) + items =~= items); },
            Err(e) => {},
        }
    }
    loop
        invariant
            reader.wf(),
            reader.text() == text,
            text == old(reader).text(),
            start == old(reader).state,
            advanced(text, start, reader.state),
            spec_filters(text, start) == prefix_filters(filters_view(v@), spec_filters(text, reader.state)),
        ensures
            reader.wf(),
            reader.text() == text,
            advanced(text, start, reader.state),
            spec_filters(text, start) == (Ok::<Seq<(WhitespaceV, Filter)>, ErrorV>(filters_view(v@)), reader.state),
        decreases text.len() - reader.state.cursor,
    {
        let cur = reader.state;
        if reader.is_eof() {
            proof {
                assert(filters_view(v@) + Seq::<(WhitespaceV, Filter)>::empty() =~= filters_view(v@));
            }
            break;
        }
        let r = space_filter(reader);
        proof {
            lemma_space_filter_progress(text, cur);
        }
        match r {
            Err(e) => {
                if e.recoverable {
                    reader.seek(cur);
                    proof {
                        assert(filters_view(v@) + Seq::<(WhitespaceV, Filter)>::empty() =~= filters_view(v@));
                    }
                    break;
                } else {
                    proof {
                        lemma_advanced_trans(text, start, cur, reader.state);
                    }
                    return Err(e);
                }
            },
            Ok(x) => {
                proof {
                    lemma_advanced_trans(text, start, cur, reader.state);
                    let item = (x.0@, x.1);
                    match spec_filters(text, reader.state).0 {
                        Ok(items) => {
                            assert(filters_view(v@) + (seq![item] + items) =~= filters_view(v@).push(item) + items);
                        },
                        Err(e) => {},
                    }
                }
                let ghost before = v@;
                v.push(x);
                proof {
                    assert(filters_view(v@) =~= filters_view(before).push((x.0@, x.1)));
                }
            },
        }
    }
    Ok(v)
}

} // verus!
