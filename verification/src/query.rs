use vstd::prelude::*;
use crate::ast::{CertificateAttributeName, CookiePathV, Query, QueryV, QueryValue, QueryValueV, RegexValue, RegexValueV, TemplateV, WhitespaceV};
use crate::combinators::{Outcome, keyword, or_else};
use crate::cookiepath::{cookiepath, spec_cookiepath};
use crate::error::{ErrorV, ParseResult, expecting, expecting_error, no_recover, result_view};
use crate::primitives::{lemma_quoted_oneline_consumes, literal, one_or_more_spaces, quoted_oneline_string, spec_blanks, spec_literal, spec_one_or_more_spaces, spec_quoted_oneline_string, starts_with_at, try_literal};
use crate::reader::{Pos, Reader, ReaderState, SourceInfo, advanced, lemma_advanced_refl, lemma_advanced_trans, skip_n, state_ok};
use crate::regex::{regex, spec_regex};
use crate::template::{quoted_template, spec_quoted_template};

verus! {

/// `keyword`, blanks, then `rest`: the keyword's absence is recoverable,
/// and so is missing blank space.
pub open spec fn after_keyword_and_space<T>(text: Seq<char>, st: ReaderState, s: Seq<char>, f: spec_fn(WhitespaceV, ReaderState) -> Outcome<T>) -> Outcome<T> {
    let (r1, st1) = spec_literal(text, st, s, true);
    match r1 {
        Err(e) => (Err(e), st1),
        Ok(_) => {
            let (r2, st2) = spec_one_or_more_spaces(text, st1);
            match r2 {
                Err(e) => (Err(e), st2),
                Ok(ws) => f(ws, st2),
            }
        },
    }
}

/// A quoted template whose failures are all non-recoverable.
pub open spec fn spec_required_template(text: Seq<char>, st: ReaderState) -> Outcome<crate::ast::TemplateV> {
    let (r, st1) = spec_quoted_template(text, st);
    match r {
        Err(e) => (Err(no_recover(e)), st1),
        Ok(t) => (Ok(t), st1),
    }
}

pub open spec fn spec_header_query(text: Seq<char>, st: ReaderState) -> Outcome<QueryValueV> {
    after_keyword_and_space(text, st, "header"@, |ws: WhitespaceV, s: ReaderState| {
        let (r, s1) = spec_required_template(text, s);
        match r {
            Err(e) => (Err(e), s1),
            Ok(t) => (Ok(QueryValueV::Header { space0: ws, name: t }), s1),
        }
    })
}

pub open spec fn spec_xpath_query(text: Seq<char>, st: ReaderState) -> Outcome<QueryValueV> {
    after_keyword_and_space(text, st, "xpath"@, |ws: WhitespaceV, s: ReaderState| {
        let (r, s1) = spec_required_template(text, s);
        match r {
            Err(e) => (Err(e), s1),
            Ok(t) => (Ok(QueryValueV::Xpath { space0: ws, expr: t }), s1),
        }
    })
}

pub open spec fn spec_jsonpath_query(text: Seq<char>, st: ReaderState) -> Outcome<QueryValueV> {
    after_keyword_and_space(text, st, "jsonpath"@, |ws: WhitespaceV, s: ReaderState| {
        let (r, s1) = spec_required_template(text, s);
        match r {
            Err(e) => (Err(e), s1),
            Ok(t) => (Ok(QueryValueV::Jsonpath { space0: ws, expr: t }), s1),
        }
    })
}

pub open spec fn spec_variable_query(text: Seq<char>, st: ReaderState) -> Outcome<QueryValueV> {
    after_keyword_and_space(text, st, "variable"@, |ws: WhitespaceV, s: ReaderState| {
        let (r, s1) = spec_required_template(text, s);
        match r {
            Err(e) => (Err(e), s1),
            Ok(t) => (Ok(QueryValueV::Variable { space0: ws, name: t }), s1),
        }
    })
}

/// The position given to the first character of a quoted string that
/// starts at `start`.
pub open spec fn inside_quote(start: Pos) -> Pos {
    Pos { line: start.line, column: (start.column + 1) as usize }
}

pub open spec fn spec_cookie_query(text: Seq<char>, st: ReaderState) -> Outcome<QueryValueV> {
    after_keyword_and_space(text, st, "cookie"@, |ws: WhitespaceV, s: ReaderState| {
        let (r, s1) = spec_quoted_oneline_string(text, s);
        match r {
            Err(e) => (Err(e), s1),
            Ok(q) => {
                let (rc, _) = spec_cookiepath(q, ReaderState { cursor: 0, pos: inside_quote(s.pos) });
                match rc {
                    Err(e) => (Err(e), s1),
                    Ok(expr) => (Ok(QueryValueV::Cookie { space0: ws, expr }), s1),
                }
            },
        }
    })
}

/// A quoted template or a regex literal; any failure becomes a
/// non-recoverable one that expects either.
pub open spec fn spec_regex_value(text: Seq<char>, st: ReaderState) -> Outcome<RegexValueV> {
    let first = {
        let (r, s1) = spec_quoted_template(text, st);
        match r {
            Err(e) => (Err(e), s1),
            Ok(t) => (Ok(RegexValueV::Template(t)), s1),
        }
    };
    let second = {
        let (r, s1) = spec_regex(text, st);
        match r {
            Err(e) => (Err(e), s1),
            Ok(p) => (Ok(RegexValueV::Regex(p)), s1),
        }
    };
    let (r, s) = or_else(first, second);
    match r {
        Ok(v) => (Ok(v), s),
        Err(e) => (Err(expecting(e.pos, false, "\" or /"@)), s),
    }
}

pub open spec fn spec_regex_query(text: Seq<char>, st: ReaderState) -> Outcome<QueryValueV> {
    after_keyword_and_space(text, st, "regex"@, |ws: WhitespaceV, s: ReaderState| {
        let (r, s1) = spec_regex_value(text, s);
        match r {
            Err(e) => (Err(e), s1),
            Ok(v) => (Ok(QueryValueV::Regex { space0: ws, value: v }), s1),
        }
    })
}

/// `"` then one of the certificate fields with its closing quote.
pub open spec fn spec_certificate_field(text: Seq<char>, st: ReaderState) -> Outcome<CertificateAttributeName> {
    let (r1, st1) = spec_literal(text, st, "\""@, false);
    match r1 {
        Err(e) => (Err(e), st1),
        Ok(_) => {
            let (r, s) = or_else(keyword(text, st1, "Subject\""@, CertificateAttributeName::Subject),
                or_else(keyword(text, st1, "Issuer\""@, CertificateAttributeName::Issuer),
                or_else(keyword(text, st1, "Start-Date\""@, CertificateAttributeName::StartDate),
                or_else(keyword(text, st1, "Expire-Date\""@, CertificateAttributeName::ExpireDate),
                keyword(text, st1, "Serial-Number\""@, CertificateAttributeName::SerialNumber)))));
            match r {
                Ok(v) => (Ok(v), s),
                Err(e) => (Err(expecting(st1.pos, false, "Field <Subject>, <Issuer>, <Start-Date>, <Expire-Date> or <Serial-Number>"@)), st1),
            }
        },
    }
}

pub open spec fn spec_certificate_query(text: Seq<char>, st: ReaderState) -> Outcome<QueryValueV> {
    after_keyword_and_space(text, st, "certificate"@, |ws: WhitespaceV, s: ReaderState| {
        let (r, s1) = spec_certificate_field(text, s);
        match r {
            Err(e) => (Err(e), s1),
            Ok(f) => (Ok(QueryValueV::Certificate { space0: ws, attribute_name: f }), s1),
        }
    })
}

/// The query at `st`: the first alternative that does not fail
/// recoverably, in the order of the grammar.
pub open spec fn spec_query_value(text: Seq<char>, st: ReaderState) -> Outcome<QueryValueV> {
    or_else(keyword(text, st, "status"@, QueryValueV::Status),
    or_else(keyword(text, st, "url"@, QueryValueV::Url),
    or_else(spec_header_query(text, st),
    or_else(spec_cookie_query(text, st),
    or_else(keyword(text, st, "body"@, QueryValueV::Body),
    or_else(spec_xpath_query(text, st),
    or_else(spec_jsonpath_query(text, st),
    or_else(spec_regex_query(text, st),
    or_else(spec_variable_query(text, st),
    or_else(keyword(text, st, "duration"@, QueryValueV::Duration),
    or_else(keyword(text, st, "bytes"@, QueryValueV::Bytes),
    or_else(keyword(text, st, "sha256"@, QueryValueV::Sha256),
    or_else(keyword(text, st, "blake3"@, QueryValueV::Blake3),
    spec_certificate_query(text, st))))))))))))))
}

/// A query, spanning from where it starts to where its value ends.
pub open spec fn spec_query(text: Seq<char>, st: ReaderState) -> Outcome<QueryV> {
    let (r, st1) = spec_query_value(text, st);
    match r {
        Err(e) => (Err(e), st1),
        Ok(v) => (Ok(QueryV { source_info: SourceInfo { start: st.pos, end: st1.pos }, value: v }), st1),
    }
}

fn is_recoverable<T>(r: &ParseResult<T>) -> (b: bool)
    ensures
        b == (r matches Err(e) && e.recoverable),
{
    match r {
        Err(e) => e.recoverable,
        Ok(_) => false,
    }
}

pub fn status_query(reader: &mut Reader) -> (res: ParseResult<QueryValue>)
    requires
        old(reader).wf(),
    ensures
        final(reader).wf(),
        final(reader).text() == old(reader).text(),
        advanced(old(reader).text(), old(reader).state, final(reader).state),
        (result_view(res), final(reader).state) == keyword(old(reader).text(), old(reader).state, "status"@, QueryValueV::Status),
{
    try_literal("status", reader)?;
    Ok(QueryValue::Status)
}

pub fn url_query(reader: &mut Reader) -> (res: ParseResult<QueryValue>)
    requires
        old(reader).wf(),
    ensures
        final(reader).wf(),
        final(reader).text() == old(reader).text(),
        advanced(old(reader).text(), old(reader).state, final(reader).state),
        (result_view(res), final(reader).state) == keyword(old(reader).text(), old(reader).state, "url"@, QueryValueV::Url),
{
    try_literal("url", reader)?;
    Ok(QueryValue::Url)
}

pub fn body_query(reader: &mut Reader) -> (res: ParseResult<QueryValue>)
    requires
        old(reader).wf(),
    ensures
        final(reader).wf(),
        final(reader).text() == old(reader).text(),
        advanced(old(reader).text(), old(reader).state, final(reader).state),
        (result_view(res), final(reader).state) == keyword(old(reader).text(), old(reader).state, "body"@, QueryValueV::Body),
{
    try_literal("body", reader)?;
    Ok(QueryValue::Body)
}

pub fn duration_query(reader: &mut Reader) -> (res: ParseResult<QueryValue>)
    requires
        old(reader).wf(),
    ensures
        final(reader).wf(),
        final(reader).text() == old(reader).text(),
        advanced(old(reader).text(), old(reader).state, final(reader).state),
        (result_view(res), final(reader).state) == keyword(old(reader).text(), old(reader).state, "duration"@, QueryValueV::Duration),
{
    try_literal("duration", reader)?;
    Ok(QueryValue::Duration)
}

pub fn bytes_query(reader: &mut Reader) -> (res: ParseResult<QueryValue>)
    requires
        old(reader).wf(),
    ensures
        final(reader).wf(),
        final(reader).text() == old(reader).text(),
        advanced(old(reader).text(), old(reader).state, final(reader).state),
        (result_view(res), final(reader).state) == keyword(old(reader).text(), old(reader).state, "bytes"@, QueryValueV::Bytes),
{
    try_literal("bytes", reader)?;
    Ok(QueryValue::Bytes)
}

pub fn sha256_query(reader: &mut Reader) -> (res: ParseResult<QueryValue>)
    requires
        old(reader).wf(),
    ensures
        final(reader).wf(),
        final(reader).text() == old(reader).text(),
        advanced(old(reader).text(), old(reader).state, final(reader).state),
        (result_view(res), final(reader).state) == keyword(old(reader).text(), old(reader).state, "sha256"@, QueryValueV::Sha256),
{
    try_literal("sha256", reader)?;
    Ok(QueryValue::Sha256)
}

pub fn blake3_query(reader: &mut Reader) -> (res: ParseResult<QueryValue>)
    requires
        old(reader).wf(),
    ensures
        final(reader).wf(),
        final(reader).text() == old(reader).text(),
        advanced(old(reader).text(), old(reader).state, final(reader).state),
        (result_view(res), final(reader).state) == keyword(old(reader).text(), old(reader).state, "blake3"@, QueryValueV::Blake3),
{
    try_literal("blake3", reader)?;
    Ok(QueryValue::Blake3)
}

fn required_template(reader: &mut Reader) -> (res: ParseResult<crate::ast::Template>)
    requires
        old(reader).wf(),
    ensures
        final(reader).wf(),
        final(reader).text() == old(reader).text(),
        advanced(old(reader).text(), old(reader).state, final(reader).state),
        (result_view(res), final(reader).state) == spec_required_template(old(reader).text(), old(reader).state),
{
    match quoted_template(reader) {
        Ok(t) => Ok(t),
        Err(e) => Err(e.non_recoverable()),
    }
}

pub fn header_query(reader: &mut Reader) -> (res: ParseResult<QueryValue>)
    requires
        old(reader).wf(),
    ensures
        final(reader).wf(),
        final(reader).text() == old(reader).text(),
        advanced(old(reader).text(), old(reader).state, final(reader).state),
        (result_view(res), final(reader).state) == spec_header_query(old(reader).text(), old(reader).state),
{
    let ghost text = reader.text();
    let ghost st0 = reader.state;
    try_literal("header", reader)?;
    let ghost st1 = reader.state;
    let space0 = one_or_more_spaces(reader)?;
    let ghost st2 = reader.state;
    proof {
        lemma_advanced_trans(text, st0, st1, st2);
    }
    let r = required_template(reader);
    proof {
        lemma_advanced_trans(text, st0, st2, reader.state);
    }
    let name = r?;
    Ok(QueryValue::Header { space0, name })
}

pub fn xpath_query(reader: &mut Reader) -> (res: ParseResult<QueryValue>)
    requires
        old(reader).wf(),
    ensures
        final(reader).wf(),
        final(reader).text() == old(reader).text(),
        advanced(old(reader).text(), old(reader).state, final(reader).state),
        (result_view(res), final(reader).state) == spec_xpath_query(old(reader).text(), old(reader).state),
{
    let ghost text = reader.text();
    let ghost st0 = reader.state;
    try_literal("xpath", reader)?;
    let ghost st1 = reader.state;
    let space0 = one_or_more_spaces(reader)?;
    let ghost st2 = reader.state;
    proof {
        lemma_advanced_trans(text, st0, st1, st2);
    }
    let r = required_template(reader);
    proof {
        lemma_advanced_trans(text, st0, st2, reader.state);
    }
    let expr = r?;
    Ok(QueryValue::Xpath { space0, expr })
}

pub fn jsonpath_query(reader: &mut Reader) -> (res: ParseResult<QueryValue>)
    requires
        old(reader).wf(),
    ensures
        final(reader).wf(),
        final(reader).text() == old(reader).text(),
        advanced(old(reader).text(), old(reader).state, final(reader).state),
        (result_view(res), final(reader).state) == spec_jsonpath_query(old(reader).text(), old(reader).state),
{
    let ghost text = reader.text();
    let ghost st0 = reader.state;
    try_literal("jsonpath", reader)?;
    let ghost st1 = reader.state;
    let space0 = one_or_more_spaces(reader)?;
    let ghost st2 = reader.state;
    proof {
        lemma_advanced_trans(text, st0, st1, st2);
    }
    let r = required_template(reader);
    proof {
        lemma_advanced_trans(text, st0, st2, reader.state);
    }
    let expr = r?;
    Ok(QueryValue::Jsonpath { space0, expr })
}

pub fn variable_query(reader: &mut Reader) -> (res: ParseResult<QueryValue>)
    requires
        old(reader).wf(),
    ensures
        final(reader).wf(),
        final(reader).text() == old(reader).text(),
        advanced(old(reader).text(), old(reader).state, final(reader).state),
        (result_view(res), final(reader).state) == spec_variable_query(old(reader).text(), old(reader).state),
{
    let ghost text = reader.text();
    let ghost st0 = reader.state;
    try_literal("variable", reader)?;
    let ghost st1 = reader.state;
    let space0 = one_or_more_spaces(reader)?;
    let ghost st2 = reader.state;
    proof {
        lemma_advanced_trans(text, st0, st1, st2);
    }
    let r = required_template(reader);
    proof {
        lemma_advanced_trans(text, st0, st2, reader.state);
    }
    let name = r?;
    Ok(QueryValue::Variable { space0, name })
}

pub fn cookie_query(reader: &mut Reader) -> (res: ParseResult<QueryValue>)
    requires
        old(reader).wf(),
    ensures
        final(reader).wf(),
        final(reader).text() == old(reader).text(),
        advanced(old(reader).text(), old(reader).state, final(reader).state),
        (result_view(res), final(reader).state) == spec_cookie_query(old(reader).text(), old(reader).state),
{
    let ghost text = reader.text();
    let ghost st0 = reader.state;
    try_literal("cookie", reader)?;
    let ghost st1 = reader.state;
    let space0 = one_or_more_spaces(reader)?;
    let st2 = reader.state;
    let start = reader.state.pos;
    proof {
        lemma_advanced_trans(text, st0, st1, st2);
        lemma_quoted_oneline_consumes(text, st2);
    }
    let r = quoted_oneline_string(reader);
    proof {
        lemma_advanced_trans(text, st0, st2, reader.state);
    }
    let s = r?;
    let mut cookiepath_reader = Reader::new(s.as_str());
    cookiepath_reader.state.pos = Pos { line: start.line, column: start.column + 1 };
    let expr = cookiepath(&mut cookiepath_reader)?;
    Ok(QueryValue::Cookie { space0, expr })
}

pub fn regex_value(reader: &mut Reader) -> (res: ParseResult<RegexValue>)
    requires
        old(reader).wf(),
    ensures
        final(reader).wf(),
        final(reader).text() == old(reader).text(),
        advanced(old(reader).text(), old(reader).state, final(reader).state),
        (result_view(res), final(reader).state) == spec_regex_value(old(reader).text(), old(reader).state),
{
    let ghost text = reader.text();
    let start = reader.state;
    let r = match quoted_template(reader) {
        Ok(t) => Ok(RegexValue::Template(t)),
        Err(e) => {
            if e.recoverable {
                reader.seek(start);
                proof {
                    lemma_advanced_refl(text, start);
                }
                match regex(reader) {
                    Ok(p) => Ok(RegexValue::Regex(p)),
                    Err(e) => Err(e),
                }
            } else {
                Err(e)
            }
        },
    };
    match r {
        Ok(v) => Ok(v),
        Err(e) => Err(expecting_error(e.pos, false, "\" or /")),
    }
}

pub fn regex_query(reader: &mut Reader) -> (res: ParseResult<QueryValue>)
    requires
        old(reader).wf(),
    ensures
        final(reader).wf(),
        final(reader).text() == old(reader).text(),
        advanced(old(reader).text(), old(reader).state, final(reader).state),
        (result_view(res), final(reader).state) == spec_regex_query(old(reader).text(), old(reader).state),
{
    let ghost text = reader.text();
    let ghost st0 = reader.state;
    try_literal("regex", reader)?;
    let ghost st1 = reader.state;
    let space0 = one_or_more_spaces(reader)?;
    let ghost st2 = reader.state;
    proof {
        lemma_advanced_trans(text, st0, st1, st2);
    }
    let r = regex_value(reader);
    proof {
        lemma_advanced_trans(text, st0, st2, reader.state);
    }
    let value = r?;
    Ok(QueryValue::Regex { space0, value })
}

pub fn certificate_field(reader: &mut Reader) -> (res: ParseResult<CertificateAttributeName>)
    requires
        old(reader).wf(),
    ensures
        final(reader).wf(),
        final(reader).text() == old(reader).text(),
        advanced(old(reader).text(), old(reader).state, final(reader).state),
        (result_view(res), final(reader).state) == spec_certificate_field(old(reader).text(), old(reader).state),
{
    let ghost text = reader.text();
    let ghost st0 = reader.state;
    literal("\"", reader)?;
    let st1 = reader.state;
    if try_literal("Subject\"", reader).is_ok() {
        proof { lemma_advanced_trans(text, st0, st1, reader.state); }
        return Ok(CertificateAttributeName::Subject);
    }
    if try_literal("Issuer\"", reader).is_ok() {
        proof { lemma_advanced_trans(text, st0, st1, reader.state); }
        return Ok(CertificateAttributeName::Issuer);
    }
    if try_literal("Start-Date\"", reader).is_ok() {
        proof { lemma_advanced_trans(text, st0, st1, reader.state); }
        return Ok(CertificateAttributeName::StartDate);
    }
    if try_literal("Expire-Date\"", reader).is_ok() {
        proof { lemma_advanced_trans(text, st0, st1, reader.state); }
        return Ok(CertificateAttributeName::ExpireDate);
    }
    if try_literal("Serial-Number\"", reader).is_ok() {
        proof { lemma_advanced_trans(text, st0, st1, reader.state); }
        return Ok(CertificateAttributeName::SerialNumber);
    }
    Err(expecting_error(st1.pos, false, "Field <Subject>, <Issuer>, <Start-Date>, <Expire-Date> or <Serial-Number>"))
}

pub fn certificate_query(reader: &mut Reader) -> (res: ParseResult<QueryValue>)
    requires
        old(reader).wf(),
    ensures
        final(reader).wf(),
        final(reader).text() == old(reader).text(),
        advanced(old(reader).text(), old(reader).state, final(reader).state),
        (result_view(res), final(reader).state) == spec_certificate_query(old(reader).text(), old(reader).state),
{
    let ghost text = reader.text();
    let ghost st0 = reader.state;
    try_literal("certificate", reader)?;
    let ghost st1 = reader.state;
    let space0 = one_or_more_spaces(reader)?;
    let ghost st2 = reader.state;
    proof {
        lemma_advanced_trans(text, st0, st1, st2);
    }
    let r = certificate_field(reader);
    proof {
        lemma_advanced_trans(text, st0, st2, reader.state);
    }
    let attribute_name = r?;
    Ok(QueryValue::Certificate { space0, attribute_name })
}

/// Tries each query of the grammar in turn; a recoverable failure restores
/// the reader before the next one.
pub fn query_value(reader: &mut Reader) -> (res: ParseResult<QueryValue>)
    requires
        old(reader).wf(),
    ensures
        final(reader).wf(),
        final(reader).text() == old(reader).text(),
        advanced(old(reader).text(), old(reader).state, final(reader).state),
        (result_view(res), final(reader).state) == spec_query_value(old(reader).text(), old(reader).state),
{
    let ghost text = reader.text();
    let start = reader.state;
    let r = status_query(reader);
    if !is_recoverable(&r) {
        return r;
    }
    reader.seek(start);
    proof {
        lemma_advanced_refl(text, start);
    }
    let r = url_query(reader);
    if !is_recoverable(&r) {
        return r;
    }
    reader.seek(start);
    proof {
        lemma_advanced_refl(text, start);
    }
    let r = header_query(reader);
    if !is_recoverable(&r) {
        return r;
    }
    reader.seek(start);
    proof {
        lemma_advanced_refl(text, start);
    }
    let r = cookie_query(reader);
    if !is_recoverable(&r) {
        return r;
    }
    reader.seek(start);
    proof {
        lemma_advanced_refl(text, start);
    }
    let r = body_query(reader);
    if !is_recoverable(&r) {
        return r;
    }
    reader.seek(start);
    proof {
        lemma_advanced_refl(text, start);
    }
    let r = xpath_query(reader);
    if !is_recoverable(&r) {
        return r;
    }
    reader.seek(start);
    proof {
        lemma_advanced_refl(text, start);
    }
    let r = jsonpath_query(reader);
    if !is_recoverable(&r) {
        return r;
    }
    reader.seek(start);
    proof {
        lemma_advanced_refl(text, start);
    }
    let r = regex_query(reader);
    if !is_recoverable(&r) {
        return r;
    }
    reader.seek(start);
    proof {
        lemma_advanced_refl(text, start);
    }
    let r = variable_query(reader);
    if !is_recoverable(&r) {
        return r;
    }
    reader.seek(start);
    proof {
        lemma_advanced_refl(text, start);
    }
    let r = duration_query(reader);
    if !is_recoverable(&r) {
        return r;
    }
    reader.seek(start);
    proof {
        lemma_advanced_refl(text, start);
    }
    let r = bytes_query(reader);
    if !is_recoverable(&r) {
        return r;
    }
    reader.seek(start);
    proof {
        lemma_advanced_refl(text, start);
    }
    let r = sha256_query(reader);
    if !is_recoverable(&r) {
        return r;
    }
    reader.seek(start);
    proof {
        lemma_advanced_refl(text, start);
    }
    let r = blake3_query(reader);
    if !is_recoverable(&r) {
        return r;
    }
    reader.seek(start);
    proof {
        lemma_advanced_refl(text, start);
    }
    certificate_query(reader)
}

pub fn query(reader: &mut Reader) -> (res: ParseResult<Query>)
    requires
        old(reader).wf(),
    ensures
        final(reader).wf(),
        final(reader).text() == old(reader).text(),
        advanced(old(reader).text(), old(reader).state, final(reader).state),
        (result_view(res), final(reader).state) == spec_query(old(reader).text(), old(reader).state),
        res matches Ok(q) ==> q.source_info.start == old(reader).state.pos && q.source_info.end
            == final(reader).state.pos,
{
    let start = reader.state.pos;
    let value = query_value(reader)?;
    let end = reader.state.pos;
    Ok(Query { source_info: SourceInfo::new(start, end), value })
}


/// Where the word `kw` stands at `i`, no word that differs from it at its
/// `j`-th character stands there.
proof fn lemma_other_word_absent(text: Seq<char>, i: int, kw: Seq<char>, other: Seq<char>, j: int)
    requires
        0 <= i,
        starts_with_at(text, i, kw),
        0 <= j < kw.len(),
        j < other.len(),
        kw[j] != other[j],
    ensures
        !starts_with_at(text, i, other),
{
    if starts_with_at(text, i, other) {
        assert(text.subrange(i, i + kw.len())[j] == text[i + j]);
        assert(text.subrange(i, i + other.len())[j] == text[i + j]);
    }
}

/// The state reached after the word `kw` at `st` and the blanks that
/// follow it.
pub open spec fn after_word_and_blanks(text: Seq<char>, st: ReaderState, kw: Seq<char>) -> ReaderState {
    spec_blanks(text, skip_n(text, st, kw.len())).1
}

/// The blanks that follow the word `kw` at `st`.
pub open spec fn blanks_after_word(text: Seq<char>, st: ReaderState, kw: Seq<char>) -> WhitespaceV {
    spec_blanks(text, skip_n(text, st, kw.len())).0
}

/// A text that starts with the keyword `status` is read as the Status query,
/// which ends right after the keyword.
pub proof fn law_status_query_reachable(text: Seq<char>, st: ReaderState)
    requires
        state_ok(text, st),
        starts_with_at(text, st.cursor as int, "status"@),
    ensures
        spec_query(text, st) == (Ok::<QueryV, ErrorV>(QueryV {
            source_info: SourceInfo { start: st.pos, end: skip_n(text, st, "status"@.len()).pos },
            value: QueryValueV::Status,
        }), skip_n(text, st, "status"@.len())),
{
    reveal_strlit("status");
}

/// A text that starts with the keyword `url` is read as the Url query,
/// which ends right after the keyword.
pub proof fn law_url_query_reachable(text: Seq<char>, st: ReaderState)
    requires
        state_ok(text, st),
        starts_with_at(text, st.cursor as int, "url"@),
    ensures
        spec_query(text, st) == (Ok::<QueryV, ErrorV>(QueryV {
            source_info: SourceInfo { start: st.pos, end: skip_n(text, st, "url"@.len()).pos },
            value: QueryValueV::Url,
        }), skip_n(text, st, "url"@.len())),
{
    reveal_strlit("url");
    reveal_strlit("status");
    lemma_other_word_absent(text, st.cursor as int, "url"@, "status"@, 0);
}

/// A text made of `header`, one or more blanks and a well-formed quoted
/// template is read as a Header query whose name is that template.
pub proof fn law_header_query_reachable(text: Seq<char>, st: ReaderState, t: TemplateV, end: ReaderState)
    requires
        state_ok(text, st),
        starts_with_at(text, st.cursor as int, "header"@),
        st.cursor + "header"@.len() < text.len(),
        text[st.cursor + "header"@.len()] == ' ' || text[st.cursor + "header"@.len()] == '\t',
        spec_quoted_template(text, after_word_and_blanks(text, st, "header"@)) == (Ok::<TemplateV, ErrorV>(t), end),
    ensures
        spec_query(text, st) == (Ok::<QueryV, ErrorV>(QueryV {
            source_info: SourceInfo { start: st.pos, end: end.pos },
            value: QueryValueV::Header { space0: blanks_after_word(text, st, "header"@), name: t },
        }), end),
{
    reveal_strlit("header");
    reveal_strlit("status");
    reveal_strlit("url");
    lemma_other_word_absent(text, st.cursor as int, "header"@, "status"@, 0);
    lemma_other_word_absent(text, st.cursor as int, "header"@, "url"@, 0);
    let st1 = skip_n(text, st, "header"@.len());
    crate::chars::lemma_span_len_bound(text, st1.cursor as int, crate::chars::CharClass::Blank);
    assert(crate::chars::span_len(text, st1.cursor as int, crate::chars::CharClass::Blank) > 0);
}

/// A text made of `cookie`, one or more blanks and a quoted string that
/// holds a well-formed cookie path is read as a cookie query on that path.
pub proof fn law_cookie_query_reachable(text: Seq<char>, st: ReaderState, q: Seq<char>, expr: CookiePathV, end: ReaderState)
    requires
        state_ok(text, st),
        starts_with_at(text, st.cursor as int, "cookie"@),
        st.cursor + "cookie"@.len() < text.len(),
        text[st.cursor + "cookie"@.len()] == ' ' || text[st.cursor + "cookie"@.len()] == '\t',
        spec_quoted_oneline_string(text, after_word_and_blanks(text, st, "cookie"@)) == (Ok::<Seq<char>, ErrorV>(q), end),
        spec_cookiepath(q, ReaderState { cursor: 0, pos: inside_quote(after_word_and_blanks(text, st, "cookie"@).pos) }).0 == Ok::<CookiePathV, ErrorV>(expr),
    ensures
        spec_query(text, st) == (Ok::<QueryV, ErrorV>(QueryV {
            source_info: SourceInfo { start: st.pos, end: end.pos },
            value: QueryValueV::Cookie { space0: blanks_after_word(text, st, "cookie"@), expr },
        }), end),
{
    reveal_strlit("cookie");
    reveal_strlit("status");
    reveal_strlit("url");
    reveal_strlit("header");
    lemma_other_word_absent(text, st.cursor as int, "cookie"@, "status"@, 0);
    lemma_other_word_absent(text, st.cursor as int, "cookie"@, "url"@, 0);
    lemma_other_word_absent(text, st.cursor as int, "cookie"@, "header"@, 0);
    let st1 = skip_n(text, st, "cookie"@.len());
    crate::chars::lemma_span_len_bound(text, st1.cursor as int, crate::chars::CharClass::Blank);
    assert(crate::chars::span_len(text, st1.cursor as int, crate::chars::CharClass::Blank) > 0);
}

/// A text that starts with the keyword `body` is read as the Body query,
/// which ends right after the keyword.
pub proof fn law_body_query_reachable(text: Seq<char>, st: ReaderState)
    requires
        state_ok(text, st),
        starts_with_at(text, st.cursor as int, "body"@),
    ensures
        spec_query(text, st) == (Ok::<QueryV, ErrorV>(QueryV {
            source_info: SourceInfo { start: st.pos, end: skip_n(text, st, "body"@.len()).pos },
            value: QueryValueV::Body,
        }), skip_n(text, st, "body"@.len())),
{
    reveal_strlit("body");
    reveal_strlit("status");
    reveal_strlit("url");
    reveal_strlit("header");
    reveal_strlit("cookie");
    lemma_other_word_absent(text, st.cursor as int, "body"@, "status"@, 0);
    lemma_other_word_absent(text, st.cursor as int, "body"@, "url"@, 0);
    lemma_other_word_absent(text, st.cursor as int, "body"@, "header"@, 0);
    lemma_other_word_absent(text, st.cursor as int, "body"@, "cookie"@, 0);
}

/// A text made of `xpath`, one or more blanks and a well-formed quoted
/// template is read as a Xpath query whose expression is that template.
pub proof fn law_xpath_query_reachable(text: Seq<char>, st: ReaderState, t: TemplateV, end: ReaderState)
    requires
        state_ok(text, st),
        starts_with_at(text, st.cursor as int, "xpath"@),
        st.cursor + "xpath"@.len() < text.len(),
        text[st.cursor + "xpath"@.len()] == ' ' || text[st.cursor + "xpath"@.len()] == '\t',
        spec_quoted_template(text, after_word_and_blanks(text, st, "xpath"@)) == (Ok::<TemplateV, ErrorV>(t), end),
    ensures
        spec_query(text, st) == (Ok::<QueryV, ErrorV>(QueryV {
            source_info: SourceInfo { start: st.pos, end: end.pos },
            value: QueryValueV::Xpath { space0: blanks_after_word(text, st, "xpath"@), expr: t },
        }), end),
{
    reveal_strlit("xpath");
    reveal_strlit("status");
    reveal_strlit("url");
    reveal_strlit("header");
    reveal_strlit("cookie");
    reveal_strlit("body");
    lemma_other_word_absent(text, st.cursor as int, "xpath"@, "status"@, 0);
    lemma_other_word_absent(text, st.cursor as int, "xpath"@, "url"@, 0);
    lemma_other_word_absent(text, st.cursor as int, "xpath"@, "header"@, 0);
    lemma_other_word_absent(text, st.cursor as int, "xpath"@, "cookie"@, 0);
    lemma_other_word_absent(text, st.cursor as int, "xpath"@, "body"@, 0);
    let st1 = skip_n(text, st, "xpath"@.len());
    crate::chars::lemma_span_len_bound(text, st1.cursor as int, crate::chars::CharClass::Blank);
    assert(crate::chars::span_len(text, st1.cursor as int, crate::chars::CharClass::Blank) > 0);
}

/// A text made of `jsonpath`, one or more blanks and a well-formed quoted
/// template is read as a Jsonpath query whose expression is that template.
pub proof fn law_jsonpath_query_reachable(text: Seq<char>, st: ReaderState, t: TemplateV, end: ReaderState)
    requires
        state_ok(text, st),
        starts_with_at(text, st.cursor as int, "jsonpath"@),
        st.cursor + "jsonpath"@.len() < text.len(),
        text[st.cursor + "jsonpath"@.len()] == ' ' || text[st.cursor + "jsonpath"@.len()] == '\t',
        spec_quoted_template(text, after_word_and_blanks(text, st, "jsonpath"@)) == (Ok::<TemplateV, ErrorV>(t), end),
    ensures
        spec_query(text, st) == (Ok::<QueryV, ErrorV>(QueryV {
            source_info: SourceInfo { start: st.pos, end: end.pos },
            value: QueryValueV::Jsonpath { space0: blanks_after_word(text, st, "jsonpath"@), expr: t },
        }), end),
{
    reveal_strlit("jsonpath");
    reveal_strlit("status");
    reveal_strlit("url");
    reveal_strlit("header");
    reveal_strlit("cookie");
    reveal_strlit("body");
    reveal_strlit("xpath");
    lemma_other_word_absent(text, st.cursor as int, "jsonpath"@, "status"@, 0);
    lemma_other_word_absent(text, st.cursor as int, "jsonpath"@, "url"@, 0);
    lemma_other_word_absent(text, st.cursor as int, "jsonpath"@, "header"@, 0);
    lemma_other_word_absent(text, st.cursor as int, "jsonpath"@, "cookie"@, 0);
    lemma_other_word_absent(text, st.cursor as int, "jsonpath"@, "body"@, 0);
    lemma_other_word_absent(text, st.cursor as int, "jsonpath"@, "xpath"@, 0);
    let st1 = skip_n(text, st, "jsonpath"@.len());
    crate::chars::lemma_span_len_bound(text, st1.cursor as int, crate::chars::CharClass::Blank);
    assert(crate::chars::span_len(text, st1.cursor as int, crate::chars::CharClass::Blank) > 0);
}

/// A text made of `regex`, one or more blanks and a well-formed regex
/// value (a quoted template or a regex literal) is read as a regex query on
/// that value.
pub proof fn law_regex_query_reachable(text: Seq<char>, st: ReaderState, v: RegexValueV, end: ReaderState)
    requires
        state_ok(text, st),
        starts_with_at(text, st.cursor as int, "regex"@),
        st.cursor + "regex"@.len() < text.len(),
        text[st.cursor + "regex"@.len()] == ' ' || text[st.cursor + "regex"@.len()] == '\t',
        spec_regex_value(text, after_word_and_blanks(text, st, "regex"@)) == (Ok::<RegexValueV, ErrorV>(v), end),
    ensures
        spec_query(text, st) == (Ok::<QueryV, ErrorV>(QueryV {
            source_info: SourceInfo { start: st.pos, end: end.pos },
            value: QueryValueV::Regex { space0: blanks_after_word(text, st, "regex"@), value: v },
        }), end),
{
    reveal_strlit("regex");
    reveal_strlit("status");
    reveal_strlit("url");
    reveal_strlit("header");
    reveal_strlit("cookie");
    reveal_strlit("body");
    reveal_strlit("xpath");
    reveal_strlit("jsonpath");
    lemma_other_word_absent(text, st.cursor as int, "regex"@, "status"@, 0);
    lemma_other_word_absent(text, st.cursor as int, "regex"@, "url"@, 0);
    lemma_other_word_absent(text, st.cursor as int, "regex"@, "header"@, 0);
    lemma_other_word_absent(text, st.cursor as int, "regex"@, "cookie"@, 0);
    lemma_other_word_absent(text, st.cursor as int, "regex"@, "body"@, 0);
    lemma_other_word_absent(text, st.cursor as int, "regex"@, "xpath"@, 0);
    lemma_other_word_absent(text, st.cursor as int, "regex"@, "jsonpath"@, 0);
    let st1 = skip_n(text, st, "regex"@.len());
    crate::chars::lemma_span_len_bound(text, st1.cursor as int, crate::chars::CharClass::Blank);
    assert(crate::chars::span_len(text, st1.cursor as int, crate::chars::CharClass::Blank) > 0);
}

/// A text made of `variable`, one or more blanks and a well-formed quoted
/// template is read as a Variable query whose name is that template.
pub proof fn law_variable_query_reachable(text: Seq<char>, st: ReaderState, t: TemplateV, end: ReaderState)
    requires
        state_ok(text, st),
        starts_with_at(text, st.cursor as int, "variable"@),
        st.cursor + "variable"@.len() < text.len(),
        text[st.cursor + "variable"@.len()] == ' ' || text[st.cursor + "variable"@.len()] == '\t',
        spec_quoted_template(text, after_word_and_blanks(text, st, "variable"@)) == (Ok::<TemplateV, ErrorV>(t), end),
    ensures
        spec_query(text, st) == (Ok::<QueryV, ErrorV>(QueryV {
            source_info: SourceInfo { start: st.pos, end: end.pos },
            value: QueryValueV::Variable { space0: blanks_after_word(text, st, "variable"@), name: t },
        }), end),
{
    reveal_strlit("variable");
    reveal_strlit("status");
    reveal_strlit("url");
    reveal_strlit("header");
    reveal_strlit("cookie");
    reveal_strlit("body");
    reveal_strlit("xpath");
    reveal_strlit("jsonpath");
    reveal_strlit("regex");
    lemma_other_word_absent(text, st.cursor as int, "variable"@, "status"@, 0);
    lemma_other_word_absent(text, st.cursor as int, "variable"@, "url"@, 0);
    lemma_other_word_absent(text, st.cursor as int, "variable"@, "header"@, 0);
    lemma_other_word_absent(text, st.cursor as int, "variable"@, "cookie"@, 0);
    lemma_other_word_absent(text, st.cursor as int, "variable"@, "body"@, 0);
    lemma_other_word_absent(text, st.cursor as int, "variable"@, "xpath"@, 0);
    lemma_other_word_absent(text, st.cursor as int, "variable"@, "jsonpath"@, 0);
    lemma_other_word_absent(text, st.cursor as int, "variable"@, "regex"@, 0);
    let st1 = skip_n(text, st, "variable"@.len());
    crate::chars::lemma_span_len_bound(text, st1.cursor as int, crate::chars::CharClass::Blank);
    assert(crate::chars::span_len(text, st1.cursor as int, crate::chars::CharClass::Blank) > 0);
}

/// A text that starts with the keyword `duration` is read as the Duration query,
/// which ends right after the keyword.
pub proof fn law_duration_query_reachable(text: Seq<char>, st: ReaderState)
    requires
        state_ok(text, st),
        starts_with_at(text, st.cursor as int, "duration"@),
    ensures
        spec_query(text, st) == (Ok::<QueryV, ErrorV>(QueryV {
            source_info: SourceInfo { start: st.pos, end: skip_n(text, st, "duration"@.len()).pos },
            value: QueryValueV::Duration,
        }), skip_n(text, st, "duration"@.len())),
{
    reveal_strlit("duration");
    reveal_strlit("status");
    reveal_strlit("url");
    reveal_strlit("header");
    reveal_strlit("cookie");
    reveal_strlit("body");
    reveal_strlit("xpath");
    reveal_strlit("jsonpath");
    reveal_strlit("regex");
    reveal_strlit("variable");
    lemma_other_word_absent(text, st.cursor as int, "duration"@, "status"@, 0);
    lemma_other_word_absent(text, st.cursor as int, "duration"@, "url"@, 0);
    lemma_other_word_absent(text, st.cursor as int, "duration"@, "header"@, 0);
    lemma_other_word_absent(text, st.cursor as int, "duration"@, "cookie"@, 0);
    lemma_other_word_absent(text, st.cursor as int, "duration"@, "body"@, 0);
    lemma_other_word_absent(text, st.cursor as int, "duration"@, "xpath"@, 0);
    lemma_other_word_absent(text, st.cursor as int, "duration"@, "jsonpath"@, 0);
    lemma_other_word_absent(text, st.cursor as int, "duration"@, "regex"@, 0);
    lemma_other_word_absent(text, st.cursor as int, "duration"@, "variable"@, 0);
}

/// A text that starts with the keyword `bytes` is read as the Bytes query,
/// which ends right after the keyword.
pub proof fn law_bytes_query_reachable(text: Seq<char>, st: ReaderState)
    requires
        state_ok(text, st),
        starts_with_at(text, st.cursor as int, "bytes"@),
    ensures
        spec_query(text, st) == (Ok::<QueryV, ErrorV>(QueryV {
            source_info: SourceInfo { start: st.pos, end: skip_n(text, st, "bytes"@.len()).pos },
            value: QueryValueV::Bytes,
        }), skip_n(text, st, "bytes"@.len())),
{
    reveal_strlit("bytes");
    reveal_strlit("status");
    reveal_strlit("url");
    reveal_strlit("header");
    reveal_strlit("cookie");
    reveal_strlit("body");
    reveal_strlit("xpath");
    reveal_strlit("jsonpath");
    reveal_strlit("regex");
    reveal_strlit("variable");
    reveal_strlit("duration");
    lemma_other_word_absent(text, st.cursor as int, "bytes"@, "status"@, 0);
    lemma_other_word_absent(text, st.cursor as int, "bytes"@, "url"@, 0);
    lemma_other_word_absent(text, st.cursor as int, "bytes"@, "header"@, 0);
    lemma_other_word_absent(text, st.cursor as int, "bytes"@, "cookie"@, 0);
    lemma_other_word_absent(text, st.cursor as int, "bytes"@, "body"@, 1);
    lemma_other_word_absent(text, st.cursor as int, "bytes"@, "xpath"@, 0);
    lemma_other_word_absent(text, st.cursor as int, "bytes"@, "jsonpath"@, 0);
    lemma_other_word_absent(text, st.cursor as int, "bytes"@, "regex"@, 0);
    lemma_other_word_absent(text, st.cursor as int, "bytes"@, "variable"@, 0);
    lemma_other_word_absent(text, st.cursor as int, "bytes"@, "duration"@, 0);
}

/// A text that starts with the keyword `sha256` is read as the Sha256 query,
/// which ends right after the keyword.
pub proof fn law_sha256_query_reachable(text: Seq<char>, st: ReaderState)
    requires
        state_ok(text, st),
        starts_with_at(text, st.cursor as int, "sha256"@),
    ensures
        spec_query(text, st) == (Ok::<QueryV, ErrorV>(QueryV {
            source_info: SourceInfo { start: st.pos, end: skip_n(text, st, "sha256"@.len()).pos },
            value: QueryValueV::Sha256,
        }), skip_n(text, st, "sha256"@.len())),
{
    reveal_strlit("sha256");
    reveal_strlit("status");
    reveal_strlit("url");
    reveal_strlit("header");
    reveal_strlit("cookie");
    reveal_strlit("body");
    reveal_strlit("xpath");
    reveal_strlit("jsonpath");
    reveal_strlit("regex");
    reveal_strlit("variable");
    reveal_strlit("duration");
    reveal_strlit("bytes");
    lemma_other_word_absent(text, st.cursor as int, "sha256"@, "status"@, 1);
    lemma_other_word_absent(text, st.cursor as int, "sha256"@, "url"@, 0);
    lemma_other_word_absent(text, st.cursor as int, "sha256"@, "header"@, 0);
    lemma_other_word_absent(text, st.cursor as int, "sha256"@, "cookie"@, 0);
    lemma_other_word_absent(text, st.cursor as int, "sha256"@, "body"@, 0);
    lemma_other_word_absent(text, st.cursor as int, "sha256"@, "xpath"@, 0);
    lemma_other_word_absent(text, st.cursor as int, "sha256"@, "jsonpath"@, 0);
    lemma_other_word_absent(text, st.cursor as int, "sha256"@, "regex"@, 0);
    lemma_other_word_absent(text, st.cursor as int, "sha256"@, "variable"@, 0);
    lemma_other_word_absent(text, st.cursor as int, "sha256"@, "duration"@, 0);
    lemma_other_word_absent(text, st.cursor as int, "sha256"@, "bytes"@, 0);
}

/// A text that starts with the keyword `blake3` is read as the Blake3 query,
/// which ends right after the keyword.
pub proof fn law_blake3_query_reachable(text: Seq<char>, st: ReaderState)
    requires
        state_ok(text, st),
        starts_with_at(text, st.cursor as int, "blake3"@),
    ensures
        spec_query(text, st) == (Ok::<QueryV, ErrorV>(QueryV {
            source_info: SourceInfo { start: st.pos, end: skip_n(text, st, "blake3"@.len()).pos },
            value: QueryValueV::Blake3,
        }), skip_n(text, st, "blake3"@.len())),
{
    reveal_strlit("blake3");
    reveal_strlit("status");
    reveal_strlit("url");
    reveal_strlit("header");
    reveal_strlit("cookie");
    reveal_strlit("body");
    reveal_strlit("xpath");
    reveal_strlit("jsonpath");
    reveal_strlit("regex");
    reveal_strlit("variable");
    reveal_strlit("duration");
    reveal_strlit("bytes");
    reveal_strlit("sha256");
    lemma_other_word_absent(text, st.cursor as int, "blake3"@, "status"@, 0);
    lemma_other_word_absent(text, st.cursor as int, "blake3"@, "url"@, 0);
    lemma_other_word_absent(text, st.cursor as int, "blake3"@, "header"@, 0);
    lemma_other_word_absent(text, st.cursor as int, "blake3"@, "cookie"@, 0);
    lemma_other_word_absent(text, st.cursor as int, "blake3"@, "body"@, 1);
    lemma_other_word_absent(text, st.cursor as int, "blake3"@, "xpath"@, 0);
    lemma_other_word_absent(text, st.cursor as int, "blake3"@, "jsonpath"@, 0);
    lemma_other_word_absent(text, st.cursor as int, "blake3"@, "regex"@, 0);
    lemma_other_word_absent(text, st.cursor as int, "blake3"@, "variable"@, 0);
    lemma_other_word_absent(text, st.cursor as int, "blake3"@, "duration"@, 0);
    lemma_other_word_absent(text, st.cursor as int, "blake3"@, "bytes"@, 1);
    lemma_other_word_absent(text, st.cursor as int, "blake3"@, "sha256"@, 0);
}

/// A text made of `certificate`, one or more blanks and a quoted
/// certificate field is read as a certificate query on that field.
pub proof fn law_certificate_query_reachable(text: Seq<char>, st: ReaderState, f: CertificateAttributeName, end: ReaderState)
    requires
        state_ok(text, st),
        starts_with_at(text, st.cursor as int, "certificate"@),
        st.cursor + "certificate"@.len() < text.len(),
        text[st.cursor + "certificate"@.len()] == ' ' || text[st.cursor + "certificate"@.len()] == '\t',
        spec_certificate_field(text, after_word_and_blanks(text, st, "certificate"@)) == (Ok::<CertificateAttributeName, ErrorV>(f), end),
    ensures
        spec_query(text, st) == (Ok::<QueryV, ErrorV>(QueryV {
            source_info: SourceInfo { start: st.pos, end: end.pos },
            value: QueryValueV::Certificate { space0: blanks_after_word(text, st, "certificate"@), attribute_name: f },
        }), end),
{
    reveal_strlit("certificate");
    reveal_strlit("status");
    reveal_strlit("url");
    reveal_strlit("header");
    reveal_strlit("cookie");
    reveal_strlit("body");
    reveal_strlit("xpath");
    reveal_strlit("jsonpath");
    reveal_strlit("regex");
    reveal_strlit("variable");
    reveal_strlit("duration");
    reveal_strlit("bytes");
    reveal_strlit("sha256");
    reveal_strlit("blake3");
    lemma_other_word_absent(text, st.cursor as int, "certificate"@, "status"@, 0);
    lemma_other_word_absent(text, st.cursor as int, "certificate"@, "url"@, 0);
    lemma_other_word_absent(text, st.cursor as int, "certificate"@, "header"@, 0);
    lemma_other_word_absent(text, st.cursor as int, "certificate"@, "cookie"@, 1);
    lemma_other_word_absent(text, st.cursor as int, "certificate"@, "body"@, 0);
    lemma_other_word_absent(text, st.cursor as int, "certificate"@, "xpath"@, 0);
    lemma_other_word_absent(text, st.cursor as int, "certificate"@, "jsonpath"@, 0);
    lemma_other_word_absent(text, st.cursor as int, "certificate"@, "regex"@, 0);
    lemma_other_word_absent(text, st.cursor as int, "certificate"@, "variable"@, 0);
    lemma_other_word_absent(text, st.cursor as int, "certificate"@, "duration"@, 0);
    lemma_other_word_absent(text, st.cursor as int, "certificate"@, "bytes"@, 0);
    lemma_other_word_absent(text, st.cursor as int, "certificate"@, "sha256"@, 0);
    lemma_other_word_absent(text, st.cursor as int, "certificate"@, "blake3"@, 0);
    let st1 = skip_n(text, st, "certificate"@.len());
    crate::chars::lemma_span_len_bound(text, st1.cursor as int, crate::chars::CharClass::Blank);
    assert(crate::chars::span_len(text, st1.cursor as int, crate::chars::CharClass::Blank) > 0);
}

} // verus!
