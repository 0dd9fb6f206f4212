use hurl::ast::{
    CertificateAttributeName, CookieAttributeName, Expr, FilterValue, QueryValue, Regex, RegexValue, Template,
    TemplateElement, Variable, Whitespace,
};
use hurl::error::{Error, ParseError};
use hurl::filter::filters;
use hurl::query::{certificate_query, cookie_query, header_query, query, regex_query, variable_query};
use hurl::reader::{Pos, Reader, SourceInfo};
use hurl::regex::regex;
use hurl::template::unquoted_template;

fn si(l1: usize, c1: usize, l2: usize, c2: usize) -> SourceInfo {
    SourceInfo::new(Pos::new(l1, c1), Pos::new(l2, c2))
}

fn ws(value: &str, source_info: SourceInfo) -> Whitespace {
    Whitespace { value: value.to_string(), source_info }
}

fn text(value: &str, encoded: &str) -> TemplateElement {
    TemplateElement::String { value: value.to_string(), encoded: encoded.to_string() }
}

#[test]
fn keyword_queries() {
    let cases = [
        ("url", QueryValue::Url),
        ("body", QueryValue::Body),
        ("duration", QueryValue::Duration),
        ("bytes", QueryValue::Bytes),
        ("sha256", QueryValue::Sha256),
        ("blake3", QueryValue::Blake3),
    ];
    for (input, value) in cases {
        let mut reader = Reader::new(input);
        let q = query(&mut reader).unwrap();
        assert_eq!(q.value, value);
        assert_eq!(q.source_info, si(1, 1, 1, input.len() + 1));
        assert_eq!(reader.state.cursor, input.len());
    }
}

#[test]
fn query_stops_after_its_keyword() {
    let mut reader = Reader::new("statusX");
    let q = query(&mut reader).unwrap();
    assert_eq!(q.value, QueryValue::Status);
    assert_eq!(reader.state.cursor, 6);
}

#[test]
fn unknown_query_fails_recoverably_without_reading() {
    let mut reader = Reader::new("foo");
    let e = query(&mut reader).unwrap_err();
    assert!(e.recoverable);
    assert_eq!(e.pos, Pos::new(1, 1));
    assert_eq!(e.inner, ParseError::Expecting { value: "certificate".to_string() });
    assert_eq!(reader.state.cursor, 0);
}

#[test]
fn query_needs_space_after_keyword() {
    let mut reader = Reader::new("headerX");
    let e = query(&mut reader).unwrap_err();
    assert!(e.recoverable);
    assert_eq!(reader.state.cursor, 0);
}

#[test]
fn unterminated_template_fails() {
    let mut reader = Reader::new("header \"Foo");
    let e = header_query(&mut reader).unwrap_err();
    assert_eq!(e, Error { pos: Pos::new(1, 12), recoverable: false, inner: ParseError::Expecting { value: "\"".to_string() } });
}

#[test]
fn missing_quote_is_not_recoverable_after_keyword() {
    let mut reader = Reader::new("header Foo");
    let e = query(&mut reader).unwrap_err();
    assert!(!e.recoverable);
    assert_eq!(e.pos, Pos::new(1, 8));
}

#[test]
fn template_with_placeholder() {
    let mut reader = Reader::new("header \"{{ name }}\"");
    assert_eq!(
        header_query(&mut reader).unwrap(),
        QueryValue::Header {
            space0: ws(" ", si(1, 7, 1, 8)),
            name: Template {
                delimiter: Some('"'),
                elements: vec![TemplateElement::Expression(Expr {
                    space0: ws(" ", si(1, 11, 1, 12)),
                    variable: Variable { name: "name".to_string(), source_info: si(1, 12, 1, 16) },
                    space1: ws(" ", si(1, 16, 1, 17)),
                })],
                source_info: si(1, 8, 1, 20),
            },
        }
    );
}

#[test]
fn template_mixes_text_and_placeholders() {
    let mut reader = Reader::new("variable \"a{{x}}b\"");
    assert_eq!(
        variable_query(&mut reader).unwrap(),
        QueryValue::Variable {
            space0: ws(" ", si(1, 9, 1, 10)),
            name: Template {
                delimiter: Some('"'),
                elements: vec![
                    text("a", "a"),
                    TemplateElement::Expression(Expr {
                        space0: ws("", si(1, 14, 1, 14)),
                        variable: Variable { name: "x".to_string(), source_info: si(1, 14, 1, 15) },
                        space1: ws("", si(1, 15, 1, 15)),
                    }),
                    text("b", "b"),
                ],
                source_info: si(1, 10, 1, 19),
            },
        }
    );
}

#[test]
fn template_escapes() {
    let mut reader = Reader::new("header \"a\\\"b\\nc\"");
    let q = header_query(&mut reader).unwrap();
    match q {
        QueryValue::Header { name, .. } => {
            assert_eq!(name.elements, vec![text("a\"b\nc", "a\\\"b\\nc")]);
        }
        _ => panic!("not a header query"),
    }
}

#[test]
fn template_unknown_escape_fails() {
    let mut reader = Reader::new("header \"a\\qb\"");
    let e = header_query(&mut reader).unwrap_err();
    assert_eq!(e, Error { pos: Pos::new(1, 10), recoverable: false, inner: ParseError::Escape });
}

#[test]
fn template_placeholder_needs_a_name() {
    let mut reader = Reader::new("{{ 1 }}");
    let e = unquoted_template(&mut reader).unwrap_err();
    assert_eq!(e, Error { pos: Pos::new(1, 4), recoverable: false, inner: ParseError::TemplateVariable });
}

#[test]
fn unquoted_template_reads_to_the_end() {
    let mut reader = Reader::new("ab{{v}}");
    let t = unquoted_template(&mut reader).unwrap();
    assert_eq!(t.delimiter, None);
    assert_eq!(t.source_info, si(1, 1, 1, 8));
    assert_eq!(t.elements.len(), 2);
    assert_eq!(t.elements[0], text("ab", "ab"));
}

#[test]
fn cookie_query_without_attribute() {
    let mut reader = Reader::new("cookie \"sid\"");
    match cookie_query(&mut reader).unwrap() {
        QueryValue::Cookie { expr, .. } => {
            assert_eq!(expr.attribute, None);
            assert_eq!(expr.name.elements, vec![text("sid", "sid")]);
            assert_eq!(expr.name.source_info, si(1, 9, 1, 12));
        }
        _ => panic!("not a cookie query"),
    }
}

#[test]
fn cookie_attribute_ignores_case() {
    let mut reader = Reader::new("cookie \"a[ MAX-Age ]\"");
    match cookie_query(&mut reader).unwrap() {
        QueryValue::Cookie { expr, .. } => {
            let attribute = expr.attribute.unwrap();
            assert_eq!(attribute.name, CookieAttributeName::MaxAge("MAX-Age".to_string()));
            assert_eq!(attribute.space0, ws(" ", si(1, 11, 1, 12)));
            assert_eq!(attribute.space1, ws(" ", si(1, 19, 1, 20)));
        }
        _ => panic!("not a cookie query"),
    }
}

#[test]
fn cookie_unknown_attribute_fails() {
    let mut reader = Reader::new("cookie \"a[Foo]\"");
    let e = cookie_query(&mut reader).unwrap_err();
    assert_eq!(e, Error { pos: Pos::new(1, 11), recoverable: false, inner: ParseError::InvalidCookieAttribute });
}

#[test]
fn cookie_attribute_reads_every_alphabetic_character() {
    let mut reader = Reader::new("cookie \"a[Domainé]\"");
    let e = cookie_query(&mut reader).unwrap_err();
    assert_eq!(e.inner, ParseError::InvalidCookieAttribute);
}

#[test]
fn cookie_attribute_needs_closing_bracket() {
    let mut reader = Reader::new("cookie \"a[Path\"");
    let e = cookie_query(&mut reader).unwrap_err();
    assert_eq!(e, Error { pos: Pos::new(1, 15), recoverable: false, inner: ParseError::Expecting { value: "]".to_string() } });
}

#[test]
fn regex_query_with_template() {
    let mut reader = Reader::new("regex \"a(.*)\"");
    match regex_query(&mut reader).unwrap() {
        QueryValue::Regex { value: RegexValue::Template(t), .. } => {
            assert_eq!(t.elements, vec![text("a(.*)", "a(.*)")]);
        }
        _ => panic!("not a template regex"),
    }
}

#[test]
fn regex_query_with_literal() {
    let mut reader = Reader::new("regex /x\\/y\\d/");
    assert_eq!(
        regex_query(&mut reader).unwrap(),
        QueryValue::Regex {
            space0: ws(" ", si(1, 6, 1, 7)),
            value: RegexValue::Regex(Regex { source: "x/y\\d".to_string() }),
        }
    );
    assert!(reader.is_eof());
}

#[test]
fn regex_query_expects_quote_or_slash() {
    let mut reader = Reader::new("regex abc");
    let e = regex_query(&mut reader).unwrap_err();
    assert_eq!(e, Error { pos: Pos::new(1, 7), recoverable: false, inner: ParseError::Expecting { value: "\" or /".to_string() } });
}

#[test]
fn regex_literal_that_does_not_compile() {
    let mut reader = Reader::new("/a(/");
    let e = regex(&mut reader).unwrap_err();
    assert_eq!(e, Error { pos: Pos::new(1, 1), recoverable: false, inner: ParseError::RegexExpr { message: "unclosed group".to_string() } });
    assert_eq!(reader.state.cursor, 4);
}

#[test]
fn regex_literal_without_end() {
    let mut reader = Reader::new("/abc");
    let e = regex(&mut reader).unwrap_err();
    assert_eq!(e, Error { pos: Pos::new(1, 5), recoverable: false, inner: ParseError::RegexExpr { message: "unexpected end of file".to_string() } });
}

#[test]
fn certificate_queries() {
    let fields = [
        ("Subject", CertificateAttributeName::Subject),
        ("Issuer", CertificateAttributeName::Issuer),
        ("Start-Date", CertificateAttributeName::StartDate),
        ("Expire-Date", CertificateAttributeName::ExpireDate),
        ("Serial-Number", CertificateAttributeName::SerialNumber),
    ];
    for (name, field) in fields {
        let input = format!("certificate \"{name}\"");
        let mut reader = Reader::new(&input);
        assert_eq!(
            certificate_query(&mut reader).unwrap(),
            QueryValue::Certificate { space0: ws(" ", si(1, 12, 1, 13)), attribute_name: field }
        );
    }
}

#[test]
fn certificate_unknown_field_fails() {
    let mut reader = Reader::new("certificate \"Foo\"");
    let e = query(&mut reader).unwrap_err();
    assert_eq!(
        e,
        Error {
            pos: Pos::new(1, 14),
            recoverable: false,
            inner: ParseError::Expecting {
                value: "Field <Subject>, <Issuer>, <Start-Date>, <Expire-Date> or <Serial-Number>".to_string()
            },
        }
    );
}

#[test]
fn several_filters() {
    let mut reader = Reader::new(" count  toInt");
    let fs = filters(&mut reader).unwrap();
    assert_eq!(fs.len(), 2);
    assert_eq!(fs[0].1.value, FilterValue::Count);
    assert_eq!(fs[1].0, ws("  ", si(1, 7, 1, 9)));
    assert_eq!(fs[1].1.value, FilterValue::ToInt);
    assert_eq!(fs[1].1.source_info, si(1, 9, 1, 14));
}

#[test]
fn filters_stop_before_what_is_not_a_filter() {
    let mut reader = Reader::new(" == 200");
    assert_eq!(filters(&mut reader).unwrap(), vec![]);
    assert_eq!(reader.state.cursor, 0);
}

#[test]
fn template_unicode_escape() {
    let mut reader = Reader::new("header \"\\u{48}i \\u{1F600}\"");
    match header_query(&mut reader).unwrap() {
        QueryValue::Header { name, .. } => {
            assert_eq!(name.elements, vec![text("Hi 😀", "\\u{48}i \\u{1F600}")]);
        }
        _ => panic!("not a header query"),
    }
}

#[test]
fn template_unicode_escape_of_a_surrogate_fails() {
    let mut reader = Reader::new("header \"\\u{D800}\"");
    let e = header_query(&mut reader).unwrap_err();
    assert_eq!(e, Error { pos: Pos::new(1, 16), recoverable: false, inner: ParseError::Unicode });
}

#[test]
fn template_unicode_escape_needs_braces_and_digits() {
    let mut reader = Reader::new("header \"\\u48\"");
    let e = header_query(&mut reader).unwrap_err();
    assert_eq!(e, Error { pos: Pos::new(1, 11), recoverable: false, inner: ParseError::Expecting { value: "{".to_string() } });
    let mut reader = Reader::new("header \"\\u{}\"");
    let e = header_query(&mut reader).unwrap_err();
    assert_eq!(e, Error { pos: Pos::new(1, 12), recoverable: false, inner: ParseError::Unicode });
}
