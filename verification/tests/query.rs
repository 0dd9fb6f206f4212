use hurl::ast::{
    CookieAttribute, CookieAttributeName, CookiePath, Filter, FilterValue, Query, QueryValue, Template,
    TemplateElement, Whitespace,
};
use hurl::filter::filters;
use hurl::query::{cookie_query, header_query, jsonpath_query, query, xpath_query};
use hurl::reader::{Pos, Reader, SourceInfo};

#[test]
fn test_query() {
    let mut reader = Reader::new("status");
    assert_eq!(
        query(&mut reader).unwrap(),
        Query {
            source_info: SourceInfo::new(Pos::new(1, 1), Pos::new(1, 7)),
            value: QueryValue::Status,
        }
    );
}

#[test]
fn test_status_query() {
    let mut reader = Reader::new("status");
    assert_eq!(
        query(&mut reader).unwrap(),
        Query {
            source_info: SourceInfo::new(Pos::new(1, 1), Pos::new(1, 7)),
            value: QueryValue::Status,
        }
    );
}

#[test]
fn test_header_query() {
    let mut reader = Reader::new("header \"Foo\"");
    assert_eq!(
        header_query(&mut reader).unwrap(),
        QueryValue::Header {
            space0: Whitespace {
                value: String::from(" "),
                source_info: SourceInfo::new(Pos::new(1, 7), Pos::new(1, 8)),
            },
            name: Template {
                delimiter: Some('"'),
                elements: vec![TemplateElement::String {
                    value: "Foo".to_string(),
                    encoded: "Foo".to_string(),
                }],
                source_info: SourceInfo::new(Pos::new(1, 8), Pos::new(1, 13)),
            },
        }
    );
}

#[test]
fn test_cookie_query() {
    let mut reader = Reader::new("cookie \"Foo[Domain]\"");
    assert_eq!(
        cookie_query(&mut reader).unwrap(),
        QueryValue::Cookie {
            space0: Whitespace {
                value: String::from(" "),
                source_info: SourceInfo::new(Pos::new(1, 7), Pos::new(1, 8)),
            },
            expr: CookiePath {
                name: Template {
                    delimiter: None,
                    elements: vec![TemplateElement::String {
                        value: "Foo".to_string(),
                        encoded: "Foo".to_string(),
                    }],
                    source_info: SourceInfo::new(Pos::new(1, 9), Pos::new(1, 12)),
                },
                attribute: Some(CookieAttribute {
                    space0: Whitespace {
                        value: String::new(),
                        source_info: SourceInfo::new(Pos::new(1, 13), Pos::new(1, 13)),
                    },
                    name: CookieAttributeName::Domain("Domain".to_string()),
                    space1: Whitespace {
                        value: String::new(),
                        source_info: SourceInfo::new(Pos::new(1, 19), Pos::new(1, 19)),
                    },
                }),
            },
        }
    );
    assert_eq!(reader.state.cursor, 20);
}

#[test]
fn test_xpath_query() {
    let mut reader = Reader::new("xpath \"normalize-space(//head/title)\"");
    assert_eq!(
        xpath_query(&mut reader).unwrap(),
        QueryValue::Xpath {
            space0: Whitespace {
                value: String::from(" "),
                source_info: SourceInfo::new(Pos::new(1, 6), Pos::new(1, 7)),
            },
            expr: Template {
                delimiter: Some('"'),
                elements: vec![TemplateElement::String {
                    value: String::from("normalize-space(//head/title)"),
                    encoded: String::from("normalize-space(//head/title)"),
                }],
                source_info: SourceInfo::new(Pos::new(1, 7), Pos::new(1, 38)),
            },
        },
    );

    let mut reader = Reader::new("xpath \"normalize-space(//div[contains(concat(' ',normalize-space(@class),' '),' monthly-price ')])\"");
    assert_eq!(xpath_query(&mut reader).unwrap(), QueryValue::Xpath {
        space0: Whitespace { value: String::from(" "), source_info: SourceInfo::new(Pos::new(1, 6), Pos::new(1, 7)) },
        expr: Template {
            delimiter: Some('"'),
            elements: vec![
                TemplateElement::String {
                    value: String::from("normalize-space(//div[contains(concat(' ',normalize-space(@class),' '),' monthly-price ')])"),
                    encoded: String::from("normalize-space(//div[contains(concat(' ',normalize-space(@class),' '),' monthly-price ')])"),
                }
            ],
            source_info: SourceInfo::new(Pos::new(1, 7), Pos::new(1, 100)),
        },

    });
}

#[test]
fn test_jsonpath_query() {
    let mut reader = Reader::new("jsonpath \"$['statusCode']\"");
    assert_eq!(
        jsonpath_query(&mut reader).unwrap(),
        QueryValue::Jsonpath {
            space0: Whitespace {
                value: String::from(" "),
                source_info: SourceInfo::new(Pos::new(1, 9), Pos::new(1, 10)),
            },
            expr: Template {
                elements: vec![TemplateElement::String {
                    value: "$['statusCode']".to_string(),
                    encoded: "$['statusCode']".to_string(),
                }],
                delimiter: Some('"'),
                source_info: SourceInfo::new(Pos::new(1, 10), Pos::new(1, 27)),
            },
        },
    );
    let mut reader = Reader::new("jsonpath \"$.success\"");
    assert_eq!(
        jsonpath_query(&mut reader).unwrap(),
        QueryValue::Jsonpath {
            space0: Whitespace {
                value: String::from(" "),
                source_info: SourceInfo::new(Pos::new(1, 9), Pos::new(1, 10)),
            },
            expr: Template {
                elements: vec![TemplateElement::String {
                    value: "$.success".to_string(),
                    encoded: "$.success".to_string(),
                }],
                delimiter: Some('"'),
                source_info: SourceInfo::new(Pos::new(1, 10), Pos::new(1, 21)),
            },
        },
    );
}

#[test]
fn test_query_with_filters() {
    let mut reader = Reader::new("body urlDecode ");
    assert_eq!(
        query(&mut reader).unwrap(),
        Query {
            source_info: SourceInfo::new(Pos::new(1, 1), Pos::new(1, 5)),
            value: QueryValue::Body,
        }
    );
    assert_eq!(
        filters(&mut reader).unwrap(),
        vec![(
            Whitespace {
                value: " ".to_string(),
                source_info: SourceInfo::new(Pos::new(1, 5), Pos::new(1, 6))
            },
            Filter {
                source_info: SourceInfo::new(Pos::new(1, 6), Pos::new(1, 15)),
                value: FilterValue::UrlDecode,
            }
        )]
    );
    assert_eq!(reader.state.cursor, 14);
}
