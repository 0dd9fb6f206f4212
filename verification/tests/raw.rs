use std::str::FromStr;
use std::time::Duration;

use hurl::http::{Call, Header, HeaderVec, HttpVersion, Request, Response, Url};
use hurl::output::{write_last_body, PrettyMode};
use hurl::reader::{Pos, SourceInfo};
use hurl::runner::{EntryResult, HurlResult, Index, Output};
use hurl::term::{Stdout, WriteMode};

fn default_response() -> Response {
    Response {
        version: HttpVersion::Http10,
        status: 200,
        headers: HeaderVec::new(),
        body: vec![],
        duration: Default::default(),
        url: Url::from_str("http://localhost").unwrap(),
        certificate: None,
        ip_addr: Default::default(),
    }
}

fn hurl_result_json() -> HurlResult {
    let mut headers = HeaderVec::new();
    headers.push(Header::new("x-foo", "xxx"));
    headers.push(Header::new("x-bar", "yyy0"));
    headers.push(Header::new("x-bar", "yyy1"));
    headers.push(Header::new("x-bar", "yyy2"));
    headers.push(Header::new("x-baz", "zzz"));

    HurlResult {
        entries: vec![
            EntryResult {
                entry_index: Index::new(1),
                source_info: SourceInfo::new(Pos::new(0, 0), Pos::new(0, 0)),
                calls: vec![Call {
                    request: Request {
                        url: Url::from_str("https://foo.com").unwrap(),
                        method: "GET".to_string(),
                        headers: HeaderVec::new(),
                        body: vec![],
                    },
                    response: default_response(),
                    timings: Default::default(),
                }],
                ..Default::default()
            },
            EntryResult {
                entry_index: Index::new(2),
                source_info: SourceInfo::new(Pos::new(0, 0), Pos::new(0, 0)),
                calls: vec![Call {
                    request: Request {
                        url: Url::from_str("https://bar.com").unwrap(),
                        method: "GET".to_string(),
                        headers: HeaderVec::new(),
                        body: vec![],
                    },
                    response: default_response(),
                    timings: Default::default(),
                }],
                ..Default::default()
            },
            EntryResult {
                entry_index: Index::new(3),
                source_info: SourceInfo::new(Pos::new(0, 0), Pos::new(0, 0)),
                calls: vec![Call {
                    request: Request {
                        url: Url::from_str("https://baz.com").unwrap(),
                        method: "GET".to_string(),
                        headers: HeaderVec::new(),
                        body: vec![],
                    },
                    response: Response {
                        version: HttpVersion::Http3,
                        status: 204,
                        headers,
                        body: b"{\"say\": \"Hello World!\"}".into(),
                        duration: Default::default(),
                        url: Url::from_str("https://baz.com").unwrap(),
                        certificate: None,
                        ip_addr: Default::default(),
                    },
                    timings: Default::default(),
                }],
                ..Default::default()
            },
        ],
        duration: Duration::from_millis(100),
        success: true,
        ..Default::default()
    }
}

#[test]
fn write_last_body_with_headers() {
    let result = hurl_result_json();
    let include_header = true;
    let color = false;
    let pretty = PrettyMode::Off;
    let output = Some(Output::Stdout);
    let mut stdout = Stdout::new(WriteMode::Buffered);

    write_last_body(
        &result,
        include_header,
        color,
        pretty,
        output.as_ref(),
        &mut stdout,
        true,
    )
    .unwrap();
    let stdout = String::from_utf8(stdout.buffer().to_vec()).unwrap();
    assert_eq!(
        stdout,
        "HTTP/3 204\n\
         x-foo: xxx\n\
         x-bar: yyy0\n\
         x-bar: yyy1\n\
         x-bar: yyy2\n\
         x-baz: zzz\n\
         \n\
         {\"say\": \"Hello World!\"}"
    );
}
