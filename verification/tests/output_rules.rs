use std::str::FromStr;

use hurl::http::{Call, Header, HeaderVec, HttpVersion, Request, Response, Url};
use hurl::output::{write_last_body, OutputError, PrettyMode};
use hurl::path::ContextDir;
use hurl::reader::{Pos, SourceInfo};
use hurl::runner::{EntryResult, FileWrite, HurlResult, Output, RunnerError, RunnerErrorKind};
use hurl::term::{Stdout, WriteMode};

fn response(version: HttpVersion, status: u32, headers: HeaderVec, body: &[u8]) -> Response {
    Response {
        version,
        status,
        headers,
        body: body.to_vec(),
        duration: Default::default(),
        url: Url::from_str("http://localhost").unwrap(),
        certificate: None,
        ip_addr: Default::default(),
    }
}

fn call(response: Response) -> Call {
    Call {
        request: Request {
            url: Url::from_str("http://localhost").unwrap(),
            method: "GET".to_string(),
            headers: HeaderVec::new(),
            body: vec![],
        },
        response,
        timings: Default::default(),
    }
}

fn result_with(calls: Vec<Call>) -> HurlResult {
    HurlResult {
        entries: vec![EntryResult { calls, ..Default::default() }],
        success: true,
        ..Default::default()
    }
}

#[test]
fn output_new_dash_is_stdout() {
    assert_eq!(Output::new("-"), Output::Stdout);
    assert_eq!(Output::new("out.txt"), Output::File("out.txt".to_string()));
    assert_eq!(Output::new("--"), Output::File("--".to_string()));
}

#[test]
fn output_to_string_gives_back_its_name() {
    for name in ["-", "out.txt", "", "dir/file"] {
        assert_eq!(Output::new(name).to_string(), name);
    }
}

#[test]
fn try_with_keeps_stdout() {
    let ctx = ContextDir::new("/tmp", "/tmp/root");
    let source_info = SourceInfo::new(Pos::new(1, 1), Pos::new(1, 2));
    assert_eq!(Output::Stdout.try_with(&ctx, source_info), Ok(Output::Stdout));
}

#[test]
fn try_with_resolves_relative_files() {
    let ctx = ContextDir::new("/tmp", "/tmp/root");
    let source_info = SourceInfo::new(Pos::new(1, 1), Pos::new(1, 2));
    assert_eq!(
        Output::new("a/b.txt").try_with(&ctx, source_info),
        Ok(Output::File("/tmp/root/a/b.txt".to_string()))
    );
    assert_eq!(
        Output::new("a/../b").try_with(&ctx, source_info),
        Ok(Output::File("/tmp/root/a/../b".to_string()))
    );
}

#[test]
fn try_with_refuses_files_outside_the_root() {
    let ctx = ContextDir::new("/tmp", "/tmp/root");
    let source_info = SourceInfo::new(Pos::new(2, 1), Pos::new(2, 5));
    let expected = |path: &str| {
        Err(RunnerError::new(
            source_info,
            RunnerErrorKind::UnauthorizedFileAccess { path: path.to_string() },
            false,
        ))
    };
    assert_eq!(Output::new("../x").try_with(&ctx, source_info), expected("../x"));
    assert_eq!(Output::new("/etc/passwd").try_with(&ctx, source_info), expected("/etc/passwd"));
    assert_eq!(Output::new("a/../../x").try_with(&ctx, source_info), expected("a/../../x"));
}

#[test]
fn context_dir_with_relative_root() {
    let ctx = ContextDir::new("/home/u", "data");
    assert_eq!(ctx.resolved_path("x.txt"), "data/x.txt");
    assert!(ctx.is_access_allowed("x.txt"));
    assert!(ctx.is_access_allowed("./x/./y"));
    assert!(!ctx.is_access_allowed("../x.txt"));
    assert!(ctx.is_access_allowed("/home/u/data/x.txt"));
}

#[test]
fn context_dir_with_empty_root() {
    let ctx = ContextDir::new("/a", "");
    assert_eq!(ctx.resolved_path("f"), "f");
    assert!(ctx.is_access_allowed("f"));
    assert!(!ctx.is_access_allowed("../f"));
}

#[test]
fn runner_error_texts() {
    let source_info = SourceInfo::new(Pos::new(3, 1), Pos::new(3, 9));
    let e = RunnerError::new(
        source_info,
        RunnerErrorKind::UnauthorizedFileAccess { path: "../x".to_string() },
        false,
    );
    assert_eq!(e.description(), "Unauthorized file access");
    assert_eq!(e.fixme(), "unauthorized access to file ../x, check --file-root option");
    let out = OutputError::from(e.clone());
    assert_eq!(out.0, e);
    assert_eq!(out.source_info(), source_info);
    assert_eq!(out.description(), "Unauthorized file access");
    assert_eq!(out.fixme(&[]), "unauthorized access to file ../x, check --file-root option");

    let w = RunnerError::new(
        source_info,
        RunnerErrorKind::FileWriteAccess { path: "out.bin".to_string(), error: "denied".to_string() },
        false,
    );
    assert_eq!(w.description(), "File write access");
    assert_eq!(w.fixme(), "out.bin can not be written (denied)");
}

#[test]
fn write_last_body_without_entries_writes_nothing() {
    let result = HurlResult::default();
    let mut stdout = Stdout::new(WriteMode::Buffered);
    let r = write_last_body(&result, true, false, PrettyMode::Off, None, &mut stdout, false);
    assert_eq!(r, Ok(None));
    assert!(stdout.buffer().is_empty());
}

#[test]
fn write_last_body_of_entry_without_calls_writes_nothing() {
    let mut result = result_with(vec![call(response(HttpVersion::Http11, 200, HeaderVec::new(), b"first"))]);
    result.entries.push(EntryResult::default());
    let mut stdout = Stdout::new(WriteMode::Buffered);
    let r = write_last_body(&result, false, false, PrettyMode::Off, None, &mut stdout, false);
    assert_eq!(r, Ok(None));
    assert!(stdout.buffer().is_empty());
}

#[test]
fn write_last_body_without_headers_writes_the_body() {
    let mut headers = HeaderVec::new();
    headers.push(Header::new("content-type", "text/plain"));
    let result = result_with(vec![
        call(response(HttpVersion::Http11, 302, HeaderVec::new(), b"redirect")),
        call(response(HttpVersion::Http11, 200, headers, b"hello")),
    ]);
    let mut stdout = Stdout::new(WriteMode::Buffered);
    let r = write_last_body(&result, false, false, PrettyMode::Off, None, &mut stdout, false);
    assert_eq!(r, Ok(None));
    assert_eq!(stdout.buffer(), b"hello");
}

#[test]
fn write_last_body_appends_to_stdout() {
    let result = result_with(vec![call(response(HttpVersion::Http10, 0, HeaderVec::new(), b"x"))]);
    let mut stdout = Stdout::new(WriteMode::Buffered);
    stdout.write_all(b"before|");
    write_last_body(&result, true, false, PrettyMode::Off, Some(&Output::Stdout), &mut stdout, false).unwrap();
    assert_eq!(stdout.buffer(), b"before|HTTP/1.0 0\n\nx");
}

#[test]
fn write_last_body_to_file_hands_back_the_write() {
    let result = result_with(vec![call(response(HttpVersion::Http2, 404, HeaderVec::new(), b"nope"))]);
    let mut stdout = Stdout::new(WriteMode::Buffered);
    let output = Output::new("out.bin");
    let r = write_last_body(&result, true, false, PrettyMode::Off, Some(&output), &mut stdout, true);
    assert_eq!(
        r,
        Ok(Some(FileWrite { path: "out.bin".to_string(), bytes: b"HTTP/2 404\n\nnope".to_vec(), append: true }))
    );
    assert!(stdout.buffer().is_empty());
}

#[test]
fn write_last_body_immediate_mode_waits_for_the_terminal() {
    let mut headers = HeaderVec::new();
    headers.push(Header::new("x-é", "ü"));
    let result = result_with(vec![call(response(HttpVersion::Http11, 201, headers, b"{}"))]);
    let mut stdout = Stdout::new(WriteMode::Immediate);
    write_last_body(&result, true, false, PrettyMode::Off, None, &mut stdout, false).unwrap();
    assert!(stdout.buffer().is_empty());
    assert_eq!(stdout.take_pending(), "HTTP/1.1 201\nx-é: ü\n\n{}".as_bytes().to_vec());
    assert!(stdout.take_pending().is_empty());
}

#[test]
fn url_needs_http_scheme() {
    assert!(Url::from_str("https://example.org").is_ok());
    assert!(Url::from_str("ftp://example.org").is_err());
    assert_eq!(Url::from_str("http://a").unwrap().as_str(), "http://a");
}

fn written_with(pretty: PrettyMode, body: &[u8]) -> Vec<u8> {
    let result = result_with(vec![call(response(HttpVersion::Http11, 200, HeaderVec::new(), body))]);
    let mut stdout = Stdout::new(WriteMode::Buffered);
    write_last_body(&result, false, false, pretty, None, &mut stdout, false).unwrap();
    stdout.buffer().to_vec()
}

#[test]
fn write_last_body_prettifies_json() {
    let body = b"{\"a\":1,\"b\":[true, null],\"c\":{}}";
    let expected = "{\n  \"a\": 1,\n  \"b\": [\n    true,\n    null\n  ],\n  \"c\": {}\n}";
    assert_eq!(written_with(PrettyMode::Force, body), expected.as_bytes());
    assert_eq!(written_with(PrettyMode::Automatic, body), expected.as_bytes());
    assert_eq!(written_with(PrettyMode::Off, body), body.to_vec());
}

#[test]
fn write_last_body_prettify_keeps_strings() {
    let body = b"{\"k\" : \"a\\\"} [\"}";
    assert_eq!(written_with(PrettyMode::Force, body), b"{\n  \"k\": \"a\\\"} [\"\n}".to_vec());
}

#[test]
fn write_last_body_prettify_leaves_other_bodies() {
    for body in [&b"hello world"[..], b"{\"a\":1", b"[1 2]", b"<html/>", b""] {
        assert_eq!(written_with(PrettyMode::Force, body), body.to_vec());
    }
}
