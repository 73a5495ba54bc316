use rv_netshare::http::{
    build_file_header, build_partial_header, error_full, header_value, hex_val, html_full,
    json_full, mime_for_extension, mime_for_path, parse_header_line, parse_range_header, parse_request_line,
    percent_decode, plan_file_response, route, route_site_root, url_encode_filename, FilePlan,
    HeaderLine, RangeRequest, RouteTarget,
};
use rv_netshare::state::{ReceiveEncryption, ReceiveSession, ShareKind, ShareSession, SiteSession};

fn share(id: &str) -> ShareSession {
    ShareSession {
        id: id.to_string(),
        name: "root".to_string(),
        path: "/data/root".to_string(),
        kind: ShareKind::Folder,
        size: 1,
        total_bytes: 1,
        created_at: 1,
    }
}

fn site(id: &str) -> SiteSession {
    SiteSession {
        id: id.to_string(),
        name: "site".to_string(),
        path: "/data/site".to_string(),
        size: 1,
        total_bytes: 1,
        created_at: 1,
        port: 48800,
    }
}

fn receiver(id: &str, encryption: ReceiveEncryption) -> ReceiveSession {
    ReceiveSession {
        id: id.to_string(),
        name: "测试接收".to_string(),
        extensions: vec!["jpg".to_string()],
        encryption,
        custom_password: None,
        created_at: 1,
        received_count: 0,
        received_bytes: 0,
    }
}

fn text(bytes: &[u8]) -> String {
    String::from_utf8(bytes.to_vec()).unwrap()
}

#[test]
fn percent_decode_decodes_escapes() {
    assert_eq!(percent_decode("/s/abc/%E6%96%87%20a.txt"), Ok("/s/abc/文 a.txt".to_string()));
    assert_eq!(percent_decode("plain"), Ok("plain".to_string()));
}

#[test]
fn percent_decode_refuses_bad_escape() {
    assert_eq!(percent_decode("/a%zz"), Err(()));
    assert_eq!(percent_decode("%4g1"), Err(()));
}

#[test]
fn percent_decode_keeps_short_trailing_percent() {
    assert_eq!(percent_decode("100%"), Ok("100%".to_string()));
    assert_eq!(percent_decode("a%4"), Ok("a%4".to_string()));
}

#[test]
fn percent_decode_replaces_invalid_utf8() {
    assert_eq!(percent_decode("%FF"), Ok("\u{FFFD}".to_string()));
}

#[test]
fn hex_val_reads_both_cases() {
    assert_eq!(hex_val(b'0'), Some(0));
    assert_eq!(hex_val(b'9'), Some(9));
    assert_eq!(hex_val(b'a'), Some(10));
    assert_eq!(hex_val(b'F'), Some(15));
    assert_eq!(hex_val(b'g'), None);
}

#[test]
fn url_encode_filename_escapes_reserved_bytes() {
    assert_eq!(url_encode_filename("a b-c_d.txt"), "a%20b-c_d.txt");
    assert_eq!(url_encode_filename("文"), "%E6%96%87");
}

#[test]
fn encoded_filename_decodes_back() {
    for name in ["报告 (1).pdf", "a+b&c=d", "plain.txt", "%41"] {
        let encoded = url_encode_filename(name);
        assert_eq!(percent_decode(&encoded), Ok(name.to_string()));
    }
}

#[test]
fn mime_types_follow_extension() {
    assert_eq!(mime_for_extension(Some("html")), "text/html; charset=utf-8");
    assert_eq!(mime_for_extension(Some("CSS")), "text/css; charset=utf-8");
    assert_eq!(mime_for_extension(Some("js")), "application/javascript; charset=utf-8");
    assert_eq!(mime_for_extension(Some("zip")), "application/zip");
    assert_eq!(mime_for_extension(Some("exe")), "application/octet-stream");
    assert_eq!(mime_for_extension(None), "application/octet-stream");
}

#[test]
fn range_whole_when_missing_or_not_bytes() {
    assert_eq!(parse_range_header(None, 100), RangeRequest::Whole);
    assert_eq!(parse_range_header(Some("items=0-5"), 100), RangeRequest::Whole);
    assert_eq!(parse_range_header(Some("bytes=abc"), 100), RangeRequest::Whole);
    assert_eq!(parse_range_header(Some("bytes=9-3"), 100), RangeRequest::Whole);
}

#[test]
fn range_bytes_forms() {
    assert_eq!(parse_range_header(Some("bytes=0-9"), 100), RangeRequest::Bytes(0, Some(9)));
    assert_eq!(parse_range_header(Some(" BYTES=10- "), 100), RangeRequest::Bytes(10, None));
    assert_eq!(parse_range_header(Some("bytes=-30"), 100), RangeRequest::Bytes(70, Some(99)));
    assert_eq!(parse_range_header(Some("bytes=-300"), 100), RangeRequest::Bytes(0, Some(99)));
    assert_eq!(parse_range_header(Some("bytes=90-500"), 100), RangeRequest::Bytes(90, Some(99)));
    assert_eq!(parse_range_header(Some("bytes=5-6,8-9"), 100), RangeRequest::Bytes(5, Some(6)));
}

#[test]
fn range_unsatisfiable() {
    assert_eq!(parse_range_header(Some("bytes=100-"), 100), RangeRequest::Unsatisfiable);
    assert_eq!(parse_range_header(Some("bytes=-0"), 100), RangeRequest::Unsatisfiable);
    assert_eq!(parse_range_header(Some("bytes=0-"), 0), RangeRequest::Unsatisfiable);
}

#[test]
fn file_header_with_attachment() {
    let h = text(&build_file_header("application/zip", 3, "archive.zip", true));
    assert_eq!(
        h,
        "HTTP/1.1 200 OK\r\nContent-Type: application/zip\r\nContent-Length: 3\r\nContent-Disposition: attachment; filename*=UTF-8''archive.zip\r\nAccept-Ranges: bytes\r\nConnection: close\r\n\r\n"
    );
}

#[test]
fn file_header_inline_has_no_disposition() {
    let h = text(&build_file_header("text/html; charset=utf-8", 13, "index.html", false));
    assert!(h.contains("200 OK"));
    assert!(h.contains("Content-Type: text/html; charset=utf-8"));
    assert!(!h.contains("Content-Disposition"));
}

#[test]
fn partial_header_states_range() {
    let h = text(&build_partial_header("image/png", 10, "a.png", 0, 9, 100, true));
    assert!(h.starts_with("HTTP/1.1 206 Partial Content\r\n"));
    assert!(h.contains("Content-Length: 10\r\n"));
    assert!(h.contains("Content-Range: bytes 0-9/100\r\n"));
    assert!(h.contains("Content-Disposition: attachment; filename*=UTF-8''a.png\r\n"));
}

#[test]
fn plan_streams_whole_file() {
    match plan_file_response(5, "text/plain; charset=utf-8", "readme.txt", None, true) {
        FilePlan::Stream { header, start, length } => {
            assert_eq!(start, 0);
            assert_eq!(length, 5);
            assert!(text(&header).contains("Content-Length: 5"));
        }
        FilePlan::Full(_) => panic!("expected a stream"),
    }
}

#[test]
fn plan_streams_requested_range() {
    match plan_file_response(100, "image/png", "a.png", Some("bytes=10-19"), false) {
        FilePlan::Stream { header, start, length } => {
            assert_eq!(start, 10);
            assert_eq!(length, 10);
            assert!(text(&header).contains("Content-Range: bytes 10-19/100"));
        }
        FilePlan::Full(_) => panic!("expected a stream"),
    }
}

#[test]
fn plan_answers_416_for_bad_range() {
    match plan_file_response(100, "image/png", "a.png", Some("bytes=200-"), false) {
        FilePlan::Full(bytes) => {
            let t = text(&bytes);
            assert!(t.starts_with("HTTP/1.1 416 Range Not Satisfiable\r\nContent-Range: bytes */100\r\n"));
            assert!(t.contains("请求的范围无效"));
        }
        FilePlan::Stream { .. } => panic!("expected a full response"),
    }
}

#[test]
fn html_full_counts_body_bytes() {
    let r = text(&html_full(200, "<p>é</p>"));
    assert_eq!(
        r,
        "HTTP/1.1 200 OK\r\nContent-Type: text/html; charset=utf-8\r\nContent-Length: 9\r\nCache-Control: no-store\r\nConnection: close\r\n\r\n<p>é</p>"
    );
}

#[test]
fn error_full_wraps_error_page() {
    let r = text(&error_full(404, "Not Found", "页面不存在"));
    assert!(r.starts_with("HTTP/1.1 404 Not Found\r\nContent-Type: text/html; charset=utf-8\r\nContent-Length: "));
    assert!(r.contains("<h1>404 Not Found</h1>"));
    assert!(r.contains("页面不存在"));
}

#[test]
fn json_full_writes_sorted_keys() {
    let r = text(&json_full(403, false, "密码错误"));
    assert_eq!(
        r,
        "HTTP/1.1 403 Forbidden\r\nContent-Type: application/json; charset=utf-8\r\nContent-Length: 37\r\nCache-Control: no-store\r\nConnection: close\r\n\r\n{\"message\":\"密码错误\",\"ok\":false}"
    );
}

#[test]
fn json_full_escapes_message() {
    let r = text(&json_full(200, true, "a \"b\"\n"));
    assert!(r.ends_with("{\"message\":\"a \\\"b\\\"\\n\",\"ok\":true}"));
    let other = text(&json_full(418, false, "x"));
    assert!(other.starts_with("HTTP/1.1 418 Error\r\n"));
}

#[test]
fn request_line_defaults() {
    assert_eq!(parse_request_line("GET /s/abc HTTP/1.1"), ("GET".to_string(), "/s/abc".to_string()));
    assert_eq!(parse_request_line("  POST   /r/x/upload  "), ("POST".to_string(), "/r/x/upload".to_string()));
    assert_eq!(parse_request_line(""), ("GET".to_string(), "/".to_string()));
    assert_eq!(parse_request_line("HEAD"), ("HEAD".to_string(), "/".to_string()));
}

#[test]
fn header_lines_split_at_colon() {
    match parse_header_line("Range:  bytes=0-1 \r\n") {
        HeaderLine::Field(name, value) => {
            assert_eq!(name, "Range");
            assert_eq!(value, "bytes=0-1");
        }
        other => panic!("unexpected {other:?}"),
    }
    assert!(matches!(parse_header_line("\r\n"), HeaderLine::End));
    assert!(matches!(parse_header_line("no colon here"), HeaderLine::Ignored));
}

#[test]
fn header_lookup_ignores_case() {
    let headers = vec![
        ("Content-Length".to_string(), "12".to_string()),
        ("X-File-Name".to_string(), "a.txt".to_string()),
    ];
    assert_eq!(header_value(&headers, "content-length"), Some("12".to_string()));
    assert_eq!(header_value(&headers, "x-file-name"), Some("a.txt".to_string()));
    assert_eq!(header_value(&headers, "range"), None);
}

#[test]
fn route_index_and_methods() {
    let shares = vec![share("abc")];
    assert!(matches!(route("GET", "/", &shares, &[], &[]), Ok(RouteTarget::Index)));
    assert!(matches!(route("HEAD", "/?x=1", &shares, &[], &[]), Ok(RouteTarget::Index)));
    let f = route("POST", "/s/abc", &shares, &[], &[]).unwrap_err();
    assert_eq!((f.code, f.reason, f.message), (405, "Method Not Allowed", "仅支持 GET / HEAD 请求"));
    let f = route("GET", "/s/%zz", &shares, &[], &[]).unwrap_err();
    assert_eq!((f.code, f.message), (400, "无效的 URL 地址"));
}

#[test]
fn route_shares_with_subpath() {
    let shares = vec![share("zzz"), share("abc")];
    match route("GET", "/s/abc/docs/a%20b.txt", &shares, &[], &[]) {
        Ok(RouteTarget::Share { index, subpath }) => {
            assert_eq!(index, 1);
            assert_eq!(subpath, "docs/a b.txt");
        }
        other => panic!("unexpected {other:?}"),
    }
    match route("GET", "/s/abc/", &shares, &[], &[]) {
        Ok(RouteTarget::Share { index, subpath }) => {
            assert_eq!(index, 1);
            assert_eq!(subpath, "");
        }
        other => panic!("unexpected {other:?}"),
    }
}

#[test]
fn route_failures() {
    let shares = vec![share("abc")];
    let f = route("GET", "/s/", &shares, &[], &[]).unwrap_err();
    assert_eq!((f.code, f.message), (400, "缺少分享 ID"));
    let f = route("GET", "/s/nope", &shares, &[], &[]).unwrap_err();
    assert_eq!((f.code, f.message), (404, "分享不存在或已停止"));
    let f = route("GET", "/x/abc", &shares, &[], &[]).unwrap_err();
    assert_eq!((f.code, f.message), (404, "页面不存在"));
    let f = route("GET", "/w/", &shares, &[], &[]).unwrap_err();
    assert_eq!((f.code, f.message), (400, "缺少站点 ID"));
    let f = route("GET", "/w/none", &shares, &[], &[]).unwrap_err();
    assert_eq!((f.code, f.message), (404, "站点不存在或已移除"));
}

#[test]
fn route_sites_and_receive_pages() {
    let sites = vec![site("web")];
    match route("GET", "/w/web/app/", &[], &sites, &[]) {
        Ok(RouteTarget::Site { index, subpath }) => {
            assert_eq!(index, 0);
            assert_eq!(subpath, "app/");
        }
        other => panic!("unexpected {other:?}"),
    }
    let receivers = vec![receiver("open", ReceiveEncryption::Unencrypted), receiver("recv1", ReceiveEncryption::Common)];
    assert!(matches!(
        route("GET", "/r/recv1", &[], &[], &receivers),
        Ok(RouteTarget::ReceivePage { index: 1, password_required: true })
    ));
    assert!(matches!(
        route("GET", "/r/open/", &[], &[], &receivers),
        Ok(RouteTarget::ReceivePage { index: 0, password_required: false })
    ));
    let f = route("GET", "/r/recv1/more", &[], &[], &receivers).unwrap_err();
    assert_eq!((f.code, f.message), (404, "页面不存在"));
    let f = route("GET", "/r/gone", &[], &[], &receivers).unwrap_err();
    assert_eq!((f.code, f.message), (404, "接收卡片不存在或已删除"));
}

#[test]
fn site_root_routing() {
    assert_eq!(route_site_root("GET", "/").unwrap(), "");
    assert_eq!(route_site_root("GET", "/assets/app.js?v=2").unwrap(), "assets/app.js");
    let f = route_site_root("PUT", "/").unwrap_err();
    assert_eq!(f.code, 405);
    let f = route_site_root("GET", "/%q1").unwrap_err();
    assert_eq!(f.code, 400);
}

#[test]
fn mime_types_follow_the_path() {
    assert_eq!(mime_for_path("dir/A.PNG"), "image/png");
    assert_eq!(mime_for_path("/srv/site/index.html"), "text/html; charset=utf-8");
    assert_eq!(mime_for_path("Makefile"), "application/octet-stream");
}
