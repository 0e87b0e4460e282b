use vial::addr::SocketAddress;
use vial::compression::{compression_from, AcceptedEncoding, Compression};
use vial::form::decode_form_value;
use vial::request::Request;
use vial::span::Span;

/// Locates `part` in `raw`, searching from `from`.
fn span_of(raw: &str, part: &str, from: usize) -> Span {
    let start = raw[from..].find(part).unwrap() + from;
    Span(start, start + part.len())
}

/// A request whose headers are given as (name, value) pairs, laid out in a
/// raw buffer the way the parser leaves them.
fn request_with_headers(method: &str, path: &str, headers: &[(&str, &str)], body: &str) -> Request {
    let mut raw = format!("{} {} HTTP/1.1\r\n", method, path);
    let mut spans = vec![];
    for (n, v) in headers {
        let ns = raw.len();
        raw.push_str(n);
        let ne = raw.len();
        raw.push_str(": ");
        let vs = raw.len();
        raw.push_str(v);
        let ve = raw.len();
        raw.push_str("\r\n");
        spans.push((Span(ns, ne), Span(vs, ve)));
    }
    raw.push_str("\r\n");
    let bs = raw.len();
    raw.push_str(body);
    let be = raw.len();
    let m = span_of(&raw, method, 0);
    let p = span_of(&raw, path, m.1);
    Request::new(m, p, spans, Span(bs, be), raw.into_bytes())
}

#[test]
fn span_new_is_empty() {
    let s = Span::new();
    assert_eq!(s, Span(0, 0));
    assert!(s.is_empty());
    assert!(!Span(1, 3).is_empty());
    assert_eq!(Span::default(), Span(0, 0));
}

#[test]
fn span_from_buf_cases() {
    let buf = b"GET /caf\xc3\xa9 HTTP/1.1";
    assert_eq!(Span(0, 3).from_buf(buf), "GET");
    assert_eq!(Span(4, 10).from_buf(buf), "/caf\u{e9}");
    assert_eq!(Span(2, 2).from_buf(buf), "");
    // Cuts a two-byte character in half: not UTF-8.
    assert_eq!(Span(4, 9).from_buf(buf), "?");
    // Reaches past the end, or runs backwards.
    assert_eq!(Span(4, 100).from_buf(buf), "?");
    assert_eq!(Span(5, 4).from_buf(buf), "?");
}

#[test]
fn default_request_is_empty() {
    let r = Request::default();
    assert_eq!(r.path(), "");
    assert_eq!(r.full_path(), "");
    assert_eq!(r.method(), "");
    assert_eq!(r.body(), "");
    assert!(r.headers().is_empty());
    assert_eq!(r.header("Host"), None);
    assert_eq!(*r.remote_addr(), SocketAddress::V4 { octets: [127, 0, 0, 1], port: 0 });
}

#[test]
fn path_stops_at_query() {
    let r = Request::from_path("/names/peter?x=1&y=2");
    assert_eq!(r.path(), "/names/peter");
    assert_eq!(r.full_path(), "/names/peter?x=1&y=2");
    let r = Request::from_path("/plain");
    assert_eq!(r.path(), "/plain");
    let r = Request::from_path("?only");
    assert_eq!(r.path(), "");
}

#[test]
fn query_values() {
    let r = Request::from_path("/search?q=rust&lang=en&empty=&q=again&flag");
    assert_eq!(r.query("q"), Some("rust"));
    assert_eq!(r.query("lang"), Some("en"));
    assert_eq!(r.query("empty"), Some(""));
    assert_eq!(r.query("flag"), None);
    assert_eq!(r.query("la"), None);
    assert_eq!(r.query("missing"), None);
    assert!(r.has_query("lang"));
    assert!(!r.has_query("nope"));
    let r = Request::from_path("/no-query");
    assert_eq!(r.query("q"), None);
    assert!(!r.has_query("q"));
}

#[test]
fn set_path_body_method_read_back() {
    let r = Request::default()
        .with_method("POST")
        .with_path("/submit?id=7")
        .with_body("name=ann");
    assert_eq!(r.method(), "POST");
    assert_eq!(r.path(), "/submit");
    assert_eq!(r.full_path(), "/submit?id=7");
    assert_eq!(r.body(), "name=ann");
    let mut r = r;
    r.set_path("/other");
    r.set_method("PUT");
    r.set_body("x");
    assert_eq!(r.path(), "/other");
    assert_eq!(r.method(), "PUT");
    assert_eq!(r.body(), "x");
}

#[test]
fn args_set_and_get() {
    let mut r = Request::from_path("/names/peter");
    assert_eq!(r.arg("name"), None);
    r.set_arg("name".to_string(), "peter".to_string());
    assert_eq!(r.arg("name"), Some("peter"));
    r.set_arg("name".to_string(), "paul".to_string());
    assert_eq!(r.arg("name"), Some("paul"));
    assert_eq!(r.arg("other"), None);
}

#[test]
fn form_set_and_get() {
    let mut r = Request::default();
    assert!(!r.has_form("a"));
    r.set_form("a", "1");
    assert!(r.has_form("a"));
    assert_eq!(r.form("a"), Some("1"));
    r.set_form("a", "2");
    assert_eq!(r.form("a"), Some("2"));
}

#[test]
fn parse_form_decodes_body() {
    let mut r = Request::default()
        .with_body("content=hi+there&licenseID=1234&paramsXML=%3Cabc%3E%3C%2Fabc%3E&flag&dup=1&dup=2");
    r.parse_form();
    assert_eq!(r.form("content"), Some("hi there"));
    assert_eq!(r.form("licenseID"), Some("1234"));
    assert_eq!(r.form("paramsXML"), Some("<abc></abc>"));
    assert_eq!(r.form("flag"), Some(""));
    assert_eq!(r.form("dup"), Some("2"));
    assert_eq!(r.form("something"), None);
}

#[test]
fn decode_form_value_cases() {
    assert_eq!(decode_form_value("hi+there"), "hi there");
    assert_eq!(decode_form_value("%3Cb%3e"), "<b>");
    assert_eq!(decode_form_value("caf%C3%A9"), "caf\u{e9}");
    assert_eq!(decode_form_value("a\r\nb"), "ab");
    assert_eq!(decode_form_value("100%"), "");
    assert_eq!(decode_form_value("%4"), "");
    assert_eq!(decode_form_value("%zz"), "");
    assert_eq!(decode_form_value("%FF"), "");
    assert_eq!(decode_form_value(""), "");
}

#[test]
fn header_lookup() {
    let r = request_with_headers(
        "GET",
        "/",
        &[
            ("Host", "www.codecademy.com"),
            ("Accept", "image/gif"),
            ("ACCEPT", "image/jpeg  "),
            ("User-Agent", "Mozilla/4.0"),
            ("Accept-Language", "en-us"),
            ("Content-Type", "text/plain"),
            ("DNT", "1"),
        ],
        "",
    );
    assert_eq!(r.header("Host").unwrap(), "www.codecademy.com");
    assert_eq!(r.header("host").unwrap(), "www.codecademy.com");
    assert_eq!(r.header("accept").unwrap(), "image/gif, image/jpeg");
    assert_eq!(r.header_lowercase("accept").unwrap(), "image/gif, image/jpeg");
    assert_eq!(r.header_lowercase("Accept"), None);
    assert_eq!(r.header("X-Missing"), None);
    assert_eq!(r.user_agent(), Some("Mozilla/4.0".to_string()));
    assert_eq!(r.accept_language(), Some("en-us".to_string()));
    assert_eq!(r.content_type(), Some("text/plain".to_string()));
    assert!(r.do_not_track());
    let r = request_with_headers("GET", "/", &[("DNT", "0")], "");
    assert!(!r.do_not_track());
    assert_eq!(r.user_agent(), None);
}

#[test]
fn from_parsed_reads_form_and_cookies() {
    let r = request_with_headers(
        "POST",
        "/cgi-bin/process.cgi",
        &[("Content-Length", "31"), ("Cookie", "session=abc; theme=dark")],
        "content=hi+there&licenseID=1234",
    );
    let r = Request::from_parsed(r);
    assert_eq!(r.form("content"), Some("hi there"));
    assert_eq!(r.form("licenseID"), Some("1234"));
    assert_eq!(r.cookie("session"), Some("abc"));
    assert_eq!(r.cookie("theme"), Some("dark"));
    assert_eq!(r.cookie("missing"), None);
}

#[test]
fn from_parsed_without_length_keeps_form() {
    let r = request_with_headers("POST", "/", &[], "a=1");
    let r = Request::from_parsed(r);
    assert_eq!(r.form("a"), None);
    assert_eq!(r.cookie("a"), None);
}

#[test]
fn add_parsed_cookies_appends() {
    let mut r = Request::default();
    r.add_parsed_cookies(Some(vec![("a".to_string(), "1".to_string())]));
    r.add_parsed_cookies(None);
    r.add_parsed_cookies(Some(vec![("a".to_string(), "2".to_string())]));
    assert_eq!(r.cookie("a"), Some("1"));
}

#[test]
fn compression_from_header() {
    let r = request_with_headers("GET", "/", &[("Accept-Encoding", "gzip, deflate, br")], "");
    assert_eq!(r.compression(), Some(Compression::Gzip));
    let r = request_with_headers("GET", "/", &[("Accept-Encoding", "gzip;q=0.5, deflate;q=0.9, br;q=1.0")], "");
    assert_eq!(r.compression(), Some(Compression::Brotli));
    let r = request_with_headers("GET", "/", &[("Accept-Encoding", "identity")], "");
    assert_eq!(r.compression(), None);
    let r = request_with_headers("GET", "/", &[], "");
    assert_eq!(r.compression(), None);
}

#[test]
fn compression_from_choice() {
    assert_eq!(compression_from(Some(Some(AcceptedEncoding::Zstd))), Some(Compression::Zstd));
    assert_eq!(compression_from(Some(Some(AcceptedEncoding::Deflate))), Some(Compression::Deflate));
    assert_eq!(compression_from(Some(Some(AcceptedEncoding::Identity))), None);
    assert_eq!(compression_from(Some(None)), None);
    assert_eq!(compression_from(None), None);
}

#[test]
fn remote_addr_set_and_get() {
    let mut r = Request::default();
    let a = SocketAddress::V6 { segments: [0, 0, 0, 0, 0, 0, 0, 1], port: 8080, flowinfo: 0, scope_id: 0 };
    r.set_remote_addr(a);
    assert_eq!(*r.remote_addr(), a);
}

#[test]
fn header_name_case_forms_agree() {
    let r = request_with_headers("GET", "/", &[("Host", "x"), ("user-agent", "curl")], "");
    assert_eq!(r.header("Host"), Some("x".to_string()));
    assert_eq!(r.header("HOST"), r.header("Host"));
    assert_eq!(r.header("host"), r.header("Host"));
    assert_eq!(r.header("hOsT"), r.header("Host"));
    assert_eq!(r.user_agent(), Some("curl".to_string()));
    assert_eq!(r.header("USER-AGENT"), Some("curl".to_string()));
}

#[test]
fn with_path_and_set_path_agree() {
    let a = request_with_headers("POST", "/a", &[("Host", "h")], "k=v");
    let mut b = request_with_headers("POST", "/a", &[("Host", "h")], "k=v");
    let a = a.with_path("/new?q=1");
    b.set_path("/new?q=1");
    assert_eq!(a.full_path(), "/new?q=1");
    assert_eq!(a.full_path(), b.full_path());
    assert_eq!(a.path(), "/new");
    assert_eq!(a.path(), b.path());
    assert_eq!(a.method(), b.method());
    assert_eq!(a.body(), b.body());
    assert_eq!(a.header("host"), b.header("host"));
    assert_eq!(a.header_texts(), b.header_texts());
}
