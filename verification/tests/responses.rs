//! What is sent and what is made of what comes back: redirects, attempts,
//! encodings, cookies and sessions.

use reader_parser::crawler::cookies::{find_cookie, split_cookie_header, CookieJar};
use reader_parser::crawler::fetch::HttpClient;
use reader_parser::crawler::http::{timeouts, within_limit, HttpClientError};
use reader_parser::crawler::response::{decode_body, detect_auth_challenge, FetchError, RawResponse};
use reader_parser::crawler::session::{end_cookies, ActiveSession, ExecuteSession};
use reader_parser::crawler::session_cache::{plan_client, ClientPlan, SessionCache};
use reader_parser::crawler::url_rule::Method;
use reader_parser::eval::{merge_search_results, without_nul};
use reader_parser::executor::pages::{apply_replace_rules, content_path_base, should_follow_content_page};
use reader_parser::ext::json::{json_equal, json_to_text, read_json, Json};
use reader_parser::model::book_source::BookSource;
use reader_parser::model::replace_rule::ReplaceRule;
use reader_parser::model::search::SearchBook;
use reader_parser::parser::java_codec;
use reader_parser::parser::java_net::split_ajax_spec;
use reader_parser::parser::java_state::ScriptCache;
use reader_parser::parser::java_time::{
    has_short_fraction, java_date_pattern_to_chrono, java_time_format_utc, time_in_seconds,
};
use reader_parser::parser::script::{Host, Transport, Wire};
use std::cell::RefCell;
use std::rc::Rc;

fn encode(text: &str, label: &str) -> Vec<u8> {
    let encoding = encoding_rs::Encoding::for_label(label.as_bytes()).unwrap();
    let (bytes, _, had_errors) = encoding.encode(text);
    assert!(!had_errors, "test sample must be representable in {label}");
    bytes.into_owned()
}

#[test]
fn decodes_utf8_without_declaration() {
    let text = "Hello, 世界";
    assert_eq!(decode_body(&text.as_bytes().to_vec(), None, None), text);
}

#[test]
fn decodes_utf8_bom_without_returning_bom() {
    let mut bytes = vec![0xEF, 0xBB, 0xBF];
    bytes.extend_from_slice("你好".as_bytes());
    assert_eq!(decode_body(&bytes, None, None), "你好");
}

#[test]
fn decodes_utf16_bom() {
    let text = "Hello 世界";
    let mut bytes = vec![0xFF, 0xFE];
    bytes.extend(text.encode_utf16().flat_map(u16::to_le_bytes));
    assert_eq!(decode_body(&bytes, None, None), text);
}

#[test]
fn decodes_utf16be_bom() {
    let text = "Hello 世界";
    let mut bytes = vec![0xFE, 0xFF];
    bytes.extend(text.encode_utf16().flat_map(u16::to_be_bytes));
    assert_eq!(decode_body(&bytes, None, None), text);
}

#[test]
fn decodes_gbk_from_http_charset() {
    let bytes = encode("中文页面", "gbk");
    assert_eq!(
        decode_body(&bytes, None, Some("text/html; charset=gbk")),
        "中文页面"
    );
}

#[test]
fn decodes_gbk_from_html_meta_charset() {
    let text = "这是中文页面";
    let mut bytes = b"<meta charset=gbk><title>".to_vec();
    bytes.extend(encode(text, "gbk"));
    bytes.extend_from_slice(b"</title>");
    let decoded = decode_body(&bytes, None, None);
    assert!(decoded.contains(text));
    assert!(!decoded.contains('\u{FFFD}'));
}

#[test]
fn recovers_when_http_mislabels_gbk_as_utf8() {
    let bytes = encode("错误声明也能正确解码", "gbk");
    let decoded = decode_body(&bytes, None, Some("text/html; charset=utf-8"));
    assert_eq!(decoded, "错误声明也能正确解码");
    assert!(!decoded.contains('\u{FFFD}'));
}

#[test]
fn detects_big5_without_declaration() {
    let text = "繁體中文網頁內容測試，這是一段較長的文字，用來辨識 Big5 編碼。".repeat(4);
    let bytes = encode(&text, "big5");
    let decoded = decode_body(&bytes, None, None);
    assert_eq!(decoded, text);
    assert!(!decoded.contains('\u{FFFD}'));
}

#[test]
fn detects_shift_jis_without_declaration() {
    let text = "日本語の文章です。文字コードを検出するための長めのテストです。".repeat(4);
    let bytes = encode(&text, "shift_jis");
    let decoded = decode_body(&bytes, None, None);
    assert_eq!(decoded, text);
    assert!(!decoded.contains('\u{FFFD}'));
}

#[test]
fn explicit_url_charset_overrides_http_charset() {
    let text = "日本語の内容";
    let bytes = encode(text, "shift_jis");
    assert_eq!(
        decode_body(&bytes, Some("shift_jis"), Some("text/html; charset=gbk")),
        text
    );
}

#[test]
fn ascii_is_unchanged() {
    let text = b"plain ASCII content";
    assert_eq!(decode_body(&text.to_vec(), None, None).as_bytes(), text);
}

#[test]
fn test_cookie_store() {
    let mut cookies = CookieJar::new();
    let url = "https://example.com";
    cookies.add_set_cookies(&vec!["token=12345; Path=/".to_string()], url);
    assert_eq!(
        cookies.get_cookie_header(url),
        Some("token=12345".to_string())
    );
    assert_eq!(cookies.get_cookie_header("no address"), None);
}

#[test]
fn cookie_headers_are_split_into_cookies() {
    assert_eq!(
        split_cookie_header(" a=1; Path=/x; b = 2 ;c; =3; Secure; d=e=f"),
        vec!["a=1; Path=/", "b=2; Path=/", "d=e=f; Path=/"]
    );
    assert_eq!(find_cookie("a=1; b=c=d", " b "), Some("c=d".to_string()));
    assert_eq!(find_cookie("a=1", "b"), None);
    assert_eq!(
        end_cookies("sid=1", "/a/b"),
        vec![
            "sid=; Max-Age=0; Path=/",
            "sid=; Max-Age=0; Path=/a",
            "sid=; Max-Age=0; Path=/a/b"
        ]
    );
}

fn value(text: &str) -> Json {
    read_json(text).unwrap()
}

fn no_session() -> ExecuteSession {
    ExecuteSession { cookies: None, header: None, variables: None }
}

fn variable(session: &ExecuteSession, name: &str) -> Option<String> {
    session
        .variables
        .as_ref()
        .and_then(|v| v.iter().find(|(key, _)| key == name))
        .map(|(_, v)| json_to_text(v))
}

#[test]
fn test_session_lifecycle_and_delta() {
    let source_url = "https://example.com/books";
    let initial = ExecuteSession {
        cookies: Some("uid=100".to_string()),
        header: Some(value(r#"{"User-Agent": "Test"}"#)),
        variables: None,
    };

    let session = ActiveSession::new(Some(&initial), source_url);
    assert_eq!(
        session.get_cookie("https://example.com"),
        Some("uid=100".to_string())
    );
    assert!(session.extract_delta().is_none());

    let mut session = ActiveSession::new(Some(&initial), source_url);
    session.set_variable("token", value("\"xyz789\""));
    let delta = session.extract_delta();
    assert!(delta.is_some());
    let delta = delta.unwrap();
    assert_eq!(variable(&delta, "token").as_deref(), Some("\"xyz789\""));

    let mut session = ActiveSession::new(None, source_url);
    session.put_login_header(value(r#"{"Cookie": "sess=new_sess_token"}"#));
    assert_eq!(
        session.get_cookie("https://example.com"),
        Some("sess=new_sess_token".to_string())
    );
    let delta = session.extract_delta();
    assert!(delta.is_some());
    let delta = delta.unwrap();
    assert_eq!(delta.cookies, Some("sess=new_sess_token".to_string()));

    let initial = ExecuteSession {
        cookies: Some("sid=clear_me".to_string()),
        header: Some(value(r#"{"Cookie": "sid=clear_me"}"#)),
        variables: None,
    };
    let mut session = ActiveSession::new(Some(&initial), source_url);
    assert_eq!(
        session.get_cookie(source_url),
        Some("sid=clear_me".to_string())
    );
    session.remove_login_header();
    assert_eq!(session.get_cookie(source_url), None);
    let delta = session.extract_delta().expect("removing the login state must emit a session delta");
    assert_eq!(delta.cookies, None);
    assert!(delta.header.is_none());
}

#[test]
fn variables_are_read_back_and_removed() {
    let mut session = ActiveSession::new(None, "https://example.com");
    session.set_variable("token", value("1"));
    assert_eq!(session.get_variable("token").map(|v| json_to_text(&v)).as_deref(), Some("1"));
    assert_eq!(session.get_variable("").map(|v| json_to_text(&v)).as_deref(), Some("1"));
    session.set_variable("other", value("2"));
    assert_eq!(session.get_variable("").map(|v| json_to_text(&v)).as_deref(), Some("1"));
    session.set_variable("", value("3"));
    assert_eq!(session.get_variable("sourceVariable").map(|v| json_to_text(&v)).as_deref(), Some("3"));
    session.set_variable_exact("exact", value("4"));
    session.remove_variable("");
    assert!(session.get_variable("").is_none());
    assert_eq!(session.get_variable("exact").map(|v| json_to_text(&v)).as_deref(), Some("4"));
    session.remove_variable("exact");
    assert!(session.get_variable("exact").is_none());
}

#[test]
fn a_session_in_another_order_is_the_same() {
    let initial = ExecuteSession {
        variables: Some(vec![("a".to_string(), value("1")), ("b".to_string(), value(r#"{"x":1,"y":2}"#))]),
        ..no_session()
    };
    let mut session = ActiveSession::new(Some(&initial), "https://example.com");
    session.remove_variable("a");
    session.set_variable_exact("a", value("1"));
    session.set_variable_exact("b", value(r#"{"y":2,"x":1}"#));
    assert!(session.extract_delta().is_none());
    assert!(!json_equal(&value("[1,2]"), &value("[2,1]")));
}

#[test]
fn targets_stand_for_addresses() {
    let session = ActiveSession::new(None, "https://example.com/books");
    let href = |target: &str| session.resolve_url(target).map(|u| u.href);
    assert_eq!(href("").as_deref(), Some("https://example.com/books"));
    assert_eq!(href("other.example").as_deref(), Some("https://other.example/"));
    assert_eq!(href("http://a.example/x").as_deref(), Some("http://a.example/x"));
    assert_eq!(href("http://").as_deref(), None);
    assert_eq!(href("/ /").as_deref(), Some("https://example.com/books"));
    assert_eq!(session.source_url(), "https://example.com/books");
}

/// A site in this process.
struct Site {
    answer: Box<dyn FnMut(&Wire) -> Result<RawResponse, HttpClientError>>,
}

impl Transport for Site {
    fn send(&mut self, wire: &Wire) -> Result<RawResponse, HttpClientError> {
        (self.answer)(wire)
    }
}

fn response(url: &str, status: u16, headers: &[(&str, &str)], body: &[u8]) -> RawResponse {
    RawResponse {
        url: url.to_string(),
        status,
        headers: headers.iter().map(|(n, v)| (n.to_string(), Some(v.to_string()))).collect(),
        body: body.to_vec(),
    }
}

fn client(cookies: bool) -> HttpClient {
    HttpClient { cookies, timeout_ms: 2000, proxy: None }
}

fn pair(name: &str, value: &str) -> (String, String) {
    (name.to_string(), value.to_string())
}

#[test]
fn follows_redirects_and_carries_set_cookie() {
    let mut host = Host::new(Site {
        answer: Box::new(|wire| {
            if wire.url.ends_with("/start") {
                Ok(response(
                    &wire.url,
                    302,
                    &[("location", "/final"), ("set-cookie", "sid=redirect; Path=/")],
                    b"",
                ))
            } else {
                assert!(wire.headers.iter().any(|(n, v)| n == "cookie" && v.contains("sid=redirect")));
                Ok(response(&wire.url, 200, &[], b"done"))
            }
        }),
    });
    let response = client(true)
        .execute(Method::Get, "http://site.example/start", &vec![], None, Some(1024), &mut host)
        .unwrap();

    assert_eq!(response.status, 200);
    assert_eq!(response.url, "http://site.example/final");
    assert_eq!(response.body, b"done");
    assert_eq!(
        host.cookies("http://site.example/").as_deref(),
        Some("sid=redirect")
    );
}

#[test]
fn keeps_http_error_response_for_caller() {
    let mut host = Host::new(Site {
        answer: Box::new(|wire| Ok(response(&wire.url, 403, &[("content-type", "text/plain")], b"forbidden"))),
    });
    let response = client(false)
        .execute(Method::Get, "http://site.example/", &vec![], None, Some(1024), &mut host)
        .unwrap();

    assert_eq!(response.status, 403);
    assert_eq!(response.body, b"forbidden");
}

#[test]
fn redirects_elsewhere_lose_credentials_and_end() {
    let sent = Rc::new(RefCell::new(Vec::new()));
    let log = sent.clone();
    let mut host = Host::new(Site {
        answer: Box::new(move |wire| {
            log.borrow_mut().push((wire.method, wire.headers.clone(), wire.body.clone()));
            Ok(response(&wire.url, 303, &[("location", "http://other.example/next")], b""))
        }),
    });
    let headers = vec![pair("Authorization", "secret"), pair("Content-Type", "text/plain"), pair("X-Kept", "1")];
    let error = client(true)
        .execute(Method::Post, "http://site.example/", &headers, Some("body"), None, &mut host)
        .unwrap_err();
    assert!(matches!(&error, HttpClientError::Network(m) if m == "too many redirects (maximum 5)"));
    assert_eq!(error.to_text(), "too many redirects (maximum 5)");
    let sent = sent.borrow();
    assert_eq!(sent.len(), 6);
    assert_eq!(sent[0].0, Method::Post);
    assert_eq!(sent[0].1.len(), 3);
    assert_eq!(sent[0].2.as_deref(), Some("body"));
    assert_eq!(sent[1].0, Method::Get);
    assert_eq!(sent[1].1, vec![pair("x-kept", "1")]);
    assert_eq!(sent[1].2, None);
}

#[test]
fn requests_that_cannot_be_sent_are_refused() {
    let mut host = Host::new(Site {
        answer: Box::new(|wire| Ok(response(&wire.url, 302, &[("location", "ftp://x.example/")], b""))),
    });
    let mut send = |url: &str, headers: Vec<(String, String)>| {
        client(false).execute(Method::Get, url, &headers, None, None, &mut host).unwrap_err()
    };
    assert!(matches!(send("nothing", vec![]), HttpClientError::InvalidUrl(_)));
    assert!(matches!(
        send("ftp://x.example/", vec![]),
        HttpClientError::InvalidUrl(m) if m == "unsupported URL scheme: ftp"
    ));
    assert!(matches!(
        send("http://x.example/", vec![pair("a b", "1")]),
        HttpClientError::Network(m) if m == "invalid HTTP header name"
    ));
    assert!(matches!(
        send("http://x.example/", vec![pair("a", "1\n2")]),
        HttpClientError::Network(m) if m == "failed to parse header value"
    ));
    assert!(matches!(send("http://x.example/", vec![]), HttpClientError::InvalidUrl(_)));
    assert!(within_limit(vec![1, 2], Some(1), "u").is_err());
    assert_eq!(within_limit(vec![1, 2], Some(2), "u").unwrap(), vec![1, 2]);
    assert_eq!(timeouts(0), (1, 1));
    assert_eq!(timeouts(9000), (9000, 5000));
}

#[test]
fn challenges_are_told_by_their_marks() {
    let kind = |status: u16, headers: &[(&str, &str)], body: &str| -> Option<(String, String)> {
        let raw = response("http://a.example/", status, headers, b"");
        match detect_auth_challenge(status, &raw.headers, body, "http://a.example/") {
            Some(FetchError::AuthChallenge { kind, mode, .. }) => Some((kind, mode)),
            _ => None,
        }
    };
    assert_eq!(kind(200, &[], "text"), None);
    assert_eq!(kind(200, &[("cf-mitigated", "Challenge")], ""), Some(pair("waf_challenge", "cloudflare")));
    assert_eq!(kind(200, &[], "<title>Just a moment..."), Some(pair("waf_challenge", "cloudflare")));
    assert_eq!(kind(200, &[], "geetest"), Some(pair("waf_challenge", "captcha")));
    assert_eq!(kind(200, &[("server", "cloudflare")], ""), None);
    assert_eq!(kind(401, &[], ""), Some(pair("auth_required", "form")));
    assert_eq!(kind(403, &[], ""), Some(pair("auth_required", "form")));
}

#[test]
fn kept_clients_are_found_until_they_expire_or_are_too_many() {
    let mut cache: SessionCache<u32> = SessionCache::new();
    for n in 0..33 {
        assert_eq!(cache.find(&format!("k{n}"), 0), None);
        cache.put(&format!("k{n}"), n, 0);
    }
    assert_eq!(cache.find("k0", 1), None);
    let at = cache.find("k1", 1).unwrap();
    assert_eq!(*cache.client(at), 1);
    assert_eq!(cache.find("k2", 1200000), None);
    assert_eq!(cache.find("k1", 1200000), Some(0));

    let source = BookSource { book_source_url: "https://a.test".to_string(), ..Default::default() };
    assert!(matches!(plan_client(&source, 0, false), ClientPlan::Kept { key } if key == "https://a.test\u{1f}1"));
    assert!(matches!(plan_client(&source, 0, true), ClientPlan::Own { cookies: true }));
    let plain = BookSource { enabled_cookie_jar: Some(false), ..source };
    assert!(matches!(plan_client(&plain, 0, false), ClientPlan::Own { cookies: false }));
}

#[test]
fn further_pages_are_told_from_chapters() {
    let follows = |next: &str| {
        should_follow_content_page("https://a.test/book/1.html", "https://a.test/book/1.html", next)
    };
    assert!(follows("https://a.test/book/1-2.html"));
    assert!(follows("https://a.test/book/1.html?page=2"));
    assert!(!follows("https://a.test/book/2.html"));
    assert!(!follows("https://a.test/book/1.html#top"));
    assert!(!follows("https://b.test/book/1-2.html"));
    assert!(!follows("no address"));
    assert_eq!(content_path_base("/a/b-12.html", true), "/a/b");
    assert_eq!(content_path_base("/a/b-12.html", false), "/a/b-12");
    assert_eq!(content_path_base("b-x.y", true), "b-x");
}

#[test]
fn replacements_apply_in_order() {
    let rule = |regex: bool, pattern: &str, replacement: &str| ReplaceRule {
        is_enabled: true,
        is_regex: regex,
        pattern: pattern.to_string(),
        replacement: replacement.to_string(),
    };
    assert_eq!(apply_replace_rules("abc", &vec![rule(false, "", "-")]), "-a-b-c-");
    assert_eq!(
        apply_replace_rules("a1b", &vec![rule(true, r"\d", "b"), rule(false, "bb", "x")]),
        "ax"
    );
    assert_eq!(apply_replace_rules("a1b", &vec![rule(true, r"##\d##y", "y")]), "ayb");
}

#[test]
fn books_of_one_name_and_author_are_merged() {
    let book = |name: &str, origin: &str| SearchBook {
        name: name.to_string(),
        author: "A".to_string(),
        origin: origin.to_string(),
        ..Default::default()
    };
    let merged = merge_search_results(&vec![book("x", "1"), book("y", "1"), book("x", "2"), book("x", "1")]);
    assert_eq!(merged.len(), 2);
    assert_eq!(merged[0].name, "x");
    assert_eq!(merged[0].book_source_urls, Some(vec!["1".to_string(), "2".to_string()]));
    assert_eq!(merged[1].book_source_urls, Some(vec!["1".to_string()]));
    assert_eq!(without_nul("a\0b"), "a\\u0000b");
}

#[test]
fn encodings_of_scripts() {
    assert_eq!(java_codec::md5_encode("reader"), "1de9b0a30075ae8c303eb420c103c320");
    assert_eq!(java_codec::md5_to_16("reader"), "0075ae8c303eb420");
    assert_eq!(java_codec::java_base64_encode("reader"), "cmVhZGVy");
    assert_eq!(java_codec::java_base64_decode("cmVhZGU", None), "reade");
    assert_eq!(java_codec::java_base64_decode("*", None), "");
    assert_eq!(java_codec::java_base64_encode_bytes("[-1,255,256]", 8 | 1), "__8A");
    assert_eq!(java_codec::java_base64_decode_bytes(" __ 8A ", 8), "[255,255,0]");
    assert_eq!(java_codec::json_byte_array("[1,2.5]"), Vec::<u8>::new());
    assert_eq!(
        java_codec::java_hmac_bytes("HmacSHA256", "[]", "[]").split(',').count(),
        32
    );
    assert_eq!(java_codec::java_hmac_bytes("HmacMD5", "[]", "[]"), "[]");
    assert_eq!(java_codec::java_escape("a b中😀"), "a%20b%u4E2D%u1F600");
    assert_eq!(java_codec::java_unescape("a%20b%u4E2D%zz%u12"), "a b中%zz\u{12}");
    assert_eq!(java_codec::hex_decode(" 00fF "), vec![0, 255]);
    assert_eq!(java_codec::hex_decode("0"), Vec::<u8>::new());
    assert_eq!(java_codec::hex_decode_to_string("726561646572"), "reader");
    assert_eq!(java_codec::java_ungzip(&java_codec::java_gzip("阅读")), "阅读");
    assert_ne!(java_codec::java_gzip("阅读"), "阅读");
    assert_eq!(java_codec::java_ungzip("cmVhZGVy"), "");
    assert_eq!(java_codec::java_encode_uri("中文", Some("gbk")), "%D6%D0%CE%C4");
    assert_eq!(java_codec::java_encode_uri_component("a/b"), "a%2Fb");
    assert_eq!(java_codec::java_decode_uri("a%2Fb"), "a/b");
}

#[test]
fn what_is_encrypted_is_decrypted() {
    let (key, iv) = ("0123456789abcdef", "fedcba9876543210");
    let cipher = "AES/CBC/PKCS5Padding";
    let text = java_codec::java_aes_base64_encode("正文", key, cipher, iv);
    assert_ne!(text, "");
    assert_eq!(java_codec::java_aes_base64_decode_to_string(&text, key, cipher, iv), "正文");
    assert_eq!(java_codec::java_aes_base64_encode("正文", "short", cipher, iv), "");
    assert_eq!(java_codec::java_aes_base64_encode("正文", key, "DES", iv), "");
    assert_eq!(java_codec::java_aes_encode("正文", key, cipher, iv).len(), 32);
    assert_eq!(java_codec::java_aes_decrypt_bytes(r#"{"mode":1}"#), "");
}

#[test]
fn times_are_written_by_patterns() {
    assert_eq!(java_date_pattern_to_chrono("yyyy-MM-dd'T'HH:mm"), "%Y-%m-%dT%H:%M");
    assert_eq!(java_date_pattern_to_chrono("d 'o''clock' %"), "%-d o'clock %%");
    assert_eq!(java_time_format_utc(0, "yyyy-MM-dd HH:mm:ss.SSS", 28800000), "1970-01-01 08:00:00.000");
    assert_eq!(java_time_format_utc(0, "yyyy", 999999999999), "");
    assert!(has_short_fraction("ss.S"));
    assert!(!has_short_fraction("'S' ss.SSS"));
    assert_eq!(time_in_seconds(1700000000000), 1700000000);
    assert_eq!(time_in_seconds(1700000000), 1700000000);
}

#[test]
fn the_cache_of_scripts_expires() {
    let mut cache = ScriptCache::new();
    cache.put("a", "1".to_string(), Some(2), 1000);
    cache.put("b", "2".to_string(), None, 1000);
    assert_eq!(cache.get("a", 2999).as_deref(), Some("1"));
    assert_eq!(cache.get("a", 3000), None);
    assert_eq!(cache.get("b", 1000000).as_deref(), Some("2"));
    cache.put("b", "3".to_string(), Some(0), 0);
    assert_eq!(cache.get("b", 5).as_deref(), Some("3"));
    assert!(cache.delete("b"));
    assert!(!cache.delete("b"));
}

#[test]
fn the_text_of_a_request_is_split_at_its_options() {
    assert_eq!(
        split_ajax_spec(r#"http://a/?q=[1,2], {"method":"POST"} "#),
        ("http://a/?q=[1,2]".to_string(), Some(r#"{"method":"POST"}"#.to_string()))
    );
    assert_eq!(split_ajax_spec(r#"http://a/"x,y""#), (r#"http://a/"x,y""#.to_string(), None));
}
