//! What holds of several calls together, on given values.

use reader_parser::crawler::cookies::{split_cookie_header, CookieJar};
use reader_parser::crawler::response::{judge_text, FetchError, RawResponse};
use reader_parser::crawler::session::{ActiveSession, ExecuteSession};
use reader_parser::crawler::sessions::Sessions;
use reader_parser::executor::pages::page_beside;
use reader_parser::ext::json::{json_to_text, read_json, Json};
use reader_parser::ext::regexes::{Found, Matches};
use reader_parser::ext::urls::UrlParts;
use reader_parser::parser::context::{parse_variable_map, serialize_variable_map, Variables};
use reader_parser::parser::html::{quote_unquoted_colon_attribute_values, resolve_indices, IndexItem};
use reader_parser::parser::java_codec;
use reader_parser::parser::java_state::set_source_variable;
use reader_parser::parser::js::with_js_lib;
use reader_parser::parser::jsonpath::{jsonpath_query, open_arrays, render_found};
use reader_parser::parser::markup::{clean_html, format_keep_img, html_to_text, keep_basic_tags, replace_entities, tidy};
use reader_parser::parser::path_guard::path_may_abort;
use reader_parser::parser::source_rule::{fill_placeholders, normalize_list_rule};
use reader_parser::crawler::url_rule::make_choices;
use reader_parser::parser::script::Host;
use reader_parser::parser::xpath::select_xpath;
use reader_parser::util::address::resolve_url;
use reader_parser::util::text::{normalize_source_url, repair_encoded_url, strip_whitespace};

fn header_set(header: Option<String>) -> Vec<String> {
    let mut parts: Vec<String> = header.unwrap_or_default().split("; ").map(|p| p.to_string()).collect();
    parts.sort();
    parts
}

fn found(before: &str, groups: &[Option<&str>]) -> Found {
    Found {
        before: before.to_string(),
        groups: groups.iter().map(|g| g.map(|t| t.to_string())).collect(),
    }
}

fn matches(found: Vec<Found>, tail: &str) -> Matches {
    Matches { found, tail: tail.to_string() }
}

fn json(text: &str) -> Json {
    read_json(text).ok().unwrap()
}

#[test]
fn cookies_that_were_set_are_sent_and_no_others() {
    let mut jar = CookieJar::new();
    let url = "https://books.example.com/a/b";
    assert_eq!(jar.get_cookie_header(url), None);
    jar.add_cookie_header("sid=1", url);
    assert_eq!(jar.get_cookie_header("https://books.example.com/c"), Some("sid=1".to_string()));
    assert_eq!(jar.get_cookie_header("https://other.example.com/"), None);
    jar.add_cookie_header("lang=zh", url);
    assert_eq!(header_set(jar.get_cookie_header(url)), vec!["lang=zh", "sid=1"]);
    jar.add_cookie_header("sid=2", url);
    assert_eq!(header_set(jar.get_cookie_header(url)), vec!["lang=zh", "sid=2"]);
}

#[test]
fn a_cookie_header_sets_the_cookies_that_it_was_written_from() {
    let url = "https://example.com/";
    let mut jar = CookieJar::new();
    jar.add_cookie_header("a=1; b=2", url);
    let mut texts = split_cookie_header(&jar.get_cookie_header(url).unwrap());
    texts.sort();
    assert_eq!(texts, vec!["a=1; Path=/", "b=2; Path=/"]);
}

#[test]
fn a_session_that_is_handed_on_has_the_same_cookies() {
    let url = "https://example.com/";
    let mut first = ActiveSession::new(None, url);
    first.set_cookie("", "token=abc");
    let out = first.extract_delta().unwrap();
    assert_eq!(out.cookies, Some("token=abc".to_string()));
    let second = ActiveSession::new(Some(&out), url);
    assert_eq!(second.get_cookie(""), Some("token=abc".to_string()));
    assert_eq!(second.get_cookie_key("", "token"), Some("abc".to_string()));
    assert!(second.extract_delta().is_none());
}

#[test]
fn a_session_that_was_only_started_hands_nothing_out() {
    let url = "https://example.com";
    let header = json("{\"Cookie\": \"sid=1\"}");
    let session = ExecuteSession { cookies: None, header: Some(header), variables: None };
    assert!(ActiveSession::new(Some(&session), url).extract_delta().is_none());
    let two = ExecuteSession { cookies: Some("b=2;a=1".to_string()), header: None, variables: None };
    let mut started = ActiveSession::new(Some(&two), url);
    assert!(started.extract_delta().is_none());
    started.set_cookie("", "c=3");
    assert!(started.extract_delta().is_some());
    assert!(ActiveSession::new(None, url).extract_delta().is_none());
}

#[test]
fn scripts_set_variables_by_name_or_that_of_the_source() {
    let none = ExecuteSession { cookies: None, header: None, variables: None };
    let mut session = ActiveSession::new(Some(&none), "https://example.com");
    assert_eq!(set_source_variable(&mut session, "k", Some("v")), "v");
    assert_eq!(json_to_text(&session.get_variable("k").unwrap()), "\"v\"");
    assert_eq!(set_source_variable(&mut session, "whole", None), "whole");
    assert_eq!(json_to_text(&session.get_variable("").unwrap()), "\"whole\"");
    assert_eq!(json_to_text(&session.get_variable("k").unwrap()), "\"v\"");
}

#[test]
fn variables_are_written_and_read_back() {
    let mut map = Variables::new();
    map.insert("a".to_string(), "1".to_string());
    map.insert("b".to_string(), "\"two\"\n".to_string());
    map.insert("a".to_string(), "3".to_string());
    let text = serialize_variable_map(&Some(map)).unwrap();
    let back = parse_variable_map(Some(text.as_str()));
    assert_eq!(back.get("a"), Some("3".to_string()));
    assert_eq!(back.get("b"), Some("\"two\"\n".to_string()));
    assert_eq!(back.get("c"), None);
}

#[test]
fn index_lists_name_every_position_once() {
    let items = vec![
        IndexItem::Single(1),
        IndexItem::Range { start: Some(0), end: Some(2), step: 1 },
        IndexItem::Single(-1),
        IndexItem::Single(9),
    ];
    assert_eq!(resolve_indices(5, &items), vec![1, 0, 2, 4]);
}

#[test]
fn tidy_texts_and_addresses_stay_as_they_are() {
    let once = tidy("  a \n\n\t b\u{3000}\n   \n c");
    assert_eq!(once, "a\nb\nc");
    assert_eq!(tidy(&once), once);
    let url = normalize_source_url(" \u{1}https://a.b/c\u{2} ");
    assert_eq!(url, "https://a.b/c");
    assert_eq!(normalize_source_url(&url), url);
    assert_eq!(resolve_url("https://x.y/z", &url), url);
    assert_eq!(resolve_url("https://x.y/z/", "q?p=1"), "https://x.y/z/q?p=1");
}

#[test]
fn texts_are_read_back_from_what_scripts_make_of_them() {
    let text = "书 & <b>";
    assert_eq!(java_codec::java_base64_decode(&java_codec::java_base64_encode(text), None), text);
    let bytes = java_codec::java_str_to_bytes(text, None);
    assert_eq!(bytes, text.as_bytes());
    assert_eq!(java_codec::java_bytes_to_str(&bytes, None), text);
    let gbk = java_codec::java_str_to_bytes("书", Some("gbk"));
    assert_eq!(gbk, vec![0xca, 0xe9]);
    assert_eq!(java_codec::java_bytes_to_str(&gbk, Some("gbk")), "书");
    assert_eq!(java_codec::java_ungzip(&java_codec::java_gzip(text)), text);
}

#[test]
fn what_was_found_is_replaced_in_its_place() {
    let entities = matches(
        vec![
            found("a", &[Some("&#x42;"), Some("42"), None]),
            found("-", &[Some("&#67;"), None, Some("67")]),
            found("-", &[Some("&#xD800;"), Some("D800"), None]),
        ],
        "!",
    );
    assert_eq!(replace_entities(&entities), "aB-C-&#xD800;!");
    let tags = matches(vec![found("", &[Some("<P>")]), found("x", &[Some("<a>")]), found("", &[Some("</P>")])], "y");
    assert_eq!(keep_basic_tags(&tags), "<P>x</P>y");
    let choices = matches(vec![found("/list", &[Some("<, _1,_2,_3>"), Some(", _1,_2,_3")])], ".html");
    assert_eq!(make_choices(&choices, 1), "/list_1.html");
    assert_eq!(make_choices(&choices, 2), "/list_2.html");
    assert_eq!(make_choices(&choices, 9), "/list_3.html");
    let row = vec![Some("whole".to_string()), Some("one".to_string()), None];
    let places = matches(vec![found("", &[Some("$1"), Some("1")]), found("/", &[Some("$7"), Some("7")])], "");
    assert_eq!(fill_placeholders(&places, &row), "one/$7");
}

#[test]
fn what_paths_select_is_opened_and_written() {
    let values = vec![json("[1,[2]]"), json("\"t\"")];
    let opened: Vec<String> = open_arrays(&values).iter().map(json_to_text).collect();
    assert_eq!(opened, vec!["1", "[2]", "\"t\""]);
    let rule = matches(vec![found("/b/", &[Some("{{$.id}}"), Some("$.id"), None])], ".html");
    assert_eq!(render_found(&json("{\"id\":7}"), &rule), Some("/b/7.html".to_string()));
    assert_eq!(render_found(&json("{}"), &matches(Vec::new(), "x")), None);
}

#[test]
fn paths_that_cannot_be_evaluated_select_nothing() {
    let value = json("{\"a\":[{\"n\":1},{\"n\":2}],\"lim\":1,\"x:y:0\":7}");
    let query = |path: &str| -> Vec<String> { jsonpath_query(&value, path).iter().map(json_to_text).collect() };
    for path in [
        "$.a[0:2:0]",
        "$.a[::+0]",
        "$.a[?(@.n == 1e999)]",
        "$.a[?(@.n == 1.e999)]",
        "$.a[?(@.n == -inf)]",
        "$.a[?(@.n[0] == 1)]",
        "$.a[?($.lim == 1)]",
        "$.a[?('x','y' == 1)]",
        "$.it's[?(@.n[0:1])]",
    ] {
        assert!(path_may_abort(path), "{path}");
        assert!(query(path).is_empty(), "{path}");
    }
    assert_eq!(query("$.a[0:2:1].n"), vec!["1", "2"]);
    assert_eq!(query("$.a[?(@.n == 1e0)].n"), vec!["1"]);
    assert_eq!(query("$.a[?(@.n == $.lim)].n"), vec!["1"]);
    assert_eq!(query("$.a[?(@.n == 2 && @.n > 1)].n"), vec!["2"]);
    assert_eq!(query("$['x:y:0']"), vec!["7"]);
    assert_eq!(query("$.lim:y:0 "), vec!["1"]);
}

#[test]
fn stripped_texts_keep_their_words() {
    let once = strip_whitespace(" a\u{3000}b \n c ");
    assert_eq!(once, "a b c");
    assert_eq!(strip_whitespace(&once), once);
    let url = repair_encoded_url(" https://a.b/c%3Fd%3De%26f%23g ");
    assert_eq!(url, "https://a.b/c?d=e&f#g");
    assert_eq!(repair_encoded_url(&url), url);
    assert_eq!(repair_encoded_url("https://a.b/c%23d"), "https://a.b/c%23d");
}

#[test]
fn values_are_put_in_quotes_once() {
    let quoted = quote_unquoted_colon_attribute_values("a[href=http://x] b[c='d:e']").unwrap();
    assert_eq!(quoted, "a[href=\"http://x\"] b[c='d:e']");
    assert_eq!(quote_unquoted_colon_attribute_values(&quoted), None);
    assert_eq!(quote_unquoted_colon_attribute_values("a[href=x]"), None);

    let quoted = quote_unquoted_colon_attribute_values("[\\\"\"=a:b \"]").unwrap();
    assert_eq!(quote_unquoted_colon_attribute_values(&quoted), None);
    let freed = quote_unquoted_colon_attribute_values("[\\\"\"=a:][x=c:d] \"]").unwrap();
    assert!(quote_unquoted_colon_attribute_values(&freed).is_some());
}

#[test]
fn cleaned_markup_has_basic_tags_only() {
    let once = clean_html("<><P class=x>a<a href=y>b</a></P><<i>c>d<br/><script>e</script>");
    assert_eq!(once, "<><P>ab</P>c>d<br>");
    assert_eq!(clean_html(&once), once);
    assert_eq!(clean_html("a < b <p>c</p> <h1>d</h1> > e"), "a c</p> <h1>d</h1> > e");
    for text in ["", "no tags", "<p>a</p><br>", "a <> b", "1 > 2", "<UL><Li>x</LI></ul>"] {
        assert_eq!(clean_html(text), text);
    }
}

#[test]
fn variables_of_a_session_are_read_back_while_it_lasts() {
    let mut sessions = Sessions::new();
    sessions.set_variable("k", &json("1"));
    assert!(sessions.get_variable("k").is_none());
    assert!(sessions.take_active().is_none());

    sessions.begin(None, "https://outer.example");
    sessions.set_variable("k", &json("1"));
    sessions.begin(None, "https://inner.example");
    assert!(sessions.get_variable("k").is_none());
    sessions.set_variable("k", &json("2"));
    assert_eq!(json_to_text(&sessions.get_variable("k").unwrap()), "2");
    let inner = sessions.end().unwrap();
    assert_eq!(json_to_text(&inner.variables.unwrap()[0].1), "2");
    assert_eq!(json_to_text(&sessions.get_variable("k").unwrap()), "1");
    let outer = sessions.end().unwrap();
    assert_eq!(json_to_text(&outer.variables.unwrap()[0].1), "1");
    assert!(sessions.end().is_none());
}

#[test]
fn cookies_are_those_of_the_session_in_use() {
    let url = "https://example.com/";
    let mut sessions = Sessions::new();
    sessions.keep_cookies(url, &vec!["out=1".to_string()]);
    assert_eq!(sessions.cookies(url).as_deref(), Some("out=1"));

    let given = ExecuteSession { cookies: Some("in=2".to_string()), header: None, variables: None };
    sessions.begin(Some(&given), url);
    assert_eq!(sessions.cookies(url).as_deref(), Some("in=2"));
    assert!(sessions.end().is_none());

    sessions.begin(Some(&given), url);
    sessions.keep_cookies(url, &vec!["in=3".to_string()]);
    assert_eq!(sessions.end().unwrap().cookies.as_deref(), Some("in=3"));
    assert_eq!(sessions.cookies(url).as_deref(), Some("out=1"));
}

#[test]
fn a_session_has_its_login_header() {
    let header = json("{\"Authorization\":\"x\"}");
    let given = ExecuteSession { cookies: None, header: Some(header), variables: None };
    let mut sessions = Sessions::new();
    assert!(sessions.get_login_header().is_none());
    sessions.begin(Some(&given), "https://example.com");
    assert_eq!(json_to_text(&sessions.get_login_header().unwrap()), "{\"Authorization\":\"x\"}");
    let active = sessions.take_active().unwrap();
    assert!(sessions.get_login_header().is_none());
    sessions.put_active(active);
    assert!(sessions.get_login_header().is_some());
    assert!(sessions.end().is_none());
}

#[test]
fn the_library_of_scripts_is_put_back() {
    let mut host = Host::new(());
    host.swap_lib(Some("outer".to_string()));
    let inside = with_js_lib(
        Some("inner"),
        |host: &mut Host<()>| {
            let deeper = with_js_lib(None, |host: &mut Host<()>| host.use_lib(Some("left")), host);
            (deeper, host.swap_lib(None))
        },
        &mut host,
    );
    assert_eq!(inside, (None, Some("inner".to_string())));
    assert_eq!(host.swap_lib(None), Some("outer".to_string()));
}

#[test]
fn markup_without_images_is_read_alike() {
    let page = "<p>a</p><!-- <img src=x> --><div> b &amp; c </div>";
    assert_eq!(html_to_text(page), "a\nb & c");
    assert_eq!(format_keep_img(page, "https://a.b/"), html_to_text(page));
}

#[test]
fn a_sign_turns_the_order_of_a_list() {
    assert_eq!(normalize_list_rule(" - .item "), (".item".to_string(), true));
    assert_eq!(normalize_list_rule("+.item"), (".item".to_string(), false));
    assert_eq!(normalize_list_rule(".item"), (".item".to_string(), false));
}

#[test]
fn the_text_of_an_element_is_that_below_it() {
    assert_eq!(
        select_xpath("<?xml version=\"1.0\"?><a>x<!--no--><b>y<c>z</c></b>w</a>", "//a", &mut Host::new(())),
        vec!["xyzw"]
    );
}

#[test]
fn responses_are_judged_by_their_text_and_status() {
    let response = |status: u16| RawResponse {
        url: "https://example.com/".to_string(),
        status,
        headers: vec![("content-type".to_string(), Some("text/html".to_string()))],
        body: b"page".to_vec(),
    };
    let page = judge_text(response(200), "page".to_string(), None).ok().unwrap();
    assert_eq!(page.body, "page");
    assert!(matches!(
        judge_text(response(404), "page".to_string(), None),
        Err(FetchError::HttpStatus { status: 404, .. })
    ));
}

fn address(host: &str, path: &str) -> UrlParts {
    UrlParts {
        href: format!("https://{host}{path}"),
        scheme: "https".to_string(),
        host: Some(host.to_string()),
        port: Some(443),
        path: path.to_string(),
        query: None,
    }
}

#[test]
fn pages_stand_beside_their_chapter() {
    let chapter = address("a.b", "/book/12.html");
    let page = address("a.b", "/book/12-2.html");
    assert!(page_beside(&chapter, &chapter, &page));
    assert!(!page_beside(&chapter, &chapter, &address("a.b", "/book/13.html")));
    assert!(!page_beside(&chapter, &chapter, &address("c.d", "/book/12-2.html")));
}
