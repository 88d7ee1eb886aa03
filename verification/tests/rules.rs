use reader_parser::ext::json::{json_to_text, read_json, Json};
use reader_parser::parser::jsonpath::{
    has_unsupported_filter_selector, jsonpath_first_string, jsonpath_query, render_embedded_paths,
};
use reader_parser::parser::rule_analyzer::{interleave_result_groups, split_top_level};
use reader_parser::parser::source_regex::{
    captures_all, captures_first, find_all, is_full_match, is_valid, replace_all, replace_first_match,
};
use reader_parser::util::text::{apply_regex_replace, normalize_source_url, repair_encoded_url, strip_whitespace};

fn value(text: &str) -> Json {
    read_json(text).unwrap()
}

/// The values that a path selects, as JSON.
fn query(value: &Json, rule: &str) -> Vec<String> {
    jsonpath_query(value, rule).iter().map(json_to_text).collect()
}

#[test]
fn compat_jsonpath_direct_and_embedded_values() {
    let value = value(r#"{"data":{"name":"书名","author":"作者"}}"#);
    assert_eq!(
        jsonpath_first_string(&value, "$.data.name"),
        Some("书名".into())
    );
    assert_eq!(
        jsonpath_first_string(&value, "data.name"),
        Some("书名".into())
    );
    assert_eq!(
        jsonpath_first_string(&value, "作者：{$.data.author}"),
        Some("作者：作者".into())
    );
}

#[test]
fn test_render_embedded_paths_double_and_single_braces() {
    let value = value(
        r#"{
        "data": {
            "Content": [{
                "Content": ["第一行\n第二行"]
            }]
        },
        "index": 1
    }"#,
    );
    let rule_double = "<p>{{$.data.Content[0].Content}}</p>";
    assert_eq!(
        jsonpath_first_string(&value, rule_double),
        Some("<p>第一行\n第二行</p>".to_string())
    );
    let rule_single = "第{$.index}章";
    assert_eq!(
        jsonpath_first_string(&value, rule_single),
        Some("第1章".to_string())
    );
    let rule_spaces = "{{ $.data.Content[0].Content }}";
    assert_eq!(
        jsonpath_first_string(&value, rule_spaces),
        Some("第一行\n第二行".to_string())
    );
    let non_template = r#"$.https://example.com/api,{"method":"POST"}"#;
    assert_eq!(jsonpath_first_string(&value, non_template), None);
    assert_eq!(render_embedded_paths(&value, non_template), None);
}

#[test]
fn compat_jsonpath_matrix() {
    let text = r#"{
        "books": [
            {"name":"A", "price":5, "vip":true, "tags":["x","y"]},
            {"name":"B", "price":10, "vip":false, "tags":["y"]},
            {"name":"C", "price":"10", "tags":[]}
        ],
        "items": [{"name":"one"}, {"name":"two"}]
    }"#;
    let outside: serde_json::Value = serde_json::from_str(text).unwrap();
    let value = value(text);
    for (rule, expected) in [
        ("$.books[?(@.price == 10)].name", vec![r#""B""#.to_string()]),
        ("$.books[?(@.price == '10')].name", vec![r#""C""#.to_string()]),
        ("$.books[?(@.price != 10)].name", vec![r#""A""#.to_string()]),
        ("$.books[?(@.price < 10)].name", vec![r#""A""#.to_string()]),
        (
            "$.books[?(@.price <= 10)].name",
            vec![r#""A""#.to_string(), r#""B""#.to_string()],
        ),
        ("$.books[?(@.price > 5)].name", vec![r#""B""#.to_string()]),
        ("$.books[?(@.price >= 10)].name", vec![r#""B""#.to_string()]),
    ] {
        assert_eq!(query(&value, rule), expected, "{rule}");
    }
    assert_eq!(
        query(&value, "$.books[?(@.vip)].name"),
        vec![r#""A""#.to_string(), r#""B""#.to_string()]
    );
    assert!(jsonpath_query(&value, "$.books[?(@.missing != 1)].name").is_empty());
    assert_eq!(query(&value, "$.books[-1].name"), vec![r#""C""#.to_string()]);
    assert_eq!(
        query(&value, "$.books[0:3:2].name"),
        vec![r#""A""#.to_string(), r#""C""#.to_string()]
    );
    assert_eq!(
        query(&value, "$..name"),
        vec![
            r#""A""#.to_string(),
            r#""B""#.to_string(),
            r#""C""#.to_string(),
            r#""one""#.to_string(),
            r#""two""#.to_string()
        ]
    );
    let root_array = read_json(r#"[{"direct":"ok"}]"#).unwrap();
    assert_eq!(
        query(&root_array, "$[*].direct"),
        vec![r#""ok""#.to_string()]
    );
    for rule in [
        "$.books[?(@.name =~ /A|B/)].name",
        "$.books[?(@.name in ['A','C'])].name",
        "$.books[?(@.name nin ['A','C'])].name",
        "$.books[?(@.tags size 0)].name",
        "$.books[::-1].name",
    ] {
        assert!(jsonpath_lib::select(&outside, rule).is_err(), "{rule}");
        assert!(jsonpath_query(&value, rule).is_empty(), "{rule}");
    }
    for rule in [
        "$.books[?(@.tags[0:1])].name",
        "$.books[?(@.tags[0,1])].name",
        "$.books[?(@['name'])].name",
    ] {
        assert!(has_unsupported_filter_selector(rule), "{rule}");
        assert!(jsonpath_query(&value, rule).is_empty(), "{rule}");
    }
    assert!(jsonpath_query(&value, "$.books[").is_empty());
    assert!(jsonpath_query(&value, "$.books[?(@.price >)]").is_empty());
    let deep_path = format!("$.{}", vec!["missing"; 64].join("."));
    assert!(jsonpath_query(&value, &deep_path).is_empty());
}

#[test]
fn split_ignores_delimiters_inside_attribute_selector() {
    let result = split_top_level(r#"div[a="x&&y"]&&span"#, &["&&", "||", "%%"]);

    assert_eq!(result.delimiter.as_deref(), Some("&&"));
    assert_eq!(result.parts, vec![r#"div[a="x&&y"]"#, "span"]);
}

#[test]
fn interleave_uses_first_group_length_and_all_groups_per_index() {
    assert_eq!(
        interleave_result_groups(vec![
            vec!["A1", "A2"],
            vec!["B1", "B2", "B3"],
            vec!["C1"],
        ]),
        vec!["A1", "B1", "C1", "A2", "B2"]
    );
}

#[test]
fn source_regex_preserves_java_match_shapes() {
    assert!(is_valid(r"(?i)reader"));
    assert!(is_full_match(r"reader\d+", "reader42"));
    assert!(!is_full_match(r"reader\d+", "xreader42"));

    assert_eq!(
        captures_first(r"(a)?b", "b"),
        Some(vec![Some("b".into()), None])
    );
    assert_eq!(
        find_all(r"[ab]", "a b"),
        Some(vec!["a".into(), "b".into()])
    );
    assert_eq!(
        captures_all(r"(a)?b", "b ab"),
        Some(vec![vec![Some("b".into()), None], vec![Some("ab".into()), Some("a".into())]])
    );
}

#[test]
fn source_regex_supports_java_pattern_features() {
    assert_eq!(
        find_all(r"(?<=chapter-)\d+", "chapter-12 x chapter-34"),
        Some(vec!["12".into(), "34".into()])
    );
    assert_eq!(
        find_all(r"([ab])\1", "aa ab bb"),
        Some(vec!["aa".into(), "bb".into()])
    );
    assert!(is_full_match(r"(?>a|ab)c", "ac"));
    assert!(!is_full_match(r"(?>a|ab)c", "abc"));
    assert!(is_full_match(r"a++", "aaa"));
    assert!(!is_full_match(r"a++a", "aaa"));
    assert!(is_full_match(r"\Q[a-z]+\E", "[a-z]+"));
}

#[test]
fn source_regex_uses_android_unicode_defaults() {
    assert!(is_full_match(r"\d+", "١٢٣"));
    assert!(is_full_match(r"\w+", "中文"));
    assert!(is_full_match(r"\s", "\u{3000}"));
    assert!(is_full_match(r"(?i)ä", "Ä"));
}

#[test]
fn source_regex_uses_java_replacement_syntax() {
    assert_eq!(
        replace_all("a1 b22", r"(\d+)", "[$1]"),
        Ok("a[1] b[22]".into())
    );
    assert_eq!(
        replace_all("a1", r"(\d)", r"\$1"),
        Ok("a$1".into())
    );
    assert_eq!(
        replace_first_match("x12y34", r"(\d+)", "<$1>"),
        Ok(Some("<12>".into()))
    );
}

#[test]
fn patterns_that_are_none_are_told_apart() {
    assert!(!is_valid("("));
    assert_eq!(find_all("(", "("), None);
    assert!(replace_all("a", "(", "b").is_err());
    assert_eq!(replace_first_match("abc", r"\d", "x"), Ok(None));
}

#[test]
fn patterns_whose_length_cannot_be_counted_match_nothing() {
    let pattern = "(?<=(?:(?:a{4294967294,}){4294967294,}){4294967294,})b";
    assert!(is_valid(pattern));
    assert!(!is_full_match(pattern, "b"));
    assert_eq!(find_all(pattern, "ab"), None);
    assert_eq!(captures_first(pattern, "ab"), None);
    assert_eq!(captures_all(pattern, "ab"), None);
    assert!(replace_all("ab", pattern, "x").is_err());
    assert!(replace_first_match("ab", pattern, "x").is_err());
    assert!(!is_valid("a{4294967296}"));
    assert_eq!(find_all("(?<=a{2})b", "ab aab"), Some(vec!["b".into()]));
    assert_eq!(find_all("(?<n>(?:a{65536}){65536})|b", "ab"), Some(vec!["b".into()]));
    assert!(is_full_match("(a{3}){2}", "aaaaaa"));
}

#[test]
fn texts_are_cleaned() {
    assert_eq!(strip_whitespace(" a b\tc\n"), "a b c");
    assert_eq!(apply_regex_replace("a1b2", r"\d", "-"), "a-b-");
    assert_eq!(apply_regex_replace("a(b", "(", "-"), "a(b");
    assert_eq!(normalize_source_url(" https://a.test/\u{0} "), "https://a.test/");
    assert_eq!(repair_encoded_url("https://a.test/%23"), "https://a.test/%23");
    assert_eq!(repair_encoded_url("https://a.test/%3Fa%3D1%26b%23c"), "https://a.test/?a=1&b#c");
}
