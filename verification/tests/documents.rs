use reader_parser::ext::dom::parse_document;
use reader_parser::parser::html::{
    css_rule_is_valid, legado_to_css, parse_selector_with_index, select_list, select_text, select_text_from_element,
    select_text_list, IndexItem, IndexMode, SelectorBase,
};
use reader_parser::parser::markup::{clean_html, format_keep_img, html_to_text, html_unescape};
use reader_parser::parser::rule_analyzer::split_top_level;
use reader_parser::parser::script::Host;
use reader_parser::parser::xpath;

fn select_xpath(html: &str, rule: &str) -> Vec<String> {
    xpath::select_xpath(html, rule, &mut Host::new(()))
}

fn select_xpath_content(html: &str, rule: &str) -> Vec<String> {
    xpath::select_xpath_content(html, rule, &mut Host::new(()))
}

fn select_xpath_elements_json(html: &str, rule: &str) -> String {
    xpath::select_xpath_elements_json(html, rule, &mut Host::new(()))
}

#[test]
fn xpath_parser_normalizes_common_html_entities() {
    let values = select_xpath(
        "<p>A&nbsp;&copy;&reg;&trade;&middot;&mdash;&ndash;&hellip;&emsp;&ensp;B</p>",
        "//p",
    );
    assert_eq!(values, vec!["A\u{00a0}©®™·—–…\u{2003}\u{2002}B"]);
}

#[test]
fn xpath_parser_preserves_xml_and_numeric_entities() {
    let values = select_xpath(
        "<?xml version=\"1.0\"?><root>&amp;|&lt;|&gt;|&quot;|&apos;|&#65;|&#x42;</root>",
        "string(/root)",
    );
    assert_eq!(values, vec!["&|<|>|\"|'|A|B"]);
}

#[test]
fn xpath_parser_uses_html_mode_without_xml_declaration() {
    let input = "<Root><Item>X</Item></Root>";
    assert_eq!(select_xpath(input, "//item"), vec!["X"]);
    assert!(select_xpath(input, "//Item").is_empty());
}

#[test]
fn xpath_parser_wraps_multi_root_fragments_only_as_fallback() {
    let values = select_xpath("<p>A</p><p>B</p>", "/reader-root/p");
    assert_eq!(values.len(), 2);
    assert!(values.contains(&"A".to_string()));
    assert!(values.contains(&"B".to_string()));
}

#[test]
fn xpath_parser_keeps_normal_xhtml_structure() {
    let values = select_xpath(
        "<?xml version=\"1.0\"?><html><body><p>Normal</p></body></html>",
        "/html/body/p",
    );
    assert_eq!(values, vec!["Normal"]);
}

#[test]
fn xpath_parser_repairs_ordinary_html_before_xml_fallback() {
    let values = select_xpath(
        r#"<!doctype html><div class=test>Hello<br><img src=/cover.jpg><span>World</span></div>"#,
        "//div[@class='test']",
    );
    assert_eq!(values, vec!["HelloWorld"]);
    assert_eq!(
        select_xpath(
            r#"<div><img src=/cover.jpg><span>World</span></div>"#,
            "string(//img/@src)",
        ),
        vec!["/cover.jpg"]
    );
    assert_eq!(select_xpath("<td>Cell</td>", "//td"), vec!["Cell"]);
}

#[test]
fn css_attribute_selector_accepts_unquoted_colon_values() {
    let doc =
        parse_document(r#"<meta property="og:novel:read_url" content="/novel/3805/catalog">"#);
    let rule = "meta[property=og:novel:read_url]@content";

    assert!(css_rule_is_valid(rule));
    assert_eq!(
        select_text(&doc, rule),
        Some("/novel/3805/catalog".to_string())
    );
}

#[test]
fn standard_css_descendant_selectors_keep_tag_and_pseudo_syntax() {
    let doc = parse_document(
        r#"<div class="book-cell"><p>Other</p><p>169 万字</p></div>
<section id="bookSummary"><content>简介内容</content></section>"#,
    );

    assert_eq!(
        select_text(&doc, "div.book-cell p:nth-of-type(2)@text"),
        Some("169 万字".to_string())
    );
    assert_eq!(
        select_text(&doc, "section#bookSummary content@html"),
        Some("简介内容".to_string())
    );

    let list_doc = parse_document("<ul><li>one</li><li>two</li></ul>");
    assert_eq!(select_list(&list_doc, "ul li").len(), 2);
}

#[test]
fn compat_default_css_rule_selects_first_item_and_fields() {
    let doc = parse_document(
        r#"<ul><li><a href="/b/1">书名</a><span>作者</span></li><li><a href="/b/2">其他</a></li></ul>"#,
    );
    let item = select_list(&doc, "tag.li.0").into_iter().next().unwrap();

    assert_eq!(
        select_text_from_element(&doc, item, "tag.a.0@text"),
        Some("书名".into())
    );
    assert_eq!(
        select_text_from_element(&doc, item, "tag.a.0@href"),
        Some("/b/1".into())
    );
    assert_eq!(
        select_text_from_element(&doc, item, "tag.span.0@text"),
        Some("作者".into())
    );
}

#[test]
fn compat_combination_falls_back_when_first_rule_is_empty() {
    let doc = parse_document("<h1></h1><div class=\"title\">标题</div>");
    assert_eq!(
        select_text(&doc, "h1@text||.title@text"),
        Some("标题".into())
    );
}

#[test]
fn test_legado_to_css() {
    assert_eq!(legado_to_css("class.mod block"), ".mod.block");
    assert_eq!(legado_to_css("class.test"), ".test");
    assert_eq!(legado_to_css("id.main"), "#main");
    assert_eq!(legado_to_css("tag.div"), "div");
    assert_eq!(legado_to_css("ul li"), "ul li");
}

#[test]
fn test_parse_selector_with_index() {
    let parsed = parse_selector_with_index(".test.0");
    assert_eq!(parsed.base, SelectorBase::Css(".test".to_string()));
    assert!(parsed.explicit_index);
    assert_eq!(parsed.index_mode, IndexMode::Select);
    assert_eq!(parsed.index_items, vec![IndexItem::Single(0)]);

    let parsed = parse_selector_with_index(".test.-1");
    assert_eq!(parsed.base, SelectorBase::Css(".test".to_string()));
    assert_eq!(parsed.index_items, vec![IndexItem::Single(-1)]);

    let parsed = parse_selector_with_index(".test!0");
    assert_eq!(parsed.base, SelectorBase::Css(".test".to_string()));
    assert_eq!(parsed.index_mode, IndexMode::Exclude);
    assert_eq!(parsed.index_items, vec![IndexItem::Single(0)]);

    let parsed = parse_selector_with_index("div[-1, 1:3]");
    assert_eq!(parsed.base, SelectorBase::Css("div".to_string()));
    assert_eq!(
        parsed.index_items,
        vec![
            IndexItem::Single(-1),
            IndexItem::Range {
                start: Some(1),
                end: Some(3),
                step: 1,
            },
        ]
    );
}

#[test]
fn compat_css_chain_split_ignores_embedded_at_signs() {
    let doc = parse_document(
        r#"<div data-value="left@@right">Literal</div><section><span>Nested</span></section>"#,
    );

    assert_eq!(
        select_text(&doc, r#"div[data-value="left@@right"]@text"#),
        Some("Literal".to_string())
    );
    assert_eq!(
        select_text_list(&doc, "section@html@@span@text"),
        vec!["Nested".to_string()]
    );

    let regex_chain = split_top_level(":regex((?:left@@right))@@span", &["@@"]);
    assert_eq!(
        regex_chain.parts,
        vec![":regex((?:left@@right))".to_string(), "span".to_string()]
    );
}

#[test]
fn test_select_text_list_with_bracket_indices() {
    let doc = parse_document(
        r#"<div><a href="/1">A</a><a href="/2">B</a><a href="/3">C</a><a href="/4">D</a></div>"#,
    );

    assert_eq!(
        select_text_list(&doc, "a[1:2]@text"),
        vec!["B".to_string(), "C".to_string()]
    );
    assert_eq!(
        select_text_list(&doc, "a[!1,2]@text"),
        vec!["A".to_string(), "D".to_string()]
    );
    assert_eq!(
        select_text_list(&doc, "a[-1:0]@text"),
        vec![
            "D".to_string(),
            "C".to_string(),
            "B".to_string(),
            "A".to_string()
        ]
    );
}

#[test]
fn test_extract_attr_bracket_syntax() {
    let doc = parse_document(r#"<div><a href="/book/1" data-id="abc">Book</a></div>"#);

    assert_eq!(
        select_text(&doc, "a@attr[href]"),
        Some("/book/1".to_string())
    );
    assert_eq!(
        select_text(&doc, "a@attr[data-id]"),
        Some("abc".to_string())
    );
    assert_eq!(select_text(&doc, "a@href"), Some("/book/1".to_string()));
}

#[test]
fn test_format_keep_img() {
    let html_content = "<p>“第一行文字”</p><p>“第二行文字”</p>";
    assert_eq!(
        format_keep_img(html_content, ""),
        "“第一行文字”\n“第二行文字”"
    );
    let img_html = "<p>前文</p><img src=\"/images/1.jpg\"><p>后文</p>";
    assert_eq!(
        format_keep_img(img_html, "https://example.com/chapter/1.html"),
        "前文\n<img src=\"https://example.com/images/1.jpg\">\n后文"
    );
    let messy_html =
        "<div><script>alert(1);</script><p>正文内容<span>注释</span><br>第二行</p></div>";
    assert_eq!(format_keep_img(messy_html, ""), "正文内容注释\n第二行");
    let list_html = "<ul><li>第一条列表项</li><li>第二条列表项</li></ul>";
    assert_eq!(format_keep_img(list_html, ""), "第一条列表项\n第二条列表项");
}

#[test]
fn test_html_to_text() {
    let html =
        "<div><h1>标题</h1><p>第一段</p><ul><li>项目 1</li><li>项目 2</li></ul><br>尾注</div>";
    assert_eq!(html_to_text(html), "标题\n第一段\n项目 1\n项目 2\n尾注");
}

#[test]
fn test_clean_html() {
    let html = r#"<div style="color:red"><script>var a=1;</script><p class="content">段落</p><ul><li class="item">列表项</li></ul></div>"#;
    assert_eq!(clean_html(html), "<p>段落</p><ul><li>列表项</li></ul>");
}

#[test]
fn test_html_unescape() {
    assert_eq!(
        html_unescape(
            "&nbsp;文字&quot;双引号&quot;&apos;单引号&apos;&amp;和&lt;小于&gt;大于&#160;"
        ),
        " 文字\"双引号\"'单引号'&和<小于>大于\u{a0}"
    );
}

#[test]
fn test_xpath_id_function_and_normalization() {
    let html = r#"<!DOCTYPE html>
<html>
<body>
    <div id="intro"><p>Hello World</p></div>
    <div id="list">
        <dl id="target-dl">
            <dd><a href="/chapter1">Chapter 1</a></dd>
        </dl>
    </div>
</body>
</html>"#;
    let res = select_xpath(html, "id('list')//a/@href");
    assert_eq!(res, vec!["/chapter1"]);
    let res2 = select_xpath(html, "id(//dl/@id)//a/text()");
    assert_eq!(res2, vec!["Chapter 1"]);
    let res3 = select_xpath(html, "//div[@id='intro']/allText()");
    assert_eq!(res3, vec!["Hello World"]);
    let res4 = select_xpath(html, "/body/div[@id='intro']/p");
    assert_eq!(res4, vec!["Hello World"]);
}

#[test]
fn test_xpath_advanced_edge_cases() {
    let html = r#"<!DOCTYPE html>
<html>
<body>
    <div id="c1" class="ch">Chapter 1</div>
    <div id="c2" class="ch">Chapter 2</div>
    <div id="intro"><p>Hello World</p><span>Extra Text</span></div>
</body>
</html>"#;
    let multi = select_xpath(html, "id('c1 c2')/text()");
    assert_eq!(multi, vec!["Chapter 1", "Chapter 2"]);
    let not_found = select_xpath(html, "id('non-existent')");
    assert!(not_found.is_empty());
    let text_attr = select_xpath(html, "//p/@text");
    assert_eq!(text_attr, vec!["Hello World"]);
    let html_fn = select_xpath(html, "//div[@id='c1']/html()");
    assert_eq!(html_fn, vec!["Chapter 1"]);
    let direct_div = select_xpath(html, "/div[@id='intro']/p");
    assert_eq!(direct_div, vec!["Hello World"]);
    let frag = "<p>Frag 1</p><p>Frag 2</p>";
    assert_eq!(select_xpath(frag, "/p"), vec!["Frag 1", "Frag 2"]);
    assert_eq!(select_xpath(html, "/unknown/nonexistent/path"), Vec::<String>::new());
    let attr_html = r#"<div textContent="raw-value">body</div>"#;
    assert_eq!(
        select_xpath(attr_html, "//div/@textContent"),
        vec!["raw-value"]
    );

    let xml = r#"<?xml version="1.0"?><root textContent="raw-value"/>"#;
    assert_eq!(select_xpath(xml, "//root/@textContent"), vec!["raw-value"]);
    assert!(select_xpath(xml, "//root/@textcontent").is_empty());
    let entity_html = r#"<div id="entity">1 &lt; 2 &amp; 3</div>"#;
    assert_eq!(
        select_xpath(entity_html, "id('entity')/html()"),
        vec!["1 &lt; 2 &amp; 3"]
    );
    let fragment_elements: serde_json::Value =
        serde_json::from_str(&select_xpath_elements_json(frag, "/p")).unwrap();
    assert_eq!(fragment_elements.as_array().unwrap().len(), 2);
    let combined_html =
        "<root><a>A1</a><a>A2</a><b>B1</b><b>B2</b><b>B3</b><c>C1</c></root>";
    let combined: serde_json::Value = serde_json::from_str(
        &select_xpath_elements_json(combined_html, "//a%%//b%%//c"),
    )
    .unwrap();
    let texts = combined
        .as_array()
        .unwrap()
        .iter()
        .filter_map(|item| item.get("text").and_then(serde_json::Value::as_str))
        .collect::<Vec<_>>();
    assert_eq!(texts, vec!["A1", "B1", "C1", "A2", "B2"]);
}

#[test]
fn content_keeps_its_line_breaks() {
    assert_eq!(select_xpath_content("<div>a<br>b<p>c</p></div>", "//div"), vec!["a\nb\nc\n"]);
    assert_eq!(select_xpath("<div>a<br>b<p>c</p></div>", "//div"), vec!["abc"]);
}

#[test]
fn expressions_with_prefixes_select_nothing() {
    let page = "<?xml version=\"1.0\"?><a xmlns:x=\"urn:x\"><x:b>1</x:b><c t=\"k:v\">2</c></a>";
    assert!(select_xpath(page, "//x:b").is_empty());
    assert!(select_xpath(page, "//c[@x:t]").is_empty());
    assert_eq!(select_xpath(page, "//c[@t='k:v']"), vec!["2"]);
    assert_eq!(select_xpath(page, "/child::a/child::c"), vec!["2"]);
}

#[test]
fn sums_and_namespaces_are_told() {
    let page = "<?xml version=\"1.0\"?><a xmlns:x=\"urn:x\"><b>1</b><b>2</b></a>";
    assert_eq!(select_xpath(page, "sum(//b)"), vec!["3"]);
    let mut spaces = select_xpath(page, "/a/namespace::*");
    spaces.sort();
    assert_eq!(spaces, vec!["http://www.w3.org/XML/1998/namespace", "urn:x"]);
    assert_eq!(select_xpath(page, "name(/a/b)"), vec!["b"]);
    let two = "<?xml version=\"1.0\"?><a xmlns:p=\"urn:x\" xmlns:q=\"urn:x\"><p:b/></a>";
    let name = select_xpath(two, "name(/a/*)");
    assert!(name == vec!["p:b"] || name == vec!["q:b"]);
}

#[test]
fn elements_that_were_cut_off_are_found() {
    let doc = parse_document("<p><a href=/x>t</a></p><frameset>");
    let found = select_list(&doc, "a");
    assert_eq!(found.len(), 1);
    assert_eq!(select_text(&doc, "a@href"), Some("/x".to_string()));
    assert_eq!(select_text(&doc, "a@text"), Some("t".to_string()));
}
