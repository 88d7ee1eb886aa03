//! Conversion of markup to text.

use crate::ext::regexes::{
    are_all_tags, assemble, assembled, basic_pattern, comment_pattern, find_matches, found_models, has_rest,
    is_left_alone, is_tag, matched_text, names_script, names_style, opens_comment, opt_texts, regex_matches,
    regex_replaced, script_pattern, style_pattern, tag_at, touches, whole_groups, FoundV, Matches, MatchesV,
};
use crate::parser::html::{filled, trimmed_texts};
use crate::util::address::{resolve_url, resolved_url};
use crate::util::chars::{
    char_of_code, concat3, contains, contains_text, copy, decimal, decimal_of, hex_of, is_char_code, is_empty_text,
    is_space, join, join_of, lemma_pieces, lemma_split_join, lemma_trimmed, lemma_unsplit, lower_ascii, lower_ascii_of,
    opt_text, parse_hex, parse_unsigned, replace, replace_of, same, split, split_of, texts, to_ascii_lowercase, trim,
    trim_of, unsigned_of, within,
};
use crate::util::text::apply_regex_replace;
use vstd::prelude::*;
use vstd::string::*;

verus! {

/// `s` with the matches of a pattern replaced.
pub open spec fn re_replaced(s: Seq<char>, pattern: Seq<char>, to: Seq<char>) -> Seq<char> {
    match regex_replaced(pattern, s, to) {
        Some(t) => t,
        None => s,
    }
}

/// A group of a match; blank where it took no part.
pub open spec fn group_text(groups: Seq<Option<Seq<char>>>, i: int) -> Seq<char> {
    if 0 <= i < groups.len() && groups[i] is Some {
        groups[i]->0
    } else {
        seq![]
    }
}

pub fn group_at(groups: &Vec<Option<String>>, i: usize) -> (r: String)
    ensures
        r@ == group_text(opt_texts(groups@), i as int),
{
    if i < groups.len() {
        assert(opt_texts(groups@)[i as int] == opt_text(groups@[i as int]));
        if let Some(t) = &groups[i] {
            return t.clone();
        }
    }
    let r = String::new();
    assert(r@ =~= seq![]);
    r
}

/// A group of the first match, if there is a match.
pub open spec fn first_group(m: MatchesV, i: int) -> Option<Seq<char>> {
    if m.found.len() > 0 {
        Some(group_text(m.found[0].groups, i))
    } else {
        None
    }
}

pub fn group_of_first(m: &Matches, i: usize) -> (r: Option<String>)
    ensures
        opt_text(r) == first_group(m.model(), i as int),
{
    assert(m.model().found.len() == m.found.len());
    if m.found.len() == 0 {
        return None;
    }
    assert(m.model().found[0] == m.found@[0].model());
    Some(group_at(&m.found[0].groups, i))
}

/// The named entities of a text replaced, `&amp;` last.
pub open spec fn named_entities_replaced(s: Seq<char>) -> Seq<char> {
    let a = replace_of(replace_of(replace_of(s, "&nbsp;"@, " "@), "&emsp;"@, "\u{3000}"@), "&ensp;"@, " "@);
    let b = replace_of(replace_of(a, "&quot;"@, "\""@), "&apos;"@, "'"@);
    let c = replace_of(replace_of(b, "&lt;"@, "<"@), "&gt;"@, ">"@);
    let d = replace_of(replace_of(replace_of(c, "&copy;"@, "©"@), "&reg;"@, "®"@), "&trade;"@, "™"@);
    let e = replace_of(replace_of(replace_of(d, "&mdash;"@, "—"@), "&ndash;"@, "–"@), "&hellip;"@, "…"@);
    replace_of(e, "&amp;"@, "&"@)
}

pub fn replace_named_entities(s: &str) -> (r: String)
    ensures
        r@ == named_entities_replaced(s@),
{
    proof {
        reveal_strlit("&nbsp;");
        reveal_strlit("&emsp;");
        reveal_strlit("&ensp;");
        reveal_strlit("&quot;");
        reveal_strlit("&apos;");
        reveal_strlit("&lt;");
        reveal_strlit("&gt;");
        reveal_strlit("&copy;");
        reveal_strlit("&reg;");
        reveal_strlit("&trade;");
        reveal_strlit("&mdash;");
        reveal_strlit("&ndash;");
        reveal_strlit("&hellip;");
        reveal_strlit("&amp;");
    }
    let t = replace(s, "&nbsp;", " ");
    let t = replace(t.as_str(), "&emsp;", "\u{3000}");
    let t = replace(t.as_str(), "&ensp;", " ");
    let t = replace(t.as_str(), "&quot;", "\"");
    let t = replace(t.as_str(), "&apos;", "'");
    let t = replace(t.as_str(), "&lt;", "<");
    let t = replace(t.as_str(), "&gt;", ">");
    let t = replace(t.as_str(), "&copy;", "©");
    let t = replace(t.as_str(), "&reg;", "®");
    let t = replace(t.as_str(), "&trade;", "™");
    let t = replace(t.as_str(), "&mdash;", "—");
    let t = replace(t.as_str(), "&ndash;", "–");
    let t = replace(t.as_str(), "&hellip;", "…");
    replace(t.as_str(), "&amp;", "&")
}

/// The code that a numeric entity names, in hexadecimal or decimal digits.
pub open spec fn entity_code(groups: Seq<Option<Seq<char>>>) -> Option<int> {
    if groups.len() > 1 && groups[1] is Some {
        within(hex_of(groups[1]->0), 0, u32::MAX as int)
    } else if groups.len() > 2 && groups[2] is Some {
        within(unsigned_of(groups[2]->0), 0, u32::MAX as int)
    } else {
        None
    }
}

/// Whether `t` is what a numeric entity stands for: its character, or the
/// entity itself where no character has that code.
pub open spec fn entity_text(groups: Seq<Option<Seq<char>>>) -> Seq<char> {
    match entity_code(groups) {
        Some(n) => if is_char_code(n) {
            seq![char_of_code(n)]
        } else {
            group_text(groups, 0)
        },
        None => group_text(groups, 0),
    }
}

pub open spec fn entity_texts(found: Seq<FoundV>) -> Seq<Seq<char>> {
    Seq::new(found.len(), |i: int| entity_text(found[i].groups))
}

pub fn entity_character(groups: &Vec<Option<String>>) -> (r: String)
    ensures
        r@ == entity_text(opt_texts(groups@)),
{
    let ghost g = opt_texts(groups@);
    let mut code: Option<u64> = None;
    let mut hex = false;
    if groups.len() > 1 {
        assert(g[1] == opt_text(groups@[1]));
        if let Some(t) = &groups[1] {
            hex = true;
            code = parse_hex(t.as_str(), 4294967295);
        }
    }
    if !hex && groups.len() > 2 {
        assert(g[2] == opt_text(groups@[2]));
        if let Some(t) = &groups[2] {
            code = parse_unsigned(t.as_str(), 4294967295);
        }
    }
    if let Some(n) = code {
        if let Some(c) = char::from_u32(n as u32) {
            let mut r = String::new();
            r.push(c);
            assert(crate::util::chars::code_of(c) == n as int);
            assert(crate::util::chars::code_of(char_of_code(n as int)) == n as int);
            assert(r@ =~= seq![char_of_code(n as int)]);
            return r;
        }
    }
    group_at(groups, 0)
}

/// A text with the numeric entities that were found in it replaced.
pub open spec fn entities_replaced(m: MatchesV) -> Seq<char> {
    assembled(m, entity_texts(m.found), m.found.len() as int) + m.tail
}

/// A text with its numeric entities replaced.
pub open spec fn numeric_entities_replaced(s: Seq<char>) -> Seq<char> {
    if !contains_text(s, "&#"@) {
        s
    } else {
        match regex_matches("&#(?:x([0-9a-fA-F]+)|(\\d+));"@, s) {
            Some(m) => entities_replaced(m),
            None => s,
        }
    }
}

pub fn replace_numeric_entities(s: &str) -> (r: String)
    ensures
        r@ == numeric_entities_replaced(s@),
{
    if !contains(s, "&#") {
        return copy(s);
    }
    match find_matches("&#(?:x([0-9a-fA-F]+)|(\\d+));", s) {
        Some(m) => replace_entities(&m),
        None => copy(s),
    }
}

/// The text around the numeric entities that were found, and what they stand for.
pub fn replace_entities(m: &Matches) -> (r: String)
    ensures
        r@ == entities_replaced(m.model()),
{
    let ghost all = found_models(m.found@);
    let mut parts: Vec<String> = Vec::new();
    let mut i: usize = 0;
    while i < m.found.len()
        invariant
            i <= m.found.len(),
            all == found_models(m.found@),
            texts(parts@) =~= entity_texts(all).take(i as int),
        decreases m.found.len() - i,
    {
        assert(all[i as int] == m.found@[i as int].model());
        let ghost before = texts(parts@);
        let t = entity_character(&m.found[i].groups);
        let ghost x = t@;
        parts.push(t);
        assert(texts(parts@) =~= before.push(x));
        i = i + 1;
    }
    assert(entity_texts(all).take(all.len() as int) =~= entity_texts(all));
    assert(parts.len() == texts(parts@).len());
    assemble(m, &parts)
}

/// A text with its HTML entities replaced.
pub open spec fn unescaped(s: Seq<char>) -> Seq<char> {
    if !contains_text(s, "&"@) {
        s
    } else {
        numeric_entities_replaced(named_entities_replaced(s))
    }
}

/// Replaces the HTML entities of a text: the common named ones, then numeric ones.
pub fn html_unescape(input: &str) -> (r: String)
    ensures
        r@ == unescaped(input@),
{
    if !contains(input, "&") {
        return copy(input);
    }
    replace_numeric_entities(replace_named_entities(input).as_str())
}

/// Markup without scripts, styles and comments.
pub open spec fn without_scripts(s: Seq<char>) -> Seq<char> {
    re_replaced(s, "(?is)<script[^>]*>.*?</script>|<style[^>]*>.*?</style>|<!--.*?-->"@, ""@)
}

pub fn strip_scripts(s: &str) -> (r: String)
    ensures
        r@ == without_scripts(s@),
{
    apply_regex_replace(s, "(?is)<script[^>]*>.*?</script>|<style[^>]*>.*?</style>|<!--.*?-->", "")
}

/// Markup with block tags turned to line breaks and all other tags taken out.
pub open spec fn without_tags(s: Seq<char>) -> Seq<char> {
    re_replaced(
        re_replaced(s, "(?i)<br\\s*/?>|</?(?:p|div|h[1-6]|li|ul|ol|hr|article|dd|dl)\\b[^>]*>"@, "\n"@),
        "<[^>]+>"@,
        ""@,
    )
}

pub fn strip_tags(s: &str) -> (r: String)
    ensures
        r@ == without_tags(s@),
{
    let t = apply_regex_replace(
        s,
        "(?i)<br\\s*/?>|</?(?:p|div|h[1-6]|li|ul|ol|hr|article|dd|dl)\\b[^>]*>",
        "\n",
    );
    apply_regex_replace(t.as_str(), "<[^>]+>", "")
}

/// The lines of a text, trimmed, without blank ones.
pub open spec fn tidy_lines(s: Seq<char>) -> Seq<char> {
    let lines = split_of(s, "\n"@);
    join_of(filled(lines, lines.len() as int), "\n"@)
}

pub fn tidy(s: &str) -> (r: String)
    ensures
        r@ == tidy_lines(s@),
{
    proof {
        reveal_strlit("\n");
    }
    let lines = split(s, "\n");
    join(&trimmed_texts(&lines), "\n")
}

proof fn lemma_filled(parts: Seq<Seq<char>>, n: int, i: int)
    requires
        0 <= n <= parts.len(),
        0 <= i < filled(parts, n).len(),
        forall|k: int| 0 <= k < parts.len() ==> !(#[trigger] parts[k]).contains('\n'),
    ensures
        filled(parts, n)[i].len() > 0,
        trim_of(filled(parts, n)[i]) == filled(parts, n)[i],
        !filled(parts, n)[i].contains('\n'),
    decreases n,
{
    if n > 0 {
        lemma_trimmed(parts[n - 1]);
        if i < filled(parts, n - 1).len() {
            lemma_filled(parts, n - 1, i);
        } else {
            assert(!parts[n - 1].contains('\n'));
        }
    }
}

proof fn lemma_filled_again(parts: Seq<Seq<char>>, n: int)
    requires
        0 <= n <= parts.len(),
        forall|k: int| 0 <= k < parts.len() ==> (#[trigger] parts[k]).len() > 0 && trim_of(parts[k]) == parts[k],
    ensures
        filled(parts, n) == parts.take(n),
    decreases n,
{
    if n > 0 {
        lemma_filled_again(parts, n - 1);
        assert(parts[n - 1].len() > 0);
        assert(parts.take(n) =~= parts.take(n - 1).push(parts[n - 1]));
    } else {
        assert(parts.take(0) =~= seq![]);
    }
}

/// The lines of a tidy text are trimmed and none is blank, so that tidying it
/// again changes nothing.
pub proof fn law_tidy_lines(s: Seq<char>)
    ensures
        tidy_lines(tidy_lines(s)) == tidy_lines(s),
        tidy_lines(s).len() > 0 ==> forall|i: int|
            0 <= i < split_of(tidy_lines(s), "\n"@).len() ==> (#[trigger] split_of(tidy_lines(s), "\n"@)[i]).len() > 0
                && trim_of(split_of(tidy_lines(s), "\n"@)[i]) == split_of(tidy_lines(s), "\n"@)[i],
{
    reveal_strlit("\n");
    assert("\n"@ =~= seq!['\n']);
    let lines = split_of(s, "\n"@);
    assert forall|k: int| 0 <= k < lines.len() implies !(#[trigger] lines[k]).contains('\n') by {
        lemma_pieces(s, '\n', 0, k);
    }
    let kept = filled(lines, lines.len() as int);
    assert forall|i: int| 0 <= i < kept.len() implies (#[trigger] kept[i]).len() > 0 && trim_of(kept[i]) == kept[i]
        && !kept[i].contains('\n') by {
        lemma_filled(lines, lines.len() as int, i);
    }
    if kept.len() > 0 {
        lemma_split_join(kept, '\n');
        lemma_filled_again(kept, kept.len() as int);
        assert(kept.take(kept.len() as int) =~= kept);
    } else {
        let none: Seq<char> = seq![];
        assert(tidy_lines(s) =~= none);
        assert(!none.contains('\n'));
        lemma_unsplit(none, '\n');
        let one = seq![none];
        assert(split_of(none, "\n"@) == one);
        assert(trim_of(none).len() == 0);
        assert(filled(one, 0) =~= seq![]);
        assert(filled(one, 1) =~= seq![]);
        assert(tidy_lines(none) =~= none);
    }
}

/// The text of markup: paragraphs and line breaks kept, tags taken out.
pub open spec fn text_of_markup(html: Seq<char>) -> Seq<char> {
    if trim_of(html).len() == 0 {
        seq![]
    } else {
        tidy_lines(unescaped(without_tags(without_scripts(html))))
    }
}

/// Converts markup to plain text. Scripts, styles and comments are removed,
/// block tags become line breaks, all other tags are removed and entities are
/// replaced; lines are trimmed and blank ones dropped.
pub fn html_to_text(html: &str) -> (r: String)
    ensures
        r@ == text_of_markup(html@),
{
    if is_empty_text(trim(html).as_str()) {
        let r = String::new();
        assert(r@ =~= seq![]);
        return r;
    }
    let t = strip_tags(strip_scripts(html).as_str());
    tidy(html_unescape(t.as_str()).as_str())
}

/// The tag of an image with a source, which is resolved against the page.
pub open spec fn image_of(src: Seq<char>, page: Seq<char>) -> Seq<char> {
    if src.len() > 0 && page.len() > 0 {
        "<img src=\""@ + resolved_url(page, src) + "\">"@
    } else {
        "<img src=\""@ + src + "\">"@
    }
}

pub fn write_image(src: &str, page: &str) -> (r: String)
    ensures
        r@ == image_of(src@, page@),
{
    if !is_empty_text(src) && !is_empty_text(page) {
        concat3("<img src=\"", resolve_url(page, src).as_str(), "\">")
    } else {
        concat3("<img src=\"", src, "\">")
    }
}

/// An image tag reduced to its source, which is resolved against the page.
pub open spec fn image_tag(tag: Seq<char>, page: Seq<char>) -> Seq<char> {
    match regex_matches("(?i)\\b(?:src|data-src|data-original)\\s*=\\s*[\"']?([^\"'\\s>]+)[\"']?"@, tag) {
        Some(m) => match first_group(m, 1) {
            Some(src) => image_of(src, page),
            None => tag,
        },
        None => tag,
    }
}

pub fn rewrite_image(tag: &str, page: &str) -> (r: String)
    ensures
        r@ == image_tag(tag@, page@),
{
    match find_matches("(?i)\\b(?:src|data-src|data-original)\\s*=\\s*[\"']?([^\"'\\s>]+)[\"']?", tag) {
        Some(m) => match group_of_first(&m, 1) {
            Some(src) => write_image(src.as_str(), page),
            None => copy(tag),
        },
        None => copy(tag),
    }
}

/// The text that stands for the `i`-th image while tags are taken out.
pub open spec fn image_mark(i: int) -> Seq<char> {
    "__READER_IMG_PLACEHOLDER_"@ + decimal_of(i) + "__"@
}

pub fn mark_image(i: usize) -> (r: String)
    ensures
        r@ == image_mark(i as int),
        r@.len() > 0,
{
    proof {
        reveal_strlit("__READER_IMG_PLACEHOLDER_");
    }
    concat3("__READER_IMG_PLACEHOLDER_", decimal(i as u64).as_str(), "__")
}

pub open spec fn image_marks(n: int) -> Seq<Seq<char>> {
    Seq::new(n as nat, |i: int| "\n"@ + image_mark(i) + "\n"@)
}

pub open spec fn images_of(m: MatchesV, page: Seq<char>) -> Seq<Seq<char>> {
    Seq::new(m.found.len(), |i: int| image_tag(group_text(m.found[i].groups, 0), page))
}

/// A text with the first `n` marks replaced by their images, one after the other.
pub open spec fn images_restored(s: Seq<char>, images: Seq<Seq<char>>, n: int) -> Seq<char>
    decreases n,
{
    if n <= 0 {
        s
    } else {
        replace_of(images_restored(s, images, n - 1), image_mark(n - 1), images[n - 1])
    }
}

/// The text of markup with its images kept as tags.
pub open spec fn text_with_images(content: Seq<char>, page: Seq<char>) -> Seq<char> {
    if trim_of(content).len() == 0 {
        seq![]
    } else {
        let s = without_scripts(content);
        let t = match regex_matches("(?i)<img\\b[^>]*>"@, s) {
            Some(m) => images_restored(
                without_tags(assembled(m, image_marks(m.found.len() as int), m.found.len() as int) + m.tail),
                images_of(m, page),
                m.found.len() as int,
            ),
            None => without_tags(s),
        };
        tidy_lines(unescaped(t))
    }
}

/// Whether markup has no image outside of scripts, styles and comments.
pub open spec fn has_no_image(html: Seq<char>) -> bool {
    regex_matches("(?i)<img\\b[^>]*>"@, without_scripts(html)) matches Some(m) ==> m.found.len() == 0
}

/// Converts markup to text and keeps its images, whose sources are made
/// absolute. Block tags become line breaks and other tags are removed. Without
/// an image it gives what [`html_to_text`] gives.
pub fn format_keep_img(content: &str, redirect_url: &str) -> (r: String)
    ensures
        r@ == text_with_images(content@, redirect_url@),
        has_no_image(content@) ==> r@ == text_of_markup(content@),
{
    if is_empty_text(trim(content).as_str()) {
        let r = String::new();
        assert(r@ =~= seq![]);
        return r;
    }
    let s = strip_scripts(content);
    let text = match find_matches("(?i)<img\\b[^>]*>", s.as_str()) {
        Some(m) => {
            proof {
                if m.found.len() == 0 {
                    let v = m.model();
                    assert(assembled(v, image_marks(0), 0) =~= seq![]);
                    assert(matched_text(v, 0) + v.tail =~= v.tail);
                    assert(assembled(v, image_marks(0), 0) + v.tail =~= s@);
                }
            }
            keep_images(&m, redirect_url)
        },
        None => strip_tags(s.as_str()),
    };
    tidy(html_unescape(text.as_str()).as_str())
}

pub fn keep_images(m: &Matches, page: &str) -> (r: String)
    ensures
        r@ == images_restored(
            without_tags(
                assembled(m.model(), image_marks(m.found.len() as int), m.found.len() as int) + m.model().tail,
            ),
            images_of(m.model(), page@),
            m.found.len() as int,
        ),
{
    let ghost all = m.model();
    let mut marks: Vec<String> = Vec::new();
    let mut images: Vec<String> = Vec::new();
    let mut i: usize = 0;
    while i < m.found.len()
        invariant
            i <= m.found.len(),
            all == m.model(),
            texts(marks@) =~= image_marks(m.found.len() as int).take(i as int),
            texts(images@) =~= images_of(all, page@).take(i as int),
        decreases m.found.len() - i,
    {
        assert(all.found[i as int] == m.found@[i as int].model());
        let ghost before = texts(marks@);
        let ghost before2 = texts(images@);
        let image = rewrite_image(group_at(&m.found[i].groups, 0).as_str(), page);
        let mark = concat3("\n", mark_image(i).as_str(), "\n");
        let ghost x = mark@;
        let ghost y = image@;
        marks.push(mark);
        images.push(image);
        assert(texts(marks@) =~= before.push(x));
        assert(texts(images@) =~= before2.push(y));
        i = i + 1;
    }
    assert(image_marks(m.found.len() as int).take(m.found.len() as int) =~= image_marks(m.found.len() as int));
    assert(images_of(all, page@).take(m.found.len() as int) =~= images_of(all, page@));
    assert(marks.len() == texts(marks@).len());
    assert(images.len() == texts(images@).len());
    let mut text = strip_tags(assemble(m, &marks).as_str());
    let ghost base = text@;
    let mut k: usize = 0;
    while k < images.len()
        invariant
            k <= images.len(),
            text@ == images_restored(base, texts(images@), k as int),
        decreases images.len() - k,
    {
        assert(texts(images@)[k as int] == images@[k as int]@);
        text = replace(text.as_str(), mark_image(k).as_str(), images[k].as_str());
        k = k + 1;
    }
    text
}

/// The tags that a cleaned document may hold.
pub open spec fn is_basic_tag(t: Seq<char>) -> bool {
    ||| t == "<p>"@ || t == "</p>"@ || t == "<br>"@
    ||| t == "<b>"@ || t == "</b>"@ || t == "<strong>"@ || t == "</strong>"@
    ||| t == "<i>"@ || t == "</i>"@ || t == "<em>"@ || t == "</em>"@ || t == "<u>"@ || t == "</u>"@
    ||| t == "<h1>"@ || t == "</h1>"@ || t == "<h2>"@ || t == "</h2>"@ || t == "<h3>"@ || t == "</h3>"@
    ||| t == "<h4>"@ || t == "</h4>"@ || t == "<h5>"@ || t == "</h5>"@ || t == "<h6>"@ || t == "</h6>"@
    ||| t == "<li>"@ || t == "</li>"@ || t == "<ul>"@ || t == "</ul>"@ || t == "<ol>"@ || t == "</ol>"@
}

pub fn basic_tag(t: &str) -> (r: bool)
    ensures
        r == is_basic_tag(t@),
{
    same(t, "<p>") || same(t, "</p>") || same(t, "<br>") || same(t, "<b>") || same(t, "</b>") || same(t, "<strong>")
        || same(t, "</strong>") || same(t, "<i>") || same(t, "</i>") || same(t, "<em>") || same(t, "</em>") || same(
        t,
        "<u>",
    ) || same(t, "</u>") || same(t, "<h1>") || same(t, "</h1>") || same(t, "<h2>") || same(t, "</h2>") || same(
        t,
        "<h3>",
    ) || same(t, "</h3>") || same(t, "<h4>") || same(t, "</h4>") || same(t, "<h5>") || same(t, "</h5>") || same(
        t,
        "<h6>",
    ) || same(t, "</h6>") || same(t, "<li>") || same(t, "</li>") || same(t, "<ul>") || same(t, "</ul>") || same(
        t,
        "<ol>",
    ) || same(t, "</ol>")
}

/// A tag where it is a basic one, else nothing.
pub open spec fn kept_tag(tag: Seq<char>) -> Seq<char> {
    if is_basic_tag(lower_ascii_of(tag)) {
        tag
    } else {
        seq![]
    }
}

pub open spec fn kept_tags(found: Seq<FoundV>) -> Seq<Seq<char>> {
    Seq::new(found.len(), |i: int| kept_tag(group_text(found[i].groups, 0)))
}

/// Markup with the basic ones of the tags that were found in it, and no others.
pub open spec fn basic_tags_kept(m: MatchesV) -> Seq<char> {
    assembled(m, kept_tags(m.found), m.found.len() as int) + m.tail
}

/// Whether all tags of a text are basic ones.
pub open spec fn has_basic_tags_only(s: Seq<char>) -> bool {
    forall|k: int, n: int| #[trigger] tag_at(s, k, n) ==> is_basic_tag(lower_ascii_of(s.subrange(k, n + 1)))
}

proof fn lemma_basic_tag(t: Seq<char>)
    requires
        is_basic_tag(t),
    ensures
        forall|k: int| 1 <= k < t.len() ==> #[trigger] t[k] != '<',
{
    reveal_strlit("<p>");
    reveal_strlit("</p>");
    reveal_strlit("<br>");
    reveal_strlit("<b>");
    reveal_strlit("</b>");
    reveal_strlit("<strong>");
    reveal_strlit("</strong>");
    reveal_strlit("<i>");
    reveal_strlit("</i>");
    reveal_strlit("<em>");
    reveal_strlit("</em>");
    reveal_strlit("<u>");
    reveal_strlit("</u>");
    reveal_strlit("<h1>");
    reveal_strlit("</h1>");
    reveal_strlit("<h2>");
    reveal_strlit("</h2>");
    reveal_strlit("<h3>");
    reveal_strlit("</h3>");
    reveal_strlit("<h4>");
    reveal_strlit("</h4>");
    reveal_strlit("<h5>");
    reveal_strlit("</h5>");
    reveal_strlit("<h6>");
    reveal_strlit("</h6>");
    reveal_strlit("<li>");
    reveal_strlit("</li>");
    reveal_strlit("<ul>");
    reveal_strlit("</ul>");
    reveal_strlit("<ol>");
    reveal_strlit("</ol>");
}

proof fn lemma_basic_letters(t: Seq<char>)
    requires
        is_basic_tag(t),
    ensures
        t.len() >= 3,
        forall|k: int| 2 <= k < t.len() ==> !is_space(#[trigger] t[k]) && t[k] != '/',
        t[1] != '!' && t[1] != '\u{17f}',
        t[1] == 's' ==> t.len() > 3 && t[2] == 't' && t[3] == 'r',
{
    reveal_strlit("<p>");
    reveal_strlit("</p>");
    reveal_strlit("<br>");
    reveal_strlit("<b>");
    reveal_strlit("</b>");
    reveal_strlit("<strong>");
    reveal_strlit("</strong>");
    reveal_strlit("<i>");
    reveal_strlit("</i>");
    reveal_strlit("<em>");
    reveal_strlit("</em>");
    reveal_strlit("<u>");
    reveal_strlit("</u>");
    reveal_strlit("<h1>");
    reveal_strlit("</h1>");
    reveal_strlit("<h2>");
    reveal_strlit("</h2>");
    reveal_strlit("<h3>");
    reveal_strlit("</h3>");
    reveal_strlit("<h4>");
    reveal_strlit("</h4>");
    reveal_strlit("<h5>");
    reveal_strlit("</h5>");
    reveal_strlit("<h6>");
    reveal_strlit("</h6>");
    reveal_strlit("<li>");
    reveal_strlit("</li>");
    reveal_strlit("<ul>");
    reveal_strlit("</ul>");
    reveal_strlit("<ol>");
    reveal_strlit("</ol>");
}

proof fn lemma_basic_untouched(t: Seq<char>)
    requires
        is_basic_tag(lower_ascii_of(t)),
    ensures
        !names_script(t),
        !names_style(t),
        !opens_comment(t),
        !has_rest(t),
{
    let low = lower_ascii_of(t);
    lemma_basic_letters(low);
    assert forall|k: int| 2 <= k < t.len() implies !is_space(#[trigger] t[k]) && t[k] != '/' by {
        assert(low[k] == lower_ascii(t[k]));
    }
    assert(low[1] == lower_ascii(t[1]));
    assert(low[2] == lower_ascii(t[2]));
    if t.len() > 3 {
        assert(low[3] == lower_ascii(t[3]));
    }
}

proof fn lemma_left_alone(pattern: Seq<char>, text: Seq<char>, replacement: Seq<char>)
    requires
        has_basic_tags_only(text),
        pattern == script_pattern() || pattern == style_pattern() || pattern == comment_pattern() || (pattern
            == basic_pattern() && replacement == "<$1$2>"@),
    ensures
        is_left_alone(pattern, text, replacement),
{
    assert forall|k: int, n: int| #[trigger] tag_at(text, k, n) implies !touches(pattern, text.subrange(k, n + 1)) by {
        lemma_basic_untouched(text.subrange(k, n + 1));
    }
}

proof fn lemma_matched_prefix(m: MatchesV, text: Seq<char>, n: int)
    requires
        matched_text(m, m.found.len() as int) + m.tail == text,
        0 <= n <= m.found.len(),
    ensures
        matched_text(m, n).len() <= text.len(),
        matched_text(m, n) == text.take(matched_text(m, n).len() as int),
    decreases m.found.len() - n,
{
    let a = matched_text(m, n);
    if n == m.found.len() {
        assert(a =~= text.take(a.len() as int));
    } else {
        lemma_matched_prefix(m, text, n + 1);
        let b = matched_text(m, n + 1);
        assert(a =~= b.take(a.len() as int));
        assert(a =~= text.take(a.len() as int));
    }
}

proof fn lemma_all_kept(m: MatchesV, text: Seq<char>, n: int)
    requires
        matched_text(m, m.found.len() as int) + m.tail == text,
        are_all_tags(m),
        whole_groups(m),
        has_basic_tags_only(text),
        0 <= n <= m.found.len(),
    ensures
        assembled(m, kept_tags(m.found), n) == matched_text(m, n),
    decreases n,
{
    if n > 0 {
        lemma_all_kept(m, text, n - 1);
        lemma_matched_prefix(m, text, n);
        let t = m.found[n - 1].groups[0]->0;
        assert(t == group_text(m.found[n - 1].groups, 0));
        assert(is_tag(t));
        let e = matched_text(m, n).len() as int;
        let k = e - t.len();
        assert(text.subrange(k, e) =~= t) by {
            assert(matched_text(m, n).subrange(k, e) =~= t);
            assert(text.take(e).subrange(k, e) =~= text.subrange(k, e));
        }
        assert(tag_at(text, k, e - 1));
    }
}

/// Whether every opening bracket of a text starts a basic tag or is closed at once.
spec fn opens_basic_tags(s: Seq<char>) -> bool {
    forall|k: int| #![trigger s[k]]
        0 <= k < s.len() && s[k] == '<' ==> (k + 1 < s.len() && s[k + 1] == '>') || exists|n: int| #[trigger]
            tag_at(s, k, n) && is_basic_tag(lower_ascii_of(s.subrange(k, n + 1)))
}

proof fn lemma_opens_more(a: Seq<char>, b: Seq<char>)
    requires
        opens_basic_tags(a),
        opens_basic_tags(b),
    ensures
        opens_basic_tags(a + b),
{
    let s = a + b;
    assert forall|k: int| #![trigger s[k]] 0 <= k < s.len() && s[k] == '<' implies (k + 1 < s.len() && s[k + 1] == '>')
        || exists|n: int| #[trigger] tag_at(s, k, n) && is_basic_tag(lower_ascii_of(s.subrange(k, n + 1))) by {
        if k < a.len() {
            assert(a[k] == '<');
            if k + 1 < a.len() && a[k + 1] == '>' {
                assert(s[k + 1] == '>');
            } else {
                let n = choose|n: int| #[trigger] tag_at(a, k, n) && is_basic_tag(lower_ascii_of(a.subrange(k, n + 1)));
                assert(s.subrange(k, n + 1) =~= a.subrange(k, n + 1));
                assert(tag_at(s, k, n));
            }
        } else {
            let j = k - a.len();
            assert(b[j] == '<');
            if j + 1 < b.len() && b[j + 1] == '>' {
                assert(s[k + 1] == '>');
            } else {
                let n = choose|n: int| #[trigger] tag_at(b, j, n) && is_basic_tag(lower_ascii_of(b.subrange(j, n + 1)));
                let e = n + a.len();
                assert(s.subrange(k, e + 1) =~= b.subrange(j, n + 1));
                assert(tag_at(s, k, e));
            }
        }
    }
}

proof fn lemma_kept_opens(t: Seq<char>)
    requires
        is_tag(t),
    ensures
        opens_basic_tags(kept_tag(t)),
{
    let low = lower_ascii_of(t);
    if is_basic_tag(low) {
        lemma_basic_tag(low);
        assert forall|k: int| #![trigger t[k]] 0 <= k < t.len() && t[k] == '<' implies (k + 1 < t.len() && t[k + 1] == '>')
            || exists|n: int| #[trigger] tag_at(t, k, n) && is_basic_tag(lower_ascii_of(t.subrange(k, n + 1))) by {
            assert(low[k] == '<');
            assert(k == 0);
            let n = t.len() - 1;
            assert(t.subrange(0, n + 1) =~= t);
            assert(tag_at(t, 0, n));
        }
    }
}

proof fn lemma_assembled_opens(m: MatchesV, n: int)
    requires
        are_all_tags(m),
        whole_groups(m),
        0 <= n <= m.found.len(),
    ensures
        opens_basic_tags(assembled(m, kept_tags(m.found), n)),
    decreases n,
{
    if n > 0 {
        lemma_assembled_opens(m, n - 1);
        let before = m.found[n - 1].before;
        let t = group_text(m.found[n - 1].groups, 0);
        assert(t == m.found[n - 1].groups[0]->0);
        assert(opens_basic_tags(before));
        lemma_kept_opens(t);
        lemma_opens_more(assembled(m, kept_tags(m.found), n - 1), before);
        lemma_opens_more(assembled(m, kept_tags(m.found), n - 1) + before, kept_tag(t));
    }
}

/// Where all tags of markup were found, those that are left of it are basic ones.
pub proof fn law_basic_tags_are_left(m: MatchesV)
    requires
        are_all_tags(m),
        whole_groups(m),
    ensures
        has_basic_tags_only(basic_tags_kept(m)),
{
    let a = assembled(m, kept_tags(m.found), m.found.len() as int);
    let s = basic_tags_kept(m);
    lemma_assembled_opens(m, m.found.len() as int);
    assert(s == a + m.tail);
    assert forall|k: int, n: int| #[trigger] tag_at(s, k, n) implies is_basic_tag(lower_ascii_of(s.subrange(k, n + 1))) by {
        let t = s.subrange(k, n + 1);
        assert(t[0] == s[k]);
        assert(t[1] == s[k + 1]);
        assert(t[n - k] == s[n]);
        if k < a.len() {
            assert(a[k] == '<');
            if k + 1 < a.len() && a[k + 1] == '>' {
                assert(s[k + 1] == '>');
            } else {
                let e = choose|e: int| #[trigger] tag_at(a, k, e) && is_basic_tag(lower_ascii_of(a.subrange(k, e + 1)));
                let u = a.subrange(k, e + 1);
                assert(u[e - k] == a[e]);
                assert(a[e] == '>');
                if n < e {
                    assert(u[n - k] == s[n]);
                } else if e < n {
                    assert(t[e - k] == a[e]);
                }
                assert(t =~= u);
            }
        } else {
            let j = k - a.len();
            assert(m.tail[j] == '<');
            if j + 1 < m.tail.len() && m.tail[j + 1] == '>' {
                assert(s[k + 1] == '>');
            } else {
                assert(m.tail[n - a.len()] == '>');
            }
        }
    }
}

/// Markup without scripts, styles and comments, its basic tags without
/// attributes, and all other tags taken out.
pub open spec fn cleaned_markup(html: Seq<char>) -> Seq<char> {
    let a = re_replaced(html, script_pattern(), ""@);
    let b = re_replaced(a, style_pattern(), ""@);
    let c = re_replaced(b, comment_pattern(), ""@);
    let d = re_replaced(c, basic_pattern(), "<$1$2>"@);
    match regex_matches("<[^>]+>"@, d) {
        Some(m) => basic_tags_kept(m),
        None => d,
    }
}

/// Cleans markup for reading: basic layout tags stay, without attributes;
/// scripts, styles, comments and all other tags are removed. Markup that has
/// basic tags only, as cleaned markup does, is left as it is.
pub fn clean_html(html: &str) -> (r: String)
    ensures
        r@ == cleaned_markup(html@),
        has_basic_tags_only(r@),
        has_basic_tags_only(html@) ==> r@ == html@,
{
    proof {
        if has_basic_tags_only(html@) {
            lemma_left_alone(script_pattern(), html@, ""@);
            lemma_left_alone(style_pattern(), html@, ""@);
            lemma_left_alone(comment_pattern(), html@, ""@);
            lemma_left_alone(basic_pattern(), html@, "<$1$2>"@);
        }
    }
    let t = apply_regex_replace(html, "(?is)<script[^>]*>.*?</script>", "");
    let t = apply_regex_replace(t.as_str(), "(?is)<style[^>]*>.*?</style>", "");
    let t = apply_regex_replace(t.as_str(), "(?s)<!--.*?-->", "");
    let t = apply_regex_replace(
        t.as_str(),
        "(?i)<(/?)(p|br|b|strong|i|em|u|h[1-6]|li|ul|ol)(?:\\s+[^>]*)?/?>",
        "<$1$2>",
    );
    match find_matches("<[^>]+>", t.as_str()) {
        Some(m) => {
            proof {
                law_basic_tags_are_left(m.model());
                if has_basic_tags_only(html@) {
                    lemma_all_kept(m.model(), html@, m.found.len() as int);
                }
            }
            keep_basic_tags(&m)
        },
        None => t,
    }
}

/// Takes out of markup the tags that were found in it and are not basic ones.
pub fn keep_basic_tags(m: &Matches) -> (r: String)
    ensures
        r@ == basic_tags_kept(m.model()),
{
    let ghost all = found_models(m.found@);
    let mut parts: Vec<String> = Vec::new();
    let mut i: usize = 0;
    while i < m.found.len()
        invariant
            i <= m.found.len(),
            all == found_models(m.found@),
            texts(parts@) =~= kept_tags(all).take(i as int),
        decreases m.found.len() - i,
    {
        assert(all[i as int] == m.found@[i as int].model());
        let tag = group_at(&m.found[i].groups, 0);
        let ghost before = texts(parts@);
        let ghost x = kept_tag(tag@);
        if basic_tag(to_ascii_lowercase(tag.as_str()).as_str()) {
            parts.push(tag);
        } else {
            parts.push(String::new());
            assert(parts@.last()@ =~= seq![]);
        }
        assert(texts(parts@) =~= before.push(x));
        i = i + 1;
    }
    assert(kept_tags(all).take(all.len() as int) =~= kept_tags(all));
    assert(parts.len() == texts(parts@).len());
    assemble(m, &parts)
}

} // verus!
