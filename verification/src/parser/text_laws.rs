//! What holds of texts: of replacements, of entities and of lines.

use crate::crawler::address_laws::{law_number_reads_back, lemma_absent_replaced, lemma_replaced_once};
use crate::ext::regexes::{regex_matches, regex_replaced};
use crate::model::rule::ContentRule;
use crate::parser::chain_laws::strung;
use crate::parser::context::CtxV;
use crate::parser::field_laws::{is_bare, lemma_bare_rule};
use crate::parser::html::all_text_of;
use crate::parser::markup::{
    entity_text, first_group, image_tag, named_entities_replaced, text_with_images, tidy_lines, unescaped,
};
use crate::parser::rule_engine::{chapter_text, detected_mode};
use crate::parser::script::{Oracle, World};
use crate::parser::source_rule::{all_replaced, regex_applied, steps_applied, without_mode, ParseMode};
use crate::parser::value_laws::{lemma_trimmed_ones, trimmed_ones};
use crate::util::address::resolved_url;
use crate::util::chars::{
    all_digits, char_of_code, code_of, contains_text, decimal_of, find_from, has_suffix, is_char_code, is_space,
    join_of, lemma_find_from, lemma_solid_ends, lemma_split_join, occurs_at, opt_text, replace_of, split_from,
};
use vstd::prelude::*;
use vstd::string::*;

verus! {

proof fn lemma_entity_names()
    ensures
        "&nbsp;"@.len() == 6 && "&nbsp;"@[0] == '&',
        "&nbsp;"@[1] == 'n' && "&nbsp;"@[2] == 'b' && "&nbsp;"@[3] == 's' && "&nbsp;"@[4] == 'p' && "&nbsp;"@[5] == ';',
        "&emsp;"@.len() == 6 && "&emsp;"@[0] == '&',
        "&emsp;"@[1] == 'e' && "&emsp;"@[2] == 'm' && "&emsp;"@[3] == 's' && "&emsp;"@[4] == 'p' && "&emsp;"@[5] == ';',
        "&ensp;"@.len() == 6 && "&ensp;"@[0] == '&',
        "&ensp;"@[1] == 'e' && "&ensp;"@[2] == 'n' && "&ensp;"@[3] == 's' && "&ensp;"@[4] == 'p' && "&ensp;"@[5] == ';',
        "&quot;"@.len() == 6 && "&quot;"@[0] == '&',
        "&quot;"@[1] == 'q' && "&quot;"@[2] == 'u' && "&quot;"@[3] == 'o' && "&quot;"@[4] == 't' && "&quot;"@[5] == ';',
        "&apos;"@.len() == 6 && "&apos;"@[0] == '&',
        "&apos;"@[1] == 'a' && "&apos;"@[2] == 'p' && "&apos;"@[3] == 'o' && "&apos;"@[4] == 's' && "&apos;"@[5] == ';',
        "&lt;"@.len() == 4 && "&lt;"@[0] == '&',
        "&lt;"@[1] == 'l' && "&lt;"@[2] == 't' && "&lt;"@[3] == ';',
        "&gt;"@.len() == 4 && "&gt;"@[0] == '&',
        "&gt;"@[1] == 'g' && "&gt;"@[2] == 't' && "&gt;"@[3] == ';',
        "&copy;"@.len() == 6 && "&copy;"@[0] == '&',
        "&copy;"@[1] == 'c' && "&copy;"@[2] == 'o' && "&copy;"@[3] == 'p' && "&copy;"@[4] == 'y' && "&copy;"@[5] == ';',
        "&reg;"@.len() == 5 && "&reg;"@[0] == '&',
        "&reg;"@[1] == 'r' && "&reg;"@[2] == 'e' && "&reg;"@[3] == 'g' && "&reg;"@[4] == ';',
        "&trade;"@.len() == 7 && "&trade;"@[0] == '&',
        "&trade;"@[1] == 't' && "&trade;"@[2] == 'r' && "&trade;"@[3] == 'a' && "&trade;"@[4] == 'd' && "&trade;"@[5] == 'e' && "&trade;"@[6] == ';',
        "&mdash;"@.len() == 7 && "&mdash;"@[0] == '&',
        "&mdash;"@[1] == 'm' && "&mdash;"@[2] == 'd' && "&mdash;"@[3] == 'a' && "&mdash;"@[4] == 's' && "&mdash;"@[5] == 'h' && "&mdash;"@[6] == ';',
        "&ndash;"@.len() == 7 && "&ndash;"@[0] == '&',
        "&ndash;"@[1] == 'n' && "&ndash;"@[2] == 'd' && "&ndash;"@[3] == 'a' && "&ndash;"@[4] == 's' && "&ndash;"@[5] == 'h' && "&ndash;"@[6] == ';',
        "&hellip;"@.len() == 8 && "&hellip;"@[0] == '&',
        "&hellip;"@[1] == 'h' && "&hellip;"@[2] == 'e' && "&hellip;"@[3] == 'l' && "&hellip;"@[4] == 'l' && "&hellip;"@[5] == 'i' && "&hellip;"@[6] == 'p' && "&hellip;"@[7] == ';',
        "&amp;"@.len() == 5 && "&amp;"@[0] == '&',
        "&amp;"@[1] == 'a' && "&amp;"@[2] == 'm' && "&amp;"@[3] == 'p' && "&amp;"@[4] == ';',
        " "@ == seq![' '],
        "\u{3000}"@ == seq!['\u{3000}'],
        "\""@ == seq!['"'],
        "'"@ == seq!['\''],
        "<"@ == seq!['<'],
        ">"@ == seq!['>'],
        "©"@ == seq!['©'],
        "®"@ == seq!['®'],
        "™"@ == seq!['™'],
        "—"@ == seq!['—'],
        "–"@ == seq!['–'],
        "…"@ == seq!['…'],
        "&"@ == seq!['&'],
{
    reveal_strlit("&nbsp;");
    reveal_strlit("&emsp;");
    reveal_strlit("&ensp;");
    reveal_strlit("&quot;");
    reveal_strlit("&apos;");
    reveal_strlit("&lt;");
    reveal_strlit("&gt;");
    reveal_strlit("&copy;");
    reveal_strlit("&reg;");
    reveal_strlit("&trade;");
    reveal_strlit("&mdash;");
    reveal_strlit("&ndash;");
    reveal_strlit("&hellip;");
    reveal_strlit("&amp;");
    reveal_strlit(" ");
    reveal_strlit("\u{3000}");
    reveal_strlit("\"");
    reveal_strlit("'");
    reveal_strlit("<");
    reveal_strlit(">");
    reveal_strlit("©");
    reveal_strlit("®");
    reveal_strlit("™");
    reveal_strlit("—");
    reveal_strlit("–");
    reveal_strlit("…");
    reveal_strlit("&");
    assert(" "@ =~= seq![' ']);
    assert("\u{3000}"@ =~= seq!['\u{3000}']);
    assert("\""@ =~= seq!['"']);
    assert("'"@ =~= seq!['\'']);
    assert("<"@ =~= seq!['<']);
    assert(">"@ =~= seq!['>']);
    assert("©"@ =~= seq!['©']);
    assert("®"@ =~= seq!['®']);
    assert("™"@ =~= seq!['™']);
    assert("—"@ =~= seq!['—']);
    assert("–"@ =~= seq!['–']);
    assert("…"@ =~= seq!['…']);
    assert("&"@ =~= seq!['&']);
}

proof fn lemma_three_parts(a: Seq<char>, t: Seq<char>, b: Seq<char>)
    requires
        !a.contains('&'),
        !b.contains('&'),
        t.len() == 1,
        t[0] != '&',
    ensures
        forall|i: int| 0 <= i < (a + t + b).len() ==> #[trigger] (a + t + b)[i] != '&',
{
    let r = a + t + b;
    assert forall|i: int| 0 <= i < r.len() implies #[trigger] r[i] != '&' by {
        if i < a.len() {
            assert(r[i] == a[i]);
        } else if i > a.len() {
            assert(r[i] == b[i - a.len() - 1]);
        }
    }
}

proof fn lemma_entity_ends(a: Seq<char>, ent: Seq<char>, b: Seq<char>)
    requires
        !a.contains('&'),
        !b.contains('&'),
        ent.len() > 0,
        ent[0] == '&',
    ensures
        forall|i: int| 0 <= i < a.len() ==> #[trigger] a[i] != ent[0],
        forall|i: int| 0 <= i < b.len() ==> !occurs_at(b, ent, i),
{
    assert forall|i: int| 0 <= i < b.len() implies !occurs_at(b, ent, i) by {
        if occurs_at(b, ent, i) {
            assert(b.subrange(i, i + ent.len())[0] == b[i]);
        }
    }
}

/// Another entity is not touched.
proof fn lemma_other_entity(a: Seq<char>, ent: Seq<char>, b: Seq<char>, q: Seq<char>, to: Seq<char>, d: int)
    requires
        !a.contains('&'),
        !b.contains('&'),
        0 < d < ent.len(),
        d < q.len(),
        q[0] == '&',
        ent[0] == '&',
        forall|i: int| 1 <= i < ent.len() ==> #[trigger] ent[i] != '&',
        ent[d] != q[d],
    ensures
        replace_of(a + ent + b, q, to) == a + ent + b,
{
    let s = a + ent + b;
    let k = a.len() as int;
    lemma_find_from(s, q, 0);
    if let Some(j) = find_from(s, q, 0) {
        assert(s.subrange(j, j + q.len())[0] == s[j]);
        assert(s.subrange(j, j + q.len())[d] == s[j + d]);
        if j < k {
            assert(s[j] == a[j]);
        } else if j == k {
            assert(s[j + d] == ent[d]);
        } else if j < k + ent.len() {
            assert(s[j] == ent[j - k]);
        } else {
            assert(s[j] == b[j - k - ent.len()]);
        }
    }
    lemma_absent_replaced(s, q, to);
}

proof fn lemma_no_entity(r: Seq<char>, q: Seq<char>, to: Seq<char>)
    requires
        !r.contains('&'),
        q.len() > 0,
        q[0] == '&',
    ensures
        replace_of(r, q, to) == r,
{
    lemma_find_from(r, q, 0);
    if let Some(j) = find_from(r, q, 0) {
        assert(r.subrange(j, j + q.len())[0] == r[j]);
    }
    lemma_absent_replaced(r, q, to);
}

proof fn lemma_entity_nbsp(a: Seq<char>, b: Seq<char>)
    requires
        !a.contains('&'),
        !b.contains('&'),
    ensures
        named_entities_replaced(a + "&nbsp;"@ + b) == a + " "@ + b,
{
    lemma_entity_names();
    lemma_entity_ends(a, "&nbsp;"@, b);
    let r = a + " "@ + b;
    assert(!r.contains('&')) by {
        assert(forall|i: int| 0 <= i < r.len() ==> #[trigger] r[i] != '&') by {
            lemma_three_parts(a, " "@, b);
        }
    }
    lemma_replaced_once(a, "&nbsp;"@, b, " "@);
    lemma_no_entity(r, "&emsp;"@, "\u{3000}"@);
    lemma_no_entity(r, "&ensp;"@, " "@);
    lemma_no_entity(r, "&quot;"@, "\""@);
    lemma_no_entity(r, "&apos;"@, "'"@);
    lemma_no_entity(r, "&lt;"@, "<"@);
    lemma_no_entity(r, "&gt;"@, ">"@);
    lemma_no_entity(r, "&copy;"@, "©"@);
    lemma_no_entity(r, "&reg;"@, "®"@);
    lemma_no_entity(r, "&trade;"@, "™"@);
    lemma_no_entity(r, "&mdash;"@, "—"@);
    lemma_no_entity(r, "&ndash;"@, "–"@);
    lemma_no_entity(r, "&hellip;"@, "…"@);
    lemma_no_entity(r, "&amp;"@, "&"@);
}

proof fn lemma_entity_emsp(a: Seq<char>, b: Seq<char>)
    requires
        !a.contains('&'),
        !b.contains('&'),
    ensures
        named_entities_replaced(a + "&emsp;"@ + b) == a + "\u{3000}"@ + b,
{
    lemma_entity_names();
    lemma_entity_ends(a, "&emsp;"@, b);
    let r = a + "\u{3000}"@ + b;
    assert(!r.contains('&')) by {
        assert(forall|i: int| 0 <= i < r.len() ==> #[trigger] r[i] != '&') by {
            lemma_three_parts(a, "\u{3000}"@, b);
        }
    }
    lemma_other_entity(a, "&emsp;"@, b, "&nbsp;"@, " "@, 1);
    lemma_replaced_once(a, "&emsp;"@, b, "\u{3000}"@);
    lemma_no_entity(r, "&ensp;"@, " "@);
    lemma_no_entity(r, "&quot;"@, "\""@);
    lemma_no_entity(r, "&apos;"@, "'"@);
    lemma_no_entity(r, "&lt;"@, "<"@);
    lemma_no_entity(r, "&gt;"@, ">"@);
    lemma_no_entity(r, "&copy;"@, "©"@);
    lemma_no_entity(r, "&reg;"@, "®"@);
    lemma_no_entity(r, "&trade;"@, "™"@);
    lemma_no_entity(r, "&mdash;"@, "—"@);
    lemma_no_entity(r, "&ndash;"@, "–"@);
    lemma_no_entity(r, "&hellip;"@, "…"@);
    lemma_no_entity(r, "&amp;"@, "&"@);
}

proof fn lemma_entity_ensp(a: Seq<char>, b: Seq<char>)
    requires
        !a.contains('&'),
        !b.contains('&'),
    ensures
        named_entities_replaced(a + "&ensp;"@ + b) == a + " "@ + b,
{
    lemma_entity_names();
    lemma_entity_ends(a, "&ensp;"@, b);
    let r = a + " "@ + b;
    assert(!r.contains('&')) by {
        assert(forall|i: int| 0 <= i < r.len() ==> #[trigger] r[i] != '&') by {
            lemma_three_parts(a, " "@, b);
        }
    }
    lemma_other_entity(a, "&ensp;"@, b, "&nbsp;"@, " "@, 1);
    lemma_other_entity(a, "&ensp;"@, b, "&emsp;"@, "\u{3000}"@, 2);
    lemma_replaced_once(a, "&ensp;"@, b, " "@);
    lemma_no_entity(r, "&quot;"@, "\""@);
    lemma_no_entity(r, "&apos;"@, "'"@);
    lemma_no_entity(r, "&lt;"@, "<"@);
    lemma_no_entity(r, "&gt;"@, ">"@);
    lemma_no_entity(r, "&copy;"@, "©"@);
    lemma_no_entity(r, "&reg;"@, "®"@);
    lemma_no_entity(r, "&trade;"@, "™"@);
    lemma_no_entity(r, "&mdash;"@, "—"@);
    lemma_no_entity(r, "&ndash;"@, "–"@);
    lemma_no_entity(r, "&hellip;"@, "…"@);
    lemma_no_entity(r, "&amp;"@, "&"@);
}

proof fn lemma_entity_quot(a: Seq<char>, b: Seq<char>)
    requires
        !a.contains('&'),
        !b.contains('&'),
    ensures
        named_entities_replaced(a + "&quot;"@ + b) == a + "\""@ + b,
{
    lemma_entity_names();
    lemma_entity_ends(a, "&quot;"@, b);
    let r = a + "\""@ + b;
    assert(!r.contains('&')) by {
        assert(forall|i: int| 0 <= i < r.len() ==> #[trigger] r[i] != '&') by {
            lemma_three_parts(a, "\""@, b);
        }
    }
    lemma_other_entity(a, "&quot;"@, b, "&nbsp;"@, " "@, 1);
    lemma_other_entity(a, "&quot;"@, b, "&emsp;"@, "\u{3000}"@, 1);
    lemma_other_entity(a, "&quot;"@, b, "&ensp;"@, " "@, 1);
    lemma_replaced_once(a, "&quot;"@, b, "\""@);
    lemma_no_entity(r, "&apos;"@, "'"@);
    lemma_no_entity(r, "&lt;"@, "<"@);
    lemma_no_entity(r, "&gt;"@, ">"@);
    lemma_no_entity(r, "&copy;"@, "©"@);
    lemma_no_entity(r, "&reg;"@, "®"@);
    lemma_no_entity(r, "&trade;"@, "™"@);
    lemma_no_entity(r, "&mdash;"@, "—"@);
    lemma_no_entity(r, "&ndash;"@, "–"@);
    lemma_no_entity(r, "&hellip;"@, "…"@);
    lemma_no_entity(r, "&amp;"@, "&"@);
}

proof fn lemma_entity_apos(a: Seq<char>, b: Seq<char>)
    requires
        !a.contains('&'),
        !b.contains('&'),
    ensures
        named_entities_replaced(a + "&apos;"@ + b) == a + "'"@ + b,
{
    lemma_entity_names();
    lemma_entity_ends(a, "&apos;"@, b);
    let r = a + "'"@ + b;
    assert(!r.contains('&')) by {
        assert(forall|i: int| 0 <= i < r.len() ==> #[trigger] r[i] != '&') by {
            lemma_three_parts(a, "'"@, b);
        }
    }
    lemma_other_entity(a, "&apos;"@, b, "&nbsp;"@, " "@, 1);
    lemma_other_entity(a, "&apos;"@, b, "&emsp;"@, "\u{3000}"@, 1);
    lemma_other_entity(a, "&apos;"@, b, "&ensp;"@, " "@, 1);
    lemma_other_entity(a, "&apos;"@, b, "&quot;"@, "\""@, 1);
    lemma_replaced_once(a, "&apos;"@, b, "'"@);
    lemma_no_entity(r, "&lt;"@, "<"@);
    lemma_no_entity(r, "&gt;"@, ">"@);
    lemma_no_entity(r, "&copy;"@, "©"@);
    lemma_no_entity(r, "&reg;"@, "®"@);
    lemma_no_entity(r, "&trade;"@, "™"@);
    lemma_no_entity(r, "&mdash;"@, "—"@);
    lemma_no_entity(r, "&ndash;"@, "–"@);
    lemma_no_entity(r, "&hellip;"@, "…"@);
    lemma_no_entity(r, "&amp;"@, "&"@);
}

proof fn lemma_entity_lt(a: Seq<char>, b: Seq<char>)
    requires
        !a.contains('&'),
        !b.contains('&'),
    ensures
        named_entities_replaced(a + "&lt;"@ + b) == a + "<"@ + b,
{
    lemma_entity_names();
    lemma_entity_ends(a, "&lt;"@, b);
    let r = a + "<"@ + b;
    assert(!r.contains('&')) by {
        assert(forall|i: int| 0 <= i < r.len() ==> #[trigger] r[i] != '&') by {
            lemma_three_parts(a, "<"@, b);
        }
    }
    lemma_other_entity(a, "&lt;"@, b, "&nbsp;"@, " "@, 1);
    lemma_other_entity(a, "&lt;"@, b, "&emsp;"@, "\u{3000}"@, 1);
    lemma_other_entity(a, "&lt;"@, b, "&ensp;"@, " "@, 1);
    lemma_other_entity(a, "&lt;"@, b, "&quot;"@, "\""@, 1);
    lemma_other_entity(a, "&lt;"@, b, "&apos;"@, "'"@, 1);
    lemma_replaced_once(a, "&lt;"@, b, "<"@);
    lemma_no_entity(r, "&gt;"@, ">"@);
    lemma_no_entity(r, "&copy;"@, "©"@);
    lemma_no_entity(r, "&reg;"@, "®"@);
    lemma_no_entity(r, "&trade;"@, "™"@);
    lemma_no_entity(r, "&mdash;"@, "—"@);
    lemma_no_entity(r, "&ndash;"@, "–"@);
    lemma_no_entity(r, "&hellip;"@, "…"@);
    lemma_no_entity(r, "&amp;"@, "&"@);
}

proof fn lemma_entity_gt(a: Seq<char>, b: Seq<char>)
    requires
        !a.contains('&'),
        !b.contains('&'),
    ensures
        named_entities_replaced(a + "&gt;"@ + b) == a + ">"@ + b,
{
    lemma_entity_names();
    lemma_entity_ends(a, "&gt;"@, b);
    let r = a + ">"@ + b;
    assert(!r.contains('&')) by {
        assert(forall|i: int| 0 <= i < r.len() ==> #[trigger] r[i] != '&') by {
            lemma_three_parts(a, ">"@, b);
        }
    }
    lemma_other_entity(a, "&gt;"@, b, "&nbsp;"@, " "@, 1);
    lemma_other_entity(a, "&gt;"@, b, "&emsp;"@, "\u{3000}"@, 1);
    lemma_other_entity(a, "&gt;"@, b, "&ensp;"@, " "@, 1);
    lemma_other_entity(a, "&gt;"@, b, "&quot;"@, "\""@, 1);
    lemma_other_entity(a, "&gt;"@, b, "&apos;"@, "'"@, 1);
    lemma_other_entity(a, "&gt;"@, b, "&lt;"@, "<"@, 1);
    lemma_replaced_once(a, "&gt;"@, b, ">"@);
    lemma_no_entity(r, "&copy;"@, "©"@);
    lemma_no_entity(r, "&reg;"@, "®"@);
    lemma_no_entity(r, "&trade;"@, "™"@);
    lemma_no_entity(r, "&mdash;"@, "—"@);
    lemma_no_entity(r, "&ndash;"@, "–"@);
    lemma_no_entity(r, "&hellip;"@, "…"@);
    lemma_no_entity(r, "&amp;"@, "&"@);
}

proof fn lemma_entity_copy(a: Seq<char>, b: Seq<char>)
    requires
        !a.contains('&'),
        !b.contains('&'),
    ensures
        named_entities_replaced(a + "&copy;"@ + b) == a + "©"@ + b,
{
    lemma_entity_names();
    lemma_entity_ends(a, "&copy;"@, b);
    let r = a + "©"@ + b;
    assert(!r.contains('&')) by {
        assert(forall|i: int| 0 <= i < r.len() ==> #[trigger] r[i] != '&') by {
            lemma_three_parts(a, "©"@, b);
        }
    }
    lemma_other_entity(a, "&copy;"@, b, "&nbsp;"@, " "@, 1);
    lemma_other_entity(a, "&copy;"@, b, "&emsp;"@, "\u{3000}"@, 1);
    lemma_other_entity(a, "&copy;"@, b, "&ensp;"@, " "@, 1);
    lemma_other_entity(a, "&copy;"@, b, "&quot;"@, "\""@, 1);
    lemma_other_entity(a, "&copy;"@, b, "&apos;"@, "'"@, 1);
    lemma_other_entity(a, "&copy;"@, b, "&lt;"@, "<"@, 1);
    lemma_other_entity(a, "&copy;"@, b, "&gt;"@, ">"@, 1);
    lemma_replaced_once(a, "&copy;"@, b, "©"@);
    lemma_no_entity(r, "&reg;"@, "®"@);
    lemma_no_entity(r, "&trade;"@, "™"@);
    lemma_no_entity(r, "&mdash;"@, "—"@);
    lemma_no_entity(r, "&ndash;"@, "–"@);
    lemma_no_entity(r, "&hellip;"@, "…"@);
    lemma_no_entity(r, "&amp;"@, "&"@);
}

proof fn lemma_entity_reg(a: Seq<char>, b: Seq<char>)
    requires
        !a.contains('&'),
        !b.contains('&'),
    ensures
        named_entities_replaced(a + "&reg;"@ + b) == a + "®"@ + b,
{
    lemma_entity_names();
    lemma_entity_ends(a, "&reg;"@, b);
    let r = a + "®"@ + b;
    assert(!r.contains('&')) by {
        assert(forall|i: int| 0 <= i < r.len() ==> #[trigger] r[i] != '&') by {
            lemma_three_parts(a, "®"@, b);
        }
    }
    lemma_other_entity(a, "&reg;"@, b, "&nbsp;"@, " "@, 1);
    lemma_other_entity(a, "&reg;"@, b, "&emsp;"@, "\u{3000}"@, 1);
    lemma_other_entity(a, "&reg;"@, b, "&ensp;"@, " "@, 1);
    lemma_other_entity(a, "&reg;"@, b, "&quot;"@, "\""@, 1);
    lemma_other_entity(a, "&reg;"@, b, "&apos;"@, "'"@, 1);
    lemma_other_entity(a, "&reg;"@, b, "&lt;"@, "<"@, 1);
    lemma_other_entity(a, "&reg;"@, b, "&gt;"@, ">"@, 1);
    lemma_other_entity(a, "&reg;"@, b, "&copy;"@, "©"@, 1);
    lemma_replaced_once(a, "&reg;"@, b, "®"@);
    lemma_no_entity(r, "&trade;"@, "™"@);
    lemma_no_entity(r, "&mdash;"@, "—"@);
    lemma_no_entity(r, "&ndash;"@, "–"@);
    lemma_no_entity(r, "&hellip;"@, "…"@);
    lemma_no_entity(r, "&amp;"@, "&"@);
}

proof fn lemma_entity_trade(a: Seq<char>, b: Seq<char>)
    requires
        !a.contains('&'),
        !b.contains('&'),
    ensures
        named_entities_replaced(a + "&trade;"@ + b) == a + "™"@ + b,
{
    lemma_entity_names();
    lemma_entity_ends(a, "&trade;"@, b);
    let r = a + "™"@ + b;
    assert(!r.contains('&')) by {
        assert(forall|i: int| 0 <= i < r.len() ==> #[trigger] r[i] != '&') by {
            lemma_three_parts(a, "™"@, b);
        }
    }
    lemma_other_entity(a, "&trade;"@, b, "&nbsp;"@, " "@, 1);
    lemma_other_entity(a, "&trade;"@, b, "&emsp;"@, "\u{3000}"@, 1);
    lemma_other_entity(a, "&trade;"@, b, "&ensp;"@, " "@, 1);
    lemma_other_entity(a, "&trade;"@, b, "&quot;"@, "\""@, 1);
    lemma_other_entity(a, "&trade;"@, b, "&apos;"@, "'"@, 1);
    lemma_other_entity(a, "&trade;"@, b, "&lt;"@, "<"@, 1);
    lemma_other_entity(a, "&trade;"@, b, "&gt;"@, ">"@, 1);
    lemma_other_entity(a, "&trade;"@, b, "&copy;"@, "©"@, 1);
    lemma_other_entity(a, "&trade;"@, b, "&reg;"@, "®"@, 1);
    lemma_replaced_once(a, "&trade;"@, b, "™"@);
    lemma_no_entity(r, "&mdash;"@, "—"@);
    lemma_no_entity(r, "&ndash;"@, "–"@);
    lemma_no_entity(r, "&hellip;"@, "…"@);
    lemma_no_entity(r, "&amp;"@, "&"@);
}

proof fn lemma_entity_mdash(a: Seq<char>, b: Seq<char>)
    requires
        !a.contains('&'),
        !b.contains('&'),
    ensures
        named_entities_replaced(a + "&mdash;"@ + b) == a + "—"@ + b,
{
    lemma_entity_names();
    lemma_entity_ends(a, "&mdash;"@, b);
    let r = a + "—"@ + b;
    assert(!r.contains('&')) by {
        assert(forall|i: int| 0 <= i < r.len() ==> #[trigger] r[i] != '&') by {
            lemma_three_parts(a, "—"@, b);
        }
    }
    lemma_other_entity(a, "&mdash;"@, b, "&nbsp;"@, " "@, 1);
    lemma_other_entity(a, "&mdash;"@, b, "&emsp;"@, "\u{3000}"@, 1);
    lemma_other_entity(a, "&mdash;"@, b, "&ensp;"@, " "@, 1);
    lemma_other_entity(a, "&mdash;"@, b, "&quot;"@, "\""@, 1);
    lemma_other_entity(a, "&mdash;"@, b, "&apos;"@, "'"@, 1);
    lemma_other_entity(a, "&mdash;"@, b, "&lt;"@, "<"@, 1);
    lemma_other_entity(a, "&mdash;"@, b, "&gt;"@, ">"@, 1);
    lemma_other_entity(a, "&mdash;"@, b, "&copy;"@, "©"@, 1);
    lemma_other_entity(a, "&mdash;"@, b, "&reg;"@, "®"@, 1);
    lemma_other_entity(a, "&mdash;"@, b, "&trade;"@, "™"@, 1);
    lemma_replaced_once(a, "&mdash;"@, b, "—"@);
    lemma_no_entity(r, "&ndash;"@, "–"@);
    lemma_no_entity(r, "&hellip;"@, "…"@);
    lemma_no_entity(r, "&amp;"@, "&"@);
}

proof fn lemma_entity_ndash(a: Seq<char>, b: Seq<char>)
    requires
        !a.contains('&'),
        !b.contains('&'),
    ensures
        named_entities_replaced(a + "&ndash;"@ + b) == a + "–"@ + b,
{
    lemma_entity_names();
    lemma_entity_ends(a, "&ndash;"@, b);
    let r = a + "–"@ + b;
    assert(!r.contains('&')) by {
        assert(forall|i: int| 0 <= i < r.len() ==> #[trigger] r[i] != '&') by {
            lemma_three_parts(a, "–"@, b);
        }
    }
    lemma_other_entity(a, "&ndash;"@, b, "&nbsp;"@, " "@, 2);
    lemma_other_entity(a, "&ndash;"@, b, "&emsp;"@, "\u{3000}"@, 1);
    lemma_other_entity(a, "&ndash;"@, b, "&ensp;"@, " "@, 1);
    lemma_other_entity(a, "&ndash;"@, b, "&quot;"@, "\""@, 1);
    lemma_other_entity(a, "&ndash;"@, b, "&apos;"@, "'"@, 1);
    lemma_other_entity(a, "&ndash;"@, b, "&lt;"@, "<"@, 1);
    lemma_other_entity(a, "&ndash;"@, b, "&gt;"@, ">"@, 1);
    lemma_other_entity(a, "&ndash;"@, b, "&copy;"@, "©"@, 1);
    lemma_other_entity(a, "&ndash;"@, b, "&reg;"@, "®"@, 1);
    lemma_other_entity(a, "&ndash;"@, b, "&trade;"@, "™"@, 1);
    lemma_other_entity(a, "&ndash;"@, b, "&mdash;"@, "—"@, 1);
    lemma_replaced_once(a, "&ndash;"@, b, "–"@);
    lemma_no_entity(r, "&hellip;"@, "…"@);
    lemma_no_entity(r, "&amp;"@, "&"@);
}

proof fn lemma_entity_hellip(a: Seq<char>, b: Seq<char>)
    requires
        !a.contains('&'),
        !b.contains('&'),
    ensures
        named_entities_replaced(a + "&hellip;"@ + b) == a + "…"@ + b,
{
    lemma_entity_names();
    lemma_entity_ends(a, "&hellip;"@, b);
    let r = a + "…"@ + b;
    assert(!r.contains('&')) by {
        assert(forall|i: int| 0 <= i < r.len() ==> #[trigger] r[i] != '&') by {
            lemma_three_parts(a, "…"@, b);
        }
    }
    lemma_other_entity(a, "&hellip;"@, b, "&nbsp;"@, " "@, 1);
    lemma_other_entity(a, "&hellip;"@, b, "&emsp;"@, "\u{3000}"@, 1);
    lemma_other_entity(a, "&hellip;"@, b, "&ensp;"@, " "@, 1);
    lemma_other_entity(a, "&hellip;"@, b, "&quot;"@, "\""@, 1);
    lemma_other_entity(a, "&hellip;"@, b, "&apos;"@, "'"@, 1);
    lemma_other_entity(a, "&hellip;"@, b, "&lt;"@, "<"@, 1);
    lemma_other_entity(a, "&hellip;"@, b, "&gt;"@, ">"@, 1);
    lemma_other_entity(a, "&hellip;"@, b, "&copy;"@, "©"@, 1);
    lemma_other_entity(a, "&hellip;"@, b, "&reg;"@, "®"@, 1);
    lemma_other_entity(a, "&hellip;"@, b, "&trade;"@, "™"@, 1);
    lemma_other_entity(a, "&hellip;"@, b, "&mdash;"@, "—"@, 1);
    lemma_other_entity(a, "&hellip;"@, b, "&ndash;"@, "–"@, 1);
    lemma_replaced_once(a, "&hellip;"@, b, "…"@);
    lemma_no_entity(r, "&amp;"@, "&"@);
}

proof fn lemma_entity_amp(a: Seq<char>, b: Seq<char>)
    requires
        !a.contains('&'),
        !b.contains('&'),
    ensures
        named_entities_replaced(a + "&amp;"@ + b) == a + "&"@ + b,
{
    lemma_entity_names();
    lemma_entity_ends(a, "&amp;"@, b);
    let r = a + "&"@ + b;
    lemma_other_entity(a, "&amp;"@, b, "&nbsp;"@, " "@, 1);
    lemma_other_entity(a, "&amp;"@, b, "&emsp;"@, "\u{3000}"@, 1);
    lemma_other_entity(a, "&amp;"@, b, "&ensp;"@, " "@, 1);
    lemma_other_entity(a, "&amp;"@, b, "&quot;"@, "\""@, 1);
    lemma_other_entity(a, "&amp;"@, b, "&apos;"@, "'"@, 2);
    lemma_other_entity(a, "&amp;"@, b, "&lt;"@, "<"@, 1);
    lemma_other_entity(a, "&amp;"@, b, "&gt;"@, ">"@, 1);
    lemma_other_entity(a, "&amp;"@, b, "&copy;"@, "©"@, 1);
    lemma_other_entity(a, "&amp;"@, b, "&reg;"@, "®"@, 1);
    lemma_other_entity(a, "&amp;"@, b, "&trade;"@, "™"@, 1);
    lemma_other_entity(a, "&amp;"@, b, "&mdash;"@, "—"@, 1);
    lemma_other_entity(a, "&amp;"@, b, "&ndash;"@, "–"@, 1);
    lemma_other_entity(a, "&amp;"@, b, "&hellip;"@, "…"@, 1);
    lemma_replaced_once(a, "&amp;"@, b, "&"@);
}

proof fn lemma_settled(s: Seq<char>, r: Seq<char>)
    requires
        named_entities_replaced(s) == r,
        contains_text(s, "&"@),
        !r.contains('&'),
    ensures
        unescaped(s) == r,
{
    reveal_strlit("&#");
    lemma_find_from(r, "&#"@, 0);
    if let Some(j) = find_from(r, "&#"@, 0) {
        assert(r.subrange(j, j + 2)[0] == r[j]);
    }
}

proof fn lemma_has_mark(a: Seq<char>, ent: Seq<char>, b: Seq<char>)
    requires
        ent.len() > 0,
        ent[0] == '&',
    ensures
        contains_text(a + ent + b, "&"@),
{
    reveal_strlit("&");
    let s = a + ent + b;
    lemma_find_from(s, "&"@, 0);
    assert(s.subrange(a.len() as int, a.len() as int + 1) =~= "&"@);
    assert(occurs_at(s, "&"@, a.len() as int));
}

/// A named entity stands for its character, and the text around it stays; a
/// text without entities stays.
#[verifier::rlimit(60)]
pub proof fn law_entities_are_replaced(a: Seq<char>, b: Seq<char>)
    requires
        !a.contains('&'),
        !b.contains('&'),
    ensures
        unescaped(a) == a,
        unescaped(a + "&nbsp;"@ + b) == a + " "@ + b,
        unescaped(a + "&emsp;"@ + b) == a + "\u{3000}"@ + b,
        unescaped(a + "&ensp;"@ + b) == a + " "@ + b,
        unescaped(a + "&quot;"@ + b) == a + "\""@ + b,
        unescaped(a + "&apos;"@ + b) == a + "'"@ + b,
        unescaped(a + "&lt;"@ + b) == a + "<"@ + b,
        unescaped(a + "&gt;"@ + b) == a + ">"@ + b,
        unescaped(a + "&copy;"@ + b) == a + "©"@ + b,
        unescaped(a + "&reg;"@ + b) == a + "®"@ + b,
        unescaped(a + "&trade;"@ + b) == a + "™"@ + b,
        unescaped(a + "&mdash;"@ + b) == a + "—"@ + b,
        unescaped(a + "&ndash;"@ + b) == a + "–"@ + b,
        unescaped(a + "&hellip;"@ + b) == a + "…"@ + b,
        named_entities_replaced(a + "&amp;"@ + b) == a + "&"@ + b,
{
    lemma_entity_names();
    reveal_strlit("&");
    lemma_find_from(a, "&"@, 0);
    if let Some(j) = find_from(a, "&"@, 0) {
        assert(a.subrange(j, j + 1)[0] == a[j]);
    }
    lemma_entity_nbsp(a, b);
    lemma_one_entity(a, "&nbsp;"@, " "@, b);
    lemma_entity_emsp(a, b);
    lemma_one_entity(a, "&emsp;"@, "\u{3000}"@, b);
    lemma_entity_ensp(a, b);
    lemma_one_entity(a, "&ensp;"@, " "@, b);
    lemma_entity_quot(a, b);
    lemma_one_entity(a, "&quot;"@, "\""@, b);
    lemma_entity_apos(a, b);
    lemma_one_entity(a, "&apos;"@, "'"@, b);
    lemma_entity_lt(a, b);
    lemma_one_entity(a, "&lt;"@, "<"@, b);
    lemma_entity_gt(a, b);
    lemma_one_entity(a, "&gt;"@, ">"@, b);
    lemma_entity_copy(a, b);
    lemma_one_entity(a, "&copy;"@, "©"@, b);
    lemma_entity_reg(a, b);
    lemma_one_entity(a, "&reg;"@, "®"@, b);
    lemma_entity_trade(a, b);
    lemma_one_entity(a, "&trade;"@, "™"@, b);
    lemma_entity_mdash(a, b);
    lemma_one_entity(a, "&mdash;"@, "—"@, b);
    lemma_entity_ndash(a, b);
    lemma_one_entity(a, "&ndash;"@, "–"@, b);
    lemma_entity_hellip(a, b);
    lemma_one_entity(a, "&hellip;"@, "…"@, b);
    lemma_entity_amp(a, b);
}

proof fn lemma_one_entity(a: Seq<char>, ent: Seq<char>, t: Seq<char>, b: Seq<char>)
    requires
        !a.contains('&'),
        !b.contains('&'),
        ent.len() > 0,
        ent[0] == '&',
        t.len() == 1,
        t[0] != '&',
        named_entities_replaced(a + ent + b) == a + t + b,
    ensures
        unescaped(a + ent + b) == a + t + b,
{
    lemma_has_mark(a, ent, b);
    lemma_three_parts(a, t, b);
    lemma_settled(a + ent + b, a + t + b);
}

/// A numeric entity stands for the character of its code.
pub proof fn law_numeric_entity(groups: Seq<Option<Seq<char>>>, c: char)
    requires
        groups.len() > 2,
        groups[1] is None,
        groups[2] == Some(decimal_of(code_of(c))),
        is_char_code(code_of(c)),
        0 <= code_of(c) <= u32::MAX,
    ensures
        entity_text(groups) == seq![char_of_code(code_of(c))],
{
    law_number_reads_back(code_of(c));
    let d = decimal_of(code_of(c));
    assert(d[0] != '+') by {
        assert(all_digits(d));
        assert(crate::util::chars::is_digit(d[0]));
    }
}

/// The lines of a text stay in their order, each trimmed, without the blank ones.
pub proof fn law_lines_are_tidied(lines: Seq<Seq<char>>)
    requires
        lines.len() > 0,
        forall|i: int| 0 <= i < lines.len() ==> !(#[trigger] lines[i]).contains('\n'),
    ensures
        tidy_lines(join_of(lines, "\n"@)) == join_of(trimmed_ones(lines), "\n"@),
{
    reveal_strlit("\n");
    assert("\n"@ =~= seq!['\n']);
    lemma_split_join(lines, '\n');
    lemma_trimmed_ones(lines, lines.len() as int);
    assert(lines.take(lines.len() as int) =~= lines);
}

/// An image of a chapter is kept with its source, resolved on the page.
pub proof fn law_image_is_kept(tag: Seq<char>, page: Seq<char>, src: Seq<char>)
    requires
        src.len() > 0,
        page.len() > 0,
        ({
            let m = regex_matches("(?i)\\b(?:src|data-src|data-original)\\s*=\\s*[\"']?([^\"'\\s>]+)[\"']?"@, tag);
            m is Some && first_group(m->0, 1) == Some(src)
        }),
    ensures
        image_tag(tag, page) == "<img src=\""@ + resolved_url(page, src) + "\">"@,
{
}

proof fn lemma_split_strung(s: Seq<char>, parts: Seq<Seq<char>>, sep: Seq<char>, start: int, k: int)
    requires
        sep.len() > 0,
        0 <= k < parts.len(),
        0 <= start <= s.len(),
        s.subrange(start, s.len() as int) == strung(parts, sep, k),
        forall|i: int, p: int| 0 <= i < parts.len() && 0 <= p < parts[i].len() ==> #[trigger] parts[i][p] != sep[0],
    ensures
        split_from(s, sep, start) == parts.subrange(k, parts.len() as int),
    decreases parts.len() - k,
{
    let tail = s.subrange(start, s.len() as int);
    let part = parts[k];
    let p = start + part.len();
    assert(tail.len() == s.len() - start);
    assert forall|q: int| start <= q < p implies #[trigger] s[q] == part[q - start] by {
        assert(tail[q - start] == s[q]);
    }
    lemma_find_from(s, sep, start);
    assert forall|q: int| start <= q < p implies !occurs_at(s, sep, q) by {
        if occurs_at(s, sep, q) {
            assert(s.subrange(q, q + sep.len())[0] == s[q]);
            assert(parts[k][q - start] != sep[0]);
        }
    }
    if k == parts.len() - 1 {
        assert(p == s.len());
        assert(find_from(s, sep, start) is None);
        assert(tail =~= part);
        assert(parts.subrange(k, parts.len() as int) =~= seq![part]);
    } else {
        let rest = strung(parts, sep, k + 1);
        assert(tail == part + sep + rest);
        assert forall|q: int| 0 <= q < sep.len() + rest.len() implies #[trigger] s[p + q] == (sep + rest)[q] by {
            assert(tail[p - start + q] == s[p + q]);
        }
        assert(s.subrange(p, p + sep.len()) =~= sep) by {
            assert forall|q: int| 0 <= q < sep.len() implies #[trigger] s.subrange(p, p + sep.len())[q] == sep[q] by {
                assert(s[p + q] == (sep + rest)[q]);
            }
        }
        assert(occurs_at(s, sep, p));
        assert(find_from(s, sep, start) == Some(p));
        let after = s.subrange(p + sep.len(), s.len() as int);
        assert(after =~= rest) by {
            assert forall|q: int| 0 <= q < rest.len() implies #[trigger] after[q] == rest[q] by {
                assert(s[p + (sep.len() + q)] == (sep + rest)[sep.len() + q]);
            }
        }
        lemma_split_strung(s, parts, sep, p + sep.len(), k + 1);
        assert(s.subrange(start, p) =~= part);
        assert(seq![part] + parts.subrange(k + 1, parts.len() as int) =~= parts.subrange(k, parts.len() as int));
    }
}

/// Whether texts are the steps of a replacement: they hold no mark, the
/// expressions among them are not blank, and the last ends in no white space.
pub open spec fn are_steps(parts: Seq<Seq<char>>) -> bool {
    &&& parts.len() > 0
    &&& parts.len() % 2 == 0
    &&& forall|i: int, p: int| 0 <= i < parts.len() && 0 <= p < parts[i].len() ==> #[trigger] parts[i][p] != '#'
    &&& forall|i: int| 0 <= i < parts.len() && i % 2 == 0 ==> (#[trigger] parts[i]).len() > 0
    &&& parts.last().len() > 0 && !is_space(parts.last().last())
}

proof fn lemma_strung_end(parts: Seq<Seq<char>>, sep: Seq<char>, k: int)
    requires
        0 <= k < parts.len(),
        parts.last().len() > 0,
    ensures
        strung(parts, sep, k).len() > 0,
        strung(parts, sep, k).last() == parts.last().last(),
    decreases parts.len() - k,
{
    if k < parts.len() - 1 {
        lemma_strung_end(parts, sep, k + 1);
    }
}

proof fn lemma_steps(text: Seq<char>, parts: Seq<Seq<char>>)
    requires
        are_steps(parts),
    ensures
        regex_applied(text, "##"@ + strung(parts, "##"@, 0)) == steps_applied(text, parts, 0, false),
{
    reveal_strlit("##");
    reveal_strlit("###");
    let body = strung(parts, "##"@, 0);
    let part = "##"@ + body;
    lemma_strung_end(parts, "##"@, 0);
    assert(part[0] == '#');
    assert(part.last() == body.last());
    lemma_solid_ends(part);
    assert(part.subrange(0, 2) =~= "##"@);
    assert(part.subrange(2, part.len() as int) =~= body);
    let last = parts.last();
    assert(parts[parts.len() - 1][last.len() - 1] != '#');
    if has_suffix(body, "###"@) {
        let t = body.subrange(body.len() - 3, body.len() as int);
        assert(t[2] == body.last());
    }
    assert(body.subrange(0, body.len() as int) =~= body);
    lemma_split_strung(body, parts, "##"@, 0, 0);
    assert(parts.subrange(0, parts.len() as int) =~= parts);
    assert(parts[0].len() > 0);
}

proof fn lemma_steps_shift(text: Seq<char>, a: Seq<Seq<char>>, b: Seq<Seq<char>>, k: int)
    requires
        a.len() == b.len() + 2,
        forall|i: int| 0 <= i < b.len() ==> #[trigger] b[i] == a[i + 2],
        0 <= k,
    ensures
        steps_applied(text, a, k + 2, false) == steps_applied(text, b, k, false),
    decreases b.len() - k + 2,
{
    if k < b.len() {
        assert(b[k] == a[k + 2]);
        if k + 1 < b.len() {
            assert(b[k + 1] == a[k + 3]);
        }
        if b[k].len() == 0 {
            lemma_steps_shift(text, a, b, k + 1);
        } else {
            let to = crate::parser::source_rule::part_or_blank(b, k + 1);
            lemma_steps_shift(all_replaced(text, b[k], to), a, b, k + 2);
        }
    }
}

/// A replacement `##expression##replacement` replaces every match of its
/// expression; where the expression cannot be compiled, it is replaced as it
/// stands. With more steps, each works on what the ones before it left.
pub proof fn law_replacements_in_order(text: Seq<char>, parts: Seq<Seq<char>>, pattern: Seq<char>, to: Seq<char>)
    requires
        are_steps(seq![pattern, to]),
        are_steps(parts),
    ensures
        ({
            let once = match regex_replaced(pattern, text, to) {
                Some(t) => t,
                None => replace_of(text, pattern, to),
            };
            &&& regex_applied(text, "##"@ + pattern + "##"@ + to) == once
            &&& regex_applied(text, "##"@ + pattern + "##"@ + to + "##"@ + strung(parts, "##"@, 0)) == regex_applied(
                once,
                "##"@ + strung(parts, "##"@, 0),
            )
        }),
{
    let pair = seq![pattern, to];
    assert(pair[0] == pattern && pair[1] == to);
    assert(strung(pair, "##"@, 1) == to);
    assert(strung(pair, "##"@, 0) == pattern + "##"@ + to);
    lemma_steps(text, pair);
    assert("##"@ + (pattern + "##"@ + to) =~= "##"@ + pattern + "##"@ + to);
    reveal_with_fuel(steps_applied, 2);
    let all = pair + parts;
    assert(all[0] == pattern && all[1] == to);
    lemma_strung_more(all, parts, 0);
    assert(strung(all, "##"@, 2) == strung(parts, "##"@, 0));
    assert(strung(all, "##"@, 1) == to + "##"@ + strung(parts, "##"@, 0));
    assert(strung(all, "##"@, 0) == pattern + "##"@ + (to + "##"@ + strung(parts, "##"@, 0)));
    assert("##"@ + strung(all, "##"@, 0) =~= "##"@ + pattern + "##"@ + to + "##"@ + strung(parts, "##"@, 0));
    assert(are_steps(all)) by {
        assert(all.last() == parts.last());
        assert forall|i: int, p: int| 0 <= i < all.len() && 0 <= p < all[i].len() implies #[trigger] all[i][p] != '#' by {
            if i < 2 {
                assert(all[i] == pair[i]);
                assert(pair[i][p] != '#');
            } else {
                assert(all[i] == parts[i - 2]);
                assert(parts[i - 2][p] != '#');
            }
        }
        assert forall|i: int| 0 <= i < all.len() && i % 2 == 0 implies (#[trigger] all[i]).len() > 0 by {
            if i >= 2 {
                assert(all[i] == parts[i - 2]);
            } else {
                assert(pair[0].len() > 0);
            }
        }
    }
    lemma_steps(text, all);
    let once = all_replaced(text, pattern, to);
    assert(pair[0].len() > 0);
    lemma_steps(once, parts);
    lemma_steps_shift(once, all, parts, 0);
}

proof fn lemma_strung_more(all: Seq<Seq<char>>, parts: Seq<Seq<char>>, k: int)
    requires
        all.len() == parts.len() + 2,
        0 <= k <= parts.len(),
        forall|i: int| 0 <= i < parts.len() ==> #[trigger] all[i + 2] == parts[i],
    ensures
        strung(all, "##"@, k + 2) == strung(parts, "##"@, k),
    decreases parts.len() - k,
{
    if k < parts.len() {
        assert(all[k + 2] == parts[k]);
        lemma_strung_more(all, parts, k + 1);
    }
}

/// The text of a chapter is the text that its rule selects on the page, its
/// images kept, and after it the replacement that the rule asks for.
pub proof fn law_chapter_text(
    rule: ContentRule,
    r: Seq<char>,
    body: Seq<char>,
    base: Seq<char>,
    c: CtxV,
    w: World,
    o: Oracle,
)
    requires
        opt_text(rule.content) == Some(r),
        is_bare(r),
        detected_mode(r, body) == ParseMode::Css,
        without_mode(r) == r,
        rule.source_regex is None,
        rule.web_js is None,
    ensures
        ({
            let selected = match all_text_of(body, r) {
                Some(t) => t,
                None => seq![],
            };
            let text = text_with_images(selected, base);
            let got = chapter_text(rule, body, base, c, w, o);
            &&& rule.replace_regex is None ==> got == (text, w)
            &&& rule.replace_regex matches Some(p) ==> (forall|i: int| 0 <= i < p@.len() ==> #[trigger] p@[i] != '{')
                ==> got == (regex_applied(text, p@), w)
        }),
{
    reveal_strlit("{{");
    crate::util::chars::lemma_trim_len(Seq::<char>::empty());
    lemma_bare_rule(r, 0, body, base, c, None, w, o);
    assert(r.subrange(0, r.len() as int) =~= r);
    lemma_find_from(r, "{{"@, 0);
    if let Some(j) = find_from(r, "{{"@, 0) {
        assert(r.subrange(j, j + 2)[0] == r[j]);
    }
    if let Some(p) = rule.replace_regex {
        if forall|i: int| 0 <= i < p@.len() ==> #[trigger] p@[i] != '{' {
            lemma_bare_rule(p@, 0, body, base, c, None, w, o);
            assert(p@.subrange(0, p@.len() as int) =~= p@);
        }
    }
}

} // verus!
