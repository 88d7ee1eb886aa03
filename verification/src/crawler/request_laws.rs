//! What holds of the request that a URL rule stands for.

use crate::crawler::url_rule::{
    absolute_of, body_option, default_user_agent, encoded_form, encoded_form_from, form_charset, form_component,
    form_parts, has_header, member_headers, merged_headers, page_choice, plain_text, prepared_body, query_parts,
    query_value, request_with, same_name, value_headers, with_header, with_query, with_user_agent, Method,
};
use crate::ext::codec::{encoded_as, encoding_of};
use crate::ext::json::{member_of, JsonV};
use crate::ext::urls::{percent_decoded, url_joined, url_read};
use crate::parser::field::or_blank;
use crate::parser::java_laws::{blanks_back, law_form_bytes_read_back, law_percent_bytes_read_back};
use crate::util::bytes::{percent_bytes, percent_of};
use crate::util::chars::{
    find_of, has_prefix, is_hex_digit, join_of, lemma_find_from, lemma_mark_at, lower_ascii_of, occurs_at, split_of,
    split_once_of, trim_of, trim_start_of,
};
use vstd::prelude::*;
use vstd::string::*;
use vstd::utf8::encode_utf8;

verus! {

/// The name in a part `name=value` of a query or a form.
pub open spec fn name_in(part: Seq<char>) -> Seq<char> {
    match split_once_of(part, "="@) {
        Some((n, _)) => n,
        None => part,
    }
}

/// The value in a part of a query or a form.
pub open spec fn value_in(part: Seq<char>) -> Seq<char> {
    match split_once_of(part, "="@) {
        Some((_, v)) => v,
        None => seq![],
    }
}

/// What a value of an address says, where it is written in UTF-8.
pub open spec fn said_by(value: Seq<char>) -> Seq<char> {
    match percent_decoded(value) {
        Some(t) => t,
        None => value,
    }
}

/// Whether the query of an address starts at `k` and its fragment at `f`.
pub open spec fn is_parted_at(href: Seq<char>, k: int, f: int) -> bool {
    &&& 0 <= k <= f <= href.len()
    &&& forall|i: int| 0 <= i < f ==> href[i] != '#'
    &&& forall|i: int| 0 <= i < k ==> href[i] != '?'
    &&& f == href.len() || href[f] == '#'
    &&& k == f || href[k] == '?'
}

/// Whether an address is another one with a query in place of its own.
pub open spec fn is_with_query(url: Seq<char>, href: Seq<char>, query: Seq<char>) -> bool {
    exists|k: int, f: int| #[trigger]
        is_parted_at(href, k, f) && url == href.subrange(0, k) + "?"@ + query + href.subrange(f, href.len() as int)
}

/// Whether a query has the names of another one, and values that say in an
/// encoding what its values say.
pub open spec fn is_query_in(sent: Seq<char>, query: Seq<char>, charset: Seq<char>, values: Seq<Seq<char>>) -> bool {
    let parts = split_of(query, "&"@);
    &&& values.len() == parts.len()
    &&& sent == join_of(Seq::new(parts.len(), |i: int| name_in(parts[i]) + "="@ + values[i]), "&"@)
    &&& forall|i: int|
        0 <= i < parts.len() ==> !(#[trigger] values[i]).contains('&') && percent_bytes(encode_utf8(values[i]))
            == encoded_as(charset, said_by(value_in(parts[i])))
}

proof fn lemma_parted(href: Seq<char>, query: Seq<char>)
    ensures
        is_with_query(with_query(href, query), href, query),
{
    reveal_strlit("#");
    reveal_strlit("?");
    assert("#"@ =~= seq!['#']);
    assert("?"@ =~= seq!['?']);
    lemma_find_from(href, "#"@, 0);
    assert forall|i: int| 0 <= i implies (#[trigger] occurs_at(href, "#"@, i) <==> i < href.len() && href[i] == '#') by {
        lemma_mark_at(href, '#', i);
    }
    let f = match find_of(href, "#"@) {
        Some(k) => k,
        None => href.len() as int,
    };
    assert forall|i: int| 0 <= i < f implies href[i] != '#' by {
        assert(!occurs_at(href, "#"@, i));
    }
    let head = href.subrange(0, f);
    lemma_find_from(head, "?"@, 0);
    assert forall|i: int| 0 <= i implies (#[trigger] occurs_at(head, "?"@, i) <==> i < head.len() && head[i] == '?') by {
        lemma_mark_at(head, '?', i);
    }
    let k = match find_of(head, "?"@) {
        Some(k) => k,
        None => f,
    };
    assert forall|i: int| 0 <= i < k implies href[i] != '?' by {
        assert(!occurs_at(head, "?"@, i));
        assert(head[i] == href[i]);
    }
    assert(is_parted_at(href, k, f));
}

/// A request with an encoding other than UTF-8 sends the values of its address in
/// that encoding: each, taken from the address again, gives the bytes of what it
/// said. Its names and all else of the address stay.
pub proof fn law_query_in_charset(
    url: Seq<char>,
    options: JsonV,
    h: Seq<(Seq<char>, Seq<char>)>,
    proxy: Option<Seq<char>>,
    charset: Seq<char>,
)
    requires
        request_with(url, options, h, proxy).charset == Some(charset),
        encoding_of(charset) is Some,
        !same_name(charset, "utf-8"@),
        !same_name(charset, "utf8"@),
        !same_name(charset, "escape"@),
        url_read(url) is Ok,
        url_read(url)->Ok_0.query is Some,
    ensures
        exists|sent: Seq<char>, values: Seq<Seq<char>>|
            is_with_query(request_with(url, options, h, proxy).url, url_read(url)->Ok_0.href, sent) && #[trigger]
                is_query_in(sent, url_read(url)->Ok_0.query->0, charset, values),
{
    let u = url_read(url)->Ok_0;
    let query = u.query->0;
    let parts = split_of(query, "&"@);
    let values = Seq::new(parts.len(), |i: int| query_value(value_in(parts[i]), charset));
    let sent = join_of(query_parts(parts, charset), "&"@);
    lemma_parted(u.href, sent);
    assert(query_parts(parts, charset) =~= Seq::new(
        parts.len(),
        |i: int| name_in(parts[i]) + "="@ + values[i],
    ));
    assert forall|i: int| 0 <= i < parts.len() implies !(#[trigger] values[i]).contains('&') && percent_bytes(
        encode_utf8(values[i]),
    ) == encoded_as(charset, said_by(value_in(parts[i]))) by {
        let b = encoded_as(charset, said_by(value_in(parts[i])));
        law_percent_bytes_read_back(b);
        assert(values[i] == percent_of(b));
    }
    assert(is_query_in(sent, query, charset, values));
}

/// Without an encoding, or with UTF-8, the address is sent as it is.
pub proof fn law_plain_query_stays(
    url: Seq<char>,
    options: JsonV,
    h: Seq<(Seq<char>, Seq<char>)>,
    proxy: Option<Seq<char>>,
)
    requires
        match request_with(url, options, h, proxy).charset {
            Some(c) => same_name(c, "utf-8"@) || same_name(c, "utf8"@),
            None => true,
        },
    ensures
        request_with(url, options, h, proxy).url == url,
{
}

/// The bytes that a name or a value of a form stands for in an encoding.
pub open spec fn form_bytes(value: Seq<char>, charset: Option<Seq<char>>) -> Seq<u8> {
    match charset {
        Some(c) => if encoding_of(c) is Some {
            encoded_as(c, value)
        } else {
            encode_utf8(value)
        },
        None => encode_utf8(value),
    }
}

/// Whether a text writes bytes as forms do, with none of the marks of a form.
pub open spec fn is_form_text(t: Seq<char>, b: Seq<u8>) -> bool {
    !t.contains('&') && !t.contains('=') && percent_bytes(blanks_back(encode_utf8(t))) == b
}

/// Whether a form has the names and values of another one in an encoding.
pub open spec fn is_form_in(
    sent: Seq<char>,
    body: Seq<char>,
    charset: Option<Seq<char>>,
    names: Seq<Seq<char>>,
    values: Seq<Seq<char>>,
) -> bool {
    let parts = split_of(body, "&"@);
    &&& names.len() == parts.len()
    &&& values.len() == parts.len()
    &&& sent == join_of(Seq::new(parts.len(), |i: int| names[i] + "="@ + values[i]), "&"@)
    &&& forall|i: int|
        0 <= i < parts.len() ==> is_form_text(#[trigger] names[i], form_bytes(name_in(parts[i]), charset))
            && is_form_text(values[i], form_bytes(value_in(parts[i]), charset))
}

proof fn lemma_form_text(value: Seq<char>, charset: Option<Seq<char>>)
    requires
        charset matches Some(c) ==> !same_name(c, "escape"@),
    ensures
        is_form_text(form_component(value, charset), form_bytes(value, charset)),
{
    law_form_bytes_read_back(form_bytes(value, charset));
}

/// Whether a character is never sent as it is: a blank, or one that is not ASCII.
pub open spec fn is_unsent(c: char) -> bool {
    c == ' ' || c > '~'
}

/// Whether a form holds a character that is not sent as it is.
pub open spec fn needs_encoding(body: Seq<char>) -> bool {
    exists|j: int| 0 <= j < body.len() && is_unsent(#[trigger] body[j])
}

proof fn lemma_form_written(body: Seq<char>, c: Option<Seq<char>>)
    requires
        c matches Some(x) ==> !same_name(x, "escape"@),
    ensures
        exists|names: Seq<Seq<char>>, values: Seq<Seq<char>>| #[trigger]
            is_form_in(join_of(form_parts(split_of(body, "&"@), c), "&"@), body, c, names, values),
{
    let parts = split_of(body, "&"@);
    let names = Seq::new(parts.len(), |i: int| form_component(name_in(parts[i]), c));
    let values = Seq::new(parts.len(), |i: int| form_component(value_in(parts[i]), c));
    assert(form_parts(parts, c) =~= Seq::new(parts.len(), |i: int| names[i] + "="@ + values[i]));
    assert forall|i: int| 0 <= i < parts.len() implies is_form_text(
        #[trigger] names[i],
        form_bytes(name_in(parts[i]), c),
    ) && is_form_text(values[i], form_bytes(value_in(parts[i]), c)) by {
        lemma_form_text(name_in(parts[i]), c);
        lemma_form_text(value_in(parts[i]), c);
    }
    assert(is_form_in(join_of(form_parts(parts, c), "&"@), body, c, names, values));
}

proof fn lemma_not_encoded(s: Seq<char>, i: int, j: int)
    requires
        0 <= i <= j < s.len(),
        is_unsent(s[j]),
    ensures
        !encoded_form_from(s, i),
    decreases s.len() - i,
{
    if s[i] == '%' {
        if i + 2 < s.len() && is_hex_digit(s[i + 1]) && is_hex_digit(s[i + 2]) {
            lemma_not_encoded(s, i + 3, j);
        }
    } else if i < j {
        lemma_not_encoded(s, i + 1, j);
    }
}

/// A form that is posted has its names and values in its encoding, UTF-8 where
/// it names none or one that is unknown, and says that it is a form. Without an
/// encoding, a form that needs none stays as it is.
pub proof fn law_form_in_charset(
    url: Seq<char>,
    options: JsonV,
    h: Seq<(Seq<char>, Seq<char>)>,
    proxy: Option<Seq<char>>,
    charset: Option<Seq<char>>,
    body: Seq<char>,
)
    requires
        request_with(url, options, h, proxy).charset == charset,
        charset matches Some(c) ==> trim_of(c) == c && c.len() > 0 && !same_name(c, "escape"@),
        request_with(url, options, h, proxy).method == Method::Post,
        member_of(options, "body"@) == Some(JsonV::Text(body)),
        member_of(options, "headers"@) is None,
        !has_header(h, "content-type"@),
        trim_of(body).len() > 0,
        !has_prefix(trim_start_of(body), "{"@),
        !has_prefix(trim_start_of(body), "["@),
        !has_prefix(trim_start_of(body), "<"@),
    ensures
        ({
            let r = request_with(url, options, h, proxy);
            &&& r.body is Some
            &&& header_of(r.headers, "content-type"@) == Some("application/x-www-form-urlencoded"@)
            &&& charset is Some || needs_encoding(body) ==> exists|names: Seq<Seq<char>>, values: Seq<Seq<char>>| #[trigger]
                is_form_in(r.body->0, body, charset, names, values)
            &&& charset is None && encoded_form_from(body, 0) ==> r.body == Some(body)
        }),
{
    reveal_strlit("<?xml");
    reveal_strlit("<");
    let t = trim_start_of(body);
    if has_prefix(t, "<?xml"@) {
        assert(t.subrange(0, 1) =~= t.subrange(0, 5).subrange(0, 1));
        assert("<"@ =~= "<?xml"@.subrange(0, 1));
    }
    let r = request_with(url, options, h, proxy);
    lemma_content_type_free(h);
    assert(r.body == Some(encoded_form(body, charset)));
    assert(form_charset(charset) == charset);
    if charset is Some || needs_encoding(body) {
        if charset is None {
            let j = choose|j: int| 0 <= j < body.len() && is_unsent(#[trigger] body[j]);
            lemma_not_encoded(body, 0, j);
        }
        lemma_form_written(body, charset);
        let sent = join_of(form_parts(split_of(body, "&"@), charset), "&"@);
        assert(encoded_form(body, charset) == sent);
        let (names, values) = choose|names: Seq<Seq<char>>, values: Seq<Seq<char>>| #[trigger]
            is_form_in(sent, body, charset, names, values);
        assert(r.body->0 == sent);
        assert(is_form_in(r.body->0, body, charset, names, values));
    }
    lemma_header_pushed(with_user_agent(h), "content-type"@, "application/x-www-form-urlencoded"@, 0);
}

proof fn lemma_content_type_free(h: Seq<(Seq<char>, Seq<char>)>)
    requires
        !has_header(h, "content-type"@),
    ensures
        !has_header(with_user_agent(h), "content-type"@),
{
    reveal_strlit("User-Agent");
    reveal_strlit("content-type");
    assert(lower_ascii_of("User-Agent"@).len() == 10 && lower_ascii_of("content-type"@).len() == 12);
    let u = with_user_agent(h);
    if has_header(u, "content-type"@) {
        let i = choose|i: int| 0 <= i < u.len() && same_name((#[trigger] u[i]).0, "content-type"@);
        if i < h.len() {
            assert(same_name(h[i].0, "content-type"@));
        }
    }
}

/// The value of the header of a name, as the one that it is sent with.
pub open spec fn header_of(h: Seq<(Seq<char>, Seq<char>)>, name: Seq<char>) -> Option<Seq<char>> {
    header_from(h, name, 0)
}

pub open spec fn header_from(h: Seq<(Seq<char>, Seq<char>)>, name: Seq<char>, k: int) -> Option<Seq<char>>
    decreases h.len() - k,
{
    if k < 0 || k >= h.len() {
        None
    } else if lower_ascii_of(h[k].0) == lower_ascii_of(name) {
        Some(h[k].1)
    } else {
        header_from(h, name, k + 1)
    }
}

proof fn lemma_header_pushed(h: Seq<(Seq<char>, Seq<char>)>, name: Seq<char>, value: Seq<char>, k: int)
    requires
        0 <= k <= h.len(),
        forall|i: int| k <= i < h.len() ==> !same_name((#[trigger] h[i]).0, name),
    ensures
        header_from(h.push((name, value)), name, k) == Some(value),
    decreases h.len() - k,
{
    let r = h.push((name, value));
    if k < h.len() {
        assert(r[k] == h[k]);
        assert(!same_name(h[k].0, name));
        lemma_header_pushed(h, name, value, k + 1);
    } else {
        assert(r[k].0 == name);
    }
}

proof fn lemma_other_pushed(h: Seq<(Seq<char>, Seq<char>)>, pair: (Seq<char>, Seq<char>), name: Seq<char>, k: int)
    requires
        0 <= k <= h.len(),
        !same_name(pair.0, name),
    ensures
        header_from(h.push(pair), name, k) == header_from(h, name, k),
    decreases h.len() - k,
{
    let r = h.push(pair);
    if k < h.len() {
        assert(r[k] == h[k]);
        lemma_other_pushed(h, pair, name, k + 1);
    } else {
        assert(r[k] == pair);
        assert(header_from(r, name, k + 1) is None);
    }
}

/// A header that is set reads as what it was set to, and all others stay.
pub proof fn law_header_reads_back(
    h: Seq<(Seq<char>, Seq<char>)>,
    name: Seq<char>,
    value: Seq<char>,
    other: Seq<char>,
)
    ensures
        header_of(with_header(h, name, value, 0), name) == Some(value),
        !same_name(name, other) ==> header_of(with_header(h, name, value, 0), other) == header_of(h, other),
{
    lemma_header_set(h, name, value, other, 0, 0);
}

proof fn lemma_header_set(
    h: Seq<(Seq<char>, Seq<char>)>,
    name: Seq<char>,
    value: Seq<char>,
    other: Seq<char>,
    k: int,
    j: int,
)
    requires
        0 <= j <= k <= h.len(),
        forall|i: int| j <= i < k ==> !same_name((#[trigger] h[i]).0, name),
    ensures
        header_from(with_header(h, name, value, k), name, j) == Some(value),
        !same_name(name, other) ==> header_from(with_header(h, name, value, k), other, j) == header_from(h, other, j),
    decreases h.len() - k, k - j,
{
    let r = with_header(h, name, value, k);
    if k < h.len() && !same_name(h[k].0, name) {
        lemma_header_set(h, name, value, other, k + 1, j);
    } else if k >= h.len() {
        assert(h.len() == k);
        lemma_header_pushed(h, name, value, j);
        if !same_name(name, other) {
            lemma_other_pushed(h, (name, value), other, j);
        }
    } else if j < k {
        assert(r[j] == h[j]);
        assert(!same_name(h[j].0, name));
        lemma_header_set(h, name, value, other, k, j + 1);
    } else {
        assert(r[k] == (h[k].0, value));
        lemma_updated(h, name, value, other, k, k + 1);
    }
}

proof fn lemma_updated(
    h: Seq<(Seq<char>, Seq<char>)>,
    name: Seq<char>,
    value: Seq<char>,
    other: Seq<char>,
    k: int,
    j: int,
)
    requires
        0 <= k < j <= h.len(),
    ensures
        header_from(h.update(k, (h[k].0, value)), other, j) == header_from(h, other, j),
    decreases h.len() - j,
{
    let r = h.update(k, (h[k].0, value));
    if j < h.len() {
        assert(r[j] == h[j]);
        lemma_updated(h, name, value, other, k, j + 1);
    }
}

proof fn lemma_merged_tail(h: Seq<(Seq<char>, Seq<char>)>, extra: Seq<(Seq<char>, Seq<char>)>, n: int, name: Seq<char>, i: int)
    requires
        0 <= i <= n <= extra.len(),
        forall|j: int| i <= j < n ==> !same_name((#[trigger] extra[j]).0, name),
    ensures
        header_of(merged_headers(h, extra, n), name) == header_of(merged_headers(h, extra, i), name),
    decreases n - i,
{
    if i < n {
        lemma_merged_tail(h, extra, n - 1, name, i);
        assert(!same_name(extra[n - 1].0, name));
        law_header_reads_back(merged_headers(h, extra, n - 1), extra[n - 1].0, extra[n - 1].1, name);
    }
}

/// Headers that are merged into others have the last word, but for the proxy,
/// and leave those of other names.
pub proof fn law_merged_headers(
    h: Seq<(Seq<char>, Seq<char>)>,
    extra: Seq<(Seq<char>, Seq<char>)>,
    name: Seq<char>,
    i: int,
)
    requires
        !same_name(name, "proxy"@),
        -1 <= i < extra.len(),
        i >= 0 ==> same_name(extra[i].0, name),
        forall|j: int| i < j < extra.len() ==> !same_name((#[trigger] extra[j]).0, name),
    ensures
        header_of(merged_headers(h, extra, extra.len() as int), name) == if i >= 0 {
            Some(extra[i].1)
        } else {
            header_of(h, name)
        },
{
    let n = extra.len() as int;
    lemma_merged_tail(h, extra, n, name, i + 1);
    if i >= 0 {
        let before = merged_headers(h, extra, i);
        law_header_reads_back(before, extra[i].0, extra[i].1, name);
        lemma_same_header(with_header(before, extra[i].0, extra[i].1, 0), extra[i].0, name, 0);
    }
}

proof fn lemma_same_header(h: Seq<(Seq<char>, Seq<char>)>, a: Seq<char>, b: Seq<char>, k: int)
    requires
        same_name(a, b),
    ensures
        header_from(h, a, k) == header_from(h, b, k),
    decreases h.len() - k,
{
    if 0 <= k < h.len() {
        lemma_same_header(h, a, b, k + 1);
    }
}

proof fn lemma_member_header(m: Seq<(Seq<char>, JsonV)>, n: int, i: int)
    requires
        0 <= i < n <= m.len(),
        trim_of(m[i].0).len() > 0,
        forall|j: int| i < j < n ==> !same_name((#[trigger] m[j]).0, m[i].0),
    ensures
        exists|k: int|
            0 <= k < member_headers(m, n).len() && #[trigger] member_headers(m, n)[k] == (
                m[i].0,
                or_blank(plain_text(m[i].1)),
            ) && forall|j: int|
                k < j < member_headers(m, n).len() ==> !same_name((#[trigger] member_headers(m, n)[j]).0, m[i].0),
    decreases n,
{
    let all = member_headers(m, n);
    let before = member_headers(m, n - 1);
    if i == n - 1 {
        assert(all[all.len() - 1] == (m[i].0, or_blank(plain_text(m[i].1))));
    } else {
        lemma_member_header(m, n - 1, i);
        let k = choose|k: int|
            0 <= k < before.len() && #[trigger] before[k] == (m[i].0, or_blank(plain_text(m[i].1))) && forall|j: int|
                k < j < before.len() ==> !same_name((#[trigger] before[j]).0, m[i].0);
        assert(all[k] == before[k]);
        assert forall|j: int| k < j < all.len() implies !same_name((#[trigger] all[j]).0, m[i].0) by {
            if j < before.len() {
                assert(all[j] == before[j]);
            } else {
                assert(all[j].0 == m[n - 1].0);
            }
        }
    }
}

/// Adding the type of a body leaves all headers of other names.
proof fn lemma_body_headers(
    post: bool,
    body: Option<Seq<char>>,
    h: Seq<(Seq<char>, Seq<char>)>,
    charset: Option<Seq<char>>,
    name: Seq<char>,
)
    requires
        !same_name("content-type"@, name) || has_header(h, "content-type"@),
    ensures
        header_of(prepared_body(post, body, h, charset).1, name) == header_of(h, name),
{
    if !has_header(h, "content-type"@) {
        lemma_other_pushed(h, ("content-type"@, "application/json"@), name, 0);
        lemma_other_pushed(h, ("content-type"@, "application/xml"@), name, 0);
        lemma_other_pushed(h, ("content-type"@, "application/x-www-form-urlencoded"@), name, 0);
    }
}

proof fn lemma_found_header(h: Seq<(Seq<char>, Seq<char>)>, name: Seq<char>, k: int)
    requires
        0 <= k,
        header_from(h, name, k) is Some,
    ensures
        has_header(h, name),
    decreases h.len() - k,
{
    if k < h.len() && lower_ascii_of(h[k].0) != lower_ascii_of(name) {
        lemma_found_header(h, name, k + 1);
    } else {
        assert(same_name(h[k].0, name));
    }
}

proof fn lemma_has_same(h: Seq<(Seq<char>, Seq<char>)>, a: Seq<char>, b: Seq<char>)
    requires
        has_header(h, a),
        same_name(a, b),
    ensures
        has_header(h, b),
{
    let i = choose|i: int| 0 <= i < h.len() && same_name((#[trigger] h[i]).0, a);
    assert(same_name(h[i].0, b));
}

/// A header that the options of a request set is sent with the value that they
/// give it, in place of what the source or the session set; the proxy is none.
pub proof fn law_option_header_is_sent(
    url: Seq<char>,
    options: JsonV,
    h: Seq<(Seq<char>, Seq<char>)>,
    proxy: Option<Seq<char>>,
    m: Seq<(Seq<char>, JsonV)>,
    i: int,
    value: Seq<char>,
)
    requires
        member_of(options, "headers"@) == Some(JsonV::Object(m)),
        0 <= i < m.len(),
        m[i].1 == JsonV::Text(value),
        trim_of(m[i].0).len() > 0,
        !same_name(m[i].0, "proxy"@),
        forall|j: int| i < j < m.len() ==> !same_name((#[trigger] m[j]).0, m[i].0),
    ensures
        header_of(request_with(url, options, h, proxy).headers, m[i].0) == Some(value),
{
    let name = m[i].0;
    let extra = member_headers(m, m.len() as int);
    lemma_member_header(m, m.len() as int, i);
    let k = choose|k: int|
        0 <= k < extra.len() && #[trigger] extra[k] == (name, or_blank(plain_text(m[i].1))) && forall|j: int|
            k < j < extra.len() ==> !same_name((#[trigger] extra[j]).0, name);
    law_merged_headers(h, extra, name, k);
    lemma_request_header(url, options, h, proxy, name);
}

/// What a header is after the options are merged in is what it is sent as.
proof fn lemma_request_header(
    url: Seq<char>,
    options: JsonV,
    h: Seq<(Seq<char>, Seq<char>)>,
    proxy: Option<Seq<char>>,
    name: Seq<char>,
)
    ensures
        ({
            let merged = match member_of(options, "headers"@) {
                Some(v) => merged_headers(h, value_headers(v), value_headers(v).len() as int),
                None => h,
            };
            header_of(merged, name) is Some ==> header_of(request_with(url, options, h, proxy).headers, name)
                == header_of(merged, name)
        }),
{
    let merged = match member_of(options, "headers"@) {
        Some(v) => merged_headers(h, value_headers(v), value_headers(v).len() as int),
        None => h,
    };
    if header_of(merged, name) is Some {
        lemma_found_header(merged, name, 0);
        let full = with_user_agent(merged);
        if !has_header(merged, "user-agent"@) {
            reveal_strlit("User-Agent");
            reveal_strlit("user-agent");
            assert(lower_ascii_of("User-Agent"@) =~= lower_ascii_of("user-agent"@));
            if same_name("User-Agent"@, name) {
                lemma_has_same(merged, name, "user-agent"@);
            }
            lemma_other_pushed(merged, ("User-Agent"@, default_user_agent()), name, 0);
        }
        if same_name("content-type"@, name) {
            lemma_found_header(full, name, 0);
            lemma_has_same(full, name, "content-type"@);
        }
        lemma_body_headers(
            request_with(url, options, h, proxy).method == Method::Post,
            body_option(options),
            full,
            request_with(url, options, h, proxy).charset,
            name,
        );
    }
}

/// A header that the options do not set is sent as the source or the session
/// set it.
pub proof fn law_source_header_is_sent(
    url: Seq<char>,
    options: JsonV,
    h: Seq<(Seq<char>, Seq<char>)>,
    proxy: Option<Seq<char>>,
    name: Seq<char>,
)
    requires
        header_of(h, name) is Some,
        !same_name(name, "proxy"@),
        match member_of(options, "headers"@) {
            Some(v) => forall|j: int|
                0 <= j < value_headers(v).len() ==> !same_name((#[trigger] value_headers(v)[j]).0, name),
            None => true,
        },
    ensures
        header_of(request_with(url, options, h, proxy).headers, name) == header_of(h, name),
{
    if let Some(v) = member_of(options, "headers"@) {
        law_merged_headers(h, value_headers(v), name, -1);
    }
    lemma_request_header(url, options, h, proxy, name);
}

/// What the options of a request say is what the request is: its method, its
/// proxy, the form of its response, and how its body is sent.
pub proof fn law_options_are_followed(
    url: Seq<char>,
    options: JsonV,
    h: Seq<(Seq<char>, Seq<char>)>,
    proxy: Option<Seq<char>>,
    text: Seq<char>,
)
    requires
        trim_of(text).len() > 0,
    ensures
        member_of(options, "method"@) == Some(JsonV::Text("POST"@)) ==> request_with(url, options, h, proxy).method
            == Method::Post,
        member_of(options, "method"@) is None ==> request_with(url, options, h, proxy).method == Method::Get,
        member_of(options, "proxy"@) == Some(JsonV::Text(text)) ==> request_with(url, options, h, proxy).proxy == Some(
            text,
        ),
        member_of(options, "proxy"@) is None ==> request_with(url, options, h, proxy).proxy == proxy,
        member_of(options, "type"@) == Some(JsonV::Text(text)) ==> request_with(url, options, h, proxy).response_type
            == Some(text),
        member_of(options, "type"@) is None ==> request_with(url, options, h, proxy).response_type is None,
        member_of(options, "charset"@) == Some(JsonV::Text(text)) ==> request_with(url, options, h, proxy).charset
            == Some(trim_of(text)),
        member_of(options, "charset"@) is None ==> request_with(url, options, h, proxy).charset is None,
        member_of(options, "body"@) is None ==> request_with(url, options, h, proxy).body is None,
        member_of(options, "body"@) == Some(JsonV::Text(text)) && request_with(url, options, h, proxy).method
            == Method::Get ==> request_with(url, options, h, proxy).body == Some(text),
        member_of(options, "retry"@) is None ==> request_with(url, options, h, proxy).retry == 0,
        0 <= request_with(url, options, h, proxy).retry <= 3,
{
    reveal_strlit("POST");
    assert("POST"@.len() == 4);
    crate::util::chars::lemma_solid_ends("POST"@);
    assert(trim_of("POST"@) == "POST"@);
}

/// A body of JSON is posted as it is, and said to be JSON, where no header says
/// what it is.
pub proof fn law_json_body_is_posted(
    url: Seq<char>,
    options: JsonV,
    h: Seq<(Seq<char>, Seq<char>)>,
    proxy: Option<Seq<char>>,
    body: Seq<char>,
)
    requires
        request_with(url, options, h, proxy).method == Method::Post,
        member_of(options, "body"@) == Some(JsonV::Text(body)),
        member_of(options, "headers"@) is None,
        !has_header(h, "content-type"@),
        trim_of(body).len() > 0,
        has_prefix(trim_start_of(body), "{"@) || has_prefix(trim_start_of(body), "["@),
    ensures
        request_with(url, options, h, proxy).body == Some(body),
        header_of(request_with(url, options, h, proxy).headers, "content-type"@) == Some("application/json"@),
{
    lemma_content_type_free(h);
    lemma_header_pushed(with_user_agent(h), "content-type"@, "application/json"@, 0);
}

/// The address of a request: an absolute one is itself, one without a scheme is
/// read with `https`, and any other is joined to the address of its page.
pub proof fn law_address_is_absolute(base: Seq<char>, raw: Seq<char>)
    ensures
        ({
            let u = trim_of(raw);
            &&& has_prefix(u, "http://"@) || has_prefix(u, "https://"@) ==> absolute_of(base, raw) == u
            &&& has_prefix(u, "//"@) ==> absolute_of(base, raw) == "https:"@ + u
            &&& !has_prefix(u, "http://"@) && !has_prefix(u, "https://"@) && !has_prefix(u, "//"@) ==> (url_joined(
                base,
                u,
            ) matches Some(Ok(x)) ==> absolute_of(base, raw) == x)
        }),
{
    reveal_strlit("http://");
    reveal_strlit("https://");
    reveal_strlit("//");
    let u = trim_of(raw);
    if has_prefix(u, "//"@) {
        assert(u.subrange(0, 2)[0] == '/');
        if has_prefix(u, "http://"@) {
            assert(u.subrange(0, 7)[0] == 'h');
        }
        if has_prefix(u, "https://"@) {
            assert(u.subrange(0, 8)[0] == 'h');
        }
    }
}

/// Of the choices for pages, a page within them takes the one of its number, and
/// every other page the last; so a page is never left without one.
pub proof fn law_page_takes_its_choice(choices: Seq<Seq<char>>, page: int)
    requires
        choices.len() > 0,
    ensures
        choices.contains(page_choice(choices, page)),
        1 <= page <= choices.len() ==> page_choice(choices, page) == choices[page - 1],
        page > choices.len() ==> page_choice(choices, page) == page_choice(choices, choices.len() as int),
{
    assert(choices.last() == choices[choices.len() - 1]);
}

/// The headers that members of an object give: those with a name and a value,
/// in their order.
pub proof fn law_member_headers(m: Seq<(Seq<char>, JsonV)>, name: Seq<char>, value: Seq<char>)
    requires
        trim_of(name).len() > 0,
    ensures
        value_headers(JsonV::Object(m.push((name, JsonV::Text(value))))) == value_headers(JsonV::Object(m)).push(
            (name, value),
        ),
{
    lemma_members_same(m, m.push((name, JsonV::Text(value))), m.len() as int);
}

proof fn lemma_members_same(a: Seq<(Seq<char>, JsonV)>, b: Seq<(Seq<char>, JsonV)>, n: int)
    requires
        0 <= n <= a.len() <= b.len(),
        forall|i: int| 0 <= i < a.len() ==> #[trigger] a[i] == b[i],
    ensures
        member_headers(a, n) == member_headers(b, n),
    decreases n,
{
    if n > 0 {
        lemma_members_same(a, b, n - 1);
        assert(a[n - 1] == b[n - 1]);
    }
}

} // verus!
