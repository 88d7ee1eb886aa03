//! Resolution of addresses against the page that they stand on.

use crate::ext::urls::{join_url, url_joined};
use crate::util::chars::{
    chars_of, concat, concat3, copy, find, find_of, has_prefix, is_empty_text, lemma_trimmed, starts_with,
    string_range, substring,
};
use crate::util::text::{kept_in_url, lemma_all_kept, lemma_kept, normalize_source_url, normalized_url};
use vstd::prelude::*;
use vstd::string::*;

verus! {

/// The part of an address before the options that a source appends to it.
pub open spec fn without_config(url: Seq<char>) -> Seq<char> {
    match find_of(url, "##$##"@) {
        Some(k) => url.subrange(0, k),
        None => match find_of(url, ",{'webView'"@) {
            Some(k) => url.subrange(0, k),
            None => match find_of(url, ",{\"webView\""@) {
                Some(k) => url.subrange(0, k),
                None => url,
            },
        },
    }
}

pub fn strip_url_config(url: &str) -> (r: String)
    ensures
        r@ == without_config(url@),
{
    if let Some(k) = find(url, "##$##") {
        return substring(url, 0, k);
    }
    if let Some(k) = find(url, ",{'webView'") {
        return substring(url, 0, k);
    }
    if let Some(k) = find(url, ",{\"webView\"") {
        return substring(url, 0, k);
    }
    copy(url)
}

pub open spec fn without_trailing_slashes(s: Seq<char>) -> Seq<char>
    decreases s.len(),
{
    if s.len() > 0 && s.last() == '/' {
        without_trailing_slashes(s.drop_last())
    } else {
        s
    }
}

pub open spec fn without_leading_slashes(s: Seq<char>) -> Seq<char>
    decreases s.len(),
{
    if s.len() > 0 && s[0] == '/' {
        without_leading_slashes(s.subrange(1, s.len() as int))
    } else {
        s
    }
}

pub fn trim_end_slashes(s: &str) -> (r: String)
    ensures
        r@ == without_trailing_slashes(s@),
{
    let v = chars_of(s);
    let mut j: usize = v.len();
    assert(v@.subrange(0, v.len() as int) =~= v@);
    while j > 0 && v[j - 1] == '/'
        invariant
            j <= v.len(),
            without_trailing_slashes(v@) == without_trailing_slashes(v@.subrange(0, j as int)),
        decreases j,
    {
        assert(v@.subrange(0, j as int).drop_last() =~= v@.subrange(0, j - 1));
        j = j - 1;
    }
    string_range(&v, 0, j)
}

pub fn trim_start_slashes(s: &str) -> (r: String)
    ensures
        r@ == without_leading_slashes(s@),
{
    let v = chars_of(s);
    let mut i: usize = 0;
    assert(v@.subrange(0, v.len() as int) =~= v@);
    while i < v.len() && v[i] == '/'
        invariant
            i <= v.len(),
            without_leading_slashes(v@) == without_leading_slashes(v@.subrange(i as int, v.len() as int)),
        decreases v.len() - i,
    {
        let ghost t = v@.subrange(i as int, v.len() as int);
        assert(t.subrange(1, t.len() as int) =~= v@.subrange(i + 1, v.len() as int));
        i = i + 1;
    }
    string_range(&v, i, v.len())
}

/// The address that `url` stands for on the page `base`: the page itself for a
/// blank one, an absolute one unchanged, `https` for one without a scheme, else
/// joined to the page's address.
pub open spec fn resolved_url(base: Seq<char>, url: Seq<char>) -> Seq<char> {
    let b = normalized_url(base);
    let u = normalized_url(without_config(url));
    if u.len() == 0 {
        b
    } else if has_prefix(u, "http://"@) || has_prefix(u, "https://"@) {
        u
    } else if has_prefix(u, "//"@) {
        "https:"@ + u
    } else {
        match url_joined(b, u) {
            Some(Ok(x)) => x,
            Some(Err(_)) => without_trailing_slashes(b) + "/"@ + without_leading_slashes(u),
            None => u,
        }
    }
}

pub fn resolve_url(base: &str, url: &str) -> (r: String)
    ensures
        r@ == resolved_url(base@, url@),
{
    let b = normalize_source_url(base);
    let u = normalize_source_url(strip_url_config(url).as_str());
    if is_empty_text(u.as_str()) {
        return b;
    }
    if starts_with(u.as_str(), "http://") || starts_with(u.as_str(), "https://") {
        return u;
    }
    if starts_with(u.as_str(), "//") {
        return concat("https:", u.as_str());
    }
    match join_url(b.as_str(), u.as_str()) {
        Some(Ok(x)) => x,
        Some(Err(_)) => concat3(trim_end_slashes(b.as_str()).as_str(), "/", trim_start_slashes(u.as_str()).as_str()),
        None => u,
    }
}

/// Normalizing an address again changes nothing.
pub proof fn law_normalized_once(s: Seq<char>)
    ensures
        normalized_url(normalized_url(s)) == normalized_url(s),
{
    let t = normalized_url(s);
    lemma_kept(s);
    lemma_trimmed(s.filter(|c: char| kept_in_url(c)));
    lemma_all_kept(t);
}

/// An absolute address stands for itself on every page, and so does what it
/// resolves to.
pub proof fn law_absolute_address_stays(base: Seq<char>, other: Seq<char>, url: Seq<char>)
    requires
        has_prefix(normalized_url(url), "http://"@) || has_prefix(normalized_url(url), "https://"@),
        without_config(url) == url,
        without_config(normalized_url(url)) == normalized_url(url),
    ensures
        resolved_url(base, url) == normalized_url(url),
        resolved_url(other, resolved_url(base, url)) == resolved_url(base, url),
{
    reveal_strlit("http://");
    reveal_strlit("https://");
    law_normalized_once(url);
}

} // verus!
