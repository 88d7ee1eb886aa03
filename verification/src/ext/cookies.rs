//! The store of cookies of the `cookie_store` crate.
//!
//! Which cookies it gives back depends on the clock, since most cookies expire,
//! and their order on that of a hash map. What is said of it holds whatever the
//! time is: it gives back nothing that was not stored, and all cookies of a host
//! that have no end.

use crate::ext::urls::url_read;
use crate::ext::xml::pairs;
use crate::util::chars::{contains_text, is_digit, split_of, split_once_of, trim_of};
use vstd::multiset::Multiset;
use vstd::prelude::*;

verus! {

/// A store of cookies.
#[verifier::external_type_specification]
#[verifier::external_body]
pub struct ExCookieStore(cookie_store::CookieStore);

/// The names and values of all cookies in a store, expired ones among them.
pub uninterp spec fn held_cookies(store: cookie_store::CookieStore) -> Multiset<(Seq<char>, Seq<char>)>;

/// The values of the cookies in a store that belong to one host alone, at the
/// path `/`, with no end and no restriction, by their hosts and names.
pub uninterp spec fn lasting_cookies(store: cookie_store::CookieStore) -> Map<(Seq<char>, Seq<char>), Seq<char>>;

/// The name and the value in a `Set-Cookie` text.
pub open spec fn set_pair(text: Seq<char>) -> Option<(Seq<char>, Seq<char>)> {
    match split_once_of(split_of(text, ";"@)[0], "="@) {
        Some((n, v)) => if trim_of(n).len() > 0 {
            Some((trim_of(n), trim_of(v)))
        } else {
            None
        },
        None => None,
    }
}

/// A host written in plain letters, digits, hyphens and dots.
pub open spec fn is_plain_host(h: Seq<char>) -> bool {
    &&& h.len() > 0
    &&& h[0] != '.'
    &&& !contains_text(h, "xn--"@)
    &&& forall|i: int| 0 <= i < h.len() ==> 'a' <= #[trigger] h[i] <= 'z' || is_digit(h[i]) || h[i] == '-' || h[i] == '.'
}

/// The host of a web address, where it is a plain one.
pub open spec fn plain_host(url: Seq<char>) -> Option<Seq<char>> {
    match url_read(url) {
        Ok(u) => if (u.scheme == "http"@ || u.scheme == "https"@) && u.host is Some && is_plain_host(u.host->0) {
            u.host
        } else {
            None
        },
        Err(_) => None,
    }
}

/// Whether a `Set-Cookie` text has the path `/` and no other attribute.
pub open spec fn is_lasting(text: Seq<char>) -> bool {
    split_of(text, ";"@).len() == 2 && trim_of(split_of(text, ";"@)[1]) == "Path=/"@
}

/// The cookies after one more was stored, as far as none can be more.
pub open spec fn held_after(m: Multiset<(Seq<char>, Seq<char>)>, text: Seq<char>) -> Multiset<(Seq<char>, Seq<char>)> {
    match set_pair(text) {
        Some(p) => m.insert(p),
        None => m,
    }
}

/// The lasting cookies after one more was stored, as far as they are known: the
/// one that was stored where it is lasting, and all of other names.
pub open spec fn lasting_after(
    m: Map<(Seq<char>, Seq<char>), Seq<char>>,
    text: Seq<char>,
    url: Seq<char>,
) -> Map<(Seq<char>, Seq<char>), Seq<char>> {
    match (set_pair(text), plain_host(url)) {
        (Some((n, v)), Some(h)) => if is_lasting(text) {
            m.insert((h, n), v)
        } else {
            without_cookie(m, n)
        },
        (Some((n, _)), None) => without_cookie(m, n),
        (None, _) => m,
    }
}

/// The cookies of all names but one.
pub open spec fn without_cookie(m: Map<(Seq<char>, Seq<char>), Seq<char>>, name: Seq<char>) -> Map<
    (Seq<char>, Seq<char>),
    Seq<char>,
> {
    Map::new(|k: (Seq<char>, Seq<char>)| m.contains_key(k) && k.1 != name, |k: (Seq<char>, Seq<char>)| m[k])
}

pub open spec fn no_cookies() -> Multiset<(Seq<char>, Seq<char>)> {
    Multiset::empty()
}

pub open spec fn no_lasting() -> Map<(Seq<char>, Seq<char>), Seq<char>> {
    Map::empty()
}

/// `cookie_store::CookieStore::default`: a store without cookies.
#[verifier::external_body]
pub(crate) fn new_store() -> (r: cookie_store::CookieStore)
    ensures
        held_cookies(r) == no_cookies(),
        lasting_cookies(r) == no_lasting(),
{
    cookie_store::CookieStore::default()
}

/// `cookie_store::CookieStore::parse`: stores the cookie that a `Set-Cookie`
/// text of an address describes, if it is one that the address may set. It adds
/// no other cookie and leaves those of other names alone; one without an end,
/// for a plain host and the path `/`, is always stored.
#[verifier::external_body]
pub(crate) fn store_cookie(store: &mut cookie_store::CookieStore, cookie: &str, url: &str)
    requires
        url_read(url@) is Ok,
    ensures
        held_cookies(*final(store)).subset_of(held_after(held_cookies(*old(store)), cookie@)),
        lasting_after(lasting_cookies(*old(store)), cookie@, url@).submap_of(lasting_cookies(*final(store))),
{
    let url = url::Url::parse(url).unwrap();
    let _ = store.parse(cookie, &url);
}

/// `cookie_store::CookieStore::get_request_values`: the names and values of the
/// cookies that a request to an address carries. All are in the store, and the
/// lasting ones of a plain host are among them. Which of the others are, and in
/// what order all of them come, is left open.
#[verifier::external_body]
pub(crate) fn request_values(store: &cookie_store::CookieStore, url: &str) -> (r: Vec<(String, String)>)
    requires
        url_read(url@) is Ok,
    ensures
        pairs(r@).to_multiset().subset_of(held_cookies(*store)),
        plain_host(url@) is Some ==> has_lasting(pairs(r@), lasting_cookies(*store), plain_host(url@)->0),
{
    let url = url::Url::parse(url).unwrap();
    store.get_request_values(&url).map(|(n, v)| (n.to_string(), v.to_string())).collect()
}

/// Whether the lasting cookies of a host are among some cookies.
pub open spec fn has_lasting(
    v: Seq<(Seq<char>, Seq<char>)>,
    m: Map<(Seq<char>, Seq<char>), Seq<char>>,
    host: Seq<char>,
) -> bool {
    forall|n: Seq<char>| #[trigger] m.contains_key((host, n)) ==> v.contains((n, m[(host, n)]))
}

} // verus!
