//! The cookies of a session.

use crate::crawler::url_rule::same_name;
use crate::ext::cookies::{
    has_lasting, held_after, held_cookies, is_lasting, lasting_after, lasting_cookies, new_store, plain_host,
    request_values, set_pair, store_cookie,
};
use crate::ext::urls::{parse_url, url_read};
use crate::ext::xml::pairs;
use crate::util::chars::{
    concat, concat3, eq_ignore_ascii_case, find_of, is_empty_text, is_space, join, join_of, lemma_find_from,
    lemma_mark_at, lemma_piece_split, lemma_solid_ends, lemma_trim_len, lemma_unsplit, occurs_at, opt_text, same,
    split, split_of, split_once, split_once_of, texts, trim, trim_end_of, trim_of, trim_start_of,
};
use std::mem::swap;
use vstd::multiset::Multiset;
use vstd::prelude::*;
use vstd::string::*;

verus! {

/// A cookie as it was handed to the store: its `Set-Cookie` text, and the
/// address that it was set for.
pub struct SetCookieV {
    pub text: Seq<char>,
    pub url: Seq<char>,
}

/// A cookie jar, with the record of all cookies that were handed to it.
pub struct CookieJar {
    store: cookie_store::CookieStore,
    /// Whether cookies were set since the jar was settled.
    touched: bool,
    record: Ghost<Seq<SetCookieV>>,
    settled: Ghost<int>,
}

/// Whether a name in a cookie header is that of an attribute, not of a cookie.
pub open spec fn is_attribute(name: Seq<char>) -> bool {
    ||| same_name(name, "path"@)
    ||| same_name(name, "domain"@)
    ||| same_name(name, "expires"@)
    ||| same_name(name, "max-age"@)
    ||| same_name(name, "samesite"@)
    ||| same_name(name, "httponly"@)
    ||| same_name(name, "secure"@)
}

/// The `Set-Cookie` text for one part of a cookie header, if it is a cookie.
pub open spec fn header_cookie(part: Seq<char>) -> Option<Seq<char>> {
    match split_once_of(trim_of(part), "="@) {
        Some((n, v)) => if trim_of(n).len() == 0 || is_attribute(trim_of(n)) {
            None
        } else {
            Some(trim_of(n) + "="@ + trim_of(v) + "; Path=/"@)
        },
        None => None,
    }
}

/// The `Set-Cookie` texts for the first `n` parts of a cookie header.
pub open spec fn header_cookies(parts: Seq<Seq<char>>, n: int) -> Seq<Seq<char>>
    decreases n,
{
    if n <= 0 {
        seq![]
    } else {
        match header_cookie(parts[n - 1]) {
            Some(t) => header_cookies(parts, n - 1).push(t),
            None => header_cookies(parts, n - 1),
        }
    }
}

/// The `Set-Cookie` texts of all cookies in a cookie header.
pub open spec fn cookies_of(header: Seq<char>) -> Seq<Seq<char>> {
    header_cookies(split_of(header, ";"@), split_of(header, ";"@).len() as int)
}

pub fn cookie_of_part(part: &str) -> (r: Option<String>)
    ensures
        opt_text(r) == header_cookie(part@),
{
    match split_once(trim(part).as_str(), "=") {
        Some((n, v)) => {
            let name = trim(n.as_str());
            let t = name.as_str();
            if is_empty_text(t) || eq_ignore_ascii_case(t, "path") || eq_ignore_ascii_case(t, "domain") || eq_ignore_ascii_case(
                t,
                "expires",
            ) || eq_ignore_ascii_case(t, "max-age") || eq_ignore_ascii_case(t, "samesite") || eq_ignore_ascii_case(
                t,
                "httponly",
            ) || eq_ignore_ascii_case(t, "secure") {
                return None;
            }
            Some(concat(concat3(t, "=", trim(v.as_str()).as_str()).as_str(), "; Path=/"))
        },
        None => None,
    }
}

/// Splits a cookie header into a `Set-Cookie` text for each cookie.
pub fn split_cookie_header(header: &str) -> (r: Vec<String>)
    ensures
        texts(r@) == cookies_of(header@),
{
    proof {
        reveal_strlit(";");
    }
    let parts = split(header, ";");
    let ghost all = split_of(header@, ";"@);
    let mut r: Vec<String> = Vec::new();
    let mut k: usize = 0;
    assert(texts(r@) =~= seq![]);
    while k < parts.len()
        invariant
            k <= parts.len(),
            all == texts(parts@),
            texts(r@) == header_cookies(all, k as int),
        decreases parts.len() - k,
    {
        assert(all[k as int] == parts@[k as int]@);
        if let Some(t) = cookie_of_part(parts[k].as_str()) {
            let ghost before = texts(r@);
            let ghost x = t@;
            r.push(t);
            assert(texts(r@) =~= before.push(x));
        }
        k = k + 1;
    }
    assert(all.len() == parts.len());
    r
}

/// Cookies written as `name=value`.
pub open spec fn written_cookies(v: Seq<(Seq<char>, Seq<char>)>) -> Seq<Seq<char>> {
    Seq::new(v.len(), |i: int| v[i].0 + "="@ + v[i].1)
}

/// The cookie header for the cookies of a request; none where there are no cookies.
pub open spec fn header_of_cookies(v: Seq<(Seq<char>, Seq<char>)>) -> Option<Seq<char>> {
    let line = join_of(written_cookies(v), "; "@);
    if line.len() == 0 {
        None
    } else {
        Some(line)
    }
}

/// Writes the cookie header of a request.
pub fn write_cookie_header(values: &Vec<(String, String)>) -> (r: Option<String>)
    ensures
        opt_text(r) == header_of_cookies(pairs(values@)),
{
    let ghost all = pairs(values@);
    let mut parts: Vec<String> = Vec::new();
    let mut k: usize = 0;
    while k < values.len()
        invariant
            k <= values.len(),
            all == pairs(values@),
            texts(parts@) =~= written_cookies(all).take(k as int),
        decreases values.len() - k,
    {
        assert(all[k as int] == (values@[k as int].0@, values@[k as int].1@));
        let t = concat3(values[k].0.as_str(), "=", values[k].1.as_str());
        let ghost before = texts(parts@);
        let ghost x = t@;
        parts.push(t);
        assert(texts(parts@) =~= before.push(x));
        k = k + 1;
    }
    assert(texts(parts@) =~= written_cookies(all));
    let line = join(&parts, "; ");
    if is_empty_text(line.as_str()) {
        None
    } else {
        Some(line)
    }
}

/// Cookies that are set for one address, after those of a record.
pub open spec fn recorded(before: Seq<SetCookieV>, cookies: Seq<Seq<char>>, url: Seq<char>) -> Seq<SetCookieV> {
    before + Seq::new(cookies.len(), |i: int| SetCookieV { text: cookies[i], url })
}

/// What is recorded when cookies are set for a text: nothing where it is no URL.
pub open spec fn recorded_for(before: Seq<SetCookieV>, cookies: Seq<Seq<char>>, url: Seq<char>) -> Seq<SetCookieV> {
    if url_read(url) is Ok {
        recorded(before, cookies, url)
    } else {
        before
    }
}

/// The names and values of all cookies of a record.
pub open spec fn record_pairs(record: Seq<SetCookieV>) -> Multiset<(Seq<char>, Seq<char>)>
    decreases record.len(),
{
    if record.len() == 0 {
        Multiset::empty()
    } else {
        held_after(record_pairs(record.drop_last()), record.last().text)
    }
}

/// The cookies without an end that a record leaves, by their hosts and names.
pub open spec fn record_lasting(record: Seq<SetCookieV>) -> Map<(Seq<char>, Seq<char>), Seq<char>>
    decreases record.len(),
{
    if record.len() == 0 {
        Map::empty()
    } else {
        lasting_after(record_lasting(record.drop_last()), record.last().text, record.last().url)
    }
}

/// Whether a request to an address may carry these cookies after those of a
/// record were set: none that was not set, and all of its host without an end.
pub open spec fn may_carry(record: Seq<SetCookieV>, url: Seq<char>, v: Seq<(Seq<char>, Seq<char>)>) -> bool {
    &&& v.to_multiset().subset_of(record_pairs(record))
    &&& plain_host(url) is Some ==> has_lasting(v, record_lasting(record), plain_host(url)->0)
}

/// Whether a request to a text may have a cookie header after the cookies of a
/// record were set: none where the text is no URL.
pub open spec fn may_have(record: Seq<SetCookieV>, url: Seq<char>, header: Option<Seq<char>>) -> bool {
    if url_read(url) is Ok {
        exists|v: Seq<(Seq<char>, Seq<char>)>| #[trigger] may_carry(record, url, v) && header == header_of_cookies(v)
    } else {
        header is None
    }
}

impl CookieJar {
    pub closed spec fn record(&self) -> Seq<SetCookieV> {
        self.record@
    }

    /// How many cookies the record had when the jar was last settled.
    pub closed spec fn settled(&self) -> int {
        self.settled@
    }

    /// What the store holds is what the record says.
    #[verifier::type_invariant]
    spec fn in_order(self) -> bool {
        &&& 0 <= self.settled@ <= self.record@.len()
        &&& self.touched == (self.settled@ < self.record@.len())
        &&& held_cookies(self.store).subset_of(record_pairs(self.record@))
        &&& record_lasting(self.record@).submap_of(lasting_cookies(self.store))
    }

    pub fn new() -> (r: CookieJar)
        ensures
            r.record() == Seq::<SetCookieV>::empty(),
            r.settled() == 0,
    {
        CookieJar { store: new_store(), touched: false, record: Ghost(Seq::empty()), settled: Ghost(0) }
    }

    /// Takes the cookies that were set so far for granted.
    pub fn settle(&mut self)
        ensures
            final(self).record() == old(self).record(),
            final(self).settled() == old(self).record().len(),
    {
        let mut jar = CookieJar::new();
        swap(self, &mut jar);
        proof {
            use_type_invariant(&jar);
        }
        let ghost all = jar.record@.len() as int;
        *self = CookieJar { store: jar.store, touched: false, record: jar.record, settled: Ghost(all) };
    }

    /// Whether cookies were set since the jar was settled.
    pub fn is_touched(&self) -> (r: bool)
        ensures
            r == (self.settled() < self.record().len()),
    {
        proof {
            use_type_invariant(self);
        }
        self.touched
    }

    fn put(&mut self, cookie: &str, url: &str)
        requires
            url_read(url@) is Ok,
        ensures
            final(self).settled() == old(self).settled(),
            final(self).record() == old(self).record().push(SetCookieV { text: cookie@, url: url@ }),
    {
        let mut jar = CookieJar::new();
        swap(self, &mut jar);
        proof {
            use_type_invariant(&jar);
        }
        let ghost before = jar.record@;
        let ghost had = jar.store;
        let mut store = jar.store;
        store_cookie(&mut store, cookie, url);
        let ghost record = before.push(SetCookieV { text: cookie@, url: url@ });
        proof {
            assert(record.drop_last() =~= before);
            lemma_held_grows(held_cookies(had), record_pairs(before), cookie@);
            lemma_lasting_grows(record_lasting(before), lasting_cookies(had), cookie@, url@);
            let held = held_after(held_cookies(had), cookie@);
            assert forall|x: (Seq<char>, Seq<char>)| #[trigger]
                held_cookies(store).count(x) <= record_pairs(record).count(x) by {
                assert(held_cookies(store).count(x) <= held.count(x));
            }
            vstd::map_lib::lemma_submap_of_trans(
                record_lasting(record),
                lasting_after(lasting_cookies(had), cookie@, url@),
                lasting_cookies(store),
            );
        }
        *self = CookieJar { store, touched: true, record: Ghost(record), settled: jar.settled };
    }

    /// Sets cookies by their `Set-Cookie` texts, in order.
    pub fn add_set_cookies(&mut self, cookies: &Vec<String>, url: &str)
        ensures
            final(self).settled() == old(self).settled(),
            final(self).record() == recorded_for(old(self).record(), texts(cookies@), url@),
    {
        if parse_url(url).is_err() {
            return;
        }
        let ghost all = texts(cookies@);
        let ghost before = self.record();
        let mut k: usize = 0;
        assert(recorded(before, all.take(0), url@) =~= before);
        while k < cookies.len()
            invariant
                k <= cookies.len(),
                self.settled() == old(self).settled(),
                url_read(url@) is Ok,
                all == texts(cookies@),
                self.record() == recorded(before, all.take(k as int), url@),
            decreases cookies.len() - k,
        {
            let ghost had = self.record();
            self.put(cookies[k].as_str(), url);
            assert(all[k as int] == cookies@[k as int]@);
            assert(self.record() =~= recorded(before, all.take(k + 1), url@));
            k = k + 1;
        }
        assert(all.take(k as int) =~= all);
    }

    /// Sets the cookies of a cookie header.
    pub fn add_cookie_header(&mut self, header: &str, url: &str)
        ensures
            final(self).settled() == old(self).settled(),
            final(self).record() == recorded_for(old(self).record(), cookies_of(header@), url@),
    {
        let cookies = split_cookie_header(header);
        self.add_set_cookies(&cookies, url);
    }

    /// The cookie header for a request to an address, as the store has it now.
    pub fn get_cookie_header(&self, url: &str) -> (r: Option<String>)
        ensures
            may_have(self.record(), url@, opt_text(r)),
    {
        if parse_url(url).is_err() {
            return None;
        }
        proof {
            use_type_invariant(self);
        }
        let values = request_values(&self.store, url);
        let r = write_cookie_header(&values);
        proof {
            let v = pairs(values@);
            if plain_host(url@) is Some {
                let m = record_lasting(self.record@);
                let h = plain_host(url@)->0;
                assert forall|n: Seq<char>| #[trigger] m.contains_key((h, n)) implies v.contains((n, m[(h, n)])) by {
                    assert(lasting_cookies(self.store).contains_key((h, n)));
                }
            }
            assert(may_carry(self.record(), url@, v));
        }
        r
    }
}

proof fn lemma_held_grows(
    a: Multiset<(Seq<char>, Seq<char>)>,
    b: Multiset<(Seq<char>, Seq<char>)>,
    text: Seq<char>,
)
    requires
        a.subset_of(b),
    ensures
        held_after(a, text).subset_of(held_after(b, text)),
{
    broadcast use vstd::multiset::group_multiset_axioms;

    if let Some(p) = set_pair(text) {
        assert forall|x: (Seq<char>, Seq<char>)| #[trigger] a.insert(p).count(x) <= b.insert(p).count(x) by {
            assert(a.count(x) <= b.count(x));
        }
    }
}

proof fn lemma_lasting_grows(
    a: Map<(Seq<char>, Seq<char>), Seq<char>>,
    b: Map<(Seq<char>, Seq<char>), Seq<char>>,
    text: Seq<char>,
    url: Seq<char>,
)
    requires
        a.submap_of(b),
    ensures
        lasting_after(a, text, url).submap_of(lasting_after(b, text, url)),
{
    let x = lasting_after(a, text, url);
    let y = lasting_after(b, text, url);
    assert forall|k: (Seq<char>, Seq<char>)| #[trigger] x.contains_key(k) implies y.contains_key(k) && x[k] == y[k] by {
        if a.contains_key(k) {
            assert(b.contains_key(k));
        }
    }
}

/// The value of a cookie in a cookie header, from part `k` on.
pub open spec fn cookie_value(parts: Seq<Seq<char>>, key: Seq<char>, k: int) -> Option<Seq<char>>
    decreases parts.len() - k,
{
    if k < 0 || k >= parts.len() {
        None
    } else {
        match split_once_of(trim_of(parts[k]), "="@) {
            Some((n, v)) => if trim_of(n) == trim_of(key) {
                Some(trim_of(v))
            } else {
                cookie_value(parts, key, k + 1)
            },
            None => cookie_value(parts, key, k + 1),
        }
    }
}

/// The value of a cookie in a cookie header.
pub fn find_cookie(header: &str, key: &str) -> (r: Option<String>)
    ensures
        opt_text(r) == cookie_value(split_of(header@, ";"@), key@, 0),
{
    proof {
        reveal_strlit(";");
    }
    let parts = split(header, ";");
    let ghost all = split_of(header@, ";"@);
    let name = trim(key);
    let mut k: usize = 0;
    while k < parts.len()
        invariant
            k <= parts.len(),
            all == split_of(header@, ";"@),
            all == texts(parts@),
            name@ == trim_of(key@),
            cookie_value(all, key@, 0) == cookie_value(all, key@, k as int),
        decreases parts.len() - k,
    {
        assert(all[k as int] == parts@[k as int]@);
        if let Some((n, v)) = split_once(trim(parts[k].as_str()).as_str(), "=") {
            if same(trim(n.as_str()).as_str(), name.as_str()) {
                return Some(trim(v.as_str()));
            }
        }
        k = k + 1;
    }
    assert(all.len() == parts.len());
    None
}

/// Whether a cookie can stand in a cookie header: a name without marks, and a
/// value without a semicolon, both without white space around them.
pub open spec fn is_plain_cookie(c: (Seq<char>, Seq<char>)) -> bool {
    &&& c.0.len() > 0
    &&& !c.0.contains(';')
    &&& !c.0.contains('=')
    &&& !c.1.contains(';')
    &&& trim_of(c.0) == c.0
    &&& trim_of(c.1) == c.1
    &&& !is_attribute(c.0)
}

proof fn lemma_trimmed_ends(s: Seq<char>)
    requires
        trim_of(s) == s,
        s.len() > 0,
    ensures
        !is_space(s[0]),
        !is_space(s.last()),
{
    lemma_trim_len(s);
    lemma_trim_len(trim_start_of(s));
    if is_space(s[0]) {
        lemma_trim_len(s.subrange(1, s.len() as int));
        lemma_trim_len(trim_start_of(s.subrange(1, s.len() as int)));
    } else if is_space(s.last()) {
        lemma_trim_len(s.drop_last());
    }
}

/// The cookies of a list as the store takes them.
pub open spec fn set_texts(v: Seq<(Seq<char>, Seq<char>)>) -> Seq<Seq<char>> {
    Seq::new(v.len(), |i: int| v[i].0 + "="@ + v[i].1 + "; Path=/"@)
}

proof fn lemma_cookie_part(c: (Seq<char>, Seq<char>), part: Seq<char>)
    requires
        is_plain_cookie(c),
        part == c.0 + "="@ + c.1 || part == " "@ + (c.0 + "="@ + c.1),
    ensures
        header_cookie(part) == Some(c.0 + "="@ + c.1 + "; Path=/"@),
{
    reveal_strlit("=");
    let w = c.0 + "="@ + c.1;
    lemma_trimmed_ends(c.0);
    if c.1.len() > 0 {
        lemma_trimmed_ends(c.1);
    }
    assert(w[0] == c.0[0]);
    assert(w.last() == if c.1.len() > 0 {
        c.1.last()
    } else {
        '='
    });
    lemma_solid_ends(w);
    lemma_name_and_value(c);
}

proof fn lemma_cookie_line(v: Seq<(Seq<char>, Seq<char>)>)
    requires
        v.len() > 0,
        forall|i: int| 0 <= i < v.len() ==> is_plain_cookie(#[trigger] v[i]),
    ensures
        join_of(written_cookies(v), "; "@).len() > 0,
        !is_space(join_of(written_cookies(v), "; "@)[0]),
        split_of(join_of(written_cookies(v), "; "@), ";"@).len() == v.len(),
        cookies_of(join_of(written_cookies(v), "; "@)) == set_texts(v),
    decreases v.len(),
{
    reveal_strlit(";");
    reveal_strlit("; ");
    reveal_strlit(" ");
    reveal_strlit("=");
    let w = written_cookies(v);
    let line = join_of(w, "; "@);
    assert(";"@ =~= seq![';']);
    let last = v.last();
    let text = last.0 + "="@ + last.1;
    assert(is_plain_cookie(last));
    assert(!text.contains(';')) by {
        if text.contains(';') {
            let i = choose|i: int| 0 <= i < text.len() && text[i] == ';';
            if i < last.0.len() {
                assert(last.0[i] == ';');
            } else if i > last.0.len() {
                assert(last.1[i - last.0.len() - 1] == ';');
            }
        }
    }
    lemma_trimmed_ends(last.0);
    assert(text[0] == last.0[0]);
    if v.len() == 1 {
        assert(line == text);
        lemma_unsplit(text, ';');
        lemma_cookie_part(last, text);
        let parts = split_of(line, ";"@);
        assert(header_cookies(parts, 0) =~= seq![]);
        assert(header_cookies(parts, 1) =~= set_texts(v));
    } else {
        let head = v.drop_last();
        lemma_cookie_line(head);
        let before = join_of(written_cookies(head), "; "@);
        assert(w.drop_last() =~= written_cookies(head));
        assert(w.last() == text);
        let part = " "@ + text;
        assert(line =~= before + seq![';'] + part);
        assert(line[0] == before[0]);
        assert(!part.contains(';')) by {
            if part.contains(';') {
                let i = choose|i: int| 0 <= i < part.len() && part[i] == ';';
                if i > 0 {
                    assert(text[i - 1] == ';');
                }
            }
        }
        lemma_piece_split(before, part, ';', 0);
        let parts = split_of(line, ";"@);
        let first = split_of(before, ";"@);
        assert(parts == first.push(part));
        lemma_cookie_part(last, part);
        lemma_same_start(first, part, first.len() as int);
        assert(header_cookies(parts, parts.len() as int) =~= set_texts(v));
    }
}

proof fn lemma_same_start(parts: Seq<Seq<char>>, more: Seq<char>, n: int)
    requires
        0 <= n <= parts.len(),
    ensures
        header_cookies(parts.push(more), n) == header_cookies(parts, n),
    decreases n,
{
    if n > 0 {
        lemma_same_start(parts, more, n - 1);
    }
}

/// The cookie header of a session, handed to another one, sets the same cookies.
pub proof fn law_cookie_header_reads_back(v: Seq<(Seq<char>, Seq<char>)>)
    requires
        v.len() > 0,
        forall|i: int| 0 <= i < v.len() ==> is_plain_cookie(#[trigger] v[i]),
    ensures
        header_of_cookies(v) is Some,
        trim_of(header_of_cookies(v)->0).len() > 0,
        cookies_of(header_of_cookies(v)->0) == set_texts(v),
{
    lemma_cookie_line(v);
    lemma_not_blank(header_of_cookies(v)->0);
}

proof fn lemma_not_blank(s: Seq<char>)
    requires
        s.len() > 0,
        !is_space(s[0]),
    ensures
        trim_end_of(s).len() > 0,
    decreases s.len(),
{
    if is_space(s.last()) {
        lemma_not_blank(s.drop_last());
    }
}

/// The cookie of a header part, as it is handed to the store.
pub open spec fn plain_set(c: (Seq<char>, Seq<char>), url: Seq<char>) -> SetCookieV {
    SetCookieV { text: c.0 + "="@ + c.1 + "; Path=/"@, url }
}

proof fn lemma_plain_set(c: (Seq<char>, Seq<char>))
    requires
        is_plain_cookie(c),
    ensures
        set_pair(c.0 + "="@ + c.1 + "; Path=/"@) == Some(c),
        is_lasting(c.0 + "="@ + c.1 + "; Path=/"@),
{
    reveal_strlit(";");
    reveal_strlit("=");
    reveal_strlit(" ");
    reveal_strlit("Path=/");
    reveal_strlit("; Path=/");
    let w = c.0 + "="@ + c.1;
    let rest = " "@ + "Path=/"@;
    assert(";"@ =~= seq![';']);
    assert(w + "; Path=/"@ =~= w + seq![';'] + rest);
    assert(!w.contains(';')) by {
        if w.contains(';') {
            let i = choose|i: int| 0 <= i < w.len() && w[i] == ';';
            if i < c.0.len() {
                assert(c.0[i] == ';');
            } else if i > c.0.len() {
                assert(c.1[i - c.0.len() - 1] == ';');
            }
        }
    }
    assert(!rest.contains(';')) by {
        assert(rest =~= seq![' ', 'P', 'a', 't', 'h', '=', '/']);
        if rest.contains(';') {
            let i = choose|i: int| 0 <= i < rest.len() && rest[i] == ';';
            assert(rest[i] == seq![' ', 'P', 'a', 't', 'h', '=', '/'][i]);
        }
    }
    lemma_unsplit(w, ';');
    lemma_piece_split(w, rest, ';', 0);
    assert(split_of(w + "; Path=/"@, ";"@) == seq![w].push(rest));
    assert("Path=/"@.last() == '/');
    lemma_solid_ends("Path=/"@);
    lemma_name_and_value(c);
}

proof fn lemma_name_and_value(c: (Seq<char>, Seq<char>))
    requires
        !c.0.contains('='),
    ensures
        split_once_of(c.0 + "="@ + c.1, "="@) == Some(c),
{
    reveal_strlit("=");
    let w = c.0 + "="@ + c.1;
    assert("="@ =~= seq!['=']);
    let n = c.0.len() as int;
    assert forall|j: int| 0 <= j implies (#[trigger] occurs_at(w, "="@, j) <==> j < w.len() && w[j] == '=') by {
        lemma_mark_at(w, '=', j);
    }
    lemma_find_from(w, "="@, 0);
    assert(w[n] == '=');
    assert(occurs_at(w, "="@, n));
    let k = find_of(w, "="@)->0;
    if k < n {
        assert(w[k] == c.0[k]);
        assert(c.0.contains('='));
    }
    assert(w.subrange(0, n) =~= c.0);
    assert(w.subrange(n + 1, w.len() as int) =~= c.1);
}

/// No request carries a cookie that was not set.
pub proof fn law_only_set_cookies(
    record: Seq<SetCookieV>,
    url: Seq<char>,
    v: Seq<(Seq<char>, Seq<char>)>,
    c: (Seq<char>, Seq<char>),
)
    requires
        may_carry(record, url, v),
        v.contains(c),
    ensures
        exists|j: int| 0 <= j < record.len() && set_pair((#[trigger] record[j]).text) == Some(c),
{
    broadcast use vstd::seq_lib::group_to_multiset_ensures;

    assert(v.to_multiset().count(c) > 0);
    lemma_counted(record, c);
}

proof fn lemma_counted(record: Seq<SetCookieV>, c: (Seq<char>, Seq<char>))
    requires
        record_pairs(record).count(c) > 0,
    ensures
        exists|j: int| 0 <= j < record.len() && set_pair((#[trigger] record[j]).text) == Some(c),
    decreases record.len(),
{
    broadcast use vstd::multiset::group_multiset_axioms;

    if record.len() > 0 {
        if set_pair(record.last().text) == Some(c) {
            assert(record[record.len() - 1] == record.last());
        } else {
            let before = record.drop_last();
            assert(record_pairs(before).count(c) > 0);
            lemma_counted(before, c);
            let j = choose|j: int| 0 <= j < before.len() && set_pair((#[trigger] before[j]).text) == Some(c);
            assert(record[j] == before[j]);
        }
    }
}

/// A cookie that was just set goes with every request to its host.
pub proof fn law_set_cookie_is_sent(
    record: Seq<SetCookieV>,
    c: (Seq<char>, Seq<char>),
    set_for: Seq<char>,
    url: Seq<char>,
    v: Seq<(Seq<char>, Seq<char>)>,
)
    requires
        is_plain_cookie(c),
        plain_host(set_for) is Some,
        plain_host(url) == plain_host(set_for),
        may_carry(record.push(plain_set(c, set_for)), url, v),
    ensures
        v.contains(c),
{
    lemma_plain_set(c);
    let all = record.push(plain_set(c, set_for));
    assert(all.drop_last() =~= record);
    assert(record_lasting(all).contains_key((plain_host(url)->0, c.0)));
}

/// Setting a cookie leaves the cookies without an end of all other names.
pub proof fn law_other_cookies_stay(record: Seq<SetCookieV>, more: SetCookieV, host: Seq<char>, name: Seq<char>)
    requires
        record_lasting(record).contains_key((host, name)),
        set_pair(more.text) matches Some(p) ==> p.0 != name,
    ensures
        record_lasting(record.push(more)).contains_key((host, name)),
        record_lasting(record.push(more))[(host, name)] == record_lasting(record)[(host, name)],
{
    assert(record.push(more).drop_last() =~= record);
}

/// Without cookies there is no cookie header.
pub proof fn law_no_cookies_no_header(url: Seq<char>, header: Option<Seq<char>>)
    requires
        may_have(seq![], url, header),
    ensures
        header is None,
{
    broadcast use vstd::seq_lib::group_to_multiset_ensures;

    if url_read(url) is Ok {
        let v = choose|v: Seq<(Seq<char>, Seq<char>)>|
            #[trigger] may_carry(seq![], url, v) && header == header_of_cookies(v);
        if v.len() > 0 {
            assert(v.contains(v[0]));
            assert(v.to_multiset().count(v[0]) > 0);
        }
        assert(written_cookies(v) =~= seq![]);
    }
}

/// The only cookie that was set is the cookie header of its host.
pub proof fn law_lone_cookie_reads_back(c: (Seq<char>, Seq<char>), url: Seq<char>, header: Option<Seq<char>>)
    requires
        is_plain_cookie(c),
        plain_host(url) is Some,
        may_have(seq![plain_set(c, url)], url, header),
    ensures
        header == Some(c.0 + "="@ + c.1),
{
    broadcast use vstd::seq_lib::group_to_multiset_ensures;
    broadcast use vstd::multiset::group_multiset_axioms;

    lemma_plain_set(c);
    let record = seq![plain_set(c, url)];
    let v = choose|v: Seq<(Seq<char>, Seq<char>)>| #[trigger] may_carry(record, url, v) && header == header_of_cookies(v);
    let none: Seq<SetCookieV> = seq![];
    assert(record =~= none.push(plain_set(c, url)));
    assert(record.drop_last() =~= none);
    law_set_cookie_is_sent(none, c, url, url, v);
    let all = record_pairs(record);
    assert(all == record_pairs(none).insert(c));
    assert forall|i: int| 0 <= i < v.len() implies #[trigger] v[i] == c by {
        assert(v.contains(v[i]));
        assert(v.to_multiset().count(v[i]) > 0);
        assert(all.count(v[i]) > 0);
    }
    if v.len() > 1 {
        let rest = v.remove(0);
        assert(rest[0] == c);
        assert(rest.contains(c));
        assert(rest.to_multiset().count(c) > 0);
        assert(rest.to_multiset() =~= v.to_multiset().remove(v[0]));
        assert(v.to_multiset().count(c) >= 2);
        assert(all.count(c) == 1);
    }
    assert(v.len() == 1);
    reveal_strlit("=");
    assert(written_cookies(v) =~= seq![c.0 + "="@ + c.1]);
}

} // verus!
