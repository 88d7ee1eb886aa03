//! The state of a session: cookies, the headers that a login left, and the
//! variables of a source. What comes out has the shape of what went in, and
//! nothing comes out where nothing changed.

use crate::crawler::cookies::{
    cookie_value, cookies_of, find_cookie, header_of_cookies, is_plain_cookie, law_cookie_header_reads_back, may_have,
    recorded_for, set_texts, CookieJar, SetCookieV,
};
use crate::crawler::url_rule::same_name;
use crate::ext::json::{
    copy_json, json_equal, json_of, json_same, lemma_object_model, member_models, member_of, opt_json, parse_json,
    set_member, Json, JsonV,
};
use crate::ext::urls::{parse_url, url_read, UrlParts, UrlV};
use crate::parser::context::{law_get_after_set, law_set_keeps_others, lookup, with_pair};
use crate::parser::field::{or_blank, text_or_blank};
use crate::parser::script::opt_members;
use crate::util::chars::{
    chars_of, concat, concat3, copy, eq_ignore_ascii_case, has_prefix, is_empty_text, opt_text, same, split, split_of,
    split_once, split_once_of, starts_with, string_range, texts, trim, trim_of,
};
use vstd::prelude::*;
use vstd::string::*;

verus! {

/// A session as it is handed in and out.
#[derive(Debug)]
pub struct ExecuteSession {
    pub cookies: Option<String>,
    pub header: Option<Json>,
    /// Variables by name, each name once.
    pub variables: Option<Vec<(String, Json)>>,
}

pub struct SessionV {
    pub cookies: Option<Seq<char>>,
    pub header: Option<JsonV>,
    pub variables: Option<Seq<(Seq<char>, JsonV)>>,
}

impl ExecuteSession {
    pub open spec fn model(self) -> SessionV {
        SessionV { cookies: opt_text(self.cookies), header: opt_json(self.header), variables: opt_members(self.variables) }
    }
}

pub open spec fn opt_session(o: Option<ExecuteSession>) -> Option<SessionV> {
    match o {
        Some(s) => Some(s.model()),
        None => None,
    }
}

pub open spec fn opt_session_ref(o: Option<&ExecuteSession>) -> Option<SessionV> {
    match o {
        Some(s) => Some(s.model()),
        None => None,
    }
}

/// The state of a session at work.
pub struct StateV {
    pub source_url: Seq<char>,
    /// The cookies that were handed to the jar so far.
    pub record: Seq<SetCookieV>,
    pub header: Option<JsonV>,
    pub variables: Seq<(Seq<char>, JsonV)>,
    /// The session as it started, with the cookies that the jar gave then.
    pub initial: SessionV,
    /// How many cookies were handed to the jar for the start.
    pub begun: int,
}

/// A session at work.
pub struct ActiveSession {
    source_url: String,
    jar: CookieJar,
    header: Option<Json>,
    variables: Vec<(String, Json)>,
    initial: ExecuteSession,
}

/// What is recorded for the `cookie` members among the first `n`.
pub open spec fn member_cookies(before: Seq<SetCookieV>, m: Seq<(Seq<char>, JsonV)>, url: Seq<char>, n: int) -> Seq<
    SetCookieV,
>
    decreases n,
{
    if n <= 0 {
        before
    } else {
        let rest = member_cookies(before, m, url, n - 1);
        if same_name(m[n - 1].0, "cookie"@) && m[n - 1].1 is Text {
            recorded_for(rest, cookies_of(m[n - 1].1->Text_0), url)
        } else {
            rest
        }
    }
}

/// What is recorded for the cookies of headers, given as an object or as the
/// text of one.
pub open spec fn header_record(before: Seq<SetCookieV>, header: JsonV, url: Seq<char>) -> Seq<SetCookieV> {
    match header {
        JsonV::Object(m) => member_cookies(before, m, url, m.len() as int),
        JsonV::Text(t) => match json_of(t) {
            Some(JsonV::Object(m)) => member_cookies(before, m, url, m.len() as int),
            _ => before,
        },
        _ => before,
    }
}

pub fn sync_members(jar: &mut CookieJar, m: &Vec<(String, Json)>, url: &str)
    ensures
        final(jar).settled() == old(jar).settled(),
        final(jar).record() == member_cookies(old(jar).record(), member_models(m@), url@, m.len() as int),
{
    let ghost before = jar.record();
    let ghost all = member_models(m@);
    let mut k: usize = 0;
    while k < m.len()
        invariant
            k <= m.len(),
            all == member_models(m@),
            jar.settled() == old(jar).settled(),
            jar.record() == member_cookies(before, all, url@, k as int),
        decreases m.len() - k,
    {
        assert(all[k as int] == (m@[k as int].0@, m@[k as int].1.model()));
        if eq_ignore_ascii_case(m[k].0.as_str(), "cookie") {
            if let Some(t) = m[k].1.as_text() {
                jar.add_cookie_header(t, url);
            }
        }
        k = k + 1;
    }
}

pub fn extract_and_sync_cookies_from_header(jar: &mut CookieJar, header: &Json, url: &str)
    ensures
        final(jar).settled() == old(jar).settled(),
        final(jar).record() == header_record(old(jar).record(), header.model(), url@),
{
    broadcast use lemma_object_model;

    match header {
        Json::Object(m) => {
            sync_members(jar, m, url);
        },
        Json::Text(t) => {
            if let Some(Json::Object(m)) = parse_json(t.as_str()) {
                assert(json_of(t@) == Some(Json::Object(m).model()));
                sync_members(jar, &m, url);
            }
        },
        _ => {},
    }
}

/// The session that is started: without blank cookies and without an empty list
/// of variables.
pub open spec fn initial_session(session: Option<SessionV>) -> SessionV {
    match session {
        Some(s) => SessionV {
            cookies: match s.cookies {
                Some(c) => if trim_of(c).len() > 0 {
                    Some(c)
                } else {
                    None
                },
                None => None,
            },
            header: s.header,
            variables: match s.variables {
                Some(v) => if v.len() > 0 {
                    Some(v)
                } else {
                    None
                },
                None => None,
            },
        },
        None => SessionV { cookies: None, header: None, variables: None },
    }
}

/// The cookies that a session starts with: those of its header line, then those
/// of its login headers.
pub open spec fn initial_record(s: SessionV, url: Seq<char>) -> Seq<SetCookieV> {
    let first = match s.cookies {
        Some(c) => recorded_for(seq![], cookies_of(c), url),
        None => seq![],
    };
    match s.header {
        Some(h) => header_record(first, h, url),
        None => first,
    }
}

/// The state that a session starts in, with the cookies that the jar gives then.
pub open spec fn started_session(session: Option<SessionV>, url: Seq<char>, cookies: Option<Seq<char>>) -> StateV {
    let s = initial_session(session);
    StateV {
        source_url: url,
        record: initial_record(s, url),
        header: s.header,
        variables: match s.variables {
            Some(v) => v,
            None => seq![],
        },
        initial: SessionV { cookies, ..s },
        begun: initial_record(s, url).len() as int,
    }
}

/// The URL text that a target stands for: the source where it is blank, itself
/// where it has a scheme of the web, else a host, or the source where it is none.
pub open spec fn target_of(source_url: Seq<char>, target: Seq<char>) -> Option<Seq<char>> {
    let t = trim_of(target);
    let source = if url_read(source_url) is Ok {
        Some(source_url)
    } else {
        None
    };
    if t.len() == 0 {
        source
    } else if has_prefix(t, "http://"@) || has_prefix(t, "https://"@) {
        if url_read(t) is Ok {
            Some(t)
        } else {
            None
        }
    } else if url_read("https://"@ + t) is Ok {
        Some("https://"@ + t)
    } else {
        source
    }
}

pub fn resolve_target(source_url: &str, target: &str) -> (r: Option<String>)
    ensures
        opt_text(r) == target_of(source_url@, target@),
{
    let t = trim(target);
    if !is_empty_text(t.as_str()) {
        if starts_with(t.as_str(), "http://") || starts_with(t.as_str(), "https://") {
            if parse_url(t.as_str()).is_ok() {
                return Some(t);
            }
            return None;
        }
        let host = concat("https://", t.as_str());
        if parse_url(host.as_str()).is_ok() {
            return Some(host);
        }
    }
    if parse_url(source_url).is_ok() {
        Some(copy(source_url))
    } else {
        None
    }
}

fn copy_members(m: &Vec<(String, Json)>) -> (r: Vec<(String, Json)>)
    ensures
        member_models(r@) == member_models(m@),
{
    let ghost all = member_models(m@);
    let mut r: Vec<(String, Json)> = Vec::new();
    let mut k: usize = 0;
    while k < m.len()
        invariant
            k <= m.len(),
            all == member_models(m@),
            member_models(r@) =~= all.take(k as int),
        decreases m.len() - k,
    {
        let ghost before = member_models(r@);
        let x = copy_json(&m[k].1);
        let n = m[k].0.clone();
        let ghost p = (n@, x.model());
        r.push((n, x));
        assert(member_models(r@) =~= before.push(p));
        assert(all[k as int] == p);
        k = k + 1;
    }
    assert(all.take(k as int) =~= all);
    r
}

fn copy_opt_json(o: &Option<Json>) -> (r: Option<Json>)
    ensures
        opt_json(r) == opt_json(*o),
{
    match o {
        Some(v) => Some(copy_json(v)),
        None => None,
    }
}

/// A variable, the empty name standing for the variable of the source.
pub open spec fn variable_of(m: Seq<(Seq<char>, JsonV)>, key: Seq<char>) -> Option<JsonV> {
    if key.len() == 0 {
        match lookup(m, "variable"@, 0) {
            Some(v) => Some(v),
            None => lookup(m, "sourceVariable"@, 0),
        }
    } else {
        lookup(m, key, 0)
    }
}

/// Variables with one set. The empty name sets the variable of the source; any
/// other name sets that one too where it is not there yet.
pub open spec fn with_variable(m: Seq<(Seq<char>, JsonV)>, key: Seq<char>, v: JsonV) -> Seq<(Seq<char>, JsonV)> {
    if key.len() == 0 {
        with_pair(with_pair(m, "variable"@, v, 0), "sourceVariable"@, v, 0)
    } else {
        let n = with_pair(m, key, v, 0);
        if lookup(n, "variable"@, 0) is None {
            with_pair(n, "variable"@, v, 0)
        } else {
            n
        }
    }
}

/// The first `n` variables without one name.
pub open spec fn without_name(m: Seq<(Seq<char>, JsonV)>, key: Seq<char>, n: int) -> Seq<(Seq<char>, JsonV)>
    decreases n,
{
    if n <= 0 {
        seq![]
    } else if m[n - 1].0 == key {
        without_name(m, key, n - 1)
    } else {
        without_name(m, key, n - 1).push(m[n - 1])
    }
}

pub open spec fn without_variable(m: Seq<(Seq<char>, JsonV)>, key: Seq<char>) -> Seq<(Seq<char>, JsonV)> {
    if key.len() == 0 {
        let n = without_name(m, "variable"@, m.len() as int);
        without_name(n, "sourceVariable"@, n.len() as int)
    } else {
        without_name(m, key, m.len() as int)
    }
}

pub fn find_variable<'a>(m: &'a Vec<(String, Json)>, key: &str) -> (r: Option<&'a Json>)
    ensures
        match r {
            Some(x) => lookup(member_models(m@), key@, 0) == Some(x.model()),
            None => lookup(member_models(m@), key@, 0) is None,
        },
{
    let ghost all = member_models(m@);
    let mut k: usize = 0;
    while k < m.len()
        invariant
            k <= m.len(),
            all == member_models(m@),
            lookup(all, key@, 0) == lookup(all, key@, k as int),
        decreases m.len() - k,
    {
        assert(all[k as int] == (m@[k as int].0@, m@[k as int].1.model()));
        if same(m[k].0.as_str(), key) {
            return Some(&m[k].1);
        }
        k = k + 1;
    }
    None
}

pub fn remove_name(m: &mut Vec<(String, Json)>, key: &str)
    ensures
        member_models(final(m)@) == without_name(member_models(old(m)@), key@, old(m).len() as int),
{
    let ghost all = member_models(m@);
    let ghost total = m.len() as int;
    let mut left: usize = m.len();
    let mut k: usize = 0;
    assert(all.skip(0) =~= all);
    assert(member_models(m@).take(0) =~= seq![]);
    while left > 0
        invariant
            left <= total,
            total == all.len(),
            k + left == m.len(),
            member_models(m@).take(k as int) =~= without_name(all, key@, total - left),
            member_models(m@).skip(k as int) =~= all.skip(total - left),
        decreases left,
    {
        let ghost now = member_models(m@);
        assert(now.skip(k as int)[0] == now[k as int]);
        assert(all.skip(total - left)[0] == all[total - left]);
        assert(now[k as int] == (m@[k as int].0@, m@[k as int].1.model()));
        if same(m[k].0.as_str(), key) {
            let _ = m.remove(k);
            assert(member_models(m@) =~= now.remove(k as int));
            assert(member_models(m@).take(k as int) =~= now.take(k as int));
            assert(member_models(m@).skip(k as int) =~= now.skip(k as int).skip(1));
            assert(all.skip(total - left).skip(1) =~= all.skip(total - left + 1));
        } else {
            assert(now.take(k + 1) =~= now.take(k as int).push(now[k as int]));
            assert(now.skip(k + 1) =~= now.skip(k as int).skip(1));
            assert(all.skip(total - left).skip(1) =~= all.skip(total - left + 1));
            k = k + 1;
        }
        left = left - 1;
    }
    assert(member_models(m@).take(k as int) =~= member_models(m@));
}

/// The paths, up to the first `n` characters of one, at which its cookies may be set.
pub open spec fn paths_above(path: Seq<char>, n: int) -> Seq<Seq<char>>
    decreases n,
{
    if n <= 1 {
        seq!["/"@]
    } else if path[n - 1] == '/' && path.subrange(0, n - 1) != "/"@ {
        paths_above(path, n - 1).push(path.subrange(0, n - 1))
    } else {
        paths_above(path, n - 1)
    }
}

/// All paths at which cookies for a path may be set: the root, each path above
/// it, and the path itself.
pub open spec fn cookie_paths(path: Seq<char>) -> Seq<Seq<char>> {
    let above = paths_above(path, path.len() as int);
    if path == "/"@ {
        above
    } else {
        above.push(path)
    }
}

pub fn paths_of(path: &str) -> (r: Vec<String>)
    ensures
        texts(r@) == cookie_paths(path@),
{
    let v = chars_of(path);
    let mut r: Vec<String> = Vec::new();
    r.push("/".to_owned());
    assert(texts(r@) =~= seq!["/"@]);
    let mut n: usize = 1;
    while n < v.len()
        invariant
            v@ == path@,
            n >= 1,
            n <= v.len() || n == 1,
            texts(r@) == paths_above(path@, n as int),
        decreases v.len() - n,
    {
        if v[n] == '/' {
            let above = string_range(&v, 0, n);
            if !same(above.as_str(), "/") {
                let ghost before = texts(r@);
                let ghost x = above@;
                r.push(above);
                assert(texts(r@) =~= before.push(x));
            }
        }
        n = n + 1;
    }
    if !same(path, "/") {
        let ghost before = texts(r@);
        r.push(copy(path));
        assert(texts(r@) =~= before.push(path@));
    }
    r
}

/// The text that ends a cookie at each of the first `n` paths.
pub open spec fn ended_at(name: Seq<char>, paths: Seq<Seq<char>>, n: int) -> Seq<Seq<char>>
    decreases n,
{
    if n <= 0 {
        seq![]
    } else {
        ended_at(name, paths, n - 1).push(name + "=; Max-Age=0; Path="@ + paths[n - 1])
    }
}

/// The texts that end the cookies of the first `n` parts of a cookie header.
pub open spec fn ended_parts(parts: Seq<Seq<char>>, paths: Seq<Seq<char>>, n: int) -> Seq<Seq<char>>
    decreases n,
{
    if n <= 0 {
        seq![]
    } else {
        let before = ended_parts(parts, paths, n - 1);
        match split_once_of(trim_of(parts[n - 1]), "="@) {
            Some((name, _)) => if name.len() > 0 {
                before + ended_at(name, paths, paths.len() as int)
            } else {
                before
            },
            None => before,
        }
    }
}

/// The texts that end every cookie of a cookie header, at each path above an
/// address.
pub open spec fn ended_cookies(header: Seq<char>, path: Seq<char>) -> Seq<Seq<char>> {
    let parts = split_of(header, ";"@);
    ended_parts(parts, cookie_paths(path), parts.len() as int)
}

/// Writes the texts that end every cookie of a cookie header.
pub fn end_cookies(header: &str, path: &str) -> (r: Vec<String>)
    ensures
        texts(r@) == ended_cookies(header@, path@),
{
    proof {
        reveal_strlit(";");
    }
    let parts = split(header, ";");
    let paths = paths_of(path);
    let ghost all = split_of(header@, ";"@);
    let ghost places = cookie_paths(path@);
    let mut r: Vec<String> = Vec::new();
    let mut k: usize = 0;
    assert(texts(r@) =~= seq![]);
    while k < parts.len()
        invariant
            k <= parts.len(),
            all == texts(parts@),
            places == texts(paths@),
            texts(r@) == ended_parts(all, places, k as int),
        decreases parts.len() - k,
    {
        assert(all[k as int] == parts@[k as int]@);
        if let Some((name, _)) = split_once(trim(parts[k].as_str()).as_str(), "=") {
            if !is_empty_text(name.as_str()) {
                let ghost before = texts(r@);
                let mut j: usize = 0;
                assert(before =~= before + ended_at(name@, places, 0));
                while j < paths.len()
                    invariant
                        j <= paths.len(),
                        places == texts(paths@),
                        texts(r@) == before + ended_at(name@, places, j as int),
                    decreases paths.len() - j,
                {
                    let ghost had = texts(r@);
                    assert(places[j as int] == paths@[j as int]@);
                    let t = concat3(name.as_str(), "=; Max-Age=0; Path=", paths[j].as_str());
                    let ghost x = t@;
                    r.push(t);
                    assert(texts(r@) =~= had.push(x));
                    assert(texts(r@) =~= before + ended_at(name@, places, j + 1));
                    j = j + 1;
                }
                assert(places.len() == paths.len());
            }
        }
        k = k + 1;
    }
    assert(all.len() == parts.len());
    r
}

/// The session that a state hands out, with the cookies that the jar gave.
pub open spec fn session_of(s: StateV, cookies: Option<Seq<char>>) -> SessionV {
    SessionV {
        cookies,
        header: s.header,
        variables: if s.variables.len() == 0 {
            None
        } else {
            Some(s.variables)
        },
    }
}

pub open spec fn opt_json_same(a: Option<JsonV>, b: Option<JsonV>) -> bool {
    match (a, b) {
        (Some(x), Some(y)) => json_same(x, y),
        (None, None) => true,
        _ => false,
    }
}

pub open spec fn variables_same(a: Option<Seq<(Seq<char>, JsonV)>>, b: Option<Seq<(Seq<char>, JsonV)>>) -> bool {
    match (a, b) {
        (Some(x), Some(y)) => json_same(JsonV::Object(x), JsonV::Object(y)),
        (None, None) => true,
        _ => false,
    }
}

/// Whether two sessions are the same, whatever the order of what they hold. The
/// cookies are where none were set in between.
pub open spec fn session_same(a: SessionV, b: SessionV, touched: bool) -> bool {
    (!touched || a.cookies == b.cookies) && opt_json_same(a.header, b.header) && variables_same(a.variables, b.variables)
}

/// What a session hands out at the end: nothing where it is as it was.
pub open spec fn delta_of(now: SessionV, initial: SessionV, touched: bool) -> Option<SessionV> {
    if session_same(now, initial, touched) {
        None
    } else {
        Some(now)
    }
}

pub fn variables_equal(a: &Vec<(String, Json)>, b: &Vec<(String, Json)>) -> (r: bool)
    ensures
        r == json_same(JsonV::Object(member_models(a@)), JsonV::Object(member_models(b@))),
{
    broadcast use lemma_object_model;

    let x = Json::Object(copy_members(a));
    let y = Json::Object(copy_members(b));
    json_equal(&x, &y)
}

/// Compares what a session is with what it was.
pub fn session_delta(now: ExecuteSession, initial: &ExecuteSession, touched: bool) -> (r: Option<ExecuteSession>)
    ensures
        opt_session(r) == delta_of(now.model(), initial.model(), touched),
{
    let cookies = !touched || match (&now.cookies, &initial.cookies) {
        (Some(a), Some(b)) => same(a.as_str(), b.as_str()),
        (None, None) => true,
        _ => false,
    };
    let header = match (&now.header, &initial.header) {
        (Some(a), Some(b)) => json_equal(a, b),
        (None, None) => true,
        _ => false,
    };
    let variables = match (&now.variables, &initial.variables) {
        (Some(a), Some(b)) => variables_equal(a, b),
        (None, None) => true,
        _ => false,
    };
    if cookies && header && variables {
        None
    } else {
        Some(now)
    }
}

impl ActiveSession {
    pub closed spec fn model(&self) -> StateV {
        StateV {
            source_url: self.source_url@,
            record: self.jar.record(),
            header: opt_json(self.header),
            variables: member_models(self.variables@),
            initial: self.initial.model(),
            begun: self.jar.settled(),
        }
    }

    pub fn new(session: Option<&ExecuteSession>, source_url: &str) -> (r: ActiveSession)
        ensures
            exists|c: Option<Seq<char>>|
                r.model() == #[trigger] started_session(opt_session_ref(session), source_url@, c) && may_have(
                    r.model().record,
                    source_url@,
                    c,
                ),
    {
        let mut jar = CookieJar::new();
        let mut header: Option<Json> = None;
        let mut kept: Option<Vec<(String, Json)>> = None;
        let mut variables: Vec<(String, Json)> = Vec::new();
        assert(member_models(variables@) =~= seq![]);
        assert(jar.record() =~= seq![]);
        if let Some(s) = session {
            if let Some(c) = &s.cookies {
                if !is_empty_text(trim(c.as_str()).as_str()) {
                    jar.add_cookie_header(c.as_str(), source_url);
                }
            }
            if let Some(h) = &s.header {
                extract_and_sync_cookies_from_header(&mut jar, h, source_url);
                header = Some(copy_json(h));
            }
            if let Some(v) = &s.variables {
                if v.len() > 0 {
                    variables = copy_members(v);
                    kept = Some(copy_members(v));
                }
                assert(member_models(v@).len() == v.len());
            }
        }
        let first = copy_opt_json(&header);
        jar.settle();
        let cookies = jar.get_cookie_header(source_url);
        let ghost c = opt_text(cookies);
        let r = ActiveSession {
            source_url: copy(source_url),
            jar,
            header,
            variables,
            initial: ExecuteSession { cookies, header: first, variables: kept },
        };
        assert(r.model() == started_session(opt_session_ref(session), source_url@, c));
        r
    }

    pub fn source_url(&self) -> (r: &str)
        ensures
            r@ == self.model().source_url,
    {
        self.source_url.as_str()
    }

    /// The cookies of the session, for the requests that it makes.
    pub fn cookie_store(&mut self) -> (r: &mut CookieJar)
        ensures
            r.record() == old(self).model().record,
            r.settled() == old(self).model().begun,
            final(self).model() == (StateV {
                record: final(r).record(),
                begun: final(r).settled(),
                ..old(self).model()
            }),
    {
        &mut self.jar
    }

    /// The address that a target stands for.
    pub fn resolve_url(&self, target: &str) -> (r: Option<UrlParts>)
        ensures
            match target_of(self.model().source_url, target@) {
                Some(t) => r is Some && url_read(t) == Ok::<UrlV, Seq<char>>(r->0.model()),
                None => r is None,
            },
    {
        match resolve_target(self.source_url.as_str(), target) {
            Some(t) => match parse_url(t.as_str()) {
                Ok(u) => Some(u),
                Err(_) => None,
            },
            None => None,
        }
    }

    pub fn get_variable(&self, key: &str) -> (r: Option<Json>)
        ensures
            opt_json(r) == variable_of(self.model().variables, key@),
    {
        if is_empty_text(key) {
            match find_variable(&self.variables, "variable") {
                Some(v) => Some(copy_json(v)),
                None => match find_variable(&self.variables, "sourceVariable") {
                    Some(v) => Some(copy_json(v)),
                    None => None,
                },
            }
        } else {
            match find_variable(&self.variables, key) {
                Some(v) => Some(copy_json(v)),
                None => None,
            }
        }
    }

    pub fn set_variable(&mut self, key: &str, value: Json)
        ensures
            final(self).model() == (StateV {
                variables: with_variable(old(self).model().variables, key@, value.model()),
                ..old(self).model()
            }),
    {
        if is_empty_text(key) {
            set_member(&mut self.variables, "variable".to_owned(), copy_json(&value));
            set_member(&mut self.variables, "sourceVariable".to_owned(), value);
        } else {
            set_member(&mut self.variables, copy(key), copy_json(&value));
            if find_variable(&self.variables, "variable").is_none() {
                set_member(&mut self.variables, "variable".to_owned(), value);
            }
        }
    }

    /// Sets a variable by just that name.
    pub fn set_variable_exact(&mut self, key: &str, value: Json)
        ensures
            final(self).model() == (StateV {
                variables: with_pair(old(self).model().variables, key@, value.model(), 0),
                ..old(self).model()
            }),
    {
        set_member(&mut self.variables, copy(key), value);
    }

    pub fn remove_variable(&mut self, key: &str)
        ensures
            final(self).model() == (StateV {
                variables: without_variable(old(self).model().variables, key@),
                ..old(self).model()
            }),
    {
        if is_empty_text(key) {
            assert(member_models(self.variables@).len() == self.variables.len());
            remove_name(&mut self.variables, "variable");
            assert(member_models(self.variables@).len() == self.variables.len());
            remove_name(&mut self.variables, "sourceVariable");
        } else {
            assert(member_models(self.variables@).len() == self.variables.len());
            remove_name(&mut self.variables, key);
        }
    }

    pub fn get_login_header(&self) -> (r: Option<Json>)
        ensures
            opt_json(r) == self.model().header,
    {
        copy_opt_json(&self.header)
    }

    /// Sets the headers of a login; their cookies go to the jar.
    pub fn put_login_header(&mut self, value: Json)
        ensures
            final(self).model() == (StateV {
                record: header_record(old(self).model().record, value.model(), old(self).model().source_url),
                header: Some(value.model()),
                ..old(self).model()
            }),
    {
        extract_and_sync_cookies_from_header(&mut self.jar, &value, self.source_url.as_str());
        self.header = Some(value);
    }

    /// Takes the headers of a login away, and the cookies of the source.
    pub fn remove_login_header(&mut self)
        ensures
            exists|c: Option<Seq<char>>|
                may_have_for(old(self).model(), old(self).model().source_url, c) && final(self).model() == (StateV {
                    header: None,
                    ..#[trigger] without_cookies(old(self).model(), old(self).model().source_url, c)
                }),
    {
        let url = self.source_url.clone();
        self.remove_cookie(url.as_str());
        let ghost c = choose|c: Option<Seq<char>>|
            may_have_for(old(self).model(), old(self).model().source_url, c) && self.model() == #[trigger] without_cookies(
                old(self).model(),
                old(self).model().source_url,
                c,
            );
        self.header = None;
        assert(self.model() == (StateV {
            header: None,
            ..without_cookies(old(self).model(), old(self).model().source_url, c)
        }));
    }

    /// The cookie header for a target, as the jar has it now.
    pub fn get_cookie(&self, target_url: &str) -> (r: Option<String>)
        ensures
            may_have_for(self.model(), target_url@, opt_text(r)),
    {
        match resolve_target(self.source_url.as_str(), target_url) {
            Some(t) => self.jar.get_cookie_header(t.as_str()),
            None => None,
        }
    }

    /// The value of one cookie for a target, as the jar has it now.
    pub fn get_cookie_key(&self, target_url: &str, key: &str) -> (r: Option<String>)
        ensures
            exists|header: Option<Seq<char>>|
                may_have_for(self.model(), target_url@, header) && opt_text(r) == #[trigger] value_in_header(header, key@),
    {
        let header = self.get_cookie(target_url);
        let r = match &header {
            Some(h) => find_cookie(h.as_str(), key),
            None => None,
        };
        assert(opt_text(r) == value_in_header(opt_text(header), key@));
        r
    }

    /// Sets the cookies of a cookie header for a target.
    pub fn set_cookie(&mut self, target_url: &str, cookie: &str)
        ensures
            final(self).model() == (StateV {
                record: match target_of(old(self).model().source_url, target_url@) {
                    Some(t) => recorded_for(old(self).model().record, cookies_of(cookie@), t),
                    None => old(self).model().record,
                },
                ..old(self).model()
            }),
    {
        if let Some(t) = resolve_target(self.source_url.as_str(), target_url) {
            self.jar.add_cookie_header(cookie, t.as_str());
        }
    }

    /// Ends every cookie that the jar has for a target.
    pub fn remove_cookie(&mut self, target_url: &str)
        ensures
            exists|c: Option<Seq<char>>|
                may_have_for(old(self).model(), target_url@, c) && final(self).model() == #[trigger] without_cookies(
                    old(self).model(),
                    target_url@,
                    c,
                ),
    {
        let header = self.get_cookie(target_url);
        let ghost c = opt_text(header);
        if let Some(t) = resolve_target(self.source_url.as_str(), target_url) {
            if let Ok(u) = parse_url(t.as_str()) {
                let ended = end_cookies(text_or_blank(header).as_str(), u.path.as_str());
                self.jar.add_set_cookies(&ended, t.as_str());
            }
        }
        assert(self.model() == without_cookies(old(self).model(), target_url@, c));
    }

    /// The session as it is now, with the cookies that the jar has for the source.
    pub fn current_session(&self) -> (r: ExecuteSession)
        ensures
            r.model() == session_of(self.model(), opt_text(r.cookies)),
            may_have(self.model().record, self.model().source_url, opt_text(r.cookies)),
    {
        let cookies = self.jar.get_cookie_header(self.source_url.as_str());
        assert(member_models(self.variables@).len() == self.variables.len());
        let variables = if self.variables.len() == 0 {
            None
        } else {
            Some(copy_members(&self.variables))
        };
        ExecuteSession { cookies, header: copy_opt_json(&self.header), variables }
    }

    /// The session where it is not what it was at the start; right after the
    /// start there is none.
    pub fn extract_delta(&self) -> (r: Option<ExecuteSession>)
        ensures
            exists|c: Option<Seq<char>>|
                may_have(self.model().record, self.model().source_url, c) && opt_session(r) == #[trigger] delta_of(
                    session_of(self.model(), c),
                    self.model().initial,
                    is_touched(self.model()),
                ),
    {
        let now = self.current_session();
        let ghost c = opt_text(now.cookies);
        let r = session_delta(now, &self.initial, self.jar.is_touched());
        assert(opt_session(r) == delta_of(session_of(self.model(), c), self.model().initial, is_touched(self.model())));
        r
    }
}

/// Whether cookies were set since a session started.
pub open spec fn is_touched(s: StateV) -> bool {
    s.begun < s.record.len()
}

/// Whether a target may have a cookie header in a state.
pub open spec fn may_have_for(s: StateV, target: Seq<char>, header: Option<Seq<char>>) -> bool {
    match target_of(s.source_url, target) {
        Some(t) => may_have(s.record, t, header),
        None => header is None,
    }
}

/// The value of a cookie in a header, if there is a header.
pub open spec fn value_in_header(header: Option<Seq<char>>, key: Seq<char>) -> Option<Seq<char>> {
    match header {
        Some(h) => cookie_value(split_of(h, ";"@), key, 0),
        None => None,
    }
}

/// The state after the cookies of a header were ended for a target.
pub open spec fn without_cookies(s: StateV, target: Seq<char>, header: Option<Seq<char>>) -> StateV {
    match target_of(s.source_url, target) {
        Some(t) => match url_read(t) {
            Ok(u) => StateV { record: recorded_for(s.record, ended_cookies(or_blank(header), u.path), t), ..s },
            Err(_) => s,
        },
        None => s,
    }
}

/// A variable reads as what it was last set to.
pub proof fn law_variable_read_back(m: Seq<(Seq<char>, JsonV)>, key: Seq<char>, v: JsonV)
    ensures
        variable_of(with_variable(m, key, v), key) == Some(v),
{
    reveal_strlit("variable");
    reveal_strlit("sourceVariable");
    assert("variable"@.len() != "sourceVariable"@.len());
    if key.len() == 0 {
        let n = with_pair(m, "variable"@, v, 0);
        law_get_after_set(m, "variable"@, v);
        law_set_keeps_others(n, "sourceVariable"@, v, "variable"@);
    } else {
        let n = with_pair(m, key, v, 0);
        law_get_after_set(m, key, v);
        if lookup(n, "variable"@, 0) is None {
            law_set_keeps_others(n, "variable"@, v, key);
        }
    }
}

/// Setting a variable leaves every other one, but for the variable of the
/// source, which it may set where there was none.
pub proof fn law_other_variables_kept(m: Seq<(Seq<char>, JsonV)>, key: Seq<char>, v: JsonV, other: Seq<char>)
    requires
        key.len() > 0,
        other != key,
        other.len() > 0,
        other != "variable"@ || lookup(m, "variable"@, 0) is Some,
    ensures
        variable_of(with_variable(m, key, v), other) == variable_of(m, other),
{
    let n = with_pair(m, key, v, 0);
    law_set_keeps_others(m, key, v, other);
    if lookup(n, "variable"@, 0) is None && other != "variable"@ {
        law_set_keeps_others(n, "variable"@, v, other);
    }
}

proof fn lemma_without_name(m: Seq<(Seq<char>, JsonV)>, key: Seq<char>, n: int, i: int)
    requires
        0 <= n <= m.len(),
        0 <= i < without_name(m, key, n).len(),
    ensures
        without_name(m, key, n)[i].0 != key,
        exists|j: int| 0 <= j < n && #[trigger] m[j] == without_name(m, key, n)[i],
    decreases n,
{
    if n > 0 && i < without_name(m, key, n - 1).len() {
        lemma_without_name(m, key, n - 1, i);
    }
}

proof fn lemma_absent(m: Seq<(Seq<char>, JsonV)>, key: Seq<char>, k: int)
    requires
        0 <= k <= m.len(),
        forall|i: int| 0 <= i < m.len() ==> (#[trigger] m[i]).0 != key,
    ensures
        lookup(m, key, k) is None,
    decreases m.len() - k,
{
    if k < m.len() {
        lemma_absent(m, key, k + 1);
    }
}

/// A variable that was removed is gone.
pub proof fn law_removed_variable_gone(m: Seq<(Seq<char>, JsonV)>, key: Seq<char>)
    ensures
        variable_of(without_variable(m, key), key) is None,
{
    if key.len() == 0 {
        let n = without_name(m, "variable"@, m.len() as int);
        let r = without_name(n, "sourceVariable"@, n.len() as int);
        assert forall|i: int| 0 <= i < n.len() implies (#[trigger] n[i]).0 != "variable"@ by {
            lemma_without_name(m, "variable"@, m.len() as int, i);
        }
        assert forall|i: int| 0 <= i < r.len() implies (#[trigger] r[i]).0 != "sourceVariable"@ && r[i].0
            != "variable"@ by {
            lemma_without_name(n, "sourceVariable"@, n.len() as int, i);
        }
        lemma_absent(r, "variable"@, 0);
        lemma_absent(r, "sourceVariable"@, 0);
    } else {
        let r = without_name(m, key, m.len() as int);
        assert forall|i: int| 0 <= i < r.len() implies (#[trigger] r[i]).0 != key by {
            lemma_without_name(m, key, m.len() as int, i);
        }
        lemma_absent(r, key, 0);
    }
}

/// Whether the members of every object in a value have names of their own.
pub open spec fn names_distinct(v: JsonV) -> bool
    decreases v,
{
    match v {
        JsonV::Array(x) => forall|i: int| 0 <= i < x.len() ==> names_distinct(#[trigger] x[i]),
        JsonV::Object(x) => {
            &&& forall|i: int, j: int| 0 <= i < j < x.len() ==> (#[trigger] x[i]).0 != (#[trigger] x[j]).0
            &&& forall|i: int| 0 <= i < x.len() ==> names_distinct((#[trigger] x[i]).1)
        },
        _ => true,
    }
}

proof fn lemma_member_at(x: Seq<(Seq<char>, JsonV)>, i: int, n: int)
    requires
        0 <= i < n <= x.len(),
        forall|a: int, b: int| 0 <= a < b < x.len() ==> (#[trigger] x[a]).0 != (#[trigger] x[b]).0,
    ensures
        crate::ext::json::member_in(x, x[i].0, n) == Some(x[i].1),
    decreases n,
{
    if i < n - 1 {
        lemma_member_at(x, i, n - 1);
    }
}

proof fn lemma_same_as_itself(v: JsonV)
    requires
        names_distinct(v),
    ensures
        json_same(v, v),
    decreases v,
{
    match v {
        JsonV::Array(x) => {
            assert forall|i: int| 0 <= i < x.len() implies json_same(#[trigger] x[i], x[i]) by {
                lemma_same_as_itself(x[i]);
            }
        },
        JsonV::Object(x) => {
            assert forall|i: int| 0 <= i < x.len() implies member_of(v, (#[trigger] x[i]).0) is Some && json_same(
                x[i].1,
                member_of(v, x[i].0)->0,
            ) by {
                lemma_member_at(x, i, x.len() as int);
                lemma_same_as_itself(x[i].1);
            }
        },
        _ => {},
    }
}

/// Whether a session is one that can be written down: names occur once.
pub open spec fn is_session(s: SessionV) -> bool {
    &&& s.header is Some ==> names_distinct(s.header->0)
    &&& s.variables is Some ==> names_distinct(JsonV::Object(s.variables->0))
}

/// A session that nothing changed hands nothing out, whatever cookies, headers
/// and variables it started with, and in whatever order the jar gives the
/// cookies.
pub proof fn law_unchanged_session_is_silent(
    session: Option<SessionV>,
    url: Seq<char>,
    first: Option<Seq<char>>,
    cookies: Option<Seq<char>>,
)
    requires
        session is Some ==> is_session(session->0),
    ensures
        ({
            let s = started_session(session, url, first);
            delta_of(session_of(s, cookies), s.initial, is_touched(s)) is None
        }),
{
    let s = started_session(session, url, first);
    if s.initial.header is Some {
        lemma_same_as_itself(s.initial.header->0);
    }
    if s.initial.variables is Some {
        lemma_same_as_itself(JsonV::Object(s.initial.variables->0));
    }
}

/// A session whose headers, variables or cookies are not what they were is
/// handed out.
pub proof fn law_changed_session_is_told(s: StateV, cookies: Option<Seq<char>>)
    requires
        !opt_json_same(s.header, s.initial.header) || !variables_same(
            session_of(s, cookies).variables,
            s.initial.variables,
        ) || (is_touched(s) && cookies != s.initial.cookies),
    ensures
        delta_of(session_of(s, cookies), s.initial, is_touched(s)) == Some(session_of(s, cookies)),
{
}

/// What a session hands out starts a session in the same state.
pub proof fn law_state_out_is_state_in(s: StateV, cookies: Option<Seq<char>>, url: Seq<char>, first: Option<Seq<char>>)
    ensures
        started_session(Some(session_of(s, cookies)), url, first).header == s.header,
        started_session(Some(session_of(s, cookies)), url, first).variables == s.variables,
{
    if s.variables.len() == 0 {
        assert(s.variables =~= seq![]);
    }
}

/// The cookies that a session hands out are those that it starts with when it
/// is handed in again.
pub proof fn law_cookies_out_are_cookies_in(
    s: StateV,
    v: Seq<(Seq<char>, Seq<char>)>,
    url: Seq<char>,
    first: Option<Seq<char>>,
)
    requires
        v.len() > 0,
        forall|i: int| 0 <= i < v.len() ==> is_plain_cookie(#[trigger] v[i]),
        s.header is None,
    ensures
        started_session(Some(session_of(s, header_of_cookies(v))), url, first).record == recorded_for(
            seq![],
            set_texts(v),
            url,
        ),
{
    law_cookie_header_reads_back(v);
}

} // verus!
