//! The clients that are kept between requests, so that a source keeps its cookies.

use crate::model::book_source::BookSource;
use crate::util::chars::{concat3, copy, decimal, decimal_of, same};
use vstd::prelude::*;
use vstd::string::*;

verus! {

/// How many clients are kept.
pub const SESSION_CACHE_LIMIT: usize = 32;

/// How long a client is kept after it was last used, in milliseconds.
pub const SESSION_CACHE_TTL: u64 = 1200000;

/// A client that is kept: its key, itself, and when it was last used.
pub struct CachedSession<T> {
    pub key: String,
    pub client: T,
    pub last_used: u64,
}

pub struct CachedV<T> {
    pub key: Seq<char>,
    pub client: T,
    pub last_used: int,
}

/// The clients that are kept, the one that was used last at the end.
pub struct SessionCache<T> {
    entries: Vec<CachedSession<T>>,
}

pub open spec fn cached_models<T>(v: Seq<CachedSession<T>>) -> Seq<CachedV<T>> {
    Seq::new(
        v.len(),
        |i: int| CachedV { key: v[i].key@, client: v[i].client, last_used: v[i].last_used as int },
    )
}

/// Whether a client was used lately.
pub open spec fn is_live<T>(e: CachedV<T>, now: int) -> bool {
    now - e.last_used < SESSION_CACHE_TTL
}

/// Those of the first `n` clients that were used lately.
pub open spec fn live_of<T>(v: Seq<CachedV<T>>, now: int, n: int) -> Seq<CachedV<T>>
    decreases n,
{
    if n <= 0 {
        seq![]
    } else if is_live(v[n - 1], now) {
        live_of(v, now, n - 1).push(v[n - 1])
    } else {
        live_of(v, now, n - 1)
    }
}

/// The position of a key, from `k` on.
pub open spec fn key_from<T>(v: Seq<CachedV<T>>, key: Seq<char>, k: int) -> Option<int>
    decreases v.len() - k,
{
    if k < 0 || k >= v.len() {
        None
    } else if v[k].key == key {
        Some(k)
    } else {
        key_from(v, key, k + 1)
    }
}

/// The clients after one was asked for: those that were not used lately are
/// gone, and the one that was found is the last.
pub open spec fn after_find<T>(v: Seq<CachedV<T>>, key: Seq<char>, now: int) -> Seq<CachedV<T>> {
    let live = live_of(v, now, v.len() as int);
    match key_from(live, key, 0) {
        Some(k) => live.remove(k).push(CachedV { key: live[k].key, client: live[k].client, last_used: now }),
        None => live,
    }
}

/// The clients after one was added: the first ones leave where there are too many.
pub open spec fn after_put<T>(v: Seq<CachedV<T>>, e: CachedV<T>) -> Seq<CachedV<T>> {
    if v.len() >= SESSION_CACHE_LIMIT {
        v.skip(v.len() - SESSION_CACHE_LIMIT + 1).push(e)
    } else {
        v.push(e)
    }
}

impl<T> SessionCache<T> {
    pub closed spec fn view(&self) -> Seq<CachedV<T>> {
        cached_models(self.entries@)
    }

    pub open spec fn wf(&self) -> bool {
        self.view().len() <= SESSION_CACHE_LIMIT && keys_distinct(self.view())
    }

    pub fn new() -> (r: SessionCache<T>)
        ensures
            r.view() == Seq::<CachedV<T>>::empty(),
            r.wf(),
    {
        let r: SessionCache<T> = SessionCache { entries: Vec::new() };
        assert(r.view() =~= Seq::empty());
        r
    }

    /// Drops the clients that were not used lately.
    pub fn retain_live(&mut self, now: u64)
        ensures
            final(self).view() == live_of(old(self).view(), now as int, old(self).view().len() as int),
    {
        let ghost all = self.view();
        let ghost total = self.entries.len() as int;
        let mut left: usize = self.entries.len();
        let mut k: usize = 0;
        assert(all.skip(0) =~= all);
        assert(self.view().take(0) =~= seq![]);
        while left > 0
            invariant
                left <= total,
                total == all.len(),
                k + left == self.entries.len(),
                self.view().take(k as int) =~= live_of(all, now as int, total - left),
                self.view().skip(k as int) =~= all.skip(total - left),
            decreases left,
        {
            let ghost was = self.view();
            assert(was.skip(k as int)[0] == was[k as int]);
            assert(all.skip(total - left)[0] == all[total - left]);
            let used = self.entries[k].last_used;
            let age: u64 = if now > used {
                now - used
            } else {
                0
            };
            if age < SESSION_CACHE_TTL {
                assert(was.take(k + 1) =~= was.take(k as int).push(was[k as int]));
                assert(was.skip(k + 1) =~= was.skip(k as int).skip(1));
                assert(all.skip(total - left).skip(1) =~= all.skip(total - left + 1));
                k = k + 1;
            } else {
                let _ = self.entries.remove(k);
                assert(self.view() =~= was.remove(k as int));
                assert(self.view().take(k as int) =~= was.take(k as int));
                assert(self.view().skip(k as int) =~= was.skip(k as int).skip(1));
                assert(all.skip(total - left).skip(1) =~= all.skip(total - left + 1));
            }
            left = left - 1;
        }
        assert(self.view().take(k as int) =~= self.view());
    }

    /// Looks for a client; where it is there, its position, which is the last.
    pub fn find(&mut self, key: &str, now: u64) -> (r: Option<usize>)
        requires
            old(self).wf(),
        ensures
            final(self).view() == after_find(old(self).view(), key@, now as int),
            final(self).wf(),
            r is Some <==> key_from(
                live_of(old(self).view(), now as int, old(self).view().len() as int),
                key@,
                0,
            ) is Some,
            r is Some ==> r->0 == final(self).view().len() - 1 && final(self).view()[r->0 as int].key == key@,
    {
        proof {
            lemma_live_distinct(self.view(), now as int, self.view().len() as int);
        }
        self.retain_live(now);
        let ghost live = self.view();
        let mut k: usize = 0;
        while k < self.entries.len()
            invariant
                k <= self.entries.len(),
                live == self.view(),
                live == live_of(old(self).view(), now as int, old(self).view().len() as int),
                live.len() <= SESSION_CACHE_LIMIT,
                keys_distinct(live),
                key_from(live, key@, 0) == key_from(live, key@, k as int),
            decreases self.entries.len() - k,
        {
            assert(live[k as int].key == self.entries@[k as int].key@);
            if same(self.entries[k].key.as_str(), key) {
                let mut e = self.entries.remove(k);
                e.last_used = now;
                let ghost v = CachedV { key: e.key@, client: e.client, last_used: now as int };
                self.entries.push(e);
                assert(self.view() =~= live.remove(k as int).push(v));
                assert(keys_distinct(self.view()));
                return Some(self.entries.len() - 1);
            }
            k = k + 1;
        }
        None
    }

    /// The client at a position.
    pub fn client(&self, k: usize) -> (r: &T)
        requires
            k < self.view().len(),
        ensures
            *r == self.view()[k as int].client,
    {
        &self.entries[k].client
    }

    /// Keeps a client under a key that is not there.
    pub fn put(&mut self, key: &str, client: T, now: u64)
        requires
            old(self).wf(),
            key_from(old(self).view(), key@, 0) is None,
        ensures
            final(self).view() == after_put(
                old(self).view(),
                CachedV { key: key@, client, last_used: now as int },
            ),
            final(self).wf(),
    {
        proof {
            lemma_not_there(self.view(), key@, 0);
        }
        let ghost all = self.view();
        let ghost e = CachedV { key: key@, client, last_used: now as int };
        let ghost mut gone: int = 0;
        assert(all.skip(0) =~= all);
        while self.entries.len() >= SESSION_CACHE_LIMIT
            invariant
                0 <= gone <= all.len(),
                all.len() <= SESSION_CACHE_LIMIT,
                self.view() == all.skip(gone),
                gone > 0 ==> self.entries.len() >= SESSION_CACHE_LIMIT - 1,
            decreases self.entries.len(),
        {
            let ghost was = self.view();
            let _ = self.entries.remove(0);
            assert(self.view() =~= was.remove(0));
            assert(self.view() =~= all.skip(gone + 1));
            proof {
                gone = gone + 1;
            }
        }
        let ghost was = self.view();
        self.entries.push(CachedSession { key: copy(key), client, last_used: now });
        assert(self.view() =~= was.push(e));
        assert(all.skip(0) =~= all);
        assert(keys_distinct(self.view()));
    }
}

/// Whether no key occurs twice.
pub open spec fn keys_distinct<T>(v: Seq<CachedV<T>>) -> bool {
    forall|i: int, j: int| 0 <= i < j < v.len() ==> (#[trigger] v[i]).key != (#[trigger] v[j]).key
}

proof fn lemma_live_from<T>(v: Seq<CachedV<T>>, now: int, n: int, i: int)
    requires
        0 <= n <= v.len(),
        0 <= i < live_of(v, now, n).len(),
    ensures
        exists|k: int| 0 <= k < n && #[trigger] v[k] == live_of(v, now, n)[i],
    decreases n,
{
    if n > 0 && i < live_of(v, now, n - 1).len() {
        lemma_live_from(v, now, n - 1, i);
    }
}

proof fn lemma_live_distinct<T>(v: Seq<CachedV<T>>, now: int, n: int)
    requires
        0 <= n <= v.len(),
        keys_distinct(v),
    ensures
        keys_distinct(live_of(v, now, n)),
        live_of(v, now, n).len() <= n,
    decreases n,
{
    if n > 0 {
        lemma_live_distinct(v, now, n - 1);
        let before = live_of(v, now, n - 1);
        assert forall|i: int| 0 <= i < before.len() implies (#[trigger] before[i]).key != v[n - 1].key by {
            lemma_live_from(v, now, n - 1, i);
        }
    }
}

proof fn lemma_not_there<T>(v: Seq<CachedV<T>>, key: Seq<char>, k: int)
    requires
        0 <= k <= v.len(),
        key_from(v, key, k) is None,
    ensures
        forall|i: int| k <= i < v.len() ==> (#[trigger] v[i]).key != key,
    decreases v.len() - k,
{
    if k < v.len() {
        lemma_not_there(v, key, k + 1);
    }
}

proof fn lemma_key_at<T>(v: Seq<CachedV<T>>, key: Seq<char>, at: int, k: int)
    requires
        0 <= k <= at < v.len(),
        v[at].key == key,
        keys_distinct(v),
    ensures
        key_from(v, key, k) == Some(at),
    decreases at - k,
{
    if k < at {
        assert(v[k].key != v[at].key);
        lemma_key_at(v, key, at, k + 1);
    }
}

proof fn lemma_live_keeps<T>(v: Seq<CachedV<T>>, now: int, n: int, i: int)
    requires
        0 <= i < n <= v.len(),
        is_live(v[i], now),
    ensures
        exists|k: int| 0 <= k < live_of(v, now, n).len() && #[trigger] live_of(v, now, n)[k] == v[i],
    decreases n,
{
    if i < n - 1 {
        lemma_live_keeps(v, now, n - 1, i);
        let before = live_of(v, now, n - 1);
        let k = choose|k: int| 0 <= k < before.len() && #[trigger] before[k] == v[i];
        assert(live_of(v, now, n)[k] == v[i]);
    } else {
        let r = live_of(v, now, n);
        assert(r[r.len() - 1] == v[i]);
    }
}

/// A client that was just kept is found again within its time, and is the one
/// that was kept.
pub proof fn law_kept_client_is_found<T>(v: Seq<CachedV<T>>, e: CachedV<T>, now: int)
    requires
        keys_distinct(v),
        key_from(v, e.key, 0) is None,
        is_live(e, now),
    ensures
        ({
            let found = after_find(after_put(v, e), e.key, now);
            found.len() > 0 && found.last().key == e.key && found.last().client == e.client
        }),
{
    lemma_not_there(v, e.key, 0);
    let w = after_put(v, e);
    assert(keys_distinct(w));
    let n = w.len() as int;
    lemma_live_distinct(w, now, n);
    lemma_live_keeps(w, now, n, n - 1);
    let live = live_of(w, now, n);
    let k = choose|k: int| 0 <= k < live.len() && #[trigger] live[k] == w[n - 1];
    lemma_key_at(live, e.key, k, 0);
}

/// Which client a request of a source is sent by.
pub enum ClientPlan {
    /// One of its own, with the cookies of the session in use or without.
    Own { cookies: bool },
    /// The one that is kept under the key.
    Kept { key: String },
}

pub enum ClientPlanV {
    Own { cookies: bool },
    Kept { key: Seq<char> },
}

impl ClientPlan {
    pub open spec fn model(self) -> ClientPlanV {
        match self {
            ClientPlan::Own { cookies } => ClientPlanV::Own { cookies },
            ClientPlan::Kept { key } => ClientPlanV::Kept { key: key@ },
        }
    }
}

/// The client for a source: within a session one of its own with the cookies of
/// the session, else one that is kept; without cookies always one of its own.
pub fn plan_client(source: &BookSource, timeout_ms: u64, in_session: bool) -> (r: ClientPlan)
    ensures
        r.model() == ({
            let enabled = source.enabled_cookie_jar != Some(false);
            if in_session {
                ClientPlanV::Own { cookies: enabled }
            } else if enabled {
                ClientPlanV::Kept {
                    key: source.book_source_url@ + "\u{1f}"@ + decimal_of(
                        if timeout_ms == 0 {
                            1
                        } else {
                            timeout_ms as int
                        },
                    ),
                }
            } else {
                ClientPlanV::Own { cookies: false }
            }
        }),
{
    let enabled = match source.enabled_cookie_jar {
        Some(b) => b,
        None => true,
    };
    if in_session || !enabled {
        return ClientPlan::Own { cookies: enabled };
    }
    let ms: u64 = if timeout_ms == 0 {
        1
    } else {
        timeout_ms
    };
    ClientPlan::Kept { key: concat3(source.book_source_url.as_str(), "\u{1f}", decimal(ms).as_str()) }
}

} // verus!
