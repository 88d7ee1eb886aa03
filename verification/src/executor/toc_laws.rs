//! What holds of a table of contents as a whole: in which order its pages are
//! read, and which chapters it lists.

use crate::crawler::response::HttpV;
use crate::executor::request::ErrorV;
use crate::executor::run::{has_chapter, toc_from, toc_read, with_chapters, with_pages, EnvV, TocPageV, TocV};
use crate::model::book_chapter::ChapterV;
use crate::parser::script::{Oracle, World};
use crate::util::chars::trim_of;
use vstd::prelude::*;

verus! {

/// The texts of a list, each where it first occurs.
pub open spec fn firsts(s: Seq<Seq<char>>) -> Seq<Seq<char>>
    decreases s.len(),
{
    if s.len() == 0 {
        seq![]
    } else if s.drop_last().contains(s.last()) {
        firsts(s.drop_last())
    } else {
        firsts(s.drop_last()).push(s.last())
    }
}

/// The texts of a list that are not blank.
pub open spec fn not_blank(s: Seq<Seq<char>>) -> Seq<Seq<char>> {
    s.filter(|u: Seq<char>| trim_of(u).len() > 0)
}

/// What comes of reading pages one after the other.
pub open spec fn pages_read(e: EnvV, urls: Seq<Seq<char>>, w: World, o: Oracle) -> (
    Seq<Result<TocPageV, ErrorV>>,
    World,
)
    decreases urls.len(),
{
    if urls.len() == 0 {
        (seq![], w)
    } else {
        let before = pages_read(e, urls.drop_last(), w, o);
        let x = toc_read(e, urls.last(), before.1, o);
        (before.0.push(x.0), x.1)
    }
}

pub open spec fn all_read(pages: Seq<Result<TocPageV, ErrorV>>) -> bool {
    forall|i: int| 0 <= i < pages.len() ==> #[trigger] pages[i] is Ok
}

/// The addresses that pages name, page by page.
pub open spec fn named_by(pages: Seq<Result<TocPageV, ErrorV>>) -> Seq<Seq<char>> {
    Seq::new(pages.len(), |i: int| pages[i]->Ok_0.next).flatten()
}

/// The chapters that pages list, page by page.
pub open spec fn listed_by(pages: Seq<Result<TocPageV, ErrorV>>) -> Seq<ChapterV> {
    Seq::new(pages.len(), |i: int| pages[i]->Ok_0.chapters).flatten()
}

pub open spec fn urls_of(chapters: Seq<ChapterV>) -> Seq<Seq<char>> {
    Seq::new(chapters.len(), |i: int| chapters[i].url)
}

/// Whether the chapter at `j` is the first of its address.
pub open spec fn is_first_of(all: Seq<ChapterV>, j: int, url: Seq<char>) -> bool {
    0 <= j < all.len() && all[j].url == url && !urls_of(all.take(j)).contains(url)
}

/// Whether chapters are those of a list: of each address the first, in the order
/// of the list, numbered by their places, and nothing else changed.
pub open spec fn is_once_each(chapters: Seq<ChapterV>, all: Seq<ChapterV>) -> bool {
    &&& urls_of(chapters) == firsts(urls_of(all))
    &&& forall|i: int|
        0 <= i < chapters.len() ==> exists|j: int| #[trigger]
            is_first_of(all, j, (#[trigger] chapters[i]).url) && chapters[i] == (ChapterV { index: i as i32, ..all[j] })
}

proof fn lemma_firsts(s: Seq<Seq<char>>)
    ensures
        forall|u: Seq<char>| #[trigger] firsts(s).contains(u) <==> s.contains(u),
        firsts(s).no_duplicates(),
    decreases s.len(),
{
    if s.len() > 0 {
        let d = s.drop_last();
        lemma_firsts(d);
        assert(firsts(d).contains(s.last()) <==> d.contains(s.last()));
        assert forall|u: Seq<char>| #[trigger] firsts(s).contains(u) implies s.contains(u) by {
            let k = choose|k: int| 0 <= k < firsts(s).len() && firsts(s)[k] == u;
            if k < firsts(d).len() {
                assert(firsts(d)[k] == u);
                assert(firsts(d).contains(u));
                let j = choose|j: int| 0 <= j < d.len() && d[j] == u;
                assert(s[j] == u);
            } else {
                assert(s[s.len() - 1] == u);
            }
        }
        assert forall|u: Seq<char>| s.contains(u) implies #[trigger] firsts(s).contains(u) by {
            let k = choose|k: int| 0 <= k < s.len() && s[k] == u;
            if k < d.len() {
                assert(d[k] == u);
                assert(firsts(d).contains(u));
                let j = choose|j: int| 0 <= j < firsts(d).len() && firsts(d)[j] == u;
                assert(firsts(s)[j] == u);
            } else if d.contains(u) {
                assert(firsts(d).contains(u));
                assert(firsts(s) == firsts(d));
            } else {
                assert(firsts(s)[firsts(s).len() - 1] == u);
            }
        }
    }
}

proof fn lemma_firsts_push(s: Seq<Seq<char>>, u: Seq<char>)
    ensures
        firsts(s.push(u)) == if s.contains(u) {
            firsts(s)
        } else {
            firsts(s).push(u)
        },
{
    assert(s.push(u).drop_last() =~= s);
}

/// Lists with the same first occurrences still have them with more behind.
proof fn lemma_firsts_more(s: Seq<Seq<char>>, t: Seq<Seq<char>>, more: Seq<Seq<char>>)
    requires
        firsts(s) == firsts(t),
    ensures
        firsts(s + more) == firsts(t + more),
        firsts(s).is_prefix_of(firsts(s + more)),
    decreases more.len(),
{
    if more.len() == 0 {
        assert(s + more =~= s);
        assert(t + more =~= t);
    } else {
        let d = more.drop_last();
        lemma_firsts_more(s, t, d);
        assert(s + more =~= (s + d).push(more.last()));
        assert(t + more =~= (t + d).push(more.last()));
        lemma_firsts_push(s + d, more.last());
        lemma_firsts_push(t + d, more.last());
        lemma_firsts(s + d);
        lemma_firsts(t + d);
        assert((s + d).contains(more.last()) <==> firsts(s + d).contains(more.last()));
        assert((t + d).contains(more.last()) <==> firsts(t + d).contains(more.last()));
    }
}

proof fn lemma_pages_waiting(
    s: Seq<Seq<char>>,
    rest: Seq<Seq<char>>,
    next: Seq<Seq<char>>,
    seen: Seq<Seq<char>>,
    n: int,
)
    requires
        0 <= n <= next.len(),
        forall|u: Seq<char>| #[trigger] seen.contains(u) ==> s.contains(u),
    ensures
        firsts(s + with_pages(rest, next, seen, n)) == firsts(s + rest + not_blank(next.take(n))),
    decreases n,
{
    let f = |u: Seq<char>| trim_of(u).len() > 0;
    if n == 0 {
        assert(next.take(0) =~= seq![]);
        assert(not_blank(next.take(0)) =~= seq![]) by {
            reveal(Seq::filter);
        }
        assert(s + rest + not_blank(next.take(0)) =~= s + rest);
    } else {
        lemma_pages_waiting(s, rest, next, seen, n - 1);
        let u = next[n - 1];
        let a = s + with_pages(rest, next, seen, n - 1);
        let b = s + rest + not_blank(next.take(n - 1));
        assert(next.take(n) =~= next.take(n - 1).push(u));
        assert(next.take(n).drop_last() =~= next.take(n - 1));
        reveal(Seq::filter);
        if trim_of(u).len() > 0 {
            assert(not_blank(next.take(n)) =~= not_blank(next.take(n - 1)).push(u));
            assert(s + rest + not_blank(next.take(n)) =~= b.push(u));
            lemma_firsts_push(b, u);
            lemma_firsts_push(a, u);
            lemma_firsts(a);
            lemma_firsts(b);
            assert(a.contains(u) <==> firsts(a).contains(u));
            assert(b.contains(u) <==> firsts(b).contains(u));
            if seen.contains(u) {
                let k = choose|k: int| 0 <= k < s.len() && s[k] == u;
                assert(a[k] == u);
                assert(a.contains(u));
            } else {
                assert(s + with_pages(rest, next, seen, n) =~= a.push(u));
            }
        } else {
            assert(not_blank(next.take(n)) =~= not_blank(next.take(n - 1)));
        }
    }
}

proof fn lemma_chapter_added(chapters: Seq<ChapterV>, all: Seq<ChapterV>, c: ChapterV)
    requires
        is_once_each(chapters, all),
    ensures
        is_once_each(
            if has_chapter(chapters, c.url) {
                chapters
            } else {
                chapters.push(ChapterV { index: chapters.len() as i32, ..c })
            },
            all.push(c),
        ),
{
    let now = if has_chapter(chapters, c.url) {
        chapters
    } else {
        chapters.push(ChapterV { index: chapters.len() as i32, ..c })
    };
    let more = all.push(c);
    assert(urls_of(more) =~= urls_of(all).push(c.url));
    lemma_firsts_push(urls_of(all), c.url);
    lemma_firsts(urls_of(all));
    assert(urls_of(chapters).contains(c.url) <==> urls_of(all).contains(c.url)) by {
        assert(firsts(urls_of(all)).contains(c.url) <==> urls_of(all).contains(c.url));
    }
    if has_chapter(chapters, c.url) {
        let i = choose|i: int| 0 <= i < chapters.len() && (#[trigger] chapters[i]).url == c.url;
        assert(urls_of(chapters)[i] == c.url);
        assert(urls_of(now) == firsts(urls_of(more)));
    } else {
        if urls_of(chapters).contains(c.url) {
            let i = choose|i: int| 0 <= i < urls_of(chapters).len() && urls_of(chapters)[i] == c.url;
            assert(chapters[i].url == c.url);
        }
        assert(urls_of(now) =~= urls_of(chapters).push(c.url));
    }
    assert forall|i: int| 0 <= i < now.len() implies exists|j: int| #[trigger]
        is_first_of(more, j, (#[trigger] now[i]).url) && now[i] == (ChapterV { index: i as i32, ..more[j] }) by {
        if i < chapters.len() {
            assert(now[i] == chapters[i]);
            let j = choose|j: int| #[trigger]
                is_first_of(all, j, chapters[i].url) && chapters[i] == (ChapterV { index: i as i32, ..all[j] });
            assert(more.take(j) =~= all.take(j));
            assert(is_first_of(more, j, now[i].url) && now[i] == (ChapterV { index: i as i32, ..more[j] }));
        } else {
            let j = all.len() as int;
            assert(more.take(j) =~= all);
            assert(is_first_of(more, j, now[i].url) && now[i] == (ChapterV { index: i as i32, ..more[j] }));
        }
    }
}

proof fn lemma_chapters_added(chapters: Seq<ChapterV>, all: Seq<ChapterV>, page: Seq<ChapterV>, n: int)
    requires
        is_once_each(chapters, all),
        0 <= n <= page.len(),
    ensures
        is_once_each(with_chapters(chapters, page, n), all + page.take(n)),
    decreases n,
{
    if n == 0 {
        assert(all + page.take(0) =~= all);
    } else {
        lemma_chapters_added(chapters, all, page, n - 1);
        lemma_chapter_added(with_chapters(chapters, page, n - 1), all + page.take(n - 1), page[n - 1]);
        assert((all + page.take(n - 1)).push(page[n - 1]) =~= all + page.take(n));
    }
}

proof fn lemma_one_more(pages: Seq<Result<TocPageV, ErrorV>>, p: Result<TocPageV, ErrorV>)
    ensures
        named_by(pages.push(p)) == named_by(pages) + p->Ok_0.next,
        listed_by(pages.push(p)) == listed_by(pages) + p->Ok_0.chapters,
{
    broadcast use Seq::lemma_flatten_push;

    let a = Seq::new(pages.len(), |i: int| pages[i]->Ok_0.next);
    let b = Seq::new(pages.len(), |i: int| pages[i]->Ok_0.chapters);
    assert(Seq::new(pages.push(p).len(), |i: int| pages.push(p)[i]->Ok_0.next) =~= a.push(p->Ok_0.next));
    assert(Seq::new(pages.push(p).len(), |i: int| pages.push(p)[i]->Ok_0.chapters) =~= b.push(p->Ok_0.chapters));
}

proof fn lemma_filter_join(a: Seq<Seq<char>>, b: Seq<Seq<char>>)
    ensures
        not_blank(a + b) == not_blank(a) + not_blank(b),
{
    Seq::filter_distributes_over_add(a, b, |u: Seq<char>| trim_of(u).len() > 0);
}

/// Whether a table of contents is what its pages say, read from `url` on.
pub open spec fn is_toc_of(t: TocV, e: EnvV, url: Seq<char>, w: World, end: World, o: Oracle) -> bool {
    let pages = pages_read(e, t.visited, w, o);
    let named = firsts(seq![url] + not_blank(named_by(pages.0)));
    &&& all_read(pages.0)
    &&& pages.1 == end
    &&& t.visited.is_prefix_of(named)
    &&& !t.truncated ==> t.visited == named
    &&& is_once_each(t.chapters, listed_by(pages.0))
    &&& t.visited.len() > 0 ==> t.last == Some(pages.0.last()->Ok_0.response)
}

proof fn lemma_toc_state(
    e: EnvV,
    url: Seq<char>,
    w0: World,
    done: Seq<Seq<char>>,
    pending: Seq<Seq<char>>,
    visited: Seq<Seq<char>>,
    chapters: Seq<ChapterV>,
    last: Option<HttpV>,
    w: World,
    o: Oracle,
)
    requires
        visited == firsts(done),
        all_read(pages_read(e, visited, w0, o).0),
        pages_read(e, visited, w0, o).1 == w,
        firsts(done + pending) == firsts(seq![url] + not_blank(named_by(pages_read(e, visited, w0, o).0))),
        is_once_each(chapters, listed_by(pages_read(e, visited, w0, o).0)),
        visited.len() > 0 ==> last == Some(pages_read(e, visited, w0, o).0.last()->Ok_0.response),
    ensures
        ({
            let x = toc_from(e, pending, visited, chapters, last, w, o);
            x.0 is Ok ==> is_toc_of(x.0->Ok_0, e, url, w0, x.1, o)
        }),
    decreases e.options.max_pages - visited.len(), pending.len(),
{
    let pages = pages_read(e, visited, w0, o).0;
    lemma_firsts_more(done, done, pending);
    if pending.len() == 0 {
        assert(done + pending =~= done);
    } else {
        let u = pending[0];
        let rest = pending.skip(1);
        let now = done.push(u);
        assert(now + rest =~= done + pending);
        lemma_firsts_push(done, u);
        lemma_firsts(done);
        assert(visited.contains(u) <==> done.contains(u));
        if visited.contains(u) {
            lemma_toc_state(e, url, w0, now, rest, visited, chapters, last, w, o);
        } else if visited.len() < e.options.max_pages {
            let x = toc_read(e, u, w, o);
            if let Ok(p) = x.0 {
                let seen = visited.push(u);
                assert(seen.drop_last() =~= visited);
                assert(pages_read(e, seen, w0, o) == (pages.push(x.0), x.1));
                lemma_one_more(pages, x.0);
                let more = with_pages(rest, p.next, seen, p.next.len() as int);
                lemma_firsts(now);
                lemma_pages_waiting(now, rest, p.next, seen, p.next.len() as int);
                assert(p.next.take(p.next.len() as int) =~= p.next);
                let before = seq![url] + not_blank(named_by(pages));
                lemma_firsts_more(now + rest, before, not_blank(p.next));
                lemma_filter_join(named_by(pages), p.next);
                assert(before + not_blank(p.next) =~= seq![url] + not_blank(named_by(pages) + p.next));
                lemma_chapters_added(chapters, listed_by(pages), p.chapters, p.chapters.len() as int);
                assert(p.chapters.take(p.chapters.len() as int) =~= p.chapters);
                assert(all_read(pages.push(x.0)));
                lemma_toc_state(
                    e,
                    url,
                    w0,
                    now,
                    more,
                    seen,
                    with_chapters(chapters, p.chapters, p.chapters.len() as int),
                    Some(p.response),
                    x.1,
                    o,
                );
            }
        }
    }
}

/// The pages of a table of contents are read in the order in which they are
/// first named, page by page; all of them, where the request allows as many. Its
/// chapters are those that these pages list, in that order, each address once.
pub proof fn law_toc_in_order(e: EnvV, url: Seq<char>, w: World, o: Oracle)
    ensures
        ({
            let x = toc_from(e, seq![url], seq![], seq![], None, w, o);
            x.0 is Ok ==> is_toc_of(x.0->Ok_0, e, url, w, x.1, o)
        }),
{
    let none: Seq<Seq<char>> = seq![];
    assert(Seq::new(0, |i: int| pages_read(e, none, w, o).0[i]->Ok_0.next) =~= seq![]);
    assert(named_by(pages_read(e, none, w, o).0) =~= seq![]);
    assert(listed_by(pages_read(e, none, w, o).0) =~= seq![]);
    assert(not_blank(seq![]) =~= seq![]) by {
        reveal(Seq::filter);
    }
    assert(none + seq![url] =~= seq![url] + not_blank(seq![]));
    assert(urls_of(seq![]) =~= seq![]);
    assert(firsts(none) =~= none);
    lemma_toc_state(e, url, w, none, seq![url], none, seq![], None, w, o);
}

proof fn lemma_first_before(s: Seq<Seq<char>>, i: int, j: int)
    requires
        0 <= i < j < s.len(),
        !s.take(j).contains(s[j]),
    ensures
        exists|a: int, b: int|
            0 <= a < b < firsts(s).len() && #[trigger] firsts(s)[a] == s[i] && #[trigger] firsts(s)[b] == s[j],
{
    let head = s.take(j);
    lemma_firsts(head);
    assert(head[i] == s[i]);
    assert(firsts(head).contains(s[i]));
    let a = choose|a: int| 0 <= a < firsts(head).len() && firsts(head)[a] == s[i];
    let b = firsts(head).len() as int;
    lemma_firsts_push(head, s[j]);
    let more = s.skip(j + 1);
    assert(s =~= head.push(s[j]) + more);
    lemma_firsts_more(head.push(s[j]), head.push(s[j]), more);
    let p = firsts(head.push(s[j]));
    assert(p[a] == firsts(s).subrange(0, p.len() as int)[a]);
    assert(p[b] == firsts(s).subrange(0, p.len() as int)[b]);
    assert(firsts(s)[a] == s[i]);
    assert(firsts(s)[b] == s[j]);
}

/// A page that is named before another, which is not named yet, is read before
/// it; so is every page that is named before one that is read.
pub proof fn law_named_first_is_read_first(e: EnvV, url: Seq<char>, w: World, o: Oracle, i: int, j: int)
    requires
        toc_from(e, seq![url], seq![], seq![], None, w, o).0 is Ok,
        ({
            let t = toc_from(e, seq![url], seq![], seq![], None, w, o).0->Ok_0;
            let named = seq![url] + not_blank(named_by(pages_read(e, t.visited, w, o).0));
            &&& 0 <= i < j < named.len()
            &&& !named.take(j).contains(named[j])
            &&& t.visited.contains(named[j])
        }),
    ensures
        ({
            let t = toc_from(e, seq![url], seq![], seq![], None, w, o).0->Ok_0;
            let named = seq![url] + not_blank(named_by(pages_read(e, t.visited, w, o).0));
            exists|a: int, b: int|
                0 <= a < b < t.visited.len() && #[trigger] t.visited[a] == named[i] && #[trigger] t.visited[b]
                    == named[j]
        }),
{
    law_toc_in_order(e, url, w, o);
    let t = toc_from(e, seq![url], seq![], seq![], None, w, o).0->Ok_0;
    let named = seq![url] + not_blank(named_by(pages_read(e, t.visited, w, o).0));
    lemma_first_before(named, i, j);
    lemma_firsts(named);
    let (a, b) = choose|a: int, b: int|
        0 <= a < b < firsts(named).len() && #[trigger] firsts(named)[a] == named[i] && #[trigger] firsts(named)[b]
            == named[j];
    let k = choose|k: int| 0 <= k < t.visited.len() && t.visited[k] == named[j];
    assert(t.visited[k] == firsts(named).subrange(0, t.visited.len() as int)[k]);
    assert(firsts(named)[k] == named[j]);
    assert(k == b);
    assert(t.visited[a] == firsts(named).subrange(0, t.visited.len() as int)[a]);
    assert(t.visited[a] == named[i] && t.visited[b] == named[j]);
}

/// A chapter that is listed before another, whose address is not listed yet,
/// stands before it in the table of contents.
pub proof fn law_listed_first_stands_first(e: EnvV, url: Seq<char>, w: World, o: Oracle, i: int, j: int)
    requires
        toc_from(e, seq![url], seq![], seq![], None, w, o).0 is Ok,
        ({
            let t = toc_from(e, seq![url], seq![], seq![], None, w, o).0->Ok_0;
            let listed = urls_of(listed_by(pages_read(e, t.visited, w, o).0));
            0 <= i < j < listed.len() && !listed.take(j).contains(listed[j])
        }),
    ensures
        ({
            let t = toc_from(e, seq![url], seq![], seq![], None, w, o).0->Ok_0;
            let listed = urls_of(listed_by(pages_read(e, t.visited, w, o).0));
            exists|a: int, b: int|
                0 <= a < b < t.chapters.len() && (#[trigger] t.chapters[a]).url == listed[i] && (#[trigger] t.chapters[b]).url
                    == listed[j]
        }),
{
    law_toc_in_order(e, url, w, o);
    let t = toc_from(e, seq![url], seq![], seq![], None, w, o).0->Ok_0;
    let listed = urls_of(listed_by(pages_read(e, t.visited, w, o).0));
    lemma_first_before(listed, i, j);
    let (a, b) = choose|a: int, b: int|
        0 <= a < b < firsts(listed).len() && #[trigger] firsts(listed)[a] == listed[i] && #[trigger] firsts(listed)[b]
            == listed[j];
    assert(urls_of(t.chapters)[a] == listed[i] && urls_of(t.chapters)[b] == listed[j]);
    assert(t.chapters[a].url == listed[i] && t.chapters[b].url == listed[j]);
}

} // verus!
