//! What holds of a chapter as a whole: which pages are its own, in which order
//! they are read, and what is made of their texts.

use crate::crawler::http::is_same_origin;
use crate::crawler::response::HttpV;
use crate::executor::pages::{
    is_further_page, path_base, rule_applied, rules_applied, without_fragment, without_page_number,
};
use crate::executor::request::ErrorV;
use crate::executor::run::{content_from, content_read, with_fragment, ContentPageV, ContentV, EnvV};
use crate::ext::urls::url_read;
use crate::model::replace_rule::ReplaceV;
use crate::parser::script::{Oracle, World};
use crate::util::chars::{
    all_digits, is_digit, join_of, lemma_mark_at, occurs_at, rfind_from, rfind_of, rsplit_once_of, split_of,
};
use vstd::prelude::*;

verus! {

proof fn lemma_rfind_mark(s: Seq<char>, mark: char, k: int, i: int)
    requires
        0 <= k <= i < s.len(),
        s[k] == mark,
        forall|j: int| k < j < s.len() ==> s[j] != mark,
    ensures
        rfind_from(s, seq![mark], i) == Some(k),
    decreases i,
{
    lemma_mark_at(s, mark, i);
    if i > k {
        lemma_rfind_mark(s, mark, k, i - 1);
    }
}

/// A text is parted at its last mark.
proof fn lemma_parted(a: Seq<char>, mark: char, b: Seq<char>)
    requires
        !b.contains(mark),
    ensures
        rsplit_once_of(a + seq![mark] + b, seq![mark]) == Some((a, b)),
{
    let s = a + seq![mark] + b;
    let k = a.len() as int;
    assert(s[k] == mark);
    assert forall|j: int| k < j < s.len() implies s[j] != mark by {
        assert(s[j] == b[j - k - 1]);
    }
    lemma_rfind_mark(s, mark, k, s.len() - 1);
    assert(s.subrange(0, k) =~= a);
    assert(s.subrange(k + 1, s.len() as int) =~= b);
}

proof fn lemma_unparted(s: Seq<char>, mark: char, i: int)
    requires
        !s.contains(mark),
        i < s.len(),
    ensures
        rfind_from(s, seq![mark], i) is None,
    decreases i + 1,
{
    if i >= 0 {
        lemma_mark_at(s, mark, i);
        lemma_unparted(s, mark, i - 1);
    }
}

/// Whether a path is that of a page: its directory, its name and its extension.
pub open spec fn is_page_path(path: Seq<char>, directory: Seq<char>, name: Seq<char>, extension: Seq<char>) -> bool {
    &&& path == directory + "/"@ + name + "."@ + extension
    &&& !name.contains('/')
    &&& !extension.contains('/')
    &&& !extension.contains('.')
}

/// What is compared of a path: the directory and a name in it.
spec fn placed(directory: Seq<char>, name: Seq<char>) -> Seq<char> {
    if directory.len() == 0 {
        name
    } else {
        directory + "/"@ + name
    }
}

proof fn lemma_path_base(path: Seq<char>, directory: Seq<char>, name: Seq<char>, extension: Seq<char>)
    requires
        is_page_path(path, directory, name, extension),
    ensures
        path_base(path, false) == placed(directory, name),
        path_base(path, true) == placed(directory, without_page_number(name)),
{
    reveal_strlit("/");
    reveal_strlit(".");
    assert("/"@ =~= seq!['/']);
    assert("."@ =~= seq!['.']);
    let file = name + seq!['.'] + extension;
    assert(path =~= directory + seq!['/'] + file);
    assert(!file.contains('/')) by {
        if file.contains('/') {
            let k = choose|k: int| 0 <= k < file.len() && file[k] == '/';
            if k < name.len() {
                assert(name[k] == '/');
            } else if k > name.len() {
                assert(extension[k - name.len() - 1] == '/');
            }
        }
    }
    lemma_parted(directory, '/', file);
    lemma_parted(name, '.', extension);
}

proof fn lemma_placed(d: Seq<char>, a: Seq<char>, e: Seq<char>, b: Seq<char>)
    requires
        !a.contains('/'),
        !b.contains('/'),
        placed(d, a) == placed(e, b),
    ensures
        d == e,
        a == b,
{
    reveal_strlit("/");
    assert("/"@ =~= seq!['/']);
    let x = d + seq!['/'] + a;
    let y = e + seq!['/'] + b;
    assert(x[d.len() as int] == '/');
    assert(y[e.len() as int] == '/');
    if d.len() > 0 && e.len() > 0 {
        lemma_parted(d, '/', a);
        lemma_parted(e, '/', b);
    } else if d.len() > 0 {
        assert(b[d.len() as int] == '/');
    } else if e.len() > 0 {
        assert(a[e.len() as int] == '/');
    } else {
        assert(d =~= e);
    }
}

proof fn lemma_numbered(name: Seq<char>, number: Seq<char>)
    requires
        all_digits(number),
    ensures
        without_page_number(name + "-"@ + number) == name,
{
    reveal_strlit("-");
    assert("-"@ =~= seq!['-']);
    assert(!number.contains('-')) by {
        if number.contains('-') {
            let k = choose|k: int| 0 <= k < number.len() && number[k] == '-';
            assert(is_digit(number[k]));
        }
    }
    lemma_parted(name, '-', number);
}

/// Another address on the site of a chapter, with the chapter's directory and
/// its name with a number behind it, is a further page of the chapter, whichever
/// page names it.
pub proof fn law_numbered_page_is_further(
    chapter: Seq<char>,
    current: Seq<char>,
    next: Seq<char>,
    directory: Seq<char>,
    name: Seq<char>,
    extension: Seq<char>,
    number: Seq<char>,
    other: Seq<char>,
)
    requires
        url_read(without_fragment(chapter)) is Ok,
        url_read(without_fragment(current)) is Ok,
        url_read(without_fragment(next)) is Ok,
        is_page_path(url_read(without_fragment(chapter))->Ok_0.path, directory, name, extension),
        is_page_path(url_read(without_fragment(next))->Ok_0.path, directory, name + "-"@ + number, other),
        all_digits(number),
        is_same_origin(url_read(without_fragment(chapter))->Ok_0, url_read(without_fragment(next))->Ok_0),
        without_fragment(next) != without_fragment(chapter),
        without_fragment(next) != without_fragment(current),
    ensures
        is_further_page(chapter, current, next),
{
    lemma_path_base(url_read(without_fragment(chapter))->Ok_0.path, directory, name, extension);
    lemma_path_base(url_read(without_fragment(next))->Ok_0.path, directory, name + "-"@ + number, other);
    lemma_numbered(name, number);
}

/// So is one with the directory and the name of the chapter or of the page that
/// names it, and one with the name of that page and a number behind it.
pub proof fn law_page_of_same_name_is_further(
    chapter: Seq<char>,
    current: Seq<char>,
    next: Seq<char>,
    directory: Seq<char>,
    name: Seq<char>,
    extension: Seq<char>,
    number: Seq<char>,
    other: Seq<char>,
)
    requires
        url_read(without_fragment(chapter)) is Ok,
        url_read(without_fragment(current)) is Ok,
        url_read(without_fragment(next)) is Ok,
        is_page_path(url_read(without_fragment(chapter))->Ok_0.path, directory, name, extension) || is_page_path(
            url_read(without_fragment(current))->Ok_0.path,
            directory,
            name,
            extension,
        ),
        is_page_path(url_read(without_fragment(next))->Ok_0.path, directory, name, other) || is_page_path(
            url_read(without_fragment(next))->Ok_0.path,
            directory,
            name + "-"@ + number,
            other,
        ),
        all_digits(number),
        is_same_origin(url_read(without_fragment(chapter))->Ok_0, url_read(without_fragment(next))->Ok_0),
        without_fragment(next) != without_fragment(chapter),
        without_fragment(next) != without_fragment(current),
    ensures
        is_further_page(chapter, current, next),
{
    let a = url_read(without_fragment(chapter))->Ok_0.path;
    let b = url_read(without_fragment(current))->Ok_0.path;
    let d = url_read(without_fragment(next))->Ok_0.path;
    if is_page_path(a, directory, name, extension) {
        lemma_path_base(a, directory, name, extension);
    } else {
        lemma_path_base(b, directory, name, extension);
    }
    if is_page_path(d, directory, name, other) {
        lemma_path_base(d, directory, name, other);
    } else {
        lemma_path_base(d, directory, name + "-"@ + number, other);
        lemma_numbered(name, number);
    }
}

/// Whether a name is another one, or that with a number behind it.
pub open spec fn is_name_of_page(page: Seq<char>, name: Seq<char>) -> bool {
    page == name || exists|number: Seq<char>| all_digits(number) && page == #[trigger] (name + "-"@ + number)
}

proof fn lemma_without_number(page: Seq<char>, name: Seq<char>)
    requires
        without_page_number(page) == name,
    ensures
        is_name_of_page(page, name),
{
    reveal_strlit("-");
    assert("-"@ =~= seq!['-']);
    if page != name {
        let (head, number) = rsplit_once_of(page, "-"@)->0;
        let k = rfind_of(page, "-"@)->0;
        lemma_rfind_at(page, "-"@, page.len() - 1);
        assert(page =~= head + "-"@ + number) by {
            assert(page.subrange(k, k + 1) == "-"@);
            assert(page =~= page.subrange(0, k) + page.subrange(k, k + 1) + page.subrange(k + 1, page.len() as int));
        }
        assert(all_digits(number) && page == name + "-"@ + number);
    }
}

proof fn lemma_rfind_at(s: Seq<char>, p: Seq<char>, i: int)
    ensures
        match rfind_from(s, p, i) {
            Some(k) => 0 <= k <= i && occurs_at(s, p, k),
            None => true,
        },
    decreases i + 1,
{
    if i >= 0 && !occurs_at(s, p, i) {
        lemma_rfind_at(s, p, i - 1);
    }
}

/// A further page has the directory of the chapter, or of the page that names
/// it, and that page's name, or that name with a number behind it. So the page of
/// another chapter, which has another name, is not one.
pub proof fn law_further_page_has_the_name(
    chapter: Seq<char>,
    current: Seq<char>,
    next: Seq<char>,
    a: (Seq<char>, Seq<char>, Seq<char>),
    b: (Seq<char>, Seq<char>, Seq<char>),
    d: (Seq<char>, Seq<char>, Seq<char>),
)
    requires
        is_further_page(chapter, current, next),
        is_page_path(url_read(without_fragment(chapter))->Ok_0.path, a.0, a.1, a.2),
        is_page_path(url_read(without_fragment(current))->Ok_0.path, b.0, b.1, b.2),
        is_page_path(url_read(without_fragment(next))->Ok_0.path, d.0, d.1, d.2),
    ensures
        (d.0 == a.0 && is_name_of_page(d.1, a.1)) || (d.0 == b.0 && is_name_of_page(d.1, b.1)),
{
    lemma_path_base(url_read(without_fragment(chapter))->Ok_0.path, a.0, a.1, a.2);
    lemma_path_base(url_read(without_fragment(current))->Ok_0.path, b.0, b.1, b.2);
    lemma_path_base(url_read(without_fragment(next))->Ok_0.path, d.0, d.1, d.2);
    let bare = without_page_number(d.1);
    lemma_without_number(d.1, bare);
    assert(!bare.contains('/')) by {
        if bare.contains('/') {
            let k = choose|k: int| 0 <= k < bare.len() && bare[k] == '/';
            assert(d.1[k] == '/');
        }
    }
    if placed(d.0, d.1) == placed(a.0, a.1) {
        lemma_placed(d.0, d.1, a.0, a.1);
    } else if placed(d.0, d.1) == placed(b.0, b.1) {
        lemma_placed(d.0, d.1, b.0, b.1);
    } else if placed(d.0, bare) == placed(a.0, a.1) {
        lemma_placed(d.0, bare, a.0, a.1);
    } else {
        lemma_placed(d.0, bare, b.0, b.1);
    }
}

/// What comes of reading pages of a chapter one after the other.
pub open spec fn chapter_pages(e: EnvV, urls: Seq<Seq<char>>, w: World, o: Oracle) -> (
    Seq<Result<ContentPageV, ErrorV>>,
    World,
)
    decreases urls.len(),
{
    if urls.len() == 0 {
        (seq![], w)
    } else {
        let before = chapter_pages(e, urls.drop_last(), w, o);
        let x = content_read(e, urls.last(), before.1, o);
        (before.0.push(x.0), x.1)
    }
}

/// Whether pages lead from one to the next: each names the one after it, which
/// is a further page of the chapter that the first one is.
pub open spec fn lead_on(pages: Seq<Result<ContentPageV, ErrorV>>, urls: Seq<Seq<char>>) -> bool {
    &&& forall|i: int| 0 <= i < pages.len() ==> #[trigger] pages[i] is Ok
    &&& forall|i: int|
        0 <= i < urls.len() - 1 ==> (#[trigger] pages[i])->Ok_0.next == Some(urls[i + 1]) && is_further_page(
            pages[0]->Ok_0.response.url,
            pages[i]->Ok_0.response.url,
            urls[i + 1],
        )
}

/// Whether the last of some pages names a further page that is not read yet.
pub open spec fn goes_on(pages: Seq<Result<ContentPageV, ErrorV>>, urls: Seq<Seq<char>>) -> bool {
    match pages.last()->Ok_0.next {
        Some(n) => is_further_page(pages[0]->Ok_0.response.url, pages.last()->Ok_0.response.url, n) && !urls.contains(n),
        None => false,
    }
}

/// The texts of pages that have one.
pub open spec fn texts_of_pages(pages: Seq<Result<ContentPageV, ErrorV>>) -> Seq<Seq<char>> {
    Seq::new(pages.len(), |i: int| pages[i]->Ok_0.text).filter(|t: Seq<char>| t.len() > 0)
}

/// Whether a chapter is what its pages say, read from `url` on.
pub open spec fn is_content_of(c: ContentV, e: EnvV, url: Seq<char>, w: World, end: World, o: Oracle) -> bool {
    let pages = chapter_pages(e, c.visited, w, o);
    &&& pages.1 == end
    &&& lead_on(pages.0, c.visited)
    &&& c.visited.no_duplicates()
    &&& c.fragments == texts_of_pages(pages.0)
    &&& c.truncated ==> c.visited.len() >= e.options.max_pages
    &&& if c.visited.len() > 0 {
        &&& c.visited[0] == url
        &&& c.last == Some(pages.0.last()->Ok_0.response)
        &&& c.truncated == goes_on(pages.0, c.visited)
    } else {
        c.last is None && c.truncated
    }
}

proof fn lemma_text_added(pages: Seq<Result<ContentPageV, ErrorV>>, p: Result<ContentPageV, ErrorV>)
    ensures
        texts_of_pages(pages.push(p)) == with_fragment(texts_of_pages(pages), p->Ok_0.text),
{
    let a = Seq::new(pages.len(), |i: int| pages[i]->Ok_0.text);
    let b = Seq::new(pages.push(p).len(), |i: int| pages.push(p)[i]->Ok_0.text);
    assert(b =~= a.push(p->Ok_0.text));
    assert(b.drop_last() =~= a);
    reveal(Seq::filter);
}

proof fn lemma_content_state(
    e: EnvV,
    start: Seq<char>,
    w0: World,
    url: Seq<char>,
    visited: Seq<Seq<char>>,
    fragments: Seq<Seq<char>>,
    first: Option<Seq<char>>,
    last: Option<HttpV>,
    w: World,
    o: Oracle,
)
    requires
        chapter_pages(e, visited, w0, o).1 == w,
        lead_on(chapter_pages(e, visited, w0, o).0, visited),
        visited.no_duplicates(),
        fragments == texts_of_pages(chapter_pages(e, visited, w0, o).0),
        visited.len() == 0 ==> url == start && first is None && last is None,
        visited.len() > 0 ==> ({
            let pages = chapter_pages(e, visited, w0, o).0;
            &&& visited[0] == start
            &&& first == Some(pages[0]->Ok_0.response.url)
            &&& last == Some(pages.last()->Ok_0.response)
            &&& pages.last()->Ok_0.next == Some(url)
            &&& goes_on(pages, visited)
        }),
    ensures
        ({
            let x = content_from(e, url, visited, fragments, first, last, w, o);
            x.0 is Ok ==> is_content_of(x.0->Ok_0, e, start, w0, x.1, o)
        }),
    decreases e.options.max_pages - visited.len(),
{
    let pages = chapter_pages(e, visited, w0, o).0;
    lemma_pages_len(e, visited, w0, o);
    if !visited.contains(url) && visited.len() < e.options.max_pages {
        let x = content_read(e, url, w, o);
        if let Ok(p) = x.0 {
            let seen = visited.push(url);
            let more = pages.push(x.0);
            assert(seen.drop_last() =~= visited);
            assert(chapter_pages(e, seen, w0, o) == (more, x.1));
            lemma_text_added(pages, x.0);
            assert(more.last() == x.0);
            let chapter = match first {
                Some(u) => u,
                None => p.response.url,
            };
            assert(more[0]->Ok_0.response.url == chapter);
            assert forall|i: int| 0 <= i < seen.len() - 1 implies (#[trigger] more[i])->Ok_0.next == Some(seen[i + 1])
                && is_further_page(more[0]->Ok_0.response.url, more[i]->Ok_0.response.url, seen[i + 1]) by {
                assert(more[i] == pages[i]);
                if i == visited.len() - 1 {
                    assert(pages.last() == pages[i]);
                } else {
                    assert(seen[i + 1] == visited[i + 1]);
                }
            }
            assert(lead_on(more, seen));
            if let Some(next) = p.next {
                if is_further_page(chapter, p.response.url, next) && !seen.contains(next) {
                    lemma_content_state(
                        e,
                        start,
                        w0,
                        next,
                        seen,
                        with_fragment(fragments, p.text),
                        Some(chapter),
                        Some(p.response),
                        x.1,
                        o,
                    );
                }
            }
        }
    }
}

proof fn lemma_pages_len(e: EnvV, urls: Seq<Seq<char>>, w: World, o: Oracle)
    ensures
        chapter_pages(e, urls, w, o).0.len() == urls.len(),
    decreases urls.len(),
{
    if urls.len() > 0 {
        lemma_pages_len(e, urls.drop_last(), w, o);
    }
}

/// A chapter is read from its first page on, each page naming the next, as long
/// as the page that is named is a further one and the request allows it; its
/// texts are those of the pages that have one, in that order.
pub proof fn law_content_in_order(e: EnvV, url: Seq<char>, w: World, o: Oracle)
    ensures
        ({
            let x = content_from(e, url, seq![], seq![], None, None, w, o);
            x.0 is Ok ==> is_content_of(x.0->Ok_0, e, url, w, x.1, o)
        }),
{
    let none: Seq<Seq<char>> = seq![];
    assert(Seq::new(0, |i: int| chapter_pages(e, none, w, o).0[i]->Ok_0.text) =~= seq![]);
    assert(texts_of_pages(chapter_pages(e, none, w, o).0) =~= seq![]) by {
        reveal(Seq::filter);
    }
    lemma_content_state(e, url, w, url, none, seq![], None, None, w, o);
}

/// A chapter that was not cut off holds every page of the chapter's name and a
/// number that its last page names: it is read to its end.
pub proof fn law_chapter_is_read_to_its_end(
    e: EnvV,
    url: Seq<char>,
    w: World,
    o: Oracle,
    next: Seq<char>,
    directory: Seq<char>,
    name: Seq<char>,
    extension: Seq<char>,
    number: Seq<char>,
    other: Seq<char>,
)
    requires
        content_from(e, url, seq![], seq![], None, None, w, o).0 is Ok,
        ({
            let c = content_from(e, url, seq![], seq![], None, None, w, o).0->Ok_0;
            let pages = chapter_pages(e, c.visited, w, o).0;
            let chapter = without_fragment(pages[0]->Ok_0.response.url);
            let current = without_fragment(pages.last()->Ok_0.response.url);
            let further = without_fragment(next);
            &&& !c.truncated
            &&& pages.last()->Ok_0.next == Some(next)
            &&& url_read(chapter) is Ok && url_read(current) is Ok && url_read(further) is Ok
            &&& is_page_path(url_read(chapter)->Ok_0.path, directory, name, extension)
            &&& is_page_path(url_read(further)->Ok_0.path, directory, name + "-"@ + number, other)
            &&& all_digits(number)
            &&& is_same_origin(url_read(chapter)->Ok_0, url_read(further)->Ok_0)
            &&& further != chapter
            &&& further != current
        }),
    ensures
        content_from(e, url, seq![], seq![], None, None, w, o).0->Ok_0.visited.contains(next),
{
    law_content_in_order(e, url, w, o);
    let c = content_from(e, url, seq![], seq![], None, None, w, o).0->Ok_0;
    let pages = chapter_pages(e, c.visited, w, o).0;
    law_numbered_page_is_further(
        pages[0]->Ok_0.response.url,
        pages.last()->Ok_0.response.url,
        next,
        directory,
        name,
        extension,
        number,
        other,
    );
}

/// The rules that clean a text are applied one after the other: those of one
/// list and then those of another are those of both.
pub proof fn law_rules_one_after_the_other(text: Seq<char>, a: Seq<ReplaceV>, b: Seq<ReplaceV>)
    ensures
        rules_applied(text, a + b, (a + b).len() as int) == rules_applied(
            rules_applied(text, a, a.len() as int),
            b,
            b.len() as int,
        ),
        rules_applied(text, seq![], 0) == text,
{
    lemma_rules_split(text, a, b, b.len() as int);
}

proof fn lemma_rules_head(text: Seq<char>, a: Seq<ReplaceV>, b: Seq<ReplaceV>, n: int)
    requires
        0 <= n <= a.len(),
    ensures
        rules_applied(text, a + b, n) == rules_applied(text, a, n),
    decreases n,
{
    if n > 0 {
        lemma_rules_head(text, a, b, n - 1);
    }
}

proof fn lemma_rules_split(text: Seq<char>, a: Seq<ReplaceV>, b: Seq<ReplaceV>, n: int)
    requires
        0 <= n <= b.len(),
    ensures
        rules_applied(text, a + b, a.len() + n) == rules_applied(rules_applied(text, a, a.len() as int), b, n),
    decreases n,
{
    if n > 0 {
        lemma_rules_split(text, a, b, n - 1);
        assert((a + b)[a.len() + n - 1] == b[n - 1]);
    } else {
        lemma_rules_head(text, a, b, a.len() as int);
    }
}

/// A rule that is not in use changes nothing, and one that is plain text puts
/// its replacement between the pieces that its text leaves.
pub proof fn law_plain_rule(text: Seq<char>, r: ReplaceV)
    ensures
        !r.is_enabled ==> rules_applied(text, seq![r], 1) == text,
        r.is_enabled && !r.is_regex && r.pattern.len() > 0 ==> rules_applied(text, seq![r], 1) == join_of(
            split_of(text, r.pattern),
            r.replacement,
        ),
{
    reveal_with_fuel(rules_applied, 2);
    assert(seq![r][0] == r);
    assert(rules_applied(text, seq![r], 1) == rule_applied(text, r));
}

} // verus!
