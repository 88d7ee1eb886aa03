//! The sessions in use, one within the other, and the cookies outside of them.

use crate::crawler::cookies::{may_have, recorded_for, CookieJar, SetCookieV};
use crate::crawler::session::{
    delta_of, is_touched, opt_session, opt_session_ref, session_of, started_session, variable_of, with_variable,
    ActiveSession, ExecuteSession, SessionV, StateV,
};
use crate::ext::json::{copy_json, opt_json, Json, JsonV};
use crate::util::chars::{opt_text, texts};
use vstd::prelude::*;

verus! {

/// The sessions in use, the innermost last, and the cookies that were set
/// outside of a session.
pub struct SessionsV {
    pub stack: Seq<StateV>,
    pub jar: Seq<SetCookieV>,
}

pub struct Sessions {
    stack: Vec<ActiveSession>,
    jar: CookieJar,
}

/// No session and no cookies.
pub open spec fn no_sessions() -> SessionsV {
    SessionsV { stack: seq![], jar: seq![] }
}

pub open spec fn states(v: Seq<ActiveSession>) -> Seq<StateV> {
    Seq::new(v.len(), |i: int| v[i].model())
}

/// The innermost session.
pub open spec fn active(s: SessionsV) -> Option<StateV> {
    if s.stack.len() > 0 {
        Some(s.stack.last())
    } else {
        None
    }
}

/// The sessions with the innermost one in another state.
pub open spec fn with_active(s: SessionsV, state: StateV) -> SessionsV {
    SessionsV { stack: s.stack.drop_last().push(state), jar: s.jar }
}

/// A variable of the innermost session.
pub open spec fn session_variable(s: SessionsV, key: Seq<char>) -> Option<JsonV> {
    match active(s) {
        Some(a) => variable_of(a.variables, key),
        None => None,
    }
}

/// The sessions with a variable set in the innermost one.
pub open spec fn sessions_with(s: SessionsV, key: Seq<char>, v: JsonV) -> SessionsV {
    match active(s) {
        Some(a) => with_active(s, StateV { variables: with_variable(a.variables, key, v), ..a }),
        None => s,
    }
}

/// The headers that a login left in the innermost session.
pub open spec fn session_header(s: SessionsV) -> Option<JsonV> {
    match active(s) {
        Some(a) => a.header,
        None => None,
    }
}

/// The cookies that requests carry: those of the innermost session, else those
/// outside of a session.
pub open spec fn cookies_in_use(s: SessionsV) -> Seq<SetCookieV> {
    match active(s) {
        Some(a) => a.record,
        None => s.jar,
    }
}

/// The sessions after an address set cookies.
pub open spec fn sessions_keeping(s: SessionsV, url: Seq<char>, cookies: Seq<Seq<char>>) -> SessionsV {
    let record = recorded_for(cookies_in_use(s), cookies, url);
    match active(s) {
        Some(a) => with_active(s, StateV { record, ..a }),
        None => SessionsV { jar: record, ..s },
    }
}

/// The sessions with one more, which starts with the cookies that its jar gives.
pub open spec fn sessions_begun(
    s: SessionsV,
    session: Option<SessionV>,
    url: Seq<char>,
    cookies: Option<Seq<char>>,
) -> SessionsV {
    SessionsV { stack: s.stack.push(started_session(session, url, cookies)), jar: s.jar }
}

/// What the innermost session hands out at its end, with the cookies that its
/// jar gives.
pub open spec fn handed_out(s: SessionsV, cookies: Option<Seq<char>>) -> Option<SessionV> {
    match active(s) {
        Some(a) => delta_of(session_of(a, cookies), a.initial, is_touched(a)),
        None => None,
    }
}

/// The sessions without the innermost one.
pub open spec fn sessions_ended(s: SessionsV) -> SessionsV {
    if s.stack.len() > 0 {
        SessionsV { stack: s.stack.drop_last(), jar: s.jar }
    } else {
        s
    }
}

impl Sessions {
    pub closed spec fn model(&self) -> SessionsV {
        SessionsV { stack: states(self.stack@), jar: self.jar.record() }
    }

    pub fn new() -> (r: Sessions)
        ensures
            r.model() == no_sessions(),
    {
        let r = Sessions { stack: Vec::new(), jar: CookieJar::new() };
        assert(states(r.stack@) =~= seq![]);
        assert(r.jar.record() =~= seq![]);
        r
    }

    /// Takes the innermost session out.
    pub fn take_active(&mut self) -> (r: Option<ActiveSession>)
        ensures
            match r {
                Some(a) => active(old(self).model()) == Some(a.model()),
                None => active(old(self).model()) is None,
            },
            final(self).model() == sessions_ended(old(self).model()),
    {
        let ghost before = states(self.stack@);
        assert(before.len() == self.stack.len());
        let r = self.stack.pop();
        assert(r is Some ==> states(self.stack@) =~= before.drop_last());
        r
    }

    /// Puts a session in use within those that are.
    pub fn put_active(&mut self, session: ActiveSession)
        ensures
            final(self).model() == (SessionsV {
                stack: old(self).model().stack.push(session.model()),
                jar: old(self).model().jar,
            }),
    {
        let ghost before = states(self.stack@);
        let ghost more = session.model();
        self.stack.push(session);
        assert(states(self.stack@) =~= before.push(more));
    }

    /// Starts a session of a source.
    pub fn begin(&mut self, session: Option<&ExecuteSession>, source_url: &str)
        ensures
            exists|c: Option<Seq<char>>|
                final(self).model() == #[trigger] sessions_begun(
                    old(self).model(),
                    opt_session_ref(session),
                    source_url@,
                    c,
                ) && may_have(final(self).model().stack.last().record, source_url@, c),
    {
        let a = ActiveSession::new(session, source_url);
        let ghost c = choose|c: Option<Seq<char>>|
            a.model() == #[trigger] started_session(opt_session_ref(session), source_url@, c) && may_have(
                a.model().record,
                source_url@,
                c,
            );
        self.put_active(a);
        assert(self.model() == sessions_begun(old(self).model(), opt_session_ref(session), source_url@, c));
    }

    /// Ends the innermost session; what it is now, where that is not what it was.
    pub fn end(&mut self) -> (r: Option<ExecuteSession>)
        ensures
            final(self).model() == sessions_ended(old(self).model()),
            exists|c: Option<Seq<char>>|
                opt_session(r) == #[trigger] handed_out(old(self).model(), c) && (active(old(self).model()) matches Some(
                    a,
                ) ==> may_have(a.record, a.source_url, c)),
    {
        match self.take_active() {
            Some(a) => {
                let r = a.extract_delta();
                let ghost c = choose|c: Option<Seq<char>>|
                    may_have(a.model().record, a.model().source_url, c) && opt_session(r) == #[trigger] delta_of(
                        session_of(a.model(), c),
                        a.model().initial,
                        is_touched(a.model()),
                    );
                assert(opt_session(r) == handed_out(old(self).model(), c));
                r
            },
            None => {
                assert(handed_out(old(self).model(), None) is None);
                None
            },
        }
    }

    /// A variable of the innermost session.
    pub fn get_variable(&self, key: &str) -> (r: Option<Json>)
        ensures
            opt_json(r) == session_variable(self.model(), key@),
    {
        let n: usize = self.stack.len();
        assert(states(self.stack@).len() == n);
        if n == 0 {
            return None;
        }
        assert(states(self.stack@)[n - 1] == self.stack@[n - 1].model());
        self.stack[n - 1].get_variable(key)
    }

    /// Sets a variable of the innermost session.
    pub fn set_variable(&mut self, key: &str, value: &Json)
        ensures
            final(self).model() == sessions_with(old(self).model(), key@, value.model()),
    {
        if let Some(a) = self.take_active() {
            let mut a = a;
            a.set_variable(key, copy_json(value));
            self.put_active(a);
        }
    }

    /// The headers that a login left in the innermost session.
    pub fn get_login_header(&self) -> (r: Option<Json>)
        ensures
            opt_json(r) == session_header(self.model()),
    {
        let n: usize = self.stack.len();
        assert(states(self.stack@).len() == n);
        if n == 0 {
            return None;
        }
        assert(states(self.stack@)[n - 1] == self.stack@[n - 1].model());
        self.stack[n - 1].get_login_header()
    }

    /// The cookie header of a request to an address.
    pub fn cookies(&mut self, url: &str) -> (r: Option<String>)
        ensures
            final(self).model() == old(self).model(),
            may_have(cookies_in_use(old(self).model()), url@, opt_text(r)),
    {
        match self.take_active() {
            Some(a) => {
                let mut a = a;
                let r = a.cookie_store().get_cookie_header(url);
                let ghost s = old(self).model();
                self.put_active(a);
                assert(s.stack.drop_last().push(s.stack.last()) =~= s.stack);
                r
            },
            None => self.jar.get_cookie_header(url),
        }
    }

    /// Keeps the cookies that an address set.
    pub fn keep_cookies(&mut self, url: &str, cookies: &Vec<String>)
        ensures
            final(self).model() == sessions_keeping(old(self).model(), url@, texts(cookies@)),
    {
        match self.take_active() {
            Some(a) => {
                let mut a = a;
                a.cookie_store().add_set_cookies(cookies, url);
                self.put_active(a);
            },
            None => {
                self.jar.add_set_cookies(cookies, url);
            },
        }
    }
}

/// A variable of the innermost session reads as what it was last set to.
pub proof fn law_session_variable_reads_back(s: SessionsV, key: Seq<char>, v: JsonV)
    requires
        s.stack.len() > 0,
    ensures
        session_variable(sessions_with(s, key, v), key) == Some(v),
{
    crate::crawler::session::law_variable_read_back(active(s)->0.variables, key, v);
}

/// What is done in a session leaves those around it, and they are in use again
/// when it ends.
pub proof fn law_outer_sessions_stay(
    s: SessionsV,
    session: Option<SessionV>,
    url: Seq<char>,
    cookies: Option<Seq<char>>,
    inner: StateV,
)
    ensures
        sessions_ended(with_active(sessions_begun(s, session, url, cookies), inner)) == s,
{
    let a = sessions_begun(s, session, url, cookies);
    assert(a.stack.drop_last() =~= s.stack);
    let b = with_active(a, inner);
    assert(b.stack.drop_last() =~= s.stack);
}

/// A session that is as it started hands nothing out, whatever it was started
/// with and whatever cookies its jar gives.
pub proof fn law_untouched_session_is_silent(
    s: SessionsV,
    session: Option<SessionV>,
    url: Seq<char>,
    first: Option<Seq<char>>,
    last: Option<Seq<char>>,
)
    requires
        session is Some ==> crate::crawler::session::is_session(session->0),
    ensures
        handed_out(sessions_begun(s, session, url, first), last) is None,
{
    crate::crawler::session::law_unchanged_session_is_silent(session, url, first, last);
}

} // verus!
