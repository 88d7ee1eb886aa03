//! The script engine that rules call, the network that requests go to, the
//! sessions in use, and the record of what was asked.
//!
//! A script may read the network and the clock, so what it answers is not a
//! function of what it is asked, and neither is what a site answers, nor which
//! cookies a jar has not dropped yet. A [`Host`] records every question and
//! answer, and contracts say what a function computes for every sequence of
//! answers that agrees with the record. The sessions are the host's own: only a
//! script may change them in a way that contracts take from its answer.

use crate::crawler::cookies::may_have;
use crate::crawler::http::{ClientFaultV, HttpClientError};
use crate::crawler::response::{RawResponse, RawV};
use crate::crawler::session::{opt_session, opt_session_ref, ExecuteSession, SessionV};
use crate::crawler::sessions::{
    active, cookies_in_use, handed_out, no_sessions, session_header, session_variable, sessions_begun, sessions_ended,
    sessions_keeping, sessions_with, Sessions, SessionsV,
};
use crate::crawler::url_rule::Method;
use crate::ext::json::{member_models, opt_json, Json, JsonV};
use crate::ext::xml::{
    evaluate_xpath, found_within, has_prefixed_name, is_prefixed, is_unordered, pairs, shows_order, xpath_of, XPath,
    XPathV, XmlTree,
};
use crate::util::chars::{opt_str, opt_text, texts};
use vstd::prelude::*;

verus! {

/// A script to run, and the values that it sees.
pub struct ScriptCall {
    pub script: String,
    pub input: Option<String>,
    pub base_url: Option<String>,
    pub key: Option<String>,
    pub page: Option<i32>,
    pub source_key: Option<String>,
    pub bindings: Option<Vec<(String, Json)>>,
    /// Whether the value of the script stands in a template, so that numbers
    /// are written without a fraction of zero and nothing is quoted.
    pub template: bool,
    pub js_lib: Option<String>,
}

pub struct CallV {
    pub script: Seq<char>,
    pub input: Option<Seq<char>>,
    pub base_url: Option<Seq<char>>,
    pub key: Option<Seq<char>>,
    pub page: Option<i32>,
    pub source_key: Option<Seq<char>>,
    pub bindings: Option<Seq<(Seq<char>, JsonV)>>,
    pub template: bool,
    pub js_lib: Option<Seq<char>>,
}

pub open spec fn opt_members(o: Option<Vec<(String, Json)>>) -> Option<Seq<(Seq<char>, JsonV)>> {
    match o {
        Some(v) => Some(member_models(v@)),
        None => None,
    }
}

impl ScriptCall {
    pub open spec fn model(self) -> CallV {
        CallV {
            script: self.script@,
            input: opt_text(self.input),
            base_url: opt_text(self.base_url),
            key: opt_text(self.key),
            page: self.page,
            source_key: opt_text(self.source_key),
            bindings: opt_members(self.bindings),
            template: self.template,
            js_lib: opt_text(self.js_lib),
        }
    }
}

pub open spec fn result_text(r: Result<String, String>) -> Result<Seq<char>, Seq<char>> {
    match r {
        Ok(t) => Ok(t@),
        Err(t) => Err(t@),
    }
}

/// What runs scripts.
pub trait ScriptEngine {
    /// Runs a script; its value as text, or why it failed. The script may read
    /// and change the sessions.
    fn eval(&mut self, call: &ScriptCall, sessions: &mut Sessions) -> Result<String, String>;
}

/// One message to a site, and the client that it goes by.
pub struct Wire {
    /// The proxy that it goes through.
    pub proxy: Option<String>,
    pub timeout_ms: u64,
    pub method: Method,
    pub url: String,
    pub headers: Vec<(String, String)>,
    pub body: Option<String>,
    /// How many bytes of the response are of use.
    pub limit: Option<usize>,
}

pub struct WireV {
    pub proxy: Option<Seq<char>>,
    pub timeout_ms: u64,
    pub method: Method,
    pub url: Seq<char>,
    pub headers: Seq<(Seq<char>, Seq<char>)>,
    pub body: Option<Seq<char>>,
    pub limit: Option<usize>,
}

impl Wire {
    pub open spec fn model(self) -> WireV {
        WireV {
            proxy: opt_text(self.proxy),
            timeout_ms: self.timeout_ms,
            method: self.method,
            url: self.url@,
            headers: pairs(self.headers@),
            body: opt_text(self.body),
            limit: self.limit,
        }
    }
}

pub open spec fn reply_model(r: Result<RawResponse, HttpClientError>) -> Result<RawV, ClientFaultV> {
    match r {
        Ok(x) => Ok(x.model()),
        Err(e) => Err(e.model()),
    }
}

/// What sends requests.
pub trait Transport {
    /// Sends one message. The bytes of a response that redirects are not read.
    fn send(&mut self, wire: &Wire) -> Result<RawResponse, HttpClientError>;
}

pub enum AskV {
    Eval(CallV),
    Send(WireV),
    /// The cookie header that the jar in use has for an address now.
    Jar(Seq<char>),
    /// An XPath expression, for a node of a document, that shows the order of a
    /// set, and whether it may use the function `id`.
    Select(Seq<char>, int, Seq<char>, bool),
}

/// An answer: the text of a script or the error and the sessions after it, the
/// reply of a site, a cookie header, or what an expression selects.
pub struct AnswerV {
    pub text: Result<Seq<char>, Seq<char>>,
    pub state: SessionsV,
    pub reply: Result<RawV, ClientFaultV>,
    pub cookies: Option<Seq<char>>,
    pub found: XPathV,
}

/// An answer that says nothing.
pub open spec fn no_answer() -> AnswerV {
    AnswerV {
        text: Ok(seq![]),
        state: no_sessions(),
        reply: Err(ClientFaultV::Network(seq![])),
        cookies: None,
        found: XPathV::Failed,
    }
}

/// A question and its answer.
pub struct EntryV {
    pub ask: AskV,
    pub answer: AnswerV,
}

/// The answers to the first, second and every later question.
pub type Oracle = spec_fn(int) -> AnswerV;

/// What a host remembers: the script library and the sessions in use, and what
/// was asked so far.
#[verifier::ext_equal]
pub struct World {
    pub lib: Option<Seq<char>>,
    pub asked: Seq<AskV>,
    pub state: SessionsV,
}

/// Whether the answers of `o` are those of the record.
pub open spec fn agrees(log: Seq<EntryV>, o: Oracle) -> bool {
    forall|i: int| 0 <= i < log.len() ==> #[trigger] o(i) == log[i].answer
}

/// Whether `b` continues the record `a`.
pub open spec fn extends(a: Seq<EntryV>, b: Seq<EntryV>) -> bool {
    a.len() <= b.len() && a == b.take(a.len() as int)
}

pub broadcast proof fn lemma_agrees_before(a: Seq<EntryV>, b: Seq<EntryV>, o: Oracle)
    requires
        #[trigger] extends(a, b),
        #[trigger] agrees(b, o),
    ensures
        agrees(a, o),
{
    assert forall|i: int| 0 <= i < a.len() implies #[trigger] o(i) == a[i].answer by {
        assert(b.take(a.len() as int)[i] == b[i]);
    }
}

pub broadcast proof fn lemma_extends_on(a: Seq<EntryV>, b: Seq<EntryV>, c: Seq<EntryV>)
    requires
        #[trigger] extends(a, b),
        #[trigger] extends(b, c),
    ensures
        extends(a, c),
{
    assert(c.take(a.len() as int) =~= b.take(a.len() as int));
}

pub broadcast proof fn lemma_extends_self(a: Seq<EntryV>)
    ensures
        #[trigger] extends(a, a),
{
    assert(a.take(a.len() as int) =~= a);
}

/// Whether a question is one that rules ask: a script or an expression.
pub open spec fn is_offline(ask: AskV) -> bool {
    ask is Eval || ask is Select
}

/// Whether every question that `b` adds to the record `a` is offline.
#[verifier::opaque]
pub open spec fn only_offline(a: Seq<EntryV>, b: Seq<EntryV>) -> bool {
    forall|i: int| a.len() <= i < b.len() ==> is_offline(#[trigger] b[i].ask)
}

/// Whether `b` continues the record `a` without a message to a site.
pub open spec fn offline(a: Seq<EntryV>, b: Seq<EntryV>) -> bool {
    extends(a, b) && only_offline(a, b)
}

pub broadcast proof fn lemma_offline_on(a: Seq<EntryV>, b: Seq<EntryV>, c: Seq<EntryV>)
    requires
        #[trigger] offline(a, b),
        #[trigger] offline(b, c),
    ensures
        offline(a, c),
{
    reveal(only_offline);
    lemma_extends_on(a, b, c);
    assert forall|i: int| a.len() <= i < c.len() implies is_offline(#[trigger] c[i].ask) by {
        if i < b.len() {
            assert(c.take(b.len() as int)[i] == c[i]);
            assert(is_offline(b[i].ask));
        }
    }
}

pub broadcast proof fn lemma_offline_self(a: Seq<EntryV>)
    ensures
        #[trigger] offline(a, a),
{
    reveal(only_offline);
    lemma_extends_self(a);
}

/// A record that goes on offline asks for nothing to be sent: only scripts and
/// variables are asked for.
pub proof fn law_offline_sends_nothing(a: Seq<EntryV>, b: Seq<EntryV>)
    requires
        offline(a, b),
    ensures
        forall|i: int| a.len() <= i < b.len() ==> is_offline(#[trigger] b[i].ask) && !(b[i].ask is Send),
{
    reveal(only_offline);
}

pub broadcast group group_log {
    lemma_agrees_before,
    lemma_extends_on,
    lemma_extends_self,
    lemma_offline_on,
    lemma_offline_self,
}

pub open spec fn asks_of(log: Seq<EntryV>) -> Seq<AskV> {
    Seq::new(log.len(), |i: int| log[i].ask)
}

/// The world after one more question.
pub open spec fn after(w: World, ask: AskV) -> World {
    World { asked: w.asked.push(ask), ..w }
}

/// The answer to the next question.
pub open spec fn next_answer(w: World, o: Oracle) -> AnswerV {
    o(w.asked.len() as int)
}

/// The question that runs a script.
pub open spec fn eval_ask(call: CallV, w: World) -> AskV {
    AskV::Eval(CallV { js_lib: w.lib, ..call })
}

/// The world after a script ran, which may have changed the sessions.
pub open spec fn evaluated(w: World, call: CallV, o: Oracle) -> World {
    World { state: next_answer(w, o).state, ..after(w, eval_ask(call, w)) }
}

/// The world after a session was started.
pub open spec fn session_begun(w: World, session: Option<SessionV>, url: Seq<char>, o: Oracle) -> World {
    World { state: sessions_begun(w.state, session, url, next_answer(w, o).cookies), ..after(w, AskV::Jar(url)) }
}

/// What the innermost session hands out at its end, and the world after that.
pub open spec fn session_ended(w: World, o: Oracle) -> (Option<SessionV>, World) {
    match active(w.state) {
        Some(a) => (
            handed_out(w.state, next_answer(w, o).cookies),
            World { state: sessions_ended(w.state), ..after(w, AskV::Jar(a.source_url)) },
        ),
        None => (None, w),
    }
}

/// What an XPath expression selects: nothing where it has a name with a prefix,
/// since none is declared, and what was found this time where it shows the order
/// of a set.
pub open spec fn asked_xpath(xml: Seq<char>, node: int, xpath: Seq<char>, ids: bool, w: World, o: Oracle) -> (
    XPathV,
    World,
) {
    if is_prefixed(xpath) {
        (XPathV::Failed, w)
    } else if is_unordered(xpath) {
        (next_answer(w, o).found, after(w, AskV::Select(xml, node, xpath, ids)))
    } else {
        (xpath_of(xml, node, xpath, ids), w)
    }
}

/// A script engine and the sessions in use, with the record of what was asked.
pub struct Host<E> {
    engine: E,
    lib: Option<String>,
    sessions: Sessions,
    log: Ghost<Seq<EntryV>>,
}

impl<E> Host<E> {
    pub closed spec fn log(&self) -> Seq<EntryV> {
        self.log@
    }

    pub closed spec fn lib(&self) -> Option<Seq<char>> {
        opt_text(self.lib)
    }

    /// The sessions in use.
    pub closed spec fn state(&self) -> SessionsV {
        self.sessions.model()
    }

    pub open spec fn world(&self) -> World {
        World { lib: self.lib(), asked: asks_of(self.log()), state: self.state() }
    }

    /// A host without sessions.
    pub fn new(engine: E) -> (r: Host<E>)
        ensures
            r.log() == Seq::<EntryV>::empty(),
            r.lib() is None,
            r.state() == no_sessions(),
    {
        Host { engine, lib: None, sessions: Sessions::new(), log: Ghost(Seq::empty()) }
    }

    /// A host with sessions that are in use already.
    pub fn with_sessions(engine: E, sessions: Sessions) -> (r: Host<E>)
        ensures
            r.log() == Seq::<EntryV>::empty(),
            r.lib() is None,
            r.state() == sessions.model(),
    {
        Host { engine, lib: None, sessions, log: Ghost(Seq::empty()) }
    }

    /// The engine and the sessions, when the host is done.
    pub fn into_parts(self) -> (r: (E, Sessions))
        ensures
            r.1.model() == self.state(),
    {
        (self.engine, self.sessions)
    }

    /// A variable of the session.
    pub fn get_variable(&self, key: &str) -> (r: Option<Json>)
        ensures
            opt_json(r) == session_variable(self.state(), key@),
    {
        self.sessions.get_variable(key)
    }

    /// Sets a variable of the session, if there is one.
    pub fn set_variable(&mut self, key: &str, value: &Json)
        ensures
            final(self).log() == old(self).log(),
            final(self).world() == (World {
                state: sessions_with(old(self).state(), key@, value.model()),
                ..old(self).world()
            }),
    {
        self.sessions.set_variable(key, value);
    }

    /// The headers of the session that a login left.
    pub fn get_login_header(&self) -> (r: Option<Json>)
        ensures
            opt_json(r) == session_header(self.state()),
    {
        self.sessions.get_login_header()
    }

    /// Starts a session of a source.
    pub fn begin(&mut self, session: Option<&ExecuteSession>, source_url: &str)
        ensures
            extends(old(self).log(), final(self).log()),
            forall|o: Oracle| #[trigger]
                agrees(final(self).log(), o) ==> session_begun(
                    old(self).world(),
                    opt_session_ref(session),
                    source_url@,
                    o,
                ) == final(self).world(),
            final(self).state().stack.len() > 0,
            may_have(
                final(self).state().stack.last().record,
                source_url@,
                final(self).state().stack.last().initial.cookies,
            ),
    {
        self.sessions.begin(session, source_url);
        let ghost c = choose|c: Option<Seq<char>>|
            self.sessions.model() == #[trigger] sessions_begun(
                old(self).state(),
                opt_session_ref(session),
                source_url@,
                c,
            ) && may_have(self.sessions.model().stack.last().record, source_url@, c);
        let ghost entry = EntryV { ask: AskV::Jar(source_url@), answer: AnswerV { cookies: c, ..no_answer() } };
        self.log = Ghost(self.log@.push(entry));
        proof {
            lemma_pushed(old(self).log(), entry);
        }
    }

    /// Ends the session in use; what it is now, where that is not what it was.
    pub fn end(&mut self) -> (r: Option<ExecuteSession>)
        ensures
            extends(old(self).log(), final(self).log()),
            forall|o: Oracle| #[trigger]
                agrees(final(self).log(), o) ==> session_ended(old(self).world(), o) == (
                    opt_session(r),
                    final(self).world(),
                ),
    {
        let r = self.sessions.end();
        proof {
            lemma_extends_self(old(self).log());
            if let Some(a) = active(old(self).state()) {
                let c = choose|c: Option<Seq<char>>| opt_session(r) == #[trigger] handed_out(old(self).state(), c);
                let entry = EntryV {
                    ask: AskV::Jar(a.source_url),
                    answer: AnswerV { cookies: c, ..no_answer() },
                };
                self.log@ = self.log@.push(entry);
                lemma_pushed(old(self).log(), entry);
            }
        }
        r
    }

    /// The cookie header of a request to an address.
    pub fn cookies(&mut self, url: &str) -> (r: Option<String>)
        ensures
            extends(old(self).log(), final(self).log()),
            final(self).world() == after(old(self).world(), AskV::Jar(url@)),
            forall|o: Oracle| #[trigger]
                agrees(final(self).log(), o) ==> next_answer(old(self).world(), o).cookies == opt_text(r),
            may_have(cookies_in_use(old(self).state()), url@, opt_text(r)),
    {
        let r = self.sessions.cookies(url);
        let ghost entry = EntryV {
            ask: AskV::Jar(url@),
            answer: AnswerV { cookies: opt_text(r), ..no_answer() },
        };
        self.log = Ghost(self.log@.push(entry));
        proof {
            lemma_pushed(old(self).log(), entry);
        }
        r
    }

    /// Keeps the cookies that an address set.
    pub fn keep_cookies(&mut self, url: &str, cookies: &Vec<String>)
        ensures
            final(self).log() == old(self).log(),
            final(self).world() == (World {
                state: sessions_keeping(old(self).state(), url@, texts(cookies@)),
                ..old(self).world()
            }),
    {
        self.sessions.keep_cookies(url, cookies);
    }

    /// Puts a source's script library in use and gives the one before it back.
    pub fn use_lib(&mut self, lib: Option<&str>) -> (r: Option<String>)
        ensures
            opt_text(r) == old(self).lib(),
            final(self).lib() == opt_str(lib),
            final(self).log() == old(self).log(),
            final(self).state() == old(self).state(),
    {
        match lib {
            Some(s) => self.swap_lib(Some(s.to_owned())),
            None => self.swap_lib(None),
        }
    }

    /// Puts another script library in use and gives the one before it back.
    pub fn swap_lib(&mut self, lib: Option<String>) -> (r: Option<String>)
        ensures
            opt_text(r) == old(self).lib(),
            final(self).lib() == opt_text(lib),
            final(self).log() == old(self).log(),
            final(self).state() == old(self).state(),
    {
        let r = self.lib.take();
        self.lib = lib;
        r
    }

    /// Evaluates an XPath expression for a node of a document.
    pub fn select(&mut self, tree: &XmlTree<'_>, node: usize, xpath: &str, ids: bool) -> (r: XPath)
        requires
            tree.wf(),
            node < tree.dom().len(),
        ensures
            offline(old(self).log(), final(self).log()),
            forall|o: Oracle| #[trigger]
                agrees(final(self).log(), o) ==> asked_xpath(
                    tree.source(),
                    node as int,
                    xpath@,
                    ids,
                    old(self).world(),
                    o,
                ) == (r.model(), final(self).world()),
            found_within(r.model(), tree.dom().len() as int),
    {
        broadcast use group_log;

        if has_prefixed_name(xpath) {
            return XPath::Failed;
        }
        let r = evaluate_xpath(tree, node, xpath, ids);
        if shows_order(xpath) {
            let ghost entry = EntryV {
                ask: AskV::Select(tree.source(), node as int, xpath@, ids),
                answer: AnswerV { found: r.model(), ..no_answer() },
            };
            self.log = Ghost(self.log@.push(entry));
            proof {
                lemma_pushed(old(self).log(), entry);
            }
        }
        r
    }
}

impl<E: ScriptEngine> Host<E> {
    /// Runs a script with the library in use.
    pub fn eval(&mut self, call: ScriptCall) -> (r: Result<String, String>)
        ensures
            offline(old(self).log(), final(self).log()),
            forall|o: Oracle| #[trigger]
                agrees(final(self).log(), o) ==> next_answer(old(self).world(), o).text == result_text(r) && evaluated(
                    old(self).world(),
                    call.model(),
                    o,
                ) == final(self).world(),
    {
        let mut call = call;
        let ghost w = self.world();
        let ghost ask = eval_ask(call.model(), w);
        call.js_lib = match &self.lib {
            Some(s) => Some(s.clone()),
            None => None,
        };
        let r = self.engine.eval(&call, &mut self.sessions);
        let ghost answer = AnswerV { text: result_text(r), state: self.sessions.model(), ..no_answer() };
        self.log = Ghost(self.log@.push(EntryV { ask, answer }));
        proof {
            lemma_pushed(old(self).log(), EntryV { ask, answer });
        }
        r
    }
}

impl<E: Transport> Host<E> {
    /// Sends one message.
    pub fn send(&mut self, wire: &Wire) -> (r: Result<RawResponse, HttpClientError>)
        ensures
            extends(old(self).log(), final(self).log()),
            final(self).world() == after(old(self).world(), AskV::Send(wire.model())),
            forall|o: Oracle| #[trigger]
                agrees(final(self).log(), o) ==> next_answer(old(self).world(), o).reply == reply_model(r),
    {
        let r = self.engine.send(wire);
        let ghost entry = EntryV {
            ask: AskV::Send(wire.model()),
            answer: AnswerV { reply: reply_model(r), ..no_answer() },
        };
        self.log = Ghost(self.log@.push(entry));
        proof {
            lemma_pushed(old(self).log(), entry);
        }
        r
    }
}

proof fn lemma_pushed(log: Seq<EntryV>, e: EntryV)
    ensures
        extends(log, log.push(e)),
        is_offline(e.ask) ==> offline(log, log.push(e)),
        asks_of(log.push(e)) == asks_of(log).push(e.ask),
        asks_of(log).len() == log.len(),
        forall|o: Oracle| #[trigger] agrees(log.push(e), o) ==> o(log.len() as int) == e.answer,
{
    reveal(only_offline);
    assert(log.push(e).take(log.len() as int) =~= log);
    assert(asks_of(log.push(e)) =~= asks_of(log).push(e.ask));
    assert forall|o: Oracle| #[trigger] agrees(log.push(e), o) implies o(log.len() as int) == e.answer by {
        assert(log.push(e)[log.len() as int] == e);
    }
}

} // verus!
