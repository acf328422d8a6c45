//! Waiting until the servers of a daemon are ready.
//!
//! It is mechanism and not policy: which servers to wait for, how much silence to
//! bear and what to show meanwhile is up to the caller.

use crate::json;
use crate::seqs;
use crate::text;
use crate::text::{has, same};
use serde_json::Value;
use vstd::prelude::*;
use vstd::string::*;

verus! {

/// A server in `status`: its name, its state and how long ago it reported progress.
#[derive(Debug, Clone, PartialEq, Eq)]
pub struct ServerState {
    pub name: String,
    pub state: String,
    /// In milliseconds. `None` if the daemon does not say it.
    pub since_progress: Option<u64>,
    /// Why it did not start or fell, in a server that is `FAILED`.
    pub error: Option<String>,
}

/// What a [`ServerState`] says.
pub struct Server {
    pub name: Seq<char>,
    pub state: Seq<char>,
    pub since_progress: Option<u64>,
    pub error: Option<Seq<char>>,
}

impl View for ServerState {
    type V = Server;

    open spec fn view(&self) -> Server {
        Server {
            name: self.name@,
            state: self.state@,
            since_progress: self.since_progress,
            error: text::opt_text(self.error),
        }
    }
}

/// What each server of a list says.
pub open spec fn servers_of(v: Seq<ServerState>) -> Seq<Server> {
    v.map_values(|s: ServerState| s@)
}

impl ServerState {
    /// The same server again.
    pub fn copy(&self) -> (r: ServerState)
        ensures
            r@ == self@,
    {
        ServerState {
            name: self.name.clone(),
            state: self.state.clone(),
            since_progress: self.since_progress,
            error: match &self.error {
                Some(e) => Some(e.clone()),
                None => None,
            },
        }
    }
}

/// How often `status` is asked, in milliseconds.
pub const POLL: u64 = 500;

/// How much silence a server that is waited for is allowed before it is taken for
/// stuck, in milliseconds.
pub const STALL: u64 = 120_000;

/// How the wait ended.
#[derive(Debug, Clone, Default, PartialEq, Eq)]
pub struct Waited {
    /// Those that disappeared from `status` without saying why.
    pub gone: Vec<String>,
    /// Those that `status` shows `FAILED`, with their error.
    pub failed: Vec<(String, String)>,
    /// Those that stayed `STARTING` or `INDEXING` without reporting progress for the
    /// whole window.
    pub stalled: Vec<String>,
}

/// What a [`Waited`] says.
#[verifier::ext_equal]
pub struct Outcome {
    pub gone: Seq<Seq<char>>,
    pub failed: Seq<(Seq<char>, Seq<char>)>,
    pub stalled: Seq<Seq<char>>,
}

/// The characters of each pair of strings of a list.
pub open spec fn pairs(v: Seq<(String, String)>) -> Seq<(Seq<char>, Seq<char>)> {
    v.map_values(|p: (String, String)| (p.0@, p.1@))
}

impl View for Waited {
    type V = Outcome;

    open spec fn view(&self) -> Outcome {
        Outcome {
            gone: text::texts(self.gone@),
            failed: pairs(self.failed@),
            stalled: text::texts(self.stalled@),
        }
    }
}

impl Outcome {
    /// None fell and none got stuck.
    pub open spec fn is_ok(self) -> bool {
        self.gone.len() == 0 && self.failed.len() == 0 && self.stalled.len() == 0
    }

    /// Whether the wait has already ended badly for this server.
    pub open spec fn concluded(self, name: Seq<char>) -> bool {
        ||| self.gone.contains(name)
        ||| self.stalled.contains(name)
        ||| exists|i: int| 0 <= i < self.failed.len() && (#[trigger] self.failed[i]).0 == name
    }

    /// This outcome with one more assessment behind it.
    pub open spec fn and(self, a: Picture) -> Outcome {
        Outcome {
            gone: self.gone + a.gone,
            failed: self.failed + a.failed,
            stalled: self.stalled + a.stalled,
        }
    }
}

impl Waited {
    fn empty() -> (r: Waited)
        ensures
            r@ == (Outcome { gone: Seq::empty(), failed: Seq::empty(), stalled: Seq::empty() }),
    {
        let r = Waited { gone: Vec::new(), failed: Vec::new(), stalled: Vec::new() };
        assert(r@ =~= (Outcome {
            gone: Seq::empty(),
            failed: Seq::empty(),
            stalled: Seq::empty(),
        }));
        r
    }

    /// All ready: none fell and none got stuck.
    pub fn is_ok(&self) -> (r: bool)
        ensures
            r == self@.is_ok(),
    {
        self.gone.len() == 0 && self.failed.len() == 0 && self.stalled.len() == 0
    }

    fn concluded(&self, name: &str) -> (r: bool)
        ensures
            r == self@.concluded(name@),
    {
        if has(self.gone.as_slice(), name) || has(self.stalled.as_slice(), name) {
            return true;
        }
        for i in 0..self.failed.len()
            invariant
                forall|j: int| 0 <= j < i ==> (#[trigger] self@.failed[j]).0 != name@,
        {
            assert(self@.failed[i as int].0 == self.failed@[i as int].0@);
            if same(self.failed[i].0.as_str(), name) {
                return true;
            }
        }
        false
    }
}

// ── one picture of `status` ──────────────────────────────────────────────────

/// What one picture of `status` says of a server that is waited for.
pub enum Verdict {
    /// It is not there.
    Gone,
    /// It is `FAILED`, with this error.
    Failed(Seq<char>),
    /// It is `STARTING` or `INDEXING`, and has been silent for the whole window.
    Stalled,
    /// It is `STARTING` or `INDEXING`.
    Indexing,
    /// It is in any other state: `READY` has finished, and `RUNNING` does not tell.
    Done,
}

/// The states that are waited for: the handshake and the indexing.
pub open spec fn is_waited(state: Seq<char>) -> bool {
    state == "STARTING"@ || state == "INDEXING"@
}

/// The first server of this name.
pub open spec fn find(status: Seq<Server>, name: Seq<char>) -> Option<Server>
    decreases status.len(),
{
    if status.len() == 0 {
        None
    } else if status.first().name == name {
        Some(status.first())
    } else {
        find(status.drop_first(), name)
    }
}

pub open spec fn verdict(stall: u64, status: Seq<Server>, name: Seq<char>) -> Verdict {
    match find(status, name) {
        None => Verdict::Gone,
        Some(s) => if s.state == "FAILED"@ {
            Verdict::Failed(
                match s.error {
                    Some(e) => e,
                    None => "sin detalle"@,
                },
            )
        } else if is_waited(s.state) {
            match s.since_progress {
                Some(quiet) => if quiet >= stall {
                    Verdict::Stalled
                } else {
                    Verdict::Indexing
                },
                None => Verdict::Indexing,
            }
        } else {
            Verdict::Done
        },
    }
}

/// What a picture of `status` says of the servers that are waited for.
#[derive(Debug)]
pub struct Assessment {
    pub indexing: Vec<String>,
    pub gone: Vec<String>,
    pub failed: Vec<(String, String)>,
    pub stalled: Vec<String>,
}

/// What an [`Assessment`] says.
#[verifier::ext_equal]
pub struct Picture {
    pub indexing: Seq<Seq<char>>,
    pub gone: Seq<Seq<char>>,
    pub failed: Seq<(Seq<char>, Seq<char>)>,
    pub stalled: Seq<Seq<char>>,
}

impl View for Assessment {
    type V = Picture;

    open spec fn view(&self) -> Picture {
        Picture {
            indexing: text::texts(self.indexing@),
            gone: text::texts(self.gone@),
            failed: pairs(self.failed@),
            stalled: text::texts(self.stalled@),
        }
    }
}

/// What a picture of `status` says of the servers of these names: each is under the
/// verdict that the picture gives it, in the order of the names, and one that is
/// done is under none.
pub open spec fn picture(stall: u64, names: Seq<Seq<char>>, status: Seq<Server>) -> Picture {
    Picture {
        indexing: names.filter(|n: Seq<char>| verdict(stall, status, n) is Indexing),
        gone: names.filter(|n: Seq<char>| verdict(stall, status, n) is Gone),
        failed: names.filter(|n: Seq<char>| verdict(stall, status, n) is Failed).map_values(
            |n: Seq<char>| (n, verdict(stall, status, n)->Failed_0),
        ),
        stalled: names.filter(|n: Seq<char>| verdict(stall, status, n) is Stalled),
    }
}

impl Assessment {
    /// Nothing is left to wait for.
    pub fn settled(&self) -> (r: bool)
        ensures
            r == (self@.indexing.len() == 0),
    {
        self.indexing.len() == 0
    }
}

/// The position of the first server of this name, or the length where there is none.
fn position(status: &[ServerState], name: &str) -> (r: usize)
    ensures
        r <= status@.len(),
        match find(servers_of(status@), name@) {
            Some(s) => r < status@.len() && status@[r as int]@ == s,
            None => r == status@.len(),
        },
{
    let ghost all = servers_of(status@);
    assert(all.skip(0) =~= all);
    for i in 0..status.len()
        invariant
            all == servers_of(status@),
            find(all, name@) == find(all.skip(i as int), name@),
    {
        assert(all.skip(i as int).drop_first() =~= all.skip(i + 1));
        assert(all.skip(i as int).first() == status@[i as int]@);
        if same(status[i].name.as_str(), name) {
            return i;
        }
    }
    status.len()
}

/// What a picture of `status` says of the servers of these names.
pub fn assess(stall: u64, servers: &[String], status: &[ServerState]) -> (r: Assessment)
    ensures
        r@ == picture(stall, text::texts(servers@), servers_of(status@)),
{
    let ghost all = text::texts(servers@);
    let ghost st = servers_of(status@);
    let mut a = Assessment {
        indexing: Vec::new(),
        gone: Vec::new(),
        failed: Vec::new(),
        stalled: Vec::new(),
    };
    proof {
        reveal(Seq::filter);
        assert(a@ =~= picture(stall, all.take(0), st));
    }
    for i in 0..servers.len()
        invariant
            all == text::texts(servers@),
            st == servers_of(status@),
            a@ == picture(stall, all.take(i as int), st),
    {
        let ghost before = a@;
        let ghost n = servers@[i as int]@;
        let name = &servers[i];
        let at: usize = position(status, name.as_str());
        if at == status.len() {
            a.gone.push(name.clone());
        } else {
            let s = &status[at];
            if same(s.state.as_str(), "FAILED") {
                let error = match &s.error {
                    Some(e) => e.clone(),
                    None => "sin detalle".to_owned(),
                };
                a.failed.push((name.clone(), error));
            } else if same(s.state.as_str(), "STARTING") || same(s.state.as_str(), "INDEXING") {
                match s.since_progress {
                    Some(quiet) => if quiet >= stall {
                        a.stalled.push(name.clone());
                    } else {
                        a.indexing.push(name.clone());
                    },
                    None => a.indexing.push(name.clone()),
                }
            }
        }
        proof {
            let v = verdict(stall, st, n);
            assert(all[i as int] == n);
            assert(all.take(i + 1).drop_last() =~= all.take(i as int));
            let after = picture(stall, all.take(i + 1), st);
            reveal(Seq::filter);
            assert(after.indexing =~= if v is Indexing {
                before.indexing.push(n)
            } else {
                before.indexing
            });
            assert(after.gone =~= if v is Gone {
                before.gone.push(n)
            } else {
                before.gone
            });
            assert(after.stalled =~= if v is Stalled {
                before.stalled.push(n)
            } else {
                before.stalled
            });
            assert(after.failed =~= if v is Failed {
                before.failed.push((n, v->Failed_0))
            } else {
                before.failed
            });
            assert(a@.indexing =~= after.indexing);
            assert(a@.gone =~= after.gone);
            assert(a@.stalled =~= after.stalled);
            assert(a@.failed =~= after.failed);
        }
    }
    assert(all.take(all.len() as int) =~= all);
    a
}

// ── the wait ─────────────────────────────────────────────────────────────────

/// A wait in course: which servers it was asked for, which of them are still waited
/// for, and how it ended for the others.
#[derive(Debug)]
pub struct Waiting {
    servers: Vec<String>,
    pending: Vec<String>,
    out: Waited,
}

/// What a [`Waiting`] holds.
#[verifier::ext_equal]
pub struct Wait {
    pub servers: Seq<Seq<char>>,
    pub pending: Seq<Seq<char>>,
    pub out: Outcome,
}

impl View for Waiting {
    type V = Wait;

    closed spec fn view(&self) -> Wait {
        Wait {
            servers: text::texts(self.servers@),
            pending: text::texts(self.pending@),
            out: self.out@,
        }
    }
}

impl Wait {
    /// A wait for these servers, before any picture of `status`.
    pub open spec fn begun(servers: Seq<Seq<char>>) -> Wait {
        Wait {
            servers,
            pending: servers,
            out: Outcome { gone: Seq::empty(), failed: Seq::empty(), stalled: Seq::empty() },
        }
    }

    pub open spec fn done(self) -> bool {
        self.pending.len() == 0
    }

    /// The servers of a picture that the caller is shown: those asked for, but for the
    /// ones that the wait has already ended badly for.
    pub open spec fn shown(self, status: Seq<Server>) -> Seq<Server> {
        status.filter(|s: Server| self.servers.contains(s.name) && !self.out.concluded(s.name))
    }

    /// The wait after one more picture: it goes on for the servers that the picture
    /// shows still on their way, and it has ended for the others.
    pub open spec fn next(self, stall: u64, status: Seq<Server>) -> Wait {
        let a = picture(stall, self.pending, status);
        Wait { servers: self.servers, pending: a.indexing, out: self.out.and(a) }
    }

    /// The wait after these pictures, one after the other.
    pub open spec fn after(self, stall: u64, pictures: Seq<Seq<Server>>) -> Wait
        decreases pictures.len(),
    {
        if pictures.len() == 0 {
            self
        } else {
            self.after(stall, pictures.drop_last()).next(stall, pictures.last())
        }
    }
}

impl Waiting {
    /// A wait until none of these servers is on its way. The names are those that
    /// `status` gives.
    pub fn new(servers: &[String]) -> (r: Waiting)
        ensures
            r@ == Wait::begun(text::texts(servers@)),
    {
        let mut kept: Vec<String> = Vec::new();
        let mut pending: Vec<String> = Vec::new();
        for i in 0..servers.len()
            invariant
                text::texts(kept@) == text::texts(servers@).take(i as int),
                text::texts(pending@) == text::texts(servers@).take(i as int),
        {
            let ghost before = text::texts(kept@);
            kept.push(servers[i].clone());
            pending.push(servers[i].clone());
            assert(text::texts(kept@) =~= before.push(servers@[i as int]@));
            assert(text::texts(pending@) =~= before.push(servers@[i as int]@));
            assert(text::texts(servers@).take(i + 1) =~= before.push(servers@[i as int]@));
        }
        assert(text::texts(servers@).take(servers@.len() as int) =~= text::texts(servers@));
        Waiting { servers: kept, pending, out: Waited::empty() }
    }

    /// Whether there is nothing left to wait for.
    pub fn done(&self) -> (r: bool)
        ensures
            r == self@.done(),
    {
        self.pending.len() == 0
    }

    /// How the wait has ended so far.
    pub fn waited(&self) -> (r: &Waited)
        ensures
            r@ == self@.out,
    {
        &self.out
    }

    /// Takes one more picture of `status`, and gives the part of it to show.
    ///
    /// A server that fell or got stuck stays so: if someone starts it again, or it
    /// moves again, that is no longer the start that this wait was looking at.
    pub fn observe(&mut self, stall: u64, status: &[ServerState]) -> (seen: Vec<ServerState>)
        ensures
            servers_of(seen@) == old(self)@.shown(servers_of(status@)),
            final(self)@ == old(self)@.next(stall, servers_of(status@)),
    {
        let ghost was = self@;
        let ghost st = servers_of(status@);
        let ghost shown = |s: Server| was.servers.contains(s.name) && !was.out.concluded(s.name);
        let mut a = assess(stall, self.pending.as_slice(), status);
        let mut seen: Vec<ServerState> = Vec::new();
        assert(servers_of(seen@) =~= st.take(0).filter(shown)) by {
            reveal(Seq::filter);
        }
        for i in 0..status.len()
            invariant
                was == self@,
                st == servers_of(status@),
                shown == (|s: Server|
                    was.servers.contains(s.name) && !was.out.concluded(s.name)),
                servers_of(seen@) == st.take(i as int).filter(shown),
        {
            let ghost before = servers_of(seen@);
            let s = &status[i];
            if has(self.servers.as_slice(), s.name.as_str()) && !self.out.concluded(
                s.name.as_str(),
            ) {
                seen.push(s.copy());
            }
            proof {
                assert(st[i as int] == s@);
                assert(st.take(i + 1).drop_last() =~= st.take(i as int));
                assert(st.take(i + 1).filter(shown) == if shown(s@) {
                    before.push(s@)
                } else {
                    before
                }) by {
                    reveal(Seq::filter);
                }
                assert(servers_of(seen@) =~= if shown(s@) {
                    before.push(s@)
                } else {
                    before
                });
            }
        }
        assert(st.take(st.len() as int) =~= st);
        let ghost pic = a@;
        let ghost gone = self.out.gone@;
        let ghost failed = self.out.failed@;
        let ghost stalled = self.out.stalled@;
        let ghost a_gone = a.gone@;
        let ghost a_failed = a.failed@;
        let ghost a_stalled = a.stalled@;
        self.out.gone.append(&mut a.gone);
        self.out.failed.append(&mut a.failed);
        self.out.stalled.append(&mut a.stalled);
        self.pending = a.indexing;
        proof {
            assert(text::texts(gone + a_gone) =~= text::texts(gone) + text::texts(a_gone));
            assert(text::texts(stalled + a_stalled) =~= text::texts(stalled) + text::texts(
                a_stalled,
            ));
            assert(pairs(failed + a_failed) =~= pairs(failed) + pairs(a_failed));
            assert(self@ =~= was.next(stall, st));
        }
        seen
    }
}

// ── what `status` answers ────────────────────────────────────────────────────

/// The server that an item of the answer to `status` is.
pub open spec fn server_of(j: json::Json) -> Server {
    Server {
        name: match json::text_member(j, "name"@) {
            Some(s) => s,
            None => "?"@,
        },
        state: match json::text_member(j, "state"@) {
            Some(s) => s,
            None => "?"@,
        },
        since_progress: json::u64_member(j, "since_progress_ms"@),
        error: json::text_member(j, "error"@),
    }
}

/// The text under this key, or a question mark.
pub(crate) fn text_or_mark(v: &Value, key: &str) -> (r: String)
    ensures
        r@ == match json::text_member(json::json(*v), key@) {
            Some(s) => s,
            None => "?"@,
        },
{
    match json::get_str(v, key) {
        Some(s) => s.to_owned(),
        None => "?".to_owned(),
    }
}

fn read_server(v: &Value) -> (r: ServerState)
    ensures
        r@ == server_of(json::json(*v)),
{
    ServerState {
        name: text_or_mark(v, "name"),
        state: text_or_mark(v, "state"),
        since_progress: json::get_u64(v, "since_progress_ms"),
        error: match json::get_str(v, "error") {
            Some(e) => Some(e.to_owned()),
            None => None,
        },
    }
}

/// Reads what `status` answers. What is not a list is an error, which says it.
pub fn parse_status(v: &Value) -> (r: Result<Vec<ServerState>, String>)
    ensures
        match json::json(*v) {
            json::Json::Array(list) => r is Ok && servers_of(r->Ok_0@) == list.map_values(
                |j: json::Json| server_of(j),
            ),
            _ => r is Err && r->Err_0@ == no_list(json::json(*v)),
        },
{
    match json::as_array(v) {
        None => {
            let mut e = "`status` no contestó una lista: ".to_owned();
            e.append(json::print(v).as_str());
            Err(e)
        },
        Some(list) => {
            let mut out: Vec<ServerState> = Vec::new();
            for i in 0..list.len()
                invariant
                    out@.len() == i,
                    forall|k: int|
                        0 <= k < i ==> (#[trigger] out@[k])@ == server_of(json::json(list@[k])),
            {
                out.push(read_server(&list[i]));
            }
            assert(servers_of(out@) =~= json::jsons(list@).map_values(
                |j: json::Json| server_of(j),
            ));
            Ok(out)
        },
    }
}

/// What is said of an answer to `status` that is not a list.
pub open spec fn no_list(j: json::Json) -> Seq<char> {
    "`status` no contestó una lista: "@ + json::json_text(j)
}

/// Why a wait cannot go on.
#[derive(Debug)]
pub enum Broken<E> {
    /// `status` was not answered, for this reason.
    Unanswered(E),
    /// What it answered is not a list.
    NoList(String),
}

impl Waiting {
    /// Takes what came of one more question for `status`, and gives the part of the
    /// picture to show. The error of a question that was not answered is handed on as
    /// it is, and the wait stays where it was.
    pub fn hear<E>(&mut self, stall: u64, answer: Result<Value, E>) -> (r: Result<
        Vec<ServerState>,
        Broken<E>,
    >)
        ensures
            match answer {
                Err(e) => r == Err::<Vec<ServerState>, Broken<E>>(Broken::Unanswered(e))
                    && final(self)@ == old(self)@,
                Ok(v) => match json::json(v) {
                    json::Json::Array(list) => {
                        let status = list.map_values(|j: json::Json| server_of(j));
                        &&& r matches Ok(seen) && servers_of(seen@) == old(self)@.shown(status)
                        &&& final(self)@ == old(self)@.next(stall, status)
                    },
                    j => {
                        &&& r matches Err(Broken::NoList(e)) && e@ == no_list(j)
                        &&& final(self)@ == old(self)@
                    },
                },
            },
    {
        match answer {
            Err(e) => Err(Broken::Unanswered(e)),
            Ok(v) => match parse_status(&v) {
                Err(e) => Err(Broken::NoList(e)),
                Ok(status) => Ok(self.observe(stall, status.as_slice())),
            },
        }
    }
}

// ── what a wait promises ─────────────────────────────────────────────────────

/// `READY` has finished and `RUNNING` does not tell: neither is waited for, however
/// long it has been silent.
pub proof fn law_ready_and_running_are_not_waited_for(
    stall: u64,
    status: Seq<Server>,
    name: Seq<char>,
)
    requires
        find(status, name) matches Some(s) && (s.state == "READY"@ || s.state == "RUNNING"@),
    ensures
        verdict(stall, status, name) is Done,
{
    reveal_strlit("READY");
    reveal_strlit("RUNNING");
    reveal_strlit("STARTING");
    reveal_strlit("INDEXING");
    reveal_strlit("FAILED");
    assert("READY"@[0] == 'R' && "RUNNING"@[0] == 'R' && "STARTING"@[0] == 'S' && "INDEXING"@[0]
        == 'I' && "FAILED"@[0] == 'F');
}

/// A daemon that does not say when the progress came does not let silence be seen,
/// and with it no server gets stuck.
pub proof fn law_without_a_clock_nothing_gets_stuck(
    stall: u64,
    status: Seq<Server>,
    name: Seq<char>,
)
    requires
        find(status, name) matches Some(s) && s.since_progress is None,
    ensures
        !(verdict(stall, status, name) is Stalled),
{
}

/// What `status` lists and nobody waited for does not count: the verdict on a server
/// comes out of its own line alone.
pub proof fn law_other_servers_do_not_count(
    stall: u64,
    status: Seq<Server>,
    other: Server,
    name: Seq<char>,
)
    requires
        other.name != name,
    ensures
        verdict(stall, status.push(other), name) == verdict(stall, status, name),
        verdict(stall, seq![other] + status, name) == verdict(stall, status, name),
{
    lemma_find_push(status, other, name);
    assert((seq![other] + status).drop_first() =~= status);
}

proof fn lemma_find_push(status: Seq<Server>, other: Server, name: Seq<char>)
    requires
        other.name != name,
    ensures
        find(status.push(other), name) == find(status, name),
    decreases status.len(),
{
    if status.len() == 0 {
        assert(status.push(other).drop_first() =~= Seq::<Server>::empty());
        reveal_with_fuel(find, 2);
    } else {
        lemma_find_push(status.drop_first(), other, name);
        assert(status.push(other).drop_first() =~= status.drop_first().push(other));
    }
}

/// One server falling or getting stuck does not cut the wait of the others: whether
/// a server is still waited for after a picture is up to what the picture says of it.
pub proof fn law_each_server_is_waited_for_on_its_own(
    w: Wait,
    stall: u64,
    status: Seq<Server>,
    name: Seq<char>,
)
    ensures
        w.next(stall, status).pending.contains(name) <==> w.pending.contains(name) && verdict(
            stall,
            status,
            name,
        ) is Indexing,
{
    seqs::lemma_filter_holds(
        w.pending,
        |n: Seq<char>| verdict(stall, status, n) is Indexing,
        name,
    );
}

/// What each picture adds to the outcome: of the servers still waited for, those
/// that it shows gone, failed or stuck, and no other.
pub proof fn law_an_outcome_is_what_the_pictures_said(
    w: Wait,
    stall: u64,
    status: Seq<Server>,
    name: Seq<char>,
)
    ensures
        w.next(stall, status).out.concluded(name) <==> {
            ||| w.out.concluded(name)
            ||| w.pending.contains(name) && !(verdict(stall, status, name) is Indexing) && !(
            verdict(stall, status, name) is Done)
        },
{
    let next = w.next(stall, status);
    let a = picture(stall, w.pending, status);
    let fails = |n: Seq<char>| verdict(stall, status, n) is Failed;
    let told = |n: Seq<char>| (n, verdict(stall, status, n)->Failed_0);
    let failing = w.pending.filter(fails);
    seqs::lemma_filter_holds(w.pending, |n: Seq<char>| verdict(stall, status, n) is Gone, name);
    seqs::lemma_filter_holds(
        w.pending,
        |n: Seq<char>| verdict(stall, status, n) is Stalled,
        name,
    );
    seqs::lemma_filter_holds(w.pending, fails, name);
    lemma_contains_sum(w.out.gone, a.gone, name);
    lemma_contains_sum(w.out.stalled, a.stalled, name);
    assert(a.failed == failing.map_values(told));
    if next.out.concluded(name) {
        if exists|i: int|
            0 <= i < next.out.failed.len() && (#[trigger] next.out.failed[i]).0 == name {
            let i = choose|i: int|
                0 <= i < next.out.failed.len() && (#[trigger] next.out.failed[i]).0 == name;
            if i < w.out.failed.len() {
                assert(w.out.failed[i].0 == name);
            } else {
                let k = i - w.out.failed.len();
                assert(a.failed[k].0 == name);
                assert(failing[k] == name);
            }
        }
    }
    if exists|i: int| 0 <= i < w.out.failed.len() && (#[trigger] w.out.failed[i]).0 == name {
        let i = choose|i: int|
            0 <= i < w.out.failed.len() && (#[trigger] w.out.failed[i]).0 == name;
        assert(next.out.failed[i].0 == name);
    }
    if failing.contains(name) {
        let k = choose|k: int| 0 <= k < failing.len() && failing[k] == name;
        assert(next.out.failed[w.out.failed.len() + k].0 == name);
    }
}

proof fn lemma_contains_sum(a: Seq<Seq<char>>, b: Seq<Seq<char>>, x: Seq<char>)
    ensures
        (a + b).contains(x) <==> a.contains(x) || b.contains(x),
{
    if a.contains(x) {
        let i = choose|i: int| 0 <= i < a.len() && a[i] == x;
        assert((a + b)[i] == x);
    }
    if b.contains(x) {
        let i = choose|i: int| 0 <= i < b.len() && b[i] == x;
        assert((a + b)[a.len() + i] == x);
    }
}

/// Once a server has fallen or got stuck it stays so: the outcome of a wait only
/// grows, and what has ended badly is no longer waited for nor shown.
pub proof fn law_what_ended_stays_ended(
    servers: Seq<Seq<char>>,
    stall: u64,
    pictures: Seq<Seq<Server>>,
    more: Seq<Server>,
    name: Seq<char>,
)
    ensures
        ({
            let w = Wait::begun(servers).after(stall, pictures);
            let next = w.next(stall, more);
            &&& w.out.gone.is_prefix_of(next.out.gone)
            &&& w.out.failed.is_prefix_of(next.out.failed)
            &&& w.out.stalled.is_prefix_of(next.out.stalled)
            &&& w.out.concluded(name) ==> {
                &&& next.out.concluded(name)
                &&& !w.pending.contains(name)
                &&& !next.pending.contains(name)
                &&& forall|s: Server| w.shown(more).contains(s) ==> s.name != name
            }
        }),
{
    let w = Wait::begun(servers).after(stall, pictures);
    law_a_wait_is_for_its_servers(servers, stall, pictures, name);
    law_an_outcome_is_what_the_pictures_said(w, stall, more, name);
    law_each_server_is_waited_for_on_its_own(w, stall, more, name);
    assert forall|s: Server| w.out.concluded(name) && w.shown(more).contains(s) implies s.name
        != name by {
        seqs::lemma_filter_holds(
            more,
            |s: Server| w.servers.contains(s.name) && !w.out.concluded(s.name),
            s,
        );
    }
}

/// In every state of a wait, what is waited for and what has ended badly are of the
/// servers it was asked for, and no server is both.
pub proof fn law_a_wait_is_for_its_servers(
    servers: Seq<Seq<char>>,
    stall: u64,
    pictures: Seq<Seq<Server>>,
    name: Seq<char>,
)
    ensures
        ({
            let w = Wait::begun(servers).after(stall, pictures);
            &&& w.servers == servers
            &&& w.pending.contains(name) ==> servers.contains(name) && !w.out.concluded(name)
            &&& w.out.concluded(name) ==> servers.contains(name)
        }),
    decreases pictures.len(),
{
    if pictures.len() > 0 {
        let before = Wait::begun(servers).after(stall, pictures.drop_last());
        law_a_wait_is_for_its_servers(servers, stall, pictures.drop_last(), name);
        law_an_outcome_is_what_the_pictures_said(before, stall, pictures.last(), name);
        law_each_server_is_waited_for_on_its_own(before, stall, pictures.last(), name);
    }
}

/// There is no limit to the whole: a server that each picture shows on its way, and
/// not silent for the whole window, is waited for as long as it takes.
pub proof fn law_while_it_moves_there_is_no_limit(
    servers: Seq<Seq<char>>,
    stall: u64,
    pictures: Seq<Seq<Server>>,
    name: Seq<char>,
)
    requires
        servers.contains(name),
        forall|i: int|
            0 <= i < pictures.len() ==> verdict(stall, #[trigger] pictures[i], name) is Indexing,
    ensures
        Wait::begun(servers).after(stall, pictures).pending.contains(name),
        !Wait::begun(servers).after(stall, pictures).done(),
    decreases pictures.len(),
{
    if pictures.len() > 0 {
        let shorter = pictures.drop_last();
        assert forall|i: int| 0 <= i < shorter.len() implies verdict(
            stall,
            #[trigger] shorter[i],
            name,
        ) is Indexing by {
            assert(shorter[i] == pictures[i]);
        }
        law_while_it_moves_there_is_no_limit(servers, stall, shorter, name);
        assert(pictures.last() == pictures[pictures.len() - 1]);
        law_each_server_is_waited_for_on_its_own(
            Wait::begun(servers).after(stall, shorter),
            stall,
            pictures.last(),
            name,
        );
    }
}

/// A wait that ends well ends with every server ready: each was seen in a state that
/// is not waited for.
pub proof fn law_a_good_end_is_every_server_ready(
    servers: Seq<Seq<char>>,
    stall: u64,
    pictures: Seq<Seq<Server>>,
    name: Seq<char>,
)
    requires
        servers.contains(name),
        Wait::begun(servers).after(stall, pictures).done(),
        Wait::begun(servers).after(stall, pictures).out.is_ok(),
    ensures
        exists|i: int|
            0 <= i < pictures.len() && verdict(stall, #[trigger] pictures[i], name) is Done,
{
    lemma_pending_ended_or_ready(servers, stall, pictures, name);
}

proof fn lemma_pending_ended_or_ready(
    servers: Seq<Seq<char>>,
    stall: u64,
    pictures: Seq<Seq<Server>>,
    name: Seq<char>,
)
    requires
        servers.contains(name),
    ensures
        ({
            let w = Wait::begun(servers).after(stall, pictures);
            ||| w.pending.contains(name)
            ||| w.out.concluded(name)
            ||| exists|i: int|
                0 <= i < pictures.len() && verdict(stall, #[trigger] pictures[i], name) is Done
        }),
    decreases pictures.len(),
{
    if pictures.len() > 0 {
        let shorter = pictures.drop_last();
        let before = Wait::begun(servers).after(stall, shorter);
        lemma_pending_ended_or_ready(servers, stall, shorter, name);
        law_an_outcome_is_what_the_pictures_said(before, stall, pictures.last(), name);
        law_each_server_is_waited_for_on_its_own(before, stall, pictures.last(), name);
        if exists|i: int|
            0 <= i < shorter.len() && verdict(stall, #[trigger] shorter[i], name) is Done {
            let i = choose|i: int|
                0 <= i < shorter.len() && verdict(stall, #[trigger] shorter[i], name) is Done;
            assert(pictures[i] == shorter[i]);
        }
        assert(pictures.last() == pictures[pictures.len() - 1]);
    }
}

/// The line of a server in `status` is the first one under its name, wherever it stands.
pub proof fn law_the_first_line_of_a_name_counts(
    before: Seq<Server>,
    s: Server,
    after: Seq<Server>,
)
    requires
        forall|i: int| 0 <= i < before.len() ==> (#[trigger] before[i]).name != s.name,
    ensures
        find(before.push(s) + after, s.name) == Some(s),
        find(before, s.name) is None,
    decreases before.len(),
{
    let all = before.push(s) + after;
    if before.len() == 0 {
        assert(all.first() == s);
    } else {
        let rest = before.drop_first();
        assert forall|i: int| 0 <= i < rest.len() implies (#[trigger] rest[i]).name != s.name by {
            assert(rest[i] == before[i + 1]);
        }
        law_the_first_line_of_a_name_counts(rest, s, after);
        assert(all.first() == before[0]);
        assert(all.drop_first() =~= rest.push(s) + after);
    }
}

/// What a picture says of a server is what its line says, for every window: on its way
/// it gets stuck if and only if it has been silent for the whole window, and else it is
/// waited for. No other number has a say.
pub proof fn law_a_server_gets_stuck_at_its_window(
    stall: u64,
    status: Seq<Server>,
    name: Seq<char>,
    s: Server,
)
    requires
        find(status, name) == Some(s),
    ensures
        (s.state == "STARTING"@ || s.state == "INDEXING"@) ==> {
            &&& verdict(stall, status, name) is Stalled <==> (s.since_progress matches Some(quiet)
                && quiet >= stall)
            &&& verdict(stall, status, name) is Indexing <==> !(s.since_progress matches Some(quiet)
                && quiet >= stall)
        },
        s.state == "FAILED"@ ==> verdict(stall, status, name) == Verdict::Failed(
            match s.error {
                Some(e) => e,
                None => "sin detalle"@,
            },
        ),
        s.state != "STARTING"@ && s.state != "INDEXING"@ && s.state != "FAILED"@ ==> verdict(
            stall,
            status,
            name,
        ) is Done,
{
    reveal_strlit("STARTING");
    reveal_strlit("INDEXING");
    reveal_strlit("FAILED");
    assert("STARTING"@[0] == 'S' && "INDEXING"@[0] == 'I' && "FAILED"@[0] == 'F');
}

/// A server is gone if and only if no line has its name.
pub proof fn law_who_has_no_line_is_gone(stall: u64, status: Seq<Server>, name: Seq<char>)
    ensures
        verdict(stall, status, name) is Gone <==> forall|i: int|
            0 <= i < status.len() ==> (#[trigger] status[i]).name != name,
        find(status, name) matches Some(s) ==> s.name == name && status.contains(s),
    decreases status.len(),
{
    if status.len() > 0 {
        let rest = status.drop_first();
        law_who_has_no_line_is_gone(stall, rest, name);
        if status.first().name == name {
            assert(status[0].name == name);
            assert(status.contains(status[0]));
        } else {
            assert forall|i: int| 0 <= i < rest.len() implies (#[trigger] rest[i]) == status[i
                + 1] by {}
            if forall|i: int| 0 <= i < rest.len() ==> (#[trigger] rest[i]).name != name {
                assert forall|i: int| 0 <= i < status.len() implies (
                #[trigger] status[i]).name != name by {
                    if i > 0 {
                        assert(rest[i - 1] == status[i]);
                    }
                }
            } else {
                let i = choose|i: int| 0 <= i < rest.len() && (#[trigger] rest[i]).name == name;
                assert(status[i + 1].name == name);
            }
            if find(rest, name) is Some {
                let s = find(rest, name)->0;
                let i = choose|i: int| 0 <= i < rest.len() && rest[i] == s;
                assert(status[i + 1] == s);
            }
        }
    }
}

/// A longer window never makes stuck a server that a shorter one waits for.
pub proof fn law_a_longer_window_waits_longer(
    short: u64,
    long: u64,
    status: Seq<Server>,
    name: Seq<char>,
)
    requires
        short <= long,
    ensures
        verdict(short, status, name) is Indexing ==> verdict(long, status, name) is Indexing,
        verdict(long, status, name) is Stalled ==> verdict(short, status, name) is Stalled,
        !(verdict(short, status, name) is Stalled) ==> verdict(long, status, name) == verdict(
            short,
            status,
            name,
        ),
{
    if find(status, name) is Some {
        let s = find(status, name)->0;
        law_a_server_gets_stuck_at_its_window(short, status, name, s);
        law_a_server_gets_stuck_at_its_window(long, status, name, s);
    }
}

/// Each name that is asked for goes where the picture puts it, behind those before it,
/// and nothing else is put anywhere.
pub proof fn law_each_name_goes_where_its_line_says(
    stall: u64,
    names: Seq<Seq<char>>,
    name: Seq<char>,
    status: Seq<Server>,
)
    ensures
        ({
            let before = picture(stall, names, status);
            let after = picture(stall, names.push(name), status);
            &&& match verdict(stall, status, name) {
                Verdict::Indexing => after == Picture {
                    indexing: before.indexing.push(name),
                    ..before
                },
                Verdict::Gone => after == Picture { gone: before.gone.push(name), ..before },
                Verdict::Stalled => after == Picture {
                    stalled: before.stalled.push(name),
                    ..before
                },
                Verdict::Failed(e) => after == Picture {
                    failed: before.failed.push((name, e)),
                    ..before
                },
                Verdict::Done => after == before,
            }
            &&& picture(stall, Seq::empty(), status) == (Picture {
                indexing: Seq::empty(),
                gone: Seq::empty(),
                failed: Seq::empty(),
                stalled: Seq::empty(),
            })
        }),
{
    reveal(Seq::filter);
    let all = names.push(name);
    assert(all.drop_last() =~= names);
    let told = |n: Seq<char>| (n, verdict(stall, status, n)->Failed_0);
    let fails = |n: Seq<char>| verdict(stall, status, n) is Failed;
    let failing = names.filter(fails);
    let before = picture(stall, names, status);
    let after = picture(stall, all, status);
    assert(failing.push(name).map_values(told) =~= failing.map_values(told).push(told(name)));
    assert(after.failed =~= if fails(name) {
        before.failed.push(told(name))
    } else {
        before.failed
    });
    let none = picture(stall, Seq::empty(), status);
    assert(none.failed =~= Seq::empty());
    match verdict(stall, status, name) {
        Verdict::Indexing => {
            assert(after =~= Picture { indexing: before.indexing.push(name), ..before });
        },
        Verdict::Gone => {
            assert(after =~= Picture { gone: before.gone.push(name), ..before });
        },
        Verdict::Stalled => {
            assert(after =~= Picture { stalled: before.stalled.push(name), ..before });
        },
        Verdict::Failed(e) => {
            assert(after =~= Picture { failed: before.failed.push((name, e)), ..before });
        },
        Verdict::Done => {
            assert(after =~= before);
        },
    }
}

/// The answer to one question about one server, with one line under its name: it is where
/// that line says and nowhere else.
pub proof fn law_one_server_is_assessed_by_its_line(
    stall: u64,
    servers: &[String],
    status: &[ServerState],
    r: Assessment,
    s: Server,
)
    requires
        call_ensures(assess, (stall, servers, status), r),
        servers@.len() == 1,
        find(servers_of(status@), servers@[0]@) == Some(s),
    ensures
        ({
            let name = seq![servers@[0]@];
            let none = Seq::<Seq<char>>::empty();
            let waited = s.state == "STARTING"@ || s.state == "INDEXING"@;
            let stuck = s.since_progress matches Some(quiet) && quiet >= stall;
            &&& r@.gone == none
            &&& r@.stalled == if waited && stuck {
                name
            } else {
                none
            }
            &&& r@.indexing == if waited && !stuck {
                name
            } else {
                none
            }
            &&& r@.failed == if s.state == "FAILED"@ {
                seq![
                    (
                        servers@[0]@,
                        match s.error {
                            Some(e) => e,
                            None => "sin detalle"@,
                        },
                    ),
                ]
            } else {
                Seq::empty()
            }
        }),
{
    let name = servers@[0]@;
    let st = servers_of(status@);
    let none = Seq::<Seq<char>>::empty();
    law_a_server_gets_stuck_at_its_window(stall, st, name, s);
    law_each_name_goes_where_its_line_says(stall, none, name, st);
    assert(text::texts(servers@) =~= none.push(name));
    assert(none.push(name) =~= seq![name]);
    reveal_strlit("STARTING");
    reveal_strlit("INDEXING");
    reveal_strlit("FAILED");
    assert("STARTING"@[0] == 'S' && "INDEXING"@[0] == 'I' && "FAILED"@[0] == 'F');
    let no_pairs = Seq::<(Seq<char>, Seq<char>)>::empty();
    assert(forall|p: (Seq<char>, Seq<char>)| no_pairs.push(p) =~= seq![p]);
}

/// A picture moves a wait by just what it says of the servers still waited for: those on
/// their way stay, and the others are put behind those that ended before.
pub proof fn law_a_picture_moves_a_wait(w: Wait, stall: u64, status: Seq<Server>)
    ensures
        ({
            let a = picture(stall, w.pending, status);
            let next = w.next(stall, status);
            &&& next.servers == w.servers
            &&& next.pending == a.indexing
            &&& next.out.gone == w.out.gone + a.gone
            &&& next.out.failed == w.out.failed + a.failed
            &&& next.out.stalled == w.out.stalled + a.stalled
            &&& next.done() <==> a.indexing.len() == 0
        }),
{
}

/// A wait begins for all the servers it was asked for, and for each of them.
pub proof fn law_a_wait_begins_for_all(servers: &[String], w: Waiting)
    requires
        call_ensures(Waiting::new, (servers,), w),
    ensures
        w@.pending == text::texts(servers@),
        w@.servers == text::texts(servers@),
        w@.out.is_ok(),
        w@.done() <==> servers@.len() == 0,
{
    assert(text::texts(servers@).len() == servers@.len());
}

/// What is shown of a picture: each line of a server that was asked for and has not ended
/// badly before, in its order, and no other.
pub proof fn law_each_line_that_matters_is_shown(w: Wait, status: Seq<Server>, s: Server)
    ensures
        w.shown(status.push(s)) == if w.servers.contains(s.name) && !w.out.concluded(s.name) {
            w.shown(status).push(s)
        } else {
            w.shown(status)
        },
        w.shown(Seq::empty()) == Seq::<Server>::empty(),
{
    reveal(Seq::filter);
    assert(status.push(s).drop_last() =~= status);
}

/// A wait ended well if and only if it ended badly for nobody.
pub proof fn law_a_good_end_is_without_bad_ones(out: Outcome)
    ensures
        out.is_ok() <==> forall|name: Seq<char>| !(#[trigger] out.concluded(name)),
{
    if !out.is_ok() {
        if out.gone.len() > 0 {
            assert(out.gone.contains(out.gone[0]));
            assert(out.concluded(out.gone[0]));
        } else if out.stalled.len() > 0 {
            assert(out.stalled.contains(out.stalled[0]));
            assert(out.concluded(out.stalled[0]));
        } else {
            assert(out.concluded(out.failed[0].0));
        }
    }
}

/// What a client reads of a line of `status`: what is under each name, and where there is
/// none, or it is something else, that it is not known.
pub proof fn law_what_is_read_of_a_line(m: Map<Seq<char>, json::Json>, n: u64)
    ensures
        ({
            let s = server_of(json::Json::Object(m));
            &&& m.dom().contains("name"@) && m["name"@] is Text ==> s.name == m["name"@]->Text_0
            &&& !(m.dom().contains("name"@) && m["name"@] is Text) ==> s.name == "?"@
            &&& m.dom().contains("state"@) && m["state"@] is Text ==> s.state == m["state"@]->Text_0
            &&& !(m.dom().contains("state"@) && m["state"@] is Text) ==> s.state == "?"@
            &&& m.dom().contains("error"@) && m["error"@] is Text ==> s.error == Some(
                m["error"@]->Text_0,
            )
            &&& !(m.dom().contains("error"@) && m["error"@] is Text) ==> s.error is None
            &&& s.since_progress == Some(n) <==> m.dom().contains("since_progress_ms"@)
                && m["since_progress_ms"@] == json::Json::Number(json::Number::Unsigned(n))
        }),
{
}

/// Every line of the answer to `status` is read, one for one.
pub proof fn law_every_line_of_status_is_read(
    v: Value,
    r: Result<Vec<ServerState>, String>,
    i: int,
)
    requires
        call_ensures(parse_status, (&v,), r),
    ensures
        r is Ok <==> json::json(v) is Array,
        r matches Err(e) ==> e@ == "`status` no contestó una lista: "@ + json::json_text(
            json::json(v),
        ),
        json::json(v) matches json::Json::Array(list) ==> {
            &&& r->Ok_0@.len() == list.len()
            &&& 0 <= i < list.len() ==> r->Ok_0@[i]@ == server_of(list[i])
        },
{
    if r is Ok {
        let list = json::json(v)->Array_0;
        assert(servers_of(r->Ok_0@).len() == r->Ok_0@.len());
        if 0 <= i < list.len() {
            assert(servers_of(r->Ok_0@)[i] == r->Ok_0@[i]@);
        }
    }
}

/// A server is waited for two minutes of silence where nobody says otherwise, and it is
/// looked at twice a second.
pub proof fn law_the_default_window_is_two_minutes()
    ensures
        STALL == 2 * 60 * 1000,
        POLL * 2 == 1000,
{
}

/// A question for `status` that was not answered hands its error on and leaves the wait
/// where it was, as does an answer that is no list; and one that is moves it by all the
/// lines it has.
pub proof fn law_what_comes_of_a_question_for_status<E>(
    w: &mut Waiting,
    stall: u64,
    answer: Result<Value, E>,
    r: Result<Vec<ServerState>, Broken<E>>,
)
    requires
        call_ensures(Waiting::hear::<E>, (w, stall, answer), r),
    ensures
        answer matches Err(e) ==> r == Err::<Vec<ServerState>, Broken<E>>(Broken::Unanswered(e))
            && final(w)@ == old(w)@,
        answer matches Ok(v) ==> !(json::json(v) is Array) ==> r is Err && r->Err_0 is NoList
            && final(w)@ == old(w)@,
        answer matches Ok(v) ==> (json::json(v) matches json::Json::Array(list) ==> {
            let status = list.map_values(|j: json::Json| server_of(j));
            &&& r is Ok
            &&& servers_of(r->Ok_0@) == old(w)@.shown(status)
            &&& final(w)@.servers == old(w)@.servers
            &&& final(w)@.pending == picture(stall, old(w)@.pending, status).indexing
            &&& final(w)@.out.gone == old(w)@.out.gone + picture(
                stall,
                old(w)@.pending,
                status,
            ).gone
            &&& final(w)@.out.failed == old(w)@.out.failed + picture(
                stall,
                old(w)@.pending,
                status,
            ).failed
            &&& final(w)@.out.stalled == old(w)@.out.stalled + picture(
                stall,
                old(w)@.pending,
                status,
            ).stalled
        }),
{
}

/// Looking at one more picture shows the part of it that matters and moves the wait by
/// what it says.
pub proof fn law_what_comes_of_a_picture(
    w: &mut Waiting,
    stall: u64,
    status: &[ServerState],
    seen: Vec<ServerState>,
)
    requires
        call_ensures(Waiting::observe, (w, stall, status), seen),
    ensures
        ({
            let a = picture(stall, old(w)@.pending, servers_of(status@));
            &&& servers_of(seen@) == old(w)@.shown(servers_of(status@))
            &&& final(w)@.servers == old(w)@.servers
            &&& final(w)@.pending == a.indexing
            &&& final(w)@.out.gone == old(w)@.out.gone + a.gone
            &&& final(w)@.out.failed == old(w)@.out.failed + a.failed
            &&& final(w)@.out.stalled == old(w)@.out.stalled + a.stalled
        }),
{
}

/// When a wait ended and how: it goes on while anyone is waited for, and it ended well if
/// nobody disappeared, failed or got stuck.
pub proof fn law_when_a_wait_ends(
    a: Assessment,
    settled: bool,
    w: Waiting,
    done: bool,
    so_far: &Waited,
    out: Waited,
    well: bool,
)
    requires
        call_ensures(Assessment::settled, (&a,), settled),
        call_ensures(Waiting::done, (&w,), done),
        call_ensures(Waiting::waited, (&w,), so_far),
        call_ensures(Waited::is_ok, (&out,), well),
    ensures
        settled <==> a.indexing@.len() == 0,
        done <==> w@.pending.len() == 0,
        so_far@ == w@.out,
        well <==> out.gone@.len() == 0 && out.failed@.len() == 0 && out.stalled@.len() == 0,
{
    assert(a@.indexing.len() == a.indexing@.len());
    assert(out@.gone.len() == out.gone@.len());
    assert(out@.failed.len() == out.failed@.len());
    assert(out@.stalled.len() == out.stalled@.len());
}

} // verus!
