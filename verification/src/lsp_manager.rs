//! The manager of the servers of a workspace: who is started, who is joined, and what
//! is told of each.

use crate::census;
use crate::census::{Admitted, Begun, Census, Heed, Running, Spot, Warming, ROUNDS};
use crate::cli;
use crate::ipc::QuestionError;
use crate::json;
use crate::language;
use crate::language::{Language, ProgressClock, Readiness, ReadinessCell};
use crate::lsp_client;
use crate::lsp_client::{abs_path, is_progress, readiness_from, Stderr};
use crate::path;
use crate::path::System;
use crate::text;
use crate::types::{LspStatus, WarmInfo};
use serde_json::Value;
use vstd::prelude::*;
use vstd::string::*;

verus! {

// ── the promise of a client ──────────────────────────────────────────────────

/// The promise of what a start gives. It keeps the result, and not only the success:
/// a start that failed has to reach all who waited for it, and not only who asked
/// first.
#[derive(Debug)]
pub struct LspSlot<T> {
    settled: Option<Result<T, String>>,
}

impl<T> LspSlot<T> {
    pub closed spec fn outcome(self) -> Option<Result<T, String>> {
        self.settled
    }

    /// A start that has not ended.
    pub fn pending() -> (r: LspSlot<T>)
        ensures
            r.outcome() is None,
    {
        LspSlot { settled: None }
    }

    /// The start ended, so or so, whether anyone listens or not.
    pub fn settle(&mut self, r: Result<T, String>)
        ensures
            final(self).outcome() == Some(r),
    {
        self.settled = Some(r);
    }

    /// What the start gave; nothing while it has to be waited for.
    pub fn get(&self) -> (r: Option<&Result<T, String>>)
        ensures
            match self.outcome() {
                Some(o) => r == Some(&o),
                None => r is None,
            },
    {
        match &self.settled {
            Some(o) => Some(o),
            None => None,
        }
    }

    /// What is already there, without waiting.
    pub fn ready(&self) -> (r: Option<&T>)
        ensures
            match self.outcome() {
                Some(Ok(c)) => r == Some(&c),
                _ => r is None,
            },
    {
        match &self.settled {
            Some(Ok(c)) => Some(c),
            _ => None,
        }
    }
}

/// What a server that is still indexing answers. It is no failure: it says to ask
/// again.
#[derive(Debug, Clone, Copy)]
pub struct NotReady {
    pub lang: &'static str,
}

impl NotReady {
    pub open spec fn text(self) -> Seq<char> {
        self.lang@
            + " todavía está indexando: volvé a preguntar. `lspd status` dice cuándo."@
    }

    pub fn to_text(&self) -> (r: String)
        ensures
            r@ == self.text(),
    {
        let mut r = self.lang.to_owned();
        r.append(" todavía está indexando: volvé a preguntar. `lspd status` dice cuándo.");
        r
    }
}

/// Refuses to ask a server that said that it cannot answer yet. One that does not
/// tell is asked: refusing it would leave it mute for ever.
pub fn ready_or_bail(lang: Language, readiness: Readiness) -> (r: Result<(), NotReady>)
    ensures
        match r {
            Ok(_) => readiness != Readiness::Indexing,
            Err(e) => readiness == Readiness::Indexing && e.lang@ == lang.server_name(),
        },
{
    match readiness {
        Readiness::Indexing => Err(NotReady { lang: lang.name() }),
        Readiness::Ready | Readiness::Running => Ok(()),
    }
}

/// Which languages to warm.
pub fn languages_to_warm(languages: &[String], root_files: &[String]) -> (r: Vec<String>)
    ensures
        text::texts(r@) == census::to_warm(text::texts(languages@), text::texts(root_files@)),
{
    let mut r: Vec<String> = Vec::new();
    if languages.len() == 0 {
        let langs = Language::from_markers(root_files);
        for i in 0..langs.len()
            invariant
                r@.len() == i,
                forall|j: int| 0 <= j < i ==> (#[trigger] r@[j])@ == langs@[j].id_text(),
        {
            r.push(langs[i].id().to_owned());
        }
        assert(text::texts(r@) =~= langs@.map_values(|l: Language| l.id_text()));
    } else {
        let ghost all = text::texts(languages@);
        assert(text::texts(r@) =~= census::each_once(all.take(0)));
        for i in 0..languages.len()
            invariant
                all == text::texts(languages@),
                text::texts(r@) == census::each_once(all.take(i as int)),
        {
            let ghost before = text::texts(r@);
            assert(all[i as int] == languages@[i as int]@);
            assert(all.take(i + 1).drop_last() =~= all.take(i as int));
            if !text::has(r.as_slice(), languages[i].as_str()) {
                r.push(languages[i].clone());
                assert(text::texts(r@) =~= before.push(languages@[i as int]@));
            }
        }
        assert(all.take(all.len() as int) =~= all);
    }
    r
}

/// What is decided of a question to a server.
#[derive(Debug, Clone, Copy)]
pub enum Asked {
    /// Ask it.
    Go,
    /// It cannot answer yet.
    NotReady(NotReady),
    /// It is not there.
    Gone,
}

/// What is said of a server that is not there any more.
pub open spec fn abandoned() -> Seq<char> {
    "el arranque del language server se abandonó"@
}

// ── the manager ──────────────────────────────────────────────────────────────

#[derive(Debug)]
struct Server {
    ticket: u64,
    up: bool,
    ended: bool,
    readiness: ReadinessCell,
    queries: u64,
    clock: ProgressClock,
}

#[derive(Debug)]
enum Place {
    Free,
    Failed(String),
    Taken(Server),
}

impl View for Server {
    type V = Running;

    closed spec fn view(&self) -> Running {
        Running {
            ticket: self.ticket,
            up: self.up,
            ended: self.ended,
            readiness: self.readiness@,
            queries: self.queries,
            progress: self.clock@,
        }
    }
}

impl View for Place {
    type V = Spot;

    closed spec fn view(&self) -> Spot {
        match *self {
            Place::Free => Spot::Free,
            Place::Failed(e) => Spot::Failed(e@),
            Place::Taken(s) => Spot::Taken(s@),
        }
    }
}

impl Server {
    fn born(lang: Language, ticket: u64, now: u64) -> (r: Server)
        ensures
            r@ == census::born(lang, ticket, now),
    {
        Server {
            ticket,
            up: false,
            ended: false,
            readiness: ReadinessCell::new(lang),
            queries: 0,
            clock: ProgressClock::new(now),
        }
    }

    fn hear(&mut self, method: &str, params: &Value, now: u64)
        ensures
            final(self)@ == census::heard(old(self)@, method@, json::json(*params), now),
    {
        if is_progress(method) {
            self.clock.touch(now);
        }
        match readiness_from(method, params) {
            Some(r) => self.readiness.set(r),
            None => {},
        }
    }

    fn count(&mut self)
        ensures
            final(self)@ == census::counted(old(self)@),
    {
        self.queries = self.queries.wrapping_add(1);
    }
}

fn rank_of(lang: Language) -> (r: usize)
    ensures
        r == census::rank(lang),
        r < 4,
{
    match lang {
        Language::Rust => 0,
        Language::Java => 1,
        Language::TypeScript => 2,
        Language::Python => 3,
    }
}

/// The servers of one workspace.
#[derive(Debug)]
pub struct LspManager {
    system: System,
    workspace: String,
    places: Vec<Place>,
    next: u64,
}

impl View for LspManager {
    type V = Census;

    closed spec fn view(&self) -> Census {
        Census {
            spots: Map::new(|l: Language| true, |l: Language| self.places@[census::rank(l)]@),
            next: self.next,
        }
    }
}

/// A start to be made: of the server of this language, with this executable. How it
/// goes is told under its ticket.
#[derive(Debug)]
pub struct Start {
    pub ticket: u64,
    pub lang: Language,
    pub exe: String,
}

/// What to do about a question on a language.
#[derive(Debug)]
pub enum Admission {
    /// Its server is there, or on its way: wait for that one.
    Join { ticket: u64 },
    /// Start one.
    Start(Start),
    /// There is no server to ask, and this is why.
    Refused { error: String },
}

impl Admission {
    /// What is decided, for a question on this language, if it is on one.
    pub open spec fn says(self, lang: Option<Language>, a: Admitted) -> bool {
        match self {
            Admission::Join { ticket } => a == Admitted::Join(ticket),
            Admission::Start(s) => a == Admitted::Start(s.ticket, s.exe@) && lang == Some(
                s.lang,
            ),
            Admission::Refused { error } => a == Admitted::Refused(error@),
        }
    }
}

/// What a result of strings says.
pub open spec fn found(exe: Result<String, String>) -> Result<Seq<char>, Seq<char>> {
    match exe {
        Ok(x) => Ok(x@),
        Err(e) => Err(e@),
    }
}

impl LspManager {
    /// Each language has its place, and each server its ticket.
    pub closed spec fn wf(self) -> bool {
        self.places@.len() == 4 && self@.wf()
    }

    /// The root of the workspace.
    pub closed spec fn root(self) -> Seq<char> {
        self.workspace@
    }

    /// The system that it runs on, which says how paths are read.
    pub closed spec fn system(self) -> System {
        self.system
    }

    /// What is valid of a manager is valid of its census.
    pub proof fn lemma_wf(self)
        requires
            self.wf(),
        ensures
            self@.wf(),
    {
    }

    /// The manager of a workspace in which nothing runs.
    pub fn new(system: System, workspace: &str) -> (r: LspManager)
        ensures
            r.wf(),
            r.system() == system,
            r.root() == workspace@,
            r@ == Census::fresh(),
    {
        let mut places: Vec<Place> = Vec::new();
        places.push(Place::Free);
        places.push(Place::Free);
        places.push(Place::Free);
        places.push(Place::Free);
        let r = LspManager { system, workspace: workspace.to_owned(), places, next: 0 };
        proof {
            census::lemma_rank();
            assert forall|l: Language| (#[trigger] r@.spots[l]) == Spot::Free by {
                assert(0 <= census::rank(l) < 4);
            }
            assert(r@ =~= Census::fresh());
        }
        r
    }

    pub fn workspace(&self) -> (r: &str)
        ensures
            r@ == self.root(),
    {
        self.workspace.as_str()
    }

    /// A question about a language, given the executable that attends it.
    ///
    /// The place is taken here, before the handshake: who comes second finds it taken,
    /// and waits for that same start.
    pub fn welcome(&mut self, lang: Language, exe: Result<String, String>, now: u64) -> (r: Admission)
        requires
            old(self).wf(),
        ensures
            final(self).wf(),
            final(self).root() == old(self).root(),
            final(self).system() == old(self).system(),
            final(self)@ == old(self)@.admitting(lang, found(exe), now).0,
            r.says(Some(lang), old(self)@.admitting(lang, found(exe), now).1),
    {
        let ghost before = self@;
        let i: usize = rank_of(lang);
        proof {
            census::lemma_rank();
        }
        assert(before.spots[lang] == self.places@[i as int]@);
        match &self.places[i] {
            Place::Taken(s) => {
                return Admission::Join { ticket: s.ticket };
            },
            _ => {},
        }
        match exe {
            Err(error) => Admission::Refused { error },
            Ok(exe) => {
                let ticket: u64 = 4 * self.next + i as u64;
                self.places.set(i, Place::Taken(Server::born(lang, ticket, now)));
                self.next = if self.next + 1 == ROUNDS {
                    0
                } else {
                    self.next + 1
                };
                proof {
                    let after = before.admitting(lang, Ok(exe@), now).0;
                    assert(self@ =~= after);
                    census::lemma_starting_keeps(before, lang, Ok(exe@), now);
                }
                Admission::Start(Start { ticket, lang, exe })
            },
        }
    }

    /// A question about a file, given the names that are in `PATH`: it goes to the
    /// server of the language of its extension.
    pub fn client_for(&mut self, file: &str, in_path: &[String], now: u64) -> (r: Admission)
        requires
            old(self).wf(),
        ensures
            final(self).wf(),
            final(self).root() == old(self).root(),
            final(self).system() == old(self).system(),
            final(self)@ == old(self)@.questioned(
                old(self).system(),
                file@,
                text::texts(in_path@),
                now,
            ).0,
            r.says(
                census::language_of(old(self).system(), file@),
                old(self)@.questioned(
                    old(self).system(),
                    file@,
                    text::texts(in_path@),
                    now,
                ).1,
            ),
    {
        let ext = match path::extension_of(self.system, file) {
            Some(ext) => ext,
            None => {
                let none = String::new();
                assert(none@ =~= Seq::<char>::empty());
                none
            },
        };
        match Language::from_extension(ext.as_str()) {
            None => {
                let mut error = "no LSP for extension .".to_owned();
                error.append(ext.as_str());
                Admission::Refused { error }
            },
            Some(lang) => {
                let exe = lang.find_executable(in_path);
                self.welcome(lang, exe, now)
            },
        }
    }

    fn holder_of(&self, ticket: u64) -> (r: Option<Language>)
        requires
            self.wf(),
        ensures
            r == self@.holder(ticket),
    {
        proof {
            census::lemma_rank();
        }
        for i in 0..4usize
            invariant
                self.wf(),
                forall|j: int|
                    0 <= j < i ==> !self@.holds(#[trigger] language::table()[j], ticket),
        {
            let lang = Language::ALL[i];
            proof {
                census::lemma_rank();
                assert(lang == language::table()[i as int]);
                assert(self@.spots[lang] == self.places@[i as int]@);
            }
            match &self.places[i] {
                Place::Taken(s) => if s.ticket == ticket {
                    proof {
                        let t = language::table();
                        assert(t[0] == Language::Rust && t[1] == Language::Java && t[2]
                            == Language::TypeScript && t[3] == Language::Python);
                    }
                    return Some(lang);
                },
                _ => {},
            }
        }
        proof {
            let t = language::table();
            assert(t[0] == Language::Rust && t[1] == Language::Java && t[2] == Language::TypeScript
                && t[3] == Language::Python);
        }
        None
    }

    /// Whether the server of a start is there, up or on its way.
    pub fn runs(&self, ticket: u64) -> (r: bool)
        requires
            self.wf(),
        ensures
            r == self@.tickets().contains(ticket),
    {
        proof {
            census::lemma_holder(self@, ticket);
        }
        self.holder_of(ticket).is_some()
    }

    /// Puts a place in the stead of another.
    fn put(&mut self, lang: Language, place: Place)
        requires
            old(self).wf(),
            place@ matches Spot::Taken(s) ==> old(self)@.holds(lang, s.ticket),
        ensures
            final(self).wf(),
            final(self).root() == old(self).root(),
            final(self).system() == old(self).system(),
            final(self)@ == old(self)@.with(lang, place@),
    {
        let ghost before = self@;
        let i: usize = rank_of(lang);
        self.places.set(i, place);
        proof {
            census::lemma_rank();
            assert(self@ =~= before.with(lang, place@));
            census::lemma_with_keeps(before, lang, place@);
        }
    }

    /// The handshake of a start ended: well, or with this error, behind which come the
    /// lines that the server wrote last. A start that failed leaves the place free, and
    /// says why until another takes it. Of a ticket that nobody holds nothing is done:
    /// its server was already let go.
    pub fn settle(&mut self, ticket: u64, outcome: Result<(), String>, stderr: &Stderr)
        requires
            old(self).wf(),
        ensures
            final(self).wf(),
            final(self).root() == old(self).root(),
            final(self).system() == old(self).system(),
            final(self)@ == old(self)@.settling(
                ticket,
                match outcome {
                    Ok(_) => Ok(()),
                    Err(e) => Err(text::joined(seq![e@] + stderr@, "\n"@)),
                },
            ),
    {
        let lang = match self.holder_of(ticket) {
            None => {
                return ;
            },
            Some(lang) => lang,
        };
        let ghost before = self@;
        let i: usize = rank_of(lang);
        proof {
            census::lemma_rank();
            assert(before.spots[lang] == self.places@[i as int]@);
        }
        match &self.places[i] {
            Place::Taken(s) => if s.up {
                assert(before.with(lang, before.spots[lang]) =~= before);
                return ;
            },
            _ => {},
        }
        match outcome {
            Err(e) => {
                let why = stderr.explain(e.as_str());
                self.put(lang, Place::Failed(why));
            },
            Ok(_) => {
                let mut ended = false;
                match &mut self.places[i] {
                    Place::Taken(s) => {
                        ended = s.ended;
                        if !s.ended {
                            s.up = true;
                        }
                    },
                    _ => {},
                }
                if ended {
                    assert(self@ =~= before);
                    self.put(lang, Place::Free);
                } else {
                    proof {
                        let spot = Spot::Taken(Running { up: true, ..before.spots[lang]->Taken_0 });
                        assert(self@ =~= before.with(lang, spot));
                        census::lemma_with_keeps(before, lang, spot);
                    }
                }
            },
        }
    }

    /// The process of a server ended. After its handshake, that frees its place; before,
    /// the place stays taken until the handshake ends too, and says how.
    pub fn died(&mut self, ticket: u64)
        requires
            old(self).wf(),
        ensures
            final(self).wf(),
            final(self).root() == old(self).root(),
            final(self).system() == old(self).system(),
            final(self)@ == old(self)@.burying(ticket),
    {
        let lang = match self.holder_of(ticket) {
            None => {
                return ;
            },
            Some(lang) => lang,
        };
        let ghost before = self@;
        let i: usize = rank_of(lang);
        proof {
            census::lemma_rank();
            assert(before.spots[lang] == self.places@[i as int]@);
        }
        let mut up = false;
        match &mut self.places[i] {
            Place::Taken(s) => {
                up = s.up;
                if !s.up {
                    s.ended = true;
                }
            },
            _ => {},
        }
        if up {
            assert(self@ =~= before);
            self.put(lang, Place::Free);
        } else {
            proof {
                let spot = Spot::Taken(Running { ended: true, ..before.spots[lang]->Taken_0 });
                assert(self@ =~= before.with(lang, spot));
                census::lemma_with_keeps(before, lang, spot);
            }
        }
    }

    /// A server sent a notification: what it says of its readiness is taken, and whether
    /// it shows that the server moves is noted.
    pub fn signal(&mut self, ticket: u64, method: &str, params: &Value, now: u64)
        requires
            old(self).wf(),
        ensures
            final(self).wf(),
            final(self).root() == old(self).root(),
            final(self).system() == old(self).system(),
            final(self)@ == old(self)@.hearing(ticket, method@, json::json(*params), now),
    {
        let lang = match self.holder_of(ticket) {
            None => {
                return ;
            },
            Some(lang) => lang,
        };
        let ghost before = self@;
        let i: usize = rank_of(lang);
        proof {
            census::lemma_rank();
            assert(before.spots[lang] == self.places@[i as int]@);
        }
        match &mut self.places[i] {
            Place::Taken(s) => s.hear(method, params, now),
            _ => {},
        }
        proof {
            let spot = Spot::Taken(
                census::heard(before.spots[lang]->Taken_0, method@, json::json(*params), now),
            );
            assert(self@ =~= before.with(lang, spot));
            census::lemma_with_keeps(before, lang, spot);
        }
    }

    /// A question to a server. It is counted, also where it is answered that the server
    /// cannot answer yet: that is what the count is there to show.
    pub fn ask(&mut self, ticket: u64) -> (r: Asked)
        requires
            old(self).wf(),
        ensures
            final(self).wf(),
            final(self).root() == old(self).root(),
            final(self).system() == old(self).system(),
            final(self)@ == old(self)@.counting(ticket),
            match old(self)@.asking(ticket) {
                Heed::Go => r is Go,
                Heed::NotReady(l) => r matches Asked::NotReady(e) && e.lang@ == l.server_name(),
                Heed::Gone => r is Gone,
            },
    {
        let lang = match self.holder_of(ticket) {
            None => {
                return Asked::Gone;
            },
            Some(lang) => lang,
        };
        let ghost before = self@;
        let i: usize = rank_of(lang);
        proof {
            census::lemma_rank();
            assert(before.spots[lang] == self.places@[i as int]@);
        }
        let mut up = false;
        let mut readiness = Readiness::Running;
        match &mut self.places[i] {
            Place::Taken(s) => {
                up = s.up;
                readiness = s.readiness.get();
                if s.up {
                    s.count();
                }
            },
            _ => {},
        }
        if !up {
            assert(self@ =~= before);
            return Asked::Gone;
        }
        proof {
            let spot = Spot::Taken(census::counted(before.spots[lang]->Taken_0));
            assert(self@ =~= before.with(lang, spot));
            census::lemma_with_keeps(before, lang, spot);
        }
        match ready_or_bail(lang, readiness) {
            Ok(_) => Asked::Go,
            Err(e) => Asked::NotReady(e),
        }
    }

    /// A question to a server about a file: the path to ask about, or why it is not
    /// asked.
    pub fn inquire(&mut self, ticket: u64, file: &str) -> (r: Result<String, QuestionError>)
        requires
            old(self).wf(),
        ensures
            final(self).wf(),
            final(self).root() == old(self).root(),
            final(self).system() == old(self).system(),
            final(self)@ == old(self)@.counting(ticket),
            match old(self)@.asking(ticket) {
                Heed::Go => r matches Ok(abs) && abs@ == lsp_client::absolute_path(
                    old(self).system(),
                    old(self).root(),
                    file@,
                ),
                Heed::NotReady(l) => r matches Err(QuestionError::NotReady(e)) && e.lang@
                    == l.server_name(),
                Heed::Gone => r matches Err(QuestionError::Failed(e)) && e@ == abandoned(),
            },
    {
        match self.ask(ticket) {
            Asked::Go => Ok(abs_path(self.system, file, self.workspace.as_str())),
            Asked::NotReady(e) => Err(QuestionError::NotReady(e)),
            Asked::Gone => Err(
                QuestionError::Failed("el arranque del language server se abandonó".to_owned()),
            ),
        }
    }

    fn line(&self, lang: Language, now: u64) -> (r: Option<LspStatus>)
        requires
            self.wf(),
        ensures
            match r {
                Some(s) => census::line_of(lang, self@.spots[lang], now) == Some(s@),
                None => census::line_of(lang, self@.spots[lang], now) is None,
            },
    {
        let i: usize = rank_of(lang);
        proof {
            census::lemma_rank();
            assert(self@.spots[lang] == self.places@[i as int]@);
        }
        match &self.places[i] {
            Place::Free => None,
            Place::Failed(e) => Some(
                LspStatus {
                    name: lang.name().to_owned(),
                    state: "FAILED".to_owned(),
                    queries: 0,
                    since_progress_ms: 0,
                    error: Some(e.clone()),
                },
            ),
            Place::Taken(s) => {
                let state = if s.up {
                    s.readiness.get().as_str()
                } else {
                    "STARTING"
                };
                Some(
                    LspStatus {
                        name: lang.name().to_owned(),
                        state: state.to_owned(),
                        queries: s.queries,
                        since_progress_ms: s.clock.since(now),
                        error: None,
                    },
                )
            },
        }
    }

    /// What runs, and what failed to: it waits for nobody.
    pub fn status(&self, now: u64) -> (r: Vec<LspStatus>)
        requires
            self.wf(),
        ensures
            census::lines_of(r@) == self@.status(language::table(), now),
    {
        let mut r: Vec<LspStatus> = Vec::new();
        let ghost t = language::table();
        assert(census::lines_of(r@) =~= self@.status(t.take(0), now));
        for i in 0..4usize
            invariant
                self.wf(),
                t == language::table(),
                census::lines_of(r@) == self@.status(t.take(i as int), now),
        {
            let ghost before = census::lines_of(r@);
            let lang = Language::ALL[i];
            assert(lang == t[i as int]);
            assert(t.take(i + 1).drop_last() =~= t.take(i as int));
            match self.line(lang, now) {
                Some(s) => {
                    r.push(s);
                    assert(census::lines_of(r@) =~= before.push(s@));
                },
                None => {},
            }
        }
        assert(t.take(4) =~= t);
        r
    }

    /// Starts the servers of these languages that are not there, without waiting for
    /// any handshake. With no language asked for, those that the files in the root of
    /// the workspace say. One that cannot start is an error of that language, and
    /// leaves its place as it was.
    pub fn warm(
        &mut self,
        languages: &[String],
        root_files: &[String],
        in_path: &[String],
        now: u64,
    ) -> (r: (Vec<WarmInfo>, Vec<Start>))
        requires
            old(self).wf(),
        ensures
            final(self).wf(),
            final(self).root() == old(self).root(),
            final(self).system() == old(self).system(),
            ({
                let w = old(self)@.warming(
                    census::to_warm(text::texts(languages@), text::texts(root_files@)),
                    text::texts(in_path@),
                    now,
                );
                &&& final(self)@ == w.census
                &&& census::infos_of(r.0@) == w.infos
                &&& starts_of(r.1@) == w.starts
            }),
    {
        let names = languages_to_warm(languages, root_files);
        let ghost all = text::texts(names@);
        let ghost here = text::texts(in_path@);
        let ghost first = self@;
        let mut infos: Vec<WarmInfo> = Vec::new();
        let mut starts: Vec<Start> = Vec::new();
        proof {
            assert(census::infos_of(infos@) =~= Seq::empty());
            assert(starts_of(starts@) =~= Seq::empty());
        }
        for i in 0..names.len()
            invariant
                all == text::texts(names@),
                here == text::texts(in_path@),
                self.wf(),
                self.root() == old(self).root(),
                self.system() == old(self).system(),
                first == old(self)@,
                first.warming(all.take(i as int), here, now) == (Warming {
                    census: self@,
                    infos: census::infos_of(infos@),
                    starts: starts_of(starts@),
                }),
        {
            let ghost before = self@;
            let ghost said = census::infos_of(infos@);
            let ghost begun = starts_of(starts@);
            proof {
                assert(all[i as int] == names@[i as int]@);
                assert(all.take(i + 1).drop_last() =~= all.take(i as int));
            }
            let name = names[i].as_str();
            match Language::from_name(name) {
                None => {
                    let error = match cli::language_name(name) {
                        Err(e) => Some(e),
                        Ok(_) => None,
                    };
                    let info = WarmInfo { name: name.to_owned(), error };
                    infos.push(info);
                    assert(census::infos_of(infos@) =~= said.push(info@));
                },
                Some(lang) => {
                    let exe = lang.find_executable(in_path);
                    let mut error: Option<String> = None;
                    match self.welcome(lang, exe, now) {
                        Admission::Join { .. } => {},
                        Admission::Start(s) => {
                            starts.push(s);
                            assert(starts_of(starts@) =~= begun.push(
                                Begun { ticket: s.ticket, lang: s.lang, exe: s.exe@ },
                            ));
                        },
                        Admission::Refused { error: e } => {
                            error = Some(e);
                        },
                    }
                    let info = WarmInfo { name: lang.name().to_owned(), error };
                    infos.push(info);
                    assert(census::infos_of(infos@) =~= said.push(info@));
                },
            }
        }
        assert(all.take(all.len() as int) =~= all);
        (infos, starts)
    }

    /// Lets go of every server, and says which they were: those on their way are waited
    /// for, and then each is shut down. What comes later of any of them finds no place,
    /// so that none is said to have failed for being shut down.
    pub fn shutdown(&mut self) -> (r: Vec<u64>)
        requires
            old(self).wf(),
        ensures
            final(self).wf(),
            final(self).root() == old(self).root(),
            final(self).system() == old(self).system(),
            final(self)@ == old(self)@.emptied(),
            r@ == old(self)@.running(language::table()),
    {
        let ghost before = self@;
        let ghost t = language::table();
        let mut r: Vec<u64> = Vec::new();
        assert(r@ =~= before.running(t.take(0)));
        for i in 0..4usize
            invariant
                before == old(self)@,
                self.wf(),
                self.root() == old(self).root(),
                self.system() == old(self).system(),
                t == language::table(),
                self@.next == before.next,
                forall|l: Language|
                    census::rank(l) < i ==> (#[trigger] self@.spots[l]) == Spot::Free,
                forall|l: Language|
                    census::rank(l) >= i ==> (#[trigger] self@.spots[l]) == before.spots[l],
                r@ == before.running(t.take(i as int)),
        {
            let lang = Language::ALL[i];
            proof {
                census::lemma_rank();
                assert(lang == t[i as int]);
                assert(t.take(i + 1).drop_last() =~= t.take(i as int));
                assert(self@.spots[lang] == self.places@[i as int]@);
            }
            match &self.places[i] {
                Place::Taken(s) => r.push(s.ticket),
                _ => {},
            }
            self.put(lang, Place::Free);
            assert forall|l: Language| census::rank(l) < i + 1 implies (#[trigger] self@.spots[l])
                == Spot::Free by {
                if census::rank(l) == i {
                    assert(l == lang);
                }
            }
        }
        proof {
            census::lemma_rank();
            assert forall|l: Language| (#[trigger] self@.spots[l]) == Spot::Free by {
                assert(census::rank(l) < 4);
            }
            assert(self@ =~= before.emptied());
            assert(t.take(4) =~= t);
        }
        r
    }
}

/// What each start of a list is.
pub open spec fn starts_of(v: Seq<Start>) -> Seq<Begun> {
    v.map_values(|s: Start| Begun { ticket: s.ticket, lang: s.lang, exe: s.exe@ })
}

// ── what the manager promises ────────────────────────────────────────────────

/// A server that said that it is indexing is not asked, and every other is: also one that
/// does not tell.
pub proof fn law_only_who_indexes_is_not_asked(
    lang: Language,
    readiness: Readiness,
    r: Result<(), NotReady>,
)
    requires
        call_ensures(ready_or_bail, (lang, readiness), r),
    ensures
        r is Err <==> readiness == Readiness::Indexing,
        r matches Err(e) ==> e.lang@ == lang.server_name(),
{
}

/// What a start gave reaches all who look, as it is; and what is ready is a client, only
/// where the start gave one.
pub proof fn law_a_promise_keeps_its_result<T>(
    slot: LspSlot<T>,
    seen: Option<&Result<T, String>>,
    ready: Option<&T>,
)
    requires
        call_ensures(LspSlot::<T>::get, (&slot,), seen),
        call_ensures(LspSlot::<T>::ready, (&slot,), ready),
    ensures
        seen is Some <==> slot.outcome() is Some,
        seen matches Some(o) ==> slot.outcome() == Some(*o),
        ready is Some <==> slot.outcome() matches Some(Ok(_)),
        ready matches Some(c) ==> slot.outcome() == Some(Ok::<T, String>(*c)),
{
}

/// The languages to warm are those asked for, each once; with none asked for, those that
/// the root of the workspace is marked for.
pub proof fn law_what_is_asked_for_is_warmed(
    languages: &[String],
    root_files: &[String],
    r: Vec<String>,
    lang: Language,
    name: Seq<char>,
)
    requires
        call_ensures(languages_to_warm, (languages, root_files), r),
    ensures
        text::texts(r@).no_duplicates(),
        languages@.len() > 0 ==> (text::texts(r@).contains(name) <==> text::texts(
            languages@,
        ).contains(name)),
        languages@.len() == 0 ==> (text::texts(r@).contains(lang.id_text()) <==> lang.marked_by(
            text::texts(root_files@),
        )),
{
    let asked = text::texts(languages@);
    assert(asked.len() == languages@.len());
    census::law_which_languages_are_warmed(asked, text::texts(root_files@), name, lang);
    if languages@.len() == 0 {
        assert(asked =~= Seq::empty());
    }
}

/// A question about a file goes to the server of the language that its extension says,
/// whatever its directory and with dots in its stem or not. In a manager where nothing
/// runs, that server is started with the executable that attends it; without one, or with
/// an extension of no language, the question is refused, and nothing changes.
pub proof fn law_a_file_goes_to_the_server_of_its_extension(
    m: &mut LspManager,
    dir: Seq<char>,
    c: char,
    stem: Seq<char>,
    ext: Seq<char>,
    file: &str,
    in_path: &[String],
    now: u64,
    r: Admission,
)
    requires
        call_ensures(LspManager::client_for, (m, file, in_path, now), r),
        old(m)@ == Census::fresh(),
        file@ == dir.push(c) + (stem.push('.') + ext) || file@ == stem.push('.') + ext,
        path::is_simple(old(m).system(), dir),
        path::separates(old(m).system(), c),
        path::is_piece(old(m).system(), stem.push('.') + ext),
        stem.len() > 0,
        !ext.contains('.'),
        !(stem == seq!['.'] && ext.len() == 0),
    ensures
        ({
            let lang = if ext == "rs"@ {
                Some(Language::Rust)
            } else if ext == "py"@ {
                Some(Language::Python)
            } else if ext == "java"@ {
                Some(Language::Java)
            } else if ext == "ts"@ || ext == "tsx"@ || ext == "js"@ || ext == "jsx"@ {
                Some(Language::TypeScript)
            } else {
                None
            };
            match lang {
                None => r matches Admission::Refused { error } && final(m)@ == old(m)@ && error@
                    == "no LSP for extension ."@ + ext,
                Some(l) => match l.executable(text::texts(in_path@)) {
                    Ok(exe) => r matches Admission::Start(s) && s.lang == l && s.exe@ == exe
                        && final(m)@.holds(l, s.ticket),
                    Err(e) => r matches Admission::Refused { error } && error@ == e && final(m)@
                        == old(m)@,
                },
            }
        }),
{
    census::law_the_extension_says_the_language(old(m).system(), dir, c, stem, ext);
    path::law_an_extension_follows_the_last_dot(old(m).system(), dir, c, stem, ext);
}

/// Two questions about files of one extension get one server: where it is there, both
/// join it, whatever is in `PATH`.
pub proof fn law_who_has_a_server_joins_it(
    m: &mut LspManager,
    lang: Language,
    ticket: u64,
    file: &str,
    in_path: &[String],
    now: u64,
    r: Admission,
)
    requires
        call_ensures(LspManager::client_for, (m, file, in_path, now), r),
        census::language_of(old(m).system(), file@) == Some(lang),
        old(m)@.holds(lang, ticket),
    ensures
        r matches Admission::Join { ticket: t } && t == ticket,
        final(m)@ == old(m)@,
{
}

/// A start that failed is told with all that it said: the error, and below it the lines
/// that the server wrote last.
pub proof fn law_a_failure_is_kept_with_its_lines(
    m: &mut LspManager,
    lang: Language,
    ticket: u64,
    error: String,
    stderr: Stderr,
    r: (),
    now: u64,
)
    requires
        call_ensures(
            LspManager::settle,
            (m, ticket, Err::<(), String>(error), &stderr),
            r,
        ),
        old(m)@.wf(),
        census::is_starting(old(m)@, lang, ticket),
    ensures
        ({
            let why = if stderr@.len() == 0 {
                error@
            } else {
                error@ + seq!['\n'] + text::joined(stderr@, seq!['\n'])
            };
            &&& final(m)@.spots[lang] == Spot::Failed(why)
            &&& census::line_of(lang, final(m)@.spots[lang], now) matches Some(line) && line.state
                == "FAILED"@ && line.error == Some(why) && line.name == lang.server_name()
                && line.queries == 0
            &&& forall|other: Language|
                other != lang ==> (#[trigger] final(m)@.spots[other]) == old(m)@.spots[other]
        }),
{
    reveal_strlit("\n");
    assert("\n"@ =~= seq!['\n']);
    census::lemma_holder(old(m)@, ticket);
    text::law_joining_puts_every_piece(seq![error@], stderr@, error@, "\n"@);
    if stderr@.len() == 0 {
        assert(seq![error@] + stderr@ =~= seq![error@]);
    }
}

/// A start that ended well is up, and from then on it is asked as its readiness says.
pub proof fn law_a_start_that_ended_well_is_up(
    m: &mut LspManager,
    lang: Language,
    ticket: u64,
    stderr: Stderr,
    r: (),
)
    requires
        call_ensures(LspManager::settle, (m, ticket, Ok::<(), String>(()), &stderr), r),
        old(m)@.wf(),
        census::is_starting(old(m)@, lang, ticket),
        !old(m)@.spots[lang]->Taken_0.ended,
    ensures
        final(m)@.spots[lang] == Spot::Taken(Running { up: true, ..old(m)@.spots[lang]->Taken_0 }),
        forall|other: Language|
            other != lang ==> (#[trigger] final(m)@.spots[other]) == old(m)@.spots[other],
{
    census::lemma_holder(old(m)@, ticket);
}

/// A server that is up and whose process ends leaves its place free; one that is starting
/// keeps it until its handshake is told.
pub proof fn law_what_dies_leaves(m: &mut LspManager, lang: Language, ticket: u64, r: ())
    requires
        call_ensures(LspManager::died, (m, ticket), r),
        old(m)@.wf(),
        old(m)@.holds(lang, ticket),
    ensures
        old(m)@.spots[lang]->Taken_0.up ==> final(m)@.spots[lang] == Spot::Free,
        !old(m)@.spots[lang]->Taken_0.up ==> final(m)@.holds(lang, ticket)
            && final(m)@.spots[lang]->Taken_0.ended,
        forall|other: Language|
            other != lang ==> (#[trigger] final(m)@.spots[other]) == old(m)@.spots[other],
{
    census::lemma_holder(old(m)@, ticket);
}

/// What a notification says of its server is kept: its readiness, if it says any, and that
/// it moved, if it is a sign of it.
pub proof fn law_what_a_server_says_is_kept(
    m: &mut LspManager,
    lang: Language,
    ticket: u64,
    method: &str,
    params: Value,
    now: u64,
    r: (),
)
    requires
        call_ensures(LspManager::signal, (m, ticket, method, &params, now), r),
        old(m)@.wf(),
        old(m)@.holds(lang, ticket),
    ensures
        ({
            let was = old(m)@.spots[lang]->Taken_0;
            let is = final(m)@.spots[lang]->Taken_0;
            &&& final(m)@.holds(lang, ticket) && is.up == was.up && is.queries == was.queries
            &&& is.readiness == match lsp_client::readiness_said(method@, json::json(params)) {
                Some(said) => said,
                None => was.readiness,
            }
            &&& is.progress == if method@ == "$/progress"@ || method@
                == "experimental/serverStatus"@ || method@ == "language/status"@ {
                now
            } else {
                was.progress
            }
        }),
{
    census::lemma_holder(old(m)@, ticket);
}

/// A question to a server is counted and is asked about the whole path of its file; one to
/// a server that indexes is counted too and is told so; and of one that is not up there is
/// nobody to ask.
pub proof fn law_what_comes_of_a_question(
    m: &mut LspManager,
    lang: Language,
    ticket: u64,
    file: &str,
    r: Result<String, QuestionError>,
)
    requires
        call_ensures(LspManager::inquire, (m, ticket, file), r),
        old(m)@.wf(),
        old(m)@.holds(lang, ticket),
    ensures
        ({
            let s = old(m)@.spots[lang]->Taken_0;
            &&& r is Ok <==> s.up && s.readiness != Readiness::Indexing
            &&& r matches Ok(abs) ==> abs@ == lsp_client::absolute_path(
                old(m).system(),
                old(m).root(),
                file@,
            )
            &&& s.up && s.readiness == Readiness::Indexing ==> (r matches Err(
                QuestionError::NotReady(e),
            ) && e.lang@ == lang.server_name())
            &&& !s.up ==> (r matches Err(QuestionError::Failed(e)) && e@
                == "el arranque del language server se abandonó"@)
            &&& s.up && s.queries < u64::MAX ==> final(m)@.spots[lang]->Taken_0.queries == s.queries
                + 1
        }),
{
    census::lemma_holder(old(m)@, ticket);
}

/// Warming says something of each language it was asked for, and starts the servers of
/// those that are missing and can start, and no others.
pub proof fn law_what_comes_of_warming(
    m: &mut LspManager,
    languages: &[String],
    root_files: &[String],
    in_path: &[String],
    now: u64,
    r: (Vec<WarmInfo>, Vec<Start>),
    lang: Language,
)
    requires
        call_ensures(LspManager::warm, (m, languages, root_files, in_path, now), r),
    ensures
        ({
            let names = census::to_warm(text::texts(languages@), text::texts(root_files@));
            let missing = names.contains(lang.id_text()) && !(old(m)@.spots[lang] is Taken)
                && lang.executable(text::texts(in_path@)) is Ok;
            &&& r.0@.len() == names.len()
            &&& missing ==> final(m)@.spots[lang] is Taken
            &&& !missing ==> final(m)@.spots[lang] == old(m)@.spots[lang]
            &&& missing <==> exists|i: int|
                0 <= i < r.1@.len() && (#[trigger] r.1@[i]).lang == lang
            &&& r.1@.len() <= 4
        }),
{
    let names = census::to_warm(text::texts(languages@), text::texts(root_files@));
    let here = text::texts(in_path@);
    census::law_warming_starts_what_is_missing(old(m)@, names, here, now, lang);
    census::law_warming_takes_a_place_per_start(old(m)@, names, here, now);
    let w = old(m)@.warming(names, here, now);
    assert(census::infos_of(r.0@).len() == r.0@.len());
    assert(starts_of(r.1@).len() == r.1@.len());
    if exists|i: int| 0 <= i < w.starts.len() && (#[trigger] w.starts[i]).lang == lang {
        let i = choose|i: int| 0 <= i < w.starts.len() && (#[trigger] w.starts[i]).lang == lang;
        assert(starts_of(r.1@)[i].lang == r.1@[i].lang);
    }
    if exists|i: int| 0 <= i < r.1@.len() && (#[trigger] r.1@[i]).lang == lang {
        let i = choose|i: int| 0 <= i < r.1@.len() && (#[trigger] r.1@[i]).lang == lang;
        assert(starts_of(r.1@)[i].lang == r.1@[i].lang);
        assert(w.starts[i].lang == lang);
    }
}

/// `status` has a line for each language with something to say, and no other.
pub proof fn law_status_speaks_of_each_server(m: LspManager, now: u64, r: Vec<LspStatus>)
    requires
        call_ensures(LspManager::status, (&m, now), r),
    ensures
        ({
            let one = |l: Language|
                match census::line_of(l, m@.spots[l], now) {
                    Some(line) => seq![line],
                    None => Seq::<census::Line>::empty(),
                };
            census::lines_of(r@) == one(Language::Rust) + one(Language::Java) + one(
                Language::TypeScript,
            ) + one(Language::Python)
        }),
{
    census::law_status_has_the_line_of_each_place(m@, now);
}

/// A shutdown hands out the ticket of every server that there is, and leaves none.
pub proof fn law_a_shutdown_lets_go_of_all(m: &mut LspManager, r: Vec<u64>, lang: Language, ticket: u64)
    requires
        call_ensures(LspManager::shutdown, (m,), r),
        old(m)@.wf(),
    ensures
        old(m)@.holds(lang, ticket) ==> r@.contains(ticket),
        r@.contains(ticket) ==> old(m)@.tickets().contains(ticket),
        final(m)@.spots[lang] == Spot::Free,
        r@.no_duplicates(),
{
    census::law_a_shutdown_reaches_every_server(old(m)@);
    if old(m)@.holds(lang, ticket) {
        assert(old(m)@.tickets().contains(ticket));
        assert(r@.to_set().contains(ticket));
    }
    if r@.contains(ticket) {
        assert(r@.to_set().contains(ticket));
    }
}

/// A manager begins with nothing running, for its workspace; and what runs in it are the
/// servers that have a place.
pub proof fn law_what_runs_has_a_place(
    system: System,
    workspace: &str,
    fresh: LspManager,
    root: &str,
    m: LspManager,
    ticket: u64,
    lang: Language,
    runs: bool,
)
    requires
        call_ensures(LspManager::new, (system, workspace), fresh),
        call_ensures(LspManager::workspace, (&fresh,), root),
        call_ensures(LspManager::runs, (&m, ticket), runs),
        m@.wf(),
    ensures
        fresh@.spots[lang] == Spot::Free,
        fresh.system() == system,
        root@ == workspace@,
        m@.holds(lang, ticket) ==> runs,
        runs ==> exists|l: Language| #[trigger] m@.holds(l, ticket),
{
}

/// A question on a language takes its place before its server exists: the second who asks
/// joins the first.
pub proof fn law_a_place_is_taken_before_its_server_exists(
    m: &mut LspManager,
    lang: Language,
    exe: String,
    now: u64,
    r: Admission,
)
    requires
        call_ensures(LspManager::welcome, (m, lang, Ok::<String, String>(exe), now), r),
    ensures
        old(m)@.spots[lang] matches Spot::Taken(s) ==> (r matches Admission::Join { ticket }
            && ticket == s.ticket) && final(m)@ == old(m)@,
        !(old(m)@.spots[lang] is Taken) ==> (r matches Admission::Start(s) && s.lang == lang
            && s.exe@ == exe@ && final(m)@.holds(lang, s.ticket)),
        forall|other: Language|
            other != lang ==> (#[trigger] final(m)@.spots[other]) == old(m)@.spots[other],
{
}

/// What a question to a server is told, and that it is counted.
pub proof fn law_a_question_is_told_and_counted(
    m: &mut LspManager,
    lang: Language,
    ticket: u64,
    r: Asked,
)
    requires
        call_ensures(LspManager::ask, (m, ticket), r),
        old(m)@.wf(),
        old(m)@.holds(lang, ticket),
    ensures
        ({
            let s = old(m)@.spots[lang]->Taken_0;
            &&& r is Go <==> s.up && s.readiness != Readiness::Indexing
            &&& r is NotReady <==> s.up && s.readiness == Readiness::Indexing
            &&& r is Gone <==> !s.up
            &&& s.up && s.queries < u64::MAX ==> final(m)@.spots[lang]->Taken_0.queries == s.queries
                + 1
        }),
{
    census::lemma_holder(old(m)@, ticket);
}

} // verus!
