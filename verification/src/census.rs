//! What runs, as the daemon knows it: one place per language, and at most one server
//! in it.
//!
//! A place is taken before the server exists, so that whoever comes second during
//! the handshake finds it taken and waits for that same start. What is not in the
//! census does not run: to leave it is to be killed.

use crate::cli;
use crate::json;
use crate::language;
use crate::language::{Language, Readiness};
use crate::lsp_client;
use crate::path;
use crate::path::System;
use crate::text;
use crate::types::{LspStatus, WarmInfo};
use vstd::prelude::*;
use vstd::string::*;

verus! {

// ── the census ───────────────────────────────────────────────────────────────

/// A server that runs, or is about to.
pub struct Running {
    /// Which start it is of.
    pub ticket: u64,
    /// Its handshake ended well.
    pub up: bool,
    /// Its process ended before its handshake did.
    pub ended: bool,
    pub readiness: Readiness,
    pub queries: u64,
    /// When its last sign of progress came, or else when it started.
    pub progress: u64,
}

/// What there is in the place of a language.
pub enum Spot {
    Free,
    /// The last start failed, and this is why. The place is free all the same.
    Failed(Seq<char>),
    Taken(Running),
}

/// What runs.
#[verifier::ext_equal]
pub struct Census {
    pub spots: Map<Language, Spot>,
    /// The round of the next start, which says its ticket.
    pub next: u64,
}

/// What is decided of a question about a language.
pub enum Admitted {
    /// Its server is there, or on its way: wait for that one.
    Join(u64),
    /// Start one, with this executable.
    Start(u64, Seq<char>),
    /// There is no server to ask, and this is why.
    Refused(Seq<char>),
}

/// What comes of a question to a server.
pub enum Heed {
    /// It is asked.
    Go,
    /// The server of this language cannot answer yet.
    NotReady(Language),
    /// It is not there.
    Gone,
}

/// How many rounds of tickets there are. After the last comes the first again.
pub const ROUNDS: u64 = 0x4000_0000_0000_0000;

/// The ticket that the start of a language has in a round. Each language has its own,
/// so that no two servers that there are can have the same, whatever the round.
pub open spec fn ticket_of(lang: Language, round: u64) -> u64 {
    (4 * round + rank(lang)) as u64
}

pub open spec fn round_after(round: u64) -> u64 {
    if round + 1 >= ROUNDS {
        0
    } else {
        (round + 1) as u64
    }
}

/// A server as it is when its start begins.
pub open spec fn born(lang: Language, ticket: u64, now: u64) -> Running {
    Running {
        ticket,
        up: false,
        ended: false,
        readiness: Readiness::at_birth(lang),
        queries: 0,
        progress: now,
    }
}

/// What is left of a server whose handshake ended like this.
pub open spec fn shaken(s: Running, outcome: Result<(), Seq<char>>) -> Spot {
    if s.up {
        Spot::Taken(s)
    } else {
        match outcome {
            Ok(_) => if s.ended {
                Spot::Free
            } else {
                Spot::Taken(Running { up: true, ..s })
            },
            Err(e) => Spot::Failed(e),
        }
    }
}

/// What is left of a server whose process ended.
pub open spec fn buried(s: Running) -> Spot {
    if s.up {
        Spot::Free
    } else {
        Spot::Taken(Running { ended: true, ..s })
    }
}

/// A server after it sent this notification.
pub open spec fn heard(s: Running, method: Seq<char>, params: json::Json, now: u64) -> Running {
    Running {
        readiness: match lsp_client::readiness_said(method, params) {
            Some(r) => r,
            None => s.readiness,
        },
        progress: if lsp_client::shows_progress(method) {
            now
        } else {
            s.progress
        },
        ..s
    }
}

/// A server with one more question counted.
pub open spec fn counted(s: Running) -> Running {
    Running {
        queries: if s.queries == u64::MAX {
            0
        } else {
            (s.queries + 1) as u64
        },
        ..s
    }
}

/// What `status` says of a place.
pub struct Line {
    pub name: Seq<char>,
    pub state: Seq<char>,
    pub queries: u64,
    pub since_progress_ms: u64,
    pub error: Option<Seq<char>>,
}

impl View for LspStatus {
    type V = Line;

    open spec fn view(&self) -> Line {
        Line {
            name: self.name@,
            state: self.state@,
            queries: self.queries,
            since_progress_ms: self.since_progress_ms,
            error: text::opt_text(self.error),
        }
    }
}

/// What each line of `status` says.
pub open spec fn lines_of(v: Seq<LspStatus>) -> Seq<Line> {
    v.map_values(|s: LspStatus| s@)
}

/// What `status` says of a place, if there is anything to say.
pub open spec fn line_of(lang: Language, spot: Spot, now: u64) -> Option<Line> {
    match spot {
        Spot::Free => None,
        Spot::Failed(e) => Some(
            Line {
                name: lang.server_name(),
                state: "FAILED"@,
                queries: 0,
                since_progress_ms: 0,
                error: Some(e),
            },
        ),
        Spot::Taken(s) => Some(
            Line {
                name: lang.server_name(),
                state: if s.up {
                    s.readiness.text()
                } else {
                    "STARTING"@
                },
                queries: s.queries,
                since_progress_ms: language::elapsed(s.progress, now),
                error: None,
            },
        ),
    }
}

/// The extension of a file; nothing where it has none.
pub open spec fn extension_text(system: System, file: Seq<char>) -> Seq<char> {
    match path::extension(system, file) {
        Some(ext) => ext,
        None => Seq::empty(),
    }
}

/// The language of a file, by its extension.
pub open spec fn language_of(system: System, file: Seq<char>) -> Option<Language> {
    Language::of_extension(extension_text(system, file))
}

impl Census {
    /// Nothing runs.
    pub open spec fn fresh() -> Census {
        Census { spots: Map::new(|l: Language| true, |l: Language| Spot::Free), next: 0 }
    }

    /// Whether the server of this language is that of this ticket.
    pub open spec fn holds(self, lang: Language, ticket: u64) -> bool {
        self.spots[lang] matches Spot::Taken(s) && s.ticket == ticket
    }

    /// Every language has its place, and every server a ticket of its language.
    pub open spec fn wf(self) -> bool {
        &&& forall|l: Language| #[trigger] self.spots.dom().contains(l)
        &&& forall|l: Language|
            (#[trigger] self.spots[l]) matches Spot::Taken(s) ==> s.ticket % 4 == rank(l)
        &&& self.next < ROUNDS
    }

    /// The tickets of the servers that there are.
    pub open spec fn tickets(self) -> Set<u64> {
        Set::new(|t: u64| exists|l: Language| #[trigger] self.holds(l, t))
    }

    /// The language of the server of this ticket, in the order of the table.
    pub open spec fn holder(self, ticket: u64) -> Option<Language> {
        if self.holds(Language::Rust, ticket) {
            Some(Language::Rust)
        } else if self.holds(Language::Java, ticket) {
            Some(Language::Java)
        } else if self.holds(Language::TypeScript, ticket) {
            Some(Language::TypeScript)
        } else if self.holds(Language::Python, ticket) {
            Some(Language::Python)
        } else {
            None
        }
    }

    pub open spec fn with(self, lang: Language, spot: Spot) -> Census {
        Census { spots: self.spots.insert(lang, spot), next: self.next }
    }

    /// A question about a language, given the executable that attends it.
    pub open spec fn admitting(
        self,
        lang: Language,
        exe: Result<Seq<char>, Seq<char>>,
        now: u64,
    ) -> (Census, Admitted) {
        match (self.spots[lang], exe) {
            (Spot::Taken(s), _) => (self, Admitted::Join(s.ticket)),
            (_, Err(e)) => (self, Admitted::Refused(e)),
            (_, Ok(x)) => (
                Census {
                    spots: self.spots.insert(
                        lang,
                        Spot::Taken(born(lang, ticket_of(lang, self.next), now)),
                    ),
                    next: round_after(self.next),
                },
                Admitted::Start(ticket_of(lang, self.next), x),
            ),
        }
    }

    /// A question about a file, given the names that are in `PATH`.
    pub open spec fn questioned(
        self,
        system: System,
        file: Seq<char>,
        in_path: Seq<Seq<char>>,
        now: u64,
    ) -> (Census, Admitted) {
        match language_of(system, file) {
            Some(lang) => self.admitting(lang, lang.executable(in_path), now),
            None => (
                self,
                Admitted::Refused("no LSP for extension ."@ + extension_text(system, file)),
            ),
        }
    }

    /// The handshake of a start ended.
    pub open spec fn settling(self, ticket: u64, outcome: Result<(), Seq<char>>) -> Census {
        match self.holder(ticket) {
            Some(l) => self.with(l, shaken(self.spots[l]->Taken_0, outcome)),
            None => self,
        }
    }

    /// The process of a start ended.
    pub open spec fn burying(self, ticket: u64) -> Census {
        match self.holder(ticket) {
            Some(l) => self.with(l, buried(self.spots[l]->Taken_0)),
            None => self,
        }
    }

    /// A server sent a notification.
    pub open spec fn hearing(
        self,
        ticket: u64,
        method: Seq<char>,
        params: json::Json,
        now: u64,
    ) -> Census {
        match self.holder(ticket) {
            Some(l) => self.with(
                l,
                Spot::Taken(heard(self.spots[l]->Taken_0, method, params, now)),
            ),
            None => self,
        }
    }

    /// A question to a server: it is counted, whatever is answered to it.
    pub open spec fn counting(self, ticket: u64) -> Census {
        match self.holder(ticket) {
            Some(l) => if self.spots[l]->Taken_0.up {
                self.with(l, Spot::Taken(counted(self.spots[l]->Taken_0)))
            } else {
                self
            },
            None => self,
        }
    }

    /// What comes of a question to a server: one that said that it is indexing is not
    /// asked, and one that does not tell is.
    pub open spec fn asking(self, ticket: u64) -> Heed {
        match self.holder(ticket) {
            Some(l) => if !self.spots[l]->Taken_0.up {
                Heed::Gone
            } else if self.spots[l]->Taken_0.readiness == Readiness::Indexing {
                Heed::NotReady(l)
            } else {
                Heed::Go
            },
            None => Heed::Gone,
        }
    }

    /// What `status` says: a line for each place where there is something to say, in
    /// the order of the table.
    pub open spec fn status(self, langs: Seq<Language>, now: u64) -> Seq<Line>
        decreases langs.len(),
    {
        if langs.len() == 0 {
            Seq::empty()
        } else {
            match line_of(langs.last(), self.spots[langs.last()], now) {
                Some(line) => self.status(langs.drop_last(), now).push(line),
                None => self.status(langs.drop_last(), now),
            }
        }
    }
}

// ── warming ──────────────────────────────────────────────────────────────────

/// What `warm` says of a language.
pub struct Info {
    pub name: Seq<char>,
    pub error: Option<Seq<char>>,
}

impl View for WarmInfo {
    type V = Info;

    open spec fn view(&self) -> Info {
        Info { name: self.name@, error: text::opt_text(self.error) }
    }
}

/// What each line of the answer to `warm` says.
pub open spec fn infos_of(v: Seq<WarmInfo>) -> Seq<Info> {
    v.map_values(|w: WarmInfo| w@)
}

/// A start to be made.
pub struct Begun {
    pub ticket: u64,
    pub lang: Language,
    pub exe: Seq<char>,
}

/// How warming goes: what runs, what is said of each language, and what is to be
/// started.
#[verifier::ext_equal]
pub struct Warming {
    pub census: Census,
    pub infos: Seq<Info>,
    pub starts: Seq<Begun>,
}

impl Warming {
    /// One more language, by the name it was asked for with.
    pub open spec fn and(self, name: Seq<char>, in_path: Seq<Seq<char>>, now: u64) -> Warming {
        match Language::of_name(name) {
            None => Warming {
                infos: self.infos.push(
                    Info { name, error: Some(cli::unknown_language(name)) },
                ),
                ..self
            },
            Some(lang) => {
                let (census, a) = self.census.admitting(lang, lang.executable(in_path), now);
                Warming {
                    census,
                    infos: self.infos.push(
                        Info {
                            name: lang.server_name(),
                            error: match a {
                                Admitted::Refused(e) => Some(e),
                                _ => None,
                            },
                        },
                    ),
                    starts: match a {
                        Admitted::Start(ticket, exe) => self.starts.push(
                            Begun { ticket, lang, exe },
                        ),
                        _ => self.starts,
                    },
                }
            },
        }
    }
}

impl Census {
    /// Warming these languages, one after the other.
    pub open spec fn warming(
        self,
        names: Seq<Seq<char>>,
        in_path: Seq<Seq<char>>,
        now: u64,
    ) -> Warming
        decreases names.len(),
    {
        if names.len() == 0 {
            Warming { census: self, infos: Seq::empty(), starts: Seq::empty() }
        } else {
            self.warming(names.drop_last(), in_path, now).and(names.last(), in_path, now)
        }
    }

    /// The tickets of the servers of these languages, in their order.
    pub open spec fn running(self, langs: Seq<Language>) -> Seq<u64>
        decreases langs.len(),
    {
        if langs.len() == 0 {
            Seq::empty()
        } else {
            match self.spots[langs.last()] {
                Spot::Taken(s) => self.running(langs.drop_last()).push(s.ticket),
                _ => self.running(langs.drop_last()),
            }
        }
    }

    /// Nothing runs any more.
    pub open spec fn emptied(self) -> Census {
        Census { spots: Census::fresh().spots, next: self.next }
    }
}

/// Each name once, where it first came.
pub open spec fn each_once(names: Seq<Seq<char>>) -> Seq<Seq<char>>
    decreases names.len(),
{
    if names.len() == 0 {
        Seq::empty()
    } else {
        let before = each_once(names.drop_last());
        if before.contains(names.last()) {
            before
        } else {
            before.push(names.last())
        }
    }
}

/// Which languages to warm: those asked for, each once, or, with none asked for,
/// those that the markers of the workspace say.
pub open spec fn to_warm(
    languages: Seq<Seq<char>>,
    root_files: Seq<Seq<char>>,
) -> Seq<Seq<char>> {
    if languages.len() == 0 {
        language::table().filter(|l: Language| l.marked_by(root_files)).map_values(
            |l: Language| l.id_text(),
        )
    } else {
        each_once(languages)
    }
}

// ── the places ───────────────────────────────────────────────────────────────

/// The place of each language, in the order of the table.
pub open spec fn rank(lang: Language) -> int {
    match lang {
        Language::Rust => 0,
        Language::Java => 1,
        Language::TypeScript => 2,
        Language::Python => 3,
    }
}

pub proof fn lemma_rank()
    ensures
        forall|l: Language| 0 <= #[trigger] rank(l) < 4 && language::table()[rank(l)] == l,
        forall|i: int| 0 <= i < 4 ==> rank(#[trigger] language::table()[i]) == i,
        language::table().len() == 4,
{
    let t = language::table();
    assert(t[0] == Language::Rust && t[1] == Language::Java && t[2] == Language::TypeScript && t[3]
        == Language::Python);
}

/// How many places are taken.
pub open spec fn taken(c: Census) -> int {
    taken_one(c, Language::Rust) + taken_one(c, Language::Java) + taken_one(
        c,
        Language::TypeScript,
    ) + taken_one(c, Language::Python)
}

pub open spec fn taken_one(c: Census, lang: Language) -> int {
    if c.spots[lang] is Taken {
        1
    } else {
        0
    }
}

/// Warming takes one place for each server that it starts. So it starts no more than
/// there are languages, however many names it is given.
pub proof fn law_warming_takes_a_place_per_start(
    c: Census,
    names: Seq<Seq<char>>,
    in_path: Seq<Seq<char>>,
    now: u64,
)
    ensures
        ({
            let w = c.warming(names, in_path, now);
            taken(w.census) == taken(c) + w.starts.len() <= language::table().len()
        }),
    decreases names.len(),
{
    if names.len() > 0 {
        law_warming_takes_a_place_per_start(c, names.drop_last(), in_path, now);
    }
}

pub proof fn lemma_with_keeps(c: Census, lang: Language, spot: Spot)
    requires
        c.wf(),
        spot matches Spot::Taken(s) ==> c.holds(lang, s.ticket),
    ensures
        c.with(lang, spot).wf(),
{
    let after = c.with(lang, spot);
    assert forall|l: Language| (#[trigger] after.spots[l]) matches Spot::Taken(s) ==> s.ticket % 4
        == rank(l) by {
        assert(c.spots[l] is Taken ==> c.spots[l]->Taken_0.ticket % 4 == rank(l));
    }
}

pub proof fn lemma_starting_keeps(
    c: Census,
    lang: Language,
    exe: Result<Seq<char>, Seq<char>>,
    now: u64,
)
    requires
        c.wf(),
    ensures
        c.admitting(lang, exe, now).0.wf(),
{
    let after = c.admitting(lang, exe, now).0;
    assert forall|l: Language| (#[trigger] after.spots[l]) matches Spot::Taken(s) ==> s.ticket % 4
        == rank(l) by {
        if l != lang {
            assert(after.spots[l] == c.spots[l]);
        }
    }
}

// ── what the census promises ─────────────────────────────────────────────────

/// One server per language: one is started only where there is none, and from then
/// on whoever asks joins that same start, and nothing changes.
pub proof fn law_one_server_per_language(
    c: Census,
    lang: Language,
    exe: Result<Seq<char>, Seq<char>>,
    now: u64,
    other: Result<Seq<char>, Seq<char>>,
    later: u64,
)
    requires
        c.admitting(lang, exe, now).1 is Start,
    ensures
        ({
            let (after, a) = c.admitting(lang, exe, now);
            &&& !(c.spots[lang] is Taken)
            &&& after.holds(lang, a->Start_0)
            &&& after.admitting(lang, other, later) == (after, Admitted::Join(a->Start_0))
        }),
{
}

/// Who comes second finds the place taken, and waits for that same server, whether
/// it is up or on its way.
pub proof fn law_who_comes_second_joins(
    c: Census,
    lang: Language,
    ticket: u64,
    exe: Result<Seq<char>, Seq<char>>,
    now: u64,
)
    requires
        c.holds(lang, ticket),
    ensures
        c.admitting(lang, exe, now) == (c, Admitted::Join(ticket)),
{
}

/// An executable that is not there starts nothing, and leaves every place as it was.
pub proof fn law_a_missing_executable_changes_nothing(
    c: Census,
    lang: Language,
    error: Seq<char>,
    now: u64,
)
    ensures
        c.admitting(lang, Err(error), now).0 == c,
        !(c.spots[lang] is Taken) ==> c.admitting(lang, Err(error), now).1 == Admitted::Refused(
            error,
        ),
{
}

/// A ticket is of one server, and that of a start where there is none is of no other.
pub proof fn law_a_ticket_is_of_one_server(c: Census, lang: Language, ticket: u64)
    requires
        c.wf(),
    ensures
        c.holder(ticket) == Some(lang) <==> c.holds(lang, ticket),
        c.holder(ticket) is Some <==> c.tickets().contains(ticket),
        !(c.spots[lang] is Taken) ==> !c.tickets().contains(ticket_of(lang, c.next)),
{
    lemma_holder(c, ticket);
    assert forall|l: Language| !(c.spots[lang] is Taken) implies !(#[trigger] c.holds(
        l,
        ticket_of(lang, c.next),
    )) by {
        assert(c.spots[l] is Taken ==> c.spots[l]->Taken_0.ticket % 4 == rank(l));
        lemma_rank();
        assert(language::table()[rank(l)] == l && language::table()[rank(lang)] == lang);
    }
}

/// A ticket comes back only once every round has passed: two starts have the same only
/// if they are of one language and of one round.
pub proof fn law_each_start_of_a_round_has_its_ticket(
    lang: Language,
    round: u64,
    other: Language,
    other_round: u64,
)
    requires
        round < ROUNDS,
        other_round < ROUNDS,
    ensures
        ticket_of(lang, round) == ticket_of(other, other_round) <==> lang == other && round
            == other_round,
        round_after(round) < ROUNDS,
        round_after(round) == (round + 1) % (ROUNDS as int),
{
    lemma_rank();
    assert(language::table()[rank(lang)] == lang && language::table()[rank(other)] == other);
}

pub proof fn lemma_holder(c: Census, ticket: u64)
    requires
        c.wf(),
    ensures
        forall|l: Language| c.holder(ticket) == Some(l) <==> #[trigger] c.holds(l, ticket),
        c.holder(ticket) is Some <==> c.tickets().contains(ticket),
{
    assert forall|l: Language| c.holder(ticket) == Some(l) <==> #[trigger] c.holds(
        l,
        ticket,
    ) by {
        assert(c.spots[l] is Taken ==> c.spots[l]->Taken_0.ticket % 4 == rank(l));
        match l {
            Language::Rust => {},
            Language::Java => {},
            Language::TypeScript => {},
            Language::Python => {},
        }
    }
    if c.tickets().contains(ticket) {
        let l = choose|l: Language| #[trigger] c.holds(l, ticket);
        assert(c.holder(ticket) == Some(l));
    }
}

/// There is no server running that the census does not have: a start puts its server
/// in it, and only what ends a server takes it out.
pub proof fn law_the_census_has_what_runs(
    c: Census,
    lang: Language,
    exe: Result<Seq<char>, Seq<char>>,
    ticket: u64,
    outcome: Result<(), Seq<char>>,
    method: Seq<char>,
    params: json::Json,
    now: u64,
)
    requires
        c.wf(),
    ensures
        c.admitting(lang, exe, now).0.tickets() == match c.admitting(lang, exe, now).1 {
            Admitted::Start(t, _) => c.tickets().insert(t),
            _ => c.tickets(),
        },
        c.settling(ticket, outcome).tickets() == match c.holder(ticket) {
            Some(l) => if shaken(c.spots[l]->Taken_0, outcome) is Taken {
                c.tickets()
            } else {
                c.tickets().remove(ticket)
            },
            None => c.tickets(),
        },
        c.burying(ticket).tickets() == match c.holder(ticket) {
            Some(l) => if c.spots[l]->Taken_0.up {
                c.tickets().remove(ticket)
            } else {
                c.tickets()
            },
            None => c.tickets(),
        },
        c.hearing(ticket, method, params, now).tickets() == c.tickets(),
        c.counting(ticket).tickets() == c.tickets(),
        c.emptied().tickets() == Set::<u64>::empty(),
{
    lemma_holder(c, ticket);
    match (c.spots[lang], exe) {
        (Spot::Taken(_), _) => {},
        (_, Err(_)) => {},
        (_, Ok(_)) => {
            let after = c.admitting(lang, exe, now).0;
            let new = ticket_of(lang, c.next);
            assert forall|t: u64| after.tickets().contains(t) <==> c.tickets().insert(
                new,
            ).contains(t) by {
                if after.tickets().contains(t) {
                    let l = choose|l: Language| #[trigger] after.holds(l, t);
                    if l != lang {
                        assert(c.holds(l, t));
                    }
                }
                if c.tickets().contains(t) {
                    let l = choose|l: Language| #[trigger] c.holds(l, t);
                    assert(after.holds(l, t));
                }
                if t == new {
                    assert(after.holds(lang, t));
                }
            }
            assert(after.tickets() =~= c.tickets().insert(new));
        },
    }
    match c.holder(ticket) {
        None => {},
        Some(l) => {
            let s = c.spots[l]->Taken_0;
            lemma_tickets_with(c, l, shaken(s, outcome));
            lemma_tickets_with(c, l, buried(s));
            lemma_tickets_with(c, l, Spot::Taken(heard(s, method, params, now)));
            lemma_tickets_with(c, l, Spot::Taken(counted(s)));
        },
    }
    assert forall|t: u64| !c.emptied().tickets().contains(t) by {
        assert forall|l: Language| !(#[trigger] c.emptied().holds(l, t)) by {}
    }
    assert(c.emptied().tickets() =~= Set::<u64>::empty());
}

proof fn lemma_tickets_with(c: Census, lang: Language, spot: Spot)
    requires
        c.wf(),
        c.spots[lang] is Taken,
        spot matches Spot::Taken(s) ==> s.ticket == c.spots[lang]->Taken_0.ticket,
    ensures
        c.with(lang, spot).tickets() == if spot is Taken {
            c.tickets()
        } else {
            c.tickets().remove(c.spots[lang]->Taken_0.ticket)
        },
{
    let after = c.with(lang, spot);
    let mine = c.spots[lang]->Taken_0.ticket;
    let want = if spot is Taken {
        c.tickets()
    } else {
        c.tickets().remove(mine)
    };
    assert(c.holds(lang, mine));
    assert forall|t: u64| after.tickets().contains(t) <==> want.contains(t) by {
        if after.tickets().contains(t) {
            let l = choose|l: Language| #[trigger] after.holds(l, t);
            assert(c.holds(l, t));
        }
        if want.contains(t) {
            let l = choose|l: Language| #[trigger] c.holds(l, t);
            assert(after.holds(l, t));
        }
    }
    assert(after.tickets() =~= want);
}

/// What is told of a server that was already let go changes nothing: not of one that
/// another start replaced, nor of one that was shut down.
pub proof fn law_what_is_told_of_who_left_changes_nothing(
    c: Census,
    ticket: u64,
    outcome: Result<(), Seq<char>>,
    method: Seq<char>,
    params: json::Json,
    now: u64,
)
    requires
        c.wf(),
        !c.tickets().contains(ticket),
    ensures
        c.settling(ticket, outcome) == c,
        c.burying(ticket) == c,
        c.hearing(ticket, method, params, now) == c,
        c.counting(ticket) == c,
{
    lemma_holder(c, ticket);
}

/// What is told of one server changes nothing of another.
pub proof fn law_servers_do_not_mix(
    c: Census,
    lang: Language,
    other: Language,
    ticket: u64,
    outcome: Result<(), Seq<char>>,
    method: Seq<char>,
    params: json::Json,
    now: u64,
)
    requires
        c.wf(),
        c.holds(lang, ticket),
        other != lang,
    ensures
        c.settling(ticket, outcome).spots[other] == c.spots[other],
        c.burying(ticket).spots[other] == c.spots[other],
        c.hearing(ticket, method, params, now).spots[other] == c.spots[other],
        c.counting(ticket).spots[other] == c.spots[other],
{
    lemma_holder(c, ticket);
}

/// A start that failed does not leave the place taken: it is told why until another
/// start, which whoever asks next makes, replaces it.
pub proof fn law_a_failed_start_leaves_the_place_free(
    c: Census,
    lang: Language,
    ticket: u64,
    error: Seq<char>,
    exe: Seq<char>,
    now: u64,
)
    requires
        c.wf(),
        c.holds(lang, ticket),
        !c.spots[lang]->Taken_0.up,
    ensures
        ({
            let failed = c.settling(ticket, Err(error));
            let (again, a) = failed.admitting(lang, Ok(exe), now);
            &&& failed.spots[lang] == Spot::Failed(error)
            &&& line_of(lang, failed.spots[lang], now) matches Some(line) && line.state
                == "FAILED"@ && line.error == Some(error)
            &&& a == Admitted::Start(ticket_of(lang, c.next), exe)
            &&& line_of(lang, again.spots[lang], now) matches Some(line) && line.state
                == "STARTING"@ && line.error is None
        }),
{
    lemma_holder(c, ticket);
}

/// A server whose process ends after its handshake leaves the census, and its place
/// can be taken again.
pub proof fn law_a_server_that_dies_leaves(
    c: Census,
    lang: Language,
    ticket: u64,
    exe: Seq<char>,
    now: u64,
)
    requires
        c.wf(),
        c.holds(lang, ticket),
        c.spots[lang]->Taken_0.up,
    ensures
        c.burying(ticket).spots[lang] == Spot::Free,
        line_of(lang, c.burying(ticket).spots[lang], now) is None,
        c.burying(ticket).admitting(lang, Ok(exe), now).1 == Admitted::Start(
            ticket_of(lang, c.next),
            exe,
        ),
{
    lemma_holder(c, ticket);
}

/// A server whose process ends during its handshake does not stay: however the
/// handshake is told to have ended, its place is not taken any more.
pub proof fn law_a_server_that_dies_starting_does_not_stay(
    c: Census,
    lang: Language,
    ticket: u64,
    outcome: Result<(), Seq<char>>,
)
    requires
        c.wf(),
        c.holds(lang, ticket),
        !c.spots[lang]->Taken_0.up,
    ensures
        c.burying(ticket).settling(ticket, outcome).spots[lang] == match outcome {
            Ok(_) => Spot::Free,
            Err(e) => Spot::Failed(e),
        },
{
    lemma_holder(c, ticket);
    lemma_with_keeps(c, lang, buried(c.spots[lang]->Taken_0));
    assert(c.burying(ticket).holds(lang, ticket));
    lemma_holder(c.burying(ticket), ticket);
}

/// While the handshake lasts a server is `STARTING`, whatever its language and
/// whatever it said; once it ended well, it is in the state of its readiness.
pub proof fn law_a_handshake_is_starting(
    c: Census,
    lang: Language,
    ticket: u64,
    now: u64,
)
    requires
        c.wf(),
        c.holds(lang, ticket),
        !c.spots[lang]->Taken_0.up,
        !c.spots[lang]->Taken_0.ended,
    ensures
        line_of(lang, c.spots[lang], now) matches Some(line) && line.state == "STARTING"@,
        line_of(lang, c.settling(ticket, Ok(())).spots[lang], now) matches Some(line)
            && line.state == c.spots[lang]->Taken_0.readiness.text(),
{
    lemma_holder(c, ticket);
}

/// A sign of progress puts the clock of its server back to zero; until the first, it
/// runs from the start.
pub proof fn law_progress_puts_the_clock_back(
    c: Census,
    lang: Language,
    ticket: u64,
    method: Seq<char>,
    params: json::Json,
    now: u64,
    later: u64,
)
    requires
        c.wf(),
        c.holds(lang, ticket),
        now <= later,
    ensures
        lsp_client::shows_progress(method) ==> (line_of(
            lang,
            c.hearing(ticket, method, params, now).spots[lang],
            later,
        ) matches Some(line) && line.since_progress_ms == later - now),
        !lsp_client::shows_progress(method) ==> c.hearing(
            ticket,
            method,
            params,
            now,
        ).spots[lang]->Taken_0.progress == c.spots[lang]->Taken_0.progress,
        born(lang, ticket, now).progress == now,
{
    lemma_holder(c, ticket);
}

/// Every question to a server that is up is counted, also one that is answered that
/// it is `INDEXING`.
pub proof fn law_a_question_is_counted(c: Census, lang: Language, ticket: u64)
    requires
        c.wf(),
        c.holds(lang, ticket),
        c.spots[lang]->Taken_0.up,
        c.spots[lang]->Taken_0.queries < u64::MAX,
    ensures
        c.counting(ticket).spots[lang]->Taken_0.queries == c.spots[lang]->Taken_0.queries + 1,
        c.counting(ticket).spots[lang]->Taken_0.readiness == c.spots[lang]->Taken_0.readiness,
{
    lemma_holder(c, ticket);
}

/// A shutdown lets go of every server there is, once each.
pub proof fn law_a_shutdown_reaches_every_server(c: Census)
    requires
        c.wf(),
    ensures
        c.running(language::table()).to_set() == c.tickets(),
        c.running(language::table()).no_duplicates(),
        c.emptied().tickets() == Set::<u64>::empty(),
{
    let t = language::table();
    lemma_rank();
    assert(t.take(4) =~= t);
    lemma_running(c, 4);
    let all = c.running(t);
    assert forall|x: u64| all.to_set().contains(x) <==> c.tickets().contains(x) by {
        if all.contains(x) {
            let i = choose|i: int| 0 <= i < 4 && c.holds(#[trigger] t[i], x);
            assert(c.holds(t[i], x));
        }
        if c.tickets().contains(x) {
            let l = choose|l: Language| #[trigger] c.holds(l, x);
            assert(c.holds(t[rank(l)], x));
        }
    }
    assert(all.to_set() =~= c.tickets());
    assert forall|x: u64| !c.emptied().tickets().contains(x) by {
        assert forall|l: Language| !(#[trigger] c.emptied().holds(l, x)) by {}
    }
    assert(c.emptied().tickets() =~= Set::<u64>::empty());
}

proof fn lemma_running(c: Census, n: int)
    requires
        c.wf(),
        0 <= n <= 4,
    ensures
        c.running(language::table().take(n)).no_duplicates(),
        forall|x: u64|
            c.running(language::table().take(n)).contains(x) <==> exists|i: int|
                0 <= i < n && c.holds(#[trigger] language::table()[i], x),
    decreases n,
{
    let t = language::table();
    lemma_rank();
    if n > 0 {
        lemma_running(c, n - 1);
        assert(t.take(n).drop_last() =~= t.take(n - 1));
        let before = c.running(t.take(n - 1));
        let last = t[n - 1];
        let all = c.running(t.take(n));
        match c.spots[last] {
            Spot::Taken(s) => {
                assert(c.holds(last, s.ticket));
                assert(!before.contains(s.ticket)) by {
                    if before.contains(s.ticket) {
                        let i = choose|i: int| 0 <= i < n - 1 && c.holds(#[trigger] t[i], s.ticket);
                        assert(t[i] == last);
                        assert(rank(t[i]) == i && rank(last) == n - 1);
                    }
                }
                assert(all =~= before.push(s.ticket));
                assert forall|x: u64| all.contains(x) <==> exists|i: int|
                    0 <= i < n && c.holds(#[trigger] t[i], x) by {
                    if all.contains(x) {
                        if x == s.ticket {
                            assert(c.holds(t[n - 1], x));
                        } else {
                            let k = choose|k: int| 0 <= k < all.len() && all[k] == x;
                            assert(before[k] == x);
                            assert(before.contains(x));
                        }
                    }
                    if exists|i: int| 0 <= i < n && c.holds(#[trigger] t[i], x) {
                        let i = choose|i: int| 0 <= i < n && c.holds(#[trigger] t[i], x);
                        if i < n - 1 {
                            assert(before.contains(x));
                            let k = choose|k: int| 0 <= k < before.len() && before[k] == x;
                            assert(all[k] == x);
                        } else {
                            assert(all[all.len() - 1] == x);
                        }
                    }
                }
            },
            _ => {
                assert forall|x: u64| all.contains(x) <==> exists|i: int|
                    0 <= i < n && c.holds(#[trigger] t[i], x) by {
                    if exists|i: int| 0 <= i < n && c.holds(#[trigger] t[i], x) {
                        let i = choose|i: int| 0 <= i < n && c.holds(#[trigger] t[i], x);
                        assert(i < n - 1);
                    }
                }
            },
        }
    }
}

/// `status` lists the servers that run and those that failed, by the name of the
/// server, once each and in the order of the table.
pub proof fn law_status_lists_each_server_once(c: Census, now: u64)
    ensures
        ({
            let lines = c.status(language::table(), now);
            let listed = language::table().filter(|l: Language| !(c.spots[l] is Free));
            &&& lines.map_values(|line: Line| line.name) == listed.map_values(
                |l: Language| l.server_name(),
            )
            &&& forall|l: Language| listed.contains(l) <==> !(c.spots[l] is Free)
            &&& forall|i: int, j: int|
                0 <= i < j < lines.len() ==> (#[trigger] lines[i]).name != (
                #[trigger] lines[j]).name
        }),
{
    let t = language::table();
    let lines = c.status(t, now);
    let listed = t.filter(|l: Language| !(c.spots[l] is Free));
    language::lemma_table_filtered(|l: Language| !(c.spots[l] is Free));
    lemma_status(c, t, now);
    assert(lines.map_values(|line: Line| line.name) =~= listed.map_values(
        |l: Language| l.server_name(),
    ));
    assert forall|i: int, j: int| 0 <= i < j < lines.len() implies (#[trigger] lines[i]).name != (
    #[trigger] lines[j]).name by {
        if lines[i].name == lines[j].name {
            language::law_a_server_is_of_one_language(listed[i], listed[j]);
        }
    }
}

proof fn lemma_status(c: Census, langs: Seq<Language>, now: u64)
    ensures
        ({
            let lines = c.status(langs, now);
            let listed = langs.filter(|l: Language| !(c.spots[l] is Free));
            &&& lines.len() == listed.len()
            &&& forall|i: int|
                0 <= i < lines.len() ==> (#[trigger] lines[i]).name == listed[i].server_name()
        }),
    decreases langs.len(),
{
    reveal(Seq::filter);
    if langs.len() > 0 {
        lemma_status(c, langs.drop_last(), now);
    }
}

/// A language asked for twice is one language: each comes once, where it first came,
/// and none is lost.
pub proof fn law_a_repeated_language_is_one(names: Seq<Seq<char>>, name: Seq<char>)
    ensures
        each_once(names).no_duplicates(),
        each_once(names).contains(name) <==> names.contains(name),
    decreases names.len(),
{
    if names.len() > 0 {
        let rest = names.drop_last();
        law_a_repeated_language_is_one(rest, name);
        law_a_repeated_language_is_one(rest, names.last());
        let before = each_once(rest);
        assert(names =~= rest.push(names.last()));
        if names.contains(name) && name != names.last() {
            let i = choose|i: int| 0 <= i < names.len() && names[i] == name;
            assert(rest[i] == name);
        }
        if rest.contains(name) {
            let i = choose|i: int| 0 <= i < rest.len() && rest[i] == name;
            assert(names[i] == name);
        }
        assert(names[names.len() - 1] == names.last());
        if !before.contains(names.last()) {
            let after = before.push(names.last());
            assert(after[after.len() - 1] == names.last());
            if before.contains(name) {
                let i = choose|i: int| 0 <= i < before.len() && before[i] == name;
                assert(after[i] == name);
            }
            if after.contains(name) && name != names.last() {
                let i = choose|i: int| 0 <= i < after.len() && after[i] == name;
                assert(before[i] == name);
            }
        }
    }
}

/// What `warm` says of a language.
pub open spec fn info_of(c: Census, name: Seq<char>, in_path: Seq<Seq<char>>) -> Info {
    match Language::of_name(name) {
        None => Info { name, error: Some(cli::unknown_language(name)) },
        Some(l) => Info {
            name: l.server_name(),
            error: match (c.spots[l], l.executable(in_path)) {
                (Spot::Taken(_), _) => None,
                (_, Ok(_)) => None,
                (_, Err(e)) => Some(e),
            },
        },
    }
}

/// Warming says something of each language it was asked for, and what it says is up
/// to that language alone: an error where it is not in the table, or where nothing
/// attends it and no server of it is there.
pub proof fn law_warming_speaks_of_each_language(
    c: Census,
    names: Seq<Seq<char>>,
    in_path: Seq<Seq<char>>,
    now: u64,
)
    ensures
        c.warming(names, in_path, now).infos == names.map_values(
            |name: Seq<char>| info_of(c, name, in_path),
        ),
    decreases names.len(),
{
    let said = |name: Seq<char>| info_of(c, name, in_path);
    if names.len() > 0 {
        let rest = names.drop_last();
        law_warming_speaks_of_each_language(c, rest, in_path, now);
        assert forall|l: Language| l.executable(in_path) is Err implies c.warming(
            rest,
            in_path,
            now,
        ).census.spots[l] == c.spots[l] by {
            lemma_not_started(c, rest, in_path, now, l);
        }
        assert(names.map_values(said) =~= rest.map_values(said).push(said(names.last())));
    } else {
        assert(names.map_values(said) =~= Seq::empty());
    }
}

proof fn lemma_not_started(
    c: Census,
    names: Seq<Seq<char>>,
    in_path: Seq<Seq<char>>,
    now: u64,
    lang: Language,
)
    requires
        lang.executable(in_path) is Err,
    ensures
        c.warming(names, in_path, now).census.spots[lang] == c.spots[lang],
    decreases names.len(),
{
    if names.len() > 0 {
        lemma_not_started(c, names.drop_last(), in_path, now, lang);
    }
}

/// Warming the same again says the same, and starts nothing: what is there, or on its
/// way, is not started twice.
pub proof fn law_warming_twice_starts_once(
    c: Census,
    names: Seq<Seq<char>>,
    in_path: Seq<Seq<char>>,
    now: u64,
    later: u64,
)
    ensures
        ({
            let first = c.warming(names, in_path, now);
            let second = first.census.warming(names, in_path, later);
            &&& second.census == first.census
            &&& second.starts == Seq::<Begun>::empty()
            &&& second.infos == first.infos
        }),
{
    let first = c.warming(names, in_path, now);
    assert forall|i: int| 0 <= i < names.len() implies warmed(
        first.census,
        #[trigger] names[i],
        in_path,
    ) by {
        lemma_warmed(c, names, in_path, now, i);
    }
    lemma_already_warm(first.census, names, in_path, later);
    law_warming_speaks_of_each_language(c, names, in_path, now);
    law_warming_speaks_of_each_language(first.census, names, in_path, later);
    assert forall|l: Language| l.executable(in_path) is Err implies first.census.spots[l]
        == c.spots[l] by {
        lemma_not_started(c, names, in_path, now, l);
    }
    let second = first.census.warming(names, in_path, later);
    assert forall|i: int| 0 <= i < names.len() implies first.infos[i] == second.infos[i] by {
        assert(warmed(first.census, names[i], in_path));
    }
    assert(second.infos =~= first.infos);
}

/// Whether the server of a language, if it can start, is there.
spec fn warmed(c: Census, name: Seq<char>, in_path: Seq<Seq<char>>) -> bool {
    Language::of_name(name) matches Some(l) ==> l.executable(in_path) is Ok ==> c.spots[l] is Taken
}

proof fn lemma_warmed(
    c: Census,
    names: Seq<Seq<char>>,
    in_path: Seq<Seq<char>>,
    now: u64,
    i: int,
)
    requires
        0 <= i < names.len(),
    ensures
        warmed(c.warming(names, in_path, now).census, names[i], in_path),
    decreases names.len(),
{
    if i < names.len() - 1 {
        lemma_warmed(c, names.drop_last(), in_path, now, i);
        assert(names.drop_last()[i] == names[i]);
    }
}

proof fn lemma_already_warm(
    c: Census,
    names: Seq<Seq<char>>,
    in_path: Seq<Seq<char>>,
    now: u64,
)
    requires
        forall|i: int| 0 <= i < names.len() ==> warmed(c, #[trigger] names[i], in_path),
    ensures
        c.warming(names, in_path, now).census == c,
        c.warming(names, in_path, now).starts == Seq::<Begun>::empty(),
    decreases names.len(),
{
    if names.len() > 0 {
        let rest = names.drop_last();
        assert forall|i: int| 0 <= i < rest.len() implies warmed(
            c,
            #[trigger] rest[i],
            in_path,
        ) by {
            assert(rest[i] == names[i]);
        }
        lemma_already_warm(c, rest, in_path, now);
        assert(warmed(c, names[names.len() - 1], in_path));
    }
}

// ── what happens to a daemon ─────────────────────────────────────────────────

/// What can happen to the servers of a daemon.
pub enum Event {
    /// A question about a file, given the names that are in `PATH`.
    Question { file: Seq<char>, in_path: Seq<Seq<char>>, now: u64 },
    /// These languages are warmed.
    Warm { names: Seq<Seq<char>>, in_path: Seq<Seq<char>>, now: u64 },
    /// The handshake of a start ended.
    Settled { ticket: u64, outcome: Result<(), Seq<char>> },
    /// The process of a start ended.
    Died { ticket: u64 },
    /// A server sent a notification.
    Heard { ticket: u64, method: Seq<char>, params: json::Json, now: u64 },
    /// A question was put to a server.
    Counted { ticket: u64 },
    /// The daemon shuts down.
    Shutdown,
}

impl Census {
    /// What runs after this.
    pub open spec fn once(self, system: System, e: Event) -> Census {
        match e {
            Event::Question { file, in_path, now } => self.questioned(
                system,
                file,
                in_path,
                now,
            ).0,
            Event::Warm { names, in_path, now } => self.warming(names, in_path, now).census,
            Event::Settled { ticket, outcome } => self.settling(ticket, outcome),
            Event::Died { ticket } => self.burying(ticket),
            Event::Heard { ticket, method, params, now } => self.hearing(
                ticket,
                method,
                params,
                now,
            ),
            Event::Counted { ticket } => self.counting(ticket),
            Event::Shutdown => self.emptied(),
        }
    }

    /// What runs after all this.
    pub open spec fn after(self, system: System, events: Seq<Event>) -> Census
        decreases events.len(),
    {
        if events.len() == 0 {
            self
        } else {
            self.after(system, events.drop_last()).once(system, events.last())
        }
    }
}

/// Whether the start of this ticket goes on through this: its handshake does not end,
/// and the daemon does not shut down.
pub open spec fn goes_on(ticket: u64, e: Event) -> bool {
    match e {
        Event::Settled { ticket: t, .. } => t != ticket,
        Event::Shutdown => false,
        _ => true,
    }
}

/// Whether the server of this language is that of this ticket, and still starting.
pub open spec fn is_starting(c: Census, lang: Language, ticket: u64) -> bool {
    c.holds(lang, ticket) && !c.spots[lang]->Taken_0.up
}

proof fn lemma_warming_keeps(
    c: Census,
    names: Seq<Seq<char>>,
    in_path: Seq<Seq<char>>,
    now: u64,
    lang: Language,
)
    requires
        c.spots[lang] is Taken,
    ensures
        c.warming(names, in_path, now).census.spots[lang] == c.spots[lang],
    decreases names.len(),
{
    if names.len() > 0 {
        lemma_warming_keeps(c, names.drop_last(), in_path, now, lang);
    }
}

proof fn lemma_still_starting(
    c: Census,
    system: System,
    lang: Language,
    ticket: u64,
    events: Seq<Event>,
)
    requires
        is_starting(c, lang, ticket),
        forall|i: int| 0 <= i < events.len() ==> goes_on(ticket, #[trigger] events[i]),
    ensures
        is_starting(c.after(system, events), lang, ticket),
    decreases events.len(),
{
    if events.len() > 0 {
        let rest = events.drop_last();
        assert forall|i: int| 0 <= i < rest.len() implies goes_on(
            ticket,
            #[trigger] rest[i],
        ) by {
            assert(rest[i] == events[i]);
        }
        lemma_still_starting(c, system, lang, ticket, rest);
        let before = c.after(system, rest);
        let e = events[events.len() - 1];
        assert(goes_on(ticket, e));
        match e {
            Event::Warm { names, in_path, now } => {
                lemma_warming_keeps(before, names, in_path, now, lang);
            },
            _ => {},
        }
    }
}

/// However many ask while a server starts, one is started: the first question about a
/// language that has none starts it, and every question about a file of that language
/// that comes before its handshake ends joins that same start, whatever else happens
/// in between, and changes nothing.
pub proof fn law_all_who_come_while_it_starts_join(
    c: Census,
    system: System,
    file: Seq<char>,
    in_path: Seq<Seq<char>>,
    now: u64,
    between: Seq<Event>,
    other: Seq<char>,
    its_path: Seq<Seq<char>>,
    later: u64,
)
    requires
        c.questioned(system, file, in_path, now).1 is Start,
        language_of(system, other) == language_of(system, file),
        forall|i: int|
            0 <= i < between.len() ==> goes_on(
                c.questioned(system, file, in_path, now).1->Start_0,
                #[trigger] between[i],
            ),
    ensures
        ({
            let (begun, a) = c.questioned(system, file, in_path, now);
            let met = begun.after(system, between);
            met.questioned(system, other, its_path, later) == (
                met,
                Admitted::Join(a->Start_0),
            )
        }),
{
    let (begun, a) = c.questioned(system, file, in_path, now);
    let lang = language_of(system, file)->0;
    assert(is_starting(begun, lang, a->Start_0));
    lemma_still_starting(begun, system, lang, a->Start_0, between);
}

/// What the questions about files of one language are told, one after the other.
pub open spec fn told(
    c: Census,
    system: System,
    files: Seq<Seq<char>>,
    in_path: Seq<Seq<char>>,
    now: u64,
) -> Seq<Admitted>
    decreases files.len(),
{
    if files.len() == 0 {
        Seq::empty()
    } else {
        told(c, system, files.drop_last(), in_path, now).push(
            c.after(
                system,
                files.drop_last().map_values(
                    |f: Seq<char>| Event::Question { file: f, in_path, now },
                ),
            ).questioned(system, files.last(), in_path, now).1,
        )
    }
}

/// Of any number of questions about a language that has no server, with an executable
/// that attends it, exactly the first starts one, and all the others join it: they get
/// what that one start gives.
pub proof fn law_of_many_who_ask_one_starts(
    c: Census,
    system: System,
    lang: Language,
    files: Seq<Seq<char>>,
    in_path: Seq<Seq<char>>,
    now: u64,
)
    requires
        !(c.spots[lang] is Taken),
        lang.executable(in_path) is Ok,
        forall|i: int|
            0 <= i < files.len() ==> language_of(system, #[trigger] files[i]) == Some(lang),
    ensures
        told(c, system, files, in_path, now).len() == files.len(),
        forall|i: int|
            0 <= i < files.len() ==> #[trigger] told(c, system, files, in_path, now)[i] == if i
                == 0 {
                Admitted::Start(ticket_of(lang, c.next), lang.executable(in_path)->Ok_0)
            } else {
                Admitted::Join(ticket_of(lang, c.next))
            },
    decreases files.len(),
{
    if files.len() > 0 {
        let rest = files.drop_last();
        assert forall|i: int| 0 <= i < rest.len() implies language_of(
            system,
            #[trigger] rest[i],
        ) == Some(lang) by {
            assert(rest[i] == files[i]);
        }
        law_of_many_who_ask_one_starts(c, system, lang, rest, in_path, now);
        let ask = |f: Seq<char>| Event::Question { file: f, in_path, now };
        let before = rest.map_values(ask);
        assert(language_of(system, files[files.len() - 1]) == Some(lang));
        if rest.len() == 0 {
            assert(before =~= Seq::empty());
        } else {
            let begun = c.questioned(system, files[0], in_path, now).0;
            let more = before.skip(1);
            assert(before[0] == ask(rest[0]) && rest[0] == files[0]);
            lemma_first_then_the_others(c, system, before);
            assert forall|i: int| 0 <= i < more.len() implies goes_on(
                ticket_of(lang, c.next),
                #[trigger] more[i],
            ) by {
                assert(more[i] == before[i + 1]);
                assert(before[i + 1] == ask(rest[i + 1]));
            }
            assert(language_of(system, files[0]) == Some(lang));
            assert(is_starting(begun, lang, ticket_of(lang, c.next)));
            lemma_still_starting(begun, system, lang, ticket_of(lang, c.next), more);
        }
    }
}

proof fn lemma_first_then_the_others(c: Census, system: System, events: Seq<Event>)
    requires
        events.len() > 0,
    ensures
        c.after(system, events) == c.once(system, events[0]).after(system, events.skip(1)),
    decreases events.len(),
{
    if events.len() == 1 {
        assert(events.drop_last() =~= Seq::empty());
        assert(events.skip(1) =~= Seq::empty());
        reveal_with_fuel(Census::after, 2);
    } else {
        lemma_first_then_the_others(c, system, events.drop_last());
        assert(events.drop_last().skip(1) =~= events.skip(1).drop_last());
        assert(events.skip(1).last() == events.last());
        assert(events.drop_last()[0] == events[0]);
    }
}

/// An error of a start is not kept: once it failed, the next question about a file of
/// its language starts another, and is told what that one gives.
pub proof fn law_who_asks_after_a_failure_starts_again(
    c: Census,
    system: System,
    lang: Language,
    ticket: u64,
    error: Seq<char>,
    file: Seq<char>,
    in_path: Seq<Seq<char>>,
    now: u64,
)
    requires
        c.wf(),
        is_starting(c, lang, ticket),
        language_of(system, file) == Some(lang),
    ensures
        ({
            let failed = c.settling(ticket, Err(error));
            let (again, a) = failed.questioned(system, file, in_path, now);
            &&& !failed.tickets().contains(ticket)
            &&& match lang.executable(in_path) {
                Ok(exe) => a == Admitted::Start(ticket_of(lang, c.next), exe) && is_starting(
                    again,
                    lang,
                    ticket_of(lang, c.next),
                ),
                Err(e) => a == Admitted::Refused(e) && again == failed,
            }
        }),
{
    lemma_holder(c, ticket);
    lemma_tickets_with(c, lang, Spot::Failed(error));
}

/// A file of no language is refused, starts nothing and changes nothing.
pub proof fn law_a_file_of_no_language_changes_nothing(
    c: Census,
    system: System,
    file: Seq<char>,
    in_path: Seq<Seq<char>>,
    now: u64,
)
    requires
        language_of(system, file) is None,
    ensures
        c.questioned(system, file, in_path, now).0 == c,
        c.questioned(system, file, in_path, now).1 is Refused,
{
}

/// The language of a file is decided by what follows the last dot of its name and by
/// nothing else: not by its directory, and not by what precedes that dot, with dots in
/// it or not.
pub proof fn law_the_extension_says_the_language(
    system: System,
    dir: Seq<char>,
    c: char,
    stem: Seq<char>,
    ext: Seq<char>,
)
    requires
        path::is_simple(system, dir),
        path::separates(system, c),
        path::is_piece(system, stem.push('.') + ext),
        stem.len() > 0,
        !ext.contains('.'),
        !(stem == seq!['.'] && ext.len() == 0),
    ensures
        ({
            let name = stem.push('.') + ext;
            let said = if ext == "rs"@ {
                Some(Language::Rust)
            } else if ext == "py"@ {
                Some(Language::Python)
            } else if ext == "java"@ {
                Some(Language::Java)
            } else if ext == "ts"@ || ext == "tsx"@ || ext == "js"@ || ext == "jsx"@ {
                Some(Language::TypeScript)
            } else {
                None
            };
            &&& language_of(system, dir.push(c) + name) == said
            &&& language_of(system, name) == said
            &&& extension_text(system, dir.push(c) + name) == ext
        }),
{
    path::law_an_extension_follows_the_last_dot(system, dir, c, stem, ext);
    language::law_extensions_are_of_one_language(ext);
}

/// A file whose name has no dot, or only one in front, is of no language.
pub proof fn law_a_file_without_an_extension_is_of_no_language(
    system: System,
    dir: Seq<char>,
    c: char,
    name: Seq<char>,
)
    requires
        path::is_simple(system, dir),
        path::separates(system, c),
        path::is_piece(system, name),
        path::is_piece(system, seq!['.'] + name),
        name.len() > 0,
        !name.contains('.'),
    ensures
        language_of(system, dir.push(c) + name) is None,
        language_of(system, dir.push(c) + (seq!['.'] + name)) is None,
{
    path::law_a_name_without_a_dot_has_no_extension(system, dir, c, name);
    let none = Seq::<char>::empty();
    language::law_extensions_are_of_one_language(none);
    reveal_strlit("rs");
    reveal_strlit("py");
    reveal_strlit("java");
    reveal_strlit("ts");
    reveal_strlit("tsx");
    reveal_strlit("js");
    reveal_strlit("jsx");
    assert("rs"@.len() == 2 && "py"@.len() == 2 && "java"@.len() == 4 && "ts"@.len() == 2
        && "tsx"@.len() == 3 && "js"@.len() == 2 && "jsx"@.len() == 3);
}

/// What a question about a file is told. Where its language has a server, to join that
/// one; where it has none, to start the executable that attends it, or why it cannot
/// be; where it has no language, that.
pub proof fn law_what_a_question_is_told(
    c: Census,
    system: System,
    file: Seq<char>,
    in_path: Seq<Seq<char>>,
    now: u64,
)
    ensures
        ({
            let (after, a) = c.questioned(system, file, in_path, now);
            match language_of(system, file) {
                None => after == c && a == Admitted::Refused(
                    "no LSP for extension ."@ + extension_text(system, file),
                ),
                Some(l) => match (c.spots[l], l.executable(in_path)) {
                    (Spot::Taken(s), _) => after == c && a == Admitted::Join(s.ticket),
                    (_, Err(e)) => after == c && a == Admitted::Refused(e),
                    (_, Ok(exe)) => {
                        &&& a matches Admitted::Start(ticket, x) && x == exe && after.holds(
                            l,
                            ticket,
                        )
                        &&& forall|other: Language|
                            other != l ==> (#[trigger] after.spots[other]) == c.spots[other]
                    },
                },
            }
        }),
{
}

/// A server starts with its handshake ahead, no question counted, its clock at zero and
/// the readiness of its language; and so `status` shows it.
pub proof fn law_how_a_server_starts(
    c: Census,
    lang: Language,
    exe: Seq<char>,
    now: u64,
    later: u64,
)
    requires
        !(c.spots[lang] is Taken),
        now <= later,
    ensures
        ({
            let s = c.admitting(lang, Ok(exe), now).0.spots[lang]->Taken_0;
            let line = line_of(lang, Spot::Taken(s), later)->0;
            &&& !s.up && !s.ended && s.queries == 0 && s.readiness == Readiness::at_birth(lang)
            &&& line.name == lang.server_name() && line.state == "STARTING"@ && line.queries == 0
            &&& line.since_progress_ms == later - now && line.error is None
        }),
{
}

/// What `status` says of a server that is up is what there is: its readiness, how many
/// questions it was asked and how long ago it last moved.
pub proof fn law_status_says_what_there_is(lang: Language, s: Running, now: u64)
    requires
        s.up,
        s.progress <= now,
    ensures
        line_of(lang, Spot::Taken(s), now) == Some(
            Line {
                name: lang.server_name(),
                state: match s.readiness {
                    Readiness::Indexing => "INDEXING"@,
                    Readiness::Ready => "READY"@,
                    Readiness::Running => "RUNNING"@,
                },
                queries: s.queries,
                since_progress_ms: (now - s.progress) as u64,
                error: None,
            },
        ),
        line_of(lang, Spot::Free, now) is None,
{
}

/// Each line of `status` is that of its server, whatever the others are: the lines of
/// the table are those of each place that has one, one after the other.
pub proof fn law_status_has_the_line_of_each_place(c: Census, now: u64)
    ensures
        ({
            let one = |l: Language|
                match line_of(l, c.spots[l], now) {
                    Some(line) => seq![line],
                    None => Seq::<Line>::empty(),
                };
            c.status(language::table(), now) == one(Language::Rust) + one(Language::Java) + one(
                Language::TypeScript,
            ) + one(Language::Python)
        }),
{
    let t = language::table();
    let t3 = t.drop_last();
    let t2 = t3.drop_last();
    let t1 = t2.drop_last();
    assert(t1.drop_last() =~= Seq::empty());
    assert(t.last() == Language::Python && t3.last() == Language::TypeScript && t2.last()
        == Language::Java && t1.last() == Language::Rust);
    reveal_with_fuel(Census::status, 5);
    let one = |l: Language|
        match line_of(l, c.spots[l], now) {
            Some(line) => seq![line],
            None => Seq::<Line>::empty(),
        };
    assert(c.status(t, now) =~= one(Language::Rust) + one(Language::Java) + one(
        Language::TypeScript,
    ) + one(Language::Python));
}

/// What each event leaves of a server: a handshake that ends well puts it up and leaves
/// the rest; a notification changes its readiness only to what it says, and its clock;
/// a question only its count, and while it starts not even that.
pub proof fn law_each_event_changes_what_it_tells(
    c: Census,
    lang: Language,
    ticket: u64,
    method: Seq<char>,
    params: json::Json,
    now: u64,
    error: Seq<char>,
)
    requires
        c.wf(),
        c.holds(lang, ticket),
    ensures
        ({
            let s = c.spots[lang]->Taken_0;
            let said = c.hearing(ticket, method, params, now).spots[lang]->Taken_0;
            let asked = c.counting(ticket).spots[lang]->Taken_0;
            &&& !s.up && !s.ended ==> c.settling(ticket, Ok(())).spots[lang] == Spot::Taken(
                Running { up: true, ..s },
            )
            &&& s.up ==> c.settling(ticket, Ok(())) == c && c.settling(ticket, Err(error)) == c
            &&& !s.up ==> c.settling(ticket, Err(error)).spots[lang] == Spot::Failed(error)
            &&& !s.up ==> c.burying(ticket).spots[lang] == Spot::Taken(Running { ended: true, ..s })
            &&& said == Running { readiness: said.readiness, progress: said.progress, ..s }
            &&& match lsp_client::readiness_said(method, params) {
                Some(r) => said.readiness == r,
                None => said.readiness == s.readiness,
            }
            &&& asked == Running { queries: asked.queries, ..s }
            &&& !s.up ==> c.counting(ticket) == c
            &&& s.up && s.queries < u64::MAX ==> asked.queries == s.queries + 1
            &&& s.up && s.queries == u64::MAX ==> asked.queries == 0
        }),
{
    lemma_holder(c, ticket);
    assert(c.with(lang, c.spots[lang]) =~= c);
}

/// Only a server that is up is asked, and of those only one that did not say that it is
/// indexing; a ticket that nobody has is of a server that is gone.
pub proof fn law_who_is_asked(c: Census, lang: Language, ticket: u64)
    requires
        c.wf(),
    ensures
        c.holds(lang, ticket) ==> (c.asking(ticket) is Go <==> c.spots[lang]->Taken_0.up
            && c.spots[lang]->Taken_0.readiness != Readiness::Indexing),
        c.holds(lang, ticket) ==> (c.asking(ticket) is NotReady <==> c.spots[lang]->Taken_0.up
            && c.spots[lang]->Taken_0.readiness == Readiness::Indexing),
        c.holds(lang, ticket) && !c.spots[lang]->Taken_0.up ==> c.asking(ticket) is Gone,
        !c.tickets().contains(ticket) ==> c.asking(ticket) is Gone,
{
    lemma_holder(c, ticket);
}

/// Warming starts the server of each language that it was asked for, if it has an
/// executable and no server yet, and of no other; those that there are stay as they are.
pub proof fn law_warming_starts_what_is_missing(
    c: Census,
    names: Seq<Seq<char>>,
    in_path: Seq<Seq<char>>,
    now: u64,
    lang: Language,
)
    ensures
        ({
            let w = c.warming(names, in_path, now);
            let missing = names.contains(lang.id_text()) && !(c.spots[lang] is Taken)
                && lang.executable(in_path) is Ok;
            &&& missing ==> w.census.spots[lang] is Taken
            &&& !missing ==> w.census.spots[lang] == c.spots[lang]
            &&& missing <==> exists|i: int|
                0 <= i < w.starts.len() && (#[trigger] w.starts[i]).lang == lang
            &&& forall|i: int|
                0 <= i < w.starts.len() && (#[trigger] w.starts[i]).lang == lang
                    ==> lang.executable(in_path) == Ok::<_, Seq<char>>(w.starts[i].exe)
                    && w.census.holds(lang, w.starts[i].ticket)
            &&& w.infos.len() == names.len()
        }),
    decreases names.len(),
{
    if names.len() > 0 {
        let rest = names.drop_last();
        let last = names.last();
        law_warming_starts_what_is_missing(c, rest, in_path, now, lang);
        language::law_a_name_goes_and_comes_back(lang, last);
        let before = c.warming(rest, in_path, now);
        let w = c.warming(names, in_path, now);
        assert(names =~= rest.push(last));
        if rest.contains(lang.id_text()) {
            let i = choose|i: int| 0 <= i < rest.len() && rest[i] == lang.id_text();
            assert(names[i] == lang.id_text());
        }
        if names.contains(lang.id_text()) && last != lang.id_text() {
            let i = choose|i: int| 0 <= i < names.len() && names[i] == lang.id_text();
            assert(rest[i] == lang.id_text());
        }
        assert(names[names.len() - 1] == last);
        assert forall|i: int|
            0 <= i < w.starts.len() && (#[trigger] w.starts[i]).lang == lang implies lang.executable(
            in_path,
        ) == Ok::<_, Seq<char>>(w.starts[i].exe) && w.census.holds(lang, w.starts[i].ticket) by {
            if i < before.starts.len() {
                assert(before.starts[i] == w.starts[i]);
            }
        }
        let missing = names.contains(lang.id_text()) && !(c.spots[lang] is Taken)
            && lang.executable(in_path) is Ok;
        if missing {
            if exists|i: int|
                0 <= i < before.starts.len() && (#[trigger] before.starts[i]).lang == lang {
                let i = choose|i: int|
                    0 <= i < before.starts.len() && (#[trigger] before.starts[i]).lang == lang;
                assert(w.starts[i].lang == lang);
            } else {
                assert(w.starts[w.starts.len() - 1].lang == lang);
            }
        } else if exists|i: int|
            0 <= i < w.starts.len() && (#[trigger] w.starts[i]).lang == lang {
            let i = choose|i: int|
                0 <= i < w.starts.len() && (#[trigger] w.starts[i]).lang == lang;
            if i < before.starts.len() {
                assert(before.starts[i].lang == lang);
            }
        }
    }
}

/// What is warmed: with languages asked for, those and no others, each where it first
/// came; with none, those that the root of the workspace is marked for.
pub proof fn law_which_languages_are_warmed(
    languages: Seq<Seq<char>>,
    root_files: Seq<Seq<char>>,
    name: Seq<char>,
    lang: Language,
)
    ensures
        languages.len() > 0 ==> (to_warm(languages, root_files).contains(name)
            <==> languages.contains(name)),
        languages.len() > 0 && languages.no_duplicates() ==> to_warm(languages, root_files)
            == languages,
        to_warm(Seq::empty(), root_files).contains(lang.id_text()) <==> lang.marked_by(root_files),
        to_warm(languages, root_files).no_duplicates(),
        languages.len() > 0 ==> to_warm(languages.push(name), root_files) == if languages.contains(
            name,
        ) {
            to_warm(languages, root_files)
        } else {
            to_warm(languages, root_files).push(name)
        },
{
    law_a_repeated_language_is_one(languages, name);
    lemma_distinct_stay(languages);
    assert(languages.push(name).drop_last() =~= languages);
    let here = |l: Language| l.marked_by(root_files);
    let id = |l: Language| l.id_text();
    let found = language::table().filter(here);
    language::lemma_table_filtered(here);
    let ids = found.map_values(id);
    if found.contains(lang) {
        let i = choose|i: int| 0 <= i < found.len() && found[i] == lang;
        assert(ids[i] == lang.id_text());
    }
    if ids.contains(lang.id_text()) {
        let i = choose|i: int| 0 <= i < ids.len() && ids[i] == lang.id_text();
        language::law_a_name_goes_and_comes_back(found[i], lang.id_text());
        language::law_a_name_goes_and_comes_back(lang, lang.id_text());
        assert(found[i] == lang);
    }
    assert forall|i: int, j: int| 0 <= i < ids.len() && 0 <= j < ids.len() && i != j implies ids[i]
        != ids[j] by {
        language::law_a_name_goes_and_comes_back(found[i], ids[i]);
        language::law_a_name_goes_and_comes_back(found[j], ids[j]);
    }
}

proof fn lemma_distinct_stay(names: Seq<Seq<char>>)
    ensures
        names.no_duplicates() ==> each_once(names) == names,
    decreases names.len(),
{
    if names.no_duplicates() && names.len() > 0 {
        let rest = names.drop_last();
        assert(rest.no_duplicates());
        lemma_distinct_stay(rest);
        assert(!rest.contains(names.last()));
        assert(rest.push(names.last()) =~= names);
    } else if names.len() == 0 {
        assert(each_once(names) =~= names);
    }
}

/// A shutdown leaves nothing, and gives no ticket again: the next start has the one that
/// it would have had.
pub proof fn law_a_shutdown_gives_no_ticket_again(c: Census, lang: Language, exe: Seq<char>, now: u64)
    requires
        !(c.spots[lang] is Taken),
    ensures
        c.emptied().spots[lang] == Spot::Free,
        c.emptied().admitting(lang, Ok(exe), now).1 == c.admitting(lang, Ok(exe), now).1,
{
}

/// Also on a share and behind `\\?\`, on Windows, the language of a file is the one that
/// its extension says.
pub proof fn law_a_file_of_a_share_has_its_language(
    c: char,
    server: Seq<char>,
    share: Seq<char>,
    tail: Seq<char>,
    drive: char,
    rest: Seq<char>,
    stem: Seq<char>,
    ext: Seq<char>,
)
    requires
        c == '/' || c == '\\',
        server.len() > 0,
        share.len() > 0,
        path::is_piece(System::Unix, server) && !server.contains('\\'),
        path::is_piece(System::Unix, share) && !share.contains('\\'),
        server != seq!['?'],
        tail.len() > 0 ==> path::separates(System::Windows, tail[0]),
        'a' <= drive <= 'z' || 'A' <= drive <= 'Z',
        path::is_piece(System::Windows, stem.push('.') + ext),
        stem.len() > 0,
        !ext.contains('.'),
        !(stem == seq!['.'] && ext.len() == 0),
    ensures
        ({
            let w = System::Windows;
            let name = stem.push('.') + ext;
            let shared = seq![c, c] + server.push(c) + share + tail.push(c) + name;
            let letter = seq!['\\', '\\', '?', '\\', drive, ':', '\\'] + rest.push('\\') + name;
            &&& language_of(w, shared) == language_of(w, name)
            &&& language_of(w, letter) == language_of(w, name)
        }),
{
    path::law_a_file_of_a_share_has_its_extension(c, server, share, tail, drive, rest, stem, ext);
    law_the_extension_says_the_language(System::Windows, Seq::empty(), c, stem, ext);
}

} // verus!
