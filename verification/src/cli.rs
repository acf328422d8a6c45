//! What the command line reads and says.

use crate::json;
use crate::language;
use crate::language::Language;
use crate::text;
use crate::text::{lines, pad, same, write_number};
use crate::text_map::TextMap;
use crate::transport::Endpoint;
use crate::wait;
use crate::wait::{text_or_mark, ServerState, Waited};
use serde_json::Value;
use vstd::prelude::*;
use vstd::string::*;

verus! {

/// What is said of a language that is not in the table.
pub open spec fn unknown_language(s: Seq<char>) -> Seq<char> {
    "no hay language server para `"@ + s + "`: los lenguajes son "@ + text::joined(
        language::table().map_values(|l: Language| l.id_text()),
        ", "@,
    )
}

/// The name of a language, if the table has it; an error that says which ones there
/// are, if not.
pub fn language_name(s: &str) -> (r: Result<String, String>)
    ensures
        match r {
            Ok(name) => Language::of_name(s@) is Some && name@ == s@,
            Err(e) => Language::of_name(s@) is None && e@ == unknown_language(s@),
        },
{
    match Language::from_name(s) {
        Some(l) => Ok(l.id().to_owned()),
        None => {
            let mut names: Vec<String> = Vec::new();
            for i in 0..4usize
                invariant
                    names@.len() == i,
                    forall|j: int|
                        0 <= j < i ==> (#[trigger] names@[j])@ == language::table()[j].id_text(),
            {
                let l = Language::ALL[i];
                assert(l == language::table()[i as int]);
                names.push(l.id().to_owned());
            }
            assert(text::texts(names@) =~= language::table().map_values(
                |l: Language| l.id_text(),
            ));
            let mut e = "no hay language server para `".to_owned();
            e.append(s);
            e.append("`: los lenguajes son ");
            e.append(text::join(names.as_slice(), ", ").as_str());
            Err(e)
        },
    }
}

// ── starting ─────────────────────────────────────────────────────────────────

/// What `start` does, given whether a daemon answers at the door of the workspace.
#[derive(Debug, Clone, Copy, PartialEq, Eq, Structural)]
pub enum StartStep {
    /// Says that there is one, and returns 1: two at one door would leave the second
    /// unable to listen.
    Refuse,
    /// Takes the one that there is.
    Take,
    /// Starts one.
    Spawn,
}

/// What `start` does. With `--wait`, one that is alive is no error: what is asked for
/// is the workspace ready, and to be up is half the way.
pub fn start_step(answers: bool, wait: bool) -> (r: StartStep)
    ensures
        r == if !answers {
            StartStep::Spawn
        } else if wait {
            StartStep::Take
        } else {
            StartStep::Refuse
        },
{
    if !answers {
        StartStep::Spawn
    } else if wait {
        StartStep::Take
    } else {
        StartStep::Refuse
    }
}

/// What is said of a daemon: which process it is, and where it listens.
pub open spec fn daemon_text(what: Seq<char>, pid: u32, endpoint: Seq<char>) -> Seq<char> {
    what + "  pid="@ + text::decimal(pid as nat) + "  endpoint="@ + endpoint
}

/// What is said of a daemon: which process it is, and where it listens.
pub fn daemon_line(what: &str, pid: u32, endpoint: &Endpoint) -> (r: String)
    ensures
        r@ == daemon_text(what@, pid, endpoint.text()),
{
    let mut r = what.to_owned();
    r.append("  pid=");
    r.append(write_number(pid as u64, 10).as_str());
    r.append("  endpoint=");
    r.append(endpoint.display().as_str());
    r
}

/// What is said where there already is a daemon and nobody asked to wait.
pub fn already_running(pid: u32) -> (r: String)
    ensures
        r@ == "el daemon de este workspace ya está corriendo  pid="@ + text::decimal(pid as nat),
{
    let mut r = "el daemon de este workspace ya está corriendo  pid=".to_owned();
    r.append(write_number(pid as u64, 10).as_str());
    r
}

/// A window of silence given in seconds, in milliseconds.
pub open spec fn millis(seconds: u64) -> u64 {
    if seconds * 1000 > u64::MAX {
        u64::MAX
    } else {
        (seconds * 1000) as u64
    }
}

pub fn stall_window(seconds: u64) -> (r: u64)
    ensures
        r == millis(seconds),
{
    if seconds > u64::MAX / 1000 {
        u64::MAX
    } else {
        seconds * 1000
    }
}

// ── what `warm` answered ─────────────────────────────────────────────────────

/// What `warm` answered, as `start --wait` takes it.
#[derive(Debug)]
pub struct Warmed {
    /// What is said of the servers that did not start.
    pub lines: Vec<String>,
    /// The servers to wait for.
    pub servers: Vec<String>,
    /// Whether there was anything to warm.
    pub any: bool,
}

/// The values of a list. What is not one holds none.
pub open spec fn items_of(j: json::Json) -> Seq<json::Json> {
    match j {
        json::Json::Array(list) => list,
        _ => Seq::empty(),
    }
}

/// The name that a line of an answer gives.
pub open spec fn name_of(j: json::Json) -> Seq<char> {
    match json::text_member(j, "name"@) {
        Some(s) => s,
        None => "?"@,
    }
}

/// What is said of a server that did not start.
pub open spec fn not_started(name: Seq<char>, why: Seq<char>) -> Seq<char> {
    "  "@ + name + " no arrancó: "@ + why
}

fn not_started_line(name: &str, why: &str) -> (r: String)
    ensures
        r@ == not_started(name@, why@),
{
    let mut r = "  ".to_owned();
    r.append(name);
    r.append(" no arrancó: ");
    r.append(why);
    r
}

/// The lines of an answer to `warm` that say an error.
pub open spec fn warm_failures(j: json::Json) -> Seq<json::Json> {
    items_of(j).filter(|w: json::Json| json::text_member(w, "error"@) is Some)
}

/// The lines of an answer to `warm` that say none.
pub open spec fn warm_successes(j: json::Json) -> Seq<json::Json> {
    items_of(j).filter(|w: json::Json| json::text_member(w, "error"@) is None)
}

/// What is said of the failures that an answer to `warm` tells.
pub open spec fn warm_lines(failures: Seq<json::Json>) -> Seq<Seq<char>> {
    failures.map_values(
        |w: json::Json| not_started(name_of(w), json::text_member(w, "error"@)->0),
    )
}

/// Reads what `warm` answered. A server that did not start is said, and the others
/// are waited for all the same.
pub fn read_warmed(answer: &Value) -> (r: Warmed)
    ensures
        text::texts(r.lines@) == warm_lines(warm_failures(json::json(*answer))),
        text::texts(r.servers@) == warm_successes(json::json(*answer)).map_values(
            |w: json::Json| name_of(w),
        ),
        r.any == (items_of(json::json(*answer)).len() > 0),
{
    let mut lines: Vec<String> = Vec::new();
    let mut servers: Vec<String> = Vec::new();
    let ghost j = json::json(*answer);
    let ghost fails = |w: json::Json| json::text_member(w, "error"@) is Some;
    let ghost starts = |w: json::Json| json::text_member(w, "error"@) is None;
    let ghost names = |w: json::Json| name_of(w);
    match json::as_array(answer) {
        None => {
            proof {
                reveal(Seq::filter);
                assert(text::texts(lines@) =~= warm_lines(warm_failures(j)));
                assert(text::texts(servers@) =~= warm_successes(j).map_values(names));
            }
            Warmed { lines, servers, any: false }
        },
        Some(list) => {
            let ghost all = json::jsons(list@);
            proof {
                reveal(Seq::filter);
                assert(text::texts(lines@) =~= warm_lines(all.take(0).filter(fails)));
                assert(text::texts(servers@) =~= all.take(0).filter(starts).map_values(names));
            }
            for i in 0..list.len()
                invariant
                    all == json::jsons(list@),
                    fails == (|w: json::Json| json::text_member(w, "error"@) is Some),
                    starts == (|w: json::Json| json::text_member(w, "error"@) is None),
                    names == (|w: json::Json| name_of(w)),
                    text::texts(lines@) == warm_lines(all.take(i as int).filter(fails)),
                    text::texts(servers@) == all.take(i as int).filter(starts).map_values(names),
            {
                let ghost w = all[i as int];
                let ghost said = text::texts(lines@);
                let ghost kept = text::texts(servers@);
                let ghost failed = all.take(i as int).filter(fails);
                let ghost started = all.take(i as int).filter(starts);
                let name = text_or_mark(&list[i], "name");
                proof {
                    assert(w == json::json(list@[i as int]));
                    assert(all.take(i + 1).drop_last() =~= all.take(i as int));
                    reveal(Seq::filter);
                }
                match json::get_str(&list[i], "error") {
                    Some(e) => {
                        let line = not_started_line(name.as_str(), e);
                        lines.push(line);
                        proof {
                            assert(text::texts(lines@) =~= said.push(line@));
                            assert(all.take(i + 1).filter(fails) == failed.push(w));
                            assert(warm_lines(failed.push(w)) =~= warm_lines(failed).push(line@));
                            assert(all.take(i + 1).filter(starts) == started);
                        }
                    },
                    None => {
                        servers.push(name);
                        proof {
                            assert(text::texts(servers@) =~= kept.push(name@));
                            assert(all.take(i + 1).filter(starts) == started.push(w));
                            assert(started.push(w).map_values(names) =~= started.map_values(
                                names,
                            ).push(name@));
                            assert(all.take(i + 1).filter(fails) == failed);
                        }
                    },
                }
            }
            assert(all.take(all.len() as int) =~= all);
            Warmed { lines, servers, any: list.len() > 0 }
        },
    }
}

/// What is said where the root of a workspace has no marker.
pub fn nothing_to_warm(workspace: &str) -> (r: String)
    ensures
        r@ == "no hay marcadores de proyecto en la raíz de "@ + workspace@
            + ": nada que calentar"@,
{
    let mut r = "no hay marcadores de proyecto en la raíz de ".to_owned();
    r.append(workspace);
    r.append(": nada que calentar");
    r
}

// ── the progress of a wait ───────────────────────────────────────────────────

/// How often a server that is still on its way is recalled, in milliseconds.
pub const HEARTBEAT: u64 = 30_000;

/// What to say of the progress: a line when a server changes its state, and another
/// each [`HEARTBEAT`] while it is `STARTING` or `INDEXING`.
///
/// Neither each time it is looked nor only the changes: those would be hundreds of
/// lines, and these, minutes of a silence that looks like a hang.
#[derive(Debug)]
pub struct Progress {
    /// By server: the last state that was said, and when.
    said: TextMap<(String, u64)>,
}

impl View for Progress {
    type V = Map<Seq<char>, (Seq<char>, u64)>;

    closed spec fn view(&self) -> Map<Seq<char>, (Seq<char>, u64)> {
        self.said@.map_values(|v: (String, u64)| (v.0@, v.1))
    }
}

/// Whether a server is to be spoken of.
pub open spec fn due(
    said: Map<Seq<char>, (Seq<char>, u64)>,
    elapsed: u64,
    s: wait::Server,
) -> bool {
    ||| !said.dom().contains(s.name)
    ||| said[s.name].0 != s.state
    ||| wait::is_waited(s.state) && language::elapsed(said[s.name].1, elapsed) >= HEARTBEAT
}

/// What is said of a server.
pub open spec fn progress_line(elapsed: u64, s: wait::Server) -> Seq<char> {
    "  "@ + text::padded(s.name, 28) + text::padded(s.state, 10) + text::decimal(
        (elapsed / 1000) as nat,
    ) + "s"@
}

/// What has been said once these servers were seen.
pub open spec fn said_after(
    said: Map<Seq<char>, (Seq<char>, u64)>,
    elapsed: u64,
    seen: Seq<wait::Server>,
) -> Map<Seq<char>, (Seq<char>, u64)>
    decreases seen.len(),
{
    if seen.len() == 0 {
        said
    } else {
        let before = said_after(said, elapsed, seen.drop_last());
        if due(before, elapsed, seen.last()) {
            before.insert(seen.last().name, (seen.last().state, elapsed))
        } else {
            before
        }
    }
}

/// What is said when these servers are seen.
pub open spec fn progress_lines(
    said: Map<Seq<char>, (Seq<char>, u64)>,
    elapsed: u64,
    seen: Seq<wait::Server>,
) -> Seq<Seq<char>>
    decreases seen.len(),
{
    if seen.len() == 0 {
        Seq::empty()
    } else {
        let before = progress_lines(said, elapsed, seen.drop_last());
        if due(said_after(said, elapsed, seen.drop_last()), elapsed, seen.last()) {
            before.push(progress_line(elapsed, seen.last()))
        } else {
            before
        }
    }
}

impl Default for Progress {
    /// Nothing said yet.
    fn default() -> (r: Progress)
        ensures
            r.wf(),
            r@ == Map::<Seq<char>, (Seq<char>, u64)>::empty(),
    {
        let r = Progress { said: TextMap::new() };
        assert(r@ =~= Map::<Seq<char>, (Seq<char>, u64)>::empty());
        r
    }
}

impl Progress {
    /// No server is kept twice.
    pub closed spec fn wf(self) -> bool {
        self.said.wf()
    }

    fn is_due(&self, elapsed: u64, s: &ServerState) -> (r: bool)
        requires
            self.wf(),
        ensures
            r == due(self@, elapsed, s@),
    {
        match self.said.get(s.name.as_str()) {
            None => true,
            Some(last) => if !same(last.0.as_str(), s.state.as_str()) {
                true
            } else {
                (same(s.state.as_str(), "STARTING") || same(s.state.as_str(), "INDEXING"))
                    && elapsed.saturating_sub(last.1) >= HEARTBEAT
            },
        }
    }

    /// What to say of these servers, this long after the wait began.
    pub fn observe(&mut self, elapsed: u64, seen: &[ServerState]) -> (r: Vec<String>)
        requires
            old(self).wf(),
        ensures
            final(self).wf(),
            text::texts(r@) == progress_lines(old(self)@, elapsed, wait::servers_of(seen@)),
            final(self)@ == said_after(old(self)@, elapsed, wait::servers_of(seen@)),
    {
        let mut lines: Vec<String> = Vec::new();
        let ghost all = wait::servers_of(seen@);
        let ghost first = self@;
        assert(text::texts(lines@) =~= progress_lines(first, elapsed, all.take(0)));
        for i in 0..seen.len()
            invariant
                all == wait::servers_of(seen@),
                first == old(self)@,
                self.wf(),
                self@ == said_after(first, elapsed, all.take(i as int)),
                text::texts(lines@) == progress_lines(first, elapsed, all.take(i as int)),
        {
            let ghost before = text::texts(lines@);
            let ghost said = self@;
            let s = &seen[i];
            proof {
                assert(all[i as int] == s@);
                assert(all.take(i + 1).drop_last() =~= all.take(i as int));
            }
            if self.is_due(elapsed, s) {
                let mut line = "  ".to_owned();
                line.append(pad(s.name.as_str(), 28).as_str());
                line.append(pad(s.state.as_str(), 10).as_str());
                line.append(write_number(elapsed / 1000, 10).as_str());
                line.append("s");
                lines.push(line);
                self.said.insert(s.name.as_str(), (s.state.clone(), elapsed));
                proof {
                    assert(text::texts(lines@) =~= before.push(progress_line(elapsed, s@)));
                    assert(self@ =~= said.insert(s@.name, (s@.state, elapsed)));
                }
            }
        }
        assert(all.take(all.len() as int) =~= all);
        lines
    }
}

// ── how a wait ended ─────────────────────────────────────────────────────────

/// The lines of a text, set in below a line.
pub open spec fn set_in(s: Seq<char>) -> Seq<char> {
    "      "@ + s
}

/// What is said of a server that did not start: the first line of the error beside
/// its name, and the rest, which is what it wrote in stderr, set in below.
pub open spec fn failure_texts(name: Seq<char>, error: Seq<char>) -> Seq<Seq<char>> {
    let all = text::lines_of(error);
    if all.len() == 0 {
        seq![not_started(name, Seq::empty())]
    } else {
        seq![not_started(name, all[0])] + all.skip(1).map_values(|l: Seq<char>| set_in(l))
    }
}

fn set_in_line(s: &str) -> (r: String)
    ensures
        r@ == set_in(s@),
{
    let mut r = "      ".to_owned();
    r.append(s);
    r
}

/// What is said of a server that did not start.
pub fn failure_lines(name: &str, error: &str) -> (r: Vec<String>)
    ensures
        text::texts(r@) == failure_texts(name@, error@),
{
    let all = lines(error);
    let ghost texts = text::texts(all@);
    let mut r: Vec<String> = Vec::new();
    if all.len() == 0 {
        r.push(not_started_line(name, ""));
        proof {
            reveal_strlit("");
            assert(""@ =~= Seq::<char>::empty());
            assert(text::texts(r@) =~= seq![not_started(name@, Seq::empty())]);
        }
        return r;
    }
    r.push(not_started_line(name, all[0].as_str()));
    for i in 1..all.len()
        invariant
            texts == text::texts(all@),
            all@.len() > 0,
            r@.len() == i,
            r@[0]@ == not_started(name@, texts[0]),
            forall|j: int| 1 <= j < i ==> (#[trigger] r@[j])@ == set_in(texts[j]),
    {
        r.push(set_in_line(all[i].as_str()));
    }
    proof {
        let want = failure_texts(name@, error@);
        assert forall|j: int| 0 <= j < r@.len() implies text::texts(r@)[j] == want[j] by {
            if j > 0 {
                assert(r@[j]@ == set_in(texts[j]));
                assert(texts.skip(1)[j - 1] == texts[j]);
            }
        }
        assert(text::texts(r@) =~= want);
    }
    r
}

/// What is said of a server that disappeared.
pub open spec fn gone_text(name: Seq<char>) -> Seq<char> {
    not_started(
        name,
        "su proceso terminó antes de quedar listo, y el daemon ya no lo tiene"@,
    )
}

/// What is said of a server that got stuck.
pub open spec fn stalled_text(name: Seq<char>, seconds: u64) -> Seq<char> {
    "  "@ + name + " lleva "@ + text::decimal(seconds as nat)
        + "s indexando sin reportar progreso: no se lo espera más. El daemon queda vivo."@
}

/// What is said of those that failed, one after the other.
pub open spec fn all_failures(failed: Seq<(Seq<char>, Seq<char>)>) -> Seq<Seq<char>>
    decreases failed.len(),
{
    if failed.len() == 0 {
        Seq::empty()
    } else {
        all_failures(failed.drop_last()) + failure_texts(failed.last().0, failed.last().1)
    }
}

/// What is said of how a wait ended: of those that failed, those that disappeared and
/// those that got stuck, in this order.
pub open spec fn wait_texts(out: wait::Outcome, seconds: u64) -> Seq<Seq<char>> {
    all_failures(out.failed) + out.gone.map_values(|n: Seq<char>| gone_text(n))
        + out.stalled.map_values(|n: Seq<char>| stalled_text(n, seconds))
}

/// What is said of how a wait ended.
pub fn wait_lines(out: &Waited, seconds: u64) -> (r: Vec<String>)
    ensures
        text::texts(r@) == wait_texts(out@, seconds),
{
    let mut r: Vec<String> = Vec::new();
    let ghost failed = out@.failed;
    let ghost gone = out@.gone.map_values(|n: Seq<char>| gone_text(n));
    let ghost stalled = out@.stalled.map_values(|n: Seq<char>| stalled_text(n, seconds));
    assert(text::texts(r@) =~= all_failures(failed.take(0)));
    for i in 0..out.failed.len()
        invariant
            failed == out@.failed,
            text::texts(r@) == all_failures(failed.take(i as int)),
    {
        let ghost before = r@;
        let mut more = failure_lines(out.failed[i].0.as_str(), out.failed[i].1.as_str());
        let ghost added = more@;
        r.append(&mut more);
        proof {
            assert(failed.take(i + 1).drop_last() =~= failed.take(i as int));
            assert(text::texts(before + added) =~= text::texts(before) + text::texts(added));
        }
    }
    assert(failed.take(failed.len() as int) =~= failed);
    assert(text::texts(r@) =~= all_failures(failed) + gone.take(0));
    for i in 0..out.gone.len()
        invariant
            failed == out@.failed,
            gone == out@.gone.map_values(|n: Seq<char>| gone_text(n)),
            text::texts(r@) == all_failures(failed) + gone.take(i as int),
    {
        let ghost before = text::texts(r@);
        let line = not_started_line(
            out.gone[i].as_str(),
            "su proceso terminó antes de quedar listo, y el daemon ya no lo tiene",
        );
        r.push(line);
        proof {
            assert(gone[i as int] == line@);
            assert(text::texts(r@) =~= before.push(line@));
            assert(text::texts(r@) =~= all_failures(failed) + gone.take(i + 1));
        }
    }
    assert(gone.take(gone.len() as int) =~= gone);
    assert(text::texts(r@) =~= all_failures(failed) + gone + stalled.take(0));
    for i in 0..out.stalled.len()
        invariant
            failed == out@.failed,
            gone == out@.gone.map_values(|n: Seq<char>| gone_text(n)),
            stalled == out@.stalled.map_values(|n: Seq<char>| stalled_text(n, seconds)),
            text::texts(r@) == all_failures(failed) + gone + stalled.take(i as int),
    {
        let ghost before = text::texts(r@);
        let mut line = "  ".to_owned();
        line.append(out.stalled[i].as_str());
        line.append(" lleva ");
        line.append(write_number(seconds, 10).as_str());
        line.append(
            "s indexando sin reportar progreso: no se lo espera más. El daemon queda vivo.",
        );
        r.push(line);
        proof {
            assert(stalled[i as int] == line@);
            assert(text::texts(r@) =~= before.push(line@));
            assert(text::texts(r@) =~= all_failures(failed) + gone + stalled.take(i + 1));
        }
    }
    assert(stalled.take(stalled.len() as int) =~= stalled);
    r
}

/// Whether `start --wait` ends well: every server that was warmed started, and every
/// one that was waited for got ready.
pub fn all_ready(warmed: &Warmed, waited: &Waited) -> (r: bool)
    ensures
        r == (warmed.lines@.len() == 0 && waited@.is_ok()),
{
    warmed.lines.len() == 0 && waited.is_ok()
}

// ── what `status` shows ──────────────────────────────────────────────────────

/// How many questions a line of the answer to `status` says that were asked.
pub open spec fn queries_text(s: json::Json) -> Seq<char> {
    "queries="@ + json::json_text(
        match json::member(s, "queries"@) {
            Some(q) => q,
            None => json::Json::Null,
        },
    )
}

/// What is shown of a line of the answer to `status`.
pub open spec fn status_text(s: json::Json) -> Seq<char> {
    "  "@ + text::padded(name_of(s), 28) + text::padded(
        match json::text_member(s, "state"@) {
            Some(t) => t,
            None => "?"@,
        },
        10,
    ) + match json::u64_member(s, "since_progress_ms"@) {
        Some(ms) => text::padded(queries_text(s), 11) + "  progreso hace "@ + text::decimal(
            (ms / 1000) as nat,
        ) + "s"@,
        None => text::padded(queries_text(s), 13),
    }
}

/// What is shown of a line of the answer to `status`, and below it why it failed, if
/// it says so.
pub open spec fn status_item(s: json::Json) -> Seq<Seq<char>> {
    seq![status_text(s)] + match json::text_member(s, "error"@) {
        Some(e) => text::lines_of(e).map_values(|l: Seq<char>| set_in(l)),
        None => Seq::empty(),
    }
}

pub open spec fn status_items(list: Seq<json::Json>) -> Seq<Seq<char>>
    decreases list.len(),
{
    if list.len() == 0 {
        Seq::empty()
    } else {
        status_items(list.drop_last()) + status_item(list.last())
    }
}

/// What is shown of the answer to `status`. With no server it says so: they start by
/// language and on demand, and none yet is normal.
pub open spec fn status_texts(j: json::Json) -> Seq<Seq<char>> {
    if items_of(j).len() == 0 {
        seq!["  (ninguno arrancado todavía)"@]
    } else {
        status_items(items_of(j))
    }
}

fn status_line(s: &Value) -> (r: String)
    ensures
        r@ == status_text(json::json(*s)),
{
    let mut queries = "queries=".to_owned();
    match json::get(s, "queries") {
        Some(q) => queries.append(json::print(q).as_str()),
        None => queries.append(json::print(&json::null()).as_str()),
    }
    let mut r = "  ".to_owned();
    r.append(pad(text_or_mark(s, "name").as_str(), 28).as_str());
    r.append(pad(text_or_mark(s, "state").as_str(), 10).as_str());
    match json::get_u64(s, "since_progress_ms") {
        Some(ms) => {
            let mut end = pad(queries.as_str(), 11);
            end.append("  progreso hace ");
            end.append(write_number(ms / 1000, 10).as_str());
            end.append("s");
            r.append(end.as_str());
        },
        None => r.append(pad(queries.as_str(), 13).as_str()),
    }
    r
}

/// What is shown of the answer to `status`.
pub fn status_lines(answer: &Value) -> (r: Vec<String>)
    ensures
        text::texts(r@) == status_texts(json::json(*answer)),
{
    let mut r: Vec<String> = Vec::new();
    match json::as_array(answer) {
        None => {},
        Some(list) => {
            let ghost all = json::jsons(list@);
            assert(text::texts(r@) =~= status_items(all.take(0)));
            for i in 0..list.len()
                invariant
                    all == json::jsons(list@),
                    text::texts(r@) == status_items(all.take(i as int)),
            {
                let ghost before = text::texts(r@);
                let ghost item = status_item(all[i as int]);
                proof {
                    assert(all.take(i + 1).drop_last() =~= all.take(i as int));
                    assert(all[i as int] == json::json(list@[i as int]));
                }
                r.push(status_line(&list[i]));
                assert(text::texts(r@) =~= before + item.take(1));
                match json::get_str(&list[i], "error") {
                    None => {
                        assert(item.take(1) =~= item);
                    },
                    Some(e) => {
                        let below = lines(e);
                        for k in 0..below.len()
                            invariant
                                text::texts(below@) == text::lines_of(e@),
                                item == seq![status_text(all[i as int])] + text::lines_of(
                                    e@,
                                ).map_values(|l: Seq<char>| set_in(l)),
                                text::texts(r@) == before + item.take(1 + k),
                        {
                            let ghost so_far = text::texts(r@);
                            let line = set_in_line(below[k].as_str());
                            r.push(line);
                            proof {
                                assert(text::texts(below@)[k as int] == below@[k as int]@);
                                assert(item[1 + k] == line@);
                                assert(text::texts(r@) =~= so_far.push(line@));
                                assert(text::texts(r@) =~= before + item.take(1 + k + 1));
                            }
                        }
                        assert(item.take(item.len() as int) =~= item);
                    },
                }
            }
            assert(all.take(all.len() as int) =~= all);
            if list.len() > 0 {
                return r;
            }
        },
    }
    let mut none: Vec<String> = Vec::new();
    none.push("  (ninguno arrancado todavía)".to_owned());
    assert(text::texts(none@) =~= seq!["  (ninguno arrancado todavía)"@]);
    none
}

// ── what the command line promises ───────────────────────────────────────────

/// A server that is ready is not recalled: it is said once, until it changes.
pub proof fn law_what_is_ready_is_said_once(
    said: Map<Seq<char>, (Seq<char>, u64)>,
    elapsed: u64,
    s: wait::Server,
)
    requires
        said.dom().contains(s.name),
        said[s.name].0 == s.state,
        !wait::is_waited(s.state),
    ensures
        !due(said, elapsed, s),
{
}

/// While a server is on its way it is recalled once each heartbeat, and not sooner.
pub proof fn law_who_is_on_its_way_is_recalled(
    said: Map<Seq<char>, (Seq<char>, u64)>,
    elapsed: u64,
    s: wait::Server,
)
    requires
        said.dom().contains(s.name),
        said[s.name].0 == s.state,
        wait::is_waited(s.state),
        said[s.name].1 <= elapsed,
    ensures
        due(said, elapsed, s) <==> elapsed - said[s.name].1 >= HEARTBEAT,
{
}

/// A change of state is always said, and the first state too.
pub proof fn law_a_change_is_said(
    said: Map<Seq<char>, (Seq<char>, u64)>,
    elapsed: u64,
    s: wait::Server,
)
    requires
        said.dom().contains(s.name) ==> said[s.name].0 != s.state,
    ensures
        due(said, elapsed, s),
        progress_lines(said, elapsed, seq![s]) == seq![progress_line(elapsed, s)],
{
    assert(seq![s].drop_last() =~= Seq::empty());
    reveal_with_fuel(progress_lines, 2);
    reveal_with_fuel(said_after, 2);
    assert(progress_lines(said, elapsed, seq![s]) =~= seq![progress_line(elapsed, s)]);
}

/// What was just said is not said again: the same servers, seen at the same time, give
/// no line.
pub proof fn law_what_was_just_said_is_not_repeated(
    said: Map<Seq<char>, (Seq<char>, u64)>,
    elapsed: u64,
    seen: Seq<wait::Server>,
)
    requires
        forall|i: int, j: int|
            0 <= i < j < seen.len() ==> (#[trigger] seen[i]).name != (#[trigger] seen[j]).name,
    ensures
        progress_lines(said_after(said, elapsed, seen), elapsed, seen) == Seq::<
            Seq<char>,
        >::empty(),
        said_after(said_after(said, elapsed, seen), elapsed, seen) == said_after(
            said,
            elapsed,
            seen,
        ),
{
    let after = said_after(said, elapsed, seen);
    assert forall|i: int| 0 <= i < seen.len() implies !due(
        after,
        elapsed,
        #[trigger] seen[i],
    ) by {
        lemma_just_said(said, elapsed, seen, i);
    }
    lemma_nothing_due(after, elapsed, seen);
}

proof fn lemma_just_said(
    said: Map<Seq<char>, (Seq<char>, u64)>,
    elapsed: u64,
    seen: Seq<wait::Server>,
    i: int,
)
    requires
        0 <= i < seen.len(),
        forall|i: int, j: int|
            0 <= i < j < seen.len() ==> (#[trigger] seen[i]).name != (#[trigger] seen[j]).name,
    ensures
        !due(said_after(said, elapsed, seen), elapsed, seen[i]),
    decreases seen.len(),
{
    let rest = seen.drop_last();
    assert forall|a: int, b: int| 0 <= a < b < rest.len() implies (#[trigger] rest[a]).name != (
    #[trigger] rest[b]).name by {
        assert(rest[a] == seen[a] && rest[b] == seen[b]);
    }
    if i < rest.len() {
        lemma_just_said(said, elapsed, rest, i);
        assert(rest[i] == seen[i]);
        assert(seen[i].name != seen[seen.len() - 1].name);
    }
}

proof fn lemma_nothing_due(
    said: Map<Seq<char>, (Seq<char>, u64)>,
    elapsed: u64,
    seen: Seq<wait::Server>,
)
    requires
        forall|i: int| 0 <= i < seen.len() ==> !due(said, elapsed, #[trigger] seen[i]),
    ensures
        progress_lines(said, elapsed, seen) == Seq::<Seq<char>>::empty(),
        said_after(said, elapsed, seen) == said,
    decreases seen.len(),
{
    if seen.len() > 0 {
        let rest = seen.drop_last();
        assert forall|i: int| 0 <= i < rest.len() implies !due(
            said,
            elapsed,
            #[trigger] rest[i],
        ) by {
            assert(rest[i] == seen[i]);
        }
        lemma_nothing_due(said, elapsed, rest);
        assert(seen.last() == seen[seen.len() - 1]);
    }
}

/// A server that `warm` could not start does not cut the wait of the others: each line
/// of the answer is either said or waited for.
pub proof fn law_what_is_warmed_is_said_or_waited_for(j: json::Json)
    ensures
        warm_failures(j).len() + warm_successes(j).len() == items_of(j).len(),
{
    lemma_split_in_two(items_of(j));
}

proof fn lemma_split_in_two(list: Seq<json::Json>)
    ensures
        list.filter(|w: json::Json| json::text_member(w, "error"@) is Some).len() + list.filter(
            |w: json::Json| json::text_member(w, "error"@) is None,
        ).len() == list.len(),
    decreases list.len(),
{
    reveal(Seq::filter);
    if list.len() > 0 {
        lemma_split_in_two(list.drop_last());
    }
}

/// The name of a language is taken as it is written if the table has it, and any other
/// is refused with the four that there are.
pub proof fn law_a_language_is_taken_by_its_name(s: &str, r: Result<String, String>)
    requires
        call_ensures(language_name, (s,), r),
    ensures
        r is Ok <==> s@ == "rust"@ || s@ == "java"@ || s@ == "typescript"@ || s@ == "python"@,
        r matches Ok(name) ==> name@ == s@,
        r matches Err(e) ==> e@ == "no hay language server para `"@ + s@ + "`: los lenguajes son "@
            + ("rust"@ + ", "@ + "java"@ + ", "@ + "typescript"@ + ", "@ + "python"@),
{
    let ids = language::table().map_values(|l: Language| l.id_text());
    let a = seq!["rust"@];
    let b = seq!["java"@];
    let c = seq!["typescript"@];
    let d = seq!["python"@];
    assert(ids =~= a + b + c + d);
    text::law_joining_puts_every_piece(a, b, "rust"@, ", "@);
    text::law_joining_puts_every_piece(a, b, "java"@, ", "@);
    text::law_joining_puts_every_piece(a + b, c, "typescript"@, ", "@);
    text::law_joining_puts_every_piece(a + b + c, d, "python"@, ", "@);
}

/// What `start` does: it starts a daemon where none answers, and where one does, it takes
/// it if it is to wait and refuses if it is not.
pub proof fn law_one_daemon_per_door(answers: bool, wait: bool, r: StartStep)
    requires
        call_ensures(start_step, (answers, wait), r),
    ensures
        r == StartStep::Spawn <==> !answers,
        r == StartStep::Take <==> answers && wait,
        r == StartStep::Refuse <==> answers && !wait,
{
}

/// A daemon is said with its pid, in decimal and whole, and with its endpoint behind it.
pub proof fn law_a_daemon_is_said_with_its_pid(
    what: &str,
    pid: u32,
    endpoint: Endpoint,
    r: String,
    already: String,
)
    requires
        call_ensures(daemon_line, (what, pid, &endpoint), r),
        call_ensures(already_running, (pid,), already),
    ensures
        r@ == what@ + "  pid="@ + text::decimal(pid as nat) + "  endpoint="@ + endpoint.text(),
        already@ == "el daemon de este workspace ya está corriendo  pid="@ + text::decimal(
            pid as nat,
        ),
{
}

/// A window in seconds is a thousand times as many milliseconds, or as many as there can
/// be.
pub proof fn law_a_second_is_a_thousand_milliseconds(seconds: u64, r: u64)
    requires
        call_ensures(stall_window, (seconds,), r),
    ensures
        seconds * 1000 <= u64::MAX ==> r == seconds * 1000,
        seconds * 1000 > u64::MAX ==> r == u64::MAX,
{
}

/// Each line of the answer to `warm` is either said with its error or waited for by its
/// name, behind those before it.
pub proof fn law_each_line_of_warm_goes_its_way(list: Seq<json::Json>, w: json::Json)
    ensures
        ({
            let before = json::Json::Array(list);
            let after = json::Json::Array(list.push(w));
            let name = match json::text_member(w, "name"@) {
                Some(s) => s,
                None => "?"@,
            };
            let names = |w: json::Json| name_of(w);
            let said = warm_lines(warm_failures(before));
            let waited = warm_successes(before).map_values(names);
            &&& items_of(after).len() == list.len() + 1
            &&& match json::text_member(w, "error"@) {
                Some(e) => {
                    &&& warm_lines(warm_failures(after)) == said.push(
                        "  "@ + name + " no arrancó: "@ + e,
                    )
                    &&& warm_successes(after).map_values(names) == waited
                },
                None => {
                    &&& warm_lines(warm_failures(after)) == said
                    &&& warm_successes(after).map_values(names) == waited.push(name)
                },
            }
        }),
{
    reveal(Seq::filter);
    let before = json::Json::Array(list);
    let after = json::Json::Array(list.push(w));
    let names = |w: json::Json| name_of(w);
    assert(list.push(w).drop_last() =~= list);
    let said = warm_lines(warm_failures(before));
    let waited = warm_successes(before).map_values(names);
    match json::text_member(w, "error"@) {
        Some(e) => {
            assert(warm_failures(after) == warm_failures(before).push(w));
            assert(warm_lines(warm_failures(after)) =~= said.push(
                "  "@ + name_of(w) + " no arrancó: "@ + e,
            ));
        },
        None => {
            assert(warm_successes(after) == warm_successes(before).push(w));
            assert(warm_successes(after).map_values(names) =~= waited.push(name_of(w)));
        },
    }
}

/// An answer to `warm` with nothing in it, or that is no list, warms nothing: no line and
/// nobody to wait for.
pub proof fn law_nothing_warmed_is_nothing_said(answer: Value, r: Warmed)
    requires
        call_ensures(read_warmed, (&answer,), r),
    ensures
        r.any <==> (json::json(answer) matches json::Json::Array(list) && list.len() > 0),
        !r.any ==> r.lines@.len() == 0 && r.servers@.len() == 0,
        json::json(answer) matches json::Json::Array(list) ==> r.lines@.len() + r.servers@.len()
            == list.len(),
{
    let j = json::json(answer);
    reveal(Seq::filter);
    law_what_is_warmed_is_said_or_waited_for(j);
    assert(text::texts(r.lines@).len() == r.lines@.len());
    assert(text::texts(r.servers@).len() == r.servers@.len());
    assert(warm_lines(warm_failures(j)).len() == warm_failures(j).len());
}

/// `start --wait` ends well if and only if every server that was warmed started and none
/// that was waited for fell or got stuck.
pub proof fn law_a_good_start_is_of_every_server(warmed: Warmed, waited: Waited, r: bool)
    requires
        call_ensures(all_ready, (&warmed, &waited), r),
    ensures
        r <==> warmed.lines@.len() == 0 && waited.gone@.len() == 0 && waited.failed@.len() == 0
            && waited.stalled@.len() == 0,
{
    assert(text::texts(waited.gone@).len() == waited.gone@.len());
    assert(text::texts(waited.stalled@).len() == waited.stalled@.len());
    assert(wait::pairs(waited.failed@).len() == waited.failed@.len());
}

/// What is said of servers that are seen is what is said of the first of them and then of
/// the others; of one, its line if it is due and else nothing, and only what is said is
/// kept in mind.
pub proof fn law_each_server_is_said_on_its_own(
    said: Map<Seq<char>, (Seq<char>, u64)>,
    elapsed: u64,
    a: Seq<wait::Server>,
    b: Seq<wait::Server>,
    s: wait::Server,
)
    ensures
        ({
            let mid = said_after(said, elapsed, a);
            &&& progress_lines(said, elapsed, a + b) == progress_lines(said, elapsed, a)
                + progress_lines(mid, elapsed, b)
            &&& said_after(said, elapsed, a + b) == said_after(mid, elapsed, b)
            &&& progress_lines(said, elapsed, seq![s]) == if due(said, elapsed, s) {
                seq![
                    "  "@ + text::padded(s.name, 28) + text::padded(s.state, 10) + text::decimal(
                        (elapsed / 1000) as nat,
                    ) + "s"@,
                ]
            } else {
                Seq::empty()
            }
            &&& said_after(said, elapsed, seq![s]) == if due(said, elapsed, s) {
                said.insert(s.name, (s.state, elapsed))
            } else {
                said
            }
            &&& progress_lines(said, elapsed, Seq::empty()) == Seq::<Seq<char>>::empty()
            &&& said_after(said, elapsed, Seq::empty()) == said
        }),
    decreases b.len(),
{
    let mid = said_after(said, elapsed, a);
    if b.len() == 0 {
        assert(a + b =~= a);
        assert(progress_lines(said, elapsed, a + b) =~= progress_lines(said, elapsed, a)
            + progress_lines(mid, elapsed, b));
    } else {
        law_each_server_is_said_on_its_own(said, elapsed, a, b.drop_last(), s);
        assert((a + b).drop_last() =~= a + b.drop_last());
        assert((a + b).last() == b.last());
        assert(progress_lines(said, elapsed, a + b) =~= progress_lines(said, elapsed, a)
            + progress_lines(mid, elapsed, b));
    }
    assert(seq![s].drop_last() =~= Seq::empty());
    reveal_with_fuel(progress_lines, 2);
    reveal_with_fuel(said_after, 2);
    assert(progress_lines(said, elapsed, seq![s]) =~= if due(said, elapsed, s) {
        seq![progress_line(elapsed, s)]
    } else {
        Seq::empty()
    });
}

/// When a server is spoken of: the first time, when its state changed, and, while it
/// starts or indexes, half a minute after the last time.
pub proof fn law_when_a_server_is_spoken_of(
    said: Map<Seq<char>, (Seq<char>, u64)>,
    now: u64,
    s: wait::Server,
)
    requires
        said.dom().contains(s.name) ==> said[s.name].1 <= now,
    ensures
        due(said, now, s) <==> {
            ||| !said.dom().contains(s.name)
            ||| said[s.name].0 != s.state
            ||| (s.state == "STARTING"@ || s.state == "INDEXING"@) && now - said[s.name].1 >= 30
                * 1000
        },
{
}

/// What is said of a server that failed: the first line of its error beside its name, and
/// each of the others below, whole.
pub proof fn law_an_error_is_said_whole(
    name: Seq<char>,
    first: Seq<char>,
    rest: Seq<char>,
)
    requires
        !first.contains('\n'),
        first.len() > 0,
        first.last() != '\r',
    ensures
        failure_texts(name, first) == seq!["  "@ + name + " no arrancó: "@ + first],
        failure_texts(name, first.push('\n') + rest) == seq![
            "  "@ + name + " no arrancó: "@ + first,
        ] + text::lines_of(rest).map_values(|l: Seq<char>| "      "@ + l),
{
    text::law_a_line_ends_at_each_line_feed(first, rest);
    let in_below = |l: Seq<char>| set_in(l);
    let below = |l: Seq<char>| "      "@ + l;
    let one = seq!["  "@ + name + " no arrancó: "@ + first];
    assert(seq![first].skip(1) =~= Seq::empty());
    assert(Seq::<Seq<char>>::empty().map_values(in_below) =~= Seq::empty());
    assert(failure_texts(name, first) =~= one);
    let all = seq![first] + text::lines_of(rest);
    assert(all.skip(1) =~= text::lines_of(rest));
    assert(text::lines_of(rest).map_values(in_below) =~= text::lines_of(rest).map_values(below));
    assert(failure_texts(name, first.push('\n') + rest) =~= one + text::lines_of(rest).map_values(
        below,
    ));
}

/// Each server that a wait ended badly for is said, and nobody else: those that failed
/// with their error, those that disappeared, and those that got stuck with the window.
pub proof fn law_each_bad_end_is_said(
    out: wait::Outcome,
    name: Seq<char>,
    error: Seq<char>,
    seconds: u64,
)
    ensures
        ({
            let none = Seq::<Seq<char>>::empty();
            let no_pairs = Seq::<(Seq<char>, Seq<char>)>::empty();
            let failed = wait_texts(
                wait::Outcome { gone: none, stalled: none, ..out },
                seconds,
            );
            let gone = wait_texts(
                wait::Outcome { failed: no_pairs, stalled: none, ..out },
                seconds,
            );
            let stalled = wait_texts(
                wait::Outcome { failed: no_pairs, gone: none, ..out },
                seconds,
            );
            &&& wait_texts(out, seconds) == failed + gone + stalled
            &&& wait_texts(
                wait::Outcome { gone: none, stalled: none, failed: out.failed.push((name, error)) },
                seconds,
            ) == failed + failure_texts(name, error)
            &&& wait_texts(
                wait::Outcome { failed: no_pairs, stalled: none, gone: out.gone.push(name) },
                seconds,
            ) == gone.push(
                "  "@ + name + " no arrancó: "@
                    + "su proceso terminó antes de quedar listo, y el daemon ya no lo tiene"@,
            )
            &&& wait_texts(
                wait::Outcome { failed: no_pairs, gone: none, stalled: out.stalled.push(name) },
                seconds,
            ) == stalled.push(
                "  "@ + name + " lleva "@ + text::decimal(seconds as nat)
                    + "s indexando sin reportar progreso: no se lo espera más. El daemon queda vivo."@,
            )
            &&& wait_texts(
                wait::Outcome { failed: no_pairs, gone: none, stalled: none },
                seconds,
            ) == none
        }),
{
    let none = Seq::<Seq<char>>::empty();
    let no_pairs = Seq::<(Seq<char>, Seq<char>)>::empty();
    let g = |n: Seq<char>| gone_text(n);
    let s = |n: Seq<char>| stalled_text(n, seconds);
    assert(none.map_values(g) =~= none);
    assert(none.map_values(s) =~= none);
    assert(all_failures(no_pairs) =~= none);
    assert(out.failed.push((name, error)).drop_last() =~= out.failed);
    assert(out.gone.push(name).map_values(g) =~= out.gone.map_values(g).push(g(name)));
    assert(out.stalled.push(name).map_values(s) =~= out.stalled.map_values(s).push(s(name)));
    let f = all_failures(out.failed);
    assert(f + none + none =~= f);
    let ff = all_failures(out.failed.push((name, error)));
    assert(ff == f + failure_texts(name, error));
    assert(ff + none + none =~= ff);
    let gg = out.gone.map_values(g);
    assert(none + gg + none =~= gg);
    assert(none + gg.push(g(name)) + none =~= gg.push(g(name)));
    let ss = out.stalled.map_values(s);
    assert(none + none + ss =~= ss);
    assert(none + none + ss.push(s(name)) =~= ss.push(s(name)));
    assert(none + none + none =~= none);
}

/// Each line of the answer to `status` is shown, with why it failed below it if it says
/// so; with none it is said that there is none.
pub proof fn law_each_server_is_shown(list: Seq<json::Json>, s: json::Json)
    ensures
        ({
            let one = seq![status_text(s)] + match json::text_member(s, "error"@) {
                Some(e) => text::lines_of(e).map_values(|l: Seq<char>| "      "@ + l),
                None => Seq::empty(),
            };
            &&& status_texts(json::Json::Array(list.push(s))) == if list.len() == 0 {
                one
            } else {
                status_texts(json::Json::Array(list)) + one
            }
            &&& status_texts(json::Json::Array(Seq::empty())) == seq![
                "  (ninguno arrancado todavía)"@,
            ]
            &&& !(s is Array) ==> status_texts(s) == seq!["  (ninguno arrancado todavía)"@]
        }),
{
    assert(list.push(s).drop_last() =~= list);
    match json::text_member(s, "error"@) {
        Some(e) => {
            assert(text::lines_of(e).map_values(|l: Seq<char>| set_in(l)) =~= text::lines_of(
                e,
            ).map_values(|l: Seq<char>| "      "@ + l));
        },
        None => {},
    }
    if list.len() == 0 {
        assert(status_items(list) =~= Seq::empty());
        assert(status_items(list) + status_item(s) =~= status_item(s));
    }
}

/// What is shown of a server: its name and its state in their columns, how many questions
/// it was asked, and how many whole seconds ago it moved, where that is said.
pub proof fn law_what_is_shown_of_a_server(
    m: Map<Seq<char>, json::Json>,
    name: Seq<char>,
    state: Seq<char>,
    queries: json::Json,
    ms: u64,
)
    requires
        m.dom().contains("name"@) && m["name"@] == json::Json::Text(name),
        m.dom().contains("state"@) && m["state"@] == json::Json::Text(state),
        m.dom().contains("queries"@) && m["queries"@] == queries,
    ensures
        ({
            let head = "  "@ + text::padded(name, 28) + text::padded(state, 10);
            let asked = "queries="@ + json::json_text(queries);
            let shown = status_text(json::Json::Object(m));
            &&& m.dom().contains("since_progress_ms"@) && m["since_progress_ms"@]
                == json::Json::Number(json::Number::Unsigned(ms)) ==> shown == head + (text::padded(
                asked,
                11,
            ) + "  progreso hace "@ + text::decimal((ms / 1000) as nat) + "s"@)
            &&& !m.dom().contains("since_progress_ms"@) ==> shown == head + text::padded(asked, 13)
        }),
{
}

/// What is not said of a server is shown as not known, and its questions as null.
pub proof fn law_what_is_not_known_is_shown_so(m: Map<Seq<char>, json::Json>)
    requires
        !m.dom().contains("state"@),
        !m.dom().contains("name"@),
        !m.dom().contains("queries"@),
        !m.dom().contains("since_progress_ms"@),
    ensures
        status_text(json::Json::Object(m)) == "  "@ + text::padded("?"@, 28) + text::padded("?"@, 10)
            + text::padded("queries="@ + json::json_text(json::Json::Null), 13),
{
}

/// What is said of a workspace without markers names it.
pub proof fn law_a_workspace_without_markers_is_named(workspace: &str, r: String)
    requires
        call_ensures(nothing_to_warm, (workspace,), r),
    ensures
        r@ == "no hay marcadores de proyecto en la raíz de "@ + workspace@ + ": nada que calentar"@,
{
}

/// What is said of the servers that are seen, and what of it is kept in mind, follows from
/// what was said before, for one server and then for the others.
pub proof fn law_what_is_said_is_kept_in_mind(
    p: &mut Progress,
    elapsed: u64,
    seen: &[ServerState],
    r: Vec<String>,
    s: wait::Server,
)
    requires
        call_ensures(Progress::observe, (p, elapsed, seen), r),
        wait::servers_of(seen@) == seq![s],
    ensures
        ({
            let said = old(p)@;
            let speaks = {
                ||| !said.dom().contains(s.name)
                ||| said[s.name].0 != s.state
                ||| (s.state == "STARTING"@ || s.state == "INDEXING"@) && elapsed >= said[s.name].1
                    && elapsed - said[s.name].1 >= 30_000
            };
            &&& r@.len() == if speaks {
                1int
            } else {
                0
            }
            &&& final(p)@ == if speaks {
                said.insert(s.name, (s.state, elapsed))
            } else {
                said
            }
        }),
{
    let none = Seq::<wait::Server>::empty();
    law_each_server_is_said_on_its_own(old(p)@, elapsed, none, none, s);
    assert(text::texts(r@).len() == r@.len());
}

/// What is shown of `status` is shown of every server that it lists.
pub proof fn law_every_server_of_status_is_shown(answer: Value, r: Vec<String>)
    requires
        call_ensures(status_lines, (&answer,), r),
    ensures
        json::json(answer) matches json::Json::Array(list) ==> r@.len() >= list.len() && r@.len()
            > 0,
        !(json::json(answer) matches json::Json::Array(list) && list.len() > 0) ==> text::texts(r@)
            == seq!["  (ninguno arrancado todavía)"@],
        json::json(answer) matches json::Json::Array(list) ==> list.len() > 0 ==> text::texts(r@)
            == status_items(list),
{
    assert(text::texts(r@).len() == r@.len());
    if json::json(answer) is Array {
        lemma_a_line_each(json::json(answer)->Array_0);
    }
}

proof fn lemma_a_line_each(list: Seq<json::Json>)
    ensures
        status_items(list).len() >= list.len(),
    decreases list.len(),
{
    if list.len() > 0 {
        lemma_a_line_each(list.drop_last());
    }
}

/// What is said of how a wait ended is said of every server that it ended badly for.
pub proof fn law_every_bad_end_of_a_wait_is_said(out: Waited, seconds: u64, r: Vec<String>)
    requires
        call_ensures(wait_lines, (&out, seconds), r),
    ensures
        r@.len() >= out.failed@.len() + out.gone@.len() + out.stalled@.len(),
        r@.len() == 0 <==> out.failed@.len() == 0 && out.gone@.len() == 0 && out.stalled@.len()
            == 0,
        text::texts(r@) == wait_texts(out@, seconds),
{
    assert(text::texts(r@).len() == r@.len());
    assert(out@.gone.len() == out.gone@.len());
    assert(out@.stalled.len() == out.stalled@.len());
    assert(out@.failed.len() == out.failed@.len());
    lemma_a_line_each_failure(out@.failed);
}

proof fn lemma_a_line_each_failure(failed: Seq<(Seq<char>, Seq<char>)>)
    ensures
        all_failures(failed).len() >= failed.len(),
        failed.len() == 0 ==> all_failures(failed).len() == 0,
    decreases failed.len(),
{
    if failed.len() > 0 {
        lemma_a_line_each_failure(failed.drop_last());
    }
}

/// What is said of a server that failed is its error, all of it.
pub proof fn law_a_failure_is_said_line_by_line(
    name: &str,
    error: &str,
    r: Vec<String>,
    first: Seq<char>,
    rest: Seq<char>,
)
    requires
        call_ensures(failure_lines, (name, error), r),
        error@ == first.push('\n') + rest,
        !first.contains('\n'),
        first.len() > 0,
        first.last() != '\r',
    ensures
        r@.len() == 1 + text::lines_of(rest).len(),
        r@[0]@ == "  "@ + name@ + " no arrancó: "@ + first,
        forall|i: int|
            0 <= i < text::lines_of(rest).len() ==> (#[trigger] text::texts(r@)[i + 1])
                == "      "@ + text::lines_of(rest)[i],
{
    law_an_error_is_said_whole(name@, first, rest);
    assert(text::texts(r@).len() == r@.len());
    assert(text::texts(r@)[0] == r@[0]@);
}

} // verus!
