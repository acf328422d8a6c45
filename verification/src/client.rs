//! The client of the daemon: where it listens, how a question is asked of it, and
//! how its answer is read.

use crate::json;
use crate::path;
use crate::path::{join_path, System};
use crate::text;
use crate::text::{cat, same};
use crate::transport;
use crate::transport::{nombre, Endpoint};
use crate::types;
use serde_json::Value;
use vstd::prelude::*;
use vstd::string::*;

verus! {

/// How long an answer is waited for before it is given up for lost, in milliseconds.
pub const TIMEOUT: u64 = 5_000;

// ── where the daemon is ──────────────────────────────────────────────────────

/// The directory of the daemon: `.lspd` in the home of the user. It is derived, and
/// there is nothing to configure.
pub open spec fn dir_text(system: System, home: Option<Seq<char>>, profile: Option<Seq<char>>) -> Seq<char> {
    path::joined_path(
        system,
        match (home, profile) {
            (Some(h), _) => h,
            (None, Some(p)) => p,
            (None, None) => "."@,
        },
        ".lspd"@,
    )
}

/// The directory of the daemon, out of `HOME` or, where that is not set, of
/// `USERPROFILE`.
pub fn dir(system: System, home: Option<&str>, profile: Option<&str>) -> (r: String)
    ensures
        r@ == dir_text(
            system,
            match home {
                Some(h) => Some(h@),
                None => None,
            },
            match profile {
                Some(p) => Some(p@),
                None => None,
            },
        ),
{
    match home {
        Some(h) => join_path(system, h, ".lspd"),
        None => match profile {
            Some(p) => join_path(system, p, ".lspd"),
            None => join_path(system, ".", ".lspd"),
        },
    }
}

/// The file with the pid of the daemon of a workspace: it has the name of its door.
pub open spec fn pid_path_text(system: System, dir: Seq<char>, canonical: Seq<char>) -> Seq<char> {
    path::joined_path(system, dir, transport::door_name(system, canonical) + ".pid"@)
}

/// The file with the pid of the daemon of a workspace. It is not how it is known
/// whether the daemon is alive: it says which process it is once that is known.
pub fn pid_path(system: System, dir: &str, canonical: &str) -> (r: String)
    ensures
        r@ == pid_path_text(system, dir@, canonical@),
{
    let name = nombre(system, canonical);
    let file = cat(name.as_str(), ".pid");
    join_path(system, dir, file.as_str())
}

/// The pid that the file holds; zero where there is no file, or it holds none.
pub fn pid(contents: Option<&str>) -> (r: u32)
    ensures
        r == match contents {
            Some(s) => match text::number_of(text::trimmed(s@)) {
                Some(n) => n,
                None => 0,
            },
            None => 0,
        },
{
    match contents {
        Some(s) => match text::read_number(text::trim(s).as_str()) {
            Some(n) => n,
            None => 0,
        },
        None => 0,
    }
}

/// What is said where no daemon answers at a door.
pub fn no_daemon(endpoint: &Endpoint) -> (r: String)
    ensures
        r@ == "no hay daemon en "@ + endpoint.text(),
{
    let mut r = "no hay daemon en ".to_owned();
    r.append(endpoint.display().as_str());
    r
}

// ── a question ───────────────────────────────────────────────────────────────

/// A question as JSON.
pub open spec fn question(method: Seq<char>, params: json::Json) -> json::Json {
    json::Json::Object(
        map![
            "jsonrpc"@ => json::Json::Text("2.0"@),
            "id"@ => types::natural(1),
            "method"@ => json::Json::Text(method),
            "params"@ => params,
        ],
    )
}

/// A question as the line that is sent. It is one line, and it reads back to the
/// question, but where the params nest too deep or hold a fraction.
pub fn request_line(method: &str, params: Value) -> (r: String)
    ensures
        r@ == json::json_text(question(method@, json::json(params))).push('\n'),
        !r@.drop_last().contains('\n'),
        json::reads_back(question(method@, json::json(params)), json::depth_limit())
            ==> json::json_parse(text::trimmed(r@)) == Some(
            question(method@, json::json(params)),
        ),
{
    let mut v = json::object();
    json::set(&mut v, "jsonrpc", json::string("2.0"));
    json::set(&mut v, "id", json::unsigned(1));
    json::set(&mut v, "method", json::string(method));
    json::set(&mut v, "params", params);
    let r = types::frame(&v);
    assert(r@.drop_last() =~= json::json_text(json::json(v)));
    r
}

// ── an answer ────────────────────────────────────────────────────────────────

/// What a line that came back says.
pub enum Reading {
    /// It is not JSON.
    NotJson,
    /// The daemon answered that it could not answer, and why.
    Error { code: Option<i64>, message: Seq<char> },
    /// The daemon answered this.
    Result(json::Json),
}

/// The code of an error, if it is one that `i64` holds.
pub open spec fn code_of(e: json::Json) -> Option<i64> {
    match json::member(e, "code"@) {
        Some(json::Json::Number(n)) => json::i64_of(n),
        _ => None,
    }
}

/// What an answer says.
pub open spec fn told(j: json::Json) -> Reading {
    match json::member(j, "error"@) {
        Some(e) => Reading::Error {
            code: code_of(e),
            message: match json::text_member(e, "message"@) {
                Some(m) => m,
                None => "unknown error"@,
            },
        },
        None => Reading::Result(
            match json::member(j, "result"@) {
                Some(v) => v,
                None => json::Json::Null,
            },
        ),
    }
}

/// What a line that came back says.
pub open spec fn reading(line: Seq<char>) -> Reading {
    match json::json_parse(text::trimmed(line)) {
        None => Reading::NotJson,
        Some(j) => told(j),
    }
}

/// What a client is to read in an answer.
pub open spec fn saying(r: types::Response) -> Reading {
    match r.error {
        Some(e) => Reading::Error { code: Some(e.0 as i64), message: e.1 },
        None => Reading::Result(
            match r.result {
                Some(v) => v,
                None => json::Json::Null,
            },
        ),
    }
}

/// A client reads in an answer what it says: the result, or the code and the message
/// of the error.
pub proof fn lemma_encoded_says(r: types::Response)
    ensures
        told(r.encoded()) == saying(r),
{
    r.lemma_encoded();
    reveal_strlit("jsonrpc");
    reveal_strlit("id");
    reveal_strlit("result");
    reveal_strlit("error");
    reveal_strlit("code");
    reveal_strlit("message");
    assert("jsonrpc"@.len() == 7 && "id"@.len() == 2 && "result"@.len() == 6 && "error"@.len() == 5
        && "code"@.len() == 4 && "message"@.len() == 7);
}

/// Why a question got no result.
#[derive(Debug, Clone, PartialEq, Eq)]
pub enum RpcFailure {
    /// What came back is not JSON.
    NotJson,
    /// The daemon answered with an error. The code comes with the message, so that
    /// "not yet" can be told from "it failed" without reading prose.
    Error { code: Option<i64>, message: String },
}

/// Reads the line that came back of a question.
pub fn read_response(line: &str) -> (r: Result<Value, RpcFailure>)
    ensures
        match r {
            Ok(v) => reading(line@) == Reading::Result(json::json(v)),
            Err(RpcFailure::NotJson) => reading(line@) is NotJson,
            Err(RpcFailure::Error { code, message }) => reading(line@) == (Reading::Error {
                code,
                message: message@,
            }),
        },
{
    let trimmed = text::trim(line);
    match json::parse(trimmed.as_str()) {
        Err(_) => Err(RpcFailure::NotJson),
        Ok(v) => match json::get(&v, "error") {
            Some(e) => {
                let code: Option<i64> = match json::get(e, "code") {
                    Some(c) => json::as_i64(c),
                    None => None,
                };
                let message = match json::get_str(e, "message") {
                    Some(m) => m.to_owned(),
                    None => "unknown error".to_owned(),
                };
                Err(RpcFailure::Error { code, message })
            },
            None => match json::get(&v, "result") {
                Some(x) => Ok(json::copy(x)),
                None => Ok(json::null()),
            },
        },
    }
}

/// Is there a daemon? It is what came back of a `ping`, if anything did.
///
/// It says yes before the language servers are ready: whoever asks has to tell "I do
/// not know yet" from "there is none", and this would be no place to join them.
pub fn responds(reply: Option<&str>) -> (r: bool)
    ensures
        r == match reply {
            Some(line) => reading(line@) == Reading::Result(json::Json::Text("pong"@)),
            None => false,
        },
{
    match reply {
        None => false,
        Some(line) => match read_response(line) {
            Err(_) => false,
            Ok(v) => match json::as_str(&v) {
                Some(s) => same(s, "pong"),
                None => false,
            },
        },
    }
}

// ── starting it ──────────────────────────────────────────────────────────────

/// The name of the daemon's binary.
pub open spec fn binary_name(system: System) -> Seq<char> {
    match system {
        System::Unix => "lspd"@,
        System::Windows => "lspd.exe"@,
    }
}

fn name_of_binary(system: System) -> (r: &'static str)
    ensures
        r@ == binary_name(system),
{
    match system {
        System::Unix => "lspd",
        System::Windows => "lspd.exe",
    }
}

/// Where the daemon's binary is looked for first: in the directory of the executable
/// that asks, which is where a local build leaves both.
pub fn binary_beside(system: System, exe_dir: &str) -> (r: String)
    ensures
        r@ == path::joined_path(system, exe_dir@, binary_name(system)),
{
    join_path(system, exe_dir, name_of_binary(system))
}

/// Where the daemon's binary is: beside the executable that asks, if it is there,
/// and else in `PATH`.
pub fn binary(system: System, beside: Option<String>) -> (r: String)
    ensures
        r@ == match beside {
            Some(found) => found@,
            None => binary_name(system),
        },
{
    match beside {
        Some(found) => found,
        None => name_of_binary(system).to_owned(),
    }
}

/// How many times a daemon that was just started is asked for.
pub const BOOT_TRIES: u32 = 50;

/// How long it is let be before each time, in milliseconds.
pub const BOOT_PAUSE: u64 = 100;

/// What comes after asking a daemon that was just started.
#[derive(Debug, Clone, Copy, PartialEq, Eq, Structural)]
pub enum BootStep {
    /// It answers.
    Up,
    /// Ask it again after the pause.
    Again,
    /// It is not waited for any more.
    GaveUp,
}

/// The wait for a daemon that was just started to answer, and not only for its
/// process to exist: to report as started one that died in the meantime is worse
/// than to wait.
#[derive(Debug)]
pub struct Boot {
    left: u32,
}

impl View for Boot {
    type V = nat;

    /// How many times it is still to be asked.
    closed spec fn view(&self) -> nat {
        self.left as nat
    }
}

/// What comes after it answered or not, with this many times left to ask.
pub open spec fn boot_step(left: nat, answered: bool) -> BootStep {
    if answered {
        BootStep::Up
    } else if left > 1 {
        BootStep::Again
    } else {
        BootStep::GaveUp
    }
}

impl Boot {
    pub fn new() -> (r: Boot)
        ensures
            r@ == BOOT_TRIES,
    {
        Boot { left: BOOT_TRIES }
    }

    /// Takes note of whether it answered this time.
    pub fn asked(&mut self, answered: bool) -> (r: BootStep)
        ensures
            r == boot_step(old(self)@, answered),
            final(self)@ == if old(self)@ > 0 {
                (old(self)@ - 1) as nat
            } else {
                0
            },
    {
        let left: u32 = self.left;
        if left > 0 {
            self.left = left - 1;
        }
        if answered {
            BootStep::Up
        } else if left > 1 {
            BootStep::Again
        } else {
            BootStep::GaveUp
        }
    }

    /// What is said of a daemon that did not answer.
    pub fn gave_up_text() -> (r: &'static str)
        ensures
            r@ == "el daemon no respondió en 5s"@,
    {
        "el daemon no respondió en 5s"
    }
}

/// How a start goes on, asked this many times without an answer.
pub open spec fn unanswered(left: nat, times: nat) -> BootStep
    decreases times,
{
    if times <= 1 {
        boot_step(left, false)
    } else {
        unanswered((left - 1) as nat, (times - 1) as nat)
    }
}

// ── what the client promises ─────────────────────────────────────────────────

/// A daemon that does not answer is given up the fiftieth time it is asked, five
/// seconds after it was started, and not before.
pub proof fn law_a_start_is_waited_for_five_seconds(times: nat)
    requires
        1 <= times <= BOOT_TRIES,
    ensures
        unanswered(BOOT_TRIES as nat, times) == BootStep::GaveUp <==> times == BOOT_TRIES,
        BOOT_TRIES * BOOT_PAUSE == TIMEOUT,
{
    lemma_unanswered(BOOT_TRIES as nat, times);
    assert(BOOT_TRIES * BOOT_PAUSE == TIMEOUT) by (nonlinear_arith)
        requires
            BOOT_TRIES == 50u32,
            BOOT_PAUSE == 100u64,
            TIMEOUT == 5_000u64,
    ;
}

proof fn lemma_unanswered(left: nat, times: nat)
    requires
        1 <= times <= left,
    ensures
        unanswered(left, times) == BootStep::GaveUp <==> times == left,
        unanswered(left, times) != BootStep::Up,
    decreases times,
{
    if times > 1 {
        lemma_unanswered((left - 1) as nat, (times - 1) as nat);
    }
}

/// What the daemon answers is what the client reads, the code of an error included:
/// of a line that reads back to the answer it was printed from.
pub proof fn law_a_client_reads_what_was_answered(r: types::Response, line: Seq<char>)
    requires
        json::json_parse(text::trimmed(line)) == Some(r.encoded()),
    ensures
        reading(line) == saying(r),
{
    lemma_encoded_says(r);
}

/// No two errors of the protocol are read as one: the client keeps the code.
pub proof fn law_codes_are_told_apart(
    id: json::Json,
    a: i32,
    b: i32,
    message: Seq<char>,
)
    requires
        a != b,
    ensures
        told(types::Response::bad(id, a, message).encoded()) != told(
            types::Response::bad(id, b, message).encoded(),
        ),
{
    lemma_encoded_says(types::Response::bad(id, a, message));
    lemma_encoded_says(types::Response::bad(id, b, message));
}

/// A question carries its method and its params as they are, under the protocol and the
/// id that every question has.
pub proof fn law_a_question_carries_its_params(method: Seq<char>, params: json::Json)
    ensures
        json::text_member(question(method, params), "jsonrpc"@) == Some("2.0"@),
        json::u64_member(question(method, params), "id"@) == Some(1u64),
        json::text_member(question(method, params), "method"@) == Some(method),
        json::member(question(method, params), "params"@) == Some(params),
{
    reveal_strlit("jsonrpc");
    reveal_strlit("id");
    reveal_strlit("method");
    reveal_strlit("params");
    assert("jsonrpc"@[0] == 'j' && "id"@[0] == 'i' && "method"@[0] == 'm' && "params"@[0] == 'p');
}

/// A question is one line, which ends in a line feed.
pub proof fn law_a_question_is_a_line(method: &str, params: Value, r: String)
    requires
        call_ensures(request_line, (method, params), r),
    ensures
        r@.len() > 0 && r@.last() == '\n' && !r@.drop_last().contains('\n'),
        r@.drop_last() == json::json_text(question(method@, json::json(params))),
{
    assert(r@.drop_last() =~= json::json_text(question(method@, json::json(params))));
}

/// What is read of an answer: its error if it has one, with its code and its message, or
/// that they are not known; and else its result, or nothing where it has none.
pub proof fn law_an_error_goes_before_a_result(
    m: Map<Seq<char>, json::Json>,
    e: Map<Seq<char>, json::Json>,
    code: i32,
    message: Seq<char>,
)
    ensures
        !m.dom().contains("error"@) && m.dom().contains("result"@) ==> told(json::Json::Object(m))
            == Reading::Result(m["result"@]),
        !m.dom().contains("error"@) && !m.dom().contains("result"@) ==> told(
            json::Json::Object(m),
        ) == Reading::Result(json::Json::Null),
        m.dom().contains("error"@) ==> told(json::Json::Object(m)) is Error,
        m.dom().contains("error"@) && m["error"@] == json::Json::Object(e) ==> {
            let r = told(json::Json::Object(m));
            &&& e.dom().contains("code"@) && e["code"@] == json::integer(code as int) ==> r->code
                == Some(code as i64)
            &&& !e.dom().contains("code"@) ==> r->code is None
            &&& e.dom().contains("message"@) && e["message"@] == json::Json::Text(message)
                ==> r->message == message
            &&& !e.dom().contains("message"@) ==> r->message == "unknown error"@
        },
{
}

/// What a client reads of a line is what the daemon says in it: the result as it is, the
/// code and the message of an error, or that it is no JSON.
pub proof fn law_what_is_read_is_what_was_sent(line: &str, r: Result<Value, RpcFailure>)
    requires
        call_ensures(read_response, (line,), r),
    ensures
        match json::json_parse(text::trimmed(line@)) {
            None => r == Err::<Value, RpcFailure>(RpcFailure::NotJson),
            Some(j) => match told(j) {
                Reading::Result(v) => r is Ok && json::json(r->Ok_0) == v,
                Reading::Error { code, message } => r matches Err(
                    RpcFailure::Error { code: c, message: m },
                ) && c == code && m@ == message,
                Reading::NotJson => false,
            },
        },
{
}

/// There is a daemon if and only if a `ping` came back with `pong`.
pub proof fn law_a_daemon_is_known_by_its_pong(reply: Option<&str>, r: bool)
    requires
        call_ensures(responds, (reply,), r),
    ensures
        r <==> (reply matches Some(line) && json::json_parse(text::trimmed(line@)) matches Some(j)
            && told(j) == Reading::Result(json::Json::Text("pong"@))),
{
}

/// The pid is the number that the file holds, with blanks around it or without; a file
/// with anything else, or none, says zero.
pub proof fn law_a_pid_is_read_whole(
    pre: Seq<char>,
    n: u32,
    post: Seq<char>,
    s: &str,
    r: u32,
    none: u32,
)
    requires
        call_ensures(pid, (Some(s),), r),
        call_ensures(pid, (None::<&str>,), none),
        forall|i: int| 0 <= i < pre.len() ==> text::is_white(#[trigger] pre[i]),
        forall|i: int| 0 <= i < post.len() ==> text::is_white(#[trigger] post[i]),
    ensures
        s@ == pre + text::decimal(n as nat) + post ==> r == n,
        text::number_of(text::trimmed(s@)) is None ==> r == 0,
        none == 0,
{
    let d = text::decimal(n as nat);
    text::lemma_numeral_is_plain(n as nat, 10);
    assert(text::is_plain(d[0]) && text::is_plain(d[d.len() - 1]));
    text::law_trimming_leaves_what_is_between_blanks(pre, d, post);
    text::law_a_number_goes_and_comes_back(n as nat, seq!['x'], 0);
}

/// The directory of the daemon is in `HOME`, and in `USERPROFILE` only where that is not
/// set. On Unix it is that, a slash and `.lspd`.
pub proof fn law_the_directory_is_in_the_home(
    system: System,
    home: Seq<char>,
    profile: Option<Seq<char>>,
)
    ensures
        dir_text(system, Some(home), profile) == path::joined_path(system, home, ".lspd"@),
        dir_text(system, None, Some(home)) == dir_text(system, Some(home), None),
        dir_text(system, None, None) == dir_text(system, Some("."@), None),
        home.len() > 0 && home.last() != '/' ==> dir_text(System::Unix, Some(home), profile)
            == home.push('/') + ".lspd"@,
{
    reveal_strlit(".lspd");
    path::law_a_path_is_put_after_its_base(home, ".lspd"@);
}

/// The pid of a daemon is beside its socket, under the same name: one per workspace.
pub proof fn law_the_pid_is_beside_the_socket(dir: Seq<char>, canonical: Seq<char>)
    requires
        dir.len() > 0,
        dir.last() != '/',
    ensures
        pid_path_text(System::Unix, dir, canonical) == dir.push('/') + transport::door_name(
            System::Unix,
            canonical,
        ) + ".pid"@,
        transport::endpoint_text(System::Unix, dir, canonical) == dir.push('/')
            + transport::door_name(System::Unix, canonical) + ".sock"@,
{
    let name = transport::door_name(System::Unix, canonical);
    transport::law_a_name_fits(System::Unix, canonical);
    reveal_strlit(".pid");
    reveal_strlit(".sock");
    transport::law_the_readable_part_is_plain(System::Unix, canonical);
    assert(name.len() > 0);
    assert(text::is_plain(name[0]) || name[0] == '-');
    assert((name + ".pid"@)[0] == name[0]);
    assert((name + ".sock"@)[0] == name[0]);
    path::law_a_path_is_put_after_its_base(dir, name + ".pid"@);
    path::law_a_path_is_put_after_its_base(dir, name + ".sock"@);
    assert(dir.push('/') + (name + ".pid"@) =~= dir.push('/') + name + ".pid"@);
    assert(dir.push('/') + (name + ".sock"@) =~= dir.push('/') + name + ".sock"@);
}

/// The binary is the one beside, if there is one, and else the one in `PATH`.
pub proof fn law_the_binary_beside_goes_first(
    system: System,
    beside: String,
    found: String,
    other: String,
)
    requires
        call_ensures(binary, (system, Some(beside)), found),
        call_ensures(binary, (system, None::<String>), other),
    ensures
        found@ == beside@,
        other@ == match system {
            System::Unix => "lspd"@,
            System::Windows => "lspd.exe"@,
        },
{
}

/// A daemon that answers is up, however many times it was asked; one that does not is
/// asked again while there are times left.
pub proof fn law_who_answers_is_up(left: nat)
    ensures
        boot_step(left, true) == BootStep::Up,
        left > 1 ==> boot_step(left, false) == BootStep::Again,
        left <= 1 ==> boot_step(left, false) == BootStep::GaveUp,
{
}

/// What is said where no daemon answers names the door; and the binary that is looked for
/// first is the one in the directory of who asks.
pub proof fn law_doors_and_binaries_are_named(
    endpoint: Endpoint,
    exe_dir: &str,
    said: String,
    beside: String,
)
    requires
        call_ensures(no_daemon, (&endpoint,), said),
        call_ensures(binary_beside, (System::Unix, exe_dir), beside),
        exe_dir@.len() > 0,
        exe_dir@.last() != '/',
    ensures
        said@ == "no hay daemon en "@ + endpoint.text(),
        beside@ == exe_dir@.push('/') + "lspd"@,
{
    reveal_strlit("lspd");
    path::law_a_path_is_put_after_its_base(exe_dir@, "lspd"@);
}

/// A daemon that was just started is asked fifty times, a tenth of a second apart: each
/// time takes one, and it is given up only when the last one is not answered.
pub proof fn law_each_time_takes_one(b: &mut Boot, answered: bool, r: BootStep, fresh: Boot)
    requires
        call_ensures(Boot::asked, (b, answered), r),
        call_ensures(Boot::new, (), fresh),
    ensures
        fresh@ == 50,
        BOOT_PAUSE == 100,
        old(b)@ > 0 ==> final(b)@ == old(b)@ - 1,
        answered <==> r == BootStep::Up,
        r == BootStep::GaveUp <==> !answered && old(b)@ <= 1,
{
}

/// Where the daemon keeps its things, on Unix: in the home of the user, and the pid of
/// each workspace under the name of its door.
pub proof fn law_where_the_daemon_keeps_its_things(
    home: &str,
    profile: Option<&str>,
    d: String,
    at: &str,
    canonical: &str,
    file: String,
)
    requires
        call_ensures(dir, (System::Unix, Some(home), profile), d),
        call_ensures(pid_path, (System::Unix, at, canonical), file),
        home@.len() > 0 && home@.last() != '/',
        at@.len() > 0 && at@.last() != '/',
    ensures
        d@ == home@.push('/') + ".lspd"@,
        file@ == at@.push('/') + transport::door_name(System::Unix, canonical@) + ".pid"@,
{
    law_the_directory_is_in_the_home(
        System::Unix,
        home@,
        match profile {
            Some(p) => Some(p@),
            None => None,
        },
    );
    law_the_pid_is_beside_the_socket(at@, canonical@);
}

} // verus!
