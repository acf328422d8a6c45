//! The protocol: what is done about a message, and what is answered to it.

use crate::census;
use crate::census::{Census, Heed};
use crate::json;
use crate::language::{Language, Readiness};
use crate::lsp_client::NoCallHierarchy;
use crate::lsp_manager::NotReady;
use crate::text;
use crate::text::same;
use crate::types;
use crate::types::{
    CalleeInfo, DefinitionInfo, LspStatus, RpcRequest, RpcResponse, SymbolInfo, WarmInfo,
};
use crate::wait;
use serde_json::Value;
use vstd::prelude::*;
use vstd::string::*;

verus! {

/// The questions about a position.
#[derive(Debug, Clone, Copy, PartialEq, Eq, Structural)]
pub enum Question {
    Callees,
    Callers,
    SymbolAt,
    Definitions,
}

/// A position: what all those questions take.
#[derive(Debug)]
pub struct Pos {
    pub file: String,
    pub line: u32,
    pub col: u32,
}

/// What is asked of a language server about a position.
#[derive(Debug, Clone, Copy, PartialEq, Eq, Structural)]
pub enum Request {
    /// The items at that position, and then the calls out of each.
    OutgoingCalls,
    /// The items at that position, and then the calls into each.
    IncomingCalls,
    Hover,
    Definition,
}

/// How a question is put to a language server.
#[derive(Debug, Clone, Copy, PartialEq, Eq, Structural)]
pub struct Plan {
    /// The document is brought up to date in the server before it is asked.
    pub open_first: bool,
    pub request: Request,
}

/// How a question is put to the server of a language: the document goes first to the
/// one that only knows what is open, and to no other.
pub fn plan(lang: Language, question: Question) -> (r: Plan)
    ensures
        r.open_first == (lang == Language::TypeScript),
        r.request == match question {
            Question::Callees => Request::OutgoingCalls,
            Question::Callers => Request::IncomingCalls,
            Question::SymbolAt => Request::Hover,
            Question::Definitions => Request::Definition,
        },
{
    Plan {
        open_first: lang.needs_open(),
        request: match question {
            Question::Callees => Request::OutgoingCalls,
            Question::Callers => Request::IncomingCalls,
            Question::SymbolAt => Request::Hover,
            Question::Definitions => Request::Definition,
        },
    }
}

/// What is done about a message.
#[derive(Debug)]
pub enum Dispatch {
    /// This is answered; and then, if it says to stop, the daemon stops.
    Reply { response: RpcResponse, stop: bool },
    /// It is asked of a language server.
    Ask { id: Value, question: Question, params: Value },
    /// It is answered what runs.
    Status { id: Value },
    /// These languages are warmed.
    Warm { id: Value, languages: Vec<String> },
}

/// What is done about a message.
pub enum Done {
    Reply(types::Response, bool),
    Ask(json::Json, Question, json::Json),
    Status(json::Json),
    Warm(json::Json, Seq<Seq<char>>),
}

impl View for Dispatch {
    type V = Done;

    open spec fn view(&self) -> Done {
        match *self {
            Dispatch::Reply { response, stop } => Done::Reply(response@, stop),
            Dispatch::Ask { id, question, params } => Done::Ask(
                json::json(id),
                question,
                json::json(params),
            ),
            Dispatch::Status { id } => Done::Status(json::json(id)),
            Dispatch::Warm { id, languages } => Done::Warm(
                json::json(id),
                text::texts(languages@),
            ),
        }
    }
}

/// The question of this name about a position, if it is one.
pub open spec fn question_of(method: Seq<char>) -> Option<Question> {
    if method == "callees"@ {
        Some(Question::Callees)
    } else if method == "callers"@ {
        Some(Question::Callers)
    } else if method == "symbol_at"@ {
        Some(Question::SymbolAt)
    } else if method == "definitions"@ {
        Some(Question::Definitions)
    } else {
        None
    }
}

fn read_question(method: &str) -> (r: Option<Question>)
    ensures
        r == question_of(method@),
{
    if same(method, "callees") {
        Some(Question::Callees)
    } else if same(method, "callers") {
        Some(Question::Callers)
    } else if same(method, "symbol_at") {
        Some(Question::SymbolAt)
    } else if same(method, "definitions") {
        Some(Question::Definitions)
    } else {
        None
    }
}

/// The texts that the values of a list are, if each is one.
pub open spec fn all_texts(list: Seq<json::Json>) -> Option<Seq<Seq<char>>> {
    if forall|i: int| 0 <= i < list.len() ==> (#[trigger] list[i]) is Text {
        Some(list.map_values(|j: json::Json| j->Text_0))
    } else {
        None
    }
}

/// The languages that the params of `warm` ask for: none where there are no params, or
/// they do not speak of languages, and nothing where they do not have that shape.
pub open spec fn languages_of(params: json::Json) -> Option<Seq<Seq<char>>> {
    match params {
        json::Json::Null => Some(Seq::empty()),
        json::Json::Object(_) => match json::member(params, "languages"@) {
            None => Some(Seq::empty()),
            Some(json::Json::Array(list)) => all_texts(list),
            Some(_) => None,
        },
        _ => None,
    }
}

fn read_languages(params: &Value) -> (r: Option<Vec<String>>)
    ensures
        match r {
            Some(v) => languages_of(json::json(*params)) == Some(text::texts(v@)),
            None => languages_of(json::json(*params)) is None,
        },
{
    let mut names: Vec<String> = Vec::new();
    if !json::is_object(params) {
        assert(text::texts(names@) =~= Seq::empty());
        return if json::is_null(params) {
            Some(names)
        } else {
            None
        };
    }
    match json::get(params, "languages") {
        None => {
            assert(text::texts(names@) =~= Seq::empty());
            Some(names)
        },
        Some(v) => match json::as_array(v) {
            None => None,
            Some(list) => {
                let ghost all = json::jsons(list@);
                for i in 0..list.len()
                    invariant
                        json::json(*params) is Object,
                        all == json::jsons(list@),
                        json::json(*v) == json::Json::Array(all),
                        json::member(json::json(*params), "languages"@) == Some(json::json(*v)),
                        names@.len() == i,
                        forall|j: int|
                            0 <= j < i ==> (#[trigger] all[j]) == json::Json::Text(names@[j]@),
                {
                    assert(all[i as int] == json::json(list@[i as int]));
                    match json::as_str(&list[i]) {
                        None => {
                            return None;
                        },
                        Some(s) => names.push(s.to_owned()),
                    }
                }
                assert(all.map_values(|j: json::Json| j->Text_0) =~= text::texts(names@));
                Some(names)
            },
        },
    }
}

/// What is said of params of `warm` that do not have its shape.
pub open spec fn bad_languages() -> Seq<char> {
    "`languages` es una lista de nombres de lenguajes"@
}

/// What is done about a message: one that is a question, or one that is not, and
/// this is why.
pub open spec fn to_do(request: Result<RpcRequest, String>) -> Done {
    match request {
        Err(e) => Done::Reply(
            types::Response::bad(json::Json::Null, types::PARSE_ERROR, e@),
            false,
        ),
        Ok(q) => {
            let id = json::json(q.id);
            if q.method@ == "ping"@ {
                Done::Reply(types::Response::good(id, json::Json::Text("pong"@)), false)
            } else if question_of(q.method@) is Some {
                Done::Ask(id, question_of(q.method@)->0, json::json(q.params))
            } else if q.method@ == "status"@ {
                Done::Status(id)
            } else if q.method@ == "warm"@ {
                match languages_of(json::json(q.params)) {
                    Some(languages) => Done::Warm(id, languages),
                    None => Done::Reply(
                        types::Response::bad(id, types::INVALID_PARAMS, bad_languages()),
                        false,
                    ),
                }
            } else if q.method@ == "shutdown"@ {
                Done::Reply(types::Response::good(id, json::Json::Null), true)
            } else {
                Done::Reply(
                    types::Response::bad(
                        id,
                        types::METHOD_NOT_FOUND,
                        "method not found: "@ + q.method@,
                    ),
                    false,
                )
            }
        },
    }
}

/// Decides what to do about a message: one that was read as a question, or one that
/// was not, with why.
pub fn dispatch(request: Result<RpcRequest, String>) -> (r: Dispatch)
    ensures
        r@ == to_do(request),
{
    let req = match request {
        Err(e) => {
            return Dispatch::Reply { response: RpcResponse::parse_error(e), stop: false };
        },
        Ok(req) => req,
    };
    let id = req.id;
    let method = req.method.as_str();
    if same(method, "ping") {
        return Dispatch::Reply {
            response: RpcResponse::ok(id, json::string("pong")),
            stop: false,
        };
    }
    match read_question(method) {
        Some(question) => {
            return Dispatch::Ask { id, question, params: req.params };
        },
        None => {},
    }
    if same(method, "status") {
        Dispatch::Status { id }
    } else if same(method, "warm") {
        match read_languages(&req.params) {
            Some(languages) => Dispatch::Warm { id, languages },
            None => Dispatch::Reply {
                response: RpcResponse::invalid_params(
                    id,
                    "`languages` es una lista de nombres de lenguajes".to_owned(),
                ),
                stop: false,
            },
        }
    } else if same(method, "shutdown") {
        Dispatch::Reply { response: RpcResponse::ok(id, json::null()), stop: true }
    } else {
        Dispatch::Reply { response: RpcResponse::method_not_found(id, method), stop: false }
    }
}

/// The position that a question is about; params that are not one are answered, with
/// why.
pub fn positional(id: Value, pos: Result<Pos, String>) -> (r: Result<(Value, Pos), RpcResponse>)
    ensures
        match (r, pos) {
            (Ok(q), Ok(p)) => json::json(q.0) == json::json(id) && q.1 == p,
            (Err(response), Err(e)) => response@ == types::Response::bad(
                json::json(id),
                types::INVALID_PARAMS,
                e@,
            ),
            _ => false,
        },
{
    match pos {
        Ok(p) => Ok((id, p)),
        Err(e) => Err(RpcResponse::invalid_params(id, e)),
    }
}

// ── the answers ──────────────────────────────────────────────────────────────

/// The answer to a question about a position.
#[derive(Debug)]
pub enum Answer {
    Calls(Vec<CalleeInfo>),
    Symbol(Option<SymbolInfo>),
    Definitions(Vec<DefinitionInfo>),
}

/// Why a question about a position got no answer.
#[derive(Debug)]
pub enum QuestionError {
    /// The server said that it cannot answer yet.
    NotReady(NotReady),
    /// There is nothing at that position whose calls could be followed.
    NoCallHierarchy(NoCallHierarchy),
    /// The server failed, or there is none.
    Failed(String),
}

impl Answer {
    /// This answer as JSON.
    pub open spec fn encoded(self) -> json::Json {
        match self {
            Answer::Calls(v) => json::Json::Array(v@.map_values(|c: CalleeInfo| c.encoded())),
            Answer::Symbol(Some(s)) => s.encoded(),
            Answer::Symbol(None) => json::Json::Null,
            Answer::Definitions(v) => json::Json::Array(
                v@.map_values(|d: DefinitionInfo| d.encoded()),
            ),
        }
    }

    /// This answer as JSON.
    pub fn to_value(&self) -> (r: Value)
        ensures
            json::json(r) == self.encoded(),
    {
        let mut items: Vec<Value> = Vec::new();
        match self {
            Answer::Calls(v) => {
                for i in 0..v.len()
                    invariant
                        items@.len() == i,
                        forall|j: int|
                            0 <= j < i ==> json::json(#[trigger] items@[j]) == v@[j].encoded(),
                {
                    items.push(v[i].to_value());
                }
                assert(json::jsons(items@) =~= v@.map_values(|c: CalleeInfo| c.encoded()));
                json::array(items)
            },
            Answer::Symbol(s) => match s {
                Some(s) => s.to_value(),
                None => json::null(),
            },
            Answer::Definitions(v) => {
                for i in 0..v.len()
                    invariant
                        items@.len() == i,
                        forall|j: int|
                            0 <= j < i ==> json::json(#[trigger] items@[j]) == v@[j].encoded(),
                {
                    items.push(v[i].to_value());
                }
                assert(json::jsons(items@) =~= v@.map_values(|d: DefinitionInfo| d.encoded()));
                json::array(items)
            },
        }
    }
}

/// What is answered to a question about a position. That the server is not ready is
/// told apart from every failure: it is no failure, and who asks must not take it
/// for an empty answer.
pub open spec fn answered(id: json::Json, r: Result<Answer, QuestionError>) -> types::Response {
    match r {
        Ok(a) => types::Response::good(id, a.encoded()),
        Err(QuestionError::NotReady(e)) => types::Response::bad(id, types::NOT_READY, e.text()),
        Err(QuestionError::NoCallHierarchy(_)) => types::Response::bad(
            id,
            types::FAILED,
            "no hay call hierarchy en esa posición"@,
        ),
        Err(QuestionError::Failed(e)) => types::Response::bad(id, types::FAILED, e@),
    }
}

/// What is answered to a question about a position.
pub fn answer(id: Value, r: Result<Answer, QuestionError>) -> (response: RpcResponse)
    ensures
        response@ == answered(json::json(id), r),
{
    match r {
        Ok(a) => RpcResponse::ok(id, a.to_value()),
        Err(QuestionError::NotReady(e)) => RpcResponse::not_ready(id, e.to_text()),
        Err(QuestionError::NoCallHierarchy(e)) => RpcResponse::server_error(
            id,
            e.to_text().to_owned(),
        ),
        Err(QuestionError::Failed(e)) => RpcResponse::server_error(id, e),
    }
}

/// The lines of `status` as JSON.
pub open spec fn status_encoded(lines: Seq<LspStatus>) -> json::Json {
    json::Json::Array(lines.map_values(|s: LspStatus| s.encoded()))
}

/// What is answered to `status`.
pub fn status_reply(id: Value, lines: &[LspStatus]) -> (response: RpcResponse)
    ensures
        response@ == types::Response::good(json::json(id), status_encoded(lines@)),
{
    let mut items: Vec<Value> = Vec::new();
    for i in 0..lines.len()
        invariant
            items@.len() == i,
            forall|j: int| 0 <= j < i ==> json::json(#[trigger] items@[j]) == lines@[j].encoded(),
    {
        items.push(lines[i].to_value());
    }
    assert(json::jsons(items@) =~= lines@.map_values(|s: LspStatus| s.encoded()));
    RpcResponse::ok(id, json::array(items))
}

/// The lines of the answer to `warm` as JSON.
pub open spec fn warm_encoded(infos: Seq<WarmInfo>) -> json::Json {
    json::Json::Array(infos.map_values(|w: WarmInfo| w.encoded()))
}

/// What is answered to `warm`.
pub fn warm_reply(id: Value, infos: &[WarmInfo]) -> (response: RpcResponse)
    ensures
        response@ == types::Response::good(json::json(id), warm_encoded(infos@)),
{
    let mut items: Vec<Value> = Vec::new();
    for i in 0..infos.len()
        invariant
            items@.len() == i,
            forall|j: int| 0 <= j < i ==> json::json(#[trigger] items@[j]) == infos@[j].encoded(),
    {
        items.push(infos[i].to_value());
    }
    assert(json::jsons(items@) =~= infos@.map_values(|w: WarmInfo| w.encoded()));
    RpcResponse::ok(id, json::array(items))
}

// ── what the protocol promises ───────────────────────────────────────────────

/// An answer goes under the id of its question: whatever is done about a question,
/// and whatever comes of it.
pub proof fn law_an_answer_has_the_id_of_its_question(
    q: RpcRequest,
    r: Result<Answer, QuestionError>,
)
    ensures
        match to_do(Ok(q)) {
            Done::Reply(response, _) => response.id == json::json(q.id),
            Done::Ask(id, _, _) => id == json::json(q.id),
            Done::Status(id) => id == json::json(q.id),
            Done::Warm(id, _) => id == json::json(q.id),
        },
        answered(json::json(q.id), r).id == json::json(q.id),
{
}

/// Only `shutdown` stops the daemon.
pub proof fn law_only_shutdown_stops(request: Result<RpcRequest, String>)
    ensures
        to_do(request) matches Done::Reply(_, stop) ==> (stop <==> (request matches Ok(q)
            && q.method@ == "shutdown"@)),
{
    reveal_strlit("ping");
    reveal_strlit("callees");
    reveal_strlit("callers");
    reveal_strlit("symbol_at");
    reveal_strlit("definitions");
    reveal_strlit("status");
    reveal_strlit("warm");
    reveal_strlit("shutdown");
    assert("ping"@.len() == 4 && "callees"@.len() == 7 && "callers"@.len() == 7
        && "symbol_at"@.len() == 9 && "definitions"@.len() == 11 && "status"@.len() == 6
        && "warm"@.len() == 4 && "shutdown"@.len() == 8);
}

/// A question is either answered or an error, and never both: an error is never an
/// empty answer.
pub proof fn law_an_answer_is_a_result_or_an_error(
    id: json::Json,
    r: Result<Answer, QuestionError>,
)
    ensures
        r is Ok <==> answered(id, r).result is Some,
        r is Err <==> answered(id, r).error is Some,
        answered(id, r).error matches Some(e) ==> (e.0 == types::NOT_READY <==> r
            matches Err(QuestionError::NotReady(_))),
{
}

/// A question to a server that is `INDEXING` is answered with an error that says so,
/// and never with an empty answer; one that does not tell its readiness is asked.
pub proof fn law_who_indexes_does_not_answer_empty(
    c: Census,
    lang: Language,
    ticket: u64,
    e: NotReady,
    id: json::Json,
)
    requires
        c.wf(),
        c.holds(lang, ticket),
        c.spots[lang]->Taken_0.up,
        e.lang@ == lang.server_name(),
    ensures
        c.asking(ticket) == Heed::NotReady(lang) <==> c.spots[lang]->Taken_0.readiness
            == Readiness::Indexing,
        c.asking(ticket) == Heed::Go <==> c.spots[lang]->Taken_0.readiness
            != Readiness::Indexing,
        answered(id, Err(QuestionError::NotReady(e))) == types::Response::bad(
            id,
            types::NOT_READY,
            e.text(),
        ),
        answered(id, Err(QuestionError::NotReady(e))).result is None,
{
    census::lemma_holder(c, ticket);
}

/// What `status` says of a server is what a client reads of it, the time since its
/// last progress included.
pub proof fn law_a_client_reads_the_status(s: LspStatus)
    ensures
        wait::server_of(s.encoded()) == (wait::Server {
            name: s.name@,
            state: s.state@,
            since_progress: Some(s.since_progress_ms),
            error: text::opt_text(s.error),
        }),
{
    reveal_strlit("name");
    reveal_strlit("state");
    reveal_strlit("queries");
    reveal_strlit("since_progress_ms");
    reveal_strlit("error");
    assert("name"@.len() == 4 && "state"@.len() == 5 && "queries"@.len() == 7
        && "since_progress_ms"@.len() == 17 && "error"@.len() == 5);
    assert("state"@[0] == 's' && "error"@[0] == 'e');
}

/// A response reads back where its id does and what it says does: an error always.
pub proof fn lemma_response_reads_back(r: types::Response)
    requires
        json::reads_back(r.id, (json::depth_limit() - 1) as nat),
        r.result matches Some(v) ==> json::reads_back(v, (json::depth_limit() - 1) as nat),
    ensures
        json::reads_back(r.encoded(), json::depth_limit()),
{
    let below = (json::depth_limit() - 1) as nat;
    match r.error {
        Some(e) => {
            let o = types::Response::error_encoded(e.0, e.1);
            assert forall|k: Seq<char>| o->Object_0.dom().contains(k) implies json::reads_back(
                #[trigger] o->Object_0[k],
                0,
            ) by {}
            assert(json::reads_back(o, 1));
            json::lemma_reads_back_deeper(o, 1, below);
        },
        None => {},
    }
    r.lemma_encoded();
    let m = r.encoded()->Object_0;
    assert forall|k: Seq<char>| m.dom().contains(k) implies json::reads_back(
        #[trigger] m[k],
        below,
    ) by {}
}

/// Whatever is answered to a question is read back by the client that asked, as long
/// as the id of the question is: no answer of the daemon nests deep, and none holds a
/// fraction.
pub proof fn law_what_is_answered_reads_back(
    id: json::Json,
    r: Result<Answer, QuestionError>,
    lines: Seq<LspStatus>,
    infos: Seq<WarmInfo>,
)
    requires
        json::reads_back(id, (json::depth_limit() - 1) as nat),
    ensures
        json::reads_back(answered(id, r).encoded(), json::depth_limit()),
        json::reads_back(
            types::Response::good(id, status_encoded(lines)).encoded(),
            json::depth_limit(),
        ),
        json::reads_back(
            types::Response::good(id, warm_encoded(infos)).encoded(),
            json::depth_limit(),
        ),
{
    let below = (json::depth_limit() - 1) as nat;
    match r {
        Ok(a) => {
            lemma_answer_is_shallow(a);
            json::lemma_reads_back_deeper(a.encoded(), 2, below);
        },
        Err(_) => {},
    }
    lemma_response_reads_back(answered(id, r));

    let s = status_encoded(lines);
    assert forall|i: int| 0 <= i < s->Array_0.len() implies json::reads_back(
        #[trigger] s->Array_0[i],
        1,
    ) by {
        let m = lines[i].encoded()->Object_0;
        assert forall|k: Seq<char>| m.dom().contains(k) implies json::reads_back(
            #[trigger] m[k],
            0,
        ) by {}
    }
    json::lemma_reads_back_deeper(s, 2, below);
    lemma_response_reads_back(types::Response::good(id, s));

    let w = warm_encoded(infos);
    assert forall|i: int| 0 <= i < w->Array_0.len() implies json::reads_back(
        #[trigger] w->Array_0[i],
        1,
    ) by {
        let m = infos[i].encoded()->Object_0;
        assert forall|k: Seq<char>| m.dom().contains(k) implies json::reads_back(
            #[trigger] m[k],
            0,
        ) by {}
    }
    json::lemma_reads_back_deeper(w, 2, below);
    lemma_response_reads_back(types::Response::good(id, w));
}

proof fn lemma_answer_is_shallow(a: Answer)
    ensures
        json::reads_back(a.encoded(), 2),
{
    match a {
        Answer::Calls(v) => {
            let s = a.encoded()->Array_0;
            assert forall|i: int| 0 <= i < s.len() implies json::reads_back(
                #[trigger] s[i],
                1,
            ) by {
                let m = v@[i].encoded()->Object_0;
                assert forall|k: Seq<char>| m.dom().contains(k) implies json::reads_back(
                    #[trigger] m[k],
                    0,
                ) by {}
            }
        },
        Answer::Symbol(Some(x)) => {
            let m = x.encoded()->Object_0;
            assert forall|k: Seq<char>| m.dom().contains(k) implies json::reads_back(
                #[trigger] m[k],
                1,
            ) by {}
        },
        Answer::Symbol(None) => {},
        Answer::Definitions(v) => {
            let s = a.encoded()->Array_0;
            assert forall|i: int| 0 <= i < s.len() implies json::reads_back(
                #[trigger] s[i],
                1,
            ) by {
                let m = v@[i].encoded()->Object_0;
                assert forall|k: Seq<char>| m.dom().contains(k) implies json::reads_back(
                    #[trigger] m[k],
                    0,
                ) by {}
            }
        },
    }
}

proof fn lemma_methods()
    ensures
        ({
            let all = seq![
                "ping"@,
                "callees"@,
                "callers"@,
                "symbol_at"@,
                "definitions"@,
                "status"@,
                "warm"@,
                "shutdown"@,
            ];
            all.no_duplicates()
        }),
{
    reveal_strlit("ping");
    reveal_strlit("callees");
    reveal_strlit("callers");
    reveal_strlit("symbol_at");
    reveal_strlit("definitions");
    reveal_strlit("status");
    reveal_strlit("warm");
    reveal_strlit("shutdown");
    assert("ping"@.len() == 4 && "callees"@.len() == 7 && "callers"@.len() == 7
        && "symbol_at"@.len() == 9 && "definitions"@.len() == 11 && "status"@.len() == 6
        && "warm"@.len() == 4 && "shutdown"@.len() == 8);
    assert("ping"@[0] == 'p' && "warm"@[0] == 'w' && "callees"@[4] == 'e' && "callers"@[4] == 'e'
        && "callees"@[5] == 'e' && "callers"@[5] == 'r');
}

/// What is done about each question, by its method: a `ping` is answered, the four about
/// a position go with their params to a language server, `status` and `warm` are looked
/// at here, `shutdown` is answered and stops, and no other method is known.
pub proof fn law_each_method_has_its_answer(q: RpcRequest, r: Dispatch)
    requires
        call_ensures(dispatch, (Ok::<RpcRequest, String>(q),), r),
    ensures
        ({
            let id = json::json(q.id);
            let params = json::json(q.params);
            let m = q.method@;
            &&& m == "ping"@ ==> (r matches Dispatch::Reply { response, stop }
                && response@ == types::Response::good(id, json::Json::Text("pong"@)) && !stop)
            &&& m == "callees"@ ==> r@ == Done::Ask(id, Question::Callees, params)
            &&& m == "callers"@ ==> r@ == Done::Ask(id, Question::Callers, params)
            &&& m == "symbol_at"@ ==> r@ == Done::Ask(id, Question::SymbolAt, params)
            &&& m == "definitions"@ ==> r@ == Done::Ask(id, Question::Definitions, params)
            &&& m == "status"@ ==> r@ == Done::Status(id)
            &&& m == "shutdown"@ ==> (r matches Dispatch::Reply { response, stop }
                && response@ == types::Response::good(id, json::Json::Null) && stop)
            &&& m == "warm"@ ==> match languages_of(params) {
                Some(languages) => r@ == Done::Warm(id, languages),
                None => r matches Dispatch::Reply { response, stop }
                    && response@.error matches Some(e) && e.0 == -32602 && response@.id == id
                    && response@.result is None && !stop,
            }
            &&& m != "ping"@ && m != "callees"@ && m != "callers"@ && m != "symbol_at"@ && m
                != "definitions"@ && m != "status"@ && m != "warm"@ && m != "shutdown"@ ==> (r
                matches Dispatch::Reply { response, stop } && response@ == types::Response::bad(
                id,
                -32601i32,
                "method not found: "@ + m,
            ) && !stop)
        }),
{
    lemma_methods();
    let all = seq![
        "ping"@,
        "callees"@,
        "callers"@,
        "symbol_at"@,
        "definitions"@,
        "status"@,
        "warm"@,
        "shutdown"@,
    ];
    assert(all[0] == "ping"@ && all[1] == "callees"@ && all[2] == "callers"@ && all[3]
        == "symbol_at"@ && all[4] == "definitions"@ && all[5] == "status"@ && all[6] == "warm"@
        && all[7] == "shutdown"@);
}

/// What is no question is answered so, with why, and does not stop the daemon.
pub proof fn law_what_is_no_question_is_answered(e: String, r: Dispatch)
    requires
        call_ensures(dispatch, (Err::<RpcRequest, String>(e),), r),
    ensures
        r matches Dispatch::Reply { response, stop } && !stop && response@ == types::Response::bad(
            json::Json::Null,
            -32700i32,
            e@,
        ),
{
}

/// The languages that `warm` is asked for are all those that its list has, in their
/// order; without params, or without a list among them, none; and what is no list of
/// texts is refused.
pub proof fn law_the_languages_asked_for_are_read(
    names: Seq<Seq<char>>,
    list: Seq<json::Json>,
    m: Map<Seq<char>, json::Json>,
    params: json::Json,
)
    requires
        list.len() == names.len(),
        forall|i: int| 0 <= i < list.len() ==> #[trigger] list[i] == json::Json::Text(names[i]),
    ensures
        m.dom().contains("languages"@) && m["languages"@] == json::Json::Array(list)
            ==> languages_of(json::Json::Object(m)) == Some(names),
        !m.dom().contains("languages"@) ==> languages_of(json::Json::Object(m)) == Some(
            Seq::<Seq<char>>::empty(),
        ),
        m.dom().contains("languages"@) && !(m["languages"@] is Array) ==> languages_of(
            json::Json::Object(m),
        ) is None,
        languages_of(json::Json::Null) == Some(Seq::<Seq<char>>::empty()),
        !(params is Null) && !(params is Object) ==> languages_of(params) is None,
{
    assert(list.map_values(|j: json::Json| j->Text_0) =~= names);
}

/// One value that is no text spoils the list of languages.
pub proof fn law_what_is_no_name_is_refused(
    list: Seq<json::Json>,
    i: int,
    m: Map<Seq<char>, json::Json>,
)
    requires
        0 <= i < list.len(),
        !(list[i] is Text),
        m.dom().contains("languages"@),
        m["languages"@] == json::Json::Array(list),
    ensures
        languages_of(json::Json::Object(m)) is None,
{
}

/// How each question is put: its own request, and the document first only to the server
/// of TypeScript.
pub proof fn law_each_question_is_put_its_way(lang: Language, question: Question, r: Plan)
    requires
        call_ensures(plan, (lang, question), r),
    ensures
        r.open_first <==> lang == Language::TypeScript,
        r.request == Request::OutgoingCalls <==> question == Question::Callees,
        r.request == Request::IncomingCalls <==> question == Question::Callers,
        r.request == Request::Hover <==> question == Question::SymbolAt,
        r.request == Request::Definition <==> question == Question::Definitions,
{
}

/// A position is passed on as it is, and params that are none are answered with why.
pub proof fn law_a_position_is_passed_on(
    id: Value,
    pos: Result<Pos, String>,
    r: Result<(Value, Pos), RpcResponse>,
)
    requires
        call_ensures(positional, (id, pos), r),
    ensures
        r is Ok <==> pos is Ok,
        r matches Ok(q) ==> q.1 == pos->Ok_0 && json::json(q.0) == json::json(id),
        r matches Err(e) ==> e@ == types::Response::bad(
            json::json(id),
            -32602i32,
            pos->Err_0@,
        ),
{
}

/// An answer holds every call or declaration that was found, one for one and in their
/// order; a symbol that was not found is null.
pub proof fn law_an_answer_holds_all_that_was_found(a: Answer, v: Value, i: int)
    requires
        call_ensures(Answer::to_value, (&a,), v),
    ensures
        match a {
            Answer::Calls(found) => json::json(v) matches json::Json::Array(list) && list.len()
                == found@.len() && (0 <= i < list.len() ==> list[i] == found@[i].encoded()),
            Answer::Definitions(found) => json::json(v) matches json::Json::Array(list)
                && list.len() == found@.len() && (0 <= i < list.len() ==> list[i]
                == found@[i].encoded()),
            Answer::Symbol(Some(s)) => json::json(v) == s.encoded(),
            Answer::Symbol(None) => json::json(v) == json::Json::Null,
        },
{
}

/// What is answered to a question about a position: what was found, or else the code of
/// why not, with its words.
pub proof fn law_what_is_answered_about_a_position(
    id: Value,
    r: Result<Answer, QuestionError>,
    response: RpcResponse,
)
    requires
        call_ensures(answer, (id, r), response),
    ensures
        response@.id == json::json(id),
        match r {
            Ok(a) => response@.result == Some(a.encoded()) && response@.error is None,
            Err(QuestionError::NotReady(e)) => response@.result is None && response@.error == Some(
                (
                    -32001i32,
                    e.lang@
                        + " todavía está indexando: volvé a preguntar. `lspd status` dice cuándo."@,
                ),
            ),
            Err(QuestionError::NoCallHierarchy(_)) => response@.result is None && response@.error
                == Some((-32000i32, "no hay call hierarchy en esa posición"@)),
            Err(QuestionError::Failed(e)) => response@.result is None && response@.error == Some(
                (-32000i32, e@),
            ),
        },
{
}

/// Every line of `status` and of `warm` is answered, one for one and in their order.
pub proof fn law_every_line_is_answered(
    id: Value,
    lines: &[LspStatus],
    infos: &[WarmInfo],
    status: RpcResponse,
    warm: RpcResponse,
    i: int,
)
    requires
        call_ensures(status_reply, (id, lines), status),
        call_ensures(warm_reply, (id, infos), warm),
    ensures
        status@.id == json::json(id) && status@.error is None,
        status@.result matches Some(json::Json::Array(list)) && list.len() == lines@.len() && (0
            <= i < list.len() ==> list[i] == lines@[i].encoded()),
        warm@.id == json::json(id) && warm@.error is None,
        warm@.result matches Some(json::Json::Array(list)) && list.len() == infos@.len() && (0 <= i
            < list.len() ==> list[i] == infos@[i].encoded()),
{
}

} // verus!
