//! What travels: the answers, and the JSON-RPC messages that carry them.

use crate::client;
use crate::json;
use crate::text;
use serde_json::Value;
use vstd::prelude::*;
use vstd::string::*;

verus! {

/// A call, outgoing or incoming: the symbol at the other end of it.
#[derive(Debug, Clone)]
pub struct CalleeInfo {
    pub symbol: String,
    pub name: String,
    pub file: String,
    pub line: u32,
    pub col: u32,
}

/// Where something is declared: the file and the range, lines and columns from zero.
#[derive(Debug, Clone)]
pub struct DefinitionInfo {
    pub name: String,
    pub file: String,
    pub line: u32,
    pub col: u32,
    pub end_line: u32,
    pub end_col: u32,
}

/// The symbol at a position.
#[derive(Debug, Clone)]
pub struct SymbolInfo {
    pub symbol: String,
    pub name: String,
    pub kind: String,
}

/// What `status` says of a language server.
#[derive(Debug, Clone)]
pub struct LspStatus {
    pub name: String,
    pub state: String,
    pub queries: u64,
    /// Milliseconds since the last sign of progress of the server, or since it started.
    pub since_progress_ms: u64,
    /// Why it did not start, in one that is `FAILED`.
    pub error: Option<String>,
}

/// What `warm` says of each language it was asked for. The name is the one that
/// `status` gives; the error is there only where it could not start.
#[derive(Debug, Clone)]
pub struct WarmInfo {
    pub name: String,
    pub error: Option<String>,
}

/// A natural number as JSON.
pub open spec fn natural(n: u64) -> json::Json {
    json::Json::Number(json::Number::Unsigned(n))
}

/// An object with one more member where there is a text for it.
pub open spec fn with_text(
    m: Map<Seq<char>, json::Json>,
    key: Seq<char>,
    s: Option<Seq<char>>,
) -> Map<Seq<char>, json::Json> {
    match s {
        Some(t) => m.insert(key, json::Json::Text(t)),
        None => m,
    }
}

impl CalleeInfo {
    pub open spec fn encoded(self) -> json::Json {
        json::Json::Object(
            map![
                "symbol"@ => json::Json::Text(self.symbol@),
                "name"@ => json::Json::Text(self.name@),
                "file"@ => json::Json::Text(self.file@),
                "line"@ => natural(self.line as u64),
                "col"@ => natural(self.col as u64),
            ],
        )
    }

    /// This call as JSON.
    pub fn to_value(&self) -> (r: Value)
        ensures
            json::json(r) == self.encoded(),
    {
        let mut v = json::object();
        json::set(&mut v, "symbol", json::string(self.symbol.as_str()));
        json::set(&mut v, "name", json::string(self.name.as_str()));
        json::set(&mut v, "file", json::string(self.file.as_str()));
        json::set(&mut v, "line", json::unsigned(self.line as u64));
        json::set(&mut v, "col", json::unsigned(self.col as u64));
        v
    }
}

impl DefinitionInfo {
    pub open spec fn encoded(self) -> json::Json {
        json::Json::Object(
            map![
                "name"@ => json::Json::Text(self.name@),
                "file"@ => json::Json::Text(self.file@),
                "line"@ => natural(self.line as u64),
                "col"@ => natural(self.col as u64),
                "end_line"@ => natural(self.end_line as u64),
                "end_col"@ => natural(self.end_col as u64),
            ],
        )
    }

    /// This declaration as JSON.
    pub fn to_value(&self) -> (r: Value)
        ensures
            json::json(r) == self.encoded(),
    {
        let mut v = json::object();
        json::set(&mut v, "name", json::string(self.name.as_str()));
        json::set(&mut v, "file", json::string(self.file.as_str()));
        json::set(&mut v, "line", json::unsigned(self.line as u64));
        json::set(&mut v, "col", json::unsigned(self.col as u64));
        json::set(&mut v, "end_line", json::unsigned(self.end_line as u64));
        json::set(&mut v, "end_col", json::unsigned(self.end_col as u64));
        v
    }
}

impl SymbolInfo {
    pub open spec fn encoded(self) -> json::Json {
        json::Json::Object(
            map![
                "symbol"@ => json::Json::Text(self.symbol@),
                "name"@ => json::Json::Text(self.name@),
                "kind"@ => json::Json::Text(self.kind@),
            ],
        )
    }

    /// This symbol as JSON.
    pub fn to_value(&self) -> (r: Value)
        ensures
            json::json(r) == self.encoded(),
    {
        let mut v = json::object();
        json::set(&mut v, "symbol", json::string(self.symbol.as_str()));
        json::set(&mut v, "name", json::string(self.name.as_str()));
        json::set(&mut v, "kind", json::string(self.kind.as_str()));
        v
    }
}

impl LspStatus {
    pub open spec fn encoded(self) -> json::Json {
        json::Json::Object(
            with_text(
                map![
                    "name"@ => json::Json::Text(self.name@),
                    "state"@ => json::Json::Text(self.state@),
                    "queries"@ => natural(self.queries),
                    "since_progress_ms"@ => natural(self.since_progress_ms),
                ],
                "error"@,
                text::opt_text(self.error),
            ),
        )
    }

    /// This line of `status` as JSON.
    pub fn to_value(&self) -> (r: Value)
        ensures
            json::json(r) == self.encoded(),
    {
        let mut v = json::object();
        json::set(&mut v, "name", json::string(self.name.as_str()));
        json::set(&mut v, "state", json::string(self.state.as_str()));
        json::set(&mut v, "queries", json::unsigned(self.queries));
        json::set(&mut v, "since_progress_ms", json::unsigned(self.since_progress_ms));
        json::set_opt_str(&mut v, "error", &self.error);
        v
    }
}

impl WarmInfo {
    pub open spec fn encoded(self) -> json::Json {
        json::Json::Object(
            with_text(
                map!["name"@ => json::Json::Text(self.name@)],
                "error"@,
                text::opt_text(self.error),
            ),
        )
    }

    /// This line of the answer to `warm` as JSON.
    pub fn to_value(&self) -> (r: Value)
        ensures
            json::json(r) == self.encoded(),
    {
        let mut v = json::object();
        json::set(&mut v, "name", json::string(self.name.as_str()));
        json::set_opt_str(&mut v, "error", &self.error);
        v
    }
}

// ── the messages ─────────────────────────────────────────────────────────────

/// The JSON does not parse.
pub const PARSE_ERROR: i32 = -32700;

/// There is no such method.
pub const METHOD_NOT_FOUND: i32 = -32601;

/// The params do not have the shape that the method expects.
pub const INVALID_PARAMS: i32 = -32602;

/// The language server failed, or there is no support for that language.
pub const FAILED: i32 = -32000;

/// The language server is `INDEXING`: it cannot answer yet.
pub const NOT_READY: i32 = -32001;

/// A question, as it comes in.
#[derive(Debug)]
pub struct RpcRequest {
    pub jsonrpc: String,
    pub id: Value,
    pub method: String,
    pub params: Value,
}

/// What went wrong: a code of the protocol, and why.
#[derive(Debug)]
pub struct RpcError {
    pub code: i32,
    pub message: String,
}

/// An answer, as it goes out.
#[derive(Debug)]
pub struct RpcResponse {
    pub jsonrpc: String,
    pub id: Value,
    pub result: Option<Value>,
    pub error: Option<RpcError>,
}

/// What an [`RpcResponse`] says.
pub struct Response {
    pub jsonrpc: Seq<char>,
    pub id: json::Json,
    pub result: Option<json::Json>,
    pub error: Option<(i32, Seq<char>)>,
}

impl View for RpcResponse {
    type V = Response;

    open spec fn view(&self) -> Response {
        Response {
            jsonrpc: self.jsonrpc@,
            id: json::json(self.id),
            result: match self.result {
                Some(v) => Some(json::json(v)),
                None => None,
            },
            error: match self.error {
                Some(e) => Some((e.code, e.message@)),
                None => None,
            },
        }
    }
}

impl Response {
    /// An answer that says this.
    pub open spec fn good(id: json::Json, result: json::Json) -> Response {
        Response { jsonrpc: "2.0"@, id, result: Some(result), error: None }
    }

    /// An answer that says that it could not be answered, and why.
    pub open spec fn bad(id: json::Json, code: i32, message: Seq<char>) -> Response {
        Response { jsonrpc: "2.0"@, id, result: None, error: Some((code, message)) }
    }

    /// The error of an answer as JSON.
    pub open spec fn error_encoded(code: i32, message: Seq<char>) -> json::Json {
        json::Json::Object(
            map!["code"@ => json::integer(code as int), "message"@ => json::Json::Text(message)],
        )
    }

    /// The members of this answer, in the order they are written. What it does not have
    /// is not there.
    pub open spec fn members(self) -> Seq<(Seq<char>, json::Json)> {
        seq![("jsonrpc"@, json::Json::Text(self.jsonrpc)), ("id"@, self.id)] + match self.result {
            Some(v) => seq![("result"@, v)],
            None => seq![],
        } + match self.error {
            Some(e) => seq![("error"@, Self::error_encoded(e.0, e.1))],
            None => seq![],
        }
    }

    /// This answer as JSON.
    pub open spec fn encoded(self) -> json::Json {
        json::Json::Object(json::object_of(self.members()))
    }

    /// What is under each key of an answer.
    pub proof fn lemma_encoded(self)
        ensures
            self.encoded() == json::Json::Object(
                {
                    let m = map!["jsonrpc"@ => json::Json::Text(self.jsonrpc), "id"@ => self.id];
                    let m = match self.result {
                        Some(v) => m.insert("result"@, v),
                        None => m,
                    };
                    match self.error {
                        Some(e) => m.insert("error"@, Self::error_encoded(e.0, e.1)),
                        None => m,
                    }
                },
            ),
    {
        let head = seq![("jsonrpc"@, json::Json::Text(self.jsonrpc)), ("id"@, self.id)];
        let body = match self.result {
            Some(v) => head.push(("result"@, v)),
            None => head,
        };
        let all = match self.error {
            Some(e) => body.push(("error"@, Self::error_encoded(e.0, e.1))),
            None => body,
        };
        assert(json::object_of(head) =~= map![
            "jsonrpc"@ => json::Json::Text(self.jsonrpc),
            "id"@ => self.id,
        ]) by {
            reveal_with_fuel(json::object_of, 3);
            assert(head.drop_last().drop_last() =~= Seq::empty());
        }
        if self.result is Some {
            assert(body.drop_last() =~= head);
            assert(json::object_of(body) == json::object_of(head).insert(
                body.last().0,
                body.last().1,
            ));
        }
        if self.error is Some {
            assert(all.drop_last() =~= body);
            assert(json::object_of(all) == json::object_of(body).insert(
                all.last().0,
                all.last().1,
            ));
        }
        assert(self.members() =~= all);
    }

    /// Each member of an answer reads back where the answer does.
    pub proof fn lemma_members_read_back(self)
        ensures
            json::reads_back(self.encoded(), json::depth_limit()) ==> forall|i: int|
                0 <= i < self.members().len() ==> json::reads_back(
                    (#[trigger] self.members()[i]).1,
                    (json::depth_limit() - 1) as nat,
                ),
    {
        self.lemma_encoded();
        reveal_strlit("jsonrpc");
        reveal_strlit("id");
        reveal_strlit("result");
        reveal_strlit("error");
        assert("jsonrpc"@.len() == 7 && "id"@.len() == 2 && "result"@.len() == 6
            && "error"@.len() == 5);
        let m = self.encoded()->Object_0;
        assert forall|i: int| 0 <= i < self.members().len() implies m.dom().contains(
            (#[trigger] self.members()[i]).0,
        ) && m[self.members()[i].0] == self.members()[i].1 by {}
    }
}

/// A message as a line: its JSON, and a line feed.
pub fn frame(v: &Value) -> (r: String)
    ensures
        r@ == json::json_text(json::json(*v)).push('\n'),
        !json::json_text(json::json(*v)).contains('\n'),
        text::trimmed(r@) == json::json_text(json::json(*v)),
        json::reads_back(json::json(*v), json::depth_limit()) ==> json::json_parse(
            text::trimmed(r@),
        ) == Some(json::json(*v)),
{
    let mut line = json::print(v);
    let ghost bare = line@;
    line.push('\n');
    proof {
        text::lemma_trimmed_line(bare);
    }
    line
}

impl RpcResponse {
    pub fn ok(id: Value, result: Value) -> (r: RpcResponse)
        ensures
            r@ == Response::good(json::json(id), json::json(result)),
    {
        RpcResponse { jsonrpc: "2.0".to_owned(), id, result: Some(result), error: None }
    }

    /// The JSON does not parse. There is no telling which question it was.
    pub fn parse_error(msg: String) -> (r: RpcResponse)
        ensures
            r@ == Response::bad(json::Json::Null, PARSE_ERROR, msg@),
    {
        Self::err(json::null(), PARSE_ERROR, msg)
    }

    /// The params do not have the shape that the method expects.
    pub fn invalid_params(id: Value, msg: String) -> (r: RpcResponse)
        ensures
            r@ == Response::bad(json::json(id), INVALID_PARAMS, msg@),
    {
        Self::err(id, INVALID_PARAMS, msg)
    }

    /// There is no such method.
    pub fn method_not_found(id: Value, method: &str) -> (r: RpcResponse)
        ensures
            r@ == Response::bad(json::json(id), METHOD_NOT_FOUND, "method not found: "@ + method@),
    {
        let mut msg = "method not found: ".to_owned();
        msg.append(method);
        Self::err(id, METHOD_NOT_FOUND, msg)
    }

    /// The language server failed, is not installed, or the language has no support.
    pub fn server_error(id: Value, msg: String) -> (r: RpcResponse)
        ensures
            r@ == Response::bad(json::json(id), FAILED, msg@),
    {
        Self::err(id, FAILED, msg)
    }

    /// The language server is `INDEXING`: it cannot answer yet. It has a code of its
    /// own because it is no failure: it says to ask again.
    pub fn not_ready(id: Value, msg: String) -> (r: RpcResponse)
        ensures
            r@ == Response::bad(json::json(id), NOT_READY, msg@),
    {
        Self::err(id, NOT_READY, msg)
    }

    fn err(id: Value, code: i32, message: String) -> (r: RpcResponse)
        ensures
            r@ == Response::bad(json::json(id), code, message@),
    {
        RpcResponse {
            jsonrpc: "2.0".to_owned(),
            id,
            result: None,
            error: Some(RpcError { code, message }),
        }
    }

    /// This answer as the line that is sent: its members in their order, and a line
    /// feed. It is one line, and a client reads in it what the answer says, but where the
    /// answer nests too deep or holds a fraction.
    pub fn to_line(&self) -> (r: String)
        ensures
            r@ == json::members_text(self@.members()).push('\n'),
            !r@.drop_last().contains('\n'),
            json::reads_back(self@.encoded(), json::depth_limit()) ==> client::reading(r@)
                == client::saying(self@),
    {
        let mut members: Vec<(&'static str, Value)> = Vec::new();
        members.push(("jsonrpc", json::string(self.jsonrpc.as_str())));
        members.push(("id", json::copy(&self.id)));
        match &self.result {
            Some(x) => members.push(("result", json::copy(x))),
            None => {},
        }
        match &self.error {
            Some(e) => {
                let mut o = json::object();
                json::set(&mut o, "code", json::signed(e.code));
                json::set(&mut o, "message", json::string(e.message.as_str()));
                members.push(("error", o));
            },
            None => {},
        }
        let ghost given = members@;
        let mut r = json::print_members(members);
        let ghost bare = r@;
        r.push('\n');
        proof {
            assert(json::members_of(given) =~= self@.members());
            self@.lemma_members_read_back();
            reveal_strlit("{");
            reveal_strlit("}");
            assert(bare.first() == '{' && bare.last() == '}');
            text::lemma_trimmed_line(bare);
            assert(r@.drop_last() =~= bare);
            client::lemma_encoded_says(self@);
            assert forall|i: int|
                0 <= i < given.len() && json::reads_back(
                    self@.encoded(),
                    json::depth_limit(),
                ) implies json::reads_back(
                json::json((#[trigger] given[i]).1),
                (json::depth_limit() - 1) as nat,
            ) by {
                assert(json::members_of(given)[i] == (given[i].0@, json::json(given[i].1)));
            }
        }
        r
    }
}

// ── what the messages promise ────────────────────────────────────────────────

/// A call is sent with all that it has, each under its name.
pub proof fn law_a_call_is_sent_whole(c: CalleeInfo, v: Value)
    requires
        call_ensures(CalleeInfo::to_value, (&c,), v),
    ensures
        json::text_member(json::json(v), "symbol"@) == Some(c.symbol@),
        json::text_member(json::json(v), "name"@) == Some(c.name@),
        json::text_member(json::json(v), "file"@) == Some(c.file@),
        json::u64_member(json::json(v), "line"@) == Some(c.line as u64),
        json::u64_member(json::json(v), "col"@) == Some(c.col as u64),
        json::json(v) is Object,
{
    reveal_strlit("symbol");
    reveal_strlit("name");
    reveal_strlit("file");
    reveal_strlit("line");
    reveal_strlit("col");
    assert("symbol"@[0] == 's' && "name"@[0] == 'n' && "file"@[0] == 'f' && "line"@[0] == 'l'
        && "col"@[0] == 'c');
}

/// A declaration is sent with all that it has, each under its name.
pub proof fn law_a_declaration_is_sent_whole(d: DefinitionInfo, v: Value)
    requires
        call_ensures(DefinitionInfo::to_value, (&d,), v),
    ensures
        json::text_member(json::json(v), "name"@) == Some(d.name@),
        json::text_member(json::json(v), "file"@) == Some(d.file@),
        json::u64_member(json::json(v), "line"@) == Some(d.line as u64),
        json::u64_member(json::json(v), "col"@) == Some(d.col as u64),
        json::u64_member(json::json(v), "end_line"@) == Some(d.end_line as u64),
        json::u64_member(json::json(v), "end_col"@) == Some(d.end_col as u64),
        json::json(v) is Object,
{
    reveal_strlit("name");
    reveal_strlit("file");
    reveal_strlit("line");
    reveal_strlit("col");
    reveal_strlit("end_line");
    reveal_strlit("end_col");
    assert("name"@[0] == 'n' && "file"@[0] == 'f' && "line"@[0] == 'l' && "col"@[0] == 'c'
        && "end_line"@[0] == 'e' && "end_col"@[0] == 'e' && "end_line"@.len() == 8
        && "end_col"@.len() == 7);
}

/// A symbol is sent with all that it has, each under its name.
pub proof fn law_a_symbol_is_sent_whole(s: SymbolInfo, v: Value)
    requires
        call_ensures(SymbolInfo::to_value, (&s,), v),
    ensures
        json::text_member(json::json(v), "symbol"@) == Some(s.symbol@),
        json::text_member(json::json(v), "name"@) == Some(s.name@),
        json::text_member(json::json(v), "kind"@) == Some(s.kind@),
        json::json(v) is Object,
{
    reveal_strlit("symbol");
    reveal_strlit("name");
    reveal_strlit("kind");
    assert("symbol"@[0] == 's' && "name"@[0] == 'n' && "kind"@[0] == 'k');
}

/// A line of `status` is sent with all that it has, each under its name; what it has not
/// is not there.
pub proof fn law_a_line_of_status_is_sent_whole(s: LspStatus, v: Value)
    requires
        call_ensures(LspStatus::to_value, (&s,), v),
    ensures
        json::text_member(json::json(v), "name"@) == Some(s.name@),
        json::text_member(json::json(v), "state"@) == Some(s.state@),
        json::u64_member(json::json(v), "queries"@) == Some(s.queries),
        json::u64_member(json::json(v), "since_progress_ms"@) == Some(s.since_progress_ms),
        json::text_member(json::json(v), "error"@) == text::opt_text(s.error),
        s.error is None ==> json::member(json::json(v), "error"@) is None,
{
    reveal_strlit("name");
    reveal_strlit("state");
    reveal_strlit("queries");
    reveal_strlit("since_progress_ms");
    reveal_strlit("error");
    assert("name"@[0] == 'n' && "state"@[0] == 's' && "queries"@[0] == 'q'
        && "since_progress_ms"@[0] == 's' && "error"@[0] == 'e' && "state"@.len() == 5
        && "since_progress_ms"@.len() == 17);
}

/// A line of the answer to `warm` is sent with its name, and with its error if and only
/// if it has one.
pub proof fn law_a_line_of_warm_is_sent_whole(w: WarmInfo, v: Value)
    requires
        call_ensures(WarmInfo::to_value, (&w,), v),
    ensures
        json::text_member(json::json(v), "name"@) == Some(w.name@),
        json::text_member(json::json(v), "error"@) == text::opt_text(w.error),
        w.error is None ==> json::member(json::json(v), "error"@) is None,
{
    reveal_strlit("name");
    reveal_strlit("error");
    assert("name"@[0] == 'n' && "error"@[0] == 'e');
}

/// A good answer has what was asked for and no error, and each error has its code and its
/// message and no result; all go under the id of the question.
pub proof fn law_each_answer_has_its_code(
    id: Value,
    result: Value,
    msg: String,
    method: &str,
    good: RpcResponse,
    unread: RpcResponse,
    invalid: RpcResponse,
    unknown: RpcResponse,
    failed: RpcResponse,
    early: RpcResponse,
)
    requires
        call_ensures(RpcResponse::ok, (id, result), good),
        call_ensures(RpcResponse::parse_error, (msg,), unread),
        call_ensures(RpcResponse::invalid_params, (id, msg), invalid),
        call_ensures(RpcResponse::method_not_found, (id, method), unknown),
        call_ensures(RpcResponse::server_error, (id, msg), failed),
        call_ensures(RpcResponse::not_ready, (id, msg), early),
    ensures
        good@ == (Response {
            jsonrpc: "2.0"@,
            id: json::json(id),
            result: Some(json::json(result)),
            error: None,
        }),
        unread@ == (Response {
            jsonrpc: "2.0"@,
            id: json::Json::Null,
            result: None,
            error: Some((-32700i32, msg@)),
        }),
        invalid@ == (Response {
            jsonrpc: "2.0"@,
            id: json::json(id),
            result: None,
            error: Some((-32602i32, msg@)),
        }),
        unknown@ == (Response {
            jsonrpc: "2.0"@,
            id: json::json(id),
            result: None,
            error: Some((-32601i32, "method not found: "@ + method@)),
        }),
        failed@ == (Response {
            jsonrpc: "2.0"@,
            id: json::json(id),
            result: None,
            error: Some((-32000i32, msg@)),
        }),
        early@ == (Response {
            jsonrpc: "2.0"@,
            id: json::json(id),
            result: None,
            error: Some((-32001i32, msg@)),
        }),
{
}

/// An answer is one line: its members in the order of the protocol, each once, with a
/// line feed behind.
pub proof fn law_an_answer_is_written_in_order(r: RpcResponse, line: String)
    requires
        call_ensures(RpcResponse::to_line, (&r,), line),
    ensures
        line@.len() > 0 && line@.last() == '\n' && !line@.drop_last().contains('\n'),
        r.result is Some && r.error is None ==> line@ == json::members_text(
            seq![
                ("jsonrpc"@, json::Json::Text(r.jsonrpc@)),
                ("id"@, json::json(r.id)),
                ("result"@, json::json(r.result->0)),
            ],
        ).push('\n'),
        r.result is None && r.error is Some ==> line@ == json::members_text(
            seq![
                ("jsonrpc"@, json::Json::Text(r.jsonrpc@)),
                ("id"@, json::json(r.id)),
                (
                    "error"@,
                    json::Json::Object(
                        map![
                            "code"@ => json::integer(r.error->0.code as int),
                            "message"@ => json::Json::Text(r.error->0.message@),
                        ],
                    ),
                ),
            ],
        ).push('\n'),
{
    if r.result is Some && r.error is None {
        assert(r@.members() =~= seq![
            ("jsonrpc"@, json::Json::Text(r.jsonrpc@)),
            ("id"@, json::json(r.id)),
            ("result"@, json::json(r.result->0)),
        ]);
    }
    if r.result is None && r.error is Some {
        assert(r@.members() =~= seq![
            ("jsonrpc"@, json::Json::Text(r.jsonrpc@)),
            ("id"@, json::json(r.id)),
            (
                "error"@,
                json::Json::Object(
                    map![
                        "code"@ => json::integer(r.error->0.code as int),
                        "message"@ => json::Json::Text(r.error->0.message@),
                    ],
                ),
            ),
        ]);
    }
}

} // verus!
