//! The dealings with one language server: how it is launched and greeted, what its
//! notifications say, and what its answers mean.

use crate::json;
use crate::language::{Language, Readiness};
use crate::path;
use crate::path::{absolute, file_name_of, file_stem_of, join_path, System};
use crate::text;
use crate::text::{chars_of, lines, same, string_of, white};
use crate::types::{CalleeInfo, DefinitionInfo, SymbolInfo};
use crate::url;
use serde_json::Value;
use vstd::prelude::*;
use vstd::string::*;

verus! {

// ── the notifications ────────────────────────────────────────────────────────

/// What readiness a notification declares, if it declares one.
///
/// `rust-analyzer` says whether it has work pending; its health is about errors of
/// the project, and not about whether it can answer. Of `jdtls`, `ServiceReady` is
/// the only one that promises that the classpath is in place.
pub open spec fn readiness_said(method: Seq<char>, params: json::Json) -> Option<Readiness> {
    if method == "experimental/serverStatus"@ {
        match json::member(params, "quiescent"@) {
            Some(json::Json::Bool(b)) => Some(
                if b {
                    Readiness::Ready
                } else {
                    Readiness::Indexing
                },
            ),
            _ => None,
        }
    } else if method == "language/status"@ {
        match json::text_member(params, "type"@) {
            Some(t) => Some(
                if t == "ServiceReady"@ {
                    Readiness::Ready
                } else {
                    Readiness::Indexing
                },
            ),
            None => None,
        }
    } else {
        None
    }
}

/// What readiness a notification declares, if it declares one. Almost none does.
pub fn readiness_from(method: &str, params: &Value) -> (r: Option<Readiness>)
    ensures
        r == readiness_said(method@, json::json(*params)),
{
    if same(method, "experimental/serverStatus") {
        match json::get(params, "quiescent") {
            None => None,
            Some(q) => match json::as_bool(q) {
                None => None,
                Some(b) => if b {
                    Some(Readiness::Ready)
                } else {
                    Some(Readiness::Indexing)
                },
            },
        }
    } else if same(method, "language/status") {
        match json::get_str(params, "type") {
            None => None,
            Some(t) => if same(t, "ServiceReady") {
                Some(Readiness::Ready)
            } else {
                Some(Readiness::Indexing)
            },
        }
    } else {
        None
    }
}

/// Whether a notification is a sign that the server moves: `$/progress`, or one of
/// the two that speak of readiness.
pub open spec fn shows_progress(method: Seq<char>) -> bool {
    method == "$/progress"@ || method == "experimental/serverStatus"@ || method
        == "language/status"@
}

pub fn is_progress(method: &str) -> (r: bool)
    ensures
        r == shows_progress(method@),
{
    same(method, "$/progress") || same(method, "experimental/serverStatus") || same(
        method,
        "language/status",
    )
}

/// What a request of the server is told when nobody here attends it: to ignore it
/// would hang the server.
pub fn not_implemented(method: &str) -> (r: String)
    ensures
        r@ == "lspd no implementa `"@ + method@ + "`"@,
{
    let mut r = "lspd no implementa `".to_owned();
    r.append(method);
    r.append("`");
    r
}

// ── the start ────────────────────────────────────────────────────────────────

/// How a server is launched. It stands in the workspace, and not where the daemon
/// is: some servers take from there which project they index.
#[derive(Debug)]
pub struct Launch {
    pub exe: String,
    pub args: Vec<String>,
    pub cwd: String,
}

/// How the server of a language is launched, given the executable that attends it.
pub fn launch(lang: Language, exe: &str, workspace: &str) -> (r: Launch)
    ensures
        r.exe@ == exe@,
        text::texts(r.args@) == lang.arg_texts(),
        r.cwd@ == workspace@,
{
    let given = lang.spawn_args();
    let mut args: Vec<String> = Vec::new();
    for i in 0..given.len()
        invariant
            args@.len() == i,
            forall|j: int| 0 <= j < i ==> (#[trigger] args@[j])@ == given@[j]@,
    {
        args.push(given[i].to_owned());
    }
    assert(text::texts(args@) =~= text::strs(given@));
    Launch { exe: exe.to_owned(), args, cwd: workspace.to_owned() }
}

/// What is said of an executable that could not be run.
pub fn not_spawned(exe: &str, error: &str) -> (r: String)
    ensures
        r@ == "failed to spawn "@ + exe@ + ": "@ + error@,
{
    let mut r = "failed to spawn ".to_owned();
    r.append(exe);
    r.append(": ");
    r.append(error);
    r
}

/// What a server is told in `initialize`.
#[derive(Debug)]
pub struct Handshake {
    /// The workspace folder: its URL and its name.
    pub uri: String,
    pub name: String,
    /// `capabilities.experimental`.
    pub experimental: Value,
    /// `capabilities.window.workDoneProgress`.
    pub work_done_progress: bool,
    pub initialization_options: Option<Value>,
}

/// What is asked for in `capabilities.experimental`: `rust-analyzer` tells its
/// readiness only to a client that asks for it.
pub open spec fn experimental_asked() -> json::Json {
    json::Json::Object(map!["serverStatusNotification"@ => json::Json::Bool(true)])
}

/// What is said of a workspace that no URL names.
pub open spec fn bad_workspace(workspace: Seq<char>) -> Seq<char> {
    "invalid workspace path: "@ + workspace
}

/// What the server of a language is told of a workspace whose URL is this one.
pub fn handshake_at(system: System, lang: Language, workspace: &str, uri: &str) -> (r: Handshake)
    ensures
        r.uri@ == uri@,
        r.name@ == match path::file_name(system, workspace@) {
            Some(name) => name,
            None => Seq::empty(),
        },
        json::json(r.experimental) == experimental_asked(),
        r.work_done_progress,
        match lang {
            Language::Java => r.initialization_options is Some && json::json(
                r.initialization_options->0,
            ) == Language::java_options(uri@),
            _ => r.initialization_options is None,
        },
{
    let mut experimental = json::object();
    json::set(&mut experimental, "serverStatusNotification", json::boolean(true));
    let name = match file_name_of(system, workspace) {
        Some(name) => name,
        None => String::new(),
    };
    let initialization_options = match lang {
        Language::Java => Some(Language::options_at(uri)),
        _ => None,
    };
    Handshake {
        uri: uri.to_owned(),
        name,
        experimental,
        work_done_progress: true,
        initialization_options,
    }
}

/// What the server of a language is told of its workspace; an error where no URL
/// names it.
pub fn handshake(
    system: System,
    lang: Language,
    workspace: &str,
) -> (r: Result<Handshake, String>)
    ensures
        match r {
            Ok(h) => {
                &&& url::file_url(workspace@) == Some(h.uri@)
                &&& h.name@ == match path::file_name(system, workspace@) {
                    Some(name) => name,
                    None => Seq::empty(),
                }
                &&& json::json(h.experimental) == experimental_asked()
                &&& h.work_done_progress
                &&& match lang {
                    Language::Java => h.initialization_options is Some && json::json(
                        h.initialization_options->0,
                    ) == Language::java_options(h.uri@),
                    _ => h.initialization_options is None,
                }
            },
            Err(e) => url::file_url(workspace@) is None && e@ == bad_workspace(workspace@),
        },
{
    match url::from_file_path(workspace) {
        Some(uri) => Ok(handshake_at(system, lang, workspace, uri.as_str())),
        None => {
            let mut e = "invalid workspace path: ".to_owned();
            e.append(workspace);
            Err(e)
        },
    }
}

// ── what it writes in stderr ─────────────────────────────────────────────────

/// How many lines of what a server writes in stderr are kept.
pub const STDERR_LINES: usize = 20;

/// The last lines that a server wrote in stderr.
#[derive(Debug)]
pub struct Stderr {
    lines: Vec<String>,
}

impl View for Stderr {
    type V = Seq<Seq<char>>;

    closed spec fn view(&self) -> Seq<Seq<char>> {
        text::texts(self.lines@)
    }
}

/// The last of these, as many as are kept.
pub open spec fn kept(all: Seq<Seq<char>>) -> Seq<Seq<char>> {
    if all.len() > STDERR_LINES {
        all.skip(all.len() - STDERR_LINES)
    } else {
        all
    }
}

impl Stderr {
    pub fn new() -> (r: Stderr)
        ensures
            r@ == Seq::<Seq<char>>::empty(),
    {
        let r = Stderr { lines: Vec::new() };
        assert(r@ =~= Seq::<Seq<char>>::empty());
        r
    }

    /// One more line.
    pub fn push(&mut self, line: &str)
        ensures
            final(self)@ == kept(old(self)@.push(line@)),
    {
        let ghost before = text::texts(self.lines@);
        assert(before.skip(0) =~= before);
        let ghost mut dropped: int = 0;
        while self.lines.len() >= STDERR_LINES
            invariant
                0 <= dropped <= before.len(),
                dropped == 0 || self.lines@.len() >= STDERR_LINES - 1,
                text::texts(self.lines@) == before.skip(dropped),
            decreases self.lines@.len(),
        {
            let ghost now = self.lines@;
            let _first = self.lines.remove(0);
            proof {
                assert(text::texts(self.lines@) =~= text::texts(now).skip(1));
                assert(before.skip(dropped).skip(1) =~= before.skip(dropped + 1));
                dropped = dropped + 1;
            }
        }
        let ghost left = self.lines@;
        self.lines.push(line.to_owned());
        proof {
            assert(self@ =~= text::texts(left).push(line@));
            assert(self@ =~= kept(before.push(line@)));
        }
    }

    /// Why a server fell: the error, and below it the lines it wrote last.
    pub fn explain(&self, error: &str) -> (r: String)
        ensures
            r@ == text::joined(seq![error@] + self@, "\n"@),
    {
        let mut all: Vec<String> = Vec::new();
        all.push(error.to_owned());
        for i in 0..self.lines.len()
            invariant
                all@.len() == i + 1,
                all@[0]@ == error@,
                forall|j: int| 0 <= j < i ==> (#[trigger] all@[j + 1])@ == self.lines@[j]@,
        {
            all.push(self.lines[i].clone());
        }
        proof {
            let want = seq![error@] + self@;
            let got = text::texts(all@);
            assert forall|j: int| 0 <= j < got.len() implies got[j] == want[j] by {
                if j > 0 {
                    assert(all@[(j - 1) + 1]@ == self.lines@[j - 1]@);
                }
            }
            assert(got =~= want);
        }
        text::join(all.as_slice(), "\n")
    }
}

// ── the calls ────────────────────────────────────────────────────────────────

/// One end of a call, as the server gives it.
#[derive(Debug)]
pub struct CallItem {
    pub name: String,
    pub detail: Option<String>,
    pub uri: String,
    /// Where its name starts.
    pub line: u32,
    pub col: u32,
}

/// The server found nothing at that position whose calls could be followed. It is an
/// error and not an empty list: that would say that nobody calls a symbol that the
/// server did not find.
#[derive(Debug, Clone, Copy, PartialEq, Eq, Structural)]
pub struct NoCallHierarchy;

impl NoCallHierarchy {
    pub fn to_text(&self) -> (r: &'static str)
        ensures
            r@ == "no hay call hierarchy en esa posición"@,
    {
        "no hay call hierarchy en esa posición"
    }
}

/// What a [`CalleeInfo`] says.
pub struct Callee {
    pub symbol: Seq<char>,
    pub name: Seq<char>,
    pub file: Seq<char>,
    pub line: u32,
    pub col: u32,
}

impl View for CalleeInfo {
    type V = Callee;

    open spec fn view(&self) -> Callee {
        Callee {
            symbol: self.symbol@,
            name: self.name@,
            file: self.file@,
            line: self.line,
            col: self.col,
        }
    }
}

/// The symbol at one end of a call: its detail where it has one, and else its name;
/// in the file that its URL names, or under the URL where that names none.
pub open spec fn callee_of(item: CallItem, file: Option<Seq<char>>) -> Callee {
    Callee {
        symbol: match item.detail {
            Some(d) => d@,
            None => item.name@,
        },
        name: item.name@,
        file: match file {
            Some(f) => f,
            None => item.uri@,
        },
        line: item.line,
        col: item.col,
    }
}

/// The symbol at one end of a call, given the file that its URL names.
pub fn callee_in(item: &CallItem, file: Option<String>) -> (r: CalleeInfo)
    ensures
        r@ == callee_of(*item, text::opt_text(file)),
{
    CalleeInfo {
        symbol: match &item.detail {
            Some(d) => d.clone(),
            None => item.name.clone(),
        },
        name: item.name.clone(),
        file: match file {
            Some(f) => f,
            None => item.uri.clone(),
        },
        line: item.line,
        col: item.col,
    }
}

/// The symbols at the other end of each of these calls.
pub open spec fn callees_of(calls: Seq<CallItem>) -> Seq<Callee> {
    calls.map_values(|c: CallItem| callee_of(c, url::url_path(c.uri@)))
}

/// Those of one item after those of another.
pub open spec fn all_callees(items: Seq<Vec<CallItem>>) -> Seq<Callee>
    decreases items.len(),
{
    if items.len() == 0 {
        Seq::empty()
    } else {
        all_callees(items.drop_last()) + callees_of(items.last()@)
    }
}

/// What each call of a list says.
pub open spec fn callees(v: Seq<CalleeInfo>) -> Seq<Callee> {
    v.map_values(|c: CalleeInfo| c@)
}

/// The calls of a position: those of each item that the server found there, one item
/// after the other.
pub fn call_hierarchy(items: &[Vec<CallItem>]) -> (r: Result<Vec<CalleeInfo>, NoCallHierarchy>)
    ensures
        match r {
            Ok(v) => items@.len() > 0 && callees(v@) == all_callees(items@),
            Err(_) => items@.len() == 0,
        },
{
    if items.len() == 0 {
        return Err(NoCallHierarchy);
    }
    let mut out: Vec<CalleeInfo> = Vec::new();
    assert(callees(out@) =~= all_callees(items@.take(0)));
    for i in 0..items.len()
        invariant
            callees(out@) == all_callees(items@.take(i as int)),
    {
        let calls = &items[i];
        let ghost before = callees(out@);
        assert(callees_of(calls@.take(0)) =~= Seq::empty());
        for k in 0..calls.len()
            invariant
                callees(out@) == before + callees_of(calls@.take(k as int)),
        {
            let ghost so_far = callees(out@);
            let file = url::to_file_path(calls[k].uri.as_str());
            let c = callee_in(&calls[k], file);
            out.push(c);
            assert(callees(out@) =~= so_far.push(c@));
            assert(callees_of(calls@.take(k + 1)) =~= callees_of(calls@.take(k as int)).push(c@));
        }
        assert(calls@.take(calls@.len() as int) =~= calls@);
        assert(items@.take(i + 1).drop_last() =~= items@.take(i as int));
    }
    assert(items@.take(items@.len() as int) =~= items@);
    Ok(out)
}

// ── the declarations ─────────────────────────────────────────────────────────

/// Where something starts and ends.
#[derive(Debug, Clone, Copy, PartialEq, Eq, Structural)]
pub struct Span {
    pub line: u32,
    pub col: u32,
    pub end_line: u32,
    pub end_col: u32,
}

#[derive(Debug)]
pub struct Location {
    pub uri: String,
    pub range: Span,
}

#[derive(Debug)]
pub struct LocationLink {
    pub target_uri: String,
    pub target_range: Span,
}

/// The three shapes that the answer about a declaration can take. Which of them the
/// server used is of no concern to who asks.
#[derive(Debug)]
pub enum DefinitionReply {
    Scalar(Location),
    Array(Vec<Location>),
    Link(Vec<LocationLink>),
}

/// A place: a URL and a span.
pub struct Place {
    pub uri: Seq<char>,
    pub range: Span,
}

impl View for Location {
    type V = Place;

    open spec fn view(&self) -> Place {
        Place { uri: self.uri@, range: self.range }
    }
}

/// What each location of a list says.
pub open spec fn places(v: Seq<Location>) -> Seq<Place> {
    v.map_values(|l: Location| l@)
}

/// The places that an answer names, whatever its shape.
pub open spec fn named_places(reply: Option<DefinitionReply>) -> Seq<Place> {
    match reply {
        None => Seq::empty(),
        Some(DefinitionReply::Scalar(l)) => seq![l@],
        Some(DefinitionReply::Array(v)) => places(v@),
        Some(DefinitionReply::Link(v)) => v@.map_values(
            |l: LocationLink| Place { uri: l.target_uri@, range: l.target_range },
        ),
    }
}

/// The locations that an answer names, whatever its shape.
pub fn flatten(reply: Option<DefinitionReply>) -> (r: Vec<Location>)
    ensures
        places(r@) == named_places(reply),
{
    match reply {
        None => {
            let r: Vec<Location> = Vec::new();
            assert(places(r@) =~= Seq::empty());
            r
        },
        Some(DefinitionReply::Scalar(l)) => {
            let mut r: Vec<Location> = Vec::new();
            r.push(l);
            assert(places(r@) =~= seq![l@]);
            r
        },
        Some(DefinitionReply::Array(v)) => v,
        Some(DefinitionReply::Link(v)) => {
            let mut r: Vec<Location> = Vec::new();
            for i in 0..v.len()
                invariant
                    r@.len() == i,
                    forall|j: int|
                        0 <= j < i ==> (#[trigger] r@[j])@ == (Place {
                            uri: v@[j].target_uri@,
                            range: v@[j].target_range,
                        }),
            {
                r.push(Location { uri: v[i].target_uri.clone(), range: v[i].target_range });
            }
            assert(places(r@) =~= named_places(Some(DefinitionReply::Link(v))));
            r
        },
    }
}

/// What a [`DefinitionInfo`] says.
pub struct Declared {
    pub name: Seq<char>,
    pub file: Seq<char>,
    pub range: Span,
}

impl View for DefinitionInfo {
    type V = Declared;

    open spec fn view(&self) -> Declared {
        Declared {
            name: self.name@,
            file: self.file@,
            range: Span {
                line: self.line,
                col: self.col,
                end_line: self.end_line,
                end_col: self.end_col,
            },
        }
    }
}

/// What is declared at a place, given the file that its URL names: under the name of
/// the file, without its extension. There is nothing where the URL names no file, nor
/// where the file has no name.
pub open spec fn declared(system: System, range: Span, file: Option<Seq<char>>) -> Option<Declared> {
    match file {
        None => None,
        Some(f) => match path::file_stem(system, f) {
            None => None,
            Some(stem) => Some(Declared { name: stem, file: f, range }),
        },
    }
}

/// What is declared at a place, given the file that its URL names.
pub fn definition_in(
    system: System,
    range: Span,
    file: Option<String>,
) -> (r: Option<DefinitionInfo>)
    ensures
        match r {
            Some(d) => declared(system, range, text::opt_text(file)) == Some(d@),
            None => declared(system, range, text::opt_text(file)) is None,
        },
{
    match file {
        None => None,
        Some(f) => match file_stem_of(system, f.as_str()) {
            None => None,
            Some(name) => Some(
                DefinitionInfo {
                    name,
                    file: f,
                    line: range.line,
                    col: range.col,
                    end_line: range.end_line,
                    end_col: range.end_col,
                },
            ),
        },
    }
}

/// What is declared at each of these places, leaving out those where nothing is.
pub open spec fn all_declared(system: System, at: Seq<Place>) -> Seq<Declared>
    decreases at.len(),
{
    if at.len() == 0 {
        Seq::empty()
    } else {
        match declared(system, at.last().range, url::url_path(at.last().uri)) {
            Some(d) => all_declared(system, at.drop_last()).push(d),
            None => all_declared(system, at.drop_last()),
        }
    }
}

/// What each declaration of a list says.
pub open spec fn declarations(v: Seq<DefinitionInfo>) -> Seq<Declared> {
    v.map_values(|d: DefinitionInfo| d@)
}

/// Where what is mentioned at a position is declared.
pub fn definitions(system: System, reply: Option<DefinitionReply>) -> (r: Vec<DefinitionInfo>)
    ensures
        declarations(r@) == all_declared(system, named_places(reply)),
{
    let locations = flatten(reply);
    let ghost at = places(locations@);
    let mut out: Vec<DefinitionInfo> = Vec::new();
    assert(declarations(out@) =~= all_declared(system, at.take(0)));
    for i in 0..locations.len()
        invariant
            at == places(locations@),
            declarations(out@) == all_declared(system, at.take(i as int)),
    {
        let ghost before = declarations(out@);
        assert(at.take(i + 1).drop_last() =~= at.take(i as int));
        assert(at[i as int] == locations@[i as int]@);
        let file = url::to_file_path(locations[i].uri.as_str());
        match definition_in(system, locations[i].range, file) {
            Some(d) => {
                out.push(d);
                assert(declarations(out@) =~= before.push(d@));
            },
            None => {},
        }
    }
    assert(at.take(at.len() as int) =~= at);
    out
}

// ── the symbol ───────────────────────────────────────────────────────────────

/// A piece of what a server says of a symbol.
#[derive(Debug)]
pub enum MarkedString {
    Text(String),
    /// Code, in some language.
    Code(String),
}

/// What a server says of the symbol at a position, in the shapes it can take.
#[derive(Debug)]
pub enum HoverContents {
    Scalar(MarkedString),
    Array(Vec<MarkedString>),
    Markup(String),
}

impl MarkedString {
    pub open spec fn text(self) -> Seq<char> {
        match self {
            MarkedString::Text(s) => s@,
            MarkedString::Code(s) => s@,
        }
    }

    fn value(&self) -> (r: &String)
        ensures
            r@ == self.text(),
    {
        match self {
            MarkedString::Text(s) => s,
            MarkedString::Code(s) => s,
        }
    }
}

/// The text of what a server says of a symbol: its pieces, one to a line.
pub open spec fn hover_text(h: HoverContents) -> Seq<char> {
    match h {
        HoverContents::Scalar(m) => m.text(),
        HoverContents::Array(v) => text::joined(v@.map_values(|m: MarkedString| m.text()), "\n"@),
        HoverContents::Markup(s) => s@,
    }
}

pub fn hover_to_text(hover: &HoverContents) -> (r: String)
    ensures
        r@ == hover_text(*hover),
{
    match hover {
        HoverContents::Scalar(m) => m.value().clone(),
        HoverContents::Array(v) => {
            let mut pieces: Vec<String> = Vec::new();
            for i in 0..v.len()
                invariant
                    pieces@.len() == i,
                    forall|j: int| 0 <= j < i ==> (#[trigger] pieces@[j])@ == v@[j].text(),
            {
                pieces.push(v[i].value().clone());
            }
            assert(text::texts(pieces@) =~= v@.map_values(|m: MarkedString| m.text()));
            text::join(pieces.as_slice(), "\n")
        },
        HoverContents::Markup(s) => s.clone(),
    }
}

/// What a text ends with, up to its last blank.
pub open spec fn tail_word(s: Seq<char>) -> Seq<char>
    decreases s.len(),
{
    if s.len() == 0 || text::is_white(s.last()) {
        Seq::empty()
    } else {
        tail_word(s.drop_last()).push(s.last())
    }
}

/// The last word of a line, if it has any.
pub open spec fn last_word(line: Seq<char>) -> Option<Seq<char>> {
    let w = tail_word(text::trim_end(line));
    if w.len() == 0 {
        None
    } else {
        Some(w)
    }
}

/// Without the open parentheses that it ends with.
pub open spec fn without_parens(s: Seq<char>) -> Seq<char>
    decreases s.len(),
{
    if s.len() > 0 && s.last() == '(' {
        without_parens(s.drop_last())
    } else {
        s
    }
}

/// The name that the first line of a text ends with: its last word, without the open
/// parentheses behind it. With no word there, it is unknown.
pub open spec fn name_in(s: Seq<char>) -> Seq<char> {
    without_parens(
        match text::lines_of(s).len() > 0 {
            true => match last_word(text::lines_of(s)[0]) {
                Some(w) => w,
                None => "unknown"@,
            },
            false => "unknown"@,
        },
    )
}

/// The characters of the last word of a line, if it has any: from where and to where.
fn word_at_end(chars: &[char]) -> (r: (usize, usize))
    ensures
        r.0 <= r.1 <= chars@.len(),
        chars@.subrange(r.0 as int, r.1 as int) == tail_word(text::trim_end(chars@)),
{
    let ghost s = chars@;
    let mut to: usize = chars.len();
    assert(s.take(to as int) =~= s);
    while to > 0 && white(chars[to - 1])
        invariant
            s == chars@,
            to <= chars@.len(),
            text::trim_end(s) == text::trim_end(s.take(to as int)),
        decreases to,
    {
        assert(s.take(to as int).drop_last() =~= s.take(to - 1));
        to = to - 1;
    }
    let mut from: usize = to;
    assert(text::trim_end(s) == s.take(to as int));
    assert(tail_word(s.take(from as int)) + s.subrange(from as int, to as int) =~= tail_word(
        s.take(to as int),
    ));
    while from > 0 && !white(chars[from - 1])
        invariant
            s == chars@,
            from <= to <= chars@.len(),
            tail_word(s.take(from as int)) + s.subrange(from as int, to as int) == tail_word(
                s.take(to as int),
            ),
        decreases from,
    {
        assert(s.take(from as int).drop_last() =~= s.take(from - 1));
        assert(s.subrange(from - 1, to as int) =~= seq![s[from - 1]] + s.subrange(
            from as int,
            to as int,
        ));
        assert(tail_word(s.take(from - 1)) + s.subrange(from - 1, to as int) =~= tail_word(
            s.take(from as int),
        ) + s.subrange(from as int, to as int));
        from = from - 1;
    }
    assert(tail_word(s.take(from as int)) =~= Seq::empty());
    assert(s.subrange(from as int, to as int) =~= tail_word(s.take(to as int)));
    (from, to)
}

pub fn extract_name(hover: &str) -> (r: String)
    ensures
        r@ == name_in(hover@),
{
    let all = lines(hover);
    let mut word = "unknown".to_owned();
    if all.len() > 0 {
        let chars = chars_of(all[0].as_str());
        let (from, to) = word_at_end(chars.as_slice());
        if from < to {
            word = string_of(chars.as_slice(), from, to);
        }
    }
    let chars = chars_of(word.as_str());
    let ghost s = word@;
    let mut to: usize = chars.len();
    assert(s.take(to as int) =~= s);
    while to > 0 && chars[to - 1] == '('
        invariant
            chars@ == s,
            to <= chars@.len(),
            without_parens(s) == without_parens(s.take(to as int)),
        decreases to,
    {
        assert(s.take(to as int).drop_last() =~= s.take(to - 1));
        to = to - 1;
    }
    assert(s.subrange(0, to as int) =~= s.take(to as int));
    string_of(chars.as_slice(), 0, to)
}

/// The symbol that a server speaks of, if it says anything.
pub fn symbol_of(hover: &Option<HoverContents>) -> (r: Option<SymbolInfo>)
    ensures
        match *hover {
            None => r is None,
            Some(h) => {
                &&& r is Some
                &&& r->0.symbol@ == hover_text(h)
                &&& r->0.name@ == name_in(hover_text(h))
                &&& r->0.kind@ == "function"@
            },
        },
{
    match hover {
        None => None,
        Some(h) => {
            let symbol = hover_to_text(h);
            let name = extract_name(symbol.as_str());
            Some(SymbolInfo { symbol, name, kind: "function".to_owned() })
        },
    }
}

// ── the files ────────────────────────────────────────────────────────────────

/// A file of a workspace, from the root of the file system.
pub open spec fn absolute_path(
    system: System,
    workspace: Seq<char>,
    file: Seq<char>,
) -> Seq<char> {
    if path::is_absolute(system, file) {
        file
    } else {
        path::joined_path(system, workspace, file)
    }
}

/// A file of a workspace, from the root of the file system.
pub fn abs_path(system: System, file: &str, workspace: &str) -> (r: String)
    ensures
        r@ == absolute_path(system, workspace@, file@),
{
    if absolute(system, file) {
        file.to_owned()
    } else {
        join_path(system, workspace, file)
    }
}

/// The URL of a file of a workspace; an error where no URL names it.
pub fn file_url(system: System, workspace: &str, file: &str) -> (r: Result<String, String>)
    ensures
        match r {
            Ok(uri) => url::file_url(absolute_path(system, workspace@, file@)) == Some(uri@),
            Err(e) => url::file_url(absolute_path(system, workspace@, file@)) is None && e@
                == "invalid file path: "@ + absolute_path(system, workspace@, file@),
        },
{
    let abs = abs_path(system, file, workspace);
    match url::from_file_path(abs.as_str()) {
        Some(uri) => Ok(uri),
        None => {
            let mut e = "invalid file path: ".to_owned();
            e.append(abs.as_str());
            Err(e)
        },
    }
}

// ── what the dealings promise ────────────────────────────────────────────────

/// A server that tells its readiness never says that it does not.
pub proof fn law_who_tells_does_not_say_running(method: Seq<char>, params: json::Json)
    ensures
        readiness_said(method, params) != Some(Readiness::Running),
{
}

/// Whatever speaks of readiness is a sign of progress too.
pub proof fn law_readiness_is_progress(method: Seq<char>, params: json::Json)
    requires
        readiness_said(method, params) is Some,
    ensures
        shows_progress(method),
{
}

/// The lines kept are the last ones written, and never more than those kept.
pub proof fn law_the_last_lines_are_kept(before: Seq<Seq<char>>, line: Seq<char>)
    ensures
        kept(before).len() <= STDERR_LINES,
        kept(kept(before).push(line)) == kept(before.push(line)),
{
    if before.len() > STDERR_LINES {
        assert(kept(kept(before).push(line)) =~= kept(before.push(line)));
    }
}

/// Which of the three shapes the server used does not show: the same places come out
/// of a location, of a list of it and of a list of links to it.
pub proof fn law_the_shape_of_a_reply_does_not_show(
    l: Location,
    v: Vec<Location>,
    w: Vec<LocationLink>,
)
    requires
        v@.len() == w@.len(),
        forall|i: int|
            0 <= i < v@.len() ==> (#[trigger] v@[i]).uri@ == w@[i].target_uri@ && v@[i].range
                == w@[i].target_range,
    ensures
        named_places(Some(DefinitionReply::Array(v))) == named_places(
            Some(DefinitionReply::Link(w)),
        ),
        v@ == seq![l] ==> named_places(Some(DefinitionReply::Scalar(l))) == named_places(
            Some(DefinitionReply::Array(v)),
        ),
{
    assert(named_places(Some(DefinitionReply::Array(v))) =~= named_places(
        Some(DefinitionReply::Link(w)),
    ));
    if v@ == seq![l] {
        assert(places(v@) =~= seq![l@]);
    }
}

/// No item found is an error, and items without calls are not: they are the calls of
/// a symbol that nobody calls.
pub proof fn law_nobody_calls_it_is_no_error(items: Seq<Vec<CallItem>>)
    requires
        forall|i: int| 0 <= i < items.len() ==> (#[trigger] items[i])@.len() == 0,
    ensures
        all_callees(items) == Seq::<Callee>::empty(),
    decreases items.len(),
{
    if items.len() > 0 {
        let rest = items.drop_last();
        assert forall|i: int| 0 <= i < rest.len() implies (#[trigger] rest[i])@.len() == 0 by {
            assert(rest[i] == items[i]);
        }
        law_nobody_calls_it_is_no_error(rest);
        assert(items.last() == items[items.len() - 1]);
        assert(callees_of(items.last()@) =~= Seq::empty());
    }
}

/// How many calls the server gave for the items before this one.
pub open spec fn calls_before(items: Seq<Vec<CallItem>>, i: int) -> int
    decreases i,
{
    if i <= 0 {
        0
    } else {
        calls_before(items, i - 1) + items[i - 1]@.len()
    }
}

proof fn lemma_calls_before(items: Seq<Vec<CallItem>>, i: int, k: int)
    requires
        0 <= i < items.len(),
        0 <= k < items[i]@.len(),
    ensures
        all_callees(items).len() == calls_before(items, items.len() as int),
        0 <= calls_before(items, i),
        calls_before(items, i) + k < all_callees(items).len(),
        all_callees(items)[calls_before(items, i) + k] == callee_of(
            items[i]@[k],
            url::url_path(items[i]@[k].uri@),
        ),
    decreases items.len(),
{
    let rest = items.drop_last();
    lemma_calls_of(rest);
    lemma_same_before(items, rest.len() as int);
    lemma_same_before(items, i);
    lemma_calls_of(rest.take(i));
    assert(rest.take(i) =~= items.take(i));
    if i < rest.len() {
        assert(rest[i] == items[i]);
        lemma_calls_before(rest, i, k);
    } else {
        assert(items.last() == items[i]);
    }
}

proof fn lemma_calls_of(items: Seq<Vec<CallItem>>)
    ensures
        all_callees(items).len() == calls_before(items, items.len() as int),
    decreases items.len(),
{
    if items.len() > 0 {
        lemma_calls_of(items.drop_last());
        lemma_same_before(items, items.len() - 1);
    }
}

proof fn lemma_same_before(items: Seq<Vec<CallItem>>, i: int)
    requires
        0 <= i < items.len(),
    ensures
        calls_before(items.drop_last(), i) == calls_before(items, i),
        0 <= calls_before(items, i),
    decreases i,
{
    if i > 0 {
        lemma_same_before(items, i - 1);
        assert(items.drop_last()[i - 1] == items[i - 1]);
    }
}

/// The answer has every call that the server gave for each item, and nothing else: those
/// of one item after those of the items before it, each with its name, its place, its
/// detail or else its name as the symbol, and the path of its URL or else the URL.
pub proof fn law_every_call_is_in_the_answer(
    items: &[Vec<CallItem>],
    r: Result<Vec<CalleeInfo>, NoCallHierarchy>,
    i: int,
    k: int,
)
    requires
        call_ensures(call_hierarchy, (items,), r),
        0 <= i < items@.len(),
        0 <= k < items@[i]@.len(),
    ensures
        r is Ok,
        r->Ok_0@.len() == calls_before(items@, items@.len() as int),
        ({
            let call = items@[i]@[k];
            let at = calls_before(items@, i) + k;
            let said = r->Ok_0@[at];
            &&& 0 <= at < r->Ok_0@.len()
            &&& said.name@ == call.name@
            &&& said.symbol@ == match call.detail {
                Some(d) => d@,
                None => call.name@,
            }
            &&& said.file@ == match url::url_path(call.uri@) {
                Some(f) => f,
                None => call.uri@,
            }
            &&& said.line == call.line
            &&& said.col == call.col
        }),
{
    let v = r->Ok_0;
    lemma_calls_before(items@, i, k);
    assert(callees(v@).len() == v@.len());
    assert(callees(v@)[calls_before(items@, i) + k] == v@[calls_before(items@, i) + k]@);
}

/// Where the server found no item there is an error; where it found some there is none,
/// and the answer has as many calls as they have.
pub proof fn law_a_position_without_items_is_an_error(
    items: &[Vec<CallItem>],
    r: Result<Vec<CalleeInfo>, NoCallHierarchy>,
)
    requires
        call_ensures(call_hierarchy, (items,), r),
    ensures
        r is Err <==> items@.len() == 0,
        r matches Ok(v) ==> v@.len() == calls_before(items@, items@.len() as int),
{
    lemma_calls_of(items@);
    if r is Ok {
        assert(callees(r->Ok_0@).len() == r->Ok_0@.len());
    }
}

/// The places that an answer names are all that it holds, one for one and in their
/// order.
pub proof fn law_every_place_is_named(reply: DefinitionReply, i: int)
    ensures
        named_places(None) == Seq::<Place>::empty(),
        match reply {
            DefinitionReply::Scalar(l) => {
                let at = named_places(Some(reply));
                at.len() == 1 && at[0].uri == l.uri@ && at[0].range == l.range
            },
            DefinitionReply::Array(v) => {
                let at = named_places(Some(reply));
                &&& at.len() == v@.len()
                &&& 0 <= i < v@.len() ==> at[i].uri == v@[i].uri@ && at[i].range == v@[i].range
            },
            DefinitionReply::Link(v) => {
                let at = named_places(Some(reply));
                &&& at.len() == v@.len()
                &&& 0 <= i < v@.len() ==> at[i].uri == v@[i].target_uri@ && at[i].range
                    == v@[i].target_range
            },
        },
{
}

/// Where every place that the server names is in a file with a name, the answer has a
/// declaration for each: with its path, its range, and the stem of its path for a name.
pub proof fn law_every_place_in_a_file_is_answered(
    system: System,
    reply: Option<DefinitionReply>,
    r: Vec<DefinitionInfo>,
    i: int,
)
    requires
        call_ensures(definitions, (system, reply), r),
        forall|j: int|
            0 <= j < named_places(reply).len() ==> {
                &&& url::url_path((#[trigger] named_places(reply)[j]).uri) is Some
                &&& path::file_stem(system, url::url_path(named_places(reply)[j].uri)->0) is Some
            },
        0 <= i < named_places(reply).len(),
    ensures
        r@.len() == named_places(reply).len(),
        ({
            let at = named_places(reply)[i];
            &&& Some(r@[i].file@) == url::url_path(at.uri)
            &&& Some(r@[i].name@) == path::file_stem(system, r@[i].file@)
            &&& r@[i].line == at.range.line && r@[i].col == at.range.col
            &&& r@[i].end_line == at.range.end_line && r@[i].end_col == at.range.end_col
        }),
{
    lemma_all_in_files(system, named_places(reply), i);
    assert(declarations(r@).len() == r@.len());
    assert(declarations(r@)[i] == r@[i]@);
}

proof fn lemma_all_in_files(system: System, at: Seq<Place>, i: int)
    requires
        forall|j: int|
            0 <= j < at.len() ==> {
                &&& url::url_path((#[trigger] at[j]).uri) is Some
                &&& path::file_stem(system, url::url_path(at[j].uri)->0) is Some
            },
        0 <= i < at.len(),
    ensures
        all_declared(system, at).len() == at.len(),
        all_declared(system, at)[i] == (Declared {
            name: path::file_stem(system, url::url_path(at[i].uri)->0)->0,
            file: url::url_path(at[i].uri)->0,
            range: at[i].range,
        }),
    decreases at.len(),
{
    reveal_with_fuel(all_declared, 2);
    let rest = at.drop_last();
    assert(at.last() == at[at.len() - 1]);
    assert forall|j: int| 0 <= j < rest.len() implies {
        &&& url::url_path((#[trigger] rest[j]).uri) is Some
        &&& path::file_stem(system, url::url_path(rest[j].uri)->0) is Some
    } by {
        assert(rest[j] == at[j]);
    }
    if rest.len() > 0 {
        if i < rest.len() {
            assert(rest[i] == at[i]);
            lemma_all_in_files(system, rest, i);
        } else {
            lemma_all_in_files(system, rest, 0);
        }
    }
}

/// What is declared at some places and then at others is what is declared at the first
/// and then at the others; and at one place, only where its URL names a file that has a
/// name.
pub proof fn law_declarations_come_one_after_the_other(
    system: System,
    a: Seq<Place>,
    b: Seq<Place>,
    p: Place,
)
    ensures
        all_declared(system, a + b) == all_declared(system, a) + all_declared(system, b),
        all_declared(system, Seq::empty()) == Seq::<Declared>::empty(),
        match url::url_path(p.uri) {
            Some(f) => match path::file_stem(system, f) {
                Some(stem) => all_declared(system, seq![p]) == seq![
                    Declared { name: stem, file: f, range: p.range },
                ],
                None => all_declared(system, seq![p]) == Seq::<Declared>::empty(),
            },
            None => all_declared(system, seq![p]) == Seq::<Declared>::empty(),
        },
    decreases b.len(),
{
    if b.len() == 0 {
        assert(a + b =~= a);
        assert(all_declared(system, a + b) =~= all_declared(system, a) + all_declared(system, b));
    } else {
        law_declarations_come_one_after_the_other(system, a, b.drop_last(), p);
        assert((a + b).drop_last() =~= a + b.drop_last());
        assert((a + b).last() == b.last());
        assert(all_declared(system, a + b) =~= all_declared(system, a) + all_declared(system, b));
    }
    assert(seq![p].drop_last() =~= Seq::empty());
    reveal_with_fuel(all_declared, 2);
    if all_declared(system, seq![p]).len() > 0 {
        assert(all_declared(system, seq![p]) =~= seq![all_declared(system, seq![p])[0]]);
    }
}

/// What a notification says of readiness: `rust-analyzer` is ready if and only if it says
/// that it is quiescent, and `jdtls` if and only if it says `ServiceReady`, whatever else
/// they say. No other notification says anything of it.
pub proof fn law_what_says_that_a_server_is_ready(
    method: Seq<char>,
    m: Map<Seq<char>, json::Json>,
    params: json::Json,
)
    ensures
        m.dom().contains("quiescent"@) ==> (m["quiescent"@] matches json::Json::Bool(b)
            ==> readiness_said("experimental/serverStatus"@, json::Json::Object(m)) == Some(
            if b {
                Readiness::Ready
            } else {
                Readiness::Indexing
            },
        )),
        !(m.dom().contains("quiescent"@) && m["quiescent"@] is Bool) ==> readiness_said(
            "experimental/serverStatus"@,
            json::Json::Object(m),
        ) is None,
        m.dom().contains("type"@) ==> (m["type"@] matches json::Json::Text(t) ==> readiness_said(
            "language/status"@,
            json::Json::Object(m),
        ) == Some(
            if t == "ServiceReady"@ {
                Readiness::Ready
            } else {
                Readiness::Indexing
            },
        )),
        !(m.dom().contains("type"@) && m["type"@] is Text) ==> readiness_said(
            "language/status"@,
            json::Json::Object(m),
        ) is None,
        method != "experimental/serverStatus"@ && method != "language/status"@ ==> readiness_said(
            method,
            params,
        ) is None,
        !(params is Object) ==> readiness_said(method, params) is None,
        shows_progress(method) <==> method == "$/progress"@ || method
            == "experimental/serverStatus"@ || method == "language/status"@,
{
    reveal_strlit("experimental/serverStatus");
    reveal_strlit("language/status");
    assert("experimental/serverStatus"@[0] == 'e' && "language/status"@[0] == 'l');
}

/// Of what a server wrote, its last twenty lines are kept, and all of them where there
/// are no more.
pub proof fn law_twenty_lines_are_kept(all: Seq<Seq<char>>)
    ensures
        kept(all).is_suffix_of(all),
        kept(all).len() == if all.len() < 20 {
            all.len()
        } else {
            20
        },
{
    assert(kept(all) =~= all.skip(all.len() - kept(all).len()));
}

proof fn lemma_tail_word(before: Seq<char>, word: Seq<char>)
    requires
        before.len() == 0 || text::is_white(before.last()),
        forall|i: int| 0 <= i < word.len() ==> !text::is_white(#[trigger] word[i]),
    ensures
        tail_word(before + word) == word,
    decreases word.len(),
{
    if word.len() == 0 {
        assert(before + word =~= before);
    } else {
        let shorter = word.drop_last();
        assert forall|i: int| 0 <= i < shorter.len() implies !text::is_white(
            #[trigger] shorter[i],
        ) by {
            assert(shorter[i] == word[i]);
        }
        lemma_tail_word(before, shorter);
        assert((before + word).drop_last() =~= before + shorter);
        assert((before + word).last() == word[word.len() - 1]);
        assert(shorter.push(word.last()) =~= word);
    }
}

proof fn lemma_without_parens(word: Seq<char>, parens: Seq<char>)
    requires
        word.len() == 0 || word.last() != '(',
        forall|i: int| 0 <= i < parens.len() ==> #[trigger] parens[i] == '(',
    ensures
        without_parens(word + parens) == word,
    decreases parens.len(),
{
    if parens.len() == 0 {
        assert(word + parens =~= word);
    } else {
        let shorter = parens.drop_last();
        assert forall|i: int| 0 <= i < shorter.len() implies #[trigger] shorter[i] == '(' by {
            assert(shorter[i] == parens[i]);
        }
        lemma_without_parens(word, shorter);
        assert((word + parens).drop_last() =~= word + shorter);
        assert((word + parens).last() == parens[parens.len() - 1]);
    }
}

/// The name of a symbol is the last word of the first line that the server says of it,
/// without the open parentheses behind it: whatever precedes it, and whatever the lines
/// below say.
pub proof fn law_a_name_is_the_last_word_of_the_first_line(
    before: Seq<char>,
    word: Seq<char>,
    parens: Seq<char>,
    after: Seq<char>,
    rest: Seq<char>,
)
    requires
        before.len() == 0 || text::is_white(before.last()),
        word.len() > 0,
        word.last() != '(',
        forall|i: int| 0 <= i < word.len() ==> !text::is_white(#[trigger] word[i]),
        forall|i: int| 0 <= i < parens.len() ==> #[trigger] parens[i] == '(',
        forall|i: int| 0 <= i < after.len() ==> text::is_white(#[trigger] after[i]),
        !before.contains('\n'),
        !after.contains('\n'),
    ensures
        name_in(before + word + parens + after) == word,
        name_in((before + word + parens + after).push('\n') + rest) == word,
{
    let whole = word + parens;
    let line = before + word + parens + after;
    assert(line =~= before + whole + after);
    assert forall|i: int| 0 <= i < whole.len() implies !text::is_white(#[trigger] whole[i]) by {
        if i < word.len() {
            assert(whole[i] == word[i]);
        } else {
            assert(whole[i] == parens[i - word.len()]);
        }
    }
    assert(!line.contains('\n')) by {
        assert(text::is_white('\n'));
        if line.contains('\n') {
            let i = choose|i: int| 0 <= i < line.len() && line[i] == '\n';
            if i < before.len() {
                assert(before[i] == '\n');
            } else if i < before.len() + whole.len() {
                assert(whole[i - before.len()] == '\n');
            } else {
                assert(after[i - before.len() - whole.len()] == '\n');
            }
        }
    }
    text::law_a_line_ends_at_each_line_feed(line, rest);
    lemma_word_of_line(before, whole, after);
    lemma_without_parens(word, parens);
    if line.last() == '\r' {
        let cut = line.drop_last();
        assert(!cut.contains('\n')) by {
            if cut.contains('\n') {
                let i = choose|i: int| 0 <= i < cut.len() && cut[i] == '\n';
                assert(line[i] == '\n');
            }
        }
        text::law_a_line_ends_at_each_line_feed(cut, rest);
        assert(cut.push('\r') =~= line);
        assert(text::is_white('\r'));
        assert(after.len() > 0) by {
            if after.len() == 0 {
                assert(line.last() == whole[whole.len() - 1]);
            }
        }
        assert(cut =~= before + whole + after.drop_last());
        lemma_word_of_line(before, whole, after.drop_last());
        assert(text::lines_of(line.push('\n') + rest)[0] == cut);
    } else {
        assert(text::lines_of(line.push('\n') + rest)[0] == line);
    }
}

proof fn lemma_word_of_line(before: Seq<char>, whole: Seq<char>, after: Seq<char>)
    requires
        before.len() == 0 || text::is_white(before.last()),
        whole.len() > 0,
        forall|i: int| 0 <= i < whole.len() ==> !text::is_white(#[trigger] whole[i]),
        forall|i: int| 0 <= i < after.len() ==> text::is_white(#[trigger] after[i]),
    ensures
        last_word(before + whole + after) == Some(whole),
{
    text::lemma_trim_end_over(before + whole, after);
    assert((before + whole).last() == whole[whole.len() - 1]);
    lemma_tail_word(before, whole);
}

/// Where the first line has no word, the name is unknown.
pub proof fn law_without_a_word_the_name_is_unknown(blanks: Seq<char>, rest: Seq<char>)
    requires
        forall|i: int| 0 <= i < blanks.len() ==> text::is_white(#[trigger] blanks[i]),
        !blanks.contains('\n'),
    ensures
        name_in(blanks) == "unknown"@,
        name_in(blanks.push('\n') + rest) == "unknown"@,
{
    reveal_strlit("unknown");
    let none = Seq::<char>::empty();
    lemma_without_parens("unknown"@, none);
    assert("unknown"@ + none =~= "unknown"@);
    lemma_no_word(blanks);
    text::law_a_line_ends_at_each_line_feed(blanks, rest);
    if blanks.len() > 0 && blanks.last() == '\r' {
        let cut = blanks.drop_last();
        assert(!cut.contains('\n')) by {
            if cut.contains('\n') {
                let i = choose|i: int| 0 <= i < cut.len() && cut[i] == '\n';
                assert(blanks[i] == '\n');
            }
        }
        lemma_no_word(cut);
        text::law_a_line_ends_at_each_line_feed(cut, rest);
        assert(cut.push('\r') =~= blanks);
        assert(text::lines_of(blanks.push('\n') + rest)[0] == cut);
    } else {
        assert(text::lines_of(blanks.push('\n') + rest)[0] == blanks);
    }
}

proof fn lemma_no_word(blanks: Seq<char>)
    requires
        forall|i: int| 0 <= i < blanks.len() ==> text::is_white(#[trigger] blanks[i]),
    ensures
        last_word(blanks) is None,
{
    let none = Seq::<char>::empty();
    text::lemma_trim_end_over(none, blanks);
    assert(none + blanks =~= blanks);
}

/// What a server says of a symbol comes whole: a text as it is, and pieces one to a line
/// and all of them, whether they are code or not.
pub proof fn law_what_is_said_of_a_symbol_comes_whole(
    s: String,
    v: Vec<MarkedString>,
    last: MarkedString,
    w: Vec<MarkedString>,
)
    requires
        w@ == v@.push(last),
    ensures
        hover_text(HoverContents::Markup(s)) == s@,
        hover_text(HoverContents::Scalar(MarkedString::Text(s))) == s@,
        hover_text(HoverContents::Scalar(MarkedString::Code(s))) == s@,
        hover_text(HoverContents::Array(w)) == if v@.len() == 0 {
            hover_text(HoverContents::Scalar(last))
        } else {
            hover_text(HoverContents::Array(v)) + seq!['\n'] + hover_text(
                HoverContents::Scalar(last),
            )
        },
{
    reveal_strlit("\n");
    assert("\n"@ =~= seq!['\n']);
    let f = |m: MarkedString| m.text();
    let a = v@.map_values(f);
    let b = seq![last.text()];
    assert(w@.map_values(f) =~= a + b);
    text::law_joining_puts_every_piece(a, b, last.text(), "\n"@);
    if v@.len() == 0 {
        assert(a + b =~= b);
    }
}

/// The symbol that is answered holds all that the server says, and is answered whenever
/// the server says anything.
pub proof fn law_a_symbol_is_answered_whole(hover: Option<HoverContents>, r: Option<SymbolInfo>)
    requires
        call_ensures(symbol_of, (&hover,), r),
    ensures
        r is Some <==> hover is Some,
        hover matches Some(h) ==> r->0.symbol@ == hover_text(h) && r->0.name@ == name_in(
            r->0.symbol@,
        ) && r->0.kind@ == "function"@,
{
}

/// A server is launched with the executable that was found, with the arguments of its
/// language, and in the workspace.
pub proof fn law_a_server_stands_in_its_workspace(
    lang: Language,
    exe: &str,
    workspace: &str,
    r: Launch,
)
    requires
        call_ensures(launch, (lang, exe, workspace), r),
    ensures
        r.exe@ == exe@,
        r.cwd@ == workspace@,
        match lang {
            Language::TypeScript => r.args@.len() == 1 && r.args@[0]@ == "--stdio"@,
            Language::Java => r.args@.len() == 1 && r.args@[0]@ == "--jvm-arg=-Xmx2G"@,
            Language::Rust | Language::Python => r.args@.len() == 0,
        },
{
    assert(text::texts(r.args@).len() == r.args@.len());
    if r.args@.len() > 0 {
        assert(text::texts(r.args@)[0] == r.args@[0]@);
    }
}

/// Every server is told its workspace and that progress is wanted, with the notification
/// that `rust-analyzer` sends only to who asks for it; and `jdtls` alone gets options.
pub proof fn law_what_every_server_is_told(
    system: System,
    lang: Language,
    workspace: &str,
    r: Result<Handshake, String>,
)
    requires
        call_ensures(handshake, (system, lang, workspace), r),
    ensures
        r is Ok <==> url::file_url(workspace@) is Some,
        r matches Ok(h) ==> {
            &&& url::file_url(workspace@) == Some(h.uri@)
            &&& h.name@ == match path::file_name(system, workspace@) {
                Some(name) => name,
                None => Seq::empty(),
            }
            &&& h.work_done_progress
            &&& json::member(json::json(h.experimental), "serverStatusNotification"@) == Some(
                json::Json::Bool(true),
            )
            &&& h.initialization_options is Some <==> lang == Language::Java
            &&& lang == Language::Java ==> json::member(
                json::json(h.initialization_options->0),
                "workspaceFolders"@,
            ) == Some(json::Json::Array(seq![json::Json::Text(h.uri@)]))
        },
        r matches Err(e) ==> e@ == "invalid workspace path: "@ + workspace@,
{
    reveal_strlit("workspaceFolders");
    reveal_strlit("extendedClientCapabilities");
    assert("workspaceFolders"@[0] == 'w' && "extendedClientCapabilities"@[0] == 'e');
}

/// A file is asked about by its whole path: one that is absolute as it is, and any other
/// from the root of the workspace. On Unix that is the workspace, a slash and the file.
pub proof fn law_a_file_is_asked_about_by_its_whole_path(
    system: System,
    file: &str,
    workspace: &str,
    r: String,
)
    requires
        call_ensures(abs_path, (system, file, workspace), r),
    ensures
        path::is_absolute(system, file@) ==> r@ == file@,
        system is Unix && file@.len() > 0 && file@[0] == '/' ==> r@ == file@,
        system is Unix && !(file@.len() > 0 && file@[0] == '/') && workspace@.len() > 0
            && workspace@.last() != '/' ==> r@ == workspace@.push('/') + file@,
        !path::is_absolute(system, file@) ==> r@ == path::joined_path(system, workspace@, file@),
{
    path::law_a_path_is_put_after_its_base(workspace@, file@);
}

/// Why a server fell is said whole: the error, and below it each of the lines kept.
pub proof fn law_why_a_server_fell_is_said_whole(
    stderr: Stderr,
    error: &str,
    r: String,
)
    requires
        call_ensures(Stderr::explain, (&stderr, error), r),
    ensures
        stderr@.len() == 0 ==> r@ == error@,
        stderr@.len() > 0 ==> r@ == error@ + seq!['\n'] + text::joined(stderr@, seq!['\n']),
{
    reveal_strlit("\n");
    assert("\n"@ =~= seq!['\n']);
    text::law_joining_puts_every_piece(seq![error@], stderr@, error@, "\n"@);
    if stderr@.len() == 0 {
        assert(seq![error@] + stderr@ =~= seq![error@]);
    }
}

/// What is said of a request that nobody attends, of an executable that does not run and
/// of a position without calls names what it is about.
pub proof fn law_what_failed_is_named(
    method: &str,
    exe: &str,
    error: &str,
    n: NoCallHierarchy,
    unattended: String,
    unrun: String,
    uncalled: &'static str,
)
    requires
        call_ensures(not_implemented, (method,), unattended),
        call_ensures(not_spawned, (exe, error), unrun),
        call_ensures(NoCallHierarchy::to_text, (&n,), uncalled),
    ensures
        unattended@ == "lspd no implementa `"@ + method@ + "`"@,
        unrun@ == "failed to spawn "@ + exe@ + ": "@ + error@,
        uncalled@ == "no hay call hierarchy en esa posición"@,
{
}

/// The URL of a file is that of its whole path, and where that has none, the error says
/// which path it is.
pub proof fn law_a_url_is_of_the_whole_path(
    system: System,
    workspace: &str,
    file: &str,
    abs: String,
    r: Result<String, String>,
)
    requires
        call_ensures(abs_path, (system, file, workspace), abs),
        call_ensures(file_url, (system, workspace, file), r),
    ensures
        r is Ok <==> url::file_url(abs@) is Some,
        r matches Ok(uri) ==> url::file_url(abs@) == Some(uri@),
        r matches Err(e) ==> e@ == "invalid file path: "@ + abs@,
{
}

/// A line more is the last one kept, and only the oldest makes room for it.
pub proof fn law_a_line_more_is_the_last(s: &mut Stderr, line: &str, r: ())
    requires
        call_ensures(Stderr::push, (s, line), r),
        old(s)@.len() <= 20,
    ensures
        final(s)@.len() > 0 && final(s)@.last() == line@,
        old(s)@.len() < 20 ==> final(s)@ == old(s)@.push(line@),
        old(s)@.len() == 20 ==> final(s)@ == old(s)@.skip(1).push(line@),
{
    if old(s)@.len() == 20 {
        assert(final(s)@ =~= old(s)@.skip(1).push(line@));
    }
}

/// What is said of each position is the same whoever asks for one call: its symbol, its
/// name, its file and its place.
pub proof fn law_one_call_is_said_whole(item: CallItem, file: Option<String>, r: CalleeInfo)
    requires
        call_ensures(callee_in, (&item, file), r),
    ensures
        r.name@ == item.name@ && r.line == item.line && r.col == item.col,
        item.detail matches Some(d) ==> r.symbol@ == d@,
        item.detail is None ==> r.symbol@ == item.name@,
        file matches Some(f) ==> r.file@ == f@,
        file is None ==> r.file@ == item.uri@,
{
}

/// The name that is read of what a server says is the last word of its first line.
pub proof fn law_the_name_is_read_from_the_first_line(
    before: Seq<char>,
    word: Seq<char>,
    parens: Seq<char>,
    rest: Seq<char>,
    hover: &str,
    r: String,
)
    requires
        call_ensures(extract_name, (hover,), r),
        hover@ == (before + word + parens).push('\n') + rest || hover@ == before + word + parens,
        before.len() == 0 || text::is_white(before.last()),
        !before.contains('\n'),
        word.len() > 0,
        word.last() != '(',
        forall|i: int| 0 <= i < word.len() ==> !text::is_white(#[trigger] word[i]),
        forall|i: int| 0 <= i < parens.len() ==> #[trigger] parens[i] == '(',
    ensures
        r@ == word,
{
    let none = Seq::<char>::empty();
    law_a_name_is_the_last_word_of_the_first_line(before, word, parens, none, rest);
    assert(before + word + parens + none =~= before + word + parens);
}

/// What is heard of a server: its readiness as it says it, and whether it moves.
pub proof fn law_what_is_heard_is_what_was_said(
    method: &str,
    params: Value,
    m: Map<Seq<char>, json::Json>,
    said: Option<Readiness>,
    moves: bool,
)
    requires
        call_ensures(readiness_from, (method, &params), said),
        call_ensures(is_progress, (method,), moves),
        json::json(params) == json::Json::Object(m),
    ensures
        said == Some(Readiness::Ready) <==> {
            ||| method@ == "experimental/serverStatus"@ && m.dom().contains("quiescent"@)
                && m["quiescent"@] == json::Json::Bool(true)
            ||| method@ == "language/status"@ && m.dom().contains("type"@) && m["type"@]
                == json::Json::Text("ServiceReady"@)
        },
        said is Some ==> moves && said != Some(Readiness::Running),
        moves <==> method@ == "$/progress"@ || method@ == "experimental/serverStatus"@ || method@
            == "language/status"@,
{
    law_what_says_that_a_server_is_ready(method@, m, json::json(params));
}

/// What is said of a symbol and where something is declared come out as the server gave
/// them.
pub proof fn law_what_is_given_comes_out(
    hover: HoverContents,
    whole: String,
    reply: Option<DefinitionReply>,
    at: Vec<Location>,
    system: System,
    range: Span,
    file: Option<String>,
    d: Option<DefinitionInfo>,
)
    requires
        call_ensures(hover_to_text, (&hover,), whole),
        call_ensures(flatten, (reply,), at),
        call_ensures(definition_in, (system, range, file), d),
    ensures
        hover matches HoverContents::Markup(s) ==> whole@ == s@,
        hover matches HoverContents::Scalar(MarkedString::Text(s)) ==> whole@ == s@,
        hover matches HoverContents::Scalar(MarkedString::Code(s)) ==> whole@ == s@,
        reply is None ==> at@.len() == 0,
        reply matches Some(DefinitionReply::Scalar(_)) ==> at@.len() == 1,
        reply matches Some(DefinitionReply::Array(v)) ==> at@.len() == v@.len(),
        reply matches Some(DefinitionReply::Link(v)) ==> at@.len() == v@.len(),
        d is Some <==> file is Some && path::file_stem(system, file->0@) is Some,
        d matches Some(x) ==> x.file@ == file->0@ && Some(x.name@) == path::file_stem(
            system,
            file->0@,
        ) && x.line == range.line && x.col == range.col && x.end_line == range.end_line
            && x.end_col == range.end_col,
{
    assert(places(at@).len() == at@.len());
}

} // verus!
