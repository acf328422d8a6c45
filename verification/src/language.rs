//! The table of languages, and what a language server says of itself.

use crate::json;
use crate::seqs;
use crate::text;
use crate::text::{has, join, same};
use crate::url;
use serde_json::Value;
use vstd::prelude::*;
use vstd::string::*;

verus! {

#[derive(Debug, Clone, Copy, PartialEq, Eq, Hash, Structural)]
pub enum Language {
    Rust,
    TypeScript,
    Python,
    Java,
}

/// Every language, in the order they are listed: that of the table of markers.
pub open spec fn table() -> Seq<Language> {
    seq![Language::Rust, Language::Java, Language::TypeScript, Language::Python]
}

/// A name between quotation marks.
pub open spec fn quoted(s: Seq<char>) -> Seq<char> {
    "\""@ + s + "\""@
}

/// The first of these names that is among those found.
pub open spec fn first_found(names: Seq<Seq<char>>, found: Seq<Seq<char>>) -> Option<Seq<char>>
    decreases names.len(),
{
    if names.len() == 0 {
        None
    } else if found.contains(names.first()) {
        Some(names.first())
    } else {
        first_found(names.drop_first(), found)
    }
}

impl Language {
    /// Every language, in the order they are listed.
    pub const ALL: [Language; 4] = [
        Language::Rust,
        Language::Java,
        Language::TypeScript,
        Language::Python,
    ];

    pub open spec fn id_text(self) -> Seq<char> {
        match self {
            Language::Rust => "rust"@,
            Language::Java => "java"@,
            Language::TypeScript => "typescript"@,
            Language::Python => "python"@,
        }
    }

    /// The name of the language, as whoever asks to warm it writes it. It is not
    /// that of its server: who knows what language a workspace has need not know
    /// which executable attends it.
    pub fn id(&self) -> (r: &'static str)
        ensures
            r@ == self.id_text(),
    {
        match self {
            Language::Rust => "rust",
            Language::Java => "java",
            Language::TypeScript => "typescript",
            Language::Python => "python",
        }
    }

    /// The language of this name, if the table has it.
    pub open spec fn of_name(name: Seq<char>) -> Option<Language> {
        if name == "rust"@ {
            Some(Language::Rust)
        } else if name == "java"@ {
            Some(Language::Java)
        } else if name == "typescript"@ {
            Some(Language::TypeScript)
        } else if name == "python"@ {
            Some(Language::Python)
        } else {
            None
        }
    }

    /// The language of this name, if the table has it.
    pub fn from_name(name: &str) -> (r: Option<Language>)
        ensures
            r == Self::of_name(name@),
    {
        let ghost t = table();
        assert(t[0] == Language::Rust && t[1] == Language::Java && t[2] == Language::TypeScript
            && t[3] == Language::Python);
        for i in 0..4usize
            invariant
                t == table(),
                t[0] == Language::Rust && t[1] == Language::Java && t[2] == Language::TypeScript
                    && t[3] == Language::Python,
                forall|j: int| 0 <= j < i ==> (#[trigger] t[j]).id_text() != name@,
        {
            let l = Self::ALL[i];
            assert(l == t[i as int]);
            if same(l.id(), name) {
                return Some(l);
            }
        }
        None
    }

    pub open spec fn marker_texts(self) -> Seq<Seq<char>> {
        match self {
            Language::Rust => seq!["Cargo.toml"@],
            Language::Java => seq!["pom.xml"@, "build.gradle"@, "build.gradle.kts"@],
            Language::TypeScript => seq!["package.json"@, "tsconfig.json"@],
            Language::Python => seq!["pyproject.toml"@, "setup.py"@, "requirements.txt"@],
        }
    }

    /// The files that, in the root of a workspace, say that it holds a project of
    /// this language.
    pub fn markers(&self) -> (r: &'static [&'static str])
        ensures
            text::strs(r@) == self.marker_texts(),
    {
        match self {
            Language::Rust => {
                let r: &'static [&'static str] = &["Cargo.toml"];
                assert(text::strs(r@) =~= self.marker_texts());
                r
            },
            Language::Java => {
                let r: &'static [&'static str] = &["pom.xml", "build.gradle", "build.gradle.kts"];
                assert(text::strs(r@) =~= self.marker_texts());
                r
            },
            Language::TypeScript => {
                let r: &'static [&'static str] = &["package.json", "tsconfig.json"];
                assert(text::strs(r@) =~= self.marker_texts());
                r
            },
            Language::Python => {
                let r: &'static [&'static str] = &["pyproject.toml", "setup.py", "requirements.txt"];
                assert(text::strs(r@) =~= self.marker_texts());
                r
            },
        }
    }

    /// Whether one of the markers of this language is among these files.
    pub open spec fn marked_by(self, files: Seq<Seq<char>>) -> bool {
        exists|i: int|
            0 <= i < self.marker_texts().len() && files.contains(#[trigger] self.marker_texts()[i])
    }

    fn is_marked_by(&self, files: &[String]) -> (r: bool)
        ensures
            r == self.marked_by(text::texts(files@)),
    {
        let markers = self.markers();
        for i in 0..markers.len()
            invariant
                text::strs(markers@) == self.marker_texts(),
                forall|j: int|
                    0 <= j < i ==> !text::texts(files@).contains(#[trigger] self.marker_texts()[j]),
        {
            assert(text::strs(markers@)[i as int] == markers@[i as int]@);
            if has(files, markers[i]) {
                return true;
            }
        }
        false
    }

    /// Which languages a workspace has, by the names of the regular files in its
    /// root: only the root, and only files.
    pub fn from_markers(root_files: &[String]) -> (r: Vec<Language>)
        ensures
            r@ == table().filter(|l: Language| l.marked_by(text::texts(root_files@))),
    {
        let ghost here = |l: Language| l.marked_by(text::texts(root_files@));
        let mut r: Vec<Language> = Vec::new();
        assert(table().take(0).filter(here) =~= Seq::empty()) by {
            reveal(Seq::filter);
        }
        for i in 0..4usize
            invariant
                here == (|l: Language| l.marked_by(text::texts(root_files@))),
                r@ == table().take(i as int).filter(here),
        {
            let l = Self::ALL[i];
            assert(l == table()[i as int]);
            assert(table().take(i + 1).drop_last() =~= table().take(i as int));
            let ghost before = r@;
            assert(table().take(i + 1).filter(here) == if here(l) {
                before.push(l)
            } else {
                before
            }) by {
                reveal(Seq::filter);
            }
            if l.is_marked_by(root_files) {
                r.push(l);
            }
        }
        assert(table().take(4) =~= table());
        r
    }

    /// The language of the files with this extension, if the table has it.
    pub open spec fn of_extension(ext: Seq<char>) -> Option<Language> {
        if ext == "rs"@ {
            Some(Language::Rust)
        } else if ext == "ts"@ || ext == "tsx"@ || ext == "js"@ || ext == "jsx"@ {
            Some(Language::TypeScript)
        } else if ext == "py"@ {
            Some(Language::Python)
        } else if ext == "java"@ {
            Some(Language::Java)
        } else {
            None
        }
    }

    pub fn from_extension(ext: &str) -> (r: Option<Language>)
        ensures
            r == Self::of_extension(ext@),
    {
        if same(ext, "rs") {
            Some(Language::Rust)
        } else if same(ext, "ts") || same(ext, "tsx") || same(ext, "js") || same(ext, "jsx") {
            Some(Language::TypeScript)
        } else if same(ext, "py") {
            Some(Language::Python)
        } else if same(ext, "java") {
            Some(Language::Java)
        } else {
            None
        }
    }

    /// The executables that can attend a language, the preferred one first.
    pub open spec fn candidate_texts(self) -> Seq<Seq<char>> {
        match self {
            Language::Rust => seq!["rust-analyzer"@],
            Language::TypeScript => seq!["typescript-language-server"@],
            Language::Python => seq!["jedi-language-server"@, "pylsp"@],
            Language::Java => seq!["jdtls"@],
        }
    }

    /// The executables that can attend this language, the preferred one first.
    pub fn candidates(&self) -> (r: Vec<String>)
        ensures
            text::texts(r@) == self.candidate_texts(),
    {
        let mut r: Vec<String> = Vec::new();
        match self {
            Language::Rust => r.push("rust-analyzer".to_owned()),
            Language::TypeScript => r.push("typescript-language-server".to_owned()),
            Language::Python => {
                r.push("jedi-language-server".to_owned());
                r.push("pylsp".to_owned());
            },
            Language::Java => r.push("jdtls".to_owned()),
        }
        assert(text::texts(r@) =~= self.candidate_texts());
        r
    }

    /// What is said when no executable attends a language: which server it is, and
    /// what can be installed.
    pub open spec fn not_found_text(self) -> Seq<char> {
        "LSP for "@ + quoted(self.server_name()) + " not found: install one of ["@ + text::joined(
            self.candidate_texts().map_values(|c: Seq<char>| quoted(c)),
            ", "@,
        ) + "]"@
    }

    /// The executable to run, given the names that are in `PATH`.
    pub open spec fn executable(self, in_path: Seq<Seq<char>>) -> Result<Seq<char>, Seq<char>> {
        match first_found(self.candidate_texts(), in_path) {
            Some(exe) => Ok(exe),
            None => Err(self.not_found_text()),
        }
    }

    /// The executable to run: the first candidate among the names that are in
    /// `PATH`. With none of them there, the error says what to install.
    pub fn find_executable(&self, in_path: &[String]) -> (r: Result<String, String>)
        ensures
            match r {
                Ok(exe) => self.executable(text::texts(in_path@)) == Ok::<_, Seq<char>>(exe@),
                Err(e) => self.executable(text::texts(in_path@)) == Err::<Seq<char>, _>(e@),
            },
    {
        let candidates = self.candidates();
        let ghost all = self.candidate_texts();
        let ghost found = text::texts(in_path@);
        let mut marks: Vec<String> = Vec::new();
        assert(all.skip(0) =~= all);
        for i in 0..candidates.len()
            invariant
                all == self.candidate_texts(),
                all == text::texts(candidates@),
                found == text::texts(in_path@),
                first_found(all, found) == first_found(all.skip(i as int), found),
                text::texts(marks@) == all.take(i as int).map_values(|c: Seq<char>| quoted(c)),
        {
            assert(all.skip(i as int).drop_first() =~= all.skip(i + 1));
            assert(all[i as int] == candidates@[i as int]@);
            assert(all.skip(i as int).first() == all[i as int]);
            if has(in_path, candidates[i].as_str()) {
                return Ok(candidates[i].clone());
            }
            let ghost before = text::texts(marks@);
            let mut mark = "\"".to_owned();
            mark.append(candidates[i].as_str());
            mark.append("\"");
            marks.push(mark);
            assert(text::texts(marks@) =~= before.push(quoted(all[i as int])));
            assert(all.take(i + 1).map_values(|c: Seq<char>| quoted(c)) =~= before.push(
                quoted(all[i as int]),
            ));
        }
        assert(all.take(all.len() as int) =~= all);
        let mut e = "LSP for ".to_owned();
        let mut name = "\"".to_owned();
        name.append(self.name());
        name.append("\"");
        e.append(name.as_str());
        e.append(" not found: install one of [");
        e.append(join(marks.as_slice(), ", ").as_str());
        e.append("]");
        Err(e)
    }

    pub open spec fn server_name(self) -> Seq<char> {
        match self {
            Language::Rust => "rust-analyzer"@,
            Language::TypeScript => "typescript-language-server"@,
            Language::Python => "jedi-language-server"@,
            Language::Java => "jdtls"@,
        }
    }

    /// The name of the server that attends this language.
    pub fn name(&self) -> (r: &'static str)
        ensures
            r@ == self.server_name(),
    {
        match self {
            Language::Rust => "rust-analyzer",
            Language::TypeScript => "typescript-language-server",
            Language::Python => "jedi-language-server",
            Language::Java => "jdtls",
        }
    }

    pub open spec fn arg_texts(self) -> Seq<Seq<char>> {
        match self {
            Language::Java => seq!["--jvm-arg=-Xmx2G"@],
            Language::TypeScript => seq!["--stdio"@],
            _ => Seq::empty(),
        }
    }

    /// With which arguments this server is launched.
    ///
    /// `typescript-language-server` does not speak over stdio unless it is told to.
    /// `jdtls` takes a ceiling for its heap: one that is not set is the one its
    /// runtime computes, which grows with the machine.
    pub fn spawn_args(&self) -> (r: &'static [&'static str])
        ensures
            text::strs(r@) == self.arg_texts(),
    {
        match self {
            Language::Java => {
                let r: &'static [&'static str] = &["--jvm-arg=-Xmx2G"];
                assert(text::strs(r@) =~= self.arg_texts());
                r
            },
            Language::TypeScript => {
                let r: &'static [&'static str] = &["--stdio"];
                assert(text::strs(r@) =~= self.arg_texts());
                r
            },
            _ => {
                let r: &'static [&'static str] = &[];
                assert(text::strs(r@) =~= self.arg_texts());
                r
            },
        }
    }

    /// What `jdtls` is told of a workspace whose URL is this one.
    pub open spec fn java_options(uri: Seq<char>) -> json::Json {
        json::Json::Object(
            map![
                "workspaceFolders"@ => json::Json::Array(seq![json::Json::Text(uri)]),
                "extendedClientCapabilities"@ => json::Json::Object(
                    map![
                        "progressReportProvider"@ => json::Json::Bool(false),
                        "classFileContentsSupport"@ => json::Json::Bool(false),
                    ],
                ),
            ],
        )
    }

    /// What `jdtls` is told of the workspace whose URL is this one: its roots, which
    /// it does not read from the standard field, and that nobody here answers its
    /// requests about progress.
    pub fn options_at(uri: &str) -> (r: Value)
        ensures
            json::json(r) == Self::java_options(uri@),
    {
        let mut folders: Vec<Value> = Vec::new();
        folders.push(json::string(uri));
        assert(json::jsons(folders@) =~= seq![json::Json::Text(uri@)]);
        let mut capabilities = json::object();
        json::set(&mut capabilities, "progressReportProvider", json::boolean(false));
        json::set(&mut capabilities, "classFileContentsSupport", json::boolean(false));
        let mut r = json::object();
        json::set(&mut r, "workspaceFolders", json::array(folders));
        json::set(&mut r, "extendedClientCapabilities", capabilities);
        r
    }

    /// What this server needs to hear in the handshake to really start. Only `jdtls`
    /// needs anything: without its roots it imports no project, and answers nothing
    /// while it says that it is ready.
    pub fn initialization_options(&self, workspace: &str) -> (r: Option<Value>)
        ensures
            match (*self, url::file_url(workspace@)) {
                (Language::Java, Some(uri)) => r is Some && json::json(r->0) == Self::java_options(
                    uri,
                ),
                _ => r is None,
            },
    {
        match self {
            Language::Java => match url::from_file_path(workspace) {
                Some(uri) => Some(Self::options_at(uri.as_str())),
                None => None,
            },
            _ => None,
        }
    }

    /// Whether this server needs a document open to answer about it. `tsserver`
    /// builds the project from what is open; the others read it from the disk.
    pub fn needs_open(&self) -> (r: bool)
        ensures
            r == (*self == Language::TypeScript),
    {
        match self {
            Language::TypeScript => true,
            _ => false,
        }
    }

    pub open spec fn reports(self) -> bool {
        self == Language::Rust || self == Language::Java
    }

    /// Whether this server tells when it has finished indexing. It is a property of
    /// the server: for the others there is nothing to deduce it from.
    pub fn reports_readiness(&self) -> (r: bool)
        ensures
            r == self.reports(),
    {
        match self {
            Language::Rust | Language::Java => true,
            Language::TypeScript | Language::Python => false,
        }
    }
}

/// What a language server says of itself. The third value is that it cannot say.
#[derive(Debug, Clone, Copy, PartialEq, Eq, Structural)]
pub enum Readiness {
    /// The server said not yet.
    Indexing,
    /// The server said yes.
    Ready,
    /// It is up, and this server does not tell its readiness.
    Running,
}

impl Readiness {
    pub open spec fn text(self) -> Seq<char> {
        match self {
            Readiness::Indexing => "INDEXING"@,
            Readiness::Ready => "READY"@,
            Readiness::Running => "RUNNING"@,
        }
    }

    pub fn as_str(&self) -> (r: &'static str)
        ensures
            r@ == self.text(),
    {
        match self {
            Readiness::Indexing => "INDEXING",
            Readiness::Ready => "READY",
            Readiness::Running => "RUNNING",
        }
    }

    pub open spec fn at_birth(lang: Language) -> Readiness {
        if lang.reports() {
            Readiness::Indexing
        } else {
            Readiness::Running
        }
    }

    /// The state with which a server of this language is born.
    pub fn initial(lang: Language) -> (r: Readiness)
        ensures
            r == Self::at_birth(lang),
    {
        if lang.reports_readiness() {
            Readiness::Indexing
        } else {
            Readiness::Running
        }
    }

    pub open spec fn number(self) -> u8 {
        match self {
            Readiness::Indexing => 0,
            Readiness::Ready => 1,
            Readiness::Running => 2,
        }
    }

    pub open spec fn of_number(c: u8) -> Readiness {
        if c == 0 {
            Readiness::Indexing
        } else if c == 1 {
            Readiness::Ready
        } else {
            Readiness::Running
        }
    }

    fn code(&self) -> (r: u8)
        ensures
            r == self.number(),
    {
        match self {
            Readiness::Indexing => 0,
            Readiness::Ready => 1,
            Readiness::Running => 2,
        }
    }

    fn from_code(c: u8) -> (r: Readiness)
        ensures
            r == Self::of_number(c),
    {
        match c {
            0 => Readiness::Indexing,
            1 => Readiness::Ready,
            _ => Readiness::Running,
        }
    }
}

/// The readiness of a server, in one byte.
#[derive(Debug)]
pub struct ReadinessCell(u8);

impl View for ReadinessCell {
    type V = Readiness;

    closed spec fn view(&self) -> Readiness {
        Readiness::of_number(self.0)
    }
}

impl ReadinessCell {
    pub fn new(lang: Language) -> (r: ReadinessCell)
        ensures
            r@ == Readiness::at_birth(lang),
    {
        ReadinessCell(Readiness::initial(lang).code())
    }

    pub fn get(&self) -> (r: Readiness)
        ensures
            r == self@,
    {
        Readiness::from_code(self.0)
    }

    pub fn set(&mut self, r: Readiness)
        ensures
            final(self)@ == r,
    {
        self.0 = r.code();
    }
}

/// When the last sign of progress of a server came, in milliseconds of the daemon's
/// clock. It starts at the moment it is made: a server that has reported nothing
/// counts from its start, so that a start that never advances shows too.
#[derive(Debug)]
pub struct ProgressClock {
    last_ms: u64,
}

/// The milliseconds from `then` to `now`, and none where `now` is before.
pub open spec fn elapsed(then: u64, now: u64) -> u64 {
    if now >= then {
        (now - then) as u64
    } else {
        0
    }
}

impl View for ProgressClock {
    type V = u64;

    closed spec fn view(&self) -> u64 {
        self.last_ms
    }
}

impl ProgressClock {
    pub fn new(now_ms: u64) -> (r: ProgressClock)
        ensures
            r@ == now_ms,
    {
        ProgressClock { last_ms: now_ms }
    }

    /// A sign of progress came.
    pub fn touch(&mut self, now_ms: u64)
        ensures
            final(self)@ == now_ms,
    {
        self.last_ms = now_ms;
    }

    /// How long ago the last sign came, or the start if none did.
    pub fn since(&self, now_ms: u64) -> (r: u64)
        ensures
            r == elapsed(self@, now_ms),
    {
        now_ms.saturating_sub(self.last_ms)
    }
}

// ── what the table promises ──────────────────────────────────────────────────

/// The name of a language goes and comes back: the table knows each by its own name,
/// and no other name.
pub proof fn law_a_name_goes_and_comes_back(lang: Language, name: Seq<char>)
    ensures
        Language::of_name(lang.id_text()) == Some(lang),
        Language::of_name(name) == Some(lang) <==> name == lang.id_text(),
{
    reveal_strlit("rust");
    reveal_strlit("java");
    reveal_strlit("typescript");
    reveal_strlit("python");
    assert("rust"@[0] == 'r' && "java"@[0] == 'j' && "typescript"@[0] == 't' && "python"@[0]
        == 'p');
}

/// The name of a server is of one language: what `status` lists under it is one
/// server.
pub proof fn law_a_server_is_of_one_language(a: Language, b: Language)
    requires
        a.server_name() == b.server_name(),
    ensures
        a == b,
{
    reveal_strlit("rust-analyzer");
    reveal_strlit("typescript-language-server");
    reveal_strlit("jedi-language-server");
    reveal_strlit("jdtls");
    assert("rust-analyzer"@.len() == 13 && "typescript-language-server"@.len() == 26
        && "jedi-language-server"@.len() == 20 && "jdtls"@.len() == 5);
}

/// The name of a server is that of the executable it prefers.
pub proof fn law_a_server_is_named_after_its_first_candidate(lang: Language)
    ensures
        lang.candidate_texts().len() > 0,
        lang.candidate_texts()[0] == lang.server_name(),
{
}

/// What is picked out of the table comes once each, in the order of the table.
pub proof fn lemma_table_filtered(p: spec_fn(Language) -> bool)
    ensures
        ({
            let picked = table().filter(p);
            &&& picked.no_duplicates()
            &&& forall|l: Language| picked.contains(l) <==> p(l)
            &&& forall|i: int, j: int|
                0 <= i < j < picked.len() ==> table().index_of(#[trigger] picked[i])
                    < table().index_of(#[trigger] picked[j])
        }),
{
    let t = table();
    reveal_with_fuel(Seq::filter, 5);
    let t3 = t.drop_last();
    let t2 = t3.drop_last();
    let t1 = t2.drop_last();
    assert(t1.drop_last() =~= Seq::empty());
    let picked = t.filter(p);
    assert forall|l: Language| picked.contains(l) <==> p(l) by {
        let i: int = match l {
            Language::Rust => 0,
            Language::Java => 1,
            Language::TypeScript => 2,
            Language::Python => 3,
        };
        assert(t[i] == l);
        seqs::lemma_filter_holds(t, p, l);
    }
}

/// The languages of a workspace are those with a marker in its root, once each, in
/// the order of the table.
pub proof fn law_languages_come_once_and_in_order(files: Seq<Seq<char>>)
    ensures
        ({
            let found = table().filter(|l: Language| l.marked_by(files));
            &&& found.no_duplicates()
            &&& forall|l: Language| found.contains(l) <==> l.marked_by(files)
            &&& forall|i: int, j: int|
                0 <= i < j < found.len() ==> table().index_of(#[trigger] found[i])
                    < table().index_of(#[trigger] found[j])
        }),
{
    lemma_table_filtered(|l: Language| l.marked_by(files));
}

/// A readiness stored is the one read.
pub proof fn law_a_readiness_goes_and_comes_back(r: Readiness)
    ensures
        Readiness::of_number(r.number()) == r,
{
}

/// Time passes: with no sign in between, what is read later is larger by just what
/// passed.
pub proof fn law_silence_grows_with_time(last: u64, now: u64, later: u64)
    requires
        last <= now <= later,
    ensures
        elapsed(last, later) == elapsed(last, now) + (later - now),
        elapsed(now, now) == 0,
{
}

/// Each language has its extensions, and no other: those of Rust, Python and Java, and
/// the four of TypeScript.
pub proof fn law_extensions_are_of_one_language(ext: Seq<char>)
    ensures
        Language::of_extension(ext) == Some(Language::Rust) <==> ext == "rs"@,
        Language::of_extension(ext) == Some(Language::Python) <==> ext == "py"@,
        Language::of_extension(ext) == Some(Language::Java) <==> ext == "java"@,
        Language::of_extension(ext) == Some(Language::TypeScript) <==> ext == "ts"@ || ext == "tsx"@
            || ext == "js"@ || ext == "jsx"@,
{
    reveal_strlit("rs");
    reveal_strlit("py");
    reveal_strlit("java");
    reveal_strlit("ts");
    reveal_strlit("tsx");
    reveal_strlit("js");
    reveal_strlit("jsx");
    assert("rs"@[0] == 'r' && "py"@[0] == 'p' && "ts"@[0] == 't' && "tsx"@[0] == 't' && "js"@[0]
        == 'j' && "jsx"@[0] == 'j' && "java"@[0] == 'j' && "java"@.len() == 4 && "js"@.len() == 2
        && "jsx"@.len() == 3);
}

/// A workspace holds a project of a language if and only if a marker of it is among the
/// files of its root, whatever else is there.
pub proof fn law_a_marker_says_the_language(files: Seq<Seq<char>>)
    ensures
        Language::Rust.marked_by(files) <==> files.contains("Cargo.toml"@),
        Language::Java.marked_by(files) <==> files.contains("pom.xml"@) || files.contains(
            "build.gradle"@,
        ) || files.contains("build.gradle.kts"@),
        Language::TypeScript.marked_by(files) <==> files.contains("package.json"@)
            || files.contains("tsconfig.json"@),
        Language::Python.marked_by(files) <==> files.contains("pyproject.toml"@)
            || files.contains("setup.py"@) || files.contains("requirements.txt"@),
{
    let r = Language::Rust.marker_texts();
    let j = Language::Java.marker_texts();
    let t = Language::TypeScript.marker_texts();
    let p = Language::Python.marker_texts();
    assert(r.len() == 1 && r[0] == "Cargo.toml"@);
    assert(j.len() == 3 && j[0] == "pom.xml"@ && j[1] == "build.gradle"@ && j[2]
        == "build.gradle.kts"@);
    assert(t.len() == 2 && t[0] == "package.json"@ && t[1] == "tsconfig.json"@);
    assert(p.len() == 3 && p[0] == "pyproject.toml"@ && p[1] == "setup.py"@ && p[2]
        == "requirements.txt"@);
}

/// The languages that are found in a workspace are those that are marked, all of them,
/// once each.
pub proof fn law_every_marked_language_is_found(files: &[String], r: Vec<Language>)
    requires
        call_ensures(Language::from_markers, (files,), r),
    ensures
        forall|l: Language| r@.contains(l) <==> l.marked_by(text::texts(files@)),
        r@.no_duplicates(),
        r@.len() <= 4,
{
    let here = |l: Language| l.marked_by(text::texts(files@));
    lemma_table_filtered(here);
    table().lemma_filter_len(here);
}

/// The executable of a language is the first of its candidates that is in `PATH`, and
/// no other name: where none is, there is an error. What else is in `PATH`, and in what
/// order, does not show.
pub proof fn law_the_preferred_executable_is_run(in_path: Seq<Seq<char>>)
    ensures
        Language::Rust.executable(in_path) == Ok::<_, Seq<char>>("rust-analyzer"@)
            <==> in_path.contains("rust-analyzer"@),
        Language::Rust.executable(in_path) is Err <==> !in_path.contains("rust-analyzer"@),
        Language::Java.executable(in_path) == Ok::<_, Seq<char>>("jdtls"@) <==> in_path.contains(
            "jdtls"@,
        ),
        Language::Java.executable(in_path) is Err <==> !in_path.contains("jdtls"@),
        Language::TypeScript.executable(in_path) == Ok::<_, Seq<char>>(
            "typescript-language-server"@,
        ) <==> in_path.contains("typescript-language-server"@),
        Language::TypeScript.executable(in_path) is Err <==> !in_path.contains(
            "typescript-language-server"@,
        ),
        in_path.contains("jedi-language-server"@) ==> Language::Python.executable(in_path) == Ok::<
            _,
            Seq<char>,
        >("jedi-language-server"@),
        !in_path.contains("jedi-language-server"@) && in_path.contains("pylsp"@)
            ==> Language::Python.executable(in_path) == Ok::<_, Seq<char>>("pylsp"@),
        Language::Python.executable(in_path) is Err <==> !in_path.contains(
            "jedi-language-server"@,
        ) && !in_path.contains("pylsp"@),
{
    let p = Language::Python.candidate_texts();
    assert(p.drop_first().drop_first() =~= Seq::empty());
    assert(p[0] == "jedi-language-server"@ && p.drop_first().first() == "pylsp"@);
    assert(Language::Rust.candidate_texts().drop_first() =~= Seq::empty());
    assert(Language::Java.candidate_texts().drop_first() =~= Seq::empty());
    assert(Language::TypeScript.candidate_texts().drop_first() =~= Seq::empty());
    reveal_with_fuel(first_found, 3);
}

/// Where nothing attends a language, what is said names its server and, between
/// quotation marks, each executable that would do.
pub proof fn law_what_to_install_is_said(lang: Language, in_path: Seq<Seq<char>>)
    requires
        lang.executable(in_path) is Err,
    ensures
        ({
            let q = seq!['"'];
            let said = lang.executable(in_path)->Err_0;
            let head = "LSP for "@ + q + lang.server_name() + q + " not found: install one of ["@;
            said == head + match lang {
                Language::Rust => q + "rust-analyzer"@ + q,
                Language::Java => q + "jdtls"@ + q,
                Language::TypeScript => q + "typescript-language-server"@ + q,
                Language::Python => q + "jedi-language-server"@ + q + ", "@ + q + "pylsp"@ + q,
            } + "]"@
        }),
{
    reveal_strlit("\"");
    let q = seq!['"'];
    assert("\""@ =~= q);
    let marks = lang.candidate_texts().map_values(|c: Seq<char>| quoted(c));
    match lang {
        Language::Python => {
            let a = quoted("jedi-language-server"@);
            let b = quoted("pylsp"@);
            assert(marks =~= seq![a, b]);
            text::law_joining_puts_every_piece(seq![a], seq![b], b, ", "@);
            text::law_joining_puts_every_piece(seq![a], seq![b], a, ", "@);
            assert(seq![a] + seq![b] =~= marks);
            assert(text::joined(marks, ", "@) == a + ", "@ + b);
            assert(a + ", "@ + b =~= q + "jedi-language-server"@ + q + ", "@ + q + "pylsp"@ + q);
        },
        _ => {},
    }
    let head = "LSP for "@ + q + lang.server_name() + q + " not found: install one of ["@;
    assert("LSP for "@ + quoted(lang.server_name()) + " not found: install one of ["@ =~= head);
}

/// A server that tells when it has finished is born indexing, and one that does not is
/// running from the start: `rust-analyzer` and `jdtls` tell.
pub proof fn law_who_tells_is_born_indexing(lang: Language)
    ensures
        Readiness::at_birth(lang) == match lang {
            Language::Rust | Language::Java => Readiness::Indexing,
            Language::TypeScript | Language::Python => Readiness::Running,
        },
        Readiness::at_birth(lang).text() == match lang {
            Language::Rust | Language::Java => "INDEXING"@,
            Language::TypeScript | Language::Python => "RUNNING"@,
        },
        Readiness::Ready.text() == "READY"@,
{
}

/// A clock that is read before its last sign shows no silence.
pub proof fn law_there_is_no_silence_before_a_sign(last: u64, now: u64)
    requires
        now <= last,
    ensures
        elapsed(last, now) == 0,
{
}

/// How each server is launched: `typescript-language-server` is told to speak over
/// stdio, `jdtls` has a ceiling for its heap, and the others take no argument.
pub proof fn law_each_server_has_its_arguments(lang: Language, r: &'static [&'static str])
    requires
        call_ensures(Language::spawn_args, (&lang,), r),
    ensures
        match lang {
            Language::TypeScript => r@.len() == 1 && r@[0]@ == "--stdio"@,
            Language::Java => r@.len() == 1 && r@[0]@ == "--jvm-arg=-Xmx2G"@,
            Language::Rust | Language::Python => r@.len() == 0,
        },
{
    assert(text::strs(r@).len() == r@.len());
    if r@.len() > 0 {
        assert(text::strs(r@)[0] == r@[0]@);
    }
}

/// `jdtls` is told its root under the field that it reads, and that nobody here answers
/// its requests about progress nor shows class files.
pub proof fn law_jdtls_hears_its_root(uri: &str, r: Value)
    requires
        call_ensures(Language::options_at, (uri,), r),
    ensures
        json::member(json::json(r), "workspaceFolders"@) == Some(
            json::Json::Array(seq![json::Json::Text(uri@)]),
        ),
        json::member(json::json(r), "extendedClientCapabilities"@) matches Some(c) && json::member(
            c,
            "progressReportProvider"@,
        ) == Some(json::Json::Bool(false)) && json::member(c, "classFileContentsSupport"@) == Some(
            json::Json::Bool(false),
        ),
{
    reveal_strlit("workspaceFolders");
    reveal_strlit("extendedClientCapabilities");
    reveal_strlit("progressReportProvider");
    reveal_strlit("classFileContentsSupport");
    assert("workspaceFolders"@[0] == 'w' && "extendedClientCapabilities"@[0] == 'e');
    assert("progressReportProvider"@[0] == 'p' && "classFileContentsSupport"@[0] == 'c');
}

/// Which servers need their documents open: that of TypeScript alone. Which tell their
/// readiness: those of Rust and Java.
pub proof fn law_what_each_server_needs(lang: Language, opens: bool, tells: bool)
    requires
        call_ensures(Language::needs_open, (&lang,), opens),
        call_ensures(Language::reports_readiness, (&lang,), tells),
    ensures
        opens <==> lang == Language::TypeScript,
        tells <==> lang == Language::Rust || lang == Language::Java,
{
}

/// What is read by a name, by an extension and in `PATH` is what the table has.
pub proof fn law_the_table_is_what_is_read(
    lang: Language,
    name: &str,
    by_name: Option<Language>,
    ext: &str,
    by_ext: Option<Language>,
    in_path: &[String],
    exe: Result<String, String>,
)
    requires
        call_ensures(Language::from_name, (name,), by_name),
        call_ensures(Language::from_extension, (ext,), by_ext),
        call_ensures(Language::find_executable, (&lang, in_path), exe),
    ensures
        by_name == Some(Language::Rust) <==> name@ == "rust"@,
        by_name == Some(Language::Java) <==> name@ == "java"@,
        by_name == Some(Language::TypeScript) <==> name@ == "typescript"@,
        by_name == Some(Language::Python) <==> name@ == "python"@,
        by_ext == Some(Language::Rust) <==> ext@ == "rs"@,
        by_ext == Some(Language::Java) <==> ext@ == "java"@,
        by_ext == Some(Language::Python) <==> ext@ == "py"@,
        by_ext == Some(Language::TypeScript) <==> ext@ == "ts"@ || ext@ == "tsx"@ || ext@ == "js"@
            || ext@ == "jsx"@,
        ({
            let found = text::texts(in_path@);
            match lang {
                Language::Rust => exe is Ok <==> found.contains("rust-analyzer"@),
                Language::Java => exe is Ok <==> found.contains("jdtls"@),
                Language::TypeScript => exe is Ok <==> found.contains(
                    "typescript-language-server"@,
                ),
                Language::Python => exe is Ok <==> found.contains("jedi-language-server"@)
                    || found.contains("pylsp"@),
            }
        }),
        exe matches Ok(x) ==> text::texts(in_path@).contains(x@),
{
    law_a_name_goes_and_comes_back(Language::Rust, name@);
    law_a_name_goes_and_comes_back(Language::Java, name@);
    law_a_name_goes_and_comes_back(Language::TypeScript, name@);
    law_a_name_goes_and_comes_back(Language::Python, name@);
    law_extensions_are_of_one_language(ext@);
    law_the_preferred_executable_is_run(text::texts(in_path@));
}

/// What a server is called, and in what state it is born and shown.
pub proof fn law_what_a_server_is_called(
    lang: Language,
    name: &'static str,
    born: Readiness,
    readiness: Readiness,
    shown: &'static str,
)
    requires
        call_ensures(Language::name, (&lang,), name),
        call_ensures(Readiness::initial, (lang,), born),
        call_ensures(Readiness::as_str, (&readiness,), shown),
    ensures
        name@ == match lang {
            Language::Rust => "rust-analyzer"@,
            Language::Java => "jdtls"@,
            Language::TypeScript => "typescript-language-server"@,
            Language::Python => "jedi-language-server"@,
        },
        born == match lang {
            Language::Rust | Language::Java => Readiness::Indexing,
            Language::TypeScript | Language::Python => Readiness::Running,
        },
        shown@ == match readiness {
            Readiness::Indexing => "INDEXING"@,
            Readiness::Ready => "READY"@,
            Readiness::Running => "RUNNING"@,
        },
{
}

/// A clock says how long ago the last sign came, and none where it is read before it.
pub proof fn law_a_clock_counts_from_its_last_sign(clock: ProgressClock, now: u64, r: u64)
    requires
        call_ensures(ProgressClock::since, (&clock, now), r),
    ensures
        now >= clock@ ==> r == now - clock@,
        now < clock@ ==> r == 0,
{
}

} // verus!
