//! The documents open in a server, and what has to be sent to it for them to be as
//! they are on disk.

use crate::path;
use crate::path::System;
use crate::text;
use crate::text::same;
use crate::text_map::TextMap;
use std::collections::hash_map::DefaultHasher;
use std::hash::Hasher;
use vstd::prelude::*;
use vstd::std_specs::hash::DefaultHasherAdditionalSpecFns;
use vstd::string::*;

verus! {

/// What has to be sent to the server for a document to be as it is on disk.
#[derive(Debug, Clone, Copy, PartialEq, Eq, Structural)]
pub enum DocSync {
    /// It was never opened: `didOpen`, with this version.
    Open { version: i32 },
    /// It was opened and changed: `didChange` with the whole text, with this version.
    Change { version: i32 },
    /// What the server has is what there is on disk.
    Current,
}

/// What was sent to the server of each document: its version and the hash of its
/// text, by its URI.
///
/// The hash is kept and not the text: it is enough to know whether it changed, and
/// what is open does not grow with the size of the files.
#[derive(Debug)]
pub struct OpenDocuments {
    docs: TextMap<(i32, u64)>,
}

impl View for OpenDocuments {
    type V = Map<Seq<char>, (i32, u64)>;

    closed spec fn view(&self) -> Map<Seq<char>, (i32, u64)> {
        self.docs@
    }
}

/// What to send of a document whose text has this hash.
pub open spec fn to_send(
    docs: Map<Seq<char>, (i32, u64)>,
    uri: Seq<char>,
    hash: u64,
) -> DocSync {
    if !docs.dom().contains(uri) {
        DocSync::Open { version: 1 }
    } else if docs[uri].1 == hash {
        DocSync::Current
    } else {
        DocSync::Change { version: (docs[uri].0 + 1) as i32 }
    }
}

/// Whether a document whose text has this hash can be sent: one that changed takes the
/// next version, and there are as many as an `i32` can count.
pub open spec fn can_send(docs: Map<Seq<char>, (i32, u64)>, uri: Seq<char>, hash: u64) -> bool {
    docs.dom().contains(uri) && docs[uri].1 != hash ==> docs[uri].0 < i32::MAX
}

/// The open documents once that has been sent.
pub open spec fn once_sent(
    docs: Map<Seq<char>, (i32, u64)>,
    uri: Seq<char>,
    hash: u64,
) -> Map<Seq<char>, (i32, u64)> {
    match to_send(docs, uri, hash) {
        DocSync::Open { version } => docs.insert(uri, (version, hash)),
        DocSync::Change { version } => docs.insert(uri, (version, hash)),
        DocSync::Current => docs,
    }
}

/// The hash of a text: that of its bytes.
pub open spec fn text_hash(text: Seq<char>) -> u64 {
    DefaultHasher::spec_finish(seq![vstd::utf8::encode_utf8(text)])
}

fn hash_text(text: &str) -> (r: u64)
    ensures
        r == text_hash(text@),
{
    let mut h = DefaultHasher::new();
    h.write(text.as_bytes());
    assert(h@ =~= seq![vstd::utf8::encode_utf8(text@)]);
    h.finish()
}

impl Default for OpenDocuments {
    /// No document open.
    fn default() -> (r: OpenDocuments)
        ensures
            r.wf(),
            r@ == Map::<Seq<char>, (i32, u64)>::empty(),
    {
        OpenDocuments { docs: TextMap::new() }
    }
}

impl OpenDocuments {
    /// No document is kept twice.
    pub closed spec fn wf(self) -> bool {
        self.docs.wf()
    }

    /// Takes note that the server is to have at this URI the text of this hash, and
    /// says what to send to it.
    pub fn sync_hashed(&mut self, uri: &str, hash: u64) -> (r: DocSync)
        requires
            old(self).wf(),
            can_send(old(self)@, uri@, hash),
        ensures
            final(self).wf(),
            r == to_send(old(self)@, uri@, hash),
            final(self)@ == once_sent(old(self)@, uri@, hash),
    {
        let sent: Option<(i32, u64)> = match self.docs.get(uri) {
            Some(sent) => Some(*sent),
            None => None,
        };
        match sent {
            None => {
                self.docs.insert(uri, (1, hash));
                DocSync::Open { version: 1 }
            },
            Some((version, was)) => if was == hash {
                DocSync::Current
            } else {
                self.docs.insert(uri, (version + 1, hash));
                DocSync::Change { version: version + 1 }
            },
        }
    }

    /// Takes note that the server is to have this text at this URI, and says what to
    /// send to it.
    pub fn sync(&mut self, uri: &str, text: &str) -> (r: DocSync)
        requires
            old(self).wf(),
            can_send(old(self)@, uri@, text_hash(text@)),
        ensures
            final(self).wf(),
            r == to_send(old(self)@, uri@, text_hash(text@)),
            final(self)@ == once_sent(old(self)@, uri@, text_hash(text@)),
    {
        let hash: u64 = hash_text(text);
        self.sync_hashed(uri, hash)
    }

    /// The same, also for a document that may have run out of versions: of one that has,
    /// nothing is sent and nothing is noted.
    pub fn try_sync(&mut self, uri: &str, text: &str) -> (r: Option<DocSync>)
        requires
            old(self).wf(),
        ensures
            final(self).wf(),
            if can_send(old(self)@, uri@, text_hash(text@)) {
                &&& r == Some(to_send(old(self)@, uri@, text_hash(text@)))
                &&& final(self)@ == once_sent(old(self)@, uri@, text_hash(text@))
            } else {
                &&& r is None
                &&& final(self)@ == old(self)@
            },
    {
        let full: bool = match self.docs.get(uri) {
            Some(sent) => sent.0 == i32::MAX && sent.1 != hash_text(text),
            None => false,
        };
        if full {
            None
        } else {
            Some(self.sync(uri, text))
        }
    }

    /// The documents that are open, each once.
    pub fn uris(&self) -> (r: Vec<String>)
        requires
            self.wf(),
        ensures
            text::texts(r@).no_duplicates(),
            forall|u: Seq<char>| text::texts(r@).contains(u) <==> self@.dom().contains(u),
    {
        self.docs.keys()
    }

    /// Forgets a document that was closed: if it is asked for again, it is opened from
    /// scratch.
    pub fn forget(&mut self, uri: &str)
        requires
            old(self).wf(),
        ensures
            final(self).wf(),
            final(self)@ == old(self)@.remove(uri@),
    {
        self.docs.remove(uri);
    }
}

/// The LSP `languageId` of a file with this extension.
pub open spec fn id_of_extension(ext: Seq<char>) -> Seq<char> {
    if ext == "tsx"@ {
        "typescriptreact"@
    } else if ext == "js"@ {
        "javascript"@
    } else if ext == "jsx"@ {
        "javascriptreact"@
    } else if ext == "rs"@ {
        "rust"@
    } else if ext == "py"@ {
        "python"@
    } else if ext == "java"@ {
        "java"@
    } else {
        "typescript"@
    }
}

/// The LSP `languageId` of a file, by its extension.
pub fn language_id(system: System, file: &str) -> (r: &'static str)
    ensures
        r@ == match path::extension(system, file@) {
            Some(ext) => id_of_extension(ext),
            None => "typescript"@,
        },
{
    match path::extension_of(system, file) {
        None => "typescript",
        Some(ext) => {
            let ext = ext.as_str();
            if same(ext, "tsx") {
                "typescriptreact"
            } else if same(ext, "js") {
                "javascript"
            } else if same(ext, "jsx") {
                "javascriptreact"
            } else if same(ext, "rs") {
                "rust"
            } else if same(ext, "py") {
                "python"
            } else if same(ext, "java") {
                "java"
            } else {
                "typescript"
            }
        },
    }
}

// ── what the open documents promise ──────────────────────────────────────────

/// A document that did not change is not sent again.
pub proof fn law_what_did_not_change_is_not_sent(
    docs: Map<Seq<char>, (i32, u64)>,
    uri: Seq<char>,
    hash: u64,
)
    ensures
        to_send(once_sent(docs, uri, hash), uri, hash) == DocSync::Current,
        once_sent(once_sent(docs, uri, hash), uri, hash) == once_sent(docs, uri, hash),
{
}

/// What changed on disk is sent, with the version after the last one sent: also when
/// it goes back to a text that the server had before. A change is one of the hash,
/// and two texts may share one.
pub proof fn law_what_changed_is_sent_with_the_next_version(
    docs: Map<Seq<char>, (i32, u64)>,
    uri: Seq<char>,
    was: u64,
    is: u64,
)
    requires
        was != is,
        docs.dom().contains(uri) ==> docs[uri].0 < i32::MAX - 1,
    ensures
        ({
            let sent = once_sent(docs, uri, was);
            let again = once_sent(sent, uri, is);
            &&& to_send(sent, uri, is) == DocSync::Change { version: (sent[uri].0 + 1) as i32 }
            &&& again[uri] == ((sent[uri].0 + 1) as i32, is)
            &&& sent[uri].0 + 1 <= i32::MAX
        }),
{
}

/// Each document keeps its own version: what is sent of one says nothing of another.
pub proof fn law_documents_do_not_mix(
    docs: Map<Seq<char>, (i32, u64)>,
    uri: Seq<char>,
    other: Seq<char>,
    hash: u64,
    its: u64,
)
    requires
        uri != other,
    ensures
        to_send(once_sent(docs, uri, hash), other, its) == to_send(docs, other, its),
{
}

/// A document that was forgotten is opened again from scratch.
pub proof fn law_what_was_forgotten_is_opened_again(
    docs: Map<Seq<char>, (i32, u64)>,
    uri: Seq<char>,
    hash: u64,
)
    ensures
        to_send(docs.remove(uri), uri, hash) == (DocSync::Open { version: 1 }),
{
}

/// What is fed to the hasher for a text is all of it: two texts that differ, wherever
/// they do, are fed as different bytes.
pub proof fn law_the_whole_text_is_hashed(a: Seq<char>, b: Seq<char>)
    ensures
        text_hash(a) == DefaultHasher::spec_finish(seq![vstd::utf8::encode_utf8(a)]),
        a != b ==> vstd::utf8::encode_utf8(a) != vstd::utf8::encode_utf8(b),
        a != b ==> seq![vstd::utf8::encode_utf8(a)] != seq![vstd::utf8::encode_utf8(b)],
{
    vstd::utf8::encode_utf8_decode_utf8(a);
    vstd::utf8::encode_utf8_decode_utf8(b);
    assert(seq![vstd::utf8::encode_utf8(a)][0] == vstd::utf8::encode_utf8(a));
    assert(seq![vstd::utf8::encode_utf8(b)][0] == vstd::utf8::encode_utf8(b));
}

/// The server has what is on disk: a text different from the last one sent at its URI is
/// sent with the next version, and never taken for the same, but where the hasher itself
/// gives one number for the bytes of both.
pub proof fn law_a_different_text_is_sent(
    docs: Map<Seq<char>, (i32, u64)>,
    uri: Seq<char>,
    was: Seq<char>,
    is: Seq<char>,
)
    requires
        DefaultHasher::spec_finish(seq![vstd::utf8::encode_utf8(was)])
            != DefaultHasher::spec_finish(seq![vstd::utf8::encode_utf8(is)]),
        docs.dom().contains(uri) ==> 0 < docs[uri].0 < i32::MAX - 1,
    ensures
        ({
            let sent = once_sent(docs, uri, text_hash(was));
            let again = once_sent(sent, uri, text_hash(is));
            &&& was != is
            &&& sent.dom().contains(uri)
            &&& can_send(sent, uri, text_hash(is))
            &&& to_send(sent, uri, text_hash(is)) == (DocSync::Change {
                version: (sent[uri].0 + 1) as i32,
            })
            &&& again[uri].0 == sent[uri].0 + 1
            &&& to_send(again, uri, text_hash(is)) == DocSync::Current
            &&& to_send(again, uri, text_hash(was)) == (DocSync::Change {
                version: (sent[uri].0 + 2) as i32,
            })
        }),
{
}

/// The first time a document is sent it is opened, with the first version; from then on
/// it is open.
pub proof fn law_the_first_time_a_document_is_opened(
    docs: Map<Seq<char>, (i32, u64)>,
    uri: Seq<char>,
    text: Seq<char>,
)
    requires
        !docs.dom().contains(uri),
    ensures
        to_send(docs, uri, text_hash(text)) == (DocSync::Open { version: 1 }),
        once_sent(docs, uri, text_hash(text)).dom() == docs.dom().insert(uri),
        once_sent(docs, uri, text_hash(text))[uri].0 == 1,
        can_send(docs, uri, text_hash(text)),
        to_send(once_sent(docs, uri, text_hash(text)), uri, text_hash(text)) == DocSync::Current,
{
    assert(once_sent(docs, uri, text_hash(text)).dom() =~= docs.dom().insert(uri));
}

/// Versions only run out in a document that changed and is at the last one.
pub proof fn law_when_versions_run_out(
    docs: Map<Seq<char>, (i32, u64)>,
    uri: Seq<char>,
    hash: u64,
)
    ensures
        !can_send(docs, uri, hash) <==> docs.dom().contains(uri) && docs[uri].0 == i32::MAX
            && docs[uri].1 != hash,
        forall|other: Seq<char>|
            other != uri ==> (once_sent(docs, uri, hash).dom().contains(other)
                <==> docs.dom().contains(other)) && #[trigger] once_sent(docs, uri, hash)[other]
                == docs[other],
{
}

/// What a file is called when it is opened: by what follows the last dot of its name,
/// whatever its directory and its stem.
pub proof fn law_a_file_is_opened_as_its_extension_says(
    system: System,
    dir: Seq<char>,
    c: char,
    stem: Seq<char>,
    ext: Seq<char>,
    file: &str,
    r: &'static str,
)
    requires
        call_ensures(language_id, (system, file), r),
        file@ == dir.push(c) + (stem.push('.') + ext) || file@ == stem.push('.') + ext,
        path::is_simple(system, dir),
        path::separates(system, c),
        path::is_piece(system, stem.push('.') + ext),
        stem.len() > 0,
        !ext.contains('.'),
        !(stem == seq!['.'] && ext.len() == 0),
    ensures
        ext == "tsx"@ ==> r@ == "typescriptreact"@,
        ext == "js"@ ==> r@ == "javascript"@,
        ext == "jsx"@ ==> r@ == "javascriptreact"@,
        ext == "rs"@ ==> r@ == "rust"@,
        ext == "py"@ ==> r@ == "python"@,
        ext == "java"@ ==> r@ == "java"@,
        ext != "tsx"@ && ext != "js"@ && ext != "jsx"@ && ext != "rs"@ && ext != "py"@ && ext
            != "java"@ ==> r@ == "typescript"@,
{
    path::law_an_extension_follows_the_last_dot(system, dir, c, stem, ext);
    reveal_strlit("tsx");
    reveal_strlit("js");
    reveal_strlit("jsx");
    reveal_strlit("rs");
    reveal_strlit("py");
    reveal_strlit("java");
    assert("tsx"@[0] == 't' && "js"@[0] == 'j' && "jsx"@[0] == 'j' && "rs"@[0] == 'r' && "py"@[0]
        == 'p' && "java"@[0] == 'j' && "js"@.len() == 2 && "jsx"@.len() == 3 && "java"@.len() == 4);
}

/// What comes of having a document as it is on disk: opened where it was not, nothing
/// where its hash is the one that was sent, and changed with the next version where it is
/// another; and that hash is the one kept.
pub proof fn law_what_comes_of_a_sync(
    d: &mut OpenDocuments,
    uri: &str,
    text: &str,
    r: DocSync,
)
    requires
        call_ensures(OpenDocuments::sync, (d, uri, text), r),
        old(d)@.dom().contains(uri@) ==> old(d)@[uri@].0 < i32::MAX,
    ensures
        ({
            let docs = old(d)@;
            let hash = DefaultHasher::spec_finish(seq![vstd::utf8::encode_utf8(text@)]);
            &&& !docs.dom().contains(uri@) ==> r == (DocSync::Open { version: 1 }) && final(d)@
                == docs.insert(uri@, (1i32, hash))
            &&& docs.dom().contains(uri@) && docs[uri@].1 == hash ==> r == DocSync::Current
                && final(d)@ == docs
            &&& docs.dom().contains(uri@) && docs[uri@].1 != hash ==> {
                &&& r is Change && r->Change_version == docs[uri@].0 + 1
                &&& final(d)@ == docs.insert(uri@, (r->Change_version, hash))
            }
        }),
{
}

/// What runs out of versions is not sent and not kept, and everything else is as if it had
/// been asked for without looking.
pub proof fn law_what_comes_of_a_guarded_sync(
    d: &mut OpenDocuments,
    uri: &str,
    text: &str,
    r: Option<DocSync>,
)
    requires
        call_ensures(OpenDocuments::try_sync, (d, uri, text), r),
    ensures
        ({
            let docs = old(d)@;
            let hash = DefaultHasher::spec_finish(seq![vstd::utf8::encode_utf8(text@)]);
            let out = docs.dom().contains(uri@) && docs[uri@].1 != hash && docs[uri@].0 == i32::MAX;
            &&& r is None <==> out
            &&& out ==> final(d)@ == docs
            &&& !out ==> final(d)@.dom() == docs.dom().insert(uri@) && final(d)@[uri@].1 == hash
        }),
{
    assert(!(old(d)@.dom().contains(uri@)) || old(d)@.dom().insert(uri@) =~= old(d)@.dom());
    assert(final(d)@.dom() =~= old(d)@.dom().insert(uri@) || r is None);
}

/// The documents that are open are listed, all of them and once each; and one that is
/// forgotten is not open any more, while the others stay as they were.
pub proof fn law_what_is_open_is_listed(
    open: OpenDocuments,
    listed: Vec<String>,
    d: &mut OpenDocuments,
    uri: &str,
    r: (),
    other: Seq<char>,
)
    requires
        call_ensures(OpenDocuments::uris, (&open,), listed),
        call_ensures(OpenDocuments::forget, (d, uri), r),
    ensures
        text::texts(listed@).no_duplicates(),
        text::texts(listed@).contains(other) <==> open@.dom().contains(other),
        !final(d)@.dom().contains(uri@),
        other != uri@ ==> (final(d)@.dom().contains(other) <==> old(d)@.dom().contains(other)),
        other != uri@ && old(d)@.dom().contains(other) ==> final(d)@[other] == old(d)@[other],
{
}

} // verus!
