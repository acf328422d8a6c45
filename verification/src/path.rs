//! Paths as text, read the way the system they are of reads them.
//!
//! On Unix the segments stand between slashes, and a path that starts with one starts
//! at the root. On Windows a back slash separates too, and in front of the root there
//! can be a prefix: a drive (`C:`), a share (`\\server\share`), a device (`\\.\COM1`),
//! or what follows `\\?\`, behind which the path is taken to the letter.

use crate::text;
use crate::text::{cat, chars_of, join, same, split_on, string_of};
use vstd::prelude::*;
use vstd::string::*;

verus! {

/// The two families of operating system a daemon runs on.
#[derive(Debug, Clone, Copy, PartialEq, Eq, Structural)]
pub enum System {
    Unix,
    Windows,
}

// ── the prefix and the root ──────────────────────────────────────────────────

pub open spec fn is_sep(system: System, c: char) -> bool {
    c == '/' || (system is Windows && c == '\\')
}

/// The separator that a path is written with.
pub open spec fn main_sep(system: System) -> char {
    match system {
        System::Unix => '/',
        System::Windows => '\\',
    }
}

/// Whether a path is to be taken to the letter: on Windows, behind `\\?\` a slash
/// separates nothing and a dot is a segment.
pub open spec fn is_verbatim(system: System, p: Seq<char>) -> bool {
    system is Windows && p.len() >= 4 && p[0] == '\\' && p[1] == '\\' && p[2] == '?' && p[3] == '\\'
}

/// The separator in the stead of any other that the system knows.
pub open spec fn level(system: System, c: char) -> char {
    if system is Windows && c == '/' {
        '\\'
    } else {
        c
    }
}

/// A path with one separator only, unless it is to be taken to the letter.
pub open spec fn leveled(system: System, p: Seq<char>) -> Seq<char> {
    if is_verbatim(system, p) {
        p
    } else {
        p.map_values(|c: char| level(system, c))
    }
}

/// Where the piece that starts here ends: at the next back slash, or with the path.
pub open spec fn piece_end(p: Seq<char>, from: int) -> int
    decreases p.len() - from,
{
    if from >= p.len() || p[from] == '\\' {
        from
    } else {
        piece_end(p, from + 1)
    }
}

/// Where a server and its share end; where the server ends, if there is no share.
pub open spec fn share_end(p: Seq<char>, from: int) -> int {
    let server = piece_end(p, from);
    if server < p.len() && piece_end(p, server + 1) > server + 1 {
        piece_end(p, server + 1)
    } else {
        server
    }
}

/// Whether a drive stands here: a letter and a colon.
pub open spec fn has_drive(p: Seq<char>, at: int) -> bool {
    p.len() >= at + 2 && ('a' <= p[at] <= 'z' || 'A' <= p[at] <= 'Z') && p[at + 1] == ':'
}

/// Where the prefix of a path ends: zero where it has none.
pub open spec fn prefix_end(system: System, p: Seq<char>) -> int {
    let q = leveled(system, p);
    if system is Unix {
        0
    } else if is_verbatim(system, p) {
        if q.len() >= 8 && q[4] == 'U' && q[5] == 'N' && q[6] == 'C' && is_sep(system, q[7]) {
            share_end(q, 8)
        } else if has_drive(q, 4) && (q.len() == 6 || is_sep(system, q[6])) {
            6
        } else {
            piece_end(q, 4)
        }
    } else if q.len() >= 2 && q[0] == '\\' && q[1] == '\\' {
        if q.len() >= 4 && q[2] == '.' && q[3] == '\\' {
            piece_end(q, 4)
        } else if piece_end(q, 2) > 2 && share_end(q, 2) > piece_end(q, 2) {
            share_end(q, 2)
        } else {
            0
        }
    } else if has_drive(q, 0) {
        2
    } else {
        0
    }
}

/// Whether the prefix of a path is a drive and nothing more: the one that says where
/// to start only if a root follows it.
pub open spec fn is_on_drive(system: System, p: Seq<char>) -> bool {
    prefix_end(system, p) == 2
}

/// Whether a separator follows the prefix.
pub open spec fn is_rooted(system: System, p: Seq<char>) -> bool {
    p.len() > prefix_end(system, p) && is_sep(system, p[prefix_end(system, p)])
}

/// Whether a path says by itself where it is. On Windows that takes a prefix, and
/// behind a drive also a root.
pub open spec fn is_absolute(system: System, p: Seq<char>) -> bool {
    match system {
        System::Unix => is_rooted(system, p),
        System::Windows => prefix_end(system, p) > 0 && (is_rooted(system, p) || !is_on_drive(
            system,
            p,
        )),
    }
}

// ── the segments ─────────────────────────────────────────────────────────────

/// Whether a piece between separators is a segment: an empty one is not, nor is `.`,
/// unless the path is to be taken to the letter.
pub open spec fn is_step(piece: Seq<char>, verbatim: bool) -> bool {
    piece.len() > 0 && (verbatim || piece != "."@)
}

/// What follows the prefix and the root.
pub open spec fn body(system: System, p: Seq<char>) -> Seq<char> {
    if is_rooted(system, p) {
        leveled(system, p).skip(prefix_end(system, p) + 1)
    } else {
        leveled(system, p).skip(prefix_end(system, p))
    }
}

/// The segments of a path.
pub open spec fn segments(system: System, p: Seq<char>) -> Seq<Seq<char>> {
    text::split(body(system, p), main_sep(system)).filter(
        |s: Seq<char>| is_step(s, is_verbatim(system, p)),
    )
}

/// Whether a segment is a name: neither `.` nor `..`.
pub open spec fn is_name(segment: Seq<char>) -> bool {
    segment != "."@ && segment != ".."@
}

/// The last segment, if the path ends in one and it is a name.
pub open spec fn file_name(system: System, p: Seq<char>) -> Option<Seq<char>> {
    let s = segments(system, p);
    if s.len() == 0 || !is_name(s.last()) {
        None
    } else {
        Some(s.last())
    }
}

/// Where the last `.` of a name is, or -1.
pub open spec fn last_dot(name: Seq<char>) -> int
    decreases name.len(),
{
    if name.len() == 0 {
        -1
    } else if name.last() == '.' {
        name.len() - 1
    } else {
        last_dot(name.drop_last())
    }
}

/// What follows the last dot of the file name, unless the name has no dot or
/// only a leading one.
pub open spec fn extension(system: System, p: Seq<char>) -> Option<Seq<char>> {
    match file_name(system, p) {
        Some(name) => if last_dot(name) <= 0 {
            None
        } else {
            Some(name.skip(last_dot(name) + 1))
        },
        None => None,
    }
}

/// What precedes the last dot of the file name; the whole name if it has no dot
/// or only a leading one.
pub open spec fn file_stem(system: System, p: Seq<char>) -> Option<Seq<char>> {
    match file_name(system, p) {
        Some(name) => if last_dot(name) <= 0 {
            Some(name)
        } else {
            Some(name.take(last_dot(name)))
        },
        None => None,
    }
}

// ── joining ──────────────────────────────────────────────────────────────────

/// Where these steps lead from these segments: `..` goes back over a name, and stays
/// where there is none.
pub open spec fn walked(from: Seq<Seq<char>>, steps: Seq<Seq<char>>) -> Seq<Seq<char>>
    decreases steps.len(),
{
    if steps.len() == 0 {
        from
    } else {
        let before = walked(from, steps.drop_last());
        if steps.last() != ".."@ {
            before.push(steps.last())
        } else if before.len() > 0 && is_name(before.last()) {
            before.drop_last()
        } else {
            before
        }
    }
}

/// `path` seen from a base that is taken to the letter: it is walked, since in such a
/// path `..` would lead nowhere.
pub open spec fn walked_path(base: Seq<char>, path: Seq<char>) -> Seq<char> {
    let w = System::Windows;
    let from = if is_rooted(w, path) {
        Seq::empty()
    } else {
        segments(w, base)
    };
    let all = walked(from, segments(w, path));
    let head = base.take(prefix_end(w, base));
    if is_rooted(w, base) || is_rooted(w, path) || all.len() > 0 {
        head.push('\\') + text::joined(all, "\\"@)
    } else {
        head
    }
}

/// `path` seen from `base`: one that is absolute, or has a prefix, is itself; one that
/// only has a root is put behind the prefix of `base`; and any other hangs from `base`,
/// with one separator in between.
pub open spec fn joined_path(system: System, base: Seq<char>, path: Seq<char>) -> Seq<char> {
    if is_absolute(system, path) || prefix_end(system, path) > 0 {
        path
    } else if is_verbatim(system, base) && path.len() > 0 {
        walked_path(base, path)
    } else if is_rooted(system, path) {
        base.take(prefix_end(system, base)) + path
    } else if base.len() == 0 || is_sep(system, base.last()) || (is_on_drive(system, base)
        && base.len() == 2) {
        base + path
    } else {
        base.push(main_sep(system)) + path
    }
}

// ── the same, computed ───────────────────────────────────────────────────────

fn sep(system: System, c: char) -> (r: bool)
    ensures
        r == is_sep(system, c),
{
    match system {
        System::Unix => c == '/',
        System::Windows => c == '/' || c == '\\',
    }
}

fn verbatim(system: System, p: &[char]) -> (r: bool)
    ensures
        r == is_verbatim(system, p@),
{
    match system {
        System::Unix => false,
        System::Windows => p.len() >= 4 && p[0] == '\\' && p[1] == '\\' && p[2] == '?' && p[3]
            == '\\',
    }
}

fn leveled_of(system: System, p: &[char]) -> (r: Vec<char>)
    ensures
        r@ == leveled(system, p@),
{
    let letter = verbatim(system, p);
    let mut r: Vec<char> = Vec::new();
    for i in 0..p.len()
        invariant
            letter == is_verbatim(system, p@),
            r@.len() == i,
            forall|j: int|
                0 <= j < i ==> #[trigger] r@[j] == if letter {
                    p@[j]
                } else {
                    level(system, p@[j])
                },
    {
        let c = p[i];
        match system {
            System::Unix => r.push(c),
            System::Windows => r.push(
                if !letter && c == '/' {
                    '\\'
                } else {
                    c
                },
            ),
        }
    }
    assert(r@ =~= leveled(system, p@));
    r
}

fn piece_end_of(p: &[char], from: usize) -> (r: usize)
    requires
        from <= p@.len(),
    ensures
        r == piece_end(p@, from as int),
        from <= r <= p@.len(),
{
    let mut i: usize = from;
    while i < p.len() && p[i] != '\\'
        invariant
            from <= i <= p@.len(),
            piece_end(p@, from as int) == piece_end(p@, i as int),
        decreases p@.len() - i,
    {
        i = i + 1;
    }
    i
}

fn share_end_of(p: &[char], from: usize) -> (r: usize)
    requires
        from <= p@.len(),
    ensures
        r == share_end(p@, from as int),
        from <= r <= p@.len(),
{
    let server: usize = piece_end_of(p, from);
    if server < p.len() {
        let share: usize = piece_end_of(p, server + 1);
        if share > server + 1 {
            return share;
        }
    }
    server
}

fn drive_at(p: &[char], at: usize) -> (r: bool)
    requires
        at <= 4,
    ensures
        r == has_drive(p@, at as int),
{
    p.len() >= at + 2 && (('a' <= p[at] && p[at] <= 'z') || ('A' <= p[at] && p[at] <= 'Z')) && p[at
        + 1] == ':'
}

fn prefix_of(system: System, p: &[char]) -> (r: usize)
    ensures
        r == prefix_end(system, p@),
        r <= p@.len(),
{
    match system {
        System::Unix => 0,
        System::Windows => {
            let level = leveled_of(system, p);
            let q = level.as_slice();
            if verbatim(system, p) {
                if q.len() >= 8 && q[4] == 'U' && q[5] == 'N' && q[6] == 'C' && sep(system, q[7]) {
                    share_end_of(q, 8)
                } else if drive_at(q, 4) && (q.len() == 6 || sep(system, q[6])) {
                    6
                } else {
                    piece_end_of(q, 4)
                }
            } else if q.len() >= 2 && q[0] == '\\' && q[1] == '\\' {
                if q.len() >= 4 && q[2] == '.' && q[3] == '\\' {
                    piece_end_of(q, 4)
                } else {
                    let server: usize = piece_end_of(q, 2);
                    let share: usize = share_end_of(q, 2);
                    if server > 2 && share > server {
                        share
                    } else {
                        0
                    }
                }
            } else if drive_at(q, 0) {
                2
            } else {
                0
            }
        },
    }
}

fn rooted(system: System, p: &[char]) -> (r: bool)
    ensures
        r == is_rooted(system, p@),
{
    let at: usize = prefix_of(system, p);
    at < p.len() && sep(system, p[at])
}

/// Whether a path says by itself where it is.
pub fn absolute(system: System, path: &str) -> (r: bool)
    ensures
        r == is_absolute(system, path@),
{
    let chars = chars_of(path);
    let p = chars.as_slice();
    match system {
        System::Unix => rooted(system, p),
        System::Windows => {
            let prefix: usize = prefix_of(system, p);
            prefix > 0 && (prefix != 2 || rooted(system, p))
        },
    }
}

/// The segments of a path.
pub fn segments_of(system: System, path: &str) -> (r: Vec<String>)
    ensures
        text::texts(r@) == segments(system, path@),
{
    let chars = chars_of(path);
    let letter = verbatim(system, chars.as_slice());
    let level = leveled_of(system, chars.as_slice());
    let mut from: usize = prefix_of(system, chars.as_slice());
    if rooted(system, chars.as_slice()) {
        from = from + 1;
    }
    let rest = string_of(level.as_slice(), from, level.len());
    assert(rest@ =~= body(system, path@));
    let pieces = match system {
        System::Unix => split_on(rest.as_str(), '/'),
        System::Windows => split_on(rest.as_str(), '\\'),
    };
    let ghost step = |p: Seq<char>| is_step(p, is_verbatim(system, path@));
    let ghost all = text::texts(pieces@);
    let mut r: Vec<String> = Vec::new();
    assert(all.take(0).filter(step) =~= Seq::empty()) by {
        reveal(Seq::filter);
    }
    for i in 0..pieces.len()
        invariant
            letter == is_verbatim(system, path@),
            all == text::texts(pieces@),
            step == (|p: Seq<char>| is_step(p, is_verbatim(system, path@))),
            text::texts(r@) == all.take(i as int).filter(step),
    {
        let p = &pieces[i];
        let ghost before = text::texts(r@);
        assert(all.take(i + 1).drop_last() =~= all.take(i as int));
        assert(all.take(i + 1).last() == p@);
        assert(all.take(i + 1).filter(step) == if step(p@) {
            before.push(p@)
        } else {
            before
        }) by {
            reveal(Seq::filter);
        }
        if !p.as_str().is_empty() && (letter || !same(p.as_str(), ".")) {
            r.push(p.clone());
            assert(text::texts(r@) =~= before.push(p@));
        }
    }
    assert(all.take(all.len() as int) =~= all);
    r
}

fn named(segment: &str) -> (r: bool)
    ensures
        r == is_name(segment@),
{
    !same(segment, ".") && !same(segment, "..")
}

/// The last segment of a path, if it names a file or a directory.
pub fn file_name_of(system: System, path: &str) -> (r: Option<String>)
    ensures
        text::opt_text(r) == file_name(system, path@),
{
    let s = segments_of(system, path);
    if s.len() == 0 {
        return None;
    }
    let n: usize = s.len() - 1;
    assert(text::texts(s@)[n as int] == s@[n as int]@);
    if named(s[n].as_str()) {
        Some(s[n].clone())
    } else {
        None
    }
}

/// The last dot of a name and what surrounds it: the stem and, where there is
/// one, the extension.
fn around_dot(name: &str) -> (r: (String, Option<String>))
    ensures
        last_dot(name@) <= 0 ==> r.0@ == name@ && r.1 is None,
        last_dot(name@) > 0 ==> r.0@ == name@.take(last_dot(name@)) && r.1 is Some
            && r.1->0@ == name@.skip(last_dot(name@) + 1),
{
    let chars = chars_of(name);
    let n: usize = chars.len();
    let mut i: usize = n;
    assert(name@.take(n as int) =~= name@);
    while i > 0 && chars[i - 1] != '.'
        invariant
            i <= n,
            n == chars@.len(),
            chars@ == name@,
            last_dot(name@) == last_dot(name@.take(i as int)),
        decreases i,
    {
        assert(name@.take(i as int).drop_last() =~= name@.take(i - 1));
        i = i - 1;
    }
    if i <= 1 {
        (name.to_owned(), None)
    } else {
        assert(chars@.subrange(0, i - 1) =~= name@.take(i - 1));
        assert(chars@.subrange(i as int, n as int) =~= name@.skip(i as int));
        (string_of(chars.as_slice(), 0, i - 1), Some(string_of(chars.as_slice(), i, n)))
    }
}

pub fn extension_of(system: System, path: &str) -> (r: Option<String>)
    ensures
        text::opt_text(r) == extension(system, path@),
{
    match file_name_of(system, path) {
        Some(name) => around_dot(name.as_str()).1,
        None => None,
    }
}

pub fn file_stem_of(system: System, path: &str) -> (r: Option<String>)
    ensures
        text::opt_text(r) == file_stem(system, path@),
{
    match file_name_of(system, path) {
        Some(name) => Some(around_dot(name.as_str()).0),
        None => None,
    }
}

fn walk(from: Vec<String>, steps: &[String]) -> (r: Vec<String>)
    ensures
        text::texts(r@) == walked(text::texts(from@), text::texts(steps@)),
{
    let ghost start = text::texts(from@);
    let ghost all = text::texts(steps@);
    let mut r = from;
    assert(all.take(0) =~= Seq::empty());
    for i in 0..steps.len()
        invariant
            all == text::texts(steps@),
            text::texts(r@) == walked(start, all.take(i as int)),
    {
        let ghost before = text::texts(r@);
        assert(all.take(i + 1).drop_last() =~= all.take(i as int));
        assert(all[i as int] == steps@[i as int]@);
        if !same(steps[i].as_str(), "..") {
            r.push(steps[i].clone());
            assert(text::texts(r@) =~= before.push(all[i as int]));
        } else if r.len() > 0 {
            let n: usize = r.len() - 1;
            assert(before[n as int] == r@[n as int]@);
            if named(r[n].as_str()) {
                let _last = r.pop();
                assert(text::texts(r@) =~= before.drop_last());
            }
        }
    }
    assert(all.take(all.len() as int) =~= all);
    r
}

fn walk_path(base: &str, path: &str) -> (r: String)
    ensures
        r@ == walked_path(base@, path@),
{
    let w = System::Windows;
    let b = chars_of(base);
    let p = chars_of(path);
    let from: Vec<String> = if rooted(w, p.as_slice()) {
        Vec::new()
    } else {
        segments_of(w, base)
    };
    assert(is_rooted(w, path@) ==> text::texts(from@) =~= Seq::empty());
    let steps = segments_of(w, path);
    let all = walk(from, steps.as_slice());
    let prefix: usize = prefix_of(w, b.as_slice());
    let mut head = string_of(b.as_slice(), 0, prefix);
    assert(head@ =~= base@.take(prefix_end(w, base@)));
    if rooted(w, b.as_slice()) || rooted(w, p.as_slice()) || all.len() > 0 {
        head.push('\\');
        head.append(join(all.as_slice(), "\\").as_str());
    }
    head
}

/// `path` seen from `base`.
pub fn join_path(system: System, base: &str, path: &str) -> (r: String)
    ensures
        r@ == joined_path(system, base@, path@),
{
    let b = chars_of(base);
    let p = chars_of(path);
    if absolute(system, path) || prefix_of(system, p.as_slice()) > 0 {
        return path.to_owned();
    }
    if verbatim(system, b.as_slice()) && p.len() > 0 {
        return walk_path(base, path);
    }
    let prefix: usize = prefix_of(system, b.as_slice());
    if rooted(system, p.as_slice()) {
        let head = string_of(b.as_slice(), 0, prefix);
        assert(head@ =~= base@.take(prefix as int));
        return cat(head.as_str(), path);
    }
    if b.len() == 0 || sep(system, b[b.len() - 1]) || (prefix == 2 && b.len() == 2) {
        return cat(base, path);
    }
    let mut r = base.to_owned();
    match system {
        System::Unix => r.push('/'),
        System::Windows => r.push('\\'),
    }
    r.append(path);
    r
}

// ── what paths promise ───────────────────────────────────────────────────────

/// What a relative path joins to is under its base: the base is a prefix of it,
/// and a separator or nothing follows the base before the path itself. A base that is
/// taken to the letter is left out: from it the path is walked.
pub proof fn law_a_relative_path_hangs_from_its_base(
    system: System,
    base: Seq<char>,
    path: Seq<char>,
)
    requires
        prefix_end(system, path) == 0,
        !is_rooted(system, path),
        !is_verbatim(system, base),
    ensures
        base.is_prefix_of(joined_path(system, base, path)),
        path.is_suffix_of(joined_path(system, base, path)),
        joined_path(system, base, path).len() <= base.len() + 1 + path.len(),
{
    let j = joined_path(system, base, path);
    assert(j.take(base.len() as int) =~= base);
    assert(j.skip(j.len() - path.len()) =~= path);
}

/// A path that says by itself where it is, is itself from anywhere.
pub proof fn law_an_absolute_path_is_itself(system: System, base: Seq<char>, path: Seq<char>)
    requires
        is_absolute(system, path),
    ensures
        joined_path(system, base, path) == path,
{
}

/// A drive is no segment: what follows its root is read like any other path.
pub proof fn law_a_drive_is_no_segment(drive: char, rest: Seq<char>)
    requires
        'a' <= drive <= 'z' || 'A' <= drive <= 'Z',
        !rest.contains('/'),
    ensures
        ({
            let p = seq![drive, ':', '\\'] + rest;
            &&& is_absolute(System::Windows, p)
            &&& segments(System::Windows, p) == text::split(rest, '\\').filter(
                |s: Seq<char>| is_step(s, false),
            )
        }),
{
    let w = System::Windows;
    let p = seq![drive, ':', '\\'] + rest;
    assert(p[0] == drive && p[1] == ':' && p[2] == '\\');
    assert forall|i: int| 0 <= i < p.len() implies level(w, #[trigger] p[i]) == p[i] by {
        if i >= 3 {
            assert(p[i] == rest[i - 3]);
        }
    }
    assert(leveled(w, p) =~= p);
    assert(prefix_end(w, p) == 2);
    assert(body(w, p) =~= rest);
    assert((|s: Seq<char>| is_step(s, is_verbatim(w, p))) =~= (|s: Seq<char>| is_step(s, false)));
}

/// Whether this can stand before a separator without becoming the start of another
/// prefix: on Windows, two separators in front make one.
pub open spec fn is_simple(system: System, dir: Seq<char>) -> bool {
    match system {
        System::Unix => true,
        System::Windows => {
            &&& !(dir.len() == 1 && (dir[0] == '/' || dir[0] == '\\'))
            &&& !(dir.len() >= 2 && (dir[0] == '/' || dir[0] == '\\') && (dir[1] == '/' || dir[1]
                == '\\'))
        },
    }
}

/// Whether a text has no character that separates, nor a drive in front: what stands
/// between two separators.
pub open spec fn is_piece(system: System, x: Seq<char>) -> bool {
    &&& !x.contains('/')
    &&& system is Windows ==> {
        &&& !x.contains('\\')
        &&& !(x.len() >= 2 && x[1] == ':')
    }
}

/// A separator of a system: a slash, and on Windows a back slash too.
pub open spec fn separates(system: System, c: char) -> bool {
    c == '/' || (system is Windows && c == '\\')
}

/// A piece as the segment that it is: an empty one is none, nor is a dot.
pub open spec fn as_segment(x: Seq<char>) -> Seq<Seq<char>> {
    if x.len() == 0 || x == seq!['.'] {
        seq![]
    } else {
        seq![x]
    }
}

proof fn lemma_simple_prefix(system: System, p: Seq<char>)
    requires
        p.len() >= 2 ==> !(separates(System::Windows, p[0]) && separates(System::Windows, p[1]))
            || system is Unix,
    ensures
        !is_verbatim(system, p),
        prefix_end(system, p) == if system is Windows && p.len() >= 2 && ('a' <= p[0] <= 'z' || 'A'
            <= p[0] <= 'Z') && p[1] == ':' {
            2int
        } else {
            0
        },
{
    if system is Windows && p.len() >= 2 {
        assert(leveled(system, p)[0] == level(system, p[0]));
        assert(leveled(system, p)[1] == level(system, p[1]));
    }
}

proof fn lemma_pieces(system: System, p: Seq<char>, c: char, x: Seq<char>)
    requires
        separates(system, c),
        !is_verbatim(system, p),
        !is_verbatim(system, p.push(c) + x),
        prefix_end(system, p.push(c) + x) == prefix_end(system, p),
        0 <= prefix_end(system, p) <= p.len(),
        !x.contains('/'),
        system is Windows ==> !x.contains('\\'),
    ensures
        segments(system, p.push(c) + x) == segments(system, p) + as_segment(x),
{
    reveal_strlit(".");
    let q = p.push(c) + x;
    let m = main_sep(system);
    let k = prefix_end(system, p);
    let keep = |s: Seq<char>| is_step(s, is_verbatim(system, p));
    let keep_q = |s: Seq<char>| is_step(s, is_verbatim(system, q));
    assert(keep =~= keep_q);
    assert forall|i: int| 0 <= i < x.len() implies level(system, #[trigger] x[i]) == x[i] by {
        assert(x.contains(x[i]));
    }
    assert(leveled(system, q) =~= leveled(system, p).push(m) + x) by {
        assert forall|i: int| 0 <= i < q.len() implies leveled(system, q)[i] == (leveled(
            system,
            p,
        ).push(m) + x)[i] by {
            if i > p.len() {
                assert(q[i] == x[i - p.len() - 1]);
            } else if i < p.len() {
                assert(q[i] == p[i]);
            }
        }
    }
    assert(!x.contains(m));
    text::law_a_text_is_split_at_each_separator(x, m, Seq::empty());
    let last = seq![x];
    assert(last.filter(keep) =~= as_segment(x)) by {
        reveal_with_fuel(Seq::filter, 2);
        assert(last.drop_last() =~= Seq::empty());
        assert("."@ =~= seq!['.']);
    }
    if p.len() == k {
        assert(q[k] == c);
        assert(body(system, q) =~= x);
        assert(body(system, p) =~= Seq::empty());
        let none = Seq::<char>::empty();
        text::law_a_text_is_split_at_each_separator(none, m, none);
        assert(seq![none].filter(keep) =~= Seq::empty()) by {
            reveal_with_fuel(Seq::filter, 2);
            assert(seq![none].drop_last() =~= Seq::empty());
        }
        assert(segments(system, p) =~= Seq::empty());
        assert(segments(system, q) =~= segments(system, p) + as_segment(x));
    } else {
        assert(q[k] == p[k]);
        assert(body(system, q) =~= body(system, p).push(m) + x);
        text::law_a_text_is_split_at_each_separator(body(system, p), m, x);
        Seq::filter_distributes_over_add(text::split(body(system, p), m), last, keep);
    }
}

/// The segments of a path stand between its separators, each one of them and in their
/// order; between two that touch there is none, and a dot is none either.
pub proof fn law_segments_stand_between_separators(
    system: System,
    dir: Seq<char>,
    c: char,
    x: Seq<char>,
)
    requires
        is_simple(system, dir),
        separates(system, c),
        is_piece(system, x),
    ensures
        segments(system, dir.push(c) + x) == segments(system, dir) + as_segment(x),
        segments(system, x) == as_segment(x),
        segments(system, Seq::<char>::empty()) == Seq::<Seq<char>>::empty(),
{
    let q = dir.push(c) + x;
    if dir.len() >= 1 {
        assert(q[0] == dir[0]);
        if dir.len() >= 2 {
            assert(q[1] == dir[1]);
        } else {
            assert(q[1] == c);
        }
    } else {
        assert(q[0] == c);
        if x.len() > 0 {
            assert(q[1] == x[0]);
            assert(x.contains(x[0]));
        }
    }
    lemma_simple_prefix(system, dir);
    lemma_simple_prefix(system, q);
    lemma_pieces(system, dir, c, x);
    let none = Seq::<char>::empty();
    lemma_simple_prefix(system, none);
    lemma_bare(system, x);
    lemma_bare(system, none);
}

proof fn lemma_bare(system: System, x: Seq<char>)
    requires
        is_piece(system, x),
    ensures
        segments(system, x) == as_segment(x),
{
    reveal_strlit(".");
    assert("."@ =~= seq!['.']);
    let m = main_sep(system);
    if x.len() > 0 {
        assert(x.contains(x[0]));
    }
    lemma_simple_prefix(system, x);
    assert forall|i: int| 0 <= i < x.len() implies level(system, #[trigger] x[i]) == x[i] by {
        assert(x.contains(x[i]));
    }
    assert(leveled(system, x) =~= x);
    assert(body(system, x) =~= x);
    text::law_a_text_is_split_at_each_separator(x, m, Seq::empty());
    let keep = |s: Seq<char>| is_step(s, is_verbatim(system, x));
    assert(seq![x].filter(keep) =~= as_segment(x)) by {
        reveal_with_fuel(Seq::filter, 2);
        assert(seq![x].drop_last() =~= Seq::empty());
    }
}

/// The name of a file is what follows the last separator of its path, whatever the
/// directory. A separator behind it does not count, and `..` is no name.
pub proof fn law_a_file_name_is_the_last_segment(
    system: System,
    dir: Seq<char>,
    c: char,
    name: Seq<char>,
)
    requires
        is_simple(system, dir),
        separates(system, c),
        is_piece(system, name),
        name.len() > 0,
        name != seq!['.'],
    ensures
        ({
            let said = if name == seq!['.', '.'] {
                None
            } else {
                Some(name)
            };
            &&& file_name(system, dir.push(c) + name) == said
            &&& file_name(system, (dir.push(c) + name).push(c)) == said
            &&& file_name(system, name) == said
            &&& file_name(system, Seq::<char>::empty()) is None
        }),
{
    reveal_strlit(".");
    reveal_strlit("..");
    assert("."@ =~= seq!['.']);
    assert(".."@ =~= seq!['.', '.']);
    law_segments_stand_between_separators(system, dir, c, name);
    let p = dir.push(c) + name;
    assert(segments(system, p).last() == name);
    assert(segments(system, name).last() == name);
    let none = Seq::<char>::empty();
    assert(name.contains(name[0]));
    assert(p.len() >= 2);
    assert(is_simple(system, p)) by {
        if system is Windows {
            assert(p[0] == if dir.len() > 0 {
                dir[0]
            } else {
                c
            });
            assert(p[1] == if dir.len() > 1 {
                dir[1]
            } else if dir.len() == 1 {
                c
            } else {
                name[0]
            });
        }
    }
    law_segments_stand_between_separators(system, p, c, none);
    assert(p.push(c) + none =~= p.push(c));
    assert(segments(system, p.push(c)) =~= segments(system, p));
}

proof fn lemma_last_dot(stem: Seq<char>, ext: Seq<char>)
    requires
        !ext.contains('.'),
    ensures
        last_dot(stem.push('.') + ext) == stem.len(),
        last_dot(ext) == -1,
    decreases ext.len(),
{
    let name = stem.push('.') + ext;
    if ext.len() == 0 {
        assert(name.last() == '.');
    } else {
        let shorter = ext.drop_last();
        assert(!shorter.contains('.')) by {
            if shorter.contains('.') {
                let i = choose|i: int| 0 <= i < shorter.len() && shorter[i] == '.';
                assert(ext[i] == '.');
            }
        }
        assert(ext.contains(ext.last()));
        lemma_last_dot(stem, shorter);
        assert(name.drop_last() =~= stem.push('.') + shorter);
        assert(name.last() == ext.last());
    }
}

/// The extension of a file is what follows the last dot of its name, and its stem is
/// what precedes it: whatever the directory, and with dots in the stem or not.
pub proof fn law_an_extension_follows_the_last_dot(
    system: System,
    dir: Seq<char>,
    c: char,
    stem: Seq<char>,
    ext: Seq<char>,
)
    requires
        is_simple(system, dir),
        separates(system, c),
        is_piece(system, stem.push('.') + ext),
        stem.len() > 0,
        !ext.contains('.'),
        !(stem == seq!['.'] && ext.len() == 0),
    ensures
        ({
            let name = stem.push('.') + ext;
            &&& extension(system, dir.push(c) + name) == Some(ext)
            &&& file_stem(system, dir.push(c) + name) == Some(stem)
            &&& extension(system, name) == Some(ext)
            &&& file_stem(system, name) == Some(stem)
        }),
{
    let name = stem.push('.') + ext;
    assert(name != seq!['.']);
    if name == seq!['.', '.'] {
        assert(ext.len() <= 1);
        if ext.len() == 1 {
            assert(name[2 - 1] == ext[0] || stem.len() == 1);
            assert(name.len() == stem.len() + 1 + ext.len());
        }
        assert(stem =~= seq!['.']);
    }
    law_a_file_name_is_the_last_segment(system, dir, c, name);
    lemma_last_dot(stem, ext);
    assert(name.skip(stem.len() as int + 1) =~= ext);
    assert(name.take(stem.len() as int) =~= stem);
}

/// A name without a dot has no extension, nor has one whose only dot is in front: the
/// whole of it is the stem.
pub proof fn law_a_name_without_a_dot_has_no_extension(
    system: System,
    dir: Seq<char>,
    c: char,
    name: Seq<char>,
)
    requires
        is_simple(system, dir),
        separates(system, c),
        is_piece(system, name),
        is_piece(system, seq!['.'] + name),
        name.len() > 0,
        !name.contains('.'),
    ensures
        extension(system, dir.push(c) + name) is None,
        file_stem(system, dir.push(c) + name) == Some(name),
        extension(system, dir.push(c) + (seq!['.'] + name)) is None,
        file_stem(system, dir.push(c) + (seq!['.'] + name)) == Some(seq!['.'] + name),
{
    let hidden = seq!['.'] + name;
    assert(name.contains(name[0]));
    assert(hidden[1] == name[0]);
    law_a_file_name_is_the_last_segment(system, dir, c, name);
    law_a_file_name_is_the_last_segment(system, dir, c, hidden);
    lemma_last_dot(Seq::empty(), name);
    assert(Seq::<char>::empty().push('.') + name =~= hidden);
}

/// On Unix a path is absolute if it starts with a slash. On Windows it is so with a
/// drive and a root, with a share, or behind `\\.\` and `\\?\`; a drive alone or a root
/// alone do not say where it is.
pub proof fn law_what_makes_a_path_absolute(
    p: Seq<char>,
    drive: char,
    c: char,
    server: Seq<char>,
    share: Seq<char>,
    rest: Seq<char>,
)
    requires
        'a' <= drive <= 'z' || 'A' <= drive <= 'Z',
        c == '/' || c == '\\',
        server.len() > 0,
        share.len() > 0,
        !server.contains('/') && !server.contains('\\'),
        share[0] != '/' && share[0] != '\\',
    ensures
        is_absolute(System::Unix, p) <==> p.len() > 0 && p[0] == '/',
        is_absolute(System::Windows, seq![drive, ':', c] + rest),
        !(rest.len() > 0 && separates(System::Windows, rest[0])) ==> !is_absolute(
            System::Windows,
            seq![drive, ':'] + rest,
        ),
        !(rest.len() > 0 && separates(System::Windows, rest[0])) ==> !is_absolute(
            System::Windows,
            seq![c] + rest,
        ),
        is_simple(System::Windows, p) && !(p.len() >= 2 && p[1] == ':') ==> !is_absolute(
            System::Windows,
            p,
        ),
        is_absolute(System::Windows, seq![c, c] + server.push(c) + share),
        !is_absolute(System::Windows, seq![c, c] + server),
        is_absolute(System::Windows, seq!['\\', '\\', '?', '\\'] + rest),
        is_absolute(System::Windows, seq!['\\', '\\', '.', '\\'] + rest),
{
    let w = System::Windows;
    let a = seq![drive, ':', c] + rest;
    assert(a[0] == drive && a[1] == ':' && a[2] == c);
    lemma_simple_prefix(w, a);
    let b = seq![drive, ':'] + rest;
    assert(b[0] == drive && b[1] == ':');
    lemma_simple_prefix(w, b);
    if rest.len() > 0 {
        assert(b[2] == rest[0]);
    }
    let d = seq![c] + rest;
    assert(d[0] == c);
    if rest.len() > 0 {
        assert(d[1] == rest[0]);
    }
    if !(rest.len() > 0 && separates(w, rest[0])) {
        lemma_simple_prefix(w, d);
    }
    if is_simple(w, p) {
        lemma_simple_prefix(w, p);
    }
    let v = seq!['\\', '\\', '?', '\\'] + rest;
    assert(v[0] == '\\' && v[1] == '\\' && v[2] == '?' && v[3] == '\\');
    lemma_piece_end(v, 4);
    lemma_piece_end(v, 8);
    lemma_piece_end(v, piece_end(v, 8) + 1);
    let dev = seq!['\\', '\\', '.', '\\'] + rest;
    assert(dev[0] == '\\' && dev[1] == '\\' && dev[2] == '.' && dev[3] == '\\');
    let dl = leveled(w, dev);
    assert(dl[0] == '\\' && dl[1] == '\\' && dl[2] == '.' && dl[3] == '\\');
    lemma_piece_end(dl, 4);
    lemma_shares(c, server, share);
}

proof fn lemma_piece_end(p: Seq<char>, from: int)
    requires
        0 <= from,
    ensures
        piece_end(p, from) >= from,
        from <= p.len() ==> piece_end(p, from) <= p.len(),
        piece_end(p, from) < p.len() ==> p[piece_end(p, from)] == '\\',
        forall|i: int| from <= i < piece_end(p, from) ==> p[i] != '\\',
    decreases p.len() - from,
{
    if from < p.len() && p[from] != '\\' {
        lemma_piece_end(p, from + 1);
    }
}

proof fn lemma_shares(c: char, server: Seq<char>, share: Seq<char>)
    requires
        c == '/' || c == '\\',
        server.len() > 0,
        share.len() > 0,
        !server.contains('/') && !server.contains('\\'),
        share[0] != '/' && share[0] != '\\',
    ensures
        is_absolute(System::Windows, seq![c, c] + server.push(c) + share),
        !is_absolute(System::Windows, seq![c, c] + server),
{
    let w = System::Windows;
    let p = seq![c, c] + server.push(c) + share;
    let n = server.len() as int;
    assert(p[0] == c && p[1] == c && p[2] == server[0]);
    assert(server.contains(server[0]));
    assert(p[n + 2] == c && p[n + 3] == share[0]);
    let q = leveled(w, p);
    lemma_piece_end(q, 2);
    if !is_verbatim(w, p) {
        assert(q[2] == level(w, server[0]));
        assert(q[n + 2] == '\\' && q[n + 3] == share[0]);
        assert forall|i: int| 2 <= i < n + 2 implies q[i] != '\\' by {
            assert(p[i] == server[i - 2]);
            assert(server.contains(server[i - 2]));
        }
        assert(piece_end(q, 2) == n + 2);
        lemma_piece_end(q, n + 3);
        assert(piece_end(q, n + 3) > n + 3);
        lemma_piece_end(q, 4);
    } else {
        lemma_piece_end(q, 4);
        lemma_piece_end(q, 8);
        lemma_piece_end(q, piece_end(q, 8) + 1);
    }
    let s = seq![c, c] + server;
    assert(s[0] == c && s[1] == c && s[2] == server[0]);
    if s.len() >= 4 {
        assert(s[3] == server[1]);
        assert(server.contains(server[1]));
    }
    let sl = leveled(w, s);
    assert forall|i: int| 2 <= i < sl.len() implies sl[i] != '\\' by {
        assert(s[i] == server[i - 2]);
        assert(server.contains(server[i - 2]));
    }
    lemma_piece_end(sl, 2);
    assert(piece_end(sl, 2) == sl.len());
    assert(prefix_end(w, s) == 0);
}

/// A path seen from a base: one that is absolute is itself, and any other comes after
/// the base and one separator, which is not put where there is one already.
pub proof fn law_a_path_is_put_after_its_base(base: Seq<char>, path: Seq<char>)
    ensures
        joined_path(System::Unix, base, path) == if path.len() > 0 && path[0] == '/' {
            path
        } else if base.len() == 0 || base.last() == '/' {
            base + path
        } else {
            base.push('/') + path
        },
        is_simple(System::Windows, base) && is_simple(System::Windows, path) && !(path.len() > 0
            && separates(System::Windows, path[0])) ==> joined_path(System::Windows, base, path)
            == if path.len() >= 2 && ('a' <= path[0] <= 'z' || 'A' <= path[0] <= 'Z') && path[1]
            == ':' {
            path
        } else if base.len() == 0 || separates(System::Windows, base.last()) || (base.len() == 2
            && ('a' <= base[0] <= 'z' || 'A' <= base[0] <= 'Z') && base[1] == ':') {
            base + path
        } else {
            base.push('\\') + path
        },
{
    if is_simple(System::Windows, base) && is_simple(System::Windows, path) {
        lemma_simple_prefix(System::Windows, base);
        lemma_simple_prefix(System::Windows, path);
    }
}

/// On Windows a path that has a root and no drive is on the drive of its base.
pub proof fn law_a_root_is_of_the_drive_of_its_base(
    drive: char,
    base: Seq<char>,
    path: Seq<char>,
)
    requires
        'a' <= drive <= 'z' || 'A' <= drive <= 'Z',
        path.len() > 0 && separates(System::Windows, path[0]),
        is_simple(System::Windows, path) || path.len() == 1,
    ensures
        joined_path(System::Windows, seq![drive, ':'] + base, path) == seq![drive, ':'] + path,
{
    let w = System::Windows;
    let b = seq![drive, ':'] + base;
    assert(b[0] == drive && b[1] == ':');
    lemma_simple_prefix(w, b);
    lemma_simple_prefix(w, path);
    assert(b.take(2) =~= seq![drive, ':']);
}

/// What is walked from segments: a name goes down, and `..` goes back over the name
/// before it, and nowhere where there is none.
pub proof fn law_two_dots_go_back(
    from: Seq<Seq<char>>,
    steps: Seq<Seq<char>>,
    name: Seq<char>,
)
    requires
        name != seq!['.'],
        name != seq!['.', '.'],
    ensures
        walked(from, Seq::empty()) == from,
        walked(from, steps.push(name)) == walked(from, steps).push(name),
        walked(from, steps.push(name).push(seq!['.', '.'])) == walked(from, steps),
        walked(Seq::empty(), seq![seq!['.', '.']]) == Seq::<Seq<char>>::empty(),
{
    reveal_strlit(".");
    reveal_strlit("..");
    assert("."@ =~= seq!['.']);
    assert(".."@ =~= seq!['.', '.']);
    let down = steps.push(name);
    assert(down.drop_last() =~= steps);
    let back = down.push(seq!['.', '.']);
    assert(back.drop_last() =~= down);
    assert(walked(from, down).drop_last() =~= walked(from, steps));
    let up = seq![seq!['.', '.']];
    assert(up.drop_last() =~= Seq::empty());
    reveal_with_fuel(walked, 2);
}

/// Behind `\\?\` a path is taken to the letter: only the back slash separates, and a dot
/// is a segment like any other. What is joined to it comes as one more segment.
pub proof fn law_a_path_is_taken_to_the_letter(drive: char, rest: Seq<char>, x: Seq<char>)
    requires
        'a' <= drive <= 'z' || 'A' <= drive <= 'Z',
        !x.contains('\\'),
        x.len() > 0,
    ensures
        ({
            let w = System::Windows;
            let head = seq!['\\', '\\', '?', '\\', drive, ':', '\\'];
            &&& segments(w, head + rest.push('\\') + x) == segments(w, head + rest).push(x)
            &&& segments(w, head + x) == seq![x]
            &&& is_piece(w, x) && x != seq!['.'] && x != seq!['.', '.'] ==> joined_path(
                w,
                head + rest,
                x,
            ) == head + text::joined(segments(w, head + rest).push(x), seq!['\\'])
        }),
{
    reveal_strlit("\\");
    assert("\\"@ =~= seq!['\\']);
    let w = System::Windows;
    let head = seq!['\\', '\\', '?', '\\', drive, ':', '\\'];
    let p = head + rest;
    let q = head + rest.push('\\') + x;
    lemma_letter(drive, rest);
    lemma_letter(drive, rest.push('\\') + x);
    lemma_letter(drive, x);
    assert(q =~= head + (rest.push('\\') + x));
    let keep = |s: Seq<char>| is_step(s, true);
    text::law_a_text_is_split_at_each_separator(rest, '\\', x);
    text::law_a_text_is_split_at_each_separator(x, '\\', Seq::empty());
    assert(seq![x].filter(keep) =~= seq![x]) by {
        reveal_with_fuel(Seq::filter, 2);
        assert(seq![x].drop_last() =~= Seq::empty());
    }
    Seq::filter_distributes_over_add(text::split(rest, '\\'), seq![x], keep);
    assert(segments(w, q) =~= segments(w, p).push(x));
    if is_piece(w, x) && x != seq!['.'] && x != seq!['.', '.'] {
        assert(x.contains(x[0]));
        lemma_simple_prefix(w, x);
        lemma_bare(w, x);
        law_two_dots_go_back(segments(w, p), Seq::empty(), x);
        assert(Seq::<Seq<char>>::empty().push(x) =~= seq![x]);
        assert(p.take(6).push('\\') =~= head);
    }
}

proof fn lemma_letter(drive: char, rest: Seq<char>)
    requires
        'a' <= drive <= 'z' || 'A' <= drive <= 'Z',
    ensures
        ({
            let w = System::Windows;
            let p = seq!['\\', '\\', '?', '\\', drive, ':', '\\'] + rest;
            &&& is_verbatim(w, p)
            &&& prefix_end(w, p) == 6
            &&& is_rooted(w, p)
            &&& segments(w, p) == text::split(rest, '\\').filter(|s: Seq<char>| is_step(s, true))
        }),
{
    let w = System::Windows;
    let p = seq!['\\', '\\', '?', '\\', drive, ':', '\\'] + rest;
    assert(p[0] == '\\' && p[1] == '\\' && p[2] == '?' && p[3] == '\\' && p[4] == drive && p[5]
        == ':' && p[6] == '\\');
    assert(body(w, p) =~= rest);
    assert((|s: Seq<char>| is_step(s, is_verbatim(w, p))) =~= (|s: Seq<char>| is_step(s, true)));
}

/// What is read of a file by its path, whatever its directory: its name, its extension and
/// its stem.
pub proof fn law_a_file_is_read_by_its_path(
    system: System,
    dir: Seq<char>,
    c: char,
    stem: Seq<char>,
    ext: Seq<char>,
    p: &str,
    name: Option<String>,
    extension_said: Option<String>,
    stem_said: Option<String>,
)
    requires
        call_ensures(file_name_of, (system, p), name),
        call_ensures(extension_of, (system, p), extension_said),
        call_ensures(file_stem_of, (system, p), stem_said),
        p@ == dir.push(c) + (stem.push('.') + ext),
        is_simple(system, dir),
        separates(system, c),
        is_piece(system, stem.push('.') + ext),
        stem.len() > 0,
        !ext.contains('.'),
        !(stem == seq!['.'] && ext.len() == 0),
    ensures
        name is Some && name->0@ == stem.push('.') + ext,
        extension_said is Some && extension_said->0@ == ext,
        stem_said is Some && stem_said->0@ == stem,
{
    law_an_extension_follows_the_last_dot(system, dir, c, stem, ext);
    let whole = stem.push('.') + ext;
    if whole == seq!['.', '.'] {
        assert(whole.len() == stem.len() + 1 + ext.len());
        assert(stem =~= seq!['.']);
    }
    law_a_file_name_is_the_last_segment(system, dir, c, whole);
}

/// What is joined on Unix, and what is absolute there.
pub proof fn law_a_path_is_joined_to_its_base(
    base: &str,
    path: &str,
    whole: String,
    is_whole: bool,
    pieces: Vec<String>,
    dir: Seq<char>,
    x: Seq<char>,
)
    requires
        call_ensures(join_path, (System::Unix, base, path), whole),
        call_ensures(absolute, (System::Unix, path), is_whole),
        call_ensures(segments_of, (System::Unix, path), pieces),
    ensures
        is_whole <==> path@.len() > 0 && path@[0] == '/',
        is_whole ==> whole@ == path@,
        !is_whole && base@.len() > 0 && base@.last() != '/' ==> whole@ == base@.push('/') + path@,
        !is_whole && (base@.len() == 0 || base@.last() == '/') ==> whole@ == base@ + path@,
        path@ == dir.push('/') + x && !x.contains('/') && x.len() > 0 && x != seq!['.']
            ==> text::texts(pieces@) == segments(System::Unix, dir).push(x),
{
    law_a_path_is_put_after_its_base(base@, path@);
    law_what_makes_a_path_absolute(path@, 'a', '/', seq!['a'], seq!['a'], path@);
    if path@ == dir.push('/') + x && !x.contains('/') && x.len() > 0 && x != seq!['.'] {
        law_segments_stand_between_separators(System::Unix, dir, '/', x);
        assert(segments(System::Unix, dir) + seq![x] =~= segments(System::Unix, dir).push(x));
    }
}

proof fn lemma_name_by_segments(system: System, p: Seq<char>, stem: Seq<char>, ext: Seq<char>)
    requires
        segments(system, p).len() > 0,
        segments(system, p).last() == stem.push('.') + ext,
        stem.len() > 0,
        !ext.contains('.'),
        !(stem == seq!['.'] && ext.len() == 0),
    ensures
        file_name(system, p) == Some(stem.push('.') + ext),
        extension(system, p) == Some(ext),
        file_stem(system, p) == Some(stem),
{
    reveal_strlit(".");
    reveal_strlit("..");
    assert("."@ =~= seq!['.']);
    assert(".."@ =~= seq!['.', '.']);
    let name = stem.push('.') + ext;
    assert(name.len() == stem.len() + 1 + ext.len());
    if name == seq!['.', '.'] {
        assert(stem =~= seq!['.']);
    }
    lemma_last_dot(stem, ext);
    assert(name.skip(stem.len() as int + 1) =~= ext);
    assert(name.take(stem.len() as int) =~= stem);
}

proof fn lemma_share_prefix(c: char, server: Seq<char>, share: Seq<char>, tail: Seq<char>)
    requires
        c == '/' || c == '\\',
        server.len() > 0,
        share.len() > 0,
        is_piece(System::Unix, server) && !server.contains('\\'),
        is_piece(System::Unix, share) && !share.contains('\\'),
        server != seq!['?'],
        tail.len() > 0 ==> separates(System::Windows, tail[0]),
    ensures
        ({
            let p = seq![c, c] + server.push(c) + share + tail;
            &&& !is_verbatim(System::Windows, p)
            &&& prefix_end(System::Windows, p) == server.len() + share.len() + 3
        }),
{
    let w = System::Windows;
    let p = seq![c, c] + server.push(c) + share + tail;
    let n = server.len() as int;
    let e = n + share.len() + 3;
    assert(p[0] == c && p[1] == c && p[2] == server[0]);
    assert(server.contains(server[0]));
    assert(p[n + 2] == c);
    if n > 1 {
        assert(p[3] == server[1]);
        assert(server.contains(server[1]));
    }
    if is_verbatim(w, p) {
        assert(server =~= seq!['?']);
    }
    let q = leveled(w, p);
    assert forall|i: int| 2 <= i < n + 2 implies q[i] != '\\' by {
        assert(p[i] == server[i - 2]);
        assert(server.contains(server[i - 2]));
    }
    assert(q[n + 2] == '\\');
    assert forall|i: int| n + 3 <= i < e implies q[i] != '\\' by {
        assert(p[i] == share[i - n - 3]);
        assert(share.contains(share[i - n - 3]));
    }
    if tail.len() > 0 {
        assert(p[e] == tail[0]);
        assert(q[e] == '\\');
    }
    lemma_piece_end(q, 2);
    assert(piece_end(q, 2) == n + 2);
    lemma_piece_end(q, n + 3);
    assert(piece_end(q, n + 3) == e);
    if n == 1 {
        assert(p[3] == c);
    }
}

/// On Windows a file of a share and one behind `\\?\` are read by their names too: the
/// extension follows the last dot, and the stem precedes it.
pub proof fn law_a_file_of_a_share_has_its_extension(
    c: char,
    server: Seq<char>,
    share: Seq<char>,
    tail: Seq<char>,
    drive: char,
    rest: Seq<char>,
    stem: Seq<char>,
    ext: Seq<char>,
)
    requires
        c == '/' || c == '\\',
        server.len() > 0,
        share.len() > 0,
        is_piece(System::Unix, server) && !server.contains('\\'),
        is_piece(System::Unix, share) && !share.contains('\\'),
        server != seq!['?'],
        tail.len() > 0 ==> separates(System::Windows, tail[0]),
        'a' <= drive <= 'z' || 'A' <= drive <= 'Z',
        is_piece(System::Windows, stem.push('.') + ext),
        stem.len() > 0,
        !ext.contains('.'),
        !(stem == seq!['.'] && ext.len() == 0),
    ensures
        ({
            let w = System::Windows;
            let name = stem.push('.') + ext;
            let shared = seq![c, c] + server.push(c) + share + tail.push(c) + name;
            let letter = seq!['\\', '\\', '?', '\\', drive, ':', '\\'] + rest.push('\\') + name;
            &&& extension(w, shared) == Some(ext) && file_stem(w, shared) == Some(stem)
            &&& extension(w, letter) == Some(ext) && file_stem(w, letter) == Some(stem)
        }),
{
    let w = System::Windows;
    let name = stem.push('.') + ext;
    let dir = seq![c, c] + server.push(c) + share + tail;
    let shared = seq![c, c] + server.push(c) + share + tail.push(c) + name;
    lemma_share_prefix(c, server, share, tail);
    lemma_share_prefix(c, server, share, tail.push(c) + name);
    assert(shared =~= seq![c, c] + server.push(c) + share + (tail.push(c) + name));
    assert(shared =~= dir.push(c) + name);
    lemma_pieces(w, dir, c, name);
    assert(name.len() >= 2);
    assert(segments(w, shared).last() == name);
    lemma_name_by_segments(w, shared, stem, ext);
    law_a_path_is_taken_to_the_letter(drive, rest, name);
    let letter = seq!['\\', '\\', '?', '\\', drive, ':', '\\'] + rest.push('\\') + name;
    lemma_name_by_segments(w, letter, stem, ext);
}

} // verus!
