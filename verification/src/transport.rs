//! How the daemon is reached, which is the one thing that changes with the
//! operating system.
//!
//! The route is derived: there is no flag, no variable and no file to say it.
//! Whoever listens and whoever calls compute it with the same rule.

use crate::path;
use crate::path::{join_path, segments_of, System};
use crate::text;
use crate::text::{cat, chars_of, join, write_number};
use vstd::prelude::*;
use vstd::string::*;

verus! {

/// Where the daemon listens, in the form it has on this system.
#[derive(Debug, Clone, PartialEq, Eq)]
pub enum Endpoint {
    /// A Unix socket, which is a file.
    Socket(String),
    /// A Windows named pipe, which is not.
    Pipe(String),
}

impl Endpoint {
    /// The text of an endpoint: the path of the socket or the name of the pipe.
    pub open spec fn text(self) -> Seq<char> {
        match self {
            Endpoint::Socket(p) => p@,
            Endpoint::Pipe(n) => n@,
        }
    }

    pub fn display(&self) -> (r: String)
        ensures
            r@ == self.text(),
    {
        match self {
            Endpoint::Socket(p) => p.clone(),
            Endpoint::Pipe(n) => n.clone(),
        }
    }

    /// The file to remove when the daemon ends, if the endpoint is one. A named
    /// pipe goes with its process; a socket stays on the disk.
    pub fn path(&self) -> (r: Option<&str>)
        ensures
            match *self {
                Endpoint::Socket(p) => r is Some && r->0@ == p@,
                Endpoint::Pipe(_) => r is None,
            },
    {
        match self {
            Endpoint::Socket(p) => Some(p.as_str()),
            Endpoint::Pipe(_) => None,
        }
    }
}

// ── the fingerprint ──────────────────────────────────────────────────────────

/// FNV-1a over 64 bits.
pub open spec fn fnv(bytes: Seq<u8>) -> u64
    decreases bytes.len(),
{
    if bytes.len() == 0 {
        0xcbf29ce484222325
    } else {
        (((fnv(bytes.drop_last()) ^ (bytes.last() as u64)) * 0x100000001b3)
            % 0x1_0000_0000_0000_0000) as u64
    }
}

/// The low 24 bits of the FNV-1a hash: six hexadecimal digits at most.
pub open spec fn fingerprint(bytes: Seq<u8>) -> u32 {
    (fnv(bytes) & 0xff_ffff) as u32
}

/// A 24 bit fingerprint of a path. It has to tell workspaces apart, not to
/// resist anyone.
pub fn huella(bytes: &[u8]) -> (r: u32)
    ensures
        r == fingerprint(bytes@),
        r < 0x100_0000,
{
    let mut h: u64 = 0xcbf29ce484222325;
    for i in 0..bytes.len()
        invariant
            h == fnv(bytes@.take(i as int)),
    {
        assert(bytes@.take(i + 1).drop_last() =~= bytes@.take(i as int));
        h = h ^ (bytes[i] as u64);
        h = h.wrapping_mul(0x100000001b3);
    }
    assert(bytes@.take(bytes@.len() as int) =~= bytes@);
    assert(h & 0xff_ffff < 0x100_0000) by (bit_vector);
    (h & 0xff_ffff) as u32
}

// ── the name of the door ─────────────────────────────────────────────────────

/// A segment that is not hidden.
pub open spec fn is_visible(segment: Seq<char>) -> bool {
    segment.len() > 0 && segment[0] != '.'
}

/// The segments a name is made of: the last two visible ones, the only one there
/// is, or `raiz` where there is none.
pub open spec fn name_parts(system: System, path: Seq<char>) -> Seq<Seq<char>> {
    let visible = path::segments(system, path).filter(|s: Seq<char>| is_visible(s));
    if visible.len() == 0 {
        seq!["raiz"@]
    } else if visible.len() == 1 {
        visible
    } else {
        visible.skip(visible.len() - 2)
    }
}

/// The character that stands for one of a path: ASCII letters in lower case,
/// digits as they are, and a dash for anything else.
pub open spec fn plain_char(c: char) -> char {
    if 'A' <= c <= 'Z' {
        (c as u32 + 32) as char
    } else if 'a' <= c <= 'z' || '0' <= c <= '9' {
        c
    } else {
        '-'
    }
}

/// How long the readable part of a name can be.
pub const READABLE: usize = 40;

/// The readable part of the name of a door.
pub open spec fn readable(system: System, path: Seq<char>) -> Seq<char> {
    let whole = text::joined(name_parts(system, path), "-"@).map_values(|c: char| plain_char(c));
    if whole.len() > READABLE {
        whole.take(READABLE as int)
    } else {
        whole
    }
}

/// The name of the door of a workspace: a readable part to look at, and the
/// fingerprint of its canonical path to tell it from the others.
pub open spec fn door_name(system: System, path: Seq<char>) -> Seq<char> {
    readable(system, path) + "-"@ + text::hexadecimal(fingerprint(vstd::utf8::encode_utf8(path)) as nat)
}

fn plain(c: char) -> (r: char)
    ensures
        r == plain_char(c),
{
    if 'A' <= c && c <= 'Z' {
        let u: u32 = c as u32 + 32;
        (u as u8) as char
    } else if ('a' <= c && c <= 'z') || ('0' <= c && c <= '9') {
        c
    } else {
        '-'
    }
}

fn visible_segments(system: System, path: &str) -> (r: Vec<String>)
    ensures
        text::texts(r@) == path::segments(system, path@).filter(|s: Seq<char>| is_visible(s)),
{
    let all = segments_of(system, path);
    let ghost keep = |s: Seq<char>| is_visible(s);
    let ghost names = text::texts(all@);
    let mut r: Vec<String> = Vec::new();
    assert(names.take(0).filter(keep) =~= Seq::empty()) by {
        reveal(Seq::filter);
    }
    for i in 0..all.len()
        invariant
            names == text::texts(all@),
            keep == (|s: Seq<char>| is_visible(s)),
            text::texts(r@) == names.take(i as int).filter(keep),
    {
        let s = &all[i];
        let ghost before = text::texts(r@);
        assert(names.take(i + 1).drop_last() =~= names.take(i as int));
        assert(names.take(i + 1).last() == s@);
        assert(names.take(i + 1).filter(keep) == if keep(s@) {
            before.push(s@)
        } else {
            before
        }) by {
            reveal(Seq::filter);
        }
        if !s.as_str().is_empty() && s.as_str().get_char(0) != '.' {
            r.push(s.clone());
            assert(text::texts(r@) =~= before.push(s@));
        }
    }
    assert(names.take(names.len() as int) =~= names);
    r
}

fn readable_of(system: System, path: &str) -> (r: String)
    ensures
        r@ == readable(system, path@),
{
    let visible = visible_segments(system, path);
    let n: usize = visible.len();
    let mut parts: Vec<String> = Vec::new();
    if n == 0 {
        parts.push("raiz".to_owned());
    } else {
        if n >= 2 {
            parts.push(visible[n - 2].clone());
        }
        parts.push(visible[n - 1].clone());
    }
    assert(text::texts(parts@) =~= name_parts(system, path@));
    let whole = chars_of(join(parts.as_slice(), "-").as_str());
    let ghost sanitized = whole@.map_values(|c: char| plain_char(c));
    let mut r = String::new();
    let mut i: usize = 0;
    while i < whole.len() && i < READABLE
        invariant
            i <= whole@.len(),
            i <= READABLE,
            sanitized == whole@.map_values(|c: char| plain_char(c)),
            r@ == sanitized.take(i as int),
        decreases whole@.len() - i,
    {
        r.push(plain(whole[i]));
        assert(sanitized.take(i + 1) =~= sanitized.take(i as int).push(sanitized[i as int]));
        i = i + 1;
    }
    assert(sanitized.take(whole@.len() as int) =~= sanitized);
    r
}

/// The name of the door of the workspace at this canonical path.
pub fn nombre(system: System, canonical: &str) -> (r: String)
    ensures
        r@ == door_name(system, canonical@),
{
    let h = huella(canonical.as_bytes());
    let mut r = readable_of(system, canonical);
    r.append("-");
    r.append(write_number(h as u64, 16).as_str());
    r
}

/// Where the daemon of the workspace at this canonical path listens: a socket in
/// the daemon's directory, or a pipe.
pub open spec fn endpoint_text(system: System, dir: Seq<char>, canonical: Seq<char>) -> Seq<char> {
    match system {
        System::Unix => path::joined_path(system, dir, door_name(system, canonical) + ".sock"@),
        System::Windows => "\\\\.\\pipe\\lspd-"@ + door_name(system, canonical),
    }
}

pub fn endpoint(system: System, dir: &str, canonical: &str) -> (r: Endpoint)
    ensures
        r.text() == endpoint_text(system, dir@, canonical@),
        r is Socket <==> system is Unix,
{
    let name = nombre(system, canonical);
    match system {
        System::Unix => Endpoint::Socket(join_path(system, dir, cat(name.as_str(), ".sock").as_str())),
        System::Windows => Endpoint::Pipe(cat("\\\\.\\pipe\\lspd-", name.as_str())),
    }
}

// ── what the names promise ───────────────────────────────────────────────────

proof fn lemma_six_digits(n: nat)
    requires
        n < 0x100_0000,
    ensures
        text::hexadecimal(n).len() <= 6,
{
    reveal_with_fuel(text::numeral, 7);
}

proof fn lemma_fingerprint_bound(bytes: Seq<u8>)
    ensures
        fingerprint(bytes) < 0x100_0000,
{
    let h = fnv(bytes);
    assert(h & 0xff_ffff < 0x100_0000) by (bit_vector);
}

proof fn lemma_visible_filter(system: System, path: Seq<char>)
    ensures
        forall|i: int|
            0 <= i < name_parts(system, path).len() ==> (#[trigger] name_parts(system, path)[i]).len() > 0,
        name_parts(system, path).len() > 0,
{
    reveal_strlit("raiz");
    let keep = |s: Seq<char>| is_visible(s);
    let visible = path::segments(system, path).filter(keep);
    path::segments(system, path).lemma_filter_len(keep);
    assert forall|i: int| 0 <= i < visible.len() implies (#[trigger] visible[i]).len() > 0 by {
        broadcast use vstd::seq_lib::group_seq_properties;
        assert(visible.contains(visible[i]));
        assert(keep(visible[i]));
    }
}

proof fn lemma_joined_nonempty(parts: Seq<Seq<char>>, sep: Seq<char>)
    requires
        parts.len() > 0,
        parts[parts.len() - 1].len() > 0,
    ensures
        text::joined(parts, sep).len() > 0,
{
}

/// The readable part is never empty, is at most [`READABLE`] bytes long, and
/// holds nothing but lower case letters, digits and dashes.
pub proof fn law_the_readable_part_is_plain(system: System, path: Seq<char>)
    ensures
        0 < readable(system, path).len() <= READABLE,
        forall|i: int|
            0 <= i < readable(system, path).len() ==> text::is_plain(#[trigger] readable(system, path)[i])
                || readable(system, path)[i] == '-',
{
    lemma_visible_filter(system, path);
    let parts = name_parts(system, path);
    assert(parts[parts.len() - 1].len() > 0);
    lemma_joined_nonempty(parts, "-"@);
}

/// The name of a door is short whatever the workspace is called, and is a plain
/// file name: its readable part, a dash and six digits at most. With `.sock` it
/// takes at most 52 bytes of the 108 that a socket's path can have.
pub proof fn law_a_name_fits(system: System, path: Seq<char>)
    ensures
        door_name(system, path).len() <= READABLE + 7,
        (door_name(system, path) + ".sock"@).len() <= 52,
        forall|i: int|
            0 <= i < door_name(system, path).len() ==> text::is_plain(#[trigger] door_name(system, path)[i])
                || door_name(system, path)[i] == '-',
{
    reveal_strlit("-");
    reveal_strlit(".sock");
    law_the_readable_part_is_plain(system, path);
    let bytes = vstd::utf8::encode_utf8(path);
    lemma_fingerprint_bound(bytes);
    lemma_six_digits(fingerprint(bytes) as nat);
    text::lemma_numeral_is_plain(fingerprint(bytes) as nat, 16);
    let hex = text::hexadecimal(fingerprint(bytes) as nat);
    let name = door_name(system, path);
    assert forall|i: int| 0 <= i < name.len() implies text::is_plain(#[trigger] name[i]) || name[i]
        == '-' by {
        let n = readable(system, path).len();
        if i < n {
            assert(name[i] == readable(system, path)[i]);
        } else if i > n {
            assert(name[i] == hex[i - n - 1]);
        }
    }
}

/// Two workspaces share a door only if their canonical paths have the same readable
/// part and the same fingerprint.
pub proof fn law_a_name_tells_its_parts(system: System, a: Seq<char>, b: Seq<char>)
    requires
        door_name(system, a) == door_name(system, b),
    ensures
        readable(system, a) == readable(system, b),
        fingerprint(vstd::utf8::encode_utf8(a)) == fingerprint(vstd::utf8::encode_utf8(b)),
{
    reveal_strlit("-");
    let fa = fingerprint(vstd::utf8::encode_utf8(a)) as nat;
    let fb = fingerprint(vstd::utf8::encode_utf8(b)) as nat;
    let ha = text::hexadecimal(fa);
    let hb = text::hexadecimal(fb);
    text::lemma_numeral_is_plain(fa, 16);
    text::lemma_numeral_is_plain(fb, 16);
    let name = door_name(system, a);
    // The dash before the digits is the last one of the name.
    assert(name[name.len() - ha.len() - 1] == '-');
    assert(door_name(system, b)[name.len() - hb.len() - 1] == '-');
    if ha.len() < hb.len() {
        assert(door_name(system, b)[name.len() - ha.len() - 1] == hb[hb.len() - ha.len() - 1]);
    } else if hb.len() < ha.len() {
        assert(name[name.len() - hb.len() - 1] == ha[ha.len() - hb.len() - 1]);
    }
    assert(ha =~= name.skip(name.len() - ha.len()));
    assert(hb =~= door_name(system, b).skip(name.len() - hb.len()));
    text::lemma_numeral_injective(fa, fb, 16);
    assert(readable(system, a) =~= name.take(name.len() - ha.len() - 1));
    assert(readable(system, b) =~= door_name(system, b).take(name.len() - hb.len() - 1));
}

/// One door per workspace: on one system and under one directory, two workspaces have
/// different endpoints, but where both their readable parts and their fingerprints
/// coincide.
pub proof fn law_two_workspaces_get_two_doors(
    system: System,
    dir: Seq<char>,
    a: Seq<char>,
    b: Seq<char>,
)
    requires
        readable(system, a) != readable(system, b) || fingerprint(vstd::utf8::encode_utf8(a)) != fingerprint(
            vstd::utf8::encode_utf8(b),
        ),
    ensures
        endpoint_text(system, dir, a) != endpoint_text(system, dir, b),
{
    if endpoint_text(system, dir, a) == endpoint_text(system, dir, b) {
        reveal_strlit("/");
        reveal_strlit("-");
        let na = door_name(system, a);
        let nb = door_name(system, b);
        law_a_name_fits(system, a);
        law_a_name_fits(system, b);
        text::lemma_numeral_is_plain(fingerprint(vstd::utf8::encode_utf8(a)) as nat, 16);
        text::lemma_numeral_is_plain(fingerprint(vstd::utf8::encode_utf8(b)) as nat, 16);
        assert(text::is_plain(na[0]) || na[0] == '-');
        assert(text::is_plain(nb[0]) || nb[0] == '-');
        let ea = endpoint_text(system, dir, a);
        let eb = endpoint_text(system, dir, b);
        match system {
            System::Unix => {
                let fa = na + ".sock"@;
                let fb = nb + ".sock"@;
                assert(fa[0] == na[0] && fb[0] == nb[0]);
                path::law_a_relative_path_hangs_from_its_base(system, dir, fa);
                path::law_a_relative_path_hangs_from_its_base(system, dir, fb);
                assert(fa =~= ea.skip(ea.len() - fa.len()));
                assert(fb =~= eb.skip(eb.len() - fb.len()));
                assert(fa.len() == fb.len());
                assert(na =~= fa.take(na.len() as int));
                assert(nb =~= fb.take(nb.len() as int));
            },
            System::Windows => {
                let head = "\\\\.\\pipe\\lspd-"@;
                assert(na =~= ea.skip(head.len() as int));
                assert(nb =~= eb.skip(head.len() as int));
            },
        }
        law_a_name_tells_its_parts(system, a, b);
    }
}

/// The socket of a daemon is in the daemon's directory: what follows the
/// directory is a plain file name, which holds no slash.
pub proof fn law_a_socket_is_in_the_directory(dir: Seq<char>, canonical: Seq<char>)
    ensures
        dir.is_prefix_of(endpoint_text(System::Unix, dir, canonical)),
        (door_name(System::Unix, canonical) + ".sock"@).is_suffix_of(
            endpoint_text(System::Unix, dir, canonical),
        ),
        !(door_name(System::Unix, canonical) + ".sock"@).contains('/'),
{
    let system = System::Unix;
    reveal_strlit(".sock");
    law_a_name_fits(system, canonical);
    law_the_readable_part_is_plain(system, canonical);
    let name = door_name(system, canonical);
    let file = name + ".sock"@;
    assert(name.len() > 0);
    assert(file[0] == name[0]);
    assert forall|i: int| 0 <= i < file.len() implies file[i] != '/' by {
        if i < name.len() {
            assert(file[i] == name[i]);
        } else {
            assert(file[i] == ".sock"@[i - name.len()]);
        }
    }
    path::law_a_relative_path_hangs_from_its_base(system, dir, file);
}

/// The character that stands for one of a path: a letter in lower case, a digit, and a
/// dash for anything else.
pub proof fn law_what_stands_for_a_character(c: char)
    ensures
        'a' <= c <= 'z' || '0' <= c <= '9' ==> plain_char(c) == c,
        'A' <= c <= 'Z' ==> plain_char(c) as u32 == c as u32 + 32,
        !('a' <= c <= 'z') && !('A' <= c <= 'Z') && !('0' <= c <= '9') ==> plain_char(c) == '-',
{
}

proof fn lemma_none_visible(segments: Seq<Seq<char>>)
    requires
        forall|i: int|
            0 <= i < segments.len() ==> (#[trigger] segments[i]).len() == 0 || segments[i][0]
                == '.',
    ensures
        segments.filter(|s: Seq<char>| is_visible(s)) == Seq::<Seq<char>>::empty(),
    decreases segments.len(),
{
    reveal(Seq::filter);
    if segments.len() > 0 {
        let rest = segments.drop_last();
        assert forall|i: int| 0 <= i < rest.len() implies (#[trigger] rest[i]).len() == 0
            || rest[i][0] == '.' by {
            assert(rest[i] == segments[i]);
        }
        lemma_none_visible(rest);
        assert(segments.last() == segments[segments.len() - 1]);
    }
}

/// The readable part of a name is made of the last two segments that are not hidden, in
/// their order and with a dash between them, and cut at forty characters: whatever the
/// segments before them, and whatever hidden ones are in between or behind.
pub proof fn law_a_name_is_of_the_last_two_segments(
    system: System,
    path: Seq<char>,
    before: Seq<Seq<char>>,
    a: Seq<char>,
    between: Seq<Seq<char>>,
    b: Seq<char>,
    behind: Seq<Seq<char>>,
)
    requires
        path::segments(system, path) == before.push(a) + between.push(b) + behind,
        a.len() > 0 && a[0] != '.',
        b.len() > 0 && b[0] != '.',
        forall|i: int|
            0 <= i < between.len() ==> (#[trigger] between[i]).len() == 0 || between[i][0] == '.',
        forall|i: int|
            0 <= i < behind.len() ==> (#[trigger] behind[i]).len() == 0 || behind[i][0] == '.',
    ensures
        ({
            let whole = a.map_values(|c: char| plain_char(c)) + seq!['-'] + b.map_values(
                |c: char| plain_char(c),
            );
            readable(system, path) == if whole.len() > 40 {
                whole.take(40)
            } else {
                whole
            }
        }),
{
    reveal_strlit("-");
    let keep = |s: Seq<char>| is_visible(s);
    let f = |c: char| plain_char(c);
    lemma_none_visible(between);
    lemma_none_visible(behind);
    assert(path::segments(system, path) =~= before + seq![a] + between + seq![b] + behind);
    Seq::filter_distributes_over_add(before + seq![a] + between + seq![b], behind, keep);
    Seq::filter_distributes_over_add(before + seq![a] + between, seq![b], keep);
    Seq::filter_distributes_over_add(before + seq![a], between, keep);
    Seq::filter_distributes_over_add(before, seq![a], keep);
    lemma_one_visible(a);
    lemma_one_visible(b);
    let visible = path::segments(system, path).filter(keep);
    assert(visible =~= before.filter(keep) + seq![a] + seq![b]);
    assert(name_parts(system, path) =~= seq![a, b]);
    assert(seq![a, b] =~= seq![a] + seq![b]);
    text::law_joining_puts_every_piece(seq![a], seq![b], a, "-"@);
    text::law_joining_puts_every_piece(seq![a], seq![b], b, "-"@);
    let joined = text::joined(name_parts(system, path), "-"@);
    let whole = a.map_values(f) + seq!['-'] + b.map_values(f);
    assert(joined =~= a + seq!['-'] + b);
    assert(joined.map_values(f) =~= whole);
}

proof fn lemma_one_visible(a: Seq<char>)
    requires
        a.len() > 0 && a[0] != '.',
    ensures
        seq![a].filter(|s: Seq<char>| is_visible(s)) == seq![a],
{
    reveal_with_fuel(Seq::filter, 2);
    assert(seq![a].drop_last() =~= Seq::empty());
    assert(seq![a].filter(|s: Seq<char>| is_visible(s)) =~= seq![a]);
}

/// Where only one segment is not hidden the readable part is that one, and where none is,
/// it says that it is the root.
pub proof fn law_a_name_of_few_segments(
    system: System,
    path: Seq<char>,
    before: Seq<Seq<char>>,
    a: Seq<char>,
    behind: Seq<Seq<char>>,
)
    requires
        a.len() > 0 && a[0] != '.',
        forall|i: int|
            0 <= i < before.len() ==> (#[trigger] before[i]).len() == 0 || before[i][0] == '.',
        forall|i: int|
            0 <= i < behind.len() ==> (#[trigger] behind[i]).len() == 0 || behind[i][0] == '.',
    ensures
        path::segments(system, path) == before.push(a) + behind ==> readable(system, path) == ({
            let whole = a.map_values(|c: char| plain_char(c));
            if whole.len() > 40 {
                whole.take(40)
            } else {
                whole
            }
        }),
        path::segments(system, path) == before ==> readable(system, path) == "raiz"@,
{
    let keep = |s: Seq<char>| is_visible(s);
    let f = |c: char| plain_char(c);
    lemma_none_visible(before);
    lemma_none_visible(behind);
    lemma_one_visible(a);
    assert(before.push(a) + behind =~= before + seq![a] + behind);
    Seq::filter_distributes_over_add(before + seq![a], behind, keep);
    Seq::filter_distributes_over_add(before, seq![a], keep);
    assert((before.push(a) + behind).filter(keep) =~= seq![a]);
    text::law_joining_puts_every_piece(seq![a], seq![a], a, "-"@);
    text::law_joining_puts_every_piece(seq![a], seq![a], "raiz"@, "-"@);
    reveal_strlit("raiz");
    assert("raiz"@.map_values(f) =~= "raiz"@);
}

/// The fingerprint is that of FNV-1a: it starts at the basis of its 64 bits, and each byte
/// is mixed in and multiplied by the prime.
pub proof fn law_each_byte_counts(bytes: Seq<u8>, b: u8)
    ensures
        fnv(Seq::empty()) == 0xcbf29ce484222325,
        fnv(bytes.push(b)) == ((fnv(bytes) ^ (b as u64)) * 0x100000001b3)
            % 0x1_0000_0000_0000_0000,
        fingerprint(bytes) == fnv(bytes) % 0x100_0000,
{
    assert(bytes.push(b).drop_last() =~= bytes);
    let h = fnv(bytes);
    assert(h & 0xff_ffff == h % 0x100_0000) by (bit_vector);
}

proof fn lemma_step(x: u64, y: u64, p: u64, q: u64)
    requires
        p == (x * 0x100000001b3) % 0x1_0000_0000_0000_0000,
        q == (y * 0x100000001b3) % 0x1_0000_0000_0000_0000,
        x & 0xff_ffff != y & 0xff_ffff,
    ensures
        p & 0xff_ffff != q & 0xff_ffff,
{
    assert(x & 0xff_ffff == x % 0x100_0000) by (bit_vector);
    assert(y & 0xff_ffff == y % 0x100_0000) by (bit_vector);
    assert(p & 0xff_ffff == p % 0x100_0000) by (bit_vector);
    assert(q & 0xff_ffff == q % 0x100_0000) by (bit_vector);
    if p % 0x100_0000 == q % 0x100_0000 {
        let d = x % 0x100_0000 - y % 0x100_0000;
        let m: int = 0x100_0000;
        let a: int = x * 0x100000001b3;
        let b: int = y * 0x100000001b3;
        let xa = x as int / m;
        let ya = y as int / m;
        let pa = p as int / m;
        let qa = q as int / m;
        let aw = a / 0x1_0000_0000_0000_0000;
        let bw = b / 0x1_0000_0000_0000_0000;
        assert(x == xa * m + x % 0x100_0000);
        assert(y == ya * m + y % 0x100_0000);
        assert(p == pa * m + p % 0x100_0000);
        assert(q == qa * m + q % 0x100_0000);
        assert(a == aw * 0x1_0000_0000_0000_0000 + p);
        assert(b == bw * 0x1_0000_0000_0000_0000 + q);
        // The prime is 65536 times the modulus and 435.
        let t: int = (aw - bw) * 0x100_0000_0000 + (pa - qa) - (xa - ya) * 0x100000001b3 - d
            * 0x10000;
        assert(d * 435 == t * m);
        // 435 has an inverse.
        assert(d == m * (t * 16160123 - d * 419));
        assert(d == 0);
    }
}

/// Two paths that differ in one byte, whichever it is, have different fingerprints.
pub proof fn law_one_byte_makes_another_fingerprint(
    before: Seq<u8>,
    a: u8,
    b: u8,
    after: Seq<u8>,
)
    requires
        a != b,
    ensures
        fingerprint(before.push(a) + after) != fingerprint(before.push(b) + after),
    decreases after.len(),
{
    let pa = before.push(a) + after;
    let pb = before.push(b) + after;
    let (ha, hb, ca, cb) = if after.len() == 0 {
        assert(pa =~= before.push(a));
        assert(pb =~= before.push(b));
        let h = fnv(before);
        assert((h ^ (a as u64)) & 0xff_ffff != (h ^ (b as u64)) & 0xff_ffff) by (bit_vector)
            requires
                a != b,
        ;
        law_each_byte_counts(before, a);
        law_each_byte_counts(before, b);
        (h, h, a, b)
    } else {
        let rest = after.drop_last();
        let c = after.last();
        law_one_byte_makes_another_fingerprint(before, a, b, rest);
        assert(pa =~= (before.push(a) + rest).push(c));
        assert(pb =~= (before.push(b) + rest).push(c));
        let ha = fnv(before.push(a) + rest);
        let hb = fnv(before.push(b) + rest);
        assert(ha & 0xff_ffff < 0x100_0000) by (bit_vector);
        assert(hb & 0xff_ffff < 0x100_0000) by (bit_vector);
        assert((ha ^ (c as u64)) & 0xff_ffff != (hb ^ (c as u64)) & 0xff_ffff) by (bit_vector)
            requires
                ha & 0xff_ffff != hb & 0xff_ffff,
        ;
        law_each_byte_counts(before.push(a) + rest, c);
        law_each_byte_counts(before.push(b) + rest, c);
        (ha, hb, c, c)
    };
    lemma_step(ha ^ (ca as u64), hb ^ (cb as u64), fnv(pa), fnv(pb));
    lemma_fingerprint_bound(pa);
    lemma_fingerprint_bound(pb);
    let fa = fnv(pa);
    let fb = fnv(pb);
    assert(fa & 0xff_ffff < 0x100_0000) by (bit_vector);
    assert(fb & 0xff_ffff < 0x100_0000) by (bit_vector);
}

/// The name of a door has the readable part of its path and, behind a dash, the
/// fingerprint of the whole of it in hexadecimal.
pub proof fn law_a_name_is_read_and_told_apart(system: System, canonical: &str, r: String)
    requires
        call_ensures(nombre, (system, canonical), r),
    ensures
        r@ == readable(system, canonical@) + seq!['-'] + text::hexadecimal(
            fingerprint(vstd::utf8::encode_utf8(canonical@)) as nat,
        ),
{
    reveal_strlit("-");
    assert("-"@ =~= seq!['-']);
}

/// Where a daemon listens: on Unix at a socket in its directory, with the name of the door
/// of its workspace, and on Windows at a pipe of that name.
pub proof fn law_where_a_daemon_listens(
    system: System,
    dir: &str,
    canonical: &str,
    r: Endpoint,
)
    requires
        call_ensures(endpoint, (system, dir, canonical), r),
    ensures
        system is Unix <==> r is Socket,
        system is Windows ==> r.text() == "\\\\.\\pipe\\lspd-"@ + door_name(system, canonical@),
        system is Unix && dir@.len() > 0 && dir@.last() != '/' ==> r.text() == dir@.push('/') + (
        door_name(system, canonical@) + ".sock"@),
{
    reveal_strlit(".sock");
    law_a_name_fits(System::Unix, canonical@);
    law_the_readable_part_is_plain(System::Unix, canonical@);
    let name = door_name(System::Unix, canonical@);
    assert(text::is_plain(name[0]) || name[0] == '-');
    assert((name + ".sock"@)[0] == name[0]);
    path::law_a_path_is_put_after_its_base(dir@, name + ".sock"@);
}

/// An endpoint is shown by its own text, and only a socket leaves a file to remove.
pub proof fn law_only_a_socket_is_a_file(e: Endpoint, shown: String, file: Option<&str>)
    requires
        call_ensures(Endpoint::display, (&e,), shown),
        call_ensures(Endpoint::path, (&e,), file),
    ensures
        match e {
            Endpoint::Socket(p) => shown@ == p@ && file is Some && file->0@ == p@,
            Endpoint::Pipe(n) => shown@ == n@ && file is None,
        },
{
}

/// The fingerprint that is taken of two paths that differ in one byte is not the same.
pub proof fn law_fingerprints_are_told_apart(
    before: Seq<u8>,
    a: u8,
    b: u8,
    after: Seq<u8>,
    one: &[u8],
    other: &[u8],
    r: u32,
    s: u32,
)
    requires
        call_ensures(huella, (one,), r),
        call_ensures(huella, (other,), s),
        one@ == before.push(a) + after,
        other@ == before.push(b) + after,
        a != b,
    ensures
        r != s,
        r < 0x100_0000,
{
    law_one_byte_makes_another_fingerprint(before, a, b, after);
}

} // verus!
