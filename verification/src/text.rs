//! Text: the handful of operations on strings that the rest of the crate is
//! written with, each over the sequence of characters it holds.

use vstd::prelude::*;
use vstd::string::*;

verus! {

/// std's `String::push`: the string grows by that one character, at its end.
pub assume_specification[ String::push ](s: &mut String, c: char)
    ensures
        final(s)@ == old(s)@.push(c),
;

/// The characters of each string of a list.
pub open spec fn texts(v: Seq<String>) -> Seq<Seq<char>> {
    v.map_values(|s: String| s@)
}

/// The characters of each string slice of a list.
pub open spec fn strs(v: Seq<&str>) -> Seq<Seq<char>> {
    v.map_values(|s: &str| s@)
}

/// The characters of an optional string.
pub open spec fn opt_text(s: Option<String>) -> Option<Seq<char>> {
    match s {
        Some(t) => Some(t@),
        None => None,
    }
}

pub fn same(a: &str, b: &str) -> (r: bool)
    ensures
        r == (a@ == b@),
{
    a.to_owned().eq(&b.to_owned())
}

/// Whether a list holds this text.
pub fn has(list: &[String], s: &str) -> (r: bool)
    ensures
        r == texts(list@).contains(s@),
{
    for i in 0..list.len()
        invariant
            forall|j: int| 0 <= j < i ==> texts(list@)[j] != s@,
    {
        if same(list[i].as_str(), s) {
            assert(texts(list@)[i as int] == s@);
            return true;
        }
    }
    false
}

pub fn chars_of(s: &str) -> (v: Vec<char>)
    ensures
        v@ == s@,
{
    let mut v: Vec<char> = Vec::new();
    for c in it: s.chars()
        invariant
            v@ == s@.take(it.index() as int),
            it.seq() == s@,
    {
        v.push(c);
    }
    v
}

/// The string made of `chars[from..to]`.
pub fn string_of(chars: &[char], from: usize, to: usize) -> (r: String)
    requires
        from <= to <= chars@.len(),
    ensures
        r@ == chars@.subrange(from as int, to as int),
{
    let mut r = String::new();
    for i in from..to
        invariant
            to <= chars@.len(),
            r@ == chars@.subrange(from as int, i as int),
    {
        r.push(chars[i]);
        assert(chars@.subrange(from as int, i + 1) =~= chars@.subrange(from as int, i as int).push(
            chars@[i as int],
        ));
    }
    r
}

/// `a` followed by `b`.
pub fn cat(a: &str, b: &str) -> (r: String)
    ensures
        r@ == a@ + b@,
{
    a.to_owned().concat(b)
}

// ── whitespace ───────────────────────────────────────────────────────────────

/// Unicode's `White_Space`.
pub open spec fn is_white(c: char) -> bool {
    let u = c as u32;
    ||| 0x9 <= u <= 0xd
    ||| u == 0x20
    ||| u == 0x85
    ||| u == 0xa0
    ||| u == 0x1680
    ||| 0x2000 <= u <= 0x200a
    ||| u == 0x2028
    ||| u == 0x2029
    ||| u == 0x202f
    ||| u == 0x205f
    ||| u == 0x3000
}

pub fn white(c: char) -> (r: bool)
    ensures
        r == is_white(c),
{
    let u: u32 = c as u32;
    (0x9 <= u && u <= 0xd) || u == 0x20 || u == 0x85 || u == 0xa0 || u == 0x1680 || (0x2000 <= u && u
        <= 0x200a) || u == 0x2028 || u == 0x2029 || u == 0x202f || u == 0x205f || u == 0x3000
}

/// Without its leading whitespace.
pub open spec fn trim_start(s: Seq<char>) -> Seq<char>
    decreases s.len(),
{
    if s.len() > 0 && is_white(s.first()) {
        trim_start(s.drop_first())
    } else {
        s
    }
}

/// Without its trailing whitespace.
pub open spec fn trim_end(s: Seq<char>) -> Seq<char>
    decreases s.len(),
{
    if s.len() > 0 && is_white(s.last()) {
        trim_end(s.drop_last())
    } else {
        s
    }
}

pub open spec fn trimmed(s: Seq<char>) -> Seq<char> {
    trim_end(trim_start(s))
}

pub fn trim(s: &str) -> (r: String)
    ensures
        r@ == trimmed(s@),
{
    let chars = chars_of(s);
    let mut from: usize = 0;
    assert(s@.skip(0) =~= s@);
    while from < chars.len() && white(chars[from])
        invariant
            from <= chars@.len(),
            chars@ == s@,
            trim_start(s@) == trim_start(s@.skip(from as int)),
        decreases chars@.len() - from,
    {
        assert(s@.skip(from as int).drop_first() =~= s@.skip(from + 1));
        from = from + 1;
    }
    let ghost rest = s@.skip(from as int);
    assert(trim_start(s@) == rest);
    let mut to: usize = chars.len();
    assert(s@.subrange(from as int, to as int) =~= rest);
    while from < to && white(chars[to - 1])
        invariant
            from <= to <= chars@.len(),
            chars@ == s@,
            trim_end(rest) == trim_end(s@.subrange(from as int, to as int)),
        decreases to,
    {
        assert(s@.subrange(from as int, to as int).drop_last() =~= s@.subrange(
            from as int,
            to - 1,
        ));
        to = to - 1;
    }
    string_of(chars.as_slice(), from, to)
}

/// A text with no blank at its ends is what is left of its line.
pub proof fn lemma_trimmed_line(s: Seq<char>)
    requires
        s.len() > 0,
        !is_white(s.first()),
        !is_white(s.last()),
    ensures
        trimmed(s.push('\n')) == s,
{
    let line = s.push('\n');
    assert(line.first() == s.first());
    assert(line.drop_last() =~= s);
    assert(is_white('\n'));
    reveal_with_fuel(trim_end, 2);
}

// ── splitting and joining ────────────────────────────────────────────────────

/// The pieces between the separators: one more than there are separators, some
/// of them possibly empty.
pub open spec fn split(s: Seq<char>, sep: char) -> Seq<Seq<char>>
    decreases s.len(),
{
    if s.len() == 0 {
        seq![s]
    } else {
        let before = split(s.drop_last(), sep);
        if s.last() == sep {
            before.push(Seq::empty())
        } else {
            before.drop_last().push(before.last().push(s.last()))
        }
    }
}

pub proof fn lemma_split_nonempty(s: Seq<char>, sep: char)
    ensures
        split(s, sep).len() > 0,
    decreases s.len(),
{
    if s.len() > 0 {
        lemma_split_nonempty(s.drop_last(), sep);
    }
}

pub fn split_on(s: &str, sep: char) -> (r: Vec<String>)
    ensures
        texts(r@) == split(s@, sep),
        r@.len() > 0,
{
    let chars = chars_of(s);
    let mut done: Vec<String> = Vec::new();
    let mut cur = String::new();
    assert(s@.take(0) =~= Seq::empty());
    for i in 0..chars.len()
        invariant
            chars@ == s@,
            texts(done@).push(cur@) == split(s@.take(i as int), sep),
    {
        let c = chars[i];
        assert(s@.take(i + 1).drop_last() =~= s@.take(i as int));
        let ghost before = texts(done@).push(cur@);
        assert(before.drop_last() =~= texts(done@));
        if c == sep {
            done.push(cur);
            assert(texts(done@) =~= before);
            cur = String::new();
        } else {
            cur.push(c);
        }
    }
    assert(s@.take(s@.len() as int) =~= s@);
    let ghost all = texts(done@).push(cur@);
    done.push(cur);
    assert(texts(done@) =~= all);
    done
}

/// Without the carriage return it may end in.
pub open spec fn without_cr(s: Seq<char>) -> Seq<char> {
    if s.len() > 0 && s.last() == '\r' {
        s.drop_last()
    } else {
        s
    }
}

/// The lines of a text: each ends in a line feed, or in a carriage return and a
/// line feed, and the last one may go without.
pub open spec fn lines_of(s: Seq<char>) -> Seq<Seq<char>> {
    let pieces = split(s, '\n');
    let ended = pieces.drop_last().map_values(|l: Seq<char>| without_cr(l));
    if pieces.last().len() == 0 {
        ended
    } else {
        ended.push(pieces.last())
    }
}

fn drop_cr(s: &String) -> (r: String)
    ensures
        r@ == without_cr(s@),
{
    let chars = chars_of(s.as_str());
    let n: usize = chars.len();
    assert(chars@.subrange(0, n as int) =~= chars@);
    if n > 0 && chars[n - 1] == '\r' {
        assert(chars@.subrange(0, n - 1) =~= chars@.drop_last());
        string_of(chars.as_slice(), 0, n - 1)
    } else {
        string_of(chars.as_slice(), 0, n)
    }
}

pub fn lines(s: &str) -> (r: Vec<String>)
    ensures
        texts(r@) == lines_of(s@),
{
    let pieces = split_on(s, '\n');
    let last: usize = pieces.len() - 1;
    let mut r: Vec<String> = Vec::new();
    let ghost all = split(s@, '\n');
    let ghost ended = all.drop_last().map_values(|l: Seq<char>| without_cr(l));
    for i in 0..last
        invariant
            last == pieces@.len() - 1,
            texts(pieces@) == all,
            ended == all.drop_last().map_values(|l: Seq<char>| without_cr(l)),
            texts(r@) == ended.take(i as int),
    {
        let l = drop_cr(&pieces[i]);
        assert(texts(pieces@)[i as int] == pieces@[i as int]@);
        let ghost before = texts(r@);
        r.push(l);
        assert(texts(r@) =~= before.push(ended[i as int]));
        assert(ended.take(i + 1) =~= ended.take(i as int).push(ended[i as int]));
    }
    assert(ended.take(last as int) =~= ended);
    assert(texts(pieces@)[last as int] == pieces@[last as int]@);
    if !pieces[last].as_str().is_empty() {
        let ghost before = texts(r@);
        r.push(pieces[last].clone());
        assert(texts(r@) =~= before.push(all.last()));
    }
    r
}

/// The pieces one after another, with `sep` between them.
pub open spec fn joined(pieces: Seq<Seq<char>>, sep: Seq<char>) -> Seq<char>
    decreases pieces.len(),
{
    if pieces.len() == 0 {
        Seq::empty()
    } else if pieces.len() == 1 {
        pieces[0]
    } else {
        joined(pieces.drop_last(), sep) + sep + pieces.last()
    }
}

pub fn join(pieces: &[String], sep: &str) -> (r: String)
    ensures
        r@ == joined(texts(pieces@), sep@),
{
    let mut r = String::new();
    assert(texts(pieces@).take(0) =~= Seq::empty());
    for i in 0..pieces.len()
        invariant
            r@ == joined(texts(pieces@).take(i as int), sep@),
    {
        assert(texts(pieces@).take(i + 1).drop_last() =~= texts(pieces@).take(i as int));
        if i > 0 {
            r.append(sep);
        } else {
            assert(r@ =~= Seq::empty());
            assert(Seq::<char>::empty() + pieces@[0]@ =~= pieces@[0]@);
        }
        r.append(pieces[i].as_str());
    }
    assert(texts(pieces@).take(pieces@.len() as int) =~= texts(pieces@));
    r
}

// ── numbers and columns ──────────────────────────────────────────────────────

/// The digit for a value below sixteen.
pub open spec fn digit(d: nat) -> char {
    if d == 0 { '0' } else if d == 1 { '1' } else if d == 2 { '2' } else if d == 3 { '3' } else if d == 4 { '4' }
    else if d == 5 { '5' } else if d == 6 { '6' } else if d == 7 { '7' } else if d == 8 { '8' } else if d == 9 { '9' }
    else if d == 10 { 'a' } else if d == 11 { 'b' } else if d == 12 { 'c' } else if d == 13 { 'd' }
    else if d == 14 { 'e' } else { 'f' }
}

fn digit_char(d: u64) -> (c: char)
    requires
        d < 16,
    ensures
        c == digit(d as nat),
{
    match d {
        0 => '0',
        1 => '1',
        2 => '2',
        3 => '3',
        4 => '4',
        5 => '5',
        6 => '6',
        7 => '7',
        8 => '8',
        9 => '9',
        10 => 'a',
        11 => 'b',
        12 => 'c',
        13 => 'd',
        14 => 'e',
        _ => 'f',
    }
}

/// A number written in base `base`, without leading zeros.
pub open spec fn numeral(n: nat, base: nat) -> Seq<char>
    decreases n,
{
    if base < 2 || n < base {
        seq![digit(n)]
    } else {
        proof {
            assert(n / base < n) by (nonlinear_arith)
                requires
                    n >= base,
                    base >= 2,
            ;
        }
        numeral(n / base, base).push(digit(n % base))
    }
}

/// A number in decimal.
pub open spec fn decimal(n: nat) -> Seq<char> {
    numeral(n, 10)
}

/// A number in hexadecimal.
pub open spec fn hexadecimal(n: nat) -> Seq<char> {
    numeral(n, 16)
}

pub fn write_number(n: u64, base: u64) -> (r: String)
    requires
        2 <= base <= 16,
    ensures
        r@ == numeral(n as nat, base as nat),
    decreases n,
{
    if n < base {
        let mut r = String::new();
        r.push(digit_char(n));
        assert(r@ =~= seq![digit(n as nat)]);
        r
    } else {
        assert(n / base < n) by (nonlinear_arith)
            requires
                n >= base,
                base >= 2,
        ;
        assert(n % base < base) by (nonlinear_arith)
            requires
                base >= 2,
        ;
        let mut r = write_number(n / base, base);
        r.push(digit_char(n % base));
        r
    }
}

/// A digit or a lower case letter of ASCII.
pub open spec fn is_plain(c: char) -> bool {
    'a' <= c <= 'z' || '0' <= c <= '9'
}

/// A numeral is made of digits and letters alone.
pub proof fn lemma_numeral_is_plain(n: nat, base: nat)
    ensures
        numeral(n, base).len() > 0,
        forall|i: int| 0 <= i < numeral(n, base).len() ==> is_plain(#[trigger] numeral(n, base)[i]),
    decreases n,
{
    if base >= 2 && n >= base {
        assert(n / base < n) by (nonlinear_arith)
            requires
                n >= base,
                base >= 2,
        ;
        lemma_numeral_is_plain(n / base, base);
    }
}

/// Two numbers with the same numeral are the same.
pub proof fn lemma_numeral_injective(a: nat, b: nat, base: nat)
    requires
        2 <= base <= 16,
        numeral(a, base) == numeral(b, base),
    ensures
        a == b,
    decreases a,
{
    let s = numeral(a, base);
    lemma_numeral_is_plain(a / base, base);
    lemma_numeral_is_plain(b / base, base);
    if a < base || b < base {
        assert(s.len() == 1);
        assert(a < base && b < base);
        assert(s[0] == digit(a) && s[0] == digit(b));
    } else {
        assert(s.drop_last() =~= numeral(a / base, base));
        assert(s.drop_last() =~= numeral(b / base, base));
        assert(a / base < a && a % base < base && b % base < base) by (nonlinear_arith)
            requires
                a >= base,
                base >= 2,
        ;
        lemma_numeral_injective(a / base, b / base, base);
        vstd::arithmetic::div_mod::lemma_fundamental_div_mod(a as int, base as int);
        vstd::arithmetic::div_mod::lemma_fundamental_div_mod(b as int, base as int);
        assert(s.last() == digit(a % base) && s.last() == digit(b % base));
        assert(a % base == b % base);
    }
}

/// `n` blanks.
pub open spec fn blanks(n: nat) -> Seq<char> {
    Seq::new(n, |i: int| ' ')
}

/// A text in a column: followed by blanks up to `width` characters, and longer
/// ones as they are.
pub open spec fn padded(s: Seq<char>, width: nat) -> Seq<char> {
    if s.len() >= width {
        s
    } else {
        s + blanks((width - s.len()) as nat)
    }
}

pub fn pad(s: &str, width: usize) -> (r: String)
    ensures
        r@ == padded(s@, width as nat),
{
    let mut r = s.to_owned();
    let n: usize = s.unicode_len();
    assert(s@ + blanks(0) =~= s@);
    if n < width {
        for i in n..width
            invariant
                n == s@.len(),
                n <= i <= width,
                r@ == s@ + blanks((i - n) as nat),
        {
            r.push(' ');
            assert(blanks((i + 1 - n) as nat) =~= blanks((i - n) as nat).push(' '));
            assert((s@ + blanks((i - n) as nat)).push(' ') =~= s@ + blanks((i - n) as nat).push(' '));
        }
    }
    r
}

// ── reading a number ─────────────────────────────────────────────────────────

pub open spec fn is_decimal(c: char) -> bool {
    '0' <= c <= '9'
}

/// Whether a text is made of decimal digits.
pub open spec fn all_decimal(s: Seq<char>) -> bool {
    forall|i: int| 0 <= i < s.len() ==> is_decimal(#[trigger] s[i])
}

/// The number that decimal digits write.
pub open spec fn decimal_value(s: Seq<char>) -> nat
    decreases s.len(),
{
    if s.len() == 0 {
        0
    } else {
        decimal_value(s.drop_last()) * 10 + (s.last() as nat - '0' as nat) as nat
    }
}

/// The digits of a number that may have a plus sign in front.
pub open spec fn unsigned_digits(s: Seq<char>) -> Seq<char> {
    if s.len() > 1 && s[0] == '+' {
        s.skip(1)
    } else {
        s
    }
}

/// The `u32` that a text writes, if it writes one.
pub open spec fn number_of(s: Seq<char>) -> Option<u32> {
    let d = unsigned_digits(s);
    if d.len() > 0 && all_decimal(d) && decimal_value(d) <= u32::MAX {
        Some(decimal_value(d) as u32)
    } else {
        None
    }
}

proof fn lemma_longer_is_larger(s: Seq<char>, i: int)
    requires
        0 <= i <= s.len(),
        all_decimal(s),
    ensures
        decimal_value(s.take(i)) <= decimal_value(s),
    decreases s.len() - i,
{
    if i < s.len() {
        assert(s.take(i + 1).drop_last() =~= s.take(i));
        assert(is_decimal(s[i]));
        lemma_longer_is_larger(s, i + 1);
    } else {
        assert(s.take(i) =~= s);
    }
}

/// The `u32` that a text writes, if it writes one.
pub fn read_number(s: &str) -> (r: Option<u32>)
    ensures
        r == number_of(s@),
{
    let chars = chars_of(s);
    let from: usize = if chars.len() > 1 && chars[0] == '+' {
        1
    } else {
        0
    };
    let ghost d = unsigned_digits(s@);
    assert(d =~= s@.skip(from as int));
    if chars.len() == 0 {
        return None;
    }
    let mut n: u64 = 0;
    let mut i: usize = from;
    while i < chars.len()
        invariant
            chars@ == s@,
            from <= i <= chars@.len(),
            d == unsigned_digits(s@),
            d == s@.skip(from as int),
            d.len() > 0,
            n <= u32::MAX,
            n == decimal_value(d.take(i - from)),
            forall|j: int| 0 <= j < i - from ==> is_decimal(#[trigger] d[j]),
        decreases chars@.len() - i,
    {
        let c = chars[i];
        assert(d[i - from] == c);
        if !('0' <= c && c <= '9') {
            assert(!all_decimal(d));
            return None;
        }
        assert(d.take(i - from + 1).drop_last() =~= d.take(i - from));
        n = n * 10 + (c as u64 - '0' as u64);
        if n > u32::MAX as u64 {
            proof {
                if all_decimal(d) {
                    lemma_longer_is_larger(d, i - from + 1);
                }
            }
            return None;
        }
        i = i + 1;
    }
    assert(d.take(d.len() as int) =~= d);
    Some(n as u32)
}

// ── what these operations promise ────────────────────────────────────────────

/// Among the characters of ASCII, the blank ones are the space and the controls from
/// the tabulator to the carriage return.
pub proof fn law_blanks_of_ascii(c: char)
    requires
        (c as u32) < 0x80,
    ensures
        is_white(c) <==> c == ' ' || c == '\t' || c == '\n' || c as u32 == 0xb || c as u32 == 0xc || c
            == '\r',
{
}

proof fn lemma_trim_start_over(pre: Seq<char>, s: Seq<char>)
    requires
        forall|i: int| 0 <= i < pre.len() ==> is_white(#[trigger] pre[i]),
    ensures
        trim_start(pre + s) == trim_start(s),
    decreases pre.len(),
{
    if pre.len() > 0 {
        assert((pre + s).first() == pre[0]);
        assert((pre + s).drop_first() =~= pre.drop_first() + s);
        assert forall|i: int| 0 <= i < pre.drop_first().len() implies is_white(
            #[trigger] pre.drop_first()[i],
        ) by {
            assert(pre.drop_first()[i] == pre[i + 1]);
        }
        lemma_trim_start_over(pre.drop_first(), s);
    } else {
        assert(pre + s =~= s);
    }
}

pub proof fn lemma_trim_end_over(s: Seq<char>, post: Seq<char>)
    requires
        forall|i: int| 0 <= i < post.len() ==> is_white(#[trigger] post[i]),
    ensures
        trim_end(s + post) == trim_end(s),
    decreases post.len(),
{
    if post.len() > 0 {
        assert((s + post).last() == post[post.len() - 1]);
        assert((s + post).drop_last() =~= s + post.drop_last());
        assert forall|i: int| 0 <= i < post.drop_last().len() implies is_white(
            #[trigger] post.drop_last()[i],
        ) by {
            assert(post.drop_last()[i] == post[i]);
        }
        lemma_trim_end_over(s, post.drop_last());
    } else {
        assert(s + post =~= s);
    }
}

/// Trimming takes the blanks off both ends, all of them and nothing else: whatever
/// blanks a text stands between, it is what is left.
pub proof fn law_trimming_leaves_what_is_between_blanks(
    pre: Seq<char>,
    s: Seq<char>,
    post: Seq<char>,
)
    requires
        forall|i: int| 0 <= i < pre.len() ==> is_white(#[trigger] pre[i]),
        forall|i: int| 0 <= i < post.len() ==> is_white(#[trigger] post[i]),
        s.len() > 0 ==> !is_white(s.first()) && !is_white(s.last()),
    ensures
        trimmed(pre + s + post) == s,
{
    assert(pre + s + post =~= pre + (s + post));
    lemma_trim_start_over(pre, s + post);
    if s.len() > 0 {
        assert((s + post).first() == s.first());
        lemma_trim_end_over(s, post);
    } else {
        let none = Seq::<char>::empty();
        assert(s + post =~= post + none);
        lemma_trim_start_over(post, none);
        assert(s =~= none);
    }
}

/// A text is split at each separator and nowhere else: the pieces of two texts with a
/// separator between them are those of the one and those of the other, and a text
/// without separators is one piece.
pub proof fn law_a_text_is_split_at_each_separator(a: Seq<char>, sep: char, b: Seq<char>)
    ensures
        split(a.push(sep) + b, sep) == split(a, sep) + split(b, sep),
        !a.contains(sep) ==> split(a, sep) == seq![a],
    decreases a.len() + b.len(),
{
    lemma_split_nonempty(a, sep);
    lemma_split_nonempty(b, sep);
    let s = a.push(sep) + b;
    if b.len() == 0 {
        assert(s =~= a.push(sep));
        assert(s.drop_last() =~= a);
        assert(b =~= Seq::empty());
        assert(split(b, sep) =~= seq![Seq::<char>::empty()]);
        assert(split(s, sep) =~= split(a, sep) + split(b, sep));
    } else {
        let rest = b.drop_last();
        law_a_text_is_split_at_each_separator(a, sep, rest);
        lemma_split_nonempty(rest, sep);
        assert(s.drop_last() =~= a.push(sep) + rest);
        assert(s.last() == b.last());
        assert(split(s, sep) =~= split(a, sep) + split(b, sep));
    }
    if !a.contains(sep) && a.len() > 0 {
        let shorter = a.drop_last();
        assert(!shorter.contains(sep)) by {
            if shorter.contains(sep) {
                let i = choose|i: int| 0 <= i < shorter.len() && shorter[i] == sep;
                assert(a[i] == sep);
            }
        }
        law_a_text_is_split_at_each_separator(shorter, sep, Seq::empty());
        assert(a[a.len() - 1] == a.last());
        assert(a.contains(a.last()));
        assert(shorter.push(a.last()) =~= a);
        assert(split(a, sep) =~= seq![a]);
    } else if a.len() == 0 {
        assert(split(a, sep) =~= seq![a]);
    }
}

/// A line ends at each line feed, and a carriage return before it goes with it. What
/// follows the last line feed is a line if there is anything, whatever it ends with.
pub proof fn law_a_line_ends_at_each_line_feed(line: Seq<char>, rest: Seq<char>)
    requires
        !line.contains('\n'),
    ensures
        lines_of(Seq::<char>::empty()) == Seq::<Seq<char>>::empty(),
        line.len() > 0 ==> lines_of(line) == seq![line],
        line.len() == 0 || line.last() != '\r' ==> lines_of(line.push('\n') + rest) == seq![line]
            + lines_of(rest),
        lines_of(line.push('\r').push('\n') + rest) == seq![line] + lines_of(rest),
{
    let none = Seq::<char>::empty();
    law_a_text_is_split_at_each_separator(none, '\n', none);
    assert(split(none, '\n').drop_last().map_values(|l: Seq<char>| without_cr(l)) =~= Seq::empty());
    law_a_text_is_split_at_each_separator(line, '\n', rest);
    assert(split(line, '\n').drop_last().map_values(|l: Seq<char>| without_cr(l))
        =~= Seq::empty());
    assert(lines_of(line) =~= if line.len() == 0 {
        Seq::empty()
    } else {
        seq![line]
    });
    let with_cr = line.push('\r');
    assert(!with_cr.contains('\n')) by {
        if with_cr.contains('\n') {
            let i = choose|i: int| 0 <= i < with_cr.len() && with_cr[i] == '\n';
            assert(line[i] == '\n');
        }
    }
    law_a_text_is_split_at_each_separator(with_cr, '\n', rest);
    lemma_first_line(line, rest);
    lemma_first_line(with_cr, rest);
    assert(with_cr.drop_last() =~= line);
}

proof fn lemma_first_line(line: Seq<char>, rest: Seq<char>)
    requires
        !line.contains('\n'),
    ensures
        lines_of(line.push('\n') + rest) == seq![without_cr(line)] + lines_of(rest),
{
    law_a_text_is_split_at_each_separator(line, '\n', rest);
    lemma_split_nonempty(rest, '\n');
    let all = split(line.push('\n') + rest, '\n');
    let after = split(rest, '\n');
    let f = |l: Seq<char>| without_cr(l);
    assert(all =~= seq![line] + after);
    assert(all.drop_last() =~= seq![line] + after.drop_last());
    assert(all.drop_last().map_values(f) =~= seq![without_cr(line)]
        + after.drop_last().map_values(f));
    assert(all.last() == after.last());
    assert(lines_of(line.push('\n') + rest) =~= seq![without_cr(line)] + lines_of(rest));
}

/// Joining puts every piece, in its order, with the separator between two and nowhere
/// else.
pub proof fn law_joining_puts_every_piece(
    a: Seq<Seq<char>>,
    b: Seq<Seq<char>>,
    piece: Seq<char>,
    sep: Seq<char>,
)
    ensures
        joined(Seq::<Seq<char>>::empty(), sep) == Seq::<char>::empty(),
        joined(seq![piece], sep) == piece,
        a.len() > 0 && b.len() > 0 ==> joined(a + b, sep) == joined(a, sep) + sep + joined(b, sep),
    decreases b.len(),
{
    if a.len() > 0 && b.len() > 0 {
        assert((a + b).drop_last() =~= a + b.drop_last());
        assert((a + b).last() == b.last());
        if b.len() == 1 {
            assert(a + b.drop_last() =~= a);
        } else {
            law_joining_puts_every_piece(a, b.drop_last(), piece, sep);
            assert(joined(a + b, sep) =~= joined(a, sep) + sep + joined(b, sep));
        }
    }
}

/// The digits of a number are those of what is left of it and then the last one: from
/// `0` to `9` and then from `a` on.
pub proof fn law_a_numeral_is_its_digits(n: nat, d: nat, base: nat)
    requires
        2 <= base <= 16,
        d < base,
    ensures
        ({
            let c = numeral(d, base)[0];
            &&& numeral(d, base) == seq![c]
            &&& c as u32 == if d < 10 {
                0x30 + d
            } else {
                0x57 + d
            }
            &&& n > 0 ==> numeral(n * base + d, base) == numeral(n, base).push(c)
        }),
{
    if n > 0 {
        let m = n * base + d;
        assert(m >= base) by (nonlinear_arith)
            requires
                m == n * base + d,
                n > 0,
        ;
        vstd::arithmetic::div_mod::lemma_fundamental_div_mod_converse(
            m as int,
            base as int,
            n as int,
            d as int,
        );
    }
}

proof fn lemma_decimal_reads(n: nat)
    ensures
        all_decimal(decimal(n)),
        decimal_value(decimal(n)) == n,
        decimal(n).len() > 0,
    decreases n,
{
    let s = decimal(n);
    let d = n % 10;
    law_a_numeral_is_its_digits(n / 10, d, 10);
    if n < 10 {
        assert(s.drop_last() =~= Seq::empty());
        reveal_with_fuel(decimal_value, 2);
    } else {
        lemma_decimal_reads(n / 10);
        assert(s.drop_last() =~= decimal(n / 10));
        assert forall|i: int| 0 <= i < s.len() implies is_decimal(#[trigger] s[i]) by {
            if i < s.len() - 1 {
                assert(s[i] == decimal(n / 10)[i]);
            }
        }
    }
}

/// A number that was written is the one that is read, with a plus sign in front or
/// without. One that `u32` does not hold is not read, and neither is a text with
/// anything but digits.
pub proof fn law_a_number_goes_and_comes_back(n: nat, other: Seq<char>, i: int)
    requires
        0 <= i < other.len(),
        !('0' <= other[i] <= '9'),
        i == 0 ==> other[i] != '+' || other.len() == 1,
    ensures
        number_of(decimal(n)) == if n <= u32::MAX {
            Some(n as u32)
        } else {
            None
        },
        number_of(seq!['+'] + decimal(n)) == number_of(decimal(n)),
        number_of(Seq::<char>::empty()) is None,
        number_of(other) is None,
{
    let s = decimal(n);
    lemma_decimal_reads(n);
    assert(is_decimal(s[0]));
    assert((seq!['+'] + s).skip(1) =~= s);
    let d = unsigned_digits(other);
    if other.len() > 1 && other[0] == '+' {
        assert(d[i - 1] == other[i]);
        assert(!is_decimal(d[i - 1]));
    } else {
        assert(!is_decimal(d[i]));
    }
}

/// Zeros in front do not change a number.
pub proof fn law_zeros_in_front_do_not_count(digits: Seq<char>)
    requires
        digits.len() > 0,
        forall|i: int| 0 <= i < digits.len() ==> '0' <= #[trigger] digits[i] <= '9',
    ensures
        number_of(seq!['0'] + digits) == number_of(digits),
{
    let longer = seq!['0'] + digits;
    lemma_zero_in_front(digits);
    assert(is_decimal(digits[0]));
    assert forall|i: int| 0 <= i < longer.len() implies is_decimal(#[trigger] longer[i]) by {
        if i > 0 {
            assert(longer[i] == digits[i - 1]);
        }
    }
    assert(all_decimal(digits));
}

proof fn lemma_zero_in_front(digits: Seq<char>)
    ensures
        decimal_value(seq!['0'] + digits) == decimal_value(digits),
    decreases digits.len(),
{
    let longer = seq!['0'] + digits;
    if digits.len() == 0 {
        assert(longer.drop_last() =~= Seq::empty());
        reveal_with_fuel(decimal_value, 2);
    } else {
        lemma_zero_in_front(digits.drop_last());
        assert(longer.drop_last() =~= seq!['0'] + digits.drop_last());
        assert(longer.last() == digits.last());
    }
}

/// A text in a column comes whole, and what is left of the column is blank.
pub proof fn law_a_column_holds_its_text(s: Seq<char>, width: nat)
    ensures
        s.is_prefix_of(padded(s, width)),
        padded(s, width).len() == if s.len() < width {
            width
        } else {
            s.len()
        },
        forall|i: int|
            s.len() <= i < padded(s, width).len() ==> #[trigger] padded(s, width)[i] == ' ',
{
    assert(padded(s, width).take(s.len() as int) =~= s);
}

/// What the operations give of a text between blanks, of two pieces with a separator
/// between them, and of a line with more below it.
pub proof fn law_texts_are_read_piece_by_piece(
    pre: Seq<char>,
    a: Seq<char>,
    sep: char,
    b: Seq<char>,
    post: Seq<char>,
    blanked: &str,
    trimmed_text: String,
    separated: &str,
    pieces: Vec<String>,
    below: &str,
    all: Vec<String>,
)
    requires
        call_ensures(trim, (blanked,), trimmed_text),
        call_ensures(split_on, (separated, sep), pieces),
        call_ensures(lines, (below,), all),
        forall|i: int| 0 <= i < pre.len() ==> is_white(#[trigger] pre[i]),
        forall|i: int| 0 <= i < post.len() ==> is_white(#[trigger] post[i]),
    ensures
        blanked@ == pre + a + post && a.len() > 0 && !is_white(a.first()) && !is_white(a.last())
            ==> trimmed_text@ == a,
        separated@ == a.push(sep) + b && !a.contains(sep) && !b.contains(sep) ==> texts(pieces@)
            == seq![a, b],
        below@ == a.push('\n') + b && !a.contains('\n') && !b.contains('\n') && b.len() > 0 && (
        a.len() == 0 || a.last() != '\r') ==> texts(all@) == seq![a, b],
{
    if a.len() > 0 && !is_white(a.first()) && !is_white(a.last()) {
        law_trimming_leaves_what_is_between_blanks(pre, a, post);
    }
    law_a_text_is_split_at_each_separator(a, sep, b);
    law_a_text_is_split_at_each_separator(b, sep, a);
    assert(seq![a] + seq![b] =~= seq![a, b]);
    if !a.contains('\n') && !b.contains('\n') {
        law_a_line_ends_at_each_line_feed(a, b);
        law_a_line_ends_at_each_line_feed(b, a);
    }
}

/// What is written of a number is read back as it, and what is joined or put in a column
/// comes whole.
pub proof fn law_what_is_written_is_read(
    n: u32,
    digits: String,
    s: &str,
    read: Option<u32>,
    width: usize,
    column: String,
    pieces: &[String],
    sep: &str,
    whole: String,
)
    requires
        call_ensures(write_number, (n as u64, 10u64), digits),
        call_ensures(read_number, (s,), read),
        call_ensures(pad, (s, width), column),
        call_ensures(join, (pieces, sep), whole),
    ensures
        s@ == digits@ ==> read == Some(n),
        s@.is_prefix_of(column@),
        column@.len() == if s@.len() < width {
            width as nat
        } else {
            s@.len()
        },
        pieces@.len() == 1 ==> whole@ == pieces@[0]@,
        pieces@.len() == 2 ==> whole@ == pieces@[0]@ + sep@ + pieces@[1]@,
        pieces@.len() == 0 ==> whole@.len() == 0,
{
    law_a_number_goes_and_comes_back(n as nat, seq!['x'], 0);
    law_a_column_holds_its_text(s@, width as nat);
    let all = texts(pieces@);
    if pieces@.len() == 2 {
        let a = seq![all[0]];
        let b = seq![all[1]];
        assert(all =~= a + b);
        law_joining_puts_every_piece(a, b, all[0], sep@);
        law_joining_puts_every_piece(a, b, all[1], sep@);
    } else if pieces@.len() == 1 {
        assert(all =~= seq![all[0]]);
        law_joining_puts_every_piece(all, all, all[0], sep@);
    }
}

} // verus!
