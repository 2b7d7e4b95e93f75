//! Text primitives: everything the other modules read out of, or write into,
//! a string, specified on the sequence of its characters.

use vstd::prelude::*;
use vstd::string::*;

use crate::seqs;

verus! {

/// Appends one character (std's `String::push`).
pub assume_specification[ String::push ](s: &mut String, c: char)
    ensures
        final(s)@ == old(s)@.push(c),
;

/// The characters of `s`, as a vector.
pub fn chars_of(s: &str) -> (v: Vec<char>)
    ensures
        v@ == s@,
{
    let mut v: Vec<char> = Vec::new();
    for c in it: s.chars()
        invariant
            it.seq() == s@,
            v@ == s@.take(it.index() as int),
    {
        v.push(c);
    }
    v
}

/// Whether two strings hold the same characters.
pub fn same(a: &str, b: &str) -> (r: bool)
    ensures
        r == (a@ == b@),
{
    let x: Vec<char> = chars_of(a);
    let y: Vec<char> = chars_of(b);
    if x.len() != y.len() {
        return false;
    }
    for i in 0..x.len()
        invariant
            x@ == a@,
            y@ == b@,
            x.len() == y.len(),
            forall|j: int| 0 <= j < i ==> x@[j] == y@[j],
    {
        if x[i] != y[i] {
            return false;
        }
    }
    proof {
        assert(a@ =~= b@);
    }
    true
}

/// The characters of each string.
pub open spec fn texts(v: Seq<String>) -> Seq<Seq<char>> {
    v.map_values(|s: String| s@)
}

/// The string of the characters `v[from..to]`.
pub fn slice_text(v: &Vec<char>, from: usize, to: usize) -> (r: String)
    requires
        from <= to <= v@.len(),
    ensures
        r@ == v@.subrange(from as int, to as int),
{
    let mut r: String = String::new();
    let mut i: usize = from;
    while i < to
        invariant
            from <= i <= to <= v@.len(),
            r@ == v@.subrange(from as int, i as int),
        decreases to - i,
    {
        r.push(v[i]);
        i = i + 1;
        proof {
            assert(r@ =~= v@.subrange(from as int, i as int));
        }
    }
    proof {
        assert(v@.subrange(from as int, from as int) =~= Seq::<char>::empty());
    }
    r
}

// --- numbers -----------------------------------------------------------------

/// The character of a decimal digit.
pub open spec fn digit(d: nat) -> char {
    if d == 0 {
        '0'
    } else if d == 1 {
        '1'
    } else if d == 2 {
        '2'
    } else if d == 3 {
        '3'
    } else if d == 4 {
        '4'
    } else if d == 5 {
        '5'
    } else if d == 6 {
        '6'
    } else if d == 7 {
        '7'
    } else if d == 8 {
        '8'
    } else {
        '9'
    }
}

/// `n` in decimal, without leading zeros.
pub open spec fn digits(n: nat) -> Seq<char>
    decreases n,
{
    if n < 10 {
        seq![digit(n)]
    } else {
        digits(n / 10).push(digit(n % 10))
    }
}

/// An integer in decimal, with a `-` when it is negative.
pub open spec fn dec(n: int) -> Seq<char> {
    if n < 0 {
        "-"@ + digits((-n) as nat)
    } else {
        digits(n as nat)
    }
}

/// An integer in decimal, padded with zeros to two places (the sign counts
/// as a place).
pub open spec fn dec2(n: int) -> Seq<char> {
    if 0 <= n < 10 {
        "0"@ + digits(n as nat)
    } else {
        dec(n)
    }
}

/// An integer in decimal, always signed.
pub open spec fn signed(n: int) -> Seq<char> {
    if n < 0 {
        dec(n)
    } else {
        "+"@ + dec(n)
    }
}

/// Division rounding toward zero.
pub open spec fn tdiv(a: int, b: int) -> int {
    if a >= 0 {
        a / b
    } else {
        -((-a) / b)
    }
}

/// The remainder that belongs to [`tdiv`]: it has the sign of `a`.
pub open spec fn trem(a: int, b: int) -> int {
    a - b * tdiv(a, b)
}

fn digit_char(d: u128) -> (c: char)
    requires
        d < 10,
    ensures
        c == digit(d as nat),
{
    if d == 0 {
        '0'
    } else if d == 1 {
        '1'
    } else if d == 2 {
        '2'
    } else if d == 3 {
        '3'
    } else if d == 4 {
        '4'
    } else if d == 5 {
        '5'
    } else if d == 6 {
        '6'
    } else if d == 7 {
        '7'
    } else if d == 8 {
        '8'
    } else {
        '9'
    }
}

/// `n` in decimal.
pub fn natural(n: u128) -> (r: String)
    ensures
        r@ == digits(n as nat),
    decreases n,
{
    if n < 10 {
        let mut r: String = String::new();
        r.push(digit_char(n));
        proof {
            assert(r@ =~= seq![digit(n as nat)]);
        }
        r
    } else {
        let mut r: String = natural(n / 10);
        r.push(digit_char(n % 10));
        r
    }
}

/// `n` in decimal.
pub fn decimal(n: i128) -> (r: String)
    requires
        n > i128::MIN,
    ensures
        r@ == dec(n as int),
{
    if n < 0 {
        let m: u128 = (-n) as u128;
        "-".to_string().concat(natural(m).as_str())
    } else {
        natural(n as u128)
    }
}

/// `n` in decimal, padded to two places.
pub fn decimal2(n: i64) -> (r: String)
    ensures
        r@ == dec2(n as int),
{
    if 0 <= n && n < 10 {
        "0".to_string().concat(natural(n as u128).as_str())
    } else {
        decimal(n as i128)
    }
}

/// `n` in decimal, always signed.
pub fn signed_decimal(n: i64) -> (r: String)
    ensures
        r@ == signed(n as int),
{
    if n < 0 {
        decimal(n as i128)
    } else {
        "+".to_string().concat(decimal(n as i128).as_str())
    }
}

/// A game time in milliseconds as `m:ss`.
pub open spec fn clock(ms: int) -> Seq<char> {
    let secs = tdiv(ms, 1000);
    dec(tdiv(secs, 60)) + ":"@ + dec2(trem(secs, 60))
}

/// Format ms-from-start as `m:ss`.
pub fn mmss(ms: i64) -> (r: String)
    ensures
        r@ == clock(ms as int),
{
    let secs: i64 = ms / 1000;
    decimal((secs / 60) as i128).concat(":").concat(decimal2(secs % 60).as_str())
}

// --- cutting -----------------------------------------------------------------

/// The index of the first `c` in `s`.
pub open spec fn find(s: Seq<char>, c: char) -> Option<int> {
    seqs::first_where(s, |x: char| x == c)
}

/// The index of the last `c` in `s`.
pub open spec fn rfind(s: Seq<char>, c: char) -> Option<int>
    decreases s.len(),
{
    if s.len() == 0 {
        None
    } else if s.last() == c {
        Some(s.len() - 1)
    } else {
        rfind(s.drop_last(), c)
    }
}

/// The pieces of `s` between the separators; there is always one at least.
pub open spec fn pieces(s: Seq<char>, sep: char) -> Seq<Seq<char>>
    decreases s.len(),
    via pieces_decreases
{
    match find(s, sep) {
        None => seq![s],
        Some(i) => seq![s.take(i)] + pieces(s.skip(i + 1), sep),
    }
}

#[via_fn]
proof fn pieces_decreases(s: Seq<char>, sep: char) {
    lemma_find(s, sep);
}

/// What [`find`] finds.
pub proof fn lemma_find(s: Seq<char>, c: char)
    ensures
        match find(s, c) {
            None => forall|j: int| 0 <= j < s.len() ==> s[j] != c,
            Some(i) => 0 <= i < s.len() && s[i] == c && forall|j: int| 0 <= j < i ==> s[j] != c,
        },
    decreases s.len(),
{
    if s.len() > 0 {
        lemma_find(s.drop_last(), c);
        let t = s.drop_last();
        assert(forall|j: int| 0 <= j < t.len() ==> t[j] == s[j]);
    }
}

proof fn lemma_find_is(s: Seq<char>, c: char, i: int)
    requires
        0 <= i < s.len(),
        s[i] == c,
        forall|j: int| 0 <= j < i ==> s[j] != c,
    ensures
        find(s, c) == Some(i),
{
    lemma_find(s, c);
}

/// Where the first `c` stands.
pub fn find_char(v: &Vec<char>, c: char, from: usize) -> (r: Option<usize>)
    requires
        from <= v@.len(),
    ensures
        match r {
            None => find(v@.skip(from as int), c) is None,
            Some(i) => from <= i < v@.len() && find(v@.skip(from as int), c) == Some(i - from),
        },
{
    let mut i: usize = from;
    let ghost t = v@.skip(from as int);
    while i < v.len()
        invariant
            from <= i <= v@.len(),
            t == v@.skip(from as int),
            forall|j: int| from <= j < i ==> v@[j] != c,
        decreases v@.len() - i,
    {
        if v[i] == c {
            proof {
                lemma_find_is(t, c, i - from);
            }
            return Some(i);
        }
        i = i + 1;
    }
    proof {
        lemma_find(t, c);
    }
    None
}

/// Cuts `s` at every `sep`.
pub fn split(s: &str, sep: char) -> (r: Vec<String>)
    ensures
        texts(r@) == pieces(s@, sep),
        r@.len() >= 1,
{
    let v: Vec<char> = chars_of(s);
    let n: usize = v.len();
    let mut out: Vec<String> = Vec::new();
    let mut start: usize = 0;
    proof {
        assert(v@.skip(0) =~= v@);
    }
    loop
        invariant_except_break
            v@ == s@,
            n == v@.len(),
            start <= v@.len(),
            pieces(s@, sep) =~= texts(out@) + pieces(v@.skip(start as int), sep),
        ensures
            texts(out@) == pieces(s@, sep),
            out@.len() >= 1,
        decreases v@.len() - start,
    {
        let ghost rest = v@.skip(start as int);
        match find_char(&v, sep, start) {
            None => {
                let piece: String = slice_text(&v, start, v.len());
                let ghost old_out = out@;
                out.push(piece);
                proof {
                    assert(piece@ =~= rest);
                    assert(texts(out@) =~= texts(old_out).push(piece@));
                }
                break;
            },
            Some(i) => {
                let piece: String = slice_text(&v, start, i);
                let ghost old_out = out@;
                out.push(piece);
                proof {
                    assert(piece@ =~= rest.take(i - start));
                    assert(rest.skip(i - start + 1) =~= v@.skip(i + 1));
                    assert(texts(out@) =~= texts(old_out).push(piece@));
                }
                start = i + 1;
            },
        }
    }
    out
}

/// `s` without one trailing carriage return.
pub open spec fn strip_cr(s: Seq<char>) -> Seq<char> {
    if s.len() > 0 && s.last() == '\r' {
        s.drop_last()
    } else {
        s
    }
}

/// The lines of `s`: a line ends at a newline, which may follow a carriage
/// return, and text after the last newline is a line unless it is empty.
pub open spec fn line_texts(s: Seq<char>) -> Seq<Seq<char>> {
    let cut = pieces(s, '\n');
    let ended = cut.drop_last().map_values(|l: Seq<char>| strip_cr(l));
    if cut.last().len() == 0 {
        ended
    } else {
        ended.push(cut.last())
    }
}

fn without_cr(s: &String) -> (r: String)
    ensures
        r@ == strip_cr(s@),
{
    let v: Vec<char> = chars_of(s.as_str());
    if v.len() > 0 && v[v.len() - 1] == '\r' {
        let r: String = slice_text(&v, 0, v.len() - 1);
        proof {
            assert(r@ =~= s@.drop_last());
        }
        r
    } else {
        s.clone()
    }
}

/// The lines of `s`.
pub fn lines(s: &str) -> (r: Vec<String>)
    ensures
        texts(r@) == line_texts(s@),
{
    let cut: Vec<String> = split(s, '\n');
    let ghost all = pieces(s@, '\n');
    let mut out: Vec<String> = Vec::new();
    let last: usize = cut.len() - 1;
    let mut i: usize = 0;
    while i < last
        invariant
            texts(cut@) == all,
            last == cut@.len() - 1,
            i <= last,
            texts(out@) =~= all.take(i as int).map_values(|l: Seq<char>| strip_cr(l)),
        decreases last - i,
    {
        proof {
            assert(all[i as int] == cut@[i as int]@);
        }
        let ghost done = out@;
        out.push(without_cr(&cut[i]));
        i = i + 1;
        proof {
            assert(texts(out@) =~= texts(done).push(strip_cr(all[i - 1])));
            assert(all.take(i as int) =~= all.take(i - 1).push(all[i - 1]));
        }
    }
    proof {
        assert(all.take(last as int) =~= all.drop_last());
        assert(all.last() == cut@[last as int]@);
    }
    if !cut[last].as_str().is_empty() {
        out.push(cut[last].clone());
    }
    proof {
        assert(texts(out@) =~= line_texts(s@));
    }
    out
}

/// Characters with the Unicode `White_Space` property.
pub open spec fn is_space(c: char) -> bool {
    let n = c as u32;
    ||| 0x9 <= n <= 0xd
    ||| n == 0x20
    ||| n == 0x85
    ||| n == 0xa0
    ||| n == 0x1680
    ||| 0x2000 <= n <= 0x200a
    ||| n == 0x2028
    ||| n == 0x2029
    ||| n == 0x202f
    ||| n == 0x205f
    ||| n == 0x3000
}

fn space(c: char) -> (r: bool)
    ensures
        r == is_space(c),
{
    let n: u32 = c as u32;
    (0x9 <= n && n <= 0xd) || n == 0x20 || n == 0x85 || n == 0xa0 || n == 0x1680 || (0x2000 <= n
        && n <= 0x200a) || n == 0x2028 || n == 0x2029 || n == 0x202f || n == 0x205f || n == 0x3000
}

/// `s` without the white space at its end.
pub open spec fn trim_end(s: Seq<char>) -> Seq<char>
    decreases s.len(),
{
    if s.len() > 0 && is_space(s.last()) {
        trim_end(s.drop_last())
    } else {
        s
    }
}

/// `s` without the white space at its front.
pub open spec fn trim_front(s: Seq<char>) -> Seq<char>
    decreases s.len(),
{
    if s.len() > 0 && is_space(s[0]) {
        trim_front(s.skip(1))
    } else {
        s
    }
}

/// `s` without the white space around it.
pub open spec fn trimmed(s: Seq<char>) -> Seq<char> {
    trim_end(trim_front(s))
}

/// Removes the white space around `s`.
pub fn trim(s: &str) -> (r: String)
    ensures
        r@ == trimmed(s@),
{
    let v: Vec<char> = chars_of(s);
    let mut from: usize = 0;
    proof {
        assert(v@.skip(0) =~= v@);
    }
    while from < v.len() && space(v[from])
        invariant
            v@ == s@,
            from <= v@.len(),
            trim_front(s@) == trim_front(v@.skip(from as int)),
        decreases v@.len() - from,
    {
        proof {
            assert(v@.skip(from as int).skip(1) =~= v@.skip(from + 1));
        }
        from = from + 1;
    }
    let mut to: usize = v.len();
    let ghost front = v@.skip(from as int);
    proof {
        assert(v@.subrange(from as int, to as int) =~= front);
    }
    while to > from && space(v[to - 1])
        invariant
            from <= to <= v@.len(),
            trim_end(front) == trim_end(v@.subrange(from as int, to as int)),
        decreases to,
    {
        proof {
            assert(v@.subrange(from as int, to as int).drop_last() =~= v@.subrange(
                from as int,
                to - 1,
            ));
        }
        to = to - 1;
    }
    slice_text(&v, from, to)
}

/// `s` cut at its first `sep`.
pub open spec fn cut_once(s: Seq<char>, sep: char) -> Option<(Seq<char>, Seq<char>)> {
    match find(s, sep) {
        None => None,
        Some(i) => Some((s.take(i), s.skip(i + 1))),
    }
}

/// Cuts `s` at its first `sep`.
pub fn split_once(s: &str, sep: char) -> (r: Option<(String, String)>)
    ensures
        match r {
            None => cut_once(s@, sep) is None,
            Some(p) => cut_once(s@, sep) == Some((p.0@, p.1@)),
        },
{
    let v: Vec<char> = chars_of(s);
    proof {
        assert(v@.skip(0) =~= v@);
    }
    match find_char(&v, sep, 0) {
        None => None,
        Some(i) => {
            let a: String = slice_text(&v, 0, i);
            let n: usize = v.len();
            let b: String = slice_text(&v, i + 1, n);
            proof {
                assert(a@ =~= s@.take(i as int));
                assert(b@ =~= s@.skip(i + 1));
            }
            Some((a, b))
        },
    }
}

/// `s` cut at its last `sep`.
pub open spec fn rcut_once(s: Seq<char>, sep: char) -> Option<(Seq<char>, Seq<char>)> {
    match rfind(s, sep) {
        None => None,
        Some(i) => Some((s.take(i), s.skip(i + 1))),
    }
}

/// Cuts `s` at its last `sep`.
pub fn rsplit_once(s: &str, sep: char) -> (r: Option<(String, String)>)
    ensures
        match r {
            None => rcut_once(s@, sep) is None,
            Some(p) => rcut_once(s@, sep) == Some((p.0@, p.1@)),
        },
{
    let v: Vec<char> = chars_of(s);
    let n: usize = v.len();
    let mut i: usize = n;
    proof {
        assert(v@.take(n as int) =~= v@);
    }
    while i > 0
        invariant
            v@ == s@,
            n == v@.len(),
            i <= n,
            rfind(s@, sep) == rfind(v@.take(i as int), sep),
        decreases i,
    {
        if v[i - 1] == sep {
            let a: String = slice_text(&v, 0, i - 1);
            let b: String = slice_text(&v, i, n);
            proof {
                assert(a@ =~= s@.take(i - 1));
                assert(b@ =~= s@.skip(i as int));
            }
            return Some((a, b));
        }
        proof {
            assert(v@.take(i as int).drop_last() =~= v@.take(i - 1));
        }
        i = i - 1;
    }
    None
}

/// `s` without `prefix`, if it starts with it.
pub open spec fn stripped(s: Seq<char>, prefix: Seq<char>) -> Option<Seq<char>> {
    if prefix.len() <= s.len() && s.take(prefix.len() as int) == prefix {
        Some(s.skip(prefix.len() as int))
    } else {
        None
    }
}

/// Whether `part` stands in `v` at `at`.
fn stands_at(v: &Vec<char>, part: &Vec<char>, at: usize) -> (r: bool)
    requires
        at + part@.len() <= v@.len(),
    ensures
        r == (v@.subrange(at as int, at + part@.len()) == part@),
{
    let n: usize = v.len();
    let m: usize = part.len();
    for j in 0..m
        invariant
            n == v@.len(),
            m == part@.len(),
            at + m <= n,
            forall|k: int| 0 <= k < j ==> v@[at + k] == part@[k],
    {
        if v[at + j] != part[j] {
            proof {
                assert(v@.subrange(at as int, at + part@.len())[j as int] != part@[j as int]);
            }
            return false;
        }
    }
    proof {
        assert(v@.subrange(at as int, at + part@.len()) =~= part@);
    }
    true
}

/// Takes `prefix` off the front of `s`.
pub fn strip_prefix(s: &str, prefix: &str) -> (r: Option<String>)
    ensures
        match r {
            None => stripped(s@, prefix@) is None,
            Some(t) => stripped(s@, prefix@) == Some(t@),
        },
{
    let v: Vec<char> = chars_of(s);
    let p: Vec<char> = chars_of(prefix);
    let n: usize = v.len();
    let m: usize = p.len();
    if m > n || !stands_at(&v, &p, 0) {
        proof {
            assert(m <= n ==> v@.subrange(0, m as int) =~= s@.take(m as int));
        }
        return None;
    }
    let r: String = slice_text(&v, m, n);
    proof {
        assert(v@.subrange(0, m as int) =~= s@.take(m as int));
        assert(r@ =~= s@.skip(m as int));
    }
    Some(r)
}

/// Whether `part` stands somewhere in `s`.
pub open spec fn holds(s: Seq<char>, part: Seq<char>) -> bool {
    exists|i: int|
        0 <= i && i + part.len() <= s.len() && #[trigger] s.subrange(i, i + part.len()) == part
}

/// Whether `part` stands somewhere in `s`.
pub fn contains(s: &str, part: &str) -> (r: bool)
    ensures
        r == holds(s@, part@),
{
    let v: Vec<char> = chars_of(s);
    let p: Vec<char> = chars_of(part);
    let n: usize = v.len();
    let m: usize = p.len();
    if m > n {
        return false;
    }
    let mut i: usize = 0;
    while i <= n - m
        invariant
            v@ == s@,
            p@ == part@,
            n == v@.len(),
            m == p@.len(),
            m <= n,
            i <= n - m + 1,
            forall|k: int| 0 <= k < i ==> #[trigger] s@.subrange(k, k + part@.len()) != part@,
        decreases n - i,
    {
        if stands_at(&v, &p, i) {
            return true;
        }
        if i == n - m {
            return false;
        }
        i = i + 1;
    }
    false
}

// --- letter case -------------------------------------------------------------

/// The lower-case form of an ASCII letter; other characters stay.
pub open spec fn ascii_lower(c: char) -> char {
    let n = c as u32;
    if 0x41 <= n <= 0x5a {
        ((n + 0x20) as u8) as char
    } else {
        c
    }
}

fn lower_char(c: char) -> (r: char)
    ensures
        r == ascii_lower(c),
{
    let n: u32 = c as u32;
    if 0x41 <= n && n <= 0x5a {
        ((n + 0x20) as u8) as char
    } else {
        c
    }
}

/// Each character in ASCII lower case.
pub open spec fn ascii_lowered(s: Seq<char>) -> Seq<char> {
    s.map_values(|c: char| ascii_lower(c))
}

/// `s` with its ASCII letters in lower case.
pub fn to_ascii_lower(s: &str) -> (r: String)
    ensures
        r@ == ascii_lowered(s@),
{
    let v: Vec<char> = chars_of(s);
    let mut r: String = String::new();
    for i in 0..v.len()
        invariant
            v@ == s@,
            r@ == ascii_lowered(s@.take(i as int)),
    {
        r.push(lower_char(v[i]));
        proof {
            assert(r@ =~= ascii_lowered(s@.take(i + 1)));
        }
    }
    proof {
        assert(s@.take(v@.len() as int) =~= s@);
    }
    r
}

/// Whether two strings differ at most in the case of ASCII letters.
pub fn same_ignoring_case(a: &str, b: &str) -> (r: bool)
    ensures
        r == (ascii_lowered(a@) == ascii_lowered(b@)),
{
    same(to_ascii_lower(a).as_str(), to_ascii_lower(b).as_str())
}

/// Whether a text holds nothing but ASCII.
pub open spec fn ascii_only(s: Seq<char>) -> bool {
    forall|i: int| 0 <= i < s.len() ==> (#[trigger] s[i] as u32) < 0x80
}

/// The upper-case form of an ASCII letter; other characters stay.
pub open spec fn ascii_upper(c: char) -> char {
    let n = c as u32;
    if 0x61 <= n <= 0x7a {
        ((n - 0x20) as u8) as char
    } else {
        c
    }
}

/// `s` with its ASCII letters in upper case.
pub open spec fn ascii_raised(s: Seq<char>) -> Seq<char> {
    s.map_values(|c: char| ascii_upper(c))
}

/// `s` in lower case, by the Unicode rules of std's `str::to_lowercase`.
pub uninterp spec fn lowercase(s: Seq<char>) -> Seq<char>;

/// The lower-case form of `s` (std's `str::to_lowercase`, a function of the
/// text alone). ASCII letters go to their lower-case forms, and the rest of
/// ASCII stays.
#[verifier::external_body]
pub(crate) fn to_lowercase(s: &str) -> (r: String)
    ensures
        r@ == lowercase(s@),
        ascii_only(s@) ==> r@ == ascii_lowered(s@),
{
    s.to_lowercase()
}

/// `s` in upper case, by the Unicode rules of std's `str::to_uppercase`.
pub uninterp spec fn uppercase(s: Seq<char>) -> Seq<char>;

/// The upper-case form of `s` (std's `str::to_uppercase`, a function of the
/// text alone). ASCII letters go to their upper-case forms, and the rest of
/// ASCII stays.
#[verifier::external_body]
pub(crate) fn to_uppercase(s: &str) -> (r: String)
    ensures
        r@ == uppercase(s@),
        ascii_only(s@) ==> r@ == ascii_raised(s@),
{
    s.to_uppercase()
}

/// ASCII letters and digits.
pub open spec fn is_alphanumeric(c: char) -> bool {
    let n = c as u32;
    (0x30 <= n <= 0x39) || (0x41 <= n <= 0x5a) || (0x61 <= n <= 0x7a)
}

/// Whether `c` is an ASCII letter or digit.
pub fn alphanumeric(c: char) -> (r: bool)
    ensures
        r == is_alphanumeric(c),
{
    let n: u32 = c as u32;
    (0x30 <= n && n <= 0x39) || (0x41 <= n && n <= 0x5a) || (0x61 <= n && n <= 0x7a)
}

// --- reading numbers ---------------------------------------------------------

/// The value of a run of decimal digits, if it is one.
pub open spec fn digits_value(s: Seq<char>) -> Option<nat>
    decreases s.len(),
{
    if s.len() == 0 {
        Some(0)
    } else {
        let d = s.last() as u32;
        match digits_value(s.drop_last()) {
            Some(n) if 0x30 <= d <= 0x39 => Some(10 * n + (d - 0x30) as nat),
            _ => None,
        }
    }
}

/// The digits of an unsigned number: the text after an optional `+`.
pub open spec fn unsigned_part(s: Seq<char>) -> Seq<char> {
    if s.len() > 0 && s[0] == '+' {
        s.skip(1)
    } else {
        s
    }
}

/// The number that `s` writes, if it writes one that is at most `max`: an
/// optional `+`, then decimal digits, one at least.
pub open spec fn number_at_most(s: Seq<char>, max: nat) -> Option<nat> {
    let body = unsigned_part(s);
    match digits_value(body) {
        Some(n) if body.len() > 0 && n <= max => Some(n),
        _ => None,
    }
}

proof fn lemma_digits_value_grows(s: Seq<char>, k: int)
    requires
        0 <= k <= s.len(),
    ensures
        digits_value(s) matches Some(n) ==> digits_value(s.take(k)) matches Some(m) && m <= n,
    decreases s.len(),
{
    if k < s.len() {
        lemma_digits_value_grows(s.drop_last(), k);
        assert(s.drop_last().take(k) =~= s.take(k));
    } else {
        assert(s.take(k) =~= s);
    }
}

proof fn lemma_digits_value(n: nat)
    ensures
        digits(n).len() > 0,
        digits(n)[0] != '+',
        digits_value(digits(n)) == Some(n),
    decreases n,
{
    let d = digit(n % 10);
    assert(d as u32 == 0x30 + n % 10);
    if n < 10 {
        assert(digits(n) =~= seq![d]);
        assert(digits(n).drop_last() =~= seq![]);
        reveal_with_fuel(digits_value, 2);
    } else {
        lemma_digits_value(n / 10);
        assert(digits(n).drop_last() =~= digits(n / 10));
        assert(digits(n)[0] == digits(n / 10)[0]);
    }
}

/// What a number is written as reads back as the number.
pub proof fn lemma_digits_read_back(n: nat, max: nat)
    requires
        n <= max,
    ensures
        number_at_most(digits(n), max) == Some(n),
{
    lemma_digits_value(n);
}

/// Reads an unsigned number of at most `max`.
pub fn parse_at_most(s: &str, max: u64) -> (r: Option<u64>)
    ensures
        match r {
            None => number_at_most(s@, max as nat) is None,
            Some(n) => number_at_most(s@, max as nat) == Some(n as nat),
        },
{
    let v: Vec<char> = chars_of(s);
    let n: usize = v.len();
    let from: usize = if n > 0 && v[0] == '+' {
        1
    } else {
        0
    };
    if from == n {
        return None;
    }
    let ghost body = unsigned_part(s@);
    proof {
        assert(body =~= v@.skip(from as int));
        assert(body.take(0) =~= Seq::<char>::empty());
    }
    let mut acc: u64 = 0;
    let mut i: usize = from;
    while i < n
        invariant
            v@ == s@,
            n == v@.len(),
            from <= i <= n,
            body == v@.skip(from as int),
            body == unsigned_part(s@),
            body.len() > 0,
            acc <= max,
            digits_value(body.take(i - from)) == Some(acc as nat),
        decreases n - i,
    {
        let d: u32 = v[i] as u32;
        proof {
            assert(body.take(i - from + 1).drop_last() =~= body.take(i - from));
            lemma_digits_value_grows(body, i - from + 1);
        }
        if d < 0x30 || d > 0x39 {
            return None;
        }
        let next: u128 = 10 * (acc as u128) + ((d - 0x30) as u128);
        if next > max as u128 {
            return None;
        }
        acc = next as u64;
        i = i + 1;
    }
    proof {
        assert(body.take(n - from) =~= body);
    }
    Some(acc)
}

// --- ordering ----------------------------------------------------------------

/// Whether `a` comes strictly before `b`: the order of their characters'
/// code points, a proper prefix coming first.
pub open spec fn comes_before(a: Seq<char>, b: Seq<char>) -> bool
    decreases a.len(),
{
    if b.len() == 0 {
        false
    } else if a.len() == 0 {
        true
    } else if a[0] != b[0] {
        (a[0] as int) < (b[0] as int)
    } else {
        comes_before(a.skip(1), b.skip(1))
    }
}

/// [`comes_before`], as an order to sort by.
pub open spec fn text_order() -> spec_fn(Seq<char>, Seq<char>) -> bool {
    |a: Seq<char>, b: Seq<char>| comes_before(a, b)
}

proof fn lemma_before_asymmetric(a: Seq<char>, b: Seq<char>)
    ensures
        comes_before(a, b) ==> !comes_before(b, a),
        a == b ==> !comes_before(a, b),
        !comes_before(a, b) && !comes_before(b, a) ==> a == b,
    decreases a.len(),
{
    if a.len() > 0 && b.len() > 0 && a[0] == b[0] {
        lemma_before_asymmetric(a.skip(1), b.skip(1));
        if a.skip(1) == b.skip(1) {
            assert(a =~= seq![a[0]] + a.skip(1));
            assert(b =~= seq![b[0]] + b.skip(1));
        }
    } else if a.len() == 0 && b.len() == 0 {
        assert(a =~= b);
    }
}

proof fn lemma_before_transitive(a: Seq<char>, b: Seq<char>, c: Seq<char>)
    ensures
        comes_before(a, c) ==> comes_before(a, b) || comes_before(b, c),
    decreases a.len(),
{
    if a.len() > 0 && b.len() > 0 && c.len() > 0 && a[0] == b[0] && b[0] == c[0] {
        lemma_before_transitive(a.skip(1), b.skip(1), c.skip(1));
    }
}

/// [`comes_before`] is a strict order, and it tells any two texts apart.
pub proof fn lemma_text_order()
    ensures
        seqs::orders(text_order()),
        forall|a: Seq<char>, b: Seq<char>|
            !#[trigger] comes_before(a, b) && !comes_before(b, a) ==> a == b,
{
    let lt = text_order();
    assert forall|a: Seq<char>, b: Seq<char>| #[trigger] lt(a, b) implies !lt(b, a) by {
        lemma_before_asymmetric(a, b);
    }
    assert forall|a: Seq<char>, b: Seq<char>, c: Seq<char>|
        #![trigger lt(a, b), lt(b, c)]
        #![trigger lt(a, b), lt(a, c)]
        #![trigger lt(a, c), lt(b, c)]
        lt(a, c) implies lt(a, b) || lt(b, c) by {
        lemma_before_transitive(a, b, c);
    }
    assert forall|a: Seq<char>, b: Seq<char>|
        !#[trigger] comes_before(a, b) && !comes_before(b, a) implies a == b by {
        lemma_before_asymmetric(a, b);
    }
}

/// Whether `a` comes strictly before `b`.
pub fn precedes(a: &str, b: &str) -> (r: bool)
    ensures
        r == comes_before(a@, b@),
{
    let x: Vec<char> = chars_of(a);
    let y: Vec<char> = chars_of(b);
    let n: usize = x.len();
    let m: usize = y.len();
    let mut i: usize = 0;
    proof {
        assert(x@.skip(0) =~= a@);
        assert(y@.skip(0) =~= b@);
    }
    while i < n && i < m && x[i] == y[i]
        invariant
            n == x@.len(),
            m == y@.len(),
            i <= n,
            i <= m,
            comes_before(a@, b@) == comes_before(x@.skip(i as int), y@.skip(i as int)),
        decreases n - i,
    {
        proof {
            assert(x@.skip(i as int).skip(1) =~= x@.skip(i + 1));
            assert(y@.skip(i as int).skip(1) =~= y@.skip(i + 1));
        }
        i = i + 1;
    }
    if i == m {
        false
    } else if i == n {
        true
    } else {
        x[i] < y[i]
    }
}

} // verus!
