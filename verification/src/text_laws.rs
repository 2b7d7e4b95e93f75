//! What cutting, trimming, ordering and writing texts come to.

use vstd::prelude::*;

use crate::text;

verus! {

/// A text without a separator is its only piece; with one, what stands before
/// the first is the first piece, and the pieces of the rest follow.
pub proof fn lemma_pieces(a: Seq<char>, sep: char, b: Seq<char>)
    requires
        !a.contains(sep),
    ensures
        text::pieces(a, sep) == seq![a],
        text::pieces(a + seq![sep] + b, sep) == seq![a] + text::pieces(b, sep),
{
    text::lemma_find(a, sep);
    if let Some(i) = text::find(a, sep) {
        assert(a.contains(a[i]));
    }
    let s = a + seq![sep] + b;
    text::lemma_find(s, sep);
    assert(s[a.len() as int] == sep);
    let i = text::find(s, sep)->Some_0;
    if i < a.len() {
        assert(a[i] == s[i]);
        assert(a.contains(sep));
    }
    assert(i == a.len());
    assert(s.take(i) =~= a);
    assert(s.skip(i + 1) =~= b);
}

/// Cutting a text at a separator gives what stands before the first and what
/// stands after it.
pub proof fn lemma_cut_once(a: Seq<char>, sep: char, b: Seq<char>)
    requires
        !a.contains(sep),
    ensures
        text::cut_once(a, sep) is None,
        text::cut_once(a + seq![sep] + b, sep) == Some((a, b)),
{
    text::lemma_find(a, sep);
    if let Some(i) = text::find(a, sep) {
        assert(a.contains(a[i]));
    }
    let s = a + seq![sep] + b;
    text::lemma_find(s, sep);
    assert(s[a.len() as int] == sep);
    let i = text::find(s, sep)->Some_0;
    if i < a.len() {
        assert(a[i] == s[i]);
        assert(a.contains(sep));
    }
    assert(s.take(i) =~= a);
    assert(s.skip(i + 1) =~= b);
}

/// Cutting a text at its last separator gives what stands before and after it.
pub proof fn lemma_rcut_once(a: Seq<char>, sep: char, b: Seq<char>)
    requires
        !b.contains(sep),
    ensures
        text::rcut_once(b, sep) is None,
        text::rcut_once(a + seq![sep] + b, sep) == Some((a, b)),
    decreases b.len(),
{
    lemma_rfind(b, sep);
    let s = a + seq![sep] + b;
    lemma_rfind(s, sep);
    assert(s[a.len() as int] == sep);
    let i = text::rfind(s, sep)->Some_0;
    if i > a.len() {
        assert(b[i - a.len() - 1] == s[i]);
        assert(b.contains(sep));
    }
    if let Some(j) = text::rfind(b, sep) {
        assert(b.contains(b[j]));
    }
    assert(s.take(i) =~= a);
    assert(s.skip(i + 1) =~= b);
}

proof fn lemma_rfind(s: Seq<char>, c: char)
    ensures
        match text::rfind(s, c) {
            None => forall|j: int| 0 <= j < s.len() ==> s[j] != c,
            Some(i) => 0 <= i < s.len() && s[i] == c && forall|j: int|
                i < j < s.len() ==> s[j] != c,
        },
    decreases s.len(),
{
    if s.len() > 0 && s.last() != c {
        lemma_rfind(s.drop_last(), c);
        let t = s.drop_last();
        assert(forall|j: int| 0 <= j < t.len() ==> t[j] == s[j]);
    }
}

/// Whether a text is nothing but white space.
pub open spec fn blank(s: Seq<char>) -> bool {
    forall|i: int| 0 <= i < s.len() ==> text::is_space(#[trigger] s[i])
}

/// Trimming takes away the white space around a text and nothing else: what is
/// left neither begins nor ends with any.
pub proof fn lemma_trimmed(s: Seq<char>)
    ensures
        text::trimmed(s).len() > 0 ==> !text::is_space(text::trimmed(s)[0]) && !text::is_space(
            text::trimmed(s).last(),
        ),
        exists|a: Seq<char>, b: Seq<char>|
            blank(a) && blank(b) && #[trigger] (a + text::trimmed(s) + b) == s,
        blank(s) <==> text::trimmed(s).len() == 0,
{
    let (a, t) = lemma_trim_front(s);
    let b = lemma_trim_end(t);
    let r = text::trimmed(s);
    assert(t == r + b);
    assert(a + r + b =~= s);
    if r.len() > 0 {
        assert(r[0] == t[0]);
    }
    if blank(s) && r.len() > 0 {
        assert(s[a.len() as int] == r[0]);
    }
    if r.len() == 0 {
        assert forall|i: int| 0 <= i < s.len() implies text::is_space(#[trigger] s[i]) by {
            if i < a.len() {
                assert(s[i] == a[i]);
            } else {
                assert(s[i] == b[i - a.len()]);
            }
        }
    }
}

proof fn lemma_trim_front(s: Seq<char>) -> (r: (Seq<char>, Seq<char>))
    ensures
        r.1 == text::trim_front(s),
        s == r.0 + r.1,
        blank(r.0),
        r.1.len() > 0 ==> !text::is_space(r.1[0]),
    decreases s.len(),
{
    if s.len() > 0 && text::is_space(s[0]) {
        let (a, t) = lemma_trim_front(s.skip(1));
        let front = seq![s[0]] + a;
        assert(s =~= seq![s[0]] + s.skip(1));
        assert(front + t =~= seq![s[0]] + (a + t));
        assert forall|i: int| 0 <= i < front.len() implies text::is_space(#[trigger] front[i]) by {
            if i > 0 {
                assert(front[i] == a[i - 1]);
            }
        }
        (front, t)
    } else {
        assert(s =~= seq![] + s);
        (seq![], s)
    }
}

proof fn lemma_trim_end(s: Seq<char>) -> (b: Seq<char>)
    ensures
        s == text::trim_end(s) + b,
        blank(b),
        text::trim_end(s).len() > 0 ==> !text::is_space(text::trim_end(s).last()),
    decreases s.len(),
{
    if s.len() > 0 && text::is_space(s.last()) {
        let b = lemma_trim_end(s.drop_last());
        let back = b.push(s.last());
        assert(s =~= s.drop_last().push(s.last()));
        assert(text::trim_end(s) + back =~= (text::trim_end(s) + b).push(s.last()));
        assert forall|i: int| 0 <= i < back.len() implies text::is_space(#[trigger] back[i]) by {
            if i < b.len() {
                assert(back[i] == b[i]);
            }
        }
        back
    } else {
        assert(s =~= s + seq![]);
        seq![]
    }
}

/// Texts are ordered by the first character in which they differ, and one that
/// another begins with comes first.
pub proof fn lemma_text_order_is_lexical(a: Seq<char>, b: Seq<char>, i: int)
    requires
        0 <= i <= a.len(),
        i <= b.len(),
        forall|j: int| 0 <= j < i ==> #[trigger] a[j] == b[j],
        i < a.len() && i < b.len() ==> a[i] != b[i],
    ensures
        i < a.len() && i < b.len() ==> text::comes_before(a, b) == ((a[i] as int) < (b[i] as int)),
        i == a.len() ==> text::comes_before(a, b) == (a.len() < b.len()),
        i == b.len() ==> !text::comes_before(a, b),
    decreases i,
{
    if i > 0 {
        assert(a[0] == b[0]);
        let c = a.skip(1);
        let d = b.skip(1);
        assert forall|j: int| 0 <= j < i - 1 implies #[trigger] c[j] == d[j] by {
            assert(a[j + 1] == b[j + 1]);
        }
        lemma_text_order_is_lexical(c, d, i - 1);
    }
}

/// A game time reads as its minutes, and its seconds in two digits.
pub proof fn lemma_clock(ms: int)
    requires
        ms >= 0,
    ensures
        text::clock(ms) == text::digits((ms / 60_000) as nat) + ":"@ + seq![
            text::digit(((ms / 1_000) % 60 / 10) as nat),
            text::digit(((ms / 1_000) % 60 % 10) as nat),
        ],
{
    let secs = ms / 1_000;
    let ss = secs % 60;
    assert(secs / 60 == ms / 60_000);
    assert(text::trem(secs, 60) == ss);
    reveal_strlit("0");
    reveal_with_fuel(text::digits, 2);
    let two = seq![text::digit((ss / 10) as nat), text::digit((ss % 10) as nat)];
    assert(text::dec2(ss) =~= two);
}

/// A number is written with its sign where it is negative, and a change always
/// with one.
pub proof fn lemma_signs(n: int)
    ensures
        n < 0 ==> text::dec(n) == "-"@ + text::digits((-n) as nat),
        n >= 0 ==> text::dec(n) == text::digits(n as nat),
        n < 0 ==> text::signed(n) == "-"@ + text::digits((-n) as nat),
        n >= 0 ==> text::signed(n) == "+"@ + text::digits(n as nat),
{
}

/// The digits of a number are decimal: the last one is its remainder by ten,
/// and the others are those of a tenth of it.
pub proof fn lemma_digits(n: nat)
    ensures
        text::digits(n).last() == (0x30 + n % 10) as char,
        n >= 10 ==> text::digits(n).drop_last() == text::digits(n / 10),
        n < 10 ==> text::digits(n).len() == 1,
{
    if n >= 10 {
        assert(text::digits(n).drop_last() =~= text::digits(n / 10));
    }
}

/// A number is read from digits alone, and no larger than what it may be.
pub proof fn lemma_numbers(s: Seq<char>, max: nat)
    ensures
        text::number_at_most(s, max) matches Some(n) ==> n <= max,
        s.len() == 0 ==> text::number_at_most(s, max) is None,
        forall|i: int|
            0 < i < s.len() && !(0x30 <= #[trigger] s[i] as u32 <= 0x39) ==> text::number_at_most(s, max)
                is None,
{
    let body = text::unsigned_part(s);
    assert forall|i: int| 0 < i < s.len() && !(0x30 <= #[trigger] s[i] as u32 <= 0x39) implies text::number_at_most(
        s,
        max,
    ) is None by {
        let k = if body.len() < s.len() {
            i - 1
        } else {
            i
        };
        assert(body[k] == s[i]);
        lemma_no_digits(body, k);
    }
}

proof fn lemma_no_digits(s: Seq<char>, k: int)
    requires
        0 <= k < s.len(),
        !(0x30 <= s[k] as u32 <= 0x39),
    ensures
        text::digits_value(s) is None,
    decreases s.len(),
{
    if k < s.len() - 1 {
        lemma_no_digits(s.drop_last(), k);
    }
}

/// Division rounds toward zero.
pub proof fn lemma_division(a: int, b: int)
    requires
        b > 0,
    ensures
        a >= 0 ==> text::tdiv(a, b) == a / b,
        text::tdiv(-a, b) == -text::tdiv(a, b),
        text::tdiv(a, b) * b + text::trem(a, b) == a,
{
    assert(text::tdiv(a, b) * b == b * text::tdiv(a, b)) by (nonlinear_arith);
    if a == 0 {
        assert(0int / b == 0) by (nonlinear_arith)
            requires
                b > 0,
        ;
    }
}

/// A text that ends in a line feed has the lines before it: one more line at
/// the front is one more line.
pub proof fn lemma_lines(a: Seq<char>, b: Seq<char>)
    requires
        !a.contains('\n'),
        a.len() > 0 ==> a.last() != '\r',
    ensures
        text::line_texts(a + seq!['\n'] + b) == seq![a] + text::line_texts(b),
{
    lemma_pieces(a, '\n', b);
    let s = a + seq!['\n'] + b;
    let cut = text::pieces(b, '\n');
    lemma_some_piece(b, '\n');
    let all = text::pieces(s, '\n');
    assert(all.drop_last() =~= seq![a] + cut.drop_last());
    assert(all.last() == cut.last());
    let f = |l: Seq<char>| text::strip_cr(l);
    assert(all.drop_last().map_values(f) =~= seq![a] + cut.drop_last().map_values(f));
    assert(text::line_texts(s) =~= seq![a] + text::line_texts(b));
}

proof fn lemma_some_piece(s: Seq<char>, sep: char)
    ensures
        text::pieces(s, sep).len() > 0,
{
    if let Some(i) = text::find(s, sep) {
        assert(text::pieces(s, sep)[0] == s.take(i));
    }
}

} // verus!
