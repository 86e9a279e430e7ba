//! Text primitives: the pieces of string handling the parsers are made of,
//! each stated over the characters of a string.
use vstd::prelude::*;

verus! {

/// The characters of a piece of text.
pub type Str = Seq<char>;

/// The views of a sequence of values, element by element.
pub open spec fn views<T: View>(s: Seq<T>) -> Seq<T::V> {
    s.map_values(|x: T| x@)
}

/// The view of an optional value.
pub open spec fn opt_view<T: View>(o: Option<T>) -> Option<T::V> {
    match o {
        Some(x) => Some(x@),
        None => None,
    }
}

pub broadcast proof fn views_push<T: View>(s: Seq<T>, x: T)
    ensures
        #[trigger] views(s.push(x)) == views(s).push(x@),
{
    assert(views(s.push(x)) =~= views(s).push(x@));
}

pub broadcast proof fn views_empty<T: View>()
    ensures
        #[trigger] views(Seq::<T>::empty()) == Seq::<T::V>::empty(),
{
    assert(views(Seq::<T>::empty()) =~= Seq::<T::V>::empty());
}

/// `std::string::String::push`: one character goes to the end of the string.
pub assume_specification[ String::push ](s: &mut String, c: char)
    ensures
        final(s)@ == old(s)@.push(c),
;

/// The characters of a string, one per element.
pub fn to_chars(s: &str) -> (r: Vec<char>)
    ensures
        r@ == s@,
{
    let mut r: Vec<char> = Vec::new();
    for c in it: s.chars()
        invariant
            it.seq() == s@,
            r@ == s@.take(it.index() as int),
    {
        r.push(c);
        assert(r@ == s@.take(it.index() + 1));
    }
    r
}

/// The string made of the characters `cs[from..to]`.
pub fn from_chars(cs: &Vec<char>, from: usize, to: usize) -> (r: String)
    requires
        from <= to <= cs@.len(),
    ensures
        r@ == cs@.subrange(from as int, to as int),
{
    let mut r = String::new();
    let mut i = from;
    while i < to
        invariant
            from <= i <= to <= cs@.len(),
            r@ == cs@.subrange(from as int, i as int),
        decreases to - i,
    {
        r.push(cs[i]);
        i = i + 1;
        assert(r@ == cs@.subrange(from as int, i as int));
    }
    r
}

/// An owned copy of a string slice.
pub fn owned(s: &str) -> (r: String)
    ensures
        r@ == s@,
{
    s.to_owned()
}

/// `a` followed by `b`.
pub fn glue(a: &str, b: &str) -> (r: String)
    ensures
        r@ == a@ + b@,
{
    let mut r = s_new();
    r.append(a);
    r.append(b);
    assert(r@ == a@ + b@);
    r
}

/// `a`, `b` and `c` in a row.
pub fn glue3(a: &str, b: &str, c: &str) -> (r: String)
    ensures
        r@ == a@ + b@ + c@,
{
    let mut r = owned(a);
    r.append(b);
    r.append(c);
    r
}

fn s_new() -> (r: String)
    ensures
        r@ == Seq::<char>::empty(),
{
    String::new()
}

/// Whether two strings hold the same characters.
pub fn same(a: &str, b: &str) -> (r: bool)
    ensures
        r == (a@ == b@),
{
    let x = to_chars(a);
    let y = to_chars(b);
    same_chars(&x, &y)
}

/// Whether two character lists are equal.
pub fn same_chars(x: &Vec<char>, y: &Vec<char>) -> (r: bool)
    ensures
        r == (x@ == y@),
{
    if x.len() != y.len() {
        return false;
    }
    let mut i: usize = 0;
    while i < x.len()
        invariant
            i <= x.len(),
            x.len() == y.len(),
            forall|j: int| 0 <= j < i ==> x@[j] == y@[j],
        decreases x.len() - i,
    {
        if x[i] != y[i] {
            return false;
        }
        i = i + 1;
    }
    assert(x@ =~= y@);
    true
}

// ---------------------------------------------------------------------
// White space
// ---------------------------------------------------------------------

/// The characters with the Unicode `White_Space` property.
pub open spec fn space(c: char) -> bool {
    ||| '\u{9}' <= c <= '\u{d}'
    ||| c == ' '
    ||| c == '\u{85}'
    ||| c == '\u{a0}'
    ||| c == '\u{1680}'
    ||| '\u{2000}' <= c <= '\u{200a}'
    ||| c == '\u{2028}'
    ||| c == '\u{2029}'
    ||| c == '\u{202f}'
    ||| c == '\u{205f}'
    ||| c == '\u{3000}'
}

/// Whether `c` is white space.
pub fn is_space(c: char) -> (r: bool)
    ensures
        r == space(c),
{
    ('\u{9}' <= c && c <= '\u{d}') || c == ' ' || c == '\u{85}' || c == '\u{a0}' || c == '\u{1680}'
        || ('\u{2000}' <= c && c <= '\u{200a}') || c == '\u{2028}' || c == '\u{2029}' || c
        == '\u{202f}' || c == '\u{205f}' || c == '\u{3000}'
}

/// How many characters of white space `s` begins with.
pub open spec fn lead(s: Str) -> nat
    decreases s.len(),
{
    if s.len() > 0 && space(s[0]) {
        1 + lead(s.skip(1))
    } else {
        0
    }
}

/// Where the white space that `s` ends in begins.
pub open spec fn tail_end(s: Str) -> nat
    decreases s.len(),
{
    if s.len() > 0 && space(s.last()) {
        tail_end(s.drop_last())
    } else {
        s.len()
    }
}

/// `s` without the white space it begins with.
pub open spec fn trim_start(s: Str) -> Str {
    s.skip(lead(s) as int)
}

/// `s` without the white space it ends in.
pub open spec fn trim_end(s: Str) -> Str {
    s.take(tail_end(s) as int)
}

/// `s` without white space at either end.
pub open spec fn trim(s: Str) -> Str {
    trim_end(trim_start(s))
}

pub proof fn lemma_lead(s: Str)
    ensures
        lead(s) <= s.len(),
        forall|i: int| 0 <= i < lead(s) ==> space(#[trigger] s[i]),
        lead(s) < s.len() ==> !space(s[lead(s) as int]),
    decreases s.len(),
{
    if s.len() > 0 && space(s[0]) {
        let t = s.skip(1);
        lemma_lead(t);
        assert forall|i: int| 0 <= i < lead(s) implies space(#[trigger] s[i]) by {
            if i > 0 {
                assert(t[i - 1] == s[i]);
            }
        }
    }
}

pub proof fn lemma_lead_is(s: Str, n: int)
    requires
        0 <= n <= s.len(),
        forall|i: int| 0 <= i < n ==> space(#[trigger] s[i]),
        n < s.len() ==> !space(s[n]),
    ensures
        lead(s) == n,
{
    lemma_lead(s);
    if lead(s) < n {
        assert(space(s[lead(s) as int]));
    } else if n < lead(s) {
        assert(space(s[n]));
    }
}

pub proof fn lemma_tail_end(s: Str)
    ensures
        tail_end(s) <= s.len(),
        forall|i: int| tail_end(s) <= i < s.len() ==> space(#[trigger] s[i]),
        tail_end(s) > 0 ==> !space(s[tail_end(s) - 1]),
    decreases s.len(),
{
    if s.len() > 0 && space(s.last()) {
        let t = s.drop_last();
        lemma_tail_end(t);
        assert forall|i: int| tail_end(s) <= i < s.len() implies space(#[trigger] s[i]) by {
            if i < s.len() - 1 {
                assert(t[i] == s[i]);
            }
        }
    }
}

pub proof fn lemma_tail_end_is(s: Str, n: int)
    requires
        0 <= n <= s.len(),
        forall|i: int| n <= i < s.len() ==> space(#[trigger] s[i]),
        n > 0 ==> !space(s[n - 1]),
    ensures
        tail_end(s) == n,
{
    lemma_tail_end(s);
    if tail_end(s) < n {
        assert(space(s[n - 1]));
    } else if n < tail_end(s) {
        assert(space(s[tail_end(s) - 1]));
    }
}

/// Text that neither begins with nor ends in white space stays as it is.
pub proof fn lemma_trim_clean(s: Str)
    requires
        s.len() > 0,
        !space(s[0]),
        !space(s.last()),
    ensures
        trim(s) == s,
{
    lemma_lead_is(s, 0);
    assert(trim_start(s) =~= s);
    lemma_tail_end_is(s, s.len() as int);
    assert(trim(s) =~= s);
}

/// How many characters of white space `cs` begins with.
pub fn lead_len(cs: &Vec<char>) -> (n: usize)
    ensures
        n == lead(cs@),
        n <= cs@.len(),
{
    let mut i: usize = 0;
    while i < cs.len() && is_space(cs[i])
        invariant
            i <= cs@.len(),
            forall|j: int| 0 <= j < i ==> space(#[trigger] cs@[j]),
        decreases cs@.len() - i,
    {
        i = i + 1;
    }
    proof {
        lemma_lead_is(cs@, i as int);
    }
    i
}

/// Drops the white space a string begins with.
pub fn drop_lead(s: &str) -> (r: String)
    ensures
        r@ == trim_start(s@),
{
    let cs = to_chars(s);
    let n = lead_len(&cs);
    let r = from_chars(&cs, n, cs.len());
    assert(r@ =~= trim_start(s@));
    r
}

/// Drops the white space a string ends in.
pub fn drop_tail(s: &str) -> (r: String)
    ensures
        r@ == trim_end(s@),
{
    let cs = to_chars(s);
    let mut n: usize = cs.len();
    while n > 0 && is_space(cs[n - 1])
        invariant
            n <= cs@.len(),
            forall|j: int| n <= j < cs@.len() ==> space(#[trigger] cs@[j]),
        decreases n,
    {
        n = n - 1;
    }
    proof {
        lemma_tail_end_is(cs@, n as int);
    }
    let r = from_chars(&cs, 0, n);
    assert(r@ =~= trim_end(s@));
    r
}

/// Drops the white space around a string.
pub fn strip(s: &str) -> (r: String)
    ensures
        r@ == trim(s@),
{
    let a = drop_lead(s);
    drop_tail(a.as_str())
}

/// Whether a string is empty or all white space.
pub fn is_blank(s: &str) -> (r: bool)
    ensures
        r == (trim(s@).len() == 0),
{
    let t = strip(s);
    t.as_str().is_empty()
}

/// Text of white space alone trims to nothing, and only such text does.
pub proof fn lemma_blank(s: Str)
    ensures
        trim(s).len() == 0 <==> (forall|i: int| 0 <= i < s.len() ==> space(#[trigger] s[i])),
        trim(s).len() == 0 <==> lead(s) == s.len(),
{
    lemma_lead(s);
    let t = trim_start(s);
    lemma_tail_end(t);
    if lead(s) < s.len() {
        assert(t[0] == s[lead(s) as int]);
        if tail_end(t) == 0 {
            assert(space(t[0]));
        }
    }
}

// ---------------------------------------------------------------------
// Characters
// ---------------------------------------------------------------------

/// The index of the first `c` in `s`, or the length of `s` where it has none.
pub open spec fn first(s: Str, c: char) -> int
    decreases s.len(),
{
    if s.len() == 0 || s[0] == c {
        0
    } else {
        1 + first(s.skip(1), c)
    }
}

pub proof fn lemma_first(s: Str, c: char)
    ensures
        0 <= first(s, c) <= s.len(),
        forall|i: int| 0 <= i < first(s, c) ==> #[trigger] s[i] != c,
        first(s, c) < s.len() ==> s[first(s, c)] == c,
    decreases s.len(),
{
    if s.len() > 0 && s[0] != c {
        let t = s.skip(1);
        lemma_first(t, c);
        assert forall|i: int| 0 <= i < first(s, c) implies #[trigger] s[i] != c by {
            if i > 0 {
                assert(t[i - 1] == s[i]);
            }
        }
    }
}

pub proof fn lemma_first_is(s: Str, c: char, n: int)
    requires
        0 <= n <= s.len(),
        forall|i: int| 0 <= i < n ==> #[trigger] s[i] != c,
        n < s.len() ==> s[n] == c,
    ensures
        first(s, c) == n,
{
    lemma_first(s, c);
    if first(s, c) < n {
        assert(s[first(s, c)] != c);
    } else if n < first(s, c) {
        assert(s[n] != c);
    }
}

/// The index of the first `c` in `cs[from..]`, counted from the start of `cs`.
pub fn first_from(cs: &Vec<char>, c: char, from: usize) -> (n: usize)
    requires
        from <= cs@.len(),
    ensures
        from <= n <= cs@.len(),
        n == from + first(cs@.skip(from as int), c),
{
    let mut i = from;
    while i < cs.len() && cs[i] != c
        invariant
            from <= i <= cs@.len(),
            forall|j: int| from <= j < i ==> #[trigger] cs@[j] != c,
        decreases cs@.len() - i,
    {
        i = i + 1;
    }
    proof {
        lemma_first_is(cs@.skip(from as int), c, i - from);
    }
    i
}

/// `s` cut at its first `c`: what stands before it and what stands after it.
pub open spec fn cut(s: Str, c: char) -> Option<(Str, Str)> {
    if first(s, c) < s.len() {
        Some((s.take(first(s, c)), s.skip(first(s, c) + 1)))
    } else {
        None
    }
}

/// Cuts a string at its first `c`.
pub fn split_once(s: &str, c: char) -> (r: Option<(String, String)>)
    ensures
        match r {
            Some((a, b)) => cut(s@, c) == Some((a@, b@)),
            None => cut(s@, c) is None,
        },
{
    let cs = to_chars(s);
    let n = first_from(&cs, c, 0);
    assert(cs@.skip(0) =~= cs@);
    if n < cs.len() {
        let a = from_chars(&cs, 0, n);
        let b = from_chars(&cs, n + 1, cs.len());
        assert(a@ =~= s@.take(n as int));
        assert(b@ =~= s@.skip(n + 1));
        Some((a, b))
    } else {
        None
    }
}

/// `s` cut at every `c`: one more piece than there are `c`s.
pub open spec fn pieces(s: Str, c: char) -> Seq<Str>
    decreases s.len(),
{
    if 0 <= first(s, c) < s.len() {
        seq![s.take(first(s, c))] + pieces(s.skip(first(s, c) + 1), c)
    } else {
        seq![s]
    }
}

/// Cuts a string at every `c`.
pub fn split(s: &str, c: char) -> (r: Vec<String>)
    ensures
        views(r@) == pieces(s@, c),
        r@.len() > 0,
{
    let cs = to_chars(s);
    let mut r: Vec<String> = Vec::new();
    let mut at: usize = 0;
    proof {
        assert(cs@.skip(0) =~= cs@);
        assert(views(r@) + pieces(cs@.skip(0), c) =~= pieces(s@, c));
    }
    loop
        invariant_except_break
            at <= cs@.len(),
            cs@ == s@,
            views(r@) + pieces(cs@.skip(at as int), c) == pieces(s@, c),
        ensures
            views(r@) == pieces(s@, c),
            r@.len() > 0,
        decreases cs@.len() - at,
    {
        let n = first_from(&cs, c, at);
        let ghost rest = cs@.skip(at as int);
        let piece = from_chars(&cs, at, n);
        proof {
            assert(piece@ =~= rest.take(n - at));
            assert(rest.skip(n - at + 1) =~= cs@.skip(n + 1) || n == cs@.len());
            views_push(r@, piece);
        }
        r.push(piece);
        if n < cs.len() {
            at = n + 1;
            assert(views(r@) + pieces(cs@.skip(at as int), c) =~= pieces(s@, c));
        } else {
            assert(piece@ =~= rest);
            assert(views(r@) =~= pieces(s@, c));
            break;
        }
    }
    r
}

/// `s` without one carriage return at its end.
pub open spec fn chop_cr(s: Str) -> Str {
    if s.len() > 0 && s.last() == '\r' {
        s.drop_last()
    } else {
        s
    }
}

/// The lines of a text: each ends in a line feed, which with a carriage return
/// before it is not part of the line; what follows the last line feed is a line
/// of its own unless it is empty.
pub open spec fn lines(s: Str) -> Seq<Str>
    decreases s.len(),
{
    if s.len() == 0 {
        Seq::empty()
    } else if 0 <= first(s, '\n') < s.len() {
        seq![chop_cr(s.take(first(s, '\n')))] + lines(s.skip(first(s, '\n') + 1))
    } else {
        seq![s]
    }
}

/// A line without a line feed in it and without a carriage return at its end
/// is the first line of any text that begins with it and a line feed.
pub proof fn lemma_line(l: Str, rest: Str)
    requires
        forall|i: int| 0 <= i < l.len() ==> #[trigger] l[i] != '\n',
        l.len() > 0 ==> l.last() != '\r',
    ensures
        lines(l + "\n"@ + rest) == seq![l] + lines(rest),
{
    reveal_strlit("\n");
    let s = l + "\n"@ + rest;
    let n = l.len() as int;
    assert(s[n] == '\n');
    assert forall|i: int| 0 <= i < n implies #[trigger] s[i] != '\n' by {
        assert(s[i] == l[i]);
    }
    lemma_first_is(s, '\n', n);
    assert(s.take(n) =~= l);
    assert(s.skip(n + 1) =~= rest);
}

/// The lines of a text, in order.
pub fn split_lines(s: &str) -> (r: Vec<String>)
    ensures
        views(r@) == lines(s@),
{
    let cs = to_chars(s);
    let mut r: Vec<String> = Vec::new();
    let mut at: usize = 0;
    proof {
        assert(cs@.skip(0) =~= cs@);
        assert(views(r@) + lines(cs@.skip(0)) =~= lines(s@));
    }
    while at < cs.len()
        invariant
            at <= cs@.len(),
            cs@ == s@,
            views(r@) + lines(cs@.skip(at as int)) == lines(s@),
        decreases cs@.len() - at,
    {
        let n = first_from(&cs, '\n', at);
        let ghost rest = cs@.skip(at as int);
        if n < cs.len() {
            let end = if n > at && cs[n - 1] == '\r' {
                n - 1
            } else {
                n
            };
            let line = from_chars(&cs, at, end);
            proof {
                let whole = rest.take(n - at);
                assert(n > at ==> whole.last() == cs@[n - 1]);
                assert(line@ =~= chop_cr(whole));
                assert(rest.skip(n - at + 1) =~= cs@.skip(n + 1));
                views_push(r@, line);
            }
            r.push(line);
            at = n + 1;
            assert(views(r@) + lines(cs@.skip(at as int)) =~= lines(s@));
        } else {
            let line = from_chars(&cs, at, n);
            proof {
                assert(line@ =~= rest);
                views_push(r@, line);
            }
            r.push(line);
            at = n;
            assert(cs@.skip(at as int) =~= Seq::<char>::empty());
            assert(views(r@) + lines(cs@.skip(at as int)) =~= lines(s@));
        }
    }
    proof {
        assert(cs@.skip(at as int) =~= Seq::<char>::empty());
        assert(views(r@) =~= lines(s@));
    }
    r
}

/// The index of the first white space in `s`, or its length.
pub open spec fn word_len(s: Str) -> nat
    decreases s.len(),
{
    if s.len() == 0 || space(s[0]) {
        0
    } else {
        1 + word_len(s.skip(1))
    }
}

pub proof fn lemma_word_len(s: Str)
    ensures
        word_len(s) <= s.len(),
        forall|i: int| 0 <= i < word_len(s) ==> !space(#[trigger] s[i]),
        word_len(s) < s.len() ==> space(s[word_len(s) as int]),
        s.len() > 0 && !space(s[0]) ==> word_len(s) > 0,
    decreases s.len(),
{
    if s.len() > 0 && !space(s[0]) {
        let t = s.skip(1);
        lemma_word_len(t);
        assert forall|i: int| 0 <= i < word_len(s) implies !space(#[trigger] s[i]) by {
            if i > 0 {
                assert(t[i - 1] == s[i]);
            }
        }
    }
}

pub proof fn lemma_word_len_is(s: Str, n: int)
    requires
        0 <= n <= s.len(),
        forall|i: int| 0 <= i < n ==> !space(#[trigger] s[i]),
        n < s.len() ==> space(s[n]),
    ensures
        word_len(s) == n,
{
    lemma_word_len(s);
    if word_len(s) < n {
        assert(!space(s[word_len(s) as int]));
    } else if n < word_len(s) {
        assert(!space(s[n]));
    }
}

/// The words of a text: its longest stretches without white space, in order.
pub open spec fn words(s: Str) -> Seq<Str>
    decreases s.len(),
{
    let t = trim_start(s);
    if t.len() == 0 || t.len() > s.len() || word_len(t) == 0 || word_len(t) > t.len() {
        Seq::empty()
    } else {
        seq![t.take(word_len(t) as int)] + words(t.skip(word_len(t) as int))
    }
}

/// The words of a text, in order.
pub fn split_words(s: &str) -> (r: Vec<String>)
    ensures
        views(r@) == words(s@),
{
    let cs = to_chars(s);
    let mut r: Vec<String> = Vec::new();
    let mut at: usize = 0;
    proof {
        assert(cs@.skip(0) =~= cs@);
        assert(views(r@) + words(cs@.skip(0)) =~= words(s@));
    }
    loop
        invariant_except_break
            at <= cs@.len(),
            cs@ == s@,
            views(r@) + words(cs@.skip(at as int)) == words(s@),
        ensures
            views(r@) == words(s@),
        decreases cs@.len() - at,
    {
        let ghost rest = cs@.skip(at as int);
        let mut b = at;
        while b < cs.len() && is_space(cs[b])
            invariant
                at <= b <= cs@.len(),
                forall|j: int| at <= j < b ==> space(#[trigger] cs@[j]),
            decreases cs@.len() - b,
        {
            b = b + 1;
        }
        proof {
            assert forall|i: int| 0 <= i < b - at implies space(#[trigger] rest[i]) by {
                assert(rest[i] == cs@[at + i]);
            }
            lemma_lead_is(rest, b - at);
            assert(trim_start(rest) =~= cs@.skip(b as int));
        }
        if b == cs.len() {
            assert(trim_start(rest).len() == 0);
            assert(views(r@) =~= words(s@));
            break;
        }
        let mut e = b;
        while e < cs.len() && !is_space(cs[e])
            invariant
                b <= e <= cs@.len(),
                forall|j: int| b <= j < e ==> !space(#[trigger] cs@[j]),
            decreases cs@.len() - e,
        {
            e = e + 1;
        }
        let w = from_chars(&cs, b, e);
        proof {
            let t = cs@.skip(b as int);
            assert forall|i: int| 0 <= i < e - b implies !space(#[trigger] t[i]) by {
                assert(t[i] == cs@[b + i]);
            }
            lemma_word_len_is(t, e - b);
            lemma_word_len(t);
            assert(!space(t[0]));
            assert(w@ =~= t.take(e - b));
            assert(t.skip(e - b) =~= cs@.skip(e as int));
            views_push(r@, w);
        }
        r.push(w);
        at = e;
        assert(views(r@) + words(cs@.skip(at as int)) =~= words(s@));
    }
    r
}

// ---------------------------------------------------------------------
// Prefixes, suffixes and substrings
// ---------------------------------------------------------------------

/// Whether `s` begins with `p`.
pub open spec fn starts(s: Str, p: Str) -> bool {
    p.len() <= s.len() && s.take(p.len() as int) == p
}

/// Whether `s` ends in `p`.
pub open spec fn ends(s: Str, p: Str) -> bool {
    p.len() <= s.len() && s.skip(s.len() - p.len()) == p
}

/// Whether `p` stands in `s` at index `i`.
pub open spec fn occurs(s: Str, p: Str, i: int) -> bool {
    0 <= i && i + p.len() <= s.len() && s.subrange(i, i + p.len()) == p
}

/// Whether `p` stands in `s` anywhere.
pub open spec fn holds(s: Str, p: Str) -> bool {
    exists|i: int| occurs(s, p, i)
}

/// Whether `i` is the first index at which `p` stands in `s`.
pub open spec fn occurs_first(s: Str, p: Str, i: int) -> bool {
    occurs(s, p, i) && forall|j: int| 0 <= j < i ==> !occurs(s, p, j)
}

fn matches_at(s: &Vec<char>, p: &Vec<char>, at: usize) -> (r: bool)
    requires
        at <= s@.len(),
    ensures
        r == occurs(s@, p@, at as int),
{
    if s.len() - at < p.len() {
        return false;
    }
    let mut i: usize = 0;
    while i < p.len()
        invariant
            i <= p@.len(),
            at + p@.len() <= s.len(),
            forall|j: int| 0 <= j < i ==> s@[at + j] == p@[j],
        decreases p@.len() - i,
    {
        if s[at + i] != p[i] {
            proof {
                assert(s@.subrange(at as int, at + p@.len())[i as int] == s@[at + i]);
            }
            return false;
        }
        i = i + 1;
    }
    assert(s@.subrange(at as int, at + p@.len()) =~= p@);
    true
}

/// Whether a string begins with another.
pub fn begins_with(s: &str, p: &str) -> (r: bool)
    ensures
        r == starts(s@, p@),
{
    let a = to_chars(s);
    let b = to_chars(p);
    let r = matches_at(&a, &b, 0);
    proof {
        if p@.len() <= s@.len() {
            assert(s@.take(p@.len() as int) =~= s@.subrange(0, p@.len() as int));
        }
    }
    r
}

/// Whether a string ends in another.
pub fn ends_in(s: &str, p: &str) -> (r: bool)
    ensures
        r == ends(s@, p@),
{
    let a = to_chars(s);
    let b = to_chars(p);
    if b.len() > a.len() {
        return false;
    }
    let r = matches_at(&a, &b, a.len() - b.len());
    proof {
        assert(s@.skip(s@.len() - p@.len()) =~= s@.subrange(
            s@.len() - p@.len(),
            s@.len() as int,
        ));
    }
    r
}

/// What follows `p` in a string that begins with it.
pub fn strip_prefix(s: &str, p: &str) -> (r: Option<String>)
    ensures
        match r {
            Some(t) => starts(s@, p@) && t@ == s@.skip(p@.len() as int),
            None => !starts(s@, p@),
        },
{
    if begins_with(s, p) {
        let cs = to_chars(s);
        let n = to_chars(p).len();
        let t = from_chars(&cs, n, cs.len());
        assert(t@ =~= s@.skip(n as int));
        Some(t)
    } else {
        None
    }
}

/// What precedes `p` in a string that ends in it.
pub fn strip_suffix(s: &str, p: &str) -> (r: Option<String>)
    ensures
        match r {
            Some(t) => ends(s@, p@) && t@ == s@.take(s@.len() - p@.len()),
            None => !ends(s@, p@),
        },
{
    if ends_in(s, p) {
        let cs = to_chars(s);
        let n = to_chars(p).len();
        let t = from_chars(&cs, 0, cs.len() - n);
        assert(t@ =~= s@.take(s@.len() - n));
        Some(t)
    } else {
        None
    }
}

/// The first index at which `p` stands in `s` at or after `from`.
pub fn find_from(s: &Vec<char>, p: &Vec<char>, from: usize) -> (r: Option<usize>)
    requires
        from <= s@.len(),
    ensures
        match r {
            Some(i) => from <= i && i + p@.len() <= s@.len() && occurs(s@, p@, i as int)
                && forall|j: int| from <= j < i ==> !occurs(s@, p@, j),
            None => forall|j: int| from <= j ==> !occurs(s@, p@, j),
        },
{
    let mut i = from;
    loop
        invariant
            from <= i <= s@.len(),
            forall|j: int| from <= j < i ==> !occurs(s@, p@, j),
        decreases s@.len() - i,
    {
        if matches_at(s, p, i) {
            return Some(i);
        }
        if i == s.len() {
            return None;
        }
        i = i + 1;
    }
}

/// The first index at which `p` stands in `s`.
pub fn find(s: &str, p: &str) -> (r: Option<usize>)
    ensures
        match r {
            Some(i) => occurs_first(s@, p@, i as int),
            None => !holds(s@, p@),
        },
{
    let a = to_chars(s);
    let b = to_chars(p);
    find_from(&a, &b, 0)
}

/// Whether `p` stands in `s`.
pub fn has_text(s: &str, p: &str) -> (r: bool)
    ensures
        r == holds(s@, p@),
{
    match find(s, p) {
        Some(i) => true,
        None => false,
    }
}

/// What follows the first `p` in `s`.
pub open spec fn after_first(s: Str, p: Str) -> Option<Str> {
    if holds(s, p) {
        let i = choose|i: int| occurs_first(s, p, i);
        Some(s.skip(i + p.len()))
    } else {
        None
    }
}

/// What follows the first `p` in a string.
pub fn after(s: &str, p: &str) -> (r: Option<String>)
    ensures
        opt_view(r) == after_first(s@, p@),
{
    match find(s, p) {
        Some(i) => {
            let cs = to_chars(s);
            let n = to_chars(p).len();
            assert(i + n <= cs.len());
            let t = from_chars(&cs, i + n, cs.len());
            proof {
                let j = choose|j: int| occurs_first(s@, p@, j);
                assert(i as int == j);
                assert(t@ =~= s@.skip(i + n));
            }
            Some(t)
        },
        None => None,
    }
}

// ---------------------------------------------------------------------
// Joining
// ---------------------------------------------------------------------

/// Words joined by blanks are the words of the text they make.
pub proof fn lemma_words_join(c: Seq<Str>)
    requires
        forall|i: int|
            0 <= i < c.len() ==> (#[trigger] c[i]).len() > 0 && forall|j: int|
                0 <= j < c[i].len() ==> !space(#[trigger] c[i][j]),
    ensures
        words(join(c, " "@)) == c,
{
    reveal_strlit(" ");
    lemma_words_then(c, Seq::empty());
    assert(join(c, " "@) + Seq::<char>::empty() =~= join(c, " "@));
    assert(words(Seq::empty()) =~= Seq::<Str>::empty());
    assert(c + Seq::<Str>::empty() =~= c);
}

/// As above, with more text behind the words, apart from them.
proof fn lemma_words_then(c: Seq<Str>, rest: Str)
    requires
        forall|i: int|
            0 <= i < c.len() ==> (#[trigger] c[i]).len() > 0 && forall|j: int|
                0 <= j < c[i].len() ==> !space(#[trigger] c[i][j]),
        rest.len() > 0 ==> space(rest[0]),
    ensures
        words(join(c, " "@) + rest) == c + words(rest),
    decreases c.len(),
{
    reveal_strlit(" ");
    if c.len() == 0 {
        assert(join(c, " "@) + rest =~= rest);
        assert(c + words(rest) =~= words(rest));
    } else {
        let d = c.drop_last();
        let w = c[c.len() - 1];
        let s = w + rest;
        lemma_lead_is(s, 0);
        assert(trim_start(s) =~= s);
        lemma_word_len_is(s, w.len() as int);
        assert(s.take(w.len() as int) =~= w);
        assert(s.skip(w.len() as int) =~= rest);
        assert(words(s) == seq![w] + words(rest));
        if c.len() == 1 {
            assert(join(c, " "@) + rest =~= s);
            assert(seq![w] + words(rest) =~= c + words(rest));
        } else {
            let t = " "@ + s;
            assert forall|i: int| 0 <= i < d.len() implies (#[trigger] d[i]).len() > 0 && forall|
                j: int,
            |
                0 <= j < d[i].len() ==> !space(#[trigger] d[i][j]) by {
                assert(d[i] == c[i]);
            }
            lemma_words_then(d, t);
            assert(join(c, " "@) + rest =~= join(d, " "@) + t);
            assert(t[1] == w[0]);
            lemma_lead_is(t, 1);
            assert(trim_start(t) =~= s);
            assert(words(t) == words(s));
            assert(d + (seq![w] + words(rest)) =~= c + words(rest));
        }
    }
}

/// The parts in order with `sep` between each two.
pub open spec fn join(parts: Seq<Str>, sep: Str) -> Str
    decreases parts.len(),
{
    if parts.len() == 0 {
        Seq::empty()
    } else if parts.len() == 1 {
        parts[0]
    } else {
        join(parts.drop_last(), sep) + sep + parts.last()
    }
}

/// Joins strings with a separator between each two.
pub fn join_with(parts: &Vec<String>, sep: &str) -> (r: String)
    ensures
        r@ == join(views(parts@), sep@),
{
    let mut r = String::new();
    let mut i: usize = 0;
    let ghost v = views(parts@);
    assert(v.take(0) =~= Seq::<Str>::empty());
    while i < parts.len()
        invariant
            i <= parts@.len(),
            v == views(parts@),
            r@ == join(v.take(i as int), sep@),
        decreases parts@.len() - i,
    {
        if i > 0 {
            r.append(sep);
        }
        r.append(parts[i].as_str());
        proof {
            assert(v.take(i + 1).drop_last() =~= v.take(i as int));
            assert(v.take(i + 1).last() == parts@[i as int]@);
            if i == 0 {
                assert(v.take(0) =~= Seq::<Str>::empty());
            }
            assert(r@ =~= join(v.take(i + 1), sep@));
        }
        i = i + 1;
    }
    assert(v.take(parts@.len() as int) =~= v);
    r
}

/// Whether a list of strings holds a string.
pub fn list_has(v: &Vec<String>, s: &str) -> (r: bool)
    ensures
        r == views(v@).contains(s@),
{
    let mut i: usize = 0;
    while i < v.len()
        invariant
            i <= v@.len(),
            forall|j: int| 0 <= j < i ==> v@[j]@ != s@,
        decreases v@.len() - i,
    {
        if same(v[i].as_str(), s) {
            assert(views(v@)[i as int] == s@);
            return true;
        }
        i = i + 1;
    }
    assert(!views(v@).contains(s@)) by {
        if views(v@).contains(s@) {
            let k = choose|k: int| 0 <= k < views(v@).len() && views(v@)[k] == s@;
            assert(v@[k]@ == s@);
        }
    }
    false
}

/// A copy of a list of strings.
pub fn copy_list(v: &Vec<String>) -> (r: Vec<String>)
    ensures
        views(r@) == views(v@),
{
    let r = v.clone();
    assert(r@ =~= v@);
    r
}

// ---------------------------------------------------------------------
// Numbers
// ---------------------------------------------------------------------

/// The decimal digit for `d`.
pub open spec fn digit(d: nat) -> char {
    (('0' as nat) + d) as char
}

/// The decimal notation of `n`.
pub open spec fn decimal(n: nat) -> Str
    decreases n,
{
    if n < 10 {
        seq![digit(n)]
    } else {
        decimal(n / 10).push(digit(n % 10))
    }
}

/// The decimal notation of a number.
pub fn number(n: u64) -> (r: String)
    ensures
        r@ == decimal(n as nat),
    decreases n,
{
    let d = ('0' as u8 + (n % 10) as u8) as char;
    assert(d == digit((n % 10) as nat));
    let mut r = if n < 10 {
        String::new()
    } else {
        number(n / 10)
    };
    r.push(d);
    assert(r@ =~= decimal(n as nat));
    r
}

// ---------------------------------------------------------------------
// What the pieces come to
// ---------------------------------------------------------------------

/// Blanks, tabs, line feeds, carriage returns and the two other ASCII
/// separators are white space; no other ASCII character is.
pub proof fn law_ascii_space(c: char)
    requires
        c <= '\u{7f}',
    ensures
        space(c) <==> c == ' ' || c == '\t' || c == '\n' || c == '\r' || c == '\u{b}' || c
            == '\u{c}',
{
}

/// White space falls away at both ends of a text, and nothing else does.
pub proof fn law_trim(a: Str, t: Str, b: Str)
    requires
        forall|i: int| 0 <= i < a.len() ==> space(#[trigger] a[i]),
        forall|i: int| 0 <= i < b.len() ==> space(#[trigger] b[i]),
        t.len() > 0 ==> !space(t[0]) && !space(t.last()),
    ensures
        trim(a + t + b) == t,
{
    let s = a + t + b;
    if t.len() == 0 {
        assert forall|i: int| 0 <= i < s.len() implies space(#[trigger] s[i]) by {
            if i < a.len() {
                assert(s[i] == a[i]);
            } else {
                assert(s[i] == b[i - a.len()]);
            }
        }
        lemma_blank(s);
        assert(trim(s) =~= t);
    } else {
        let n = a.len() as int;
        assert forall|i: int| 0 <= i < n implies space(#[trigger] s[i]) by {
            assert(s[i] == a[i]);
        }
        assert(s[n] == t[0]);
        lemma_lead_is(s, n);
        let u = trim_start(s);
        assert(u =~= t + b);
        assert forall|i: int| t.len() <= i < u.len() implies space(#[trigger] u[i]) by {
            assert(u[i] == b[i - t.len()]);
        }
        assert(u[t.len() - 1] == t.last());
        lemma_tail_end_is(u, t.len() as int);
        assert(trim(s) =~= t);
    }
}

/// The words of a text without white space: the text, where there is any.
pub proof fn law_one_word(w: Str)
    requires
        forall|i: int| 0 <= i < w.len() ==> !space(#[trigger] w[i]),
    ensures
        words(w) == if w.len() == 0 {
            Seq::<Str>::empty()
        } else {
            seq![w]
        },
{
    if w.len() > 0 {
        assert(forall|j: int| 0 <= j < seq![w][0].len() ==> !space(#[trigger] seq![w][0][j]));
        lemma_words_join(seq![w]);
        assert(join(seq![w], " "@) == w);
    }
}

/// White space parts words: the words of a text are those before it and those
/// behind it.
pub proof fn law_words_apart(a: Str, c: char, b: Str)
    requires
        space(c),
    ensures
        words(a.push(c) + b) == words(a) + words(b),
    decreases a.len(),
{
    let s = a.push(c) + b;
    lemma_lead(a);
    lemma_lead(b);
    let n = lead(a) as int;
    if n == a.len() {
        let m = n + 1 + lead(b) as int;
        assert forall|i: int| 0 <= i < m implies space(#[trigger] s[i]) by {
            if i < n {
                assert(s[i] == a[i]);
            } else if i > n {
                assert(s[i] == b[i - n - 1]);
            }
        }
        if m < s.len() {
            assert(s[m] == b[lead(b) as int]);
        }
        lemma_lead_is(s, m);
        assert(trim_start(s) =~= trim_start(b));
        assert(trim_start(a).len() == 0);
        assert(words(a) + words(b) =~= words(b));
    } else {
        assert forall|i: int| 0 <= i < n implies space(#[trigger] s[i]) by {
            assert(s[i] == a[i]);
        }
        assert(s[n] == a[n]);
        lemma_lead_is(s, n);
        let ta = trim_start(a);
        let ts = trim_start(s);
        assert(ts =~= ta.push(c) + b);
        lemma_word_len(ta);
        assert(!space(ta[0]));
        let w = word_len(ta) as int;
        assert forall|i: int| 0 <= i < w implies !space(#[trigger] ts[i]) by {
            assert(ts[i] == ta[i]);
        }
        if w < ta.len() {
            assert(ts[w] == ta[w]);
        } else {
            assert(ts[w] == c);
        }
        lemma_word_len_is(ts, w);
        assert(ts.take(w) =~= ta.take(w));
        let rest = ta.skip(w);
        assert(ts.skip(w) =~= rest.push(c) + b);
        law_words_apart(rest, c, b);
        assert(words(a) == seq![ta.take(w)] + words(rest));
        assert(words(s) == seq![ts.take(w)] + words(ts.skip(w)));
        assert(words(s) =~= words(a) + words(b));
    }
}

/// The pieces of a text, put together again with the character it was cut at,
/// make the text, and none of them holds it.
pub proof fn law_pieces(s: Str, c: char)
    ensures
        pieces(s, c).len() > 0,
        join(pieces(s, c), seq![c]) == s,
        forall|i: int, j: int|
            0 <= i < pieces(s, c).len() && 0 <= j < pieces(s, c)[i].len()
                ==> #[trigger] pieces(s, c)[i][j] != c,
    decreases s.len(),
{
    lemma_first(s, c);
    let n = first(s, c);
    if n < s.len() {
        let rest = s.skip(n + 1);
        law_pieces(rest, c);
        let p = pieces(rest, c);
        lemma_join_front(s.take(n), p, seq![c]);
        assert(s.take(n) + seq![c] + rest =~= s);
        assert forall|i: int, j: int|
            0 <= i < pieces(s, c).len() && 0 <= j
                < pieces(s, c)[i].len() implies #[trigger] pieces(s, c)[i][j] != c by {
            if i > 0 {
                assert(pieces(s, c)[i] == p[i - 1]);
                assert(p[i - 1][j] != c);
            }
        }
    } else {
        assert forall|i: int, j: int|
            0 <= i < pieces(s, c).len() && 0 <= j
                < pieces(s, c)[i].len() implies #[trigger] pieces(s, c)[i][j] != c by {
            assert(pieces(s, c)[i] == s);
            assert(s[j] != c);
        }
    }
}

proof fn lemma_join_front(x: Str, p: Seq<Str>, sep: Str)
    requires
        p.len() > 0,
    ensures
        join(seq![x] + p, sep) == x + sep + join(p, sep),
    decreases p.len(),
{
    let q = seq![x] + p;
    assert(q.last() == p.last());
    assert(q.drop_last() =~= seq![x] + p.drop_last());
    if p.len() == 1 {
        assert(q.drop_last() =~= seq![x]);
        assert(join(seq![x], sep) == x);
        assert(join(q, sep) =~= x + sep + join(p, sep));
    } else {
        lemma_join_front(x, p.drop_last(), sep);
        assert(join(q, sep) =~= x + sep + join(p, sep));
    }
}

/// Joining puts the separator between each two parts and nowhere else.
pub proof fn law_join(parts: Seq<Str>, x: Str, sep: Str)
    ensures
        join(Seq::empty(), sep) == Seq::<char>::empty(),
        join(seq![x], sep) == x,
        parts.len() > 0 ==> join(parts.push(x), sep) == join(parts, sep) + sep + x,
        parts.len() > 0 ==> join(seq![x] + parts, sep) == x + sep + join(parts, sep),
{
    assert(parts.push(x).drop_last() =~= parts);
    if parts.len() > 0 {
        lemma_join_front(x, parts, sep);
    }
}

/// Where a text is cut: at the first of the character, and nowhere where there
/// is none.
pub proof fn law_cut(a: Str, c: char, b: Str)
    requires
        forall|i: int| 0 <= i < a.len() ==> #[trigger] a[i] != c,
    ensures
        cut(a.push(c) + b, c) == Some((a, b)),
        cut(a, c) is None,
{
    let s = a.push(c) + b;
    assert forall|i: int| 0 <= i < a.len() implies #[trigger] s[i] != c by {
        assert(s[i] == a[i]);
    }
    lemma_first_is(s, c, a.len() as int);
    lemma_first_is(a, c, a.len() as int);
    assert(s.take(a.len() as int) =~= a);
    assert(s.skip(a.len() as int + 1) =~= b);
}

/// The lines of a text: what stands before a line feed is a line, with a carriage
/// return before the line feed left out, and what follows the last line feed is
/// one unless it is empty.
pub proof fn law_lines(l: Str, rest: Str)
    requires
        forall|i: int| 0 <= i < l.len() ==> #[trigger] l[i] != '\n',
    ensures
        lines(l.push('\n') + rest) == seq![
            if l.len() > 0 && l.last() == '\r' {
                l.drop_last()
            } else {
                l
            },
        ] + lines(rest),
        lines(l) == if l.len() == 0 {
            Seq::<Str>::empty()
        } else {
            seq![l]
        },
{
    let s = l.push('\n') + rest;
    assert forall|i: int| 0 <= i < l.len() implies #[trigger] s[i] != '\n' by {
        assert(s[i] == l[i]);
    }
    lemma_first_is(s, '\n', l.len() as int);
    lemma_first_is(l, '\n', l.len() as int);
    assert(s.take(l.len() as int) =~= l);
    assert(s.skip(l.len() as int + 1) =~= rest);
}

/// What a text of decimal digits stands for.
pub open spec fn digits_value(s: Str) -> nat
    decreases s.len(),
{
    if s.len() == 0 {
        0
    } else {
        10 * digits_value(s.drop_last()) + (s.last() as nat - '0' as nat) as nat
    }
}

/// The decimal notation of a number stands for it, is made of digits, and has no
/// leading zero.
pub proof fn law_decimal(n: nat)
    ensures
        digits_value(decimal(n)) == n,
        decimal(n).len() > 0,
        forall|i: int| 0 <= i < decimal(n).len() ==> '0' <= #[trigger] decimal(n)[i] <= '9',
        n > 0 ==> decimal(n)[0] != '0',
        n == 0 ==> decimal(n).len() == 1,
    decreases n,
{
    assert(digits_value(Seq::<char>::empty()) == 0);
    let d = decimal(n);
    if n < 10 {
        assert(d.drop_last() =~= Seq::<char>::empty());
        assert(d.last() == digit(n));
    } else {
        law_decimal(n / 10);
        let e = decimal(n / 10);
        assert(d.drop_last() =~= e);
        assert(d.last() == digit(n % 10));
        assert(d[0] == e[0]);
        assert forall|i: int| 0 <= i < d.len() implies '0' <= #[trigger] d[i] <= '9' by {
            if i < e.len() {
                assert(d[i] == e[i]);
            }
        }
    }
}

/// Whether a text can be followed by a line.
pub open spec fn line_ended(text: Str) -> bool {
    text.len() == 0 || text.last() == '\n'
}

/// A line at the end of a text is its last line.
pub proof fn lemma_lines_push(text: Str, line: Str)
    requires
        line_ended(text),
        forall|i: int| 0 <= i < line.len() ==> #[trigger] line[i] != '\n',
        line.len() > 0 ==> line.last() != '\r',
    ensures
        lines(text + line + "\n"@) == lines(text).push(line),
    decreases text.len(),
{
    reveal_strlit("\n");
    let all = text + line + "\n"@;
    if text.len() == 0 {
        lemma_line(line, Seq::empty());
        assert(all =~= line + "\n"@ + Seq::<char>::empty());
        assert(lines(Seq::<char>::empty()) =~= Seq::<Str>::empty());
        assert(lines(all) =~= lines(text).push(line));
    } else {
        let n = first(text, '\n');
        lemma_first(text, '\n');
        assert(text[text.len() - 1] == '\n');
        assert(n < text.len());
        assert forall|i: int| 0 <= i < n implies #[trigger] all[i] != '\n' by {
            assert(all[i] == text[i]);
        }
        assert(all[n] == text[n]);
        lemma_first_is(all, '\n', n);
        let rest = text.skip(n + 1);
        if rest.len() > 0 {
            assert(rest.last() == text.last());
        }
        lemma_lines_push(rest, line);
        assert(all.skip(n + 1) =~= rest + line + "\n"@);
        assert(all.take(n) =~= text.take(n));
        assert(lines(all) =~= lines(text).push(line));
    }
}

/// Parts without a character, joined by it, are the pieces of the text they
/// make.
pub proof fn law_pieces_of_join(parts: Seq<Str>, c: char)
    requires
        parts.len() > 0,
        forall|i: int, j: int|
            0 <= i < parts.len() && 0 <= j < parts[i].len() ==> #[trigger] parts[i][j] != c,
    ensures
        pieces(join(parts, seq![c]), c) == parts,
    decreases parts.len(),
{
    let a = parts[0];
    assert forall|j: int| 0 <= j < a.len() implies #[trigger] a[j] != c by {
        assert(parts[0][j] != c);
    }
    if parts.len() == 1 {
        lemma_first_is(a, c, a.len() as int);
        assert(pieces(a, c) =~= parts);
    } else {
        let rest = parts.skip(1);
        assert forall|i: int, j: int|
            0 <= i < rest.len() && 0 <= j < rest[i].len() implies #[trigger] rest[i][j] != c by {
            assert(parts[i + 1][j] != c);
        }
        law_pieces_of_join(rest, c);
        assert(parts =~= seq![a] + rest);
        lemma_join_front(a, rest, seq![c]);
        let s = join(parts, seq![c]);
        assert forall|i: int| 0 <= i < a.len() implies #[trigger] s[i] != c by {
            assert(s[i] == a[i]);
        }
        assert(s[a.len() as int] == c);
        lemma_first_is(s, c, a.len() as int);
        assert(s.take(a.len() as int) =~= a);
        assert(s.skip(a.len() as int + 1) =~= join(rest, seq![c]));
        assert(pieces(s, c) =~= parts);
    }
}

} // verus!
