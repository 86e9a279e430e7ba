//! Fitting text into the width of a box.
use vstd::prelude::*;
use vstd::utf8::encode_utf8;

use crate::list::lemma_take_one;
use crate::report::blanks;
use crate::text::{drop_lead, from_chars, is_blank, lead, lead_len, lemma_blank};
use crate::text::{lemma_lead, lemma_lead_is, lemma_word_len, space, split_words, to_chars};
use crate::text::{trim, trim_start, views, word_len, words, Str};
use crate::tui::style::{fg, ink, Color, Line, LineView, Span, SpanView};

verus! {

// ---------------------------------------------------------------------
// Word wrap
// ---------------------------------------------------------------------

/// How many bytes of white space a text begins with.
pub open spec fn lead_bytes(s: Str) -> nat {
    (encode_utf8(s).len() - encode_utf8(trim_start(s)).len()) as nat
}

/// A text being wrapped: the finished lines and the line being filled.
#[verifier::ext_equal]
pub struct WrapView {
    pub done: Seq<Str>,
    pub cur: Str,
}

/// The line being filled is finished; the next one is indented.
pub open spec fn next_line(w: WrapView, indent: nat) -> WrapView {
    WrapView { done: w.done.push(w.cur), cur: blanks(indent) }
}

/// Characters are put down one by one, on a new line wherever one is full.
pub open spec fn with_chars(w: WrapView, word: Str, width: nat, indent: nat) -> WrapView
    decreases word.len(),
{
    if word.len() == 0 {
        w
    } else {
        let before = with_chars(w, word.drop_last(), width, indent);
        let at = if before.cur.len() >= width {
            next_line(before, indent)
        } else {
            before
        };
        WrapView { done: at.done, cur: at.cur.push(word.last()) }
    }
}

/// Whether a text holds nothing but white space.
pub open spec fn bare(s: Str) -> bool {
    trim(s).len() == 0
}

/// A word goes onto the line being filled where it fits, a blank away from the
/// word before it, and onto the next line where it does not.
pub open spec fn with_word(w: WrapView, word: Str, width: nat, indent: nat) -> WrapView {
    if bare(w.cur) {
        with_chars(w, word, width, indent)
    } else if w.cur.len() + 1 + word.len() > width {
        with_chars(next_line(w, indent), word, width, indent)
    } else {
        with_chars(WrapView { done: w.done, cur: w.cur.push(' ') }, word, width, indent)
    }
}

/// Words one after the other.
pub open spec fn with_words(w: WrapView, ws: Seq<Str>, width: nat, indent: nat) -> WrapView
    decreases ws.len(),
{
    if ws.len() == 0 {
        w
    } else {
        with_word(with_words(w, ws.drop_last(), width, indent), ws.last(), width, indent)
    }
}

/// The width that lines are filled to: at least one character beside the indent.
pub open spec fn fill_width(width: nat, indent: nat) -> nat {
    if width < indent + 1 {
        indent + 1
    } else {
        width
    }
}

/// The wrap of a text as it starts: the first line keeps its indent.
pub open spec fn unwrapped(text: Str) -> WrapView {
    WrapView { done: Seq::empty(), cur: blanks(lead_bytes(text)) }
}

/// The lines of a wrapped text.
pub open spec fn wrapped(text: Str, width: nat, indent: nat) -> Seq<Str> {
    let w = with_words(unwrapped(text), words(text), fill_width(width, indent), indent);
    if bare(w.cur) {
        w.done
    } else {
        w.done.push(w.cur)
    }
}

fn blank_chars(n: usize) -> (r: Vec<char>)
    ensures
        r@ == blanks(n as nat),
{
    let mut r: Vec<char> = Vec::new();
    let mut i: usize = 0;
    assert(r@ =~= blanks(0));
    while i < n
        invariant
            i <= n,
            r@ == blanks(i as nat),
        decreases n - i,
    {
        r.push(' ');
        i = i + 1;
        assert(r@ =~= blanks(i as nat));
    }
    r
}

fn all_space(cs: &Vec<char>) -> (r: bool)
    ensures
        r == bare(cs@),
{
    proof {
        lemma_blank(cs@);
    }
    lead_len(cs) == cs.len()
}

/// Ends a line.
fn break_line(done: &mut Vec<String>, cur: Vec<char>, indent: usize) -> (r: Vec<char>)
    ensures
        views(final(done)@) == views(old(done)@).push(cur@),
        r@ == blanks(indent as nat),
{
    let l = from_chars(&cur, 0, cur.len());
    assert(l@ =~= cur@);
    done.push(l);
    assert(views(done@) =~= views(old(done)@).push(cur@));
    blank_chars(indent)
}

/// Greedy word wrap; continuation lines are indented by `indent`. A word
/// longer than the line is hard-split rather than left to overflow.
pub fn wrap_text(text: &str, width: usize, indent: usize) -> (r: Vec<String>)
    requires
        indent < usize::MAX,
    ensures
        views(r@) == wrapped(text@, width as nat, indent as nat),
{
    let width: usize = if width < indent + 1 {
        indent + 1
    } else {
        width
    };
    let rest = drop_lead(text);
    proof {
        lemma_lead(text@);
        lemma_skip_bytes(text@, lead(text@));
    }
    let first: usize = text.as_bytes().len() - rest.as_str().as_bytes().len();
    let mut done: Vec<String> = Vec::new();
    let mut cur: Vec<char> = blank_chars(first);
    let ws = split_words(text);
    let ghost vs = words(text@);
    let ghost start = unwrapped(text@);
    assert(views(done@) =~= Seq::<Str>::empty());
    assert(vs.take(0) =~= Seq::<Str>::empty());
    let mut i: usize = 0;
    while i < ws.len()
        invariant
            i <= ws@.len(),
            indent < width,
            vs == views(ws@),
            with_words(start, vs.take(i as int), width as nat, indent as nat) == (WrapView {
                done: views(done@),
                cur: cur@,
            }),
        decreases ws@.len() - i,
    {
        let word = to_chars(ws[i].as_str());
        let ghost w0 = WrapView { done: views(done@), cur: cur@ };
        proof {
            lemma_take_one(vs, i as int);
            assert(vs[i as int] == word@);
        }
        if !all_space(&cur) {
            if cur.len() >= width || word.len() > width - cur.len() - 1 {
                cur = break_line(&mut done, cur, indent);
            } else {
                cur.push(' ');
            }
        }
        let ghost w1 = WrapView { done: views(done@), cur: cur@ };
        let mut j: usize = 0;
        assert(word@.take(0) =~= Seq::<char>::empty());
        while j < word.len()
            invariant
                j <= word@.len(),
                with_chars(w1, word@.take(j as int), width as nat, indent as nat) == (WrapView {
                    done: views(done@),
                    cur: cur@,
                }),
            decreases word@.len() - j,
        {
            proof {
                lemma_take_one(word@, j as int);
            }
            if cur.len() >= width {
                cur = break_line(&mut done, cur, indent);
            }
            cur.push(word[j]);
            j = j + 1;
        }
        assert(word@.take(word@.len() as int) =~= word@);
        i = i + 1;
        assert(with_word(w0, word@, width as nat, indent as nat) == (WrapView {
            done: views(done@),
            cur: cur@,
        }));
    }
    assert(vs.take(ws@.len() as int) =~= vs);
    if !all_space(&cur) {
        let l = from_chars(&cur, 0, cur.len());
        assert(l@ =~= cur@);
        let ghost was = views(done@);
        done.push(l);
        assert(views(done@) =~= was.push(l@));
    }
    done
}

/// Characters at the front add to a text's length in bytes.
proof fn lemma_skip_bytes(s: Str, n: nat)
    requires
        n <= s.len(),
    ensures
        encode_utf8(s.skip(n as int)).len() <= encode_utf8(s).len(),
    decreases n,
{
    if n == 0 {
        assert(s.skip(0) =~= s);
    } else {
        assert(s.skip(1).skip(n - 1) =~= s.skip(n as int));
        lemma_skip_bytes(s.skip(1), (n - 1) as nat);
        assert(s.drop_first() =~= s.skip(1));
        assert(encode_utf8(s) == vstd::utf8::encode_scalar(s[0] as u32) + encode_utf8(
            s.drop_first(),
        ));
    }
}

// ---------------------------------------------------------------------
// What wrapping keeps
// ---------------------------------------------------------------------

/// Whether no line of a text being wrapped is wider than a width.
pub open spec fn within(w: WrapView, width: nat) -> bool {
    &&& w.cur.len() <= width
    &&& forall|i: int| 0 <= i < w.done.len() ==> (#[trigger] w.done[i]).len() <= width
}

proof fn lemma_chars_within(w: WrapView, word: Str, width: nat, indent: nat)
    requires
        within(w, width),
        indent < width,
    ensures
        within(with_chars(w, word, width, indent), width),
    decreases word.len(),
{
    if word.len() > 0 {
        lemma_chars_within(w, word.drop_last(), width, indent);
    }
}

proof fn lemma_words_within(w: WrapView, ws: Seq<Str>, width: nat, indent: nat)
    requires
        within(w, width),
        indent < width,
    ensures
        within(with_words(w, ws, width, indent), width),
    decreases ws.len(),
{
    if ws.len() > 0 {
        lemma_words_within(w, ws.drop_last(), width, indent);
        let b = with_words(w, ws.drop_last(), width, indent);
        let word = ws.last();
        if bare(b.cur) {
            lemma_chars_within(b, word, width, indent);
        } else if b.cur.len() + 1 + word.len() > width {
            lemma_chars_within(next_line(b, indent), word, width, indent);
        } else {
            lemma_chars_within(
                WrapView { done: b.done, cur: b.cur.push(' ') },
                word,
                width,
                indent,
            );
        }
    }
}

/// No line of a wrapped text is wider than the width it was wrapped for, where
/// the text's own indent fits into it.
pub proof fn law_wrap_fits(text: Str, width: nat, indent: nat)
    requires
        lead_bytes(text) <= fill_width(width, indent),
    ensures
        forall|i: int|
            0 <= i < wrapped(text, width, indent).len() ==> (#[trigger] wrapped(
                text,
                width,
                indent,
            )[i]).len() <= fill_width(width, indent),
{
    lemma_words_within(unwrapped(text), words(text), fill_width(width, indent), indent);
}

/// The characters of a text that are not white space.
pub open spec fn solid(s: Str) -> Str
    decreases s.len(),
{
    if s.len() == 0 {
        Seq::empty()
    } else if space(s.last()) {
        solid(s.drop_last())
    } else {
        solid(s.drop_last()).push(s.last())
    }
}

/// The characters of some lines that are not white space.
pub open spec fn all_solid(ls: Seq<Str>) -> Str
    decreases ls.len(),
{
    if ls.len() == 0 {
        Seq::empty()
    } else {
        all_solid(ls.drop_last()) + solid(ls.last())
    }
}

proof fn lemma_solid_add(a: Str, b: Str)
    ensures
        solid(a + b) == solid(a) + solid(b),
    decreases b.len(),
{
    if b.len() == 0 {
        assert(a + b =~= a);
        assert(solid(a) + solid(b) =~= solid(a));
    } else {
        assert((a + b).drop_last() =~= a + b.drop_last());
        lemma_solid_add(a, b.drop_last());
        assert(solid(a + b) =~= solid(a) + solid(b));
    }
}

proof fn lemma_solid_bare(s: Str)
    requires
        forall|i: int| 0 <= i < s.len() ==> space(#[trigger] s[i]),
    ensures
        solid(s) == Str::empty(),
    decreases s.len(),
{
    if s.len() > 0 {
        let t = s.drop_last();
        assert forall|i: int| 0 <= i < t.len() implies space(#[trigger] t[i]) by {
            assert(t[i] == s[i]);
        }
        lemma_solid_bare(t);
    }
}

proof fn lemma_all_solid_front(a: Str, ls: Seq<Str>)
    ensures
        all_solid(seq![a] + ls) == solid(a) + all_solid(ls),
    decreases ls.len(),
{
    let s = seq![a] + ls;
    if ls.len() == 0 {
        assert(s.drop_last() =~= Seq::<Str>::empty());
        assert(all_solid(s.drop_last()) == Str::empty());
        assert(all_solid(s) =~= solid(a) + all_solid(ls));
    } else {
        assert(s.drop_last() =~= seq![a] + ls.drop_last());
        lemma_all_solid_front(a, ls.drop_last());
        assert(all_solid(s) =~= solid(a) + all_solid(ls));
    }
}

/// The words of a text hold all of it but white space.
proof fn lemma_words_solid(s: Str)
    ensures
        all_solid(words(s)) == solid(s),
    decreases s.len(),
{
    let t = trim_start(s);
    let n = lead(s);
    lemma_lead(s);
    let head = s.take(n as int);
    assert(s =~= head + t);
    lemma_solid_add(head, t);
    assert forall|i: int| 0 <= i < head.len() implies space(#[trigger] head[i]) by {
        assert(head[i] == s[i]);
    }
    lemma_solid_bare(head);
    assert(solid(s) =~= solid(t));
    if t.len() > 0 {
        assert(t[0] == s[n as int]);
        lemma_word_len(t);
        let w = t.take(word_len(t) as int);
        let rest = t.skip(word_len(t) as int);
        assert(t =~= w + rest);
        lemma_solid_add(w, rest);
        lemma_words_solid(rest);
        lemma_all_solid_front(w, words(rest));
    }
}

/// What a text being wrapped holds so far.
spec fn held(w: WrapView) -> Str {
    all_solid(w.done) + solid(w.cur)
}

proof fn lemma_next_held(w: WrapView, indent: nat)
    ensures
        held(next_line(w, indent)) == held(w),
{
    let n = next_line(w, indent);
    assert(n.done.drop_last() =~= w.done);
    lemma_solid_bare(blanks(indent));
    assert(held(n) =~= held(w));
}

proof fn lemma_chars_held(w: WrapView, word: Str, width: nat, indent: nat)
    ensures
        held(with_chars(w, word, width, indent)) == held(w) + solid(word),
    decreases word.len(),
{
    if word.len() == 0 {
        assert(held(w) + solid(word) =~= held(w));
    } else {
        lemma_chars_held(w, word.drop_last(), width, indent);
        let b = with_chars(w, word.drop_last(), width, indent);
        lemma_next_held(b, indent);
        let at = if b.cur.len() >= width {
            next_line(b, indent)
        } else {
            b
        };
        let c = word.last();
        let r = WrapView { done: at.done, cur: at.cur.push(c) };
        assert(r == with_chars(w, word, width, indent));
        assert(r.cur.drop_last() =~= at.cur);
        assert(held(at) == held(w) + solid(word.drop_last()));
        if space(c) {
            assert(held(r) == held(at));
        } else {
            assert(held(r) =~= held(at).push(c));
            assert(held(at).push(c) =~= held(w) + solid(word));
        }
    }
}

proof fn lemma_words_held(w: WrapView, ws: Seq<Str>, width: nat, indent: nat)
    ensures
        held(with_words(w, ws, width, indent)) == held(w) + all_solid(ws),
    decreases ws.len(),
{
    if ws.len() == 0 {
        assert(held(w) + all_solid(ws) =~= held(w));
    } else {
        lemma_words_held(w, ws.drop_last(), width, indent);
        let b = with_words(w, ws.drop_last(), width, indent);
        let word = ws.last();
        let gap = WrapView { done: b.done, cur: b.cur.push(' ') };
        assert(gap.cur.drop_last() =~= b.cur);
        assert(held(gap) == held(b));
        lemma_next_held(b, indent);
        lemma_chars_held(b, word, width, indent);
        lemma_chars_held(next_line(b, indent), word, width, indent);
        lemma_chars_held(gap, word, width, indent);
        assert(held(with_words(w, ws, width, indent)) =~= held(w) + all_solid(ws));
    }
}

/// Wrapping loses nothing of a text but white space, and keeps its order.
pub proof fn law_wrap_keeps_text(text: Str, width: nat, indent: nat)
    ensures
        all_solid(wrapped(text, width, indent)) == solid(text),
{
    let start = unwrapped(text);
    let w = with_words(start, words(text), fill_width(width, indent), indent);
    lemma_words_held(start, words(text), fill_width(width, indent), indent);
    lemma_words_solid(text);
    lemma_solid_bare(start.cur);
    assert(held(start) =~= Str::empty());
    assert(held(w) =~= solid(text));
    if bare(w.cur) {
        lemma_blank(w.cur);
        lemma_solid_bare(w.cur);
        assert(held(w) =~= all_solid(w.done));
    } else {
        assert(w.done.push(w.cur).drop_last() =~= w.done);
    }
}

// ---------------------------------------------------------------------
// Port notes
// ---------------------------------------------------------------------

/// A text with each tab as the eight columns a terminal shows.
pub open spec fn untabbed(s: Str) -> Str
    decreases s.len(),
{
    if s.len() == 0 {
        Seq::empty()
    } else if s.last() == '\t' {
        untabbed(s.drop_last()) + blanks(8)
    } else {
        untabbed(s.drop_last()).push(s.last())
    }
}

/// The indent a line of port notes keeps.
pub open spec fn kept_indent(s: Str, width: nat) -> nat {
    if lead_bytes(s) < width / 2 {
        lead_bytes(s)
    } else {
        width / 2
    }
}

/// How far the continuation of a line of port notes is indented.
pub open spec fn hang_of(indent: nat, width: nat) -> nat {
    if width == 0 {
        0
    } else if indent + 2 < width - 1 {
        indent + 2
    } else {
        (width - 1) as nat
    }
}

/// The lines that one source line of port notes takes.
pub open spec fn help_lines_of(src: Str, width: nat) -> Seq<Str> {
    let s = untabbed(src);
    let indent = kept_indent(s, width);
    if bare(s) {
        seq![Str::empty()]
    } else {
        wrapped(blanks(indent) + trim_start(s), width, hang_of(indent, width))
    }
}

fn expand_tabs(s: &str) -> (r: String)
    ensures
        r@ == untabbed(s@),
{
    let cs = to_chars(s);
    let mut r = String::new();
    let mut i: usize = 0;
    assert(cs@.take(0) =~= Str::empty());
    assert(r@ =~= untabbed(cs@.take(0)));
    while i < cs.len()
        invariant
            i <= cs@.len(),
            r@ == untabbed(cs@.take(i as int)),
        decreases cs@.len() - i,
    {
        proof {
            lemma_take_one(cs@, i as int);
        }
        if cs[i] == '\t' {
            let b = crate::report::spaces(8);
            r.append(b.as_str());
        } else {
            r.push(cs[i]);
        }
        i = i + 1;
    }
    assert(cs@.take(cs@.len() as int) =~= cs@);
    r
}

/// One source line of a pkg-help, ready for the popup: tabs expanded, its own
/// indentation kept and wrapped under itself, blank lines preserved. Both
/// indents are capped at half the width: a deeply indented line must still wrap
/// inside the box instead of running off it.
pub fn help_line(src: &str, width: usize) -> (r: Vec<String>)
    ensures
        views(r@) == help_lines_of(src@, width as nat),
{
    let s = expand_tabs(src);
    if is_blank(s.as_str()) {
        let mut r: Vec<String> = Vec::new();
        r.push(String::new());
        assert(views(r@) =~= seq![Str::empty()]);
        return r;
    }
    let rest = drop_lead(s.as_str());
    proof {
        lemma_lead(s@);
        lemma_skip_bytes(s@, lead(s@));
    }
    let first: usize = s.as_str().as_bytes().len() - rest.as_str().as_bytes().len();
    let indent: usize = if first < width / 2 {
        first
    } else {
        width / 2
    };
    let hang: usize = if width == 0 {
        0
    } else if indent + 2 < width - 1 {
        indent + 2
    } else {
        width - 1
    };
    let mut text = crate::report::spaces(indent);
    text.append(rest.as_str());
    wrap_text(text.as_str(), width, hang)
}

/// Blanks before a text that does not begin with white space are as many bytes
/// as they are blanks.
proof fn lemma_blank_lead(n: nat, t: Str)
    requires
        t.len() > 0,
        !space(t[0]),
    ensures
        lead_bytes(blanks(n) + t) == n,
{
    let s = blanks(n) + t;
    assert forall|i: int| 0 <= i < n implies space(#[trigger] s[i]) by {
        assert(s[i] == blanks(n)[i]);
    }
    lemma_lead_is(s, n as int);
    assert(trim_start(s) =~= t);
    lemma_blank_bytes(n, t);
}

proof fn lemma_blank_bytes(n: nat, t: Str)
    ensures
        encode_utf8(blanks(n) + t).len() == n + encode_utf8(t).len(),
    decreases n,
{
    let s = blanks(n) + t;
    if n == 0 {
        assert(s =~= t);
    } else {
        assert(s.drop_first() =~= blanks((n - 1) as nat) + t);
        lemma_blank_bytes((n - 1) as nat, t);
        assert(s[0] == ' ');
        assert(vstd::utf8::encode_scalar(' ' as u32).len() == 1);
    }
}

/// No line of port notes runs off the popup, however deeply it is indented.
pub proof fn law_help_fits(src: Str, width: nat)
    requires
        width > 0,
    ensures
        forall|i: int|
            0 <= i < help_lines_of(src, width).len() ==> (#[trigger] help_lines_of(
                src,
                width,
            )[i]).len() <= width,
{
    let s = untabbed(src);
    if !bare(s) {
        let indent = kept_indent(s, width);
        lemma_blank(s);
        lemma_lead(s);
        let t = trim_start(s);
        assert(t[0] == s[lead(s) as int]);
        lemma_blank_lead(indent, t);
        law_wrap_fits(blanks(indent) + t, width, hang_of(indent, width));
    }
}

// ---------------------------------------------------------------------
// Cutting a box off
// ---------------------------------------------------------------------

/// How many columns a terminal gives a text.
pub uninterp spec fn columns(s: Str) -> nat;

/// How many columns a terminal gives a line.
pub open spec fn line_columns(l: LineView) -> nat
    decreases l.len(),
{
    if l.len() == 0 {
        0
    } else {
        line_columns(l.drop_last()) + columns(l.last().text)
    }
}

/// `ratatui::text::Span::width`: the columns of a text follow from its
/// characters alone. How many they are is left to the tables of character
/// widths.
#[verifier::external_body]
fn text_width(text: &str) -> (r: usize)
    ensures
        r == columns(text@),
{
    ratatui::text::Span::raw(text).width()
}

proof fn lemma_part_columns(l: LineView, n: int)
    requires
        0 <= n <= l.len(),
    ensures
        line_columns(l.take(n)) <= line_columns(l),
    decreases l.len() - n,
{
    if n < l.len() {
        lemma_take_one(l, n);
        lemma_part_columns(l, n + 1);
    } else {
        assert(l.take(n) =~= l);
    }
}

/// Whether a line leaves a column free in a box.
fn leaves_room(l: &Line, width: usize) -> (r: bool)
    ensures
        r == (line_columns(l@) + 1 <= width),
{
    let ghost v = l@;
    let mut room: usize = width;
    let mut i: usize = 0;
    assert(v.take(0) =~= LineView::empty());
    while i < l.spans.len()
        invariant
            i <= l.spans@.len(),
            v == l@,
            room == width - line_columns(v.take(i as int)),
        decreases l.spans@.len() - i,
    {
        proof {
            lemma_take_one(v, i as int);
            lemma_part_columns(v, i + 1);
            assert(v[i as int] == l.spans@[i as int]@);
        }
        let w = text_width(l.spans[i].text.as_str());
        if w > room {
            return false;
        }
        room = room - w;
        i = i + 1;
    }
    assert(v.take(v.len() as int) =~= v);
    room > 0
}

/// The mark of a cut.
pub open spec fn ellipsis() -> SpanView {
    ink("…"@, fg(Color::DarkGray))
}

/// A line shortened from its end until a mark of one column fits behind it.
pub open spec fn shortened(l: LineView, width: nat) -> LineView
    decreases l.len(), l.last().text.len(),
{
    if l.len() == 0 || line_columns(l) + 1 <= width {
        l
    } else if l.last().text.len() == 0 {
        shortened(l.drop_last(), width)
    } else {
        shortened(
            l.drop_last().push(ink(l.last().text.drop_last(), l.last().style)),
            width,
        )
    }
}

/// The lines of a box that shows at most `cap` of them.
pub open spec fn marked(ls: Seq<LineView>, cap: nat, width: nat) -> Seq<LineView> {
    if ls.len() <= cap {
        ls
    } else if cap == 0 {
        Seq::empty()
    } else {
        ls.take(cap - 1).push(shortened(ls[cap - 1], width).push(ellipsis()))
    }
}

/// A shortened line leaves a column for the mark, or is empty.
pub proof fn law_shortened_fits(l: LineView, width: nat)
    ensures
        shortened(l, width).len() == 0 || line_columns(shortened(l, width)) + 1 <= width,
    decreases l.len(), l.last().text.len(),
{
    if l.len() > 0 && line_columns(l) + 1 > width {
        if l.last().text.len() == 0 {
            law_shortened_fits(l.drop_last(), width);
        } else {
            law_shortened_fits(
                l.drop_last().push(ink(l.last().text.drop_last(), l.last().style)),
                width,
            );
        }
    }
}

/// The mark of a cut stays inside a box of at least one column, where it is
/// one column wide.
pub proof fn law_mark_fits(ls: Seq<LineView>, cap: nat, width: nat)
    ensures
        ls.len() > cap && cap > 0 && width > 0 && columns("…"@) == 1 ==> line_columns(
            marked(ls, cap, width).last(),
        ) <= width,
        ls.len() > cap && cap > 0 ==> marked(ls, cap, width).last().last() == ellipsis(),
{
    if ls.len() > cap && cap > 0 {
        let l = shortened(ls[cap - 1], width);
        law_shortened_fits(ls[cap - 1], width);
        assert(l.push(ellipsis()).drop_last() =~= l);
    }
}

fn shorten(l: &mut Line, width: usize)
    ensures
        final(l)@ == shortened(old(l)@, width as nat),
{
    loop
        invariant_except_break
            shortened(l@, width as nat) == shortened(old(l)@, width as nat),
        ensures
            l@ == shortened(old(l)@, width as nat),
        decreases l.spans@.len(), l.spans@.last().text@.len(),
    {
        if leaves_room(l, width) {
            break;
        }
        let ghost was = l@;
        match l.spans.pop() {
            None => {
                assert(l@ =~= was);
                break;
            },
            Some(s) => {
                assert(l@ =~= was.drop_last());
                assert(was.last() == s@);
                let cs = to_chars(s.text.as_str());
                if cs.len() > 0 {
                    let t = from_chars(&cs, 0, cs.len() - 1);
                    assert(t@ =~= s@.text.drop_last());
                    l.spans.push(Span { text: t, style: s.style });
                    assert(l@ =~= was.drop_last().push(ink(t@, s.style)));
                }
            },
        }
    }
}

/// Cut `lines` to `cap` rows and mark the cut with an ellipsis. The last row
/// is shortened first when needed: the box does not wrap, so a marker appended
/// to a full line would be clipped off the edge and the cut would look like
/// the whole text.
pub fn mark_if_clipped(lines: &mut Vec<Line>, cap: usize, width: usize)
    ensures
        views(final(lines)@) == marked(views(old(lines)@), cap as nat, width as nat),
{
    if lines.len() <= cap {
        return;
    }
    lines.truncate(cap);
    let ghost was = views(old(lines)@);
    assert(views(lines@) =~= was.take(cap as int));
    match lines.pop() {
        None => {
            assert(views(lines@) =~= marked(was, cap as nat, width as nat));
        },
        Some(last) => {
            let mut last = last;
            shorten(&mut last, width);
            last.add_text("…", fg(Color::DarkGray));
            lines.push(last);
            assert(views(lines@) =~= marked(was, cap as nat, width as nat));
        },
    }
}

} // verus!
