//! Keys, and the words that name them.
use vstd::prelude::*;

use crate::list::lemma_take_one;
use crate::text::{decimal, law_decimal};
use crate::text::{from_chars, same, strip, strip_prefix, starts, to_chars, trim, Str};

verus! {

/// A key.
#[derive(Clone, Copy, Debug, PartialEq, Eq, Structural)]
pub enum KeyCode {
    Char(char),
    Enter,
    Esc,
    Tab,
    BackTab,
    Backspace,
    Delete,
    Up,
    Down,
    Left,
    Right,
    PageUp,
    PageDown,
    Home,
    End,
    F(u8),
    Other,
}

/// A key with the modifiers held while it was pressed.
#[derive(Clone, Copy, Debug, PartialEq, Eq, Structural)]
pub struct KeyEvent {
    pub code: KeyCode,
    pub ctrl: bool,
    pub alt: bool,
}

/// A key by itself.
#[verifier::allow_in_spec]
pub fn bare_key(code: KeyCode) -> KeyEvent
    returns
        (KeyEvent { code, ctrl: false, alt: false }),
{
    KeyEvent { code, ctrl: false, alt: false }
}

// ---------------------------------------------------------------------
// Case and numbers
// ---------------------------------------------------------------------

/// A character with an ASCII capital made small.
pub open spec fn small(c: char) -> char {
    if 'A' <= c <= 'Z' {
        (c as u32 + 32) as char
    } else {
        c
    }
}

/// A text with its ASCII capitals made small.
pub open spec fn all_small(s: Str) -> Str {
    s.map_values(|c: char| small(c))
}

fn make_small(c: char) -> (r: char)
    ensures
        r == small(c),
{
    if 'A' <= c && c <= 'Z' {
        let b: u8 = (c as u32) as u8;
        (b + 32) as char
    } else {
        c
    }
}

fn make_all_small(cs: &Vec<char>) -> (r: String)
    ensures
        r@ == all_small(cs@),
{
    let mut r = String::new();
    let mut i: usize = 0;
    assert(r@ =~= all_small(cs@.take(0)));
    while i < cs.len()
        invariant
            i <= cs@.len(),
            r@ == all_small(cs@.take(i as int)),
        decreases cs@.len() - i,
    {
        r.push(make_small(cs[i]));
        i = i + 1;
        assert(r@ =~= all_small(cs@.take(i as int)));
    }
    assert(cs@.take(cs@.len() as int) =~= cs@);
    r
}

/// Whether a character is a decimal digit.
pub open spec fn is_digit(c: char) -> bool {
    '0' <= c <= '9'
}

/// The number that decimal digits write.
pub open spec fn digits_value(s: Str) -> nat
    decreases s.len(),
{
    if s.len() == 0 {
        0
    } else {
        10 * digits_value(s.drop_last()) + (s.last() as nat - '0' as nat) as nat
    }
}

/// The digits of a written number: a plus sign may stand before them.
pub open spec fn digits_of(s: Str) -> Str {
    if s.len() > 0 && s[0] == '+' {
        s.skip(1)
    } else {
        s
    }
}

/// The number that a text writes, where it is one and not above a limit.
pub open spec fn number_of(s: Str, max: nat) -> Option<nat> {
    let d = digits_of(s);
    if d.len() > 0 && (forall|i: int| 0 <= i < d.len() ==> is_digit(#[trigger] d[i]))
        && digits_value(d) <= max {
        Some(digits_value(d))
    } else {
        None
    }
}

proof fn lemma_value_grows(s: Str, n: int)
    requires
        0 <= n <= s.len(),
    ensures
        digits_value(s.take(n)) <= digits_value(s),
    decreases s.len() - n,
{
    if n < s.len() {
        lemma_take_one(s, n);
        lemma_value_grows(s, n + 1);
    } else {
        assert(s.take(n) =~= s);
    }
}

/// The number that a text writes, where it is one and not above a limit.
pub fn parse_number(s: &str, max: u64) -> (r: Option<u64>)
    ensures
        match r {
            Some(n) => number_of(s@, max as nat) == Some(n as nat),
            None => number_of(s@, max as nat) is None,
        },
{
    let cs = to_chars(s);
    let from: usize = if cs.len() > 0 && cs[0] == '+' {
        1
    } else {
        0
    };
    let ghost d = digits_of(s@);
    assert(d =~= cs@.skip(from as int));
    if from == cs.len() {
        return None;
    }
    let mut v: u64 = 0;
    let mut i: usize = from;
    assert(d.take(0) =~= Str::empty());
    while i < cs.len()
        invariant
            from <= i <= cs@.len(),
            d == cs@.skip(from as int),
            d == digits_of(s@),
            v == digits_value(d.take(i - from)),
            v <= max,
            forall|j: int| 0 <= j < i - from ==> is_digit(#[trigger] d[j]),
        decreases cs@.len() - i,
    {
        let c = cs[i];
        proof {
            lemma_take_one(d, i - from);
            lemma_value_grows(d, i - from + 1);
            assert(d[i - from] == c);
        }
        if !('0' <= c && c <= '9') {
            return None;
        }
        let x: u64 = (c as u32 - '0' as u32) as u64;
        if v > max / 10 || x > max - 10 * v {
            return None;
        }
        v = 10 * v + x;
        i = i + 1;
    }
    assert(d.take(d.len() as int) =~= d);
    Some(v)
}

// ---------------------------------------------------------------------
// Key specs
// ---------------------------------------------------------------------

/// What follows a modifier, whatever its case: nothing where no key follows.
pub open spec fn after_modifier(s: Str, prefix: Str) -> Option<Str> {
    if s.len() > prefix.len() && all_small(s.take(prefix.len() as int)) == all_small(prefix) {
        Some(s.skip(prefix.len() as int))
    } else {
        None
    }
}

/// The modifiers a key spec begins with, and what follows them.
pub open spec fn modifiers(s: Str, ctrl: bool, alt: bool) -> (Str, bool, bool)
    decreases s.len(),
{
    match after_modifier(s, seq!['c', 't', 'r', 'l', '-']) {
        Some(t) => if t.len() < s.len() {
            modifiers(t, true, alt)
        } else {
            (s, ctrl, alt)
        },
        None => match after_modifier(s, seq!['a', 'l', 't', '-']) {
            Some(t) => if t.len() < s.len() {
                modifiers(t, ctrl, true)
            } else {
                (s, ctrl, alt)
            },
            None => (s, ctrl, alt),
        },
    }
}

/// The key that a name stands for; names are in small letters.
pub open spec fn named_key(name: Str) -> Option<KeyCode> {
    if name == "enter"@ || name == "return"@ {
        Some(KeyCode::Enter)
    } else if name == "esc"@ || name == "escape"@ {
        Some(KeyCode::Esc)
    } else if name == "tab"@ {
        Some(KeyCode::Tab)
    } else if name == "backtab"@ || name == "shift-tab"@ {
        Some(KeyCode::BackTab)
    } else if name == "space"@ {
        Some(KeyCode::Char(' '))
    } else if name == "backspace"@ || name == "bs"@ {
        Some(KeyCode::Backspace)
    } else if name == "delete"@ || name == "del"@ {
        Some(KeyCode::Delete)
    } else if name == "up"@ {
        Some(KeyCode::Up)
    } else if name == "down"@ {
        Some(KeyCode::Down)
    } else if name == "left"@ {
        Some(KeyCode::Left)
    } else if name == "right"@ {
        Some(KeyCode::Right)
    } else if name == "pgup"@ || name == "pageup"@ {
        Some(KeyCode::PageUp)
    } else if name == "pgdn"@ || name == "pagedown"@ {
        Some(KeyCode::PageDown)
    } else if name == "home"@ {
        Some(KeyCode::Home)
    } else if name == "end"@ {
        Some(KeyCode::End)
    } else if name == "question"@ {
        Some(KeyCode::Char('?'))
    } else if name == "slash"@ {
        Some(KeyCode::Char('/'))
    } else if starts(name, "f"@) {
        match number_of(name.skip("f"@.len() as int), 12) {
            Some(n) => if n >= 1 {
                Some(KeyCode::F(n as u8))
            } else {
                None
            },
            None => None,
        }
    } else {
        None
    }
}

/// The key of a spec without modifiers: a single character is itself.
pub open spec fn code_of(s: Str) -> Option<KeyCode> {
    if s.len() == 0 {
        None
    } else if s.len() == 1 {
        Some(KeyCode::Char(s[0]))
    } else {
        named_key(all_small(s))
    }
}

/// The key that a spec stands for.
pub open spec fn key_of_spec(s: Str) -> Option<KeyEvent> {
    let (rest, ctrl, alt) = modifiers(trim(s), false, false);
    match code_of(rest) {
        Some(code) => Some(KeyEvent { code, ctrl, alt }),
        None => None,
    }
}

/// Strip a case-insensitive modifier prefix, but only when a key still
/// follows it: a lone `ctrl-` modifies nothing.
pub fn strip_modifier(s: &str, prefix: &str) -> (r: Option<String>)
    ensures
        crate::text::opt_view(r) == after_modifier(s@, prefix@),
{
    let cs = to_chars(s);
    let ps = to_chars(prefix);
    if cs.len() <= ps.len() {
        return None;
    }
    let mut i: usize = 0;
    while i < ps.len()
        invariant
            i <= ps@.len() < cs@.len(),
            cs@ == s@,
            ps@ == prefix@,
            forall|j: int| 0 <= j < i ==> small(#[trigger] cs@[j]) == small(ps@[j]),
        decreases ps@.len() - i,
    {
        if make_small(cs[i]) != make_small(ps[i]) {
            proof {
                let a = all_small(s@.take(ps@.len() as int));
                assert(a[i as int] == small(cs@[i as int]));
                assert(all_small(prefix@)[i as int] == small(ps@[i as int]));
            }
            return None;
        }
        i = i + 1;
    }
    assert(all_small(s@.take(ps@.len() as int)) =~= all_small(prefix@));
    let t = from_chars(&cs, ps.len(), cs.len());
    assert(t@ =~= s@.skip(ps@.len() as int));
    Some(t)
}

fn key_named(name: &str) -> (r: Option<KeyCode>)
    ensures
        r == named_key(name@),
{
    if same(name, "enter") || same(name, "return") {
        return Some(KeyCode::Enter);
    }
    if same(name, "esc") || same(name, "escape") {
        return Some(KeyCode::Esc);
    }
    if same(name, "tab") {
        return Some(KeyCode::Tab);
    }
    if same(name, "backtab") || same(name, "shift-tab") {
        return Some(KeyCode::BackTab);
    }
    if same(name, "space") {
        return Some(KeyCode::Char(' '));
    }
    if same(name, "backspace") || same(name, "bs") {
        return Some(KeyCode::Backspace);
    }
    if same(name, "delete") || same(name, "del") {
        return Some(KeyCode::Delete);
    }
    if same(name, "up") {
        return Some(KeyCode::Up);
    }
    if same(name, "down") {
        return Some(KeyCode::Down);
    }
    if same(name, "left") {
        return Some(KeyCode::Left);
    }
    if same(name, "right") {
        return Some(KeyCode::Right);
    }
    if same(name, "pgup") || same(name, "pageup") {
        return Some(KeyCode::PageUp);
    }
    if same(name, "pgdn") || same(name, "pagedown") {
        return Some(KeyCode::PageDown);
    }
    if same(name, "home") {
        return Some(KeyCode::Home);
    }
    if same(name, "end") {
        return Some(KeyCode::End);
    }
    if same(name, "question") {
        return Some(KeyCode::Char('?'));
    }
    if same(name, "slash") {
        return Some(KeyCode::Char('/'));
    }
    match strip_prefix(name, "f") {
        Some(digits) => match parse_number(digits.as_str(), 12) {
            Some(n) => if n >= 1 {
                Some(KeyCode::F(n as u8))
            } else {
                None
            },
            None => None,
        },
        None => None,
    }
}

/// Parse a key spec: optional `ctrl-`/`alt-` prefixes, then a single
/// character (case significant) or a key name. Returns None for anything
/// unrecognized so the driver can report it instead of guessing.
pub fn parse_key_spec(spec_text: &str) -> (r: Option<KeyEvent>)
    ensures
        r == key_of_spec(spec_text@),
{
    let mut rest = strip(spec_text);
    let mut ctrl = false;
    let mut alt = false;
    let ghost start = rest@;
    proof {
        reveal_strlit("ctrl-");
        reveal_strlit("alt-");
        assert("ctrl-"@ =~= seq!['c', 't', 'r', 'l', '-']);
        assert("alt-"@ =~= seq!['a', 'l', 't', '-']);
    }
    loop
        invariant_except_break
            modifiers(start, false, false) == modifiers(rest@, ctrl, alt),
        invariant
            start == trim(spec_text@),
            "ctrl-"@ == seq!['c', 't', 'r', 'l', '-'],
            "alt-"@ == seq!['a', 'l', 't', '-'],
        ensures
            modifiers(start, false, false) == (rest@, ctrl, alt),
        decreases rest@.len(),
    {
        if let Some(tail) = strip_modifier(rest.as_str(), "ctrl-") {
            ctrl = true;
            rest = tail;
        } else if let Some(tail) = strip_modifier(rest.as_str(), "alt-") {
            alt = true;
            rest = tail;
        } else {
            break;
        }
    }
    let cs = to_chars(rest.as_str());
    if cs.len() == 0 {
        return None;
    }
    let code = if cs.len() == 1 {
        KeyCode::Char(cs[0])
    } else {
        let name = make_all_small(&cs);
        match key_named(name.as_str()) {
            Some(c) => c,
            None => {
                return None;
            },
        }
    };
    Some(KeyEvent { code, ctrl, alt })
}

/// A character by itself is its key, whatever its case; a modifier before a key
/// spec is held while that key is pressed, however the modifier is written.
pub proof fn law_key_spec(c: char, rest: Str)
    requires
        !crate::text::space(c),
        rest.len() > 0,
        !crate::text::space(rest.last()),
        !crate::text::space(rest[0]),
    ensures
        key_of_spec(seq![c]) == Some(KeyEvent { code: KeyCode::Char(c), ctrl: false, alt: false }),
        key_of_spec(seq!['c', 't', 'r', 'l', '-'] + rest) == match key_of_spec(rest) {
            Some(k) => Some(KeyEvent { ctrl: true, ..k }),
            None => None,
        },
        key_of_spec(seq!['C', 'T', 'R', 'L', '-'] + rest) == key_of_spec(
            seq!['c', 't', 'r', 'l', '-'] + rest,
        ),
        key_of_spec(seq!['a', 'l', 't', '-'] + rest) == match key_of_spec(rest) {
            Some(k) => Some(KeyEvent { alt: true, ..k }),
            None => None,
        },
{
    let ctrl = seq!['c', 't', 'r', 'l', '-'];
    let upper = seq!['C', 'T', 'R', 'L', '-'];
    let alt = seq!['a', 'l', 't', '-'];
    crate::text::lemma_trim_clean(seq![c]);
    crate::text::lemma_trim_clean(rest);
    assert((ctrl + rest).last() == rest.last());
    assert((upper + rest).last() == rest.last());
    assert((alt + rest).last() == rest.last());
    crate::text::lemma_trim_clean(ctrl + rest);
    crate::text::lemma_trim_clean(upper + rest);
    crate::text::lemma_trim_clean(alt + rest);
    assert((ctrl + rest).take(5) =~= ctrl);
    assert((upper + rest).take(5) =~= upper);
    assert((alt + rest).take(4) =~= alt);
    assert((ctrl + rest).skip(5) =~= rest);
    assert((upper + rest).skip(5) =~= rest);
    assert((alt + rest).skip(4) =~= rest);
    lemma_capitals();
    assert(all_small(upper) =~= all_small(ctrl));
    lemma_modifiers(rest, true, false);
    lemma_modifiers(rest, false, true);
    if all_small((alt + rest).take(5)) == all_small(ctrl) {
        assert(all_small((alt + rest).take(5))[0] == small('a'));
        assert(all_small(ctrl)[0] == small('c'));
    }
}

proof fn lemma_capitals()
    ensures
        small('C') == 'c',
        small('T') == 't',
        small('R') == 'r',
        small('L') == 'l',
        small('c') == 'c',
        small('t') == 't',
        small('r') == 'r',
        small('l') == 'l',
        small('a') == 'a',
        small('-') == '-',
{
}

proof fn lemma_modifiers(s: Str, ctrl: bool, alt: bool)
    ensures
        modifiers(s, ctrl, alt).0 == modifiers(s, false, false).0,
        modifiers(s, ctrl, alt).1 == (ctrl || modifiers(s, false, false).1),
        modifiers(s, ctrl, alt).2 == (alt || modifiers(s, false, false).2),
    decreases s.len(),
{
    match after_modifier(s, seq!['c', 't', 'r', 'l', '-']) {
        Some(t) => if t.len() < s.len() {
            lemma_modifiers(t, true, alt);
            lemma_modifiers(t, true, false);
        },
        None => match after_modifier(s, seq!['a', 'l', 't', '-']) {
            Some(t) => if t.len() < s.len() {
                lemma_modifiers(t, ctrl, true);
                lemma_modifiers(t, false, true);
            },
            None => {},
        },
    }
}

/// A number is read back as it is written, up to the limit.
pub proof fn law_number(n: nat, max: nat)
    ensures
        n <= max ==> number_of(decimal(n), max) == Some(n),
        n > max ==> number_of(decimal(n), max) is None,
{
    law_decimal(n);
    let d = decimal(n);
    assert('0' <= d[0] <= '9');
    lemma_digits_agree(d);
}

proof fn lemma_digits_agree(s: Str)
    ensures
        digits_value(s) == crate::text::digits_value(s),
    decreases s.len(),
{
    if s.len() > 0 {
        lemma_digits_agree(s.drop_last());
    }
}

} // verus!
