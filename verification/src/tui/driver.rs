//! Headless driver for the TUI: a line protocol that presses keys and dumps
//! the screen or the app state.
use vstd::prelude::*;

use crate::text::{begins_with, decimal, drop_lead, drop_tail, from_chars, glue, glue3, is_blank};
use crate::text::{is_space, number, owned, same, space, starts, strip, to_chars, trim};
use crate::text::{trim_end, trim_start, views, Str};
use crate::tui::keys::{key_of_spec, number_of, parse_key_spec, parse_number, KeyEvent};

verus! {

/// Default in-memory screen size: wide enough for both panes to render the
/// way an ordinary terminal does.
pub const DEFAULT_COLS: u16 = 100;

pub const DEFAULT_ROWS: u16 = 35;

/// Screen dimensions a `resize` may ask for.
pub const MIN_DIM: u16 = 20;

pub const MAX_DIM: u16 = 500;

/// How long `settle` waits by default for background refreshes to land.
pub const SETTLE_DEFAULT_MS: u64 = 5000;

/// One line of the protocol.
#[derive(Debug, PartialEq, Eq)]
pub enum DriverCommand {
    /// Press a key; the reply acknowledges it.
    Key { key: KeyEvent, reply: String },
    /// Type a text, one key per character.
    Keys { text: String, reply: String },
    Dump,
    State,
    /// Wait until nothing is outstanding, for so many milliseconds at most.
    Settle(u64),
    Resize { cols: u16, rows: u16, reply: String },
    Quit,
    /// A malformed command, and what is said of it.
    Refused(String),
}

#[verifier::ext_equal]
pub enum CommandView {
    Key { key: KeyEvent, reply: Str },
    Keys { text: Str, reply: Str },
    Dump,
    State,
    Settle(nat),
    Resize { cols: nat, rows: nat, reply: Str },
    Quit,
    Refused(Str),
}

impl View for DriverCommand {
    type V = CommandView;

    open spec fn view(&self) -> CommandView {
        match *self {
            DriverCommand::Key { key, reply } => CommandView::Key { key, reply: reply@ },
            DriverCommand::Keys { text, reply } => CommandView::Keys {
                text: text@,
                reply: reply@,
            },
            DriverCommand::Dump => CommandView::Dump,
            DriverCommand::State => CommandView::State,
            DriverCommand::Settle(ms) => CommandView::Settle(ms as nat),
            DriverCommand::Resize { cols, rows, reply } => CommandView::Resize {
                cols: cols as nat,
                rows: rows as nat,
                reply: reply@,
            },
            DriverCommand::Quit => CommandView::Quit,
            DriverCommand::Refused(m) => CommandView::Refused(m@),
        }
    }
}

// ---------------------------------------------------------------------
// Commands
// ---------------------------------------------------------------------

/// A text without line ends behind it.
pub open spec fn without_line_end(s: Str) -> Str
    decreases s.len(),
{
    if s.len() > 0 && (s.last() == '\n' || s.last() == '\r') {
        without_line_end(s.drop_last())
    } else {
        s
    }
}

/// The verb of a command, and what follows the white space behind it.
pub open spec fn verb_of(cmd: Str) -> (Str, Str) {
    let n = crate::text::word_len(cmd);
    if n < cmd.len() {
        (cmd.take(n as int), trim_end(cmd.skip(n as int + 1)))
    } else {
        (cmd, Seq::empty())
    }
}

/// A dimension, held to what a layout can be drawn into.
pub open spec fn held_dim(n: nat) -> nat {
    if n < MIN_DIM {
        MIN_DIM as nat
    } else if n > MAX_DIM {
        MAX_DIM as nat
    } else {
        n
    }
}

/// Where the width and the height of a size are parted.
pub open spec fn times_at(s: Str) -> nat
    decreases s.len(),
{
    if s.len() == 0 || s[0] == 'x' || s[0] == 'X' {
        0
    } else {
        1 + times_at(s.skip(1))
    }
}

/// The size that a text writes.
pub open spec fn size_of(arg: Str) -> Option<(nat, nat)> {
    let n = times_at(arg);
    if n < arg.len() {
        match (
            number_of(trim(arg.take(n as int)), u16::MAX as nat),
            number_of(trim(arg.skip(n as int + 1)), u16::MAX as nat),
        ) {
            (Some(w), Some(h)) => Some((w, h)),
            _ => None,
        }
    } else {
        None
    }
}

/// What a `resize` asks for.
pub open spec fn resize_of(arg: Str) -> CommandView {
    match size_of(arg) {
        Some((w, h)) => CommandView::Resize {
            cols: held_dim(w),
            rows: held_dim(h),
            reply: "ok resize "@ + decimal(held_dim(w)) + "x"@ + decimal(held_dim(h)),
        },
        None => CommandView::Refused("err resize wants <W>x<H>, got: "@ + arg),
    }
}

/// What a `settle` asks for.
pub open spec fn settle_of(arg: Str) -> CommandView {
    if arg.len() == 0 {
        CommandView::Settle(SETTLE_DEFAULT_MS as nat)
    } else {
        match number_of(arg, u64::MAX as nat) {
            Some(ms) => CommandView::Settle(ms),
            None => CommandView::Refused("err settle timeout must be milliseconds: "@ + arg),
        }
    }
}

/// The command of a text that does not begin with white space.
pub open spec fn command_of(cmd: Str) -> CommandView {
    let (verb, raw) = verb_of(cmd);
    let arg = trim(raw);
    if verb == "key"@ {
        match key_of_spec(arg) {
            Some(key) => CommandView::Key { key, reply: "ok key "@ + arg },
            None => CommandView::Refused("err unknown key: "@ + arg),
        }
    } else if verb == "keys"@ {
        if raw.len() == 0 {
            CommandView::Refused("err keys needs text to type"@)
        } else {
            CommandView::Keys { text: raw, reply: "ok keys "@ + decimal(raw.len()) }
        }
    } else if verb == "dump"@ {
        CommandView::Dump
    } else if verb == "state"@ {
        CommandView::State
    } else if verb == "settle"@ {
        settle_of(arg)
    } else if verb == "resize"@ {
        resize_of(arg)
    } else if verb == "quit"@ {
        CommandView::Quit
    } else {
        CommandView::Refused("err unknown command: "@ + verb)
    }
}

/// The command of a line of input: none where it is blank or a comment.
pub open spec fn line_command(line: Str) -> Option<CommandView> {
    let cmd = without_line_end(line);
    if trim(cmd).len() == 0 || starts(trim_start(cmd), "#"@) {
        None
    } else {
        Some(command_of(trim_start(cmd)))
    }
}

fn drop_line_end(s: &str) -> (r: String)
    ensures
        r@ == without_line_end(s@),
{
    let cs = to_chars(s);
    let mut n = cs.len();
    assert(cs@.take(n as int) =~= cs@);
    while n > 0 && (cs[n - 1] == '\n' || cs[n - 1] == '\r')
        invariant
            n <= cs@.len(),
            cs@ == s@,
            without_line_end(cs@.take(n as int)) == without_line_end(s@),
        decreases n,
    {
        assert(cs@.take(n as int).drop_last() =~= cs@.take(n - 1));
        n = n - 1;
    }
    let r = from_chars(&cs, 0, n);
    assert(r@ =~= cs@.take(n as int));
    r
}

fn split_verb(cmd: &str) -> (r: (String, String))
    ensures
        (r.0@, r.1@) == verb_of(cmd@),
{
    let cs = to_chars(cmd);
    let mut n: usize = 0;
    while n < cs.len() && !is_space(cs[n])
        invariant
            n <= cs@.len(),
            forall|j: int| 0 <= j < n ==> !space(#[trigger] cs@[j]),
        decreases cs@.len() - n,
    {
        n = n + 1;
    }
    proof {
        crate::text::lemma_word_len_is(cs@, n as int);
    }
    if n < cs.len() {
        let verb = from_chars(&cs, 0, n);
        let rest = from_chars(&cs, n + 1, cs.len());
        assert(verb@ =~= cs@.take(n as int));
        assert(rest@ =~= cs@.skip(n + 1));
        (verb, drop_tail(rest.as_str()))
    } else {
        (owned(cmd), String::new())
    }
}

fn clamp_dim(n: u64) -> (r: u16)
    ensures
        r == held_dim(n as nat),
{
    if n < MIN_DIM as u64 {
        MIN_DIM
    } else if n > MAX_DIM as u64 {
        MAX_DIM
    } else {
        n as u16
    }
}

proof fn lemma_times_at(s: Str, n: int)
    requires
        0 <= n <= s.len(),
        forall|i: int| 0 <= i < n ==> #[trigger] s[i] != 'x' && s[i] != 'X',
        n < s.len() ==> s[n] == 'x' || s[n] == 'X',
    ensures
        times_at(s) == n,
    decreases n,
{
    if n > 0 {
        let t = s.skip(1);
        assert forall|i: int| 0 <= i < n - 1 implies #[trigger] t[i] != 'x' && t[i] != 'X' by {
            assert(t[i] == s[i + 1]);
        }
        lemma_times_at(t, n - 1);
        assert(s[0] != 'x');
    }
}

fn parse_size(arg: &str) -> (r: Option<(u64, u64)>)
    ensures
        match r {
            Some((w, h)) => size_of(arg@) == Some((w as nat, h as nat)),
            None => size_of(arg@) is None,
        },
{
    let cs = to_chars(arg);
    let mut n: usize = 0;
    while n < cs.len() && cs[n] != 'x' && cs[n] != 'X'
        invariant
            n <= cs@.len(),
            forall|j: int| 0 <= j < n ==> #[trigger] cs@[j] != 'x' && cs@[j] != 'X',
        decreases cs@.len() - n,
    {
        n = n + 1;
    }
    proof {
        lemma_times_at(cs@, n as int);
    }
    if n == cs.len() {
        return None;
    }
    let w = from_chars(&cs, 0, n);
    let h = from_chars(&cs, n + 1, cs.len());
    assert(w@ =~= cs@.take(n as int));
    assert(h@ =~= cs@.skip(n + 1));
    let w = strip(w.as_str());
    let h = strip(h.as_str());
    match parse_number(w.as_str(), 65535) {
        Some(w) => match parse_number(h.as_str(), 65535) {
            Some(h) => Some((w, h)),
            None => None,
        },
        None => None,
    }
}

fn parse_resize(arg: &str) -> (r: DriverCommand)
    ensures
        r@ == resize_of(arg@),
{
    match parse_size(arg) {
        Some((w, h)) => {
            let cols = clamp_dim(w);
            let rows = clamp_dim(h);
            let a = number(cols as u64);
            let b = number(rows as u64);
            let mut reply = glue3("ok resize ", a.as_str(), "x");
            reply.append(b.as_str());
            DriverCommand::Resize { cols, rows, reply }
        },
        None => DriverCommand::Refused(glue("err resize wants <W>x<H>, got: ", arg)),
    }
}

fn parse_settle(arg: &str) -> (r: DriverCommand)
    ensures
        r@ == settle_of(arg@),
{
    if arg.is_empty() {
        DriverCommand::Settle(SETTLE_DEFAULT_MS)
    } else {
        match parse_number(arg, u64::MAX) {
            Some(ms) => DriverCommand::Settle(ms),
            None => DriverCommand::Refused(
                glue("err settle timeout must be milliseconds: ", arg),
            ),
        }
    }
}

fn parse_command(cmd: &str) -> (r: DriverCommand)
    ensures
        r@ == command_of(cmd@),
{
    let (verb, raw) = split_verb(cmd);
    let arg = strip(raw.as_str());
    let verb = verb.as_str();
    if same(verb, "key") {
        match parse_key_spec(arg.as_str()) {
            Some(key) => DriverCommand::Key { key, reply: glue("ok key ", arg.as_str()) },
            None => DriverCommand::Refused(glue("err unknown key: ", arg.as_str())),
        }
    } else if same(verb, "keys") {
        if raw.as_str().is_empty() {
            DriverCommand::Refused(owned("err keys needs text to type"))
        } else {
            let n = to_chars(raw.as_str()).len();
            let count = number(n as u64);
            DriverCommand::Keys { text: raw, reply: glue("ok keys ", count.as_str()) }
        }
    } else if same(verb, "dump") {
        DriverCommand::Dump
    } else if same(verb, "state") {
        DriverCommand::State
    } else if same(verb, "settle") {
        parse_settle(arg.as_str())
    } else if same(verb, "resize") {
        parse_resize(arg.as_str())
    } else if same(verb, "quit") {
        DriverCommand::Quit
    } else {
        DriverCommand::Refused(glue("err unknown command: ", verb))
    }
}

/// The command of a line of input, if it holds one. `keys` takes its argument
/// verbatim (spaces are keystrokes too), the others want it tidy; a malformed
/// command is refused and never ends the session.
pub fn read_command(line: &str) -> (r: Option<DriverCommand>)
    ensures
        crate::text::opt_view(r) == line_command(line@),
{
    let cmd = drop_line_end(line);
    if is_blank(cmd.as_str()) {
        return None;
    }
    let cmd = drop_lead(cmd.as_str());
    if begins_with(cmd.as_str(), "#") {
        return None;
    }
    Some(parse_command(cmd.as_str()))
}

// ---------------------------------------------------------------------
// Replies
// ---------------------------------------------------------------------

/// Cells of a row put together.
pub open spec fn row_cells(cells: Seq<Str>, from: int, to: int) -> Str
    decreases to - from,
{
    if from >= to {
        Seq::empty()
    } else {
        row_cells(cells, from, to - 1) + cells[to - 1]
    }
}

/// A row of a screen, trailing blanks stripped.
pub fn screen_row(cells: &Vec<String>, width: usize, y: usize) -> (r: String)
    requires
        (y + 1) * width <= cells@.len(),
    ensures
        r@ == trim_end(row_cells(views(cells@), y * width, (y + 1) * width)),
{
    let ghost v = views(cells@);
    let total = cells.len();
    assert((y + 1) * width == y * width + width) by (nonlinear_arith);
    assert(0 <= y * width) by (nonlinear_arith)
        requires
            0 <= y,
            0 <= width,
    ;
    let from: usize = y * width;
    let mut row = String::new();
    let mut x: usize = 0;
    assert(row@ =~= row_cells(v, from as int, from as int));
    while x < width
        invariant
            x <= width,
            from + width <= total,
            total == cells@.len(),
            v == views(cells@),
            row@ == row_cells(v, from as int, from + x),
        decreases width - x,
    {
        assert(v[from + x] == cells@[from + x]@);
        row.append(cells[from + x].as_str());
        x = x + 1;
    }
    drop_tail(row.as_str())
}

/// What is said where a `settle` ran out of time.
pub fn settle_timeout(refreshing: usize, pending: usize) -> (r: String)
    ensures
        r@ == "err settle timeout (refreshing="@ + decimal(refreshing as nat) + " pending="@
            + decimal(pending as nat) + ")"@,
{
    let a = number(refreshing as u64);
    let b = number(pending as u64);
    let mut r = glue3("err settle timeout (refreshing=", a.as_str(), " pending=");
    r.append(b.as_str());
    r.append(")");
    r
}

/// A screen is resized to what was asked for, held between twenty and five hundred
/// either way.
pub proof fn law_resize(w: nat, h: nat)
    requires
        w <= 65535,
        h <= 65535,
    ensures
        ({
            let held = |n: nat|
                if n < 20 {
                    20nat
                } else if n > 500 {
                    500
                } else {
                    n
                };
            resize_of(decimal(w).push('x') + decimal(h)) matches CommandView::Resize {
                cols,
                rows,
                reply: _,
            } && cols == held(w) && rows == held(h)
        }),
{
    let a = decimal(w);
    let b = decimal(h);
    crate::text::law_decimal(w);
    crate::text::law_decimal(h);
    let arg = a.push('x') + b;
    assert forall|i: int| 0 <= i < a.len() implies #[trigger] arg[i] != 'x' && arg[i] != 'X' by {
        assert('0' <= a[i] <= '9');
        assert(arg[i] == a[i]);
    }
    assert(arg[a.len() as int] == 'x');
    lemma_times_at(arg, a.len() as int);
    assert(arg.take(a.len() as int) =~= a);
    assert(arg.skip(a.len() as int + 1) =~= b);
    assert('0' <= a[0] <= '9' && '0' <= a[a.len() - 1] <= '9');
    assert('0' <= b[0] <= '9' && '0' <= b[b.len() - 1] <= '9');
    crate::text::lemma_trim_clean(a);
    crate::text::lemma_trim_clean(b);
    crate::tui::keys::law_number(w, u16::MAX as nat);
    crate::tui::keys::law_number(h, u16::MAX as nat);
}

/// How long a settle waits: as long as it says, and five seconds where it says
/// nothing.
pub proof fn law_settle(ms: nat)
    requires
        ms <= u64::MAX,
    ensures
        settle_of(decimal(ms)) == CommandView::Settle(ms),
        settle_of(Seq::empty()) == CommandView::Settle(5000),
{
    crate::text::law_decimal(ms);
    crate::tui::keys::law_number(ms, u64::MAX as nat);
}

/// What is typed is taken as it stands, blanks before it included; blank lines and
/// comments are no commands.
pub proof fn law_keys_verbatim(text: Str, blank: Str)
    requires
        text.len() > 0,
        !space(text.last()),
        forall|i: int| 0 <= i < blank.len() ==> space(#[trigger] blank[i]),
    ensures
        line_command("keys "@ + text) matches Some(CommandView::Keys { text: t, reply: _ }) && t
            == text,
        line_command("#"@ + text) is None,
        line_command(blank) is None,
{
    reveal_strlit("keys ");
    reveal_strlit("keys");
    reveal_strlit("key");
    reveal_strlit("#");
    let cmd = "keys "@ + text;
    assert(cmd.last() == text.last());
    assert(without_line_end(cmd) == cmd);
    crate::text::lemma_trim_clean(cmd);
    crate::text::lemma_lead_is(cmd, 0);
    assert(trim_start(cmd) =~= cmd);
    assert(cmd.take(1)[0] == 'k');
    assert("#"@[0] == '#');
    crate::text::lemma_word_len_is(cmd, 4);
    assert(cmd.take(4) =~= "keys"@);
    assert("keys"@.len() != "key"@.len());
    assert(cmd.skip(5) =~= text);
    crate::text::lemma_tail_end_is(text, text.len() as int);
    assert(trim_end(text) =~= text);
    let c = "#"@ + text;
    assert(c.last() == text.last());
    assert(without_line_end(c) == c);
    crate::text::lemma_lead_is(c, 0);
    assert(trim_start(c) =~= c);
    assert(c.take(1) =~= "#"@);
    lemma_line_end_blank(blank);
    crate::text::lemma_blank(without_line_end(blank));
}

proof fn lemma_line_end_blank(s: Str)
    requires
        forall|i: int| 0 <= i < s.len() ==> space(#[trigger] s[i]),
    ensures
        forall|i: int|
            0 <= i < without_line_end(s).len() ==> space(#[trigger] without_line_end(s)[i]),
    decreases s.len(),
{
    let t = without_line_end(s);
    if s.len() > 0 && (s.last() == '\n' || s.last() == '\r') {
        let d = s.drop_last();
        assert forall|i: int| 0 <= i < d.len() implies space(#[trigger] d[i]) by {
            assert(space(s[i]));
        }
        lemma_line_end_blank(d);
        assert(t == without_line_end(d));
    } else {
        assert(t == s);
    }
    assert forall|i: int| 0 <= i < t.len() implies space(#[trigger] t[i]) by {}
}

} // verus!
