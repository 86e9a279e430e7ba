//! The MOVED file: ports that were renamed or removed.
use vstd::prelude::*;

use crate::list::{lemma_take_one, lookup};
use crate::sorted::SortedMap;
use crate::text::{begins_with, join, law_join, law_pieces_of_join, lemma_lines_push, line_ended};
use crate::text::{lines, opt_view, owned, pieces, same, split, split_lines, starts, strip};
use crate::text::{trim, views, Str};

verus! {

/// Outcome of resolving an origin through the MOVED file.
#[derive(Debug, PartialEq, Eq)]
pub enum MovedResult {
    Unchanged,
    /// Followed one or more MOVED entries to a new origin.
    MovedTo { origin: String, reason: String },
    /// Entry with an empty target: the port was removed.
    Removed { reason: String },
}

#[verifier::ext_equal]
pub enum MovedView {
    Unchanged,
    MovedTo { origin: Str, reason: Str },
    Removed { reason: Str },
}

impl View for MovedResult {
    type V = MovedView;

    open spec fn view(&self) -> MovedView {
        match *self {
            MovedResult::Unchanged => MovedView::Unchanged,
            MovedResult::MovedTo { origin, reason } => MovedView::MovedTo {
                origin: origin@,
                reason: reason@,
            },
            MovedResult::Removed { reason } => MovedView::Removed { reason: reason@ },
        }
    }
}

/// What became of an origin: where it went, if anywhere, and why.
struct Entry {
    target: Option<String>,
    reason: String,
}

#[verifier::ext_equal]
pub struct EntryView {
    pub target: Option<Str>,
    pub reason: Str,
}

impl View for Entry {
    type V = EntryView;

    closed spec fn view(&self) -> EntryView {
        EntryView { target: opt_view(self.target), reason: self.reason@ }
    }
}

pub struct Moved {
    /// old origin -> (new origin or None if removed, reason)
    map: SortedMap<String, Entry>,
}

impl View for Moved {
    type V = Map<Str, EntryView>;

    closed spec fn view(&self) -> Map<Str, EntryView> {
        self.map@
    }
}

/// The entry of one `old|new|date|reason` line: blank lines and comments have
/// none, and a line without a second field has none.
pub open spec fn moved_line(line: Str) -> Option<(Str, EntryView)> {
    let t = trim(line);
    let fields = pieces(t, '|');
    if t.len() == 0 || starts(t, "#"@) || fields.len() < 2 {
        None
    } else {
        let new = trim(fields[1]);
        Some(
            (
                trim(fields[0]),
                EntryView {
                    target: if new.len() == 0 {
                        None
                    } else {
                        Some(new)
                    },
                    reason: if fields.len() > 3 {
                        fields[3]
                    } else {
                        Seq::empty()
                    },
                },
            ),
        )
    }
}

/// The entries of lines; a later line replaces an earlier one for its origin.
pub open spec fn moved_lines(ls: Seq<Str>) -> Map<Str, EntryView>
    decreases ls.len(),
{
    if ls.len() == 0 {
        Map::empty()
    } else {
        let before = moved_lines(ls.drop_last());
        match moved_line(ls.last()) {
            Some((old, e)) => before.insert(old, e),
            None => before,
        }
    }
}

/// How many entries a chain may have.
pub const MAX_HOPS: usize = 32;

/// Where a chain of entries leads, of which at most `left` are followed.
pub open spec fn chase(m: Map<Str, EntryView>, at: Str, reason: Str, left: nat) -> MovedView
    decreases left,
{
    match lookup(m, at) {
        Some(e) => if left == 0 {
            MovedView::MovedTo { origin: at, reason }
        } else {
            match e.target {
                Some(n) => chase(m, n, e.reason, (left - 1) as nat),
                None => MovedView::Removed { reason: e.reason },
            }
        },
        None => MovedView::MovedTo { origin: at, reason },
    }
}

/// What became of an origin. One that its chain leads back to is unchanged.
pub open spec fn moved_of(m: Map<Str, EntryView>, origin: Str) -> MovedView {
    match chase(m, origin, Seq::empty(), MAX_HOPS as nat) {
        MovedView::MovedTo { origin: o, reason } => if o == origin {
            MovedView::Unchanged
        } else {
            MovedView::MovedTo { origin: o, reason }
        },
        other => other,
    }
}

/// The origin that a number of moves leads to.
pub open spec fn moved_on(m: Map<Str, EntryView>, origin: Str, n: nat) -> Option<Str>
    decreases n,
{
    if n == 0 {
        Some(origin)
    } else {
        match moved_on(m, origin, (n - 1) as nat) {
            Some(o) => match lookup(m, o) {
                Some(e) => e.target,
                None => None,
            },
            None => None,
        }
    }
}

/// The reason given for the last of a number of moves; `reason` where there is
/// none.
pub open spec fn move_reason(m: Map<Str, EntryView>, origin: Str, n: nat, reason: Str) -> Str {
    if n == 0 {
        reason
    } else {
        (lookup(m, moved_on(m, origin, (n - 1) as nat)->0)->0).reason
    }
}

proof fn lemma_chase(m: Map<Str, EntryView>, origin: Str, reason: Str, n: nat, left: nat)
    requires
        n <= left,
        moved_on(m, origin, n) is Some,
        match lookup(m, moved_on(m, origin, n)->0) {
            Some(e) => e.target is None && n < left,
            None => true,
        },
    ensures
        chase(m, origin, reason, left) == match lookup(m, moved_on(m, origin, n)->0) {
            Some(e) => MovedView::Removed { reason: e.reason },
            None => MovedView::MovedTo {
                origin: moved_on(m, origin, n)->0,
                reason: move_reason(m, origin, n, reason),
            },
        },
    decreases n,
{
    if n > 0 {
        lemma_moved_first(m, origin, n);
        let e = lookup(m, origin)->0;
        let next = e.target->0;
        lemma_chase(m, next, e.reason, (n - 1) as nat, (left - 1) as nat);
        if n > 1 {
            lemma_moved_prefix(m, origin, n);
            lemma_moved_first(m, origin, (n - 1) as nat);
        } else {
            assert(moved_on(m, origin, 0) == Some(origin));
        }
    }
}

/// Of moves that can all be made the first ones can be made.
proof fn lemma_moved_prefix(m: Map<Str, EntryView>, origin: Str, n: nat)
    requires
        n > 0,
        moved_on(m, origin, n) is Some,
    ensures
        moved_on(m, origin, (n - 1) as nat) is Some,
{
}

/// Moving on is moving once and then moving on from there.
proof fn lemma_moved_first(m: Map<Str, EntryView>, origin: Str, n: nat)
    requires
        n > 0,
        moved_on(m, origin, n) is Some,
    ensures
        lookup(m, origin) is Some,
        (lookup(m, origin)->0).target is Some,
        moved_on(m, (lookup(m, origin)->0).target->0, (n - 1) as nat) == moved_on(m, origin, n),
    decreases n,
{
    if n == 1 {
        assert(moved_on(m, origin, 0) == Some(origin));
    } else {
        let p = (n - 1) as nat;
        lemma_moved_first(m, origin, p);
        let next = (lookup(m, origin)->0).target->0;
        assert(moved_on(m, next, (p - 1) as nat) == moved_on(m, origin, p));
    }
}

/// A chain of renames that ends is followed to its end: an origin moves to the
/// last one of its chain, for the reason given there, whatever the number of
/// entries up to the limit.
pub proof fn law_moved_to_end(m: Map<Str, EntryView>, origin: Str, n: nat)
    requires
        n <= 32,
        moved_on(m, origin, n) is Some,
        lookup(m, moved_on(m, origin, n)->0) is None,
    ensures
        ({
            let end = moved_on(m, origin, n)->0;
            moved_of(m, origin) == if end == origin {
                MovedView::Unchanged
            } else {
                MovedView::MovedTo { origin: end, reason: move_reason(m, origin, n, Seq::empty()) }
            }
        }),
{
    lemma_chase(m, origin, Seq::empty(), n, MAX_HOPS as nat);
}

/// A chain of renames that ends in a removal is a removal, for the reason given
/// there.
pub proof fn law_moved_to_removal(m: Map<Str, EntryView>, origin: Str, n: nat)
    requires
        n < 32,
        moved_on(m, origin, n) is Some,
        lookup(m, moved_on(m, origin, n)->0) is Some,
        (lookup(m, moved_on(m, origin, n)->0)->0).target is None,
    ensures
        moved_of(m, origin) == (MovedView::Removed {
            reason: (lookup(m, moved_on(m, origin, n)->0)->0).reason,
        }),
{
    lemma_chase(m, origin, Seq::empty(), n, MAX_HOPS as nat);
}

impl Moved {
    pub fn parse(text: &str) -> (r: Self)
        ensures
            r@ == moved_lines(lines(text@)),
    {
        let ls = split_lines(text);
        let ghost v = views(ls@);
        let mut map: SortedMap<String, Entry> = SortedMap::new();
        let mut i: usize = 0;
        assert(v.take(0) =~= Seq::<Str>::empty());
        while i < ls.len()
            invariant
                i <= ls@.len(),
                v == views(ls@),
                map@ == moved_lines(v.take(i as int)),
            decreases ls@.len() - i,
        {
            proof {
                lemma_take_one(v, i as int);
                assert(v[i as int] == ls@[i as int]@);
            }
            let line = strip(ls[i].as_str());
            i = i + 1;
            if line.as_str().is_empty() || begins_with(line.as_str(), "#") {
                continue;
            }
            let fields = split(line.as_str(), '|');
            let ghost fv = views(fields@);
            if fields.len() < 2 {
                continue;
            }
            assert(fv[0] == fields@[0]@ && fv[1] == fields@[1]@);
            let reason = if fields.len() > 3 {
                assert(fv[3] == fields@[3]@);
                fields[3].clone()
            } else {
                let e = String::new();
                assert(e@ =~= Seq::<char>::empty());
                e
            };
            let new = strip(fields[1].as_str());
            let target = if new.as_str().is_empty() {
                None
            } else {
                Some(new)
            };
            let old = strip(fields[0].as_str());
            map.insert(old, Entry { target, reason });
        }
        assert(v.take(ls@.len() as int) =~= v);
        Moved { map }
    }

    /// Chase MOVED chains (with a cycle guard) for a bare origin (no flavor).
    pub fn resolve(&self, origin: &str) -> (r: MovedResult)
        ensures
            r@ == moved_of(self@, origin@),
    {
        let ghost m = self@;
        let mut current = owned(origin);
        let mut reason = String::new();
        let mut left: usize = MAX_HOPS;
        assert(reason@ =~= Seq::<char>::empty());
        loop
            invariant
                m == self@,
                left <= MAX_HOPS,
                chase(m, current@, reason@, left as nat) == chase(
                    m,
                    origin@,
                    Seq::empty(),
                    MAX_HOPS as nat,
                ),
            ensures
                chase(m, origin@, Seq::empty(), MAX_HOPS as nat) == (MovedView::MovedTo {
                    origin: current@,
                    reason: reason@,
                }),
            decreases left,
        {
            match self.map.get(&current) {
                Some(e) => {
                    if left == 0 {
                        break ;
                    }
                    let why = e.reason.clone();
                    match &e.target {
                        Some(n) => {
                            let next = n.clone();
                            left = left - 1;
                            reason = why;
                            current = next;
                        },
                        None => {
                            return MovedResult::Removed { reason: why };
                        },
                    }
                },
                None => {
                    break ;
                },
            }
        }
        if same(current.as_str(), origin) {
            MovedResult::Unchanged
        } else {
            MovedResult::MovedTo { origin: current, reason }
        }
    }
}

/// What one line says: its first field is where a port was, its second where it
/// went, or nothing where it was removed, and its fourth why. Comments say
/// nothing.
pub proof fn law_moved_line(text: Str, line: Str, old: Str, new: Str, date: Str, reason: Str)
    requires
        line_ended(text),
        line == join(seq![old, new, date, reason], seq!['|']),
        forall|i: int| 0 <= i < line.len() ==> #[trigger] line[i] != '\n',
        forall|i: int| 0 <= i < old.len() ==> #[trigger] old[i] != '|',
        forall|i: int| 0 <= i < new.len() ==> #[trigger] new[i] != '|',
        forall|i: int| 0 <= i < date.len() ==> #[trigger] date[i] != '|',
        forall|i: int| 0 <= i < reason.len() ==> #[trigger] reason[i] != '|',
        old.len() > 0,
        old[0] != '#',
        trim(line) == line,
        line.last() != '\r',
    ensures
        moved_lines(lines(text + line + "\n"@)) == moved_lines(lines(text)).insert(
            trim(old),
            EntryView {
                target: if trim(new).len() == 0 {
                    None
                } else {
                    Some(trim(new))
                },
                reason,
            },
        ),
{
    reveal_strlit("#");
    let parts = seq![old, new, date, reason];
    assert forall|i: int, j: int|
        0 <= i < parts.len() && 0 <= j < parts[i].len() implies #[trigger] parts[i][j] != '|' by {
        if i == 0 {
            assert(old[j] != '|');
        } else if i == 1 {
            assert(new[j] != '|');
        } else if i == 2 {
            assert(date[j] != '|');
        } else {
            assert(reason[j] != '|');
        }
    }
    law_pieces_of_join(parts, '|');
    law_join(parts.skip(1), old, seq!['|']);
    assert(seq![old] + parts.skip(1) =~= parts);
    assert(line[0] == old[0]);
    assert(!starts(line, "#"@)) by {
        if starts(line, "#"@) {
            assert(line.take(1)[0] == line[0]);
        }
    }
    lemma_lines_push(text, line);
    let ls = lines(text).push(line);
    assert(ls.drop_last() =~= lines(text));
}

/// A port that no entry is about is where it was.
pub proof fn law_not_moved(m: Map<Str, EntryView>, origin: Str)
    requires
        !m.dom().contains(origin),
    ensures
        moved_of(m, origin) == MovedView::Unchanged,
{
}

} // verus!
