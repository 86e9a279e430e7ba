//! The order of strings, and what a key of the sorted collections offers.
use vstd::prelude::*;

use crate::text::{to_chars, Str};

verus! {

/// Outcome of comparing two keys.
#[derive(Clone, Copy, Debug, PartialEq, Eq, Structural)]
pub enum Order {
    Less,
    Equal,
    Greater,
}

/// A value that can be ordered, copied and kept in a sorted collection.
pub trait Key: View + Sized {
    /// The strict order of keys, on their views.
    spec fn lt(a: Self::V, b: Self::V) -> bool;

    proof fn irreflexive(a: Self::V)
        ensures
            !Self::lt(a, a),
    ;

    proof fn transitive(a: Self::V, b: Self::V, c: Self::V)
        requires
            Self::lt(a, b),
            Self::lt(b, c),
        ensures
            Self::lt(a, c),
    ;

    proof fn total(a: Self::V, b: Self::V)
        ensures
            Self::lt(a, b) || a == b || Self::lt(b, a),
    ;

    fn compare(&self, other: &Self) -> (r: Order)
        ensures
            match r {
                Order::Less => Self::lt(self@, other@),
                Order::Equal => self@ == other@,
                Order::Greater => Self::lt(other@, self@),
            },
    ;
}

/// A value that can be copied.
pub trait Duplicate: View + Sized {
    fn duplicate(&self) -> (r: Self)
        ensures
            r@ == self@,
    ;
}

/// A copy of a list.
pub fn duplicate_list<T: Duplicate>(v: &Vec<T>) -> (r: Vec<T>)
    ensures
        crate::text::views(r@) == crate::text::views(v@),
{
    let mut r: Vec<T> = Vec::new();
    let mut i: usize = 0;
    while i < v.len()
        invariant
            i <= v@.len(),
            r@.len() == i,
            forall|j: int| 0 <= j < i ==> (#[trigger] r@[j])@ == v@[j]@,
        decreases v@.len() - i,
    {
        r.push(v[i].duplicate());
        i = i + 1;
    }
    assert(crate::text::views(r@) =~= crate::text::views(v@));
    r
}

/// A copy of an optional value.
pub fn duplicate_opt<T: Duplicate>(o: &Option<T>) -> (r: Option<T>)
    ensures
        crate::text::opt_view(r) == crate::text::opt_view(*o),
{
    match o {
        Some(x) => Some(x.duplicate()),
        None => None,
    }
}

/// The order of strings: the first character in which two strings differ
/// decides by its code point, and a string comes before its extensions.
pub open spec fn lex(a: Str, b: Str) -> bool
    decreases a.len(),
{
    if b.len() == 0 {
        false
    } else if a.len() == 0 {
        true
    } else if a[0] == b[0] {
        lex(a.skip(1), b.skip(1))
    } else {
        a[0] < b[0]
    }
}

pub proof fn lex_irreflexive(a: Str)
    ensures
        !lex(a, a),
    decreases a.len(),
{
    if a.len() > 0 {
        lex_irreflexive(a.skip(1));
    }
}

pub proof fn lex_transitive(a: Str, b: Str, c: Str)
    requires
        lex(a, b),
        lex(b, c),
    ensures
        lex(a, c),
    decreases a.len(),
{
    if a.len() > 0 && a[0] == b[0] && b[0] == c[0] {
        lex_transitive(a.skip(1), b.skip(1), c.skip(1));
    }
}

pub proof fn lex_total(a: Str, b: Str)
    ensures
        lex(a, b) || a == b || lex(b, a),
    decreases a.len(),
{
    if a.len() > 0 && b.len() > 0 {
        if a[0] == b[0] {
            lex_total(a.skip(1), b.skip(1));
            if a.skip(1) == b.skip(1) {
                assert(a =~= seq![a[0]] + a.skip(1));
                assert(b =~= seq![b[0]] + b.skip(1));
            }
        }
    } else if a.len() == 0 && b.len() == 0 {
        assert(a =~= b);
    }
}

/// What two strings share up to an index does not decide their order.
proof fn lex_shared(a: Str, b: Str, n: int)
    requires
        0 <= n <= a.len(),
        n <= b.len(),
        forall|i: int| 0 <= i < n ==> a[i] == b[i],
    ensures
        lex(a, b) == lex(a.skip(n), b.skip(n)),
    decreases n,
{
    if n == 0 {
        assert(a.skip(0) =~= a);
        assert(b.skip(0) =~= b);
    } else {
        let x = a.skip(1);
        let y = b.skip(1);
        assert(a[0] == b[0]);
        assert forall|i: int| 0 <= i < n - 1 implies x[i] == y[i] by {
            assert(x[i] == a[i + 1]);
            assert(y[i] == b[i + 1]);
        }
        lex_shared(x, y, n - 1);
        assert(x.skip(n - 1) =~= a.skip(n));
        assert(y.skip(n - 1) =~= b.skip(n));
    }
}

/// Compares two strings.
pub fn compare_text(a: &str, b: &str) -> (r: Order)
    ensures
        match r {
            Order::Less => lex(a@, b@),
            Order::Equal => a@ == b@,
            Order::Greater => lex(b@, a@),
        },
{
    let x = to_chars(a);
    let y = to_chars(b);
    let mut i: usize = 0;
    while i < x.len() && i < y.len() && x[i] == y[i]
        invariant
            i <= x@.len(),
            i <= y@.len(),
            forall|j: int| 0 <= j < i ==> x@[j] == y@[j],
        decreases x@.len() - i,
    {
        i = i + 1;
    }
    proof {
        lex_shared(x@, y@, i as int);
        lex_shared(y@, x@, i as int);
    }
    if i == x.len() {
        if i == y.len() {
            assert(x@ =~= y@);
            Order::Equal
        } else {
            Order::Less
        }
    } else if i == y.len() {
        Order::Greater
    } else if x[i] < y[i] {
        Order::Less
    } else {
        Order::Greater
    }
}

impl Key for String {
    open spec fn lt(a: Seq<char>, b: Seq<char>) -> bool {
        lex(a, b)
    }

    proof fn irreflexive(a: Seq<char>) {
        lex_irreflexive(a);
    }

    proof fn transitive(a: Seq<char>, b: Seq<char>, c: Seq<char>) {
        lex_transitive(a, b, c);
    }

    proof fn total(a: Seq<char>, b: Seq<char>) {
        lex_total(a, b);
    }

    fn compare(&self, other: &Self) -> (r: Order) {
        compare_text(self.as_str(), other.as_str())
    }
}

impl Duplicate for String {
    fn duplicate(&self) -> (r: Self) {
        self.clone()
    }
}

/// Of two texts the one comes first that has the smaller character where they
/// first differ, and a text comes before its extensions.
pub proof fn law_text_order(a: Str, b: Str, n: int)
    requires
        0 <= n <= a.len(),
        n <= b.len(),
        forall|i: int| 0 <= i < n ==> #[trigger] a[i] == b[i],
    ensures
        n < a.len() && n < b.len() && a[n] < b[n] ==> lex(a, b) && !lex(b, a),
        n == a.len() && n < b.len() ==> lex(a, b) && !lex(b, a),
        n == a.len() && n == b.len() ==> !lex(a, b),
    decreases n,
{
    if n > 0 {
        let x = a.skip(1);
        let y = b.skip(1);
        assert(a[0] == b[0]);
        assert forall|i: int| 0 <= i < n - 1 implies #[trigger] x[i] == y[i] by {
            assert(a[i + 1] == b[i + 1]);
        }
        law_text_order(x, y, n - 1);
    }
}

} // verus!
