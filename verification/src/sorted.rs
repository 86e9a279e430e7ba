//! Sets and maps kept in key order, as sorted vectors without duplicates.
use vstd::prelude::*;

use crate::order::{Duplicate, Key, Order};
use crate::text::views;

verus! {

/// Whether every key of a sequence comes before all that follow it.
pub open spec fn increasing<K: Key>(s: Seq<K::V>) -> bool {
    forall|i: int, j: int| 0 <= i < j < s.len() ==> K::lt(#[trigger] s[i], #[trigger] s[j])
}

/// The keys of a finite set in order.
pub open spec fn ordered<K: Key>(s: Set<K::V>) -> Seq<K::V> {
    choose|q: Seq<K::V>| #[trigger] increasing::<K>(q) && q.to_set() == s
}

/// An increasing sequence holds no key twice.
pub proof fn lemma_increasing_distinct<K: Key>(s: Seq<K::V>)
    requires
        increasing::<K>(s),
    ensures
        s.no_duplicates(),
{
    assert forall|i: int, j: int| 0 <= i < s.len() && 0 <= j < s.len() && i != j implies s[i]
        != s[j] by {
        if i < j {
            assert(K::lt(s[i], s[j]));
        } else {
            assert(K::lt(s[j], s[i]));
        }
        K::irreflexive(s[i]);
    }
}

/// Two increasing sequences of the same keys are equal.
pub proof fn lemma_increasing_unique<K: Key>(a: Seq<K::V>, b: Seq<K::V>)
    requires
        increasing::<K>(a),
        increasing::<K>(b),
        a.to_set() == b.to_set(),
    ensures
        a == b,
    decreases a.len(),
{
    if a.len() == 0 {
        if b.len() > 0 {
            assert(b.to_set().contains(b[0]));
            assert(a.contains(b[0]));
        }
        assert(a =~= b);
    } else {
        assert(a.to_set().contains(a[0]));
        assert(b.contains(a[0]));
        assert(b.to_set().contains(b[0]));
        assert(a.contains(b[0]));
        let i = choose|i: int| 0 <= i < b.len() && b[i] == a[0];
        let j = choose|j: int| 0 <= j < a.len() && a[j] == b[0];
        if i > 0 {
            assert(K::lt(b[0], b[i]));
            if j > 0 {
                assert(K::lt(a[0], a[j]));
                K::transitive(a[0], b[0], a[0]);
            }
            K::irreflexive(a[0]);
        }
        assert(a[0] == b[0]);
        let x = a.skip(1);
        let y = b.skip(1);
        assert(increasing::<K>(x)) by {
            assert forall|i: int, j: int| 0 <= i < j < x.len() implies K::lt(
                #[trigger] x[i],
                #[trigger] x[j],
            ) by {
                assert(K::lt(a[i + 1], a[j + 1]));
            }
        }
        assert(increasing::<K>(y)) by {
            assert forall|i: int, j: int| 0 <= i < j < y.len() implies K::lt(
                #[trigger] y[i],
                #[trigger] y[j],
            ) by {
                assert(K::lt(b[i + 1], b[j + 1]));
            }
        }
        lemma_skip_one_set::<K>(a);
        lemma_skip_one_set::<K>(b);
        assert(x.to_set() =~= a.to_set().remove(a[0]));
        assert(y.to_set() =~= b.to_set().remove(b[0]));
        lemma_increasing_unique::<K>(x, y);
        assert(a =~= seq![a[0]] + x);
        assert(b =~= seq![b[0]] + y);
    }
}

proof fn lemma_skip_one_set<K: Key>(a: Seq<K::V>)
    requires
        increasing::<K>(a),
        a.len() > 0,
    ensures
        a.skip(1).to_set() == a.to_set().remove(a[0]),
{
    lemma_increasing_distinct::<K>(a);
    let x = a.skip(1);
    assert forall|v: K::V| x.to_set().contains(v) <==> a.to_set().remove(a[0]).contains(v) by {
        if x.contains(v) {
            let i = choose|i: int| 0 <= i < x.len() && x[i] == v;
            assert(a[i + 1] == v);
            assert(a.contains(v));
        }
        if a.contains(v) && v != a[0] {
            let i = choose|i: int| 0 <= i < a.len() && a[i] == v;
            assert(x[i - 1] == v);
            assert(x.contains(v));
        }
    }
    assert(x.to_set() =~= a.to_set().remove(a[0]));
}

/// An increasing sequence is the order of its set.
pub proof fn lemma_ordered_is<K: Key>(s: Seq<K::V>)
    requires
        increasing::<K>(s),
    ensures
        ordered::<K>(s.to_set()) == s,
        s.to_set().finite(),
        s.to_set().len() == s.len(),
{
    lemma_increasing_distinct::<K>(s);
    s.unique_seq_to_set();
    assert(increasing::<K>(s) && s.to_set() == s.to_set());
    lemma_increasing_unique::<K>(ordered::<K>(s.to_set()), s);
}

/// Where a key belongs in an increasing sequence.
pub proof fn lemma_slot<K: Key>(s: Seq<K::V>, k: K::V) -> (n: int)
    requires
        increasing::<K>(s),
        !s.contains(k),
    ensures
        0 <= n <= s.len(),
        forall|i: int| 0 <= i < n ==> K::lt(#[trigger] s[i], k),
        forall|i: int| n <= i < s.len() ==> K::lt(k, #[trigger] s[i]),
    decreases s.len(),
{
    if s.len() == 0 {
        0
    } else {
        let t = s.drop_last();
        assert(increasing::<K>(t)) by {
            assert forall|i: int, j: int| 0 <= i < j < t.len() implies K::lt(
                #[trigger] t[i],
                #[trigger] t[j],
            ) by {
                assert(K::lt(s[i], s[j]));
            }
        }
        assert(!t.contains(k)) by {
            if t.contains(k) {
                let i = choose|i: int| 0 <= i < t.len() && t[i] == k;
                assert(s[i] == k);
            }
        }
        assert(s.contains(s.last()));
        K::total(s.last(), k);
        if K::lt(s.last(), k) {
            assert forall|i: int| 0 <= i < s.len() implies K::lt(#[trigger] s[i], k) by {
                if i < s.len() - 1 {
                    assert(K::lt(s[i], s[s.len() - 1]));
                    K::transitive(s[i], s.last(), k);
                }
            }
            s.len() as int
        } else {
            let n = lemma_slot::<K>(t, k);
            assert forall|i: int| 0 <= i < n implies K::lt(#[trigger] s[i], k) by {
                assert(t[i] == s[i]);
            }
            assert forall|i: int| n <= i < s.len() implies K::lt(k, #[trigger] s[i]) by {
                if i < s.len() - 1 {
                    assert(t[i] == s[i]);
                }
            }
            n
        }
    }
}

/// Putting a key where it belongs keeps the order and adds just that key.
pub proof fn lemma_insert_slot<K: Key>(s: Seq<K::V>, n: int, k: K::V)
    requires
        increasing::<K>(s),
        0 <= n <= s.len(),
        forall|i: int| 0 <= i < n ==> K::lt(#[trigger] s[i], k),
        forall|i: int| n <= i < s.len() ==> K::lt(k, #[trigger] s[i]),
    ensures
        increasing::<K>(s.insert(n, k)),
        s.insert(n, k).to_set() == s.to_set().insert(k),
        !s.contains(k),
{
    let t = s.insert(n, k);
    assert forall|i: int, j: int| 0 <= i < j < t.len() implies K::lt(
        #[trigger] t[i],
        #[trigger] t[j],
    ) by {
        let x = if i < n {
            i
        } else {
            i - 1
        };
        let y = if j < n {
            j
        } else {
            j - 1
        };
        if i == n {
            assert(t[j] == s[y]);
        } else if j == n {
            assert(t[i] == s[x]);
        } else {
            assert(K::lt(s[x], s[y]));
        }
    }
    assert forall|v: K::V| t.to_set().contains(v) <==> s.to_set().insert(k).contains(v) by {
        if t.contains(v) {
            let i = choose|i: int| 0 <= i < t.len() && t[i] == v;
            if i < n {
                assert(s[i] == v);
            } else if i > n {
                assert(s[i - 1] == v);
            }
        }
        if s.contains(v) {
            let i = choose|i: int| 0 <= i < s.len() && s[i] == v;
            if i < n {
                assert(t[i] == v);
            } else {
                assert(t[i + 1] == v);
            }
        }
        assert(t[n] == k);
    }
    assert(t.to_set() =~= s.to_set().insert(k));
    if s.contains(k) {
        let i = choose|i: int| 0 <= i < s.len() && s[i] == k;
        K::irreflexive(k);
        if i < n {
            assert(K::lt(s[i], k));
        } else {
            assert(K::lt(k, s[i]));
        }
    }
}

/// Taking a key out keeps the order and takes out just that key.
pub proof fn lemma_remove_slot<K: Key>(s: Seq<K::V>, n: int)
    requires
        increasing::<K>(s),
        0 <= n < s.len(),
    ensures
        increasing::<K>(s.remove(n)),
        s.remove(n).to_set() == s.to_set().remove(s[n]),
{
    lemma_increasing_distinct::<K>(s);
    let t = s.remove(n);
    assert forall|i: int, j: int| 0 <= i < j < t.len() implies K::lt(
        #[trigger] t[i],
        #[trigger] t[j],
    ) by {
        let x = if i < n {
            i
        } else {
            i + 1
        };
        let y = if j < n {
            j
        } else {
            j + 1
        };
        assert(K::lt(s[x], s[y]));
    }
    assert forall|v: K::V| t.to_set().contains(v) <==> s.to_set().remove(s[n]).contains(v) by {
        if t.contains(v) {
            let i = choose|i: int| 0 <= i < t.len() && t[i] == v;
            if i < n {
                assert(s[i] == v);
            } else {
                assert(s[i + 1] == v);
            }
        }
        if s.contains(v) && v != s[n] {
            let i = choose|i: int| 0 <= i < s.len() && s[i] == v;
            if i < n {
                assert(t[i] == v);
            } else {
                assert(t[i - 1] == v);
            }
        }
    }
    assert(t.to_set() =~= s.to_set().remove(s[n]));
}

/// Every finite set of keys has an order: its keys, each once, increasing.
pub proof fn lemma_ordered<K: Key>(s: Set<K::V>)
    requires
        s.finite(),
    ensures
        increasing::<K>(ordered::<K>(s)),
        ordered::<K>(s).to_set() == s,
        ordered::<K>(s).len() == s.len(),
        ordered::<K>(s).no_duplicates(),
        forall|k: K::V| #[trigger] s.contains(k) <==> ordered::<K>(s).contains(k),
    decreases s.len(),
{
    if s.len() == 0 {
        let e = Seq::<K::V>::empty();
        assert(e.to_set() =~= s);
        assert(increasing::<K>(e));
    } else {
        let k = s.choose();
        let t = s.remove(k);
        lemma_ordered::<K>(t);
        let q = ordered::<K>(t);
        assert(!q.contains(k)) by {
            if q.contains(k) {
                assert(q.to_set().contains(k));
            }
        }
        let n = lemma_slot::<K>(q, k);
        lemma_insert_slot::<K>(q, n, k);
        assert(q.insert(n, k).to_set() =~= s);
        assert(increasing::<K>(q.insert(n, k)));
    }
    let q = ordered::<K>(s);
    assert(increasing::<K>(q) && q.to_set() == s);
    lemma_ordered_is::<K>(q);
    lemma_increasing_distinct::<K>(q);
    assert forall|k: K::V| #[trigger] s.contains(k) <==> q.contains(k) by {
        assert(q.to_set().contains(k) <==> q.contains(k));
    }
}

/// Finds a key in an increasing list, or the index at which it belongs.
fn locate<K: Key>(items: &Vec<K>, k: &K) -> (r: (bool, usize))
    requires
        increasing::<K>(views(items@)),
    ensures
        r.1 <= items@.len(),
        r.0 ==> r.1 < items@.len() && items@[r.1 as int]@ == k@,
        !r.0 ==> forall|i: int| 0 <= i < r.1 ==> K::lt(#[trigger] views(items@)[i], k@),
        !r.0 ==> forall|i: int|
            r.1 <= i < items@.len() ==> K::lt(k@, #[trigger] views(items@)[i]),
        r.0 == views(items@).contains(k@),
{
    let ghost v = views(items@);
    let mut lo: usize = 0;
    let mut hi: usize = items.len();
    while lo < hi
        invariant
            v == views(items@),
            increasing::<K>(v),
            lo <= hi <= items@.len(),
            forall|i: int| 0 <= i < lo ==> K::lt(#[trigger] v[i], k@),
            forall|i: int| hi <= i < v.len() ==> K::lt(k@, #[trigger] v[i]),
        decreases hi - lo,
    {
        let mid = lo + (hi - lo) / 2;
        assert(v[mid as int] == items@[mid as int]@);
        match items[mid].compare(k) {
            Order::Less => {
                assert forall|i: int| 0 <= i < mid + 1 implies K::lt(#[trigger] v[i], k@) by {
                    if i < mid {
                        K::transitive(v[i], v[mid as int], k@);
                    }
                }
                lo = mid + 1;
            },
            Order::Equal => {
                assert(v.contains(k@));
                return (true, mid);
            },
            Order::Greater => {
                assert forall|i: int| mid <= i < v.len() implies K::lt(k@, #[trigger] v[i]) by {
                    if i > mid {
                        K::transitive(k@, v[mid as int], v[i]);
                    }
                }
                hi = mid;
            },
        }
    }
    assert(!v.contains(k@)) by {
        lemma_insert_slot::<K>(v, lo as int, k@);
    }
    (false, lo)
}

/// A set of keys, kept in order.
pub struct SortedSet<K: Key> {
    items: Vec<K>,
}

impl<K: Key> View for SortedSet<K> {
    type V = Set<K::V>;

    closed spec fn view(&self) -> Set<K::V> {
        views(self.items@).to_set()
    }
}

impl<K: Key> SortedSet<K> {
    #[verifier::type_invariant]
    spec fn inv(self) -> bool {
        increasing::<K>(views(self.items@))
    }

    /// A set without keys.
    pub fn new() -> (r: Self)
        ensures
            r@ == Set::<K::V>::empty(),
    {
        let r = SortedSet { items: Vec::new() };
        assert(r@ =~= Set::<K::V>::empty());
        r
    }

    /// How many keys there are.
    pub fn len(&self) -> (n: usize)
        ensures
            n == self@.len(),
            n == ordered::<K>(self@).len(),
            self@.finite(),
    {
        proof {
            use_type_invariant(self);
            lemma_ordered_is::<K>(views(self.items@));
        }
        self.items.len()
    }

    /// Whether there is no key.
    pub fn is_empty(&self) -> (r: bool)
        ensures
            r == (self@ == Set::<K::V>::empty()),
            self@.finite(),
    {
        proof {
            use_type_invariant(self);
            lemma_ordered_is::<K>(views(self.items@));
            if self.items@.len() > 0 {
                assert(self@.contains(views(self.items@)[0]));
            } else {
                assert(self@ =~= Set::<K::V>::empty());
            }
        }
        self.items.len() == 0
    }

    /// The key at an index, in order.
    pub fn at(&self, i: usize) -> (k: &K)
        requires
            i < ordered::<K>(self@).len(),
        ensures
            k@ == ordered::<K>(self@)[i as int],
            self@.contains(k@),
    {
        proof {
            use_type_invariant(self);
            lemma_ordered_is::<K>(views(self.items@));
            assert(views(self.items@).contains(views(self.items@)[i as int]));
        }
        &self.items[i]
    }

    /// Whether a key is in the set.
    pub fn contains(&self, k: &K) -> (r: bool)
        ensures
            r == self@.contains(k@),
    {
        proof {
            use_type_invariant(self);
        }
        locate(&self.items, k).0
    }

    /// Adds a key; true when it was not there yet.
    pub fn insert(&mut self, k: K) -> (r: bool)
        ensures
            final(self)@ == old(self)@.insert(k@),
            r == !old(self)@.contains(k@),
    {
        proof {
            use_type_invariant(&*self);
        }
        let (found, at) = locate(&self.items, &k);
        if found {
            assert(self@ =~= self@.insert(k@));
            return false;
        }
        let mut items: Vec<K> = Vec::new();
        std::mem::swap(&mut items, &mut self.items);
        let ghost before = views(items@);
        let ghost kv = k@;
        proof {
            lemma_insert_slot::<K>(before, at as int, kv);
        }
        items.insert(at, k);
        assert(views(items@) =~= before.insert(at as int, kv));
        self.items = items;
        true
    }

    /// Removes a key; true when it was there.
    pub fn remove(&mut self, k: &K) -> (r: bool)
        ensures
            final(self)@ == old(self)@.remove(k@),
            r == old(self)@.contains(k@),
    {
        proof {
            use_type_invariant(&*self);
        }
        let (found, at) = locate(&self.items, k);
        if !found {
            assert(self@ =~= self@.remove(k@));
            return false;
        }
        let mut items: Vec<K> = Vec::new();
        std::mem::swap(&mut items, &mut self.items);
        let ghost before = views(items@);
        proof {
            lemma_remove_slot::<K>(before, at as int);
        }
        items.remove(at);
        assert(views(items@) =~= before.remove(at as int));
        self.items = items;
        true
    }

    /// Whether two sets hold the same keys.
    pub fn equals(&self, other: &Self) -> (r: bool)
        ensures
            r == (self@ == other@),
    {
        proof {
            use_type_invariant(self);
            use_type_invariant(other);
            lemma_ordered_is::<K>(views(self.items@));
            lemma_ordered_is::<K>(views(other.items@));
        }
        let ghost a = views(self.items@);
        let ghost b = views(other.items@);
        if self.items.len() != other.items.len() {
            return false;
        }
        let mut i: usize = 0;
        while i < self.items.len()
            invariant
                i <= self.items@.len(),
                self.items@.len() == other.items@.len(),
                a == views(self.items@),
                b == views(other.items@),
                ordered::<K>(self@) == a,
                ordered::<K>(other@) == b,
                forall|j: int| 0 <= j < i ==> a[j] == b[j],
            decreases self.items@.len() - i,
        {
            proof {
                assert(a[i as int] == self.items@[i as int]@);
                assert(b[i as int] == other.items@[i as int]@);
            }
            match self.items[i].compare(&other.items[i]) {
                Order::Equal => {},
                Order::Less => {
                    proof {
                        K::irreflexive(a[i as int]);
                    }
                    return false;
                },
                Order::Greater => {
                    proof {
                        K::irreflexive(a[i as int]);
                    }
                    return false;
                },
            }
            i = i + 1;
        }
        assert(a =~= b);
        true
    }
}

impl<K: Key + Duplicate> SortedSet<K> {
    /// The set of the keys in a list.
    pub fn from_list(v: &Vec<K>) -> (r: Self)
        ensures
            r@ == views(v@).to_set(),
    {
        let mut r = SortedSet::new();
        let mut i: usize = 0;
        assert(views(v@).take(0).to_set() =~= Set::<K::V>::empty());
        while i < v.len()
            invariant
                i <= v@.len(),
                r@ == views(v@).take(i as int).to_set(),
            decreases v@.len() - i,
        {
            let k = v[i].duplicate();
            r.insert(k);
            proof {
                lemma_take_set(views(v@), i as int);
            }
            i = i + 1;
        }
        assert(views(v@).take(v@.len() as int) =~= views(v@));
        r
    }

    /// The keys in order.
    pub fn to_list(&self) -> (r: Vec<K>)
        ensures
            views(r@) == ordered::<K>(self@),
            self@.finite(),
    {
        proof {
            use_type_invariant(self);
            lemma_ordered_is::<K>(views(self.items@));
        }
        crate::order::duplicate_list(&self.items)
    }

    /// The keys that another set does not hold.
    pub fn minus(&self, other: &Self) -> (r: Self)
        ensures
            r@ == self@.difference(other@),
            self@.finite(),
            other@.finite(),
    {
        let mut r = SortedSet::new();
        let n = self.len();
        let _ = other.len();
        let ghost q = ordered::<K>(self@);
        proof {
            lemma_ordered::<K>(self@);
            assert(q.take(0).to_set().difference(other@) =~= Set::<K::V>::empty());
        }
        let mut i: usize = 0;
        while i < n
            invariant
                i <= n,
                n == q.len(),
                q == ordered::<K>(self@),
                r@ == q.take(i as int).to_set().difference(other@),
            decreases n - i,
        {
            let k = self.at(i);
            proof {
                lemma_take_set(q, i as int);
            }
            if !other.contains(k) {
                r.insert(k.duplicate());
            }
            proof {
                assert(r@ =~= q.take(i + 1).to_set().difference(other@));
            }
            i = i + 1;
        }
        assert(q.take(n as int) =~= q);
        r
    }

    /// The keys that another set holds too.
    pub fn common(&self, other: &Self) -> (r: Self)
        ensures
            r@ == self@.intersect(other@),
            self@.finite(),
            other@.finite(),
    {
        let rest = self.minus(other);
        let r = self.minus(&rest);
        assert(r@ =~= self@.intersect(other@));
        r
    }

    /// Adds every key of another set.
    pub fn absorb(&mut self, other: &Self)
        ensures
            final(self)@ == old(self)@.union(other@),
            other@.finite(),
    {
        let n = other.len();
        let ghost was = self@;
        let ghost q = ordered::<K>(other@);
        proof {
            lemma_ordered::<K>(other@);
            assert(was.union(q.take(0).to_set()) =~= was);
        }
        let mut i: usize = 0;
        while i < n
            invariant
                i <= n,
                n == q.len(),
                q == ordered::<K>(other@),
                self@ == was.union(q.take(i as int).to_set()),
            decreases n - i,
        {
            let k = other.at(i).duplicate();
            self.insert(k);
            proof {
                lemma_take_set(q, i as int);
                assert(self@ =~= was.union(q.take(i + 1).to_set()));
            }
            i = i + 1;
        }
        assert(q.take(n as int) =~= q);
    }

    /// Takes out every key of another set.
    pub fn drop_all(&mut self, other: &Self)
        ensures
            final(self)@ == old(self)@.difference(other@),
            other@.finite(),
    {
        let n = other.len();
        let ghost was = self@;
        let ghost q = ordered::<K>(other@);
        proof {
            lemma_ordered::<K>(other@);
            assert(was.difference(q.take(0).to_set()) =~= was);
        }
        let mut i: usize = 0;
        while i < n
            invariant
                i <= n,
                n == q.len(),
                q == ordered::<K>(other@),
                self@ == was.difference(q.take(i as int).to_set()),
            decreases n - i,
        {
            self.remove(other.at(i));
            proof {
                lemma_take_set(q, i as int);
                assert(self@ =~= was.difference(q.take(i + 1).to_set()));
            }
            i = i + 1;
        }
        assert(q.take(n as int) =~= q);
    }
}

/// The set of the first keys of a sequence grows by the next one.
pub proof fn lemma_take_set<A>(s: Seq<A>, i: int)
    requires
        0 <= i < s.len(),
    ensures
        s.take(i + 1).to_set() == s.take(i).to_set().insert(s[i]),
{
    let a = s.take(i + 1);
    let b = s.take(i);
    assert forall|v: A| a.to_set().contains(v) <==> b.to_set().insert(s[i]).contains(v) by {
        if a.contains(v) {
            let j = choose|j: int| 0 <= j < a.len() && a[j] == v;
            if j < i {
                assert(b[j] == v);
            }
        }
        if b.contains(v) {
            let j = choose|j: int| 0 <= j < b.len() && b[j] == v;
            assert(a[j] == v);
        }
        assert(a[i] == s[i]);
    }
    assert(a.to_set() =~= b.to_set().insert(s[i]));
}

impl<K: Key + Duplicate> Duplicate for SortedSet<K> {
    fn duplicate(&self) -> (r: Self) {
        proof {
            use_type_invariant(self);
        }
        SortedSet { items: crate::order::duplicate_list(&self.items) }
    }
}

impl SortedSet<String> {
    /// Whether a string is in the set.
    pub fn has(&self, s: &str) -> (r: bool)
        ensures
            r == self@.contains(s@),
    {
        let k = s.to_owned();
        self.contains(&k)
    }
}

/// The index of a key in a sequence that holds it.
pub open spec fn index_in<A>(s: Seq<A>, k: A) -> int {
    choose|i: int| 0 <= i < s.len() && s[i] == k
}

/// A map from keys to values, kept in key order.
pub struct SortedMap<K: Key, V: View> {
    keys: Vec<K>,
    vals: Vec<V>,
}

/// The map of two parallel sequences.
pub open spec fn zip_map<A, B>(keys: Seq<A>, vals: Seq<B>) -> Map<A, B> {
    Map::new(|k: A| keys.contains(k), |k: A| vals[index_in(keys, k)])
}

impl<K: Key, V: View> View for SortedMap<K, V> {
    type V = Map<K::V, V::V>;

    closed spec fn view(&self) -> Map<K::V, V::V> {
        zip_map(views(self.keys@), views(self.vals@))
    }
}

proof fn lemma_zip<K: Key, B>(keys: Seq<K::V>, vals: Seq<B>)
    requires
        increasing::<K>(keys),
        keys.len() == vals.len(),
    ensures
        zip_map(keys, vals).dom() == keys.to_set(),
        ordered::<K>(zip_map(keys, vals).dom()) == keys,
        zip_map(keys, vals).dom().finite(),
        zip_map(keys, vals).dom().len() == keys.len(),
        forall|i: int|
            0 <= i < keys.len() ==> zip_map(keys, vals).dom().contains(#[trigger] keys[i])
                && zip_map(keys, vals)[keys[i]] == vals[i],
{
    lemma_increasing_distinct::<K>(keys);
    lemma_ordered_is::<K>(keys);
    assert(zip_map(keys, vals).dom() =~= keys.to_set());
    assert forall|i: int| 0 <= i < keys.len() implies zip_map(keys, vals).dom().contains(
        #[trigger] keys[i],
    ) && zip_map(keys, vals)[keys[i]] == vals[i] by {
        assert(keys.contains(keys[i]));
        let j = index_in(keys, keys[i]);
        assert(0 <= i < keys.len() && keys[i] == keys[i]);
        assert(0 <= j < keys.len() && keys[j] == keys[i]);
    }
}

impl<K: Key, V: View> SortedMap<K, V> {
    #[verifier::type_invariant]
    spec fn inv(self) -> bool {
        &&& self.keys@.len() == self.vals@.len()
        &&& increasing::<K>(views(self.keys@))
    }

    /// A map without entries.
    pub fn new() -> (r: Self)
        ensures
            r@ == Map::<K::V, V::V>::empty(),
    {
        let r = SortedMap { keys: Vec::new(), vals: Vec::new() };
        assert(r@ =~= Map::<K::V, V::V>::empty());
        r
    }

    /// How many entries there are.
    pub fn len(&self) -> (n: usize)
        ensures
            n == self@.dom().len(),
            n == ordered::<K>(self@.dom()).len(),
            self@.dom().finite(),
    {
        proof {
            use_type_invariant(self);
            lemma_zip::<K, V::V>(views(self.keys@), views(self.vals@));
        }
        self.keys.len()
    }

    /// The key of the entry at an index, in key order.
    pub fn key_at(&self, i: usize) -> (k: &K)
        requires
            i < ordered::<K>(self@.dom()).len(),
        ensures
            k@ == ordered::<K>(self@.dom())[i as int],
            self@.dom().contains(k@),
    {
        proof {
            use_type_invariant(self);
            lemma_zip::<K, V::V>(views(self.keys@), views(self.vals@));
            assert(views(self.keys@)[i as int] == self.keys@[i as int]@);
        }
        &self.keys[i]
    }

    /// The value of the entry at an index, in key order.
    pub fn value_at(&self, i: usize) -> (v: &V)
        requires
            i < ordered::<K>(self@.dom()).len(),
        ensures
            v@ == self@[ordered::<K>(self@.dom())[i as int]],
    {
        proof {
            use_type_invariant(self);
            lemma_zip::<K, V::V>(views(self.keys@), views(self.vals@));
            assert(views(self.keys@)[i as int] == self.keys@[i as int]@);
        }
        &self.vals[i]
    }

    /// Whether a key has an entry.
    pub fn contains_key(&self, k: &K) -> (r: bool)
        ensures
            r == self@.dom().contains(k@),
    {
        proof {
            use_type_invariant(self);
        }
        locate(&self.keys, k).0
    }

    /// The value of a key.
    pub fn get(&self, k: &K) -> (r: Option<&V>)
        ensures
            match r {
                Some(v) => self@.dom().contains(k@) && v@ == self@[k@],
                None => !self@.dom().contains(k@),
            },
    {
        proof {
            use_type_invariant(self);
            lemma_zip::<K, V::V>(views(self.keys@), views(self.vals@));
        }
        let (found, at) = locate(&self.keys, k);
        if found {
            assert(views(self.keys@)[at as int] == k@);
            Some(&self.vals[at])
        } else {
            None
        }
    }

    /// Gives a key a value; the value it had comes back.
    pub fn insert(&mut self, k: K, v: V) -> (r: Option<V>)
        ensures
            final(self)@ == old(self)@.insert(k@, v@),
            match r {
                Some(w) => old(self)@.dom().contains(k@) && w@ == old(self)@[k@],
                None => !old(self)@.dom().contains(k@),
            },
    {
        proof {
            use_type_invariant(&*self);
        }
        let ghost ks = views(self.keys@);
        let ghost vs = views(self.vals@);
        let ghost kv = k@;
        let ghost vv = v@;
        proof {
            lemma_zip::<K, V::V>(ks, vs);
        }
        let (found, at) = locate(&self.keys, &k);
        let mut whole = SortedMap::new();
        std::mem::swap(&mut whole, self);
        let SortedMap { mut keys, mut vals } = whole;
        if found {
            assert(ks[at as int] == kv);
            let mut w = v;
            std::mem::swap(&mut vals[at], &mut w);
            proof {
                assert(views(vals@) =~= vs.update(at as int, vv));
                lemma_zip::<K, V::V>(ks, views(vals@));
                lemma_zip_update::<K, V::V>(ks, vs, at as int, vv);
            }
            *self = SortedMap { keys, vals };
            Some(w)
        } else {
            proof {
                lemma_insert_slot::<K>(ks, at as int, kv);
                lemma_zip_insert::<K, V::V>(ks, vs, at as int, kv, vv);
            }
            keys.insert(at, k);
            vals.insert(at, v);
            proof {
                assert(views(keys@) =~= ks.insert(at as int, kv));
                assert(views(vals@) =~= vs.insert(at as int, vv));
            }
            *self = SortedMap { keys, vals };
            None
        }
    }

    /// Drops the entry of a key; its value comes back.
    pub fn remove(&mut self, k: &K) -> (r: Option<V>)
        ensures
            final(self)@ == old(self)@.remove(k@),
            match r {
                Some(w) => old(self)@.dom().contains(k@) && w@ == old(self)@[k@],
                None => !old(self)@.dom().contains(k@),
            },
    {
        proof {
            use_type_invariant(&*self);
        }
        let ghost ks = views(self.keys@);
        let ghost vs = views(self.vals@);
        proof {
            lemma_zip::<K, V::V>(ks, vs);
        }
        let (found, at) = locate(&self.keys, k);
        if !found {
            assert(self@ =~= self@.remove(k@));
            return None;
        }
        let mut whole = SortedMap::new();
        std::mem::swap(&mut whole, self);
        let SortedMap { mut keys, mut vals } = whole;
        proof {
            assert(ks[at as int] == k@);
            lemma_remove_slot::<K>(ks, at as int);
            lemma_zip_remove::<K, V::V>(ks, vs, at as int);
        }
        keys.remove(at);
        let w = vals.remove(at);
        proof {
            assert(views(keys@) =~= ks.remove(at as int));
            assert(views(vals@) =~= vs.remove(at as int));
            assert(w@ == vs[at as int]);
        }
        *self = SortedMap { keys, vals };
        Some(w)
    }
}

proof fn lemma_zip_update<K: Key, B>(ks: Seq<K::V>, vs: Seq<B>, n: int, v: B)
    requires
        increasing::<K>(ks),
        ks.len() == vs.len(),
        0 <= n < ks.len(),
    ensures
        zip_map(ks, vs.update(n, v)) == zip_map(ks, vs).insert(ks[n], v),
{
    lemma_zip::<K, B>(ks, vs);
    lemma_zip::<K, B>(ks, vs.update(n, v));
    lemma_increasing_distinct::<K>(ks);
    let a = zip_map(ks, vs.update(n, v));
    let b = zip_map(ks, vs).insert(ks[n], v);
    assert(a.dom() =~= b.dom());
    assert forall|k: K::V| a.dom().contains(k) implies a[k] == b[k] by {
        let i = choose|i: int| 0 <= i < ks.len() && ks[i] == k;
        assert(a[ks[i]] == vs.update(n, v)[i]);
    }
    assert(a =~= b);
}

proof fn lemma_zip_insert<K: Key, B>(ks: Seq<K::V>, vs: Seq<B>, n: int, k: K::V, v: B)
    requires
        increasing::<K>(ks),
        increasing::<K>(ks.insert(n, k)),
        ks.len() == vs.len(),
        0 <= n <= ks.len(),
        ks.insert(n, k).to_set() == ks.to_set().insert(k),
        !ks.contains(k),
    ensures
        zip_map(ks.insert(n, k), vs.insert(n, v)) == zip_map(ks, vs).insert(k, v),
{
    let ks2 = ks.insert(n, k);
    let vs2 = vs.insert(n, v);
    lemma_zip::<K, B>(ks, vs);
    lemma_zip::<K, B>(ks2, vs2);
    let a = zip_map(ks2, vs2);
    let b = zip_map(ks, vs).insert(k, v);
    assert(a.dom() =~= b.dom());
    assert forall|x: K::V| a.dom().contains(x) implies a[x] == b[x] by {
        assert(ks2.contains(x));
        let i = choose|i: int| 0 <= i < ks2.len() && ks2[i] == x;
        assert(a[ks2[i]] == vs2[i]);
        if i < n {
            assert(ks[i] == x);
            assert(ks.contains(x));
        } else if i > n {
            assert(ks[i - 1] == x);
            assert(ks.contains(x));
        }
    }
    assert(a =~= b);
}

proof fn lemma_zip_remove<K: Key, B>(ks: Seq<K::V>, vs: Seq<B>, n: int)
    requires
        increasing::<K>(ks),
        increasing::<K>(ks.remove(n)),
        ks.len() == vs.len(),
        0 <= n < ks.len(),
        ks.remove(n).to_set() == ks.to_set().remove(ks[n]),
    ensures
        zip_map(ks.remove(n), vs.remove(n)) == zip_map(ks, vs).remove(ks[n]),
{
    let ks2 = ks.remove(n);
    let vs2 = vs.remove(n);
    lemma_zip::<K, B>(ks, vs);
    lemma_zip::<K, B>(ks2, vs2);
    let a = zip_map(ks2, vs2);
    let b = zip_map(ks, vs).remove(ks[n]);
    assert(a.dom() =~= b.dom());
    assert forall|x: K::V| a.dom().contains(x) implies a[x] == b[x] by {
        assert(ks2.contains(x));
        let i = choose|i: int| 0 <= i < ks2.len() && ks2[i] == x;
        assert(a[ks2[i]] == vs2[i]);
        if i < n {
            assert(ks[i] == x);
        } else {
            assert(ks[i + 1] == x);
        }
    }
    assert(a =~= b);
}

impl<K: Key + Duplicate, V: Duplicate> Duplicate for SortedMap<K, V> {
    fn duplicate(&self) -> (r: Self) {
        proof {
            use_type_invariant(self);
        }
        let keys = crate::order::duplicate_list(&self.keys);
        let vals = crate::order::duplicate_list(&self.vals);
        proof {
            assert(views(keys@).len() == keys@.len());
            assert(views(vals@).len() == vals@.len());
            assert(views(self.keys@).len() == self.keys@.len());
            assert(views(self.vals@).len() == self.vals@.len());
        }
        SortedMap { keys, vals }
    }
}

impl<K: Key + Duplicate, V: View> SortedMap<K, V> {
    /// The keys in order.
    pub fn key_list(&self) -> (r: Vec<K>)
        ensures
            views(r@) == ordered::<K>(self@.dom()),
            self@.dom().finite(),
    {
        proof {
            use_type_invariant(self);
            lemma_zip::<K, V::V>(views(self.keys@), views(self.vals@));
        }
        crate::order::duplicate_list(&self.keys)
    }
}

impl<K: Key + Duplicate, V: View + Duplicate> SortedMap<K, V> {
    /// Takes over every entry of another map.
    pub fn extend_from(&mut self, other: &Self)
        ensures
            final(self)@ == old(self)@.union_prefer_right(other@),
            other@.dom().finite(),
    {
        let n = other.len();
        let ghost was = self@;
        let ghost q = ordered::<K>(other@.dom());
        proof {
            lemma_ordered::<K>(other@.dom());
            assert(was.union_prefer_right(other@.restrict(q.take(0).to_set())) =~= was);
        }
        let mut i: usize = 0;
        while i < n
            invariant
                i <= n,
                n == q.len(),
                q == ordered::<K>(other@.dom()),
                q.to_set() == other@.dom(),
                self@ == was.union_prefer_right(other@.restrict(q.take(i as int).to_set())),
            decreases n - i,
        {
            let k = other.key_at(i).duplicate();
            let v = other.value_at(i).duplicate();
            self.insert(k, v);
            proof {
                lemma_take_set(q, i as int);
                assert(self@ =~= was.union_prefer_right(
                    other@.restrict(q.take(i + 1).to_set()),
                ));
            }
            i = i + 1;
        }
        assert(q.take(n as int) =~= q);
        assert(other@.restrict(other@.dom()) =~= other@);
    }
}

impl<V: View> SortedMap<String, V> {
    /// The value of a string key.
    pub fn find(&self, k: &str) -> (r: Option<&V>)
        ensures
            match r {
                Some(v) => self@.dom().contains(k@) && v@ == self@[k@],
                None => !self@.dom().contains(k@),
            },
    {
        let key = k.to_owned();
        self.get(&key)
    }
}

} // verus!
