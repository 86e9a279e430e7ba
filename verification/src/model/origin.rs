//! Port identities: `category/name[@flavor]`.
use vstd::prelude::*;

use crate::order::{compare_text, lex, lex_irreflexive, lex_total, lex_transitive};
use crate::order::{duplicate_opt, Duplicate, Key, Order};
use crate::text::{cut, first, lemma_first, lemma_first_is};
use crate::text::{lemma_lead_is, lemma_tail_end, lemma_tail_end_is, lemma_trim_clean, opt_view};
use crate::text::{owned, pieces};
use crate::text::{space, split, split_once, strip, tail_end, to_chars, trim, trim_start, views};
use crate::text::Str;

verus! {

/// A port identified by its origin and optional flavor: `category/name[@flavor]`.
#[derive(Debug, PartialEq, Eq, Hash, PartialOrd, Ord)]
pub struct PortKey {
    pub origin: String,
    pub flavor: Option<String>,
}

/// The mathematical view of a port key.
#[verifier::ext_equal]
pub struct KeyView {
    pub origin: Str,
    pub flavor: Option<Str>,
}

impl View for PortKey {
    type V = KeyView;

    open spec fn view(&self) -> KeyView {
        KeyView { origin: self.origin@, flavor: opt_view(self.flavor) }
    }
}

/// Whether a character may stand in a category.
pub open spec fn category_char(c: char) -> bool {
    'a' <= c <= 'z' || '0' <= c <= '9' || c == '-' || c == '_'
}

/// Whether a character may stand in a port name.
pub open spec fn name_char(c: char) -> bool {
    'a' <= c <= 'z' || 'A' <= c <= 'Z' || '0' <= c <= '9' || c == '.' || c == '_' || c == '+' || c
        == '-'
}

/// Whether a text is a `category/name` port origin.
pub open spec fn is_origin(s: Str) -> bool {
    let p = pieces(s, '/');
    &&& p.len() == 2
    &&& p[0].len() > 0
    &&& p[1].len() > 0
    &&& forall|i: int| 0 <= i < p[0].len() ==> category_char(#[trigger] p[0][i])
    &&& forall|i: int| 0 <= i < p[1].len() ==> name_char(#[trigger] p[1][i])
}

/// The key that a text stands for: white space around it is dropped, the first
/// `@` separates the flavor, and an empty flavor is none.
pub open spec fn key_of(s: Str) -> Option<KeyView> {
    let t = trim(s);
    let (origin, flavor) = match cut(t, '@') {
        Some((o, f)) => (o, if f.len() > 0 {
            Some(f)
        } else {
            None
        }),
        None => (t, None),
    };
    if is_origin(origin) {
        Some(KeyView { origin, flavor })
    } else {
        None
    }
}

/// The text of a key.
pub open spec fn key_text(k: KeyView) -> Str {
    match k.flavor {
        Some(f) => k.origin + "@"@ + f,
        None => k.origin,
    }
}

/// The order of keys: by origin, then by flavor with no flavor first.
pub open spec fn key_before(a: KeyView, b: KeyView) -> bool {
    lex(a.origin, b.origin) || (a.origin == b.origin && match (a.flavor, b.flavor) {
        (None, Some(g)) => true,
        (Some(f), Some(g)) => lex(f, g),
        _ => false,
    })
}

fn all_category(cs: &Vec<char>) -> (r: bool)
    ensures
        r == forall|i: int| 0 <= i < cs@.len() ==> category_char(#[trigger] cs@[i]),
{
    let mut i: usize = 0;
    while i < cs.len()
        invariant
            i <= cs@.len(),
            forall|j: int| 0 <= j < i ==> category_char(#[trigger] cs@[j]),
        decreases cs@.len() - i,
    {
        let c = cs[i];
        if !(('a' <= c && c <= 'z') || ('0' <= c && c <= '9') || c == '-' || c == '_') {
            assert(!category_char(cs@[i as int]));
            return false;
        }
        i = i + 1;
    }
    true
}

fn all_name(cs: &Vec<char>) -> (r: bool)
    ensures
        r == forall|i: int| 0 <= i < cs@.len() ==> name_char(#[trigger] cs@[i]),
{
    let mut i: usize = 0;
    while i < cs.len()
        invariant
            i <= cs@.len(),
            forall|j: int| 0 <= j < i ==> name_char(#[trigger] cs@[j]),
        decreases cs@.len() - i,
    {
        let c = cs[i];
        if !(('a' <= c && c <= 'z') || ('A' <= c && c <= 'Z') || ('0' <= c && c <= '9') || c == '.'
            || c == '_' || c == '+' || c == '-') {
            assert(!name_char(cs@[i as int]));
            return false;
        }
        i = i + 1;
    }
    true
}

/// Validate a `category/name` port origin (no flavor suffix).
pub fn valid_origin(s: &str) -> (r: bool)
    ensures
        r == is_origin(s@),
{
    let p = split(s, '/');
    proof {
        assert(views(p@).len() == p@.len());
    }
    if p.len() != 2 {
        return false;
    }
    let a = to_chars(p[0].as_str());
    let b = to_chars(p[1].as_str());
    proof {
        assert(views(p@)[0] == a@);
        assert(views(p@)[1] == b@);
    }
    a.len() > 0 && b.len() > 0 && all_category(&a) && all_name(&b)
}

impl PortKey {
    /// A key from its parts.
    pub fn new(origin: String, flavor: Option<String>) -> (r: Self)
        ensures
            r.origin == origin,
            r.flavor == flavor,
    {
        PortKey { origin, flavor }
    }

    /// Parse `category/name[@flavor]`. Returns None on malformed input.
    pub fn parse(s: &str) -> (r: Option<Self>)
        ensures
            opt_view(r) == key_of(s@),
    {
        let t = strip(s);
        let (origin, flavor) = match split_once(t.as_str(), '@') {
            Some((o, f)) => {
                if f.as_str().is_empty() {
                    (o, None)
                } else {
                    (o, Some(f))
                }
            },
            None => (t, None),
        };
        if !valid_origin(origin.as_str()) {
            return None;
        }
        Some(PortKey { origin, flavor })
    }

    /// The same flavor of another origin.
    pub fn with_origin(&self, origin: &str) -> (r: Self)
        ensures
            r@ == (KeyView { origin: origin@, flavor: self@.flavor }),
    {
        PortKey { origin: owned(origin), flavor: duplicate_opt(&self.flavor) }
    }

    /// `category/name[@flavor]`.
    pub fn to_string(&self) -> (r: String)
        ensures
            r@ == key_text(self@),
    {
        let mut r = self.origin.clone();
        match &self.flavor {
            Some(f) => {
                r.append("@");
                r.append(f.as_str());
            },
            None => {},
        }
        r
    }

    /// Whether two keys are the same.
    pub fn equals(&self, other: &Self) -> (r: bool)
        ensures
            r == (self@ == other@),
    {
        let o = self.compare(other);
        proof {
            Self::irreflexive(self@);
        }
        match o {
            Order::Equal => true,
            _ => false,
        }
    }
}

impl Key for PortKey {
    open spec fn lt(a: KeyView, b: KeyView) -> bool {
        key_before(a, b)
    }

    proof fn irreflexive(a: KeyView) {
        lex_irreflexive(a.origin);
        if let Some(f) = a.flavor {
            lex_irreflexive(f);
        }
    }

    proof fn transitive(a: KeyView, b: KeyView, c: KeyView) {
        if lex(a.origin, b.origin) && lex(b.origin, c.origin) {
            lex_transitive(a.origin, b.origin, c.origin);
        }
        match (a.flavor, b.flavor, c.flavor) {
            (Some(f), Some(g), Some(h)) => {
                if lex(f, g) && lex(g, h) {
                    lex_transitive(f, g, h);
                }
            },
            _ => {},
        }
    }

    proof fn total(a: KeyView, b: KeyView) {
        lex_total(a.origin, b.origin);
        match (a.flavor, b.flavor) {
            (Some(f), Some(g)) => {
                lex_total(f, g);
            },
            _ => {},
        }
    }

    fn compare(&self, other: &Self) -> (r: Order) {
        match compare_text(self.origin.as_str(), other.origin.as_str()) {
            Order::Less => Order::Less,
            Order::Greater => Order::Greater,
            Order::Equal => match (&self.flavor, &other.flavor) {
                (None, None) => Order::Equal,
                (None, Some(_)) => Order::Less,
                (Some(_), None) => Order::Greater,
                (Some(f), Some(g)) => compare_text(f.as_str(), g.as_str()),
            },
        }
    }
}

impl Duplicate for PortKey {
    fn duplicate(&self) -> (r: Self) {
        PortKey { origin: self.origin.clone(), flavor: duplicate_opt(&self.flavor) }
    }
}

impl Clone for PortKey {
    fn clone(&self) -> (r: Self)
        ensures
            r@ == self@,
    {
        self.duplicate()
    }
}

/// An origin holds no `@` and neither begins with nor ends in white space.
proof fn lemma_origin_chars(s: Str)
    requires
        is_origin(s),
    ensures
        s.len() > 0,
        forall|i: int| 0 <= i < s.len() ==> #[trigger] s[i] != '@' && !space(s[i]),
{
    lemma_first(s, '/');
    let n = first(s, '/');
    let p = pieces(s, '/');
    if n < s.len() {
        let rest = s.skip(n + 1);
        lemma_first(rest, '/');
        let q = pieces(rest, '/');
        assert(p[0] == s.take(n));
        assert(p[1] == q[0]);
        assert(p.len() == 1 + q.len());
        if first(rest, '/') < rest.len() {
            assert(q.len() == 1 + pieces(rest.skip(first(rest, '/') + 1), '/').len());
            lemma_pieces_nonempty(rest.skip(first(rest, '/') + 1), '/');
        }
        assert(q[0] == rest);
        assert forall|i: int| 0 <= i < s.len() implies #[trigger] s[i] != '@' && !space(s[i]) by {
            if i < n {
                assert(p[0][i] == s[i]);
            } else if i > n {
                assert(p[1][i - n - 1] == s[i]);
            }
        }
    } else {
        assert(p.len() == 1);
    }
}

proof fn lemma_pieces_nonempty(s: Str, c: char)
    ensures
        pieces(s, c).len() > 0,
{
}

/// A key that parsing gives is what parsing its text gives: the text of a key
/// identifies it.
pub proof fn law_key_text_round_trip(s: Str)
    requires
        key_of(s) is Some,
    ensures
        key_of(key_text(key_of(s)->0)) == key_of(s),
{
    let t = trim(s);
    let k = key_of(s)->0;
    lemma_first(t, '@');
    lemma_origin_chars(k.origin);
    let x = key_text(k);
    let u = trim_start(s);
    lemma_tail_end(u);
    match k.flavor {
        Some(f) => {
            reveal_strlit("@");
            assert("@"@ =~= seq!['@']);
            let n = k.origin.len() as int;
            assert(x[n] == '@');
            assert(x[0] == k.origin[0]);
            lemma_lead_is(x, 0);
            assert(trim_start(x) =~= x);
            assert(x.last() == f.last());
            assert(f =~= t.skip(first(t, '@') + 1));
            assert(t.last() == f.last());
            assert(!space(t.last())) by {
                assert(t == u.take(tail_end(u) as int));
            }
            lemma_tail_end_is(x, x.len() as int);
            assert(trim(x) =~= x);
            lemma_first_is(x, '@', n);
            assert(x.take(n) =~= k.origin);
            assert(x.skip(n + 1) =~= f);
        },
        None => {
            lemma_lead_is(x, 0);
            assert(trim_start(x) =~= x);
            lemma_tail_end_is(x, x.len() as int);
            assert(trim(x) =~= x);
            lemma_first_is(x, '@', x.len() as int);
        },
    }
}

/// A category and a name make an origin, which with a flavor behind an `@` makes
/// a key: lower-case letters, digits, `-` and `_` make a category; letters,
/// digits, `.`, `_`, `+` and `-` make a name.
pub proof fn law_key_parses(category: Str, name: Str, flavor: Str)
    requires
        category.len() > 0,
        name.len() > 0,
        forall|i: int|
            0 <= i < category.len() ==> 'a' <= #[trigger] category[i] <= 'z' || '0' <= category[i]
                <= '9' || category[i] == '-' || category[i] == '_',
        forall|i: int|
            0 <= i < name.len() ==> 'a' <= #[trigger] name[i] <= 'z' || 'A' <= name[i] <= 'Z'
                || '0' <= name[i] <= '9' || name[i] == '.' || name[i] == '_' || name[i] == '+'
                || name[i] == '-',
    ensures
        key_of(category + "/"@ + name) == Some(
            KeyView { origin: category + "/"@ + name, flavor: None },
        ),
        flavor.len() > 0 && !space(flavor.last()) ==> key_of(
            category + "/"@ + name + "@"@ + flavor,
        ) == Some(KeyView { origin: category + "/"@ + name, flavor: Some(flavor) }),
        key_of(category + "/"@ + name + "@"@) == Some(
            KeyView { origin: category + "/"@ + name, flavor: None },
        ),
{
    reveal_strlit("/");
    reveal_strlit("@");
    let o = category + "/"@ + name;
    let n = category.len() as int;
    assert forall|i: int| 0 <= i < n implies #[trigger] o[i] != '/' by {
        assert(o[i] == category[i]);
    }
    lemma_first_is(o, '/', n);
    assert(o.take(n) =~= category);
    assert(o.skip(n + 1) =~= name);
    lemma_first_is(name, '/', name.len() as int);
    assert(pieces(name, '/') == seq![name]);
    assert(pieces(o, '/') =~= seq![category, name]);
    assert(is_origin(o));
    lemma_origin_chars(o);
    assert(!space(o[0]) && !space(o[o.len() - 1]));
    lemma_trim_clean(o);
    lemma_first_is(o, '@', o.len() as int);
    let m = o.len() as int;
    let x = o + "@"@;
    assert(x[0] == o[0] && x.last() == '@');
    lemma_trim_clean(x);
    assert forall|i: int| 0 <= i < m implies #[trigger] x[i] != '@' by {
        assert(x[i] == o[i]);
    }
    lemma_first_is(x, '@', m);
    assert(x.take(m) =~= o);
    assert(x.skip(m + 1) =~= Seq::<char>::empty());
    if flavor.len() > 0 && !space(flavor.last()) {
        let y = o + "@"@ + flavor;
        assert(y[0] == o[0] && y.last() == flavor.last());
        lemma_trim_clean(y);
        assert forall|i: int| 0 <= i < m implies #[trigger] y[i] != '@' by {
            assert(y[i] == o[i]);
        }
        lemma_first_is(y, '@', m);
        assert(y.take(m) =~= o);
        assert(y.skip(m + 1) =~= flavor);
    }
}

/// Whatever parses as a key has an origin of exactly two parts around one `/`,
/// neither of them empty, and no flavor that is empty; its text, up to white
/// space around it and an `@` without a flavor, is the text it was parsed from.
pub proof fn law_key_is(s: Str)
    requires
        key_of(s) is Some,
    ensures
        ({
            let k = key_of(s)->0;
            let n = first(k.origin, '/');
            &&& 0 < n < k.origin.len() - 1
            &&& k.origin[n] == '/'
            &&& forall|i: int|
                0 <= i < k.origin.len() && i != n ==> #[trigger] k.origin[i] != '/'
                    && k.origin[i] != '@' && !space(k.origin[i])
            &&& k.flavor matches Some(f) ==> f.len() > 0
            &&& trim(s) == key_text(k) || trim(s) == k.origin + "@"@
        }),
{
    reveal_strlit("@");
    let k = key_of(s)->0;
    let o = k.origin;
    let t = trim(s);
    lemma_origin_chars(o);
    lemma_first(o, '/');
    lemma_first(t, '@');
    let n = first(o, '/');
    let p = pieces(o, '/');
    if n < o.len() {
        let rest = o.skip(n + 1);
        lemma_first(rest, '/');
        let q = pieces(rest, '/');
        assert(p[0] == o.take(n));
        assert(p[1] == q[0]);
        assert(p.len() == 1 + q.len());
        if first(rest, '/') < rest.len() {
            assert(q.len() == 1 + pieces(rest.skip(first(rest, '/') + 1), '/').len());
            lemma_pieces_nonempty(rest.skip(first(rest, '/') + 1), '/');
        }
        assert(q[0] == rest);
        assert forall|i: int| 0 <= i < o.len() && i != n implies #[trigger] o[i] != '/' by {
            if i > n {
                assert(rest[i - n - 1] == o[i]);
            }
        }
    }
    if first(t, '@') < t.len() {
        let m = first(t, '@');
        assert(t =~= t.take(m) + "@"@ + t.skip(m + 1));
        if t.skip(m + 1).len() == 0 {
            assert(t =~= o + "@"@);
        }
    }
}

/// Keys are ordered by origin, then by flavor, and one without a flavor comes
/// before those of the same origin that have one.
pub proof fn law_key_order(a: KeyView, b: KeyView)
    ensures
        lex(a.origin, b.origin) ==> key_before(a, b),
        a.origin == b.origin && a.flavor is None && b.flavor is Some ==> key_before(a, b),
        a.origin == b.origin && a.flavor is Some && b.flavor is Some && lex(
            a.flavor->0,
            b.flavor->0,
        ) ==> key_before(a, b),
        key_before(a, b) ==> !key_before(b, a),
{
    lex_irreflexive(a.origin);
    lex_irreflexive(b.origin);
    if lex(a.origin, b.origin) && lex(b.origin, a.origin) {
        lex_transitive(a.origin, b.origin, a.origin);
    }
    if let (Some(f), Some(g)) = (a.flavor, b.flavor) {
        lex_irreflexive(f);
        if lex(f, g) && lex(g, f) {
            lex_transitive(f, g, f);
        }
    }
}

/// The text of a key: its origin, and behind an `@` its flavor where it has one.
pub proof fn law_key_text(k: KeyView)
    ensures
        k.flavor is None ==> key_text(k) == k.origin,
        k.flavor matches Some(f) ==> key_text(k) == k.origin + "@"@ + f,
{
}

} // verus!
