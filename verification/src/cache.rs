//! The query cache: hashes, generations, and the identity of a ports tree.
use sha2::{Digest, Sha256};
use vstd::prelude::*;
use vstd::utf8::encode_utf8;

use crate::list::{first_where, lemma_first_where_is, lemma_first_where_none, lemma_take_one};
use crate::list::lookup;
use crate::model::origin::{KeyView, PortKey};
use crate::model::port::{InfoView, PortInfo};
use crate::order::Duplicate;
use crate::path::{is_absolute, join_path, joined};
use crate::sorted::SortedMap;
use crate::text::{begins_with, cut, decimal, ends, ends_in, from_chars, glue, lines, number};
use crate::text::{opt_view, owned, same, split_lines, split_once, starts, strip, strip_prefix};
use crate::text::{law_ascii_space, law_cut, law_trim, lemma_trim_clean, space};
use crate::text::{to_chars, trim, views, Str};
use crate::world::{asked, dir_at, extends, settled, text_at, Facts, World};

verus! {

// ---------------------------------------------------------------------
// Hashes
// ---------------------------------------------------------------------

/// The SHA-256 hash of a message.
pub uninterp spec fn sha256(bytes: Seq<u8>) -> Seq<u8>;

/// `sha2::Sha256::digest`: the SHA-256 hash of the bytes, which depends on them
/// alone and is 32 bytes long.
#[verifier::external_body]
fn sha256_digest(bytes: &[u8]) -> (r: Vec<u8>)
    ensures
        r@ == sha256(bytes@),
        r@.len() == 32,
{
    Sha256::digest(bytes).to_vec()
}

/// The lower-case hexadecimal digit of a number below sixteen.
pub open spec fn hex_digit(d: nat) -> char {
    if d < 10 {
        (('0' as nat) + d) as char
    } else {
        (('a' as nat) + d - 10) as char
    }
}

/// Bytes in hexadecimal notation, two digits each.
pub open spec fn hex_text(bytes: Seq<u8>) -> Str
    decreases bytes.len(),
{
    if bytes.len() == 0 {
        Seq::empty()
    } else {
        hex_text(bytes.drop_last()).push(hex_digit((bytes.last() / 16) as nat)).push(
            hex_digit((bytes.last() % 16) as nat),
        )
    }
}

fn nibble(d: u8) -> (r: char)
    requires
        d < 16,
    ensures
        r == hex_digit(d as nat),
{
    if d < 10 {
        ('0' as u8 + d) as char
    } else {
        ('a' as u8 + (d - 10)) as char
    }
}

/// Bytes in hexadecimal notation.
pub fn hex(bytes: &Vec<u8>) -> (r: String)
    ensures
        r@ == hex_text(bytes@),
        r@.len() == 2 * bytes@.len(),
{
    let mut r = String::new();
    let mut i: usize = 0;
    assert(bytes@.take(0) =~= Seq::<u8>::empty());
    while i < bytes.len()
        invariant
            i <= bytes@.len(),
            r@ == hex_text(bytes@.take(i as int)),
            r@.len() == 2 * i,
        decreases bytes@.len() - i,
    {
        proof {
            lemma_take_one(bytes@, i as int);
        }
        let b = bytes[i];
        r.push(nibble(b / 16));
        r.push(nibble(b % 16));
        i = i + 1;
    }
    assert(bytes@.take(bytes@.len() as int) =~= bytes@);
    r
}

pub fn sha256_hex(bytes: &[u8]) -> (r: String)
    ensures
        r@ == hex_text(sha256(bytes@)),
        r@.len() == 64,
{
    let d = sha256_digest(bytes);
    hex(&d)
}

/// The hash of a piece of text.
pub open spec fn text_hash(text: Str) -> Str {
    hex_text(sha256(encode_utf8(text)))
}

/// The hash of a piece of text.
pub fn hash_text(text: &str) -> (r: String)
    ensures
        r@ == text_hash(text@),
        r@.len() == 64,
{
    sha256_hex(text.as_bytes())
}

/// The hash that stands for an options file.
pub open spec fn file_hash(content: Option<Seq<u8>>) -> Str {
    match content {
        Some(bytes) => hex_text(sha256(bytes)),
        None => "ABSENT"@,
    }
}

/// The bytes of an options file that may be absent.
pub open spec fn bytes_view(content: Option<&Vec<u8>>) -> Option<Seq<u8>> {
    match content {
        Some(b) => Some(b@),
        None => None,
    }
}

/// Hash of the saved options file content, or "ABSENT".
pub fn options_hash(content: Option<&Vec<u8>>) -> (r: String)
    ensures
        r@ == file_hash(bytes_view(content)),
{
    match content {
        Some(bytes) => sha256_hex(bytes.as_slice()),
        None => owned("ABSENT"),
    }
}

// ---------------------------------------------------------------------
// The cache
// ---------------------------------------------------------------------

/// One finished query, with the options file it was made against.
pub struct CacheEntry {
    pub options_name: String,
    pub options_hash: String,
    pub info: PortInfo,
}

#[verifier::ext_equal]
pub struct CachedView {
    pub options_name: Str,
    pub options_hash: Str,
    pub info: InfoView,
}

impl View for CacheEntry {
    type V = CachedView;

    open spec fn view(&self) -> CachedView {
        CachedView {
            options_name: self.options_name@,
            options_hash: self.options_hash@,
            info: self.info@,
        }
    }
}

impl Duplicate for CacheEntry {
    fn duplicate(&self) -> (r: Self) {
        CacheEntry {
            options_name: self.options_name.clone(),
            options_hash: self.options_hash.clone(),
            info: self.info.duplicate(),
        }
    }
}

/// Persistent per-generation query cache.
///
/// A generation is one (ports tree state, layered make.conf) pair; any change
/// to either starts a fresh file. Within a generation, an entry is valid as
/// long as the port's options file content (in the PORT_DBDIR the query saw)
/// is unchanged — that content is part of the entry.
pub struct Cache {
    map: SortedMap<PortKey, CacheEntry>,
    enabled: bool,
}

#[verifier::ext_equal]
pub struct CacheView {
    pub map: Map<KeyView, CachedView>,
    pub enabled: bool,
}

impl View for Cache {
    type V = CacheView;

    closed spec fn view(&self) -> CacheView {
        CacheView { map: self.map@, enabled: self.enabled }
    }
}

/// The entries of a generation by key; a later one replaces an earlier one.
pub open spec fn by_key(entries: Seq<CachedView>) -> Map<KeyView, CachedView>
    decreases entries.len(),
{
    if entries.len() == 0 {
        Map::empty()
    } else {
        by_key(entries.drop_last()).insert(entries.last().info.key, entries.last())
    }
}

/// What the cache holds for a port whose options file has the given hash.
pub open spec fn cached(c: CacheView, key: KeyView, hash: Str) -> Option<InfoView> {
    if c.enabled && c.map.dom().contains(key) && c.map[key].options_hash == hash {
        Some(c.map[key].info)
    } else {
        None
    }
}

/// The entry of a finished query.
pub open spec fn entry_of(info: InfoView, hash: Str) -> CachedView {
    CachedView { options_name: info.options_name, options_hash: hash, info }
}

/// The cache with a finished query in it; as it is where it is disabled.
pub open spec fn stored(c: CacheView, info: InfoView, hash: Str) -> CacheView {
    if c.enabled {
        CacheView { map: c.map.insert(info.key, entry_of(info, hash)), ..c }
    } else {
        c
    }
}

/// What was stored is what is found while the options file is unchanged, and
/// nothing is found once it changed.
pub proof fn law_cache_reads_back(c: CacheView, info: InfoView, stored_at: Str, now: Str)
    ensures
        c.enabled && now == stored_at ==> cached(stored(c, info, stored_at), info.key, now)
            == Some(info),
        now != stored_at ==> cached(stored(c, info, stored_at), info.key, now) is None,
        !c.enabled ==> cached(stored(c, info, stored_at), info.key, now) is None,
{
}

/// Whether every entry of a cache stands under the key of its port.
pub open spec fn keyed(c: CacheView) -> bool {
    forall|k: KeyView| #[trigger] c.map.dom().contains(k) ==> c.map[k].info.key == k
}

proof fn lemma_by_key(entries: Seq<CachedView>)
    ensures
        forall|k: KeyView| #[trigger]
            by_key(entries).dom().contains(k) ==> by_key(entries)[k].info.key == k,
    decreases entries.len(),
{
    if entries.len() > 0 {
        lemma_by_key(entries.drop_last());
    }
}

/// What a lookup finds is about the port that was asked for: it holds of every
/// cache as it is opened, and storing a query keeps it.
pub proof fn law_cache_keyed(
    entries: Seq<CachedView>,
    c: CacheView,
    info: InfoView,
    key: KeyView,
    hash: Str,
)
    ensures
        keyed(CacheView { map: Map::empty(), enabled: false }),
        keyed(CacheView { map: by_key(entries), enabled: true }),
        keyed(c) ==> keyed(stored(c, info, hash)),
        keyed(c) && cached(c, key, hash) is Some ==> (cached(c, key, hash)->0).key == key,
{
    lemma_by_key(entries);
}

impl Cache {
    /// A cache that never hits and never stores (--no-cache).
    pub fn disabled() -> (r: Self)
        ensures
            r@ == (CacheView { map: Map::empty(), enabled: false }),
    {
        Cache { map: SortedMap::new(), enabled: false }
    }

    /// A cache over the entries of a generation file, in file order.
    pub fn open(entries: &Vec<CacheEntry>) -> (r: Self)
        ensures
            r@ == (CacheView { map: by_key(views(entries@)), enabled: true }),
    {
        let ghost v = views(entries@);
        let mut map: SortedMap<PortKey, CacheEntry> = SortedMap::new();
        let mut i: usize = 0;
        assert(v.take(0) =~= Seq::<CachedView>::empty());
        while i < entries.len()
            invariant
                i <= entries@.len(),
                v == views(entries@),
                map@ == by_key(v.take(i as int)),
            decreases entries@.len() - i,
        {
            proof {
                lemma_take_one(v, i as int);
                assert(v[i as int] == entries@[i as int]@);
            }
            let e = entries[i].duplicate();
            map.insert(entries[i].info.key.duplicate(), e);
            i = i + 1;
        }
        assert(v.take(entries@.len() as int) =~= v);
        Cache { map, enabled: true }
    }

    /// The OPTIONS_NAME whose options file decides whether the entry of a port
    /// is valid.
    pub fn watched(&self, key: &PortKey) -> (r: Option<String>)
        ensures
            opt_view(r) == if self@.map.dom().contains(key@) {
                Some(self@.map[key@].options_name)
            } else {
                None
            },
    {
        match self.map.get(key) {
            Some(e) => Some(e.options_name.clone()),
            None => None,
        }
    }

    /// Return the cached PortInfo if the options file it was computed against
    /// is still byte-identical. `content` is what the file named by `watched`
    /// holds.
    pub fn lookup(&self, key: &PortKey, content: Option<&Vec<u8>>) -> (r: Option<PortInfo>)
        ensures
            opt_view(r) == cached(self@, key@, file_hash(bytes_view(content))),
    {
        if !self.enabled {
            return None;
        }
        match self.map.get(key) {
            Some(e) => {
                let hash = options_hash(content);
                if same(hash.as_str(), e.options_hash.as_str()) {
                    Some(e.info.duplicate())
                } else {
                    None
                }
            },
            None => None,
        }
    }

    /// Store a finished query. `content` is what the port's options file holds.
    /// The entry comes back for the generation file; none where the cache is
    /// disabled.
    pub fn insert(&mut self, info: &PortInfo, content: Option<&Vec<u8>>) -> (r: Option<CacheEntry>)
        ensures
            final(self)@ == stored(old(self)@, info@, file_hash(bytes_view(content))),
            opt_view(r) == if old(self)@.enabled {
                Some(entry_of(info@, file_hash(bytes_view(content))))
            } else {
                None
            },
    {
        if !self.enabled {
            return None;
        }
        let entry = CacheEntry {
            options_name: info.options_name.clone(),
            options_hash: options_hash(content),
            info: info.duplicate(),
        };
        let kept = entry.duplicate();
        self.map.insert(info.key.duplicate(), entry);
        Some(kept)
    }
}

// ---------------------------------------------------------------------
// Generations
// ---------------------------------------------------------------------

/// Cache format version: bumped whenever the wrapper emits new data or the
/// entry layout changes, so a newer binary never reuses entries a previous
/// one wrote with missing fields. Part of every generation file name
/// (`v<SCHEMA>-<tree>-<conf>.jsonl`); files from other schemas are reaped
/// by the prune pass since nothing can read them again.
pub const SCHEMA: u64 = 2;

/// The first twelve characters of a text.
pub open spec fn shortened(s: Str) -> Str {
    if s.len() > 12 {
        s.take(12)
    } else {
        s
    }
}

fn short(s: &str) -> (r: String)
    ensures
        r@ == shortened(s@),
{
    let cs = to_chars(s);
    let n: usize = if cs.len() > 12 {
        12
    } else {
        cs.len()
    };
    let r = from_chars(&cs, 0, n);
    assert(r@ =~= shortened(s@));
    r
}

/// What the name of every generation file of this schema begins with.
pub open spec fn schema_prefix() -> Str {
    "v"@ + decimal(SCHEMA as nat) + "-"@
}

fn prefix() -> (r: String)
    ensures
        r@ == schema_prefix(),
{
    let mut r = owned("v");
    let n = number(SCHEMA);
    r.append(n.as_str());
    r.append("-");
    r
}

/// The name of a generation file.
pub open spec fn generation(tree_key: Str, conf_hash: Str) -> Str {
    schema_prefix() + shortened(tree_key) + "-"@ + shortened(conf_hash) + ".jsonl"@
}

/// The name of a generation file.
pub fn generation_name(tree_key: &str, conf_hash: &str) -> (r: String)
    ensures
        r@ == generation(tree_key@, conf_hash@),
{
    let mut r = prefix();
    let t = short(tree_key);
    r.append(t.as_str());
    r.append("-");
    let c = short(conf_hash);
    r.append(c.as_str());
    r.append(".jsonl");
    r
}

/// Whether a file of the cache dir is a cache generation (drafts are not).
pub fn is_generation(name: &str) -> (r: bool)
    ensures
        r == ends(name@, ".jsonl"@),
{
    ends_in(name, ".jsonl")
}

/// A file of the cache dir, and when it was modified where that is known.
pub struct CacheFile {
    pub name: String,
    pub modified: Option<u128>,
}

#[verifier::ext_equal]
pub struct CacheFileView {
    pub name: Str,
    pub modified: Option<u128>,
}

impl View for CacheFile {
    type V = CacheFileView;

    open spec fn view(&self) -> CacheFileView {
        CacheFileView { name: self.name@, modified: self.modified }
    }
}

/// Whether a file is a generation other than the one to keep.
pub open spec fn is_other(f: CacheFileView, keep: Str) -> bool {
    ends(f.name, ".jsonl"@) && f.name != keep
}

/// Whether a file competes for being the one other generation that stays.
pub open spec fn is_rival(f: CacheFileView, keep: Str) -> bool {
    is_other(f, keep) && starts(f.name, schema_prefix()) && f.modified is Some
}

/// Whether an index is that of the other generation that stays: the one
/// modified last, and of several the first.
pub open spec fn is_newest(fs: Seq<CacheFileView>, keep: Str, i: int) -> bool {
    &&& 0 <= i < fs.len() && is_rival(fs[i], keep)
    &&& forall|j: int|
        0 <= j < fs.len() && is_rival(#[trigger] fs[j], keep) ==> fs[j].modified->0
            <= fs[i].modified->0
    &&& forall|j: int|
        0 <= j < i && is_rival(#[trigger] fs[j], keep) ==> fs[j].modified->0
            < fs[i].modified->0
}

/// Whether a file of the cache dir is to be deleted: a generation of another
/// schema always, one of this schema unless it is the newest beside the
/// current one.
pub open spec fn is_pruned(fs: Seq<CacheFileView>, keep: Str, i: int) -> bool {
    is_other(fs[i], keep) && (!starts(fs[i].name, schema_prefix()) || (fs[i].modified is Some
        && !is_newest(fs, keep, i)))
}

/// Keep the current generation plus the most recent other one. Says of each
/// file whether it is to be deleted.
pub fn prune_old_generations(files: &Vec<CacheFile>, keep: &str) -> (r: Vec<bool>)
    ensures
        r@.len() == files@.len(),
        forall|i: int|
            0 <= i < files@.len() ==> #[trigger] r@[i] == is_pruned(views(files@), keep@, i),
{
    let ghost fs = views(files@);
    let pre = prefix();
    let mut newest: Option<(usize, u128)> = None;
    let mut i: usize = 0;
    while i < files.len()
        invariant
            i <= files@.len(),
            fs == views(files@),
            pre@ == schema_prefix(),
            match newest {
                Some((n, t)) => {
                    &&& n < i && is_rival(fs[n as int], keep@) && fs[n as int].modified == Some(t)
                    &&& forall|j: int|
                        0 <= j < i && is_rival(#[trigger] fs[j], keep@) ==> fs[j].modified->0 <= t
                    &&& forall|j: int|
                        0 <= j < n && is_rival(#[trigger] fs[j], keep@) ==> fs[j].modified->0 < t
                },
                None => forall|j: int| 0 <= j < i ==> !is_rival(#[trigger] fs[j], keep@),
            },
        decreases files@.len() - i,
    {
        let f = &files[i];
        assert(fs[i as int] == f@);
        if is_generation(f.name.as_str()) && !same(f.name.as_str(), keep) && begins_with(
            f.name.as_str(),
            pre.as_str(),
        ) {
            if let Some(t) = f.modified {
                match newest {
                    Some((_, best)) => {
                        if t > best {
                            newest = Some((i, t));
                        }
                    },
                    None => {
                        newest = Some((i, t));
                    },
                }
            }
        }
        i = i + 1;
    }
    let mut r: Vec<bool> = Vec::new();
    let mut i: usize = 0;
    while i < files.len()
        invariant
            i <= files@.len(),
            fs == views(files@),
            pre@ == schema_prefix(),
            r@.len() == i,
            match newest {
                Some((n, t)) => n < files@.len() && is_newest(fs, keep@, n as int),
                None => forall|j: int|
                    0 <= j < files@.len() ==> !is_rival(#[trigger] fs[j], keep@),
            },
            forall|j: int| 0 <= j < i ==> #[trigger] r@[j] == is_pruned(fs, keep@, j),
        decreases files@.len() - i,
    {
        let f = &files[i];
        assert(fs[i as int] == f@);
        let other = is_generation(f.name.as_str()) && !same(f.name.as_str(), keep);
        let ours = begins_with(f.name.as_str(), pre.as_str());
        let kept = match newest {
            Some((n, _)) => n == i,
            None => false,
        };
        proof {
            if let Some((n, t)) = newest {
                if is_newest(fs, keep@, i as int) && n != i {
                    if n < i {
                        assert(is_rival(fs[n as int], keep@));
                    } else {
                        assert(is_rival(fs[i as int], keep@));
                    }
                }
            }
        }
        r.push(other && (!ours || (f.modified.is_some() && !kept)));
        i = i + 1;
    }
    r
}

/// Of the generations that could be read again at most two stay: the current
/// one and one other.
pub proof fn law_prune_keeps_two(fs: Seq<CacheFileView>, keep: Str, i: int, j: int)
    requires
        0 <= i < fs.len(),
        0 <= j < fs.len(),
        is_rival(fs[i], keep),
        is_rival(fs[j], keep),
        !is_pruned(fs, keep, i),
        !is_pruned(fs, keep, j),
    ensures
        i == j,
{
    assert(is_newest(fs, keep, i) && is_newest(fs, keep, j));
    if i < j {
        assert(is_rival(fs[i], keep));
        assert(fs[j].modified->0 <= fs[i].modified->0);
        assert(fs[i].modified->0 < fs[j].modified->0);
    } else if j < i {
        assert(is_rival(fs[j], keep));
        assert(fs[i].modified->0 <= fs[j].modified->0);
        assert(fs[j].modified->0 < fs[i].modified->0);
    }
}

// ---------------------------------------------------------------------
// The identity of a ports tree
// ---------------------------------------------------------------------

/// Whether a character is a hexadecimal digit of either case.
pub open spec fn hex_char(c: char) -> bool {
    '0' <= c <= '9' || 'a' <= c <= 'f' || 'A' <= c <= 'F'
}

/// The object id that a text is.
pub open spec fn object_of(s: Str) -> Option<Str> {
    let t = trim(s);
    if (t.len() == 40 || t.len() == 64) && forall|i: int|
        0 <= i < t.len() ==> hex_char(#[trigger] t[i]) {
        Some(t)
    } else {
        None
    }
}

/// Accept a bare object id (sha1 or sha256 hex), rejecting anything else so a
/// stray file cannot become a cache generation name.
pub fn object_id(s: &str) -> (r: Option<String>)
    ensures
        opt_view(r) == object_of(s@),
{
    let t = strip(s);
    let cs = to_chars(t.as_str());
    if cs.len() != 40 && cs.len() != 64 {
        return None;
    }
    let mut i: usize = 0;
    while i < cs.len()
        invariant
            i <= cs@.len(),
            cs@ == trim(s@),
            forall|j: int| 0 <= j < i ==> hex_char(#[trigger] cs@[j]),
        decreases cs@.len() - i,
    {
        let c = cs[i];
        if !(('0' <= c && c <= '9') || ('a' <= c && c <= 'f') || ('A' <= c && c <= 'F')) {
            assert(!hex_char(cs@[i as int]));
            return None;
        }
        i = i + 1;
    }
    Some(t)
}

/// A path that a git file points at, seen from a directory: an absolute one as
/// it is.
pub fn resolve_relative(base: &str, path: &str) -> (r: String)
    ensures
        r@ == joined(base@, path@),
{
    if is_absolute(path) {
        owned(path)
    } else {
        join_path(base, path)
    }
}

/// Whether a line of packed-refs names a ref: headers and peeled tags do not.
pub open spec fn packs(line: Str, refname: Str) -> bool {
    !starts(line, "#"@) && !starts(line, "^"@) && cut(line, ' ') is Some && trim(
        (cut(line, ' ')->0).1,
    ) == refname
}

/// The object id that packed-refs gives a ref: that of the first line that names
/// it.
pub open spec fn packed_in(text: Str, refname: Str) -> Option<Str> {
    match first_where(lines(text), |l: Str| packs(l, refname)) {
        Some(l) => object_of((cut(l, ' ')->0).0),
        None => None,
    }
}

/// Look `refname` up in packed-refs (`<id> <ref>` lines; '#' headers and '^'
/// peeled-tag lines are not refs).
pub fn packed_ref(text: &str, refname: &str) -> (r: Option<String>)
    ensures
        opt_view(r) == packed_in(text@, refname@),
{
    let ls = split_lines(text);
    let ghost v = views(ls@);
    let ghost p = |l: Str| packs(l, refname@);
    let mut i: usize = 0;
    while i < ls.len()
        invariant
            i <= ls@.len(),
            v == views(ls@),
            v == lines(text@),
            p == (|l: Str| packs(l, refname@)),
            forall|j: int| 0 <= j < i ==> !p(#[trigger] v[j]),
        decreases ls@.len() - i,
    {
        let line = ls[i].as_str();
        assert(v[i as int] == line@);
        if !begins_with(line, "#") && !begins_with(line, "^") {
            if let Some((id, name)) = split_once(line, ' ') {
                let name = strip(name.as_str());
                if same(name.as_str(), refname) {
                    proof {
                        lemma_first_where_is(v, p, i as int);
                    }
                    return object_id(id.as_str());
                }
            }
        }
        i = i + 1;
    }
    proof {
        lemma_first_where_none(v, p);
    }
    None
}

/// Whether a line names the repository directory.
pub open spec fn names_gitdir(line: Str) -> bool {
    starts(trim(line), "gitdir:"@)
}

/// The repository directory that a `.git` file names.
pub open spec fn gitdir_in(text: Str) -> Option<Str> {
    match first_where(lines(text), |l: Str| names_gitdir(l)) {
        Some(l) => {
            let path = trim(trim(l).skip("gitdir:"@.len() as int));
            if path.len() == 0 {
                None
            } else {
                Some(path)
            }
        },
        None => None,
    }
}

/// The repository directory that a `.git` file names.
pub fn gitdir_line(text: &str) -> (r: Option<String>)
    ensures
        opt_view(r) == gitdir_in(text@),
{
    let ls = split_lines(text);
    let ghost v = views(ls@);
    let ghost p = |l: Str| names_gitdir(l);
    let mut i: usize = 0;
    while i < ls.len()
        invariant
            i <= ls@.len(),
            v == views(ls@),
            v == lines(text@),
            p == (|l: Str| names_gitdir(l)),
            forall|j: int| 0 <= j < i ==> !p(#[trigger] v[j]),
        decreases ls@.len() - i,
    {
        assert(v[i as int] == ls@[i as int]@);
        let line = strip(ls[i].as_str());
        if let Some(rest) = strip_prefix(line.as_str(), "gitdir:") {
            proof {
                lemma_first_where_is(v, p, i as int);
            }
            let path = strip(rest.as_str());
            return if path.as_str().is_empty() {
                None
            } else {
                Some(path)
            };
        }
        i = i + 1;
    }
    proof {
        lemma_first_where_none(v, p);
    }
    None
}

/// The repository directory of a ports tree: `.git` itself, or what it names.
pub open spec fn gitdir_of(f: Facts, portsdir: Str) -> Option<Str> {
    let dot = joined(portsdir, ".git"@);
    if dir_at(f, dot) {
        Some(dot)
    } else {
        match text_at(f, dot) {
            Some(text) => match gitdir_in(text) {
                Some(path) => Some(joined(portsdir, path)),
                None => None,
            },
            None => None,
        }
    }
}

/// The commit that a ref of a repository directory is at: the loose ref, else
/// the packed one.
pub open spec fn ref_in(f: Facts, dir: Str, refname: Str) -> Option<Str> {
    let loose = match text_at(f, joined(dir, refname)) {
        Some(t) => object_of(t),
        None => None,
    };
    match loose {
        Some(id) => Some(id),
        None => match text_at(f, joined(dir, "packed-refs"@)) {
            Some(t) => packed_in(t, refname),
            None => None,
        },
    }
}

/// The commit that HEAD of a repository directory is at: the one it names, or
/// that of its ref, which a linked worktree shares with the main repository.
pub open spec fn head_in(f: Facts, gitdir: Str) -> Option<Str> {
    match text_at(f, joined(gitdir, "HEAD"@)) {
        Some(text) => {
            let head = trim(text);
            if starts(head, "ref:"@) {
                let refname = trim(head.skip("ref:"@.len() as int));
                if starts(refname, "refs/"@) {
                    match ref_in(f, gitdir, refname) {
                        Some(id) => Some(id),
                        None => match text_at(f, joined(gitdir, "commondir"@)) {
                            Some(c) => ref_in(f, joined(gitdir, trim(c)), refname),
                            None => None,
                        },
                    }
                } else {
                    None
                }
            } else {
                object_of(head)
            }
        },
        None => None,
    }
}

/// The commit a ports tree is at.
pub open spec fn head_of(f: Facts, portsdir: Str) -> Option<Str> {
    match gitdir_of(f, portsdir) {
        Some(g) => head_in(f, g),
        None => None,
    }
}

/// The identity of a ports tree.
pub open spec fn tree_identity(f: Facts, portsdir: Str, mtime: Option<u64>) -> Str {
    match head_of(f, portsdir) {
        Some(id) => id,
        None => "mtime-"@ + decimal(
            match mtime {
                Some(t) => t as nat,
                None => 0,
            },
        ),
    }
}


/// The repository directory backing `portsdir`: `.git` itself when it is a
/// directory, or the `gitdir: <path>` it names when it is a file (linked
/// worktree or submodule checkout).
fn resolve_gitdir(world: &mut World, portsdir: &str) -> (r: Option<String>)
    ensures
        asked(final(world)@, old(world)@),
        opt_view(r) == gitdir_of(old(world)@.known, portsdir@),
        settled(final(world)@) ==> forall|f: Facts| #[trigger]
            extends(f, old(world)@.known) ==> gitdir_of(f, portsdir@) == opt_view(r),
{
    let dot = join_path(portsdir, ".git");
    if world.is_dir(dot.as_str()) {
        return Some(dot);
    }
    match world.text(dot.as_str()) {
        Some(text) => match gitdir_line(text.as_str()) {
            Some(path) => Some(resolve_relative(portsdir, path.as_str())),
            None => None,
        },
        None => None,
    }
}

fn find_ref(world: &mut World, dir: &str, refname: &str) -> (r: Option<String>)
    ensures
        asked(final(world)@, old(world)@),
        opt_view(r) == ref_in(old(world)@.known, dir@, refname@),
        settled(final(world)@) ==> forall|f: Facts| #[trigger]
            extends(f, old(world)@.known) ==> ref_in(f, dir@, refname@) == opt_view(r),
{
    let loose = join_path(dir, refname);
    if let Some(t) = world.text(loose.as_str()) {
        if let Some(id) = object_id(t.as_str()) {
            return Some(id);
        }
    }
    let packed = join_path(dir, "packed-refs");
    match world.text(packed.as_str()) {
        Some(t) => packed_ref(t.as_str(), refname),
        None => None,
    }
}

/// The commit HEAD points at, read straight from the .git directory — no
/// `git` subprocess (a fork+exec per invocation, and git may not even be
/// installed on a host that only ever fetched a portsnap/distfile tree).
/// None whenever anything is missing or unrecognized; the caller then falls
/// back to the mtime key.
pub fn git_head(world: &mut World, portsdir: &str) -> (r: Option<String>)
    ensures
        asked(final(world)@, old(world)@),
        opt_view(r) == head_of(old(world)@.known, portsdir@),
        settled(final(world)@) ==> forall|f: Facts| #[trigger]
            extends(f, old(world)@.known) ==> head_of(f, portsdir@) == opt_view(r),
{
    let gitdir = match resolve_gitdir(world, portsdir) {
        Some(g) => g,
        None => {
            return None;
        },
    };
    let head_path = join_path(gitdir.as_str(), "HEAD");
    let head = match world.text(head_path.as_str()) {
        Some(t) => strip(t.as_str()),
        None => {
            return None;
        },
    };
    let refname = match strip_prefix(head.as_str(), "ref:") {
        // Detached HEAD: the file holds the commit itself.
        None => {
            return object_id(head.as_str());
        },
        Some(rest) => strip(rest.as_str()),
    };
    // Only real refs, so a malformed HEAD cannot point outside the gitdir.
    if !begins_with(refname.as_str(), "refs/") {
        return None;
    }
    if let Some(id) = find_ref(world, gitdir.as_str(), refname.as_str()) {
        return Some(id);
    }
    // Linked worktrees keep their own HEAD but share refs/ and packed-refs
    // with the main repository, named by the `commondir` file.
    let common_path = join_path(gitdir.as_str(), "commondir");
    match world.text(common_path.as_str()) {
        Some(c) => {
            let c = strip(c.as_str());
            let common = resolve_relative(gitdir.as_str(), c.as_str());
            find_ref(world, common.as_str(), refname.as_str())
        },
        None => None,
    }
}

/// Identity of the ports tree: the git HEAD commit, falling back to the
/// mtime of Mk/bsd.port.mk for non-git trees.
///
/// HEAD only: a `git status` dirty-check would stat the whole tree
/// (~10s cold on /usr/ports). Uncommitted local edits to the tree are
/// invisible to the cache — use --no-cache when hacking on ports.
pub fn tree_key(world: &mut World, portsdir: &str, mtime: Option<u64>) -> (r: String)
    ensures
        asked(final(world)@, old(world)@),
        r@ == tree_identity(old(world)@.known, portsdir@, mtime),
        settled(final(world)@) ==> forall|f: Facts| #[trigger]
            extends(f, old(world)@.known) ==> tree_identity(f, portsdir@, mtime) == r@,
{
    match git_head(world, portsdir) {
        Some(id) => id,
        None => {
            let t = match mtime {
                Some(t) => t,
                None => 0,
            };
            let n = number(t);
            glue("mtime-", n.as_str())
        },
    }
}

// ---------------------------------------------------------------------
// What a cache answers
// ---------------------------------------------------------------------

/// The last entry of a port in a generation file is the one that counts, and says
/// nothing of other ports.
pub proof fn law_later_entry(entries: Seq<CachedView>, e: CachedView, key: KeyView, hash: Str)
    ensures
        ({
            let before = CacheView { map: by_key(entries), enabled: true };
            let after = CacheView { map: by_key(entries.push(e)), enabled: true };
            &&& cached(after, e.info.key, e.options_hash) == Some(e.info)
            &&& hash != e.options_hash ==> cached(after, e.info.key, hash) is None
            &&& key != e.info.key ==> cached(after, key, hash) == cached(before, key, hash)
        }),
        cached(CacheView { map: by_key(Seq::empty()), enabled: true }, key, hash) is None,
{
    assert(entries.push(e).drop_last() =~= entries);
}

/// Storing a query takes note of its options name and leaves other ports alone.
pub proof fn law_stored(c: CacheView, info: InfoView, hash: Str, key: KeyView, other: Str)
    ensures
        c.enabled ==> stored(c, info, hash).map[info.key].options_name == info.options_name,
        c.enabled ==> stored(c, info, hash).map.dom().contains(info.key),
        key != info.key ==> cached(stored(c, info, hash), key, other) == cached(c, key, other),
{
}

/// The name of a generation: the schema, and the first twelve characters of the
/// tree's identity and of the hash of make.conf.
pub proof fn law_generation(tree: Str, conf: Str)
    requires
        tree.len() >= 12,
        conf.len() >= 12,
    ensures
        generation(tree, conf) == "v2-"@ + tree.take(12) + "-"@ + conf.take(12) + ".jsonl"@,
{
    reveal_strlit("v");
    reveal_strlit("-");
    reveal_strlit("v2-");
    assert(decimal(2) =~= seq!['2']);
    assert("v"@ + decimal(2) + "-"@ =~= "v2-"@);
    if tree.len() == 12 {
        assert(tree.take(12) =~= tree);
    }
    if conf.len() == 12 {
        assert(conf.take(12) =~= conf);
    }
}

/// Which files of the cache dir go. The current generation never does, nor a
/// file that is no generation, nor one of this schema whose age is not known. One
/// of another schema always does. Of the rest one goes where a newer one is
/// there, and stays where every other is older.
pub proof fn law_prune(fs: Seq<CacheFileView>, keep: Str, i: int, j: int)
    requires
        0 <= i < fs.len(),
        0 <= j < fs.len(),
    ensures
        ({
            let jsonl = |n: Str| n.len() >= 6 && n.skip(n.len() - 6) == ".jsonl"@;
            let ours = |n: Str| n.len() >= 3 && n.take(3) == "v2-"@;
            let rival = |f: CacheFileView|
                jsonl(f.name) && ours(f.name) && f.name != keep && f.modified is Some;
            &&& fs[i].name == keep ==> !is_pruned(fs, keep, i)
            &&& !jsonl(fs[i].name) ==> !is_pruned(fs, keep, i)
            &&& jsonl(fs[i].name) && fs[i].name != keep && !ours(fs[i].name) ==> is_pruned(
                fs,
                keep,
                i,
            )
            &&& ours(fs[i].name) && fs[i].modified is None ==> !is_pruned(fs, keep, i)
            &&& rival(fs[i]) && rival(fs[j]) && fs[i].modified->0 < fs[j].modified->0 ==> is_pruned(
                fs,
                keep,
                i,
            )
            &&& rival(fs[i]) && (forall|k: int|
                0 <= k < fs.len() && k != i && rival(#[trigger] fs[k]) ==> fs[k].modified->0
                    < fs[i].modified->0) ==> !is_pruned(fs, keep, i)
        }),
{
    reveal_strlit("v");
    reveal_strlit("-");
    reveal_strlit("v2-");
    reveal_strlit(".jsonl");
    assert(decimal(2) =~= seq!['2']);
    assert(schema_prefix() =~= "v2-"@);
}

/// Each byte is written as two digits, the one of sixteen times its value first.
pub proof fn law_hex(bytes: Seq<u8>, i: int)
    requires
        0 <= i < bytes.len(),
    ensures
        ({
            let t = hex_text(bytes);
            let value = |c: char|
                if '0' <= c <= '9' {
                    c as int - '0' as int
                } else {
                    c as int - 'a' as int + 10
                };
            &&& t.len() == 2 * bytes.len()
            &&& 16 * value(t[2 * i]) + value(t[2 * i + 1]) == bytes[i]
            &&& '0' <= t[2 * i] <= '9' || 'a' <= t[2 * i] <= 'f'
            &&& '0' <= t[2 * i + 1] <= '9' || 'a' <= t[2 * i + 1] <= 'f'
        }),
    decreases bytes.len(),
{
    let d = bytes.drop_last();
    let t = hex_text(bytes);
    let n = d.len() as int;
    if n > 0 {
        law_hex(d, 0);
    }
    assert(hex_text(d).len() == 2 * n);
    if i < n {
        law_hex(d, i);
        assert(t[2 * i] == hex_text(d)[2 * i]);
        assert(t[2 * i + 1] == hex_text(d)[2 * i + 1]);
        assert(bytes[i] == d[i]);
    } else {
        let b = bytes[i];
        assert(t[2 * i] == hex_digit((b / 16) as nat));
        assert(t[2 * i + 1] == hex_digit((b % 16) as nat));
        assert(16 * (b / 16) + b % 16 == b);
    }
}

/// An object id is forty or sixty-four hexadecimal digits, and nothing else is
/// one.
pub proof fn law_object_id(s: Str, blank: Str)
    requires
        forall|i: int| 0 <= i < blank.len() ==> space(#[trigger] blank[i]),
    ensures
        ({
            let digits = forall|i: int|
                0 <= i < s.len() ==> ('0' <= #[trigger] s[i] <= '9' || 'a' <= s[i] <= 'f' || 'A'
                    <= s[i] <= 'F');
            &&& (s.len() == 40 || s.len() == 64) && digits ==> object_of(s + blank) == Some(s)
            &&& object_of(s) matches Some(id) ==> (id.len() == 40 || id.len() == 64)
                && forall|i: int|
                0 <= i < id.len() ==> ('0' <= #[trigger] id[i] <= '9' || 'a' <= id[i] <= 'f'
                    || 'A' <= id[i] <= 'F')
        }),
{
    if (s.len() == 40 || s.len() == 64) && forall|i: int|
        0 <= i < s.len() ==> ('0' <= #[trigger] s[i] <= '9' || 'a' <= s[i] <= 'f' || 'A' <= s[i]
            <= 'F') {
        let none = Seq::<char>::empty();
        law_ascii_space(s[0]);
        law_ascii_space(s[s.len() - 1]);
        law_trim(none, s, blank);
        assert(none + s + blank =~= s + blank);
    }
}

/// The object id of a packed ref is that of the first line with its name that is
/// neither a header nor a peeled tag.
pub proof fn law_packed_ref(text: Str, refname: Str, id: Str, i: int)
    requires
        0 <= i < lines(text).len(),
        lines(text)[i] == id.push(' ') + refname,
        forall|k: int| 0 <= k < id.len() ==> #[trigger] id[k] != ' ',
        id.len() > 0,
        id[0] != '#',
        id[0] != '^',
        trim(refname) == refname,
        forall|k: int|
            0 <= k < i ==> {
                let l = #[trigger] lines(text)[k];
                (l.len() > 0 && (l[0] == '#' || l[0] == '^')) || cut(l, ' ') is None || trim(
                    (cut(l, ' ')->0).1,
                ) != refname
            },
    ensures
        packed_in(text, refname) == object_of(id),
{
    reveal_strlit("#");
    reveal_strlit("^");
    let ls = lines(text);
    let p = |l: Str| packs(l, refname);
    law_cut(id, ' ', refname);
    assert forall|k: int| 0 <= k < i implies !p(#[trigger] ls[k]) by {
        let l = ls[k];
        if l.len() > 0 {
            assert(l.take(1) =~= seq![l[0]]);
            assert("#"@ =~= seq!['#']);
            assert("^"@ =~= seq!['^']);
        }
    }
    let l = ls[i];
    assert(l[0] == id[0]);
    assert(l.take(1)[0] == l[0]);
    assert(!starts(l, "#"@) && !starts(l, "^"@));
    lemma_first_where_is(ls, p, i);
}

/// A `.git` file names the repository directory behind `gitdir:`.
pub proof fn law_gitdir_line(text: Str, path: Str, i: int)
    requires
        0 <= i < lines(text).len(),
        lines(text)[i] == "gitdir: "@ + path,
        path.len() > 0,
        !space(path[0]),
        !space(path.last()),
        forall|k: int| 0 <= k < i ==> !starts(trim(#[trigger] lines(text)[k]), "gitdir:"@),
    ensures
        gitdir_in(text) == Some(path),
{
    reveal_strlit("gitdir: ");
    reveal_strlit("gitdir:");
    let ls = lines(text);
    let p = |l: Str| names_gitdir(l);
    let l = ls[i];
    lemma_trim_clean(l);
    assert(l.take(7) =~= "gitdir:"@);
    lemma_first_where_is(ls, p, i);
    let none = Seq::<char>::empty();
    law_trim(seq![' '], path, none);
    assert(l.skip(7) =~= seq![' '] + path + none);
}

/// Where HEAD stands: at the commit it names; or at that of the ref it names, as
/// the repository directory has it loose, else packed, else as the directory it
/// shares with others has it.
pub proof fn law_head(f: Facts, gitdir: Str, head: Str, refname: Str, common: Str)
    requires
        text_at(f, joined(gitdir, "HEAD"@)) == Some(head),
        text_at(f, joined(gitdir, "commondir"@)) == Some(common),
        starts(refname, "refs/"@),
        !space(refname.last()),
    ensures
        trim(head) == "ref: "@ + refname ==> head_in(f, gitdir) == match ref_in(
            f,
            gitdir,
            refname,
        ) {
            Some(id) => Some(id),
            None => ref_in(f, joined(gitdir, trim(common)), refname),
        },
        !starts(trim(head), "ref:"@) ==> head_in(f, gitdir) == object_of(trim(head)),
{
    reveal_strlit("ref: ");
    reveal_strlit("ref:");
    reveal_strlit("refs/");
    if trim(head) == "ref: "@ + refname {
        let h = trim(head);
        assert(h.take(4) =~= "ref:"@);
        assert(refname.take(5)[0] == refname[0]);
        assert("refs/"@[0] == 'r');
        let none = Seq::<char>::empty();
        law_trim(seq![' '], refname, none);
        assert(h.skip(4) =~= seq![' '] + refname + none);
    }
}

/// A loose ref comes before a packed one.
pub proof fn law_ref(f: Facts, dir: Str, refname: Str, loose: Str, packed: Str)
    ensures
        text_at(f, joined(dir, refname)) == Some(loose) && object_of(loose) is Some ==> ref_in(
            f,
            dir,
            refname,
        ) == object_of(loose),
        text_at(f, joined(dir, refname)) is None && text_at(f, joined(dir, "packed-refs"@)) == Some(
            packed,
        ) ==> ref_in(f, dir, refname) == packed_in(packed, refname),
        text_at(f, joined(dir, refname)) is None && text_at(f, joined(dir, "packed-refs"@)) is None
            ==> ref_in(f, dir, refname) is None,
{
}

/// The identity of a ports tree: the commit it is at where that is known, else
/// the age of the framework.
pub proof fn law_tree_identity(f: Facts, portsdir: Str, mtime: Option<u64>, text: Str)
    ensures
        head_of(f, portsdir) is Some ==> tree_identity(f, portsdir, mtime) == head_of(f, portsdir)->0,
        head_of(f, portsdir) is None && mtime is Some ==> tree_identity(f, portsdir, mtime)
            == "mtime-"@ + decimal(mtime->0 as nat),
        head_of(f, portsdir) is None && mtime is None ==> tree_identity(f, portsdir, mtime)
            == "mtime-"@ + decimal(0),
        dir_at(f, joined(portsdir, ".git"@)) ==> head_of(f, portsdir) == head_in(
            f,
            joined(portsdir, ".git"@),
        ),
        !dir_at(f, joined(portsdir, ".git"@)) && text_at(f, joined(portsdir, ".git"@)) == Some(text)
            && gitdir_in(text) is Some ==> head_of(f, portsdir) == head_in(
            f,
            joined(portsdir, gitdir_in(text)->0),
        ),
        file_hash(None) == "ABSENT"@,
{
}

} // verus!
