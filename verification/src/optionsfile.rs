//! The options file of a port: what `make config` writes and the framework
//! reads back.
//!
//! ```text
//! # This file is auto-generated by 'make config'.
//! # Options for nginx-1.30.4
//! _OPTIONS_READ=nginx-1.30.4
//! _FILE_COMPLETE_OPTIONS_LIST=DSO IPV6
//! OPTIONS_FILE_SET+=DSO
//! OPTIONS_FILE_UNSET+=IPV6
//! ```
use vstd::prelude::*;

use crate::model::options::OptionSet;
use crate::order::Duplicate;
use crate::sorted::{lemma_take_set, SortedSet};
use crate::text::{join, join_with, lemma_line, lemma_lines_push, lemma_trim_clean};
use crate::text::{lemma_words_join, line_ended, lines, space, split_lines, split_words};
use crate::text::{starts, strip};
use crate::text::{strip_prefix, trim, views, words, Str};

verus! {

/// What an options file records.
pub struct SavedOptionsFile {
    /// The package the file was written for.
    pub options_read: String,
    /// Every option the port had at the time.
    pub complete: Vec<String>,
    /// The options recorded as on.
    pub set: OptionSet,
    /// The options recorded as off.
    pub unset: OptionSet,
}

#[verifier::ext_equal]
pub struct SavedView {
    pub options_read: Str,
    pub complete: Seq<Str>,
    pub set: Set<Str>,
    pub unset: Set<Str>,
}

impl View for SavedOptionsFile {
    type V = SavedView;

    open spec fn view(&self) -> SavedView {
        SavedView {
            options_read: self.options_read@,
            complete: views(self.complete@),
            set: self.set@,
            unset: self.unset@,
        }
    }
}

impl SavedView {
    /// Whether the file takes any note of an option.
    pub open spec fn knows(self, opt: Str) -> bool {
        self.complete.contains(opt) || self.set.contains(opt) || self.unset.contains(opt)
    }
}

impl Duplicate for SavedOptionsFile {
    fn duplicate(&self) -> (r: Self) {
        SavedOptionsFile {
            options_read: self.options_read.clone(),
            complete: crate::order::duplicate_list(&self.complete),
            set: self.set.duplicate(),
            unset: self.unset.duplicate(),
        }
    }
}

/// An options file without a line.
pub open spec fn blank_saved() -> SavedView {
    SavedView {
        options_read: Seq::empty(),
        complete: Seq::empty(),
        set: Set::empty(),
        unset: Set::empty(),
    }
}

/// What one more line adds to what a file records: the two assignments replace
/// what was there, the two additions add their words, anything else is skipped.
pub open spec fn saved_step(s: SavedView, line: Str) -> SavedView {
    let t = trim(line);
    if starts(t, "_OPTIONS_READ="@) {
        SavedView { options_read: trim(t.skip("_OPTIONS_READ="@.len() as int)), ..s }
    } else if starts(t, "_FILE_COMPLETE_OPTIONS_LIST="@) {
        SavedView { complete: words(t.skip("_FILE_COMPLETE_OPTIONS_LIST="@.len() as int)), ..s }
    } else if starts(t, "OPTIONS_FILE_SET+="@) {
        SavedView {
            set: s.set.union(words(t.skip("OPTIONS_FILE_SET+="@.len() as int)).to_set()),
            ..s
        }
    } else if starts(t, "OPTIONS_FILE_UNSET+="@) {
        SavedView {
            unset: s.unset.union(words(t.skip("OPTIONS_FILE_UNSET+="@.len() as int)).to_set()),
            ..s
        }
    } else {
        s
    }
}

/// What a sequence of lines records, read from the first to the last.
pub open spec fn saved_lines(ls: Seq<Str>) -> SavedView {
    ls.fold_left(blank_saved(), |s: SavedView, line: Str| saved_step(s, line))
}

/// What a text records.
pub open spec fn saved_of(text: Str) -> SavedView {
    saved_lines(lines(text))
}

proof fn lemma_saved_push(ls: Seq<Str>, i: int)
    requires
        0 <= i < ls.len(),
    ensures
        saved_lines(ls.take(i + 1)) == saved_step(saved_lines(ls.take(i)), ls[i]),
{
    assert(ls.take(i + 1).drop_last() =~= ls.take(i));
    assert(ls.take(i + 1).last() == ls[i]);
    reveal_with_fuel(Seq::fold_left, 2);
}

/// Adds every word of a list to a set.
fn add_words(set: &mut OptionSet, ws: Vec<String>)
    ensures
        final(set)@ == old(set)@.union(views(ws@).to_set()),
{
    let ghost was = set@;
    let mut i: usize = 0;
    assert(was.union(views(ws@).take(0).to_set()) =~= was);
    while i < ws.len()
        invariant
            i <= ws@.len(),
            set@ == was.union(views(ws@).take(i as int).to_set()),
        decreases ws@.len() - i,
    {
        let w = ws[i].clone();
        set.insert(w);
        proof {
            lemma_take_set(views(ws@), i as int);
            assert(views(ws@)[i as int] == ws@[i as int]@);
            assert(set@ =~= was.union(views(ws@).take(i + 1).to_set()));
        }
        i = i + 1;
    }
    assert(views(ws@).take(ws@.len() as int) =~= views(ws@));
}

impl SavedOptionsFile {
    /// Read an options file. Lines that are none of the four assignments
    /// (comments, other make syntax) are skipped.
    pub fn parse(text: &str) -> (r: Self)
        ensures
            r@ == saved_of(text@),
    {
        let ls = split_lines(text);
        let mut s = SavedOptionsFile {
            options_read: String::new(),
            complete: Vec::new(),
            set: SortedSet::new(),
            unset: SortedSet::new(),
        };
        let ghost v = views(ls@);
        assert(s@ =~= blank_saved());
        assert(v.take(0) =~= Seq::<Str>::empty());
        assert(saved_lines(v.take(0)) =~= blank_saved()) by {
            reveal_with_fuel(Seq::fold_left, 2);
        }
        let mut i: usize = 0;
        while i < ls.len()
            invariant
                i <= ls@.len(),
                v == views(ls@),
                s@ == saved_lines(v.take(i as int)),
            decreases ls@.len() - i,
        {
            let ghost was = s@;
            assert(v[i as int] == ls@[i as int]@);
            let t = strip(ls[i].as_str());
            if let Some(x) = strip_prefix(t.as_str(), "_OPTIONS_READ=") {
                s.options_read = strip(x.as_str());
            } else if let Some(x) = strip_prefix(t.as_str(), "_FILE_COMPLETE_OPTIONS_LIST=") {
                s.complete = split_words(x.as_str());
            } else if let Some(x) = strip_prefix(t.as_str(), "OPTIONS_FILE_SET+=") {
                add_words(&mut s.set, split_words(x.as_str()));
            } else if let Some(x) = strip_prefix(t.as_str(), "OPTIONS_FILE_UNSET+=") {
                add_words(&mut s.unset, split_words(x.as_str()));
            }
            proof {
                assert(s@ =~= saved_step(was, v[i as int]));
                lemma_saved_push(v, i as int);
            }
            i = i + 1;
        }
        assert(v.take(ls@.len() as int) =~= v);
        s
    }

    /// Whether the file takes any note of an option.
    pub fn knows(&self, opt: &str) -> (r: bool)
        ensures
            r == self@.knows(opt@),
    {
        crate::text::list_has(&self.complete, opt) || self.set.has(opt) || self.unset.has(opt)
    }
}

/// The line that records one option.
pub open spec fn option_entry(opt: Str, enabled: Set<Str>) -> Str {
    (if enabled.contains(opt) {
        "OPTIONS_FILE_SET+="@
    } else {
        "OPTIONS_FILE_UNSET+="@
    }) + opt
}

/// The lines of an options file: two comments, the package, the option list,
/// and each option of the list as on or off.
pub open spec fn file_lines(pkgname: Str, complete: Seq<Str>, enabled: Set<Str>) -> Seq<Str> {
    seq![
        "# This file is auto-generated by 'make config'."@,
        "# Options for "@ + pkgname,
        "_OPTIONS_READ="@ + pkgname,
        "_FILE_COMPLETE_OPTIONS_LIST="@ + join(complete, " "@),
    ] + complete.map_values(|o: Str| option_entry(o, enabled))
}

/// Lines as a text, each ended by a line feed.
pub open spec fn text_of(ls: Seq<Str>) -> Str
    decreases ls.len(),
{
    if ls.len() == 0 {
        Seq::empty()
    } else {
        text_of(ls.drop_last()) + ls.last() + "\n"@
    }
}

/// The options file of a port with the given options on.
pub open spec fn rendered(pkgname: Str, complete: Seq<Str>, enabled: Set<Str>) -> Str {
    text_of(file_lines(pkgname, complete, enabled))
}

/// The options file of a port with the given options on.
pub fn render(pkgname: &str, complete: &Vec<String>, enabled: &OptionSet) -> (r: String)
    ensures
        r@ == rendered(pkgname@, views(complete@), enabled@),
{
    let mut r = String::new();
    let ghost fl = file_lines(pkgname@, views(complete@), enabled@);
    r.append("# This file is auto-generated by 'make config'.");
    r.append("\n");
    r.append("# Options for ");
    r.append(pkgname);
    r.append("\n");
    r.append("_OPTIONS_READ=");
    r.append(pkgname);
    r.append("\n");
    let list = join_with(complete, " ");
    r.append("_FILE_COMPLETE_OPTIONS_LIST=");
    r.append(list.as_str());
    r.append("\n");
    proof {
        assert(fl.take(4).drop_last() =~= fl.take(3));
        assert(fl.take(3).drop_last() =~= fl.take(2));
        assert(fl.take(2).drop_last() =~= fl.take(1));
        assert(fl.take(1).drop_last() =~= Seq::<Str>::empty());
        reveal_with_fuel(text_of, 5);
        assert(r@ =~= text_of(fl.take(4)));
    }
    let mut i: usize = 0;
    while i < complete.len()
        invariant
            i <= complete@.len(),
            fl == file_lines(pkgname@, views(complete@), enabled@),
            r@ == text_of(fl.take(4 + i as int)),
        decreases complete@.len() - i,
    {
        if enabled.has(complete[i].as_str()) {
            r.append("OPTIONS_FILE_SET+=");
        } else {
            r.append("OPTIONS_FILE_UNSET+=");
        }
        r.append(complete[i].as_str());
        r.append("\n");
        proof {
            let k = 4 + i as int;
            assert(fl.take(k + 1).drop_last() =~= fl.take(k));
            assert(fl.take(k + 1).last() == option_entry(complete@[i as int]@, enabled@));
            assert(r@ =~= text_of(fl.take(k + 1)));
        }
        i = i + 1;
    }
    assert(fl.take(4 + complete@.len() as int) =~= fl);
    r
}

/// Whether a text is a word: not empty and without white space.
pub open spec fn is_word(s: Str) -> bool {
    s.len() > 0 && forall|i: int| 0 <= i < s.len() ==> !space(#[trigger] s[i])
}

/// Whether a line keeps its text in a file: no line feed in it, no carriage
/// return at its end.
spec fn plain_line(s: Str) -> bool {
    &&& forall|i: int| 0 <= i < s.len() ==> #[trigger] s[i] != '\n'
    &&& s.len() > 0 ==> s.last() != '\r'
}

proof fn lemma_text_lines(ls: Seq<Str>, rest: Str)
    requires
        forall|i: int| 0 <= i < ls.len() ==> plain_line(#[trigger] ls[i]),
    ensures
        lines(text_of(ls) + rest) == ls + lines(rest),
    decreases ls.len(),
{
    if ls.len() == 0 {
        assert(text_of(ls) + rest =~= rest);
        assert(ls + lines(rest) =~= lines(rest));
    } else {
        let d = ls.drop_last();
        let l = ls.last();
        let more = l + "\n"@ + rest;
        assert forall|i: int| 0 <= i < d.len() implies plain_line(#[trigger] d[i]) by {
            assert(d[i] == ls[i]);
        }
        lemma_text_lines(d, more);
        assert(text_of(ls) + rest =~= text_of(d) + more);
        assert(plain_line(ls[ls.len() - 1]));
        lemma_line(l, rest);
        assert(d + (seq![l] + lines(rest)) =~= ls + lines(rest));
    }
}

proof fn lemma_option_entries(complete: Seq<Str>, enabled: Set<Str>, base: Seq<Str>)
    requires
        forall|i: int| 0 <= i < complete.len() ==> is_word(#[trigger] complete[i]),
    ensures
        ({
            let was = saved_lines(base);
            let now = saved_lines(
                base + complete.map_values(|o: Str| option_entry(o, enabled)),
            );
            &&& now.options_read == was.options_read
            &&& now.complete == was.complete
            &&& now.set == was.set.union(complete.to_set().intersect(enabled))
            &&& now.unset == was.unset.union(complete.to_set().difference(enabled))
        }),
    decreases complete.len(),
{
    let f = |o: Str| option_entry(o, enabled);
    if complete.len() == 0 {
        assert(base + complete.map_values(f) =~= base);
        assert(saved_lines(base).set.union(complete.to_set().intersect(enabled)) =~= saved_lines(
            base,
        ).set);
        assert(saved_lines(base).unset.union(complete.to_set().difference(enabled))
            =~= saved_lines(base).unset);
    } else {
        let d = complete.drop_last();
        let o = complete.last();
        assert forall|i: int| 0 <= i < d.len() implies is_word(#[trigger] d[i]) by {
            assert(d[i] == complete[i]);
        }
        lemma_option_entries(d, enabled, base);
        let all = base + complete.map_values(f);
        let k = all.len() - 1;
        assert(all.take(k) =~= base + d.map_values(f));
        assert(all.take(k + 1) =~= all);
        assert(all[k] == option_entry(o, enabled));
        lemma_saved_push(all, k);
        assert(is_word(complete[complete.len() - 1]));
        lemma_entry(saved_lines(all.take(k)), o, enabled);
        assert(complete =~= d.push(o));
        assert(complete.to_set() =~= d.to_set().insert(o)) by {
            assert(complete.take(complete.len() - 1) =~= d);
            assert(complete.take(complete.len() as int) =~= complete);
            lemma_take_set(complete, complete.len() - 1);
        }
        let was = saved_lines(base);
        let now = saved_lines(all);
        assert(now.set =~= was.set.union(complete.to_set().intersect(enabled)));
        assert(now.unset =~= was.unset.union(complete.to_set().difference(enabled)));
    }
}

proof fn lemma_word_alone(o: Str)
    requires
        is_word(o),
    ensures
        words(o) == seq![o],
{
    lemma_words_join(seq![o]);
    assert(join(seq![o], " "@) == o);
}

proof fn lemma_prefixes()
    ensures
        "_OPTIONS_READ="@.len() > 0,
        "_OPTIONS_READ="@[0] == '_',
        "_OPTIONS_READ="@[1] == 'O',
        "_OPTIONS_READ="@.len() > 1,
        "_FILE_COMPLETE_OPTIONS_LIST="@.len() > 1,
        "_FILE_COMPLETE_OPTIONS_LIST="@[0] == '_',
        "_FILE_COMPLETE_OPTIONS_LIST="@[1] == 'F',
        "_OPTIONS_READ="@.last() == '=',
        "_FILE_COMPLETE_OPTIONS_LIST="@.last() == '=',
        "OPTIONS_FILE_SET+="@.len() > 13,
        "OPTIONS_FILE_SET+="@[0] == 'O',
        "OPTIONS_FILE_SET+="@[13] == 'S',
        "OPTIONS_FILE_UNSET+="@.len() > 13,
        "OPTIONS_FILE_UNSET+="@[0] == 'O',
        "OPTIONS_FILE_UNSET+="@[13] == 'U',
        plain_line("OPTIONS_FILE_SET+="@),
        plain_line("OPTIONS_FILE_UNSET+="@),
        plain_line("_OPTIONS_READ="@),
        plain_line("_FILE_COMPLETE_OPTIONS_LIST="@),
        plain_line("# Options for "@),
        plain_line("# This file is auto-generated by 'make config'."@),
        "# Options for "@.len() > 0,
        "# Options for "@[0] == '#',
        "# This file is auto-generated by 'make config'."@.len() > 0,
        "# This file is auto-generated by 'make config'."@[0] == '#',
        "# This file is auto-generated by 'make config'."@.last() == '.',
{
    reveal_strlit("_OPTIONS_READ=");
    reveal_strlit("_FILE_COMPLETE_OPTIONS_LIST=");
    reveal_strlit("OPTIONS_FILE_SET+=");
    reveal_strlit("OPTIONS_FILE_UNSET+=");
    reveal_strlit("# Options for ");
    reveal_strlit("# This file is auto-generated by 'make config'.");
}

proof fn lemma_entry(s: SavedView, o: Str, enabled: Set<Str>)
    requires
        is_word(o),
    ensures
        saved_step(s, option_entry(o, enabled)) == if enabled.contains(o) {
            SavedView { set: s.set.insert(o), ..s }
        } else {
            SavedView { unset: s.unset.insert(o), ..s }
        },
{
    lemma_prefixes();
    lemma_word_alone(o);
    let line = option_entry(o, enabled);
    assert(line[0] == 'O');
    assert(line.last() == o.last());
    assert(!space(o[o.len() - 1]));
    lemma_trim_clean(line);
    assert(seq![o].to_set() =~= set![o]) by {
        assert forall|x: Str| seq![o].to_set().contains(x) <==> x == o by {
            if x == o {
                assert(seq![o][0] == o);
            }
        }
    }
    lemma_not_starts(line, "_OPTIONS_READ="@, 0);
    lemma_not_starts(line, "_FILE_COMPLETE_OPTIONS_LIST="@, 0);
    if enabled.contains(o) {
        let p = "OPTIONS_FILE_SET+="@;
        assert(line.take(p.len() as int) =~= p);
        assert(line.skip(p.len() as int) =~= o);
        assert(s.set.union(set![o]) =~= s.set.insert(o));
    } else {
        let p = "OPTIONS_FILE_UNSET+="@;
        assert(line.take(p.len() as int) =~= p);
        assert(line.skip(p.len() as int) =~= o);
        assert(line[13] == 'U');
        lemma_not_starts(line, "OPTIONS_FILE_SET+="@, 13);
        assert(s.unset.union(set![o]) =~= s.unset.insert(o));
    }
}

proof fn lemma_not_starts(s: Str, p: Str, i: int)
    requires
        0 <= i < p.len(),
        i < s.len(),
        s[i] != p[i],
    ensures
        !starts(s, p),
{
    if starts(s, p) {
        assert(s.take(p.len() as int)[i] == s[i]);
    }
}

proof fn lemma_join_ends(c: Seq<Str>)
    requires
        c.len() > 0,
        forall|i: int| 0 <= i < c.len() ==> is_word(#[trigger] c[i]),
    ensures
        join(c, " "@).len() > 0,
        !space(join(c, " "@).last()),
        forall|i: int| 0 <= i < join(c, " "@).len() ==> #[trigger] join(c, " "@)[i] != '\n',
    decreases c.len(),
{
    reveal_strlit(" ");
    let j = join(c, " "@);
    assert(is_word(c[c.len() - 1]));
    let l = c.last();
    assert(j.last() == l.last());
    assert(!space(l[l.len() - 1]));
    if c.len() > 1 {
        let d = c.drop_last();
        assert forall|i: int| 0 <= i < d.len() implies is_word(#[trigger] d[i]) by {
            assert(d[i] == c[i]);
        }
        lemma_join_ends(d);
        let dj = join(d, " "@);
        assert forall|i: int| 0 <= i < j.len() implies #[trigger] j[i] != '\n' by {
            if i < dj.len() {
                assert(j[i] == dj[i]);
            } else if i > dj.len() {
                assert(j[i] == l[i - dj.len() - 1]);
                assert(!space(l[i - dj.len() - 1]));
            }
        }
    } else {
        assert forall|i: int| 0 <= i < j.len() implies #[trigger] j[i] != '\n' by {
            assert(!space(l[i]));
        }
    }
}

/// An options file records what it was rendered from: the package, the option
/// list, and every option of the list as on or off. Package names and options
/// are single words.
pub proof fn law_render_parse(pkgname: Str, complete: Seq<Str>, enabled: Set<Str>)
    requires
        is_word(pkgname),
        forall|i: int| 0 <= i < complete.len() ==> is_word(#[trigger] complete[i]),
    ensures
        saved_of(rendered(pkgname, complete, enabled)) == (SavedView {
            options_read: pkgname,
            complete,
            set: complete.to_set().intersect(enabled),
            unset: complete.to_set().difference(enabled),
        }),
{
    lemma_prefixes();
    let fl = file_lines(pkgname, complete, enabled);
    let head = fl.take(4);
    let f = |o: Str| option_entry(o, enabled);
    assert(!space(pkgname[pkgname.len() - 1]));
    let list = join(complete, " "@);
    if complete.len() > 0 {
        lemma_join_ends(complete);
    }
    lemma_file_plain(pkgname, complete, enabled);
    lemma_text_lines(fl, Seq::empty());
    assert(text_of(fl) + Seq::<char>::empty() =~= text_of(fl));
    assert(fl + lines(Seq::empty()) =~= fl);
    assert(fl =~= head + complete.map_values(f));
    lemma_option_entries(complete, enabled, head);
    // The four lines before the options.
    lemma_saved_push(head, 0);
    lemma_saved_push(head, 1);
    lemma_saved_push(head, 2);
    lemma_saved_push(head, 3);
    assert(head.take(4) =~= head);
    assert(head.take(0) =~= Seq::<Str>::empty());
    assert(saved_lines(head.take(0)) =~= blank_saved()) by {
        reveal_with_fuel(Seq::fold_left, 2);
    }
    lemma_comment(head[0]);
    assert(head[1].last() == pkgname.last());
    assert(head[1][0] == '#');
    lemma_comment(head[1]);
    let s2 = saved_lines(head.take(2));
    assert(s2 == blank_saved());
    let l2 = head[2];
    assert(l2[0] == '_');
    assert(l2.last() == pkgname.last());
    lemma_trim_clean(l2);
    assert(l2.take("_OPTIONS_READ="@.len() as int) =~= "_OPTIONS_READ="@);
    assert(l2.skip("_OPTIONS_READ="@.len() as int) =~= pkgname);
    assert(!space(pkgname[0]));
    lemma_trim_clean(pkgname);
    let l3 = head[3];
    let p3 = "_FILE_COMPLETE_OPTIONS_LIST="@;
    assert(l3[0] == '_');
    assert(l3[1] == p3[1]);
    if complete.len() > 0 {
        assert(l3.last() == list.last());
    } else {
        assert(l3 =~= p3);
    }
    lemma_trim_clean(l3);
    lemma_not_starts(l3, "_OPTIONS_READ="@, 1);
    assert(l3.take(p3.len() as int) =~= p3);
    assert(l3.skip(p3.len() as int) =~= list);
    lemma_words_join(complete);
    let h = saved_lines(head);
    assert(h.options_read == pkgname);
    assert(h.complete == complete);
    let now = saved_lines(fl);
    assert(h.set =~= Set::<Str>::empty());
    assert(now.set =~= complete.to_set().intersect(enabled));
    assert(now.unset =~= complete.to_set().difference(enabled));
}

/// Every line of an options file keeps its text.
proof fn lemma_file_plain(pkgname: Str, complete: Seq<Str>, enabled: Set<Str>)
    requires
        is_word(pkgname),
        forall|i: int| 0 <= i < complete.len() ==> is_word(#[trigger] complete[i]),
    ensures
        forall|i: int|
            0 <= i < file_lines(pkgname, complete, enabled).len() ==> plain_line(
                #[trigger] file_lines(pkgname, complete, enabled)[i],
            ),
{
    lemma_prefixes();
    let fl = file_lines(pkgname, complete, enabled);
    let list = join(complete, " "@);
    if complete.len() > 0 {
        lemma_join_ends(complete);
    }
    assert forall|i: int| 0 <= i < fl.len() implies plain_line(#[trigger] fl[i]) by {
        let s = fl[i];
        if i == 0 {
        } else if i == 1 {
            lemma_plain("# Options for "@, pkgname);
        } else if i == 2 {
            lemma_plain("_OPTIONS_READ="@, pkgname);
        } else if i == 3 {
            if complete.len() > 0 {
                let p = "_FILE_COMPLETE_OPTIONS_LIST="@;
                assert(s == p + list);
                assert(s.last() == list.last());
                assert forall|k: int| 0 <= k < s.len() implies #[trigger] s[k] != '\n' by {
                    if k < p.len() {
                        assert(s[k] == p[k]);
                    } else {
                        assert(s[k] == list[k - p.len()]);
                    }
                }
            } else {
                assert(s =~= "_FILE_COMPLETE_OPTIONS_LIST="@);
            }
        } else {
            let o = complete[i - 4];
            assert(s == option_entry(o, enabled));
            assert(is_word(o));
            if enabled.contains(o) {
                lemma_plain("OPTIONS_FILE_SET+="@, o);
            } else {
                lemma_plain("OPTIONS_FILE_UNSET+="@, o);
            }
        }
    }
}

proof fn lemma_plain(p: Str, w: Str)
    requires
        plain_line(p),
        is_word(w),
    ensures
        plain_line(p + w),
{
    let s = p + w;
    assert(s.last() == w[w.len() - 1]);
    assert(!space(w[w.len() - 1]));
    assert forall|k: int| 0 <= k < s.len() implies #[trigger] s[k] != '\n' by {
        if k < p.len() {
            assert(s[k] == p[k]);
        } else {
            assert(s[k] == w[k - p.len()]);
            assert(!space(w[k - p.len()]));
        }
    }
}

proof fn lemma_comment(line: Str)
    requires
        line.len() > 0,
        line[0] == '#',
        !space(line.last()),
    ensures
        forall|s: SavedView| #[trigger] saved_step(s, line) == s,
{
    lemma_prefixes();
    lemma_trim_clean(line);
    lemma_not_starts(line, "_OPTIONS_READ="@, 0);
    lemma_not_starts(line, "_FILE_COMPLETE_OPTIONS_LIST="@, 0);
    lemma_not_starts(line, "OPTIONS_FILE_SET+="@, 0);
    lemma_not_starts(line, "OPTIONS_FILE_UNSET+="@, 0);
}

/// What one line adds to what a file records: an assignment replaces the package
/// or the option list, an addition adds its words as on or as off, and a comment
/// changes nothing.
pub proof fn law_saved_line(text: Str, line: Str, value: Str)
    requires
        line_ended(text),
        forall|i: int| 0 <= i < line.len() ==> #[trigger] line[i] != '\n',
        value.len() > 0 ==> !space(value.last()),
    ensures
        ({
            let before = saved_of(text);
            let after = saved_of(text + line + "\n"@);
            let given = Set::new(|x: Str| words(value).contains(x));
            &&& line == "_OPTIONS_READ="@ + value ==> after == (SavedView {
                options_read: trim(value),
                ..before
            })
            &&& line == "_FILE_COMPLETE_OPTIONS_LIST="@ + value ==> after == (SavedView {
                complete: words(value),
                ..before
            })
            &&& line == "OPTIONS_FILE_SET+="@ + value ==> after == (SavedView {
                set: before.set.union(given),
                ..before
            })
            &&& line == "OPTIONS_FILE_UNSET+="@ + value ==> after == (SavedView {
                unset: before.unset.union(given),
                ..before
            })
            &&& line == "#"@ + value ==> after == before
        }),
{
    lemma_prefixes();
    reveal_strlit("#");
    let s = saved_of(text);
    let given = Set::new(|x: Str| words(value).contains(x));
    assert(words(value).to_set() =~= given);
    let ls = lines(text).push(line);
    assert(ls.take(ls.len() - 1) =~= lines(text));
    assert(ls.take(ls.len() as int) =~= ls);
    lemma_saved_push(ls, ls.len() - 1);
    if line == "_OPTIONS_READ="@ + value {
        let p = "_OPTIONS_READ="@;
        lemma_assigned(p, value, line);
        lemma_lines_push(text, line);
        assert(line.skip(p.len() as int) =~= value);
        assert(line.take(p.len() as int) =~= p);
    } else if line == "_FILE_COMPLETE_OPTIONS_LIST="@ + value {
        let p = "_FILE_COMPLETE_OPTIONS_LIST="@;
        lemma_assigned(p, value, line);
        lemma_lines_push(text, line);
        assert(line.skip(p.len() as int) =~= value);
        assert(line.take(p.len() as int) =~= p);
        assert(line[1] == p[1]);
        lemma_not_starts(line, "_OPTIONS_READ="@, 1);
    } else if line == "OPTIONS_FILE_SET+="@ + value {
        let p = "OPTIONS_FILE_SET+="@;
        assert(p.last() == '=') by {
            reveal_strlit("OPTIONS_FILE_SET+=");
        }
        lemma_assigned(p, value, line);
        lemma_lines_push(text, line);
        assert(line.skip(p.len() as int) =~= value);
        assert(line.take(p.len() as int) =~= p);
        assert(line[0] == p[0]);
        lemma_not_starts(line, "_OPTIONS_READ="@, 0);
        lemma_not_starts(line, "_FILE_COMPLETE_OPTIONS_LIST="@, 0);
    } else if line == "OPTIONS_FILE_UNSET+="@ + value {
        let p = "OPTIONS_FILE_UNSET+="@;
        assert(p.last() == '=') by {
            reveal_strlit("OPTIONS_FILE_UNSET+=");
        }
        lemma_assigned(p, value, line);
        lemma_lines_push(text, line);
        assert(line.skip(p.len() as int) =~= value);
        assert(line.take(p.len() as int) =~= p);
        assert(line[0] == p[0] && line[13] == p[13]);
        lemma_not_starts(line, "_OPTIONS_READ="@, 0);
        lemma_not_starts(line, "_FILE_COMPLETE_OPTIONS_LIST="@, 0);
        lemma_not_starts(line, "OPTIONS_FILE_SET+="@, 13);
    } else if line == "#"@ + value {
        lemma_assigned("#"@, value, line);
        lemma_lines_push(text, line);
        assert(line[0] == '#');
        lemma_comment(line);
        assert(saved_step(s, line) == s);
    }
}

/// A line that begins with a prefix and ends in a clean value has no white space
/// around it.
proof fn lemma_assigned(p: Str, value: Str, line: Str)
    requires
        p.len() > 0,
        !space(p[0]),
        !space(p.last()),
        value.len() > 0 ==> !space(value.last()),
        line == p + value,
    ensures
        trim(line) == line,
        line.last() != '\r',
        line.len() > 0,
        !space(line.last()),
{
    assert(line[0] == p[0]);
    if value.len() > 0 {
        assert(line.last() == value.last());
    } else {
        assert(line =~= p);
    }
    lemma_trim_clean(line);
}

/// The lines of an options file as it is written: two comments, the package, the
/// option list, and then each option of the list, in its order, as on or off.
pub proof fn law_rendered_lines(pkgname: Str, complete: Seq<Str>, enabled: Set<Str>, i: int)
    requires
        is_word(pkgname),
        forall|j: int| 0 <= j < complete.len() ==> is_word(#[trigger] complete[j]),
    ensures
        ({
            let ls = lines(rendered(pkgname, complete, enabled));
            &&& ls.len() == 4 + complete.len()
            &&& ls[0] == "# This file is auto-generated by 'make config'."@
            &&& ls[1] == "# Options for "@ + pkgname
            &&& ls[2] == "_OPTIONS_READ="@ + pkgname
            &&& ls[3] == "_FILE_COMPLETE_OPTIONS_LIST="@ + join(complete, " "@)
            &&& 0 <= i < complete.len() && enabled.contains(complete[i]) ==> ls[4 + i]
                == "OPTIONS_FILE_SET+="@ + complete[i]
            &&& 0 <= i < complete.len() && !enabled.contains(complete[i]) ==> ls[4 + i]
                == "OPTIONS_FILE_UNSET+="@ + complete[i]
        }),
{
    let fl = file_lines(pkgname, complete, enabled);
    lemma_file_plain(pkgname, complete, enabled);
    lemma_text_lines(fl, Seq::empty());
    assert(text_of(fl) + Seq::<char>::empty() =~= text_of(fl));
    assert(fl + lines(Seq::empty()) =~= fl);
}

} // verus!
