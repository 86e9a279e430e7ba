//! Drafts: staged edits kept across runs.
use vstd::prelude::*;

use crate::cache::{hash_text, text_hash};
use crate::model::options::OptionSet;
use crate::order::Duplicate;
use crate::path::{join_path, joined};
use crate::session::base::{Session, SessionView};
use crate::session::edit::{draft_owner, draft_staged, edited, restored};
use crate::sorted::{lemma_ordered, lemma_take_set, ordered, SortedMap};
use crate::text::{decimal, from_chars, glue, number, owned, to_chars, Str};

verus! {

/// A saved set of staged edits, keyed by options dir.
///
/// Written when quitting the TUI with unapplied edits, read back on the next
/// launch against the same options dir. Only the *intent* (which options are
/// enabled) is stored — never the port list or the baseline, so a draft stays
/// usable after the ports tree moves on; entries that no longer exist are
/// dropped at restore time.
pub struct Draft {
    pub options_dir: String,
    pub saved_at_secs: u64,
    /// OPTIONS_NAME -> enabled option set.
    pub staged: SortedMap<String, OptionSet>,
}

/// The staged sets of a session's edited states.
pub open spec fn drafted(v: SessionView) -> Map<Str, Set<Str>> {
    Map::new(
        |n: Str| v.states.dom().contains(n) && edited(v.states[n]),
        |n: Str| v.states[n].staged,
    )
}

impl Draft {
    /// The draft of a session's edits: its dirty staged sets.
    pub fn of(session: &Session, options_dir: &str, now_secs: u64) -> (r: Self)
        ensures
            r.options_dir@ == options_dir@,
            r.saved_at_secs == now_secs,
            r.staged@ == drafted(session@),
    {
        let ghost all = drafted(session@);
        let n = session.states.len();
        let ghost q = ordered::<String>(session@.states.dom());
        proof {
            lemma_ordered::<String>(session@.states.dom());
            assert(all.restrict(q.take(0).to_set()) =~= Map::<Str, Set<Str>>::empty());
        }
        let mut staged: SortedMap<String, OptionSet> = SortedMap::new();
        let mut i: usize = 0;
        while i < n
            invariant
                i <= n,
                n == q.len(),
                q == ordered::<String>(session@.states.dom()),
                all == drafted(session@),
                staged@ == all.restrict(q.take(i as int).to_set()),
            decreases n - i,
        {
            let name = session.states.key_at(i);
            let state = session.states.value_at(i);
            if !state.staged.equals(&state.baseline) {
                staged.insert(name.clone(), state.staged.duplicate());
            }
            proof {
                lemma_take_set(q, i as int);
                assert(staged@ =~= all.restrict(q.take(i + 1).to_set()));
            }
            i = i + 1;
        }
        proof {
            assert(q.take(n as int) =~= q);
            assert(all.restrict(session@.states.dom()) =~= all);
        }
        Draft { options_dir: owned(options_dir), saved_at_secs: now_secs, staged }
    }

    /// Seconds since the draft was written (0 if the clock went backwards).
    pub fn age_secs(&self, now_secs: u64) -> (r: u64)
        ensures
            r == if now_secs >= self.saved_at_secs {
                now_secs - self.saved_at_secs
            } else {
                0
            },
    {
        if now_secs >= self.saved_at_secs {
            now_secs - self.saved_at_secs
        } else {
            0
        }
    }
}

/// Restoring the draft of a session brings its edits back: a later session over
/// the same ports and files stages, for every options file that was edited,
/// what was staged then, as far as the owner still has the options; the others
/// keep what they have.
pub proof fn law_draft_round_trip(v: SessionView, w: SessionView, name: Str)
    requires
        w.states.dom().contains(name),
        v.states.dom().contains(name),
        draft_owner(w, name) is Some,
    ensures
        edited(v.states[name]) ==> restored(w, drafted(v)).states[name].staged == draft_staged(
            draft_owner(w, name)->0,
            v.states[name].staged,
        ),
        edited(v.states[name]) && v.states[name].staged.subset_of(
            (draft_owner(w, name)->0).options.complete.to_set(),
        ) ==> restored(w, drafted(v)).states[name].staged == v.states[name].staged,
        !edited(v.states[name]) ==> restored(w, drafted(v)).states[name] == w.states[name],
{
    let known = (draft_owner(w, name)->0).options.complete.to_set();
    if v.states[name].staged.subset_of(known) {
        assert(v.states[name].staged.intersect(known) =~= v.states[name].staged);
    }
}

/// Where the draft of an options dir is kept.
pub open spec fn draft_path(cache_dir: Str, options_dir: Str) -> Str {
    joined(joined(cache_dir, "drafts"@), text_hash(options_dir).take(16) + ".json"@)
}

/// cache_dir/drafts/<sha256(options_dir)[..16]>.json
///
/// The dir string is hashed as given: the TUI always gets the same configured
/// path, and hashing avoids escaping separators in a filename.
pub fn draft_path_in(cache_dir: &str, options_dir: &str) -> (r: String)
    ensures
        r@ == draft_path(cache_dir@, options_dir@),
{
    let digest = hash_text(options_dir);
    let cs = to_chars(digest.as_str());
    let head = from_chars(&cs, 0, 16);
    assert(head@ =~= text_hash(options_dir@).take(16));
    let name = glue(head.as_str(), ".json");
    let dir = join_path(cache_dir, "drafts");
    join_path(dir.as_str(), name.as_str())
}

/// The label of an age.
pub open spec fn age_text(secs: nat) -> Str {
    if secs / 60 < 60 {
        decimal(secs / 60) + "m ago"@
    } else if secs / 3600 < 48 {
        decimal(secs / 3600) + "h ago"@
    } else {
        decimal(secs / 86400) + "d ago"@
    }
}

/// Coarse "how old is this draft" label: minutes under an hour, hours under
/// two days, days beyond.
pub fn age_label(secs: u64) -> (r: String)
    ensures
        r@ == age_text(secs as nat),
{
    let mins = secs / 60;
    if mins < 60 {
        let n = number(mins);
        return glue(n.as_str(), "m ago");
    }
    let hours = secs / 3600;
    if hours < 48 {
        let n = number(hours);
        return glue(n.as_str(), "h ago");
    }
    let n = number(secs / 86400);
    glue(n.as_str(), "d ago")
}

/// An age is told in whole minutes below an hour, in whole hours below two days,
/// and in whole days from there on.
pub proof fn law_age(minutes: nat, hours: nat, days: nat, rest: nat)
    ensures
        minutes < 60 && rest < 60 ==> age_text(60 * minutes + rest) == decimal(minutes)
            + "m ago"@,
        1 <= hours < 48 && rest < 3600 ==> age_text(3600 * hours + rest) == decimal(hours)
            + "h ago"@,
        2 <= days && rest < 86400 ==> age_text(86400 * days + rest) == decimal(days) + "d ago"@,
{
}

} // verus!
