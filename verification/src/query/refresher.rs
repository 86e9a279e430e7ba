//! Background refreshes: which requests one scan answers.
use vstd::prelude::*;

use crate::model::origin::{KeyView, PortKey};
use crate::order::duplicate_list;
use crate::query::scanner::{ResultView, ScanResult};
use crate::text::views;

verus! {

/// Events streamed back to the UI while a background refresh runs.
pub enum RefreshEvent {
    Progress { done: usize, discovered: usize },
    /// One scan finished; `batches` says how many submitted request batches
    /// it covered (queued requests are coalesced into a single scan).
    Done { result: ScanResult, batches: usize },
}

pub enum EventView {
    Progress { done: usize, discovered: usize },
    Done { result: ResultView, batches: usize },
}

impl View for RefreshEvent {
    type V = EventView;

    open spec fn view(&self) -> EventView {
        match *self {
            RefreshEvent::Progress { done, discovered } => EventView::Progress {
                done,
                discovered,
            },
            RefreshEvent::Done { result, batches } => EventView::Done {
                result: result@,
                batches,
            },
        }
    }
}

/// The ports of several batches, in order.
pub open spec fn all_roots(batches: Seq<Vec<PortKey>>) -> Seq<KeyView>
    decreases batches.len(),
{
    if batches.len() == 0 {
        Seq::empty()
    } else {
        all_roots(batches.drop_last()) + views(batches.last()@)
    }
}

/// Coalesce queued-up requests into one scan, counting them so the UI's
/// outstanding-batch counter stays balanced.
pub fn coalesce(batches: &Vec<Vec<PortKey>>) -> (r: (Vec<PortKey>, usize))
    ensures
        views(r.0@) == all_roots(batches@),
        r.1 == batches@.len(),
{
    let mut roots: Vec<PortKey> = Vec::new();
    let mut i: usize = 0;
    assert(batches@.take(0) =~= Seq::<Vec<PortKey>>::empty());
    assert(views(roots@) =~= all_roots(batches@.take(0)));
    while i < batches.len()
        invariant
            i <= batches@.len(),
            views(roots@) == all_roots(batches@.take(i as int)),
        decreases batches@.len() - i,
    {
        proof {
            crate::list::lemma_take_one(batches@, i as int);
        }
        let mut more = duplicate_list(&batches[i]);
        let ghost a = views(roots@);
        let ghost b = views(more@);
        roots.append(&mut more);
        assert(views(roots@) =~= a + b);
        i = i + 1;
    }
    assert(batches@.take(batches@.len() as int) =~= batches@);
    (roots, batches.len())
}

/// One scan answers all that was asked for: every port of every batch is among
/// its roots, and nothing else is.
pub proof fn law_coalesced(batches: Seq<Vec<PortKey>>, k: KeyView)
    ensures
        all_roots(batches).contains(k) <==> exists|i: int|
            0 <= i < batches.len() && views((#[trigger] batches[i])@).contains(k),
    decreases batches.len(),
{
    if batches.len() > 0 {
        let d = batches.drop_last();
        let a = all_roots(d);
        let b = views(batches.last()@);
        let all = all_roots(batches);
        law_coalesced(d, k);
        assert(batches[batches.len() - 1] == batches.last());
        if all.contains(k) {
            let i = choose|i: int| 0 <= i < all.len() && all[i] == k;
            if i < a.len() {
                assert(a[i] == k);
                let j = choose|j: int| 0 <= j < d.len() && views((#[trigger] d[j])@).contains(k);
                assert(batches[j] == d[j]);
            } else {
                assert(b[i - a.len()] == k);
                assert(b.contains(k));
            }
        }
        if exists|i: int| 0 <= i < batches.len() && views((#[trigger] batches[i])@).contains(k) {
            let i = choose|i: int|
                0 <= i < batches.len() && views((#[trigger] batches[i])@).contains(k);
            if i < d.len() {
                assert(d[i] == batches[i]);
                assert(a.contains(k));
                let j = choose|j: int| 0 <= j < a.len() && a[j] == k;
                assert(all[j] == k);
            } else {
                let j = choose|j: int| 0 <= j < b.len() && b[j] == k;
                assert(all[a.len() + j] == k);
            }
        }
    }
}

} // verus!
