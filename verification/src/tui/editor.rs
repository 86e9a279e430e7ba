//! The options editor: its rows and its cursor.
use vstd::prelude::*;

use crate::list::{lemma_filter_none, lemma_filter_one};
use crate::model::options::{OptionGroup, OptionSet, OptionsView, PortOptions};
use crate::model::port::{InfoView, PortInfo};
use crate::optionsfile::{SavedOptionsFile, SavedView};
use crate::session::base::{Session, SessionView};
use crate::sorted::{ordered, SortedSet};
use crate::text::{list_has, same, views, Str};

verus! {

/// One navigable line of the options editor.
#[derive(Debug, PartialEq, Eq)]
pub enum EditorRow {
    GroupHeader(usize),
    /// Option name; selectable.
    Option(String),
    ExcludedHeader,
    /// Option of the default flavor that this flavor excludes; not selectable.
    Excluded(String),
    ObsoleteHeader,
    /// Option known only to the saved file; not selectable.
    Obsolete(String),
}

#[verifier::ext_equal]
pub enum EditorRowView {
    GroupHeader(nat),
    Option(Str),
    ExcludedHeader,
    Excluded(Str),
    ObsoleteHeader,
    Obsolete(Str),
}

impl View for EditorRow {
    type V = EditorRowView;

    open spec fn view(&self) -> EditorRowView {
        match *self {
            EditorRow::GroupHeader(i) => EditorRowView::GroupHeader(i as nat),
            EditorRow::Option(o) => EditorRowView::Option(o@),
            EditorRow::ExcludedHeader => EditorRowView::ExcludedHeader,
            EditorRow::Excluded(o) => EditorRowView::Excluded(o@),
            EditorRow::ObsoleteHeader => EditorRowView::ObsoleteHeader,
            EditorRow::Obsolete(o) => EditorRowView::Obsolete(o@),
        }
    }
}

// ---------------------------------------------------------------------
// Rows
// ---------------------------------------------------------------------

/// Whether some group of a port holds an option.
pub open spec fn in_group(o: OptionsView, opt: Str) -> bool {
    exists|i: int| 0 <= i < o.groups.len() && (#[trigger] o.groups[i]).members.contains(opt)
}

/// The options of a list that stand in no group.
pub open spec fn ungrouped(o: OptionsView) -> spec_fn(Str) -> bool {
    |opt: Str| !in_group(o, opt)
}

/// Whether a port has an option.
pub open spec fn offered(o: OptionsView) -> spec_fn(Str) -> bool {
    |opt: Str| o.complete.contains(opt)
}

/// Whether a port lacks an option.
pub open spec fn lacking(o: OptionsView) -> spec_fn(Str) -> bool {
    |opt: Str| !o.complete.contains(opt)
}

/// Rows of selectable options.
pub open spec fn as_options(opts: Seq<Str>) -> Seq<EditorRowView> {
    opts.map_values(|o: Str| EditorRowView::Option(o))
}

/// Rows of excluded options.
pub open spec fn as_excluded(opts: Seq<Str>) -> Seq<EditorRowView> {
    opts.map_values(|o: Str| EditorRowView::Excluded(o))
}

/// Rows of obsolete options.
pub open spec fn as_obsolete(opts: Seq<Str>) -> Seq<EditorRowView> {
    opts.map_values(|o: Str| EditorRowView::Obsolete(o))
}

/// The rows of the first `n` groups: each with a header, and none for a group
/// of which the port has no option.
pub open spec fn group_rows(o: OptionsView, n: nat) -> Seq<EditorRowView>
    decreases n,
{
    if n == 0 {
        Seq::empty()
    } else {
        let before = group_rows(o, (n - 1) as nat);
        let members = o.groups[n - 1].members.filter(offered(o));
        if members.len() == 0 {
            before
        } else {
            before.push(EditorRowView::GroupHeader((n - 1) as nat)) + as_options(members)
        }
    }
}

/// The options that the owner of the options file has and a port has not.
pub open spec fn excluded(o: OptionsView, owner: OptionsView) -> Seq<Str> {
    owner.complete.filter(lacking(o))
}

/// The options that only the saved file knows.
pub open spec fn obsolete(o: OptionsView, owner: OptionsView, saved: SavedView) -> Set<Str> {
    saved.complete.to_set().union(saved.set).union(saved.unset).difference(
        o.complete.to_set(),
    ).difference(owner.complete.to_set())
}

/// Rows under a header, and no header without rows.
pub open spec fn section(header: EditorRowView, rows: Seq<EditorRowView>) -> Seq<EditorRowView> {
    if rows.len() == 0 {
        Seq::empty()
    } else {
        seq![header] + rows
    }
}

/// The rows of a port: top-level options in framework order, then each group,
/// then what this flavor excludes, then what only the saved file knows.
pub open spec fn rows_of(
    o: OptionsView,
    owner: OptionsView,
    saved: Option<SavedView>,
) -> Seq<EditorRowView> {
    as_options(o.complete.filter(ungrouped(o))) + group_rows(o, o.groups.len()) + section(
        EditorRowView::ExcludedHeader,
        as_excluded(excluded(o, owner)),
    ) + section(
        EditorRowView::ObsoleteHeader,
        match saved {
            Some(s) => as_obsolete(ordered::<String>(obsolete(o, owner, s))),
            None => Seq::empty(),
        },
    )
}

/// The rows of a port of a session.
pub open spec fn port_rows(v: SessionView, info: InfoView) -> Seq<EditorRowView> {
    rows_of(
        info.options,
        v.owner(info).options,
        match v.state_of(info) {
            Some(st) => st.saved,
            None => None,
        },
    )
}

fn has_group(o: &PortOptions, opt: &str) -> (r: bool)
    ensures
        r == in_group(o@, opt@),
{
    let mut i: usize = 0;
    while i < o.groups.len()
        invariant
            i <= o.groups@.len(),
            forall|j: int| 0 <= j < i ==> !(#[trigger] o@.groups[j]).members.contains(opt@),
        decreases o.groups@.len() - i,
    {
        assert(o@.groups[i as int] == o.groups@[i as int]@);
        if list_has(&o.groups[i].members, opt) {
            return true;
        }
        i = i + 1;
    }
    false
}

fn top_rows(o: &PortOptions) -> (r: Vec<EditorRow>)
    ensures
        views(r@) == as_options(o@.complete.filter(ungrouped(o@))),
{
    let ghost v = o@.complete;
    let ghost p = ungrouped(o@);
    let mut r: Vec<EditorRow> = Vec::new();
    let mut i: usize = 0;
    proof {
        lemma_filter_none(v, p);
        assert(views(r@) =~= as_options(v.take(0).filter(p)));
    }
    while i < o.complete.len()
        invariant
            i <= o.complete@.len(),
            v == o@.complete,
            p == ungrouped(o@),
            views(r@) == as_options(v.take(i as int).filter(p)),
        decreases o.complete@.len() - i,
    {
        proof {
            lemma_filter_one(v, i as int, p);
            assert(v[i as int] == o.complete@[i as int]@);
        }
        if !has_group(o, o.complete[i].as_str()) {
            let ghost was = views(r@);
            let row = EditorRow::Option(o.complete[i].clone());
            r.push(row);
            assert(views(r@) =~= was.push(row@));
            assert(views(r@) =~= as_options(v.take(i + 1).filter(p)));
        }
        i = i + 1;
    }
    assert(v.take(v.len() as int) =~= v);
    r
}

/// The members of a group that a port has.
fn offered_members(o: &PortOptions, g: &OptionGroup) -> (r: Vec<EditorRow>)
    ensures
        views(r@) == as_options(g@.members.filter(offered(o@))),
{
    let ghost v = g@.members;
    let ghost p = offered(o@);
    let mut r: Vec<EditorRow> = Vec::new();
    let mut i: usize = 0;
    proof {
        lemma_filter_none(v, p);
        assert(views(r@) =~= as_options(v.take(0).filter(p)));
    }
    while i < g.members.len()
        invariant
            i <= g.members@.len(),
            v == g@.members,
            p == offered(o@),
            views(r@) == as_options(v.take(i as int).filter(p)),
        decreases g.members@.len() - i,
    {
        proof {
            lemma_filter_one(v, i as int, p);
            assert(v[i as int] == g.members@[i as int]@);
        }
        if list_has(&o.complete, g.members[i].as_str()) {
            let ghost was = views(r@);
            let row = EditorRow::Option(g.members[i].clone());
            r.push(row);
            assert(views(r@) =~= was.push(row@));
            assert(views(r@) =~= as_options(v.take(i + 1).filter(p)));
        }
        i = i + 1;
    }
    assert(v.take(v.len() as int) =~= v);
    r
}

fn push_groups(o: &PortOptions, out: &mut Vec<EditorRow>)
    ensures
        views(final(out)@) == views(old(out)@) + group_rows(o@, o@.groups.len()),
{
    let ghost start = views(out@);
    let mut i: usize = 0;
    assert(start + group_rows(o@, 0) =~= start);
    while i < o.groups.len()
        invariant
            i <= o.groups@.len(),
            views(out@) == start + group_rows(o@, i as nat),
        decreases o.groups@.len() - i,
    {
        assert(o@.groups[i as int] == o.groups@[i as int]@);
        let mut rows = offered_members(o, &o.groups[i]);
        let ghost was = views(out@);
        let ghost members = views(rows@);
        if rows.len() > 0 {
            out.push(EditorRow::GroupHeader(i));
            assert(views(out@) =~= was.push(EditorRowView::GroupHeader(i as nat)));
            out.append(&mut rows);
            assert(views(out@) =~= was.push(EditorRowView::GroupHeader(i as nat)) + members);
        }
        i = i + 1;
        assert(views(out@) =~= start + group_rows(o@, i as nat));
    }
}

fn excluded_rows(o: &PortOptions, owner: &PortOptions) -> (r: Vec<EditorRow>)
    ensures
        views(r@) == as_excluded(excluded(o@, owner@)),
{
    let ghost v = owner@.complete;
    let ghost p = lacking(o@);
    let mut r: Vec<EditorRow> = Vec::new();
    let mut i: usize = 0;
    proof {
        lemma_filter_none(v, p);
        assert(views(r@) =~= as_excluded(v.take(0).filter(p)));
    }
    while i < owner.complete.len()
        invariant
            i <= owner.complete@.len(),
            v == owner@.complete,
            p == lacking(o@),
            views(r@) == as_excluded(v.take(i as int).filter(p)),
        decreases owner.complete@.len() - i,
    {
        proof {
            lemma_filter_one(v, i as int, p);
            assert(v[i as int] == owner.complete@[i as int]@);
        }
        if !list_has(&o.complete, owner.complete[i].as_str()) {
            let ghost was = views(r@);
            let row = EditorRow::Excluded(owner.complete[i].clone());
            r.push(row);
            assert(views(r@) =~= was.push(row@));
            assert(views(r@) =~= as_excluded(v.take(i + 1).filter(p)));
        }
        i = i + 1;
    }
    assert(v.take(v.len() as int) =~= v);
    r
}

fn obsolete_rows(o: &PortOptions, owner: &PortOptions, saved: &SavedOptionsFile) -> (r: Vec<
    EditorRow,
>)
    ensures
        views(r@) == as_obsolete(ordered::<String>(obsolete(o@, owner@, saved@))),
{
    let mut names: OptionSet = SortedSet::from_list(&saved.complete);
    names.absorb(&saved.set);
    names.absorb(&saved.unset);
    let mine = SortedSet::from_list(&o.complete);
    let theirs = SortedSet::from_list(&owner.complete);
    names.drop_all(&mine);
    names.drop_all(&theirs);
    assert(names@ =~= obsolete(o@, owner@, saved@));
    let list = names.to_list();
    let ghost v = views(list@);
    let mut r: Vec<EditorRow> = Vec::new();
    let mut i: usize = 0;
    assert(views(r@) =~= as_obsolete(v.take(0)));
    while i < list.len()
        invariant
            i <= list@.len(),
            v == views(list@),
            views(r@) == as_obsolete(v.take(i as int)),
        decreases list@.len() - i,
    {
        let ghost was = views(r@);
        let row = EditorRow::Obsolete(list[i].clone());
        r.push(row);
        proof {
            assert(v[i as int] == list@[i as int]@);
            assert(views(r@) =~= was.push(row@));
            assert(views(r@) =~= as_obsolete(v.take(i + 1)));
        }
        i = i + 1;
    }
    assert(v.take(v.len() as int) =~= v);
    r
}

fn push_section(out: &mut Vec<EditorRow>, header: EditorRow, rows: Vec<EditorRow>)
    ensures
        views(final(out)@) == views(old(out)@) + section(header@, views(rows@)),
{
    let ghost was = views(out@);
    let ghost more = views(rows@);
    let mut rows = rows;
    if rows.len() > 0 {
        out.push(header);
        assert(views(out@) =~= was.push(header@));
        out.append(&mut rows);
    }
    assert(views(out@) =~= was + section(header@, more));
}

/// The editor rows of a port.
pub fn editor_rows(session: &Session, info: &PortInfo) -> (r: Vec<EditorRow>)
    ensures
        views(r@) == port_rows(session@, info@),
{
    let owner = session.owner_info(info);
    let mut r = top_rows(&info.options);
    push_groups(&info.options, &mut r);
    push_section(
        &mut r,
        EditorRow::ExcludedHeader,
        excluded_rows(&info.options, &owner.options),
    );
    let gone = match session.state(info) {
        Some(state) => match &state.saved {
            Some(saved) => obsolete_rows(&info.options, &owner.options, saved),
            None => Vec::new(),
        },
        None => Vec::new(),
    };
    proof {
        let saved = match session@.state_of(info@) {
            Some(st) => st.saved,
            None => None,
        };
        if saved is None {
            assert(views(gone@) =~= Seq::<EditorRowView>::empty());
        }
    }
    push_section(&mut r, EditorRow::ObsoleteHeader, gone);
    r
}

// ---------------------------------------------------------------------
// Cursor
// ---------------------------------------------------------------------

/// Whether the cursor can stand on a row.
pub open spec fn selectable(row: EditorRowView) -> bool {
    row is Option
}

/// The first row from an index on that the cursor can stand on.
pub open spec fn next_option(rows: Seq<EditorRowView>, from: int) -> Option<nat>
    decreases rows.len() - from,
{
    if from < 0 || from >= rows.len() {
        None
    } else if selectable(rows[from]) {
        Some(from as nat)
    } else {
        next_option(rows, from + 1)
    }
}

/// The last row up to an index that the cursor can stand on.
pub open spec fn previous_option(rows: Seq<EditorRowView>, from: int) -> Option<nat>
    decreases from + 1,
{
    if from < 0 || from >= rows.len() {
        None
    } else if selectable(rows[from]) {
        Some(from as nat)
    } else {
        previous_option(rows, from - 1)
    }
}

/// Where the cursor goes when it goes to the first option.
pub open spec fn first_option(rows: Seq<EditorRowView>) -> nat {
    match next_option(rows, 0) {
        Some(i) => i,
        None => 0,
    }
}

/// Where the cursor goes one option down or up; it stays put at the edges.
pub open spec fn moved_cursor(rows: Seq<EditorRowView>, at: nat, down: bool) -> nat {
    match if down {
        next_option(rows, at as int + 1)
    } else {
        previous_option(rows, at - 1)
    } {
        Some(i) => i,
        None => at,
    }
}

/// The row of an option, from an index on.
pub open spec fn row_of_option(rows: Seq<EditorRowView>, opt: Str, from: int) -> Option<nat>
    decreases rows.len() - from,
{
    if from < 0 || from >= rows.len() {
        None
    } else if rows[from] == EditorRowView::Option(opt) {
        Some(from as nat)
    } else {
        row_of_option(rows, opt, from + 1)
    }
}

/// The option under the cursor.
pub open spec fn option_at(rows: Seq<EditorRowView>, at: nat) -> Option<Str> {
    if at < rows.len() {
        match rows[at as int] {
            EditorRowView::Option(o) => Some(o),
            _ => None,
        }
    } else {
        None
    }
}

/// Where the cursor stands once rows were rebuilt: on the option it stood on
/// where that is still there, else on the first.
pub open spec fn kept_cursor(rows: Seq<EditorRowView>, was: Option<Str>) -> nat {
    match was {
        Some(o) => match row_of_option(rows, o, 0) {
            Some(i) => i,
            None => first_option(rows),
        },
        None => first_option(rows),
    }
}

/// The option under the cursor.
pub fn current_option(rows: &Vec<EditorRow>, at: usize) -> (r: Option<String>)
    ensures
        crate::text::opt_view(r) == option_at(views(rows@), at as nat),
{
    if at < rows.len() {
        assert(views(rows@)[at as int] == rows@[at as int]@);
        match &rows[at] {
            EditorRow::Option(o) => Some(o.clone()),
            _ => None,
        }
    } else {
        None
    }
}

fn is_selectable(row: &EditorRow) -> (r: bool)
    ensures
        r == selectable(row@),
{
    match row {
        EditorRow::Option(_) => true,
        _ => false,
    }
}

/// The first row with an option.
pub fn select_first(rows: &Vec<EditorRow>) -> (r: usize)
    ensures
        r == first_option(views(rows@)),
{
    let ghost v = views(rows@);
    let mut i: usize = 0;
    while i < rows.len()
        invariant
            i <= rows@.len(),
            v == views(rows@),
            next_option(v, 0) == next_option(v, i as int),
        decreases rows@.len() - i,
    {
        assert(v[i as int] == rows@[i as int]@);
        if is_selectable(&rows[i]) {
            return i;
        }
        i = i + 1;
    }
    0
}

/// Where the cursor goes one option down or up.
pub fn move_cursor(rows: &Vec<EditorRow>, at: usize, down: bool) -> (r: usize)
    ensures
        r == moved_cursor(views(rows@), at as nat, down),
{
    let ghost v = views(rows@);
    if down {
        if at >= rows.len() {
            return at;
        }
        let mut i: usize = at + 1;
        while i < rows.len()
            invariant
                i <= rows@.len(),
                v == views(rows@),
                down,
                next_option(v, at + 1) == next_option(v, i as int),
            decreases rows@.len() - i,
        {
            assert(v[i as int] == rows@[i as int]@);
            if is_selectable(&rows[i]) {
                return i;
            }
            i = i + 1;
        }
        at
    } else {
        if at > rows.len() {
            return at;
        }
        let mut i: usize = at;
        while i > 0
            invariant
                i <= rows@.len(),
                v == views(rows@),
                !down,
                previous_option(v, at - 1) == previous_option(v, i - 1),
            decreases i,
        {
            i = i - 1;
            assert(v[i as int] == rows@[i as int]@);
            if is_selectable(&rows[i]) {
                return i;
            }
        }
        at
    }
}

/// Where the cursor stands once rows were rebuilt.
pub fn keep_cursor(rows: &Vec<EditorRow>, was: &Option<String>) -> (r: usize)
    ensures
        r == kept_cursor(views(rows@), crate::text::opt_view(*was)),
{
    let ghost v = views(rows@);
    match was {
        Some(opt) => {
            let mut i: usize = 0;
            while i < rows.len()
                invariant
                    i <= rows@.len(),
                    v == views(rows@),
                    *was == Some(*opt),
                    row_of_option(v, opt@, 0) == row_of_option(v, opt@, i as int),
                decreases rows@.len() - i,
            {
                assert(v[i as int] == rows@[i as int]@);
                match &rows[i] {
                    EditorRow::Option(o) => {
                        if same(o.as_str(), opt.as_str()) {
                            return i;
                        }
                    },
                    _ => {},
                }
                i = i + 1;
            }
            select_first(rows)
        },
        None => select_first(rows),
    }
}

/// The cursor only ever moves onto an option.
pub proof fn law_cursor_on_option(rows: Seq<EditorRowView>, at: nat, down: bool)
    ensures
        moved_cursor(rows, at, down) == at || option_at(
            rows,
            moved_cursor(rows, at, down),
        ) is Some,
{
    lemma_next_option(rows, at as int + 1);
    lemma_previous_option(rows, at - 1);
}

proof fn lemma_next_option(rows: Seq<EditorRowView>, from: int)
    ensures
        next_option(rows, from) matches Some(i) ==> option_at(rows, i) is Some && from <= i,
    decreases rows.len() - from,
{
    if 0 <= from < rows.len() && !selectable(rows[from]) {
        lemma_next_option(rows, from + 1);
    }
}

proof fn lemma_previous_option(rows: Seq<EditorRowView>, from: int)
    ensures
        previous_option(rows, from) matches Some(i) ==> option_at(rows, i) is Some && i <= from,
    decreases from + 1,
{
    if 0 <= from < rows.len() && !selectable(rows[from]) {
        lemma_previous_option(rows, from - 1);
    }
}

proof fn lemma_option_rows(opts: Seq<Str>, x: Str)
    ensures
        as_options(opts).contains(EditorRowView::Option(x)) <==> opts.contains(x),
        as_excluded(opts).contains(EditorRowView::Excluded(x)) <==> opts.contains(x),
        as_obsolete(opts).contains(EditorRowView::Obsolete(x)) <==> opts.contains(x),
{
    if opts.contains(x) {
        let i = choose|i: int| 0 <= i < opts.len() && opts[i] == x;
        assert(as_options(opts)[i] == EditorRowView::Option(x));
        assert(as_excluded(opts)[i] == EditorRowView::Excluded(x));
        assert(as_obsolete(opts)[i] == EditorRowView::Obsolete(x));
    }
}

proof fn lemma_sum_contains(a: Seq<EditorRowView>, b: Seq<EditorRowView>, r: EditorRowView)
    ensures
        (a + b).contains(r) <==> a.contains(r) || b.contains(r),
{
    if a.contains(r) {
        let i = choose|i: int| 0 <= i < a.len() && a[i] == r;
        assert((a + b)[i] == r);
    }
    if b.contains(r) {
        let i = choose|i: int| 0 <= i < b.len() && b[i] == r;
        assert((a + b)[a.len() + i] == r);
    }
    if (a + b).contains(r) {
        let i = choose|i: int| 0 <= i < (a + b).len() && (a + b)[i] == r;
        if i < a.len() {
            assert(a[i] == r);
        } else {
            assert(b[i - a.len()] == r);
        }
    }
}

proof fn lemma_group_rows(o: OptionsView, n: nat, x: Str)
    requires
        n <= o.groups.len(),
    ensures
        group_rows(o, n).contains(EditorRowView::Option(x)) <==> o.complete.contains(x)
            && exists|i: int| 0 <= i < n && (#[trigger] o.groups[i]).members.contains(x),
        forall|i: int| 0 <= i < group_rows(o, n).len() ==> #[trigger] group_rows(o, n)[i] is Option
            || group_rows(o, n)[i] is GroupHeader,
    decreases n,
{
    if n > 0 {
        let m = (n - 1) as nat;
        let before = group_rows(o, m);
        lemma_group_rows(o, m, x);
        let all = o.groups[n - 1].members;
        let members = all.filter(offered(o));
        crate::list::lemma_filter_holds(all, offered(o));
        assert(members.contains(x) <==> all.contains(x) && o.complete.contains(x));
        let row = EditorRowView::Option(x);
        let head = before.push(EditorRowView::GroupHeader(m));
        if members.len() > 0 {
            lemma_sum_contains(head, as_options(members), row);
            lemma_option_rows(members, x);
            assert(head =~= before + seq![EditorRowView::GroupHeader(m)]);
            lemma_sum_contains(before, seq![EditorRowView::GroupHeader(m)], row);
            assert(!seq![EditorRowView::GroupHeader(m)].contains(row));
        } else {
            assert(!members.contains(x));
        }
        if exists|i: int| 0 <= i < n && (#[trigger] o.groups[i]).members.contains(x) {
            let i = choose|i: int| 0 <= i < n && (#[trigger] o.groups[i]).members.contains(x);
            assert(i < m || all.contains(x));
        }
        if all.contains(x) {
            assert(o.groups[n - 1].members.contains(x));
        }
    }
}

/// Every option of the port has a row to toggle it on and nothing else has; what
/// only the owner of the file has is shown as excluded, and what only the saved
/// file knows as obsolete.
pub proof fn law_editor_rows(o: OptionsView, owner: OptionsView, saved: SavedView, x: Str)
    requires
        saved.set.finite(),
        saved.unset.finite(),
    ensures
        ({
            let rows = rows_of(o, owner, Some(saved));
            let known = saved.complete.contains(x) || saved.set.contains(x)
                || saved.unset.contains(x);
            &&& rows.contains(EditorRowView::Option(x)) <==> o.complete.contains(x)
            &&& rows.contains(EditorRowView::Excluded(x)) <==> owner.complete.contains(x)
                && !o.complete.contains(x)
            &&& rows.contains(EditorRowView::Obsolete(x)) <==> known && !o.complete.contains(x)
                && !owner.complete.contains(x)
        }),
{
    let top = o.complete.filter(ungrouped(o));
    crate::list::lemma_filter_holds(o.complete, ungrouped(o));
    crate::list::lemma_filter_holds(owner.complete, lacking(o));
    let n = o.groups.len();
    lemma_group_rows(o, n, x);
    let gone = obsolete(o, owner, saved);
    vstd::seq_lib::seq_to_set_is_finite(saved.complete);
    crate::sorted::lemma_ordered::<String>(gone);
    let a = as_options(top);
    let b = group_rows(o, n);
    let ex = excluded(o, owner);
    let ob = ordered::<String>(gone);
    let c = section(EditorRowView::ExcludedHeader, as_excluded(ex));
    let d = section(EditorRowView::ObsoleteHeader, as_obsolete(ob));
    lemma_option_rows(top, x);
    lemma_option_rows(ex, x);
    lemma_option_rows(ob, x);
    assert(top.contains(x) <==> o.complete.contains(x) && !in_group(o, x));
    let r1 = EditorRowView::Option(x);
    let r2 = EditorRowView::Excluded(x);
    let r3 = EditorRowView::Obsolete(x);
    lemma_sum_contains(a, b, r1);
    lemma_sum_contains(a, b, r2);
    lemma_sum_contains(a, b, r3);
    lemma_sum_contains(a + b, c, r1);
    lemma_sum_contains(a + b, c, r2);
    lemma_sum_contains(a + b, c, r3);
    lemma_sum_contains(a + b + c, d, r1);
    lemma_sum_contains(a + b + c, d, r2);
    lemma_sum_contains(a + b + c, d, r3);
    assert(!a.contains(r2) && !a.contains(r3));
    assert(!b.contains(r2) && !b.contains(r3));
    lemma_sum_contains(seq![EditorRowView::ExcludedHeader], as_excluded(ex), r2);
    lemma_sum_contains(seq![EditorRowView::ObsoleteHeader], as_obsolete(ob), r3);
    assert(!seq![EditorRowView::ExcludedHeader].contains(r2));
    assert(!seq![EditorRowView::ObsoleteHeader].contains(r3));
    if ex.len() == 0 {
        assert(as_excluded(ex).len() == 0);
        assert(!ex.contains(x) && !c.contains(r2));
    }
    if ob.len() == 0 {
        assert(as_obsolete(ob).len() == 0);
        assert(!ob.contains(x) && !d.contains(r3));
    }
    assert(c.contains(r2) <==> owner.complete.contains(x) && !o.complete.contains(x));
    assert(gone.contains(x) <==> ob.contains(x));
    assert(!c.contains(r1) && !c.contains(r3));
    assert(!d.contains(r1) && !d.contains(r2));
}

/// The cursor goes to the nearest option below or above it, and stays where there
/// is none.
pub proof fn law_cursor_nearest(rows: Seq<EditorRowView>, at: nat, i: int)
    requires
        at < rows.len(),
    ensures
        at < i < moved_cursor(rows, at, true) ==> !(rows[i] is Option),
        moved_cursor(rows, at, false) < i < at ==> !(rows[i] is Option),
        moved_cursor(rows, at, true) >= at,
        moved_cursor(rows, at, false) <= at,
        at < i < rows.len() && rows[i] is Option ==> moved_cursor(rows, at, true) > at,
        0 <= i < at && rows[i] is Option ==> moved_cursor(rows, at, false) < at,
{
    lemma_nearest_below(rows, at as int + 1, i);
    lemma_nearest_above(rows, at - 1, i);
}

proof fn lemma_nearest_below(rows: Seq<EditorRowView>, from: int, i: int)
    requires
        0 <= from <= rows.len(),
    ensures
        match next_option(rows, from) {
            Some(n) => from <= n < rows.len() && (from <= i < n ==> !(rows[i] is Option)),
            None => from <= i < rows.len() ==> !(rows[i] is Option),
        },
    decreases rows.len() - from,
{
    if from < rows.len() && !selectable(rows[from]) {
        lemma_nearest_below(rows, from + 1, i);
    }
}

proof fn lemma_nearest_above(rows: Seq<EditorRowView>, from: int, i: int)
    requires
        -1 <= from < rows.len(),
    ensures
        match previous_option(rows, from) {
            Some(n) => n <= from && (n < i <= from ==> !(rows[i] is Option)),
            None => 0 <= i <= from ==> !(rows[i] is Option),
        },
    decreases from + 1,
{
    if from >= 0 && !selectable(rows[from]) {
        lemma_nearest_above(rows, from - 1, i);
    }
}

proof fn lemma_option_found(rows: Seq<EditorRowView>, opt: Str, from: int, i: int)
    requires
        0 <= from <= i < rows.len(),
        rows[i] == EditorRowView::Option(opt),
    ensures
        row_of_option(rows, opt, from) matches Some(n) && n < rows.len() && rows[n as int]
            == EditorRowView::Option(opt),
    decreases rows.len() - from,
{
    if rows[from] != EditorRowView::Option(opt) {
        lemma_option_found(rows, opt, from + 1, i);
    }
}

/// The cursor stays on its option where that still has a row.
pub proof fn law_cursor_kept(rows: Seq<EditorRowView>, opt: Str)
    requires
        rows.contains(EditorRowView::Option(opt)),
    ensures
        option_at(rows, kept_cursor(rows, Some(opt))) == Some(opt),
{
    let i = choose|i: int| 0 <= i < rows.len() && rows[i] == EditorRowView::Option(opt);
    lemma_option_found(rows, opt, 0, i);
}

} // verus!
