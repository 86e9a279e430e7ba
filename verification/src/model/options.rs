//! Options of a port and the layers that decide them.
use vstd::prelude::*;

use crate::order::{duplicate_list, duplicate_opt, Duplicate};
use crate::sorted::{SortedMap, SortedSet};
use crate::text::{opt_view, views, Str};

verus! {

/// A set of option names.
pub type OptionSet = SortedSet<String>;

/// Kind of an options group, with the constraint it imposes on its members.
#[derive(Clone, Copy, Debug, PartialEq, Eq, Structural)]
pub enum GroupKind {
    /// Free choice.
    Group,
    /// At least one member must be selected.
    Multi,
    /// Exactly one member must be selected.
    Single,
    /// At most one member may be selected.
    Radio,
}

impl GroupKind {
    /// The label of a kind.
    pub open spec fn text(self) -> Str {
        match self {
            GroupKind::Group => "group"@,
            GroupKind::Multi => "multi (pick at least one)"@,
            GroupKind::Single => "single (pick exactly one)"@,
            GroupKind::Radio => "radio (pick at most one)"@,
        }
    }

    pub fn label(self) -> (r: &'static str)
        ensures
            r@ == self.text(),
    {
        match self {
            GroupKind::Group => "group",
            GroupKind::Multi => "multi (pick at least one)",
            GroupKind::Single => "single (pick exactly one)",
            GroupKind::Radio => "radio (pick at most one)",
        }
    }

    /// Whether at most one member of such a group is selected.
    pub open spec fn exclusive(self) -> bool {
        self == GroupKind::Single || self == GroupKind::Radio
    }

    pub fn is_exclusive(self) -> (r: bool)
        ensures
            r == self.exclusive(),
    {
        match self {
            GroupKind::Single => true,
            GroupKind::Radio => true,
            _ => false,
        }
    }
}

/// A named group of options.
#[derive(Debug)]
pub struct OptionGroup {
    pub kind: GroupKind,
    pub name: String,
    pub desc: String,
    pub members: Vec<String>,
}

#[verifier::ext_equal]
pub struct GroupView {
    pub kind: GroupKind,
    pub name: Str,
    pub desc: Str,
    pub members: Seq<Str>,
}

impl View for OptionGroup {
    type V = GroupView;

    open spec fn view(&self) -> GroupView {
        GroupView {
            kind: self.kind,
            name: self.name@,
            desc: self.desc@,
            members: views(self.members@),
        }
    }
}

impl Duplicate for OptionGroup {
    fn duplicate(&self) -> (r: Self) {
        OptionGroup {
            kind: self.kind,
            name: self.name.clone(),
            desc: self.desc.clone(),
            members: duplicate_list(&self.members),
        }
    }
}

/// Dependencies of one class that an option adds.
#[derive(Debug)]
pub struct OptionDeps {
    pub class: String,
    pub origins: Vec<String>,
}

#[verifier::ext_equal]
pub struct DepsView {
    pub class: Str,
    pub origins: Seq<Str>,
}

impl View for OptionDeps {
    type V = DepsView;

    open spec fn view(&self) -> DepsView {
        DepsView { class: self.class@, origins: views(self.origins@) }
    }
}

impl Duplicate for OptionDeps {
    fn duplicate(&self) -> (r: Self) {
        OptionDeps { class: self.class.clone(), origins: duplicate_list(&self.origins) }
    }
}

/// Per-option metadata gathered from the ports framework.
#[derive(Debug)]
pub struct OptionDef {
    pub desc: String,
    /// Options force-enabled when this one is on (`<OPT>_IMPLIES`).
    pub implies: Vec<String>,
    /// Options incompatible with this one (`<OPT>_PREVENTS`).
    pub prevents: Vec<String>,
    pub prevents_msg: Option<String>,
    /// Enabling this option marks the port BROKEN with this message.
    pub broken: Option<String>,
    /// Enabling this option marks the port IGNOREd with this message.
    pub ignore: Option<String>,
    /// Dependencies that enabling this option pulls in, by class.
    pub deps: Vec<OptionDeps>,
    /// USES words that enabling this option adds.
    pub uses: Vec<String>,
}

#[verifier::ext_equal]
pub struct DefView {
    pub desc: Str,
    pub implies: Seq<Str>,
    pub prevents: Seq<Str>,
    pub prevents_msg: Option<Str>,
    pub broken: Option<Str>,
    pub ignore: Option<Str>,
    pub deps: Seq<DepsView>,
    pub uses: Seq<Str>,
}

impl View for OptionDef {
    type V = DefView;

    open spec fn view(&self) -> DefView {
        DefView {
            desc: self.desc@,
            implies: views(self.implies@),
            prevents: views(self.prevents@),
            prevents_msg: opt_view(self.prevents_msg),
            broken: opt_view(self.broken),
            ignore: opt_view(self.ignore),
            deps: views(self.deps@),
            uses: views(self.uses@),
        }
    }
}

impl Duplicate for OptionDef {
    fn duplicate(&self) -> (r: Self) {
        OptionDef {
            desc: self.desc.clone(),
            implies: duplicate_list(&self.implies),
            prevents: duplicate_list(&self.prevents),
            prevents_msg: duplicate_opt(&self.prevents_msg),
            broken: duplicate_opt(&self.broken),
            ignore: duplicate_opt(&self.ignore),
            deps: duplicate_list(&self.deps),
            uses: duplicate_list(&self.uses),
        }
    }
}

/// Metadata that says nothing.
pub open spec fn blank_def() -> DefView {
    DefView {
        desc: Seq::empty(),
        implies: Seq::empty(),
        prevents: Seq::empty(),
        prevents_msg: None,
        broken: None,
        ignore: None,
        deps: Seq::empty(),
        uses: Seq::empty(),
    }
}

impl Default for OptionDef {
    fn default() -> (r: Self)
        ensures
            r@ == blank_def(),
    {
        let r = OptionDef {
            desc: String::new(),
            implies: Vec::new(),
            prevents: Vec::new(),
            prevents_msg: None,
            broken: None,
            ignore: None,
            deps: Vec::new(),
            uses: Vec::new(),
        };
        assert(r@ =~= blank_def());
        r
    }
}

/// Everything the ports framework reports about a port's options,
/// including the make.conf layers that feed into the final PORT_OPTIONS.
pub struct PortOptions {
    /// COMPLETE_OPTIONS_LIST, in the framework's order (display order).
    pub complete: Vec<String>,
    /// OPTIONS_DEFAULT (intersected with complete at display time).
    pub defaults: OptionSet,
    /// Final effective set as make computed it (PORT_OPTIONS).
    pub effective: OptionSet,
    pub groups: Vec<OptionGroup>,
    pub defs: SortedMap<String, OptionDef>,
    /// Global make.conf OPTIONS_SET / OPTIONS_UNSET (filtered to complete).
    pub mc_set: OptionSet,
    pub mc_unset: OptionSet,
    /// Per-port make.conf ${OPTIONS_NAME}_SET / _UNSET.
    pub port_set: OptionSet,
    pub port_unset: OptionSet,
    /// Global *_FORCE knobs (these override the options file).
    pub force_set: OptionSet,
    pub force_unset: OptionSet,
    /// Per-port *_FORCE knobs (these override the global ones).
    pub port_force_set: OptionSet,
    pub port_force_unset: OptionSet,
}

#[verifier::ext_equal]
pub struct OptionsView {
    pub complete: Seq<Str>,
    pub defaults: Set<Str>,
    pub effective: Set<Str>,
    pub groups: Seq<GroupView>,
    pub defs: Map<Str, DefView>,
    pub mc_set: Set<Str>,
    pub mc_unset: Set<Str>,
    pub port_set: Set<Str>,
    pub port_unset: Set<Str>,
    pub force_set: Set<Str>,
    pub force_unset: Set<Str>,
    pub port_force_set: Set<Str>,
    pub port_force_unset: Set<Str>,
}

impl View for PortOptions {
    type V = OptionsView;

    open spec fn view(&self) -> OptionsView {
        OptionsView {
            complete: views(self.complete@),
            defaults: self.defaults@,
            effective: self.effective@,
            groups: views(self.groups@),
            defs: self.defs@,
            mc_set: self.mc_set@,
            mc_unset: self.mc_unset@,
            port_set: self.port_set@,
            port_unset: self.port_unset@,
            force_set: self.force_set@,
            force_unset: self.force_unset@,
            port_force_set: self.port_force_set@,
            port_force_unset: self.port_force_unset@,
        }
    }
}

impl Duplicate for PortOptions {
    fn duplicate(&self) -> (r: Self) {
        PortOptions {
            complete: duplicate_list(&self.complete),
            defaults: self.defaults.duplicate(),
            effective: self.effective.duplicate(),
            groups: duplicate_list(&self.groups),
            defs: self.defs.duplicate(),
            mc_set: self.mc_set.duplicate(),
            mc_unset: self.mc_unset.duplicate(),
            port_set: self.port_set.duplicate(),
            port_unset: self.port_unset.duplicate(),
            force_set: self.force_set.duplicate(),
            force_unset: self.force_unset.duplicate(),
            port_force_set: self.port_force_set.duplicate(),
            port_force_unset: self.port_force_unset.duplicate(),
        }
    }
}

/// Options of a port that has none.
pub open spec fn blank_options() -> OptionsView {
    OptionsView {
        complete: Seq::empty(),
        defaults: Set::empty(),
        effective: Set::empty(),
        groups: Seq::empty(),
        defs: Map::empty(),
        mc_set: Set::empty(),
        mc_unset: Set::empty(),
        port_set: Set::empty(),
        port_unset: Set::empty(),
        force_set: Set::empty(),
        force_unset: Set::empty(),
        port_force_set: Set::empty(),
        port_force_unset: Set::empty(),
    }
}

impl Default for PortOptions {
    fn default() -> (r: Self)
        ensures
            r@ == blank_options(),
    {
        let r = PortOptions {
            complete: Vec::new(),
            defaults: SortedSet::new(),
            effective: SortedSet::new(),
            groups: Vec::new(),
            defs: SortedMap::new(),
            mc_set: SortedSet::new(),
            mc_unset: SortedSet::new(),
            port_set: SortedSet::new(),
            port_unset: SortedSet::new(),
            force_set: SortedSet::new(),
            force_unset: SortedSet::new(),
            port_force_set: SortedSet::new(),
            port_force_unset: SortedSet::new(),
        };
        assert(r@ =~= blank_options());
        r
    }
}

/// Where an option's current value comes from, following the
/// bsd.options.mk precedence chain (lowest to highest).
#[derive(Clone, Copy, Debug, PartialEq, Eq, Structural)]
pub enum Provenance {
    Default,
    MakeConfGlobal,
    MakeConfPort,
    File,
    Forced,
}

impl OptionsView {
    /// The value a *_FORCE knob gives an option: the knobs apply in the order
    /// global set, global unset, per-port set, per-port unset, so the last one
    /// that names the option decides.
    pub open spec fn forced(self, opt: Str) -> Option<bool> {
        if self.port_force_unset.contains(opt) {
            Some(false)
        } else if self.port_force_set.contains(opt) {
            Some(true)
        } else if self.force_unset.contains(opt) {
            Some(false)
        } else if self.force_set.contains(opt) {
            Some(true)
        } else {
            None
        }
    }

    /// Whether the per-port make.conf knobs name an option.
    pub open spec fn port_mentions(self, opt: Str) -> bool {
        self.port_set.contains(opt) || self.port_unset.contains(opt)
    }

    /// Whether the global make.conf knobs name an option.
    pub open spec fn global_mentions(self, opt: Str) -> bool {
        self.mc_set.contains(opt) || self.mc_unset.contains(opt)
    }

    /// The layer that decides an option: the highest that speaks of it.
    pub open spec fn decided_by(self, opt: Str, in_file: bool) -> Provenance {
        if self.forced(opt) is Some {
            Provenance::Forced
        } else if in_file {
            Provenance::File
        } else if self.port_mentions(opt) {
            Provenance::MakeConfPort
        } else if self.global_mentions(opt) {
            Provenance::MakeConfGlobal
        } else {
            Provenance::Default
        }
    }
}

impl PortOptions {
    pub fn has_options(&self) -> (r: bool)
        ensures
            r == (self@.complete.len() > 0),
    {
        self.complete.len() > 0
    }

    /// The value a *_FORCE knob gives this option, if one names it.
    pub fn forced_value(&self, opt: &str) -> (r: Option<bool>)
        ensures
            r == self@.forced(opt@),
    {
        if self.port_force_unset.has(opt) {
            Some(false)
        } else if self.port_force_set.has(opt) {
            Some(true)
        } else if self.force_unset.has(opt) {
            Some(false)
        } else if self.force_set.has(opt) {
            Some(true)
        } else {
            None
        }
    }

    /// Whether toggling this option in the options file can have no effect.
    pub fn is_forced(&self, opt: &str) -> (r: bool)
        ensures
            r == (self@.forced(opt@) is Some),
    {
        match self.forced_value(opt) {
            Some(_) => true,
            None => false,
        }
    }

    /// Provenance of the option's value given the enabled set recorded in the
    /// options file (None = no file entry for it).
    pub fn provenance(&self, opt: &str, file_state: Option<bool>) -> (r: Provenance)
        ensures
            r == self@.decided_by(opt@, file_state is Some),
    {
        if self.is_forced(opt) {
            Provenance::Forced
        } else if file_state.is_some() {
            Provenance::File
        } else if self.port_set.has(opt) || self.port_unset.has(opt) {
            Provenance::MakeConfPort
        } else if self.mc_set.has(opt) || self.mc_unset.has(opt) {
            Provenance::MakeConfGlobal
        } else {
            Provenance::Default
        }
    }
}

/// The value a FORCE knob gives an option: a per-port knob before a global one,
/// and of one scope the one that turns it off before the one that turns it on.
pub proof fn law_forced(o: OptionsView, opt: Str)
    ensures
        o.forced(opt) is None <==> !o.force_set.contains(opt) && !o.force_unset.contains(opt)
            && !o.port_force_set.contains(opt) && !o.port_force_unset.contains(opt),
        o.port_force_unset.contains(opt) ==> o.forced(opt) == Some(false),
        o.port_force_set.contains(opt) && !o.port_force_unset.contains(opt) ==> o.forced(opt)
            == Some(true),
        !o.port_force_set.contains(opt) && !o.port_force_unset.contains(opt)
            && o.force_unset.contains(opt) ==> o.forced(opt) == Some(false),
        !o.port_force_set.contains(opt) && !o.port_force_unset.contains(opt)
            && !o.force_unset.contains(opt) && o.force_set.contains(opt) ==> o.forced(opt)
            == Some(true),
{
}

/// Where an option's value comes from: a FORCE knob before the options file, the
/// file before a per-port knob, that before a global one, and the default where
/// nothing else speaks.
pub proof fn law_provenance(o: OptionsView, opt: Str, in_file: bool)
    ensures
        ({
            let forced = o.force_set.contains(opt) || o.force_unset.contains(opt)
                || o.port_force_set.contains(opt) || o.port_force_unset.contains(opt);
            let port = o.port_set.contains(opt) || o.port_unset.contains(opt);
            let global = o.mc_set.contains(opt) || o.mc_unset.contains(opt);
            let from = o.decided_by(opt, in_file);
            &&& from == Provenance::Forced <==> forced
            &&& from == Provenance::File <==> !forced && in_file
            &&& from == Provenance::MakeConfPort <==> !forced && !in_file && port
            &&& from == Provenance::MakeConfGlobal <==> !forced && !in_file && !port && global
            &&& from == Provenance::Default <==> !forced && !in_file && !port && !global
        }),
{
}

/// Groups that allow one member only are SINGLE and RADIO ones.
pub proof fn law_exclusive(k: GroupKind)
    ensures
        k.exclusive() <==> k == GroupKind::Single || k == GroupKind::Radio,
{
}

} // verus!
