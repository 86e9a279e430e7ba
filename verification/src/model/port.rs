//! What one query of the ports tree reports about a port.
use vstd::prelude::*;

use crate::model::options::{OptionsView, PortOptions};
use crate::model::origin::{KeyView, PortKey};
use crate::order::{duplicate_list, duplicate_opt, Duplicate};
use crate::text::{opt_view, views, Str};

verus! {

/// One dependency edge as extracted from _UNIFIED_DEPENDS.
#[derive(Debug)]
pub struct DepEdge {
    pub target: PortKey,
    /// The raw dependency spec (lib.so, pkgname>=x, path, ...).
    pub raw: String,
}

#[verifier::ext_equal]
pub struct EdgeView {
    pub target: KeyView,
    pub raw: Str,
}

impl View for DepEdge {
    type V = EdgeView;

    open spec fn view(&self) -> EdgeView {
        EdgeView { target: self.target@, raw: self.raw@ }
    }
}

impl Duplicate for DepEdge {
    fn duplicate(&self) -> (r: Self) {
        DepEdge { target: self.target.duplicate(), raw: self.raw.clone() }
    }
}

/// Everything queried from the ports tree for one port@flavor.
///
/// Staleness has no direct query here: flavors share options files owned by
/// the default flavor, so a port's status is asked of the session, which knows
/// the owner.
pub struct PortInfo {
    /// The key as it was requested (dep edge / command line form).
    pub key: PortKey,
    /// Canonical identity: origin plus the flavor make actually selected
    /// (None when the port has no flavors).
    pub canonical: PortKey,
    pub pkgname: String,
    pub flavors: Vec<String>,
    pub options_name: String,
    pub options: PortOptions,
    pub deps: Vec<DepEdge>,
    pub broken: Option<String>,
    pub ignore: Option<String>,
    pub deprecated: Option<String>,
    /// The port's pkg-help file when it exists: the free-form port notes
    /// `make config` offers behind its Help button.
    pub pkg_help: Option<String>,
    pub default_versions: Vec<String>,
    /// Non-fatal oddities (unparsable dep entries, ...).
    pub warnings: Vec<String>,
}

#[verifier::ext_equal]
pub struct InfoView {
    pub key: KeyView,
    pub canonical: KeyView,
    pub pkgname: Str,
    pub flavors: Seq<Str>,
    pub options_name: Str,
    pub options: OptionsView,
    pub deps: Seq<EdgeView>,
    pub broken: Option<Str>,
    pub ignore: Option<Str>,
    pub deprecated: Option<Str>,
    pub pkg_help: Option<Str>,
    pub default_versions: Seq<Str>,
    pub warnings: Seq<Str>,
}

impl View for PortInfo {
    type V = InfoView;

    open spec fn view(&self) -> InfoView {
        InfoView {
            key: self.key@,
            canonical: self.canonical@,
            pkgname: self.pkgname@,
            flavors: views(self.flavors@),
            options_name: self.options_name@,
            options: self.options@,
            deps: views(self.deps@),
            broken: opt_view(self.broken),
            ignore: opt_view(self.ignore),
            deprecated: opt_view(self.deprecated),
            pkg_help: opt_view(self.pkg_help),
            default_versions: views(self.default_versions@),
            warnings: views(self.warnings@),
        }
    }
}

impl Duplicate for PortInfo {
    fn duplicate(&self) -> (r: Self) {
        PortInfo {
            key: self.key.duplicate(),
            canonical: self.canonical.duplicate(),
            pkgname: self.pkgname.clone(),
            flavors: duplicate_list(&self.flavors),
            options_name: self.options_name.clone(),
            options: self.options.duplicate(),
            deps: duplicate_list(&self.deps),
            broken: duplicate_opt(&self.broken),
            ignore: duplicate_opt(&self.ignore),
            deprecated: duplicate_opt(&self.deprecated),
            pkg_help: duplicate_opt(&self.pkg_help),
            default_versions: duplicate_list(&self.default_versions),
            warnings: duplicate_list(&self.warnings),
        }
    }
}

impl Clone for PortInfo {
    fn clone(&self) -> (r: Self)
        ensures
            r@ == self@,
    {
        self.duplicate()
    }
}

} // verus!
