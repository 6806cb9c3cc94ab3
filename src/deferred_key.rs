//! Where a deferred computation came from: a configured target, an
//! anonymous target, or a BXL function call.

use std::sync::Arc;

use vstd::prelude::*;

use crate::anon_target::{AnonTarget, AnonTargetView};
use crate::label::{ConfiguredTargetLabel, LabelView};

verus! {

/// A BXL function: the file that defines it and its name.
#[derive(Debug, Clone, Hash)]
pub struct BxlKey {
    pub path: String,
    pub name: String,
}

/// The owner of a deferred computation.
#[derive(Debug, Clone, Hash)]
pub enum BaseDeferredKey {
    TargetLabel(ConfiguredTargetLabel),
    AnonTarget(Arc<AnonTarget>),
    BxlLabel(BxlKey),
}

pub enum BaseDeferredKeyView {
    TargetLabel(LabelView, Seq<char>),
    AnonTarget(AnonTargetView),
    BxlLabel(Seq<char>, Seq<char>),
}

impl View for BaseDeferredKey {
    type V = BaseDeferredKeyView;

    open spec fn view(&self) -> BaseDeferredKeyView {
        match self {
            BaseDeferredKey::TargetLabel(l) => BaseDeferredKeyView::TargetLabel(l.target@, l.cfg@),
            BaseDeferredKey::AnonTarget(t) => BaseDeferredKeyView::AnonTarget((**t)@),
            BaseDeferredKey::BxlLabel(b) => BaseDeferredKeyView::BxlLabel(b.path@, b.name@),
        }
    }
}

impl BaseDeferredKey {
    /// Whether two keys name the same owner.
    pub fn same_as(&self, other: &BaseDeferredKey) -> (r: bool)
        ensures
            r == (self@ == other@),
    {
        match (self, other) {
            (BaseDeferredKey::TargetLabel(a), BaseDeferredKey::TargetLabel(b)) => a.target.same_as(
                &b.target,
            ) && a.cfg == b.cfg,
            (BaseDeferredKey::AnonTarget(a), BaseDeferredKey::AnonTarget(b)) => a.same_as(b),
            (BaseDeferredKey::BxlLabel(a), BaseDeferredKey::BxlLabel(b)) => a.path == b.path
                && a.name == b.name,
            _ => false,
        }
    }
}

impl PartialEq for BaseDeferredKey {
    fn eq(&self, other: &BaseDeferredKey) -> (r: bool) {
        self.same_as(other)
    }
}

impl vstd::std_specs::cmp::PartialEqSpecImpl for BaseDeferredKey {
    open spec fn obeys_eq_spec() -> bool {
        true
    }

    open spec fn eq_spec(&self, other: &BaseDeferredKey) -> bool {
        self@ == other@
    }
}

} // verus!
