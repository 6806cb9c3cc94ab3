//! Errors raised while turning raw attribute input into a descriptor.

use vstd::prelude::*;

verus! {

/// A caller-input error, reported with the offending attribute, name or value.
#[derive(Debug, Clone)]
pub enum AttrError {
    /// An attribute that the rule does not declare.
    UnknownAttribute(String),
    /// An attribute in the reserved namespace.
    InternalAttribute(String),
    /// A declared attribute without a default that was not supplied.
    MissingAttribute(String),
    /// A `name` that is neither a label nor a string; holds its type name.
    InvalidNameType(String),
    /// A `name` string that is not a target label.
    NotTargetLabel(String),
    /// A rule name that cannot name a target.
    InvalidTargetName(String),
    /// A dependency attribute given something other than a dependency:
    /// the attribute and the type name of what it was given.
    InvalidDep(String, String),
    /// A string where a label, path, pattern or query would be parsed:
    /// the attribute and the string.
    CantParseDuringCoerce(String, String),
    /// A value of the wrong type: the attribute and the type name.
    WrongType(String, String),
}

/// What an [`AttrError`] says, over character sequences.
pub enum AttrErrorView {
    UnknownAttribute(Seq<char>),
    InternalAttribute(Seq<char>),
    MissingAttribute(Seq<char>),
    InvalidNameType(Seq<char>),
    NotTargetLabel(Seq<char>),
    InvalidTargetName(Seq<char>),
    InvalidDep(Seq<char>, Seq<char>),
    CantParseDuringCoerce(Seq<char>, Seq<char>),
    WrongType(Seq<char>, Seq<char>),
}

impl View for AttrError {
    type V = AttrErrorView;

    open spec fn view(&self) -> AttrErrorView {
        match self {
            AttrError::UnknownAttribute(a) => AttrErrorView::UnknownAttribute(a@),
            AttrError::InternalAttribute(a) => AttrErrorView::InternalAttribute(a@),
            AttrError::MissingAttribute(a) => AttrErrorView::MissingAttribute(a@),
            AttrError::InvalidNameType(t) => AttrErrorView::InvalidNameType(t@),
            AttrError::NotTargetLabel(s) => AttrErrorView::NotTargetLabel(s@),
            AttrError::InvalidTargetName(s) => AttrErrorView::InvalidTargetName(s@),
            AttrError::InvalidDep(a, t) => AttrErrorView::InvalidDep(a@, t@),
            AttrError::CantParseDuringCoerce(a, s) => AttrErrorView::CantParseDuringCoerce(a@, s@),
            AttrError::WrongType(a, t) => AttrErrorView::WrongType(a@, t@),
        }
    }
}

/// A registration was made where none is allowed.
#[derive(Debug, Clone, Copy, PartialEq, Eq)]
pub enum ProtocolError {
    PendingRegistrations,
}

} // verus!
