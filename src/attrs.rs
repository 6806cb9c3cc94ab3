//! Attribute schemas, raw and configured attribute values, and the coercion
//! of one raw value against its declared type.

use vstd::prelude::*;
use vstd::string::StringExecFns;

use crate::error::{AttrError, AttrErrorView};
use crate::label::{LabelView, TargetLabel};

verus! {

/// The declared type of an attribute.
#[derive(Debug, Clone, Copy, PartialEq, Eq, Hash)]
pub enum AttrType {
    String,
    Int,
    Bool,
    Dep,
    StringList,
    DepList,
    Label,
    Source,
    Query,
}

/// One element of a raw list value.
#[derive(Debug, Clone)]
pub enum RawItem {
    Str(String),
    Int(i64),
    Bool(bool),
    /// An already resolved dependency, by the label it was resolved for.
    Dependency(TargetLabel),
    /// A label value.
    Label(TargetLabel),
}

/// An untyped value as a script hands it over.
#[derive(Debug, Clone)]
pub enum RawValue {
    Str(String),
    Int(i64),
    Bool(bool),
    Dependency(TargetLabel),
    Label(TargetLabel),
    List(Vec<RawItem>),
}

/// A configured attribute value.
#[derive(Debug, Clone, Hash)]
pub enum AttrValue {
    Str(String),
    Int(i64),
    Bool(bool),
    Dep(TargetLabel),
    StrList(Vec<String>),
    DepList(Vec<TargetLabel>),
}

pub enum AttrValueView {
    Str(Seq<char>),
    Int(i64),
    Bool(bool),
    Dep(LabelView),
    StrList(Seq<Seq<char>>),
    DepList(Seq<LabelView>),
}

impl View for AttrValue {
    type V = AttrValueView;

    open spec fn view(&self) -> AttrValueView {
        match self {
            AttrValue::Str(s) => AttrValueView::Str(s@),
            AttrValue::Int(i) => AttrValueView::Int(*i),
            AttrValue::Bool(b) => AttrValueView::Bool(*b),
            AttrValue::Dep(l) => AttrValueView::Dep(l@),
            AttrValue::StrList(v) => AttrValueView::StrList(v@.map_values(|s: String| s@)),
            AttrValue::DepList(v) => AttrValueView::DepList(v@.map_values(|l: TargetLabel| l@)),
        }
    }
}

/// An attribute of a rule: its name, type and optional default.
#[derive(Debug, Clone)]
pub struct AttrSpec {
    pub name: String,
    pub typ: AttrType,
    pub default: Option<AttrValue>,
}

pub open spec fn default_view(d: Option<AttrValue>) -> Option<AttrValueView> {
    match d {
        Some(v) => Some(v@),
        None => None,
    }
}

/// The type name of a raw list element.
pub open spec fn item_type_name(v: RawItem) -> Seq<char> {
    match v {
        RawItem::Str(_) => "string"@,
        RawItem::Int(_) => "int"@,
        RawItem::Bool(_) => "bool"@,
        RawItem::Dependency(_) => "dependency"@,
        RawItem::Label(_) => "label"@,
    }
}

/// The type name of a raw value.
pub open spec fn raw_type_name(v: RawValue) -> Seq<char> {
    match v {
        RawValue::Str(_) => "string"@,
        RawValue::Int(_) => "int"@,
        RawValue::Bool(_) => "bool"@,
        RawValue::Dependency(_) => "dependency"@,
        RawValue::Label(_) => "label"@,
        RawValue::List(_) => "list"@,
    }
}

pub fn item_type_name_exec(v: &RawItem) -> (r: String)
    ensures
        r@ == item_type_name(*v),
{
    match v {
        RawItem::Str(_) => String::from_str("string"),
        RawItem::Int(_) => String::from_str("int"),
        RawItem::Bool(_) => String::from_str("bool"),
        RawItem::Dependency(_) => String::from_str("dependency"),
        RawItem::Label(_) => String::from_str("label"),
    }
}

pub fn raw_type_name_exec(v: &RawValue) -> (r: String)
    ensures
        r@ == raw_type_name(*v),
{
    match v {
        RawValue::Str(_) => String::from_str("string"),
        RawValue::Int(_) => String::from_str("int"),
        RawValue::Bool(_) => String::from_str("bool"),
        RawValue::Dependency(_) => String::from_str("dependency"),
        RawValue::Label(_) => String::from_str("label"),
        RawValue::List(_) => String::from_str("list"),
    }
}

/// The first `n` items as strings, or the type name of the first item among
/// them that is not one.
pub open spec fn strs_prefix(items: Seq<RawItem>, n: int) -> Result<Seq<Seq<char>>, Seq<char>>
    decreases n,
{
    if n <= 0 {
        Ok(Seq::empty())
    } else {
        match strs_prefix(items, n - 1) {
            Err(t) => Err(t),
            Ok(acc) => match items[n - 1] {
                RawItem::Str(s) => Ok(acc.push(s@)),
                other => Err(item_type_name(other)),
            },
        }
    }
}

/// The first `n` items as dependency labels, or the type name of the first
/// item among them that is not a dependency.
pub open spec fn deps_prefix(items: Seq<RawItem>, n: int) -> Result<Seq<LabelView>, Seq<char>>
    decreases n,
{
    if n <= 0 {
        Ok(Seq::empty())
    } else {
        match deps_prefix(items, n - 1) {
            Err(t) => Err(t),
            Ok(acc) => match items[n - 1] {
                RawItem::Dependency(l) => Ok(acc.push(l@)),
                other => Err(item_type_name(other)),
            },
        }
    }
}

proof fn lemma_strs_prefix_err(items: Seq<RawItem>, k: int, m: int)
    requires
        0 <= k <= m,
        strs_prefix(items, k) is Err,
    ensures
        strs_prefix(items, m) == strs_prefix(items, k),
    decreases m,
{
    if m > k {
        lemma_strs_prefix_err(items, k, m - 1);
    }
}

proof fn lemma_deps_prefix_err(items: Seq<RawItem>, k: int, m: int)
    requires
        0 <= k <= m,
        deps_prefix(items, k) is Err,
    ensures
        deps_prefix(items, m) == deps_prefix(items, k),
    decreases m,
{
    if m > k {
        lemma_deps_prefix_err(items, k, m - 1);
    }
}

/// What coercing raw value `v` for attribute `attr` of type `t` gives. No
/// string is parsed into a label, path, pattern or query here.
pub open spec fn coerce_value(attr: Seq<char>, t: AttrType, v: RawValue) -> Result<
    AttrValueView,
    AttrErrorView,
> {
    match t {
        AttrType::Dep => match v {
            RawValue::Dependency(l) => Ok(AttrValueView::Dep(l@)),
            _ => Err(AttrErrorView::InvalidDep(attr, raw_type_name(v))),
        },
        AttrType::String => match v {
            RawValue::Str(s) => Ok(AttrValueView::Str(s@)),
            _ => Err(AttrErrorView::WrongType(attr, raw_type_name(v))),
        },
        AttrType::Int => match v {
            RawValue::Int(i) => Ok(AttrValueView::Int(i)),
            _ => Err(AttrErrorView::WrongType(attr, raw_type_name(v))),
        },
        AttrType::Bool => match v {
            RawValue::Bool(b) => Ok(AttrValueView::Bool(b)),
            _ => Err(AttrErrorView::WrongType(attr, raw_type_name(v))),
        },
        AttrType::StringList => match v {
            RawValue::List(items) => match strs_prefix(items@, items@.len() as int) {
                Ok(xs) => Ok(AttrValueView::StrList(xs)),
                Err(tn) => Err(AttrErrorView::WrongType(attr, tn)),
            },
            _ => Err(AttrErrorView::WrongType(attr, raw_type_name(v))),
        },
        AttrType::DepList => match v {
            RawValue::List(items) => match deps_prefix(items@, items@.len() as int) {
                Ok(xs) => Ok(AttrValueView::DepList(xs)),
                Err(tn) => Err(AttrErrorView::InvalidDep(attr, tn)),
            },
            _ => Err(AttrErrorView::WrongType(attr, raw_type_name(v))),
        },
        AttrType::Label | AttrType::Source | AttrType::Query => match v {
            RawValue::Str(s) => Err(AttrErrorView::CantParseDuringCoerce(attr, s@)),
            _ => Err(AttrErrorView::WrongType(attr, raw_type_name(v))),
        },
    }
}

/// Coerces and configures one raw value for attribute `attr` of type `t`.
pub fn coerce_attr(attr: &String, t: AttrType, v: &RawValue) -> (r: Result<AttrValue, AttrError>)
    ensures
        match coerce_value(attr@, t, *v) {
            Ok(x) => r matches Ok(y) && y@ == x,
            Err(e) => r matches Err(f) && f@ == e,
        },
{
    match t {
        AttrType::Dep => match v {
            RawValue::Dependency(l) => Ok(AttrValue::Dep(l.duplicate())),
            _ => Err(AttrError::InvalidDep(attr.clone(), raw_type_name_exec(v))),
        },
        AttrType::String => match v {
            RawValue::Str(s) => Ok(AttrValue::Str(s.clone())),
            _ => Err(AttrError::WrongType(attr.clone(), raw_type_name_exec(v))),
        },
        AttrType::Int => match v {
            RawValue::Int(i) => Ok(AttrValue::Int(*i)),
            _ => Err(AttrError::WrongType(attr.clone(), raw_type_name_exec(v))),
        },
        AttrType::Bool => match v {
            RawValue::Bool(b) => Ok(AttrValue::Bool(*b)),
            _ => Err(AttrError::WrongType(attr.clone(), raw_type_name_exec(v))),
        },
        AttrType::StringList => match v {
            RawValue::List(items) => {
                let mut out: Vec<String> = Vec::new();
                let mut i: usize = 0;
                assert(out@.map_values(|s: String| s@) =~= Seq::<Seq<char>>::empty());
                while i < items.len()
                    invariant
                        t == AttrType::StringList,
                        *v == RawValue::List(*items),
                        i <= items@.len(),
                        strs_prefix(items@, i as int) == Ok::<Seq<Seq<char>>, Seq<char>>(
                            out@.map_values(|s: String| s@),
                        ),
                    decreases items@.len() - i,
                {
                    match &items[i] {
                        RawItem::Str(s) => {
                            out.push(s.clone());
                            assert(out@.map_values(|s: String| s@) =~= strs_prefix(
                                items@,
                                i as int,
                            )->Ok_0.push(s@));
                        },
                        other => {
                            proof {
                                assert(strs_prefix(items@, i + 1) == Err::<Seq<Seq<char>>, Seq<char>>(
                                    item_type_name(items@[i as int]),
                                ));
                                lemma_strs_prefix_err(items@, i + 1, items@.len() as int);
                            }
                            let tn = item_type_name_exec(other);
                            return Err(AttrError::WrongType(attr.clone(), tn));
                        },
                    }
                    i = i + 1;
                }
                Ok(AttrValue::StrList(out))
            },
            _ => Err(AttrError::WrongType(attr.clone(), raw_type_name_exec(v))),
        },
        AttrType::DepList => match v {
            RawValue::List(items) => {
                let mut out: Vec<TargetLabel> = Vec::new();
                let mut i: usize = 0;
                assert(out@.map_values(|l: TargetLabel| l@) =~= Seq::<LabelView>::empty());
                while i < items.len()
                    invariant
                        t == AttrType::DepList,
                        *v == RawValue::List(*items),
                        i <= items@.len(),
                        deps_prefix(items@, i as int) == Ok::<Seq<LabelView>, Seq<char>>(
                            out@.map_values(|l: TargetLabel| l@),
                        ),
                    decreases items@.len() - i,
                {
                    match &items[i] {
                        RawItem::Dependency(l) => {
                            out.push(l.duplicate());
                            assert(out@.map_values(|l: TargetLabel| l@) =~= deps_prefix(
                                items@,
                                i as int,
                            )->Ok_0.push(l@));
                        },
                        other => {
                            proof {
                                assert(deps_prefix(items@, i + 1) == Err::<Seq<LabelView>, Seq<char>>(
                                    item_type_name(items@[i as int]),
                                ));
                                lemma_deps_prefix_err(items@, i + 1, items@.len() as int);
                            }
                            return Err(AttrError::InvalidDep(attr.clone(), item_type_name_exec(other)));
                        },
                    }
                    i = i + 1;
                }
                Ok(AttrValue::DepList(out))
            },
            _ => Err(AttrError::WrongType(attr.clone(), raw_type_name_exec(v))),
        },
        AttrType::Label | AttrType::Source | AttrType::Query => match v {
            RawValue::Str(s) => Err(AttrError::CantParseDuringCoerce(attr.clone(), s.clone())),
            _ => Err(AttrError::WrongType(attr.clone(), raw_type_name_exec(v))),
        },
    }
}

impl AttrValue {
    /// A copy with the same view.
    pub fn duplicate(&self) -> (r: AttrValue)
        ensures
            r@ == self@,
    {
        match self {
            AttrValue::Str(s) => AttrValue::Str(s.clone()),
            AttrValue::Int(i) => AttrValue::Int(*i),
            AttrValue::Bool(b) => AttrValue::Bool(*b),
            AttrValue::Dep(l) => AttrValue::Dep(l.duplicate()),
            AttrValue::StrList(v) => {
                let mut out: Vec<String> = Vec::new();
                let mut i: usize = 0;
                while i < v.len()
                    invariant
                        i <= v@.len(),
                        out@.len() == i,
                        forall|j: int| 0 <= j < i ==> (#[trigger] out@[j])@ == v@[j]@,
                    decreases v@.len() - i,
                {
                    out.push(v[i].clone());
                    i = i + 1;
                }
                assert(out@.map_values(|s: String| s@) =~= v@.map_values(|s: String| s@));
                AttrValue::StrList(out)
            },
            AttrValue::DepList(v) => {
                let mut out: Vec<TargetLabel> = Vec::new();
                let mut i: usize = 0;
                while i < v.len()
                    invariant
                        i <= v@.len(),
                        out@.len() == i,
                        forall|j: int| 0 <= j < i ==> (#[trigger] out@[j])@ == v@[j]@,
                    decreases v@.len() - i,
                {
                    out.push(v[i].duplicate());
                    i = i + 1;
                }
                assert(out@.map_values(|l: TargetLabel| l@) =~= v@.map_values(|l: TargetLabel| l@));
                AttrValue::DepList(out)
            },
        }
    }
}

} // verus!

verus! {

fn same_labels(a: &Vec<TargetLabel>, b: &Vec<TargetLabel>) -> (r: bool)
    ensures
        r == (a@.map_values(|l: TargetLabel| l@) == b@.map_values(|l: TargetLabel| l@)),
{
    if a.len() != b.len() {
        assert(a@.map_values(|l: TargetLabel| l@).len() != b@.map_values(|l: TargetLabel| l@).len());
        return false;
    }
    let mut i: usize = 0;
    while i < a.len()
        invariant
            a@.len() == b@.len(),
            i <= a@.len(),
            forall|j: int| 0 <= j < i ==> (#[trigger] a@[j])@ == b@[j]@,
        decreases a@.len() - i,
    {
        if !a[i].same_as(&b[i]) {
            assert(a@.map_values(|l: TargetLabel| l@)[i as int] != b@.map_values(|l: TargetLabel| l@)[i as int]);
            return false;
        }
        i = i + 1;
    }
    assert(a@.map_values(|l: TargetLabel| l@) =~= b@.map_values(|l: TargetLabel| l@));
    true
}

fn same_strings(a: &Vec<String>, b: &Vec<String>) -> (r: bool)
    ensures
        r == (a@.map_values(|s: String| s@) == b@.map_values(|s: String| s@)),
{
    if a.len() != b.len() {
        assert(a@.map_values(|s: String| s@).len() != b@.map_values(|s: String| s@).len());
        return false;
    }
    let mut i: usize = 0;
    while i < a.len()
        invariant
            a@.len() == b@.len(),
            i <= a@.len(),
            forall|j: int| 0 <= j < i ==> (#[trigger] a@[j])@ == b@[j]@,
        decreases a@.len() - i,
    {
        if a[i] != b[i] {
            assert(a@.map_values(|s: String| s@)[i as int] != b@.map_values(|s: String| s@)[i as int]);
            return false;
        }
        i = i + 1;
    }
    assert(a@.map_values(|s: String| s@) =~= b@.map_values(|s: String| s@));
    true
}

impl AttrValue {
    /// Whether two values are the same.
    pub fn same_as(&self, other: &AttrValue) -> (r: bool)
        ensures
            r == (self@ == other@),
    {
        match (self, other) {
            (AttrValue::Str(a), AttrValue::Str(b)) => *a == *b,
            (AttrValue::Int(a), AttrValue::Int(b)) => *a == *b,
            (AttrValue::Bool(a), AttrValue::Bool(b)) => *a == *b,
            (AttrValue::Dep(a), AttrValue::Dep(b)) => a.same_as(b),
            (AttrValue::StrList(a), AttrValue::StrList(b)) => same_strings(a, b),
            (AttrValue::DepList(a), AttrValue::DepList(b)) => same_labels(a, b),
            _ => false,
        }
    }
}

} // verus!
