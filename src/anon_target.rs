//! The descriptor of an anonymous target: rule, name, configured attributes
//! and execution configuration, built from a schema and raw input.

use std::sync::Arc;

use vstd::prelude::*;

use crate::attrs::{
    coerce_attr, coerce_value, default_view, raw_type_name, raw_type_name_exec, AttrSpec,
    AttrValue, AttrValueView, RawValue,
};
use crate::error::{AttrError, AttrErrorView};
use crate::label::{
    anon_cell, create_name, is_valid_target_name, parse_label, parse_target_label, str_eq,
    LabelView, TargetLabel,
};

verus! {

/// The identity of a rule: where it is defined and its name.
#[derive(Debug, Clone, Hash)]
pub struct RuleType {
    pub path: String,
    pub name: String,
}

/// A rule's attribute schema: its identity and its attributes, in order.
#[derive(Debug, Clone)]
pub struct RuleSchema {
    pub rule_type: RuleType,
    pub attrs: Vec<AttrSpec>,
}

impl RuleSchema {
    /// No two attributes share a name.
    pub open spec fn wf(&self) -> bool {
        forall|i: int, j: int|
            0 <= i < j < self.attrs@.len() ==> #[trigger] self.attrs@[i].name@
                != #[trigger] self.attrs@[j].name@
    }
}

/// A configured attribute: its name and value.
#[derive(Debug, Clone, Hash)]
pub struct AttrEntry {
    pub name: String,
    pub value: AttrValue,
}

impl View for AttrEntry {
    type V = (Seq<char>, AttrValueView);

    open spec fn view(&self) -> (Seq<char>, AttrValueView) {
        (self.name@, self.value@)
    }
}

/// Raw input: attribute names with untyped values.
pub type RawAttrs = Vec<(String, RawValue)>;

/// The names that no caller may set: `name` is handled on its own, the
/// rest belong to the build system.
pub open spec fn is_internal(k: Seq<char>) -> bool {
    k == "name"@ || k == "visibility"@ || k == "within_view"@ || k == "tests"@ || k
        == "default_target_platform"@ || k == "target_compatible_with"@ || k
        == "compatible_with"@ || k == "exec_compatible_with"@
}

fn is_internal_exec(k: &str) -> (r: bool)
    ensures
        r == is_internal(k@),
{
    str_eq(k, "name") || str_eq(k, "visibility") || str_eq(k, "within_view") || str_eq(k, "tests")
        || str_eq(k, "default_target_platform") || str_eq(k, "target_compatible_with") || str_eq(
        k,
        "compatible_with",
    ) || str_eq(k, "exec_compatible_with")
}

/// The mapping that raw input denotes; a later entry for a name replaces an
/// earlier one.
pub open spec fn input_map(s: Seq<(String, RawValue)>) -> Map<Seq<char>, RawValue>
    decreases s.len(),
{
    if s.len() == 0 {
        Map::empty()
    } else {
        input_map(s.drop_last()).insert(s.last().0@, s.last().1)
    }
}

/// First index `>= i` of an attribute named `k`, or -1.
pub open spec fn find_spec(attrs: Seq<AttrSpec>, k: Seq<char>, i: int) -> int
    decreases attrs.len() - i,
{
    if i < 0 || i >= attrs.len() {
        -1
    } else if attrs[i].name@ == k {
        i
    } else {
        find_spec(attrs, k, i + 1)
    }
}

/// The label that a `name` value denotes.
pub open spec fn name_of_raw(v: RawValue) -> Result<LabelView, AttrErrorView> {
    match v {
        RawValue::Label(l) => Ok(l@),
        RawValue::Str(s) => match parse_label(s@) {
            Some(l) => Ok(l),
            None => Err(AttrErrorView::NotTargetLabel(s@)),
        },
        _ => Err(AttrErrorView::InvalidNameType(raw_type_name(v))),
    }
}

/// What is wrong with one supplied attribute, if anything.
pub open spec fn entry_error(attrs: Seq<AttrSpec>, k: Seq<char>, v: RawValue) -> Option<
    AttrErrorView,
> {
    if k == "name"@ {
        match name_of_raw(v) {
            Ok(_) => None,
            Err(e) => Some(e),
        }
    } else if is_internal(k) {
        Some(AttrErrorView::InternalAttribute(k))
    } else {
        let j = find_spec(attrs, k, 0);
        if j == -1 {
            Some(AttrErrorView::UnknownAttribute(k))
        } else {
            match coerce_value(k, attrs[j].typ, v) {
                Ok(_) => None,
                Err(e) => Some(e),
            }
        }
    }
}

/// The first error among the first `n` supplied attributes, in input order.
pub open spec fn first_error(attrs: Seq<AttrSpec>, input: Seq<(String, RawValue)>, n: int) -> Option<
    AttrErrorView,
>
    decreases n,
{
    if n <= 0 {
        None
    } else {
        match first_error(attrs, input, n - 1) {
            Some(e) => Some(e),
            None => entry_error(attrs, input[n - 1].0@, input[n - 1].1),
        }
    }
}

/// The configured values of the first `n` declared attributes, internal
/// ones left out, in schema order: the supplied value, else the default,
/// else the first missing attribute.
pub open spec fn configured_prefix(
    attrs: Seq<AttrSpec>,
    m: Map<Seq<char>, RawValue>,
    n: int,
) -> Result<Seq<(Seq<char>, AttrValueView)>, AttrErrorView>
    decreases n,
{
    if n <= 0 {
        Ok(Seq::empty())
    } else {
        match configured_prefix(attrs, m, n - 1) {
            Err(e) => Err(e),
            Ok(acc) => {
                let a = attrs[n - 1];
                if is_internal(a.name@) {
                    Ok(acc)
                } else if m.contains_key(a.name@) {
                    match coerce_value(a.name@, a.typ, m[a.name@]) {
                        Ok(x) => Ok(acc.push((a.name@, x))),
                        Err(e) => Err(e),
                    }
                } else {
                    match default_view(a.default) {
                        Some(d) => Ok(acc.push((a.name@, d))),
                        None => Err(AttrErrorView::MissingAttribute(a.name@)),
                    }
                }
            },
        }
    }
}

/// The label of an unnamed target of rule `rule_name`.
pub open spec fn anon_label(rule_name: Seq<char>) -> LabelView {
    LabelView { cell: anon_cell(), package: Seq::empty(), name: rule_name }
}

/// The descriptor's name: the supplied one, else one made from the rule name.
pub open spec fn resolved_name(rule_name: Seq<char>, m: Map<Seq<char>, RawValue>) -> Result<
    LabelView,
    AttrErrorView,
> {
    if m.contains_key("name"@) {
        name_of_raw(m["name"@])
    } else if is_valid_target_name(rule_name) {
        Ok(anon_label(rule_name))
    } else {
        Err(AttrErrorView::InvalidTargetName(rule_name))
    }
}

/// The name and configured attribute set that raw input gives under a
/// schema, or the error: first any error in a supplied attribute (in input
/// order), then any missing attribute (in schema order), then the name.
pub open spec fn configure_spec(schema: RuleSchema, input: Seq<(String, RawValue)>) -> Result<
    (LabelView, Seq<(Seq<char>, AttrValueView)>),
    AttrErrorView,
> {
    let m = input_map(input);
    match first_error(schema.attrs@, input, input.len() as int) {
        Some(e) => Err(e),
        None => match configured_prefix(schema.attrs@, m, schema.attrs@.len() as int) {
            Err(e) => Err(e),
            Ok(attrs) => match resolved_name(schema.rule_type.name@, m) {
                Err(e) => Err(e),
                Ok(n) => Ok((n, attrs)),
            },
        },
    }
}

pub(crate) proof fn lemma_configured_prefix_err(attrs: Seq<AttrSpec>, m: Map<Seq<char>, RawValue>, k: int, n: int)
    requires
        0 <= k <= n,
        configured_prefix(attrs, m, k) is Err,
    ensures
        configured_prefix(attrs, m, n) == configured_prefix(attrs, m, k),
    decreases n,
{
    if n > k {
        lemma_configured_prefix_err(attrs, m, k, n - 1);
    }
}

proof fn lemma_first_error_some(
    attrs: Seq<AttrSpec>,
    input: Seq<(String, RawValue)>,
    k: int,
    n: int,
)
    requires
        0 <= k <= n,
        first_error(attrs, input, k) is Some,
    ensures
        first_error(attrs, input, n) == first_error(attrs, input, k),
    decreases n,
{
    if n > k {
        lemma_first_error_some(attrs, input, k, n - 1);
    }
}

proof fn lemma_input_map_step(s: Seq<(String, RawValue)>, i: int)
    requires
        0 <= i < s.len(),
    ensures
        input_map(s.subrange(0, i + 1)) == input_map(s.subrange(0, i)).insert(s[i].0@, s[i].1),
{
    assert(s.subrange(0, i + 1).drop_last() =~= s.subrange(0, i));
}

/// Index of the last entry named `k`: the one whose value the input's
/// mapping holds.
fn lookup_last(input: &RawAttrs, k: &str) -> (r: Option<usize>)
    ensures
        match r {
            None => !input_map(input@).contains_key(k@),
            Some(j) => j < input@.len() && input@[j as int].0@ == k@ && input_map(
                input@,
            ).contains_key(k@) && input_map(input@)[k@] == input@[j as int].1,
        },
{
    let mut found: Option<usize> = None;
    let mut i: usize = 0;
    assert(input@.subrange(0, 0) =~= Seq::<(String, RawValue)>::empty());
    while i < input.len()
        invariant
            i <= input@.len(),
            match found {
                None => !input_map(input@.subrange(0, i as int)).contains_key(k@),
                Some(j) => j < i && input@[j as int].0@ == k@ && input_map(
                    input@.subrange(0, i as int),
                ).contains_key(k@) && input_map(input@.subrange(0, i as int))[k@]
                    == input@[j as int].1,
            },
        decreases input@.len() - i,
    {
        proof {
            lemma_input_map_step(input@, i as int);
        }
        if str_eq(input[i].0.as_str(), k) {
            found = Some(i);
        }
        i = i + 1;
    }
    assert(input@.subrange(0, input@.len() as int) =~= input@);
    found
}

fn find_spec_exec(attrs: &Vec<AttrSpec>, k: &String) -> (r: Option<usize>)
    ensures
        match r {
            None => find_spec(attrs@, k@, 0) == -1,
            Some(j) => j == find_spec(attrs@, k@, 0) && j < attrs@.len(),
        },
{
    let mut i: usize = 0;
    while i < attrs.len()
        invariant
            i <= attrs@.len(),
            find_spec(attrs@, k@, i as int) == find_spec(attrs@, k@, 0),
        decreases attrs@.len() - i,
    {
        if attrs[i].name == *k {
            return Some(i);
        }
        i = i + 1;
    }
    None
}

/// The label that a `name` value denotes: a label as it is, a string parsed.
pub fn coerce_name(v: &RawValue) -> (r: Result<TargetLabel, AttrError>)
    ensures
        match name_of_raw(*v) {
            Ok(l) => r matches Ok(t) && t@ == l,
            Err(e) => r matches Err(f) && f@ == e,
        },
{
    match v {
        RawValue::Label(l) => Ok(l.duplicate()),
        RawValue::Str(s) => parse_target_label(s.as_str()),
        _ => Err(AttrError::InvalidNameType(raw_type_name_exec(v))),
    }
}

fn check_entry(attrs: &Vec<AttrSpec>, k: &String, v: &RawValue) -> (r: Result<(), AttrError>)
    ensures
        match entry_error(attrs@, k@, *v) {
            None => r is Ok,
            Some(e) => r matches Err(f) && f@ == e,
        },
{
    proof {
        reveal_strlit("name");
    }
    if str_eq(k.as_str(), "name") {
        match coerce_name(v) {
            Ok(_) => Ok(()),
            Err(e) => Err(e),
        }
    } else if is_internal_exec(k.as_str()) {
        Err(AttrError::InternalAttribute(k.clone()))
    } else {
        match find_spec_exec(attrs, k) {
            None => Err(AttrError::UnknownAttribute(k.clone())),
            Some(j) => match coerce_attr(k, attrs[j].typ, v) {
                Ok(_) => Ok(()),
                Err(e) => Err(e),
            },
        }
    }
}

/// Validates, coerces and defaults raw input against a rule's schema: the
/// name of the target and its configured attributes, in schema order.
pub fn configure_attributes(schema: &RuleSchema, input: &RawAttrs) -> (r: Result<
    (TargetLabel, Vec<AttrEntry>),
    AttrError,
>)
    ensures
        match configure_spec(*schema, input@) {
            Ok((n, a)) => r matches Ok((t, v)) && t@ == n && v@.map_values(|e: AttrEntry| e@)
                == a,
            Err(e) => r matches Err(f) && f@ == e,
        },
{
    let attrs = &schema.attrs;
    let mut i: usize = 0;
    while i < input.len()
        invariant
            i <= input@.len(),
            attrs@ == schema.attrs@,
            first_error(attrs@, input@, i as int) is None,
        decreases input@.len() - i,
    {
        match check_entry(attrs, &input[i].0, &input[i].1) {
            Ok(()) => {},
            Err(e) => {
                proof {
                    lemma_first_error_some(attrs@, input@, i + 1, input@.len() as int);
                }
                return Err(e);
            },
        }
        i = i + 1;
    }
    let ghost m = input_map(input@);
    let mut out: Vec<AttrEntry> = Vec::new();
    let mut j: usize = 0;
    assert(out@.map_values(|e: AttrEntry| e@) =~= Seq::<(Seq<char>, AttrValueView)>::empty());
    while j < attrs.len()
        invariant
            j <= attrs@.len(),
            attrs@ == schema.attrs@,
            m == input_map(input@),
            first_error(attrs@, input@, input@.len() as int) is None,
            configured_prefix(attrs@, m, j as int) == Ok::<
                Seq<(Seq<char>, AttrValueView)>,
                AttrErrorView,
            >(out@.map_values(|e: AttrEntry| e@)),
        decreases attrs@.len() - j,
    {
        let a = &attrs[j];
        if !is_internal_exec(a.name.as_str()) {
            let value = match lookup_last(input, a.name.as_str()) {
                Some(idx) => match coerce_attr(&a.name, a.typ, &input[idx].1) {
                    Ok(x) => x,
                    Err(e) => {
                        proof {
                            lemma_configured_prefix_err(attrs@, m, j + 1, attrs@.len() as int);
                        }
                        return Err(e);
                    },
                },
                None => match &a.default {
                    Some(d) => d.duplicate(),
                    None => {
                        proof {
                            lemma_configured_prefix_err(attrs@, m, j + 1, attrs@.len() as int);
                        }
                        return Err(AttrError::MissingAttribute(a.name.clone()));
                    },
                },
            };
            let ghost before = out@.map_values(|e: AttrEntry| e@);
            out.push(AttrEntry { name: a.name.clone(), value });
            assert(out@.map_values(|e: AttrEntry| e@) =~= before.push((a.name@, value@)));
        }
        j = j + 1;
    }
    proof {
        reveal_strlit("name");
    }
    let name = match lookup_last(input, "name") {
        Some(idx) => coerce_name(&input[idx].1),
        None => create_name(schema.rule_type.name.as_str()),
    };
    match name {
        Ok(n) => Ok((n, out)),
        Err(e) => Err(e),
    }
}

} // verus!

verus! {

/// The identity of an anonymous target. Two descriptors are equal when all
/// four parts are equal, whoever built them.
#[derive(Debug, Clone, Hash)]
pub struct AnonTarget {
    rule_type: RuleType,
    name: TargetLabel,
    attrs: Vec<AttrEntry>,
    exec_cfg: String,
}

pub struct AnonTargetView {
    pub rule_path: Seq<char>,
    pub rule_name: Seq<char>,
    pub name: LabelView,
    pub attrs: Seq<(Seq<char>, AttrValueView)>,
    pub exec_cfg: Seq<char>,
}

impl View for AnonTarget {
    type V = AnonTargetView;

    closed spec fn view(&self) -> AnonTargetView {
        AnonTargetView {
            rule_path: self.rule_type.path@,
            rule_name: self.rule_type.name@,
            name: self.name@,
            attrs: self.attrs@.map_values(|e: AttrEntry| e@),
            exec_cfg: self.exec_cfg@,
        }
    }
}

/// The descriptor that raw input gives for a rule under an execution
/// configuration, or the error.
pub open spec fn descriptor_spec(
    schema: RuleSchema,
    input: Seq<(String, RawValue)>,
    exec_cfg: Seq<char>,
) -> Result<AnonTargetView, AttrErrorView> {
    match configure_spec(schema, input) {
        Ok((n, a)) => Ok(
            AnonTargetView {
                rule_path: schema.rule_type.path@,
                rule_name: schema.rule_type.name@,
                name: n,
                attrs: a,
                exec_cfg,
            },
        ),
        Err(e) => Err(e),
    }
}

/// The labels of all dependencies in a configured attribute set, in order.
pub open spec fn dep_labels(attrs: Seq<(Seq<char>, AttrValueView)>) -> Seq<LabelView>
    decreases attrs.len(),
{
    if attrs.len() == 0 {
        Seq::empty()
    } else {
        dep_labels(attrs.drop_last()) + match attrs.last().1 {
            AttrValueView::Dep(l) => seq![l],
            AttrValueView::DepList(ls) => ls,
            _ => Seq::empty(),
        }
    }
}

impl AnonTarget {
    /// Builds the descriptor for `schema`'s rule from raw input, under the
    /// execution configuration of the enclosing analysis.
    pub fn new(schema: &RuleSchema, input: &RawAttrs, exec_cfg: &String) -> (r: Result<
        AnonTarget,
        AttrError,
    >)
        ensures
            match descriptor_spec(*schema, input@, exec_cfg@) {
                Ok(d) => r matches Ok(t) && t@ == d,
                Err(e) => r matches Err(f) && f@ == e,
            },
    {
        match configure_attributes(schema, input) {
            Ok((name, attrs)) => Ok(
                AnonTarget {
                    rule_type: RuleType {
                        path: schema.rule_type.path.clone(),
                        name: schema.rule_type.name.clone(),
                    },
                    name,
                    attrs,
                    exec_cfg: exec_cfg.clone(),
                },
            ),
            Err(e) => Err(e),
        }
    }

    pub fn name(&self) -> (r: &TargetLabel)
        ensures
            r@ == self@.name,
    {
        &self.name
    }

    pub fn rule_type(&self) -> (r: &RuleType)
        ensures
            r.path@ == self@.rule_path,
            r.name@ == self@.rule_name,
    {
        &self.rule_type
    }

    pub fn attrs(&self) -> (r: &Vec<AttrEntry>)
        ensures
            r@.map_values(|e: AttrEntry| e@) == self@.attrs,
    {
        &self.attrs
    }

    pub fn exec_cfg(&self) -> (r: &String)
        ensures
            r@ == self@.exec_cfg,
    {
        &self.exec_cfg
    }

    /// Whether two descriptors are structurally the same.
    pub fn same_as(&self, other: &AnonTarget) -> (r: bool)
        ensures
            r == (self@ == other@),
    {
        if !(self.rule_type.path == other.rule_type.path && self.rule_type.name
            == other.rule_type.name && self.name.same_as(&other.name) && self.exec_cfg
            == other.exec_cfg) {
            return false;
        }
        let a = &self.attrs;
        let b = &other.attrs;
        if a.len() != b.len() {
            assert(a@.map_values(|e: AttrEntry| e@).len() != b@.map_values(|e: AttrEntry| e@).len());
            return false;
        }
        let mut i: usize = 0;
        while i < a.len()
            invariant
                a@ == self.attrs@,
                b@ == other.attrs@,
                a@.len() == b@.len(),
                i <= a@.len(),
                forall|j: int| 0 <= j < i ==> (#[trigger] a@[j])@ == b@[j]@,
            decreases a@.len() - i,
        {
            if !(a[i].name == b[i].name && a[i].value.same_as(&b[i].value)) {
                assert(a@.map_values(|e: AttrEntry| e@)[i as int] != b@.map_values(
                    |e: AttrEntry| e@,
                )[i as int]);
                return false;
            }
            i = i + 1;
        }
        assert(a@.map_values(|e: AttrEntry| e@) =~= b@.map_values(|e: AttrEntry| e@));
        true
    }

    /// Every dependency label that the configured attributes mention, in
    /// attribute order.
    pub fn deps(&self) -> (r: Vec<TargetLabel>)
        ensures
            r@.map_values(|l: TargetLabel| l@) == dep_labels(self@.attrs),
    {
        let ghost av = self@.attrs;
        let mut out: Vec<TargetLabel> = Vec::new();
        let mut i: usize = 0;
        assert(out@.map_values(|l: TargetLabel| l@) =~= dep_labels(av.subrange(0, 0)));
        while i < self.attrs.len()
            invariant
                i <= self.attrs@.len(),
                av == self@.attrs,
                out@.map_values(|l: TargetLabel| l@) == dep_labels(av.subrange(0, i as int)),
            decreases self.attrs@.len() - i,
        {
            assert(av.subrange(0, i + 1).drop_last() =~= av.subrange(0, i as int));
            let ghost before = out@.map_values(|l: TargetLabel| l@);
            match &self.attrs[i].value {
                AttrValue::Dep(l) => {
                    out.push(l.duplicate());
                    assert(out@.map_values(|l: TargetLabel| l@) =~= before + seq![l@]);
                },
                AttrValue::DepList(ls) => {
                    let mut k: usize = 0;
                    while k < ls.len()
                        invariant
                            k <= ls@.len(),
                            out@.map_values(|l: TargetLabel| l@) =~= before + ls@.subrange(
                                0,
                                k as int,
                            ).map_values(|l: TargetLabel| l@),
                        decreases ls@.len() - k,
                    {
                        let ghost prev = out@.map_values(|l: TargetLabel| l@);
                        out.push(ls[k].duplicate());
                        assert(out@.map_values(|l: TargetLabel| l@) =~= prev.push(ls@[k as int]@));
                        assert(ls@.subrange(0, k + 1).map_values(|l: TargetLabel| l@)
                            =~= ls@.subrange(0, k as int).map_values(|l: TargetLabel| l@).push(
                            ls@[k as int]@,
                        ));
                        assert(before + ls@.subrange(0, k + 1).map_values(|l: TargetLabel| l@)
                            =~= (before + ls@.subrange(0, k as int).map_values(
                            |l: TargetLabel| l@,
                        )).push(ls@[k as int]@));
                        k = k + 1;
                    }
                    assert(ls@.subrange(0, ls@.len() as int) =~= ls@);
                },
                _ => {
                    assert(out@.map_values(|l: TargetLabel| l@) =~= before + Seq::empty());
                },
            }
            i = i + 1;
        }
        assert(av.subrange(0, av.len() as int) =~= av);
        out
    }
}

impl PartialEq for AnonTarget {
    fn eq(&self, other: &AnonTarget) -> (r: bool) {
        self.same_as(other)
    }
}

impl vstd::std_specs::cmp::PartialEqSpecImpl for AnonTarget {
    open spec fn obeys_eq_spec() -> bool {
        true
    }

    open spec fn eq_spec(&self, other: &AnonTarget) -> bool {
        self@ == other@
    }
}

/// The memoization key of an anonymous target: a shared descriptor, compared
/// and hashed by value.
#[derive(Debug, Clone, Hash)]
pub struct AnonTargetKey(pub Arc<AnonTarget>);

impl View for AnonTargetKey {
    type V = AnonTargetView;

    open spec fn view(&self) -> AnonTargetView {
        (*self.0)@
    }
}

impl AnonTargetKey {
    /// Builds the key for `schema`'s rule from raw input, under the execution
    /// configuration of the enclosing analysis.
    pub fn new(schema: &RuleSchema, input: &RawAttrs, exec_cfg: &String) -> (r: Result<
        AnonTargetKey,
        AttrError,
    >)
        ensures
            match descriptor_spec(*schema, input@, exec_cfg@) {
                Ok(d) => r matches Ok(t) && t@ == d,
                Err(e) => r matches Err(f) && f@ == e,
            },
    {
        match AnonTarget::new(schema, input, exec_cfg) {
            Ok(t) => Ok(AnonTargetKey(Arc::new(t))),
            Err(e) => Err(e),
        }
    }

    pub fn target(&self) -> (r: &AnonTarget)
        ensures
            r@ == self@,
    {
        &self.0
    }

    pub fn same_as(&self, other: &AnonTargetKey) -> (r: bool)
        ensures
            r == (self@ == other@),
    {
        self.0.same_as(&other.0)
    }
}

impl PartialEq for AnonTargetKey {
    fn eq(&self, other: &AnonTargetKey) -> (r: bool) {
        self.same_as(other)
    }
}

impl vstd::std_specs::cmp::PartialEqSpecImpl for AnonTargetKey {
    open spec fn obeys_eq_spec() -> bool {
        true
    }

    open spec fn eq_spec(&self, other: &AnonTargetKey) -> bool {
        self@ == other@
    }
}

} // verus!
