//! What holds of descriptors across inputs: independence of input order,
//! defaults, and the naming of targets.

use vstd::prelude::*;

use crate::anon_target::{
    anon_label, configured_prefix, lemma_configured_prefix_err, descriptor_spec, entry_error, find_spec,
    first_error, input_map, is_internal, name_of_raw, RuleSchema,
};
use crate::attrs::{coerce_value, default_view, RawValue};
use crate::error::AttrErrorView;
use crate::label::{
    find_char, find_double_slash, is_valid_cell, is_valid_package, label_text, parse_label,
};

verus! {

/// No two entries of raw input share a name: the input is a mapping.
pub open spec fn distinct_names(s: Seq<(String, RawValue)>) -> bool {
    forall|i: int, j: int| 0 <= i < j < s.len() ==> #[trigger] s[i].0@ != #[trigger] s[j].0@
}

proof fn lemma_first_error_none(
    attrs: Seq<crate::attrs::AttrSpec>,
    s: Seq<(String, RawValue)>,
    n: int,
)
    requires
        0 <= n <= s.len(),
    ensures
        first_error(attrs, s, n) is None <==> forall|i: int|
            0 <= i < n ==> #[trigger] entry_error(attrs, s[i].0@, s[i].1) is None,
    decreases n,
{
    if n > 0 {
        lemma_first_error_none(attrs, s, n - 1);
    }
}

proof fn lemma_first_error_only(
    attrs: Seq<crate::attrs::AttrSpec>,
    s: Seq<(String, RawValue)>,
    i0: int,
    n: int,
)
    requires
        0 <= i0 < n <= s.len(),
        entry_error(attrs, s[i0].0@, s[i0].1) is Some,
        forall|i: int|
            0 <= i < n && i != i0 ==> #[trigger] entry_error(attrs, s[i].0@, s[i].1) is None,
    ensures
        first_error(attrs, s, n) == entry_error(attrs, s[i0].0@, s[i0].1),
    decreases n,
{
    if n - 1 > i0 {
        lemma_first_error_only(attrs, s, i0, n - 1);
    } else {
        lemma_first_error_none(attrs, s, n - 1);
    }
}

proof fn lemma_map_entries(s: Seq<(String, RawValue)>)
    ensures
        forall|k: Seq<char>|
            #[trigger] input_map(s).contains_key(k) ==> exists|i: int|
                0 <= i < s.len() && s[i].0@ == k && s[i].1 == input_map(s)[k],
        forall|i: int| 0 <= i < s.len() ==> input_map(s).contains_key(#[trigger] s[i].0@),
    decreases s.len(),
{
    if s.len() > 0 {
        let t = s.drop_last();
        lemma_map_entries(t);
        assert forall|k: Seq<char>| #[trigger] input_map(s).contains_key(k) implies exists|i: int|
            0 <= i < s.len() && s[i].0@ == k && s[i].1 == input_map(s)[k] by {
            if k == s.last().0@ {
                assert(s[s.len() - 1].0@ == k);
            } else {
                let i = choose|i: int| 0 <= i < t.len() && t[i].0@ == k && t[i].1 == input_map(t)[k];
                assert(s[i] == t[i]);
            }
        }
        assert forall|i: int| 0 <= i < s.len() implies input_map(s).contains_key(#[trigger] s[i].0@) by {
            if i < s.len() - 1 {
                assert(s[i] == t[i]);
            }
        }
    }
}

proof fn lemma_map_value(s: Seq<(String, RawValue)>, i: int)
    requires
        distinct_names(s),
        0 <= i < s.len(),
    ensures
        input_map(s).contains_key(s[i].0@),
        input_map(s)[s[i].0@] == s[i].1,
    decreases s.len(),
{
    let t = s.drop_last();
    if i < s.len() - 1 {
        assert(s[i] == t[i]);
        assert(distinct_names(t)) by {
            assert forall|a: int, b: int| 0 <= a < b < t.len() implies #[trigger] t[a].0@ != #[trigger] t[b].0@ by {
                assert(s[a] == t[a] && s[b] == t[b]);
            }
        }
        lemma_map_value(t, i);
    }
}

/// Whether every supplied attribute is fine depends on the input's mapping
/// alone.
proof fn lemma_first_error_by_map(attrs: Seq<crate::attrs::AttrSpec>, s: Seq<(String, RawValue)>)
    requires
        distinct_names(s),
    ensures
        first_error(attrs, s, s.len() as int) is None <==> forall|k: Seq<char>|
            #[trigger] input_map(s).contains_key(k) ==> entry_error(attrs, k, input_map(s)[k]) is None,
{
    lemma_first_error_none(attrs, s, s.len() as int);
    lemma_map_entries(s);
    if first_error(attrs, s, s.len() as int) is None {
        assert forall|k: Seq<char>| #[trigger] input_map(s).contains_key(k) implies entry_error(
            attrs,
            k,
            input_map(s)[k],
        ) is None by {
            let i = choose|i: int| 0 <= i < s.len() && s[i].0@ == k && s[i].1 == input_map(s)[k];
            assert(entry_error(attrs, s[i].0@, s[i].1) is None);
        }
    } else {
        let i = choose|i: int| 0 <= i < s.len() && !(#[trigger] entry_error(attrs, s[i].0@, s[i].1) is None);
        lemma_map_value(s, i);
    }
}

/// Order independence: two inputs that list the same attributes with the
/// same values, in whatever order, give equal descriptors, or both fail.
pub proof fn lemma_descriptor_order_independent(
    schema: RuleSchema,
    a: Seq<(String, RawValue)>,
    b: Seq<(String, RawValue)>,
    exec_cfg: Seq<char>,
)
    requires
        distinct_names(a),
        distinct_names(b),
        input_map(a) == input_map(b),
    ensures
        descriptor_spec(schema, a, exec_cfg) is Ok <==> descriptor_spec(schema, b, exec_cfg) is Ok,
        descriptor_spec(schema, a, exec_cfg) is Ok ==> descriptor_spec(schema, a, exec_cfg)
            == descriptor_spec(schema, b, exec_cfg),
{
    lemma_first_error_by_map(schema.attrs@, a);
    lemma_first_error_by_map(schema.attrs@, b);
}

proof fn lemma_prefix_ok_back(
    attrs: Seq<crate::attrs::AttrSpec>,
    m: Map<Seq<char>, RawValue>,
    k: int,
    n: int,
)
    requires
        0 <= k <= n,
        configured_prefix(attrs, m, n) is Ok,
    ensures
        configured_prefix(attrs, m, k) is Ok,
        configured_prefix(attrs, m, k)->Ok_0.to_set().subset_of(
            configured_prefix(attrs, m, n)->Ok_0.to_set(),
        ),
    decreases n,
{
    if n > k {
        lemma_prefix_ok_back(attrs, m, k, n - 1);
        let p = configured_prefix(attrs, m, n - 1)->Ok_0;
        let q = configured_prefix(attrs, m, n)->Ok_0;
        assert(p.to_set().subset_of(q.to_set())) by {
            assert forall|x| p.to_set().contains(x) implies q.to_set().contains(x) by {
                let j = choose|j: int| 0 <= j < p.len() && p[j] == x;
                assert(q[j] == x);
            }
        }
    }
}

proof fn lemma_find_spec_wf(schema: RuleSchema, j: int, i: int)
    requires
        schema.wf(),
        0 <= i <= j < schema.attrs@.len(),
    ensures
        find_spec(schema.attrs@, schema.attrs@[j].name@, i) == j,
    decreases j - i,
{
    if i < j {
        assert(schema.attrs@[i].name@ != schema.attrs@[j].name@);
        lemma_find_spec_wf(schema, j, i + 1);
    }
}

/// Defaults: an attribute that the input omits takes its schema default in
/// the configured set; one without a default fails the call, with
/// `MissingAttribute` where nothing else is wrong before it.
pub proof fn lemma_omitted_attribute(
    schema: RuleSchema,
    input: Seq<(String, RawValue)>,
    exec_cfg: Seq<char>,
    i: int,
)
    requires
        schema.wf(),
        0 <= i < schema.attrs@.len(),
        !is_internal(schema.attrs@[i].name@),
        !input_map(input).contains_key(schema.attrs@[i].name@),
    ensures
        ({
            let a = schema.attrs@[i];
            &&& (a.default is Some && descriptor_spec(schema, input, exec_cfg) is Ok)
                ==> descriptor_spec(schema, input, exec_cfg)->Ok_0.attrs.contains(
                (a.name@, default_view(a.default)->Some_0),
            )
            &&& a.default is None ==> descriptor_spec(schema, input, exec_cfg) is Err
            &&& (a.default is None && first_error(schema.attrs@, input, input.len() as int) is None
                && forall|j: int|
                0 <= j < i ==> #[trigger] is_internal(schema.attrs@[j].name@) || input_map(
                    input,
                ).contains_key(schema.attrs@[j].name@) || schema.attrs@[j].default is Some)
                ==> descriptor_spec(schema, input, exec_cfg) == Err::<
                crate::anon_target::AnonTargetView,
                AttrErrorView,
            >(AttrErrorView::MissingAttribute(a.name@))
        }),
{
    let attrs = schema.attrs@;
    let m = input_map(input);
    let n = attrs.len() as int;
    let a = attrs[i];
    if a.default is Some {
        if configured_prefix(attrs, m, n) is Ok {
            lemma_prefix_ok_back(attrs, m, i + 1, n);
            let p = configured_prefix(attrs, m, i + 1)->Ok_0;
            let d = default_view(a.default)->Some_0;
            assert(p[p.len() - 1] == (a.name@, d));
            assert(p.to_set().contains((a.name@, d)));
        }
    } else {
        if configured_prefix(attrs, m, i) is Err {
            lemma_configured_prefix_err(attrs, m, i, i + 1);
        }
        lemma_configured_prefix_err(attrs, m, i + 1, n);
        if first_error(attrs, input, input.len() as int) is None && forall|j: int|
            0 <= j < i ==> #[trigger] is_internal(attrs[j].name@) || m.contains_key(attrs[j].name@)
                || attrs[j].default is Some {
            lemma_first_error_none(attrs, input, input.len() as int);
            lemma_map_entries(input);
            lemma_prefix_ok_upto(schema, input, i);
        }
    }
}

proof fn lemma_prefix_ok_upto(schema: RuleSchema, input: Seq<(String, RawValue)>, n: int)
    requires
        schema.wf(),
        0 <= n <= schema.attrs@.len(),
        first_error(schema.attrs@, input, input.len() as int) is None,
        forall|j: int|
            0 <= j < n ==> #[trigger] is_internal(schema.attrs@[j].name@) || input_map(
                input,
            ).contains_key(schema.attrs@[j].name@) || schema.attrs@[j].default is Some,
    ensures
        configured_prefix(schema.attrs@, input_map(input), n) is Ok,
    decreases n,
{
    if n > 0 {
        let attrs = schema.attrs@;
        let m = input_map(input);
        lemma_prefix_ok_upto(schema, input, n - 1);
        let a = attrs[n - 1];
        if !is_internal(a.name@) && m.contains_key(a.name@) {
            lemma_first_error_none(attrs, input, input.len() as int);
            lemma_map_entries(input);
            let i = choose|i: int|
                0 <= i < input.len() && input[i].0@ == a.name@ && input[i].1 == m[a.name@];
            assert(entry_error(attrs, input[i].0@, input[i].1) is None);
            lemma_find_spec_wf(schema, n - 1, 0);
            assert(a.name@ != "name"@);
            assert(coerce_value(a.name@, a.typ, m[a.name@]) is Ok);
        }
    }
}

/// Unnamed targets: without a `name`, a target is named after its rule in
/// the reserved anonymous cell, and the text of that label parses back to
/// it.
pub proof fn lemma_unnamed_target(schema: RuleSchema, input: Seq<(String, RawValue)>, exec_cfg: Seq<char>)
    requires
        !input_map(input).contains_key("name"@),
        descriptor_spec(schema, input, exec_cfg) is Ok,
    ensures
        descriptor_spec(schema, input, exec_cfg)->Ok_0.name == anon_label(schema.rule_type.name@),
        parse_label(label_text(anon_label(schema.rule_type.name@))) == Some(
            anon_label(schema.rule_type.name@),
        ),
{
    let name = schema.rule_type.name@;
    let l = anon_label(name);
    let t = label_text(l);
    let anon = seq!['a', 'n', 'o', 'n'];
    assert(l.cell =~= anon);
    assert(t =~= anon + seq!['/', '/'] + seq![':'] + name);
    assert(t[0] == 'a' && t[1] == 'n' && t[2] == 'o' && t[3] == 'n' && t[4] == '/' && t[5] == '/'
        && t[6] == ':');
    assert(find_double_slash(t, 4) == 4);
    assert(find_double_slash(t, 3) == 4);
    assert(find_double_slash(t, 2) == 4);
    assert(find_double_slash(t, 1) == 4);
    assert(find_double_slash(t, 0) == 4);
    let rest = t.subrange(6, t.len() as int);
    assert(rest[0] == ':');
    assert(find_char(rest, ':', 0) == 0);
    assert(t.subrange(0, 4) =~= anon);
    assert(rest.subrange(0, 0) =~= Seq::<char>::empty());
    assert(rest.subrange(1, rest.len() as int) =~= name);
    assert(is_valid_cell(anon));
    assert(find_double_slash(Seq::<char>::empty(), 0) == -1);
    assert(is_valid_package(Seq::<char>::empty()));
}

/// A `name` string that is not a target label fails the call, with
/// `NotTargetLabel` where every other supplied attribute is fine.
pub proof fn lemma_bad_name(
    schema: RuleSchema,
    input: Seq<(String, RawValue)>,
    exec_cfg: Seq<char>,
    s: String,
)
    requires
        distinct_names(input),
        input_map(input).contains_key("name"@),
        input_map(input)["name"@] == RawValue::Str(s),
        parse_label(s@) is None,
    ensures
        descriptor_spec(schema, input, exec_cfg) is Err,
        (forall|i: int|
            0 <= i < input.len() && input[i].0@ != "name"@ ==> #[trigger] entry_error(
                schema.attrs@,
                input[i].0@,
                input[i].1,
            ) is None) ==> descriptor_spec(schema, input, exec_cfg) == Err::<
            crate::anon_target::AnonTargetView,
            AttrErrorView,
        >(AttrErrorView::NotTargetLabel(s@)),
{
    let attrs = schema.attrs@;
    lemma_map_entries(input);
    let i0 = choose|i: int|
        0 <= i < input.len() && input[i].0@ == "name"@ && input[i].1 == input_map(input)["name"@];
    assert(name_of_raw(input[i0].1) == Err::<crate::label::LabelView, AttrErrorView>(
        AttrErrorView::NotTargetLabel(s@),
    ));
    assert(entry_error(attrs, input[i0].0@, input[i0].1) == Some(AttrErrorView::NotTargetLabel(s@)));
    lemma_first_error_none(attrs, input, input.len() as int);
    if forall|i: int|
        0 <= i < input.len() && input[i].0@ != "name"@ ==> #[trigger] entry_error(
            attrs,
            input[i].0@,
            input[i].1,
        ) is None {
        assert forall|i: int| 0 <= i < input.len() && i != i0 implies #[trigger] entry_error(
            attrs,
            input[i].0@,
            input[i].1,
        ) is None by {
            if i < i0 {
                assert(input[i].0@ != input[i0].0@);
            } else {
                assert(input[i0].0@ != input[i].0@);
            }
        }
        lemma_first_error_only(attrs, input, i0, input.len() as int);
    }
}

} // verus!
