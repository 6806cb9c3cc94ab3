//! Target labels `cell//package:name`, and their syntax.

use vstd::prelude::*;
use vstd::string::StrSliceExecFns;
use vstd::string::StringExecFns;

use crate::error::AttrError;

verus! {

/// A target label: the cell, the package path within it, and the target name.
#[derive(Debug, Clone, Hash)]
pub struct TargetLabel {
    pub cell: String,
    pub package: String,
    pub name: String,
}

pub struct LabelView {
    pub cell: Seq<char>,
    pub package: Seq<char>,
    pub name: Seq<char>,
}

impl View for TargetLabel {
    type V = LabelView;

    open spec fn view(&self) -> LabelView {
        LabelView { cell: self.cell@, package: self.package@, name: self.name@ }
    }
}

/// The cell that holds the labels of unnamed anonymous targets.
pub open spec fn anon_cell() -> Seq<char> {
    seq!['a', 'n', 'o', 'n']
}

pub open spec fn is_ascii_alnum(c: char) -> bool {
    ('a' <= c && c <= 'z') || ('A' <= c && c <= 'Z') || ('0' <= c && c <= '9')
}

pub open spec fn is_cell_char(c: char) -> bool {
    is_ascii_alnum(c) || c == '_' || c == '-'
}

pub open spec fn is_target_char(c: char) -> bool {
    is_ascii_alnum(c) || c == '_' || c == ',' || c == '.' || c == '=' || c == '-' || c == '\\'
        || c == '~' || c == '@' || c == '!' || c == '+' || c == '$'
}

pub open spec fn is_package_char(c: char) -> bool {
    is_target_char(c) || c == '/'
}

pub open spec fn is_valid_cell(s: Seq<char>) -> bool {
    forall|i: int| 0 <= i < s.len() ==> is_cell_char(#[trigger] s[i])
}

pub open spec fn all_target_chars(s: Seq<char>) -> bool {
    forall|i: int| 0 <= i < s.len() ==> is_target_char(#[trigger] s[i])
}

pub open spec fn all_package_chars(s: Seq<char>) -> bool {
    forall|i: int| 0 <= i < s.len() ==> is_package_char(#[trigger] s[i])
}

pub open spec fn is_valid_target_name(s: Seq<char>) -> bool {
    s.len() > 0 && all_target_chars(s)
}

/// A package path: empty, or segments joined by single slashes.
pub open spec fn is_valid_package(s: Seq<char>) -> bool {
    &&& all_package_chars(s)
    &&& s.len() > 0 ==> s[0] != '/' && s.last() != '/'
    &&& find_double_slash(s, 0) == -1
}

/// First index `>= i` of `c` in `s`, or -1.
pub open spec fn find_char(s: Seq<char>, c: char, i: int) -> int
    decreases s.len() - i,
{
    if i < 0 || i >= s.len() {
        -1
    } else if s[i] == c {
        i
    } else {
        find_char(s, c, i + 1)
    }
}

/// First index `>= i` where `//` starts in `s`, or -1.
pub open spec fn find_double_slash(s: Seq<char>, i: int) -> int
    decreases s.len() - i,
{
    if i < 0 || i + 1 >= s.len() {
        -1
    } else if s[i] == '/' && s[i + 1] == '/' {
        i
    } else {
        find_double_slash(s, i + 1)
    }
}

/// The label that `[cell//]package:name` denotes, if the string is one.
pub open spec fn parse_label(s: Seq<char>) -> Option<LabelView> {
    let k = find_double_slash(s, 0);
    let cell = if k == -1 { Seq::empty() } else { s.subrange(0, k) };
    let rest = if k == -1 { s } else { s.subrange(k + 2, s.len() as int) };
    let j = find_char(rest, ':', 0);
    let package = rest.subrange(0, j);
    let name = rest.subrange(j + 1, rest.len() as int);
    if j != -1 && is_valid_cell(cell) && is_valid_package(package) && is_valid_target_name(name) {
        Some(LabelView { cell, package, name })
    } else {
        None
    }
}

/// The text of a label: `cell//package:name`.
pub open spec fn label_text(l: LabelView) -> Seq<char> {
    l.cell + seq!['/', '/'] + l.package + seq![':'] + l.name
}

proof fn lemma_find_char(s: Seq<char>, c: char, i: int)
    requires
        0 <= i,
    ensures
        find_char(s, c, i) == -1 || (i <= find_char(s, c, i) < s.len() && s[find_char(s, c, i)]
            == c),
    decreases s.len() - i,
{
    if i < s.len() && s[i] != c {
        lemma_find_char(s, c, i + 1);
    }
}

proof fn lemma_find_double_slash(s: Seq<char>, i: int)
    requires
        0 <= i,
    ensures
        find_double_slash(s, i) == -1 || (i <= find_double_slash(s, i) && find_double_slash(s, i)
            + 1 < s.len()),
    decreases s.len() - i,
{
    if i + 1 < s.len() && !(s[i] == '/' && s[i + 1] == '/') {
        lemma_find_double_slash(s, i + 1);
    }
}

fn ascii_alnum(c: char) -> (r: bool)
    ensures
        r == is_ascii_alnum(c),
{
    ('a' <= c && c <= 'z') || ('A' <= c && c <= 'Z') || ('0' <= c && c <= '9')
}

fn cell_char(c: char) -> (r: bool)
    ensures
        r == is_cell_char(c),
{
    ascii_alnum(c) || c == '_' || c == '-'
}

fn target_char(c: char) -> (r: bool)
    ensures
        r == is_target_char(c),
{
    ascii_alnum(c) || c == '_' || c == ',' || c == '.' || c == '=' || c == '-' || c == '\\' || c
        == '~' || c == '@' || c == '!' || c == '+' || c == '$'
}

/// Whether every character of `s` is a cell character (`kind` 0), a target
/// character (1) or a package character (2).
fn chars_in_class(s: &str, kind: u8) -> (r: bool)
    requires
        kind <= 2,
    ensures
        kind == 0 ==> r == is_valid_cell(s@),
        kind == 1 ==> r == all_target_chars(s@),
        kind == 2 ==> r == all_package_chars(s@),
{
    let n = s.unicode_len();
    let mut i: usize = 0;
    while i < n
        invariant
            n == s@.len(),
            i <= n,
            kind <= 2,
            kind == 0 ==> forall|j: int| 0 <= j < i ==> is_cell_char(#[trigger] s@[j]),
            kind == 1 ==> forall|j: int| 0 <= j < i ==> is_target_char(#[trigger] s@[j]),
            kind == 2 ==> forall|j: int| 0 <= j < i ==> is_package_char(#[trigger] s@[j]),
        decreases n - i,
    {
        let c = s.get_char(i);
        let ok = if kind == 0 {
            cell_char(c)
        } else if kind == 1 {
            target_char(c)
        } else {
            target_char(c) || c == '/'
        };
        if !ok {
            assert(kind == 0 ==> !is_cell_char(s@[i as int]));
            assert(kind == 1 ==> !is_target_char(s@[i as int]));
            assert(kind == 2 ==> !is_package_char(s@[i as int]));
            return false;
        }
        i = i + 1;
    }
    true
}

fn find_char_exec(s: &str, c: char) -> (r: Option<usize>)
    ensures
        match r {
            None => find_char(s@, c, 0) == -1,
            Some(j) => j == find_char(s@, c, 0),
        },
{
    let n = s.unicode_len();
    let mut i: usize = 0;
    while i < n
        invariant
            n == s@.len(),
            i <= n,
            find_char(s@, c, i as int) == find_char(s@, c, 0),
        decreases n - i,
    {
        if s.get_char(i) == c {
            return Some(i);
        }
        i = i + 1;
    }
    None
}

fn find_double_slash_exec(s: &str) -> (r: Option<usize>)
    ensures
        match r {
            None => find_double_slash(s@, 0) == -1,
            Some(j) => j == find_double_slash(s@, 0),
        },
{
    let n = s.unicode_len();
    let mut i: usize = 0;
    while n > 0 && i < n - 1
        invariant
            n == s@.len(),
            i <= n,
            find_double_slash(s@, i as int) == find_double_slash(s@, 0),
        decreases n - i,
    {
        if s.get_char(i) == '/' && s.get_char(i + 1) == '/' {
            return Some(i);
        }
        i = i + 1;
    }
    None
}

fn is_valid_target_name_exec(s: &str) -> (r: bool)
    ensures
        r == is_valid_target_name(s@),
{
    s.unicode_len() > 0 && chars_in_class(s, 1)
}

fn is_valid_package_exec(s: &str) -> (r: bool)
    ensures
        r == is_valid_package(s@),
{
    let n = s.unicode_len();
    if !chars_in_class(s, 2) {
        return false;
    }
    if n > 0 && (s.get_char(0) == '/' || s.get_char(n - 1) == '/') {
        return false;
    }
    find_double_slash_exec(s).is_none()
}

/// Whether two strings hold the same characters.
pub fn str_eq(a: &str, b: &str) -> (r: bool)
    ensures
        r == (a@ == b@),
{
    let n = a.unicode_len();
    if n != b.unicode_len() {
        return false;
    }
    let mut i: usize = 0;
    while i < n
        invariant
            n == a@.len(),
            n == b@.len(),
            i <= n,
            forall|j: int| 0 <= j < i ==> a@[j] == b@[j],
        decreases n - i,
    {
        if a.get_char(i) != b.get_char(i) {
            return false;
        }
        i = i + 1;
    }
    assert(a@ =~= b@);
    true
}

/// Parses `[cell//]package:name` into a label. Only the syntax is checked:
/// nothing says the cell or package exists.
pub fn parse_target_label(x: &str) -> (r: Result<TargetLabel, AttrError>)
    ensures
        match parse_label(x@) {
            Some(l) => r matches Ok(t) && t@ == l,
            None => r matches Err(AttrError::NotTargetLabel(s)) && s@ == x@,
        },
{
    let n = x.unicode_len();
    proof {
        lemma_find_double_slash(x@, 0);
    }
    let (cell, rest) = match find_double_slash_exec(x) {
        Some(k) => (x.substring_char(0, k), x.substring_char(k + 2, n)),
        None => ("", x),
    };
    proof {
        reveal_strlit("");
        assert(find_double_slash(x@, 0) == -1 ==> rest@ =~= x@);
        lemma_find_char(rest@, ':', 0);
    }
    let m = rest.unicode_len();
    match find_char_exec(rest, ':') {
        Some(j) => {
            let package = rest.substring_char(0, j);
            let name = rest.substring_char(j + 1, m);
            let ghost k = find_double_slash(x@, 0);
            assert(k == -1 ==> cell@ =~= Seq::<char>::empty());
            assert(k != -1 ==> cell@ =~= x@.subrange(0, k));
            assert(k != -1 ==> rest@ =~= x@.subrange(k + 2, x@.len() as int));
            if chars_in_class(cell, 0) && is_valid_package_exec(package)
                && is_valid_target_name_exec(name) {
                Ok(
                    TargetLabel {
                        cell: cell.to_owned(),
                        package: package.to_owned(),
                        name: name.to_owned(),
                    },
                )
            } else {
                Err(AttrError::NotTargetLabel(x.to_owned()))
            }
        },
        None => Err(AttrError::NotTargetLabel(x.to_owned())),
    }
}

/// The label of an anonymous target given no name: the rule's name as target
/// name, in the root package of the reserved anonymous cell.
pub fn create_name(rule_name: &str) -> (r: Result<TargetLabel, AttrError>)
    ensures
        is_valid_target_name(rule_name@) ==> (r matches Ok(t) && t@ == (LabelView {
            cell: anon_cell(),
            package: Seq::empty(),
            name: rule_name@,
        })),
        !is_valid_target_name(rule_name@) ==> (r matches Err(AttrError::InvalidTargetName(s))
            && s@ == rule_name@),
{
    if is_valid_target_name_exec(rule_name) {
        proof {
            reveal_strlit("anon");
            assert("anon"@ =~= anon_cell());
        }
        Ok(
            TargetLabel {
                cell: String::from_str("anon"),
                package: String::new(),
                name: rule_name.to_owned(),
            },
        )
    } else {
        Err(AttrError::InvalidTargetName(rule_name.to_owned()))
    }
}

impl TargetLabel {
    /// The label as text: `cell//package:name`.
    pub fn to_label_string(&self) -> (r: String)
        ensures
            r@ == label_text(self@),
    {
        proof {
            reveal_strlit("//");
            reveal_strlit(":");
        }
        let mut s = self.cell.clone();
        s.append("//");
        s.append(self.package.as_str());
        s.append(":");
        s.append(self.name.as_str());
        s
    }

    /// A copy with the same view.
    pub fn duplicate(&self) -> (r: TargetLabel)
        ensures
            r@ == self@,
    {
        TargetLabel {
            cell: self.cell.clone(),
            package: self.package.clone(),
            name: self.name.clone(),
        }
    }

    /// Whether two labels are the same.
    pub fn same_as(&self, other: &TargetLabel) -> (r: bool)
        ensures
            r == (self@ == other@),
    {
        self.cell == other.cell && self.package == other.package && self.name == other.name
    }
}

/// A target label together with the configuration it is analysed under.
#[derive(Debug, Clone, Hash)]
pub struct ConfiguredTargetLabel {
    pub target: TargetLabel,
    pub cfg: String,
}

} // verus!
