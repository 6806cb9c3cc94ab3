//! File names: a single path component, never empty, `.` or `..`, and
//! without forward or backward slashes.

use vstd::prelude::*;
use vstd::string::StrSliceExecFns;

verus! {

/// Why a string is not a file name.
#[derive(Debug, Clone)]
pub enum FileNameError {
    Empty,
    Dot,
    DotDot,
    Slashes(String),
}

/// The error for a string, if any, checked in this order: empty, `.`, `..`,
/// a slash of either direction.
pub open spec fn file_name_error(s: Seq<char>) -> Option<FileNameError> {
    if s.len() == 0 {
        Some(FileNameError::Empty)
    } else if s == seq!['.'] {
        Some(FileNameError::Dot)
    } else if s == seq!['.', '.'] {
        Some(FileNameError::DotDot)
    } else if s.contains('/') || s.contains('\\') {
        Some(FileNameError::Slashes(arbitrary()))
    } else {
        None
    }
}

pub open spec fn is_valid_file_name(s: Seq<char>) -> bool {
    file_name_error(s) is None
}

/// Index of the last occurrence of `c` in `s`, or -1.
pub open spec fn last_index_of(s: Seq<char>, c: char) -> int
    decreases s.len(),
{
    if s.len() == 0 {
        -1
    } else if s.last() == c {
        s.len() - 1
    } else {
        last_index_of(s.drop_last(), c)
    }
}

/// The stem: everything before the last `.`, or the whole name where it has
/// no `.` or only a leading one.
pub open spec fn stem_of(s: Seq<char>) -> Seq<char> {
    let i = last_index_of(s, '.');
    if i <= 0 {
        s
    } else {
        s.subrange(0, i)
    }
}

/// The extension: everything after the last `.`, unless the name has no `.`
/// or only a leading one.
pub open spec fn extension_of(s: Seq<char>) -> Option<Seq<char>> {
    let i = last_index_of(s, '.');
    if i <= 0 {
        None
    } else {
        Some(s.subrange(i + 1, s.len() as int))
    }
}

proof fn lemma_last_index_of(s: Seq<char>, c: char)
    ensures
        -1 <= last_index_of(s, c) < s.len(),
        last_index_of(s, c) >= 0 ==> s[last_index_of(s, c)] == c,
        forall|j: int| last_index_of(s, c) < j < s.len() ==> s[j] != c,
    decreases s.len(),
{
    if s.len() > 0 && s.last() != c {
        lemma_last_index_of(s.drop_last(), c);
        assert forall|j: int| last_index_of(s, c) < j < s.len() implies s[j] != c by {
            if j < s.len() - 1 {
                assert(s.drop_last()[j] == s[j]);
            }
        }
    }
}

fn is_char_at(s: &str, n: usize, i: usize, c: char) -> (r: bool)
    requires
        n == s@.len(),
    ensures
        r == (i < n && s@[i as int] == c),
{
    i < n && s.get_char(i) == c
}

fn contains_char(s: &str, c: char) -> (r: bool)
    ensures
        r == s@.contains(c),
{
    let n = s.unicode_len();
    let mut i: usize = 0;
    while i < n
        invariant
            n == s@.len(),
            i <= n,
            forall|j: int| 0 <= j < i ==> s@[j] != c,
        decreases n - i,
    {
        if s.get_char(i) == c {
            return true;
        }
        i = i + 1;
    }
    false
}

/// Checks that `file_name` is a file name.
pub fn verify_file_name(file_name: &str) -> (r: Result<(), FileNameError>)
    ensures
        match file_name_error(file_name@) {
            None => r is Ok,
            Some(FileNameError::Slashes(_)) => r matches Err(FileNameError::Slashes(t))
                && t@ == file_name@,
            Some(e) => r matches Err(f) && f == e,
        },
{
    let n = file_name.unicode_len();
    if n == 0 {
        return Err(FileNameError::Empty);
    }
    let dot0 = is_char_at(file_name, n, 0, '.');
    if n == 1 && dot0 {
        assert(file_name@ =~= seq!['.']);
        return Err(FileNameError::Dot);
    }
    if n == 2 && dot0 && is_char_at(file_name, n, 1, '.') {
        assert(file_name@ =~= seq!['.', '.']);
        return Err(FileNameError::DotDot);
    }
    assert(file_name@ != seq!['.'] && file_name@ != seq!['.', '.']) by {
        if file_name@ == seq!['.'] {
            assert(file_name@[0] == '.');
        }
        if file_name@ == seq!['.', '.'] {
            assert(file_name@[0] == '.' && file_name@[1] == '.');
        }
    }
    if contains_char(file_name, '/') || contains_char(file_name, '\\') {
        return Err(FileNameError::Slashes(file_name.to_owned()));
    }
    Ok(())
}

/// A file name: a valid single path component.
#[derive(Debug, Hash)]
pub struct FileName {
    name: String,
}

impl View for FileName {
    type V = Seq<char>;

    closed spec fn view(&self) -> Seq<char> {
        self.name@
    }
}

impl FileName {
    #[verifier::type_invariant]
    spec fn inv(&self) -> bool {
        is_valid_file_name(self.name@)
    }

    /// A file name, if `s` is one; else the reason it is not.
    pub fn new(s: &str) -> (r: Result<FileName, FileNameError>)
        ensures
            match r {
                Ok(f) => f@ == s@ && is_valid_file_name(s@),
                Err(e) => file_name_error(s@) is Some && match file_name_error(s@) {
                    Some(FileNameError::Slashes(_)) => e matches FileNameError::Slashes(t)
                        && t@ == s@,
                    Some(k) => e == k,
                    None => false,
                },
            },
    {
        match verify_file_name(s) {
            Ok(()) => Ok(FileName::unchecked_new(s)),
            Err(e) => Err(e),
        }
    }

    /// A file name from a string that the caller knows to be one.
    pub fn unchecked_new(s: &str) -> (r: FileName)
        requires
            is_valid_file_name(s@),
        ensures
            r@ == s@,
    {
        FileName { name: s.to_owned() }
    }

    pub fn as_str(&self) -> (r: &str)
        ensures
            r@ == self@,
            is_valid_file_name(r@),
    {
        proof {
            use_type_invariant(self);
        }
        self.name.as_str()
    }

    /// The part before the last `.` (the whole name where there is none, or
    /// only a leading one). Always present for a file name.
    pub fn file_stem(&self) -> (r: Option<&str>)
        ensures
            r matches Some(t) && t@ == stem_of(self@),
    {
        let s = self.name.as_str();
        proof {
            lemma_last_index_of(self@, '.');
        }
        match last_dot(s) {
            Some(i) if i > 0 => Some(s.substring_char(0, i)),
            _ => Some(s),
        }
    }

    /// The part after the last `.`, unless there is no `.` or only a leading
    /// one.
    pub fn extension(&self) -> (r: Option<&str>)
        ensures
            match extension_of(self@) {
                None => r is None,
                Some(e) => r matches Some(t) && t@ == e,
            },
    {
        let s = self.name.as_str();
        proof {
            lemma_last_index_of(self@, '.');
        }
        match last_dot(s) {
            Some(i) if i > 0 => {
                let n = s.unicode_len();
                Some(s.substring_char(i + 1, n))
            },
            _ => None,
        }
    }

    /// The owned form of this name.
    pub fn to_file_name_buf(&self) -> (r: FileNameBuf)
        ensures
            r@ == self@,
    {
        proof {
            use_type_invariant(self);
        }
        FileNameBuf { name: self.name.clone() }
    }
}

fn last_dot(s: &str) -> (r: Option<usize>)
    ensures
        match r {
            None => last_index_of(s@, '.') == -1,
            Some(i) => i == last_index_of(s@, '.'),
        },
{
    proof {
        lemma_last_index_of(s@, '.');
    }
    let n = s.unicode_len();
    let mut i: usize = n;
    assert(s@.subrange(0, n as int) =~= s@);
    while i > 0
        invariant
            n == s@.len(),
            i <= n,
            last_index_of(s@.subrange(0, i as int), '.') == last_index_of(s@, '.'),
        decreases i,
    {
        let ghost t = s@.subrange(0, i as int);
        assert(t.drop_last() =~= s@.subrange(0, i - 1));
        if s.get_char(i - 1) == '.' {
            return Some(i - 1);
        }
        i = i - 1;
    }
    None
}

impl PartialEq for FileName {
    fn eq(&self, other: &FileName) -> (r: bool) {
        self.name == other.name
    }
}

impl vstd::std_specs::cmp::PartialEqSpecImpl for FileName {
    open spec fn obeys_eq_spec() -> bool {
        true
    }

    open spec fn eq_spec(&self, other: &FileName) -> bool {
        self@ == other@
    }
}

/// The owned form of a [`FileName`].
#[derive(Debug, Hash)]
pub struct FileNameBuf {
    name: String,
}

impl View for FileNameBuf {
    type V = Seq<char>;

    closed spec fn view(&self) -> Seq<char> {
        self.name@
    }
}

impl FileNameBuf {
    #[verifier::type_invariant]
    spec fn inv(&self) -> bool {
        is_valid_file_name(self.name@)
    }

    /// An owned file name from a string that the caller knows to be one.
    pub fn unchecked_new(s: String) -> (r: FileNameBuf)
        requires
            is_valid_file_name(s@),
        ensures
            r@ == s@,
    {
        FileNameBuf { name: s }
    }

    /// An owned file name, if `s` is one; else the reason it is not.
    pub fn try_from(s: String) -> (r: Result<FileNameBuf, FileNameError>)
        ensures
            r is Ok <==> is_valid_file_name(s@),
            r matches Ok(f) ==> f@ == s@,
            r matches Err(e) ==> file_name_error(s@) matches Some(k) && (match k {
                FileNameError::Slashes(_) => e matches FileNameError::Slashes(t) && t@ == s@,
                _ => e == k,
            }),
    {
        match verify_file_name(s.as_str()) {
            Ok(()) => Ok(FileNameBuf { name: s }),
            Err(e) => Err(e),
        }
    }

    pub fn into_inner(self) -> (r: String)
        ensures
            r@ == self@,
            is_valid_file_name(r@),
    {
        proof {
            use_type_invariant(&self);
        }
        self.name
    }

    pub fn as_str(&self) -> (r: &str)
        ensures
            r@ == self@,
            is_valid_file_name(r@),
    {
        proof {
            use_type_invariant(self);
        }
        self.name.as_str()
    }
}

} // verus!
