//! Core vocabulary of the metrics engine: the category tags that are
//! counted, the grammar identifiers the pattern matcher understands, and
//! the language descriptors that tie a language name to its filename
//! rule and its pattern declarations.

use vstd::prelude::*;
use vstd::string::StrSliceExecFns;

verus! {

/// One structural category being counted (equality is by tag identity).
#[derive(Clone, Copy, PartialEq, Eq, Hash, Debug, Structural)]
pub enum QType {
    Loops,
    Functions,
    Variables,
    Templates,
    Defines,
}

/// Identifier selecting which structural parser the pattern matcher uses.
#[derive(Clone, Copy, PartialEq, Eq, Debug, Structural)]
pub enum Grammar {
    C,
    Cpp,
    Rust,
    Zig,
}

/// A pattern declaration: the category together with the opaque pattern
/// source counted for it. The engine never inspects the pattern text.
pub struct Operation {
    pub qtype: QType,
    pub pattern: String,
}

/// Mathematical value of an `Operation`.
#[verifier::ext_equal]
pub struct OperationView {
    pub qtype: QType,
    pub pattern: Seq<char>,
}

impl View for Operation {
    type V = OperationView;

    open spec fn view(&self) -> OperationView {
        OperationView { qtype: self.qtype, pattern: self.pattern@ }
    }
}

/// A language descriptor: its stable name (the aggregation key), the
/// filename suffixes it owns, the optional grammar for structural
/// analysis, and its ordered pattern declarations.
pub struct LanguageDef {
    pub name: String,
    pub endings: Vec<String>,
    pub grammar: Option<Grammar>,
    pub queries: Vec<Operation>,
}

/// Mathematical value of a `LanguageDef`.
#[verifier::ext_equal]
pub struct LanguageDefView {
    pub name: Seq<char>,
    pub endings: Seq<Seq<char>>,
    pub grammar: Option<Grammar>,
    pub queries: Seq<OperationView>,
}

impl View for LanguageDef {
    type V = LanguageDefView;

    open spec fn view(&self) -> LanguageDefView {
        LanguageDefView {
            name: self.name@,
            endings: Seq::new(self.endings@.len(), |i: int| self.endings@[i]@),
            grammar: self.grammar,
            queries: Seq::new(self.queries@.len(), |i: int| self.queries@[i]@),
        }
    }
}

impl LanguageDefView {
    /// A descriptor owns a filename when one of its endings is a suffix
    /// of it. An empty ending makes the descriptor a catch-all.
    pub open spec fn matches(self, filename: Seq<char>) -> bool {
        exists|i: int|
            0 <= i < self.endings.len() && (#[trigger] self.endings[i]).is_suffix_of(filename)
    }

    /// A catch-all descriptor matches every filename.
    pub open spec fn is_catch_all(self) -> bool {
        exists|i: int| 0 <= i < self.endings.len() && (#[trigger] self.endings[i]).len() == 0
    }
}

/// A catch-all descriptor indeed matches any filename.
pub proof fn lemma_catch_all_matches(d: LanguageDefView, filename: Seq<char>)
    requires
        d.is_catch_all(),
    ensures
        d.matches(filename),
{
    let i = choose|i: int| 0 <= i < d.endings.len() && (#[trigger] d.endings[i]).len() == 0;
    assert(d.endings[i] =~= filename.subrange(filename.len() as int, filename.len() as int));
    assert(d.endings[i].is_suffix_of(filename));
}

/// Does `s` end with `suffix`?
pub fn str_ends_with(s: &str, suffix: &str) -> (r: bool)
    ensures
        r == suffix@.is_suffix_of(s@),
{
    let n: usize = s.unicode_len();
    let m: usize = suffix.unicode_len();
    if m > n {
        return false;
    }
    let mut i: usize = 0;
    while i < m
        invariant
            m <= n,
            i <= m,
            n == s@.len(),
            m == suffix@.len(),
            forall|j: int| 0 <= j < i ==> s@[n - m + j] == suffix@[j],
        decreases m - i,
    {
        if s.get_char(n - m + i) != suffix.get_char(i) {
            assert(s@.subrange(n - m, n as int)[i as int] != suffix@[i as int]);
            return false;
        }
        i += 1;
    }
    assert(suffix@ =~= s@.subrange(n - m, n as int));
    true
}

/// Are two strings the same sequence of characters?
pub fn str_eq(a: &str, b: &str) -> (r: bool)
    ensures
        r == (a@ == b@),
{
    let n: usize = a.unicode_len();
    let m: usize = b.unicode_len();
    if n != m {
        return false;
    }
    let mut i: usize = 0;
    while i < n
        invariant
            n == a@.len(),
            n == b@.len(),
            i <= n,
            forall|j: int| 0 <= j < i ==> a@[j] == b@[j],
        decreases n - i,
    {
        if a.get_char(i) != b.get_char(i) {
            return false;
        }
        i += 1;
    }
    assert(a@ =~= b@);
    true
}

/// `d` is the position of the dot that starts the extension of `f`:
/// the last dot of the last path component, and not that component's
/// first character.
pub open spec fn is_ext_dot(f: Seq<char>, d: int) -> bool {
    &&& 0 < d < f.len()
    &&& f[d] == '.'
    &&& f[d - 1] != '/'
    &&& forall|j: int| d < j < f.len() ==> f[j] != '.' && f[j] != '/'
}

/// The filename's extension: what follows the final dot of its last
/// path component, unless that dot begins the component.
pub open spec fn spec_extension(f: Seq<char>) -> Option<Seq<char>> {
    if exists|d: int| is_ext_dot(f, d) {
        Some(f.skip((choose|d: int| is_ext_dot(f, d)) + 1))
    } else {
        None
    }
}

/// At most one position can start the extension.
proof fn lemma_ext_dot_unique(f: Seq<char>, d1: int, d2: int)
    requires
        is_ext_dot(f, d1),
        is_ext_dot(f, d2),
    ensures
        d1 == d2,
{
    if d1 < d2 {
        assert(f[d2] == '.');
    }
    if d2 < d1 {
        assert(f[d1] == '.');
    }
}

/// Extract the filename's extension.
pub fn extension_of(filename: &str) -> (r: Option<String>)
    ensures
        r is Some <==> spec_extension(filename@) is Some,
        r is Some ==> (spec_extension(filename@) matches Some(e) && r->0@ == e),
{
    let n: usize = filename.unicode_len();
    let mut dot: Option<usize> = None;
    let mut prev: char = ' ';
    let mut i: usize = 0;
    while i < n
        invariant
            n == filename@.len(),
            i <= n,
            i > 0 ==> prev == filename@[i - 1],
            match dot {
                Some(d) => 0 < d < i && filename@[d as int] == '.' && filename@[d - 1] != '/'
                    && forall|j: int| d < j < i ==> filename@[j] != '.' && filename@[j] != '/',
                None => forall|d: int|
                    0 < d < i ==> !((#[trigger] filename@[d]) == '.' && filename@[d - 1] != '/'
                        && forall|j: int|
                        d < j < i ==> (#[trigger] filename@[j]) != '.' && filename@[j] != '/'),
            },
        decreases n - i,
    {
        let c = filename.get_char(i);
        if c == '.' {
            if i >= 1 && prev != '/' {
                dot = Some(i);
            } else {
                dot = None;
            }
        } else if c == '/' {
            dot = None;
        }
        prev = c;
        i += 1;
    }
    match dot {
        Some(d) => {
            proof {
                assert(is_ext_dot(filename@, d as int));
                let w = choose|w: int| is_ext_dot(filename@, w);
                lemma_ext_dot_unique(filename@, d as int, w);
                assert(filename@.subrange(d + 1, n as int) =~= filename@.skip(d + 1));
            }
            Some(filename.substring_char(d + 1, n).to_owned())
        },
        None => {
            proof {
                assert forall|d: int| !is_ext_dot(filename@, d) by {}
            }
            None
        },
    }
}

impl LanguageDef {
    /// First ending that is a suffix of the filename decides ownership.
    pub fn matches_filename(&self, filename: &str) -> (r: bool)
        ensures
            r == self@.matches(filename@),
    {
        let mut i: usize = 0;
        while i < self.endings.len()
            invariant
                i <= self.endings@.len(),
                forall|j: int| 0 <= j < i ==> !(#[trigger] self@.endings[j]).is_suffix_of(filename@),
            decreases self.endings@.len() - i,
        {
            if str_ends_with(filename, self.endings[i].as_str()) {
                assert(self@.endings[i as int].is_suffix_of(filename@));
                return true;
            }
            i += 1;
        }
        false
    }
}

} // verus!
