//! Character classes, name grammar and string helpers shared by the model,
//! the resolver and the ordering code.
use vstd::prelude::*;
use vstd::string::*;

verus! {

/// Characters that may form a word of a design, library or label name.
pub open spec fn is_word_char(c: char) -> bool {
    ('a' <= c && c <= 'z') || ('A' <= c && c <= 'Z') || ('0' <= c && c <= '9') || c == '_'
}

/// Blank characters that may surround an architecture qualifier.
pub open spec fn is_blank(c: char) -> bool {
    c == ' ' || c == '\t' || c == '\n' || c == '\r'
}

/// First index at or after `i` that does not hold a word character.
pub open spec fn word_end(s: Seq<char>, i: int) -> int
    decreases s.len() - i,
{
    if 0 <= i < s.len() && is_word_char(s[i]) {
        word_end(s, i + 1)
    } else {
        i
    }
}

/// First index at or after `i` that does not hold a blank.
pub open spec fn blank_end(s: Seq<char>, i: int) -> int
    decreases s.len() - i,
{
    if 0 <= i < s.len() && is_blank(s[i]) {
        blank_end(s, i + 1)
    } else {
        i
    }
}

pub proof fn lemma_word_end_bounds(s: Seq<char>, i: int)
    requires
        0 <= i <= s.len(),
    ensures
        i <= word_end(s, i) <= s.len(),
        forall|k: int| i <= k < word_end(s, i) ==> is_word_char(#[trigger] s[k]),
        word_end(s, i) < s.len() ==> !is_word_char(s[word_end(s, i)]),
    decreases s.len() - i,
{
    if i < s.len() && is_word_char(s[i]) {
        lemma_word_end_bounds(s, i + 1);
    }
}

pub proof fn lemma_blank_end_bounds(s: Seq<char>, i: int)
    requires
        0 <= i <= s.len(),
    ensures
        i <= blank_end(s, i) <= s.len(),
        forall|k: int| i <= k < blank_end(s, i) ==> is_blank(#[trigger] s[k]),
        blank_end(s, i) < s.len() ==> !is_blank(s[blank_end(s, i)]),
    decreases s.len() - i,
{
    if i < s.len() && is_blank(s[i]) {
        lemma_blank_end_bounds(s, i + 1);
    }
}

/// A target name, split into its optional library qualifier, its unit name and its
/// optional architecture.
pub struct TargetSpec {
    pub library: Option<Seq<char>>,
    pub unit: Seq<char>,
    pub architecture: Option<Seq<char>>,
}

/// Where the unit word of a target starts, and where the library qualifier ends.
pub open spec fn unit_start(s: Seq<char>) -> int {
    let e = word_end(s, 0);
    if e < s.len() && s[e] == '.' {
        e + 1
    } else {
        0
    }
}

/// The grammar of a target: `[library "."] unit [blank* "(" blank* arch blank* ")"]`,
/// where library, unit and arch are words and nothing else follows.
pub open spec fn parse_target(s: Seq<char>) -> Option<TargetSpec> {
    let e0 = word_end(s, 0);
    let u = unit_start(s);
    let ue = word_end(s, u);
    let library = if u > 0 {
        Some(s.subrange(0, e0))
    } else {
        None
    };
    if e0 == 0 || ue == u {
        None
    } else {
        let p = blank_end(s, ue);
        if p == s.len() {
            Some(TargetSpec { library, unit: s.subrange(u, ue), architecture: None })
        } else if s[p] != '(' {
            None
        } else {
            let q = blank_end(s, p + 1);
            let qe = word_end(s, q);
            let r = blank_end(s, qe);
            if qe == q || r >= s.len() || s[r] != ')' || r + 1 != s.len() {
                None
            } else {
                Some(
                    TargetSpec {
                        library,
                        unit: s.subrange(u, ue),
                        architecture: Some(s.subrange(q, qe)),
                    },
                )
            }
        }
    }
}

/// The library part of a use reference `library "." rest`.
pub open spec fn ref_library(r: Seq<char>) -> Option<Seq<char>> {
    let e = word_end(r, 0);
    if e > 0 && e < r.len() && r[e] == '.' {
        Some(r.subrange(0, e))
    } else {
        None
    }
}

/// The package part of a use reference `library "." package ["." ...]`.
pub open spec fn ref_package(r: Seq<char>) -> Option<Seq<char>> {
    let e = word_end(r, 0);
    let pe = word_end(r, e + 1);
    if ref_library(r) is Some && pe > e + 1 {
        Some(r.subrange(e + 1, pe))
    } else {
        None
    }
}

/// A use reference that is exactly `library "." part`, nothing before or after.
pub open spec fn ref_is_pair(r: Seq<char>) -> bool {
    let e = word_end(r, 0);
    ref_package(r) is Some && word_end(r, e + 1) == r.len()
}

pub open spec fn work_name() -> Seq<char> {
    seq!['w', 'o', 'r', 'k']
}

pub open spec fn all_name() -> Seq<char> {
    seq!['a', 'l', 'l']
}

pub open spec fn others_name() -> Seq<char> {
    seq!['o', 't', 'h', 'e', 'r', 's']
}

/// The binding key that scopes an `all` binding to one declared component.
pub open spec fn all_key(component: Seq<char>) -> Seq<char> {
    seq!['a', 'l', 'l', '@'] + component
}

/// `n(arch)`: a design name qualified with one of its architectures.
pub open spec fn qualified(n: Seq<char>, arch: Seq<char>) -> Seq<char> {
    n + seq!['('] + arch + seq![')']
}

/// Index of the first occurrence of `n` in `names`, or -1.
pub open spec fn index_of(names: Seq<Seq<char>>, n: Seq<char>) -> int
    decreases names.len(),
{
    if names.len() == 0 {
        -1
    } else if names[0] == n {
        0
    } else {
        let r = index_of(names.drop_first(), n);
        if r < 0 {
            -1
        } else {
            r + 1
        }
    }
}

pub proof fn lemma_index_of(names: Seq<Seq<char>>, n: Seq<char>)
    ensures
        -1 <= index_of(names, n) < names.len(),
        index_of(names, n) >= 0 ==> names[index_of(names, n)] == n,
        forall|k: int| 0 <= k < index_of(names, n) ==> names[k] != n,
        index_of(names, n) < 0 ==> forall|k: int| 0 <= k < names.len() ==> names[k] != n,
    decreases names.len(),
{
    if names.len() > 0 && names[0] != n {
        lemma_index_of(names.drop_first(), n);
        assert forall|k: int| 0 < k < names.len() implies names[k] == names.drop_first()[k - 1] by {}
    }
}

/// The first index whose entry is `n`, given that no entry before `i` is `n`.
pub proof fn lemma_index_of_found(names: Seq<Seq<char>>, n: Seq<char>, i: int)
    requires
        0 <= i < names.len(),
        names[i] == n,
        forall|k: int| 0 <= k < i ==> names[k] != n,
    ensures
        index_of(names, n) == i,
{
    lemma_index_of(names, n);
}

pub proof fn lemma_index_of_absent(names: Seq<Seq<char>>, n: Seq<char>)
    requires
        forall|k: int| 0 <= k < names.len() ==> names[k] != n,
    ensures
        index_of(names, n) == -1,
{
    lemma_index_of(names, n);
}

/// Whether `c` is a word character.
pub fn word_char(c: char) -> (r: bool)
    ensures
        r == is_word_char(c),
{
    ('a' <= c && c <= 'z') || ('A' <= c && c <= 'Z') || ('0' <= c && c <= '9') || c == '_'
}

fn blank_char(c: char) -> (r: bool)
    ensures
        r == is_blank(c),
{
    c == ' ' || c == '\t' || c == '\n' || c == '\r'
}

pub(crate) fn scan_word(s: &str, n: usize, i: usize) -> (r: usize)
    requires
        n == s@.len(),
        i <= n,
    ensures
        r == word_end(s@, i as int),
{
    let mut j = i;
    while j < n && word_char(s.get_char(j))
        invariant
            n == s@.len(),
            i <= j <= n,
            word_end(s@, j as int) == word_end(s@, i as int),
        decreases n - j,
    {
        j = j + 1;
    }
    j
}

fn scan_blank(s: &str, n: usize, i: usize) -> (r: usize)
    requires
        n == s@.len(),
        i <= n,
    ensures
        r == blank_end(s@, i as int),
{
    let mut j = i;
    while j < n && blank_char(s.get_char(j))
        invariant
            n == s@.len(),
            i <= j <= n,
            blank_end(s@, j as int) == blank_end(s@, i as int),
        decreases n - j,
    {
        j = j + 1;
    }
    j
}

fn slice(s: &str, from: usize, to: usize) -> (r: String)
    requires
        from <= to <= s@.len(),
    ensures
        r@ == s@.subrange(from as int, to as int),
{
    s.substring_char(from, to).to_owned()
}

/// A parsed target name.
#[derive(Debug)]
pub struct TargetName {
    pub library: Option<String>,
    pub unit: String,
    pub architecture: Option<String>,
}

impl TargetName {
    pub open spec fn spec_of(&self) -> TargetSpec {
        TargetSpec {
            library: match self.library {
                Some(l) => Some(l@),
                None => None,
            },
            unit: self.unit@,
            architecture: match self.architecture {
                Some(a) => Some(a@),
                None => None,
            },
        }
    }
}

/// Splits `lib.unit(arch)` into its parts; `None` when the text does not follow the
/// grammar of a target.
pub fn parse_target_name(s: &str) -> (r: Option<TargetName>)
    ensures
        match parse_target(s@) {
            Some(t) => r is Some && r->Some_0.spec_of() == t,
            None => r is None,
        },
{
    let n = s.unicode_len();
    let e0 = scan_word(s, n, 0);
    let u = if e0 < n && s.get_char(e0) == '.' {
        e0 + 1
    } else {
        0
    };
    proof {
        lemma_word_end_bounds(s@, 0);
    }
    let ue = scan_word(s, n, u);
    proof {
        lemma_word_end_bounds(s@, u as int);
    }
    if e0 == 0 || ue == u {
        return None;
    }
    let library = if u > 0 {
        Some(slice(s, 0, e0))
    } else {
        None
    };
    let p = scan_blank(s, n, ue);
    proof {
        lemma_blank_end_bounds(s@, ue as int);
    }
    if p == n {
        return Some(TargetName { library, unit: slice(s, u, ue), architecture: None });
    }
    if s.get_char(p) != '(' {
        return None;
    }
    let q = scan_blank(s, n, p + 1);
    proof {
        lemma_blank_end_bounds(s@, p + 1);
    }
    let qe = scan_word(s, n, q);
    proof {
        lemma_word_end_bounds(s@, q as int);
    }
    let r = scan_blank(s, n, qe);
    proof {
        lemma_blank_end_bounds(s@, qe as int);
    }
    if qe == q || r >= n || s.get_char(r) != ')' || r + 1 != n {
        return None;
    }
    Some(TargetName { library, unit: slice(s, u, ue), architecture: Some(slice(s, q, qe)) })
}

/// The library and package parts of a use reference.
pub fn split_reference(r: &str) -> (res: Option<(String, String)>)
    ensures
        match (ref_library(r@), ref_package(r@)) {
            (Some(l), Some(p)) => res is Some && res->Some_0.0@ == l && res->Some_0.1@ == p,
            _ => res is None,
        },
{
    let n = r.unicode_len();
    let e = scan_word(r, n, 0);
    proof {
        lemma_word_end_bounds(r@, 0);
    }
    if e == 0 || e >= n || r.get_char(e) != '.' {
        return None;
    }
    let pe = scan_word(r, n, e + 1);
    proof {
        lemma_word_end_bounds(r@, e + 1);
    }
    if pe == e + 1 {
        return None;
    }
    Some((slice(r, 0, e), slice(r, e + 1, pe)))
}

/// The library part of a use reference.
pub fn reference_library(r: &str) -> (res: Option<String>)
    ensures
        match ref_library(r@) {
            Some(l) => res is Some && res->Some_0@ == l,
            None => res is None,
        },
{
    let n = r.unicode_len();
    let e = scan_word(r, n, 0);
    proof {
        lemma_word_end_bounds(r@, 0);
    }
    if e == 0 || e >= n || r.get_char(e) != '.' {
        return None;
    }
    Some(slice(r, 0, e))
}

/// Whether the reference is exactly `library.part`.
pub fn reference_is_pair(r: &str) -> (res: bool)
    ensures
        res == ref_is_pair(r@),
{
    let n = r.unicode_len();
    let e = scan_word(r, n, 0);
    proof {
        lemma_word_end_bounds(r@, 0);
    }
    if e == 0 || e >= n || r.get_char(e) != '.' {
        return false;
    }
    let pe = scan_word(r, n, e + 1);
    proof {
        lemma_word_end_bounds(r@, e + 1);
    }
    pe > e + 1 && pe == n
}

pub fn is_work(s: &str) -> (r: bool)
    ensures
        r == (s@ == work_name()),
{
    let n = s.unicode_len();
    if n != 4 {
        return false;
    }
    let r = s.get_char(0) == 'w' && s.get_char(1) == 'o' && s.get_char(2) == 'r' && s.get_char(3)
        == 'k';
    assert(r ==> s@ =~= work_name());
    r
}

pub fn is_all(s: &str) -> (r: bool)
    ensures
        r == (s@ == all_name()),
{
    let n = s.unicode_len();
    if n != 3 {
        return false;
    }
    let r = s.get_char(0) == 'a' && s.get_char(1) == 'l' && s.get_char(2) == 'l';
    assert(r ==> s@ =~= all_name());
    r
}

pub fn is_others(s: &str) -> (r: bool)
    ensures
        r == (s@ == others_name()),
{
    let n = s.unicode_len();
    if n != 6 {
        return false;
    }
    let r = s.get_char(0) == 'o' && s.get_char(1) == 't' && s.get_char(2) == 'h' && s.get_char(3)
        == 'e' && s.get_char(4) == 'r' && s.get_char(5) == 's';
    assert(r ==> s@ =~= others_name());
    r
}

/// `all@component`.
pub fn make_all_key(component: &str) -> (r: String)
    ensures
        r@ == all_key(component@),
{
    let mut r = "all@".to_owned();
    proof {
        reveal_strlit("all@");
    }
    r.append(component);
    assert(r@ =~= all_key(component@));
    r
}

/// `name(arch)`.
pub fn make_qualified(name: &str, arch: &str) -> (r: String)
    ensures
        r@ == qualified(name@, arch@),
{
    let mut r = name.to_owned();
    r.append("(");
    r.append(arch);
    r.append(")");
    proof {
        reveal_strlit("(");
        reveal_strlit(")");
    }
    assert(r@ =~= qualified(name@, arch@));
    r
}

/// A copy of a list of strings.
pub fn copy_strings(v: &Vec<String>) -> (r: Vec<String>)
    ensures
        r@ == v@,
{
    let mut r: Vec<String> = Vec::new();
    let mut i: usize = 0;
    while i < v.len()
        invariant
            i <= v.len(),
            r@ == v@.subrange(0, i as int),
        decreases v.len() - i,
    {
        r.push(v[i].clone());
        i = i + 1;
        assert(r@ =~= v@.subrange(0, i as int));
    }
    assert(v@ =~= v@.subrange(0, v.len() as int));
    r
}

pub open spec fn strings_view(v: Seq<String>) -> Seq<Seq<char>> {
    v.map_values(|s: String| s@)
}

/// Whether `s` is one of the strings of `v`.
pub fn contains_text(v: &Vec<String>, s: &String) -> (r: bool)
    ensures
        r == strings_view(v@).contains(s@),
{
    let mut i: usize = 0;
    while i < v.len()
        invariant
            i <= v.len(),
            forall|k: int| 0 <= k < i ==> strings_view(v@)[k] != s@,
        decreases v.len() - i,
    {
        if v[i] == *s {
            assert(strings_view(v@)[i as int] == s@);
            return true;
        }
        i = i + 1;
    }
    false
}

} // verus!
