//! Alphabetical order of names, and the compile order of libraries.
use vstd::prelude::*;
use crate::model::{find_library, lib_index, library_names, Library};
use crate::names::{contains_text, strings_view};

verus! {

/// `a` sorts before `b` when they first differ at or after `i`.
pub open spec fn text_less_at(a: Seq<char>, b: Seq<char>, i: int) -> bool
    decreases a.len() - i,
{
    if i < 0 || i >= b.len() {
        false
    } else if i >= a.len() {
        true
    } else if a[i] != b[i] {
        a[i] < b[i]
    } else {
        text_less_at(a, b, i + 1)
    }
}

/// Lexicographic order by character code; a proper prefix sorts first.
pub open spec fn text_less(a: Seq<char>, b: Seq<char>) -> bool {
    text_less_at(a, b, 0)
}

pub fn text_less_than(a: &str, b: &str) -> (r: bool)
    ensures
        r == text_less(a@, b@),
{
    let n = a.unicode_len();
    let m = b.unicode_len();
    let mut i: usize = 0;
    loop
        invariant
            n == a@.len(),
            m == b@.len(),
            text_less_at(a@, b@, i as int) == text_less(a@, b@),
        decreases n + m - 2 * i,
    {
        if i >= m {
            return false;
        }
        if i >= n {
            return true;
        }
        let x = a.get_char(i);
        let y = b.get_char(i);
        if x != y {
            return x < y;
        }
        i = i + 1;
    }
}

/// `x` placed before the first entry of `s` that it sorts before.
pub open spec fn insert_sorted(x: Seq<char>, s: Seq<Seq<char>>) -> Seq<Seq<char>>
    decreases s.len(),
{
    if s.len() == 0 {
        seq![x]
    } else if text_less(x, s[0]) {
        seq![x] + s
    } else {
        seq![s[0]] + insert_sorted(x, s.drop_first())
    }
}

/// The names in alphabetical order; equal names keep their order.
pub open spec fn sort_texts(s: Seq<Seq<char>>) -> Seq<Seq<char>>
    decreases s.len(),
{
    if s.len() == 0 {
        s
    } else {
        insert_sorted(s.last(), sort_texts(s.drop_last()))
    }
}

proof fn lemma_insert_at(x: Seq<char>, s: Seq<Seq<char>>, p: int)
    requires
        0 <= p <= s.len(),
        forall|k: int| 0 <= k < p ==> !text_less(x, #[trigger] s[k]),
        p < s.len() ==> text_less(x, s[p]),
    ensures
        insert_sorted(x, s) == s.subrange(0, p) + seq![x] + s.subrange(p, s.len() as int),
    decreases s.len(),
{
    if s.len() == 0 {
        assert(s.subrange(0, p) + seq![x] + s.subrange(p, s.len() as int) =~= seq![x]);
    } else if p == 0 {
        assert(s.subrange(0, p) + seq![x] + s.subrange(p, s.len() as int) =~= seq![x] + s);
    } else {
        let t = s.drop_first();
        assert forall|k: int| 0 <= k < p - 1 implies !text_less(x, #[trigger] t[k]) by {
            assert(t[k] == s[k + 1]);
        }
        lemma_insert_at(x, t, p - 1);
        assert(seq![s[0]] + (t.subrange(0, p - 1) + seq![x] + t.subrange(p - 1, t.len() as int))
            =~= s.subrange(0, p) + seq![x] + s.subrange(p, s.len() as int));
    }
}

fn insert_name(v: &mut Vec<String>, x: String)
    ensures
        strings_view(final(v)@) == insert_sorted(x@, strings_view(old(v)@)),
{
    let mut p: usize = 0;
    while p < v.len() && !text_less_than(x.as_str(), v[p].as_str())
        invariant
            p <= v.len(),
            forall|k: int| 0 <= k < p ==> !text_less(x@, #[trigger] strings_view(v@)[k]),
        decreases v.len() - p,
    {
        p = p + 1;
    }
    let ghost s = strings_view(v@);
    proof {
        lemma_insert_at(x@, s, p as int);
    }
    let ghost xv = x@;
    v.insert(p, x);
    assert(strings_view(v@) =~= s.subrange(0, p as int) + seq![xv] + s.subrange(p as int, s.len() as int));
}

/// The names in alphabetical order.
pub fn sort_names(v: &Vec<String>) -> (r: Vec<String>)
    ensures
        strings_view(r@) == sort_texts(strings_view(v@)),
{
    let mut out: Vec<String> = Vec::new();
    let mut i: usize = 0;
    assert(strings_view(v@).subrange(0, 0) =~= Seq::<Seq<char>>::empty());
    while i < v.len()
        invariant
            i <= v.len(),
            strings_view(out@) == sort_texts(strings_view(v@).subrange(0, i as int)),
        decreases v.len() - i,
    {
        let ghost before = strings_view(v@).subrange(0, i as int);
        insert_name(&mut out, v[i].clone());
        i = i + 1;
        assert(strings_view(v@).subrange(0, i as int).drop_last() =~= before);
    }
    assert(strings_view(v@).subrange(0, v.len() as int) =~= strings_view(v@));
    out
}

/// The libraries of `ls` that satisfy `p`, in order.
pub open spec fn select(ls: Seq<Library>, p: spec_fn(Library) -> bool) -> Seq<Library>
    decreases ls.len(),
{
    if ls.len() == 0 {
        Seq::empty()
    } else {
        let r = select(ls.drop_last(), p);
        if p(ls.last()) {
            r.push(ls.last())
        } else {
            r
        }
    }
}

pub proof fn lemma_select_split(ls: Seq<Library>, p: spec_fn(Library) -> bool, q: spec_fn(Library) -> bool)
    requires
        forall|l: Library| #[trigger] q(l) == !p(l),
    ensures
        select(ls, p).len() + select(ls, q).len() == ls.len(),
    decreases ls.len(),
{
    if ls.len() > 0 {
        lemma_select_split(ls.drop_last(), p, q);
    }
}

/// A dependency that imposes no wait: on a placed library, or one that is
/// unknown or ignored.
pub open spec fn dependency_met(libs: Seq<Library>, placed: Seq<Seq<char>>, d: Seq<char>) -> bool {
    let i = lib_index(libs, d);
    i < 0 || libs[i].ignore || placed.contains(d)
}

pub open spec fn is_ready(libs: Seq<Library>, placed: Seq<Seq<char>>, l: Library) -> bool {
    forall|k: int| 0 <= k < l.depends_on_libs@.len() ==> dependency_met(libs, placed, #[trigger] l.depends_on_libs@[k]@)
}

pub open spec fn is_seed(l: Library) -> bool {
    !l.ignore && l.depends_on_libs@.len() == 0
}

pub open spec fn is_dependent(l: Library) -> bool {
    !l.ignore && l.depends_on_libs@.len() > 0
}

pub open spec fn seeds(ls: Seq<Library>) -> Seq<Library> {
    select(ls, |l: Library| is_seed(l))
}

pub open spec fn dependents(ls: Seq<Library>) -> Seq<Library> {
    select(ls, |l: Library| is_dependent(l))
}

pub open spec fn ready_of(libs: Seq<Library>, placed: Seq<Seq<char>>, rem: Seq<Library>) -> Seq<Library> {
    select(rem, |l: Library| is_ready(libs, placed, l))
}

pub open spec fn waiting_of(libs: Seq<Library>, placed: Seq<Seq<char>>, rem: Seq<Library>) -> Seq<Library> {
    select(rem, |l: Library| !is_ready(libs, placed, l))
}

/// Why no compile order exists.
#[derive(Debug)]
pub enum OrderError {
    DependencyCycle { placed: Vec<String>, remaining: Vec<String> },
}

pub enum OrderErrorView {
    DependencyCycle { placed: Seq<Seq<char>>, remaining: Seq<Seq<char>> },
}

impl View for OrderError {
    type V = OrderErrorView;

    open spec fn view(&self) -> OrderErrorView {
        match self {
            OrderError::DependencyCycle { placed, remaining } => OrderErrorView::DependencyCycle {
                placed: strings_view(placed@),
                remaining: strings_view(remaining@),
            },
        }
    }
}

/// Rounds of placement: every remaining library that is ready joins, in
/// alphabetical order, at once; a round where none is ready is a cycle.
pub open spec fn sort_rounds(libs: Seq<Library>, placed: Seq<Seq<char>>, rem: Seq<Library>) -> Result<
    Seq<Seq<char>>,
    OrderErrorView,
>
    decreases rem.len(),
    via sort_rounds_decreases
{
    if rem.len() == 0 {
        Ok(placed)
    } else {
        let ready = ready_of(libs, placed, rem);
        let waiting = waiting_of(libs, placed, rem);
        if ready.len() == 0 {
            Err(OrderErrorView::DependencyCycle { placed, remaining: library_names(rem) })
        } else {
            sort_rounds(libs, placed + sort_texts(library_names(ready)), waiting)
        }
    }
}

#[via_fn]
proof fn sort_rounds_decreases(libs: Seq<Library>, placed: Seq<Seq<char>>, rem: Seq<Library>) {
    lemma_select_split(
        rem,
        |l: Library| is_ready(libs, placed, l),
        |l: Library| !is_ready(libs, placed, l),
    );
}

/// The compile order of the libraries that are not ignored: first those without
/// dependencies, alphabetically, then round after round as `sort_rounds` states.
pub open spec fn library_order(libs: Seq<Library>) -> Result<Seq<Seq<char>>, OrderErrorView> {
    sort_rounds(libs, sort_texts(library_names(seeds(libs))), dependents(libs))
}

pub open spec fn libs_at(libs: Seq<Library>, idx: Seq<usize>) -> Seq<Library> {
    idx.map_values(|i: usize| libs[i as int])
}

fn ready(libs: &Vec<Library>, placed: &Vec<String>, l: &Library) -> (r: bool)
    ensures
        r == is_ready(libs@, strings_view(placed@), *l),
{
    let mut k: usize = 0;
    while k < l.depends_on_libs.len()
        invariant
            k <= l.depends_on_libs.len(),
            forall|j: int| 0 <= j < k ==> dependency_met(libs@, strings_view(placed@), #[trigger] l.depends_on_libs@[j]@),
        decreases l.depends_on_libs.len() - k,
    {
        let d = &l.depends_on_libs[k];
        let met = match find_library(libs, d) {
            None => true,
            Some(i) => libs[i].ignore || contains_text(placed, d),
        };
        if !met {
            return false;
        }
        k = k + 1;
    }
    true
}

fn names_at(libs: &Vec<Library>, idx: &Vec<usize>) -> (r: Vec<String>)
    requires
        forall|k: int| 0 <= k < idx@.len() ==> idx@[k] < libs@.len(),
    ensures
        strings_view(r@) == library_names(libs_at(libs@, idx@)),
{
    let mut r: Vec<String> = Vec::new();
    let mut k: usize = 0;
    while k < idx.len()
        invariant
            k <= idx.len(),
            forall|j: int| 0 <= j < idx@.len() ==> idx@[j] < libs@.len(),
            r@.len() == k,
            forall|j: int| 0 <= j < k ==> r@[j]@ == libs@[idx@[j] as int].name@,
        decreases idx.len() - k,
    {
        r.push(libs[idx[k]].name.clone());
        k = k + 1;
    }
    assert(strings_view(r@) =~= library_names(libs_at(libs@, idx@)));
    r
}

/// The compile order of the libraries that are not ignored, as `library_order`
/// states, or the dependency cycle that prevents one.
pub fn get_sorted_libraries(libraries: &Vec<Library>) -> (r: Result<Vec<String>, OrderError>)
    ensures
        match library_order(libraries@) {
            Ok(o) => r is Ok && strings_view(r->Ok_0@) == o,
            Err(e) => r is Err && r->Err_0@ == e,
        },
{
    let ghost ls = libraries@;
    let mut seed_names: Vec<String> = Vec::new();
    let mut rem: Vec<usize> = Vec::new();
    let mut i: usize = 0;
    assert(ls.subrange(0, 0) =~= Seq::<Library>::empty());
    assert(strings_view(seed_names@) =~= Seq::<Seq<char>>::empty());
    assert(libs_at(ls, rem@) =~= Seq::<Library>::empty());
    while i < libraries.len()
        invariant
            ls == libraries@,
            i <= libraries.len(),
            strings_view(seed_names@) == library_names(seeds(ls.subrange(0, i as int))),
            libs_at(ls, rem@) == dependents(ls.subrange(0, i as int)),
            forall|k: int| 0 <= k < rem@.len() ==> rem@[k] < ls.len(),
        decreases libraries.len() - i,
    {
        let ghost pre = ls.subrange(0, i as int);
        let ghost s0 = seed_names@;
        let ghost r0 = rem@;
        let l = &libraries[i];
        if !l.ignore && l.depends_on_libs.len() == 0 {
            seed_names.push(l.name.clone());
            assert(strings_view(seed_names@) =~= strings_view(s0).push(l.name@));
        } else if !l.ignore {
            rem.push(i);
            assert(libs_at(ls, rem@) =~= libs_at(ls, r0).push(ls[i as int]));
        }
        i = i + 1;
        assert(ls.subrange(0, i as int).drop_last() =~= pre);
        assert(library_names(seeds(pre).push(ls[i - 1])) =~= library_names(seeds(pre)).push(ls[i - 1].name@));
    }
    assert(ls.subrange(0, ls.len() as int) =~= ls);
    let mut placed = sort_names(&seed_names);
    loop
        invariant
            ls == libraries@,
            forall|k: int| 0 <= k < rem@.len() ==> rem@[k] < ls.len(),
            sort_rounds(ls, strings_view(placed@), libs_at(ls, rem@)) == library_order(ls),
        decreases rem@.len(),
    {
        let ghost pl = strings_view(placed@);
        let ghost rs = libs_at(ls, rem@);
        if rem.len() == 0 {
            assert(rs =~= Seq::<Library>::empty());
            return Ok(placed);
        }
        let mut ready_names: Vec<String> = Vec::new();
        let mut waiting: Vec<usize> = Vec::new();
        let mut j: usize = 0;
        assert(rs.subrange(0, 0) =~= Seq::<Library>::empty());
        assert(strings_view(ready_names@) =~= Seq::<Seq<char>>::empty());
        assert(libs_at(ls, waiting@) =~= Seq::<Library>::empty());
        while j < rem.len()
            invariant
                ls == libraries@,
                rs == libs_at(ls, rem@),
                pl == strings_view(placed@),
                j <= rem.len(),
                forall|k: int| 0 <= k < rem@.len() ==> rem@[k] < ls.len(),
                forall|k: int| 0 <= k < waiting@.len() ==> waiting@[k] < ls.len(),
                strings_view(ready_names@) == library_names(ready_of(ls, pl, rs.subrange(0, j as int))),
                libs_at(ls, waiting@) == waiting_of(ls, pl, rs.subrange(0, j as int)),
                ready_names@.len() + waiting@.len() == j,
            decreases rem.len() - j,
        {
            let ghost pre = rs.subrange(0, j as int);
            let ghost n0 = ready_names@;
            let ghost w0 = waiting@;
            let l = &libraries[rem[j]];
            if ready(libraries, &placed, l) {
                ready_names.push(l.name.clone());
                assert(strings_view(ready_names@) =~= strings_view(n0).push(l.name@));
            } else {
                waiting.push(rem[j]);
                assert(libs_at(ls, waiting@) =~= libs_at(ls, w0).push(ls[rem@[j as int] as int]));
            }
            j = j + 1;
            assert(rs.subrange(0, j as int).drop_last() =~= pre);
            assert(library_names(ready_of(ls, pl, pre).push(rs[j - 1])) =~= library_names(
                ready_of(ls, pl, pre),
            ).push(rs[j - 1].name@));
        }
        assert(rs.subrange(0, rem.len() as int) =~= rs);
        if ready_names.len() == 0 {
            let remaining = names_at(libraries, &rem);
            return Err(OrderError::DependencyCycle { placed, remaining });
        }
        let mut sorted = sort_names(&ready_names);
        let ghost p0 = placed@;
        placed.append(&mut sorted);
        assert(strings_view(placed@) =~= pl + sort_texts(library_names(ready_of(ls, pl, rs))));
        rem = waiting;
    }
}

} // verus!
