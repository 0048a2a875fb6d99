//! The rules that turn the records found in a source file into model entries:
//! what an instantiation names, where a binding points, which labels a binding
//! covers, and what a library clause makes visible.
use vstd::prelude::*;
use vstd::string::*;
use crate::model::{BindingKind, ConfigurationInstance, Instance, InstanceKind};
use crate::names::{
    blank_end, copy_strings, is_blank, lemma_word_end_bounds, ref_library, strings_view, word_end,
    work_name, all_name,
};

verus! {

/// An instantiation found in an architecture body: the label and the names of
/// the three forms `component c`, `entity lib.e`, `configuration lib.c`, each
/// empty when absent.
pub open spec fn instance_spec(
    label: Seq<char>,
    c_name: Seq<char>,
    e_lib: Seq<char>,
    e_name: Seq<char>,
    c_lib: Seq<char>,
    con_name: Seq<char>,
) -> (InstanceKind, Seq<char>, Seq<char>) {
    if c_name.len() > 0 {
        (InstanceKind::Component, work_name(), c_name)
    } else if e_name.len() > 0 {
        (InstanceKind::Entity, if e_lib.len() > 0 { e_lib } else { work_name() }, e_name)
    } else {
        (InstanceKind::Configuration, if c_lib.len() > 0 { c_lib } else { work_name() }, con_name)
    }
}

fn work_text() -> (r: String)
    ensures
        r@ == work_name(),
{
    proof {
        reveal_strlit("work");
    }
    let r = "work".to_owned();
    assert(r@ =~= work_name());
    r
}

fn or_work(lib: &String) -> (r: String)
    ensures
        r@ == if lib@.len() > 0 { lib@ } else { work_name() },
{
    if lib.as_str().unicode_len() > 0 {
        lib.clone()
    } else {
        work_text()
    }
}

/// The instance an instantiation statement declares, as `instance_spec` states.
pub fn instance_of(
    label: &String,
    c_name: &String,
    e_lib: &String,
    e_name: &String,
    c_lib: &String,
    con_name: &String,
) -> (r: Instance)
    ensures
        r.label@ == label@,
        (r.kind, r.library@, r.component@) == instance_spec(label@, c_name@, e_lib@, e_name@, c_lib@, con_name@),
{
    if c_name.as_str().unicode_len() > 0 {
        Instance { label: label.clone(), library: work_text(), kind: InstanceKind::Component, component: c_name.clone() }
    } else if e_name.as_str().unicode_len() > 0 {
        Instance { label: label.clone(), library: or_work(e_lib), kind: InstanceKind::Entity, component: e_name.clone() }
    } else {
        Instance {
            label: label.clone(),
            library: or_work(c_lib),
            kind: InstanceKind::Configuration,
            component: con_name.clone(),
        }
    }
}

/// Where a binding indication points: `lib.rest` names library `lib`, anything
/// else names `rest` in `default_lib`.
pub open spec fn binding_target_spec(target: Seq<char>, default_lib: Seq<char>) -> (Seq<char>, Seq<char>) {
    match ref_library(target) {
        Some(l) => (l, target.subrange(l.len() as int + 1, target.len() as int)),
        None => (default_lib, target),
    }
}

/// The library and name a binding indication points to.
pub fn binding_target(target: &String, default_lib: &String) -> (r: (String, String))
    ensures
        (r.0@, r.1@) == binding_target_spec(target@, default_lib@),
{
    let s = target.as_str();
    let n = s.unicode_len();
    let mut e: usize = 0;
    while e < n && crate::names::word_char(s.get_char(e))
        invariant
            n == s@.len(),
            e <= n,
            word_end(s@, e as int) == word_end(s@, 0),
        decreases n - e,
    {
        e = e + 1;
    }
    proof {
        lemma_word_end_bounds(s@, 0);
    }
    if e > 0 && e < n && s.get_char(e) == '.' {
        let l = s.substring_char(0, e).to_owned();
        let rest = s.substring_char(e + 1, n).to_owned();
        (l, rest)
    } else {
        (default_lib.clone(), target.clone())
    }
}

/// What a binding indication binds to: `open`, an entity, or a configuration,
/// each group empty when absent.
pub open spec fn binding_choice_spec(open: Seq<char>, entity: Seq<char>, conf: Seq<char>) -> (BindingKind, Seq<char>) {
    if open.len() > 0 {
        (BindingKind::Open, open)
    } else if entity.len() > 0 {
        (BindingKind::Entity, entity)
    } else {
        (BindingKind::Configuration, conf)
    }
}

pub fn binding_choice(open: &String, entity: &String, conf: &String) -> (r: (BindingKind, String))
    ensures
        (r.0, r.1@) == binding_choice_spec(open@, entity@, conf@),
{
    if open.as_str().unicode_len() > 0 {
        (BindingKind::Open, open.clone())
    } else if entity.as_str().unicode_len() > 0 {
        (BindingKind::Entity, entity.clone())
    } else {
        (BindingKind::Configuration, conf.clone())
    }
}

/// The comma-separated pieces of `s` from `start`, the current piece running from
/// `start` and scanned up to `i`.
pub open spec fn pieces_from(s: Seq<char>, start: int, i: int) -> Seq<Seq<char>>
    decreases s.len() - i,
{
    if i < start || i >= s.len() {
        seq![s.subrange(start, s.len() as int)]
    } else if s[i] == ',' {
        seq![s.subrange(start, i)] + pieces_from(s, i + 1, i + 1)
    } else {
        pieces_from(s, start, i + 1)
    }
}

/// The index after the last non-blank character before `j`.
pub open spec fn blank_start(s: Seq<char>, j: int) -> int
    decreases j,
{
    if 0 < j <= s.len() && is_blank(s[j - 1]) {
        blank_start(s, j - 1)
    } else {
        j
    }
}

/// `s` without leading and trailing blanks.
pub open spec fn trimmed(s: Seq<char>) -> Seq<char> {
    let a = blank_end(s, 0);
    let b = blank_start(s, s.len() as int);
    if a >= b {
        Seq::empty()
    } else {
        s.subrange(a, b)
    }
}

/// The labels of a binding's label list `l1, l2, ...`, each without blanks.
pub open spec fn labels_of(decl: Seq<char>) -> Seq<Seq<char>> {
    pieces_from(decl, 0, 0).map_values(|p: Seq<char>| trimmed(p))
}

proof fn lemma_blank_start_bounds(s: Seq<char>, j: int)
    requires
        0 <= j <= s.len(),
    ensures
        0 <= blank_start(s, j) <= j,
    decreases j,
{
    if 0 < j && is_blank(s[j - 1]) {
        lemma_blank_start_bounds(s, j - 1);
    }
}

fn trim_text(s: &str) -> (r: String)
    ensures
        r@ == trimmed(s@),
{
    let n = s.unicode_len();
    let mut a: usize = 0;
    while a < n && (s.get_char(a) == ' ' || s.get_char(a) == '\t' || s.get_char(a) == '\n' || s.get_char(a) == '\r')
        invariant
            n == s@.len(),
            a <= n,
            blank_end(s@, a as int) == blank_end(s@, 0),
        decreases n - a,
    {
        a = a + 1;
    }
    let mut b: usize = n;
    while b > 0 && (s.get_char(b - 1) == ' ' || s.get_char(b - 1) == '\t' || s.get_char(b - 1) == '\n' || s.get_char(
        b - 1,
    ) == '\r')
        invariant
            n == s@.len(),
            b <= n,
            blank_start(s@, b as int) == blank_start(s@, n as int),
        decreases b,
    {
        b = b - 1;
    }
    if a >= b {
        let r = String::new();
        return r;
    }
    s.substring_char(a, b).to_owned()
}

/// The labels a binding's label list covers, as `labels_of` states.
pub fn split_labels(decl: &String) -> (r: Vec<String>)
    ensures
        strings_view(r@) == labels_of(decl@),
{
    let s = decl.as_str();
    let n = s.unicode_len();
    let ghost whole = pieces_from(s@, 0, 0);
    let ghost mut done_pieces: Seq<Seq<char>> = Seq::empty();
    let mut r: Vec<String> = Vec::new();
    let mut start: usize = 0;
    let mut i: usize = 0;
    while i < n
        invariant
            n == s@.len(),
            s@ == decl@,
            start <= i <= n,
            whole == pieces_from(s@, 0, 0),
            done_pieces + pieces_from(s@, start as int, i as int) == whole,
            strings_view(r@) == done_pieces.map_values(|p: Seq<char>| trimmed(p)),
        decreases n - i,
    {
        if s.get_char(i) == ',' {
            let piece = s.substring_char(start, i);
            let ghost pv = piece@;
            let ghost r0 = strings_view(r@);
            r.push(trim_text(piece));
            proof {
                assert(s@[i as int] == ',');
                assert(pv == s@.subrange(start as int, i as int));
                assert(pieces_from(s@, start as int, i as int) == seq![pv] + pieces_from(s@, i + 1, i + 1));
                assert(done_pieces + (seq![pv] + pieces_from(s@, i + 1, i + 1)) =~= done_pieces.push(pv)
                    + pieces_from(s@, i + 1, i + 1));
                assert(strings_view(r@) =~= r0.push(trimmed(pv)));
                assert(done_pieces.push(pv).map_values(|p: Seq<char>| trimmed(p)) =~= done_pieces.map_values(
                    |p: Seq<char>| trimmed(p),
                ).push(trimmed(pv)));
                done_pieces = done_pieces.push(pv);
            }
            start = i + 1;
        }
        i = i + 1;
    }
    let last = s.substring_char(start, n);
    let ghost lv = last@;
    let ghost r0 = strings_view(r@);
    r.push(trim_text(last));
    proof {
        assert(lv == s@.subrange(start as int, s@.len() as int));
        assert(i == n);
        assert(pieces_from(s@, start as int, n as int) == seq![lv]);
        assert(done_pieces + seq![lv] == whole);
        assert(strings_view(r@) =~= r0.push(trimmed(lv)));
        assert(done_pieces.push(lv).map_values(|p: Seq<char>| trimmed(p)) =~= done_pieces.map_values(
            |p: Seq<char>| trimmed(p),
        ).push(trimmed(lv)));
        assert(done_pieces + seq![lv] =~= done_pieces.push(lv));
    }
    r
}

/// One binding per label of `label_decl`: each binds instances of `comp` with
/// the binding `kind` to `target`, in the library `target` names or else
/// `own_library`.
pub fn bindings_of(
    label_decl: &String,
    comp: &String,
    kind: BindingKind,
    target: &String,
    own_library: &String,
    uses: &Vec<String>,
) -> (r: Vec<ConfigurationInstance>)
    ensures
        r@.len() == labels_of(label_decl@).len(),
        forall|k: int|
            0 <= k < r@.len() ==> {
                let b = #[trigger] r@[k];
                &&& b.label@ == labels_of(label_decl@)[k]
                &&& b.comp@ == comp@
                &&& b.kind == kind
                &&& (b.library@, b.component@) == binding_target_spec(target@, own_library@)
                &&& b.uses@ == uses@
            },
{
    let labels = split_labels(label_decl);
    let (lib, name) = binding_target(target, own_library);
    let mut r: Vec<ConfigurationInstance> = Vec::new();
    let mut k: usize = 0;
    while k < labels.len()
        invariant
            k <= labels.len(),
            strings_view(labels@) == labels_of(label_decl@),
            (lib@, name@) == binding_target_spec(target@, own_library@),
            r@.len() == k,
            forall|m: int|
                0 <= m < k ==> {
                    let b = #[trigger] r@[m];
                    &&& b.label@ == labels_of(label_decl@)[m]
                    &&& b.comp@ == comp@
                    &&& b.kind == kind
                    &&& (b.library@, b.component@) == binding_target_spec(target@, own_library@)
                    &&& b.uses@ == uses@
                },
        decreases labels.len() - k,
    {
        assert(strings_view(labels@)[k as int] == labels@[k as int]@);
        r.push(
            ConfigurationInstance {
                library: lib.clone(),
                label: labels[k].clone(),
                comp: comp.clone(),
                kind,
                component: name.clone(),
                uses: copy_strings(uses),
            },
        );
        k = k + 1;
    }
    r
}

/// The use reference a library clause `library name;` stands for: `name.all`.
pub fn library_clause_use(name: &String) -> (r: String)
    ensures
        r@ == name@ + seq!['.'] + all_name(),
{
    let mut r = name.clone();
    r.append(".all");
    proof {
        reveal_strlit(".all");
    }
    assert(r@ =~= name@ + seq!['.'] + all_name());
    r
}

} // verus!
