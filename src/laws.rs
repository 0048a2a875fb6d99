//! Laws of resolution and of the library order, proved over the spec functions
//! that the executable functions' contracts use.
use vstd::prelude::*;
use crate::model::{
    arch_index, architecture_names, configuration_index, design_index, lib_index, library_names,
    package_index, Binding, BindingKind, Design, ElementView, Instance, InstanceKind, Library,
    binding_keys,
};
use crate::names::{
    all_key, all_name, index_of, lemma_index_of, lemma_index_of_found, others_name, parse_target,
};
use crate::order::{
    dependents, dependency_met, insert_sorted, is_dependent, is_ready, is_seed, library_order,
    ready_of, seeds, select, sort_rounds, sort_texts, waiting_of,
};
use crate::outcome::{
    delivers, group_trace, note, then, DiagnosticView, Resolution, ResolveError, Trace,
};
use crate::resolve::MAX_DEPTH;
use crate::semantics::{
    binding_res, by_name, component_libraries, design_res, effective_library, first_applying,
    has_single_architecture, instance_res, instances_from, scan_candidates, some_library_has_module,
    uses_from, Chain,
};

verus! {

broadcast use group_trace;

/// Resolving the same target against the same model twice gives the same elements
/// and diagnostics, or the same fatal error.
pub proof fn law_resolution_deterministic(
    libs: Seq<Library>,
    lib: Library,
    name: Seq<char>,
    r1: Result<Resolution, ResolveError>,
    r2: Result<Resolution, ResolveError>,
)
    requires
        delivers(r1, by_name(libs, lib, name, Seq::empty(), MAX_DEPTH as nat)),
        delivers(r2, by_name(libs, lib, name, Seq::empty(), MAX_DEPTH as nat)),
    ensures
        r1 is Ok <==> r2 is Ok,
        r1 is Ok ==> r1->Ok_0@ == r2->Ok_0@,
        r1 is Err ==> r1->Err_0@ == r2->Err_0@,
{
}

/// Computing the library order twice from the same model gives the same order, or
/// the same cycle.
pub proof fn law_order_deterministic(libs1: Seq<Library>, libs2: Seq<Library>)
    requires
        libs1 == libs2,
    ensures
        library_order(libs1) == library_order(libs2),
{
}

/// A design with exactly one architecture resolves the same whether it is named
/// alone or together with that architecture (when no configuration or package of
/// that library has the same name, since those are looked up first).
pub proof fn law_single_architecture(
    libs: Seq<Library>,
    lib: Library,
    plain: Seq<char>,
    explicit: Seq<char>,
    chain: Chain,
    fuel: nat,
)
    requires
        parse_target(plain) is Some,
        parse_target(plain)->Some_0.architecture is None,
        parse_target(explicit) is Some,
        parse_target(explicit)->Some_0.unit == parse_target(plain)->Some_0.unit,
        design_index(lib, parse_target(plain)->Some_0.unit) >= 0,
        lib.designs@[design_index(lib, parse_target(plain)->Some_0.unit)].architectures@.len() == 1,
        parse_target(explicit)->Some_0.architecture == Some(
            lib.designs@[design_index(lib, parse_target(plain)->Some_0.unit)].architectures@[0].name@,
        ),
        configuration_index(lib, parse_target(plain)->Some_0.unit) < 0,
        package_index(lib, parse_target(plain)->Some_0.unit) < 0,
    ensures
        by_name(libs, lib, plain, chain, fuel) == by_name(libs, lib, explicit, chain, fuel),
{
    let u = parse_target(plain)->Some_0.unit;
    let d = lib.designs@[design_index(lib, u)];
    assert(architecture_names(d.architectures@)[0] == d.architectures@[0].name@);
    assert(arch_index(d, d.architectures@[0].name@) == 0);
}

/// A design with two architectures, named without one, resolves to no element and
/// exactly one diagnostic: the ambiguity, naming both architectures.
pub proof fn law_ambiguous_design(libs: Seq<Library>, lib: Library, name: Seq<char>, chain: Chain, fuel: nat)
    requires
        !lib.ignore,
        parse_target(name) is Some,
        parse_target(name)->Some_0.architecture is None,
        design_index(lib, parse_target(name)->Some_0.unit) >= 0,
        lib.designs@[design_index(lib, parse_target(name)->Some_0.unit)].architectures@.len() == 2,
        configuration_index(lib, parse_target(name)->Some_0.unit) < 0,
        package_index(lib, parse_target(name)->Some_0.unit) < 0,
    ensures
        ({
            let d = lib.designs@[design_index(lib, parse_target(name)->Some_0.unit)];
            by_name(libs, lib, name, chain, fuel) == Ok::<Trace, crate::outcome::ResolveErrorView>(
                Trace {
                    elements: Seq::empty(),
                    diagnostics: seq![
                        DiagnosticView::AmbiguousDesign {
                            design: d.name@,
                            architectures: seq![d.architectures@[0].name@, d.architectures@[1].name@],
                        },
                    ],
                },
            )
        }),
{
    let d = lib.designs@[design_index(lib, parse_target(name)->Some_0.unit)];
    assert(architecture_names(d.architectures@) =~= seq![
        d.architectures@[0].name@,
        d.architectures@[1].name@,
    ]);
}

/// How often the element `library`/`filename` occurs in `s`.
pub open spec fn occurrences(s: Seq<ElementView>, library: Seq<char>, filename: Seq<char>) -> nat
    decreases s.len(),
{
    if s.len() == 0 {
        0
    } else {
        occurrences(s.drop_last(), library, filename) + if s.last().library == library
            && s.last().filename == filename {
            1nat
        } else {
            0nat
        }
    }
}

pub proof fn lemma_occurrences_add(a: Seq<ElementView>, b: Seq<ElementView>, library: Seq<char>, filename: Seq<char>)
    ensures
        occurrences(a + b, library, filename) == occurrences(a, library, filename) + occurrences(b, library, filename),
    decreases b.len(),
{
    if b.len() == 0 {
        assert(a + b =~= a);
    } else {
        lemma_occurrences_add(a, b.drop_last(), library, filename);
        assert((a + b).drop_last() =~= a + b.drop_last());
    }
}

/// When a design's entity and its architecture share one file, and neither the
/// entity's uses nor the architecture's uses and instances bring that file, the
/// file occurs exactly once in the design's resolution.
pub proof fn law_shared_file_once(
    libs: Seq<Library>,
    cur: Seq<char>,
    d: Design,
    arch: Seq<char>,
    binds: Seq<Binding>,
    chain: Chain,
    fuel: nat,
)
    requires
        arch_index(d, arch) >= 0,
        d.architectures@[arch_index(d, arch)].filename@ == d.entity.filename@,
        uses_from(libs, cur, d.entity.uses@, 0, chain, fuel) is Ok,
        occurrences(uses_from(libs, cur, d.entity.uses@, 0, chain, fuel)->Ok_0.elements, cur, d.entity.filename@) == 0,
        uses_from(libs, cur, d.architectures@[arch_index(d, arch)].uses@, 0, chain, fuel) is Ok,
        occurrences(
            uses_from(libs, cur, d.architectures@[arch_index(d, arch)].uses@, 0, chain, fuel)->Ok_0.elements,
            cur,
            d.entity.filename@,
        ) == 0,
        ({
            let a = d.architectures@[arch_index(d, arch)];
            let r = instances_from(libs, cur, a.instances@, 0, binds, a.uses@, chain, fuel);
            r is Ok && occurrences(r->Ok_0.elements, cur, d.entity.filename@) == 0
        }),
    ensures
        design_res(libs, cur, d, arch, binds, chain, fuel) is Ok,
        occurrences(design_res(libs, cur, d, arch, binds, chain, fuel)->Ok_0.elements, cur, d.entity.filename@) == 1,
{
    let a = d.architectures@[arch_index(d, arch)];
    let f = d.entity.filename@;
    let t1 = uses_from(libs, cur, d.entity.uses@, 0, chain, fuel)->Ok_0.elements;
    let t2 = uses_from(libs, cur, a.uses@, 0, chain, fuel)->Ok_0.elements;
    let t3 = instances_from(libs, cur, a.instances@, 0, binds, a.uses@, chain, fuel)->Ok_0.elements;
    let last = seq![crate::semantics::element_of(cur, a.filename@)];
    let all = design_res(libs, cur, d, arch, binds, chain, fuel)->Ok_0.elements;
    assert(all =~= t1 + (Seq::<ElementView>::empty() + (t2 + (t3 + last))));
    lemma_occurrences_add(t3, last, cur, f);
    lemma_occurrences_add(t2, t3 + last, cur, f);
    lemma_occurrences_add(Seq::<ElementView>::empty(), t2 + (t3 + last), cur, f);
    lemma_occurrences_add(t1, Seq::<ElementView>::empty() + (t2 + (t3 + last)), cur, f);
    assert(last.drop_last() =~= Seq::<ElementView>::empty());
}

/// An instance whose label has a binding resolves to what that binding names,
/// whatever its own declared component would resolve to.
pub proof fn law_label_binding_wins(
    libs: Seq<Library>,
    cur: Seq<char>,
    inst: Instance,
    binds: Seq<Binding>,
    uses: Seq<String>,
    chain: Chain,
    fuel: nat,
    k: int,
)
    requires
        0 <= k < binds.len(),
        binds[k].key@ == inst.label@,
        forall|j: int| 0 <= j < k ==> binds[j].key@ != inst.label@,
        binds[k].instance.kind != BindingKind::Open,
        lib_index(libs, effective_library(binds[k].instance.library@, cur)) >= 0,
    ensures
        instance_res(libs, cur, inst, binds, uses, chain, fuel) == by_name(
            libs,
            libs[lib_index(libs, effective_library(binds[k].instance.library@, cur))],
            binds[k].instance.component@,
            chain,
            fuel,
        ),
{
    lemma_index_of_found(binding_keys(binds), inst.label@, k);
}

/// A binding declared for `all` instances of component `C` applies to every
/// instance of `C` whose label has no binding of its own, whatever that label is.
pub proof fn law_all_binding_covers_component(
    libs: Seq<Library>,
    cur: Seq<char>,
    inst: Instance,
    binds: Seq<Binding>,
    uses: Seq<String>,
    chain: Chain,
    fuel: nat,
    k: int,
)
    requires
        0 <= k < binds.len(),
        binds[k].key@ == all_key(inst.component@),
        forall|j: int| 0 <= j < k ==> binds[j].key@ != all_key(inst.component@),
        index_of(binding_keys(binds), inst.label@) < 0,
    ensures
        instance_res(libs, cur, inst, binds, uses, chain, fuel) == binding_res(
            libs,
            cur,
            binds[k].instance,
            chain,
            fuel,
        ),
{
    lemma_index_of_found(binding_keys(binds), all_key(inst.component@), k);
}

proof fn lemma_remove_keeps_lookup(binds: Seq<Binding>, k: int, n: Seq<char>)
    requires
        0 <= k < binds.len(),
        binds[k].key@ != n,
    ensures
        (index_of(binding_keys(binds), n) < 0) == (index_of(binding_keys(binds.remove(k)), n) < 0),
        index_of(binding_keys(binds), n) >= 0 ==> binds[index_of(binding_keys(binds), n)]
            == binds.remove(k)[index_of(binding_keys(binds.remove(k)), n)],
{
    let b = binds.remove(k);
    let ks = binding_keys(binds);
    let kr = binding_keys(b);
    lemma_index_of(ks, n);
    lemma_index_of(kr, n);
    let i = index_of(ks, n);
    if i < 0 {
        if index_of(kr, n) >= 0 {
            let i2 = index_of(kr, n);
            if i2 < k {
                assert(kr[i2] == ks[i2]);
            } else {
                assert(kr[i2] == ks[i2 + 1]);
            }
        }
    } else if i < k {
        assert forall|j: int| 0 <= j < i implies kr[j] != n by {
            assert(kr[j] == ks[j]);
        }
        assert(kr[i] == ks[i]);
        lemma_index_of_found(kr, n, i);
    } else {
        assert(i != k);
        assert forall|j: int| 0 <= j < i - 1 implies kr[j] != n by {
            if j < k {
                assert(kr[j] == ks[j]);
            } else {
                assert(kr[j] == ks[j + 1]);
            }
        }
        assert(kr[i - 1] == ks[i]);
        lemma_index_of_found(kr, n, i - 1);
    }
}

proof fn lemma_first_applying(binds: Seq<Binding>, inst: Instance, i: int)
    requires
        0 <= i,
    ensures
        first_applying(binds, inst, i) == -1 || (i <= first_applying(binds, inst, i) < binds.len()),
        first_applying(binds, inst, i) >= 0 ==> crate::semantics::binding_applies(
            binds[first_applying(binds, inst, i)],
            inst,
        ),
        forall|j: int| i <= j < binds.len() && (first_applying(binds, inst, i) < 0 || j < first_applying(binds, inst, i))
            ==> !crate::semantics::binding_applies(#[trigger] binds[j], inst),
    decreases binds.len() - i,
{
    if i < binds.len() && !crate::semantics::binding_applies(binds[i], inst) {
        lemma_first_applying(binds, inst, i + 1);
    }
}

proof fn lemma_first_applying_at(binds: Seq<Binding>, inst: Instance, i: int, f: int)
    requires
        0 <= i <= f,
        f == binds.len() || (f < binds.len() && crate::semantics::binding_applies(binds[f], inst)),
        forall|j: int| i <= j < f ==> !crate::semantics::binding_applies(#[trigger] binds[j], inst),
    ensures
        first_applying(binds, inst, i) == if f == binds.len() { -1 } else { f },
    decreases f - i,
{
    if i < f {
        lemma_first_applying_at(binds, inst, i + 1, f);
    }
}

proof fn lemma_remove_keeps_first_applying(binds: Seq<Binding>, k: int, inst: Instance)
    requires
        0 <= k < binds.len(),
        !crate::semantics::binding_applies(binds[k], inst),
    ensures
        (first_applying(binds, inst, 0) < 0) == (first_applying(binds.remove(k), inst, 0) < 0),
        first_applying(binds, inst, 0) >= 0 ==> binds[first_applying(binds, inst, 0)]
            == binds.remove(k)[first_applying(binds.remove(k), inst, 0)],
{
    let b = binds.remove(k);
    lemma_first_applying(binds, inst, 0);
    let f = first_applying(binds, inst, 0);
    if f < 0 {
        assert forall|j: int| 0 <= j < b.len() implies !crate::semantics::binding_applies(#[trigger] b[j], inst) by {
            if j < k {
                assert(b[j] == binds[j]);
            } else {
                assert(b[j] == binds[j + 1]);
            }
        }
        lemma_first_applying_at(b, inst, 0, b.len() as int);
    } else if f < k {
        assert forall|j: int| 0 <= j < f implies !crate::semantics::binding_applies(#[trigger] b[j], inst) by {
            assert(b[j] == binds[j]);
        }
        assert(b[f] == binds[f]);
        lemma_first_applying_at(b, inst, 0, f);
    } else {
        assert forall|j: int| 0 <= j < f - 1 implies !crate::semantics::binding_applies(#[trigger] b[j], inst) by {
            if j < k {
                assert(b[j] == binds[j]);
            } else {
                assert(b[j] == binds[j + 1]);
            }
        }
        assert(b[f - 1] == binds[f]);
        lemma_first_applying_at(b, inst, 0, f - 1);
    }
}

/// A binding declared for `all` instances of component `C` leaves an instance of
/// another component alone, whatever its label: it resolves as it would without
/// that binding (a label spelled like the binding's own key excepted).
pub proof fn law_all_binding_scoped(
    libs: Seq<Library>,
    cur: Seq<char>,
    inst: Instance,
    binds: Seq<Binding>,
    uses: Seq<String>,
    chain: Chain,
    fuel: nat,
    k: int,
    component: Seq<char>,
)
    requires
        0 <= k < binds.len(),
        binds[k].key@ == all_key(component),
        inst.component@ != component,
        inst.label@ != all_key(component),
    ensures
        instance_res(libs, cur, inst, binds, uses, chain, fuel) == instance_res(
            libs,
            cur,
            inst,
            binds.remove(k),
            uses,
            chain,
            fuel,
        ),
{
    let key = all_key(component);
    assert(key[0] == 'a');
    assert(others_name()[0] == 'o');
    assert(key.len() != all_name().len());
    assert(key != others_name());
    assert(key != all_name());
    lemma_remove_keeps_lookup(binds, k, inst.label@);
    if all_key(inst.component@) == key {
        assert(all_key(inst.component@).subrange(4, all_key(inst.component@).len() as int) =~= inst.component@);
        assert(key.subrange(4, key.len() as int) =~= component);
    }
    lemma_remove_keeps_lookup(binds, k, all_key(inst.component@));
    lemma_remove_keeps_first_applying(binds, k, inst);
}

/// Whether nothing can stand for the component of `inst` from library `cur`: no
/// binding applies, no candidate library holds a design of that name, and no
/// library holds a module of that name.
pub open spec fn unresolvable(libs: Seq<Library>, cur: Seq<char>, inst: Instance, binds: Seq<Binding>, uses: Seq<String>) -> bool {
    let cands = component_libraries(seq![cur], uses, 0, cur, inst.component@);
    &&& inst.kind == InstanceKind::Component
    &&& index_of(binding_keys(binds), inst.label@) < 0
    &&& index_of(binding_keys(binds), all_key(inst.component@)) < 0
    &&& first_applying(binds, inst, 0) < 0
    &&& forall|j: int|
        0 <= j < cands.len() ==> lib_index(libs, #[trigger] cands[j]) < 0 || design_index(
            libs[lib_index(libs, cands[j])],
            inst.component@,
        ) < 0
    &&& !some_library_has_module(libs, inst.component@)
}

proof fn lemma_scan_finds_nothing(
    libs: Seq<Library>,
    cands: Seq<Seq<char>>,
    j: int,
    comp: Seq<char>,
    chain: Chain,
    fuel: nat,
)
    requires
        0 <= j,
        forall|k: int| 0 <= k < cands.len() ==> lib_index(libs, #[trigger] cands[k]) < 0 || design_index(libs[lib_index(libs, cands[k])], comp) < 0,
    ensures
        scan_candidates(libs, cands, j, comp, chain, fuel) == crate::outcome::done(),
    decreases cands.len() - j,
{
    if j < cands.len() {
        lemma_scan_finds_nothing(libs, cands, j + 1, comp, chain, fuel);
    }
}

/// An instance that nothing can stand for yields no element and exactly one
/// diagnostic, that it is unresolved.
pub proof fn law_unresolved_instance(
    libs: Seq<Library>,
    cur: Seq<char>,
    inst: Instance,
    binds: Seq<Binding>,
    uses: Seq<String>,
    chain: Chain,
    fuel: nat,
)
    requires
        unresolvable(libs, cur, inst, binds, uses),
    ensures
        instance_res(libs, cur, inst, binds, uses, chain, fuel) == note(
            DiagnosticView::UnresolvedInstance { label: inst.label@, library: cur },
        ),
{
    let cands = component_libraries(seq![cur], uses, 0, cur, inst.component@);
    lemma_scan_finds_nothing(libs, cands, 0, inst.component@, chain, fuel);
    assert(!has_single_architecture(libs, cands, inst.component@));
}

/// In an architecture of three instances, an unresolvable middle one contributes
/// its one diagnostic and nothing else; the other two resolve as on their own.
pub proof fn law_unresolved_instance_isolated(
    libs: Seq<Library>,
    cur: Seq<char>,
    insts: Seq<Instance>,
    binds: Seq<Binding>,
    uses: Seq<String>,
    chain: Chain,
    fuel: nat,
)
    requires
        insts.len() == 3,
        unresolvable(libs, cur, insts[1], binds, uses),
    ensures
        instances_from(libs, cur, insts, 0, binds, uses, chain, fuel) == then(
            instance_res(libs, cur, insts[0], binds, uses, chain, fuel),
            then(
                note(DiagnosticView::UnresolvedInstance { label: insts[1].label@, library: cur }),
                instance_res(libs, cur, insts[2], binds, uses, chain, fuel),
            ),
        ),
{
    law_unresolved_instance(libs, cur, insts[1], binds, uses, chain, fuel);
    let r0 = instance_res(libs, cur, insts[0], binds, uses, chain, fuel);
    let r1 = instance_res(libs, cur, insts[1], binds, uses, chain, fuel);
    let r2 = instance_res(libs, cur, insts[2], binds, uses, chain, fuel);
    let f3 = instances_from(libs, cur, insts, 3, binds, uses, chain, fuel);
    let f2 = instances_from(libs, cur, insts, 2, binds, uses, chain, fuel);
    let f1 = instances_from(libs, cur, insts, 1, binds, uses, chain, fuel);
    assert(f3 == crate::outcome::done());
    assert(f2 == then(r2, f3));
    assert(then(r2, crate::outcome::done()) == r2);
    assert(f1 == then(r1, f2));
    assert(instances_from(libs, cur, insts, 0, binds, uses, chain, fuel) == then(r0, f1));
}

/// Library names are unique within the model.
pub open spec fn unique_names(libs: Seq<Library>) -> bool {
    forall|i: int, j: int| 0 <= i < j < libs.len() ==> libs[i].name@ != libs[j].name@
}

/// A dependency that orders: a library of the model that is not ignored.
pub open spec fn known_dependency(libs: Seq<Library>, d: Seq<char>) -> bool {
    lib_index(libs, d) >= 0 && !libs[lib_index(libs, d)].ignore
}

/// Every known dependency of the library at position `b` of `order` stands
/// somewhere before `b`.
pub open spec fn after_dependencies(libs: Seq<Library>, order: Seq<Seq<char>>, b: int) -> bool {
    let l = libs[lib_index(libs, order[b])];
    lib_index(libs, order[b]) >= 0 ==> forall|k: int|
        0 <= k < l.depends_on_libs@.len() && known_dependency(libs, #[trigger] l.depends_on_libs@[k]@)
            ==> exists|a: int| 0 <= a < b && order[a] == l.depends_on_libs@[k]@
}

proof fn lemma_select_members(ls: Seq<Library>, p: spec_fn(Library) -> bool)
    ensures
        forall|k: int| 0 <= k < select(ls, p).len() ==> p(#[trigger] select(ls, p)[k]) && ls.contains(select(ls, p)[k]),
    decreases ls.len(),
{
    if ls.len() > 0 {
        lemma_select_members(ls.drop_last(), p);
        let r = select(ls.drop_last(), p);
        assert forall|k: int| 0 <= k < select(ls, p).len() implies p(#[trigger] select(ls, p)[k]) && ls.contains(
            select(ls, p)[k],
        ) by {
            if k < r.len() {
                assert(select(ls, p)[k] == r[k]);
                let w = choose|w: int| 0 <= w < ls.drop_last().len() && ls.drop_last()[w] == r[k];
                assert(ls[w] == r[k]);
            } else {
                assert(ls[ls.len() - 1] == ls.last());
            }
        }
    }
}

proof fn lemma_select_includes(ls: Seq<Library>, p: spec_fn(Library) -> bool, i: int)
    requires
        0 <= i < ls.len(),
        p(ls[i]),
    ensures
        select(ls, p).contains(ls[i]),
    decreases ls.len(),
{
    let r = select(ls.drop_last(), p);
    if i == ls.len() - 1 {
        assert(select(ls, p)[r.len() as int] == ls[i]);
    } else {
        lemma_select_includes(ls.drop_last(), p, i);
        let w = choose|w: int| 0 <= w < r.len() && r[w] == ls.drop_last()[i];
        assert(select(ls, p)[w] == r[w]);
    }
}

proof fn lemma_insert_contains(x: Seq<char>, t: Seq<Seq<char>>)
    ensures
        insert_sorted(x, t).len() == t.len() + 1,
        forall|y: Seq<char>| #[trigger] insert_sorted(x, t).contains(y) <==> (y == x || t.contains(y)),
    decreases t.len(),
{
    if t.len() > 0 && !crate::order::text_less(x, t[0]) {
        lemma_insert_contains(x, t.drop_first());
        let r = insert_sorted(x, t.drop_first());
        assert forall|y: Seq<char>| #[trigger] insert_sorted(x, t).contains(y) <==> (y == x || t.contains(y)) by {
            if insert_sorted(x, t).contains(y) {
                let w = choose|w: int| 0 <= w < insert_sorted(x, t).len() && insert_sorted(x, t)[w] == y;
                if w > 0 {
                    assert(r[w - 1] == y);
                    assert(r.contains(y));
                    if y != x {
                        let v = choose|v: int| 0 <= v < t.drop_first().len() && t.drop_first()[v] == y;
                        assert(t[v + 1] == y);
                    }
                } else {
                    assert(t[0] == y);
                }
            }
            if y == x {
                assert(r.contains(y));
                let w = choose|w: int| 0 <= w < r.len() && r[w] == y;
                assert(insert_sorted(x, t)[w + 1] == y);
            } else if t.contains(y) {
                let v = choose|v: int| 0 <= v < t.len() && t[v] == y;
                if v == 0 {
                    assert(insert_sorted(x, t)[0] == y);
                } else {
                    assert(t.drop_first()[v - 1] == y);
                    assert(t.drop_first().contains(y));
                    assert(r.contains(y));
                    let w = choose|w: int| 0 <= w < r.len() && r[w] == y;
                    assert(insert_sorted(x, t)[w + 1] == y);
                }
            }
        }
    } else if t.len() > 0 {
        assert forall|y: Seq<char>| #[trigger] insert_sorted(x, t).contains(y) <==> (y == x || t.contains(y)) by {
            if insert_sorted(x, t).contains(y) {
                let w = choose|w: int| 0 <= w < insert_sorted(x, t).len() && insert_sorted(x, t)[w] == y;
                if w > 0 {
                    assert(t[w - 1] == y);
                }
            }
            if y == x {
                assert(insert_sorted(x, t)[0] == y);
            } else if t.contains(y) {
                let v = choose|v: int| 0 <= v < t.len() && t[v] == y;
                assert(insert_sorted(x, t)[v + 1] == y);
            }
        }
    } else {
        assert forall|y: Seq<char>| #[trigger] insert_sorted(x, t).contains(y) <==> (y == x || t.contains(y)) by {
            if y == x {
                assert(insert_sorted(x, t)[0] == y);
            }
        }
    }
}

proof fn lemma_sort_contains(s: Seq<Seq<char>>)
    ensures
        sort_texts(s).len() == s.len(),
        forall|y: Seq<char>| #[trigger] sort_texts(s).contains(y) <==> s.contains(y),
    decreases s.len(),
{
    if s.len() > 0 {
        lemma_sort_contains(s.drop_last());
        lemma_insert_contains(s.last(), sort_texts(s.drop_last()));
        assert forall|y: Seq<char>| #[trigger] sort_texts(s).contains(y) <==> s.contains(y) by {
            if s.drop_last().contains(y) {
                let v = choose|v: int| 0 <= v < s.drop_last().len() && s.drop_last()[v] == y;
                assert(s[v] == y);
            }
            if s.contains(y) && y != s.last() {
                let v = choose|v: int| 0 <= v < s.len() && s[v] == y;
                assert(s.drop_last()[v] == y);
            }
        }
    }
}

proof fn lemma_name_of_member(ls: Seq<Library>, n: Seq<char>)
    requires
        library_names(ls).contains(n),
    ensures
        exists|k: int| 0 <= k < ls.len() && ls[k].name@ == n,
{
    let k = choose|k: int| 0 <= k < library_names(ls).len() && library_names(ls)[k] == n;
    assert(ls[k].name@ == n);
}

proof fn lemma_member_name(ls: Seq<Library>, l: Library)
    requires
        ls.contains(l),
    ensures
        library_names(ls).contains(l.name@),
{
    let k = choose|k: int| 0 <= k < ls.len() && ls[k] == l;
    assert(library_names(ls)[k] == l.name@);
}

proof fn lemma_unique_index(libs: Seq<Library>, i: int)
    requires
        unique_names(libs),
        0 <= i < libs.len(),
    ensures
        lib_index(libs, libs[i].name@) == i,
{
    assert forall|k: int| 0 <= k < i implies library_names(libs)[k] != libs[i].name@ by {
        assert(library_names(libs)[k] == libs[k].name@);
    }
    lemma_index_of_found(library_names(libs), libs[i].name@, i);
}

proof fn lemma_member_index(libs: Seq<Library>, l: Library)
    requires
        unique_names(libs),
        libs.contains(l),
    ensures
        lib_index(libs, l.name@) >= 0,
        libs[lib_index(libs, l.name@)] == l,
{
    let i = choose|i: int| 0 <= i < libs.len() && libs[i] == l;
    lemma_unique_index(libs, i);
}

proof fn lemma_extend_keeps(libs: Seq<Library>, placed: Seq<Seq<char>>, more: Seq<Seq<char>>, b: int)
    requires
        0 <= b < placed.len(),
        after_dependencies(libs, placed, b),
    ensures
        after_dependencies(libs, placed + more, b),
{
    let o = placed + more;
    assert(o[b] == placed[b]);
    let l = libs[lib_index(libs, o[b])];
    if lib_index(libs, o[b]) >= 0 {
        assert forall|k: int| 0 <= k < l.depends_on_libs@.len() && known_dependency(libs, #[trigger] l.depends_on_libs@[k]@)
            implies exists|a: int| 0 <= a < b && o[a] == l.depends_on_libs@[k]@ by {
            let a = choose|a: int| 0 <= a < b && placed[a] == l.depends_on_libs@[k]@;
            assert(o[a] == placed[a]);
        }
    }
}

proof fn lemma_rounds_sound(libs: Seq<Library>, placed: Seq<Seq<char>>, rem: Seq<Library>)
    requires
        unique_names(libs),
        forall|b: int| 0 <= b < placed.len() ==> after_dependencies(libs, placed, b),
        forall|l: Library| rem.contains(l) ==> libs.contains(l),
    ensures
        sort_rounds(libs, placed, rem) is Ok ==> forall|b: int|
            0 <= b < sort_rounds(libs, placed, rem)->Ok_0.len() ==> after_dependencies(
                libs,
                sort_rounds(libs, placed, rem)->Ok_0,
                b,
            ),
    decreases rem.len(),
{
    if rem.len() > 0 {
        let ready = ready_of(libs, placed, rem);
        let waiting = waiting_of(libs, placed, rem);
        crate::order::lemma_select_split(
            rem,
            |l: Library| is_ready(libs, placed, l),
            |l: Library| !is_ready(libs, placed, l),
        );
        if ready.len() > 0 {
            let more = sort_texts(library_names(ready));
            let placed2 = placed + more;
            lemma_select_members(rem, |l: Library| is_ready(libs, placed, l));
            lemma_select_members(rem, |l: Library| !is_ready(libs, placed, l));
            lemma_sort_contains(library_names(ready));
            assert forall|b: int| 0 <= b < placed2.len() implies after_dependencies(libs, placed2, b) by {
                if b < placed.len() {
                    lemma_extend_keeps(libs, placed, more, b);
                } else {
                    let n = placed2[b];
                    assert(more[b - placed.len()] == n);
                    assert(more.contains(n));
                    lemma_name_of_member(ready, n);
                    let k = choose|k: int| 0 <= k < ready.len() && ready[k].name@ == n;
                    let l = ready[k];
                    assert(is_ready(libs, placed, l));
                    assert(rem.contains(l));
                    lemma_member_index(libs, l);
                    assert forall|j: int| 0 <= j < l.depends_on_libs@.len() && known_dependency(libs, #[trigger] l.depends_on_libs@[j]@)
                        implies exists|a: int| 0 <= a < b && placed2[a] == l.depends_on_libs@[j]@ by {
                        let dep = l.depends_on_libs@[j]@;
                        assert(dependency_met(libs, placed, dep));
                        let a = choose|a: int| 0 <= a < placed.len() && placed[a] == dep;
                        assert(placed2[a] == dep);
                    }
                }
            }
            assert forall|l: Library| waiting.contains(l) implies libs.contains(l) by {
                let k = choose|k: int| 0 <= k < waiting.len() && waiting[k] == l;
                assert(rem.contains(waiting[k]));
            }
            lemma_rounds_sound(libs, placed2, waiting);
        }
    }
}

proof fn lemma_rounds_complete(libs: Seq<Library>, placed: Seq<Seq<char>>, rem: Seq<Library>)
    ensures
        sort_rounds(libs, placed, rem) is Ok ==> {
            let out = sort_rounds(libs, placed, rem)->Ok_0;
            &&& forall|n: Seq<char>| placed.contains(n) ==> #[trigger] out.contains(n)
            &&& forall|l: Library| rem.contains(l) ==> #[trigger] out.contains(l.name@)
        },
    decreases rem.len(),
{
    if rem.len() > 0 {
        let ready = ready_of(libs, placed, rem);
        let waiting = waiting_of(libs, placed, rem);
        crate::order::lemma_select_split(
            rem,
            |l: Library| is_ready(libs, placed, l),
            |l: Library| !is_ready(libs, placed, l),
        );
        if ready.len() > 0 {
            let more = sort_texts(library_names(ready));
            let placed2 = placed + more;
            lemma_rounds_complete(libs, placed2, waiting);
            lemma_sort_contains(library_names(ready));
            if sort_rounds(libs, placed, rem) is Ok {
                let out = sort_rounds(libs, placed, rem)->Ok_0;
                assert forall|n: Seq<char>| placed.contains(n) implies #[trigger] out.contains(n) by {
                    let a = choose|a: int| 0 <= a < placed.len() && placed[a] == n;
                    assert(placed2[a] == n);
                }
                assert forall|l: Library| rem.contains(l) implies #[trigger] out.contains(l.name@) by {
                    let i = choose|i: int| 0 <= i < rem.len() && rem[i] == l;
                    if is_ready(libs, placed, l) {
                        lemma_select_includes(rem, |x: Library| is_ready(libs, placed, x), i);
                        lemma_member_name(ready, l);
                        assert(more.contains(l.name@));
                        let w = choose|w: int| 0 <= w < more.len() && more[w] == l.name@;
                        assert(placed2[placed.len() + w] == l.name@);
                    } else {
                        lemma_select_includes(rem, |x: Library| !is_ready(libs, placed, x), i);
                    }
                }
            }
        }
    }
}

/// In the library order, every library stands after each of its dependencies
/// that is a library of the model and not ignored.
pub proof fn law_order_respects_dependencies(libs: Seq<Library>)
    requires
        unique_names(libs),
        library_order(libs) is Ok,
    ensures
        forall|b: int| 0 <= b < library_order(libs)->Ok_0.len() ==> after_dependencies(libs, library_order(libs)->Ok_0, b),
{
    let s = seeds(libs);
    let placed = sort_texts(library_names(s));
    lemma_sort_contains(library_names(s));
    lemma_select_members(libs, |l: Library| is_seed(l));
    lemma_select_members(libs, |l: Library| is_dependent(l));
    assert forall|b: int| 0 <= b < placed.len() implies after_dependencies(libs, placed, b) by {
        assert(placed.contains(placed[b]));
        lemma_name_of_member(s, placed[b]);
        let k = choose|k: int| 0 <= k < s.len() && s[k].name@ == placed[b];
        assert(is_seed(s[k]));
        lemma_member_index(libs, s[k]);
    }
    assert forall|l: Library| dependents(libs).contains(l) implies libs.contains(l) by {
        let k = choose|k: int| 0 <= k < dependents(libs).len() && dependents(libs)[k] == l;
        assert(libs.contains(dependents(libs)[k]));
    }
    lemma_rounds_sound(libs, placed, dependents(libs));
}

/// The library order holds every library of the model that is not ignored.
pub proof fn law_order_complete(libs: Seq<Library>, i: int)
    requires
        library_order(libs) is Ok,
        0 <= i < libs.len(),
        !libs[i].ignore,
    ensures
        library_order(libs)->Ok_0.contains(libs[i].name@),
{
    let s = seeds(libs);
    let placed = sort_texts(library_names(s));
    lemma_rounds_complete(libs, placed, dependents(libs));
    lemma_sort_contains(library_names(s));
    if is_seed(libs[i]) {
        lemma_select_includes(libs, |l: Library| is_seed(l), i);
        lemma_member_name(s, libs[i]);
        assert(placed.contains(libs[i].name@));
    } else {
        lemma_select_includes(libs, |l: Library| is_dependent(l), i);
    }
}

/// Two libraries of the model, neither ignored, that depend on each other have no
/// library order: sorting fails with a dependency cycle.
pub proof fn law_dependency_cycle_rejected(libs: Seq<Library>, a: int, b: int, ka: int, kb: int)
    requires
        unique_names(libs),
        0 <= a < libs.len(),
        0 <= b < libs.len(),
        !libs[a].ignore,
        !libs[b].ignore,
        0 <= ka < libs[a].depends_on_libs@.len(),
        0 <= kb < libs[b].depends_on_libs@.len(),
        libs[a].depends_on_libs@[ka]@ == libs[b].name@,
        libs[b].depends_on_libs@[kb]@ == libs[a].name@,
    ensures
        library_order(libs) is Err,
{
    if library_order(libs) is Ok {
        let out = library_order(libs)->Ok_0;
        law_order_complete(libs, a);
        law_order_complete(libs, b);
        law_order_respects_dependencies(libs);
        lemma_unique_index(libs, a);
        lemma_unique_index(libs, b);
        lemma_index_of(out, libs[a].name@);
        lemma_index_of(out, libs[b].name@);
        let pa = index_of(out, libs[a].name@);
        let pb = index_of(out, libs[b].name@);
        assert(pa >= 0) by {
            let w = choose|w: int| 0 <= w < out.len() && out[w] == libs[a].name@;
        }
        assert(pb >= 0) by {
            let w = choose|w: int| 0 <= w < out.len() && out[w] == libs[b].name@;
        }
        assert(after_dependencies(libs, out, pa));
        assert(after_dependencies(libs, out, pb));
        assert(known_dependency(libs, libs[a].depends_on_libs@[ka]@));
        assert(known_dependency(libs, libs[b].depends_on_libs@[kb]@));
        let x = choose|x: int| 0 <= x < pa && out[x] == libs[b].name@;
        let y = choose|y: int| 0 <= y < pb && out[y] == libs[a].name@;
        assert(false);
    }
}

proof fn lemma_text_less_transitive(a: Seq<char>, b: Seq<char>, c: Seq<char>, i: int)
    requires
        0 <= i,
        crate::order::text_less_at(a, b, i),
        crate::order::text_less_at(b, c, i),
    ensures
        crate::order::text_less_at(a, c, i),
    decreases a.len() - i,
{
    if i < a.len() && i < b.len() && i < c.len() && a[i] == b[i] && b[i] == c[i] {
        lemma_text_less_transitive(a, b, c, i + 1);
    }
}

/// No name of `s` sorts before one that precedes it.
pub open spec fn sorted_texts(s: Seq<Seq<char>>) -> bool {
    forall|i: int, j: int| 0 <= i < j < s.len() ==> !crate::order::text_less(s[j], s[i])
}

proof fn lemma_insert_sorted(x: Seq<char>, t: Seq<Seq<char>>)
    requires
        sorted_texts(t),
    ensures
        sorted_texts(insert_sorted(x, t)),
    decreases t.len(),
{
    if t.len() > 0 {
        if crate::order::text_less(x, t[0]) {
            let r = seq![x] + t;
            assert forall|i: int, j: int| 0 <= i < j < r.len() implies !crate::order::text_less(r[j], r[i]) by {
                if i == 0 {
                    if crate::order::text_less(t[j - 1], x) {
                        lemma_text_less_transitive(t[j - 1], x, t[0], 0);
                        if j - 1 > 0 {
                            assert(!crate::order::text_less(t[j - 1], t[0]));
                        } else {
                            lemma_text_less_irreflexive(t[0], 0);
                        }
                    }
                } else {
                    assert(r[i] == t[i - 1] && r[j] == t[j - 1]);
                }
            }
        } else {
            let u = t.drop_first();
            assert(sorted_texts(u)) by {
                assert forall|i: int, j: int| 0 <= i < j < u.len() implies !crate::order::text_less(u[j], u[i]) by {
                    assert(u[i] == t[i + 1] && u[j] == t[j + 1]);
                }
            }
            lemma_insert_sorted(x, u);
            lemma_insert_contains(x, u);
            let v = insert_sorted(x, u);
            let r = seq![t[0]] + v;
            assert forall|i: int, j: int| 0 <= i < j < r.len() implies !crate::order::text_less(r[j], r[i]) by {
                if i == 0 {
                    assert(r[j] == v[j - 1]);
                    assert(v.contains(v[j - 1]));
                    if v[j - 1] != x {
                        let k = choose|k: int| 0 <= k < u.len() && u[k] == v[j - 1];
                        assert(u[k] == t[k + 1]);
                    }
                } else {
                    assert(r[i] == v[i - 1] && r[j] == v[j - 1]);
                }
            }
        }
    }
}

proof fn lemma_text_less_irreflexive(a: Seq<char>, i: int)
    requires
        0 <= i,
    ensures
        !crate::order::text_less_at(a, a, i),
    decreases a.len() - i,
{
    if i < a.len() {
        lemma_text_less_irreflexive(a, i + 1);
    }
}

/// Sorting names puts them in alphabetical order and keeps exactly the names
/// given, as many as given.
pub proof fn law_sort_texts(s: Seq<Seq<char>>)
    ensures
        sorted_texts(sort_texts(s)),
        sort_texts(s).len() == s.len(),
        forall|y: Seq<char>| #[trigger] sort_texts(s).contains(y) <==> s.contains(y),
    decreases s.len(),
{
    lemma_sort_contains(s);
    if s.len() > 0 {
        law_sort_texts(s.drop_last());
        lemma_insert_sorted(s.last(), sort_texts(s.drop_last()));
    }
}

/// A configuration resolves its uses, then its design and architecture under its
/// own bindings, then itself; and at the position of an instance whose label has
/// a binding, that binding's target stands, whatever the instance's own
/// component would resolve to.
pub proof fn law_configuration_binding(
    libs: Seq<Library>,
    c: crate::model::Configuration,
    j: int,
    k: int,
    chain: Chain,
    fuel: nat,
)
    requires
        lib_index(libs, c.library@) >= 0,
        design_index(libs[lib_index(libs, c.library@)], c.entity@) >= 0,
        ({
            let d = libs[lib_index(libs, c.library@)].designs@[design_index(
                libs[lib_index(libs, c.library@)],
                c.entity@,
            )];
            &&& arch_index(d, c.architecture@) >= 0
            &&& 0 <= j < d.architectures@[arch_index(d, c.architecture@)].instances@.len()
            &&& 0 <= k < c.instances@.len()
            &&& c.instances@[k].key@ == d.architectures@[arch_index(d, c.architecture@)].instances@[j].label@
            &&& forall|m: int| 0 <= m < k ==> c.instances@[m].key@ != c.instances@[k].key@
            &&& c.instances@[k].instance.kind != BindingKind::Open
            &&& lib_index(libs, effective_library(c.instances@[k].instance.library@, c.library@)) >= 0
        }),
    ensures
        ({
            let l = libs[lib_index(libs, c.library@)];
            let d = l.designs@[design_index(l, c.entity@)];
            let a = d.architectures@[arch_index(d, c.architecture@)];
            let b = c.instances@[k].instance;
            &&& crate::semantics::config_res(libs, c, chain, fuel) == then(
                uses_from(libs, c.library@, c.uses@, 0, chain, fuel),
                then(
                    design_res(libs, c.library@, d, c.architecture@, c.instances@, chain, fuel),
                    crate::outcome::emit(crate::semantics::element_of(c.library@, c.filename@)),
                ),
            )
            &&& instances_from(libs, c.library@, a.instances@, j, c.instances@, a.uses@, chain, fuel) == then(
                by_name(
                    libs,
                    libs[lib_index(libs, effective_library(b.library@, c.library@))],
                    b.component@,
                    chain,
                    fuel,
                ),
                instances_from(libs, c.library@, a.instances@, j + 1, c.instances@, a.uses@, chain, fuel),
            )
        }),
{
    let l = libs[lib_index(libs, c.library@)];
    let d = l.designs@[design_index(l, c.entity@)];
    let a = d.architectures@[arch_index(d, c.architecture@)];
    law_label_binding_wins(libs, c.library@, a.instances@[j], c.instances@, a.uses@, chain, fuel, k);
}

/// An instance that nothing can stand for, wherever it stands in an
/// architecture, contributes its one diagnostic and nothing else: the
/// instances after it resolve as they would on their own.
pub proof fn law_unresolved_instance_skipped(
    libs: Seq<Library>,
    cur: Seq<char>,
    insts: Seq<Instance>,
    j: int,
    binds: Seq<Binding>,
    uses: Seq<String>,
    chain: Chain,
    fuel: nat,
)
    requires
        0 <= j < insts.len(),
        unresolvable(libs, cur, insts[j], binds, uses),
    ensures
        instances_from(libs, cur, insts, j, binds, uses, chain, fuel) == then(
            note(DiagnosticView::UnresolvedInstance { label: insts[j].label@, library: cur }),
            instances_from(libs, cur, insts, j + 1, binds, uses, chain, fuel),
        ),
{
    law_unresolved_instance(libs, cur, insts[j], binds, uses, chain, fuel);
}

} // verus!
