//! The resolver: walks the structural model from a target and appends, in
//! compile order, every element it needs; each step is proved to follow the
//! spec functions of `semantics`.
use vstd::prelude::*;
use crate::model::{
    architecture_names, find_architecture, find_binding, find_configuration, find_design,
    find_library, find_module, find_package, lib_index, module_index, verilog_text, vhdl_text,
    Architecture, Binding, BindingKind, Configuration, ConfigurationInstance, Design, Element,
    Entity, Instance, InstanceKind, Library, Package,
};
use crate::names::{
    contains_text, strings_view, is_all, is_others, is_work, make_all_key, make_qualified,
    parse_target_name, reference_is_pair, reference_library, split_reference,
};
use crate::outcome::{
    appended, cat, delivers, done, empty_trace, group_trace, note, then, Diagnostic, Outcome,
    ResolveError, Resolution, Trace,
};
use crate::semantics::{
    ambiguity_of, arch_res, binding_applies, binding_res, bound_union, by_name, component_libraries,
    component_res, config_res, declares, design_res, effective_library, element_of, entity_res,
    first_applying, has_single_architecture, instance_res, instances_from, modules_from,
    package_res, scan_candidates, single_architecture_at, some_library_has_module, use_step,
    used_libraries, uses_from, Chain, enter, Unit,
};

verus! {

broadcast use group_trace;

/// How deep a chain of nested names may get before resolution gives up.
pub const MAX_DEPTH: usize = 512;

pub open spec fn chain_view(c: Seq<(String, String)>) -> Chain {
    c.map_values(|p: (String, String)| (p.0@, p.1@))
}

proof fn lemma_then_ok(a: Trace, b: Trace, x: Outcome)
    ensures
        then(Ok(a), then(Ok(b), x)) == then(Ok(cat(a, b)), x),
{
}

fn on_chain(chain: &Vec<(String, String)>, library: &String, name: &String) -> (r: bool)
    ensures
        r == chain_view(chain@).contains((library@, name@)),
{
    let mut i: usize = 0;
    while i < chain.len()
        invariant
            i <= chain.len(),
            forall|k: int| 0 <= k < i ==> chain_view(chain@)[k] != (library@, name@),
        decreases chain.len() - i,
    {
        if chain[i].0 == *library && chain[i].1 == *name {
            assert(chain_view(chain@)[i as int] == (library@, name@));
            return true;
        }
        i = i + 1;
    }
    false
}

fn push_key(chain: &mut Vec<(String, String)>, library: &String, name: &String)
    ensures
        chain_view(final(chain)@) == chain_view(old(chain)@).push((library@, name@)),
        final(chain)@.drop_last() == old(chain)@,
        final(chain)@.len() == old(chain)@.len() + 1,
{
    chain.push((library.clone(), name.clone()));
    assert(chain_view(chain@) =~= chain_view(old(chain)@).push((library@, name@)));
    assert(chain@.drop_last() =~= old(chain)@);
}

fn pop_key(chain: &mut Vec<(String, String)>)
    requires
        old(chain)@.len() > 0,
    ensures
        final(chain)@ == old(chain)@.drop_last(),
{
    chain.pop();
}

fn element(library: &String, filename: &String) -> (e: Element)
    ensures
        e@ == element_of(library@, filename@),
{
    Element { library: library.clone(), filename: filename.clone(), language: vhdl_text() }
}

fn ambiguity(d: &Design) -> (r: Diagnostic)
    ensures
        r@ == ambiguity_of(*d),
{
    if d.architectures.len() == 0 {
        return Diagnostic::EmptyDesign { design: d.name.clone() };
    }
    let mut names: Vec<String> = Vec::new();
    let mut i: usize = 0;
    while i < d.architectures.len()
        invariant
            i <= d.architectures.len(),
            names@.len() == i,
            forall|k: int| 0 <= k < i ==> names@[k]@ == d.architectures@[k].name@,
        decreases d.architectures.len() - i,
    {
        names.push(d.architectures[i].name.clone());
        i = i + 1;
    }
    assert(strings_view(names@) =~= architecture_names(d.architectures@));
    Diagnostic::AmbiguousDesign { design: d.name.clone(), architectures: names }
}

fn effective(library: &String, cur: &String) -> (r: String)
    ensures
        r@ == effective_library(library@, cur@),
{
    if is_work(library.as_str()) {
        cur.clone()
    } else {
        library.clone()
    }
}

/// Enters design `d` with architecture `a` of `lib` under path key `key`, as `enter` states.
fn enter_design_into(
    libs: &Vec<Library>,
    lib: &Library,
    key: &String,
    d: &Design,
    a: &String,
    chain: &mut Vec<(String, String)>,
    fuel: usize,
    out: &mut Resolution,
) -> (r: Result<(), ResolveError>)
    ensures
        final(chain)@ == old(chain)@,
        appended(
            r,
            old(out)@,
            final(out)@,
            enter(libs@, *lib, key@, Unit::DesignUnit(*d, a@), chain_view(old(chain)@), fuel as nat),
        ),
    decreases fuel, 0int,
{
    if on_chain(chain, &lib.name, key) {
        return Err(ResolveError::CycleDetected { library: lib.name.clone(), name: key.clone() });
    }
    if fuel == 0 {
        return Err(ResolveError::TooDeep { library: lib.name.clone(), name: key.clone() });
    }
    push_key(chain, &lib.name, key);
    let none: Vec<Binding> = Vec::new();
    let r = design_into(libs, &lib.name, d, a, &none, chain, fuel - 1, out);
    pop_key(chain);
    r
}

/// Enters configuration `c` of `lib` under path key `key`, as `enter` states.
fn enter_config_into(
    libs: &Vec<Library>,
    lib: &Library,
    key: &String,
    c: &Configuration,
    chain: &mut Vec<(String, String)>,
    fuel: usize,
    out: &mut Resolution,
) -> (r: Result<(), ResolveError>)
    ensures
        final(chain)@ == old(chain)@,
        appended(
            r,
            old(out)@,
            final(out)@,
            enter(libs@, *lib, key@, Unit::ConfigurationUnit(*c), chain_view(old(chain)@), fuel as nat),
        ),
    decreases fuel, 0int,
{
    if on_chain(chain, &lib.name, key) {
        return Err(ResolveError::CycleDetected { library: lib.name.clone(), name: key.clone() });
    }
    if fuel == 0 {
        return Err(ResolveError::TooDeep { library: lib.name.clone(), name: key.clone() });
    }
    push_key(chain, &lib.name, key);
    let r = config_into(libs, c, chain, fuel - 1, out);
    pop_key(chain);
    r
}

/// Enters package `p` of `lib` under path key `key`, as `enter` states.
fn enter_package_into(
    libs: &Vec<Library>,
    lib: &Library,
    key: &String,
    p: &Package,
    chain: &mut Vec<(String, String)>,
    fuel: usize,
    out: &mut Resolution,
) -> (r: Result<(), ResolveError>)
    ensures
        final(chain)@ == old(chain)@,
        appended(
            r,
            old(out)@,
            final(out)@,
            enter(libs@, *lib, key@, Unit::PackageUnit(*p), chain_view(old(chain)@), fuel as nat),
        ),
    decreases fuel, 0int,
{
    if on_chain(chain, &lib.name, key) {
        return Err(ResolveError::CycleDetected { library: lib.name.clone(), name: key.clone() });
    }
    if fuel == 0 {
        return Err(ResolveError::TooDeep { library: lib.name.clone(), name: key.clone() });
    }
    push_key(chain, &lib.name, key);
    let r = package_into(libs, &lib.name, p, chain, fuel - 1, out);
    pop_key(chain);
    r
}

/// Resolves a name in `lib`, as `by_name` states.
fn by_name_into(
    libs: &Vec<Library>,
    lib: &Library,
    name: &String,
    chain: &mut Vec<(String, String)>,
    fuel: usize,
    out: &mut Resolution,
) -> (r: Result<(), ResolveError>)
    ensures
        final(chain)@ == old(chain)@,
        appended(r, old(out)@, final(out)@, by_name(libs@, *lib, name@, chain_view(old(chain)@), fuel as nat)),
    decreases fuel, 1int,
{
    if lib.ignore {
        return Ok(());
    }
    let t = match parse_target_name(name.as_str()) {
        None => {
            return Err(ResolveError::UnparsableName(name.clone()));
        },
        Some(t) => t,
    };
    match &t.architecture {
        Some(a) => {
            match find_design(&lib.designs, &t.unit) {
                None => {
                    out.push_diagnostic(
                        Diagnostic::UnresolvedDesign { library: lib.name.clone(), name: t.unit.clone() },
                    );
                    Ok(())
                },
                Some(di) => {
                    let d = &lib.designs[di];
                    match find_architecture(&d.architectures, a) {
                        None => {
                            out.push_diagnostic(
                                Diagnostic::UnresolvedArchitecture {
                                    design: d.name.clone(),
                                    architecture: a.clone(),
                                },
                            );
                            Ok(())
                        },
                        Some(_) => {
                            let key = make_qualified(t.unit.as_str(), a.as_str());
                            enter_design_into(libs, lib, &key, d, a, chain, fuel, out)
                        },
                    }
                },
            }
        },
        None => {
            if let Some(ci) = find_configuration(&lib.configurations, &t.unit) {
                enter_config_into(libs, lib, &t.unit, &lib.configurations[ci], chain, fuel, out)
            } else if let Some(pi) = find_package(&lib.packages, &t.unit) {
                enter_package_into(libs, lib, &t.unit, &lib.packages[pi], chain, fuel, out)
            } else if let Some(di) = find_design(&lib.designs, &t.unit) {
                let d = &lib.designs[di];
                if d.architectures.len() == 1 {
                    let a = &d.architectures[0].name;
                    let key = make_qualified(t.unit.as_str(), a.as_str());
                    enter_design_into(libs, lib, &key, d, a, chain, fuel, out)
                } else {
                    out.push_diagnostic(ambiguity(d));
                    Ok(())
                }
            } else if let Some(mi) = find_module(&lib.modules, &t.unit) {
                out.push_element(
                    Element {
                        library: lib.name.clone(),
                        filename: lib.modules[mi].filename.clone(),
                        language: verilog_text(),
                    },
                );
                Ok(())
            } else {
                out.push_diagnostic(
                    Diagnostic::UnresolvedDesign { library: lib.name.clone(), name: t.unit.clone() },
                );
                Ok(())
            }
        },
    }
}

/// Resolves one use reference, as `use_step` states.
fn use_into(
    libs: &Vec<Library>,
    cur: &String,
    reference: &String,
    chain: &mut Vec<(String, String)>,
    fuel: usize,
    out: &mut Resolution,
) -> (r: Result<(), ResolveError>)
    ensures
        final(chain)@ == old(chain)@,
        appended(r, old(out)@, final(out)@, use_step(libs@, cur@, reference@, chain_view(old(chain)@), fuel as nat)),
    decreases fuel, 2int,
{
    match split_reference(reference.as_str()) {
        None => Ok(()),
        Some((l, p)) => {
            if is_all(p.as_str()) {
                return Ok(());
            }
            let ln = effective(&l, cur);
            match find_library(libs, &ln) {
                None => Err(ResolveError::UnknownLibrary(ln)),
                Some(li) => by_name_into(libs, &libs[li], &p, chain, fuel, out),
            }
        },
    }
}

/// Resolves a list of use references in order, as `uses_from` states.
fn uses_into(
    libs: &Vec<Library>,
    cur: &String,
    uses: &Vec<String>,
    chain: &mut Vec<(String, String)>,
    fuel: usize,
    out: &mut Resolution,
) -> (r: Result<(), ResolveError>)
    ensures
        final(chain)@ == old(chain)@,
        appended(r, old(out)@, final(out)@, uses_from(libs@, cur@, uses@, 0, chain_view(old(chain)@), fuel as nat)),
    decreases fuel, 3int,
{
    let ghost c0 = chain@;
    let ghost o0 = out@;
    let ghost all = uses_from(libs@, cur@, uses@, 0, chain_view(c0), fuel as nat);
    let ghost mut acc = empty_trace();
    let mut i: usize = 0;
    while i < uses.len()
        invariant
            i <= uses.len(),
            chain@ == c0,
            c0 == old(chain)@,
            o0 == old(out)@,
            all == uses_from(libs@, cur@, uses@, 0, chain_view(c0), fuel as nat),
            out@ == cat(o0, acc),
            then(Ok(acc), uses_from(libs@, cur@, uses@, i as int, chain_view(c0), fuel as nat)) == all,
        decreases uses.len() - i,
    {
        let ghost before = out@;
        let r = use_into(libs, cur, &uses[i], chain, fuel, out);
        match r {
            Err(e) => {
                return Err(e);
            },
            Ok(()) => {},
        }
        proof {
            let s = use_step(libs@, cur@, uses@[i as int]@, chain_view(c0), fuel as nat)->Ok_0;
            lemma_then_ok(acc, s, uses_from(libs@, cur@, uses@, i + 1, chain_view(c0), fuel as nat));
            acc = cat(acc, s);
        }
        i = i + 1;
    }
    Ok(())
}

/// Resolves a binding indication, as `binding_res` states.
fn binding_into(
    libs: &Vec<Library>,
    cur: &String,
    ci: &ConfigurationInstance,
    chain: &mut Vec<(String, String)>,
    fuel: usize,
    out: &mut Resolution,
) -> (r: Result<(), ResolveError>)
    ensures
        final(chain)@ == old(chain)@,
        appended(r, old(out)@, final(out)@, binding_res(libs@, cur@, *ci, chain_view(old(chain)@), fuel as nat)),
    decreases fuel, 2int,
{
    if ci.kind == BindingKind::Open {
        return Ok(());
    }
    let ln = effective(&ci.library, cur);
    match find_library(libs, &ln) {
        None => {
            out.push_diagnostic(Diagnostic::UnknownLibrary { library: ln });
            Ok(())
        },
        Some(li) => by_name_into(libs, &libs[li], &ci.component, chain, fuel, out),
    }
}

/// The library of each use reference after `cur`, without repeats.
fn used_library_list(cur: &String, uses: &Vec<String>) -> (r: Vec<String>)
    ensures
        strings_view(r@) == used_libraries(seq![cur@], uses@, 0),
{
    let mut acc: Vec<String> = Vec::new();
    acc.push(cur.clone());
    assert(strings_view(acc@) =~= seq![cur@]);
    let mut i: usize = 0;
    while i < uses.len()
        invariant
            i <= uses.len(),
            used_libraries(strings_view(acc@), uses@, i as int) == used_libraries(seq![cur@], uses@, 0),
        decreases uses.len() - i,
    {
        if let Some(l) = reference_library(uses[i].as_str()) {
            if !contains_text(&acc, &l) {
                let ghost a0 = acc@;
                acc.push(l);
                assert(strings_view(acc@) =~= strings_view(a0).push(l@));
            }
        }
        i = i + 1;
    }
    acc
}

/// The libraries whose use references offer `comp`, after `cur`, without repeats.
fn component_library_list(cur: &String, uses: &Vec<String>, comp: &String) -> (r: Vec<String>)
    ensures
        strings_view(r@) == component_libraries(seq![cur@], uses@, 0, cur@, comp@),
{
    let mut acc: Vec<String> = Vec::new();
    acc.push(cur.clone());
    assert(strings_view(acc@) =~= seq![cur@]);
    let mut i: usize = 0;
    while i < uses.len()
        invariant
            i <= uses.len(),
            component_libraries(strings_view(acc@), uses@, i as int, cur@, comp@)
                == component_libraries(seq![cur@], uses@, 0, cur@, comp@),
        decreases uses.len() - i,
    {
        let u = &uses[i];
        if reference_is_pair(u.as_str()) {
            if let Some((l, p)) = split_reference(u.as_str()) {
                if !is_work(l.as_str()) && l != *cur && (is_all(p.as_str()) || p == *comp) {
                    if !contains_text(&acc, &l) {
                        let ghost a0 = acc@;
                        acc.push(l);
                        assert(strings_view(acc@) =~= strings_view(a0).push(l@));
                    }
                }
            }
        }
        i = i + 1;
    }
    acc
}

fn declares_unit(lib: &Library, unit: &String) -> (r: bool)
    ensures
        r == declares(*lib, unit@),
{
    find_design(&lib.designs, unit).is_some() || find_configuration(&lib.configurations, unit).is_some()
        || find_module(&lib.modules, unit).is_some()
}

/// The bound target in every candidate library declaring it, as `bound_union` states.
fn bound_union_into(
    libs: &Vec<Library>,
    cands: &Vec<String>,
    target: &String,
    unit: &String,
    chain: &mut Vec<(String, String)>,
    fuel: usize,
    out: &mut Resolution,
) -> (r: Result<(), ResolveError>)
    ensures
        final(chain)@ == old(chain)@,
        appended(
            r,
            old(out)@,
            final(out)@,
            bound_union(libs@, strings_view(cands@), 0, target@, unit@, chain_view(old(chain)@), fuel as nat),
        ),
    decreases fuel, 2int,
{
    let ghost c0 = chain@;
    let ghost o0 = out@;
    let ghost cs = strings_view(cands@);
    let ghost all = bound_union(libs@, cs, 0, target@, unit@, chain_view(c0), fuel as nat);
    let ghost mut acc = empty_trace();
    let mut j: usize = 0;
    while j < cands.len()
        invariant
            j <= cands.len(),
            cs == strings_view(cands@),
            chain@ == c0,
            c0 == old(chain)@,
            o0 == old(out)@,
            all == bound_union(libs@, cs, 0, target@, unit@, chain_view(c0), fuel as nat),
            out@ == cat(o0, acc),
            then(Ok(acc), bound_union(libs@, cs, j as int, target@, unit@, chain_view(c0), fuel as nat)) == all,
        decreases cands.len() - j,
    {
        let ghost step = if lib_index(libs@, cs[j as int]) >= 0 && declares(libs@[lib_index(libs@, cs[j as int])], unit@) {
            by_name(libs@, libs@[lib_index(libs@, cs[j as int])], target@, chain_view(c0), fuel as nat)
        } else {
            done()
        };
        let ghost before = out@;
        match find_library(libs, &cands[j]) {
            Some(li) => {
                if declares_unit(&libs[li], unit) {
                    let r = by_name_into(libs, &libs[li], target, chain, fuel, out);
                    match r {
                        Err(e) => {
                            return Err(e);
                        },
                        Ok(()) => {},
                    }
                }
            },
            None => {},
        }
        proof {
            let s = step->Ok_0;
            lemma_then_ok(acc, s, bound_union(libs@, cs, j + 1, target@, unit@, chain_view(c0), fuel as nat));
            acc = cat(acc, s);
        }
        j = j + 1;
    }
    Ok(())
}

/// Scans the candidate libraries for a single-architecture design, as
/// `scan_candidates` states; tells whether one was found.
fn scan_into(
    libs: &Vec<Library>,
    cands: &Vec<String>,
    comp: &String,
    chain: &mut Vec<(String, String)>,
    fuel: usize,
    out: &mut Resolution,
) -> (r: Result<bool, ResolveError>)
    ensures
        final(chain)@ == old(chain)@,
        match scan_candidates(libs@, strings_view(cands@), 0, comp@, chain_view(old(chain)@), fuel as nat) {
            Ok(t) => r == Ok::<bool, ResolveError>(has_single_architecture(libs@, strings_view(cands@), comp@))
                && final(out)@ == cat(old(out)@, t),
            Err(e) => r is Err && r->Err_0@ == e,
        },
    decreases fuel, 2int,
{
    let ghost c0 = chain@;
    let ghost o0 = out@;
    let ghost cs = strings_view(cands@);
    let ghost all = scan_candidates(libs@, cs, 0, comp@, chain_view(c0), fuel as nat);
    let ghost mut acc = empty_trace();
    let mut j: usize = 0;
    while j < cands.len()
        invariant
            j <= cands.len(),
            cs == strings_view(cands@),
            chain@ == c0,
            c0 == old(chain)@,
            o0 == old(out)@,
            all == scan_candidates(libs@, cs, 0, comp@, chain_view(c0), fuel as nat),
            out@ == cat(o0, acc),
            then(Ok(acc), scan_candidates(libs@, cs, j as int, comp@, chain_view(c0), fuel as nat)) == all,
            forall|k: int| 0 <= k < j ==> !single_architecture_at(libs@, cs, k, comp@),
        decreases cands.len() - j,
    {
        if let Some(li) = find_library(libs, &cands[j]) {
            let l = &libs[li];
            if let Some(di) = find_design(&l.designs, comp) {
                let d = &l.designs[di];
                if d.architectures.len() == 1 {
                    assert(single_architecture_at(libs@, cs, j as int, comp@));
                    if l.ignore {
                        return Ok(true);
                    }
                    let a = &d.architectures[0].name;
                    let q = make_qualified(comp.as_str(), a.as_str());
                    let r = enter_design_into(libs, l, &q, d, a, chain, fuel, out);
                    return match r {
                        Ok(()) => Ok(true),
                        Err(e) => Err(e),
                    };
                } else {
                    let ghost s = ambiguity_of(*d);
                    out.push_diagnostic(ambiguity(d));
                    proof {
                        lemma_then_ok(acc, note(s)->Ok_0, scan_candidates(libs@, cs, j + 1, comp@, chain_view(c0), fuel as nat));
                        acc = cat(acc, note(s)->Ok_0);
                    }
                }
            }
        }
        j = j + 1;
    }
    Ok(false)
}

/// `comp` in every library that has a module of that name, as `modules_from` states.
fn modules_into(
    libs: &Vec<Library>,
    comp: &String,
    chain: &mut Vec<(String, String)>,
    fuel: usize,
    out: &mut Resolution,
) -> (r: Result<(), ResolveError>)
    ensures
        final(chain)@ == old(chain)@,
        appended(r, old(out)@, final(out)@, modules_from(libs@, 0, comp@, chain_view(old(chain)@), fuel as nat)),
    decreases fuel, 2int,
{
    let ghost c0 = chain@;
    let ghost o0 = out@;
    let ghost all = modules_from(libs@, 0, comp@, chain_view(c0), fuel as nat);
    let ghost mut acc = empty_trace();
    let mut i: usize = 0;
    while i < libs.len()
        invariant
            i <= libs.len(),
            chain@ == c0,
            c0 == old(chain)@,
            o0 == old(out)@,
            all == modules_from(libs@, 0, comp@, chain_view(c0), fuel as nat),
            out@ == cat(o0, acc),
            then(Ok(acc), modules_from(libs@, i as int, comp@, chain_view(c0), fuel as nat)) == all,
        decreases libs.len() - i,
    {
        let ghost step = if module_index(libs@[i as int], comp@) >= 0 {
            by_name(libs@, libs@[i as int], comp@, chain_view(c0), fuel as nat)
        } else {
            done()
        };
        if find_module(&libs[i].modules, comp).is_some() {
            let r = by_name_into(libs, &libs[i], comp, chain, fuel, out);
            match r {
                Err(e) => {
                    return Err(e);
                },
                Ok(()) => {},
            }
        }
        proof {
            let s = step->Ok_0;
            lemma_then_ok(acc, s, modules_from(libs@, i + 1, comp@, chain_view(c0), fuel as nat));
            acc = cat(acc, s);
        }
        i = i + 1;
    }
    Ok(())
}

fn any_module(libs: &Vec<Library>, comp: &String) -> (r: bool)
    ensures
        r == some_library_has_module(libs@, comp@),
{
    let mut i: usize = 0;
    while i < libs.len()
        invariant
            i <= libs.len(),
            forall|k: int| 0 <= k < i ==> module_index(#[trigger] libs@[k], comp@) < 0,
        decreases libs.len() - i,
    {
        if find_module(&libs[i].modules, comp).is_some() {
            return true;
        }
        i = i + 1;
    }
    false
}

fn applies(b: &Binding, inst: &Instance) -> (r: bool)
    ensures
        r == binding_applies(*b, *inst),
{
    (b.key == inst.label || is_others(b.key.as_str()) || is_all(b.key.as_str()))
        && b.instance.comp == inst.component
}

fn first_applying_binding(binds: &Vec<Binding>, inst: &Instance) -> (r: Option<usize>)
    ensures
        match r {
            Some(k) => k as int == first_applying(binds@, *inst, 0) && k < binds@.len(),
            None => first_applying(binds@, *inst, 0) < 0,
        },
{
    let mut i: usize = 0;
    while i < binds.len()
        invariant
            i <= binds.len(),
            first_applying(binds@, *inst, i as int) == first_applying(binds@, *inst, 0),
        decreases binds.len() - i,
    {
        if applies(&binds[i], inst) {
            return Some(i);
        }
        i = i + 1;
    }
    None
}

/// A component instance without a direct binding, as `component_res` states.
fn component_into(
    libs: &Vec<Library>,
    cur: &String,
    inst: &Instance,
    binds: &Vec<Binding>,
    uses: &Vec<String>,
    chain: &mut Vec<(String, String)>,
    fuel: usize,
    out: &mut Resolution,
) -> (r: Result<(), ResolveError>)
    ensures
        final(chain)@ == old(chain)@,
        appended(
            r,
            old(out)@,
            final(out)@,
            component_res(libs@, cur@, *inst, binds@, uses@, chain_view(old(chain)@), fuel as nat),
        ),
    decreases fuel, 4int,
{
    match first_applying_binding(binds, inst) {
        Some(k) => {
            let target = &binds[k].instance.component;
            match parse_target_name(target.as_str()) {
                None => {
                    out.push_diagnostic(
                        Diagnostic::UnresolvedDesign { library: cur.clone(), name: target.clone() },
                    );
                    Ok(())
                },
                Some(t) => {
                    let cands = used_library_list(cur, uses);
                    bound_union_into(libs, &cands, target, &t.unit, chain, fuel, out)
                },
            }
        },
        None => {
            let cands = component_library_list(cur, uses, &inst.component);
            let found = match scan_into(libs, &cands, &inst.component, chain, fuel, out) {
                Err(e) => {
                    return Err(e);
                },
                Ok(found) => found,
            };
            if found {
                Ok(())
            } else if any_module(libs, &inst.component) {
                modules_into(libs, &inst.component, chain, fuel, out)
            } else {
                out.push_diagnostic(
                    Diagnostic::UnresolvedInstance { label: inst.label.clone(), library: cur.clone() },
                );
                Ok(())
            }
        },
    }
}

/// One instance of an architecture, as `instance_res` states.
fn instance_into(
    libs: &Vec<Library>,
    cur: &String,
    inst: &Instance,
    binds: &Vec<Binding>,
    uses: &Vec<String>,
    chain: &mut Vec<(String, String)>,
    fuel: usize,
    out: &mut Resolution,
) -> (r: Result<(), ResolveError>)
    ensures
        final(chain)@ == old(chain)@,
        appended(
            r,
            old(out)@,
            final(out)@,
            instance_res(libs@, cur@, *inst, binds@, uses@, chain_view(old(chain)@), fuel as nat),
        ),
    decreases fuel, 5int,
{
    if let Some(bi) = find_binding(binds, &inst.label) {
        return binding_into(libs, cur, &binds[bi].instance, chain, fuel, out);
    }
    let key = make_all_key(inst.component.as_str());
    if let Some(bj) = find_binding(binds, &key) {
        return binding_into(libs, cur, &binds[bj].instance, chain, fuel, out);
    }
    if inst.kind != InstanceKind::Component {
        let ln = effective(&inst.library, cur);
        return match find_library(libs, &ln) {
            None => Err(ResolveError::UnknownLibrary(ln)),
            Some(li) => by_name_into(libs, &libs[li], &inst.component, chain, fuel, out),
        };
    }
    component_into(libs, cur, inst, binds, uses, chain, fuel, out)
}

/// The instances of an architecture in order, as `instances_from` states.
fn instances_into(
    libs: &Vec<Library>,
    cur: &String,
    insts: &Vec<Instance>,
    binds: &Vec<Binding>,
    uses: &Vec<String>,
    chain: &mut Vec<(String, String)>,
    fuel: usize,
    out: &mut Resolution,
) -> (r: Result<(), ResolveError>)
    ensures
        final(chain)@ == old(chain)@,
        appended(
            r,
            old(out)@,
            final(out)@,
            instances_from(libs@, cur@, insts@, 0, binds@, uses@, chain_view(old(chain)@), fuel as nat),
        ),
    decreases fuel, 6int,
{
    let ghost c0 = chain@;
    let ghost o0 = out@;
    let ghost all = instances_from(libs@, cur@, insts@, 0, binds@, uses@, chain_view(c0), fuel as nat);
    let ghost mut acc = empty_trace();
    let mut i: usize = 0;
    while i < insts.len()
        invariant
            i <= insts.len(),
            chain@ == c0,
            c0 == old(chain)@,
            o0 == old(out)@,
            all == instances_from(libs@, cur@, insts@, 0, binds@, uses@, chain_view(c0), fuel as nat),
            out@ == cat(o0, acc),
            then(Ok(acc), instances_from(libs@, cur@, insts@, i as int, binds@, uses@, chain_view(c0), fuel as nat))
                == all,
        decreases insts.len() - i,
    {
        let r = instance_into(libs, cur, &insts[i], binds, uses, chain, fuel, out);
        match r {
            Err(e) => {
                return Err(e);
            },
            Ok(()) => {},
        }
        proof {
            let s = instance_res(libs@, cur@, insts@[i as int], binds@, uses@, chain_view(c0), fuel as nat)->Ok_0;
            lemma_then_ok(
                acc,
                s,
                instances_from(libs@, cur@, insts@, i + 1, binds@, uses@, chain_view(c0), fuel as nat),
            );
            acc = cat(acc, s);
        }
        i = i + 1;
    }
    Ok(())
}

/// An architecture, as `arch_res` states.
fn arch_into(
    libs: &Vec<Library>,
    cur: &String,
    a: &Architecture,
    binds: &Vec<Binding>,
    chain: &mut Vec<(String, String)>,
    fuel: usize,
    out: &mut Resolution,
) -> (r: Result<(), ResolveError>)
    ensures
        final(chain)@ == old(chain)@,
        appended(r, old(out)@, final(out)@, arch_res(libs@, cur@, *a, binds@, chain_view(old(chain)@), fuel as nat)),
    decreases fuel, 7int,
{
    let r = uses_into(libs, cur, &a.uses, chain, fuel, out);
    if let Err(e) = r {
        return Err(e);
    }
    let r = instances_into(libs, cur, &a.instances, binds, &a.uses, chain, fuel, out);
    if let Err(e) = r {
        return Err(e);
    }
    out.push_element(element(cur, &a.filename));
    Ok(())
}

/// A design with a named architecture, as `design_res` states.
fn design_into(
    libs: &Vec<Library>,
    cur: &String,
    d: &Design,
    arch: &String,
    binds: &Vec<Binding>,
    chain: &mut Vec<(String, String)>,
    fuel: usize,
    out: &mut Resolution,
) -> (r: Result<(), ResolveError>)
    ensures
        final(chain)@ == old(chain)@,
        appended(
            r,
            old(out)@,
            final(out)@,
            design_res(libs@, cur@, *d, arch@, binds@, chain_view(old(chain)@), fuel as nat),
        ),
    decreases fuel, 8int,
{
    let r = uses_into(libs, cur, &d.entity.uses, chain, fuel, out);
    if let Err(e) = r {
        return Err(e);
    }
    match find_architecture(&d.architectures, arch) {
        None => {
            out.push_element(element(cur, &d.entity.filename));
            out.push_diagnostic(
                Diagnostic::UnresolvedArchitecture { design: d.name.clone(), architecture: arch.clone() },
            );
            Ok(())
        },
        Some(ai) => {
            let a = &d.architectures[ai];
            if a.filename != d.entity.filename {
                out.push_element(element(cur, &d.entity.filename));
            }
            arch_into(libs, cur, a, binds, chain, fuel, out)
        },
    }
}

/// A package, as `package_res` states.
fn package_into(
    libs: &Vec<Library>,
    cur: &String,
    p: &Package,
    chain: &mut Vec<(String, String)>,
    fuel: usize,
    out: &mut Resolution,
) -> (r: Result<(), ResolveError>)
    ensures
        final(chain)@ == old(chain)@,
        appended(r, old(out)@, final(out)@, package_res(libs@, cur@, *p, chain_view(old(chain)@), fuel as nat)),
    decreases fuel, 4int,
{
    let r = uses_into(libs, cur, &p.uses, chain, fuel, out);
    if let Err(e) = r {
        return Err(e);
    }
    out.push_element(element(cur, &p.header));
    if p.body.as_str().unicode_len() > 0 && p.body != p.header {
        out.push_element(element(cur, &p.body));
    }
    Ok(())
}

/// A configuration, as `config_res` states.
fn config_into(
    libs: &Vec<Library>,
    c: &Configuration,
    chain: &mut Vec<(String, String)>,
    fuel: usize,
    out: &mut Resolution,
) -> (r: Result<(), ResolveError>)
    ensures
        final(chain)@ == old(chain)@,
        appended(r, old(out)@, final(out)@, config_res(libs@, *c, chain_view(old(chain)@), fuel as nat)),
    decreases fuel, 9int,
{
    let r = uses_into(libs, &c.library, &c.uses, chain, fuel, out);
    if let Err(e) = r {
        return Err(e);
    }
    let li = match find_library(libs, &c.library) {
        None => {
            return Err(ResolveError::UnknownLibrary(c.library.clone()));
        },
        Some(li) => li,
    };
    let l = &libs[li];
    match find_design(&l.designs, &c.entity) {
        None => {
            out.push_diagnostic(
                Diagnostic::UnresolvedDesign { library: c.library.clone(), name: c.entity.clone() },
            );
        },
        Some(di) => {
            let r = design_into(libs, &c.library, &l.designs[di], &c.architecture, &c.instances, chain, fuel, out);
            if let Err(e) = r {
                return Err(e);
            }
        },
    }
    out.push_element(element(&c.library, &c.filename));
    Ok(())
}

fn empty_chain() -> (c: Vec<(String, String)>)
    ensures
        chain_view(c@) == Seq::<(Seq<char>, Seq<char>)>::empty(),
{
    let c: Vec<(String, String)> = Vec::new();
    assert(chain_view(c@) =~= Seq::<(Seq<char>, Seq<char>)>::empty());
    c
}

fn finish(r: Result<(), ResolveError>, out: Resolution) -> (res: Result<Resolution, ResolveError>)
    ensures
        r is Ok ==> res is Ok && res->Ok_0 == out,
        r is Err ==> res is Err && res->Err_0 == r->Err_0,
{
    match r {
        Ok(()) => Ok(out),
        Err(e) => Err(e),
    }
}

impl Library {
    /// Resolves `name`, given as `unit` or `unit(architecture)` (optionally after
    /// `library.`, which is not consulted), in this library.
    pub fn resolve(&self, name: &String, libraries: &Vec<Library>) -> (r: Result<Resolution, ResolveError>)
        ensures
            delivers(r, by_name(libraries@, *self, name@, Seq::empty(), MAX_DEPTH as nat)),
    {
        let mut out = Resolution::new();
        let mut chain = empty_chain();
        let r = by_name_into(libraries, self, name, &mut chain, MAX_DEPTH, &mut out);
        finish(r, out)
    }
}

impl Design {
    /// Resolves this design, in library `library`, with the architecture named `arch`,
    /// under the bindings `configuration_instances`.
    pub fn resolve(
        &self,
        library: &String,
        libraries: &Vec<Library>,
        arch: String,
        configuration_instances: &Vec<Binding>,
    ) -> (r: Result<Resolution, ResolveError>)
        ensures
            delivers(
                r,
                design_res(libraries@, library@, *self, arch@, configuration_instances@, Seq::empty(), MAX_DEPTH as nat),
            ),
    {
        let mut out = Resolution::new();
        let mut chain = empty_chain();
        let r = design_into(libraries, library, self, &arch, configuration_instances, &mut chain, MAX_DEPTH, &mut out);
        finish(r, out)
    }
}

impl Architecture {
    /// Resolves this architecture in library `library` under the bindings
    /// `configuration_instances`.
    pub fn resolve(
        &self,
        library: &String,
        libraries: &Vec<Library>,
        configuration_instances: &Vec<Binding>,
    ) -> (r: Result<Resolution, ResolveError>)
        ensures
            delivers(
                r,
                arch_res(libraries@, library@, *self, configuration_instances@, Seq::empty(), MAX_DEPTH as nat),
            ),
    {
        let mut out = Resolution::new();
        let mut chain = empty_chain();
        let r = arch_into(libraries, library, self, configuration_instances, &mut chain, MAX_DEPTH, &mut out);
        finish(r, out)
    }
}

impl Entity {
    /// Resolves this entity's uses, then the entity itself, in library `library`.
    pub fn resolve(&self, library: &String, libraries: &Vec<Library>) -> (r: Result<Resolution, ResolveError>)
        ensures
            delivers(r, entity_res(libraries@, library@, *self, Seq::empty(), MAX_DEPTH as nat)),
    {
        let mut out = Resolution::new();
        let mut chain = empty_chain();
        let r = uses_into(libraries, library, &self.uses, &mut chain, MAX_DEPTH, &mut out);
        if let Err(e) = r {
            return Err(e);
        }
        out.push_element(element(library, &self.filename));
        Ok(out)
    }
}

impl Instance {
    /// Resolves this instance of an architecture in library `library`, whose use
    /// references are `uses`, under the bindings `configuration_instances`.
    pub fn resolve(
        &self,
        library: &String,
        libraries: &Vec<Library>,
        configuration_instances: &Vec<Binding>,
        uses: &Vec<String>,
    ) -> (r: Result<Resolution, ResolveError>)
        ensures
            delivers(
                r,
                instance_res(libraries@, library@, *self, configuration_instances@, uses@, Seq::empty(), MAX_DEPTH as nat),
            ),
    {
        let mut out = Resolution::new();
        let mut chain = empty_chain();
        let r = instance_into(libraries, library, self, configuration_instances, uses, &mut chain, MAX_DEPTH, &mut out);
        finish(r, out)
    }
}

impl ConfigurationInstance {
    /// Resolves what this binding binds to, for an instance in library `library`.
    pub fn resolve(&self, library: &String, libraries: &Vec<Library>) -> (r: Result<Resolution, ResolveError>)
        ensures
            delivers(r, binding_res(libraries@, library@, *self, Seq::empty(), MAX_DEPTH as nat)),
    {
        let mut out = Resolution::new();
        let mut chain = empty_chain();
        let r = binding_into(libraries, library, self, &mut chain, MAX_DEPTH, &mut out);
        finish(r, out)
    }
}

impl Configuration {
    /// Resolves this configuration: its uses, its design under its bindings, itself.
    pub fn resolve(&self, libraries: &Vec<Library>) -> (r: Result<Resolution, ResolveError>)
        ensures
            delivers(r, config_res(libraries@, *self, Seq::empty(), MAX_DEPTH as nat)),
    {
        let mut out = Resolution::new();
        let mut chain = empty_chain();
        let r = config_into(libraries, self, &mut chain, MAX_DEPTH, &mut out);
        finish(r, out)
    }
}

impl Package {
    /// Resolves this package's uses, then its header and body, in library `library`.
    pub fn resolve(&self, library: &String, libraries: &Vec<Library>) -> (r: Result<Resolution, ResolveError>)
        ensures
            delivers(r, package_res(libraries@, library@, *self, Seq::empty(), MAX_DEPTH as nat)),
    {
        let mut out = Resolution::new();
        let mut chain = empty_chain();
        let r = package_into(libraries, library, self, &mut chain, MAX_DEPTH, &mut out);
        finish(r, out)
    }
}

/// Resolves the use references `uses`, in order, from library `library`.
pub fn resolve_uses(uses: &Vec<String>, library: &String, libraries: &Vec<Library>) -> (r: Result<Resolution, ResolveError>)
    ensures
        delivers(r, uses_from(libraries@, library@, uses@, 0, Seq::empty(), MAX_DEPTH as nat)),
{
    let mut out = Resolution::new();
    let mut chain = empty_chain();
    let r = uses_into(libraries, library, uses, &mut chain, MAX_DEPTH, &mut out);
    finish(r, out)
}

/// Resolves the instances of an architecture in library `library`, in declaration
/// order, under the bindings `configuration_instances`.
pub fn resolve_instances(
    instances: &Vec<Instance>,
    library: &String,
    libraries: &Vec<Library>,
    configuration_instances: &Vec<Binding>,
    uses: &Vec<String>,
) -> (r: Result<Resolution, ResolveError>)
    ensures
        delivers(
            r,
            instances_from(libraries@, library@, instances@, 0, configuration_instances@, uses@, Seq::empty(), MAX_DEPTH as nat),
        ),
{
    let mut out = Resolution::new();
    let mut chain = empty_chain();
    let r = instances_into(libraries, library, instances, configuration_instances, uses, &mut chain, MAX_DEPTH, &mut out);
    finish(r, out)
}

} // verus!
