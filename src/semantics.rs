//! The meaning of resolution, as mutually recursive spec functions over the
//! structural model.
//!
//! `chain` holds the (library, key) pairs of the units entered on the current
//! path, the key of a design being `design(architecture)` and that of a
//! configuration or package its name; a unit entered again on its own path is a
//! cycle. `fuel` bounds the depth of that path.
use vstd::prelude::*;
use crate::model::{
    arch_index, architecture_names, configuration_index, design_index, lib_index, module_index,
    package_index, vhdl_name, verilog_name, Architecture, Binding, BindingKind, Configuration,
    ConfigurationInstance, Design, ElementView, Entity, Instance, InstanceKind, Library, Package,
    binding_keys,
};
use crate::names::{
    all_key, all_name, index_of, others_name, parse_target, qualified, ref_is_pair, ref_library,
    ref_package, work_name,
};
use crate::outcome::{done, emit, note, then, DiagnosticView, Outcome, ResolveErrorView};

verus! {

pub type Chain = Seq<(Seq<char>, Seq<char>)>;

pub open spec fn element_of(library: Seq<char>, filename: Seq<char>) -> ElementView {
    ElementView { library, filename, language: vhdl_name() }
}

/// The library a unit addressed through `library` belongs to, `work` standing for `cur`.
pub open spec fn effective_library(library: Seq<char>, cur: Seq<char>) -> Seq<char> {
    if library == work_name() {
        cur
    } else {
        library
    }
}

/// Whether the library declares `n` as a design, a configuration or a module.
pub open spec fn declares(lib: Library, n: Seq<char>) -> bool {
    design_index(lib, n) >= 0 || configuration_index(lib, n) >= 0 || module_index(lib, n) >= 0
}

/// Whether a configuration binding applies, by a generic key, to a component instance.
pub open spec fn binding_applies(b: Binding, inst: Instance) -> bool {
    (b.key@ == inst.label@ || b.key@ == others_name() || b.key@ == all_name())
        && b.instance.comp@ == inst.component@
}

/// The first binding from `i` on that applies to the instance, or -1.
pub open spec fn first_applying(binds: Seq<Binding>, inst: Instance, i: int) -> int
    decreases binds.len() - i,
{
    if i < 0 || i >= binds.len() {
        -1
    } else if binding_applies(binds[i], inst) {
        i
    } else {
        first_applying(binds, inst, i + 1)
    }
}

/// `acc`, followed by the library of each use reference from `i` on, without repeats.
pub open spec fn used_libraries(acc: Seq<Seq<char>>, uses: Seq<String>, i: int) -> Seq<Seq<char>>
    decreases uses.len() - i,
{
    if i < 0 || i >= uses.len() {
        acc
    } else {
        match ref_library(uses[i]@) {
            Some(l) => if acc.contains(l) {
                used_libraries(acc, uses, i + 1)
            } else {
                used_libraries(acc.push(l), uses, i + 1)
            },
            None => used_libraries(acc, uses, i + 1),
        }
    }
}

/// Whether the reference `library.part` makes `comp` visible from a library other
/// than `cur` and `work`.
pub open spec fn offers_component(r: Seq<char>, cur: Seq<char>, comp: Seq<char>) -> bool {
    ref_is_pair(r) && match (ref_library(r), ref_package(r)) {
        (Some(l), Some(p)) => l != work_name() && l != cur && (p == all_name() || p == comp),
        _ => false,
    }
}

/// `acc`, followed by each library from `i` on whose use reference offers `comp`,
/// without repeats.
pub open spec fn component_libraries(
    acc: Seq<Seq<char>>,
    uses: Seq<String>,
    i: int,
    cur: Seq<char>,
    comp: Seq<char>,
) -> Seq<Seq<char>>
    decreases uses.len() - i,
{
    if i < 0 || i >= uses.len() {
        acc
    } else {
        let r = uses[i]@;
        if offers_component(r, cur, comp) && !acc.contains(ref_library(r)->Some_0) {
            component_libraries(acc.push(ref_library(r)->Some_0), uses, i + 1, cur, comp)
        } else {
            component_libraries(acc, uses, i + 1, cur, comp)
        }
    }
}

/// Whether candidate `j` names a library holding a design `comp` with one architecture.
pub open spec fn single_architecture_at(
    libs: Seq<Library>,
    cands: Seq<Seq<char>>,
    j: int,
    comp: Seq<char>,
) -> bool {
    let li = lib_index(libs, cands[j]);
    li >= 0 && design_index(libs[li], comp) >= 0
        && libs[li].designs@[design_index(libs[li], comp)].architectures@.len() == 1
}

pub open spec fn has_single_architecture(
    libs: Seq<Library>,
    cands: Seq<Seq<char>>,
    comp: Seq<char>,
) -> bool {
    exists|j: int| 0 <= j < cands.len() && single_architecture_at(libs, cands, j, comp)
}

pub open spec fn some_library_has_module(libs: Seq<Library>, comp: Seq<char>) -> bool {
    exists|i: int| 0 <= i < libs.len() && module_index(libs[i], comp) >= 0
}

pub open spec fn ambiguity_of(d: Design) -> DiagnosticView {
    if d.architectures@.len() == 0 {
        DiagnosticView::EmptyDesign { design: d.name@ }
    } else {
        DiagnosticView::AmbiguousDesign {
            design: d.name@,
            architectures: architecture_names(d.architectures@),
        }
    }
}

/// What a name leads to once it is looked up: a design with one of its
/// architectures, a configuration, or a package.
pub enum Unit {
    DesignUnit(Design, Seq<char>),
    ConfigurationUnit(Configuration),
    PackageUnit(Package),
}

/// Enters a unit of `lib` under the path key `key`: a key already on the path is a
/// cycle, and a path longer than the fuel is too deep.
pub open spec fn enter(libs: Seq<Library>, lib: Library, key: Seq<char>, u: Unit, chain: Chain, fuel: nat) -> Outcome
    decreases fuel, 0int, 0int,
{
    if chain.contains((lib.name@, key)) {
        Err(ResolveErrorView::CycleDetected { library: lib.name@, name: key })
    } else if fuel == 0 {
        Err(ResolveErrorView::TooDeep { library: lib.name@, name: key })
    } else {
        let ch = chain.push((lib.name@, key));
        let f = (fuel - 1) as nat;
        match u {
            Unit::DesignUnit(d, a) => design_res(libs, lib.name@, d, a, Seq::empty(), ch, f),
            Unit::ConfigurationUnit(c) => config_res(libs, c, ch, f),
            Unit::PackageUnit(p) => package_res(libs, lib.name@, p, ch, f),
        }
    }
}

/// Resolves `name` (`unit` or `unit(arch)`, optionally after `library.`) in `lib`.
pub open spec fn by_name(libs: Seq<Library>, lib: Library, name: Seq<char>, chain: Chain, fuel: nat) -> Outcome
    decreases fuel, 1int, 0int,
{
    if lib.ignore {
        done()
    } else {
        match parse_target(name) {
            None => Err(ResolveErrorView::UnparsableName(name)),
            Some(t) => match t.architecture {
                Some(a) => {
                    let di = design_index(lib, t.unit);
                    if di < 0 {
                        note(DiagnosticView::UnresolvedDesign { library: lib.name@, name: t.unit })
                    } else if arch_index(lib.designs@[di], a) < 0 {
                        note(
                            DiagnosticView::UnresolvedArchitecture {
                                design: lib.designs@[di].name@,
                                architecture: a,
                            },
                        )
                    } else {
                        enter(libs, lib, qualified(t.unit, a), Unit::DesignUnit(lib.designs@[di], a), chain, fuel)
                    }
                },
                None => {
                    let ci = configuration_index(lib, t.unit);
                    let pi = package_index(lib, t.unit);
                    let di = design_index(lib, t.unit);
                    let mi = module_index(lib, t.unit);
                    if ci >= 0 {
                        enter(libs, lib, t.unit, Unit::ConfigurationUnit(lib.configurations@[ci]), chain, fuel)
                    } else if pi >= 0 {
                        enter(libs, lib, t.unit, Unit::PackageUnit(lib.packages@[pi]), chain, fuel)
                    } else if di >= 0 {
                        let d = lib.designs@[di];
                        if d.architectures@.len() == 1 {
                            let a = d.architectures@[0].name@;
                            enter(libs, lib, qualified(t.unit, a), Unit::DesignUnit(d, a), chain, fuel)
                        } else {
                            note(ambiguity_of(d))
                        }
                    } else if mi >= 0 {
                        emit(
                            ElementView {
                                library: lib.name@,
                                filename: lib.modules@[mi].filename@,
                                language: verilog_name(),
                            },
                        )
                    } else {
                        note(DiagnosticView::UnresolvedDesign { library: lib.name@, name: t.unit })
                    }
                },
            },
        }
    }
}

/// One use reference, resolved from library `cur`.
pub open spec fn use_step(libs: Seq<Library>, cur: Seq<char>, r: Seq<char>, chain: Chain, fuel: nat) -> Outcome
    decreases fuel, 2int, 0int,
{
    match (ref_library(r), ref_package(r)) {
        (Some(l), Some(p)) => if p == all_name() {
            done()
        } else {
            let ln = effective_library(l, cur);
            let li = lib_index(libs, ln);
            if li < 0 {
                Err(ResolveErrorView::UnknownLibrary(ln))
            } else {
                by_name(libs, libs[li], p, chain, fuel)
            }
        },
        _ => done(),
    }
}

/// The use references from `i` on, in order.
pub open spec fn uses_from(
    libs: Seq<Library>,
    cur: Seq<char>,
    uses: Seq<String>,
    i: int,
    chain: Chain,
    fuel: nat,
) -> Outcome
    decreases fuel, 3int, uses.len() - i,
{
    if i < 0 || i >= uses.len() {
        done()
    } else {
        then(use_step(libs, cur, uses[i]@, chain, fuel), uses_from(libs, cur, uses, i + 1, chain, fuel))
    }
}

/// A binding indication, resolved for an instance in library `cur`.
pub open spec fn binding_res(
    libs: Seq<Library>,
    cur: Seq<char>,
    ci: ConfigurationInstance,
    chain: Chain,
    fuel: nat,
) -> Outcome
    decreases fuel, 2int, 0int,
{
    let ln = effective_library(ci.library@, cur);
    let li = lib_index(libs, ln);
    if ci.kind == BindingKind::Open {
        done()
    } else if li < 0 {
        note(DiagnosticView::UnknownLibrary { library: ln })
    } else {
        by_name(libs, libs[li], ci.component@, chain, fuel)
    }
}

/// The bound `target` in every candidate library from `j` on that declares `unit`.
pub open spec fn bound_union(
    libs: Seq<Library>,
    cands: Seq<Seq<char>>,
    j: int,
    target: Seq<char>,
    unit: Seq<char>,
    chain: Chain,
    fuel: nat,
) -> Outcome
    decreases fuel, 2int, cands.len() - j,
{
    if j < 0 || j >= cands.len() {
        done()
    } else {
        let li = lib_index(libs, cands[j]);
        let step = if li >= 0 && declares(libs[li], unit) {
            by_name(libs, libs[li], target, chain, fuel)
        } else {
            done()
        };
        then(step, bound_union(libs, cands, j + 1, target, unit, chain, fuel))
    }
}

/// The candidate libraries from `j` on, until one holds design `comp` with exactly
/// one architecture; candidates with a design of no or several architectures
/// leave a diagnostic.
pub open spec fn scan_candidates(
    libs: Seq<Library>,
    cands: Seq<Seq<char>>,
    j: int,
    comp: Seq<char>,
    chain: Chain,
    fuel: nat,
) -> Outcome
    decreases fuel, 2int, cands.len() - j,
{
    if j < 0 || j >= cands.len() {
        done()
    } else {
        let li = lib_index(libs, cands[j]);
        if li < 0 || design_index(libs[li], comp) < 0 {
            scan_candidates(libs, cands, j + 1, comp, chain, fuel)
        } else {
            let l = libs[li];
            let d = l.designs@[design_index(l, comp)];
            if d.architectures@.len() == 1 {
                let a = d.architectures@[0].name@;
                if l.ignore {
                    done()
                } else {
                    enter(libs, l, qualified(comp, a), Unit::DesignUnit(d, a), chain, fuel)
                }
            } else {
                then(note(ambiguity_of(d)), scan_candidates(libs, cands, j + 1, comp, chain, fuel))
            }
        }
    }
}

/// `comp` in every library from `i` on that has a module of that name.
pub open spec fn modules_from(libs: Seq<Library>, i: int, comp: Seq<char>, chain: Chain, fuel: nat) -> Outcome
    decreases fuel, 2int, libs.len() - i,
{
    if i < 0 || i >= libs.len() {
        done()
    } else {
        let step = if module_index(libs[i], comp) >= 0 {
            by_name(libs, libs[i], comp, chain, fuel)
        } else {
            done()
        };
        then(step, modules_from(libs, i + 1, comp, chain, fuel))
    }
}

/// A component instantiation with no binding of its own, once the bindings keyed
/// by label and by `all@component` did not apply.
pub open spec fn component_res(
    libs: Seq<Library>,
    cur: Seq<char>,
    inst: Instance,
    binds: Seq<Binding>,
    uses: Seq<String>,
    chain: Chain,
    fuel: nat,
) -> Outcome
    decreases fuel, 4int, 0int,
{
    let k = first_applying(binds, inst, 0);
    if k >= 0 {
        let target = binds[k].instance.component@;
        match parse_target(target) {
            None => note(DiagnosticView::UnresolvedDesign { library: cur, name: target }),
            Some(t) => bound_union(
                libs,
                used_libraries(seq![cur], uses, 0),
                0,
                target,
                t.unit,
                chain,
                fuel,
            ),
        }
    } else {
        let comp = inst.component@;
        let cands = component_libraries(seq![cur], uses, 0, cur, comp);
        let scanned = scan_candidates(libs, cands, 0, comp, chain, fuel);
        if has_single_architecture(libs, cands, comp) {
            scanned
        } else if some_library_has_module(libs, comp) {
            then(scanned, modules_from(libs, 0, comp, chain, fuel))
        } else {
            then(
                scanned,
                note(DiagnosticView::UnresolvedInstance { label: inst.label@, library: cur }),
            )
        }
    }
}

/// One instance of an architecture in library `cur`, under the bindings `binds`.
pub open spec fn instance_res(
    libs: Seq<Library>,
    cur: Seq<char>,
    inst: Instance,
    binds: Seq<Binding>,
    uses: Seq<String>,
    chain: Chain,
    fuel: nat,
) -> Outcome
    decreases fuel, 5int, 0int,
{
    let bi = index_of(binding_keys(binds), inst.label@);
    let bj = index_of(binding_keys(binds), all_key(inst.component@));
    if bi >= 0 {
        binding_res(libs, cur, binds[bi].instance, chain, fuel)
    } else if bj >= 0 {
        binding_res(libs, cur, binds[bj].instance, chain, fuel)
    } else if inst.kind != InstanceKind::Component {
        let ln = effective_library(inst.library@, cur);
        let li = lib_index(libs, ln);
        if li < 0 {
            Err(ResolveErrorView::UnknownLibrary(ln))
        } else {
            by_name(libs, libs[li], inst.component@, chain, fuel)
        }
    } else {
        component_res(libs, cur, inst, binds, uses, chain, fuel)
    }
}

/// The instances from `i` on, in declaration order.
pub open spec fn instances_from(
    libs: Seq<Library>,
    cur: Seq<char>,
    insts: Seq<Instance>,
    i: int,
    binds: Seq<Binding>,
    uses: Seq<String>,
    chain: Chain,
    fuel: nat,
) -> Outcome
    decreases fuel, 6int, insts.len() - i,
{
    if i < 0 || i >= insts.len() {
        done()
    } else {
        then(
            instance_res(libs, cur, insts[i], binds, uses, chain, fuel),
            instances_from(libs, cur, insts, i + 1, binds, uses, chain, fuel),
        )
    }
}

/// An architecture: its uses, its instances, then its own file.
pub open spec fn arch_res(
    libs: Seq<Library>,
    cur: Seq<char>,
    a: Architecture,
    binds: Seq<Binding>,
    chain: Chain,
    fuel: nat,
) -> Outcome
    decreases fuel, 7int, 0int,
{
    then(
        uses_from(libs, cur, a.uses@, 0, chain, fuel),
        then(
            instances_from(libs, cur, a.instances@, 0, binds, a.uses@, chain, fuel),
            emit(element_of(cur, a.filename@)),
        ),
    )
}

/// An entity: its uses, then its own file.
pub open spec fn entity_res(libs: Seq<Library>, cur: Seq<char>, e: Entity, chain: Chain, fuel: nat) -> Outcome {
    then(uses_from(libs, cur, e.uses@, 0, chain, fuel), emit(element_of(cur, e.filename@)))
}

/// A design with the architecture named `arch`; the entity's own element is left
/// out when the architecture shares its file.
pub open spec fn design_res(
    libs: Seq<Library>,
    cur: Seq<char>,
    d: Design,
    arch: Seq<char>,
    binds: Seq<Binding>,
    chain: Chain,
    fuel: nat,
) -> Outcome
    decreases fuel, 8int, 0int,
{
    let ai = arch_index(d, arch);
    let ent_uses = uses_from(libs, cur, d.entity.uses@, 0, chain, fuel);
    let ent = emit(element_of(cur, d.entity.filename@));
    if ai < 0 {
        then(
            ent_uses,
            then(
                ent,
                note(DiagnosticView::UnresolvedArchitecture { design: d.name@, architecture: arch }),
            ),
        )
    } else {
        let a = d.architectures@[ai];
        then(
            ent_uses,
            then(
                if a.filename@ == d.entity.filename@ {
                    done()
                } else {
                    ent
                },
                arch_res(libs, cur, a, binds, chain, fuel),
            ),
        )
    }
}

/// A package: its uses, its header, then its body when it has a separate one.
pub open spec fn package_res(libs: Seq<Library>, cur: Seq<char>, p: Package, chain: Chain, fuel: nat) -> Outcome
    decreases fuel, 4int, 0int,
{
    then(
        uses_from(libs, cur, p.uses@, 0, chain, fuel),
        then(
            emit(element_of(cur, p.header@)),
            if p.body@.len() > 0 && p.body@ != p.header@ {
                emit(element_of(cur, p.body@))
            } else {
                done()
            },
        ),
    )
}

/// A configuration: its uses, its design under its bindings, then its own file.
pub open spec fn config_res(libs: Seq<Library>, c: Configuration, chain: Chain, fuel: nat) -> Outcome
    decreases fuel, 9int, 0int,
{
    let cur = c.library@;
    let li = lib_index(libs, cur);
    then(
        uses_from(libs, cur, c.uses@, 0, chain, fuel),
        if li < 0 {
            Err(ResolveErrorView::UnknownLibrary(cur))
        } else {
            let l = libs[li];
            let di = design_index(l, c.entity@);
            then(
                if di < 0 {
                    note(DiagnosticView::UnresolvedDesign { library: cur, name: c.entity@ })
                } else {
                    design_res(libs, cur, l.designs@[di], c.architecture@, c.instances@, chain, fuel)
                },
                emit(element_of(cur, c.filename@)),
            )
        },
    )
}

} // verus!
