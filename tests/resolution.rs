use hanna::model::{
    Architecture, Binding, BindingKind, Configuration, ConfigurationInstance, Design, Element, Entity,
    Instance, InstanceKind, Library, Module, Package,
};
use hanna::outcome::{Diagnostic, ResolveError, Resolution};
use hanna::resolve::resolve_uses;

fn library(name: &str) -> Library {
    Library {
        name: name.to_string(),
        designs: Vec::new(),
        configurations: Vec::new(),
        packages: Vec::new(),
        modules: Vec::new(),
        depends_on_libs: Vec::new(),
        ignore: false,
    }
}

fn strings(v: &[&str]) -> Vec<String> {
    v.iter().map(|s| s.to_string()).collect()
}

fn architecture(name: &str, file: &str, uses: &[&str], instances: Vec<Instance>) -> Architecture {
    Architecture { name: name.to_string(), filename: file.to_string(), uses: strings(uses), instances }
}

fn instance(label: &str, lib: &str, kind: InstanceKind, component: &str) -> Instance {
    Instance { label: label.to_string(), library: lib.to_string(), kind, component: component.to_string() }
}

fn design(lib: &str, name: &str, entity_file: &str, uses: &[&str], archs: Vec<Architecture>) -> Design {
    Design {
        library: lib.to_string(),
        name: name.to_string(),
        entity: Entity { name: name.to_string(), filename: entity_file.to_string(), uses: strings(uses) },
        architectures: archs,
    }
}

fn files(r: &Resolution) -> Vec<String> {
    r.elements.iter().map(|e| e.filename.clone()).collect()
}

fn pairs(r: &Resolution) -> Vec<(String, String)> {
    r.elements.iter().map(|e| (e.library.clone(), e.filename.clone())).collect()
}

fn resolve(libs: &Vec<Library>, lib: usize, name: &str) -> Result<Resolution, ResolveError> {
    libs[lib].resolve(&name.to_string(), libs)
}

/// lib1: design_1 (entity e.vhd, architecture rtl in a.vhd instantiating entity
/// lib1.helper) and helper (architecture rtl in h.vhd).
fn end_to_end_model() -> Vec<Library> {
    let mut lib1 = library("lib1");
    lib1.designs.push(design(
        "lib1",
        "design_1",
        "e.vhd",
        &[],
        vec![architecture("rtl", "a.vhd", &[], vec![instance("u1", "lib1", InstanceKind::Entity, "helper")])],
    ));
    lib1.designs.push(design("lib1", "helper", "h.vhd", &[], vec![architecture("rtl", "h.vhd", &[], vec![])]));
    vec![lib1]
}

#[test]
fn end_to_end_design_with_helper() {
    let libs = end_to_end_model();
    let r = resolve(&libs, 0, "lib1.design_1(rtl)").unwrap();
    // The entity comes first, then the architecture's instances, then the
    // architecture itself.
    assert_eq!(files(&r), strings(&["e.vhd", "h.vhd", "a.vhd"]));
    assert!(r.elements.iter().all(|e| e.library == "lib1" && e.language == "vhdl"));
    assert!(r.diagnostics.is_empty());
}

#[test]
fn resolution_is_deterministic() {
    let libs = end_to_end_model();
    let a = resolve(&libs, 0, "lib1.design_1(rtl)").unwrap();
    let b = resolve(&libs, 0, "lib1.design_1(rtl)").unwrap();
    assert_eq!(pairs(&a), pairs(&b));
    assert_eq!(a.diagnostics.len(), b.diagnostics.len());
}

#[test]
fn single_architecture_resolves_alike_with_or_without_name() {
    let libs = end_to_end_model();
    let plain = resolve(&libs, 0, "lib1.design_1").unwrap();
    let explicit = resolve(&libs, 0, "lib1.design_1(rtl)").unwrap();
    assert_eq!(pairs(&plain), pairs(&explicit));
    assert_eq!(files(&plain), strings(&["e.vhd", "h.vhd", "a.vhd"]));
}

#[test]
fn two_architectures_without_choice_are_ambiguous() {
    let mut lib1 = library("lib1");
    lib1.designs.push(design(
        "lib1",
        "dut",
        "dut.vhd",
        &[],
        vec![architecture("rtl", "rtl.vhd", &[], vec![]), architecture("sim", "sim.vhd", &[], vec![])],
    ));
    let libs = vec![lib1];
    let r = resolve(&libs, 0, "dut").unwrap();
    assert!(r.elements.is_empty());
    assert_eq!(r.diagnostics.len(), 1);
    match &r.diagnostics[0] {
        Diagnostic::AmbiguousDesign { design, architectures } => {
            assert_eq!(design, "dut");
            assert_eq!(architectures, &strings(&["rtl", "sim"]));
        },
        _ => panic!("expected an ambiguity"),
    }
    let chosen = resolve(&libs, 0, "dut(sim)").unwrap();
    assert_eq!(files(&chosen), strings(&["dut.vhd", "sim.vhd"]));
}

#[test]
fn design_without_architecture_is_reported_empty() {
    let mut lib1 = library("lib1");
    lib1.designs.push(design("lib1", "bare", "bare.vhd", &[], vec![]));
    let libs = vec![lib1];
    let r = resolve(&libs, 0, "bare").unwrap();
    assert!(r.elements.is_empty());
    assert!(matches!(&r.diagnostics[..], [Diagnostic::EmptyDesign { design }] if design == "bare"));
}

#[test]
fn shared_entity_and_architecture_file_appears_once() {
    let mut lib1 = library("lib1");
    lib1.designs.push(design("lib1", "cnt", "cnt.vhd", &[], vec![architecture("rtl", "cnt.vhd", &[], vec![])]));
    let libs = vec![lib1];
    let r = resolve(&libs, 0, "cnt(rtl)").unwrap();
    assert_eq!(files(&r), strings(&["cnt.vhd"]));
}

#[test]
fn missing_architecture_is_reported() {
    let libs = end_to_end_model();
    let r = resolve(&libs, 0, "design_1(beh)").unwrap();
    assert!(r.elements.is_empty());
    assert!(matches!(
        &r.diagnostics[..],
        [Diagnostic::UnresolvedArchitecture { design, architecture }] if design == "design_1" && architecture == "beh"
    ));
    let d = &libs[0].designs[0];
    let direct = d.resolve(&"lib1".to_string(), &libs, "beh".to_string(), &Vec::new()).unwrap();
    assert_eq!(files(&direct), strings(&["e.vhd"]));
}

#[test]
fn unknown_design_is_reported() {
    let libs = end_to_end_model();
    let r = resolve(&libs, 0, "nothing").unwrap();
    assert!(r.elements.is_empty());
    assert!(matches!(
        &r.diagnostics[..],
        [Diagnostic::UnresolvedDesign { library, name }] if library == "lib1" && name == "nothing"
    ));
}

#[test]
fn unparsable_target_is_fatal() {
    let libs = end_to_end_model();
    assert!(matches!(resolve(&libs, 0, "design_1(rtl"), Err(ResolveError::UnparsableName(n)) if n == "design_1(rtl"));
    assert!(matches!(resolve(&libs, 0, ""), Err(ResolveError::UnparsableName(_))));
}

fn binding(key: &str, lib: &str, label: &str, comp: &str, kind: BindingKind, target: &str) -> Binding {
    Binding {
        key: key.to_string(),
        instance: ConfigurationInstance {
            library: lib.to_string(),
            label: label.to_string(),
            comp: comp.to_string(),
            kind,
            component: target.to_string(),
            uses: Vec::new(),
        },
    }
}

/// lib1: top (architecture rtl instantiating component c as x and as y, and
/// component d as x2), c, d; lib2: e.
fn binding_model(bindings: Vec<Binding>) -> Vec<Library> {
    let mut lib1 = library("lib1");
    lib1.designs.push(design(
        "lib1",
        "top",
        "top.vhd",
        &[],
        vec![architecture(
            "rtl",
            "top_rtl.vhd",
            &[],
            vec![
                instance("x", "work", InstanceKind::Component, "c"),
                instance("y", "work", InstanceKind::Component, "c"),
                instance("x2", "work", InstanceKind::Component, "d"),
            ],
        )],
    ));
    lib1.designs.push(design("lib1", "c", "c.vhd", &[], vec![architecture("rtl", "c.vhd", &[], vec![])]));
    lib1.designs.push(design("lib1", "d", "d.vhd", &[], vec![architecture("rtl", "d.vhd", &[], vec![])]));
    lib1.configurations.push(Configuration {
        library: "lib1".to_string(),
        name: "cfg".to_string(),
        entity: "top".to_string(),
        filename: "cfg.vhd".to_string(),
        architecture: "rtl".to_string(),
        uses: Vec::new(),
        instances: bindings,
    });
    let mut lib2 = library("lib2");
    lib2.designs.push(design("lib2", "e", "e2.vhd", &[], vec![architecture("rtl", "e2.vhd", &[], vec![])]));
    vec![lib1, lib2]
}

#[test]
fn configuration_binding_overrides_component() {
    let libs = binding_model(vec![binding("x", "lib2", "x", "c", BindingKind::Entity, "e")]);
    let r = resolve(&libs, 0, "cfg").unwrap();
    assert_eq!(
        pairs(&r),
        vec![
            ("lib1".to_string(), "top.vhd".to_string()),
            ("lib2".to_string(), "e2.vhd".to_string()),
            ("lib1".to_string(), "c.vhd".to_string()),
            ("lib1".to_string(), "d.vhd".to_string()),
            ("lib1".to_string(), "top_rtl.vhd".to_string()),
            ("lib1".to_string(), "cfg.vhd".to_string()),
        ]
    );
}

#[test]
fn all_binding_covers_every_instance_of_its_component() {
    let libs = binding_model(vec![binding("all@c", "lib2", "all", "c", BindingKind::Entity, "e")]);
    let r = resolve(&libs, 0, "cfg").unwrap();
    assert_eq!(files(&r), strings(&["top.vhd", "e2.vhd", "e2.vhd", "d.vhd", "top_rtl.vhd", "cfg.vhd"]));
}

#[test]
fn open_binding_contributes_nothing() {
    let libs = binding_model(vec![binding("x", "work", "x", "c", BindingKind::Open, "open")]);
    let r = resolve(&libs, 0, "cfg").unwrap();
    assert_eq!(files(&r), strings(&["top.vhd", "c.vhd", "d.vhd", "top_rtl.vhd", "cfg.vhd"]));
}

#[test]
fn binding_to_unknown_library_is_reported() {
    let libs = binding_model(vec![binding("x", "nolib", "x", "c", BindingKind::Entity, "e")]);
    let r = resolve(&libs, 0, "cfg").unwrap();
    assert_eq!(files(&r), strings(&["top.vhd", "c.vhd", "d.vhd", "top_rtl.vhd", "cfg.vhd"]));
    assert!(matches!(&r.diagnostics[..], [Diagnostic::UnknownLibrary { library }] if library == "nolib"));
}

#[test]
fn others_binding_resolves_its_target_in_candidate_libraries() {
    let mut libs = binding_model(vec![binding("others", "lib2", "others", "c", BindingKind::Entity, "e")]);
    libs[0].designs[0].architectures[0].uses = strings(&["lib2.all"]);
    let r = resolve(&libs, 0, "cfg").unwrap();
    assert_eq!(files(&r), strings(&["top.vhd", "e2.vhd", "e2.vhd", "d.vhd", "top_rtl.vhd", "cfg.vhd"]));
}

#[test]
fn unresolved_instance_leaves_siblings_alone() {
    let mut lib1 = library("lib1");
    lib1.designs.push(design(
        "lib1",
        "top",
        "top.vhd",
        &[],
        vec![architecture(
            "rtl",
            "top.vhd",
            &[],
            vec![
                instance("a", "work", InstanceKind::Component, "c"),
                instance("b", "work", InstanceKind::Component, "ghost"),
                instance("d", "work", InstanceKind::Component, "c2"),
            ],
        )],
    ));
    lib1.designs.push(design("lib1", "c", "c.vhd", &[], vec![architecture("rtl", "c.vhd", &[], vec![])]));
    lib1.designs.push(design("lib1", "c2", "c2.vhd", &[], vec![architecture("rtl", "c2.vhd", &[], vec![])]));
    let libs = vec![lib1];
    let r = resolve(&libs, 0, "top").unwrap();
    assert_eq!(files(&r), strings(&["c.vhd", "c2.vhd", "top.vhd"]));
    assert_eq!(r.diagnostics.len(), 1);
    assert!(matches!(
        &r.diagnostics[0],
        Diagnostic::UnresolvedInstance { label, library } if label == "b" && library == "lib1"
    ));
}

#[test]
fn component_found_through_library_use() {
    let mut lib1 = library("lib1");
    lib1.designs.push(design(
        "lib1",
        "top",
        "top.vhd",
        &[],
        vec![architecture("rtl", "top_a.vhd", &["lib2.all"], vec![instance("u", "work", InstanceKind::Component, "e")])],
    ));
    let mut lib2 = library("lib2");
    lib2.designs.push(design("lib2", "e", "e.vhd", &[], vec![architecture("rtl", "e_a.vhd", &[], vec![])]));
    let libs = vec![lib1, lib2];
    let r = resolve(&libs, 0, "top").unwrap();
    assert_eq!(
        pairs(&r),
        vec![
            ("lib1".to_string(), "top.vhd".to_string()),
            ("lib2".to_string(), "e.vhd".to_string()),
            ("lib2".to_string(), "e_a.vhd".to_string()),
            ("lib1".to_string(), "top_a.vhd".to_string()),
        ]
    );
}

#[test]
fn component_falls_back_to_verilog_module_anywhere() {
    let mut lib1 = library("lib1");
    lib1.designs.push(design(
        "lib1",
        "top",
        "top.vhd",
        &[],
        vec![architecture("rtl", "top.vhd", &[], vec![instance("u", "work", InstanceKind::Component, "ram")])],
    ));
    let mut vlog = library("vlog");
    vlog.modules.push(Module { name: "ram".to_string(), filename: "ram.v".to_string() });
    let libs = vec![lib1, vlog];
    let r = resolve(&libs, 0, "top").unwrap();
    assert_eq!(
        pairs(&r),
        vec![("vlog".to_string(), "ram.v".to_string()), ("lib1".to_string(), "top.vhd".to_string())]
    );
    assert_eq!(r.elements[0].language, "verilog");
    assert!(r.diagnostics.is_empty());
}

#[test]
fn package_with_body_and_uses() {
    let mut lib1 = library("lib1");
    lib1.packages.push(Package {
        name: "base".to_string(),
        header: "base.vhd".to_string(),
        body: "base_body.vhd".to_string(),
        uses: Vec::new(),
    });
    lib1.packages.push(Package {
        name: "util".to_string(),
        header: "util.vhd".to_string(),
        body: "util.vhd".to_string(),
        uses: strings(&["work.base.all"]),
    });
    let libs = vec![lib1];
    let r = resolve(&libs, 0, "util").unwrap();
    assert_eq!(files(&r), strings(&["base.vhd", "base_body.vhd", "util.vhd"]));
    let p = libs[0].packages[1].resolve(&"lib1".to_string(), &libs).unwrap();
    assert_eq!(files(&p), strings(&["base.vhd", "base_body.vhd", "util.vhd"]));
}

#[test]
fn use_of_unknown_library_is_fatal() {
    let libs = vec![library("lib1")];
    let r = resolve_uses(&strings(&["other.pkg.all"]), &"lib1".to_string(), &libs);
    assert!(matches!(r, Err(ResolveError::UnknownLibrary(l)) if l == "other"));
    let skip = resolve_uses(&strings(&["other.all"]), &"lib1".to_string(), &libs).unwrap();
    assert!(skip.elements.is_empty());
}

#[test]
fn instance_in_unknown_library_is_fatal() {
    let mut lib1 = library("lib1");
    lib1.designs.push(design(
        "lib1",
        "top",
        "top.vhd",
        &[],
        vec![architecture("rtl", "top.vhd", &[], vec![instance("u", "nolib", InstanceKind::Entity, "e")])],
    ));
    let libs = vec![lib1];
    assert!(matches!(resolve(&libs, 0, "top"), Err(ResolveError::UnknownLibrary(l)) if l == "nolib"));
}

#[test]
fn verilog_module_by_name() {
    let mut lib1 = library("lib1");
    lib1.modules.push(Module { name: "fifo".to_string(), filename: "fifo.sv".to_string() });
    let libs = vec![lib1];
    let r = resolve(&libs, 0, "fifo").unwrap();
    assert_eq!(files(&r), strings(&["fifo.sv"]));
    assert_eq!(r.elements[0].language, "verilog");
}

#[test]
fn ignored_library_resolves_to_nothing() {
    let mut libs = end_to_end_model();
    libs[0].ignore = true;
    let r = resolve(&libs, 0, "design_1(rtl)").unwrap();
    assert!(r.elements.is_empty());
    assert!(r.diagnostics.is_empty());
}

#[test]
fn instantiation_cycle_is_detected() {
    let mut lib1 = library("lib1");
    lib1.designs.push(design(
        "lib1",
        "loop_a",
        "a.vhd",
        &[],
        vec![architecture("rtl", "a.vhd", &[], vec![instance("u", "work", InstanceKind::Entity, "loop_b")])],
    ));
    lib1.designs.push(design(
        "lib1",
        "loop_b",
        "b.vhd",
        &[],
        vec![architecture("rtl", "b.vhd", &[], vec![instance("u", "work", InstanceKind::Entity, "loop_a")])],
    ));
    let libs = vec![lib1];
    match resolve(&libs, 0, "loop_a") {
        Err(ResolveError::CycleDetected { library, name }) => {
            assert_eq!(library, "lib1");
            assert_eq!(name, "loop_a(rtl)");
        },
        _ => panic!("expected a cycle"),
    }
}

#[test]
fn element_copy_keeps_fields() {
    let e = Element { library: "l".to_string(), filename: "f.vhd".to_string(), language: "vhdl".to_string() };
    let c = e.copy();
    assert_eq!((c.library, c.filename, c.language), ("l".to_string(), "f.vhd".to_string(), "vhdl".to_string()));
}

#[test]
fn instances_resolve_in_declaration_order() {
    let libs = end_to_end_model();
    let insts = vec![
        instance("u1", "work", InstanceKind::Entity, "helper"),
        instance("u2", "lib1", InstanceKind::Entity, "design_1(rtl)"),
    ];
    let r = hanna::resolve::resolve_instances(&insts, &"lib1".to_string(), &libs, &Vec::new(), &Vec::new()).unwrap();
    assert_eq!(files(&r), strings(&["h.vhd", "e.vhd", "h.vhd", "a.vhd"]));
    let one = insts[0].resolve(&"lib1".to_string(), &libs, &Vec::new(), &Vec::new()).unwrap();
    assert_eq!(files(&one), strings(&["h.vhd"]));
}

#[test]
fn entity_architecture_and_binding_resolve_on_their_own() {
    let libs = end_to_end_model();
    let d = &libs[0].designs[0];
    let ent = d.entity.resolve(&"lib1".to_string(), &libs).unwrap();
    assert_eq!(files(&ent), strings(&["e.vhd"]));
    let arch = d.architectures[0].resolve(&"lib1".to_string(), &libs, &Vec::new()).unwrap();
    assert_eq!(files(&arch), strings(&["h.vhd", "a.vhd"]));
    let b = binding("u", "work", "u", "c", BindingKind::Entity, "helper(rtl)");
    let bound = b.instance.resolve(&"lib1".to_string(), &libs).unwrap();
    assert_eq!(files(&bound), strings(&["h.vhd"]));
}

#[test]
fn configuration_resolves_on_its_own() {
    let libs = binding_model(vec![binding("x", "lib2", "x", "c", BindingKind::Entity, "e")]);
    let r = libs[0].configurations[0].resolve(&libs).unwrap();
    assert_eq!(files(&r), strings(&["top.vhd", "e2.vhd", "c.vhd", "d.vhd", "top_rtl.vhd", "cfg.vhd"]));
}

#[test]
fn unparsable_binding_target_is_reported() {
    let libs = binding_model(vec![binding("others", "lib2", "others", "c", BindingKind::Entity, "e(")]);
    let r = resolve(&libs, 0, "cfg").unwrap();
    assert_eq!(files(&r), strings(&["top.vhd", "d.vhd", "top_rtl.vhd", "cfg.vhd"]));
    assert_eq!(r.diagnostics.len(), 2);
    assert!(r.diagnostics.iter().all(
        |d| matches!(d, Diagnostic::UnresolvedDesign { library, name } if library == "lib1" && name == "e(")
    ));
}
