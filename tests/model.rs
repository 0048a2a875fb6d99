use hanna::indexing::{binding_choice, binding_target, bindings_of, instance_of, library_clause_use, split_labels};
use hanna::listing::ToolLangConfig;
use hanna::model::{
    Architecture, BindingKind, Configuration, ConfigurationInstance, Entity, InstanceKind, Library, Package,
};
use hanna::names::{parse_target_name, reference_is_pair, reference_library, split_reference};

fn library(name: &str) -> Library {
    Library {
        name: name.to_string(),
        designs: Vec::new(),
        configurations: Vec::new(),
        packages: Vec::new(),
        modules: Vec::new(),
        depends_on_libs: Vec::new(),
        ignore: false,
    }
}

fn arch(name: &str, file: &str) -> Architecture {
    Architecture { name: name.to_string(), filename: file.to_string(), uses: Vec::new(), instances: Vec::new() }
}

#[test]
fn new_library_is_empty() {
    let lib = Library::new("lib9".to_string(), true);
    assert_eq!(lib.name, "lib9");
    assert!(lib.ignore && lib.designs.is_empty() && lib.packages.is_empty() && lib.modules.is_empty());
}

#[test]
fn design_keeps_first_entity_and_architecture() {
    let mut lib = library("lib1");
    let d = lib.get_design(&"dut".to_string());
    assert_eq!(d.library, "lib1");
    assert!(d.entity.name.is_empty());
    d.set_entity(Entity { name: "dut".to_string(), filename: "a.vhd".to_string(), uses: Vec::new() });
    d.set_entity(Entity { name: "dut".to_string(), filename: "b.vhd".to_string(), uses: Vec::new() });
    d.add_architecture("rtl".to_string(), arch("rtl", "a.vhd"));
    d.add_architecture("rtl".to_string(), arch("rtl", "c.vhd"));
    d.add_architecture("sim".to_string(), arch("other", "s.vhd"));
    let again = lib.get_design(&"dut".to_string());
    assert_eq!(again.entity.filename, "a.vhd");
    assert_eq!(again.architectures.len(), 2);
    assert_eq!(again.architectures[0].filename, "a.vhd");
    assert_eq!(again.architectures[1].name, "sim");
    assert_eq!(lib.designs.len(), 1);
}

#[test]
fn package_keeps_first_header_and_body() {
    let mut p = Package { name: "p".to_string(), header: String::new(), body: String::new(), uses: Vec::new() };
    p.set_header(&"h1.vhd".to_string());
    p.set_header(&"h2.vhd".to_string());
    p.set_body(&"b1.vhd".to_string());
    p.set_body(&"b2.vhd".to_string());
    p.add_use(&"work.x.all".to_string());
    p.extend_uses(vec!["lib2.y.all".to_string()]);
    assert_eq!((p.header.as_str(), p.body.as_str()), ("h1.vhd", "b1.vhd"));
    assert_eq!(p.uses, vec!["work.x.all".to_string(), "lib2.y.all".to_string()]);
}

#[test]
fn library_registers_packages_modules_and_dependencies() {
    let mut lib = library("lib1");
    lib.add_package_header(&"p".to_string(), &"p.vhd".to_string(), vec!["work.q.all".to_string()]);
    lib.add_package_body(&"p".to_string(), &"p_body.vhd".to_string(), vec!["lib2.r.all".to_string()]);
    lib.add_package_body(&"s".to_string(), &"s_body.vhd".to_string(), Vec::new());
    assert!(lib.has_package(&"p".to_string()));
    assert!(!lib.has_package(&"q".to_string()));
    assert_eq!(lib.packages.len(), 2);
    assert_eq!(lib.packages[0].header, "p.vhd");
    assert_eq!(lib.packages[0].body, "p_body.vhd");
    assert_eq!(lib.packages[0].uses.len(), 2);
    assert_eq!(lib.packages[1].header, "");
    assert_eq!(lib.get_package(&"s".to_string()).body, "s_body.vhd");

    lib.add_module(&"m".to_string(), &"m1.v".to_string());
    lib.add_module(&"m".to_string(), &"m2.v".to_string());
    assert_eq!(lib.modules.len(), 1);
    assert_eq!(lib.modules[0].filename, "m2.v");

    for d in ["work", "lib1", "lib2", "lib2", "lib3"] {
        lib.add_dependency(&d.to_string());
    }
    assert_eq!(lib.depends_on_libs, vec!["lib2".to_string(), "lib3".to_string()]);
}

fn binding(label: &str, comp: &str, target: &str) -> ConfigurationInstance {
    ConfigurationInstance {
        library: "work".to_string(),
        label: label.to_string(),
        comp: comp.to_string(),
        kind: BindingKind::Entity,
        component: target.to_string(),
        uses: Vec::new(),
    }
}

#[test]
fn configuration_keys_bindings() {
    let mut conf = Configuration {
        library: "lib1".to_string(),
        name: "cfg".to_string(),
        entity: "top".to_string(),
        filename: "cfg.vhd".to_string(),
        architecture: "rtl".to_string(),
        uses: Vec::new(),
        instances: Vec::new(),
    };
    conf.add_binding(binding("all", "c", "e1"));
    conf.add_binding(binding("u1", "c", "e2"));
    conf.add_binding(binding("u1", "c", "e3"));
    assert_eq!(conf.instances.len(), 2);
    assert_eq!(conf.instances[0].key, "all@c");
    assert_eq!(conf.instances[1].key, "u1");
    assert_eq!(conf.instances[1].instance.component, "e3");

    let mut lib = library("lib1");
    let name = conf.name.clone();
    lib.add_configuration(conf);
    lib.add_configuration(Configuration {
        library: "lib1".to_string(),
        name,
        entity: "other".to_string(),
        filename: "other.vhd".to_string(),
        architecture: "rtl".to_string(),
        uses: Vec::new(),
        instances: Vec::new(),
    });
    assert_eq!(lib.configurations.len(), 1);
    assert_eq!(lib.configurations[0].filename, "cfg.vhd");
}

#[test]
fn target_names_parse() {
    let t = parse_target_name("lib_1.design_1(rtl)").unwrap();
    assert_eq!(t.library.as_deref(), Some("lib_1"));
    assert_eq!(t.unit, "design_1");
    assert_eq!(t.architecture.as_deref(), Some("rtl"));
    let t = parse_target_name("cfg_testbench_1").unwrap();
    assert!(t.library.is_none() && t.architecture.is_none());
    assert_eq!(t.unit, "cfg_testbench_1");
    let t = parse_target_name("dut ( beh )").unwrap();
    assert_eq!((t.unit.as_str(), t.architecture.as_deref()), ("dut", Some("beh")));
    assert!(parse_target_name("a.b.c").is_none());
    assert!(parse_target_name("dut(rtl) x").is_none());
    assert!(parse_target_name("(rtl)").is_none());
}

#[test]
fn use_references_split() {
    let (l, p) = split_reference("ieee.numeric_std.all").unwrap();
    assert_eq!((l.as_str(), p.as_str()), ("ieee", "numeric_std"));
    assert!(split_reference("nodot").is_none());
    assert_eq!(reference_library("lib2.all").as_deref(), Some("lib2"));
    assert!(reference_is_pair("lib2.all"));
    assert!(!reference_is_pair("lib2.pkg.all"));
}

#[test]
fn tool_language_config_starts_empty() {
    let c = ToolLangConfig::new();
    assert!(c.common.is_empty() && c.per_lib.is_empty() && c.exec_per_lib.is_empty() && !c.single_call);
}

#[test]
fn source_text_is_reduced_to_structure() {
    let input = "-- hello\nENTITY Foo IS\n  port (a : in bit);\nEND Foo;\n";
    let out = hanna::sources::pre_work_file_content(input).unwrap();
    assert_eq!(out, "\nentity foo is\n   end foo;\n");
    let lib = "library IEEE;\nuse ieee.std_logic_1164.all;\nlibrary lib2;\n";
    assert_eq!(hanna::sources::pre_work_file_content(lib).unwrap(), ";\n\nlibrary lib2;\n");
}

#[test]
fn instantiations_name_their_kind() {
    let s = |x: &str| x.to_string();
    let c = instance_of(&s("u1"), &s("fifo"), &s(""), &s(""), &s(""), &s(""));
    assert_eq!((c.kind, c.library.as_str(), c.component.as_str()), (InstanceKind::Component, "work", "fifo"));
    let e = instance_of(&s("u2"), &s(""), &s("lib2"), &s("ram(rtl)"), &s(""), &s(""));
    assert_eq!((e.kind, e.library.as_str(), e.component.as_str()), (InstanceKind::Entity, "lib2", "ram(rtl)"));
    let e = instance_of(&s("u3"), &s(""), &s(""), &s("ram"), &s(""), &s(""));
    assert_eq!(e.library, "work");
    let k = instance_of(&s("u4"), &s(""), &s(""), &s(""), &s(""), &s("cfg"));
    assert_eq!((k.kind, k.library.as_str(), k.component.as_str(), k.label.as_str()), (InstanceKind::Configuration, "work", "cfg", "u4"));
}

#[test]
fn binding_clauses_become_bindings() {
    let s = |x: &str| x.to_string();
    assert_eq!(binding_target(&s("lib2.e(rtl)"), &s("lib1")), (s("lib2"), s("e(rtl)")));
    assert_eq!(binding_target(&s("e"), &s("lib1")), (s("lib1"), s("e")));
    assert_eq!(split_labels(&s("u1 , u2,u3")), vec![s("u1"), s("u2"), s("u3")]);
    assert_eq!(split_labels(&s("all")), vec![s("all")]);
    let (kind, target) = binding_choice(&s(""), &s("work.e"), &s(""));
    assert_eq!((kind, target.as_str()), (BindingKind::Entity, "work.e"));
    assert_eq!(binding_choice(&s("open"), &s(""), &s("")).0, BindingKind::Open);
    assert_eq!(binding_choice(&s(""), &s(""), &s("c")).0, BindingKind::Configuration);
    let bs = bindings_of(&s("a, b"), &s("comp"), BindingKind::Entity, &s("lib2.e"), &s("lib1"), &vec![s("x.y.all")]);
    assert_eq!(bs.len(), 2);
    assert_eq!((bs[1].label.as_str(), bs[1].library.as_str(), bs[1].component.as_str()), ("b", "lib2", "e"));
    assert_eq!(library_clause_use(&s("lib2")), "lib2.all");
}

#[test]
fn source_bytes_decode_as_latin1() {
    let bytes: Vec<u8> = vec![0x41, 0xE9, 0x0A, 0xFF];
    assert_eq!(hanna::sources::decode_source(&bytes), "A\u{e9}\n\u{ff}");
    let vhdl = b"ENTITY Caf\xC9 IS END Caf\xC9;".to_vec();
    assert_eq!(hanna::sources::source_structure(&vhdl).unwrap(), "entity caf\u{c9} is  end caf\u{c9};");
}

#[test]
fn library_clause_keeps_its_text_lower_cased() {
    let out = hanna::sources::pre_work_file_content("Library Lib2; -- Comment\n").unwrap();
    assert_eq!(out, "library lib2; \n");
}

#[test]
fn paths_split_into_text_and_variables() {
    let pieces = hanna::paths::path_pieces("$ROOT/a_${SUB DIR}/$/x${}");
    let shown: Vec<String> = pieces
        .iter()
        .map(|p| match p {
            hanna::paths::PathPiece::Text(t) => format!("T{}", t),
            hanna::paths::PathPiece::Var(v) => format!("V{}", v),
        })
        .collect();
    let expected: Vec<&str> = vec![
        "VROOT", "T/", "Ta", "T_", "VSUB DIR", "T/", "T$", "T/", "Tx", "T$", "T{", "T}",
    ];
    assert_eq!(shown, expected);
}
