use hanna::listing::{file_lists, get_lib_name_to_use, LibraryFiles};
use hanna::model::{Architecture, Configuration, Design, Element, Entity, Library};
use hanna::order::{get_sorted_libraries, sort_names, text_less_than, OrderError};

fn library(name: &str, deps: &[&str]) -> Library {
    Library {
        name: name.to_string(),
        designs: Vec::new(),
        configurations: Vec::new(),
        packages: Vec::new(),
        modules: Vec::new(),
        depends_on_libs: deps.iter().map(|s| s.to_string()).collect(),
        ignore: false,
    }
}

fn strings(v: &[&str]) -> Vec<String> {
    v.iter().map(|s| s.to_string()).collect()
}

#[test]
fn chain_of_dependencies_is_ordered() {
    let libs = vec![library("a", &["b"]), library("b", &["c"]), library("c", &[])];
    assert_eq!(get_sorted_libraries(&libs).ok().unwrap(), strings(&["c", "b", "a"]));
}

#[test]
fn mutual_dependency_is_a_cycle() {
    let libs = vec![library("a", &["b"]), library("b", &["a"]), library("z", &[])];
    match get_sorted_libraries(&libs) {
        Err(OrderError::DependencyCycle { placed, remaining }) => {
            assert_eq!(placed, strings(&["z"]));
            assert_eq!(remaining, strings(&["a", "b"]));
        },
        Ok(_) => panic!("a cycle must not be ordered"),
    }
}

#[test]
fn rounds_are_alphabetical() {
    let libs = vec![
        library("zeta", &[]),
        library("alpha", &[]),
        library("top", &["mid2", "mid1"]),
        library("mid2", &["zeta"]),
        library("mid1", &["alpha"]),
    ];
    assert_eq!(get_sorted_libraries(&libs).ok().unwrap(), strings(&["alpha", "zeta", "mid1", "mid2", "top"]));
}

#[test]
fn unknown_and_ignored_dependencies_impose_nothing() {
    let mut ign = library("ign", &[]);
    ign.ignore = true;
    let libs = vec![library("a", &["ieee", "ign"]), ign, library("b", &["a"])];
    assert_eq!(get_sorted_libraries(&libs).ok().unwrap(), strings(&["a", "b"]));
}

#[test]
fn ignored_libraries_are_left_out() {
    let mut ign = library("ign", &[]);
    ign.ignore = true;
    let libs = vec![library("a", &[]), ign];
    assert_eq!(get_sorted_libraries(&libs).ok().unwrap(), strings(&["a"]));
    let empty: Vec<Library> = Vec::new();
    assert!(get_sorted_libraries(&empty).ok().unwrap().is_empty());
}

#[test]
fn text_order_is_by_character() {
    assert!(text_less_than("abc", "abd"));
    assert!(text_less_than("ab", "abc"));
    assert!(!text_less_than("abc", "ab"));
    assert!(!text_less_than("abc", "abc"));
    assert!(text_less_than("B", "a"));
    assert_eq!(sort_names(&strings(&["lib_b", "lib_a", "Lib_c", "lib_a"])), strings(&["Lib_c", "lib_a", "lib_a", "lib_b"]));
}

fn design(name: &str, archs: &[&str]) -> Design {
    Design {
        library: "lib1".to_string(),
        name: name.to_string(),
        entity: Entity { name: name.to_string(), filename: format!("{}.vhd", name), uses: Vec::new() },
        architectures: archs
            .iter()
            .map(|a| Architecture {
                name: a.to_string(),
                filename: format!("{}_{}.vhd", name, a),
                uses: Vec::new(),
                instances: Vec::new(),
            })
            .collect(),
    }
}

fn listing_library() -> Library {
    let mut lib = library("lib1", &[]);
    lib.designs.push(design("tb", &["sim"]));
    lib.designs.push(design("dut", &["rtl", "beh"]));
    lib.configurations.push(Configuration {
        library: "lib1".to_string(),
        name: "cfg_b".to_string(),
        entity: "tb".to_string(),
        filename: "cfg.vhd".to_string(),
        architecture: "sim".to_string(),
        uses: Vec::new(),
        instances: Vec::new(),
    });
    lib.configurations.push(Configuration {
        library: "lib1".to_string(),
        name: "cfg_a".to_string(),
        entity: "tb".to_string(),
        filename: "cfg.vhd".to_string(),
        architecture: "sim".to_string(),
        uses: Vec::new(),
        instances: Vec::new(),
    });
    lib
}

#[test]
fn list_designs_sorts_targets_then_configurations() {
    let lib = listing_library();
    assert_eq!(lib.list_designs(), strings(&["dut(beh)", "dut(rtl)", "tb(sim)", "cfg_a", "cfg_b"]));
    assert_eq!(lib.get_design_names(), strings(&["dut", "tb"]));
}

#[test]
fn ignored_library_lists_nothing() {
    let mut lib = listing_library();
    lib.ignore = true;
    assert!(lib.list_designs().is_empty());
}

fn element(lib: &str, file: &str) -> Element {
    Element { library: lib.to_string(), filename: file.to_string(), language: "vhdl".to_string() }
}

#[test]
fn file_lists_keep_first_appearance_once() {
    let elements = vec![
        element("b", "p.vhd"),
        element("a", "x.vhd"),
        element("b", "q.vhd"),
        element("b", "p.vhd"),
        element("a", "y.vhd"),
    ];
    let lists: Vec<LibraryFiles> = file_lists(&elements, &strings(&["b", "a", "c"]));
    assert_eq!(lists.len(), 3);
    assert_eq!(lists[0].library, "b");
    assert_eq!(lists[0].files, strings(&["p.vhd", "q.vhd"]));
    assert_eq!(lists[1].files, strings(&["x.vhd", "y.vhd"]));
    assert!(lists[2].files.is_empty());
}

#[test]
fn top_library_compiles_as_work_on_request() {
    let top = "lib1".to_string();
    assert_eq!(get_lib_name_to_use(&"lib1".to_string(), &top, &true), "work");
    assert_eq!(get_lib_name_to_use(&"lib1".to_string(), &top, &false), "lib1");
    assert_eq!(get_lib_name_to_use(&"lib2".to_string(), &top, &true), "lib2");
}
