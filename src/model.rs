//! The structural model: libraries, designs, configurations, packages and modules,
//! with first-wins registration of each declaration.
use vstd::prelude::*;
use crate::names::{
    contains_text, is_work, strings_view, work_name, all_key, all_name, index_of, is_all,
    lemma_index_of, lemma_index_of_absent, lemma_index_of_found, make_all_key,
};

verus! {

/// One required compilation unit.
#[derive(Debug)]
pub struct Element {
    pub library: String,
    pub filename: String,
    pub language: String,
}

/// What an element stands for: its library, file and language, as text.
pub struct ElementView {
    pub library: Seq<char>,
    pub filename: Seq<char>,
    pub language: Seq<char>,
}

impl View for Element {
    type V = ElementView;

    open spec fn view(&self) -> ElementView {
        ElementView { library: self.library@, filename: self.filename@, language: self.language@ }
    }
}

pub open spec fn vhdl_name() -> Seq<char> {
    seq!['v', 'h', 'd', 'l']
}

pub open spec fn verilog_name() -> Seq<char> {
    seq!['v', 'e', 'r', 'i', 'l', 'o', 'g']
}

pub fn vhdl_text() -> (r: String)
    ensures
        r@ == vhdl_name(),
{
    proof {
        reveal_strlit("vhdl");
    }
    let r = "vhdl".to_owned();
    assert(r@ =~= vhdl_name());
    r
}

pub fn verilog_text() -> (r: String)
    ensures
        r@ == verilog_name(),
{
    proof {
        reveal_strlit("verilog");
    }
    let r = "verilog".to_owned();
    assert(r@ =~= verilog_name());
    r
}

impl Element {
    pub fn copy(&self) -> (r: Element)
        ensures
            r@ == self@,
    {
        Element {
            library: self.library.clone(),
            filename: self.filename.clone(),
            language: self.language.clone(),
        }
    }
}

/// The interface declaration of a design.
#[derive(Debug)]
pub struct Entity {
    pub name: String,
    pub filename: String,
    pub uses: Vec<String>,
}

/// How an instantiation statement names what it instantiates.
#[derive(PartialEq, Eq, Structural, Clone, Copy, Debug)]
pub enum InstanceKind {
    Component,
    Entity,
    Configuration,
}

/// One instantiation statement inside an architecture body.
#[derive(Debug)]
pub struct Instance {
    pub label: String,
    pub library: String,
    pub kind: InstanceKind,
    pub component: String,
}

/// One implementation body of a design.
#[derive(Debug)]
pub struct Architecture {
    pub name: String,
    pub filename: String,
    pub uses: Vec<String>,
    pub instances: Vec<Instance>,
}

impl Architecture {
    pub fn add_use(&mut self, name: &String)
        ensures
            final(self).uses@ == old(self).uses@.push(*name),
            final(self).name == old(self).name,
            final(self).filename == old(self).filename,
            final(self).instances == old(self).instances,
    {
        self.uses.push(name.clone());
    }

    pub fn extend_uses(&mut self, uses: Vec<String>)
        ensures
            final(self).uses@ == old(self).uses@ + uses@,
            final(self).name == old(self).name,
            final(self).filename == old(self).filename,
            final(self).instances == old(self).instances,
    {
        let mut uses = uses;
        self.uses.append(&mut uses);
    }
}

/// What a binding indication binds an instance to.
#[derive(PartialEq, Eq, Structural, Clone, Copy, Debug)]
pub enum BindingKind {
    Open,
    Entity,
    Configuration,
}

/// One binding indication of a configuration.
#[derive(Debug)]
pub struct ConfigurationInstance {
    pub library: String,
    pub label: String,
    pub comp: String,
    pub kind: BindingKind,
    pub component: String,
    pub uses: Vec<String>,
}

/// A binding indication stored under its key: the instance label, `others`, or
/// `all@component` for a binding declared for `all`.
#[derive(Debug)]
pub struct Binding {
    pub key: String,
    pub instance: ConfigurationInstance,
}

pub open spec fn binding_key(label: Seq<char>, comp: Seq<char>) -> Seq<char> {
    if label == all_name() {
        all_key(comp)
    } else {
        label
    }
}

pub open spec fn binding_keys(bs: Seq<Binding>) -> Seq<Seq<char>> {
    bs.map_values(|b: Binding| b.key@)
}

/// A named override binding instantiated components of one design and architecture.
#[derive(Debug)]
pub struct Configuration {
    pub library: String,
    pub name: String,
    pub entity: String,
    pub filename: String,
    pub architecture: String,
    pub uses: Vec<String>,
    pub instances: Vec<Binding>,
}

impl Configuration {
    /// Registers a binding under its key; a later binding with the same key
    /// replaces the earlier one in place.
    pub fn add_binding(&mut self, inst: ConfigurationInstance)
        ensures
            ({
                let k = binding_key(inst.label@, inst.comp@);
                let i = index_of(binding_keys(old(self).instances@), k);
                &&& i >= 0 ==> final(self).instances@.len() == old(self).instances@.len()
                    && final(self).instances@[i].key@ == k
                    && final(self).instances@[i].instance == inst
                    && forall|j: int| 0 <= j < old(self).instances@.len() && j != i
                        ==> final(self).instances@[j] == old(self).instances@[j]
                &&& i < 0 ==> final(self).instances@.len() == old(self).instances@.len() + 1
                    && final(self).instances@.drop_last() == old(self).instances@
                    && final(self).instances@.last().key@ == k
                    && final(self).instances@.last().instance == inst
            }),
            final(self).library == old(self).library,
            final(self).name == old(self).name,
            final(self).entity == old(self).entity,
            final(self).filename == old(self).filename,
            final(self).architecture == old(self).architecture,
            final(self).uses == old(self).uses,
            old(self).wf() ==> final(self).wf(),
    {
        let ghost keys = binding_keys(self.instances@);
        let key = if is_all(inst.label.as_str()) {
            make_all_key(inst.comp.as_str())
        } else {
            inst.label.clone()
        };
        let found = find_binding(&self.instances, &key);
        match found {
            Some(i) => {
                proof {
                    lemma_index_of(binding_keys(self.instances@), key@);
                }
                let b = Binding { key, instance: inst };
                self.instances.set(i, b);
                assert(binding_keys(self.instances@) =~= keys);
            },
            None => {
                let ghost kv = key@;
                self.instances.push(Binding { key, instance: inst });
                assert(self.instances@.drop_last() =~= old(self).instances@);
                proof {
                    assert(binding_keys(self.instances@) =~= keys.push(kv));
                    if old(self).wf() {
                        lemma_distinct_push(keys, kv);
                    }
                }
            },
        }
    }
}

/// A reusable declarations unit with an optional separate body.
#[derive(Debug)]
pub struct Package {
    pub name: String,
    pub header: String,
    pub body: String,
    pub uses: Vec<String>,
}

impl Package {
    /// Records the header file; the first one recorded is kept.
    pub fn set_header(&mut self, filename: &String)
        ensures
            old(self).header@.len() > 0 ==> *final(self) == *old(self),
            old(self).header@.len() == 0 ==> final(self).header == *filename,
            final(self).name == old(self).name,
            final(self).body == old(self).body,
            final(self).uses == old(self).uses,
    {
        if self.header.as_str().unicode_len() > 0 {
            return;
        }
        self.header = filename.clone();
    }

    /// Records the body file; the first one recorded is kept.
    pub fn set_body(&mut self, filename: &String)
        ensures
            old(self).body@.len() > 0 ==> *final(self) == *old(self),
            old(self).body@.len() == 0 ==> final(self).body == *filename,
            final(self).name == old(self).name,
            final(self).header == old(self).header,
            final(self).uses == old(self).uses,
    {
        if self.body.as_str().unicode_len() > 0 {
            return;
        }
        self.body = filename.clone();
    }

    pub fn add_use(&mut self, name: &String)
        ensures
            final(self).uses@ == old(self).uses@.push(*name),
            final(self).name == old(self).name,
            final(self).header == old(self).header,
            final(self).body == old(self).body,
    {
        self.uses.push(name.clone());
    }

    pub fn extend_uses(&mut self, uses: Vec<String>)
        ensures
            final(self).uses@ == old(self).uses@ + uses@,
            final(self).name == old(self).name,
            final(self).header == old(self).header,
            final(self).body == old(self).body,
    {
        let mut uses = uses;
        self.uses.append(&mut uses);
    }
}

pub open spec fn architecture_names(archs: Seq<Architecture>) -> Seq<Seq<char>> {
    archs.map_values(|a: Architecture| a.name@)
}

/// An entity together with its candidate architectures.
#[derive(Debug)]
pub struct Design {
    pub library: String,
    pub name: String,
    pub entity: Entity,
    pub architectures: Vec<Architecture>,
}

impl Design {
    /// Records the entity; the first one recorded is kept.
    pub fn set_entity(&mut self, ent: Entity)
        ensures
            old(self).entity.name@.len() > 0 ==> *final(self) == *old(self),
            old(self).entity.name@.len() == 0 ==> final(self).entity == ent,
            final(self).library == old(self).library,
            final(self).name == old(self).name,
            final(self).architectures == old(self).architectures,
    {
        if self.entity.name.as_str().unicode_len() > 0 {
            return;
        }
        self.entity = ent;
    }

    /// Records an architecture under `name`; the first one of that name is kept.
    pub fn add_architecture(&mut self, name: String, arch: Architecture)
        ensures
            index_of(architecture_names(old(self).architectures@), name@) >= 0 ==> *final(self)
                == *old(self),
            index_of(architecture_names(old(self).architectures@), name@) < 0
                ==> final(self).architectures@ == old(self).architectures@.push(
                Architecture { name, ..arch },
            ),
            final(self).library == old(self).library,
            final(self).name == old(self).name,
            final(self).entity == old(self).entity,
            old(self).wf() ==> final(self).wf(),
    {
        if find_architecture(&self.architectures, &name).is_some() {
            return;
        }
        let ghost names = architecture_names(self.architectures@);
        let ghost nv = name@;
        let a = Architecture { name, ..arch };
        self.architectures.push(a);
        proof {
            assert(architecture_names(self.architectures@) =~= names.push(nv));
            if old(self).wf() {
                lemma_distinct_push(names, nv);
            }
        }
    }
}

/// A Verilog module and the file that declares it.
#[derive(Debug)]
pub struct Module {
    pub name: String,
    pub filename: String,
}

/// A named, independently compiled collection of designs, configurations,
/// packages and modules.
#[derive(Debug)]
pub struct Library {
    pub name: String,
    pub designs: Vec<Design>,
    pub configurations: Vec<Configuration>,
    pub packages: Vec<Package>,
    pub modules: Vec<Module>,
    pub depends_on_libs: Vec<String>,
    pub ignore: bool,
}

impl Library {
    /// A library named `name` with nothing in it yet.
    pub fn new(name: String, ignore: bool) -> (r: Library)
        ensures
            r.name == name,
            r.ignore == ignore,
            r.designs@.len() == 0,
            r.configurations@.len() == 0,
            r.packages@.len() == 0,
            r.modules@.len() == 0,
            r.depends_on_libs@.len() == 0,
            r.wf(),
    {
        let r = Library {
            name,
            designs: Vec::new(),
            configurations: Vec::new(),
            packages: Vec::new(),
            modules: Vec::new(),
            depends_on_libs: Vec::new(),
            ignore,
        };
        assert(design_names(r.designs@) =~= Seq::<Seq<char>>::empty());
        assert(configuration_names(r.configurations@) =~= Seq::<Seq<char>>::empty());
        assert(package_names(r.packages@) =~= Seq::<Seq<char>>::empty());
        assert(module_names(r.modules@) =~= Seq::<Seq<char>>::empty());
        assert(strings_view(r.depends_on_libs@) =~= Seq::<Seq<char>>::empty());
        r
    }

    /// The design named `name`, registered empty first when the library has none.
    pub fn get_design(&mut self, name: &String) -> (r: &mut Design)
        ensures
            ({
                let i = design_index(*old(self), name@);
                &&& i >= 0 ==> *r == old(self).designs@[i] && final(self).designs@ == old(
                    self,
                ).designs@.update(i, *final(r))
                &&& i < 0 ==> r.name == *name && r.library == old(self).name && r.entity.name@.len()
                    == 0 && r.entity.filename@.len() == 0 && r.entity.uses@.len() == 0
                    && r.architectures@.len() == 0 && final(self).designs@ == old(
                    self,
                ).designs@.push(*final(r))
            }),
            final(self).name == old(self).name,
            final(self).configurations == old(self).configurations,
            final(self).packages == old(self).packages,
            final(self).modules == old(self).modules,
            final(self).depends_on_libs == old(self).depends_on_libs,
            final(self).ignore == old(self).ignore,
            old(self).wf() && final(r).name@ == r.name@ && final(r).wf() ==> final(self).wf(),
    {
        proof {
            lemma_index_of(design_names(self.designs@), name@);
            lemma_design_names_push(self.designs@);
            if old(self).wf() && design_index(*old(self), name@) < 0 {
                lemma_distinct_push(design_names(self.designs@), name@);
            }
        }
        let i = match find_design(&self.designs, name) {
            Some(i) => i,
            None => {
                let d = Design {
                    library: self.name.clone(),
                    name: name.clone(),
                    entity: Entity { name: String::new(), filename: String::new(), uses: Vec::new() },
                    architectures: Vec::new(),
                };
                self.designs.push(d);
                self.designs.len() - 1
            },
        };
        proof {
            lemma_design_names_update(self.designs@, i as int);
        }
        &mut self.designs[i]
    }

    pub fn has_package(&self, name: &String) -> (r: bool)
        ensures
            r == (package_index(*self, name@) >= 0),
    {
        find_package(&self.packages, name).is_some()
    }

    /// The package named `name`, registered empty first when the library has none.
    pub fn get_package(&mut self, name: &String) -> (r: &mut Package)
        ensures
            ({
                let i = package_index(*old(self), name@);
                &&& i >= 0 ==> *r == old(self).packages@[i] && final(self).packages@ == old(
                    self,
                ).packages@.update(i, *final(r))
                &&& i < 0 ==> r.name == *name && r.header@.len() == 0 && r.body@.len() == 0
                    && r.uses@.len() == 0 && final(self).packages@ == old(self).packages@.push(
                    *final(r),
                )
            }),
            final(self).name == old(self).name,
            final(self).designs == old(self).designs,
            final(self).configurations == old(self).configurations,
            final(self).modules == old(self).modules,
            final(self).depends_on_libs == old(self).depends_on_libs,
            final(self).ignore == old(self).ignore,
            old(self).wf() && final(r).name@ == r.name@ ==> final(self).wf(),
    {
        proof {
            lemma_index_of(package_names(self.packages@), name@);
            lemma_package_names_push(self.packages@);
            if old(self).wf() && package_index(*old(self), name@) < 0 {
                lemma_distinct_push(package_names(self.packages@), name@);
            }
        }
        let i = match find_package(&self.packages, name) {
            Some(i) => i,
            None => {
                let p = Package { name: name.clone(), header: String::new(), body: String::new(), uses: Vec::new() };
                self.packages.push(p);
                self.packages.len() - 1
            },
        };
        proof {
            lemma_package_names_update(self.packages@, i as int);
        }
        &mut self.packages[i]
    }

    /// Records a configuration; the first one of a name is kept.
    pub fn add_configuration(&mut self, conf: Configuration)
        ensures
            configuration_index(*old(self), conf.name@) >= 0 ==> *final(self) == *old(self),
            configuration_index(*old(self), conf.name@) < 0 ==> final(self).configurations@
                == old(self).configurations@.push(conf),
            final(self).name == old(self).name,
            final(self).designs == old(self).designs,
            final(self).packages == old(self).packages,
            final(self).modules == old(self).modules,
            final(self).depends_on_libs == old(self).depends_on_libs,
            final(self).ignore == old(self).ignore,
            old(self).wf() && conf.wf() ==> final(self).wf(),
    {
        if find_configuration(&self.configurations, &conf.name).is_some() {
            return;
        }
        let ghost names = configuration_names(self.configurations@);
        let ghost nv = conf.name@;
        self.configurations.push(conf);
        proof {
            assert(configuration_names(self.configurations@) =~= names.push(nv));
            if old(self).wf() {
                lemma_distinct_push(names, nv);
            }
        }
    }

    /// Records the file of a Verilog module; a later declaration replaces an earlier one.
    pub fn add_module(&mut self, name: &String, filename: &String)
        ensures
            ({
                let i = module_index(*old(self), name@);
                &&& i >= 0 ==> final(self).modules@ == old(self).modules@.update(
                    i,
                    Module { name: old(self).modules@[i].name, filename: *filename },
                )
                &&& i < 0 ==> final(self).modules@ == old(self).modules@.push(
                    Module { name: *name, filename: *filename },
                )
            }),
            final(self).name == old(self).name,
            final(self).designs == old(self).designs,
            final(self).configurations == old(self).configurations,
            final(self).packages == old(self).packages,
            final(self).depends_on_libs == old(self).depends_on_libs,
            final(self).ignore == old(self).ignore,
            old(self).wf() ==> final(self).wf(),
    {
        let ghost names = module_names(self.modules@);
        match find_module(&self.modules, name) {
            Some(i) => {
                let m = Module { name: self.modules[i].name.clone(), filename: filename.clone() };
                self.modules.set(i, m);
                assert(module_names(self.modules@) =~= names);
            },
            None => {
                self.modules.push(Module { name: name.clone(), filename: filename.clone() });
                proof {
                    assert(module_names(self.modules@) =~= names.push(name@));
                    if old(self).wf() {
                        lemma_distinct_push(names, name@);
                    }
                }
            },
        }
    }

    /// Records that the library's sources name library `lib_name` in a library
    /// clause; neither `work`, the library itself, nor a repeat is recorded.
    pub fn add_dependency(&mut self, lib_name: &String)
        ensures
            (lib_name@ == work_name() || lib_name@ == old(self).name@ || strings_view(
                old(self).depends_on_libs@,
            ).contains(lib_name@)) ==> *final(self) == *old(self),
            !(lib_name@ == work_name() || lib_name@ == old(self).name@ || strings_view(
                old(self).depends_on_libs@,
            ).contains(lib_name@)) ==> final(self).depends_on_libs@ == old(
                self,
            ).depends_on_libs@.push(*lib_name),
            final(self).name == old(self).name,
            final(self).designs == old(self).designs,
            final(self).configurations == old(self).configurations,
            final(self).packages == old(self).packages,
            final(self).modules == old(self).modules,
            final(self).ignore == old(self).ignore,
            old(self).wf() ==> final(self).wf(),
    {
        if is_work(lib_name.as_str()) || *lib_name == self.name || contains_text(&self.depends_on_libs, lib_name) {
            return;
        }
        let ghost names = strings_view(self.depends_on_libs@);
        self.depends_on_libs.push(lib_name.clone());
        proof {
            assert(strings_view(self.depends_on_libs@) =~= names.push(lib_name@));
            if old(self).wf() {
                lemma_index_of(names, lib_name@);
                if index_of(names, lib_name@) >= 0 {
                    assert(names.contains(lib_name@));
                }
                lemma_distinct_push(names, lib_name@);
            }
        }
    }

    /// Records the header file of package `name` and adds `uses` to its uses; the
    /// first header recorded is kept.
    pub fn add_package_header(&mut self, name: &String, filename: &String, uses: Vec<String>)
        ensures
            ({
                let i = package_index(*old(self), name@);
                let j = if i >= 0 {
                    i
                } else {
                    old(self).packages@.len() as int
                };
                &&& final(self).packages@.len() == if i >= 0 {
                    old(self).packages@.len()
                } else {
                    old(self).packages@.len() + 1
                }
                &&& forall|k: int| 0 <= k < old(self).packages@.len() && k != j ==> final(self).packages@[k] == old(self).packages@[k]
                &&& final(self).packages@[j].name@ == name@
                &&& i >= 0 ==> final(self).packages@[j].body == old(self).packages@[j].body
                    && final(self).packages@[j].uses@ == old(self).packages@[j].uses@ + uses@
                    && final(self).packages@[j].header@ == if old(self).packages@[j].header@.len() > 0 {
                        old(self).packages@[j].header@
                    } else {
                        filename@
                    }
                &&& i < 0 ==> final(self).packages@[j].body@.len() == 0
                    && final(self).packages@[j].uses@ == uses@
                    && final(self).packages@[j].header@ == filename@
            }),
            final(self).name == old(self).name,
            final(self).designs == old(self).designs,
            final(self).configurations == old(self).configurations,
            final(self).modules == old(self).modules,
            final(self).depends_on_libs == old(self).depends_on_libs,
            final(self).ignore == old(self).ignore,
            old(self).wf() ==> final(self).wf(),
    {
        proof {
            lemma_index_of(package_names(self.packages@), name@);
        }
        let p = self.get_package(name);
        p.set_header(filename);
        p.extend_uses(uses);
    }

    /// Records the body file of package `name` and adds `uses` to its uses; the
    /// first body recorded is kept.
    pub fn add_package_body(&mut self, name: &String, filename: &String, uses: Vec<String>)
        ensures
            ({
                let i = package_index(*old(self), name@);
                let j = if i >= 0 {
                    i
                } else {
                    old(self).packages@.len() as int
                };
                &&& final(self).packages@.len() == if i >= 0 {
                    old(self).packages@.len()
                } else {
                    old(self).packages@.len() + 1
                }
                &&& forall|k: int| 0 <= k < old(self).packages@.len() && k != j ==> final(self).packages@[k] == old(self).packages@[k]
                &&& final(self).packages@[j].name@ == name@
                &&& i >= 0 ==> final(self).packages@[j].header == old(self).packages@[j].header
                    && final(self).packages@[j].uses@ == old(self).packages@[j].uses@ + uses@
                    && final(self).packages@[j].body@ == if old(self).packages@[j].body@.len() > 0 {
                        old(self).packages@[j].body@
                    } else {
                        filename@
                    }
                &&& i < 0 ==> final(self).packages@[j].header@.len() == 0
                    && final(self).packages@[j].uses@ == uses@
                    && final(self).packages@[j].body@ == filename@
            }),
            final(self).name == old(self).name,
            final(self).designs == old(self).designs,
            final(self).configurations == old(self).configurations,
            final(self).modules == old(self).modules,
            final(self).depends_on_libs == old(self).depends_on_libs,
            final(self).ignore == old(self).ignore,
            old(self).wf() ==> final(self).wf(),
    {
        proof {
            lemma_index_of(package_names(self.packages@), name@);
        }
        let p = self.get_package(name);
        p.set_body(filename);
        p.extend_uses(uses);
    }
}

pub open spec fn library_names(libs: Seq<Library>) -> Seq<Seq<char>> {
    libs.map_values(|l: Library| l.name@)
}

pub open spec fn design_names(ds: Seq<Design>) -> Seq<Seq<char>> {
    ds.map_values(|d: Design| d.name@)
}

pub open spec fn configuration_names(cs: Seq<Configuration>) -> Seq<Seq<char>> {
    cs.map_values(|c: Configuration| c.name@)
}

pub open spec fn package_names(ps: Seq<Package>) -> Seq<Seq<char>> {
    ps.map_values(|p: Package| p.name@)
}

pub open spec fn module_names(ms: Seq<Module>) -> Seq<Seq<char>> {
    ms.map_values(|m: Module| m.name@)
}

/// Index of the library named `n` in `libs`, or -1.
pub open spec fn lib_index(libs: Seq<Library>, n: Seq<char>) -> int {
    index_of(library_names(libs), n)
}

pub open spec fn design_index(lib: Library, n: Seq<char>) -> int {
    index_of(design_names(lib.designs@), n)
}

pub open spec fn configuration_index(lib: Library, n: Seq<char>) -> int {
    index_of(configuration_names(lib.configurations@), n)
}

pub open spec fn package_index(lib: Library, n: Seq<char>) -> int {
    index_of(package_names(lib.packages@), n)
}

pub open spec fn module_index(lib: Library, n: Seq<char>) -> int {
    index_of(module_names(lib.modules@), n)
}

pub open spec fn arch_index(d: Design, n: Seq<char>) -> int {
    index_of(architecture_names(d.architectures@), n)
}

/// No name occurs twice.
pub open spec fn distinct(names: Seq<Seq<char>>) -> bool {
    forall|i: int, j: int| 0 <= i < j < names.len() ==> names[i] != names[j]
}

pub proof fn lemma_distinct_push(names: Seq<Seq<char>>, n: Seq<char>)
    requires
        distinct(names),
        index_of(names, n) < 0,
    ensures
        distinct(names.push(n)),
{
    lemma_index_of(names, n);
    assert forall|i: int, j: int| 0 <= i < j < names.push(n).len() implies names.push(n)[i] != names.push(n)[j] by {
        if j == names.len() {
            assert(names.push(n)[i] == names[i]);
        } else {
            assert(names.push(n)[i] == names[i]);
            assert(names.push(n)[j] == names[j]);
        }
    }
}

proof fn lemma_design_names_update(ds: Seq<Design>, i: int)
    requires
        0 <= i < ds.len(),
    ensures
        forall|x: Design| x.name@ == ds[i].name@ ==> #[trigger] design_names(ds.update(i, x)) == design_names(ds),
{
    assert forall|x: Design| x.name@ == ds[i].name@ implies #[trigger] design_names(ds.update(i, x)) == design_names(ds) by {
        assert(design_names(ds.update(i, x)) =~= design_names(ds));
    }
}

proof fn lemma_design_names_push(ds: Seq<Design>)
    ensures
        forall|x: Design| #[trigger] design_names(ds.push(x)) == design_names(ds).push(x.name@),
{
    assert forall|x: Design| #[trigger] design_names(ds.push(x)) == design_names(ds).push(x.name@) by {
        assert(design_names(ds.push(x)) =~= design_names(ds).push(x.name@));
    }
}

proof fn lemma_package_names_update(ps: Seq<Package>, i: int)
    requires
        0 <= i < ps.len(),
    ensures
        forall|x: Package| x.name@ == ps[i].name@ ==> #[trigger] package_names(ps.update(i, x)) == package_names(ps),
{
    assert forall|x: Package| x.name@ == ps[i].name@ implies #[trigger] package_names(ps.update(i, x)) == package_names(ps) by {
        assert(package_names(ps.update(i, x)) =~= package_names(ps));
    }
}

proof fn lemma_package_names_push(ps: Seq<Package>)
    ensures
        forall|x: Package| #[trigger] package_names(ps.push(x)) == package_names(ps).push(x.name@),
{
    assert forall|x: Package| #[trigger] package_names(ps.push(x)) == package_names(ps).push(x.name@) by {
        assert(package_names(ps.push(x)) =~= package_names(ps).push(x.name@));
    }
}

impl Design {
    /// Architecture names are unique.
    pub open spec fn wf(&self) -> bool {
        distinct(architecture_names(self.architectures@))
    }
}

impl Configuration {
    /// Binding keys are unique.
    pub open spec fn wf(&self) -> bool {
        distinct(binding_keys(self.instances@))
    }
}

impl Library {
    /// Every name is unique within its collection, and every design and
    /// configuration is well formed.
    pub open spec fn wf(&self) -> bool {
        &&& distinct(design_names(self.designs@))
        &&& distinct(configuration_names(self.configurations@))
        &&& distinct(package_names(self.packages@))
        &&& distinct(module_names(self.modules@))
        &&& distinct(strings_view(self.depends_on_libs@))
        &&& forall|i: int| 0 <= i < self.designs@.len() ==> #[trigger] self.designs@[i].wf()
        &&& forall|i: int| 0 <= i < self.configurations@.len() ==> #[trigger] self.configurations@[i].wf()
    }
}

/// How a lookup result relates to the index that the model's lookup gives.
pub open spec fn found_at(r: Option<usize>, idx: int) -> bool {
    match r {
        Some(i) => i as int == idx,
        None => idx < 0,
    }
}

pub fn find_library(libs: &Vec<Library>, n: &String) -> (r: Option<usize>)
    ensures
        found_at(r, lib_index(libs@, n@)),
        r is Some ==> r->Some_0 < libs.len(),
{
    let mut i: usize = 0;
    while i < libs.len()
        invariant
            i <= libs.len(),
            forall|k: int| 0 <= k < i ==> library_names(libs@)[k] != n@,
        decreases libs.len() - i,
    {
        if libs[i].name == *n {
            proof {
                lemma_index_of_found(library_names(libs@), n@, i as int);
            }
            return Some(i);
        }
        i = i + 1;
    }
    proof {
        lemma_index_of_absent(library_names(libs@), n@);
    }
    None
}

pub fn find_design(ds: &Vec<Design>, n: &String) -> (r: Option<usize>)
    ensures
        found_at(r, index_of(design_names(ds@), n@)),
        r is Some ==> r->Some_0 < ds.len(),
{
    let mut i: usize = 0;
    while i < ds.len()
        invariant
            i <= ds.len(),
            forall|k: int| 0 <= k < i ==> design_names(ds@)[k] != n@,
        decreases ds.len() - i,
    {
        if ds[i].name == *n {
            proof {
                lemma_index_of_found(design_names(ds@), n@, i as int);
            }
            return Some(i);
        }
        i = i + 1;
    }
    proof {
        lemma_index_of_absent(design_names(ds@), n@);
    }
    None
}

pub fn find_configuration(cs: &Vec<Configuration>, n: &String) -> (r: Option<usize>)
    ensures
        found_at(r, index_of(configuration_names(cs@), n@)),
        r is Some ==> r->Some_0 < cs.len(),
{
    let mut i: usize = 0;
    while i < cs.len()
        invariant
            i <= cs.len(),
            forall|k: int| 0 <= k < i ==> configuration_names(cs@)[k] != n@,
        decreases cs.len() - i,
    {
        if cs[i].name == *n {
            proof {
                lemma_index_of_found(configuration_names(cs@), n@, i as int);
            }
            return Some(i);
        }
        i = i + 1;
    }
    proof {
        lemma_index_of_absent(configuration_names(cs@), n@);
    }
    None
}

pub fn find_package(ps: &Vec<Package>, n: &String) -> (r: Option<usize>)
    ensures
        found_at(r, index_of(package_names(ps@), n@)),
        r is Some ==> r->Some_0 < ps.len(),
{
    let mut i: usize = 0;
    while i < ps.len()
        invariant
            i <= ps.len(),
            forall|k: int| 0 <= k < i ==> package_names(ps@)[k] != n@,
        decreases ps.len() - i,
    {
        if ps[i].name == *n {
            proof {
                lemma_index_of_found(package_names(ps@), n@, i as int);
            }
            return Some(i);
        }
        i = i + 1;
    }
    proof {
        lemma_index_of_absent(package_names(ps@), n@);
    }
    None
}

pub fn find_module(ms: &Vec<Module>, n: &String) -> (r: Option<usize>)
    ensures
        found_at(r, index_of(module_names(ms@), n@)),
        r is Some ==> r->Some_0 < ms.len(),
{
    let mut i: usize = 0;
    while i < ms.len()
        invariant
            i <= ms.len(),
            forall|k: int| 0 <= k < i ==> module_names(ms@)[k] != n@,
        decreases ms.len() - i,
    {
        if ms[i].name == *n {
            proof {
                lemma_index_of_found(module_names(ms@), n@, i as int);
            }
            return Some(i);
        }
        i = i + 1;
    }
    proof {
        lemma_index_of_absent(module_names(ms@), n@);
    }
    None
}

pub fn find_architecture(archs: &Vec<Architecture>, n: &String) -> (r: Option<usize>)
    ensures
        found_at(r, index_of(architecture_names(archs@), n@)),
        r is Some ==> r->Some_0 < archs.len(),
{
    let mut i: usize = 0;
    while i < archs.len()
        invariant
            i <= archs.len(),
            forall|k: int| 0 <= k < i ==> architecture_names(archs@)[k] != n@,
        decreases archs.len() - i,
    {
        if archs[i].name == *n {
            proof {
                lemma_index_of_found(architecture_names(archs@), n@, i as int);
            }
            return Some(i);
        }
        i = i + 1;
    }
    proof {
        lemma_index_of_absent(architecture_names(archs@), n@);
    }
    None
}

pub fn find_binding(bs: &Vec<Binding>, n: &String) -> (r: Option<usize>)
    ensures
        found_at(r, index_of(binding_keys(bs@), n@)),
        r is Some ==> r->Some_0 < bs.len(),
{
    let mut i: usize = 0;
    while i < bs.len()
        invariant
            i <= bs.len(),
            forall|k: int| 0 <= k < i ==> binding_keys(bs@)[k] != n@,
        decreases bs.len() - i,
    {
        if bs[i].key == *n {
            proof {
                lemma_index_of_found(binding_keys(bs@), n@, i as int);
            }
            return Some(i);
        }
        i = i + 1;
    }
    proof {
        lemma_index_of_absent(binding_keys(bs@), n@);
    }
    None
}

} // verus!
