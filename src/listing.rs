//! What a library offers as targets, and the per-library file lists that a
//! resolution amounts to.
use vstd::prelude::*;
use crate::model::{
    architecture_names, configuration_names, design_names, Design, Element, ElementView, Library,
};
use crate::names::{contains_text, make_qualified, qualified, strings_view, work_name};
use crate::order::{sort_names, sort_texts};

verus! {

/// `design(architecture)` for every architecture of every design, design by design.
pub open spec fn design_targets(ds: Seq<Design>) -> Seq<Seq<char>>
    decreases ds.len(),
{
    if ds.len() == 0 {
        Seq::empty()
    } else {
        design_targets(ds.drop_last()) + architecture_names(ds.last().architectures@).map_values(
            |a: Seq<char>| qualified(ds.last().name@, a),
        )
    }
}

/// Every `design(architecture)` of the library, sorted, then every configuration
/// name, sorted; nothing for an ignored library.
pub open spec fn targets_of(lib: Library) -> Seq<Seq<char>> {
    if lib.ignore {
        Seq::empty()
    } else {
        sort_texts(design_targets(lib.designs@)) + sort_texts(configuration_names(lib.configurations@))
    }
}

impl Library {
    /// The names of the library's designs, sorted.
    pub fn get_design_names(&self) -> (r: Vec<String>)
        ensures
            strings_view(r@) == sort_texts(design_names(self.designs@)),
    {
        let mut names: Vec<String> = Vec::new();
        let mut i: usize = 0;
        while i < self.designs.len()
            invariant
                i <= self.designs.len(),
                names@.len() == i,
                forall|k: int| 0 <= k < i ==> names@[k]@ == self.designs@[k].name@,
            decreases self.designs.len() - i,
        {
            names.push(self.designs[i].name.clone());
            i = i + 1;
        }
        assert(strings_view(names@) =~= design_names(self.designs@));
        sort_names(&names)
    }

    /// The targets the library offers, as `targets_of` states.
    pub fn list_designs(&self) -> (r: Vec<String>)
        ensures
            strings_view(r@) == targets_of(*self),
    {
        if self.ignore {
            let r: Vec<String> = Vec::new();
            assert(strings_view(r@) =~= Seq::<Seq<char>>::empty());
            return r;
        }
        let mut designs: Vec<String> = Vec::new();
        let mut i: usize = 0;
        assert(self.designs@.subrange(0, 0) =~= Seq::<Design>::empty());
        assert(strings_view(designs@) =~= Seq::<Seq<char>>::empty());
        while i < self.designs.len()
            invariant
                i <= self.designs.len(),
                strings_view(designs@) == design_targets(self.designs@.subrange(0, i as int)),
            decreases self.designs.len() - i,
        {
            let d = &self.designs[i];
            let ghost before = strings_view(designs@);
            let ghost ext = architecture_names(d.architectures@).map_values(|a: Seq<char>| qualified(d.name@, a));
            let mut j: usize = 0;
            while j < d.architectures.len()
                invariant
                    j <= d.architectures.len(),
                    ext == architecture_names(d.architectures@).map_values(|a: Seq<char>| qualified(d.name@, a)),
                    ext.len() == d.architectures@.len(),
                    strings_view(designs@) == before + ext.subrange(0, j as int),
                decreases d.architectures.len() - j,
            {
                let ghost b0 = strings_view(designs@);
                assert(architecture_names(d.architectures@)[j as int] == d.architectures@[j as int].name@);
                assert(ext[j as int] == qualified(d.name@, d.architectures@[j as int].name@));
                let q = make_qualified(d.name.as_str(), d.architectures[j].name.as_str());
                let ghost qv = q@;
                designs.push(q);
                assert(strings_view(designs@) =~= b0.push(qv));
                assert(ext.subrange(0, j + 1) =~= ext.subrange(0, j as int).push(ext[j as int]));
                j = j + 1;
                assert(strings_view(designs@) =~= before + ext.subrange(0, j as int));
            }
            assert(ext.subrange(0, j as int) =~= ext);
            i = i + 1;
            assert(self.designs@.subrange(0, i as int).drop_last() =~= self.designs@.subrange(0, i - 1));
        }
        assert(self.designs@.subrange(0, self.designs.len() as int) =~= self.designs@);
        let mut sorted = sort_names(&designs);
        let mut configs: Vec<String> = Vec::new();
        let mut k: usize = 0;
        while k < self.configurations.len()
            invariant
                k <= self.configurations.len(),
                configs@.len() == k,
                forall|m: int| 0 <= m < k ==> configs@[m]@ == self.configurations@[m].name@,
            decreases self.configurations.len() - k,
        {
            configs.push(self.configurations[k].name.clone());
            k = k + 1;
        }
        assert(strings_view(configs@) =~= configuration_names(self.configurations@));
        let mut sorted_configs = sort_names(&configs);
        let ghost s1 = strings_view(sorted@);
        let ghost s2 = strings_view(sorted_configs@);
        sorted.append(&mut sorted_configs);
        assert(strings_view(sorted@) =~= s1 + s2);
        sorted
    }
}

/// The files of library `lib` among the elements, in order of first appearance,
/// each once.
pub open spec fn files_of(es: Seq<ElementView>, lib: Seq<char>) -> Seq<Seq<char>>
    decreases es.len(),
{
    if es.len() == 0 {
        Seq::empty()
    } else {
        let r = files_of(es.drop_last(), lib);
        let e = es.last();
        if e.library == lib && !r.contains(e.filename) {
            r.push(e.filename)
        } else {
            r
        }
    }
}

/// The files to compile into one library, in compile order.
#[derive(Debug)]
pub struct LibraryFiles {
    pub library: String,
    pub files: Vec<String>,
}

/// The files of library `lib` among `elements`, as `files_of` states.
pub fn files_for_library(elements: &Vec<Element>, lib: &String) -> (r: Vec<String>)
    ensures
        strings_view(r@) == files_of(elements@.map_values(|e: Element| e@), lib@),
{
    let ghost es = elements@.map_values(|e: Element| e@);
    let mut files: Vec<String> = Vec::new();
    let mut i: usize = 0;
    assert(es.subrange(0, 0) =~= Seq::<ElementView>::empty());
    assert(strings_view(files@) =~= Seq::<Seq<char>>::empty());
    while i < elements.len()
        invariant
            i <= elements.len(),
            es == elements@.map_values(|e: Element| e@),
            strings_view(files@) == files_of(es.subrange(0, i as int), lib@),
        decreases elements.len() - i,
    {
        let e = &elements[i];
        let ghost pre = es.subrange(0, i as int);
        if e.library == *lib && !contains_text(&files, &e.filename) {
            let ghost f0 = files@;
            files.push(e.filename.clone());
            assert(strings_view(files@) =~= strings_view(f0).push(e.filename@));
        }
        i = i + 1;
        assert(es.subrange(0, i as int).drop_last() =~= pre);
    }
    assert(es.subrange(0, elements.len() as int) =~= es);
    files
}

/// For each library of `lib_order`, in that order, its files among `elements`.
pub fn file_lists(elements: &Vec<Element>, lib_order: &Vec<String>) -> (r: Vec<LibraryFiles>)
    ensures
        r@.len() == lib_order@.len(),
        forall|k: int|
            0 <= k < r@.len() ==> (#[trigger] r@[k]).library@ == lib_order@[k]@ && strings_view(r@[k].files@)
                == files_of(elements@.map_values(|e: Element| e@), lib_order@[k]@),
{
    let mut r: Vec<LibraryFiles> = Vec::new();
    let mut k: usize = 0;
    while k < lib_order.len()
        invariant
            k <= lib_order.len(),
            r@.len() == k,
            forall|m: int|
                0 <= m < k ==> (#[trigger] r@[m]).library@ == lib_order@[m]@ && strings_view(r@[m].files@)
                    == files_of(elements@.map_values(|e: Element| e@), lib_order@[m]@),
        decreases lib_order.len() - k,
    {
        let files = files_for_library(elements, &lib_order[k]);
        r.push(LibraryFiles { library: lib_order[k].clone(), files });
        k = k + 1;
    }
    r
}

/// The elements in language `language`, in order.
pub open spec fn in_language(es: Seq<ElementView>, language: Seq<char>) -> Seq<ElementView>
    decreases es.len(),
{
    if es.len() == 0 {
        Seq::empty()
    } else {
        let r = in_language(es.drop_last(), language);
        if es.last().language == language {
            r.push(es.last())
        } else {
            r
        }
    }
}

/// Copies of the elements in language `language`, as `in_language` states.
pub fn elements_in_language(elements: &Vec<Element>, language: &String) -> (r: Vec<Element>)
    ensures
        r@.map_values(|e: Element| e@) == in_language(elements@.map_values(|e: Element| e@), language@),
{
    let ghost es = elements@.map_values(|e: Element| e@);
    let mut r: Vec<Element> = Vec::new();
    let mut i: usize = 0;
    assert(es.subrange(0, 0) =~= Seq::<ElementView>::empty());
    assert(r@.map_values(|e: Element| e@) =~= Seq::<ElementView>::empty());
    while i < elements.len()
        invariant
            i <= elements.len(),
            es == elements@.map_values(|e: Element| e@),
            r@.map_values(|e: Element| e@) == in_language(es.subrange(0, i as int), language@),
        decreases elements.len() - i,
    {
        let ghost pre = es.subrange(0, i as int);
        let e = &elements[i];
        if e.language == *language {
            let ghost r0 = r@;
            let c = e.copy();
            r.push(c);
            assert(r@.map_values(|x: Element| x@) =~= r0.map_values(|x: Element| x@).push(es[i as int]));
        }
        i = i + 1;
        assert(es.subrange(0, i as int).drop_last() =~= pre);
    }
    assert(es.subrange(0, elements.len() as int) =~= es);
    r
}

/// The name under which a library is compiled: `work` for the top library when
/// `use_work` is set, else its own name.
pub fn get_lib_name_to_use(lib_name: &String, top_lib_name: &String, use_work: &bool) -> (r: String)
    ensures
        r@ == if *use_work && lib_name@ == top_lib_name@ {
            work_name()
        } else {
            lib_name@
        },
{
    if *use_work && *lib_name == *top_lib_name {
        proof {
            reveal_strlit("work");
        }
        let r = "work".to_owned();
        assert(r@ =~= work_name());
        r
    } else {
        lib_name.clone()
    }
}

/// Compiler options of one language.
#[derive(Debug)]
pub struct ToolLangConfig {
    pub common: Vec<String>,
    pub per_lib: Vec<String>,
    pub single_call: bool,
    pub exec_per_lib: Vec<String>,
}

impl ToolLangConfig {
    pub fn new() -> (r: ToolLangConfig)
        ensures
            r.common@.len() == 0,
            r.per_lib@.len() == 0,
            !r.single_call,
            r.exec_per_lib@.len() == 0,
    {
        ToolLangConfig { common: Vec::new(), per_lib: Vec::new(), single_call: false, exec_per_lib: Vec::new() }
    }
}

/// How the compiler is called: common options, options per language, commands
/// around the calls, and text replacements.
#[derive(Debug)]
pub struct ToolConfig {
    pub common: Vec<String>,
    pub lang_configs: Vec<(String, ToolLangConfig)>,
    pub exec_before: Vec<String>,
    pub exec_after: Vec<String>,
    pub exec_per_lib: Vec<String>,
    pub replacement: Vec<(String, String)>,
}

} // verus!
