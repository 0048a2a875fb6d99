//! What a resolution produces: the ordered elements, the non-fatal diagnostics
//! met on the way, or the fatal error that stopped it.
use vstd::prelude::*;
use crate::model::{Element, ElementView};
use crate::names::strings_view;

verus! {

/// A non-fatal finding: the branch it concerns contributes nothing further, and
/// resolution of its siblings goes on.
#[derive(Debug)]
pub enum Diagnostic {
    UnresolvedDesign { library: String, name: String },
    UnresolvedArchitecture { design: String, architecture: String },
    EmptyDesign { design: String },
    AmbiguousDesign { design: String, architectures: Vec<String> },
    UnknownLibrary { library: String },
    UnresolvedInstance { label: String, library: String },
}

pub enum DiagnosticView {
    UnresolvedDesign { library: Seq<char>, name: Seq<char> },
    UnresolvedArchitecture { design: Seq<char>, architecture: Seq<char> },
    EmptyDesign { design: Seq<char> },
    AmbiguousDesign { design: Seq<char>, architectures: Seq<Seq<char>> },
    UnknownLibrary { library: Seq<char> },
    UnresolvedInstance { label: Seq<char>, library: Seq<char> },
}

impl View for Diagnostic {
    type V = DiagnosticView;

    open spec fn view(&self) -> DiagnosticView {
        match self {
            Diagnostic::UnresolvedDesign { library, name } => DiagnosticView::UnresolvedDesign {
                library: library@,
                name: name@,
            },
            Diagnostic::UnresolvedArchitecture {
                design,
                architecture,
            } => DiagnosticView::UnresolvedArchitecture {
                design: design@,
                architecture: architecture@,
            },
            Diagnostic::EmptyDesign { design } => DiagnosticView::EmptyDesign { design: design@ },
            Diagnostic::AmbiguousDesign {
                design,
                architectures,
            } => DiagnosticView::AmbiguousDesign {
                design: design@,
                architectures: strings_view(architectures@),
            },
            Diagnostic::UnknownLibrary { library } => DiagnosticView::UnknownLibrary {
                library: library@,
            },
            Diagnostic::UnresolvedInstance { label, library } => DiagnosticView::UnresolvedInstance {
                label: label@,
                library: library@,
            },
        }
    }
}

/// A condition that aborts the whole resolution.
#[derive(Debug)]
pub enum ResolveError {
    UnknownLibrary(String),
    UnparsableName(String),
    CycleDetected { library: String, name: String },
    TooDeep { library: String, name: String },
}

pub enum ResolveErrorView {
    UnknownLibrary(Seq<char>),
    UnparsableName(Seq<char>),
    CycleDetected { library: Seq<char>, name: Seq<char> },
    TooDeep { library: Seq<char>, name: Seq<char> },
}

impl View for ResolveError {
    type V = ResolveErrorView;

    open spec fn view(&self) -> ResolveErrorView {
        match self {
            ResolveError::UnknownLibrary(l) => ResolveErrorView::UnknownLibrary(l@),
            ResolveError::UnparsableName(n) => ResolveErrorView::UnparsableName(n@),
            ResolveError::CycleDetected { library, name } => ResolveErrorView::CycleDetected {
                library: library@,
                name: name@,
            },
            ResolveError::TooDeep { library, name } => ResolveErrorView::TooDeep {
                library: library@,
                name: name@,
            },
        }
    }
}

/// The elements and diagnostics of a resolution, in the order they arose.
pub struct Trace {
    pub elements: Seq<ElementView>,
    pub diagnostics: Seq<DiagnosticView>,
}

pub open spec fn cat(a: Trace, b: Trace) -> Trace {
    Trace { elements: a.elements + b.elements, diagnostics: a.diagnostics + b.diagnostics }
}

pub open spec fn empty_trace() -> Trace {
    Trace { elements: Seq::empty(), diagnostics: Seq::empty() }
}

pub type Outcome = Result<Trace, ResolveErrorView>;

/// `a`, then `b`; the first fatal error wins.
pub open spec fn then(a: Outcome, b: Outcome) -> Outcome {
    match a {
        Err(e) => Err(e),
        Ok(x) => match b {
            Err(e) => Err(e),
            Ok(y) => Ok(cat(x, y)),
        },
    }
}

pub open spec fn done() -> Outcome {
    Ok(empty_trace())
}

pub open spec fn emit(e: ElementView) -> Outcome {
    Ok(Trace { elements: seq![e], diagnostics: Seq::empty() })
}

pub open spec fn note(d: DiagnosticView) -> Outcome {
    Ok(Trace { elements: Seq::empty(), diagnostics: seq![d] })
}

pub broadcast proof fn lemma_cat_assoc(a: Trace, b: Trace, c: Trace)
    ensures
        #[trigger] cat(cat(a, b), c) == cat(a, cat(b, c)),
{
    assert(cat(cat(a, b), c).elements =~= cat(a, cat(b, c)).elements);
    assert(cat(cat(a, b), c).diagnostics =~= cat(a, cat(b, c)).diagnostics);
}

pub broadcast proof fn lemma_cat_empty(a: Trace)
    ensures
        #[trigger] cat(a, empty_trace()) == a,
        cat(empty_trace(), a) == a,
{
    assert(cat(a, empty_trace()).elements =~= a.elements);
    assert(cat(a, empty_trace()).diagnostics =~= a.diagnostics);
    assert(cat(empty_trace(), a).elements =~= a.elements);
    assert(cat(empty_trace(), a).diagnostics =~= a.diagnostics);
}

pub broadcast group group_trace {
    lemma_cat_assoc,
    lemma_cat_empty,
}

/// Whether a step that appended to a resolution in progress matches the outcome `o`:
/// on success the trace grew by exactly what `o` holds, on failure the error is `o`'s.
pub open spec fn appended(r: Result<(), ResolveError>, before: Trace, after: Trace, o: Outcome) -> bool {
    match o {
        Ok(t) => r is Ok && after == cat(before, t),
        Err(e) => r is Err && r->Err_0@ == e,
    }
}

/// Whether a finished resolution matches the outcome `o`.
pub open spec fn delivers(r: Result<Resolution, ResolveError>, o: Outcome) -> bool {
    match o {
        Ok(t) => r is Ok && r->Ok_0@ == t,
        Err(e) => r is Err && r->Err_0@ == e,
    }
}

/// The ordered, possibly repeated, elements a target needs, and the diagnostics met.
#[derive(Debug)]
pub struct Resolution {
    pub elements: Vec<Element>,
    pub diagnostics: Vec<Diagnostic>,
}

impl View for Resolution {
    type V = Trace;

    open spec fn view(&self) -> Trace {
        Trace {
            elements: self.elements@.map_values(|e: Element| e@),
            diagnostics: self.diagnostics@.map_values(|d: Diagnostic| d@),
        }
    }
}

impl Resolution {
    pub fn new() -> (r: Resolution)
        ensures
            r@ == empty_trace(),
    {
        let r = Resolution { elements: Vec::new(), diagnostics: Vec::new() };
        assert(r@.elements =~= Seq::<ElementView>::empty());
        assert(r@.diagnostics =~= Seq::<DiagnosticView>::empty());
        r
    }

    pub fn push_element(&mut self, e: Element)
        ensures
            Ok::<Trace, ResolveErrorView>(final(self)@) == then(Ok(old(self)@), emit(e@)),
    {
        let ghost before = self@;
        self.elements.push(e);
        assert(self@.elements =~= before.elements + seq![e@]);
        assert(self@.diagnostics =~= before.diagnostics + Seq::<DiagnosticView>::empty());
    }

    pub fn push_diagnostic(&mut self, d: Diagnostic)
        ensures
            Ok::<Trace, ResolveErrorView>(final(self)@) == then(Ok(old(self)@), note(d@)),
    {
        let ghost before = self@;
        self.diagnostics.push(d);
        assert(self@.elements =~= before.elements + Seq::<ElementView>::empty());
        assert(self@.diagnostics =~= before.diagnostics + seq![d@]);
    }
}

} // verus!
