//! References to environment variables in configured paths: `$NAME` and
//! `${NAME}`. The library splits a path into literal characters and variable
//! names; the caller looks the names up.
use vstd::prelude::*;
use vstd::string::*;
use crate::names::{lemma_word_end_bounds, scan_word, word_end};

verus! {

/// A piece of a path: literal text, or the name of a variable to put in its place.
#[derive(Debug)]
pub enum PathPiece {
    Text(String),
    Var(String),
}

pub enum PathPieceView {
    Text(Seq<char>),
    Var(Seq<char>),
}

impl View for PathPiece {
    type V = PathPieceView;

    open spec fn view(&self) -> PathPieceView {
        match self {
            PathPiece::Text(t) => PathPieceView::Text(t@),
            PathPiece::Var(v) => PathPieceView::Var(v@),
        }
    }
}

/// First index at or after `i` that holds `}`, or the length.
pub open spec fn brace_end(s: Seq<char>, i: int) -> int
    decreases s.len() - i,
{
    if 0 <= i < s.len() && s[i] != '}' {
        brace_end(s, i + 1)
    } else {
        i
    }
}

proof fn lemma_brace_end_bounds(s: Seq<char>, i: int)
    requires
        0 <= i <= s.len(),
    ensures
        i <= brace_end(s, i) <= s.len(),
        brace_end(s, i) < s.len() ==> s[brace_end(s, i)] == '}',
    decreases s.len() - i,
{
    if i < s.len() && s[i] != '}' {
        lemma_brace_end_bounds(s, i + 1);
    }
}

/// The pieces of `s` from `i` on: `$` followed by a word names that variable;
/// `${` followed by at least one character and a `}` names the variable between
/// the braces; every other character is literal text of its own.
pub open spec fn pieces_at(s: Seq<char>, i: int) -> Seq<PathPieceView>
    decreases s.len() - i,
{
    if i < 0 || i >= s.len() {
        Seq::empty()
    } else if s[i] == '$' && i + 1 < word_end(s, i + 1) <= s.len() {
        let e = word_end(s, i + 1);
        seq![PathPieceView::Var(s.subrange(i + 1, e))] + pieces_at(s, e)
    } else if s[i] == '$' && i + 1 < s.len() && s[i + 1] == '{' && i + 2 < brace_end(s, i + 2) < s.len() {
        let e = brace_end(s, i + 2);
        seq![PathPieceView::Var(s.subrange(i + 2, e))] + pieces_at(s, e + 1)
    } else {
        seq![PathPieceView::Text(s.subrange(i, i + 1))] + pieces_at(s, i + 1)
    }
}

pub open spec fn pieces_view(v: Seq<PathPiece>) -> Seq<PathPieceView> {
    v.map_values(|p: PathPiece| p@)
}

/// The pieces of a path, as `pieces_at` states from its start.
pub fn path_pieces(path: &str) -> (r: Vec<PathPiece>)
    ensures
        pieces_view(r@) == pieces_at(path@, 0),
{
    let n = path.unicode_len();
    let mut r: Vec<PathPiece> = Vec::new();
    let mut i: usize = 0;
    assert(pieces_view(r@) =~= Seq::<PathPieceView>::empty());
    while i < n
        invariant
            n == path@.len(),
            i <= n,
            pieces_view(r@) + pieces_at(path@, i as int) == pieces_at(path@, 0),
        decreases n - i,
    {
        let ghost s = path@;
        let ghost r0 = pieces_view(r@);
        let c = path.get_char(i);
        let mut next: usize = i + 1;
        let mut done = false;
        if c == '$' {
            let e = scan_word(path, n, i + 1);
            proof {
                lemma_word_end_bounds(s, i + 1);
            }
            if e > i + 1 {
                let piece = PathPiece::Var(path.substring_char(i + 1, e).to_owned());
                let ghost pv = piece@;
                r.push(piece);
                assert(pieces_view(r@) =~= r0.push(pv));
                next = e;
                done = true;
            } else if i + 1 < n && path.get_char(i + 1) == '{' {
                let mut b: usize = i + 2;
                while b < n && path.get_char(b) != '}'
                    invariant
                        n == path@.len(),
                        i + 2 <= b <= n,
                        brace_end(path@, b as int) == brace_end(path@, i + 2),
                    decreases n - b,
                {
                    b = b + 1;
                }
                proof {
                    lemma_brace_end_bounds(s, i + 2);
                }
                if b > i + 2 && b < n {
                    let piece = PathPiece::Var(path.substring_char(i + 2, b).to_owned());
                    let ghost pv = piece@;
                    r.push(piece);
                    assert(pieces_view(r@) =~= r0.push(pv));
                    next = b + 1;
                    done = true;
                }
            }
        }
        if !done {
            let piece = PathPiece::Text(path.substring_char(i, i + 1).to_owned());
            let ghost pv = piece@;
            r.push(piece);
            assert(pieces_view(r@) =~= r0.push(pv));
        }
        proof {
            assert(pieces_at(s, i as int) == seq![pieces_view(r@).last()] + pieces_at(s, next as int));
            assert(r0 + (seq![pieces_view(r@).last()] + pieces_at(s, next as int)) =~= pieces_view(r@)
                + pieces_at(s, next as int));
        }
        i = next;
    }
    assert(pieces_view(r@) + pieces_at(path@, n as int) =~= pieces_view(r@));
    r
}

} // verus!
