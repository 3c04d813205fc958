//! The top-level error type: a chain of (location, description) pieces,
//! composed by pushing and rendered oldest first.

use vstd::prelude::*;

use crate::fb::Loc;

verus! {

/// An error as a stack of pieces; empty when nothing went wrong yet.
pub struct Error {
    pieces: Option<Box<ErrorPiece>>,
}

struct ErrorPiece {
    loc: Loc,
    desc: String,
    prev: Option<Box<ErrorPiece>>,
}

/// The pieces reachable from `opt`, oldest first.
spec fn pieces_of(opt: Option<Box<ErrorPiece>>) -> Seq<(Loc, Seq<char>)>
    decreases opt,
{
    match opt {
        Option::None => Seq::empty(),
        Option::Some(piece) => pieces_of(piece.prev).push((piece.loc, piece.desc@)),
    }
}

impl Error {
    /// The (location, description) pieces, oldest first.
    pub closed spec fn pieces_view(&self) -> Seq<(Loc, Seq<char>)> {
        pieces_of(self.pieces)
    }

    pub fn new() -> (e: Error)
        ensures
            e.pieces_view() == Seq::<(Loc, Seq<char>)>::empty(),
    {
        Error { pieces: None }
    }

    /// Returns a new error with one more piece on top; earlier pieces are
    /// kept unchanged beneath it.
    pub fn compose(self, loc: Loc, desc: String) -> (e: Error)
        ensures
            e.pieces_view() == self.pieces_view().push((loc, desc@)),
    {
        let tos_piece = ErrorPiece { loc, desc, prev: self.pieces };
        let new_stack = Some(Box::new(tos_piece));
        Error { pieces: new_stack }
    }
}

/// The pieces reachable from `opt` as a vector, oldest first, for the
/// presentation step.
fn collect_pieces(opt: &Option<Box<ErrorPiece>>) -> (v: Vec<(Loc, String)>)
    ensures
        v@.len() == pieces_of(*opt).len(),
        forall|i: int|
            0 <= i < v@.len() ==> v@[i].0 == pieces_of(*opt)[i].0 && v@[i].1@ == pieces_of(
                *opt,
            )[i].1,
    decreases *opt,
{
    match opt {
        Option::None => Vec::new(),
        Option::Some(piece) => {
            let mut v = collect_pieces(&piece.prev);
            v.push((piece.loc, piece.desc.clone()));
            v
        },
    }
}

impl Error {
    /// The (location, description) pieces as plain values, oldest first,
    /// in the order a renderer prints them.
    pub fn render_pieces(&self) -> (v: Vec<(Loc, String)>)
        ensures
            v@.len() == self.pieces_view().len(),
            forall|i: int|
                0 <= i < v@.len() ==> v@[i].0 == self.pieces_view()[i].0 && v@[i].1@
                    == self.pieces_view()[i].1,
    {
        collect_pieces(&self.pieces)
    }
}

} // verus!
