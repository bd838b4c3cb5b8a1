//! The bin-packing problem description: pieces, their allowed rotations
//! and instance counts, and the bin they are packed into. Plain data for a
//! placement search built on the NFP engine.

use vstd::prelude::*;

use crate::multi_polygon::MultiPolygon;
use crate::point::Rotation;

verus! {

/// A piece to place: its shape, the rotations it may take, and how many
/// copies must be placed.
#[derive(Clone, Debug)]
pub struct PieceDescription {
    pub piece: MultiPolygon,
    pub allowed_rotations: Vec<Rotation>,
    pub instances: usize,
}

impl PieceDescription {
    /// A piece description from its parts.
    pub fn new(piece: MultiPolygon, allowed_rotations: Vec<Rotation>, instances: usize) -> (r:
        PieceDescription)
        ensures
            r.piece == piece,
            r.allowed_rotations == allowed_rotations,
            r.instances == instances,
    {
        PieceDescription { piece, allowed_rotations, instances }
    }
}

/// Why a problem could not be built.
#[derive(Clone, Copy, Debug, PartialEq, Eq, Structural)]
pub enum ProblemBuildError {
    NoBinSet,
}

/// A complete input description: the bin and the pieces to pack into it.
#[derive(Clone, Debug)]
pub struct IrregularBinPackingProblem {
    pub bin: MultiPolygon,
    pub piece_descriptions: Vec<PieceDescription>,
}

impl IrregularBinPackingProblem {
    /// A problem from its parts.
    pub fn new(bin: MultiPolygon, piece_descriptions: Vec<PieceDescription>) -> (r:
        IrregularBinPackingProblem)
        ensures
            r.bin == bin,
            r.piece_descriptions == piece_descriptions,
    {
        IrregularBinPackingProblem { bin, piece_descriptions }
    }

    /// A fresh builder.
    pub fn builder() -> (r: IrregularBinPackingProblemBuilder)
        ensures
            r.bin is None,
            r.piece_descriptions@.len() == 0,
    {
        IrregularBinPackingProblemBuilder::new()
    }

    /// The bin every piece is packed into.
    pub fn bin(&self) -> (r: &MultiPolygon)
        ensures
            r == self.bin,
    {
        &self.bin
    }

    /// The pieces to pack.
    pub fn piece_descriptions(&self) -> (r: &Vec<PieceDescription>)
        ensures
            r == self.piece_descriptions,
    {
        &self.piece_descriptions
    }
}

/// Builds a problem step by step; `build` fails when no bin was set.
#[derive(Clone, Debug)]
pub struct IrregularBinPackingProblemBuilder {
    pub bin: Option<MultiPolygon>,
    pub piece_descriptions: Vec<PieceDescription>,
}

impl IrregularBinPackingProblemBuilder {
    /// An empty builder.
    pub fn new() -> (r: IrregularBinPackingProblemBuilder)
        ensures
            r.bin is None,
            r.piece_descriptions@.len() == 0,
    {
        IrregularBinPackingProblemBuilder { bin: Option::None, piece_descriptions: Vec::new() }
    }

    /// Sets the bin.
    pub fn bin(self, bin: MultiPolygon) -> (r: IrregularBinPackingProblemBuilder)
        ensures
            r.bin == Some(bin),
            r.piece_descriptions == self.piece_descriptions,
    {
        IrregularBinPackingProblemBuilder { bin: Some(bin), ..self }
    }

    /// Replaces the piece descriptions.
    pub fn piece_descriptions(self, piece_descriptions: Vec<PieceDescription>) -> (r:
        IrregularBinPackingProblemBuilder)
        ensures
            r.bin == self.bin,
            r.piece_descriptions == piece_descriptions,
    {
        IrregularBinPackingProblemBuilder { piece_descriptions, ..self }
    }

    /// Adds one piece description.
    pub fn piece_description(self, piece: MultiPolygon, allowed_rotations: Vec<Rotation>,
        instances: usize) -> (r: IrregularBinPackingProblemBuilder)
        ensures
            r.bin == self.bin,
            r.piece_descriptions@ == self.piece_descriptions@.push(
                PieceDescription { piece, allowed_rotations, instances },
            ),
    {
        let mut pds = self.piece_descriptions;
        pds.push(PieceDescription { piece, allowed_rotations, instances });
        IrregularBinPackingProblemBuilder { bin: self.bin, piece_descriptions: pds }
    }

    /// The finished problem, or an error when no bin was set.
    pub fn build(self) -> (r: Result<IrregularBinPackingProblem, ProblemBuildError>)
        ensures
            self.bin is Some <==> r is Ok,
            r matches Ok(p) ==> Some(p.bin) == self.bin && p.piece_descriptions
                == self.piece_descriptions,
            r matches Err(e) ==> e == ProblemBuildError::NoBinSet,
    {
        match self.bin {
            Some(bin) => Ok(
                IrregularBinPackingProblem { bin, piece_descriptions: self.piece_descriptions },
            ),
            Option::None => Err(ProblemBuildError::NoBinSet),
        }
    }
}

} // verus!
