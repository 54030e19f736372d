//! The closed enumerations of graphlet categories and their stable ordinal
//! values.
//!
//! The extended set distinguishes all twelve orbit positions of the 3- and
//! 4-node connected graphlets; the reduced set collapses the orbit
//! distinctions into eight topologies.

use vstd::prelude::*;

verus! {

/// The twelve orbit-refined graphlet categories.
#[derive(Clone, Copy, Debug, PartialEq, Eq, Structural)]
pub enum ExtendedGraphletType {
    FourClique,
    ChordalCycleCenter,
    ChordalCycleEdge,
    TailedTriEdge,
    TailedTriCenter,
    TailedTriTail,
    FourCycle,
    FourStar,
    FourPathCenter,
    FourPathEdge,
    Triangle,
    Triad,
}

/// The eight topology-only graphlet categories.
#[derive(Clone, Copy, Debug, PartialEq, Eq, Structural)]
pub enum ReducedGraphletType {
    FourClique,
    ChordalCycle,
    TailedTri,
    FourCycle,
    FourStar,
    FourPath,
    Triangle,
    Triad,
}

/// Trait defining characteristics of a set of graphlet categories.
pub trait GraphletSet: Sized {
    /// The ordinal value of this category, used as the leading digit of the
    /// perfect hash.
    spec fn spec_index(self) -> int;

    /// The number of categories in this set.
    spec fn spec_number_of_graphlets() -> int;

    /// Ordinal values are dense: every category sits below the count.
    proof fn lemma_index_in_range(self)
        ensures
            0 <= self.spec_index() < Self::spec_number_of_graphlets(),
    ;

    /// Every category set holds at least one category.
    proof fn lemma_count_positive()
        ensures
            Self::spec_number_of_graphlets() >= 1,
    ;

    /// Returns the number of graphlets of the current type.
    fn get_number_of_graphlets() -> (n: usize)
        ensures
            n == Self::spec_number_of_graphlets(),
    ;

    /// Returns the ordinal value of this category.
    fn index(self) -> (i: usize)
        ensures
            i == self.spec_index(),
    ;

    /// The category with the given ordinal value, or `None` when the value
    /// falls outside the enumeration.  The inverse of `index`.
    fn from_index(value: usize) -> (r: Option<Self>)
        ensures
            value < Self::spec_number_of_graphlets() ==> r is Some && r->0.spec_index()
                == value,
            value >= Self::spec_number_of_graphlets() ==> r is None,
    ;
}

impl GraphletSet for ExtendedGraphletType {
    open spec fn spec_index(self) -> int {
        match self {
            ExtendedGraphletType::Triad => 0,
            ExtendedGraphletType::Triangle => 1,
            ExtendedGraphletType::FourPathEdge => 2,
            ExtendedGraphletType::FourPathCenter => 3,
            ExtendedGraphletType::FourStar => 4,
            ExtendedGraphletType::FourCycle => 5,
            ExtendedGraphletType::TailedTriTail => 6,
            ExtendedGraphletType::TailedTriCenter => 7,
            ExtendedGraphletType::TailedTriEdge => 8,
            ExtendedGraphletType::ChordalCycleEdge => 9,
            ExtendedGraphletType::ChordalCycleCenter => 10,
            ExtendedGraphletType::FourClique => 11,
        }
    }

    open spec fn spec_number_of_graphlets() -> int {
        12
    }

    proof fn lemma_index_in_range(self) {
    }

    proof fn lemma_count_positive() {
    }

    fn get_number_of_graphlets() -> (n: usize) {
        12
    }

    fn index(self) -> (i: usize) {
        match self {
            ExtendedGraphletType::Triad => 0,
            ExtendedGraphletType::Triangle => 1,
            ExtendedGraphletType::FourPathEdge => 2,
            ExtendedGraphletType::FourPathCenter => 3,
            ExtendedGraphletType::FourStar => 4,
            ExtendedGraphletType::FourCycle => 5,
            ExtendedGraphletType::TailedTriTail => 6,
            ExtendedGraphletType::TailedTriCenter => 7,
            ExtendedGraphletType::TailedTriEdge => 8,
            ExtendedGraphletType::ChordalCycleEdge => 9,
            ExtendedGraphletType::ChordalCycleCenter => 10,
            ExtendedGraphletType::FourClique => 11,
        }
    }

    fn from_index(value: usize) -> (r: Option<ExtendedGraphletType>) {
        match value {
            0 => Some(ExtendedGraphletType::Triad),
            1 => Some(ExtendedGraphletType::Triangle),
            2 => Some(ExtendedGraphletType::FourPathEdge),
            3 => Some(ExtendedGraphletType::FourPathCenter),
            4 => Some(ExtendedGraphletType::FourStar),
            5 => Some(ExtendedGraphletType::FourCycle),
            6 => Some(ExtendedGraphletType::TailedTriTail),
            7 => Some(ExtendedGraphletType::TailedTriCenter),
            8 => Some(ExtendedGraphletType::TailedTriEdge),
            9 => Some(ExtendedGraphletType::ChordalCycleEdge),
            10 => Some(ExtendedGraphletType::ChordalCycleCenter),
            11 => Some(ExtendedGraphletType::FourClique),
            _ => None,
        }
    }
}

impl GraphletSet for ReducedGraphletType {
    open spec fn spec_index(self) -> int {
        match self {
            ReducedGraphletType::Triad => 0,
            ReducedGraphletType::Triangle => 1,
            ReducedGraphletType::FourPath => 2,
            ReducedGraphletType::FourStar => 3,
            ReducedGraphletType::FourCycle => 4,
            ReducedGraphletType::TailedTri => 5,
            ReducedGraphletType::ChordalCycle => 6,
            ReducedGraphletType::FourClique => 7,
        }
    }

    open spec fn spec_number_of_graphlets() -> int {
        8
    }

    proof fn lemma_index_in_range(self) {
    }

    proof fn lemma_count_positive() {
    }

    fn get_number_of_graphlets() -> (n: usize) {
        8
    }

    fn index(self) -> (i: usize) {
        match self {
            ReducedGraphletType::Triad => 0,
            ReducedGraphletType::Triangle => 1,
            ReducedGraphletType::FourPath => 2,
            ReducedGraphletType::FourStar => 3,
            ReducedGraphletType::FourCycle => 4,
            ReducedGraphletType::TailedTri => 5,
            ReducedGraphletType::ChordalCycle => 6,
            ReducedGraphletType::FourClique => 7,
        }
    }

    fn from_index(value: usize) -> (r: Option<ReducedGraphletType>) {
        match value {
            0 => Some(ReducedGraphletType::Triad),
            1 => Some(ReducedGraphletType::Triangle),
            2 => Some(ReducedGraphletType::FourPath),
            3 => Some(ReducedGraphletType::FourStar),
            4 => Some(ReducedGraphletType::FourCycle),
            5 => Some(ReducedGraphletType::TailedTri),
            6 => Some(ReducedGraphletType::ChordalCycle),
            7 => Some(ReducedGraphletType::FourClique),
            _ => None,
        }
    }
}

impl ExtendedGraphletType {
    /// The characters of the stable human-readable name of this category.
    pub open spec fn spec_name(self) -> Seq<char> {
        match self {
            ExtendedGraphletType::FourClique => "FourClique"@,
            ExtendedGraphletType::ChordalCycleCenter => "ChordalCycleCenter"@,
            ExtendedGraphletType::ChordalCycleEdge => "ChordalCycleEdge"@,
            ExtendedGraphletType::TailedTriEdge => "TailedTriEdge"@,
            ExtendedGraphletType::TailedTriCenter => "TailedTriCenter"@,
            ExtendedGraphletType::TailedTriTail => "TailedTriTail"@,
            ExtendedGraphletType::FourCycle => "FourCycle"@,
            ExtendedGraphletType::FourStar => "FourStar"@,
            ExtendedGraphletType::FourPathCenter => "FourPathCenter"@,
            ExtendedGraphletType::FourPathEdge => "FourPathEdge"@,
            ExtendedGraphletType::Triangle => "Triangle"@,
            ExtendedGraphletType::Triad => "Triad"@,
        }
    }

    /// The stable human-readable name of this category.
    pub fn name(self) -> (r: &'static str)
        ensures
            r@ == self.spec_name(),
    {
        match self {
            ExtendedGraphletType::FourClique => "FourClique",
            ExtendedGraphletType::ChordalCycleCenter => "ChordalCycleCenter",
            ExtendedGraphletType::ChordalCycleEdge => "ChordalCycleEdge",
            ExtendedGraphletType::TailedTriEdge => "TailedTriEdge",
            ExtendedGraphletType::TailedTriCenter => "TailedTriCenter",
            ExtendedGraphletType::TailedTriTail => "TailedTriTail",
            ExtendedGraphletType::FourCycle => "FourCycle",
            ExtendedGraphletType::FourStar => "FourStar",
            ExtendedGraphletType::FourPathCenter => "FourPathCenter",
            ExtendedGraphletType::FourPathEdge => "FourPathEdge",
            ExtendedGraphletType::Triangle => "Triangle",
            ExtendedGraphletType::Triad => "Triad",
        }
    }
}

impl ReducedGraphletType {
    /// The characters of the stable human-readable name of this category.
    pub open spec fn spec_name(self) -> Seq<char> {
        match self {
            ReducedGraphletType::FourClique => "FourClique"@,
            ReducedGraphletType::ChordalCycle => "ChordalCycle"@,
            ReducedGraphletType::TailedTri => "TailedTri"@,
            ReducedGraphletType::FourCycle => "FourCycle"@,
            ReducedGraphletType::FourStar => "FourStar"@,
            ReducedGraphletType::FourPath => "FourPath"@,
            ReducedGraphletType::Triangle => "Triangle"@,
            ReducedGraphletType::Triad => "Triad"@,
        }
    }

    /// The stable human-readable name of this category.
    pub fn name(self) -> (r: &'static str)
        ensures
            r@ == self.spec_name(),
    {
        match self {
            ReducedGraphletType::FourClique => "FourClique",
            ReducedGraphletType::ChordalCycle => "ChordalCycle",
            ReducedGraphletType::TailedTri => "TailedTri",
            ReducedGraphletType::FourCycle => "FourCycle",
            ReducedGraphletType::FourStar => "FourStar",
            ReducedGraphletType::FourPath => "FourPath",
            ReducedGraphletType::Triangle => "Triangle",
            ReducedGraphletType::Triad => "Triad",
        }
    }
}

} // verus!
