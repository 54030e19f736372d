//! A plain quadruple perfect hash whose kind digit is an arbitrary small
//! integer rather than a graphlet category, together with the lookup of
//! the conventional orbit names `g1` to `g12`.

use vstd::prelude::*;
use vstd::string::StringExecFns;

use crate::perfect_graphlet_hash::{
    lemma_encode_le_maximal, lemma_partial_bound, lemma_powers_le_maximal, spec_decode_kind,
    spec_decode_quadruple, spec_encode, spec_maximal_hash,
};

verus! {

/// The number of graphlet categories encodable by this hash.
pub const NUMBER_OF_GRAPHLETS: usize = 12;

/// The conventional name of the orbit with the given kind digit, for
/// digits one to twelve; empty outside that range.
pub open spec fn spec_orbit_name(kind: int) -> Seq<char> {
    if kind == 1 {
        "triad (g1)"@
    } else if kind == 2 {
        "triangle (g2)"@
    } else if kind == 3 {
        "four-path (g3)"@
    } else if kind == 4 {
        "four-path center orbit (g4)"@
    } else if kind == 5 {
        "four-star orbit (g5)"@
    } else if kind == 6 {
        "four-cycle (g6)"@
    } else if kind == 7 {
        "tailed tri-tail orbit (g7)"@
    } else if kind == 8 {
        "tailed tri-center orbit (g8)"@
    } else if kind == 9 {
        "tailed tri-edge orbit (g9)"@
    } else if kind == 10 {
        "chordal cycle edge orbit (g10)"@
    } else if kind == 11 {
        "chordal cycle center orbit (g11)"@
    } else if kind == 12 {
        "four-clique (g12)"@
    } else {
        Seq::empty()
    }
}

/// A trait for quadruple perfect hash functions whose kind digit is a plain
/// integer in the range `1 ..= 12`.
pub trait PerfectHash: Sized {
    /// The first label slot.
    spec fn spec_first(&self) -> usize;

    /// The second label slot.
    spec fn spec_second(&self) -> usize;

    /// The third label slot.
    spec fn spec_third(&self) -> usize;

    /// The fourth label slot.
    spec fn spec_fourth(&self) -> usize;

    /// Returns the hash value associated to the provided quadruple and
    /// graphlet kind digit.
    fn encode(&self, graphlet: usize, number_of_elements: usize) -> (r: usize)
        requires
            number_of_elements >= 2,
            self.spec_first() < number_of_elements,
            self.spec_second() < number_of_elements,
            self.spec_third() < number_of_elements,
            self.spec_fourth() <= number_of_elements,
            graphlet <= NUMBER_OF_GRAPHLETS,
            spec_maximal_hash(NUMBER_OF_GRAPHLETS as int, number_of_elements as int)
                <= usize::MAX,
        ensures
            r == spec_encode(
                self.spec_first() as int,
                self.spec_second() as int,
                self.spec_third() as int,
                self.spec_fourth() as int,
                graphlet as int,
                number_of_elements as int,
            ),
    ;

    /// Returns the graphlet kind digit and the quadruple associated to the
    /// provided hash value.
    fn decode(encoded: usize, number_of_elements: usize) -> (r: (usize, Self))
        requires
            number_of_elements >= 2,
            spec_maximal_hash(NUMBER_OF_GRAPHLETS as int, number_of_elements as int)
                <= usize::MAX,
        ensures
            r.0 == spec_decode_kind(encoded as int, number_of_elements as int),
            (r.1.spec_first() as int, r.1.spec_second() as int, r.1.spec_third() as int, r.1.spec_fourth() as int)
                == spec_decode_quadruple(encoded as int, number_of_elements as int),
    ;

    /// Returns the conventional name of the orbit whose kind digit is
    /// carried by the provided hash value, or an error when the digit falls
    /// outside the range `1 ..= 12`.
    fn get_graphlet_type(encoded: usize, number_of_elements: usize) -> (r: Result<
        &'static str,
        String,
    >)
        requires
            number_of_elements >= 2,
            spec_maximal_hash(NUMBER_OF_GRAPHLETS as int, number_of_elements as int)
                <= usize::MAX,
        ensures
            1 <= spec_decode_kind(encoded as int, number_of_elements as int)
                <= NUMBER_OF_GRAPHLETS <==> r is Ok,
            r matches Ok(s) ==> s@ == spec_orbit_name(
                spec_decode_kind(encoded as int, number_of_elements as int),
            ),
    {
        let (graphlet_type, _) = Self::decode(encoded, number_of_elements);
        if graphlet_type == 1 {
            Ok("triad (g1)")
        } else if graphlet_type == 2 {
            Ok("triangle (g2)")
        } else if graphlet_type == 3 {
            Ok("four-path (g3)")
        } else if graphlet_type == 4 {
            Ok("four-path center orbit (g4)")
        } else if graphlet_type == 5 {
            Ok("four-star orbit (g5)")
        } else if graphlet_type == 6 {
            Ok("four-cycle (g6)")
        } else if graphlet_type == 7 {
            Ok("tailed tri-tail orbit (g7)")
        } else if graphlet_type == 8 {
            Ok("tailed tri-center orbit (g8)")
        } else if graphlet_type == 9 {
            Ok("tailed tri-edge orbit (g9)")
        } else if graphlet_type == 10 {
            Ok("chordal cycle edge orbit (g10)")
        } else if graphlet_type == 11 {
            Ok("chordal cycle center orbit (g11)")
        } else if graphlet_type == 12 {
            Ok("four-clique (g12)")
        } else {
            Err(String::from_str("the provided hash value carries no valid graphlet kind digit"))
        }
    }

    /// Returns the maximal hash value that can be encoded.
    fn maximal_hash(number_of_elements: usize) -> (r: usize)
        requires
            number_of_elements >= 2,
            spec_maximal_hash(NUMBER_OF_GRAPHLETS as int, number_of_elements as int)
                <= usize::MAX,
        ensures
            r == spec_maximal_hash(NUMBER_OF_GRAPHLETS as int, number_of_elements as int),
    ;
}

impl PerfectHash for (usize, usize, usize, usize) {
    open spec fn spec_first(&self) -> usize {
        self.0
    }

    open spec fn spec_second(&self) -> usize {
        self.1
    }

    open spec fn spec_third(&self) -> usize {
        self.2
    }

    open spec fn spec_fourth(&self) -> usize {
        self.3
    }

    fn encode(&self, graphlet: usize, number_of_elements: usize) -> (r: usize) {
        let l = number_of_elements;
        proof {
            let li = l as int;
            lemma_powers_le_maximal(NUMBER_OF_GRAPHLETS as int, li);
            lemma_encode_le_maximal(
                self.0 as int,
                self.1 as int,
                self.2 as int,
                self.3 as int,
                graphlet as int,
                NUMBER_OF_GRAPHLETS as int,
                li,
            );
            lemma_partial_bound(self.0 as int, self.1 as int, self.2 as int, self.3 as int, li);
            vstd::arithmetic::mul::lemma_mul_inequality(
                graphlet as int,
                NUMBER_OF_GRAPHLETS as int,
                li * li * li * li,
            );
            assert(0 <= graphlet as int * (li * li * li * li)) by (nonlinear_arith)
                requires
                    0 <= graphlet && 0 < li * li * li * li,
            ;
            assert(0 <= self.0 as int * (li * li * li) && self.0 as int * (li * li * li) <= (li - 1)
                * (li * li * li) && (li - 1) * (li * li * li) < li * li * li * li)
                by (nonlinear_arith)
                requires
                    li >= 2 && 0 <= self.0 < li,
            ;
            assert(0 <= self.1 as int * (li * li) && self.1 as int * (li * li) <= (li - 1) * (li
                * li) && (li - 1) * (li * li) < li * li * li) by (nonlinear_arith)
                requires
                    li >= 2 && 0 <= self.1 < li,
            ;
            assert(0 <= self.2 as int * li && self.2 as int * li <= (li - 1) * li && (li - 1) * li
                < li * li) by (nonlinear_arith)
                requires
                    li >= 2 && 0 <= self.2 < li,
            ;
        }
        let l2 = l * l;
        let l3 = l2 * l;
        let l4 = l3 * l;
        graphlet * l4 + self.0 * l3 + self.1 * l2 + self.2 * l + self.3
    }

    fn decode(encoded: usize, number_of_elements: usize) -> (r: (usize, Self)) {
        let l = number_of_elements;
        proof {
            lemma_powers_le_maximal(NUMBER_OF_GRAPHLETS as int, l as int);
        }
        let l2 = l * l;
        let l3 = l2 * l;
        let l4 = l3 * l;
        let graphlet = encoded / l4;
        let r4 = encoded % l4;
        let first = r4 / l3;
        let r3 = r4 % l3;
        let second = r3 / l2;
        let r2 = r3 % l2;
        let third = r2 / l;
        let fourth = r2 % l;
        let quad = (first, second, third, fourth);
        proof {
            let li = l as int;
            assert(l2 == li * li && l3 == li * li * li && l4 == li * li * li * li);
            assert(quad.spec_first() == first && quad.spec_second() == second
                && quad.spec_third() == third && quad.spec_fourth() == fourth);
            assert((quad.spec_first() as int, quad.spec_second() as int, quad.spec_third() as int, quad.spec_fourth() as int)
                =~= spec_decode_quadruple(encoded as int, li));
        }
        (graphlet, quad)
    }

    fn maximal_hash(number_of_elements: usize) -> (r: usize) {
        let l = number_of_elements;
        proof {
            lemma_powers_le_maximal(NUMBER_OF_GRAPHLETS as int, l as int);
        }
        let l2 = l * l;
        let l3 = l2 * l;
        let l4 = l3 * l;
        NUMBER_OF_GRAPHLETS * l4 + l4 + l3 + l2 + l
    }
}

} // verus!
