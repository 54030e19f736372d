//! The perfect hash that keys graphlet occurrences.
//!
//! A key packs a quadruple of node-type labels together with a graphlet
//! kind into one integer, as a mixed-radix positional number: with `l`
//! distinct labels the key is
//! `kind * l^4 + a * l^3 + b * l^2 + c * l + d`.
//! For label digits below `l` the encoding is a bijection and decoding
//! inverts it exactly; graphlets with only three distinguishing label
//! slots use `l` itself as a dummy value in the last slot.

use vstd::prelude::*;
use vstd::arithmetic::div_mod::lemma_fundamental_div_mod_converse;
use vstd::arithmetic::mul::lemma_mul_inequality;
use vstd::string::StringExecFns;

use crate::graphlet_set::GraphletSet;

verus! {

/// The key that packs the label quadruple `(a, b, c, d)` and the kind
/// digit `kind` with radix `l`.
pub open spec fn spec_encode(a: int, b: int, c: int, d: int, kind: int, l: int) -> int {
    kind * (l * l * l * l) + a * (l * l * l) + b * (l * l) + c * l + d
}

/// The label part of a key: everything below the kind digit.
pub open spec fn spec_encode_partial(a: int, b: int, c: int, d: int, l: int) -> int {
    a * (l * l * l) + b * (l * l) + c * l + d
}

/// The largest key that a kind set of `number_of_graphlets` categories can
/// produce with radix `l`: every label digit at the dummy value `l` and the
/// kind digit at `number_of_graphlets`.
pub open spec fn spec_maximal_hash(number_of_graphlets: int, l: int) -> int {
    number_of_graphlets * (l * l * l * l) + l * l * l * l + l * l * l + l * l + l
}

/// The kind digit of a key: the quotient by `l^4`.
pub open spec fn spec_decode_kind(encoded: int, l: int) -> int {
    encoded / (l * l * l * l)
}

/// The label quadruple of a key, recovered by successive division and
/// remainder with `l^3`, `l^2` and `l`.
pub open spec fn spec_decode_quadruple(encoded: int, l: int) -> (int, int, int, int) {
    let r4 = encoded % (l * l * l * l);
    let a = r4 / (l * l * l);
    let r3 = r4 % (l * l * l);
    let b = r3 / (l * l);
    let r2 = r3 % (l * l);
    let c = r2 / l;
    let d = r2 % l;
    (a, b, c, d)
}

/// The label part of a key stays at or below `l^4` when the first three
/// digits are below the radix and the last is at most the dummy value `l`.
pub proof fn lemma_partial_bound(a: int, b: int, c: int, d: int, l: int)
    requires
        l >= 2,
        0 <= a < l,
        0 <= b < l,
        0 <= c < l,
        0 <= d <= l,
    ensures
        0 <= spec_encode_partial(a, b, c, d, l) <= l * l * l * l,
        d < l ==> spec_encode_partial(a, b, c, d, l) < l * l * l * l,
{
    assert(0 <= a * (l * l * l) && a * (l * l * l) <= (l - 1) * (l * l * l)) by (nonlinear_arith)
        requires
            l >= 2 && 0 <= a <= l - 1,
    ;
    assert(0 <= b * (l * l) && b * (l * l) <= (l - 1) * (l * l)) by (nonlinear_arith)
        requires
            l >= 2 && 0 <= b <= l - 1,
    ;
    assert(0 <= c * l && c * l <= (l - 1) * l) by (nonlinear_arith)
        requires
            l >= 2 && 0 <= c <= l - 1,
    ;
    assert((l - 1) * (l * l * l) + (l - 1) * (l * l) + (l - 1) * l + l == l * l * l * l)
        by (nonlinear_arith)
        requires
            l >= 2,
    ;
}

/// Every key whose digits respect the dummy bounds stays at or below the
/// maximal hash for its kind set.
pub proof fn lemma_encode_le_maximal(
    a: int,
    b: int,
    c: int,
    d: int,
    kind: int,
    number_of_graphlets: int,
    l: int,
)
    requires
        l >= 2,
        0 <= a < l,
        0 <= b < l,
        0 <= c < l,
        0 <= d <= l,
        0 <= kind <= number_of_graphlets,
    ensures
        0 <= spec_encode(a, b, c, d, kind, l) <= spec_maximal_hash(number_of_graphlets, l),
{
    lemma_partial_bound(a, b, c, d, l);
    assert(0 <= kind * (l * l * l * l)) by (nonlinear_arith)
        requires
            l >= 2 && 0 <= kind,
    ;
    lemma_mul_inequality(kind, number_of_graphlets, l * l * l * l);
    assert(l * l * l * l >= 0) by (nonlinear_arith)
        requires
            l >= 2,
    ;
    assert(l * l * l + l * l + l >= 0) by (nonlinear_arith)
        requires
            l >= 2,
    ;
}

/// Round-trip: decoding an encoded key recovers the kind digit and the
/// label quadruple exactly, for label digits below the radix.
pub proof fn lemma_encode_decode(a: int, b: int, c: int, d: int, kind: int, l: int)
    requires
        l >= 2,
        0 <= a < l,
        0 <= b < l,
        0 <= c < l,
        0 <= d < l,
        0 <= kind,
    ensures
        spec_decode_kind(spec_encode(a, b, c, d, kind, l), l) == kind,
        spec_decode_quadruple(spec_encode(a, b, c, d, kind, l), l) == (a, b, c, d),
{
    assert(0 <= c * l + d < l * l) by (nonlinear_arith)
        requires
            l >= 2 && 0 <= c < l && 0 <= d < l,
    ;
    assert(0 <= b * (l * l) + c * l + d < l * l * l) by (nonlinear_arith)
        requires
            l >= 2 && 0 <= b < l && 0 <= c * l + d < l * l,
    ;
    assert(0 <= a * (l * l * l) + b * (l * l) + c * l + d < l * l * l * l) by (nonlinear_arith)
        requires
            l >= 2 && 0 <= a < l && 0 <= b * (l * l) + c * l + d < l * l * l,
    ;
    assert(l * l > 0 && l * l * l > 0 && l * l * l * l > 0) by (nonlinear_arith)
        requires
            l >= 2,
    ;
    let l2 = l * l;
    let l3 = l * l * l;
    let l4 = l * l * l * l;
    let low3 = b * l2 + c * l + d;
    let low4 = a * l3 + low3;
    let key = spec_encode(a, b, c, d, kind, l);
    lemma_fundamental_div_mod_converse(key, l4, kind, low4);
    lemma_fundamental_div_mod_converse(low4, l3, a, low3);
    lemma_fundamental_div_mod_converse(low3, l2, b, c * l + d);
    lemma_fundamental_div_mod_converse(c * l + d, l, c, d);
}

/// Keys of different kinds never collide, for any digits that share the
/// first two label slots and respect the dummy bounds.
pub proof fn lemma_keys_distinct_kinds(
    s: int,
    t: int,
    c1: int,
    d1: int,
    k1: int,
    c2: int,
    d2: int,
    k2: int,
    l: int,
)
    requires
        l >= 2,
        0 <= s < l,
        0 <= t < l,
        0 <= c1 < l,
        0 <= d1 <= l,
        0 <= c2 < l,
        0 <= d2 <= l,
        0 <= k1,
        0 <= k2,
        k1 != k2,
    ensures
        spec_encode(s, t, c1, d1, k1, l) != spec_encode(s, t, c2, d2, k2, l),
{
    let l4 = l * l * l * l;
    assert((k1 - k2) * l4 != c2 * l + d2 - (c1 * l + d1)) by (nonlinear_arith)
        requires
            l >= 2 && k1 != k2 && 0 <= c1 < l && 0 <= d1 <= l && 0 <= c2 < l && 0 <= d2 <= l && l4
                == l * l * l * l,
    ;
    assert(spec_encode(s, t, c1, d1, k1, l) - spec_encode(s, t, c2, d2, k2, l) == (k1 - k2) * l4 + (
    c1 * l + d1) - (c2 * l + d2)) by (nonlinear_arith)
        requires
            l4 == l * l * l * l,
    ;
}

/// Within one kind, keys for distinct label pairs in the last two slots
/// never collide, both slots below the radix.
pub proof fn lemma_keys_distinct_pairs(
    s: int,
    t: int,
    c1: int,
    d1: int,
    c2: int,
    d2: int,
    kind: int,
    l: int,
)
    requires
        l >= 2,
        0 <= s < l,
        0 <= t < l,
        0 <= c1 < l,
        0 <= d1 < l,
        0 <= c2 < l,
        0 <= d2 < l,
        0 <= kind,
        (c1, d1) != (c2, d2),
    ensures
        spec_encode(s, t, c1, d1, kind, l) != spec_encode(s, t, c2, d2, kind, l),
{
    assert(c1 * l + d1 != c2 * l + d2) by (nonlinear_arith)
        requires
            l >= 2 && 0 <= c1 < l && 0 <= d1 < l && 0 <= c2 < l && 0 <= d2 < l && !(c1 == c2 && d1
                == d2),
    ;
}

/// Within one kind, keys whose last slot carries the dummy value never
/// collide for distinct third slots.
pub proof fn lemma_keys_distinct_dummy(s: int, t: int, c1: int, c2: int, kind: int, l: int)
    requires
        l >= 2,
        0 <= s < l,
        0 <= t < l,
        0 <= c1 < l,
        0 <= c2 < l,
        0 <= kind,
        c1 != c2,
    ensures
        spec_encode(s, t, c1, l, kind, l) != spec_encode(s, t, c2, l, kind, l),
{
    assert(c1 * l != c2 * l) by (nonlinear_arith)
        requires
            l >= 2 && 0 <= c1 < l && 0 <= c2 < l && c1 != c2,
    ;
}

/// The maximal hash is attained: the key whose label digits all carry the
/// dummy value and whose kind digit equals the category count is exactly
/// the maximal hash.
pub proof fn lemma_maximal_hash_tight(number_of_graphlets: int, l: int)
    requires
        l >= 2,
        0 <= number_of_graphlets,
    ensures
        spec_encode(l, l, l, l, number_of_graphlets, l) == spec_maximal_hash(
            number_of_graphlets,
            l,
        ),
{
    assert(l * (l * l * l) == l * l * l * l && l * (l * l) == l * l * l) by (nonlinear_arith)
        requires
            l >= 2,
    ;
}

/// The radix powers stay below every key they compose: each of `l`, `l^2`,
/// `l^3` and `l^4` is positive and at most the maximal hash.
pub proof fn lemma_powers_le_maximal(number_of_graphlets: int, l: int)
    requires
        l >= 2,
        number_of_graphlets >= 1,
    ensures
        0 < l,
        0 < l * l,
        0 < l * l * l,
        0 < l * l * l * l,
        l <= l * l <= l * l * l <= l * l * l * l,
        number_of_graphlets * (l * l * l * l) + l * l * l * l + l * l * l + l * l + l
            == spec_maximal_hash(number_of_graphlets, l),
        l * l * l * l <= number_of_graphlets * (l * l * l * l),
        spec_maximal_hash(number_of_graphlets, l) >= l * l * l * l,
{
    assert(0 < l * l && 0 < l * l * l && 0 < l * l * l * l && l <= l * l && l * l <= l * l * l && l
        * l * l <= l * l * l * l && l * l * l * l <= number_of_graphlets * (l * l * l * l))
        by (nonlinear_arith)
        requires
            l >= 2 && number_of_graphlets >= 1,
    ;
}

/// Computes the radix powers `(l^2, l^3, l^4)`.
fn radix_powers(number_of_elements: usize, ghost_kinds: Ghost<int>) -> (r: (usize, usize, usize))
    requires
        number_of_elements >= 2,
        ghost_kinds@ >= 1,
        spec_maximal_hash(ghost_kinds@, number_of_elements as int) <= usize::MAX,
    ensures
        ({
            let l = number_of_elements as int;
            r.0 == l * l && r.1 == l * l * l && r.2 == l * l * l * l
        }),
{
    proof {
        lemma_powers_le_maximal(ghost_kinds@, number_of_elements as int);
    }
    let l2 = number_of_elements * number_of_elements;
    let l3 = l2 * number_of_elements;
    let l4 = l3 * number_of_elements;
    (l2, l3, l4)
}

/// A trait for quadruple perfect hash functions over a set of graphlet
/// categories.
pub trait PerfectGraphletHash<K: GraphletSet>: Sized {
    /// Returns the hash value associated to self and graphlet.
    fn encode_with_graphlet(&self, graphlet_kind: K, number_of_elements: usize) -> (r: usize)
        requires
            number_of_elements >= 2,
            self.spec_first() < number_of_elements,
            self.spec_second() < number_of_elements,
            self.spec_third() < number_of_elements,
            self.spec_fourth() <= number_of_elements,
            spec_maximal_hash(K::spec_number_of_graphlets(), number_of_elements as int)
                <= usize::MAX,
        ensures
            r == spec_encode(
                self.spec_first() as int,
                self.spec_second() as int,
                self.spec_third() as int,
                self.spec_fourth() as int,
                graphlet_kind.spec_index(),
                number_of_elements as int,
            ),
    ;

    /// Returns the hash value associated to the object, without the
    /// graphlet kind digit.
    fn encode_partially(&self, number_of_elements: usize) -> (r: usize)
        requires
            number_of_elements >= 2,
            self.spec_first() < number_of_elements,
            self.spec_second() < number_of_elements,
            self.spec_third() < number_of_elements,
            self.spec_fourth() <= number_of_elements,
            spec_maximal_hash(K::spec_number_of_graphlets(), number_of_elements as int)
                <= usize::MAX,
        ensures
            r == spec_encode_partial(
                self.spec_first() as int,
                self.spec_second() as int,
                self.spec_third() as int,
                self.spec_fourth() as int,
                number_of_elements as int,
            ),
    ;

    /// Returns the graphlet kind and object associated to the provided hash
    /// value, or an error when the kind digit falls outside the enumeration.
    fn decode_with_graphlet(encoded: usize, number_of_elements: usize) -> (r: Result<
        (K, Self),
        String,
    >)
        requires
            number_of_elements >= 2,
            spec_maximal_hash(K::spec_number_of_graphlets(), number_of_elements as int)
                <= usize::MAX,
        ensures
            spec_decode_kind(encoded as int, number_of_elements as int)
                < K::spec_number_of_graphlets() ==> r is Ok,
            spec_decode_kind(encoded as int, number_of_elements as int)
                >= K::spec_number_of_graphlets() ==> r is Err,
            r matches Ok((kind, quad)) ==> kind.spec_index() == spec_decode_kind(
                encoded as int,
                number_of_elements as int,
            ) && (quad.spec_first() as int, quad.spec_second() as int, quad.spec_third() as int, quad.spec_fourth() as int)
                == spec_decode_quadruple(encoded as int, number_of_elements as int),
    ;

    /// Add the graphlet kind digit to a partially encoded hash, replacing
    /// whatever kind digit it carried.
    fn add_graphlet_kind(
        partially_encoded: usize,
        graphlet_kind: K,
        number_of_elements: usize,
    ) -> (r: usize)
        requires
            number_of_elements >= 2,
            spec_maximal_hash(K::spec_number_of_graphlets(), number_of_elements as int)
                <= usize::MAX,
        ensures
            ({
                let l = number_of_elements as int;
                r == graphlet_kind.spec_index() * (l * l * l * l) + (partially_encoded as int) % (l
                    * l * l * l)
            }),
    ;

    /// Returns the graphlet kind digit of the provided hash value, or an
    /// error when it falls outside the enumeration.
    fn decode_graphlet_kind(encoded: usize, number_of_elements: usize) -> (r: Result<K, String>)
        requires
            number_of_elements >= 2,
            spec_maximal_hash(K::spec_number_of_graphlets(), number_of_elements as int)
                <= usize::MAX,
        ensures
            spec_decode_kind(encoded as int, number_of_elements as int)
                < K::spec_number_of_graphlets() ==> (r matches Ok(kind) && kind.spec_index()
                == spec_decode_kind(encoded as int, number_of_elements as int)),
            spec_decode_kind(encoded as int, number_of_elements as int)
                >= K::spec_number_of_graphlets() ==> r is Err,
    ;

    /// Returns the maximal hash value that can be encoded.
    fn maximal_hash(number_of_elements: usize) -> (r: usize)
        requires
            number_of_elements >= 2,
            spec_maximal_hash(K::spec_number_of_graphlets(), number_of_elements as int)
                <= usize::MAX,
        ensures
            r == spec_maximal_hash(K::spec_number_of_graphlets(), number_of_elements as int),
    ;

    /// The first label slot.
    spec fn spec_first(&self) -> usize;

    /// The second label slot.
    spec fn spec_second(&self) -> usize;

    /// The third label slot.
    spec fn spec_third(&self) -> usize;

    /// The fourth label slot.
    spec fn spec_fourth(&self) -> usize;
}

impl<K: GraphletSet> PerfectGraphletHash<K> for (usize, usize, usize, usize) {
    open spec fn spec_first(&self) -> usize {
        self.0
    }

    open spec fn spec_second(&self) -> usize {
        self.1
    }

    open spec fn spec_third(&self) -> usize {
        self.2
    }

    open spec fn spec_fourth(&self) -> usize {
        self.3
    }

    fn encode_with_graphlet(&self, graphlet_kind: K, number_of_elements: usize) -> (r: usize) {
        proof {
            graphlet_kind.lemma_index_in_range();
        }
        let (l2, l3, l4) = radix_powers(
            number_of_elements,
            Ghost(K::spec_number_of_graphlets()),
        );
        let kind_index = graphlet_kind.index();
        proof {
            let l = number_of_elements as int;
            lemma_powers_le_maximal(K::spec_number_of_graphlets(), l);
            lemma_encode_le_maximal(
                self.0 as int,
                self.1 as int,
                self.2 as int,
                self.3 as int,
                kind_index as int,
                K::spec_number_of_graphlets(),
                l,
            );
            lemma_partial_bound(self.0 as int, self.1 as int, self.2 as int, self.3 as int, l);
            lemma_mul_inequality(kind_index as int, K::spec_number_of_graphlets(), l * l * l * l);
            assert(0 <= kind_index as int * (l * l * l * l)) by (nonlinear_arith)
                requires
                    0 <= kind_index && 0 < l * l * l * l,
            ;
            assert(0 <= self.0 as int * (l * l * l) && self.0 as int * (l * l * l) <= (l - 1) * (l
                * l * l) && (l - 1) * (l * l * l) < l * l * l * l) by (nonlinear_arith)
                requires
                    l >= 2 && 0 <= self.0 < l,
            ;
            assert(0 <= self.1 as int * (l * l) && self.1 as int * (l * l) <= (l - 1) * (l * l) && (
            l - 1) * (l * l) < l * l * l) by (nonlinear_arith)
                requires
                    l >= 2 && 0 <= self.1 < l,
            ;
            assert(0 <= self.2 as int * l && self.2 as int * l <= (l - 1) * l && (l - 1) * l < l
                * l) by (nonlinear_arith)
                requires
                    l >= 2 && 0 <= self.2 < l,
            ;
        }
        kind_index * l4 + self.0 * l3 + self.1 * l2 + self.2 * number_of_elements + self.3
    }

    fn encode_partially(&self, number_of_elements: usize) -> (r: usize) {
        proof {
            K::lemma_count_positive();
        }
        let (l2, l3, l4) = radix_powers(
            number_of_elements,
            Ghost(K::spec_number_of_graphlets()),
        );
        proof {
            let l = number_of_elements as int;
            lemma_powers_le_maximal(K::spec_number_of_graphlets(), l);
            lemma_partial_bound(self.0 as int, self.1 as int, self.2 as int, self.3 as int, l);
            assert(0 <= self.0 as int * (l * l * l) && self.0 as int * (l * l * l) <= (l - 1) * (l
                * l * l) && (l - 1) * (l * l * l) < l * l * l * l) by (nonlinear_arith)
                requires
                    l >= 2 && 0 <= self.0 < l,
            ;
            assert(0 <= self.1 as int * (l * l) && self.1 as int * (l * l) <= (l - 1) * (l * l) && (
            l - 1) * (l * l) < l * l * l) by (nonlinear_arith)
                requires
                    l >= 2 && 0 <= self.1 < l,
            ;
            assert(0 <= self.2 as int * l && self.2 as int * l <= (l - 1) * l && (l - 1) * l < l
                * l) by (nonlinear_arith)
                requires
                    l >= 2 && 0 <= self.2 < l,
            ;
        }
        self.0 * l3 + self.1 * l2 + self.2 * number_of_elements + self.3
    }

    fn decode_with_graphlet(encoded: usize, number_of_elements: usize) -> (r: Result<
        (K, Self),
        String,
    >) {
        proof {
            K::lemma_count_positive();
        }
        let (l2, l3, l4) = radix_powers(
            number_of_elements,
            Ghost(K::spec_number_of_graphlets()),
        );
        proof {
            lemma_powers_le_maximal(K::spec_number_of_graphlets(), number_of_elements as int);
        }
        let kind_digit = encoded / l4;
        let r4 = encoded % l4;
        let first = r4 / l3;
        let r3 = r4 % l3;
        let second = r3 / l2;
        let r2 = r3 % l2;
        let third = r2 / number_of_elements;
        let fourth = r2 % number_of_elements;
        match K::from_index(kind_digit) {
            Some(kind) => Ok((kind, (first, second, third, fourth))),
            None => Err(String::from_str(
                "the kind digit of the hash value falls outside the graphlet enumeration",
            )),
        }
    }

    fn add_graphlet_kind(
        partially_encoded: usize,
        graphlet_kind: K,
        number_of_elements: usize,
    ) -> (r: usize) {
        proof {
            graphlet_kind.lemma_index_in_range();
        }
        let (l2, l3, l4) = radix_powers(
            number_of_elements,
            Ghost(K::spec_number_of_graphlets()),
        );
        let kind_index = graphlet_kind.index();
        proof {
            let l = number_of_elements as int;
            lemma_powers_le_maximal(K::spec_number_of_graphlets(), l);
            lemma_mul_inequality(
                kind_index as int,
                K::spec_number_of_graphlets() - 1,
                l * l * l * l,
            );
            assert(0 <= kind_index as int * (l * l * l * l)) by (nonlinear_arith)
                requires
                    0 <= kind_index && 0 < l * l * l * l,
            ;
            assert((K::spec_number_of_graphlets() - 1) * (l * l * l * l) + l * l * l * l
                == K::spec_number_of_graphlets() * (l * l * l * l)) by (nonlinear_arith);
        }
        kind_index * l4 + partially_encoded % l4
    }

    fn decode_graphlet_kind(encoded: usize, number_of_elements: usize) -> (r: Result<K, String>) {
        proof {
            K::lemma_count_positive();
        }
        let (l2, l3, l4) = radix_powers(
            number_of_elements,
            Ghost(K::spec_number_of_graphlets()),
        );
        proof {
            lemma_powers_le_maximal(K::spec_number_of_graphlets(), number_of_elements as int);
        }
        let kind_digit = encoded / l4;
        match K::from_index(kind_digit) {
            Some(kind) => Ok(kind),
            None => Err(String::from_str(
                "the kind digit of the hash value falls outside the graphlet enumeration",
            )),
        }
    }

    fn maximal_hash(number_of_elements: usize) -> (r: usize) {
        proof {
            K::lemma_count_positive();
        }
        let (l2, l3, l4) = radix_powers(
            number_of_elements,
            Ghost(K::spec_number_of_graphlets()),
        );
        let number_of_graphlets = K::get_number_of_graphlets();
        proof {
            let l = number_of_elements as int;
            lemma_powers_le_maximal(K::spec_number_of_graphlets(), l);
        }
        l4 * number_of_graphlets + l4 + l3 + l2 + number_of_elements
    }
}

} // verus!
