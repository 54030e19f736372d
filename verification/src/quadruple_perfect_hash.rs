//! A perfect hash for bare label quadruples, without a graphlet kind
//! digit, with the radix fixed at compile time.

use vstd::prelude::*;

use crate::perfect_graphlet_hash::{lemma_partial_bound, spec_encode_partial};

verus! {

/// A trait for quadruple perfect hash functions.
pub trait QuadruplePerfectHash<const N: usize>: Sized {
    /// The first label slot.
    spec fn spec_first(&self) -> usize;

    /// The second label slot.
    spec fn spec_second(&self) -> usize;

    /// The third label slot.
    spec fn spec_third(&self) -> usize;

    /// The fourth label slot.
    spec fn spec_fourth(&self) -> usize;

    /// Returns the hash value associated to the provided quadruple.
    fn encode_quadruple(&self) -> (r: usize)
        requires
            N >= 2,
            self.spec_first() < N,
            self.spec_second() < N,
            self.spec_third() < N,
            self.spec_fourth() < N,
            (N as int) * (N as int) * (N as int) * (N as int) <= usize::MAX,
        ensures
            r == spec_encode_partial(
                self.spec_first() as int,
                self.spec_second() as int,
                self.spec_third() as int,
                self.spec_fourth() as int,
                N as int,
            ),
    ;

    /// Returns the quadruple associated to the provided hash value, by
    /// successive division and remainder; the inverse of
    /// `encode_quadruple` on its image, and total on every value.
    fn decode_quadruple(encoded: usize) -> (r: Self)
        requires
            N >= 2,
            (N as int) * (N as int) * (N as int) * (N as int) <= usize::MAX,
        ensures
            r.spec_first() == encoded as int / ((N as int) * (N as int) * (N as int)),
            r.spec_second() < N,
            r.spec_third() < N,
            r.spec_fourth() < N,
            encoded < (N as int) * (N as int) * (N as int) * (N as int) ==> r.spec_first() < N,
            spec_encode_partial(
                r.spec_first() as int,
                r.spec_second() as int,
                r.spec_third() as int,
                r.spec_fourth() as int,
                N as int,
            ) == encoded,
    ;

    /// Returns the maximal hash value that can be encoded.
    fn maximal_hash() -> (r: usize)
        requires
            N >= 2,
            (N as int) * (N as int) * (N as int) * (N as int) + (N as int) * (N as int) * (N as int)
                + (N as int) * (N as int) + (N as int) <= usize::MAX,
        ensures
            r == (N as int) * (N as int) * (N as int) * (N as int) + (N as int) * (N as int) * (
            N as int) + (N as int) * (N as int) + (N as int),
    {
        proof {
            lemma_quadruple_powers(N as int);
        }
        N * N * N * N + N * N * N + N * N + N
    }
}

/// The radix powers are non-negative and ordered.
proof fn lemma_quadruple_powers(n: int)
    requires
        n >= 2,
    ensures
        0 < n * n,
        n * n <= n * n * n,
        n * n * n <= n * n * n * n,
{
    assert(0 < n * n && n * n <= n * n * n && n * n * n <= n * n * n * n) by (nonlinear_arith)
        requires
            n >= 2,
    ;
}

impl<const N: usize> QuadruplePerfectHash<N> for (usize, usize, usize, usize) {
    open spec fn spec_first(&self) -> usize {
        self.0
    }

    open spec fn spec_second(&self) -> usize {
        self.1
    }

    open spec fn spec_third(&self) -> usize {
        self.2
    }

    open spec fn spec_fourth(&self) -> usize {
        self.3
    }

    fn encode_quadruple(&self) -> (r: usize) {
        let (a, b, c, d) = *self;
        proof {
            lemma_quadruple_powers(N as int);
            lemma_partial_bound(a as int, b as int, c as int, d as int, N as int);
            assert(0 <= a as int * ((N as int) * (N as int) * (N as int)) && 0 <= b as int * ((
            N as int) * (N as int)) && 0 <= c as int * (N as int)) by (nonlinear_arith)
                requires
                    N >= 2 && 0 <= a && 0 <= b && 0 <= c,
            ;
        }
        a * (N * N * N) + b * (N * N) + c * N + d
    }

    fn decode_quadruple(encoded: usize) -> (r: (usize, usize, usize, usize)) {
        proof {
            lemma_quadruple_powers(N as int);
        }
        let n3 = N * N * N;
        let n2 = N * N;
        let a = encoded / n3;
        let r3 = encoded % n3;
        let b = r3 / n2;
        let r2 = r3 % n2;
        let c = r2 / N;
        let d = r2 % N;
        proof {
            let ni = N as int;
            if (encoded as int) < ni * ni * ni * ni {
                let ai = encoded as int / (ni * ni * ni);
                assert(0 <= ai < ni) by (nonlinear_arith)
                    requires
                        ni >= 2 && 0 <= encoded < ni * ni * ni * ni && ai == encoded as int / (ni
                            * ni * ni),
                ;
            }
            assert((b as int) < ni && (c as int) < ni) by (nonlinear_arith)
                requires
                    ni >= 2 && 0 <= r3 < ni * ni * ni && 0 <= r2 < ni * ni && b as int == r3 as int
                        / (ni * ni) && c as int == r2 as int / ni,
            ;
            vstd::arithmetic::div_mod::lemma_fundamental_div_mod(encoded as int, ni * ni * ni);
            vstd::arithmetic::div_mod::lemma_fundamental_div_mod(r3 as int, ni * ni);
            vstd::arithmetic::div_mod::lemma_fundamental_div_mod(r2 as int, ni);
            assert(b as int * (ni * ni) + r2 == r3 && 0 <= r2 < ni * ni) by (nonlinear_arith)
                requires
                    ni >= 2 && r3 as int == (ni * ni) * (r3 as int / (ni * ni)) + r3 as int % (ni
                        * ni) && b as int == r3 as int / (ni * ni) && r2 as int == r3 as int % (ni
                        * ni),
            ;
            assert(c as int * ni + d as int == r2 as int && 0 <= d < ni) by (nonlinear_arith)
                requires
                    ni >= 2 && r2 as int == ni * (r2 as int / ni) + r2 as int % ni && c as int
                        == r2 as int / ni && d as int == r2 as int % ni,
            ;
            assert(a as int * (ni * ni * ni) + r3 as int == encoded as int) by (nonlinear_arith)
                requires
                    ni >= 2 && encoded as int == (ni * ni * ni) * (encoded as int / (ni * ni * ni))
                        + encoded as int % (ni * ni * ni) && a as int == encoded as int / (ni * ni
                        * ni) && r3 as int == encoded as int % (ni * ni * ni),
            ;
            assert(spec_encode_partial(a as int, b as int, c as int, d as int, ni)
                == encoded as int) by (nonlinear_arith)
                requires
                    a as int * (ni * ni * ni) + r3 as int == encoded as int && b as int * (ni * ni)
                        + r2 as int == r3 as int && c as int * ni + d as int == r2 as int
                        && spec_encode_partial(a as int, b as int, c as int, d as int, ni) == a as int
                        * (ni * ni * ni) + b as int * (ni * ni) + c as int * ni + d as int,
            ;
        }
        (a, b, c, d)
    }
}

} // verus!
