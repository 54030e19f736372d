//! Closed-form derivations of the four orbit counts that a single merge
//! scan cannot observe directly.
//!
//! Each formula subtracts a directly counted quantity from a product of
//! per-label tallies.  The executable functions evaluate the formulas in
//! 128-bit arithmetic and clamp the result into the `usize` range: for
//! tallies produced by a correct scan of a real graph the subtraction
//! never goes negative and the values fit, so the clamped result equals
//! the exact formula.

use vstd::prelude::*;

use crate::utils::{sat_cap, spec_binomial_two};

verus! {

/// Four-path center orbits when both free labels coincide:
/// `src_excl * dst_excl - four_cycle`.
pub open spec fn spec_four_path_center_homo(four_cycle: int, s: int, d: int) -> int {
    s * d - four_cycle
}

/// Four-path center orbits for two distinct labels:
/// `src_excl(row) * dst_excl(col) + src_excl(col) * dst_excl(row) - four_cycle`.
pub open spec fn spec_four_path_center_hetero(
    four_cycle: int,
    s_row: int,
    d_row: int,
    s_col: int,
    d_col: int,
) -> int {
    s_row * d_col + s_col * d_row - four_cycle
}

/// Four-star orbits when both free labels coincide:
/// `C(src_excl, 2) + C(dst_excl, 2) - tailed_tri_tail`.
pub open spec fn spec_four_star_homo(tailed_tri_tail: int, s: int, d: int) -> int {
    spec_binomial_two(s) + spec_binomial_two(d) - tailed_tri_tail
}

/// Four-star orbits for two distinct labels:
/// `src_excl(row) * src_excl(col) + dst_excl(row) * dst_excl(col) - tailed_tri_tail`.
pub open spec fn spec_four_star_hetero(
    tailed_tri_tail: int,
    s_row: int,
    d_row: int,
    s_col: int,
    d_col: int,
) -> int {
    s_row * s_col + d_col * d_row - tailed_tri_tail
}

/// Tailed-triangle tri-edge orbits when both free labels coincide:
/// `triangle * (src_excl + dst_excl) - chordal_cycle_edge`.
pub open spec fn spec_tailed_tri_edge_homo(
    chordal_cycle_edge: int,
    triangle: int,
    s: int,
    d: int,
) -> int {
    triangle * (s + d) - chordal_cycle_edge
}

/// Tailed-triangle tri-edge orbits for two distinct labels:
/// `triangle(row) * (src_excl(col) + dst_excl(col))
///  + triangle(col) * (src_excl(row) + dst_excl(row)) - chordal_cycle_edge`.
pub open spec fn spec_tailed_tri_edge_hetero(
    chordal_cycle_edge: int,
    tri_row: int,
    tri_col: int,
    s_row: int,
    d_row: int,
    s_col: int,
    d_col: int,
) -> int {
    tri_row * (s_col + d_col) + tri_col * (s_row + d_row) - chordal_cycle_edge
}

/// Chordal-cycle center orbits when both free labels coincide:
/// `C(triangle, 2) - four_clique`.
pub open spec fn spec_chordal_cycle_center_homo(four_clique: int, triangle: int) -> int {
    spec_binomial_two(triangle) - four_clique
}

/// Chordal-cycle center orbits for two distinct labels:
/// `triangle(row) * triangle(col) - four_clique`.
pub open spec fn spec_chordal_cycle_center_hetero(
    four_clique: int,
    tri_row: int,
    tri_col: int,
) -> int {
    tri_row * tri_col - four_clique
}

/// Every `usize` fits in 64 bits, whichever width the platform gives it.
proof fn lemma_usize_le_u64max(x: usize)
    ensures
        x as int <= 0xFFFF_FFFF_FFFF_FFFF,
{
}

/// The product of two `usize` values fits in a `u128`.
proof fn lemma_usize_product_fits(a: usize, b: usize)
    ensures
        0 <= (a as int) * (b as int) <= 0xFFFF_FFFF_FFFF_FFFF * 0xFFFF_FFFF_FFFF_FFFF,
        (a as int) * (b as int) < u128::MAX,
{
    lemma_usize_le_u64max(a);
    lemma_usize_le_u64max(b);
    assert(0 <= (a as int) * (b as int) <= 0xFFFF_FFFF_FFFF_FFFF * 0xFFFF_FFFF_FFFF_FFFF)
        by (nonlinear_arith)
        requires
            0 <= a as int <= 0xFFFF_FFFF_FFFF_FFFF && 0 <= b as int <= 0xFFFF_FFFF_FFFF_FFFF,
    ;
}

/// Clamps `minuend - subtrahend` into the `usize` range, where `minuend`
/// is the exact total unless it saturated at `u128::MAX`; in the saturated
/// case the difference lies far above `usize::MAX` either way.
fn clamped_difference(minuend: u128, subtrahend: usize, Ghost(exact): Ghost<int>) -> (r: usize)
    requires
        exact >= 0,
        minuend == exact || (minuend == u128::MAX && exact >= u128::MAX),
    ensures
        r == sat_cap(exact - subtrahend),
{
    proof {
        lemma_usize_le_u64max(subtrahend);
    }
    let wide = minuend.saturating_sub(subtrahend as u128);
    if wide > usize::MAX as u128 {
        usize::MAX
    } else {
        wide as usize
    }
}

/// Returns the number of 4-path center orbits associated to the provided
/// edge, for one label carried by both free slots.
pub fn get_homogeneously_typed_four_path_orbit_count(
    typed_four_cycle_count: usize,
    number_of_src_neighbours: usize,
    number_of_dst_neighbours: usize,
) -> (r: usize)
    ensures
        r == sat_cap(
            spec_four_path_center_homo(
                typed_four_cycle_count as int,
                number_of_src_neighbours as int,
                number_of_dst_neighbours as int,
            ),
        ),
        0 <= spec_four_path_center_homo(
            typed_four_cycle_count as int,
            number_of_src_neighbours as int,
            number_of_dst_neighbours as int,
        ) <= usize::MAX ==> r == spec_four_path_center_homo(
            typed_four_cycle_count as int,
            number_of_src_neighbours as int,
            number_of_dst_neighbours as int,
        ),
{
    proof {
        lemma_usize_product_fits(number_of_src_neighbours, number_of_dst_neighbours);
    }
    let product = (number_of_src_neighbours as u128) * (number_of_dst_neighbours as u128);
    clamped_difference(
        product,
        typed_four_cycle_count,
        Ghost((number_of_src_neighbours as int) * (number_of_dst_neighbours as int)),
    )
}

/// Returns the number of 4-path center orbits associated to the provided
/// edge, for a pair of distinct row and column labels.
pub fn get_heterogeneously_typed_four_path_orbit_count(
    typed_four_cycle_count: usize,
    number_of_src_neighbours_with_row_label: usize,
    number_of_dst_neighbours_with_row_label: usize,
    number_of_src_neighbours_with_column_label: usize,
    number_of_dst_neighbours_with_column_label: usize,
) -> (r: usize)
    ensures
        r == sat_cap(
            spec_four_path_center_hetero(
                typed_four_cycle_count as int,
                number_of_src_neighbours_with_row_label as int,
                number_of_dst_neighbours_with_row_label as int,
                number_of_src_neighbours_with_column_label as int,
                number_of_dst_neighbours_with_column_label as int,
            ),
        ),
        0 <= spec_four_path_center_hetero(
            typed_four_cycle_count as int,
            number_of_src_neighbours_with_row_label as int,
            number_of_dst_neighbours_with_row_label as int,
            number_of_src_neighbours_with_column_label as int,
            number_of_dst_neighbours_with_column_label as int,
        ) <= usize::MAX ==> r == spec_four_path_center_hetero(
            typed_four_cycle_count as int,
            number_of_src_neighbours_with_row_label as int,
            number_of_dst_neighbours_with_row_label as int,
            number_of_src_neighbours_with_column_label as int,
            number_of_dst_neighbours_with_column_label as int,
        ),
{
    proof {
        lemma_usize_product_fits(
            number_of_src_neighbours_with_row_label,
            number_of_dst_neighbours_with_column_label,
        );
        lemma_usize_product_fits(
            number_of_src_neighbours_with_column_label,
            number_of_dst_neighbours_with_row_label,
        );
    }
    let p1 = (number_of_src_neighbours_with_row_label as u128)
        * (number_of_dst_neighbours_with_column_label as u128);
    let p2 = (number_of_src_neighbours_with_column_label as u128)
        * (number_of_dst_neighbours_with_row_label as u128);
    let total = p1.saturating_add(p2);
    clamped_difference(total, typed_four_cycle_count, Ghost(p1 as int + p2 as int))
}

/// Returns the number of typed 4-star orbits associated to the provided
/// edge, for one label carried by both free slots.
pub fn get_homogeneously_typed_four_star_orbit_count(
    typed_tailed_triangle_tail_edge_count: usize,
    number_of_src_neighbours: usize,
    number_of_dst_neighbours: usize,
) -> (r: usize)
    ensures
        r == sat_cap(
            spec_four_star_homo(
                typed_tailed_triangle_tail_edge_count as int,
                number_of_src_neighbours as int,
                number_of_dst_neighbours as int,
            ),
        ),
        0 <= spec_four_star_homo(
            typed_tailed_triangle_tail_edge_count as int,
            number_of_src_neighbours as int,
            number_of_dst_neighbours as int,
        ) <= usize::MAX ==> r == spec_four_star_homo(
            typed_tailed_triangle_tail_edge_count as int,
            number_of_src_neighbours as int,
            number_of_dst_neighbours as int,
        ),
{
    let b1 = wide_binomial_two(number_of_src_neighbours);
    let b2 = wide_binomial_two(number_of_dst_neighbours);
    proof {
        lemma_usize_product_fits(number_of_src_neighbours, number_of_src_neighbours);
        lemma_usize_product_fits(number_of_dst_neighbours, number_of_dst_neighbours);
    }
    let total = b1 + b2;
    clamped_difference(
        total,
        typed_tailed_triangle_tail_edge_count,
        Ghost(b1 as int + b2 as int),
    )
}

/// Returns the number of typed 4-star orbits associated to the provided
/// edge, for a pair of distinct row and column labels.
pub fn get_heterogeneously_typed_four_star_orbit_count(
    typed_tailed_triangle_tail_edge_count: usize,
    number_of_src_neighbours_with_row_label: usize,
    number_of_dst_neighbours_with_row_label: usize,
    number_of_src_neighbours_with_column_label: usize,
    number_of_dst_neighbours_with_column_label: usize,
) -> (r: usize)
    ensures
        r == sat_cap(
            spec_four_star_hetero(
                typed_tailed_triangle_tail_edge_count as int,
                number_of_src_neighbours_with_row_label as int,
                number_of_dst_neighbours_with_row_label as int,
                number_of_src_neighbours_with_column_label as int,
                number_of_dst_neighbours_with_column_label as int,
            ),
        ),
        0 <= spec_four_star_hetero(
            typed_tailed_triangle_tail_edge_count as int,
            number_of_src_neighbours_with_row_label as int,
            number_of_dst_neighbours_with_row_label as int,
            number_of_src_neighbours_with_column_label as int,
            number_of_dst_neighbours_with_column_label as int,
        ) <= usize::MAX ==> r == spec_four_star_hetero(
            typed_tailed_triangle_tail_edge_count as int,
            number_of_src_neighbours_with_row_label as int,
            number_of_dst_neighbours_with_row_label as int,
            number_of_src_neighbours_with_column_label as int,
            number_of_dst_neighbours_with_column_label as int,
        ),
{
    proof {
        lemma_usize_product_fits(
            number_of_src_neighbours_with_row_label,
            number_of_src_neighbours_with_column_label,
        );
        lemma_usize_product_fits(
            number_of_dst_neighbours_with_column_label,
            number_of_dst_neighbours_with_row_label,
        );
    }
    let p1 = (number_of_src_neighbours_with_row_label as u128)
        * (number_of_src_neighbours_with_column_label as u128);
    let p2 = (number_of_dst_neighbours_with_column_label as u128)
        * (number_of_dst_neighbours_with_row_label as u128);
    let total = p1.saturating_add(p2);
    clamped_difference(
        total,
        typed_tailed_triangle_tail_edge_count,
        Ghost(p1 as int + p2 as int),
    )
}

/// Returns the number of typed tailed-triangle tri-edge orbits associated
/// to the provided edge, for one label carried by both free slots.
pub fn get_homogeneously_typed_tailed_triangle_tri_edge_orbit_count(
    typed_chordal_cycle_edge_count: usize,
    number_of_triangle_forming_neighbours: usize,
    number_of_src_neighbours: usize,
    number_of_dst_neighbours: usize,
) -> (r: usize)
    ensures
        r == sat_cap(
            spec_tailed_tri_edge_homo(
                typed_chordal_cycle_edge_count as int,
                number_of_triangle_forming_neighbours as int,
                number_of_src_neighbours as int,
                number_of_dst_neighbours as int,
            ),
        ),
        0 <= spec_tailed_tri_edge_homo(
            typed_chordal_cycle_edge_count as int,
            number_of_triangle_forming_neighbours as int,
            number_of_src_neighbours as int,
            number_of_dst_neighbours as int,
        ) <= usize::MAX ==> r == spec_tailed_tri_edge_homo(
            typed_chordal_cycle_edge_count as int,
            number_of_triangle_forming_neighbours as int,
            number_of_src_neighbours as int,
            number_of_dst_neighbours as int,
        ),
{
    let total = saturating_scaled_sum(
        number_of_triangle_forming_neighbours,
        number_of_src_neighbours,
        number_of_dst_neighbours,
    );
    clamped_difference(
        total,
        typed_chordal_cycle_edge_count,
        Ghost(
            (number_of_triangle_forming_neighbours as int) * (number_of_src_neighbours as int
                + number_of_dst_neighbours as int),
        ),
    )
}

/// Returns the number of typed tailed-triangle tri-edge orbits associated
/// to the provided edge, for a pair of distinct row and column labels.
pub fn get_heterogeneously_typed_tailed_triangle_tri_edge_orbit_count(
    typed_chordal_cycle_edge_count: usize,
    number_of_triangle_forming_neighbours_with_row_label: usize,
    number_of_triangle_forming_neighbours_with_column_label: usize,
    number_of_src_neighbours_with_row_label: usize,
    number_of_dst_neighbours_with_row_label: usize,
    number_of_src_neighbours_with_column_label: usize,
    number_of_dst_neighbours_with_column_label: usize,
) -> (r: usize)
    ensures
        r == sat_cap(
            spec_tailed_tri_edge_hetero(
                typed_chordal_cycle_edge_count as int,
                number_of_triangle_forming_neighbours_with_row_label as int,
                number_of_triangle_forming_neighbours_with_column_label as int,
                number_of_src_neighbours_with_row_label as int,
                number_of_dst_neighbours_with_row_label as int,
                number_of_src_neighbours_with_column_label as int,
                number_of_dst_neighbours_with_column_label as int,
            ),
        ),
        0 <= spec_tailed_tri_edge_hetero(
            typed_chordal_cycle_edge_count as int,
            number_of_triangle_forming_neighbours_with_row_label as int,
            number_of_triangle_forming_neighbours_with_column_label as int,
            number_of_src_neighbours_with_row_label as int,
            number_of_dst_neighbours_with_row_label as int,
            number_of_src_neighbours_with_column_label as int,
            number_of_dst_neighbours_with_column_label as int,
        ) <= usize::MAX ==> r == spec_tailed_tri_edge_hetero(
            typed_chordal_cycle_edge_count as int,
            number_of_triangle_forming_neighbours_with_row_label as int,
            number_of_triangle_forming_neighbours_with_column_label as int,
            number_of_src_neighbours_with_row_label as int,
            number_of_dst_neighbours_with_row_label as int,
            number_of_src_neighbours_with_column_label as int,
            number_of_dst_neighbours_with_column_label as int,
        ),
{
    let t1 = saturating_scaled_sum(
        number_of_triangle_forming_neighbours_with_row_label,
        number_of_src_neighbours_with_column_label,
        number_of_dst_neighbours_with_column_label,
    );
    let t2 = saturating_scaled_sum(
        number_of_triangle_forming_neighbours_with_column_label,
        number_of_src_neighbours_with_row_label,
        number_of_dst_neighbours_with_row_label,
    );
    let ghost e1 = (number_of_triangle_forming_neighbours_with_row_label as int) * (
    number_of_src_neighbours_with_column_label as int
        + number_of_dst_neighbours_with_column_label as int);
    let ghost e2 = (number_of_triangle_forming_neighbours_with_column_label as int) * (
    number_of_src_neighbours_with_row_label as int
        + number_of_dst_neighbours_with_row_label as int);
    let total = t1.saturating_add(t2);
    proof {
        assert(e1 >= 0 && e2 >= 0) by (nonlinear_arith)
            requires
                e1 == (number_of_triangle_forming_neighbours_with_row_label as int) * (
                number_of_src_neighbours_with_column_label as int
                    + number_of_dst_neighbours_with_column_label as int) && e2 == (
                number_of_triangle_forming_neighbours_with_column_label as int) * (
                number_of_src_neighbours_with_row_label as int
                    + number_of_dst_neighbours_with_row_label as int),
        ;
    }
    clamped_difference(total, typed_chordal_cycle_edge_count, Ghost(e1 + e2))
}

/// Returns the number of typed chordal-cycle center orbits associated to
/// the provided edge, for one label carried by both free slots.
pub fn get_homogeneously_typed_chordal_cycle_center_orbit_count(
    number_of_four_cliques_count: usize,
    number_of_triangle_forming_neighbours: usize,
) -> (r: usize)
    ensures
        r == sat_cap(
            spec_chordal_cycle_center_homo(
                number_of_four_cliques_count as int,
                number_of_triangle_forming_neighbours as int,
            ),
        ),
        0 <= spec_chordal_cycle_center_homo(
            number_of_four_cliques_count as int,
            number_of_triangle_forming_neighbours as int,
        ) <= usize::MAX ==> r == spec_chordal_cycle_center_homo(
            number_of_four_cliques_count as int,
            number_of_triangle_forming_neighbours as int,
        ),
{
    let b = wide_binomial_two(number_of_triangle_forming_neighbours);
    clamped_difference(b, number_of_four_cliques_count, Ghost(b as int))
}

/// Returns the number of typed chordal-cycle center orbits associated to
/// the provided edge, for a pair of distinct row and column labels.
pub fn get_heterogeneously_typed_chordal_cycle_center_orbit_count(
    number_of_four_cliques_count: usize,
    number_of_triangle_forming_neighbours_with_row_label: usize,
    number_of_triangle_forming_neighbours_with_column_label: usize,
) -> (r: usize)
    ensures
        r == sat_cap(
            spec_chordal_cycle_center_hetero(
                number_of_four_cliques_count as int,
                number_of_triangle_forming_neighbours_with_row_label as int,
                number_of_triangle_forming_neighbours_with_column_label as int,
            ),
        ),
        0 <= spec_chordal_cycle_center_hetero(
            number_of_four_cliques_count as int,
            number_of_triangle_forming_neighbours_with_row_label as int,
            number_of_triangle_forming_neighbours_with_column_label as int,
        ) <= usize::MAX ==> r == spec_chordal_cycle_center_hetero(
            number_of_four_cliques_count as int,
            number_of_triangle_forming_neighbours_with_row_label as int,
            number_of_triangle_forming_neighbours_with_column_label as int,
        ),
{
    proof {
        lemma_usize_product_fits(
            number_of_triangle_forming_neighbours_with_row_label,
            number_of_triangle_forming_neighbours_with_column_label,
        );
    }
    let product = (number_of_triangle_forming_neighbours_with_row_label as u128)
        * (number_of_triangle_forming_neighbours_with_column_label as u128);
    clamped_difference(
        product,
        number_of_four_cliques_count,
        Ghost(
            (number_of_triangle_forming_neighbours_with_row_label as int) * (
            number_of_triangle_forming_neighbours_with_column_label as int),
        ),
    )
}

/// The exact binomial coefficient "`x` choose two" in 128-bit width.
fn wide_binomial_two(x: usize) -> (r: u128)
    ensures
        r == spec_binomial_two(x as int),
        r <= 0xFFFF_FFFF_FFFF_FFFF * 0xFFFF_FFFF_FFFF_FFFE / 2,
{
    if x < 2 {
        proof {
            assert((x as int) * (x as int - 1) == 0) by (nonlinear_arith)
                requires
                    x == 0 || x == 1,
            ;
        }
        return 0;
    }
    proof {
        lemma_usize_le_u64max(x);
        assert((x as int) * (x as int - 1) <= 0xFFFF_FFFF_FFFF_FFFF * 0xFFFF_FFFF_FFFF_FFFE
            && 0 <= (x as int) * (x as int - 1)) by (nonlinear_arith)
            requires
                2 <= x as int <= 0xFFFF_FFFF_FFFF_FFFF,
        ;
    }
    proof {
        vstd::arithmetic::div_mod::lemma_div_is_ordered(
            (x as int) * (x as int - 1),
            0xFFFF_FFFF_FFFF_FFFFint * 0xFFFF_FFFF_FFFF_FFFEint,
            2,
        );
    }
    (x as u128) * ((x - 1) as u128) / 2
}

/// `triangle * (s + d)` in 128-bit width, saturating at `u128::MAX`; the
/// exact product exceeds `u128::MAX` only when it also exceeds any count
/// the caller could store.
fn saturating_scaled_sum(triangle: usize, s: usize, d: usize) -> (r: u128)
    ensures
        r == (triangle as int) * (s as int + d as int) || (r == u128::MAX && (triangle as int) * (
        s as int + d as int) >= u128::MAX),
{
    proof {
        lemma_usize_le_u64max(triangle);
        lemma_usize_le_u64max(s);
        lemma_usize_le_u64max(d);
    }
    let sum = (s as u128) + (d as u128);
    match (triangle as u128).checked_mul(sum) {
        Some(v) => v,
        None => u128::MAX,
    }
}

} // verus!
