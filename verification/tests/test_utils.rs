use heterogeneous_graphlets::binomial_two;
use heterogeneous_graphlets::integer_power;
use heterogeneous_graphlets::orbits::{
    get_heterogeneously_typed_chordal_cycle_center_orbit_count,
    get_heterogeneously_typed_four_path_orbit_count,
    get_heterogeneously_typed_four_star_orbit_count,
    get_heterogeneously_typed_tailed_triangle_tri_edge_orbit_count,
    get_homogeneously_typed_chordal_cycle_center_orbit_count,
    get_homogeneously_typed_four_path_orbit_count,
    get_homogeneously_typed_four_star_orbit_count,
    get_homogeneously_typed_tailed_triangle_tri_edge_orbit_count,
};

#[test]
fn test_binomial_two_values() {
    assert_eq!(binomial_two(0), 0);
    assert_eq!(binomial_two(1), 0);
    assert_eq!(binomial_two(2), 1);
    assert_eq!(binomial_two(5), 10);
    assert_eq!(binomial_two(100), 4950);
}

#[test]
fn test_integer_power_values() {
    assert_eq!(integer_power::<4>(3), 81);
    assert_eq!(integer_power::<3>(10), 1000);
    assert_eq!(integer_power::<1>(7), 7);
    assert_eq!(integer_power::<0>(9), 9);
}

#[test]
fn test_orbit_formulas_exact_values() {
    // four-path center: src_excl * dst_excl - four_cycle
    assert_eq!(get_homogeneously_typed_four_path_orbit_count(1, 2, 3), 5);
    assert_eq!(get_heterogeneously_typed_four_path_orbit_count(2, 1, 2, 3, 4), 1 * 4 + 3 * 2 - 2);
    // four-star: C(s,2) + C(d,2) - tailed_tri_tail
    assert_eq!(get_homogeneously_typed_four_star_orbit_count(1, 3, 4), 3 + 6 - 1);
    assert_eq!(get_heterogeneously_typed_four_star_orbit_count(0, 2, 3, 4, 5), 2 * 4 + 5 * 3);
    // tailed tri-edge: tri * (s + d) - chordal_cycle_edge
    assert_eq!(
        get_homogeneously_typed_tailed_triangle_tri_edge_orbit_count(2, 3, 1, 2),
        3 * 3 - 2
    );
    assert_eq!(
        get_heterogeneously_typed_tailed_triangle_tri_edge_orbit_count(1, 2, 3, 1, 1, 2, 2),
        2 * 4 + 3 * 2 - 1
    );
    // chordal-cycle center: C(tri,2) - four_clique
    assert_eq!(get_homogeneously_typed_chordal_cycle_center_orbit_count(2, 4), 4);
    assert_eq!(get_heterogeneously_typed_chordal_cycle_center_orbit_count(5, 3, 4), 7);
}

/// The formulas never go negative: when the subtracted count exceeds the
/// products (impossible on tallies from a real graph) they clamp at zero
/// instead of wrapping.
#[test]
fn test_orbit_formulas_clamp_at_zero() {
    assert_eq!(get_homogeneously_typed_four_path_orbit_count(100, 2, 3), 0);
    assert_eq!(get_homogeneously_typed_chordal_cycle_center_orbit_count(100, 2), 0);
}
