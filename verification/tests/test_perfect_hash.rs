use heterogeneous_graphlets::graphlet_set::{ExtendedGraphletType, GraphletSet, ReducedGraphletType};
use heterogeneous_graphlets::quadruple_perfect_hash::QuadruplePerfectHash;
use heterogeneous_graphlets::perfect_graphlet_hash::PerfectGraphletHash;
use heterogeneous_graphlets::perfect_hash::PerfectHash;

/// Round-trip: decoding an encoded key recovers the labels and the kind,
/// for every label quadruple and kind over several label counts.
#[test]
fn test_round_trip_all_small_label_counts() {
    for l in 2usize..=4 {
        for kind_index in 0usize..12 {
            let kind = ExtendedGraphletType::from_index(kind_index).unwrap();
            for a in 0..l {
                for b in 0..l {
                    for c in 0..l {
                        for d in 0..l {
                            let encoded = (a, b, c, d).encode_with_graphlet(kind, l);
                            let (back_kind, back) =
                                <(usize, usize, usize, usize) as PerfectGraphletHash<
                                    ExtendedGraphletType,
                                >>::decode_with_graphlet(encoded, l)
                                .unwrap();
                            assert_eq!(back_kind.index(), kind_index);
                            assert_eq!(back, (a, b, c, d));
                        }
                    }
                }
            }
        }
    }
}

/// The documented maximal hash values for small label counts.
#[test]
fn test_maximal_hash_values() {
    assert_eq!(<(usize, usize, usize, usize) as PerfectHash>::maximal_hash(2), 222);
    assert_eq!(<(usize, usize, usize, usize) as PerfectHash>::maximal_hash(3), 1092);
    assert_eq!(<(usize, usize, usize, usize) as PerfectHash>::maximal_hash(4), 3412);
    assert_eq!(<(usize, usize, usize, usize) as PerfectHash>::maximal_hash(5), 8280);
    assert_eq!(<(usize, usize, usize, usize) as PerfectHash>::maximal_hash(6), 17106);
    assert_eq!(<(usize, usize, usize, usize) as PerfectHash>::maximal_hash(7), 31612);
}

/// The largest ordinary key stays below the maximal hash, and the bound is
/// attained by the all-dummy key.
#[test]
fn test_maximal_hash_is_a_tight_bound() {
    for l in 2usize..=6 {
        let max_kind = ExtendedGraphletType::FourClique;
        let largest_ordinary = (l - 1, l - 1, l - 1, l - 1).encode_with_graphlet(max_kind, l);
        let maximal = <(usize, usize, usize, usize) as PerfectGraphletHash<
            ExtendedGraphletType,
        >>::maximal_hash(l);
        assert!(largest_ordinary <= maximal);
        // equality is achievable: all label slots at the dummy value and the
        // kind digit at the category count give exactly the maximal hash
        let l4 = l * l * l * l;
        let all_dummy = 12 * l4 + l * (l * l * l) + l * (l * l) + l * l + l;
        assert_eq!(all_dummy, maximal);
    }
}

/// Decoding a key whose kind digit falls outside the enumeration is an
/// error, not a panic.
#[test]
fn test_decode_unknown_kind_is_recoverable() {
    let l = 3usize;
    let l4 = l * l * l * l;
    let bad = 12 * l4 + 5;
    let decoded = <(usize, usize, usize, usize) as PerfectGraphletHash<
        ExtendedGraphletType,
    >>::decode_with_graphlet(bad, l);
    assert!(decoded.is_err());
    let kind = <(usize, usize, usize, usize) as PerfectGraphletHash<
        ExtendedGraphletType,
    >>::decode_graphlet_kind(bad, l);
    assert!(kind.is_err());
}

/// The conventional orbit names resolve for kind digits one to twelve and
/// nothing else.
#[test]
fn test_get_graphlet_type_names() {
    let l = 4usize;
    let key_of = |kind: usize| (1usize, 2usize, 3usize, 1usize).encode(kind, l);
    assert_eq!(
        <(usize, usize, usize, usize) as PerfectHash>::get_graphlet_type(key_of(1), l),
        Ok("triad (g1)")
    );
    assert_eq!(
        <(usize, usize, usize, usize) as PerfectHash>::get_graphlet_type(key_of(12), l),
        Ok("four-clique (g12)")
    );
    assert!(<(usize, usize, usize, usize) as PerfectHash>::get_graphlet_type(key_of(0), l).is_ok()
        == false);
}

/// Adding a kind digit to a partial encoding matches encoding with the
/// kind from the start.
#[test]
fn test_add_graphlet_kind() {
    let l = 5usize;
    let quad = (4usize, 2usize, 0usize, 3usize);
    let partial = PerfectGraphletHash::<ExtendedGraphletType>::encode_partially(&quad, l);
    let with_kind = <(usize, usize, usize, usize) as PerfectGraphletHash<
        ExtendedGraphletType,
    >>::add_graphlet_kind(partial, ExtendedGraphletType::FourCycle, l);
    assert_eq!(with_kind, quad.encode_with_graphlet(ExtendedGraphletType::FourCycle, l));
}

/// The reduced category set round-trips through its ordinal values.
#[test]
fn test_reduced_kind_round_trip() {
    for i in 0usize..8 {
        let kind = ReducedGraphletType::from_index(i).unwrap();
        assert_eq!(kind.index(), i);
    }
    assert!(ReducedGraphletType::from_index(8).is_none());
    assert_eq!(ReducedGraphletType::get_number_of_graphlets(), 8);
    assert_eq!(ReducedGraphletType::ChordalCycle.name(), "ChordalCycle");
}

/// The bare quadruple hash round-trips.
#[test]
fn test_quadruple_round_trip() {
    let quad = (3usize, 0usize, 4usize, 1usize);
    let encoded = QuadruplePerfectHash::<5>::encode_quadruple(&quad);
    assert_eq!(encoded, 3 * 125 + 0 * 25 + 4 * 5 + 1);
    let back: (usize, usize, usize, usize) = QuadruplePerfectHash::<5>::decode_quadruple(encoded);
    assert_eq!(back, quad);
    assert_eq!(
        <(usize, usize, usize, usize) as QuadruplePerfectHash<5>>::maximal_hash(),
        625 + 125 + 25 + 5
    );
}
