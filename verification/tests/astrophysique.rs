use stellar_hash::astrophysique::{stellar_name, SpectralClass};

#[test]
fn test_coordonnees_negatives_generent_noms_valides() {
    let nom_positif = stellar_name(15, 30);
    let nom_negatif = stellar_name(-15, -30);

    assert_eq!(nom_positif, nom_negatif);
}

#[test]
fn name_exact_values() {
    assert_eq!(stellar_name(15, 30), "Wolf-2205");
    assert_eq!(stellar_name(0, 0), "Kepler-0");
    assert_eq!(stellar_name(1, 0), "Gliese-73");
    assert_eq!(stellar_name(0, 2), "Trappist-74");
    assert_eq!(stellar_name(4, 0), "Barnard-292");
    assert_eq!(stellar_name(-5, 0), "Sirius-365");
    assert_eq!(stellar_name(6, 0), "Kepler-438");
    // 137 * 73 = 10001, which wraps past 9999.
    assert_eq!(stellar_name(137, 0), "Sirius-2");
    assert_eq!(stellar_name(0, 270), "Kepler-9990");
}

#[test]
fn name_ignores_signs() {
    for (x, y) in [(3, 8), (-250, 17), (0, -9), (1000, -1000)] {
        let n = stellar_name(x, y);
        assert_eq!(n, stellar_name(-x, -y));
        assert_eq!(n, stellar_name(-x, y));
        assert_eq!(n, stellar_name(x, -y));
    }
}

#[test]
fn name_near_the_largest_coordinates() {
    // 73 * 29417196 = 2147455308 fits in an i32.
    let n = stellar_name(29417196, 0);
    assert_eq!(n, stellar_name(-29417196, 0));
    assert!(n.starts_with("Kepler-"));
}

#[test]
fn spectral_classes_compare() {
    assert_eq!(SpectralClass::G, SpectralClass::G);
    assert_ne!(SpectralClass::O, SpectralClass::M);
    let c = SpectralClass::K;
    let d = c;
    assert_eq!(format!("{:?}", d), "K");
}
