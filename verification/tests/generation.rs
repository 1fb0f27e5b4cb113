use stellar_hash::generation::calculer_hachage_spatial;

/// The hash read as a fraction of `u32::MAX`, as the game reads it.
fn fraction(hash: u32) -> f32 {
    (hash as f32) / (u32::MAX as f32)
}

#[test]
fn test_hachage_dans_les_limites() {
    let points_a_tester = [
        (0, 0, 12345),
        (10, 20, 9876),
        (-150, -300, 42),
        (i32::MAX, i32::MIN, u32::MAX),
    ];

    for (x, y, graine) in points_a_tester {
        let resultat = fraction(calculer_hachage_spatial(x, y, graine));

        assert!(
            resultat >= 0.0,
            "Le hachage doit être supérieur ou égal à 0.0"
        );
        assert!(
            resultat <= 1.0,
            "Le hachage doit être inférieur ou égal à 1.0"
        );
    }
}

#[test]
fn test_hachage_deterministe() {
    let x = 42;
    let y = -84;
    let graine = 9999;

    let premier_appel = fraction(calculer_hachage_spatial(x, y, graine));
    let deuxieme_appel = fraction(calculer_hachage_spatial(x, y, graine));

    assert_eq!(
        premier_appel, deuxieme_appel,
        "Le hachage doit être strictement déterministe pour les mêmes entrées"
    );
}

#[test]
fn test_graine_modifie_resultat() {
    let x = 100;
    let y = 100;

    let hachage_graine_1 = fraction(calculer_hachage_spatial(x, y, 1000));
    let hachage_graine_2 = fraction(calculer_hachage_spatial(x, y, 1001));

    assert_ne!(
        hachage_graine_1, hachage_graine_2,
        "Deux graines différentes doivent produire des hachages distincts"
    );
}

#[test]
fn test_coordonnees_differentes_et_negatives() {
    let graine = 12345;

    let hachage_positif = fraction(calculer_hachage_spatial(10, 10, graine));
    let hachage_negatif = fraction(calculer_hachage_spatial(-10, -10, graine));
    let hachage_mixte = fraction(calculer_hachage_spatial(-10, 10, graine));

    assert_ne!(
        hachage_positif, hachage_negatif,
        "Les coordonnées symétriques (10,10) et (-10,-10) ne doivent pas entrer en collision"
    );
    assert_ne!(
        hachage_positif, hachage_mixte,
        "Chaque quadrant de la grille spatiale doit générer des valeurs uniques"
    );
}

#[test]
fn hash_exact_values() {
    assert_eq!(calculer_hachage_spatial(0, 0, 12345), 1184403208);
    assert_eq!(calculer_hachage_spatial(10, 20, 9876), 2725701061);
    assert_eq!(calculer_hachage_spatial(-150, -300, 42), 787014327);
    assert_eq!(calculer_hachage_spatial(i32::MAX, i32::MIN, u32::MAX), 2707952109);
    assert_eq!(calculer_hachage_spatial(42, -84, 9999), 3935431379);
    assert_eq!(calculer_hachage_spatial(0, 0, 0), 0);
    assert_eq!(calculer_hachage_spatial(1, 2, 3), 255538502);
}

#[test]
fn hash_distinct_seeds_same_sector() {
    // One sector, a run of consecutive seeds: all hashes differ.
    let mut seen = Vec::new();
    for graine in 0..200u32 {
        let h = calculer_hachage_spatial(7, -3, graine);
        assert!(!seen.contains(&h));
        seen.push(h);
    }
}

#[test]
fn hash_distinct_along_row_and_column() {
    let mut row = Vec::new();
    let mut column = Vec::new();
    for k in -100..100i32 {
        let hr = calculer_hachage_spatial(k, 5, 42);
        let hc = calculer_hachage_spatial(5, k, 42);
        assert!(!row.contains(&hr));
        assert!(!column.contains(&hc));
        row.push(hr);
        column.push(hc);
    }
}
