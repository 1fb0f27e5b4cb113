use stellar_hash::univers::{
    collect_distant, despawn_radius, distant_stars, forget_distant_sectors, load_sectors_around,
    sector_within, vision_radius, LoadedSectors, Star,
};

const TAILLE_SECTEUR: f32 = 80.0;

/// The grid sector under a world position, as the game computes it.
fn cellule(pos: f32) -> i32 {
    (pos / TAILLE_SECTEUR).round() as i32
}

/// The zoom times a thousand, as the game hands it to the grid.
fn zoom_echelonne(zoom: f32) -> i32 {
    (1000.0 * zoom) as i32
}

fn fraction(hash: u32) -> f32 {
    (hash as f32) / (u32::MAX as f32)
}

#[test]
fn test_generer_univers_charge_les_premiers_secteurs() {
    let mut secteurs = LoadedSectors::new();
    assert!(secteurs.is_empty());

    let rayon = vision_radius(zoom_echelonne(1.0));
    let nouveaux = load_sectors_around(&mut secteurs, cellule(0.0), cellule(0.0), rayon, 42);

    assert!(
        !secteurs.is_empty(),
        "The sectors around the camera should have been generated."
    );

    let nombre_etoiles = nouveaux.iter().filter(|s| fraction(s.hash) > 0.95).count();
    assert!(
        nombre_etoiles > 0,
        "At least one star should have appeared with this seed."
    );
}

#[test]
fn test_generer_univers_ignore_les_micro_mouvements() {
    let mut secteurs = LoadedSectors::new();
    let rayon = vision_radius(zoom_echelonne(1.0));
    load_sectors_around(&mut secteurs, cellule(0.0), cellule(0.0), rayon, 42);
    let secteurs_avant = secteurs.len();

    // A 15-unit move stays in the same sector: nothing new is loaded.
    let nouveaux = load_sectors_around(&mut secteurs, cellule(15.0), cellule(0.0), rayon, 42);
    let secteurs_apres = secteurs.len();
    assert!(nouveaux.is_empty());
    assert_eq!(
        secteurs_avant, secteurs_apres,
        "The function should have returned early without loading new sectors."
    );
}

#[test]
fn test_generer_univers_reprend_apres_grand_deplacement() {
    let mut secteurs = LoadedSectors::new();
    let rayon = vision_radius(zoom_echelonne(1.0));
    load_sectors_around(&mut secteurs, cellule(0.0), cellule(0.0), rayon, 42);
    let secteurs_avant = secteurs.len();

    load_sectors_around(&mut secteurs, cellule(1000.0), cellule(1000.0), rayon, 42);
    let secteurs_apres = secteurs.len();
    assert!(
        secteurs_apres > secteurs_avant,
        "The camera teleported 1,000 units; new sectors should have been loaded."
    );
}

#[test]
fn test_garbage_collector_nettoie_hors_limites() {
    let etoiles = vec![
        Star { grille_x: 2, grille_y: 2 },
        Star { grille_x: 50, grille_y: 50 },
    ];
    let mut secteurs = LoadedSectors::new();
    secteurs.insert(2, 2);
    secteurs.insert(50, 50);

    let a_retirer = collect_distant(
        &mut secteurs,
        &etoiles,
        cellule(100.0),
        cellule(0.0),
        zoom_echelonne(1.0),
    );

    // The nearby star survives, the distant one is removed.
    assert_eq!(a_retirer, vec![1]);

    assert!(secteurs.contains(2, 2));
    assert!(
        !secteurs.contains(50, 50),
        "The distant sector should have been removed from memory."
    );
}

#[test]
fn vision_radius_values() {
    assert_eq!(vision_radius(1000), 12);
    assert_eq!(vision_radius(0), 10);
    assert_eq!(vision_radius(-5000), 10);
    assert_eq!(vision_radius(799), 10);
    assert_eq!(vision_radius(800), 10);
    assert_eq!(vision_radius(880), 11);
    assert_eq!(vision_radius(8079), 100);
    assert_eq!(vision_radius(50_000), 100);
    assert_eq!(vision_radius(i32::MAX), 100);
    assert_eq!(vision_radius(i32::MIN), 10);
    assert_eq!(despawn_radius(1000), 17);
    assert_eq!(despawn_radius(100), 15);
    assert_eq!(despawn_radius(50_000), 105);
}

#[test]
fn load_window_order_and_hashes() {
    let mut secteurs = LoadedSectors::new();
    secteurs.insert(0, 0);
    let nouveaux = load_sectors_around(&mut secteurs, 0, 0, 1, 7);
    let cellules: Vec<(i32, i32)> = nouveaux.iter().map(|s| (s.x, s.y)).collect();
    assert_eq!(
        cellules,
        vec![(-1, -1), (-1, 0), (-1, 1), (0, -1), (0, 1), (1, -1), (1, 0), (1, 1)]
    );
    for s in &nouveaux {
        assert_eq!(s.hash, stellar_hash::generation::calculer_hachage_spatial(s.x, s.y, 7));
    }
    assert_eq!(secteurs.len(), 9);
}

#[test]
fn load_negative_radius_loads_nothing() {
    let mut secteurs = LoadedSectors::new();
    let nouveaux = load_sectors_around(&mut secteurs, 3, 3, -1, 7);
    assert!(nouveaux.is_empty());
    assert!(secteurs.is_empty());
}

#[test]
fn load_at_the_edge_of_the_grid() {
    let mut secteurs = LoadedSectors::new();
    let nouveaux = load_sectors_around(&mut secteurs, i32::MAX - 2, i32::MIN + 2, 2, 1);
    assert_eq!(nouveaux.len(), 25);
    assert!(secteurs.contains(i32::MAX, i32::MIN));
    assert_eq!(nouveaux.last().map(|s| (s.x, s.y)), Some((i32::MAX, i32::MIN + 4)));
}

#[test]
fn reload_loads_nothing() {
    let mut secteurs = LoadedSectors::new();
    let premier = load_sectors_around(&mut secteurs, -4, 9, 10, 42);
    assert_eq!(premier.len(), 21 * 21);
    let second = load_sectors_around(&mut secteurs, -4, 9, 10, 42);
    assert!(second.is_empty());
    assert_eq!(secteurs.len(), 21 * 21);
}

#[test]
fn collector_keeps_the_view() {
    let mut secteurs = LoadedSectors::new();
    let z = zoom_echelonne(1.0);
    let nouveaux = load_sectors_around(&mut secteurs, 30, -30, vision_radius(z), 3);
    let etoiles: Vec<Star> = nouveaux
        .iter()
        .map(|s| Star { grille_x: s.x, grille_y: s.y })
        .collect();
    secteurs.insert(30 + 18, -30);
    let a_retirer = collect_distant(&mut secteurs, &etoiles, 30, -30, z);
    assert!(a_retirer.is_empty());
    for s in &nouveaux {
        assert!(secteurs.contains(s.x, s.y));
    }
    assert!(!secteurs.contains(30 + 18, -30));
    assert_eq!(secteurs.len(), 25 * 25);
}

#[test]
fn forget_and_distant_stars() {
    let mut secteurs = LoadedSectors::new();
    for x in -5..=5 {
        secteurs.insert(x, 0);
    }
    forget_distant_sectors(&mut secteurs, 0, 0, 2);
    assert_eq!(secteurs.len(), 5);
    assert!(secteurs.contains(-2, 0));
    assert!(!secteurs.contains(3, 0));

    let etoiles = vec![
        Star { grille_x: 0, grille_y: 0 },
        Star { grille_x: 5, grille_y: 0 },
        Star { grille_x: 0, grille_y: -3 },
        Star { grille_x: i32::MIN, grille_y: i32::MAX },
    ];
    assert_eq!(distant_stars(&etoiles, 0, 0, 2), vec![1, 2, 3]);
    assert_eq!(distant_stars(&etoiles, 0, 0, 5), vec![3]);
}

#[test]
fn neighbourhood_of_a_cell() {
    let etoile = Star { grille_x: 4, grille_y: -2 };
    assert!(etoile.is_near_cell(4, -2));
    assert!(etoile.is_near_cell(5, -1));
    assert!(etoile.is_near_cell(3, -3));
    assert!(!etoile.is_near_cell(6, -2));
    assert!(!etoile.is_near_cell(4, 0));
    assert!(etoile.is_within(0, 0, 4));
    assert!(!etoile.is_within(0, 0, 3));
    assert!(sector_within(i32::MAX, 0, i32::MIN, 0, i32::MAX) == false);
    assert!(sector_within(0, 0, 0, 0, 0));
    assert!(!sector_within(0, 0, 0, 0, -1));
}

#[test]
fn insert_reports_novelty() {
    let mut secteurs = LoadedSectors::new();
    assert!(secteurs.insert(1, 2));
    assert!(!secteurs.insert(1, 2));
    assert_eq!(secteurs.len(), 1);
}
