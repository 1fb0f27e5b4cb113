use stellar_hash::anecdotes::{anecdote_lines, initial_anecdote, pick_anecdote};

#[test]
fn lines_skip_empty_ones() {
    let texte = "Alpha\n\nBeta\r\nGamma\n";
    assert_eq!(anecdote_lines(texte), vec!["Alpha", "Beta", "Gamma"]);
}

#[test]
fn lines_without_final_newline_and_lone_carriage_returns() {
    assert_eq!(anecdote_lines("a\r\n\r\nb"), vec!["a", "b"]);
    assert_eq!(anecdote_lines("x\ry\nz\r"), vec!["x\ry", "z\r"]);
    assert!(anecdote_lines("").is_empty());
    assert!(anecdote_lines("\n\n\r\n").is_empty());
    assert_eq!(anecdote_lines("é è\nà"), vec!["é è", "à"]);
}

#[test]
fn lines_agree_with_std() {
    let texte = "Le Soleil\nVénus tourne à l'envers\r\n\nUn an sur Mercure\n\n";
    let attendu: Vec<&str> = texte.lines().filter(|l| !l.is_empty()).collect();
    assert_eq!(anecdote_lines(texte), attendu);
}

#[test]
fn pick_by_time() {
    let lignes = anecdote_lines("un\ndeux\ntrois");
    assert_eq!(pick_anecdote(&lignes, 0).as_deref(), Some("un"));
    assert_eq!(pick_anecdote(&lignes, 4).as_deref(), Some("deux"));
    assert_eq!(pick_anecdote(&lignes, 1_000_001).as_deref(), Some("trois"));
    assert_eq!(pick_anecdote(&Vec::new(), 5), None);
}

#[test]
fn initial_fact() {
    assert_eq!(initial_anecdote("un\n\ndeux\n", 3), "deux");
    assert_eq!(initial_anecdote("\n\n", 3), "Base de données vide.");
    assert_eq!(initial_anecdote("", 0), "Base de données vide.");
}
