use swiss_pairing::errors::TournamentError;
use swiss_pairing::ingest::{ingest_result, parse_outcome, GameRecord, Outcome};
use swiss_pairing::registry::Registry;

fn ingest_roster(names: &[&str]) -> Registry {
    let mut r = Registry::new();
    for n in names {
        r.create(n.to_string()).unwrap();
    }
    r
}

fn game(a: &str, oa: &str, b: &str, ob: &str) -> GameRecord {
    GameRecord::Match {
        name_a: a.to_string(),
        outcome_a: oa.to_string(),
        name_b: b.to_string(),
        outcome_b: ob.to_string(),
    }
}

#[test]
fn parse_outcome_recognizes_tokens() {
    assert_eq!(parse_outcome(&"W".to_string()).unwrap(), Outcome::Win);
    assert_eq!(parse_outcome(&"D".to_string()).unwrap(), Outcome::Draw);
    assert_eq!(parse_outcome(&"L".to_string()).unwrap(), Outcome::Loss);
    let e = parse_outcome(&"X".to_string()).unwrap_err();
    assert!(matches!(e, TournamentError::InvalidOutcome(t) if t == "X"));
}

#[test]
fn match_record_updates_both_sides() {
    let mut r = ingest_roster(&["Alice", "Bob"]);
    ingest_result(&mut r, &game("Alice", "W", "Bob", "L")).unwrap();
    assert_eq!(r.contestants[0].wins, 1);
    assert_eq!(r.contestants[1].losses, 1);
    assert_eq!(r.contestants[0].history, vec!["Bob".to_string()]);
    assert_eq!(r.contestants[1].history, vec!["Alice".to_string()]);
}

#[test]
fn history_symmetry_after_ingestion() {
    let mut r = ingest_roster(&["Alice", "Bob", "Carol", "Dave"]);
    ingest_result(&mut r, &game("Alice", "W", "Bob", "L")).unwrap();
    ingest_result(&mut r, &game("Carol", "D", "Dave", "D")).unwrap();
    ingest_result(&mut r, &game("Alice", "L", "Carol", "W")).unwrap();
    for i in 0..r.contestants.len() {
        for opp in r.contestants[i].history.clone() {
            let j = r.find_index(&opp).unwrap();
            let me = r.contestants[i].name.clone();
            assert!(r.contestants[j].history.contains(&me));
        }
    }
}

#[test]
fn history_holds_no_duplicates() {
    let mut r = ingest_roster(&["Alice", "Bob"]);
    ingest_result(&mut r, &game("Alice", "W", "Bob", "L")).unwrap();
    ingest_result(&mut r, &game("Alice", "L", "Bob", "W")).unwrap();
    assert_eq!(r.contestants[0].history, vec!["Bob".to_string()]);
    assert_eq!(r.contestants[0].wins, 1);
    assert_eq!(r.contestants[0].losses, 1);
}

#[test]
fn match_points_never_decrease_under_ingestion() {
    let mut r = ingest_roster(&["Alice", "Bob"]);
    let records = vec![
        game("Alice", "W", "Bob", "L"),
        game("Alice", "L", "Bob", "W"),
        game("Alice", "D", "Bob", "D"),
    ];
    let mut prev: Vec<u64> = r.contestants.iter().map(|c| c.match_points()).collect();
    for rec in records {
        ingest_result(&mut r, &rec).unwrap();
        let now: Vec<u64> = r.contestants.iter().map(|c| c.match_points()).collect();
        for k in 0..prev.len() {
            assert!(now[k] >= prev[k]);
        }
        prev = now;
    }
    assert_eq!(r.contestants[0].match_points(), 3);
    assert_eq!(r.contestants[1].match_points(), 3);
}

#[test]
fn unknown_first_name_fails_and_leaves_registry_alone() {
    let mut r = ingest_roster(&["Alice", "Bob"]);
    let e = ingest_result(&mut r, &game("Eve", "W", "Bob", "L")).unwrap_err();
    assert!(matches!(e, TournamentError::UnknownContestant(n) if n == "Eve"));
    assert_eq!(r.contestants[1].losses, 0);
}

#[test]
fn unknown_second_name_fails_and_leaves_registry_alone() {
    let mut r = ingest_roster(&["Alice", "Bob"]);
    let e = ingest_result(&mut r, &game("Alice", "W", "Eve", "L")).unwrap_err();
    assert!(matches!(e, TournamentError::UnknownContestant(n) if n == "Eve"));
    assert_eq!(r.contestants[0].wins, 0);
    assert!(r.contestants[0].history.is_empty());
}

#[test]
fn bad_outcome_token_fails_with_invalid_outcome() {
    let mut r = ingest_roster(&["Alice", "Bob"]);
    let e = ingest_result(&mut r, &game("Alice", "Q", "Bob", "L")).unwrap_err();
    assert!(matches!(e, TournamentError::InvalidOutcome(t) if t == "Q"));
    let e2 = ingest_result(&mut r, &game("Alice", "W", "Bob", "?")).unwrap_err();
    assert!(matches!(e2, TournamentError::InvalidOutcome(t) if t == "?"));
    assert_eq!(r.contestants[0].wins, 0);
}

#[test]
fn bye_record_counts_a_win_and_a_bye() {
    let mut r = ingest_roster(&["Alice", "Bob"]);
    ingest_result(&mut r, &GameRecord::Bye { name: "Alice".to_string() }).unwrap();
    assert_eq!(r.contestants[0].wins, 1);
    assert_eq!(r.contestants[0].byes, 1);
    assert!(r.contestants[0].history.is_empty());
    assert_eq!(r.contestants[1].wins, 0);
}

#[test]
fn bye_for_unknown_name_fails() {
    let mut r = ingest_roster(&["Alice"]);
    let e = ingest_result(&mut r, &GameRecord::Bye { name: "Eve".to_string() }).unwrap_err();
    assert!(matches!(e, TournamentError::UnknownContestant(n) if n == "Eve"));
}
