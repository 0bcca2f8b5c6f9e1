use swiss_pairing::contestant::Contestant;
use swiss_pairing::errors::TournamentError;
use swiss_pairing::ingest::{ingest_result, GameRecord};
use swiss_pairing::pairing::pair_round;
use swiss_pairing::registry::Registry;

fn pairing_roster(names: &[&str]) -> Registry {
    let mut r = Registry::new();
    for n in names {
        r.create(n.to_string()).unwrap();
    }
    r
}

fn bare(name: &str, history: &[&str]) -> Contestant {
    Contestant {
        name: name.to_string(),
        wins: 0,
        draws: 0,
        losses: 0,
        byes: 0,
        tiebreak: 0,
        history: history.iter().map(|h| h.to_string()).collect(),
        enabled: true,
    }
}

fn all_names(p: &swiss_pairing::pairing::RoundPairing) -> Vec<String> {
    let mut v: Vec<String> = Vec::new();
    for (a, b) in p.matchups.iter() {
        v.push(a.clone());
        v.push(b.clone());
    }
    if let Some(n) = &p.bye {
        v.push(n.clone());
    }
    v
}

#[test]
fn four_fresh_contestants_two_matchups_no_bye() {
    let r = pairing_roster(&["Alice", "Bob", "Carol", "Dave"]);
    let p = pair_round(&r).unwrap();
    assert_eq!(p.matchups.len(), 2);
    assert!(p.bye.is_none());
    let mut names = all_names(&p);
    names.sort();
    assert_eq!(names, vec!["Alice", "Bob", "Carol", "Dave"]);
}

#[test]
fn three_fresh_contestants_one_pair_one_bye() {
    let r = pairing_roster(&["Alice", "Bob", "Carol"]);
    let p = pair_round(&r).unwrap();
    assert_eq!(p.matchups.len(), 1);
    let bye = p.bye.clone().unwrap();
    let (a, b) = &p.matchups[0];
    assert_ne!(&bye, a);
    assert_ne!(&bye, b);
    let mut names = all_names(&p);
    names.sort();
    assert_eq!(names, vec!["Alice", "Bob", "Carol"]);
}

#[test]
fn constrained_contestant_gets_the_only_legal_opponent() {
    let r = Registry {
        contestants: vec![
            bare("Alice", &["Bob", "Carol"]),
            bare("Bob", &["Alice"]),
            bare("Carol", &["Alice"]),
            bare("Dave", &[]),
        ],
    };
    let p = pair_round(&r).unwrap();
    assert_eq!(p.matchups.len(), 2);
    assert!(p.bye.is_none());
    for (a, b) in p.matchups.iter() {
        if a == "Alice" || b == "Alice" {
            assert!(a == "Dave" || b == "Dave");
        } else {
            assert!((a == "Bob" && b == "Carol") || (a == "Carol" && b == "Bob"));
        }
    }
}

#[test]
fn no_pair_repeats_a_played_opponent() {
    let mut r = pairing_roster(&["Alice", "Bob", "Carol", "Dave"]);
    let rec = GameRecord::Match {
        name_a: "Alice".to_string(),
        outcome_a: "D".to_string(),
        name_b: "Bob".to_string(),
        outcome_b: "D".to_string(),
    };
    ingest_result(&mut r, &rec).unwrap();
    let rec2 = GameRecord::Match {
        name_a: "Carol".to_string(),
        outcome_a: "D".to_string(),
        name_b: "Dave".to_string(),
        outcome_b: "D".to_string(),
    };
    ingest_result(&mut r, &rec2).unwrap();
    let p = pair_round(&r).unwrap();
    for (a, b) in p.matchups.iter() {
        let i = r.find_index(a).unwrap();
        let j = r.find_index(b).unwrap();
        assert!(!r.contestants[i].history.contains(b));
        assert!(!r.contestants[j].history.contains(a));
    }
}

#[test]
fn lockstep_only_contestants_at_the_minimum_play() {
    let mut r = pairing_roster(&["Alice", "Bob", "Carol", "Dave"]);
    let rec = GameRecord::Match {
        name_a: "Alice".to_string(),
        outcome_a: "W".to_string(),
        name_b: "Bob".to_string(),
        outcome_b: "L".to_string(),
    };
    ingest_result(&mut r, &rec).unwrap();
    let p = pair_round(&r).unwrap();
    // Carol and Dave are the only contestants at zero games.
    assert_eq!(p.matchups.len(), 1);
    assert!(p.bye.is_none());
    let (a, b) = &p.matchups[0];
    let mut pair = vec![a.clone(), b.clone()];
    pair.sort();
    assert_eq!(pair, vec!["Carol", "Dave"]);
}

#[test]
fn identical_snapshots_pair_identically() {
    let r = Registry {
        contestants: vec![
            bare("Alice", &["Bob"]),
            bare("Bob", &["Alice"]),
            bare("Carol", &[]),
            bare("Dave", &[]),
            bare("Eve", &[]),
        ],
    };
    let p1 = pair_round(&r).unwrap();
    let p2 = pair_round(&r).unwrap();
    assert_eq!(p1.matchups, p2.matchups);
    assert_eq!(p1.bye, p2.bye);
}

#[test]
fn most_byes_is_selected_first() {
    let mut heavy = bare("Alice", &[]);
    heavy.byes = 2;
    heavy.wins = 2;
    let mut r = Registry {
        contestants: vec![heavy, bare("Bob", &[]), bare("Carol", &[]), bare("Dave", &[])],
    };
    // Bring everyone to the same played-game count.
    r.contestants[1].wins = 2;
    r.contestants[2].wins = 2;
    r.contestants[3].wins = 2;
    let p = pair_round(&r).unwrap();
    let (a, _) = &p.matchups[0];
    assert_eq!(a, "Alice");
}

#[test]
fn exhausted_history_fails_with_no_available_opponent() {
    let r = Registry {
        contestants: vec![bare("Alice", &["Bob"]), bare("Bob", &["Alice"])],
    };
    let e = pair_round(&r).unwrap_err();
    assert!(matches!(e, TournamentError::NoAvailableOpponent(n) if n == "Alice"));
}

#[test]
fn empty_registry_fails_with_empty_roster() {
    let r = Registry { contestants: Vec::new() };
    assert!(matches!(pair_round(&r).unwrap_err(), TournamentError::EmptyRoster));
}

#[test]
fn all_disabled_fails_with_empty_roster() {
    let mut r = pairing_roster(&["Alice", "Bob"]);
    r.apply_admin_disable("Alice".to_string()).unwrap();
    r.apply_admin_disable("Bob".to_string()).unwrap();
    assert!(matches!(pair_round(&r).unwrap_err(), TournamentError::EmptyRoster));
}

#[test]
fn disabled_contestant_is_invisible_until_reenabled() {
    let mut r = pairing_roster(&["Alice", "Bob", "Carol"]);
    r.apply_admin_disable("Carol".to_string()).unwrap();
    let p = pair_round(&r).unwrap();
    assert_eq!(p.matchups.len(), 1);
    assert!(p.bye.is_none());
    assert!(!all_names(&p).contains(&"Carol".to_string()));
    r.apply_admin_enable("Carol".to_string(), 0, 0, 0).unwrap();
    assert_eq!((r.contestants[2].wins, r.contestants[2].draws, r.contestants[2].losses), (0, 0, 0));
    let p2 = pair_round(&r).unwrap();
    assert!(all_names(&p2).contains(&"Carol".to_string()));
}

#[test]
fn highest_score_selected_and_closest_score_matched() {
    let mut r = Registry {
        contestants: vec![bare("Alice", &[]), bare("Bob", &[]), bare("Carol", &[]), bare("Dave", &[])],
    };
    // Equal games played, equal byes, equal options; Alice and Bob lead on
    // match points.
    r.contestants[0].wins = 1;
    r.contestants[1].wins = 1;
    r.contestants[2].losses = 1;
    r.contestants[3].losses = 1;
    let p = pair_round(&r).unwrap();
    assert_eq!(p.matchups.len(), 2);
    let (first_a, first_b) = &p.matchups[0];
    // The leader goes first and is matched to the equal-score contestant.
    assert_eq!(first_a, "Alice");
    assert_eq!(first_b, "Bob");
}
