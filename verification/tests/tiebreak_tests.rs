use swiss_pairing::contestant::Contestant;
use swiss_pairing::errors::TournamentError;
use swiss_pairing::ingest::{ingest_result, GameRecord};
use swiss_pairing::registry::Registry;
use swiss_pairing::tiebreak::calculate_tiebreaks;

fn scored(name: &str, wins: u32, draws: u32, losses: u32, history: &[&str]) -> Contestant {
    Contestant {
        name: name.to_string(),
        wins,
        draws,
        losses,
        byes: 0,
        tiebreak: 0,
        history: history.iter().map(|h| h.to_string()).collect(),
        enabled: true,
    }
}

#[test]
fn tiebreak_is_the_sum_of_both_opponents_match_points() {
    let r = Registry {
        contestants: vec![
            scored("Alice", 0, 0, 2, &["Xena", "Yuri"]),
            scored("Xena", 2, 1, 0, &["Alice"]),
            scored("Yuri", 1, 0, 1, &["Alice"]),
        ],
    };
    let mut r = r;
    calculate_tiebreaks(&mut r).unwrap();
    // matchPoints(Xena) = 5, matchPoints(Yuri) = 2.
    assert_eq!(r.contestants[0].tiebreak, 7);
    assert_eq!(r.contestants[1].tiebreak, 0);
    assert_eq!(r.contestants[2].tiebreak, 0);
}

#[test]
fn tiebreak_reads_current_totals_not_totals_at_play_time() {
    let mut r = Registry { contestants: Vec::new() };
    r.create("Alice".to_string()).unwrap();
    r.create("Bob".to_string()).unwrap();
    r.create("Carol".to_string()).unwrap();
    let m1 = GameRecord::Match {
        name_a: "Alice".to_string(),
        outcome_a: "W".to_string(),
        name_b: "Bob".to_string(),
        outcome_b: "L".to_string(),
    };
    ingest_result(&mut r, &m1).unwrap();
    // Bob's later win must count into Alice's tiebreak.
    let m2 = GameRecord::Match {
        name_a: "Bob".to_string(),
        outcome_a: "W".to_string(),
        name_b: "Carol".to_string(),
        outcome_b: "L".to_string(),
    };
    ingest_result(&mut r, &m2).unwrap();
    calculate_tiebreaks(&mut r).unwrap();
    assert_eq!(r.contestants[0].tiebreak, 2);
    assert_eq!(r.contestants[1].tiebreak, 2);
    assert_eq!(r.contestants[2].tiebreak, 2);
}

#[test]
fn tiebreak_counts_disabled_opponents_too() {
    let mut r = Registry {
        contestants: vec![
            scored("Alice", 0, 0, 1, &["Bob"]),
            scored("Bob", 3, 0, 0, &["Alice"]),
        ],
    };
    r.contestants[1].enabled = false;
    calculate_tiebreaks(&mut r).unwrap();
    assert_eq!(r.contestants[0].tiebreak, 6);
}

#[test]
fn missing_history_name_fails_with_unknown_contestant() {
    let mut r = Registry {
        contestants: vec![scored("Alice", 1, 0, 0, &["Ghost"])],
    };
    let e = calculate_tiebreaks(&mut r).unwrap_err();
    assert!(matches!(e, TournamentError::UnknownContestant(n) if n == "Ghost"));
    assert_eq!(r.contestants[0].tiebreak, 0);
}
