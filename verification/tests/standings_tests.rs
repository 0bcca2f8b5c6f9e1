use swiss_pairing::contestant::Contestant;
use swiss_pairing::registry::Registry;
use swiss_pairing::standings::standings;

fn ranked(name: &str, wins: u32, draws: u32, losses: u32, tiebreak: u64, enabled: bool) -> Contestant {
    Contestant {
        name: name.to_string(),
        wins,
        draws,
        losses,
        byes: 0,
        tiebreak,
        history: Vec::new(),
        enabled,
    }
}

#[test]
fn standings_sort_by_points_then_games_then_tiebreak() {
    let r = Registry {
        contestants: vec![
            // 2 points from 2 games, low tiebreak.
            ranked("Dora", 1, 0, 1, 1, true),
            // 4 points.
            ranked("Alma", 2, 0, 0, 0, true),
            // 2 points from 2 games, high tiebreak.
            ranked("Carl", 1, 0, 1, 5, true),
            // 2 points from 1 game: fewer games ranks above equal points.
            ranked("Bela", 1, 0, 0, 0, true),
        ],
    };
    let s = standings(&r);
    let order: Vec<String> = s.enabled.iter().map(|row| row.name.clone()).collect();
    assert_eq!(order, vec!["Alma", "Bela", "Carl", "Dora"]);
    assert!(s.disabled.is_empty());
}

#[test]
fn standings_rows_carry_computed_scores() {
    let r = Registry {
        contestants: vec![ranked("Alma", 2, 1, 3, 9, true)],
    };
    let s = standings(&r);
    let row = &s.enabled[0];
    assert_eq!(row.match_points, 5);
    assert_eq!(row.games_played, 6);
    assert_eq!((row.wins, row.draws, row.losses), (2, 1, 3));
    assert_eq!(row.tiebreak, 9);
}

#[test]
fn standings_split_disabled_into_their_own_group() {
    let r = Registry {
        contestants: vec![
            ranked("Alma", 1, 0, 0, 0, true),
            ranked("Bela", 2, 0, 0, 0, false),
            ranked("Carl", 0, 1, 0, 0, false),
        ],
    };
    let s = standings(&r);
    assert_eq!(s.enabled.len(), 1);
    assert_eq!(s.enabled[0].name, "Alma");
    let dis: Vec<String> = s.disabled.iter().map(|row| row.name.clone()).collect();
    assert_eq!(dis, vec!["Bela", "Carl"]);
}
