use swiss_pairing::errors::TournamentError;
use swiss_pairing::registry::{AdminCommand, Registry};

fn seed_roster(names: &[&str]) -> Registry {
    let mut r = Registry::new();
    for n in names {
        r.create(n.to_string()).unwrap();
    }
    r
}

#[test]
fn create_adds_zeroed_contestant() {
    let r = seed_roster(&["Alice", "Bob"]);
    assert_eq!(r.contestants.len(), 2);
    let a = &r.contestants[0];
    assert_eq!(a.name, "Alice");
    assert_eq!(a.wins, 0);
    assert_eq!(a.draws, 0);
    assert_eq!(a.losses, 0);
    assert_eq!(a.byes, 0);
    assert_eq!(a.tiebreak, 0);
    assert!(a.history.is_empty());
    assert!(a.enabled);
}

#[test]
fn create_rejects_duplicate_name() {
    let mut r = seed_roster(&["Alice"]);
    let e = r.create("Alice".to_string()).unwrap_err();
    assert!(matches!(e, TournamentError::DuplicateContestant(n) if n == "Alice"));
    assert_eq!(r.contestants.len(), 1);
}

#[test]
fn admin_add_uses_seed_counters() {
    let mut r = seed_roster(&["Alice"]);
    r.apply_admin_add("Bob".to_string(), 2, 1, 3).unwrap();
    let b = &r.contestants[1];
    assert_eq!(b.name, "Bob");
    assert_eq!((b.wins, b.draws, b.losses), (2, 1, 3));
    assert_eq!(b.byes, 0);
    assert!(b.enabled);
}

#[test]
fn disable_unknown_name_fails() {
    let mut r = seed_roster(&["Alice"]);
    let e = r.apply_admin_disable("Bob".to_string()).unwrap_err();
    assert!(matches!(e, TournamentError::UnknownContestant(n) if n == "Bob"));
}

#[test]
fn disable_then_enable_restores_with_seed_counters() {
    let mut r = seed_roster(&["Alice", "Bob"]);
    r.apply_admin_disable("Bob".to_string()).unwrap();
    assert!(!r.contestants[1].enabled);
    r.apply_admin_enable("Bob".to_string(), 4, 2, 1).unwrap();
    let b = &r.contestants[1];
    assert!(b.enabled);
    assert_eq!((b.wins, b.draws, b.losses), (4, 2, 1));
}

#[test]
fn enable_of_enabled_contestant_fails() {
    let mut r = seed_roster(&["Alice"]);
    let e = r.apply_admin_enable("Alice".to_string(), 1, 0, 0).unwrap_err();
    assert!(matches!(e, TournamentError::AlreadyEnabled(n) if n == "Alice"));
    assert_eq!(r.contestants[0].wins, 0);
}

#[test]
fn enable_unknown_name_fails() {
    let mut r = seed_roster(&["Alice"]);
    let e = r.apply_admin_enable("Bob".to_string(), 1, 0, 0).unwrap_err();
    assert!(matches!(e, TournamentError::UnknownContestant(n) if n == "Bob"));
}

#[test]
fn set_enabled_flips_only_the_flag() {
    let mut r = seed_roster(&["Alice"]);
    r.set_enabled("Alice".to_string(), false).unwrap();
    assert!(!r.contestants[0].enabled);
    assert_eq!(r.contestants[0].wins, 0);
    r.set_enabled("Alice".to_string(), true).unwrap();
    assert!(r.contestants[0].enabled);
}

#[test]
fn execute_command_dispatches_all_variants() {
    let mut r = seed_roster(&["Alice"]);
    r.execute_command(&AdminCommand::Add {
        name: "Bob".to_string(),
        wins: 1,
        draws: 1,
        losses: 0,
    })
    .unwrap();
    assert_eq!(r.contestants[1].name, "Bob");
    r.execute_command(&AdminCommand::Disable { name: "Bob".to_string() }).unwrap();
    assert!(!r.contestants[1].enabled);
    r.execute_command(&AdminCommand::Enable {
        name: "Bob".to_string(),
        wins: 0,
        draws: 3,
        losses: 2,
    })
    .unwrap();
    assert!(r.contestants[1].enabled);
    assert_eq!((r.contestants[1].wins, r.contestants[1].draws, r.contestants[1].losses), (0, 3, 2));
}

#[test]
fn find_index_returns_first_match() {
    let r = seed_roster(&["Alice", "Bob", "Carol"]);
    assert_eq!(r.find_index(&"Bob".to_string()), Some(1));
    assert_eq!(r.find_index(&"Dave".to_string()), None);
}

#[test]
fn lookup_mutable_gives_exclusive_access() {
    let mut r = seed_roster(&["Alice", "Bob"]);
    {
        let c = r.lookup_mutable(&"Bob".to_string()).unwrap();
        c.wins = 7;
    }
    assert_eq!(r.contestants[1].wins, 7);
    assert_eq!(r.contestants[0].wins, 0);
    let e = r.lookup_mutable(&"Eve".to_string()).unwrap_err();
    assert!(matches!(e, TournamentError::UnknownContestant(n) if n == "Eve"));
}

#[test]
fn reset_and_enable_swaps_in_the_seed_counters() {
    let mut r = seed_roster(&["Alice"]);
    r.apply_admin_disable("Alice".to_string()).unwrap();
    r.reset_and_enable("Alice".to_string(), 9, 8, 7).unwrap();
    let a = &r.contestants[0];
    assert!(a.enabled);
    assert_eq!((a.wins, a.draws, a.losses), (9, 8, 7));
}
