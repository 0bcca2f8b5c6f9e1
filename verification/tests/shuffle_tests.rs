use swiss_pairing::registry::Registry;
use swiss_pairing::shuffle::shuffle_registry;

#[test]
fn shuffle_keeps_exactly_the_same_contestants() {
    let mut r = Registry::new();
    for k in 0..16 {
        r.create(format!("P{}", k)).unwrap();
    }
    let mut before: Vec<String> = r.contestants.iter().map(|c| c.name.clone()).collect();
    shuffle_registry(&mut r);
    assert_eq!(r.contestants.len(), 16);
    let mut after: Vec<String> = r.contestants.iter().map(|c| c.name.clone()).collect();
    after.sort();
    before.sort();
    assert_eq!(after, before);
}
