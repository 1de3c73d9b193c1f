use bizbuz::card::{read_cards, CardsSource, MAX_CARDS};
use bizbuz::clock::{id_of, stamp_of};
use bizbuz::{new_id, save_card, unix_now_ms_string, CardsStore, IdSource, Profile};

fn card(id: &str, name: &str) -> Profile {
    Profile {
        id: id.to_string(),
        name: Some(name.to_string()),
        ..Default::default()
    }
}

fn ids(store: &CardsStore) -> Vec<String> {
    store.cards.iter().map(|c| c.id.clone()).collect()
}

#[test]
fn new_cards_get_an_id() {
    let mut store = CardsStore::default();
    let saved = save_card(&mut store, card("", "Ada"), "7-0".to_string()).unwrap();
    assert_eq!(saved.id, "7-0");
    assert_eq!(ids(&store), vec!["7-0"]);
    let saved = save_card(&mut store, card("own", "Bob"), "7-1".to_string()).unwrap();
    assert_eq!(saved.id, "own");
    assert_eq!(ids(&store), vec!["7-0", "own"]);
}

#[test]
fn saved_card_replaces_its_older_self() {
    let mut store = CardsStore {
        cards: vec![card("a", "1"), card("b", "2"), card("c", "3")],
    };
    let saved = save_card(&mut store, card("a", "4"), "x".to_string()).unwrap();
    assert_eq!(saved.name, Some("4".to_string()));
    assert_eq!(ids(&store), vec!["b", "c", "a"]);
    assert_eq!(store.cards[2].name, Some("4".to_string()));
    save_card(&mut store, card("a", "4"), "x".to_string()).unwrap();
    assert_eq!(ids(&store), vec!["b", "c", "a"]);
}

#[test]
fn full_store_turns_new_cards_away() {
    let mut store = CardsStore {
        cards: vec![card("a", "1"), card("b", "2"), card("c", "3"), card("d", "4")],
    };
    assert_eq!(MAX_CARDS, 4);
    for id in ["", "e"] {
        let e = save_card(&mut store, card(id, "5"), "x".to_string()).unwrap_err();
        assert_eq!(e, "You can only keep up to 4 cards.");
        assert_eq!(ids(&store), vec!["a", "b", "c", "d"]);
    }
    save_card(&mut store, card("b", "5"), "x".to_string()).unwrap();
    assert_eq!(ids(&store), vec!["a", "c", "d", "b"]);
}

#[test]
fn cards_are_found_and_removed_by_id() {
    let mut store = CardsStore {
        cards: vec![card("a", "1"), card("b", "2"), card("b", "3")],
    };
    assert_eq!(store.find_card("b"), Ok(1));
    assert_eq!(store.find_card("z"), Err("Card not found".to_string()));
    store.remove_card("b");
    assert_eq!(ids(&store), vec!["a"]);
    store.remove_card("z");
    assert_eq!(ids(&store), vec!["a"]);
}

#[test]
fn reading_the_cards() {
    let loaded = read_cards(
        CardsSource::Cards(Ok(CardsStore { cards: vec![card("", "1")] })),
        "x".to_string(),
    )
    .unwrap();
    assert_eq!(ids(&loaded.store), vec![""]);
    assert!(!loaded.migrated);
    let e = read_cards(CardsSource::Cards(Err("bad".to_string())), "x".to_string()).unwrap_err();
    assert_eq!(e, "bad");
    let loaded = read_cards(CardsSource::Nothing, "x".to_string()).unwrap();
    assert!(loaded.store.cards.is_empty());
    assert!(!loaded.migrated);
}

#[test]
fn reading_a_single_card_of_old() {
    let loaded = read_cards(CardsSource::SingleCard(Ok(card("", "1"))), "x".to_string()).unwrap();
    assert_eq!(ids(&loaded.store), vec!["x"]);
    assert!(loaded.migrated);
    let loaded = read_cards(CardsSource::SingleCard(Ok(card("a", "1"))), "x".to_string()).unwrap();
    assert_eq!(ids(&loaded.store), vec!["a"]);
    let e = read_cards(CardsSource::SingleCard(Err("bad".to_string())), "x".to_string()).unwrap_err();
    assert_eq!(e, "bad");
}

#[test]
fn ids_of_time_and_counter() {
    assert_eq!(id_of(1700000000000000123, 7), "1700000000000000123-7");
    assert_ne!(id_of(5, 0), id_of(5, 1));
    assert_eq!(stamp_of(Some(1700000000123)), "1700000000123");
    assert_eq!(stamp_of(None), "");
}

#[test]
fn fresh_ids_and_stamps() {
    let mut ids = IdSource::new();
    let first = new_id(&mut ids);
    let second = new_id(&mut ids);
    assert_ne!(first, second);
    assert!(first.ends_with("-0"));
    assert!(second.ends_with("-1"));
    let nanos: u128 = first[..first.len() - 2].parse().unwrap();
    let millis: u128 = unix_now_ms_string().parse().unwrap();
    assert!(nanos / 1_000_000 <= millis);
    assert!(millis > 1_600_000_000_000);
}

#[test]
fn deleting_what_was_just_added() {
    let mut store = CardsStore {
        cards: vec![card("a", "1"), card("b", "2")],
    };
    let saved = save_card(&mut store, card("", "3"), "7-0".to_string()).unwrap();
    store.remove_card(&saved.id);
    assert_eq!(ids(&store), vec!["a", "b"]);
    assert_eq!(store.cards[0].name, Some("1".to_string()));
}

#[test]
fn ids_of_one_source_differ() {
    let mut ids = IdSource::new();
    let mut made: Vec<String> = (0..1000).map(|_| new_id(&mut ids)).collect();
    for (i, id) in made.iter().enumerate() {
        let (nanos, counter) = id.split_once('-').unwrap();
        assert!(nanos.parse::<u128>().is_ok());
        assert_eq!(counter, i.to_string());
    }
    made.sort();
    made.dedup();
    assert_eq!(made.len(), 1000);
}
