use blackjack_backend::game::Blackjack;

#[test]
fn tables_are_created_and_found() {
    let mut g = Blackjack::create_game();
    let id1 = g.add_table();
    let id2 = g.add_table();
    assert_ne!(id1, id2);
    assert_eq!(g.get_table(id1), Some(0));
    assert_eq!(g.get_table(id2), Some(1));
    assert_eq!(g.get_table(12345), None);
}

#[test]
fn new_table_is_fresh() {
    let mut g = Blackjack::create_game();
    let id = g.add_table();
    let i = g.get_table(id).unwrap();
    let t = g.table(i);
    assert_eq!(t.id, id);
    assert!(t.players.is_empty());
    assert!(t.dealer.is_empty());
    assert_eq!(t.deck.len(), 156);
}

#[test]
fn remove_table_discards_it() {
    let mut g = Blackjack::create_game();
    let id = g.add_table();
    assert!(g.remove_table(id));
    assert_eq!(g.get_table(id), None);
    assert!(!g.remove_table(id));
}
