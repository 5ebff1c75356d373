use std::collections::HashSet;

use umasim::bench::{
    build_deck, combinations, composition_name, enumerate_compositions, enumerate_concrete_decks, push_deck,
    status_score, BenchError, CardRepresentative, Composition,
};

const DEFAULT_FRIEND: u32 = 303054;

fn three_card_pools() -> [Vec<u32>; 5] {
    std::array::from_fn(|card_type| (0..3).map(|index| 100_000 + card_type as u32 * 10 + index).collect())
}

#[test]
fn three_cards_per_type_generate_1080_unique_decks() {
    let decks = enumerate_concrete_decks(&three_card_pools(), DEFAULT_FRIEND);
    assert_eq!(decks.len(), 1080);
    let keys: HashSet<Vec<u32>> = decks
        .iter()
        .map(|deck| {
            let mut key = deck.cards[..5].to_vec();
            key.sort_unstable();
            key
        })
        .collect();
    assert_eq!(keys.len(), decks.len());
    assert!(decks.iter().all(|deck| deck.cards[5] == DEFAULT_FRIEND));
}

#[test]
fn generated_decks_are_only_311_or_221() {
    let pools = three_card_pools();
    for deck in enumerate_concrete_decks(&pools, DEFAULT_FRIEND) {
        let mut counts = [0; 5];
        for id in &deck.cards[..5] {
            let card_type = ((*id - 100_000) / 10) as usize;
            counts[card_type] += 1;
        }
        let mut nonzero: Vec<usize> = counts.into_iter().filter(|count| *count > 0).collect();
        nonzero.sort_unstable();
        assert!(nonzero == [1, 1, 3] || nonzero == [1, 2, 2]);
    }
}

#[test]
fn combinations_are_without_replacement() {
    assert_eq!(
        combinations(&[1, 2, 3, 4], 3),
        vec![vec![1, 2, 3], vec![1, 2, 4], vec![1, 3, 4], vec![2, 3, 4]]
    );
}

#[test]
fn combinations_edge_cases() {
    assert!(combinations(&[1, 2, 3], 0).is_empty());
    assert!(combinations(&[1, 2, 3], 4).is_empty());
    assert!(combinations(&[], 1).is_empty());
    assert_eq!(combinations(&[5, 6, 7], 3), vec![vec![5, 6, 7]]);
    assert_eq!(combinations(&[5, 6, 7], 1), vec![vec![5], vec![6], vec![7]]);
    // binom(6, 2) = 15 combinations
    assert_eq!(combinations(&[1, 2, 3, 4, 5, 6], 2).len(), 15);
}

#[test]
fn concrete_deck_order_and_names() {
    let pools = three_card_pools();
    let decks = enumerate_concrete_decks(&pools, DEFAULT_FRIEND);
    // first: three speed cards, one stamina, one power
    assert_eq!(decks[0].composition, "3speed+1stamina+1power");
    assert_eq!(decks[0].cards, [100000, 100001, 100002, 100010, 100020, DEFAULT_FRIEND]);
    assert_eq!(decks[1].cards, [100000, 100001, 100002, 100010, 100021, DEFAULT_FRIEND]);
    // the 2-2-1 decks of the first type set start after its three 3-1-1 blocks (27 decks)
    assert_eq!(decks[27].composition, "1speed+2stamina+2power");
    assert_eq!(decks[27].cards, [100010, 100011, 100020, 100021, 100000, DEFAULT_FRIEND]);
    // with two cards per type there are no 3-1-1 decks: 10 * 3 * 1 * 1 * 2 = 60
    let small: [Vec<u32>; 5] = std::array::from_fn(|t| vec![t as u32 * 10, t as u32 * 10 + 1]);
    assert_eq!(enumerate_concrete_decks(&small, 1).len(), 60);
}

#[test]
fn push_deck_names_by_counts() {
    let mut out = Vec::new();
    push_deck(&mut out, vec![1, 2, 3, 4, 5], [2, 0, 2, 0, 1], 9);
    assert_eq!(out.len(), 1);
    assert_eq!(out[0].composition, "2speed+2power+1wisdom");
    assert_eq!(out[0].cards, [1, 2, 3, 4, 5, 9]);
}

#[test]
fn test_enumerate_all_101_compositions() {
    let compositions = enumerate_compositions();
    println!("compositions: {}", compositions.len());
    assert_eq!(compositions.len(), 101);
    assert!(compositions.iter().all(|composition| {
        composition.counts.iter().sum::<usize>() == 5 && composition.counts.iter().all(|count| *count <= 3)
    }));
}

#[test]
fn composition_order_and_names() {
    let compositions = enumerate_compositions();
    assert_eq!(compositions[0].counts, [0, 0, 0, 2, 3]);
    assert_eq!(compositions[1].counts, [0, 0, 0, 3, 2]);
    assert_eq!(compositions[100].counts, [3, 2, 0, 0, 0]);
    assert_eq!(compositions[0].name(), "2guts+3wisdom");
    assert_eq!(composition_name(&[1, 1, 1, 1, 1]), "1speed+1stamina+1power+1guts+1wisdom");
    assert_eq!(composition_name(&[0, 0, 0, 0, 0]), "");
    assert_eq!(composition_name(&[12, 0, 0, 0, 0]), "12speed");
}

fn reps() -> [Vec<CardRepresentative>; 5] {
    std::array::from_fn(|card_type| {
        (0..3)
            .map(|idx| CardRepresentative {
                idrank: 100_000 + card_type as u32 * 100 + idx,
                name: format!("type-{card_type}-{idx}"),
            })
            .collect()
    })
}

#[test]
fn test_build_all_composition_decks() {
    let representatives = reps();
    for composition in enumerate_compositions() {
        let deck = build_deck(composition, &representatives, DEFAULT_FRIEND).unwrap();
        assert_eq!(deck[5], DEFAULT_FRIEND);
        assert!(deck[..5].iter().all(|id| *id != DEFAULT_FRIEND));
    }
    println!("all 101 composition decks built");
}

#[test]
fn build_deck_errors_and_order() {
    let representatives = reps();
    let deck = build_deck(Composition { counts: [1, 0, 2, 0, 2] }, &representatives, 7).unwrap();
    assert_eq!(deck, [100000, 100200, 100201, 100400, 100401, 7]);
    assert_eq!(
        build_deck(Composition { counts: [0, 4, 0, 0, 1] }, &representatives, 7),
        Err(BenchError::NotEnoughRepresentatives { card_type: 1, count: 4 })
    );
    assert_eq!(
        build_deck(Composition { counts: [1, 1, 1, 1, 0] }, &representatives, 7),
        Err(BenchError::DeckSize { len: 5 })
    );
    assert_eq!(
        build_deck(Composition { counts: [3, 3, 0, 0, 0] }, &representatives, 7),
        Err(BenchError::DeckSize { len: 7 })
    );
}

#[test]
fn status_score_by_table() {
    let table: Vec<i32> = (0..10).map(|i| i * 10).collect();
    // negative values read as 0, values past the table as its last entry
    assert_eq!(status_score(&[-5, 0, 3, 9, 100], &table), 0 + 0 + 30 + 90 + 90);
    assert_eq!(status_score(&[1, 1, 1, 1, 1], &[7]), 35);
}
