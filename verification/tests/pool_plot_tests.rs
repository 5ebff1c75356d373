use std::hash::{Hash, Hasher};
use rand::rngs::StdRng;
use umasim::plot::{plot_snaps, PlotSnap};
use rand::SeedableRng;
use umasim::card_pool::{
    attr_name, sort_desc_stable, CardSelection, PoolCard, PoolError, SsrPool, SsrPoolData, FRIEND_IDRANK,
};
use umasim::config::{
    default_collector_output_dir, default_collector_threads, default_mcts_search_n, default_race_grades,
    default_scenario, RamenRegionStrategy,
};
use umasim::npy::npy_bytes;
use umasim::plot::{classify_action, esc};

fn card(card_id: u32, chara_id: u32) -> PoolCard {
    PoolCard {
        card_id,
        idrank: card_id * 10 + 4,
        name: format!("c{card_id}"),
        full_name: format!("card {card_id}"),
        chara_id,
        card_type: 0,
    }
}

fn data() -> SsrPoolData {
    let group = |base: u32| -> Vec<PoolCard> { (0..4).map(|i| card(base + i, 1000 + base + i)).collect() };
    SsrPoolData {
        source: "test".into(),
        total_cards: 20,
        pool: vec![
            ("wisdom".into(), group(50)),
            ("speed".into(), group(10)),
            ("stamina".into(), group(20)),
            ("power".into(), group(30)),
            ("guts".into(), group(40)),
        ],
        excluded_from_card_db: vec![7],
    }
}

#[test]
fn pool_load_orders_groups() {
    let pool = SsrPool::load(&data()).unwrap();
    for a in 0..5 {
        assert_eq!(pool.pool_size(a), 4);
        assert!(pool.pools[a].windows(2).all(|w| w[0].card_id > w[1].card_id));
    }
    assert_eq!(pool.pools[0][0].card_id, 13);
    assert_eq!(pool.pools[4][3].card_id, 50);
    assert_eq!(pool.excluded, vec![7]);
    assert!(pool.exclude_chara_ids.is_empty());
    assert_eq!(pool.get_idrank(0, 1).unwrap(), 124);
    assert_eq!(pool.get_card(2, 0).unwrap().card_id, 33);
    assert_eq!(pool.get_card(2, 4).unwrap_err(), PoolError::IndexOutOfRange { attr: 2, size: 4, idx: 4 });
    assert!(pool.contains_card(1, 21));
    assert!(!pool.contains_card(1, 11));
    assert_eq!(pool.index_of(1, 21), Some(2));
    assert_eq!(pool.index_of(1, 99), None);
}

#[test]
fn pool_load_errors() {
    let mut d = data();
    d.total_cards = 19;
    assert_eq!(SsrPool::load(&d).unwrap_err(), PoolError::TotalMismatch { declared: 19, actual: 20 });
    // excluding two characters of the guts group leaves two cards there
    let e = SsrPool::load_filtered(&data(), &[1040, 1041]).unwrap_err();
    assert_eq!(e, PoolError::PoolTooSmall { attr: 3, size: 2 });
    let p = SsrPool::load_filtered(&data(), &[1043, 9999]).unwrap();
    assert_eq!(p.pool_size(3), 3);
    assert!(p.pools[3].iter().all(|c| c.chara_id != 1043));
    assert_eq!(p.exclude_chara_ids, vec![1043, 9999]);
    // a missing group counts as empty
    let mut d = data();
    d.pool.retain(|(k, _)| k != "power");
    d.total_cards = 16;
    assert_eq!(SsrPool::load(&d).unwrap_err(), PoolError::PoolTooSmall { attr: 2, size: 0 });
}

#[test]
fn stable_sort_keeps_file_order_of_equal_ids() {
    let mut a = card(5, 1);
    a.name = "first".into();
    let mut b = card(5, 2);
    b.name = "second".into();
    let v = vec![card(1, 0), a, card(9, 0), b];
    let s = sort_desc_stable(&v);
    let ids: Vec<u32> = s.iter().map(|c| c.card_id).collect();
    assert_eq!(ids, vec![9, 5, 5, 1]);
    assert_eq!(s[1].name, "first");
    assert_eq!(s[2].name, "second");
}

#[test]
fn selection_decks() {
    let pool = SsrPool::load(&data()).unwrap();
    let sel = CardSelection::default_top(&pool);
    assert_eq!(sel.indices, [0; 5]);
    assert_eq!(sel.friend_idrank, FRIEND_IDRANK);
    let deck = sel.build_deck(&pool, &[3, 1, 0, 0, 1]).unwrap();
    assert_eq!(deck, [134, 124, 114, 234, 534, FRIEND_IDRANK]);
    let mut far = sel;
    far.indices[0] = 2;
    assert_eq!(
        far.build_deck(&pool, &[3, 1, 0, 0, 1]).unwrap_err(),
        PoolError::IndexOutOfRange { attr: 0, size: 4, idx: 4 }
    );
    assert_eq!(sel.build_deck(&pool, &[2, 1, 0, 0, 1]).unwrap_err(), PoolError::DeckSize { len: 5 });
    let mut dup = sel;
    dup.friend_idrank = 134;
    assert_eq!(dup.build_deck(&pool, &[3, 1, 0, 0, 1]).unwrap_err(), PoolError::DuplicateCard);
    let mut b = sel;
    b.indices[0] = 1;
    assert_ne!(sel.hash_key(), b.hash_key());
    assert_eq!(sel.hash_key(), CardSelection::default_top(&pool).hash_key());
}

#[test]
fn crossover_takes_each_index_from_a_parent() {
    let a = CardSelection { indices: [0; 5], friend_idrank: FRIEND_IDRANK };
    let b = CardSelection { indices: [1; 5], friend_idrank: 1 };
    let mut rng = StdRng::seed_from_u64(42);
    let mut seen_b = false;
    for _ in 0..20 {
        let child = CardSelection::crossover(&a, &b, &mut rng);
        assert!(child.indices.iter().all(|&i| i == 0 || i == 1));
        assert_eq!(child.friend_idrank, FRIEND_IDRANK);
        seen_b |= child.indices.iter().any(|&i| i == 1);
    }
    assert!(seen_b);
}

#[test]
fn hash_key_is_the_std_hash_of_the_selection() {
    let sel = CardSelection { indices: [3, 0, 7, 1, 2], friend_idrank: FRIEND_IDRANK };
    let mut h = std::collections::hash_map::DefaultHasher::new();
    sel.indices.hash(&mut h);
    sel.friend_idrank.hash(&mut h);
    // the library writes the bytes of a 64-bit little-endian machine
    assert_eq!(sel.hash_key(), h.finish());
    let mut other = sel;
    other.friend_idrank = 1;
    assert_ne!(sel.hash_key(), other.hash_key());
    assert_eq!(sel.hash_key(), sel.hash_key());
}

#[test]
fn mutation_draws_move_one_attribute() {
    let pool = SsrPool::load(&data()).unwrap();
    let mut sel = CardSelection { indices: [0, 1, 2, 3, 0], friend_idrank: FRIEND_IDRANK };
    let before = sel;
    // the same index, or one outside the group, is drawn again
    assert!(!sel.apply_mutation(&pool, 2, 2));
    assert!(!sel.apply_mutation(&pool, 2, 4));
    assert_eq!(sel, before);
    assert!(sel.apply_mutation(&pool, 2, 0));
    assert_eq!(sel.indices, [0, 1, 0, 3, 0]);
    assert_eq!(sel.friend_idrank, FRIEND_IDRANK);
}

#[test]
fn crossover_by_follows_the_bits() {
    let a = CardSelection { indices: [0, 1, 2, 3, 4], friend_idrank: FRIEND_IDRANK };
    let b = CardSelection { indices: [9, 8, 7, 6, 5], friend_idrank: 1 };
    let c = CardSelection::crossover_by(&a, &b, [true, false, true, false, false]);
    assert_eq!(c.indices, [9, 1, 7, 3, 4]);
    assert_eq!(c.friend_idrank, FRIEND_IDRANK);
    assert_eq!(CardSelection::crossover_by(&a, &b, [false; 5]), a);
    assert_eq!(CardSelection::crossover_by(&a, &b, [true; 5]).indices, b.indices);
}

#[test]
fn test_svg_escape() {
    assert_eq!(esc("A&B"), "A&amp;B");
    assert_eq!(esc("<b>"), "&lt;b&gt;");
    assert_eq!(esc("a\"b"), "a&quot;b");
    assert_eq!(esc("训练/速"), "训练/速");
}

#[test]
fn svg_escape_does_not_double_escape() {
    assert_eq!(esc("&lt;"), "&amp;lt;");
    assert_eq!(esc(""), "");
    assert_eq!(esc("'"), "'");
}

#[test]
fn test_classify_action() {
    assert_eq!(classify_action("吃面/中山-全(替换Ax1+Bx2)"), "吃面");
    assert_eq!(classify_action("不吃面"), "吃面");
    assert_eq!(classify_action("训练/速"), "训练");
    assert_eq!(classify_action("出行"), "出行");
    assert_eq!(classify_action("休息"), "休息");
    assert_eq!(classify_action("比赛/杏目 G2"), "比赛");
    assert_eq!(classify_action(""), "地区选择");
}

#[test]
fn classify_action_precedence() {
    // eating wins over training
    assert_eq!(classify_action("吃面/札幌 + 速训练"), "吃面");
    assert_eq!(classify_action("友人出行"), "出行");
    assert_eq!(classify_action("地区[札幌]"), "地区选择");
}

#[test]
fn npy_header_layout() {
    let h = npy_bytes("<f4", 3, 7);
    assert_eq!(&h[..8], &[0x93, b'N', b'U', b'M', b'P', b'Y', 1, 0]);
    let len = u16::from_le_bytes([h[8], h[9]]) as usize;
    assert_eq!(h.len(), 10 + len);
    assert_eq!(h.len() % 64, 0);
    assert_eq!(*h.last().unwrap(), b'\n');
    let text = std::str::from_utf8(&h[10..]).unwrap();
    assert!(text.starts_with("{'descr': '<f4', 'fortran_order': False, 'shape': (3, 7), }"));
    assert_eq!(npy_bytes("<u4", 123456, 0).len() % 64, 0);
}

#[test]
fn config_defaults() {
    assert_eq!(default_mcts_search_n(), 10240);
    assert_eq!(default_collector_threads(), 24);
    assert_eq!(default_collector_output_dir(), "training_data/mean_filtered");
    assert_eq!(default_scenario(), "basic");
    let g = default_race_grades();
    assert_eq!(g.len(), 72);
    assert_eq!(g[11], 4);
    assert_eq!(g[71], 1);
    assert_eq!(RamenRegionStrategy::default(), RamenRegionStrategy::All);
    assert_eq!(attr_name(4), "wisdom");
}

fn plot_row(file: &str, turn: u32, outcome: &str, desc: &str, has_luck: bool) -> umasim::plot::PlotRow {
    umasim::plot::PlotRow {
        file: file.to_string(),
        turn,
        outcome: outcome.to_string(),
        chosen_desc: desc.to_string(),
        has_luck,
    }
}

#[test]
fn plotted_snapshots_group_by_file() {
    let rows = vec![
        plot_row("game1_turn0.json", 0, "calc", "训练/速", true),
        plot_row("game1_turn1.json", 1, "skip", "", false),
        plot_row("game1_turn2.json", 2, "calc", "吃面/中山-全", true),
        plot_row("game1_turn2.json", 2, "calc", "训练/智", false),
        plot_row("game1_turn3.json", 3, "no_emit", "", false),
    ];
    let snaps = plot_snaps(&rows);
    assert_eq!(
        snaps,
        vec![
            PlotSnap { turn: 0, category: "训练".to_string(), main_row: 0, luck_row: Some(0) },
            PlotSnap { turn: 2, category: "训练".to_string(), main_row: 3, luck_row: Some(2) },
            PlotSnap { turn: 3, category: "地区选择".to_string(), main_row: 4, luck_row: None },
        ]
    );
    assert!(plot_snaps(&[plot_row("a.json", 1, "skip", "", true)]).is_empty());
}
