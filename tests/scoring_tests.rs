use xmj_core::hand::Hand;
use xmj_core::scoring::{ScoringEngine, Yaku};
use xmj_core::tile::{Honor, Suit, Tile};

fn m(v: u8) -> Tile { Tile::new_number(Suit::Man, v, false) }
fn p(v: u8) -> Tile { Tile::new_number(Suit::Pin, v, false) }
fn s(v: u8) -> Tile { Tile::new_number(Suit::Sou, v, false) }
fn h(x: Honor) -> Tile { Tile::new_honor(x) }

fn hand_of(tiles: &[Tile]) -> Hand {
    let mut hand = Hand::new();
    for t in tiles {
        hand.add_tile(*t);
    }
    hand
}

#[test]
fn test_tanyao_check() {
    let tiles = vec![
        xmj_core::tile::Tile::new_number(xmj_core::tile::Suit::Man, 2, false),
        xmj_core::tile::Tile::new_number(xmj_core::tile::Suit::Man, 3, false),
        xmj_core::tile::Tile::new_number(xmj_core::tile::Suit::Man, 4, false),
        xmj_core::tile::Tile::new_number(xmj_core::tile::Suit::Pin, 5, false),
    ];

    assert!(ScoringEngine::check_tanyao(&tiles));

    let tiles_with_terminal = vec![
        xmj_core::tile::Tile::new_number(xmj_core::tile::Suit::Man, 1, false),
        xmj_core::tile::Tile::new_number(xmj_core::tile::Suit::Man, 2, false),
    ];

    assert!(!ScoringEngine::check_tanyao(&tiles_with_terminal));
}

#[test]
fn test_score_calculation() {
    let mut hand = Hand::new();
    for _ in 0..3 {
        hand.add_tile(xmj_core::tile::Tile::new_number(xmj_core::tile::Suit::Man, 1, false));
        hand.add_tile(xmj_core::tile::Tile::new_number(xmj_core::tile::Suit::Pin, 9, false));
        hand.add_tile(xmj_core::tile::Tile::new_number(xmj_core::tile::Suit::Sou, 1, false));
        hand.add_tile(xmj_core::tile::Tile::new_honor(xmj_core::tile::Honor::Ton));
    }
    hand.add_tile(xmj_core::tile::Tile::new_honor(xmj_core::tile::Honor::Haku));

    let winning_tile = xmj_core::tile::Tile::new_honor(xmj_core::tile::Honor::Haku);

    let result = ScoringEngine::calculate_score(&hand, &winning_tile, false, false);

    assert!(result.is_some());
    if let Some(scoring) = result {
        assert!(scoring.han >= 1);
    }
}

#[test]
fn all_triplets_hand_scores_exactly() {
    let mut hand = Hand::new();
    for _ in 0..3 {
        hand.add_tile(m(1));
        hand.add_tile(p(9));
        hand.add_tile(s(1));
        hand.add_tile(h(Honor::Ton));
    }
    hand.add_tile(h(Honor::Haku));
    let r = ScoringEngine::calculate_score(&hand, &h(Honor::Haku), false, false).unwrap();
    assert_eq!(r.yaku, vec![Yaku::Chanta, Yaku::Toitoi, Yaku::Sanankou]);
    assert_eq!(r.han, 6);
    assert_eq!(r.fu, 20);
    assert_eq!(r.base_points, 3000);
    assert_eq!(r.total_points, 12000);
}

#[test]
fn two_identical_run_pairs_list_only_the_stronger() {
    // 112233m 445566p 77s, won on 7s by discard
    let hand = hand_of(&[m(1), m(1), m(2), m(2), m(3), m(3), p(4), p(4), p(5), p(5), p(6), p(6), s(7)]);
    let r = ScoringEngine::calculate_score(&hand, &s(7), false, false).unwrap();
    assert!(r.yaku.contains(&Yaku::Ryanpeikou));
    assert!(!r.yaku.contains(&Yaku::Iipeikou));
    assert_eq!(r.yaku, vec![Yaku::Chiitoitsu, Yaku::Pinfu, Yaku::Ryanpeikou]);
    assert_eq!(r.han, 6);
}

#[test]
fn one_identical_run_pair() {
    // 112233m 456p 678s 99p, self-drawn 9p
    let hand = hand_of(&[m(1), m(1), m(2), m(2), m(3), m(3), p(4), p(5), p(6), s(6), s(7), s(8), p(9)]);
    let r = ScoringEngine::calculate_score(&hand, &p(9), true, true).unwrap();
    assert_eq!(r.yaku, vec![Yaku::Pinfu, Yaku::Tsumo, Yaku::Iipeikou]);
    assert_eq!(r.han, 3);
    assert_eq!(r.fu, 30);
    assert_eq!(r.base_points, 960);
    assert_eq!(r.total_points, 5760);
}

#[test]
fn complete_hand_without_conditions_scores_none() {
    // 123m 456p 789s 222s 99m, won on 9m by discard
    let hand = hand_of(&[m(1), m(2), m(3), p(4), p(5), p(6), s(7), s(8), s(9), s(2), s(2), s(2), m(9)]);
    assert!(hand.can_win(&m(9)));
    assert!(ScoringEngine::calculate_score(&hand, &m(9), false, false).is_none());
}

#[test]
fn incomplete_hand_scores_none() {
    let hand = hand_of(&[m(1), m(2), m(3), p(4), p(5), p(6), s(7), s(8), s(9), s(2), s(2), s(2), m(9)]);
    assert!(ScoringEngine::calculate_score(&hand, &m(8), true, false).is_none());
}

#[test]
fn all_honors_is_a_limit_hand() {
    let hand = hand_of(&[
        h(Honor::Ton), h(Honor::Ton), h(Honor::Ton), h(Honor::Nan), h(Honor::Nan), h(Honor::Nan),
        h(Honor::Shaa), h(Honor::Shaa), h(Honor::Shaa), h(Honor::Haku), h(Honor::Haku), h(Honor::Haku),
        h(Honor::Hatsu),
    ]);
    let r = ScoringEngine::calculate_score(&hand, &h(Honor::Hatsu), false, false).unwrap();
    assert!(r.han >= 13);
    assert!(r.yaku.contains(&Yaku::Tsuuiisou));
    assert_eq!(r.base_points, 8000);
    assert_eq!(r.total_points, 32000);
}

#[test]
fn thirteen_orphans_scores_limit() {
    let hand = hand_of(&[m(1), m(9), p(1), p(9), s(1), s(9), h(Honor::Ton), h(Honor::Nan), h(Honor::Shaa),
        h(Honor::Pei), h(Honor::Haku), h(Honor::Hatsu), h(Honor::Chun)]);
    let r = ScoringEngine::calculate_score(&hand, &m(1), false, true).unwrap();
    assert_eq!(r.yaku, vec![Yaku::Kokushi]);
    assert_eq!(r.han, 13);
    assert_eq!(r.total_points, 48000);
}

#[test]
fn single_suit_replaces_half_flush() {
    // 123 456 789m 111m 22m: all man, self-drawn
    let hand = hand_of(&[m(1), m(2), m(3), m(4), m(5), m(6), m(7), m(8), m(9), m(1), m(1), m(1), m(2)]);
    let r = ScoringEngine::calculate_score(&hand, &m(2), true, false).unwrap();
    assert!(r.yaku.contains(&Yaku::Chinitsu));
    assert!(!r.yaku.contains(&Yaku::Honitsu));
    assert!(r.yaku.contains(&Yaku::Ittsu));
}

#[test]
fn point_formulas() {
    assert_eq!(ScoringEngine::calculate_fu(true), 30);
    assert_eq!(ScoringEngine::calculate_fu(false), 20);
    assert_eq!(ScoringEngine::calculate_base_points(1, 30), 240);
    assert_eq!(ScoringEngine::calculate_base_points(4, 30), 1920);
    assert_eq!(ScoringEngine::calculate_base_points(5, 30), 2000);
    assert_eq!(ScoringEngine::calculate_base_points(7, 30), 3000);
    assert_eq!(ScoringEngine::calculate_base_points(10, 30), 4000);
    assert_eq!(ScoringEngine::calculate_base_points(12, 30), 6000);
    assert_eq!(ScoringEngine::calculate_base_points(26, 30), 8000);
    assert_eq!(ScoringEngine::calculate_total_points(2000, true), 12000);
    assert_eq!(ScoringEngine::calculate_total_points(2000, false), 8000);
}
