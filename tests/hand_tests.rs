use xmj_core::hand::{is_complete, Hand, Meld, MeldType};
use xmj_core::tile::{Honor, Suit, Tile};

fn m(v: u8) -> Tile { Tile::new_number(Suit::Man, v, false) }
fn p(v: u8) -> Tile { Tile::new_number(Suit::Pin, v, false) }
fn s(v: u8) -> Tile { Tile::new_number(Suit::Sou, v, false) }
fn h(x: Honor) -> Tile { Tile::new_honor(x) }

fn hand_of(tiles: &[Tile]) -> Hand {
    let mut hand = Hand::new();
    for t in tiles {
        hand.add_tile(*t);
    }
    hand
}

fn orphans() -> Vec<Tile> {
    vec![m(1), m(9), p(1), p(9), s(1), s(9), h(Honor::Ton), h(Honor::Nan), h(Honor::Shaa), h(Honor::Pei),
        h(Honor::Haku), h(Honor::Hatsu), h(Honor::Chun)]
}

#[test]
fn test_hand_operations() {
    let mut hand = Hand::new();
    let tile = Tile::new_number(Suit::Man, 1, false);

    hand.add_tile(tile);
    assert_eq!(hand.tile_count(), 1);

    assert!(hand.remove_tile(&tile));
    assert_eq!(hand.tile_count(), 0);
    assert!(!hand.remove_tile(&tile));
}

#[test]
fn test_hand_sorting() {
    let mut hand = Hand::new();
    hand.add_tile(Tile::new_honor(Honor::Ton));
    hand.add_tile(Tile::new_number(Suit::Man, 9, false));
    hand.add_tile(Tile::new_number(Suit::Man, 1, false));
    hand.add_tile(Tile::new_number(Suit::Pin, 5, false));

    let tiles = hand.get_tiles();
    assert_eq!(tiles[0].to_string(), "1m");
    assert_eq!(tiles[1].to_string(), "9m");
    assert_eq!(tiles[2].to_string(), "5p");
    assert_eq!(tiles[3].to_string(), "to");
}

#[test]
fn standard_hand_is_complete() {
    // 123m 456p 789s 111s 99m
    let loose = vec![m(1), m(2), m(3), p(4), p(5), p(6), s(7), s(8), s(9), s(1), s(1), s(1), m(9), m(9)];
    assert!(is_complete(&loose, &Vec::new()));
    let hand = hand_of(&loose[..13]);
    assert!(hand.can_win(&m(9)));
    assert!(!hand.can_win(&m(8)));
}

#[test]
fn overlapping_runs_need_backtracking() {
    // 111 222 333m 44p 567s: triplets first, or three identical runs
    let loose = vec![m(1), m(1), m(1), m(2), m(2), m(2), m(3), m(3), m(3), p(4), p(4), s(5), s(6), s(7)];
    assert!(is_complete(&loose, &Vec::new()));
    // 11223m 234p 678s + three red dragons: the man tiles cannot be split
    let loose = vec![m(1), m(1), m(2), m(3), p(2), p(3), p(4), s(6), s(7), s(8), h(Honor::Chun), h(Honor::Chun), h(Honor::Chun), m(2)];
    assert!(!is_complete(&loose, &Vec::new()));
}

#[test]
fn runs_do_not_share_tiles() {
    // 11m 23456789m + three single winds: pair 1m, then only 234m and 567m
    let hand = hand_of(&[m(1), m(1), m(2), m(3), m(4), m(5), m(6), m(7), m(8), m(9),
        h(Honor::Ton), h(Honor::Nan), h(Honor::Shaa)]);
    assert_eq!(hand.shanten(), 1);
    assert!(!hand.can_win(&h(Honor::Ton)));
}

#[test]
fn seven_pairs_detection() {
    let loose = vec![m(1), m(1), m(5), m(5), p(2), p(2), p(8), p(8), s(3), s(3), h(Honor::Ton), h(Honor::Ton), h(Honor::Chun), h(Honor::Chun)];
    assert!(is_complete(&loose, &Vec::new()));
    // six pairs and two singles
    let loose = vec![m(1), m(1), m(5), m(5), p(2), p(2), p(8), p(8), s(3), s(3), h(Honor::Ton), h(Honor::Ton), h(Honor::Chun), h(Honor::Haku)];
    assert!(!is_complete(&loose, &Vec::new()));
    // after throwing one single away: one tile from seven pairs
    let hand = hand_of(&loose[..13]);
    assert_eq!(hand.shanten(), 0);
    assert!(hand.is_tenpai());
}

#[test]
fn thirteen_orphans_detection() {
    let mut loose = orphans();
    loose.push(h(Honor::Chun));
    assert!(is_complete(&loose, &Vec::new()));
    // missing 9s, 1m twice
    let mut loose = orphans();
    loose.retain(|t| *t != s(9));
    loose.push(m(1));
    loose.push(m(1));
    assert!(!is_complete(&loose, &Vec::new()));
    // thirteen distinct orphans: one away
    let hand = hand_of(&orphans());
    assert_eq!(hand.shanten(), 0);
    assert!(hand.can_win(&p(9)));
}

#[test]
fn shanten_values() {
    // 123m 456p 789s 11s 2s 9p: pair 1s, three runs
    let hand = hand_of(&[m(1), m(2), m(3), p(4), p(5), p(6), s(7), s(8), s(9), s(1), s(1), s(2), p(9)]);
    assert_eq!(hand.shanten(), 0);
    // no pair at all and no orphans pattern: the standard estimate is 8
    let hand = hand_of(&[m(2), m(4), m(6), m(8), p(2), p(4), p(6), p(8), s(2), s(4), s(6), s(8), m(5)]);
    assert_eq!(hand.shanten(), 6);
    assert!(hand.shanten() >= 0);
    assert!(Hand::new().shanten() >= 0);
}

#[test]
fn meld_rollback_on_missing_tiles() {
    let mut hand = hand_of(&[m(1), m(1), p(3), s(4)]);
    let before: Vec<Tile> = hand.get_tiles().clone();
    let meld = Meld { meld_type: MeldType::Pon, tiles: vec![m(1), m(1), m(1)], is_open: true };
    assert!(!hand.add_meld(meld));
    assert_eq!(hand.get_tiles(), &before);
    assert_eq!(hand.get_melds().len(), 0);
}

#[test]
fn meld_takes_tiles_out() {
    let mut hand = hand_of(&[m(1), m(1), m(1), p(3), s(4)]);
    let meld = Meld { meld_type: MeldType::Pon, tiles: vec![m(1), m(1), m(1)], is_open: false };
    assert!(hand.add_meld(meld));
    assert_eq!(hand.get_tiles(), &vec![p(3), s(4)]);
    assert_eq!(hand.get_melds().len(), 1);
    assert_eq!(hand.tile_count(), 5);
    assert_eq!(hand.to_string(), "3p 4s | 1m1m1m");
}

#[test]
fn hand_text() {
    assert_eq!(Hand::new().to_string(), "");
    let hand = hand_of(&[h(Honor::Ton), m(3), Tile::new_number(Suit::Pin, 5, true)]);
    assert_eq!(hand.to_string(), "3m 5pr to");
}

#[test]
fn one_away_triplets_is_tenpai() {
    // 111m 999p 555s 22p + 7s: waits on 7s for the pair
    let hand = hand_of(&[m(1), m(1), m(1), p(9), p(9), p(9), s(5), s(5), s(5), p(2), p(2), p(2), s(7)]);
    assert!(hand.can_win(&s(7)));
    assert_eq!(hand.shanten(), 0);
    // 111m 999p 55s 22p 77s: waits on 5s, 2p or 7s
    let hand = hand_of(&[m(1), m(1), m(1), p(9), p(9), p(9), s(5), s(5), p(2), p(2), s(7), s(7), h(Honor::Ton)]);
    assert!(!hand.can_win(&s(5)));
    let hand = hand_of(&[m(1), m(1), m(1), p(9), p(9), p(9), s(5), s(5), p(2), p(2), p(2), s(7), s(7)]);
    assert!(hand.can_win(&s(5)));
    assert_eq!(hand.shanten(), 0);
}
