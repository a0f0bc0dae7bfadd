use xmj_core::tile::{Honor, Suit, Tile, TileType};

#[test]
fn test_tile_creation() {
    let tile = Tile::new_number(Suit::Man, 5, false);
    assert_eq!(tile.to_string(), "5m");

    let red_tile = Tile::new_number(Suit::Pin, 5, true);
    assert_eq!(red_tile.to_string(), "5pr");

    let honor_tile = Tile::new_honor(Honor::Ton);
    assert_eq!(honor_tile.to_string(), "to");
}

#[test]
fn test_tile_from_string() {
    assert_eq!(Tile::from_string("5m").unwrap().to_string(), "5m");
    assert_eq!(Tile::from_string("5mr").unwrap().to_string(), "5mr");
    assert_eq!(Tile::from_string("to").unwrap().to_string(), "to");
    assert!(Tile::from_string("invalid").is_none());
}

fn all_tiles() -> Vec<Tile> {
    let mut v = Vec::new();
    for suit in [Suit::Man, Suit::Pin, Suit::Sou] {
        for value in 1..=9u8 {
            v.push(Tile::new_number(suit, value, false));
            v.push(Tile::new_number(suit, value, true));
        }
    }
    for h in [Honor::Ton, Honor::Nan, Honor::Shaa, Honor::Pei, Honor::Haku, Honor::Hatsu, Honor::Chun] {
        v.push(Tile::new_honor(h));
    }
    v
}

#[test]
fn text_round_trip_every_tile() {
    for t in all_tiles() {
        assert_eq!(Tile::from_string(&t.to_string()), Some(t));
    }
}

#[test]
fn text_forms_are_exact() {
    assert_eq!(Tile::new_number(Suit::Sou, 9, false).to_string(), "9s");
    assert_eq!(Tile::new_honor(Honor::Hatsu).to_string(), "ht");
    assert_eq!(Tile::new_honor(Honor::Chun).to_string(), "cn");
    assert_eq!(
        Tile::from_string("7p"),
        Some(Tile { tile_type: TileType::Number { suit: Suit::Pin, value: 7 }, is_red: false })
    );
    assert_eq!(Tile::from_string("hk"), Some(Tile::new_honor(Honor::Haku)));
}

#[test]
fn parse_rejects_other_text() {
    for s in ["", "5", "0m", "5x", "5mx", "5mrr", "10m", "TO", "t o", "mm", "r5m"] {
        assert!(Tile::from_string(s).is_none(), "{s}");
    }
}
