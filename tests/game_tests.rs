use xmj_core::ai::{AiEngine, AiLevel};
use xmj_core::game::Game;
use xmj_core::hand::Hand;
use xmj_core::player::Player;
use xmj_core::tile::{Honor, Suit, Tile};

#[test]
fn test_game_creation() {
    let names = vec!["Player1".to_string(), "Player2".to_string(), "Player3".to_string(), "Player4".to_string()];
    let game = Game::new(names);

    assert_eq!(game.players.len(), 4);
    assert!(game.players[0].is_dealer);
    assert_eq!(game.players[0].tile_count(), 14);
    assert_eq!(game.players[1].tile_count(), 13);
    assert_eq!(game.dora_indicators.len(), 1);
}

#[test]
fn test_tile_draw_and_discard() {
    let names = vec!["P1".to_string(), "P2".to_string(), "P3".to_string(), "P4".to_string()];
    let mut game = Game::new(names);

    let initial_wall_count = game.get_wall_count();
    assert!(game.current_player_draw());
    assert_eq!(game.get_wall_count(), initial_wall_count - 1);

    let _player_tiles = game.get_current_player().get_hand_string();
    let first_tile = game.get_current_player().hand.get_tiles()[0];

    assert!(game.discard_tile(first_tile));
    assert_eq!(game.current_player, 1);
}

#[test]
fn new_game_holds_the_full_set() {
    let names = vec!["a".to_string(), "b".to_string(), "c".to_string(), "d".to_string()];
    let game = Game::new(names);
    let mut all: Vec<Tile> = game.wall.clone();
    all.extend(game.dora_indicators.iter().copied());
    for p in &game.players {
        all.extend(p.hand.get_tiles().iter().copied());
    }
    assert_eq!(all.len(), 136);
    assert_eq!(game.get_wall_count(), 82);
    let reds = all.iter().filter(|t| t.is_red).count();
    assert_eq!(reds, 3);
    let tons = all.iter().filter(|t| **t == Tile::new_honor(Honor::Ton)).count();
    assert_eq!(tons, 4);
    assert_eq!(game.players[2].name, "c");
    assert_eq!(game.players[3].id, 3);
}

#[test]
fn walls_are_shuffled() {
    let names = || vec!["a".to_string(), "b".to_string(), "c".to_string(), "d".to_string()];
    let g1 = Game::new(names());
    let g2 = Game::new(names());
    let g3 = Game::new(names());
    assert!(g1.wall != g2.wall || g2.wall != g3.wall);
}

#[test]
fn claims_follow_seat_rules() {
    let names = vec!["a".to_string(), "b".to_string(), "c".to_string(), "d".to_string()];
    let mut game = Game::new(names);
    let t = Tile::new_number(Suit::Sou, 5, false);
    // seat 3 holds 4s 6s and two 5s
    game.players[3].hand = Hand::new();
    for x in [Tile::new_number(Suit::Sou, 4, false), Tile::new_number(Suit::Sou, 6, false), t, t] {
        game.players[3].draw_tile(x);
    }
    game.last_discard = Some(t);
    game.current_player = 0;
    assert!(game.can_chi(3));
    assert!(!game.can_chi(1));
    assert!(game.can_pon(3));
    assert!(!game.can_kan(3));
    assert!(!game.can_pon(0));
    assert!(!game.do_chi(3, 0));
    assert!(game.do_chi(3, 1));
    assert_eq!(game.current_player, 3);
    assert!(game.last_discard.is_none());
    assert_eq!(game.players[3].hand.get_melds().len(), 1);
    assert_eq!(game.players[3].hand.get_tiles(), &vec![t, t]);
}

#[test]
fn concealed_quad() {
    let names = vec!["a".to_string(), "b".to_string(), "c".to_string(), "d".to_string()];
    let mut game = Game::new(names);
    let t = Tile::new_honor(Honor::Chun);
    game.players[1].hand = Hand::new();
    for _ in 0..4 {
        game.players[1].draw_tile(t);
    }
    assert_eq!(game.can_ankan(1), vec![t]);
    let wall = game.get_wall_count();
    assert!(game.do_ankan(1, t));
    assert_eq!(game.players[1].hand.get_melds().len(), 1);
    assert_eq!(game.get_dora_indicators().len(), 2);
    assert_eq!(game.get_wall_count(), wall - 2);
    assert_eq!(game.players[1].hand.get_tiles().len(), 1);
    assert!(!game.do_ankan(1, t));
}

#[test]
fn game_over_on_empty_wall() {
    let names = vec!["a".to_string(), "b".to_string(), "c".to_string(), "d".to_string()];
    let mut game = Game::new(names);
    assert!(!game.is_game_over());
    while game.draw_tile().is_some() {}
    assert!(game.is_game_over());
    assert!(!game.current_player_draw());
}

#[test]
fn test_player_creation() {
    let player = Player::new(0, "Test Player".to_string());
    assert_eq!(player.id, 0);
    assert_eq!(player.name, "Test Player");
    assert_eq!(player.score, 25000);
    assert!(!player.is_dealer);
    assert_eq!(player.tile_count(), 0);
}

#[test]
fn test_draw_and_discard() {
    let mut player = Player::new(0, "Test".to_string());
    let tile = Tile::new_number(Suit::Man, 1, false);

    player.draw_tile(tile);
    assert_eq!(player.tile_count(), 1);

    assert!(player.discard_tile(tile));
    assert_eq!(player.tile_count(), 0);
    assert_eq!(player.discards.len(), 1);
}

#[test]
fn player_scores_and_riichi() {
    let mut player = Player::new(0, "x".to_string());
    player.subtract_score(30000);
    assert_eq!(player.score, 0);
    player.add_score(1500);
    assert_eq!(player.score, 1500);
    assert!(!player.can_riichi());
    // a hand one tile from seven pairs
    for t in [Tile::new_number(Suit::Man, 1, false), Tile::new_number(Suit::Man, 5, false),
              Tile::new_number(Suit::Pin, 2, false), Tile::new_number(Suit::Pin, 8, false),
              Tile::new_number(Suit::Sou, 3, false), Tile::new_honor(Honor::Ton)] {
        player.draw_tile(t);
        player.draw_tile(t);
    }
    player.draw_tile(Tile::new_honor(Honor::Chun));
    assert!(player.is_tenpai());
    assert!(player.can_riichi());
    assert!(player.declare_riichi(3));
    assert_eq!(player.score, 500);
    assert_eq!(player.riichi_turn, Some(3));
    assert!(player.ippatsu);
    assert!(!player.declare_riichi(4));
    player.clear_ippatsu();
    assert!(!player.ippatsu);
    assert!(player.can_discard_after_riichi(&Tile::new_honor(Honor::Chun)));
    assert!(!player.can_discard_after_riichi(&Tile::new_number(Suit::Man, 1, false)));
    assert!(player.discard_tile(Tile::new_honor(Honor::Chun)));
    assert_eq!(player.get_discards_string(), "cn");
}

#[test]
fn test_ai_random() {
    let ai = AiEngine::new(AiLevel::Random);
    let mut hand = Hand::new();
    hand.add_tile(Tile::new_number(Suit::Man, 1, false));
    hand.add_tile(Tile::new_number(Suit::Man, 2, false));
    hand.add_tile(Tile::new_number(Suit::Man, 3, false));

    let discard = ai.select_discard(&hand);
    assert!(discard.is_some());
}

#[test]
fn test_ai_simple() {
    let ai = AiEngine::new(AiLevel::Simple);
    let mut hand = Hand::new();

    hand.add_tile(Tile::new_honor(Honor::Ton));
    hand.add_tile(Tile::new_number(Suit::Man, 1, false));
    hand.add_tile(Tile::new_number(Suit::Man, 2, false));
    hand.add_tile(Tile::new_number(Suit::Man, 3, false));

    let discard = ai.select_discard(&hand);
    assert_eq!(discard, Some(Tile::new_honor(Honor::Ton)));
}

#[test]
fn test_ai_intermediate() {
    let ai = AiEngine::new(AiLevel::Intermediate);
    let mut hand = Hand::new();

    hand.add_tile(Tile::new_number(Suit::Man, 1, false));
    hand.add_tile(Tile::new_number(Suit::Man, 2, false));
    hand.add_tile(Tile::new_number(Suit::Man, 3, false));
    hand.add_tile(Tile::new_number(Suit::Pin, 9, false));

    let discard = ai.select_discard(&hand);
    assert!(discard.is_some());
}

#[test]
fn ai_choices_are_exact() {
    let mut hand = Hand::new();
    for t in [Tile::new_number(Suit::Man, 1, false), Tile::new_number(Suit::Man, 2, false),
              Tile::new_number(Suit::Man, 3, false), Tile::new_number(Suit::Pin, 9, false)] {
        hand.add_tile(t);
    }
    // no honor; 9p is isolated
    assert_eq!(AiEngine::new(AiLevel::Simple).select_discard(&hand), Some(Tile::new_number(Suit::Pin, 9, false)));
    // every discard leaves shanten 8 (no pair); the first terminal wins the tie
    assert_eq!(AiEngine::new(AiLevel::Intermediate).select_discard(&hand), Some(Tile::new_number(Suit::Man, 1, false)));
    assert_eq!(AiEngine::new(AiLevel::Advanced).select_discard(&hand), Some(Tile::new_number(Suit::Man, 1, false)));
    let r = AiEngine::new(AiLevel::Random).select_discard(&hand).unwrap();
    assert!(hand.get_tiles().contains(&r));
    assert_eq!(AiEngine::new(AiLevel::Random).select_discard(&Hand::new()), None);
}

#[test]
fn state_text_and_current_player_access() {
    let names = vec!["a".to_string(), "b".to_string(), "c".to_string(), "d".to_string()];
    let mut game = Game::new(names);
    let text = game.get_game_state_string();
    assert!(text.starts_with("Round: 1 | Wall: 82 tiles\nDora indicators: "));
    assert!(text.contains(">親 a (25000点): "));
    assert!(text.contains("\n   b (25000点): "));
    assert!(!text.contains("Last discard"));
    game.get_current_player_mut().add_score(-500);
    assert_eq!(game.players[0].score, 24500);
    assert!(game.get_game_state_string().contains(">親 a (24500点): "));
    let d = Hand::default();
    assert_eq!(d.tile_count(), 0);
}

#[test]
fn concealed_quad_with_bonus_five() {
    let names = vec!["a".to_string(), "b".to_string(), "c".to_string(), "d".to_string()];
    let mut game = Game::new(names);
    let plain = Tile::new_number(Suit::Man, 5, false);
    let red = Tile::new_number(Suit::Man, 5, true);
    game.players[2].hand = Hand::new();
    for t in [plain, red, plain, plain] {
        game.players[2].draw_tile(t);
    }
    assert_eq!(game.can_ankan(2).len(), 1);
    assert!(game.do_ankan(2, plain));
    let meld = &game.players[2].hand.get_melds()[0];
    assert_eq!(meld.tiles.len(), 4);
    assert!(meld.tiles.contains(&red));
    assert!(!meld.is_open);
}

#[test]
fn open_triplet_and_quad_claims() {
    let names = vec!["a".to_string(), "b".to_string(), "c".to_string(), "d".to_string()];
    let mut game = Game::new(names);
    let d = Tile::new_honor(Honor::Hatsu);
    let x = Tile::new_number(Suit::Pin, 3, false);
    game.players[2].hand = Hand::new();
    for t in [d, d, x] {
        game.players[2].draw_tile(t);
    }
    game.last_discard = Some(d);
    game.current_player = 0;
    assert!(!game.do_kan(2));
    assert!(game.do_pon(2));
    assert_eq!(game.players[2].hand.get_tiles(), &vec![x]);
    assert_eq!(game.players[2].hand.get_melds()[0].tiles, vec![d, d, d]);
    assert!(game.players[2].hand.get_melds()[0].is_open);
    assert_eq!(game.current_player, 2);

    game.players[1].hand = Hand::new();
    for t in [x, x, x] {
        game.players[1].draw_tile(t);
    }
    game.last_discard = Some(x);
    game.current_player = 0;
    let wall = game.wall.clone();
    assert!(game.do_kan(1));
    assert_eq!(game.players[1].hand.get_melds()[0].tiles, vec![x, x, x, x]);
    assert_eq!(*game.dora_indicators.last().unwrap(), wall[wall.len() - 1]);
    assert_eq!(game.players[1].hand.get_tiles(), &vec![wall[wall.len() - 2]]);
    assert_eq!(game.wall.len(), wall.len() - 2);
}
