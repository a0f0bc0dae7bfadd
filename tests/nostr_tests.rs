use xmj_core::nostr::{GameEvent, GameEventType, MatchState, NostrClient, NostrKeys};

#[test]
fn test_keys_generation() {
    let keys = NostrKeys::generate();
    assert!(!keys.public_key.is_empty());
    assert!(!keys.private_key.is_empty());
    assert!(keys.public_key.starts_with("npub_"));
    assert!(keys.private_key.starts_with("nsec_"));
}

#[test]
fn keys_from_timestamp() {
    let keys = NostrKeys::from_timestamp(0x1a2b);
    assert_eq!(keys.public_key, "npub_1a2b");
    assert_eq!(keys.private_key, "nsec_1a2b");
    assert_eq!(NostrKeys::from_timestamp(0).public_key, "npub_0");
    let now = NostrKeys::generate();
    assert!(now.public_key.len() > "npub_".len() + 4);
}

#[test]
fn test_match_state() {
    let mut match_state = MatchState::new("match1".to_string(), "normal".to_string(), 4);

    assert!(!match_state.is_ready);
    assert!(match_state.add_player("player1".to_string()));
    assert!(match_state.add_player("player2".to_string()));
    assert!(match_state.add_player("player3".to_string()));
    assert!(!match_state.is_ready);

    assert!(match_state.add_player("player4".to_string()));
    assert!(match_state.is_ready);
    assert!(match_state.is_full());
}

#[test]
fn joining_twice_is_refused() {
    let mut st = MatchState::new("m".to_string(), "normal".to_string(), 2);
    assert!(st.add_player("a".to_string()));
    assert!(!st.add_player("a".to_string()));
    assert_eq!(st.joined_players.len(), 1);
}

#[test]
fn event_data_keys_are_replaced() {
    let ev = GameEvent::new(GameEventType::DrawTile, "game123".to_string(), "player1".to_string())
        .with_data("tile".to_string(), "1m".to_string())
        .with_data("turn".to_string(), "3".to_string())
        .with_data("tile".to_string(), "2p".to_string());
    assert_eq!(ev.data, vec![("tile".to_string(), "2p".to_string()), ("turn".to_string(), "3".to_string())]);
    assert_eq!(ev.game_id, "game123");
    assert_eq!(GameEvent::new_at(GameEventType::Ron, "g".to_string(), "p".to_string(), 7).timestamp, 7);
}

#[test]
fn client_matching() {
    let keys = NostrKeys::from_timestamp(42);
    let mut client = NostrClient::with_keys(keys, "ws://localhost:7000".to_string());
    assert_eq!(client.public_key(), "npub_2a");
    assert_eq!(client.relay_url(), "ws://localhost:7000");
    let id = client.seek_match("normal", 1).unwrap();
    assert!(id.starts_with("match_"));
    assert_eq!(id.len(), 42);
    let id2 = client.seek_match("normal", 4).unwrap();
    assert_ne!(id, id2);
    assert_eq!(client.get_active_matches().len(), 2);
    assert!(client.join_match(&id).is_ok());
    assert_eq!(client.get_active_matches().len(), 1);
    assert!(client.join_match(&id).is_err());
    assert!(client.join_match("nope").is_err());
}
