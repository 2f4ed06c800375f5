use ace_of_the_heavens::game_logic::{SeedHandle, Seeds};
use ace_of_the_heavens::network::{
    change_game_state, change_rollback_state, check_ready_state, get_rtc_ice_server_config,
    handle_seed_broadcast, handle_session_event, matchmaking_room_url, players,
    wait_for_players, wait_for_seed, GgrsEventKind, PeerState, PlayerType, Ready,
    SessionEvent, SessionStart, TurnCredentials,
};
use ace_of_the_heavens::game_logic::{GameState, RollbackState};
use ace_of_the_heavens::network::{encode_message, receive_messages, remote_peer_ids};

#[test]
fn players_before_id_is_only_local() {
    assert_eq!(players(None, &vec![5, 7]), vec![PlayerType::Local]);
}

#[test]
fn players_sorted_by_id() {
    assert_eq!(
        players(Some(50), &vec![90, 10]),
        vec![PlayerType::Remote(10), PlayerType::Local, PlayerType::Remote(90)]
    );
    assert_eq!(players(Some(3), &vec![]), vec![PlayerType::Local]);
}

#[test]
fn players_agree_across_peers() {
    let a = players(Some(42), &vec![7]);
    let b = players(Some(7), &vec![42]);
    assert_eq!(a, vec![PlayerType::Remote(7), PlayerType::Local]);
    assert_eq!(b, vec![PlayerType::Local, PlayerType::Remote(42)]);
}

fn seeds_with(seed: u32) -> Seeds {
    let mut s = Seeds::new();
    s.0.push(SeedHandle::new(None, seed));
    s
}

#[test]
fn wait_for_players_counts() {
    let seeds = seeds_with(1234);
    let mut ready = Ready::new();
    assert!(matches!(
        wait_for_players(&vec![PlayerType::Local], &seeds, &mut ready),
        SessionStart::Waiting
    ));
    assert!(!ready.connection_ready);
    let three = vec![PlayerType::Local, PlayerType::Remote(1), PlayerType::Remote(2)];
    assert!(matches!(wait_for_players(&three, &seeds, &mut ready), SessionStart::GameFull));
    assert!(!ready.connection_ready);
    match wait_for_players(&vec![PlayerType::Remote(9), PlayerType::Local], &seeds, &mut ready) {
        SessionStart::Start { local_handle, seed_messages } => {
            assert_eq!(local_handle, Some(1));
            assert_eq!(seed_messages, vec![(9u128, "1234".to_string())]);
        }
        _ => panic!("expected the session to start"),
    }
    assert!(ready.connection_ready);
}

#[test]
fn seed_exchange() {
    let mut seeds = seeds_with(500);
    let mut ready = Ready::new();
    let players = vec![PlayerType::Local, PlayerType::Remote(9)];
    let msgs = vec![(9u128, "77".to_string())];
    // not connected yet: nothing happens
    let sent = wait_for_seed(&mut seeds, &mut ready, &msgs, &players);
    assert!(sent.is_empty());
    assert_eq!(seeds.0.len(), 1);
    ready.connection_ready = true;
    let sent = wait_for_seed(&mut seeds, &mut ready, &msgs, &players);
    assert_eq!(sent, vec![9u128]);
    assert_eq!(seeds.0[1], SeedHandle::new(Some(9), 77));
    assert!(ready.local_ready);
    assert!(!ready.remote_ready);
    assert!(!check_ready_state(&ready));
    let sent = wait_for_seed(&mut seeds, &mut ready, &vec![(9u128, "ready".to_string())], &players);
    assert!(sent.is_empty());
    assert!(ready.remote_ready);
    assert!(check_ready_state(&ready));
    assert_eq!(seeds.0.len(), 2);
}

#[test]
fn seed_broadcast_on_connect() {
    let seeds = seeds_with(31);
    assert_eq!(handle_seed_broadcast(&vec![PeerState::Disconnected], &seeds), None);
    assert_eq!(
        handle_seed_broadcast(&vec![PeerState::Disconnected, PeerState::Connected], &seeds),
        Some(31)
    );
}

#[test]
fn disconnect_returns_to_menu() {
    assert_eq!(
        handle_session_event(GgrsEventKind::Disconnected),
        Some(SessionEvent { main_menu: true })
    );
    assert_eq!(handle_session_event(GgrsEventKind::DesyncDetected), None);
    let evs = vec![SessionEvent { main_menu: false }, SessionEvent { main_menu: true }];
    assert_eq!(change_game_state(&evs), Some(GameState::MainMenu));
    assert_eq!(change_rollback_state(&evs), Some(RollbackState::Setup));
    assert_eq!(change_game_state(&vec![]), None);
}

#[test]
fn ice_servers_use_credentials() {
    assert!(get_rtc_ice_server_config(None).is_none());
    let creds = TurnCredentials { username: "u".to_string(), credential: "p".to_string() };
    let cfg = get_rtc_ice_server_config(Some(&creds)).unwrap();
    assert_eq!(cfg.urls.len(), 9);
    assert_eq!(cfg.urls[0], "stun:stun.l.google.com:19302");
    assert_eq!(cfg.username, Some("u".to_string()));
    assert_eq!(cfg.credential, Some("p".to_string()));
}

#[test]
fn room_url() {
    assert_eq!(matchmaking_room_url(2), "wss://rancic.org/matchmaking?next=2");
}

#[test]
fn message_packet_is_length_then_utf8() {
    assert_eq!(
        encode_message("ready"),
        vec![5, 0, 0, 0, 0, 0, 0, 0, b'r', b'e', b'a', b'd', b'y']
    );
    assert_eq!(encode_message(""), vec![0; 8]);
    // the length counts UTF-8 bytes, not characters
    assert_eq!(encode_message("é"), vec![2, 0, 0, 0, 0, 0, 0, 0, 0xc3, 0xa9]);
}

#[test]
fn messages_read_back_as_sent() {
    let texts = ["ready", "1700000000", "nerf 1 9 -5", "", "ünïcödé ✈"];
    let packets: Vec<(u128, Vec<u8>)> =
        texts.iter().enumerate().map(|(i, t)| (i as u128, encode_message(t))).collect();
    let received = receive_messages(&packets).unwrap();
    assert_eq!(received.len(), texts.len());
    for (i, (peer, text)) in received.iter().enumerate() {
        assert_eq!(*peer, i as u128);
        assert_eq!(text, texts[i]);
    }
}

#[test]
fn malformed_packets_hold_no_message() {
    // too short for the length
    assert!(receive_messages(&vec![(1, vec![5, 0, 0])]).is_none());
    // shorter than the length says
    assert!(receive_messages(&vec![(1, vec![5, 0, 0, 0, 0, 0, 0, 0, b'r'])]).is_none());
    // not UTF-8
    assert!(receive_messages(&vec![(1, vec![1, 0, 0, 0, 0, 0, 0, 0, 0xff])]).is_none());
    // one bad packet spoils the batch
    let good = (2, encode_message("ready"));
    assert!(receive_messages(&vec![good.clone(), (3, vec![])]).is_none());
    // bytes after the text are ignored
    let mut long = encode_message("ok");
    long.push(7);
    assert_eq!(receive_messages(&vec![(4, long)]), Some(vec![(4, "ok".to_string())]));
    assert_eq!(receive_messages(&vec![]), Some(vec![]));
}

#[test]
fn remote_peer_ids_in_player_order() {
    let ps = vec![PlayerType::Remote(8), PlayerType::Local, PlayerType::Spectator(2), PlayerType::Remote(3)];
    assert_eq!(remote_peer_ids(&ps), vec![8, 3]);
}
