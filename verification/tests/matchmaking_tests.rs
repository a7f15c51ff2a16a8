use std::sync::{Arc, Mutex};

use bslib::game_manager::{GameManager, ServerGame, ServerPlayer};

fn named_player(nick: &str) -> ServerPlayer {
    let mut p = ServerPlayer::new();
    p.set_nick(nick);
    p
}

#[test]
fn player_nick() {
    let mut p = ServerPlayer::new();
    assert_eq!(p.get_nick(), "");
    p.set_nick("alice");
    assert_eq!(p.get_nick(), "alice");
}

#[test]
fn game_slots() {
    let mut g = ServerGame::new(named_player("alice"));
    assert!(g.has_empty_slot());
    g.add_opponent(named_player("bob"));
    assert!(!g.has_empty_slot());
}

#[test]
fn assign_on_empty_registry_opens_one_game() {
    let mut m = GameManager::new();
    assert_eq!(m.games_count(), 0);
    let (opponent, game_id) = m.assign_player(named_player("alice"));
    assert!(!opponent);
    assert_eq!(game_id, 1);
    assert_eq!(m.games_count(), 1);
    let (first, second) = m.game_nicks(0);
    assert_eq!(first, "alice");
    assert!(second.is_none());
}

#[test]
fn assign_fills_first_then_opens_second() {
    let mut m = GameManager::new();
    m.assign_player(named_player("alice"));
    let (opponent, game_id) = m.assign_player(named_player("bob"));
    assert!(opponent);
    assert_eq!(game_id, 1);
    assert_eq!(m.games_count(), 1);
    let (first, second) = m.game_nicks(0);
    assert_eq!(first, "alice");
    assert_eq!(second.as_deref(), Some("bob"));
    let (opponent, game_id) = m.assign_player(named_player("carol"));
    assert!(!opponent);
    assert_eq!(game_id, 2);
    assert_eq!(m.games_count(), 2);
    let (first, second) = m.game_nicks(1);
    assert_eq!(first, "carol");
    assert!(second.is_none());
}

#[test]
fn concurrent_assigns_pair_all_players() {
    let n: usize = 11;
    let manager = Arc::new(Mutex::new(GameManager::new()));
    let runtime = tokio::runtime::Builder::new_multi_thread()
        .worker_threads(4)
        .build()
        .expect("runtime");
    let mut handles = Vec::new();
    for k in 0..n {
        let shared = manager.clone();
        handles.push(runtime.spawn(async move {
            let nick = format!("player{}", k);
            let mut m = shared.lock().expect("lock");
            m.assign_player(named_player(&nick));
        }));
    }
    runtime.block_on(async {
        for h in handles {
            h.await.expect("task");
        }
    });
    let m = manager.lock().expect("lock");
    assert_eq!(m.games_count(), (n + 1) / 2);
    let mut seen: Vec<String> = Vec::new();
    for i in 0..m.games_count() {
        let (first, second) = m.game_nicks(i);
        // every game holds at most its two slots, and only the last may be
        // half full
        if i + 1 < m.games_count() {
            assert!(second.is_some());
        }
        seen.push(first);
        if let Some(s) = second {
            seen.push(s);
        }
    }
    assert_eq!(seen.len(), n);
    seen.sort();
    let mut expected: Vec<String> = (0..n).map(|k| format!("player{}", k)).collect();
    expected.sort();
    // no player was lost, duplicated, or put in two games
    assert_eq!(seen, expected);
}
