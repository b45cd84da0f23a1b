use skillsupport::runtime::reaper::reaper_sleep_ms;
use skillsupport::runtime::transport::session::{
    HeartbeatState, SessionId, SessionManager, SessionState,
};

const NOW: u64 = 1_000_000;

#[test]
fn register_tracks_connected_sessions() {
    let mut manager = SessionManager::default();

    let id = manager.register(None, NOW);

    assert_eq!(manager.count(), 1);
    assert_eq!(manager.connected_count(), 1);
    assert_eq!(
        manager.get(id).expect("session").state,
        SessionState::Connected
    );
}

#[test]
fn mark_disconnected_updates_session_state() {
    let mut manager = SessionManager::default();
    let id = manager.register(None, NOW);

    manager.mark_disconnected(id, NOW + 5);

    let session = manager.get(id).expect("session");
    assert_eq!(session.state, SessionState::Disconnected);
    assert!(session.transport.disconnected_at.is_some());
    assert_eq!(manager.connected_count(), 0);
}

#[test]
fn reap_disconnected_removes_expired_sessions() {
    let mut manager = SessionManager::default();
    let id = manager.register(None, NOW);
    manager.mark_disconnected(id, NOW);

    assert_eq!(manager.reap_disconnected(0, NOW), vec![id]);
    assert_eq!(manager.count(), 0);
}

#[test]
fn session_ids_count_up_and_read_as_labels() {
    let mut manager = SessionManager::new();
    let first = manager.register(Some("127.0.0.1:5000".to_string()), NOW);
    let second = manager.register(None, NOW);
    assert_eq!(first, SessionId::new(1));
    assert_eq!(second.value(), 2);
    assert_eq!(first.label(), "session-1");
    assert_eq!(SessionId::new(1234).label(), "session-1234");
    let session = manager.get(first).expect("session");
    assert_eq!(session.transport.peer_addr.as_deref(), Some("127.0.0.1:5000"));
    assert_eq!(session.heartbeat, HeartbeatState::Unknown);
    assert_eq!(session.transport.connected_at, NOW);
}

#[test]
fn touch_marks_a_session_alive() {
    let mut manager = SessionManager::new();
    let id = manager.register(None, NOW);
    manager.touch(id, NOW + 7);
    let session = manager.get(id).expect("session");
    assert_eq!(session.heartbeat, HeartbeatState::Alive);
    assert_eq!(session.last_seen_at, NOW + 7);
    manager.touch(SessionId::new(99), NOW + 8);
    assert_eq!(manager.count(), 1);
    assert!(manager.get(SessionId::new(99)).is_none());
}

#[test]
fn reaping_keeps_recent_and_connected_sessions() {
    let mut manager = SessionManager::new();
    let old = manager.register(None, NOW);
    let recent = manager.register(None, NOW);
    let live = manager.register(None, NOW);
    manager.mark_disconnected(old, NOW);
    manager.mark_disconnected(recent, NOW + 900);

    assert_eq!(manager.reap_disconnected(1_000, NOW + 1_000), vec![old]);
    assert_eq!(manager.count(), 2);
    assert!(manager.get(recent).is_some());
    assert!(manager.get(live).is_some());
    assert_eq!(manager.reap_disconnected(1_000, NOW + 1_899), Vec::<SessionId>::new());
    assert_eq!(manager.reap_disconnected(1_000, NOW + 1_900), vec![recent]);
    assert_eq!(manager.list().len(), 1);
}

#[test]
fn reaper_sleeps_until_the_next_deadline_or_one_tick() {
    assert_eq!(reaper_sleep_ms(None, 100, 50), 50);
    assert_eq!(reaper_sleep_ms(Some(120), 100, 50), 20);
    assert_eq!(reaper_sleep_ms(Some(500), 100, 50), 50);
    assert_eq!(reaper_sleep_ms(Some(90), 100, 50), 0);
    assert_eq!(reaper_sleep_ms(Some(150), 100, 50), 50);
}
