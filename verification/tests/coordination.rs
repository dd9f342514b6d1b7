use hs_music::connection::CallConnection;
use hs_music::connection::PlayAction;
use hs_music::connection::ResolvedTrack;
use hs_music::player::classify_play_command;
use hs_music::player::CommandError;
use hs_music::player::MusicPlayer;
use hs_music::player::PlayTarget;

fn track(title: &str, handle: u64) -> ResolvedTrack {
    ResolvedTrack { title: Some(title.to_string()), handle }
}

fn played_title(action: PlayAction) -> String {
    match action {
        PlayAction::PlayTrack(t) => t.title.unwrap(),
        PlayAction::LoadNeeded => panic!("expected a track, got a load request"),
        PlayAction::StopPlayback => panic!("expected a track, got a stop"),
    }
}

#[test]
fn fifo_round_trip() {
    let mut c = CallConnection::new(7, 99);
    c.add_source(track("A", 1));
    c.add_source(track("B", 2));
    c.add_source(track("C", 3));

    let first = c.play_next_song();
    assert!(c.is_playing);
    assert_eq!(played_title(first), "A");

    let second = c.on_track_end();
    assert!(c.is_playing);
    assert_eq!(played_title(second), "B");

    let third = c.on_track_end();
    assert!(c.is_playing);
    assert_eq!(played_title(third), "C");

    let done = c.on_track_end();
    assert!(matches!(done, PlayAction::StopPlayback));
    assert!(!c.is_playing);
    assert_eq!(c.current_tracks.len(), 0);
}

#[test]
fn links_come_back_in_order() {
    let mut c = CallConnection::new(1, 2);
    c.enqueue_links(vec!["u1".to_string(), "u2".to_string()]);
    assert_eq!(c.load_next_track(), Some("u1".to_string()));
    assert_eq!(c.load_next_track(), Some("u2".to_string()));
    assert_eq!(c.load_next_track(), None);
}

#[test]
fn advance_loads_before_stopping() {
    let mut c = CallConnection::new(1, 2);
    c.enqueue_links(vec!["u".to_string()]);
    // nothing is loaded yet, but a link is queued: the advance asks for a
    // load instead of stopping
    let a = c.play_next_song();
    assert!(matches!(a, PlayAction::LoadNeeded));
    assert_eq!(c.queue_links.len(), 1);
    assert_eq!(c.load_next_track(), Some("u".to_string()));
    c.add_source(track("T", 9));
    let a = c.play_next_song();
    assert!(matches!(a, PlayAction::PlayTrack(_)));
    assert!(c.is_playing);
}

#[test]
fn track_end_with_pending_links_asks_for_a_load() {
    let mut c = CallConnection::new(1, 2);
    c.add_source(track("T", 1));
    let _ = c.play_next_song();
    c.enqueue_links(vec!["next".to_string()]);
    let a = c.on_track_end();
    assert!(matches!(a, PlayAction::LoadNeeded));
    assert!(!c.is_playing);
    assert_eq!(c.queue_links.len(), 1);
}

#[test]
fn skip_with_pending_links_asks_for_a_load() {
    let mut p = MusicPlayer::new();
    p.connect(6, 1);
    p.add_source(6, track("T", 1));
    let _ = p.play_next_song(6).unwrap();
    let _d = p.play(6, vec!["next".to_string()]);
    let r = p.skip(6).unwrap();
    assert!(matches!(r, PlayAction::LoadNeeded));
    assert_eq!(p.connections[0].queue_links.len(), 1);
}

#[test]
fn untitled_track_announcement() {
    let t = ResolvedTrack { title: None, handle: 1 };
    let m = CallConnection::now_playing_message(&t);
    assert_eq!(m, "Now playing: an unknown track");
}

#[test]
fn on_track_end_with_empty_queue_stops() {
    let mut c = CallConnection::new(1, 2);
    let action = c.on_track_end();
    assert!(matches!(action, PlayAction::StopPlayback));
    assert!(!c.is_playing);
}

#[test]
fn clear_in_any_state_and_twice() {
    let mut p = MusicPlayer::new();
    p.connect(4, 10);

    // idle, empty queue
    assert!(p.clear(4).is_ok());
    assert_eq!(p.connections[0].queue_links.len(), 0);
    assert!(!p.connections[0].is_playing);

    // playing, with queued links and a loaded track
    let d = p.play(4, vec!["u1".to_string(), "u2".to_string()]);
    assert!(d.should_start);
    p.add_source(4, track("T", 1));
    let action = p.play_next_song(4).unwrap();
    assert!(matches!(action, PlayAction::PlayTrack(_)));
    assert!(p.connections[0].is_playing);

    assert!(p.clear(4).is_ok());
    assert_eq!(p.connections[0].queue_links.len(), 0);
    assert_eq!(p.connections[0].current_tracks.len(), 0);
    assert!(!p.connections[0].is_playing);

    // and a second clear right away changes nothing
    assert!(p.clear(4).is_ok());
    assert_eq!(p.connections[0].queue_links.len(), 0);
    assert_eq!(p.connections[0].current_tracks.len(), 0);
    assert!(!p.connections[0].is_playing);
}

#[test]
fn skip_when_not_playing_changes_nothing() {
    let mut p = MusicPlayer::new();
    p.connect(3, 8);
    let d = p.play(3, vec!["u".to_string()]);
    assert!(d.should_start);

    let r = p.skip(3);
    assert_eq!(r.err(), Some(CommandError::NotPlaying));
    assert_eq!(p.connections.len(), 1);
    assert_eq!(p.connections[0].queue_links.len(), 1);
    assert!(!p.connections[0].is_playing);
}

#[test]
fn skip_and_clear_need_a_connection() {
    let mut p = MusicPlayer::new();
    let r = p.skip(5);
    assert_eq!(r.err(), Some(CommandError::NotConnected));
    let r = p.clear(5);
    assert_eq!(r.err(), Some(CommandError::NotConnected));
    // neither do the playback operations: a stale notification is dropped
    assert!(p.on_track_end(5).is_none());
    assert!(p.play_next_song(5).is_none());
    assert!(p.load_next_track(5).is_none());
    assert!(!p.add_source(5, track("T", 1)));
    assert!(p.callback_channel(5).is_none());
    // no command creates a connection as a side effect
    assert_eq!(p.connections.len(), 0);
    assert!(!p.get(5));
}

#[test]
fn skip_forces_the_end_of_the_current_track() {
    let mut p = MusicPlayer::new();
    p.connect(2, 9);
    p.add_source(2, track("first", 1));
    p.add_source(2, track("second", 2));
    let started = p.play_next_song(2).unwrap();
    assert_eq!(played_title(started), "first");

    let skipped = p.skip(2).unwrap();
    assert_eq!(played_title(skipped), "second");
    assert!(p.connections[0].is_playing);

    let stopped = p.skip(2).unwrap();
    assert!(matches!(stopped, PlayAction::StopPlayback));
    assert!(!p.connections[0].is_playing);
}

#[test]
fn get_or_create_keeps_one_connection_per_guild() {
    let mut p = MusicPlayer::new();
    for _ in 0..100 {
        p.connect(42, 7);
    }
    assert_eq!(p.connections.len(), 1);
    assert!(p.get(42));
    assert!(!p.get(43));
}

#[test]
fn reconnect_keeps_queue_and_flag() {
    let mut p = MusicPlayer::new();
    p.connect(42, 7);
    let _ = p.play(42, vec!["u".to_string()]);
    p.connect(42, 7);
    assert_eq!(p.connections.len(), 1);
    assert_eq!(p.connections[0].queue_links.len(), 1);
}

#[test]
fn exactly_one_caller_starts_playback() {
    let mut p = MusicPlayer::new();
    p.connect(11, 1);

    // first command sees the idle connection and must advance it
    let d1 = p.play(11, vec!["a".to_string()]);
    assert!(d1.should_start);
    assert!(d1.needs_load);
    p.add_source(11, track("a", 1));
    let action = p.play_next_song(11).unwrap();
    assert!(matches!(action, PlayAction::PlayTrack(_)));

    // second command sees playback running: no second start
    let d2 = p.play(11, vec!["b".to_string()]);
    assert!(!d2.should_start);
}

#[test]
fn play_command_needs_a_url() {
    let r = classify_play_command(&vec!["play".to_string()]);
    assert_eq!(r.err(), Some(CommandError::NoResourceUrl));
}

#[test]
fn playlist_urls_are_recognized() {
    let r = classify_play_command(&vec![
        "play".to_string(),
        "https://www.youtube.com/watch?v=x&list=PL123".to_string(),
    ]);
    match r {
        Ok(PlayTarget::Playlist(u)) => {
            assert_eq!(u, "https://www.youtube.com/watch?v=x&list=PL123")
        },
        other => panic!("expected a playlist target, got {:?}", other),
    }

    let r = classify_play_command(&vec![
        "play".to_string(),
        "https://example.com/playlist/77".to_string(),
    ]);
    assert!(matches!(r, Ok(PlayTarget::Playlist(_))));

    let r = classify_play_command(&vec![
        "play".to_string(),
        "https://www.youtube.com/watch?v=x".to_string(),
    ]);
    match r {
        Ok(PlayTarget::Single(u)) => assert_eq!(u, "https://www.youtube.com/watch?v=x"),
        other => panic!("expected a single target, got {:?}", other),
    }
}

#[test]
fn now_playing_announcement() {
    let t = track("Some Song", 1);
    let m = CallConnection::now_playing_message(&t);
    assert_eq!(m, "Now playing: Some Song");
}
