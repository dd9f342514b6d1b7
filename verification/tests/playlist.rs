use hs_music::player::MusicPlayer;
use hs_music::utils::contains_str;
use hs_music::utils::get_links_from_playlist;
use hs_music::utils::trim_quotes;
use hs_music::utils::LinksFromPlaylistError;

#[test]
fn five_entries_one_bad_gives_four_links() {
    let output = r#"{"url":"a1"}{"url":"a2"}{"id":"no-url-here"}{"url":"a4"}{"url":"a5"}"#;
    let links = get_links_from_playlist(output);
    assert_eq!(
        links,
        vec![
            "https://www.youtube.com/watch?v=a1".to_string(),
            "https://www.youtube.com/watch?v=a2".to_string(),
            "https://www.youtube.com/watch?v=a4".to_string(),
            "https://www.youtube.com/watch?v=a5".to_string(),
        ]
    );

    // the whole batch is enqueued by one play command: one acknowledgment
    let mut p = MusicPlayer::new();
    p.connect(1, 2);
    let d = p.play(1, links);
    assert!(d.should_start);
    assert_eq!(p.connections[0].queue_links.len(), 4);
}

#[test]
fn single_entry_becomes_watch_link() {
    let links = get_links_from_playlist(r#"{"url":"dQw"}"#);
    assert_eq!(links, vec!["https://www.youtube.com/watch?v=dQw".to_string()]);
}

#[test]
fn surrounding_quotes_are_trimmed() {
    let output = "\"{\"url\":\"abc\"}\"";
    let links = get_links_from_playlist(output);
    assert_eq!(links, vec!["https://www.youtube.com/watch?v=abc".to_string()]);
}

#[test]
fn malformed_entries_are_skipped() {
    let links = get_links_from_playlist(r#"garbage}{"url":"ok"}"#);
    assert_eq!(links, vec!["https://www.youtube.com/watch?v=ok".to_string()]);
}

#[test]
fn url_member_must_be_a_string() {
    let links = get_links_from_playlist(r#"{"url":5}{"url":true}"#);
    assert_eq!(links.len(), 0);
}

#[test]
fn empty_output_gives_no_links() {
    let links = get_links_from_playlist("");
    assert_eq!(links.len(), 0);
}

#[test]
fn trim_quotes_drops_every_edge_quote() {
    assert_eq!(trim_quotes("\"\"abc\""), "abc");
    assert_eq!(trim_quotes("abc"), "abc");
    assert_eq!(trim_quotes("\"\""), "");
    assert_eq!(trim_quotes(""), "");
}

#[test]
fn substring_search_is_exact() {
    assert!(contains_str("abcdef", "cde"));
    assert!(contains_str("abcdef", ""));
    assert!(contains_str("abcdef", "abcdef"));
    assert!(!contains_str("abcdef", "abcdeg"));
    assert!(!contains_str("ab", "abc"));
    assert!(contains_str("watch?v=x&list=PL", "&list="));
}

#[test]
fn playlist_error_kinds_are_distinct() {
    assert_ne!(LinksFromPlaylistError::IOError, LinksFromPlaylistError::Utf8Error);
    assert_eq!(LinksFromPlaylistError::IOError, LinksFromPlaylistError::IOError);
}
