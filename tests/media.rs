use arlo_wm::{non_blank_artists, now_playing, track_line};

fn strings(v: &[&str]) -> Vec<String> {
    v.iter().map(|s| s.to_string()).collect()
}

#[test]
fn track_line_joins_title_and_artists() {
    assert_eq!(track_line(Some("Song"), &strings(&["A", "B"])), Some("Song - A, B".to_string()));
    assert_eq!(track_line(Some("Song"), &strings(&[])), Some("Song".to_string()));
    assert_eq!(track_line(None, &strings(&["A", "B", "C"])), Some("A, B, C".to_string()));
    assert_eq!(track_line(None, &strings(&[])), None);
}

#[test]
fn blank_artists_are_dropped() {
    assert_eq!(non_blank_artists(&strings(&["A", "  ", "", "\t B "])), strings(&["A", "\t B "]));
}

#[test]
fn now_playing_skips_blanks() {
    assert_eq!(
        now_playing(Some("Title"), Some(&strings(&["A", " ", "B"]))),
        Some("Title - A, B".to_string())
    );
    assert_eq!(now_playing(Some("   "), Some(&strings(&["A"]))), Some("A".to_string()));
    assert_eq!(now_playing(Some(" \n"), Some(&strings(&[" "]))), None);
    assert_eq!(now_playing(Some(" Title "), None), Some(" Title ".to_string()));
    assert_eq!(now_playing(None, None), None);
}

#[test]
fn unicode_white_space_counts_as_blank() {
    assert_eq!(non_blank_artists(&strings(&["\u{3000}\u{a0}", "\u{2028}x", "\u{200b}"])), strings(&["\u{2028}x", "\u{200b}"]));
    assert_eq!(now_playing(Some("\u{85}\u{2009}"), None), None);
}
