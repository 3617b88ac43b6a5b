use music_index::classify::{file_stem, is_audio_file};

#[test]
fn every_listed_extension_is_audio_in_any_case() {
    for ext in ["mp3", "wav", "flac", "ogg", "m4a", "aac", "opus"] {
        let upper = ext.to_uppercase();
        let mut mixed = String::new();
        for (i, c) in ext.chars().enumerate() {
            if i % 2 == 0 {
                mixed.push(c.to_ascii_uppercase());
            } else {
                mixed.push(c);
            }
        }
        assert!(is_audio_file(&format!("/music/track.{}", ext)), "{}", ext);
        assert!(is_audio_file(&format!("track.{}", upper)), "{}", upper);
        assert!(is_audio_file(&format!("dir/sub/track.{}", mixed)), "{}", mixed);
    }
    assert!(is_audio_file("SONG.MP3"));
    assert!(is_audio_file("song.Mp3"));
}

#[test]
fn other_or_missing_extensions_are_not_audio() {
    assert!(!is_audio_file("notes.txt"));
    assert!(!is_audio_file("cover.jpg"));
    assert!(!is_audio_file("README"));
    assert!(!is_audio_file(""));
    assert!(!is_audio_file(".mp3"));
    assert!(!is_audio_file("music/.mp3"));
    assert!(!is_audio_file("song.mp3.bak"));
    assert!(!is_audio_file("song.mp"));
    assert!(!is_audio_file("song."));
    assert!(!is_audio_file("a/b.mp3/.."));
    assert!(!is_audio_file("/"));
}

#[test]
fn classification_follows_path_components() {
    assert!(is_audio_file("a/b.mp3/"));
    assert!(is_audio_file("a/b.flac/."));
    assert!(is_audio_file("./x.ogg"));
    assert!(is_audio_file("..mp3"));
    assert!(!is_audio_file("music.mp3/track"));
}

#[test]
fn stems_of_paths() {
    assert_eq!(file_stem("/music/Track 01.mp3"), Some("Track 01"));
    assert_eq!(file_stem("a.tar.gz"), Some("a.tar"));
    assert_eq!(file_stem(".hidden"), Some(".hidden"));
    assert_eq!(file_stem("noext"), Some("noext"));
    assert_eq!(file_stem("dir/song.mp3/"), Some("song"));
    assert_eq!(file_stem(".."), None);
    assert_eq!(file_stem("/"), None);
    assert_eq!(file_stem(""), None);
}
