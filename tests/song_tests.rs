use music_index::song::{failure_text, hex_string, normalize_song, path_id, read_audio_metadata};
use music_index::tags::{TagFailure, TagFields};
use lofty::error::FileParseError;
use std::hash::{DefaultHasher, Hash, Hasher};

fn fields(title: Option<&str>, artist: Option<&str>, album: Option<&str>) -> TagFields {
    TagFields {
        title: title.map(|s| s.to_string()),
        artist: artist.map(|s| s.to_string()),
        album: album.map(|s| s.to_string()),
    }
}

#[test]
fn hex_rendering() {
    assert_eq!(hex_string(0), "0");
    assert_eq!(hex_string(9), "9");
    assert_eq!(hex_string(10), "a");
    assert_eq!(hex_string(255), "ff");
    assert_eq!(hex_string(4096), "1000");
    assert_eq!(hex_string(0xdead_beef), "deadbeef");
    assert_eq!(hex_string(u64::MAX), "ffffffffffffffff");
}

#[test]
fn id_is_the_hex_of_the_default_hash_of_the_path_bytes() {
    let path = "/music/Artist/Album/01 Song.mp3";
    let mut h = DefaultHasher::new();
    path.as_bytes().hash(&mut h);
    let expected = format!("{:x}", h.finish());
    assert_eq!(path_id(path), expected);
    assert_eq!(path_id(path), path_id(path));
    assert_ne!(path_id(path), path_id("/music/other.mp3"));
    assert!(path_id(path).chars().all(|c| c.is_ascii_hexdigit() && !c.is_ascii_uppercase()));
}

#[test]
fn tag_fields_are_used_when_present() {
    let s = normalize_song("/m/track.mp3", 1_500_000_000, Some(fields(Some("T"), Some("A"), Some("B"))));
    assert_eq!(s.title, "T");
    assert_eq!(s.artist, "A");
    assert_eq!(s.album, "B");
    assert_eq!(s.duration_nanos, 1_500_000_000);
    assert_eq!(s.path, "/m/track.mp3");
    assert_eq!(s.id, path_id("/m/track.mp3"));
    assert!(s.cover.is_none());
}

#[test]
fn empty_tag_fields_fall_back() {
    let s = normalize_song("/m/My Track.flac", 0, Some(fields(Some(""), Some(""), Some(""))));
    assert_eq!(s.title, "My Track");
    assert_eq!(s.artist, "Unknown Artist");
    assert_eq!(s.album, "Unknown Album");
    let s = normalize_song("/m/My Track.flac", 0, Some(fields(None, None, None)));
    assert_eq!(s.title, "My Track");
    assert_eq!(s.artist, "Unknown Artist");
    assert_eq!(s.album, "Unknown Album");
}

#[test]
fn no_tag_falls_back_like_absent_fields() {
    let a = normalize_song("/m/x.ogg", 7, None);
    let b = normalize_song("/m/x.ogg", 7, Some(fields(None, None, None)));
    assert_eq!(a.title, "x");
    assert_eq!(a.artist, "Unknown Artist");
    assert_eq!(a.album, "Unknown Album");
    assert_eq!((a.title, a.artist, a.album), (b.title, b.artist, b.album));
}

#[test]
fn title_is_unknown_without_a_stem() {
    let s = normalize_song("/", 0, None);
    assert_eq!(s.title, "Unknown");
    let s = normalize_song("music/..", 0, Some(fields(Some(""), Some("A"), None)));
    assert_eq!(s.title, "Unknown");
    assert_eq!(s.artist, "A");
}

#[test]
fn failure_messages() {
    let io = || std::io::Error::new(std::io::ErrorKind::NotFound, "gone");
    assert_eq!(
        failure_text(TagFailure::Open(FileParseError::from(io()))),
        "Failed to open file: failed to parse file"
    );
    assert_eq!(
        failure_text(TagFailure::Read(FileParseError::from(io()))),
        "Failed to read file: failed to parse file"
    );
}

#[test]
fn missing_file_fails_to_open() {
    let r = read_audio_metadata("/definitely/not/here/track.mp3");
    let e = r.err().expect("a missing file is an error");
    assert!(e.starts_with("Failed to open file: "), "{}", e);
}

#[test]
fn failed_reads_give_their_message_and_no_record() {
    let io = || std::io::Error::new(std::io::ErrorKind::NotFound, "gone");
    let r = music_index::song::metadata_from_read(
        "/m/a.mp3",
        Err::<lofty::file::TaggedFile, _>(TagFailure::Read(FileParseError::from(io()))),
    );
    assert_eq!(r.err(), Some("Failed to read file: failed to parse file".to_string()));
    let r = music_index::song::metadata_from_read(
        "/m/a.mp3",
        Err::<lofty::file::TaggedFile, _>(TagFailure::Open(FileParseError::from(io()))),
    );
    assert_eq!(r.err(), Some("Failed to open file: failed to parse file".to_string()));
}

#[test]
fn file_validation() {
    assert_eq!(music_index::paths::validate_file(false), Err("File not found".to_string()));
    assert_eq!(music_index::paths::validate_file(true), Ok(()));
}
