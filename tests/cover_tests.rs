use base64::engine::general_purpose::STANDARD;
use base64::Engine;
use music_index::cover::{cover_uri, pick_picture, select_cover};
use lofty::tag::{Tag, TagType};
use music_index::tags::{chosen_tag, PictureData};

fn pic(front: bool, mime: Option<&str>, data: &[u8]) -> PictureData {
    PictureData { front_cover: front, mime: mime.map(|m| m.to_string()), data: data.to_vec() }
}

#[test]
fn data_uri_of_a_picture() {
    assert_eq!(cover_uri(&pic(false, Some("image/png"), b"abc")), "data:image/png;base64,YWJj");
    assert_eq!(cover_uri(&pic(true, None, b"ab")), "data:image/jpeg;base64,YWI=");
    assert_eq!(cover_uri(&pic(true, None, b"")), "data:image/jpeg;base64,");
}

#[test]
fn front_cover_is_preferred() {
    let pics = vec![pic(false, Some("image/png"), b"other"), pic(true, Some("image/jpeg"), b"front")];
    assert_eq!(pick_picture(&pics), Some(1));
    assert_eq!(select_cover(&pics), Some(cover_uri(&pics[1])));
    let pics = vec![pic(true, None, b"one"), pic(true, None, b"two")];
    assert_eq!(pick_picture(&pics), Some(0));
}

#[test]
fn first_picture_without_front_cover() {
    let pics = vec![pic(false, Some("image/png"), b"first"), pic(false, None, b"second")];
    assert_eq!(pick_picture(&pics), Some(0));
    assert_eq!(select_cover(&pics), Some(format!("data:image/png;base64,{}", STANDARD.encode(b"first"))));
}

#[test]
fn no_pictures_no_cover() {
    assert_eq!(pick_picture(&Vec::new()), None);
    assert_eq!(select_cover(&Vec::new()), None);
}

#[test]
fn jpeg_bytes_round_trip_through_the_data_uri() {
    let jpeg: Vec<u8> = vec![0xFF, 0xD8, 0xFF, 0xE0, 0x00, 0x10, b'J', b'F', b'I', b'F', 0x00, 0x01, 0xFF, 0xD9];
    let uri = cover_uri(&pic(true, None, &jpeg));
    let payload = uri.strip_prefix("data:image/jpeg;base64,").expect("data URI prefix");
    assert_eq!(STANDARD.decode(payload).unwrap(), jpeg);
}

#[test]
fn primary_tag_is_preferred_over_the_first() {
    let primary = Tag::new(TagType::Id3v2);
    let first = Tag::new(TagType::Ape);
    assert!(std::ptr::eq(chosen_tag(Some(&primary), Some(&first)).unwrap(), &primary));
    assert!(std::ptr::eq(chosen_tag(None, Some(&first)).unwrap(), &first));
    assert!(chosen_tag(None, None).is_none());
}

#[test]
fn no_tag_means_no_cover() {
    assert_eq!(music_index::cover::cover_from_pictures(None), None);
    assert_eq!(music_index::cover::cover_from_pictures(Some(Vec::new())), None);
    let pics = vec![pic(false, None, b"x"), pic(true, Some("image/png"), b"y")];
    assert_eq!(
        music_index::cover::cover_from_pictures(Some(pics)),
        Some("data:image/png;base64,eQ==".to_string())
    );
}

#[test]
fn failed_reads_give_their_message_and_no_cover() {
    use_read_failure(|f, prefix| {
        let r = music_index::cover::cover_from_read(Err::<lofty::file::TaggedFile, _>(f));
        assert_eq!(r, Err(format!("{}failed to parse file", prefix)));
    });
}

fn use_read_failure(check: impl Fn(music_index::tags::TagFailure, &str)) {
    let io = || std::io::Error::new(std::io::ErrorKind::NotFound, "gone");
    check(music_index::tags::TagFailure::Open(lofty::error::FileParseError::from(io())), "Failed to open file: ");
    check(music_index::tags::TagFailure::Read(lofty::error::FileParseError::from(io())), "Failed to read file: ");
}

#[test]
fn base64_padding_and_alphabet() {
    assert_eq!(cover_uri(&pic(false, None, b"Man")), "data:image/jpeg;base64,TWFu");
    assert_eq!(cover_uri(&pic(false, None, b"M")), "data:image/jpeg;base64,TQ==");
    assert_eq!(cover_uri(&pic(false, None, &[0xFB, 0xFF, 0xBF])), "data:image/jpeg;base64,+/+/");
}
