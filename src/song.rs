//! The normalised record of one audio file, and how it is made from what the
//! file's tag and container report.
use crate::classify::{file_stem, stem_of};
use crate::tags::{describing_tag, duration_nanos, read_tagged_file, tag_fields, TagFailure, TagFields, TagFieldsView};
use lofty::error::FileParseError;
use lofty::file::TaggedFile;
use vstd::prelude::*;
use vstd::string::to_string_from_display_ensures;

verus! {

/// One audio file's normalised metadata.
#[derive(Clone)]
pub struct Song {
    pub id: String,
    pub title: String,
    pub artist: String,
    pub album: String,
    /// Running time from the container, in nanoseconds.
    pub duration_nanos: u128,
    pub path: String,
    /// A data URI of the cover art; never filled in by metadata extraction.
    pub cover: Option<String>,
}

/// The outcome of a scan: the songs read, and one message per file that
/// could not be read, each in the order the files were met.
pub struct ScanResult {
    pub songs: Vec<Song>,
    pub errors: Vec<String>,
}

/// The hash of a path's UTF-8 bytes under std's default hasher with its
/// fixed keys.
pub uninterp spec fn path_hash(path: Seq<char>) -> u64;

/// Relies on std's `BuildHasher::hash_one` with `BuildHasherDefault` of
/// `DefaultHasher`: every such hasher starts from the same fixed keys, so the
/// hash depends on the path's bytes alone.
#[verifier::external_body]
fn hash_path(path: &str) -> (r: u64)
    ensures
        r == path_hash(path@),
{
    std::hash::BuildHasher::hash_one(
        &std::hash::BuildHasherDefault::<std::hash::DefaultHasher>::default(),
        path.as_bytes(),
    )
}

pub open spec fn hex_digit(d: nat) -> char {
    seq!['0', '1', '2', '3', '4', '5', '6', '7', '8', '9', 'a', 'b', 'c', 'd', 'e', 'f'][d as int]
}

/// Lower-case hexadecimal digits of `n`, without leading zeros.
pub open spec fn hex_of(n: nat) -> Seq<char>
    decreases n,
{
    if n < 16 {
        seq![hex_digit(n)]
    } else {
        hex_of(n / 16).push(hex_digit(n % 16))
    }
}

/// The identifier of a path: its hash in lower-case hexadecimal.
pub open spec fn song_id(path: Seq<char>) -> Seq<char> {
    hex_of(path_hash(path) as nat)
}

fn hex_digit_str(d: u64) -> (r: &'static str)
    requires
        d < 16,
    ensures
        r@ == seq![hex_digit(d as nat)],
{
    let digits = "0123456789abcdef";
    proof {
        reveal_strlit("0123456789abcdef");
    }
    let r = digits.substring_char(d as usize, d as usize + 1);
    assert(r@ =~= seq![hex_digit(d as nat)]);
    r
}

/// `n` in lower-case hexadecimal, without leading zeros.
pub fn hex_string(n: u64) -> (r: String)
    ensures
        r@ == hex_of(n as nat),
    decreases n,
{
    if n < 16 {
        String::from_str(hex_digit_str(n))
    } else {
        let mut s = hex_string(n / 16);
        s.append(hex_digit_str(n % 16));
        s
    }
}

/// The stable identifier of a path.
pub fn path_id(path: &str) -> (r: String)
    ensures
        r@ == song_id(path@),
{
    hex_string(hash_path(path))
}

/// A tag field where it is present and not empty, else the default.
pub open spec fn field_or(v: Option<Seq<char>>, default: Seq<char>) -> Seq<char> {
    match v {
        Some(s) => if s.len() > 0 {
            s
        } else {
            default
        },
        None => default,
    }
}

/// The title of a file without one: its stem, else `Unknown`.
pub open spec fn default_title(path: Seq<char>) -> Seq<char> {
    match stem_of(path) {
        Some(s) => s,
        None => "Unknown"@,
    }
}

pub open spec fn title_of(path: Seq<char>, tag: Option<TagFieldsView>) -> Seq<char> {
    match tag {
        Some(t) => field_or(t.title, default_title(path)),
        None => default_title(path),
    }
}

pub open spec fn artist_of(tag: Option<TagFieldsView>) -> Seq<char> {
    match tag {
        Some(t) => field_or(t.artist, "Unknown Artist"@),
        None => "Unknown Artist"@,
    }
}

pub open spec fn album_of(tag: Option<TagFieldsView>) -> Seq<char> {
    match tag {
        Some(t) => field_or(t.album, "Unknown Album"@),
        None => "Unknown Album"@,
    }
}

/// `s` is the record of the file at `path` whose container reports
/// `duration` and whose describing tag, if any, has the fields `tag`.
pub open spec fn song_is(s: Song, path: Seq<char>, duration: u128, tag: Option<TagFieldsView>) -> bool {
    &&& s.id@ == song_id(path)
    &&& s.title@ == title_of(path, tag)
    &&& s.artist@ == artist_of(tag)
    &&& s.album@ == album_of(tag)
    &&& s.duration_nanos == duration
    &&& s.path@ == path
    &&& s.cover is None
}

/// `s` is the record of the file at `path` for some container and tag.
pub open spec fn song_of_path(s: Song, path: Seq<char>) -> bool {
    exists|d: u128, t: Option<TagFieldsView>| song_is(s, path, d, t)
}

pub open spec fn tag_view(tag: &Option<TagFields>) -> Option<TagFieldsView> {
    match tag {
        Some(t) => Some(t@),
        None => None,
    }
}

fn field_or_default(v: Option<String>, default: String) -> (r: String)
    ensures
        r@ == field_or(v.deep_view(), default@),
{
    match v {
        Some(s) => if s.unicode_len() > 0 {
            s
        } else {
            default
        },
        None => default,
    }
}

fn fallback_title(path: &str) -> (r: String)
    ensures
        r@ == default_title(path@),
{
    match file_stem(path) {
        Some(s) => String::from_str(s),
        None => String::from_str("Unknown"),
    }
}

/// The record of the file at `path`, from the duration its container
/// reports and the fields of its describing tag: absent or empty fields fall
/// back to the file's stem (or `Unknown`), `Unknown Artist` and
/// `Unknown Album`.
pub fn normalize_song(path: &str, duration: u128, tag: Option<TagFields>) -> (r: Song)
    ensures
        song_is(r, path@, duration, tag_view(&tag)),
{
    let (title, artist, album) = match tag {
        Some(t) => (
            field_or_default(t.title, fallback_title(path)),
            field_or_default(t.artist, String::from_str("Unknown Artist")),
            field_or_default(t.album, String::from_str("Unknown Album")),
        ),
        None => (
            fallback_title(path),
            String::from_str("Unknown Artist"),
            String::from_str("Unknown Album"),
        ),
    };
    Song {
        id: path_id(path),
        title,
        artist,
        album,
        duration_nanos: duration,
        path: String::from_str(path),
        cover: None,
    }
}

/// Two records read from one path carry the same identifier, path and
/// (absent) cover; records made from the same container duration and tag
/// fields agree in every field.
pub proof fn lemma_extraction_deterministic(
    path: Seq<char>,
    s1: Song,
    s2: Song,
    d: u128,
    t: Option<TagFieldsView>,
)
    requires
        song_of_path(s1, path),
        song_of_path(s2, path),
    ensures
        s1.id@ == s2.id@,
        s1.path@ == s2.path@,
        s1.cover == s2.cover,
        song_is(s1, path, d, t) && song_is(s2, path, d, t) ==> {
            &&& s1.title@ == s2.title@
            &&& s1.artist@ == s2.artist@
            &&& s1.album@ == s2.album@
            &&& s1.duration_nanos == s2.duration_nanos
        },
{
}

/// A tag whose title, artist and album are each absent or empty gives the
/// file's default title, `Unknown Artist` and `Unknown Album`.
pub proof fn lemma_empty_fields_fall_back(path: Seq<char>, t: TagFieldsView)
    requires
        t.title is None || t.title == Some(Seq::<char>::empty()),
        t.artist is None || t.artist == Some(Seq::<char>::empty()),
        t.album is None || t.album == Some(Seq::<char>::empty()),
    ensures
        title_of(path, Some(t)) == default_title(path),
        stem_of(path) is Some ==> title_of(path, Some(t)) == stem_of(path)->Some_0,
        artist_of(Some(t)) == "Unknown Artist"@,
        album_of(Some(t)) == "Unknown Album"@,
{
}

/// A file with no tag at all gets the same fields as one whose tag lacks
/// title, artist and album.
pub proof fn lemma_no_tag_falls_back(path: Seq<char>)
    ensures
        title_of(path, None) == default_title(path),
        artist_of(None) == "Unknown Artist"@,
        album_of(None) == "Unknown Album"@,
        ({
            let absent = TagFieldsView { title: None, artist: None, album: None };
            &&& title_of(path, None) == title_of(path, Some(absent))
            &&& artist_of(None) == artist_of(Some(absent))
            &&& album_of(None) == album_of(Some(absent))
        }),
{
}

/// `m` is the message of the failure `f`: `Failed to open file: ` where the
/// file could not be opened, `Failed to read file: ` where its content could
/// not be read, followed by lofty's text of the error.
pub open spec fn failure_text_of(f: TagFailure, m: Seq<char>) -> bool {
    match f {
        TagFailure::Open(e) => exists|d: String|
            to_string_from_display_ensures::<FileParseError>(&e, d) && m == "Failed to open file: "@
                + d@,
        TagFailure::Read(e) => exists|d: String|
            to_string_from_display_ensures::<FileParseError>(&e, d) && m == "Failed to read file: "@
                + d@,
    }
}

/// `m` is the message of some failure to read a file.
pub open spec fn failure_message(m: Seq<char>) -> bool {
    exists|f: TagFailure| failure_text_of(f, m)
}

/// The message of a failure to read a file.
pub fn failure_text(f: TagFailure) -> (r: String)
    ensures
        failure_text_of(f, r@),
{
    match f {
        TagFailure::Open(e) => {
            let detail = e.to_string();
            let r = String::from_str("Failed to open file: ").concat(detail.as_str());
            assert(to_string_from_display_ensures::<FileParseError>(&e, detail) && r@
                == "Failed to open file: "@ + detail@);
            r
        },
        TagFailure::Read(e) => {
            let detail = e.to_string();
            let r = String::from_str("Failed to read file: ").concat(detail.as_str());
            assert(to_string_from_display_ensures::<FileParseError>(&e, detail) && r@
                == "Failed to read file: "@ + detail@);
            r
        },
    }
}

/// The record of the file at `path` from the outcome of reading it: the
/// failure's message where the read failed, else the normalised record.
pub fn metadata_from_read(path: &str, read: Result<TaggedFile, TagFailure>) -> (r: Result<Song, String>)
    ensures
        match read {
            Err(f) => r matches Err(m) && failure_text_of(f, m@),
            Ok(_) => r matches Ok(s) && song_of_path(s, path@),
        },
{
    match read {
        Err(f) => Err(failure_text(f)),
        Ok(file) => {
            let duration = duration_nanos(&file);
            let tag = match describing_tag(&file) {
                Some(t) => Some(tag_fields(t)),
                None => None,
            };
            let ghost tv = tag_view(&tag);
            let s = normalize_song(path, duration, tag);
            assert(song_is(s, path@, duration, tv));
            Ok(s)
        },
    }
}

/// Reads the file at `path` and returns its normalised record, or the
/// reason it could not be read.
pub fn read_audio_metadata(path: &str) -> (r: Result<Song, String>)
    ensures
        match r {
            Ok(s) => song_of_path(s, path@),
            Err(m) => failure_message(m@),
        },
{
    let read = read_tagged_file(path);
    let ghost failed = read;
    let r = metadata_from_read(path, read);
    proof {
        if let Err(f) = failed {
            assert(failure_text_of(f, r->Err_0@));
        }
    }
    r
}

} // verus!
