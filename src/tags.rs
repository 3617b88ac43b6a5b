//! Reading a tagged audio file through lofty, and the plain values that the
//! rest of the library reads from it.
use lofty::error::FileParseError;
use lofty::file::{AudioFile, TaggedFile, TaggedFileExt};
use lofty::picture::PictureType;
use lofty::probe::Probe;
use lofty::tag::{Accessor, Tag};
use vstd::prelude::*;

verus! {

#[verifier::external_type_specification]
#[verifier::external_body]
pub struct ExTaggedFile(TaggedFile);

#[verifier::external_type_specification]
#[verifier::external_body]
pub struct ExTag(Tag);

#[verifier::external_type_specification]
#[verifier::external_body]
pub struct ExFileParseError(FileParseError);

/// Why a file could not be read as a tagged audio file, with lofty's error.
pub enum TagFailure {
    /// The path could not be opened.
    Open(FileParseError),
    /// The content is not a recognised tagged audio container.
    Read(FileParseError),
}

/// The descriptive fields of a tag, each absent where the tag lacks it.
pub struct TagFields {
    pub title: Option<String>,
    pub artist: Option<String>,
    pub album: Option<String>,
}

pub struct TagFieldsView {
    pub title: Option<Seq<char>>,
    pub artist: Option<Seq<char>>,
    pub album: Option<Seq<char>>,
}

impl View for TagFields {
    type V = TagFieldsView;

    open spec fn view(&self) -> TagFieldsView {
        TagFieldsView {
            title: self.title.deep_view(),
            artist: self.artist.deep_view(),
            album: self.album.deep_view(),
        }
    }
}

/// One embedded picture: whether it is typed as the front cover, its
/// declared MIME type, and its bytes.
pub struct PictureData {
    pub front_cover: bool,
    pub mime: Option<String>,
    pub data: Vec<u8>,
}

/// Relies on lofty's `Probe::open` and `Probe::read`: the file is opened,
/// its format probed and its tags and properties read; each failure is
/// reported with lofty's error. The probe between the two calls holds a
/// file reader of std, so the calls stand together.
#[verifier::external_body]
pub(crate) fn read_tagged_file(path: &str) -> (r: Result<TaggedFile, TagFailure>) {
    match Probe::open(path) {
        Err(e) => Err(TagFailure::Open(e)),
        Ok(probe) => match probe.read() {
            Err(e) => Err(TagFailure::Read(e)),
            Ok(file) => Ok(file),
        },
    }
}

/// Relies on lofty's `AudioFile::properties` and `FileProperties::duration`:
/// the running time read from the container, in nanoseconds.
#[verifier::external_body]
pub(crate) fn duration_nanos(file: &TaggedFile) -> (r: u128) {
    file.properties().duration().as_nanos()
}

/// Relies on lofty's `TaggedFileExt::primary_tag`: the tag of the format's
/// primary tag type, if the file has one.
#[verifier::external_body]
pub(crate) fn primary_tag<'a>(file: &'a TaggedFile) -> (r: Option<&'a Tag>) {
    file.primary_tag()
}

/// Relies on lofty's `TaggedFileExt::first_tag`: the first tag of the file,
/// if it has any.
#[verifier::external_body]
pub(crate) fn first_tag<'a>(file: &'a TaggedFile) -> (r: Option<&'a Tag>) {
    file.first_tag()
}

/// Relies on lofty's `Accessor::title` for `Tag`.
#[verifier::external_body]
pub(crate) fn tag_title(tag: &Tag) -> (r: Option<String>) {
    tag.title().map(|s| s.into_owned())
}

/// Relies on lofty's `Accessor::artist` for `Tag`.
#[verifier::external_body]
pub(crate) fn tag_artist(tag: &Tag) -> (r: Option<String>) {
    tag.artist().map(|s| s.into_owned())
}

/// Relies on lofty's `Accessor::album` for `Tag`.
#[verifier::external_body]
pub(crate) fn tag_album(tag: &Tag) -> (r: Option<String>) {
    tag.album().map(|s| s.into_owned())
}

/// Relies on lofty's `Tag::pictures`, `Picture::pic_type`,
/// `Picture::mime_type` and `Picture::data`: the tag's pictures in order,
/// each converted to plain values.
#[verifier::external_body]
pub(crate) fn tag_pictures(tag: &Tag) -> (r: Vec<PictureData>) {
    tag.pictures().iter().map(|p| PictureData {
        front_cover: p.pic_type() == PictureType::CoverFront,
        mime: p.mime_type().map(|m| m.as_str().to_string()),
        data: p.data().to_vec(),
    }).collect()
}

/// The tag that describes a file: the primary one, else the first one.
pub fn chosen_tag<'a>(primary: Option<&'a Tag>, first: Option<&'a Tag>) -> (r: Option<&'a Tag>)
    ensures
        r == (if primary is Some { primary } else { first }),
{
    match primary {
        Some(t) => Some(t),
        None => first,
    }
}

/// The tag of `file` that describes it, as lofty reports it.
pub(crate) fn describing_tag<'a>(file: &'a TaggedFile) -> (r: Option<&'a Tag>) {
    chosen_tag(primary_tag(file), first_tag(file))
}

/// The descriptive fields of a tag.
pub(crate) fn tag_fields(tag: &Tag) -> (r: TagFields) {
    TagFields { title: tag_title(tag), artist: tag_artist(tag), album: tag_album(tag) }
}

} // verus!
