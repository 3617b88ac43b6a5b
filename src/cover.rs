//! Choosing one embedded picture of a file and encoding it as a data URI.
use crate::paths::{path_exists, validate_file};
use crate::song::{failure_message, failure_text, failure_text_of};
use crate::tags::{describing_tag, read_tagged_file, tag_pictures, PictureData, TagFailure};
use lofty::file::TaggedFile;
use base64::engine::general_purpose::STANDARD;
use base64::Engine;
use vstd::prelude::*;

verus! {

/// The digit of value `v` (below 64) in the standard base64 alphabet.
pub open spec fn base64_digit(v: int) -> char {
    seq!['A', 'B', 'C', 'D', 'E', 'F', 'G', 'H', 'I', 'J', 'K', 'L', 'M', 'N', 'O', 'P', 'Q', 'R', 'S', 'T', 'U', 'V', 'W', 'X', 'Y', 'Z', 'a', 'b', 'c', 'd', 'e', 'f', 'g', 'h', 'i', 'j', 'k', 'l', 'm', 'n', 'o', 'p', 'q', 'r', 's', 't', 'u', 'v', 'w', 'x', 'y', 'z', '0', '1', '2', '3', '4', '5', '6', '7', '8', '9', '+', '/'][v]
}

/// The padded base64 text of `bytes` in the standard alphabet: each group
/// of three bytes gives four digits of six bits each; a last group of one
/// or two bytes gives two or three digits, then `=` up to four.
pub open spec fn base64_of(bytes: Seq<u8>) -> Seq<char>
    decreases bytes.len(),
{
    if bytes.len() == 0 {
        Seq::empty()
    } else if bytes.len() == 1 {
        let x = bytes[0] as int;
        seq![base64_digit(x / 4), base64_digit((x % 4) * 16), '=', '=']
    } else if bytes.len() == 2 {
        let x = bytes[0] as int;
        let y = bytes[1] as int;
        seq![
            base64_digit(x / 4),
            base64_digit((x % 4) * 16 + y / 16),
            base64_digit((y % 16) * 4),
            '=',
        ]
    } else {
        let x = bytes[0] as int;
        let y = bytes[1] as int;
        let z = bytes[2] as int;
        seq![
            base64_digit(x / 4),
            base64_digit((x % 4) * 16 + y / 16),
            base64_digit((y % 16) * 4 + z / 64),
            base64_digit(z % 64),
        ] + base64_of(bytes.subrange(3, bytes.len() as int))
    }
}

/// Relies on base64's `Engine::encode` with the `STANDARD` engine: the
/// padded encoding in the standard alphabet.
#[verifier::external_body]
fn encode_base64(bytes: &[u8]) -> (r: String)
    ensures
        r@ == base64_of(bytes@),
{
    STANDARD.encode(bytes)
}

/// The declared MIME type, or `image/jpeg` where none is declared.
pub open spec fn mime_or_jpeg(mime: Option<Seq<char>>) -> Seq<char> {
    match mime {
        Some(m) => m,
        None => "image/jpeg"@,
    }
}

/// `data:<mime>;base64,<payload>`.
pub open spec fn data_uri(mime: Option<Seq<char>>, bytes: Seq<u8>) -> Seq<char> {
    "data:"@ + mime_or_jpeg(mime) + ";base64,"@ + base64_of(bytes)
}

pub open spec fn picture_uri(p: PictureData) -> Seq<char> {
    data_uri(p.mime.deep_view(), p.data@)
}

/// `i` is the picture to show: the first front cover, or, where there is no
/// front cover, the first picture.
pub open spec fn chosen_index(pics: Seq<PictureData>, i: int) -> bool {
    &&& 0 <= i < pics.len()
    &&& {
        ||| (pics[i].front_cover && forall|j: int| 0 <= j < i ==> !#[trigger] pics[j].front_cover)
        ||| (i == 0 && forall|j: int| 0 <= j < pics.len() ==> !#[trigger] pics[j].front_cover)
    }
}

/// What follows the `data:<mime>;base64,` prefix of a cover's data URI is
/// exactly the base64 text of the picture's bytes, and decoding it gives
/// the bytes back.
pub proof fn lemma_data_uri_payload(mime: Option<Seq<char>>, bytes: Seq<u8>)
    ensures
        ({
            let uri = data_uri(mime, bytes);
            let prefix = "data:"@ + mime_or_jpeg(mime) + ";base64,"@;
            &&& uri.subrange(0, prefix.len() as int) == prefix
            &&& uri.subrange(prefix.len() as int, uri.len() as int) == base64_of(bytes)
            &&& base64_decoded(uri.subrange(prefix.len() as int, uri.len() as int)) == bytes
        }),
{
    lemma_base64_round_trip(bytes);
    let uri = data_uri(mime, bytes);
    let prefix = "data:"@ + mime_or_jpeg(mime) + ";base64,"@;
    assert(uri == prefix + base64_of(bytes));
    assert(uri.subrange(0, prefix.len() as int) =~= prefix);
    assert(uri.subrange(prefix.len() as int, uri.len() as int) =~= base64_of(bytes));
}

/// The value of a digit of the standard base64 alphabet.
pub open spec fn base64_value(c: char) -> int {
    if 'A' <= c <= 'Z' {
        c as int - 65
    } else if 'a' <= c <= 'z' {
        c as int - 71
    } else if '0' <= c <= '9' {
        c as int + 4
    } else if c == '+' {
        62
    } else {
        63
    }
}

/// The bytes of padded base64 text in the standard alphabet.
pub open spec fn base64_decoded(s: Seq<char>) -> Seq<u8>
    decreases s.len(),
{
    if s.len() < 4 {
        Seq::empty()
    } else {
        let a = base64_value(s[0]);
        let b = base64_value(s[1]);
        let c = base64_value(s[2]);
        let d = base64_value(s[3]);
        let group = if s[2] == '=' {
            seq![(a * 4 + b / 16) as u8]
        } else if s[3] == '=' {
            seq![(a * 4 + b / 16) as u8, ((b % 16) * 16 + c / 4) as u8]
        } else {
            seq![(a * 4 + b / 16) as u8, ((b % 16) * 16 + c / 4) as u8, ((c % 4) * 64 + d) as u8]
        };
        group + base64_decoded(s.subrange(4, s.len() as int))
    }
}

proof fn lemma_digit_value(v: int)
    requires
        0 <= v < 64,
    ensures
        base64_value(base64_digit(v)) == v,
        base64_digit(v) != '=',
{
    if v == 0 {
        assert(base64_value(base64_digit(0)) == 0);
    } else if v == 1 {
        assert(base64_value(base64_digit(1)) == 1);
    } else if v == 2 {
        assert(base64_value(base64_digit(2)) == 2);
    } else if v == 3 {
        assert(base64_value(base64_digit(3)) == 3);
    } else if v == 4 {
        assert(base64_value(base64_digit(4)) == 4);
    } else if v == 5 {
        assert(base64_value(base64_digit(5)) == 5);
    } else if v == 6 {
        assert(base64_value(base64_digit(6)) == 6);
    } else if v == 7 {
        assert(base64_value(base64_digit(7)) == 7);
    } else if v == 8 {
        assert(base64_value(base64_digit(8)) == 8);
    } else if v == 9 {
        assert(base64_value(base64_digit(9)) == 9);
    } else if v == 10 {
        assert(base64_value(base64_digit(10)) == 10);
    } else if v == 11 {
        assert(base64_value(base64_digit(11)) == 11);
    } else if v == 12 {
        assert(base64_value(base64_digit(12)) == 12);
    } else if v == 13 {
        assert(base64_value(base64_digit(13)) == 13);
    } else if v == 14 {
        assert(base64_value(base64_digit(14)) == 14);
    } else if v == 15 {
        assert(base64_value(base64_digit(15)) == 15);
    } else if v == 16 {
        assert(base64_value(base64_digit(16)) == 16);
    } else if v == 17 {
        assert(base64_value(base64_digit(17)) == 17);
    } else if v == 18 {
        assert(base64_value(base64_digit(18)) == 18);
    } else if v == 19 {
        assert(base64_value(base64_digit(19)) == 19);
    } else if v == 20 {
        assert(base64_value(base64_digit(20)) == 20);
    } else if v == 21 {
        assert(base64_value(base64_digit(21)) == 21);
    } else if v == 22 {
        assert(base64_value(base64_digit(22)) == 22);
    } else if v == 23 {
        assert(base64_value(base64_digit(23)) == 23);
    } else if v == 24 {
        assert(base64_value(base64_digit(24)) == 24);
    } else if v == 25 {
        assert(base64_value(base64_digit(25)) == 25);
    } else if v == 26 {
        assert(base64_value(base64_digit(26)) == 26);
    } else if v == 27 {
        assert(base64_value(base64_digit(27)) == 27);
    } else if v == 28 {
        assert(base64_value(base64_digit(28)) == 28);
    } else if v == 29 {
        assert(base64_value(base64_digit(29)) == 29);
    } else if v == 30 {
        assert(base64_value(base64_digit(30)) == 30);
    } else if v == 31 {
        assert(base64_value(base64_digit(31)) == 31);
    } else if v == 32 {
        assert(base64_value(base64_digit(32)) == 32);
    } else if v == 33 {
        assert(base64_value(base64_digit(33)) == 33);
    } else if v == 34 {
        assert(base64_value(base64_digit(34)) == 34);
    } else if v == 35 {
        assert(base64_value(base64_digit(35)) == 35);
    } else if v == 36 {
        assert(base64_value(base64_digit(36)) == 36);
    } else if v == 37 {
        assert(base64_value(base64_digit(37)) == 37);
    } else if v == 38 {
        assert(base64_value(base64_digit(38)) == 38);
    } else if v == 39 {
        assert(base64_value(base64_digit(39)) == 39);
    } else if v == 40 {
        assert(base64_value(base64_digit(40)) == 40);
    } else if v == 41 {
        assert(base64_value(base64_digit(41)) == 41);
    } else if v == 42 {
        assert(base64_value(base64_digit(42)) == 42);
    } else if v == 43 {
        assert(base64_value(base64_digit(43)) == 43);
    } else if v == 44 {
        assert(base64_value(base64_digit(44)) == 44);
    } else if v == 45 {
        assert(base64_value(base64_digit(45)) == 45);
    } else if v == 46 {
        assert(base64_value(base64_digit(46)) == 46);
    } else if v == 47 {
        assert(base64_value(base64_digit(47)) == 47);
    } else if v == 48 {
        assert(base64_value(base64_digit(48)) == 48);
    } else if v == 49 {
        assert(base64_value(base64_digit(49)) == 49);
    } else if v == 50 {
        assert(base64_value(base64_digit(50)) == 50);
    } else if v == 51 {
        assert(base64_value(base64_digit(51)) == 51);
    } else if v == 52 {
        assert(base64_value(base64_digit(52)) == 52);
    } else if v == 53 {
        assert(base64_value(base64_digit(53)) == 53);
    } else if v == 54 {
        assert(base64_value(base64_digit(54)) == 54);
    } else if v == 55 {
        assert(base64_value(base64_digit(55)) == 55);
    } else if v == 56 {
        assert(base64_value(base64_digit(56)) == 56);
    } else if v == 57 {
        assert(base64_value(base64_digit(57)) == 57);
    } else if v == 58 {
        assert(base64_value(base64_digit(58)) == 58);
    } else if v == 59 {
        assert(base64_value(base64_digit(59)) == 59);
    } else if v == 60 {
        assert(base64_value(base64_digit(60)) == 60);
    } else if v == 61 {
        assert(base64_value(base64_digit(61)) == 61);
    } else if v == 62 {
        assert(base64_value(base64_digit(62)) == 62);
    } else if v == 63 {
        assert(base64_value(base64_digit(63)) == 63);
    }
}

/// Decoding the base64 text of some bytes gives the bytes back.
pub proof fn lemma_base64_round_trip(bytes: Seq<u8>)
    ensures
        base64_decoded(base64_of(bytes)) == bytes,
    decreases bytes.len(),
{
    let n = bytes.len();
    if n == 0 {
        assert(base64_decoded(base64_of(bytes)) =~= bytes);
    } else {
        let x = bytes[0] as int;
        let y = if n >= 2 { bytes[1] as int } else { 0 };
        let z = if n >= 3 { bytes[2] as int } else { 0 };
        lemma_digit_value(x / 4);
        lemma_digit_value((x % 4) * 16 + y / 16);
        lemma_digit_value((y % 16) * 4 + z / 64);
        lemma_digit_value(z % 64);
        lemma_digit_value((x % 4) * 16);
        lemma_digit_value((y % 16) * 4);
        assert((x / 4) * 4 + ((x % 4) * 16 + y / 16) / 16 == x) by (nonlinear_arith)
            requires 0 <= x < 256, 0 <= y < 256;
        assert((x / 4) * 4 + ((x % 4) * 16) / 16 == x) by (nonlinear_arith)
            requires 0 <= x < 256;
        assert((((x % 4) * 16 + y / 16) % 16) * 16 + ((y % 16) * 4 + z / 64) / 4 == y) by (nonlinear_arith)
            requires 0 <= x < 256, 0 <= y < 256, 0 <= z < 256;
        assert((((x % 4) * 16 + y / 16) % 16) * 16 + ((y % 16) * 4) / 4 == y) by (nonlinear_arith)
            requires 0 <= x < 256, 0 <= y < 256;
        assert((((y % 16) * 4 + z / 64) % 4) * 64 + z % 64 == z) by (nonlinear_arith)
            requires 0 <= y < 256, 0 <= z < 256;
        let e = base64_of(bytes);
        if n >= 3 {
            let rest = bytes.subrange(3, n as int);
            lemma_base64_round_trip(rest);
            assert(e.subrange(4, e.len() as int) =~= base64_of(rest));
            assert(base64_decoded(e) =~= bytes);
        } else if n == 2 {
            assert(e.len() == 4 && e[2] != '=' && e[3] == '=');
            assert(e.subrange(4, e.len() as int) =~= Seq::<char>::empty());
            assert(base64_value(e[0]) == x / 4);
            assert(base64_value(e[1]) == (x % 4) * 16 + y / 16);
            assert(base64_value(e[2]) == (y % 16) * 4);
            let a = base64_value(e[0]);
            let b = base64_value(e[1]);
            let c = base64_value(e[2]);
            assert(base64_decoded(e.subrange(4, e.len() as int)) == Seq::<u8>::empty());
            assert(base64_decoded(e) == seq![(a * 4 + b / 16) as u8, ((b % 16) * 16 + c / 4) as u8]
                + Seq::<u8>::empty());
            assert((a * 4 + b / 16) as u8 == bytes[0]);
            assert(((b % 16) * 16 + c / 4) as u8 == bytes[1]);
            assert(base64_decoded(e) =~= bytes);
        } else {
            assert(y == 0);
            assert(e.len() == 4 && e[2] == '=');
            assert(e.subrange(4, e.len() as int) =~= Seq::<char>::empty());
            assert(base64_value(e[0]) == x / 4);
            assert(base64_value(e[1]) == (x % 4) * 16);
            let a = base64_value(e[0]);
            let b = base64_value(e[1]);
            assert(base64_decoded(e.subrange(4, e.len() as int)) == Seq::<u8>::empty());
            assert(base64_decoded(e) == seq![(a * 4 + b / 16) as u8] + Seq::<u8>::empty());
            assert((a * 4 + b / 16) as u8 == bytes[0]);
            assert(base64_decoded(e) =~= bytes);
        }
    }
}

/// The data URI of one picture.
pub fn cover_uri(p: &PictureData) -> (r: String)
    ensures
        r@ == picture_uri(*p),
{
    let mime = match &p.mime {
        Some(m) => m.clone(),
        None => String::from_str("image/jpeg"),
    };
    let r = String::from_str("data:").concat(mime.as_str()).concat(";base64,").concat(
        encode_base64(p.data.as_slice()).as_str(),
    );
    r
}

/// The index of the picture to show, if there is any picture.
pub fn pick_picture(pics: &Vec<PictureData>) -> (r: Option<usize>)
    ensures
        match r {
            Some(i) => chosen_index(pics@, i as int),
            None => pics@.len() == 0,
        },
{
    let mut i: usize = 0;
    while i < pics.len()
        invariant
            i <= pics@.len(),
            forall|j: int| 0 <= j < i ==> !#[trigger] pics@[j].front_cover,
        decreases pics@.len() - i,
    {
        if pics[i].front_cover {
            return Some(i);
        }
        i = i + 1;
    }
    if pics.len() > 0 {
        Some(0)
    } else {
        None
    }
}

/// The data URI of the picture to show, if there is any picture.
pub fn select_cover(pics: &Vec<PictureData>) -> (r: Option<String>)
    ensures
        match r {
            Some(u) => exists|i: int| chosen_index(pics@, i) && u@ == picture_uri(pics@[i]),
            None => pics@.len() == 0,
        },
{
    match pick_picture(pics) {
        Some(i) => {
            let u = cover_uri(&pics[i]);
            assert(chosen_index(pics@, i as int) && u@ == picture_uri(pics@[i as int]));
            Some(u)
        },
        None => None,
    }
}

/// Only one picture is ever the one to show.
pub proof fn lemma_chosen_index_unique(pics: Seq<PictureData>, i: int, j: int)
    requires
        chosen_index(pics, i),
        chosen_index(pics, j),
    ensures
        i == j,
{
    if i < j {
        assert(!pics[i].front_cover);
    } else if j < i {
        assert(!pics[j].front_cover);
    }
}

/// Which picture is shown: the first front cover wherever it stands, else
/// the first picture of any type; with no picture, none is shown.
pub proof fn lemma_cover_selection(pics: Seq<PictureData>, i: int)
    requires
        0 <= i < pics.len(),
    ensures
        pics[i].front_cover && (forall|j: int| 0 <= j < i ==> !#[trigger] pics[j].front_cover)
            ==> chosen_index(pics, i),
        (forall|j: int| 0 <= j < pics.len() ==> !#[trigger] pics[j].front_cover) ==> chosen_index(
            pics,
            0,
        ),
        forall|k: int| chosen_index(pics, k) ==> 0 <= k < pics.len(),
{
}

/// `r` is the cover shown for a describing tag with the pictures `pics`
/// (`None` where the file has no tag): none without a tag or without
/// pictures, else the data URI of the picture that is chosen.
pub open spec fn cover_result(pics: Option<Seq<PictureData>>, r: Option<String>) -> bool {
    match pics {
        None => r is None,
        Some(p) => pictures_cover(p, r),
    }
}

/// `r` is the cover shown for the pictures `pics`: none without pictures,
/// else the data URI of the picture that is chosen.
pub open spec fn pictures_cover(pics: Seq<PictureData>, r: Option<String>) -> bool {
    match r {
        Some(u) => exists|i: int| chosen_index(pics, i) && u@ == picture_uri(pics[i]),
        None => pics.len() == 0,
    }
}

/// The cover of a file from the pictures of its describing tag, `None`
/// where the file has no tag.
pub fn cover_from_pictures(pics: Option<Vec<PictureData>>) -> (r: Option<String>)
    ensures
        pics is None ==> r is None,
        pics matches Some(p) ==> pictures_cover(p@, r),
{
    match pics {
        None => None,
        Some(p) => select_cover(&p),
    }
}

/// The cover of a file from the outcome of reading it: the failure's
/// message where the read failed, else the cover of its describing tag.
pub fn cover_from_read(read: Result<TaggedFile, TagFailure>) -> (r: Result<Option<String>, String>)
    ensures
        match read {
            Err(f) => r matches Err(m) && failure_text_of(f, m@),
            Ok(_) => r matches Ok(c) && exists|pics: Option<Seq<PictureData>>| cover_result(pics, c),
        },
{
    match read {
        Err(f) => Err(failure_text(f)),
        Ok(file) => {
            let pics = match describing_tag(&file) {
                None => None,
                Some(tag) => Some(tag_pictures(tag)),
            };
            let ghost g = pics;
            let c = cover_from_pictures(pics);
            proof {
                match g {
                    None => {
                        assert(cover_result(None, c));
                    },
                    Some(p) => {
                        assert(pictures_cover(p@, c));
                        assert(cover_result(Some(p@), c));
                    },
                }
            }
            Ok(c)
        },
    }
}

/// The cover art of the file at `path` as a data URI: `File not found`
/// where the path does not exist, else what `cover_from_read` gives for
/// the outcome of reading the file.
pub fn get_cover_art(path: String) -> (r: Result<Option<String>, String>)
    ensures
        match r {
            Ok(c) => exists|pics: Option<Seq<PictureData>>| cover_result(pics, c),
            Err(m) => m@ == "File not found"@ || failure_message(m@),
        },
{
    match validate_file(path_exists(path.as_str())) {
        Err(m) => Err(m),
        Ok(()) => {
            let read = read_tagged_file(path.as_str());
            let ghost failed = read;
            let r = cover_from_read(read);
            proof {
                if let Err(f) = failed {
                    assert(failure_text_of(f, r->Err_0@));
                }
            }
            r
        },
    }
}

} // verus!
