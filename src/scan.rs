//! Scanning a directory tree or a list of paths: classification of each
//! path, extraction of each audio file, and aggregation of the outcomes.
use crate::classify::{is_audio_file, is_audio_path};
use crate::paths::{is_directory, is_regular_file, path_exists, validate_file};
use crate::song::{failure_message, read_audio_metadata, song_of_path, ScanResult, Song};
use vstd::prelude::*;
use walkdir::WalkDir;

verus! {

/// Relies on walkdir's `WalkDir` with `follow_links(true)`: the paths of the
/// tree under `root`, root included, in walk order; the entries walkdir
/// reports as errors (unreadable, broken links, link loops) are left out.
#[verifier::external_body]
fn walk_tree(root: &str) -> (r: Vec<String>) {
    WalkDir::new(root).follow_links(true).into_iter().filter_map(|e| e.ok()).map(
        |e| e.path().to_string_lossy().into_owned(),
    ).collect()
}

/// The paths that are regular files (by `is_file`) and audio paths, in order.
pub open spec fn candidates_of(paths: Seq<Seq<char>>, is_file: Seq<bool>) -> Seq<Seq<char>>
    decreases paths.len(),
{
    if paths.len() == 0 {
        Seq::empty()
    } else {
        let rest = candidates_of(paths.drop_last(), is_file.drop_last());
        if is_file.last() && is_audio_path(paths.last()) {
            rest.push(paths.last())
        } else {
            rest
        }
    }
}

/// Exactly the paths marked as regular files that are audio paths become
/// candidates: a missing path, a path that is not a regular file, or one
/// without an audio extension is skipped without a trace.
pub proof fn lemma_candidates_of(paths: Seq<Seq<char>>, is_file: Seq<bool>)
    requires
        paths.len() == is_file.len(),
    ensures
        forall|c: Seq<char>|
            candidates_of(paths, is_file).contains(c) <==> exists|i: int|
                0 <= i < paths.len() && #[trigger] paths[i] == c && is_file[i] && is_audio_path(c),
        candidates_of(paths, is_file).len() <= paths.len(),
    decreases paths.len(),
{
    if paths.len() > 0 {
        let ps = paths.drop_last();
        let fs = is_file.drop_last();
        lemma_candidates_of(ps, fs);
        let rest = candidates_of(ps, fs);
        let n = paths.len() - 1;
        assert forall|c: Seq<char>|
            candidates_of(paths, is_file).contains(c) <==> exists|i: int|
                0 <= i < paths.len() && #[trigger] paths[i] == c && is_file[i] && is_audio_path(c) by {
            if candidates_of(paths, is_file).contains(c) {
                if rest.contains(c) {
                    let i = choose|i: int| 0 <= i < ps.len() && #[trigger] ps[i] == c && fs[i] && is_audio_path(c);
                    assert(paths[i] == c && is_file[i]);
                } else {
                    let k = choose|k: int| 0 <= k < candidates_of(paths, is_file).len() && candidates_of(paths, is_file)[k] == c;
                    assert(is_file.last() && is_audio_path(paths.last()));
                    if k < rest.len() {
                        assert(rest[k] == c);
                    }
                    assert(paths[n] == c);
                }
            }
            if exists|i: int| 0 <= i < paths.len() && #[trigger] paths[i] == c && is_file[i] && is_audio_path(c) {
                let i = choose|i: int| 0 <= i < paths.len() && #[trigger] paths[i] == c && is_file[i] && is_audio_path(c);
                if i < n {
                    assert(ps[i] == c && fs[i]);
                    assert(rest.contains(c));
                    let k = choose|k: int| 0 <= k < rest.len() && rest[k] == c;
                    if is_file.last() && is_audio_path(paths.last()) {
                        assert(candidates_of(paths, is_file)[k] == c);
                    }
                } else {
                    assert(candidates_of(paths, is_file) == rest.push(c));
                    assert(candidates_of(paths, is_file)[rest.len() as int] == c);
                }
            }
        }
    }
}

/// `e` reports that the file at `path` could not be read.
pub open spec fn error_for(path: Seq<char>, e: Seq<char>) -> bool {
    exists|m: Seq<char>| failure_message(m) && e == path + ": "@ + m
}

/// Each candidate, in order, gave exactly one outcome: a song read from it,
/// or an error that names it; songs and errors keep the candidates' order.
pub open spec fn routed(cands: Seq<Seq<char>>, songs: Seq<Song>, errors: Seq<Seq<char>>) -> bool
    decreases cands.len(),
{
    if cands.len() == 0 {
        songs.len() == 0 && errors.len() == 0
    } else {
        let c = cands.last();
        ||| (songs.len() > 0 && song_of_path(songs.last(), c) && routed(
            cands.drop_last(),
            songs.drop_last(),
            errors,
        ))
        ||| (errors.len() > 0 && error_for(c, errors.last()) && routed(
            cands.drop_last(),
            songs,
            errors.drop_last(),
        ))
    }
}

/// Every candidate yields exactly one outcome: the songs and the errors
/// together are as many as the candidates.
pub proof fn lemma_partial_failure(cands: Seq<Seq<char>>, songs: Seq<Song>, errors: Seq<Seq<char>>)
    requires
        routed(cands, songs, errors),
    ensures
        songs.len() + errors.len() == cands.len(),
    decreases cands.len(),
{
    if cands.len() > 0 {
        if songs.len() > 0 && song_of_path(songs.last(), cands.last()) && routed(
            cands.drop_last(),
            songs.drop_last(),
            errors,
        ) {
            lemma_partial_failure(cands.drop_last(), songs.drop_last(), errors);
        } else {
            lemma_partial_failure(cands.drop_last(), songs, errors.drop_last());
        }
    }
}

/// Outcomes name only candidates: each song is read from a candidate and
/// each error reports a candidate.
pub proof fn lemma_outcomes_name_candidates(
    cands: Seq<Seq<char>>,
    songs: Seq<Song>,
    errors: Seq<Seq<char>>,
)
    requires
        routed(cands, songs, errors),
    ensures
        forall|k: int| 0 <= k < songs.len() ==> cands.contains(#[trigger] songs[k].path@),
        forall|k: int|
            0 <= k < errors.len() ==> exists|c: Seq<char>|
                cands.contains(c) && error_for(c, #[trigger] errors[k]),
    decreases cands.len(),
{
    if cands.len() > 0 {
        let c = cands.last();
        let rest = cands.drop_last();
        assert(cands[cands.len() - 1] == c);
        if songs.len() > 0 && song_of_path(songs.last(), c) && routed(rest, songs.drop_last(), errors) {
            lemma_outcomes_name_candidates(rest, songs.drop_last(), errors);
            assert forall|k: int| 0 <= k < songs.len() implies cands.contains(#[trigger] songs[k].path@) by {
                if k < songs.len() - 1 {
                    assert(songs.drop_last()[k] == songs[k]);
                    let j = choose|j: int| 0 <= j < rest.len() && rest[j] == songs[k].path@;
                    assert(cands[j] == rest[j]);
                }
            }
            assert forall|k: int| 0 <= k < errors.len() implies exists|c2: Seq<char>|
                cands.contains(c2) && error_for(c2, #[trigger] errors[k]) by {
                let c2 = choose|c2: Seq<char>| rest.contains(c2) && error_for(c2, errors[k]);
                let j = choose|j: int| 0 <= j < rest.len() && rest[j] == c2;
                assert(cands[j] == rest[j]);
                assert(cands.contains(c2) && error_for(c2, errors[k]));
            }
        } else {
            lemma_outcomes_name_candidates(rest, songs, errors.drop_last());
            assert forall|k: int| 0 <= k < songs.len() implies cands.contains(#[trigger] songs[k].path@) by {
                let j = choose|j: int| 0 <= j < rest.len() && rest[j] == songs[k].path@;
                assert(cands[j] == rest[j]);
            }
            assert forall|k: int| 0 <= k < errors.len() implies exists|c2: Seq<char>|
                cands.contains(c2) && error_for(c2, #[trigger] errors[k]) by {
                if k < errors.len() - 1 {
                    assert(errors.drop_last()[k] == errors[k]);
                    let c2 = choose|c2: Seq<char>| rest.contains(c2) && error_for(c2, errors.drop_last()[k]);
                    let j = choose|j: int| 0 <= j < rest.len() && rest[j] == c2;
                    assert(cands[j] == rest[j]);
                    assert(cands.contains(c2) && error_for(c2, errors[k]));
                } else {
                    assert(cands.contains(c));
                    assert(errors[k] == errors.last());
                    assert(cands.contains(c) && error_for(c, errors[k]));
                }
            }
        }
    }
}

/// A scan never reports a path that is not an audio path, such as a text
/// file beside the music: no song has it as its path, and every error
/// reports a different path, one that is an audio path.
pub proof fn lemma_scan_skips_non_audio(
    paths: Seq<Seq<char>>,
    is_file: Seq<bool>,
    songs: Seq<Song>,
    errors: Seq<Seq<char>>,
    t: Seq<char>,
)
    requires
        paths.len() == is_file.len(),
        routed(candidates_of(paths, is_file), songs, errors),
        !is_audio_path(t),
    ensures
        forall|k: int| 0 <= k < songs.len() ==> #[trigger] songs[k].path@ != t,
        forall|k: int|
            0 <= k < errors.len() ==> exists|c: Seq<char>|
                c != t && is_audio_path(c) && error_for(c, #[trigger] errors[k]),
{
    let cands = candidates_of(paths, is_file);
    lemma_candidates_of(paths, is_file);
    lemma_outcomes_name_candidates(cands, songs, errors);
    assert forall|k: int| 0 <= k < songs.len() implies #[trigger] songs[k].path@ != t by {
        assert(cands.contains(songs[k].path@));
    }
    assert forall|k: int| 0 <= k < errors.len() implies exists|c: Seq<char>|
        c != t && is_audio_path(c) && error_for(c, #[trigger] errors[k]) by {
        let c = choose|c: Seq<char>| cands.contains(c) && error_for(c, errors[k]);
        assert(cands.contains(c));
    }
}

/// The scan result of `candidates`, each read in turn.
pub fn collect_outcomes(candidates: &Vec<String>) -> (r: ScanResult)
    ensures
        routed(candidates.deep_view(), r.songs@, r.errors.deep_view()),
{
    let mut songs: Vec<Song> = Vec::new();
    let mut errors: Vec<String> = Vec::new();
    let mut i: usize = 0;
    assert(candidates.deep_view().subrange(0, 0) =~= Seq::<Seq<char>>::empty());
    assert(errors.deep_view() =~= Seq::<Seq<char>>::empty());
    while i < candidates.len()
        invariant
            i <= candidates@.len(),
            routed(candidates.deep_view().subrange(0, i as int), songs@, errors.deep_view()),
        decreases candidates@.len() - i,
    {
        let ghost done = candidates.deep_view().subrange(0, i as int);
        let ghost next = candidates.deep_view().subrange(0, i + 1);
        let ghost old_songs = songs@;
        let ghost old_errors = errors.deep_view();
        assert(next.drop_last() =~= done);
        assert(next.last() == candidates@[i as int]@);
        let path = &candidates[i];
        match read_audio_metadata(path.as_str()) {
            Ok(song) => {
                songs.push(song);
                assert(songs@.drop_last() =~= old_songs);
            },
            Err(m) => {
                let e = path.clone().concat(": ").concat(m.as_str());
                assert(e@ == path@ + ": "@ + m@);
                errors.push(e);
                assert(errors.deep_view().drop_last() =~= old_errors);
                assert(errors.deep_view().last() == e@);
            },
        }
        i = i + 1;
    }
    assert(candidates.deep_view().subrange(0, i as int) =~= candidates.deep_view());
    ScanResult { songs, errors }
}

/// The paths that `is_file` marks as regular files and that are audio
/// paths, in order.
pub fn audio_candidates(paths: &Vec<String>, is_file: &Vec<bool>) -> (r: Vec<String>)
    requires
        paths@.len() == is_file@.len(),
    ensures
        r.deep_view() == candidates_of(paths.deep_view(), is_file@),
{
    let mut r: Vec<String> = Vec::new();
    let mut i: usize = 0;
    assert(r.deep_view() =~= candidates_of(paths.deep_view().subrange(0, 0), is_file@.subrange(0, 0)));
    while i < paths.len()
        invariant
            i <= paths@.len() == is_file@.len(),
            r.deep_view() == candidates_of(
                paths.deep_view().subrange(0, i as int),
                is_file@.subrange(0, i as int),
            ),
        decreases paths@.len() - i,
    {
        let ghost old_r = r.deep_view();
        assert(paths.deep_view().subrange(0, i + 1).drop_last() =~= paths.deep_view().subrange(0, i as int));
        assert(is_file@.subrange(0, i + 1).drop_last() =~= is_file@.subrange(0, i as int));
        if is_file[i] && is_audio_file(paths[i].as_str()) {
            r.push(paths[i].clone());
            assert(r.deep_view() =~= old_r.push(paths@[i as int]@));
        }
        i = i + 1;
    }
    assert(paths.deep_view().subrange(0, i as int) =~= paths.deep_view());
    assert(is_file@.subrange(0, i as int) =~= is_file@);
    r
}

/// Whether each path is a regular file, as the file system says now.
fn regular_file_flags(paths: &Vec<String>) -> (r: Vec<bool>)
    ensures
        r@.len() == paths@.len(),
{
    let mut r: Vec<bool> = Vec::new();
    let mut i: usize = 0;
    while i < paths.len()
        invariant
            i <= paths@.len(),
            r@.len() == i,
        decreases paths@.len() - i,
    {
        r.push(is_regular_file(paths[i].as_str()));
        i = i + 1;
    }
    r
}

/// The scan result of the regular audio files among `paths`.
fn scan_paths(paths: &Vec<String>) -> (r: ScanResult)
    ensures
        exists|flags: Seq<bool>|
            flags.len() == paths@.len() && routed(
                candidates_of(paths.deep_view(), flags),
                r.songs@,
                r.errors.deep_view(),
            ),
{
    let flags = regular_file_flags(paths);
    let cands = audio_candidates(paths, &flags);
    let r = collect_outcomes(&cands);
    assert(flags@.len() == paths@.len() && routed(
        candidates_of(paths.deep_view(), flags@),
        r.songs@,
        r.errors.deep_view(),
    ));
    r
}

/// Scans the tree under `root`, links followed: every regular audio file
/// met gives a song or an error; entries that cannot be walked are skipped
/// without a trace.
pub fn scan_directory(root: &str) -> (r: ScanResult)
    ensures
        exists|walked: Seq<Seq<char>>, flags: Seq<bool>|
            flags.len() == walked.len() && routed(
                candidates_of(walked, flags),
                r.songs@,
                r.errors.deep_view(),
            ),
{
    let walked = walk_tree(root);
    let r = scan_paths(&walked);
    r
}

/// Scans the given paths: those that are not regular files or not audio
/// paths are skipped without a trace; each other gives a song or an error.
pub fn scan_music_files(paths: Vec<String>) -> (r: Result<ScanResult, String>)
    ensures
        match r {
            Ok(res) => exists|flags: Seq<bool>|
                flags.len() == paths@.len() && routed(
                    candidates_of(paths.deep_view(), flags),
                    res.songs@,
                    res.errors.deep_view(),
                ),
            Err(_) => false,
        },
{
    Ok(scan_paths(&paths))
}

/// The audio files named by a process's arguments: the arguments after
/// the first (the program) that are regular files and audio paths, in order.
pub fn audio_file_args(args: &Vec<String>) -> (r: Vec<String>)
    ensures
        args@.len() == 0 ==> r@.len() == 0,
        args@.len() > 0 ==> exists|flags: Seq<bool>|
            flags.len() == args@.len() - 1 && r.deep_view() == candidates_of(
                args.deep_view().drop_first(),
                flags,
            ),
{
    if args.len() == 0 {
        return Vec::new();
    }
    let mut rest: Vec<String> = Vec::new();
    let mut i: usize = 1;
    assert(rest.deep_view() =~= args.deep_view().subrange(1, 1));
    while i < args.len()
        invariant
            1 <= i <= args@.len(),
            rest.deep_view() == args.deep_view().subrange(1, i as int),
        decreases args@.len() - i,
    {
        let ghost before = rest.deep_view();
        let a = args[i].clone();
        rest.push(a);
        assert(rest.deep_view() =~= before.push(a@));
        assert(args.deep_view().subrange(1, i + 1) =~= before.push(args@[i as int]@));
        i = i + 1;
    }
    assert(rest.deep_view() =~= args.deep_view().drop_first());
    let flags = regular_file_flags(&rest);
    audio_candidates(&rest, &flags)
}

/// Validation of a folder to scan, from whether its path exists and whether
/// it is a directory.
pub fn validate_folder(exists: bool, is_dir: bool) -> (r: Result<(), String>)
    ensures
        !exists ==> (r matches Err(m) && m@ == "Folder not found"@),
        exists && !is_dir ==> (r matches Err(m) && m@ == "Path is not a folder"@),
        exists && is_dir ==> r is Ok,
{
    if !exists {
        Err(String::from_str("Folder not found"))
    } else if !is_dir {
        Err(String::from_str("Path is not a folder"))
    } else {
        Ok(())
    }
}

/// Scans the folder at `path`, once it is known to exist and to be a
/// directory.
pub fn scan_music_folder(path: String) -> (r: Result<ScanResult, String>)
    ensures
        match r {
            Ok(res) => exists|walked: Seq<Seq<char>>, flags: Seq<bool>|
                flags.len() == walked.len() && routed(
                    candidates_of(walked, flags),
                    res.songs@,
                    res.errors.deep_view(),
                ),
            Err(m) => m@ == "Folder not found"@ || m@ == "Path is not a folder"@,
        },
{
    let exists = path_exists(path.as_str());
    let is_dir = exists && is_directory(path.as_str());
    match validate_folder(exists, is_dir) {
        Err(m) => Err(m),
        Ok(()) => Ok(scan_directory(path.as_str())),
    }
}

/// The record of the file at `path`: `File not found` where the path does
/// not exist, else what `read_audio_metadata` gives.
pub fn get_audio_metadata(path: String) -> (r: Result<Song, String>)
    ensures
        match r {
            Ok(s) => song_of_path(s, path@),
            Err(m) => m@ == "File not found"@ || failure_message(m@),
        },
{
    match validate_file(path_exists(path.as_str())) {
        Err(m) => Err(m),
        Ok(()) => read_audio_metadata(path.as_str()),
    }
}

} // verus!
