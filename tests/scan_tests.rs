use music_index::cover::get_cover_art;
use music_index::scan::{
    audio_candidates, audio_file_args, collect_outcomes, get_audio_metadata, scan_directory,
    scan_music_files, scan_music_folder, validate_folder,
};

#[test]
fn folder_validation() {
    assert_eq!(validate_folder(false, false), Err("Folder not found".to_string()));
    assert_eq!(validate_folder(true, false), Err("Path is not a folder".to_string()));
    assert_eq!(validate_folder(true, true), Ok(()));
}

#[test]
fn candidates_need_a_regular_file_and_an_audio_extension() {
    let paths: Vec<String> = ["a.mp3", "b.txt", "c.FLAC", "d.ogg"].iter().map(|s| s.to_string()).collect();
    let flags = vec![true, true, true, false];
    assert_eq!(audio_candidates(&paths, &flags), vec!["a.mp3".to_string(), "c.FLAC".to_string()]);
}

#[test]
fn unreadable_candidates_become_errors_in_order() {
    let cands = vec!["/no/such/one.mp3".to_string(), "/no/such/two.wav".to_string()];
    let r = collect_outcomes(&cands);
    assert!(r.songs.is_empty());
    assert_eq!(r.errors.len(), 2);
    assert!(r.errors[0].starts_with("/no/such/one.mp3: Failed to open file: "), "{}", r.errors[0]);
    assert!(r.errors[1].starts_with("/no/such/two.wav: Failed to open file: "), "{}", r.errors[1]);
}

#[test]
fn batch_scan_skips_missing_and_non_audio_paths() {
    let paths = vec![
        "/proc/self/exe".to_string(),
        "no/such/track.mp3".to_string(),
        "src/lib.rs".to_string(),
        "src".to_string(),
    ];
    let r = scan_music_files(paths).unwrap();
    assert!(r.songs.is_empty());
    assert!(r.errors.is_empty());
}

#[test]
fn directory_without_audio_gives_an_empty_result() {
    let r = scan_directory("tests");
    assert!(r.songs.is_empty());
    assert!(r.errors.is_empty());
    let r = scan_music_folder("src".to_string()).unwrap();
    assert_eq!(r.songs.len() + r.errors.len(), 0);
}

#[test]
fn missing_paths_are_reported() {
    assert_eq!(get_audio_metadata("/no/such/file.mp3".to_string()).err(), Some("File not found".to_string()));
    assert_eq!(get_cover_art("/no/such/file.mp3".to_string()), Err("File not found".to_string()));
    assert_eq!(scan_music_folder("/no/such/folder".to_string()).err(), Some("Folder not found".to_string()));
    assert_eq!(scan_music_folder("/proc/self/exe".to_string()).err(), Some("Path is not a folder".to_string()));
}

#[test]
fn unrecognised_content_fails_to_read() {
    let e = get_audio_metadata("/proc/self/exe".to_string()).err().expect("not an audio file");
    assert!(e.starts_with("Failed to read file: "), "{}", e);
    let e = get_cover_art("/proc/self/exe".to_string()).err().expect("not an audio file");
    assert!(e.starts_with("Failed to read file: "), "{}", e);
    let r = collect_outcomes(&vec!["/proc/self/exe".to_string(), "no/such/a.flac".to_string()]);
    assert!(r.songs.is_empty());
    assert_eq!(r.errors.len(), 2);
    assert!(r.errors[0].starts_with("/proc/self/exe: Failed to read file: "), "{}", r.errors[0]);
    assert!(r.errors[1].starts_with("no/such/a.flac: Failed to open file: "), "{}", r.errors[1]);
}

#[test]
fn launch_arguments_keep_existing_audio_files() {
    let args = vec![
        "prog".to_string(),
        "/proc/self/exe".to_string(),
        "no/such/three.mp3".to_string(),
        "src".to_string(),
    ];
    assert!(audio_file_args(&args).is_empty());
    assert!(audio_file_args(&Vec::new()).is_empty());
    assert!(audio_file_args(&vec!["prog".to_string()]).is_empty());
}
