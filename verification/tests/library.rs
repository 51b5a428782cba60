use musicum::library::{
    clip_change, content_hash, file_identity, is_audio_path, is_fast_skip, is_skipped_dir_name,
    merge_notes_tags, mime_type_for, removed_paths, rescan_action, ClipChange, ClipRecord, FileStamp, RescanAction,
    NotesTags, SyncReport,
};
use musicum::sidecar::sidecar_path_for_audio;

fn stamp() -> FileStamp {
    FileStamp { mtime: "2024-01-01T00:00:00+00:00".into(), size_bytes: 10, hash: "h1".into() }
}

#[test]
fn audio_files_are_recognised_by_extension() {
    for p in ["/m/a.wav", "/m/b.MP3", "/m/c.flac", "/m/d.ogg", "/m/e.aiff", "/m/f.AIF"] {
        assert!(is_audio_path(p), "{p}");
    }
    for p in ["/m/a.txt", "/m/noext", "/m/.wav", "/m/a.musicum.json"] {
        assert!(!is_audio_path(p), "{p}");
    }
}

#[test]
fn hidden_and_catalog_directories_are_skipped() {
    assert!(is_skipped_dir_name(".musicum"));
    assert!(is_skipped_dir_name("catalog"));
    assert!(!is_skipped_dir_name("albums"));
    assert!(!is_skipped_dir_name(""));
}

#[test]
fn mime_types() {
    assert_eq!(mime_type_for("/a/x.mp3"), "audio/mpeg");
    assert_eq!(mime_type_for("/a/x.FLAC"), "audio/flac");
    assert_eq!(mime_type_for("/a/x.ogg"), "audio/ogg");
    assert_eq!(mime_type_for("/a/x.aif"), "audio/aiff");
    assert_eq!(mime_type_for("/a/x.wav"), "audio/wav");
    assert_eq!(mime_type_for("/a/x"), "audio/wav");
}

#[test]
fn identity_is_stem_and_its_slug() {
    let (name, slug) = file_identity("/music/My Song (Live).wav");
    assert_eq!(name, "My Song (Live)");
    assert_eq!(slug, "my-song-live");
}

#[test]
fn content_hash_of_known_input() {
    assert_eq!(
        content_hash(b"abc"),
        "ba7816bf8f01cfea414140de5dae2223b00361a396177a9cb410ff61f20015ad"
    );
    assert_eq!(content_hash(b"").len(), 64);
}

#[test]
fn fast_skip_needs_same_stamp() {
    let s = stamp();
    assert!(is_fast_skip(Some(&s), "2024-01-01T00:00:00+00:00", 10));
    assert!(!is_fast_skip(Some(&s), "2024-01-02T00:00:00+00:00", 10));
    assert!(!is_fast_skip(Some(&s), "2024-01-01T00:00:00+00:00", 11));
    assert!(!is_fast_skip(None, "x", 0));
}

#[test]
fn rescan_actions() {
    let s = stamp();
    assert!(matches!(rescan_action(None, "h1", "m", 1), RescanAction::Insert));
    assert!(matches!(rescan_action(Some(&s), "h2", "m", 1), RescanAction::Update));
    assert!(matches!(
        rescan_action(Some(&s), "h1", "2024-01-01T00:00:00+00:00", 10),
        RescanAction::Refresh { stamp_changed: false }
    ));
    assert!(matches!(rescan_action(Some(&s), "h1", "later", 10), RescanAction::Refresh { stamp_changed: true }));
}

#[test]
fn clip_changes() {
    let ex = ClipRecord { title: "Intro".into(), processors: "[]".into(), notes: "".into() };
    assert!(clip_change(None, "Intro", "[]", "") == ClipChange::Insert);
    assert!(clip_change(Some(&ex), "Intro", "[]", "") == ClipChange::Keep);
    assert!(clip_change(Some(&ex), "Intro!", "[]", "") == ClipChange::Update);
    assert!(clip_change(Some(&ex), "Intro", "[{}]", "") == ClipChange::Update);
    assert!(clip_change(Some(&ex), "Intro", "[]", "n") == ClipChange::Update);
}

#[test]
fn removed_paths_are_the_unseen_ones() {
    let cat: Vec<String> = vec!["/a.wav".into(), "/b.wav".into(), "/c.wav".into(), "/b.wav".into()];
    let seen: Vec<String> = vec!["/c.wav".into(), "/z.wav".into()];
    assert_eq!(removed_paths(&cat, &seen), vec!["/a.wav".to_string(), "/b.wav".to_string()]);
    assert!(removed_paths(&vec![], &seen).is_empty());
}

#[test]
fn summary_lines() {
    let mut r = SyncReport {
        files_added: vec![],
        files_updated: vec![],
        files_removed: vec![],
        sidecars_updated: vec![],
    };
    assert_eq!(r.summary_line(), "Done — nothing changed");
    r.files_added = vec!["a".into(), "b".into()];
    r.files_removed = vec!["c".into()];
    assert_eq!(r.summary_line(), "Done — 2 added, 1 removed");
    r.sidecars_updated = vec!["d".into()];
    r.files_updated = vec!["e".into()];
    assert_eq!(r.summary_line(), "Done — 2 added, 1 updated, 1 removed, 1 sidecar");
}

#[test]
fn sidecar_sits_next_to_audio() {
    assert_eq!(sidecar_path_for_audio("/music/song.wav"), "/music/song.wav.musicum.json");
    assert_eq!(sidecar_path_for_audio("song.wav"), "song.wav.musicum.json");
}

#[test]
fn notes_on_a_new_row_leave_tags_empty() {
    let r = merge_notes_tags(None, Some("my notes"), None);
    assert_eq!(r.notes, "my notes");
    assert_eq!(r.tags, "");
}

#[test]
fn new_notes_keep_existing_tags() {
    let row = NotesTags { notes: "old".to_string(), tags: "kick".to_string() };
    let r = merge_notes_tags(Some(&row), Some("new notes"), None);
    assert_eq!(r.notes, "new notes");
    assert_eq!(r.tags, "kick");
}

#[test]
fn new_tags_keep_existing_notes() {
    let row = NotesTags { notes: "old".to_string(), tags: "kick".to_string() };
    let r = merge_notes_tags(Some(&row), None, Some("kick, loop"));
    assert_eq!(r.notes, "old");
    assert_eq!(r.tags, "kick, loop");
}

#[test]
fn slugs_have_no_stray_dashes() {
    let (_, slug) = file_identity("/m/--Hello__World--.wav");
    assert_eq!(slug, "hello-world");
    let (_, slug) = file_identity("/m/!!!.wav");
    assert_eq!(slug, "");
}

#[test]
fn removed_paths_keep_catalogue_order() {
    let cat: Vec<String> = vec!["/c.wav".into(), "/a.wav".into(), "/b.wav".into()];
    let seen: Vec<String> = vec!["/a.wav".into()];
    assert_eq!(removed_paths(&cat, &seen), vec!["/c.wav".to_string(), "/b.wav".to_string()]);
}
