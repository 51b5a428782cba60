use musicum::export::{
    check_export_target, export_settings, ffmpeg_args, is_lossless, validate_extension,
    ExportError, ExportOptions,
};
use std::path::Path;

#[test]
fn validate_extension_rejects_unknown() {
    let err = validate_extension("/out/file.ogg").unwrap_err();
    assert!(err.to_string().contains("unsupported output format"));
    assert!(err.to_string().contains("ogg"));
    assert!(err.to_string().contains("wav, mp3, flac, aiff"));
}

#[test]
fn validate_extension_accepts_all_supported() {
    for ext in &["wav", "mp3", "flac", "aiff", "aif"] {
        let path = Path::new("/out/file").with_extension(ext);
        assert!(validate_extension(path.to_str().unwrap()).is_ok(), "should accept .{ext}");
    }
}

#[test]
fn is_lossless_mp3_is_false() {
    assert!(!is_lossless("mp3"));
}

#[test]
fn is_lossless_wav_flac_aiff_are_true() {
    assert!(is_lossless("wav"));
    assert!(is_lossless("flac"));
    assert!(is_lossless("aiff"));
    assert!(is_lossless("aif"));
}

#[test]
fn validate_extension_lowercases() {
    assert_eq!(validate_extension("/x/Song.FLAC").ok().unwrap(), "flac");
}

#[test]
fn validate_extension_without_extension_is_rejected_with_empty_name() {
    match validate_extension("/x/noext") {
        Err(ExportError::UnsupportedFormat(e)) => assert_eq!(e, ""),
        _ => panic!("expected UnsupportedFormat"),
    }
    // a leading dot alone is no extension
    assert!(validate_extension("/x/.wav").is_err());
}

fn opts(overwrite: bool) -> ExportOptions {
    ExportOptions { sample_rate: None, channels: None, bitrate_kbps: None, overwrite }
}

#[test]
fn existing_output_without_overwrite_is_refused_first() {
    let err = check_export_target("/out/a.ogg", true, false).unwrap_err();
    let msg = err.to_string();
    assert!(msg.contains("already exists"));
    assert!(msg.contains("--overwrite"));
    assert_eq!(msg, "output file already exists: /out/a.ogg. Use --overwrite to replace it.");
    assert_eq!(check_export_target("/out/a.wav", true, true).ok().unwrap(), "wav");
    assert_eq!(check_export_target("/out/a.wav", false, false).ok().unwrap(), "wav");
}

#[test]
fn ffmpeg_args_full_lossy() {
    let o = ExportOptions { sample_rate: Some(22050), channels: Some(1), bitrate_kbps: Some(192), overwrite: true };
    let args = ffmpeg_args("/tmp/x.pcm", "/out/y.mp3", 44100, 2, "mp3", &o);
    assert_eq!(
        args,
        vec!["-y", "-f", "f32le", "-ar", "44100", "-ac", "2", "-i", "/tmp/x.pcm", "-ar", "22050",
             "-ac", "1", "-b:a", "192k", "/out/y.mp3"]
    );
}

#[test]
fn ffmpeg_args_lossless_drops_bitrate() {
    let o = ExportOptions { sample_rate: None, channels: None, bitrate_kbps: Some(320), overwrite: false };
    let args = ffmpeg_args("t", "o.flac", 48000, 2, "flac", &o);
    assert_eq!(args, vec!["-f", "f32le", "-ar", "48000", "-ac", "2", "-i", "t", "o.flac"]);
}

#[test]
fn export_settings_defaults_to_source() {
    let s = export_settings("wav", 44100, 2, &ExportOptions { bitrate_kbps: Some(128), ..opts(false) });
    assert_eq!((s.format.as_str(), s.sample_rate, s.channels, s.bitrate_kbps), ("wav", 44100, 2, None));
    let s = export_settings("mp3", 44100, 2, &ExportOptions { sample_rate: Some(8000), channels: Some(1), bitrate_kbps: Some(128), overwrite: false });
    assert_eq!((s.sample_rate, s.channels, s.bitrate_kbps), (8000, 1, Some(128)));
}
