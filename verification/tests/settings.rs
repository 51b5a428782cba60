use musicum::cli::{settings_path, AppSettings, ExportArgs};
use musicum::config::{default_config_path, Config};
use musicum::params::{is_false, BoolParam, PluginMode};

#[test]
fn default_values() {
    let config = Config::default_in("/home/ann");
    let base = "/home/ann/Music/musicum";
    assert_eq!(config.library.files_dir, format!("{base}/files"));
    assert_eq!(config.library.catalog_dir, format!("{base}/catalog"));
    assert_eq!(config.library.generated_dir, format!("{base}/.generated"));
    assert!(config.general.hidden_sidecars);
}

#[test]
fn config_file_location() {
    assert_eq!(default_config_path("/home/ann"), "/home/ann/.musicum/config.toml");
    assert_eq!(default_config_path("/tmp/"), "/tmp/.musicum/config.toml");
}

#[test]
fn app_settings_defaults() {
    let s = AppSettings::default_for_home("/home/ann");
    assert_eq!(s.library_dir, "/home/ann/Music/Musicum");
    assert!(s.generated_dir.is_none());
    assert_eq!(settings_path("/home/ann"), "/home/ann/.config/com.musicum.app/settings.json");
}

#[test]
fn export_args_to_options() {
    let a = ExportArgs {
        slug: "song".into(),
        output: "/out/song.mp3".into(),
        file: false,
        clip: true,
        samplerate: Some(48000),
        channels: None,
        bitrate: Some(256),
        overwrite: true,
    };
    let o = a.options();
    assert_eq!(o.sample_rate, Some(48000));
    assert_eq!(o.channels, None);
    assert_eq!(o.bitrate_kbps, Some(256));
    assert!(o.overwrite);
}

#[test]
fn bool_param_get_bool() {
    let f = BoolParam::new(false);
    assert!(!f.get_bool());
    let t = BoolParam::new(true);
    assert!(t.get_bool());
}

#[test]
fn bool_param_set_bool_and_flags() {
    let mut p = BoolParam::new(false);
    p.set_bool(true);
    assert!(p.get_bool());
    assert!(is_false(&false));
    assert!(!is_false(&true));
    assert!(PluginMode::Realtime != PluginMode::Offline);
}
