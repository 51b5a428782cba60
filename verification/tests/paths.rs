use musicum::paths::{lower_extension_or_default, name_extension, name_stem, path_extension, stem_text};
use std::path::Path;

#[test]
fn stems_follow_std() {
    for p in ["/a/song.wav", "/a/.bashrc", "/a/foo.tar.gz", "/a/foo.", "noext", "/a/.a.b", "/", "", "/a/b/"] {
        let std = Path::new(p).file_stem().map(|s| s.to_string_lossy().into_owned()).unwrap_or_default();
        assert_eq!(stem_text(p), std, "{p:?}");
    }
    assert_eq!(name_stem("x.y.z"), "x.y");
}

#[test]
fn extensions_follow_std() {
    for p in ["/a/song.wav", "/a/.bashrc", "/a/foo.tar.gz", "/a/foo.", "noext", "/a/.a.b", "/"] {
        let std = Path::new(p).extension().map(|s| s.to_string_lossy().into_owned());
        assert_eq!(path_extension(p), std, "{p:?}");
    }
    assert_eq!(name_extension(".hidden"), None);
    assert_eq!(lower_extension_or_default("/x/Y.FLAC", "wav"), "flac");
    assert_eq!(lower_extension_or_default("/x/Y", "wav"), "wav");
}
