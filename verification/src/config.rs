//! Library configuration: where audio files, the catalog and generated files
//! live, and how sidecar files are written.

use vstd::prelude::*;

use crate::paths::{join, joined};

verus! {

/// Directories of a music library.
pub struct LibraryConfig {
    /// Audio files.
    pub files_dir: String,
    /// Catalog database.
    pub catalog_dir: String,
    /// Generated (cached) audio.
    pub generated_dir: String,
}

/// General behaviour switches.
pub struct GeneralConfig {
    /// Whether sidecar files are hidden.
    pub hidden_sidecars: bool,
}

/// The whole configuration file.
pub struct Config {
    /// Library directories.
    pub library: LibraryConfig,
    /// General switches.
    pub general: GeneralConfig,
}

/// `<home>/.musicum/config.toml`.
pub open spec fn config_path_in(home: Seq<char>) -> Seq<char> {
    joined(joined(home, ".musicum"@), "config.toml"@)
}

/// `<home>/Music/musicum`, the default library root.
pub open spec fn default_library_root(home: Seq<char>) -> Seq<char> {
    joined(joined(home, "Music"@), "musicum"@)
}

/// The default configuration file path for the home directory `home`.
pub fn default_config_path(home: &str) -> (p: String)
    ensures
        p@ == config_path_in(home@),
{
    let dir = join(home, ".musicum");
    join(dir.as_str(), "config.toml")
}

impl Config {
    /// The default configuration for the home directory `home`: the library
    /// under `<home>/Music/musicum` with `files`, `catalog` and `.generated`
    /// directories, and hidden sidecars.
    pub fn default_in(home: &str) -> (c: Config)
        ensures
            c.library.files_dir@ == joined(default_library_root(home@), "files"@),
            c.library.catalog_dir@ == joined(default_library_root(home@), "catalog"@),
            c.library.generated_dir@ == joined(default_library_root(home@), ".generated"@),
            c.general.hidden_sidecars,
    {
        let music = join(home, "Music");
        let root = join(music.as_str(), "musicum");
        Config {
            library: LibraryConfig {
                files_dir: join(root.as_str(), "files"),
                catalog_dir: join(root.as_str(), "catalog"),
                generated_dir: join(root.as_str(), ".generated"),
            },
            general: GeneralConfig { hidden_sidecars: true },
        }
    }
}

} // verus!
