//! Command-line arguments of the `musicum` program, as plain data.
//!
//! The parser that fills these lives with the program; the library only
//! fixes their shape and derives what the commands need from them.

use vstd::prelude::*;

use crate::export::ExportOptions;

verus! {

/// `musicum clips …`
pub struct ClipsArgs {
    pub command: ClipsCommand,
}

/// Clip subcommands.
pub enum ClipsCommand {
    /// List clips, all of them or those of one file.
    List { file_slug: Option<String>, json: bool },
    /// Show one clip.
    Show { slug: String, json: bool },
    /// Create a clip for a file.
    Create { file_slug: String, title: String },
    /// Replace a clip's processors with a preset's.
    ApplyPreset { clip_slug: String, preset_slug: String },
    /// Remove all processors from a clip.
    ClearProcessors { clip_slug: String },
    /// Edit a clip's processors interactively.
    Edit { slug: String },
}

/// `musicum collections …`
pub struct CollectionsArgs {
    pub command: CollectionsCommand,
}

/// Collection subcommands.
pub enum CollectionsCommand {
    /// Create a collection.
    Create { title: String, description: Option<String> },
    /// Replace a collection's description.
    SetDescription { slug: String, description: String },
    /// Delete a collection and its memberships.
    Delete { slug: String },
    /// Add a clip to a collection.
    AddClip { collection_slug: String, clip_slug: String, position: Option<i32> },
    /// Remove a clip from a collection.
    RemoveClip { collection_slug: String, clip_slug: String },
    /// List collections.
    List { json: bool },
    /// Show one collection with its clips.
    Show { slug: String, json: bool },
}

/// `musicum export …`
pub struct ExportArgs {
    /// File or clip slug.
    pub slug: String,
    /// Destination path; the format follows its extension.
    pub output: String,
    /// Resolve the slug as a file.
    pub file: bool,
    /// Resolve the slug as a clip.
    pub clip: bool,
    /// Resample to this rate.
    pub samplerate: Option<u32>,
    /// Remix to this many channels.
    pub channels: Option<u16>,
    /// Bitrate in kbps for lossy formats.
    pub bitrate: Option<u32>,
    /// Replace an existing output file.
    pub overwrite: bool,
}

impl ExportArgs {
    /// The export options these arguments ask for.
    pub fn options(&self) -> (o: ExportOptions)
        ensures
            o.sample_rate == self.samplerate,
            o.channels == self.channels,
            o.bitrate_kbps == self.bitrate,
            o.overwrite == self.overwrite,
    {
        ExportOptions {
            sample_rate: self.samplerate,
            channels: self.channels,
            bitrate_kbps: self.bitrate,
            overwrite: self.overwrite,
        }
    }
}

/// `musicum files …`
pub struct FilesArgs {
    pub command: FilesCommand,
}

/// File subcommands.
pub enum FilesCommand {
    /// List files.
    List { json: bool },
    /// Show one file with its metadata and clips.
    Show { slug: String, json: bool },
    /// Replace a file's notes.
    SetNotes { slug: String, notes: String },
    /// Replace a file's tags.
    SetTags { slug: String, tags: String },
    /// Remove a file from the catalog, and optionally from disk.
    Delete { slug: String, delete_audio: bool },
}

/// `musicum presets …`
pub struct PresetsArgs {
    pub command: PresetsCommand,
}

/// Preset subcommands.
pub enum PresetsCommand {
    /// List presets.
    List { json: bool },
    /// Show one preset.
    Show { slug: String, json: bool },
    /// Create a preset.
    Create { title: String, description: String },
    /// Remove a preset.
    Remove { slug: String },
    /// Append a structural processor to a preset.
    AddProcessor { preset_slug: String, processor_type: String },
    /// Remove a processor from a preset.
    RemoveProcessor { preset_slug: String, instance_uuid: String },
    /// Edit a preset's processors interactively.
    Edit { slug: String },
    /// Set one processor parameter.
    SetParam { preset_slug: String, instance_uuid: String, key: String, value: String },
}

/// `musicum processors …`
pub struct ProcessorsArgs {
    pub command: ProcessorsCommand,
}

/// Processor subcommands.
pub enum ProcessorsCommand {
    /// List registered processors and plugins.
    List { json: bool },
}

/// Kind of a registered edit.
#[derive(PartialEq, Eq, Structural, Clone, Copy)]
pub enum EditType {
    /// A structural processor.
    Processor,
    /// An audio plugin.
    Plugin,
}

/// Settings of the desktop application that the command line shares.
pub struct AppSettings {
    /// Library root.
    pub library_dir: String,
    /// Directory of generated audio, when not the default.
    pub generated_dir: Option<String>,
}

impl AppSettings {
    /// Defaults for the home directory `home`: the library in
    /// `<home>/Music/Musicum`.
    pub fn default_for_home(home: &str) -> (s: AppSettings)
        ensures
            s.library_dir@ == home@ + "/Music/Musicum"@,
            s.generated_dir is None,
    {
        let mut dir = String::from_str(home);
        dir.append("/Music/Musicum");
        AppSettings { library_dir: dir, generated_dir: None }
    }
}

/// `<home>/.config/com.musicum.app/settings.json`.
pub open spec fn settings_path_in(home: Seq<char>) -> Seq<char> {
    crate::paths::joined(
        crate::paths::joined(crate::paths::joined(home, ".config"@), "com.musicum.app"@),
        "settings.json"@,
    )
}

/// Where the settings file lives for the home directory `home`.
pub fn settings_path(home: &str) -> (p: String)
    ensures
        p@ == settings_path_in(home@),
{
    let a = crate::paths::join(home, ".config");
    let b = crate::paths::join(a.as_str(), "com.musicum.app");
    crate::paths::join(b.as_str(), "settings.json")
}

} // verus!
