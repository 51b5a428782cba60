//! Sidecar files: the JSON document kept next to each audio file.

use vstd::prelude::*;

use crate::paths::{file_name, file_name_of, join, joined, parent, parent_of};

verus! {

/// An attachment recorded in a sidecar.
pub struct AttachmentSidecar {
    /// Identifier of the attachment.
    pub uuid: String,
    /// Kind of attachment.
    pub kind: String,
    /// Media type, when known.
    pub mime_type: Option<String>,
}

/// Where the sidecar of `audio` lives: next to it (in `.` when the path has
/// no parent), named after the audio file's full name plus `.musicum.json`.
pub open spec fn sidecar_path_spec(audio: Seq<char>) -> Seq<char> {
    let name = match file_name_of(audio) {
        Some(n) => n,
        None => Seq::empty(),
    };
    let dir = match parent_of(audio) {
        Some(d) => d,
        None => "."@,
    };
    joined(dir, name + ".musicum.json"@)
}

/// The sidecar path for an audio file (see `sidecar_path_spec`).
pub fn sidecar_path_for_audio(audio_path: &str) -> (p: String)
    ensures
        p@ == sidecar_path_spec(audio_path@),
{
    let mut name = match file_name(audio_path) {
        Some(n) => n,
        None => String::new(),
    };
    name.append(".musicum.json");
    match parent(audio_path) {
        Some(dir) => join(dir.as_str(), name.as_str()),
        None => join(".", name.as_str()),
    }
}

/// The sidecar lies beside its audio file: it is the audio's directory, a
/// `/` after it where one is needed, then the audio's file name followed by
/// `.musicum.json` (a file name never starts with `/`).
pub proof fn law_sidecar_beside_audio(audio: Seq<char>, name: Seq<char>, dir: Seq<char>)
    requires
        file_name_of(audio) == Some(name),
        parent_of(audio) == Some(dir),
        name.len() == 0 || name[0] != '/',
    ensures
        sidecar_path_spec(audio) == (if dir.len() > 0 && dir.last() != '/' {
            dir + seq!['/']
        } else {
            dir
        }) + name + ".musicum.json"@,
{
    reveal_strlit(".musicum.json");
    let part = name + ".musicum.json"@;
    assert(part.len() > 0);
    if name.len() == 0 {
        assert(part[0] == '.');
    } else {
        assert(part[0] == name[0]);
    }
    assert((dir + seq!['/']) + part =~= (dir + seq!['/']) + name + ".musicum.json"@);
    assert(dir + part =~= dir + name + ".musicum.json"@);
}

} // verus!
