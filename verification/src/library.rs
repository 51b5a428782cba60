//! Rules of library synchronisation: which files are audio, how a file is
//! named and identified, when a rescanned file counts as new, touched or
//! modified, and how a sync is summarised.

use vstd::prelude::*;

use crate::paths::{lower_extension_or, lower_extension_or_default, stem_or_empty, stem_text};
use crate::text::{
    decimal, join_with, joined_with, lemma_decimal_starts_with_digit, lemma_joined_starts_with_first,
    lemma_occurs_in_context, lemma_part_occurs_in_join, occurs_in, push_decimal, same_text,
    strings_view,
};

verus! {

// ── Audio files ─────────────────────────────────────────────────────────────

/// Extensions (lowercase) of the audio files a library holds.
pub open spec fn audio_ext(e: Seq<char>) -> bool {
    e == "wav"@ || e == "mp3"@ || e == "flac"@ || e == "ogg"@ || e == "aiff"@ || e == "aif"@
}

/// Whether the file at `path` is picked up as audio, by its lowercase
/// extension (a path without extension is not).
pub fn is_audio_path(path: &str) -> (b: bool)
    ensures
        b == audio_ext(lower_extension_or(path@, ""@)),
{
    let e = lower_extension_or_default(path, "");
    let e = e.as_str();
    same_text(e, "wav") || same_text(e, "mp3") || same_text(e, "flac") || same_text(e, "ogg")
        || same_text(e, "aiff") || same_text(e, "aif")
}

/// Whether a directory of this name is passed over during a walk: hidden
/// directories and the catalog.
pub fn is_skipped_dir_name(name: &str) -> (b: bool)
    ensures
        b == ((name@.len() > 0 && name@[0] == '.') || name@ == "catalog"@),
{
    (name.unicode_len() > 0 && name.get_char(0) == '.') || same_text(name, "catalog")
}

/// The media type of an audio file by lowercase extension.
pub open spec fn mime_of(e: Seq<char>) -> Seq<char> {
    if e == "mp3"@ {
        "audio/mpeg"@
    } else if e == "flac"@ {
        "audio/flac"@
    } else if e == "ogg"@ {
        "audio/ogg"@
    } else if e == "aiff"@ || e == "aif"@ {
        "audio/aiff"@
    } else {
        "audio/wav"@
    }
}

/// The media type recorded for the audio file at `path` (a path without
/// extension counts as `wav`).
pub fn mime_type_for(path: &str) -> (m: String)
    ensures
        m@ == mime_of(lower_extension_or(path@, "wav"@)),
{
    let e = lower_extension_or_default(path, "wav");
    let e = e.as_str();
    if same_text(e, "mp3") {
        String::from_str("audio/mpeg")
    } else if same_text(e, "flac") {
        String::from_str("audio/flac")
    } else if same_text(e, "ogg") {
        String::from_str("audio/ogg")
    } else if same_text(e, "aiff") || same_text(e, "aif") {
        String::from_str("audio/aiff")
    } else {
        String::from_str("audio/wav")
    }
}

// ── Names and content identity ──────────────────────────────────────────────

/// What `slug::slugify` returns for `s`.
pub uninterp spec fn slug_of(s: Seq<char>) -> Seq<char>;

/// A character a slug may hold: `a`–`z`, `0`–`9` or `-`.
pub open spec fn slug_char(c: char) -> bool {
    ('a' <= c && c <= 'z') || ('0' <= c && c <= '9') || c == '-'
}

/// The shape of a slug: only slug characters, never two dashes in a row, and
/// no dash at either end.
pub open spec fn is_slug(s: Seq<char>) -> bool {
    &&& forall|i: int| 0 <= i < s.len() ==> slug_char(#[trigger] s[i])
    &&& forall|i: int| 0 <= i < s.len() - 1 ==> !(#[trigger] s[i] == '-' && s[i + 1] == '-')
    &&& s.len() > 0 ==> s[0] != '-' && s.last() != '-'
}

/// Calls `slug::slugify`.  Claimed: the result is the slug that `slug_of`
/// names, and it has the shape the crate documents (`is_slug`); the
/// transliteration of other characters is left unstated.
#[verifier::external_body]
fn slugify(s: &str) -> (res: String)
    ensures
        res@ == slug_of(s@),
        is_slug(res@),
{
    slug::slugify(s)
}

/// Display name and slug of an audio file: the name is the file stem (empty
/// when there is none), the slug is that name slugified.
pub fn file_identity(path: &str) -> (ids: (String, String))
    ensures
        ids.0@ == stem_or_empty(path@),
        ids.1@ == slug_of(stem_or_empty(path@)),
        is_slug(ids.1@),
{
    let name = stem_text(path);
    let slug = slugify(name.as_str());
    (name, slug)
}

/// What SHA-256 computes for `data`.
pub uninterp spec fn sha256_of(data: Seq<u8>) -> Seq<u8>;

/// Calls `sha2::Sha256::digest`.  Claimed: the result is the digest that
/// `sha256_of` names.
#[verifier::external_body]
fn sha256(data: &[u8]) -> (d: Vec<u8>)
    ensures
        d@ == sha256_of(data@),
{
    let out = <sha2::Sha256 as sha2::Digest>::digest(data);
    out.to_vec()
}

/// Lowercase hexadecimal digit for `n` below sixteen.
pub open spec fn hex_digit(n: nat) -> char {
    if n < 10 {
        crate::text::digit_char(n)
    } else if n == 10 {
        'a'
    } else if n == 11 {
        'b'
    } else if n == 12 {
        'c'
    } else if n == 13 {
        'd'
    } else if n == 14 {
        'e'
    } else {
        'f'
    }
}

/// Lowercase hexadecimal encoding: two digits per byte, high nibble first.
pub open spec fn hex_lower(b: Seq<u8>) -> Seq<char>
    decreases b.len(),
{
    if b.len() == 0 {
        Seq::empty()
    } else {
        hex_lower(b.drop_last()) + seq![
            hex_digit((b.last() / 16) as nat),
            hex_digit((b.last() % 16) as nat),
        ]
    }
}

/// Calls `hex::encode`, which the crate documents as the lowercase
/// hexadecimal encoding of the bytes; claimed exactly so.
#[verifier::external_body]
fn hex_encode(data: &[u8]) -> (s: String)
    ensures
        s@ == hex_lower(data@),
{
    hex::encode(data)
}

/// The content hash recorded for a file: SHA-256 of its bytes, in lowercase
/// hexadecimal.
pub fn content_hash(data: &[u8]) -> (h: String)
    ensures
        h@ == hex_lower(sha256_of(data@)),
{
    let d = sha256(data);
    hex_encode(d.as_slice())
}

// ── Rescan decisions ────────────────────────────────────────────────────────

/// Modification stamp, size and content hash of a catalogued file.
pub struct FileStamp {
    /// Modification time as recorded (RFC 3339).
    pub mtime: String,
    /// Size in bytes.
    pub size_bytes: i64,
    /// Content hash.
    pub hash: String,
}

/// Whether a file found on disk can be passed over without reading it: it is
/// catalogued with the same modification time and size.
pub fn is_fast_skip(existing: Option<&FileStamp>, mtime: &str, size_bytes: i64) -> (b: bool)
    ensures
        b == match existing {
            Some(ex) => ex.mtime@ == mtime@ && ex.size_bytes == size_bytes,
            None => false,
        },
{
    match existing {
        Some(ex) => same_text(ex.mtime.as_str(), mtime) && ex.size_bytes == size_bytes,
        None => false,
    }
}

/// What a sync does with a file it had to read.
pub enum RescanAction {
    /// Not catalogued: add it.
    Insert,
    /// Same content: keep the entry, refreshing its stamp when that changed,
    /// and pick up sidecar changes.
    Refresh { stamp_changed: bool },
    /// Content changed: rewrite the entry.
    Update,
}

/// Decides what a sync does with a file whose content hash is `hash`.
pub fn rescan_action(existing: Option<&FileStamp>, hash: &str, mtime: &str, size_bytes: i64) -> (a:
    RescanAction)
    ensures
        match existing {
            None => a is Insert,
            Some(ex) => if ex.hash@ == hash@ {
                a == (RescanAction::Refresh {
                    stamp_changed: !(ex.mtime@ == mtime@ && ex.size_bytes == size_bytes),
                })
            } else {
                a is Update
            },
        },
{
    match existing {
        None => RescanAction::Insert,
        Some(ex) => {
            if same_text(ex.hash.as_str(), hash) {
                let same = same_text(ex.mtime.as_str(), mtime) && ex.size_bytes == size_bytes;
                RescanAction::Refresh { stamp_changed: !same }
            } else {
                RescanAction::Update
            }
        },
    }
}

// ── Clips and removals ──────────────────────────────────────────────────────

/// A clip as catalogued: title, edits (as stored JSON) and notes.
pub struct ClipRecord {
    pub title: String,
    pub processors: String,
    pub notes: String,
}

/// What a sync does with a clip listed in a sidecar.
#[derive(PartialEq, Eq, Structural, Clone, Copy)]
pub enum ClipChange {
    /// No clip with that slug is catalogued: add it.
    Insert,
    /// Title, edits or notes differ: rewrite it.
    Update,
    /// Nothing differs.
    Keep,
}

/// Decides what a sync does with a sidecar clip, given the catalogued clip
/// with the same slug, if any.
pub fn clip_change(existing: Option<&ClipRecord>, title: &str, processors: &str, notes: &str) -> (c:
    ClipChange)
    ensures
        c == match existing {
            None => ClipChange::Insert,
            Some(ex) => if ex.title@ == title@ && ex.processors@ == processors@ && ex.notes@
                == notes@ {
                ClipChange::Keep
            } else {
                ClipChange::Update
            },
        },
{
    match existing {
        None => ClipChange::Insert,
        Some(ex) => {
            if same_text(ex.title.as_str(), title) && same_text(ex.processors.as_str(), processors)
                && same_text(ex.notes.as_str(), notes) {
                ClipChange::Keep
            } else {
                ClipChange::Update
            }
        },
    }
}

fn contains_text(v: &Vec<String>, t: &str) -> (b: bool)
    ensures
        b == strings_view(v@).contains(t@),
{
    let ghost sv = strings_view(v@);
    let mut i: usize = 0;
    while i < v.len()
        invariant
            i <= v@.len(),
            sv == strings_view(v@),
            forall|j: int| 0 <= j < i ==> sv[j] != t@,
        decreases v@.len() - i,
    {
        if same_text(v[i].as_str(), t) {
            proof {
                assert(sv[i as int] == t@);
            }
            return true;
        }
        i = i + 1;
    }
    false
}

/// The catalogued paths in `cat` that are not in `seen`, each at its first
/// occurrence, in catalogue order.
pub open spec fn unseen_in_order(cat: Seq<Seq<char>>, seen: Seq<Seq<char>>) -> Seq<Seq<char>>
    decreases cat.len(),
{
    if cat.len() == 0 {
        Seq::empty()
    } else {
        let prev = unseen_in_order(cat.drop_last(), seen);
        if seen.contains(cat.last()) || prev.contains(cat.last()) {
            prev
        } else {
            prev.push(cat.last())
        }
    }
}

/// The catalogued paths that a walk of the library did not see: each once,
/// in catalogue order.
pub fn removed_paths(catalogued: &Vec<String>, seen: &Vec<String>) -> (out: Vec<String>)
    ensures
        strings_view(out@) == unseen_in_order(strings_view(catalogued@), strings_view(seen@)),
        strings_view(out@).no_duplicates(),
        strings_view(out@).to_set() == strings_view(catalogued@).to_set().difference(
            strings_view(seen@).to_set(),
        ),
{
    let ghost cv = strings_view(catalogued@);
    let ghost sv = strings_view(seen@);
    let mut out: Vec<String> = Vec::new();
    let mut i: usize = 0;
    while i < catalogued.len()
        invariant
            i <= catalogued@.len(),
            cv == strings_view(catalogued@),
            sv == strings_view(seen@),
            strings_view(out@).no_duplicates(),
            strings_view(out@).to_set() == cv.take(i as int).to_set().difference(sv.to_set()),
            strings_view(out@) == unseen_in_order(cv.take(i as int), sv),
        decreases catalogued@.len() - i,
    {
        let p = catalogued[i].as_str();
        let ghost ov = strings_view(out@);
        proof {
            assert(cv.take(i as int + 1) =~= cv.take(i as int).push(p@));
            cv.take(i as int).lemma_push_to_set_commute(p@);
            assert(cv[i as int] == p@);
            assert(cv.take(i as int + 1).drop_last() =~= cv.take(i as int));
        }
        if !contains_text(seen, p) && !contains_text(&out, p) {
            out.push(catalogued[i].clone());
            proof {
                assert(strings_view(out@) =~= ov.push(p@));
                ov.lemma_push_to_set_commute(p@);
                assert(strings_view(out@).to_set() =~= cv.take(i as int + 1).to_set().difference(
                    sv.to_set(),
                ));
            }
        } else {
            proof {
                if !sv.contains(p@) {
                    assert(ov.contains(p@));
                    assert(ov.to_set().contains(p@));
                }
                assert(strings_view(out@).to_set() =~= cv.take(i as int + 1).to_set().difference(
                    sv.to_set(),
                ));
            }
        }
        i = i + 1;
    }
    proof {
        assert(cv.take(catalogued@.len() as int) =~= cv);
    }
    out
}

// ── Reports ─────────────────────────────────────────────────────────────────

/// What a sync changed, by file name.
pub struct SyncReport {
    /// Files newly catalogued.
    pub files_added: Vec<String>,
    /// Files whose content changed.
    pub files_updated: Vec<String>,
    /// Files no longer on disk.
    pub files_removed: Vec<String>,
    /// Files whose sidecar brought new metadata or clips.
    pub sidecars_updated: Vec<String>,
}

/// `"<n> <word>"` when `n` is positive, nothing otherwise.
pub open spec fn count_part(n: nat, word: Seq<char>) -> Seq<Seq<char>> {
    if n > 0 {
        seq![decimal(n) + " "@ + word]
    } else {
        Seq::empty()
    }
}

/// The closing line of a sync: the non-zero counts in the order added,
/// updated, removed, sidecar, or a note that nothing changed.
pub open spec fn summary_text(added: nat, updated: nat, removed: nat, sidecars: nat) -> Seq<char> {
    let parts = count_part(added, "added"@) + count_part(updated, "updated"@) + count_part(
        removed,
        "removed"@,
    ) + count_part(sidecars, "sidecar"@);
    if parts.len() == 0 {
        "Done — nothing changed"@
    } else {
        "Done — "@ + joined_with(parts, ", "@)
    }
}

fn push_count(parts: &mut Vec<String>, n: usize, word: &str)
    ensures
        strings_view(final(parts)@) == strings_view(old(parts)@) + count_part(n as nat, word@),
{
    if n > 0 {
        let mut s = String::new();
        push_decimal(&mut s, n as u64);
        s.append(" ");
        s.append(word);
        parts.push(s);
        assert(strings_view(parts@) =~= strings_view(old(parts)@) + count_part(n as nat, word@));
    } else {
        assert(strings_view(parts@) =~= strings_view(old(parts)@) + count_part(n as nat, word@));
    }
}

impl SyncReport {
    /// The closing line printed after a sync (see `summary_text`).
    pub fn summary_line(&self) -> (s: String)
        ensures
            s@ == summary_text(
                self.files_added@.len(),
                self.files_updated@.len(),
                self.files_removed@.len(),
                self.sidecars_updated@.len(),
            ),
    {
        let mut parts: Vec<String> = Vec::new();
        push_count(&mut parts, self.files_added.len(), "added");
        push_count(&mut parts, self.files_updated.len(), "updated");
        push_count(&mut parts, self.files_removed.len(), "removed");
        push_count(&mut parts, self.sidecars_updated.len(), "sidecar");
        proof {
            assert(strings_view(parts@) =~= Seq::<Seq<char>>::empty() + count_part(
                self.files_added@.len(),
                "added"@,
            ) + count_part(self.files_updated@.len(), "updated"@) + count_part(
                self.files_removed@.len(),
                "removed"@,
            ) + count_part(self.sidecars_updated@.len(), "sidecar"@));
        }
        if parts.len() == 0 {
            String::from_str("Done — nothing changed")
        } else {
            let mut s = String::from_str("Done — ");
            let joined = join_with(&parts, ", ");
            s.append(joined.as_str());
            s
        }
    }
}

// ── Notes and tags ──────────────────────────────────────────────────────────

/// The notes and tags kept in a file's metadata row.
pub struct NotesTags {
    pub notes: String,
    pub tags: String,
}

/// The notes and tags a metadata row holds after an update: a given value
/// replaces the field, an absent one leaves it as it was; a row that did not
/// exist starts from empty notes and tags.
pub open spec fn notes_tags_after(
    existing: Option<(Seq<char>, Seq<char>)>,
    notes: Option<Seq<char>>,
    tags: Option<Seq<char>>,
) -> (Seq<char>, Seq<char>) {
    let before = match existing {
        Some(row) => row,
        None => (Seq::empty(), Seq::empty()),
    };
    (
        match notes {
            Some(n) => n,
            None => before.0,
        },
        match tags {
            Some(t) => t,
            None => before.1,
        },
    )
}

/// The notes and tags to write for a file (see `notes_tags_after`); the other
/// fields of an existing row are kept by the caller.
pub fn merge_notes_tags(existing: Option<&NotesTags>, notes: Option<&str>, tags: Option<&str>) -> (r:
    NotesTags)
    ensures
        (r.notes@, r.tags@) == notes_tags_after(
            match existing {
                Some(row) => Some((row.notes@, row.tags@)),
                None => None,
            },
            match notes {
                Some(n) => Some(n@),
                None => None,
            },
            match tags {
                Some(t) => Some(t@),
                None => None,
            },
        ),
{
    let new_notes = match notes {
        Some(n) => String::from_str(n),
        None => match existing {
            Some(row) => row.notes.clone(),
            None => String::new(),
        },
    };
    let new_tags = match tags {
        Some(t) => String::from_str(t),
        None => match existing {
            Some(row) => row.tags.clone(),
            None => String::new(),
        },
    };
    NotesTags { notes: new_notes, tags: new_tags }
}

/// Setting only the notes of a file leaves its tags as they were, and setting
/// only the tags leaves its notes.
pub proof fn law_setting_one_field_keeps_the_other(
    existing: Option<(Seq<char>, Seq<char>)>,
    value: Seq<char>,
)
    ensures
        notes_tags_after(existing, Some(value), None).0 == value,
        notes_tags_after(existing, Some(value), None).1 == notes_tags_after(
            existing,
            None,
            None,
        ).1,
        notes_tags_after(existing, None, Some(value)).1 == value,
        notes_tags_after(existing, None, Some(value)).0 == notes_tags_after(
            existing,
            None,
            None,
        ).0,
        existing is Some ==> notes_tags_after(existing, None, None) == existing->0,
{
}

/// The media types name the formats: `.mp3` files are `audio/mpeg`, `.flac`
/// files `audio/flac`, `.ogg` files `audio/ogg`, both `.aiff` and `.aif`
/// files `audio/aiff`, and every other file (`.wav`, or no extension at all)
/// `audio/wav`; two extensions share a type only within one of these groups.
pub proof fn law_media_type_names_the_format(e: Seq<char>, f: Seq<char>)
    ensures
        (mime_of(e) == "audio/mpeg"@) <==> e == "mp3"@,
        (mime_of(e) == "audio/flac"@) <==> e == "flac"@,
        (mime_of(e) == "audio/ogg"@) <==> e == "ogg"@,
        (mime_of(e) == "audio/aiff"@) <==> (e == "aiff"@ || e == "aif"@),
        (mime_of(e) == "audio/wav"@) <==> !(e == "mp3"@ || e == "flac"@ || e == "ogg"@ || e
            == "aiff"@ || e == "aif"@),
        audio_ext(e) && audio_ext(f) ==> ((mime_of(e) == mime_of(f)) <==> (e == f || ((e == "aiff"@
            || e == "aif"@) && (f == "aiff"@ || f == "aif"@)))),
{
    reveal_strlit("audio/mpeg");
    reveal_strlit("audio/flac");
    reveal_strlit("audio/ogg");
    reveal_strlit("audio/aiff");
    reveal_strlit("audio/wav");
    reveal_strlit("mp3");
    reveal_strlit("flac");
    reveal_strlit("ogg");
    reveal_strlit("aiff");
    reveal_strlit("aif");
    reveal_strlit("wav");
    assert("audio/mpeg"@[6] == 'm');
    assert("audio/flac"@[6] == 'f');
    assert("audio/ogg"@[6] == 'o');
    assert("audio/aiff"@[6] == 'a');
    assert("audio/wav"@[6] == 'w');
    assert("mp3"@[0] == 'm');
    assert("flac"@[0] == 'f');
    assert("ogg"@[0] == 'o');
    assert("aiff"@[0] == 'a');
    assert("aif"@[0] == 'a');
    assert("wav"@[0] == 'w');
}

/// The closing line of a sync says that nothing changed exactly when all
/// four counts are zero, and otherwise shows every positive count with its
/// word.
pub proof fn law_summary_reports_every_count(added: nat, updated: nat, removed: nat, sidecars: nat)
    ensures
        (summary_text(added, updated, removed, sidecars) == "Done — nothing changed"@) <==> (added
            == 0 && updated == 0 && removed == 0 && sidecars == 0),
        added > 0 ==> occurs_in(decimal(added) + " added"@, summary_text(added, updated, removed, sidecars)),
        updated > 0 ==> occurs_in(
            decimal(updated) + " updated"@,
            summary_text(added, updated, removed, sidecars),
        ),
        removed > 0 ==> occurs_in(
            decimal(removed) + " removed"@,
            summary_text(added, updated, removed, sidecars),
        ),
        sidecars > 0 ==> occurs_in(
            decimal(sidecars) + " sidecar"@,
            summary_text(added, updated, removed, sidecars),
        ),
{
    reveal_strlit("Done — nothing changed");
    reveal_strlit("Done — ");
    reveal_strlit(" ");
    reveal_strlit("added");
    reveal_strlit("updated");
    reveal_strlit("removed");
    reveal_strlit("sidecar");
    reveal_strlit(" added");
    reveal_strlit(" updated");
    reveal_strlit(" removed");
    reveal_strlit(" sidecar");
    let a = count_part(added, "added"@);
    let u = count_part(updated, "updated"@);
    let r = count_part(removed, "removed"@);
    let sc = count_part(sidecars, "sidecar"@);
    let parts = a + u + r + sc;
    let text = summary_text(added, updated, removed, sidecars);
    if parts.len() > 0 {
        let first = parts[0];
        assert(exists|n: nat, w: Seq<char>| n > 0 && first == decimal(n) + " "@ + w) by {
            if added > 0 {
                assert(first == decimal(added) + " "@ + "added"@);
            } else if updated > 0 {
                assert(first == decimal(updated) + " "@ + "updated"@);
            } else if removed > 0 {
                assert(first == decimal(removed) + " "@ + "removed"@);
            } else {
                assert(first == decimal(sidecars) + " "@ + "sidecar"@);
            }
        }
        let (n, w) = choose|n: nat, w: Seq<char>| n > 0 && first == decimal(n) + " "@ + w;
        lemma_decimal_starts_with_digit(n);
        assert(first[0] == decimal(n)[0]);
        lemma_joined_starts_with_first(parts, ", "@);
        let j = joined_with(parts, ", "@);
        assert(text == "Done — "@ + j);
        assert(text[7] == j[0]);
        assert("Done — nothing changed"@[7] == 'n');
        assert(text != "Done — nothing changed"@);
        let pre = "Done — "@;
        let post = Seq::<char>::empty();
        assert(text =~= pre + j + post);
        if added > 0 {
            assert(decimal(added) + " "@ + "added"@ =~= decimal(added) + " added"@);
            assert(parts[0] == decimal(added) + " added"@);
            lemma_part_occurs_in_join(parts, ", "@, 0);
            lemma_occurs_in_context(parts[0], j, pre, post);
        }
        if updated > 0 {
            let i = a.len() as int;
            assert(decimal(updated) + " "@ + "updated"@ =~= decimal(updated) + " updated"@);
            assert(parts[i] == decimal(updated) + " updated"@);
            lemma_part_occurs_in_join(parts, ", "@, i);
            lemma_occurs_in_context(parts[i], j, pre, post);
        }
        if removed > 0 {
            let i = (a.len() + u.len()) as int;
            assert(decimal(removed) + " "@ + "removed"@ =~= decimal(removed) + " removed"@);
            assert(parts[i] == decimal(removed) + " removed"@);
            lemma_part_occurs_in_join(parts, ", "@, i);
            lemma_occurs_in_context(parts[i], j, pre, post);
        }
        if sidecars > 0 {
            let i = (a.len() + u.len() + r.len()) as int;
            assert(decimal(sidecars) + " "@ + "sidecar"@ =~= decimal(sidecars) + " sidecar"@);
            assert(parts[i] == decimal(sidecars) + " sidecar"@);
            lemma_part_occurs_in_join(parts, ", "@, i);
            lemma_occurs_in_context(parts[i], j, pre, post);
        }
    }
}

} // verus!
