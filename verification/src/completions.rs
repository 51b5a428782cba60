//! Shell completion scripts with slug completion.
//!
//! The command-line parser generates a completion function for each shell.
//! These scripts wrap it: at argument positions that take a slug (a file,
//! clip, collection or preset name) they ask the program for the current
//! slugs instead.  A registry says which positions take which slug kinds;
//! positions are keyed `command::index` or `command::subcommand::index`.

use vstd::prelude::*;

use crate::text::{
    decimal, join_with, joined_with, lemma_occurs_in_context, lemma_part_occurs_in_join, occurs_in,
    push_decimal, replace_all, replaced, same_text, sorted_unique, split_commas, split_on_commas,
    strictly_sorted, strings_view, trim_text, trimmed,
};

verus! {

/// Text of the zsh helper before the slug-position case arms.
pub const ZSH_HEAD: &'static str = r#"
# Slug completion helper — queries musicum at tab-press time.
__musicum_slug() {
  local completions
  completions=(${(f)"$(musicum _complete-slugs --type "$1" 2>/dev/null)"})
  compadd -a completions
}

_musicum() {
    local cur="${words[CURRENT]}"

    # Collect non-flag words to find the subcommand path and positional index.
    # Skip --library <value> (the only global flag that consumes a value).
    local -a _subcmds=()
    local -i _pos=0 _i _skip=0
    for (( _i=2; _i<CURRENT; _i++ )); do
        local _w="${words[${_i}]}"
        if (( _skip )); then _skip=0; continue; fi
        if [[ "$_w" == "--library" ]]; then _skip=1; continue; fi
        if [[ "$_w" == -* ]]; then continue; fi
        if (( ${#_subcmds} < 2 )); then _subcmds+=("$_w")
        else (( _pos++ )); fi
    done

    local _key="${_subcmds[1]:-}${_subcmds[2]:+::${_subcmds[2]}}::${_pos}"
    local slug_type=""
    case "$_key" in
"#;

/// Text of the zsh helper after the slug-position case arms.
pub const ZSH_TAIL: &'static str = r#"
    esac

    if [[ -n "$slug_type" ]]; then
        __musicum_slug "$slug_type"
    else
        _musicum_clap "$@"
    fi
}
compdef _musicum musicum
"#;

/// Text of the bash helper before the slug-position case arms.
pub const BASH_HEAD: &'static str = r#"
# Detects which slug type (if any) should complete at the current cursor position.
# Call with: __musicum_detect_slug_type "${COMP_WORDS[@]}" "$COMP_CWORD"
__musicum_detect_slug_type() {
    local -a words=("${@:1:$#-1}")
    local cword="${!#}"

    # Walk words before the cursor; collect non-flag positionals (skip binary at [0]).
    # --library is the only global flag that consumes a value; skip its value.
    local subcmd1="" subcmd2=""
    local -i pos=0 i skip=0
    for (( i=1; i<cword; i++ )); do
        local w="${words[$i]}"
        if [[ $skip -eq 1 ]]; then skip=0; continue; fi
        if [[ "$w" == "--library" ]]; then skip=1; continue; fi
        if [[ "$w" == -* ]]; then continue; fi
        if   [[ -z "$subcmd1" ]]; then subcmd1="$w"
        elif [[ -z "$subcmd2" ]]; then subcmd2="$w"
        else (( pos++ )); fi
    done

    local key="${subcmd1}${subcmd2:+::${subcmd2}}::${pos}"
    case "$key" in
"#;

/// Text of the bash helper after the slug-position case arms.
pub const BASH_TAIL: &'static str = r#"
    esac
}

_musicum() {
    local cur="${COMP_WORDS[COMP_CWORD]}"
    local slug_type
    slug_type=$(__musicum_detect_slug_type "${COMP_WORDS[@]}" "$COMP_CWORD")
    if [[ -n "$slug_type" ]]; then
        local IFS=$'\n'
        COMPREPLY=($(compgen -W "$(musicum _complete-slugs --type "$slug_type" 2>/dev/null)" -- "$cur"))
    else
        _musicum_static "$@"
    fi
}
complete -F _musicum musicum
"#;

/// One argument position that completes slugs.
pub struct SlugCompletion {
    /// Subcommand words, e.g. `["clips", "show"]` or `["play"]`.
    pub path: Vec<&'static str>,
    /// 0-based index of the positional argument within the subcommand.
    pub arg_index: usize,
    /// Comma-separated slug kinds to offer.
    pub types: &'static str,
}

/// The view of a registry entry: path words, argument index, slug kinds.
pub open spec fn entry_view(e: SlugCompletion) -> (Seq<Seq<char>>, nat, Seq<char>) {
    (e.path@.map_values(|w: &str| w@), e.arg_index as nat, e.types@)
}

/// The views of a registry.
pub open spec fn registry_view(s: Seq<SlugCompletion>) -> Seq<(Seq<Seq<char>>, nat, Seq<char>)> {
    s.map_values(|e: SlugCompletion| entry_view(e))
}

/// Every entry names at least one subcommand word.
pub open spec fn registry_well_formed(s: Seq<(Seq<Seq<char>>, nat, Seq<char>)>) -> bool {
    forall|i: int| 0 <= i < s.len() ==> (#[trigger] s[i]).0.len() >= 1
}

/// The positions of the command line that complete slugs.
pub open spec fn slug_table() -> Seq<(Seq<Seq<char>>, nat, Seq<char>)> {
    seq![
        (seq!["play"@], 0nat, "file,clip,collection"@),
        (seq!["clips"@, "list"@], 0nat, "file"@),
        (seq!["clips"@, "show"@], 0nat, "clip"@),
        (seq!["clips"@, "create"@], 0nat, "file"@),
        (seq!["clips"@, "apply-preset"@], 0nat, "clip"@),
        (seq!["clips"@, "apply-preset"@], 1nat, "preset"@),
        (seq!["clips"@, "clear-processors"@], 0nat, "clip"@),
        (seq!["clips"@, "edit"@], 0nat, "clip"@),
        (seq!["clips"@, "set-notes"@], 0nat, "clip"@),
        (seq!["clips"@, "delete"@], 0nat, "clip"@),
        (seq!["collections"@, "show"@], 0nat, "collection"@),
        (seq!["collections"@, "set-description"@], 0nat, "collection"@),
        (seq!["collections"@, "delete"@], 0nat, "collection"@),
        (seq!["collections"@, "add-clip"@], 0nat, "collection"@),
        (seq!["collections"@, "add-clip"@], 1nat, "clip"@),
        (seq!["collections"@, "remove-clip"@], 0nat, "collection"@),
        (seq!["collections"@, "remove-clip"@], 1nat, "clip"@),
        (seq!["presets"@, "show"@], 0nat, "preset"@),
        (seq!["presets"@, "delete"@], 0nat, "preset"@),
        (seq!["presets"@, "edit"@], 0nat, "preset"@),
        (seq!["presets"@, "add-processor"@], 0nat, "preset"@),
        (seq!["presets"@, "remove-processor"@], 0nat, "preset"@),
        (seq!["files"@, "show"@], 0nat, "file"@),
        (seq!["export"@], 0nat, "file,clip"@),
    ]
}

/// The key of a position: `command::index` for a one-word path, else
/// `command::subcommand::index` from its first two words.
pub open spec fn slug_key(path: Seq<Seq<char>>, idx: nat) -> Seq<char> {
    if path.len() == 1 {
        path[0] + "::"@ + decimal(idx)
    } else {
        path[0] + "::"@ + path[1] + "::"@ + decimal(idx)
    }
}

/// The bash case arm of a position: echoes its slug kinds.
pub open spec fn bash_arm(e: (Seq<Seq<char>>, nat, Seq<char>)) -> Seq<char> {
    "        \""@ + slug_key(e.0, e.1) + "\") echo \""@ + e.2 + "\" ;;"@
}

/// The zsh case arm of a position: sets the slug kinds to complete.
pub open spec fn zsh_arm(e: (Seq<Seq<char>>, nat, Seq<char>)) -> Seq<char> {
    "        \""@ + slug_key(e.0, e.1) + "\") slug_type=\""@ + e.2 + "\" ;;"@
}

/// The zsh script: the helper around the arms of every registry entry, one
/// per line.
pub open spec fn zsh_script(reg: Seq<(Seq<Seq<char>>, nat, Seq<char>)>) -> Seq<char> {
    ZSH_HEAD@ + joined_with(reg.map_values(|e: (Seq<Seq<char>>, nat, Seq<char>)| zsh_arm(e)), "\n"@)
        + ZSH_TAIL@
}

/// The bash script: the helper around the arms of every registry entry, one
/// per line.
pub open spec fn bash_script(reg: Seq<(Seq<Seq<char>>, nat, Seq<char>)>) -> Seq<char> {
    BASH_HEAD@ + joined_with(reg.map_values(|e: (Seq<Seq<char>>, nat, Seq<char>)| bash_arm(e)), "\n"@)
        + BASH_TAIL@
}

fn push_entry(v: &mut Vec<SlugCompletion>, path: Vec<&'static str>, arg_index: usize, types: &'static str)
    ensures
        registry_view(final(v)@) == registry_view(old(v)@).push(
            (path@.map_values(|w: &str| w@), arg_index as nat, types@),
        ),
{
    let e = SlugCompletion { path, arg_index, types };
    v.push(e);
    assert(registry_view(v@) =~= registry_view(old(v)@).push(entry_view(e)));
}

/// The registry of slug positions (see `slug_table`).
pub fn slug_completions() -> (v: Vec<SlugCompletion>)
    ensures
        registry_view(v@) == slug_table(),
{
    let mut v: Vec<SlugCompletion> = Vec::new();
    push_entry(&mut v, vec!["play"], 0, "file,clip,collection");
    push_entry(&mut v, vec!["clips", "list"], 0, "file");
    push_entry(&mut v, vec!["clips", "show"], 0, "clip");
    push_entry(&mut v, vec!["clips", "create"], 0, "file");
    push_entry(&mut v, vec!["clips", "apply-preset"], 0, "clip");
    push_entry(&mut v, vec!["clips", "apply-preset"], 1, "preset");
    push_entry(&mut v, vec!["clips", "clear-processors"], 0, "clip");
    push_entry(&mut v, vec!["clips", "edit"], 0, "clip");
    push_entry(&mut v, vec!["clips", "set-notes"], 0, "clip");
    push_entry(&mut v, vec!["clips", "delete"], 0, "clip");
    push_entry(&mut v, vec!["collections", "show"], 0, "collection");
    push_entry(&mut v, vec!["collections", "set-description"], 0, "collection");
    push_entry(&mut v, vec!["collections", "delete"], 0, "collection");
    push_entry(&mut v, vec!["collections", "add-clip"], 0, "collection");
    push_entry(&mut v, vec!["collections", "add-clip"], 1, "clip");
    push_entry(&mut v, vec!["collections", "remove-clip"], 0, "collection");
    push_entry(&mut v, vec!["collections", "remove-clip"], 1, "clip");
    push_entry(&mut v, vec!["presets", "show"], 0, "preset");
    push_entry(&mut v, vec!["presets", "delete"], 0, "preset");
    push_entry(&mut v, vec!["presets", "edit"], 0, "preset");
    push_entry(&mut v, vec!["presets", "add-processor"], 0, "preset");
    push_entry(&mut v, vec!["presets", "remove-processor"], 0, "preset");
    push_entry(&mut v, vec!["files", "show"], 0, "file");
    push_entry(&mut v, vec!["export"], 0, "file,clip");
    assert(registry_view(v@) =~~= slug_table());
    v
}

fn push_key(out: &mut String, path: &Vec<&'static str>, idx: usize)
    requires
        path@.len() >= 1,
    ensures
        final(out)@ == old(out)@ + slug_key(path@.map_values(|w: &str| w@), idx as nat),
{
    let ghost pv = path@.map_values(|w: &str| w@);
    out.append(path[0]);
    out.append("::");
    if path.len() != 1 {
        out.append(path[1]);
        out.append("::");
    }
    push_decimal(out, idx as u64);
    proof {
        assert(pv[0] == path@[0]@);
        if path@.len() != 1 {
            assert(pv[1] == path@[1]@);
        }
    }
}

/// The key of a registry entry (see `slug_key`).
pub fn slug_key_of(entry: &SlugCompletion) -> (k: String)
    requires
        entry.path@.len() >= 1,
    ensures
        k@ == slug_key(entry_view(*entry).0, entry_view(*entry).1),
{
    let mut k = String::new();
    push_key(&mut k, &entry.path, entry.arg_index);
    assert(k@ =~= slug_key(entry_view(*entry).0, entry_view(*entry).1));
    k
}

/// The bash case arm of a registry entry (see `bash_arm`).
pub fn bash_slug_case_arm(entry: &SlugCompletion) -> (s: String)
    requires
        entry.path@.len() >= 1,
    ensures
        s@ == bash_arm(entry_view(*entry)),
{
    let mut s = String::from_str("        \"");
    push_key(&mut s, &entry.path, entry.arg_index);
    s.append("\") echo \"");
    s.append(entry.types);
    s.append("\" ;;");
    s
}

/// The zsh case arm of a registry entry (see `zsh_arm`).
pub fn zsh_slug_case_arm(entry: &SlugCompletion) -> (s: String)
    requires
        entry.path@.len() >= 1,
    ensures
        s@ == zsh_arm(entry_view(*entry)),
{
    let mut s = String::from_str("        \"");
    push_key(&mut s, &entry.path, entry.arg_index);
    s.append("\") slug_type=\"");
    s.append(entry.types);
    s.append("\" ;;");
    s
}

/// The zsh completion helper for a registry (see `zsh_script`).
pub fn zsh_slug_augmentation(registry: &Vec<SlugCompletion>) -> (s: String)
    requires
        registry_well_formed(registry_view(registry@)),
    ensures
        s@ == zsh_script(registry_view(registry@)),
{
    let ghost rv = registry_view(registry@);
    let mut arms: Vec<String> = Vec::new();
    let mut i: usize = 0;
    while i < registry.len()
        invariant
            i <= registry@.len(),
            rv == registry_view(registry@),
            registry_well_formed(rv),
            strings_view(arms@) == rv.take(i as int).map_values(
                |e: (Seq<Seq<char>>, nat, Seq<char>)| zsh_arm(e),
            ),
        decreases registry@.len() - i,
    {
        proof {
            assert(rv[i as int] == entry_view(registry@[i as int]));
            assert(rv[i as int].0.len() >= 1);
        }
        let arm = zsh_slug_case_arm(&registry[i]);
        let ghost before = strings_view(arms@);
        arms.push(arm);
        proof {
            assert(strings_view(arms@) =~= before.push(arm@));
            assert(rv.take(i as int + 1).map_values(|e: (Seq<Seq<char>>, nat, Seq<char>)| zsh_arm(e))
                =~= rv.take(i as int).map_values(|e: (Seq<Seq<char>>, nat, Seq<char>)| zsh_arm(e)).push(
                zsh_arm(rv[i as int]),
            ));
        }
        i = i + 1;
    }
    proof {
        assert(rv.take(registry@.len() as int) =~= rv);
    }
    let mut s = String::from_str(ZSH_HEAD);
    let body = join_with(&arms, "\n");
    s.append(body.as_str());
    s.append(ZSH_TAIL);
    s
}

/// The bash completion helper for a registry (see `bash_script`).
pub fn bash_slug_augmentation(registry: &Vec<SlugCompletion>) -> (s: String)
    requires
        registry_well_formed(registry_view(registry@)),
    ensures
        s@ == bash_script(registry_view(registry@)),
{
    let ghost rv = registry_view(registry@);
    let mut arms: Vec<String> = Vec::new();
    let mut i: usize = 0;
    while i < registry.len()
        invariant
            i <= registry@.len(),
            rv == registry_view(registry@),
            registry_well_formed(rv),
            strings_view(arms@) == rv.take(i as int).map_values(
                |e: (Seq<Seq<char>>, nat, Seq<char>)| bash_arm(e),
            ),
        decreases registry@.len() - i,
    {
        proof {
            assert(rv[i as int] == entry_view(registry@[i as int]));
            assert(rv[i as int].0.len() >= 1);
        }
        let arm = bash_slug_case_arm(&registry[i]);
        let ghost before = strings_view(arms@);
        arms.push(arm);
        proof {
            assert(strings_view(arms@) =~= before.push(arm@));
            assert(rv.take(i as int + 1).map_values(|e: (Seq<Seq<char>>, nat, Seq<char>)| bash_arm(e))
                =~= rv.take(i as int).map_values(|e: (Seq<Seq<char>>, nat, Seq<char>)| bash_arm(e)).push(
                bash_arm(rv[i as int]),
            ));
        }
        i = i + 1;
    }
    proof {
        assert(rv.take(registry@.len() as int) =~= rv);
    }
    let mut s = String::from_str(BASH_HEAD);
    let body = join_with(&arms, "\n");
    s.append(body.as_str());
    s.append(BASH_TAIL);
    s
}

// ── Slug listings ───────────────────────────────────────────────────────────

/// Every slug position of a registry has its case arm in both scripts.
pub proof fn law_every_position_has_an_arm(reg: Seq<(Seq<Seq<char>>, nat, Seq<char>)>, i: int)
    requires
        0 <= i < reg.len(),
    ensures
        occurs_in(zsh_arm(reg[i]), zsh_script(reg)),
        occurs_in(bash_arm(reg[i]), bash_script(reg)),
{
    let za = reg.map_values(|e: (Seq<Seq<char>>, nat, Seq<char>)| zsh_arm(e));
    let ba = reg.map_values(|e: (Seq<Seq<char>>, nat, Seq<char>)| bash_arm(e));
    assert(za[i] == zsh_arm(reg[i]));
    assert(ba[i] == bash_arm(reg[i]));
    lemma_part_occurs_in_join(za, "\n"@, i);
    lemma_part_occurs_in_join(ba, "\n"@, i);
    lemma_occurs_in_context(zsh_arm(reg[i]), joined_with(za, "\n"@), ZSH_HEAD@, ZSH_TAIL@);
    lemma_occurs_in_context(bash_arm(reg[i]), joined_with(ba, "\n"@), BASH_HEAD@, BASH_TAIL@);
}

/// The zsh completion file: the script that clap generates, with its entry
/// function renamed so that the slug-aware wrapper can call it, followed by
/// the slug helper.
pub fn zsh_completion_file(clap_out: &str, registry: &Vec<SlugCompletion>) -> (s: String)
    requires
        registry_well_formed(registry_view(registry@)),
    ensures
        s@ == replaced(clap_out@, "_musicum() {"@, "_musicum_clap() {"@) + zsh_script(
            registry_view(registry@),
        ),
{
    proof {
        reveal_strlit("_musicum() {");
    }
    let mut s = replace_all(clap_out, "_musicum() {", "_musicum_clap() {");
    let helper = zsh_slug_augmentation(registry);
    s.append(helper.as_str());
    s
}

/// The bash completion file: the script that clap generates, with its entry
/// function renamed and its registration commented out (the wrapper
/// registers itself), followed by the slug helper.
pub fn bash_completion_file(clap_out: &str, registry: &Vec<SlugCompletion>) -> (s: String)
    requires
        registry_well_formed(registry_view(registry@)),
    ensures
        s@ == replaced(
            replaced(clap_out@, "_musicum() {"@, "_musicum_static() {"@),
            "complete -F _musicum musicum"@,
            "# (re-registered below)"@,
        ) + bash_script(registry_view(registry@)),
{
    proof {
        reveal_strlit("_musicum() {");
        reveal_strlit("complete -F _musicum musicum");
    }
    let renamed = replace_all(clap_out, "_musicum() {", "_musicum_static() {");
    let mut s = replace_all(
        renamed.as_str(),
        "complete -F _musicum musicum",
        "# (re-registered below)",
    );
    let helper = bash_slug_augmentation(registry);
    s.append(helper.as_str());
    s
}

/// A shell that completion files are written for.
#[derive(PartialEq, Eq, Structural, Clone, Copy)]
pub enum ShellKind {
    Zsh,
    Bash,
}

/// The shell named on the command line, or the message refusing any other
/// name.
pub fn shell_named(name: &str) -> (r: Result<ShellKind, String>)
    ensures
        name@ == "zsh"@ ==> r == Ok::<ShellKind, String>(ShellKind::Zsh),
        name@ == "bash"@ ==> r == Ok::<ShellKind, String>(ShellKind::Bash),
        name@ != "zsh"@ && name@ != "bash"@ ==> (r matches Err(m) && m@ == "unsupported shell: "@
            + name@ + "; choose zsh or bash"@),
{
    proof {
        reveal_strlit("zsh");
        reveal_strlit("bash");
        assert("zsh"@.len() != "bash"@.len());
    }
    if same_text(name, "zsh") {
        Ok(ShellKind::Zsh)
    } else if same_text(name, "bash") {
        Ok(ShellKind::Bash)
    } else {
        let mut m = String::from_str("unsupported shell: ");
        m.append(name);
        m.append("; choose zsh or bash");
        Err(m)
    }
}

// ── Slug listing ────────────────────────────────────────────────────────────

/// A kind of catalogued item whose slugs can be listed.
#[derive(PartialEq, Eq, Structural, Clone, Copy)]
pub enum SlugKind {
    File,
    Clip,
    Collection,
    Preset,
}

/// The kind a (trimmed) name asks for, if it is one of the four.
pub open spec fn kind_named(t: Seq<char>) -> Option<SlugKind> {
    if t == "file"@ {
        Some(SlugKind::File)
    } else if t == "clip"@ {
        Some(SlugKind::Clip)
    } else if t == "collection"@ {
        Some(SlugKind::Collection)
    } else if t == "preset"@ {
        Some(SlugKind::Preset)
    } else {
        None
    }
}

/// One comma-separated piece of a kinds argument: its trimmed text and the
/// kind it names, if any.
pub struct KindRequest {
    pub kind: Option<SlugKind>,
    pub text: String,
}

/// The requests as (kind, text) pairs.
pub open spec fn requests_view(v: Seq<KindRequest>) -> Seq<(Option<SlugKind>, Seq<char>)> {
    v.map_values(|r: KindRequest| (r.kind, r.text@))
}

/// What a kinds argument asks for: each comma-separated piece, trimmed, and
/// the kind it names.
pub open spec fn kind_requests(types: Seq<char>) -> Seq<(Option<SlugKind>, Seq<char>)> {
    split_commas(types).map_values(|p: Seq<char>| (kind_named(trimmed(p)), trimmed(p)))
}

fn kind_of_text(t: &str) -> (k: Option<SlugKind>)
    ensures
        k == kind_named(t@),
{
    if same_text(t, "file") {
        Some(SlugKind::File)
    } else if same_text(t, "clip") {
        Some(SlugKind::Clip)
    } else if same_text(t, "collection") {
        Some(SlugKind::Collection)
    } else if same_text(t, "preset") {
        Some(SlugKind::Preset)
    } else {
        None
    }
}

/// Reads a comma-separated list of slug kinds (see `kind_requests`).
pub fn parse_kinds(types: &str) -> (out: Vec<KindRequest>)
    ensures
        requests_view(out@) == kind_requests(types@),
{
    let pieces = split_on_commas(types);
    let mut out: Vec<KindRequest> = Vec::new();
    let mut i: usize = 0;
    while i < pieces.len()
        invariant
            i <= pieces@.len(),
            strings_view(pieces@) == split_commas(types@),
            requests_view(out@) == kind_requests(types@).take(i as int),
        decreases pieces@.len() - i,
    {
        let text = trim_text(pieces[i].as_str());
        let kind = kind_of_text(text.as_str());
        proof {
            assert(strings_view(pieces@)[i as int] == pieces@[i as int]@);
        }
        let ghost prev = out@;
        out.push(KindRequest { kind, text });
        proof {
            let p = split_commas(types@)[i as int];
            assert(p == pieces@[i as int]@);
            assert(kind_requests(types@)[i as int] == (kind_named(trimmed(p)), trimmed(p)));
            assert(requests_view(out@) =~= requests_view(prev).push(
                (out@[i as int].kind, out@[i as int].text@),
            ));
            assert(requests_view(out@) =~= kind_requests(types@).take(i as int + 1));
        }
        i = i + 1;
    }
    assert(kind_requests(types@).take(pieces@.len() as int) =~= kind_requests(types@));
    out
}

/// The slugs listed for a kind.
pub open spec fn slugs_of_kind(
    k: SlugKind,
    files: Seq<Seq<char>>,
    clips: Seq<Seq<char>>,
    collections: Seq<Seq<char>>,
    presets: Seq<Seq<char>>,
) -> Seq<Seq<char>> {
    match k {
        SlugKind::File => files,
        SlugKind::Clip => clips,
        SlugKind::Collection => collections,
        SlugKind::Preset => presets,
    }
}

/// The slugs of every kind that some request names.
pub open spec fn requested_slugs(
    reqs: Seq<(Option<SlugKind>, Seq<char>)>,
    files: Seq<Seq<char>>,
    clips: Seq<Seq<char>>,
    collections: Seq<Seq<char>>,
    presets: Seq<Seq<char>>,
) -> Set<Seq<char>> {
    Set::new(
        |x: Seq<char>|
            exists|i: int|
                0 <= i < reqs.len() && (#[trigger] reqs[i]).0 is Some && slugs_of_kind(
                    reqs[i].0->0,
                    files,
                    clips,
                    collections,
                    presets,
                ).contains(x),
    )
}

/// A warning for each request that names no kind, in order.
pub open spec fn unknown_kind_warnings(reqs: Seq<(Option<SlugKind>, Seq<char>)>) -> Seq<Seq<char>>
    decreases reqs.len(),
{
    if reqs.len() == 0 {
        Seq::empty()
    } else {
        let prev = unknown_kind_warnings(reqs.drop_last());
        if reqs.last().0 is None {
            prev.push("unknown slug type: "@ + reqs.last().1)
        } else {
            prev
        }
    }
}

fn slugs_for<'a>(
    k: SlugKind,
    files: &'a Vec<String>,
    clips: &'a Vec<String>,
    collections: &'a Vec<String>,
    presets: &'a Vec<String>,
) -> (v: &'a Vec<String>)
    ensures
        strings_view(v@) == slugs_of_kind(
            k,
            strings_view(files@),
            strings_view(clips@),
            strings_view(collections@),
            strings_view(presets@),
        ),
{
    match k {
        SlugKind::File => files,
        SlugKind::Clip => clips,
        SlugKind::Collection => collections,
        SlugKind::Preset => presets,
    }
}

/// The slugs offered for completion of the kinds in `types`, given the slugs
/// of each kind in the catalogue: every slug of a named kind, sorted and
/// each once; and a warning for each piece that names no kind.
pub fn complete_slugs(
    types: &str,
    files: &Vec<String>,
    clips: &Vec<String>,
    collections: &Vec<String>,
    presets: &Vec<String>,
) -> (r: (Vec<String>, Vec<String>))
    ensures
        strictly_sorted(strings_view(r.0@)),
        strings_view(r.0@).to_set() == requested_slugs(
            kind_requests(types@),
            strings_view(files@),
            strings_view(clips@),
            strings_view(collections@),
            strings_view(presets@),
        ),
        strings_view(r.1@) == unknown_kind_warnings(kind_requests(types@)),
{
    let ghost fv = strings_view(files@);
    let ghost cv = strings_view(clips@);
    let ghost ov = strings_view(collections@);
    let ghost pv = strings_view(presets@);
    let reqs = parse_kinds(types);
    let ghost rq = requests_view(reqs@);
    let mut pool: Vec<String> = Vec::new();
    let mut warnings: Vec<String> = Vec::new();
    let mut i: usize = 0;
    while i < reqs.len()
        invariant
            i <= reqs@.len(),
            rq == requests_view(reqs@),
            fv == strings_view(files@),
            cv == strings_view(clips@),
            ov == strings_view(collections@),
            pv == strings_view(presets@),
            strings_view(pool@).to_set() == requested_slugs(rq.take(i as int), fv, cv, ov, pv),
            strings_view(warnings@) == unknown_kind_warnings(rq.take(i as int)),
        decreases reqs@.len() - i,
    {
        let ghost before = rq.take(i as int);
        let ghost after = rq.take(i as int + 1);
        let ghost old_pool = strings_view(pool@).to_set();
        proof {
            assert(after.drop_last() =~= before);
            assert(after.last() == rq[i as int]);
            assert(rq[i as int] == (reqs@[i as int].kind, reqs@[i as int].text@));
        }
        match reqs[i].kind {
            None => {
                let mut w = String::from_str("unknown slug type: ");
                w.append(reqs[i].text.as_str());
                warnings.push(w);
                proof {
                    assert(strings_view(warnings@) =~= unknown_kind_warnings(before).push(
                        "unknown slug type: "@ + rq[i as int].1,
                    ));
                    assert forall|x: Seq<char>|
                        requested_slugs(after, fv, cv, ov, pv).contains(x)
                            == requested_slugs(before, fv, cv, ov, pv).contains(x) by {
                        if requested_slugs(after, fv, cv, ov, pv).contains(x) {
                            let j = choose|j: int|
                                0 <= j < after.len() && (#[trigger] after[j]).0 is Some
                                    && slugs_of_kind(after[j].0->0, fv, cv, ov, pv).contains(x);
                            assert(before[j] == after[j]);
                        }
                        if requested_slugs(before, fv, cv, ov, pv).contains(x) {
                            let j = choose|j: int|
                                0 <= j < before.len() && (#[trigger] before[j]).0 is Some
                                    && slugs_of_kind(before[j].0->0, fv, cv, ov, pv).contains(x);
                            assert(after[j] == before[j]);
                        }
                    }
                    assert(requested_slugs(after, fv, cv, ov, pv) =~= requested_slugs(
                        before,
                        fv,
                        cv,
                        ov,
                        pv,
                    ));
                }
            },
            Some(k) => {
                let list = slugs_for(k, files, clips, collections, presets);
                let ghost lv = strings_view(list@);
                let mut j: usize = 0;
                while j < list.len()
                    invariant
                        j <= list@.len(),
                        lv == strings_view(list@),
                        strings_view(pool@).to_set() == old_pool + lv.take(j as int).to_set(),
                    decreases list@.len() - j,
                {
                    let ghost pre = strings_view(pool@);
                    pool.push(list[j].clone());
                    proof {
                        assert(strings_view(pool@) =~= pre.push(lv[j as int]));
                        pre.lemma_push_to_set_commute(lv[j as int]);
                        assert(lv.take(j as int + 1) =~= lv.take(j as int).push(lv[j as int]));
                        lv.take(j as int).lemma_push_to_set_commute(lv[j as int]);
                        assert(strings_view(pool@).to_set() =~= old_pool + lv.take(j as int
                            + 1).to_set());
                    }
                    j = j + 1;
                }
                proof {
                    assert(lv.take(lv.len() as int) =~= lv);
                    assert(unknown_kind_warnings(after) == unknown_kind_warnings(before));
                    assert forall|x: Seq<char>|
                        requested_slugs(after, fv, cv, ov, pv).contains(x) == (requested_slugs(
                            before,
                            fv,
                            cv,
                            ov,
                            pv,
                        ).contains(x) || lv.contains(x)) by {
                        if requested_slugs(after, fv, cv, ov, pv).contains(x) {
                            let m = choose|m: int|
                                0 <= m < after.len() && (#[trigger] after[m]).0 is Some
                                    && slugs_of_kind(after[m].0->0, fv, cv, ov, pv).contains(x);
                            if m < before.len() {
                                assert(before[m] == after[m]);
                            }
                        }
                        if requested_slugs(before, fv, cv, ov, pv).contains(x) {
                            let m = choose|m: int|
                                0 <= m < before.len() && (#[trigger] before[m]).0 is Some
                                    && slugs_of_kind(before[m].0->0, fv, cv, ov, pv).contains(x);
                            assert(after[m] == before[m]);
                        }
                        if lv.contains(x) {
                            assert(after[i as int] == rq[i as int]);
                        }
                    }
                    assert(strings_view(pool@).to_set() =~= requested_slugs(
                        after,
                        fv,
                        cv,
                        ov,
                        pv,
                    ));
                }
            },
        }
        i = i + 1;
    }
    proof {
        assert(rq.take(reqs@.len() as int) =~= rq);
    }
    let slugs = sorted_unique(&pool);
    (slugs, warnings)
}

/// The slug kind of each registered argument is the kind that argument
/// names: every argument of a `presets` command is a preset and that of
/// `files show` a file; the first argument of a `collections` command is a
/// collection and its second (the clip added or removed) a clip; the first
/// argument of a `clips` command is a clip, except for `list` and `create`,
/// which take the file the clips belong to, and the second (of
/// `apply-preset`) is a preset; `play` takes a file, clip or collection and
/// `export` a file or clip.  Every two-argument command has both positions
/// registered.
pub proof fn law_registry_kinds_match_arguments()
    ensures
        forall|i: int|
            0 <= i < slug_table().len() ==> {
                let (path, idx, kinds) = #[trigger] slug_table()[i];
                &&& path[0] == "presets"@ ==> kinds == "preset"@
                &&& path[0] == "files"@ ==> kinds == "file"@
                &&& path[0] == "collections"@ ==> kinds == (if idx == 0 {
                    "collection"@
                } else {
                    "clip"@
                })
                &&& path[0] == "clips"@ && idx == 1 ==> kinds == "preset"@
                &&& path[0] == "clips"@ && idx == 0 ==> kinds == (if path[1] == "list"@ || path[1]
                    == "create"@ {
                    "file"@
                } else {
                    "clip"@
                })
                &&& path[0] == "play"@ ==> kinds == "file,clip,collection"@
                &&& path[0] == "export"@ ==> kinds == "file,clip"@
            },
        exists|i: int|
            0 <= i < slug_table().len() && #[trigger] slug_table()[i] == (
                seq!["clips"@, "apply-preset"@],
                1nat,
                "preset"@,
            ),
        exists|i: int|
            0 <= i < slug_table().len() && #[trigger] slug_table()[i] == (
                seq!["collections"@, "add-clip"@],
                1nat,
                "clip"@,
            ),
        exists|i: int|
            0 <= i < slug_table().len() && #[trigger] slug_table()[i] == (
                seq!["collections"@, "remove-clip"@],
                1nat,
                "clip"@,
            ),
{
    reveal_strlit("presets");
    reveal_strlit("files");
    reveal_strlit("collections");
    reveal_strlit("clips");
    reveal_strlit("play");
    reveal_strlit("export");
    reveal_strlit("list");
    reveal_strlit("create");
    reveal_strlit("show");
    reveal_strlit("apply-preset");
    reveal_strlit("clear-processors");
    reveal_strlit("edit");
    reveal_strlit("set-notes");
    reveal_strlit("delete");
    reveal_strlit("set-description");
    reveal_strlit("add-clip");
    reveal_strlit("remove-clip");
    reveal_strlit("add-processor");
    reveal_strlit("remove-processor");
    let t = slug_table();
    assert("presets"@[0] == 'p' && "presets"@[1] == 'r');
    assert("play"@[0] == 'p' && "play"@[1] == 'l');
    assert("files"@[0] == 'f');
    assert("collections"@[0] == 'c' && "collections"@[1] == 'o');
    assert("clips"@[0] == 'c' && "clips"@[1] == 'l');
    assert("create"@[0] == 'c' && "create"@[1] == 'r');
    assert("export"@[0] == 'e');
    assert("edit"@[0] == 'e');
    assert("list"@[0] == 'l');
    assert("show"@[0] == 's');
    assert("apply-preset"@[0] == 'a');
    assert("clear-processors"@[0] == 'c' && "clear-processors"@[1] == 'l');
    assert("set-notes"@[0] == 's');
    assert("delete"@[0] == 'd');
    assert(t[5] == (seq!["clips"@, "apply-preset"@], 1nat, "preset"@));
    assert(t[14] == (seq!["collections"@, "add-clip"@], 1nat, "clip"@));
    assert(t[16] == (seq!["collections"@, "remove-clip"@], 1nat, "clip"@));
}

} // verus!
