use musicum::completions::{
    complete_slugs, parse_kinds, SlugKind,
    bash_completion_file, bash_slug_augmentation, bash_slug_case_arm, shell_named,
    slug_completions, slug_key_of, zsh_completion_file, zsh_slug_augmentation, zsh_slug_case_arm,
    ShellKind, BASH_HEAD, BASH_TAIL, ZSH_HEAD, ZSH_TAIL,
};

#[test]
fn registry_has_every_slug_position() {
    let reg = slug_completions();
    assert_eq!(reg.len(), 24);
    assert_eq!(slug_key_of(&reg[0]), "play::0");
    assert_eq!(slug_key_of(&reg[5]), "clips::apply-preset::1");
    assert_eq!(slug_key_of(&reg[23]), "export::0");
}

#[test]
fn case_arms() {
    let reg = slug_completions();
    assert_eq!(bash_slug_case_arm(&reg[0]), "        \"play::0\") echo \"file,clip,collection\" ;;");
    assert_eq!(zsh_slug_case_arm(&reg[2]), "        \"clips::show::0\") slug_type=\"clip\" ;;");
}

#[test]
fn helpers_wrap_all_arms() {
    let reg = slug_completions();
    let bash = bash_slug_augmentation(&reg);
    assert!(bash.starts_with(BASH_HEAD));
    assert!(bash.ends_with(BASH_TAIL));
    let arms: Vec<String> = reg.iter().map(bash_slug_case_arm).collect();
    assert_eq!(bash, format!("{}{}{}", BASH_HEAD, arms.join("\n"), BASH_TAIL));
    let zsh = zsh_slug_augmentation(&reg);
    let arms: Vec<String> = reg.iter().map(zsh_slug_case_arm).collect();
    assert_eq!(zsh, format!("{}{}{}", ZSH_HEAD, arms.join("\n"), ZSH_TAIL));
    assert!(zsh.contains("compdef _musicum musicum"));
    assert!(bash.contains("complete -F _musicum musicum"));
}

#[test]
fn completion_files_rename_the_generated_entry_point() {
    let reg = slug_completions();
    let clap = "_musicum() {\n  body\n}\ncomplete -F _musicum musicum\n";
    let zsh = zsh_completion_file(clap, &reg);
    assert!(zsh.starts_with("_musicum_clap() {\n  body\n}\ncomplete -F _musicum musicum\n"));
    let bash = bash_completion_file(clap, &reg);
    assert!(bash.starts_with("_musicum_static() {\n  body\n}\n# (re-registered below)\n"));
    assert!(bash.ends_with(BASH_TAIL));
}

#[test]
fn shells() {
    assert!(shell_named("zsh") == Ok(ShellKind::Zsh));
    assert!(shell_named("bash") == Ok(ShellKind::Bash));
    assert_eq!(shell_named("fish").err().unwrap(), "unsupported shell: fish; choose zsh or bash");
}

fn texts(v: &[&str]) -> Vec<String> {
    v.iter().map(|s| s.to_string()).collect()
}

#[test]
fn kinds_are_split_at_commas_and_trimmed() {
    let reqs = parse_kinds(" file ,clip,,bogus");
    assert_eq!(reqs.len(), 4);
    assert!(reqs[0].kind == Some(SlugKind::File));
    assert_eq!(reqs[0].text, "file");
    assert!(reqs[1].kind == Some(SlugKind::Clip));
    assert!(reqs[2].kind.is_none());
    assert_eq!(reqs[2].text, "");
    assert!(reqs[3].kind.is_none());
    assert_eq!(reqs[3].text, "bogus");
}

#[test]
fn completed_slugs_are_sorted_unique_and_unknown_kinds_warned() {
    let files = texts(&["kick", "snare"]);
    let clips = texts(&["intro", "kick"]);
    let collections = texts(&["drums"]);
    let presets = texts(&["warm"]);
    let (slugs, warnings) =
        complete_slugs("clip, file,nope,file", &files, &clips, &collections, &presets);
    assert_eq!(slugs, texts(&["intro", "kick", "snare"]));
    assert_eq!(warnings, texts(&["unknown slug type: nope"]));
    let (slugs, warnings) = complete_slugs("preset,collection", &files, &clips, &collections, &presets);
    assert_eq!(slugs, texts(&["drums", "warm"]));
    assert!(warnings.is_empty());
}
