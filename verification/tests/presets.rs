use musicum::edit::EntryKind;
use musicum::presets::{
    clip_params_text, clip_processor_rows, entry_row, missing_instance_message, params_text,
    remove_entries, set_entry_param, with_fresh_ids,
    unknown_type_message, PresetEntry,
};

fn entry(id: &str, kind: EntryKind, params: Option<&[(&str, &str)]>) -> PresetEntry {
    PresetEntry {
        kind,
        id: id.to_string(),
        enabled: true,
        processor_id: "trim".to_string(),
        params: params.map(|p| p.iter().map(|(k, v)| (k.to_string(), v.to_string())).collect()),
    }
}

fn table(e: &PresetEntry) -> Vec<(String, String)> {
    e.params.clone().unwrap()
}

#[test]
fn set_param_keeps_keys_in_order() {
    let mut entries = vec![entry("a", EntryKind::Processor, Some(&[("end", "2"), ("start", "0")]))];
    assert!(set_entry_param(&mut entries, "a", "gap", "1.5"));
    assert_eq!(
        table(&entries[0]),
        vec![
            ("end".to_string(), "2".to_string()),
            ("gap".to_string(), "1.5".to_string()),
            ("start".to_string(), "0".to_string())
        ]
    );
    assert!(set_entry_param(&mut entries, "a", "end", "\"x\""));
    assert_eq!(table(&entries[0])[0], ("end".to_string(), "\"x\"".to_string()));
    assert_eq!(table(&entries[0]).len(), 3);
}

#[test]
fn set_param_on_unknown_id_changes_nothing() {
    let mut entries = vec![entry("a", EntryKind::Processor, Some(&[]))];
    assert!(!set_entry_param(&mut entries, "b", "k", "1"));
    assert!(table(&entries[0]).is_empty());
}

#[test]
fn set_param_without_object_params_is_a_no_op() {
    let mut entries = vec![entry("a", EntryKind::AudioPlugin, None)];
    assert!(set_entry_param(&mut entries, "a", "k", "1"));
    assert!(entries[0].params.is_none());
}

#[test]
fn set_param_touches_only_first_match() {
    let mut entries = vec![
        entry("dup", EntryKind::Processor, Some(&[])),
        entry("dup", EntryKind::Processor, Some(&[])),
    ];
    assert!(set_entry_param(&mut entries, "dup", "k", "1"));
    assert_eq!(table(&entries[0]).len(), 1);
    assert!(table(&entries[1]).is_empty());
}

#[test]
fn remove_drops_every_match() {
    let mut entries = vec![
        entry("a", EntryKind::Processor, None),
        entry("b", EntryKind::Processor, None),
        entry("a", EntryKind::AudioPlugin, None),
    ];
    assert!(remove_entries(&mut entries, "a"));
    assert_eq!(entries.len(), 1);
    assert_eq!(entries[0].id, "b");
    assert!(!remove_entries(&mut entries, "a"));
    assert_eq!(entries.len(), 1);
}

#[test]
fn params_are_listed_as_assignments() {
    assert_eq!(params_text(&None), "{}");
    assert_eq!(params_text(&Some(vec![])), "");
    let p = Some(vec![("end".to_string(), "2.5".to_string()), ("start".to_string(), "0".to_string())]);
    assert_eq!(params_text(&p), "end=2.5, start=0");
}

#[test]
fn entry_rows() {
    let mut e = entry("u1", EntryKind::AudioPlugin, Some(&[("gain", "0.5")]));
    e.processor_id = "gain".into();
    e.enabled = false;
    assert_eq!(entry_row(&e), vec!["u1", "audio-plugin", "gain", "false", "gain=0.5"]);
    let s = entry("u2", EntryKind::Processor, None);
    assert_eq!(entry_row(&s), vec!["u2", "structural", "trim", "true", "{}"]);
}

#[test]
fn messages() {
    let valid = vec!["trim".to_string(), "crop".to_string(), "cut".to_string(), "slice".to_string()];
    assert_eq!(
        unknown_type_message("fade", &valid),
        "unknown processor type 'fade'. Valid types: crop, cut, slice, trim"
    );
    assert_eq!(
        missing_instance_message("u9", "warm"),
        "processor 'u9' not found in preset 'warm'"
    );
}

#[test]
fn clip_processor_listing() {
    let mut a = entry("u1", EntryKind::Processor, Some(&[("end", "2.5"), ("mode", "\"fast\"")]));
    a.processor_id = "trim".into();
    let mut b = entry("u2", EntryKind::AudioPlugin, None);
    b.processor_id = "gain".into();
    b.enabled = false;
    let rows = clip_processor_rows(&vec![a, b]);
    assert_eq!(rows[0], vec!["1", "structural", "trim", "true", "end=2.5 mode=fast"]);
    assert_eq!(rows[1], vec!["2", "audio-plugin", "gain", "false", ""]);
}

#[test]
fn clip_params_trim_all_quotes_at_both_ends() {
    let p = Some(vec![("k".to_string(), "\"\"x\"\"".to_string()), ("e".to_string(), "\"\"".to_string())]);
    assert_eq!(clip_params_text(&p), "k=x e=");
    assert_eq!(clip_params_text(&None), "");
}

#[test]
fn applied_preset_entries_get_new_ids() {
    let src = vec![entry("old1", EntryKind::Processor, Some(&[("a", "1")])), entry("old2", EntryKind::AudioPlugin, None)];
    let out = with_fresh_ids(&src, &vec!["n1".to_string(), "n2".to_string()]);
    assert_eq!(out.len(), 2);
    assert_eq!(out[0].id, "n1");
    assert_eq!(out[1].id, "n2");
    assert_eq!(out[0].params, src[0].params);
    assert!(out[1].kind == EntryKind::AudioPlugin);
}
