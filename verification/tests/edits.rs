use musicum::edit::{
    edit_from_legacy, edits_from_legacy, insert_param, set_enabled_by_uuid,
    set_structural_param_by_uuid, structural_edits_from, EditKind, EntryKind, LegacyEntry,
    LegacyParam, ProcessorEdit,
};
use musicum::editor::proc_label;
use musicum::ids::short_uuid;

const UUID_A: u128 = 0x550e8400_e29b_41d4_a716_446655440000;
const UUID_B: u128 = 0x660e8400_e29b_41d4_a716_446655440001;

fn bits(x: f64) -> u64 {
    x.to_bits()
}

fn structural(uuid: u128, enabled: bool, id: &str, params: &[(&str, f64)]) -> ProcessorEdit {
    ProcessorEdit {
        uuid,
        enabled,
        kind: EditKind::Processor {
            processor_id: id.to_string(),
            params: params.iter().map(|(k, v)| (k.to_string(), bits(*v))).collect(),
        },
    }
}

fn plugin(uuid: u128, enabled: bool, id: &str) -> ProcessorEdit {
    ProcessorEdit {
        uuid,
        enabled,
        kind: EditKind::Plugin { plugin_id: id.to_string(), params: vec![] },
    }
}

#[test]
fn structural_edits_from_filters_plugins() {
    let edits = vec![structural(1, true, "trim", &[("start", 1.0)]), plugin(2, true, "gain")];
    let structural = structural_edits_from(&edits);
    assert_eq!(structural.len(), 1);
    assert_eq!(structural[0].processor_id, "trim");
    assert_eq!(structural[0].params, vec![("start".to_string(), bits(1.0))]);
}

#[test]
fn structural_edits_from_preserves_enabled_flag() {
    let edit = structural(3, false, "cut", &[]);
    let structural = structural_edits_from(&[edit]);
    assert_eq!(structural[0].enabled, false);
}

#[test]
fn insert_param_replaces_or_appends() {
    let mut t: Vec<(String, u64)> = vec![("start".into(), 1), ("end".into(), 2)];
    insert_param(&mut t, "end", 5);
    assert_eq!(t, vec![("start".to_string(), 1), ("end".to_string(), 5)]);
    insert_param(&mut t, "gap", 7);
    assert_eq!(t.len(), 3);
    assert_eq!(t[2], ("gap".to_string(), 7));
}

#[test]
fn switch_and_param_updates_by_uuid() {
    let mut edits = vec![plugin(UUID_B, true, "gain"), structural(UUID_A, true, "trim", &[("start", 0.0)])];
    set_enabled_by_uuid(&mut edits, UUID_A, false);
    assert!(!edits[1].enabled);
    assert!(edits[0].enabled);
    set_enabled_by_uuid(&mut edits, 42, false);
    assert!(edits[0].enabled);
    set_structural_param_by_uuid(&mut edits, UUID_A, "start", bits(2.5));
    match &edits[1].kind {
        EditKind::Processor { params, .. } => assert_eq!(params, &vec![("start".to_string(), bits(2.5))]),
        _ => panic!("expected a processor edit"),
    }
    // A plugin edit is left alone.
    set_structural_param_by_uuid(&mut edits, UUID_B, "gain", bits(2.0));
    match &edits[0].kind {
        EditKind::Plugin { params, .. } => assert!(params.is_empty()),
        _ => panic!("expected a plugin edit"),
    }
}

#[test]
fn short_uuid_is_first_eight_hex_digits() {
    assert_eq!(short_uuid(UUID_A), "550e8400");
    assert_eq!(short_uuid(0), "00000000");
    assert_eq!(short_uuid(u128::MAX), "ffffffff");
}

#[test]
fn proc_labels() {
    assert_eq!(proc_label(&structural(UUID_A, true, "trim", &[])), "[structural] trim  (550e8400)");
    assert_eq!(proc_label(&plugin(UUID_B, false, "gain")), "[audio-plugin] gain [off]  (660e8400)");
}

fn legacy(kind: EntryKind, id: &str, enabled: bool, proc: &str, params: &[(&str, f64)]) -> LegacyEntry {
    LegacyEntry {
        kind,
        id: id.to_string(),
        enabled,
        processor_id: proc.to_string(),
        params: params
            .iter()
            .map(|(k, v)| LegacyParam { key: k.to_string(), f64_bits: v.to_bits(), f32_bits: (*v as f32).to_bits() })
            .collect(),
    }
}

#[test]
fn legacy_structural_entry_keeps_its_uuid() {
    let e = legacy(EntryKind::Processor, "550e8400-e29b-41d4-a716-446655440000", true, "trim", &[("start", 1.0)]);
    let out = edit_from_legacy(&e, 99);
    assert_eq!(out.uuid, UUID_A);
    assert!(out.enabled);
    match &out.kind {
        EditKind::Processor { processor_id, params } => {
            assert_eq!(processor_id, "trim");
            assert_eq!(params, &vec![("start".to_string(), bits(1.0))]);
        }
        _ => panic!("expected a processor edit"),
    }
}

#[test]
fn legacy_plugin_entry_narrows_values() {
    let e = legacy(EntryKind::AudioPlugin, "660e8400-e29b-41d4-a716-446655440001", false, "gain", &[("gain", 0.5)]);
    let out = edit_from_legacy(&e, 99);
    assert_eq!(out.uuid, UUID_B);
    assert!(!out.enabled);
    match &out.kind {
        EditKind::Plugin { plugin_id, params } => {
            assert_eq!(plugin_id, "gain");
            assert_eq!(params, &vec![("gain".to_string(), 0.5f32.to_bits())]);
        }
        _ => panic!("expected a plugin edit"),
    }
}

#[test]
fn legacy_ids_that_are_no_uuid_get_a_fresh_one() {
    let entries = vec![
        legacy(EntryKind::Processor, "uuid-1", true, "trim", &[("start", 0.0), ("end", 0.0), ("start", 3.0)]),
        legacy(EntryKind::AudioPlugin, "uuid-2", false, "gain", &[("gain", 0.8)]),
    ];
    let out = edits_from_legacy(&entries, &vec![7, 8]);
    assert_eq!(out.len(), 2);
    assert_eq!(out[0].uuid, 7);
    assert_eq!(out[1].uuid, 8);
    match &out[0].kind {
        EditKind::Processor { params, .. } => {
            assert_eq!(params, &vec![("start".to_string(), bits(3.0)), ("end".to_string(), bits(0.0))]);
        }
        _ => panic!("expected a processor edit"),
    }
}

#[test]
fn a_parameter_set_by_uuid_reaches_the_structural_steps() {
    let mut edits = vec![
        plugin(UUID_B, true, "gain"),
        structural(1, true, "trim", &[("start", 0.0)]),
        structural(UUID_A, false, "cut", &[("at", 1.0)]),
    ];
    set_structural_param_by_uuid(&mut edits, UUID_A, "at", bits(4.0));
    let steps = structural_edits_from(&edits);
    assert_eq!(steps.len(), 2);
    assert_eq!(steps[0].params, vec![("start".to_string(), bits(0.0))]);
    assert_eq!(steps[1].processor_id, "cut");
    assert!(!steps[1].enabled);
    assert_eq!(steps[1].params, vec![("at".to_string(), bits(4.0))]);
}
