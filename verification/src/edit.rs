//! Edit descriptors: the structural processors and audio plugins applied to a
//! clip, in order, each with its parameters.
//!
//! Parameter tables map a parameter id to a number.  Numbers are held as their
//! IEEE-754 bit patterns (`f64` for structural processors, `f32` for plugins):
//! the library only stores, finds and replaces them; arithmetic on them happens
//! at the edge.  A table never holds a key twice.

use vstd::prelude::*;

use crate::ids::{parse_uuid, parsed_uuid, uuid_hyphenated};
use crate::text::same_text;

verus! {

// ── Parameter tables ────────────────────────────────────────────────────────

/// The texts and values of a parameter table.
pub open spec fn pairs_view<V>(s: Seq<(String, V)>) -> Seq<(Seq<char>, V)> {
    s.map_values(|p: (String, V)| (p.0@, p.1))
}

/// No key occurs twice.
pub open spec fn keys_unique<V>(s: Seq<(Seq<char>, V)>) -> bool {
    forall|i: int, j: int| 0 <= i < j < s.len() ==> s[i].0 != s[j].0
}

/// The table as a map from key to value.
pub open spec fn param_map<V>(s: Seq<(Seq<char>, V)>) -> Map<Seq<char>, V>
    decreases s.len(),
{
    if s.len() == 0 {
        Map::empty()
    } else {
        param_map(s.drop_last()).insert(s.last().0, s.last().1)
    }
}

/// The position of `k` in a table, if present.
pub open spec fn key_index<V>(s: Seq<(Seq<char>, V)>, k: Seq<char>) -> Option<int>
    decreases s.len(),
{
    if s.len() == 0 {
        None
    } else if s.last().0 == k {
        Some(s.len() - 1)
    } else {
        key_index(s.drop_last(), k)
    }
}

pub proof fn lemma_key_index<V>(s: Seq<(Seq<char>, V)>, k: Seq<char>)
    ensures
        match key_index(s, k) {
            Some(i) => 0 <= i < s.len() && s[i].0 == k,
            None => forall|j: int| 0 <= j < s.len() ==> s[j].0 != k,
        },
        param_map(s).dom().contains(k) <==> key_index(s, k) is Some,
    decreases s.len(),
{
    if s.len() > 0 {
        lemma_key_index(s.drop_last(), k);
        assert forall|j: int| 0 <= j < s.len() - 1 implies s.drop_last()[j] == s[j] by {}
    }
}

/// Replacing the value at the position of a key that occurs once updates
/// that key in the map.
pub proof fn lemma_map_update<V>(s: Seq<(Seq<char>, V)>, i: int, v: V)
    requires
        keys_unique(s),
        0 <= i < s.len(),
    ensures
        param_map(s.update(i, (s[i].0, v))) == param_map(s).insert(s[i].0, v),
        keys_unique(s.update(i, (s[i].0, v))),
    decreases s.len(),
{
    let t = s.update(i, (s[i].0, v));
    if i == s.len() - 1 {
        assert(t.drop_last() =~= s.drop_last());
        assert(param_map(s.drop_last()).insert(s[i].0, s.last().1).insert(s[i].0, v) =~= param_map(
            s.drop_last(),
        ).insert(s[i].0, v));
    } else {
        assert(keys_unique(s.drop_last()));
        lemma_map_update(s.drop_last(), i, v);
        assert(t.drop_last() =~= s.drop_last().update(i, (s[i].0, v)));
        assert(s.last().0 != s[i].0);
        assert(param_map(s.drop_last()).insert(s[i].0, v).insert(s.last().0, s.last().1)
            =~= param_map(s.drop_last()).insert(s.last().0, s.last().1).insert(s[i].0, v));
    }
}

/// In a table without repeated keys, each entry is what the map holds for its
/// key.
pub proof fn lemma_param_map_at<V>(s: Seq<(Seq<char>, V)>, j: int)
    requires
        keys_unique(s),
        0 <= j < s.len(),
    ensures
        param_map(s).dom().contains(s[j].0),
        param_map(s)[s[j].0] == s[j].1,
    decreases s.len(),
{
    if j < s.len() - 1 {
        assert(s.drop_last()[j] == s[j]);
        assert(keys_unique(s.drop_last()));
        lemma_param_map_at(s.drop_last(), j);
    }
}

/// Inserting an entry with a new key anywhere adds that key to the map.
pub proof fn lemma_map_insert_new<V>(s: Seq<(Seq<char>, V)>, i: int, k: Seq<char>, v: V)
    requires
        0 <= i <= s.len(),
        keys_unique(s),
        keys_unique(s.insert(i, (k, v))),
    ensures
        param_map(s.insert(i, (k, v))) == param_map(s).insert(k, v),
{
    let t = s.insert(i, (k, v));
    let m = param_map(s).insert(k, v);
    lemma_param_map_at(t, i);
    assert forall|q: Seq<char>| #[trigger] param_map(t).dom().contains(q) <==> m.dom().contains(q) by {
        lemma_key_index(t, q);
        lemma_key_index(s, q);
        if param_map(t).dom().contains(q) && q != k {
            let j = key_index(t, q)->0;
            if j < i {
                assert(s[j] == t[j]);
            } else {
                assert(s[j - 1] == t[j]);
            }
        }
        if param_map(s).dom().contains(q) {
            let j = key_index(s, q)->0;
            if j < i {
                assert(t[j] == s[j]);
            } else {
                assert(t[j + 1] == s[j]);
            }
        }
    }
    assert forall|q: Seq<char>| #[trigger] m.dom().contains(q) implies param_map(t)[q] == m[q] by {
        if q != k {
            lemma_key_index(s, q);
            let j = key_index(s, q)->0;
            lemma_param_map_at(s, j);
            if j < i {
                assert(t[j] == s[j]);
                lemma_param_map_at(t, j);
            } else {
                assert(t[j + 1] == s[j]);
                lemma_param_map_at(t, j + 1);
            }
        }
    }
    assert(param_map(t) =~= m);
}

/// Sets `key` to `value` in a table: replaced in place when present, added at
/// the end otherwise.
pub fn insert_param<V: Copy>(params: &mut Vec<(String, V)>, key: &str, value: V)
    requires
        keys_unique(pairs_view(old(params)@)),
    ensures
        keys_unique(pairs_view(final(params)@)),
        param_map(pairs_view(final(params)@)) == param_map(pairs_view(old(params)@)).insert(
            key@,
            value,
        ),
        pairs_view(final(params)@).len() >= pairs_view(old(params)@).len(),
{
    let ghost s = pairs_view(params@);
    let mut i: usize = 0;
    while i < params.len()
        invariant
            i <= params@.len(),
            s == pairs_view(params@),
            keys_unique(s),
            params@ == old(params)@,
            forall|j: int| 0 <= j < i ==> s[j].0 != key@,
        decreases params@.len() - i,
    {
        if same_text(params[i].0.as_str(), key) {
            let k = params[i].0.clone();
            params.set(i, (k, value));
            proof {
                assert(s[i as int].0 == key@);
                lemma_map_update(s, i as int, value);
                assert(pairs_view(params@) =~= s.update(i as int, (s[i as int].0, value)));
            }
            return;
        }
        i = i + 1;
    }
    params.push((String::from_str(key), value));
    proof {
        assert(pairs_view(params@) =~= s.push((key@, value)));
        assert(pairs_view(params@).drop_last() =~= s);
    }
}

fn copy_params<V: Copy>(params: &Vec<(String, V)>) -> (c: Vec<(String, V)>)
    ensures
        pairs_view(c@) == pairs_view(params@),
{
    let mut c: Vec<(String, V)> = Vec::new();
    let mut i: usize = 0;
    while i < params.len()
        invariant
            i <= params@.len(),
            pairs_view(c@) == pairs_view(params@).take(i as int),
        decreases params@.len() - i,
    {
        let k = params[i].0.clone();
        let ghost before = c@;
        c.push((k, params[i].1));
        proof {
            assert(c@ == before.push((k, params@[i as int].1)));
            assert(pairs_view(c@) =~= pairs_view(before).push((k@, params@[i as int].1)));
            assert(pairs_view(params@)[i as int] == (params@[i as int].0@, params@[i as int].1));
            assert(pairs_view(c@) =~= pairs_view(params@).take(i as int + 1));
        }
        i = i + 1;
    }
    proof {
        assert(pairs_view(params@).take(params@.len() as int) =~= pairs_view(params@));
    }
    c
}

// ── Edits ───────────────────────────────────────────────────────────────────

/// What an edit applies.
pub enum EditKind {
    /// A structural processor (trim, cut, …) with `f64` parameters.
    Processor { processor_id: String, params: Vec<(String, u64)> },
    /// An audio plugin (gain, pan, …) with `f32` parameters.
    Plugin { plugin_id: String, params: Vec<(String, u32)> },
}

/// One edit of a clip's processing chain.
pub struct ProcessorEdit {
    /// Identity of the edit (a UUID as a 128-bit number).
    pub uuid: u128,
    /// Whether the edit takes effect.
    pub enabled: bool,
    /// What the edit applies.
    pub kind: EditKind,
}

/// A structural processor step as the processing chain takes it.
pub struct StructuralEdit {
    /// Registry id of the processor.
    pub processor_id: String,
    /// Whether the step takes effect.
    pub enabled: bool,
    /// Parameters (`f64` bit patterns).
    pub params: Vec<(String, u64)>,
}

/// Texts and values of an edit kind, for comparisons in contracts.
pub enum KindView {
    Processor { processor_id: Seq<char>, params: Seq<(Seq<char>, u64)> },
    Plugin { plugin_id: Seq<char>, params: Seq<(Seq<char>, u32)> },
}

/// The view of an edit kind.
pub open spec fn kind_view(k: EditKind) -> KindView {
    match k {
        EditKind::Processor { processor_id, params } => KindView::Processor {
            processor_id: processor_id@,
            params: pairs_view(params@),
        },
        EditKind::Plugin { plugin_id, params } => KindView::Plugin {
            plugin_id: plugin_id@,
            params: pairs_view(params@),
        },
    }
}

/// The view of an edit: identity, switch, and kind.
pub open spec fn edit_view(e: ProcessorEdit) -> (u128, bool, KindView) {
    (e.uuid, e.enabled, kind_view(e.kind))
}

/// The views of a list of edits.
pub open spec fn edits_view(s: Seq<ProcessorEdit>) -> Seq<(u128, bool, KindView)> {
    s.map_values(|e: ProcessorEdit| edit_view(e))
}

/// An edit's parameter table never holds a key twice.
pub open spec fn kind_well_formed(k: KindView) -> bool {
    match k {
        KindView::Processor { params, .. } => keys_unique(params),
        KindView::Plugin { params, .. } => keys_unique(params),
    }
}

/// Every edit of a list is well formed.
pub open spec fn edits_well_formed(s: Seq<(u128, bool, KindView)>) -> bool {
    forall|i: int| 0 <= i < s.len() ==> kind_well_formed(#[trigger] s[i].2)
}

/// The view of a structural step.
pub open spec fn structural_edit_view(e: StructuralEdit) -> (Seq<char>, bool, Seq<(Seq<char>, u64)>) {
    (e.processor_id@, e.enabled, pairs_view(e.params@))
}

/// The structural steps of an edit list, in order; plugin edits are left out
/// and each step keeps its switch and parameters.
pub open spec fn structural_steps(s: Seq<(u128, bool, KindView)>) -> Seq<
    (Seq<char>, bool, Seq<(Seq<char>, u64)>),
>
    decreases s.len(),
{
    if s.len() == 0 {
        Seq::empty()
    } else {
        let prev = structural_steps(s.drop_last());
        match s.last().2 {
            KindView::Processor { processor_id, params } => prev.push(
                (processor_id, s.last().1, params),
            ),
            KindView::Plugin { .. } => prev,
        }
    }
}

fn copy_kind(k: &EditKind) -> (c: EditKind)
    ensures
        kind_view(c) == kind_view(*k),
{
    match k {
        EditKind::Processor { processor_id, params } => EditKind::Processor {
            processor_id: processor_id.clone(),
            params: copy_params(params),
        },
        EditKind::Plugin { plugin_id, params } => EditKind::Plugin {
            plugin_id: plugin_id.clone(),
            params: copy_params(params),
        },
    }
}

/// A copy of an edit.
pub fn copy_edit(e: &ProcessorEdit) -> (c: ProcessorEdit)
    ensures
        edit_view(c) == edit_view(*e),
{
    ProcessorEdit { uuid: e.uuid, enabled: e.enabled, kind: copy_kind(&e.kind) }
}

/// The structural steps of `edits` (see `structural_steps`).
pub fn structural_edits_from(edits: &[ProcessorEdit]) -> (steps: Vec<StructuralEdit>)
    ensures
        steps@.map_values(|e: StructuralEdit| structural_edit_view(e)) == structural_steps(
            edits_view(edits@),
        ),
{
    let ghost ev = edits_view(edits@);
    let mut steps: Vec<StructuralEdit> = Vec::new();
    let mut i: usize = 0;
    while i < edits.len()
        invariant
            i <= edits@.len(),
            ev == edits_view(edits@),
            steps@.map_values(|e: StructuralEdit| structural_edit_view(e)) == structural_steps(
                ev.take(i as int),
            ),
        decreases edits@.len() - i,
    {
        proof {
            assert(ev.take(i as int + 1).drop_last() =~= ev.take(i as int));
            assert(ev.take(i as int + 1).last() == edit_view(edits@[i as int]));
        }
        let e = &edits[i];
        match &e.kind {
            EditKind::Processor { processor_id, params } => {
                let step = StructuralEdit {
                    processor_id: processor_id.clone(),
                    enabled: e.enabled,
                    params: copy_params(params),
                };
                let ghost before = steps@.map_values(|x: StructuralEdit| structural_edit_view(x));
                steps.push(step);
                proof {
                    assert(steps@.map_values(|x: StructuralEdit| structural_edit_view(x))
                        =~= before.push(structural_edit_view(step)));
                }
            },
            EditKind::Plugin { .. } => {},
        }
        i = i + 1;
    }
    proof {
        assert(ev.take(edits@.len() as int) =~= ev);
    }
    steps
}

// ── Updates addressed by identity ───────────────────────────────────────────

/// The position of the first edit with identity `uuid`, if any.
pub open spec fn first_with_uuid(s: Seq<(u128, bool, KindView)>, uuid: u128) -> Option<int>
    decreases s.len(),
{
    if s.len() == 0 {
        None
    } else {
        match first_with_uuid(s.drop_last(), uuid) {
            Some(i) => Some(i),
            None => if s.last().0 == uuid {
                Some(s.len() - 1)
            } else {
                None
            },
        }
    }
}

proof fn lemma_first_with_uuid(s: Seq<(u128, bool, KindView)>, uuid: u128)
    ensures
        match first_with_uuid(s, uuid) {
            Some(i) => 0 <= i < s.len() && s[i].0 == uuid && forall|j: int|
                0 <= j < i ==> s[j].0 != uuid,
            None => forall|j: int| 0 <= j < s.len() ==> s[j].0 != uuid,
        },
    decreases s.len(),
{
    if s.len() > 0 {
        lemma_first_with_uuid(s.drop_last(), uuid);
        assert forall|j: int| 0 <= j < s.len() - 1 implies s.drop_last()[j] == s[j] by {}
    }
}

fn find_uuid(edits: &Vec<ProcessorEdit>, uuid: u128) -> (r: Option<usize>)
    ensures
        match r {
            Some(i) => first_with_uuid(edits_view(edits@), uuid) == Some(i as int),
            None => first_with_uuid(edits_view(edits@), uuid) is None,
        },
{
    let ghost ev = edits_view(edits@);
    proof {
        lemma_first_with_uuid(ev, uuid);
    }
    let mut i: usize = 0;
    while i < edits.len()
        invariant
            i <= edits@.len(),
            ev == edits_view(edits@),
            forall|j: int| 0 <= j < i ==> ev[j].0 != uuid,
        decreases edits@.len() - i,
    {
        if edits[i].uuid == uuid {
            proof {
                lemma_first_with_uuid(ev, uuid);
                assert(ev[i as int].0 == uuid);
                match first_with_uuid(ev, uuid) {
                    Some(k) => {
                        if k > i {
                        } else if k < i {
                            assert(ev[k].0 != uuid);
                        }
                    },
                    None => {},
                }
            }
            return Some(i);
        }
        i = i + 1;
    }
    None
}

/// Sets the switch of the first edit with identity `uuid`; nothing changes
/// when there is none.
pub fn set_enabled_by_uuid(edits: &mut Vec<ProcessorEdit>, uuid: u128, enabled: bool)
    ensures
        match first_with_uuid(edits_view(old(edits)@), uuid) {
            Some(i) => edits_view(final(edits)@) == edits_view(old(edits)@).update(
                i,
                (uuid, enabled, edits_view(old(edits)@)[i].2),
            ),
            None => edits_view(final(edits)@) == edits_view(old(edits)@),
        },
{
    match find_uuid(edits, uuid) {
        Some(i) => {
            proof {
                lemma_first_with_uuid(edits_view(edits@), uuid);
            }
            let old_edit = copy_edit(&edits[i]);
            let e = ProcessorEdit { uuid: old_edit.uuid, enabled, kind: old_edit.kind };
            let ghost before = edits_view(edits@);
            edits.set(i, e);
            proof {
                assert(edits_view(edits@) =~= before.update(i as int, (uuid, enabled, before[i as int].2)));
            }
        },
        None => {},
    }
}

/// Sets structural parameter `key` of the first edit with identity `uuid` to
/// `bits`; a plugin edit with that identity, or no such edit, leaves the list
/// unchanged.
pub fn set_structural_param_by_uuid(
    edits: &mut Vec<ProcessorEdit>,
    uuid: u128,
    key: &str,
    bits: u64,
)
    requires
        edits_well_formed(edits_view(old(edits)@)),
    ensures
        edits_well_formed(edits_view(final(edits)@)),
        edits_view(final(edits)@).len() == edits_view(old(edits)@).len(),
        match first_with_uuid(edits_view(old(edits)@), uuid) {
            Some(i) => {
                &&& forall|j: int|
                    0 <= j < edits_view(old(edits)@).len() && j != i ==> edits_view(
                        final(edits)@,
                    )[j] == edits_view(old(edits)@)[j]
                &&& match edits_view(old(edits)@)[i].2 {
                    KindView::Processor { processor_id, params } => {
                        let now = edits_view(final(edits)@)[i];
                        &&& now.0 == uuid
                        &&& now.1 == edits_view(old(edits)@)[i].1
                        &&& now.2 matches KindView::Processor { processor_id: p2, params: q2 }
                        &&& p2 == processor_id
                        &&& param_map(q2) == param_map(params).insert(key@, bits)
                    },
                    KindView::Plugin { .. } => edits_view(final(edits)@)[i] == edits_view(
                        old(edits)@,
                    )[i],
                }
            },
            None => edits_view(final(edits)@) == edits_view(old(edits)@),
        },
{
    match find_uuid(edits, uuid) {
        Some(i) => {
            let ghost before = edits_view(edits@);
            proof {
                lemma_first_with_uuid(before, uuid);
            }
            let old_edit = copy_edit(&edits[i]);
            match old_edit.kind {
                EditKind::Processor { processor_id, params } => {
                    let mut params = params;
                    proof {
                        assert(kind_well_formed(before[i as int].2));
                    }
                    insert_param(&mut params, key, bits);
                    let e = ProcessorEdit {
                        uuid: old_edit.uuid,
                        enabled: old_edit.enabled,
                        kind: EditKind::Processor { processor_id, params },
                    };
                    edits.set(i, e);
                    proof {
                        assert(edits_view(edits@) =~= before.update(i as int, edit_view(e)));
                    }
                },
                EditKind::Plugin { .. } => {},
            }
        },
        None => {},
    }
}

// ── Laws ─────────────────────────────────────────────────────────────────────

/// How many structural edits come before position `i`.
pub open spec fn structural_before(s: Seq<(u128, bool, KindView)>, i: int) -> nat
    decreases i,
{
    if i <= 0 {
        0
    } else {
        structural_before(s, i - 1) + match s[i - 1].2 {
            KindView::Processor { .. } => 1nat,
            KindView::Plugin { .. } => 0nat,
        }
    }
}

proof fn lemma_structural_steps_len(s: Seq<(u128, bool, KindView)>)
    ensures
        structural_steps(s).len() == structural_before(s, s.len() as int),
    decreases s.len(),
{
    if s.len() > 0 {
        lemma_structural_steps_len(s.drop_last());
        lemma_structural_before_prefix(s, s.len() - 1);
    }
}

proof fn lemma_structural_before_prefix(s: Seq<(u128, bool, KindView)>, i: int)
    requires
        0 <= i <= s.len(),
    ensures
        i < s.len() ==> structural_before(s.drop_last(), i) == structural_before(s, i),
    decreases i,
{
    if i > 0 {
        lemma_structural_before_prefix(s, i - 1);
        if i < s.len() {
            assert(s.drop_last()[i - 1] == s[i - 1]);
        }
    }
}

/// What the player and the export see follows edits of the list: replacing
/// the kind of structural edit `i` with another structural kind (as setting
/// one of its parameters does) replaces exactly its step, which keeps the
/// edit's switch.
pub proof fn law_structural_update_reaches_steps(
    s: Seq<(u128, bool, KindView)>,
    i: int,
    pid: Seq<char>,
    params: Seq<(Seq<char>, u64)>,
)
    requires
        0 <= i < s.len(),
        s[i].2 is Processor,
    ensures
        structural_before(s, i) < structural_steps(s).len(),
        structural_steps(s.update(i, (s[i].0, s[i].1, KindView::Processor { processor_id: pid, params })))
            == structural_steps(s).update(structural_before(s, i) as int, (pid, s[i].1, params)),
    decreases s.len(),
{
    let t = s.update(i, (s[i].0, s[i].1, KindView::Processor { processor_id: pid, params }));
    lemma_structural_steps_len(s);
    lemma_structural_before_mono(s, i + 1, s.len() as int);
    if i == s.len() - 1 {
        assert(t.drop_last() =~= s.drop_last());
        lemma_structural_steps_len(s.drop_last());
        lemma_structural_before_prefix(s, i);
        assert(structural_steps(t) =~= structural_steps(s).update(
            structural_before(s, i) as int,
            (pid, s[i].1, params),
        ));
    } else {
        let d = s.drop_last();
        assert(d[i] == s[i]);
        law_structural_update_reaches_steps(d, i, pid, params);
        assert(t.drop_last() =~= d.update(i, (d[i].0, d[i].1, KindView::Processor { processor_id: pid, params })));
        lemma_structural_before_prefix(s, i);
        assert(t.last() == s.last());
        assert(structural_steps(t) =~= structural_steps(s).update(
            structural_before(s, i) as int,
            (pid, s[i].1, params),
        ));
    }
}

proof fn lemma_structural_before_mono(s: Seq<(u128, bool, KindView)>, i: int, j: int)
    requires
        0 <= i <= j <= s.len(),
    ensures
        structural_before(s, i) <= structural_before(s, j),
    decreases j - i,
{
    if i < j {
        lemma_structural_before_mono(s, i, j - 1);
    }
}

// ── Entries of the older sidecar layout ─────────────────────────────────────

/// The kind of an entry in the older layout (still the layout of presets).
#[derive(PartialEq, Eq, Structural, Clone, Copy)]
pub enum EntryKind {
    Processor,
    AudioPlugin,
}

/// A numeric parameter of an older-layout entry: its id, and its value as read
/// (`f64` bits) and as narrowed to `f32` (bits) for a plugin.
pub struct LegacyParam {
    pub key: String,
    pub f64_bits: u64,
    pub f32_bits: u32,
}

/// An entry of the older layout, with its numeric parameters in the order
/// they were read.
pub struct LegacyEntry {
    pub kind: EntryKind,
    pub id: String,
    pub enabled: bool,
    pub processor_id: String,
    pub params: Vec<LegacyParam>,
}

/// The parameters with their `f64` values.
pub open spec fn legacy_pairs64(ps: Seq<LegacyParam>) -> Seq<(Seq<char>, u64)> {
    ps.map_values(|p: LegacyParam| (p.key@, p.f64_bits))
}

/// The parameters with their `f32` values.
pub open spec fn legacy_pairs32(ps: Seq<LegacyParam>) -> Seq<(Seq<char>, u32)> {
    ps.map_values(|p: LegacyParam| (p.key@, p.f32_bits))
}

/// The identity an older entry gets: its id read as a UUID, or `fresh` when
/// the id is no UUID.
pub open spec fn legacy_uuid(id: Seq<char>, fresh: u128) -> u128 {
    match parsed_uuid(id) {
        Some(u) => u,
        None => fresh,
    }
}

/// `e` is the edit that an older entry becomes: same switch, the identity of
/// `legacy_uuid`, the same kind and processor id, and the parameters as a
/// table in which a later value of a key wins.
pub open spec fn converted_from(entry: LegacyEntry, fresh: u128, e: (u128, bool, KindView)) -> bool {
    &&& e.0 == legacy_uuid(entry.id@, fresh)
    &&& e.1 == entry.enabled
    &&& kind_well_formed(e.2)
    &&& match entry.kind {
        EntryKind::Processor => {
            &&& e.2 matches KindView::Processor { processor_id, params }
            &&& processor_id == entry.processor_id@
            &&& param_map(params) == param_map(legacy_pairs64(entry.params@))
        },
        EntryKind::AudioPlugin => {
            &&& e.2 matches KindView::Plugin { plugin_id, params }
            &&& plugin_id == entry.processor_id@
            &&& param_map(params) == param_map(legacy_pairs32(entry.params@))
        },
    }
}

fn table64(ps: &Vec<LegacyParam>) -> (t: Vec<(String, u64)>)
    ensures
        keys_unique(pairs_view(t@)),
        param_map(pairs_view(t@)) == param_map(legacy_pairs64(ps@)),
{
    let mut t: Vec<(String, u64)> = Vec::new();
    let mut i: usize = 0;
    while i < ps.len()
        invariant
            i <= ps@.len(),
            keys_unique(pairs_view(t@)),
            param_map(pairs_view(t@)) == param_map(legacy_pairs64(ps@).take(i as int)),
        decreases ps@.len() - i,
    {
        insert_param(&mut t, ps[i].key.as_str(), ps[i].f64_bits);
        proof {
            let l = legacy_pairs64(ps@);
            assert(l.take(i as int + 1).drop_last() =~= l.take(i as int));
            assert(l.take(i as int + 1).last() == (ps@[i as int].key@, ps@[i as int].f64_bits));
        }
        i = i + 1;
    }
    proof {
        assert(legacy_pairs64(ps@).take(ps@.len() as int) =~= legacy_pairs64(ps@));
    }
    t
}

fn table32(ps: &Vec<LegacyParam>) -> (t: Vec<(String, u32)>)
    ensures
        keys_unique(pairs_view(t@)),
        param_map(pairs_view(t@)) == param_map(legacy_pairs32(ps@)),
{
    let mut t: Vec<(String, u32)> = Vec::new();
    let mut i: usize = 0;
    while i < ps.len()
        invariant
            i <= ps@.len(),
            keys_unique(pairs_view(t@)),
            param_map(pairs_view(t@)) == param_map(legacy_pairs32(ps@).take(i as int)),
        decreases ps@.len() - i,
    {
        insert_param(&mut t, ps[i].key.as_str(), ps[i].f32_bits);
        proof {
            let l = legacy_pairs32(ps@);
            assert(l.take(i as int + 1).drop_last() =~= l.take(i as int));
            assert(l.take(i as int + 1).last() == (ps@[i as int].key@, ps@[i as int].f32_bits));
        }
        i = i + 1;
    }
    proof {
        assert(legacy_pairs32(ps@).take(ps@.len() as int) =~= legacy_pairs32(ps@));
    }
    t
}

/// The edit that an entry of the older layout becomes (see `converted_from`);
/// `fresh` is the identity used when the entry's id is no UUID.  An id in the
/// hyphenated form of a UUID keeps that UUID.
pub fn edit_from_legacy(entry: &LegacyEntry, fresh: u128) -> (e: ProcessorEdit)
    ensures
        converted_from(*entry, fresh, edit_view(e)),
        forall|u: u128| entry.id@ == uuid_hyphenated(u) ==> e.uuid == u,
{
    let uuid = match parse_uuid(entry.id.as_str()) {
        Some(u) => u,
        None => fresh,
    };
    let kind = match entry.kind {
        EntryKind::Processor => EditKind::Processor {
            processor_id: entry.processor_id.clone(),
            params: table64(&entry.params),
        },
        EntryKind::AudioPlugin => EditKind::Plugin {
            plugin_id: entry.processor_id.clone(),
            params: table32(&entry.params),
        },
    };
    ProcessorEdit { uuid, enabled: entry.enabled, kind }
}

/// The edits that a list of older-layout entries becomes, in order; entry
/// `i` falls back to identity `fresh[i]`.
pub fn edits_from_legacy(entries: &Vec<LegacyEntry>, fresh: &Vec<u128>) -> (out: Vec<ProcessorEdit>)
    requires
        fresh@.len() == entries@.len(),
    ensures
        out@.len() == entries@.len(),
        edits_well_formed(edits_view(out@)),
        forall|i: int|
            0 <= i < entries@.len() ==> converted_from(
                #[trigger] entries@[i],
                fresh@[i],
                edit_view(out@[i]),
            ),
{
    let mut out: Vec<ProcessorEdit> = Vec::new();
    let mut i: usize = 0;
    while i < entries.len()
        invariant
            i <= entries@.len(),
            fresh@.len() == entries@.len(),
            out@.len() == i,
            forall|j: int|
                0 <= j < i ==> converted_from(#[trigger] entries@[j], fresh@[j], edit_view(out@[j])),
        decreases entries@.len() - i,
    {
        let e = edit_from_legacy(&entries[i], fresh[i]);
        out.push(e);
        i = i + 1;
    }
    proof {
        assert forall|j: int| 0 <= j < out@.len() implies kind_well_formed(
            #[trigger] edits_view(out@)[j].2,
        ) by {
            assert(converted_from(entries@[j], fresh@[j], edit_view(out@[j])));
        }
    }
    out
}

} // verus!
