//! Processor entries of a preset: a list of structural processors and audio
//! plugins, each with an instance id and a table of parameters.
//!
//! Parameter values are held as JSON texts, keyed by parameter id in
//! increasing key order (the order in which JSON objects are written).  An
//! entry whose parameters are no JSON object has no table at all.

use vstd::prelude::*;

use crate::edit::{
    keys_unique, lemma_map_insert_new, lemma_map_update, param_map, EntryKind,
};
use crate::text::{
    decimal, to_decimal, join_with, joined_with, lemma_sorted_insert, lemma_text_lt_irreflexive, lemma_text_lt_total,
    same_text, sort_texts, sorted_version, strictly_sorted, strings_view, text_less, text_lt,
};

verus! {

// ── Parameter tables ────────────────────────────────────────────────────────

/// The texts of a table of key/value texts.
pub open spec fn text_pairs(s: Seq<(String, String)>) -> Seq<(Seq<char>, Seq<char>)> {
    s.map_values(|p: (String, String)| (p.0@, p.1@))
}

/// The keys of a table, in order.
pub open spec fn keys_of(s: Seq<(Seq<char>, Seq<char>)>) -> Seq<Seq<char>> {
    s.map_values(|p: (Seq<char>, Seq<char>)| p.0)
}

/// Keys strictly increase along the table.
pub open spec fn table_ok(s: Seq<(Seq<char>, Seq<char>)>) -> bool {
    strictly_sorted(keys_of(s))
}

proof fn lemma_sorted_unique_keys(s: Seq<(Seq<char>, Seq<char>)>)
    requires
        table_ok(s),
    ensures
        keys_unique(s),
{
    assert forall|i: int, j: int| 0 <= i < j < s.len() implies s[i].0 != s[j].0 by {
        assert(text_lt(keys_of(s)[i], keys_of(s)[j]));
        if s[i].0 == s[j].0 {
            lemma_text_lt_irreflexive(s[i].0);
        }
    }
}

/// Sets `key` to `value` in a table kept in key order: replaced in place when
/// present, inserted at its place otherwise.
fn set_sorted(t: &mut Vec<(String, String)>, key: &str, value: &str)
    requires
        table_ok(text_pairs(old(t)@)),
    ensures
        table_ok(text_pairs(final(t)@)),
        param_map(text_pairs(final(t)@)) == param_map(text_pairs(old(t)@)).insert(key@, value@),
{
    let ghost s = text_pairs(t@);
    proof {
        lemma_sorted_unique_keys(s);
    }
    let mut i: usize = 0;
    while i < t.len() && text_less(t[i].0.as_str(), key)
        invariant
            i <= t@.len(),
            s == text_pairs(t@),
            table_ok(s),
            forall|j: int| 0 <= j < i ==> text_lt(#[trigger] keys_of(s)[j], key@),
        decreases t@.len() - i,
    {
        proof {
            assert(keys_of(s)[i as int] == t@[i as int].0@);
        }
        i = i + 1;
    }
    if i < t.len() && same_text(t[i].0.as_str(), key) {
        let k = t[i].0.clone();
        t.set(i, (k, String::from_str(value)));
        proof {
            assert(s[i as int].0 == key@);
            lemma_map_update(s, i as int, value@);
            assert(text_pairs(t@) =~= s.update(i as int, (s[i as int].0, value@)));
            assert(keys_of(text_pairs(t@)) =~= keys_of(s));
        }
    } else {
        proof {
            if i < t@.len() {
                assert(keys_of(s)[i as int] == t@[i as int].0@);
                lemma_text_lt_total(keys_of(s)[i as int], key@);
            }
            lemma_sorted_insert(keys_of(s), i as int, key@);
        }
        t.insert(i, (String::from_str(key), String::from_str(value)));
        proof {
            let u = s.insert(i as int, (key@, value@));
            assert(text_pairs(t@) =~= u);
            assert(keys_of(u) =~= keys_of(s).insert(i as int, key@));
            lemma_sorted_unique_keys(u);
            lemma_map_insert_new(s, i as int, key@, value@);
        }
    }
}

fn copy_table(t: &Vec<(String, String)>) -> (c: Vec<(String, String)>)
    ensures
        text_pairs(c@) == text_pairs(t@),
{
    let mut c: Vec<(String, String)> = Vec::new();
    let mut i: usize = 0;
    while i < t.len()
        invariant
            i <= t@.len(),
            text_pairs(c@) == text_pairs(t@).take(i as int),
        decreases t@.len() - i,
    {
        let k = t[i].0.clone();
        let v = t[i].1.clone();
        let ghost before = c@;
        c.push((k, v));
        proof {
            assert(c@ == before.push((k, v)));
            assert(text_pairs(c@) =~= text_pairs(before).push((k@, v@)));
            assert(text_pairs(t@)[i as int] == (t@[i as int].0@, t@[i as int].1@));
            assert(text_pairs(c@) =~= text_pairs(t@).take(i as int + 1));
        }
        i = i + 1;
    }
    proof {
        assert(text_pairs(t@).take(t@.len() as int) =~= text_pairs(t@));
    }
    c
}

// ── Entries ─────────────────────────────────────────────────────────────────

/// One processor entry of a preset.
pub struct PresetEntry {
    pub kind: EntryKind,
    /// Instance id.
    pub id: String,
    pub enabled: bool,
    /// Processor or plugin type.
    pub processor_id: String,
    /// Parameter values as JSON texts in key order; none when the parameters
    /// are no JSON object.
    pub params: Option<Vec<(String, String)>>,
}

/// The texts of an optional table.
pub open spec fn params_view(p: Option<Vec<(String, String)>>) -> Option<Seq<(Seq<char>, Seq<char>)>> {
    match p {
        Some(t) => Some(text_pairs(t@)),
        None => None,
    }
}

/// Mathematical view of an entry: kind, instance id, switch, type, table.
pub struct EntryView {
    pub kind: EntryKind,
    pub id: Seq<char>,
    pub enabled: bool,
    pub processor_id: Seq<char>,
    pub params: Option<Seq<(Seq<char>, Seq<char>)>>,
}

/// The view of an entry.
pub open spec fn entry_view(e: PresetEntry) -> EntryView {
    EntryView {
        kind: e.kind,
        id: e.id@,
        enabled: e.enabled,
        processor_id: e.processor_id@,
        params: params_view(e.params),
    }
}

/// The views of a list of entries.
pub open spec fn entries_view(s: Seq<PresetEntry>) -> Seq<EntryView> {
    s.map_values(|e: PresetEntry| entry_view(e))
}

/// Every table of the list is in key order.
pub open spec fn entries_ok(s: Seq<EntryView>) -> bool {
    forall|i: int| 0 <= i < s.len() ==> (#[trigger] s[i].params matches Some(t) ==> table_ok(t))
}

/// The position of the first entry with instance id `id`, if any.
pub open spec fn first_with_id(s: Seq<EntryView>, id: Seq<char>) -> Option<int>
    decreases s.len(),
{
    if s.len() == 0 {
        None
    } else {
        match first_with_id(s.drop_last(), id) {
            Some(i) => Some(i),
            None => if s.last().id == id {
                Some(s.len() - 1)
            } else {
                None
            },
        }
    }
}

proof fn lemma_first_with_id(s: Seq<EntryView>, id: Seq<char>)
    ensures
        match first_with_id(s, id) {
            Some(i) => 0 <= i < s.len() && s[i].id == id && forall|j: int|
                0 <= j < i ==> s[j].id != id,
            None => forall|j: int| 0 <= j < s.len() ==> s[j].id != id,
        },
    decreases s.len(),
{
    if s.len() > 0 {
        lemma_first_with_id(s.drop_last(), id);
        assert forall|j: int| 0 <= j < s.len() - 1 implies s.drop_last()[j] == s[j] by {}
    }
}

/// `after` is `before` with parameter `key` set to `value`: the same entry
/// with the same table but for that key; an entry without a table stays as
/// it is.
pub open spec fn param_set(before: EntryView, after: EntryView, key: Seq<char>, value: Seq<char>) -> bool {
    &&& after.kind == before.kind
    &&& after.id == before.id
    &&& after.enabled == before.enabled
    &&& after.processor_id == before.processor_id
    &&& match (before.params, after.params) {
        (None, None) => true,
        (Some(t), Some(u)) => table_ok(u) && param_map(u) == param_map(t).insert(key, value),
        _ => false,
    }
}

fn find_id(entries: &Vec<PresetEntry>, id: &str) -> (r: Option<usize>)
    ensures
        match r {
            Some(i) => first_with_id(entries_view(entries@), id@) == Some(i as int),
            None => first_with_id(entries_view(entries@), id@) is None,
        },
{
    let ghost ev = entries_view(entries@);
    proof {
        lemma_first_with_id(ev, id@);
    }
    let mut i: usize = 0;
    while i < entries.len()
        invariant
            i <= entries@.len(),
            ev == entries_view(entries@),
            forall|j: int| 0 <= j < i ==> ev[j].id != id@,
        decreases entries@.len() - i,
    {
        if same_text(entries[i].id.as_str(), id) {
            proof {
                lemma_first_with_id(ev, id@);
                assert(ev[i as int].id == id@);
                match first_with_id(ev, id@) {
                    Some(k) => {
                        if k < i {
                            assert(ev[k].id != id@);
                        }
                    },
                    None => {},
                }
            }
            return Some(i);
        }
        i = i + 1;
    }
    None
}

/// Sets parameter `key` of the first entry with instance id `id` to the JSON
/// text `value` (see `param_set`); tells whether there was such an entry,
/// and changes nothing when there was none.
pub fn set_entry_param(entries: &mut Vec<PresetEntry>, id: &str, key: &str, value: &str) -> (found:
    bool)
    requires
        entries_ok(entries_view(old(entries)@)),
    ensures
        entries_ok(entries_view(final(entries)@)),
        found == first_with_id(entries_view(old(entries)@), id@) is Some,
        entries_view(final(entries)@).len() == entries_view(old(entries)@).len(),
        match first_with_id(entries_view(old(entries)@), id@) {
            Some(i) => {
                &&& param_set(
                    entries_view(old(entries)@)[i],
                    entries_view(final(entries)@)[i],
                    key@,
                    value@,
                )
                &&& forall|j: int|
                    0 <= j < entries_view(old(entries)@).len() && j != i ==> entries_view(
                        final(entries)@,
                    )[j] == entries_view(old(entries)@)[j]
            },
            None => entries_view(final(entries)@) == entries_view(old(entries)@),
        },
{
    let ghost before = entries_view(entries@);
    match find_id(entries, id) {
        None => false,
        Some(i) => {
            proof {
                lemma_first_with_id(before, id@);
            }
            let params = match &entries[i].params {
                Some(t) => {
                    let mut u = copy_table(t);
                    proof {
                        assert(before[i as int].params == Some(text_pairs(t@)));
                    }
                    set_sorted(&mut u, key, value);
                    Some(u)
                },
                None => None,
            };
            let e = PresetEntry {
                kind: entries[i].kind,
                id: entries[i].id.clone(),
                enabled: entries[i].enabled,
                processor_id: entries[i].processor_id.clone(),
                params,
            };
            entries.set(i, e);
            proof {
                assert(entries_view(entries@) =~= before.update(i as int, entry_view(e)));
            }
            true
        },
    }
}

/// The entries whose instance id is not `id`, in order.
pub open spec fn kept(s: Seq<EntryView>, id: Seq<char>) -> Seq<EntryView>
    decreases s.len(),
{
    if s.len() == 0 {
        s
    } else if s.last().id == id {
        kept(s.drop_last(), id)
    } else {
        kept(s.drop_last(), id).push(s.last())
    }
}

proof fn lemma_kept_len(s: Seq<EntryView>, id: Seq<char>)
    ensures
        kept(s, id).len() <= s.len(),
        kept(s, id).len() == s.len() <==> forall|j: int| 0 <= j < s.len() ==> s[j].id != id,
    decreases s.len(),
{
    if s.len() > 0 {
        lemma_kept_len(s.drop_last(), id);
        assert forall|j: int| 0 <= j < s.len() - 1 implies s.drop_last()[j] == s[j] by {}
    }
}

fn copy_entry(e: &PresetEntry) -> (c: PresetEntry)
    ensures
        entry_view(c) == entry_view(*e),
{
    let params = match &e.params {
        Some(t) => Some(copy_table(t)),
        None => None,
    };
    PresetEntry {
        kind: e.kind,
        id: e.id.clone(),
        enabled: e.enabled,
        processor_id: e.processor_id.clone(),
        params,
    }
}

/// Drops every entry with instance id `id`; tells whether any was dropped.
pub fn remove_entries(entries: &mut Vec<PresetEntry>, id: &str) -> (removed: bool)
    ensures
        entries_view(final(entries)@) == kept(entries_view(old(entries)@), id@),
        removed == exists|j: int|
            0 <= j < old(entries)@.len() && #[trigger] entries_view(old(entries)@)[j].id == id@,
{
    let ghost ev = entries_view(entries@);
    let mut out: Vec<PresetEntry> = Vec::new();
    let mut i: usize = 0;
    while i < entries.len()
        invariant
            i <= entries@.len(),
            ev == entries_view(entries@),
            entries_view(out@) == kept(ev.take(i as int), id@),
        decreases entries@.len() - i,
    {
        proof {
            assert(ev.take(i as int + 1).drop_last() =~= ev.take(i as int));
            assert(ev.take(i as int + 1).last() == entry_view(entries@[i as int]));
        }
        if !same_text(entries[i].id.as_str(), id) {
            let c = copy_entry(&entries[i]);
            out.push(c);
            proof {
                assert(entries_view(out@) =~= kept(ev.take(i as int), id@).push(entry_view(c)));
            }
        }
        i = i + 1;
    }
    proof {
        assert(ev.take(entries@.len() as int) =~= ev);
        lemma_kept_len(ev, id@);
    }
    let removed = out.len() < entries.len();
    *entries = out;
    proof {
        if !removed {
            assert(forall|j: int| 0 <= j < ev.len() ==> ev[j].id != id@);
        } else {
            let j = choose|j: int| 0 <= j < ev.len() && ev[j].id == id@;
            assert(ev[j].id == id@);
        }
    }
    removed
}

// ── Laws ─────────────────────────────────────────────────────────────────────

/// After removing an instance id, no entry with that id is left, and every
/// other entry is kept.
pub proof fn law_removed_id_is_gone(s: Seq<EntryView>, id: Seq<char>)
    ensures
        forall|j: int| 0 <= j < kept(s, id).len() ==> (#[trigger] kept(s, id)[j]).id != id,
        forall|j: int| 0 <= j < s.len() && s[j].id != id ==> kept(s, id).contains(#[trigger] s[j]),
    decreases s.len(),
{
    if s.len() > 0 {
        law_removed_id_is_gone(s.drop_last(), id);
        let k = kept(s.drop_last(), id);
        assert forall|j: int| 0 <= j < s.len() && s[j].id != id implies kept(s, id).contains(
            #[trigger] s[j],
        ) by {
            if j < s.len() - 1 {
                assert(s.drop_last()[j] == s[j]);
                assert(k.contains(s[j]));
                let m = choose|m: int| 0 <= m < k.len() && k[m] == s[j];
                if s.last().id != id {
                    assert(kept(s, id)[m] == s[j]);
                }
            } else {
                assert(kept(s, id)[k.len() as int] == s[j]);
            }
        }
    }
}

/// Removing an instance id twice is removing it once.
pub proof fn law_remove_idempotent(s: Seq<EntryView>, id: Seq<char>)
    ensures
        kept(kept(s, id), id) == kept(s, id),
    decreases s.len(),
{
    if s.len() > 0 {
        law_remove_idempotent(s.drop_last(), id);
        if s.last().id != id {
            let k = kept(s.drop_last(), id);
            assert(k.push(s.last()).drop_last() =~= k);
        }
    }
}

/// Reading a parameter back after setting it gives the value set, and the
/// other parameters keep their values.
pub proof fn law_param_read_after_write(
    before: EntryView,
    after: EntryView,
    key: Seq<char>,
    value: Seq<char>,
    other: Seq<char>,
)
    requires
        param_set(before, after, key, value),
        before.params is Some,
    ensures
        param_map(after.params->0).dom().contains(key),
        param_map(after.params->0)[key] == value,
        other != key ==> (param_map(after.params->0).dom().contains(other) <==> param_map(
            before.params->0,
        ).dom().contains(other)),
        other != key && param_map(before.params->0).dom().contains(other) ==> param_map(
            after.params->0,
        )[other] == param_map(before.params->0)[other],
{
}

// ── Display ─────────────────────────────────────────────────────────────────

/// A parameter as `key=value`.
pub open spec fn assignment(q: (Seq<char>, Seq<char>)) -> Seq<char> {
    q.0 + "="@ + q.1
}

/// The parameters as `key=value` items joined by `, `, or `{}` when they are
/// no JSON object.
pub open spec fn params_line(p: Option<Seq<(Seq<char>, Seq<char>)>>) -> Seq<char> {
    match p {
        None => "{}"@,
        Some(t) => joined_with(t.map_values(|q: (Seq<char>, Seq<char>)| assignment(q)), ", "@),
    }
}

/// The parameters of an entry for display (see `params_line`).
pub fn params_text(params: &Option<Vec<(String, String)>>) -> (s: String)
    ensures
        s@ == params_line(params_view(*params)),
{
    match params {
        None => String::from_str("{}"),
        Some(t) => {
            let ghost tv = text_pairs(t@);
            let mut items: Vec<String> = Vec::new();
            let mut i: usize = 0;
            while i < t.len()
                invariant
                    i <= t@.len(),
                    tv == text_pairs(t@),
                    strings_view(items@) == tv.take(i as int).map_values(
                        |q: (Seq<char>, Seq<char>)| assignment(q),
                    ),
                decreases t@.len() - i,
            {
                let mut item = t[i].0.clone();
                item.append("=");
                item.append(t[i].1.as_str());
                let ghost before = items@;
                items.push(item);
                proof {
                    assert(tv[i as int] == (t@[i as int].0@, t@[i as int].1@));
                    assert(strings_view(items@) =~= strings_view(before).push(item@));
                    assert(tv.take(i as int + 1).map_values(|q: (Seq<char>, Seq<char>)| assignment(q))
                        =~= tv.take(i as int).map_values(|q: (Seq<char>, Seq<char>)| assignment(q)).push(
                        assignment(tv[i as int]),
                    ));
                }
                i = i + 1;
            }
            proof {
                assert(tv.take(t@.len() as int) =~= tv);
            }
            join_with(&items, ", ")
        },
    }
}

/// The name of an entry kind as listed.
pub open spec fn kind_name(k: EntryKind) -> Seq<char> {
    match k {
        EntryKind::Processor => "structural"@,
        EntryKind::AudioPlugin => "audio-plugin"@,
    }
}

/// A switch as listed.
pub open spec fn bool_name(b: bool) -> Seq<char> {
    if b {
        "true"@
    } else {
        "false"@
    }
}

/// The row listing an entry: instance id, kind, type, switch, parameters.
pub open spec fn entry_cells(e: EntryView) -> Seq<Seq<char>> {
    seq![e.id, kind_name(e.kind), e.processor_id, bool_name(e.enabled), params_line(e.params)]
}

/// The row listing an entry (see `entry_cells`).
pub fn entry_row(e: &PresetEntry) -> (row: Vec<String>)
    ensures
        strings_view(row@) == entry_cells(entry_view(*e)),
{
    let mut row: Vec<String> = Vec::new();
    row.push(e.id.clone());
    row.push(
        match e.kind {
            EntryKind::Processor => String::from_str("structural"),
            EntryKind::AudioPlugin => String::from_str("audio-plugin"),
        },
    );
    row.push(e.processor_id.clone());
    row.push(
        if e.enabled {
            String::from_str("true")
        } else {
            String::from_str("false")
        },
    );
    row.push(params_text(&e.params));
    proof {
        assert(strings_view(row@) =~= entry_cells(entry_view(*e)));
    }
    row
}

/// The message for a processor type that is not known, listing the known
/// types in increasing order joined by `, `.
pub fn unknown_type_message(requested: &str, valid: &Vec<String>) -> (m: String)
    ensures
        m@ == "unknown processor type '"@ + requested@ + "'. Valid types: "@ + joined_with(
            sorted_version(strings_view(valid@)),
            ", "@,
        ),
{
    let sorted = sort_texts(valid);
    let list = join_with(&sorted, ", ");
    let mut m = String::from_str("unknown processor type '");
    m.append(requested);
    m.append("'. Valid types: ");
    m.append(list.as_str());
    m
}

/// The message for an instance id that a preset does not hold.
pub fn missing_instance_message(id: &str, preset_slug: &str) -> (m: String)
    ensures
        m@ == "processor '"@ + id@ + "' not found in preset '"@ + preset_slug@ + "'"@,
{
    let mut m = String::from_str("processor '");
    m.append(id);
    m.append("' not found in preset '");
    m.append(preset_slug);
    m.append("'");
    m
}

// ── Clips ───────────────────────────────────────────────────────────────────

/// A text without the double quotes at either end (all of them).
pub open spec fn trim_quotes(t: Seq<char>) -> Seq<char>
    decreases t.len(),
{
    if t.len() > 0 && t[0] == '"' {
        trim_quotes(t.drop_first())
    } else if t.len() > 0 && t.last() == '"' {
        trim_quotes(t.drop_last())
    } else {
        t
    }
}

fn trimmed_quotes(t: &str) -> (r: String)
    ensures
        r@ == trim_quotes(t@),
{
    let n = t.unicode_len();
    let mut a: usize = 0;
    proof {
        assert(t@.subrange(0, n as int) =~= t@);
    }
    while a < n && t.get_char(a) == '"'
        invariant
            a <= n,
            n == t@.len(),
            trim_quotes(t@) == trim_quotes(t@.subrange(a as int, n as int)),
        decreases n - a,
    {
        proof {
            assert(t@.subrange(a as int, n as int).drop_first() =~= t@.subrange(a + 1, n as int));
        }
        a = a + 1;
    }
    let mut b: usize = n;
    while b > a && t.get_char(b - 1) == '"'
        invariant
            a <= b <= n,
            n == t@.len(),
            a == n || t@[a as int] != '"',
            trim_quotes(t@) == trim_quotes(t@.subrange(a as int, b as int)),
        decreases b - a,
    {
        proof {
            let u = t@.subrange(a as int, b as int);
            assert(u[0] == t@[a as int]);
            assert(u.drop_last() =~= t@.subrange(a as int, b - 1));
            if b - 1 == a {
                assert(u.len() == 1);
                assert(u[0] == '"');
            }
        }
        b = b - 1;
    }
    proof {
        let u = t@.subrange(a as int, b as int);
        if u.len() > 0 {
            assert(u[0] == t@[a as int]);
            assert(u.last() == t@[b - 1]);
        }
    }
    let r = t.substring_char(a, b);
    r.to_string()
}

/// A clip's parameters as `key=value` items separated by spaces, each value
/// without its surrounding quotes; nothing when they are no JSON object.
pub open spec fn clip_params_line(p: Option<Seq<(Seq<char>, Seq<char>)>>) -> Seq<char> {
    match p {
        None => Seq::empty(),
        Some(t) => joined_with(
            t.map_values(|q: (Seq<char>, Seq<char>)| q.0 + "="@ + trim_quotes(q.1)),
            " "@,
        ),
    }
}

/// A clip's parameters for its processor listing (see `clip_params_line`).
pub fn clip_params_text(params: &Option<Vec<(String, String)>>) -> (s: String)
    ensures
        s@ == clip_params_line(params_view(*params)),
{
    match params {
        None => String::new(),
        Some(t) => {
            let ghost tv = text_pairs(t@);
            let mut items: Vec<String> = Vec::new();
            let mut i: usize = 0;
            while i < t.len()
                invariant
                    i <= t@.len(),
                    tv == text_pairs(t@),
                    strings_view(items@) == tv.take(i as int).map_values(
                        |q: (Seq<char>, Seq<char>)| q.0 + "="@ + trim_quotes(q.1),
                    ),
                decreases t@.len() - i,
            {
                let mut item = t[i].0.clone();
                item.append("=");
                let v = trimmed_quotes(t[i].1.as_str());
                item.append(v.as_str());
                let ghost before = items@;
                items.push(item);
                proof {
                    assert(tv[i as int] == (t@[i as int].0@, t@[i as int].1@));
                    assert(strings_view(items@) =~= strings_view(before).push(item@));
                    assert(tv.take(i as int + 1).map_values(
                        |q: (Seq<char>, Seq<char>)| q.0 + "="@ + trim_quotes(q.1),
                    ) =~= tv.take(i as int).map_values(
                        |q: (Seq<char>, Seq<char>)| q.0 + "="@ + trim_quotes(q.1),
                    ).push(tv[i as int].0 + "="@ + trim_quotes(tv[i as int].1)));
                }
                i = i + 1;
            }
            proof {
                assert(tv.take(t@.len() as int) =~= tv);
            }
            join_with(&items, " ")
        },
    }
}

/// The rows listing a clip's processors: position from 1, kind, type,
/// switch, parameters.
pub open spec fn clip_rows(s: Seq<EntryView>) -> Seq<Seq<Seq<char>>> {
    Seq::new(
        s.len(),
        |i: int|
            seq![
                decimal((i + 1) as nat),
                kind_name(s[i].kind),
                s[i].processor_id,
                bool_name(s[i].enabled),
                clip_params_line(s[i].params),
            ],
    )
}

/// The rows listing a clip's processors (see `clip_rows`).
pub fn clip_processor_rows(entries: &Vec<PresetEntry>) -> (rows: Vec<Vec<String>>)
    ensures
        rows@.map_values(|r: Vec<String>| strings_view(r@)) == clip_rows(entries_view(entries@)),
{
    let ghost ev = entries_view(entries@);
    let mut rows: Vec<Vec<String>> = Vec::new();
    let mut i: usize = 0;
    while i < entries.len()
        invariant
            i <= entries@.len(),
            ev == entries_view(entries@),
            rows@.len() == i,
            forall|j: int| 0 <= j < i ==> strings_view(#[trigger] rows@[j]@) == clip_rows(ev)[j],
        decreases entries@.len() - i,
    {
        let e = &entries[i];
        let mut row: Vec<String> = Vec::new();
        row.push(to_decimal((i + 1) as u64));
        row.push(
            match e.kind {
                EntryKind::Processor => String::from_str("structural"),
                EntryKind::AudioPlugin => String::from_str("audio-plugin"),
            },
        );
        row.push(e.processor_id.clone());
        row.push(
            if e.enabled {
                String::from_str("true")
            } else {
                String::from_str("false")
            },
        );
        row.push(clip_params_text(&e.params));
        proof {
            assert(ev[i as int] == entry_view(*e));
            assert(strings_view(row@) =~= clip_rows(ev)[i as int]);
        }
        rows.push(row);
        i = i + 1;
    }
    proof {
        assert(rows@.map_values(|r: Vec<String>| strings_view(r@)) =~= clip_rows(ev));
    }
    rows
}

/// The entries of a preset as applied to a clip: the same entries, each
/// under the new instance id given for it.
pub fn with_fresh_ids(entries: &Vec<PresetEntry>, ids: &Vec<String>) -> (out: Vec<PresetEntry>)
    requires
        ids@.len() == entries@.len(),
    ensures
        out@.len() == entries@.len(),
        forall|i: int|
            0 <= i < entries@.len() ==> #[trigger] entry_view(out@[i]) == (EntryView {
                id: ids@[i]@,
                ..entry_view(entries@[i])
            }),
{
    let mut out: Vec<PresetEntry> = Vec::new();
    let mut i: usize = 0;
    while i < entries.len()
        invariant
            i <= entries@.len(),
            ids@.len() == entries@.len(),
            out@.len() == i,
            forall|j: int|
                0 <= j < i ==> #[trigger] entry_view(out@[j]) == (EntryView {
                    id: ids@[j]@,
                    ..entry_view(entries@[j])
                }),
        decreases entries@.len() - i,
    {
        let c = copy_entry(&entries[i]);
        let e = PresetEntry {
            kind: c.kind,
            id: ids[i].clone(),
            enabled: c.enabled,
            processor_id: c.processor_id,
            params: c.params,
        };
        out.push(e);
        i = i + 1;
    }
    out
}

} // verus!
