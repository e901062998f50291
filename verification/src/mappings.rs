//! Per-controller mapping rules: what a mapping file says, and the lookup
//! tables built from it.
use vstd::prelude::*;
use crate::controls::{
    Axis, Button, parse_axis, parse_button, spec_parse_axis, spec_parse_button,
};
use crate::keyed::{
    distinct_keys, has_key, keyed, lemma_keyed_index, lemma_keyed_push, lemma_keyed_update,
};
use crate::text::{chars_of, contains_chars, contains_text, parse_i32, spec_parse_i32};

verus! {

/// A mapping file as read: the text of each entry, keys first.  A file
/// is a JSON object, so each key comes once; the entries are applied in
/// order.
#[derive(Clone, Debug)]
pub struct RawMapping {
    /// Text that a device name must contain for the mapping to apply.
    pub matcher: String,
    /// Reported axis code number (as text) to axis name.
    pub axis_codes: Vec<(String, String)>,
    /// Reported axis name to axis name.
    pub axis_names: Vec<(String, String)>,
    /// Reported button name to button name.
    pub button_names: Vec<(String, String)>,
    /// Axis name to whether its values are negated.
    pub invert_axes: Vec<(String, bool)>,
}

/// The characters of each text pair.
pub open spec fn text_pairs(v: Seq<(String, String)>) -> Seq<(Seq<char>, Seq<char>)> {
    v.map_values(|e: (String, String)| (e.0@, e.1@))
}

/// Entries keyed by text, read by their characters.
pub open spec fn text_keyed<V>(v: Seq<(String, V)>) -> Seq<(Seq<char>, V)> {
    v.map_values(|e: (String, V)| (e.0@, e.1))
}

/// The code table a list of entries gives: each entry whose key reads as
/// an `i32` and whose value names an axis maps that number to that axis,
/// later entries overriding earlier ones; the others are skipped.
pub open spec fn code_table(entries: Seq<(Seq<char>, Seq<char>)>) -> Map<i32, Axis>
    decreases entries.len(),
{
    if entries.len() == 0 {
        Map::empty()
    } else {
        let m = code_table(entries.drop_last());
        let e = entries.last();
        match (spec_parse_i32(e.0), spec_parse_axis(e.1)) {
            (Some(n), Some(a)) => m.insert(n, a),
            _ => m,
        }
    }
}

/// The axis renaming a list of entries gives: each entry whose key and
/// value both name axes maps the first to the second; the others are
/// skipped.
pub open spec fn name_table(entries: Seq<(Seq<char>, Seq<char>)>) -> Map<Axis, Axis>
    decreases entries.len(),
{
    if entries.len() == 0 {
        Map::empty()
    } else {
        let m = name_table(entries.drop_last());
        let e = entries.last();
        match (spec_parse_axis(e.0), spec_parse_axis(e.1)) {
            (Some(a), Some(b)) => m.insert(a, b),
            _ => m,
        }
    }
}

/// The button renaming a list of entries gives: each entry whose value
/// names a mappable button maps its key text to that button; the others
/// are skipped.
pub open spec fn button_table(entries: Seq<(Seq<char>, Seq<char>)>) -> Map<Seq<char>, Button>
    decreases entries.len(),
{
    if entries.len() == 0 {
        Map::empty()
    } else {
        let m = button_table(entries.drop_last());
        let e = entries.last();
        match spec_parse_button(e.1) {
            Some(b) => m.insert(e.0, b),
            None => m,
        }
    }
}

/// The axis names whose entries say `true`.
pub open spec fn invert_set(entries: Seq<(Seq<char>, bool)>) -> Set<Seq<char>>
    decreases entries.len(),
{
    if entries.len() == 0 {
        Set::empty()
    } else {
        let s = invert_set(entries.drop_last());
        let e = entries.last();
        if e.1 {
            s.insert(e.0)
        } else {
            s
        }
    }
}

/// The abstract mapping: what applies to which devices and how it
/// renames their controls.
pub struct MappingView {
    pub matcher: Seq<char>,
    pub axis_codes: Map<i32, Axis>,
    pub axis_names: Map<Axis, Axis>,
    pub button_names: Map<Seq<char>, Button>,
    pub axis_invert: Set<Seq<char>>,
}

impl RawMapping {
    /// The mapping that this file describes.
    pub open spec fn mapping(&self) -> MappingView {
        MappingView {
            matcher: self.matcher@,
            axis_codes: code_table(text_pairs(self.axis_codes@)),
            axis_names: name_table(text_pairs(self.axis_names@)),
            button_names: button_table(text_pairs(self.button_names@)),
            axis_invert: invert_set(text_keyed(self.invert_axes@)),
        }
    }
}

/// An entry whose key and value both name axes, with no later entry for
/// that key, gives the renaming.
proof fn lemma_name_table_entry(e: Seq<(Seq<char>, Seq<char>)>, i: int, a: Axis, b: Axis)
    requires
        0 <= i < e.len(),
        spec_parse_axis(e[i].0) == Some(a),
        spec_parse_axis(e[i].1) == Some(b),
        forall|j: int| i < j < e.len() ==> spec_parse_axis(#[trigger] e[j].0) != Some(a),
    ensures
        name_table(e).contains_key(a),
        name_table(e)[a] == b,
    decreases e.len(),
{
    if i < e.len() - 1 {
        let d = e.drop_last();
        assert forall|j: int| i < j < d.len() implies spec_parse_axis(#[trigger] d[j].0) != Some(a) by {
            assert(d[j] == e[j]);
        }
        assert(d[i] == e[i]);
        lemma_name_table_entry(d, i, a, b);
        assert(spec_parse_axis(e[e.len() - 1].0) != Some(a));
    }
}

/// An axis that no entry renames (key naming it, value naming an axis)
/// is not renamed.
proof fn lemma_name_table_absent(e: Seq<(Seq<char>, Seq<char>)>, a: Axis)
    requires
        forall|j: int|
            0 <= j < e.len() ==> !(spec_parse_axis(#[trigger] e[j].0) == Some(a) && spec_parse_axis(
                e[j].1,
            ) is Some),
    ensures
        !name_table(e).contains_key(a),
    decreases e.len(),
{
    if e.len() > 0 {
        let d = e.drop_last();
        assert forall|j: int| 0 <= j < d.len() implies !(spec_parse_axis(#[trigger] d[j].0) == Some(a)
            && spec_parse_axis(d[j].1) is Some) by {
            assert(d[j] == e[j]);
        }
        lemma_name_table_absent(d, a);
        assert(!(spec_parse_axis(e[e.len() - 1].0) == Some(a) && spec_parse_axis(e[e.len() - 1].1) is Some));
    }
}

/// An entry whose key reads as a number and whose value names an axis,
/// with no later entry for that number, gives the code's axis.
proof fn lemma_code_table_entry(e: Seq<(Seq<char>, Seq<char>)>, i: int, n: i32, b: Axis)
    requires
        0 <= i < e.len(),
        spec_parse_i32(e[i].0) == Some(n),
        spec_parse_axis(e[i].1) == Some(b),
        forall|j: int| i < j < e.len() ==> spec_parse_i32(#[trigger] e[j].0) != Some(n),
    ensures
        code_table(e).contains_key(n),
        code_table(e)[n] == b,
    decreases e.len(),
{
    if i < e.len() - 1 {
        let d = e.drop_last();
        assert forall|j: int| i < j < d.len() implies spec_parse_i32(#[trigger] d[j].0) != Some(n) by {
            assert(d[j] == e[j]);
        }
        assert(d[i] == e[i]);
        lemma_code_table_entry(d, i, n, b);
        assert(spec_parse_i32(e[e.len() - 1].0) != Some(n));
    }
}

/// A number that no entry maps (key reading as it, value naming an axis)
/// is not mapped.
proof fn lemma_code_table_absent(e: Seq<(Seq<char>, Seq<char>)>, n: i32)
    requires
        forall|j: int|
            0 <= j < e.len() ==> !(spec_parse_i32(#[trigger] e[j].0) == Some(n) && spec_parse_axis(
                e[j].1,
            ) is Some),
    ensures
        !code_table(e).contains_key(n),
    decreases e.len(),
{
    if e.len() > 0 {
        let d = e.drop_last();
        assert forall|j: int| 0 <= j < d.len() implies !(spec_parse_i32(#[trigger] d[j].0) == Some(n)
            && spec_parse_axis(d[j].1) is Some) by {
            assert(d[j] == e[j]);
        }
        lemma_code_table_absent(d, n);
        assert(!(spec_parse_i32(e[e.len() - 1].0) == Some(n) && spec_parse_axis(e[e.len() - 1].1) is Some));
    }
}

/// An entry whose value names a mappable button, with no later entry for
/// its key, gives the key's button.
proof fn lemma_button_table_entry(e: Seq<(Seq<char>, Seq<char>)>, i: int, b: Button)
    requires
        0 <= i < e.len(),
        spec_parse_button(e[i].1) == Some(b),
        forall|j: int| i < j < e.len() ==> #[trigger] e[j].0 != e[i].0,
    ensures
        button_table(e).contains_key(e[i].0),
        button_table(e)[e[i].0] == b,
    decreases e.len(),
{
    if i < e.len() - 1 {
        let d = e.drop_last();
        assert forall|j: int| i < j < d.len() implies #[trigger] d[j].0 != d[i].0 by {
            assert(d[j] == e[j]);
        }
        assert(d[i] == e[i]);
        lemma_button_table_entry(d, i, b);
        assert(e[e.len() - 1].0 != e[i].0);
    }
}

/// A name that no entry renames (that key, value naming a mappable
/// button) is not renamed.
proof fn lemma_button_table_absent(e: Seq<(Seq<char>, Seq<char>)>, k: Seq<char>)
    requires
        forall|j: int| 0 <= j < e.len() ==> !(#[trigger] e[j].0 == k && spec_parse_button(e[j].1) is Some),
    ensures
        !button_table(e).contains_key(k),
    decreases e.len(),
{
    if e.len() > 0 {
        let d = e.drop_last();
        assert forall|j: int| 0 <= j < d.len() implies !(#[trigger] d[j].0 == k && spec_parse_button(d[j].1) is Some) by {
            assert(d[j] == e[j]);
        }
        lemma_button_table_absent(d, k);
        assert(!(e[e.len() - 1].0 == k && spec_parse_button(e[e.len() - 1].1) is Some));
    }
}

/// A name is in the invert set exactly when some entry for it says `true`.
proof fn lemma_invert_set(e: Seq<(Seq<char>, bool)>, k: Seq<char>)
    ensures
        invert_set(e).contains(k) <==> exists|j: int| 0 <= j < e.len() && #[trigger] e[j] == (k, true),
    decreases e.len(),
{
    if e.len() > 0 {
        let d = e.drop_last();
        lemma_invert_set(d, k);
        if exists|j: int| 0 <= j < d.len() && #[trigger] d[j] == (k, true) {
            let j = choose|j: int| 0 <= j < d.len() && #[trigger] d[j] == (k, true);
            assert(e[j] == d[j]);
        }
        if exists|j: int| 0 <= j < e.len() && #[trigger] e[j] == (k, true) {
            let j = choose|j: int| 0 <= j < e.len() && #[trigger] e[j] == (k, true);
            if j < d.len() {
                assert(d[j] == e[j]);
            }
        }
    }
}

/// An axis-renaming entry of a mapping file whose key and value name axes
/// (`Unknown` included), with no later entry naming the same key axis,
/// renames that axis in the built mapping; an axis that no such entry
/// names is not renamed.
pub proof fn lemma_axis_renaming_from_file(raw: RawMapping, i: int, a: Axis)
    ensures
        0 <= i < raw.axis_names@.len() && spec_parse_axis(raw.axis_names@[i].0@) == Some(a)
            && spec_parse_axis(raw.axis_names@[i].1@) is Some && (forall|j: int|
            i < j < raw.axis_names@.len() ==> spec_parse_axis(#[trigger] raw.axis_names@[j].0@)
                != Some(a)) ==> raw.mapping().axis_names.contains_key(a)
            && raw.mapping().axis_names[a] == spec_parse_axis(raw.axis_names@[i].1@)->0,
        (forall|j: int|
            0 <= j < raw.axis_names@.len() ==> !(spec_parse_axis(#[trigger] raw.axis_names@[j].0@)
                == Some(a) && spec_parse_axis(raw.axis_names@[j].1@) is Some))
            ==> !raw.mapping().axis_names.contains_key(a),
{
    let e = text_pairs(raw.axis_names@);
    assert forall|j: int| 0 <= j < e.len() implies #[trigger] e[j] == (
        raw.axis_names@[j].0@,
        raw.axis_names@[j].1@,
    ) by {}
    if 0 <= i < raw.axis_names@.len() && spec_parse_axis(raw.axis_names@[i].0@) == Some(a)
        && spec_parse_axis(raw.axis_names@[i].1@) is Some && (forall|j: int|
        i < j < raw.axis_names@.len() ==> spec_parse_axis(#[trigger] raw.axis_names@[j].0@) != Some(a)) {
        assert forall|j: int| i < j < e.len() implies spec_parse_axis(#[trigger] e[j].0) != Some(a) by {
            assert(e[j].0 == raw.axis_names@[j].0@);
        }
        lemma_name_table_entry(e, i, a, spec_parse_axis(raw.axis_names@[i].1@)->0);
    }
    if forall|j: int|
        0 <= j < raw.axis_names@.len() ==> !(spec_parse_axis(#[trigger] raw.axis_names@[j].0@) == Some(a)
            && spec_parse_axis(raw.axis_names@[j].1@) is Some) {
        assert forall|j: int| 0 <= j < e.len() implies !(spec_parse_axis(#[trigger] e[j].0) == Some(a)
            && spec_parse_axis(e[j].1) is Some) by {
            assert(e[j] == (raw.axis_names@[j].0@, raw.axis_names@[j].1@));
        }
        lemma_name_table_absent(e, a);
    }
}

/// A code entry of a mapping file whose key reads as a number and whose
/// value names an axis, with no later entry for that number, maps the
/// number to that axis in the built mapping; a number that no such entry
/// gives is not mapped.
pub proof fn lemma_axis_codes_from_file(raw: RawMapping, i: int, n: i32)
    ensures
        0 <= i < raw.axis_codes@.len() && spec_parse_i32(raw.axis_codes@[i].0@) == Some(n)
            && spec_parse_axis(raw.axis_codes@[i].1@) is Some && (forall|j: int|
            i < j < raw.axis_codes@.len() ==> spec_parse_i32(#[trigger] raw.axis_codes@[j].0@)
                != Some(n)) ==> raw.mapping().axis_codes.contains_key(n)
            && raw.mapping().axis_codes[n] == spec_parse_axis(raw.axis_codes@[i].1@)->0,
        (forall|j: int|
            0 <= j < raw.axis_codes@.len() ==> !(spec_parse_i32(#[trigger] raw.axis_codes@[j].0@)
                == Some(n) && spec_parse_axis(raw.axis_codes@[j].1@) is Some))
            ==> !raw.mapping().axis_codes.contains_key(n),
{
    let e = text_pairs(raw.axis_codes@);
    assert forall|j: int| 0 <= j < e.len() implies #[trigger] e[j] == (
        raw.axis_codes@[j].0@,
        raw.axis_codes@[j].1@,
    ) by {}
    if 0 <= i < raw.axis_codes@.len() && spec_parse_i32(raw.axis_codes@[i].0@) == Some(n)
        && spec_parse_axis(raw.axis_codes@[i].1@) is Some && (forall|j: int|
        i < j < raw.axis_codes@.len() ==> spec_parse_i32(#[trigger] raw.axis_codes@[j].0@) != Some(n)) {
        assert forall|j: int| i < j < e.len() implies spec_parse_i32(#[trigger] e[j].0) != Some(n) by {
            assert(e[j].0 == raw.axis_codes@[j].0@);
        }
        lemma_code_table_entry(e, i, n, spec_parse_axis(raw.axis_codes@[i].1@)->0);
    }
    if forall|j: int|
        0 <= j < raw.axis_codes@.len() ==> !(spec_parse_i32(#[trigger] raw.axis_codes@[j].0@) == Some(n)
            && spec_parse_axis(raw.axis_codes@[j].1@) is Some) {
        assert forall|j: int| 0 <= j < e.len() implies !(spec_parse_i32(#[trigger] e[j].0) == Some(n)
            && spec_parse_axis(e[j].1) is Some) by {
            assert(e[j] == (raw.axis_codes@[j].0@, raw.axis_codes@[j].1@));
        }
        lemma_code_table_absent(e, n);
    }
}

/// A button entry of a mapping file whose value names a mappable button,
/// with no later entry for its key, renames the key in the built mapping;
/// a name that no such entry has is not renamed.
pub proof fn lemma_button_renaming_from_file(raw: RawMapping, i: int, k: Seq<char>)
    ensures
        0 <= i < raw.button_names@.len() && raw.button_names@[i].0@ == k && spec_parse_button(
            raw.button_names@[i].1@,
        ) is Some && (forall|j: int|
            i < j < raw.button_names@.len() ==> #[trigger] raw.button_names@[j].0@ != k)
            ==> raw.mapping().button_names.contains_key(k) && raw.mapping().button_names[k]
            == spec_parse_button(raw.button_names@[i].1@)->0,
        (forall|j: int|
            0 <= j < raw.button_names@.len() ==> !(#[trigger] raw.button_names@[j].0@ == k
                && spec_parse_button(raw.button_names@[j].1@) is Some))
            ==> !raw.mapping().button_names.contains_key(k),
{
    let e = text_pairs(raw.button_names@);
    assert forall|j: int| 0 <= j < e.len() implies #[trigger] e[j] == (
        raw.button_names@[j].0@,
        raw.button_names@[j].1@,
    ) by {}
    if 0 <= i < raw.button_names@.len() && raw.button_names@[i].0@ == k && spec_parse_button(
        raw.button_names@[i].1@,
    ) is Some && (forall|j: int| i < j < raw.button_names@.len() ==> #[trigger] raw.button_names@[j].0@ != k) {
        assert forall|j: int| i < j < e.len() implies #[trigger] e[j].0 != e[i].0 by {
            assert(e[j].0 == raw.button_names@[j].0@);
        }
        lemma_button_table_entry(e, i, spec_parse_button(raw.button_names@[i].1@)->0);
    }
    if forall|j: int|
        0 <= j < raw.button_names@.len() ==> !(#[trigger] raw.button_names@[j].0@ == k && spec_parse_button(
            raw.button_names@[j].1@,
        ) is Some) {
        assert forall|j: int| 0 <= j < e.len() implies !(#[trigger] e[j].0 == k && spec_parse_button(e[j].1) is Some) by {
            assert(e[j] == (raw.button_names@[j].0@, raw.button_names@[j].1@));
        }
        lemma_button_table_absent(e, k);
    }
}

/// An axis name is inverted in the built mapping exactly when some entry
/// of the file's invert list names it with `true`.
pub proof fn lemma_invert_from_file(raw: RawMapping, k: Seq<char>)
    ensures
        raw.mapping().axis_invert.contains(k) <==> exists|j: int|
            0 <= j < raw.invert_axes@.len() && #[trigger] raw.invert_axes@[j].0@ == k
                && raw.invert_axes@[j].1,
{
    let e = text_keyed(raw.invert_axes@);
    lemma_invert_set(e, k);
    assert forall|j: int| 0 <= j < e.len() implies #[trigger] e[j] == (raw.invert_axes@[j].0@, raw.invert_axes@[j].1) by {}
    if exists|j: int| 0 <= j < e.len() && #[trigger] e[j] == (k, true) {
        let j = choose|j: int| 0 <= j < e.len() && #[trigger] e[j] == (k, true);
        assert(raw.invert_axes@[j].0@ == k && raw.invert_axes@[j].1);
    }
    if exists|j: int| 0 <= j < raw.invert_axes@.len() && #[trigger] raw.invert_axes@[j].0@ == k && raw.invert_axes@[j].1 {
        let j = choose|j: int| 0 <= j < raw.invert_axes@.len() && #[trigger] raw.invert_axes@[j].0@ == k && raw.invert_axes@[j].1;
        assert(e[j] == (k, true));
    }
}

/// Per-device mapping rules, ready for lookups.
#[derive(Debug)]
pub struct Mapping {
    matcher: String,
    axis_codes: Vec<(i32, Axis)>,
    axis_names: Vec<(Axis, Axis)>,
    button_names: Vec<(String, Button)>,
    axis_invert: Vec<(String, ())>,
}

impl View for Mapping {
    type V = MappingView;

    closed spec fn view(&self) -> MappingView {
        MappingView {
            matcher: self.matcher@,
            axis_codes: keyed(self.axis_codes@),
            axis_names: keyed(self.axis_names@),
            button_names: keyed(text_keyed(self.button_names@)),
            axis_invert: keyed(text_keyed(self.axis_invert@)).dom(),
        }
    }
}

/// Adds or replaces an entry of a table with distinct keys.
fn put_code(tab: &mut Vec<(i32, Axis)>, k: i32, v: Axis)
    requires
        distinct_keys(old(tab)@),
    ensures
        distinct_keys(final(tab)@),
        keyed(final(tab)@) == keyed(old(tab)@).insert(k, v),
{
    let mut i: usize = 0;
    while i < tab.len()
        invariant
            i <= tab@.len(),
            tab@ == old(tab)@,
            distinct_keys(tab@),
            forall|j: int| 0 <= j < i ==> tab@[j].0 != k,
        decreases tab@.len() - i,
    {
        if tab[i].0 == k {
            proof {
                lemma_keyed_update(tab@, i as int, v);
            }
            tab.set(i, (k, v));
            return;
        }
        i = i + 1;
    }
    proof {
        assert(!has_key(tab@, k));
        lemma_keyed_push(tab@, k, v);
    }
    tab.push((k, v));
}

/// Adds or replaces an entry of a table with distinct keys.
fn put_axis(tab: &mut Vec<(Axis, Axis)>, k: Axis, v: Axis)
    requires
        distinct_keys(old(tab)@),
    ensures
        distinct_keys(final(tab)@),
        keyed(final(tab)@) == keyed(old(tab)@).insert(k, v),
{
    let mut i: usize = 0;
    while i < tab.len()
        invariant
            i <= tab@.len(),
            tab@ == old(tab)@,
            distinct_keys(tab@),
            forall|j: int| 0 <= j < i ==> tab@[j].0 != k,
        decreases tab@.len() - i,
    {
        if tab[i].0 == k {
            proof {
                lemma_keyed_update(tab@, i as int, v);
            }
            tab.set(i, (k, v));
            return;
        }
        i = i + 1;
    }
    proof {
        assert(!has_key(tab@, k));
        lemma_keyed_push(tab@, k, v);
    }
    tab.push((k, v));
}

/// Position of the entry whose key reads as `k`, in a text-keyed table.
fn text_position<V>(tab: &Vec<(String, V)>, k: &str) -> (r: Option<usize>)
    ensures
        match r {
            Some(i) => i < tab@.len() && text_keyed(tab@)[i as int].0 == k@,
            None => !has_key(text_keyed(tab@), k@),
        },
{
    let target = chars_of(k);
    let mut i: usize = 0;
    while i < tab.len()
        invariant
            i <= tab@.len(),
            target@ == k@,
            forall|j: int| 0 <= j < i ==> text_keyed(tab@)[j].0 != k@,
        decreases tab@.len() - i,
    {
        let key = chars_of(tab[i].0.as_str());
        if crate::text::chars_eq(&key, &target) {
            return Some(i);
        }
        i = i + 1;
    }
    None
}

/// Adds or replaces an entry of a text-keyed table with distinct keys.
fn put_text<V>(tab: &mut Vec<(String, V)>, k: String, v: V)
    requires
        distinct_keys(text_keyed(old(tab)@)),
    ensures
        distinct_keys(text_keyed(final(tab)@)),
        keyed(text_keyed(final(tab)@)) == keyed(text_keyed(old(tab)@)).insert(k@, v),
{
    let ghost t0 = text_keyed(tab@);
    let ghost kv = k@;
    match text_position(tab, k.as_str()) {
        Some(i) => {
            proof {
                lemma_keyed_update(t0, i as int, v);
            }
            tab.set(i, (k, v));
            proof {
                assert(text_keyed(tab@) =~= t0.update(i as int, (kv, v)));
            }
        },
        None => {
            proof {
                lemma_keyed_push(t0, kv, v);
            }
            tab.push((k, v));
            proof {
                assert(text_keyed(tab@) =~= t0.push((kv, v)));
            }
        },
    }
}

impl Mapping {
    #[verifier::type_invariant]
    spec fn tables_keyed(self) -> bool {
        &&& distinct_keys(self.axis_codes@)
        &&& distinct_keys(self.axis_names@)
        &&& distinct_keys(text_keyed(self.button_names@))
        &&& distinct_keys(text_keyed(self.axis_invert@))
    }

    /// Builds the lookup tables that a mapping file describes.
    pub fn from_raw(raw: &RawMapping) -> (r: Mapping)
        ensures
            r@ == raw.mapping(),
    {
        let ghost codes_in = text_pairs(raw.axis_codes@);
        let mut axis_codes: Vec<(i32, Axis)> = Vec::new();
        let mut i: usize = 0;
        assert(codes_in.take(0) =~= Seq::<(Seq<char>, Seq<char>)>::empty());
        assert(keyed(axis_codes@) =~= Map::<i32, Axis>::empty());
        while i < raw.axis_codes.len()
            invariant
                i <= raw.axis_codes@.len(),
                codes_in == text_pairs(raw.axis_codes@),
                distinct_keys(axis_codes@),
                keyed(axis_codes@) == code_table(codes_in.take(i as int)),
            decreases raw.axis_codes@.len() - i,
        {
            let e = &raw.axis_codes[i];
            assert(codes_in.take(i + 1).drop_last() =~= codes_in.take(i as int));
            assert(codes_in.take(i + 1).last() == (e.0@, e.1@));
            match (parse_i32(e.0.as_str()), parse_axis(e.1.as_str())) {
                (Some(n), Some(a)) => {
                    put_code(&mut axis_codes, n, a);
                },
                _ => {},
            }
            i = i + 1;
        }
        assert(codes_in.take(i as int) =~= codes_in);

        let ghost names_in = text_pairs(raw.axis_names@);
        let mut axis_names: Vec<(Axis, Axis)> = Vec::new();
        let mut i: usize = 0;
        assert(names_in.take(0) =~= Seq::<(Seq<char>, Seq<char>)>::empty());
        assert(keyed(axis_names@) =~= Map::<Axis, Axis>::empty());
        while i < raw.axis_names.len()
            invariant
                i <= raw.axis_names@.len(),
                names_in == text_pairs(raw.axis_names@),
                distinct_keys(axis_names@),
                keyed(axis_names@) == name_table(names_in.take(i as int)),
            decreases raw.axis_names@.len() - i,
        {
            let e = &raw.axis_names[i];
            assert(names_in.take(i + 1).drop_last() =~= names_in.take(i as int));
            assert(names_in.take(i + 1).last() == (e.0@, e.1@));
            match (parse_axis(e.0.as_str()), parse_axis(e.1.as_str())) {
                (Some(a), Some(b)) => {
                    put_axis(&mut axis_names, a, b);
                },
                _ => {},
            }
            i = i + 1;
        }
        assert(names_in.take(i as int) =~= names_in);

        let ghost buttons_in = text_pairs(raw.button_names@);
        let mut button_names: Vec<(String, Button)> = Vec::new();
        let mut i: usize = 0;
        assert(buttons_in.take(0) =~= Seq::<(Seq<char>, Seq<char>)>::empty());
        assert(keyed(text_keyed(button_names@)) =~= Map::<Seq<char>, Button>::empty());
        while i < raw.button_names.len()
            invariant
                i <= raw.button_names@.len(),
                buttons_in == text_pairs(raw.button_names@),
                distinct_keys(text_keyed(button_names@)),
                keyed(text_keyed(button_names@)) == button_table(buttons_in.take(i as int)),
            decreases raw.button_names@.len() - i,
        {
            let e = &raw.button_names[i];
            assert(buttons_in.take(i + 1).drop_last() =~= buttons_in.take(i as int));
            assert(buttons_in.take(i + 1).last() == (e.0@, e.1@));
            match parse_button(e.1.as_str()) {
                Some(b) => {
                    put_text(&mut button_names, e.0.clone(), b);
                },
                None => {},
            }
            i = i + 1;
        }
        assert(buttons_in.take(i as int) =~= buttons_in);

        let ghost invert_in = text_keyed(raw.invert_axes@);
        let mut axis_invert: Vec<(String, ())> = Vec::new();
        let mut i: usize = 0;
        assert(invert_in.take(0) =~= Seq::<(Seq<char>, bool)>::empty());
        assert(keyed(text_keyed(axis_invert@)).dom() =~= Set::<Seq<char>>::empty());
        while i < raw.invert_axes.len()
            invariant
                i <= raw.invert_axes@.len(),
                invert_in == text_keyed(raw.invert_axes@),
                distinct_keys(text_keyed(axis_invert@)),
                keyed(text_keyed(axis_invert@)).dom() == invert_set(invert_in.take(i as int)),
            decreases raw.invert_axes@.len() - i,
        {
            let e = &raw.invert_axes[i];
            assert(invert_in.take(i + 1).drop_last() =~= invert_in.take(i as int));
            assert(invert_in.take(i + 1).last() == (e.0@, e.1));
            if e.1 {
                let ghost before = keyed(text_keyed(axis_invert@));
                put_text(&mut axis_invert, e.0.clone(), ());
                assert(before.insert(e.0@, ()).dom() =~= before.dom().insert(e.0@));
            }
            i = i + 1;
        }
        assert(invert_in.take(i as int) =~= invert_in);

        Mapping {
            matcher: raw.matcher.clone(),
            axis_codes,
            axis_names,
            button_names,
            axis_invert,
        }
    }

    /// Text that a device name must contain for this mapping to apply.
    pub fn matcher(&self) -> (r: &String)
        ensures
            r@ == self@.matcher,
    {
        &self.matcher
    }

    /// The axis that a reported code number is mapped to, if any.
    pub fn code_target(&self, code: i32) -> (r: Option<Axis>)
        ensures
            r == (if self@.axis_codes.contains_key(code) {
                Some(self@.axis_codes[code])
            } else {
                None
            }),
    {
        proof {
            use_type_invariant(self);
        }
        let mut i: usize = 0;
        while i < self.axis_codes.len()
            invariant
                i <= self.axis_codes@.len(),
                distinct_keys(self.axis_codes@),
                forall|j: int| 0 <= j < i ==> self.axis_codes@[j].0 != code,
            decreases self.axis_codes@.len() - i,
        {
            if self.axis_codes[i].0 == code {
                proof {
                    lemma_keyed_index(self.axis_codes@, i as int);
                }
                return Some(self.axis_codes[i].1);
            }
            i = i + 1;
        }
        None
    }

    /// The axis that a reported axis is renamed to, if any.
    pub fn name_target(&self, axis: Axis) -> (r: Option<Axis>)
        ensures
            r == (if self@.axis_names.contains_key(axis) {
                Some(self@.axis_names[axis])
            } else {
                None
            }),
    {
        proof {
            use_type_invariant(self);
        }
        let mut i: usize = 0;
        while i < self.axis_names.len()
            invariant
                i <= self.axis_names@.len(),
                distinct_keys(self.axis_names@),
                forall|j: int| 0 <= j < i ==> self.axis_names@[j].0 != axis,
            decreases self.axis_names@.len() - i,
        {
            if self.axis_names[i].0 == axis {
                proof {
                    lemma_keyed_index(self.axis_names@, i as int);
                }
                return Some(self.axis_names[i].1);
            }
            i = i + 1;
        }
        None
    }

    /// The button that a reported button name is renamed to, if any.
    pub fn button_target(&self, name: &str) -> (r: Option<Button>)
        ensures
            r == (if self@.button_names.contains_key(name@) {
                Some(self@.button_names[name@])
            } else {
                None
            }),
    {
        proof {
            use_type_invariant(self);
        }
        match text_position(&self.button_names, name) {
            Some(i) => {
                proof {
                    lemma_keyed_index(text_keyed(self.button_names@), i as int);
                }
                Some(self.button_names[i].1)
            },
            None => None,
        }
    }

    /// Whether values of the named axis are negated.
    pub fn inverts(&self, name: &str) -> (r: bool)
        ensures
            r == self@.axis_invert.contains(name@),
    {
        proof {
            use_type_invariant(self);
        }
        match text_position(&self.axis_invert, name) {
            Some(i) => {
                proof {
                    lemma_keyed_index(text_keyed(self.axis_invert@), i as int);
                }
                true
            },
            None => false,
        }
    }
}

/// The mapping applies to a device of this name.
pub open spec fn applies_to(m: MappingView, device_name: Seq<char>) -> bool {
    contains_text(device_name, m.matcher)
}

/// The abstract view of each mapping in a list.
pub open spec fn mapping_views(ms: Seq<Mapping>) -> Seq<MappingView> {
    ms.map_values(|m: Mapping| m@)
}

/// Position `i` holds the first mapping that applies to the device.
pub open spec fn is_first_match(ms: Seq<MappingView>, device_name: Seq<char>, i: int) -> bool {
    &&& 0 <= i < ms.len()
    &&& applies_to(ms[i], device_name)
    &&& forall|j: int| 0 <= j < i ==> !applies_to(#[trigger] ms[j], device_name)
}

/// The position of the first mapping that applies to the device, if any.
pub open spec fn first_match(ms: Seq<MappingView>, device_name: Seq<char>) -> Option<int> {
    if exists|i: int| is_first_match(ms, device_name, i) {
        Some(choose|i: int| is_first_match(ms, device_name, i))
    } else {
        None
    }
}

/// At most one position holds the first match.
proof fn lemma_first_match_unique(ms: Seq<MappingView>, device_name: Seq<char>, i: int)
    requires
        is_first_match(ms, device_name, i),
    ensures
        first_match(ms, device_name) == Some(i),
{
    let k = choose|k: int| is_first_match(ms, device_name, k);
    if k < i {
        assert(!applies_to(ms[k], device_name));
    } else if i < k {
        assert(!applies_to(ms[i], device_name));
    }
}

/// Where some mapping applies, there is a first one.
proof fn lemma_first_match_exists(ms: Seq<MappingView>, device_name: Seq<char>, j: int)
    requires
        0 <= j < ms.len(),
        applies_to(ms[j], device_name),
    ensures
        exists|i: int| is_first_match(ms, device_name, i),
    decreases j,
{
    if exists|k: int| 0 <= k < j && applies_to(#[trigger] ms[k], device_name) {
        let k = choose|k: int| 0 <= k < j && applies_to(#[trigger] ms[k], device_name);
        lemma_first_match_exists(ms, device_name, k);
    } else {
        assert(is_first_match(ms, device_name, j));
    }
}

/// The mapping chosen for a device is the first one whose matcher occurs
/// in the device's name; none is chosen only when no matcher occurs in it.
pub proof fn lemma_first_match_law(ms: Seq<MappingView>, device_name: Seq<char>)
    ensures
        first_match(ms, device_name) matches Some(i) ==> 0 <= i < ms.len() && contains_text(
            device_name,
            ms[i].matcher,
        ) && forall|j: int| 0 <= j < i ==> !contains_text(device_name, #[trigger] ms[j].matcher),
        first_match(ms, device_name) is None <==> forall|j: int|
            0 <= j < ms.len() ==> !contains_text(device_name, #[trigger] ms[j].matcher),
{
    if first_match(ms, device_name) is None {
        assert forall|j: int| 0 <= j < ms.len() implies !contains_text(device_name, #[trigger] ms[j].matcher) by {
            if contains_text(device_name, ms[j].matcher) {
                lemma_first_match_exists(ms, device_name, j);
            }
        }
    } else {
        let i = first_match(ms, device_name)->0;
        assert(is_first_match(ms, device_name, i));
        assert(contains_text(device_name, ms[i].matcher));
    }
}

/// Position of the first mapping whose matcher occurs in the device name.
pub fn find_mapping_index(mappings: &[Mapping], device_name: &str) -> (r: Option<usize>)
    ensures
        match r {
            Some(i) => first_match(mapping_views(mappings@), device_name@) == Some(i as int),
            None => first_match(mapping_views(mappings@), device_name@) is None,
        },
{
    let ghost ms = mapping_views(mappings@);
    let name = chars_of(device_name);
    let mut i: usize = 0;
    while i < mappings.len()
        invariant
            i <= mappings@.len(),
            ms == mapping_views(mappings@),
            name@ == device_name@,
            forall|j: int| 0 <= j < i ==> !applies_to(#[trigger] ms[j], device_name@),
        decreases mappings@.len() - i,
    {
        let matcher = chars_of(mappings[i].matcher().as_str());
        if contains_chars(&name, &matcher) {
            proof {
                assert(is_first_match(ms, device_name@, i as int));
                lemma_first_match_unique(ms, device_name@, i as int);
            }
            return Some(i);
        }
        i = i + 1;
    }
    assert forall|k: int| !is_first_match(ms, device_name@, k) by {
        if 0 <= k < ms.len() {
            assert(!applies_to(ms[k], device_name@));
        }
    }
    None
}

/// The first mapping whose matcher occurs in the device name.
pub fn find_mapping<'a>(mappings: &'a [Mapping], device_name: &str) -> (r: Option<&'a Mapping>)
    ensures
        match r {
            Some(m) => exists|i: int|
                first_match(mapping_views(mappings@), device_name@) == Some(i) && *m == mappings@[i],
            None => first_match(mapping_views(mappings@), device_name@) is None,
        },
{
    match find_mapping_index(mappings, device_name) {
        Some(i) => Some(&mappings[i]),
        None => None,
    }
}

} // verus!
