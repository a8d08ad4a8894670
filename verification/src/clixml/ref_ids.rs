//! The `RefId`s the encoder writes: one fresh number for every `<Obj>`
//! and every `<TN>`, issued in the order the tags are written, starting
//! from the first free id and leaving no gap.

use vstd::prelude::*;
use super::value::{PsValue, PsObject};
use super::encode::{
    enc_value, enc_items, enc_entries, enc_bare, enc_value_prop, enc_props, enc_tn, enc_ms,
    has_member, lemma_enc_value_mono, lemma_enc_items_mono, lemma_enc_entries_mono,
    lemma_enc_value_prop_mono, lemma_enc_props_mono,
};

verus! {

/// The numbers from `from` up to, not including, `to`.
pub open spec fn id_range(from: nat, to: nat) -> Seq<nat> {
    Seq::new((to - from) as nat, |j: int| (from + j) as nat)
}

/// The `RefId`s written for `v` with ids issued from `id`, in the order
/// of their tags in the text: the `<Obj>` of a list, dictionary or
/// object first, then those inside it.
pub open spec fn issued_ids(v: PsValue, id: nat) -> Seq<nat>
    decreases v, 1nat,
{
    match v {
        PsValue::List(items) => seq![id] + items_ids(items@, id + 1),
        PsValue::Dict(entries) => seq![id] + entries_ids(entries@, id + 1),
        PsValue::Object(o) => seq![id] + object_ids(o, id + 1),
        _ => Seq::empty(),
    }
}

/// The `RefId`s written for list items, in order.
pub open spec fn items_ids(s: Seq<PsValue>, id: nat) -> Seq<nat>
    decreases s, 0nat,
{
    if s.len() == 0 {
        Seq::empty()
    } else {
        let pre = s.subrange(0, s.len() - 1);
        items_ids(pre, id) + issued_ids(s[s.len() - 1], enc_items(pre, id).1)
    }
}

/// The `RefId`s written for dictionary entries, key before value.
pub open spec fn entries_ids(s: Seq<(PsValue, PsValue)>, id: nat) -> Seq<nat>
    decreases s, 0nat,
{
    if s.len() == 0 {
        Seq::empty()
    } else {
        let pre = s.subrange(0, s.len() - 1);
        let a = enc_entries(pre, id).1;
        let k = enc_value(s[s.len() - 1].0, Some("Key"@), a).1;
        entries_ids(pre, id) + issued_ids(s[s.len() - 1].0, a) + issued_ids(s[s.len() - 1].1, k)
    }
}

/// The `RefId`s written for the bare body of a `_value` property.
pub open spec fn bare_ids(v: PsValue, id: nat) -> Seq<nat>
    decreases v, 2nat,
{
    match v {
        PsValue::List(items) => items_ids(items@, id),
        PsValue::Dict(entries) => entries_ids(entries@, id),
        _ => issued_ids(v, id),
    }
}

/// The `RefId`s written for the first `_value` property.
pub open spec fn value_prop_ids(props: Seq<(String, PsValue)>, id: nat) -> Seq<nat>
    decreases props, 0nat,
{
    if props.len() == 0 {
        Seq::empty()
    } else if props[0].0@ == "_value"@ {
        bare_ids(props[0].1, id)
    } else {
        value_prop_ids(props.subrange(1, props.len() as int), id)
    }
}

/// The `RefId`s written for the members of an `<MS>`.
pub open spec fn props_ids(props: Seq<(String, PsValue)>, id: nat) -> Seq<nat>
    decreases props, 0nat,
{
    if props.len() == 0 {
        Seq::empty()
    } else {
        let pre = props.subrange(0, props.len() - 1);
        let last = props[props.len() - 1];
        if last.0@ == "_value"@ {
            props_ids(pre, id)
        } else {
            props_ids(pre, id) + issued_ids(last.1, enc_props(pre, id).1)
        }
    }
}

/// The `RefId`s written inside an object's `<Obj>`: its `<TN>`, then
/// those of its `_value` body, then those of its members.
pub open spec fn object_ids(o: PsObject, id: nat) -> Seq<nat>
    decreases o, 0nat,
{
    let names = o.type_names@;
    let props = o.properties@;
    let tn = enc_tn(names, id);
    let vp = enc_value_prop(props, tn.1);
    (if names.len() > 0 {
        seq![id]
    } else {
        Seq::empty()
    }) + value_prop_ids(props, tn.1) + (if has_member(props) {
        props_ids(props, vp.1)
    } else {
        Seq::empty()
    })
}

/// Consecutive runs of ids make one run.
proof fn lemma_range_concat(a: nat, b: nat, c: nat)
    requires
        a <= b <= c,
    ensures
        id_range(a, b) + id_range(b, c) == id_range(a, c),
{
    assert(id_range(a, b) + id_range(b, c) =~= id_range(a, c));
}

/// The encoder issues the ids of a value's tags one after the other, in
/// the order it writes the tags: `issued_ids` is `id`, `id + 1`, ... up
/// to the next free id it returns, each once. So `to_clixml`, which
/// starts at `0`, numbers the `<Obj>` and `<TN>` tags `0`, `1`, ... in
/// document order.
pub proof fn lemma_issued_ids(v: PsValue, name: Option<Seq<char>>, id: nat)
    ensures
        issued_ids(v, id) == id_range(id, enc_value(v, name, id).1),
    decreases v, 1nat,
{
    lemma_enc_value_mono(v, name, id);
    match v {
        PsValue::List(items) => {
            lemma_items_ids(items@, id + 1);
            lemma_enc_items_mono(items@, id + 1);
            assert(seq![id] + id_range(id + 1, enc_value(v, name, id).1) =~= id_range(
                id,
                enc_value(v, name, id).1,
            ));
        },
        PsValue::Dict(entries) => {
            lemma_entries_ids(entries@, id + 1);
            lemma_enc_entries_mono(entries@, id + 1);
            assert(seq![id] + id_range(id + 1, enc_value(v, name, id).1) =~= id_range(
                id,
                enc_value(v, name, id).1,
            ));
        },
        PsValue::Object(o) => {
            lemma_object_ids(o, id + 1);
            assert(seq![id] + id_range(id + 1, enc_value(v, name, id).1) =~= id_range(
                id,
                enc_value(v, name, id).1,
            ));
        },
        _ => {
            assert(id_range(id, id) =~= Seq::<nat>::empty());
        },
    }
}

/// `issued_ids` of list items.
proof fn lemma_items_ids(s: Seq<PsValue>, id: nat)
    ensures
        items_ids(s, id) == id_range(id, enc_items(s, id).1),
    decreases s, 0nat,
{
    if s.len() == 0 {
        assert(id_range(id, id) =~= Seq::<nat>::empty());
    } else {
        let pre = s.subrange(0, s.len() - 1);
        let a = enc_items(pre, id).1;
        lemma_items_ids(pre, id);
        lemma_issued_ids(s[s.len() - 1], None, a);
        lemma_enc_value_mono(s[s.len() - 1], None, a);
        lemma_enc_items_mono(pre, id);
        lemma_range_concat(id, a, enc_items(s, id).1);
    }
}

/// `issued_ids` of dictionary entries.
proof fn lemma_entries_ids(s: Seq<(PsValue, PsValue)>, id: nat)
    ensures
        entries_ids(s, id) == id_range(id, enc_entries(s, id).1),
    decreases s, 0nat,
{
    if s.len() == 0 {
        assert(id_range(id, id) =~= Seq::<nat>::empty());
    } else {
        let pre = s.subrange(0, s.len() - 1);
        let e = s[s.len() - 1];
        let a = enc_entries(pre, id).1;
        let k = enc_value(e.0, Some("Key"@), a).1;
        let w = enc_value(e.1, Some("Value"@), k).1;
        lemma_entries_ids(pre, id);
        lemma_issued_ids(e.0, Some("Key"@), a);
        lemma_issued_ids(e.1, Some("Value"@), k);
        lemma_enc_value_mono(e.0, Some("Key"@), a);
        lemma_enc_value_mono(e.1, Some("Value"@), k);
        lemma_enc_entries_mono(pre, id);
        lemma_range_concat(id, a, k);
        lemma_range_concat(id, k, w);
    }
}

/// `issued_ids` of a bare `_value` body.
proof fn lemma_bare_ids(v: PsValue, id: nat)
    ensures
        bare_ids(v, id) == id_range(id, enc_bare(v, id).1),
    decreases v, 2nat,
{
    match v {
        PsValue::List(items) => lemma_items_ids(items@, id),
        PsValue::Dict(entries) => lemma_entries_ids(entries@, id),
        _ => lemma_issued_ids(v, None, id),
    }
}

/// `issued_ids` of the first `_value` property.
proof fn lemma_value_prop_ids(props: Seq<(String, PsValue)>, id: nat)
    ensures
        value_prop_ids(props, id) == id_range(id, enc_value_prop(props, id).1),
    decreases props, 0nat,
{
    if props.len() == 0 {
        assert(id_range(id, id) =~= Seq::<nat>::empty());
    } else if props[0].0@ == "_value"@ {
        lemma_bare_ids(props[0].1, id);
    } else {
        lemma_value_prop_ids(props.subrange(1, props.len() as int), id);
    }
}

/// `issued_ids` of an object's members.
proof fn lemma_props_ids(props: Seq<(String, PsValue)>, id: nat)
    ensures
        props_ids(props, id) == id_range(id, enc_props(props, id).1),
    decreases props, 0nat,
{
    if props.len() == 0 {
        assert(id_range(id, id) =~= Seq::<nat>::empty());
    } else {
        let pre = props.subrange(0, props.len() - 1);
        let last = props[props.len() - 1];
        let a = enc_props(pre, id).1;
        lemma_props_ids(pre, id);
        lemma_enc_props_mono(pre, id);
        if last.0@ != "_value"@ {
            lemma_issued_ids(last.1, Some(last.0@), a);
            lemma_enc_value_mono(last.1, Some(last.0@), a);
            lemma_range_concat(id, a, enc_props(props, id).1);
        }
    }
}

/// `issued_ids` inside an object's `<Obj>`.
proof fn lemma_object_ids(o: PsObject, id: nat)
    ensures
        object_ids(o, id) == id_range(
            id,
            enc_ms(o.properties@, enc_value_prop(o.properties@, enc_tn(o.type_names@, id).1).1).1,
        ),
        enc_ms(o.properties@, enc_value_prop(o.properties@, enc_tn(o.type_names@, id).1).1).1 >= id,
    decreases o, 0nat,
{
    let names = o.type_names@;
    let props = o.properties@;
    let tn = enc_tn(names, id);
    let vp = enc_value_prop(props, tn.1);
    let ms = enc_ms(props, vp.1);
    lemma_value_prop_ids(props, tn.1);
    lemma_enc_value_prop_mono(props, tn.1);
    let head = if names.len() > 0 {
        seq![id]
    } else {
        Seq::<nat>::empty()
    };
    assert(head =~= id_range(id, tn.1));
    if has_member(props) {
        lemma_props_ids(props, vp.1);
        lemma_enc_props_mono(props, vp.1);
    } else {
        assert(id_range(vp.1, vp.1) =~= Seq::<nat>::empty());
    }
    lemma_range_concat(id, tn.1, vp.1);
    lemma_range_concat(id, vp.1, ms.1);
}

} // verus!
