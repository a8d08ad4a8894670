//! The one change that a CLIXML round trip is allowed to make to a
//! value: a bare list or dictionary is written inside an `<Obj>`, and so
//! reads back as an object holding it under the synthetic `_value`
//! property. An object's `ToString` is written but not read back.

use vstd::prelude::*;
use super::value::{PsValue, PsObject};
use super::view::{
    PsView, ObjView, value_view, object_view, items_view, entries_view, props_view,
    view_props_insert, strings_view, clone_value, clone_strings, lemma_props_insert_view,
    lemma_items_view_len, lemma_entries_view_len,
};
use crate::clixml::encode::string_of;

verus! {

/// An object holding `inner` under `_value`, and nothing else.
pub open spec fn wrap_view(inner: PsView) -> PsView {
    PsView::Object(
        ObjView {
            type_names: Seq::empty(),
            to_string: None,
            properties: seq![("_value"@, inner)],
        },
    )
}

/// A value as a CLIXML round trip gives it back: every list and
/// dictionary, at any depth, wrapped in an object under `_value`; every
/// object without its `ToString`, its properties set in order.
pub open spec fn norm(v: PsView) -> PsView
    decreases v, 1nat,
{
    match v {
        PsView::List(items) => wrap_view(PsView::List(norm_items(items))),
        PsView::Dict(entries) => wrap_view(PsView::Dict(norm_entries(entries))),
        PsView::Object(o) => PsView::Object(
            ObjView { type_names: o.type_names, to_string: None, properties: norm_props(o) },
        ),
        _ => v,
    }
}

/// `norm` of each item.
pub open spec fn norm_items(s: Seq<PsView>) -> Seq<PsView>
    decreases s, 0nat,
{
    if s.len() == 0 {
        Seq::empty()
    } else {
        norm_items(s.subrange(0, s.len() - 1)).push(norm(s[s.len() - 1]))
    }
}

/// `norm` of each key and each value.
pub open spec fn norm_entries(s: Seq<(PsView, PsView)>) -> Seq<(PsView, PsView)>
    decreases s, 0nat,
{
    if s.len() == 0 {
        Seq::empty()
    } else {
        norm_entries(s.subrange(0, s.len() - 1)).push(
            (norm(s[s.len() - 1].0), norm(s[s.len() - 1].1)),
        )
    }
}

/// The properties of an object, each value normalized, set one after
/// the other into an empty property list.
pub open spec fn norm_props(o: ObjView) -> Seq<(Seq<char>, PsView)>
    decreases o, 0nat,
{
    norm_props_upto(o, o.properties.len() as int)
}

/// `norm_props` of the first `n` properties.
pub open spec fn norm_props_upto(o: ObjView, n: int) -> Seq<(Seq<char>, PsView)>
    decreases o, 0nat, n,
{
    if n <= 0 || n > o.properties.len() {
        Seq::empty()
    } else {
        view_props_insert(
            norm_props_upto(o, n - 1),
            o.properties[n - 1].0,
            norm(o.properties[n - 1].1),
        )
    }
}

/// Wrap a container in an object under `_value`.
fn wrap(inner: PsValue) -> (r: PsValue)
    ensures
        value_view(r) == wrap_view(value_view(inner)),
{
    let mut obj = PsObject::new();
    let key = string_of("_value");
    let ghost k = key;
    let ghost v = inner;
    obj.insert(key, inner);
    let r = PsValue::Object(obj);
    proof {
        assert(!super::value::prop_has(Seq::<(String, PsValue)>::empty(), k@));
        assert(obj.properties@ =~= seq![(k, v)]);
        let p = obj.properties@;
        assert(p.subrange(0, p.len() - 1) =~= Seq::<(String, PsValue)>::empty());
        assert(props_view(p) == props_view(p.subrange(0, p.len() - 1)).push((p[0].0@, value_view(p[0].1))));
        assert(props_view(p) =~= seq![("_value"@, value_view(v))]);
        assert(strings_view(obj.type_names@) =~= Seq::<Seq<char>>::empty());
    }
    r
}

/// Apply the change a CLIXML round trip makes to a value: wrap every
/// list and dictionary in an object under `_value`, and drop every
/// object's `ToString`. `roundtrip.rs` and `document_roundtrip.rs` prove
/// that decoding what `to_clixml` writes gives this value for scalars,
/// plain strings, and lists and objects of those.
pub fn normalize(value: &PsValue) -> (r: PsValue)
    ensures
        value_view(r) == norm(value_view(*value)),
    decreases *value, 1nat,
{
    match value {
        PsValue::List(items) => {
            proof {
                assert(decreases_to!(*value => (*value)->List_0));
            }
            wrap(PsValue::List(normalize_items(items)))
        },
        PsValue::Dict(entries) => {
            proof {
                assert(decreases_to!(*value => (*value)->Dict_0));
            }
            wrap(PsValue::Dict(normalize_entries(entries)))
        },
        PsValue::Object(obj) => {
            proof {
                assert(decreases_to!(*value => (*value)->Object_0));
            }
            PsValue::Object(normalize_object(obj))
        },
        _ => clone_value(value),
    }
}

fn normalize_items(items: &Vec<PsValue>) -> (r: Vec<PsValue>)
    ensures
        items_view(r@) == norm_items(items_view(items@)),
    decreases *items, 0nat,
{
    let mut r: Vec<PsValue> = Vec::new();
    let mut i: usize = 0;
    while i < items.len()
        invariant
            i <= items@.len(),
            items_view(r@) == norm_items(items_view(items@.subrange(0, i as int))),
        decreases items@.len() - i,
    {
        proof {
            assert(decreases_to!(*items => items@));
            assert(decreases_to!(items@ => items@[i as int]));
        }
        let c = normalize(&items[i]);
        let ghost old_r = r@;
        r.push(c);
        proof {
            assert(r@.subrange(0, r@.len() - 1) =~= old_r);
            let pre = items@.subrange(0, i + 1);
            let before = items@.subrange(0, i as int);
            assert(pre.subrange(0, i as int) =~= before);
            lemma_items_view_len(before);
            assert(items_view(pre) == items_view(before).push(value_view(items@[i as int])));
            assert(items_view(pre).subrange(0, i as int) =~= items_view(before));
        }
        i = i + 1;
    }
    assert(items@.subrange(0, i as int) =~= items@);
    r
}

fn normalize_entries(entries: &Vec<(PsValue, PsValue)>) -> (r: Vec<(PsValue, PsValue)>)
    ensures
        entries_view(r@) == norm_entries(entries_view(entries@)),
    decreases *entries, 0nat,
{
    let mut r: Vec<(PsValue, PsValue)> = Vec::new();
    let mut i: usize = 0;
    while i < entries.len()
        invariant
            i <= entries@.len(),
            entries_view(r@) == norm_entries(entries_view(entries@.subrange(0, i as int))),
        decreases entries@.len() - i,
    {
        proof {
            assert(decreases_to!(*entries => entries@));
            assert(decreases_to!(entries@ => entries@[i as int]));
            assert(decreases_to!(entries@[i as int] => entries@[i as int].0));
            assert(decreases_to!(entries@[i as int] => entries@[i as int].1));
        }
        let k = normalize(&entries[i].0);
        let x = normalize(&entries[i].1);
        let ghost old_r = r@;
        r.push((k, x));
        proof {
            assert(r@.subrange(0, r@.len() - 1) =~= old_r);
            let pre = entries@.subrange(0, i + 1);
            let before = entries@.subrange(0, i as int);
            assert(pre.subrange(0, i as int) =~= before);
            lemma_entries_view_len(before);
            assert(entries_view(pre) == entries_view(before).push(
                (value_view(entries@[i as int].0), value_view(entries@[i as int].1)),
            ));
            assert(entries_view(pre).subrange(0, i as int) =~= entries_view(before));
        }
        i = i + 1;
    }
    assert(entries@.subrange(0, i as int) =~= entries@);
    r
}

fn normalize_object(obj: &PsObject) -> (r: PsObject)
    ensures
        object_view(r) == (ObjView {
            type_names: object_view(*obj).type_names,
            to_string: None,
            properties: norm_props(object_view(*obj)),
        }),
    decreases *obj, 0nat,
{
    let mut out = PsObject::new();
    out.type_names = clone_strings(&obj.type_names);
    let ghost ov = object_view(*obj);
    let mut i: usize = 0;
    while i < obj.properties.len()
        invariant
            i <= obj.properties@.len(),
            ov == object_view(*obj),
            out.wf(),
            out.to_string is None,
            strings_view(out.type_names@) == ov.type_names,
            props_view(out.properties@) == norm_props_upto(ov, i as int),
        decreases obj.properties@.len() - i,
    {
        proof {
            assert(decreases_to!(*obj => obj.properties));
            assert(decreases_to!(obj.properties => obj.properties@));
            assert(decreases_to!(obj.properties@ => obj.properties@[i as int]));
            assert(decreases_to!(obj.properties@[i as int] => obj.properties@[i as int].1));
            super::view::lemma_props_view(obj.properties@);
        }
        let v = normalize(&obj.properties[i].1);
        let k = obj.properties[i].0.clone();
        let ghost before = out.properties@;
        out.insert(k, v);
        proof {
            lemma_props_insert_view(before, k, v);
        }
        i = i + 1;
    }
    proof {
        super::view::lemma_props_view(obj.properties@);
    }
    out
}

} // verus!
