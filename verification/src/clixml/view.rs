//! The mathematical model of a [`PsValue`]: the same tree, with text as
//! character sequences and collections as sequences.

use vstd::prelude::*;
use super::value::{PsValue, PsObject, props_insert, prop_has, names_unique};

verus! {

/// The model of a [`PsValue`].
pub enum PsView {
    Null,
    Bool(bool),
    I8(i8),
    U8(u8),
    I16(i16),
    U16(u16),
    I32(i32),
    U32(u32),
    I64(i64),
    U64(u64),
    F32(Seq<char>),
    Double(Seq<char>),
    Decimal(Seq<char>),
    Char(char),
    String(Seq<char>),
    Bytes(Seq<u8>),
    DateTime(Seq<char>),
    Duration(Seq<char>),
    Guid(Seq<u8>),
    Version(Seq<char>),
    Uri(Seq<char>),
    Xml(Seq<char>),
    ScriptBlock(Seq<char>),
    SecureString(Seq<char>),
    List(Seq<PsView>),
    Dict(Seq<(PsView, PsView)>),
    Object(ObjView),
}

/// The model of a [`PsObject`].
pub struct ObjView {
    pub type_names: Seq<Seq<char>>,
    pub to_string: Option<Seq<char>>,
    pub properties: Seq<(Seq<char>, PsView)>,
}

/// The model of a value.
pub open spec fn value_view(v: PsValue) -> PsView
    decreases v, 1nat,
{
    match v {
        PsValue::Null => PsView::Null,
        PsValue::Bool(b) => PsView::Bool(b),
        PsValue::I8(x) => PsView::I8(x),
        PsValue::U8(x) => PsView::U8(x),
        PsValue::I16(x) => PsView::I16(x),
        PsValue::U16(x) => PsView::U16(x),
        PsValue::I32(x) => PsView::I32(x),
        PsValue::U32(x) => PsView::U32(x),
        PsValue::I64(x) => PsView::I64(x),
        PsValue::U64(x) => PsView::U64(x),
        PsValue::F32(s) => PsView::F32(s@),
        PsValue::Double(s) => PsView::Double(s@),
        PsValue::Decimal(s) => PsView::Decimal(s@),
        PsValue::Char(c) => PsView::Char(c),
        PsValue::String(s) => PsView::String(s@),
        PsValue::Bytes(b) => PsView::Bytes(b@),
        PsValue::DateTime(s) => PsView::DateTime(s@),
        PsValue::Duration(s) => PsView::Duration(s@),
        PsValue::Guid(g) => PsView::Guid(g@),
        PsValue::Version(s) => PsView::Version(s@),
        PsValue::Uri(s) => PsView::Uri(s@),
        PsValue::Xml(s) => PsView::Xml(s@),
        PsValue::ScriptBlock(s) => PsView::ScriptBlock(s@),
        PsValue::SecureString(s) => PsView::SecureString(s@),
        PsValue::List(items) => PsView::List(items_view(items@)),
        PsValue::Dict(entries) => PsView::Dict(entries_view(entries@)),
        PsValue::Object(o) => PsView::Object(object_view(o)),
    }
}

/// The models of a sequence of values.
pub open spec fn items_view(s: Seq<PsValue>) -> Seq<PsView>
    decreases s, 0nat,
{
    if s.len() == 0 {
        Seq::empty()
    } else {
        items_view(s.subrange(0, s.len() - 1)).push(value_view(s[s.len() - 1]))
    }
}

/// The models of dictionary entries.
pub open spec fn entries_view(s: Seq<(PsValue, PsValue)>) -> Seq<(PsView, PsView)>
    decreases s, 0nat,
{
    if s.len() == 0 {
        Seq::empty()
    } else {
        entries_view(s.subrange(0, s.len() - 1)).push(
            (value_view(s[s.len() - 1].0), value_view(s[s.len() - 1].1)),
        )
    }
}

/// The models of named properties.
pub open spec fn props_view(s: Seq<(String, PsValue)>) -> Seq<(Seq<char>, PsView)>
    decreases s, 0nat,
{
    if s.len() == 0 {
        Seq::empty()
    } else {
        props_view(s.subrange(0, s.len() - 1)).push(
            (s[s.len() - 1].0@, value_view(s[s.len() - 1].1)),
        )
    }
}

/// The views of a list of strings.
pub open spec fn strings_view(s: Seq<String>) -> Seq<Seq<char>> {
    Seq::new(s.len(), |i: int| s[i]@)
}

/// The model of an object.
pub open spec fn object_view(o: PsObject) -> ObjView
    decreases o, 0nat,
{
    ObjView {
        type_names: strings_view(o.type_names@),
        to_string: match o.to_string {
            Some(t) => Some(t@),
            None => None,
        },
        properties: props_view(o.properties@),
    }
}

/// The property list after setting `key` to `value`: an existing entry
/// of that name keeps its place and takes the new value, otherwise the
/// pair is appended.
pub open spec fn view_props_insert(
    props: Seq<(Seq<char>, PsView)>,
    key: Seq<char>,
    value: PsView,
) -> Seq<(Seq<char>, PsView)> {
    if exists|i: int| 0 <= i < props.len() && #[trigger] props[i].0 == key {
        let i = choose|i: int| 0 <= i < props.len() && #[trigger] props[i].0 == key;
        props.update(i, (key, value))
    } else {
        props.push((key, value))
    }
}

/// The length and entries of `props_view`.
pub proof fn lemma_props_view(s: Seq<(String, PsValue)>)
    ensures
        props_view(s).len() == s.len(),
        forall|i: int|
            0 <= i < s.len() ==> #[trigger] props_view(s)[i] == (s[i].0@, value_view(s[i].1)),
    decreases s.len(),
{
    if s.len() > 0 {
        lemma_props_view(s.subrange(0, s.len() - 1));
    }
}

/// The length of `items_view`.
pub proof fn lemma_items_view_len(s: Seq<PsValue>)
    ensures
        items_view(s).len() == s.len(),
    decreases s.len(),
{
    if s.len() > 0 {
        lemma_items_view_len(s.subrange(0, s.len() - 1));
    }
}

/// The length of `entries_view`.
pub proof fn lemma_entries_view_len(s: Seq<(PsValue, PsValue)>)
    ensures
        entries_view(s).len() == s.len(),
    decreases s.len(),
{
    if s.len() > 0 {
        lemma_entries_view_len(s.subrange(0, s.len() - 1));
    }
}

/// Inserting into a property list commutes with taking its model.
pub proof fn lemma_props_insert_view(props: Seq<(String, PsValue)>, key: String, value: PsValue)
    requires
        names_unique(props),
    ensures
        props_view(props_insert(props, key, value)) == view_props_insert(
            props_view(props),
            key@,
            value_view(value),
        ),
{
    let p = props_insert(props, key, value);
    let pv = props_view(props);
    lemma_props_view(props);
    lemma_props_view(p);
    if prop_has(props, key@) {
        let i = choose|i: int| 0 <= i < props.len() && #[trigger] props[i].0@ == key@;
        assert(pv[i].0 == key@);
        let j = choose|j: int| 0 <= j < pv.len() && #[trigger] pv[j].0 == key@;
        assert(props[j].0@ == key@);
        assert(i == j) by {
            if i < j {
                assert(props[i].0@ != props[j].0@);
            } else if j < i {
                assert(props[j].0@ != props[i].0@);
            }
        }
        assert(props_view(p) =~= pv.update(j, (key@, value_view(value))));
    } else {
        assert(!(exists|i: int| 0 <= i < pv.len() && #[trigger] pv[i].0 == key@)) by {
            if exists|i: int| 0 <= i < pv.len() && #[trigger] pv[i].0 == key@ {
                let i = choose|i: int| 0 <= i < pv.len() && #[trigger] pv[i].0 == key@;
                assert(props[i].0@ == key@);
            }
        }
        assert(props_view(p) =~= pv.push((key@, value_view(value))));
    }
}

/// A copy of a string.
fn clone_string(s: &String) -> (r: String)
    ensures
        r@ == s@,
{
    s.clone()
}

/// A copy of a byte vector.
fn clone_bytes(b: &Vec<u8>) -> (r: Vec<u8>)
    ensures
        r@ == b@,
{
    let mut r: Vec<u8> = Vec::new();
    let mut i: usize = 0;
    while i < b.len()
        invariant
            i <= b@.len(),
            r@ == b@.subrange(0, i as int),
        decreases b@.len() - i,
    {
        r.push(b[i]);
        i = i + 1;
    }
    assert(r@ =~= b@);
    r
}

/// A deep copy of a value, equal to it in the model.
pub fn clone_value(v: &PsValue) -> (r: PsValue)
    ensures
        value_view(r) == value_view(*v),
    decreases *v, 1nat,
{
    match v {
        PsValue::Null => PsValue::Null,
        PsValue::Bool(b) => PsValue::Bool(*b),
        PsValue::I8(x) => PsValue::I8(*x),
        PsValue::U8(x) => PsValue::U8(*x),
        PsValue::I16(x) => PsValue::I16(*x),
        PsValue::U16(x) => PsValue::U16(*x),
        PsValue::I32(x) => PsValue::I32(*x),
        PsValue::U32(x) => PsValue::U32(*x),
        PsValue::I64(x) => PsValue::I64(*x),
        PsValue::U64(x) => PsValue::U64(*x),
        PsValue::F32(s) => PsValue::F32(clone_string(s)),
        PsValue::Double(s) => PsValue::Double(clone_string(s)),
        PsValue::Decimal(s) => PsValue::Decimal(clone_string(s)),
        PsValue::Char(c) => PsValue::Char(*c),
        PsValue::String(s) => PsValue::String(clone_string(s)),
        PsValue::Bytes(b) => PsValue::Bytes(clone_bytes(b)),
        PsValue::DateTime(s) => PsValue::DateTime(clone_string(s)),
        PsValue::Duration(s) => PsValue::Duration(clone_string(s)),
        PsValue::Guid(g) => PsValue::Guid(*g),
        PsValue::Version(s) => PsValue::Version(clone_string(s)),
        PsValue::Uri(s) => PsValue::Uri(clone_string(s)),
        PsValue::Xml(s) => PsValue::Xml(clone_string(s)),
        PsValue::ScriptBlock(s) => PsValue::ScriptBlock(clone_string(s)),
        PsValue::SecureString(s) => PsValue::SecureString(clone_string(s)),
        PsValue::List(items) => {
            proof {
                assert(decreases_to!(*v => (*v)->List_0));
            }
            PsValue::List(clone_items(items))
        },
        PsValue::Dict(entries) => {
            proof {
                assert(decreases_to!(*v => (*v)->Dict_0));
            }
            PsValue::Dict(clone_entries(entries))
        },
        PsValue::Object(o) => {
            proof {
                assert(decreases_to!(*v => (*v)->Object_0));
            }
            PsValue::Object(clone_object(o))
        },
    }
}

/// A deep copy of a list of values.
fn clone_items(items: &Vec<PsValue>) -> (r: Vec<PsValue>)
    ensures
        items_view(r@) == items_view(items@),
    decreases *items, 0nat,
{
    let mut r: Vec<PsValue> = Vec::new();
    let mut i: usize = 0;
    while i < items.len()
        invariant
            i <= items@.len(),
            items_view(r@) == items_view(items@.subrange(0, i as int)),
        decreases items@.len() - i,
    {
        proof {
            assert(decreases_to!(*items => items@));
            assert(decreases_to!(items@ => items@[i as int]));
        }
        let c = clone_value(&items[i]);
        let ghost old_r = r@;
        r.push(c);
        proof {
            assert(r@.subrange(0, r@.len() - 1) =~= old_r);
            assert(items@.subrange(0, i + 1).subrange(0, i as int) =~= items@.subrange(0, i as int));
        }
        i = i + 1;
    }
    assert(items@.subrange(0, i as int) =~= items@);
    r
}

/// A deep copy of dictionary entries.
fn clone_entries(entries: &Vec<(PsValue, PsValue)>) -> (r: Vec<(PsValue, PsValue)>)
    ensures
        entries_view(r@) == entries_view(entries@),
    decreases *entries, 0nat,
{
    let mut r: Vec<(PsValue, PsValue)> = Vec::new();
    let mut i: usize = 0;
    while i < entries.len()
        invariant
            i <= entries@.len(),
            entries_view(r@) == entries_view(entries@.subrange(0, i as int)),
        decreases entries@.len() - i,
    {
        proof {
            assert(decreases_to!(*entries => entries@));
            assert(decreases_to!(entries@ => entries@[i as int]));
            assert(decreases_to!(entries@[i as int] => entries@[i as int].0));
            assert(decreases_to!(entries@[i as int] => entries@[i as int].1));
        }
        let k = clone_value(&entries[i].0);
        let x = clone_value(&entries[i].1);
        let ghost old_r = r@;
        r.push((k, x));
        proof {
            assert(r@.subrange(0, r@.len() - 1) =~= old_r);
            assert(entries@.subrange(0, i + 1).subrange(0, i as int) =~= entries@.subrange(
                0,
                i as int,
            ));
        }
        i = i + 1;
    }
    assert(entries@.subrange(0, i as int) =~= entries@);
    r
}

/// A copy of a list of strings.
pub fn clone_strings(s: &Vec<String>) -> (r: Vec<String>)
    ensures
        strings_view(r@) == strings_view(s@),
{
    let mut r: Vec<String> = Vec::new();
    let mut i: usize = 0;
    while i < s.len()
        invariant
            i <= s@.len(),
            r@.len() == i,
            forall|j: int| 0 <= j < i ==> #[trigger] r@[j]@ == s@[j]@,
        decreases s@.len() - i,
    {
        r.push(clone_string(&s[i]));
        i = i + 1;
    }
    assert(strings_view(r@) =~= strings_view(s@));
    r
}

/// A deep copy of an object.
fn clone_object(o: &PsObject) -> (r: PsObject)
    ensures
        object_view(r) == object_view(*o),
        names_unique(o.properties@) ==> names_unique(r.properties@),
    decreases *o, 0nat,
{
    let type_names = clone_strings(&o.type_names);
    let to_string = match &o.to_string {
        Some(t) => Some(clone_string(t)),
        None => None,
    };
    let mut props: Vec<(String, PsValue)> = Vec::new();
    let mut i: usize = 0;
    while i < o.properties.len()
        invariant
            i <= o.properties@.len(),
            props@.len() == i,
            props_view(props@) == props_view(o.properties@.subrange(0, i as int)),
            forall|j: int| 0 <= j < i ==> #[trigger] props@[j].0@ == o.properties@[j].0@,
        decreases o.properties@.len() - i,
    {
        proof {
            assert(decreases_to!(*o => o.properties));
            assert(decreases_to!(o.properties => o.properties@));
            assert(decreases_to!(o.properties@ => o.properties@[i as int]));
            assert(decreases_to!(o.properties@[i as int] => o.properties@[i as int].1));
        }
        let k = clone_string(&o.properties[i].0);
        let x = clone_value(&o.properties[i].1);
        let ghost old_p = props@;
        props.push((k, x));
        proof {
            assert(props@.subrange(0, props@.len() - 1) =~= old_p);
            assert(o.properties@.subrange(0, i + 1).subrange(0, i as int) =~= o.properties@.subrange(
                0,
                i as int,
            ));
        }
        i = i + 1;
    }
    assert(o.properties@.subrange(0, i as int) =~= o.properties@);
    let r = PsObject { type_names, to_string, properties: props };
    proof {
        if names_unique(o.properties@) {
            assert forall|a: int, b: int| 0 <= a < b < r.properties@.len()
            implies #[trigger] r.properties@[a].0@ != #[trigger] r.properties@[b].0@ by {
                assert(o.properties@[a].0@ != o.properties@[b].0@);
            }
        }
    }
    r
}

} // verus!
