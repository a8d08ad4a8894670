//! The round trip of nested values: decoding what `to_clixml` writes for
//! lists, dictionaries and objects that hold further lists, dictionaries
//! and objects, to any depth the decoder accepts, gives back what
//! `normalize` makes of the value; and writing that value again and
//! decoding it gives it back unchanged.

use vstd::prelude::*;
use crate::text::dec_nat;
use super::value::{PsValue, PsObject};
use super::view::{
    PsView, ObjView, value_view, items_view, entries_view, props_view, object_view, strings_view,
    view_props_insert, lemma_props_view,
};
use super::encode::{enc_value, enc_tn, enc_value_prop};
use super::decode::{
    DecodeError, DecodeState, decode_spec, doc_from, element, element_inner, initial_state,
    list_from, dict_from, entry_from, members_from, obj_from, obj_child, attr, name_attr,
    finish_object, empty_value, is_primitive_tag, MAX_NESTING_DEPTH,
};
use super::xml::{xml_event_at, EventView, TagView, xml_tag_attributes, name_prefixes, attr_lookup};
use super::normalize::{norm, norm_items, norm_entries, norm_props, norm_props_upto, wrap_view};
use super::roundtrip::{plain_char, is_line_space, events_are, lemma_doc_start, lemma_unescape_plain};
use super::document_roundtrip::{
    is_simple_item, item_tag, item_text, named_content, body_events, names_events_from, events_at,
    lemma_item_value, lemma_body_at, lemma_primitive_at, lemma_names_steps, lemma_decoder_tags,
    lemma_key_value_plain, lemma_name_attr,
};

verus! {

/// A name the encoder writes as it is, in element text and inside an
/// `N="..."` attribute: plain characters and no tab or line break.
pub open spec fn plain_name(n: Seq<char>) -> bool {
    forall|i: int| 0 <= i < n.len() ==> plain_char(#[trigger] n[i]) && !is_line_space(n[i])
}

/// Whether the round trip of `v` written as an element `d` levels deep
/// is covered: its leaves are simple values (as in `is_simple_item`),
/// its objects have no `ToString`, type names of plain characters and
/// properties under plain names other than `_value`, and none of its
/// elements but a `<Nil/>` lies as deep as the decoder's nesting limit.
pub open spec fn round_trips(v: PsValue, d: nat) -> bool
    decreases v, 2nat, 0nat,
{
    &&& (v is Null || d < MAX_NESTING_DEPTH)
    &&& match v {
        PsValue::List(items) => items_round_trip(items@, 0, d + 1),
        PsValue::Dict(entries) => entries_round_trip(entries@, 0, d + 1),
        PsValue::Object(o) => object_round_trips(o, d + 1),
        _ => is_simple_item(v),
    }
}

/// `round_trips` for the items from the `i`-th on.
pub open spec fn items_round_trip(s: Seq<PsValue>, i: int, d: nat) -> bool
    decreases s, 1nat, s.len() - i,
{
    if 0 <= i < s.len() {
        round_trips(s[i], d) && items_round_trip(s, i + 1, d)
    } else {
        true
    }
}

/// `round_trips` for the keys and values from the `i`-th entry on.
pub open spec fn entries_round_trip(s: Seq<(PsValue, PsValue)>, i: int, d: nat) -> bool
    decreases s, 1nat, s.len() - i,
{
    if 0 <= i < s.len() {
        round_trips(s[i].0, d) && round_trips(s[i].1, d) && entries_round_trip(s, i + 1, d)
    } else {
        true
    }
}

/// `round_trips` for an object whose members are `d` levels deep.
pub open spec fn object_round_trips(o: PsObject, d: nat) -> bool
    decreases o, 1nat, 0nat,
{
    &&& o.to_string is None
    &&& forall|j: int, c: int|
        0 <= j < o.type_names@.len() && 0 <= c < o.type_names@[j]@.len() ==> plain_char(
            #[trigger] o.type_names@[j]@[c],
        )
    &&& props_round_trip(o.properties@, 0, d)
}

/// `round_trips` for the properties from the `i`-th on, each under a
/// plain name other than `_value`.
pub open spec fn props_round_trip(s: Seq<(String, PsValue)>, i: int, d: nat) -> bool
    decreases s, 1nat, s.len() - i,
{
    if 0 <= i < s.len() {
        &&& plain_name(s[i].0@)
        &&& s[i].0@ != "_value"@
        &&& round_trips(s[i].1, d)
        &&& props_round_trip(s, i + 1, d)
    } else {
        true
    }
}

/// An object as the decoder gives back a list or dictionary written on
/// its own: no type names and one property, `_value`, holding the list
/// or dictionary. The encoder writes it as it writes what it holds.
pub open spec fn is_wrap(o: PsObject) -> bool {
    &&& o.type_names@.len() == 0
    &&& o.properties@.len() == 1
    &&& o.properties@[0].0@ == "_value"@
    &&& (o.properties@[0].1 is List || o.properties@[0].1 is Dict)
}

/// `round_trips`, with objects that hold a list or dictionary as their
/// only property `_value` (`is_wrap`) admitted too: the values a round
/// trip gives back are of this kind.
pub open spec fn settles(v: PsValue, d: nat) -> bool
    decreases v, 2nat, 0nat,
{
    &&& (v is Null || d < MAX_NESTING_DEPTH)
    &&& match v {
        PsValue::List(items) => items_settle(items@, 0, d + 1),
        PsValue::Dict(entries) => entries_settle(entries@, 0, d + 1),
        PsValue::Object(o) => object_settles(o, d + 1),
        _ => is_simple_item(v),
    }
}

/// `settles` for the items from the `i`-th on.
pub open spec fn items_settle(s: Seq<PsValue>, i: int, d: nat) -> bool
    decreases s, 1nat, s.len() - i,
{
    if 0 <= i < s.len() {
        settles(s[i], d) && items_settle(s, i + 1, d)
    } else {
        true
    }
}

/// `settles` for the keys and values from the `i`-th entry on.
pub open spec fn entries_settle(s: Seq<(PsValue, PsValue)>, i: int, d: nat) -> bool
    decreases s, 1nat, s.len() - i,
{
    if 0 <= i < s.len() {
        settles(s[i].0, d) && settles(s[i].1, d) && entries_settle(s, i + 1, d)
    } else {
        true
    }
}

/// `settles` for an object whose members are `d` levels deep.
pub open spec fn object_settles(o: PsObject, d: nat) -> bool
    decreases o, 1nat, 0nat,
{
    &&& o.to_string is None
    &&& forall|j: int, c: int|
        0 <= j < o.type_names@.len() && 0 <= c < o.type_names@[j]@.len() ==> plain_char(
            #[trigger] o.type_names@[j]@[c],
        )
    &&& if is_wrap(o) {
        match o.properties@[0].1 {
            PsValue::List(items) => items_settle(items@, 0, d),
            PsValue::Dict(entries) => entries_settle(entries@, 0, d),
            _ => false,
        }
    } else {
        props_settle(o.properties@, 0, d)
    }
}

/// `settles` for the properties from the `i`-th on, each under a plain
/// name other than `_value`.
pub open spec fn props_settle(s: Seq<(String, PsValue)>, i: int, d: nat) -> bool
    decreases s, 1nat, s.len() - i,
{
    if 0 <= i < s.len() {
        &&& plain_name(s[i].0@)
        &&& s[i].0@ != "_value"@
        &&& settles(s[i].1, d)
        &&& props_settle(s, i + 1, d)
    } else {
        true
    }
}

/// The value the decoder gives back for what the encoder writes for
/// `v`: lists and dictionaries wrapped in an object under `_value` (an
/// object that already wraps one keeps its single wrapping), objects
/// without their `ToString`, their properties set in order.
pub open spec fn dec_form(v: PsValue) -> PsView
    decreases v, 2nat, 0nat,
{
    match v {
        PsValue::List(items) => wrap_view(PsView::List(dec_items(items@, items@.len() as int))),
        PsValue::Dict(entries) => wrap_view(
            PsView::Dict(dec_entries(entries@, entries@.len() as int)),
        ),
        PsValue::Object(o) => dec_object(o),
        _ => value_view(v),
    }
}

/// `dec_form` of the first `n` items.
pub open spec fn dec_items(s: Seq<PsValue>, n: int) -> Seq<PsView>
    decreases s, 1nat, n,
{
    if n <= 0 || n > s.len() {
        Seq::empty()
    } else {
        dec_items(s, n - 1).push(dec_form(s[n - 1]))
    }
}

/// `dec_form` of the keys and values of the first `n` entries.
pub open spec fn dec_entries(s: Seq<(PsValue, PsValue)>, n: int) -> Seq<(PsView, PsView)>
    decreases s, 1nat, n,
{
    if n <= 0 || n > s.len() {
        Seq::empty()
    } else {
        dec_entries(s, n - 1).push((dec_form(s[n - 1].0), dec_form(s[n - 1].1)))
    }
}

/// `dec_form` of an object.
pub open spec fn dec_object(o: PsObject) -> PsView
    decreases o, 1nat, 0nat,
{
    if is_wrap(o) {
        match o.properties@[0].1 {
            PsValue::List(items) => wrap_view(
                PsView::List(dec_items(items@, items@.len() as int)),
            ),
            PsValue::Dict(entries) => wrap_view(
                PsView::Dict(dec_entries(entries@, entries@.len() as int)),
            ),
            _ => PsView::Null,
        }
    } else {
        PsView::Object(
            ObjView {
                type_names: strings_view(o.type_names@),
                to_string: None,
                properties: dec_props(o.properties@, o.properties@.len() as int),
            },
        )
    }
}

/// The first `n` properties, each value in `dec_form`, set one after
/// the other into an empty property list.
pub open spec fn dec_props(s: Seq<(String, PsValue)>, n: int) -> Seq<(Seq<char>, PsView)>
    decreases s, 1nat, n,
{
    if n <= 0 || n > s.len() {
        Seq::empty()
    } else {
        view_props_insert(dec_props(s, n - 1), s[n - 1].0@, dec_form(s[n - 1].1))
    }
}

/// A tag with no attributes.
pub open spec fn bare_tag(name: Seq<char>) -> TagView {
    TagView { name, content: name }
}

/// The raw content of the `<Obj>` start tag written under an optional
/// name with ref id `id`.
pub open spec fn obj_content(name: Option<Seq<char>>, id: nat) -> Seq<char> {
    match name {
        Some(n) => "Obj N=\""@ + n + "\" RefId=\""@ + dec_nat(id) + "\""@,
        None => "Obj RefId=\""@ + dec_nat(id) + "\""@,
    }
}

/// The raw content of a `<TN>` start tag with ref id `id`.
pub open spec fn tn_content(id: nat) -> Seq<char> {
    "TN RefId=\""@ + dec_nat(id) + "\""@
}

/// The raw content of the start tag of a leaf written under an optional
/// name.
pub open spec fn leaf_content(tag: Seq<char>, name: Option<Seq<char>>) -> Seq<char> {
    match name {
        Some(n) => named_content(tag, n),
        None => tag,
    }
}

/// The first tag the encoder writes for `v` under an optional name.
pub open spec fn head_tag(v: PsValue, name: Option<Seq<char>>, id: nat) -> TagView {
    if v is List || v is Dict || v is Object {
        TagView { name: "Obj"@, content: obj_content(name, id) }
    } else if v is Null {
        TagView { name: "Nil"@, content: leaf_content("Nil"@, name) }
    } else {
        TagView { name: item_tag(v), content: leaf_content(item_tag(v), name) }
    }
}

/// The XML events of the encoding of `v` under an optional name, its
/// `<Obj>` ref ids issued from `id` as the encoder issues them: a null
/// is `<Nil/>`, another leaf `<tag>text</tag>`, a list or dictionary
/// `<Obj><LST>...</LST></Obj>` or `<Obj><DCT>...</DCT></Obj>`, an object
/// that wraps one (`is_wrap`) as what it wraps, and another object
/// `<Obj>` with its `<TN>` and `<MS>` blocks.
pub open spec fn value_events(v: PsValue, name: Option<Seq<char>>, id: nat) -> Seq<EventView>
    decreases v, 2nat, 0nat,
{
    let t = head_tag(v, name, id);
    match v {
        PsValue::Null => seq![EventView::Empty(t)],
        PsValue::List(items) => seq![EventView::Start(t), EventView::Start(bare_tag("LST"@))]
            + list_item_events(items@, 0, id + 1) + seq![
            EventView::End("LST"@),
            EventView::End("Obj"@),
        ],
        PsValue::Dict(entries) => seq![EventView::Start(t), EventView::Start(bare_tag("DCT"@))]
            + dict_entry_events(entries@, 0, id + 1) + seq![
            EventView::End("DCT"@),
            EventView::End("Obj"@),
        ],
        PsValue::Object(o) => if is_wrap(o) {
            match o.properties@[0].1 {
                PsValue::List(items) => seq![
                    EventView::Start(t),
                    EventView::Start(bare_tag("LST"@)),
                ] + list_item_events(items@, 0, id + 1) + seq![
                    EventView::End("LST"@),
                    EventView::End("Obj"@),
                ],
                PsValue::Dict(entries) => seq![
                    EventView::Start(t),
                    EventView::Start(bare_tag("DCT"@)),
                ] + dict_entry_events(entries@, 0, id + 1) + seq![
                    EventView::End("DCT"@),
                    EventView::End("Obj"@),
                ],
                _ => Seq::empty(),
            }
        } else {
            seq![EventView::Start(t)] + object_body_events(o, id + 1) + seq![EventView::End("Obj"@)]
        },
        _ => seq![EventView::Start(t)] + body_events(item_tag(v), item_text(v)),
    }
}

/// The events of list items from the `i`-th on, unnamed.
pub open spec fn list_item_events(s: Seq<PsValue>, i: int, id: nat) -> Seq<EventView>
    decreases s, 1nat, s.len() - i,
{
    if 0 <= i < s.len() {
        value_events(s[i], None, id) + list_item_events(s, i + 1, enc_value(s[i], None, id).1)
    } else {
        Seq::empty()
    }
}

/// The events of dictionary entries from the `i`-th on: each `<En>`
/// holding the key under `Key` and the value under `Value`.
pub open spec fn dict_entry_events(s: Seq<(PsValue, PsValue)>, i: int, id: nat) -> Seq<EventView>
    decreases s, 1nat, s.len() - i,
{
    if 0 <= i < s.len() {
        let vid = enc_value(s[i].0, Some("Key"@), id).1;
        seq![EventView::Start(bare_tag("En"@))] + value_events(s[i].0, Some("Key"@), id)
            + value_events(s[i].1, Some("Value"@), vid) + seq![EventView::End("En"@)]
            + dict_entry_events(s, i + 1, enc_value(s[i].1, Some("Value"@), vid).1)
    } else {
        Seq::empty()
    }
}

/// The events of an object's properties from the `i`-th on, each named.
pub open spec fn member_events(s: Seq<(String, PsValue)>, i: int, id: nat) -> Seq<EventView>
    decreases s, 1nat, s.len() - i,
{
    if 0 <= i < s.len() {
        value_events(s[i].1, Some(s[i].0@), id) + member_events(
            s,
            i + 1,
            enc_value(s[i].1, Some(s[i].0@), id).1,
        )
    } else {
        Seq::empty()
    }
}

/// The events inside an object's `<Obj>`: its `<TN>` block with ref id
/// `id` when it has type names, then its `<MS>` block when it has
/// properties.
pub open spec fn object_body_events(o: PsObject, id: nat) -> Seq<EventView>
    decreases o, 1nat, 0nat,
{
    let names = o.type_names@;
    let props = o.properties@;
    let tn = if names.len() > 0 {
        seq![EventView::Start(TagView { name: "TN"@, content: tn_content(id) })]
            + names_events_from(names, 0) + seq![EventView::End("TN"@)]
    } else {
        Seq::empty()
    };
    tn + member_set_events(props, enc_value_prop(props, enc_tn(names, id).1).1)
}

/// The events of an object's `<MS>` block, none when it has no
/// properties.
pub open spec fn member_set_events(props: Seq<(String, PsValue)>, id: nat) -> Seq<EventView>
    decreases props, 2nat, 0nat,
{
    if props.len() > 0 {
        seq![EventView::Start(bare_tag("MS"@))] + member_events(props, 0, id) + seq![
            EventView::End("MS"@),
        ]
    } else {
        Seq::empty()
    }
}

/// The attributes `quick_xml` reads off the start tags the encoder
/// writes, for names of plain characters without line breaks: `N` (when
/// named) then `RefId` on an `<Obj>`, `RefId` on a `<TN>`, and `N` on a
/// named leaf.
pub open spec fn reads_attributes() -> bool {
    &&& forall|id: nat|
        #[trigger] xml_tag_attributes(obj_content(None, id), "Obj"@) == seq![
            Some(("RefId"@, Some(dec_nat(id)))),
        ]
    &&& forall|n: Seq<char>, id: nat|
        plain_name(n) ==> #[trigger] xml_tag_attributes(obj_content(Some(n), id), "Obj"@) == seq![
            Some(("N"@, Some(n))),
            Some(("RefId"@, Some(dec_nat(id)))),
        ]
    &&& forall|id: nat|
        #[trigger] xml_tag_attributes(tn_content(id), "TN"@) == seq![
            Some(("RefId"@, Some(dec_nat(id)))),
        ]
    &&& forall|tag: Seq<char>, n: Seq<char>|
        plain_name(n) && (tag == "Nil"@ || is_primitive_tag(tag)) ==> #[trigger] xml_tag_attributes(
            named_content(tag, n),
            tag,
        ) == seq![Some(("N"@, Some(n)))]
}

/// An object with nothing in it, as the decoder starts one.
pub open spec fn empty_obj() -> ObjView {
    ObjView { type_names: Seq::empty(), to_string: None, properties: Seq::empty() }
}

/// The object inside a value, or the empty one.
pub open spec fn obj_of(x: PsView) -> ObjView {
    match x {
        PsView::Object(o) => o,
        _ => empty_obj(),
    }
}

/// A run of events inside a longer one.
proof fn lemma_sub_events(doc: Seq<char>, k: nat, evs: Seq<EventView>, i: int, j: int)
    requires
        events_at(doc, k, evs),
        0 <= i <= j <= evs.len(),
    ensures
        events_at(doc, k + i as nat, evs.subrange(i, j)),
{
    let sub = evs.subrange(i, j);
    assert forall|x: nat| x < sub.len() implies #[trigger] xml_event_at(doc, (k + i as nat) + x)
        == Some(sub[x as int]) by {
        assert(xml_event_at(doc, k + (i + x) as nat) == Some(evs[(i + x) as int]));
    }
}

/// `Key` and `Value` are plain names.
proof fn lemma_key_value_names()
    ensures
        plain_name("Key"@),
        plain_name("Value"@),
        "Key"@ != "Value"@,
{
    reveal_strlit("Key");
    reveal_strlit("Value");
    lemma_key_value_plain();
}

/// The attributes of an `<Obj>` start tag the encoder writes: its
/// `RefId`, and its name when it has one.
proof fn lemma_obj_tag_attrs(name: Option<Seq<char>>, id: nat)
    requires
        reads_attributes(),
        name matches Some(n) ==> plain_name(n),
    ensures
        attr(TagView { name: "Obj"@, content: obj_content(name, id) }, "RefId"@)
            == Ok::<_, DecodeError>(Some(dec_nat(id))),
        name matches Some(n) ==> name_attr(TagView { name: "Obj"@, content: obj_content(name, id) })
            == Ok::<_, DecodeError>(Some(n)),
{
    reveal_strlit("Obj");
    reveal_strlit("Obj N=\"");
    reveal_strlit("Obj RefId=\"");
    reveal_strlit("N");
    reveal_strlit("RefId");
    let t = TagView { name: "Obj"@, content: obj_content(name, id) };
    assert(t.content.subrange(0, 3) =~= t.name);
    assert(name_prefixes(t.name, t.content));
    let r = Some(("RefId"@, Some(dec_nat(id))));
    assert(attr_lookup(seq![r], "RefId"@) == Ok::<_, ()>(Some(dec_nat(id))));
    match name {
        Some(n) => {
            let a = seq![Some(("N"@, Some(n))), r];
            assert(xml_tag_attributes(t.content, t.name) == a);
            assert(a.drop_first() =~= seq![r]);
            assert("N"@.len() == 1 && "RefId"@.len() == 5);
            assert(attr_lookup(a, "RefId"@) == Ok::<_, ()>(Some(dec_nat(id))));
            assert(attr_lookup(a, "N"@) == Ok::<_, ()>(Some(n)));
            assert forall|i: int| 0 <= i < n.len() implies #[trigger] n[i] != '_' by {
                assert(plain_char(n[i]));
            }
            lemma_unescape_plain(n, 0);
            assert(n.subrange(0, n.len() as int) =~= n);
        },
        None => {
            assert(xml_tag_attributes(t.content, t.name) == seq![r]);
        },
    }
}

/// The `RefId` of a `<TN>` start tag the encoder writes reads back.
proof fn lemma_tn_attrs(id: nat)
    requires
        reads_attributes(),
    ensures
        attr(TagView { name: "TN"@, content: tn_content(id) }, "RefId"@) == Ok::<_, DecodeError>(
            Some(dec_nat(id)),
        ),
{
    reveal_strlit("TN");
    reveal_strlit("TN RefId=\"");
    let t = TagView { name: "TN"@, content: tn_content(id) };
    assert(t.content.subrange(0, 2) =~= t.name);
    assert(name_prefixes(t.name, t.content));
    let r = Some(("RefId"@, Some(dec_nat(id))));
    assert(xml_tag_attributes(t.content, t.name) == seq![r]);
    assert(attr_lookup(seq![r], "RefId"@) == Ok::<_, ()>(Some(dec_nat(id))));
}

/// The name on the first tag of a value written under a plain name
/// reads back.
proof fn lemma_head_name(v: PsValue, n: Seq<char>, id: nat)
    requires
        reads_attributes(),
        plain_name(n),
        v is Null || v is List || v is Dict || v is Object || is_simple_item(v),
    ensures
        name_attr(head_tag(v, Some(n), id)) == Ok::<_, DecodeError>(Some(n)),
{
    if v is List || v is Dict || v is Object {
        lemma_obj_tag_attrs(Some(n), id);
    } else {
        let tag = head_tag(v, Some(n), id).name;
        if !(v is Null) {
            lemma_item_value(v);
        }
        assert(xml_tag_attributes(named_content(tag, n), tag) == seq![Some(("N"@, Some(n)))]);
        assert forall|i: int| 0 <= i < n.len() implies plain_char(#[trigger] n[i]) by {}
        lemma_name_attr(tag, n);
    }
}

/// `norm` of the items' views, item by item.
proof fn lemma_norm_items_at(s: Seq<PsValue>)
    ensures
        norm_items(items_view(s)).len() == s.len(),
        forall|i: int|
            0 <= i < s.len() ==> #[trigger] norm_items(items_view(s))[i] == norm(value_view(s[i])),
    decreases s.len(),
{
    if s.len() > 0 {
        let l = s.subrange(0, s.len() - 1);
        lemma_norm_items_at(l);
        super::view::lemma_items_view_len(l);
        let iv = items_view(s);
        assert(iv == items_view(l).push(value_view(s[s.len() - 1])));
        assert(iv.subrange(0, iv.len() - 1) =~= items_view(l));
        assert forall|i: int| 0 <= i < s.len() implies #[trigger] norm_items(items_view(s))[i]
            == norm(value_view(s[i])) by {
            if i < s.len() - 1 {
                assert(l[i] == s[i]);
            }
        }
    }
}

/// `norm` of the entries' views, entry by entry.
proof fn lemma_norm_entries_at(s: Seq<(PsValue, PsValue)>)
    ensures
        norm_entries(entries_view(s)).len() == s.len(),
        forall|i: int|
            0 <= i < s.len() ==> #[trigger] norm_entries(entries_view(s))[i] == (
                norm(value_view(s[i].0)),
                norm(value_view(s[i].1)),
            ),
    decreases s.len(),
{
    if s.len() > 0 {
        let l = s.subrange(0, s.len() - 1);
        lemma_norm_entries_at(l);
        super::view::lemma_entries_view_len(l);
        let ev = entries_view(s);
        assert(ev.subrange(0, ev.len() - 1) =~= entries_view(l));
        assert forall|i: int| 0 <= i < s.len() implies #[trigger] norm_entries(entries_view(s))[i]
            == (norm(value_view(s[i].0)), norm(value_view(s[i].1))) by {
            if i < s.len() - 1 {
                assert(l[i] == s[i]);
            }
        }
    }
}

/// The `<T>` events of type names are at least two per name.
proof fn lemma_names_events_len(s: Seq<String>, i: int)
    requires
        0 <= i <= s.len(),
    ensures
        names_events_from(s, i).len() >= 2 * (s.len() - i),
    decreases s.len() - i,
{
    if i < s.len() {
        lemma_names_events_len(s, i + 1);
    }
}

/// Every value is written as at least one event.
proof fn lemma_value_events_len(v: PsValue, name: Option<Seq<char>>, id: nat)
    ensures
        value_events(v, name, id).len() >= 1,
        !(v is Null) ==> value_events(v, name, id).len() >= 2,
{
}

/// An `<Obj>` element whose body decodes to `o` from the event after
/// its start tag: the object, recorded under its `RefId`, at the same
/// depth.
proof fn lemma_obj_element(
    doc: Seq<char>,
    k: nat,
    t: TagView,
    st: DecodeState,
    f: nat,
    o: ObjView,
    kend: nat,
    sb: DecodeState,
) -> (st2: DecodeState)
    requires
        t.name == "Obj"@,
        attr(t, "RefId"@) is Ok,
        st.depth < MAX_NESTING_DEPTH,
        f >= 2,
        obj_from(doc, k + 1, DecodeState { depth: st.depth + 1, ..st }, empty_obj(), None, (f - 2) as nat)
            == Ok::<_, DecodeError>((o, kend, sb)),
    ensures
        element(doc, k + 1, t, st, f) == Ok::<_, DecodeError>((Some(PsView::Object(o)), kend, st2)),
        st2.depth == st.depth,
{
    lemma_decoder_tags();
    let st1 = DecodeState { depth: st.depth + 1, ..st };
    let x = PsView::Object(o);
    let st3 = match attr(t, "RefId"@) {
        Ok(Some(r)) => DecodeState { refs: sb.refs.insert(r, x), ..sb },
        _ => sb,
    };
    assert(element_inner(doc, k + 1, t, st1, (f - 1) as nat) == Ok::<_, DecodeError>(
        (Some(x), kend, st3),
    ));
    DecodeState { depth: st.depth, ..st3 }
}

/// An object's `<TN>` block: decoding goes past it and takes the
/// names.
proof fn lemma_tn_stage(
    doc: Seq<char>,
    k: nat,
    names: Seq<String>,
    id: nat,
    st: DecodeState,
    o: ObjView,
    f: nat,
) -> (st2: DecodeState)
    requires
        names.len() > 0,
        forall|j: int, c: int| 0 <= j < names.len() && 0 <= c < names[j]@.len() ==> plain_char(
            #[trigger] names[j]@[c],
        ),
        reads_attributes(),
        events_at(
            doc,
            k,
            seq![EventView::Start(TagView { name: "TN"@, content: tn_content(id) })]
                + names_events_from(names, 0) + seq![EventView::End("TN"@)],
        ),
        f >= 2 * names_events_from(names, 0).len() + 8,
    ensures
        obj_from(doc, k, st, o, None, f) == obj_from(
            doc,
            k + names_events_from(names, 0).len() + 2,
            st2,
            ObjView { type_names: strings_view(names), ..o },
            None,
            (f - 1) as nat,
        ),
        st2.depth == st.depth,
{
    reveal_strlit("TN");
    reveal_strlit("MS");
    reveal_strlit("Props");
    assert("TN"@.len() == 2 && "MS"@[0] == 'M' && "TN"@[0] == 'T' && "Props"@.len() == 5);
    lemma_tn_attrs(id);
    let tnt = TagView { name: "TN"@, content: tn_content(id) };
    let ne = names_events_from(names, 0);
    let evs = seq![EventView::Start(tnt)] + ne + seq![EventView::End("TN"@)];
    assert(xml_event_at(doc, k + 0) == Some(evs[0]));
    lemma_sub_events(doc, k, evs, 1, evs.len() as int);
    assert(evs.subrange(1, evs.len() as int) =~= ne + seq![EventView::End("TN"@)]);
    lemma_names_events_len(names, 0);
    let sv = strings_view(names);
    assert(sv.subrange(0, 0) =~= Seq::<Seq<char>>::empty());
    lemma_names_steps(doc, k + 1, names, 0, (f - 2) as nat);
    let st2 = DecodeState { type_names: st.type_names.insert(dec_nat(id), sv), ..st };
    let k2: nat = k + 1 + ne.len() + 1;
    assert(obj_child(doc, k + 1, tnt, st, o, None, (f - 1) as nat) == Ok::<_, DecodeError>(
        (k2, st2, ObjView { type_names: sv, ..o }, None::<PsView>),
    ));
    st2
}

/// Decoding the element of a value that is no null, from the event
/// after its first tag: its `dec_form`, the event after its last
/// tag, and a state at the same depth.
proof fn lemma_value(
    doc: Seq<char>,
    k: nat,
    v: PsValue,
    name: Option<Seq<char>>,
    id: nat,
    st: DecodeState,
    f: nat,
) -> (st2: DecodeState)
    requires
        settles(v, st.depth),
        !(v is Null),
        reads_attributes(),
        name matches Some(n) ==> plain_name(n),
        events_at(doc, k, value_events(v, name, id)),
        f >= 2 * value_events(v, name, id).len() + 2,
    ensures
        element(doc, k + 1, head_tag(v, name, id), st, f) == Ok::<_, DecodeError>(
            (Some(dec_form(v)), k + value_events(v, name, id).len(), st2),
        ),
        st2.depth == st.depth,
    decreases v, 3nat, 0nat,
{
    let evs = value_events(v, name, id);
    let t = head_tag(v, name, id);
    let st1 = DecodeState { depth: st.depth + 1, ..st };
    lemma_decoder_tags();
    if v is List || v is Dict || v is Object {
        lemma_obj_tag_attrs(name, id);
        let sb = lemma_container_body(doc, k, v, name, id, st1, (f - 2) as nat);
        lemma_obj_element(doc, k, t, st, f, obj_of(dec_form(v)), k + evs.len(), sb)
    } else {
        lemma_item_value(v);
        let tag = item_tag(v);
        let text = item_text(v);
        let body = body_events(tag, text);
        lemma_sub_events(doc, k, evs, 1, evs.len() as int);
        assert(evs.subrange(1, evs.len() as int) =~= body);
        lemma_body_at(doc, k + 1, tag, text, (f - 2) as nat);
        lemma_primitive_at(doc, k, t, text, value_view(v), st1, (f - 1) as nat, k + evs.len());
        st
    }
}

/// The body of the `<Obj>` of a list, dictionary or object, from the
/// event after its start tag to the event after `</Obj>`.
proof fn lemma_container_body(
    doc: Seq<char>,
    k: nat,
    v: PsValue,
    name: Option<Seq<char>>,
    id: nat,
    st: DecodeState,
    f: nat,
) -> (st2: DecodeState)
    requires
        v is List || v is Dict || v is Object,
        st.depth >= 1,
        settles(v, (st.depth - 1) as nat),
        reads_attributes(),
        events_at(doc, k, value_events(v, name, id)),
        f + 2 >= 2 * value_events(v, name, id).len() + 2,
    ensures
        dec_form(v) == PsView::Object(obj_of(dec_form(v))),
        obj_from(doc, k + 1, st, empty_obj(), None, f) == Ok::<_, DecodeError>(
            (obj_of(dec_form(v)), k + value_events(v, name, id).len(), st2),
        ),
        st2.depth == st.depth,
    decreases v, 2nat, 0nat,
{
    let evs = value_events(v, name, id);
    match v {
        PsValue::List(_) => lemma_list_body(doc, k, v, name, id, st, f),
        PsValue::Dict(_) => lemma_dict_body(doc, k, v, name, id, st, f),
        PsValue::Object(o) => {
            if is_wrap(o) {
                let inner = o.properties@[0].1;
                assert(value_events(v, name, id) == value_events(inner, name, id));
                assert(dec_form(v) == dec_form(inner));
                if inner is List {
                    lemma_list_body(doc, k, inner, name, id, st, f)
                } else {
                    lemma_dict_body(doc, k, inner, name, id, st, f)
                }
            } else {
                let be = object_body_events(o, id + 1);
                lemma_sub_events(doc, k, evs, 1, evs.len() as int);
                assert(evs.subrange(1, evs.len() as int) =~= be + seq![EventView::End("Obj"@)]);
                lemma_object_body(doc, k + 1, o, id + 1, st, f)
            }
        },
        _ => st,
    }
}

/// Reveals the child tags of an `<Obj>` that the decoder tells apart.
proof fn lemma_child_tags()
    ensures
        "DCT"@ != "MS"@ && "DCT"@ != "Props"@ && "DCT"@ != "TN"@ && "DCT"@ != "TNRef"@,
        !super::decode::is_list_tag("DCT"@),
        "LST"@ != "MS"@ && "LST"@ != "Props"@ && "LST"@ != "TN"@ && "LST"@ != "TNRef"@,
        super::decode::is_list_tag("LST"@),
{
    reveal_strlit("DCT");
    reveal_strlit("MS");
    reveal_strlit("Props");
    reveal_strlit("TN");
    reveal_strlit("TNRef");
    reveal_strlit("LST");
    reveal_strlit("IE");
    reveal_strlit("QUE");
    reveal_strlit("STK");
    assert("DCT"@[0] == 'D' && "DCT"@.len() == 3 && "MS"@.len() == 2 && "TN"@.len() == 2
        && "IE"@.len() == 2 && "Props"@.len() == 5 && "TNRef"@.len() == 5 && "LST"@[0] == 'L'
        && "QUE"@[0] == 'Q' && "STK"@[0] == 'S' && "LST"@.len() == 3);
}

/// The only property of an object the decoder starts from an embedded
/// list or dictionary is `_value`.
proof fn lemma_wrap(inner: PsView)
    ensures
        finish_object(empty_obj(), Some(inner)) == obj_of(wrap_view(inner)),
{
    reveal_strlit("_value");
    let o0 = empty_obj();
    assert(!(exists|i: int| 0 <= i < o0.properties.len() && #[trigger] o0.properties[i].0
        == "_value"@));
    assert(finish_object(o0, Some(inner)).properties =~= seq![("_value"@, inner)]);
}

/// The body of the `<Obj>` of a list.
#[verifier::spinoff_prover]
#[verifier::rlimit(30)]
proof fn lemma_list_body(
    doc: Seq<char>,
    k: nat,
    v: PsValue,
    name: Option<Seq<char>>,
    id: nat,
    st: DecodeState,
    f: nat,
) -> (st2: DecodeState)
    requires
        v is List,
        st.depth >= 1,
        settles(v, (st.depth - 1) as nat),
        reads_attributes(),
        events_at(doc, k, value_events(v, name, id)),
        f + 2 >= 2 * value_events(v, name, id).len() + 2,
    ensures
        dec_form(v) == PsView::Object(obj_of(dec_form(v))),
        obj_from(doc, k + 1, st, empty_obj(), None, f) == Ok::<_, DecodeError>(
            (obj_of(dec_form(v)), k + value_events(v, name, id).len(), st2),
        ),
        st2.depth == st.depth,
    decreases v, 1nat, 0nat,
{
    let evs = value_events(v, name, id);
    let o0 = empty_obj();
    lemma_child_tags();
    match v {
        PsValue::List(items) => {
            let s = items@;
            let ie = list_item_events(s, 0, id + 1);
            let lst = bare_tag("LST"@);
            assert(xml_event_at(doc, k + 1) == Some(evs[1]));
            lemma_sub_events(doc, k, evs, 2, 2 + ie.len() as int + 1);
            assert(evs.subrange(2, 2 + ie.len() as int + 1) =~= ie + seq![EventView::End("LST"@)]);
            let ni = dec_items(s, s.len() as int);
            let sb = lemma_items(doc, k + 2, s, 0, id + 1, st, (f - 2) as nat);
            let k3: nat = k + 2 + ie.len() + 1;
            assert(xml_event_at(doc, k + (3 + ie.len()) as nat) == Some(evs[3 + ie.len() as int]));
            assert(obj_child(doc, k + 2, lst, st, o0, None, (f - 1) as nat) == Ok::<_, DecodeError>(
                (k3, sb, o0, Some(PsView::List(ni))),
            ));
            lemma_wrap(PsView::List(ni));
            let o1 = finish_object(o0, Some(PsView::List(ni)));
            assert(dec_form(v) == wrap_view(PsView::List(ni)));
            assert(obj_from(doc, k3, sb, o0, Some(PsView::List(ni)), (f - 1) as nat)
                == Ok::<_, DecodeError>((o1, k3 + 1, sb)));
            sb
        },
        _ => st,
    }
}

/// The body of the `<Obj>` of a dictionary.
#[verifier::spinoff_prover]
#[verifier::rlimit(30)]
proof fn lemma_dict_body(
    doc: Seq<char>,
    k: nat,
    v: PsValue,
    name: Option<Seq<char>>,
    id: nat,
    st: DecodeState,
    f: nat,
) -> (st2: DecodeState)
    requires
        v is Dict,
        st.depth >= 1,
        settles(v, (st.depth - 1) as nat),
        reads_attributes(),
        events_at(doc, k, value_events(v, name, id)),
        f + 2 >= 2 * value_events(v, name, id).len() + 2,
    ensures
        dec_form(v) == PsView::Object(obj_of(dec_form(v))),
        obj_from(doc, k + 1, st, empty_obj(), None, f) == Ok::<_, DecodeError>(
            (obj_of(dec_form(v)), k + value_events(v, name, id).len(), st2),
        ),
        st2.depth == st.depth,
    decreases v, 1nat, 0nat,
{
    let evs = value_events(v, name, id);
    let o0 = empty_obj();
    lemma_child_tags();
    match v {
        PsValue::Dict(entries) => {
            let s = entries@;
            let de = dict_entry_events(s, 0, id + 1);
            let dct = bare_tag("DCT"@);
            assert(xml_event_at(doc, k + 1) == Some(evs[1]));
            lemma_sub_events(doc, k, evs, 2, 2 + de.len() as int + 1);
            assert(evs.subrange(2, 2 + de.len() as int + 1) =~= de + seq![EventView::End("DCT"@)]);
            let ne = dec_entries(s, s.len() as int);
            let sb = lemma_entries(doc, k + 2, s, 0, id + 1, st, (f - 2) as nat);
            let k3: nat = k + 2 + de.len() + 1;
            assert(xml_event_at(doc, k + (3 + de.len()) as nat) == Some(evs[3 + de.len() as int]));
            assert(obj_child(doc, k + 2, dct, st, o0, None, (f - 1) as nat) == Ok::<_, DecodeError>(
                (k3, sb, o0, Some(PsView::Dict(ne))),
            ));
            lemma_wrap(PsView::Dict(ne));
            let o1 = finish_object(o0, Some(PsView::Dict(ne)));
            assert(dec_form(v) == wrap_view(PsView::Dict(ne)));
            assert(obj_from(doc, k3, sb, o0, Some(PsView::Dict(ne)), (f - 1) as nat)
                == Ok::<_, DecodeError>((o1, k3 + 1, sb)));
            sb
        },
        _ => st,
    }
}

/// An object's body, from its first child event to the event after
/// `</Obj>`: its type names and its properties in `dec_form`.
proof fn lemma_object_body(doc: Seq<char>, k: nat, o: PsObject, id: nat, st: DecodeState, f: nat) -> (st2:
    DecodeState)
    requires
        object_settles(o, st.depth),
        !is_wrap(o),
        reads_attributes(),
        events_at(doc, k, object_body_events(o, id) + seq![EventView::End("Obj"@)]),
        f >= 2 * object_body_events(o, id).len() + 4,
    ensures
        obj_from(doc, k, st, empty_obj(), None, f) == Ok::<_, DecodeError>(
            (
                ObjView {
                    type_names: strings_view(o.type_names@),
                    to_string: None,
                    properties: dec_props(o.properties@, o.properties@.len() as int),
                },
                k + object_body_events(o, id).len() + 1,
                st2,
            ),
        ),
        st2.depth == st.depth,
    decreases o, 2nat, 0nat,
{
    let names = o.type_names@;
    let props = o.properties@;
    let be = object_body_events(o, id);
    let evs = be + seq![EventView::End("Obj"@)];
    let pid = enc_value_prop(props, enc_tn(names, id).1).1;
    let ms = member_set_events(props, pid);
    let o0 = empty_obj();
    let sv = strings_view(names);
    if names.len() > 0 {
        let tn = seq![EventView::Start(TagView { name: "TN"@, content: tn_content(id) })]
            + names_events_from(names, 0) + seq![EventView::End("TN"@)];
        assert(be == tn + ms);
        lemma_sub_events(doc, k, evs, 0, tn.len() as int);
        assert(evs.subrange(0, tn.len() as int) =~= tn);
        let sa = lemma_tn_stage(doc, k, names, id, st, o0, f);
        lemma_sub_events(doc, k, evs, tn.len() as int, evs.len() as int);
        assert(evs.subrange(tn.len() as int, evs.len() as int) =~= ms + seq![EventView::End("Obj"@)]);
        lemma_ms_stage(doc, k + tn.len(), o, pid, sa, ObjView { type_names: sv, ..o0 }, (f - 1) as nat)
    } else {
        assert(be == ms);
        assert(sv =~= Seq::<Seq<char>>::empty());
        assert(ObjView { type_names: sv, ..o0 } == o0);
        lemma_ms_stage(doc, k, o, pid, st, o0, f)
    }
}

/// An object's `<MS>` block, if any, and its `</Obj>`: decoding sets its
/// properties in `dec_form`.
proof fn lemma_ms_stage(
    doc: Seq<char>,
    k: nat,
    o: PsObject,
    id: nat,
    st: DecodeState,
    ob: ObjView,
    f: nat,
) -> (st2: DecodeState)
    requires
        props_settle(o.properties@, 0, st.depth),
        ob.properties.len() == 0,
        reads_attributes(),
        events_at(doc, k, member_set_events(o.properties@, id) + seq![EventView::End("Obj"@)]),
        f >= 2 * member_set_events(o.properties@, id).len() + 4,
    ensures
        obj_from(doc, k, st, ob, None, f) == Ok::<_, DecodeError>(
            (
                ObjView { properties: dec_props(o.properties@, o.properties@.len() as int), ..ob },
                k + member_set_events(o.properties@, id).len() + 1,
                st2,
            ),
        ),
        st2.depth == st.depth,
    decreases o, 1nat, 1nat,
{
    reveal_strlit("Obj");
    let s = o.properties@;
    if s.len() > 0 {
        lemma_ms_block(doc, k, o, id, st, ob, f)
    } else {
        let np = dec_props(o.properties@, o.properties@.len() as int);
        assert(xml_event_at(doc, k + 0) == Some(EventView::End("Obj"@)));
        assert(np =~= Seq::<(Seq<char>, PsView)>::empty());
        assert(ob.properties =~= np);
        assert(ObjView { properties: np, ..ob } == ob);
        assert(finish_object(ob, None) == ob);
        st
    }
}

/// An object's `<MS>` block and its `</Obj>`.
#[verifier::spinoff_prover]
#[verifier::rlimit(40)]
proof fn lemma_ms_block(
    doc: Seq<char>,
    k: nat,
    o: PsObject,
    id: nat,
    st: DecodeState,
    ob: ObjView,
    f: nat,
) -> (st2: DecodeState)
    requires
        o.properties@.len() > 0,
        props_settle(o.properties@, 0, st.depth),
        ob.properties.len() == 0,
        reads_attributes(),
        events_at(
            doc,
            k,
            seq![EventView::Start(bare_tag("MS"@))] + member_events(o.properties@, 0, id) + seq![
                EventView::End("MS"@),
            ] + seq![EventView::End("Obj"@)],
        ),
        f >= 2 * member_events(o.properties@, 0, id).len() + 8,
    ensures
        obj_from(doc, k, st, ob, None, f) == Ok::<_, DecodeError>(
            (
                ObjView { properties: dec_props(o.properties@, o.properties@.len() as int), ..ob },
                k + member_events(o.properties@, 0, id).len() + 3,
                st2,
            ),
        ),
        st2.depth == st.depth,
    decreases o, 1nat, 0nat,
{
    reveal_strlit("MS");
    reveal_strlit("Obj");
    let s = o.properties@;
    let np = dec_props(s, s.len() as int);
    let me = member_events(s, 0, id);
    let evs = seq![EventView::Start(bare_tag("MS"@))] + me + seq![EventView::End("MS"@)] + seq![
        EventView::End("Obj"@),
    ];
    assert(xml_event_at(doc, k + 0) == Some(evs[0]));
    lemma_sub_events(doc, k, evs, 1, me.len() as int + 2);
    assert(evs.subrange(1, me.len() as int + 2) =~= me + seq![EventView::End("MS"@)]);
    assert(dec_props(s, 0) == Seq::<(Seq<char>, PsView)>::empty());
    assert(ob.properties =~= dec_props(s, 0));
    let sb = lemma_members(doc, k + 1, s, 0, id, st, (f - 2) as nat);
    assert(members_from(doc, k + 1, st, "MS"@, ob.properties, (f - 2) as nat)
        == Ok::<_, DecodeError>((np, k + 1 + me.len() + 1, sb)));
    let k2: nat = k + 1 + me.len() + 1;
    assert(xml_event_at(doc, k + (me.len() + 2) as nat) == Some(evs[me.len() as int + 2]));
    let o2 = ObjView { properties: np, ..ob };
    assert(obj_child(doc, k + 1, bare_tag("MS"@), st, ob, None, (f - 1) as nat)
        == Ok::<_, DecodeError>((k2, sb, o2, None::<PsView>)));
    assert(finish_object(o2, None) == o2);
    assert(xml_event_at(doc, k2) == Some(EventView::End("Obj"@)));
    assert(obj_from(doc, k2, sb, o2, None, (f - 1) as nat) == Ok::<_, DecodeError>(
        (o2, k2 + 1, sb),
    ));
    sb
}

/// One list item: decoding goes past its events and adds its
/// `dec_form`.
proof fn lemma_item_step(
    doc: Seq<char>,
    k: nat,
    v: PsValue,
    id: nat,
    st: DecodeState,
    acc: Seq<PsView>,
    f: nat,
) -> (st2: DecodeState)
    requires
        settles(v, st.depth),
        reads_attributes(),
        events_at(doc, k, value_events(v, None, id)),
        f >= 2 * value_events(v, None, id).len() + 3,
    ensures
        list_from(doc, k, st, "LST"@, acc, f) == list_from(
            doc,
            k + value_events(v, None, id).len(),
            st2,
            "LST"@,
            acc.push(dec_form(v)),
            (f - 1) as nat,
        ),
        st2.depth == st.depth,
    decreases v, 4nat, 0nat,
{
    let evs = value_events(v, None, id);
    assert(xml_event_at(doc, k + 0) == Some(evs[0]));
    if v is Null {
        reveal_strlit("Nil");
        assert(empty_value(head_tag(v, None, id)) == Some(PsView::Null));
        st
    } else {
        lemma_value(doc, k, v, None, id, st, (f - 1) as nat)
    }
}

/// The list items from the `i`-th on, up to `</LST>`.
proof fn lemma_items(
    doc: Seq<char>,
    k: nat,
    s: Seq<PsValue>,
    i: int,
    id: nat,
    st: DecodeState,
    f: nat,
) -> (st2: DecodeState)
    requires
        0 <= i <= s.len(),
        items_settle(s, i, st.depth),
        reads_attributes(),
        events_at(doc, k, list_item_events(s, i, id) + seq![EventView::End("LST"@)]),
        f >= 2 * list_item_events(s, i, id).len() + 5,
    ensures
        list_from(doc, k, st, "LST"@, dec_items(s, i), f) == Ok::<_, DecodeError>(
            (dec_items(s, s.len() as int), k + list_item_events(s, i, id).len() + 1, st2),
        ),
        st2.depth == st.depth,
    decreases s, 1nat, s.len() - i,
{
    reveal_strlit("LST");
    let ni = dec_items(s, s.len() as int);
    let ie = list_item_events(s, i, id);
    let evs = ie + seq![EventView::End("LST"@)];
    if i == s.len() {
        assert(xml_event_at(doc, k + 0) == Some(evs[0]));
        st
    } else {
        let v = s[i];
        let ve = value_events(v, None, id);
        let nid = enc_value(v, None, id).1;
        let rest = list_item_events(s, i + 1, nid);
        assert(ie == ve + rest);
        lemma_value_events_len(v, None, id);
        lemma_sub_events(doc, k, evs, 0, ve.len() as int);
        assert(evs.subrange(0, ve.len() as int) =~= ve);
        lemma_sub_events(doc, k, evs, ve.len() as int, evs.len() as int);
        assert(evs.subrange(ve.len() as int, evs.len() as int) =~= rest + seq![
            EventView::End("LST"@),
        ]);
        let acc = dec_items(s, i);
        let sa = lemma_item_step(doc, k, v, id, st, acc, f);
        assert(acc.push(dec_form(v)) == dec_items(s, i + 1));
        lemma_items(doc, k + ve.len(), s, i + 1, nid, sa, (f - 1) as nat)
    }
}

/// The key or the value of an `<En>`: decoding goes past its events and
/// takes its `dec_form` as the key or the value.
proof fn lemma_entry_part(
    doc: Seq<char>,
    k: nat,
    part: Seq<char>,
    v: PsValue,
    id: nat,
    st: DecodeState,
    key: PsView,
    val: PsView,
    f: nat,
) -> (st2: DecodeState)
    requires
        part == "Key"@ || part == "Value"@,
        settles(v, st.depth),
        reads_attributes(),
        events_at(doc, k, value_events(v, Some(part), id)),
        f >= 2 * value_events(v, Some(part), id).len() + 3,
    ensures
        entry_from(doc, k, st, key, val, f) == entry_from(
            doc,
            k + value_events(v, Some(part), id).len(),
            st2,
            if part == "Key"@ {
                dec_form(v)
            } else {
                key
            },
            if part == "Key"@ {
                val
            } else {
                dec_form(v)
            },
            (f - 1) as nat,
        ),
        st2.depth == st.depth,
    decreases v, 4nat, 0nat,
{
    reveal_strlit("Nil");
    lemma_key_value_names();
    let evs = value_events(v, Some(part), id);
    assert(xml_event_at(doc, k + 0) == Some(evs[0]));
    lemma_head_name(v, part, id);
    if v is Null {
        st
    } else {
        lemma_item_value_or_container(v, st.depth);
        lemma_value(doc, k, v, Some(part), id, st, (f - 1) as nat)
    }
}

/// The dictionary entries from the `i`-th on, up to `</DCT>`.
proof fn lemma_entries(
    doc: Seq<char>,
    k: nat,
    s: Seq<(PsValue, PsValue)>,
    i: int,
    id: nat,
    st: DecodeState,
    f: nat,
) -> (st2: DecodeState)
    requires
        0 <= i <= s.len(),
        entries_settle(s, i, st.depth),
        reads_attributes(),
        events_at(doc, k, dict_entry_events(s, i, id) + seq![EventView::End("DCT"@)]),
        f >= 2 * dict_entry_events(s, i, id).len() + 5,
    ensures
        dict_from(doc, k, st, dec_entries(s, i), f) == Ok::<_, DecodeError>(
            (dec_entries(s, s.len() as int), k + dict_entry_events(s, i, id).len() + 1, st2),
        ),
        st2.depth == st.depth,
    decreases s, 1nat, s.len() - i,
{
    reveal_strlit("En");
    reveal_strlit("DCT");
    assert("En"@.len() == 2 && "DCT"@.len() == 3);
    lemma_key_value_names();
    let ne = dec_entries(s, s.len() as int);
    let de = dict_entry_events(s, i, id);
    let evs = de + seq![EventView::End("DCT"@)];
    assert(xml_event_at(doc, k + 0) == Some(evs[0]));
    if i == s.len() {
        st
    } else {
        let e = s[i];
        let vid = enc_value(e.0, Some("Key"@), id).1;
        let nid = enc_value(e.1, Some("Value"@), vid).1;
        let ke = value_events(e.0, Some("Key"@), id);
        let ve = value_events(e.1, Some("Value"@), vid);
        let rest = dict_entry_events(s, i + 1, nid);
        let n = ke.len() + ve.len() + 2;
        assert(de == seq![EventView::Start(bare_tag("En"@))] + ke + ve + seq![EventView::End("En"@)]
            + rest);
        lemma_sub_events(doc, k, evs, 1, 1 + ke.len() as int);
        assert(evs.subrange(1, 1 + ke.len() as int) =~= ke);
        lemma_sub_events(doc, k, evs, 1 + ke.len() as int, 1 + ke.len() as int + ve.len());
        assert(evs.subrange(1 + ke.len() as int, 1 + ke.len() as int + ve.len()) =~= ve);
        assert(xml_event_at(doc, k + (1 + ke.len() + ve.len()) as nat) == Some(
            evs[1 + ke.len() as int + ve.len()],
        ));
        lemma_sub_events(doc, k, evs, n as int, evs.len() as int);
        assert(evs.subrange(n as int, evs.len() as int) =~= rest + seq![EventView::End("DCT"@)]);
        let sa = lemma_entry_part(
            doc,
            k + 1,
            "Key"@,
            e.0,
            id,
            st,
            PsView::Null,
            PsView::Null,
            (f - 1) as nat,
        );
        let nk = dec_form(e.0);
        let sb = lemma_entry_part(
            doc,
            k + 1 + ke.len(),
            "Value"@,
            e.1,
            vid,
            sa,
            nk,
            PsView::Null,
            (f - 2) as nat,
        );
        let kv = (nk, dec_form(e.1));
        assert(entry_from(doc, k + 1 + ke.len() + ve.len(), sb, kv.0, kv.1, (f - 3) as nat)
            == Ok::<_, DecodeError>((kv, k + n, sb)));
        let acc = dec_entries(s, i);
        assert(acc.push(kv) == dec_entries(s, i + 1));
        lemma_entries(doc, k + n, s, i + 1, nid, sb, (f - 1) as nat)
    }
}

/// One property in a member set: decoding goes past its events and sets
/// it to its `dec_form`.
proof fn lemma_member_step(
    doc: Seq<char>,
    k: nat,
    pname: Seq<char>,
    v: PsValue,
    id: nat,
    st: DecodeState,
    acc: Seq<(Seq<char>, PsView)>,
    f: nat,
) -> (st2: DecodeState)
    requires
        plain_name(pname),
        settles(v, st.depth),
        reads_attributes(),
        events_at(doc, k, value_events(v, Some(pname), id)),
        f >= 2 * value_events(v, Some(pname), id).len() + 3,
    ensures
        members_from(doc, k, st, "MS"@, acc, f) == members_from(
            doc,
            k + value_events(v, Some(pname), id).len(),
            st2,
            "MS"@,
            view_props_insert(acc, pname, dec_form(v)),
            (f - 1) as nat,
        ),
        st2.depth == st.depth,
    decreases v, 4nat, 0nat,
{
    reveal_strlit("Nil");
    let evs = value_events(v, Some(pname), id);
    assert(xml_event_at(doc, k + 0) == Some(evs[0]));
    lemma_item_value_or_container(v, st.depth);
    lemma_head_name(v, pname, id);
    if v is Null {
        st
    } else {
        lemma_value(doc, k, v, Some(pname), id, st, (f - 1) as nat)
    }
}

/// The properties of a member set from the `i`-th on, up to `</MS>`.
proof fn lemma_members(
    doc: Seq<char>,
    k: nat,
    s: Seq<(String, PsValue)>,
    i: int,
    id: nat,
    st: DecodeState,
    f: nat,
) -> (st2: DecodeState)
    requires
        0 <= i <= s.len(),
        props_settle(s, i, st.depth),
        reads_attributes(),
        events_at(doc, k, member_events(s, i, id) + seq![EventView::End("MS"@)]),
        f >= 2 * member_events(s, i, id).len() + 5,
    ensures
        members_from(doc, k, st, "MS"@, dec_props(s, i), f) == Ok::<_, DecodeError>(
            (dec_props(s, s.len() as int), k + member_events(s, i, id).len() + 1, st2),
        ),
        st2.depth == st.depth,
    decreases s, 1nat, s.len() - i,
{
    reveal_strlit("MS");
    let me = member_events(s, i, id);
    let evs = me + seq![EventView::End("MS"@)];
    if i == s.len() {
        assert(xml_event_at(doc, k + 0) == Some(evs[0]));
        st
    } else {
        let p = s[i];
        let ve = value_events(p.1, Some(p.0@), id);
        let nid = enc_value(p.1, Some(p.0@), id).1;
        let rest = member_events(s, i + 1, nid);
        assert(me == ve + rest);
        lemma_value_events_len(p.1, Some(p.0@), id);
        lemma_sub_events(doc, k, evs, 0, ve.len() as int);
        assert(evs.subrange(0, ve.len() as int) =~= ve);
        lemma_sub_events(doc, k, evs, ve.len() as int, evs.len() as int);
        assert(evs.subrange(ve.len() as int, evs.len() as int) =~= rest + seq![
            EventView::End("MS"@),
        ]);
        let acc = dec_props(s, i);
        let sa = lemma_member_step(doc, k, p.0@, p.1, id, st, acc, f);
        assert(dec_props(s, i + 1) == view_props_insert(acc, p.0@, dec_form(p.1)));
        lemma_members(doc, k + ve.len(), s, i + 1, nid, sa, (f - 1) as nat)
    }
}

/// A value whose round trip is covered is a null, a container or a
/// simple value.
proof fn lemma_item_value_or_container(v: PsValue, d: nat)
    requires
        settles(v, d),
    ensures
        v is Null || v is List || v is Dict || v is Object || is_simple_item(v),
{
}

/// A simple element the encoder writes starts with `<`.
proof fn lemma_simple_xml_lt(tag: Seq<char>, body: Seq<char>, self_close: bool)
    ensures
        super::encode::simple_xml(tag, body, None, self_close).len() > 0,
        super::encode::simple_xml(tag, body, None, self_close)[0] == '<',
{
    reveal_strlit("<");
}

/// What the encoder writes for a value that is no list, dictionary or
/// object starts with `<`.
#[verifier::spinoff_prover]
#[verifier::rlimit(60)]
proof fn lemma_scalar_starts_with_lt(v: PsValue)
    requires
        !(v is List || v is Dict || v is Object),
    ensures
        super::encode::enc_scalar(v, None).len() > 0,
        super::encode::enc_scalar(v, None)[0] == '<',
{
    assert forall|tag: Seq<char>, body: Seq<char>, sc: bool|
        #[trigger] super::encode::simple_xml(tag, body, None, sc).len() > 0
            && super::encode::simple_xml(tag, body, None, sc)[0] == '<' by {
        lemma_simple_xml_lt(tag, body, sc);
    }
}

/// What the encoder writes for any value starts with `<`.
proof fn lemma_enc_starts_with_lt(v: PsValue)
    ensures
        enc_value(v, None, 0).0.len() > 0,
        enc_value(v, None, 0).0[0] == '<',
{
    reveal_strlit("<Obj RefId=\"");
    let d = enc_value(v, None, 0).0;
    if v is List || v is Dict || v is Object {
        let head = super::encode::obj_open(None, 0);
        assert(head[0] == '<');
        match v {
            PsValue::Object(o) => {
                let tn = enc_tn(o.type_names@, 1);
                let vp = enc_value_prop(o.properties@, tn.1);
                let ms = super::encode::enc_ms(o.properties@, vp.1);
                assert(d == head + tn.0 + super::encode::enc_ts(o.to_string) + vp.0 + ms.0
                    + "</Obj>"@);
            },
            _ => {},
        }
        assert(d[0] == head[0]);
    } else {
        assert(d == super::encode::enc_scalar(v, None));
        lemma_scalar_starts_with_lt(v);
    }
}

/// Decoding what `to_clixml` writes for a value that `settles` gives
/// back its `dec_form`, given the events and attributes as in
/// `lemma_nested_document_roundtrip`.
#[verifier::spinoff_prover]
#[verifier::rlimit(80)]
pub proof fn lemma_settled_document(v: PsValue)
    requires
        settles(v, 0),
        reads_attributes(),
        events_are(enc_value(v, None, 0).0, value_events(v, None, 0)),
        value_events(v, None, 0).len() < 0x1000_0000,
    ensures
        decode_spec(enc_value(v, None, 0).0) == Ok::<_, DecodeError>(seq![dec_form(v)]),
{
    let doc = enc_value(v, None, 0).0;
    lemma_enc_starts_with_lt(v);
    lemma_doc_start(doc);
    let m = usize::MAX as nat;
    let st0 = initial_state();
    let evs = value_events(v, None, 0);
    let n = evs.len();
    assert(events_at(doc, 0, evs)) by {
        assert forall|i: nat| i < evs.len() implies #[trigger] xml_event_at(doc, 0 + i) == Some(
            evs[i as int],
        ) by {
            assert(xml_event_at(doc, i) == Some(evs[i as int]));
        }
    }
    assert(xml_event_at(doc, n) == Some(EventView::Eof));
    assert(xml_event_at(doc, 0) == Some(evs[0]));
    let x = dec_form(v);
    if v is Null {
        reveal_strlit("Nil");
        assert(empty_value(head_tag(v, None, 0)) == Some(PsView::Null));
        assert(doc_from(doc, 1, st0, seq![x], (m - 1) as nat) == Ok::<_, DecodeError>(seq![x]));
    } else {
        let st2 = lemma_value(doc, 0, v, None, 0, st0, (m - 1) as nat);
        assert(doc_from(doc, n, st2, seq![x], (m - 1) as nat) == Ok::<_, DecodeError>(seq![x]));
    }
    assert(Seq::<PsView>::empty().push(x) =~= seq![x]);
}

/// `dec_form` of the first `n` items, item by item.
proof fn lemma_dec_items_at(s: Seq<PsValue>, n: int)
    requires
        0 <= n <= s.len(),
    ensures
        dec_items(s, n).len() == n,
        forall|i: int| 0 <= i < n ==> #[trigger] dec_items(s, n)[i] == dec_form(s[i]),
    decreases n,
{
    if n > 0 {
        lemma_dec_items_at(s, n - 1);
    }
}

/// `dec_form` of the first `n` entries, entry by entry.
proof fn lemma_dec_entries_at(s: Seq<(PsValue, PsValue)>, n: int)
    requires
        0 <= n <= s.len(),
    ensures
        dec_entries(s, n).len() == n,
        forall|i: int|
            0 <= i < n ==> #[trigger] dec_entries(s, n)[i] == (dec_form(s[i].0), dec_form(s[i].1)),
    decreases n,
{
    if n > 0 {
        lemma_dec_entries_at(s, n - 1);
    }
}

/// A value whose round trip is covered `settles`, and its `dec_form` is
/// its `normalize`d view.
proof fn lemma_bridge(v: PsValue, d: nat)
    requires
        round_trips(v, d),
    ensures
        settles(v, d),
        dec_form(v) == norm(value_view(v)),
    decreases v, 2nat, 0nat,
{
    match v {
        PsValue::List(items) => {
            let s = items@;
            lemma_bridge_items(s, 0, d + 1);
            lemma_dec_items_at(s, s.len() as int);
            lemma_norm_items_at(s);
            assert(dec_items(s, s.len() as int) =~= norm_items(items_view(s)));
        },
        PsValue::Dict(entries) => {
            let s = entries@;
            lemma_bridge_entries(s, 0, d + 1);
            lemma_dec_entries_at(s, s.len() as int);
            lemma_norm_entries_at(s);
            assert(dec_entries(s, s.len() as int) =~= norm_entries(entries_view(s)));
        },
        PsValue::Object(o) => {
            let s = o.properties@;
            reveal_strlit("_value");
            lemma_bridge_props(s, 0, d + 1);
            assert(!is_wrap(o));
            lemma_props_view(s);
            lemma_dec_props_norm(o, s.len() as int);
        },
        _ => {
            if !(v is Null) {
                lemma_item_value(v);
            }
        },
    }
}

/// `lemma_bridge` for the items from the `i`-th on.
proof fn lemma_bridge_items(s: Seq<PsValue>, i: int, d: nat)
    requires
        0 <= i <= s.len(),
        items_round_trip(s, i, d),
    ensures
        items_settle(s, i, d),
        forall|j: int| i <= j < s.len() ==> #[trigger] dec_form(s[j]) == norm(value_view(s[j])),
    decreases s, 1nat, s.len() - i,
{
    if i < s.len() {
        lemma_bridge(s[i], d);
        lemma_bridge_items(s, i + 1, d);
    }
}

/// `lemma_bridge` for the keys and values from the `i`-th entry on.
proof fn lemma_bridge_entries(s: Seq<(PsValue, PsValue)>, i: int, d: nat)
    requires
        0 <= i <= s.len(),
        entries_round_trip(s, i, d),
    ensures
        entries_settle(s, i, d),
        forall|j: int|
            i <= j < s.len() ==> #[trigger] dec_form(s[j].0) == norm(value_view(s[j].0)) && dec_form(
                s[j].1,
            ) == norm(value_view(s[j].1)),
    decreases s, 1nat, s.len() - i,
{
    if i < s.len() {
        lemma_bridge(s[i].0, d);
        lemma_bridge(s[i].1, d);
        lemma_bridge_entries(s, i + 1, d);
    }
}

/// `lemma_bridge` for the properties from the `i`-th on.
proof fn lemma_bridge_props(s: Seq<(String, PsValue)>, i: int, d: nat)
    requires
        0 <= i <= s.len(),
        props_round_trip(s, i, d),
    ensures
        props_settle(s, i, d),
        forall|j: int| i <= j < s.len() ==> #[trigger] dec_form(s[j].1) == norm(value_view(s[j].1)),
        forall|j: int| i <= j < s.len() ==> #[trigger] s[j].0@ != "_value"@,
    decreases s, 1nat, s.len() - i,
{
    if i < s.len() {
        lemma_bridge(s[i].1, d);
        lemma_bridge_props(s, i + 1, d);
    }
}

/// The properties set in `dec_form` are those `normalize` sets, when
/// each value's `dec_form` is its `normalize`d view.
proof fn lemma_dec_props_norm(o: PsObject, n: int)
    requires
        0 <= n <= o.properties@.len(),
        forall|j: int|
            0 <= j < o.properties@.len() ==> #[trigger] dec_form(o.properties@[j].1) == norm(
                value_view(o.properties@[j].1),
            ),
    ensures
        dec_props(o.properties@, n) == norm_props_upto(object_view(o), n),
    decreases n,
{
    lemma_props_view(o.properties@);
    if n > 0 {
        lemma_dec_props_norm(o, n - 1);
        let ov = object_view(o);
        let p = o.properties@[n - 1];
        assert(ov.properties[n - 1] == (p.0@, value_view(p.1)));
        assert(dec_form(p.1) == norm(value_view(p.1)));
        assert(norm_props_upto(ov, n) == view_props_insert(
            norm_props_upto(ov, n - 1),
            p.0@,
            norm(value_view(p.1)),
        ));
        assert(dec_props(o.properties@, n) == view_props_insert(
            dec_props(o.properties@, n - 1),
            p.0@,
            dec_form(p.1),
        ));
    }
}

/// Decoding what `to_clixml` writes for a value gives back its
/// `normalize`d form, for lists, dictionaries and objects nested to any
/// depth the decoder accepts: every leaf a boolean, integer, character,
/// byte array, null, or text value of plain characters (a decimal's
/// without surrounding white space), every object without `ToString`,
/// with type names of plain characters and properties under plain names
/// other than `_value`. Given that the XML reader splits the document
/// into the events `value_events` lists, and reads the `N` and `RefId`
/// attributes off the tags the encoder writes (`reads_attributes`).
pub proof fn lemma_nested_document_roundtrip(v: PsValue)
    requires
        round_trips(v, 0),
        reads_attributes(),
        events_are(enc_value(v, None, 0).0, value_events(v, None, 0)),
        value_events(v, None, 0).len() < 0x1000_0000,
    ensures
        decode_spec(enc_value(v, None, 0).0) == Ok::<_, DecodeError>(seq![norm(value_view(v))]),
{
    lemma_bridge(v, 0);
    lemma_settled_document(v);
}

/// Whether every object in `v` is well formed: no two properties of one
/// object share a name.
pub open spec fn objects_wf(v: PsValue) -> bool
    decreases v, 2nat, 0nat,
{
    match v {
        PsValue::List(items) => items_wf(items@, 0),
        PsValue::Dict(entries) => entries_wf(entries@, 0),
        PsValue::Object(o) => o.wf() && props_wf(o.properties@, 0),
        _ => true,
    }
}

/// `objects_wf` for the items from the `i`-th on.
pub open spec fn items_wf(s: Seq<PsValue>, i: int) -> bool
    decreases s, 1nat, s.len() - i,
{
    if 0 <= i < s.len() {
        objects_wf(s[i]) && items_wf(s, i + 1)
    } else {
        true
    }
}

/// `objects_wf` for the keys and values from the `i`-th entry on.
pub open spec fn entries_wf(s: Seq<(PsValue, PsValue)>, i: int) -> bool
    decreases s, 1nat, s.len() - i,
{
    if 0 <= i < s.len() {
        objects_wf(s[i].0) && objects_wf(s[i].1) && entries_wf(s, i + 1)
    } else {
        true
    }
}

/// `objects_wf` for the property values from the `i`-th on.
pub open spec fn props_wf(s: Seq<(String, PsValue)>, i: int) -> bool
    decreases s, 1nat, s.len() - i,
{
    if 0 <= i < s.len() {
        objects_wf(s[i].1) && props_wf(s, i + 1)
    } else {
        true
    }
}

/// The models of items, item by item.
proof fn lemma_items_view_at(s: Seq<PsValue>)
    ensures
        items_view(s).len() == s.len(),
        forall|i: int| 0 <= i < s.len() ==> #[trigger] items_view(s)[i] == value_view(s[i]),
    decreases s.len(),
{
    if s.len() > 0 {
        let l = s.subrange(0, s.len() - 1);
        lemma_items_view_at(l);
        assert forall|i: int| 0 <= i < s.len() implies #[trigger] items_view(s)[i] == value_view(
            s[i],
        ) by {
            if i < s.len() - 1 {
                assert(l[i] == s[i]);
            }
        }
    }
}

/// The models of entries, entry by entry.
proof fn lemma_entries_view_at(s: Seq<(PsValue, PsValue)>)
    ensures
        entries_view(s).len() == s.len(),
        forall|i: int|
            0 <= i < s.len() ==> #[trigger] entries_view(s)[i] == (
                value_view(s[i].0),
                value_view(s[i].1),
            ),
    decreases s.len(),
{
    if s.len() > 0 {
        let l = s.subrange(0, s.len() - 1);
        lemma_entries_view_at(l);
        assert forall|i: int| 0 <= i < s.len() implies #[trigger] entries_view(s)[i] == (
            value_view(s[i].0),
            value_view(s[i].1),
        ) by {
            if i < s.len() - 1 {
                assert(l[i] == s[i]);
            }
        }
    }
}

/// `round_trips` and `objects_wf` of every item from the `i`-th on.
proof fn lemma_items_at(s: Seq<PsValue>, i: int, d: nat)
    requires
        0 <= i <= s.len(),
        items_round_trip(s, i, d),
        items_wf(s, i),
    ensures
        forall|j: int| i <= j < s.len() ==> round_trips(#[trigger] s[j], d) && objects_wf(s[j]),
    decreases s.len() - i,
{
    if i < s.len() {
        lemma_items_at(s, i + 1, d);
    }
}

/// `round_trips` and `objects_wf` of every key and value from the
/// `i`-th entry on.
proof fn lemma_entries_at(s: Seq<(PsValue, PsValue)>, i: int, d: nat)
    requires
        0 <= i <= s.len(),
        entries_round_trip(s, i, d),
        entries_wf(s, i),
    ensures
        forall|j: int|
            i <= j < s.len() ==> round_trips(#[trigger] s[j].0, d) && objects_wf(s[j].0)
                && round_trips(s[j].1, d) && objects_wf(s[j].1),
    decreases s.len() - i,
{
    if i < s.len() {
        lemma_entries_at(s, i + 1, d);
    }
}

/// `round_trips` and `objects_wf` of every property from the `i`-th on.
proof fn lemma_props_at(s: Seq<(String, PsValue)>, i: int, d: nat)
    requires
        0 <= i <= s.len(),
        props_round_trip(s, i, d),
        props_wf(s, i),
    ensures
        forall|j: int|
            i <= j < s.len() ==> round_trips(#[trigger] s[j].1, d) && objects_wf(s[j].1)
                && plain_name(s[j].0@) && s[j].0@ != "_value"@,
    decreases s.len() - i,
{
    if i < s.len() {
        lemma_props_at(s, i + 1, d);
    }
}

/// Items that each settle make a run that settles.
proof fn lemma_items_settle(s: Seq<PsValue>, i: int, d: nat)
    requires
        0 <= i <= s.len(),
        forall|j: int| i <= j < s.len() ==> settles(#[trigger] s[j], d),
    ensures
        items_settle(s, i, d),
    decreases s.len() - i,
{
    if i < s.len() {
        lemma_items_settle(s, i + 1, d);
    }
}

/// Entries whose keys and values each settle make a run that settles.
proof fn lemma_entries_settle(s: Seq<(PsValue, PsValue)>, i: int, d: nat)
    requires
        0 <= i <= s.len(),
        forall|j: int| i <= j < s.len() ==> settles(#[trigger] s[j].0, d) && settles(s[j].1, d),
    ensures
        entries_settle(s, i, d),
    decreases s.len() - i,
{
    if i < s.len() {
        lemma_entries_settle(s, i + 1, d);
    }
}

/// Properties that each settle under plain names other than `_value`
/// make a run that settles.
proof fn lemma_props_settle(s: Seq<(String, PsValue)>, i: int, d: nat)
    requires
        0 <= i <= s.len(),
        forall|j: int|
            i <= j < s.len() ==> settles(#[trigger] s[j].1, d) && plain_name(s[j].0@) && s[j].0@
                != "_value"@,
    ensures
        props_settle(s, i, d),
    decreases s.len() - i,
{
    if i < s.len() {
        assert(settles(s[i].1, d));
        lemma_props_settle(s, i + 1, d);
    }
}

/// Setting properties of distinct names in order appends them.
proof fn lemma_norm_props_distinct(o: PsObject, n: int)
    requires
        0 <= n <= o.properties@.len(),
        o.wf(),
    ensures
        norm_props_upto(object_view(o), n) == Seq::new(
            n as nat,
            |j: int| (o.properties@[j].0@, norm(value_view(o.properties@[j].1))),
        ),
    decreases n,
{
    let s = o.properties@;
    let ov = object_view(o);
    lemma_props_view(s);
    let target = Seq::new(n as nat, |j: int| (s[j].0@, norm(value_view(s[j].1))));
    if n > 0 {
        lemma_norm_props_distinct(o, n - 1);
        let acc = norm_props_upto(ov, n - 1);
        let key = s[n - 1].0@;
        assert(ov.properties[n - 1] == (key, value_view(s[n - 1].1)));
        assert(!(exists|i: int| 0 <= i < acc.len() && #[trigger] acc[i].0 == key)) by {
            if exists|i: int| 0 <= i < acc.len() && #[trigger] acc[i].0 == key {
                let i = choose|i: int| 0 <= i < acc.len() && #[trigger] acc[i].0 == key;
                assert(acc[i].0 == s[i].0@);
                assert(s[i].0@ != s[n - 1].0@);
            }
        }
        assert(norm_props_upto(ov, n) == acc.push((key, norm(value_view(s[n - 1].1)))));
        assert(acc.push((key, norm(value_view(s[n - 1].1)))) =~= target);
    } else {
        assert(target =~= Seq::<(Seq<char>, PsView)>::empty());
    }
}

/// `dec_props` of properties of distinct names appends them.
proof fn lemma_dec_props_distinct(s: Seq<(String, PsValue)>, n: int)
    requires
        0 <= n <= s.len(),
        super::value::names_unique(s),
    ensures
        dec_props(s, n) == Seq::new(n as nat, |j: int| (s[j].0@, dec_form(s[j].1))),
    decreases n,
{
    let target = Seq::new(n as nat, |j: int| (s[j].0@, dec_form(s[j].1)));
    if n > 0 {
        lemma_dec_props_distinct(s, n - 1);
        let acc = dec_props(s, n - 1);
        let key = s[n - 1].0@;
        assert(!(exists|i: int| 0 <= i < acc.len() && #[trigger] acc[i].0 == key)) by {
            if exists|i: int| 0 <= i < acc.len() && #[trigger] acc[i].0 == key {
                let i = choose|i: int| 0 <= i < acc.len() && #[trigger] acc[i].0 == key;
                assert(acc[i].0 == s[i].0@);
                assert(s[i].0@ != s[n - 1].0@);
            }
        }
        assert(dec_props(s, n) == acc.push((key, dec_form(s[n - 1].1))));
        assert(acc.push((key, dec_form(s[n - 1].1))) =~= target);
    } else {
        assert(target =~= Seq::<(Seq<char>, PsView)>::empty());
    }
}

/// A value whose view is the `normalize`d view of a covered value with
/// well-formed objects `settles`, and is its own `dec_form`.
proof fn lemma_normal_form(v: PsValue, w: PsValue, d: nat)
    requires
        round_trips(v, d),
        objects_wf(v),
        value_view(w) == norm(value_view(v)),
    ensures
        settles(w, d),
        dec_form(w) == value_view(w),
    decreases v, 2nat, 0nat,
{
    match v {
        PsValue::List(items) => {
            let s = items@;
            let ni = norm_items(items_view(s));
            lemma_norm_items_at(s);
            lemma_items_at(s, 0, d + 1);
            assert(w is Object);
            let o2 = w->Object_0;
            let p2 = o2.properties@;
            lemma_props_view(p2);
            assert(props_view(p2) == seq![("_value"@, PsView::List(ni))]);
            assert(p2.len() == 1);
            assert(props_view(p2)[0] == (p2[0].0@, value_view(p2[0].1)));
            assert(p2[0].0@ == "_value"@);
            assert(value_view(p2[0].1) == PsView::List(ni));
            assert(strings_view(o2.type_names@).len() == 0);
            match p2[0].1 {
                PsValue::List(items2) => {
                    let s2 = items2@;
                    lemma_items_view_at(s2);
                    assert(items_view(s2) == ni);
                    assert forall|j: int| 0 <= j < s2.len() implies settles(#[trigger] s2[j], d + 1)
                        && dec_form(s2[j]) == value_view(s2[j]) by {
                        assert(items_view(s2)[j] == value_view(s2[j]));
                        assert(ni[j] == norm(value_view(s[j])));
                        assert(value_view(s2[j]) == norm(value_view(s[j])));
                        lemma_normal_form(s[j], s2[j], d + 1);
                    }
                    lemma_items_settle(s2, 0, d + 1);
                    lemma_dec_items_at(s2, s2.len() as int);
                    assert(dec_items(s2, s2.len() as int) =~= items_view(s2));
                    assert(is_wrap(o2));
                },
                _ => {},
            }
        },
        PsValue::Dict(entries) => {
            let s = entries@;
            let ne = norm_entries(entries_view(s));
            lemma_norm_entries_at(s);
            lemma_entries_at(s, 0, d + 1);
            assert(w is Object);
            let o2 = w->Object_0;
            let p2 = o2.properties@;
            lemma_props_view(p2);
            assert(props_view(p2) == seq![("_value"@, PsView::Dict(ne))]);
            assert(p2.len() == 1);
            assert(props_view(p2)[0] == (p2[0].0@, value_view(p2[0].1)));
            assert(p2[0].0@ == "_value"@);
            assert(value_view(p2[0].1) == PsView::Dict(ne));
            assert(strings_view(o2.type_names@).len() == 0);
            match p2[0].1 {
                PsValue::Dict(entries2) => {
                    let s2 = entries2@;
                    lemma_entries_view_at(s2);
                    assert(entries_view(s2) == ne);
                    assert forall|j: int| 0 <= j < s2.len() implies settles(#[trigger] s2[j].0, d + 1)
                        && settles(s2[j].1, d + 1) && dec_form(s2[j].0) == value_view(s2[j].0)
                        && dec_form(s2[j].1) == value_view(s2[j].1) by {
                        assert(entries_view(s2)[j] == ne[j]);
                        lemma_normal_form(s[j].0, s2[j].0, d + 1);
                        lemma_normal_form(s[j].1, s2[j].1, d + 1);
                    }
                    lemma_entries_settle(s2, 0, d + 1);
                    lemma_dec_entries_at(s2, s2.len() as int);
                    assert(dec_entries(s2, s2.len() as int) =~= entries_view(s2));
                    assert(is_wrap(o2));
                },
                _ => {},
            }
        },
        PsValue::Object(o) => {
            let s = o.properties@;
            assert(w is Object);
            let o2 = w->Object_0;
            let s2 = o2.properties@;
            lemma_props_at(s, 0, d + 1);
            lemma_props_view(s);
            lemma_props_view(s2);
            lemma_norm_props_distinct(o, s.len() as int);
            assert(object_view(o).properties.len() == s.len());
            let np = Seq::new(s.len(), |j: int| (s[j].0@, norm(value_view(s[j].1))));
            assert(props_view(s2) == np);
            assert(s2.len() == s.len());
            assert forall|j: int| 0 <= j < s2.len() implies #[trigger] s2[j].0@ == s[j].0@
                && value_view(s2[j].1) == norm(value_view(s[j].1)) by {
                assert(props_view(s2)[j] == np[j]);
            }
            assert forall|j: int| 0 <= j < s2.len() implies settles(#[trigger] s2[j].1, d + 1)
                && plain_name(s2[j].0@) && s2[j].0@ != "_value"@ && dec_form(s2[j].1)
                == value_view(s2[j].1) by {
                assert(s2[j].0@ == s[j].0@);
                lemma_normal_form(s[j].1, s2[j].1, d + 1);
            }
            lemma_props_settle(s2, 0, d + 1);
            assert(super::value::names_unique(s2)) by {
                assert forall|i: int, j: int| 0 <= i < j < s2.len() implies #[trigger] s2[i].0@
                    != #[trigger] s2[j].0@ by {
                    assert(s2[i].0@ == s[i].0@);
                    assert(s2[j].0@ == s[j].0@);
                }
            }
            lemma_dec_props_distinct(s2, s2.len() as int);
            assert(dec_props(s2, s2.len() as int) =~= props_view(s2));
            assert(strings_view(o2.type_names@) == strings_view(o.type_names@));
            assert forall|j: int, c: int|
                0 <= j < o2.type_names@.len() && 0 <= c < o2.type_names@[j]@.len() implies plain_char(
                #[trigger] o2.type_names@[j]@[c],
            ) by {
                assert(strings_view(o2.type_names@)[j] == strings_view(o.type_names@)[j]);
            }
            if s2.len() == 1 {
                assert(s2[0].0@ != "_value"@);
            }
            assert(!is_wrap(o2));
            assert(o2.to_string is None);
        },
        _ => {
            if !(v is Null) {
                lemma_item_value(v);
            }
        },
    }
}

/// The round trip settles after one pass: for a value `v` as in
/// `lemma_nested_document_roundtrip` whose objects are well formed,
/// decoding what `to_clixml` writes for it gives a value `w` (its
/// `normalize`d form), and decoding what `to_clixml` writes for `w`
/// gives `w` again. Given the events and attributes of both documents
/// as there.
pub proof fn lemma_decoded_value_settles(v: PsValue, w: PsValue)
    requires
        round_trips(v, 0),
        objects_wf(v),
        value_view(w) == norm(value_view(v)),
        reads_attributes(),
        events_are(enc_value(v, None, 0).0, value_events(v, None, 0)),
        value_events(v, None, 0).len() < 0x1000_0000,
        events_are(enc_value(w, None, 0).0, value_events(w, None, 0)),
        value_events(w, None, 0).len() < 0x1000_0000,
    ensures
        decode_spec(enc_value(v, None, 0).0) == Ok::<_, DecodeError>(seq![value_view(w)]),
        decode_spec(enc_value(w, None, 0).0) == Ok::<_, DecodeError>(seq![value_view(w)]),
{
    lemma_nested_document_roundtrip(v);
    lemma_normal_form(v, w, 0);
    lemma_settled_document(w);
}

} // verus!
