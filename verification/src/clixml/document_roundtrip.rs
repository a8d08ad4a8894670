//! The round trip of lists and objects written on their own: decoding
//! what `to_clixml` writes gives back what `normalize` makes of the
//! value. A list comes back as the object holding it under `_value`; an
//! object comes back with the same properties.

use vstd::prelude::*;
use super::value::PsValue;
use super::view::{value_view, items_view, PsView, ObjView, view_props_insert};
use super::encode::enc_value;
use super::decode::{
    primitive_value, DecodeError, DecodeState, decode_spec, doc_from, element, element_inner,
    text_from, initial_state, empty_value, is_primitive_tag, list_from, obj_from, obj_child,
    is_list_tag, attr, finish_object,
};
use super::xml::{xml_event_at, EventView, TagView, xml_tag_attributes, name_prefixes, attr_lookup};
use super::escape::unescape_from;
use super::normalize::{norm, norm_items, norm_entries, wrap_view};
use super::roundtrip::{
    is_text_scalar, scalar_tag, scalar_text, plain_char, simple_element_events, events_are,
    lemma_scalar_text_roundtrip, lemma_scalar_text_plain, lemma_unescape_plain, lemma_tag_chars,
    lemma_doc_start,
};

verus! {

/// The text values that are written as their text, and the tags they
/// are written under: strings, dates, durations, versions, URIs, XML,
/// script blocks, secure strings and decimals.
pub open spec fn text_like_tag(v: PsValue) -> Option<Seq<char>> {
    match v {
        PsValue::String(_) => Some("S"@),
        PsValue::DateTime(_) => Some("DT"@),
        PsValue::Duration(_) => Some("TS"@),
        PsValue::Version(_) => Some("Version"@),
        PsValue::Uri(_) => Some("URI"@),
        PsValue::Xml(_) => Some("XD"@),
        PsValue::ScriptBlock(_) => Some("SCT"@),
        PsValue::SecureString(_) => Some("SS"@),
        PsValue::Decimal(_) => Some("D"@),
        _ => None,
    }
}

/// The text of a text value.
pub open spec fn text_like_text(v: PsValue) -> Seq<char> {
    match v {
        PsValue::String(s) => s@,
        PsValue::DateTime(s) => s@,
        PsValue::Duration(s) => s@,
        PsValue::Version(s) => s@,
        PsValue::Uri(s) => s@,
        PsValue::Xml(s) => s@,
        PsValue::ScriptBlock(s) => s@,
        PsValue::SecureString(s) => s@,
        PsValue::Decimal(s) => s@,
        _ => Seq::empty(),
    }
}

/// The values whose round trip inside lists and objects is proved:
/// booleans, integers, characters, byte arrays, nulls, and text values
/// of plain characters (a decimal's also without surrounding white
/// space, since the decoder trims it).
pub open spec fn is_simple_item(v: PsValue) -> bool {
    ||| is_text_scalar(v)
    ||| v is Null
    ||| (text_like_tag(v) is Some && (forall|i: int|
        0 <= i < text_like_text(v).len() ==> plain_char(#[trigger] text_like_text(v)[i])) && (
    v is Decimal ==> super::scalars::trim(text_like_text(v)) == text_like_text(v)))
}

/// The tag and text of a simple item that is no null.
pub open spec fn item_tag(v: PsValue) -> Seq<char> {
    match text_like_tag(v) {
        Some(t) => t,
        None => scalar_tag(v),
    }
}

pub open spec fn item_text(v: PsValue) -> Seq<char> {
    if text_like_tag(v) is Some {
        text_like_text(v)
    } else {
        scalar_text(v)
    }
}

/// The events of a simple item as the encoder writes it without a name.
pub open spec fn item_events(v: PsValue) -> Seq<EventView> {
    if v is Null {
        seq![EventView::Empty(TagView { name: "Nil"@, content: "Nil"@ })]
    } else {
        simple_element_events(item_tag(v), item_text(v))
    }
}

/// The events of list items, in order.
pub open spec fn items_events(s: Seq<PsValue>) -> Seq<EventView>
    decreases s.len(),
{
    if s.len() == 0 {
        Seq::empty()
    } else {
        item_events(s[0]) + items_events(s.drop_first())
    }
}

/// The `<Obj>` start tag `to_clixml` writes around a list on its own.
pub open spec fn list_obj_tag() -> TagView {
    TagView { name: "Obj"@, content: "Obj RefId=\"0\""@ }
}

/// The events of `<Obj RefId="0"><LST>items</LST></Obj>`.
pub open spec fn list_document_events(items: Seq<PsValue>) -> Seq<EventView> {
    seq![
        EventView::Start(list_obj_tag()),
        EventView::Start(TagView { name: "LST"@, content: "LST"@ }),
    ] + items_events(items) + seq![EventView::End("LST"@), EventView::End("Obj"@)]
}

/// Whether the events of `doc` from `k` on start with `events`.
pub open spec fn events_at(doc: Seq<char>, k: nat, events: Seq<EventView>) -> bool {
    forall|i: nat| i < events.len() ==> #[trigger] xml_event_at(doc, k + i) == Some(events[i as int])
}

/// The text of a primitive element from position `k`.
proof fn lemma_text_at(doc: Seq<char>, k: nat, tag: Seq<char>, text: Seq<char>, f: nat)
    requires
        events_at(doc, k, simple_element_events(tag, text)),
        forall|i: int| 0 <= i < text.len() ==> #[trigger] text[i] != '_',
        f >= 2,
    ensures
        text_from(doc, k + 1, tag, Seq::empty(), f) == Ok::<_, DecodeError>(
            (text, k + simple_element_events(tag, text).len()),
        ),
{
    let evs = simple_element_events(tag, text);
    let n = evs.len();
    assert(xml_event_at(doc, k + (n - 1) as nat) == Some(evs[n - 1]));
    lemma_unescape_plain(text, 0);
    assert(text.subrange(0, text.len() as int) =~= text);
    if text.len() == 0 {
        assert(unescape_from(Seq::<char>::empty(), 0) == text);
    } else {
        assert(xml_event_at(doc, k + 1) == Some(evs[1]));
        assert(Seq::<char>::empty() + text =~= text);
        assert(text_from(doc, k + 2, tag, text, (f - 1) as nat) == Ok::<_, DecodeError>(
            (text, k + 3),
        ));
    }
}

/// The primitive element at `k`, read from its first child event on.
pub(crate) proof fn lemma_primitive_at(
    doc: Seq<char>,
    k: nat,
    t: TagView,
    text: Seq<char>,
    view: PsView,
    st: DecodeState,
    f: nat,
    n: nat,
)
    requires
        f >= 1,
        is_primitive_tag(t.name),
        text_from(doc, k + 1, t.name, Seq::empty(), (f - 1) as nat) == Ok::<_, DecodeError>((text, n)),
        primitive_value(t.name, text) == Ok::<_, DecodeError>(view),
    ensures
        element_inner(doc, k + 1, t, st, f) == Ok::<_, DecodeError>((Some(view), n, st)),
{
}

/// The tag, text and value of a simple item that is no null.
pub(crate) proof fn lemma_item_value(v: PsValue)
    requires
        is_simple_item(v),
        !(v is Null),
    ensures
        is_primitive_tag(item_tag(v)),
        forall|i: int| 0 <= i < item_text(v).len() ==> #[trigger] item_text(v)[i] != '_',
        primitive_value(item_tag(v), item_text(v)) == Ok::<_, DecodeError>(value_view(v)),
        norm(value_view(v)) == value_view(v),
{
    lemma_tag_chars();
    if text_like_tag(v) is Some {
        lemma_text_tags();
        let t = item_text(v);
        assert forall|i: int| 0 <= i < t.len() implies #[trigger] t[i] != '_' by {
            assert(plain_char(t[i]));
        }
    } else {
        lemma_scalar_text_roundtrip(v, None);
        lemma_scalar_text_plain(v);
    }
}

/// The tags of text values, told apart from the other primitive tags.
pub(crate) proof fn lemma_text_tags()
    ensures
        "DT"@.len() == 2 && "DT"@[0] == 'D' && "DT"@[1] == 'T',
        "TS"@.len() == 2 && "TS"@[0] == 'T' && "TS"@[1] == 'S',
        "Version"@.len() == 7,
        "URI"@.len() == 3 && "URI"@[0] == 'U' && "URI"@[1] == 'R',
        "XD"@.len() == 2 && "XD"@[0] == 'X',
        "SCT"@.len() == 3 && "SCT"@[0] == 'S',
        "SS"@.len() == 2 && "SS"@[0] == 'S' && "SS"@[1] == 'S',
        "G"@.len() == 1 && "G"@[0] == 'G',
{
    reveal_strlit("DT");
    reveal_strlit("TS");
    reveal_strlit("Version");
    reveal_strlit("URI");
    reveal_strlit("XD");
    reveal_strlit("SCT");
    reveal_strlit("SS");
    reveal_strlit("G");
}

/// One simple item in a list: decoding goes past its events and adds
/// its value.
#[verifier::spinoff_prover]
proof fn lemma_item_step(
    doc: Seq<char>,
    k: nat,
    v: PsValue,
    st: DecodeState,
    acc: Seq<PsView>,
    f: nat,
)
    requires
        is_simple_item(v),
        events_at(doc, k, item_events(v)),
        st.depth < 63,
        f >= 6,
    ensures
        list_from(doc, k, st, "LST"@, acc, f) == list_from(
            doc,
            k + item_events(v).len(),
            st,
            "LST"@,
            acc.push(value_view(v)),
            (f - 1) as nat,
        ),
{
    reveal_strlit("Nil");
    assert(xml_event_at(doc, k + 0) == Some(item_events(v)[0]));
    if v is Null {
        assert(empty_value(TagView { name: "Nil"@, content: "Nil"@ }) == Some(PsView::Null));
    } else {
        lemma_item_value(v);
        let tag = item_tag(v);
        let text = item_text(v);
        let t = TagView { name: tag, content: tag };
        let n = simple_element_events(tag, text).len();
        lemma_text_at(doc, k, tag, text, (f - 3) as nat);
        let st1 = DecodeState { depth: st.depth + 1, ..st };
        lemma_primitive_at(doc, k, t, text, value_view(v), st1, (f - 2) as nat, k + n);
        assert(element(doc, k + 1, t, st, (f - 1) as nat) == Ok::<_, DecodeError>(
            (Some(value_view(v)), k + n, st),
        ));
    }
}

/// The views of items, from the front.
proof fn lemma_items_view_front(s: Seq<PsValue>)
    requires
        s.len() > 0,
    ensures
        items_view(s) == seq![value_view(s[0])] + items_view(s.drop_first()),
    decreases s.len(),
{
    if s.len() == 1 {
        assert(s.subrange(0, 0) =~= Seq::<PsValue>::empty());
        assert(s.drop_first() =~= Seq::<PsValue>::empty());
        assert(items_view(s.subrange(0, 0)) == Seq::<PsView>::empty());
        assert(items_view(s) =~= seq![value_view(s[0])]);
    } else {
        let l = s.subrange(0, s.len() - 1);
        lemma_items_view_front(l);
        assert(l.drop_first() =~= s.drop_first().subrange(0, s.drop_first().len() - 1));
        assert(l[0] == s[0]);
        assert(s.drop_first()[s.drop_first().len() - 1] == s[s.len() - 1]);
    }
}

/// All the items of a list, up to `</LST>`.
proof fn lemma_items_steps(
    doc: Seq<char>,
    k: nat,
    items: Seq<PsValue>,
    st: DecodeState,
    acc: Seq<PsView>,
    f: nat,
)
    requires
        forall|i: int| 0 <= i < items.len() ==> is_simple_item(#[trigger] items[i]),
        events_at(doc, k, items_events(items) + seq![EventView::End("LST"@)]),
        st.depth < 63,
        f >= items.len() + 6,
    ensures
        list_from(doc, k, st, "LST"@, acc, f) == Ok::<_, DecodeError>(
            (acc + items_view(items), k + items_events(items).len() + 1, st),
        ),
    decreases items.len(),
{
    let evs = items_events(items) + seq![EventView::End("LST"@)];
    if items.len() == 0 {
        assert(items_view(items) =~= Seq::<PsView>::empty());
        assert(xml_event_at(doc, k + 0) == Some(evs[0]));
        assert(acc + items_view(items) =~= acc);
    } else {
        let v = items[0];
        let rest = items.drop_first();
        let n = item_events(v).len();
        assert(items_events(items) == item_events(v) + items_events(rest));
        assert(events_at(doc, k, item_events(v))) by {
            assert forall|i: nat| i < n implies #[trigger] xml_event_at(doc, k + i) == Some(
                item_events(v)[i as int],
            ) by {
                assert(xml_event_at(doc, k + i) == Some(evs[i as int]));
            }
        }
        let evs2 = items_events(rest) + seq![EventView::End("LST"@)];
        assert(events_at(doc, k + n, evs2)) by {
            assert forall|i: nat| i < evs2.len() implies #[trigger] xml_event_at(doc, (k + n) + i)
                == Some(evs2[i as int]) by {
                assert(xml_event_at(doc, k + (n + i) as nat) == Some(evs[(n + i) as int]));
                assert(evs[(n + i) as int] == evs2[i as int]);
            }
        }
        lemma_item_step(doc, k, v, st, acc, f);
        assert forall|i: int| 0 <= i < rest.len() implies is_simple_item(#[trigger] rest[i]) by {
            assert(rest[i] == items[i + 1]);
        }
        lemma_items_steps(doc, k + n, rest, st, acc.push(value_view(v)), (f - 1) as nat);
        lemma_items_view_front(items);
        assert(acc.push(value_view(v)) + items_view(rest) =~= acc + items_view(items));
    }
}

/// `normalize` leaves a list of simple items as it is.
proof fn lemma_norm_simple_items(s: Seq<PsValue>)
    requires
        forall|i: int| 0 <= i < s.len() ==> is_simple_item(#[trigger] s[i]),
    ensures
        norm_items(items_view(s)) == items_view(s),
    decreases s.len(),
{
    if s.len() > 0 {
        let l = s.subrange(0, s.len() - 1);
        assert forall|i: int| 0 <= i < l.len() implies is_simple_item(#[trigger] l[i]) by {
            assert(l[i] == s[i]);
        }
        lemma_norm_simple_items(l);
        let v = s[s.len() - 1];
        assert(is_simple_item(v));
        if !(v is Null) {
            lemma_item_value(v);
        }
        super::view::lemma_items_view_len(l);
        let iv = items_view(s);
        assert(iv == items_view(l).push(value_view(v)));
        assert(iv.subrange(0, iv.len() - 1) =~= items_view(l));
    }
}

/// Reveals the tags the decoder tells apart, character by character.
pub(crate) proof fn lemma_decoder_tags()
    ensures
        !is_primitive_tag("Obj"@),
        !is_primitive_tag("LST"@),
        is_list_tag("LST"@),
        "LST"@ != "MS"@ && "LST"@ != "Props"@ && "LST"@ != "TN"@ && "LST"@ != "TNRef"@,
        "Obj"@ != "Ref"@,
{
    reveal_strlit("Obj");
    reveal_strlit("LST");
    reveal_strlit("MS");
    reveal_strlit("Props");
    reveal_strlit("TN");
    reveal_strlit("TNRef");
    reveal_strlit("Ref");
    reveal_strlit("S");
    reveal_strlit("I32");
    reveal_strlit("I64");
    reveal_strlit("B");
    reveal_strlit("Db");
    reveal_strlit("Sg");
    reveal_strlit("SB");
    reveal_strlit("By");
    reveal_strlit("I16");
    reveal_strlit("U16");
    reveal_strlit("U32");
    reveal_strlit("U64");
    reveal_strlit("D");
    reveal_strlit("C");
    reveal_strlit("BA");
    reveal_strlit("DT");
    reveal_strlit("TS");
    reveal_strlit("G");
    reveal_strlit("Version");
    reveal_strlit("URI");
    reveal_strlit("XD");
    reveal_strlit("SCT");
    reveal_strlit("SS");
    assert("Obj"@[0] == 'O' && "Obj"@.len() == 3);
    assert("LST"@[0] == 'L' && "LST"@.len() == 3);
    assert("S"@.len() == 1 && "B"@.len() == 1 && "D"@.len() == 1 && "C"@.len() == 1 && "G"@.len()
        == 1);
    assert("Db"@.len() == 2 && "Sg"@.len() == 2 && "SB"@.len() == 2 && "By"@.len() == 2
        && "BA"@.len() == 2 && "DT"@.len() == 2 && "TS"@.len() == 2 && "XD"@.len() == 2
        && "SS"@.len() == 2 && "MS"@.len() == 2 && "TN"@.len() == 2);
    assert("I32"@[0] == 'I' && "I64"@[0] == 'I' && "I16"@[0] == 'I' && "U16"@[0] == 'U' && "U32"@[0]
        == 'U' && "U64"@[0] == 'U' && "URI"@[0] == 'U' && "SCT"@[0] == 'S' && "Ref"@[0] == 'R');
    assert("Version"@.len() == 7 && "Props"@.len() == 5 && "TNRef"@.len() == 5);
}

/// The `RefId` attribute of the list's `<Obj>` tag.
proof fn lemma_obj_ref_id()
    requires
        xml_tag_attributes(list_obj_tag().content, list_obj_tag().name) == seq![
            Some(("RefId"@, Some("0"@))),
        ],
    ensures
        attr(list_obj_tag(), "RefId"@) == Ok::<_, DecodeError>(Some("0"@)),
{
    reveal_strlit("Obj");
    reveal_strlit("Obj RefId=\"0\"");
    let t = list_obj_tag();
    assert(t.content.subrange(0, 3) =~= t.name);
    assert(name_prefixes(t.name, t.content));
    let a = seq![Some(("RefId"@, Some("0"@)))];
    assert(attr_lookup(a, "RefId"@) == Ok::<_, ()>(Some("0"@)));
}

/// A list of booleans, integers, characters, byte arrays, nulls and
/// strings of plain characters that `to_clixml` writes on its own
/// decodes back to the object holding the list under `_value`, which is
/// what `normalize` makes of it: given that the XML reader splits the
/// document `<Obj RefId="0"><LST>...</LST></Obj>` into its tags, the
/// items' events (as in `lemma_scalar_document_roundtrip`) and the end,
/// and reads the attribute `RefId="0"` off the `<Obj>` tag.
#[verifier::spinoff_prover]
#[verifier::rlimit(40)]
pub proof fn lemma_list_document_roundtrip(items: Vec<PsValue>)
    requires
        forall|i: int| 0 <= i < items@.len() ==> is_simple_item(#[trigger] items@[i]),
        items@.len() < 0x1000_0000,
        events_are(enc_value(PsValue::List(items), None, 0).0, list_document_events(items@)),
        xml_tag_attributes(list_obj_tag().content, list_obj_tag().name) == seq![
            Some(("RefId"@, Some("0"@))),
        ],
    ensures
        decode_spec(enc_value(PsValue::List(items), None, 0).0) == Ok::<_, DecodeError>(
            seq![norm(value_view(PsValue::List(items)))],
        ),
{
    let s = items@;
    let v = PsValue::List(items);
    let doc = enc_value(v, None, 0).0;
    reveal_strlit("<Obj RefId=\"");
    assert(doc[0] == '<');
    lemma_doc_start(doc);
    lemma_decoder_tags();
    lemma_obj_ref_id();
    let m = usize::MAX as nat;
    let st0 = initial_state();
    let st1 = DecodeState { depth: 1, ..st0 };
    let evs = list_document_events(s);
    let ie = items_events(s);
    let n = evs.len();
    let objtag = list_obj_tag();
    let lsttag = TagView { name: "LST"@, content: "LST"@ };
    assert(xml_event_at(doc, 0) == Some(evs[0]));
    assert(xml_event_at(doc, 1) == Some(evs[1]));
    assert(evs[0] == EventView::Start(objtag));
    assert(evs[1] == EventView::Start(lsttag));
    let k2: nat = 2 + ie.len() + 1;
    assert(xml_event_at(doc, (k2 - 1) as nat) == Some(evs[k2 - 1]));
    assert(evs[k2 - 1] == EventView::End("LST"@));
    assert(xml_event_at(doc, k2) == Some(evs[k2 as int]));
    assert(evs[k2 as int] == EventView::End("Obj"@));
    assert(n == k2 + 1);
    assert(xml_event_at(doc, n) == Some(EventView::Eof));
    let tail = ie + seq![EventView::End("LST"@)];
    assert(events_at(doc, 2, tail)) by {
        assert forall|i: nat| i < tail.len() implies #[trigger] xml_event_at(doc, 2 + i) == Some(
            tail[i as int],
        ) by {
            assert(xml_event_at(doc, (2 + i) as nat) == Some(evs[(2 + i) as int]));
            assert(evs[(2 + i) as int] == tail[i as int]);
        }
    }
    let iv = items_view(s);
    lemma_items_steps(doc, 2, s, st1, Seq::empty(), (m - 5) as nat);
    assert(Seq::<PsView>::empty() + iv =~= iv);
    let o0 = ObjView { type_names: Seq::empty(), to_string: None, properties: Seq::empty() };
    assert(obj_child(doc, 2, lsttag, st1, o0, None, (m - 4) as nat) == Ok::<_, DecodeError>(
        (k2, st1, o0, Some(PsView::List(iv))),
    ));
    let o1 = finish_object(o0, Some(PsView::List(iv)));
    assert(obj_from(doc, k2, st1, o0, Some(PsView::List(iv)), (m - 4) as nat)
        == Ok::<_, DecodeError>((o1, n, st1)));
    assert(obj_from(doc, 1, st1, o0, None, (m - 3) as nat) == Ok::<_, DecodeError>((o1, n, st1)));
    let ov = PsView::Object(o1);
    let st2 = DecodeState { refs: st1.refs.insert("0"@, ov), ..st1 };
    assert(element_inner(doc, 1, objtag, st1, (m - 2) as nat) == Ok::<_, DecodeError>(
        (Some(ov), n, st2),
    ));
    let st3 = DecodeState { depth: 0, ..st2 };
    assert(element(doc, 1, objtag, st0, (m - 1) as nat) == Ok::<_, DecodeError>(
        (Some(ov), n, st3),
    ));
    assert(doc_from(doc, n, st3, seq![ov], (m - 1) as nat) == Ok::<_, DecodeError>(seq![ov]));
    assert(Seq::<PsView>::empty().push(ov) =~= seq![ov]);
    assert(doc_from(doc, 0, st0, Seq::empty(), m) == Ok::<_, DecodeError>(seq![ov]));
    lemma_norm_simple_items(s);
    reveal_strlit("_value");
    assert(!(exists|i: int| 0 <= i < Seq::<(Seq<char>, PsView)>::empty().len() && #[trigger] Seq::<
        (Seq<char>, PsView),
    >::empty()[i].0 == "_value"@));
    assert(o1.properties =~= seq![("_value"@, PsView::List(iv))]);
    assert(norm(value_view(v)) == wrap_view(PsView::List(norm_items(iv))));
}

/// The object properties whose round trip is proved: a simple value
/// under a name of plain characters other than `_value`.
pub open spec fn is_simple_prop(p: (String, PsValue)) -> bool {
    &&& is_simple_item(p.1)
    &&& p.0@ != "_value"@
    &&& forall|i: int| 0 <= i < p.0@.len() ==> plain_char(#[trigger] p.0@[i])
}

/// The raw content of a start tag `tag` with the attribute `N="name"`.
pub open spec fn named_content(tag: Seq<char>, name: Seq<char>) -> Seq<char> {
    tag + " N=\""@ + name + "\""@
}

/// The tag under which a simple value is written.
pub open spec fn value_tag(v: PsValue) -> Seq<char> {
    if v is Null {
        "Nil"@
    } else {
        item_tag(v)
    }
}

/// The events of the text and end of a primitive element.
pub open spec fn body_events(tag: Seq<char>, text: Seq<char>) -> Seq<EventView> {
    if text.len() == 0 {
        seq![EventView::End(tag)]
    } else {
        seq![EventView::Text(text), EventView::End(tag)]
    }
}

/// The events of a property as the encoder writes it, named.
pub open spec fn prop_events(p: (String, PsValue)) -> Seq<EventView> {
    named_events(p.0@, p.1)
}

/// The events of a simple value written under the name `name`.
pub open spec fn named_events(name: Seq<char>, v: PsValue) -> Seq<EventView> {
    let t = TagView { name: value_tag(v), content: named_content(value_tag(v), name) };
    if v is Null {
        seq![EventView::Empty(t)]
    } else {
        seq![EventView::Start(t)] + body_events(item_tag(v), item_text(v))
    }
}

/// The events of the properties from the `i`-th on.
pub open spec fn props_events_from(s: Seq<(String, PsValue)>, i: int) -> Seq<EventView>
    decreases s.len() - i,
{
    if i < 0 || i >= s.len() {
        Seq::empty()
    } else {
        prop_events(s[i]) + props_events_from(s, i + 1)
    }
}

/// The `<TN>` start tag of the first object's type names.
pub open spec fn tn_tag() -> TagView {
    TagView { name: "TN"@, content: "TN RefId=\"1\""@ }
}

/// The events of the `<T>` elements of type names from the `i`-th on.
pub open spec fn names_events_from(s: Seq<String>, i: int) -> Seq<EventView>
    decreases s.len() - i,
{
    if i < 0 || i >= s.len() {
        Seq::empty()
    } else {
        seq![EventView::Start(TagView { name: "T"@, content: "T"@ })] + body_events("T"@, s[i]@)
            + names_events_from(s, i + 1)
    }
}

/// The events of an object's `<TN>` block, none when it has no type
/// names.
pub open spec fn tn_events(names: Seq<String>) -> Seq<EventView> {
    if names.len() > 0 {
        seq![EventView::Start(tn_tag())] + names_events_from(names, 0) + seq![EventView::End("TN"@)]
    } else {
        Seq::empty()
    }
}

/// The events of an object's `<MS>` block, none when it has no
/// properties.
pub open spec fn ms_events(props: Seq<(String, PsValue)>) -> Seq<EventView> {
    if props.len() > 0 {
        seq![EventView::Start(TagView { name: "MS"@, content: "MS"@ })] + props_events_from(props, 0)
            + seq![EventView::End("MS"@)]
    } else {
        Seq::empty()
    }
}

/// The events of `<Obj RefId="0"><TN RefId="1">...</TN><MS>...</MS></Obj>`,
/// each block left out when it would be empty.
pub open spec fn object_document_events(names: Seq<String>, props: Seq<(String, PsValue)>) -> Seq<
    EventView,
> {
    seq![EventView::Start(list_obj_tag())] + tn_events(names) + ms_events(props) + seq![
        EventView::End("Obj"@),
    ]
}

/// Whether the XML reader reads the attribute `N="name"` off the start
/// tag of every property.
pub open spec fn names_read_back(props: Seq<(String, PsValue)>) -> bool {
    forall|i: int|
        0 <= i < props.len() ==> #[trigger] xml_tag_attributes(
            named_content(value_tag(props[i].1), props[i].0@),
            value_tag(props[i].1),
        ) == seq![Some(("N"@, Some(props[i].0@)))]
}

/// The text of a primitive element from its first child event `k` on.
pub(crate) proof fn lemma_body_at(doc: Seq<char>, k: nat, tag: Seq<char>, text: Seq<char>, f: nat)
    requires
        events_at(doc, k, body_events(tag, text)),
        forall|i: int| 0 <= i < text.len() ==> #[trigger] text[i] != '_',
        f >= 2,
    ensures
        text_from(doc, k, tag, Seq::empty(), f) == Ok::<_, DecodeError>(
            (text, k + body_events(tag, text).len()),
        ),
{
    let evs = body_events(tag, text);
    let n = evs.len();
    assert(xml_event_at(doc, k + (n - 1) as nat) == Some(evs[n - 1]));
    lemma_unescape_plain(text, 0);
    assert(text.subrange(0, text.len() as int) =~= text);
    if text.len() == 0 {
        assert(unescape_from(Seq::<char>::empty(), 0) == text);
    } else {
        assert(xml_event_at(doc, k + 0) == Some(evs[0]));
        assert(Seq::<char>::empty() + text =~= text);
        assert(text_from(doc, k + 1, tag, text, (f - 1) as nat) == Ok::<_, DecodeError>(
            (text, k + 2),
        ));
    }
}

/// The name of a property's start tag reads back as the name.
pub(crate) proof fn lemma_name_attr(tag: Seq<char>, name: Seq<char>)
    requires
        forall|i: int| 0 <= i < name.len() ==> plain_char(#[trigger] name[i]),
        xml_tag_attributes(named_content(tag, name), tag) == seq![Some(("N"@, Some(name)))],
    ensures
        super::decode::name_attr(TagView { name: tag, content: named_content(tag, name) })
            == Ok::<_, DecodeError>(Some(name)),
{
    let t = TagView { name: tag, content: named_content(tag, name) };
    assert(t.content.subrange(0, tag.len() as int) =~= tag);
    assert(name_prefixes(t.name, t.content));
    let a = seq![Some(("N"@, Some(name)))];
    assert(attr_lookup(a, "N"@) == Ok::<_, ()>(Some(name)));
    assert forall|i: int| 0 <= i < name.len() implies #[trigger] name[i] != '_' by {
        assert(plain_char(name[i]));
    }
    lemma_unescape_plain(name, 0);
    assert(name.subrange(0, name.len() as int) =~= name);
}

/// One simple property in a member set: decoding goes past its events
/// and sets it.
#[verifier::spinoff_prover]
proof fn lemma_prop_step(
    doc: Seq<char>,
    k: nat,
    p: (String, PsValue),
    st: DecodeState,
    acc: Seq<(Seq<char>, PsView)>,
    f: nat,
)
    requires
        is_simple_prop(p),
        events_at(doc, k, prop_events(p)),
        xml_tag_attributes(named_content(value_tag(p.1), p.0@), value_tag(p.1)) == seq![
            Some(("N"@, Some(p.0@))),
        ],
        st.depth < 63,
        f >= 6,
    ensures
        super::decode::members_from(doc, k, st, "MS"@, acc, f) == super::decode::members_from(
            doc,
            k + prop_events(p).len(),
            st,
            "MS"@,
            view_props_insert(acc, p.0@, value_view(p.1)),
            (f - 1) as nat,
        ),
{
    reveal_strlit("Nil");
    reveal_strlit("Ref");
    assert("Nil"@[0] == 'N' && "Ref"@[0] == 'R');
    let v = p.1;
    let tag = value_tag(v);
    lemma_name_attr(tag, p.0@);
    let t = TagView { name: tag, content: named_content(tag, p.0@) };
    assert(xml_event_at(doc, k + 0) == Some(prop_events(p)[0]));
    if !(v is Null) {
        lemma_item_value(v);
        let text = item_text(v);
        let body = body_events(tag, text);
        assert(events_at(doc, k + 1, body)) by {
            assert forall|i: nat| i < body.len() implies #[trigger] xml_event_at(doc, (k + 1) + i)
                == Some(body[i as int]) by {
                assert(xml_event_at(doc, k + (1 + i) as nat) == Some(prop_events(p)[(1 + i) as int]));
            }
        }
        lemma_body_at(doc, k + 1, tag, text, (f - 3) as nat);
        let n = 1 + body.len();
        let st1 = DecodeState { depth: st.depth + 1, ..st };
        lemma_primitive_at(doc, k, t, text, value_view(v), st1, (f - 2) as nat, k + n);
        assert(element(doc, k + 1, t, st, (f - 1) as nat) == Ok::<_, DecodeError>(
            (Some(value_view(v)), k + n, st),
        ));
    }
}

/// All the properties of a member set from the `i`-th on, up to `</MS>`.
proof fn lemma_props_steps(
    doc: Seq<char>,
    k: nat,
    s: Seq<(String, PsValue)>,
    ov: ObjView,
    i: int,
    st: DecodeState,
    f: nat,
)
    requires
        0 <= i <= s.len(),
        forall|j: int| 0 <= j < s.len() ==> is_simple_prop(#[trigger] s[j]),
        names_read_back(s),
        ov.properties == super::view::props_view(s),
        events_at(doc, k, props_events_from(s, i) + seq![EventView::End("MS"@)]),
        st.depth < 63,
        f >= s.len() - i + 6,
    ensures
        super::decode::members_from(doc, k, st, "MS"@, super::normalize::norm_props_upto(ov, i), f)
            == Ok::<_, DecodeError>(
            (
                super::normalize::norm_props_upto(ov, s.len() as int),
                k + props_events_from(s, i).len() + 1,
                st,
            ),
        ),
    decreases s.len() - i,
{
    super::view::lemma_props_view(s);
    let evs = props_events_from(s, i) + seq![EventView::End("MS"@)];
    if i == s.len() {
        assert(xml_event_at(doc, k + 0) == Some(evs[0]));
    } else {
        let p = s[i];
        let n = prop_events(p).len();
        assert(props_events_from(s, i) == prop_events(p) + props_events_from(s, i + 1));
        assert(events_at(doc, k, prop_events(p))) by {
            assert forall|j: nat| j < n implies #[trigger] xml_event_at(doc, k + j) == Some(
                prop_events(p)[j as int],
            ) by {
                assert(xml_event_at(doc, k + j) == Some(evs[j as int]));
            }
        }
        let evs2 = props_events_from(s, i + 1) + seq![EventView::End("MS"@)];
        assert(events_at(doc, k + n, evs2)) by {
            assert forall|j: nat| j < evs2.len() implies #[trigger] xml_event_at(doc, (k + n) + j)
                == Some(evs2[j as int]) by {
                assert(xml_event_at(doc, k + (n + j) as nat) == Some(evs[(n + j) as int]));
                assert(evs[(n + j) as int] == evs2[j as int]);
            }
        }
        assert(xml_tag_attributes(named_content(value_tag(s[i].1), s[i].0@), value_tag(s[i].1))
            == seq![Some(("N"@, Some(s[i].0@)))]);
        let acc = super::normalize::norm_props_upto(ov, i);
        lemma_prop_step(doc, k, p, st, acc, f);
        if !(p.1 is Null) {
            lemma_item_value(p.1);
        }
        assert(ov.properties[i] == (p.0@, value_view(p.1)));
        assert(super::normalize::norm_props_upto(ov, i + 1) == view_props_insert(
            acc,
            p.0@,
            value_view(p.1),
        ));
        lemma_props_steps(doc, k + n, s, ov, i + 1, st, (f - 1) as nat);
    }
}

/// The type names from the `i`-th on, up to `</TN>`.
pub(crate) proof fn lemma_names_steps(doc: Seq<char>, k: nat, s: Seq<String>, i: int, f: nat)
    requires
        0 <= i <= s.len(),
        forall|j: int, c: int| 0 <= j < s.len() && 0 <= c < s[j]@.len() ==> plain_char(
            #[trigger] s[j]@[c],
        ),
        events_at(doc, k, names_events_from(s, i) + seq![EventView::End("TN"@)]),
        f >= s.len() - i + 4,
    ensures
        super::decode::type_names_from(doc, k, super::view::strings_view(s).subrange(0, i), f)
            == Ok::<_, DecodeError>(
            (super::view::strings_view(s), k + names_events_from(s, i).len() + 1),
        ),
    decreases s.len() - i,
{
    reveal_strlit("T");
    reveal_strlit("TN");
    let sv = super::view::strings_view(s);
    let evs = names_events_from(s, i) + seq![EventView::End("TN"@)];
    assert(xml_event_at(doc, k + 0) == Some(evs[0]));
    if i == s.len() {
        assert(sv.subrange(0, i) =~= sv);
    } else {
        let name = s[i]@;
        let body = body_events("T"@, name);
        let n = 1 + body.len();
        let rest = names_events_from(s, i + 1);
        assert(names_events_from(s, i) == seq![
            EventView::Start(TagView { name: "T"@, content: "T"@ }),
        ] + body + rest);
        assert(events_at(doc, k + 1, body)) by {
            assert forall|j: nat| j < body.len() implies #[trigger] xml_event_at(doc, (k + 1) + j)
                == Some(body[j as int]) by {
                assert(xml_event_at(doc, k + (1 + j) as nat) == Some(evs[(1 + j) as int]));
            }
        }
        assert forall|c: int| 0 <= c < name.len() implies #[trigger] name[c] != '_' by {
            assert(plain_char(s[i]@[c]));
        }
        lemma_body_at(doc, k + 1, "T"@, name, (f - 1) as nat);
        let evs2 = rest + seq![EventView::End("TN"@)];
        assert(events_at(doc, k + n, evs2)) by {
            assert forall|j: nat| j < evs2.len() implies #[trigger] xml_event_at(doc, (k + n) + j)
                == Some(evs2[j as int]) by {
                assert(xml_event_at(doc, k + (n + j) as nat) == Some(evs[(n + j) as int]));
                assert(evs[(n + j) as int] == evs2[j as int]);
            }
        }
        lemma_names_steps(doc, k + n, s, i + 1, (f - 1) as nat);
        assert(sv.subrange(0, i).push(name) =~= sv.subrange(0, i + 1));
    }
}

/// The `RefId` attribute of the first object's `<TN>` tag.
proof fn lemma_tn_ref_id()
    requires
        xml_tag_attributes(tn_tag().content, tn_tag().name) == seq![Some(("RefId"@, Some("1"@)))],
    ensures
        attr(tn_tag(), "RefId"@) == Ok::<_, DecodeError>(Some("1"@)),
{
    reveal_strlit("TN");
    reveal_strlit("TN RefId=\"1\"");
    let t = tn_tag();
    assert(t.content.subrange(0, 2) =~= t.name);
    assert(name_prefixes(t.name, t.content));
    let a = seq![Some(("RefId"@, Some("1"@)))];
    assert(attr_lookup(a, "RefId"@) == Ok::<_, ()>(Some("1"@)));
}

/// An object's body from its `<MS>` block (if any) to `</Obj>`.
#[verifier::spinoff_prover]
proof fn lemma_ms_tail(
    doc: Seq<char>,
    k: nat,
    s: Seq<(String, PsValue)>,
    ov: ObjView,
    st: DecodeState,
    o: ObjView,
    f: nat,
)
    requires
        forall|j: int| 0 <= j < s.len() ==> is_simple_prop(#[trigger] s[j]),
        names_read_back(s),
        ov.properties == super::view::props_view(s),
        o.properties.len() == 0,
        events_at(doc, k, ms_events(s) + seq![EventView::End("Obj"@)]),
        st.depth < 63,
        f >= s.len() + 10,
    ensures
        obj_from(doc, k, st, o, None, f) == Ok::<_, DecodeError>(
            (
                ObjView { properties: super::normalize::norm_props(ov), ..o },
                k + ms_events(s).len() + 1,
                st,
            ),
        ),
{
    reveal_strlit("MS");
    reveal_strlit("Obj");
    let evs = ms_events(s) + seq![EventView::End("Obj"@)];
    let np = super::normalize::norm_props(ov);
    super::view::lemma_props_view(s);
    if s.len() > 0 {
        let mstag = TagView { name: "MS"@, content: "MS"@ };
        assert(xml_event_at(doc, k + 0) == Some(evs[0]));
        let pe = props_events_from(s, 0);
        let tail = pe + seq![EventView::End("MS"@)];
        assert(events_at(doc, k + 1, tail)) by {
            assert forall|i: nat| i < tail.len() implies #[trigger] xml_event_at(doc, (k + 1) + i)
                == Some(tail[i as int]) by {
                assert(xml_event_at(doc, k + (1 + i) as nat) == Some(evs[(1 + i) as int]));
                assert(evs[(1 + i) as int] == tail[i as int]);
            }
        }
        assert(super::normalize::norm_props_upto(ov, 0) == Seq::<(Seq<char>, PsView)>::empty());
        assert(o.properties =~= Seq::<(Seq<char>, PsView)>::empty());
        lemma_props_steps(doc, k + 1, s, ov, 0, st, (f - 2) as nat);
        let k2: nat = k + 1 + pe.len() + 1;
        assert(k2 - k == ms_events(s).len());
        assert(xml_event_at(doc, k + (k2 - k) as nat) == Some(evs[(k2 - k) as int]));
        assert(evs[(k2 - k) as int] == EventView::End("Obj"@));
        assert(xml_event_at(doc, k2) == Some(EventView::End("Obj"@)));
        let o2 = ObjView { properties: np, ..o };
        assert(obj_child(doc, k + 1, mstag, st, o, None, (f - 1) as nat) == Ok::<_, DecodeError>(
            (k2, st, o2, None::<PsView>),
        ));
        assert(finish_object(o2, None) == o2);
        assert(obj_from(doc, k2, st, o2, None, (f - 1) as nat) == Ok::<_, DecodeError>(
            (o2, k2 + 1, st),
        ));
    } else {
        assert(xml_event_at(doc, k + 0) == Some(evs[0]));
        assert(evs[0] == EventView::End("Obj"@));
        assert(np =~= Seq::<(Seq<char>, PsView)>::empty());
        assert(o.properties =~= np);
        assert(ObjView { properties: np, ..o } == o);
        assert(finish_object(o, None) == o);
    }
}

/// An object's `<TN>` block: decoding goes past it, taking the names.
#[verifier::spinoff_prover]
proof fn lemma_tn_block(
    doc: Seq<char>,
    k: nat,
    names: Seq<String>,
    st: DecodeState,
    o: ObjView,
    f: nat,
)
    requires
        names.len() > 0,
        forall|j: int, c: int| 0 <= j < names.len() && 0 <= c < names[j]@.len() ==> plain_char(
            #[trigger] names[j]@[c],
        ),
        events_at(doc, k, tn_events(names)),
        xml_tag_attributes(tn_tag().content, tn_tag().name) == seq![Some(("RefId"@, Some("1"@)))],
        f >= names.len() + 10,
    ensures
        exists|st2: DecodeState| st2.depth == st.depth && obj_from(doc, k, st, o, None, f)
            == obj_from(
            doc,
            k + tn_events(names).len(),
            st2,
            ObjView { type_names: super::view::strings_view(names), ..o },
            None,
            (f - 1) as nat,
        ),
{
    reveal_strlit("TN");
    reveal_strlit("MS");
    reveal_strlit("Props");
    assert("TN"@.len() == 2 && "MS"@[0] == 'M' && "TN"@[0] == 'T' && "Props"@.len() == 5);
    lemma_tn_ref_id();
    let evs = tn_events(names);
    assert(xml_event_at(doc, k + 0) == Some(evs[0]));
    let ne = names_events_from(names, 0);
    let tail = ne + seq![EventView::End("TN"@)];
    assert(events_at(doc, k + 1, tail)) by {
        assert forall|i: nat| i < tail.len() implies #[trigger] xml_event_at(doc, (k + 1) + i) == Some(
            tail[i as int],
        ) by {
            assert(xml_event_at(doc, k + (1 + i) as nat) == Some(evs[(1 + i) as int]));
            assert(evs[(1 + i) as int] == tail[i as int]);
        }
    }
    let sv = super::view::strings_view(names);
    assert(sv.subrange(0, 0) =~= Seq::<Seq<char>>::empty());
    lemma_names_steps(doc, k + 1, names, 0, (f - 2) as nat);
    let st2 = DecodeState { type_names: st.type_names.insert("1"@, sv), ..st };
    let k2: nat = k + 1 + ne.len() + 1;
    assert(k2 == k + evs.len());
    assert(evs[0] == EventView::Start(tn_tag()));
    assert(obj_child(doc, k + 1, tn_tag(), st, o, None, (f - 1) as nat) == Ok::<_, DecodeError>(
        (k2, st2, ObjView { type_names: sv, ..o }, None::<PsView>),
    ));
    assert(obj_from(doc, k, st, o, None, f) == obj_from(
        doc,
        k2,
        st2,
        ObjView { type_names: sv, ..o },
        None,
        (f - 1) as nat,
    ));
    assert(st2.depth == st.depth);
}

/// An object with no `ToString`, whose type names are of plain
/// characters and whose properties are simple values under plain names
/// other than `_value`, that `to_clixml` writes on its own decodes back
/// to its `normalize`d form: the same type names and the same
/// properties, set in order. Given that the XML reader splits
/// `<Obj RefId="0"><TN RefId="1"><T>...</T></TN><MS>...</MS></Obj>` into
/// its tags, texts and end as XML does (each property's start tag
/// carrying `N="name"`), and reads those attributes off the tags.
#[verifier::spinoff_prover]
#[verifier::rlimit(40)]
pub proof fn lemma_object_document_roundtrip(obj: super::value::PsObject)
    requires
        obj.to_string is None,
        obj.type_names@.len() < 0x1000_0000,
        forall|j: int, c: int|
            0 <= j < obj.type_names@.len() && 0 <= c < obj.type_names@[j]@.len() ==> plain_char(
                #[trigger] obj.type_names@[j]@[c],
            ),
        forall|i: int| 0 <= i < obj.properties@.len() ==> is_simple_prop(#[trigger] obj.properties@[i]),
        obj.properties@.len() < 0x1000_0000,
        events_are(
            enc_value(PsValue::Object(obj), None, 0).0,
            object_document_events(obj.type_names@, obj.properties@),
        ),
        xml_tag_attributes(list_obj_tag().content, list_obj_tag().name) == seq![
            Some(("RefId"@, Some("0"@))),
        ],
        obj.type_names@.len() > 0 ==> xml_tag_attributes(tn_tag().content, tn_tag().name) == seq![
            Some(("RefId"@, Some("1"@))),
        ],
        names_read_back(obj.properties@),
    ensures
        decode_spec(enc_value(PsValue::Object(obj), None, 0).0) == Ok::<_, DecodeError>(
            seq![norm(value_view(PsValue::Object(obj)))],
        ),
{
    let s = obj.properties@;
    let names = obj.type_names@;
    let v = PsValue::Object(obj);
    let doc = enc_value(v, None, 0).0;
    reveal_strlit("<Obj RefId=\"");
    assert(doc[0] == '<');
    lemma_doc_start(doc);
    lemma_decoder_tags();
    lemma_obj_ref_id();
    let m = usize::MAX as nat;
    let st0 = initial_state();
    let st1 = DecodeState { depth: 1, ..st0 };
    let evs = object_document_events(names, s);
    let n = evs.len();
    let objtag = list_obj_tag();
    let ov = super::view::object_view(obj);
    let sv = super::view::strings_view(names);
    let o0 = ObjView { type_names: Seq::empty(), to_string: None, properties: Seq::empty() };
    assert(xml_event_at(doc, 0) == Some(evs[0]));
    assert(evs[0] == EventView::Start(objtag));
    assert(xml_event_at(doc, n) == Some(EventView::Eof));
    let np = super::normalize::norm_props(ov);
    let te = tn_events(names);
    let rest = ms_events(s) + seq![EventView::End("Obj"@)];
    let kr: nat = 1 + te.len();
    assert(events_at(doc, kr, rest)) by {
        assert forall|i: nat| i < rest.len() implies #[trigger] xml_event_at(doc, kr + i) == Some(
            rest[i as int],
        ) by {
            assert(xml_event_at(doc, (kr + i) as nat) == Some(evs[(kr + i) as int]));
            assert(evs[(kr + i) as int] == rest[i as int]);
        }
    }
    let o_tn = ObjView { type_names: sv, ..o0 };
    let o1 = ObjView { properties: np, ..o_tn };
    if names.len() > 0 {
        assert(events_at(doc, 1, te)) by {
            assert forall|i: nat| i < te.len() implies #[trigger] xml_event_at(doc, 1 + i) == Some(
                te[i as int],
            ) by {
                assert(xml_event_at(doc, (1 + i) as nat) == Some(evs[(1 + i) as int]));
                assert(evs[(1 + i) as int] == te[i as int]);
            }
        }
        lemma_tn_block(doc, 1, names, st1, o0, (m - 3) as nat);
        let st2 = choose|st2: DecodeState| st2.depth == st1.depth && obj_from(doc, 1, st1, o0, None, (m - 3) as nat)
            == obj_from(doc, kr, st2, o_tn, None, (m - 4) as nat);
        lemma_ms_tail(doc, kr, s, ov, st2, o_tn, (m - 4) as nat);
        assert(obj_from(doc, 1, st1, o0, None, (m - 3) as nat) == Ok::<_, DecodeError>(
            (o1, n, st2),
        ));
        let ovd = PsView::Object(o1);
        let st3 = DecodeState { refs: st2.refs.insert("0"@, ovd), ..st2 };
        assert(element_inner(doc, 1, objtag, st1, (m - 2) as nat) == Ok::<_, DecodeError>(
            (Some(ovd), n, st3),
        ));
        let st4 = DecodeState { depth: 0, ..st3 };
        assert(element(doc, 1, objtag, st0, (m - 1) as nat) == Ok::<_, DecodeError>(
            (Some(ovd), n, st4),
        ));
        assert(doc_from(doc, n, st4, seq![ovd], (m - 1) as nat) == Ok::<_, DecodeError>(seq![ovd]));
        assert(Seq::<PsView>::empty().push(ovd) =~= seq![ovd]);
        assert(doc_from(doc, 0, st0, Seq::empty(), m) == Ok::<_, DecodeError>(seq![ovd]));
    } else {
        assert(sv =~= Seq::<Seq<char>>::empty());
        assert(kr == 1);
        lemma_ms_tail(doc, 1, s, ov, st1, o0, (m - 3) as nat);
        let ovd = PsView::Object(o1);
        let st3 = DecodeState { refs: st1.refs.insert("0"@, ovd), ..st1 };
        assert(element_inner(doc, 1, objtag, st1, (m - 2) as nat) == Ok::<_, DecodeError>(
            (Some(ovd), n, st3),
        ));
        let st4 = DecodeState { depth: 0, ..st3 };
        assert(element(doc, 1, objtag, st0, (m - 1) as nat) == Ok::<_, DecodeError>(
            (Some(ovd), n, st4),
        ));
        assert(doc_from(doc, n, st4, seq![ovd], (m - 1) as nat) == Ok::<_, DecodeError>(seq![ovd]));
        assert(Seq::<PsView>::empty().push(ovd) =~= seq![ovd]);
        assert(doc_from(doc, 0, st0, Seq::empty(), m) == Ok::<_, DecodeError>(seq![ovd]));
    }
    assert(norm(value_view(v)) == PsView::Object(o1));
}

/// Whether the XML reader reads `N="name"` off the start tag of the
/// value `v` written under `name`.
pub open spec fn name_read_back(name: Seq<char>, v: PsValue) -> bool {
    xml_tag_attributes(named_content(value_tag(v), name), value_tag(v)) == seq![
        Some(("N"@, Some(name))),
    ]
}

/// The events of a dictionary entry `<En>` with its key and value.
pub open spec fn entry_events(e: (PsValue, PsValue)) -> Seq<EventView> {
    seq![EventView::Start(TagView { name: "En"@, content: "En"@ })] + named_events("Key"@, e.0)
        + named_events("Value"@, e.1) + seq![EventView::End("En"@)]
}

/// The events of dictionary entries from the `i`-th on.
pub open spec fn entries_events_from(s: Seq<(PsValue, PsValue)>, i: int) -> Seq<EventView>
    decreases s.len() - i,
{
    if i < 0 || i >= s.len() {
        Seq::empty()
    } else {
        entry_events(s[i]) + entries_events_from(s, i + 1)
    }
}

/// The events of `<Obj RefId="0"><DCT>entries</DCT></Obj>`.
pub open spec fn dict_document_events(entries: Seq<(PsValue, PsValue)>) -> Seq<EventView> {
    seq![
        EventView::Start(list_obj_tag()),
        EventView::Start(TagView { name: "DCT"@, content: "DCT"@ }),
    ] + entries_events_from(entries, 0) + seq![EventView::End("DCT"@), EventView::End("Obj"@)]
}

/// `Key` and `Value` are written as they are.
pub(crate) proof fn lemma_key_value_plain()
    ensures
        forall|i: int| 0 <= i < "Key"@.len() ==> plain_char(#[trigger] "Key"@[i]),
        forall|i: int| 0 <= i < "Value"@.len() ==> plain_char(#[trigger] "Value"@[i]),
        "Key"@ != "Value"@,
{
    reveal_strlit("Key");
    reveal_strlit("Value");
    assert("Key"@.len() == 3 && "Value"@.len() == 5);
}

/// A simple value written under `name` inside an `<En>`: decoding goes
/// past it, taking it as the key or the value by its name.
#[verifier::spinoff_prover]
proof fn lemma_named_in_entry(
    doc: Seq<char>,
    k: nat,
    name: Seq<char>,
    v: PsValue,
    st: DecodeState,
    key: PsView,
    val: PsView,
    f: nat,
)
    requires
        is_simple_item(v),
        name == "Key"@ || name == "Value"@,
        events_at(doc, k, named_events(name, v)),
        name_read_back(name, v),
        st.depth < 63,
        f >= 6,
    ensures
        super::decode::entry_from(doc, k, st, key, val, f) == super::decode::entry_from(
            doc,
            k + named_events(name, v).len(),
            st,
            if name == "Key"@ {
                value_view(v)
            } else {
                key
            },
            if name == "Key"@ {
                val
            } else {
                value_view(v)
            },
            (f - 1) as nat,
        ),
{
    reveal_strlit("Nil");
    assert("Nil"@[0] == 'N');
    lemma_key_value_plain();
    let tag = value_tag(v);
    lemma_name_attr(tag, name);
    let t = TagView { name: tag, content: named_content(tag, name) };
    assert(xml_event_at(doc, k + 0) == Some(named_events(name, v)[0]));
    if !(v is Null) {
        lemma_item_value(v);
        let text = item_text(v);
        let body = body_events(tag, text);
        assert(events_at(doc, k + 1, body)) by {
            assert forall|i: nat| i < body.len() implies #[trigger] xml_event_at(doc, (k + 1) + i)
                == Some(body[i as int]) by {
                assert(xml_event_at(doc, k + (1 + i) as nat) == Some(
                    named_events(name, v)[(1 + i) as int],
                ));
            }
        }
        lemma_body_at(doc, k + 1, tag, text, (f - 3) as nat);
        let n = 1 + body.len();
        let st1 = DecodeState { depth: st.depth + 1, ..st };
        lemma_primitive_at(doc, k, t, text, value_view(v), st1, (f - 2) as nat, k + n);
        assert(element(doc, k + 1, t, st, (f - 1) as nat) == Ok::<_, DecodeError>(
            (Some(value_view(v)), k + n, st),
        ));
    }
}

/// The entries of a dictionary from the `i`-th on, up to `</DCT>`.
proof fn lemma_entries_steps(
    doc: Seq<char>,
    k: nat,
    s: Seq<(PsValue, PsValue)>,
    i: int,
    st: DecodeState,
    f: nat,
)
    requires
        0 <= i <= s.len(),
        forall|j: int| 0 <= j < s.len() ==> is_simple_item(#[trigger] s[j].0) && is_simple_item(
            s[j].1,
        ) && name_read_back("Key"@, s[j].0) && name_read_back("Value"@, s[j].1),
        events_at(doc, k, entries_events_from(s, i) + seq![EventView::End("DCT"@)]),
        st.depth < 63,
        f >= 3 * (s.len() - i) + 8,
    ensures
        super::decode::dict_from(doc, k, st, super::view::entries_view(s.subrange(0, i)), f)
            == Ok::<_, DecodeError>(
            (super::view::entries_view(s), k + entries_events_from(s, i).len() + 1, st),
        ),
    decreases s.len() - i,
{
    reveal_strlit("En");
    reveal_strlit("DCT");
    assert("En"@.len() == 2 && "DCT"@.len() == 3);
    let evs = entries_events_from(s, i) + seq![EventView::End("DCT"@)];
    assert(xml_event_at(doc, k + 0) == Some(evs[0]));
    if i == s.len() {
        assert(s.subrange(0, i) =~= s);
    } else {
        let e = s[i];
        let ke = named_events("Key"@, e.0);
        let ve = named_events("Value"@, e.1);
        let ee = entry_events(e);
        let n = ee.len();
        assert(entries_events_from(s, i) == ee + entries_events_from(s, i + 1));
        assert(events_at(doc, k + 1, ke)) by {
            assert forall|j: nat| j < ke.len() implies #[trigger] xml_event_at(doc, (k + 1) + j)
                == Some(ke[j as int]) by {
                assert(xml_event_at(doc, k + (1 + j) as nat) == Some(evs[(1 + j) as int]));
            }
        }
        let kv: nat = k + 1 + ke.len();
        assert(events_at(doc, kv, ve)) by {
            assert forall|j: nat| j < ve.len() implies #[trigger] xml_event_at(doc, kv + j) == Some(
                ve[j as int],
            ) by {
                assert(xml_event_at(doc, k + (1 + ke.len() + j) as nat) == Some(
                    evs[(1 + ke.len() + j) as int],
                ));
            }
        }
        let ke_end: nat = kv + ve.len();
        assert(xml_event_at(doc, k + (n - 1) as nat) == Some(evs[n - 1]));
        assert(ke_end == k + n - 1);
        lemma_key_value_plain();
        lemma_named_in_entry(doc, k + 1, "Key"@, e.0, st, PsView::Null, PsView::Null, (f - 1) as nat);
        lemma_named_in_entry(
            doc,
            kv,
            "Value"@,
            e.1,
            st,
            value_view(e.0),
            PsView::Null,
            (f - 2) as nat,
        );
        let kvp = (value_view(e.0), value_view(e.1));
        assert(super::decode::entry_from(doc, ke_end, st, kvp.0, kvp.1, (f - 3) as nat)
            == Ok::<_, DecodeError>((kvp, k + n, st)));
        let evs2 = entries_events_from(s, i + 1) + seq![EventView::End("DCT"@)];
        assert(events_at(doc, k + n, evs2)) by {
            assert forall|j: nat| j < evs2.len() implies #[trigger] xml_event_at(doc, (k + n) + j)
                == Some(evs2[j as int]) by {
                assert(xml_event_at(doc, k + (n + j) as nat) == Some(evs[(n + j) as int]));
                assert(evs[(n + j) as int] == evs2[j as int]);
            }
        }
        lemma_entries_steps(doc, k + n, s, i + 1, st, (f - 1) as nat);
        let pre = s.subrange(0, i + 1);
        assert(pre.subrange(0, i) =~= s.subrange(0, i));
        assert(super::view::entries_view(pre) == super::view::entries_view(s.subrange(0, i)).push(
            kvp,
        ));
    }
}

/// `normalize` leaves the entries of simple keys and values as they are.
proof fn lemma_norm_simple_entries(s: Seq<(PsValue, PsValue)>)
    requires
        forall|i: int| 0 <= i < s.len() ==> is_simple_item(#[trigger] s[i].0) && is_simple_item(
            s[i].1,
        ),
    ensures
        norm_entries(super::view::entries_view(s)) == super::view::entries_view(s),
    decreases s.len(),
{
    if s.len() > 0 {
        let l = s.subrange(0, s.len() - 1);
        assert forall|i: int| 0 <= i < l.len() implies is_simple_item(#[trigger] l[i].0)
            && is_simple_item(l[i].1) by {
            assert(l[i] == s[i]);
        }
        lemma_norm_simple_entries(l);
        let e = s[s.len() - 1];
        assert(is_simple_item(e.0) && is_simple_item(e.1));
        if !(e.0 is Null) {
            lemma_item_value(e.0);
        }
        if !(e.1 is Null) {
            lemma_item_value(e.1);
        }
        super::view::lemma_entries_view_len(l);
        let ev = super::view::entries_view(s);
        assert(ev.subrange(0, ev.len() - 1) =~= super::view::entries_view(l));
    }
}

/// A dictionary of simple keys and values (as in
/// `lemma_list_document_roundtrip`) that `to_clixml` writes on its own
/// decodes back to the object holding the dictionary under `_value`,
/// which is what `normalize` makes of it. Given that the XML reader
/// splits `<Obj RefId="0"><DCT><En>...</En>...</DCT></Obj>` into its
/// tags, texts and end as XML does, each key and value carrying
/// `N="Key"` or `N="Value"`, and reads those attributes off the tags.
#[verifier::spinoff_prover]
#[verifier::rlimit(40)]
pub proof fn lemma_dict_document_roundtrip(entries: Vec<(PsValue, PsValue)>)
    requires
        forall|j: int| 0 <= j < entries@.len() ==> is_simple_item(#[trigger] entries@[j].0)
            && is_simple_item(entries@[j].1) && name_read_back("Key"@, entries@[j].0)
            && name_read_back("Value"@, entries@[j].1),
        entries@.len() < 0x1000_0000,
        events_are(
            enc_value(PsValue::Dict(entries), None, 0).0,
            dict_document_events(entries@),
        ),
        xml_tag_attributes(list_obj_tag().content, list_obj_tag().name) == seq![
            Some(("RefId"@, Some("0"@))),
        ],
    ensures
        decode_spec(enc_value(PsValue::Dict(entries), None, 0).0) == Ok::<_, DecodeError>(
            seq![norm(value_view(PsValue::Dict(entries)))],
        ),
{
    let s = entries@;
    let v = PsValue::Dict(entries);
    let doc = enc_value(v, None, 0).0;
    reveal_strlit("<Obj RefId=\"");
    assert(doc[0] == '<');
    lemma_doc_start(doc);
    lemma_decoder_tags();
    lemma_obj_ref_id();
    reveal_strlit("DCT");
    reveal_strlit("MS");
    reveal_strlit("Props");
    reveal_strlit("TN");
    reveal_strlit("TNRef");
    reveal_strlit("LST");
    reveal_strlit("IE");
    reveal_strlit("QUE");
    reveal_strlit("STK");
    assert("DCT"@[0] == 'D' && "DCT"@.len() == 3 && "MS"@.len() == 2 && "TN"@.len() == 2
        && "IE"@.len() == 2 && "Props"@.len() == 5 && "TNRef"@.len() == 5 && "LST"@[0] == 'L'
        && "QUE"@[0] == 'Q' && "STK"@[0] == 'S');
    let m = usize::MAX as nat;
    let st0 = initial_state();
    let st1 = DecodeState { depth: 1, ..st0 };
    let evs = dict_document_events(s);
    let ee = entries_events_from(s, 0);
    let n = evs.len();
    let objtag = list_obj_tag();
    let dcttag = TagView { name: "DCT"@, content: "DCT"@ };
    assert(xml_event_at(doc, 0) == Some(evs[0]));
    assert(xml_event_at(doc, 1) == Some(evs[1]));
    assert(evs[0] == EventView::Start(objtag));
    assert(evs[1] == EventView::Start(dcttag));
    let k2: nat = 2 + ee.len() + 1;
    assert(xml_event_at(doc, k2) == Some(evs[k2 as int]));
    assert(evs[k2 as int] == EventView::End("Obj"@));
    assert(n == k2 + 1);
    assert(xml_event_at(doc, n) == Some(EventView::Eof));
    let tail = ee + seq![EventView::End("DCT"@)];
    assert(events_at(doc, 2, tail)) by {
        assert forall|i: nat| i < tail.len() implies #[trigger] xml_event_at(doc, 2 + i) == Some(
            tail[i as int],
        ) by {
            assert(xml_event_at(doc, (2 + i) as nat) == Some(evs[(2 + i) as int]));
            assert(evs[(2 + i) as int] == tail[i as int]);
        }
    }
    let dv = super::view::entries_view(s);
    assert(s.subrange(0, 0) =~= Seq::<(PsValue, PsValue)>::empty());
    assert(super::view::entries_view(s.subrange(0, 0)) == Seq::<(PsView, PsView)>::empty());
    lemma_entries_steps(doc, 2, s, 0, st1, (m - 5) as nat);
    let o0 = ObjView { type_names: Seq::empty(), to_string: None, properties: Seq::empty() };
    assert(obj_child(doc, 2, dcttag, st1, o0, None, (m - 4) as nat) == Ok::<_, DecodeError>(
        (k2, st1, o0, Some(PsView::Dict(dv))),
    ));
    let o1 = finish_object(o0, Some(PsView::Dict(dv)));
    assert(obj_from(doc, k2, st1, o0, Some(PsView::Dict(dv)), (m - 4) as nat)
        == Ok::<_, DecodeError>((o1, n, st1)));
    assert(obj_from(doc, 1, st1, o0, None, (m - 3) as nat) == Ok::<_, DecodeError>((o1, n, st1)));
    let ov = PsView::Object(o1);
    let st2 = DecodeState { refs: st1.refs.insert("0"@, ov), ..st1 };
    assert(element_inner(doc, 1, objtag, st1, (m - 2) as nat) == Ok::<_, DecodeError>(
        (Some(ov), n, st2),
    ));
    let st3 = DecodeState { depth: 0, ..st2 };
    assert(element(doc, 1, objtag, st0, (m - 1) as nat) == Ok::<_, DecodeError>(
        (Some(ov), n, st3),
    ));
    assert(doc_from(doc, n, st3, seq![ov], (m - 1) as nat) == Ok::<_, DecodeError>(seq![ov]));
    assert(Seq::<PsView>::empty().push(ov) =~= seq![ov]);
    assert(doc_from(doc, 0, st0, Seq::empty(), m) == Ok::<_, DecodeError>(seq![ov]));
    lemma_norm_simple_entries(s);
    reveal_strlit("_value");
    assert(o1.properties =~= seq![("_value"@, PsView::Dict(dv))]);
    assert(norm(value_view(v)) == wrap_view(PsView::Dict(norm_entries(dv))));
}

/// `to_clixml` numbers `RefId`s afresh for every value: a list,
/// dictionary or object written on its own starts with
/// `<Obj RefId="0">`, and a scalar uses no id at all.
pub proof fn lemma_ref_ids_start_at_zero(v: PsValue)
    ensures
        (v is List || v is Dict || v is Object) ==> enc_value(v, None, 0).0.subrange(0, 15)
            == "<Obj RefId=\"0\">"@,
        !(v is List || v is Dict || v is Object) ==> enc_value(v, None, 0).1 == 0,
{
    reveal_strlit("<Obj RefId=\"");
    reveal_strlit("\">");
    reveal_strlit("<Obj RefId=\"0\">");
    let head = super::encode::obj_open(None, 0);
    assert(crate::text::dec_nat(0) == seq!['0']);
    assert(head =~= "<Obj RefId=\"0\">"@);
    if v is List || v is Dict || v is Object {
        let d = enc_value(v, None, 0).0;
        assert(d.subrange(0, 15) =~= head);
    }
}

} // verus!
