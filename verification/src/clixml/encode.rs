//! CLIXML encoder.
//!
//! Every `<Obj>` element in the output carries a monotonic `RefId` issued
//! by [`RefIdAllocator`]; each call to [`to_clixml`] gets its own
//! allocator, so references are scoped to the top-level call.

use vstd::prelude::*;
use crate::text::{push_decimal_u64, push_decimal_i64, dec_nat, dec_int, str_eq};
use super::escape::{escape_spec, push_escaped};
use super::base64::{base64_encode, b64_encode_spec};
use super::guid::{guid_to_text, guid_text};
use super::value::{PsValue, PsObject, prop_lookup, props_insert, names_unique};

verus! {

/// Allocator for monotonically increasing `RefId` values.
///
/// Callers that build CLIXML in several stages can thread one allocator
/// through the helpers so that the whole document uses a single
/// numbering scheme.
#[derive(Debug)]
pub struct RefIdAllocator {
    next: u32,
}

impl RefIdAllocator {
    /// The id the next call to [`RefIdAllocator::next`] returns.
    pub closed spec fn peek(&self) -> nat {
        self.next as nat
    }

    /// Start issuing ids from `0`.
    pub fn new() -> (a: RefIdAllocator)
        ensures
            a.peek() == 0,
    {
        RefIdAllocator { next: 0 }
    }

    /// Start issuing ids from `start`.
    pub fn starting_at(start: u32) -> (a: RefIdAllocator)
        ensures
            a.peek() == start,
    {
        RefIdAllocator { next: start }
    }

    /// Allocate the next id.
    pub fn next(&mut self) -> (v: u32)
        requires
            old(self).peek() < u32::MAX,
        ensures
            v == old(self).peek(),
            final(self).peek() == old(self).peek() + 1,
    {
        let v = self.next;
        self.next = v + 1;
        v
    }

    /// The allocator's bound: every id fits in a `u32`.
    pub proof fn lemma_peek_bound(&self)
        ensures
            self.peek() <= u32::MAX,
    {
    }
}

/// Ids issued by consecutive calls of [`RefIdAllocator::next`]: the
/// allocator before call `i` is `states[i]`, after it `states[i + 1]`,
/// and the call returned `ids[i]`, as `next`'s contract says. Then the
/// `i`-th id is the starting id plus `i`, so the ids strictly increase
/// and never repeat.
pub proof fn lemma_allocator_calls(states: Seq<RefIdAllocator>, ids: Seq<u32>)
    requires
        states.len() == ids.len() + 1,
        forall|i: int|
            0 <= i < ids.len() ==> #[trigger] ids[i] == states[i].peek() && states[i + 1].peek()
                == states[i].peek() + 1,
    ensures
        forall|i: int| 0 <= i < ids.len() ==> #[trigger] ids[i] == states[0].peek() + i,
        forall|i: int, j: int| 0 <= i < j < ids.len() ==> #[trigger] ids[i] < #[trigger] ids[j],
    decreases ids.len(),
{
    if ids.len() > 0 {
        let n = ids.len() - 1;
        lemma_allocator_calls(states.subrange(0, n + 1), ids.subrange(0, n));
        assert forall|i: int| 0 <= i < ids.len() implies #[trigger] ids[i] == states[0].peek() + i by {
            if i < n {
                assert(ids.subrange(0, n)[i] == ids[i]);
            } else {
                assert(ids[n] == states[n].peek());
                if n > 0 {
                    assert(ids.subrange(0, n)[n - 1] == ids[n - 1]);
                    assert(ids[n - 1] == states[n - 1].peek());
                    assert(states[n].peek() == states[n - 1].peek() + 1);
                }
            }
        }
    }
}

impl Default for RefIdAllocator {
    fn default() -> (a: RefIdAllocator)
        ensures
            a.peek() == 0,
    {
        RefIdAllocator::new()
    }
}

/// The view of an optional property name.
pub open spec fn opt_view(n: Option<&str>) -> Option<Seq<char>> {
    match n {
        Some(s) => Some(s@),
        None => None,
    }
}

/// One simple element: `<tag>body</tag>`, or `<tag/>` when
/// `self_close`; with `N="name"` (attribute-escaped) when named.
pub open spec fn simple_xml(
    tag: Seq<char>,
    body: Seq<char>,
    name: Option<Seq<char>>,
    self_close: bool,
) -> Seq<char> {
    if self_close {
        match name {
            Some(n) => "<"@ + tag + " N=\""@ + escape_spec(n, true) + "\"/>"@,
            None => "<"@ + tag + "/>"@,
        }
    } else {
        match name {
            Some(n) => "<"@ + tag + " N=\""@ + escape_spec(n, true) + "\">"@ + body + "</"@ + tag
                + ">"@,
            None => "<"@ + tag + ">"@ + body + "</"@ + tag + ">"@,
        }
    }
}

/// The opening tag of an `<Obj>` with ref id `id`.
pub open spec fn obj_open(name: Option<Seq<char>>, id: nat) -> Seq<char> {
    match name {
        Some(n) => "<Obj N=\""@ + escape_spec(n, true) + "\" RefId=\""@ + dec_nat(id) + "\">"@,
        None => "<Obj RefId=\""@ + dec_nat(id) + "\">"@,
    }
}

/// The CLIXML of a value that is not a list, dictionary or object,
/// written under an optional property name.
pub open spec fn enc_scalar(v: PsValue, name: Option<Seq<char>>) -> Seq<char> {
    match v {
        PsValue::Null => simple_xml("Nil"@, Seq::empty(), name, true),
        PsValue::Bool(b) => simple_xml(
            "B"@,
            if b {
                "true"@
            } else {
                "false"@
            },
            name,
            false,
        ),
        PsValue::I8(x) => simple_xml("SB"@, dec_int(x as int), name, false),
        PsValue::U8(x) => simple_xml("By"@, dec_int(x as int), name, false),
        PsValue::I16(x) => simple_xml("I16"@, dec_int(x as int), name, false),
        PsValue::U16(x) => simple_xml("U16"@, dec_int(x as int), name, false),
        PsValue::I32(x) => simple_xml("I32"@, dec_int(x as int), name, false),
        PsValue::U32(x) => simple_xml("U32"@, dec_int(x as int), name, false),
        PsValue::I64(x) => simple_xml("I64"@, dec_int(x as int), name, false),
        PsValue::U64(x) => simple_xml("U64"@, dec_int(x as int), name, false),
        PsValue::F32(s) => simple_xml("Sg"@, escape_spec(s@, false), name, false),
        PsValue::Double(s) => simple_xml("Db"@, escape_spec(s@, false), name, false),
        PsValue::Decimal(s) => simple_xml("D"@, escape_spec(s@, false), name, false),
        PsValue::Char(c) => simple_xml("C"@, dec_nat((c as u32) as nat), name, false),
        PsValue::String(s) => simple_xml("S"@, escape_spec(s@, false), name, false),
        PsValue::Bytes(b) => simple_xml("BA"@, b64_encode_spec(b@), name, false),
        PsValue::DateTime(s) => simple_xml("DT"@, escape_spec(s@, false), name, false),
        PsValue::Duration(s) => simple_xml("TS"@, escape_spec(s@, false), name, false),
        PsValue::Guid(g) => simple_xml("G"@, guid_text(g@), name, false),
        PsValue::Version(s) => simple_xml("Version"@, escape_spec(s@, false), name, false),
        PsValue::Uri(s) => simple_xml("URI"@, escape_spec(s@, false), name, false),
        PsValue::Xml(s) => simple_xml("XD"@, escape_spec(s@, false), name, false),
        PsValue::ScriptBlock(s) => simple_xml("SCT"@, escape_spec(s@, false), name, false),
        PsValue::SecureString(s) => simple_xml("SS"@, escape_spec(s@, false), name, false),
        _ => Seq::empty(),
    }
}

/// The CLIXML of a value written under an optional property name, with
/// `<Obj>` ref ids issued from `id`: the text and the next free id.
pub open spec fn enc_value(v: PsValue, name: Option<Seq<char>>, id: nat) -> (Seq<char>, nat)
    decreases v, 1nat,
{
    match v {
        PsValue::List(items) => {
            let r = enc_items(items@, id + 1);
            (obj_open(name, id) + "<LST>"@ + r.0 + "</LST>"@ + "</Obj>"@, r.1)
        },
        PsValue::Dict(entries) => {
            let r = enc_entries(entries@, id + 1);
            (obj_open(name, id) + "<DCT>"@ + r.0 + "</DCT>"@ + "</Obj>"@, r.1)
        },
        PsValue::Object(o) => enc_object(o, name, id),
        _ => (enc_scalar(v, name), id),
    }
}

/// The CLIXML of list items, each unnamed, in order.
pub open spec fn enc_items(s: Seq<PsValue>, id: nat) -> (Seq<char>, nat)
    decreases s, 0nat,
{
    if s.len() == 0 {
        (Seq::empty(), id)
    } else {
        let a = enc_items(s.subrange(0, s.len() - 1), id);
        let b = enc_value(s[s.len() - 1], None, a.1);
        (a.0 + b.0, b.1)
    }
}

/// The CLIXML of dictionary entries: `<En>` holding the key under `Key`
/// and the value under `Value`.
pub open spec fn enc_entries(s: Seq<(PsValue, PsValue)>, id: nat) -> (Seq<char>, nat)
    decreases s, 0nat,
{
    if s.len() == 0 {
        (Seq::empty(), id)
    } else {
        let a = enc_entries(s.subrange(0, s.len() - 1), id);
        let k = enc_value(s[s.len() - 1].0, Some("Key"@), a.1);
        let v = enc_value(s[s.len() - 1].1, Some("Value"@), k.1);
        (a.0 + "<En>"@ + k.0 + v.0 + "</En>"@, v.1)
    }
}

/// The body written for the synthetic `_value` property: a list or
/// dictionary as its bare `<LST>` / `<DCT>`, anything else as an unnamed
/// value.
pub open spec fn enc_bare(v: PsValue, id: nat) -> (Seq<char>, nat)
    decreases v, 2nat,
{
    match v {
        PsValue::List(items) => {
            let r = enc_items(items@, id);
            ("<LST>"@ + r.0 + "</LST>"@, r.1)
        },
        PsValue::Dict(entries) => {
            let r = enc_entries(entries@, id);
            ("<DCT>"@ + r.0 + "</DCT>"@, r.1)
        },
        _ => enc_value(v, None, id),
    }
}

/// The bare body of the first property named `_value`, if any.
pub open spec fn enc_value_prop(props: Seq<(String, PsValue)>, id: nat) -> (Seq<char>, nat)
    decreases props, 0nat,
{
    if props.len() == 0 {
        (Seq::empty(), id)
    } else if props[0].0@ == "_value"@ {
        enc_bare(props[0].1, id)
    } else {
        enc_value_prop(props.subrange(1, props.len() as int), id)
    }
}

/// The named members of an object's `<MS>`: every property but
/// `_value`, in order.
pub open spec fn enc_props(props: Seq<(String, PsValue)>, id: nat) -> (Seq<char>, nat)
    decreases props, 0nat,
{
    if props.len() == 0 {
        (Seq::empty(), id)
    } else {
        let a = enc_props(props.subrange(0, props.len() - 1), id);
        let last = props[props.len() - 1];
        if last.0@ == "_value"@ {
            a
        } else {
            let b = enc_value(last.1, Some(last.0@), a.1);
            (a.0 + b.0, b.1)
        }
    }
}

/// Whether an object has a property other than `_value`.
pub open spec fn has_member(props: Seq<(String, PsValue)>) -> bool {
    exists|i: int| 0 <= i < props.len() && #[trigger] props[i].0@ != "_value"@
}

/// The `<T>` elements of a type-name list.
pub open spec fn enc_type_names(s: Seq<String>) -> Seq<char>
    decreases s.len(),
{
    if s.len() == 0 {
        Seq::empty()
    } else {
        enc_type_names(s.drop_last()) + "<T>"@ + escape_spec(s.last()@, false) + "</T>"@
    }
}

/// The `<TN>` block of an object's type names, allocating its ref id
/// when there is at least one name.
pub open spec fn enc_tn(names: Seq<String>, id: nat) -> (Seq<char>, nat) {
    if names.len() > 0 {
        ("<TN RefId=\""@ + dec_nat(id) + "\">"@ + enc_type_names(names) + "</TN>"@, id + 1)
    } else {
        (Seq::empty(), id)
    }
}

/// The `<ToString>` element of an object, when it has one.
pub open spec fn enc_ts(t: Option<String>) -> Seq<char> {
    match t {
        Some(t) => "<ToString>"@ + escape_spec(t@, false) + "</ToString>"@,
        None => Seq::empty(),
    }
}

/// The `<MS>` member set of an object, present when it has a property
/// other than `_value`.
pub open spec fn enc_ms(props: Seq<(String, PsValue)>, id: nat) -> (Seq<char>, nat)
    decreases props, 1nat,
{
    if has_member(props) {
        let r = enc_props(props, id);
        ("<MS>"@ + r.0 + "</MS>"@, r.1)
    } else {
        (Seq::empty(), id)
    }
}

/// The CLIXML of an object: `<Obj>` with its `<TN>`, `<ToString>`, bare
/// `_value` body and `<MS>` of the remaining properties.
pub open spec fn enc_object(o: PsObject, name: Option<Seq<char>>, id: nat) -> (Seq<char>, nat)
    decreases o, 0nat,
{
    let tn = enc_tn(o.type_names@, id + 1);
    let vp = enc_value_prop(o.properties@, tn.1);
    let ms = enc_ms(o.properties@, vp.1);
    (obj_open(name, id) + tn.0 + enc_ts(o.to_string) + vp.0 + ms.0 + "</Obj>"@, ms.1)
}

} // verus!

verus! {

pub(crate) proof fn lemma_enc_value_mono(v: PsValue, name: Option<Seq<char>>, id: nat)
    ensures
        enc_value(v, name, id).1 >= id,
    decreases v, 1nat,
{
    match v {
        PsValue::List(items) => lemma_enc_items_mono(items@, id + 1),
        PsValue::Dict(entries) => lemma_enc_entries_mono(entries@, id + 1),
        PsValue::Object(o) => lemma_enc_object_mono(o, name, id),
        _ => {},
    }
}

pub(crate) proof fn lemma_enc_items_mono(s: Seq<PsValue>, id: nat)
    ensures
        enc_items(s, id).1 >= id,
    decreases s, 0nat,
{
    if s.len() > 0 {
        lemma_enc_items_mono(s.subrange(0, s.len() - 1), id);
        let a = enc_items(s.subrange(0, s.len() - 1), id);
        lemma_enc_value_mono(s[s.len() - 1], None, a.1);
    }
}

pub(crate) proof fn lemma_enc_entries_mono(s: Seq<(PsValue, PsValue)>, id: nat)
    ensures
        enc_entries(s, id).1 >= id,
    decreases s, 0nat,
{
    if s.len() > 0 {
        lemma_enc_entries_mono(s.subrange(0, s.len() - 1), id);
        let a = enc_entries(s.subrange(0, s.len() - 1), id);
        lemma_enc_value_mono(s[s.len() - 1].0, Some("Key"@), a.1);
        let k = enc_value(s[s.len() - 1].0, Some("Key"@), a.1);
        lemma_enc_value_mono(s[s.len() - 1].1, Some("Value"@), k.1);
    }
}

proof fn lemma_enc_bare_mono(v: PsValue, id: nat)
    ensures
        enc_bare(v, id).1 >= id,
    decreases v, 2nat,
{
    match v {
        PsValue::List(items) => lemma_enc_items_mono(items@, id),
        PsValue::Dict(entries) => lemma_enc_entries_mono(entries@, id),
        _ => {
                    lemma_enc_value_mono(v, None, id)
        },
    }
}

pub(crate) proof fn lemma_enc_value_prop_mono(props: Seq<(String, PsValue)>, id: nat)
    ensures
        enc_value_prop(props, id).1 >= id,
    decreases props, 0nat,
{
    if props.len() > 0 {
        if props[0].0@ == "_value"@ {
            lemma_enc_bare_mono(props[0].1, id);
        } else {
            lemma_enc_value_prop_mono(props.subrange(1, props.len() as int), id);
        }
    }
}

pub(crate) proof fn lemma_enc_props_mono(props: Seq<(String, PsValue)>, id: nat)
    ensures
        enc_props(props, id).1 >= id,
    decreases props, 0nat,
{
    if props.len() > 0 {
        lemma_enc_props_mono(props.subrange(0, props.len() - 1), id);
        let a = enc_props(props.subrange(0, props.len() - 1), id);
        let last = props[props.len() - 1];
        lemma_enc_value_mono(last.1, Some(last.0@), a.1);
    }
}

proof fn lemma_enc_object_mono(o: PsObject, name: Option<Seq<char>>, id: nat)
    ensures
        enc_object(o, name, id).1 >= id,
    decreases o, 0nat,
{
    let tn = enc_tn(o.type_names@, id + 1);
    lemma_enc_value_prop_mono(o.properties@, tn.1);
    let vp = enc_value_prop(o.properties@, tn.1);
    lemma_enc_props_mono(o.properties@, vp.1);
}

proof fn lemma_enc_items_prefix(s: Seq<PsValue>, i: int, id: nat)
    requires
        0 <= i <= s.len(),
    ensures
        enc_items(s.subrange(0, i), id).1 <= enc_items(s, id).1,
    decreases s.len() - i,
{
    if i < s.len() {
        lemma_enc_items_prefix(s, i + 1, id);
        let p = s.subrange(0, i + 1);
        assert(p.subrange(0, p.len() - 1) =~= s.subrange(0, i));
        let a = enc_items(s.subrange(0, i), id);
        lemma_enc_value_mono(p[p.len() - 1], None, a.1);
    } else {
        assert(s.subrange(0, i) =~= s);
    }
}

proof fn lemma_enc_entries_prefix(s: Seq<(PsValue, PsValue)>, i: int, id: nat)
    requires
        0 <= i <= s.len(),
    ensures
        enc_entries(s.subrange(0, i), id).1 <= enc_entries(s, id).1,
    decreases s.len() - i,
{
    if i < s.len() {
        lemma_enc_entries_prefix(s, i + 1, id);
        let p = s.subrange(0, i + 1);
        assert(p.subrange(0, p.len() - 1) =~= s.subrange(0, i));
        let a = enc_entries(s.subrange(0, i), id);
        lemma_enc_value_mono(p[p.len() - 1].0, Some("Key"@), a.1);
        let k = enc_value(p[p.len() - 1].0, Some("Key"@), a.1);
        lemma_enc_value_mono(p[p.len() - 1].1, Some("Value"@), k.1);
    } else {
        assert(s.subrange(0, i) =~= s);
    }
}

proof fn lemma_enc_props_prefix(s: Seq<(String, PsValue)>, i: int, id: nat)
    requires
        0 <= i <= s.len(),
    ensures
        enc_props(s.subrange(0, i), id).1 <= enc_props(s, id).1,
    decreases s.len() - i,
{
    if i < s.len() {
        lemma_enc_props_prefix(s, i + 1, id);
        let p = s.subrange(0, i + 1);
        assert(p.subrange(0, p.len() - 1) =~= s.subrange(0, i));
        let a = enc_props(s.subrange(0, i), id);
        let last = p[p.len() - 1];
        lemma_enc_value_mono(last.1, Some(last.0@), a.1);
    } else {
        assert(s.subrange(0, i) =~= s);
    }
}

proof fn lemma_value_prop_lookup(props: Seq<(String, PsValue)>, id: nat)
    ensures
        enc_value_prop(props, id) == match prop_lookup(props, "_value"@) {
            Some(v) => enc_bare(v, id),
            None => (Seq::<char>::empty(), id),
        },
    decreases props.len(),
{
    if props.len() > 0 && props[0].0@ != "_value"@ {
        assert(props.subrange(1, props.len() as int) =~= props.drop_first());
        lemma_value_prop_lookup(props.drop_first(), id);
    }
}

/// Appends one simple element.
fn write_simple(out: &mut String, tag: &str, body: &str, name: Option<&str>, self_close: bool)
    ensures
        final(out)@ == old(out)@ + simple_xml(tag@, body@, opt_view(name), self_close),
{
    let ghost start = out@;
    if self_close {
        if let Some(n) = name {
            out.append("<");
            out.append(tag);
            out.append(" N=\"");
            push_escaped(out, n, true);
            out.append("\"/>");
        } else {
            out.append("<");
            out.append(tag);
            out.append("/>");
        }
        assert(out@ =~= start + simple_xml(tag@, body@, opt_view(name), self_close));
        return;
    }
    match name {
        Some(n) => {
            out.append("<");
            out.append(tag);
            out.append(" N=\"");
            push_escaped(out, n, true);
            out.append("\">");
            out.append(body);
            out.append("</");
            out.append(tag);
            out.append(">");
        },
        None => {
            out.append("<");
            out.append(tag);
            out.append(">");
            out.append(body);
            out.append("</");
            out.append(tag);
            out.append(">");
        },
    }
    assert(out@ =~= start + simple_xml(tag@, body@, opt_view(name), self_close));
}

/// Appends the opening tag of an `<Obj>`, allocating its ref id.
pub(crate) fn open_obj(out: &mut String, name: Option<&str>, alloc: &mut RefIdAllocator)
    requires
        old(alloc).peek() < u32::MAX,
    ensures
        final(out)@ == old(out)@ + obj_open(opt_view(name), old(alloc).peek()),
        final(alloc).peek() == old(alloc).peek() + 1,
{
    let ghost start = out@;
    let id = alloc.next();
    match name {
        Some(n) => {
            out.append("<Obj N=\"");
            push_escaped(out, n, true);
            out.append("\" RefId=\"");
            push_decimal_u64(out, id as u64);
            out.append("\">");
        },
        None => {
            out.append("<Obj RefId=\"");
            push_decimal_u64(out, id as u64);
            out.append("\">");
        },
    }
    assert(out@ =~= start + obj_open(opt_view(name), id as nat));
}

fn decimal_i64(v: i64) -> (r: String)
    ensures
        r@ == dec_int(v as int),
{
    let mut s = String::new();
    push_decimal_i64(&mut s, v);
    s
}

fn decimal_u64(v: u64) -> (r: String)
    ensures
        r@ == dec_int(v as int),
{
    let mut s = String::new();
    push_decimal_u64(&mut s, v);
    s
}

} // verus!

verus! {

/// Serialize a [`PsValue`] into a CLIXML fragment (no `<Objs>` wrapper),
/// numbering `<Obj>` ref ids from `0`.
pub fn to_clixml(value: &PsValue) -> (r: String)
    requires
        enc_value(*value, None, 0).1 <= u32::MAX,
    ensures
        r@ == enc_value(*value, None, 0).0,
{
    let mut alloc = RefIdAllocator::new();
    let mut out = String::new();
    write_value_with(&mut out, value, None, &mut alloc);
    out
}

/// Write a value, threading a caller-owned [`RefIdAllocator`] through
/// nested objects.
pub fn write_value_with(
    out: &mut String,
    value: &PsValue,
    name: Option<&str>,
    alloc: &mut RefIdAllocator,
)
    requires
        enc_value(*value, opt_view(name), old(alloc).peek()).1 <= u32::MAX,
    ensures
        final(out)@ == old(out)@ + enc_value(*value, opt_view(name), old(alloc).peek()).0,
        final(alloc).peek() == enc_value(*value, opt_view(name), old(alloc).peek()).1,
    decreases *value, 1nat,
{
    let ghost id0 = alloc.peek();
    match value {
        PsValue::List(_) | PsValue::Dict(_) => {
            let ghost start = out@;
            proof {
                match value {
                    PsValue::List(items) => lemma_enc_items_mono(items@, id0 + 1),
                    PsValue::Dict(entries) => lemma_enc_entries_mono(entries@, id0 + 1),
                    _ => {},
                }
            }
            open_obj(out, name, alloc);
            write_container_body(out, value, alloc);
            out.append("</Obj>");
            assert(out@ =~= start + enc_value(*value, opt_view(name), id0).0);
        },
        PsValue::Object(obj) => {
            proof {
                assert(decreases_to!(*value => (*value)->Object_0));
            }
            write_object(out, obj, name, alloc);
        },
        _ => write_scalar(out, value, name),
    }
}

/// Write a value that is not a list, dictionary or object.
fn write_scalar(out: &mut String, value: &PsValue, name: Option<&str>)
    ensures
        final(out)@ == old(out)@ + enc_scalar(*value, opt_view(name)),
{
    match value {
        PsValue::Null => write_simple(out, "Nil", "", name, true),
        PsValue::Bool(b) => write_simple(
            out,
            "B",
            if *b {
                "true"
            } else {
                "false"
            },
            name,
            false,
        ),
        PsValue::I8(v) => write_simple(out, "SB", decimal_i64(*v as i64).as_str(), name, false),
        PsValue::U8(v) => write_simple(out, "By", decimal_u64(*v as u64).as_str(), name, false),
        PsValue::I16(v) => write_simple(out, "I16", decimal_i64(*v as i64).as_str(), name, false),
        PsValue::U16(v) => write_simple(out, "U16", decimal_u64(*v as u64).as_str(), name, false),
        PsValue::I32(v) => write_simple(out, "I32", decimal_i64(*v as i64).as_str(), name, false),
        PsValue::U32(v) => write_simple(out, "U32", decimal_u64(*v as u64).as_str(), name, false),
        PsValue::I64(v) => write_simple(out, "I64", decimal_i64(*v).as_str(), name, false),
        PsValue::U64(v) => write_simple(out, "U64", decimal_u64(*v).as_str(), name, false),
        PsValue::F32(s) => write_simple(out, "Sg", escape_string(s).as_str(), name, false),
        PsValue::Double(s) => write_simple(out, "Db", escape_string(s).as_str(), name, false),
        PsValue::Decimal(s) => write_simple(out, "D", escape_string(s).as_str(), name, false),
        PsValue::Char(c) => {
            let code = *c as u32;
            write_simple(out, "C", decimal_u64(code as u64).as_str(), name, false)
        },
        PsValue::String(s) => write_simple(out, "S", escape_string(s).as_str(), name, false),
        PsValue::Bytes(b) => write_simple(
            out,
            "BA",
            base64_encode(b.as_slice()).as_str(),
            name,
            false,
        ),
        PsValue::DateTime(s) => write_simple(out, "DT", escape_string(s).as_str(), name, false),
        PsValue::Duration(s) => write_simple(out, "TS", escape_string(s).as_str(), name, false),
        PsValue::Guid(g) => write_simple(out, "G", guid_to_text(g).as_str(), name, false),
        PsValue::Version(s) => write_simple(
            out,
            "Version",
            escape_string(s).as_str(),
            name,
            false,
        ),
        PsValue::Uri(s) => write_simple(out, "URI", escape_string(s).as_str(), name, false),
        PsValue::Xml(s) => write_simple(out, "XD", escape_string(s).as_str(), name, false),
        PsValue::ScriptBlock(s) => write_simple(
            out,
            "SCT",
            escape_string(s).as_str(),
            name,
            false,
        ),
        PsValue::SecureString(s) => write_simple(
            out,
            "SS",
            escape_string(s).as_str(),
            name,
            false,
        ),
        _ => {},
    }
}

fn escape_string(s: &String) -> (r: String)
    ensures
        r@ == escape_spec(s@, false),
{
    super::escape::escape(s.as_str())
}

/// Write the bare `<LST>` / `<DCT>` body of a container, without an
/// enclosing `<Obj>`. Returns `false`, writing nothing, when `value` is
/// not a container.
fn write_container_body(out: &mut String, value: &PsValue, alloc: &mut RefIdAllocator) -> (r: bool)
    requires
        (value is List || value is Dict) ==> enc_bare(*value, old(alloc).peek()).1 <= u32::MAX,
    ensures
        r == (value is List || value is Dict),
        r ==> final(out)@ == old(out)@ + enc_bare(*value, old(alloc).peek()).0,
        r ==> final(alloc).peek() == enc_bare(*value, old(alloc).peek()).1,
        !r ==> final(out)@ == old(out)@ && final(alloc).peek() == old(alloc).peek(),
    decreases *value, 0nat,
{
    let ghost id0 = alloc.peek();
    match value {
        PsValue::List(items) => {
            out.append("<LST>");
            let ghost start = out@;
            let n = items.len();
            for i in 0..n
                invariant
                    n == items@.len(),
                    *value == PsValue::List(*items),
                    enc_items(items@, id0).1 <= u32::MAX,
                    out@ == start + enc_items(items@.subrange(0, i as int), id0).0,
                    alloc.peek() == enc_items(items@.subrange(0, i as int), id0).1,
            {
                let ghost p = items@.subrange(0, i + 1);
                proof {
                    assert(p.subrange(0, p.len() - 1) =~= items@.subrange(0, i as int));
                    lemma_enc_items_prefix(items@, i + 1, id0);
                    assert(decreases_to!(*value => (*value)->List_0));
                    assert(decreases_to!(items => items@));
                    assert(decreases_to!(items@ => items@[i as int]));
                }
                write_value_with(out, &items[i], None, alloc);
            }
            assert(items@.subrange(0, n as int) =~= items@);
            out.append("</LST>");
            true
        },
        PsValue::Dict(entries) => {
            out.append("<DCT>");
            let ghost start = out@;
            let n = entries.len();
            for i in 0..n
                invariant
                    n == entries@.len(),
                    *value == PsValue::Dict(*entries),
                    enc_entries(entries@, id0).1 <= u32::MAX,
                    out@ == start + enc_entries(entries@.subrange(0, i as int), id0).0,
                    alloc.peek() == enc_entries(entries@.subrange(0, i as int), id0).1,
            {
                let ghost p = entries@.subrange(0, i + 1);
                let ghost before = out@;
                proof {
                    assert(p.subrange(0, p.len() - 1) =~= entries@.subrange(0, i as int));
                    lemma_enc_entries_prefix(entries@, i + 1, id0);
                    let a = enc_entries(entries@.subrange(0, i as int), id0);
                    let k = enc_value(entries@[i as int].0, Some("Key"@), a.1);
                    lemma_enc_value_mono(entries@[i as int].1, Some("Value"@), k.1);
                    assert(decreases_to!(*value => (*value)->Dict_0));
                    assert(decreases_to!(entries => entries@));
                    assert(decreases_to!(entries@ => entries@[i as int]));
                    assert(decreases_to!(entries@[i as int] => entries@[i as int].0));
                    assert(decreases_to!(entries@[i as int] => entries@[i as int].1));
                }
                out.append("<En>");
                write_value_with(out, &entries[i].0, Some("Key"), alloc);
                write_value_with(out, &entries[i].1, Some("Value"), alloc);
                out.append("</En>");
                assert(out@ =~= start + enc_entries(p, id0).0);
            }
            assert(entries@.subrange(0, n as int) =~= entries@);
            out.append("</DCT>");
            true
        },
        _ => false,
    }
}

fn is_value_name(k: &String) -> (r: bool)
    ensures
        r == (k@ == "_value"@),
{
    str_eq(k.as_str(), "_value")
}

#[verifier::rlimit(40)]
fn write_object(out: &mut String, obj: &PsObject, name: Option<&str>, alloc: &mut RefIdAllocator)
    requires
        enc_object(*obj, opt_view(name), old(alloc).peek()).1 <= u32::MAX,
    ensures
        final(out)@ == old(out)@ + enc_object(*obj, opt_view(name), old(alloc).peek()).0,
        final(alloc).peek() == enc_object(*obj, opt_view(name), old(alloc).peek()).1,
    decreases *obj, 0nat,
{
    let ghost id0 = alloc.peek();
    let ghost start = out@;
    let ghost props = obj.properties@;
    let ghost tn = enc_tn(obj.type_names@, id0 + 1);
    let ghost vp = enc_value_prop(props, tn.1);
    proof {
        lemma_enc_value_prop_mono(props, tn.1);
        lemma_enc_props_mono(props, vp.1);
        lemma_value_prop_lookup(props, tn.1);
    }
    open_obj(out, name, alloc);
    write_type_names(out, &obj.type_names, alloc);
    if let Some(ts) = &obj.to_string {
        out.append("<ToString>");
        push_escaped(out, ts.as_str(), false);
        out.append("</ToString>");
    }
    let ghost after_ts = out@;
    assert(after_ts =~= start + obj_open(opt_view(name), id0) + tn.0 + enc_ts(obj.to_string));
    let value_prop = obj.get("_value");
    if let Some(v) = value_prop {
        proof {
            super::value::lemma_prop_lookup_index(props, "_value"@);
            let k = choose|k: int|
                0 <= k < props.len() && #[trigger] props[k].0@ == "_value"@ && props[k].1 == *v;
            assert(decreases_to!(*obj => obj.properties));
            assert(decreases_to!(obj.properties => obj.properties@));
            assert(decreases_to!(obj.properties@ => obj.properties@[k]));
            assert(decreases_to!(obj.properties@[k] => obj.properties@[k].1));
        }
        if !write_container_body(out, v, alloc) {
            write_value_with(out, v, None, alloc);
        }
    }
    assert(out@ =~= after_ts + vp.0);
    proof {
        assert(decreases_to!(*obj => obj.properties));
    }
    write_members(out, &obj.properties, alloc);
    out.append("</Obj>");
    assert(out@ =~= start + enc_object(*obj, opt_view(name), id0).0);
}

fn write_type_names(out: &mut String, names: &Vec<String>, alloc: &mut RefIdAllocator)
    requires
        names@.len() > 0 ==> old(alloc).peek() < u32::MAX,
    ensures
        final(out)@ == old(out)@ + enc_tn(names@, old(alloc).peek()).0,
        final(alloc).peek() == enc_tn(names@, old(alloc).peek()).1,
{
    let ghost start = out@;
    if names.len() > 0 {
        let tn_id = alloc.next();
        out.append("<TN RefId=\"");
        push_decimal_u64(out, tn_id as u64);
        out.append("\">");
        let ghost tn_start = out@;
        let n = names.len();
        for i in 0..n
            invariant
                n == names@.len(),
                out@ == tn_start + enc_type_names(names@.subrange(0, i as int)),
        {
            let ghost p = names@.subrange(0, i + 1);
            assert(p.drop_last() =~= names@.subrange(0, i as int));
            out.append("<T>");
            push_escaped(out, names[i].as_str(), false);
            out.append("</T>");
        }
        assert(names@.subrange(0, n as int) =~= names@);
        out.append("</TN>");
        assert(out@ =~= start + enc_tn(names@, tn_id as nat).0);
    }
}

fn has_member_name(props: &Vec<(String, PsValue)>) -> (r: bool)
    ensures
        r == has_member(props@),
{
    let n = props.len();
    let mut i: usize = 0;
    while i < n
        invariant
            n == props@.len(),
            i <= n,
            forall|j: int| 0 <= j < i ==> #[trigger] props@[j].0@ == "_value"@,
        decreases n - i,
    {
        if !is_value_name(&props[i].0) {
            return true;
        }
        i = i + 1;
    }
    false
}

fn write_members(out: &mut String, props: &Vec<(String, PsValue)>, alloc: &mut RefIdAllocator)
    requires
        enc_ms(props@, old(alloc).peek()).1 <= u32::MAX,
    ensures
        final(out)@ == old(out)@ + enc_ms(props@, old(alloc).peek()).0,
        final(alloc).peek() == enc_ms(props@, old(alloc).peek()).1,
    decreases *props, 1nat,
{
    if has_member_name(props) {
        out.append("<MS>");
        let ghost ms_start = out@;
        let ghost id_ms = alloc.peek();
        let n = props.len();
        for i in 0..n
            invariant
                n == props@.len(),
                enc_props(props@, id_ms).1 <= u32::MAX,
                out@ == ms_start + enc_props(props@.subrange(0, i as int), id_ms).0,
                alloc.peek() == enc_props(props@.subrange(0, i as int), id_ms).1,
        {
            let ghost p = props@.subrange(0, i + 1);
            proof {
                assert(p.subrange(0, p.len() - 1) =~= props@.subrange(0, i as int));
                lemma_enc_props_prefix(props@, i + 1, id_ms);
            }
            if !is_value_name(&props[i].0) {
                proof {
                    assert(decreases_to!(props => props@));
                    assert(decreases_to!(props@ => props@[i as int]));
                    assert(decreases_to!(props@[i as int] => props@[i as int].1));
                }
                write_value_with(out, &props[i].1, Some(props[i].0.as_str()), alloc);
            }
        }
        assert(props@.subrange(0, n as int) =~= props@);
        out.append("</MS>");
    }
}

} // verus!

verus! {

/// `value` is an object whose type names, `ToString` and properties
/// (by name and value) are exactly the given ones.
pub open spec fn is_object_of(
    value: PsValue,
    type_names: Seq<Seq<char>>,
    to_string: Option<Seq<char>>,
    props: Seq<(Seq<char>, PsValue)>,
) -> bool {
    &&& value is Object
    &&& {
        let o = value->Object_0;
        &&& o.type_names@.len() == type_names.len()
        &&& forall|i: int| 0 <= i < type_names.len() ==> #[trigger] o.type_names@[i]@ == type_names[i]
        &&& match (o.to_string, to_string) {
            (Some(a), Some(b)) => a@ == b,
            (None, None) => true,
            _ => false,
        }
        &&& o.properties@.len() == props.len()
        &&& forall|i: int|
            0 <= i < props.len() ==> (#[trigger] o.properties@[i]).0@ == props[i].0
                && o.properties@[i].1 == props[i].1
        &&& o.wf()
    }
}

pub(crate) fn string_of(s: &str) -> (r: String)
    ensures
        r@ == s@,
{
    s.to_owned()
}

/// Build an `<Obj>` representing a .NET `enum` value: the full type
/// hierarchy `enum_type`, `System.Enum`, `System.ValueType`,
/// `System.Object`, the value's name as `ToString`, and the integer as
/// the bare body (the synthetic `_value` property).
pub fn ps_enum(enum_type: &str, value_name: &str, integer_value: i32) -> (r: PsValue)
    ensures
        is_object_of(
            r,
            seq![enum_type@, "System.Enum"@, "System.ValueType"@, "System.Object"@],
            Some(value_name@),
            seq![("_value"@, PsValue::I32(integer_value))],
        ),
{
    let mut names: Vec<String> = Vec::new();
    names.push(string_of(enum_type));
    names.push(string_of("System.Enum"));
    names.push(string_of("System.ValueType"));
    names.push(string_of("System.Object"));
    let mut obj = PsObject::new().with_type_names(names);
    obj.to_string = Some(string_of(value_name));
    obj.insert(string_of("_value"), PsValue::I32(integer_value));
    assert(!super::value::prop_has(Seq::empty(), "_value"@));
    PsValue::Object(obj)
}

/// The minimal `HostInfo` object of an `InitRunspacePool` message,
/// declaring that there is no host: `_isHostNull`, `_isHostUINull`,
/// `_isHostRawUINull` and `_useRunspaceHost` all `true`.
pub fn ps_host_info_null() -> (r: PsValue)
    ensures
        is_object_of(
            r,
            Seq::empty(),
            None,
            seq![
                ("_isHostNull"@, PsValue::Bool(true)),
                ("_isHostUINull"@, PsValue::Bool(true)),
                ("_isHostRawUINull"@, PsValue::Bool(true)),
                ("_useRunspaceHost"@, PsValue::Bool(true)),
            ],
        ),
{
    proof {
        reveal_strlit("_isHostNull");
        reveal_strlit("_isHostUINull");
        reveal_strlit("_isHostRawUINull");
        reveal_strlit("_useRunspaceHost");
        assert("_isHostNull"@.len() == 11);
        assert("_isHostUINull"@.len() == 13);
        assert("_isHostRawUINull"@.len() == 16);
        assert("_useRunspaceHost"@.len() == 16);
        assert("_isHostRawUINull"@[1] != "_useRunspaceHost"@[1]);
    }
    let o0 = PsObject::new();
    let o1 = o0.with(string_of("_isHostNull"), PsValue::Bool(true));
    assert(!super::value::prop_has(o0.properties@, "_isHostNull"@));
    let o2 = o1.with(string_of("_isHostUINull"), PsValue::Bool(true));
    assert(!super::value::prop_has(o1.properties@, "_isHostUINull"@)) by {
        assert(o1.properties@[0].0@ == "_isHostNull"@);
    }
    let o3 = o2.with(string_of("_isHostRawUINull"), PsValue::Bool(true));
    assert(!super::value::prop_has(o2.properties@, "_isHostRawUINull"@)) by {
        assert(o2.properties@[0].0@ == "_isHostNull"@);
        assert(o2.properties@[1].0@ == "_isHostUINull"@);
    }
    let o4 = o3.with(string_of("_useRunspaceHost"), PsValue::Bool(true));
    assert(!super::value::prop_has(o3.properties@, "_useRunspaceHost"@)) by {
        assert(o3.properties@[0].0@ == "_isHostNull"@);
        assert(o3.properties@[1].0@ == "_isHostUINull"@);
        assert(o3.properties@[2].0@ == "_isHostRawUINull"@);
    }
    PsValue::Object(o4)
}

} // verus!
