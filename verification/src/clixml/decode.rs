//! CLIXML decoder.
//!
//! Tolerant: unknown elements are skipped, a dangling `<Ref>` decodes to
//! a null, and leading white space, byte-order marks and `<Objs>`
//! wrappers are accepted.

use vstd::prelude::*;
use super::xml::{
    XmlTag, XmlEvent, TagView, EventView, event_view, tag_view, xml_event_at, xml_reader,
    read_xml_event, xml_reader_input, xml_reader_events_read, tag_attribute, tag_attr,
    char_ref, predefined_entity,
};
use super::view::{PsView, ObjView, value_view, object_view, view_props_insert, strings_view};
use super::escape::unescape_from;
use super::scalars::{trim, parse_int_spec, parse_bool_spec, float_syntax};
use super::base64::b64_decode_spec;
use super::guid::{uuid_parse, parse_guid};
use super::value::{PsValue, PsObject};
use super::view::{clone_value, clone_strings, items_view, entries_view, props_view};
use super::xml::{resolve_char_ref, resolve_predefined_entity};
use super::escape::decode_pwsh_escapes;
use super::scalars::{trim_chars, trim_str, parse_int, parse_bool, is_float_syntax, string_of_chars};
use super::base64::base64_decode;
use crate::text::{push_char, str_eq};

verus! {

/// Maximum `<Obj>` / `<LST>` / `<DCT>` nesting accepted from the wire.
///
/// The decoder recurses once per level, and the document comes from the
/// remote host: without a cap a few kilobytes of `<Obj><MS>` would
/// overflow the stack. 64 is an order of magnitude more than
/// PowerShell's own serializer emits.
pub const MAX_NESTING_DEPTH: u32 = 64;

/// Why a CLIXML document was refused.
#[derive(Debug, Clone, Copy, PartialEq, Eq, Structural)]
pub enum DecodeError {
    /// The XML itself is malformed, or an attribute value is.
    Xml,
    /// An entity reference that is neither a character reference nor
    /// one of the five predefined entities.
    UnknownEntity,
    /// The document ends inside an element.
    UnexpectedEof,
    /// Elements nest deeper than [`MAX_NESTING_DEPTH`].
    TooDeep,
    /// A primitive's text is not a value of its type.
    InvalidValue,
    /// The document needs more reading steps than the decoder's step
    /// budget, `usize::MAX`.
    TooLong,
}

/// The decoder's tables: objects by `RefId`, type-name lists by the
/// `RefId` of their `<TN>`, and the current nesting depth.
pub struct DecodeState {
    pub refs: Map<Seq<char>, PsView>,
    pub type_names: Map<Seq<char>, Seq<Seq<char>>>,
    pub depth: nat,
}

/// An attribute's value, or `Xml` when it does not normalize.
pub open spec fn attr(t: TagView, key: Seq<char>) -> Result<Option<Seq<char>>, DecodeError> {
    match tag_attr(t, key) {
        Ok(v) => Ok(v),
        Err(_) => Err(DecodeError::Xml),
    }
}

/// The `N="..."` property name, with `_xHHHH_` escapes decoded.
pub open spec fn name_attr(t: TagView) -> Result<Option<Seq<char>>, DecodeError> {
    match attr(t, "N"@) {
        Ok(Some(v)) => Ok(Some(unescape_from(v, 0))),
        Ok(None) => Ok(None),
        Err(e) => Err(e),
    }
}

/// A present name, or the empty one.
pub open spec fn or_empty(n: Option<Seq<char>>) -> Seq<char> {
    match n {
        Some(n) => n,
        None => Seq::empty(),
    }
}

/// The object a `<Ref RefId="...">` names, or null when it names none.
pub open spec fn resolve_ref(st: DecodeState, rid: Option<Seq<char>>) -> PsView {
    match rid {
        Some(r) => if st.refs.contains_key(r) {
            st.refs[r]
        } else {
            PsView::Null
        },
        None => PsView::Null,
    }
}

/// The text of an element up to its closing tag `closing`: text, CDATA
/// and resolved references in order, other markup ignored, then
/// `_xHHHH_` escapes decoded.
pub open spec fn text_from(doc: Seq<char>, k: nat, closing: Seq<char>, acc: Seq<char>, fuel: nat) -> Result<
    (Seq<char>, nat),
    DecodeError,
>
    decreases fuel,
{
    if fuel == 0 {
        Err(DecodeError::TooLong)
    } else {
        let f = (fuel - 1) as nat;
        match xml_event_at(doc, k) {
            None => Err(DecodeError::Xml),
            Some(EventView::Text(t)) => text_from(doc, k + 1, closing, acc + t, f),
            Some(EventView::CData(t)) => text_from(doc, k + 1, closing, acc + t, f),
            Some(EventView::GeneralRef(r)) => match char_ref(r) {
                None => Err(DecodeError::Xml),
                Some(Some(c)) => text_from(doc, k + 1, closing, acc.push(c), f),
                Some(None) => match predefined_entity(r) {
                    Some(e) => text_from(doc, k + 1, closing, acc + e, f),
                    None => Err(DecodeError::UnknownEntity),
                },
            },
            Some(EventView::End(n)) => if n == closing {
                Ok((unescape_from(acc, 0), k + 1))
            } else {
                text_from(doc, k + 1, closing, acc, f)
            },
            Some(EventView::Eof) => Err(DecodeError::UnexpectedEof),
            Some(_) => text_from(doc, k + 1, closing, acc, f),
        }
    }
}

/// Skip past the end of the current element: `depth` counts open
/// elements, and the end of the document ends the skip too.
pub open spec fn skip_from(doc: Seq<char>, k: nat, depth: int, fuel: nat) -> Result<nat, DecodeError>
    decreases fuel,
{
    if fuel == 0 {
        Err(DecodeError::TooLong)
    } else {
        let f = (fuel - 1) as nat;
        match xml_event_at(doc, k) {
            None => Err(DecodeError::Xml),
            Some(EventView::Start(_)) => skip_from(doc, k + 1, depth + 1, f),
            Some(EventView::End(_)) => if depth - 1 <= 0 {
                Ok(k + 1)
            } else {
                skip_from(doc, k + 1, depth - 1, f)
            },
            Some(EventView::Eof) => Ok(k + 1),
            Some(_) => skip_from(doc, k + 1, depth, f),
        }
    }
}

/// The `<T>` texts of a `<TN>` block.
pub open spec fn type_names_from(doc: Seq<char>, k: nat, acc: Seq<Seq<char>>, fuel: nat) -> Result<
    (Seq<Seq<char>>, nat),
    DecodeError,
>
    decreases fuel,
{
    if fuel == 0 {
        Err(DecodeError::TooLong)
    } else {
        let f = (fuel - 1) as nat;
        match xml_event_at(doc, k) {
            None => Err(DecodeError::Xml),
            Some(EventView::Start(t)) => if t.name == "T"@ {
                match text_from(doc, k + 1, "T"@, Seq::empty(), f) {
                    Ok((x, k2)) => type_names_from(doc, k2, acc.push(x), f),
                    Err(e) => Err(e),
                }
            } else {
                type_names_from(doc, k + 1, acc, f)
            },
            Some(EventView::End(n)) => if n == "TN"@ {
                Ok((acc, k + 1))
            } else {
                type_names_from(doc, k + 1, acc, f)
            },
            Some(EventView::Eof) => Err(DecodeError::UnexpectedEof),
            Some(_) => type_names_from(doc, k + 1, acc, f),
        }
    }
}

/// A value of an integer primitive, `InvalidValue` where out of range.
pub open spec fn int_value(
    text: Seq<char>,
    signed: bool,
    lo: int,
    hi: int,
    make: spec_fn(int) -> PsView,
) -> Result<PsView, DecodeError> {
    match parse_int_spec(trim(text), signed, lo, hi) {
        Some(v) => Ok(make(v)),
        None => Err(DecodeError::InvalidValue),
    }
}

/// The value of a primitive element with tag `name` and text `text`.
pub open spec fn primitive_value(name: Seq<char>, text: Seq<char>) -> Result<PsView, DecodeError> {
    if name == "S"@ {
        Ok(PsView::String(text))
    } else if name == "I32"@ {
        int_value(text, true, -0x8000_0000, 0x7FFF_FFFF, |v: int| PsView::I32(v as i32))
    } else if name == "I64"@ {
        int_value(
            text,
            true,
            -0x8000_0000_0000_0000,
            0x7FFF_FFFF_FFFF_FFFF,
            |v: int| PsView::I64(v as i64),
        )
    } else if name == "B"@ {
        match parse_bool_spec(text) {
            Some(b) => Ok(PsView::Bool(b)),
            None => Err(DecodeError::InvalidValue),
        }
    } else if name == "Db"@ {
        if float_syntax(trim(text)) {
            Ok(PsView::Double(trim(text)))
        } else {
            Err(DecodeError::InvalidValue)
        }
    } else if name == "Sg"@ {
        if float_syntax(trim(text)) {
            Ok(PsView::F32(trim(text)))
        } else {
            Err(DecodeError::InvalidValue)
        }
    } else if name == "SB"@ {
        int_value(text, true, -0x80, 0x7F, |v: int| PsView::I8(v as i8))
    } else if name == "By"@ {
        int_value(text, false, 0, 0xFF, |v: int| PsView::U8(v as u8))
    } else if name == "I16"@ {
        int_value(text, true, -0x8000, 0x7FFF, |v: int| PsView::I16(v as i16))
    } else if name == "U16"@ {
        int_value(text, false, 0, 0xFFFF, |v: int| PsView::U16(v as u16))
    } else if name == "U32"@ {
        int_value(text, false, 0, 0xFFFF_FFFF, |v: int| PsView::U32(v as u32))
    } else if name == "U64"@ {
        int_value(text, false, 0, 0xFFFF_FFFF_FFFF_FFFF, |v: int| PsView::U64(v as u64))
    } else if name == "D"@ {
        Ok(PsView::Decimal(trim(text)))
    } else if name == "C"@ {
        match parse_int_spec(trim(text), false, 0, 0xFFFF_FFFF) {
            Some(v) => if v < 0xD800 || (0xE000 <= v && v <= 0x10FFFF) {
                Ok(PsView::Char(v as char))
            } else {
                Err(DecodeError::InvalidValue)
            },
            None => Err(DecodeError::InvalidValue),
        }
    } else if name == "BA"@ {
        match b64_decode_spec(trim(text)) {
            Some(b) => Ok(PsView::Bytes(b)),
            None => Err(DecodeError::InvalidValue),
        }
    } else if name == "DT"@ {
        Ok(PsView::DateTime(text))
    } else if name == "TS"@ {
        Ok(PsView::Duration(text))
    } else if name == "G"@ {
        match uuid_parse(trim(text)) {
            Some(b) => Ok(PsView::Guid(b)),
            None => Err(DecodeError::InvalidValue),
        }
    } else if name == "Version"@ {
        Ok(PsView::Version(text))
    } else if name == "URI"@ {
        Ok(PsView::Uri(text))
    } else if name == "XD"@ {
        Ok(PsView::Xml(text))
    } else if name == "SCT"@ {
        Ok(PsView::ScriptBlock(text))
    } else {
        Ok(PsView::SecureString(text))
    }
}

/// The tags of primitive values.
pub open spec fn is_primitive_tag(name: Seq<char>) -> bool {
    name == "S"@ || name == "I32"@ || name == "I64"@ || name == "B"@ || name == "Db"@ || name
        == "Sg"@ || name == "SB"@ || name == "By"@ || name == "I16"@ || name == "U16"@ || name
        == "U32"@ || name == "U64"@ || name == "D"@ || name == "C"@ || name == "BA"@ || name
        == "DT"@ || name == "TS"@ || name == "G"@ || name == "Version"@ || name == "URI"@ || name
        == "XD"@ || name == "SCT"@ || name == "SS"@
}

/// The tags of an object's embedded list.
pub open spec fn is_list_tag(name: Seq<char>) -> bool {
    name == "LST"@ || name == "IE"@ || name == "QUE"@ || name == "STK"@
}

/// The value of a self-closing element in a list or at the top level:
/// `<Nil/>` is null, `<S/>` the empty string, anything else no value.
pub open spec fn empty_value(t: TagView) -> Option<PsView> {
    if t.name == "Nil"@ {
        Some(PsView::Null)
    } else if t.name == "S"@ {
        Some(PsView::String(Seq::empty()))
    } else {
        None
    }
}

/// An object once its `</Obj>` is reached: an embedded list or
/// dictionary becomes its `_value` property when it has no properties.
pub open spec fn finish_object(o: ObjView, embedded: Option<PsView>) -> ObjView {
    match embedded {
        Some(v) => if o.properties.len() == 0 {
            ObjView { properties: view_props_insert(o.properties, "_value"@, v), ..o }
        } else {
            o
        },
        None => o,
    }
}

/// The type names a `<TNRef>` with `rid` gives an object.
pub open spec fn tnref_names(st: DecodeState, rid: Option<Seq<char>>, o: ObjView) -> ObjView {
    match rid {
        Some(r) => if st.type_names.contains_key(r) {
            ObjView { type_names: st.type_names[r], ..o }
        } else {
            o
        },
        None => o,
    }
}

/// One element whose start tag `t` was event `k - 1`: refused past the
/// nesting limit, otherwise decoded one level deeper.
pub open spec fn element(doc: Seq<char>, k: nat, t: TagView, st: DecodeState, fuel: nat) -> Result<
    (Option<PsView>, nat, DecodeState),
    DecodeError,
>
    decreases fuel,
{
    if fuel == 0 {
        Err(DecodeError::TooLong)
    } else if st.depth >= MAX_NESTING_DEPTH {
        Err(DecodeError::TooDeep)
    } else {
        match element_inner(
            doc,
            k,
            t,
            DecodeState { depth: st.depth + 1, ..st },
            (fuel - 1) as nat,
        ) {
            Ok((v, k2, st2)) => Ok((v, k2, DecodeState { depth: st.depth, ..st2 })),
            Err(e) => Err(e),
        }
    }
}

/// One element: a primitive, an object (recorded under its `RefId`), a
/// `<Ref>`, or anything else, skipped with no value.
pub open spec fn element_inner(doc: Seq<char>, k: nat, t: TagView, st: DecodeState, fuel: nat) -> Result<
    (Option<PsView>, nat, DecodeState),
    DecodeError,
>
    decreases fuel,
{
    if fuel == 0 {
        Err(DecodeError::TooLong)
    } else {
        let f = (fuel - 1) as nat;
        if is_primitive_tag(t.name) {
            match text_from(doc, k, t.name, Seq::empty(), f) {
                Ok((text, k2)) => match primitive_value(t.name, text) {
                    Ok(v) => Ok((Some(v), k2, st)),
                    Err(e) => Err(e),
                },
                Err(e) => Err(e),
            }
        } else if t.name == "Obj"@ {
            match attr(t, "RefId"@) {
                Err(e) => Err(e),
                Ok(rid) => match obj_from(
                    doc,
                    k,
                    st,
                    ObjView { type_names: Seq::empty(), to_string: None, properties: Seq::empty() },
                    None,
                    f,
                ) {
                    Err(e) => Err(e),
                    Ok((o, k2, st2)) => {
                        let v = PsView::Object(o);
                        match rid {
                            Some(r) => Ok(
                                (Some(v), k2, DecodeState { refs: st2.refs.insert(r, v), ..st2 }),
                            ),
                            None => Ok((Some(v), k2, st2)),
                        }
                    },
                },
            }
        } else if t.name == "Ref"@ {
            match attr(t, "RefId"@) {
                Err(e) => Err(e),
                Ok(rid) => match skip_from(doc, k, 1, f) {
                    Err(e) => Err(e),
                    Ok(k2) => Ok((Some(resolve_ref(st, rid)), k2, st)),
                },
            }
        } else {
            match skip_from(doc, k, 1, f) {
                Err(e) => Err(e),
                Ok(k2) => Ok((None, k2, st)),
            }
        }
    }
}

/// The body of an `<Obj>` from event `k` to its `</Obj>`.
pub open spec fn obj_from(
    doc: Seq<char>,
    k: nat,
    st: DecodeState,
    o: ObjView,
    embedded: Option<PsView>,
    fuel: nat,
) -> Result<(ObjView, nat, DecodeState), DecodeError>
    decreases fuel,
{
    if fuel == 0 {
        Err(DecodeError::TooLong)
    } else {
        let f = (fuel - 1) as nat;
        match xml_event_at(doc, k) {
            None => Err(DecodeError::Xml),
            Some(EventView::Start(t)) => match obj_child(doc, k + 1, t, st, o, embedded, f) {
                Ok((k2, st2, o2, e2)) => obj_from(doc, k2, st2, o2, e2, f),
                Err(e) => Err(e),
            },
            Some(EventView::Empty(t)) => if t.name == "TNRef"@ {
                match attr(t, "RefId"@) {
                    Err(e) => Err(e),
                    Ok(rid) => obj_from(doc, k + 1, st, tnref_names(st, rid, o), embedded, f),
                }
            } else {
                obj_from(doc, k + 1, st, o, embedded, f)
            },
            Some(EventView::End(n)) => if n == "Obj"@ {
                Ok((finish_object(o, embedded), k + 1, st))
            } else {
                obj_from(doc, k + 1, st, o, embedded, f)
            },
            Some(EventView::Eof) => Err(DecodeError::UnexpectedEof),
            Some(_) => obj_from(doc, k + 1, st, o, embedded, f),
        }
    }
}

/// A child element of an `<Obj>` whose start tag `t` was event `k - 1`:
/// a member set, type names, an embedded list or dictionary, or
/// anything else, skipped.
pub open spec fn obj_child(
    doc: Seq<char>,
    k: nat,
    t: TagView,
    st: DecodeState,
    o: ObjView,
    embedded: Option<PsView>,
    fuel: nat,
) -> Result<(nat, DecodeState, ObjView, Option<PsView>), DecodeError>
    decreases fuel,
{
    if fuel == 0 {
        Err(DecodeError::TooLong)
    } else {
        let f = (fuel - 1) as nat;
        if t.name == "MS"@ || t.name == "Props"@ {
            match members_from(doc, k, st, t.name, o.properties, f) {
                Ok((p, k2, st2)) => Ok((k2, st2, ObjView { properties: p, ..o }, embedded)),
                Err(e) => Err(e),
            }
        } else if t.name == "TN"@ {
            match attr(t, "RefId"@) {
                Err(e) => Err(e),
                Ok(rid) => match type_names_from(doc, k, Seq::empty(), f) {
                    Err(e) => Err(e),
                    Ok((names, k2)) => {
                        let st2 = match rid {
                            Some(r) => DecodeState { type_names: st.type_names.insert(r, names), ..st },
                            None => st,
                        };
                        Ok((k2, st2, ObjView { type_names: names, ..o }, embedded))
                    },
                },
            }
        } else if t.name == "TNRef"@ {
            match attr(t, "RefId"@) {
                Err(e) => Err(e),
                Ok(rid) => match skip_from(doc, k, 1, f) {
                    Err(e) => Err(e),
                    Ok(k2) => Ok((k2, st, tnref_names(st, rid, o), embedded)),
                },
            }
        } else if is_list_tag(t.name) {
            match list_from(doc, k, st, t.name, Seq::empty(), f) {
                Ok((items, k2, st2)) => Ok((k2, st2, o, Some(PsView::List(items)))),
                Err(e) => Err(e),
            }
        } else if t.name == "DCT"@ {
            match dict_from(doc, k, st, Seq::empty(), f) {
                Ok((entries, k2, st2)) => Ok((k2, st2, o, Some(PsView::Dict(entries)))),
                Err(e) => Err(e),
            }
        } else {
            match skip_from(doc, k, 1, f) {
                Ok(k2) => Ok((k2, st, o, embedded)),
                Err(e) => Err(e),
            }
        }
    }
}

/// The members of an `<MS>` / `<Props>` set up to its closing tag.
pub open spec fn members_from(
    doc: Seq<char>,
    k: nat,
    st: DecodeState,
    closing: Seq<char>,
    props: Seq<(Seq<char>, PsView)>,
    fuel: nat,
) -> Result<(Seq<(Seq<char>, PsView)>, nat, DecodeState), DecodeError>
    decreases fuel,
{
    if fuel == 0 {
        Err(DecodeError::TooLong)
    } else {
        let f = (fuel - 1) as nat;
        match xml_event_at(doc, k) {
            None => Err(DecodeError::Xml),
            Some(EventView::Start(t)) => match name_attr(t) {
                Err(e) => Err(e),
                Ok(n) => match element(doc, k + 1, t, st, f) {
                    Err(e) => Err(e),
                    Ok((v, k2, st2)) => members_from(
                        doc,
                        k2,
                        st2,
                        closing,
                        match v {
                            Some(v) => view_props_insert(props, or_empty(n), v),
                            None => props,
                        },
                        f,
                    ),
                },
            },
            Some(EventView::Empty(t)) => if t.name == "Nil"@ {
                match name_attr(t) {
                    Err(e) => Err(e),
                    Ok(Some(n)) => members_from(
                        doc,
                        k + 1,
                        st,
                        closing,
                        view_props_insert(props, n, PsView::Null),
                        f,
                    ),
                    Ok(None) => members_from(doc, k + 1, st, closing, props, f),
                }
            } else if t.name == "Ref"@ {
                match name_attr(t) {
                    Err(e) => Err(e),
                    Ok(n) => match attr(t, "RefId"@) {
                        Err(e) => Err(e),
                        Ok(rid) => members_from(
                            doc,
                            k + 1,
                            st,
                            closing,
                            view_props_insert(props, or_empty(n), resolve_ref(st, rid)),
                            f,
                        ),
                    },
                }
            } else {
                members_from(doc, k + 1, st, closing, props, f)
            },
            Some(EventView::End(n)) => if n == closing {
                Ok((props, k + 1, st))
            } else {
                members_from(doc, k + 1, st, closing, props, f)
            },
            Some(EventView::Eof) => Err(DecodeError::UnexpectedEof),
            Some(_) => members_from(doc, k + 1, st, closing, props, f),
        }
    }
}

/// The items of a list up to its closing tag.
pub open spec fn list_from(
    doc: Seq<char>,
    k: nat,
    st: DecodeState,
    closing: Seq<char>,
    items: Seq<PsView>,
    fuel: nat,
) -> Result<(Seq<PsView>, nat, DecodeState), DecodeError>
    decreases fuel,
{
    if fuel == 0 {
        Err(DecodeError::TooLong)
    } else {
        let f = (fuel - 1) as nat;
        match xml_event_at(doc, k) {
            None => Err(DecodeError::Xml),
            Some(EventView::Start(t)) => match element(doc, k + 1, t, st, f) {
                Err(e) => Err(e),
                Ok((v, k2, st2)) => list_from(
                    doc,
                    k2,
                    st2,
                    closing,
                    match v {
                        Some(v) => items.push(v),
                        None => items,
                    },
                    f,
                ),
            },
            Some(EventView::Empty(t)) => list_from(
                doc,
                k + 1,
                st,
                closing,
                match empty_value(t) {
                    Some(v) => items.push(v),
                    None => items,
                },
                f,
            ),
            Some(EventView::End(n)) => if n == closing {
                Ok((items, k + 1, st))
            } else {
                list_from(doc, k + 1, st, closing, items, f)
            },
            Some(EventView::Eof) => Err(DecodeError::UnexpectedEof),
            Some(_) => list_from(doc, k + 1, st, closing, items, f),
        }
    }
}

/// The entries of a `<DCT>` up to `</DCT>`.
pub open spec fn dict_from(
    doc: Seq<char>,
    k: nat,
    st: DecodeState,
    entries: Seq<(PsView, PsView)>,
    fuel: nat,
) -> Result<(Seq<(PsView, PsView)>, nat, DecodeState), DecodeError>
    decreases fuel,
{
    if fuel == 0 {
        Err(DecodeError::TooLong)
    } else {
        let f = (fuel - 1) as nat;
        match xml_event_at(doc, k) {
            None => Err(DecodeError::Xml),
            Some(EventView::Start(t)) => if t.name == "En"@ {
                match entry_from(doc, k + 1, st, PsView::Null, PsView::Null, f) {
                    Err(e) => Err(e),
                    Ok((kv, k2, st2)) => dict_from(doc, k2, st2, entries.push(kv), f),
                }
            } else {
                dict_from(doc, k + 1, st, entries, f)
            },
            Some(EventView::End(n)) => if n == "DCT"@ {
                Ok((entries, k + 1, st))
            } else {
                dict_from(doc, k + 1, st, entries, f)
            },
            Some(EventView::Eof) => Err(DecodeError::UnexpectedEof),
            Some(_) => dict_from(doc, k + 1, st, entries, f),
        }
    }
}

/// One `<En>`: the values named `Key` and `Value`, null where absent.
pub open spec fn entry_from(
    doc: Seq<char>,
    k: nat,
    st: DecodeState,
    key: PsView,
    val: PsView,
    fuel: nat,
) -> Result<((PsView, PsView), nat, DecodeState), DecodeError>
    decreases fuel,
{
    if fuel == 0 {
        Err(DecodeError::TooLong)
    } else {
        let f = (fuel - 1) as nat;
        match xml_event_at(doc, k) {
            None => Err(DecodeError::Xml),
            Some(EventView::Start(t)) => match name_attr(t) {
                Err(e) => Err(e),
                Ok(n) => match element(doc, k + 1, t, st, f) {
                    Err(e) => Err(e),
                    Ok((v, k2, st2)) => match v {
                        Some(v) => if or_empty(n) == "Key"@ {
                            entry_from(doc, k2, st2, v, val, f)
                        } else if or_empty(n) == "Value"@ {
                            entry_from(doc, k2, st2, key, v, f)
                        } else {
                            entry_from(doc, k2, st2, key, val, f)
                        },
                        None => entry_from(doc, k2, st2, key, val, f),
                    },
                },
            },
            Some(EventView::Empty(t)) => if t.name == "Nil"@ {
                match name_attr(t) {
                    Err(e) => Err(e),
                    Ok(n) => if or_empty(n) == "Key"@ {
                        entry_from(doc, k + 1, st, PsView::Null, val, f)
                    } else if or_empty(n) == "Value"@ {
                        entry_from(doc, k + 1, st, key, PsView::Null, f)
                    } else {
                        entry_from(doc, k + 1, st, key, val, f)
                    },
                }
            } else {
                entry_from(doc, k + 1, st, key, val, f)
            },
            Some(EventView::End(n)) => if n == "En"@ {
                Ok(((key, val), k + 1, st))
            } else {
                entry_from(doc, k + 1, st, key, val, f)
            },
            Some(EventView::Eof) => Err(DecodeError::UnexpectedEof),
            Some(_) => entry_from(doc, k + 1, st, key, val, f),
        }
    }
}

/// The top-level values of a document from event `k` to its end.
pub open spec fn doc_from(doc: Seq<char>, k: nat, st: DecodeState, out: Seq<PsView>, fuel: nat) -> Result<
    Seq<PsView>,
    DecodeError,
>
    decreases fuel,
{
    if fuel == 0 {
        Err(DecodeError::TooLong)
    } else {
        let f = (fuel - 1) as nat;
        match xml_event_at(doc, k) {
            None => Err(DecodeError::Xml),
            Some(EventView::Start(t)) => match element(doc, k + 1, t, st, f) {
                Err(e) => Err(e),
                Ok((v, k2, st2)) => doc_from(
                    doc,
                    k2,
                    st2,
                    match v {
                        Some(v) => out.push(v),
                        None => out,
                    },
                    f,
                ),
            },
            Some(EventView::Empty(t)) => match empty_value(t) {
                Some(v) => doc_from(doc, k + 1, st, out.push(v), f),
                None => if t.name == "Ref"@ {
                    match attr(t, "RefId"@) {
                        Err(e) => Err(e),
                        Ok(rid) => doc_from(doc, k + 1, st, out.push(resolve_ref(st, rid)), f),
                    }
                } else {
                    doc_from(doc, k + 1, st, out, f)
                },
            },
            Some(EventView::Eof) => Ok(out),
            Some(_) => doc_from(doc, k + 1, st, out, f),
        }
    }
}

/// `s` without its leading byte-order marks.
pub open spec fn strip_boms(s: Seq<char>) -> Seq<char>
    decreases s.len(),
{
    if s.len() > 0 && s[0] == '\u{FEFF}' {
        strip_boms(s.drop_first())
    } else {
        s
    }
}

/// The decoder's tables before the first event.
pub open spec fn initial_state() -> DecodeState {
    DecodeState { refs: Map::empty(), type_names: Map::empty(), depth: 0 }
}

/// The values of a CLIXML document: its leading byte-order marks and
/// white space dropped, then its top-level elements decoded in order.
pub open spec fn decode_spec(xml: Seq<char>) -> Result<Seq<PsView>, DecodeError> {
    doc_from(
        super::scalars::trim_start(strip_boms(xml)),
        0,
        initial_state(),
        Seq::empty(),
        usize::MAX as nat,
    )
}

} // verus!

verus! {

/// The decoder's tables: `(RefId, object)` and `(RefId, type names)`
/// pairs, a later pair for the same `RefId` taking precedence, and the
/// current nesting depth.
struct DecoderState {
    refs: Vec<(String, PsValue)>,
    type_names: Vec<(String, Vec<String>)>,
    depth: u32,
}

/// The `RefId` table as a map.
spec fn refs_view(s: Seq<(String, PsValue)>) -> Map<Seq<char>, PsView>
    decreases s.len(),
{
    if s.len() == 0 {
        Map::empty()
    } else {
        refs_view(s.drop_last()).insert(s.last().0@, value_view(s.last().1))
    }
}

/// The type-name table as a map.
spec fn tns_view(s: Seq<(String, Vec<String>)>) -> Map<Seq<char>, Seq<Seq<char>>>
    decreases s.len(),
{
    if s.len() == 0 {
        Map::empty()
    } else {
        tns_view(s.drop_last()).insert(s.last().0@, strings_view(s.last().1@))
    }
}

spec fn state_view(st: DecoderState) -> DecodeState {
    DecodeState { refs: refs_view(st.refs@), type_names: tns_view(st.type_names@), depth: st.depth as nat }
}

spec fn opt_value_view(v: Option<PsValue>) -> Option<PsView> {
    match v {
        Some(v) => Some(value_view(v)),
        None => None,
    }
}

spec fn opt_str_view(v: Option<String>) -> Option<Seq<char>> {
    match v {
        Some(v) => Some(v@),
        None => None,
    }
}

/// The object stored under `key`, looked up from the latest entry back.
fn lookup_ref(refs: &Vec<(String, PsValue)>, key: &str) -> (r: Option<PsValue>)
    ensures
        match r {
            Some(v) => refs_view(refs@).contains_key(key@) && value_view(v) == refs_view(
                refs@,
            )[key@],
            None => !refs_view(refs@).contains_key(key@),
        },
{
    let mut i = refs.len();
    assert(refs@.subrange(0, i as int) =~= refs@);
    while i > 0
        invariant
            i <= refs@.len(),
            refs_view(refs@).contains_key(key@) == refs_view(refs@.subrange(0, i as int)).contains_key(key@),
            refs_view(refs@).contains_key(key@) ==> refs_view(refs@)[key@] == refs_view(
                refs@.subrange(0, i as int),
            )[key@],
        decreases i,
    {
        let ghost pre = refs@.subrange(0, i as int);
        assert(pre.drop_last() =~= refs@.subrange(0, i - 1));
        if str_eq(refs[i - 1].0.as_str(), key) {
            return Some(clone_value(&refs[i - 1].1));
        }
        i = i - 1;
    }
    None
}

/// The type names stored under `key`, looked up from the latest entry
/// back.
fn lookup_type_names(tns: &Vec<(String, Vec<String>)>, key: &str) -> (r: Option<Vec<String>>)
    ensures
        match r {
            Some(v) => tns_view(tns@).contains_key(key@) && strings_view(v@) == tns_view(tns@)[key@],
            None => !tns_view(tns@).contains_key(key@),
        },
{
    let mut i = tns.len();
    assert(tns@.subrange(0, i as int) =~= tns@);
    while i > 0
        invariant
            i <= tns@.len(),
            tns_view(tns@).contains_key(key@) == tns_view(tns@.subrange(0, i as int)).contains_key(key@),
            tns_view(tns@).contains_key(key@) ==> tns_view(tns@)[key@] == tns_view(
                tns@.subrange(0, i as int),
            )[key@],
        decreases i,
    {
        let ghost pre = tns@.subrange(0, i as int);
        assert(pre.drop_last() =~= tns@.subrange(0, i - 1));
        if str_eq(tns[i - 1].0.as_str(), key) {
            return Some(clone_strings(&tns[i - 1].1));
        }
        i = i - 1;
    }
    None
}

/// Record an object under a `RefId`.
fn record_ref(refs: &mut Vec<(String, PsValue)>, key: String, v: &PsValue)
    ensures
        refs_view(final(refs)@) == refs_view(old(refs)@).insert(key@, value_view(*v)),
{
    let c = clone_value(v);
    refs.push((key, c));
    assert(final(refs)@.drop_last() =~= old(refs)@);
}

/// The object a `<Ref>` names, or null.
fn resolve_ref_exec(st: &DecoderState, rid: &Option<String>) -> (r: PsValue)
    ensures
        value_view(r) == resolve_ref(state_view(*st), opt_str_view(*rid)),
{
    match rid {
        Some(r) => match lookup_ref(&st.refs, r.as_str()) {
            Some(v) => v,
            None => PsValue::Null,
        },
        None => PsValue::Null,
    }
}

/// The document a reader reads and the index of its next event.
spec fn input_of(r: quick_xml::Reader<&[u8]>) -> Seq<char> {
    xml_reader_input(r)
}

spec fn pos_of(r: quick_xml::Reader<&[u8]>) -> nat {
    xml_reader_events_read(r)
}

/// The next event, with a reader error as [`DecodeError::Xml`].
fn next_event(reader: &mut quick_xml::Reader<&[u8]>) -> (r: Result<XmlEvent, DecodeError>)
    ensures
        input_of(*final(reader)) == input_of(*old(reader)),
        pos_of(*final(reader)) == pos_of(*old(reader)) + 1,
        match r {
            Ok(e) => xml_event_at(input_of(*old(reader)), pos_of(*old(reader))) == Some(event_view(e)),
            Err(e) => xml_event_at(input_of(*old(reader)), pos_of(*old(reader))) is None && e
                == DecodeError::Xml,
        },
{
    match read_xml_event(reader) {
        Ok(e) => Ok(e),
        Err(_) => Err(DecodeError::Xml),
    }
}

/// An attribute's value, or `Xml` when it does not normalize.
fn get_attr(t: &XmlTag, key: &str) -> (r: Result<Option<String>, DecodeError>)
    ensures
        match attr(tag_view(*t), key@) {
            Ok(v) => r is Ok && opt_str_view(r->Ok_0) == v,
            Err(e) => r == Err::<Option<String>, DecodeError>(e),
        },
{
    match tag_attribute(t, key) {
        Ok(v) => Ok(v),
        Err(_) => Err(DecodeError::Xml),
    }
}

/// The `N="..."` property name, `_xHHHH_` escapes decoded.
fn get_name_attr(t: &XmlTag) -> (r: Result<Option<String>, DecodeError>)
    ensures
        match name_attr(tag_view(*t)) {
            Ok(v) => r is Ok && opt_str_view(r->Ok_0) == v,
            Err(e) => r == Err::<Option<String>, DecodeError>(e),
        },
{
    match get_attr(t, "N") {
        Ok(Some(v)) => Ok(Some(decode_pwsh_escapes(v.as_str()))),
        Ok(None) => Ok(None),
        Err(e) => Err(e),
    }
}

/// A present name, or the empty one.
fn name_or_empty(n: Option<String>) -> (r: String)
    ensures
        r@ == or_empty(opt_str_view(n)),
{
    match n {
        Some(n) => n,
        None => String::new(),
    }
}

/// Read an element's text up to its closing tag `closing`.
fn read_text(reader: &mut quick_xml::Reader<&[u8]>, closing: &str, fuel: usize) -> (r: Result<
    String,
    DecodeError,
>)
    ensures
        input_of(*final(reader)) == input_of(*old(reader)),
        match text_from(input_of(*old(reader)), pos_of(*old(reader)), closing@, Seq::empty(), fuel as nat) {
            Ok((t, k)) => r is Ok && r->Ok_0@ == t && pos_of(*final(reader)) == k,
            Err(e) => r == Err::<String, DecodeError>(e),
        },
{
    let ghost doc = input_of(*reader);
    let ghost k0 = pos_of(*reader);
    let mut out = String::new();
    let mut f = fuel;
    loop
        invariant
            input_of(*reader) == doc,
            doc == input_of(*old(reader)),
            k0 == pos_of(*old(reader)),
            text_from(doc, k0, closing@, Seq::empty(), fuel as nat) == text_from(
                doc,
                pos_of(*reader),
                closing@,
                out@,
                f as nat,
            ),
        decreases f,
    {
        if f == 0 {
            return Err(DecodeError::TooLong);
        }
        f = f - 1;
        match next_event(reader) {
            Err(e) => {
                return Err(e);
            },
            Ok(XmlEvent::Text(t)) => {
                out.append(t.as_str());
            },
            Ok(XmlEvent::CData(t)) => {
                out.append(t.as_str());
            },
            Ok(XmlEvent::GeneralRef(r)) => {
                match resolve_char_ref(r.as_str()) {
                    None => {
                        return Err(DecodeError::Xml);
                    },
                    Some(Some(c)) => {
                        push_char(&mut out, c);
                    },
                    Some(None) => {
                        match resolve_predefined_entity(r.as_str()) {
                            Some(e) => {
                                out.append(e);
                            },
                            None => {
                                return Err(DecodeError::UnknownEntity);
                            },
                        }
                    },
                }
            },
            Ok(XmlEvent::End(n)) => {
                if str_eq(n.as_str(), closing) {
                    return Ok(decode_pwsh_escapes(out.as_str()));
                }
            },
            Ok(XmlEvent::Eof) => {
                return Err(DecodeError::UnexpectedEof);
            },
            Ok(_) => {},
        }
    }
}

/// Skip past the end of the element whose start tag was just read.
fn skip_to_end(reader: &mut quick_xml::Reader<&[u8]>, fuel: usize) -> (r: Result<(), DecodeError>)
    ensures
        input_of(*final(reader)) == input_of(*old(reader)),
        match skip_from(input_of(*old(reader)), pos_of(*old(reader)), 1, fuel as nat) {
            Ok(k) => r is Ok && pos_of(*final(reader)) == k,
            Err(e) => r == Err::<(), DecodeError>(e),
        },
{
    let ghost doc = input_of(*reader);
    let ghost k0 = pos_of(*reader);
    let mut depth: i128 = 1;
    let mut f = fuel;
    loop
        invariant
            input_of(*reader) == doc,
            doc == input_of(*old(reader)),
            k0 == pos_of(*old(reader)),
            f <= fuel,
            1 <= depth <= 1 + (fuel - f),
            skip_from(doc, k0, 1, fuel as nat) == skip_from(doc, pos_of(*reader), depth as int, f as nat),
        decreases f,
    {
        if f == 0 {
            return Err(DecodeError::TooLong);
        }
        f = f - 1;
        match next_event(reader) {
            Err(e) => {
                return Err(e);
            },
            Ok(XmlEvent::Start(_)) => {
                depth = depth + 1;
            },
            Ok(XmlEvent::End(_)) => {
                depth = depth - 1;
                if depth <= 0 {
                    return Ok(());
                }
            },
            Ok(XmlEvent::Eof) => {
                return Ok(());
            },
            Ok(_) => {},
        }
    }
}

/// Read the `<T>` texts of a `<TN>` block.
fn parse_type_names(reader: &mut quick_xml::Reader<&[u8]>, fuel: usize) -> (r: Result<
    Vec<String>,
    DecodeError,
>)
    ensures
        input_of(*final(reader)) == input_of(*old(reader)),
        match type_names_from(input_of(*old(reader)), pos_of(*old(reader)), Seq::empty(), fuel as nat) {
            Ok((names, k)) => r is Ok && strings_view(r->Ok_0@) == names && pos_of(*final(reader))
                == k,
            Err(e) => r == Err::<Vec<String>, DecodeError>(e),
        },
{
    let ghost doc = input_of(*reader);
    let ghost k0 = pos_of(*reader);
    let mut out: Vec<String> = Vec::new();
    let mut f = fuel;
    assert(strings_view(out@) =~= Seq::<Seq<char>>::empty());
    loop
        invariant
            input_of(*reader) == doc,
            doc == input_of(*old(reader)),
            k0 == pos_of(*old(reader)),
            type_names_from(doc, k0, Seq::empty(), fuel as nat) == type_names_from(
                doc,
                pos_of(*reader),
                strings_view(out@),
                f as nat,
            ),
        decreases f,
    {
        if f == 0 {
            return Err(DecodeError::TooLong);
        }
        f = f - 1;
        match next_event(reader) {
            Err(e) => {
                return Err(e);
            },
            Ok(XmlEvent::Start(t)) => {
                if str_eq(t.name.as_str(), "T") {
                    match read_text(reader, "T", f) {
                        Ok(x) => {
                            let ghost before = out@;
                            out.push(x);
                            assert(strings_view(out@) =~= strings_view(before).push(x@));
                        },
                        Err(e) => {
                            return Err(e);
                        },
                    }
                }
            },
            Ok(XmlEvent::End(n)) => {
                if str_eq(n.as_str(), "TN") {
                    return Ok(out);
                }
            },
            Ok(XmlEvent::Eof) => {
                return Err(DecodeError::UnexpectedEof);
            },
            Ok(_) => {},
        }
    }
}

} // verus!

verus! {

fn int_text(text: &str, signed: bool, lo: i128, hi: i128) -> (r: Result<i128, DecodeError>)
    requires
        -0x1_0000_0000_0000_0000 <= lo <= 0 <= hi <= 0xFFFF_FFFF_FFFF_FFFF,
    ensures
        match parse_int_spec(trim(text@), signed, lo as int, hi as int) {
            Some(v) => r == Ok::<i128, DecodeError>(v as i128),
            None => r == Err::<i128, DecodeError>(DecodeError::InvalidValue),
        },
{
    let t = trim_chars(text);
    match parse_int(&t, signed, lo, hi) {
        Some(v) => Ok(v),
        None => Err(DecodeError::InvalidValue),
    }
}

/// Whether `n` is the tag of a primitive value.
fn is_primitive_name(n: &str) -> (r: bool)
    ensures
        r == is_primitive_tag(n@),
{
    str_eq(n, "S") || str_eq(n, "I32") || str_eq(n, "I64") || str_eq(n, "B") || str_eq(n, "Db")
        || str_eq(n, "Sg") || str_eq(n, "SB") || str_eq(n, "By") || str_eq(n, "I16") || str_eq(
        n,
        "U16",
    ) || str_eq(n, "U32") || str_eq(n, "U64") || str_eq(n, "D") || str_eq(n, "C") || str_eq(
        n,
        "BA",
    ) || str_eq(n, "DT") || str_eq(n, "TS") || str_eq(n, "G") || str_eq(n, "Version") || str_eq(
        n,
        "URI",
    ) || str_eq(n, "XD") || str_eq(n, "SCT") || str_eq(n, "SS")
}

/// Whether `n` is the tag of an object's embedded list.
fn is_list_name(n: &str) -> (r: bool)
    ensures
        r == is_list_tag(n@),
{
    str_eq(n, "LST") || str_eq(n, "IE") || str_eq(n, "QUE") || str_eq(n, "STK")
}

/// The value of a primitive element from its text.
#[verifier::rlimit(60)]
fn primitive(name: &str, text: String) -> (r: Result<PsValue, DecodeError>)
    requires
        is_primitive_tag(name@),
    ensures
        match primitive_value(name@, text@) {
            Ok(v) => r is Ok && value_view(r->Ok_0) == v,
            Err(e) => r == Err::<PsValue, DecodeError>(e),
        },
{
    if str_eq(name, "S") {
        Ok(PsValue::String(text))
    } else if str_eq(name, "I32") {
        match int_text(text.as_str(), true, -0x8000_0000, 0x7FFF_FFFF) {
            Ok(v) => Ok(PsValue::I32(v as i32)),
            Err(e) => Err(e),
        }
    } else if str_eq(name, "I64") {
        match int_text(text.as_str(), true, -0x8000_0000_0000_0000, 0x7FFF_FFFF_FFFF_FFFF) {
            Ok(v) => Ok(PsValue::I64(v as i64)),
            Err(e) => Err(e),
        }
    } else if str_eq(name, "B") {
        match parse_bool(text.as_str()) {
            Some(b) => Ok(PsValue::Bool(b)),
            None => Err(DecodeError::InvalidValue),
        }
    } else if str_eq(name, "Db") || str_eq(name, "Sg") {
        let t = trim_chars(text.as_str());
        if is_float_syntax(&t) {
            if str_eq(name, "Db") {
                Ok(PsValue::Double(string_of_chars(&t)))
            } else {
                Ok(PsValue::F32(string_of_chars(&t)))
            }
        } else {
            Err(DecodeError::InvalidValue)
        }
    } else if str_eq(name, "SB") {
        match int_text(text.as_str(), true, -0x80, 0x7F) {
            Ok(v) => Ok(PsValue::I8(v as i8)),
            Err(e) => Err(e),
        }
    } else if str_eq(name, "By") {
        match int_text(text.as_str(), false, 0, 0xFF) {
            Ok(v) => Ok(PsValue::U8(v as u8)),
            Err(e) => Err(e),
        }
    } else if str_eq(name, "I16") {
        match int_text(text.as_str(), true, -0x8000, 0x7FFF) {
            Ok(v) => Ok(PsValue::I16(v as i16)),
            Err(e) => Err(e),
        }
    } else if str_eq(name, "U16") {
        match int_text(text.as_str(), false, 0, 0xFFFF) {
            Ok(v) => Ok(PsValue::U16(v as u16)),
            Err(e) => Err(e),
        }
    } else if str_eq(name, "U32") {
        match int_text(text.as_str(), false, 0, 0xFFFF_FFFF) {
            Ok(v) => Ok(PsValue::U32(v as u32)),
            Err(e) => Err(e),
        }
    } else if str_eq(name, "U64") {
        match int_text(text.as_str(), false, 0, 0xFFFF_FFFF_FFFF_FFFF) {
            Ok(v) => Ok(PsValue::U64(v as u64)),
            Err(e) => Err(e),
        }
    } else if str_eq(name, "D") {
        Ok(PsValue::Decimal(trim_str(text.as_str())))
    } else if str_eq(name, "C") {
        match int_text(text.as_str(), false, 0, 0xFFFF_FFFF) {
            Ok(v) => match core::char::from_u32(v as u32) {
                Some(c) => Ok(PsValue::Char(c)),
                None => Err(DecodeError::InvalidValue),
            },
            Err(e) => Err(e),
        }
    } else if str_eq(name, "BA") {
        let t = trim_str(text.as_str());
        match base64_decode(t.as_str()) {
            Some(b) => Ok(PsValue::Bytes(b)),
            None => Err(DecodeError::InvalidValue),
        }
    } else if str_eq(name, "DT") {
        Ok(PsValue::DateTime(text))
    } else if str_eq(name, "TS") {
        Ok(PsValue::Duration(text))
    } else if str_eq(name, "G") {
        let t = trim_str(text.as_str());
        match parse_guid(t.as_str()) {
            Some(g) => Ok(PsValue::Guid(g)),
            None => Err(DecodeError::InvalidValue),
        }
    } else if str_eq(name, "Version") {
        Ok(PsValue::Version(text))
    } else if str_eq(name, "URI") {
        Ok(PsValue::Uri(text))
    } else if str_eq(name, "XD") {
        Ok(PsValue::Xml(text))
    } else if str_eq(name, "SCT") {
        Ok(PsValue::ScriptBlock(text))
    } else {
        Ok(PsValue::SecureString(text))
    }
}

} // verus!

verus! {

/// The value of a self-closing element in a list or at the top level.
fn parse_empty(t: &XmlTag) -> (r: Option<PsValue>)
    ensures
        opt_value_view(r) == empty_value(tag_view(*t)),
{
    if str_eq(t.name.as_str(), "Nil") {
        Some(PsValue::Null)
    } else if str_eq(t.name.as_str(), "S") {
        Some(PsValue::String(String::new()))
    } else {
        None
    }
}

/// Record a type-name list under the `RefId` of its `<TN>`.
fn record_type_names(tns: &mut Vec<(String, Vec<String>)>, key: String, names: &Vec<String>)
    ensures
        tns_view(final(tns)@) == tns_view(old(tns)@).insert(key@, strings_view(names@)),
{
    let c = clone_strings(names);
    tns.push((key, c));
    assert(final(tns)@.drop_last() =~= old(tns)@);
}

/// Give an object the type names a `<TNRef>` refers to, if known.
fn apply_tnref(st: &DecoderState, rid: &Option<String>, obj: &mut PsObject)
    ensures
        object_view(*final(obj)) == tnref_names(state_view(*st), opt_str_view(*rid), object_view(*old(obj))),
        final(obj).properties == old(obj).properties,
{
    match rid {
        Some(r) => match lookup_type_names(&st.type_names, r.as_str()) {
            Some(names) => {
                obj.type_names = names;
            },
            None => {},
        },
        None => {},
    }
}

/// A list's model after appending a value.
proof fn lemma_items_push(s: Seq<PsValue>, v: PsValue)
    ensures
        items_view(s.push(v)) == items_view(s).push(value_view(v)),
{
    assert(s.push(v).subrange(0, s.len() as int) =~= s);
}

proof fn lemma_entries_push(s: Seq<(PsValue, PsValue)>, kv: (PsValue, PsValue))
    ensures
        entries_view(s.push(kv)) == entries_view(s).push((value_view(kv.0), value_view(kv.1))),
{
    assert(s.push(kv).subrange(0, s.len() as int) =~= s);
}

/// Decode one element whose start tag `t` was just read, refusing it
/// past the nesting limit.
fn parse_element(
    reader: &mut quick_xml::Reader<&[u8]>,
    state: &mut DecoderState,
    t: &XmlTag,
    fuel: usize,
) -> (r: Result<Option<PsValue>, DecodeError>)
    ensures
        input_of(*final(reader)) == input_of(*old(reader)),
        match element(input_of(*old(reader)), pos_of(*old(reader)), tag_view(*t), state_view(*old(state)), fuel as nat) {
            Ok((v, k, st)) => r is Ok && opt_value_view(r->Ok_0) == v && pos_of(*final(reader)) == k
                && state_view(*final(state)) == st,
            Err(e) => r == Err::<Option<PsValue>, DecodeError>(e),
        },
    decreases fuel,
{
    if fuel == 0 {
        return Err(DecodeError::TooLong);
    }
    if state.depth >= MAX_NESTING_DEPTH {
        return Err(DecodeError::TooDeep);
    }
    let d = state.depth;
    state.depth = d + 1;
    let result = parse_element_inner(reader, state, t, fuel - 1);
    state.depth = d;
    result
}

/// Decode one element below the nesting check.
fn parse_element_inner(
    reader: &mut quick_xml::Reader<&[u8]>,
    state: &mut DecoderState,
    t: &XmlTag,
    fuel: usize,
) -> (r: Result<Option<PsValue>, DecodeError>)
    ensures
        input_of(*final(reader)) == input_of(*old(reader)),
        match element_inner(input_of(*old(reader)), pos_of(*old(reader)), tag_view(*t), state_view(*old(state)), fuel as nat) {
            Ok((v, k, st)) => r is Ok && opt_value_view(r->Ok_0) == v && pos_of(*final(reader)) == k
                && state_view(*final(state)) == st,
            Err(e) => r == Err::<Option<PsValue>, DecodeError>(e),
        },
    decreases fuel,
{
    if fuel == 0 {
        return Err(DecodeError::TooLong);
    }
    let f = fuel - 1;
    let name = t.name.as_str();
    if is_primitive_name(name) {
        match read_text(reader, name, f) {
            Err(e) => Err(e),
            Ok(text) => match primitive(name, text) {
                Ok(v) => Ok(Some(v)),
                Err(e) => Err(e),
            },
        }
    } else if str_eq(name, "Obj") {
        match get_attr(t, "RefId") {
            Err(e) => Err(e),
            Ok(rid) => match parse_obj_body(reader, state, f) {
                Err(e) => Err(e),
                Ok(obj) => {
                    let value = PsValue::Object(obj);
                    match rid {
                        Some(r) => record_ref(&mut state.refs, r, &value),
                        None => {},
                    }
                    Ok(Some(value))
                },
            },
        }
    } else if str_eq(name, "Ref") {
        match get_attr(t, "RefId") {
            Err(e) => Err(e),
            Ok(rid) => match skip_to_end(reader, f) {
                Err(e) => Err(e),
                Ok(()) => Ok(Some(resolve_ref_exec(state, &rid))),
            },
        }
    } else {
        match skip_to_end(reader, f) {
            Err(e) => Err(e),
            Ok(()) => Ok(None),
        }
    }
}

/// Decode the body of an `<Obj>` up to its `</Obj>`.
fn parse_obj_body(reader: &mut quick_xml::Reader<&[u8]>, state: &mut DecoderState, fuel: usize) -> (r:
    Result<PsObject, DecodeError>)
    ensures
        input_of(*final(reader)) == input_of(*old(reader)),
        match obj_from(
            input_of(*old(reader)),
            pos_of(*old(reader)),
            state_view(*old(state)),
            ObjView { type_names: Seq::empty(), to_string: None, properties: Seq::empty() },
            None,
            fuel as nat,
        ) {
            Ok((o, k, st)) => r is Ok && object_view(r->Ok_0) == o && r->Ok_0.wf() && pos_of(
                *final(reader),
            ) == k && state_view(*final(state)) == st,
            Err(e) => r == Err::<PsObject, DecodeError>(e),
        },
    decreases fuel,
{
    let ghost doc = input_of(*reader);
    let ghost k0 = pos_of(*reader);
    let ghost st0 = state_view(*state);
    let mut obj = PsObject::new();
    let mut embedded: Option<PsValue> = None;
    let mut f = fuel;
    assert(strings_view(obj.type_names@) =~= Seq::<Seq<char>>::empty());
    assert(props_view(obj.properties@) =~= Seq::<(Seq<char>, PsView)>::empty());
    assert(object_view(obj) == ObjView {
        type_names: Seq::empty(),
        to_string: None,
        properties: Seq::empty(),
    });
    loop
        invariant
            input_of(*reader) == doc,
            doc == input_of(*old(reader)),
            k0 == pos_of(*old(reader)),
            st0 == state_view(*old(state)),
            f <= fuel,
            obj.wf(),
            obj_from(
                doc,
                k0,
                st0,
                ObjView { type_names: Seq::empty(), to_string: None, properties: Seq::empty() },
                None,
                fuel as nat,
            ) == obj_from(
                doc,
                pos_of(*reader),
                state_view(*state),
                object_view(obj),
                opt_value_view(embedded),
                f as nat,
            ),
        decreases f,
    {
        if f == 0 {
            return Err(DecodeError::TooLong);
        }
        f = f - 1;
        match next_event(reader) {
            Err(e) => {
                return Err(e);
            },
            Ok(XmlEvent::Start(t)) => {
                match parse_obj_child(reader, state, &t, &mut obj, &mut embedded, f) {
                    Ok(()) => {},
                    Err(e) => {
                        return Err(e);
                    },
                }
            },
            Ok(XmlEvent::Empty(t)) => {
                if str_eq(t.name.as_str(), "TNRef") {
                    match get_attr(&t, "RefId") {
                        Err(e) => {
                            return Err(e);
                        },
                        Ok(rid) => {
                            apply_tnref(state, &rid, &mut obj);
                        },
                    }
                }
            },
            Ok(XmlEvent::End(n)) => {
                if str_eq(n.as_str(), "Obj") {
                    proof {
                        super::view::lemma_props_view(obj.properties@);
                    }
                    match embedded {
                        Some(v) => {
                            if obj.properties.len() == 0 {
                                let key = super::encode::string_of("_value");
                                proof {
                                    super::view::lemma_props_insert_view(obj.properties@, key, v);
                                }
                                obj.insert(key, v);
                            }
                        },
                        None => {},
                    }
                    return Ok(obj);
                }
            },
            Ok(XmlEvent::Eof) => {
                return Err(DecodeError::UnexpectedEof);
            },
            Ok(_) => {},
        }
    }
}

/// Decode a child element of an `<Obj>` whose start tag `t` was just
/// read.
fn parse_obj_child(
    reader: &mut quick_xml::Reader<&[u8]>,
    state: &mut DecoderState,
    t: &XmlTag,
    obj: &mut PsObject,
    embedded: &mut Option<PsValue>,
    fuel: usize,
) -> (r: Result<(), DecodeError>)
    requires
        old(obj).wf(),
    ensures
        input_of(*final(reader)) == input_of(*old(reader)),
        final(obj).wf(),
        match obj_child(
            input_of(*old(reader)),
            pos_of(*old(reader)),
            tag_view(*t),
            state_view(*old(state)),
            object_view(*old(obj)),
            opt_value_view(*old(embedded)),
            fuel as nat,
        ) {
            Ok((k, st, o, e)) => r is Ok && pos_of(*final(reader)) == k && state_view(*final(state))
                == st && object_view(*final(obj)) == o && opt_value_view(*final(embedded)) == e,
            Err(e) => r == Err::<(), DecodeError>(e),
        },
    decreases fuel,
{
    if fuel == 0 {
        return Err(DecodeError::TooLong);
    }
    let f = fuel - 1;
    let name = t.name.as_str();
    if str_eq(name, "MS") || str_eq(name, "Props") {
        parse_member_set(reader, state, obj, name, f)
    } else if str_eq(name, "TN") {
        match get_attr(t, "RefId") {
            Err(e) => Err(e),
            Ok(rid) => match parse_type_names(reader, f) {
                Err(e) => Err(e),
                Ok(names) => {
                    match rid {
                        Some(r) => record_type_names(&mut state.type_names, r, &names),
                        None => {},
                    }
                    obj.type_names = names;
                    Ok(())
                },
            },
        }
    } else if str_eq(name, "TNRef") {
        match get_attr(t, "RefId") {
            Err(e) => Err(e),
            Ok(rid) => match skip_to_end(reader, f) {
                Err(e) => Err(e),
                Ok(()) => {
                    apply_tnref(state, &rid, obj);
                    Ok(())
                },
            },
        }
    } else if is_list_name(name) {
        match parse_list(reader, state, name, f) {
            Err(e) => Err(e),
            Ok(items) => {
                *embedded = Some(PsValue::List(items));
                Ok(())
            },
        }
    } else if str_eq(name, "DCT") {
        match parse_dict(reader, state, f) {
            Err(e) => Err(e),
            Ok(entries) => {
                *embedded = Some(PsValue::Dict(entries));
                Ok(())
            },
        }
    } else {
        skip_to_end(reader, f)
    }
}

/// Decode the members of an `<MS>` / `<Props>` set into `obj`.
fn parse_member_set(
    reader: &mut quick_xml::Reader<&[u8]>,
    state: &mut DecoderState,
    obj: &mut PsObject,
    closing: &str,
    fuel: usize,
) -> (r: Result<(), DecodeError>)
    requires
        old(obj).wf(),
    ensures
        input_of(*final(reader)) == input_of(*old(reader)),
        final(obj).wf(),
        final(obj).type_names == old(obj).type_names,
        final(obj).to_string == old(obj).to_string,
        match members_from(
            input_of(*old(reader)),
            pos_of(*old(reader)),
            state_view(*old(state)),
            closing@,
            props_view(old(obj).properties@),
            fuel as nat,
        ) {
            Ok((p, k, st)) => r is Ok && props_view(final(obj).properties@) == p && pos_of(
                *final(reader),
            ) == k && state_view(*final(state)) == st,
            Err(e) => r == Err::<(), DecodeError>(e),
        },
    decreases fuel,
{
    let ghost doc = input_of(*reader);
    let ghost k0 = pos_of(*reader);
    let ghost st0 = state_view(*state);
    let ghost p0 = props_view(obj.properties@);
    let mut f = fuel;
    loop
        invariant
            input_of(*reader) == doc,
            doc == input_of(*old(reader)),
            k0 == pos_of(*old(reader)),
            st0 == state_view(*old(state)),
            p0 == props_view(old(obj).properties@),
            f <= fuel,
            obj.wf(),
            obj.type_names == old(obj).type_names,
            obj.to_string == old(obj).to_string,
            members_from(doc, k0, st0, closing@, p0, fuel as nat) == members_from(
                doc,
                pos_of(*reader),
                state_view(*state),
                closing@,
                props_view(obj.properties@),
                f as nat,
            ),
        decreases f,
    {
        if f == 0 {
            return Err(DecodeError::TooLong);
        }
        f = f - 1;
        match next_event(reader) {
            Err(e) => {
                return Err(e);
            },
            Ok(XmlEvent::Start(t)) => {
                match get_name_attr(&t) {
                    Err(e) => {
                        return Err(e);
                    },
                    Ok(n) => {
                        let name = name_or_empty(n);
                        match parse_element(reader, state, &t, f) {
                            Err(e) => {
                                return Err(e);
                            },
                            Ok(Some(v)) => {
                                proof {
                                    super::view::lemma_props_insert_view(obj.properties@, name, v);
                                }
                                obj.insert(name, v);
                            },
                            Ok(None) => {},
                        }
                    },
                }
            },
            Ok(XmlEvent::Empty(t)) => {
                if str_eq(t.name.as_str(), "Nil") {
                    match get_name_attr(&t) {
                        Err(e) => {
                            return Err(e);
                        },
                        Ok(Some(n)) => {
                            proof {
                                super::view::lemma_props_insert_view(obj.properties@, n, PsValue::Null);
                            }
                            obj.insert(n, PsValue::Null);
                        },
                        Ok(None) => {},
                    }
                } else if str_eq(t.name.as_str(), "Ref") {
                    match get_name_attr(&t) {
                        Err(e) => {
                            return Err(e);
                        },
                        Ok(n) => {
                            let name = name_or_empty(n);
                            match get_attr(&t, "RefId") {
                                Err(e) => {
                                    return Err(e);
                                },
                                Ok(rid) => {
                                    let v = resolve_ref_exec(state, &rid);
                                    proof {
                                        super::view::lemma_props_insert_view(obj.properties@, name, v);
                                    }
                                    obj.insert(name, v);
                                },
                            }
                        },
                    }
                }
            },
            Ok(XmlEvent::End(n)) => {
                if str_eq(n.as_str(), closing) {
                    return Ok(());
                }
            },
            Ok(XmlEvent::Eof) => {
                return Err(DecodeError::UnexpectedEof);
            },
            Ok(_) => {},
        }
    }
}

/// Decode the items of a list up to its closing tag.
fn parse_list(
    reader: &mut quick_xml::Reader<&[u8]>,
    state: &mut DecoderState,
    closing: &str,
    fuel: usize,
) -> (r: Result<Vec<PsValue>, DecodeError>)
    ensures
        input_of(*final(reader)) == input_of(*old(reader)),
        match list_from(
            input_of(*old(reader)),
            pos_of(*old(reader)),
            state_view(*old(state)),
            closing@,
            Seq::empty(),
            fuel as nat,
        ) {
            Ok((items, k, st)) => r is Ok && items_view(r->Ok_0@) == items && pos_of(*final(reader))
                == k && state_view(*final(state)) == st,
            Err(e) => r == Err::<Vec<PsValue>, DecodeError>(e),
        },
    decreases fuel,
{
    let ghost doc = input_of(*reader);
    let ghost k0 = pos_of(*reader);
    let ghost st0 = state_view(*state);
    let mut items: Vec<PsValue> = Vec::new();
    let mut f = fuel;
    assert(items_view(items@) =~= Seq::<PsView>::empty());
    loop
        invariant
            input_of(*reader) == doc,
            doc == input_of(*old(reader)),
            k0 == pos_of(*old(reader)),
            st0 == state_view(*old(state)),
            f <= fuel,
            list_from(doc, k0, st0, closing@, Seq::empty(), fuel as nat) == list_from(
                doc,
                pos_of(*reader),
                state_view(*state),
                closing@,
                items_view(items@),
                f as nat,
            ),
        decreases f,
    {
        if f == 0 {
            return Err(DecodeError::TooLong);
        }
        f = f - 1;
        match next_event(reader) {
            Err(e) => {
                return Err(e);
            },
            Ok(XmlEvent::Start(t)) => {
                match parse_element(reader, state, &t, f) {
                    Err(e) => {
                        return Err(e);
                    },
                    Ok(Some(v)) => {
                        proof {
                            lemma_items_push(items@, v);
                        }
                        items.push(v);
                    },
                    Ok(None) => {},
                }
            },
            Ok(XmlEvent::Empty(t)) => {
                match parse_empty(&t) {
                    Some(v) => {
                        proof {
                            lemma_items_push(items@, v);
                        }
                        items.push(v);
                    },
                    None => {},
                }
            },
            Ok(XmlEvent::End(n)) => {
                if str_eq(n.as_str(), closing) {
                    return Ok(items);
                }
            },
            Ok(XmlEvent::Eof) => {
                return Err(DecodeError::UnexpectedEof);
            },
            Ok(_) => {},
        }
    }
}

/// Decode the entries of a `<DCT>` up to `</DCT>`.
fn parse_dict(reader: &mut quick_xml::Reader<&[u8]>, state: &mut DecoderState, fuel: usize) -> (r:
    Result<Vec<(PsValue, PsValue)>, DecodeError>)
    ensures
        input_of(*final(reader)) == input_of(*old(reader)),
        match dict_from(
            input_of(*old(reader)),
            pos_of(*old(reader)),
            state_view(*old(state)),
            Seq::empty(),
            fuel as nat,
        ) {
            Ok((entries, k, st)) => r is Ok && entries_view(r->Ok_0@) == entries && pos_of(
                *final(reader),
            ) == k && state_view(*final(state)) == st,
            Err(e) => r == Err::<Vec<(PsValue, PsValue)>, DecodeError>(e),
        },
    decreases fuel,
{
    let ghost doc = input_of(*reader);
    let ghost k0 = pos_of(*reader);
    let ghost st0 = state_view(*state);
    let mut entries: Vec<(PsValue, PsValue)> = Vec::new();
    let mut f = fuel;
    assert(entries_view(entries@) =~= Seq::<(PsView, PsView)>::empty());
    loop
        invariant
            input_of(*reader) == doc,
            doc == input_of(*old(reader)),
            k0 == pos_of(*old(reader)),
            st0 == state_view(*old(state)),
            f <= fuel,
            dict_from(doc, k0, st0, Seq::empty(), fuel as nat) == dict_from(
                doc,
                pos_of(*reader),
                state_view(*state),
                entries_view(entries@),
                f as nat,
            ),
        decreases f,
    {
        if f == 0 {
            return Err(DecodeError::TooLong);
        }
        f = f - 1;
        match next_event(reader) {
            Err(e) => {
                return Err(e);
            },
            Ok(XmlEvent::Start(t)) => {
                if str_eq(t.name.as_str(), "En") {
                    match parse_dict_entry(reader, state, f) {
                        Err(e) => {
                            return Err(e);
                        },
                        Ok(kv) => {
                            proof {
                                lemma_entries_push(entries@, kv);
                            }
                            entries.push(kv);
                        },
                    }
                }
            },
            Ok(XmlEvent::End(n)) => {
                if str_eq(n.as_str(), "DCT") {
                    return Ok(entries);
                }
            },
            Ok(XmlEvent::Eof) => {
                return Err(DecodeError::UnexpectedEof);
            },
            Ok(_) => {},
        }
    }
}

/// Decode one `<En>`: the values named `Key` and `Value`.
fn parse_dict_entry(reader: &mut quick_xml::Reader<&[u8]>, state: &mut DecoderState, fuel: usize) -> (r:
    Result<(PsValue, PsValue), DecodeError>)
    ensures
        input_of(*final(reader)) == input_of(*old(reader)),
        match entry_from(
            input_of(*old(reader)),
            pos_of(*old(reader)),
            state_view(*old(state)),
            PsView::Null,
            PsView::Null,
            fuel as nat,
        ) {
            Ok((kv, k, st)) => r is Ok && value_view(r->Ok_0.0) == kv.0 && value_view(r->Ok_0.1)
                == kv.1 && pos_of(*final(reader)) == k && state_view(*final(state)) == st,
            Err(e) => r == Err::<(PsValue, PsValue), DecodeError>(e),
        },
    decreases fuel,
{
    let ghost doc = input_of(*reader);
    let ghost k0 = pos_of(*reader);
    let ghost st0 = state_view(*state);
    let mut key = PsValue::Null;
    let mut val = PsValue::Null;
    let mut f = fuel;
    loop
        invariant
            input_of(*reader) == doc,
            doc == input_of(*old(reader)),
            k0 == pos_of(*old(reader)),
            st0 == state_view(*old(state)),
            f <= fuel,
            entry_from(doc, k0, st0, PsView::Null, PsView::Null, fuel as nat) == entry_from(
                doc,
                pos_of(*reader),
                state_view(*state),
                value_view(key),
                value_view(val),
                f as nat,
            ),
        decreases f,
    {
        if f == 0 {
            return Err(DecodeError::TooLong);
        }
        f = f - 1;
        match next_event(reader) {
            Err(e) => {
                return Err(e);
            },
            Ok(XmlEvent::Start(t)) => {
                match get_name_attr(&t) {
                    Err(e) => {
                        return Err(e);
                    },
                    Ok(n) => {
                        let name = name_or_empty(n);
                        match parse_element(reader, state, &t, f) {
                            Err(e) => {
                                return Err(e);
                            },
                            Ok(Some(v)) => {
                                if str_eq(name.as_str(), "Key") {
                                    key = v;
                                } else if str_eq(name.as_str(), "Value") {
                                    val = v;
                                }
                            },
                            Ok(None) => {},
                        }
                    },
                }
            },
            Ok(XmlEvent::Empty(t)) => {
                if str_eq(t.name.as_str(), "Nil") {
                    match get_name_attr(&t) {
                        Err(e) => {
                            return Err(e);
                        },
                        Ok(n) => {
                            let name = name_or_empty(n);
                            if str_eq(name.as_str(), "Key") {
                                key = PsValue::Null;
                            } else if str_eq(name.as_str(), "Value") {
                                val = PsValue::Null;
                            }
                        },
                    }
                }
            },
            Ok(XmlEvent::End(n)) => {
                if str_eq(n.as_str(), "En") {
                    return Ok((key, val));
                }
            },
            Ok(XmlEvent::Eof) => {
                return Err(DecodeError::UnexpectedEof);
            },
            Ok(_) => {},
        }
    }
}

} // verus!

verus! {

proof fn lemma_strip_boms(c: Seq<char>, i: int)
    requires
        0 <= i <= c.len(),
        forall|j: int| 0 <= j < i ==> #[trigger] c[j] == '\u{FEFF}',
        i == c.len() || c[i] != '\u{FEFF}',
    ensures
        strip_boms(c) == c.subrange(i, c.len() as int),
    decreases i,
{
    if i == 0 {
        assert(c.subrange(0, c.len() as int) =~= c);
    } else {
        assert(c.drop_first().subrange(i - 1, c.drop_first().len() as int) =~= c.subrange(
            i,
            c.len() as int,
        ));
        lemma_strip_boms(c.drop_first(), i - 1);
    }
}

/// The document without its leading byte-order marks and then its
/// leading white space.
fn document_start(xml: &str) -> (r: &str)
    ensures
        r@ == super::scalars::trim_start(strip_boms(xml@)),
{
    let cs = crate::text::chars_of(xml);
    let mut i: usize = 0;
    while i < cs.len() && cs[i] == '\u{FEFF}'
        invariant
            i <= cs@.len(),
            forall|j: int| 0 <= j < i ==> #[trigger] cs@[j] == '\u{FEFF}',
        decreases cs@.len() - i,
    {
        i = i + 1;
    }
    let mut j: usize = i;
    while j < cs.len() && super::base64::char_is_whitespace(cs[j])
        invariant
            i <= j <= cs@.len(),
            forall|k: int| i <= k < j ==> super::base64::is_unicode_whitespace(#[trigger] cs@[k]),
        decreases cs@.len() - j,
    {
        j = j + 1;
    }
    proof {
        lemma_strip_boms(cs@, i as int);
        let t = cs@.subrange(i as int, cs@.len() as int);
        assert forall|k: int| 0 <= k < j - i implies super::base64::is_unicode_whitespace(
            #[trigger] t[k],
        ) by {
            assert(t[k] == cs@[k + i]);
        }
        if j < cs@.len() {
            assert(t[j - i] == cs@[j as int]);
        }
        super::scalars::lemma_trim_start(t, j - i);
        assert(t.subrange(j - i, t.len() as int) =~= cs@.subrange(j as int, cs@.len() as int));
    }
    xml.substring_char(j, cs.len())
}

/// Parse a CLIXML fragment into its top-level values, in order.
///
/// A body may hold several siblings (a `SessionCapability` message, for
/// example, is one `<Obj>` whose `<MS>` holds primitive siblings).
/// Objects are recorded under their `RefId` so that a later `<Ref>`
/// resolves to a copy; a `<Ref>` to an unknown id is null.
pub fn parse_clixml(xml: &str) -> (r: Result<Vec<PsValue>, DecodeError>)
    ensures
        match decode_spec(xml@) {
            Ok(vs) => r is Ok && items_view(r->Ok_0@) == vs,
            Err(e) => r == Err::<Vec<PsValue>, DecodeError>(e),
        },
{
    let cleaned = document_start(xml);
    let mut reader = xml_reader(cleaned);
    let mut state = DecoderState { refs: Vec::new(), type_names: Vec::new(), depth: 0 };
    let mut out: Vec<PsValue> = Vec::new();
    let mut f: usize = usize::MAX;
    assert(items_view(out@) =~= Seq::<PsView>::empty());
    assert(state_view(state) == initial_state());
    loop
        invariant
            input_of(reader) == cleaned@,
            cleaned@ == super::scalars::trim_start(strip_boms(xml@)),
            decode_spec(xml@) == doc_from(
                cleaned@,
                pos_of(reader),
                state_view(state),
                items_view(out@),
                f as nat,
            ),
        decreases f,
    {
        if f == 0 {
            return Err(DecodeError::TooLong);
        }
        f = f - 1;
        match next_event(&mut reader) {
            Err(e) => {
                return Err(e);
            },
            Ok(XmlEvent::Start(t)) => {
                match parse_element(&mut reader, &mut state, &t, f) {
                    Err(e) => {
                        return Err(e);
                    },
                    Ok(Some(v)) => {
                        proof {
                            lemma_items_push(out@, v);
                        }
                        out.push(v);
                    },
                    Ok(None) => {},
                }
            },
            Ok(XmlEvent::Empty(t)) => {
                match parse_empty(&t) {
                    Some(v) => {
                        proof {
                            lemma_items_push(out@, v);
                        }
                        out.push(v);
                    },
                    None => {
                        if str_eq(t.name.as_str(), "Ref") {
                            match get_attr(&t, "RefId") {
                                Err(e) => {
                                    return Err(e);
                                },
                                Ok(rid) => {
                                    let v = resolve_ref_exec(&state, &rid);
                                    proof {
                                        lemma_items_push(out@, v);
                                    }
                                    out.push(v);
                                },
                            }
                        }
                    },
                }
            },
            Ok(XmlEvent::Eof) => {
                return Ok(out);
            },
            Ok(_) => {},
        }
    }
}

/// A human-readable description of each refusal.
pub open spec fn error_message(e: DecodeError) -> Seq<char> {
    match e {
        DecodeError::Xml => "CLIXML: malformed XML"@,
        DecodeError::UnknownEntity => "CLIXML: unknown entity reference"@,
        DecodeError::UnexpectedEof => "CLIXML: unexpected end of document inside an element"@,
        DecodeError::TooDeep => "CLIXML nested deeper than 64 levels"@,
        DecodeError::InvalidValue => "CLIXML: invalid primitive value"@,
        DecodeError::TooLong => "CLIXML: document exceeds the decoder's step budget"@,
    }
}

impl DecodeError {
    /// A human-readable description of the refusal.
    pub fn message(&self) -> (r: String)
        ensures
            r@ == error_message(*self),
    {
        let s = match self {
            DecodeError::Xml => "CLIXML: malformed XML",
            DecodeError::UnknownEntity => "CLIXML: unknown entity reference",
            DecodeError::UnexpectedEof => "CLIXML: unexpected end of document inside an element",
            DecodeError::TooDeep => "CLIXML nested deeper than 64 levels",
            DecodeError::InvalidValue => "CLIXML: invalid primitive value",
            DecodeError::TooLong => "CLIXML: document exceeds the decoder's step budget",
        };
        super::encode::string_of(s)
    }
}

} // verus!
