//! The XML layer under the CLIXML decoder: the event stream of a
//! document, as `quick_xml` tokenizes it, and what the decoder reads off
//! each event.

use vstd::prelude::*;
use vstd::string::StringSliceAdditionalSpecFns;
use quick_xml::events::{BytesRef, BytesStart, Event};
use quick_xml::{Reader, XmlVersion};
use crate::text::push_char;
use super::escape::unescape_from;

verus! {

#[verifier::external_type_specification]
#[verifier::external_body]
#[verifier::reject_recursive_types(R)]
pub struct ExXmlReader<R>(quick_xml::Reader<R>);

#[verifier::external_type_specification]
#[verifier::external_body]
pub struct ExXmlError(quick_xml::Error);

/// A start or empty-element tag: its name and its raw content (the
/// name followed by the attributes, as written).
pub struct XmlTag {
    pub name: String,
    pub content: String,
}

/// One event of the XML stream.
pub enum XmlEvent {
    /// `<name ...>`.
    Start(XmlTag),
    /// `<name .../>`.
    Empty(XmlTag),
    /// `</name>`, by name.
    End(String),
    /// Character data between markup, as written.
    Text(String),
    /// The content of a `<![CDATA[...]]>` section.
    CData(String),
    /// A reference `&content;`, by its content.
    GeneralRef(String),
    /// The end of the document.
    Eof,
    /// A comment, declaration, processing instruction or doctype.
    Other,
}

/// The model of an [`XmlTag`].
pub struct TagView {
    pub name: Seq<char>,
    pub content: Seq<char>,
}

/// The model of an [`XmlEvent`].
pub enum EventView {
    Start(TagView),
    Empty(TagView),
    End(Seq<char>),
    Text(Seq<char>),
    CData(Seq<char>),
    GeneralRef(Seq<char>),
    Eof,
    Other,
}

pub open spec fn tag_view(t: XmlTag) -> TagView {
    TagView { name: t.name@, content: t.content@ }
}

pub open spec fn event_view(e: XmlEvent) -> EventView {
    match e {
        XmlEvent::Start(t) => EventView::Start(tag_view(t)),
        XmlEvent::Empty(t) => EventView::Empty(tag_view(t)),
        XmlEvent::End(n) => EventView::End(n@),
        XmlEvent::Text(t) => EventView::Text(t@),
        XmlEvent::CData(t) => EventView::CData(t@),
        XmlEvent::GeneralRef(r) => EventView::GeneralRef(r@),
        XmlEvent::Eof => EventView::Eof,
        XmlEvent::Other => EventView::Other,
    }
}

/// The document a reader reads.
pub uninterp spec fn xml_reader_input(r: quick_xml::Reader<&[u8]>) -> Seq<char>;

/// How many events a reader has handed out.
pub uninterp spec fn xml_reader_events_read(r: quick_xml::Reader<&[u8]>) -> nat;

/// The `k`-th event (from `0`) that a `quick_xml` reader created by
/// [`xml_reader`] yields on `doc`; `None` where it yields an error.
pub uninterp spec fn xml_event_at(doc: Seq<char>, k: nat) -> Option<EventView>;

/// `quick_xml::Reader::from_str` on `doc`, with text kept as written
/// (`trim_text(false)`): a reader at the start of `doc`.
#[verifier::external_body]
pub(crate) fn xml_reader<'a>(doc: &'a str) -> (r: quick_xml::Reader<&'a [u8]>)
    ensures
        xml_reader_input(r) == doc@,
        xml_reader_events_read(r) == 0,
{
    let mut reader = Reader::from_str(doc);
    reader.config_mut().trim_text(false);
    reader
}

/// `quick_xml::Reader::read_event`: the reader's next event, converted
/// to plain values, or its error. The same document always yields the
/// same events in the same order. A tag's name is the start of its raw
/// content, since `BytesStart::name` is `&buf[..name_len]`.
#[verifier::external_body]
pub(crate) fn read_xml_event(reader: &mut quick_xml::Reader<&[u8]>) -> (r: Result<
    XmlEvent,
    quick_xml::Error,
>)
    ensures
        xml_reader_input(*final(reader)) == xml_reader_input(*old(reader)),
        xml_reader_events_read(*final(reader)) == xml_reader_events_read(*old(reader)) + 1,
        match r {
            Ok(e) => xml_event_at(xml_reader_input(*old(reader)), xml_reader_events_read(*old(reader)))
                == Some(event_view(e)) && (e matches XmlEvent::Start(t) ==> name_prefixes(t.name@, t.content@))
                && (e matches XmlEvent::Empty(t) ==> name_prefixes(t.name@, t.content@)),
            Err(_) => xml_event_at(
                xml_reader_input(*old(reader)),
                xml_reader_events_read(*old(reader)),
            ) is None,
        },
{
    let tag = |e: &BytesStart| XmlTag { name: e.name().as_ref().into(), content: (**e).into() };
    Ok(match reader.read_event()? {
        Event::Start(e) => XmlEvent::Start(tag(&e)),
        Event::Empty(e) => XmlEvent::Empty(tag(&e)),
        Event::End(e) => XmlEvent::End(e.name().as_ref().into()),
        Event::Text(t) => XmlEvent::Text((*t).into()),
        Event::CData(c) => XmlEvent::CData((*c).into()),
        Event::GeneralRef(r) => XmlEvent::GeneralRef((*r).into()),
        Event::Eof => XmlEvent::Eof,
        _ => XmlEvent::Other,
    })
}

/// The attributes of a tag with raw content `content` that starts with
/// its name `name`, in order: each well-formed one as its name and its
/// normalized value (`None` where normalization fails), each malformed
/// one as `None`.
pub uninterp spec fn xml_tag_attributes(content: Seq<char>, name: Seq<char>) -> Seq<
    Option<(Seq<char>, Option<Seq<char>>)>,
>;

/// Whether a tag's raw content starts with its name, as every tag that
/// `quick_xml` reads does.
pub open spec fn name_prefixes(name: Seq<char>, content: Seq<char>) -> bool {
    name.len() <= content.len() && content.subrange(0, name.len() as int) == name
}

/// The model of a converted attribute list.
pub open spec fn attrs_view(a: Seq<Option<(String, Option<String>)>>) -> Seq<
    Option<(Seq<char>, Option<Seq<char>>)>,
> {
    Seq::new(
        a.len(),
        |i: int|
            match a[i] {
                Some((k, v)) => Some(
                    (
                        k@,
                        match v {
                            Some(v) => Some(v@),
                            None => None,
                        },
                    ),
                ),
                None => None,
            },
    )
}

/// `BytesStart::attributes` of the tag with raw content `content` and
/// name `name`, each attribute's value through
/// `Attribute::normalized_value` (XML 1.0), converted to plain values.
/// The attribute scan starts at byte `name.len()` of `content`, which the
/// `requires` makes a character boundary there.
#[verifier::external_body]
fn tag_attributes(content: &str, name: &str) -> (r: Vec<Option<(String, Option<String>)>>)
    requires
        name_prefixes(name@, content@),
    ensures
        attrs_view(r@) == xml_tag_attributes(content@, name@),
{
    BytesStart::from_content(content, name.len()).attributes().map(
        |a| a.ok().map(|a| (a.key.as_ref().to_owned(), a.normalized_value(XmlVersion::Implicit1_0).ok().map(|v| v.into_owned())))
    ).collect()
}

/// The value of attribute `key` among `attrs`: the first well-formed
/// attribute of that name; an error when its value does not normalize.
pub open spec fn attr_lookup(attrs: Seq<Option<(Seq<char>, Option<Seq<char>>)>>, key: Seq<char>) -> Result<
    Option<Seq<char>>,
    (),
>
    decreases attrs.len(),
{
    if attrs.len() == 0 {
        Ok(None)
    } else {
        match attrs[0] {
            Some((k, v)) => if k == key {
                match v {
                    Some(v) => Ok(Some(v)),
                    None => Err(()),
                }
            } else {
                attr_lookup(attrs.drop_first(), key)
            },
            None => attr_lookup(attrs.drop_first(), key),
        }
    }
}

/// The value of attribute `key` of a tag; a tag whose content does not
/// start with its name has no attributes.
pub open spec fn tag_attr(tag: TagView, key: Seq<char>) -> Result<Option<Seq<char>>, ()> {
    if name_prefixes(tag.name, tag.content) {
        attr_lookup(xml_tag_attributes(tag.content, tag.name), key)
    } else {
        Ok(None)
    }
}

/// Whether the characters of `name` start those of `content`.
fn starts_with_name(content: &str, name: &str) -> (r: bool)
    ensures
        r == name_prefixes(name@, content@),
{
    let c = crate::text::chars_of(content);
    let n = crate::text::chars_of(name);
    if n.len() > c.len() {
        return false;
    }
    let mut i: usize = 0;
    while i < n.len()
        invariant
            c@ == content@,
            n@ == name@,
            n.len() <= c.len(),
            i <= n.len(),
            forall|j: int| 0 <= j < i ==> c@[j] == n@[j],
        decreases n.len() - i,
    {
        if c[i] != n[i] {
            assert(content@.subrange(0, name@.len() as int)[i as int] != name@[i as int]);
            return false;
        }
        i = i + 1;
    }
    assert(content@.subrange(0, name@.len() as int) =~= name@);
    true
}

/// The value of attribute `key` among converted attributes: the first
/// well-formed attribute of that name, an error when its value did not
/// normalize, nothing when there is none.
pub fn lookup_attribute(attrs: &Vec<Option<(String, Option<String>)>>, key: &str) -> (r: Result<
    Option<String>,
    (),
>)
    ensures
        match r {
            Ok(Some(v)) => attr_lookup(attrs_view(attrs@), key@) == Ok::<Option<Seq<char>>, ()>(
                Some(v@),
            ),
            Ok(None) => attr_lookup(attrs_view(attrs@), key@) == Ok::<Option<Seq<char>>, ()>(None),
            Err(_) => attr_lookup(attrs_view(attrs@), key@) is Err,
        },
{
    let ghost av = attrs_view(attrs@);
    let mut i: usize = 0;
    assert(av.subrange(0, av.len() as int) =~= av);
    while i < attrs.len()
        invariant
            i <= attrs@.len(),
            av == attrs_view(attrs@),
            attr_lookup(av, key@) == attr_lookup(av.subrange(i as int, av.len() as int), key@),
        decreases attrs@.len() - i,
    {
        let ghost rest = av.subrange(i as int, av.len() as int);
        assert(rest.drop_first() =~= av.subrange(i + 1, av.len() as int));
        match &attrs[i] {
            Some((k, v)) => {
                if crate::text::str_eq(k.as_str(), key) {
                    return match v {
                        Some(v) => Ok(Some(v.clone())),
                        None => Err(()),
                    };
                }
            },
            None => {},
        }
        i = i + 1;
    }
    assert(av.subrange(i as int, av.len() as int) =~= Seq::<Option<(Seq<char>, Option<Seq<char>>)>>::empty());
    Ok(None)
}

/// The value of attribute `key` of a tag, looked up among its
/// attributes in order.
pub fn tag_attribute(tag: &XmlTag, key: &str) -> (r: Result<Option<String>, ()>)
    ensures
        match r {
            Ok(Some(v)) => tag_attr(tag_view(*tag), key@) == Ok::<Option<Seq<char>>, ()>(Some(v@)),
            Ok(None) => tag_attr(tag_view(*tag), key@) == Ok::<Option<Seq<char>>, ()>(None),
            Err(_) => tag_attr(tag_view(*tag), key@) is Err,
        },
{
    if !starts_with_name(tag.content.as_str(), tag.name.as_str()) {
        return Ok(None);
    }
    let attrs = tag_attributes(tag.content.as_str(), tag.name.as_str());
    lookup_attribute(&attrs, key)
}

/// The value of a character as a digit in `radix` (10, or 16 with the
/// letters in either case), if it is one.
pub open spec fn radix_digit(c: char, radix: nat) -> Option<nat> {
    if '0' <= c <= '9' {
        Some((c as int - 48) as nat)
    } else if radix == 16 && 'a' <= c <= 'f' {
        Some((c as int - 87) as nat)
    } else if radix == 16 && 'A' <= c <= 'F' {
        Some((c as int - 55) as nat)
    } else {
        None
    }
}

/// The value of a run of digits in `radix`; none when the run is empty
/// or holds another character (a sign among them).
pub open spec fn radix_value(d: Seq<char>, radix: nat) -> Option<nat>
    decreases d.len(),
{
    if d.len() == 0 {
        None
    } else if d.len() == 1 {
        radix_digit(d[0], radix)
    } else {
        match (radix_value(d.drop_last(), radix), radix_digit(d.last(), radix)) {
            (Some(a), Some(b)) => Some(a * radix + b),
            _ => None,
        }
    }
}

/// What the general reference `&content;` is as a character reference,
/// as `quick_xml`'s `BytesRef::resolve_char_ref` reads it: no character
/// (`Some(None)`) unless `content` starts with `#`; after the `#`,
/// either `x` and hexadecimal digits or decimal digits, with no sign,
/// naming a Unicode scalar value other than `0`; `None` for every other
/// reference that starts with `#`.
pub open spec fn char_ref(content: Seq<char>) -> Option<Option<char>> {
    if content.len() == 0 || content[0] != '#' {
        Some(None)
    } else {
        let num = content.drop_first();
        let code = if num.len() > 0 && num[0] == 'x' {
            radix_value(num.drop_first(), 16)
        } else {
            radix_value(num, 10)
        };
        match code {
            Some(c) => if 0 < c && (c < 0xD800 || (0xE000 <= c && c <= 0x10FFFF)) {
                Some(Some(c as char))
            } else {
                None
            },
            None => None,
        }
    }
}

/// The value of a digit in `radix`.
fn digit_in(c: char, radix: u32) -> (r: Option<u32>)
    requires
        radix == 10 || radix == 16,
    ensures
        match r {
            Some(d) => radix_digit(c, radix as nat) == Some(d as nat) && d < radix,
            None => radix_digit(c, radix as nat) is None,
        },
{
    if '0' <= c && c <= '9' {
        Some(c as u32 - 48)
    } else if radix == 16 && 'a' <= c && c <= 'f' {
        Some(c as u32 - 87)
    } else if radix == 16 && 'A' <= c && c <= 'F' {
        Some(c as u32 - 55)
    } else {
        None
    }
}

/// A run of digits with a character that is no digit has no value.
proof fn lemma_radix_value_bad(d: Seq<char>, j: int, radix: nat)
    requires
        0 <= j < d.len(),
        radix_digit(d[j], radix) is None,
    ensures
        radix_value(d, radix) is None,
    decreases d.len(),
{
    if d.len() > 1 && j < d.len() - 1 {
        lemma_radix_value_bad(d.drop_last(), j, radix);
    }
}

/// The character a character reference names, read the way
/// `BytesRef::resolve_char_ref` reads it.
pub fn resolve_char_ref(content: &str) -> (r: Option<Option<char>>)
    ensures
        r == char_ref(content@),
{
    let c = crate::text::chars_of(content);
    if c.len() == 0 || c[0] != '#' {
        return Some(None);
    }
    let ghost num = c@.drop_first();
    let mut start: usize = 1;
    let mut radix: u32 = 10;
    if c.len() > 1 && c[1] == 'x' {
        start = 2;
        radix = 16;
    }
    let ghost digits = c@.subrange(start as int, c@.len() as int);
    assert(radix == 16 ==> digits =~= num.drop_first());
    assert(radix == 10 ==> digits =~= num);
    if start >= c.len() {
        assert(digits.len() == 0);
        return None;
    }
    let cap: u32 = 0x110000;
    let mut v: u32 = 0;
    let mut i: usize = start;
    while i < c.len()
        invariant
            c@ == content@,
            1 <= start < c@.len(),
            start <= i <= c@.len(),
            radix == 10 || radix == 16,
            cap == 0x110000,
            digits == c@.subrange(start as int, c@.len() as int),
            c@.len() > 0 && c@[0] == '#',
            num == c@.drop_first(),
            radix == 16 <==> (num.len() > 0 && num[0] == 'x'),
            radix == 16 ==> digits == num.drop_first(),
            radix == 10 ==> digits == num,
            v <= cap,
            i > start ==> (radix_value(c@.subrange(start as int, i as int), radix as nat) matches Some(
                x,
            ) && v == (if x < cap {
                x
            } else {
                cap as nat
            })),
        decreases c@.len() - i,
    {
        let ghost pre = c@.subrange(start as int, i as int);
        let ghost next = c@.subrange(start as int, i + 1);
        assert(next.drop_last() =~= pre);
        assert(next.last() == c@[i as int]);
        match digit_in(c[i], radix) {
            None => {
                proof {
                    assert(digits[i - start] == c@[i as int]);
                    lemma_radix_value_bad(digits, i - start, radix as nat);
                }
                return None;
            },
            Some(d) => {
                if i == start {
                    assert(next =~= seq![c@[i as int]]);
                    v = d;
                } else {
                    let ghost x = radix_value(pre, radix as nat)->Some_0;
                    assert(radix_value(next, radix as nat) == Some((x * radix + d) as nat));
                    if v >= cap {
                        assert(x * radix + d >= cap) by (nonlinear_arith)
                            requires
                                x >= cap,
                                radix >= 10,
                        ;
                    } else {
                        assert(v * radix <= 0x110000 * 16) by (nonlinear_arith)
                            requires
                                v < 0x110000,
                                radix <= 16,
                        ;
                        let w = v * radix + d;
                        if w > cap {
                            v = cap;
                        } else {
                            v = w;
                        }
                    }
                }
            },
        }
        i = i + 1;
    }
    assert(c@.subrange(start as int, i as int) =~= digits);
    if v == 0 || v >= cap || (0xD800 <= v && v < 0xE000) {
        return None;
    }
    match core::char::from_u32(v) {
        Some(ch) => Some(Some(ch)),
        None => None,
    }
}

/// The five entities XML predefines.
pub open spec fn predefined_entity(name: Seq<char>) -> Option<Seq<char>> {
    if name == "lt"@ {
        Some("<"@)
    } else if name == "gt"@ {
        Some(">"@)
    } else if name == "amp"@ {
        Some("&"@)
    } else if name == "apos"@ {
        Some("'"@)
    } else if name == "quot"@ {
        Some("\""@)
    } else {
        None
    }
}

/// The replacement text of a predefined entity.
pub fn resolve_predefined_entity(name: &str) -> (r: Option<&'static str>)
    ensures
        match r {
            Some(s) => predefined_entity(name@) == Some(s@),
            None => predefined_entity(name@) is None,
        },
{
    if crate::text::str_eq(name, "lt") {
        Some("<")
    } else if crate::text::str_eq(name, "gt") {
        Some(">")
    } else if crate::text::str_eq(name, "amp") {
        Some("&")
    } else if crate::text::str_eq(name, "apos") {
        Some("'")
    } else if crate::text::str_eq(name, "quot") {
        Some("\"")
    } else {
        None
    }
}

} // verus!
