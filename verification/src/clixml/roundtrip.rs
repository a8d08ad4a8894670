//! What the decoder reads back from the element text the encoder writes:
//! numbers, booleans, characters and byte arrays as text, and the XML and
//! PowerShell layers of escaped strings.

use vstd::prelude::*;
use crate::text::{dec_int, dec_nat, lemma_dec_nat_digits};
use super::value::PsValue;
use super::view::{value_view, PsView};
use super::encode::{enc_scalar, simple_xml};
use super::decode::{
    primitive_value, DecodeError, DecodeState, decode_spec, doc_from, element, element_inner,
    text_from, strip_boms, initial_state, empty_value, is_primitive_tag,
};
use super::xml::{xml_event_at, EventView, TagView};
use super::escape::{unescape_from, escape_code};
use super::normalize::norm;
use super::encode::enc_value;
use super::scalars::{trim, trim_start, parse_int_spec, parse_bool_spec, ascii_lower_seq};
use super::base64::{b64_encode_spec, lemma_b64_no_space, lemma_base64_roundtrip, is_unicode_whitespace};
use super::escape::{escape_char, ctrl_escape_char, escape_spec, pwsh_escape_of};
use super::xml::predefined_entity;

verus! {

/// The values the encoder writes as plain element text: booleans,
/// integers, characters and byte arrays.
pub open spec fn is_text_scalar(v: PsValue) -> bool {
    v is Bool || v is I8 || v is U8 || v is I16 || v is U16 || v is I32 || v is U32 || v is I64
        || v is U64 || v is Char || v is Bytes
}

/// The tag under which the encoder writes such a value.
pub open spec fn scalar_tag(v: PsValue) -> Seq<char> {
    match v {
        PsValue::Bool(_) => "B"@,
        PsValue::I8(_) => "SB"@,
        PsValue::U8(_) => "By"@,
        PsValue::I16(_) => "I16"@,
        PsValue::U16(_) => "U16"@,
        PsValue::I32(_) => "I32"@,
        PsValue::U32(_) => "U32"@,
        PsValue::I64(_) => "I64"@,
        PsValue::U64(_) => "U64"@,
        PsValue::Char(_) => "C"@,
        _ => "BA"@,
    }
}

/// The element text the encoder writes for such a value: `true` or
/// `false`, the decimal number, the character's code point in decimal,
/// or the padded base64 of the bytes.
pub open spec fn scalar_text(v: PsValue) -> Seq<char> {
    match v {
        PsValue::Bool(b) => if b {
            "true"@
        } else {
            "false"@
        },
        PsValue::I8(x) => dec_int(x as int),
        PsValue::U8(x) => dec_int(x as int),
        PsValue::I16(x) => dec_int(x as int),
        PsValue::U16(x) => dec_int(x as int),
        PsValue::I32(x) => dec_int(x as int),
        PsValue::U32(x) => dec_int(x as int),
        PsValue::I64(x) => dec_int(x as int),
        PsValue::U64(x) => dec_int(x as int),
        PsValue::Char(c) => dec_nat((c as u32) as nat),
        PsValue::Bytes(b) => b64_encode_spec(b@),
        _ => Seq::empty(),
    }
}

/// Text with no white space in it is its own trim.
proof fn lemma_trim_no_space(c: Seq<char>)
    requires
        forall|i: int| 0 <= i < c.len() ==> !is_unicode_whitespace(#[trigger] c[i]),
    ensures
        trim(c) == c,
{
}

/// Decimal digits, with a `-` in front of a negative number, are no
/// white space.
proof fn lemma_dec_int_text(x: int)
    ensures
        trim(dec_int(x)) == dec_int(x),
        dec_int(x).len() > 0,
{
    let d = dec_nat(if x < 0 { -x } else { x } as nat);
    lemma_dec_nat_digits(if x < 0 { -x } else { x } as nat);
    assert forall|i: int| 0 <= i < dec_int(x).len() implies !is_unicode_whitespace(
        #[trigger] dec_int(x)[i],
    ) by {
        if x < 0 && i == 0 {
            assert(dec_int(x)[i] == '-');
        } else {
            let j = if x < 0 { i - 1 } else { i };
            assert(dec_int(x)[i] == d[j]);
            assert(crate::text::is_digit(d[j]));
        }
    }
    lemma_trim_no_space(dec_int(x));
}

/// The decimal text of an integer in range parses back as that integer.
proof fn lemma_int_text(x: int, signed: bool, lo: int, hi: int)
    requires
        lo <= x <= hi,
        x < 0 ==> signed,
    ensures
        parse_int_spec(trim(dec_int(x)), signed, lo, hi) == Some(x),
{
    lemma_dec_int_text(x);
    let s = dec_int(x);
    if x < 0 {
        lemma_dec_nat_digits((-x) as nat);
        assert(s.drop_first() =~= dec_nat((-x) as nat));
    } else {
        lemma_dec_nat_digits(x as nat);
        assert(crate::text::is_digit(s[0]));
    }
}

/// The tags of primitive values, told apart by their characters.
pub(crate) proof fn lemma_tag_chars()
    ensures
        "S"@.len() == 1 && "S"@[0] == 'S',
        "B"@.len() == 1 && "B"@[0] == 'B',
        "C"@.len() == 1 && "C"@[0] == 'C',
        "D"@.len() == 1 && "D"@[0] == 'D',
        "SB"@.len() == 2 && "SB"@[0] == 'S' && "SB"@[1] == 'B',
        "By"@.len() == 2 && "By"@[0] == 'B' && "By"@[1] == 'y',
        "Db"@.len() == 2 && "Db"@[0] == 'D' && "Db"@[1] == 'b',
        "Sg"@.len() == 2 && "Sg"@[0] == 'S' && "Sg"@[1] == 'g',
        "BA"@.len() == 2 && "BA"@[0] == 'B' && "BA"@[1] == 'A',
        "I16"@.len() == 3 && "I16"@[0] == 'I' && "I16"@[1] == '1' && "I16"@[2] == '6',
        "U16"@.len() == 3 && "U16"@[0] == 'U' && "U16"@[1] == '1' && "U16"@[2] == '6',
        "I32"@.len() == 3 && "I32"@[0] == 'I' && "I32"@[1] == '3' && "I32"@[2] == '2',
        "U32"@.len() == 3 && "U32"@[0] == 'U' && "U32"@[1] == '3' && "U32"@[2] == '2',
        "I64"@.len() == 3 && "I64"@[0] == 'I' && "I64"@[1] == '6' && "I64"@[2] == '4',
        "U64"@.len() == 3 && "U64"@[0] == 'U' && "U64"@[1] == '6' && "U64"@[2] == '4',
{
    reveal_strlit("S");
    reveal_strlit("B");
    reveal_strlit("C");
    reveal_strlit("D");
    reveal_strlit("SB");
    reveal_strlit("By");
    reveal_strlit("Db");
    reveal_strlit("Sg");
    reveal_strlit("BA");
    reveal_strlit("I16");
    reveal_strlit("U16");
    reveal_strlit("I32");
    reveal_strlit("U32");
    reveal_strlit("I64");
    reveal_strlit("U64");
}

proof fn lemma_i8_text(x: i8)
    ensures
        primitive_value("SB"@, dec_int(x as int)) == Ok::<_, DecodeError>(PsView::I8(x)),
{
    lemma_tag_chars();
    lemma_int_text(x as int, true, -0x80, 0x7F);
}

proof fn lemma_u8_text(x: u8)
    ensures
        primitive_value("By"@, dec_int(x as int)) == Ok::<_, DecodeError>(PsView::U8(x)),
{
    lemma_tag_chars();
    lemma_int_text(x as int, false, 0, 0xFF);
}

proof fn lemma_i16_text(x: i16)
    ensures
        primitive_value("I16"@, dec_int(x as int)) == Ok::<_, DecodeError>(PsView::I16(x)),
{
    lemma_tag_chars();
    lemma_int_text(x as int, true, -0x8000, 0x7FFF);
}

proof fn lemma_u16_text(x: u16)
    ensures
        primitive_value("U16"@, dec_int(x as int)) == Ok::<_, DecodeError>(PsView::U16(x)),
{
    lemma_tag_chars();
    lemma_int_text(x as int, false, 0, 0xFFFF);
}

proof fn lemma_i32_text(x: i32)
    ensures
        primitive_value("I32"@, dec_int(x as int)) == Ok::<_, DecodeError>(PsView::I32(x)),
{
    lemma_tag_chars();
    lemma_int_text(x as int, true, -0x8000_0000, 0x7FFF_FFFF);
}

proof fn lemma_u32_text(x: u32)
    ensures
        primitive_value("U32"@, dec_int(x as int)) == Ok::<_, DecodeError>(PsView::U32(x)),
{
    lemma_tag_chars();
    lemma_int_text(x as int, false, 0, 0xFFFF_FFFF);
}

proof fn lemma_i64_text(x: i64)
    ensures
        primitive_value("I64"@, dec_int(x as int)) == Ok::<_, DecodeError>(PsView::I64(x)),
{
    lemma_tag_chars();
    lemma_int_text(x as int, true, -0x8000_0000_0000_0000, 0x7FFF_FFFF_FFFF_FFFF);
}

proof fn lemma_u64_text(x: u64)
    ensures
        primitive_value("U64"@, dec_int(x as int)) == Ok::<_, DecodeError>(PsView::U64(x)),
{
    lemma_tag_chars();
    lemma_int_text(x as int, false, 0, 0xFFFF_FFFF_FFFF_FFFF);
}

proof fn lemma_bool_text(b: bool)
    ensures
        primitive_value("B"@, if b { "true"@ } else { "false"@ }) == Ok::<_, DecodeError>(
            PsView::Bool(b),
        ),
{
    lemma_tag_chars();
    reveal_strlit("true");
    reveal_strlit("false");
    reveal_strlit("1");
    reveal_strlit("0");
    let t = if b { "true"@ } else { "false"@ };
    assert forall|i: int| 0 <= i < t.len() implies !is_unicode_whitespace(#[trigger] t[i]) && !(
    'A' <= t[i] <= 'Z') by {
        if b {
            assert(t == seq!['t', 'r', 'u', 'e']);
        } else {
            assert(t == seq!['f', 'a', 'l', 's', 'e']);
        }
    }
    lemma_trim_no_space(t);
    assert(ascii_lower_seq(trim(t)) =~= t);
    assert(parse_bool_spec(t) == Some(b));
}

proof fn lemma_char_text(c: char)
    ensures
        primitive_value("C"@, dec_nat((c as u32) as nat)) == Ok::<_, DecodeError>(PsView::Char(c)),
{
    lemma_tag_chars();
    let u = (c as u32) as int;
    lemma_int_text(u, false, 0, 0xFFFF_FFFF);
    vstd::utf8::char_u32_cast(c, c as u32);
    assert((u as char) == c);
}

proof fn lemma_bytes_text(b: Seq<u8>)
    ensures
        primitive_value("BA"@, b64_encode_spec(b)) == Ok::<_, DecodeError>(PsView::Bytes(b)),
{
    lemma_tag_chars();
    lemma_b64_no_space(b);
    lemma_trim_no_space(b64_encode_spec(b));
    lemma_base64_roundtrip(b);
}

/// A boolean, integer, character or byte array that the encoder writes
/// as element text reads back as the same value through the decoder's
/// reading of that text: the encoder writes it as `scalar_text` under
/// `scalar_tag`, and the decoder's value for that tag and text is the
/// value's model.
pub proof fn lemma_scalar_text_roundtrip(v: PsValue, name: Option<Seq<char>>)
    requires
        is_text_scalar(v),
    ensures
        enc_scalar(v, name) == simple_xml(scalar_tag(v), scalar_text(v), name, false),
        primitive_value(scalar_tag(v), scalar_text(v)) == Ok::<_, DecodeError>(value_view(v)),
{
    match v {
        PsValue::Bool(b) => lemma_bool_text(b),
        PsValue::I8(x) => lemma_i8_text(x),
        PsValue::U8(x) => lemma_u8_text(x),
        PsValue::I16(x) => lemma_i16_text(x),
        PsValue::U16(x) => lemma_u16_text(x),
        PsValue::I32(x) => lemma_i32_text(x),
        PsValue::U32(x) => lemma_u32_text(x),
        PsValue::I64(x) => lemma_i64_text(x),
        PsValue::U64(x) => lemma_u64_text(x),
        PsValue::Char(c) => lemma_char_text(c),
        PsValue::Bytes(b) => lemma_bytes_text(b@),
        _ => {},
    }
}

/// The two layers of text escaping undo in turn: each character the
/// encoder writes is written either as its PowerShell layer
/// (`ctrl_escape_char`: itself, or its `_xHHHH_` escape), or, for the
/// five XML metacharacters, as a reference `&name;` to the predefined
/// entity whose replacement text is that same PowerShell layer.
pub proof fn lemma_escape_char_layers(c: char, attribute: bool)
    ensures
        (c == '<' || c == '>' || c == '&' || c == '"' || c == '\'') ==> exists|n: Seq<char>|
            escape_char(c, attribute) == "&"@ + n + ";"@ && predefined_entity(n) == Some(
                ctrl_escape_char(c, attribute),
            ),
        !(c == '<' || c == '>' || c == '&' || c == '"' || c == '\'') ==> escape_char(c, attribute)
            == ctrl_escape_char(c, attribute),
{
    reveal_strlit("&lt;");
    reveal_strlit("&gt;");
    reveal_strlit("&amp;");
    reveal_strlit("&quot;");
    reveal_strlit("&apos;");
    reveal_strlit("&");
    reveal_strlit(";");
    reveal_strlit("lt");
    reveal_strlit("gt");
    reveal_strlit("amp");
    reveal_strlit("quot");
    reveal_strlit("apos");
    reveal_strlit("<");
    reveal_strlit(">");
    reveal_strlit("\"");
    reveal_strlit("'");
    let e = escape_char(c, attribute);
    if c == '<' {
        assert(e =~= "&"@ + "lt"@ + ";"@);
        assert(predefined_entity("lt"@) == Some(ctrl_escape_char(c, attribute)));
    } else if c == '>' {
        assert(e =~= "&"@ + "gt"@ + ";"@);
        assert("gt"@[0] == 'g' && "lt"@[0] == 'l');
        assert(predefined_entity("gt"@) == Some(ctrl_escape_char(c, attribute)));
    } else if c == '&' {
        assert(e =~= "&"@ + "amp"@ + ";"@);
        assert(predefined_entity("amp"@) == Some(ctrl_escape_char(c, attribute)));
    } else if c == '"' {
        assert(e =~= "&"@ + "quot"@ + ";"@);
        assert("quot"@[0] == 'q' && "apos"@[0] == 'a' && "amp"@.len() == 3 && "quot"@.len() == 4);
        assert(predefined_entity("quot"@) == Some(ctrl_escape_char(c, attribute)));
    } else if c == '\'' {
        assert(e =~= "&"@ + "apos"@ + ";"@);
        assert(predefined_entity("apos"@) == Some(ctrl_escape_char(c, attribute)));
    }
}

/// Text with no `_` in it holds no `_xHHHH_` escape: decoding leaves
/// it as it is.
pub(crate) proof fn lemma_unescape_plain(c: Seq<char>, k: nat)
    requires
        forall|i: int| 0 <= i < c.len() ==> c[i] != '_',
    ensures
        unescape_from(c, k) == (if k <= c.len() {
            c.subrange(k as int, c.len() as int)
        } else {
            Seq::empty()
        }),
    decreases c.len() - k,
{
    if k < c.len() {
        lemma_unescape_plain(c, k + 1);
        assert(escape_code(c, k as int) is None);
        assert(c.subrange(k as int, c.len() as int) =~= seq![c[k as int]] + c.subrange(
            (k + 1) as int,
            c.len() as int,
        ));
    } else if k == c.len() {
        assert(c.subrange(k as int, c.len() as int) =~= Seq::<char>::empty());
    }
}

/// The text the encoder writes for a boolean, integer, character or
/// byte array holds no `_`.
pub(crate) proof fn lemma_scalar_text_plain(v: PsValue)
    requires
        is_text_scalar(v),
    ensures
        forall|i: int| 0 <= i < scalar_text(v).len() ==> #[trigger] scalar_text(v)[i] != '_',
{
    reveal_strlit("true");
    reveal_strlit("false");
    let t = scalar_text(v);
    match v {
        PsValue::Bool(b) => {
            assert forall|i: int| 0 <= i < t.len() implies #[trigger] t[i] != '_' by {
                if b {
                    assert(t == seq!['t', 'r', 'u', 'e']);
                } else {
                    assert(t == seq!['f', 'a', 'l', 's', 'e']);
                }
            }
        },
        PsValue::Bytes(b) => lemma_b64_no_space(b@),
        PsValue::Char(c) => lemma_dec_nat_digits((c as u32) as nat),
        _ => {
            let x: int = match v {
                PsValue::I8(x) => x as int,
                PsValue::U8(x) => x as int,
                PsValue::I16(x) => x as int,
                PsValue::U16(x) => x as int,
                PsValue::I32(x) => x as int,
                PsValue::U32(x) => x as int,
                PsValue::I64(x) => x as int,
                PsValue::U64(x) => x as int,
                _ => 0,
            };
            assert(t == dec_int(x));
            let d = dec_nat(if x < 0 { -x } else { x } as nat);
            lemma_dec_nat_digits(if x < 0 { -x } else { x } as nat);
            assert forall|i: int| 0 <= i < t.len() implies #[trigger] t[i] != '_' by {
                if x < 0 && i == 0 {
                } else {
                    let j = if x < 0 { i - 1 } else { i };
                    assert(t[i] == d[j]);
                    assert(crate::text::is_digit(d[j]));
                }
            }
        },
    }
}

/// Whether `doc`'s events, in order from the first, are `events`, and
/// the end of the document right after them.
pub open spec fn events_are(doc: Seq<char>, events: Seq<EventView>) -> bool {
    &&& forall|k: nat| k < events.len() ==> #[trigger] xml_event_at(doc, k) == Some(events[k as int])
    &&& xml_event_at(doc, events.len()) == Some(EventView::Eof)
}

/// The events of `<tag>text</tag>` as XML defines them: the start tag,
/// the text unless it is empty, and the end tag.
pub open spec fn simple_element_events(tag: Seq<char>, text: Seq<char>) -> Seq<EventView> {
    let start = EventView::Start(TagView { name: tag, content: tag });
    if text.len() == 0 {
        seq![start, EventView::End(tag)]
    } else {
        seq![start, EventView::Text(text), EventView::End(tag)]
    }
}

/// A document that starts with `<` is its own start once byte-order
/// marks and leading white space are dropped.
pub(crate) proof fn lemma_doc_start(doc: Seq<char>)
    requires
        doc.len() > 0,
        doc[0] == '<',
    ensures
        trim_start(strip_boms(doc)) == doc,
{
}

/// The text of a primitive element whose events are those of
/// `<tag>text</tag>`: the text, up to the event after the end tag.
proof fn lemma_element_text(doc: Seq<char>, tag: Seq<char>, text: Seq<char>, f: nat)
    requires
        events_are(doc, simple_element_events(tag, text)),
        forall|i: int| 0 <= i < text.len() ==> #[trigger] text[i] != '_',
        f >= 2,
    ensures
        text_from(doc, 1, tag, Seq::empty(), f) == Ok::<_, DecodeError>(
            (text, simple_element_events(tag, text).len()),
        ),
{
    let evs = simple_element_events(tag, text);
    let n = evs.len();
    assert(xml_event_at(doc, (n - 1) as nat) == Some(EventView::End(tag)));
    lemma_unescape_plain(text, 0);
    assert(text.subrange(0, text.len() as int) =~= text);
    if text.len() == 0 {
        assert(unescape_from(Seq::<char>::empty(), 0) == text);
    } else {
        assert(xml_event_at(doc, 1) == Some(EventView::Text(text)));
        assert(Seq::<char>::empty() + text =~= text);
        assert(text_from(doc, 2, tag, text, (f - 1) as nat) == Ok::<_, DecodeError>((text, 3nat)));
    }
}

/// A primitive element whose text reads as `view` is that value.
proof fn lemma_primitive_element(
    doc: Seq<char>,
    t: TagView,
    text: Seq<char>,
    view: PsView,
    st: DecodeState,
    f: nat,
    n: nat,
)
    requires
        f >= 1,
        is_primitive_tag(t.name),
        text_from(doc, 1, t.name, Seq::empty(), (f - 1) as nat) == Ok::<_, DecodeError>((text, n)),
        primitive_value(t.name, text) == Ok::<_, DecodeError>(view),
    ensures
        element_inner(doc, 1, t, st, f) == Ok::<_, DecodeError>((Some(view), n, st)),
{
}

/// A document whose events are a primitive element `<tag>text</tag>`
/// and the end decodes to the element's value.
#[verifier::spinoff_prover]
proof fn lemma_element_document(doc: Seq<char>, tag: Seq<char>, text: Seq<char>, view: PsView)
    requires
        doc.len() > 0,
        doc[0] == '<',
        events_are(doc, simple_element_events(tag, text)),
        is_primitive_tag(tag),
        forall|i: int| 0 <= i < text.len() ==> #[trigger] text[i] != '_',
        primitive_value(tag, text) == Ok::<_, DecodeError>(view),
    ensures
        decode_spec(doc) == Ok::<_, DecodeError>(seq![view]),
{
    lemma_doc_start(doc);
    let m = usize::MAX as nat;
    let st = initial_state();
    let n = simple_element_events(tag, text).len();
    let t = TagView { name: tag, content: tag };
    assert(xml_event_at(doc, 0) == Some(EventView::Start(t)));
    assert(xml_event_at(doc, n) == Some(EventView::Eof));
    lemma_element_text(doc, tag, text, (m - 3) as nat);
    let st1 = DecodeState { depth: 1, ..st };
    lemma_primitive_element(doc, t, text, view, st1, (m - 2) as nat, n);
    assert(element(doc, 1, t, st, (m - 1) as nat) == Ok::<_, DecodeError>((Some(view), n, st)));
    assert(doc_from(doc, n, st, seq![view], (m - 1) as nat) == Ok::<_, DecodeError>(seq![view]));
    assert(Seq::<PsView>::empty().push(view) =~= seq![view]);
}

/// A boolean, integer, character, byte array or null that `to_clixml`
/// writes on its own decodes back to that value, which is also its
/// `normalize`d form: given that the XML reader splits the document as
/// XML does, `<T>text</T>` into a start tag, its text (if any), an end
/// tag and the end of the document, and `<Nil/>` into one empty-element
/// tag and the end.
pub proof fn lemma_scalar_document_roundtrip(v: PsValue)
    requires
        is_text_scalar(v) || v is Null,
        is_text_scalar(v) ==> events_are(
            enc_value(v, None, 0).0,
            simple_element_events(scalar_tag(v), scalar_text(v)),
        ),
        v is Null ==> events_are(
            enc_value(v, None, 0).0,
            seq![EventView::Empty(TagView { name: "Nil"@, content: "Nil"@ })],
        ),
    ensures
        decode_spec(enc_value(v, None, 0).0) == Ok::<_, DecodeError>(seq![norm(value_view(v))]),
        norm(value_view(v)) == value_view(v),
{
    reveal_strlit("<");
    let doc = enc_value(v, None, 0).0;
    assert(doc == enc_scalar(v, None));
    if v is Null {
        reveal_strlit("/>");
        reveal_strlit("Nil");
        assert(doc =~= "<"@ + "Nil"@ + "/>"@);
        lemma_doc_start(doc);
        let m = usize::MAX as nat;
        let st = initial_state();
        let e0 = TagView { name: "Nil"@, content: "Nil"@ };
        assert(xml_event_at(doc, 0) == Some(EventView::Empty(e0)));
        assert(xml_event_at(doc, 1) == Some(EventView::Eof));
        assert(empty_value(e0) == Some(PsView::Null));
        assert(doc_from(doc, 1, st, seq![PsView::Null], (m - 1) as nat) == Ok::<_, DecodeError>(
            seq![PsView::Null],
        ));
        assert(Seq::<PsView>::empty().push(PsView::Null) =~= seq![PsView::Null]);
        assert(doc_from(doc, 0, st, Seq::empty(), m) == Ok::<_, DecodeError>(seq![PsView::Null]));
    } else {
        lemma_scalar_text_roundtrip(v, None);
        lemma_scalar_text_plain(v);
        lemma_tag_chars();
        let tag = scalar_tag(v);
        assert(doc =~= "<"@ + tag + ">"@ + scalar_text(v) + "</"@ + tag + ">"@);
        assert(is_primitive_tag(tag));
        lemma_element_document(doc, tag, scalar_text(v), value_view(v));
    }
}

/// A character that both layers of text escaping leave as it is: no XML
/// metacharacter, no `_`, and no control character other than tab,
/// line feed and carriage return.
pub open spec fn plain_char(c: char) -> bool {
    c != '<' && c != '>' && c != '&' && c != '"' && c != '\'' && c != '_' && ((c as u32) >= 0x20
        || c == '\t' || c == '\n' || c == '\r')
}

/// A string of plain characters is written as it is.
pub(crate) proof fn lemma_escape_plain(s: Seq<char>)
    requires
        forall|i: int| 0 <= i < s.len() ==> plain_char(#[trigger] s[i]),
    ensures
        escape_spec(s, false) == s,
    decreases s.len(),
{
    if s.len() > 0 {
        lemma_escape_plain(s.drop_last());
        assert(plain_char(s[s.len() - 1]));
        assert(escape_char(s.last(), false) == seq![s.last()]);
        assert(s.drop_last() + seq![s.last()] =~= s);
    }
}

/// A string of plain characters that `to_clixml` writes on its own
/// decodes back to that string, given that the XML reader splits
/// `<S>text</S>` into a start tag, its text (if any), an end tag and
/// the end of the document.
pub proof fn lemma_plain_string_document_roundtrip(s: String)
    requires
        forall|i: int| 0 <= i < s@.len() ==> plain_char(#[trigger] s@[i]),
        events_are(enc_value(PsValue::String(s), None, 0).0, simple_element_events("S"@, s@)),
    ensures
        decode_spec(enc_value(PsValue::String(s), None, 0).0) == Ok::<_, DecodeError>(
            seq![norm(value_view(PsValue::String(s)))],
        ),
        norm(value_view(PsValue::String(s))) == value_view(PsValue::String(s)),
{
    reveal_strlit("<");
    reveal_strlit(">");
    reveal_strlit("</");
    lemma_tag_chars();
    lemma_escape_plain(s@);
    let doc = enc_value(PsValue::String(s), None, 0).0;
    assert(doc == enc_scalar(PsValue::String(s), None));
    assert(doc =~= "<"@ + "S"@ + ">"@ + s@ + "</"@ + "S"@ + ">"@);
    assert(primitive_value("S"@, s@) == Ok::<_, DecodeError>(PsView::String(s@)));
    lemma_element_document(doc, "S"@, s@, PsView::String(s@));
}

/// Whether a character is a tab, line feed or carriage return.
pub open spec fn is_line_space(c: char) -> bool {
    c == '\t' || c == '\n' || c == '\r'
}

/// Text with each tab, line feed and carriage return replaced by its
/// `_xHHHH_` escape.
pub open spec fn escape_line_space(t: Seq<char>) -> Seq<char>
    decreases t.len(),
{
    if t.len() == 0 {
        Seq::empty()
    } else {
        escape_line_space(t.drop_last()) + if is_line_space(t.last()) {
            pwsh_escape_of(t.last())
        } else {
            seq![t.last()]
        }
    }
}

proof fn lemma_escape_line_space_concat(a: Seq<char>, b: Seq<char>)
    ensures
        escape_line_space(a + b) == escape_line_space(a) + escape_line_space(b),
    decreases b.len(),
{
    if b.len() == 0 {
        assert(a + b =~= a);
    } else {
        lemma_escape_line_space_concat(a, b.drop_last());
        assert((a + b).drop_last() =~= a + b.drop_last());
        assert((a + b).last() == b.last());
    }
}

proof fn lemma_escape_line_space_none(t: Seq<char>)
    requires
        forall|i: int| 0 <= i < t.len() ==> !is_line_space(#[trigger] t[i]),
    ensures
        escape_line_space(t) == t,
    decreases t.len(),
{
    if t.len() > 0 {
        lemma_escape_line_space_none(t.drop_last());
        assert(!is_line_space(t[t.len() - 1]));
        assert(t.drop_last() + seq![t.last()] =~= t);
    }
}

proof fn lemma_hex_upper_not_space(d: nat)
    requires
        d < 16,
    ensures
        !is_line_space(crate::text::hex_upper_char(d)),
        crate::text::hex_upper_char(d) != '_',
{
    let c = crate::text::hex_upper_char(d);
    if d < 10 {
        assert(48 <= 48 + d < 58);
        assert(c as u32 == 48 + d) by {
            vstd::utf8::char_u32_cast(c, (48 + d) as u32);
        }
    } else {
        assert(c as u32 == 65 + (d - 10)) by {
            vstd::utf8::char_u32_cast(c, (65 + (d - 10)) as u32);
        }
    }
}

/// A `_xHHHH_` escape holds no tab, line feed or carriage return.
proof fn lemma_pwsh_escape_no_space(c: char)
    ensures
        forall|i: int| 0 <= i < pwsh_escape_of(c).len() ==> !is_line_space(
            #[trigger] pwsh_escape_of(c)[i],
        ),
{
    reveal_strlit("_x");
    reveal_strlit("_");
    let v = (c as u32) as nat;
    lemma_hex_upper_not_space((v / 4096) % 16);
    lemma_hex_upper_not_space((v / 256) % 16);
    lemma_hex_upper_not_space((v / 16) % 16);
    lemma_hex_upper_not_space(v % 16);
    let e = pwsh_escape_of(c);
    assert forall|i: int| 0 <= i < e.len() implies !is_line_space(#[trigger] e[i]) by {
        if i >= 2 && i < 6 {
            assert(e[i] == crate::text::hex4_upper(v)[i - 2]);
        }
    }
}

/// Attribute escaping is text escaping with each tab, line feed and
/// carriage return then replaced by its `_xHHHH_` escape; so attribute
/// text holds none of those three characters.
pub proof fn lemma_escape_attr_is_escape(s: Seq<char>)
    ensures
        escape_spec(s, true) == escape_line_space(escape_spec(s, false)),
        forall|i: int| 0 <= i < escape_spec(s, true).len() ==> !is_line_space(
            #[trigger] escape_spec(s, true)[i],
        ),
    decreases s.len(),
{
    if s.len() > 0 {
        let c = s.last();
        lemma_escape_attr_is_escape(s.drop_last());
        lemma_escape_line_space_concat(escape_spec(s.drop_last(), false), escape_char(c, false));
        lemma_pwsh_escape_no_space(c);
        reveal_strlit("&lt;");
        reveal_strlit("&gt;");
        reveal_strlit("&amp;");
        reveal_strlit("&quot;");
        reveal_strlit("&apos;");
        let e = escape_char(c, false);
        if is_line_space(c) {
            assert(e == seq![c]);
            assert(escape_line_space(e) == escape_line_space(Seq::<char>::empty()) + pwsh_escape_of(c)) by {
                assert(e.drop_last() =~= Seq::<char>::empty());
            }
            assert(escape_line_space(e) =~= pwsh_escape_of(c));
        } else {
            assert forall|i: int| 0 <= i < e.len() implies !is_line_space(#[trigger] e[i]) by {
            }
            lemma_escape_line_space_none(e);
        }
        assert(escape_char(c, true) == escape_line_space(e));
        let t = escape_spec(s, true);
        let a = escape_spec(s.drop_last(), true);
        let ec = escape_char(c, true);
        assert(t == a + ec);
        assert forall|i: int| 0 <= i < t.len() implies !is_line_space(#[trigger] t[i]) by {
            if i >= a.len() {
                assert(t[i] == ec[i - a.len()]);
                if !is_line_space(c) {
                    assert(ec == e);
                }
            } else {
                assert(t[i] == a[i]);
            }
        }
    }
}

} // verus!
