//! The CLIXML value model: [`PsValue`] and [`PsObject`].

use vstd::prelude::*;
use crate::text::str_eq;

verus! {

/// One deserialized PowerShell value.
///
/// Each CLIXML primitive tag has its own variant, so a value keeps its
/// tag across a round trip. The two floating-point variants carry the
/// float's CLIXML text (`1.5`, `NaN`, `Infinity`, `-Infinity`), since this
/// library holds no floating-point numbers; a GUID is held as its sixteen
/// bytes in RFC 4122 order.
#[derive(Debug, PartialEq)]
pub enum PsValue {
    Null,
    Bool(bool),
    I8(i8),
    U8(u8),
    I16(i16),
    U16(u16),
    I32(i32),
    U32(u32),
    I64(i64),
    U64(u64),
    /// `<Sg>`: a single-precision float, by its text. The encoder escapes
    /// the text like any other, so even text that is no number leaves
    /// the XML well formed.
    F32(String),
    /// `<Db>`: a double-precision float, by its text, escaped as `F32`'s.
    Double(String),
    /// `<D>`: a decimal, kept as text.
    Decimal(String),
    Char(char),
    String(String),
    /// `<BA>`: a byte array.
    Bytes(Vec<u8>),
    DateTime(String),
    Duration(String),
    Guid([u8; 16]),
    Version(String),
    Uri(String),
    Xml(String),
    ScriptBlock(String),
    SecureString(String),
    List(Vec<PsValue>),
    Dict(Vec<(PsValue, PsValue)>),
    Object(PsObject),
}

/// A PowerShell object: its type-name hierarchy, an optional
/// `ToString` rendering, and its named properties in insertion order.
///
/// `properties` behaves as an insertion-ordered map: [`PsObject::insert`]
/// replaces the value of an existing name in place and appends a new
/// name at the end.
#[derive(Debug, PartialEq)]
pub struct PsObject {
    pub type_names: Vec<String>,
    pub to_string: Option<String>,
    pub properties: Vec<(String, PsValue)>,
}

/// The value stored under `key` in an insertion-ordered property list:
/// the first entry whose name is `key`.
pub open spec fn prop_lookup(props: Seq<(String, PsValue)>, key: Seq<char>) -> Option<PsValue>
    decreases props.len(),
{
    if props.len() == 0 {
        None
    } else if props[0].0@ == key {
        Some(props[0].1)
    } else {
        prop_lookup(props.drop_first(), key)
    }
}

/// Whether some property is named `key`.
pub open spec fn prop_has(props: Seq<(String, PsValue)>, key: Seq<char>) -> bool {
    exists|i: int| 0 <= i < props.len() && #[trigger] props[i].0@ == key
}

/// No two properties share a name.
pub open spec fn names_unique(props: Seq<(String, PsValue)>) -> bool {
    forall|i: int, j: int|
        0 <= i < j < props.len() ==> #[trigger] props[i].0@ != #[trigger] props[j].0@
}

/// The property list after an insert of `key` -> `value`: the value of an
/// existing entry named `key` is replaced in place, otherwise the pair
/// is appended.
pub open spec fn props_insert(props: Seq<(String, PsValue)>, key: String, value: PsValue) -> Seq<
    (String, PsValue),
> {
    if prop_has(props, key@) {
        let i = choose|i: int| 0 <= i < props.len() && #[trigger] props[i].0@ == key@;
        props.update(i, (props[i].0, value))
    } else {
        props.push((key, value))
    }
}

impl PsObject {
    /// Well-formed objects never hold two properties with the same name.
    pub open spec fn wf(&self) -> bool {
        names_unique(self.properties@)
    }

    /// An object with no type names, no `ToString` and no properties.
    pub fn new() -> (o: PsObject)
        ensures
            o.type_names@.len() == 0,
            o.to_string is None,
            o.properties@.len() == 0,
            o.wf(),
    {
        PsObject { type_names: Vec::new(), to_string: None, properties: Vec::new() }
    }

    /// Sets property `key` to `value`, returning the value it replaced.
    pub fn insert(&mut self, key: String, value: PsValue) -> (prev: Option<PsValue>)
        requires
            old(self).wf(),
        ensures
            final(self).wf(),
            final(self).type_names == old(self).type_names,
            final(self).to_string == old(self).to_string,
            final(self).properties@ == props_insert(old(self).properties@, key, value),
            prev == prop_lookup(old(self).properties@, key@),
    {
        let n = self.properties.len();
        let mut i: usize = 0;
        assert(self.properties@.subrange(0, n as int) =~= self.properties@);
        while i < n
            invariant
                n == self.properties@.len(),
                i <= n,
                self.wf(),
                self.properties@ == old(self).properties@,
                self.type_names == old(self).type_names,
                self.to_string == old(self).to_string,
                forall|j: int| 0 <= j < i ==> #[trigger] self.properties@[j].0@ != key@,
                prop_lookup(self.properties@, key@) == prop_lookup(
                    self.properties@.subrange(i as int, n as int),
                    key@,
                ),
            decreases n - i,
        {
            let ghost rest = self.properties@.subrange(i as int, n as int);
            assert(rest.drop_first() =~= self.properties@.subrange(i + 1, n as int));
            if str_eq(self.properties[i].0.as_str(), key.as_str()) {
                let ghost old_props = self.properties@;
                let (name, prev) = self.properties.remove(i);
                self.properties.insert(i, (name, value));
                proof {
                    assert(prop_has(old_props, key@));
                    let k = choose|k: int| 0 <= k < old_props.len() && #[trigger] old_props[k].0@ == key@;
                    assert(k == i as int) by {
                        if k < i {
                        } else if k > i {
                            assert(old_props[i as int].0@ == key@);
                        }
                    }
                    assert(self.properties@ =~= old_props.update(i as int, (old_props[i as int].0, value)));
                    assert(names_unique(self.properties@)) by {
                        assert forall|a: int, b: int| 0 <= a < b < self.properties@.len()
                        implies #[trigger] self.properties@[a].0@ != #[trigger] self.properties@[b].0@ by {
                            assert(self.properties@[a].0@ == old_props[a].0@);
                            assert(self.properties@[b].0@ == old_props[b].0@);
                        }
                    }
                }
                return Some(prev);
            }
            i = i + 1;
        }
        proof {
            assert(!prop_has(self.properties@, key@));
        }
        self.properties.push((key, value));
        proof {
            let p = self.properties@;
            assert forall|a: int, b: int| 0 <= a < b < p.len()
            implies #[trigger] p[a].0@ != #[trigger] p[b].0@ by {
                if b == p.len() - 1 {
                    assert(p[a] == old(self).properties@[a]);
                } else {
                    assert(p[a] == old(self).properties@[a]);
                    assert(p[b] == old(self).properties@[b]);
                }
            }
        }
        None
    }

    /// Builder form of [`PsObject::insert`].
    pub fn with(self, key: String, value: PsValue) -> (o: PsObject)
        requires
            self.wf(),
        ensures
            o.wf(),
            o.type_names == self.type_names,
            o.to_string == self.to_string,
            o.properties@ == props_insert(self.properties@, key, value),
    {
        let mut o = self;
        o.insert(key, value);
        o
    }

    /// Builder form that replaces the type-name hierarchy.
    pub fn with_type_names(self, names: Vec<String>) -> (o: PsObject)
        ensures
            o.type_names == names,
            o.to_string == self.to_string,
            o.properties == self.properties,
    {
        let mut o = self;
        o.type_names = names;
        o
    }

    /// The value of property `key`, if present.
    pub fn get(&self, key: &str) -> (r: Option<&PsValue>)
        ensures
            match r {
                Some(v) => prop_lookup(self.properties@, key@) == Some(*v),
                None => prop_lookup(self.properties@, key@) is None,
            },
    {
        let n = self.properties.len();
        let mut i: usize = 0;
        assert(self.properties@.subrange(0, n as int) =~= self.properties@);
        while i < n
            invariant
                n == self.properties@.len(),
                i <= n,
                prop_lookup(self.properties@, key@) == prop_lookup(
                    self.properties@.subrange(i as int, n as int),
                    key@,
                ),
            decreases n - i,
        {
            let ghost rest = self.properties@.subrange(i as int, n as int);
            assert(rest.drop_first() =~= self.properties@.subrange(i + 1, n as int));
            if str_eq(self.properties[i].0.as_str(), key) {
                return Some(&self.properties[i].1);
            }
            i = i + 1;
        }
        None
    }
}

} // verus!

verus! {

/// A looked-up property value is the value of some property of that
/// name.
pub proof fn lemma_prop_lookup_index(props: Seq<(String, PsValue)>, key: Seq<char>)
    ensures
        prop_lookup(props, key) matches Some(v) ==> exists|k: int|
            0 <= k < props.len() && #[trigger] props[k].0@ == key && props[k].1 == v,
    decreases props.len(),
{
    if props.len() > 0 && props[0].0@ != key {
        lemma_prop_lookup_index(props.drop_first(), key);
        if let Some(v) = prop_lookup(props, key) {
            let k = choose|k: int|
                0 <= k < props.drop_first().len() && #[trigger] props.drop_first()[k].0@ == key
                    && props.drop_first()[k].1 == v;
            assert(props[k + 1].0@ == key);
        }
    }
}

} // verus!

verus! {

proof fn lemma_lookup_first(props: Seq<(String, PsValue)>, key: Seq<char>, i: int)
    requires
        0 <= i < props.len(),
        props[i].0@ == key,
        forall|j: int| 0 <= j < i ==> #[trigger] props[j].0@ != key,
    ensures
        prop_lookup(props, key) == Some(props[i].1),
    decreases i,
{
    if i > 0 {
        let rest = props.drop_first();
        assert forall|j: int| 0 <= j < i - 1 implies #[trigger] rest[j].0@ != key by {
            assert(rest[j] == props[j + 1]);
        }
        lemma_lookup_first(rest, key, i - 1);
    }
}

proof fn lemma_lookup_absent(props: Seq<(String, PsValue)>, key: Seq<char>)
    requires
        forall|j: int| 0 <= j < props.len() ==> #[trigger] props[j].0@ != key,
    ensures
        prop_lookup(props, key) is None,
    decreases props.len(),
{
    if props.len() > 0 {
        let rest = props.drop_first();
        assert forall|j: int| 0 <= j < rest.len() implies #[trigger] rest[j].0@ != key by {
            assert(rest[j] == props[j + 1]);
        }
        lemma_lookup_absent(rest, key);
    }
}

/// Reading a property back gives the value last written under its name,
/// and writing one name leaves every other name's value as it was.
pub proof fn lemma_lookup_after_insert(
    props: Seq<(String, PsValue)>,
    key: String,
    value: PsValue,
    other: Seq<char>,
)
    requires
        names_unique(props),
    ensures
        prop_lookup(props_insert(props, key, value), key@) == Some(value),
        other != key@ ==> prop_lookup(props_insert(props, key, value), other) == prop_lookup(
            props,
            other,
        ),
{
    let p = props_insert(props, key, value);
    if prop_has(props, key@) {
        let i = choose|i: int| 0 <= i < props.len() && #[trigger] props[i].0@ == key@;
        assert forall|j: int| 0 <= j < i implies #[trigger] p[j].0@ != key@ by {
            assert(props[j].0@ != props[i].0@);
        }
        lemma_lookup_first(p, key@, i);
    } else {
        assert forall|j: int| 0 <= j < props.len() implies #[trigger] p[j].0@ != key@ by {
            assert(p[j] == props[j]);
        }
        lemma_lookup_first(p, key@, props.len() as int);
    }
    if other != key@ {
        if prop_has(props, other) {
            let j = choose|j: int| 0 <= j < props.len() && #[trigger] props[j].0@ == other;
            assert forall|m: int| 0 <= m < j implies #[trigger] props[m].0@ != other by {
                assert(props[m].0@ != props[j].0@);
            }
            assert forall|m: int| 0 <= m < j implies #[trigger] p[m].0@ != other by {
                assert(p[m].0@ == props[m].0@);
            }
            assert(p[j].0@ == other);
            lemma_lookup_first(props, other, j);
            lemma_lookup_first(p, other, j);
        } else {
            assert forall|m: int| 0 <= m < props.len() implies #[trigger] props[m].0@ != other by {}
            assert forall|m: int| 0 <= m < p.len() implies #[trigger] p[m].0@ != other by {
                if m < props.len() {
                    assert(p[m].0@ == props[m].0@);
                }
            }
            lemma_lookup_absent(props, other);
            lemma_lookup_absent(p, other);
        }
    }
}

} // verus!
