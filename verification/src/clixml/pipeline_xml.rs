//! The CLIXML body of a `CreatePipeline` message (MS-PSRP 2.2.2.12).

use vstd::prelude::*;
use crate::text::{push_decimal_u64, push_decimal_i64, dec_nat, dec_int};
use super::escape::{escape_spec, push_escaped};
use super::encode::{simple_xml, obj_open, open_obj, string_of, enc_value, RefIdAllocator, write_value_with, opt_view, is_object_of, ps_enum, ps_host_info_null};
use super::value::PsValue;

verus! {

/// One argument of a pipeline command.
pub enum PipelineArgSpec<'a> {
    /// `-name value`.
    Named { name: &'a str, value: &'a PsValue },
    /// A positional value.
    Positional(&'a PsValue),
    /// A switch parameter, `-name`.
    Switch(&'a str),
}

/// One command of a pipeline.
pub struct PipelineCommandSpec<'a> {
    pub name: &'a str,
    pub is_script: bool,
    pub merge_errors_to_output: bool,
    pub args: Vec<PipelineArgSpec<'a>>,
}

/// `<S N="field">text</S>`.
pub open spec fn s_xml(text: Seq<char>, field: Seq<char>) -> Seq<char> {
    simple_xml("S"@, escape_spec(text, false), Some(field), false)
}

/// `<B N="field">true|false</B>`.
pub open spec fn b_xml(b: bool, field: Seq<char>) -> Seq<char> {
    simple_xml(
        "B"@,
        if b {
            "true"@
        } else {
            "false"@
        },
        Some(field),
        false,
    )
}

/// `<Nil N="field"/>`.
pub open spec fn nil_xml(field: Seq<char>) -> Seq<char> {
    simple_xml("Nil"@, Seq::empty(), Some(field), true)
}

/// An enum object with its full `<TN>` block, as the encoder writes the
/// value built by [`ps_enum`]: ref ids `id` (object) and `id + 1` (type
/// names).
#[verifier::opaque]
pub open spec fn enum_obj_xml(
    field: Seq<char>,
    enum_type: Seq<char>,
    label: Seq<char>,
    value: i32,
    id: nat,
) -> Seq<char> {
    obj_open(Some(field), id) + "<TN RefId=\""@ + dec_nat(id + 1) + "\">"@ + "<T>"@ + escape_spec(
        enum_type,
        false,
    ) + "</T>"@ + "<T>"@ + escape_spec("System.Enum"@, false) + "</T>"@ + "<T>"@ + escape_spec(
        "System.ValueType"@,
        false,
    ) + "</T>"@ + "<T>"@ + escape_spec("System.Object"@, false) + "</T>"@ + "</TN>"@
        + "<ToString>"@ + escape_spec(label, false) + "</ToString>"@ + simple_xml(
        "I32"@,
        dec_int(value as int),
        None,
        false,
    ) + "</Obj>"@
}

/// The `HostInfo` object written for [`ps_host_info_null`] under ref id
/// `id`.
#[verifier::opaque]
pub open spec fn host_info_xml(id: nat) -> Seq<char> {
    obj_open(Some("HostInfo"@), id) + "<MS>"@ + b_xml(true, "_isHostNull"@) + b_xml(
        true,
        "_isHostUINull"@,
    ) + b_xml(true, "_isHostRawUINull"@) + b_xml(true, "_useRunspaceHost"@) + "</MS>"@
        + "</Obj>"@
}

/// The `PipelineResultTypes` enum type name.
pub open spec fn prt_type() -> Seq<char> {
    "System.Management.Automation.Runspaces.PipelineResultTypes"@
}

/// An enum object that defines its `<TN>` inline: ids `id` and `id + 1`.
#[verifier::opaque]
pub open spec fn enum_first_xml(
    name: Option<Seq<char>>,
    enum_type: Seq<char>,
    label: Seq<char>,
    value: i32,
    id: nat,
) -> Seq<char> {
    obj_open(name, id) + "<TN RefId=\""@ + dec_nat(id + 1) + "\">"@ + "<T>"@ + escape_spec(
        enum_type,
        false,
    ) + "</T><T>System.Enum</T><T>System.ValueType</T><T>System.Object</T>"@ + "</TN>"@
        + "<ToString>"@ + escape_spec(label, false) + "</ToString>"@ + "<I32>"@ + dec_int(
        value as int,
    ) + "</I32>"@ + "</Obj>"@
}

/// An enum object that refers back to an earlier `<TN>` by `<TNRef>`:
/// id `id`.
#[verifier::opaque]
pub open spec fn enum_ref_xml(
    name: Option<Seq<char>>,
    tn_ref: nat,
    label: Seq<char>,
    value: i32,
    id: nat,
) -> Seq<char> {
    obj_open(name, id) + "<TNRef RefId=\""@ + dec_nat(tn_ref) + "\"/>"@ + "<ToString>"@
        + escape_spec(label, false) + "</ToString>"@ + "<I32>"@ + dec_int(value as int)
        + "</I32>"@ + "</Obj>"@
}

/// One `PipelineResultTypes` merge field: the first one in the document
/// defines the `<TN>`, later ones refer back to it. Yields the text, the
/// `<TN>` id, and the next free id.
pub open spec fn merge_xml(
    field: Seq<char>,
    label: Seq<char>,
    value: i32,
    first: Option<nat>,
    id: nat,
) -> (Seq<char>, Option<nat>, nat) {
    match first {
        Some(t) => (enum_ref_xml(Some(field), t, label, value, id), Some(t), id + 1),
        None => (enum_first_xml(Some(field), prt_type(), label, value, id), Some(id + 1), id + 2),
    }
}

/// One argument object: its `N` (name, or `<Nil>` when positional) and
/// `V` (value, or `true` for a switch) members.
pub open spec fn arg_xml(arg: PipelineArgSpec, id: nat) -> (Seq<char>, nat) {
    let body = match arg {
        PipelineArgSpec::Named { name, value } => {
            let v = enc_value(*value, Some("V"@), id + 1);
            (s_xml(name@, "N"@) + v.0, v.1)
        },
        PipelineArgSpec::Positional(value) => {
            let v = enc_value(*value, Some("V"@), id + 1);
            (nil_xml("N"@) + v.0, v.1)
        },
        PipelineArgSpec::Switch(name) => (s_xml(name@, "N"@) + b_xml(true, "V"@), id + 1),
    };
    (obj_open(None, id) + "<MS>"@ + body.0 + "</MS></Obj>"@, body.1)
}

/// The argument objects of a command, in order.
pub open spec fn args_xml(s: Seq<PipelineArgSpec>, id: nat) -> (Seq<char>, nat)
    decreases s.len(),
{
    if s.len() == 0 {
        (Seq::empty(), id)
    } else {
        let a = args_xml(s.drop_last(), id);
        let b = arg_xml(s.last(), a.1);
        (a.0 + b.0, b.1)
    }
}

/// The three leading merge fields of a command: `MergeMyResult` and
/// `MergeToResult` (`Error` into `Output` when errors are merged, else
/// `None`) and `MergePreviousResults`.
#[verifier::opaque]
pub open spec fn cmd_merges(merge_errors: bool, first: Option<nat>, id: nat) -> (
    Seq<char>,
    Option<nat>,
    nat,
) {
    let m1 = if merge_errors {
        merge_xml("MergeMyResult"@, "Error"@, 2, first, id)
    } else {
        merge_xml("MergeMyResult"@, "None"@, 0, first, id)
    };
    let m2 = if merge_errors {
        merge_xml("MergeToResult"@, "Output"@, 1, m1.1, m1.2)
    } else {
        merge_xml("MergeToResult"@, "None"@, 0, m1.1, m1.2)
    };
    let m3 = merge_xml("MergePreviousResults"@, "None"@, 0, m2.1, m2.2);
    (m1.0 + m2.0 + m3.0, m3.1, m3.2)
}

/// The `Args` list of a command, typed by a `<TNRef>` to the `Cmds`
/// list's `<TN>`.
#[verifier::opaque]
pub open spec fn args_list_xml(args: Seq<PipelineArgSpec>, cmds_tn: nat, id: nat) -> (
    Seq<char>,
    nat,
) {
    let a = args_xml(args, id + 1);
    (
        "<Obj RefId=\""@ + dec_nat(id) + "\" N=\"Args\"><TNRef RefId=\""@ + dec_nat(cmds_tn)
            + "\"/><LST>"@ + a.0 + "</LST></Obj>"@,
        a.1,
    )
}

/// The five trailing merge fields of a command, all `None`, referring to
/// the `PipelineResultTypes` `<TN>` `t`.
#[verifier::opaque]
pub open spec fn merge_tail_xml(t: nat, id: nat) -> Seq<char> {
    enum_ref_xml(Some("MergeError"@), t, "None"@, 0, id) + enum_ref_xml(
        Some("MergeWarning"@),
        t,
        "None"@,
        0,
        id + 1,
    ) + enum_ref_xml(Some("MergeVerbose"@), t, "None"@, 0, id + 2) + enum_ref_xml(
        Some("MergeDebug"@),
        t,
        "None"@,
        0,
        id + 3,
    ) + enum_ref_xml(Some("MergeInformation"@), t, "None"@, 0, id + 4)
}

/// One command object: `Cmd`, `IsScript`, `UseLocalScope`, the first
/// three merge fields, `Args`, then the remaining five merge fields.
#[verifier::opaque]
pub open spec fn cmd_xml(c: PipelineCommandSpec, first: Option<nat>, cmds_tn: nat, id: nat) -> (
    Seq<char>,
    Option<nat>,
    nat,
) {
    let head = obj_open(None, id) + "<MS>"@ + s_xml(c.name@, "Cmd"@) + b_xml(
        c.is_script,
        "IsScript"@,
    ) + nil_xml("UseLocalScope"@);
    let m = cmd_merges(c.merge_errors_to_output, first, id + 1);
    let a = args_list_xml(c.args@, cmds_tn, m.2);
    (head + m.0 + a.0 + merge_tail_xml(m.1->0, a.1) + "</MS></Obj>"@, m.1, a.1 + 5)
}

/// The command objects of the `Cmds` list, in order, threading the
/// shared `PipelineResultTypes` `<TN>` id.
pub open spec fn cmds_xml(s: Seq<PipelineCommandSpec>, cmds_tn: nat, id: nat) -> (
    Seq<char>,
    Option<nat>,
    nat,
)
    decreases s.len(),
{
    if s.len() == 0 {
        (Seq::empty(), None, id)
    } else {
        let a = cmds_xml(s.drop_last(), cmds_tn, id);
        let b = cmd_xml(s.last(), a.1, cmds_tn, a.2);
        (a.0 + b.0, b.1, b.2)
    }
}

/// The type of the `Cmds` and `Args` lists.
pub open spec fn cmds_list_type() -> Seq<char> {
    "System.Collections.Generic.List`1[[System.Management.Automation.PSObject, System.Management.Automation, Version=1.0.0.0, Culture=neutral, PublicKeyToken=31bf3856ad364e35]]"@
}

/// The root object's opening and its members up to `HostInfo`: ref ids
/// `0` (root) to `5` (`HostInfo`).
pub open spec fn root_head_xml(no_input: bool, add_to_history: bool, add_invocation_info: bool) -> Seq<
    char,
> {
    "<Obj RefId=\""@ + dec_nat(0) + "\"><MS>"@ + b_xml(no_input, "NoInput"@) + enum_obj_xml(
        "ApartmentState"@,
        "System.Management.Automation.Runspaces.ApartmentState"@,
        "UNKNOWN"@,
        2,
        1,
    ) + enum_obj_xml(
        "RemoteStreamOptions"@,
        "System.Management.Automation.Runspaces.RemoteStreamOptions"@,
        if add_invocation_info {
            "AddInvocationInfo"@
        } else {
            "None"@
        },
        if add_invocation_info {
            15
        } else {
            0
        },
        3,
    ) + b_xml(add_to_history, "AddToHistory"@) + host_info_xml(5)
}

/// The `PowerShell` member: ref id `6`, the `Cmds` list's `<TN>` `7` and
/// the list itself `8`, commands from `9`; and the next free id.
pub open spec fn powershell_xml(commands: Seq<PipelineCommandSpec>) -> (Seq<char>, nat) {
    let c = cmds_xml(commands, 7, 9);
    (
        obj_open(Some("PowerShell"@), 6) + "<MS>"@ + b_xml(false, "IsNested"@) + nil_xml(
            "ExtraCmds"@,
        ) + "<Obj RefId=\""@ + dec_nat(8) + "\" N=\"Cmds\"><TN RefId=\""@ + dec_nat(7)
            + "\"><T>"@ + cmds_list_type() + "</T><T>System.Object</T></TN><LST>"@ + c.0
            + "</LST></Obj>"@ + nil_xml("History"@) + b_xml(
            false,
            "RedirectShellErrorOutputPipe"@,
        ) + "</MS></Obj>"@,
        c.2,
    )
}

/// The whole `CreatePipeline` body and the next free ref id.
pub open spec fn pipeline_xml(
    no_input: bool,
    add_to_history: bool,
    add_invocation_info: bool,
    commands: Seq<PipelineCommandSpec>,
) -> (Seq<char>, nat) {
    let p = powershell_xml(commands);
    (
        root_head_xml(no_input, add_to_history, add_invocation_info) + p.0 + b_xml(
            false,
            "IsNested"@,
        ) + "</MS></Obj>"@,
        p.1,
    )
}

} // verus!

verus! {

proof fn lemma_scalar_encoding(v: PsValue, name: Option<Seq<char>>, id: nat)
    requires
        !(v is List || v is Dict || v is Object),
    ensures
        enc_value(v, name, id) == (super::encode::enc_scalar(v, name), id),
{
}

proof fn lemma_enum_type_names(tns: Seq<String>, enum_type: Seq<char>)
    requires
        tns.len() == 4,
        tns[0]@ == enum_type,
        tns[1]@ == "System.Enum"@,
        tns[2]@ == "System.ValueType"@,
        tns[3]@ == "System.Object"@,
    ensures
        super::encode::enc_type_names(tns) == "<T>"@ + escape_spec(enum_type, false) + "</T>"@
            + "<T>"@ + escape_spec("System.Enum"@, false) + "</T>"@ + "<T>"@ + escape_spec(
            "System.ValueType"@,
            false,
        ) + "</T>"@ + "<T>"@ + escape_spec("System.Object"@, false) + "</T>"@,
{
    let t3 = tns.drop_last();
    let t2 = t3.drop_last();
    let t1 = t2.drop_last();
    let t0 = t1.drop_last();
    assert(t0.len() == 0);
    assert(t1.last() == tns[0]);
    assert(t2.last() == tns[1]);
    assert(t3.last() == tns[2]);
    assert(tns.last() == tns[3]);
    let a0 = "<T>"@ + escape_spec(enum_type, false) + "</T>"@;
    let a1 = "<T>"@ + escape_spec("System.Enum"@, false) + "</T>"@;
    let a2 = "<T>"@ + escape_spec("System.ValueType"@, false) + "</T>"@;
    let a3 = "<T>"@ + escape_spec("System.Object"@, false) + "</T>"@;
    assert(super::encode::enc_type_names(t0) == Seq::<char>::empty());
    assert(super::encode::enc_type_names(t1) =~= a0);
    assert(super::encode::enc_type_names(t2) =~= a0 + a1);
    assert(super::encode::enc_type_names(t3) =~= a0 + a1 + a2);
    assert(super::encode::enc_type_names(tns) =~= a0 + a1 + a2 + a3);
}

proof fn lemma_enum_members(props: Seq<(String, PsValue)>, x: i32, id: nat)
    requires
        props.len() == 1,
        props[0].0@ == "_value"@,
        props[0].1 == PsValue::I32(x),
    ensures
        super::encode::enc_value_prop(props, id) == (
            simple_xml("I32"@, dec_int(x as int), None, false),
            id,
        ),
        super::encode::enc_ms(props, id) == (Seq::<char>::empty(), id),
{
    lemma_scalar_encoding(PsValue::I32(x), None, id);
    assert(super::encode::enc_value_prop(props, id) == super::encode::enc_bare(PsValue::I32(x), id));
    assert(!super::encode::has_member(props));
}

#[verifier::rlimit(40)]
proof fn lemma_enum_object(
    o: super::value::PsObject,
    field: Seq<char>,
    enum_type: Seq<char>,
    label: Seq<char>,
    x: i32,
    id: nat,
)
    requires
        o.type_names@.len() == 4,
        o.type_names@[0]@ == enum_type,
        o.type_names@[1]@ == "System.Enum"@,
        o.type_names@[2]@ == "System.ValueType"@,
        o.type_names@[3]@ == "System.Object"@,
        o.to_string is Some,
        o.to_string->0@ == label,
        o.properties@.len() == 1,
        o.properties@[0].0@ == "_value"@,
        o.properties@[0].1 == PsValue::I32(x),
    ensures
        super::encode::enc_object(o, Some(field), id) == (
            enum_obj_xml(field, enum_type, label, x, id),
            id + 2,
        ),
{
    reveal(enum_obj_xml);
    lemma_enum_type_names(o.type_names@, enum_type);
    lemma_enum_members(o.properties@, x, id + 2);
    let r = super::encode::enc_object(o, Some(field), id);
    assert(r.0 =~= enum_obj_xml(field, enum_type, label, x, id));
}

proof fn lemma_enum_encoding(
    v: PsValue,
    field: Seq<char>,
    enum_type: Seq<char>,
    label: Seq<char>,
    x: i32,
    id: nat,
)
    requires
        is_object_of(
            v,
            seq![enum_type, "System.Enum"@, "System.ValueType"@, "System.Object"@],
            Some(label),
            seq![("_value"@, PsValue::I32(x))],
        ),
    ensures
        enc_value(v, Some(field), id) == (enum_obj_xml(field, enum_type, label, x, id), id + 2),
{
    let o = v->Object_0;
    let ghost tn_expected = seq![enum_type, "System.Enum"@, "System.ValueType"@, "System.Object"@];
    assert(o.type_names@[0]@ == tn_expected[0]);
    assert(o.type_names@[1]@ == tn_expected[1]);
    assert(o.type_names@[2]@ == tn_expected[2]);
    assert(o.type_names@[3]@ == tn_expected[3]);
    let ghost pv = seq![("_value"@, PsValue::I32(x))];
    assert(o.properties@[0].0@ == pv[0].0);
    assert(o.properties@[0].1 == pv[0].1);
    lemma_enum_object(o, field, enum_type, label, x, id);
}

proof fn lemma_host_info_encoding(v: PsValue, id: nat)
    requires
        is_object_of(
            v,
            Seq::empty(),
            None,
            seq![
                ("_isHostNull"@, PsValue::Bool(true)),
                ("_isHostUINull"@, PsValue::Bool(true)),
                ("_isHostRawUINull"@, PsValue::Bool(true)),
                ("_useRunspaceHost"@, PsValue::Bool(true)),
            ],
        ),
    ensures
        enc_value(v, Some("HostInfo"@), id) == (host_info_xml(id), id + 1),
{
    reveal(host_info_xml);
    reveal_strlit("_value");
    reveal_strlit("_isHostNull");
    reveal_strlit("_isHostUINull");
    reveal_strlit("_isHostRawUINull");
    reveal_strlit("_useRunspaceHost");
    let o = v->Object_0;
    let props = o.properties@;
    assert(props[0].0@ == "_isHostNull"@);
    assert(props[1].0@ == "_isHostUINull"@);
    assert(props[2].0@ == "_isHostRawUINull"@);
    assert(props[3].0@ == "_useRunspaceHost"@);
    assert("_value"@.len() == 6);
    assert("_isHostNull"@ != "_value"@);
    assert("_isHostUINull"@ != "_value"@);
    assert("_isHostRawUINull"@ != "_value"@);
    assert("_useRunspaceHost"@ != "_value"@);
    assert(super::encode::has_member(props));
    let p1 = props.subrange(1, 4);
    let p2 = p1.subrange(1, 3);
    let p3 = p2.subrange(1, 2);
    let p4 = p3.subrange(1, 1);
    assert(p1[0] == props[1] && p2[0] == props[2] && p3[0] == props[3] && p4.len() == 0);
    assert(super::encode::enc_value_prop(p4, id + 1) == (Seq::<char>::empty(), id + 1));
    assert(super::encode::enc_value_prop(p3, id + 1) == (Seq::<char>::empty(), id + 1));
    assert(super::encode::enc_value_prop(p2, id + 1) == (Seq::<char>::empty(), id + 1));
    assert(super::encode::enc_value_prop(p1, id + 1) == (Seq::<char>::empty(), id + 1));
    assert(super::encode::enc_value_prop(props, id + 1) == (Seq::<char>::empty(), id + 1));
    let q3 = props.subrange(0, 3);
    let q2 = q3.subrange(0, 2);
    let q1 = q2.subrange(0, 1);
    let q0 = q1.subrange(0, 0);
    assert(q3[2] == props[2] && q2[1] == props[1] && q1[0] == props[0] && q0.len() == 0);
    lemma_scalar_encoding(PsValue::Bool(true), Some("_isHostNull"@), id + 1);
    lemma_scalar_encoding(PsValue::Bool(true), Some("_isHostUINull"@), id + 1);
    lemma_scalar_encoding(PsValue::Bool(true), Some("_isHostRawUINull"@), id + 1);
    lemma_scalar_encoding(PsValue::Bool(true), Some("_useRunspaceHost"@), id + 1);
    assert(super::encode::enc_props(q0, id + 1) == (Seq::<char>::empty(), id + 1));
    assert(super::encode::enc_props(q1, id + 1) == (b_xml(true, "_isHostNull"@), id + 1));
    assert(super::encode::enc_props(q2, id + 1) == (b_xml(true, "_isHostNull"@) + b_xml(true, "_isHostUINull"@), id + 1));
    assert(super::encode::enc_props(q3, id + 1) == (b_xml(true, "_isHostNull"@) + b_xml(true, "_isHostUINull"@) + b_xml(true, "_isHostRawUINull"@), id + 1));
    assert(props.subrange(0, 3) == q3);
    let mp = super::encode::enc_props(props, id + 1);
    assert(mp.0 == b_xml(true, "_isHostNull"@) + b_xml(true, "_isHostUINull"@) + b_xml(true, "_isHostRawUINull"@) + b_xml(true, "_useRunspaceHost"@));
    let r = enc_value(v, Some("HostInfo"@), id);
    assert(r == super::encode::enc_object(o, Some("HostInfo"@), id));
    assert(r.0 =~= host_info_xml(id));
}

} // verus!

verus! {

/// The view of an optional ref id.
pub open spec fn opt_id(o: Option<u32>) -> Option<nat> {
    match o {
        Some(x) => Some(x as nat),
        None => None,
    }
}

/// Write a .NET enum `<Obj>` with a full `<TN>` type-name block; returns
/// the ref id of the `<TN>` so that later siblings can refer to it.
fn write_enum_first_in_group(
    out: &mut String,
    name: Option<&str>,
    enum_type: &str,
    to_string: &str,
    value: i32,
    alloc: &mut RefIdAllocator,
) -> (tn: u32)
    requires
        old(alloc).peek() + 2 <= u32::MAX,
    ensures
        final(out)@ == old(out)@ + enum_first_xml(
            opt_view(name),
            enum_type@,
            to_string@,
            value,
            old(alloc).peek(),
        ),
        tn == old(alloc).peek() + 1,
        final(alloc).peek() == old(alloc).peek() + 2,
{
    reveal(enum_first_xml);
    let ghost start = out@;
    let ghost id = alloc.peek();
    open_obj(out, name, alloc);
    let tn_id = alloc.next();
    out.append("<TN RefId=\"");
    push_decimal_u64(out, tn_id as u64);
    out.append("\">");
    out.append("<T>");
    push_escaped(out, enum_type, false);
    out.append("</T><T>System.Enum</T><T>System.ValueType</T><T>System.Object</T>");
    out.append("</TN>");
    out.append("<ToString>");
    push_escaped(out, to_string, false);
    out.append("</ToString>");
    out.append("<I32>");
    push_decimal_i64(out, value as i64);
    out.append("</I32>");
    out.append("</Obj>");
    assert(out@ =~= start + enum_first_xml(opt_view(name), enum_type@, to_string@, value, id));
    tn_id
}

/// Write a .NET enum `<Obj>` whose type names are a `<TNRef>` to an
/// already written `<TN>`.
fn write_enum_with_tnref(
    out: &mut String,
    name: Option<&str>,
    tn_ref_id: u32,
    to_string: &str,
    value: i32,
    alloc: &mut RefIdAllocator,
)
    requires
        old(alloc).peek() < u32::MAX,
    ensures
        final(out)@ == old(out)@ + enum_ref_xml(
            opt_view(name),
            tn_ref_id as nat,
            to_string@,
            value,
            old(alloc).peek(),
        ),
        final(alloc).peek() == old(alloc).peek() + 1,
{
    reveal(enum_ref_xml);
    let ghost start = out@;
    let ghost id = alloc.peek();
    open_obj(out, name, alloc);
    out.append("<TNRef RefId=\"");
    push_decimal_u64(out, tn_ref_id as u64);
    out.append("\"/>");
    out.append("<ToString>");
    push_escaped(out, to_string, false);
    out.append("</ToString>");
    out.append("<I32>");
    push_decimal_i64(out, value as i64);
    out.append("</I32>");
    out.append("</Obj>");
    assert(out@ =~= start + enum_ref_xml(opt_view(name), tn_ref_id as nat, to_string@, value, id));
}

/// One `PipelineResultTypes` merge field: the first in the document gets
/// the `<TN>`, later ones a `<TNRef>` to it.
fn write_merge(
    out: &mut String,
    field: &str,
    label: &str,
    value: i32,
    first: Option<u32>,
    alloc: &mut RefIdAllocator,
) -> (r: Option<u32>)
    requires
        old(alloc).peek() + 2 <= u32::MAX,
    ensures
        final(out)@ == old(out)@ + merge_xml(field@, label@, value, opt_id(first), old(alloc).peek()).0,
        opt_id(r) == merge_xml(field@, label@, value, opt_id(first), old(alloc).peek()).1,
        final(alloc).peek() == merge_xml(field@, label@, value, opt_id(first), old(alloc).peek()).2,
        r is Some,
{
    match first {
        Some(tn_ref) => {
            write_enum_with_tnref(out, Some(field), tn_ref, label, value, alloc);
            Some(tn_ref)
        },
        None => {
            let tn_id = write_enum_first_in_group(
                out,
                Some(field),
                "System.Management.Automation.Runspaces.PipelineResultTypes",
                label,
                value,
                alloc,
            );
            Some(tn_id)
        },
    }
}

proof fn lemma_arg_mono(arg: PipelineArgSpec, id: nat)
    ensures
        arg_xml(arg, id).1 >= id + 1,
{
    match arg {
        PipelineArgSpec::Named { name, value } => {
            super::encode::lemma_enc_value_mono(*value, Some("V"@), id + 1);
        },
        PipelineArgSpec::Positional(value) => {
            super::encode::lemma_enc_value_mono(*value, Some("V"@), id + 1);
        },
        PipelineArgSpec::Switch(name) => {},
    }
}

proof fn lemma_args_prefix(s: Seq<PipelineArgSpec>, i: int, id: nat)
    requires
        0 <= i <= s.len(),
    ensures
        id <= args_xml(s.subrange(0, i), id).1 <= args_xml(s, id).1,
    decreases s.len(),
{
    if s.len() > 0 {
        if i == s.len() {
            assert(s.subrange(0, i) =~= s);
            lemma_args_prefix(s.drop_last(), i - 1, id);
            lemma_arg_mono(s.last(), args_xml(s.drop_last(), id).1);
        } else {
            lemma_args_prefix(s.drop_last(), i, id);
            assert(s.drop_last().subrange(0, i) =~= s.subrange(0, i));
            lemma_arg_mono(s.last(), args_xml(s.drop_last(), id).1);
        }
    }
}

/// Write one argument object of a command.
fn write_arg(out: &mut String, arg: &PipelineArgSpec, alloc: &mut RefIdAllocator)
    requires
        arg_xml(*arg, old(alloc).peek()).1 <= u32::MAX,
    ensures
        final(out)@ == old(out)@ + arg_xml(*arg, old(alloc).peek()).0,
        final(alloc).peek() == arg_xml(*arg, old(alloc).peek()).1,
{
    let ghost start = out@;
    let ghost id = alloc.peek();
    proof {
        lemma_arg_mono(*arg, id);
    }
    open_obj(out, None, alloc);
    out.append("<MS>");
    let ghost mid = out@;
    match arg {
        PipelineArgSpec::Named { name, value } => {
            write_str(out, name, "N", alloc);
            write_value_with(out, value, Some("V"), alloc);
            assert(out@ =~= mid + (s_xml(name@, "N"@) + enc_value(**value, Some("V"@), id + 1).0));
        },
        PipelineArgSpec::Positional(value) => {
            write_nil(out, "N", alloc);
            write_value_with(out, value, Some("V"), alloc);
            assert(out@ =~= mid + (nil_xml("N"@) + enc_value(**value, Some("V"@), id + 1).0));
        },
        PipelineArgSpec::Switch(name) => {
            write_str(out, name, "N", alloc);
            write_bool(out, true, "V", alloc);
            assert(out@ =~= mid + (s_xml(name@, "N"@) + b_xml(true, "V"@)));
        },
    }
    out.append("</MS></Obj>");
    assert(out@ =~= start + arg_xml(*arg, id).0);
}

} // verus!

verus! {

proof fn lemma_merges_facts(merge_errors: bool, first: Option<nat>, id: nat)
    ensures
        cmd_merges(merge_errors, first, id).1 is Some,
        id + 3 <= cmd_merges(merge_errors, first, id).2 <= id + 4,
{
    reveal(cmd_merges);
}

proof fn lemma_args_list_mono(args: Seq<PipelineArgSpec>, cmds_tn: nat, id: nat)
    ensures
        args_list_xml(args, cmds_tn, id).1 >= id + 1,
{
    reveal(args_list_xml);
    lemma_args_prefix(args, 0, id + 1);
    assert(args.subrange(0, 0) =~= Seq::<PipelineArgSpec>::empty());
}

proof fn lemma_cmd_mono(c: PipelineCommandSpec, first: Option<nat>, cmds_tn: nat, id: nat)
    ensures
        cmd_xml(c, first, cmds_tn, id).2 >= id + 1,
        cmd_xml(c, first, cmds_tn, id).1 is Some,
{
    reveal(cmd_xml);
    let m = cmd_merges(c.merge_errors_to_output, first, id + 1);
    lemma_merges_facts(c.merge_errors_to_output, first, id + 1);
    lemma_args_list_mono(c.args@, cmds_tn, m.2);
}

proof fn lemma_cmds_prefix(s: Seq<PipelineCommandSpec>, i: int, cmds_tn: nat, id: nat)
    requires
        0 <= i <= s.len(),
    ensures
        id <= cmds_xml(s.subrange(0, i), cmds_tn, id).2 <= cmds_xml(s, cmds_tn, id).2,
    decreases s.len(),
{
    if s.len() > 0 {
        let a = cmds_xml(s.drop_last(), cmds_tn, id);
        lemma_cmd_mono(s.last(), a.1, cmds_tn, a.2);
        if i == s.len() {
            assert(s.subrange(0, i) =~= s);
            lemma_cmds_prefix(s.drop_last(), i - 1, cmds_tn, id);
        } else {
            lemma_cmds_prefix(s.drop_last(), i, cmds_tn, id);
            assert(s.drop_last().subrange(0, i) =~= s.subrange(0, i));
        }
    }
}

/// Write the three leading merge fields of a command.
fn write_merges(
    out: &mut String,
    merge_errors: bool,
    first: Option<u32>,
    alloc: &mut RefIdAllocator,
) -> (r: Option<u32>)
    requires
        old(alloc).peek() + 6 <= u32::MAX,
    ensures
        final(out)@ == old(out)@ + cmd_merges(merge_errors, opt_id(first), old(alloc).peek()).0,
        opt_id(r) == cmd_merges(merge_errors, opt_id(first), old(alloc).peek()).1,
        final(alloc).peek() == cmd_merges(merge_errors, opt_id(first), old(alloc).peek()).2,
{
    reveal(cmd_merges);
    let ghost start = out@;
    let r1 = if merge_errors {
        write_merge(out, "MergeMyResult", "Error", 2, first, alloc)
    } else {
        write_merge(out, "MergeMyResult", "None", 0, first, alloc)
    };
    let ghost s1 = out@;
    let r2 = if merge_errors {
        write_merge(out, "MergeToResult", "Output", 1, r1, alloc)
    } else {
        write_merge(out, "MergeToResult", "None", 0, r1, alloc)
    };
    let ghost s2 = out@;
    let r3 = write_merge(out, "MergePreviousResults", "None", 0, r2, alloc);
    assert(out@ =~= start + (s1.subrange(start.len() as int, s1.len() as int) + s2.subrange(
        s1.len() as int,
        s2.len() as int,
    ) + out@.subrange(s2.len() as int, out@.len() as int)));
    r3
}

/// Write the `Args` list of a command.
fn write_args_list(
    out: &mut String,
    args: &Vec<PipelineArgSpec>,
    cmds_tn: u32,
    alloc: &mut RefIdAllocator,
)
    requires
        args_list_xml(args@, cmds_tn as nat, old(alloc).peek()).1 <= u32::MAX,
    ensures
        final(out)@ == old(out)@ + args_list_xml(args@, cmds_tn as nat, old(alloc).peek()).0,
        final(alloc).peek() == args_list_xml(args@, cmds_tn as nat, old(alloc).peek()).1,
{
    reveal(args_list_xml);
    let ghost start = out@;
    let ghost id = alloc.peek();
    let ghost base = id + 1;
    let ghost a = args_xml(args@, base);
    proof {
        lemma_args_prefix(args@, 0, base);
    }
    out.append("<Obj RefId=\"");
    let args_id = alloc.next();
    push_decimal_u64(out, args_id as u64);
    out.append("\" N=\"Args\"><TNRef RefId=\"");
    push_decimal_u64(out, cmds_tn as u64);
    out.append("\"/><LST>");
    let ghost args_start = out@;
    proof {
        assert(args@.subrange(0, 0) =~= Seq::<PipelineArgSpec>::empty());
    }
    let mut j: usize = 0;
    while j < args.len()
        invariant
            0 <= j <= args@.len(),
            out@ == args_start + args_xml(args@.subrange(0, j as int), base).0,
            alloc.peek() == args_xml(args@.subrange(0, j as int), base).1,
            a == args_xml(args@, base),
            a.1 <= u32::MAX,
        decreases args@.len() - j,
    {
        proof {
            lemma_args_prefix(args@, j + 1, base);
            assert(args@.subrange(0, j + 1).drop_last() =~= args@.subrange(0, j as int));
        }
        write_arg(out, &args[j], alloc);
        assert(out@ =~= args_start + args_xml(args@.subrange(0, j + 1), base).0);
        j = j + 1;
    }
    proof {
        assert(args@.subrange(0, j as int) =~= args@);
    }
    out.append("</LST></Obj>");
    assert(out@ =~= start + args_list_xml(args@, cmds_tn as nat, id).0);
}

/// Write the five trailing merge fields of a command.
fn write_merge_tail(out: &mut String, tn_ref: u32, alloc: &mut RefIdAllocator)
    requires
        old(alloc).peek() + 5 <= u32::MAX,
    ensures
        final(out)@ == old(out)@ + merge_tail_xml(tn_ref as nat, old(alloc).peek()),
        final(alloc).peek() == old(alloc).peek() + 5,
{
    reveal(merge_tail_xml);
    let ghost start = out@;
    let ghost id = alloc.peek();
    write_enum_with_tnref(out, Some("MergeError"), tn_ref, "None", 0, alloc);
    write_enum_with_tnref(out, Some("MergeWarning"), tn_ref, "None", 0, alloc);
    write_enum_with_tnref(out, Some("MergeVerbose"), tn_ref, "None", 0, alloc);
    write_enum_with_tnref(out, Some("MergeDebug"), tn_ref, "None", 0, alloc);
    write_enum_with_tnref(out, Some("MergeInformation"), tn_ref, "None", 0, alloc);
    assert(out@ =~= start + merge_tail_xml(tn_ref as nat, id));
}

/// Write the opening of a command object and its `Cmd`, `IsScript` and
/// `UseLocalScope` members.
fn write_cmd_head(out: &mut String, c: &PipelineCommandSpec, alloc: &mut RefIdAllocator)
    requires
        old(alloc).peek() < u32::MAX,
    ensures
        final(out)@ == old(out)@ + obj_open(None, old(alloc).peek()) + "<MS>"@ + s_xml(
            c.name@,
            "Cmd"@,
        ) + b_xml(c.is_script, "IsScript"@) + nil_xml("UseLocalScope"@),
        final(alloc).peek() == old(alloc).peek() + 1,
{
    let ghost start = out@;
    let ghost id = alloc.peek();
    open_obj(out, None, alloc);
    out.append("<MS>");
    write_str(out, c.name, "Cmd", alloc);
    write_bool(out, c.is_script, "IsScript", alloc);
    write_nil(out, "UseLocalScope", alloc);
}

/// Write one command object of the `Cmds` list.
fn write_command(
    out: &mut String,
    c: &PipelineCommandSpec,
    first: Option<u32>,
    cmds_tn: u32,
    alloc: &mut RefIdAllocator,
) -> (r: Option<u32>)
    requires
        cmd_xml(*c, opt_id(first), cmds_tn as nat, old(alloc).peek()).2 <= u32::MAX,
    ensures
        final(out)@ == old(out)@ + cmd_xml(*c, opt_id(first), cmds_tn as nat, old(alloc).peek()).0,
        opt_id(r) == cmd_xml(*c, opt_id(first), cmds_tn as nat, old(alloc).peek()).1,
        final(alloc).peek() == cmd_xml(*c, opt_id(first), cmds_tn as nat, old(alloc).peek()).2,
{
    reveal(cmd_xml);
    let ghost start = out@;
    let ghost id = alloc.peek();
    let ghost m = cmd_merges(c.merge_errors_to_output, opt_id(first), id + 1);
    let ghost al = args_list_xml(c.args@, cmds_tn as nat, m.2);
    proof {
        lemma_merges_facts(c.merge_errors_to_output, opt_id(first), id + 1);
        lemma_args_list_mono(c.args@, cmds_tn as nat, m.2);
        assert(al.1 + 5 <= u32::MAX);
    }
    write_cmd_head(out, c, alloc);
    let r = write_merges(out, c.merge_errors_to_output, first, alloc);
    write_args_list(out, &c.args, cmds_tn, alloc);
    let tn_ref = match r {
        Some(t) => t,
        None => 0,
    };
    write_merge_tail(out, tn_ref, alloc);
    out.append("</MS></Obj>");
    assert(out@ =~= start + cmd_xml(*c, opt_id(first), cmds_tn as nat, id).0);
    r
}

} // verus!

verus! {

/// Write a boolean member.
fn write_bool(out: &mut String, b: bool, field: &str, alloc: &mut RefIdAllocator)
    ensures
        final(out)@ == old(out)@ + b_xml(b, field@),
        final(alloc).peek() == old(alloc).peek(),
{
    proof {
        lemma_scalar_encoding(PsValue::Bool(b), Some(field@), alloc.peek());
        alloc.lemma_peek_bound();
    }
    write_value_with(out, &PsValue::Bool(b), Some(field), alloc);
}

/// Write a `<Nil>` member.
fn write_nil(out: &mut String, field: &str, alloc: &mut RefIdAllocator)
    ensures
        final(out)@ == old(out)@ + nil_xml(field@),
        final(alloc).peek() == old(alloc).peek(),
{
    proof {
        lemma_scalar_encoding(PsValue::Null, Some(field@), alloc.peek());
        alloc.lemma_peek_bound();
    }
    write_value_with(out, &PsValue::Null, Some(field), alloc);
}

/// Write a string member.
fn write_str(out: &mut String, text: &str, field: &str, alloc: &mut RefIdAllocator)
    ensures
        final(out)@ == old(out)@ + s_xml(text@, field@),
        final(alloc).peek() == old(alloc).peek(),
{
    let v = PsValue::String(string_of(text));
    proof {
        lemma_scalar_encoding(v, Some(field@), alloc.peek());
        alloc.lemma_peek_bound();
    }
    write_value_with(out, &v, Some(field), alloc);
}

/// Write an enum value built by [`ps_enum`] under `field`.
fn write_enum_value(
    out: &mut String,
    field: &str,
    enum_type: &str,
    label: &str,
    value: i32,
    alloc: &mut RefIdAllocator,
)
    requires
        old(alloc).peek() + 2 <= u32::MAX,
    ensures
        final(out)@ == old(out)@ + enum_obj_xml(field@, enum_type@, label@, value, old(alloc).peek()),
        final(alloc).peek() == old(alloc).peek() + 2,
{
    let v = ps_enum(enum_type, label, value);
    proof {
        lemma_enum_encoding(v, field@, enum_type@, label@, value, alloc.peek());
    }
    write_value_with(out, &v, Some(field), alloc);
}

/// Write the null `HostInfo` object built by [`ps_host_info_null`].
fn write_host_info(out: &mut String, alloc: &mut RefIdAllocator)
    requires
        old(alloc).peek() < u32::MAX,
    ensures
        final(out)@ == old(out)@ + host_info_xml(old(alloc).peek()),
        final(alloc).peek() == old(alloc).peek() + 1,
{
    let host = ps_host_info_null();
    proof {
        lemma_host_info_encoding(host, alloc.peek());
    }
    write_value_with(out, &host, Some("HostInfo"), alloc);
}

/// Write the root object's opening and its members up to `HostInfo`.
fn write_root_head(
    out: &mut String,
    no_input: bool,
    add_to_history: bool,
    add_invocation_info: bool,
    alloc: &mut RefIdAllocator,
)
    requires
        old(alloc).peek() == 0,
    ensures
        final(out)@ == old(out)@ + root_head_xml(no_input, add_to_history, add_invocation_info),
        final(alloc).peek() == 6,
{
    let ghost start = out@;
    out.append("<Obj RefId=\"");
    let root = alloc.next();
    push_decimal_u64(out, root as u64);
    out.append("\"><MS>");
    write_bool(out, no_input, "NoInput", alloc);
    write_enum_value(
        out,
        "ApartmentState",
        "System.Management.Automation.Runspaces.ApartmentState",
        "UNKNOWN",
        2,
        alloc,
    );
    let (so_name, so_val) = if add_invocation_info {
        ("AddInvocationInfo", 15i32)
    } else {
        ("None", 0i32)
    };
    write_enum_value(
        out,
        "RemoteStreamOptions",
        "System.Management.Automation.Runspaces.RemoteStreamOptions",
        so_name,
        so_val,
        alloc,
    );
    write_bool(out, add_to_history, "AddToHistory", alloc);
    write_host_info(out, alloc);
    assert(out@ =~= start + root_head_xml(no_input, add_to_history, add_invocation_info));
}

/// Write the `PowerShell` member with its `Cmds` list.
#[verifier::rlimit(50)]
fn write_powershell(out: &mut String, commands: &[PipelineCommandSpec], alloc: &mut RefIdAllocator)
    requires
        old(alloc).peek() == 6,
        powershell_xml(commands@).1 <= u32::MAX,
    ensures
        final(out)@ == old(out)@ + powershell_xml(commands@).0,
        final(alloc).peek() == powershell_xml(commands@).1,
{
    let ghost start = out@;
    let ghost total = cmds_xml(commands@, 7, 9);
    proof {
        lemma_cmds_prefix(commands@, 0, 7, 9);
        assert(commands@.subrange(0, 0) =~= Seq::<PipelineCommandSpec>::empty());
    }
    open_obj(out, Some("PowerShell"), alloc);
    out.append("<MS>");
    write_bool(out, false, "IsNested", alloc);
    write_nil(out, "ExtraCmds", alloc);
    let cmds_tn = alloc.next();
    let cmds_obj = alloc.next();
    out.append("<Obj RefId=\"");
    push_decimal_u64(out, cmds_obj as u64);
    out.append("\" N=\"Cmds\"><TN RefId=\"");
    push_decimal_u64(out, cmds_tn as u64);
    out.append("\"><T>");
    out.append(
        "System.Collections.Generic.List`1[[System.Management.Automation.PSObject, System.Management.Automation, Version=1.0.0.0, Culture=neutral, PublicKeyToken=31bf3856ad364e35]]",
    );
    out.append("</T><T>System.Object</T></TN><LST>");
    let ghost list_start = out@;
    let mut first_prt_tn: Option<u32> = None;
    let mut i: usize = 0;
    while i < commands.len()
        invariant
            0 <= i <= commands@.len(),
            cmds_tn == 7,
            out@ == list_start + cmds_xml(commands@.subrange(0, i as int), 7, 9).0,
            opt_id(first_prt_tn) == cmds_xml(commands@.subrange(0, i as int), 7, 9).1,
            alloc.peek() == cmds_xml(commands@.subrange(0, i as int), 7, 9).2,
            total == cmds_xml(commands@, 7, 9),
            total.2 <= u32::MAX,
        decreases commands@.len() - i,
    {
        proof {
            lemma_cmds_prefix(commands@, i + 1, 7, 9);
            assert(commands@.subrange(0, i + 1).drop_last() =~= commands@.subrange(0, i as int));
        }
        first_prt_tn = write_command(out, &commands[i], first_prt_tn, cmds_tn, alloc);
        assert(out@ =~= list_start + cmds_xml(commands@.subrange(0, i + 1), 7, 9).0);
        i = i + 1;
    }
    proof {
        assert(commands@.subrange(0, i as int) =~= commands@);
    }
    out.append("</LST></Obj>");
    write_nil(out, "History", alloc);
    write_bool(out, false, "RedirectShellErrorOutputPipe", alloc);
    out.append("</MS></Obj>");
    assert(out@ =~= start + powershell_xml(commands@).0);
}

/// Build the CLIXML body of a `CreatePipeline` message: the root object
/// with `NoInput`, `ApartmentState`, `RemoteStreamOptions`,
/// `AddToHistory`, `HostInfo`, the `PowerShell` object holding the
/// `Cmds` list, and `IsNested`. The `PipelineResultTypes` `<TN>` is
/// written once, by the first merge field of the first command; every
/// later merge field refers to it by `<TNRef>`, and every `Args` list
/// refers to the `Cmds` list's `<TN>`.
pub fn build_create_pipeline_xml(
    no_input: bool,
    add_to_history: bool,
    add_invocation_info: bool,
    commands: &[PipelineCommandSpec],
) -> (r: String)
    requires
        pipeline_xml(no_input, add_to_history, add_invocation_info, commands@).1 <= u32::MAX,
    ensures
        r@ == pipeline_xml(no_input, add_to_history, add_invocation_info, commands@).0,
{
    let mut alloc = RefIdAllocator::new();
    let mut o = String::new();
    write_root_head(&mut o, no_input, add_to_history, add_invocation_info, &mut alloc);
    write_powershell(&mut o, commands, &mut alloc);
    proof {
        lemma_cmds_prefix(commands@, 0, 7, 9);
    }
    write_bool(&mut o, false, "IsNested", &mut alloc);
    o.append("</MS></Obj>");
    assert(o@ =~= pipeline_xml(no_input, add_to_history, add_invocation_info, commands@).0);
    o
}

/// The type names of a `PipelineResultTypes` value: written in full
/// under ref id `t`, or a `<TNRef>` back to the list written under `t`.
pub open spec fn result_type_names(t: nat, full: bool) -> Seq<char> {
    if full {
        "<TN RefId=\""@ + dec_nat(t) + "\">"@ + "<T>"@ + escape_spec(prt_type(), false)
            + "</T><T>System.Enum</T><T>System.ValueType</T><T>System.Object</T>"@ + "</TN>"@
    } else {
        "<TNRef RefId=\""@ + dec_nat(t) + "\"/>"@
    }
}

/// A member `field` holding the `PipelineResultTypes` value named
/// `label` with integer value `value`, as an object with ref id `k`.
pub open spec fn result_type_field(
    field: Seq<char>,
    k: nat,
    t: nat,
    full: bool,
    label: Seq<char>,
    value: int,
) -> Seq<char> {
    "<Obj N=\""@ + escape_spec(field, true) + "\" RefId=\""@ + dec_nat(k) + "\">"@
        + result_type_names(t, full) + "<ToString>"@ + escape_spec(label, false) + "</ToString>"@
        + "<I32>"@ + dec_int(value) + "</I32>"@ + "</Obj>"@
}

/// Whether `text` holds the member `field` set to the
/// `PipelineResultTypes` value `label` (`value`).
pub open spec fn holds_result_type(text: Seq<char>, field: Seq<char>, label: Seq<char>, value: int) -> bool {
    exists|i: int, k: nat, t: nat, full: bool|
        #![trigger text.subrange(i, i + result_type_field(field, k, t, full, label, value).len())]
        0 <= i && i + result_type_field(field, k, t, full, label, value).len() <= text.len()
            && text.subrange(i, i + result_type_field(field, k, t, full, label, value).len())
            == result_type_field(field, k, t, full, label, value)
}

/// A text that is `pre + x + post` holds `x` at the length of `pre`.
proof fn lemma_holds_at(
    pre: Seq<char>,
    post: Seq<char>,
    field: Seq<char>,
    k: nat,
    t: nat,
    full: bool,
    label: Seq<char>,
    value: int,
)
    ensures
        holds_result_type(
            pre + result_type_field(field, k, t, full, label, value) + post,
            field,
            label,
            value,
        ),
{
    let x = result_type_field(field, k, t, full, label, value);
    let text = pre + x + post;
    let i = pre.len() as int;
    assert(text.subrange(i, i + x.len()) =~= x);
}

/// One merge member as `merge_xml` writes it: the first one in the
/// document writes the type names in full, later ones refer back.
proof fn lemma_merge_field(field: Seq<char>, label: Seq<char>, value: i32, first: Option<nat>, id: nat)
    ensures
        merge_xml(field, label, value, first, id).1 is Some,
        merge_xml(field, label, value, first, id).0 == result_type_field(
            field,
            id,
            match first {
                Some(t) => t,
                None => id + 1,
            },
            first is None,
            label,
            value as int,
        ),
{
    reveal(enum_ref_xml);
    reveal(enum_first_xml);
    match first {
        Some(t) => {
            assert(merge_xml(field, label, value, first, id).0 =~= result_type_field(
                field,
                id,
                t,
                false,
                label,
                value as int,
            ));
        },
        None => {
            assert(merge_xml(field, label, value, first, id).0 =~= result_type_field(
                field,
                id,
                id + 1,
                true,
                label,
                value as int,
            ));
        },
    }
}

/// The merge members of every command of a `CreatePipeline` body say
/// where its errors go: a command that merges its errors into its output
/// has `MergeMyResult` set to `Error` (2) and `MergeToResult` set to
/// `Output` (1); any other command has both set to `None` (0).
#[verifier::spinoff_prover]
#[verifier::rlimit(40)]
pub proof fn lemma_command_merges(c: PipelineCommandSpec, first: Option<nat>, cmds_tn: nat, id: nat)
    ensures
        holds_result_type(
            cmd_xml(c, first, cmds_tn, id).0,
            "MergeMyResult"@,
            if c.merge_errors_to_output {
                "Error"@
            } else {
                "None"@
            },
            if c.merge_errors_to_output {
                2
            } else {
                0
            },
        ),
        holds_result_type(
            cmd_xml(c, first, cmds_tn, id).0,
            "MergeToResult"@,
            if c.merge_errors_to_output {
                "Output"@
            } else {
                "None"@
            },
            if c.merge_errors_to_output {
                1
            } else {
                0
            },
        ),
{
    let me = c.merge_errors_to_output;
    let l1 = if me {
        "Error"@
    } else {
        "None"@
    };
    let v1: i32 = if me {
        2
    } else {
        0
    };
    let l2 = if me {
        "Output"@
    } else {
        "None"@
    };
    let v2: i32 = if me {
        1
    } else {
        0
    };
    let m1 = merge_xml("MergeMyResult"@, l1, v1, first, id + 1);
    let m2 = merge_xml("MergeToResult"@, l2, v2, m1.1, m1.2);
    let m3 = merge_xml("MergePreviousResults"@, "None"@, 0, m2.1, m2.2);
    let m = cmd_merges(me, first, id + 1);
    assert(m.0 == m1.0 + m2.0 + m3.0 && m.1 == m3.1 && m.2 == m3.2) by {
        reveal(cmd_merges);
    }
    let head = obj_open(None, id) + "<MS>"@ + s_xml(c.name@, "Cmd"@) + b_xml(c.is_script, "IsScript"@)
        + nil_xml("UseLocalScope"@);
    let a = args_list_xml(c.args@, cmds_tn, m.2);
    let rest = a.0 + merge_tail_xml(m.1->0, a.1) + "</MS></Obj>"@;
    let text = cmd_xml(c, first, cmds_tn, id).0;
    assert(text == head + m.0 + rest) by {
        reveal(cmd_xml);
    }
    lemma_merge_field("MergeMyResult"@, l1, v1, first, id + 1);
    lemma_merge_field("MergeToResult"@, l2, v2, m1.1, m1.2);
    let x1 = m1.0;
    let x2 = m2.0;
    let x3 = m3.0;
    assert(text =~= head + x1 + (x2 + x3 + rest));
    assert(text =~= (head + x1) + x2 + (x3 + rest));
    let t1 = match first {
        Some(t) => t,
        None => id + 2,
    };
    lemma_holds_at(head, x2 + x3 + rest, "MergeMyResult"@, id + 1, t1, first is None, l1, v1 as int);
    lemma_holds_at(head + x1, x3 + rest, "MergeToResult"@, m1.2, m1.1->0, false, l2, v2 as int);
}

/// Whether `x` occurs in `text`.
pub open spec fn holds_text(text: Seq<char>, x: Seq<char>) -> bool {
    exists|j: int| 0 <= j && j + x.len() <= text.len() && #[trigger] text.subrange(j, j + x.len()) == x
}

/// Occurring in a part of a text is occurring in the text.
proof fn lemma_holds_text_widen(pre: Seq<char>, mid: Seq<char>, post: Seq<char>, x: Seq<char>)
    requires
        holds_text(mid, x),
    ensures
        holds_text(pre + mid + post, x),
{
    let j = choose|j: int| 0 <= j && j + x.len() <= mid.len() && #[trigger] mid.subrange(j, j + x.len()) == x;
    let text = pre + mid + post;
    let j2 = pre.len() + j;
    assert(text.subrange(j2, j2 + x.len()) =~= mid.subrange(j, j + x.len()));
}

/// The command objects of `cmds_xml` each occur in its text.
proof fn lemma_cmds_hold(s: Seq<PipelineCommandSpec>, cmds_tn: nat, id: nat, i: int)
    requires
        0 <= i < s.len(),
    ensures
        exists|f: Option<nat>, k: nat| holds_text(cmds_xml(s, cmds_tn, id).0, #[trigger] cmd_xml(s[i], f, cmds_tn, k).0),
    decreases s.len(),
{
    let a = cmds_xml(s.drop_last(), cmds_tn, id);
    let b = cmd_xml(s.last(), a.1, cmds_tn, a.2);
    assert(cmds_xml(s, cmds_tn, id).0 == a.0 + b.0);
    if i == s.len() - 1 {
        let text = a.0 + b.0;
        assert(text.subrange(a.0.len() as int, a.0.len() as int + b.0.len()) =~= b.0);
        assert(holds_text(text, cmd_xml(s[i], a.1, cmds_tn, a.2).0));
    } else {
        lemma_cmds_hold(s.drop_last(), cmds_tn, id, i);
        assert(s.drop_last()[i] == s[i]);
        let (f, k) = choose|f: Option<nat>, k: nat| holds_text(a.0, #[trigger] cmd_xml(s.drop_last()[i], f, cmds_tn, k).0);
        lemma_holds_text_widen(Seq::empty(), a.0, b.0, cmd_xml(s[i], f, cmds_tn, k).0);
        assert(Seq::<char>::empty() + a.0 + b.0 =~= a.0 + b.0);
    }
}

/// Every command of a `CreatePipeline` body is written as a command
/// object in it whose merge members say where its errors go: for a
/// command that merges its errors into its output, `MergeMyResult` is
/// `Error` (2) and `MergeToResult` is `Output` (1); for any other, both
/// are `None` (0).
pub proof fn lemma_pipeline_command_merges(
    no_input: bool,
    add_to_history: bool,
    add_invocation_info: bool,
    commands: Seq<PipelineCommandSpec>,
    i: int,
)
    requires
        0 <= i < commands.len(),
    ensures
        exists|f: Option<nat>, k: nat|
            holds_text(
                pipeline_xml(no_input, add_to_history, add_invocation_info, commands).0,
                #[trigger] cmd_xml(commands[i], f, 7, k).0,
            ) && holds_result_type(
                cmd_xml(commands[i], f, 7, k).0,
                "MergeMyResult"@,
                if commands[i].merge_errors_to_output {
                    "Error"@
                } else {
                    "None"@
                },
                if commands[i].merge_errors_to_output {
                    2
                } else {
                    0
                },
            ) && holds_result_type(
                cmd_xml(commands[i], f, 7, k).0,
                "MergeToResult"@,
                if commands[i].merge_errors_to_output {
                    "Output"@
                } else {
                    "None"@
                },
                if commands[i].merge_errors_to_output {
                    1
                } else {
                    0
                },
            ),
{
    lemma_cmds_hold(commands, 7, 9, i);
    let (f, k) = choose|f: Option<nat>, k: nat| holds_text(cmds_xml(commands, 7, 9).0, #[trigger] cmd_xml(commands[i], f, 7, k).0);
    let c = cmds_xml(commands, 7, 9);
    let p = powershell_xml(commands);
    let pre1 = obj_open(Some("PowerShell"@), 6) + "<MS>"@ + b_xml(false, "IsNested"@) + nil_xml(
        "ExtraCmds"@,
    ) + "<Obj RefId=\""@ + dec_nat(8) + "\" N=\"Cmds\"><TN RefId=\""@ + dec_nat(7) + "\"><T>"@
        + cmds_list_type() + "</T><T>System.Object</T></TN><LST>"@;
    let post1 = "</LST></Obj>"@ + nil_xml("History"@) + b_xml(false, "RedirectShellErrorOutputPipe"@)
        + "</MS></Obj>"@;
    assert(p.0 =~= pre1 + c.0 + post1);
    lemma_holds_text_widen(pre1, c.0, post1, cmd_xml(commands[i], f, 7, k).0);
    let head = root_head_xml(no_input, add_to_history, add_invocation_info);
    let tail = b_xml(false, "IsNested"@) + "</MS></Obj>"@;
    assert(pipeline_xml(no_input, add_to_history, add_invocation_info, commands).0 =~= head + p.0
        + tail);
    lemma_holds_text_widen(head, p.0, tail, cmd_xml(commands[i], f, 7, k).0);
    lemma_command_merges(commands[i], f, 7, k);
}

} // verus!
