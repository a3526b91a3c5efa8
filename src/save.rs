//! The save store's rules: the text of a new save's properties file, the JSON that
//! describes a save and the schema, and the checks made before a save is created.
use vstd::prelude::*;
use crate::errors::{status_word, ApiError};
use crate::instances::{status_in, InstanceStatus, Registry};
use crate::properties::{
    escaped, override_error, overrides_valid, first_error_is, validate_properties, value_text, PropAccess, PropDef, PropType,
    PropValue, append_prop_escaped,
};
use crate::propfile::{
    crlf, file_properties, has_override, keys_distinct, merged, override_for, read_properties,
    write_properties,
};
use crate::schema::schema_wf;
use crate::naming::{is_safe, safe_name};
use crate::config::{parse_port, parse_unsigned};
use crate::propfile::{file_property, read_property};
use crate::text::{
    append_comma_separated, append_i64, append_json_string, append_u64, comma_join, dec_int, dec_nat,
    json_string, push_char, views_of,
};

verus! {

/// The property that records the version a save was created with.
pub open spec fn version_key() -> Seq<char> {
    "mc-manager-server-version"@
}

/// The property that records when a save was last used.
pub open spec fn access_key() -> Seq<char> {
    "mc-manager-access-time"@
}

/// The text a property has by default; `now` stands for the current time.
pub open spec fn default_text(ty: PropType, now: Seq<char>) -> Seq<char> {
    match ty {
        PropType::Bool(b) => if b { "true"@ } else { "false"@ },
        PropType::String(v) => escaped(v@),
        PropType::Int(d, _, _) => dec_int(d as int),
        PropType::Uint(d, _, _) => dec_nat(d as nat),
        PropType::Datetime => now,
        PropType::IntEnum(d, _) => dec_nat(d as nat),
        PropType::StrEnum(d, m) => escaped(m@[d as int].0@),
    }
}

/// The line a property gets in a new save's file: the version for the version property,
/// else the client's value where it may write one, else the default. Hidden properties
/// get no line.
pub open spec fn generated_line(
    def: PropDef,
    version: Seq<char>,
    ov: Seq<(String, PropValue)>,
    now: Seq<char>,
) -> Seq<char> {
    if def.access == PropAccess::Hidden {
        Seq::empty()
    } else {
        def.name@ + "="@ + (if def.name@ == version_key() {
            version
        } else if def.access == PropAccess::Write && has_override(ov, def.name@) {
            value_text(override_for(ov, def.name@))
        } else {
            default_text(def.ty, now)
        }) + crlf()
    }
}

pub open spec fn generated(
    schema: Seq<PropDef>,
    version: Seq<char>,
    ov: Seq<(String, PropValue)>,
    now: Seq<char>,
) -> Seq<char>
    decreases schema.len(),
{
    if schema.len() == 0 {
        Seq::empty()
    } else {
        generated(schema.drop_last(), version, ov, now) + generated_line(schema.last(), version, ov, now)
    }
}

fn append_default(out: &mut String, ty: &PropType, now: &str)
    requires
        match *ty {
            PropType::StrEnum(d, m) => d < m@.len(),
            _ => true,
        },
    ensures
        final(out)@ == old(out)@ + default_text(*ty, now@),
{
    match ty {
        PropType::Bool(b) => {
            if *b {
                out.append("true");
            } else {
                out.append("false");
            }
        },
        PropType::String(v) => append_prop_escaped(out, v),
        PropType::Int(d, _, _) => append_i64(out, *d),
        PropType::Uint(d, _, _) => append_u64(out, *d),
        PropType::Datetime => out.append(now),
        PropType::IntEnum(d, _) => append_u64(out, *d),
        PropType::StrEnum(d, m) => append_prop_escaped(out, m[*d].0),
    }
}

/// The properties file of a new save: a line for each property that is not hidden.
pub fn generate_properties(
    schema: &Vec<PropDef>,
    version: &str,
    values: &Vec<(String, PropValue)>,
    now: &str,
) -> (r: String)
    requires
        schema_wf(schema@),
        keys_distinct(values@),
    ensures
        r@ == generated(schema@, version@, values@, now@),
{
    let version_name = String::from_str("mc-manager-server-version");
    let mut out = String::new();
    let mut i: usize = 0;
    while i < schema.len()
        invariant
            i <= schema@.len(),
            schema_wf(schema@),
            keys_distinct(values@),
            version_name@ == version_key(),
            out@ == generated(schema@.subrange(0, i as int), version@, values@, now@),
        decreases schema@.len() - i,
    {
        let def = &schema[i];
        let ghost before = out@;
        assert(schema@.subrange(0, i + 1).drop_last() =~= schema@.subrange(0, i as int));
        if def.access != PropAccess::Hidden {
            let name = String::from_str(def.name);
            out.append(def.name);
            out.append("=");
            if name == version_name {
                out.append(version);
            } else {
                let found = if def.access == PropAccess::Write {
                    crate::propfile::find_override(values, &name)
                } else {
                    None
                };
                match found {
                    Some(m) => values[m].1.to_prop_value(&mut out),
                    None => append_default(&mut out, &def.ty, now),
                }
            }
            push_char(&mut out, '\r');
            push_char(&mut out, '\n');
            assert(out@ =~= before + generated_line(*def, version@, values@, now@));
        }
        i = i + 1;
    }
    assert(schema@.subrange(0, schema@.len() as int) =~= schema@);
    out
}

/// The JSON value of a stored property: numbers and booleans as they are, text quoted.
pub open spec fn stored_json(ty: PropType, v: Seq<char>) -> Seq<char> {
    match ty {
        PropType::Bool(_) | PropType::Int(..) | PropType::Uint(..) | PropType::IntEnum(..) => v,
        _ => json_string(v),
    }
}

/// The member `"name":value` that a property adds to a save's JSON, comma first; `null`
/// where the file lacks it, nothing where it is hidden.
pub open spec fn prop_member(def: PropDef, props: Map<Seq<char>, Seq<char>>) -> Seq<char> {
    if def.access == PropAccess::Hidden {
        Seq::empty()
    } else {
        ",\""@ + def.name@ + "\":"@ + if props.contains_key(def.name@) {
            stored_json(def.ty, props[def.name@])
        } else {
            "null"@
        }
    }
}

pub open spec fn prop_members(schema: Seq<PropDef>, props: Map<Seq<char>, Seq<char>>) -> Seq<char>
    decreases schema.len(),
{
    if schema.len() == 0 {
        Seq::empty()
    } else {
        prop_members(schema.drop_last(), props) + prop_member(schema.last(), props)
    }
}

/// The start of a save's JSON: its name and its status.
pub open spec fn save_head(name: Seq<char>, status: InstanceStatus) -> Seq<char> {
    "{\"name\":"@ + json_string(name) + ",\"status\":"@ + json_string(status_word(status))
}

/// A save's JSON object: its name, its status and each visible property.
pub open spec fn save_json(
    schema: Seq<PropDef>,
    name: Seq<char>,
    status: InstanceStatus,
    props: Map<Seq<char>, Seq<char>>,
) -> Seq<char> {
    save_head(name, status) + prop_members(schema, props) + "}"@
}

/// The JSON object of a save whose properties file holds `content`.
pub fn load(schema: &Vec<PropDef>, name: &str, status: InstanceStatus, content: &str) -> (r: String)
    ensures
        r@ == save_json(schema@, name@, status, file_properties(content@)),
        r@.subrange(0, save_head(name@, status).len() as int) == save_head(name@, status),
{
    let props = read_properties(content);
    let mut out = String::from_str("{\"name\":");
    append_json_string(&mut out, name);
    out.append(",\"status\":");
    append_json_string(&mut out, status.word());
    let ghost head = out@;
    assert(head == save_head(name@, status));
    let mut i: usize = 0;
    while i < schema.len()
        invariant
            i <= schema@.len(),
            props@ == file_properties(content@),
            out@ == head + prop_members(schema@.subrange(0, i as int), props@),
        decreases schema@.len() - i,
    {
        let def = &schema[i];
        let ghost before = out@;
        assert(schema@.subrange(0, i + 1).drop_last() =~= schema@.subrange(0, i as int));
        if def.access != PropAccess::Hidden {
            out.append(",\"");
            out.append(def.name);
            out.append("\":");
            match props.get(&String::from_str(def.name)) {
                Some(v) => {
                    match def.ty {
                        PropType::Bool(_) | PropType::Int(..) | PropType::Uint(..) | PropType::IntEnum(..) => {
                            out.append(v.as_str());
                        },
                        _ => append_json_string(&mut out, v.as_str()),
                    }
                },
                None => out.append("null"),
            }
            assert(out@ =~= before + prop_member(*def, props@));
        }
        i = i + 1;
    }
    out.append("}");
    assert(schema@.subrange(0, schema@.len() as int) =~= schema@);
    assert(out@.subrange(0, head.len() as int) =~= head);
    out
}

/// The JSON description of a property's type and default.
pub open spec fn type_json(ty: PropType) -> Seq<char> {
    match ty {
        PropType::Bool(b) => if b {
            "{\"name\":\"boolean\",\"default\":true}"@
        } else {
            "{\"name\":\"boolean\",\"default\":false}"@
        },
        PropType::String(v) => "{\"name\":\"string\",\"default\":"@ + json_string(v@) + "}"@,
        PropType::Int(d, min, max) => "{\"name\":\"integer\",\"default\":"@ + dec_int(d as int)
            + ",\"min\":"@ + dec_int(min as int) + ",\"max\":"@ + dec_int(max as int) + "}"@,
        PropType::Uint(d, min, max) => "{\"name\":\"integer\",\"default\":"@ + dec_nat(d as nat)
            + ",\"min\":"@ + dec_nat(min as nat) + ",\"max\":"@ + dec_nat(max as nat) + "}"@,
        PropType::Datetime => "{\"name\":\"string\",\"default\":\"\"}"@,
        PropType::IntEnum(d, m) => "{\"name\":\"integer-enum\",\"default\":"@ + dec_nat(d as nat)
            + ",\"members\":["@ + comma_join(m@.map_values(|l: &str| json_string(l@))) + "]}"@,
        PropType::StrEnum(d, m) => "{\"name\":\"string-enum\",\"default\":"@ + dec_nat(d as nat)
            + ",\"members\":["@ + comma_join(m@.map_values(|p: (&str, &str)| pair_json(p.0@, p.1@)))
            + "]}"@,
    }
}

/// A string enum member as a JSON array of value and label.
pub open spec fn pair_json(value: Seq<char>, label: Seq<char>) -> Seq<char> {
    "["@ + json_string(value) + ","@ + json_string(label) + "]"@
}

/// A property's member in the schema JSON; nothing for a hidden one.
pub open spec fn def_json(def: PropDef) -> Seq<char> {
    if def.access == PropAccess::Hidden {
        Seq::empty()
    } else {
        json_string(def.name@) + ":{"@ + (if def.access == PropAccess::Write {
            "\"access\":\"write\""@
        } else {
            "\"access\":\"read\""@
        }) + ",\"type\":"@ + type_json(def.ty) + ",\"label\":"@ + json_string(def.label@)
            + ",\"desc\":"@ + json_string(def.desc@) + "}"@
    }
}

/// The schema as JSON: each visible property, and the names asked for on creation.
pub open spec fn schema_json(schema: Seq<PropDef>, create: Seq<&str>) -> Seq<char> {
    "{\"schema\":{"@ + comma_join(schema.map_values(|d: PropDef| def_json(d)))
        + "},\"create_properties\":["@ + comma_join(create.map_values(|c: &str| json_string(c@)))
        + "]}"@
}

fn json_string_of(s: &str) -> (r: String)
    ensures
        r@ == json_string(s@),
{
    let mut out = String::new();
    append_json_string(&mut out, s);
    out
}

fn append_type_json(out: &mut String, ty: &PropType)
    ensures
        final(out)@ == old(out)@ + type_json(*ty),
{
    let ghost start = out@;
    match ty {
        PropType::Bool(b) => {
            if *b {
                out.append("{\"name\":\"boolean\",\"default\":true}");
            } else {
                out.append("{\"name\":\"boolean\",\"default\":false}");
            }
        },
        PropType::String(v) => {
            out.append("{\"name\":\"string\",\"default\":");
            append_json_string(out, v);
            out.append("}");
        },
        PropType::Int(d, min, max) => {
            out.append("{\"name\":\"integer\",\"default\":");
            append_i64(out, *d);
            out.append(",\"min\":");
            append_i64(out, *min);
            out.append(",\"max\":");
            append_i64(out, *max);
            out.append("}");
        },
        PropType::Uint(d, min, max) => {
            out.append("{\"name\":\"integer\",\"default\":");
            append_u64(out, *d);
            out.append(",\"min\":");
            append_u64(out, *min);
            out.append(",\"max\":");
            append_u64(out, *max);
            out.append("}");
        },
        PropType::Datetime => out.append("{\"name\":\"string\",\"default\":\"\"}"),
        PropType::IntEnum(d, m) => {
            out.append("{\"name\":\"integer-enum\",\"default\":");
            append_u64(out, *d);
            out.append(",\"members\":[");
            let mut items: Vec<String> = Vec::new();
            let mut i: usize = 0;
            while i < m.len()
                invariant
                    i <= m@.len(),
                    items@.len() == i,
                    forall|j: int| 0 <= j < i ==> (#[trigger] items@[j])@ == json_string(m@[j]@),
                decreases m@.len() - i,
            {
                items.push(json_string_of(m[i]));
                i = i + 1;
            }
            assert(views_of(items@) =~= m@.map_values(|l: &str| json_string(l@)));
            append_comma_separated(&items, out);
            out.append("]}");
        },
        PropType::StrEnum(d, m) => {
            out.append("{\"name\":\"string-enum\",\"default\":");
            append_u64(out, *d as u64);
            out.append(",\"members\":[");
            let mut items: Vec<String> = Vec::new();
            let mut i: usize = 0;
            while i < m.len()
                invariant
                    i <= m@.len(),
                    items@.len() == i,
                    forall|j: int| 0 <= j < i ==> (#[trigger] items@[j])@ == pair_json(m@[j].0@, m@[j].1@),
                decreases m@.len() - i,
            {
                let mut item = String::from_str("[");
                append_json_string(&mut item, m[i].0);
                item.append(",");
                append_json_string(&mut item, m[i].1);
                item.append("]");
                items.push(item);
                i = i + 1;
            }
            assert(views_of(items@) =~= m@.map_values(|p: (&str, &str)| pair_json(p.0@, p.1@)));
            append_comma_separated(&items, out);
            out.append("]}");
        },
    }
    assert(out@ =~= start + type_json(*ty));
}

fn def_json_of(def: &PropDef) -> (r: String)
    ensures
        r@ == def_json(*def),
{
    let mut out = String::new();
    if def.access != PropAccess::Hidden {
        append_json_string(&mut out, def.name);
        out.append(":{");
        if def.access == PropAccess::Write {
            out.append("\"access\":\"write\"");
        } else {
            out.append("\"access\":\"read\"");
        }
        out.append(",\"type\":");
        append_type_json(&mut out, &def.ty);
        out.append(",\"label\":");
        append_json_string(&mut out, def.label);
        out.append(",\"desc\":");
        append_json_string(&mut out, def.desc);
        out.append("}");
    }
    assert(out@ =~= def_json(*def));
    out
}

/// The schema as JSON, for clients: each visible property with its access, type,
/// default, label and description, then the names asked for when a save is created.
pub fn schema(props: &Vec<PropDef>, create: &Vec<&'static str>) -> (r: String)
    ensures
        r@ == schema_json(props@, create@),
{
    let mut out = String::from_str("{\"schema\":{");
    let mut items: Vec<String> = Vec::new();
    let mut i: usize = 0;
    while i < props.len()
        invariant
            i <= props@.len(),
            items@.len() == i,
            forall|j: int| 0 <= j < i ==> (#[trigger] items@[j])@ == def_json(props@[j]),
        decreases props@.len() - i,
    {
        items.push(def_json_of(&props[i]));
        i = i + 1;
    }
    assert(views_of(items@) =~= props@.map_values(|d: PropDef| def_json(d)));
    append_comma_separated(&items, &mut out);
    out.append("},\"create_properties\":[");
    let mut names: Vec<String> = Vec::new();
    let mut i: usize = 0;
    while i < create.len()
        invariant
            i <= create@.len(),
            names@.len() == i,
            forall|j: int| 0 <= j < i ==> (#[trigger] names@[j])@ == json_string(create@[j]@),
        decreases create@.len() - i,
    {
        names.push(json_string_of(create[i]));
        i = i + 1;
    }
    assert(views_of(names@) =~= create@.map_values(|c: &str| json_string(c@)));
    append_comma_separated(&names, &mut out);
    out.append("]}");
    out
}

/// Relies on chrono's `Local::now`, formatted as `%Y-%m-%d %H:%M:%S`: the current local
/// time. Nothing is promised of the value.
#[verifier::external_body]
pub fn now() -> String {
    chrono::Local::now().format("%Y-%m-%d %H:%M:%S").to_string()
}

/// What creating a save comes to: the text of its properties file, or the first check
/// that fails. `existing` is the outcome of looking for the save's directory and
/// `version_present` whether the version's server image is installed.
pub open spec fn create_checks(
    name: Seq<char>,
    existing: Result<(), ApiError>,
    version_present: bool,
) -> Option<ApiError> {
    if !safe_name(name) {
        Some(ApiError::BadName)
    } else {
        match existing {
            Ok(()) => Some(ApiError::AlreadyExists),
            Err(ApiError::NotFound) => if version_present {
                None
            } else {
                Some(ApiError::VersionNotFound)
            },
            Err(e) => Some(e),
        }
    }
}

/// The properties file of a new save, after the checks: the name must be safe, no save
/// may have it, the version must be installed and the overrides must pass the schema.
pub fn create(
    schema: &Vec<PropDef>,
    name: &str,
    version: &str,
    values: &Vec<(String, PropValue)>,
    existing: Result<(), ApiError>,
    version_present: bool,
    now: &str,
) -> (r: Result<String, ApiError>)
    requires
        schema_wf(schema@),
        keys_distinct(values@),
    ensures
        create_checks(name@, existing, version_present) matches Some(e) ==> r == Err::<String, ApiError>(e),
        create_checks(name@, existing, version_present) is None ==> {
            &&& (r is Ok <==> overrides_valid(schema@, values@))
            &&& (r matches Ok(t) ==> t@ == generated(schema@, version@, values@, now@))
            &&& (r matches Err(e) ==> first_error_is(schema@, values@, e))
        },
{
    if !is_safe(name) {
        return Err(ApiError::BadName);
    }
    match existing {
        Ok(()) => {
            return Err(ApiError::AlreadyExists);
        },
        Err(ApiError::NotFound) => {},
        Err(e) => {
            return Err(e);
        },
    }
    if !version_present {
        return Err(ApiError::VersionNotFound);
    }
    validate_properties(schema, values)?;
    Ok(generate_properties(schema, version, values, now))
}

/// The new text of a save's properties file once the overrides, which must pass the
/// schema, are written into it.
pub fn modify(schema: &Vec<PropDef>, content: &str, values: &Vec<(String, PropValue)>) -> (r: Result<String, ApiError>)
    requires
        keys_distinct(values@),
    ensures
        r is Ok <==> overrides_valid(schema@, values@),
        r matches Ok(t) ==> t@ == merged(content@, values@),
        r matches Err(e) ==> first_error_is(schema@, values@, e),
{
    validate_properties(schema, values)?;
    Ok(write_properties(content, values))
}

/// The text of a save's properties file with its access time set to `now`.
pub fn access_at(content: &str, now: String) -> (r: String)
    ensures
        exists|k: String| k@ == access_key() && r@ == merged(content@, seq![(k, PropValue::String(now))]),
{
    let mut values: Vec<(String, PropValue)> = Vec::new();
    let k = String::from_str("mc-manager-access-time");
    values.push((k, PropValue::String(now)));
    let ghost v = values@;
    assert(keys_distinct(values@));
    let r = write_properties(content, &values);
    assert(values@ =~= seq![(values@[0].0, PropValue::String(now))]);
    r
}

/// The text of a save's properties file with its access time set to the current time.
pub fn access(content: &str) -> (r: String)
    ensures
        exists|k: String, t: String| k@ == access_key() && r@ == merged(content@, seq![(k, PropValue::String(t))]),
{
    access_at(content, now())
}

/// The port a save's properties file configures: `BadConfig("server-port")` when the
/// first `server-port` line is missing or its value is no port.
pub fn port_of(content: &str) -> (r: Result<u16, ApiError>)
    ensures
        match file_property(content@, "server-port"@) {
            Some(v) => match parse_unsigned(v, 0xFFFF) {
                Some(p) => r == Ok::<u16, ApiError>(p as u16),
                None => r matches Err(ApiError::BadConfig(k)) && k@ == "server-port"@,
            },
            None => r matches Err(ApiError::BadConfig(k)) && k@ == "server-port"@,
        },
{
    match read_property(content, "server-port") {
        Some(v) => match parse_port(v.as_str()) {
            Some(p) => Ok(p),
            None => Err(ApiError::BadConfig(String::from_str("server-port"))),
        },
        None => Err(ApiError::BadConfig(String::from_str("server-port"))),
    }
}

/// The list of saves as JSON: `{"saves":[...]}` around the saves' objects.
pub fn saves_json(saves: &Vec<String>) -> (r: String)
    ensures
        r@ == "{\"saves\":["@ + comma_join(views_of(saves@)) + "]}"@,
{
    let mut out = String::from_str("{\"saves\":[");
    append_comma_separated(saves, &mut out);
    out.append("]}");
    out
}

/// The JSON objects of the saves, each with its name and the registry's status for it.
pub open spec fn save_objects(
    schema: Seq<PropDef>,
    m: Map<Seq<char>, crate::instances::Instance>,
    saves: Seq<(String, String)>,
) -> Seq<Seq<char>> {
    saves.map_values(
        |e: (String, String)| save_json(schema, e.0@, status_in(m, e.0@), file_properties(e.1@)),
    )
}

/// The list of saves as JSON, one object per save given as (name, properties file text):
/// each object's name is the save's and its status is the registry's (`cold` where the
/// registry has no entry).
pub fn saves_body(schema: &Vec<PropDef>, registry: &Registry, saves: &Vec<(String, String)>) -> (r: String)
    requires
        registry.wf(),
    ensures
        r@ == "{\"saves\":["@ + comma_join(save_objects(schema@, registry@, saves@)) + "]}"@,
{
    let mut objects: Vec<String> = Vec::new();
    let mut i: usize = 0;
    while i < saves.len()
        invariant
            i <= saves@.len(),
            registry.wf(),
            objects@.len() == i,
            forall|j: int| 0 <= j < i ==> (#[trigger] objects@[j])@ == save_objects(schema@, registry@, saves@)[j],
        decreases saves@.len() - i,
    {
        let name = saves[i].0.as_str();
        let status = registry.query(name);
        objects.push(load(schema, name, status, saves[i].1.as_str()));
        i = i + 1;
    }
    assert(views_of(objects@) =~= save_objects(schema@, registry@, saves@));
    saves_json(&objects)
}

} // verus!
