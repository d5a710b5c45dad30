//! The data of markers: JSON objects whose string indices a schema resolves.
use crate::profile::resolved::{ResolvedContextSwitchMarker, ResolvedMarker};
use crate::profile::types::{RawMarkerSchema, RawMarkerSchemaField};
use crate::shared::share;
use crate::text;
use std::sync::Arc;
use vstd::prelude::*;

verus! {

/// A value in a marker's data.
#[derive(Debug)]
pub enum MarkerValue {
    Text(String),
    /// A number: its text, and its value if it is an unsigned integer.
    Number { text: String, unsigned: Option<u64> },
    /// Anything else, as JSON text.
    Other(String),
}

/// A field of a marker's data.
#[derive(Debug)]
pub struct MarkerField {
    pub key: String,
    pub value: MarkerValue,
}

/// A marker's data as JSON.
#[derive(Debug)]
pub enum MarkerJson {
    /// Not JSON.
    Invalid,
    /// JSON other than an object, as JSON text.
    Plain(String),
    Object(Vec<MarkerField>),
}

/// A value in a marker's data, as mathematics.
pub enum ValueFacts {
    Text(Seq<char>),
    Number { text: Seq<char>, unsigned: Option<u64> },
    Other(Seq<char>),
}

/// A marker's data, as mathematics.
pub enum JsonFacts {
    Invalid,
    Plain(Seq<char>),
    Object(Seq<(Seq<char>, ValueFacts)>),
}

impl MarkerValue {
    /// What the value says.
    pub open spec fn facts(self) -> ValueFacts {
        match self {
            MarkerValue::Text(s) => ValueFacts::Text(s@),
            MarkerValue::Number { text, unsigned } => ValueFacts::Number { text: text@, unsigned },
            MarkerValue::Other(s) => ValueFacts::Other(s@),
        }
    }
}

/// What a list of fields says.
pub open spec fn field_facts(s: Seq<MarkerField>) -> Seq<(Seq<char>, ValueFacts)> {
    Seq::new(s.len(), |i: int| (s[i].key@, s[i].value.facts()))
}

impl MarkerJson {
    /// What the data says.
    pub open spec fn facts(self) -> JsonFacts {
        match self {
            MarkerJson::Invalid => JsonFacts::Invalid,
            MarkerJson::Plain(s) => JsonFacts::Plain(s@),
            MarkerJson::Object(fields) => JsonFacts::Object(field_facts(fields@)),
        }
    }
}

/// How `serde_json::from_str` reads a text as a JSON value.
pub uninterp spec fn json_reading(raw: Seq<char>) -> JsonFacts;

/// `serde_json::from_str` reads a text as a JSON value. The contract names what
/// it reads: the fields of an object, each as text, number or other JSON text,
/// or the JSON text of another value.
#[verifier::external_body]
fn parse_marker_json(raw: &str) -> (r: MarkerJson)
    ensures
        r.facts() == json_reading(raw@),
{
    let field = |(key, value): (String, serde_json::Value)| {
        let value = match value {
            serde_json::Value::String(s) => MarkerValue::Text(s),
            serde_json::Value::Number(n) => MarkerValue::Number { text: n.to_string(), unsigned: n.as_u64() },
            other => MarkerValue::Other(other.to_string()),
        };
        MarkerField { key, value }
    };
    match serde_json::from_str::<serde_json::Value>(raw) {
        Err(_) => MarkerJson::Invalid,
        Ok(serde_json::Value::Object(map)) => MarkerJson::Object(map.into_iter().map(field).collect()),
        Ok(other) => MarkerJson::Plain(other.to_string()),
    }
}

/// The position of the field with a key, from `from` on.
pub open spec fn field_at(fields: Seq<(Seq<char>, ValueFacts)>, key: Seq<char>, from: int) -> Option<
    int,
>
    decreases fields.len() - from,
{
    if from < 0 || from >= fields.len() {
        None
    } else if fields[from].0 == key {
        Some(from)
    } else {
        field_at(fields, key, from + 1)
    }
}

/// The value of the field with a key.
pub open spec fn field_value(fields: Seq<(Seq<char>, ValueFacts)>, key: Seq<char>) -> Option<
    ValueFacts,
> {
    match field_at(fields, key, 0) {
        Some(i) => Some(fields[i].1),
        None => None,
    }
}

/// The schema of a marker type, from `from` on.
pub open spec fn schema_at(schemas: Seq<RawMarkerSchema>, name: Seq<char>, from: int) -> Option<int>
    decreases schemas.len() - from,
{
    if from < 0 || from >= schemas.len() {
        None
    } else if schemas[from].name@ == name {
        Some(from)
    } else {
        schema_at(schemas, name, from + 1)
    }
}

/// The fields after one field of a schema: where it is an index into the
/// string table, the string takes its place.
pub open spec fn with_string(
    fields: Seq<(Seq<char>, ValueFacts)>,
    field: RawMarkerSchemaField,
    strings: Seq<String>,
) -> Seq<(Seq<char>, ValueFacts)> {
    match (text::opt(field.format) == Some("unique-string"@), field.key) {
        (true, Some(key)) => match field_at(fields, key@, 0) {
            Some(i) => match fields[i].1 {
                ValueFacts::Number { text, unsigned: Some(index) } => if index < strings.len() {
                    fields.update(i, (fields[i].0, ValueFacts::Text(strings[index as int]@)))
                } else {
                    fields
                },
                _ => fields,
            },
            None => fields,
        },
        _ => fields,
    }
}

/// The fields after the first `n` fields of a schema.
pub open spec fn with_strings(
    fields: Seq<(Seq<char>, ValueFacts)>,
    schema: Seq<RawMarkerSchemaField>,
    strings: Seq<String>,
    n: int,
) -> Seq<(Seq<char>, ValueFacts)>
    decreases n,
{
    if n <= 0 {
        fields
    } else {
        with_string(with_strings(fields, schema, strings, n - 1), schema[n - 1], strings)
    }
}

/// The fields with every string index resolved that the schema of the
/// marker's type declares.
pub open spec fn resolved_fields(
    fields: Seq<(Seq<char>, ValueFacts)>,
    schemas: Seq<RawMarkerSchema>,
    strings: Seq<String>,
) -> Seq<(Seq<char>, ValueFacts)> {
    match field_value(fields, "type"@) {
        Some(ValueFacts::Text(name)) => match schema_at(schemas, name, 0) {
            Some(i) => with_strings(
                fields,
                schemas[i].data@,
                strings,
                schemas[i].data@.len() as int,
            ),
            None => fields,
        },
        _ => fields,
    }
}

/// The position of the field with a key.
fn find_field(fields: &Vec<MarkerField>, key: &str) -> (r: Option<usize>)
    ensures
        match r {
            Some(i) => i < fields@.len() && field_at(field_facts(fields@), key@, 0) == Some(
                i as int,
            ),
            None => field_at(field_facts(fields@), key@, 0) is None,
        },
{
    let ghost all = field_facts(fields@);
    let mut i: usize = 0;
    while i < fields.len()
        invariant
            i <= fields@.len(),
            all == field_facts(fields@),
            field_at(all, key@, 0) == field_at(all, key@, i as int),
        decreases fields@.len() - i,
    {
        assert(all[i as int].0 == fields@[i as int].key@);
        if text::text_eq(fields[i].key.as_str(), key) {
            return Some(i);
        }
        i += 1;
    }
    None
}

/// The schema of a marker type.
fn find_schema(schemas: &Vec<RawMarkerSchema>, name: &str) -> (r: Option<usize>)
    ensures
        match r {
            Some(i) => i < schemas@.len() && schema_at(schemas@, name@, 0) == Some(i as int),
            None => schema_at(schemas@, name@, 0) is None,
        },
{
    let mut i: usize = 0;
    while i < schemas.len()
        invariant
            i <= schemas@.len(),
            schema_at(schemas@, name@, 0) == schema_at(schemas@, name@, i as int),
        decreases schemas@.len() - i,
    {
        if text::text_eq(schemas[i].name.as_str(), name) {
            return Some(i);
        }
        i += 1;
    }
    None
}

/// Resolves one field of a schema.
fn resolve_field(fields: &mut Vec<MarkerField>, field: &RawMarkerSchemaField, strings: &Vec<String>)
    ensures
        field_facts(final(fields)@) == with_string(field_facts(old(fields)@), *field, strings@),
{
    let ghost all = field_facts(fields@);
    let unique: bool = match &field.format {
        Some(format) => text::text_eq(format.as_str(), "unique-string"),
        None => false,
    };
    if !unique {
        return;
    }
    let key: &String = match &field.key {
        Some(key) => key,
        None => {
            return;
        },
    };
    if let Some(i) = find_field(fields, key.as_str()) {
        assert(all[i as int] == (fields@[i as int].key@, fields@[i as int].value.facts()));
        let index: u64 = match &fields[i].value {
            MarkerValue::Number { text: _, unsigned: Some(index) } => *index,
            _ => {
                return;
            },
        };
        if index < strings.len() as u64 {
            let value = MarkerField {
                key: fields[i].key.clone(),
                value: MarkerValue::Text(strings[index as usize].clone()),
            };
            fields.set(i, value);
            assert(field_facts(fields@) =~= all.update(
                i as int,
                (all[i as int].0, ValueFacts::Text(strings@[index as int]@)),
            ));
        }
    }
}

/// Resolves the string indices that the schema of the marker's type declares.
pub fn resolve_marker_strings(
    fields: &mut Vec<MarkerField>,
    marker_schema: &Vec<RawMarkerSchema>,
    strings: &Vec<String>,
)
    ensures
        field_facts(final(fields)@) == resolved_fields(
            field_facts(old(fields)@),
            marker_schema@,
            strings@,
        ),
{
    let ghost all = field_facts(fields@);
    let position: usize = match find_field(fields, "type") {
        Some(i) => i,
        None => {
            return;
        },
    };
    assert(all[position as int] == (
        fields@[position as int].key@,
        fields@[position as int].value.facts(),
    ));
    let schema: usize = match &fields[position].value {
        MarkerValue::Text(name) => match find_schema(marker_schema, name.as_str()) {
            Some(i) => i,
            None => {
                return;
            },
        },
        _ => {
            return;
        },
    };
    let declared = &marker_schema[schema].data;
    let mut n: usize = 0;
    while n < declared.len()
        invariant
            n <= declared@.len(),
            field_facts(fields@) == with_strings(all, declared@, strings@, n as int),
        decreases declared@.len() - n,
    {
        resolve_field(fields, &declared[n], strings);
        n += 1;
    }
}

/// The text of a field that is text or a number.
pub open spec fn text_field(fields: Seq<(Seq<char>, ValueFacts)>, key: Seq<char>) -> Option<
    Seq<char>,
> {
    match field_value(fields, key) {
        Some(ValueFacts::Text(s)) => Some(s),
        Some(ValueFacts::Number { text, unsigned }) => Some(text),
        _ => None,
    }
}

/// The text of a field that is text or a number.
fn marker_string_field(data: &Vec<MarkerField>, key: &str) -> (r: Option<String>)
    ensures
        text::opt(r) == text_field(field_facts(data@), key@),
{
    let ghost all = field_facts(data@);
    match find_field(data, key) {
        Some(i) => {
            assert(all[i as int] == (data@[i as int].key@, data@[i as int].value.facts()));
            match &data[i].value {
                MarkerValue::Text(value) => Some(value.clone()),
                MarkerValue::Number { text, unsigned: _ } => Some(text.clone()),
                MarkerValue::Other(_) => None,
            }
        },
        None => None,
    }
}

/// The CPU and the reason for leaving it that the fields of an `OnCpu` marker
/// give; the reason is `unknown` where they give none.
pub open spec fn on_cpu_fields(fields: Seq<(Seq<char>, ValueFacts)>) -> Option<(Seq<char>, Seq<char>)> {
    if field_value(fields, "type"@) != Some(ValueFacts::Text("OnCpu"@)) {
        None
    } else {
        match text_field(fields, "cpu"@) {
            Some(cpu) => Some(
                (
                    cpu,
                    match text_field(fields, "outwhy"@) {
                        Some(reason) => reason,
                        None => "unknown"@,
                    },
                ),
            ),
            None => None,
        }
    }
}

/// What the data of a marker says of a context switch.
pub open spec fn context_switch_in(
    data: JsonFacts,
    schemas: Seq<RawMarkerSchema>,
    strings: Seq<String>,
) -> Option<(Seq<char>, Seq<char>)> {
    match data {
        JsonFacts::Object(fields) => on_cpu_fields(resolved_fields(fields, schemas, strings)),
        _ => None,
    }
}

/// What an optional context switch says.
pub open spec fn switch_facts(s: Option<ResolvedContextSwitchMarker>) -> Option<
    (Seq<char>, Seq<char>),
> {
    match s {
        Some(s) => Some((s.cpu@, s.switch_out_reason@)),
        None => None,
    }
}

/// A shared copy of a text, the same one for equal texts.
fn intern_marker_string(intern: &mut Vec<Arc<String>>, value: String) -> (r: Arc<String>)
    ensures
        r@ == value@,
{
    let mut i: usize = 0;
    while i < intern.len()
        invariant
            i <= intern@.len(),
        decreases intern@.len() - i,
    {
        if *intern[i] == value {
            return share(&intern[i]);
        }
        i += 1;
    }
    let fresh = Arc::new(value);
    intern.push(share(&fresh));
    fresh
}

/// What the fields of a marker say of a context switch.
pub fn read_context_switch(
    data: MarkerJson,
    marker_schema: &Vec<RawMarkerSchema>,
    strings: &Vec<String>,
    intern: &mut Vec<Arc<String>>,
) -> (r: Option<ResolvedContextSwitchMarker>)
    ensures
        switch_facts(r) == context_switch_in(data.facts(), marker_schema@, strings@),
{
    let mut fields = match data {
        MarkerJson::Object(fields) => fields,
        _ => {
            return None;
        },
    };
    resolve_marker_strings(&mut fields, marker_schema, strings);
    let ghost all = field_facts(fields@);
    let position: usize = match find_field(&fields, "type") {
        Some(i) => i,
        None => {
            return None;
        },
    };
    assert(all[position as int] == (
        fields@[position as int].key@,
        fields@[position as int].value.facts(),
    ));
    let on_cpu: bool = match &fields[position].value {
        MarkerValue::Text(name) => text::text_eq(name.as_str(), "OnCpu"),
        _ => false,
    };
    if !on_cpu {
        return None;
    }
    let cpu = match marker_string_field(&fields, "cpu") {
        Some(cpu) => cpu,
        None => {
            return None;
        },
    };
    let reason = match marker_string_field(&fields, "outwhy") {
        Some(reason) => reason,
        None => "unknown".to_string(),
    };
    Some(
        ResolvedContextSwitchMarker {
            cpu: intern_marker_string(intern, cpu),
            switch_out_reason: intern_marker_string(intern, reason),
        },
    )
}

/// What the data of a marker says of a context switch.
pub fn resolve_context_switch_marker(
    raw_data: &str,
    marker_schema: &Vec<RawMarkerSchema>,
    strings: &Vec<String>,
    intern: &mut Vec<Arc<String>>,
) -> (r: Option<ResolvedContextSwitchMarker>)
    ensures
        switch_facts(r) == context_switch_in(json_reading(raw_data@), marker_schema@, strings@),
{
    read_context_switch(parse_marker_json(raw_data), marker_schema, strings, intern)
}

/// A marker's data with its string indices resolved. Data that is no object
/// stays as it is.
pub open spec fn resolved_json(
    data: JsonFacts,
    schemas: Seq<RawMarkerSchema>,
    strings: Seq<String>,
) -> JsonFacts {
    match data {
        JsonFacts::Object(fields) => JsonFacts::Object(resolved_fields(fields, schemas, strings)),
        other => other,
    }
}

/// Resolves the string indices in a marker's data.
pub fn resolve_marker_json(
    data: MarkerJson,
    marker_schema: &Vec<RawMarkerSchema>,
    strings: &Vec<String>,
) -> (r: MarkerJson)
    ensures
        r.facts() == resolved_json(data.facts(), marker_schema@, strings@),
{
    match data {
        MarkerJson::Object(fields) => {
            let mut fields = fields;
            resolve_marker_strings(&mut fields, marker_schema, strings);
            MarkerJson::Object(fields)
        },
        other => other,
    }
}

impl ResolvedMarker {
    /// The marker's data with its string indices resolved, where it has data
    /// that is JSON.
    pub fn data_value(&self) -> (r: Option<MarkerJson>)
        ensures
            match self.data {
                Some(data) => {
                    let facts = resolved_json(
                        json_reading(data.raw@),
                        data.schema@,
                        data.strings@,
                    );
                    match r {
                        Some(json) => json.facts() == facts && !(facts is Invalid),
                        None => facts is Invalid,
                    }
                },
                None => r is None,
            },
    {
        let data = match &self.data {
            Some(data) => data,
            None => {
                return None;
            },
        };
        let parsed = parse_marker_json(data.raw.as_str());
        match resolve_marker_json(parsed, &data.schema, &data.strings) {
            MarkerJson::Invalid => None,
            json => Some(json),
        }
    }
}

/// A string index that is resolved once stays resolved: resolving again
/// changes nothing more for a field that has become text.
pub proof fn law_resolved_text_stays(
    fields: Seq<(Seq<char>, ValueFacts)>,
    field: RawMarkerSchemaField,
    strings: Seq<String>,
)
    ensures
        with_string(with_string(fields, field, strings), field, strings) == with_string(
            fields,
            field,
            strings,
        ),
{
    let once = with_string(fields, field, strings);
    if let Some(key) = field.key {
        lemma_field_at(fields, key@, 0);
        if let Some(i) = field_at(fields, key@, 0) {
            assert(once[i].0 == key@);
            assert forall|j: int| 0 <= j < i implies (#[trigger] once[j]).0 != key@ by {
                assert(once[j] == fields[j]);
            }
            lemma_field_at(once, key@, 0);
            assert(field_at(once, key@, 0) == Some(i));
        }
    }
}

proof fn lemma_field_at(fields: Seq<(Seq<char>, ValueFacts)>, key: Seq<char>, from: int)
    requires
        0 <= from,
    ensures
        match field_at(fields, key, from) {
            Some(i) => from <= i < fields.len() && fields[i].0 == key && forall|j: int|
                from <= j < i ==> (#[trigger] fields[j]).0 != key,
            None => forall|j: int| from <= j < fields.len() ==> (#[trigger] fields[j]).0 != key,
        },
    decreases fields.len() - from,
{
    if from < fields.len() && fields[from].0 != key {
        lemma_field_at(fields, key, from + 1);
    }
}

}
