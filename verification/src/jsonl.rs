//! JSON-Lines parsing: each line must be one complete JSON object. The JSON
//! grammar itself is serde_json's; its calls stand behind trusted items, and
//! everything after them is verified.

use vstd::prelude::*;

use crate::event::{
    Event, EventModel, extract_model, keys_unique, has_key, lemma_upsert_absent,
    lemma_lookup_some_index,
};
use crate::value::{FieldValue, NumValue, ValModel};

verus! {

#[verifier::external_type_specification]
#[verifier::external_body]
pub struct ExValue(serde_json::Value);

#[verifier::external_type_specification]
#[verifier::external_body]
pub struct ExNumber(serde_json::Number);

#[verifier::external_type_specification]
#[verifier::external_body]
pub struct ExError(serde_json::Error);

/// Why a line failed to parse: not a JSON object at all, or not valid JSON.
#[derive(Debug)]
pub enum ParseError {
    InvalidFormat(String),
    JsonError(serde_json::Error),
}

impl From<serde_json::Error> for ParseError {
    fn from(err: serde_json::Error) -> (r: Self) {
        ParseError::JsonError(err)
    }
}

impl vstd::std_specs::convert::FromSpecImpl<serde_json::Error> for ParseError {
    open spec fn obeys_from_spec() -> bool {
        true
    }

    open spec fn from_spec(err: serde_json::Error) -> Self {
        ParseError::JsonError(err)
    }
}

/// The flat name/value pairs of the JSON object a line denotes, each value
/// abstracted to its field-value model, in the order serde_json's map hands
/// them out; `Err(true)` when the line is not syntactically valid JSON,
/// `Err(false)` when its root is no object. A function of the line alone.
pub uninterp spec fn json_line_fields(s: Seq<char>) -> Result<Seq<(Seq<char>, ValModel)>, bool>;

/// The field-value model one JSON value converts to.
pub uninterp spec fn json_value_model(v: serde_json::Value) -> ValModel;

/// The field-value model one JSON number converts to.
pub uninterp spec fn json_number_model(n: serde_json::Number) -> ValModel;

/// Relies on `serde_json::from_str::<Value>`: whether a line parses, and to
/// what value, depends on the line alone; and on `serde_json::Map`: a parsed
/// object's entries have unique names, handed out in the map's order.
#[verifier::external_body]
fn json_parse_entries(line: &str) -> (r: Result<
    Vec<(String, serde_json::Value)>,
    Option<serde_json::Error>,
>)
    ensures
        match r {
            Ok(entries) => {
                let fields = entries@.map_values(
                    |p: (String, serde_json::Value)| (p.0@, json_value_model(p.1)),
                );
                json_line_fields(line@) == Ok::<Seq<(Seq<char>, ValModel)>, bool>(fields)
                    && keys_unique(fields)
            },
            Err(oe) => json_line_fields(line@) == Err::<Seq<(Seq<char>, ValModel)>, bool>(
                oe is Some,
            ),
        },
{
    match serde_json::from_str::<serde_json::Value>(line) {
        Ok(serde_json::Value::Object(m)) => Ok(m.into_iter().collect()),
        Ok(_) => Err(None),
        Err(e) => Err(Some(e)),
    }
}

/// Relies on `serde_json::Value`'s variants: strings, booleans and null map
/// directly; numbers as `json_number_model` has it; nested arrays and
/// objects become their canonical JSON text through serde_json's `Display`.
#[verifier::external_body]
fn json_value_to_field(v: serde_json::Value) -> (r: FieldValue)
    ensures
        r.model() == json_value_model(v),
{
    match v {
        serde_json::Value::String(s) => FieldValue::Text(s),
        serde_json::Value::Bool(b) => FieldValue::Boolean(b),
        serde_json::Value::Null => FieldValue::Null,
        serde_json::Value::Number(n) => json_number_to_field(n),
        other => FieldValue::Text(other.to_string()),
    }
}

/// Relies on `serde_json::Number::{as_i64, as_f64}`: an integer in range
/// keeps its exact value; any other number carries the double renderings,
/// as coerced raw tokens do (plain display text, and serde_json's number
/// text with `0` for values that are no JSON numbers).
#[verifier::external_body]
fn json_number_to_field(n: serde_json::Number) -> (r: FieldValue)
    ensures
        r.model() == json_number_model(n),
{
    if let Some(i) = n.as_i64() {
        return FieldValue::Number(NumValue::Int(i));
    }
    let f = match n.as_f64() {
        Some(f) => f,
        None => return FieldValue::Number(NumValue::Int(0)),
    };
    let json = match serde_json::Number::from_f64(f) {
        Some(m) => m.to_string(),
        None => "0".to_string(),
    };
    FieldValue::Number(NumValue::Dec(f.to_string(), json))
}

/// What JSON-Lines parsing yields when the line is a JSON object: each
/// member becomes one field, then core fields are classified.
pub open spec fn jsonl_model(fields: Seq<(Seq<char>, ValModel)>) -> EventModel {
    extract_model(EventModel { timestamp: None, level: None, message: None, fields })
}

/// Parse one JSON-Lines record. Fails with `JsonError` on invalid JSON and
/// with `InvalidFormat` when the root is no object.
pub fn parse_jsonl(line: &str) -> (r: Result<Event, ParseError>)
    ensures
        r is Ok <==> json_line_fields(line@) is Ok,
        r is Ok ==> r->Ok_0.model() == jsonl_model(json_line_fields(line@)->Ok_0)
            && r->Ok_0.wf(),
        r is Err ==> (r->Err_0 is JsonError <==> json_line_fields(line@) == Err::<
            Seq<(Seq<char>, ValModel)>,
            bool,
        >(true)),
        r is Err ==> (r->Err_0 matches ParseError::InvalidFormat(m) ==> m@
            == "Expected JSON object"@),
{
    let mut entries = match json_parse_entries(line) {
        Err(Some(e)) => {
            return Err(ParseError::JsonError(e));
        },
        Err(None) => {
            return Err(ParseError::InvalidFormat("Expected JSON object".to_owned()));
        },
        Ok(v) => v,
    };
    let ghost fields = json_line_fields(line@)->Ok_0;
    let mut event = Event::new();
    proof {
        assert(fields.take(0) =~= Seq::<(Seq<char>, ValModel)>::empty());
        assert(fields.skip(0) =~= fields);
    }
    while entries.len() > 0
        invariant
            keys_unique(fields),
            entries@.map_values(|p: (String, serde_json::Value)| (p.0@, json_value_model(p.1)))
                == fields.skip(fields.len() - entries@.len()),
            entries@.len() <= fields.len(),
            event.wf(),
            event.timestamp is None,
            event.level is None,
            event.message is None,
            event.model().fields == fields.take(fields.len() - entries@.len()),
        decreases entries@.len(),
    {
        let ghost j = fields.len() - entries@.len();
        let ghost entries_before = entries@;
        let (k, v) = entries.remove(0);
        let fv = json_value_to_field(v);
        proof {
            let f = |p: (String, serde_json::Value)| (p.0@, json_value_model(p.1));
            assert(entries_before.map_values(f)[0] == fields.skip(j)[0]);
            let mapped = (k@, json_value_model(v));
            assert(fields.skip(j)[0] == mapped);
            assert(fields[j] == mapped);
            assert(!has_key(fields.take(j), fields[j].0)) by {
                if has_key(fields.take(j), fields[j].0) {
                    lemma_lookup_some_index(fields.take(j), fields[j].0);
                    let w = choose|w: int|
                        0 <= w < fields.take(j).len() && (#[trigger] fields.take(j)[w]).0
                            == fields[j].0;
                    assert(fields[w].0 == fields[j].0);
                }
            }
            lemma_upsert_absent(fields.take(j), fields[j].0, fields[j].1);
            assert(fields.take(j).push(fields[j]) =~= fields.take(j + 1));
            assert(entries@ =~= entries_before.drop_first());
            assert forall|q: int| 0 <= q < entries@.len() implies #[trigger] entries@.map_values(
                f,
            )[q] == fields.skip(j + 1)[q] by {
                assert(entries@[q] == entries_before[q + 1]);
                assert(entries_before.map_values(f)[q + 1] == fields.skip(j)[q + 1]);
            }
            assert(entries@.map_values(f) =~= fields.skip(j + 1));
        }
        event.set_field(k, fv);
    }
    proof {
        assert(entries@.len() == 0);
        assert(event.model().fields == fields.take(fields.len() as int));
        assert(fields.take(fields.len() as int) =~= fields);
        assert(event.model() == EventModel {
            timestamp: None,
            level: None,
            message: None,
            fields,
        });
    }
    event.extract_core_fields();
    proof {
        assert(event.model() == jsonl_model(fields));
        assert(event.wf());
    }
    Ok(event)
}

} // verus!
