//! The two output formats: logfmt-style text with core fields first and the
//! remaining fields in key order, and JSON-Lines with core fields first and
//! the remaining fields in insertion order.

use vstd::prelude::*;

use crate::event::{
    Event, EventModel, FieldsModel, pairs_model, ts_aliases, level_aliases, message_aliases,
    alias_strings_timestamp, alias_strings_level, alias_strings_message, contains_str,
};
use crate::text::{
    chars_of, chars_eq, chars_le, lex_le, int_chars, int_chars_i64, append_chars, append_str,
    string_from_chars,
};
use crate::time::{ts_millis_text_of, ts_full_text_of, format_timestamp, format_timestamp_full};
use crate::value::{FieldValue, NumValue, ValModel};

verus! {

// ---------- escaping ----------

/// One character under logfmt escaping: backslashes and double quotes get a
/// backslash.
pub open spec fn esc_logfmt_char(c: char) -> Seq<char> {
    if c == '\\' {
        seq!['\\', '\\']
    } else if c == '"' {
        seq!['\\', '"']
    } else {
        seq![c]
    }
}

/// Logfmt escaping of a whole text.
pub open spec fn escape_logfmt(s: Seq<char>) -> Seq<char>
    decreases s.len(),
{
    if s.len() == 0 {
        Seq::empty()
    } else {
        escape_logfmt(s.drop_last()) + esc_logfmt_char(s.last())
    }
}

/// A hexadecimal digit character, lower case.
pub open spec fn hex_char(d: int) -> char {
    if d == 0 {
        '0'
    } else if d == 1 {
        '1'
    } else if d == 2 {
        '2'
    } else if d == 3 {
        '3'
    } else if d == 4 {
        '4'
    } else if d == 5 {
        '5'
    } else if d == 6 {
        '6'
    } else if d == 7 {
        '7'
    } else if d == 8 {
        '8'
    } else if d == 9 {
        '9'
    } else if d == 10 {
        'a'
    } else if d == 11 {
        'b'
    } else if d == 12 {
        'c'
    } else if d == 13 {
        'd'
    } else if d == 14 {
        'e'
    } else {
        'f'
    }
}

/// One character under JSON string escaping, as serde_json writes it.
pub open spec fn esc_json_char(c: char) -> Seq<char> {
    let u = c as u32;
    if c == '"' {
        seq!['\\', '"']
    } else if c == '\\' {
        seq!['\\', '\\']
    } else if u == 8 {
        seq!['\\', 'b']
    } else if u == 9 {
        seq!['\\', 't']
    } else if u == 10 {
        seq!['\\', 'n']
    } else if u == 12 {
        seq!['\\', 'f']
    } else if u == 13 {
        seq!['\\', 'r']
    } else if u < 32 {
        seq!['\\', 'u', '0', '0', hex_char(u as int / 16), hex_char(u as int % 16)]
    } else {
        seq![c]
    }
}

/// JSON string escaping of a whole text.
pub open spec fn escape_json(s: Seq<char>) -> Seq<char>
    decreases s.len(),
{
    if s.len() == 0 {
        Seq::empty()
    } else {
        escape_json(s.drop_last()) + esc_json_char(s.last())
    }
}

fn escape_logfmt_chars(s: &Vec<char>) -> (r: Vec<char>)
    ensures
        r@ == escape_logfmt(s@),
{
    let mut out: Vec<char> = Vec::new();
    let mut i: usize = 0;
    proof {
        assert(out@ =~= escape_logfmt(s@.take(0)));
    }
    while i < s.len()
        invariant
            i <= s@.len(),
            out@ == escape_logfmt(s@.take(i as int)),
        decreases s@.len() - i,
    {
        let c = s[i];
        proof {
            assert(s@.take(i as int + 1).drop_last() =~= s@.take(i as int));
            assert(s@.take(i as int + 1).last() == s@[i as int]);
        }
        if c == '\\' {
            out.push('\\');
            out.push('\\');
        } else if c == '"' {
            out.push('\\');
            out.push('"');
        } else {
            out.push(c);
        }
        proof {
            assert(out@ =~= escape_logfmt(s@.take(i as int)) + esc_logfmt_char(s@[i as int]));
        }
        i += 1;
    }
    proof {
        assert(s@.take(s@.len() as int) =~= s@);
    }
    out
}

fn escape_json_chars(s: &Vec<char>) -> (r: Vec<char>)
    ensures
        r@ == escape_json(s@),
{
    let mut out: Vec<char> = Vec::new();
    let mut i: usize = 0;
    proof {
        assert(out@ =~= escape_json(s@.take(0)));
    }
    while i < s.len()
        invariant
            i <= s@.len(),
            out@ == escape_json(s@.take(i as int)),
        decreases s@.len() - i,
    {
        let c = s[i];
        let u = c as u32;
        proof {
            assert(s@.take(i as int + 1).drop_last() =~= s@.take(i as int));
            assert(s@.take(i as int + 1).last() == s@[i as int]);
        }
        if c == '"' {
            out.push('\\');
            out.push('"');
        } else if c == '\\' {
            out.push('\\');
            out.push('\\');
        } else if u == 8 {
            out.push('\\');
            out.push('b');
        } else if u == 9 {
            out.push('\\');
            out.push('t');
        } else if u == 10 {
            out.push('\\');
            out.push('n');
        } else if u == 12 {
            out.push('\\');
            out.push('f');
        } else if u == 13 {
            out.push('\\');
            out.push('r');
        } else if u < 32 {
            out.push('\\');
            out.push('u');
            out.push('0');
            out.push('0');
            out.push(hex_char_exec(u / 16));
            out.push(hex_char_exec(u % 16));
        } else {
            out.push(c);
        }
        proof {
            assert(out@ =~= escape_json(s@.take(i as int)) + esc_json_char(s@[i as int]));
        }
        i += 1;
    }
    proof {
        assert(s@.take(s@.len() as int) =~= s@);
    }
    out
}

fn hex_char_exec(d: u32) -> (r: char)
    requires
        d < 16,
    ensures
        r == hex_char(d as int),
{
    if d == 0 {
        '0'
    } else if d == 1 {
        '1'
    } else if d == 2 {
        '2'
    } else if d == 3 {
        '3'
    } else if d == 4 {
        '4'
    } else if d == 5 {
        '5'
    } else if d == 6 {
        '6'
    } else if d == 7 {
        '7'
    } else if d == 8 {
        '8'
    } else if d == 9 {
        '9'
    } else if d == 10 {
        'a'
    } else if d == 11 {
        'b'
    } else if d == 12 {
        'c'
    } else if d == 13 {
        'd'
    } else if d == 14 {
        'e'
    } else {
        'f'
    }
}

/// Escape backslashes and double quotes for logfmt output.
pub fn escape_quotes(s: &str) -> (r: String)
    ensures
        r@ == escape_logfmt(s@),
{
    let cs = chars_of(s);
    let escaped = escape_logfmt_chars(&cs);
    string_from_chars(&escaped)
}

// ---------- value rendering ----------

/// A value in logfmt output: text quoted and escaped, integers in decimal,
/// other numbers by their display text, booleans and null literally.
pub open spec fn render_logfmt_value(v: ValModel) -> Seq<char> {
    match v {
        ValModel::MText(s) => seq!['"'] + escape_logfmt(s) + seq!['"'],
        ValModel::MInt(i) => int_chars(i),
        ValModel::MDec(d, _) => d,
        ValModel::MBool(b) => if b {
            "true"@
        } else {
            "false"@
        },
        ValModel::MNull => "null"@,
    }
}

/// A value in JSON output: text quoted and escaped, integers in decimal,
/// other numbers by their JSON text, booleans and null literally.
pub open spec fn render_json_value(v: ValModel) -> Seq<char> {
    match v {
        ValModel::MText(s) => seq!['"'] + escape_json(s) + seq!['"'],
        ValModel::MInt(i) => int_chars(i),
        ValModel::MDec(_, j) => j,
        ValModel::MBool(b) => if b {
            "true"@
        } else {
            "false"@
        },
        ValModel::MNull => "null"@,
    }
}

fn render_logfmt_value_exec(v: &FieldValue) -> (r: Vec<char>)
    ensures
        r@ == render_logfmt_value(v.model()),
{
    match v {
        FieldValue::Text(s) => {
            let mut out: Vec<char> = Vec::new();
            out.push('"');
            let cs = chars_of(s.as_str());
            let esc = escape_logfmt_chars(&cs);
            append_chars(&mut out, &esc);
            out.push('"');
            proof {
                assert(out@ =~= seq!['"'] + escape_logfmt(s@) + seq!['"']);
            }
            out
        },
        FieldValue::Number(NumValue::Int(i)) => int_chars_i64(*i),
        FieldValue::Number(NumValue::Dec(d, _)) => chars_of(d.as_str()),
        FieldValue::Boolean(b) => {
            if *b {
                chars_of("true")
            } else {
                chars_of("false")
            }
        },
        FieldValue::Null => chars_of("null"),
    }
}

fn render_json_value_exec(v: &FieldValue) -> (r: Vec<char>)
    ensures
        r@ == render_json_value(v.model()),
{
    match v {
        FieldValue::Text(s) => {
            let mut out: Vec<char> = Vec::new();
            out.push('"');
            let cs = chars_of(s.as_str());
            let esc = escape_json_chars(&cs);
            append_chars(&mut out, &esc);
            out.push('"');
            proof {
                assert(out@ =~= seq!['"'] + escape_json(s@) + seq!['"']);
            }
            out
        },
        FieldValue::Number(NumValue::Int(i)) => int_chars_i64(*i),
        FieldValue::Number(NumValue::Dec(_, j)) => chars_of(j.as_str()),
        FieldValue::Boolean(b) => {
            if *b {
                chars_of("true")
            } else {
                chars_of("false")
            }
        },
        FieldValue::Null => chars_of("null"),
    }
}

// ---------- sorting the remainder ----------

/// Insert a pair in front of the first entry whose name is not below its own.
pub open spec fn insert_sorted(fields: FieldsModel, p: (Seq<char>, ValModel)) -> FieldsModel
    decreases fields.len(),
{
    if fields.len() == 0 {
        seq![p]
    } else if lex_le(p.0, fields[0].0) {
        seq![p] + fields
    } else {
        seq![fields[0]] + insert_sorted(fields.drop_first(), p)
    }
}

/// Sort a field list by name, by repeated insertion.
pub open spec fn sort_fields(fields: FieldsModel) -> FieldsModel
    decreases fields.len(),
{
    if fields.len() == 0 {
        Seq::empty()
    } else {
        insert_sorted(sort_fields(fields.drop_last()), fields.last())
    }
}

proof fn lemma_insert_sorted_at(fields: FieldsModel, p: (Seq<char>, ValModel), w: int)
    requires
        0 <= w <= fields.len(),
        forall|j: int| 0 <= j < w ==> !lex_le(p.0, (#[trigger] fields[j]).0),
        w < fields.len() ==> lex_le(p.0, fields[w as int].0),
    ensures
        insert_sorted(fields, p) == fields.subrange(0, w) + seq![p] + fields.subrange(
            w,
            fields.len() as int,
        ),
    decreases w,
{
    if w == 0 {
        if fields.len() == 0 {
            assert(seq![p] =~= fields.subrange(0, 0) + seq![p] + fields.subrange(0, 0));
        } else {
            assert(seq![p] + fields =~= fields.subrange(0, 0) + seq![p] + fields.subrange(
                0,
                fields.len() as int,
            ));
        }
    } else {
        lemma_insert_sorted_at(fields.drop_first(), p, w - 1);
        assert(seq![fields[0]] + (fields.drop_first().subrange(0, w - 1) + seq![p]
            + fields.drop_first().subrange(w - 1, fields.len() - 1)) =~= fields.subrange(0, w)
            + seq![p] + fields.subrange(w, fields.len() as int));
    }
}

fn find_insert_pos(out: &Vec<(String, FieldValue)>, pk: &Vec<char>) -> (w: usize)
    ensures
        w <= out@.len(),
        forall|j: int| 0 <= j < w ==> !lex_le(pk@, (#[trigger] pairs_model(out@)[j]).0),
        w < out@.len() ==> lex_le(pk@, pairs_model(out@)[w as int].0),
{
    let mut w: usize = 0;
    loop
        invariant
            w <= out@.len(),
            forall|j: int| 0 <= j < w ==> !lex_le(pk@, (#[trigger] pairs_model(out@)[j]).0),
        decreases out@.len() - w,
    {
        if w >= out.len() {
            return w;
        }
        let ok = chars_of(out[w].0.as_str());
        if chars_le(pk, &ok) {
            proof {
                assert(pairs_model(out@)[w as int].0 == ok@);
            }
            return w;
        }
        proof {
            assert(pairs_model(out@)[w as int].0 == ok@);
        }
        w += 1;
    }
}

fn insert_sorted_exec(out: &mut Vec<(String, FieldValue)>, p: (String, FieldValue))
    ensures
        pairs_model(final(out)@) == insert_sorted(pairs_model(old(out)@), (p.0@, p.1.model())),
{
    let pk = chars_of(p.0.as_str());
    let w = find_insert_pos(out, &pk);
    proof {
        lemma_insert_sorted_at(pairs_model(out@), (p.0@, p.1.model()), w as int);
    }
    let ghost before = pairs_model(out@);
    out.insert(w, p);
    proof {
        assert(pairs_model(out@) =~= before.subrange(0, w as int) + seq![
            (p.0@, p.1.model()),
        ] + before.subrange(w as int, before.len() as int));
    }
}

fn sort_fields_exec(fields: Vec<(String, FieldValue)>) -> (r: Vec<(String, FieldValue)>)
    ensures
        pairs_model(r@) == sort_fields(pairs_model(fields@)),
{
    let mut out: Vec<(String, FieldValue)> = Vec::new();
    let mut i: usize = 0;
    proof {
        assert(pairs_model(out@) =~= sort_fields(pairs_model(fields@).take(0)));
    }
    while i < fields.len()
        invariant
            i <= fields@.len(),
            pairs_model(out@) == sort_fields(pairs_model(fields@).take(i as int)),
        decreases fields@.len() - i,
    {
        let p = &fields[i];
        let pair = (p.0.clone(), p.1.duplicate());
        proof {
            assert(pairs_model(fields@).take(i as int + 1).drop_last() =~= pairs_model(
                fields@,
            ).take(i as int));
            assert(pairs_model(fields@).take(i as int + 1).last() == pairs_model(
                fields@,
            )[i as int]);
        }
        insert_sorted_exec(&mut out, pair);
        i += 1;
    }
    proof {
        assert(pairs_model(fields@).take(fields@.len() as int) =~= pairs_model(fields@));
    }
    out
}

// ---------- joining ----------

/// Parts joined with a separator.
pub open spec fn join_sep(parts: Seq<Seq<char>>, sep: Seq<char>) -> Seq<char>
    decreases parts.len(),
{
    if parts.len() == 0 {
        Seq::empty()
    } else if parts.len() == 1 {
        parts[0]
    } else {
        join_sep(parts.drop_last(), sep) + sep + parts.last()
    }
}

pub fn join_with(parts: &Vec<Vec<char>>, sep: &str) -> (r: Vec<char>)
    ensures
        r@ == join_sep(parts@.map_values(|v: Vec<char>| v@), sep@),
{
    let ghost model = parts@.map_values(|v: Vec<char>| v@);
    let mut out: Vec<char> = Vec::new();
    let mut i: usize = 0;
    proof {
        assert(out@ =~= join_sep(model.take(0), sep@));
    }
    while i < parts.len()
        invariant
            i <= parts@.len(),
            model == parts@.map_values(|v: Vec<char>| v@),
            out@ == join_sep(model.take(i as int), sep@),
        decreases parts@.len() - i,
    {
        proof {
            assert(model.take(i as int + 1).drop_last() =~= model.take(i as int));
            assert(model.take(i as int + 1).last() == model[i as int]);
        }
        if i > 0 {
            append_str(&mut out, sep);
        }
        append_chars(&mut out, &parts[i]);
        proof {
            if i == 0 {
                assert(out@ =~= model[0]);
            }
        }
        i += 1;
    }
    proof {
        assert(model.take(model.len() as int) =~= model);
    }
    out
}

// ---------- the logfmt formatter ----------

/// Whether a name is one of the core-field aliases, which the logfmt
/// remainder pass skips.
pub open spec fn is_core_alias(k: Seq<char>) -> bool {
    ts_aliases().contains(k) || level_aliases().contains(k) || message_aliases().contains(k)
}

/// The fields that are no core-field aliases, in their old order.
pub open spec fn drop_alias_fields(fields: FieldsModel) -> FieldsModel
    decreases fields.len(),
{
    if fields.len() == 0 {
        Seq::empty()
    } else {
        let front = drop_alias_fields(fields.drop_last());
        if is_core_alias(fields.last().0) {
            front
        } else {
            front.push(fields.last())
        }
    }
}

/// Each field as one `key=value` part.
pub open spec fn rendered_logfmt_fields(fields: FieldsModel) -> Seq<Seq<char>> {
    fields.map_values(|p: (Seq<char>, ValModel)| p.0 + "="@ + render_logfmt_value(p.1))
}

/// The core-field parts of one logfmt output line: the timestamp, level and
/// message, each quoted, in that order, when present.
pub open spec fn logfmt_core_parts(m: EventModel) -> Seq<Seq<char>> {
    let p0 = Seq::<Seq<char>>::empty();
    let p1 = match m.timestamp {
        Some(ms) => p0.push("timestamp=\""@ + ts_millis_text_of(ms.0, ms.1) + "\""@),
        None => p0,
    };
    let p2 = match m.level {
        Some(l) => p1.push("level=\""@ + l + "\""@),
        None => p1,
    };
    match m.message {
        Some(x) => p2.push("message=\""@ + escape_logfmt(x) + "\""@),
        None => p2,
    }
}

/// The parts of one logfmt output line: the core fields first, then the
/// remaining non-alias fields in name order.
pub open spec fn logfmt_parts(m: EventModel) -> Seq<Seq<char>> {
    logfmt_core_parts(m) + rendered_logfmt_fields(sort_fields(drop_alias_fields(m.fields)))
}

/// One logfmt output line: the parts joined with single spaces.
pub open spec fn logfmt_output(m: EventModel) -> Seq<char> {
    join_sep(logfmt_parts(m), " "@)
}

/// Render one event as logfmt text.
pub fn format_default(event: &Event) -> (r: String)
    ensures
        r@ == logfmt_output(event.model()),
{
    let ghost m = event.model();
    let mut parts: Vec<Vec<char>> = Vec::new();
    match &event.timestamp {
        Some(t) => {
            let mut part: Vec<char> = Vec::new();
            append_str(&mut part, "timestamp=\"");
            let txt = format_timestamp(t.secs, t.nanos);
            append_str(&mut part, txt.as_str());
            append_str(&mut part, "\"");
            parts.push(part);
        },
        None => {
        },
    }
    match &event.level {
        Some(l) => {
            let mut part: Vec<char> = Vec::new();
            append_str(&mut part, "level=\"");
            append_str(&mut part, l.as_str());
            append_str(&mut part, "\"");
            parts.push(part);
        },
        None => {
        },
    }
    match &event.message {
        Some(x) => {
            let mut part: Vec<char> = Vec::new();
            append_str(&mut part, "message=\"");
            let cs = chars_of(x.as_str());
            let esc = escape_logfmt_chars(&cs);
            append_chars(&mut part, &esc);
            append_str(&mut part, "\"");
            parts.push(part);
        },
        None => {
        },
    }
    let ghost core = logfmt_core_parts(m);
    proof {
        assert(parts@.map_values(|v: Vec<char>| v@) =~~= core);
    }
    // collect the non-alias remainder, then sort it by name
    let ts_names = alias_strings_timestamp();
    let level_names = alias_strings_level();
    let message_names = alias_strings_message();
    let mut rem: Vec<(String, FieldValue)> = Vec::new();
    let mut i: usize = 0;
    proof {
        assert(pairs_model(rem@) =~= drop_alias_fields(m.fields.take(0)));
    }
    while i < event.fields.len()
        invariant
            i <= event.fields@.len(),
            m == event.model(),
            ts_names@.map_values(|s: String| s@) == ts_aliases(),
            level_names@.map_values(|s: String| s@) == level_aliases(),
            message_names@.map_values(|s: String| s@) == message_aliases(),
            pairs_model(rem@) == drop_alias_fields(m.fields.take(i as int)),
        decreases event.fields@.len() - i,
    {
        let p = &event.fields[i];
        proof {
            assert(m.fields.take(i as int + 1).drop_last() =~= m.fields.take(i as int));
            assert(m.fields.take(i as int + 1).last() == m.fields[i as int]);
        }
        let is_alias = contains_str(&ts_names, p.0.as_str()) || contains_str(
            &level_names,
            p.0.as_str(),
        ) || contains_str(&message_names, p.0.as_str());
        if !is_alias {
            let pair = (p.0.clone(), p.1.duplicate());
            let ghost before = pairs_model(rem@);
            rem.push(pair);
            proof {
                assert(pairs_model(rem@) =~= before.push(m.fields[i as int]));
            }
        }
        i += 1;
    }
    proof {
        assert(m.fields.take(m.fields.len() as int) =~= m.fields);
    }
    let sorted = sort_fields_exec(rem);
    let ghost sorted_model = sort_fields(drop_alias_fields(m.fields));
    let mut k: usize = 0;
    while k < sorted.len()
        invariant
            k <= sorted@.len(),
            pairs_model(sorted@) == sorted_model,
            parts@.map_values(|v: Vec<char>| v@) == core + rendered_logfmt_fields(
                sorted_model.take(k as int),
            ),
        decreases sorted@.len() - k,
    {
        let p = &sorted[k];
        let mut part: Vec<char> = Vec::new();
        let kc = chars_of(p.0.as_str());
        append_chars(&mut part, &kc);
        append_str(&mut part, "=");
        let rendered = render_logfmt_value_exec(&p.1);
        append_chars(&mut part, &rendered);
        let ghost parts_before = parts@.map_values(|v: Vec<char>| v@);
        parts.push(part);
        proof {
            assert(pairs_model(sorted@)[k as int] == sorted_model[k as int]);
            assert(part@ =~= rendered_logfmt_fields(sorted_model)[k as int]);
            assert(parts@.map_values(|v: Vec<char>| v@) =~~= parts_before.push(
                rendered_logfmt_fields(sorted_model)[k as int],
            ));
            assert(core + rendered_logfmt_fields(sorted_model.take(k as int)).push(
                rendered_logfmt_fields(sorted_model)[k as int],
            ) =~~= core + rendered_logfmt_fields(sorted_model.take(k as int + 1)));
        }
        k += 1;
    }
    proof {
        assert(sorted_model.take(sorted_model.len() as int) =~= sorted_model);
        assert(parts@.map_values(|v: Vec<char>| v@) == logfmt_parts(m));
    }
    let joined = join_with(&parts, " ");
    string_from_chars(&joined)
}

// ---------- the JSON-Lines formatter ----------

/// Whether a remainder field is emitted in JSON output: a field whose name
/// equals the name of an emitted core member is skipped.
pub open spec fn json_keeps_field(m: EventModel, k: Seq<char>) -> bool {
    &&& !(m.timestamp is Some && k == "timestamp"@)
    &&& !(m.level is Some && k == "level"@)
    &&& !(m.message is Some && k == "message"@)
}

/// The remainder fields that JSON output emits, in their old order.
pub open spec fn json_kept_fields(m: EventModel, fields: FieldsModel) -> FieldsModel
    decreases fields.len(),
{
    if fields.len() == 0 {
        Seq::empty()
    } else {
        let front = json_kept_fields(m, fields.drop_last());
        if json_keeps_field(m, fields.last().0) {
            front.push(fields.last())
        } else {
            front
        }
    }
}

/// Each field as one `"key":value` member.
pub open spec fn rendered_json_fields(fields: FieldsModel) -> Seq<Seq<char>> {
    fields.map_values(
        |p: (Seq<char>, ValModel)| seq!['"'] + escape_json(p.0) + "\":"@ + render_json_value(p.1),
    )
}

/// The core members of one JSON output object, each a string member, in the
/// order timestamp, level, message, when present.
pub open spec fn json_core_members(m: EventModel) -> Seq<Seq<char>> {
    let p0 = Seq::<Seq<char>>::empty();
    let p1 = match m.timestamp {
        Some(ms) => p0.push("\"timestamp\":\""@ + escape_json(ts_full_text_of(ms.0, ms.1)) + "\""@),
        None => p0,
    };
    let p2 = match m.level {
        Some(l) => p1.push("\"level\":\""@ + escape_json(l) + "\""@),
        None => p1,
    };
    match m.message {
        Some(x) => p2.push("\"message\":\""@ + escape_json(x) + "\""@),
        None => p2,
    }
}

/// All members of one JSON output object: core members first, then the kept
/// remainder fields in insertion order.
pub open spec fn json_members(m: EventModel) -> Seq<Seq<char>> {
    json_core_members(m) + rendered_json_fields(json_kept_fields(m, m.fields))
}

/// One JSON output line: a single flat object.
pub open spec fn json_output(m: EventModel) -> Seq<char> {
    seq!['{'] + join_sep(json_members(m), ","@) + seq!['}']
}

/// Render one event as a JSON-Lines object.
pub fn format_jsonl(event: &Event) -> (r: String)
    ensures
        r@ == json_output(event.model()),
{
    let ghost m = event.model();
    let mut members: Vec<Vec<char>> = Vec::new();
    match &event.timestamp {
        Some(t) => {
            let mut part: Vec<char> = Vec::new();
            append_str(&mut part, "\"timestamp\":\"");
            let txt = format_timestamp_full(t.secs, t.nanos);
            let cs = chars_of(txt.as_str());
            let esc = escape_json_chars(&cs);
            append_chars(&mut part, &esc);
            append_str(&mut part, "\"");
            members.push(part);
        },
        None => {
        },
    }
    match &event.level {
        Some(l) => {
            let mut part: Vec<char> = Vec::new();
            append_str(&mut part, "\"level\":\"");
            let cs = chars_of(l.as_str());
            let esc = escape_json_chars(&cs);
            append_chars(&mut part, &esc);
            append_str(&mut part, "\"");
            members.push(part);
        },
        None => {
        },
    }
    match &event.message {
        Some(x) => {
            let mut part: Vec<char> = Vec::new();
            append_str(&mut part, "\"message\":\"");
            let cs = chars_of(x.as_str());
            let esc = escape_json_chars(&cs);
            append_chars(&mut part, &esc);
            append_str(&mut part, "\"");
            members.push(part);
        },
        None => {
        },
    }
    let ghost core = json_core_members(m);
    proof {
        assert(members@.map_values(|v: Vec<char>| v@) =~~= core);
    }
    let mut i: usize = 0;
    while i < event.fields.len()
        invariant
            i <= event.fields@.len(),
            m == event.model(),
            core == json_core_members(m),
            members@.map_values(|v: Vec<char>| v@) == core + rendered_json_fields(
                json_kept_fields(m, m.fields.take(i as int)),
            ),
        decreases event.fields@.len() - i,
    {
        let p = &event.fields[i];
        proof {
            assert(m.fields.take(i as int + 1).drop_last() =~= m.fields.take(i as int));
            assert(m.fields.take(i as int + 1).last() == m.fields[i as int]);
        }
        let kc = chars_of(p.0.as_str());
        let skip_ts = event.timestamp.is_some() && chars_eq(&kc, &chars_of("timestamp"));
        let skip_level = event.level.is_some() && chars_eq(&kc, &chars_of("level"));
        let skip_message = event.message.is_some() && chars_eq(&kc, &chars_of("message"));
        if !(skip_ts || skip_level || skip_message) {
            let mut part: Vec<char> = Vec::new();
            part.push('"');
            let esc = escape_json_chars(&kc);
            append_chars(&mut part, &esc);
            append_str(&mut part, "\":");
            let rendered = render_json_value_exec(&p.1);
            append_chars(&mut part, &rendered);
            let ghost members_before = members@.map_values(|v: Vec<char>| v@);
            let ghost kept_before = json_kept_fields(m, m.fields.take(i as int));
            members.push(part);
            proof {
                assert(part@ =~= rendered_json_fields(kept_before.push(m.fields[i as int]))[
                    kept_before.len() as int]);
                assert(members@.map_values(|v: Vec<char>| v@) =~~= members_before.push(
                    rendered_json_fields(kept_before.push(m.fields[i as int]))[
                    kept_before.len() as int],
                ));
                assert(members@.map_values(|v: Vec<char>| v@) =~~= core + rendered_json_fields(
                    json_kept_fields(m, m.fields.take(i as int + 1)),
                ));
            }
        }
        i += 1;
    }
    proof {
        assert(m.fields.take(m.fields.len() as int) =~= m.fields);
        assert(members@.map_values(|v: Vec<char>| v@) == json_members(m));
    }
    let joined = join_with(&members, ",");
    let mut out: Vec<char> = Vec::new();
    out.push('{');
    append_chars(&mut out, &joined);
    out.push('}');
    proof {
        assert(out@ =~= json_output(m));
    }
    string_from_chars(&out)
}

// ---------- the formatting contract ----------

/// One formatter: an event in, one line of text out. Each impl pins its
/// exact output below.
pub trait Formatter {
    fn format(&self, event: &Event) -> String;
}

/// The logfmt-style formatter.
pub struct DefaultFormatter {}

impl DefaultFormatter {
    pub fn new() -> (r: Self) {
        DefaultFormatter {  }
    }
}

impl Formatter for DefaultFormatter {
    fn format(&self, event: &Event) -> (r: String)
        ensures
            r@ == logfmt_output(event.model()),
    {
        format_default(event)
    }
}

/// The JSON-Lines formatter.
pub struct JsonlFormatter {}

impl JsonlFormatter {
    pub fn new() -> (r: Self) {
        JsonlFormatter {  }
    }
}

impl Formatter for JsonlFormatter {
    fn format(&self, event: &Event) -> (r: String)
        ensures
            r@ == json_output(event.model()),
    {
        format_jsonl(event)
    }
}

} // verus!
