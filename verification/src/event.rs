//! The normalized event: optional core fields (timestamp, level, message)
//! and an insertion-ordered mapping from field names to values.

use vstd::prelude::*;

use crate::text::{chars_of, chars_eq};
use crate::time::{ts_of, parse_timestamp};
use crate::value::{FieldValue, ValModel};

verus! {

/// An instant, UTC: whole seconds since the Unix epoch and the nanoseconds
/// past that second.
#[derive(Clone, Copy, PartialEq, Eq, Structural)]
pub struct Timestamp {
    pub secs: i64,
    pub nanos: u32,
}

/// The mathematical model of an event's field map: name/value pairs in
/// insertion order, names unique.
pub type FieldsModel = Seq<(Seq<char>, ValModel)>;

/// The mathematical model of an event.
pub struct EventModel {
    pub timestamp: Option<(int, int)>,
    pub level: Option<Seq<char>>,
    pub message: Option<Seq<char>>,
    pub fields: FieldsModel,
}

impl EventModel {
    pub open spec fn empty() -> EventModel {
        EventModel {
            timestamp: None,
            level: None,
            message: None,
            fields: Seq::empty(),
        }
    }
}

/// No field name occurs twice.
pub open spec fn keys_unique(fields: FieldsModel) -> bool {
    forall|i: int, j: int|
        0 <= i < j < fields.len() ==> (#[trigger] fields[i]).0 != (#[trigger] fields[j]).0
}

/// The value under the first occurrence of a name, if any.
pub open spec fn lookup(fields: FieldsModel, k: Seq<char>) -> Option<ValModel>
    decreases fields.len(),
{
    if fields.len() == 0 {
        None
    } else if fields[0].0 == k {
        Some(fields[0].1)
    } else {
        lookup(fields.drop_first(), k)
    }
}

pub open spec fn has_key(fields: FieldsModel, k: Seq<char>) -> bool {
    lookup(fields, k) is Some
}

/// Replace the value under `k` in place, or append the pair when absent.
pub open spec fn upsert(fields: FieldsModel, k: Seq<char>, v: ValModel) -> FieldsModel
    decreases fields.len(),
{
    if fields.len() == 0 {
        seq![(k, v)]
    } else if fields[0].0 == k {
        seq![(k, v)] + fields.drop_first()
    } else {
        seq![fields[0]] + upsert(fields.drop_first(), k, v)
    }
}

/// Drop the first occurrence of a name.
pub open spec fn remove_key(fields: FieldsModel, k: Seq<char>) -> FieldsModel
    decreases fields.len(),
{
    if fields.len() == 0 {
        Seq::empty()
    } else if fields[0].0 == k {
        fields.drop_first()
    } else {
        seq![fields[0]] + remove_key(fields.drop_first(), k)
    }
}

// ---------- lemmas connecting the recursive forms to indices ----------

pub proof fn lemma_lookup_at(fields: FieldsModel, k: Seq<char>, i: int)
    requires
        0 <= i < fields.len(),
        fields[i].0 == k,
        forall|j: int| 0 <= j < i ==> (#[trigger] fields[j]).0 != k,
    ensures
        lookup(fields, k) == Some(fields[i].1),
    decreases i,
{
    if i > 0 {
        lemma_lookup_at(fields.drop_first(), k, i - 1);
    }
}

pub proof fn lemma_lookup_absent(fields: FieldsModel, k: Seq<char>)
    requires
        forall|j: int| 0 <= j < fields.len() ==> (#[trigger] fields[j]).0 != k,
    ensures
        lookup(fields, k) is None,
    decreases fields.len(),
{
    if fields.len() > 0 {
        lemma_lookup_absent(fields.drop_first(), k);
    }
}

pub proof fn lemma_upsert_at(fields: FieldsModel, k: Seq<char>, v: ValModel, i: int)
    requires
        0 <= i < fields.len(),
        fields[i].0 == k,
        forall|j: int| 0 <= j < i ==> (#[trigger] fields[j]).0 != k,
    ensures
        upsert(fields, k, v) == fields.update(i, (k, v)),
    decreases i,
{
    if i == 0 {
        assert(seq![(k, v)] + fields.drop_first() =~= fields.update(0, (k, v)));
    } else {
        lemma_upsert_at(fields.drop_first(), k, v, i - 1);
        assert(seq![fields[0]] + fields.drop_first().update(i - 1, (k, v)) =~= fields.update(
            i,
            (k, v),
        ));
    }
}

pub proof fn lemma_upsert_absent(fields: FieldsModel, k: Seq<char>, v: ValModel)
    requires
        !has_key(fields, k),
    ensures
        upsert(fields, k, v) == fields.push((k, v)),
    decreases fields.len(),
{
    if fields.len() == 0 {
        assert(seq![(k, v)] =~= fields.push((k, v)));
    } else {
        lemma_upsert_absent(fields.drop_first(), k, v);
        assert(seq![fields[0]] + fields.drop_first().push((k, v)) =~= fields.push((k, v)));
    }
}

pub proof fn lemma_remove_at(fields: FieldsModel, k: Seq<char>, i: int)
    requires
        0 <= i < fields.len(),
        fields[i].0 == k,
        forall|j: int| 0 <= j < i ==> (#[trigger] fields[j]).0 != k,
    ensures
        remove_key(fields, k) == fields.subrange(0, i) + fields.subrange(
            i + 1,
            fields.len() as int,
        ),
    decreases i,
{
    if i == 0 {
        assert(fields.drop_first() =~= fields.subrange(0, 0) + fields.subrange(
            1,
            fields.len() as int,
        ));
    } else {
        lemma_remove_at(fields.drop_first(), k, i - 1);
        assert(seq![fields[0]] + (fields.drop_first().subrange(0, i - 1)
            + fields.drop_first().subrange(i, fields.len() - 1)) =~= fields.subrange(0, i)
            + fields.subrange(i + 1, fields.len() as int));
    }
}

/// Upserting keeps names unique.
pub proof fn lemma_upsert_unique(fields: FieldsModel, k: Seq<char>, v: ValModel)
    requires
        keys_unique(fields),
    ensures
        keys_unique(upsert(fields, k, v)),
    decreases fields.len(),
{
    if fields.len() == 0 {
    } else if fields[0].0 == k {
        assert forall|i: int, j: int|
            0 <= i < j < upsert(fields, k, v).len() implies (#[trigger] upsert(fields, k, v)[i]).0
            != (#[trigger] upsert(fields, k, v)[j]).0 by {
            assert(upsert(fields, k, v) == seq![(k, v)] + fields.drop_first());
        }
    } else {
        lemma_upsert_unique(fields.drop_first(), k, v);
        lemma_upsert_key_set(fields.drop_first(), k, v);
        assert forall|i: int, j: int|
            0 <= i < j < upsert(fields, k, v).len() implies (#[trigger] upsert(fields, k, v)[i]).0
            != (#[trigger] upsert(fields, k, v)[j]).0 by {
            let u = upsert(fields, k, v);
            let ud = upsert(fields.drop_first(), k, v);
            assert(u == seq![fields[0]] + ud);
            if i == 0 {
                assert(u[j] == ud[j - 1]);
                if ud[j - 1].0 == fields[0].0 {
                    assert(has_key(fields.drop_first(), fields[0].0) || fields[0].0 == k);
                    if has_key(fields.drop_first(), fields[0].0) {
                        lemma_lookup_some_index(fields.drop_first(), fields[0].0);
                    }
                }
            }
        }
    }
}

/// Every name in an upsert result is an old name or the new one.
pub proof fn lemma_upsert_key_set(fields: FieldsModel, k: Seq<char>, v: ValModel)
    ensures
        forall|i: int|
            0 <= i < upsert(fields, k, v).len() ==> (#[trigger] upsert(fields, k, v)[i]).0 == k
                || has_key(fields, upsert(fields, k, v)[i].0),
    decreases fields.len(),
{
    if fields.len() == 0 {
    } else if fields[0].0 == k {
        assert forall|i: int| 0 <= i < upsert(fields, k, v).len() implies (#[trigger] upsert(
            fields,
            k,
            v,
        )[i]).0 == k || has_key(fields, upsert(fields, k, v)[i].0) by {
            if i > 0 {
                let key = upsert(fields, k, v)[i].0;
                if key != k {
                    assert(fields.drop_first()[i - 1].0 == key);
                    lemma_index_implies_has_key(fields, i);
                }
            }
        }
    } else {
        lemma_upsert_key_set(fields.drop_first(), k, v);
        assert forall|i: int| 0 <= i < upsert(fields, k, v).len() implies (#[trigger] upsert(
            fields,
            k,
            v,
        )[i]).0 == k || has_key(fields, upsert(fields, k, v)[i].0) by {
            if i > 0 {
                let key = upsert(fields, k, v)[i].0;
                assert(upsert(fields, k, v)[i] == upsert(fields.drop_first(), k, v)[i - 1]);
                if key != k && has_key(fields.drop_first(), key) {
                    lemma_lookup_some_index(fields.drop_first(), key);
                    let w = choose|w: int|
                        0 <= w < fields.drop_first().len() && (#[trigger] fields.drop_first()[w]).0
                            == key;
                    lemma_index_implies_has_key(fields, w + 1);
                }
            } else {
                if fields[0].0 != k {
                    lemma_index_implies_has_key(fields, 0);
                }
            }
        }
    }
}

/// A name at some index is present.
pub proof fn lemma_index_implies_has_key(fields: FieldsModel, i: int)
    requires
        0 <= i < fields.len(),
    ensures
        has_key(fields, fields[i].0),
    decreases i,
{
    if i == 0 {
    } else if fields[0].0 == fields[i].0 {
    } else {
        lemma_index_implies_has_key(fields.drop_first(), i - 1);
    }
}

/// A present name occurs at some index.
pub proof fn lemma_lookup_some_index(fields: FieldsModel, k: Seq<char>)
    requires
        has_key(fields, k),
    ensures
        exists|i: int| 0 <= i < fields.len() && (#[trigger] fields[i]).0 == k,
    decreases fields.len(),
{
    if fields.len() > 0 && fields[0].0 != k {
        lemma_lookup_some_index(fields.drop_first(), k);
        let i = choose|i: int|
            0 <= i < fields.drop_first().len() && (#[trigger] fields.drop_first()[i]).0 == k;
        assert(fields[i + 1].0 == k);
    }
}

// ---------- core-field aliases ----------

/// Names recognized as carrying the timestamp, in priority order.
pub open spec fn ts_aliases() -> Seq<Seq<char>> {
    seq!["timestamp"@, "ts"@, "time"@, "at"@, "_t"@, "@t"@]
}

/// Names recognized as carrying the level, in priority order.
pub open spec fn level_aliases() -> Seq<Seq<char>> {
    seq!["level"@, "log_level"@, "loglevel"@, "lvl"@, "severity"@, "@l"@]
}

/// Names recognized as carrying the message, in priority order.
pub open spec fn message_aliases() -> Seq<Seq<char>> {
    seq!["message"@, "msg"@, "@m"@]
}

/// The first alias of the list that is present in the field map.
pub open spec fn first_present(fields: FieldsModel, aliases: Seq<Seq<char>>) -> Option<Seq<char>>
    decreases aliases.len(),
{
    if aliases.len() == 0 {
        None
    } else if has_key(fields, aliases[0]) {
        Some(aliases[0])
    } else {
        first_present(fields, aliases.drop_first())
    }
}

pub proof fn lemma_first_present_skip(fields: FieldsModel, aliases: Seq<Seq<char>>, w: int)
    requires
        0 <= w <= aliases.len(),
        forall|u: int| 0 <= u < w ==> !has_key(fields, #[trigger] aliases[u]),
    ensures
        first_present(fields, aliases) == first_present(fields, aliases.skip(w)),
    decreases w,
{
    if w > 0 {
        lemma_first_present_skip(fields, aliases.drop_first(), w - 1);
        assert(aliases.drop_first().skip(w - 1) =~= aliases.skip(w));
    } else {
        assert(aliases.skip(0) =~= aliases);
    }
}

/// Fill the timestamp slot from the first present alias whose text value
/// parses as a timestamp; that field leaves the map.
pub open spec fn promote_timestamp(m: EventModel) -> EventModel {
    if m.timestamp is Some {
        m
    } else {
        match first_present(m.fields, ts_aliases()) {
            Some(k) => match lookup(m.fields, k) {
                Some(ValModel::MText(s)) => match ts_of(s) {
                    Some(inst) => EventModel {
                        timestamp: Some(inst),
                        fields: remove_key(m.fields, k),
                        ..m
                    },
                    None => m,
                },
                _ => m,
            },
            None => m,
        }
    }
}

/// Fill the level slot from the first present alias with a text value;
/// that field leaves the map.
pub open spec fn promote_level(m: EventModel) -> EventModel {
    if m.level is Some {
        m
    } else {
        match first_present(m.fields, level_aliases()) {
            Some(k) => match lookup(m.fields, k) {
                Some(ValModel::MText(s)) => EventModel {
                    level: Some(s),
                    fields: remove_key(m.fields, k),
                    ..m
                },
                _ => m,
            },
            None => m,
        }
    }
}

/// Fill the message slot from the first present alias with a text value;
/// that field leaves the map.
pub open spec fn promote_message(m: EventModel) -> EventModel {
    if m.message is Some {
        m
    } else {
        match first_present(m.fields, message_aliases()) {
            Some(k) => match lookup(m.fields, k) {
                Some(ValModel::MText(s)) => EventModel {
                    message: Some(s),
                    fields: remove_key(m.fields, k),
                    ..m
                },
                _ => m,
            },
            None => m,
        }
    }
}

/// Classify aliased raw fields into the three core slots.
pub open spec fn extract_model(m: EventModel) -> EventModel {
    promote_message(promote_level(promote_timestamp(m)))
}

/// Keep only the fields whose names stand in `keys`, in their old order.
pub open spec fn project_fields(fields: FieldsModel, keys: Seq<Seq<char>>) -> FieldsModel
    decreases fields.len(),
{
    if fields.len() == 0 {
        Seq::empty()
    } else {
        let front = project_fields(fields.drop_last(), keys);
        if keys.contains(fields.last().0) {
            front.push(fields.last())
        } else {
            front
        }
    }
}

/// Project an event onto a key list: core slots survive only when their own
/// names are requested, mapped fields only when their names are.
pub open spec fn project_model(m: EventModel, keys: Seq<Seq<char>>) -> EventModel {
    EventModel {
        timestamp: if keys.contains("timestamp"@) {
            m.timestamp
        } else {
            None
        },
        level: if keys.contains("level"@) {
            m.level
        } else {
            None
        },
        message: if keys.contains("message"@) {
            m.message
        } else {
            None
        },
        fields: project_fields(m.fields, keys),
    }
}

/// Every name in a projection occurs in the original field map.
pub proof fn lemma_project_keys(fields: FieldsModel, keys: Seq<Seq<char>>)
    ensures
        forall|q: int|
            0 <= q < project_fields(fields, keys).len() ==> exists|w: int|
                0 <= w < fields.len() && (#[trigger] fields[w]).0 == (#[trigger] project_fields(
                    fields,
                    keys,
                )[q]).0,
    decreases fields.len(),
{
    if fields.len() > 0 {
        lemma_project_keys(fields.drop_last(), keys);
        assert forall|q: int| 0 <= q < project_fields(fields, keys).len() implies exists|w: int|
            0 <= w < fields.len() && (#[trigger] fields[w]).0 == (#[trigger] project_fields(
                fields,
                keys,
            )[q]).0 by {
            let p = project_fields(fields, keys);
            let front = project_fields(fields.drop_last(), keys);
            if q < front.len() {
                assert(p[q] == front[q]);
                let w = choose|w: int|
                    0 <= w < fields.drop_last().len() && (#[trigger] fields.drop_last()[w]).0
                        == front[q].0;
                assert(fields[w].0 == p[q].0);
            } else {
                assert(p[q] == fields.last());
                assert(fields[fields.len() - 1].0 == p[q].0);
            }
        }
    }
}

/// Projection keeps names unique.
pub proof fn lemma_project_unique(fields: FieldsModel, keys: Seq<Seq<char>>)
    requires
        keys_unique(fields),
    ensures
        keys_unique(project_fields(fields, keys)),
    decreases fields.len(),
{
    if fields.len() > 0 {
        lemma_project_unique(fields.drop_last(), keys);
        lemma_project_keys(fields.drop_last(), keys);
        let p = project_fields(fields, keys);
        let front = project_fields(fields.drop_last(), keys);
        assert forall|i: int, j: int| 0 <= i < j < p.len() implies (#[trigger] p[i]).0 != (
        #[trigger] p[j]).0 by {
            if j < front.len() {
            } else if p.len() > front.len() && j == front.len() {
                assert(p[j] == fields.last());
                assert(p[i] == front[i]);
                if front[i].0 == fields.last().0 {
                    let w = choose|w: int|
                        0 <= w < fields.drop_last().len() && (#[trigger] fields.drop_last()[w]).0
                            == front[i].0;
                    assert(fields[w].0 == fields[fields.len() - 1].0);
                }
            }
        }
    }
}

// ---------- executable alias lists ----------

pub fn alias_strings_timestamp() -> (r: Vec<String>)
    ensures
        r@.map_values(|s: String| s@) == ts_aliases(),
{
    let mut v: Vec<String> = Vec::new();
    v.push("timestamp".to_owned());
    v.push("ts".to_owned());
    v.push("time".to_owned());
    v.push("at".to_owned());
    v.push("_t".to_owned());
    v.push("@t".to_owned());
    proof {
        assert(v@.map_values(|s: String| s@) =~= ts_aliases());
    }
    v
}

pub fn alias_strings_level() -> (r: Vec<String>)
    ensures
        r@.map_values(|s: String| s@) == level_aliases(),
{
    let mut v: Vec<String> = Vec::new();
    v.push("level".to_owned());
    v.push("log_level".to_owned());
    v.push("loglevel".to_owned());
    v.push("lvl".to_owned());
    v.push("severity".to_owned());
    v.push("@l".to_owned());
    proof {
        assert(v@.map_values(|s: String| s@) =~= level_aliases());
    }
    v
}

pub fn alias_strings_message() -> (r: Vec<String>)
    ensures
        r@.map_values(|s: String| s@) == message_aliases(),
{
    let mut v: Vec<String> = Vec::new();
    v.push("message".to_owned());
    v.push("msg".to_owned());
    v.push("@m".to_owned());
    proof {
        assert(v@.map_values(|s: String| s@) =~= message_aliases());
    }
    v
}

/// Whether a string list holds the given text.
pub fn contains_str(keys: &Vec<String>, s: &str) -> (r: bool)
    ensures
        r == keys@.map_values(|k: String| k@).contains(s@),
{
    let sc = chars_of(s);
    let ghost key_views = keys@.map_values(|k: String| k@);
    let mut i: usize = 0;
    while i < keys.len()
        invariant
            i <= keys@.len(),
            sc@ == s@,
            key_views == keys@.map_values(|k: String| k@),
            forall|j: int| 0 <= j < i ==> key_views[j] != s@,
        decreases keys@.len() - i,
    {
        let kc = chars_of(keys[i].as_str());
        proof {
            assert(key_views[i as int] == keys@[i as int]@);
        }
        if chars_eq(&kc, &sc) {
            proof {
                assert(key_views[i as int] == s@);
            }
            return true;
        }
        i += 1;
    }
    proof {
        assert(!key_views.contains(s@)) by {
            if key_views.contains(s@) {
                let j = choose|j: int| 0 <= j < key_views.len() && key_views[j] == s@;
            }
        }
    }
    false
}

// ---------- the event ----------

/// One normalized log record.
pub struct Event {
    pub timestamp: Option<Timestamp>,
    pub level: Option<String>,
    pub message: Option<String>,
    pub fields: Vec<(String, FieldValue)>,
}

/// The model of a name/value pair list.
pub open spec fn pairs_model(s: Seq<(String, FieldValue)>) -> FieldsModel {
    s.map_values(|p: (String, FieldValue)| (p.0@, p.1.model()))
}

impl Event {
    pub open spec fn fields_model(self) -> FieldsModel {
        pairs_model(self.fields@)
    }

    pub open spec fn model(self) -> EventModel {
        EventModel {
            timestamp: match self.timestamp {
                Some(t) => Some((t.secs as int, t.nanos as int)),
                None => None,
            },
            level: match self.level {
                Some(l) => Some(l@),
                None => None,
            },
            message: match self.message {
                Some(m) => Some(m@),
                None => None,
            },
            fields: self.fields_model(),
        }
    }

    /// Well-formed: field names unique.
    pub open spec fn wf(self) -> bool {
        keys_unique(self.fields_model())
    }

    /// A fresh event with no core fields and no mapped fields.
    pub fn new() -> (r: Event)
        ensures
            r.model() == EventModel::empty(),
            r.wf(),
    {
        let r = Event { timestamp: None, level: None, message: None, fields: Vec::new() };
        proof {
            assert(r.fields_model() =~= Seq::<(Seq<char>, ValModel)>::empty());
        }
        r
    }

    /// Index of the first field with the given name.
    fn find_field(&self, key: &Vec<char>) -> (r: Option<usize>)
        ensures
            match r {
                Some(i) => i < self.fields@.len() && self.fields_model()[i as int].0 == key@
                    && (forall|j: int|
                    0 <= j < i ==> (#[trigger] self.fields_model()[j]).0 != key@),
                None => !has_key(self.fields_model(), key@),
            },
    {
        let mut i: usize = 0;
        while i < self.fields.len()
            invariant
                i <= self.fields@.len(),
                forall|j: int| 0 <= j < i ==> (#[trigger] self.fields_model()[j]).0 != key@,
            decreases self.fields@.len() - i,
        {
            let name = chars_of(self.fields[i].0.as_str());
            if chars_eq(&name, key) {
                return Some(i);
            }
            i += 1;
        }
        proof {
            lemma_lookup_absent(self.fields_model(), key@);
        }
        None
    }

    /// Insert or replace one field.
    pub fn set_field(&mut self, key: String, value: FieldValue)
        ensures
            final(self).model() == (EventModel {
                fields: upsert(old(self).model().fields, key@, value.model()),
                ..old(self).model()
            }),
            old(self).wf() ==> final(self).wf(),
    {
        let kc = chars_of(key.as_str());
        match self.find_field(&kc) {
            Some(i) => {
                proof {
                    lemma_upsert_at(self.fields_model(), key@, value.model(), i as int);
                }
                let ghost before = self.fields_model();
                self.fields.set(i, (key, value));
                proof {
                    assert(self.fields_model() =~= before.update(
                        i as int,
                        (key@, value.model()),
                    ));
                    if keys_unique(before) {
                        lemma_upsert_unique(before, key@, value.model());
                    }
                }
            },
            None => {
                proof {
                    lemma_upsert_absent(self.fields_model(), key@, value.model());
                }
                let ghost before = self.fields_model();
                self.fields.push((key, value));
                proof {
                    assert(self.fields_model() =~= before.push((key@, value.model())));
                    if keys_unique(before) {
                        lemma_upsert_unique(before, key@, value.model());
                    }
                }
            },
        }
    }

    /// The value mapped under a name, if any.
    pub fn get_field(&self, name: &str) -> (r: Option<&FieldValue>)
        ensures
            match r {
                Some(v) => lookup(self.model().fields, name@) == Some(v.model()),
                None => lookup(self.model().fields, name@) is None,
            },
    {
        let nc = chars_of(name);
        match self.find_field(&nc) {
            Some(i) => {
                proof {
                    lemma_lookup_at(self.fields_model(), name@, i as int);
                }
                Some(&self.fields[i].1)
            },
            None => None,
        }
    }

    /// Index into `fields` of the first present alias, scanning aliases in
    /// priority order; the index is the first occurrence of that name.
    fn find_first_alias(&self, aliases: &Vec<String>) -> (r: Option<usize>)
        ensures
            match r {
                Some(i) => {
                    &&& i < self.fields@.len()
                    &&& first_present(
                        self.fields_model(),
                        aliases@.map_values(|s: String| s@),
                    ) == Some(self.fields_model()[i as int].0)
                    &&& forall|j: int|
                        0 <= j < i ==> (#[trigger] self.fields_model()[j]).0
                            != self.fields_model()[i as int].0
                },
                None => first_present(
                    self.fields_model(),
                    aliases@.map_values(|s: String| s@),
                ) is None,
            },
    {
        let ghost alias_views = aliases@.map_values(|s: String| s@);
        let mut w: usize = 0;
        while w < aliases.len()
            invariant
                w <= aliases@.len(),
                alias_views == aliases@.map_values(|s: String| s@),
                forall|u: int| 0 <= u < w ==> !has_key(self.fields_model(), #[trigger] alias_views[u]),
            decreases aliases@.len() - w,
        {
            let a = chars_of(aliases[w].as_str());
            match self.find_field(&a) {
                Some(i) => {
                    proof {
                        lemma_first_present_skip(self.fields_model(), alias_views, w as int);
                        assert(alias_views.skip(w as int)[0] == alias_views[w as int]);
                        lemma_lookup_at(self.fields_model(), a@, i as int);
                    }
                    return Some(i);
                },
                None => {
                },
            }
            w += 1;
        }
        proof {
            lemma_first_present_skip(self.fields_model(), alias_views, w as int);
            assert(alias_views.skip(w as int) =~= Seq::<Seq<char>>::empty());
        }
        None
    }

    /// Take the field at one index out of the map; the index must be the
    /// first occurrence of its name.
    fn take_field_at(&mut self, i: usize) -> (pair: (String, FieldValue))
        requires
            i < old(self).fields@.len(),
            forall|j: int|
                0 <= j < i ==> (#[trigger] old(self).fields_model()[j]).0 != old(
                    self,
                ).fields_model()[i as int].0,
        ensures
            pair == old(self).fields@[i as int],
            final(self).fields_model() == remove_key(
                old(self).fields_model(),
                old(self).fields_model()[i as int].0,
            ),
            final(self).timestamp == old(self).timestamp,
            final(self).level == old(self).level,
            final(self).message == old(self).message,
            old(self).wf() ==> final(self).wf(),
    {
        let ghost before = self.fields_model();
        let ghost k = self.fields_model()[i as int].0;
        let pair = self.fields.remove(i);
        proof {
            lemma_remove_at(before, k, i as int);
            assert(self.fields_model() =~= before.subrange(0, i as int) + before.subrange(
                i as int + 1,
                before.len() as int,
            ));
            if keys_unique(before) {
                let after = self.fields_model();
                assert forall|a: int, b: int| 0 <= a < b < after.len() implies (
                #[trigger] after[a]).0 != (#[trigger] after[b]).0 by {
                    let a0 = if a < i {
                        a
                    } else {
                        a + 1
                    };
                    let b0 = if b < i {
                        b
                    } else {
                        b + 1
                    };
                    assert(after[a] == before[a0]);
                    assert(after[b] == before[b0]);
                }
            }
        }
        pair
    }

    /// Fill the timestamp slot, as `promote_timestamp` describes.
    fn promote_timestamp_slot(&mut self)
        ensures
            final(self).model() == promote_timestamp(old(self).model()),
            old(self).wf() ==> final(self).wf(),
    {
        if self.timestamp.is_some() {
            return ;
        }
        let aliases = alias_strings_timestamp();
        match self.find_first_alias(&aliases) {
            Some(i) => {
                proof {
                    lemma_lookup_at(self.fields_model(), self.fields_model()[i as int].0, i as int);
                }
                let parsed: Option<(i64, u32)> = match &self.fields[i].1 {
                    FieldValue::Text(s) => parse_timestamp(s.as_str()),
                    _ => None,
                };
                match parsed {
                    Some((secs, nanos)) => {
                        self.timestamp = Some(Timestamp { secs, nanos });
                        let _ = self.take_field_at(i);
                    },
                    None => {
                    },
                }
            },
            None => {
            },
        }
    }

    /// Fill the level slot, as `promote_level` describes.
    fn promote_level_slot(&mut self)
        ensures
            final(self).model() == promote_level(old(self).model()),
            old(self).wf() ==> final(self).wf(),
    {
        if self.level.is_some() {
            return ;
        }
        let aliases = alias_strings_level();
        match self.find_first_alias(&aliases) {
            Some(i) => {
                proof {
                    lemma_lookup_at(self.fields_model(), self.fields_model()[i as int].0, i as int);
                }
                let is_text = match &self.fields[i].1 {
                    FieldValue::Text(_) => true,
                    _ => false,
                };
                if is_text {
                    let pair = self.take_field_at(i);
                    if let FieldValue::Text(s) = pair.1 {
                        self.level = Some(s);
                    }
                }
            },
            None => {
            },
        }
    }

    /// Fill the message slot, as `promote_message` describes.
    fn promote_message_slot(&mut self)
        ensures
            final(self).model() == promote_message(old(self).model()),
            old(self).wf() ==> final(self).wf(),
    {
        if self.message.is_some() {
            return ;
        }
        let aliases = alias_strings_message();
        match self.find_first_alias(&aliases) {
            Some(i) => {
                proof {
                    lemma_lookup_at(self.fields_model(), self.fields_model()[i as int].0, i as int);
                }
                let is_text = match &self.fields[i].1 {
                    FieldValue::Text(_) => true,
                    _ => false,
                };
                if is_text {
                    let pair = self.take_field_at(i);
                    if let FieldValue::Text(s) = pair.1 {
                        self.message = Some(s);
                    }
                }
            },
            None => {
            },
        }
    }

    /// Classify aliased raw fields into the three core slots: for each unset
    /// slot, the first present alias with a suitable text value fills it and
    /// leaves the field map.
    pub fn extract_core_fields(&mut self)
        ensures
            final(self).model() == extract_model(old(self).model()),
            old(self).wf() ==> final(self).wf(),
    {
        self.promote_timestamp_slot();
        self.promote_level_slot();
        self.promote_message_slot();
    }

    /// Keep only the requested keys: core slots survive only when their own
    /// names are requested, mapped fields only when theirs are.
    pub fn filter_keys(&mut self, keys: &Vec<String>)
        ensures
            final(self).model() == project_model(
                old(self).model(),
                keys@.map_values(|s: String| s@),
            ),
            old(self).wf() ==> final(self).wf(),
    {
        let ghost key_views = keys@.map_values(|s: String| s@);
        let ghost before = self.fields_model();
        if !contains_str(keys, "timestamp") {
            self.timestamp = None;
        }
        if !contains_str(keys, "level") {
            self.level = None;
        }
        if !contains_str(keys, "message") {
            self.message = None;
        }
        let mut kept: Vec<(String, FieldValue)> = Vec::new();
        let mut i: usize = 0;
        while i < self.fields.len()
            invariant
                i <= self.fields@.len(),
                self.fields_model() == before,
                key_views == keys@.map_values(|s: String| s@),
                kept@.map_values(|p: (String, FieldValue)| (p.0@, p.1.model())) == project_fields(
                    before.take(i as int),
                    key_views,
                ),
            decreases self.fields@.len() - i,
        {
            let p = &self.fields[i];
            let ghost kept_before = kept@.map_values(|p: (String, FieldValue)| (p.0@, p.1.model()));
            if contains_str(keys, p.0.as_str()) {
                let name = p.0.clone();
                let v = p.1.duplicate();
                kept.push((name, v));
                proof {
                    assert(before.take(i as int + 1).drop_last() =~= before.take(i as int));
                    assert(before.take(i as int + 1).last() == before[i as int]);
                    assert(kept@.map_values(|p: (String, FieldValue)| (p.0@, p.1.model()))
                        =~= kept_before.push(before[i as int]));
                }
            } else {
                proof {
                    assert(before.take(i as int + 1).drop_last() =~= before.take(i as int));
                    assert(before.take(i as int + 1).last() == before[i as int]);
                }
            }
            i += 1;
        }
        proof {
            assert(before.take(before.len() as int) =~= before);
        }
        self.fields = kept;
        proof {
            if keys_unique(before) {
                lemma_project_unique(before, key_views);
            }
        }
    }

    /// Whether anything would be shown for this event.
    pub fn has_displayable_content(&self) -> (r: bool)
        ensures
            r == (self.model().timestamp is Some || self.model().level is Some
                || self.model().message is Some || self.model().fields.len() > 0),
    {
        self.timestamp.is_some() || self.level.is_some() || self.message.is_some()
            || self.fields.len() > 0
    }
}

} // verus!
