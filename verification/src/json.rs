//! JSON documents as the shell reads and writes them: the values, reading a
//! member, replacing one, and the text of a document.
use vstd::prelude::*;

verus! {

/// A JSON value.
pub enum Json {
    Null,
    Bool(bool),
    /// A number, as its text.
    Number(String),
    Str(String),
    Array(Vec<Json>),
    /// An object's members, in order.
    Object(Vec<(String, Json)>),
}

/// The mathematical content of a JSON value.
pub enum JsonValue {
    Null,
    Bool(bool),
    Number(Seq<char>),
    Str(Seq<char>),
    Array(Seq<JsonValue>),
    Object(Seq<(Seq<char>, JsonValue)>),
}

/// The content of a JSON value.
pub open spec fn json_model(j: Json) -> JsonValue
    decreases j,
{
    match j {
        Json::Null => JsonValue::Null,
        Json::Bool(b) => JsonValue::Bool(b),
        Json::Number(n) => JsonValue::Number(n@),
        Json::Str(s) => JsonValue::Str(s@),
        Json::Array(v) => JsonValue::Array(
            Seq::new(
                v.len() as nat,
                |i: int|
                    if 0 <= i < v.len() {
                        json_model(v@[i])
                    } else {
                        JsonValue::Null
                    },
            ),
        ),
        Json::Object(v) => JsonValue::Object(
            Seq::new(
                v.len() as nat,
                |i: int|
                    if 0 <= i < v.len() {
                        (v@[i].0@, json_model(v@[i].1))
                    } else {
                        (Seq::empty(), JsonValue::Null)
                    },
            ),
        ),
    }
}

/// The content of an array's items.
pub open spec fn items_model(v: Seq<Json>) -> Seq<JsonValue> {
    Seq::new(v.len(), |i: int| json_model(v[i]))
}

/// The content of an object's members.
pub open spec fn fields_model(v: Seq<(String, Json)>) -> Seq<(Seq<char>, JsonValue)> {
    Seq::new(v.len(), |i: int| (v[i].0@, json_model(v[i].1)))
}

/// An array's content is the content of its items.
pub proof fn lemma_array_model(v: Vec<Json>)
    ensures
        json_model(Json::Array(v)) == JsonValue::Array(items_model(v@)),
{
    if let JsonValue::Array(s) = json_model(Json::Array(v)) {
        assert(s =~= items_model(v@));
    }
}

/// An object's content is the content of its members.
pub proof fn lemma_object_model(v: Vec<(String, Json)>)
    ensures
        json_model(Json::Object(v)) == JsonValue::Object(fields_model(v@)),
{
    if let JsonValue::Object(s) = json_model(Json::Object(v)) {
        assert(s =~= fields_model(v@));
    }
}

// ---------------------------------------------------------------- parsing and printing

#[verifier::external_type_specification]
#[verifier::external_body]
pub struct ExJsonDocument(serde_json::Value);

/// What `serde_json::from_str::<serde_json::Value>` gives for `text` (`None` for an error).
pub uninterp spec fn json_of(text: Seq<char>) -> Option<JsonValue>;

/// What `serde_json::to_string_pretty` writes for a document once converted to
/// a `serde_json::Value` (see `json_pretty`).
pub uninterp spec fn json_text(doc: JsonValue) -> Seq<char>;

/// `serde_json::from_str::<serde_json::Value>`. Trusted: its result, converted
/// value by value (numbers as their text, object members in the order
/// `serde_json`'s map gives them), is the name `json_of` of the text.
#[verifier::external_body]
pub(crate) fn parse_json(text: &str) -> (r: Option<Json>)
    ensures
        match r {
            Some(j) => json_of(text@) == Some(json_model(j)),
            None => json_of(text@) is None,
        },
{
    match serde_json::from_str::<serde_json::Value>(text) {
        Ok(v) => Some(from_document(v)),
        Err(_) => None,
    }
}

/// The conversion inside `parse_json`, one arm per `serde_json::Value` variant.
#[verifier::external_body]
fn from_document(v: serde_json::Value) -> Json {
    match v {
        serde_json::Value::Null => Json::Null,
        serde_json::Value::Bool(b) => Json::Bool(b),
        serde_json::Value::Number(n) => Json::Number(n.to_string()),
        serde_json::Value::String(s) => Json::Str(s),
        serde_json::Value::Array(a) => Json::Array(a.into_iter().map(from_document).collect()),
        serde_json::Value::Object(m) => Json::Object(m.into_iter().map(|(k, x)| (k, from_document(x))).collect()),
    }
}

/// The conversion inside `json_pretty`, one arm per variant (a number's text is
/// read back as a `serde_json::Number`).
#[verifier::external_body]
fn to_document(j: &Json) -> serde_json::Value {
    match j {
        Json::Null => serde_json::Value::Null,
        Json::Bool(b) => serde_json::Value::Bool(*b),
        Json::Number(n) => n.parse::<serde_json::Number>().map(serde_json::Value::Number).unwrap_or(serde_json::Value::Null),
        Json::Str(s) => serde_json::Value::String(s.clone()),
        Json::Array(a) => serde_json::Value::Array(a.iter().map(to_document).collect()),
        Json::Object(m) => serde_json::Value::Object(m.iter().map(|(k, x)| (k.clone(), to_document(x))).collect()),
    }
}

/// `serde_json::to_string_pretty`. Trusted: the text is the name `json_text`
/// of the document's content (serialising a `serde_json::Value` does not fail).
/// The conversion to a `serde_json::Value` is value by value; a number whose
/// text is no JSON number becomes `null`, a member name given twice keeps its
/// last value, and members come out in the order of `serde_json`'s map (its
/// default `BTreeMap`, ordered by name). Parsing the text gives the document
/// back with each object's members in that order (`sorted`) when the document
/// is `readable` at 127 levels: it holds no number, no object names a member
/// twice, and no more than 127 arrays and objects nest (the parser gives up at
/// 128). For other documents what parsing gives back is not stated.
#[verifier::external_body]
pub(crate) fn json_pretty(doc: &Json) -> (r: String)
    ensures
        r@ == json_text(json_model(*doc)),
        readable(json_model(*doc), 127) ==> json_of(r@) == Some(sorted(json_model(*doc))),
{
    serde_json::to_string_pretty(&to_document(doc)).unwrap_or_default()
}

/// Whether `text` is a JSON document.
pub fn is_json(text: &str) -> (r: bool)
    ensures
        r == json_of(text@) is Some,
{
    parse_json(text).is_some()
}

// ---------------------------------------------------------------- reading back

/// The order of member names in `serde_json`'s map: by character code,
/// a proper prefix first.
pub open spec fn key_lt(a: Seq<char>, b: Seq<char>) -> bool
    decreases a.len(),
{
    if b.len() == 0 {
        false
    } else if a.len() == 0 {
        true
    } else if a[0] != b[0] {
        (a[0] as u32) < (b[0] as u32)
    } else {
        key_lt(a.drop_first(), b.drop_first())
    }
}

/// `m` inserted into the ordered members `g` before the first greater name.
pub open spec fn insert_member(g: Seq<(Seq<char>, JsonValue)>, m: (Seq<char>, JsonValue)) -> Seq<(Seq<char>, JsonValue)>
    decreases g.len(),
{
    if g.len() == 0 {
        seq![m]
    } else if key_lt(m.0, g[0].0) {
        seq![m] + g
    } else {
        seq![g[0]] + insert_member(g.drop_first(), m)
    }
}

/// Members ordered by name.
pub open spec fn sort_members(f: Seq<(Seq<char>, JsonValue)>) -> Seq<(Seq<char>, JsonValue)>
    decreases f.len(),
{
    if f.len() == 0 {
        seq![]
    } else {
        insert_member(sort_members(f.drop_last()), f.last())
    }
}

/// A document with the members of each object ordered by name, at every level.
pub open spec fn sorted(j: JsonValue) -> JsonValue
    decreases j,
{
    match j {
        JsonValue::Array(items) => JsonValue::Array(
            Seq::new(
                items.len(),
                |i: int|
                    if 0 <= i < items.len() {
                        sorted(items[i])
                    } else {
                        JsonValue::Null
                    },
            ),
        ),
        JsonValue::Object(f) => JsonValue::Object(sort_members(sorted_values(f))),
        _ => j,
    }
}

/// Members with each value ordered (see `sorted`), in their own order.
pub open spec fn sorted_values(f: Seq<(Seq<char>, JsonValue)>) -> Seq<(Seq<char>, JsonValue)>
    decreases f,
{
    Seq::new(
        f.len(),
        |i: int|
            if 0 <= i < f.len() {
                (f[i].0, sorted(f[i].1))
            } else {
                (Seq::empty(), JsonValue::Null)
            },
    )
}

/// No two members share a name.
pub open spec fn distinct_keys(f: Seq<(Seq<char>, JsonValue)>) -> bool {
    forall|a: int, b: int| 0 <= a < b < f.len() ==> f[a].0 != f[b].0
}

/// A document that reads back from its text: no numbers, no member named twice
/// in an object, and at most `depth` arrays and objects nested.
pub open spec fn readable(j: JsonValue, depth: int) -> bool
    decreases j,
{
    match j {
        JsonValue::Number(_) => false,
        JsonValue::Array(items) => depth > 0 && forall|i: int|
            0 <= i < items.len() ==> readable(#[trigger] items[i], depth - 1),
        JsonValue::Object(f) => depth > 0 && distinct_keys(f) && forall|i: int|
            0 <= i < f.len() ==> readable(#[trigger] f[i].1, depth - 1),
        _ => true,
    }
}

/// A member of a readable object is readable one level down.
pub proof fn lemma_readable_member(f: Seq<(Seq<char>, JsonValue)>, d: int, i: int)
    requires
        readable(JsonValue::Object(f), d),
        0 <= i < f.len(),
    ensures
        d > 0,
        distinct_keys(f),
        readable(f[i].1, d - 1),
{
    reveal_with_fuel(readable, 2);
    assert(readable(f[i].1, d - 1));
}

proof fn lemma_key_index_char(f: Seq<(Seq<char>, JsonValue)>, key: Seq<char>, i: int)
    requires
        0 <= i <= f.len(),
    ensures
        i <= key_index(f, key, i) <= f.len(),
        forall|m: int| i <= m < key_index(f, key, i) ==> f[m].0 != key,
        key_index(f, key, i) < f.len() ==> f[key_index(f, key, i)].0 == key,
    decreases f.len() - i,
{
    if i < f.len() && f[i].0 != key {
        lemma_key_index_char(f, key, i + 1);
    }
}

/// Looking a name up in `x` followed by `h`.
pub proof fn lemma_member_prepend(x: (Seq<char>, JsonValue), h: Seq<(Seq<char>, JsonValue)>, k: Seq<char>)
    ensures
        member(JsonValue::Object(seq![x] + h), k) == if x.0 == k {
            Some(x.1)
        } else {
            member(JsonValue::Object(h), k)
        },
{
    let g = seq![x] + h;
    if x.0 == k {
        lemma_key_index(g, k, 0, 0);
    } else {
        lemma_key_index_char(h, k, 0);
        let ih = key_index(h, k, 0);
        assert forall|m: int| 0 <= m < ih + 1 implies g[m].0 != k by {
            if m > 0 {
                assert(g[m] == h[m - 1]);
            }
        }
        if ih < h.len() {
            assert(g[ih + 1] == h[ih]);
        }
        lemma_key_index(g, k, 0, ih + 1);
    }
}

/// Looking a name up after a member was appended.
pub proof fn lemma_member_push(f: Seq<(Seq<char>, JsonValue)>, x: (Seq<char>, JsonValue), k: Seq<char>)
    ensures
        member(JsonValue::Object(f.push(x)), k) == if member(JsonValue::Object(f), k) is Some {
            member(JsonValue::Object(f), k)
        } else if x.0 == k {
            Some(x.1)
        } else {
            None
        },
{
    let g = f.push(x);
    lemma_key_index_char(f, k, 0);
    let i = key_index(f, k, 0);
    if i < f.len() {
        lemma_key_index(g, k, 0, i);
    } else if x.0 == k {
        lemma_key_index(g, k, 0, f.len() as int);
    } else {
        lemma_key_index(g, k, 0, (f.len() + 1) as int);
    }
}

proof fn lemma_insert_member(g: Seq<(Seq<char>, JsonValue)>, m: (Seq<char>, JsonValue), k: Seq<char>)
    requires
        member(JsonValue::Object(g), m.0) is None,
    ensures
        member(JsonValue::Object(insert_member(g, m)), k) == if k == m.0 {
            Some(m.1)
        } else {
            member(JsonValue::Object(g), k)
        },
    decreases g.len(),
{
    if g.len() == 0 {
        lemma_member_prepend(m, g, k);
        assert(seq![m] + g =~= seq![m]);
    } else if key_lt(m.0, g[0].0) {
        lemma_member_prepend(m, g, k);
    } else {
        let t = g.drop_first();
        assert(g =~= seq![g[0]] + t);
        lemma_member_prepend(g[0], t, k);
        lemma_member_prepend(g[0], t, m.0);
        lemma_insert_member(t, m, k);
        lemma_member_prepend(g[0], insert_member(t, m), k);
    }
}

proof fn lemma_sort_members(f: Seq<(Seq<char>, JsonValue)>, k: Seq<char>)
    requires
        distinct_keys(f),
    ensures
        member(JsonValue::Object(sort_members(f)), k) == member(JsonValue::Object(f), k),
    decreases f.len(),
{
    if f.len() == 0 {
        assert(sort_members(f) =~= f);
    } else {
        let p = f.drop_last();
        let x = f.last();
        assert(distinct_keys(p));
        lemma_key_index_char(p, x.0, 0);
        assert(member(JsonValue::Object(p), x.0) is None) by {
            let i = key_index(p, x.0, 0);
            if i < p.len() {
                assert(f[i].0 == f[f.len() - 1].0);
            }
        }
        lemma_sort_members(p, x.0);
        lemma_sort_members(p, k);
        lemma_insert_member(sort_members(p), x, k);
        assert(f =~= p.push(x));
        lemma_member_push(p, x, k);
    }
}

/// Appending a member under a new name keeps the names distinct.
pub proof fn lemma_distinct_push(f: Seq<(Seq<char>, JsonValue)>, x: (Seq<char>, JsonValue))
    requires
        distinct_keys(f),
        member(JsonValue::Object(f), x.0) is None,
    ensures
        distinct_keys(f.push(x)),
{
    lemma_key_index_char(f, x.0, 0);
    let g = f.push(x);
    assert forall|a: int, b: int| 0 <= a < b < g.len() implies g[a].0 != g[b].0 by {
        if b == f.len() {
            assert(g[a] == f[a]);
        } else {
            assert(g[a] == f[a] && g[b] == f[b]);
        }
    }
}

/// Looking a name up after member `i`'s value was replaced.
pub proof fn lemma_member_update(f: Seq<(Seq<char>, JsonValue)>, i: int, v: JsonValue, k: Seq<char>)
    requires
        0 <= i < f.len(),
    ensures
        member(JsonValue::Object(f.update(i, (f[i].0, v))), k) == if key_index(f, k, 0) == i {
            Some(v)
        } else {
            member(JsonValue::Object(f), k)
        },
        key_index(f.update(i, (f[i].0, v)), k, 0) == key_index(f, k, 0),
{
    let g = f.update(i, (f[i].0, v));
    lemma_key_index_char(f, k, 0);
    let x = key_index(f, k, 0);
    lemma_key_index(g, k, 0, x);
}

/// The first member named `k` is at `key_index`, and is named `k`.
pub proof fn lemma_first_key(f: Seq<(Seq<char>, JsonValue)>, k: Seq<char>)
    ensures
        0 <= key_index(f, k, 0) <= f.len(),
        key_index(f, k, 0) < f.len() ==> f[key_index(f, k, 0)].0 == k,
        key_index(f, k, 0) == f.len() ==> forall|m: int| 0 <= m < f.len() ==> f[m].0 != k,
{
    lemma_key_index_char(f, k, 0);
}

/// A member of a readable document is readable one level down, and the
/// document is an object without repeated names.
pub proof fn lemma_member_readable(j: JsonValue, k: Seq<char>, d: int)
    requires
        readable(j, d),
        member(j, k) is Some,
    ensures
        j is Object,
        distinct_keys(j->Object_0),
        d > 0,
        readable(member(j, k)->0, d - 1),
{
    let f = j->Object_0;
    lemma_key_index_char(f, k, 0);
    lemma_readable_member(f, d, key_index(f, k, 0));
}

/// Replacing a member of a readable document by a value readable one level
/// down keeps it readable, and the member then holds that value.
pub proof fn lemma_with_member(j: JsonValue, k: Seq<char>, v: JsonValue, d: int)
    requires
        readable(j, d),
        member(j, k) is Some,
        readable(v, d - 1),
    ensures
        readable(with_member(j, k, v), d),
        with_member(j, k, v) is Object,
        distinct_keys(with_member(j, k, v)->Object_0),
        member(with_member(j, k, v), k) == Some(v),
{
    lemma_member_readable(j, k, d);
    let f = j->Object_0;
    lemma_key_index_char(f, k, 0);
    let i = key_index(f, k, 0);
    let g = f.update(i, (k, v));
    assert(g == f.update(i, (f[i].0, v)));
    lemma_member_update(f, i, v, k);
    assert(distinct_keys(g)) by {
        assert forall|a: int, b: int| 0 <= a < b < g.len() implies g[a].0 != g[b].0 by {
            assert(g[a].0 == f[a].0 && g[b].0 == f[b].0);
        }
    }
    assert forall|m: int| 0 <= m < g.len() implies readable(#[trigger] g[m].1, d - 1) by {
        if m != i {
            assert(g[m] == f[m]);
            lemma_readable_member(f, d, m);
        }
    }
    assert(readable(JsonValue::Object(g), d)) by {
        reveal_with_fuel(readable, 2);
    }
}

/// In a document without repeated names, a member of the ordered document is
/// the ordered member.
pub proof fn lemma_sorted_member(f: Seq<(Seq<char>, JsonValue)>, k: Seq<char>)
    requires
        distinct_keys(f),
    ensures
        member(sorted(JsonValue::Object(f)), k) == match member(JsonValue::Object(f), k) {
            Some(v) => Some(sorted(v)),
            None => None,
        },
{
    let g = sorted_values(f);
    assert(distinct_keys(g));
    lemma_sort_members(g, k);
    lemma_key_index_char(f, k, 0);
    let i = key_index(f, k, 0);
    lemma_key_index(g, k, 0, i);
}

// ---------------------------------------------------------------- members

/// Index of the first member named `key` at or after `i` (`f.len()` when none).
pub open spec fn key_index(f: Seq<(Seq<char>, JsonValue)>, key: Seq<char>, i: int) -> int
    decreases f.len() - i,
{
    if i < 0 || i >= f.len() {
        f.len() as int
    } else if f[i].0 == key {
        i
    } else {
        key_index(f, key, i + 1)
    }
}

/// The value of member `key` of an object (`v["key"]` that is not `null` by absence).
pub open spec fn member(j: JsonValue, key: Seq<char>) -> Option<JsonValue> {
    match j {
        JsonValue::Object(f) => {
            let k = key_index(f, key, 0);
            if k < f.len() {
                Some(f[k].1)
            } else {
                None
            }
        },
        _ => None,
    }
}

/// Member `key` when it is a string (`v["key"].as_str()`).
pub open spec fn str_at(j: JsonValue, key: Seq<char>) -> Option<Seq<char>> {
    match member(j, key) {
        Some(JsonValue::Str(s)) => Some(s),
        _ => None,
    }
}

/// `j` with the value of its first member named `key` replaced by `v` (unchanged
/// when there is none, or when `j` is not an object).
pub open spec fn with_member(j: JsonValue, key: Seq<char>, v: JsonValue) -> JsonValue {
    match j {
        JsonValue::Object(f) => {
            let k = key_index(f, key, 0);
            if k < f.len() {
                JsonValue::Object(f.update(k, (key, v)))
            } else {
                j
            }
        },
        _ => j,
    }
}

/// `j` with member `key` set to `v`: replaced when present, else appended
/// (`v["key"] = ...` on an object).
pub open spec fn put_member(j: JsonValue, key: Seq<char>, v: JsonValue) -> JsonValue {
    match j {
        JsonValue::Object(f) => {
            let k = key_index(f, key, 0);
            if k < f.len() {
                JsonValue::Object(f.update(k, (key, v)))
            } else {
                JsonValue::Object(f.push((key, v)))
            }
        },
        _ => j,
    }
}

proof fn lemma_key_index(f: Seq<(Seq<char>, JsonValue)>, key: Seq<char>, i: int, k: int)
    requires
        0 <= i <= k <= f.len(),
        forall|m: int| i <= m < k ==> f[m].0 != key,
        k == f.len() || f[k].0 == key,
    ensures
        key_index(f, key, i) == k,
    decreases k - i,
{
    if i < k {
        lemma_key_index(f, key, i + 1, k);
    }
}

/// Index of the first member named `key` (`fields.len()` when none).
fn find_key(fields: &Vec<(String, Json)>, key: &str) -> (r: usize)
    ensures
        r == key_index(fields_model(fields@), key@, 0),
        r <= fields.len(),
{
    let ghost f = fields_model(fields@);
    let mut i: usize = 0;
    while i < fields.len() && !crate::text::str_eq(fields[i].0.as_str(), key)
        invariant
            i <= fields.len(),
            f == fields_model(fields@),
            forall|m: int| 0 <= m < i ==> f[m].0 != key@,
        decreases fields.len() - i,
    {
        i += 1;
    }
    proof {
        lemma_key_index(f, key@, 0, i as int);
    }
    i
}

/// Member `key` of `j`.
pub fn member_of<'a>(j: &'a Json, key: &str) -> (r: Option<&'a Json>)
    ensures
        match r {
            Some(v) => member(json_model(*j), key@) == Some(json_model(*v)),
            None => member(json_model(*j), key@) is None,
        },
{
    match j {
        Json::Object(fields) => {
            proof {
                lemma_object_model(*fields);
            }
            let i = find_key(fields, key);
            if i < fields.len() {
                Some(&fields[i].1)
            } else {
                None
            }
        },
        _ => None,
    }
}

/// Member `key` of `j` when it is a string.
pub fn str_member(j: &Json, key: &str) -> (r: Option<String>)
    ensures
        r.deep_view() == str_at(json_model(*j), key@),
{
    match member_of(j, key) {
        Some(Json::Str(s)) => Some(s.clone()),
        _ => None,
    }
}

/// A copy of a JSON value.
pub fn copy_json(j: &Json) -> (r: Json)
    ensures
        json_model(r) == json_model(*j),
    decreases j,
{
    match j {
        Json::Null => Json::Null,
        Json::Bool(b) => Json::Bool(*b),
        Json::Number(n) => Json::Number(n.clone()),
        Json::Str(s) => Json::Str(s.clone()),
        Json::Array(v) => {
            let mut out: Vec<Json> = Vec::new();
            let mut i: usize = 0;
            while i < v.len()
                invariant
                    i <= v.len(),
                    out.len() == i,
                    *j == Json::Array(*v),
                    items_model(out@) == items_model(v@).take(i as int),
                decreases v.len() - i,
            {
                let ghost before = out@;
                proof {
                    assert(decreases_to!(*j => (*j)->Array_0));
                    assert(decreases_to!(*v => v@));
                    assert(decreases_to!(v@ => v@[i as int]));
                }
                let c = copy_json(&v[i]);
                out.push(c);
                proof {
                    assert forall|k: int| 0 <= k < i + 1 implies #[trigger] items_model(out@)[k]
                        == items_model(v@)[k] by {
                        if k < i {
                            assert(out@[k] == before[k]);
                            assert(items_model(before)[k] == items_model(v@).take(i as int)[k]);
                        }
                    }
                    assert(items_model(out@) =~= items_model(v@).take(i + 1));
                }
                i += 1;
            }
            proof {
                assert(items_model(v@).take(v.len() as int) =~= items_model(v@));
                lemma_array_model(out);
                lemma_array_model(*v);
            }
            Json::Array(out)
        },
        Json::Object(v) => {
            let mut out: Vec<(String, Json)> = Vec::new();
            let mut i: usize = 0;
            while i < v.len()
                invariant
                    i <= v.len(),
                    out.len() == i,
                    *j == Json::Object(*v),
                    fields_model(out@) == fields_model(v@).take(i as int),
                decreases v.len() - i,
            {
                let ghost before = out@;
                proof {
                    assert(decreases_to!(*j => (*j)->Object_0));
                    assert(decreases_to!(*v => v@));
                    assert(decreases_to!(v@ => v@[i as int]));
                    assert(decreases_to!(v@[i as int] => v@[i as int].1));
                }
                let c = copy_json(&v[i].1);
                let k = v[i].0.clone();
                out.push((k, c));
                proof {
                    assert forall|m: int| 0 <= m < i + 1 implies #[trigger] fields_model(out@)[m]
                        == fields_model(v@)[m] by {
                        if m < i {
                            assert(out@[m] == before[m]);
                            assert(fields_model(before)[m] == fields_model(v@).take(i as int)[m]);
                        }
                    }
                    assert(fields_model(out@) =~= fields_model(v@).take(i + 1));
                }
                i += 1;
            }
            proof {
                assert(fields_model(v@).take(v.len() as int) =~= fields_model(v@));
                lemma_object_model(out);
                lemma_object_model(*v);
            }
            Json::Object(out)
        },
    }
}

/// `j` with member `key` replaced by `v` (see `with_member`); with `append`,
/// a missing member is appended instead (see `put_member`).
pub fn set_member(j: Json, key: &str, v: Json, append: bool) -> (r: Json)
    ensures
        append ==> json_model(r) == put_member(json_model(j), key@, json_model(v)),
        !append ==> json_model(r) == with_member(json_model(j), key@, json_model(v)),
{
    match j {
        Json::Object(fields) => {
            let ghost old_f = fields@;
            proof {
                lemma_object_model(fields);
            }
            let mut fields = fields;
            let i = find_key(&fields, key);
            if i < fields.len() {
                let ghost fm = fields_model(old_f);
                let (_k, _old) = fields.remove(i);
                fields.insert(i, (key.to_owned(), v));
                proof {
                    assert(fields_model(fields@) =~= fm.update(i as int, (key@, json_model(v))));
                    lemma_object_model(fields);
                }
                Json::Object(fields)
            } else if append {
                let ghost fm = fields_model(old_f);
                fields.push((key.to_owned(), v));
                proof {
                    assert(fields_model(fields@) =~= fm.push((key@, json_model(v))));
                    lemma_object_model(fields);
                }
                Json::Object(fields)
            } else {
                Json::Object(fields)
            }
        },
        other => other,
    }
}


// ---------------------------------------------------------------- arrays

/// An array's items as list entries: `Some` for a string, `None` for any other item.
pub open spec fn entries_of(items: Seq<JsonValue>) -> Seq<Option<Seq<char>>> {
    Seq::new(
        items.len(),
        |i: int|
            match items[i] {
                JsonValue::Str(s) => Some(s),
                _ => None,
            },
    )
}

/// The names of an object's members, in order.
pub open spec fn keys_of(f: Seq<(Seq<char>, JsonValue)>) -> Seq<Seq<char>> {
    Seq::new(f.len(), |i: int| f[i].0)
}

/// A string item for each name.
pub open spec fn strs_of(names: Seq<Seq<char>>) -> Seq<JsonValue> {
    Seq::new(names.len(), |i: int| JsonValue::Str(names[i]))
}

/// Member `key` of `o`, when `o` is a value.
pub open spec fn member_opt(o: Option<JsonValue>, key: Seq<char>) -> Option<JsonValue> {
    match o {
        Some(j) => member(j, key),
        None => None,
    }
}

/// The text of a document, when there is one.
pub open spec fn opt_text(o: Option<JsonValue>) -> Option<Seq<char>> {
    match o {
        Some(d) => Some(json_text(d)),
        None => None,
    }
}

/// The items whose `keep` flag is set, in order.
pub open spec fn flagged<A>(s: Seq<A>, keep: Seq<bool>) -> Seq<A>
    decreases s.len(),
{
    if s.len() == 0 {
        seq![]
    } else {
        let rest = flagged(s.drop_last(), keep.take(s.len() - 1));
        if keep[s.len() - 1] {
            rest.push(s.last())
        } else {
            rest
        }
    }
}

proof fn lemma_items_push(s: Seq<Json>, x: Json)
    ensures
        items_model(s.push(x)) =~= items_model(s).push(json_model(x)),
{
}

/// Member `key` of `o`, when `o` is a value.
pub fn member_in<'a>(o: Option<&'a Json>, key: &str) -> (r: Option<&'a Json>)
    ensures
        match r {
            Some(v) => member_opt(
                match o {
                    Some(j) => Some(json_model(*j)),
                    None => None,
                },
                key@,
            ) == Some(json_model(*v)),
            None => member_opt(
                match o {
                    Some(j) => Some(json_model(*j)),
                    None => None,
                },
                key@,
            ) is None,
        },
{
    match o {
        Some(j) => member_of(j, key),
        None => None,
    }
}

/// The entries of an array's items (see `entries_of`).
pub fn item_entries(items: &Vec<Json>) -> (r: Vec<Option<String>>)
    ensures
        r.deep_view() == entries_of(items_model(items@)),
{
    let ghost m = items_model(items@);
    let mut out: Vec<Option<String>> = Vec::new();
    let mut i: usize = 0;
    while i < items.len()
        invariant
            i <= items.len(),
            m == items_model(items@),
            out.deep_view() == entries_of(m).take(i as int),
        decreases items.len() - i,
    {
        let e = match &items[i] {
            Json::Str(s) => Some(s.clone()),
            _ => None,
        };
        proof {
            assert(m[i as int] == json_model(items@[i as int]));
            assert(e.deep_view() == entries_of(m)[i as int]);
        }
        let ghost before = out.deep_view();
        out.push(e);
        proof {
            assert(out.deep_view() =~= before.push(e.deep_view()));
            assert(out.deep_view() =~= entries_of(m).take(i + 1));
        }
        i += 1;
    }
    proof {
        assert(entries_of(m).take(items.len() as int) =~= entries_of(m));
    }
    out
}

/// The names of an object's members.
pub fn member_names(fields: &Vec<(String, Json)>) -> (r: Vec<String>)
    ensures
        r.deep_view() == keys_of(fields_model(fields@)),
{
    let ghost m = fields_model(fields@);
    let mut out: Vec<String> = Vec::new();
    let mut i: usize = 0;
    while i < fields.len()
        invariant
            i <= fields.len(),
            m == fields_model(fields@),
            out.deep_view() == keys_of(m).take(i as int),
        decreases fields.len() - i,
    {
        let k = fields[i].0.clone();
        let ghost before = out.deep_view();
        out.push(k);
        proof {
            assert(out.deep_view() =~= before.push(k@));
            assert(out.deep_view() =~= keys_of(m).take(i + 1));
        }
        i += 1;
    }
    proof {
        assert(keys_of(m).take(fields.len() as int) =~= keys_of(m));
    }
    out
}

/// Copies of the items whose `keep` flag is set.
pub fn keep_items(items: &Vec<Json>, keep: &Vec<bool>) -> (r: Vec<Json>)
    requires
        keep.len() == items.len(),
    ensures
        items_model(r@) == flagged(items_model(items@), keep@),
{
    let ghost m = items_model(items@);
    let mut out: Vec<Json> = Vec::new();
    let mut i: usize = 0;
    while i < items.len()
        invariant
            i <= items.len(),
            keep.len() == items.len(),
            m == items_model(items@),
            items_model(out@) == flagged(m.take(i as int), keep@.take(i as int)),
        decreases items.len() - i,
    {
        proof {
            assert(m.take(i + 1).drop_last() =~= m.take(i as int));
            assert(keep@.take(i + 1).take(i as int) =~= keep@.take(i as int));
            assert(m.take(i + 1).last() == m[i as int]);
        }
        if keep[i] {
            let c = copy_json(&items[i]);
            let ghost before = out@;
            out.push(c);
            proof {
                lemma_items_push(before, c);
            }
        }
        i += 1;
    }
    proof {
        assert(m.take(items.len() as int) =~= m);
        assert(keep@.take(items.len() as int) =~= keep@);
    }
    out
}

/// Copies of `items` followed by a string item for each name.
pub fn items_with_strings(items: &Vec<Json>, names: &Vec<String>) -> (r: Vec<Json>)
    ensures
        items_model(r@) == items_model(items@) + strs_of(names.deep_view()),
{
    let ghost m = items_model(items@);
    let mut out: Vec<Json> = Vec::new();
    let mut i: usize = 0;
    while i < items.len()
        invariant
            i <= items.len(),
            m == items_model(items@),
            items_model(out@) == m.take(i as int),
        decreases items.len() - i,
    {
        let c = copy_json(&items[i]);
        let ghost before = out@;
        out.push(c);
        proof {
            lemma_items_push(before, c);
            assert(items_model(out@) =~= m.take(i + 1));
        }
        i += 1;
    }
    let ghost base = out@;
    proof {
        assert(m.take(items.len() as int) =~= m);
    }
    let ghost ns = names.deep_view();
    let mut j: usize = 0;
    while j < names.len()
        invariant
            j <= names.len(),
            ns == names.deep_view(),
            items_model(out@) == m + strs_of(ns).take(j as int),
        decreases names.len() - j,
    {
        let c = Json::Str(names[j].clone());
        let ghost before = out@;
        out.push(c);
        proof {
            lemma_items_push(before, c);
            assert(items_model(out@) =~= m + strs_of(ns).take(j + 1));
        }
        j += 1;
    }
    proof {
        assert(strs_of(ns).take(names.len() as int) =~= strs_of(ns));
    }
    out
}

/// Whether `items` holds the string `name`.
pub fn has_string(items: &Vec<Json>, name: &String) -> (r: bool)
    ensures
        r == items_model(items@).contains(JsonValue::Str(name@)),
{
    let ghost m = items_model(items@);
    let mut i: usize = 0;
    while i < items.len()
        invariant
            i <= items.len(),
            m == items_model(items@),
            forall|k: int| 0 <= k < i ==> m[k] != JsonValue::Str(name@),
        decreases items.len() - i,
    {
        match &items[i] {
            Json::Str(s) => {
                if crate::text::str_eq(s.as_str(), name.as_str()) {
                    proof {
                        assert(m[i as int] == JsonValue::Str(name@));
                    }
                    return true;
                }
            },
            _ => {},
        }
        proof {
            assert(m[i as int] == json_model(items@[i as int]));
        }
        i += 1;
    }
    false
}

} // verus!
