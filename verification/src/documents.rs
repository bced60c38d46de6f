//! The shell's JSON files read and written from their text: the upgrade record
//! (`.update.json`), package manifests, the web profile manifest and the
//! quarantine record (`.quarantine.json`).
use vstd::prelude::*;
use crate::downloader::{UpdateRecord, UpdateRecordModel};
use crate::json::{
    copy_json, entries_of, fields_model, flagged, item_entries, items_model, items_with_strings,
    json_model, json_of, json_pretty, json_text, keep_items, lemma_array_model,
    lemma_object_model, member, member_of, opt_text, parse_json, set_member, str_at, str_member,
    strs_of, with_member, distinct_keys, lemma_distinct_push, lemma_member_push, lemma_sorted_member,
    readable, sorted, key_index, lemma_member_readable, lemma_with_member, lemma_member_update, lemma_first_key, put_member, has_string, keys_of, member_in, member_names, member_opt,
    Json, JsonValue,
};
use crate::quarantine::{disabled_names, kept, merge_disabled, names_of};
use crate::updater::{installed_or_unknown, installed_text};

verus! {

// ---------------------------------------------------------------- the upgrade record

/// The upgrade record that a document holds: each field is the member of that
/// name when it is a string.
pub open spec fn record_of(j: JsonValue) -> UpdateRecordModel {
    UpdateRecordModel {
        status: str_at(j, "status"@),
        staged_version: str_at(j, "staged_version"@),
        from_version: str_at(j, "from_version"@),
        bad_version: str_at(j, "bad_version"@),
        app_version: str_at(j, "app_version"@),
    }
}

/// The upgrade record in `.update.json`'s text; `None` when the text is not JSON.
pub fn update_record_from_text(text: &str) -> (r: Option<UpdateRecord>)
    ensures
        match json_of(text@) {
            Some(j) => r is Some && r->0@ == record_of(j),
            None => r is None,
        },
{
    match parse_json(text) {
        Some(j) => Some(
            UpdateRecord {
                status: str_member(&j, "status"),
                staged_version: str_member(&j, "staged_version"),
                from_version: str_member(&j, "from_version"),
                bad_version: str_member(&j, "bad_version"),
                app_version: str_member(&j, "app_version"),
            },
        ),
        None => None,
    }
}

/// A string value, when there is one.
pub open spec fn opt_str(v: Option<Seq<char>>) -> Option<JsonValue> {
    match v {
        Some(s) => Some(JsonValue::Str(s)),
        None => None,
    }
}

/// `f` with a member `key` holding `v` appended, when `v` is set.
pub open spec fn push_opt(f: Seq<(Seq<char>, JsonValue)>, key: Seq<char>, v: Option<JsonValue>) -> Seq<(Seq<char>, JsonValue)> {
    match v {
        Some(x) => f.push((key, x)),
        None => f,
    }
}

/// The `from_version` member of a written record: the previous version, or
/// `null` for an `applying` record without one.
pub open spec fn from_value(r: UpdateRecordModel) -> Option<JsonValue> {
    if r.from_version is None && r.status == Some("applying"@) {
        Some(JsonValue::Null)
    } else {
        opt_str(r.from_version)
    }
}

/// The document written for an upgrade record: its set fields as strings, in
/// field order; an `applying` record without a previous version says so with
/// `from_version: null`.
pub open spec fn record_json(r: UpdateRecordModel) -> JsonValue {
    let f1 = push_opt(seq![], "status"@, opt_str(r.status));
    let f2 = push_opt(f1, "staged_version"@, opt_str(r.staged_version));
    let f3 = push_opt(f2, "from_version"@, from_value(r));
    let f4 = push_opt(f3, "bad_version"@, opt_str(r.bad_version));
    JsonValue::Object(push_opt(f4, "app_version"@, opt_str(r.app_version)))
}

fn push_field(fields: &mut Vec<(String, Json)>, key: &str, v: &Option<String>)
    ensures
        fields_model(final(fields)@) == push_opt(fields_model(old(fields)@), key@, opt_str(v.deep_view())),
{
    let ghost before = fields@;
    match v {
        Some(s) => {
            fields.push((key.to_owned(), Json::Str(s.clone())));
            proof {
                assert(fields_model(fields@) =~= fields_model(before).push((key@, JsonValue::Str(s@))));
            }
        },
        None => {},
    }
}

/// The text of `.update.json` for a record. It reads back as the same record
/// (see `update_record_from_text`).
pub fn update_record_text(rec: &UpdateRecord) -> (r: String)
    ensures
        r@ == json_text(record_json(rec@)),
        json_of(r@) is Some && record_of(json_of(r@)->0) == rec@,
{
    let mut fields: Vec<(String, Json)> = Vec::new();
    proof {
        assert(fields_model(fields@) =~= seq![]);
    }
    push_field(&mut fields, "status", &rec.status);
    push_field(&mut fields, "staged_version", &rec.staged_version);
    let applying = match &rec.status {
        Some(s) => crate::text::str_eq(s.as_str(), "applying"),
        None => false,
    };
    if rec.from_version.is_none() && applying {
        let ghost before = fields@;
        fields.push(("from_version".to_owned(), Json::Null));
        proof {
            assert(fields_model(fields@) =~= fields_model(before).push(("from_version"@, JsonValue::Null)));
        }
    } else {
        push_field(&mut fields, "from_version", &rec.from_version);
    }
    push_field(&mut fields, "bad_version", &rec.bad_version);
    push_field(&mut fields, "app_version", &rec.app_version);
    proof {
        lemma_object_model(fields);
        record_reads_back(rec@);
    }
    json_pretty(&Json::Object(fields))
}

proof fn lemma_push_opt(f: Seq<(Seq<char>, JsonValue)>, key: Seq<char>, v: Option<JsonValue>, k: Seq<char>)
    ensures
        member(JsonValue::Object(push_opt(f, key, v)), k) == if member(JsonValue::Object(f), k) is Some {
            member(JsonValue::Object(f), k)
        } else if key == k {
            v
        } else {
            None
        },
{
    match v {
        Some(x) => lemma_member_push(f, (key, x), k),
        None => {},
    }
}

proof fn lemma_distinct_push_opt(f: Seq<(Seq<char>, JsonValue)>, key: Seq<char>, v: Option<JsonValue>)
    requires
        distinct_keys(f),
        member(JsonValue::Object(f), key) is None,
    ensures
        distinct_keys(push_opt(f, key, v)),
{
    match v {
        Some(x) => lemma_distinct_push(f, (key, x)),
        None => {},
    }
}

/// Strings and `null`s only.
spec fn flat_values(f: Seq<(Seq<char>, JsonValue)>) -> bool {
    forall|i: int| 0 <= i < f.len() ==> (f[i].1 is Str || f[i].1 is Null)
}

proof fn lemma_flat_push_opt(f: Seq<(Seq<char>, JsonValue)>, key: Seq<char>, v: Option<JsonValue>)
    requires
        flat_values(f),
        v matches Some(x) ==> (x is Str || x is Null),
    ensures
        flat_values(push_opt(f, key, v)),
{
    match v {
        Some(x) => {
            assert forall|i: int| 0 <= i < f.len() + 1 implies (f.push((key, x))[i].1 is Str || f.push(
                (key, x),
            )[i].1 is Null) by {
                if i < f.len() {
                    assert(f.push((key, x))[i] == f[i]);
                }
            }
        },
        None => {},
    }
}

/// A string member of a document that is its own order reads the same.
proof fn lemma_sorted_str(f: Seq<(Seq<char>, JsonValue)>, k: Seq<char>)
    requires
        distinct_keys(f),
        member(JsonValue::Object(f), k) matches Some(v) ==> (v is Str || v is Null),
    ensures
        str_at(sorted(JsonValue::Object(f)), k) == str_at(JsonValue::Object(f), k),
{
    lemma_sorted_member(f, k);
}

/// An upgrade record written to its file reads back as the same record:
/// parsing `record_json(r)`'s text gives a document whose record is `r`.
pub proof fn record_reads_back(r: UpdateRecordModel)
    ensures
        readable(record_json(r), 127),
        record_of(sorted(record_json(r))) == r,
{
    reveal_strlit("status");
    reveal_strlit("staged_version");
    reveal_strlit("from_version");
    reveal_strlit("bad_version");
    reveal_strlit("app_version");
    reveal_strlit("applying");
    let k1 = "status"@;
    let k2 = "staged_version"@;
    let k3 = "from_version"@;
    let k4 = "bad_version"@;
    let k5 = "app_version"@;
    assert(k1.len() == 6 && k2.len() == 14 && k3.len() == 12 && k4.len() == 11 && k5.len() == 11);
    assert(k4[0] != k5[0]);
    assert(k4 != k5);
    let f0: Seq<(Seq<char>, JsonValue)> = seq![];
    let f1 = push_opt(f0, k1, opt_str(r.status));
    let f2 = push_opt(f1, k2, opt_str(r.staged_version));
    let f3 = push_opt(f2, k3, from_value(r));
    let f4 = push_opt(f3, k4, opt_str(r.bad_version));
    let f5 = push_opt(f4, k5, opt_str(r.app_version));
    assert(record_json(r) == JsonValue::Object(f5));
    assert(member(JsonValue::Object(f0), k1) is None);
    assert(member(JsonValue::Object(f0), k2) is None);
    assert(member(JsonValue::Object(f0), k3) is None);
    assert(member(JsonValue::Object(f0), k4) is None);
    assert(member(JsonValue::Object(f0), k5) is None);
    lemma_push_opt(f0, k1, opt_str(r.status), k1);
    lemma_push_opt(f0, k1, opt_str(r.status), k2);
    lemma_push_opt(f0, k1, opt_str(r.status), k3);
    lemma_push_opt(f0, k1, opt_str(r.status), k4);
    lemma_push_opt(f0, k1, opt_str(r.status), k5);
    lemma_push_opt(f1, k2, opt_str(r.staged_version), k1);
    lemma_push_opt(f1, k2, opt_str(r.staged_version), k2);
    lemma_push_opt(f1, k2, opt_str(r.staged_version), k3);
    lemma_push_opt(f1, k2, opt_str(r.staged_version), k4);
    lemma_push_opt(f1, k2, opt_str(r.staged_version), k5);
    lemma_push_opt(f2, k3, from_value(r), k1);
    lemma_push_opt(f2, k3, from_value(r), k2);
    lemma_push_opt(f2, k3, from_value(r), k3);
    lemma_push_opt(f2, k3, from_value(r), k4);
    lemma_push_opt(f2, k3, from_value(r), k5);
    lemma_push_opt(f3, k4, opt_str(r.bad_version), k1);
    lemma_push_opt(f3, k4, opt_str(r.bad_version), k2);
    lemma_push_opt(f3, k4, opt_str(r.bad_version), k3);
    lemma_push_opt(f3, k4, opt_str(r.bad_version), k4);
    lemma_push_opt(f3, k4, opt_str(r.bad_version), k5);
    lemma_push_opt(f4, k5, opt_str(r.app_version), k1);
    lemma_push_opt(f4, k5, opt_str(r.app_version), k2);
    lemma_push_opt(f4, k5, opt_str(r.app_version), k3);
    lemma_push_opt(f4, k5, opt_str(r.app_version), k4);
    lemma_push_opt(f4, k5, opt_str(r.app_version), k5);
    assert(distinct_keys(f0));
    lemma_distinct_push_opt(f0, k1, opt_str(r.status));
    lemma_distinct_push_opt(f1, k2, opt_str(r.staged_version));
    lemma_distinct_push_opt(f2, k3, from_value(r));
    lemma_distinct_push_opt(f3, k4, opt_str(r.bad_version));
    lemma_distinct_push_opt(f4, k5, opt_str(r.app_version));
    lemma_flat_push_opt(f0, k1, opt_str(r.status));
    lemma_flat_push_opt(f1, k2, opt_str(r.staged_version));
    lemma_flat_push_opt(f2, k3, from_value(r));
    lemma_flat_push_opt(f3, k4, opt_str(r.bad_version));
    lemma_flat_push_opt(f4, k5, opt_str(r.app_version));
    assert forall|i: int| 0 <= i < f5.len() implies #[trigger] readable(f5[i].1, 127 - 1) by {
        assert(f5[i].1 is Str || f5[i].1 is Null);
    }
    assert(distinct_keys(f5));
    assert(forall|i: int| 0 <= i < f5.len() ==> #[trigger] readable(f5[i].1, 127 - 1));
    assert(readable(JsonValue::Object(f5), 127)) by {
        reveal_with_fuel(readable, 2);
    }
    lemma_sorted_str(f5, k1);
    lemma_sorted_str(f5, k2);
    lemma_sorted_str(f5, k3);
    lemma_sorted_str(f5, k4);
    lemma_sorted_str(f5, k5);
}

// ---------------------------------------------------------------- package manifests

/// The `version` string of a package manifest's text (`None` when the text is
/// not JSON or has no string `version`).
pub open spec fn manifest_version(text: Seq<char>) -> Option<Seq<char>> {
    match json_of(text) {
        Some(j) => str_at(j, "version"@),
        None => None,
    }
}

/// The `version` of a `package.json`'s text.
pub fn package_version_from_text(text: &str) -> (r: Option<String>)
    ensures
        r.deep_view() == manifest_version(text@),
{
    match parse_json(text) {
        Some(j) => str_member(&j, "version"),
        None => None,
    }
}

/// The installed version that the core manifest's text reports: its `version`,
/// or `unknown` without one; `None` when the text is not JSON.
pub fn installed_version_from_text(text: &str) -> (r: Option<String>)
    ensures
        match json_of(text@) {
            Some(j) => r is Some && r->0@ == installed_text(str_at(j, "version"@)),
            None => r is None,
        },
{
    match parse_json(text) {
        Some(j) => Some(installed_or_unknown(str_member(&j, "version"))),
        None => None,
    }
}

// ---------------------------------------------------------------- the web profile manifest

/// The profile list `dsh.profile.<field>` of a document.
pub open spec fn profile_list(j: JsonValue, field: Seq<char>) -> Option<JsonValue> {
    match member(j, "dsh"@) {
        Some(d) => match member(d, "profile"@) {
            Some(p) => member(p, field),
            None => None,
        },
        None => None,
    }
}

/// A document with its profile list `dsh.profile.<field>` replaced by `v`
/// (unchanged when it has no `dsh.profile`).
pub open spec fn with_profile_list(j: JsonValue, field: Seq<char>, v: JsonValue) -> JsonValue {
    match member(j, "dsh"@) {
        Some(d) => match member(d, "profile"@) {
            Some(p) => with_member(j, "dsh"@, with_member(d, "profile"@, with_member(p, field, v))),
            None => j,
        },
        None => j,
    }
}

/// The entries of the profile list `dsh.profile.<field>` of a document, when it
/// is an array (`None` for a string-less item, see `entries_of`).
pub open spec fn profile_entries(doc: Option<JsonValue>, field: Seq<char>) -> Option<Seq<Option<Seq<char>>>> {
    match doc {
        Some(j) => match profile_list(j, field) {
            Some(JsonValue::Array(items)) => Some(entries_of(items)),
            _ => None,
        },
        None => None,
    }
}

fn profile_list_of<'a>(doc: &'a Json, field: &str) -> (r: Option<&'a Json>)
    ensures
        match r {
            Some(v) => profile_list(json_model(*doc), field@) == Some(json_model(*v)),
            None => profile_list(json_model(*doc), field@) is None,
        },
{
    match member_of(doc, "dsh") {
        Some(d) => match member_of(d, "profile") {
            Some(p) => member_of(p, field),
            None => None,
        },
        None => None,
    }
}

fn replace_profile_list(doc: Json, field: &str, v: Json) -> (r: Json)
    ensures
        json_model(r) == with_profile_list(json_model(doc), field@, json_model(v)),
{
    let d = match member_of(&doc, "dsh") {
        Some(d) => copy_json(d),
        None => return doc,
    };
    let p = match member_of(&d, "profile") {
        Some(p) => copy_json(p),
        None => return doc,
    };
    let p2 = set_member(p, field, v, false);
    let d2 = set_member(d, "profile", p2, false);
    set_member(doc, "dsh", d2, false)
}

/// The entries of the web profile's list `dsh.profile.<field>`, from the
/// manifest's text; `None` when the text is not JSON or the list is no array.
pub fn profile_entries_from_text(text: &str, field: &str) -> (r: Option<Vec<Option<String>>>)
    ensures
        r.deep_view() == profile_entries(json_of(text@), field@),
{
    let doc = match parse_json(text) {
        Some(d) => d,
        None => return None,
    };
    match profile_list_of(&doc, field) {
        Some(Json::Array(items)) => {
            proof {
                lemma_array_model(*items);
            }
            Some(item_entries(items))
        },
        _ => None,
    }
}

/// The manifest after keeping the items of `dsh.profile.<field>` whose `keep`
/// flag is set; `None` when the text is not JSON, the list is no array, or
/// the flags do not match its items.
pub open spec fn kept_profile(doc: Option<JsonValue>, field: Seq<char>, keep: Seq<bool>) -> Option<JsonValue> {
    match doc {
        Some(j) => match profile_list(j, field) {
            Some(JsonValue::Array(items)) => if keep.len() == items.len() {
                Some(with_profile_list(j, field, JsonValue::Array(flagged(items, keep))))
            } else {
                None
            },
            _ => None,
        },
        None => None,
    }
}

/// The manifest's text after keeping the flagged items of `dsh.profile.<field>`
/// (the items themselves, whatever JSON they hold).
pub fn profile_text_keeping(text: &str, field: &str, keep: &Vec<bool>) -> (r: Option<String>)
    ensures
        r.deep_view() == opt_text(kept_profile(json_of(text@), field@, keep@)),
        r is Some && readable(json_of(text@)->0, 127) ==> profile_entries(json_of(r->0@), field@) == Some(
            kept(profile_entries(json_of(text@), field@)->0, keep@),
        ),
{
    let doc = match parse_json(text) {
        Some(d) => d,
        None => return None,
    };
    let list = match profile_list_of(&doc, field) {
        Some(Json::Array(items)) => {
            if keep.len() != items.len() {
                return None;
            }
            proof {
                lemma_array_model(*items);
            }
            let kept = keep_items(items, keep);
            proof {
                lemma_array_model(kept);
            }
            Json::Array(kept)
        },
        _ => return None,
    };
    let ghost j = json_model(doc);
    let updated = replace_profile_list(doc, field, list);
    proof {
        if readable(j, 127) {
            let items = profile_list(j, field@)->0->Array_0;
            lemma_profile_items_readable(j, field@);
            lemma_kept_readable(items, keep@, 123);
            profile_list_reads_back(j, field@, flagged(items, keep@));
            file_keep_is_list_keep(items, keep@);
        }
    }
    Some(json_pretty(&updated))
}

/// Each name as a string entry.
pub open spec fn some_names(names: Seq<Seq<char>>) -> Seq<Option<Seq<char>>> {
    Seq::new(names.len(), |i: int| Some(names[i]))
}

/// The manifest after appending a string item for each name to
/// `dsh.profile.<field>`; `None` when the text is not JSON or the list is no array.
pub open spec fn appended_profile(doc: Option<JsonValue>, field: Seq<char>, names: Seq<Seq<char>>) -> Option<JsonValue> {
    match doc {
        Some(j) => match profile_list(j, field) {
            Some(JsonValue::Array(items)) => Some(
                with_profile_list(j, field, JsonValue::Array(items + strs_of(names))),
            ),
            _ => None,
        },
        None => None,
    }
}

/// The manifest's text after appending `names` to `dsh.profile.<field>`.
pub fn profile_text_appending(text: &str, field: &str, names: &Vec<String>) -> (r: Option<String>)
    ensures
        r.deep_view() == opt_text(appended_profile(json_of(text@), field@, names.deep_view())),
        r is Some && readable(json_of(text@)->0, 127) ==> profile_entries(json_of(r->0@), field@) == Some(
            profile_entries(json_of(text@), field@)->0 + some_names(names.deep_view()),
        ),
{
    let doc = match parse_json(text) {
        Some(d) => d,
        None => return None,
    };
    let list = match profile_list_of(&doc, field) {
        Some(Json::Array(items)) => {
            proof {
                lemma_array_model(*items);
            }
            let longer = items_with_strings(items, names);
            proof {
                lemma_array_model(longer);
            }
            Json::Array(longer)
        },
        _ => return None,
    };
    let ghost j = json_model(doc);
    let updated = replace_profile_list(doc, field, list);
    proof {
        if readable(j, 127) {
            let items = profile_list(j, field@)->0->Array_0;
            let ns = names.deep_view();
            lemma_profile_items_readable(j, field@);
            assert forall|i: int| 0 <= i < (items + strs_of(ns)).len() implies #[trigger] readable(
                (items + strs_of(ns))[i],
                123,
            ) by {
                if i < items.len() {
                    assert((items + strs_of(ns))[i] == items[i]);
                }
            }
            profile_list_reads_back(j, field@, items + strs_of(ns));
            assert(entries_of(items + strs_of(ns)) =~= entries_of(items) + some_names(ns));
        }
    }
    Some(json_pretty(&updated))
}

/// The web profile manifest written when there is none: package
/// `dsh-profile-web`, private, no dependencies, and the default bundles.
pub open spec fn default_profile_json() -> JsonValue {
    JsonValue::Object(
        seq![
            ("name"@, JsonValue::Str("dsh-profile-web"@)),
            ("private"@, JsonValue::Bool(true)),
            ("dependencies"@, JsonValue::Object(seq![])),
            ("dsh"@, JsonValue::Object(seq![("profile"@, JsonValue::Object(seq![
                ("bundles"@, JsonValue::Array(seq![
                    JsonValue::Str("@deepseek-ai/dsh-base"@),
                    JsonValue::Str("@deepseek-ai/dsh-web-app"@),
                ])),
            ]))])),
        ],
    )
}

fn object_of(fields: Vec<(String, Json)>) -> (r: Json)
    ensures
        json_model(r) == JsonValue::Object(fields_model(fields@)),
{
    proof {
        lemma_object_model(fields);
    }
    Json::Object(fields)
}

/// The text of the web profile manifest written when there is none.
pub fn default_profile_text() -> (r: String)
    ensures
        r@ == json_text(default_profile_json()),
{
    let mut bundles: Vec<Json> = Vec::new();
    bundles.push(Json::Str("@deepseek-ai/dsh-base".to_owned()));
    bundles.push(Json::Str("@deepseek-ai/dsh-web-app".to_owned()));
    proof {
        lemma_array_model(bundles);
        assert(items_model(bundles@) =~= seq![
            JsonValue::Str("@deepseek-ai/dsh-base"@),
            JsonValue::Str("@deepseek-ai/dsh-web-app"@),
        ]);
    }
    let list = Json::Array(bundles);
    let mut pf: Vec<(String, Json)> = Vec::new();
    pf.push(("bundles".to_owned(), list));
    proof {
        assert(fields_model(pf@) =~= seq![("bundles"@, json_model(list))]);
    }
    let profile = object_of(pf);
    let mut df: Vec<(String, Json)> = Vec::new();
    df.push(("profile".to_owned(), profile));
    proof {
        assert(fields_model(df@) =~= seq![("profile"@, json_model(profile))]);
    }
    let dsh = object_of(df);
    let no_fields: Vec<(String, Json)> = Vec::new();
    proof {
        assert(fields_model(no_fields@) =~= seq![]);
    }
    let deps = object_of(no_fields);
    let mut top: Vec<(String, Json)> = Vec::new();
    top.push(("name".to_owned(), Json::Str("dsh-profile-web".to_owned())));
    top.push(("private".to_owned(), Json::Bool(true)));
    top.push(("dependencies".to_owned(), deps));
    top.push(("dsh".to_owned(), dsh));
    proof {
        assert(fields_model(top@) =~= seq![
            ("name"@, JsonValue::Str("dsh-profile-web"@)),
            ("private"@, JsonValue::Bool(true)),
            ("dependencies"@, json_model(deps)),
            ("dsh"@, json_model(dsh)),
        ]);
        assert(json_model(deps) =~~= JsonValue::Object(seq![]));
    }
    let doc = object_of(top);
    proof {
        assert(json_model(doc) =~~= default_profile_json());
    }
    json_pretty(&doc)
}

// ---------------------------------------------------------------- the quarantine record

/// What a quarantine record holds: the entries of its `disabled` array (none
/// when it has no such array) and its `dsh_version` string; `None` when the
/// text is not JSON.
pub open spec fn quarantine_of(doc: Option<JsonValue>) -> Option<(Seq<Option<Seq<char>>>, Option<Seq<char>>)> {
    match doc {
        Some(j) => Some(
            (
                match member(j, "disabled"@) {
                    Some(JsonValue::Array(items)) => entries_of(items),
                    _ => seq![],
                },
                str_at(j, "dsh_version"@),
            ),
        ),
        None => None,
    }
}

/// The disabled entries and the recorded DSH version of `.quarantine.json`'s text.
pub fn quarantine_record_from_text(text: &str) -> (r: Option<(Vec<Option<String>>, Option<String>)>)
    ensures
        r.deep_view() == quarantine_of(json_of(text@)),
{
    let doc = match parse_json(text) {
        Some(d) => d,
        None => return None,
    };
    let disabled = match member_of(&doc, "disabled") {
        Some(Json::Array(items)) => {
            proof {
                lemma_array_model(*items);
            }
            item_entries(items)
        },
        _ => {
            let none: Vec<Option<String>> = Vec::new();
            proof {
                assert(none.deep_view() =~= seq![]);
            }
            none
        },
    };
    let version = str_member(&doc, "dsh_version");
    Some((disabled, version))
}

/// The quarantine document a record starts from: the existing file's document,
/// or `{"disabled": []}` when there is no readable JSON one.
pub open spec fn quarantine_base(existing: Option<Seq<char>>) -> JsonValue {
    let empty = JsonValue::Object(seq![("disabled"@, JsonValue::Array(seq![]))]);
    match existing {
        Some(t) => match json_of(t) {
            Some(j) => j,
            None => empty,
        },
        None => empty,
    }
}

/// The disabled items after recording `removed`: each name not yet listed as a
/// string is appended, in order.
pub open spec fn merge_items(items: Seq<JsonValue>, removed: Seq<Seq<char>>) -> Seq<JsonValue>
    decreases removed.len(),
{
    if removed.len() == 0 {
        items
    } else {
        let m = merge_items(items, removed.drop_last());
        if m.contains(JsonValue::Str(removed.last())) {
            m
        } else {
            m.push(JsonValue::Str(removed.last()))
        }
    }
}

/// The record after disabling `removed` under DSH version `version`: the new
/// names merged into `disabled`, and `dsh_version` set (`null` without a
/// version); `None` when the document has no `disabled` array.
pub open spec fn recorded_quarantine(base: JsonValue, removed: Seq<Seq<char>>, version: Option<Seq<char>>) -> Option<JsonValue> {
    match member(base, "disabled"@) {
        Some(JsonValue::Array(items)) => Some(
            put_member(
                with_member(base, "disabled"@, JsonValue::Array(merge_items(items, removed))),
                "dsh_version"@,
                match version {
                    Some(v) => JsonValue::Str(v),
                    None => JsonValue::Null,
                },
            ),
        ),
        _ => None,
    }
}

fn merged_items(items: &Vec<Json>, removed: &Vec<String>) -> (r: Vec<Json>)
    ensures
        items_model(r@) == merge_items(items_model(items@), removed.deep_view()),
{
    let none: Vec<String> = Vec::new();
    let mut out = items_with_strings(items, &none);
    proof {
        assert(strs_of(none.deep_view()) =~= seq![]);
        assert(items_model(items@) + seq![] =~= items_model(items@));
        assert(removed.deep_view().take(0) =~= seq![]);
    }
    let ghost m = items_model(items@);
    let ghost rm = removed.deep_view();
    let mut i: usize = 0;
    while i < removed.len()
        invariant
            i <= removed.len(),
            m == items_model(items@),
            rm == removed.deep_view(),
            items_model(out@) == merge_items(m, rm.take(i as int)),
        decreases removed.len() - i,
    {
        proof {
            assert(rm.take(i + 1).drop_last() =~= rm.take(i as int));
            assert(rm.take(i + 1).last() == removed@[i as int]@);
        }
        if !has_string(&out, &removed[i]) {
            let c = Json::Str(removed[i].clone());
            let ghost before = out@;
            out.push(c);
            proof {
                assert(items_model(out@) =~= items_model(before).push(json_model(c)));
            }
        }
        i += 1;
    }
    proof {
        assert(rm.take(removed.len() as int) =~= rm);
    }
    out
}

/// The text of `.quarantine.json` after disabling `removed`, starting from the
/// existing file's text (`existing`), with the current DSH version.
pub fn quarantine_record_text(existing: &Option<String>, removed: &Vec<String>, version: &Option<String>) -> (r: Option<String>)
    ensures
        r.deep_view() == opt_text(
            recorded_quarantine(quarantine_base(existing.deep_view()), removed.deep_view(), version.deep_view()),
        ),
        existing is None ==> r is Some,
        r is Some && readable(quarantine_base(existing.deep_view()), 127) ==> quarantine_of(json_of(r->0@))
            == Some((merge_disabled(disabled_entries(quarantine_base(existing.deep_view())), removed.deep_view()), version.deep_view())),
{
    let parsed = match existing {
        Some(t) => parse_json(t.as_str()),
        None => None,
    };
    let base = match parsed {
        Some(d) => d,
        None => {
            let no_items: Vec<Json> = Vec::new();
            proof {
                lemma_array_model(no_items);
                assert(items_model(no_items@) =~= seq![]);
            }
            let mut f: Vec<(String, Json)> = Vec::new();
            let list = Json::Array(no_items);
            f.push(("disabled".to_owned(), list));
            proof {
                assert(fields_model(f@) =~= seq![("disabled"@, json_model(list))]);
            }
            object_of(f)
        },
    };
    proof {
        assert(json_model(base) =~~= quarantine_base(existing.deep_view()));
    }
    let list = match member_of(&base, "disabled") {
        Some(Json::Array(items)) => {
            proof {
                lemma_array_model(*items);
            }
            let merged = merged_items(items, removed);
            proof {
                lemma_array_model(merged);
            }
            Json::Array(merged)
        },
        _ => return None,
    };
    let with_list = set_member(base, "disabled", list, false);
    let v = match version {
        Some(s) => Json::Str(s.clone()),
        None => Json::Null,
    };
    let doc = set_member(with_list, "dsh_version", v, true);
    proof {
        let b = quarantine_base(existing.deep_view());
        if readable(b, 127) {
            quarantine_reads_back(b, removed.deep_view(), version.deep_view());
        }
        if existing is None {
            empty_quarantine_readable();
        }
    }
    Some(json_pretty(&doc))
}

/// The record that a missing quarantine file starts from reads back.
pub proof fn empty_quarantine_readable()
    ensures
        readable(quarantine_base(None), 127),
        member(quarantine_base(None), "disabled"@) == Some(JsonValue::Array(seq![])),
{
    let f = seq![("disabled"@, JsonValue::Array(seq![]))];
    assert(distinct_keys(f));
    lemma_key_index_first(f);
    assert(readable(JsonValue::Array(seq![]), 126)) by {
        reveal_with_fuel(readable, 2);
    }
    assert(forall|k: int| 0 <= k < f.len() ==> readable(#[trigger] f[k].1, 127 - 1));
    assert(readable(JsonValue::Object(f), 127)) by {
        reveal_with_fuel(readable, 2);
    }
}

proof fn lemma_key_index_first(f: Seq<(Seq<char>, JsonValue)>)
    requires
        f.len() > 0,
    ensures
        key_index(f, f[0].0, 0) == 0,
{
}

// ---------------------------------------------------------------- bundle manifests

/// The string items of an array value (nothing for any other value).
pub open spec fn strings_at(o: Option<JsonValue>) -> Seq<Seq<char>> {
    match o {
        Some(JsonValue::Array(items)) => names_of(entries_of(items)),
        _ => seq![],
    }
}

/// The member names of an object value (nothing for any other value).
pub open spec fn keys_at(o: Option<JsonValue>) -> Seq<Seq<char>> {
    match o {
        Some(JsonValue::Object(f)) => keys_of(f),
        _ => seq![],
    }
}

/// The packages a bundle's manifest names: the strings of `dsh.bundles`, then
/// the names under `dependencies`, then those under `dsh.dependencies`;
/// nothing when the text is not JSON.
pub open spec fn bundle_members(doc: Option<JsonValue>) -> Seq<Seq<char>> {
    match doc {
        Some(j) => strings_at(member_opt(member(j, "dsh"@), "bundles"@)) + keys_at(member(j, "dependencies"@))
            + keys_at(member_opt(member(j, "dsh"@), "dependencies"@)),
        None => seq![],
    }
}

fn strings_in(o: Option<&Json>) -> (r: Vec<String>)
    ensures
        r.deep_view() == strings_at(
            match o {
                Some(j) => Some(json_model(*j)),
                None => None,
            },
        ),
{
    match o {
        Some(Json::Array(items)) => {
            proof {
                lemma_array_model(*items);
            }
            disabled_names(&item_entries(items))
        },
        _ => {
            let none: Vec<String> = Vec::new();
            proof {
                assert(none.deep_view() =~= seq![]);
            }
            none
        },
    }
}

fn keys_in(o: Option<&Json>) -> (r: Vec<String>)
    ensures
        r.deep_view() == keys_at(
            match o {
                Some(j) => Some(json_model(*j)),
                None => None,
            },
        ),
{
    match o {
        Some(Json::Object(fields)) => {
            proof {
                lemma_object_model(*fields);
            }
            member_names(fields)
        },
        _ => {
            let none: Vec<String> = Vec::new();
            proof {
                assert(none.deep_view() =~= seq![]);
            }
            none
        },
    }
}

fn push_all(out: &mut Vec<String>, more: &Vec<String>)
    ensures
        final(out).deep_view() == old(out).deep_view() + more.deep_view(),
{
    let ghost start = out.deep_view();
    let mut i: usize = 0;
    while i < more.len()
        invariant
            i <= more.len(),
            out.deep_view() == start + more.deep_view().take(i as int),
        decreases more.len() - i,
    {
        let ghost before = out.deep_view();
        out.push(more[i].clone());
        proof {
            assert(out.deep_view() =~= before.push(more@[i as int]@));
            assert(out.deep_view() =~= start + more.deep_view().take(i + 1));
        }
        i += 1;
    }
    proof {
        assert(more.deep_view().take(more.len() as int) =~= more.deep_view());
    }
}

/// The packages that a bundle's `package.json` text names (see `bundle_members`).
pub fn bundle_members_from_text(text: &str) -> (r: Vec<String>)
    ensures
        r.deep_view() == bundle_members(json_of(text@)),
{
    let doc = match parse_json(text) {
        Some(d) => d,
        None => {
            let none: Vec<String> = Vec::new();
            proof {
                assert(none.deep_view() =~= seq![]);
            }
            return none;
        },
    };
    let dsh = member_of(&doc, "dsh");
    let mut out = strings_in(member_in(dsh, "bundles"));
    let deps = keys_in(member_of(&doc, "dependencies"));
    push_all(&mut out, &deps);
    let more = keys_in(member_in(dsh, "dependencies"));
    push_all(&mut out, &more);
    out
}

// ---------------------------------------------------------------- the files and the lists

proof fn lemma_entries_push(items: Seq<JsonValue>, x: Seq<char>)
    ensures
        entries_of(items.push(JsonValue::Str(x))) =~= entries_of(items).push(Some(x)),
        items.contains(JsonValue::Str(x)) == entries_of(items).contains(Some(x)),
{
    if items.contains(JsonValue::Str(x)) {
        let k = choose|k: int| 0 <= k < items.len() && items[k] == JsonValue::Str(x);
        assert(entries_of(items)[k] == Some(x));
    }
    if entries_of(items).contains(Some(x)) {
        let k = choose|k: int| 0 <= k < entries_of(items).len() && entries_of(items)[k] == Some(x);
        assert(items[k] == JsonValue::Str(x));
    }
}

/// Recording names in the quarantine file merges its `disabled` list exactly
/// as the quarantine list itself is merged: entry by entry, the file's new
/// list is `merge_disabled` of its old one.
pub proof fn file_merge_is_list_merge(items: Seq<JsonValue>, removed: Seq<Seq<char>>)
    ensures
        entries_of(merge_items(items, removed)) == merge_disabled(entries_of(items), removed),
    decreases removed.len(),
{
    if removed.len() > 0 {
        let m = merge_items(items, removed.drop_last());
        file_merge_is_list_merge(items, removed.drop_last());
        lemma_entries_push(m, removed.last());
    }
}

/// Keeping flagged items of a profile list in the file keeps, entry by entry,
/// what `kept` keeps of the list's entries.
pub proof fn file_keep_is_list_keep(items: Seq<JsonValue>, keep: Seq<bool>)
    requires
        keep.len() == items.len(),
    ensures
        entries_of(flagged(items, keep)) == kept(entries_of(items), keep),
    decreases items.len(),
{
    if items.len() > 0 {
        let n = items.len() - 1;
        file_keep_is_list_keep(items.drop_last(), keep.take(n));
        assert(entries_of(items.drop_last()) =~= entries_of(items).drop_last());
        let rest = flagged(items.drop_last(), keep.take(n));
        if keep[n] {
            assert(entries_of(rest.push(items.last())) =~= entries_of(rest).push(entries_of(items).last()));
        }
    } else {
        assert(entries_of(items) =~= seq![]);
        assert(entries_of(flagged(items, keep)) =~= seq![]);
    }
}

// ---------------------------------------------------------------- reading the quarantine record back

/// The `disabled` entries of a quarantine document (none without such an array).
pub open spec fn disabled_entries(j: JsonValue) -> Seq<Option<Seq<char>>> {
    match member(j, "disabled"@) {
        Some(JsonValue::Array(items)) => entries_of(items),
        _ => seq![],
    }
}

proof fn lemma_merge_readable(items: Seq<JsonValue>, removed: Seq<Seq<char>>, d: int)
    requires
        forall|i: int| 0 <= i < items.len() ==> #[trigger] readable(items[i], d),
    ensures
        forall|i: int| 0 <= i < merge_items(items, removed).len() ==> #[trigger] readable(
            merge_items(items, removed)[i],
            d,
        ),
    decreases removed.len(),
{
    if removed.len() > 0 {
        lemma_merge_readable(items, removed.drop_last(), d);
        let m = merge_items(items, removed.drop_last());
        let x = JsonValue::Str(removed.last());
        if !m.contains(x) {
            assert forall|i: int| 0 <= i < m.push(x).len() implies #[trigger] readable(m.push(x)[i], d) by {
                if i < m.len() {
                    assert(m.push(x)[i] == m[i]);
                }
            }
        }
    }
}

proof fn lemma_sorted_entries(items: Seq<JsonValue>)
    ensures
        sorted(JsonValue::Array(items)) matches JsonValue::Array(s) && entries_of(s) == entries_of(items),
{
    let s = Seq::new(
        items.len(),
        |i: int|
            if 0 <= i < items.len() {
                sorted(items[i])
            } else {
                JsonValue::Null
            },
    );
    if let JsonValue::Array(t) = sorted(JsonValue::Array(items)) {
        assert forall|i: int| 0 <= i < items.len() implies #[trigger] entries_of(t)[i] == entries_of(items)[i] by {
            assert(t[i] == sorted(items[i]));
            match items[i] {
                JsonValue::Array(_) => {},
                JsonValue::Object(_) => {},
                _ => {},
            }
        }
        assert(entries_of(t) =~= entries_of(items));
    }
}

/// A quarantine record written to its file reads back: when the document it
/// started from reads back, the new record's `disabled` entries are the old
/// ones merged with `removed` (see `merge_disabled`) and its DSH version is
/// `version`.
pub proof fn quarantine_reads_back(base: JsonValue, removed: Seq<Seq<char>>, version: Option<Seq<char>>)
    requires
        readable(base, 127),
        recorded_quarantine(base, removed, version) is Some,
    ensures
        readable(recorded_quarantine(base, removed, version)->0, 127),
        quarantine_of(Some(sorted(recorded_quarantine(base, removed, version)->0))) == Some(
            (merge_disabled(disabled_entries(base), removed), version),
        ),
{
    reveal_strlit("disabled");
    reveal_strlit("dsh_version");
    let kd = "disabled"@;
    let kv = "dsh_version"@;
    assert(kd.len() == 8 && kv.len() == 11);
    assert(base is Object);
    let f = base->Object_0;
    assert(base == JsonValue::Object(f));
    lemma_first_key(f, kd);
    assert(key_index(f, kd, 0) < f.len());
    let i = key_index(f, kd, 0);
    let items = f[i].1->Array_0;
    let m = merge_items(items, removed);
    let v = match version {
        Some(s) => JsonValue::Str(s),
        None => JsonValue::Null,
    };
    let g = f.update(i, (kd, JsonValue::Array(m)));
    assert(with_member(base, kd, JsonValue::Array(m)) == JsonValue::Object(g));
    assert(g == f.update(i, (f[i].0, JsonValue::Array(m))));
    lemma_member_update(f, i, JsonValue::Array(m), kd);
    lemma_member_update(f, i, JsonValue::Array(m), kv);
    assert(distinct_keys(g)) by {
        assert forall|a: int, b: int| 0 <= a < b < g.len() implies g[a].0 != g[b].0 by {
            assert(g[a].0 == f[a].0 && g[b].0 == f[b].0);
        }
    }
    // what the base holds
    assert(f[i].1 == JsonValue::Array(items));
    assert(readable(f[i].1, 127 - 1)) by {
        reveal_with_fuel(readable, 2);
    }
    assert(forall|k: int| 0 <= k < items.len() ==> #[trigger] readable(items[k], 125)) by {
        reveal_with_fuel(readable, 2);
    }
    lemma_merge_readable(items, removed, 125);
    assert(readable(JsonValue::Array(m), 126)) by {
        assert forall|k: int| 0 <= k < m.len() implies readable(#[trigger] m[k], 126 - 1) by {
            assert(readable(m[k], 125));
        }
        reveal_with_fuel(readable, 2);
    }
    assert forall|k: int| 0 <= k < g.len() implies #[trigger] readable(g[k].1, 126) by {
        if k != i {
            assert(g[k] == f[k]);
        }
    }
    lemma_first_key(g, kv);
    let j = key_index(g, kv, 0);
    let h = if j < g.len() {
        g.update(j, (kv, v))
    } else {
        g.push((kv, v))
    };
    assert(put_member(JsonValue::Object(g), kv, v) == JsonValue::Object(h));
    assert(recorded_quarantine(base, removed, version)->0 == JsonValue::Object(h));
    if j < g.len() {
        assert(h == g.update(j, (g[j].0, v)));
        lemma_member_update(g, j, v, kd);
        lemma_member_update(g, j, v, kv);
        assert(distinct_keys(h)) by {
            assert forall|a: int, b: int| 0 <= a < b < h.len() implies h[a].0 != h[b].0 by {
                assert(h[a].0 == g[a].0 && h[b].0 == g[b].0);
            }
        }
        assert forall|k: int| 0 <= k < h.len() implies #[trigger] readable(h[k].1, 127 - 1) by {
            if k != j {
                assert(h[k] == g[k]);
            }
        }
    } else {
        lemma_member_push(g, (kv, v), kd);
        lemma_member_push(g, (kv, v), kv);
        lemma_distinct_push(g, (kv, v));
        assert forall|k: int| 0 <= k < h.len() implies #[trigger] readable(h[k].1, 127 - 1) by {
            if k < g.len() {
                assert(h[k] == g[k]);
            }
        }
    }
    assert(member(JsonValue::Object(h), kd) == Some(JsonValue::Array(m)));
    assert(member(JsonValue::Object(h), kv) == Some(v));
    assert(readable(JsonValue::Object(h), 127)) by {
        reveal_with_fuel(readable, 2);
    }
    lemma_sorted_member(h, kd);
    lemma_sorted_str(h, kv);
    lemma_sorted_entries(m);
    file_merge_is_list_merge(items, removed);
}

// ---------------------------------------------------------------- reading the profile back

/// A profile list replaced in a readable manifest reads back: the rewritten
/// manifest is readable, and its list `dsh.profile.<field>` has the entries of
/// the new items.
pub proof fn profile_list_reads_back(j: JsonValue, field: Seq<char>, items: Seq<JsonValue>)
    requires
        readable(j, 127),
        profile_list(j, field) matches Some(JsonValue::Array(_)),
        forall|i: int| 0 <= i < items.len() ==> #[trigger] readable(items[i], 123),
    ensures
        readable(with_profile_list(j, field, JsonValue::Array(items)), 127),
        profile_entries(Some(sorted(with_profile_list(j, field, JsonValue::Array(items)))), field)
            == Some(entries_of(items)),
{
    reveal_strlit("dsh");
    reveal_strlit("profile");
    let a = JsonValue::Array(items);
    let d = member(j, "dsh"@)->0;
    let p = member(d, "profile"@)->0;
    lemma_member_readable(j, "dsh"@, 127);
    lemma_member_readable(d, "profile"@, 126);
    lemma_member_readable(p, field, 125);
    assert(readable(a, 124)) by {
        assert forall|i: int| 0 <= i < items.len() implies readable(#[trigger] items[i], 124 - 1) by {
            assert(readable(items[i], 123));
        }
        reveal_with_fuel(readable, 2);
    }
    let p2 = with_member(p, field, a);
    lemma_with_member(p, field, a, 125);
    let d2 = with_member(d, "profile"@, p2);
    lemma_with_member(d, "profile"@, p2, 126);
    let j2 = with_member(j, "dsh"@, d2);
    lemma_with_member(j, "dsh"@, d2, 127);
    assert(with_profile_list(j, field, a) == j2);
    assert(j2 == JsonValue::Object(j2->Object_0));
    lemma_sorted_member(j2->Object_0, "dsh"@);
    assert(d2 == JsonValue::Object(d2->Object_0));
    lemma_sorted_member(d2->Object_0, "profile"@);
    assert(p2 == JsonValue::Object(p2->Object_0));
    lemma_sorted_member(p2->Object_0, field);
    lemma_sorted_entries(items);
}

proof fn lemma_kept_readable(items: Seq<JsonValue>, keep: Seq<bool>, d: int)
    requires
        forall|i: int| 0 <= i < items.len() ==> #[trigger] readable(items[i], d),
    ensures
        forall|i: int| 0 <= i < flagged(items, keep).len() ==> #[trigger] readable(flagged(items, keep)[i], d),
    decreases items.len(),
{
    if items.len() > 0 {
        let p = items.drop_last();
        lemma_kept_readable(p, keep.take(items.len() - 1), d);
        let rest = flagged(p, keep.take(items.len() - 1));
        assert forall|i: int| 0 <= i < rest.push(items.last()).len() implies #[trigger] readable(
            rest.push(items.last())[i],
            d,
        ) by {
            if i < rest.len() {
                assert(rest.push(items.last())[i] == rest[i]);
            }
        }
    }
}

/// The items of a readable manifest's profile list are readable four levels down.
proof fn lemma_profile_items_readable(j: JsonValue, field: Seq<char>)
    requires
        readable(j, 127),
        profile_list(j, field) matches Some(JsonValue::Array(_)),
    ensures
        forall|i: int| 0 <= i < profile_list(j, field)->0->Array_0.len() ==> #[trigger] readable(
            profile_list(j, field)->0->Array_0[i],
            123,
        ),
{
    let d = member(j, "dsh"@)->0;
    let p = member(d, "profile"@)->0;
    lemma_member_readable(j, "dsh"@, 127);
    lemma_member_readable(d, "profile"@, 126);
    lemma_member_readable(p, field, 125);
    let items = profile_list(j, field)->0->Array_0;
    assert forall|i: int| 0 <= i < items.len() implies #[trigger] readable(items[i], 123) by {
        assert(readable(JsonValue::Array(items), 124));
        reveal_with_fuel(readable, 2);
        assert(readable(items[i], 124 - 1));
    }
}

} // verus!
