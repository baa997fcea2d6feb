//! The chat request body: messages, the web-search template of known providers and the
//! custom request settings (`$set` and `$append`), and the text of a chat reply.
use vstd::prelude::*;
use crate::ai::{host_chars, host_of, is_mimo_host, is_xai_host, mimo_host, search_requested, web_search_requested, xai_host, AiConfig};
use crate::json::{
    arr_v, clone_json, deep_merge_map, json_value_of, parse_json_value, find_key, jv, lemma_arr_v, lemma_arr_v_ext, lemma_find_from,
    lemma_obj_v, lemma_obj_v_ext, merge_map, obj_get, obj_put, obj_put_exec, obj_v, json_eq,
    Json, JsonV,
};
use crate::text::{chars_of, contains, contains_exec, push_str, trim, trim_chars};

verus! {

/// `请求体不是对象`.
pub open spec fn not_object_text() -> Seq<char> {
    "请求体不是对象"@
}

/// The items of `items` not yet among `existing` appended to it, in order; an item equal to
/// one already there, or appended before it, is left out.
pub open spec fn with_new_items(existing: Seq<JsonV>, items: Seq<JsonV>) -> Seq<JsonV>
    decreases items.len(),
{
    if items.len() == 0 {
        existing
    } else {
        let prev = with_new_items(existing, items.drop_last());
        if prev.contains(items.last()) {
            prev
        } else {
            prev.push(items.last())
        }
    }
}

/// Appending `items` to the array member `key` of the body: a new member when there is
/// none; an error when the body is not an object or the member is not an array. Gives the
/// body after, and the outcome.
pub open spec fn appended(body: JsonV, key: Seq<char>, items: Seq<JsonV>) -> (JsonV, Result<(), Seq<char>>) {
    match body {
        JsonV::Object(m) => match obj_get(m, key) {
            Some(JsonV::Array(existing)) => (
                JsonV::Object(obj_put(m, key, JsonV::Array(with_new_items(existing, items)))),
                Ok(()),
            ),
            Some(_) => (body, Err(key + " 已存在但不是数组"@)),
            None => (JsonV::Object(obj_put(m, key, JsonV::Array(items))), Ok(())),
        },
        _ => (body, Err(not_object_text())),
    }
}

/// Appending keeps what was there and leaves every item among the result.
pub proof fn lemma_new_items_hold(existing: Seq<JsonV>, items: Seq<JsonV>)
    ensures
        forall|x: JsonV| existing.contains(x) ==> #[trigger] with_new_items(existing, items).contains(x),
        forall|j: int| 0 <= j < items.len() ==> with_new_items(existing, items).contains(#[trigger] items[j]),
    decreases items.len(),
{
    if items.len() > 0 {
        let init = items.drop_last();
        lemma_new_items_hold(existing, init);
        let prev = with_new_items(existing, init);
        let w = with_new_items(existing, items);
        assert forall|x: JsonV| prev.contains(x) implies w.contains(x) by {
            if !prev.contains(items.last()) {
                let t = choose|t: int| 0 <= t < prev.len() && prev[t] == x;
                assert(w[t] == x);
            }
        }
        assert forall|j: int| 0 <= j < items.len() implies w.contains(#[trigger] items[j]) by {
            if j < items.len() - 1 {
                assert(init[j] == items[j]);
                assert(prev.contains(init[j]));
            } else if !prev.contains(items.last()) {
                assert(w[prev.len() as int] == items.last());
            }
        }
    }
}

/// Appending items that are all there already changes nothing.
pub proof fn lemma_new_items_none(existing: Seq<JsonV>, items: Seq<JsonV>)
    requires
        forall|j: int| 0 <= j < items.len() ==> existing.contains(#[trigger] items[j]),
    ensures
        with_new_items(existing, items) == existing,
    decreases items.len(),
{
    if items.len() > 0 {
        let init = items.drop_last();
        assert forall|j: int| 0 <= j < init.len() implies existing.contains(#[trigger] init[j]) by {
            assert(init[j] == items[j]);
        }
        lemma_new_items_none(existing, init);
        assert(existing.contains(items[items.len() - 1]));
    }
}

/// Appending the same items a second time changes nothing and ends the same way.
pub proof fn lemma_append_twice(body: JsonV, key: Seq<char>, items: Seq<JsonV>)
    ensures
        appended(appended(body, key, items).0, key, items) == appended(body, key, items),
{
    let once = appended(body, key, items);
    if let JsonV::Object(m) = body {
        match obj_get(m, key) {
            Some(JsonV::Array(existing)) => {
                let w = with_new_items(existing, items);
                lemma_new_items_hold(existing, items);
                crate::json::lemma_put_get(m, key, JsonV::Array(w), key);
                lemma_new_items_none(w, items);
                crate::json::lemma_put_same(obj_put(m, key, JsonV::Array(w)), key, JsonV::Array(w));
            },
            Some(_) => {},
            None => {
                crate::json::lemma_put_get(m, key, JsonV::Array(items), key);
                assert forall|j: int| 0 <= j < items.len() implies items.contains(#[trigger] items[j]) by {}
                lemma_new_items_none(items, items);
                crate::json::lemma_put_same(obj_put(m, key, JsonV::Array(items)), key, JsonV::Array(items));
            },
        }
    }
}

/// Whether a value is among a list.
fn contains_json(v: &Vec<Json>, x: &Json) -> (b: bool)
    ensures
        b == arr_v(v@).contains(jv(*x)),
{
    proof {
        lemma_arr_v(v@);
    }
    let mut i: usize = 0;
    while i < v.len()
        invariant
            i <= v@.len(),
            arr_v(v@).len() == v@.len(),
            forall|t: int| 0 <= t < v@.len() ==> #[trigger] arr_v(v@)[t] == jv(v@[t]),
            forall|t: int| 0 <= t < i ==> jv(v@[t]) != jv(*x),
        decreases v@.len() - i,
    {
        if json_eq(&v[i], x) {
            assert(arr_v(v@)[i as int] == jv(*x));
            return true;
        }
        i += 1;
    }
    false
}

/// Appends the items not yet there to a list.
fn push_new_items(existing: &mut Vec<Json>, items: Vec<Json>)
    ensures
        arr_v(final(existing)@) == with_new_items(arr_v(old(existing)@), arr_v(items@)),
{
    let ghost e0 = arr_v(existing@);
    proof {
        lemma_arr_v(items@);
    }
    let ghost iv = arr_v(items@);
    let mut i: usize = 0;
    assert(iv.take(0) =~= Seq::<JsonV>::empty());
    while i < items.len()
        invariant
            i <= items@.len() == iv.len(),
            iv == arr_v(items@),
            forall|t: int| 0 <= t < items@.len() ==> #[trigger] iv[t] == jv(items@[t]),
            arr_v(existing@) == with_new_items(e0, iv.take(i as int)),
        decreases items@.len() - i,
    {
        assert(iv.take(i + 1).drop_last() =~= iv.take(i as int));
        assert(iv.take(i + 1).last() == jv(items@[i as int]));
        if !contains_json(existing, &items[i]) {
            let ghost before = existing@;
            existing.push(clone_json(&items[i]));
            proof {
                lemma_arr_v(before);
                lemma_arr_v_ext(existing@, arr_v(before).push(jv(items@[i as int])));
            }
        }
        i += 1;
    }
    assert(iv.take(iv.len() as int) =~= iv);
}

/// Appends `items` to the array member `key` of the body.
pub fn append_array_field(body: &mut Json, key: &str, items: Vec<Json>) -> (r: Result<(), String>)
    ensures
        jv(*final(body)) == appended(jv(*old(body)), key@, arr_v(items@)).0,
        match appended(jv(*old(body)), key@, arr_v(items@)).1 {
            Ok(_) => r is Ok,
            Err(e) => r matches Err(x) && x@ == e,
        },
{
    let mut b = Json::Null;
    std::mem::swap(&mut b, body);
    match b {
        Json::Object(mut m) => {
            let ghost m0 = obj_v(m@);
            proof {
                lemma_obj_v(m@);
                lemma_find_from(m0, key@, 0);
            }
            match find_key(&m, key) {
                Some(i) => {
                    let is_array = match &m[i].1 {
                        Json::Array(_) => true,
                        _ => false,
                    };
                    if !is_array {
                        *body = Json::Object(m);
                        let mut e = String::new();
                        push_str(&mut e, key);
                        push_str(&mut e, " 已存在但不是数组");
                        return Err(e);
                    }
                    let (k, v) = m.remove(i);
                    match v {
                        Json::Array(mut existing) => {
                            push_new_items(&mut existing, items);
                            let ghost nv = JsonV::Array(arr_v(existing@));
                            m.insert(i, (k, Json::Array(existing)));
                            proof {
                                lemma_obj_v_ext(m@, m0.update(i as int, (key@, nv)));
                            }
                        },
                        _ => {},
                    }
                    *body = Json::Object(m);
                    Ok(())
                },
                None => {
                    let mut k = String::new();
                    push_str(&mut k, key);
                    obj_put_exec(&mut m, k, Json::Array(items));
                    *body = Json::Object(m);
                    Ok(())
                },
            }
        },
        other => {
            *body = other;
            Err(String::from_str("请求体不是对象"))
        },
    }
}

/// A key the custom settings may not override.
pub open spec fn protected_key(k: Seq<char>) -> bool {
    k == "model"@ || k == "messages"@
}

/// The first protected key among the members from place `i` on.
pub open spec fn first_protected(m: Seq<(Seq<char>, JsonV)>, i: int) -> Option<Seq<char>>
    decreases m.len() - i,
{
    if i < 0 || i >= m.len() {
        None
    } else if protected_key(m[i].0) {
        Some(m[i].0)
    } else {
        first_protected(m, i + 1)
    }
}

/// An object that sets a protected key is refused, naming its first such key.
pub open spec fn protected_check(v: JsonV) -> Result<(), Seq<char>> {
    match v {
        JsonV::Object(m) => match first_protected(m, 0) {
            Some(k) => Err("自定义请求 JSON 不允许覆盖 "@ + k),
            None => Ok(()),
        },
        _ => Ok(()),
    }
}

/// Refuses an object that sets `model` or `messages`.
pub fn reject_protected_fields(value: &Json) -> (r: Result<(), String>)
    ensures
        match protected_check(jv(*value)) {
            Ok(_) => r is Ok,
            Err(e) => r matches Err(x) && x@ == e,
        },
{
    match value {
        Json::Object(m) => {
            proof {
                lemma_obj_v(m@);
            }
            let ghost mv = obj_v(m@);
            let mut i: usize = 0;
            while i < m.len()
                invariant
                    i <= m@.len() == mv.len(),
                    mv == obj_v(m@),
                    *value == Json::Object(*m),
                    forall|t: int| 0 <= t < mv.len() ==> #[trigger] mv[t] == (m@[t].0@, jv(m@[t].1)),
                    first_protected(mv, 0) == first_protected(mv, i as int),
                decreases m@.len() - i,
            {
                let k = m[i].0.as_str();
                if crate::json::same_text(k, "model") || crate::json::same_text(k, "messages") {
                    assert(protected_key(mv[i as int].0));
                    let mut e = String::new();
                    push_str(&mut e, "自定义请求 JSON 不允许覆盖 ");
                    push_str(&mut e, k);
                    return Err(e);
                }
                i += 1;
            }
            Ok(())
        },
        _ => Ok(()),
    }
}

/// Merging the object `source` into the body: refused when `source` sets a protected key,
/// when the body is not an object, or when `source` is not one.
pub open spec fn merged(body: JsonV, source: JsonV) -> (JsonV, Result<(), Seq<char>>) {
    match protected_check(source) {
        Err(e) => (body, Err(e)),
        Ok(_) => match body {
            JsonV::Object(tm) => match source {
                JsonV::Object(sm) => (JsonV::Object(merge_map(tm, sm)), Ok(())),
                _ => (body, Err("自定义请求 JSON 顶层必须是对象"@)),
            },
            _ => (body, Err(not_object_text())),
        },
    }
}

/// Merges the object `source` into the body.
pub fn merge_object(target: &mut Json, source: &Json) -> (r: Result<(), String>)
    ensures
        jv(*final(target)) == merged(jv(*old(target)), jv(*source)).0,
        match merged(jv(*old(target)), jv(*source)).1 {
            Ok(_) => r is Ok,
            Err(e) => r matches Err(x) && x@ == e,
        },
{
    match reject_protected_fields(source) {
        Err(e) => {
            return Err(e);
        },
        Ok(_) => {},
    }
    let mut b = Json::Null;
    std::mem::swap(&mut b, target);
    match b {
        Json::Object(mut tm) => match source {
            Json::Object(sm) => {
                deep_merge_map(&mut tm, sm);
                *target = Json::Object(tm);
                Ok(())
            },
            _ => {
                *target = Json::Object(tm);
                Err(String::from_str("自定义请求 JSON 顶层必须是对象"))
            },
        },
        other => {
            *target = other;
            Err(String::from_str("请求体不是对象"))
        },
    }
}

/// A text value.
fn text_value(s: &str) -> (j: Json)
    ensures
        jv(j) == JsonV::Str(s@),
{
    let mut t = String::new();
    push_str(&mut t, s);
    Json::Str(t)
}

/// An object of the given members.
fn object_of(members: Vec<(String, Json)>) -> (j: Json)
    ensures
        j == Json::Object(members),
{
    Json::Object(members)
}

/// A one-member object.
fn object1(k: &str, v: Json) -> (j: Json)
    ensures
        jv(j) == JsonV::Object(seq![(k@, jv(v))]),
{
    let mut m: Vec<(String, Json)> = Vec::new();
    let mut key = String::new();
    push_str(&mut key, k);
    m.push((key, v));
    proof {
        lemma_obj_v_ext(m@, seq![(k@, jv(v))]);
    }
    Json::Object(m)
}

/// A two-member object, members in the given order.
fn object2(k1: &str, v1: Json, k2: &str, v2: Json) -> (j: Json)
    ensures
        jv(j) == JsonV::Object(seq![(k1@, jv(v1)), (k2@, jv(v2))]),
{
    let mut m: Vec<(String, Json)> = Vec::new();
    let mut a = String::new();
    push_str(&mut a, k1);
    m.push((a, v1));
    let mut b = String::new();
    push_str(&mut b, k2);
    m.push((b, v2));
    proof {
        lemma_obj_v_ext(m@, seq![(k1@, jv(v1)), (k2@, jv(v2))]);
    }
    Json::Object(m)
}

/// A one-item array.
fn array1(v: Json) -> (j: Vec<Json>)
    ensures
        arr_v(j@) == seq![jv(v)],
{
    let mut a: Vec<Json> = Vec::new();
    a.push(v);
    proof {
        lemma_arr_v_ext(a@, seq![jv(v)]);
    }
    a
}

/// The MiMo web-search tool: `{"force_search": true, "type": "web_search"}`.
pub open spec fn mimo_tool() -> JsonV {
    JsonV::Object(seq![("force_search"@, JsonV::Bool(true)), ("type"@, JsonV::Str("web_search"@))])
}

/// `{"tool_choice": "auto"}`.
pub open spec fn tool_choice_auto() -> JsonV {
    JsonV::Object(seq![("tool_choice"@, JsonV::Str("auto"@))])
}

/// The OpenRouter web plugin: `{"id": "web"}`.
pub open spec fn web_plugin() -> JsonV {
    JsonV::Object(seq![("id"@, JsonV::Str("web"@))])
}

/// The xAI web-search tool: `{"type": "web_search"}`.
pub open spec fn web_search_tool() -> JsonV {
    JsonV::Object(seq![("type"@, JsonV::Str("web_search"@))])
}

/// The web-search template of the provider at `base_url` applied to the body: MiMo gets
/// its web-search tool and `tool_choice: auto`, OpenRouter its web plugin, xAI its
/// web-search tool; other providers nothing.
pub open spec fn search_template(body: JsonV, base_url: Seq<char>) -> (JsonV, Result<(), Seq<char>>) {
    let h = host_of(base_url);
    if mimo_host(h) {
        let (b1, r1) = appended(body, "tools"@, seq![mimo_tool()]);
        if r1 is Err {
            (b1, r1)
        } else {
            merged(b1, tool_choice_auto())
        }
    } else if contains(h, "openrouter.ai"@) {
        appended(body, "plugins"@, seq![web_plugin()])
    } else if xai_host(h) {
        appended(body, "tools"@, seq![web_search_tool()])
    } else {
        (body, Ok(()))
    }
}

/// Applies the web-search template of the provider at `base_url`.
pub fn apply_native_search_template(body: &mut Json, base_url: &str) -> (r: Result<(), String>)
    ensures
        jv(*final(body)) == search_template(jv(*old(body)), base_url@).0,
        match search_template(jv(*old(body)), base_url@).1 {
            Ok(_) => r is Ok,
            Err(e) => r matches Err(x) && x@ == e,
        },
{
    let host = host_chars(base_url);
    if is_mimo_host(&host) {
        let tool = object2("force_search", Json::Bool(true), "type", text_value("web_search"));
        let r1 = append_array_field(body, "tools", array1(tool));
        if r1.is_err() {
            return r1;
        }
        let choice = object1("tool_choice", text_value("auto"));
        merge_object(body, &choice)
    } else if contains_exec(&host, &chars_of("openrouter.ai")) {
        let plugin = object1("id", text_value("web"));
        append_array_field(body, "plugins", array1(plugin))
    } else if is_xai_host(&host) {
        let tool = object1("type", text_value("web_search"));
        append_array_field(body, "tools", array1(tool))
    } else {
        Ok(())
    }
}

/// The member `k` of an object value.
pub open spec fn member(v: JsonV, k: Seq<char>) -> Option<JsonV> {
    match v {
        JsonV::Object(m) => obj_get(m, k),
        _ => None,
    }
}

/// Appending, from place `i` on, each member's array to the body member of the same key;
/// a member that is not an array is refused.
pub open spec fn append_all(b: JsonV, am: Seq<(Seq<char>, JsonV)>, i: int) -> (JsonV, Result<(), Seq<char>>)
    decreases am.len() - i,
{
    if i < 0 || i >= am.len() {
        (b, Ok(()))
    } else {
        let k = am[i].0;
        match am[i].1 {
            JsonV::Array(items) => {
                let (b1, r1) = appended(b, k, items);
                if r1 is Err {
                    (b1, r1)
                } else {
                    append_all(b1, am, i + 1)
                }
            },
            _ => (b, Err("$append."@ + k + " 必须是数组"@)),
        }
    }
}

/// The custom request settings applied to the body. Blank settings change nothing; settings
/// that do not parse are refused. Settings with neither `$set` nor `$append` merge into the
/// body as they are; otherwise `$set` merges in (refused when it sets `model` or
/// `messages`) and each array of `$append` (which must be an object) is appended.
pub open spec fn custom_applied(body: JsonV, text: Seq<char>, parsed: Result<JsonV, Seq<char>>) -> (JsonV, Result<(), Seq<char>>) {
    if trim(text).len() == 0 {
        (body, Ok(()))
    } else {
        match parsed {
            Err(e) => (body, Err("自定义请求 JSON 无效: "@ + e)),
            Ok(custom) => {
                let set = member(custom, "$set"@);
                let app = member(custom, "$append"@);
                if set is None && app is None {
                    merged(body, custom)
                } else {
                    let (b1, r1) = match set {
                        Some(sv) => match protected_check(sv) {
                            Err(e) => (body, Err(e)),
                            Ok(_) => merged(body, sv),
                        },
                        None => (body, Ok(())),
                    };
                    if r1 is Err {
                        (b1, r1)
                    } else {
                        match app {
                            None => (b1, Ok(())),
                            Some(JsonV::Object(am)) => append_all(b1, am, 0),
                            Some(_) => (b1, Err("$append 必须是对象"@)),
                        }
                    }
                }
            },
        }
    }
}

/// The member `k` of a value, if it is an object that has one.
fn member_exec<'a>(v: &'a Json, k: &str) -> (r: Option<&'a Json>)
    ensures
        match r {
            Some(x) => member(jv(*v), k@) == Some(jv(*x)),
            None => member(jv(*v), k@) is None,
        },
{
    match v {
        Json::Object(m) => {
            proof {
                lemma_obj_v(m@);
                lemma_find_from(obj_v(m@), k@, 0);
            }
            match find_key(m, k) {
                Some(i) => Some(&m[i].1),
                None => None,
            }
        },
        _ => None,
    }
}

/// A copy of a list of values.
fn clone_items(v: &Vec<Json>) -> (r: Vec<Json>)
    ensures
        arr_v(r@) == arr_v(v@),
{
    proof {
        lemma_arr_v(v@);
    }
    let mut r: Vec<Json> = Vec::new();
    let mut i: usize = 0;
    while i < v.len()
        invariant
            i <= v@.len(),
            r@.len() == i,
            forall|t: int| 0 <= t < i ==> jv(#[trigger] r@[t]) == jv(v@[t]),
        decreases v@.len() - i,
    {
        r.push(clone_json(&v[i]));
        i += 1;
    }
    proof {
        lemma_arr_v_ext(r@, arr_v(v@));
    }
    r
}

/// Appends each array of the `$append` members to the body.
fn append_members(body: &mut Json, am: &Vec<(String, Json)>) -> (r: Result<(), String>)
    ensures
        jv(*final(body)) == append_all(jv(*old(body)), obj_v(am@), 0).0,
        match append_all(jv(*old(body)), obj_v(am@), 0).1 {
            Ok(_) => r is Ok,
            Err(e) => r matches Err(x) && x@ == e,
        },
{
    proof {
        lemma_obj_v(am@);
    }
    let ghost mv = obj_v(am@);
    let ghost goal = append_all(jv(*body), mv, 0);
    let mut i: usize = 0;
    while i < am.len()
        invariant
            i <= am@.len() == mv.len(),
            mv == obj_v(am@),
            forall|t: int| 0 <= t < mv.len() ==> #[trigger] mv[t] == (am@[t].0@, jv(am@[t].1)),
            goal == append_all(jv(*old(body)), mv, 0),
            append_all(jv(*body), mv, i as int) == goal,
        decreases am@.len() - i,
    {
        let k = am[i].0.as_str();
        match &am[i].1 {
            Json::Array(items) => {
                let r = append_array_field(body, k, clone_items(items));
                if r.is_err() {
                    return r;
                }
            },
            _ => {
                let mut e = String::new();
                push_str(&mut e, "$append.");
                push_str(&mut e, k);
                push_str(&mut e, " 必须是数组");
                return Err(e);
            },
        }
        i += 1;
    }
    Ok(())
}

/// The view of a parse result.
pub open spec fn parsed_view(p: Result<Json, String>) -> Result<JsonV, Seq<char>> {
    match p {
        Ok(j) => Ok(jv(j)),
        Err(e) => Err(e@),
    }
}

/// Applies the custom request settings `json_text`, given what the JSON reader made of them.
pub fn apply_custom_request_value(body: &mut Json, json_text: &str, parsed: Result<Json, String>) -> (r: Result<(), String>)
    ensures
        jv(*final(body)) == custom_applied(jv(*old(body)), json_text@, parsed_view(parsed)).0,
        match custom_applied(jv(*old(body)), json_text@, parsed_view(parsed)).1 {
            Ok(_) => r is Ok,
            Err(e) => r matches Err(x) && x@ == e,
        },
{
    let t = trim_chars(&chars_of(json_text));
    if t.len() == 0 {
        return Ok(());
    }
    let custom = match parsed {
        Err(e) => {
            let mut m = String::new();
            push_str(&mut m, "自定义请求 JSON 无效: ");
            push_str(&mut m, e.as_str());
            return Err(m);
        },
        Ok(c) => c,
    };
    let set = member_exec(&custom, "$set");
    let app = member_exec(&custom, "$append");
    if set.is_none() && app.is_none() {
        return merge_object(body, &custom);
    }
    if let Some(sv) = set {
        let r = reject_protected_fields(sv);
        if r.is_err() {
            return r;
        }
        let r2 = merge_object(body, sv);
        if r2.is_err() {
            return r2;
        }
    }
    match app {
        None => Ok(()),
        Some(av) => match av {
            Json::Object(am) => append_members(body, am),
            _ => Err(String::from_str("$append 必须是对象")),
        },
    }
}

/// Applies the custom request settings `json_text`: blank settings change nothing; others
/// are read as JSON and applied.
pub fn apply_custom_request_json(body: &mut Json, json_text: &str) -> (r: Result<(), String>)
    ensures
        jv(*final(body)) == custom_applied(jv(*old(body)), json_text@, json_value_of(json_text@)).0,
        match custom_applied(jv(*old(body)), json_text@, json_value_of(json_text@)).1 {
            Ok(_) => r is Ok,
            Err(e) => r matches Err(x) && x@ == e,
        },
{
    let t = trim_chars(&chars_of(json_text));
    if t.len() == 0 {
        return Ok(());
    }
    let parsed = parse_json_value(json_text);
    apply_custom_request_value(body, json_text, parsed)
}

/// One chat message.
pub struct Message {
    pub role: String,
    pub content: String,
}

/// The system message sent first when web search is asked for.
pub open spec fn search_notice() -> Seq<char> {
    "本次请求已启用 web_search 联网搜索能力。生成磁盘诊断或清理报告前，必须检索关键路径来源、生成原因和清理方案；不要声称未实际联网。"@
}

/// A message as a JSON object: `{"content": ..., "role": ...}`.
pub open spec fn message_value(role: Seq<char>, content: Seq<char>) -> JsonV {
    JsonV::Object(seq![("content"@, JsonV::Str(content)), ("role"@, JsonV::Str(role))])
}

/// The messages as JSON objects.
pub open spec fn message_values(ms: Seq<Message>) -> Seq<JsonV> {
    Seq::new(ms.len(), |i: int| message_value(ms[i].role@, ms[i].content@))
}

/// The chat request body under `config`: the messages (with a web-search notice first when
/// web search is asked for), the model and temperature 0.3; then the provider's web-search
/// template when web search is asked for, and the custom settings when switched on. An
/// error of either refuses the request.
pub open spec fn chat_body(config: AiConfig, messages: Seq<Message>, parsed: Result<JsonV, Seq<char>>) -> Result<JsonV, Seq<char>> {
    let search = search_requested(config.web_search_enabled, config.base_url@);
    let msgs = if search {
        seq![message_value("system"@, search_notice())] + message_values(messages)
    } else {
        message_values(messages)
    };
    let body = JsonV::Object(
        seq![
            ("messages"@, JsonV::Array(msgs)),
            ("model"@, JsonV::Str(config.model@)),
            ("temperature"@, JsonV::Number("0.3"@)),
        ],
    );
    let (b1, r1) = if search {
        search_template(body, config.base_url@)
    } else {
        (body, Ok(()))
    };
    match r1 {
        Err(e) => Err(e),
        Ok(_) => if config.web_search_enabled {
            let (b2, r2) = custom_applied(b1, config.custom_request_json@, parsed);
            match r2 {
                Err(e) => Err(e),
                Ok(_) => Ok(b2),
            }
        } else {
            Ok(b1)
        },
    }
}

/// The body before any template: its members are `messages`, `model` and `temperature`, so
/// it has no `plugins` or `tools` member.
proof fn lemma_plain_body_members(msgs: Seq<JsonV>, model: Seq<char>)
    ensures
        ({
            let m = seq![
                ("messages"@, JsonV::Array(msgs)),
                ("model"@, JsonV::Str(model)),
                ("temperature"@, JsonV::Number("0.3"@)),
            ];
            obj_get(m, "plugins"@) is None && obj_get(m, "tools"@) is None
        }),
{
    reveal_strlit("messages");
    reveal_strlit("model");
    reveal_strlit("temperature");
    reveal_strlit("plugins");
    reveal_strlit("tools");
    let m = seq![
        ("messages"@, JsonV::Array(msgs)),
        ("model"@, JsonV::Str(model)),
        ("temperature"@, JsonV::Number("0.3"@)),
    ];
    crate::json::lemma_find_from(m, "plugins"@, 0);
    crate::json::lemma_find_from(m, "tools"@, 0);
    assert("messages"@.len() == 8 && "model"@.len() == 5 && "temperature"@.len() == 11);
    assert("plugins"@.len() == 7 && "tools"@.len() == 5);
    assert("model"@[0] == 'm' && "tools"@[0] == 't');
    assert(m[0].0 != "plugins"@ && m[1].0 != "plugins"@ && m[2].0 != "plugins"@);
    assert(m[0].0 != "tools"@ && m[1].0 != "tools"@ && m[2].0 != "tools"@);
}

/// Where the custom settings do not apply, a request to OpenRouter carries its web plugin,
/// `"plugins": [{"id": "web"}]`, and one to xAI its web-search tool,
/// `"tools": [{"type": "web_search"}]`; a request with no web search carries neither.
pub proof fn lemma_search_members(config: AiConfig, messages: Seq<Message>, parsed: Result<JsonV, Seq<char>>)
    requires
        !mimo_host(host_of(config.base_url@)),
        !config.web_search_enabled || trim(config.custom_request_json@).len() == 0,
    ensures
        contains(host_of(config.base_url@), "openrouter.ai"@) ==> (chat_body(config, messages, parsed) matches Ok(b)
            && member(b, "plugins"@) == Some(JsonV::Array(seq![JsonV::Object(seq![("id"@, JsonV::Str("web"@))])]))),
        !contains(host_of(config.base_url@), "openrouter.ai"@) && xai_host(host_of(config.base_url@))
            ==> (chat_body(config, messages, parsed) matches Ok(b) && member(b, "tools"@) == Some(
            JsonV::Array(seq![JsonV::Object(seq![("type"@, JsonV::Str("web_search"@))])]),
        )),
        !search_requested(config.web_search_enabled, config.base_url@) ==> (chat_body(config, messages, parsed) matches Ok(b)
            && member(b, "plugins"@) is None && member(b, "tools"@) is None),
{
    let search = search_requested(config.web_search_enabled, config.base_url@);
    let msgs = if search {
        seq![message_value("system"@, search_notice())] + message_values(messages)
    } else {
        message_values(messages)
    };
    let m = seq![
        ("messages"@, JsonV::Array(msgs)),
        ("model"@, JsonV::Str(config.model@)),
        ("temperature"@, JsonV::Number("0.3"@)),
    ];
    lemma_plain_body_members(msgs, config.model@);
    let h = host_of(config.base_url@);
    if contains(h, "openrouter.ai"@) {
        crate::json::lemma_put_get(m, "plugins"@, JsonV::Array(seq![web_plugin()]), "plugins"@);
    } else if xai_host(h) {
        crate::json::lemma_put_get(m, "tools"@, JsonV::Array(seq![web_search_tool()]), "tools"@);
    }
}

/// A message as a JSON object.
fn message_json(role: &str, content: &str) -> (j: Json)
    ensures
        jv(j) == message_value(role@, content@),
{
    object2("content", text_value(content), "role", text_value(role))
}

/// The chat request body under `config`.
pub fn build_chat_body(config: &AiConfig, messages: Vec<Message>) -> (r: Result<Json, String>)
    ensures
        match chat_body(*config, messages@, json_value_of(config.custom_request_json@)) {
            Ok(b) => r matches Ok(j) && jv(j) == b,
            Err(e) => r matches Err(x) && x@ == e,
        },
{
    let search = web_search_requested(config);
    let mut msgs: Vec<Json> = Vec::new();
    if search {
        msgs.push(message_json("system", "本次请求已启用 web_search 联网搜索能力。生成磁盘诊断或清理报告前，必须检索关键路径来源、生成原因和清理方案；不要声称未实际联网。"));
    }
    let ghost lead: Seq<JsonV> = if search {
        seq![message_value("system"@, search_notice())]
    } else {
        Seq::empty()
    };
    proof {
        lemma_arr_v_ext(msgs@, lead);
    }
    let mut i: usize = 0;
    while i < messages.len()
        invariant
            i <= messages@.len(),
            arr_v(msgs@) == lead + message_values(messages@).take(i as int),
        decreases messages@.len() - i,
    {
        let ghost before = msgs@;
        msgs.push(message_json(messages[i].role.as_str(), messages[i].content.as_str()));
        proof {
            lemma_arr_v(before);
            lemma_arr_v_ext(msgs@, arr_v(before).push(message_value(messages@[i as int].role@, messages@[i as int].content@)));
            assert(message_values(messages@).take(i + 1) =~= message_values(messages@).take(i as int).push(
                message_value(messages@[i as int].role@, messages@[i as int].content@),
            ));
        }
        i += 1;
    }
    assert(message_values(messages@).take(messages@.len() as int) == message_values(messages@));
    let ghost mv = arr_v(msgs@);
    let mut members: Vec<(String, Json)> = Vec::new();
    members.push((String::from_str("messages"), Json::Array(msgs)));
    let mut model = String::new();
    push_str(&mut model, config.model.as_str());
    members.push((String::from_str("model"), Json::Str(model)));
    members.push((String::from_str("temperature"), Json::Number(String::from_str("0.3"))));
    proof {
        lemma_obj_v_ext(
            members@,
            seq![
                ("messages"@, JsonV::Array(mv)),
                ("model"@, JsonV::Str(config.model@)),
                ("temperature"@, JsonV::Number("0.3"@)),
            ],
        );
    }
    let mut body = object_of(members);
    if search {
        let r = apply_native_search_template(&mut body, config.base_url.as_str());
        if let Err(e) = r {
            return Err(e);
        }
    }
    if config.web_search_enabled {
        let r = apply_custom_request_json(&mut body, config.custom_request_json.as_str());
        if let Err(e) = r {
            return Err(e);
        }
    }
    Ok(body)
}

/// What the service returned for one choice.
pub struct ResponseMessage {
    pub content: String,
    pub tool_calls: Option<Json>,
}

/// One choice of a chat reply.
pub struct Choice {
    pub message: ResponseMessage,
    pub finish_reason: Option<String>,
}

/// The text of a choice: its content when not blank; otherwise an error naming the finish
/// reason (`unknown` when absent) and whether non-null tool calls came back.
pub open spec fn choice_result(c: Choice) -> Result<Seq<char>, Seq<char>> {
    if trim(c.message.content@).len() > 0 {
        Ok(c.message.content@)
    } else {
        let reason = match c.finish_reason {
            Some(r) => r@,
            None => "unknown"@,
        };
        let calls = match c.message.tool_calls {
            Some(v) => !(jv(v) is Null),
            None => false,
        };
        Err("API 未返回文本内容（finish_reason: "@ + reason + ", tool_calls: "@ + (if calls {
            "true"@
        } else {
            "false"@
        }) + "）"@)
    }
}

/// The text of a choice of a chat reply.
pub fn choice_text(choice: &Choice) -> (r: Result<String, String>)
    ensures
        crate::ai::text_result(r) == choice_result(*choice),
{
    let t = trim_chars(&chars_of(choice.message.content.as_str()));
    if t.len() > 0 {
        return Ok(choice.message.content.clone());
    }
    let mut e = String::new();
    push_str(&mut e, "API 未返回文本内容（finish_reason: ");
    match &choice.finish_reason {
        Some(r) => push_str(&mut e, r.as_str()),
        None => push_str(&mut e, "unknown"),
    }
    push_str(&mut e, ", tool_calls: ");
    let calls = match &choice.message.tool_calls {
        Some(v) => match v {
            Json::Null => false,
            _ => true,
        },
        None => false,
    };
    if calls {
        push_str(&mut e, "true");
    } else {
        push_str(&mut e, "false");
    }
    push_str(&mut e, "）");
    Err(e)
}

/// The text of a chat reply: that of its first choice; an error when there is none.
pub fn reply_text(choices: &Vec<Choice>) -> (r: Result<String, String>)
    ensures
        choices@.len() == 0 ==> crate::ai::text_result(r) == Err::<Seq<char>, Seq<char>>("API 未返回内容"@),
        choices@.len() > 0 ==> crate::ai::text_result(r) == choice_result(choices@[0]),
{
    if choices.len() == 0 {
        return Err(String::from_str("API 未返回内容"));
    }
    choice_text(&choices[0])
}

/// The chat completions URL of a base URL: trailing slashes dropped, `/chat/completions`
/// added.
pub open spec fn chat_url_text(base_url: Seq<char>) -> Seq<char> {
    crate::text::strip_suffixes(base_url, seq!['/']) + "/chat/completions"@
}

/// The chat completions URL of a base URL.
pub fn chat_url(base_url: &str) -> (u: String)
    ensures
        u@ == chat_url_text(base_url@),
{
    let slash: Vec<char> = vec!['/'];
    assert(slash@ =~= seq!['/']);
    let b = crate::text::strip_suffixes_exec(&chars_of(base_url), &slash);
    let mut u = crate::text::string_of(&b);
    push_str(&mut u, "/chat/completions");
    u
}

/// The error of a chat reply whose status is not a success: the service's own error message
/// when its body carries one, else the status and the body as they came.
pub open spec fn api_error(status: Seq<char>, message: Option<Seq<char>>, body: Seq<char>) -> Seq<char> {
    match message {
        Some(m) => "API 错误: "@ + m,
        None => "API 返回 "@ + status + ": "@ + body,
    }
}

/// The error of a chat reply whose status is not a success.
pub fn api_error_text(status: &str, message: Option<&str>, body: &str) -> (s: String)
    ensures
        s@ == api_error(status@, match message {
            Some(m) => Some(m@),
            None => None,
        }, body@),
{
    let mut s = String::new();
    match message {
        Some(m) => {
            push_str(&mut s, "API 错误: ");
            push_str(&mut s, m);
        },
        None => {
            push_str(&mut s, "API 返回 ");
            push_str(&mut s, status);
            push_str(&mut s, ": ");
            push_str(&mut s, body);
        },
    }
    s
}

/// The request body of one chat exchange: the system and user messages under `config`;
/// refused when no API key is set.
pub fn chat_request(config: &AiConfig, system: &str, user: &str) -> (r: Result<Json, String>)
    ensures
        trim(config.api_key@).len() == 0 ==> (r matches Err(x) && x@ == "请先在设置中配置 API Key"@),
        trim(config.api_key@).len() > 0 ==> exists|ms: Seq<Message>|
            ms.len() == 2 && ms[0].role@ == "system"@ && ms[0].content@ == system@ && ms[1].role@
                == "user"@ && ms[1].content@ == user@ && match chat_body(*config, ms, json_value_of(config.custom_request_json@)) {
                Ok(b) => r matches Ok(j) && jv(j) == b,
                Err(e) => r matches Err(x) && x@ == e,
            },
{
    let k = trim_chars(&chars_of(config.api_key.as_str()));
    if k.len() == 0 {
        return Err(String::from_str("请先在设置中配置 API Key"));
    }
    let mut ms: Vec<Message> = Vec::new();
    ms.push(Message { role: String::from_str("system"), content: String::from_str(system) });
    ms.push(Message { role: String::from_str("user"), content: String::from_str(user) });
    let ghost msv = ms@;
    let r = build_chat_body(config, ms);
    assert(msv.len() == 2 && msv[0].role@ == "system"@ && msv[0].content@ == system@ && msv[1].role@ == "user"@ && msv[1].content@ == user@);
    r
}

} // verus!
