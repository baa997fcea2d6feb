//! JSON values as the chat request body holds them, with the merge and append operations
//! that request templates and custom request settings apply.
use vstd::prelude::*;
use crate::rank::lex_less;

verus! {

/// A JSON value. An object lists its members by key; a number keeps its JSON text.
#[derive(Debug)]
pub enum Json {
    Null,
    Bool(bool),
    Number(String),
    Str(String),
    Array(Vec<Json>),
    Object(Vec<(String, Json)>),
}

/// What `serde_json::from_str::<serde_json::Value>` gives for a text: the value read, or the
/// text of its error.
pub uninterp spec fn json_value_of(text: Seq<char>) -> Result<JsonV, Seq<char>>;

#[verifier::external_type_specification]
#[verifier::external_body]
pub struct ExJsonValue(serde_json::Value);

/// A `serde_json::Value` in the library's form, variant for variant: a number keeps the text
/// serde_json writes for it, an object its members in the map's order.
#[verifier::external_body]
fn json_from_value(v: serde_json::Value) -> Json {
    match v {
        serde_json::Value::Null => Json::Null,
        serde_json::Value::Bool(b) => Json::Bool(b),
        serde_json::Value::Number(n) => Json::Number(n.to_string()),
        serde_json::Value::String(s) => Json::Str(s),
        serde_json::Value::Array(a) => Json::Array(a.into_iter().map(json_from_value).collect()),
        serde_json::Value::Object(m) => Json::Object(m.into_iter().map(|(k, x)| (k, json_from_value(x))).collect()),
    }
}

/// `serde_json::from_str::<serde_json::Value>`, the value in the library's form and the error
/// turned into its `Display` text. The contract claims only that the outcome is a function of
/// the text, named by `json_value_of`.
#[verifier::external_body]
pub(crate) fn parse_json_value(text: &str) -> (r: Result<Json, String>)
    ensures
        match r {
            Ok(j) => json_value_of(text@) == Ok::<JsonV, Seq<char>>(jv(j)),
            Err(e) => json_value_of(text@) == Err::<JsonV, Seq<char>>(e@),
        },
{
    match serde_json::from_str::<serde_json::Value>(text) {
        Ok(v) => Ok(json_from_value(v)),
        Err(e) => Err(e.to_string()),
    }
}

/// A JSON value as plain sequences.
pub enum JsonV {
    Null,
    Bool(bool),
    Number(Seq<char>),
    Str(Seq<char>),
    Array(Seq<JsonV>),
    Object(Seq<(Seq<char>, JsonV)>),
}

/// The plain form of a JSON value.
pub open spec fn jv(j: Json) -> JsonV
    decreases j,
{
    match j {
        Json::Null => JsonV::Null,
        Json::Bool(b) => JsonV::Bool(b),
        Json::Number(n) => JsonV::Number(n@),
        Json::Str(s) => JsonV::Str(s@),
        Json::Array(a) => JsonV::Array(arr_v(a@)),
        Json::Object(m) => JsonV::Object(obj_v(m@)),
    }
}

/// The plain form of a list of values.
pub open spec fn arr_v(s: Seq<Json>) -> Seq<JsonV>
    decreases s,
{
    if s.len() == 0 {
        Seq::empty()
    } else {
        arr_v(s.subrange(0, s.len() - 1)).push(jv(s[s.len() - 1]))
    }
}

/// The plain form of a list of members.
pub open spec fn obj_v(s: Seq<(String, Json)>) -> Seq<(Seq<char>, JsonV)>
    decreases s,
{
    if s.len() == 0 {
        Seq::empty()
    } else {
        obj_v(s.subrange(0, s.len() - 1)).push((s[s.len() - 1].0@, jv(s[s.len() - 1].1)))
    }
}

/// The plain form of a list of values, element by element.
pub proof fn lemma_arr_v(s: Seq<Json>)
    ensures
        arr_v(s).len() == s.len(),
        forall|i: int| 0 <= i < s.len() ==> #[trigger] arr_v(s)[i] == jv(s[i]),
    decreases s.len(),
{
    if s.len() > 0 {
        let p = s.subrange(0, s.len() - 1);
        lemma_arr_v(p);
        assert forall|i: int| 0 <= i < s.len() implies #[trigger] arr_v(s)[i] == jv(s[i]) by {
            if i < s.len() - 1 {
                assert(p[i] == s[i]);
            }
        }
    }
}

/// The plain form of a list of members, member by member.
pub proof fn lemma_obj_v(s: Seq<(String, Json)>)
    ensures
        obj_v(s).len() == s.len(),
        forall|i: int|
            0 <= i < s.len() ==> #[trigger] obj_v(s)[i] == (s[i].0@, jv(s[i].1)),
    decreases s.len(),
{
    if s.len() > 0 {
        let p = s.subrange(0, s.len() - 1);
        lemma_obj_v(p);
        assert forall|i: int| 0 <= i < s.len() implies #[trigger] obj_v(s)[i] == (s[i].0@, jv(s[i].1)) by {
            if i < s.len() - 1 {
                assert(p[i] == s[i]);
            }
        }
    }
}

/// Lists with the same members element by element have the same plain form.
pub proof fn lemma_obj_v_ext(a: Seq<(String, Json)>, b: Seq<(Seq<char>, JsonV)>)
    requires
        a.len() == b.len(),
        forall|i: int| 0 <= i < a.len() ==> (#[trigger] a[i]).0@ == b[i].0 && jv(a[i].1) == b[i].1,
    ensures
        obj_v(a) == b,
{
    lemma_obj_v(a);
    assert(obj_v(a) =~= b);
}

/// Lists with the same values element by element have the same plain form.
pub proof fn lemma_arr_v_ext(a: Seq<Json>, b: Seq<JsonV>)
    requires
        a.len() == b.len(),
        forall|i: int| 0 <= i < a.len() ==> jv(#[trigger] a[i]) == b[i],
    ensures
        arr_v(a) == b,
{
    lemma_arr_v(a);
    assert(arr_v(a) =~= b);
}

/// The place of the first member with key `k` at or after `i`.
pub open spec fn find_from(m: Seq<(Seq<char>, JsonV)>, k: Seq<char>, i: int) -> Option<int>
    decreases m.len() - i,
{
    if i < 0 || i >= m.len() {
        None
    } else if m[i].0 == k {
        Some(i)
    } else {
        find_from(m, k, i + 1)
    }
}

/// The place of the member with key `k`.
pub open spec fn obj_find(m: Seq<(Seq<char>, JsonV)>, k: Seq<char>) -> Option<int> {
    find_from(m, k, 0)
}

/// The value of the member with key `k`.
pub open spec fn obj_get(m: Seq<(Seq<char>, JsonV)>, k: Seq<char>) -> Option<JsonV> {
    match obj_find(m, k) {
        Some(i) => Some(m[i].1),
        None => None,
    }
}

/// The place of the first member at or after `i` whose key comes after `k`.
pub open spec fn after_from(m: Seq<(Seq<char>, JsonV)>, k: Seq<char>, i: int) -> int
    decreases m.len() - i,
{
    if i < 0 || i >= m.len() {
        m.len() as int
    } else if lex_less(k, m[i].0) {
        i
    } else {
        after_from(m, k, i + 1)
    }
}

/// The members with `k` set to `v`: the member with key `k` gets the new value; without
/// one, the member goes before the first key that comes after `k`.
pub open spec fn obj_put(m: Seq<(Seq<char>, JsonV)>, k: Seq<char>, v: JsonV) -> Seq<(Seq<char>, JsonV)> {
    match obj_find(m, k) {
        Some(i) => m.update(i, (k, v)),
        None => m.insert(after_from(m, k, 0), (k, v)),
    }
}

/// The members of `t` with the members of `s` merged in, in order: a member whose old and
/// new values are both objects merges them the same way; any other takes the new value.
pub open spec fn merge_map(t: Seq<(Seq<char>, JsonV)>, s: Seq<(Seq<char>, JsonV)>) -> Seq<(Seq<char>, JsonV)>
    decreases s,
{
    if s.len() == 0 {
        t
    } else {
        let k = s[0].0;
        let v = s[0].1;
        let t2 = match (obj_get(t, k), v) {
            (Some(JsonV::Object(to)), JsonV::Object(so)) => obj_put(t, k, JsonV::Object(merge_map(to, so))),
            _ => obj_put(t, k, v),
        };
        merge_map(t2, s.subrange(1, s.len() as int))
    }
}

/// A found place holds the key, and no earlier place from `i` does.
pub proof fn lemma_find_from(m: Seq<(Seq<char>, JsonV)>, k: Seq<char>, i: int)
    requires
        0 <= i,
    ensures
        find_from(m, k, i) matches Some(p) ==> i <= p < m.len() && m[p].0 == k && forall|j: int|
            i <= j < p ==> m[j].0 != k,
        find_from(m, k, i) is None ==> forall|j: int| i <= j < m.len() ==> m[j].0 != k,
    decreases m.len() - i,
{
    if i < m.len() && m[i].0 != k {
        lemma_find_from(m, k, i + 1);
    }
}

/// The insertion place lies within the list.
pub proof fn lemma_after_from(m: Seq<(Seq<char>, JsonV)>, k: Seq<char>, i: int)
    requires
        0 <= i <= m.len(),
    ensures
        i <= after_from(m, k, i) <= m.len(),
    decreases m.len() - i,
{
    if i < m.len() && !lex_less(k, m[i].0) {
        lemma_after_from(m, k, i + 1);
    }
}

/// The first place from `i` holding `k` is `p` when `p` holds it and no place in between
/// does.
pub proof fn lemma_find_from_is(m: Seq<(Seq<char>, JsonV)>, k: Seq<char>, i: int, p: int)
    requires
        0 <= i <= p < m.len(),
        m[p].0 == k,
        forall|j: int| i <= j < p ==> m[j].0 != k,
    ensures
        find_from(m, k, i) == Some(p),
    decreases p - i,
{
    if i < p {
        lemma_find_from_is(m, k, i + 1, p);
    }
}

/// No place is found when no place from `i` holds `k`.
pub proof fn lemma_find_from_none(m: Seq<(Seq<char>, JsonV)>, k: Seq<char>, i: int)
    requires
        0 <= i,
        forall|j: int| i <= j < m.len() ==> m[j].0 != k,
    ensures
        find_from(m, k, i) is None,
    decreases m.len() - i,
{
    if i < m.len() {
        lemma_find_from_none(m, k, i + 1);
    }
}

/// A read gives back what a write wrote: after `k` is set to `v`, `k` reads `v`, and every
/// Writing the value a key already reads leaves the members as they were.
pub proof fn lemma_put_same(m: Seq<(Seq<char>, JsonV)>, k: Seq<char>, v: JsonV)
    requires
        obj_get(m, k) == Some(v),
    ensures
        obj_put(m, k, v) == m,
{
    lemma_find_from(m, k, 0);
    let i = obj_find(m, k)->0;
    assert(m.update(i, (k, v)) =~= m);
}

/// other key reads what it read before.
pub proof fn lemma_put_get(m: Seq<(Seq<char>, JsonV)>, k: Seq<char>, v: JsonV, k2: Seq<char>)
    ensures
        obj_get(obj_put(m, k, v), k) == Some(v),
        k2 != k ==> obj_get(obj_put(m, k, v), k2) == obj_get(m, k2),
{
    lemma_find_from(m, k, 0);
    lemma_find_from(m, k2, 0);
    let m2 = obj_put(m, k, v);
    match obj_find(m, k) {
        Some(i) => {
            assert(m2 == m.update(i, (k, v)));
            lemma_find_from_is(m2, k, 0, i);
            if k2 != k {
                match obj_find(m, k2) {
                    Some(j) => {
                        assert(j != i);
                        lemma_find_from_is(m2, k2, 0, j);
                    },
                    None => {
                        lemma_find_from_none(m2, k2, 0);
                    },
                }
            }
        },
        None => {
            let p = after_from(m, k, 0);
            lemma_after_from(m, k, 0);
            assert(m2 == m.insert(p, (k, v)));
            assert(forall|x: int| 0 <= x < p ==> m2[x] == m[x]);
            assert(m2[p] == (k, v));
            assert(forall|x: int| p < x < m2.len() ==> m2[x] == m[x - 1]);
            lemma_find_from_is(m2, k, 0, p);
            if k2 != k {
                match obj_find(m, k2) {
                    Some(j) => {
                        if j < p {
                            lemma_find_from_is(m2, k2, 0, j);
                        } else {
                            assert(m2[j + 1] == m[j]);
                            assert forall|x: int| 0 <= x < j + 1 implies m2[x].0 != k2 by {
                                if x > p {
                                    assert(m2[x] == m[x - 1]);
                                }
                            }
                            lemma_find_from_is(m2, k2, 0, j + 1);
                        }
                    },
                    None => {
                        assert forall|x: int| 0 <= x < m2.len() implies m2[x].0 != k2 by {
                            if x > p {
                                assert(m2[x] == m[x - 1]);
                            }
                        }
                        lemma_find_from_none(m2, k2, 0);
                    },
                }
            }
        },
    }
}

/// No two members share a key.
pub open spec fn distinct_keys(m: Seq<(Seq<char>, JsonV)>) -> bool {
    forall|i: int, j: int| 0 <= i < j < m.len() ==> m[i].0 != m[j].0
}

/// A member that is an object on both sides is merged; any other takes the new value.
pub open spec fn merges_into(old: Option<JsonV>, new: JsonV) -> bool {
    old matches Some(JsonV::Object(_)) && new matches JsonV::Object(_)
}

/// Where `k` is found past the first member, it is found one place earlier once the first
/// member is dropped.
pub proof fn lemma_find_rest(s: Seq<(Seq<char>, JsonV)>, k: Seq<char>)
    requires
        s.len() > 0,
        s[0].0 != k,
    ensures
        obj_find(s, k) matches Some(i) ==> i >= 1 && obj_find(s.subrange(1, s.len() as int), k) == Some(
            i - 1,
        ),
        obj_find(s, k) is None ==> obj_find(s.subrange(1, s.len() as int), k) is None,
{
    let r = s.subrange(1, s.len() as int);
    lemma_find_from(s, k, 0);
    match obj_find(s, k) {
        Some(i) => {
            assert(i != 0);
            assert forall|j: int| 0 <= j < i - 1 implies r[j].0 != k by {
                assert(r[j] == s[j + 1]);
            }
            assert(r[i - 1] == s[i]);
            lemma_find_from_is(r, k, 0, i - 1);
        },
        None => {
            assert forall|j: int| 0 <= j < r.len() implies r[j].0 != k by {
                assert(r[j] == s[j + 1]);
            }
            lemma_find_from_none(r, k, 0);
        },
    }
}

/// What a merge reads back: a key of the merged members whose old and new values are not
/// both objects reads the new value; a key the merged members lack reads what it read
/// before.
pub proof fn lemma_merge_get(t: Seq<(Seq<char>, JsonV)>, s: Seq<(Seq<char>, JsonV)>, k: Seq<char>)
    requires
        distinct_keys(s),
    ensures
        obj_find(s, k) is Some && !merges_into(obj_get(t, k), s[obj_find(s, k)->0].1) ==> obj_get(
            merge_map(t, s),
            k,
        ) == Some(s[obj_find(s, k)->0].1),
        obj_find(s, k) is None ==> obj_get(merge_map(t, s), k) == obj_get(t, k),
    decreases s.len(),
{
    if s.len() > 0 {
        let k0 = s[0].0;
        let v0 = s[0].1;
        let rest = s.subrange(1, s.len() as int);
        let t2 = match (obj_get(t, k0), v0) {
            (Some(JsonV::Object(to)), JsonV::Object(so)) => obj_put(t, k0, JsonV::Object(merge_map(to, so))),
            _ => obj_put(t, k0, v0),
        };
        assert(merge_map(t, s) == merge_map(t2, rest));
        assert(distinct_keys(rest)) by {
            assert forall|i: int, j: int| 0 <= i < j < rest.len() implies rest[i].0 != rest[j].0 by {
                assert(rest[i] == s[i + 1] && rest[j] == s[j + 1]);
            }
        }
        if k == k0 {
            assert(obj_find(s, k) == Some(0int));
            lemma_put_get(t, k0, v0, k);
            assert forall|j: int| 0 <= j < rest.len() implies rest[j].0 != k by {
                assert(rest[j] == s[j + 1]);
            }
            lemma_find_from_none(rest, k, 0);
            lemma_merge_get(t2, rest, k);
        } else {
            lemma_put_get(t, k0, v0, k);
            match (obj_get(t, k0), v0) {
                (Some(JsonV::Object(to)), JsonV::Object(so)) => {
                    lemma_put_get(t, k0, JsonV::Object(merge_map(to, so)), k);
                },
                _ => {},
            }
            assert(obj_get(t2, k) == obj_get(t, k));
            lemma_find_rest(s, k);
            lemma_find_from(s, k, 0);
            lemma_merge_get(t2, rest, k);
            match obj_find(s, k) {
                Some(i) => {
                    assert(rest[i - 1] == s[i]);
                },
                None => {},
            }
        }
    }
}

/// A copy of a JSON value.
pub fn clone_json(j: &Json) -> (r: Json)
    ensures
        jv(r) == jv(*j),
    decreases j,
{
    match j {
        Json::Null => Json::Null,
        Json::Bool(b) => Json::Bool(*b),
        Json::Number(n) => Json::Number(n.clone()),
        Json::Str(s) => Json::Str(s.clone()),
        Json::Array(a) => {
            let mut out: Vec<Json> = Vec::new();
            let mut i: usize = 0;
            while i < a.len()
                invariant
                    i <= a@.len(),
                    *j == Json::Array(*a),
                    out@.len() == i,
                    forall|x: int| 0 <= x < i ==> jv(#[trigger] out@[x]) == jv(a@[x]),
                decreases a@.len() - i,
            {
                assert(decreases_to!(*j => a@[i as int])) by {
                    assert(decreases_to!(*j => (*j)->Array_0));
                    assert(decreases_to!(*a => a@));
                    assert(decreases_to!(a@ => a@[i as int]));
                }
                out.push(clone_json(&a[i]));
                i += 1;
            }
            proof {
                lemma_arr_v(a@);
                lemma_arr_v_ext(out@, arr_v(a@));
            }
            Json::Array(out)
        },
        Json::Object(m) => {
            let mut out: Vec<(String, Json)> = Vec::new();
            let mut i: usize = 0;
            while i < m.len()
                invariant
                    i <= m@.len(),
                    *j == Json::Object(*m),
                    out@.len() == i,
                    forall|x: int|
                        0 <= x < i ==> (#[trigger] out@[x]).0@ == m@[x].0@ && jv(out@[x].1) == jv(m@[x].1),
                decreases m@.len() - i,
            {
                assert(decreases_to!(*j => m@[i as int].1)) by {
                    assert(decreases_to!(*j => (*j)->Object_0));
                    assert(decreases_to!(*m => m@));
                    assert(decreases_to!(m@ => m@[i as int]));
                    assert(decreases_to!(m@[i as int] => m@[i as int].1));
                }
                let v = clone_json(&m[i].1);
                out.push((m[i].0.clone(), v));
                i += 1;
            }
            proof {
                lemma_obj_v(m@);
                lemma_obj_v_ext(out@, obj_v(m@));
            }
            Json::Object(out)
        },
    }
}

/// Whether two texts are the same.
pub fn same_text(a: &str, b: &str) -> (r: bool)
    ensures
        r == (a@ == b@),
{
    let x = crate::text::chars_of(a);
    let y = crate::text::chars_of(b);
    if x.len() != y.len() {
        return false;
    }
    let mut i: usize = 0;
    while i < x.len()
        invariant
            i <= x@.len() == y@.len(),
            x@ == a@,
            y@ == b@,
            forall|t: int| 0 <= t < i ==> x@[t] == y@[t],
        decreases x@.len() - i,
    {
        if x[i] != y[i] {
            return false;
        }
        i += 1;
    }
    assert(x@ =~= y@);
    true
}

/// The place of the member with key `k`.
pub fn find_key(m: &Vec<(String, Json)>, k: &str) -> (r: Option<usize>)
    ensures
        match r {
            Some(i) => obj_find(obj_v(m@), k@) == Some(i as int),
            None => obj_find(obj_v(m@), k@) is None,
        },
{
    proof {
        lemma_obj_v(m@);
    }
    let ghost mv = obj_v(m@);
    let mut i: usize = 0;
    while i < m.len()
        invariant
            i <= m@.len() == mv.len(),
            mv == obj_v(m@),
            forall|x: int| 0 <= x < mv.len() ==> #[trigger] mv[x] == (m@[x].0@, jv(m@[x].1)),
            find_from(mv, k@, 0) == find_from(mv, k@, i as int),
        decreases m@.len() - i,
    {
        if same_text(m[i].0.as_str(), k) {
            assert(mv[i as int].0 == k@);
            return Some(i);
        }
        i += 1;
    }
    None
}

/// The place of the first member whose key comes after `k`.
fn after_key(m: &Vec<(String, Json)>, k: &str) -> (p: usize)
    ensures
        p == after_from(obj_v(m@), k@, 0),
{
    proof {
        lemma_obj_v(m@);
    }
    let ghost mv = obj_v(m@);
    let kc = crate::rank::TextKey(crate::text::chars_of(k));
    let mut i: usize = 0;
    while i < m.len()
        invariant
            i <= m@.len() == mv.len(),
            mv == obj_v(m@),
            forall|x: int| 0 <= x < mv.len() ==> #[trigger] mv[x] == (m@[x].0@, jv(m@[x].1)),
            kc.0@ == k@,
            after_from(mv, k@, 0) == after_from(mv, k@, i as int),
        decreases m@.len() - i,
    {
        let mk = crate::rank::TextKey(crate::text::chars_of(m[i].0.as_str()));
        if crate::rank::RankKey::precedes_exec(&kc, &mk) {
            return i;
        }
        i += 1;
    }
    i
}

/// Sets member `k` to `v`: the member with that key gets the new value; without one, the
/// member goes before the first key that comes after `k`.
pub fn obj_put_exec(m: &mut Vec<(String, Json)>, k: String, v: Json)
    ensures
        obj_v(final(m)@) == obj_put(obj_v(old(m)@), k@, jv(v)),
{
    let ghost old_m = m@;
    proof {
        lemma_obj_v(old_m);
    }
    proof {
        lemma_find_from(obj_v(old_m), k@, 0);
    }
    match find_key(m, k.as_str()) {
        Some(i) => {
            let ghost kv = k@;
            let ghost vv = jv(v);
            m.remove(i);
            m.insert(i, (k, v));
            proof {
                lemma_obj_v_ext(m@, obj_v(old_m).update(i as int, (kv, vv)));
            }
        },
        None => {
            let p = after_key(m, k.as_str());
            proof {
                lemma_after_from(obj_v(old_m), k@, 0);
            }
            assert(p <= m@.len());
            let ghost kv = k@;
            let ghost vv = jv(v);
            m.insert(p, (k, v));
            proof {
                let target = obj_v(old_m).insert(p as int, (kv, vv));
                assert forall|x: int| 0 <= x < m@.len() implies (#[trigger] m@[x]).0@ == target[x].0 && jv(m@[x].1) == target[x].1 by {
                    if x < p {
                        assert(m@[x] == old_m[x]);
                    } else if x > p {
                        assert(m@[x] == old_m[x - 1]);
                    }
                }
                lemma_obj_v_ext(m@, target);
            }
        },
    }
}

/// Whether two JSON values are the same.
pub fn json_eq(a: &Json, b: &Json) -> (r: bool)
    ensures
        r == (jv(*a) == jv(*b)),
    decreases a,
{
    match (a, b) {
        (Json::Null, Json::Null) => true,
        (Json::Bool(x), Json::Bool(y)) => *x == *y,
        (Json::Number(x), Json::Number(y)) => *x == *y,
        (Json::Str(x), Json::Str(y)) => *x == *y,
        (Json::Array(x), Json::Array(y)) => {
            proof {
                lemma_arr_v(x@);
                lemma_arr_v(y@);
            }
            if x.len() != y.len() {
                return false;
            }
            let mut i: usize = 0;
            while i < x.len()
                invariant
                    i <= x@.len() == y@.len(),
                    *a == Json::Array(*x),
                    *b == Json::Array(*y),
                    forall|t: int| 0 <= t < i ==> jv(#[trigger] x@[t]) == jv(y@[t]),
                    arr_v(x@).len() == x@.len(),
                    arr_v(y@).len() == y@.len(),
                    forall|t: int| 0 <= t < x@.len() ==> #[trigger] arr_v(x@)[t] == jv(x@[t]),
                    forall|t: int| 0 <= t < y@.len() ==> #[trigger] arr_v(y@)[t] == jv(y@[t]),
                decreases x@.len() - i,
            {
                assert(decreases_to!(*a => x@[i as int])) by {
                    assert(decreases_to!(*a => (*a)->Array_0));
                    assert(decreases_to!(*x => x@));
                    assert(decreases_to!(x@ => x@[i as int]));
                }
                if !json_eq(&x[i], &y[i]) {
                    assert(arr_v(x@)[i as int] != arr_v(y@)[i as int]);
                    return false;
                }
                i += 1;
            }
            assert(arr_v(x@) =~= arr_v(y@));
            true
        },
        (Json::Object(x), Json::Object(y)) => {
            proof {
                lemma_obj_v(x@);
                lemma_obj_v(y@);
            }
            if x.len() != y.len() {
                return false;
            }
            let mut i: usize = 0;
            while i < x.len()
                invariant
                    i <= x@.len() == y@.len(),
                    *a == Json::Object(*x),
                    *b == Json::Object(*y),
                    forall|t: int| 0 <= t < i ==> (#[trigger] x@[t]).0@ == y@[t].0@ && jv(x@[t].1) == jv(y@[t].1),
                    obj_v(x@).len() == x@.len(),
                    obj_v(y@).len() == y@.len(),
                    forall|t: int| 0 <= t < x@.len() ==> #[trigger] obj_v(x@)[t] == (x@[t].0@, jv(x@[t].1)),
                    forall|t: int| 0 <= t < y@.len() ==> #[trigger] obj_v(y@)[t] == (y@[t].0@, jv(y@[t].1)),
                decreases x@.len() - i,
            {
                assert(decreases_to!(*a => x@[i as int].1)) by {
                    assert(decreases_to!(*a => (*a)->Object_0));
                    assert(decreases_to!(*x => x@));
                    assert(decreases_to!(x@ => x@[i as int]));
                    assert(decreases_to!(x@[i as int] => x@[i as int].1));
                }
                if x[i].0 != y[i].0 {
                    assert(obj_v(x@)[i as int] != obj_v(y@)[i as int]);
                    return false;
                }
                if !json_eq(&x[i].1, &y[i].1) {
                    assert(obj_v(x@)[i as int] != obj_v(y@)[i as int]);
                    return false;
                }
                i += 1;
            }
            assert(obj_v(x@) =~= obj_v(y@));
            true
        },
        _ => false,
    }
}

/// Merges the members of `source` into `target`, in order: a member whose old and new
/// values are both objects merges them the same way; any other takes the new value.
pub fn deep_merge_map(target: &mut Vec<(String, Json)>, source: &Vec<(String, Json)>)
    ensures
        obj_v(final(target)@) == merge_map(obj_v(old(target)@), obj_v(source@)),
    decreases source,
{
    let ghost sv = obj_v(source@);
    proof {
        lemma_obj_v(source@);
    }
    let ghost goal = merge_map(obj_v(target@), sv);
    let mut j: usize = 0;
    assert(sv.subrange(0, sv.len() as int) == sv);
    while j < source.len()
        invariant
            j <= source@.len() == sv.len(),
            sv == obj_v(source@),
            forall|x: int| 0 <= x < sv.len() ==> #[trigger] sv[x] == (source@[x].0@, jv(source@[x].1)),
            goal == merge_map(obj_v(old(target)@), sv),
            merge_map(obj_v(target@), sv.subrange(j as int, sv.len() as int)) == goal,
        decreases source@.len() - j,
    {
        let ghost t = obj_v(target@);
        let ghost rest = sv.subrange(j as int, sv.len() as int);
        assert(rest[0] == sv[j as int]);
        assert(rest.subrange(1, rest.len() as int) =~= sv.subrange(j + 1, sv.len() as int));
        proof {
            lemma_obj_v(target@);
            lemma_find_from(t, source@[j as int].0@, 0);
        }
        let k = &source[j].0;
        let found = find_key(target, k.as_str());
        let mut merged = false;
        if let Some(i) = found {
            if let Json::Object(so) = &source[j].1 {
                if let Json::Object(_) = &target[i].1 {
                    assert(decreases_to!(*source => *so)) by {
                        assert(decreases_to!(*source => source@));
                        assert(decreases_to!(source@ => source@[j as int]));
                        assert(decreases_to!(source@[j as int] => source@[j as int].1));
                        assert(decreases_to!(source@[j as int].1 => source@[j as int].1->Object_0));
                    }
                    let (_, tv) = target.remove(i);
                    match tv {
                        Json::Object(mut to) => {
                            let ghost to0 = obj_v(to@);
                            deep_merge_map(&mut to, so);
                            let ghost nv = JsonV::Object(obj_v(to@));
                            target.insert(i, (k.clone(), Json::Object(to)));
                            proof {
                                lemma_obj_v_ext(target@, t.update(i as int, (k@, nv)));
                            }
                        },
                        _ => {},
                    }
                    merged = true;
                }
            }
        }
        if !merged {
            let v = clone_json(&source[j].1);
            obj_put_exec(target, k.clone(), v);
        }
        j += 1;
    }
    assert(sv.subrange(sv.len() as int, sv.len() as int) =~= Seq::<(Seq<char>, JsonV)>::empty());
}

} // verus!
