//! A JSON document as the library sees it: the tree that `serde_json::Value`
//! holds, with strings as character sequences and numbers kept as the
//! unsigned value they denote (when they denote one) and their text.
use vstd::prelude::*;

verus! {

/// The mathematical JSON value.
pub enum JsonV {
    Null,
    Bool(bool),
    /// `Number(as_u64, text)`
    Number(Option<u64>, Seq<char>),
    Str(Seq<char>),
    Array(Seq<JsonV>),
    Object(Seq<(Seq<char>, JsonV)>),
}

/// A JSON number: what `as_u64` gives for it, and its decimal text.
pub struct JsonNumber {
    pub unsigned: Option<u64>,
    pub text: String,
}

/// An executable JSON value. Objects keep their members in a vector of
/// key/value pairs with distinct keys.
pub enum Json {
    Null,
    Bool(bool),
    Number(JsonNumber),
    Str(String),
    Array(Vec<Json>),
    Object(Vec<(String, Json)>),
}

impl Json {
    /// The mathematical value of a JSON tree.
    pub open spec fn view_of(self) -> JsonV
        decreases self, 0nat,
    {
        match self {
            Json::Null => JsonV::Null,
            Json::Bool(b) => JsonV::Bool(b),
            Json::Number(n) => JsonV::Number(n.unsigned, n.text@),
            Json::Str(s) => JsonV::Str(s@),
            Json::Array(a) => JsonV::Array(elements_rec(a@)),
            Json::Object(o) => JsonV::Object(members_rec(o@)),
        }
    }
}

/// The values of a sequence of elements.
pub open spec fn elements_rec(s: Seq<Json>) -> Seq<JsonV>
    decreases s, 1nat,
{
    if s.len() == 0 {
        Seq::empty()
    } else {
        elements_rec(s.drop_last()).push(s.last().view_of())
    }
}

/// The key/value views of a sequence of members.
pub open spec fn members_rec(s: Seq<(String, Json)>) -> Seq<(Seq<char>, JsonV)>
    decreases s, 1nat,
{
    if s.len() == 0 {
        Seq::empty()
    } else {
        members_rec(s.drop_last()).push((s.last().0@, s.last().1.view_of()))
    }
}

impl View for Json {
    type V = JsonV;

    open spec fn view(&self) -> JsonV {
        self.view_of()
    }
}


/// The members of an object, seen as key/value pairs.
pub open spec fn members_view(o: Seq<(String, Json)>) -> Seq<(Seq<char>, JsonV)> {
    Seq::new(o.len(), |i: int| (o[i].0@, o[i].1@))
}

/// The elements of an array, seen as values.
pub open spec fn elements_view(a: Seq<Json>) -> Seq<JsonV> {
    Seq::new(a.len(), |i: int| a[i]@)
}

/// The recursive and the pointwise views of elements agree.
pub proof fn lemma_elements_rec(s: Seq<Json>)
    ensures
        elements_rec(s) == elements_view(s),
    decreases s.len(),
{
    if s.len() > 0 {
        lemma_elements_rec(s.drop_last());
        assert(elements_rec(s) =~= elements_view(s));
    } else {
        assert(elements_rec(s) =~= elements_view(s));
    }
}

/// The recursive and the pointwise views of members agree.
pub proof fn lemma_members_rec(s: Seq<(String, Json)>)
    ensures
        members_rec(s) == members_view(s),
    decreases s.len(),
{
    if s.len() > 0 {
        lemma_members_rec(s.drop_last());
        assert(members_rec(s) =~= members_view(s));
    } else {
        assert(members_rec(s) =~= members_view(s));
    }
}

/// The view of an object in pointwise form.
pub proof fn lemma_object_view(o: Vec<(String, Json)>)
    ensures
        Json::Object(o)@ == JsonV::Object(members_view(o@)),
{
    lemma_members_rec(o@);
}

/// The view of an array in pointwise form.
pub proof fn lemma_array_view(a: Vec<Json>)
    ensures
        Json::Array(a)@ == JsonV::Array(elements_view(a@)),
{
    lemma_elements_rec(a@);
}

/// Position of the first member named `key`, or -1 when there is none.
pub open spec fn key_pos(m: Seq<(Seq<char>, JsonV)>, key: Seq<char>) -> int
    decreases m.len(),
{
    if m.len() == 0 {
        -1
    } else if m[0].0 == key {
        0
    } else {
        let r = key_pos(m.drop_first(), key);
        if r < 0 {
            -1
        } else {
            r + 1
        }
    }
}

/// The value of member `key`, as `serde_json::Map::get` finds it.
pub open spec fn lookup(m: Seq<(Seq<char>, JsonV)>, key: Seq<char>) -> Option<JsonV> {
    let p = key_pos(m, key);
    if 0 <= p < m.len() {
        Some(m[p].1)
    } else {
        None
    }
}

/// `m` with member `key` set to `v`: replaced in place when present,
/// appended otherwise (`serde_json::Map::insert`).
pub open spec fn upsert(m: Seq<(Seq<char>, JsonV)>, key: Seq<char>, v: JsonV) -> Seq<(Seq<char>, JsonV)> {
    let p = key_pos(m, key);
    if 0 <= p < m.len() {
        m.update(p, (key, v))
    } else {
        m.push((key, v))
    }
}

/// `Value::member(key)`: the member of an object, `None` for anything else.
pub open spec fn member(j: JsonV, key: Seq<char>) -> Option<JsonV> {
    match j {
        JsonV::Object(m) => lookup(m, key),
        _ => None,
    }
}

/// Inserting `key: v` into an object; other values are left as they are.
pub open spec fn with_member(j: JsonV, key: Seq<char>, v: JsonV) -> JsonV {
    match j {
        JsonV::Object(m) => JsonV::Object(upsert(m, key, v)),
        _ => j,
    }
}

/// `Value::as_str` applied to an optional value.
pub open spec fn opt_str(o: Option<JsonV>) -> Option<Seq<char>> {
    match o {
        Some(JsonV::Str(s)) => Some(s),
        _ => None,
    }
}

/// `Value::as_bool` applied to an optional value.
pub open spec fn opt_bool(o: Option<JsonV>) -> Option<bool> {
    match o {
        Some(JsonV::Bool(b)) => Some(b),
        _ => None,
    }
}

/// `Value::as_u64` applied to an optional value.
pub open spec fn opt_u64(o: Option<JsonV>) -> Option<u64> {
    match o {
        Some(JsonV::Number(u, _)) => u,
        _ => None,
    }
}

/// `as_str().unwrap_or("")`.
pub open spec fn str_or_empty(o: Option<JsonV>) -> Seq<char> {
    match opt_str(o) {
        Some(s) => s,
        None => Seq::empty(),
    }
}

/// `key_pos` finds the first member with the key.
pub proof fn lemma_key_pos(m: Seq<(Seq<char>, JsonV)>, key: Seq<char>, i: int)
    requires
        0 <= i <= m.len(),
        forall|k: int| 0 <= k < i ==> (#[trigger] m[k]).0 != key,
        i == m.len() || m[i].0 == key,
    ensures
        key_pos(m, key) == (if i == m.len() { -1 } else { i }),
    decreases i,
{
    if m.len() > 0 && i > 0 {
        let t = m.drop_first();
        assert(m[0].0 != key);
        assert forall|k: int| 0 <= k < i - 1 implies (#[trigger] t[k]).0 != key by {
            assert(t[k] == m[k + 1]);
        }
        if i < m.len() {
            assert(t[i - 1] == m[i]);
        }
        lemma_key_pos(t, key, i - 1);
    }
}

/// `key_pos` is -1 or the position of a member with the key.
pub proof fn lemma_key_pos_range(m: Seq<(Seq<char>, JsonV)>, key: Seq<char>)
    ensures
        -1 <= key_pos(m, key) < m.len(),
        0 <= key_pos(m, key) ==> m[key_pos(m, key)].0 == key,
        forall|k: int| 0 <= k < m.len() && (k < key_pos(m, key) || key_pos(m, key) < 0) ==> (#[trigger] m[k]).0 != key,
    decreases m.len(),
{
    if m.len() > 0 && m[0].0 != key {
        let t = m.drop_first();
        lemma_key_pos_range(t, key);
        assert forall|k: int| 0 <= k < m.len() && (k < key_pos(m, key) || key_pos(m, key) < 0) implies (#[trigger] m[k]).0 != key by {
            if k > 0 {
                assert(m[k] == t[k - 1]);
            }
        }
    }
}

/// Finds the first member whose key is `key`.
pub fn find_key(o: &Vec<(String, Json)>, key: &String) -> (r: Option<usize>)
    ensures
        match r {
            Some(i) => i == key_pos(members_view(o@), key@) && i < o.len(),
            None => key_pos(members_view(o@), key@) == -1,
        },
{
    let ghost m = members_view(o@);
    let mut i: usize = 0;
    while i < o.len()
        invariant
            i <= o.len(),
            m == members_view(o@),
            forall|k: int| 0 <= k < i ==> (#[trigger] m[k]).0 != key@,
        decreases o.len() - i,
    {
        if o[i].0 == *key {
            proof { lemma_key_pos(m, key@, i as int); }
            return Some(i);
        }
        i += 1;
    }
    proof { lemma_key_pos(m, key@, i as int); }
    None
}

/// `Value::get`: the member `key` of an object.
pub fn get_member<'a>(j: &'a Json, key: &String) -> (r: Option<&'a Json>)
    ensures
        match r {
            Some(v) => member(j@, key@) == Some(v@),
            None => member(j@, key@) is None,
        },
{
    match j {
        Json::Object(o) => {
            proof { lemma_object_view(*o); }
            match find_key(o, key) {
                Some(i) => Some(&o[i].1),
                None => None,
            }
        },
        _ => None,
    }
}

/// `Value::insert` on an object (`as_object_mut().insert(..)`); other values
/// come back unchanged.
pub fn set_member(j: Json, key: String, v: Json) -> (r: Json)
    ensures
        r@ == with_member(j@, key@, v@),
{
    match j {
        Json::Object(mut o) => {
            proof { lemma_object_view(o); }
            let ghost m = members_view(o@);
            let ghost kv = key@;
            let ghost vv = v@;
            match find_key(&o, &key) {
                Some(i) => {
                    o.set(i, (key, v));
                    proof {
                        lemma_object_view(o);
                        assert(members_view(o@) =~= m.update(i as int, (kv, vv)));
                    }
                },
                None => {
                    o.push((key, v));
                    proof {
                        lemma_object_view(o);
                        assert(members_view(o@) =~= m.push((kv, vv)));
                    }
                },
            }
            Json::Object(o)
        },
        other => other,
    }
}

/// Takes the element at `i` out of an array, leaving `null` in its place.
pub fn take_element(a: &mut Vec<Json>, i: usize) -> (r: Json)
    requires
        i < old(a).len(),
    ensures
        r == old(a)@[i as int],
        final(a)@ == old(a)@.update(i as int, Json::Null),
{
    let mut tmp = Json::Null;
    std::mem::swap(&mut a[i], &mut tmp);
    tmp
}


/// Two member lists with the same keys, position by position, find every
/// key at the same place.
pub proof fn lemma_key_pos_same_keys(m1: Seq<(Seq<char>, JsonV)>, m2: Seq<(Seq<char>, JsonV)>, key: Seq<char>)
    requires
        m1.len() == m2.len(),
        forall|k: int| 0 <= k < m1.len() ==> (#[trigger] m1[k]).0 == m2[k].0,
    ensures
        key_pos(m1, key) == key_pos(m2, key),
{
    lemma_key_pos_range(m1, key);
    let p = key_pos(m1, key);
    let i = if p < 0 { m1.len() as int } else { p };
    assert forall|k: int| 0 <= k < i implies (#[trigger] m2[k]).0 != key by {
        assert(m1[k].0 == m2[k].0);
    }
    if p >= 0 {
        assert(m1[p].0 == m2[p].0);
    }
    lemma_key_pos(m2, key, i);
}

/// Reading back a member just written gives the written value; other
/// members read as before; the member names are the old ones plus `key`.
pub proof fn lemma_lookup_upsert(m: Seq<(Seq<char>, JsonV)>, key: Seq<char>, v: JsonV, other: Seq<char>)
    ensures
        lookup(upsert(m, key, v), key) == Some(v),
        other != key ==> lookup(upsert(m, key, v), other) == lookup(m, other),
{
    lemma_key_pos_range(m, key);
    lemma_key_pos_range(m, other);
    let p = key_pos(m, key);
    let m2 = upsert(m, key, v);
    if p >= 0 {
        lemma_key_pos_same_keys(m, m2, key);
        lemma_key_pos_same_keys(m, m2, other);
        let q = key_pos(m, other);
        if other != key && q >= 0 {
            assert(q != p);
            assert(m2[q] == m[q]);
        }
    } else {
        let n = m.len() as int;
        assert forall|k: int| 0 <= k < n implies (#[trigger] m2[k]).0 != key by {
            assert(m2[k] == m[k]);
        }
        lemma_key_pos(m2, key, n);
        if other != key {
            let q = key_pos(m, other);
            if q >= 0 {
                assert forall|k: int| 0 <= k < q implies (#[trigger] m2[k]).0 != other by {
                    assert(m2[k] == m[k]);
                }
                assert(m2[q] == m[q]);
                lemma_key_pos(m2, other, q);
            } else {
                assert forall|k: int| 0 <= k < n + 1 implies (#[trigger] m2[k]).0 != other by {
                    if k < n {
                        assert(m2[k] == m[k]);
                    }
                }
                lemma_key_pos(m2, other, n + 1);
            }
        }
    }
}

/// Writing a member twice is writing it once with the second value.
pub proof fn lemma_upsert_twice(m: Seq<(Seq<char>, JsonV)>, key: Seq<char>, v1: JsonV, v2: JsonV)
    ensures
        upsert(upsert(m, key, v1), key, v2) == upsert(m, key, v2),
{
    lemma_key_pos_range(m, key);
    let p = key_pos(m, key);
    let m1 = upsert(m, key, v1);
    if p >= 0 {
        lemma_key_pos_same_keys(m, m1, key);
        assert(upsert(m1, key, v2) =~= upsert(m, key, v2));
    } else {
        let n = m.len() as int;
        assert forall|k: int| 0 <= k < n implies (#[trigger] m1[k]).0 != key by {
            assert(m1[k] == m[k]);
        }
        lemma_key_pos(m1, key, n);
        assert(upsert(m1, key, v2) =~= upsert(m, key, v2));
    }
}

/// Writing back the value a member already has changes nothing.
pub proof fn lemma_upsert_same(m: Seq<(Seq<char>, JsonV)>, key: Seq<char>, v: JsonV)
    requires
        lookup(m, key) == Some(v),
    ensures
        upsert(m, key, v) == m,
{
    lemma_key_pos_range(m, key);
    let p = key_pos(m, key);
    assert(m[p] == (key, v));
    assert(upsert(m, key, v) =~= m);
}

/// `get`/`set` forms of the lemmas above.
pub proof fn lemma_get_set(j: JsonV, key: Seq<char>, v: JsonV, other: Seq<char>)
    ensures
        j is Object ==> member(with_member(j, key, v), key) == Some(v),
        other != key ==> member(with_member(j, key, v), other) == member(j, other),
        with_member(j, key, v) is Object <==> j is Object,
{
    if let JsonV::Object(m) = j {
        lemma_lookup_upsert(m, key, v, other);
    }
}

/// Setting a member twice is setting it once with the second value.
pub proof fn lemma_set_twice(j: JsonV, key: Seq<char>, v1: JsonV, v2: JsonV)
    ensures
        with_member(with_member(j, key, v1), key, v2) == with_member(j, key, v2),
{
    if let JsonV::Object(m) = j {
        lemma_upsert_twice(m, key, v1, v2);
    }
}

/// Setting a member to the value it has changes nothing.
pub proof fn lemma_set_same(j: JsonV, key: Seq<char>, v: JsonV)
    requires
        member(j, key) == Some(v),
    ensures
        with_member(j, key, v) == j,
{
    if let JsonV::Object(m) = j {
        lemma_upsert_same(m, key, v);
    }
}

/// Takes the value of member `key` out of an object, leaving `null` in its
/// place; the second component is that value, `None` when there is no such
/// member (then the first component is `j` itself).
pub fn take_member(j: Json, key: &String) -> (r: (Json, Option<Json>))
    ensures
        match r.1 {
            Some(v) => member(j@, key@) == Some(v@) && r.0@ == with_member(j@, key@, JsonV::Null),
            None => member(j@, key@) is None && r.0@ == j@,
        },
{
    match j {
        Json::Object(mut o) => {
            proof { lemma_object_view(o); }
            let ghost m = members_view(o@);
            match find_key(&o, key) {
                Some(i) => {
                    let mut pair = (String::new(), Json::Null);
                    std::mem::swap(&mut o[i], &mut pair);
                    let (k, val) = pair;
                    let ghost kv = k@;
                    o.set(i, (k, Json::Null));
                    proof {
                        lemma_key_pos_range(m, key@);
                        lemma_object_view(o);
                        assert(kv == key@);
                        assert(members_view(o@) =~= m.update(i as int, (key@, JsonV::Null)));
                    }
                    (Json::Object(o), Some(val))
                },
                None => (Json::Object(o), None),
            }
        },
        other => (other, None),
    }
}

} // verus!

verus! {

/// `value.get(key).and_then(|v| v.as_str())`, owned.
pub fn get_str(j: &Json, key: &str) -> (r: Option<String>)
    ensures
        match r {
            Some(s) => opt_str(member(j@, key@)) == Some(s@),
            None => opt_str(member(j@, key@)) is None,
        },
{
    let k = key.to_string();
    match get_member(j, &k) {
        Some(Json::Str(s)) => Some(s.clone()),
        Some(other) => {
            proof { assert(other@ == other.view_of()); }
            None
        },
        None => None,
    }
}

/// `value.get(key).and_then(|v| v.as_u64())`.
pub fn get_u64(j: &Json, key: &str) -> (r: Option<u64>)
    ensures
        r == opt_u64(member(j@, key@)),
{
    let k = key.to_string();
    match get_member(j, &k) {
        Some(Json::Number(n)) => n.unsigned,
        Some(other) => {
            proof { assert(other@ == other.view_of()); }
            None
        },
        None => None,
    }
}

} // verus!
