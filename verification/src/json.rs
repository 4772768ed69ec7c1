use vstd::prelude::*;
use crate::text::str_eq;

verus! {

/// A parsed JSON document.
pub enum JsonValue {
    Null,
    Bool(bool),
    /// A number: its value where it is an integer that fits an `i64`.
    Number(Option<i64>),
    String(String),
    Array(Vec<JsonValue>),
    /// The members of an object, each name once.
    Object(Vec<(String, JsonValue)>),
}

/// A JSON document, as a mathematical value.
pub enum JsonView {
    Null,
    Bool(bool),
    Number(Option<i64>),
    Str(Seq<char>),
    Array(Seq<JsonView>),
    Object(Seq<(Seq<char>, JsonView)>),
}

/// The mathematical value of a JSON document.
pub open spec fn json_view(v: JsonValue) -> JsonView
    decreases v,
{
    match v {
        JsonValue::Null => JsonView::Null,
        JsonValue::Bool(b) => JsonView::Bool(b),
        JsonValue::Number(n) => JsonView::Number(n),
        JsonValue::String(s) => JsonView::Str(s@),
        JsonValue::Array(a) => {
            proof {
                broadcast use vstd::std_specs::vec::group_vec_axioms;
                assert(decreases_to!(a => a@));
            }
            JsonView::Array(json_views(a@))
        },
        JsonValue::Object(m) => {
            proof {
                broadcast use vstd::std_specs::vec::group_vec_axioms;
                assert(decreases_to!(m => m@));
            }
            JsonView::Object(json_members_view(m@))
        },
    }
}

/// The mathematical value of a JSON document.
pub open spec fn json_views(s: Seq<JsonValue>) -> Seq<JsonView>
    decreases s,
{
    if s.len() == 0 {
        Seq::empty()
    } else {
        json_views(s.drop_last()).push(json_view(s.last()))
    }
}

/// The mathematical values of the members of an object.
pub open spec fn json_members_view(s: Seq<(String, JsonValue)>) -> Seq<(Seq<char>, JsonView)>
    decreases s,
{
    if s.len() == 0 {
        Seq::empty()
    } else {
        proof {
            assert(decreases_to!(s => s.last()));
        }
        json_members_view(s.drop_last()).push((s.last().0@, json_view(s.last().1)))
    }
}

/// The view of a list is the list of the views.
pub proof fn lemma_json_views_index(s: Seq<JsonValue>)
    ensures
        json_views(s).len() == s.len(),
        forall|i: int| 0 <= i < s.len() ==> #[trigger] json_views(s)[i] == json_view(s[i]),
    decreases s.len(),
{
    if s.len() > 0 {
        lemma_json_views_index(s.drop_last());
    }
}

/// The view of the members is the list of the members' views.
pub proof fn lemma_json_members_index(s: Seq<(String, JsonValue)>)
    ensures
        json_members_view(s).len() == s.len(),
        forall|i: int| 0 <= i < s.len() ==> #[trigger] json_members_view(s)[i] == (s[i].0@, json_view(s[i].1)),
    decreases s.len(),
{
    if s.len() > 0 {
        lemma_json_members_index(s.drop_last());
    }
}

/// The position of the first member named `key` at or after position `k`.
pub open spec fn first_member(m: Seq<(Seq<char>, JsonView)>, key: Seq<char>, k: int) -> Option<int>
    decreases m.len() - k,
{
    if k < 0 || k >= m.len() {
        None
    } else if m[k].0 == key {
        Some(k)
    } else {
        first_member(m, key, k + 1)
    }
}

/// The position of the first member named `key`, if any.
pub open spec fn member_index(m: Seq<(Seq<char>, JsonView)>, key: Seq<char>) -> Option<int> {
    first_member(m, key, 0)
}

/// What `first_member` finds: the first member with the name at or after `k`, or none.
pub proof fn lemma_first_member(m: Seq<(Seq<char>, JsonView)>, key: Seq<char>, k: int)
    requires
        0 <= k,
    ensures
        first_member(m, key, k) matches Some(i) ==> k <= i < m.len() && m[i].0 == key
            && forall|j: int| k <= j < i ==> m[j].0 != key,
        first_member(m, key, k) is None ==> forall|j: int| k <= j < m.len() ==> m[j].0 != key,
    decreases m.len() - k,
{
    if k < m.len() && m[k].0 != key {
        lemma_first_member(m, key, k + 1);
    }
}

/// The member named `key` of an object (the first one, if several), as
/// serde_json's `Value::get` gives it; `None` for other values.
pub open spec fn json_get(v: JsonView, key: Seq<char>) -> Option<JsonView> {
    match v {
        JsonView::Object(m) => match member_index(m, key) {
            Some(i) => Some(m[i].1),
            None => None,
        },
        _ => None,
    }
}

/// The text of a string.
pub open spec fn json_str(v: JsonView) -> Option<Seq<char>> {
    match v {
        JsonView::Str(s) => Some(s),
        _ => None,
    }
}

/// The value of a boolean.
pub open spec fn json_bool(v: JsonView) -> Option<bool> {
    match v {
        JsonView::Bool(b) => Some(b),
        _ => None,
    }
}

/// The value of a number that is an integer fitting an `i64`.
pub open spec fn json_i64(v: JsonView) -> Option<i64> {
    match v {
        JsonView::Number(n) => n,
        _ => None,
    }
}

proof fn lemma_member_index_first(m: Seq<(Seq<char>, JsonView)>, key: Seq<char>, i: int)
    requires
        0 <= i < m.len(),
        m[i].0 == key,
        forall|j: int| 0 <= j < i ==> m[j].0 != key,
    ensures
        member_index(m, key) == Some(i),
{
    lemma_first_member(m, key, 0);
    match first_member(m, key, 0) {
        Some(k) => {
            if k < i {
                assert(m[k].0 != key);
            }
            if i < k {
                assert(m[i].0 != key);
            }
        },
        None => {
            assert(m[i].0 != key);
        },
    }
}

/// The position of the first member of `m` named `key`, as `member_index` says.
pub fn member_position(m: &Vec<(String, JsonValue)>, key: &str) -> (r: Option<usize>)
    ensures
        match r {
            Some(i) => i < m@.len() && member_index(json_members_view(m@), key@) == Some(i as int),
            None => member_index(json_members_view(m@), key@) is None,
        },
{
    proof {
        lemma_json_members_index(m@);
    }
    let ghost mv = json_members_view(m@);
    let mut i: usize = 0;
    while i < m.len()
        invariant
            i <= m@.len(),
            mv == json_members_view(m@),
            mv.len() == m@.len(),
            forall|j: int| 0 <= j < m@.len() ==> #[trigger] mv[j] == (m@[j].0@, json_view(m@[j].1)),
            forall|j: int| 0 <= j < i ==> mv[j].0 != key@,
        decreases m@.len() - i,
    {
        if str_eq(m[i].0.as_str(), key) {
            proof {
                lemma_member_index_first(mv, key@, i as int);
            }
            return Some(i);
        }
        i = i + 1;
    }
    proof {
        lemma_first_member(mv, key@, 0);
        if let Some(k) = first_member(mv, key@, 0) {
            assert(mv[k].0 != key@);
        }
    }
    None
}

impl JsonValue {
    /// The member named `key`, if this is an object that has one.
    pub fn get(&self, key: &str) -> (r: Option<&JsonValue>)
        ensures
            match r {
                Some(x) => json_get(json_view(*self), key@) == Some(json_view(*x)),
                None => json_get(json_view(*self), key@) is None,
            },
    {
        match self {
            JsonValue::Object(m) => {
                proof {
                    lemma_json_members_index(m@);
                }
                let ghost mv = json_members_view(m@);
                proof {
                    assert(json_view(*self) == JsonView::Object(mv));
                }
                let mut i: usize = 0;
                while i < m.len()
                    invariant
                        i <= m@.len(),
                        mv == json_members_view(m@),
                        json_view(*self) == JsonView::Object(mv),
                        mv.len() == m@.len(),
                        forall|j: int| 0 <= j < m@.len() ==> #[trigger] mv[j] == (m@[j].0@, json_view(m@[j].1)),
                        forall|j: int| 0 <= j < i ==> mv[j].0 != key@,
                    decreases m@.len() - i,
                {
                    if str_eq(m[i].0.as_str(), key) {
                        proof {
                            lemma_member_index_first(mv, key@, i as int);
                            assert(json_view(*self) == JsonView::Object(mv));
                            assert(mv[i as int].1 == json_view(m@[i as int].1));
                        }
                        return Some(&m[i].1);
                    }
                    i = i + 1;
                }
                proof {
                    assert(json_view(*self) == JsonView::Object(mv));
                    lemma_first_member(mv, key@, 0);
                    if let Some(k) = first_member(mv, key@, 0) {
                        assert(mv[k].0 != key@);
                    }
                }
                None
            },
            _ => None,
        }
    }

    /// The text of a string.
    pub fn as_str(&self) -> (r: Option<&str>)
        ensures
            match r {
                Some(s) => json_str(json_view(*self)) == Some(s@),
                None => json_str(json_view(*self)) is None,
            },
    {
        match self {
            JsonValue::String(s) => Some(s.as_str()),
            _ => None,
        }
    }

    /// The value of a boolean.
    pub fn as_bool(&self) -> (r: Option<bool>)
        ensures
            r == json_bool(json_view(*self)),
    {
        match self {
            JsonValue::Bool(b) => Some(*b),
            _ => None,
        }
    }

    /// The value of a number that is an integer fitting an `i64`.
    pub fn as_i64(&self) -> (r: Option<i64>)
        ensures
            r == json_i64(json_view(*self)),
    {
        match self {
            JsonValue::Number(n) => *n,
            _ => None,
        }
    }

    /// The elements of an array.
    pub fn as_array(&self) -> (r: Option<&Vec<JsonValue>>)
        ensures
            match r {
                Some(a) => json_view(*self) == JsonView::Array(json_views(a@)),
                None => !(json_view(*self) is Array),
            },
    {
        match self {
            JsonValue::Array(a) => Some(a),
            _ => None,
        }
    }
}

/// serde_json's parsed document, carried opaquely.
#[verifier::external_type_specification]
#[verifier::external_body]
pub struct ExJsonDocument(serde_json::Value);

/// The document that serde_json's `from_str` reads from `text`, taken into
/// a `JsonValue` (numbers by `as_i64`, object members in serde_json's
/// order); `None` where serde_json reports an error.
pub uninterp spec fn json_parse(text: Seq<char>) -> Option<JsonView>;

/// Takes a document parsed by serde_json into a `JsonValue`, variant by
/// variant: numbers by `Number::as_i64`, arrays and object members in
/// serde_json's order. Nothing is stated of the result here: `parse_json`
/// ties it to its text by `json_parse`.
#[verifier::external_body]
fn json_from_serde(v: &serde_json::Value) -> (r: JsonValue) {
    match v {
        serde_json::Value::Null => JsonValue::Null,
        serde_json::Value::Bool(b) => JsonValue::Bool(*b),
        serde_json::Value::Number(n) => JsonValue::Number(n.as_i64()),
        serde_json::Value::String(s) => JsonValue::String(s.clone()),
        serde_json::Value::Array(a) => JsonValue::Array(a.iter().map(json_from_serde).collect()),
        serde_json::Value::Object(m) => JsonValue::Object(m.iter().map(|(k, x)| (k.clone(), json_from_serde(x))).collect()),
    }
}

/// Parses `text` with `serde_json::from_str` into a `serde_json::Value`.
/// Claimed: the result is `json_parse` of the text, a function of the text
/// alone (serde_json keeps object members in a sorted map here), and `None`
/// exactly where serde_json reports an error.
#[verifier::external_body]
pub(crate) fn parse_json(text: &str) -> (r: Option<JsonValue>)
    ensures
        r matches Some(v) ==> json_parse(text@) == Some(json_view(v)),
        r is None ==> json_parse(text@) is None,
{
    match serde_json::from_str::<serde_json::Value>(text) {
        Ok(v) => Some(json_from_serde(&v)),
        Err(_) => None,
    }
}

} // verus!
