//! JSON values.
use crate::text;
use rmcp::serde_json::Value;
use vstd::prelude::*;

verus! {

/// A number: an integer of 64 bits, signed where it fits, or the bits of a
/// 64-bit floating-point number.
#[derive(Clone, Copy, Debug, PartialEq, Eq, Structural)]
pub enum Num {
    Int(i64),
    Big(u64),
    Real(u64),
}

/// A JSON value.
#[derive(Debug, PartialEq, Eq)]
pub enum Json {
    Null,
    Bool(bool),
    Number(Num),
    Text(String),
    List(Vec<Json>),
    /// The members of an object: no name stands in the list twice.
    Object(Vec<(String, Json)>),
    /// A floating-point number that is still to be drawn, at least the first
    /// bound and less than the second.
    Draw(Option<Num>, Option<Num>),
}

/// A JSON value, as mathematical values.
pub enum JsonView {
    Null,
    Bool(bool),
    Number(Num),
    Text(Seq<char>),
    List(Seq<JsonView>),
    Object(Seq<(Seq<char>, JsonView)>),
    Draw(Option<Num>, Option<Num>),
}

impl Json {
    /// The value.
    pub open spec fn value(self) -> JsonView
        decreases self,
    {
        match self {
            Json::Null => JsonView::Null,
            Json::Bool(b) => JsonView::Bool(b),
            Json::Number(n) => JsonView::Number(n),
            Json::Text(s) => JsonView::Text(s@),
            Json::List(v) => JsonView::List(
                Seq::new(
                    v@.len(),
                    |i: int|
                        if 0 <= i < v@.len() {
                            v@[i].value()
                        } else {
                            JsonView::Null
                        },
                ),
            ),
            Json::Object(v) => JsonView::Object(
                Seq::new(
                    v@.len(),
                    |i: int|
                        if 0 <= i < v@.len() {
                            (v@[i].0@, v@[i].1.value())
                        } else {
                            (Seq::empty(), JsonView::Null)
                        },
                ),
            ),
            Json::Draw(a, b) => JsonView::Draw(a, b),
        }
    }

    /// A copy of the value.
    pub fn copy(&self) -> (r: Json)
        ensures
            r.value() == self.value(),
        decreases *self,
    {
        match self {
            Json::Null => Json::Null,
            Json::Bool(b) => Json::Bool(*b),
            Json::Number(n) => Json::Number(*n),
            Json::Text(s) => Json::Text(s.clone()),
            Json::List(v) => {
                let mut w: Vec<Json> = Vec::new();
                let mut i: usize = 0;
                while i < v.len()
                    invariant
                        i <= v.len(),
                        w.len() == i,
                        *self == Json::List(*v),
                        forall|j: int| 0 <= j < i ==> (#[trigger] w@[j]).value() == v@[j].value(),
                    decreases v.len() - i,
                {
                    assert(decreases_to!(*self => self->List_0));
                    assert(decreases_to!(*v => v@));
                    assert(decreases_to!(v@ => v@[i as int]));
                    w.push(v[i].copy());
                    i += 1;
                }
                let r = Json::List(w);
                assert(r.value()->List_0 =~= self.value()->List_0);
                r
            },
            Json::Object(v) => {
                let mut w: Vec<(String, Json)> = Vec::new();
                let mut i: usize = 0;
                while i < v.len()
                    invariant
                        i <= v.len(),
                        w.len() == i,
                        *self == Json::Object(*v),
                        forall|j: int|
                            0 <= j < i ==> (#[trigger] w@[j]).0@ == v@[j].0@ && w@[j].1.value()
                                == v@[j].1.value(),
                    decreases v.len() - i,
                {
                    assert(decreases_to!(*self => self->Object_0));
                    assert(decreases_to!(*v => v@));
                    assert(decreases_to!(v@ => v@[i as int]));
                    assert(decreases_to!(v@[i as int] => v@[i as int].1));
                    w.push((v[i].0.clone(), v[i].1.copy()));
                    i += 1;
                }
                let r = Json::Object(w);
                assert(r.value()->Object_0 =~= self.value()->Object_0);
                r
            },
            Json::Draw(a, b) => Json::Draw(*a, *b),
        }
    }
}

// ---------------------------------------------------------------------------
// Reading JSON
// ---------------------------------------------------------------------------

/// A JSON value as `serde_json` holds it.
#[verifier::external_type_specification]
#[verifier::external_body]
pub struct ExValue(Value);

/// Turns a `serde_json::Value` into a value of this library, variant by variant and
/// member by member. A number is the first of `as_i64`, `as_u64` and the bits of
/// `as_f64` that there is. What the values are is said where they are read.
#[verifier::external_body]
pub(crate) fn plain_value(v: &Value) -> Json {
    match v {
        Value::Null => Json::Null,
        Value::Bool(b) => Json::Bool(*b),
        Value::Number(n) => Json::Number(match n.as_i64() {
            Some(i) => Num::Int(i),
            None => n.as_u64().map(Num::Big).unwrap_or(
                Num::Real(n.as_f64().unwrap_or_default().to_bits()),
            ),
        }),
        Value::String(s) => Json::Text(s.clone()),
        Value::Array(l) => Json::List(l.iter().map(plain_value).collect()),
        Value::Object(m) => Json::Object(
            m.iter().map(|(k, v)| (k.clone(), plain_value(v))).collect(),
        ),
    }
}

/// What `serde_json` makes of a text: a value, or nothing where it is no JSON.
pub uninterp spec fn parsed_json(data: Seq<char>) -> Option<JsonView>;

/// The value of an optional JSON value.
pub open spec fn value_in(j: Option<Json>) -> Option<JsonView> {
    match j {
        Some(v) => Some(v.value()),
        None => None,
    }
}

/// `serde_json::from_str` of a `Value`. The result depends on the text alone. Of
/// what it is, nothing is said.
#[verifier::external_body]
pub(crate) fn read_json(data: &str) -> (r: Option<Json>)
    ensures
        value_in(r) == parsed_json(data@),
{
    let v: Option<Value> = rmcp::serde_json::from_str(data).ok();
    v.as_ref().map(plain_value)
}

// ---------------------------------------------------------------------------
// Members
// ---------------------------------------------------------------------------

/// The place of a member among the members of an object, or their number.
pub open spec fn member_at(members: Seq<(Seq<char>, JsonView)>, name: Seq<char>) -> nat
    decreases members.len(),
{
    if members.len() == 0 || members.first().0 == name {
        0
    } else {
        1 + member_at(members.drop_first(), name)
    }
}

/// The member of an object with a name. Other values have no members.
pub open spec fn member(v: JsonView, name: Seq<char>) -> Option<JsonView> {
    match v {
        JsonView::Object(members) => {
            let k = member_at(members, name);
            if k < members.len() {
                Some(members[k as int].1)
            } else {
                None
            }
        },
        _ => None,
    }
}

/// Where the first member with a name stands.
pub proof fn lemma_member_at_is(members: Seq<(Seq<char>, JsonView)>, name: Seq<char>, k: nat)
    requires
        k <= members.len(),
        k < members.len() ==> members[k as int].0 == name,
        forall|i: int| 0 <= i < k ==> (#[trigger] members[i]).0 != name,
    ensures
        member_at(members, name) == k,
    decreases members.len(),
{
    if k > 0 {
        assert(members[0].0 != name);
        let t = members.drop_first();
        assert forall|i: int| 0 <= i < k - 1 implies (#[trigger] t[i]).0 != name by {
            assert(t[i] == members[i + 1]);
        }
        lemma_member_at_is(t, name, (k - 1) as nat);
    }
}

/// An optional value.
pub open spec fn opt_value(j: Option<&Json>) -> Option<JsonView> {
    match j {
        Some(v) => Some(v.value()),
        None => None,
    }
}

impl Json {
    /// The member of an object with a name.
    pub fn get(&self, name: &str) -> (r: Option<&Json>)
        ensures
            opt_value(r) == member(self.value(), name@),
    {
        match self {
            Json::Object(v) => {
                let ghost members = self.value()->Object_0;
                let mut i: usize = 0;
                while i < v.len()
                    invariant
                        i <= v.len(),
                        *self == Json::Object(*v),
                        members == self.value()->Object_0,
                        self.value() == JsonView::Object(members),
                        members.len() == v.len(),
                        forall|j: int| 0 <= j < i ==> (#[trigger] members[j]).0 != name@,
                    decreases v.len() - i,
                {
                    assert(members[i as int] == (v@[i as int].0@, v@[i as int].1.value()));
                    if text::same_str(v[i].0.as_str(), name) {
                        proof {
                            lemma_member_at_is(members, name@, i as nat);
                        }
                        return Some(&v[i].1);
                    }
                    i += 1;
                }
                proof {
                    lemma_member_at_is(members, name@, members.len());
                }
                None
            },
            _ => None,
        }
    }
}

// ---------------------------------------------------------------------------
// What values and members keep to
// ---------------------------------------------------------------------------

/// The member of an object with a name is the first that has it, and there is none
/// where no member has it. Values that are no objects have no members.
pub proof fn law_first_member_is_found(members: Seq<(Seq<char>, JsonView)>, name: Seq<char>, k: int, v: JsonView)
    ensures
        0 <= k < members.len() && members[k].0 == name && (forall|i: int|
            0 <= i < k ==> (#[trigger] members[i]).0 != name) ==> member(
            JsonView::Object(members),
            name,
        ) == Some(members[k].1),
        (forall|i: int| 0 <= i < members.len() ==> (#[trigger] members[i]).0 != name) ==> member(
            JsonView::Object(members),
            name,
        ) is None,
        !(v is Object) ==> member(v, name) is None,
{
    if 0 <= k < members.len() && members[k].0 == name && (forall|i: int|
        0 <= i < k ==> (#[trigger] members[i]).0 != name) {
        lemma_member_at_is(members, name, k as nat);
    }
    if forall|i: int| 0 <= i < members.len() ==> (#[trigger] members[i]).0 != name {
        lemma_member_at_is(members, name, members.len());
    }
}

/// The value of a list is the values of its items in their order, and the value of
/// an object is its names with their values in their order.
pub proof fn law_value_keeps_the_order(items: Vec<Json>, members: Vec<(String, Json)>, i: int)
    ensures
        Json::List(items).value() is List,
        Json::List(items).value()->List_0.len() == items@.len(),
        0 <= i < items@.len() ==> Json::List(items).value()->List_0[i] == items@[i].value(),
        Json::Object(members).value() is Object,
        Json::Object(members).value()->Object_0.len() == members@.len(),
        0 <= i < members@.len() ==> Json::Object(members).value()->Object_0[i] == (
            members@[i].0@,
            members@[i].1.value(),
        ),
{
}

/// The value of what is neither a list nor an object is what it holds.
pub proof fn law_plain_values_are_kept(b: bool, n: Num, s: String, lo: Option<Num>, hi: Option<Num>)
    ensures
        Json::Null.value() is Null,
        Json::Bool(b).value() == JsonView::Bool(b),
        Json::Number(n).value() == JsonView::Number(n),
        Json::Text(s).value() == JsonView::Text(s@),
        Json::Draw(lo, hi).value() == JsonView::Draw(lo, hi),
{
}

} // verus!
