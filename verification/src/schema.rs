//! Arguments for tools: values that fit the schema that a tool announces.
//!
//! The values are random. What is stated of them holds of every outcome.
use crate::json;
use crate::json::{Json, JsonView, Num};
use crate::options::Options;
use crate::text;
use rand::RngExt;
use vstd::prelude::*;

verus! {

// ---------------------------------------------------------------------------
// Random values
// ---------------------------------------------------------------------------

/// `rand`'s `random_range` on the random number generator of the thread: a number
/// from `lo` up to, but not, `hi`.
#[verifier::external_body]
fn random_between(lo: i64, hi: i64) -> (n: i64)
    requires
        lo < hi,
    ensures
        lo <= n < hi,
{
    rand::rng().random_range(lo..hi)
}

/// Whether a character is one of the letters `a` to `z` or `A` to `Z` or a
/// decimal digit.
pub open spec fn alphanumeric(c: char) -> bool {
    'a' <= c <= 'z' || 'A' <= c <= 'Z' || '0' <= c <= '9'
}

/// A sample of `rand::distr::Alphanumeric` on the random number generator of the
/// thread: a letter or a digit.
#[verifier::external_body]
fn random_char() -> (c: char)
    ensures
        alphanumeric(c),
{
    rand::rng().sample(rand::distr::Alphanumeric).into()
}

/// `rand`'s `random_ratio` on the random number generator of the thread: true or
/// false, each as likely as the other.
#[verifier::external_body]
fn random_bool() -> bool {
    rand::rng().random_ratio(1, 2)
}

/// Whether `n` is a number that `random_between` can draw between two bounds.
pub closed spec fn drawn(lo: i64, hi: i64, n: i64) -> bool {
    call_ensures(random_between, (lo, hi), n)
}

/// Whether `b` is what `random_bool` can toss.
pub closed spec fn tossed(b: bool) -> bool {
    call_ensures(random_bool, (), b)
}

/// Whether `c` is a letter or a digit that `random_char` can draw.
pub closed spec fn picked(c: char) -> bool {
    call_ensures(random_char, (), c)
}

/// The bound below which a place in a list is drawn: its length, or the largest
/// number that can be a bound.
pub open spec fn place_bound(len: nat) -> i64 {
    if len <= i64::MAX {
        len as i64
    } else {
        i64::MAX
    }
}

/// A random place in a list: a number that is drawn between 0 and its length.
fn random_place(len: usize) -> (i: usize)
    requires
        len > 0,
    ensures
        i < len,
        drawn(0, place_bound(len as nat), i as i64),
{
    let most: i64 = if len as u128 <= 0x7fff_ffff_ffff_ffff {
        len as i64
    } else {
        0x7fff_ffff_ffff_ffff
    };
    random_between(0, most) as usize
}

// ---------------------------------------------------------------------------
// What a value of a schema can be
// ---------------------------------------------------------------------------

/// How deep schemas may be nested: what is deeper is null.
pub const MAX_RECURSION_DEPTH: usize = 10;

/// The first of several type names that is not `null`, or `string`.
pub open spec fn first_type(types: Seq<JsonView>) -> Seq<char>
    decreases types.len(),
{
    if types.len() == 0 {
        "string"@
    } else {
        match types.first() {
            JsonView::Text(t) => if t == "null"@ {
                first_type(types.drop_first())
            } else {
                t
            },
            _ => first_type(types.drop_first()),
        }
    }
}

/// The type that a schema names.
pub open spec fn type_of(schema: JsonView) -> Seq<char> {
    match json::member(schema, "type"@) {
        Some(JsonView::Text(t)) => t,
        Some(JsonView::List(types)) => first_type(types),
        _ => "string"@,
    }
}

/// The integer that a member of a schema is, if it is one.
pub open spec fn int_member(schema: JsonView, name: Seq<char>) -> Option<i64> {
    match json::member(schema, name) {
        Some(JsonView::Number(Num::Int(n))) => Some(n),
        _ => None,
    }
}

/// The number that a member of a schema is, if it is one.
pub open spec fn num_member(schema: JsonView, name: Seq<char>) -> Option<Num> {
    match json::member(schema, name) {
        Some(JsonView::Number(n)) => Some(n),
        _ => None,
    }
}

/// The bounds of an integer: those of the schema, or 0 and 1000. Bounds that
/// leave nothing between them are those as well.
pub open spec fn int_bounds(schema: JsonView) -> (i64, i64) {
    let lo = match int_member(schema, "minimum"@) {
        Some(n) => n,
        None => 0,
    };
    let hi = match int_member(schema, "maximum"@) {
        Some(n) => n,
        None => 1000,
    };
    if hi > lo {
        (lo, hi)
    } else {
        (0, 1000)
    }
}

/// Whether `v` can be a value where no schema is given.
pub open spec fn primitive(v: JsonView) -> bool {
    match v {
        JsonView::Text(t) => t == "sample"@,
        JsonView::Number(Num::Int(n)) => -100 <= n < 100,
        JsonView::Bool(_) => true,
        _ => false,
    }
}

/// The value that is made of three draws: a kind, a number and a toss.
pub open spec fn primitive_of(kind: i64, n: i64, coin: bool) -> JsonView {
    if kind == 0 {
        JsonView::Text("sample"@)
    } else if kind == 1 || kind == 2 {
        JsonView::Number(Num::Int(n))
    } else {
        JsonView::Bool(coin)
    }
}

/// Whether a kind, a number and a toss are the draws of which a value is made: one
/// of four kinds, and what that kind needs.
pub open spec fn primitive_draws(kind: i64, n: i64, coin: bool) -> bool {
    &&& drawn(0, 4, kind)
    &&& kind == 1 ==> drawn((-100) as i64, 100, n)
    &&& kind == 2 ==> drawn(0, 100, n)
    &&& kind == 3 ==> tossed(coin)
}

/// Whether `v` is made of draws, where no schema is given.
pub open spec fn primitive_made(v: JsonView) -> bool {
    exists|kind: i64, n: i64, coin: bool| #[trigger]
        primitive_draws(kind, n, coin) && v == primitive_of(kind, n, coin)
}

/// Whether `t` can be a text: letters and digits that are drawn, as many as are
/// asked for, or a number from 5 to 19 that is drawn.
pub open spec fn random_text(t: Seq<char>, len: Option<usize>) -> bool {
    &&& forall|i: int| 0 <= i < t.len() ==> alphanumeric(#[trigger] t[i]) && picked(t[i])
    &&& match len {
        Some(n) => t.len() == n,
        None => 5 <= t.len() < 20 && drawn(5, 20, t.len() as i64),
    }
}

/// Whether `v` stands at a place that is drawn among the variants of a schema.
pub open spec fn drawn_variant(variants: Seq<JsonView>, v: JsonView) -> bool {
    exists|i: int|
        0 <= i < variants.len() && drawn(0, place_bound(variants.len()), i as i64)
            && #[trigger] variants[i] == v
}

/// Whether a name stands among the texts of a list.
pub open spec fn lists(required: Seq<JsonView>, name: Seq<char>) -> bool {
    exists|i: int| 0 <= i < required.len() && #[trigger] required[i] == JsonView::Text(name)
}

/// Whether no name stands among the members twice.
pub open spec fn distinct_names(members: Seq<(Seq<char>, JsonView)>) -> bool {
    forall|i: int, j: int| 0 <= i < j < members.len() ==> members[i].0 != members[j].0
}

/// Whether the members of `v` are those that are required and have a schema.
pub open spec fn names_required(
    members: Seq<(Seq<char>, JsonView)>,
    required: Seq<JsonView>,
    properties: JsonView,
) -> bool {
    &&& distinct_names(members)
    &&& forall|i: int|
        0 <= i < members.len() ==> lists(required, (#[trigger] members[i]).0) && json::member(
            properties,
            members[i].0,
        ) is Some
    &&& forall|name: Seq<char>|
        lists(required, name) && json::member(properties, name) is Some ==> exists|i: int|
            0 <= i < members.len() && (#[trigger] members[i]).0 == name
}

/// Whether `v` can be a value of a schema that is nested `depth` deep. `len` is
/// the length of texts, where it is given.
pub open spec fn fits(schema: JsonView, v: JsonView, len: Option<usize>, depth: nat) -> bool
    decreases 10 - depth,
{
    let variants = json::member(schema, "enum"@);
    if depth >= 10 {
        v == JsonView::Null
    } else if json::member(schema, "default"@) is Some {
        v == json::member(schema, "default"@)->0
    } else if json::member(schema, "const"@) is Some {
        v == json::member(schema, "const"@)->0
    } else if variants matches Some(JsonView::List(list)) && list.len() > 0 {
        drawn_variant(variants->0->List_0, v)
    } else {
        let t = type_of(schema);
        if t == "string"@ {
            v matches JsonView::Text(s) && random_text(s, len)
        } else if t == "integer"@ {
            v matches JsonView::Number(Num::Int(n)) && int_bounds(schema).0 <= n < int_bounds(
                schema,
            ).1 && drawn(int_bounds(schema).0, int_bounds(schema).1, n)
        } else if t == "number"@ {
            v == JsonView::Draw(num_member(schema, "minimum"@), num_member(schema, "maximum"@))
        } else if t == "boolean"@ {
            v matches JsonView::Bool(b) && tossed(b)
        } else if t == "array"@ {
            v matches JsonView::List(items) && 1 <= items.len() < 4 && drawn(
                1,
                4,
                items.len() as i64,
            ) && match json::member(
                schema,
                "items"@,
            ) {
                Some(s) => forall|i: int|
                    0 <= i < items.len() ==> fits(s, #[trigger] items[i], len, depth + 1),
                None => forall|i: int|
                    0 <= i < items.len() ==> primitive(#[trigger] items[i]) && primitive_made(
                        items[i],
                    ),
            }
        } else if t == "object"@ {
            match (json::member(schema, "properties"@), json::member(schema, "required"@)) {
                (Some(JsonView::Object(p)), Some(JsonView::List(required))) =>
                    v matches JsonView::Object(members) && names_required(
                        members,
                        required,
                        JsonView::Object(p),
                    ) && forall|i: int|
                        0 <= i < members.len() ==> fits(
                            json::member(JsonView::Object(p), (#[trigger] members[i]).0)->0,
                            members[i].1,
                            len,
                            depth + 1,
                        ),
                _ => v == JsonView::Object(Seq::empty()),
            }
        } else if t == "null"@ {
            v == JsonView::Null
        } else {
            v == JsonView::Text(Seq::empty())
        }
    }
}

// ---------------------------------------------------------------------------
// Drawing a value
// ---------------------------------------------------------------------------

/// The text that a value is, if it is one.
fn as_text(j: &Json) -> (r: Option<&String>)
    ensures
        match r {
            Some(s) => j.value() == JsonView::Text(s@),
            None => !(j.value() is Text),
        },
{
    match j {
        Json::Text(s) => Some(s),
        _ => None,
    }
}

/// The type that a schema names.
fn named_type(schema: &Json) -> (t: String)
    ensures
        t@ == type_of(schema.value()),
{
    match schema.get("type") {
        Some(Json::Text(s)) => s.clone(),
        Some(Json::List(types)) => {
            let ghost all = Json::List(*types).value()->List_0;
            let mut i: usize = 0;
            assert(all.skip(0) == all);
            while i < types.len()
                invariant
                    i <= types.len(),
                    all == Json::List(*types).value()->List_0,
                    first_type(all.skip(i as int)) == first_type(all),
                    first_type(all) == type_of(schema.value()),
                decreases types.len() - i,
            {
                let ghost left = all.skip(i as int);
                assert(left.first() == types@[i as int].value());
                assert(left.drop_first() == all.skip(i + 1));
                match as_text(&types[i]) {
                    Some(t) => {
                        if !text::same_str(t.as_str(), "null") {
                            return t.clone();
                        }
                    },
                    None => {},
                }
                i += 1;
            }
            "string".to_string()
        },
        _ => "string".to_string(),
    }
}

/// The integer that a member of a schema is, if it is one.
fn int_of(schema: &Json, name: &str) -> (r: Option<i64>)
    ensures
        r == int_member(schema.value(), name@),
{
    match schema.get(name) {
        Some(Json::Number(Num::Int(n))) => Some(*n),
        _ => None,
    }
}

/// The number that a member of a schema is, if it is one.
fn num_of(schema: &Json, name: &str) -> (r: Option<Num>)
    ensures
        r == num_member(schema.value(), name@),
{
    match schema.get(name) {
        Some(Json::Number(n)) => Some(*n),
        _ => None,
    }
}

/// A text of letters and digits.
fn draw_text(len: Option<usize>) -> (s: String)
    ensures
        random_text(s@, len),
{
    let n: usize = match len {
        Some(n) => n,
        None => random_between(5, 20) as usize,
    };
    let mut s = String::new();
    let mut i: usize = 0;
    while i < n
        invariant
            i <= n,
            s@.len() == i,
            forall|j: int| 0 <= j < i ==> alphanumeric(#[trigger] s@[j]) && picked(s@[j]),
            len is None ==> drawn(5, 20, n as i64) && 5 <= n < 20,
            len matches Some(m) ==> n == m,
        decreases n - i,
    {
        s.push(random_char());
        i += 1;
    }
    s
}

/// The value of a kind, of the number and the toss that were drawn for it.
pub fn primitive_value(kind: i64, n: i64, coin: bool) -> (v: Json)
    ensures
        v.value() == primitive_of(kind, n, coin),
{
    if kind == 0 {
        Json::Text("sample".to_string())
    } else if kind == 1 || kind == 2 {
        Json::Number(Num::Int(n))
    } else {
        Json::Bool(coin)
    }
}

/// A value where no schema is given: a fixed text, a number from -100 to 99, a
/// number from 0 to 99, or true or false, as the draws decide.
pub fn generate_primitive_value() -> (v: Json)
    ensures
        primitive(v.value()),
        primitive_made(v.value()),
{
    let kind: i64 = random_between(0, 4);
    let n: i64 = if kind == 1 {
        random_between(-100, 100)
    } else if kind == 2 {
        random_between(0, 100)
    } else {
        0
    };
    let coin: bool = if kind == 3 {
        random_bool()
    } else {
        false
    };
    assert(primitive_draws(kind, n, coin));
    primitive_value(kind, n, coin)
}

/// The members of an object, as mathematical values.
pub open spec fn members_view(members: Seq<(String, Json)>) -> Seq<(Seq<char>, JsonView)> {
    Seq::new(members.len(), |i: int| (members[i].0@, members[i].1.value()))
}

/// Sets a member: in place of the one with its name, or behind the others.
fn put(members: &mut Vec<(String, Json)>, name: &str, v: Json)
    requires
        distinct_names(members_view(old(members)@)),
    ensures
        distinct_names(members_view(final(members)@)),
        exists|k: int|
            #![trigger members_view(final(members)@)[k]]
            0 <= k < final(members)@.len() && members_view(final(members)@)[k] == (
                name@,
                v.value(),
            ) && (members_view(final(members)@) == members_view(old(members)@).push(
                (name@, v.value()),
            ) || (k < old(members)@.len() && members_view(old(members)@)[k].0 == name@
                && members_view(final(members)@) == members_view(old(members)@).update(
                k,
                (name@, v.value()),
            ))),
{
    let ghost before = members_view(members@);
    let mut i: usize = 0;
    while i < members.len()
        invariant
            i <= members.len(),
            before == members_view(members@),
            before == members_view(old(members)@),
            distinct_names(before),
            forall|j: int| 0 <= j < i ==> (#[trigger] before[j]).0 != name@,
        decreases members.len() - i,
    {
        assert(before[i as int].0 == members@[i as int].0@);
        if text::same_str(members[i].0.as_str(), name) {
            let entry: (String, Json) = (name.to_string(), v);
            members.set(i, entry);
            let ghost after = members_view(members@);
            assert(after == before.update(i as int, (name@, v.value())));
            assert(after[i as int] == (name@, v.value()));
            return;
        }
        i += 1;
    }
    members.push((name.to_string(), v));
    let ghost after = members_view(members@);
    assert(after == before.push((name@, v.value())));
    assert(after[before.len() as int] == (name@, v.value()));
}

/// Whether every member can be a value of its schema.
pub open spec fn members_fit(
    members: Seq<(Seq<char>, JsonView)>,
    properties: JsonView,
    len: Option<usize>,
    depth: nat,
) -> bool {
    forall|i: int|
        0 <= i < members.len() ==> fits(
            json::member(properties, (#[trigger] members[i]).0)->0,
            members[i].1,
            len,
            depth,
        )
}

proof fn lemma_lists_one_more(required: Seq<JsonView>, i: int, name: Seq<char>)
    requires
        0 <= i < required.len(),
    ensures
        lists(required.take(i + 1), name) <==> lists(required.take(i), name) || required[i]
            == JsonView::Text(name),
{
    let before = required.take(i);
    let after = required.take(i + 1);
    if lists(before, name) {
        let j = choose|j: int| 0 <= j < before.len() && #[trigger] before[j] == JsonView::Text(
            name,
        );
        assert(after[j] == JsonView::Text(name));
    }
    if required[i] == JsonView::Text(name) {
        assert(after[i] == JsonView::Text(name));
    }
    if lists(after, name) {
        let j = choose|j: int| 0 <= j < after.len() && #[trigger] after[j] == JsonView::Text(name);
        if j < i {
            assert(before[j] == JsonView::Text(name));
        }
    }
}

/// Setting a member that is required keeps the members those that are required.
proof fn lemma_put_keeps(
    before: Seq<(Seq<char>, JsonView)>,
    after: Seq<(Seq<char>, JsonView)>,
    k: int,
    name: Seq<char>,
    v: JsonView,
    required: Seq<JsonView>,
    i: int,
    properties: JsonView,
    len: Option<usize>,
    depth: nat,
)
    requires
        0 <= i < required.len(),
        required[i] == JsonView::Text(name),
        json::member(properties, name) is Some,
        fits(json::member(properties, name)->0, v, len, depth),
        names_required(before, required.take(i), properties),
        members_fit(before, properties, len, depth),
        distinct_names(after),
        0 <= k < after.len(),
        after[k] == (name, v),
        after == before.push((name, v)) || (k < before.len() && before[k].0 == name && after
            == before.update(k, (name, v))),
    ensures
        names_required(after, required.take(i + 1), properties),
        members_fit(after, properties, len, depth),
{
    let done = required.take(i);
    let next = required.take(i + 1);
    assert forall|j: int| 0 <= j < after.len() implies lists(next, (#[trigger] after[j]).0)
        && json::member(properties, after[j].0) is Some by {
        lemma_lists_one_more(required, i, after[j].0);
        if after[j].0 != name {
            assert(after[j] == before[j]);
            assert(lists(done, before[j].0));
        }
    }
    assert forall|n: Seq<char>|
        lists(next, n) && json::member(properties, n) is Some implies exists|j: int|
        0 <= j < after.len() && (#[trigger] after[j]).0 == n by {
        lemma_lists_one_more(required, i, n);
        if n == name {
            assert(after[k].0 == n);
        } else {
            assert(lists(done, n));
            let j = choose|j: int| 0 <= j < before.len() && (#[trigger] before[j]).0 == n;
            assert(after[j].0 == n);
        }
    }
    assert forall|j: int| 0 <= j < after.len() implies fits(
        json::member(properties, (#[trigger] after[j]).0)->0,
        after[j].1,
        len,
        depth,
    ) by {
        if j == k || (j == before.len() && after == before.push((name, v))) {
            assert(after[j] == (name, v)) by {
                if after != before.push((name, v)) {
                } else if j == before.len() {
                }
            }
        } else {
            assert(after[j] == before[j]);
            assert(fits(json::member(properties, before[j].0)->0, before[j].1, len, depth));
        }
    }
}

/// Draws the members that are required and have a schema. Where `strict` is set,
/// there are none unless every member that is required has one.
fn draw_members(
    required: &Vec<Json>,
    properties: &Json,
    opts: &Options,
    depth: usize,
    strict: bool,
) -> (r: Option<Vec<(String, Json)>>)
    requires
        depth <= 10,
    ensures
        match r {
            Some(members) => {
                &&& names_required(
                    members_view(members@),
                    Json::List(*required).value()->List_0,
                    properties.value(),
                )
                &&& members_fit(
                    members_view(members@),
                    properties.value(),
                    opts.mcp_rand_string_len,
                    depth as nat,
                )
                &&& strict ==> all_described(
                    Json::List(*required).value()->List_0,
                    properties.value(),
                )
            },
            None => strict && !all_described(
                Json::List(*required).value()->List_0,
                properties.value(),
            ),
        },
    decreases 10 - depth, 2int,
{
    let ghost all = Json::List(*required).value()->List_0;
    let ghost props = properties.value();
    let ghost len = opts.mcp_rand_string_len;
    let mut members: Vec<(String, Json)> = Vec::new();
    let mut i: usize = 0;
    proof {
        assert(members_view(members@) == Seq::<(Seq<char>, JsonView)>::empty());
        assert(all.take(0) == Seq::<JsonView>::empty());
    }
    while i < required.len()
        invariant
            i <= required.len(),
            depth <= 10,
            all == Json::List(*required).value()->List_0,
            props == properties.value(),
            len == opts.mcp_rand_string_len,
            names_required(members_view(members@), all.take(i as int), props),
            members_fit(members_view(members@), props, len, depth as nat),
            strict ==> all_described(all.take(i as int), props),
        decreases required.len() - i,
    {
        assert(all[i as int] == required@[i as int].value());
        let ghost before = members_view(members@);
        let ghost done = all.take(i as int);
        let ghost next = all.take(i + 1);
        match as_text(&required[i]) {
            Some(name) => {
                assert(all[i as int] == JsonView::Text(name@));
                match properties.get(name.as_str()) {
                    Some(schema) => {
                        let v = generate_value_from_schema(schema, opts, depth);
                        let ghost value = v.value();
                        put(&mut members, name.as_str(), v);
                        proof {
                            let after = members_view(members@);
                            let k = choose|k: int|
                                #![trigger after[k]]
                                0 <= k < after.len() && after[k] == (name@, value) && (after
                                    == before.push((name@, value)) || (k < before.len()
                                    && before[k].0 == name@ && after == before.update(
                                    k,
                                    (name@, value),
                                )));
                            lemma_put_keeps(
                                before,
                                after,
                                k,
                                name@,
                                value,
                                all,
                                i as int,
                                props,
                                len,
                                depth as nat,
                            );
                            assert forall|n: Seq<char>| lists(next, n) && strict implies
                                json::member(props, n) is Some by {
                                lemma_lists_one_more(all, i as int, n);
                            }
                        }
                    },
                    None => {
                        proof {
                            assert(lists(all, name@));
                            lemma_skip_keeps(before, all, i as int, props, len, depth as nat);
                        }
                        if strict {
                            return None;
                        }
                    },
                }
            },
            None => {
                proof {
                    lemma_skip_keeps(before, all, i as int, props, len, depth as nat);
                    assert forall|n: Seq<char>| lists(next, n) && strict implies json::member(
                        props,
                        n,
                    ) is Some by {
                        lemma_lists_one_more(all, i as int, n);
                    }
                }
            },
        }
        i += 1;
    }
    assert(all.take(all.len() as int) == all);
    Some(members)
}

/// Whether every name that is required has a schema.
pub open spec fn all_described(required: Seq<JsonView>, properties: JsonView) -> bool {
    forall|name: Seq<char>|
        #[trigger] lists(required, name) ==> json::member(properties, name) is Some
}

/// Passing over what is no name, or has no schema, keeps the members those that
/// are required.
proof fn lemma_skip_keeps(
    members: Seq<(Seq<char>, JsonView)>,
    required: Seq<JsonView>,
    i: int,
    properties: JsonView,
    len: Option<usize>,
    depth: nat,
)
    requires
        0 <= i < required.len(),
        names_required(members, required.take(i), properties),
        required[i] matches JsonView::Text(name) ==> json::member(properties, name) is None,
    ensures
        names_required(members, required.take(i + 1), properties),
{
    let next = required.take(i + 1);
    assert forall|j: int| 0 <= j < members.len() implies lists(next, (#[trigger] members[j]).0)
        && json::member(properties, members[j].0) is Some by {
        lemma_lists_one_more(required, i, members[j].0);
    }
    assert forall|n: Seq<char>|
        lists(next, n) && json::member(properties, n) is Some implies exists|j: int|
        0 <= j < members.len() && (#[trigger] members[j]).0 == n by {
        lemma_lists_one_more(required, i, n);
        assert(lists(required.take(i), n));
    }
}

/// Whether `items` can be the items of an array, where `schema` is that of an item.
pub open spec fn items_fit(
    items: Seq<Json>,
    schema: Option<JsonView>,
    len: Option<usize>,
    depth: nat,
) -> bool {
    match schema {
        Some(s) => forall|i: int|
            0 <= i < items.len() ==> fits(s, (#[trigger] items[i]).value(), len, depth),
        None => forall|i: int|
            0 <= i < items.len() ==> primitive((#[trigger] items[i]).value()) && primitive_made(
                items[i].value(),
            ),
    }
}

/// The mathematical value of an optional schema.
pub open spec fn schema_value(schema: Option<&Json>) -> Option<JsonView> {
    match schema {
        Some(s) => Some(s.value()),
        None => None,
    }
}

/// As many items of an array as were drawn. `schema` is that of an item, where
/// there is one.
pub fn generate_items(schema: Option<&Json>, n: usize, opts: &Options, depth: usize) -> (items: Vec<
    Json,
>)
    ensures
        items.len() == n,
        items_fit(items@, schema_value(schema), opts.mcp_rand_string_len, depth as nat),
    decreases
        (if depth <= 10 {
            10 - depth
        } else {
            0
        }),
        2int,
{
    let mut items: Vec<Json> = Vec::new();
    let mut i: usize = 0;
    while i < n
        invariant
            i <= n,
            items.len() == i,
            items_fit(items@, schema_value(schema), opts.mcp_rand_string_len, depth as nat),
        decreases n - i,
    {
        let v = match schema {
            Some(s) => generate_value_from_schema(s, opts, depth),
            None => generate_primitive_value(),
        };
        items.push(v);
        i += 1;
    }
    items
}

/// Draws a value of a type.
fn draw_of_type(schema: &Json, t: &str, opts: &Options, depth: usize) -> (v: Json)
    requires
        depth < 10,
        t@ == type_of(schema.value()),
        json::member(schema.value(), "default"@) is None,
        json::member(schema.value(), "const"@) is None,
        !(json::member(schema.value(), "enum"@) matches Some(JsonView::List(list)) && list.len()
            > 0),
    ensures
        fits(schema.value(), v.value(), opts.mcp_rand_string_len, depth as nat),
    decreases 10 - depth, 0int,
{
    if text::same_str(t, "string") {
        return Json::Text(draw_text(opts.mcp_rand_string_len));
    }
    if text::same_str(t, "integer") {
        let lo: i64 = match int_of(schema, "minimum") {
            Some(n) => n,
            None => 0,
        };
        let hi: i64 = match int_of(schema, "maximum") {
            Some(n) => n,
            None => 1000,
        };
        let n: i64 = if hi > lo {
            random_between(lo, hi)
        } else {
            random_between(0, 1000)
        };
        return Json::Number(Num::Int(n));
    }
    if text::same_str(t, "number") {
        return Json::Draw(num_of(schema, "minimum"), num_of(schema, "maximum"));
    }
    if text::same_str(t, "boolean") {
        return Json::Bool(random_bool());
    }
    if text::same_str(t, "array") {
        let n: i64 = random_between(1, 4);
        let items = generate_items(schema.get("items"), n as usize, opts, depth + 1);
        let v = Json::List(items);
        proof {
            let list = v.value()->List_0;
            assert forall|i: int| 0 <= i < list.len() implies #[trigger] list[i]
                == items@[i].value() by {}
        }
        return v;
    }
    if text::same_str(t, "object") {
        let none = Json::Object(Vec::new());
        assert(none.value()->Object_0 =~= Seq::empty());
        let properties = match schema.get("properties") {
            Some(p) => p,
            None => {
                return none;
            },
        };
        match properties {
            Json::Object(_) => {},
            _ => {
                return none;
            },
        }
        match schema.get("required") {
            Some(Json::List(required)) => {
                match draw_members(required, properties, opts, depth + 1, false) {
                    Some(members) => {
                        let v = Json::Object(members);
                        assert(v.value()->Object_0 =~= members_view(members@));
                        return v;
                    },
                    None => {
                        return none;
                    },
                }
            },
            _ => {
                return none;
            },
        }
    }
    if text::same_str(t, "null") {
        return Json::Null;
    }
    let v = Json::Text(String::new());
    assert(v.value()->Text_0 =~= Seq::empty());
    v
}

/// The variant at a place that was drawn.
pub fn pick_variant(variants: &Vec<Json>, place: usize) -> (v: Json)
    requires
        place < variants.len(),
    ensures
        v.value() == variants@[place as int].value(),
{
    variants[place].copy()
}

/// Draws a value of a schema: the default or the constant that it names, one of
/// its variants, or a random value of its type. Numbers that are no integers are
/// left to be drawn.
pub fn generate_value_from_schema(schema: &Json, opts: &Options, depth: usize) -> (v: Json)
    ensures
        fits(schema.value(), v.value(), opts.mcp_rand_string_len, depth as nat),
    decreases if depth <= 10 {
        10 - depth
    } else {
        0
    }, 1int,
{
    if depth >= MAX_RECURSION_DEPTH {
        return Json::Null;
    }
    match schema.get("default") {
        Some(d) => {
            return d.copy();
        },
        None => {},
    }
    match schema.get("const") {
        Some(c) => {
            return c.copy();
        },
        None => {},
    }
    match schema.get("enum") {
        Some(Json::List(variants)) => {
            if variants.len() > 0 {
                let i: usize = random_place(variants.len());
                let v = pick_variant(variants, i);
                proof {
                    let list = Json::List(*variants).value()->List_0;
                    assert(list[i as int] == v.value());
                }
                return v;
            }
        },
        _ => {},
    }
    let t = named_type(schema);
    draw_of_type(schema, t.as_str(), opts, depth)
}

// ---------------------------------------------------------------------------
// Calls of tools
// ---------------------------------------------------------------------------

/// A tool that a server offers.
#[derive(Debug)]
pub struct Tool {
    pub name: String,
    /// The schema of its arguments.
    pub schema: Json,
}

/// A tool, as mathematical values: its name and the schema of its arguments.
pub type ToolView = (Seq<char>, JsonView);

impl View for Tool {
    type V = ToolView;

    open spec fn view(&self) -> ToolView {
        (self.name@, self.schema.value())
    }
}

/// Tools, as mathematical values.
pub open spec fn tools_view(tools: Seq<Tool>) -> Seq<ToolView> {
    tools.map_values(|t: Tool| t@)
}

/// A call of a tool.
#[derive(Debug)]
pub struct ToolCall {
    pub name: String,
    pub id: i64,
    /// The arguments, where the schema says what they are.
    pub arguments: Option<Json>,
}

/// Whether a schema says what the arguments are: it lists those that are
/// required, and describes each of them.
pub open spec fn describes_arguments(schema: JsonView) -> bool {
    match (json::member(schema, "required"@), json::member(schema, "properties"@)) {
        (Some(JsonView::List(required)), Some(JsonView::Object(p))) => all_described(
            required,
            JsonView::Object(p),
        ),
        _ => false,
    }
}

/// Whether `v` can be the arguments of a tool: the arguments that are required,
/// and no others.
pub open spec fn can_be_arguments(schema: JsonView, v: JsonView, len: Option<usize>) -> bool {
    match (json::member(schema, "required"@), json::member(schema, "properties"@), v) {
        (
            Some(JsonView::List(required)),
            Some(JsonView::Object(p)),
            JsonView::Object(members),
        ) => names_required(members, required, JsonView::Object(p)) && members_fit(
            members,
            JsonView::Object(p),
            len,
            0,
        ),
        _ => false,
    }
}

/// Draws the arguments of a tool. There are none where the schema does not say
/// what they are.
pub fn create_tool_request(schema: &Json, opts: &Options) -> (r: Option<Json>)
    ensures
        match r {
            Some(v) => describes_arguments(schema.value()) && can_be_arguments(
                schema.value(),
                v.value(),
                opts.mcp_rand_string_len,
            ),
            None => !describes_arguments(schema.value()),
        },
{
    let required = match schema.get("required") {
        Some(Json::List(list)) => list,
        _ => {
            return None;
        },
    };
    let properties = match schema.get("properties") {
        Some(p) => p,
        None => {
            return None;
        },
    };
    match properties {
        Json::Object(_) => {},
        _ => {
            return None;
        },
    }
    match draw_members(required, properties, opts, 0, true) {
        Some(members) => {
            let v = Json::Object(members);
            assert(v.value()->Object_0 =~= members_view(members@));
            Some(v)
        },
        None => None,
    }
}

/// Whether `call` can be the call of a tool at place `i`.
pub open spec fn can_be_call(tool: ToolView, i: int, call: ToolCall, len: Option<usize>) -> bool {
    &&& call.name@ == tool.0
    &&& call.id == i + 100
    &&& match call.arguments {
        Some(v) => describes_arguments(tool.1) && can_be_arguments(
            tool.1,
            v.value(),
            len,
        ),
        None => !describes_arguments(tool.1),
    }
}

/// One call of each tool, numbered from 100 on.
pub fn compile_tool_bodies(tools: &Vec<Tool>, opts: &Options) -> (calls: Vec<ToolCall>)
    requires
        tools.len() + 100 <= i64::MAX,
    ensures
        calls.len() == tools.len(),
        forall|i: int|
            0 <= i < calls.len() ==> can_be_call(
                tools@[i]@,
                i,
                #[trigger] calls@[i],
                opts.mcp_rand_string_len,
            ),
{
    let mut calls: Vec<ToolCall> = Vec::new();
    let mut i: usize = 0;
    while i < tools.len()
        invariant
            i <= tools.len(),
            tools.len() + 100 <= i64::MAX,
            calls.len() == i,
            forall|j: int|
                0 <= j < i ==> can_be_call(
                    tools@[j]@,
                    j,
                    #[trigger] calls@[j],
                    opts.mcp_rand_string_len,
                ),
        decreases tools.len() - i,
    {
        let arguments = create_tool_request(&tools[i].schema, opts);
        calls.push(ToolCall { name: tools[i].name.clone(), id: i as i64 + 100, arguments });
        i += 1;
    }
    calls
}

/// Texts are of the length that is asked for: a value of a schema that names the
/// type `string`, and neither a default, a constant nor variants, is a text of
/// that length.
pub proof fn law_text_length_is_kept(schema: JsonView, v: JsonView, n: usize, depth: nat)
    requires
        depth < 10,
        fits(schema, v, Some(n), depth),
        type_of(schema) == "string"@,
        json::member(schema, "default"@) is None,
        json::member(schema, "const"@) is None,
        !(json::member(schema, "enum"@) is Some),
    ensures
        v matches JsonView::Text(t) && t.len() == n,
{
}

/// Integers keep to their bounds: a value of a schema that names the type
/// `integer`, with a minimum below its maximum, and neither a default, a constant
/// nor variants, is at least the minimum and less than the maximum.
pub proof fn law_integers_keep_to_their_bounds(
    schema: JsonView,
    v: JsonView,
    lo: i64,
    hi: i64,
    len: Option<usize>,
    depth: nat,
)
    requires
        depth < 10,
        fits(schema, v, len, depth),
        type_of(schema) == "integer"@,
        int_member(schema, "minimum"@) == Some(lo),
        int_member(schema, "maximum"@) == Some(hi),
        lo < hi,
        json::member(schema, "default"@) is None,
        json::member(schema, "const"@) is None,
        !(json::member(schema, "enum"@) is Some),
    ensures
        v matches JsonView::Number(Num::Int(n)) && lo <= n < hi,
{
    reveal_strlit("integer");
    reveal_strlit("string");
    assert("integer"@.len() != "string"@.len());
}

proof fn lemma_types_differ()
    ensures
        "string"@ != "integer"@ && "string"@ != "number"@ && "string"@ != "boolean"@,
        "string"@ != "array"@ && "string"@ != "object"@ && "string"@ != "null"@,
        "integer"@ != "number"@ && "integer"@ != "boolean"@ && "integer"@ != "array"@,
        "integer"@ != "object"@ && "integer"@ != "null"@,
        "number"@ != "boolean"@ && "number"@ != "array"@ && "number"@ != "object"@,
        "number"@ != "null"@ && "boolean"@ != "array"@ && "boolean"@ != "object"@,
        "boolean"@ != "null"@ && "array"@ != "object"@ && "array"@ != "null"@,
        "object"@ != "null"@,
{
    reveal_strlit("string");
    reveal_strlit("integer");
    reveal_strlit("number");
    reveal_strlit("boolean");
    reveal_strlit("array");
    reveal_strlit("object");
    reveal_strlit("null");
    assert("string"@[0] == 's' && "integer"@[0] == 'i' && "number"@[0] == 'n');
    assert("boolean"@[0] == 'b' && "array"@[0] == 'a' && "object"@[0] == 'o');
    assert("null"@[0] == 'n' && "null"@.len() != "number"@.len());
}

/// Whether a schema leaves the value to its type: it is not too deep, and names
/// neither a default, a constant nor variants.
pub open spec fn leaves_it_to_the_type(schema: JsonView, depth: nat) -> bool {
    &&& depth < 10
    &&& json::member(schema, "default"@) is None
    &&& json::member(schema, "const"@) is None
    &&& json::member(schema, "enum"@) is None
}

/// An object has a member for each name that its schema requires and describes, and
/// the value of that member fits what the schema says of the name, one level deeper.
pub proof fn law_required_members_are_there(
    schema: JsonView,
    v: JsonView,
    len: Option<usize>,
    depth: nat,
    properties: Seq<(Seq<char>, JsonView)>,
    required: Seq<JsonView>,
    i: int,
    name: Seq<char>,
)
    requires
        leaves_it_to_the_type(schema, depth),
        type_of(schema) == "object"@,
        json::member(schema, "properties"@) == Some(JsonView::Object(properties)),
        json::member(schema, "required"@) == Some(JsonView::List(required)),
        fits(schema, v, len, depth),
        0 <= i < required.len(),
        required[i] == JsonView::Text(name),
        json::member(JsonView::Object(properties), name) is Some,
    ensures
        v is Object,
        exists|k: int|
            0 <= k < v->Object_0.len() && (#[trigger] v->Object_0[k]).0 == name && fits(
                json::member(JsonView::Object(properties), name)->0,
                v->Object_0[k].1,
                len,
                depth + 1,
            ),
{
    lemma_types_differ();
    assert(lists(required, name));
    let members = v->Object_0;
    let k = choose|k: int| 0 <= k < members.len() && (#[trigger] members[k]).0 == name;
    assert(members[k].0 == name);
    assert(fits(
        json::member(JsonView::Object(properties), members[k].0)->0,
        members[k].1,
        len,
        depth + 1,
    ));
}

/// An object has no other members, and none of them twice.
pub proof fn law_other_members_are_not_there(
    schema: JsonView,
    v: JsonView,
    len: Option<usize>,
    depth: nat,
    properties: Seq<(Seq<char>, JsonView)>,
    required: Seq<JsonView>,
    k: int,
)
    requires
        leaves_it_to_the_type(schema, depth),
        type_of(schema) == "object"@,
        json::member(schema, "properties"@) == Some(JsonView::Object(properties)),
        json::member(schema, "required"@) == Some(JsonView::List(required)),
        fits(schema, v, len, depth),
        v is Object,
        0 <= k < v->Object_0.len(),
    ensures
        required.contains(JsonView::Text(v->Object_0[k].0)),
        json::member(JsonView::Object(properties), v->Object_0[k].0) is Some,
        fits(
            json::member(JsonView::Object(properties), v->Object_0[k].0)->0,
            v->Object_0[k].1,
            len,
            depth + 1,
        ),
        forall|j: int|
            0 <= j < v->Object_0.len() && (#[trigger] v->Object_0[j]).0 == v->Object_0[k].0 ==> j == k,
{
    lemma_types_differ();
    let members = v->Object_0;
    assert(lists(required, members[k].0));
    assert forall|j: int| 0 <= j < members.len() && (#[trigger] members[j]).0 == members[k].0 implies j
        == k by {
        if j < k {
            assert(members[j].0 != members[k].0);
        }
        if k < j {
            assert(members[k].0 != members[j].0);
        }
    }
}

/// An object whose schema lacks the list of what is required, or the descriptions,
/// has no members.
pub proof fn law_undescribed_object_is_empty(
    schema: JsonView,
    v: JsonView,
    len: Option<usize>,
    depth: nat,
)
    requires
        leaves_it_to_the_type(schema, depth),
        type_of(schema) == "object"@,
        !(json::member(schema, "properties"@) matches Some(p) && p is Object) || !(json::member(
            schema,
            "required"@,
        ) matches Some(l) && l is List),
        fits(schema, v, len, depth),
    ensures
        v is Object,
        v->Object_0.len() == 0,
{
    lemma_types_differ();
}

/// An array has one to three items, and each of them fits what the schema says of an
/// item, one level deeper. Where it says nothing, an item is the text `sample`, an
/// integer from -100 to 99, or true or false.
pub proof fn law_items_fit(schema: JsonView, v: JsonView, len: Option<usize>, depth: nat, k: int)
    requires
        leaves_it_to_the_type(schema, depth),
        type_of(schema) == "array"@,
        fits(schema, v, len, depth),
    ensures
        v is List,
        1 <= v->List_0.len() <= 3,
        0 <= k < v->List_0.len() ==> match json::member(schema, "items"@) {
            Some(s) => fits(s, v->List_0[k], len, depth + 1),
            None => match v->List_0[k] {
                JsonView::Text(t) => t == "sample"@,
                JsonView::Number(Num::Int(n)) => -100 <= n <= 99,
                JsonView::Bool(_) => true,
                _ => false,
            },
        },
{
    lemma_types_differ();
    if 0 <= k < v->List_0.len() {
        match json::member(schema, "items"@) {
            Some(s) => {
                assert(fits(s, v->List_0[k], len, depth + 1));
            },
            None => {
                assert(primitive(v->List_0[k]));
            },
        }
    }
}

/// What a schema fixes comes before its type: the default before the constant, and
/// both before the variants, one of which is taken.
pub proof fn law_fixed_values_come_first(
    schema: JsonView,
    v: JsonView,
    w: JsonView,
    variants: Seq<JsonView>,
    len: Option<usize>,
    depth: nat,
)
    requires
        depth < 10,
        fits(schema, v, len, depth),
    ensures
        json::member(schema, "default"@) == Some(w) ==> v == w,
        json::member(schema, "default"@) is None && json::member(schema, "const"@) == Some(w) ==> v == w,
        json::member(schema, "default"@) is None && json::member(schema, "const"@) is None
            && json::member(schema, "enum"@) == Some(JsonView::List(variants)) && variants.len() > 0
            ==> variants.contains(v),
{
}

/// What is nested ten deep or deeper is null.
pub proof fn law_depth_is_limited(schema: JsonView, v: JsonView, len: Option<usize>, depth: nat)
    requires
        depth >= 10,
    ensures
        fits(schema, v, len, depth) <==> v == JsonView::Null,
{
}

/// The value of a schema that leaves it to its type is of that type: a text of
/// letters and digits, from 5 to 19 unless a length is asked for; an integer from 0 to
/// 999 unless the bounds say otherwise; a number still to be drawn between its bounds;
/// true or false; null; and the empty text for a type that is none of these.
pub proof fn law_value_is_of_the_type(
    schema: JsonView,
    v: JsonView,
    n: Num,
    len: Option<usize>,
    depth: nat,
)
    requires
        leaves_it_to_the_type(schema, depth),
        fits(schema, v, len, depth),
    ensures
        type_of(schema) == "string"@ ==> (v is Text && forall|i: int|
            0 <= i < v->Text_0.len() ==> {
                let c = #[trigger] v->Text_0[i];
                'a' <= c <= 'z' || 'A' <= c <= 'Z' || '0' <= c <= '9'
            }),
        type_of(schema) == "string"@ && len is None ==> 5 <= v->Text_0.len() <= 19,
        type_of(schema) == "string"@ && len is Some ==> v->Text_0.len() == len->0,
        type_of(schema) == "integer"@ ==> v is Number && v->Number_0 is Int,
        type_of(schema) == "integer"@ && json::member(schema, "minimum"@) is None && json::member(
            schema,
            "maximum"@,
        ) is None ==> 0 <= v->Number_0->Int_0 <= 999,
        type_of(schema) == "number"@ ==> v is Draw,
        type_of(schema) == "number"@ && json::member(schema, "minimum"@) == Some(JsonView::Number(n))
            ==> v->Draw_0 == Some(n),
        type_of(schema) == "number"@ && json::member(schema, "maximum"@) == Some(JsonView::Number(n))
            ==> v->Draw_1 == Some(n),
        type_of(schema) == "number"@ && json::member(schema, "minimum"@) is None ==> v->Draw_0 is None,
        type_of(schema) == "number"@ && json::member(schema, "maximum"@) is None ==> v->Draw_1 is None,
        type_of(schema) == "boolean"@ ==> v is Bool,
        type_of(schema) == "null"@ ==> v is Null,
        !seq![
            "string"@,
            "integer"@,
            "number"@,
            "boolean"@,
            "array"@,
            "object"@,
            "null"@,
        ].contains(type_of(schema)) ==> (v is Text && v->Text_0.len() == 0),
{
    lemma_types_differ();
    let known = seq![
        "string"@,
        "integer"@,
        "number"@,
        "boolean"@,
        "array"@,
        "object"@,
        "null"@,
    ];
    assert(known[0] == "string"@ && known[1] == "integer"@ && known[2] == "number"@);
    assert(known[3] == "boolean"@ && known[4] == "array"@ && known[5] == "object"@);
    assert(known[6] == "null"@);
}

/// Bounds of an integer hold each by itself, where they leave room: a lower bound
/// alone with 1000 above it, an upper bound alone with 0 below it. Without room they
/// are passed over.
pub proof fn law_bounds_of_integers(
    schema: JsonView,
    v: JsonView,
    lo: i64,
    hi: i64,
    len: Option<usize>,
    depth: nat,
)
    requires
        leaves_it_to_the_type(schema, depth),
        fits(schema, v, len, depth),
        type_of(schema) == "integer"@,
        json::member(schema, "minimum"@) == Some(JsonView::Number(Num::Int(lo))) || (lo == 0
            && json::member(schema, "minimum"@) is None),
        json::member(schema, "maximum"@) == Some(JsonView::Number(Num::Int(hi))) || (hi == 1000
            && json::member(schema, "maximum"@) is None),
    ensures
        v is Number && v->Number_0 is Int,
        lo < hi ==> lo <= v->Number_0->Int_0 < hi,
        lo >= hi ==> 0 <= v->Number_0->Int_0 < 1000,
{
    lemma_types_differ();
}

/// The type is the one that a schema names, the first of several that is not
/// `null`, and `string` where it names none.
pub proof fn law_type_is_the_named_one(schema: JsonView, t: Seq<char>, types: Seq<JsonView>, k: int)
    ensures
        json::member(schema, "type"@) == Some(JsonView::Text(t)) ==> type_of(schema) == t,
        json::member(schema, "type"@) is None ==> type_of(schema) == "string"@,
        json::member(schema, "type"@) == Some(JsonView::List(types)) && 0 <= k < types.len() && types[k]
            == JsonView::Text(t) && t != "null"@ && (forall|i: int|
            0 <= i < k ==> #[trigger] types[i] == JsonView::Text("null"@)) ==> type_of(schema) == t,
        json::member(schema, "type"@) == Some(JsonView::List(types)) && (forall|i: int|
            0 <= i < types.len() ==> #[trigger] types[i] == JsonView::Text("null"@)) ==> type_of(schema)
            == "string"@,
{
    lemma_first_type(types, k, t);
}

proof fn lemma_first_type(types: Seq<JsonView>, k: int, t: Seq<char>)
    ensures
        0 <= k < types.len() && types[k] == JsonView::Text(t) && t != "null"@ && (forall|i: int|
            0 <= i < k ==> #[trigger] types[i] == JsonView::Text("null"@)) ==> first_type(types) == t,
        (forall|i: int| 0 <= i < types.len() ==> #[trigger] types[i] == JsonView::Text("null"@))
            ==> first_type(types) == "string"@,
    decreases types.len(),
{
    if types.len() > 0 {
        let rest = types.drop_first();
        lemma_first_type(rest, k - 1, t);
        assert forall|i: int| 0 <= i < rest.len() implies #[trigger] rest[i] == types[i + 1] by {}
        assert(types.first() == types[0]);
    }
}

/// The arguments of a call are exactly those that its schema requires, each with a
/// value that fits. A schema that requires what it does not describe says nothing of
/// the arguments.
pub proof fn law_arguments_are_those_required(
    schema: JsonView,
    v: JsonView,
    len: Option<usize>,
    properties: Seq<(Seq<char>, JsonView)>,
    required: Seq<JsonView>,
    i: int,
    name: Seq<char>,
)
    requires
        json::member(schema, "properties"@) == Some(JsonView::Object(properties)),
        json::member(schema, "required"@) == Some(JsonView::List(required)),
        0 <= i < required.len(),
        required[i] == JsonView::Text(name),
    ensures
        json::member(JsonView::Object(properties), name) is None ==> !describes_arguments(schema),
        can_be_arguments(schema, v, len) ==> v is Object,
        describes_arguments(schema) && can_be_arguments(schema, v, len) ==> exists|k: int|
            0 <= k < v->Object_0.len() && (#[trigger] v->Object_0[k]).0 == name && fits(
                json::member(JsonView::Object(properties), name)->0,
                v->Object_0[k].1,
                len,
                0,
            ),
        can_be_arguments(schema, v, len) ==> forall|k: int|
            0 <= k < v->Object_0.len() ==> required.contains(
                JsonView::Text((#[trigger] v->Object_0[k]).0),
            ),
{
    assert(lists(required, name));
    if can_be_arguments(schema, v, len) {
        let members = v->Object_0;
        if describes_arguments(schema) {
            let k = choose|k: int| 0 <= k < members.len() && (#[trigger] members[k]).0 == name;
            assert(members[k].0 == name);
        }
        assert forall|k: int| 0 <= k < members.len() implies required.contains(
            JsonView::Text((#[trigger] members[k]).0),
        ) by {
            assert(lists(required, members[k].0));
        }
    }
}

/// A schema says what the arguments are where it describes all that it requires, and
/// not where it lacks the list or the descriptions.
pub proof fn law_described_arguments(
    schema: JsonView,
    properties: Seq<(Seq<char>, JsonView)>,
    required: Seq<JsonView>,
)
    ensures
        json::member(schema, "required"@) is None ==> !describes_arguments(schema),
        json::member(schema, "properties"@) is None ==> !describes_arguments(schema),
        json::member(schema, "properties"@) == Some(JsonView::Object(properties)) && json::member(
            schema,
            "required"@,
        ) == Some(JsonView::List(required)) && (forall|i: int|
            0 <= i < required.len() ==> (#[trigger] required[i] matches JsonView::Text(name)
                ==> json::member(JsonView::Object(properties), name) is Some)) ==> describes_arguments(
            schema,
        ),
{
    if forall|i: int|
        0 <= i < required.len() ==> (#[trigger] required[i] matches JsonView::Text(name)
            ==> json::member(JsonView::Object(properties), name) is Some) {
        assert forall|name: Seq<char>| #[trigger] lists(required, name) implies json::member(
            JsonView::Object(properties),
            name,
        ) is Some by {
            let i = choose|i: int|
                0 <= i < required.len() && #[trigger] required[i] == JsonView::Text(name);
            assert(required[i] == JsonView::Text(name));
        }
    }
}

/// The call of the tool at place `i` has its name and the number 100 + `i`, so calls
/// of different tools have different numbers, and has arguments exactly where the
/// schema says what they are.
pub proof fn law_call_is_for_its_tool(
    tool: ToolView,
    i: int,
    call: ToolCall,
    j: int,
    other: ToolCall,
    len: Option<usize>,
)
    requires
        can_be_call(tool, i, call, len),
    ensures
        call.name@ == tool.0,
        call.id == 100 + i,
        can_be_call(tool, j, other, len) && i != j ==> call.id != other.id,
        call.arguments is Some <==> describes_arguments(tool.1),
        call.arguments is Some ==> can_be_arguments(tool.1, call.arguments->0.value(), len),
{
}

/// The items that are drawn for an array fit one by one, from the first to the last, what
/// the schema says of an item. Where it says nothing they are of the plain kinds.
pub proof fn law_drawn_items_fit(
    items: Seq<Json>,
    schema: JsonView,
    len: Option<usize>,
    depth: nat,
    i: int,
)
    requires
        0 <= i < items.len(),
    ensures
        items_fit(items, Some(schema), len, depth) ==> fits(schema, items[i].value(), len, depth),
        items_fit(items, None, len, depth) ==> match items[i].value() {
            JsonView::Text(t) => t == "sample"@,
            JsonView::Number(Num::Int(n)) => -100 <= n <= 99,
            JsonView::Bool(_) => true,
            _ => false,
        },
{
    if items_fit(items, None, len, depth) {
        assert(primitive(items[i].value()));
    }
}

/// A plain value is a text, an integer or a truth value, as the kind says, and holds what
/// was drawn for it.
pub proof fn law_plain_kinds(kind: i64, n: i64, coin: bool)
    ensures
        primitive_of(0, n, coin) is Text,
        primitive_of(1, n, coin) == JsonView::Number(Num::Int(n)),
        primitive_of(2, n, coin) == JsonView::Number(Num::Int(n)),
        primitive_of(3, n, coin) == JsonView::Bool(coin),
{
}

/// Every place of a list can be drawn, as far as places can be numbered.
pub proof fn law_every_place_can_be_drawn(len: nat)
    ensures
        len <= i64::MAX ==> place_bound(len) == len,
        len > i64::MAX ==> place_bound(len) == i64::MAX,
{
}

} // verus!
