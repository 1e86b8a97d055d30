//! JSON values, and their text as `serde_json` reads and writes it.
use crate::error::{Error, Failure};
use vstd::prelude::*;
use vstd::utf8;

verus! {

/// A JSON value.
#[derive(Debug, PartialEq)]
pub enum Json {
    Null,
    Bool(bool),
    /// A number that is a natural number.
    Uint(u64),
    /// A number that is an integer; one that is not negative is the same as a
    /// `Uint`.
    Int(i64),
    /// A number of any kind; one that is an integer is the same as a `Uint` or
    /// an `Int`.
    Real(serde_json::Number),
    Str(String),
    Array(Vec<Json>),
    /// Of the entries with one key, the last counts.
    Object(Vec<(String, Json)>),
}

/// What a JSON value is: an object is a map, without an order of its keys.
#[verifier::ext_equal]
pub enum JsonView {
    Null,
    Bool(bool),
    Uint(u64),
    Int(i64),
    Real(serde_json::Number),
    Str(Seq<char>),
    Array(Seq<JsonView>),
    Object(Map<Seq<char>, JsonView>),
}

/// `serde_json::Value`, a parsed JSON text.
#[verifier::external_type_specification]
#[verifier::external_body]
pub struct ExValue(serde_json::Value);

/// `serde_json::Number`, a JSON number.
#[verifier::external_type_specification]
#[verifier::external_body]
pub struct ExNumber(serde_json::Number);

/// `serde_json::Map`, the entries of a JSON object.
#[verifier::external_type_specification]
#[verifier::external_body]
#[verifier::reject_recursive_types(K)]
#[verifier::reject_recursive_types(V)]
pub struct ExJsonMap<K, V>(serde_json::Map<K, V>);

/// What a `serde_json::Value` holds.
pub uninterp spec fn value_json(v: serde_json::Value) -> JsonView;

/// The number as a natural number below 2^64, where it is one.
pub uninterp spec fn number_u64(n: serde_json::Number) -> Option<u64>;

/// The number as an integer of 64 bits with a sign, where it is one.
pub uninterp spec fn number_i64(n: serde_json::Number) -> Option<i64>;

/// What the entries of a `serde_json::Map` are.
pub uninterp spec fn object_json(
    m: serde_json::Map<String, serde_json::Value>,
) -> Map<Seq<char>, JsonView>;

/// The compact text of a JSON value.
pub uninterp spec fn json_text(v: JsonView) -> Seq<char>;

/// What reading `bytes` as one JSON text gives: the value, or the message of
/// the error.
pub uninterp spec fn json_parse(bytes: Seq<u8>) -> Result<JsonView, Seq<char>>;

/// What a number is: an integer is told by its value.
pub open spec fn number_view(n: serde_json::Number) -> JsonView {
    match (number_u64(n), number_i64(n)) {
        (Some(u), _) => JsonView::Uint(u),
        (None, Some(i)) => JsonView::Int(i),
        (None, None) => JsonView::Real(n),
    }
}

/// What a value is.
pub open spec fn json_view(j: Json) -> JsonView
    decreases j,
{
    match j {
        Json::Null => JsonView::Null,
        Json::Bool(b) => JsonView::Bool(b),
        Json::Uint(n) => JsonView::Uint(n),
        Json::Int(n) => if n < 0 {
            JsonView::Int(n)
        } else {
            JsonView::Uint(n as u64)
        },
        Json::Real(n) => number_view(n),
        Json::Str(s) => JsonView::Str(s@),
        Json::Array(items) => JsonView::Array(items_view(items@)),
        Json::Object(entries) => JsonView::Object(entries_view(entries@)),
    }
}

/// What each item of an array is.
pub open spec fn items_view(items: Seq<Json>) -> Seq<JsonView>
    decreases items,
{
    if items.len() == 0 {
        Seq::empty()
    } else {
        items_view(items.drop_last()).push(json_view(items.last()))
    }
}

/// What the entries of an object are.
pub open spec fn entries_view(entries: Seq<(String, Json)>) -> Map<Seq<char>, JsonView>
    decreases entries,
{
    if entries.len() == 0 {
        Map::empty()
    } else {
        entries_view(entries.drop_last()).insert(entries.last().0@, json_view(entries.last().1))
    }
}

impl View for Json {
    type V = JsonView;

    open spec fn view(&self) -> JsonView {
        json_view(*self)
    }
}

/// Whether arrays and objects stand in one another at most `depth` deep in `v`.
pub open spec fn nested(v: JsonView, depth: nat) -> bool
    decreases depth,
{
    match v {
        JsonView::Array(items) => depth > 0 && forall|i: int|
            0 <= i < items.len() ==> nested(#[trigger] items[i], (depth - 1) as nat),
        JsonView::Object(entries) => depth > 0 && forall|k: Seq<char>|
            entries.dom().contains(k) ==> nested(#[trigger] entries[k], (depth - 1) as nat),
        _ => true,
    }
}

/// What is nested at most `depth` deep is nested at most `more` deep.
pub proof fn nested_at_most(v: JsonView, depth: nat, more: nat)
    requires
        nested(v, depth),
        depth <= more,
    ensures
        nested(v, more),
    decreases depth,
{
    match v {
        JsonView::Array(items) => {
            assert forall|i: int| 0 <= i < items.len() implies nested(
                #[trigger] items[i],
                (more - 1) as nat,
            ) by {
                nested_at_most(items[i], (depth - 1) as nat, (more - 1) as nat);
            }
        },
        JsonView::Object(entries) => {
            assert forall|k: Seq<char>| entries.dom().contains(k) implies nested(
                #[trigger] entries[k],
                (more - 1) as nat,
            ) by {
                nested_at_most(entries[k], (depth - 1) as nat, (more - 1) as nat);
            }
        },
        _ => {},
    }
}

/// Whether `v` and `w` are the same but for the digits of the numbers that are
/// no integers, down to `depth`.
pub open spec fn alike(v: JsonView, w: JsonView, depth: nat) -> bool
    decreases depth,
{
    match (v, w) {
        (JsonView::Real(_), JsonView::Real(_)) => true,
        (JsonView::Array(a), JsonView::Array(b)) => depth > 0 && a.len() == b.len()
            && forall|i: int|
            0 <= i < a.len() ==> alike(#[trigger] a[i], b[i], (depth - 1) as nat),
        (JsonView::Object(a), JsonView::Object(b)) => depth > 0 && a.dom() == b.dom()
            && forall|k: Seq<char>|
            a.dom().contains(k) ==> alike(#[trigger] a[k], b[k], (depth - 1) as nat),
        _ => v == w,
    }
}

/// Whether the text of `v` is read back as `v`: arrays and objects stand in one
/// another at most `depth` deep, and every number is an integer.
pub open spec fn reads_back(v: JsonView, depth: nat) -> bool
    decreases depth,
{
    match v {
        JsonView::Real(_) => false,
        JsonView::Array(items) => depth > 0 && forall|i: int|
            0 <= i < items.len() ==> reads_back(#[trigger] items[i], (depth - 1) as nat),
        JsonView::Object(entries) => depth > 0 && forall|k: Seq<char>|
            entries.dom().contains(k) ==> reads_back(#[trigger] entries[k], (depth - 1) as nat),
        _ => true,
    }
}

/// Where every number is an integer, values that are alike are the same.
pub proof fn alike_is_same(v: JsonView, w: JsonView, depth: nat)
    requires
        reads_back(v, depth),
    ensures
        nested(v, depth),
        alike(v, w, depth) ==> v == w,
    decreases depth,
{
    match v {
        JsonView::Array(a) => {
            assert forall|i: int| 0 <= i < a.len() implies nested(
                #[trigger] a[i],
                (depth - 1) as nat,
            ) by {
                alike_is_same(a[i], a[i], (depth - 1) as nat);
            }
            if alike(v, w, depth) {
                let b = w->Array_0;
                assert forall|i: int| 0 <= i < a.len() implies #[trigger] a[i] == b[i] by {
                    alike_is_same(a[i], b[i], (depth - 1) as nat);
                }
                assert(a =~= b);
            }
        },
        JsonView::Object(a) => {
            assert forall|k: Seq<char>| a.dom().contains(k) implies nested(
                #[trigger] a[k],
                (depth - 1) as nat,
            ) by {
                alike_is_same(a[k], a[k], (depth - 1) as nat);
            }
            if alike(v, w, depth) {
                let b = w->Object_0;
                assert forall|k: Seq<char>| a.dom().contains(k) implies #[trigger] a[k] == b[k] by {
                    alike_is_same(a[k], b[k], (depth - 1) as nat);
                }
                assert(a =~= b);
            }
        },
        _ => {},
    }
}

/// How deep arrays and objects may stand in one another for `serde_json` to
/// read them.
pub const MAX_DEPTH: u8 = 127;

/// One layer of a value: what a `serde_json::Value` is made of.
enum Node {
    Null,
    Bool(bool),
    Number(serde_json::Number),
    Str(String),
    Array(Vec<serde_json::Value>),
    Object(serde_json::Map<String, serde_json::Value>),
}

/// The value that a layer is the outermost one of.
spec fn node_json(n: Node) -> JsonView {
    match n {
        Node::Null => JsonView::Null,
        Node::Bool(b) => JsonView::Bool(b),
        Node::Number(n) => number_view(n),
        Node::Str(s) => JsonView::Str(s@),
        Node::Array(items) => JsonView::Array(
            items@.map_values(|item: serde_json::Value| value_json(item)),
        ),
        Node::Object(m) => JsonView::Object(object_json(m)),
    }
}

/// The outcome of reading a JSON text, as a value and characters.
spec fn parse_outcome(r: Result<serde_json::Value, String>) -> Result<JsonView, Seq<char>> {
    match r {
        Ok(v) => Ok(value_json(v)),
        Err(e) => Err(e@),
    }
}

/// `serde_json::Number::clone`: the same number.
pub assume_specification[ <serde_json::Number as Clone>::clone ](
    n: &serde_json::Number,
) -> (r: serde_json::Number)
    ensures
        r == *n,
;

/// `serde_json::Number::as_u64`: the named natural number.
pub assume_specification[ serde_json::Number::as_u64 ](n: &serde_json::Number) -> (r: Option<u64>)
    ensures
        r == number_u64(*n),
;

/// `serde_json::Number::as_i64`: the named integer. One that is not negative is
/// what `as_u64` gives, too.
pub assume_specification[ serde_json::Number::as_i64 ](n: &serde_json::Number) -> (r: Option<i64>)
    ensures
        r == number_i64(*n),
        r matches Some(i) ==> i >= 0 ==> number_u64(*n) == Some(i as u64),
;

/// `serde_json::Number::from` on a natural number: `as_u64` gives it back.
#[verifier::external_body]
fn number_from_u64(u: u64) -> (r: serde_json::Number)
    ensures
        number_u64(r) == Some(u),
{
    serde_json::Number::from(u)
}

/// `serde_json::Number::from` on an integer: `as_i64` gives it back, and so does
/// `as_u64` where it is not negative.
#[verifier::external_body]
fn number_from_i64(i: i64) -> (r: serde_json::Number)
    ensures
        number_i64(r) == Some(i),
        number_u64(r) == if i >= 0 { Some(i as u64) } else { None },
{
    serde_json::Number::from(i)
}

/// The variants of `serde_json::Value`, told apart: a value is its outermost
/// layer.
#[verifier::external_body]
fn open_value(v: serde_json::Value) -> (r: Node)
    ensures
        node_json(r) == value_json(v),
{
    match v {
        serde_json::Value::Null => Node::Null,
        serde_json::Value::Bool(b) => Node::Bool(b),
        serde_json::Value::Number(n) => Node::Number(n),
        serde_json::Value::String(s) => Node::Str(s),
        serde_json::Value::Array(items) => Node::Array(items),
        serde_json::Value::Object(m) => Node::Object(m),
    }
}

/// The variants of `serde_json::Value`, made: the value is the one that the
/// layer is the outermost one of.
#[verifier::external_body]
fn close_value(n: Node) -> (r: serde_json::Value)
    ensures
        value_json(r) == node_json(n),
{
    match n {
        Node::Null => serde_json::Value::Null,
        Node::Bool(b) => serde_json::Value::Bool(b),
        Node::Number(n) => serde_json::Value::Number(n),
        Node::Str(s) => serde_json::Value::String(s),
        Node::Array(items) => serde_json::Value::Array(items),
        Node::Object(m) => serde_json::Value::Object(m),
    }
}

/// `serde_json::Map::new`: no entries.
#[verifier::external_body]
fn map_new() -> (r: serde_json::Map<String, serde_json::Value>)
    ensures
        forall|k: Seq<char>| !#[trigger] object_json(r).dom().contains(k),
{
    serde_json::Map::new()
}

/// `serde_json::Map::insert`: the key then has the value, in place of the one
/// that it had.
#[verifier::external_body]
fn map_insert(
    m: &mut serde_json::Map<String, serde_json::Value>,
    key: String,
    v: serde_json::Value,
)
    ensures
        object_json(*final(m)) == object_json(*old(m)).insert(key@, value_json(v)),
{
    m.insert(key, v);
}

/// `serde_json::Map::into_iter`, gathered: every entry, each key once.
#[verifier::external_body]
fn map_entries(m: serde_json::Map<String, serde_json::Value>) -> (r: Vec<
    (String, serde_json::Value),
>)
    ensures
        forall|i: int, j: int| 0 <= i < j < r@.len() ==> #[trigger] r@[i].0@ != #[trigger] r@[j].0@,
        forall|i: int| 0 <= i < r@.len() ==> object_json(m).dom().contains(#[trigger] r@[i].0@),
        forall|i: int| 0 <= i < r@.len() ==> object_json(m)[#[trigger] r@[i].0@] == value_json(r@[i].1),
        forall|k: Seq<char>| #[trigger]
            object_json(m).dom().contains(k) ==> exists|i: int|
                0 <= i < r@.len() && #[trigger] r@[i].0@ == k,
{
    m.into_iter().collect()
}

/// `serde_json::Value::to_string`: the named text of what the value holds. It is
/// not empty, and is read back unless the value is too deep; a number that is
/// no integer may then have other digits.
#[verifier::external_body]
fn value_text(v: &serde_json::Value) -> (r: String)
    ensures
        r@ == json_text(value_json(*v)),
        r@.len() > 0,
        nested(value_json(*v), MAX_DEPTH as nat) ==> json_parse(utf8::encode_utf8(r@)) is Ok && alike(
            value_json(*v),
            json_parse(utf8::encode_utf8(r@))->Ok_0,
            MAX_DEPTH as nat,
        ),
{
    v.to_string()
}

/// `serde_json::from_slice` into a `serde_json::Value`: the named outcome, the
/// error told by its message.
#[verifier::external_body]
fn value_parse(bytes: &[u8]) -> (r: Result<serde_json::Value, String>)
    ensures
        parse_outcome(r) == json_parse(bytes@),
{
    serde_json::from_slice(bytes).map_err(|e| e.to_string())
}

/// The items of an array are what its items are, one by one.
pub proof fn items_view_index(items: Seq<Json>)
    ensures
        items_view(items).len() == items.len(),
        forall|i: int|
            0 <= i < items.len() ==> #[trigger] items_view(items)[i] == json_view(items[i]),
    decreases items.len(),
{
    if items.len() > 0 {
        items_view_index(items.drop_last());
    }
}

/// An entry whose key does not occur again counts.
proof fn entries_view_index(entries: Seq<(String, Json)>)
    requires
        forall|i: int, j: int|
            0 <= i < j < entries.len() ==> #[trigger] entries[i].0@ != #[trigger] entries[j].0@,
    ensures
        forall|i: int|
            0 <= i < entries.len() ==> entries_view(entries).dom().contains(
                #[trigger] entries[i].0@,
            ) && entries_view(entries)[entries[i].0@] == json_view(entries[i].1),
        forall|k: Seq<char>| #[trigger]
            entries_view(entries).dom().contains(k) ==> exists|i: int|
                0 <= i < entries.len() && #[trigger] entries[i].0@ == k,
    decreases entries.len(),
{
    if entries.len() > 0 {
        let init = entries.drop_last();
        entries_view_index(init);
        assert forall|i: int| 0 <= i < entries.len() implies entries_view(entries).dom().contains(
            #[trigger] entries[i].0@,
        ) && entries_view(entries)[entries[i].0@] == json_view(entries[i].1) by {
            if i < init.len() {
                assert(init[i] == entries[i]);
                assert(entries[i].0@ != entries[init.len() as int].0@);
            }
        }
        assert forall|k: Seq<char>| #[trigger]
            entries_view(entries).dom().contains(k) implies exists|i: int|
            0 <= i < entries.len() && #[trigger] entries[i].0@ == k by {
            if k == entries.last().0@ {
                assert(entries[entries.len() - 1].0@ == k);
            } else {
                assert(entries_view(init).dom().contains(k));
                let i = choose|i: int| 0 <= i < init.len() && #[trigger] init[i].0@ == k;
                assert(entries[i].0@ == k);
            }
        }
    }
}

/// The value that `v` holds.
fn json_from_value(v: serde_json::Value) -> (r: Json)
    ensures
        r@ == value_json(v),
    decreases value_json(v),
{
    match open_value(v) {
        Node::Null => Json::Null,
        Node::Bool(b) => Json::Bool(b),
        Node::Number(n) => match n.as_u64() {
            Some(u) => Json::Uint(u),
            None => match n.as_i64() {
                Some(i) => Json::Int(i),
                None => Json::Real(n),
            },
        },
        Node::Str(s) => Json::Str(s),
        Node::Array(items) => {
            let ghost all = items@;
            let mut out: Vec<Json> = Vec::new();
            for item in it: items
                invariant
                    it.seq() == all,
                    value_json(v) == JsonView::Array(
                        all.map_values(|item: serde_json::Value| value_json(item)),
                    ),
                    out@.len() == it.index(),
                    forall|i: int|
                        0 <= i < out@.len() ==> (#[trigger] out@[i])@ == value_json(all[i]),
            {
                proof {
                    let model = value_json(v)->Array_0;
                    assert(model[it.index()] == value_json(item));
                    assert(decreases_to!(value_json(v) => model));
                    assert(decreases_to!(model => model[it.index()]));
                }
                out.push(json_from_value(item));
            }
            proof {
                items_view_index(out@);
                assert(items_view(out@) =~= all.map_values(
                    |item: serde_json::Value| value_json(item),
                ));
            }
            Json::Array(out)
        },
        Node::Object(m) => {
            let ghost model = object_json(m);
            let entries = map_entries(m);
            let ghost all = entries@;
            proof {
                let keys = all.map_values(|e: (String, serde_json::Value)| e.0@);
                assert forall|k: Seq<char>| model.dom().contains(k) implies keys.to_set().contains(
                    k,
                ) by {
                    let i = choose|i: int| 0 <= i < all.len() && #[trigger] all[i].0@ == k;
                    assert(keys[i] == k);
                }
                vstd::seq_lib::seq_to_set_is_finite(keys);
                vstd::set_lib::lemma_set_subset_finite(keys.to_set(), model.dom());
            }
            let mut out: Vec<(String, Json)> = Vec::new();
            for entry in it: entries
                invariant
                    it.seq() == all,
                    value_json(v) == JsonView::Object(model),
                    model.dom().finite(),
                    forall|i: int|
                        0 <= i < all.len() ==> model.dom().contains(#[trigger] all[i].0@)
                            && model[all[i].0@] == value_json(all[i].1),
                    out@.len() == it.index(),
                    forall|i: int|
                        0 <= i < out@.len() ==> (#[trigger] out@[i]).0@ == all[i].0@
                            && out@[i].1@ == value_json(all[i].1),
            {
                proof {
                    assert(model.dom().contains(all[it.index()].0@));
                    assert(decreases_to!(value_json(v) => value_json(v)->Object_0));
                    assert(decreases_to!(model => model[all[it.index()].0@]));
                }
                let (key, item) = entry;
                let j = json_from_value(item);
                out.push((key, j));
            }
            proof {
                assert forall|i: int, j: int| 0 <= i < j < out@.len() implies #[trigger] out@[i].0@
                    != #[trigger] out@[j].0@ by {
                    assert(all[i].0@ != all[j].0@);
                }
                entries_view_index(out@);
                assert(entries_view(out@) =~= model) by {
                    assert forall|k: Seq<char>|
                        entries_view(out@).dom().contains(k) <==> model.dom().contains(k) by {
                        if entries_view(out@).dom().contains(k) {
                            let i = choose|i: int|
                                0 <= i < out@.len() && #[trigger] out@[i].0@ == k;
                            assert(all[i].0@ == k);
                        }
                        if model.dom().contains(k) {
                            let i = choose|i: int| 0 <= i < all.len() && #[trigger] all[i].0@ == k;
                            assert(out@[i].0@ == k);
                        }
                    }
                    assert forall|k: Seq<char>|
                        entries_view(out@).dom().contains(k) implies entries_view(out@)[k]
                        == model[k] by {
                        let i = choose|i: int| 0 <= i < out@.len() && #[trigger] out@[i].0@ == k;
                        assert(all[i].0@ == k);
                    }
                }
            }
            Json::Object(out)
        },
    }
}

/// `j` as a `serde_json::Value`.
fn json_to_value(j: &Json) -> (r: serde_json::Value)
    ensures
        value_json(r) == j@,
    decreases j,
{
    match j {
        Json::Null => close_value(Node::Null),
        Json::Bool(b) => close_value(Node::Bool(*b)),
        Json::Uint(n) => close_value(Node::Number(number_from_u64(*n))),
        Json::Int(n) => close_value(Node::Number(number_from_i64(*n))),
        Json::Real(n) => close_value(Node::Number(n.clone())),
        Json::Str(s) => close_value(Node::Str(s.clone())),
        Json::Array(items) => {
            let mut out: Vec<serde_json::Value> = Vec::new();
            let mut i: usize = 0;
            while i < items.len()
                invariant
                    *j == Json::Array(*items),
                    i <= items@.len(),
                    out@.len() == i,
                    forall|k: int| 0 <= k < i ==> value_json(#[trigger] out@[k]) == items@[k]@,
                decreases items.len() - i,
            {
                proof {
                    assert(decreases_to!(*j => j->Array_0));
                    assert(decreases_to!(*items => items@));
                    assert(decreases_to!(items@ => items@[i as int]));
                }
                let v = json_to_value(&items[i]);
                out.push(v);
                i += 1;
            }
            proof {
                items_view_index(items@);
                assert(items_view(items@) =~= out@.map_values(
                    |item: serde_json::Value| value_json(item),
                ));
            }
            close_value(Node::Array(out))
        },
        Json::Object(entries) => {
            let mut out = map_new();
            let mut i: usize = 0;
            assert(object_json(out) =~= entries_view(entries@.take(0)));
            while i < entries.len()
                invariant
                    *j == Json::Object(*entries),
                    i <= entries@.len(),
                    object_json(out) == entries_view(entries@.take(i as int)),
                decreases entries.len() - i,
            {
                proof {
                    assert(decreases_to!(*j => j->Object_0));
                    assert(decreases_to!(*entries => entries@));
                    assert(decreases_to!(entries@ => entries@[i as int]));
                    assert(decreases_to!(entries@[i as int] => entries@[i as int].1));
                }
                let v = json_to_value(&entries[i].1);
                map_insert(&mut out, entries[i].0.clone(), v);
                proof {
                    let next = entries@.take(i + 1);
                    assert(next.drop_last() =~= entries@.take(i as int));
                }
                i += 1;
            }
            assert(entries@.take(i as int) =~= entries@);
            close_value(Node::Object(out))
        },
    }
}

/// The compact text of `j`.
pub fn render(j: &Json) -> (r: String)
    ensures
        r@ == json_text(j@),
        r@.len() > 0,
        utf8::encode_utf8(r@).len() > 0,
        // The text is read back, but for the digits of numbers that are no
        // integers.
        nested(j@, MAX_DEPTH as nat) ==> json_parse(utf8::encode_utf8(r@)) is Ok && alike(
            j@,
            json_parse(utf8::encode_utf8(r@))->Ok_0,
            MAX_DEPTH as nat,
        ),
        reads_back(j@, MAX_DEPTH as nat) ==> json_parse(utf8::encode_utf8(r@)) is Ok && json_parse(
            utf8::encode_utf8(r@),
        )->Ok_0 == j@,
{
    let v = json_to_value(j);
    let out = value_text(&v);
    proof {
        if reads_back(j@, MAX_DEPTH as nat) {
            alike_is_same(j@, json_parse(utf8::encode_utf8(out@))->Ok_0, MAX_DEPTH as nat);
        }
        reveal_with_fuel(utf8::encode_utf8, 2);
    }
    out
}

/// Reads `bytes` as one JSON text.
pub fn parse(bytes: &[u8]) -> (r: Result<Json, Error>)
    ensures
        match json_parse(bytes@) {
            Ok(v) => r matches Ok(j) && j@ == v,
            Err(t) => r matches Err(e) && e@ == Failure::BadJson(t),
        },
{
    match value_parse(bytes) {
        Ok(v) => Ok(json_from_value(v)),
        Err(t) => Err(Failure::BadJson(t)),
    }
}

/// The value that `key` has in `v`, where `v` is an object that has it.
pub open spec fn member(v: JsonView, key: Seq<char>) -> Option<JsonView> {
    match v {
        JsonView::Object(entries) => if entries.dom().contains(key) {
            Some(entries[key])
        } else {
            None
        },
        _ => None,
    }
}

/// Of the entries with one key, the last counts.
pub proof fn entries_view_last(entries: Seq<(String, Json)>, key: Seq<char>, at: int)
    requires
        0 <= at < entries.len(),
        entries[at].0@ == key,
        forall|i: int| at < i < entries.len() ==> #[trigger] entries[i].0@ != key,
    ensures
        entries_view(entries).dom().contains(key),
        entries_view(entries)[key] == json_view(entries[at].1),
    decreases entries.len(),
{
    if at < entries.len() - 1 {
        let init = entries.drop_last();
        assert(entries[entries.len() - 1].0@ != key);
        assert forall|i: int| at < i < init.len() implies #[trigger] init[i].0@ != key by {
            assert(init[i] == entries[i]);
        }
        entries_view_last(init, key, at);
    }
}

/// A key that no entry has is not in the object.
pub proof fn entries_view_none(entries: Seq<(String, Json)>, key: Seq<char>)
    requires
        forall|i: int| 0 <= i < entries.len() ==> #[trigger] entries[i].0@ != key,
    ensures
        !entries_view(entries).dom().contains(key),
    decreases entries.len(),
{
    if entries.len() > 0 {
        let init = entries.drop_last();
        assert(entries[entries.len() - 1].0@ != key);
        assert forall|i: int| 0 <= i < init.len() implies #[trigger] init[i].0@ != key by {
            assert(init[i] == entries[i]);
        }
        entries_view_none(init, key);
    }
}

impl Json {
    /// The value that `key` has, where this is an object that has it.
    pub fn get(&self, key: &str) -> (r: Option<&Json>)
        ensures
            match member(self@, key@) {
                Some(v) => r matches Some(j) && j@ == v,
                None => r is None,
            },
    {
        match self {
            Json::Object(entries) => {
                let wanted = key.to_owned();
                let mut i: usize = entries.len();
                while i > 0
                    invariant
                        i <= entries@.len(),
                        *self == Json::Object(*entries),
                        wanted@ == key@,
                        forall|k: int| i <= k < entries@.len() ==> #[trigger] entries@[k].0@ != key@,
                    decreases i,
                {
                    i -= 1;
                    if entries[i].0 == wanted {
                        proof {
                            entries_view_last(entries@, key@, i as int);
                        }
                        return Some(&entries[i].1);
                    }
                }
                proof {
                    entries_view_none(entries@, key@);
                }
                None
            },
            _ => None,
        }
    }

    /// The text of a string.
    pub fn as_str(&self) -> (r: Option<&str>)
        ensures
            match self@ {
                JsonView::Str(s) => r matches Some(t) && t@ == s,
                _ => r is None,
            },
    {
        match self {
            Json::Str(s) => Some(s.as_str()),
            _ => None,
        }
    }

    /// The items of an array.
    pub fn as_array(&self) -> (r: Option<&Vec<Json>>)
        ensures
            match self@ {
                JsonView::Array(items) => r matches Some(t) && items_view(t@) == items,
                _ => r is None,
            },
    {
        match self {
            Json::Array(items) => Some(items),
            _ => None,
        }
    }
}

/// Only an object has members, and it has those that its entries give it.
pub proof fn members_are_entries(v: JsonView, entries: Map<Seq<char>, JsonView>, key: Seq<char>)
    ensures
        entries.dom().contains(key) ==> member(JsonView::Object(entries), key) == Some(
            entries[key],
        ),
        !entries.dom().contains(key) ==> member(JsonView::Object(entries), key) is None,
        !(v is Object) ==> member(v, key) is None,
{
}

/// A value is what it holds: a text is its characters, a number its value, and
/// nothing is lost.
pub proof fn values_are_what_they_hold(b: bool, u: u64, i: i64, t: String)
    ensures
        Json::Null@ is Null,
        Json::Bool(b)@ == JsonView::Bool(b),
        Json::Uint(u)@ == JsonView::Uint(u),
        i < 0 ==> Json::Int(i)@ == JsonView::Int(i),
        i >= 0 ==> Json::Int(i)@ == Json::Uint(i as u64)@,
        Json::Str(t)@ == JsonView::Str(t@),
{
}

/// An array holds its items in order, and an object its entries.
pub proof fn items_and_entries_are_held(items: Vec<Json>, entries: Vec<(String, Json)>)
    ensures
        Json::Array(items)@ is Array,
        Json::Array(items)@->Array_0.len() == items@.len(),
        forall|i: int|
            0 <= i < items@.len() ==> #[trigger] Json::Array(items)@->Array_0[i] == items@[i]@,
        Json::Object(entries)@ == JsonView::Object(entries_view(entries@)),
{
    items_view_index(items@);
}

} // verus!
