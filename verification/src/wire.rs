//! The JSON values that workers exchange, with the two wire markers that carry
//! what plain JSON cannot: integers too large for a JSON number and floats
//! that are not finite.

use vstd::prelude::*;

use crate::text::str_eq;

verus! {

/// The member name under which a worker sends an integer too large for a JSON number.
pub const BIGINT_WIRE_KEY: &'static str = "__monty_compat_bigint__";

/// The member name under which a worker sends `nan`, `inf` or `-inf`.
pub const NONFINITE_WIRE_KEY: &'static str = "__monty_compat_nonfinite__";

/// A JSON number as equality sees it: a non-negative integer, a negative
/// integer, or a finite float given by its bit pattern (with negative zero
/// held as zero, since the two compare equal).
#[derive(Debug, Clone, Copy, PartialEq, Eq, Structural)]
pub enum JsonNumber {
    PosInt(u64),
    NegInt(i64),
    Float(u64),
}

/// A parsed JSON document. The members of an object are held in ascending
/// key order, each key once, as a parsed object keeps them.
#[derive(Debug)]
pub enum JsonValue {
    Null,
    Bool(bool),
    Number(JsonNumber),
    String(String),
    Array(Vec<JsonValue>),
    Object(Vec<(String, JsonValue)>),
}

/// The value of the first member called `key`.
pub open spec fn member(members: Seq<(String, JsonValue)>, key: Seq<char>) -> Option<JsonValue>
    decreases members.len(),
{
    if members.len() == 0 {
        None
    } else if members[0].0@ == key {
        Some(members[0].1)
    } else {
        member(members.drop_first(), key)
    }
}

/// An object that marks a float as not-a-number.
pub open spec fn marks_nan(members: Seq<(String, JsonValue)>) -> bool {
    member(members, NONFINITE_WIRE_KEY@) matches Some(JsonValue::String(text)) && text@ == "nan"@
}

/// Whether a not-a-number marker occurs anywhere in `value`.
pub open spec fn nan_marked(value: JsonValue) -> bool
    decreases value, 0int,
{
    match value {
        JsonValue::Array(items) => items_nan(items@, items@.len() as int),
        JsonValue::Object(members) => marks_nan(members@) || members_nan(members@, members@.len() as int),
        _ => false,
    }
}

/// Whether a not-a-number marker occurs in one of the first `n` items.
pub open spec fn items_nan(items: Seq<JsonValue>, n: int) -> bool
    decreases items, n,
{
    if n <= 0 || n > items.len() {
        false
    } else {
        items_nan(items, n - 1) || nan_marked(items[n - 1])
    }
}

/// Whether a not-a-number marker occurs in the value of one of the first `n` members.
pub open spec fn members_nan(members: Seq<(String, JsonValue)>, n: int) -> bool
    decreases members, n,
{
    if n <= 0 || n > members.len() {
        false
    } else {
        members_nan(members, n - 1) || nan_marked(members[n - 1].1)
    }
}

/// Whether two JSON values are equal: same kind, same scalar, and items or
/// members equal position by position.
pub open spec fn same(a: JsonValue, b: JsonValue) -> bool
    decreases a, 0int,
{
    match a {
        JsonValue::Null => b is Null,
        JsonValue::Bool(x) => b matches JsonValue::Bool(y) && x == y,
        JsonValue::Number(x) => b matches JsonValue::Number(y) && x == y,
        JsonValue::String(x) => b matches JsonValue::String(y) && x@ == y@,
        JsonValue::Array(xs) => b matches JsonValue::Array(ys) && xs@.len() == ys@.len() && same_items(
            xs@,
            ys@,
            xs@.len() as int,
        ),
        JsonValue::Object(xs) => b matches JsonValue::Object(ys) && xs@.len() == ys@.len()
            && same_members(xs@, ys@, xs@.len() as int),
    }
}

/// The first `n` items of two lists are equal.
pub open spec fn same_items(xs: Seq<JsonValue>, ys: Seq<JsonValue>, n: int) -> bool
    decreases xs, n,
{
    if n <= 0 {
        true
    } else if n > xs.len() || n > ys.len() {
        false
    } else {
        same_items(xs, ys, n - 1) && same(xs[n - 1], ys[n - 1])
    }
}

/// The first `n` members of two objects have equal keys and equal values.
pub open spec fn same_members(xs: Seq<(String, JsonValue)>, ys: Seq<(String, JsonValue)>, n: int) -> bool
    decreases xs, n,
{
    if n <= 0 {
        true
    } else if n > xs.len() || n > ys.len() {
        false
    } else {
        same_members(xs, ys, n - 1) && xs[n - 1].0@ == ys[n - 1].0@ && same(xs[n - 1].1, ys[n - 1].1)
    }
}

proof fn lemma_items_nan_grows(items: Seq<JsonValue>, i: int, n: int)
    requires
        0 <= i <= n <= items.len(),
        items_nan(items, i),
    ensures
        items_nan(items, n),
    decreases n - i,
{
    if i < n {
        lemma_items_nan_grows(items, i, n - 1);
    }
}

proof fn lemma_members_nan_grows(members: Seq<(String, JsonValue)>, i: int, n: int)
    requires
        0 <= i <= n <= members.len(),
        members_nan(members, i),
    ensures
        members_nan(members, n),
    decreases n - i,
{
    if i < n {
        lemma_members_nan_grows(members, i, n - 1);
    }
}

fn contains_nan_marker(value: &JsonValue) -> (found: bool)
    ensures
        found == nan_marked(*value),
    decreases value,
{
    match value {
        JsonValue::Array(items) => {
            let mut i: usize = 0;
            while i < items.len()
                invariant
                    i <= items@.len(),
                    *value == JsonValue::Array(*items),
                    !items_nan(items@, i as int),
                decreases items@.len() - i,
            {
                proof {
                    assert(decreases_to!(*value => (*value)->Array_0));
                    vstd::std_specs::vec::axiom_vec_decreases_to_view(*items);
                    vstd::seq::axiom_seq_index_decreases(items@, i as int);
                    assert(decreases_to!(*value => items[i as int]));
                }
                if contains_nan_marker(&items[i]) {
                    proof {
                        lemma_items_nan_grows(items@, i + 1, items@.len() as int);
                    }
                    return true;
                }
                i = i + 1;
            }
            false
        },
        JsonValue::Object(members) => {
            if object_marks_nan(members) {
                return true;
            }
            let mut i: usize = 0;
            while i < members.len()
                invariant
                    i <= members@.len(),
                    *value == JsonValue::Object(*members),
                    !members_nan(members@, i as int),
                decreases members@.len() - i,
            {
                proof {
                    assert(decreases_to!(*value => (*value)->Object_0));
                    vstd::std_specs::vec::axiom_vec_decreases_to_view(*members);
                    vstd::seq::axiom_seq_index_decreases(members@, i as int);
                    assert(decreases_to!(members@[i as int] => members@[i as int].1));
                    assert(decreases_to!(*value => members[i as int].1));
                }
                if contains_nan_marker(&members[i].1) {
                    proof {
                        lemma_members_nan_grows(members@, i + 1, members@.len() as int);
                    }
                    return true;
                }
                i = i + 1;
            }
            false
        },
        _ => false,
    }
}

fn object_marks_nan(members: &Vec<(String, JsonValue)>) -> (found: bool)
    ensures
        found == marks_nan(members@),
{
    let mut i: usize = 0;
    assert(members@.skip(0) =~= members@);
    while i < members.len()
        invariant
            i <= members@.len(),
            member(members@, NONFINITE_WIRE_KEY@) == member(members@.skip(i as int), NONFINITE_WIRE_KEY@),
        decreases members@.len() - i,
    {
        assert(members@.skip(i as int).drop_first() =~= members@.skip(i + 1));
        if str_eq(members[i].0.as_str(), NONFINITE_WIRE_KEY) {
            return match &members[i].1 {
                JsonValue::String(text) => {
                    let nan = str_eq(text.as_str(), "nan");
                    nan
                },
                _ => false,
            };
        }
        i = i + 1;
    }
    false
}


proof fn lemma_same_items_shrinks(xs: Seq<JsonValue>, ys: Seq<JsonValue>, m: int, n: int)
    requires
        0 <= m <= n,
        same_items(xs, ys, n),
    ensures
        same_items(xs, ys, m),
    decreases n - m,
{
    if m < n {
        lemma_same_items_shrinks(xs, ys, m, n - 1);
    }
}

proof fn lemma_same_members_shrinks(xs: Seq<(String, JsonValue)>, ys: Seq<(String, JsonValue)>, m: int, n: int)
    requires
        0 <= m <= n,
        same_members(xs, ys, n),
    ensures
        same_members(xs, ys, m),
    decreases n - m,
{
    if m < n {
        lemma_same_members_shrinks(xs, ys, m, n - 1);
    }
}

/// Compare two JSON values.
pub fn json_equal(a: &JsonValue, b: &JsonValue) -> (equal: bool)
    ensures
        equal == same(*a, *b),
    decreases a,
{
    match a {
        JsonValue::Null => matches!(b, JsonValue::Null),
        JsonValue::Bool(x) => match b {
            JsonValue::Bool(y) => *x == *y,
            _ => false,
        },
        JsonValue::Number(x) => match b {
            JsonValue::Number(y) => *x == *y,
            _ => false,
        },
        JsonValue::String(x) => match b {
            JsonValue::String(y) => str_eq(x.as_str(), y.as_str()),
            _ => false,
        },
        JsonValue::Array(xs) => match b {
            JsonValue::Array(ys) => {
                if xs.len() != ys.len() {
                    return false;
                }
                let mut i: usize = 0;
                while i < xs.len()
                    invariant
                        i <= xs@.len(),
                        xs@.len() == ys@.len(),
                        *a == JsonValue::Array(*xs),
                        *b == JsonValue::Array(*ys),
                        same_items(xs@, ys@, i as int),
                    decreases xs@.len() - i,
                {
                    proof {
                        assert(decreases_to!(*a => (*a)->Array_0));
                        vstd::std_specs::vec::axiom_vec_decreases_to_view(*xs);
                        vstd::seq::axiom_seq_index_decreases(xs@, i as int);
                    }
                    if !json_equal(&xs[i], &ys[i]) {
                        proof {
                            if same_items(xs@, ys@, xs@.len() as int) {
                                lemma_same_items_shrinks(xs@, ys@, i + 1, xs@.len() as int);
                            }
                        }
                        return false;
                    }
                    i = i + 1;
                }
                true
            },
            _ => false,
        },
        JsonValue::Object(xs) => match b {
            JsonValue::Object(ys) => {
                if xs.len() != ys.len() {
                    return false;
                }
                let mut i: usize = 0;
                while i < xs.len()
                    invariant
                        i <= xs@.len(),
                        xs@.len() == ys@.len(),
                        *a == JsonValue::Object(*xs),
                        *b == JsonValue::Object(*ys),
                        same_members(xs@, ys@, i as int),
                    decreases xs@.len() - i,
                {
                    proof {
                        assert(decreases_to!(*a => (*a)->Object_0));
                        vstd::std_specs::vec::axiom_vec_decreases_to_view(*xs);
                        vstd::seq::axiom_seq_index_decreases(xs@, i as int);
                        assert(decreases_to!(xs@[i as int] => xs@[i as int].1));
                    }
                    if !str_eq(xs[i].0.as_str(), ys[i].0.as_str()) || !json_equal(&xs[i].1, &ys[i].1) {
                        proof {
                            if same_members(xs@, ys@, xs@.len() as int) {
                                lemma_same_members_shrinks(xs@, ys@, i + 1, xs@.len() as int);
                            }
                        }
                        return false;
                    }
                    i = i + 1;
                }
                true
            },
            _ => false,
        },
    }
}

/// Whether a Monty value matches the CPython oracle's: equal, and with no
/// not-a-number anywhere in either (a `nan` never equals itself).
pub open spec fn strictly_equal(left: JsonValue, right: JsonValue) -> bool {
    same(left, right) && !nan_marked(left) && !nan_marked(right)
}

/// Compare two decoded wire values the way Python compares the values they stand for.
pub fn wire_strict_equal(left: &JsonValue, right: &JsonValue) -> (equal: bool)
    ensures
        equal == strictly_equal(*left, *right),
{
    json_equal(left, right) && !contains_nan_marker(left) && !contains_nan_marker(right)
}


/// A float's bit pattern with negative zero held as zero; other numbers unchanged.
pub open spec fn canonical(number: JsonNumber) -> JsonNumber {
    match number {
        JsonNumber::Float(bits) => if bits == 0x8000_0000_0000_0000u64 {
            JsonNumber::Float(0)
        } else {
            number
        },
        _ => number,
    }
}

/// Hold negative zero as zero, so that equal numbers are held alike.
pub fn canonical_number(number: JsonNumber) -> (held: JsonNumber)
    ensures
        held == canonical(number),
{
    match number {
        JsonNumber::Float(bits) => if bits == 0x8000_0000_0000_0000u64 {
            JsonNumber::Float(0)
        } else {
            number
        },
        _ => number,
    }
}

/// The number that a JSON number text denotes, if it is one.
pub uninterp spec fn json_number_of(text: Seq<char>) -> Option<JsonNumber>;

/// `str::parse::<serde_json::Number>`: the number a text denotes, told apart
/// as serde_json holds it (an integer that fits 64 bits unsigned, then one
/// that fits signed, else a float by its bit pattern). Which texts parse, and
/// to what, is not described.
#[verifier::external_body]
fn parse_json_number(text: &str) -> (number: Option<JsonNumber>)
    ensures
        number == json_number_of(text@),
{
    let number = text.parse::<serde_json::Number>().ok()?;
    if let Some(value) = number.as_u64() {
        return Some(JsonNumber::PosInt(value));
    }
    if let Some(value) = number.as_i64() {
        return Some(JsonNumber::NegInt(value));
    }
    number.as_f64().map(|value| JsonNumber::Float(value.to_bits()))
}

/// The integer an object stands for when it is a big-integer marker: its
/// only member is the marker, holding a number text.
pub open spec fn marked_integer(members: Seq<(String, JsonValue)>) -> Option<JsonNumber> {
    if members.len() == 1 && members[0].0@ == BIGINT_WIRE_KEY@ {
        match members[0].1 {
            JsonValue::String(text) => match json_number_of(text@) {
                Some(number) => Some(canonical(number)),
                None => None,
            },
            _ => None,
        }
    } else {
        None
    }
}

/// `output` is `input` with every big-integer marker replaced by its number.
pub open spec fn decodes(input: JsonValue, output: JsonValue) -> bool
    decreases input, 0int,
{
    match input {
        JsonValue::Array(xs) => output matches JsonValue::Array(ys) && ys@.len() == xs@.len()
            && decodes_items(xs@, ys@, xs@.len() as int),
        JsonValue::Object(xs) => match marked_integer(xs@) {
            Some(number) => output == JsonValue::Number(number),
            None => output matches JsonValue::Object(ys) && ys@.len() == xs@.len() && decodes_members(
                xs@,
                ys@,
                xs@.len() as int,
            ),
        },
        _ => same(input, output),
    }
}

/// Each of the first `n` items decodes to the item at its position.
pub open spec fn decodes_items(xs: Seq<JsonValue>, ys: Seq<JsonValue>, n: int) -> bool
    decreases xs, n,
{
    if n <= 0 {
        true
    } else if n > xs.len() || n > ys.len() {
        false
    } else {
        decodes_items(xs, ys, n - 1) && decodes(xs[n - 1], ys[n - 1])
    }
}

/// Each of the first `n` members keeps its key and decodes its value.
pub open spec fn decodes_members(xs: Seq<(String, JsonValue)>, ys: Seq<(String, JsonValue)>, n: int) -> bool
    decreases xs, n,
{
    if n <= 0 {
        true
    } else if n > xs.len() || n > ys.len() {
        false
    } else {
        decodes_members(xs, ys, n - 1) && xs[n - 1].0@ == ys[n - 1].0@ && decodes(xs[n - 1].1, ys[n - 1].1)
    }
}

proof fn lemma_decodes_items_prefix(xs: Seq<JsonValue>, ys: Seq<JsonValue>, zs: Seq<JsonValue>, n: int)
    requires
        0 <= n <= ys.len(),
        n <= zs.len(),
        forall|k: int| 0 <= k < n ==> ys[k] == zs[k],
        decodes_items(xs, ys, n),
    ensures
        decodes_items(xs, zs, n),
    decreases n,
{
    if n > 0 {
        lemma_decodes_items_prefix(xs, ys, zs, n - 1);
    }
}

proof fn lemma_decodes_members_prefix(
    xs: Seq<(String, JsonValue)>,
    ys: Seq<(String, JsonValue)>,
    zs: Seq<(String, JsonValue)>,
    n: int,
)
    requires
        0 <= n <= ys.len(),
        n <= zs.len(),
        forall|k: int| 0 <= k < n ==> ys[k] == zs[k],
        decodes_members(xs, ys, n),
    ensures
        decodes_members(xs, zs, n),
    decreases n,
{
    if n > 0 {
        lemma_decodes_members_prefix(xs, ys, zs, n - 1);
    }
}

fn marked_integer_of(members: &Vec<(String, JsonValue)>) -> (number: Option<JsonNumber>)
    ensures
        number == marked_integer(members@),
{
    if members.len() == 1 && str_eq(members[0].0.as_str(), BIGINT_WIRE_KEY) {
        match &members[0].1 {
            JsonValue::String(text) => match parse_json_number(text.as_str()) {
                Some(number) => Some(canonical_number(number)),
                None => None,
            },
            _ => None,
        }
    } else {
        None
    }
}

/// Replace every big-integer marker in a worker's value by the number it carries.
pub fn decode_wire_json(value: &JsonValue) -> (decoded: JsonValue)
    ensures
        decodes(*value, decoded),
    decreases value,
{
    match value {
        JsonValue::Null => JsonValue::Null,
        JsonValue::Bool(flag) => JsonValue::Bool(*flag),
        JsonValue::Number(number) => JsonValue::Number(*number),
        JsonValue::String(text) => JsonValue::String(text.clone()),
        JsonValue::Array(xs) => {
            let mut ys: Vec<JsonValue> = Vec::new();
            let mut i: usize = 0;
            while i < xs.len()
                invariant
                    i <= xs@.len(),
                    ys@.len() == i,
                    *value == JsonValue::Array(*xs),
                    decodes_items(xs@, ys@, i as int),
                decreases xs@.len() - i,
            {
                proof {
                    assert(decreases_to!(*value => (*value)->Array_0));
                    vstd::std_specs::vec::axiom_vec_decreases_to_view(*xs);
                    vstd::seq::axiom_seq_index_decreases(xs@, i as int);
                }
                let item = decode_wire_json(&xs[i]);
                let ghost before = ys@;
                ys.push(item);
                proof {
                    lemma_decodes_items_prefix(xs@, before, ys@, i as int);
                }
                i = i + 1;
            }
            JsonValue::Array(ys)
        },
        JsonValue::Object(xs) => {
            if let Some(number) = marked_integer_of(xs) {
                return JsonValue::Number(number);
            }
            let mut ys: Vec<(String, JsonValue)> = Vec::new();
            let mut i: usize = 0;
            while i < xs.len()
                invariant
                    i <= xs@.len(),
                    ys@.len() == i,
                    *value == JsonValue::Object(*xs),
                    decodes_members(xs@, ys@, i as int),
                decreases xs@.len() - i,
            {
                proof {
                    assert(decreases_to!(*value => (*value)->Object_0));
                    vstd::std_specs::vec::axiom_vec_decreases_to_view(*xs);
                    vstd::seq::axiom_seq_index_decreases(xs@, i as int);
                    assert(decreases_to!(xs@[i as int] => xs@[i as int].1));
                }
                let item = decode_wire_json(&xs[i].1);
                let key = xs[i].0.clone();
                let ghost before = ys@;
                ys.push((key, item));
                proof {
                    lemma_decodes_members_prefix(xs@, before, ys@, i as int);
                }
                i = i + 1;
            }
            JsonValue::Object(ys)
        },
    }
}

} // verus!
