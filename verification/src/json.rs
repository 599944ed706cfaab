//! JSON values as plain data, and the calls into `serde_json` that read and
//! write them.

use vstd::prelude::*;

use crate::text::{
    lemma_order_is_strict, lemma_order_is_total, lemma_order_is_transitive, same_text, sorts_before,
    text_sorts_before,
};

verus! {

/// A JSON number: a whole number, or a double given by its bits.
#[verifier::ext_equal]
pub enum NumberModel {
    Whole(int),
    Float(u64),
}

impl NumberModel {
    /// The number as an `i64`, where it is a whole number in range.
    pub open spec fn signed(self) -> Option<i64> {
        match self {
            NumberModel::Whole(n) if i64::MIN <= n <= i64::MAX => Some(n as i64),
            _ => None,
        }
    }

    /// The number as a `u64`, where it is a whole number in range.
    pub open spec fn unsigned(self) -> Option<u64> {
        match self {
            NumberModel::Whole(n) if 0 <= n <= u64::MAX => Some(n as u64),
            _ => None,
        }
    }

    /// The bits of the double nearest to the number.
    pub open spec fn bits(self) -> u64 {
        match self {
            NumberModel::Whole(n) => whole_as_float(n),
            NumberModel::Float(bits) => bits,
        }
    }
}

/// A JSON value. The fields of an object stand in the order in which they were
/// given; the first of several fields with one name counts.
#[derive(Debug, PartialEq, Eq)]
pub enum Json {
    Null,
    Bool(bool),
    Number(serde_json::Number),
    Text(String),
    List(Vec<Json>),
    Object(Vec<(String, Json)>),
}

/// What a JSON value says.
#[verifier::ext_equal]
pub enum JsonModel {
    Null,
    Bool(bool),
    Number(NumberModel),
    Text(Seq<char>),
    List(Seq<JsonModel>),
    Object(Seq<(Seq<char>, JsonModel)>),
}

/// The value of the first field named `key`.
pub open spec fn lookup(fields: Seq<(Seq<char>, JsonModel)>, key: Seq<char>) -> Option<JsonModel>
    decreases fields.len(),
{
    if fields.len() == 0 {
        None
    } else if fields[0].0 == key {
        Some(fields[0].1)
    } else {
        lookup(fields.drop_first(), key)
    }
}

/// Fields with the first one named `key` replaced, or with that field at the end.
pub open spec fn put(
    fields: Seq<(Seq<char>, JsonModel)>,
    key: Seq<char>,
    value: JsonModel,
) -> Seq<(Seq<char>, JsonModel)>
    decreases fields.len(),
{
    if fields.len() == 0 {
        seq![(key, value)]
    } else if fields[0].0 == key {
        seq![(key, value)] + fields.drop_first()
    } else {
        seq![fields[0]] + put(fields.drop_first(), key, value)
    }
}

/// A field that was put is found again, and every other field is as before.
pub proof fn lemma_put_then_lookup(
    fields: Seq<(Seq<char>, JsonModel)>,
    key: Seq<char>,
    value: JsonModel,
    other: Seq<char>,
)
    ensures
        lookup(put(fields, key, value), key) == Some(value),
        other != key ==> lookup(put(fields, key, value), other) == lookup(fields, other),
    decreases fields.len(),
{
    reveal_with_fuel(lookup, 2);
    let done = put(fields, key, value);
    if fields.len() == 0 {
        assert(done.drop_first() =~= Seq::empty());
    } else if fields[0].0 == key {
        assert(done.drop_first() =~= fields.drop_first());
    } else {
        assert(done.drop_first() =~= put(fields.drop_first(), key, value));
        lemma_put_then_lookup(fields.drop_first(), key, value, other);
    }
}

impl JsonModel {
    /// The value of an object's field.
    pub open spec fn field(self, key: Seq<char>) -> Option<JsonModel> {
        match self {
            JsonModel::Object(fields) => lookup(fields, key),
            _ => None,
        }
    }

    /// The text of a string.
    pub open spec fn text(self) -> Option<Seq<char>> {
        match self {
            JsonModel::Text(s) => Some(s),
            _ => None,
        }
    }

    /// The value of a boolean.
    pub open spec fn flag(self) -> Option<bool> {
        match self {
            JsonModel::Bool(b) => Some(b),
            _ => None,
        }
    }

    /// The value of a number that is an `i64`.
    pub open spec fn signed(self) -> Option<i64> {
        match self {
            JsonModel::Number(n) => n.signed(),
            _ => None,
        }
    }

    /// The value of a number that is a `u64`.
    pub open spec fn unsigned(self) -> Option<u64> {
        match self {
            JsonModel::Number(n) => n.unsigned(),
            _ => None,
        }
    }

    /// The bits of the double nearest to a number.
    pub open spec fn bits(self) -> Option<u64> {
        match self {
            JsonModel::Number(n) => Some(n.bits()),
            _ => None,
        }
    }

    /// The text of an object's field that is a string.
    pub open spec fn text_field(self, key: Seq<char>) -> Option<Seq<char>> {
        match self.field(key) {
            Some(v) => v.text(),
            None => None,
        }
    }

    /// The value of an object's field that is a boolean.
    pub open spec fn flag_field(self, key: Seq<char>) -> Option<bool> {
        match self.field(key) {
            Some(v) => v.flag(),
            None => None,
        }
    }

    /// The value of an object's field that is an `i64`.
    pub open spec fn signed_field(self, key: Seq<char>) -> Option<i64> {
        match self.field(key) {
            Some(v) => v.signed(),
            None => None,
        }
    }

    /// The value of an object's field that is a `u64`.
    pub open spec fn unsigned_field(self, key: Seq<char>) -> Option<u64> {
        match self.field(key) {
            Some(v) => v.unsigned(),
            None => None,
        }
    }

    /// A value, or null where there is none.
    pub open spec fn or_null(value: Option<JsonModel>) -> JsonModel {
        match value {
            Some(v) => v,
            None => JsonModel::Null,
        }
    }
}

impl Json {
    /// What the value says.
    pub open spec fn view(self) -> JsonModel
        decreases self,
    {
        match self {
            Json::Null => JsonModel::Null,
            Json::Bool(b) => JsonModel::Bool(b),
            Json::Number(n) => JsonModel::Number(number_model(n)),
            Json::Text(s) => JsonModel::Text(s@),
            Json::List(items) => JsonModel::List(
                Seq::new(
                    items@.len(),
                    |i: int|
                        if 0 <= i < items@.len() {
                            items@[i].view()
                        } else {
                            JsonModel::Null
                        },
                ),
            ),
            Json::Object(fields) => JsonModel::Object(
                Seq::new(
                    fields@.len(),
                    |i: int|
                        if 0 <= i < fields@.len() {
                            (fields@[i].0@, fields@[i].1.view())
                        } else {
                            (Seq::<char>::empty(), JsonModel::Null)
                        },
                ),
            ),
        }
    }

    /// The value of an object's field; nothing where the value is no object.
    pub fn get(&self, key: &str) -> (r: Option<&Json>)
        ensures
            match r {
                Some(v) => self@.field(key@) == Some(v@),
                None => self@.field(key@) is None,
            },
    {
        match self {
            Json::Object(fields) => {
                let ghost all = self@->Object_0;
                let mut i: usize = 0;
                assert(all.skip(0) =~= all);
                while i < fields.len()
                    invariant
                        self@ == JsonModel::Object(all),
                        *self == Json::Object(*fields),
                        all.len() == fields@.len(),
                        i <= fields@.len(),
                        lookup(all, key@) == lookup(all.skip(i as int), key@),
                    decreases fields@.len() - i,
                {
                    assert(all[i as int] == (fields@[i as int].0@, fields@[i as int].1@));
                    assert(all.skip(i as int)[0] == all[i as int]);
                    assert(all.skip(i as int).drop_first() =~= all.skip(i + 1));
                    if same_text(fields[i].0.as_str(), key) {
                        return Some(&fields[i].1);
                    }
                    i = i + 1;
                }
                None
            },
            _ => None,
        }
    }

    /// The text of a string value.
    pub fn as_text(&self) -> (r: Option<&String>)
        ensures
            match r {
                Some(s) => self@.text() == Some(s@),
                None => self@.text() is None,
            },
    {
        match self {
            Json::Text(s) => Some(s),
            _ => None,
        }
    }

    /// The value of a boolean.
    pub fn as_flag(&self) -> (r: Option<bool>)
        ensures
            r == self@.flag(),
    {
        match self {
            Json::Bool(b) => Some(*b),
            _ => None,
        }
    }

    /// The value of a number that is an `i64`.
    pub fn as_signed(&self) -> (r: Option<i64>)
        ensures
            r == self@.signed(),
    {
        match self {
            Json::Number(n) => number_signed(n),
            _ => None,
        }
    }

    /// The value of a number that is a `u64`.
    pub fn as_unsigned(&self) -> (r: Option<u64>)
        ensures
            r == self@.unsigned(),
    {
        match self {
            Json::Number(n) => number_unsigned(n),
            _ => None,
        }
    }

    /// The bits of the double nearest to a number. Those of a whole number say
    /// whether it is negative and whether it is at least 100; of at most 53
    /// binary digits, they are those of the number itself.
    pub fn as_bits(&self) -> (r: Option<u64>)
        ensures
            r == self@.bits(),
            self@ matches JsonModel::Number(NumberModel::Whole(n)) ==> (r matches Some(bits) && (n
                < 0 <==> bits >= 0x8000_0000_0000_0000) && bits != 0x8000_0000_0000_0000 && (n >= 100
                <==> 0x4059_0000_0000_0000 <= bits < 0x8000_0000_0000_0000) && (
            -0x20_0000_0000_0000 < n < 0x20_0000_0000_0000 ==> bits == whole_bits(n))),
    {
        match self {
            Json::Number(n) => Some(number_bits(n)),
            _ => None,
        }
    }

    /// Whether the value is null.
    pub fn is_null(&self) -> (r: bool)
        ensures
            r == (self@ is Null),
    {
        match self {
            Json::Null => true,
            _ => false,
        }
    }

    /// The text of an object's field that is a string.
    pub fn text_field(&self, key: &str) -> (r: Option<String>)
        ensures
            match r {
                Some(s) => self@.text_field(key@) == Some(s@),
                None => self@.text_field(key@) is None,
            },
    {
        match self.get(key) {
            Some(v) => match v.as_text() {
                Some(s) => Some(s.clone()),
                None => None,
            },
            None => None,
        }
    }

    /// The value of an object's field that is a boolean.
    pub fn flag_field(&self, key: &str) -> (r: Option<bool>)
        ensures
            r == self@.flag_field(key@),
    {
        match self.get(key) {
            Some(v) => v.as_flag(),
            None => None,
        }
    }

    /// The value of an object's field that is an `i64`.
    pub fn signed_field(&self, key: &str) -> (r: Option<i64>)
        ensures
            r == self@.signed_field(key@),
    {
        match self.get(key) {
            Some(v) => v.as_signed(),
            None => None,
        }
    }

    /// The value of an object's field that is a `u64`.
    pub fn unsigned_field(&self, key: &str) -> (r: Option<u64>)
        ensures
            r == self@.unsigned_field(key@),
    {
        match self.get(key) {
            Some(v) => v.as_unsigned(),
            None => None,
        }
    }

    /// A value that says the same.
    pub fn copy(&self) -> (r: Json)
        ensures
            r@ == self@,
        decreases self,
    {
        match self {
            Json::Null => Json::Null,
            Json::Bool(b) => Json::Bool(*b),
            Json::Number(n) => Json::Number(copy_number(n)),
            Json::Text(s) => Json::Text(s.clone()),
            Json::List(items) => {
                let mut out: Vec<Json> = Vec::new();
                let mut i: usize = 0;
                while i < items.len()
                    invariant
                        *self == Json::List(*items),
                        i <= items@.len(),
                        out@.len() == i,
                        forall|j: int| 0 <= j < i ==> (#[trigger] out@[j])@ == items@[j]@,
                    decreases items@.len() - i,
                {
                    assert(decreases_to!(*self => (*self)->List_0));
                    assert(decreases_to!((*self)->List_0 => (*self)->List_0@));
                    assert(decreases_to!(items@ => items@[i as int]));
                    out.push(items[i].copy());
                    i = i + 1;
                }
                let r = Json::List(out);
                assert(r@->List_0 =~= self@->List_0);
                r
            },
            Json::Object(fields) => {
                let mut out: Vec<(String, Json)> = Vec::new();
                let mut i: usize = 0;
                while i < fields.len()
                    invariant
                        *self == Json::Object(*fields),
                        i <= fields@.len(),
                        out@.len() == i,
                        forall|j: int|
                            0 <= j < i ==> (#[trigger] out@[j]).0@ == fields@[j].0@ && out@[j].1@
                                == fields@[j].1@,
                    decreases fields@.len() - i,
                {
                    assert(decreases_to!(*self => (*self)->Object_0));
                    assert(decreases_to!((*self)->Object_0 => (*self)->Object_0@));
                    assert(decreases_to!(fields@ => fields@[i as int]));
                    assert(decreases_to!(fields@[i as int] => fields@[i as int].1));
                    out.push((fields[i].0.clone(), fields[i].1.copy()));
                    i = i + 1;
                }
                let r = Json::Object(out);
                assert(r@->Object_0 =~= self@->Object_0);
                r
            },
        }
    }

    /// A copy of an object's field, or null where there is none.
    pub fn field_or_null(&self, key: &str) -> (r: Json)
        ensures
            r@ == JsonModel::or_null(self@.field(key@)),
    {
        match self.get(key) {
            Some(v) => v.copy(),
            None => Json::Null,
        }
    }

    /// A string value.
    pub fn text(value: &str) -> (r: Json)
        ensures
            r@ == JsonModel::Text(value@),
    {
        Json::Text(value.to_owned())
    }

    /// A whole number.
    pub fn unsigned(value: u64) -> (r: Json)
        ensures
            r@ == JsonModel::Number(NumberModel::Whole(value as int)),
    {
        Json::Number(number_from_unsigned(value))
    }

    /// A whole number with a sign.
    pub fn signed(value: i64) -> (r: Json)
        ensures
            r@ == JsonModel::Number(NumberModel::Whole(value as int)),
    {
        Json::Number(number_from_signed(value))
    }

    /// An object without fields.
    pub fn empty_object() -> (r: Json)
        ensures
            r@ == JsonModel::Object(Seq::empty()),
    {
        let r = Json::Object(Vec::new());
        assert(r@->Object_0 =~= Seq::empty());
        r
    }

    /// An object with one more field at its end; another value is kept as it is.
    pub fn with(self, key: &str, value: Json) -> (r: Json)
        ensures
            self@ matches JsonModel::Object(fields) ==> r@ == JsonModel::Object(
                fields.push((key@, value@)),
            ),
            !(self@ is Object) ==> r@ == self@,
    {
        match self {
            Json::Object(fields) => {
                let ghost before = self@->Object_0;
                let mut out = fields;
                out.push((key.to_owned(), value));
                let r = Json::Object(out);
                assert(r@->Object_0 =~= before.push((key@, value@)));
                r
            },
            other => other,
        }
    }

    /// An object whose field `key` is `value`; another value is kept as it is.
    pub fn with_field_put(self, key: &str, value: Json) -> (r: Json)
        ensures
            self@ matches JsonModel::Object(fields) ==> r@ == JsonModel::Object(
                put(fields, key@, value@),
            ),
            !(self@ is Object) ==> r@ == self@,
    {
        match self {
            Json::Object(fields) => {
                let ghost before = self@->Object_0;
                let mut rest = fields;
                let ghost wanted = put(before, key@, value@);
                let mut at: usize = 0;
                let mut found: bool = false;
                while at < rest.len() && !found
                    invariant
                        rest@ == fields@,
                        before.len() == rest@.len(),
                        at <= rest@.len(),
                        forall|j: int|
                            0 <= j < rest@.len() ==> #[trigger] before[j] == (
                                rest@[j].0@,
                                rest@[j].1@,
                            ),
                        forall|j: int| 0 <= j < at ==> (#[trigger] before[j]).0 != key@,
                        found ==> at < rest@.len() && before[at as int].0 == key@,
                    decreases
                        rest@.len() - at + (if found {
                            0int
                        } else {
                            1int
                        }),
                {
                    assert(before[at as int] == (rest@[at as int].0@, rest@[at as int].1@));
                    if same_text(rest[at].0.as_str(), key) {
                        found = true;
                    } else {
                        at = at + 1;
                    }
                }
                proof {
                    lemma_put_at(before, key@, value@, at as int);
                }
                if found {
                    rest.set(at, (key.to_owned(), value));
                } else {
                    rest.push((key.to_owned(), value));
                }
                let r = Json::Object(rest);
                assert(r@->Object_0 =~= wanted);
                r
            },
            other => other,
        }
    }
}

/// Where the first field named `key` is, `put` changes that place only.
proof fn lemma_put_at(
    fields: Seq<(Seq<char>, JsonModel)>,
    key: Seq<char>,
    value: JsonModel,
    at: int,
)
    requires
        0 <= at <= fields.len(),
        forall|j: int| 0 <= j < at ==> (#[trigger] fields[j]).0 != key,
        at < fields.len() ==> fields[at].0 == key,
    ensures
        at < fields.len() ==> put(fields, key, value) == fields.update(at, (key, value)),
        at == fields.len() ==> put(fields, key, value) == fields.push((key, value)),
    decreases fields.len(),
{
    if fields.len() == 0 {
        assert(put(fields, key, value) =~= fields.push((key, value)));
    } else if at == 0 {
        assert(put(fields, key, value) =~= fields.update(at, (key, value)));
    } else {
        let rest = fields.drop_first();
        assert forall|j: int| 0 <= j < at - 1 implies (#[trigger] rest[j]).0 != key by {
            assert(fields[j + 1].0 != key);
        }
        lemma_put_at(rest, key, value, at - 1);
        if at < fields.len() {
            assert(put(fields, key, value) =~= fields.update(at, (key, value)));
        } else {
            assert(put(fields, key, value) =~= fields.push((key, value)));
        }
    }
}

/// `serde_json::Value`, which only the functions below look into.
#[verifier::external_type_specification]
#[verifier::external_body]
pub struct ExValue(serde_json::Value);

/// `serde_json::Number`, carried through unchanged.
#[verifier::external_type_specification]
#[verifier::external_body]
pub struct ExNumber(serde_json::Number);

/// One level of a `serde_json::Value`.
pub enum Layer {
    Null,
    Bool(bool),
    Number(serde_json::Number),
    Text(String),
    List(Vec<serde_json::Value>),
    Object(Vec<(String, serde_json::Value)>),
}

/// What a `serde_json::Value` holds.
pub uninterp spec fn value_model(value: serde_json::Value) -> JsonModel;

/// What a `serde_json::Number` holds.
pub uninterp spec fn number_model(number: serde_json::Number) -> NumberModel;

/// The bits of what `serde_json::Number::as_f64` gives for a whole number.
pub uninterp spec fn whole_as_float(n: int) -> u64;

/// What `serde_json::from_str` reads in a text: a value, or the words of its error.
pub uninterp spec fn json_in_text(text: Seq<char>) -> Result<JsonModel, Seq<char>>;

/// What `serde_json::from_slice` reads in bytes: a value, or the words of its error.
pub uninterp spec fn json_in_bytes(bytes: Seq<u8>) -> Result<JsonModel, Seq<char>>;

/// What `serde_json::to_vec` writes for a value, or the words of its error.
pub uninterp spec fn json_as_bytes(value: JsonModel) -> Result<Seq<u8>, Seq<char>>;

/// What `serde_json::to_vec_pretty` writes for a value, or the words of its error.
pub uninterp spec fn json_as_pretty_bytes(value: JsonModel) -> Result<Seq<u8>, Seq<char>>;

/// Whether a double's magnitude is at most that of the double nearest to
/// 10 to the power of 300.
pub open spec fn is_moderate(bits: u64) -> bool {
    bits <= 0x7E37_E43C_8800_759C || 0x8000_0000_0000_0000 <= bits <= 0xFE37_E43C_8800_759C
}

/// Whether a value holds lists and objects at most so many levels deep, and
/// moderate doubles only.
pub open spec fn is_readable(model: JsonModel, depth: nat) -> bool
    decreases model,
{
    match model {
        JsonModel::Number(NumberModel::Float(bits)) => is_moderate(bits),
        JsonModel::List(items) => depth > 0 && (forall|i: int|
            0 <= i < items.len() ==> is_readable(#[trigger] items[i], (depth - 1) as nat)),
        JsonModel::Object(fields) => depth > 0 && (forall|i: int|
            0 <= i < fields.len() ==> is_readable((#[trigger] fields[i]).1, (depth - 1) as nat)),
        _ => true,
    }
}

/// Whether two values are the same but for their doubles: where one has a double,
/// the other has one too, and everything else is equal and in the same place.
pub open spec fn alike(a: JsonModel, b: JsonModel) -> bool
    decreases a,
{
    match a {
        JsonModel::Number(NumberModel::Float(_)) => b matches JsonModel::Number(n) && n is Float,
        JsonModel::List(items) => b matches JsonModel::List(others) && items.len() == others.len()
            && (forall|i: int| 0 <= i < items.len() ==> alike(#[trigger] items[i], others[i])),
        JsonModel::Object(fields) => b matches JsonModel::Object(others) && fields.len()
            == others.len() && (forall|i: int|
            0 <= i < fields.len() ==> (#[trigger] fields[i]).0 == others[i].0 && alike(
                fields[i].1,
                others[i].1,
            )),
        _ => a == b,
    }
}

/// Whether two values are alike, where there are any.
pub open spec fn alike_where_any(a: Option<JsonModel>, b: Option<JsonModel>) -> bool {
    match (a, b) {
        (Some(x), Some(y)) => alike(x, y),
        (None, None) => true,
        _ => false,
    }
}

/// Whether a value holds no double.
pub open spec fn is_exact(model: JsonModel) -> bool
    decreases model,
{
    match model {
        JsonModel::Number(n) => n is Whole,
        JsonModel::List(items) => forall|i: int|
            0 <= i < items.len() ==> is_exact(#[trigger] items[i]),
        JsonModel::Object(fields) => forall|i: int|
            0 <= i < fields.len() ==> is_exact((#[trigger] fields[i]).1),
        _ => true,
    }
}

/// A value that holds no double is alike to itself only.
pub proof fn lemma_exact_is_alike_to_itself(a: JsonModel, b: JsonModel)
    requires
        is_exact(a),
        alike(a, b),
    ensures
        a == b,
    decreases a,
{
    match a {
        JsonModel::List(items) => {
            let others = b->List_0;
            assert forall|i: int| 0 <= i < items.len() implies items[i] == others[i] by {
                assert(is_exact(items[i]));
                assert(alike(items[i], others[i]));
                assert(decreases_to!(a => a->List_0));
                assert(decreases_to!(items => items[i]));
                lemma_exact_is_alike_to_itself(items[i], others[i]);
            }
            assert(items =~= others);
        },
        JsonModel::Object(fields) => {
            let others = b->Object_0;
            assert forall|i: int| 0 <= i < fields.len() implies fields[i] == others[i] by {
                assert(is_exact(fields[i].1));
                assert(fields[i].0 == others[i].0 && alike(fields[i].1, others[i].1));
                assert(decreases_to!(a => a->Object_0));
                assert(decreases_to!(fields => fields[i]));
                assert(decreases_to!(fields[i] => fields[i].1));
                lemma_exact_is_alike_to_itself(fields[i].1, others[i].1);
            }
            assert(fields =~= others);
        },
        _ => {},
    }
}

proof fn lemma_alike_lookup(
    fields: Seq<(Seq<char>, JsonModel)>,
    others: Seq<(Seq<char>, JsonModel)>,
    key: Seq<char>,
)
    requires
        fields.len() == others.len(),
        forall|i: int|
            0 <= i < fields.len() ==> (#[trigger] fields[i]).0 == others[i].0 && alike(
                fields[i].1,
                others[i].1,
            ),
    ensures
        alike_where_any(lookup(fields, key), lookup(others, key)),
    decreases fields.len(),
{
    if fields.len() > 0 && fields[0].0 != key {
        let rest = fields.drop_first();
        let left = others.drop_first();
        assert forall|i: int| 0 <= i < rest.len() implies (#[trigger] rest[i]).0 == left[i].0
            && alike(rest[i].1, left[i].1) by {
            assert(rest[i] == fields[i + 1]);
        }
        lemma_alike_lookup(rest, left, key);
    }
}

/// Alike values have the same fields, alike in turn, and each text, flag and whole
/// number of the one stands in the other.
pub proof fn lemma_alike_fields(a: JsonModel, b: JsonModel, key: Seq<char>)
    requires
        alike(a, b),
    ensures
        alike_where_any(a.field(key), b.field(key)),
        a.text_field(key) == b.text_field(key),
        a.flag_field(key) == b.flag_field(key),
        a.signed_field(key) == b.signed_field(key),
        a.unsigned_field(key) == b.unsigned_field(key),
        a.text() == b.text(),
        a.flag() == b.flag(),
        a.signed() == b.signed(),
        a.unsigned() == b.unsigned(),
        a.bits() is Some <==> b.bits() is Some,
{
    if a is Object {
        lemma_alike_lookup(a->Object_0, b->Object_0, key);
    }
}

/// The bits of a positive double whose digits are those of `m`. It is doubled
/// until it has 53 binary digits; `e` is then the exponent, which stands before
/// the digits with 1023 on top, and the first digit, always 1, is left out.
pub open spec fn doubled_bits(m: int, e: nat) -> int
    decreases e,
{
    if m >= 0x10_0000_0000_0000 || e == 0 {
        (1022 + e) * 0x10_0000_0000_0000 + m
    } else {
        doubled_bits(2 * m, (e - 1) as nat)
    }
}

/// The bits of the double that is exactly a whole number of at most 53 binary
/// digits.
pub open spec fn whole_bits(n: int) -> int {
    if n == 0 {
        0
    } else if n > 0 {
        doubled_bits(n, 52)
    } else {
        0x8000_0000_0000_0000 + doubled_bits(-n, 52)
    }
}

/// Whether a layer is the outermost level of a value.
pub open spec fn is_layer_of(layer: Layer, model: JsonModel) -> bool {
    match layer {
        Layer::Null => model is Null,
        Layer::Bool(b) => model == JsonModel::Bool(b),
        Layer::Number(n) => model == JsonModel::Number(number_model(n)),
        Layer::Text(s) => model == JsonModel::Text(s@),
        Layer::List(items) => model matches JsonModel::List(s) && s.len() == items@.len() && (
        forall|i: int| 0 <= i < s.len() ==> value_model(#[trigger] items@[i]) == s[i]),
        Layer::Object(fields) => model matches JsonModel::Object(s) && s.len() == fields@.len() && (
        forall|i: int|
            0 <= i < s.len() ==> (#[trigger] fields@[i]).0@ == s[i].0 && value_model(fields@[i].1)
                == s[i].1),
    }
}

/// What the fields of a layer say.
pub open spec fn value_fields(fields: Seq<(String, serde_json::Value)>) -> Seq<
    (Seq<char>, JsonModel),
> {
    Seq::new(fields.len(), |i: int| (fields[i].0@, value_model(fields[i].1)))
}

/// Takes a `serde_json::Value` apart into its variant and that variant's content.
/// The map of an object is a `BTreeMap`: its fields come in the order of their
/// names, each name once.
#[verifier::external_body]
fn open_value(value: serde_json::Value) -> (r: Layer)
    ensures
        is_layer_of(r, value_model(value)),
        r matches Layer::Object(fields) ==> names_ascend(value_fields(fields@)),
{
    match value {
        serde_json::Value::Null => Layer::Null,
        serde_json::Value::Bool(b) => Layer::Bool(b),
        serde_json::Value::Number(n) => Layer::Number(n),
        serde_json::Value::String(s) => Layer::Text(s),
        serde_json::Value::Array(items) => Layer::List(items),
        serde_json::Value::Object(fields) => Layer::Object(fields.into_iter().collect()),
    }
}

/// `serde_json::Number::as_i64`: the number, where it is whole and in range.
#[verifier::external_body]
fn number_signed(number: &serde_json::Number) -> (r: Option<i64>)
    ensures
        r == number_model(*number).signed(),
{
    number.as_i64()
}

/// `serde_json::Number::as_u64`: the number, where it is whole and in range.
#[verifier::external_body]
fn number_unsigned(number: &serde_json::Number) -> (r: Option<u64>)
    ensures
        r == number_model(*number).unsigned(),
{
    number.as_u64()
}

/// The bits of `serde_json::Number::as_f64`: those of a double as it is, of a
/// whole number those of the double nearest to it, which is negative and which
/// is at least 100 exactly where the number is. The negative zero comes of none.
/// A whole number of at most 53 binary digits is a double itself.
#[verifier::external_body]
fn number_bits(number: &serde_json::Number) -> (r: u64)
    ensures
        match number_model(*number) {
            NumberModel::Whole(n) => r == whole_as_float(n) && (n < 0 <==> r
                >= 0x8000_0000_0000_0000) && r != 0x8000_0000_0000_0000 && (n >= 100
                <==> 0x4059_0000_0000_0000 <= r < 0x8000_0000_0000_0000) && (-0x20_0000_0000_0000 < n
                < 0x20_0000_0000_0000 ==> r == whole_bits(n)),
            NumberModel::Float(bits) => r == bits,
        },
{
    number.as_f64().unwrap_or_default().to_bits()
}

/// `serde_json::Number`'s `Clone`: the same number.
#[verifier::external_body]
fn copy_number(number: &serde_json::Number) -> (r: serde_json::Number)
    ensures
        number_model(r) == number_model(*number),
{
    number.clone()
}

/// `serde_json::Number`'s `From<u64>`: that whole number.
#[verifier::external_body]
fn number_from_unsigned(value: u64) -> (r: serde_json::Number)
    ensures
        number_model(r) == NumberModel::Whole(value as int),
{
    serde_json::Number::from(value)
}

/// `serde_json::Number`'s `From<i64>`: that whole number.
#[verifier::external_body]
fn number_from_signed(value: i64) -> (r: serde_json::Number)
    ensures
        number_model(r) == NumberModel::Whole(value as int),
{
    serde_json::Number::from(value)
}

/// `serde_json::from_str` into a value; of an error only its words are kept.
#[verifier::external_body]
fn value_from_text(text: &str) -> (r: Result<serde_json::Value, String>)
    ensures
        match r {
            Ok(value) => json_in_text(text@) == Ok::<JsonModel, Seq<char>>(value_model(value)),
            Err(words) => json_in_text(text@) == Err::<JsonModel, Seq<char>>(words@),
        },
{
    serde_json::from_str(text).map_err(|error| error.to_string())
}

/// `serde_json::from_slice` into a value; of an error only its words are kept.
#[verifier::external_body]
fn value_from_bytes(bytes: &[u8]) -> (r: Result<serde_json::Value, String>)
    ensures
        match r {
            Ok(value) => json_in_bytes(bytes@) == Ok::<JsonModel, Seq<char>>(value_model(value)),
            Err(words) => json_in_bytes(bytes@) == Err::<JsonModel, Seq<char>>(words@),
        },
{
    serde_json::from_slice(bytes).map_err(|error| error.to_string())
}

/// `serde_json::to_vec` of a value. The compact form that it writes holds no
/// line feed, since a control character in a string is written as an escape. It
/// reads back as the form over several lines does.
#[verifier::external_body]
fn value_to_bytes(value: &serde_json::Value) -> (r: Result<Vec<u8>, String>)
    ensures
        match r {
            Ok(bytes) => json_as_bytes(value_model(*value)) == Ok::<Seq<u8>, Seq<char>>(bytes@)
                && !bytes@.contains(10u8) && (is_readable(value_model(*value), 127) ==> (
            json_in_bytes(bytes@) matches Ok(read) && alike(value_model(*value), read))),
            Err(words) => json_as_bytes(value_model(*value)) == Err::<Seq<u8>, Seq<char>>(words@),
        },
{
    serde_json::to_vec(value).map_err(|error| error.to_string())
}

/// `serde_json::to_vec_pretty` of a value. What it writes reads back with
/// `serde_json::from_slice`, where the value is within the reader's limit of 127
/// levels and its doubles are so far from the largest one that none overflows.
/// The value that is read is the same but for its doubles: each is written with a
/// point or an exponent and is read as a double again. Which double is read is
/// not said: the reader does not promise the nearest one.
#[verifier::external_body]
fn value_to_pretty_bytes(value: &serde_json::Value) -> (r: Result<Vec<u8>, String>)
    ensures
        match r {
            Ok(bytes) => json_as_pretty_bytes(value_model(*value)) == Ok::<Seq<u8>, Seq<char>>(
                bytes@,
            ) && (is_readable(value_model(*value), 127) ==> (json_in_bytes(bytes@) matches Ok(
                read,
            ) && alike(value_model(*value), read))),
            Err(words) => json_as_pretty_bytes(value_model(*value)) == Err::<Seq<u8>, Seq<char>>(
                words@,
            ),
        },
{
    serde_json::to_vec_pretty(value).map_err(|error| error.to_string())
}

/// Whether the fields of an object stand in the order of their names, each once.
pub open spec fn names_ascend(fields: Seq<(Seq<char>, JsonModel)>) -> bool {
    forall|i: int, j: int| 0 <= i < j < fields.len() ==> sorts_before(fields[i].0, fields[j].0)
}

/// Whether the fields of every object in a value ascend.
pub open spec fn is_settled(model: JsonModel) -> bool
    decreases model,
{
    match model {
        JsonModel::List(items) => (forall|i: int|
            0 <= i < items.len() ==> is_settled(#[trigger] items[i])),
        JsonModel::Object(fields) => names_ascend(fields) && (forall|i: int|
            0 <= i < fields.len() ==> is_settled((#[trigger] fields[i]).1)),
        _ => true,
    }
}

/// A value with the fields of every object in the order of their names, the last
/// of each name.
pub open spec fn ordered(model: JsonModel) -> JsonModel
    decreases model,
{
    match model {
        JsonModel::List(items) => JsonModel::List(ordered_items(items)),
        JsonModel::Object(fields) => JsonModel::Object(in_name_order(ordered_values(fields))),
        other => other,
    }
}

/// Values, each with the fields of its objects in order.
pub open spec fn ordered_items(items: Seq<JsonModel>) -> Seq<JsonModel>
    decreases items,
{
    Seq::new(
        items.len(),
        |i: int|
            if 0 <= i < items.len() {
                ordered(items[i])
            } else {
                JsonModel::Null
            },
    )
}

/// Fields, each with the fields of the objects in its value in order.
pub open spec fn ordered_values(fields: Seq<(Seq<char>, JsonModel)>) -> Seq<(Seq<char>, JsonModel)>
    decreases fields,
{
    Seq::new(
        fields.len(),
        |i: int|
            if 0 <= i < fields.len() {
                (fields[i].0, ordered(fields[i].1))
            } else {
                (Seq::<char>::empty(), JsonModel::Null)
            },
    )
}

proof fn lemma_insert_at_end(fields: Seq<(Seq<char>, JsonModel)>, item: (Seq<char>, JsonModel))
    requires
        names_ascend(fields.push(item)),
    ensures
        insert_by_name(fields, item) == fields.push(item),
    decreases fields.len(),
{
    if fields.len() == 0 {
        assert(fields.push(item) =~= seq![item]);
    } else {
        let all = fields.push(item);
        let rest = fields.drop_first();
        assert(all[0] == fields[0]);
        assert(sorts_before(all[0].0, all[fields.len() as int].0));
        lemma_order_is_strict(item.0);
        if sorts_before(item.0, fields[0].0) {
            lemma_order_is_transitive(item.0, fields[0].0, item.0);
        }
        assert forall|i: int, j: int| 0 <= i < j < rest.push(item).len() implies sorts_before(
            rest.push(item)[i].0,
            rest.push(item)[j].0,
        ) by {
            assert(rest.push(item)[i] == all[i + 1]);
            assert(rest.push(item)[j] == all[j + 1]);
        }
        lemma_insert_at_end(rest, item);
        assert(seq![fields[0]] + rest.push(item) =~= all);
    }
}

proof fn lemma_ascending_stay(fields: Seq<(Seq<char>, JsonModel)>)
    requires
        names_ascend(fields),
    ensures
        in_name_order(fields) == fields,
    decreases fields.len(),
{
    if fields.len() > 0 {
        let before = fields.drop_last();
        assert forall|i: int, j: int| 0 <= i < j < before.len() implies sorts_before(
            before[i].0,
            before[j].0,
        ) by {
            assert(sorts_before(fields[i].0, fields[j].0));
        }
        lemma_ascending_stay(before);
        assert(before.push(fields.last()) =~= fields);
        lemma_insert_at_end(before, fields.last());
    }
}

/// A value whose objects all ascend stays as it is when their fields are put in
/// the order of their names.
pub proof fn lemma_settled_stays(model: JsonModel)
    requires
        is_settled(model),
    ensures
        ordered(model) == model,
    decreases model,
{
    match model {
        JsonModel::List(items) => {
            let done = ordered_items(items);
            assert forall|i: int| 0 <= i < items.len() implies done[i] == items[i] by {
                assert(is_settled(items[i]));
                assert(decreases_to!(model => model->List_0));
                assert(decreases_to!(items => items[i]));
                lemma_settled_stays(items[i]);
            }
            assert(done =~= items);
        },
        JsonModel::Object(fields) => {
            let made = ordered_values(fields);
            assert forall|i: int| 0 <= i < fields.len() implies made[i] == fields[i] by {
                assert(is_settled(fields[i].1));
                assert(decreases_to!(model => model->Object_0));
                assert(decreases_to!(fields => fields[i]));
                assert(decreases_to!(fields[i] => fields[i].1));
                lemma_settled_stays(fields[i].1);
            }
            assert(made =~= fields);
            lemma_ascending_stay(fields);
        },
        _ => {},
    }
}

/// Makes a `serde_json::Value` of a variant and that variant's content. The map
/// of an object is a `BTreeMap`: it keeps fields whose names ascend as they are.
/// Of other fields nothing is said.
#[verifier::external_body]
fn seal_value(layer: Layer) -> (r: serde_json::Value)
    ensures
        match layer {
            Layer::Object(fields) => names_ascend(value_fields(fields@)) ==> value_model(r)
                == JsonModel::Object(value_fields(fields@)),
            _ => is_layer_of(layer, value_model(r)),
        },
{
    match layer {
        Layer::Null => serde_json::Value::Null,
        Layer::Bool(b) => serde_json::Value::Bool(b),
        Layer::Number(n) => serde_json::Value::Number(n),
        Layer::Text(s) => serde_json::Value::String(s),
        Layer::List(items) => serde_json::Value::Array(items),
        Layer::Object(fields) => serde_json::Value::Object(fields.into_iter().collect()),
    }
}

/// The library's form of a `serde_json::Value`.
fn adopt(value: serde_json::Value) -> (r: Json)
    ensures
        r@ == value_model(value),
        is_settled(r@),
    decreases value_model(value),
{
    match open_value(value) {
        Layer::Null => Json::Null,
        Layer::Bool(b) => Json::Bool(b),
        Layer::Number(n) => Json::Number(n),
        Layer::Text(s) => Json::Text(s),
        Layer::List(items) => {
            let ghost s = value_model(value)->List_0;
            let ghost all = items@;
            let mut out: Vec<Json> = Vec::new();
            for item in it: items
                invariant
                    it.seq() == all,
                    value_model(value) == JsonModel::List(s),
                    s.len() == all.len(),
                    forall|i: int| 0 <= i < s.len() ==> value_model(#[trigger] all[i]) == s[i],
                    out@.len() == it.index(),
                    forall|i: int|
                        0 <= i < out@.len() ==> (#[trigger] out@[i])@ == s[i] && is_settled(s[i]),
            {
                assert(value_model(all[it.index()]) == s[it.index()]);
                assert(decreases_to!(value_model(value) => value_model(value)->List_0));
                assert(decreases_to!(s => s[it.index()]));
                out.push(adopt(item));
            }
            let r = Json::List(out);
            assert(r@->List_0 =~= s);
            assert forall|i: int| 0 <= i < s.len() implies is_settled(#[trigger] s[i]) by {
                assert(out@[i]@ == s[i]);
            }
            r
        },
        Layer::Object(fields) => {
            let ghost s = value_model(value)->Object_0;
            let ghost all = fields@;
            assert(value_fields(all) =~= s);
            let mut out: Vec<(String, Json)> = Vec::new();
            for item in it: fields
                invariant
                    it.seq() == all,
                    value_model(value) == JsonModel::Object(s),
                    s.len() == all.len(),
                    forall|i: int|
                        0 <= i < s.len() ==> (#[trigger] all[i]).0@ == s[i].0 && value_model(
                            all[i].1,
                        ) == s[i].1,
                    out@.len() == it.index(),
                    forall|i: int|
                        0 <= i < out@.len() ==> (#[trigger] out@[i]).0@ == s[i].0 && out@[i].1@
                            == s[i].1 && is_settled(s[i].1),
            {
                assert(value_model(all[it.index()].1) == s[it.index()].1);
                assert(decreases_to!(value_model(value) => value_model(value)->Object_0));
                assert(decreases_to!(s => s[it.index()]));
                assert(decreases_to!(s[it.index()] => s[it.index()].1));
                out.push((item.0, adopt(item.1)));
            }
            let r = Json::Object(out);
            assert(r@->Object_0 =~= s);
            assert forall|i: int| 0 <= i < s.len() implies is_settled((#[trigger] s[i]).1) by {
                assert(out@[i].0@ == s[i].0);
            }
            r
        },
    }
}

/// The `serde_json::Value` that says what a value of the library says.
fn release(json: &Json) -> (r: serde_json::Value)
    ensures
        value_model(r) == ordered(json@),
    decreases json,
{
    match json {
        Json::Null => seal_value(Layer::Null),
        Json::Bool(b) => seal_value(Layer::Bool(*b)),
        Json::Number(n) => seal_value(Layer::Number(copy_number(n))),
        Json::Text(s) => seal_value(Layer::Text(s.clone())),
        Json::List(items) => {
            let ghost s = json@->List_0;
            let mut out: Vec<serde_json::Value> = Vec::new();
            let mut i: usize = 0;
            while i < items.len()
                invariant
                    *json == Json::List(*items),
                    json@ == JsonModel::List(s),
                    s.len() == items@.len(),
                    i <= items@.len(),
                    out@.len() == i,
                    forall|j: int| 0 <= j < i ==> value_model(#[trigger] out@[j]) == ordered(s[j]),
                decreases items@.len() - i,
            {
                assert(s[i as int] == items@[i as int]@);
                assert(decreases_to!(*json => (*json)->List_0));
                assert(decreases_to!((*json)->List_0 => (*json)->List_0@));
                assert(decreases_to!(items@ => items@[i as int]));
                out.push(release(&items[i]));
                i = i + 1;
            }
            let r = seal_value(Layer::List(out));
            proof {
                let made = value_model(r)->List_0;
                let done = ordered_items(s);
                assert forall|j: int| 0 <= j < s.len() implies made[j] == done[j] by {
                    assert(value_model(out@[j]) == ordered(s[j]));
                }
                assert(made =~= done);
            }
            r
        },
        Json::Object(fields) => {
            let ghost s = json@->Object_0;
            let ghost done = ordered_values(s);
            let mut out: Vec<(String, serde_json::Value)> = Vec::new();
            let mut i: usize = 0;
            assert(done.take(0) =~= Seq::empty());
            assert(value_fields(out@) =~= Seq::empty());
            while i < fields.len()
                invariant
                    *json == Json::Object(*fields),
                    json@ == JsonModel::Object(s),
                    s.len() == fields@.len(),
                    done == ordered_values(s),
                    i <= fields@.len(),
                    value_fields(out@) == in_name_order(done.take(i as int)),
                decreases fields@.len() - i,
            {
                assert(s[i as int] == (fields@[i as int].0@, fields@[i as int].1@));
                assert(decreases_to!(*json => (*json)->Object_0));
                assert(decreases_to!((*json)->Object_0 => (*json)->Object_0@));
                assert(decreases_to!(fields@ => fields@[i as int]));
                assert(decreases_to!(fields@[i as int] => fields@[i as int].1));
                assert(done.take(i + 1).drop_last() =~= done.take(i as int));
                assert(done.take(i + 1).last() == done[i as int]);
                insert_value(&mut out, fields[i].0.clone(), release(&fields[i].1));
                i = i + 1;
            }
            assert(done.take(i as int) =~= done);
            proof {
                lemma_in_name_order(done);
            }
            seal_value(Layer::Object(out))
        },
    }
}

/// Reads a JSON text. The fields of every object that is read ascend.
pub fn read_text(text: &str) -> (r: Result<Json, String>)
    ensures
        match r {
            Ok(json) => json_in_text(text@) == Ok::<JsonModel, Seq<char>>(json@) && is_settled(
                json@,
            ),
            Err(words) => json_in_text(text@) == Err::<JsonModel, Seq<char>>(words@),
        },
{
    match value_from_text(text) {
        Ok(value) => Ok(adopt(value)),
        Err(words) => Err(words),
    }
}

/// Reads JSON in bytes. The fields of every object that is read ascend.
pub fn read_bytes(bytes: &[u8]) -> (r: Result<Json, String>)
    ensures
        match r {
            Ok(json) => json_in_bytes(bytes@) == Ok::<JsonModel, Seq<char>>(json@) && is_settled(
                json@,
            ),
            Err(words) => json_in_bytes(bytes@) == Err::<JsonModel, Seq<char>>(words@),
        },
{
    match value_from_bytes(bytes) {
        Ok(value) => Ok(adopt(value)),
        Err(words) => Err(words),
    }
}

/// Writes a value in the compact form, which holds no line feed, with the fields
/// of every object in the order of their names. A readable value reads back, but
/// for its doubles.
pub fn write_bytes(json: &Json) -> (r: Result<Vec<u8>, String>)
    ensures
        match r {
            Ok(bytes) => json_as_bytes(ordered(json@)) == Ok::<Seq<u8>, Seq<char>>(bytes@)
                && !bytes@.contains(10u8) && (is_readable(ordered(json@), 127) ==> (json_in_bytes(
                bytes@,
            ) matches Ok(read) && alike(ordered(json@), read))),
            Err(words) => json_as_bytes(ordered(json@)) == Err::<Seq<u8>, Seq<char>>(words@),
        },
{
    let value = release(json);
    value_to_bytes(&value)
}

/// Writes a value over several lines, with the fields of every object in the
/// order of their names. A readable value reads back, but for its doubles.
pub fn write_pretty_bytes(json: &Json) -> (r: Result<Vec<u8>, String>)
    ensures
        match r {
            Ok(bytes) => json_as_pretty_bytes(ordered(json@)) == Ok::<Seq<u8>, Seq<char>>(bytes@)
                && (is_readable(ordered(json@), 127) ==> (json_in_bytes(bytes@) matches Ok(read)
                && alike(ordered(json@), read))),
            Err(words) => json_as_pretty_bytes(ordered(json@)) == Err::<Seq<u8>, Seq<char>>(words@),
        },
{
    let value = release(json);
    value_to_pretty_bytes(&value)
}

/// A field that is put in place of another keeps the names of all fields.
pub proof fn lemma_put_keeps_names(
    fields: Seq<(Seq<char>, JsonModel)>,
    key: Seq<char>,
    value: JsonModel,
)
    requires
        lookup(fields, key) is Some,
    ensures
        put(fields, key, value).len() == fields.len(),
        forall|i: int|
            0 <= i < fields.len() ==> (#[trigger] put(fields, key, value)[i]).0 == fields[i].0 && (
            put(fields, key, value)[i].1 == fields[i].1 || put(fields, key, value)[i].1 == value),
    decreases fields.len(),
{
    let done = put(fields, key, value);
    let rest = fields.drop_first();
    if fields[0].0 != key {
        lemma_put_keeps_names(rest, key, value);
        assert forall|i: int| 0 <= i < fields.len() implies (#[trigger] done[i]).0 == fields[i].0 && (
        done[i].1 == fields[i].1 || done[i].1 == value) by {
            if i > 0 {
                assert(done[i] == put(rest, key, value)[i - 1]);
                assert(fields[i] == rest[i - 1]);
            }
        }
    } else {
        assert forall|i: int| 0 <= i < fields.len() implies (#[trigger] done[i]).0 == fields[i].0 && (
        done[i].1 == fields[i].1 || done[i].1 == value) by {
            if i > 0 {
                assert(done[i] == rest[i - 1]);
            }
        }
    }
}

/// Fields in the order of their names with one more put in, in place of one of
/// the same name.
pub open spec fn insert_by_name(
    fields: Seq<(Seq<char>, JsonModel)>,
    item: (Seq<char>, JsonModel),
) -> Seq<(Seq<char>, JsonModel)>
    decreases fields.len(),
{
    if fields.len() == 0 {
        seq![item]
    } else if sorts_before(item.0, fields[0].0) {
        seq![item] + fields
    } else if item.0 == fields[0].0 {
        seq![item] + fields.drop_first()
    } else {
        seq![fields[0]] + insert_by_name(fields.drop_first(), item)
    }
}

/// The fields in the order of their names, the last of each name.
pub open spec fn in_name_order(fields: Seq<(Seq<char>, JsonModel)>) -> Seq<(Seq<char>, JsonModel)>
    decreases fields.len(),
{
    if fields.len() == 0 {
        Seq::empty()
    } else {
        insert_by_name(in_name_order(fields.drop_last()), fields.last())
    }
}

/// Whether some field has this name.
pub open spec fn has_name(fields: Seq<(Seq<char>, JsonModel)>, name: Seq<char>) -> bool {
    exists|i: int| 0 <= i < fields.len() && (#[trigger] fields[i]).0 == name
}

proof fn lemma_insert_by_name(fields: Seq<(Seq<char>, JsonModel)>, item: (Seq<char>, JsonModel))
    requires
        names_ascend(fields),
    ensures
        names_ascend(insert_by_name(fields, item)),
        forall|name: Seq<char>| #[trigger]
            has_name(insert_by_name(fields, item), name) <==> has_name(fields, name) || name
                == item.0,
    decreases fields.len(),
{
    let done = insert_by_name(fields, item);
    if fields.len() == 0 {
        assert(done[0] == item);
    } else {
        let rest = fields.drop_first();
        assert(fields =~= seq![fields[0]] + rest);
        assert forall|i: int, j: int| 0 <= i < j < rest.len() implies sorts_before(
            rest[i].0,
            rest[j].0,
        ) by {
            assert(sorts_before(fields[i + 1].0, fields[j + 1].0));
        }
        if sorts_before(item.0, fields[0].0) {
            assert forall|i: int, j: int| 0 <= i < j < done.len() implies sorts_before(
                done[i].0,
                done[j].0,
            ) by {
                if i == 0 && j > 1 {
                    lemma_order_is_transitive(item.0, fields[0].0, fields[j - 1].0);
                }
            }
            assert forall|name: Seq<char>| #[trigger]
                has_name(done, name) <==> has_name(fields, name) || name == item.0 by {
                if has_name(fields, name) {
                    let i = choose|i: int| 0 <= i < fields.len() && (#[trigger] fields[i]).0 == name;
                    assert(done[i + 1] == fields[i]);
                }
                if has_name(done, name) {
                    let i = choose|i: int| 0 <= i < done.len() && (#[trigger] done[i]).0 == name;
                    if i > 0 {
                        assert(done[i] == fields[i - 1]);
                    }
                }
                assert(done[0] == item);
            }
        } else if item.0 == fields[0].0 {
            assert forall|i: int, j: int| 0 <= i < j < done.len() implies sorts_before(
                done[i].0,
                done[j].0,
            ) by {
                assert(sorts_before(fields[i].0, fields[j].0));
            }
            assert forall|name: Seq<char>| #[trigger]
                has_name(done, name) <==> has_name(fields, name) || name == item.0 by {
                if has_name(fields, name) {
                    let i = choose|i: int| 0 <= i < fields.len() && (#[trigger] fields[i]).0 == name;
                    assert(done[i].0 == fields[i].0);
                }
                if has_name(done, name) {
                    let i = choose|i: int| 0 <= i < done.len() && (#[trigger] done[i]).0 == name;
                    assert(done[i].0 == fields[i].0);
                }
                assert(done[0] == item);
            }
        } else {
            lemma_order_is_total(item.0, fields[0].0);
            let later = insert_by_name(rest, item);
            lemma_insert_by_name(rest, item);
            assert forall|i: int, j: int| 0 <= i < j < done.len() implies sorts_before(
                done[i].0,
                done[j].0,
            ) by {
                if i == 0 {
                    assert(has_name(later, later[j - 1].0));
                    if later[j - 1].0 != item.0 {
                        assert(has_name(rest, later[j - 1].0));
                        let k = choose|k: int|
                            0 <= k < rest.len() && (#[trigger] rest[k]).0 == later[j - 1].0;
                        assert(sorts_before(fields[0].0, fields[k + 1].0));
                    }
                } else {
                    assert(sorts_before(later[i - 1].0, later[j - 1].0));
                }
            }
            assert forall|name: Seq<char>| #[trigger]
                has_name(done, name) <==> has_name(fields, name) || name == item.0 by {
                if has_name(fields, name) {
                    let i = choose|i: int| 0 <= i < fields.len() && (#[trigger] fields[i]).0 == name;
                    if i == 0 {
                        assert(done[0].0 == name);
                    } else {
                        assert(rest[i - 1].0 == name);
                        assert(has_name(later, name));
                        let k = choose|k: int|
                            0 <= k < later.len() && (#[trigger] later[k]).0 == name;
                        assert(done[k + 1].0 == name);
                    }
                }
                if name == item.0 {
                    assert(has_name(later, name));
                    let k = choose|k: int| 0 <= k < later.len() && (#[trigger] later[k]).0 == name;
                    assert(done[k + 1].0 == name);
                }
                if has_name(done, name) {
                    let i = choose|i: int| 0 <= i < done.len() && (#[trigger] done[i]).0 == name;
                    if i == 0 {
                        assert(fields[0].0 == name);
                    } else {
                        assert(later[i - 1].0 == name);
                        assert(has_name(later, name));
                        if name != item.0 {
                            let k = choose|k: int|
                                0 <= k < rest.len() && (#[trigger] rest[k]).0 == name;
                            assert(fields[k + 1].0 == name);
                        }
                    }
                }
            }
        }
    }
}

/// Putting fields in the order of their names makes the names ascend, keeps
/// every name and adds none.
pub proof fn lemma_in_name_order(fields: Seq<(Seq<char>, JsonModel)>)
    ensures
        names_ascend(in_name_order(fields)),
        forall|name: Seq<char>| #[trigger]
            has_name(in_name_order(fields), name) <==> has_name(fields, name),
    decreases fields.len(),
{
    if fields.len() > 0 {
        let before = fields.drop_last();
        lemma_in_name_order(before);
        lemma_insert_by_name(in_name_order(before), fields.last());
        assert forall|name: Seq<char>| #[trigger]
            has_name(in_name_order(fields), name) <==> has_name(fields, name) by {
            if has_name(fields, name) {
                let i = choose|i: int| 0 <= i < fields.len() && (#[trigger] fields[i]).0 == name;
                if i < before.len() {
                    assert(before[i].0 == name);
                }
            }
            if has_name(before, name) {
                let i = choose|i: int| 0 <= i < before.len() && (#[trigger] before[i]).0 == name;
                assert(fields[i].0 == name);
            }
            assert(has_name(in_name_order(before), name) <==> has_name(before, name));
            assert(fields[fields.len() - 1] == fields.last());
        }
    }
}

/// What a list of fields says.
pub open spec fn fields_model(fields: Seq<(String, Json)>) -> Seq<(Seq<char>, JsonModel)> {
    Seq::new(fields.len(), |i: int| (fields[i].0@, fields[i].1@))
}

/// The fields in the order of their names, the last of each name.
pub fn order_fields(fields: &Vec<(String, Json)>) -> (r: Vec<(String, Json)>)
    ensures
        fields_model(r@) == in_name_order(fields_model(fields@)),
{
    let mut out: Vec<(String, Json)> = Vec::new();
    let mut i: usize = 0;
    let ghost all = fields_model(fields@);
    assert(all.take(0) =~= Seq::empty());
    assert(fields_model(out@) =~= Seq::empty());
    while i < fields.len()
        invariant
            all == fields_model(fields@),
            i <= fields@.len(),
            fields_model(out@) == in_name_order(all.take(i as int)),
        decreases fields@.len() - i,
    {
        assert(all.take(i + 1).drop_last() =~= all.take(i as int));
        assert(all.take(i + 1).last() == all[i as int]);
        insert_field(&mut out, fields[i].0.clone(), fields[i].1.copy());
        i = i + 1;
    }
    assert(all.take(i as int) =~= all);
    out
}

/// The place where a field of a name belongs, and whether one of that name
/// stands there.
fn find_slot<T>(fields: &Vec<(String, T)>, name: &str) -> (r: (usize, bool))
    ensures
        r.0 <= fields@.len(),
        forall|j: int|
            0 <= j < r.0 ==> !sorts_before(name@, (#[trigger] fields@[j]).0@) && name@
                != fields@[j].0@,
        r.1 ==> r.0 < fields@.len() && name@ == fields@[r.0 as int].0@ && !sorts_before(
            name@,
            fields@[r.0 as int].0@,
        ),
        !r.1 ==> r.0 == fields@.len() || sorts_before(name@, fields@[r.0 as int].0@),
{
    let mut at: usize = 0;
    while at < fields.len()
        invariant
            at <= fields@.len(),
            forall|j: int|
                0 <= j < at ==> !sorts_before(name@, (#[trigger] fields@[j]).0@) && name@
                    != fields@[j].0@,
        decreases fields@.len() - at,
    {
        if text_sorts_before(name, fields[at].0.as_str()) {
            return (at, false);
        }
        if same_text(name, fields[at].0.as_str()) {
            return (at, true);
        }
        at = at + 1;
    }
    (at, false)
}

proof fn lemma_insert_at(
    fields: Seq<(Seq<char>, JsonModel)>,
    item: (Seq<char>, JsonModel),
    at: int,
    found: bool,
)
    requires
        0 <= at <= fields.len(),
        forall|j: int|
            0 <= j < at ==> !sorts_before(item.0, (#[trigger] fields[j]).0) && item.0
                != fields[j].0,
        found ==> at < fields.len() && item.0 == fields[at].0 && !sorts_before(
            item.0,
            fields[at].0,
        ),
        !found ==> at == fields.len() || sorts_before(item.0, fields[at].0),
    ensures
        insert_by_name(fields, item) == (if found {
            fields.update(at, item)
        } else {
            fields.insert(at, item)
        }),
    decreases fields.len(),
{
    let done = if found {
        fields.update(at, item)
    } else {
        fields.insert(at, item)
    };
    if fields.len() == 0 {
        assert(done =~= seq![item]);
    } else if at == 0 {
        if found {
            assert(done =~= seq![item] + fields.drop_first());
        } else {
            assert(done =~= seq![item] + fields);
        }
    } else {
        let rest = fields.drop_first();
        assert forall|j: int| 0 <= j < at - 1 implies !sorts_before(
            item.0,
            (#[trigger] rest[j]).0,
        ) && item.0 != rest[j].0 by {
            assert(rest[j] == fields[j + 1]);
        }
        assert(!sorts_before(item.0, fields[0].0) && item.0 != fields[0].0);
        lemma_insert_at(rest, item, at - 1, found);
        assert(done =~= seq![fields[0]] + insert_by_name(rest, item));
    }
}

fn insert_field(fields: &mut Vec<(String, Json)>, name: String, value: Json)
    ensures
        fields_model(final(fields)@) == insert_by_name(
            fields_model(old(fields)@),
            (name@, value@),
        ),
{
    let ghost before = fields_model(fields@);
    let ghost item = (name@, value@);
    let (at, found) = find_slot(fields, name.as_str());
    proof {
        assert forall|j: int| 0 <= j < at implies !sorts_before(
            item.0,
            (#[trigger] before[j]).0,
        ) && item.0 != before[j].0 by {
            assert(before[j].0 == fields@[j].0@);
        }
        lemma_insert_at(before, item, at as int, found);
    }
    if found {
        fields.set(at, (name, value));
        assert(fields_model(fields@) =~= before.update(at as int, item));
    } else {
        fields.insert(at, (name, value));
        assert(fields_model(fields@) =~= before.insert(at as int, item));
    }
}

fn insert_value(
    fields: &mut Vec<(String, serde_json::Value)>,
    name: String,
    value: serde_json::Value,
)
    ensures
        value_fields(final(fields)@) == insert_by_name(
            value_fields(old(fields)@),
            (name@, value_model(value)),
        ),
{
    let ghost before = value_fields(fields@);
    let ghost item = (name@, value_model(value));
    let (at, found) = find_slot(fields, name.as_str());
    proof {
        assert forall|j: int| 0 <= j < at implies !sorts_before(
            item.0,
            (#[trigger] before[j]).0,
        ) && item.0 != before[j].0 by {
            assert(before[j].0 == fields@[j].0@);
        }
        lemma_insert_at(before, item, at as int, found);
    }
    if found {
        fields.set(at, (name, value));
        assert(value_fields(fields@) =~= before.update(at as int, item));
    } else {
        fields.insert(at, (name, value));
        assert(value_fields(fields@) =~= before.insert(at as int, item));
    }
}

/// A field is found under its name, the first where several have it, and is read as
/// what it is: a text, a flag or a whole number that fits, and nothing else.
pub proof fn lemma_fields_are_read(
    fields: Seq<(Seq<char>, JsonModel)>,
    key: Seq<char>,
    i: int,
)
    requires
        0 <= i < fields.len(),
        fields[i].0 == key,
        forall|j: int| 0 <= j < i ==> (#[trigger] fields[j]).0 != key,
    ensures
        ({
            let object = JsonModel::Object(fields);
            let value = fields[i].1;
            &&& object.field(key) == Some(value)
            &&& value matches JsonModel::Text(words) ==> object.text_field(key) == Some(words)
            &&& !(value is Text) ==> object.text_field(key) is None
            &&& value matches JsonModel::Bool(flag) ==> object.flag_field(key) == Some(flag)
            &&& !(value is Bool) ==> object.flag_field(key) is None
            &&& value matches JsonModel::Number(NumberModel::Whole(n)) ==> (object.signed_field(
                key,
            ) matches Some(m) ==> m == n) && (object.unsigned_field(key) matches Some(m) ==> m == n)
                && (object.signed_field(key) is Some <==> -0x8000_0000_0000_0000 <= n
                < 0x8000_0000_0000_0000) && (object.unsigned_field(key) is Some <==> 0 <= n
                < 0x1_0000_0000_0000_0000)
            &&& !(value matches JsonModel::Number(NumberModel::Whole(_))) ==> object.signed_field(
                key,
            ) is None && object.unsigned_field(key) is None
        }),
    decreases i,
{
    if i > 0 {
        assert(fields[0].0 != key);
        let rest = fields.drop_first();
        assert forall|j: int| 0 <= j < i - 1 implies (#[trigger] rest[j]).0 != key by {
            assert(fields[j + 1].0 != key);
        }
        lemma_fields_are_read(rest, key, i - 1);
    }
}

/// Where no field has a name, none is found under it; what is no object has none.
pub proof fn lemma_missing_fields(
    fields: Seq<(Seq<char>, JsonModel)>,
    key: Seq<char>,
    other: JsonModel,
)
    ensures
        !has_name(fields, key) ==> JsonModel::Object(fields).field(key) is None,
        !(other is Object) ==> other.field(key) is None,
    decreases fields.len(),
{
    if !has_name(fields, key) && fields.len() > 0 {
        let rest = fields.drop_first();
        assert(fields[0].0 != key);
        assert forall|i: int| 0 <= i < rest.len() implies (#[trigger] rest[i]).0 != key by {
            assert(fields[i + 1].0 != key);
        }
        assert(!has_name(rest, key));
        lemma_missing_fields(rest, key, other);
    }
}

/// Of several fields with one name the last one is kept when fields are put in the
/// order of their names.
pub proof fn lemma_last_of_a_name_is_kept(fields: Seq<(Seq<char>, JsonModel)>, k: int)
    requires
        0 <= k < fields.len(),
        forall|j: int| k < j < fields.len() ==> (#[trigger] fields[j]).0 != fields[k].0,
    ensures
        lookup(in_name_order(fields), fields[k].0) == Some(fields[k].1),
    decreases fields.len(),
{
    let front = fields.drop_last();
    let before = in_name_order(front);
    let last = fields.last();
    let key = fields[k].0;
    lemma_insert_then_lookup(before, last, key);
    if k < fields.len() - 1 {
        assert(fields[fields.len() - 1].0 != key);
        assert forall|j: int| k < j < front.len() implies (#[trigger] front[j]).0 != front[k].0 by {
            assert(fields[j].0 != fields[k].0);
        }
        lemma_last_of_a_name_is_kept(front, k);
    }
}

proof fn lemma_insert_then_lookup(
    fields: Seq<(Seq<char>, JsonModel)>,
    item: (Seq<char>, JsonModel),
    key: Seq<char>,
)
    ensures
        key == item.0 ==> lookup(insert_by_name(fields, item), key) == Some(item.1),
        key != item.0 ==> lookup(insert_by_name(fields, item), key) == lookup(fields, key),
    decreases fields.len(),
{
    reveal_with_fuel(lookup, 2);
    let done = insert_by_name(fields, item);
    if fields.len() == 0 {
        assert(done.drop_first() =~= Seq::empty());
    } else if sorts_before(item.0, fields[0].0) {
        assert(done.drop_first() =~= fields);
    } else if item.0 == fields[0].0 {
        assert(done.drop_first() =~= fields.drop_first());
    } else {
        assert(done.drop_first() =~= insert_by_name(fields.drop_first(), item));
        lemma_insert_then_lookup(fields.drop_first(), item, key);
    }
}

/// The bits of a whole number that has `k` binary digits after the first: the exponent
/// with 1023 on top, and the digits after the first, filled up to 52. A negative number
/// differs in the sign alone.
pub proof fn lemma_whole_bits(n: int, k: nat)
    requires
        k <= 52,
        vstd::arithmetic::power2::pow2(k) <= n < 2 * vstd::arithmetic::power2::pow2(k),
    ensures
        whole_bits(0) == 0,
        whole_bits(n) == (1023 + k) * 0x10_0000_0000_0000 + (n - vstd::arithmetic::power2::pow2(k))
            * vstd::arithmetic::power2::pow2((52 - k) as nat),
        whole_bits(-n) == 0x8000_0000_0000_0000 + whole_bits(n),
{
    let j = (52 - k) as nat;
    vstd::arithmetic::power2::lemma_pow2_pos(k);
    vstd::arithmetic::power2::lemma_pow2_pos(j);
    vstd::arithmetic::power2::lemma_pow2_adds(k, j);
    vstd::arithmetic::power2::lemma2_to64();
    vstd::arithmetic::power2::lemma2_to64_rest();
    let p = vstd::arithmetic::power2::pow2(k) as int;
    let q = vstd::arithmetic::power2::pow2(j) as int;
    assert(p * q == 0x10_0000_0000_0000);
    assert(p * q <= n * q < 2 * (p * q)) by (nonlinear_arith)
        requires
            p <= n < 2 * p,
            q > 0,
    ;
    assert((n - p) * q == n * q - p * q) by (nonlinear_arith);
    lemma_doubled_bits(n, 52, j);
}

proof fn lemma_doubled_bits(m: int, e: nat, j: nat)
    requires
        j <= e,
        m > 0,
        0x10_0000_0000_0000 <= m * vstd::arithmetic::power2::pow2(j) < 0x20_0000_0000_0000,
    ensures
        doubled_bits(m, e) == (1022 + e - j) * 0x10_0000_0000_0000 + m
            * vstd::arithmetic::power2::pow2(j),
    decreases j,
{
    vstd::arithmetic::power2::lemma2_to64();
    if j > 0 {
        let half = vstd::arithmetic::power2::pow2((j - 1) as nat) as int;
        vstd::arithmetic::power2::lemma_pow2_unfold(j);
        vstd::arithmetic::power2::lemma_pow2_pos((j - 1) as nat);
        assert(m * (2 * half) == (2 * m) * half) by (nonlinear_arith);
        assert(m < 0x10_0000_0000_0000) by (nonlinear_arith)
            requires
                (2 * m) * half < 0x20_0000_0000_0000,
                half >= 1,
                m > 0,
        ;
        assert(m * vstd::arithmetic::power2::pow2(j) == (2 * m) * half);
        lemma_doubled_bits(2 * m, (e - 1) as nat, (j - 1) as nat);
    } else {
        assert(m * vstd::arithmetic::power2::pow2(j) == m) by (nonlinear_arith)
            requires
                vstd::arithmetic::power2::pow2(j) == 1,
        ;
    }
}

} // verus!
