//! A JSON value as a tagged variant, and a JSON object as the sequence of its
//! fields.

use crate::text::str_equal;
use vstd::prelude::*;

verus! {

/// A JSON number: a text that is read as a number.
#[derive(Debug)]
pub struct JsonNumber {
    text: String,
}

/// A JSON value. A number is held as the text that writes it.
#[derive(Debug)]
pub enum JsonValue {
    Null,
    Bool(bool),
    Number(JsonNumber),
    Text(String),
    Array(Vec<JsonValue>),
    Object(JsonMap),
}

/// A JSON object: its fields in the order in which they stand. No two
/// fields have the same name. A new name goes to the end; where a field is
/// taken out, the last field moves to its place.
#[derive(Debug)]
pub struct JsonMap {
    entries: Vec<(String, JsonValue)>,
}

/// What a [`JsonValue`] is, as a mathematical value.
pub enum ValueView {
    Null,
    Bool(bool),
    Number(Seq<char>),
    Text(Seq<char>),
    Array(Seq<ValueView>),
    Object(Seq<(Seq<char>, ValueView)>),
}

/// What a [`JsonMap`] is: the sequence of its fields, each a name and a value.
pub type EntriesView = Seq<(Seq<char>, ValueView)>;

impl View for JsonValue {
    type V = ValueView;

    open spec fn view(&self) -> ValueView
        decreases self,
    {
        match self {
            JsonValue::Null => ValueView::Null,
            JsonValue::Bool(b) => ValueView::Bool(*b),
            JsonValue::Number(n) => ValueView::Number(n@),
            JsonValue::Text(t) => ValueView::Text(t@),
            JsonValue::Array(items) => ValueView::Array(
                Seq::new(
                    items@.len(),
                    |i: int|
                        if 0 <= i < items@.len() {
                            items@[i]@
                        } else {
                            ValueView::Null
                        },
                ),
            ),
            JsonValue::Object(map) => ValueView::Object(map@),
        }
    }
}

impl View for JsonMap {
    type V = EntriesView;

    closed spec fn view(&self) -> EntriesView
        decreases self,
    {
        Seq::new(
            self.entries@.len(),
            |i: int|
                if 0 <= i < self.entries@.len() {
                    (self.entries@[i].0@, self.entries@[i].1@)
                } else {
                    (Seq::empty(), ValueView::Null)
                },
        )
    }
}

/// The place of the first field named `key`; the number of fields where there
/// is none.
pub open spec fn key_index(entries: EntriesView, key: Seq<char>) -> int
    decreases entries.len(),
{
    if entries.len() == 0 {
        0
    } else if entries[0].0 == key {
        0
    } else {
        1 + key_index(entries.drop_first(), key)
    }
}

/// Whether a field is named `key`.
pub open spec fn has_key(entries: EntriesView, key: Seq<char>) -> bool {
    key_index(entries, key) < entries.len()
}

/// The value of the first field named `key`.
pub open spec fn value_of(entries: EntriesView, key: Seq<char>) -> Option<ValueView> {
    if has_key(entries, key) {
        Some(entries[key_index(entries, key)].1)
    } else {
        None
    }
}

/// The fields without the one named `key`: the last field stands in its
/// place.
pub open spec fn without_key(entries: EntriesView, key: Seq<char>) -> EntriesView {
    if has_key(entries, key) {
        entries.update(key_index(entries, key), entries.last()).drop_last()
    } else {
        entries
    }
}

/// Whether no two fields have the same name.
pub open spec fn distinct_keys(entries: EntriesView) -> bool {
    forall|i: int, j: int|
        0 <= i < j < entries.len() ==> (#[trigger] entries[i]).0 != (#[trigger] entries[j]).0
}

/// The fields after `key` is given `value`: in place where a field has that
/// name, at the end where none has.
pub open spec fn with_entry(entries: EntriesView, key: Seq<char>, value: ValueView) -> EntriesView {
    if has_key(entries, key) {
        entries.update(key_index(entries, key), (key, value))
    } else {
        entries.push((key, value))
    }
}

/// The first field named `key` is the one before which no field has that name.
pub proof fn lemma_key_index(entries: EntriesView, key: Seq<char>, i: int)
    requires
        0 <= i <= entries.len(),
        forall|j: int| 0 <= j < i ==> (#[trigger] entries[j]).0 != key,
        i < entries.len() ==> entries[i].0 == key,
    ensures
        key_index(entries, key) == i,
    decreases entries.len(),
{
    if i > 0 {
        let rest = entries.drop_first();
        assert forall|j: int| 0 <= j < i - 1 implies (#[trigger] rest[j]).0 != key by {
            assert(rest[j] == entries[j + 1]);
        }
        lemma_key_index(rest, key, i - 1);
    }
}

/// Where no two fields share a name, no field is named `key` once that name
/// is taken out, and no two of the fields that are left share a name.
pub proof fn lemma_without_key(entries: EntriesView, key: Seq<char>)
    requires
        distinct_keys(entries),
    ensures
        !has_key(without_key(entries, key), key),
        distinct_keys(without_key(entries, key)),
{
    lemma_key_index_bounds(entries, key);
    let i = key_index(entries, key);
    let rest = without_key(entries, key);
    if has_key(entries, key) {
        let n = entries.len() - 1;
        assert forall|a: int, b: int| 0 <= a < b < rest.len() implies (#[trigger] rest[a]).0 != (
        #[trigger] rest[b]).0 by {
            let a0 = if a == i { n } else { a };
            let b0 = if b == i { n } else { b };
            assert(rest[a] == entries[a0]);
            assert(rest[b] == entries[b0]);
        }
        assert forall|j: int| 0 <= j < rest.len() implies (#[trigger] rest[j]).0 != key by {
            let k = if j == i { n } else { j };
            assert(rest[j] == entries[k]);
            assert(entries[i].0 == key);
        }
    }
    lemma_key_index(rest, key, rest.len() as int);
}

/// The fields that a list of names and values stands for.
pub open spec fn fields_view(list: Seq<(String, JsonValue)>) -> EntriesView {
    Seq::new(list.len(), |i: int| (list[i].0@, list[i].1@))
}

/// The first field named `key` has that name, and no field before it has.
pub proof fn lemma_key_index_bounds(entries: EntriesView, key: Seq<char>)
    ensures
        0 <= key_index(entries, key) <= entries.len(),
        has_key(entries, key) ==> entries[key_index(entries, key)].0 == key,
        forall|j: int| 0 <= j < key_index(entries, key) ==> (#[trigger] entries[j]).0 != key,
    decreases entries.len(),
{
    if entries.len() > 0 && entries[0].0 != key {
        let rest = entries.drop_first();
        lemma_key_index_bounds(rest, key);
        assert forall|j: int| 0 <= j < key_index(entries, key) implies (#[trigger] entries[j]).0
            != key by {
            if j > 0 {
                assert(rest[j - 1] == entries[j]);
            }
        }
    }
}

impl JsonMap {
    #[verifier::type_invariant]
    spec fn inv(self) -> bool {
        distinct_keys(fields_view(self.entries@))
    }

    proof fn lemma_view(self)
        ensures
            self@ == fields_view(self.entries@),
    {
        assert(self@ =~= fields_view(self.entries@));
    }

    /// An object without fields.
    pub fn new() -> (r: Self)
        ensures
            r@ == Seq::<(Seq<char>, ValueView)>::empty(),
    {
        let r = JsonMap { entries: Vec::new() };
        assert(r@ =~= Seq::<(Seq<char>, ValueView)>::empty());
        r
    }

    /// The number of fields.
    pub fn len(&self) -> (r: usize)
        ensures
            r == self@.len(),
    {
        self.entries.len()
    }

    /// Whether the object has no field.
    pub fn is_empty(&self) -> (r: bool)
        ensures
            r == (self@.len() == 0),
    {
        self.entries.len() == 0
    }

    /// The fields, each a name and a value, in their order. No two of them
    /// have the same name.
    pub fn fields(&self) -> (r: &Vec<(String, JsonValue)>)
        ensures
            r@.len() == self@.len(),
            forall|i: int| 0 <= i < r@.len() ==> self@[i] == ((#[trigger] r@[i]).0@, r@[i].1@),
            distinct_keys(self@),
    {
        proof {
            use_type_invariant(self);
            self.lemma_view();
        }
        &self.entries
    }

    /// The place of the field named `key`, or the number of fields.
    pub fn position(&self, key: &str) -> (r: usize)
        ensures
            r == key_index(self@, key@),
            r <= self@.len(),
            r < self@.len() ==> self@[r as int].0 == key@,
            forall|j: int| 0 <= j < self@.len() && j != r ==> (#[trigger] self@[j]).0 != key@,
    {
        proof {
            use_type_invariant(self);
            self.lemma_view();
        }
        let mut i: usize = 0;
        while i < self.entries.len()
            invariant
                i <= self.entries@.len(),
                distinct_keys(self@),
                forall|j: int| 0 <= j < i ==> (#[trigger] self@[j]).0 != key@,
            decreases self.entries@.len() - i,
        {
            if str_equal(self.entries[i].0.as_str(), key) {
                proof {
                    assert(self@[i as int].0 == key@);
                    lemma_key_index(self@, key@, i as int);
                }
                return i;
            }
            assert(self@[i as int].0 != key@);
            i = i + 1;
        }
        proof {
            lemma_key_index(self@, key@, i as int);
        }
        i
    }

    /// Whether a field is named `key`.
    pub fn contains_key(&self, key: &str) -> (r: bool)
        ensures
            r == has_key(self@, key@),
    {
        self.position(key) < self.entries.len()
    }

    /// The value of the field named `key`.
    pub fn get(&self, key: &str) -> (r: Option<&JsonValue>)
        ensures
            match r {
                Some(v) => value_of(self@, key@) == Some(v@),
                None => value_of(self@, key@) is None,
            },
    {
        let i = self.position(key);
        if i < self.entries.len() {
            assert(self@[i as int].1 == self.entries@[i as int].1@);
            Some(&self.entries[i].1)
        } else {
            None
        }
    }

    /// Gives `key` the value `value`, and returns the value it had: in place
    /// where a field has that name, in a new field at the end where none has.
    pub fn insert(&mut self, key: String, value: JsonValue) -> (r: Option<JsonValue>)
        ensures
            final(self)@ == with_entry(old(self)@, key@, value@),
            match r {
                Some(v) => value_of(old(self)@, key@) == Some(v@),
                None => value_of(old(self)@, key@) is None,
            },
    {
        let ghost before = self@;
        proof {
            use_type_invariant(&*self);
            self.lemma_view();
        }
        let i = self.position(key.as_str());
        let mut held: Vec<(String, JsonValue)> = Vec::new();
        std::mem::swap(&mut self.entries, &mut held);
        assert(self@ =~= Seq::<(Seq<char>, ValueView)>::empty());
        assert(fields_view(held@) =~= before);
        if i < held.len() {
            let previous = held.remove(i);
            assert(previous.1@ == before[i as int].1);
            held.insert(i, (key, value));
            let ghost after = before.update(i as int, (key@, value@));
            assert(fields_view(held@) =~= after);
            assert forall|a: int, b: int| 0 <= a < b < after.len() implies (#[trigger] after[a]).0
                != (#[trigger] after[b]).0 by {
                assert(after[a].0 == before[a].0 && after[b].0 == before[b].0);
            }
            self.entries = held;
            assert(self@ =~= after);
            Some(previous.1)
        } else {
            held.push((key, value));
            let ghost after = before.push((key@, value@));
            assert(fields_view(held@) =~= after);
            assert forall|a: int, b: int| 0 <= a < b < after.len() implies (#[trigger] after[a]).0
                != (#[trigger] after[b]).0 by {
                if b < before.len() {
                    assert(after[a] == before[a] && after[b] == before[b]);
                } else {
                    assert(after[a] == before[a]);
                }
            }
            self.entries = held;
            assert(self@ =~= after);
            None
        }
    }

    /// Takes the field named `key` out, and returns its value. The last
    /// field moves to its place.
    pub fn remove(&mut self, key: &str) -> (r: Option<JsonValue>)
        ensures
            final(self)@ == without_key(old(self)@, key@),
            !has_key(final(self)@, key@),
            match r {
                Some(v) => value_of(old(self)@, key@) == Some(v@),
                None => value_of(old(self)@, key@) is None,
            },
    {
        let ghost before = self@;
        proof {
            use_type_invariant(&*self);
            self.lemma_view();
            lemma_without_key(before, key@);
        }
        let i = self.position(key);
        if i < self.entries.len() {
            let mut held: Vec<(String, JsonValue)> = Vec::new();
            std::mem::swap(&mut self.entries, &mut held);
            assert(self@ =~= Seq::<(Seq<char>, ValueView)>::empty());
            assert(fields_view(held@) =~= before);
            let previous = held.swap_remove(i);
            assert(previous.1@ == before[i as int].1);
            assert(fields_view(held@) =~= before.update(i as int, before.last()).drop_last());
            self.entries = held;
            assert(self@ =~= before.update(i as int, before.last()).drop_last());
            Some(previous.1)
        } else {
            None
        }
    }

    /// Puts `value` in the place of the value of the field at `at`, and
    /// returns the value that was there. Where `at` is no place of a field,
    /// nothing changes and `value` comes back.
    pub fn replace_value(&mut self, at: usize, value: JsonValue) -> (r: JsonValue)
        ensures
            at < old(self)@.len() ==> final(self)@ == old(self)@.update(
                at as int,
                (old(self)@[at as int].0, value@),
            ) && r@ == old(self)@[at as int].1,
            at >= old(self)@.len() ==> final(self)@ == old(self)@ && r@ == value@,
    {
        let ghost before = self@;
        proof {
            use_type_invariant(&*self);
            self.lemma_view();
        }
        if at >= self.entries.len() {
            return value;
        }
        let mut held: Vec<(String, JsonValue)> = Vec::new();
        std::mem::swap(&mut self.entries, &mut held);
        assert(self@ =~= Seq::<(Seq<char>, ValueView)>::empty());
        assert(fields_view(held@) =~= before);
        let previous = held.remove(at);
        assert(previous.0@ == before[at as int].0 && previous.1@ == before[at as int].1);
        held.insert(at, (previous.0, value));
        let ghost after = before.update(at as int, (before[at as int].0, value@));
        assert(fields_view(held@) =~= after);
        assert forall|a: int, b: int| 0 <= a < b < after.len() implies (#[trigger] after[a]).0 != (
        #[trigger] after[b]).0 by {
            assert(after[a].0 == before[a].0 && after[b].0 == before[b].0);
        }
        self.entries = held;
        assert(self@ =~= after);
        previous.1
    }
}

impl JsonNumber {
    #[verifier::type_invariant]
    spec fn inv(self) -> bool {
        json_parsed(self.text@) matches Some(ValueView::Number(_))
    }

    /// The text of the number.
    pub closed spec fn view(&self) -> Seq<char> {
        self.text@
    }

    /// The number that `text` writes; none where it writes no number.
    pub fn parse(text: &str) -> (r: Option<JsonNumber>)
        ensures
            match r {
                Some(n) => n@ == text@ && json_parsed(text@) matches Some(ValueView::Number(_)),
                None => !(json_parsed(text@) matches Some(ValueView::Number(_))),
            },
    {
        match read_json(text) {
            Ok(JsonValue::Number(_)) => Some(JsonNumber { text: text.to_owned() }),
            _ => None,
        }
    }

    /// The text of the number.
    pub fn as_str(&self) -> (r: &str)
        ensures
            r@ == self@,
    {
        self.text.as_str()
    }
}

impl Clone for JsonNumber {
    fn clone(&self) -> (r: Self)
        ensures
            r@ == self@,
    {
        proof {
            use_type_invariant(self);
        }
        JsonNumber { text: self.text.clone() }
    }
}

impl JsonValue {
    /// A value equal to this one.
    #[verifier::loop_isolation(false)]
    pub fn duplicate(&self) -> (r: JsonValue)
        ensures
            r@ == self@,
        decreases self,
    {
        match self {
            JsonValue::Null => JsonValue::Null,
            JsonValue::Bool(b) => JsonValue::Bool(*b),
            JsonValue::Number(n) => JsonValue::Number(n.clone()),
            JsonValue::Text(t) => JsonValue::Text(t.clone()),
            JsonValue::Array(items) => {
                let mut out: Vec<JsonValue> = Vec::new();
                let mut i: usize = 0;
                while i < items.len()
                    invariant
                        i <= items@.len(),
                        out@.len() == i,
                        forall|j: int| 0 <= j < i ==> (#[trigger] out@[j])@ == items@[j]@,
                    decreases items@.len() - i,
                {
                    out.push(items[i].duplicate());
                    i = i + 1;
                }
                let r = JsonValue::Array(out);
                assert(r@->Array_0 =~= self@->Array_0);
                r
            },
            JsonValue::Object(map) => JsonValue::Object(map.duplicate()),
        }
    }

    /// The value that a JSON text stands for; the error is the sentence of
    /// the reader.
    pub fn from_text(text: &str) -> (r: Result<JsonValue, String>)
        ensures
            match r {
                Ok(v) => json_parsed(text@) == Some(v@),
                Err(_) => json_parsed(text@) is None,
            },
    {
        read_json(text)
    }

    /// The compact JSON text of the value.
    pub fn to_text(&self) -> (r: String)
        ensures
            r@ == json_text(self@),
    {
        write_json(self)
    }

    /// Whether the value is an object.
    pub fn is_object(&self) -> (r: bool)
        ensures
            r == (self@ is Object),
    {
        match self {
            JsonValue::Object(_) => true,
            _ => false,
        }
    }
}

impl JsonMap {
    /// An object equal to this one.
    #[verifier::loop_isolation(false)]
    pub fn duplicate(&self) -> (r: JsonMap)
        ensures
            r@ == self@,
        decreases self,
    {
        proof {
            use_type_invariant(self);
            self.lemma_view();
        }
        let mut out: Vec<(String, JsonValue)> = Vec::new();
        let mut i: usize = 0;
        while i < self.entries.len()
            invariant
                i <= self.entries@.len(),
                out@.len() == i,
                forall|j: int|
                    0 <= j < i ==> (#[trigger] out@[j]).0@ == self.entries@[j].0@ && out@[j].1@
                        == self.entries@[j].1@,
            decreases self.entries@.len() - i,
        {
            out.push((self.entries[i].0.clone(), self.entries[i].1.duplicate()));
            i = i + 1;
        }
        assert(fields_view(out@) =~= self@);
        assert(fields_view(self.entries@) =~= self@);
        let r = JsonMap { entries: out };
        assert(r@ =~= self@);
        r
    }
}

impl Clone for JsonValue {
    fn clone(&self) -> (r: Self)
        ensures
            r@ == self@,
    {
        self.duplicate()
    }
}

impl Clone for JsonMap {
    fn clone(&self) -> (r: Self)
        ensures
            r@ == self@,
    {
        self.duplicate()
    }
}

/// The compact JSON text of a value, as `serde_json` writes it.
pub uninterp spec fn json_text(value: ValueView) -> Seq<char>;

/// The value that a JSON text stands for, as `serde_json` reads it; none where
/// it refuses the text.
pub uninterp spec fn json_parsed(text: Seq<char>) -> Option<ValueView>;

/// The value that JSON bytes stand for, as `serde_json` reads them; none where
/// it refuses them.
pub uninterp spec fn json_parsed_bytes(bytes: Seq<u8>) -> Option<ValueView>;

#[verifier::external_type_specification]
#[verifier::external_body]
pub struct ExValue(serde_json::Value);

/// Changes a value of this library into the `serde_json::Value` with the same
/// variant and contents. A number is read from its text.
#[verifier::external_body]
fn to_outside(value: &JsonValue) -> serde_json::Value {
    match value {
        JsonValue::Null => serde_json::Value::Null,
        JsonValue::Bool(b) => serde_json::Value::Bool(*b),
        JsonValue::Number(n) => serde_json::from_str(&n.text).unwrap_or(serde_json::Value::Null),
        JsonValue::Text(t) => serde_json::Value::String(t.clone()),
        JsonValue::Array(a) => serde_json::Value::Array(a.iter().map(to_outside).collect()),
        JsonValue::Object(m) => serde_json::Value::Object(
            m.entries.iter().map(|e| (e.0.clone(), to_outside(&e.1))).collect(),
        ),
    }
}

/// Changes a `serde_json::Value` into the value of this library with the same
/// variant and contents. A number is kept as the text that `serde_json` writes
/// for it.
#[verifier::external_body]
fn from_outside(value: serde_json::Value) -> JsonValue {
    match value {
        serde_json::Value::Null => JsonValue::Null,
        serde_json::Value::Bool(b) => JsonValue::Bool(b),
        serde_json::Value::Number(n) => JsonValue::Number(JsonNumber { text: n.to_string() }),
        serde_json::Value::String(s) => JsonValue::Text(s),
        serde_json::Value::Array(a) => JsonValue::Array(a.into_iter().map(from_outside).collect()),
        serde_json::Value::Object(m) => JsonValue::Object(
            JsonMap { entries: m.into_iter().map(|e| (e.0, from_outside(e.1))).collect() },
        ),
    }
}

/// Calls `serde_json::Value::to_string` on the converted value. The contract
/// gives the text a name, [`json_text`], and says nothing of what it holds.
#[verifier::external_body]
pub(crate) fn write_json(value: &JsonValue) -> (r: String)
    ensures
        r@ == json_text(value@),
{
    to_outside(value).to_string()
}

/// Calls `serde_json::from_str`. The contract names the value read,
/// [`json_parsed`]; the error is the sentence that `serde_json` gives.
#[verifier::external_body]
pub(crate) fn read_json(text: &str) -> (r: Result<JsonValue, String>)
    ensures
        match r {
            Ok(v) => json_parsed(text@) == Some(v@),
            Err(_) => json_parsed(text@) is None,
        },
{
    match serde_json::from_str::<serde_json::Value>(text) {
        Ok(v) => Ok(from_outside(v)),
        Err(e) => Err(e.to_string()),
    }
}

/// Calls `serde_json::from_slice`. The contract names the value read,
/// [`json_parsed_bytes`]; the error is the sentence that `serde_json` gives.
#[verifier::external_body]
pub(crate) fn read_json_bytes(bytes: &Vec<u8>) -> (r: Result<JsonValue, String>)
    ensures
        match r {
            Ok(v) => json_parsed_bytes(bytes@) == Some(v@),
            Err(_) => json_parsed_bytes(bytes@) is None,
        },
{
    match serde_json::from_slice::<serde_json::Value>(bytes) {
        Ok(v) => Ok(from_outside(v)),
        Err(e) => Err(e.to_string()),
    }
}

} // verus!
