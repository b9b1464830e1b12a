//! JSON values and their compact text.

use vstd::prelude::*;
use vstd::utf8::*;
use crate::json::escape::{escape_chars, push_escaped};
use crate::json::number::{number_text, push_int, Number};
use crate::json::text::{lemma_encode_concat, push_ascii, push_str_bytes, str_eq, string_from_encoded};

verus! {

/// A JSON value.
#[derive(Debug)]
pub enum Value {
    Null,
    True,
    False,
    String(String),
    Number(Number),
    Array(Vec<Value>),
    Object(Object),
}

/// A JSON object: members with pairwise distinct keys, kept in the order in
/// which their keys were first inserted.
#[derive(Debug)]
pub struct Object {
    entries: Vec<(String, Value)>,
}

impl Object {
    /// The members, in insertion order.
    pub closed spec fn members(&self) -> Seq<(String, Value)> {
        self.entries@
    }

    /// No key occurs twice.
    #[verifier::type_invariant]
    spec fn keys_distinct(self) -> bool {
        keys_distinct(self.entries@)
    }

    /// Whether some member has the key `k`.
    pub open spec fn has_key(&self, k: Seq<char>) -> bool {
        has_key_in(self.members(), k)
    }

    /// The value of the member with key `k`, if there is one.
    pub open spec fn value_of(&self, k: Seq<char>) -> Option<Value> {
        value_in(self.members(), k)
    }

    /// An object without members.
    pub fn new() -> (obj: Object)
        ensures
            obj.members() == Seq::<(String, Value)>::empty(),
    {
        Object { entries: Vec::new() }
    }

    /// The number of members.
    pub fn len(&self) -> (n: usize)
        ensures
            n == self.members().len(),
    {
        self.entries.len()
    }

    /// Sets the value of `key` and returns the value it had. A member with
    /// that key keeps its place and its key and takes the new value; otherwise
    /// the member is added at the end. Reading `key` afterwards gives `value`,
    /// and every other key reads as before.
    pub fn insert(&mut self, key: String, value: Value) -> (previous: Option<Value>)
        ensures
            previous == old(self).value_of(key@),
            final(self).value_of(key@) == Some(value),
            forall|k: Seq<char>| k != key@ ==> #[trigger] final(self).value_of(k) == old(self).value_of(k),
            old(self).has_key(key@) ==> exists|i: int|
                0 <= i < old(self).members().len() && #[trigger] old(self).members()[i].0@ == key@
                    && final(self).members() == old(self).members().update(
                    i,
                    (old(self).members()[i].0, value),
                ),
            !old(self).has_key(key@) ==> final(self).members() == old(self).members().push(
                (key, value),
            ),
            final(self).members().len() == old(self).members().len() + if old(self).has_key(key@) {
                0int
            } else {
                1int
            },
            keys_distinct(final(self).members()),
    {
        proof {
            use_type_invariant(&*self);
        }
        let mut entries: Vec<(String, Value)> = Vec::new();
        std::mem::swap(&mut entries, &mut self.entries);
        let ghost old_entries = entries@;
        assert(old_entries == old(self).members());
        let mut i: usize = 0;
        while i < entries.len()
            invariant
                0 <= i <= entries@.len(),
                entries@ == old_entries,
                old_entries == old(self).members(),
                keys_distinct(old_entries),
                forall|j: int| 0 <= j < i ==> #[trigger] old_entries[j].0@ != key@,
            decreases entries@.len() - i,
        {
            if entries[i].0 == key {
                let (k, v) = entries.remove(i);
                entries.insert(i, (k, value));
                proof {
                    assert(entries@ =~= old_entries.update(i as int, (old_entries[i as int].0, value)));
                    lemma_value_in_update(old_entries, i as int, value);
                    lemma_value_in_at(old_entries, i as int);
                }
                self.entries = entries;
                return Some(v);
            }
            i += 1;
        }
        proof {
            assert(!has_key_in(old_entries, key@));
            lemma_value_in_push(old_entries, key, value);
        }
        entries.push((key, value));
        proof {
            assert(entries@ =~= old_entries.push((key, value)));
        }
        self.entries = entries;
        None
    }

    /// The value of the member with key `key`, if there is one.
    pub fn get(&self, key: &str) -> (found: Option<&Value>)
        ensures
            found matches Some(v) ==> self.value_of(key@) == Some(*v),
            found is None <==> self.value_of(key@) is None,
    {
        proof {
            use_type_invariant(self);
        }
        let mut i: usize = 0;
        while i < self.entries.len()
            invariant
                0 <= i <= self.entries@.len(),
                keys_distinct(self.entries@),
                forall|j: int| 0 <= j < i ==> #[trigger] self.entries@[j].0@ != key@,
            decreases self.entries@.len() - i,
        {
            if str_eq(self.entries[i].0.as_str(), key) {
                proof {
                    lemma_value_in_at(self.entries@, i as int);
                }
                return Some(&self.entries[i].1);
            }
            i += 1;
        }
        None
    }
}

/// Whether some member of `members` has the key `k`.
pub open spec fn has_key_in(members: Seq<(String, Value)>, k: Seq<char>) -> bool {
    exists|i: int| 0 <= i < members.len() && #[trigger] members[i].0@ == k
}

/// The value of the (first) member of `members` with key `k`, if there is one.
pub open spec fn value_in(members: Seq<(String, Value)>, k: Seq<char>) -> Option<Value> {
    if has_key_in(members, k) {
        Some(members[choose|i: int| 0 <= i < members.len() && #[trigger] members[i].0@ == k].1)
    } else {
        None
    }
}

/// With distinct keys, the value of a member's key is that member's value.
proof fn lemma_value_in_at(members: Seq<(String, Value)>, i: int)
    requires
        keys_distinct(members),
        0 <= i < members.len(),
    ensures
        value_in(members, members[i].0@) == Some(members[i].1),
{
    let k = members[i].0@;
    assert(has_key_in(members, k));
    let j = choose|j: int| 0 <= j < members.len() && #[trigger] members[j].0@ == k;
    if j < i {
        assert(members[j].0@ != members[i].0@);
    } else if i < j {
        assert(members[i].0@ != members[j].0@);
    }
}

/// Replacing the value of member `i` changes the value of its key only.
proof fn lemma_value_in_update(members: Seq<(String, Value)>, i: int, v: Value)
    requires
        keys_distinct(members),
        0 <= i < members.len(),
    ensures
        keys_distinct(members.update(i, (members[i].0, v))),
        value_in(members.update(i, (members[i].0, v)), members[i].0@) == Some(v),
        forall|k: Seq<char>|
            k != members[i].0@ ==> #[trigger] value_in(members.update(i, (members[i].0, v)), k)
                == value_in(members, k),
{
    let m2 = members.update(i, (members[i].0, v));
    assert forall|a: int, b: int| 0 <= a < b < m2.len() implies #[trigger] m2[a].0@
        != #[trigger] m2[b].0@ by {
        assert(m2[a].0 == members[a].0);
        assert(m2[b].0 == members[b].0);
    }
    lemma_value_in_at(m2, i);
    assert forall|k: Seq<char>| k != members[i].0@ implies #[trigger] value_in(m2, k) == value_in(
        members,
        k,
    ) by {
        if has_key_in(members, k) {
            let j = choose|j: int| 0 <= j < members.len() && #[trigger] members[j].0@ == k;
            assert(m2[j] == members[j]);
            lemma_value_in_at(members, j);
            lemma_value_in_at(m2, j);
        } else {
            if has_key_in(m2, k) {
                let j = choose|j: int| 0 <= j < m2.len() && #[trigger] m2[j].0@ == k;
                assert(m2[j].0 == members[j].0);
            }
        }
    }
}

/// Adding a member with a new key gives that key its value and leaves every
/// other key as it was.
proof fn lemma_value_in_push(members: Seq<(String, Value)>, key: String, v: Value)
    requires
        keys_distinct(members),
        !has_key_in(members, key@),
    ensures
        keys_distinct(members.push((key, v))),
        value_in(members.push((key, v)), key@) == Some(v),
        forall|k: Seq<char>|
            k != key@ ==> #[trigger] value_in(members.push((key, v)), k) == value_in(members, k),
{
    let m2 = members.push((key, v));
    assert forall|a: int, b: int| 0 <= a < b < m2.len() implies #[trigger] m2[a].0@
        != #[trigger] m2[b].0@ by {
        assert(m2[a] == members[a]);
        if b < members.len() {
            assert(m2[b] == members[b]);
        } else {
            assert(members[a].0@ != key@);
        }
    }
    lemma_value_in_at(m2, members.len() as int);
    assert forall|k: Seq<char>| k != key@ implies #[trigger] value_in(m2, k) == value_in(members, k) by {
        if has_key_in(members, k) {
            let j = choose|j: int| 0 <= j < members.len() && #[trigger] members[j].0@ == k;
            assert(m2[j] == members[j]);
            lemma_value_in_at(members, j);
            lemma_value_in_at(m2, j);
        } else {
            if has_key_in(m2, k) {
                let j = choose|j: int| 0 <= j < m2.len() && #[trigger] m2[j].0@ == k;
                if j < members.len() {
                    assert(m2[j] == members[j]);
                }
            }
        }
    }
}

/// The keys of `members` are pairwise distinct.
pub open spec fn keys_distinct(members: Seq<(String, Value)>) -> bool {
    forall|i: int, j: int|
        0 <= i < j < members.len() ==> #[trigger] members[i].0@ != #[trigger] members[j].0@
}

/// The text of a string member or value: the escaped characters in quotes.
pub open spec fn quoted_text(s: Seq<char>) -> Seq<char> {
    seq!['"'] + escape_chars(s) + seq!['"']
}

/// The compact JSON text of a value.
pub open spec fn value_text(v: Value) -> Seq<char>
    decreases v, 0int,
{
    match v {
        Value::Null => seq!['n', 'u', 'l', 'l'],
        Value::True => seq!['t', 'r', 'u', 'e'],
        Value::False => seq!['f', 'a', 'l', 's', 'e'],
        Value::String(s) => quoted_text(s@),
        Value::Number(n) => number_text(n),
        Value::Array(a) => seq!['['] + items_text(a@) + seq![']'],
        Value::Object(o) => seq!['{'] + members_text(o.members()) + seq!['}'],
    }
}

/// The texts of the values, separated by commas.
pub open spec fn items_text(items: Seq<Value>) -> Seq<char>
    decreases items, 1int,
{
    if items.len() == 0 {
        seq![]
    } else if items.len() == 1 {
        value_text(items[0])
    } else {
        items_text(items.drop_last()) + seq![','] + value_text(items.last())
    }
}

/// The text of one member: quoted key, colon, value.
pub open spec fn member_text(m: (String, Value)) -> Seq<char>
    decreases m, 1int,
{
    quoted_text(m.0@) + seq![':'] + value_text(m.1)
}

/// The texts of the members, separated by commas.
pub open spec fn members_text(members: Seq<(String, Value)>) -> Seq<char>
    decreases members, 2int,
{
    if members.len() == 0 {
        seq![]
    } else if members.len() == 1 {
        member_text(members[0])
    } else {
        members_text(members.drop_last()) + seq![','] + member_text(members.last())
    }
}


/// The encoding of a text grown by `p` is the old encoding followed by that of `p`.
proof fn lemma_grow(start: Seq<u8>, t: Seq<char>, p: Seq<char>)
    ensures
        start + encode_utf8(t) + encode_utf8(p) == start + encode_utf8(t + p),
{
    lemma_encode_concat(t, p);
    assert(start + encode_utf8(t) + encode_utf8(p) =~= start + (encode_utf8(t) + encode_utf8(p)));
}

/// Appends the text of `v` to `out`, in UTF-8.
fn push_value(out: &mut Vec<u8>, v: &Value)
    ensures
        final(out)@ == old(out)@ + encode_utf8(value_text(*v)),
    decreases *v, 0int,
{
    let ghost start = out@;
    match v {
        Value::Null => {
            push_str_bytes(out, "null");
            proof {
                reveal_strlit("null");
                assert("null"@ =~= seq!['n', 'u', 'l', 'l']);
            }
        },
        Value::True => {
            push_str_bytes(out, "true");
            proof {
                reveal_strlit("true");
                assert("true"@ =~= seq!['t', 'r', 'u', 'e']);
            }
        },
        Value::False => {
            push_str_bytes(out, "false");
            proof {
                reveal_strlit("false");
                assert("false"@ =~= seq!['f', 'a', 'l', 's', 'e']);
            }
        },
        Value::String(x) => {
            push_quoted(out, x.as_str());
        },
        Value::Number(x) => {
            match x {
                Number::Integer(i) => push_int(out, *i),
                Number::Real(t) => push_str_bytes(out, t.as_str()),
            }
        },
        Value::Array(x) => {
            push_ascii(out, 0x5B);
            let ghost t1 = seq!['['];
            assert((0x5Bu8) as char == '[');
            let ghost mid = out@;
            push_items(out, x.as_slice());
            proof {
                lemma_grow(start, t1, items_text(x@));
            }
            push_ascii(out, 0x5D);
            proof {
                assert((0x5Du8) as char == ']');
                lemma_grow(start, t1 + items_text(x@), seq![']']);
            }
        },
        Value::Object(o) => {
            push_ascii(out, 0x7B);
            let ghost t1 = seq!['{'];
            assert((0x7Bu8) as char == '{');
            push_members(out, &o.entries);
            proof {
                lemma_grow(start, t1, members_text(o.members()));
            }
            push_ascii(out, 0x7D);
            proof {
                assert((0x7Du8) as char == '}');
                lemma_grow(start, t1 + members_text(o.members()), seq!['}']);
            }
        },
    }
}

/// Appends the quoted, escaped form of `s` to `out`, in UTF-8.
fn push_quoted(out: &mut Vec<u8>, s: &str)
    ensures
        final(out)@ == old(out)@ + encode_utf8(quoted_text(s@)),
{
    let ghost start = out@;
    push_ascii(out, 0x22);
    assert((0x22u8) as char == '"');
    push_escaped(out, s);
    proof {
        lemma_grow(start, seq!['"'], escape_chars(s@));
    }
    push_ascii(out, 0x22);
    proof {
        lemma_grow(start, seq!['"'] + escape_chars(s@), seq!['"']);
    }
}

/// Appends the texts of `items`, separated by commas, to `out`, in UTF-8.
fn push_items(out: &mut Vec<u8>, items: &[Value])
    ensures
        final(out)@ == old(out)@ + encode_utf8(items_text(items@)),
    decreases items@, 1int,
{
    let ghost start = out@;
    let mut i: usize = 0;
    assert(items@.take(0) =~= Seq::<Value>::empty());
    while i < items.len()
        invariant
            0 <= i <= items@.len(),
            out@ == start + encode_utf8(items_text(items@.take(i as int))),
        decreases items@.len() - i,
    {
        let ghost t = items_text(items@.take(i as int));
        assert(items@.take(i + 1).drop_last() =~= items@.take(i as int));
        if i > 0 {
            push_ascii(out, 0x2C);
            assert((0x2Cu8) as char == ',');
            proof {
                lemma_grow(start, t, seq![',']);
            }
            push_value(out, &items[i]);
            proof {
                lemma_grow(start, t + seq![','], value_text(items@[i as int]));
            }
        } else {
            push_value(out, &items[i]);
            proof {
                lemma_grow(start, t, value_text(items@[i as int]));
                assert(t =~= Seq::<char>::empty());
                assert(t + value_text(items@[i as int]) =~= value_text(items@[i as int]));
            }
        }
        i += 1;
    }
    assert(items@.take(i as int) =~= items@);
}

/// Appends the texts of `members`, separated by commas, to `out`, in UTF-8.
fn push_members(out: &mut Vec<u8>, members: &Vec<(String, Value)>)
    ensures
        final(out)@ == old(out)@ + encode_utf8(members_text(members@)),
    decreases members@, 2int,
{
    let ghost start = out@;
    let mut i: usize = 0;
    assert(members@.take(0) =~= Seq::<(String, Value)>::empty());
    while i < members.len()
        invariant
            0 <= i <= members@.len(),
            out@ == start + encode_utf8(members_text(members@.take(i as int))),
        decreases members@.len() - i,
    {
        let ghost t = members_text(members@.take(i as int));
        let ghost m = members@[i as int];
        assert(members@.take(i + 1).drop_last() =~= members@.take(i as int));
        let ghost pre = if i > 0 { t + seq![','] } else { t };
        if i > 0 {
            push_ascii(out, 0x2C);
            assert((0x2Cu8) as char == ',');
            proof {
                lemma_grow(start, t, seq![',']);
            }
        }
        let entry = &members[i];
        push_quoted(out, entry.0.as_str());
        proof {
            lemma_grow(start, pre, quoted_text(m.0@));
        }
        push_ascii(out, 0x3A);
        assert((0x3Au8) as char == ':');
        proof {
            lemma_grow(start, pre + quoted_text(m.0@), seq![':']);
        }
        push_value(out, &entry.1);
        proof {
            lemma_grow(start, pre + quoted_text(m.0@) + seq![':'], value_text(m.1));
            assert(pre + quoted_text(m.0@) + seq![':'] + value_text(m.1) =~= pre + member_text(m));
            if i == 0 {
                assert(t =~= Seq::<char>::empty());
                assert(pre + member_text(m) =~= member_text(m));
            }
        }
        i += 1;
    }
    assert(members@.take(i as int) =~= members@);
}


/// The texts of the values of `arr`, separated by commas (empty for no values).
pub fn array_to_str(arr: &[Value]) -> (text: String)
    ensures
        text@ == items_text(arr@),
{
    let mut out: Vec<u8> = Vec::new();
    push_items(&mut out, arr);
    assert(out@ =~= encode_utf8(items_text(arr@)));
    string_from_encoded(out, Ghost(items_text(arr@)))
}

/// The texts of the members of `obj` (`"key":value`), separated by commas,
/// in the object's member order (empty for no members).
pub fn object_to_str(obj: &Object) -> (text: String)
    ensures
        text@ == members_text(obj.members()),
{
    let mut out: Vec<u8> = Vec::new();
    push_members(&mut out, &obj.entries);
    assert(out@ =~= encode_utf8(members_text(obj.members())));
    string_from_encoded(out, Ghost(members_text(obj.members())))
}

impl Value {
    /// The compact JSON text of this value.
    pub fn to_string(&self) -> (text: String)
        ensures
            text@ == value_text(*self),
    {
        let mut out: Vec<u8> = Vec::new();
        push_value(&mut out, self);
        assert(out@ =~= encode_utf8(value_text(*self)));
        string_from_encoded(out, Ghost(value_text(*self)))
    }
}


impl From<&str> for Value {
    fn from(value: &str) -> (v: Value)
        ensures
            v matches Value::String(s) && s@ == value@,
    {
        Value::String(String::from_str(value))
    }
}

impl vstd::std_specs::convert::FromSpecImpl<&str> for Value {
    open spec fn obeys_from_spec() -> bool {
        false
    }

    open spec fn from_spec(v: &str) -> Value {
        Value::Null
    }
}

impl From<String> for Value {
    fn from(value: String) -> (v: Value) {
        Value::String(value)
    }
}

impl vstd::std_specs::convert::FromSpecImpl<String> for Value {
    open spec fn obeys_from_spec() -> bool {
        true
    }

    open spec fn from_spec(v: String) -> Value {
        Value::String(v)
    }
}

impl From<i64> for Value {
    fn from(value: i64) -> (v: Value) {
        Value::Number(Number::Integer(value))
    }
}

impl vstd::std_specs::convert::FromSpecImpl<i64> for Value {
    open spec fn obeys_from_spec() -> bool {
        true
    }

    open spec fn from_spec(v: i64) -> Value {
        Value::Number(Number::Integer(v))
    }
}

impl From<Vec<Value>> for Value {
    fn from(value: Vec<Value>) -> (v: Value) {
        Value::Array(value)
    }
}

impl vstd::std_specs::convert::FromSpecImpl<Vec<Value>> for Value {
    open spec fn obeys_from_spec() -> bool {
        true
    }

    open spec fn from_spec(v: Vec<Value>) -> Value {
        Value::Array(v)
    }
}

impl From<Object> for Value {
    fn from(value: Object) -> (v: Value) {
        Value::Object(value)
    }
}

impl vstd::std_specs::convert::FromSpecImpl<Object> for Value {
    open spec fn obeys_from_spec() -> bool {
        true
    }

    open spec fn from_spec(v: Object) -> Value {
        Value::Object(v)
    }
}


/// Law: an array value's text is its items' text, as `array_to_str` gives
/// it, in square brackets.
pub proof fn law_array_text(items: Vec<Value>)
    ensures
        value_text(Value::Array(items)) == seq!['['] + items_text(items@) + seq![']'],
{
}

/// Law: an object value's text is its members' text, as `object_to_str`
/// gives it, in braces.
pub proof fn law_object_text(obj: Object)
    ensures
        value_text(Value::Object(obj)) == seq!['{'] + members_text(obj.members()) + seq!['}'],
{
}

/// Law: a string value's text is the escaped string in quotes.
pub proof fn law_string_text(s: String)
    ensures
        value_text(Value::String(s)) == seq!['"'] + escape_chars(s@) + seq!['"'],
{
}


/// Law: the literals are written as JSON writes them: `null`, `true`, `false`.
pub proof fn law_literal_texts()
    ensures
        value_text(Value::Null) == seq!['n', 'u', 'l', 'l'],
        value_text(Value::True) == seq!['t', 'r', 'u', 'e'],
        value_text(Value::False) == seq!['f', 'a', 'l', 's', 'e'],
{
}

/// Law: inside an object, a member is written as its key in quotes (escaped),
/// a colon, and exactly the text its value has on its own; members after the
/// first are preceded by a comma.
pub proof fn law_member_uses_value_text(members: Seq<(String, Value)>, key: String, value: Value)
    ensures
        members.len() == 0 ==> members_text(members.push((key, value))) == seq!['"'] + escape_chars(
            key@,
        ) + seq!['"', ':'] + value_text(value),
        members.len() > 0 ==> members_text(members.push((key, value))) == members_text(members)
            + seq![','] + seq!['"'] + escape_chars(key@) + seq!['"', ':'] + value_text(value),
{
    let m = members.push((key, value));
    assert(m.drop_last() =~= members);
    assert(m.last() == (key, value));
    if members.len() == 0 {
        assert(m[0] == (key, value));
        assert(members_text(m) == member_text((key, value)));
    }
    assert(member_text((key, value)) =~= seq!['"'] + escape_chars(key@) + seq!['"', ':']
        + value_text(value));
}

/// Law: inside an array, an item is written as exactly the text it has on its
/// own; items after the first are preceded by a comma.
pub proof fn law_item_uses_value_text(items: Seq<Value>, value: Value)
    ensures
        items.len() == 0 ==> items_text(items.push(value)) == value_text(value),
        items.len() > 0 ==> items_text(items.push(value)) == items_text(items) + seq![',']
            + value_text(value),
{
    let m = items.push(value);
    assert(m.drop_last() =~= items);
    if items.len() == 0 {
        assert(m[0] == value);
    }
}

} // verus!
