//! The body of a response: a JSON object whose fields are all strings.
use vstd::prelude::*;

use crate::framing::no_line_breaks;
use crate::text::digit_char;

verus! {

/// The abstract content of a list of string fields: each key and value as
/// character sequences, in order.
pub open spec fn fields_view(fields: Seq<(String, String)>) -> Seq<(Seq<char>, Seq<char>)> {
    fields.map_values(|f: (String, String)| (f.0@, f.1@))
}

/// No key occurs twice.
pub open spec fn keys_distinct(fields: Seq<(Seq<char>, Seq<char>)>) -> bool {
    forall|i: int, j: int|
        0 <= i < fields.len() && 0 <= j < fields.len() && i != j ==> #[trigger] fields[i].0
            != #[trigger] fields[j].0
}

/// The value stored under `key`, if any.
pub open spec fn lookup(fields: Seq<(Seq<char>, Seq<char>)>, key: Seq<char>) -> Option<Seq<char>>
    decreases fields.len(),
{
    if fields.len() == 0 {
        None
    } else if fields.last().0 == key {
        Some(fields.last().1)
    } else {
        lookup(fields.drop_last(), key)
    }
}

/// The fields after storing `value` under `key`: an existing field with that
/// key keeps its place and takes the new value, otherwise the field is added
/// at the end.
pub open spec fn store(fields: Seq<(Seq<char>, Seq<char>)>, key: Seq<char>, value: Seq<char>) -> Seq<(Seq<char>, Seq<char>)> {
    if exists|i: int| 0 <= i < fields.len() && #[trigger] fields[i].0 == key {
        let i = choose|i: int| 0 <= i < fields.len() && #[trigger] fields[i].0 == key;
        fields.update(i, (key, value))
    } else {
        fields.push((key, value))
    }
}

/// Storing into an empty object gives the single field.
pub proof fn lemma_store_empty(key: Seq<char>, value: Seq<char>)
    ensures
        store(Seq::empty(), key, value) == seq![(key, value)],
{
    assert(Seq::<(Seq<char>, Seq<char>)>::empty().push((key, value)) =~= seq![(key, value)]);
}

/// Storing under a key that no field has appends the field.
pub proof fn lemma_store_fresh(fields: Seq<(Seq<char>, Seq<char>)>, key: Seq<char>, value: Seq<char>)
    requires
        forall|i: int| 0 <= i < fields.len() ==> #[trigger] fields[i].0 != key,
    ensures
        store(fields, key, value) == fields.push((key, value)),
{
}

/// Reading a key gives back the value last stored under it, and storing
/// under one key leaves the others as they were.
pub proof fn lemma_lookup_after_store(fields: Seq<(Seq<char>, Seq<char>)>, key: Seq<char>, value: Seq<char>, other: Seq<char>)
    requires
        keys_distinct(fields),
    ensures
        lookup(store(fields, key, value), key) == Some(value),
        other != key ==> lookup(store(fields, key, value), other) == lookup(fields, other),
        keys_distinct(store(fields, key, value)),
{
    if exists|i: int| 0 <= i < fields.len() && #[trigger] fields[i].0 == key {
        let i = choose|i: int| 0 <= i < fields.len() && #[trigger] fields[i].0 == key;
        lemma_lookup_update(fields, i, value, key);
        lemma_lookup_update(fields, i, value, other);
        let u = fields.update(i, (key, value));
        assert forall|a: int, b: int| 0 <= a < u.len() && 0 <= b < u.len() && a != b implies #[trigger] u[a].0
            != #[trigger] u[b].0 by {
            assert(fields[a].0 != fields[b].0);
        }
    } else {
        let p = fields.push((key, value));
        assert(p.drop_last() =~= fields);
        assert forall|a: int, b: int| 0 <= a < p.len() && 0 <= b < p.len() && a != b implies #[trigger] p[a].0
            != #[trigger] p[b].0 by {
            if a < fields.len() && b < fields.len() {
                assert(fields[a].0 != fields[b].0);
            } else if a < fields.len() {
                assert(fields[a].0 != key);
            } else {
                assert(fields[b].0 != key);
            }
        }
    }
}

proof fn lemma_lookup_update(fields: Seq<(Seq<char>, Seq<char>)>, i: int, value: Seq<char>, k: Seq<char>)
    requires
        keys_distinct(fields),
        0 <= i < fields.len(),
    ensures
        lookup(fields.update(i, (fields[i].0, value)), k) == if k == fields[i].0 { Some(value) } else { lookup(fields, k) },
    decreases fields.len(),
{
    let u = fields.update(i, (fields[i].0, value));
    if i == fields.len() - 1 {
        assert(u.drop_last() =~= fields.drop_last());
    } else {
        assert(u.drop_last() =~= fields.drop_last().update(i, (fields[i].0, value)));
        assert(fields.drop_last()[i] == fields[i]);
        assert(keys_distinct(fields.drop_last())) by {
            assert forall|a: int, b: int| 0 <= a < fields.drop_last().len() && 0 <= b < fields.drop_last().len() && a != b
                implies #[trigger] fields.drop_last()[a].0 != #[trigger] fields.drop_last()[b].0 by {
                assert(fields[a].0 != fields[b].0);
            }
        }
        lemma_lookup_update(fields.drop_last(), i, value, k);
        assert(u.last() == fields.last());
        assert(fields.last().0 != fields[i].0);
    }
}

/// A lowercase hexadecimal digit.
pub open spec fn hex_digit(d: nat) -> char {
    if d < 10 {
        digit_char(d)
    } else if d == 10 {
        'a'
    } else if d == 11 {
        'b'
    } else if d == 12 {
        'c'
    } else if d == 13 {
        'd'
    } else if d == 14 {
        'e'
    } else {
        'f'
    }
}

/// How the `json` crate writes one character inside a string: a quote and a
/// backslash get a backslash before them; backspace, tab, line feed, form
/// feed and carriage return become `\b`, `\t`, `\n`, `\f`, `\r`; the
/// other characters below U+0020 become `\u00` and two lowercase hex
/// digits; every other character is written as it is.
pub open spec fn json_escaped_char(c: char) -> Seq<char> {
    if c == '"' {
        seq!['\\', '"']
    } else if c == '\\' {
        seq!['\\', '\\']
    } else if c == '\u{8}' {
        seq!['\\', 'b']
    } else if c == '\t' {
        seq!['\\', 't']
    } else if c == '\n' {
        seq!['\\', 'n']
    } else if c == '\u{c}' {
        seq!['\\', 'f']
    } else if c == '\r' {
        seq!['\\', 'r']
    } else if (c as u32) < 0x20 {
        seq!['\\', 'u', '0', '0', hex_digit((c as u32 / 16) as nat), hex_digit((c as u32 % 16) as nat)]
    } else {
        seq![c]
    }
}

/// The characters of a string, each written as `json_escaped_char` says.
pub open spec fn json_escaped(s: Seq<char>) -> Seq<char>
    decreases s.len(),
{
    if s.len() == 0 {
        Seq::empty()
    } else {
        json_escaped(s.drop_last()) + json_escaped_char(s.last())
    }
}

/// Characters that need no escape are written as they are: a text without
/// quotes, backslashes and characters below U+0020 stands unchanged between
/// the quotes.
pub proof fn lemma_plain_text_unescaped(s: Seq<char>)
    requires
        forall|i: int| 0 <= i < s.len() ==> (#[trigger] s[i] as u32) >= 0x20 && s[i] != '"' && s[i] != '\\',
    ensures
        json_escaped(s) == s,
    decreases s.len(),
{
    if s.len() > 0 {
        assert(s.last() == s[s.len() - 1]);
        let c = s.last();
        assert(c != '\u{8}' && c != '\t' && c != '\n' && c != '\u{c}' && c != '\r') by {
            assert(('\u{8}' as u32) == 8 && ('\t' as u32) == 9 && ('\n' as u32) == 10 && ('\u{c}' as u32) == 12
                && ('\r' as u32) == 13);
        }
        lemma_plain_text_unescaped(s.drop_last());
        assert(s.drop_last().push(c) =~= s);
    }
}

/// A JSON string literal: the escaped text between double quotes.
pub open spec fn json_string(s: Seq<char>) -> Seq<char> {
    seq!['"'] + json_escaped(s) + seq!['"']
}

/// One member of an object: key, colon, value.
pub open spec fn json_member(field: (Seq<char>, Seq<char>)) -> Seq<char> {
    json_string(field.0) + seq![':'] + json_string(field.1)
}

/// The members of an object separated by commas, in order.
pub open spec fn json_members(fields: Seq<(Seq<char>, Seq<char>)>) -> Seq<char>
    decreases fields.len(),
{
    if fields.len() == 0 {
        Seq::empty()
    } else if fields.len() == 1 {
        json_member(fields[0])
    } else {
        json_members(fields.drop_last()) + seq![','] + json_member(fields.last())
    }
}

/// The compact JSON text that `json::JsonValue::dump` writes for an object
/// holding the given string fields in the given order: braces around the
/// members, with no whitespace anywhere.
pub open spec fn json_object_text(fields: Seq<(Seq<char>, Seq<char>)>) -> Seq<char> {
    seq!['{'] + json_members(fields) + seq!['}']
}

proof fn lemma_concat_no_breaks(a: Seq<char>, b: Seq<char>)
    requires
        no_line_breaks(a),
        no_line_breaks(b),
    ensures
        no_line_breaks(a + b),
{
    assert forall|i: int| 0 <= i < (a + b).len() implies #[trigger] (a + b)[i] != '\r' && (a + b)[i] != '\n' by {
        if i < a.len() {
            assert((a + b)[i] == a[i]);
        } else {
            assert((a + b)[i] == b[i - a.len()]);
        }
    }
}

proof fn lemma_escaped_no_breaks(s: Seq<char>)
    ensures
        no_line_breaks(json_escaped(s)),
    decreases s.len(),
{
    if s.len() > 0 {
        lemma_escaped_no_breaks(s.drop_last());
        let e = json_escaped_char(s.last());
        assert(no_line_breaks(e)) by {
            let c = s.last();
            if (c as u32) < 0x20 && c != '"' && c != '\\' && c != '\u{8}' && c != '\t' && c != '\n' && c != '\u{c}' && c != '\r' {
                let hi = hex_digit((c as u32 / 16) as nat);
                let lo = hex_digit((c as u32 % 16) as nat);
                assert(hi != '\r' && hi != '\n' && lo != '\r' && lo != '\n');
                assert(e =~= seq!['\\', 'u', '0', '0', hi, lo]);
            }
        }
        lemma_concat_no_breaks(json_escaped(s.drop_last()), e);
    }
}

proof fn lemma_string_no_breaks(s: Seq<char>)
    ensures
        no_line_breaks(json_string(s)),
{
    lemma_escaped_no_breaks(s);
    lemma_concat_no_breaks(seq!['"'], json_escaped(s));
    lemma_concat_no_breaks(seq!['"'] + json_escaped(s), seq!['"']);
}

proof fn lemma_members_no_breaks(fields: Seq<(Seq<char>, Seq<char>)>)
    ensures
        no_line_breaks(json_members(fields)),
    decreases fields.len(),
{
    if fields.len() > 0 {
        let last = fields.last();
        lemma_string_no_breaks(last.0);
        lemma_string_no_breaks(last.1);
        lemma_concat_no_breaks(json_string(last.0), seq![':']);
        lemma_concat_no_breaks(json_string(last.0) + seq![':'], json_string(last.1));
        if fields.len() == 1 {
            assert(fields[0] == last);
        } else {
            lemma_members_no_breaks(fields.drop_last());
            lemma_concat_no_breaks(json_members(fields.drop_last()), seq![',']);
            lemma_concat_no_breaks(json_members(fields.drop_last()) + seq![','], json_member(last));
        }
    }
}

/// The JSON text of an object holds no carriage return or line feed.
pub proof fn lemma_json_object_text_no_breaks(fields: Seq<(Seq<char>, Seq<char>)>)
    ensures
        no_line_breaks(json_object_text(fields)),
{
    lemma_members_no_breaks(fields);
    lemma_concat_no_breaks(seq!['{'], json_members(fields));
    lemma_concat_no_breaks(seq!['{'] + json_members(fields), seq!['}']);
}

/// Renders string fields with distinct keys as a compact JSON object with
/// `json::JsonValue::dump`. Trusted: the text is what `json_object_text`
/// states. The crate collects the fields into an object in insertion order
/// (a key seen twice would keep its first place, which distinct keys rule
/// out), writes each key and value with the escape table of its code
/// generator, and separates tokens by `:` and `,` alone.
#[verifier::external_body]
fn dump_json_object(fields: &Vec<(String, String)>) -> (text: String)
    requires
        keys_distinct(fields_view(fields@)),
    ensures
        text@ == json_object_text(fields_view(fields@)),
{
    json::JsonValue::Object(
        fields.iter().map(|(key, value)| (key.as_str(), value.as_str())).collect(),
    ).dump()
}

/// A JSON object with string fields, kept in insertion order.
pub struct Payload {
    fields: Vec<(String, String)>,
}

impl View for Payload {
    type V = Seq<(Seq<char>, Seq<char>)>;

    closed spec fn view(&self) -> Seq<(Seq<char>, Seq<char>)> {
        fields_view(self.fields@)
    }
}

impl Payload {
    #[verifier::type_invariant]
    spec fn wf(self) -> bool {
        keys_distinct(fields_view(self.fields@))
    }

    /// An object with no fields.
    pub fn new() -> (p: Payload)
        ensures
            p@ == Seq::<(Seq<char>, Seq<char>)>::empty(),
    {
        let p = Payload { fields: Vec::new() };
        assert(p@ =~= Seq::<(Seq<char>, Seq<char>)>::empty());
        p
    }

    /// Stores `value` under `key`, replacing the value of an existing field
    /// with that key in place.
    pub fn insert(&mut self, key: &str, value: String)
        ensures
            final(self)@ == store(old(self)@, key@, value@),
    {
        proof {
            use_type_invariant(&*self);
        }
        let ghost before = self@;
        let n = self.fields.len();
        let mut i: usize = 0;
        while i < n
            invariant
                n == self.fields.len(),
                i <= n,
                before == fields_view(self.fields@),
                before == old(self)@,
                keys_distinct(before),
                forall|j: int| 0 <= j < i ==> #[trigger] before[j].0 != key@,
            decreases n - i,
        {
            if str_eq(self.fields[i].0.as_str(), key) {
                assert(before[i as int].0 == key@);
                let mut fields: Vec<(String, String)> = Vec::new();
                std::mem::swap(&mut fields, &mut self.fields);
                fields.set(i, (string_from(key), value));
                proof {
                    let i2 = choose|j: int| 0 <= j < before.len() && #[trigger] before[j].0 == key@;
                    assert(i2 == i as int);
                    assert(fields_view(fields@) =~= before.update(i as int, (key@, value@)));
                }
                self.fields = fields;
                assert(self@ == store(before, key@, value@));
                return;
            }
            i += 1;
        }
        let mut fields: Vec<(String, String)> = Vec::new();
        std::mem::swap(&mut fields, &mut self.fields);
        fields.push((string_from(key), value));
        proof {
            assert(fields_view(fields@) =~= before.push((key@, value@)));
        }
        self.fields = fields;
    }

    /// The value of the field named `key`, if there is one.
    pub fn get(&self, key: &str) -> (v: Option<&String>)
        ensures
            match v {
                Some(s) => lookup(self@, key@) == Some(s@),
                None => lookup(self@, key@) is None,
            },
    {
        let mut i = self.fields.len();
        assert(self@.take(i as int) =~= self@);
        while i > 0
            invariant
                i <= self.fields.len(),
                lookup(self@, key@) == lookup(self@.take(i as int), key@),
            decreases i,
        {
            let ghost pre = self@.take(i as int);
            assert(pre.drop_last() =~= self@.take(i - 1));
            if str_eq(self.fields[i - 1].0.as_str(), key) {
                return Some(&self.fields[i - 1].1);
            }
            i -= 1;
        }
        None
    }

    /// Whether the object has a field named `key`.
    pub fn contains_key(&self, key: &str) -> (b: bool)
        ensures
            b == (lookup(self@, key@) is Some),
    {
        self.get(key).is_some()
    }

    /// The fields, in order.
    pub fn fields(&self) -> (f: &Vec<(String, String)>)
        ensures
            fields_view(f@) == self@,
    {
        &self.fields
    }

    /// The compact JSON text of the object.
    pub fn to_string(&self) -> (s: String)
        ensures
            s@ == json_object_text(self@),
            no_line_breaks(s@),
    {
        proof {
            use_type_invariant(self);
            lemma_json_object_text_no_breaks(self@);
        }
        dump_json_object(&self.fields)
    }
}

/// Whether two string slices hold the same characters.
#[verifier::external_body]
pub(crate) fn str_eq(a: &str, b: &str) -> (r: bool)
    ensures
        r == (a@ == b@),
{
    a == b
}

/// An owned copy of a string slice.
pub fn string_from(s: &str) -> (r: String)
    ensures
        r@ == s@,
{
    s.to_owned()
}

} // verus!
