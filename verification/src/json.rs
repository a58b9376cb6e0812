//! JSON values, held as the compact text that `serde_json` prints for them.
//!
//! Reading and writing that text is left to `serde_json`: each function below
//! that calls it hands it plain text and takes plain text back, and its result
//! has a name in specifications.
use vstd::prelude::*;
use crate::number;
use crate::text;

verus! {

/// The compact text of the JSON value that `text` denotes; `None` where `text`
/// is not JSON that `serde_json` reads.
pub uninterp spec fn json_compact(text: Seq<char>) -> Option<Seq<char>>;

/// The compact text of the member `key` of the object that `text` denotes.
pub uninterp spec fn json_member(text: Seq<char>, key: Seq<char>) -> Option<Seq<char>>;

/// The contents of the JSON string that `text` denotes.
pub uninterp spec fn json_str(text: Seq<char>) -> Option<Seq<char>>;

/// The unsigned integer that `text` denotes.
pub uninterp spec fn json_u64(text: Seq<char>) -> Option<u64>;

/// The compact texts of the items of the array that `text` denotes.
pub uninterp spec fn json_items(text: Seq<char>) -> Option<Seq<Seq<char>>>;

/// The JSON string that holds `s`.
pub uninterp spec fn json_quote(s: Seq<char>) -> Seq<char>;

/// The compact text of the array of the values that `items` denote.
pub uninterp spec fn json_array(items: Seq<Seq<char>>) -> Seq<char>;

/// The compact text of the object with the members `fields`, of which the
/// last counts where a key occurs twice.
pub uninterp spec fn json_object(fields: Seq<(Seq<char>, Seq<char>)>) -> Seq<char>;

/// The string member `key` of the object that `text` denotes.
pub open spec fn json_str_member(text: Seq<char>, key: Seq<char>) -> Option<Seq<char>> {
    match json_member(text, key) {
        Some(m) => json_str(m),
        None => None,
    }
}

/// The unsigned integer member `key` of the object that `text` denotes.
pub open spec fn json_u64_member(text: Seq<char>, key: Seq<char>) -> Option<u64> {
    match json_member(text, key) {
        Some(m) => json_u64(m),
        None => None,
    }
}

/// The member `key` of the object that `text` denotes, `null` where there is
/// none.
pub open spec fn json_index(text: Seq<char>, key: Seq<char>) -> Seq<char> {
    match json_member(text, key) {
        Some(m) => m,
        None => "null"@,
    }
}

/// Whether `text` is the compact text of a JSON value.
pub open spec fn is_compact(text: Seq<char>) -> bool {
    json_compact(text) == Some(text)
}

pub open spec fn is_quoted(text: Seq<char>) -> bool {
    exists|s: Seq<char>| text == #[trigger] json_quote(s)
}

/// Whether no other field has the key of field `i`.
pub open spec fn key_once(fields: Seq<(Seq<char>, Seq<char>)>, i: int) -> bool {
    forall|j: int| 0 <= j < fields.len() && j != i ==> #[trigger] fields[j].0 != fields[i].0
}

/// Where the string in `s` ends that goes on at `i`: behind its closing quote.
pub open spec fn string_end(s: Seq<char>, i: int) -> int
    decreases s.len() - i,
{
    if i >= s.len() {
        s.len() as int
    } else if s[i] == '"' {
        i + 1
    } else if s[i] == '\\' && i + 1 < s.len() {
        string_end(s, i + 2)
    } else {
        string_end(s, i + 1)
    }
}

/// How a character outside strings changes the level of nesting.
pub open spec fn nesting(c: char) -> int {
    if c == '{' || c == '[' {
        1
    } else if c == '}' || c == ']' {
        -1
    } else {
        0
    }
}

/// Whether a colon comes first in `s` from `i` on, white space apart.
pub open spec fn colon_next(s: Seq<char>, i: int) -> bool
    decreases s.len() - i,
{
    if i >= s.len() {
        false
    } else if text::is_white(s[i]) {
        colon_next(s, i + 1)
    } else {
        s[i] == ':'
    }
}

/// How often `key` is the name of a member of the object that `s` denotes, in
/// what is left of `s` at `i`, within `level` brackets. The members' own
/// members do not count.
pub open spec fn key_count_from(s: Seq<char>, i: int, level: int, key: Seq<char>) -> nat
    decreases s.len() - i,
    via string_ends
{
    if i < 0 || i >= s.len() {
        0
    } else if s[i] == '"' {
        let end = string_end(s, i + 1);
        key_count_from(s, end, level, key) + if level == 1 && colon_next(s, end) && json_str(
            s.subrange(i, end),
        ) == Some(key) {
            1nat
        } else {
            0
        }
    } else {
        key_count_from(s, i + 1, level + nesting(s[i]), key)
    }
}

#[via_fn]
proof fn string_ends(s: Seq<char>, i: int, level: int, key: Seq<char>) {
    if 0 <= i < s.len() {
        lemma_string_end(s, i + 1);
    }
}

proof fn lemma_string_end(s: Seq<char>, i: int)
    requires
        i <= s.len(),
    ensures
        i <= string_end(s, i) <= s.len(),
    decreases s.len() - i,
{
    if i < s.len() && s[i] != '"' {
        if s[i] == '\\' && i + 1 < s.len() {
            lemma_string_end(s, i + 2);
        } else {
            lemma_string_end(s, i + 1);
        }
    }
}

/// How often `key` is written as the name of a member of the object that `s`
/// denotes.
pub open spec fn key_count(s: Seq<char>, key: Seq<char>) -> nat {
    key_count_from(s, 0, 0, key)
}

/// What reading an object gives back of its fields: an object of strings is
/// read whole, an object of compact fields that is read at all is compact
/// itself, and any object that is read gives each compact field under a key of
/// its own. No key is written twice.
pub open spec fn reads_back(object: Seq<char>, fields: Seq<(Seq<char>, Seq<char>)>) -> bool {
    &&& forall|key: Seq<char>| #[trigger] key_count(object, key) <= 1
    &&& (forall|i: int| 0 <= i < fields.len() ==> is_quoted(#[trigger] fields[i].1)) ==> json_compact(
        object,
    ) is Some
    &&& json_compact(object) is Some && (forall|i: int|
        0 <= i < fields.len() ==> is_compact(#[trigger] fields[i].1)) ==> is_compact(object)
    &&& json_compact(object) is Some ==> forall|i: int| #![trigger fields[i]]
        0 <= i < fields.len() && key_once(fields, i) && is_compact(fields[i].1) ==> json_member(
            object,
            fields[i].0,
        ) == Some(fields[i].1)
}

/// A JSON value, held as its compact text.
pub struct Json {
    pub text: String,
}

impl View for Json {
    type V = Seq<char>;

    open spec fn view(&self) -> Seq<char> {
        self.text@
    }
}

impl DeepView for Json {
    type V = Seq<char>;

    open spec fn deep_view(&self) -> Seq<char> {
        self.text@
    }
}

impl Clone for Json {
    fn clone(&self) -> (r: Self)
        ensures
            r@ == self@,
    {
        Json { text: self.text.clone() }
    }
}

/// Calls `serde_json::from_str` for a `Value` and prints the value with its
/// `Display`, which is compact.
#[verifier::external_body]
fn serde_compact(text: &str) -> (r: Option<Json>)
    ensures
        r.deep_view() == json_compact(text@),
{
    serde_json::from_str::<serde_json::Value>(text).ok().map(|v| Json { text: v.to_string() })
}

/// Reads `text` with `serde_json::from_str` and takes the member `key` of the
/// value with `Value::get`.
#[verifier::external_body]
fn serde_member(text: &str, key: &str) -> (r: Option<Json>)
    ensures
        r.deep_view() == json_member(text@, key@),
{
    let v = serde_json::from_str::<serde_json::Value>(text).ok()?;
    v.get(key).map(|m| Json { text: m.to_string() })
}

/// Reads `text` with `serde_json::from_str` and takes the contents of the
/// string with `Value::as_str`.
#[verifier::external_body]
fn serde_str(text: &str) -> (r: Option<String>)
    ensures
        r.deep_view() == json_str(text@),
{
    let v = serde_json::from_str::<serde_json::Value>(text).ok()?;
    v.as_str().map(|s| s.to_string())
}

/// Reads `text` with `serde_json::from_str` and takes the number with
/// `Value::as_u64`.
#[verifier::external_body]
fn serde_u64(text: &str) -> (r: Option<u64>)
    ensures
        r == json_u64(text@),
{
    serde_json::from_str::<serde_json::Value>(text).ok()?.as_u64()
}

/// Reads `text` with `serde_json::from_str` and takes the items with
/// `Value::as_array`.
#[verifier::external_body]
fn serde_items(text: &str) -> (r: Option<Vec<Json>>)
    ensures
        r.deep_view() == json_items(text@),
{
    let v = serde_json::from_str::<serde_json::Value>(text).ok()?;
    v.as_array().map(|a| a.iter().map(|i| Json { text: i.to_string() }).collect())
}

/// Prints `Value::String`. The text is compact JSON, and reading it gives the
/// contents back.
#[verifier::external_body]
fn serde_quote(s: &str) -> (r: Json)
    ensures
        r@ == json_quote(s@),
        is_compact(r@),
        json_str(r@) == Some(s@),
{
    Json { text: serde_json::Value::String(s.to_string()).to_string() }
}

/// Prints `Value::Array`. An item that is no JSON counts as `null`.
#[verifier::external_body]
fn serde_array(items: &Vec<Json>) -> (r: Json)
    ensures
        r@ == json_array(items.deep_view()),
{
    let values = items.iter().map(|i| serde_json::from_str(&i.text).unwrap_or(serde_json::Value::Null));
    Json { text: serde_json::Value::Array(values.collect()).to_string() }
}

/// Prints `Value::Object` of a `serde_json::Map` into which the fields were
/// inserted in order. A field that is no JSON counts as `null`. An object of
/// strings is read back whole; any object that is read back at all (the reader
/// refuses deep nesting) gives each compact field under its own key, and
/// prints as it was where all its fields are compact. A map holds a key once,
/// so no key is printed twice.
#[verifier::external_body]
fn serde_object(fields: &Vec<(String, Json)>) -> (r: Json)
    ensures
        r@ == json_object(fields.deep_view()),
        reads_back(r@, fields.deep_view()),
{
    let map: serde_json::Map<String, serde_json::Value> = fields.iter().map(
        |f| (f.0.clone(), serde_json::from_str(&f.1.text).unwrap_or(serde_json::Value::Null)),
    ).collect();
    Json { text: serde_json::Value::Object(map).to_string() }
}

fn end_of_string(v: &Vec<char>, from: usize) -> (r: usize)
    requires
        from <= v@.len(),
    ensures
        r == string_end(v@, from as int),
        from <= r <= v@.len(),
{
    let mut i: usize = from;
    while i < v.len()
        invariant
            from <= i <= v@.len(),
            string_end(v@, from as int) == string_end(v@, i as int),
        decreases v@.len() - i,
    {
        if v[i] == '"' {
            return i + 1;
        }
        if v[i] == '\\' && v.len() - i > 1 {
            i = i + 2;
        } else {
            i = i + 1;
        }
    }
    v.len()
}

fn colon_follows(v: &Vec<char>, from: usize) -> (r: bool)
    requires
        from <= v@.len(),
    ensures
        r == colon_next(v@, from as int),
{
    let mut i: usize = from;
    while i < v.len()
        invariant
            from <= i <= v@.len(),
            colon_next(v@, from as int) == colon_next(v@, i as int),
        decreases v@.len() - i,
    {
        if !v[i].is_whitespace() {
            return v[i] == ':';
        }
        i = i + 1;
    }
    false
}

/// Whether `key` is written more than once as the name of a member of the
/// object that `s` denotes. A value that was read holds the last such member
/// only, so this looks at the text.
pub fn key_repeats(s: &str, key: &str) -> (r: bool)
    ensures
        r == (key_count(s@, key@) > 1),
{
    let v = text::chars_of(s);
    let mut found: bool = false;
    let mut level: i128 = 0;
    let mut i: usize = 0;
    while i < v.len()
        invariant
            v@ == s@,
            i <= v@.len(),
            -i <= level <= i,
            key_count(s@, key@) == key_count_from(v@, i as int, level as int, key@) + if found {
                1nat
            } else {
                0
            },
        decreases v@.len() - i,
    {
        if v[i] == '"' {
            let end: usize = end_of_string(&v, i + 1);
            if level == 1 && colon_follows(&v, end) {
                let name = text::string_of(&v, i, end);
                assert(name@ =~= v@.subrange(i as int, end as int));
                if let Some(name) = serde_str(name.as_str()) {
                    if text::same(name.as_str(), key) {
                        if found {
                            return true;
                        }
                        found = true;
                    }
                }
            }
            i = end;
        } else {
            let c = v[i];
            if c == '{' || c == '[' {
                level = level + 1;
            } else if c == '}' || c == ']' {
                level = level - 1;
            }
            i = i + 1;
        }
    }
    false
}

impl Json {
    /// The value that `text` denotes.
    pub fn parse(text: &str) -> (r: Option<Json>)
        ensures
            r.deep_view() == json_compact(text@),
    {
        serde_compact(text)
    }

    pub fn null() -> (r: Json)
        ensures
            r@ == "null"@,
    {
        Json { text: "null".to_owned() }
    }

    pub fn bool(b: bool) -> (r: Json)
        ensures
            r@ == (if b { "true"@ } else { "false"@ }),
    {
        if b {
            Json { text: "true".to_owned() }
        } else {
            Json { text: "false".to_owned() }
        }
    }

    pub fn number(n: u64) -> (r: Json)
        ensures
            r@ == number::decimal(n as nat),
    {
        Json { text: number::u64_text(n) }
    }

    pub fn string(s: &str) -> (r: Json)
        ensures
            r@ == json_quote(s@),
            is_compact(r@),
            json_str(r@) == Some(s@),
    {
        serde_quote(s)
    }

    pub fn array(items: &Vec<Json>) -> (r: Json)
        ensures
            r@ == json_array(items.deep_view()),
    {
        serde_array(items)
    }

    pub fn object(fields: &Vec<(String, Json)>) -> (r: Json)
        ensures
            r@ == json_object(fields.deep_view()),
            reads_back(r@, fields.deep_view()),
    {
        serde_object(fields)
    }

    /// The object with one field.
    pub fn object1(k: &str, v: Json) -> (r: Json)
        ensures
            r@ == json_object(seq![(k@, v@)]),
            reads_back(r@, seq![(k@, v@)]),
    {
        let fields: Vec<(String, Json)> = vec![(k.to_owned(), v)];
        assert(fields.deep_view() =~= seq![(k@, v@)]);
        Json::object(&fields)
    }

    /// The object with two fields.
    pub fn object2(k: &str, v: Json, k2: &str, v2: Json) -> (r: Json)
        ensures
            r@ == json_object(seq![(k@, v@), (k2@, v2@)]),
            reads_back(r@, seq![(k@, v@), (k2@, v2@)]),
    {
        let fields: Vec<(String, Json)> = vec![(k.to_owned(), v), (k2.to_owned(), v2)];
        assert(fields.deep_view() =~= seq![(k@, v@), (k2@, v2@)]);
        Json::object(&fields)
    }

    /// The object with three fields.
    pub fn object3(k: &str, v: Json, k2: &str, v2: Json, k3: &str, v3: Json) -> (r: Json)
        ensures
            r@ == json_object(seq![(k@, v@), (k2@, v2@), (k3@, v3@)]),
            reads_back(r@, seq![(k@, v@), (k2@, v2@), (k3@, v3@)]),
    {
        let fields: Vec<(String, Json)> = vec![
            (k.to_owned(), v),
            (k2.to_owned(), v2),
            (k3.to_owned(), v3),
        ];
        assert(fields.deep_view() =~= seq![(k@, v@), (k2@, v2@), (k3@, v3@)]);
        Json::object(&fields)
    }

    /// The member `key` of an object.
    pub fn get(&self, key: &str) -> (r: Option<Json>)
        ensures
            r.deep_view() == json_member(self@, key@),
    {
        serde_member(self.text.as_str(), key)
    }

    /// The member `key` of an object, `null` where there is none.
    pub fn index(&self, key: &str) -> (r: Json)
        ensures
            r@ == json_index(self@, key@),
    {
        match self.get(key) {
            Some(m) => m,
            None => Json::null(),
        }
    }

    /// The contents of a string.
    pub fn as_str(&self) -> (r: Option<String>)
        ensures
            r.deep_view() == json_str(self@),
    {
        serde_str(self.text.as_str())
    }

    /// The value of an unsigned integer.
    pub fn as_u64(&self) -> (r: Option<u64>)
        ensures
            r == json_u64(self@),
    {
        serde_u64(self.text.as_str())
    }

    /// The items of an array.
    pub fn as_array(&self) -> (r: Option<Vec<Json>>)
        ensures
            r.deep_view() == json_items(self@),
    {
        serde_items(self.text.as_str())
    }

    /// The string member `key` of an object.
    pub fn str_member(&self, key: &str) -> (r: Option<String>)
        ensures
            r.deep_view() == json_str_member(self@, key@),
    {
        match self.get(key) {
            Some(m) => m.as_str(),
            None => None,
        }
    }

    /// The unsigned integer member `key` of an object.
    pub fn u64_member(&self, key: &str) -> (r: Option<u64>)
        ensures
            r == json_u64_member(self@, key@),
    {
        match self.get(key) {
            Some(m) => m.as_u64(),
            None => None,
        }
    }
}

// ── Laws ──

/// A member is read by its key; one that is missing is `null`.
pub proof fn members_are_read(text: Seq<char>, key: Seq<char>)
    ensures
        json_member(text, key) matches Some(m) ==> json_index(text, key) == m && json_str_member(
            text,
            key,
        ) == json_str(m) && json_u64_member(text, key) == json_u64(m),
        json_member(text, key) is None ==> json_index(text, key) == "null"@ && json_str_member(
            text,
            key,
        ) is None && json_u64_member(text, key) is None,
{
}

} // verus!
