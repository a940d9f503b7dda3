//! JSON trees.
//!
//! The library builds and reads JSON as trees of its own; `serde_json` turns
//! text into such a tree and a tree into text.

use crate::text;
use vstd::prelude::*;

verus! {

/// A JSON value.
#[derive(Debug)]
pub enum Json {
    Null,
    Bool(bool),
    /// A number, as `serde_json` prints it.
    Number(String),
    Text(String),
    List(Vec<Json>),
    Object(Vec<JsonField>),
}

/// One field of a JSON object.
#[derive(Debug)]
pub struct JsonField {
    pub key: String,
    pub value: Json,
}

/// The mathematical model of a [`Json`].
pub enum JsonView {
    Null,
    Bool(bool),
    Number(Seq<char>),
    Text(Seq<char>),
    List(Seq<JsonView>),
    Object(Seq<JsonFieldView>),
}

/// The mathematical model of a [`JsonField`].
pub struct JsonFieldView {
    pub key: Seq<char>,
    pub value: JsonView,
}

impl View for Json {
    type V = JsonView;

    open spec fn view(&self) -> JsonView
        decreases self,
    {
        match self {
            Json::Null => JsonView::Null,
            Json::Bool(b) => JsonView::Bool(*b),
            Json::Number(s) => JsonView::Number(s@),
            Json::Text(s) => JsonView::Text(s@),
            Json::List(v) => JsonView::List(
                Seq::new(
                    v@.len(),
                    |i: int|
                        if 0 <= i < v@.len() {
                            v@[i].view()
                        } else {
                            JsonView::Null
                        },
                ),
            ),
            Json::Object(v) => JsonView::Object(
                Seq::new(
                    v@.len(),
                    |i: int|
                        if 0 <= i < v@.len() {
                            v@[i].view()
                        } else {
                            JsonFieldView { key: Seq::empty(), value: JsonView::Null }
                        },
                ),
            ),
        }
    }
}

impl View for JsonField {
    type V = JsonFieldView;

    open spec fn view(&self) -> JsonFieldView
        decreases self,
    {
        JsonFieldView { key: self.key@, value: self.value.view() }
    }
}

/// The model of an object is made of the models of its fields.
pub proof fn lemma_object_view(m: Vec<JsonField>)
    ensures
        Json::Object(m)@ == JsonView::Object(m@.map_values(|e: JsonField| e@)),
{
    let j = Json::Object(m);
    assert(j@->Object_0 =~= m@.map_values(|e: JsonField| e@));
}

/// `serde_json`'s own tree, which the wrappers below convert from and to.
#[verifier::external_type_specification]
#[verifier::external_body]
pub struct ExJsonValue(serde_json::Value);

/// The tree that `serde_json` reads in a text, where the text is one JSON value.
pub uninterp spec fn parsed_json(text: Seq<char>) -> Option<JsonView>;

/// The compact text that `serde_json` writes for a tree.
pub uninterp spec fn json_text(tree: JsonView) -> Seq<char>;

/// The indented text that `serde_json` writes for a tree.
pub uninterp spec fn pretty_json_text(tree: JsonView) -> Seq<char>;

/// The text that `serde_json` writes for a number once it is a double.
pub uninterp spec fn double_text(number: Seq<char>) -> Seq<char>;

/// No two fields share a key.
pub open spec fn distinct_keys(m: Seq<JsonFieldView>) -> bool {
    forall|i: int, j: int|
        0 <= i < m.len() && 0 <= j < m.len() && i != j ==> (#[trigger] m[i]).key != (
        #[trigger] m[j]).key
}

/// A tree that survives being written and read: its objects repeat no key, its
/// numbers are `u64`s, and it nests lists and objects at most `depth` deep.
pub open spec fn rereadable(v: JsonView, depth: nat) -> bool
    decreases depth,
{
    match v {
        JsonView::Number(s) => exists|n: u64| s == text::decimal(n as nat),
        JsonView::List(s) => depth > 0 && forall|i: int|
            0 <= i < s.len() ==> rereadable(#[trigger] s[i], (depth - 1) as nat),
        JsonView::Object(m) => depth > 0 && distinct_keys(m) && forall|i: int|
            0 <= i < m.len() ==> rereadable((#[trigger] m[i]).value, (depth - 1) as nat),
        _ => true,
    }
}

/// `read` is `written` but for the order of the fields of its objects.
pub open spec fn reads_back(written: JsonView, read: JsonView) -> bool
    decreases written,
{
    match written {
        JsonView::List(s) => match read {
            JsonView::List(t) => s.len() == t.len() && forall|i: int|
                0 <= i < s.len() ==> reads_back(#[trigger] s[i], t[i]),
            _ => false,
        },
        JsonView::Object(m) => match read {
            JsonView::Object(n) => {
                &&& distinct_keys(n)
                &&& forall|i: int|
                    0 <= i < m.len() ==> exists|j: int|
                        0 <= j < n.len() && (#[trigger] n[j]).key == (#[trigger] m[i]).key
                            && reads_back(m[i].value, n[j].value)
                &&& forall|j: int|
                    0 <= j < n.len() ==> exists|i: int|
                        0 <= i < m.len() && (#[trigger] m[i]).key == (#[trigger] n[j]).key
            },
            _ => false,
        },
        _ => read == written,
    }
}

/// The position of the quote that ends a string, whose characters begin at `from`.
pub open spec fn string_end(s: Seq<char>, from: int) -> Option<int>
    decreases s.len() - from + 1,
{
    if from < 0 || from >= s.len() {
        None
    } else if s[from] == '"' {
        Some(from)
    } else if s[from] == '\\' {
        string_end(s, from + 2)
    } else {
        string_end(s, from + 1)
    }
}

/// A character that JSON allows between its tokens.
pub open spec fn is_space(c: char) -> bool {
    c == ' ' || c == '\n' || c == '\r' || c == '\t'
}

/// The next token at or after `from` is a colon.
pub open spec fn colon_follows(s: Seq<char>, from: int) -> bool
    decreases s.len() - from,
{
    if from < 0 || from >= s.len() {
        false
    } else if is_space(s[from]) {
        colon_follows(s, from + 1)
    } else {
        s[from] == ':'
    }
}

/// How deep in objects and lists a text is after a character outside its strings.
pub open spec fn depth_after(depth: int, c: char) -> int {
    if c == '{' || c == '[' {
        depth + 1
    } else if c == '}' || c == ']' {
        depth - 1
    } else {
        depth
    }
}

/// The keys that the outermost object of a JSON text names, as they are written
/// with their quotes: from `from` on, a position at `depth` outside its strings.
pub open spec fn outer_keys(s: Seq<char>, from: int, depth: int) -> Seq<Seq<char>>
    decreases s.len() - from,
{
    if from < 0 || from >= s.len() {
        Seq::empty()
    } else if s[from] == '"' {
        match string_end(s, from + 1) {
            Some(end) => {
                proof {
                    lemma_string_end(s, from + 1);
                }
                let rest = outer_keys(s, end + 1, depth);
                if depth == 1 && colon_follows(s, end + 1) {
                    seq![s.subrange(from, end + 1)] + rest
                } else {
                    rest
                }
            },
            None => Seq::empty(),
        }
    } else {
        outer_keys(s, from + 1, depth_after(depth, s[from]))
    }
}

/// A string ends where it begins or later, and within the text.
pub proof fn lemma_string_end(s: Seq<char>, from: int)
    requires
        0 <= from,
    ensures
        string_end(s, from) matches Some(end) ==> from <= end < s.len(),
    decreases s.len() - from + 1,
{
    if from < s.len() && s[from] != '"' {
        if s[from] == '\\' {
            lemma_string_end(s, from + 2);
        } else {
            lemma_string_end(s, from + 1);
        }
    }
}

/// A written key stands for `key`.
pub open spec fn stands_for(written: Seq<char>, key: Seq<char>) -> bool {
    parsed_json(written) == Some(JsonView::Text(key))
}

/// Two of the written keys stand for `key`.
pub open spec fn repeats(written: Seq<Seq<char>>, key: Seq<char>) -> bool {
    exists|i: int, j: int|
        0 <= i < j < written.len() && stands_for(#[trigger] written[i], key) && stands_for(
            #[trigger] written[j],
            key,
        )
}

/// The outermost object of a JSON text names `key` twice.
pub open spec fn names_twice(s: Seq<char>, key: Seq<char>) -> bool {
    repeats(outer_keys(s, 0, 0), key)
}

/// A tree of at most this depth, written as `text`, is read back from it, and the
/// text names no key twice.
pub open spec fn is_text_of(text: Seq<char>, tree: JsonView) -> bool {
    rereadable(tree, 100) ==> {
        &&& match parsed_json(text) {
            Some(read) => reads_back(tree, read),
            None => false,
        }
        &&& forall|key: Seq<char>| !#[trigger] names_twice(text, key)
    }
}

/// Turns a `serde_json` tree into a [`Json`], variant by variant. Nothing is
/// claimed of the result here: `parse_json` names it.
#[verifier::external_body]
fn from_outside(v: serde_json::Value) -> Json {
    match v {
        serde_json::Value::Null => Json::Null,
        serde_json::Value::Bool(b) => Json::Bool(b),
        serde_json::Value::Number(n) => Json::Number(n.to_string()),
        serde_json::Value::String(s) => Json::Text(s),
        serde_json::Value::Array(a) => Json::List(a.into_iter().map(from_outside).collect()),
        serde_json::Value::Object(m) => Json::Object(
            m.into_iter().map(|(k, v)| JsonField { key: k, value: from_outside(v) }).collect(),
        ),
    }
}

/// Turns a [`Json`] into a `serde_json` tree, variant by variant. Nothing is
/// claimed of the result here: `render_json` names what is written for it.
#[verifier::external_body]
fn to_outside(j: &Json) -> serde_json::Value {
    match j {
        Json::Null => serde_json::Value::Null,
        Json::Bool(b) => serde_json::Value::Bool(*b),
        Json::Number(n) => serde_json::from_str(n).unwrap_or(serde_json::Value::Null),
        Json::Text(s) => serde_json::Value::String(s.clone()),
        Json::List(a) => serde_json::Value::Array(a.iter().map(to_outside).collect()),
        Json::Object(m) => serde_json::Value::Object(
            m.iter().map(|f| (f.key.clone(), to_outside(&f.value))).collect(),
        ),
    }
}

/// `serde_json::from_str` into a generic value. The result is a function of
/// the text alone and is named [`parsed_json`]; it is `None` exactly where
/// `serde_json` reports an error.
#[verifier::external_body]
pub(crate) fn parse_json(s: &str) -> (r: Option<Json>)
    ensures
        match r {
            Some(j) => parsed_json(s@) == Some(j@),
            None => parsed_json(s@) is None,
        },
{
    serde_json::from_str::<serde_json::Value>(s).ok().map(from_outside)
}

/// `Display` of `serde_json::Value`, which writes compact JSON. The result is
/// a function of the tree alone and is named [`json_text`]. Where the tree
/// repeats no key, holds no number but `u64`s and stays within the depth that
/// the parser accepts, `serde_json` reads the same tree back from it, and writes
/// each key of the outermost object once.
#[verifier::external_body]
pub(crate) fn render_json(j: &Json) -> (r: String)
    ensures
        r@ == json_text(j@),
        is_text_of(r@, j@),
{
    to_outside(j).to_string()
}

/// The alternate `Display` of `serde_json::Value`, which writes indented JSON
/// as `serde_json::to_string_pretty` does. The result is a function of the tree
/// alone and is named [`pretty_json_text`]; it is read back as in `render_json`.
#[verifier::external_body]
pub(crate) fn render_pretty_json(j: &Json) -> (r: String)
    ensures
        r@ == pretty_json_text(j@),
        is_text_of(r@, j@),
{
    format!("{:#}", to_outside(j))
}

/// `serde_json::Value::as_f64`: the double that the text of a number stands for,
/// written as JSON. The result is a function of the text alone and is named
/// [`double_text`].
#[verifier::external_body]
pub(crate) fn as_double(number: &str) -> (r: String)
    ensures
        r@ == double_text(number@),
{
    let value: serde_json::Value = serde_json::from_str(number).unwrap_or_default();
    serde_json::Value::from(value.as_f64()).to_string()
}

fn string_end_exec(v: &Vec<char>, from: usize) -> (r: Option<usize>)
    ensures
        match r {
            Some(end) => string_end(v@, from as int) == Some(end as int) && from <= end < v@.len(),
            None => string_end(v@, from as int) is None,
        },
{
    let mut i: usize = from;
    while i < v.len()
        invariant
            from <= i,
            string_end(v@, from as int) == string_end(v@, i as int),
        decreases v@.len() - i,
    {
        if v[i] == '"' {
            return Some(i);
        }
        if v[i] == '\\' {
            if i + 1 >= v.len() {
                assert(string_end(v@, i + 2) is None);
                return None;
            }
            i = i + 2;
        } else {
            i = i + 1;
        }
    }
    None
}

fn colon_follows_exec(v: &Vec<char>, from: usize) -> (r: bool)
    ensures
        r == colon_follows(v@, from as int),
{
    let mut i: usize = from;
    while i < v.len()
        invariant
            colon_follows(v@, from as int) == colon_follows(v@, i as int),
        decreases v@.len() - i,
    {
        let c = v[i];
        if c == ' ' || c == '\n' || c == '\r' || c == '\t' {
            i = i + 1;
        } else {
            return c == ':';
        }
    }
    false
}

fn stands_for_exec(written: &str, key: &str) -> (r: bool)
    ensures
        r == stands_for(written@, key@),
{
    match parse_json(written) {
        Some(Json::Text(k)) => text::text_eq(k.as_str(), key),
        _ => false,
    }
}

/// Whether the outermost object of a JSON text names a key twice. A tree does not
/// show it: there the last value of a key is all that is left.
pub fn names_key_twice(s: &str, key: &str) -> (r: bool)
    ensures
        r == names_twice(s@, key@),
{
    let v = text::chars_of(s);
    let ghost all = outer_keys(s@, 0, 0);
    let ghost mut passed: Seq<Seq<char>> = Seq::empty();
    let mut named = false;
    let mut depth: i128 = 0;
    let mut i: usize = 0;
    assert(passed + all =~= all);
    while i < v.len()
        invariant
            v@ == s@,
            i <= v@.len(),
            -(i as int) <= depth <= i,
            all == outer_keys(s@, 0, 0),
            all == passed + outer_keys(s@, i as int, depth as int),
            named == exists|k: int| 0 <= k < passed.len() && stands_for(#[trigger] passed[k], key@),
            !repeats(passed, key@),
        decreases v@.len() - i,
    {
        if v[i] == '"' {
            match string_end_exec(&v, i + 1) {
                Some(end) => {
                    if depth == 1 && colon_follows_exec(&v, end + 1) {
                        let written = text::string_of(&v, i, end + 1);
                        let hit = stands_for_exec(written.as_str(), key);
                        let ghost before = passed;
                        proof {
                            passed = before.push(written@);
                            assert(passed + outer_keys(s@, end + 1, depth as int) =~= before + (
                            seq![written@] + outer_keys(s@, end + 1, depth as int)));
                            assert(all == passed + outer_keys(s@, end + 1, depth as int));
                            assert(passed[before.len() as int] == written@);
                            assert forall|k: int| 0 <= k < before.len() implies #[trigger] before[k]
                                == passed[k] by {}
                        }
                        if hit && named {
                            proof {
                                let k = choose|k: int|
                                    0 <= k < before.len() && stands_for(
                                        #[trigger] before[k],
                                        key@,
                                    );
                                assert(all[k] == before[k]);
                                assert(all[before.len() as int] == written@);
                                assert(repeats(all, key@));
                            }
                            return true;
                        }
                        proof {
                            assert(!repeats(passed, key@)) by {
                                if repeats(passed, key@) {
                                    let (a, b) = choose|a: int, b: int|
                                        0 <= a < b < passed.len() && stands_for(
                                            #[trigger] passed[a],
                                            key@,
                                        ) && stands_for(#[trigger] passed[b], key@);
                                    assert(before[a] == passed[a]);
                                    if b < before.len() {
                                        assert(before[b] == passed[b]);
                                        assert(repeats(before, key@));
                                    }
                                }
                            }
                            if named {
                                let k = choose|k: int|
                                    0 <= k < before.len() && stands_for(
                                        #[trigger] before[k],
                                        key@,
                                    );
                                assert(passed[k] == before[k]);
                            }
                        }
                        named = named || hit;
                    }
                    i = end + 1;
                },
                None => {
                    assert(all =~= passed);
                    return false;
                },
            }
        } else {
            let c = v[i];
            if c == '{' || c == '[' {
                depth = depth + 1;
            } else if c == '}' || c == ']' {
                depth = depth - 1;
            }
            i = i + 1;
        }
    }
    assert(all =~= passed);
    false
}

/// A field of an object that was read back is a field that was written.
pub proof fn lemma_field_reads_back(written: JsonView, read: JsonView, key: Seq<char>)
    requires
        written is Object,
        distinct_keys(written->Object_0),
        reads_back(written, read),
    ensures
        match field(written, key) {
            Some(v) => field(read, key) is Some && reads_back(v, field(read, key)->Some_0),
            None => field(read, key) is None,
        },
{
    let m = written->Object_0;
    let n = read->Object_0;
    lemma_first_field(m, key);
    lemma_first_field(n, key);
    match field(written, key) {
        Some(v) => {
            let i = choose|i: int| 0 <= i < m.len() && m[i].key == key && m[i].value == v;
            assert(m[i].key == key);
            let j = choose|j: int|
                0 <= j < n.len() && n[j].key == m[i].key && reads_back(m[i].value, n[j].value);
            assert(n[j].key == key);
            assert(field(read, key) is Some);
            let w = field(read, key)->Some_0;
            let k = choose|k: int| 0 <= k < n.len() && n[k].key == key && n[k].value == w;
            assert(k == j);
        },
        None => {
            if field(read, key) is Some {
                let w = field(read, key)->Some_0;
                let k = choose|k: int| 0 <= k < n.len() && n[k].key == key && n[k].value == w;
                assert(n[k].key == key);
                let i = choose|i: int| 0 <= i < m.len() && m[i].key == n[k].key;
                assert(m[i].key == key);
            }
        },
    }
}

/// What `first_field` finds stands in the object, and it finds what stands there.
pub proof fn lemma_first_field(m: Seq<JsonFieldView>, key: Seq<char>)
    ensures
        match first_field(m, key) {
            Some(v) => exists|i: int|
                0 <= i < m.len() && (#[trigger] m[i]).key == key && m[i].value == v,
            None => forall|i: int| 0 <= i < m.len() ==> (#[trigger] m[i]).key != key,
        },
    decreases m.len(),
{
    if m.len() > 0 {
        let rest = m.subrange(1, m.len() as int);
        if m[0].key != key {
            lemma_first_field(rest, key);
            match first_field(rest, key) {
                Some(v) => {
                    let i = choose|i: int|
                        0 <= i < rest.len() && (#[trigger] rest[i]).key == key && rest[i].value == v;
                    assert(m[i + 1] == rest[i]);
                },
                None => {
                    assert forall|i: int| 0 <= i < m.len() implies (#[trigger] m[i]).key != key by {
                        if i > 0 {
                            assert(m[i] == rest[i - 1]);
                        }
                    }
                },
            }
        }
    }
}

/// The value of the first field called `key`, where `j` is an object that has one.
pub open spec fn field(j: JsonView, key: Seq<char>) -> Option<JsonView> {
    match j {
        JsonView::Object(m) => first_field(m, key),
        _ => None,
    }
}

/// The value that stands beside the first occurrence of `key`.
pub open spec fn first_field(m: Seq<JsonFieldView>, key: Seq<char>) -> Option<JsonView>
    decreases m.len(),
{
    if m.len() == 0 {
        None
    } else if m[0].key == key {
        Some(m[0].value)
    } else {
        first_field(m.subrange(1, m.len() as int), key)
    }
}

/// The text in field `key`, where there is one.
pub open spec fn text_field(j: JsonView, key: Seq<char>) -> Option<Seq<char>> {
    match field(j, key) {
        Some(JsonView::Text(s)) => Some(s),
        _ => None,
    }
}

/// One field of an object.
pub open spec fn entry(key: Seq<char>, value: JsonView) -> JsonFieldView {
    JsonFieldView { key, value }
}

/// The fields of an empty object.
pub open spec fn no_fields() -> Seq<JsonFieldView> {
    Seq::empty()
}

/// An optional text as JSON: absent is null.
pub open spec fn opt_text(o: Option<Seq<char>>) -> JsonView {
    match o {
        Some(s) => JsonView::Text(s),
        None => JsonView::Null,
    }
}

/// A list of texts as JSON.
pub open spec fn text_list(s: Seq<Seq<char>>) -> JsonView {
    JsonView::List(s.map_values(|t: Seq<char>| JsonView::Text(t)))
}

/// A natural number as JSON.
pub open spec fn count(n: nat) -> JsonView {
    JsonView::Number(text::decimal(n))
}

impl Json {
    /// The value of the first field called `key`.
    pub fn get(&self, key: &str) -> (r: Option<&Json>)
        ensures
            match r {
                Some(v) => field(self@, key@) == Some(v@),
                None => field(self@, key@) is None,
            },
    {
        match self {
            Json::Object(m) => {
                let ghost views = self@->Object_0;
                let mut i: usize = 0;
                assert(views.subrange(0, views.len() as int) =~= views);
                while i < m.len()
                    invariant
                        i <= m@.len(),
                        self@ == JsonView::Object(views),
                        *self == Json::Object(*m),
                        views.len() == m@.len(),
                        first_field(views, key@) == first_field(
                            views.subrange(i as int, views.len() as int),
                            key@,
                        ),
                    decreases m@.len() - i,
                {
                    let ghost rest = views.subrange(i as int, views.len() as int);
                    assert(rest[0] == m@[i as int]@);
                    assert(rest.subrange(1, rest.len() as int) =~= views.subrange(
                        i + 1,
                        views.len() as int,
                    ));
                    if text::text_eq(m[i].key.as_str(), key) {
                        return Some(&m[i].value);
                    }
                    i = i + 1;
                }
                None
            },
            _ => None,
        }
    }

    /// The text in field `key`.
    pub fn get_text(&self, key: &str) -> (r: Option<&String>)
        ensures
            match r {
                Some(s) => text_field(self@, key@) == Some(s@),
                None => text_field(self@, key@) is None,
            },
    {
        match self.get(key) {
            Some(Json::Text(s)) => Some(s),
            _ => None,
        }
    }

    /// A copy of the tree.
    pub fn copy(&self) -> (r: Json)
        ensures
            r@ == self@,
        decreases self,
    {
        match self {
            Json::Null => Json::Null,
            Json::Bool(b) => Json::Bool(*b),
            Json::Number(s) => Json::Number(s.clone()),
            Json::Text(s) => Json::Text(s.clone()),
            Json::List(v) => {
                let mut out: Vec<Json> = Vec::new();
                let mut i: usize = 0;
                while i < v.len()
                    invariant
                        i <= v@.len(),
                        *self == Json::List(*v),
                        out@.len() == i,
                        forall|k: int| 0 <= k < i ==> (#[trigger] out@[k])@ == v@[k]@,
                    decreases v@.len() - i,
                {
                    assert(decreases_to!(self => self->List_0@));
                    assert(decreases_to!(v@ => v@[i as int]));
                    out.push(v[i].copy());
                    i = i + 1;
                }
                let r = Json::List(out);
                assert(r@->List_0 =~= self@->List_0);
                r
            },
            Json::Object(v) => {
                let mut out: Vec<JsonField> = Vec::new();
                let mut i: usize = 0;
                while i < v.len()
                    invariant
                        i <= v@.len(),
                        *self == Json::Object(*v),
                        out@.len() == i,
                        forall|k: int| 0 <= k < i ==> (#[trigger] out@[k])@ == v@[k]@,
                    decreases v@.len() - i,
                {
                    assert(decreases_to!(self => self->Object_0@));
                    assert(decreases_to!(v@ => v@[i as int]));
                    assert(decreases_to!(v@[i as int] => v@[i as int].value));
                    out.push(JsonField { key: v[i].key.clone(), value: v[i].value.copy() });
                    i = i + 1;
                }
                let r = Json::Object(out);
                assert(r@->Object_0 =~= self@->Object_0);
                r
            },
        }
    }
}

/// An object under construction: its fields in the order they were added.
pub struct Fields {
    pub entries: Vec<JsonField>,
}

impl View for Fields {
    type V = Seq<JsonFieldView>;

    open spec fn view(&self) -> Seq<JsonFieldView> {
        self.entries@.map_values(|e: JsonField| e@)
    }
}

impl Fields {
    pub fn new() -> (r: Fields)
        ensures
            r@ == Seq::<JsonFieldView>::empty(),
    {
        let r = Fields { entries: Vec::new() };
        assert(r@ =~= Seq::<JsonFieldView>::empty());
        r
    }

    /// Adds a field.
    pub fn put(&mut self, key: &str, value: Json)
        ensures
            final(self)@ == old(self)@.push(entry(key@, value@)),
    {
        self.entries.push(JsonField { key: key.to_owned(), value });
        assert(self@ =~= old(self)@.push(entry(key@, value@)));
    }

    /// Adds a text field.
    pub fn text(&mut self, key: &str, value: &str)
        ensures
            final(self)@ == old(self)@.push(entry(key@, JsonView::Text(value@))),
    {
        self.put(key, Json::Text(value.to_owned()));
    }

    /// Adds a Boolean field.
    pub fn flag(&mut self, key: &str, value: bool)
        ensures
            final(self)@ == old(self)@.push(entry(key@, JsonView::Bool(value))),
    {
        self.put(key, Json::Bool(value));
    }

    /// Adds a number field.
    pub fn number(&mut self, key: &str, value: u64)
        ensures
            final(self)@ == old(self)@.push(entry(key@, count(value as nat))),
    {
        self.put(key, Json::Number(text::decimal_string(value)));
    }

    /// Adds a field that is a text or null.
    pub fn maybe(&mut self, key: &str, value: Option<&str>)
        ensures
            final(self)@ == old(self)@.push(
                entry(
                    key@,
                    opt_text(
                        match value {
                            Some(s) => Some(s@),
                            None => None,
                        },
                    ),
                ),
            ),
    {
        match value {
            Some(s) => self.put(key, Json::Text(s.to_owned())),
            None => self.put(key, Json::Null),
        }
    }

    /// Adds a field that is a list of texts.
    pub fn texts(&mut self, key: &str, value: &Vec<String>)
        ensures
            final(self)@ == old(self)@.push(entry(key@, text_list(value.deep_view()))),
    {
        self.put(key, texts_json(value));
    }

    /// The finished object.
    pub fn object(self) -> (r: Json)
        ensures
            r@ == JsonView::Object(self@),
    {
        proof {
            lemma_object_view(self.entries);
        }
        Json::Object(self.entries)
    }
}

/// A list of texts.
pub fn texts_json(v: &Vec<String>) -> (r: Json)
    ensures
        r@ == text_list(v.deep_view()),
{
    let mut out: Vec<Json> = Vec::new();
    let mut i: usize = 0;
    while i < v.len()
        invariant
            i <= v@.len(),
            out@.len() == i,
            forall|k: int| 0 <= k < i ==> (#[trigger] out@[k])@ == JsonView::Text(v@[k]@),
        decreases v@.len() - i,
    {
        out.push(Json::Text(v[i].clone()));
        i = i + 1;
    }
    let r = Json::List(out);
    assert(r@->List_0 =~= text_list(v.deep_view())->List_0);
    r
}

// ---------------------------------------------------------------------------
// Laws of trees
// ---------------------------------------------------------------------------

/// A field is read as the first entry under its key; without one there is nothing to read.
pub proof fn fields_are_read_by_their_key(m: Seq<JsonFieldView>, i: int, key: Seq<char>)
    requires
        0 <= i <= m.len(),
        forall|k: int| 0 <= k < i ==> (#[trigger] m[k]).key != key,
        i < m.len() ==> m[i].key == key,
    ensures
        i < m.len() ==> field(JsonView::Object(m), key) == Some(m[i].value),
        i == m.len() ==> field(JsonView::Object(m), key) is None,
    decreases m.len(),
{
    if i > 0 {
        assert(m[0].key != key);
        let rest = m.subrange(1, m.len() as int);
        assert forall|k: int| 0 <= k < i - 1 implies (#[trigger] rest[k]).key != key by {
            assert(rest[k] == m[k + 1]);
        }
        fields_are_read_by_their_key(rest, i - 1, key);
    }
}

/// Only objects have fields, and only texts are read as text.
pub proof fn only_objects_have_fields(j: JsonView, key: Seq<char>, s: Seq<char>)
    ensures
        !(j is Object) ==> field(j, key) is None,
        text_field(j, key) == Some(s) <==> field(j, key) == Some(JsonView::Text(s)),
        field(j, key) is None ==> text_field(j, key) is None,
{
}

/// Lists of texts list each of them, in order; a text that is not there is null, and counts
/// are their decimal digits.
pub proof fn values_are_written_as_they_are(s: Seq<Seq<char>>, i: int, t: Seq<char>, n: nat)
    ensures
        text_list(s) is List,
        text_list(s)->List_0.len() == s.len(),
        0 <= i < s.len() ==> text_list(s)->List_0[i] == JsonView::Text(s[i]),
        opt_text(Some(t)) == JsonView::Text(t),
        opt_text(None) == JsonView::Null,
        count(n) == JsonView::Number(text::decimal(n)),
        entry(t, JsonView::Null).key == t,
        no_fields().len() == 0,
{
}

/// A string in a JSON text ends at its first quote that no backslash stands before.
pub proof fn strings_end_at_their_quote(s: Seq<char>, from: int, end: int)
    requires
        0 <= from <= end < s.len(),
        forall|i: int| from <= i < end ==> s[i] != '"' && s[i] != '\\',
        s[end] == '"',
    ensures
        string_end(s, from) == Some(end),
    decreases end - from,
{
    if from < end {
        strings_end_at_their_quote(s, from + 1, end);
    }
}

/// A character behind a backslash is part of the string.
pub proof fn escaped_characters_do_not_end_strings(s: Seq<char>, from: int)
    requires
        0 <= from,
        from + 1 < s.len(),
        s[from] == '\\',
    ensures
        string_end(s, from) == string_end(s, from + 2),
{
}

} // verus!
