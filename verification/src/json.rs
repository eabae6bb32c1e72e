//! JSON values as plain data.

use crate::outside;
use crate::text;
use vstd::prelude::*;

verus! {

/// A JSON value. Where an object names a key twice, the later entry counts.
#[derive(Debug, PartialEq)]
pub enum Json {
    Null,
    Bool(bool),
    /// A number that is zero or a positive integer.
    Natural(u64),
    /// A number that is a negative integer.
    Negative(i64),
    /// Any other number.
    Fraction(serde_json::Number),
    Text(String),
    List(Vec<Json>),
    Object(Vec<(String, Json)>),
}

/// What a JSON value is.
pub enum JsonTree {
    Null,
    Bool(bool),
    Natural(u64),
    Negative(i64),
    Fraction(serde_json::Number),
    Text(Seq<char>),
    List(Seq<JsonTree>),
    Object(Map<Seq<char>, JsonTree>),
}

impl View for Json {
    type V = JsonTree;

    open spec fn view(&self) -> JsonTree {
        tree_of(*self)
    }
}

/// What a JSON value is.
pub open spec fn tree_of(json: Json) -> JsonTree
    decreases json,
{
    match json {
        Json::Null => JsonTree::Null,
        Json::Bool(yes) => JsonTree::Bool(yes),
        Json::Natural(n) => JsonTree::Natural(n),
        Json::Negative(n) => JsonTree::Negative(n),
        Json::Fraction(n) => JsonTree::Fraction(n),
        Json::Text(text) => JsonTree::Text(text@),
        Json::List(items) => JsonTree::List(trees(items@)),
        Json::Object(entries) => JsonTree::Object(fields(entries@)),
    }
}

/// What the items of a list are.
pub open spec fn trees(items: Seq<Json>) -> Seq<JsonTree>
    decreases items,
{
    if items.len() == 0 {
        Seq::empty()
    } else {
        trees(items.drop_last()).push(tree_of(items.last()))
    }
}

/// The fields of an object, by the entries that spell it out.
pub open spec fn fields(entries: Seq<(String, Json)>) -> Map<Seq<char>, JsonTree>
    decreases entries,
{
    if entries.len() == 0 {
        Map::empty()
    } else {
        fields(entries.drop_last()).insert(entries.last().0@, tree_of(entries.last().1))
    }
}

/// The list's items one by one.
pub proof fn lemma_trees(items: Seq<Json>)
    ensures
        trees(items).len() == items.len(),
        forall|i: int| 0 <= i < items.len() ==> #[trigger] trees(items)[i] == tree_of(items[i]),
    decreases items.len(),
{
    if items.len() > 0 {
        lemma_trees(items.drop_last());
        assert forall|i: int| 0 <= i < items.len() implies #[trigger] trees(items)[i] == tree_of(
            items[i],
        ) by {
            if i < items.len() - 1 {
                assert(items.drop_last()[i] == items[i]);
            }
        }
    }
}


proof fn lemma_fields_found(entries: Seq<(String, Json)>, key: Seq<char>, at: int)
    requires
        0 <= at < entries.len(),
        entries[at].0@ == key,
        forall|i: int| at < i < entries.len() ==> (#[trigger] entries[i]).0@ != key,
    ensures
        fields(entries).dom().contains(key),
        fields(entries)[key] == tree_of(entries[at].1),
    decreases entries.len(),
{
    if at < entries.len() - 1 {
        assert(entries[entries.len() - 1].0@ != key);
        lemma_fields_found(entries.drop_last(), key, at);
    }
}

proof fn lemma_fields_missing(entries: Seq<(String, Json)>, key: Seq<char>)
    requires
        forall|i: int| 0 <= i < entries.len() ==> (#[trigger] entries[i]).0@ != key,
    ensures
        !fields(entries).dom().contains(key),
    decreases entries.len(),
{
    if entries.len() > 0 {
        assert(entries[entries.len() - 1].0@ != key);
        lemma_fields_missing(entries.drop_last(), key);
    }
}

impl JsonTree {
    /// The field `key` of an object.
    pub open spec fn field(self, key: Seq<char>) -> Option<JsonTree> {
        match self {
            JsonTree::Object(fields) => if fields.dom().contains(key) {
                Some(fields[key])
            } else {
                None
            },
            _ => None,
        }
    }

    /// The text of a string.
    pub open spec fn text(self) -> Option<Seq<char>> {
        match self {
            JsonTree::Text(text) => Some(text),
            _ => None,
        }
    }

    /// The items of a list.
    pub open spec fn items(self) -> Option<Seq<JsonTree>> {
        match self {
            JsonTree::List(items) => Some(items),
            _ => None,
        }
    }

    /// The value of a number that is an integer of 64 bits without a sign.
    pub open spec fn unsigned(self) -> Option<u64> {
        match self {
            JsonTree::Natural(n) => Some(n),
            _ => None,
        }
    }

    /// The value of a number that is an integer of 64 bits with a sign.
    pub open spec fn signed(self) -> Option<i64> {
        match self {
            JsonTree::Natural(n) => if n <= i64::MAX {
                Some(n as i64)
            } else {
                None
            },
            JsonTree::Negative(n) => Some(n),
            _ => None,
        }
    }

    /// The truth value of a boolean.
    pub open spec fn truth(self) -> Option<bool> {
        match self {
            JsonTree::Bool(yes) => Some(yes),
            _ => None,
        }
    }
}

/// What an optional value is.
pub open spec fn optional_tree(json: Option<&Json>) -> Option<JsonTree> {
    match json {
        Some(json) => Some(json@),
        None => None,
    }
}

impl Json {
    /// The field `key` of an object.
    pub fn get(&self, key: &str) -> (found: Option<&Json>)
        ensures
            optional_tree(found) == self@.field(key@),
    {
        match self {
            Json::Object(entries) => {
                let mut at: usize = entries.len();
                while at > 0
                    invariant
                        at <= entries.len(),
                        self@ == JsonTree::Object(fields(entries@)),
                        forall|i: int|
                            at <= i < entries.len() ==> (#[trigger] entries@[i]).0@ != key@,
                    decreases at,
                {
                    at = at - 1;
                    if text::same_text(entries[at].0.as_str(), key) {
                        proof {
                            lemma_fields_found(entries@, key@, at as int);
                        }
                        return Some(&entries[at].1);
                    }
                }
                proof {
                    lemma_fields_missing(entries@, key@);
                }
                None
            },
            _ => None,
        }
    }

    pub fn as_str(&self) -> (found: Option<&str>)
        ensures
            match found {
                Some(found) => self@.text() == Some(found@),
                None => self@.text() is None,
            },
    {
        match self {
            Json::Text(text) => Some(text.as_str()),
            _ => None,
        }
    }

    pub fn as_array(&self) -> (found: Option<&Vec<Json>>)
        ensures
            match found {
                Some(found) => self@.items() == Some(trees(found@)),
                None => self@.items() is None,
            },
    {
        match self {
            Json::List(items) => Some(items),
            _ => None,
        }
    }

    pub fn as_u64(&self) -> (found: Option<u64>)
        ensures
            found == self@.unsigned(),
    {
        match self {
            Json::Natural(n) => Some(*n),
            _ => None,
        }
    }

    pub fn as_i64(&self) -> (found: Option<i64>)
        ensures
            found == self@.signed(),
    {
        match self {
            Json::Natural(n) => if *n <= i64::MAX as u64 {
                Some(*n as i64)
            } else {
                None
            },
            Json::Negative(n) => Some(*n),
            _ => None,
        }
    }

    pub fn as_bool(&self) -> (found: Option<bool>)
        ensures
            found == self@.truth(),
    {
        match self {
            Json::Bool(yes) => Some(*yes),
            _ => None,
        }
    }

    /// The text of the field `key`, where there is such a field and it is a
    /// string.
    pub fn get_str(&self, key: &str) -> (found: Option<&str>)
        ensures
            match found {
                Some(found) => self@.text_field(key@) == Some(found@),
                None => self@.text_field(key@) is None,
            },
    {
        match self.get(key) {
            Some(value) => value.as_str(),
            None => None,
        }
    }
}

impl JsonTree {
    /// The text of the field `key`.
    pub open spec fn text_field(self, key: Seq<char>) -> Option<Seq<char>> {
        match self.field(key) {
            Some(value) => value.text(),
            None => None,
        }
    }
}

impl Clone for Json {
    fn clone(&self) -> (copy: Self)
        ensures
            copy@ == self@,
        decreases self,
    {
        match self {
            Json::Null => Json::Null,
            Json::Bool(yes) => Json::Bool(*yes),
            Json::Natural(n) => Json::Natural(*n),
            Json::Negative(n) => Json::Negative(*n),
            Json::Fraction(n) => Json::Fraction(outside::copy_number(n)),
            Json::Text(text) => Json::Text(text.clone()),
            Json::List(items) => {
                let mut copy: Vec<Json> = Vec::new();
                let mut at: usize = 0;
                assert(items@.take(0) =~= Seq::empty());
                while at < items.len()
                    invariant
                        at <= items.len(),
                        *self is List,
                        self->List_0 == *items,
                        trees(copy@) == trees(items@.take(at as int)),
                    decreases items.len() - at,
                {
                    assert(decreases_to!(*self => self->List_0));
                    assert(decreases_to!(*items => items@));
                    assert(decreases_to!(items@ => items@[at as int]));
                    let item = items[at].clone();
                    let ghost before = copy@;
                    copy.push(item);
                    proof {
                        assert(items@.take(at + 1).drop_last() =~= items@.take(at as int));
                        assert(copy@.drop_last() =~= before);
                    }
                    at = at + 1;
                }
                assert(items@.take(at as int) =~= items@);
                Json::List(copy)
            },
            Json::Object(entries) => {
                let mut copy: Vec<(String, Json)> = Vec::new();
                let mut at: usize = 0;
                assert(entries@.take(0) =~= Seq::empty());
                while at < entries.len()
                    invariant
                        at <= entries.len(),
                        *self is Object,
                        self->Object_0 == *entries,
                        fields(copy@) == fields(entries@.take(at as int)),
                    decreases entries.len() - at,
                {
                    assert(decreases_to!(*self => self->Object_0));
                    assert(decreases_to!(*entries => entries@));
                    assert(decreases_to!(entries@ => entries@[at as int]));
                    assert(decreases_to!(entries@[at as int] => entries@[at as int].1));
                    let key = entries[at].0.clone();
                    let value = entries[at].1.clone();
                    let ghost before = copy@;
                    copy.push((key, value));
                    proof {
                        assert(entries@.take(at + 1).drop_last() =~= entries@.take(at as int));
                        assert(copy@.drop_last() =~= before);
                    }
                    at = at + 1;
                }
                assert(entries@.take(at as int) =~= entries@);
                Json::Object(copy)
            },
        }
    }
}


/// Whether a value nests lists and objects at most `depth` deep and has no
/// other numbers than integers.
pub open spec fn plain(tree: JsonTree, depth: nat) -> bool
    decreases depth,
{
    match tree {
        JsonTree::Negative(n) => n < 0,
        JsonTree::Fraction(_) => false,
        JsonTree::List(items) => depth > 0 && forall|i: int|
            0 <= i < items.len() ==> plain(#[trigger] items[i], (depth - 1) as nat),
        JsonTree::Object(fields) => depth > 0 && forall|key: Seq<char>|
            fields.dom().contains(key) ==> plain(#[trigger] fields[key], (depth - 1) as nat),
        _ => true,
    }
}

/// Whether a text is one line, with no white space at either end.
pub open spec fn solid_line(text: Seq<char>) -> bool {
    &&& text.len() > 0
    &&& !text::is_white(text[0])
    &&& !text::is_white(text.last())
    &&& forall|i: int| 0 <= i < text.len() ==> #[trigger] text[i] != '\n'
}

/// The text that a value is written as.
pub open spec fn text_of(tree: JsonTree) -> Seq<char> {
    outside::json_text(outside::value_tree(tree))
}

/// Reads a value. `None` where the text is not JSON.
pub fn parse(text: &str) -> (json: Option<Json>)
    ensures
        match json {
            Some(json) => outside::json_value(text@) == Some(json@),
            None => outside::json_value(text@) is None,
        },
{
    match outside::read_json(text) {
        Ok(value) => Some(outside::json_of(value)),
        Err(_) => None,
    }
}

/// Reads a value that is encoded as UTF-8. `None` where the bytes are not JSON.
pub fn parse_bytes(bytes: &Vec<u8>) -> (json: Option<Json>)
    ensures
        match json {
            Some(json) => outside::json_in_bytes(bytes@) == Some(json@),
            None => outside::json_in_bytes(bytes@) is None,
        },
        vstd::utf8::valid_utf8(bytes@) ==> outside::json_in_bytes(bytes@) == outside::json_value(
            vstd::utf8::decode_utf8(bytes@),
        ),
{
    match outside::read_json_bytes(bytes) {
        Ok(value) => Some(outside::json_of(value)),
        Err(_) => None,
    }
}

/// Writes a value. What a plain value was written as reads back as that value.
pub fn print(json: &Json) -> (text: String)
    ensures
        text@ == text_of(json@),
        plain(json@, 127) ==> outside::json_value(text@) == Some(json@),
        solid_line(text@),
        text@ != "[DONE]"@,
{
    outside::write_json(&outside::value_of(json.clone()))
}

/// A JSON string.
pub fn string(text: &str) -> (json: Json)
    ensures
        json@ == JsonTree::Text(text@),
{
    Json::Text(text.to_owned())
}

/// Writes a value over several lines, indented.
pub fn print_pretty(json: &Json) -> (text: String)
    ensures
        text@ == pretty_text_of(json@),
{
    outside::write_json_pretty(&outside::value_of(json.clone()))
}

/// The text that a value is written as over several lines.
pub open spec fn pretty_text_of(tree: JsonTree) -> Seq<char> {
    outside::json_pretty_text(outside::value_tree(tree))
}

/// Sets the field `key` of an object.
pub fn put(entries: &mut Vec<(String, Json)>, key: &str, value: Json)
    ensures
        fields(final(entries)@) == fields(old(entries)@).insert(key@, value@),
{
    let ghost before = entries@;
    entries.push((key.to_owned(), value));
    assert(entries@.drop_last() =~= before);
}

/// A JSON string, or null where there is none.
pub open spec fn text_or_null(value: Option<Seq<char>>) -> JsonTree {
    match value {
        Some(text) => JsonTree::Text(text),
        None => JsonTree::Null,
    }
}

/// A JSON string, or null where there is none.
pub fn string_or_null(value: &Option<String>) -> (json: Json)
    ensures
        json@ == text_or_null(text::optional(*value)),
{
    match value {
        Some(text) => Json::Text(text.clone()),
        None => Json::Null,
    }
}

/// An integer as a JSON number.
pub open spec fn integer(n: int) -> JsonTree {
    if n < 0 {
        JsonTree::Negative(n as i64)
    } else {
        JsonTree::Natural(n as u64)
    }
}

/// An integer as a JSON number.
pub fn integer_json(n: i32) -> (json: Json)
    ensures
        json@ == integer(n as int),
{
    if n < 0 {
        Json::Negative(n as i64)
    } else {
        Json::Natural(n as u64)
    }
}

/// A JSON list of one item.
pub open spec fn one(item: JsonTree) -> JsonTree {
    JsonTree::List(seq![item])
}

/// A JSON list of one item.
pub fn single(item: Json) -> (json: Json)
    ensures
        json@ == one(item@),
{
    let mut items: Vec<Json> = Vec::new();
    items.push(item);
    proof {
        lemma_trees(items@);
        assert(trees(items@) =~= seq![item@]);
    }
    Json::List(items)
}

/// What is read out of a value is what it holds, and nothing where it holds
/// something else.
pub proof fn lemma_values_are_read_as_they_are(
    fields: Map<Seq<char>, JsonTree>,
    items: Seq<JsonTree>,
    key: Seq<char>,
    text: Seq<char>,
    n: u64,
    yes: bool,
)
    ensures
        fields.dom().contains(key) ==> JsonTree::Object(fields).field(key) == Some(fields[key]),
        !fields.dom().contains(key) ==> JsonTree::Object(fields).field(key) is None,
        JsonTree::List(items).field(key) is None,
        JsonTree::Text(text).text() == Some(text),
        JsonTree::Natural(n).text() is None,
        JsonTree::Object(fields).text() is None,
        JsonTree::List(items).items() == Some(items),
        JsonTree::Object(fields).items() is None,
        JsonTree::Natural(n).unsigned() == Some(n),
        JsonTree::Text(text).unsigned() is None,
        n <= i64::MAX ==> JsonTree::Natural(n).signed() == Some(n as i64),
        JsonTree::Bool(yes).truth() == Some(yes),
        JsonTree::Text(text).truth() is None,
        fields.dom().contains(key) && fields[key] == JsonTree::Text(text) ==> JsonTree::Object(
            fields,
        ).text_field(key) == Some(text),
        !fields.dom().contains(key) ==> JsonTree::Object(fields).text_field(key) is None,
        text_or_null(Some(text)) == JsonTree::Text(text),
        text_or_null(None) == JsonTree::Null,
{
}

} // verus!
