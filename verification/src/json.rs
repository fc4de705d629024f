//! JSON: reading documents and writing strings into them.

use serde_json::Value as Parsed;
use vstd::prelude::*;

use crate::document::{agrees, doc_value, is_json, written, Doc};
use crate::sha256::{digit, hex_digit};
use crate::text::{chars_of, same};

verus! {

/// A JSON value. Of a number, only what it is as an unsigned integer is kept.
#[derive(Debug, PartialEq, Eq)]
pub enum Json {
    Null,
    Bool(bool),
    Number(Option<u64>),
    Text(String),
    List(Vec<Json>),
    Table(Vec<(String, Json)>),
}

/// What a JSON value says.
pub enum JsonView {
    Null,
    Bool(bool),
    Number(Option<u64>),
    Text(Seq<char>),
    List(Seq<JsonView>),
    Table(Seq<(Seq<char>, JsonView)>),
}

pub open spec fn list_model(items: Seq<Json>) -> Seq<JsonView>
    decreases items,
{
    Seq::new(
        items.len(),
        |i: int|
            if 0 <= i < items.len() {
                items[i].model()
            } else {
                arbitrary()
            },
    )
}

pub open spec fn table_model(pairs: Seq<(String, Json)>) -> Seq<(Seq<char>, JsonView)>
    decreases pairs,
{
    Seq::new(
        pairs.len(),
        |i: int|
            if 0 <= i < pairs.len() {
                (pairs[i].0@, pairs[i].1.model())
            } else {
                arbitrary()
            },
    )
}

/// The value of the first pair with the key.
pub open spec fn first_at(pairs: Seq<(Seq<char>, JsonView)>, key: Seq<char>) -> Option<JsonView>
    decreases pairs.len(),
{
    if pairs.len() == 0 {
        None
    } else if pairs[0].0 == key {
        Some(pairs[0].1)
    } else {
        first_at(pairs.skip(1), key)
    }
}

impl JsonView {
    /// The value under a key; nothing where there is none, or where this is no table.
    pub open spec fn at(self, key: Seq<char>) -> Option<JsonView> {
        match self {
            JsonView::Table(pairs) => first_at(pairs, key),
            _ => None,
        }
    }

    pub open spec fn text(self) -> Option<Seq<char>> {
        match self {
            JsonView::Text(text) => Some(text),
            _ => None,
        }
    }

    pub open spec fn flag(self) -> Option<bool> {
        match self {
            JsonView::Bool(flag) => Some(flag),
            _ => None,
        }
    }

    pub open spec fn count(self) -> Option<u64> {
        match self {
            JsonView::Number(n) => n,
            _ => None,
        }
    }

    /// The items of a list; none where this is no list.
    pub open spec fn items(self) -> Seq<JsonView> {
        match self {
            JsonView::List(items) => items,
            _ => Seq::empty(),
        }
    }

    pub open spec fn text_at(self, key: Seq<char>) -> Option<Seq<char>> {
        match self.at(key) {
            Some(value) => value.text(),
            None => None,
        }
    }

    pub open spec fn flag_at(self, key: Seq<char>) -> Option<bool> {
        match self.at(key) {
            Some(value) => value.flag(),
            None => None,
        }
    }

    pub open spec fn count_at(self, key: Seq<char>) -> Option<u64> {
        match self.at(key) {
            Some(value) => value.count(),
            None => None,
        }
    }

    pub open spec fn items_at(self, key: Seq<char>) -> Seq<JsonView> {
        match self.at(key) {
            Some(value) => value.items(),
            None => Seq::empty(),
        }
    }
}

impl Json {
    pub open spec fn model(self) -> JsonView
        decreases self,
    {
        match self {
            Json::Null => JsonView::Null,
            Json::Bool(flag) => JsonView::Bool(flag),
            Json::Number(n) => JsonView::Number(n),
            Json::Text(text) => JsonView::Text(text@),
            Json::List(items) => JsonView::List(list_model(items@)),
            Json::Table(pairs) => JsonView::Table(table_model(pairs@)),
        }
    }

    pub fn get(&self, key: &str) -> (found: Option<&Json>)
        ensures
            found is Some <==> self.model().at(key@) is Some,
            found matches Some(value) ==> Some(value.model()) == self.model().at(key@),
    {
        match self {
            Json::Table(pairs) => {
                let ghost all = table_model(pairs@);
                let mut i: usize = 0;
                assert(all.skip(0) =~= all);
                while i < pairs.len()
                    invariant
                        i <= pairs.len(),
                        all == table_model(pairs@),
                        self.model().at(key@) == first_at(all.skip(i as int), key@),
                    decreases pairs.len() - i,
                {
                    assert(all.skip(i as int)[0] == (pairs@[i as int].0@, pairs@[i as int].1.model()));
                    if same(pairs[i].0.as_str(), key) {
                        return Some(&pairs[i].1);
                    }
                    assert(all.skip(i as int).skip(1) =~= all.skip(i + 1));
                    i = i + 1;
                }
                None
            },
            _ => None,
        }
    }

    /// The text under a key.
    pub fn string(&self, key: &str) -> (text: Option<String>)
        ensures
            text is Some <==> self.model().text_at(key@) is Some,
            text matches Some(text) ==> Some(text@) == self.model().text_at(key@),
    {
        match self.get(key) {
            Some(Json::Text(text)) => Some(text.clone()),
            _ => None,
        }
    }

    pub fn as_str(&self) -> (text: Option<&str>)
        ensures
            text is Some <==> self.model().text() is Some,
            text matches Some(text) ==> Some(text@) == self.model().text(),
    {
        match self {
            Json::Text(text) => Some(text.as_str()),
            _ => None,
        }
    }

    pub fn as_bool(&self) -> (flag: Option<bool>)
        ensures
            flag == self.model().flag(),
    {
        match self {
            Json::Bool(flag) => Some(*flag),
            _ => None,
        }
    }

    /// The truth value under a key.
    pub fn flag(&self, key: &str) -> (flag: Option<bool>)
        ensures
            flag == self.model().flag_at(key@),
    {
        match self.get(key) {
            Some(value) => value.as_bool(),
            None => None,
        }
    }

    /// The number under a key.
    pub fn count(&self, key: &str) -> (count: Option<u64>)
        ensures
            count == self.model().count_at(key@),
    {
        match self.get(key) {
            Some(Json::Number(n)) => *n,
            _ => None,
        }
    }

    /// The items of the list under a key; none where there is no such list.
    pub fn as_array(&self, key: &str) -> (items: &[Json])
        ensures
            list_model(items@) == self.model().items_at(key@),
    {
        match self.get(key) {
            Some(Json::List(items)) => items.as_slice(),
            _ => {
                let none: &[Json] = &[];
                assert(list_model(none@) =~= Seq::empty());
                none
            },
        }
    }
}

/// A value as `serde_json` holds it.
#[verifier::external_type_specification]
#[verifier::external_body]
pub struct ExParsed(Parsed);

/// What a `serde_json::Value` holds, an object as its pairs in the order in which it hands them out and
/// a number as what `Number::as_u64` makes of it.
pub uninterp spec fn value_model(value: Parsed) -> JsonView;

/// What `serde_json::from_str` makes of a text: the value it holds, or the words of the error.
pub uninterp spec fn json_document(text: Seq<char>) -> Result<JsonView, Seq<char>>;

/// `serde_json::from_str` to a `Value`: the text alone decides what comes back. An error is handed on in
/// its own words. A JSON document is read as the value it writes down, whatever white space stands between
/// its tokens; the order in which an object hands out its pairs is left open. The limit on nesting, which
/// lies higher, is not stated.
#[verifier::external_body]
fn read_value(text: &str) -> (read: Result<Parsed, String>)
    ensures
        match json_document(text@) {
            Ok(model) => read is Ok && value_model(read->Ok_0) == model,
            Err(words) => read is Err && read->Err_0@ == words,
        },
        forall|doc: Doc|
            is_json(doc, 100) && text@ == #[trigger] written(doc) ==> read is Ok && agrees(
                value_model(read->Ok_0),
                doc_value(doc),
            ),
{
    match serde_json::from_str(text) {
        Ok(value) => Ok(value),
        Err(error) => Err(error.to_string()),
    }
}

/// A `serde_json::Value`, opened by one level.
enum Layer {
    Null,
    Bool(bool),
    Number(Option<u64>),
    Text(String),
    List(Vec<Parsed>),
    Table(Vec<(String, Parsed)>),
}

spec fn values_model(items: Seq<Parsed>) -> Seq<JsonView> {
    Seq::new(items.len(), |i: int| value_model(items[i]))
}

spec fn entries_model(pairs: Seq<(String, Parsed)>) -> Seq<(Seq<char>, JsonView)> {
    Seq::new(pairs.len(), |i: int| (pairs[i].0@, value_model(pairs[i].1)))
}

spec fn layer_model(layer: Layer) -> JsonView {
    match layer {
        Layer::Null => JsonView::Null,
        Layer::Bool(flag) => JsonView::Bool(flag),
        Layer::Number(n) => JsonView::Number(n),
        Layer::Text(text) => JsonView::Text(text@),
        Layer::List(items) => JsonView::List(values_model(items@)),
        Layer::Table(pairs) => JsonView::Table(entries_model(pairs@)),
    }
}

/// Tells the variants of `serde_json::Value` apart and moves out what they hold.
#[verifier::external_body]
fn open_value(value: Parsed) -> (layer: Layer)
    ensures
        layer_model(layer) == value_model(value),
{
    match value {
        Parsed::Null => Layer::Null,
        Parsed::Bool(flag) => Layer::Bool(flag),
        Parsed::Number(n) => Layer::Number(n.as_u64()),
        Parsed::String(text) => Layer::Text(text),
        Parsed::Array(items) => Layer::List(items),
        Parsed::Object(map) => Layer::Table(map.into_iter().collect()),
    }
}

fn convert(value: Parsed) -> (json: Json)
    ensures
        json.model() == value_model(value),
    decreases value_model(value),
{
    let ghost model = value_model(value);
    match open_value(value) {
        Layer::Null => Json::Null,
        Layer::Bool(flag) => Json::Bool(flag),
        Layer::Number(n) => Json::Number(n),
        Layer::Text(text) => Json::Text(text),
        Layer::List(items) => {
            let ghost all = values_model(items@);
            let mut rest = items;
            let mut back: Vec<Json> = Vec::new();
            while rest.len() > 0
                invariant
                    model == value_model(value),
                    model == JsonView::List(all),
                    rest@.len() + back@.len() == all.len(),
                    values_model(rest@) =~= all.take(rest@.len() as int),
                    forall|k: int|
                        0 <= k < back@.len() ==> (#[trigger] back@[k]).model() == all[all.len() - 1 - k],
                decreases rest.len(),
            {
                let ghost before = rest@;
                let last = rest.pop();
                if let Some(item) = last {
                    assert(value_model(item) == values_model(before)[before.len() - 1]);
                    assert(value_model(item) == all[before.len() - 1]);
                    assert(values_model(rest@) =~= all.take(rest@.len() as int)) by {
                        assert forall|k: int| 0 <= k < rest@.len() implies values_model(rest@)[k]
                            == all[k] by {
                            assert(values_model(before)[k] == all.take(before.len() as int)[k]);
                        }
                    }
                    assert(decreases_to!(model => model->List_0));
                    assert(decreases_to!(all => all[before.len() - 1]));
                    back.push(convert(item));
                }
            }
            let mut list: Vec<Json> = Vec::new();
            while back.len() > 0
                invariant
                    list@.len() + back@.len() == all.len(),
                    forall|k: int|
                        0 <= k < back@.len() ==> (#[trigger] back@[k]).model() == all[all.len() - 1 - k],
                    forall|k: int| 0 <= k < list@.len() ==> (#[trigger] list@[k]).model() == all[k],
                decreases back.len(),
            {
                let last = back.pop();
                if let Some(item) = last {
                    list.push(item);
                }
            }
            assert(list_model(list@) =~= all);
            Json::List(list)
        },
        Layer::Table(pairs) => {
            let ghost all = entries_model(pairs@);
            let mut rest = pairs;
            let mut back: Vec<(String, Json)> = Vec::new();
            while rest.len() > 0
                invariant
                    model == value_model(value),
                    model == JsonView::Table(all),
                    rest@.len() + back@.len() == all.len(),
                    entries_model(rest@) =~= all.take(rest@.len() as int),
                    forall|k: int|
                        0 <= k < back@.len() ==> pair_model(#[trigger] back@[k]) == all[all.len() - 1 - k],
                decreases rest.len(),
            {
                let ghost before = rest@;
                let last = rest.pop();
                if let Some(pair) = last {
                    assert((pair.0@, value_model(pair.1)) == entries_model(before)[before.len() - 1]);
                    assert((pair.0@, value_model(pair.1)) == all[before.len() - 1]);
                    assert(entries_model(rest@) =~= all.take(rest@.len() as int)) by {
                        assert forall|k: int| 0 <= k < rest@.len() implies entries_model(rest@)[k]
                            == all[k] by {
                            assert(entries_model(before)[k] == all.take(before.len() as int)[k]);
                        }
                    }
                    assert(decreases_to!(model => model->Table_0));
                    assert(decreases_to!(all => all[before.len() - 1]));
                    assert(decreases_to!(all[before.len() - 1] => all[before.len() - 1].1));
                    let key = pair.0;
                    let inner = convert(pair.1);
                    back.push((key, inner));
                }
            }
            let mut table: Vec<(String, Json)> = Vec::new();
            while back.len() > 0
                invariant
                    table@.len() + back@.len() == all.len(),
                    forall|k: int|
                        0 <= k < back@.len() ==> pair_model(#[trigger] back@[k]) == all[all.len() - 1 - k],
                    forall|k: int| 0 <= k < table@.len() ==> pair_model(#[trigger] table@[k]) == all[k],
                decreases back.len(),
            {
                let last = back.pop();
                if let Some(pair) = last {
                    table.push(pair);
                }
            }
            assert forall|k: int| 0 <= k < all.len() implies table_model(table@)[k] == all[k] by {
                assert(pair_model(table@[k]) == all[k]);
            }
            assert(table_model(table@) =~= all);
            Json::Table(table)
        },
    }
}

spec fn pair_model(pair: (String, Json)) -> (Seq<char>, JsonView) {
    (pair.0@, pair.1.model())
}

/// Reads a JSON document. What was written as one is read as the value it writes down.
pub fn parse(text: &str) -> (read: Result<Json, String>)
    ensures
        match json_document(text@) {
            Ok(model) => read is Ok && read->Ok_0.model() == model,
            Err(words) => read is Err && read->Err_0@ == words,
        },
        forall|doc: Doc|
            is_json(doc, 100) && text@ == #[trigger] written(doc) ==> read is Ok && agrees(
                read->Ok_0.model(),
                doc_value(doc),
            ),
{
    match read_value(text) {
        Ok(value) => Ok(convert(value)),
        Err(words) => Err(words),
    }
}

/// A character as it stands inside a JSON string.
pub open spec fn quoted_char(c: char) -> Seq<char> {
    if c == '"' {
        seq!['\\', '"']
    } else if c == '\\' {
        seq!['\\', '\\']
    } else if c == '\n' {
        seq!['\\', 'n']
    } else if c == '\r' {
        seq!['\\', 'r']
    } else if c == '\t' {
        seq!['\\', 't']
    } else if ' ' > c {
        seq!['\\', 'u', '0', '0', hex_digit((c as u8) / 16), hex_digit((c as u8) % 16)]
    } else {
        seq![c]
    }
}

pub open spec fn quoted_chars(text: Seq<char>) -> Seq<char>
    decreases text.len(),
{
    if text.len() == 0 {
        Seq::empty()
    } else {
        quoted_chars(text.drop_last()) + quoted_char(text.last())
    }
}

/// A text as a JSON string.
pub open spec fn quoted(text: Seq<char>) -> Seq<char> {
    seq!['"'] + quoted_chars(text) + seq!['"']
}

/// Writes a text as a JSON string.
pub fn quote(text: &str) -> (out: String)
    ensures
        out@ == quoted(text@),
{
    let chars = chars_of(text);
    let mut out = String::new();
    out.push('"');
    let mut i: usize = 0;
    assert(out@ =~= seq!['"'] + quoted_chars(text@.take(0)));
    while i < chars.len()
        invariant
            i <= chars.len(),
            chars@ == text@,
            out@ == seq!['"'] + quoted_chars(text@.take(i as int)),
        decreases chars.len() - i,
    {
        let ghost before = out@;
        assert(text@.take(i + 1).drop_last() =~= text@.take(i as int));
        let c = chars[i];
        if c == '"' {
            out.push('\\');
            out.push('"');
        } else if c == '\\' {
            out.push('\\');
            out.push('\\');
        } else if c == '\n' {
            out.push('\\');
            out.push('n');
        } else if c == '\r' {
            out.push('\\');
            out.push('r');
        } else if c == '\t' {
            out.push('\\');
            out.push('t');
        } else if ' ' > c {
            let code: u8 = c as u8;
            out.push('\\');
            out.push('u');
            out.push('0');
            out.push('0');
            out.push(digit(code / 16));
            out.push(digit(code % 16));
        } else {
            out.push(c);
        }
        assert(out@ =~= before + quoted_char(c));
        assert(out@ =~= seq!['"'] + quoted_chars(text@.take(i + 1)));
        i = i + 1;
    }
    assert(text@.take(i as int) =~= text@);
    out.push('"');
    assert(out@ =~= quoted(text@));
    out
}

pub open spec fn hex_value(c: char) -> int {
    if '0' <= c && c <= '9' {
        c as int - 48
    } else {
        c as int - 87
    }
}

/// The character that the inside of a JSON string begins with, and how much of the string it takes up.
pub open spec fn unquoted_char(s: Seq<char>) -> Option<(char, int)> {
    if s.len() == 0 || s[0] == '"' || ' ' > s[0] {
        None
    } else if s[0] != '\\' {
        Some((s[0], 1))
    } else if s.len() < 2 {
        None
    } else if s[1] == '"' {
        Some(('"', 2))
    } else if s[1] == '\\' {
        Some(('\\', 2))
    } else if s[1] == 'n' {
        Some(('\n', 2))
    } else if s[1] == 'r' {
        Some(('\r', 2))
    } else if s[1] == 't' {
        Some(('\t', 2))
    } else if s[1] == 'u' && s.len() >= 6 && s[2] == '0' && s[3] == '0' {
        Some(((16 * hex_value(s[4]) + hex_value(s[5])) as u8 as char, 6))
    } else {
        None
    }
}

/// What the inside of a JSON string says.
pub open spec fn unquoted(s: Seq<char>) -> Option<Seq<char>>
    decreases s.len(),
{
    if s.len() == 0 {
        Some(Seq::empty())
    } else {
        match unquoted_char(s) {
            Some((c, n)) => if 0 < n <= s.len() {
                match unquoted(s.skip(n)) {
                    Some(rest) => Some(seq![c] + rest),
                    None => None,
                }
            } else {
                None
            },
            None => None,
        }
    }
}

proof fn lemma_quoted_front(text: Seq<char>)
    requires
        text.len() > 0,
    ensures
        quoted_chars(text) == quoted_char(text[0]) + quoted_chars(text.skip(1)),
    decreases text.len(),
{
    if text.len() == 1 {
        assert(text.drop_last() =~= Seq::empty());
        assert(text.skip(1) =~= Seq::empty());
        assert(quoted_chars(text) =~= quoted_char(text[0]) + quoted_chars(text.skip(1)));
    } else {
        lemma_quoted_front(text.drop_last());
        assert(text.drop_last().skip(1) =~= text.skip(1).drop_last());
        assert(quoted_chars(text) =~= quoted_char(text[0]) + quoted_chars(text.skip(1)));
    }
}

proof fn lemma_control_char(c: char)
    requires
        ' ' > c,
    ensures
        16 * hex_value(hex_digit((c as u8) / 16)) + hex_value(hex_digit((c as u8) % 16)) == c as u8,
        (c as u8) as char == c,
{
}

/// The inside of a string that was written says what was written, whatever that was.
pub proof fn law_quoted_text_reads_back(text: Seq<char>)
    ensures
        unquoted(quoted_chars(text)) == Some(text),
    decreases text.len(),
{
    if text.len() > 0 {
        lemma_quoted_front(text);
        law_quoted_text_reads_back(text.skip(1));
        let c = text[0];
        let s = quoted_chars(text);
        let n = quoted_char(c).len() as int;
        assert(s.skip(n) =~= quoted_chars(text.skip(1)));
        assert(forall|k: int| 0 <= k < n ==> s[k] == quoted_char(c)[k]);
        if ' ' > c {
            lemma_control_char(c);
        }
        assert(unquoted_char(s) == Some((c, n)));
        assert(seq![c] + text.skip(1) =~= text);
    } else {
        assert(text =~= Seq::empty());
    }
}

} // verus!
