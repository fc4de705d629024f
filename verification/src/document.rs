//! JSON documents as they are laid out on a page.
//!
//! What is written has one value, and every layout of it is read as that value.

use vstd::prelude::*;

use crate::json::{first_at, quote, quoted, JsonView};
use crate::text::{decimal, decimal_text, texts};

verus! {

/// The white space in a list or a table: before its first member, before each other one, and after the last.
#[derive(Debug, Clone, Copy)]
pub struct Layout {
    pub first: &'static str,
    pub between: &'static str,
    pub end: &'static str,
}

pub struct Gaps {
    pub first: Seq<char>,
    pub between: Seq<char>,
    pub end: Seq<char>,
}

impl View for Layout {
    type V = Gaps;

    open spec fn view(&self) -> Gaps {
        Gaps { first: self.first@, between: self.between@, end: self.end@ }
    }
}

/// Each member on a line of its own.
pub open spec fn page_gaps() -> Gaps {
    Gaps { first: "\n  "@, between: "\n  "@, end: "\n"@ }
}

pub fn page() -> (layout: Layout)
    ensures
        layout@ == page_gaps(),
{
    Layout { first: "\n  ", between: "\n  ", end: "\n" }
}

/// All members on one line.
pub open spec fn row_gaps() -> Gaps {
    Gaps { first: ""@, between: " "@, end: ""@ }
}

pub fn row() -> (layout: Layout)
    ensures
        layout@ == row_gaps(),
{
    Layout { first: "", between: " ", end: "" }
}

/// Each member on a line of its own, inside a page.
pub open spec fn block_gaps() -> Gaps {
    Gaps { first: "\n    "@, between: "\n    "@, end: "\n  "@ }
}

pub fn block() -> (layout: Layout)
    ensures
        layout@ == block_gaps(),
{
    Layout { first: "\n    ", between: "\n    ", end: "\n  " }
}

pub proof fn lemma_gaps()
    ensures
        are_gaps(page_gaps()),
        are_gaps(row_gaps()),
        are_gaps(block_gaps()),
        are_gaps(entry_gaps()),
{
    reveal_strlit("\n      ");
    reveal_strlit("\n    ");
    reveal_strlit("\n  ");
    reveal_strlit("\n");
    reveal_strlit("");
    reveal_strlit(" ");
}

pub open spec fn truth(flag: bool) -> Seq<char> {
    if flag {
        "true"@
    } else {
        "false"@
    }
}

pub fn truth_text(flag: bool) -> (text: &'static str)
    ensures
        text@ == truth(flag),
{
    if flag {
        "true"
    } else {
        "false"
    }
}

/// Each member on a line of its own, inside a block.
pub open spec fn entry_gaps() -> Gaps {
    Gaps { first: "\n      "@, between: "\n      "@, end: "\n    "@ }
}

pub fn entry() -> (layout: Layout)
    ensures
        layout@ == entry_gaps(),
{
    Layout { first: "\n      ", between: "\n      ", end: "\n    " }
}

/// A value and how it is laid out.
#[derive(Debug)]
pub enum Node {
    Null,
    Bool(bool),
    Number(u64),
    Text(String),
    List(Layout, Vec<Node>),
    Table(Layout, Vec<(String, Node)>),
}

pub enum Doc {
    Null,
    Bool(bool),
    Number(u64),
    Text(Seq<char>),
    List(Gaps, Seq<Doc>),
    Table(Gaps, Seq<(Seq<char>, Doc)>),
}

pub open spec fn nodes_model(items: Seq<Node>) -> Seq<Doc>
    decreases items,
{
    Seq::new(
        items.len(),
        |i: int|
            if 0 <= i < items.len() {
                items[i].model()
            } else {
                arbitrary()
            },
    )
}

pub open spec fn members_model(pairs: Seq<(String, Node)>) -> Seq<(Seq<char>, Doc)>
    decreases pairs,
{
    Seq::new(
        pairs.len(),
        |i: int|
            if 0 <= i < pairs.len() {
                (pairs[i].0@, pairs[i].1.model())
            } else {
                arbitrary()
            },
    )
}

/// Texts in a row.
pub open spec fn texts_doc(list: Seq<Seq<char>>) -> Doc {
    Doc::List(row_gaps(), text_docs(list))
}

pub open spec fn text_docs(list: Seq<Seq<char>>) -> Seq<Doc> {
    Seq::new(list.len(), |i: int| Doc::Text(list[i]))
}

pub fn texts_node(list: &Vec<String>) -> (node: Node)
    ensures
        node.model() == texts_doc(texts(list@)),
{
    let mut items: Vec<Node> = Vec::new();
    let mut i: usize = 0;
    while i < list.len()
        invariant
            i <= list.len(),
            items@.len() == i,
            forall|k: int| 0 <= k < i ==> (#[trigger] items@[k]).model() == Doc::Text(list@[k]@),
        decreases list.len() - i,
    {
        items.push(Node::Text(list[i].clone()));
        i = i + 1;
    }
    assert(nodes_model(items@) =~= text_docs(texts(list@)));
    Node::List(row(), items)
}

/// A text, or `null` where there is none.
pub open spec fn text_or_null(text: Option<Seq<char>>) -> Doc {
    match text {
        Some(text) => Doc::Text(text),
        None => Doc::Null,
    }
}

/// A number, or `null` where there is none.
pub open spec fn number_or_null(n: Option<u64>) -> Doc {
    match n {
        Some(n) => Doc::Number(n),
        None => Doc::Null,
    }
}

/// A document as it is written.
pub open spec fn doc_text(doc: Doc) -> Seq<char>
    decreases doc,
{
    match doc {
        Doc::Null => "null"@,
        Doc::Bool(flag) => truth(flag),
        Doc::Number(n) => decimal_text(n as nat),
        Doc::Text(text) => quoted(text),
        Doc::List(gaps, items) => "["@ + items_text(gaps, items) + gaps.end + "]"@,
        Doc::Table(gaps, pairs) => "{"@ + members_text(gaps, pairs) + gaps.end + "}"@,
    }
}

/// What stands before a member.
pub open spec fn lead(gaps: Gaps, is_first: bool) -> Seq<char> {
    if is_first {
        gaps.first
    } else {
        ","@ + gaps.between
    }
}

pub open spec fn items_text(gaps: Gaps, items: Seq<Doc>) -> Seq<char>
    decreases items,
{
    if items.len() == 0 {
        Seq::empty()
    } else {
        items_text(gaps, items.subrange(0, items.len() - 1)) + lead(gaps, items.len() == 1) + doc_text(
            items[items.len() - 1],
        )
    }
}

pub open spec fn members_text(gaps: Gaps, pairs: Seq<(Seq<char>, Doc)>) -> Seq<char>
    decreases pairs,
{
    if pairs.len() == 0 {
        Seq::empty()
    } else {
        members_text(gaps, pairs.subrange(0, pairs.len() - 1)) + lead(gaps, pairs.len() == 1) + quoted(
            pairs[pairs.len() - 1].0,
        ) + ": "@ + doc_text(pairs[pairs.len() - 1].1)
    }
}

/// A document as a file or an output holds it, with a line feed behind it.
pub open spec fn written(doc: Doc) -> Seq<char> {
    doc_text(doc) + "\n"@
}

/// The value that a document writes down.
pub open spec fn doc_value(doc: Doc) -> JsonView
    decreases doc,
{
    match doc {
        Doc::Null => JsonView::Null,
        Doc::Bool(flag) => JsonView::Bool(flag),
        Doc::Number(n) => JsonView::Number(Some(n)),
        Doc::Text(text) => JsonView::Text(text),
        Doc::List(_, items) => JsonView::List(items_value(items)),
        Doc::Table(_, pairs) => JsonView::Table(members_value(pairs)),
    }
}

pub open spec fn items_value(items: Seq<Doc>) -> Seq<JsonView>
    decreases items,
{
    Seq::new(
        items.len(),
        |i: int|
            if 0 <= i < items.len() {
                doc_value(items[i])
            } else {
                arbitrary()
            },
    )
}

pub open spec fn members_value(pairs: Seq<(Seq<char>, Doc)>) -> Seq<(Seq<char>, JsonView)>
    decreases pairs,
{
    Seq::new(
        pairs.len(),
        |i: int|
            if 0 <= i < pairs.len() {
                (pairs[i].0, doc_value(pairs[i].1))
            } else {
                arbitrary()
            },
    )
}

/// JSON's white space.
pub open spec fn is_gap(text: Seq<char>) -> bool {
    forall|i: int|
        0 <= i < text.len() ==> (#[trigger] text[i] == ' ' || text[i] == '\n' || text[i] == '\r' || text[i]
            == '\t')
}

pub open spec fn are_gaps(gaps: Gaps) -> bool {
    is_gap(gaps.first) && is_gap(gaps.between) && is_gap(gaps.end)
}

pub open spec fn keys_differ(pairs: Seq<(Seq<char>, Doc)>) -> bool {
    forall|i: int, j: int| 0 <= i < j < pairs.len() ==> (#[trigger] pairs[i]).0 != (#[trigger] pairs[j]).0
}

/// Is a document JSON: is its layout white space, and does no key stand twice in a table? And do its lists and
/// tables stand no more than `depth` deep inside one another?
pub open spec fn is_json(doc: Doc, depth: nat) -> bool
    decreases doc,
{
    match doc {
        Doc::List(gaps, items) => {
            &&& depth > 0
            &&& are_gaps(gaps)
            &&& items_json(items, depth)
        },
        Doc::Table(gaps, pairs) => {
            &&& depth > 0
            &&& are_gaps(gaps)
            &&& keys_differ(pairs)
            &&& members_json(pairs, depth)
        },
        _ => true,
    }
}

pub open spec fn items_json(items: Seq<Doc>, depth: nat) -> bool
    decreases items,
{
    forall|i: int| 0 <= i < items.len() ==> is_json(#[trigger] items[i], (depth - 1) as nat)
}

pub open spec fn members_json(pairs: Seq<(Seq<char>, Doc)>, depth: nat) -> bool
    decreases pairs,
{
    forall|i: int| 0 <= i < pairs.len() ==> is_json((#[trigger] pairs[i]).1, (depth - 1) as nat)
}

pub open spec fn has_key(pairs: Seq<(Seq<char>, JsonView)>, key: Seq<char>) -> bool {
    exists|i: int| 0 <= i < pairs.len() && (#[trigger] pairs[i]).0 == key
}

/// Are two values the same, whatever the order in which tables hold their pairs?
pub open spec fn agrees(value: JsonView, wanted: JsonView) -> bool
    decreases wanted,
{
    match wanted {
        JsonView::List(items) => value matches JsonView::List(list) && items_agree(list, items),
        JsonView::Table(pairs) => {
            &&& value matches JsonView::Table(table) && members_agree(table, pairs) && forall|j: int|
                0 <= j < table.len() ==> has_key(pairs, (#[trigger] table[j]).0)
        },
        _ => value == wanted,
    }
}

pub open spec fn items_agree(list: Seq<JsonView>, items: Seq<JsonView>) -> bool
    decreases items,
{
    list.len() == items.len() && forall|i: int| 0 <= i < items.len() ==> agrees(list[i], #[trigger] items[i])
}

pub open spec fn members_agree(
    table: Seq<(Seq<char>, JsonView)>,
    pairs: Seq<(Seq<char>, JsonView)>,
) -> bool
    decreases pairs,
{
    forall|i: int|
        0 <= i < pairs.len() ==> {
            let found = first_at(table, (#[trigger] pairs[i]).0);
            found is Some && agrees(found->0, pairs[i].1)
        }
}

impl Node {
    pub open spec fn model(self) -> Doc
        decreases self,
    {
        match self {
            Node::Null => Doc::Null,
            Node::Bool(flag) => Doc::Bool(flag),
            Node::Number(n) => Doc::Number(n),
            Node::Text(text) => Doc::Text(text@),
            Node::List(layout, items) => Doc::List(layout@, nodes_model(items@)),
            Node::Table(layout, pairs) => Doc::Table(layout@, members_model(pairs@)),
        }
    }

    /// The text of the document.
    pub fn text(&self) -> (text: String)
        ensures
            text@ == doc_text(self.model()),
        decreases self.model(),
    {
        match self {
            Node::Null => "null".to_string(),
            Node::Bool(flag) => truth_text(*flag).to_string(),
            Node::Number(n) => decimal(*n),
            Node::Text(text) => quote(text.as_str()),
            Node::List(layout, items) => {
                let ghost all = nodes_model(items@);
                let mut text = "[".to_string();
                let mut i: usize = 0;
                assert(all.subrange(0, 0) =~= Seq::empty());
                assert("["@ + Seq::empty() =~= "["@);
                while i < items.len()
                    invariant
                        i <= items.len(),
                        all == nodes_model(items@),
                        self.model() == Doc::List(layout@, all),
                        text@ == "["@ + items_text(layout@, all.subrange(0, i as int)),
                    decreases items.len() - i,
                {
                    let ghost now = all.subrange(0, i + 1);
                    let ghost before = text@;
                    assert(now.subrange(0, i as int) =~= all.subrange(0, i as int));
                    assert(all[i as int] == items@[i as int].model());
                    assert(decreases_to!(self.model() => self.model()->List_1));
                    assert(decreases_to!(all => all[i as int]));
                    if i == 0 {
                        text.push_str(layout.first);
                    } else {
                        text.push_str(",");
                        text.push_str(layout.between);
                    }
                    assert(text@ =~= before + lead(layout@, i == 0));
                    text.push_str(items[i].text().as_str());
                    assert(text@ =~= "["@ + items_text(layout@, now));
                    i = i + 1;
                }
                assert(all.subrange(0, i as int) =~= all);
                text.push_str(layout.end);
                text.push_str("]");
                text
            },
            Node::Table(layout, pairs) => {
                let ghost all = members_model(pairs@);
                let mut text = "{".to_string();
                let mut i: usize = 0;
                assert(all.subrange(0, 0) =~= Seq::empty());
                assert("{"@ + Seq::empty() =~= "{"@);
                while i < pairs.len()
                    invariant
                        i <= pairs.len(),
                        all == members_model(pairs@),
                        self.model() == Doc::Table(layout@, all),
                        text@ == "{"@ + members_text(layout@, all.subrange(0, i as int)),
                    decreases pairs.len() - i,
                {
                    let ghost now = all.subrange(0, i + 1);
                    let ghost before = text@;
                    assert(now.subrange(0, i as int) =~= all.subrange(0, i as int));
                    assert(all[i as int] == (pairs@[i as int].0@, pairs@[i as int].1.model()));
                    assert(decreases_to!(self.model() => self.model()->Table_1));
                    assert(decreases_to!(all => all[i as int]));
                    assert(decreases_to!(all[i as int] => all[i as int].1));
                    if i == 0 {
                        text.push_str(layout.first);
                    } else {
                        text.push_str(",");
                        text.push_str(layout.between);
                    }
                    assert(text@ =~= before + lead(layout@, i == 0));
                    text.push_str(quote(pairs[i].0.as_str()).as_str());
                    text.push_str(": ");
                    text.push_str(pairs[i].1.text().as_str());
                    assert(text@ =~= "{"@ + members_text(layout@, now));
                    i = i + 1;
                }
                assert(all.subrange(0, i as int) =~= all);
                text.push_str(layout.end);
                text.push_str("}");
                text
            },
        }
    }

    /// The text of the document with a line feed behind it.
    pub fn document(&self) -> (text: String)
        ensures
            text@ == written(self.model()),
    {
        let mut text = self.text();
        text.push_str("\n");
        text
    }
}

proof fn lemma_found(pairs: Seq<(Seq<char>, JsonView)>, key: Seq<char>)
    ensures
        first_at(pairs, key) is Some <==> has_key(pairs, key),
        first_at(pairs, key) matches Some(value) ==> exists|i: int|
            0 <= i < pairs.len() && #[trigger] pairs[i] == (key, value),
    decreases pairs.len(),
{
    if pairs.len() > 0 {
        let rest = pairs.skip(1);
        lemma_found(rest, key);
        if pairs[0].0 == key {
            assert(pairs[0] == (key, pairs[0].1));
        } else {
            if has_key(pairs, key) {
                let i = choose|i: int| 0 <= i < pairs.len() && (#[trigger] pairs[i]).0 == key;
                assert(rest[i - 1] == pairs[i]);
            }
            if first_at(rest, key) is Some {
                let value = first_at(rest, key)->0;
                let i = choose|i: int| 0 <= i < rest.len() && #[trigger] rest[i] == (key, value);
                assert(pairs[i + 1] == (key, value));
            }
        }
    }
}

proof fn lemma_plain_parts(value: JsonView, wanted: JsonView)
    requires
        agrees(value, wanted),
    ensures
        value.text() == wanted.text(),
        value.flag() == wanted.flag(),
        value.count() == wanted.count(),
        items_agree(value.items(), wanted.items()),
{
}

/// Values that are the same in all but order have the same under each key.
pub proof fn law_order_of_pairs_does_not_matter(value: JsonView, wanted: JsonView, key: Seq<char>)
    requires
        agrees(value, wanted),
    ensures
        value.at(key) is Some <==> wanted.at(key) is Some,
        wanted.at(key) is Some ==> agrees(value.at(key)->0, wanted.at(key)->0),
        value.text_at(key) == wanted.text_at(key),
        value.flag_at(key) == wanted.flag_at(key),
        value.count_at(key) == wanted.count_at(key),
        items_agree(value.items_at(key), wanted.items_at(key)),
{
    if let JsonView::Table(pairs) = wanted {
        let table = value->Table_0;
        lemma_found(pairs, key);
        lemma_found(table, key);
        if has_key(pairs, key) {
            let found = first_at(pairs, key)->0;
            let i = choose|i: int| 0 <= i < pairs.len() && #[trigger] pairs[i] == (key, found);
            assert(pairs[i].0 == key && pairs[i].1 == found);
            lemma_plain_parts(first_at(table, key)->0, found);
        } else if has_key(table, key) {
            let j = choose|j: int| 0 <= j < table.len() && (#[trigger] table[j]).0 == key;
            assert(has_key(pairs, table[j].0));
        }
    }
}

/// A document that holds no others.
pub open spec fn is_leaf(doc: Doc) -> bool {
    !(doc is List) && !(doc is Table)
}

pub proof fn lemma_leaf(doc: Doc, depth: nat)
    requires
        is_leaf(doc),
    ensures
        is_json(doc, depth),
{
}

/// A table is JSON when its members are.
pub proof fn lemma_table_is_json(gaps: Gaps, pairs: Seq<(Seq<char>, Doc)>, depth: nat)
    requires
        depth > 0,
        are_gaps(gaps),
        keys_differ(pairs),
        forall|i: int|
            0 <= i < pairs.len() ==> is_leaf((#[trigger] pairs[i]).1) || is_json(
                pairs[i].1,
                (depth - 1) as nat,
            ),
    ensures
        is_json(Doc::Table(gaps, pairs), depth),
{
    assert forall|i: int| 0 <= i < pairs.len() implies is_json(
        (#[trigger] pairs[i]).1,
        (depth - 1) as nat,
    ) by {
        if is_leaf(pairs[i].1) {
            lemma_leaf(pairs[i].1, (depth - 1) as nat);
        }
    }
}

/// A list is JSON when its items are.
pub proof fn lemma_list_is_json(gaps: Gaps, items: Seq<Doc>, depth: nat)
    requires
        depth > 0,
        are_gaps(gaps),
        forall|i: int|
            0 <= i < items.len() ==> is_leaf(#[trigger] items[i]) || is_json(items[i], (depth - 1) as nat),
    ensures
        is_json(Doc::List(gaps, items), depth),
{
    assert forall|i: int| 0 <= i < items.len() implies is_json(
        #[trigger] items[i],
        (depth - 1) as nat,
    ) by {
        if is_leaf(items[i]) {
            lemma_leaf(items[i], (depth - 1) as nat);
        }
    }
}

/// Where no key stands twice, each is found where it stands.
pub proof fn lemma_first_at(pairs: Seq<(Seq<char>, JsonView)>, i: int)
    requires
        0 <= i < pairs.len(),
        forall|a: int| 0 <= a < i ==> (#[trigger] pairs[a]).0 != pairs[i].0,
    ensures
        first_at(pairs, pairs[i].0) == Some(pairs[i].1),
    decreases pairs.len(),
{
    if i > 0 {
        let rest = pairs.skip(1);
        assert(rest[i - 1] == pairs[i]);
        assert(pairs[0].0 != pairs[i].0);
        assert forall|a: int| 0 <= a < i - 1 implies (#[trigger] rest[a]).0 != rest[i - 1].0 by {
            assert(rest[a] == pairs[a + 1]);
        }
        lemma_first_at(rest, i - 1);
    }
}

/// What a table has under the key of one of its members.
pub proof fn lemma_member(gaps: Gaps, pairs: Seq<(Seq<char>, Doc)>, i: int)
    requires
        keys_differ(pairs),
        0 <= i < pairs.len(),
    ensures
        doc_value(Doc::Table(gaps, pairs)).at(pairs[i].0) == Some(doc_value(pairs[i].1)),
{
    let values = members_value(pairs);
    assert(values[i] == (pairs[i].0, doc_value(pairs[i].1)));
    assert forall|a: int| 0 <= a < i implies (#[trigger] values[a]).0 != values[i].0 by {
        assert(values[a].0 == pairs[a].0);
    }
    lemma_first_at(values, i);
}

} // verus!
