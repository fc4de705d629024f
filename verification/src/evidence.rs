//! What has actually been established about a repaired library.
//!
//! A repair proves one thing: the files were copied and checked. It proves nothing about whether a game
//! starts, whether a save loads, or whether Steam Cloud is still working. Those are separate questions
//! with separate answers, and the answers come from a person playing a game, not from this tool.
//!
//! So each is recorded separately, with who established it and when, and anything not established stays
//! "not checked" rather than being implied by a green tick somewhere else.

use vstd::prelude::*;

use crate::document::{
    self, agrees, block_gaps, doc_value, is_json, keys_differ, law_order_of_pairs_does_not_matter, lemma_gaps,
    lemma_member, lemma_table_is_json, members_model, nodes_model, page_gaps, row_gaps, written, Doc, Node,
};
use crate::json::{json_document, parse, Json, JsonView};
use crate::path::{under_text, FilePath};
use crate::text::{same, split, split_at_char, texts};

verus! {

#[derive(Debug, Clone, Copy, PartialEq, Eq, Structural)]
pub enum Result_ {
    NotChecked,
    Worked,
    Failed,
    NotApplicable,
}

pub open spec fn result_label(result: Result_) -> Seq<char> {
    match result {
        Result_::NotChecked => "not checked"@,
        Result_::Worked => "worked"@,
        Result_::Failed => "failed"@,
        Result_::NotApplicable => "does not apply"@,
    }
}

pub open spec fn result_code(result: Result_) -> Seq<char> {
    match result {
        Result_::NotChecked => "not_checked"@,
        Result_::Worked => "worked"@,
        Result_::Failed => "failed"@,
        Result_::NotApplicable => "not_applicable"@,
    }
}

pub open spec fn result_of(text: Seq<char>) -> Option<Result_> {
    if text == "not_checked"@ {
        Some(Result_::NotChecked)
    } else if text == "worked"@ || text == "yes"@ {
        Some(Result_::Worked)
    } else if text == "failed"@ || text == "no"@ {
        Some(Result_::Failed)
    } else if text == "not_applicable"@ || text == "na"@ {
        Some(Result_::NotApplicable)
    } else {
        None
    }
}

impl Result_ {
    pub fn label(self) -> (label: &'static str)
        ensures
            label@ == result_label(self),
    {
        match self {
            Result_::NotChecked => "not checked",
            Result_::Worked => "worked",
            Result_::Failed => "failed",
            Result_::NotApplicable => "does not apply",
        }
    }

    pub fn code(self) -> (code: &'static str)
        ensures
            code@ == result_code(self),
    {
        match self {
            Result_::NotChecked => "not_checked",
            Result_::Worked => "worked",
            Result_::Failed => "failed",
            Result_::NotApplicable => "not_applicable",
        }
    }

    pub fn parse(text: &str) -> (result: Option<Result_>)
        ensures
            result == result_of(text@),
    {
        if same(text, "not_checked") {
            Some(Result_::NotChecked)
        } else if same(text, "worked") || same(text, "yes") {
            Some(Result_::Worked)
        } else if same(text, "failed") || same(text, "no") {
            Some(Result_::Failed)
        } else if same(text, "not_applicable") || same(text, "na") {
            Some(Result_::NotApplicable)
        } else {
            None
        }
    }
}

/// What a person may answer, and what is written down of it, is read as the result it stands for.
pub proof fn law_result_reads_back(result: Result_)
    ensures
        result_of(result_code(result)) == Some(result),
{
    reveal_strlit("not_checked");
    reveal_strlit("worked");
    reveal_strlit("yes");
    reveal_strlit("failed");
    reveal_strlit("no");
    reveal_strlit("not_applicable");
    reveal_strlit("na");
    assert("not_checked"@.len() == 11 && "worked"@.len() == 6 && "yes"@.len() == 3 && "failed"@.len()
        == 6 && "no"@.len() == 2 && "not_applicable"@.len() == 14 && "na"@.len() == 2);
    assert("worked"@[0] != "failed"@[0]);
}

pub fn parse_result(text: &str) -> (result: Option<Result_>)
    ensures
        result == result_of(text@),
{
    Result_::parse(text)
}

#[derive(Debug, Clone, Copy, PartialEq, Eq, Structural)]
pub struct Row {
    pub result: Result_,
    pub when: u64,
    /// True when this tool established it, false when a person reported it.
    pub by_tool: bool,
}

/// A thing that has not been looked at.
pub open spec fn unchecked() -> Row {
    Row { result: Result_::NotChecked, when: 0, by_tool: false }
}

impl Default for Row {
    fn default() -> (row: Self)
        ensures
            row == unchecked(),
    {
        Row { result: Result_::NotChecked, when: 0, by_tool: false }
    }
}

#[derive(Debug, Clone, Copy, PartialEq, Eq, Structural)]
pub struct Evidence {
    pub files: Row,
    pub launch: Row,
    pub save: Row,
    pub cloud: Row,
}

/// Nothing established.
pub open spec fn no_evidence() -> Evidence {
    Evidence { files: unchecked(), launch: unchecked(), save: unchecked(), cloud: unchecked() }
}

impl Default for Evidence {
    fn default() -> (evidence: Self)
        ensures
            evidence == no_evidence(),
    {
        let row: Row = Default::default();
        Evidence { files: row, launch: row, save: row, cloud: row }
    }
}

pub const FIELDS: [&'static str; 4] = ["files", "launch", "save", "cloud"];

pub open spec fn is_field(field: Seq<char>) -> bool {
    field == "files"@ || field == "launch"@ || field == "save"@ || field == "cloud"@
}

pub open spec fn field_text(field: Seq<char>) -> Seq<char> {
    if field == "files"@ {
        "Files copied and checked"@
    } else if field == "launch"@ {
        "Game starts"@
    } else if field == "save"@ {
        "An existing save loads, and a new one is kept"@
    } else {
        "Steam Cloud still syncs"@
    }
}

pub fn describe(field: &str) -> (text: &'static str)
    ensures
        text@ == field_text(field@),
{
    if same(field, "files") {
        "Files copied and checked"
    } else if same(field, "launch") {
        "Game starts"
    } else if same(field, "save") {
        "An existing save loads, and a new one is kept"
    } else {
        "Steam Cloud still syncs"
    }
}

/// The file a library's evidence is in, among the tool's own files.
pub fn path_for(app_data: &FilePath, library_id: &str) -> (path: FilePath)
    ensures
        path@ == under_text(under_text(app_data@, "evidence"@), library_id@ + ".json"@),
{
    let mut name = library_id.to_string();
    name.push_str(".json");
    app_data.join_text("evidence").join_text(name.as_str())
}

/// The row that a JSON value is. What it does not say is taken as not checked.
pub open spec fn row_of(value: Option<JsonView>) -> Row {
    match value {
        None => unchecked(),
        Some(value) => Row {
            result: match value.text_at("result"@) {
                Some(text) => match result_of(text) {
                    Some(result) => result,
                    None => Result_::NotChecked,
                },
                None => Result_::NotChecked,
            },
            when: match value.count_at("when"@) {
                Some(when) => when,
                None => 0,
            },
            by_tool: match value.flag_at("by_tool"@) {
                Some(by_tool) => by_tool,
                None => false,
            },
        },
    }
}

pub open spec fn evidence_of(value: JsonView) -> Evidence {
    Evidence {
        files: row_of(value.at("files"@)),
        launch: row_of(value.at("launch"@)),
        save: row_of(value.at("save"@)),
        cloud: row_of(value.at("cloud"@)),
    }
}

/// What a file says is established: nothing where there is no file, or where it cannot be read.
pub open spec fn evidence_in(text: Option<Seq<char>>) -> Evidence {
    match text {
        Some(text) => match json_document(text) {
            Ok(value) => evidence_of(value),
            Err(_) => no_evidence(),
        },
        None => no_evidence(),
    }
}

/// A row as a document.
pub open spec fn row_doc(row: Row) -> Doc {
    Doc::Table(
        row_gaps(),
        seq![
            ("result"@, Doc::Text(result_code(row.result))),
            ("when"@, Doc::Number(row.when)),
            ("by_tool"@, Doc::Bool(row.by_tool)),
        ],
    )
}

/// Evidence as a document.
pub open spec fn evidence_doc(evidence: Evidence) -> Doc {
    Doc::Table(
        page_gaps(),
        seq![
            ("schema"@, Doc::Number(1)),
            ("files"@, row_doc(evidence.files)),
            ("launch"@, row_doc(evidence.launch)),
            ("save"@, row_doc(evidence.save)),
            ("cloud"@, row_doc(evidence.cloud)),
        ],
    )
}

/// Evidence as it is written down.
pub open spec fn evidence_text(evidence: Evidence) -> Seq<char> {
    written(evidence_doc(evidence))
}

fn row_node(row: Row) -> (node: Node)
    ensures
        node.model() == row_doc(row),
{
    let pairs: Vec<(String, Node)> = vec![
        ("result".to_string(), Node::Text(row.result.code().to_string())),
        ("when".to_string(), Node::Number(row.when)),
        ("by_tool".to_string(), Node::Bool(row.by_tool)),
    ];
    assert(members_model(pairs@) =~= row_doc(row)->Table_1);
    Node::Table(document::row(), pairs)
}

fn read_row(value: Option<&Json>) -> (row: Row)
    ensures
        row == row_of(
            match value {
                Some(value) => Some(value.model()),
                None => None,
            },
        ),
{
    match value {
        None => Default::default(),
        Some(value) => Row {
            result: match value.string("result") {
                Some(text) => match Result_::parse(text.as_str()) {
                    Some(result) => result,
                    None => Result_::NotChecked,
                },
                None => Result_::NotChecked,
            },
            when: match value.count("when") {
                Some(when) => when,
                None => 0,
            },
            by_tool: match value.flag("by_tool") {
                Some(by_tool) => by_tool,
                None => false,
            },
        },
    }
}

impl Evidence {
    /// The row under a name; anything that is no other is taken as the cloud's.
    pub open spec fn row(self, field: Seq<char>) -> Row {
        if field == "files"@ {
            self.files
        } else if field == "launch"@ {
            self.launch
        } else if field == "save"@ {
            self.save
        } else {
            self.cloud
        }
    }

    pub open spec fn with_row(self, field: Seq<char>, row: Row) -> Evidence {
        if field == "files"@ {
            Evidence { files: row, ..self }
        } else if field == "launch"@ {
            Evidence { launch: row, ..self }
        } else if field == "save"@ {
            Evidence { save: row, ..self }
        } else {
            Evidence { cloud: row, ..self }
        }
    }

    /// With all that has to be established again once the data moved.
    pub open spec fn invalidated(self, when: u64) -> Evidence {
        let row = Row { result: Result_::NotChecked, when, by_tool: false };
        Evidence { launch: row, save: row, cloud: row, ..self }
    }

    /// What is established once the data moved.
    pub open spec fn after_move(self, checked: bool, when: u64) -> Evidence {
        if checked {
            self.with_row("files"@, Row { result: Result_::Worked, when, by_tool: true }).invalidated(when)
        } else {
            self.invalidated(when)
        }
    }

    pub fn from_json(value: &Json) -> (evidence: Evidence)
        ensures
            evidence == evidence_of(value.model()),
    {
        Evidence {
            files: read_row(value.get("files")),
            launch: read_row(value.get("launch")),
            save: read_row(value.get("save")),
            cloud: read_row(value.get("cloud")),
        }
    }

    /// What the contents of a library's evidence file establish. A file that evidence was written into
    /// establishes that evidence.
    pub fn load(text: Option<&str>) -> (evidence: Evidence)
        ensures
            evidence == evidence_in(
                match text {
                    Some(text) => Some(text@),
                    None => None,
                },
            ),
            forall|saved: Evidence|
                text is Some && text->0@ == #[trigger] evidence_text(saved) ==> evidence == saved,
    {
        match text {
            Some(text) => match parse(text) {
                Ok(value) => {
                    proof {
                        assert forall|saved: Evidence|
                            text@ == #[trigger] evidence_text(saved) implies evidence_of(value.model())
                            == saved by {
                            lemma_evidence_is_json(saved);
                            lemma_same_evidence(value.model(), doc_value(evidence_doc(saved)));
                            law_evidence_reads_back(saved);
                        }
                    }
                    Evidence::from_json(&value)
                },
                Err(_) => {
                    proof {
                        assert forall|saved: Evidence| text@ == #[trigger] evidence_text(saved) implies false by {
                            lemma_evidence_is_json(saved);
                        }
                    }
                    Default::default()
                },
            },
            None => Default::default(),
        }
    }

    /// The evidence as it is to be written down.
    pub fn document(&self) -> (text: String)
        ensures
            text@ == evidence_text(*self),
    {
        let pairs: Vec<(String, Node)> = vec![
            ("schema".to_string(), Node::Number(1)),
            ("files".to_string(), row_node(self.files)),
            ("launch".to_string(), row_node(self.launch)),
            ("save".to_string(), row_node(self.save)),
            ("cloud".to_string(), row_node(self.cloud)),
        ];
        assert(members_model(pairs@) =~= evidence_doc(*self)->Table_1);
        Node::Table(document::page(), pairs).document()
    }

    pub fn get(&self, field: &str) -> (row: Row)
        ensures
            row == self.row(field@),
    {
        if same(field, "files") {
            self.files
        } else if same(field, "launch") {
            self.launch
        } else if same(field, "save") {
            self.save
        } else {
            self.cloud
        }
    }

    fn set(&mut self, field: &str, row: Row)
        ensures
            *final(self) == old(self).with_row(field@, row),
    {
        if same(field, "files") {
            self.files = row;
        } else if same(field, "launch") {
            self.launch = row;
        } else if same(field, "save") {
            self.save = row;
        } else {
            self.cloud = row;
        }
    }

    /// Record an answer. `by_tool` separates what was measured from what a person reported, because they
    /// are not the same kind of claim.
    pub fn record(&mut self, field: &str, result: Result_, when: u64, by_tool: bool) -> (kept: Result<
        (),
        String,
    >)
        ensures
            kept is Ok <==> is_field(field@),
            kept is Ok ==> *final(self) == old(self).with_row(field@, Row { result, when, by_tool }),
            kept matches Err(text) ==> *final(self) == *old(self) && text@ == unknown_field(field@),
    {
        if same(field, "files") || same(field, "launch") || same(field, "save") || same(
            field,
            "cloud",
        ) {
            self.set(field, Row { result, when, by_tool });
            Ok(())
        } else {
            let mut text = "'".to_string();
            text.push_str(field);
            text.push_str("' is not one of the things recorded here: files, launch, save, cloud");
            Err(text)
        }
    }

    /// Anything that has to be established again after the data moved.
    pub fn invalidate(&mut self, when: u64)
        ensures
            *final(self) == old(self).invalidated(when),
    {
        let row = Row { result: Result_::NotChecked, when, by_tool: false };
        self.launch = row;
        self.save = row;
        self.cloud = row;
    }

    /// Notes that the data moved: with `checked`, that the files were found to match on the way; and that all
    /// that a person reported has to be established again.
    pub fn note_move(&mut self, checked: bool, when: u64)
        ensures
            *final(self) == old(self).after_move(checked, when),
    {
        if checked {
            self.files = Row { result: Result_::Worked, when, by_tool: true };
        }
        self.invalidate(when);
    }
}

pub open spec fn unknown_field(field: Seq<char>) -> Seq<char> {
    "'"@ + field + "' is not one of the things recorded here: files, launch, save, cloud"@
}

proof fn lemma_field_names()
    ensures
        ({
            let names = seq!["schema"@, "files"@, "launch"@, "save"@, "cloud"@];
            forall|i: int, j: int| 0 <= i < j < 5 ==> #[trigger] names[i] != #[trigger] names[j]
        }),
        "result"@ != "when"@,
        "result"@ != "by_tool"@,
        "when"@ != "by_tool"@,
{
    reveal_strlit("schema");
    reveal_strlit("files");
    reveal_strlit("launch");
    reveal_strlit("save");
    reveal_strlit("cloud");
    reveal_strlit("result");
    reveal_strlit("when");
    reveal_strlit("by_tool");
    assert("schema"@.len() == 6 && "files"@.len() == 5 && "launch"@.len() == 6 && "save"@.len() == 4
        && "cloud"@.len() == 5);
    assert("schema"@[0] != "launch"@[0]);
    assert("files"@[0] != "cloud"@[0]);
    assert("result"@.len() == 6 && "when"@.len() == 4 && "by_tool"@.len() == 7);
}

/// An answer that was recorded is the one that is read, and no other answer is touched.
pub proof fn law_recorded_answer_is_kept(evidence: Evidence, field: Seq<char>, other: Seq<char>, row: Row)
    requires
        is_field(field),
        is_field(other),
        field != other,
    ensures
        evidence.with_row(field, row).row(field) == row,
        evidence.with_row(field, row).row(other) == evidence.row(other),
{
    lemma_field_names();
    let names = seq!["schema"@, "files"@, "launch"@, "save"@, "cloud"@];
    assert(names[1] != names[2] && names[1] != names[3] && names[1] != names[4] && names[2] != names[3]
        && names[2] != names[4] && names[3] != names[4]);
}

/// When the data moves, every answer about the games is open again, and what was found of the files
/// stays.
pub proof fn law_moving_opens_the_questions(evidence: Evidence, when: u64)
    ensures
        evidence.invalidated(when).launch.result == Result_::NotChecked,
        evidence.invalidated(when).save.result == Result_::NotChecked,
        evidence.invalidated(when).cloud.result == Result_::NotChecked,
        evidence.invalidated(when).files == evidence.files,
{
}

proof fn lemma_row_keys(row: Row)
    ensures
        keys_differ(row_doc(row)->Table_1),
{
    lemma_field_names();
}

proof fn lemma_evidence_keys(evidence: Evidence)
    ensures
        keys_differ(evidence_doc(evidence)->Table_1),
{
    lemma_field_names();
    let names = seq!["schema"@, "files"@, "launch"@, "save"@, "cloud"@];
    let pairs = evidence_doc(evidence)->Table_1;
    assert forall|i: int, j: int| 0 <= i < j < pairs.len() implies (#[trigger] pairs[i]).0 != (
    #[trigger] pairs[j]).0 by {
        assert(pairs[i].0 == names[i] && pairs[j].0 == names[j]);
    }
}

proof fn lemma_row_is_json(row: Row, depth: nat)
    requires
        depth > 0,
    ensures
        is_json(row_doc(row), depth),
{
    lemma_gaps();
    lemma_row_keys(row);
    lemma_table_is_json(row_gaps(), row_doc(row)->Table_1, depth);
}

proof fn lemma_evidence_is_json(evidence: Evidence)
    ensures
        is_json(evidence_doc(evidence), 100),
{
    lemma_gaps();
    lemma_evidence_keys(evidence);
    lemma_row_is_json(evidence.files, 99);
    lemma_row_is_json(evidence.launch, 99);
    lemma_row_is_json(evidence.save, 99);
    lemma_row_is_json(evidence.cloud, 99);
    lemma_table_is_json(page_gaps(), evidence_doc(evidence)->Table_1, 100);
}

/// What a row says does not hang on the order in which it is said.
proof fn lemma_same_row(value: JsonView, wanted: JsonView, field: Seq<char>)
    requires
        agrees(value, wanted),
    ensures
        row_of(value.at(field)) == row_of(wanted.at(field)),
{
    law_order_of_pairs_does_not_matter(value, wanted, field);
    if wanted.at(field) is Some {
        let here = value.at(field)->0;
        let there = wanted.at(field)->0;
        law_order_of_pairs_does_not_matter(here, there, "result"@);
        law_order_of_pairs_does_not_matter(here, there, "when"@);
        law_order_of_pairs_does_not_matter(here, there, "by_tool"@);
    }
}

proof fn lemma_same_evidence(value: JsonView, wanted: JsonView)
    requires
        agrees(value, wanted),
    ensures
        evidence_of(value) == evidence_of(wanted),
{
    lemma_same_row(value, wanted, "files"@);
    lemma_same_row(value, wanted, "launch"@);
    lemma_same_row(value, wanted, "save"@);
    lemma_same_row(value, wanted, "cloud"@);
}

proof fn lemma_row_reads_back(row: Row)
    ensures
        row_of(Some(doc_value(row_doc(row)))) == row,
{
    lemma_row_keys(row);
    law_result_reads_back(row.result);
    let pairs = row_doc(row)->Table_1;
    lemma_member(row_gaps(), pairs, 0);
    lemma_member(row_gaps(), pairs, 1);
    lemma_member(row_gaps(), pairs, 2);
}

/// What evidence says when written down is read as the evidence.
pub proof fn law_evidence_reads_back(evidence: Evidence)
    ensures
        evidence_of(doc_value(evidence_doc(evidence))) == evidence,
{
    lemma_evidence_keys(evidence);
    lemma_row_reads_back(evidence.files);
    lemma_row_reads_back(evidence.launch);
    lemma_row_reads_back(evidence.save);
    lemma_row_reads_back(evidence.cloud);
    let pairs = evidence_doc(evidence)->Table_1;
    lemma_member(page_gaps(), pairs, 1);
    lemma_member(page_gaps(), pairs, 2);
    lemma_member(page_gaps(), pairs, 3);
    lemma_member(page_gaps(), pairs, 4);
}

/// What is established of one thing, and by whom.
pub open spec fn row_line(field: Seq<char>, row: Row) -> Seq<char> {
    let said = "  "@ + field_text(field) + ": "@ + result_label(row.result);
    if row.result == Result_::NotChecked {
        said
    } else if row.by_tool {
        said + ", checked by LibraryBridge"@
    } else {
        said + ", reported by you"@
    }
}

/// What is established about a library, line by line.
pub open spec fn evidence_lines(evidence: Evidence) -> Seq<Seq<char>> {
    seq![
        row_line("files"@, evidence.files),
        row_line("launch"@, evidence.launch),
        row_line("save"@, evidence.save),
        row_line("cloud"@, evidence.cloud),
    ]
}

fn write_line(field: &str, row: Row) -> (text: String)
    ensures
        text@ == row_line(field@, row),
{
    let mut text = "  ".to_string();
    text.push_str(describe(field));
    text.push_str(": ");
    text.push_str(row.result.label());
    if row.result == Result_::NotChecked {
        text
    } else if row.by_tool {
        text.push_str(", checked by LibraryBridge");
        text
    } else {
        text.push_str(", reported by you");
        text
    }
}

impl Evidence {
    /// What is established, line by line.
    pub fn lines(&self) -> (lines: Vec<String>)
        ensures
            texts(lines@) == evidence_lines(*self),
    {
        let mut lines: Vec<String> = Vec::new();
        lines.push(write_line("files", self.files));
        lines.push(write_line("launch", self.launch));
        lines.push(write_line("save", self.save));
        lines.push(write_line("cloud", self.cloud));
        assert(texts(lines@) =~= evidence_lines(*self));
        lines
    }

    /// What is established, as a document for other programs.
    pub fn json(&self, library_id: &str) -> (text: String)
        ensures
            text@ == evidence_json(library_id@, *self),
    {
        let items: Vec<Node> = vec![
            item_node("files", self.files),
            item_node("launch", self.launch),
            item_node("save", self.save),
            item_node("cloud", self.cloud),
        ];
        assert(nodes_model(items@) =~= evidence_items(*self));
        let pairs: Vec<(String, Node)> = vec![
            ("schema".to_string(), Node::Number(1)),
            ("library_id".to_string(), Node::Text(library_id.to_string())),
            ("evidence".to_string(), Node::List(document::block(), items)),
        ];
        assert(members_model(pairs@) =~= evidence_listing(library_id@, *self)->Table_1);
        Node::Table(document::page(), pairs).document()
    }
}

/// A row as other programs are told of it.
pub open spec fn item_doc(field: Seq<char>, row: Row) -> Doc {
    Doc::Table(
        row_gaps(),
        seq![
            ("field"@, Doc::Text(field)),
            ("result"@, Doc::Text(result_code(row.result))),
            ("when"@, Doc::Number(row.when)),
            ("by_tool"@, Doc::Bool(row.by_tool)),
        ],
    )
}

pub open spec fn evidence_items(evidence: Evidence) -> Seq<Doc> {
    seq![
        item_doc("files"@, evidence.files),
        item_doc("launch"@, evidence.launch),
        item_doc("save"@, evidence.save),
        item_doc("cloud"@, evidence.cloud),
    ]
}

pub open spec fn evidence_listing(library_id: Seq<char>, evidence: Evidence) -> Doc {
    Doc::Table(
        page_gaps(),
        seq![
            ("schema"@, Doc::Number(1)),
            ("library_id"@, Doc::Text(library_id)),
            ("evidence"@, Doc::List(block_gaps(), evidence_items(evidence))),
        ],
    )
}

pub open spec fn evidence_json(library_id: Seq<char>, evidence: Evidence) -> Seq<char> {
    written(evidence_listing(library_id, evidence))
}

fn item_node(field: &str, row: Row) -> (node: Node)
    ensures
        node.model() == item_doc(field@, row),
{
    let pairs: Vec<(String, Node)> = vec![
        ("field".to_string(), Node::Text(field.to_string())),
        ("result".to_string(), Node::Text(row.result.code().to_string())),
        ("when".to_string(), Node::Number(row.when)),
        ("by_tool".to_string(), Node::Bool(row.by_tool)),
    ];
    assert(members_model(pairs@) =~= item_doc(field@, row)->Table_1);
    Node::Table(document::row(), pairs)
}

/// An answer as it is given: the name of a thing, `=`, and what became of it.
pub open spec fn answer_of(text: Seq<char>) -> Result<(Seq<char>, Result_), Seq<char>> {
    let pieces = split(text, '=');
    if pieces.len() != 2 {
        Err("'"@ + text + "' is not an answer. Give a field and an answer, for example launch=yes"@)
    } else {
        match result_of(pieces[1]) {
            Some(result) => Ok((pieces[0], result)),
            None => Err("'"@ + pieces[1] + "' is not an answer. Say yes, no or na"@),
        }
    }
}

/// Reads an answer as it is given. Nonsense is refused rather than stored.
pub fn parse_answer(text: &str) -> (answer: Result<(String, Result_), String>)
    ensures
        match answer_of(text@) {
            Ok((field, result)) => answer matches Ok(given) && given.0@ == field && given.1 == result,
            Err(words) => answer is Err && answer->Err_0@ == words,
        },
{
    let pieces = split_at_char(text, '=');
    let ghost all = split(text@, '=');
    if pieces.len() != 2 {
        let mut words = "'".to_string();
        words.push_str(text);
        words.push_str("' is not an answer. Give a field and an answer, for example launch=yes");
        return Err(words);
    }
    assert(pieces@[0]@ == all[0]);
    assert(pieces@[1]@ == all[1]);
    match Result_::parse(pieces[1].as_str()) {
        Some(result) => Ok((pieces[0].clone(), result)),
        None => {
            let mut words = "'".to_string();
            words.push_str(pieces[1].as_str());
            words.push_str("' is not an answer. Say yes, no or na");
            Err(words)
        },
    }
}

} // verus!
