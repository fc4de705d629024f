//! A durable note of an operation in progress.
//!
//! Disk evidence stays authoritative: a record never permits an overwrite and never proves on its own
//! that a copy is good. What it does is let recovery skip re-reading two whole trees when it can show the
//! copy it is about to adopt is the one this tool verified.
//!
//! Written before the first mutation, updated at each durable transition, and removed when the operation
//! completes. A record left behind is a report that something stopped, not an instruction.

use vstd::prelude::*;
use vstd::utf8::{encode_utf8, valid_utf8};

use crate::document::{
    agrees, doc_value, is_json, keys_differ, law_order_of_pairs_does_not_matter, lemma_gaps, lemma_member,
    lemma_table_is_json, members_model, page, page_gaps, written, Doc, Node,
};
use crate::json::{json_document, parse, Json, JsonView};
use crate::path::{shown, under_text, FilePath};
use crate::text::{law_utf8_is_kept, same};

verus! {

#[derive(Debug, Clone, Copy, PartialEq, Eq, Structural)]
pub enum Stage {
    /// The copy exists and every file was checked against the source.
    Verified,
    /// The copy has been renamed onto its final destination.
    Published,
    /// The original has been renamed aside to the backup.
    BackedUp,
}

pub open spec fn stage_label(stage: Stage) -> Seq<char> {
    match stage {
        Stage::Verified => "verified"@,
        Stage::Published => "published"@,
        Stage::BackedUp => "backed_up"@,
    }
}

pub open spec fn stage_of(text: Seq<char>) -> Option<Stage> {
    if text == "verified"@ {
        Some(Stage::Verified)
    } else if text == "published"@ {
        Some(Stage::Published)
    } else if text == "backed_up"@ {
        Some(Stage::BackedUp)
    } else {
        None
    }
}

impl Stage {
    pub fn label(self) -> (label: &'static str)
        ensures
            label@ == stage_label(self),
    {
        match self {
            Stage::Verified => "verified",
            Stage::Published => "published",
            Stage::BackedUp => "backed_up",
        }
    }

    pub fn parse(text: &str) -> (stage: Option<Stage>)
        ensures
            stage == stage_of(text@),
    {
        if same(text, "verified") {
            Some(Stage::Verified)
        } else if same(text, "published") {
            Some(Stage::Published)
        } else if same(text, "backed_up") {
            Some(Stage::BackedUp)
        } else {
            None
        }
    }
}

/// The label of a stage is read as that stage.
pub proof fn law_stage_reads_back(stage: Stage)
    ensures
        stage_of(stage_label(stage)) == Some(stage),
{
    reveal_strlit("verified");
    reveal_strlit("published");
    reveal_strlit("backed_up");
    assert("verified"@.len() == 8);
    assert("published"@.len() == 9);
    assert("published"@[0] != "backed_up"@[0]);
}

#[derive(Debug)]
pub struct Record {
    pub library_id: String,
    pub source: FilePath,
    pub destination: FilePath,
    pub backup: FilePath,
    /// Digest of the manifest that was verified, so the destination can be recognised later without
    /// reading the source again.
    pub digest: String,
    pub stage: Stage,
}

pub struct RecordView {
    pub library_id: Seq<char>,
    pub source: Seq<u8>,
    pub destination: Seq<u8>,
    pub backup: Seq<u8>,
    pub digest: Seq<char>,
    pub stage: Stage,
}

impl View for Record {
    type V = RecordView;

    open spec fn view(&self) -> RecordView {
        RecordView {
            library_id: self.library_id@,
            source: self.source@,
            destination: self.destination@,
            backup: self.backup@,
            digest: self.digest@,
            stage: self.stage,
        }
    }
}

/// The file a library's record is in, among the tool's own files.
pub fn path_for(app_data: &FilePath, library_id: &str) -> (path: FilePath)
    ensures
        path@ == under_text(under_text(app_data@, "operations"@), library_id@ + ".json"@),
{
    let mut name = library_id.to_string();
    name.push_str(".json");
    app_data.join_text("operations").join_text(name.as_str())
}

/// A record as a document.
pub open spec fn record_doc(record: RecordView) -> Doc {
    Doc::Table(
        page_gaps(),
        seq![
            ("schema"@, Doc::Number(1)),
            ("library_id"@, Doc::Text(record.library_id)),
            ("source"@, Doc::Text(shown(record.source))),
            ("destination"@, Doc::Text(shown(record.destination))),
            ("backup"@, Doc::Text(shown(record.backup))),
            ("digest"@, Doc::Text(record.digest)),
            ("stage"@, Doc::Text(stage_label(record.stage))),
        ],
    )
}

/// A record as it is written down.
pub open spec fn record_text(record: RecordView) -> Seq<char> {
    written(record_doc(record))
}

/// What a written record keeps of a record: its paths as the text they are shown as.
pub open spec fn kept(record: RecordView) -> RecordView {
    RecordView {
        source: encode_utf8(shown(record.source)),
        destination: encode_utf8(shown(record.destination)),
        backup: encode_utf8(shown(record.backup)),
        ..record
    }
}

/// The record that a JSON value is, if it is one.
pub open spec fn record_of(value: JsonView) -> Option<RecordView> {
    if value.count_at("schema"@) != Some(1u64) {
        None
    } else {
        match (
            value.text_at("library_id"@),
            value.text_at("source"@),
            value.text_at("destination"@),
            value.text_at("backup"@),
            value.text_at("digest"@),
            value.text_at("stage"@),
        ) {
            (
                Some(library_id),
                Some(source),
                Some(destination),
                Some(backup),
                Some(digest),
                Some(stage),
            ) => match stage_of(stage) {
                Some(stage) => Some(
                    RecordView {
                        library_id,
                        source: encode_utf8(source),
                        destination: encode_utf8(destination),
                        backup: encode_utf8(backup),
                        digest,
                        stage,
                    },
                ),
                None => None,
            },
            _ => None,
        }
    }
}

impl Record {
    /// The record as it is to be written down.
    pub fn document(&self) -> (text: String)
        ensures
            text@ == record_text(self@),
    {
        let pairs: Vec<(String, Node)> = vec![
            ("schema".to_string(), Node::Number(1)),
            ("library_id".to_string(), Node::Text(self.library_id.clone())),
            ("source".to_string(), Node::Text(self.source.display())),
            ("destination".to_string(), Node::Text(self.destination.display())),
            ("backup".to_string(), Node::Text(self.backup.display())),
            ("digest".to_string(), Node::Text(self.digest.clone())),
            ("stage".to_string(), Node::Text(self.stage.label().to_string())),
        ];
        assert(members_model(pairs@) =~= record_doc(self@)->Table_1);
        Node::Table(page(), pairs).document()
    }

    /// Moves the operation on to a stage, and gives the record as it is then to be written down.
    pub fn advance(&mut self, stage: Stage) -> (text: String)
        ensures
            final(self)@ == (RecordView { stage, ..old(self)@ }),
            text@ == record_text(final(self)@),
    {
        self.stage = stage;
        self.document()
    }

    /// The record that a JSON value is.
    pub fn from_json(value: &Json) -> (record: Option<Record>)
        ensures
            record is Some <==> record_of(value.model()) is Some,
            record matches Some(record) ==> Some(record@) == record_of(value.model()),
    {
        match value.count("schema") {
            Some(1) => {},
            _ => return None,
        }
        match (
            value.string("library_id"),
            value.string("source"),
            value.string("destination"),
            value.string("backup"),
            value.string("digest"),
            value.string("stage"),
        ) {
            (
                Some(library_id),
                Some(source),
                Some(destination),
                Some(backup),
                Some(digest),
                Some(stage),
            ) => match Stage::parse(stage.as_str()) {
                Some(stage) => Some(
                    Record {
                        library_id,
                        source: FilePath::new(source.as_str()),
                        destination: FilePath::new(destination.as_str()),
                        backup: FilePath::new(backup.as_str()),
                        digest,
                        stage,
                    },
                ),
                None => None,
            },
            _ => None,
        }
    }

    /// The record that a file holds. A file that cannot be read as one holds none; one that a record was
    /// written into holds that record.
    pub fn load(text: &str) -> (record: Option<Record>)
        ensures
            match json_document(text@) {
                Ok(value) => {
                    &&& record is Some <==> record_of(value) is Some
                    &&& record matches Some(record) ==> Some(record@) == record_of(value)
                },
                Err(_) => record is None,
            },
            forall|saved: RecordView|
                text@ == #[trigger] record_text(saved) ==> record is Some && record->0@ == kept(saved),
    {
        match parse(text) {
            Ok(value) => {
                proof {
                    assert forall|saved: RecordView| text@ == #[trigger] record_text(saved) implies record_of(
                        value.model(),
                    ) == Some(kept(saved)) by {
                        lemma_record_is_json(saved);
                        lemma_same_record(value.model(), doc_value(record_doc(saved)));
                        law_record_reads_back(saved);
                    }
                }
                Record::from_json(&value)
            },
            Err(_) => {
                proof {
                    assert forall|saved: RecordView| text@ == #[trigger] record_text(saved) implies false by {
                        lemma_record_is_json(saved);
                    }
                }
                None
            },
        }
    }
}

proof fn lemma_record_is_json(record: RecordView)
    ensures
        is_json(record_doc(record), 100),
{
    lemma_record_keys(record);
    lemma_gaps();
    lemma_table_is_json(page_gaps(), record_doc(record)->Table_1, 100);
}

/// What a record says does not hang on the order in which it is said.
proof fn lemma_same_record(value: JsonView, wanted: JsonView)
    requires
        agrees(value, wanted),
    ensures
        record_of(value) == record_of(wanted),
{
    law_order_of_pairs_does_not_matter(value, wanted, "schema"@);
    law_order_of_pairs_does_not_matter(value, wanted, "library_id"@);
    law_order_of_pairs_does_not_matter(value, wanted, "source"@);
    law_order_of_pairs_does_not_matter(value, wanted, "destination"@);
    law_order_of_pairs_does_not_matter(value, wanted, "backup"@);
    law_order_of_pairs_does_not_matter(value, wanted, "digest"@);
    law_order_of_pairs_does_not_matter(value, wanted, "stage"@);
}

proof fn lemma_record_keys(record: RecordView)
    ensures
        keys_differ(record_doc(record)->Table_1),
{
    reveal_strlit("schema");
    reveal_strlit("library_id");
    reveal_strlit("source");
    reveal_strlit("destination");
    reveal_strlit("backup");
    reveal_strlit("digest");
    reveal_strlit("stage");
    assert("schema"@.len() == 6 && "library_id"@.len() == 10 && "source"@.len() == 6
        && "destination"@.len() == 11 && "backup"@.len() == 6 && "digest"@.len() == 6
        && "stage"@.len() == 5);
    assert("schema"@[1] == 'c' && "source"@[1] == 'o' && "backup"@[1] == 'a' && "digest"@[1] == 'i');
}

/// What a record says when written down is read as the record, its paths as the text they are shown as.
pub proof fn law_record_reads_back(record: RecordView)
    ensures
        record_of(doc_value(record_doc(record))) == Some(kept(record)),
{
    lemma_record_keys(record);
    law_stage_reads_back(record.stage);
    let gaps = page_gaps();
    let pairs = record_doc(record)->Table_1;
    lemma_member(gaps, pairs, 0);
    lemma_member(gaps, pairs, 1);
    lemma_member(gaps, pairs, 2);
    lemma_member(gaps, pairs, 3);
    lemma_member(gaps, pairs, 4);
    lemma_member(gaps, pairs, 5);
    lemma_member(gaps, pairs, 6);
}

/// A record of paths that are UTF-8 is read back as it was written.
pub proof fn law_readable_record_is_kept(record: RecordView)
    requires
        valid_utf8(record.source),
        valid_utf8(record.destination),
        valid_utf8(record.backup),
    ensures
        kept(record) == record,
{
    law_utf8_is_kept(record.source, Seq::empty());
    law_utf8_is_kept(record.destination, Seq::empty());
    law_utf8_is_kept(record.backup, Seq::empty());
}

} // verus!
