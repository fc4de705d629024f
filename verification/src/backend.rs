//! What the window asks of the command line tool, and what it reads out of the answers.
//!
//! The window deliberately holds no repair or discovery logic of its own. It runs the command line tool and
//! renders the result, so the two can never disagree about what is about to happen.

use vstd::prelude::*;

use crate::commands::{scan_doc, scan_document, storage_doc, storage_document, ListedView};
use crate::document::doc_value;
use crate::evidence::{evidence_json, evidence_listing, Evidence};
use crate::exchange::{
    law_listed_evidence_reads_back, law_plan_reads_back, law_scan_reads_back, law_storage_reads_back,
    lemma_listing_is_json, lemma_plan_is_json, lemma_same_evidence, lemma_same_plan, lemma_same_scan,
    lemma_same_storage, lemma_scan_is_json, lemma_storage_is_json, seen_evidence, seen_plan, seen_scan, seen_storage,
};
use crate::fsops::size_text;
use crate::json::{json_document, list_model, parse, Json, JsonView};
use crate::path::{shown, FilePath};
use crate::plan::{plan_doc, plan_document};
use crate::state::StateView;
use crate::text::{
    add_text, decimal, decimal_text, same, starts_with, texts, trim, trimmed,
};

verus! {

#[derive(Debug)]
pub struct Library {
    pub id: String,
    pub path: String,
    pub name: String,
    pub steam: String,
    pub filesystem: String,
    pub state: String,
    pub target: String,
    pub connected: bool,
    pub backups: Vec<String>,
    /// Whether a repair applies, decided by the tool rather than guessed here from the shape of the state.
    pub eligible: bool,
    pub blocking_reason: String,
    /// Data already at the destination while this library is not repaired, which is a choice for the user,
    /// not something to resolve silently.
    pub destination_occupied: String,
}

pub struct LibraryView {
    pub id: Seq<char>,
    pub path: Seq<char>,
    pub name: Seq<char>,
    pub steam: Seq<char>,
    pub filesystem: Seq<char>,
    pub state: Seq<char>,
    pub target: Seq<char>,
    pub connected: bool,
    pub backups: Seq<Seq<char>>,
    pub eligible: bool,
    pub blocking_reason: Seq<char>,
    pub destination_occupied: Seq<char>,
}

impl View for Library {
    type V = LibraryView;

    open spec fn view(&self) -> LibraryView {
        LibraryView {
            id: self.id@,
            path: self.path@,
            name: self.name@,
            steam: self.steam@,
            filesystem: self.filesystem@,
            state: self.state@,
            target: self.target@,
            connected: self.connected,
            backups: texts(self.backups@),
            eligible: self.eligible,
            blocking_reason: self.blocking_reason@,
            destination_occupied: self.destination_occupied@,
        }
    }
}

pub open spec fn libraries_view(list: Seq<Library>) -> Seq<LibraryView> {
    Seq::new(list.len(), |i: int| list[i]@)
}

/// The plain-language version of a state code.
pub open spec fn headline_of(state: Seq<char>) -> Seq<char> {
    if state == "repair_available"@ {
        "Repair available"@
    } else if state == "repaired"@ {
        "Repaired"@
    } else if state == "no_compatdata"@ {
        "No Proton data yet"@
    } else if state == "disconnected"@ {
        "Drive not connected"@
    } else if state == "interrupted"@ {
        "Interrupted, needs finishing"@
    } else if state == "dangling_link"@ {
        "Link is broken"@
    } else if state == "linked_elsewhere"@ {
        "Already linked elsewhere"@
    } else {
        "Needs attention"@
    }
}

impl Library {
    /// The plain-language version of the state code, matching the words the command line tool prints.
    pub fn headline(&self) -> (text: &'static str)
        ensures
            text@ == headline_of(self.state@),
    {
        let state = self.state.as_str();
        if same(state, "repair_available") {
            "Repair available"
        } else if same(state, "repaired") {
            "Repaired"
        } else if same(state, "no_compatdata") {
            "No Proton data yet"
        } else if same(state, "disconnected") {
            "Drive not connected"
        } else if same(state, "interrupted") {
            "Interrupted, needs finishing"
        } else if same(state, "dangling_link") {
            "Link is broken"
        } else if same(state, "linked_elsewhere") {
            "Already linked elsewhere"
        } else {
            "Needs attention"
        }
    }
}

/// The window says of a state what the command line tool says of it.
pub proof fn law_window_and_tool_use_the_same_words(state: StateView)
    ensures
        headline_of(state.code()) == state.headline(),
{
    reveal_strlit("repair_available");
    reveal_strlit("repaired");
    reveal_strlit("no_compatdata");
    reveal_strlit("disconnected");
    reveal_strlit("interrupted");
    reveal_strlit("dangling_link");
    reveal_strlit("linked_elsewhere");
    reveal_strlit("unusable");
    assert("repair_available"@.len() == 16 && "repaired"@.len() == 8 && "no_compatdata"@.len() == 13
        && "disconnected"@.len() == 12 && "interrupted"@.len() == 11 && "dangling_link"@.len() == 13
        && "linked_elsewhere"@.len() == 16 && "unusable"@.len() == 8);
    assert("repair_available"@[0] != "linked_elsewhere"@[0]);
    assert("repaired"@[0] != "unusable"@[0]);
    assert("no_compatdata"@[0] != "dangling_link"@[0]);
}

#[derive(Debug)]
pub struct Candidate {
    pub id: String,
    pub name: String,
    pub runner: String,
    pub source: String,
    pub exe: String,
    pub appid: String,
    pub prefix: String,
    pub working_dir: String,
    pub confidence: String,
    pub in_lutris: bool,
    /// Whether the tool would actually import this. Detection and eligibility are different questions and
    /// the window has to show both.
    pub eligible: bool,
    pub blocking_reason: String,
    pub filesystem_warning: String,
    pub alternatives: Vec<String>,
    pub reasons: Vec<String>,
}

pub struct CandidateView {
    pub id: Seq<char>,
    pub name: Seq<char>,
    pub runner: Seq<char>,
    pub source: Seq<char>,
    pub exe: Seq<char>,
    pub appid: Seq<char>,
    pub prefix: Seq<char>,
    pub working_dir: Seq<char>,
    pub confidence: Seq<char>,
    pub in_lutris: bool,
    pub eligible: bool,
    pub blocking_reason: Seq<char>,
    pub filesystem_warning: Seq<char>,
    pub alternatives: Seq<Seq<char>>,
    pub reasons: Seq<Seq<char>>,
}

impl View for Candidate {
    type V = CandidateView;

    open spec fn view(&self) -> CandidateView {
        CandidateView {
            id: self.id@,
            name: self.name@,
            runner: self.runner@,
            source: self.source@,
            exe: self.exe@,
            appid: self.appid@,
            prefix: self.prefix@,
            working_dir: self.working_dir@,
            confidence: self.confidence@,
            in_lutris: self.in_lutris,
            eligible: self.eligible,
            blocking_reason: self.blocking_reason@,
            filesystem_warning: self.filesystem_warning@,
            alternatives: texts(self.alternatives@),
            reasons: texts(self.reasons@),
        }
    }
}

pub open spec fn candidates_view(list: Seq<Candidate>) -> Seq<CandidateView> {
    Seq::new(list.len(), |i: int| list[i]@)
}

/// The text under a key, or nothing.
pub open spec fn text_or_none(value: JsonView, key: Seq<char>) -> Seq<char> {
    match value.text_at(key) {
        Some(text) => text,
        None => ""@,
    }
}

pub open spec fn flag_or(value: JsonView, key: Seq<char>, other: bool) -> bool {
    match value.flag_at(key) {
        Some(flag) => flag,
        None => other,
    }
}

pub open spec fn count_or_zero(value: JsonView, key: Seq<char>) -> u64 {
    match value.count_at(key) {
        Some(count) => count,
        None => 0,
    }
}

/// The texts among the items.
pub open spec fn texts_among(items: Seq<JsonView>) -> Seq<Seq<char>>
    decreases items.len(),
{
    if items.len() == 0 {
        Seq::empty()
    } else {
        let before = texts_among(items.drop_last());
        match items.last().text() {
            Some(text) => before.push(text),
            None => before,
        }
    }
}

pub open spec fn texts_at(value: JsonView, key: Seq<char>) -> Seq<Seq<char>> {
    texts_among(value.items_at(key))
}

fn text(value: &Json, key: &str) -> (found: String)
    ensures
        found@ == text_or_none(value.model(), key@),
{
    match value.string(key) {
        Some(found) => found,
        None => "".to_string(),
    }
}

fn flag(value: &Json, key: &str, other: bool) -> (found: bool)
    ensures
        found == flag_or(value.model(), key@, other),
{
    match value.flag(key) {
        Some(found) => found,
        None => other,
    }
}

fn count(value: &Json, key: &str) -> (found: u64)
    ensures
        found == count_or_zero(value.model(), key@),
{
    match value.count(key) {
        Some(found) => found,
        None => 0,
    }
}

fn strings(value: &Json, key: &str) -> (found: Vec<String>)
    ensures
        texts(found@) == texts_at(value.model(), key@),
{
    let items = value.as_array(key);
    let ghost all = list_model(items@);
    let mut found: Vec<String> = Vec::new();
    let mut i: usize = 0;
    assert(texts(found@) =~= texts_among(all.take(0)));
    while i < items.len()
        invariant
            i <= items.len(),
            all == list_model(items@),
            texts(found@) == texts_among(all.take(i as int)),
        decreases items.len() - i,
    {
        assert(all.take(i + 1).drop_last() =~= all.take(i as int));
        assert(all.take(i + 1).last() == items@[i as int].model());
        if let Some(inner) = items[i].as_str() {
            add_text(&mut found, inner.to_string());
        }
        i = i + 1;
    }
    assert(all.take(i as int) =~= all);
    found
}

/// What a run of the tool comes to: its output, or what it said went wrong, which is already written for a
/// person to read.
pub fn run_result(success: bool, stdout: String, stderr: &str) -> (result: Result<String, String>)
    ensures
        success <==> result is Ok,
        success ==> result->Ok_0@ == stdout@,
        !success ==> result->Err_0@ == if trimmed(stderr@).len() == 0 {
            stdout@
        } else {
            trimmed(stderr@)
        },
{
    if success {
        return Ok(stdout);
    }
    let said = trim(stderr);
    if said.as_str().unicode_len() == 0 {
        Err(stdout)
    } else {
        Err(said)
    }
}

/// A scan result, warnings included.
#[derive(Debug)]
pub struct Scan {
    pub libraries: Vec<Library>,
    pub warnings: Vec<String>,
    /// False when the scan could not read everything. An empty list and an unreadable one must not look the
    /// same.
    pub complete: bool,
}

pub struct ScanView {
    pub libraries: Seq<LibraryView>,
    pub warnings: Seq<Seq<char>>,
    pub complete: bool,
}

impl View for Scan {
    type V = ScanView;

    open spec fn view(&self) -> ScanView {
        ScanView {
            libraries: libraries_view(self.libraries@),
            warnings: texts(self.warnings@),
            complete: self.complete,
        }
    }
}

/// The output schema this window knows how to read.
pub const SCHEMA: u64 = 1;

pub open spec fn library_of(row: JsonView) -> LibraryView {
    LibraryView {
        id: text_or_none(row, "id"@),
        path: text_or_none(row, "path"@),
        name: text_or_none(row, "name"@),
        steam: text_or_none(row, "steam"@),
        filesystem: text_or_none(row, "filesystem"@),
        state: text_or_none(row, "state"@),
        target: text_or_none(row, "target"@),
        connected: flag_or(row, "connected"@, false),
        backups: texts_at(row, "backups"@),
        eligible: flag_or(row, "eligible"@, false),
        blocking_reason: text_or_none(row, "blocking_reason"@),
        destination_occupied: text_or_none(row, "destination_occupied"@),
    }
}

pub open spec fn each_library(rows: Seq<JsonView>) -> Seq<LibraryView> {
    Seq::new(rows.len(), |i: int| library_of(rows[i]))
}

/// What is said when the two programs are from different builds.
pub open spec fn mismatch_text(binary: Seq<u8>, version: Option<u64>) -> Seq<char> {
    "this window reads version 1 of the command line tool's output, and "@ + shown(binary)
        + " reports version "@ + (match version {
        Some(version) => decimal_text(version as nat),
        None => "an unknown"@,
    }) + ". They are from different builds; install them together."@
}

/// The scan that a document holds, if it is one that this window can read.
pub open spec fn scan_of(value: JsonView, binary: Seq<u8>) -> Result<ScanView, Seq<char>> {
    if value.count_at("schema"@) == Some(SCHEMA) {
        Ok(
            ScanView {
                libraries: each_library(value.items_at("libraries"@)),
                warnings: texts_at(value, "warnings"@),
                complete: flag_or(value, "complete"@, true),
            },
        )
    } else {
        Err(mismatch_text(binary, value.count_at("schema"@)))
    }
}

fn read_library(row: &Json) -> (library: Library)
    ensures
        library@ == library_of(row.model()),
{
    Library {
        id: text(row, "id"),
        path: text(row, "path"),
        name: text(row, "name"),
        steam: text(row, "steam"),
        filesystem: text(row, "filesystem"),
        state: text(row, "state"),
        target: text(row, "target"),
        connected: flag(row, "connected", false),
        backups: strings(row, "backups"),
        eligible: flag(row, "eligible", false),
        blocking_reason: text(row, "blocking_reason"),
        destination_occupied: text(row, "destination_occupied"),
    }
}

/// Reads a scan out of its document. Two binaries that ship together can still be mismatched by a partial
/// install; that is said plainly.
pub fn read_scan(value: &Json, binary: &FilePath) -> (scan: Result<Scan, String>)
    ensures
        match scan_of(value.model(), binary@) {
            Ok(wanted) => scan is Ok && scan->Ok_0@ == wanted,
            Err(words) => scan is Err && scan->Err_0@ == words,
        },
{
    let version = value.count("schema");
    let fits = match version {
        Some(version) => version == SCHEMA,
        None => false,
    };
    if !fits {
        let mut words =
            "this window reads version 1 of the command line tool's output, and ".to_string();
        words.push_str(binary.display().as_str());
        words.push_str(" reports version ");
        match version {
            Some(version) => words.push_str(decimal(version).as_str()),
            None => words.push_str("an unknown"),
        }
        words.push_str(". They are from different builds; install them together.");
        return Err(words);
    }
    let rows = value.as_array("libraries");
    let ghost all = list_model(rows@);
    let mut libraries: Vec<Library> = Vec::new();
    let mut i: usize = 0;
    while i < rows.len()
        invariant
            i <= rows.len(),
            all == list_model(rows@),
            libraries@.len() == i,
            forall|k: int| 0 <= k < i ==> (#[trigger] libraries@[k])@ == library_of(all[k]),
        decreases rows.len() - i,
    {
        assert(all[i as int] == rows@[i as int].model());
        libraries.push(read_library(&rows[i]));
        i = i + 1;
    }
    assert(libraries_view(libraries@) =~= each_library(all));
    Ok(
        Scan {
            libraries,
            warnings: strings(value, "warnings"),
            complete: flag(value, "complete", true),
        },
    )
}

/// The libraries, out of what `scan --json` printed.
pub fn libraries(output: &str, binary: &FilePath) -> (scan: Result<Scan, String>)
    ensures
        match json_document(output@) {
            Ok(value) => match scan_of(value, binary@) {
                Ok(wanted) => scan is Ok && scan->Ok_0@ == wanted,
                Err(words) => scan is Err && scan->Err_0@ == words,
            },
            Err(words) => scan is Err && scan->Err_0@ == words,
        },
        forall|rows: Seq<ListedView>, warnings: Seq<Seq<char>>, version: Seq<char>|
            output@ == #[trigger] scan_document(rows, warnings, version) ==> scan is Ok && scan->Ok_0@
                == seen_scan(rows, warnings),
{
    let read = parse(output);
    proof {
        assert forall|rows: Seq<ListedView>, warnings: Seq<Seq<char>>, version: Seq<char>|
            output@ == #[trigger] scan_document(rows, warnings, version) implies read is Ok && scan_of(
            read->Ok_0.model(),
            binary@,
        ) == Ok::<ScanView, Seq<char>>(seen_scan(rows, warnings)) by {
            lemma_scan_is_json(rows, warnings, version);
            lemma_same_scan(read->Ok_0.model(), doc_value(scan_doc(rows, warnings, version)), binary@);
            law_scan_reads_back(rows, warnings, version, binary@);
        }
    }
    match read {
        Ok(value) => read_scan(&value, binary),
        Err(words) => Err(words),
    }
}

/// What the tool is asked for to look for games.
pub open spec fn candidate_arguments(roots: Seq<Seq<char>>, include_known: bool) -> Seq<Seq<char>>
    decreases roots.len(),
{
    if roots.len() == 0 {
        if include_known {
            seq!["lutris"@, "scan"@, "--json"@, "--all"@]
        } else {
            seq!["lutris"@, "scan"@, "--json"@]
        }
    } else {
        candidate_arguments(roots.drop_last(), include_known).push("--root"@).push(roots.last())
    }
}

pub fn arguments_for_candidates(roots: &Vec<String>, include_known: bool) -> (arguments: Vec<String>)
    ensures
        texts(arguments@) == candidate_arguments(texts(roots@), include_known),
{
    let ghost all = texts(roots@);
    let mut arguments: Vec<String> = Vec::new();
    arguments.push("lutris".to_string());
    arguments.push("scan".to_string());
    arguments.push("--json".to_string());
    if include_known {
        arguments.push("--all".to_string());
    }
    let mut i: usize = 0;
    assert(texts(arguments@) =~= candidate_arguments(all.take(0), include_known));
    while i < roots.len()
        invariant
            i <= roots.len(),
            all == texts(roots@),
            texts(arguments@) == candidate_arguments(all.take(i as int), include_known),
        decreases roots.len() - i,
    {
        assert(all.take(i + 1).drop_last() =~= all.take(i as int));
        assert(all.take(i + 1).last() == roots@[i as int]@);
        add_text(&mut arguments, "--root".to_string());
        add_text(&mut arguments, roots[i].clone());
        i = i + 1;
    }
    assert(all.take(i as int) =~= all);
    arguments
}

pub open spec fn candidate_of(row: JsonView) -> CandidateView {
    CandidateView {
        id: text_or_none(row, "id"@),
        name: text_or_none(row, "name"@),
        runner: text_or_none(row, "runner"@),
        source: text_or_none(row, "source"@),
        exe: text_or_none(row, "exe"@),
        appid: text_or_none(row, "appid"@),
        prefix: text_or_none(row, "prefix"@),
        working_dir: text_or_none(row, "working_dir"@),
        confidence: text_or_none(row, "confidence"@),
        in_lutris: flag_or(row, "in_lutris"@, false),
        eligible: flag_or(row, "eligible"@, true),
        blocking_reason: text_or_none(row, "blocking_reason"@),
        filesystem_warning: text_or_none(row, "filesystem_warning"@),
        alternatives: texts_at(row, "alternatives"@),
        reasons: texts_at(row, "reasons"@),
    }
}

pub open spec fn each_candidate(rows: Seq<JsonView>) -> Seq<CandidateView> {
    Seq::new(rows.len(), |i: int| candidate_of(rows[i]))
}

fn read_candidate(row: &Json) -> (candidate: Candidate)
    ensures
        candidate@ == candidate_of(row.model()),
{
    Candidate {
        id: text(row, "id"),
        name: text(row, "name"),
        runner: text(row, "runner"),
        source: text(row, "source"),
        exe: text(row, "exe"),
        appid: text(row, "appid"),
        prefix: text(row, "prefix"),
        working_dir: text(row, "working_dir"),
        confidence: text(row, "confidence"),
        in_lutris: flag(row, "in_lutris", false),
        eligible: flag(row, "eligible", true),
        blocking_reason: text(row, "blocking_reason"),
        filesystem_warning: text(row, "filesystem_warning"),
        alternatives: strings(row, "alternatives"),
        reasons: strings(row, "reasons"),
    }
}

/// Reads the games out of a document.
pub fn read_candidates(value: &Json) -> (list: Vec<Candidate>)
    ensures
        candidates_view(list@) == each_candidate(value.model().items_at("candidates"@)),
{
    let rows = value.as_array("candidates");
    let ghost all = list_model(rows@);
    let mut list: Vec<Candidate> = Vec::new();
    let mut i: usize = 0;
    while i < rows.len()
        invariant
            i <= rows.len(),
            all == list_model(rows@),
            list@.len() == i,
            forall|k: int| 0 <= k < i ==> (#[trigger] list@[k])@ == candidate_of(all[k]),
        decreases rows.len() - i,
    {
        assert(all[i as int] == rows@[i as int].model());
        list.push(read_candidate(&rows[i]));
        i = i + 1;
    }
    assert(candidates_view(list@) =~= each_candidate(all));
    list
}

/// The games, out of what `lutris scan --json` printed.
pub fn candidates(output: &str) -> (list: Result<Vec<Candidate>, String>)
    ensures
        match json_document(output@) {
            Ok(value) => list is Ok && candidates_view(list->Ok_0@) == each_candidate(
                value.items_at("candidates"@),
            ),
            Err(words) => list is Err && list->Err_0@ == words,
        },
{
    match parse(output) {
        Ok(value) => Ok(read_candidates(&value)),
        Err(words) => Err(words),
    }
}

/// What the tool is asked for to tell whether Lutris is installed.
pub fn lutris_status() -> (arguments: Vec<String>)
    ensures
        texts(arguments@) == seq!["lutris"@, "detect"@],
{
    let arguments = vec!["lutris".to_string(), "detect".to_string()];
    assert(texts(arguments@) =~= seq!["lutris"@, "detect"@]);
    arguments
}

/// A phase of a running operation, as the tool reports it.
///
/// Which phase the work is in decides whether stopping is safe, so it arrives as data rather than being
/// inferred from printed text.
#[derive(Debug, Clone, Copy, PartialEq, Eq, Structural)]
pub enum Phase {
    Preparing,
    Copying { total_bytes: u64 },
    Progress { files: u64, bytes: u64 },
    Verifying,
    Committing,
    Applied,
}

pub open spec fn phase_label(phase: Phase) -> Seq<char> {
    match phase {
        Phase::Preparing => "Checking the drive"@,
        Phase::Copying { .. } => "Copying"@,
        Phase::Progress { .. } => "Copying"@,
        Phase::Verifying => "Checking every file"@,
        Phase::Committing => "Switching over"@,
        Phase::Applied => "Finished"@,
    }
}

impl Phase {
    /// Everything before the first change to the game drive can be stopped freely: the original has not been
    /// touched.
    pub fn can_stop(&self) -> (can: bool)
        ensures
            can == !(*self is Committing || *self is Applied),
    {
        match self {
            Phase::Committing => false,
            Phase::Applied => false,
            _ => true,
        }
    }

    pub fn label(&self) -> (label: &'static str)
        ensures
            label@ == phase_label(*self),
    {
        match self {
            Phase::Preparing => "Checking the drive",
            Phase::Copying { .. } => "Copying",
            Phase::Progress { .. } => "Copying",
            Phase::Verifying => "Checking every file",
            Phase::Committing => "Switching over",
            Phase::Applied => "Finished",
        }
    }
}

/// The phase that an event reports.
pub open spec fn phase_of(value: JsonView) -> Option<Phase> {
    match value.text_at("event"@) {
        Some(event) => if event == "preparing"@ {
            Some(Phase::Preparing)
        } else if event == "copying"@ {
            Some(Phase::Copying { total_bytes: count_or_zero(value, "total_bytes"@) })
        } else if event == "progress"@ {
            Some(
                Phase::Progress {
                    files: count_or_zero(value, "files"@),
                    bytes: count_or_zero(value, "bytes"@),
                },
            )
        } else if event == "verifying"@ {
            Some(Phase::Verifying)
        } else if event == "committing"@ {
            Some(Phase::Committing)
        } else if event == "applied"@ {
            Some(Phase::Applied)
        } else {
            None
        },
        None => None,
    }
}

/// Reads the phase that an event reports.
pub fn read_event(value: &Json) -> (phase: Option<Phase>)
    ensures
        phase == phase_of(value.model()),
{
    let event = match value.string("event") {
        Some(event) => event,
        None => return None,
    };
    let event = event.as_str();
    if same(event, "preparing") {
        Some(Phase::Preparing)
    } else if same(event, "copying") {
        Some(Phase::Copying { total_bytes: count(value, "total_bytes") })
    } else if same(event, "progress") {
        Some(Phase::Progress { files: count(value, "files"), bytes: count(value, "bytes") })
    } else if same(event, "verifying") {
        Some(Phase::Verifying)
    } else if same(event, "committing") {
        Some(Phase::Committing)
    } else if same(event, "applied") {
        Some(Phase::Applied)
    } else {
        None
    }
}

/// The phase that a line of output reports; a line that is no event is shown as it is.
pub fn parse_event(line: &str) -> (phase: Option<Phase>)
    ensures
        phase == if "{\"event\""@.is_prefix_of(line@) {
            match json_document(line@) {
                Ok(value) => phase_of(value),
                Err(_) => None,
            }
        } else {
            None
        },
{
    if !starts_with(line, "{\"event\"") {
        return None;
    }
    match parse(line) {
        Ok(value) => read_event(&value),
        Err(_) => None,
    }
}

/// The reviewed plan, as the tool reports it. The window renders these fields rather than reading them back
/// out of prose.
#[derive(Debug)]
pub struct Plan {
    pub fingerprint: String,
    pub source: String,
    pub destination: String,
    pub backup: String,
    pub copy_bytes: u64,
    pub reserve_bytes: u64,
    pub available_bytes: Option<u64>,
    pub remaining_bytes: Option<u64>,
    pub installed_games: u64,
    pub prefix_folders: u64,
    pub unknown_folders: Vec<String>,
    pub consequences: Vec<String>,
}

pub struct PlanView {
    pub fingerprint: Seq<char>,
    pub source: Seq<char>,
    pub destination: Seq<char>,
    pub backup: Seq<char>,
    pub copy_bytes: u64,
    pub reserve_bytes: u64,
    pub available_bytes: Option<u64>,
    pub remaining_bytes: Option<u64>,
    pub installed_games: u64,
    pub prefix_folders: u64,
    pub unknown_folders: Seq<Seq<char>>,
    pub consequences: Seq<Seq<char>>,
}

impl View for Plan {
    type V = PlanView;

    open spec fn view(&self) -> PlanView {
        PlanView {
            fingerprint: self.fingerprint@,
            source: self.source@,
            destination: self.destination@,
            backup: self.backup@,
            copy_bytes: self.copy_bytes,
            reserve_bytes: self.reserve_bytes,
            available_bytes: self.available_bytes,
            remaining_bytes: self.remaining_bytes,
            installed_games: self.installed_games,
            prefix_folders: self.prefix_folders,
            unknown_folders: texts(self.unknown_folders@),
            consequences: texts(self.consequences@),
        }
    }
}

pub open spec fn plan_of(value: JsonView) -> PlanView {
    PlanView {
        fingerprint: text_or_none(value, "fingerprint"@),
        source: text_or_none(value, "source"@),
        destination: text_or_none(value, "destination"@),
        backup: text_or_none(value, "backup"@),
        copy_bytes: count_or_zero(value, "copy_bytes"@),
        reserve_bytes: count_or_zero(value, "reserve_bytes"@),
        available_bytes: value.count_at("available_bytes"@),
        remaining_bytes: value.count_at("expected_remaining_bytes"@),
        installed_games: count_or_zero(value, "installed_games"@),
        prefix_folders: count_or_zero(value, "prefix_folders"@),
        unknown_folders: texts_at(value, "unknown_folders"@),
        consequences: texts_at(value, "consequences"@),
    }
}

/// What the tool is asked for to plan a repair.
pub fn arguments_for_plan(library_id: &str) -> (arguments: Vec<String>)
    ensures
        texts(arguments@) == seq!["fix"@, library_id@, "--dry-run"@, "--json"@],
{
    let arguments = vec![
        "fix".to_string(),
        library_id.to_string(),
        "--dry-run".to_string(),
        "--json".to_string(),
    ];
    assert(texts(arguments@) =~= seq!["fix"@, library_id@, "--dry-run"@, "--json"@]);
    arguments
}

/// Reads a plan out of its document.
pub fn read_plan(value: &Json) -> (plan: Plan)
    ensures
        plan@ == plan_of(value.model()),
{
    Plan {
        fingerprint: text(value, "fingerprint"),
        source: text(value, "source"),
        destination: text(value, "destination"),
        backup: text(value, "backup"),
        copy_bytes: count(value, "copy_bytes"),
        reserve_bytes: count(value, "reserve_bytes"),
        available_bytes: value.count("available_bytes"),
        remaining_bytes: value.count("expected_remaining_bytes"),
        installed_games: count(value, "installed_games"),
        prefix_folders: count(value, "prefix_folders"),
        unknown_folders: strings(value, "unknown_folders"),
        consequences: strings(value, "consequences"),
    }
}

/// The plan, out of what `fix --dry-run --json` printed.
pub fn plan(output: &str) -> (plan: Result<Plan, String>)
    ensures
        match json_document(output@) {
            Ok(value) => plan is Ok && plan->Ok_0@ == plan_of(value),
            Err(words) => plan is Err && plan->Err_0@ == words,
        },
        forall|library: crate::steam::LibraryView, state: StateView, drawn: crate::plan::PlanView|
            output@ == #[trigger] plan_document(library, state, drawn) ==> plan is Ok && plan->Ok_0@
                == seen_plan(library, drawn),
{
    let read = parse(output);
    proof {
        assert forall|library: crate::steam::LibraryView, state: StateView, drawn: crate::plan::PlanView|
            output@ == #[trigger] plan_document(library, state, drawn) implies read is Ok && plan_of(
            read->Ok_0.model(),
        ) == seen_plan(library, drawn) by {
            lemma_plan_is_json(library, state, drawn);
            lemma_same_plan(read->Ok_0.model(), doc_value(plan_doc(library, state, drawn)));
            law_plan_reads_back(library, state, drawn);
        }
    }
    match read {
        Ok(value) => Ok(read_plan(&value)),
        Err(words) => Err(words),
    }
}

/// What is kept on disk for one library.
#[derive(Debug)]
pub struct Stored {
    pub id: String,
    pub name: String,
    pub live: Option<(String, u64)>,
    pub backups: Vec<(String, u64)>,
    pub leftover: Option<(String, u64)>,
}

pub struct StoredView {
    pub id: Seq<char>,
    pub name: Seq<char>,
    pub live: Option<(Seq<char>, u64)>,
    pub backups: Seq<(Seq<char>, u64)>,
    pub leftover: Option<(Seq<char>, u64)>,
}

pub open spec fn item_view(item: Option<(String, u64)>) -> Option<(Seq<char>, u64)> {
    match item {
        Some((path, bytes)) => Some((path@, bytes)),
        None => None,
    }
}

pub open spec fn items_view(list: Seq<(String, u64)>) -> Seq<(Seq<char>, u64)> {
    Seq::new(list.len(), |i: int| (list[i].0@, list[i].1))
}

impl View for Stored {
    type V = StoredView;

    open spec fn view(&self) -> StoredView {
        StoredView {
            id: self.id@,
            name: self.name@,
            live: item_view(self.live),
            backups: items_view(self.backups@),
            leftover: item_view(self.leftover),
        }
    }
}

pub open spec fn stored_view(list: Seq<Stored>) -> Seq<StoredView> {
    Seq::new(list.len(), |i: int| list[i]@)
}

/// A path and a size, where both are there.
pub open spec fn item_of(value: Option<JsonView>) -> Option<(Seq<char>, u64)> {
    match value {
        Some(value) => match (value.text_at("path"@), value.count_at("bytes"@)) {
            (Some(path), Some(bytes)) => Some((path, bytes)),
            _ => None,
        },
        None => None,
    }
}

pub open spec fn items_among(items: Seq<JsonView>) -> Seq<(Seq<char>, u64)>
    decreases items.len(),
{
    if items.len() == 0 {
        Seq::empty()
    } else {
        let before = items_among(items.drop_last());
        match item_of(Some(items.last())) {
            Some(item) => before.push(item),
            None => before,
        }
    }
}

pub open spec fn stored_of(row: JsonView) -> StoredView {
    StoredView {
        id: text_or_none(row, "id"@),
        name: text_or_none(row, "name"@),
        live: item_of(row.at("live"@)),
        backups: items_among(row.items_at("backups"@)),
        leftover: item_of(row.at("leftover"@)),
    }
}

pub open spec fn each_stored(rows: Seq<JsonView>) -> Seq<StoredView> {
    Seq::new(rows.len(), |i: int| stored_of(rows[i]))
}

fn read_item(value: Option<&Json>) -> (item: Option<(String, u64)>)
    ensures
        item_view(item) == item_of(
            match value {
                Some(value) => Some(value.model()),
                None => None,
            },
        ),
{
    match value {
        Some(value) => match (value.string("path"), value.count("bytes")) {
            (Some(path), Some(bytes)) => Some((path, bytes)),
            _ => None,
        },
        None => None,
    }
}

fn read_stored(row: &Json) -> (stored: Stored)
    ensures
        stored@ == stored_of(row.model()),
{
    let items = row.as_array("backups");
    let ghost all = list_model(items@);
    let mut backups: Vec<(String, u64)> = Vec::new();
    let mut i: usize = 0;
    assert(items_view(backups@) =~= items_among(all.take(0)));
    while i < items.len()
        invariant
            i <= items.len(),
            all == list_model(items@),
            items_view(backups@) == items_among(all.take(i as int)),
        decreases items.len() - i,
    {
        assert(all.take(i + 1).drop_last() =~= all.take(i as int));
        assert(all.take(i + 1).last() == items@[i as int].model());
        if let Some(item) = read_item(Some(&items[i])) {
            let ghost before = backups@;
            let ghost view = (item.0@, item.1);
            backups.push(item);
            assert(items_view(backups@) =~= items_view(before).push(view));
        }
        i = i + 1;
    }
    assert(all.take(i as int) =~= all);
    Stored {
        id: text(row, "id"),
        name: text(row, "name"),
        live: read_item(row.get("live")),
        backups,
        leftover: read_item(row.get("leftover")),
    }
}

/// Reads what is kept out of a document.
pub fn read_storage(value: &Json) -> (list: Vec<Stored>)
    ensures
        stored_view(list@) == each_stored(value.model().items_at("libraries"@)),
{
    let rows = value.as_array("libraries");
    let ghost all = list_model(rows@);
    let mut list: Vec<Stored> = Vec::new();
    let mut i: usize = 0;
    while i < rows.len()
        invariant
            i <= rows.len(),
            all == list_model(rows@),
            list@.len() == i,
            forall|k: int| 0 <= k < i ==> (#[trigger] list@[k])@ == stored_of(all[k]),
        decreases rows.len() - i,
    {
        assert(all[i as int] == rows@[i as int].model());
        list.push(read_stored(&rows[i]));
        i = i + 1;
    }
    assert(stored_view(list@) =~= each_stored(all));
    list
}

/// What is kept, out of what `storage --json` printed.
pub fn storage(output: &str) -> (list: Result<Vec<Stored>, String>)
    ensures
        match json_document(output@) {
            Ok(value) => list is Ok && stored_view(list->Ok_0@) == each_stored(
                value.items_at("libraries"@),
            ),
            Err(words) => list is Err && list->Err_0@ == words,
        },
        forall|rows: Seq<crate::commands::StoredView>|
            output@ == #[trigger] storage_document(rows) ==> list is Ok && stored_view(list->Ok_0@)
                == seen_storage(rows),
{
    let read = parse(output);
    proof {
        assert forall|rows: Seq<crate::commands::StoredView>|
            output@ == #[trigger] storage_document(rows) implies read is Ok && each_stored(
            read->Ok_0.model().items_at("libraries"@),
        ) == seen_storage(rows) by {
            lemma_storage_is_json(rows);
            lemma_same_storage(read->Ok_0.model(), doc_value(storage_doc(rows)));
            law_storage_reads_back(rows);
        }
    }
    match read {
        Ok(value) => Ok(read_storage(&value)),
        Err(words) => Err(words),
    }
}

pub fn human_bytes(bytes: u64) -> (text: String)
    ensures
        text@ == size_text(bytes as nat),
{
    crate::fsops::human_bytes(bytes)
}

/// One thing that has or has not been established about a library.
#[derive(Debug)]
pub struct EvidenceRow {
    pub field: String,
    pub result: String,
    pub by_tool: bool,
}

pub struct EvidenceRowView {
    pub field: Seq<char>,
    pub result: Seq<char>,
    pub by_tool: bool,
}

impl View for EvidenceRow {
    type V = EvidenceRowView;

    open spec fn view(&self) -> EvidenceRowView {
        EvidenceRowView { field: self.field@, result: self.result@, by_tool: self.by_tool }
    }
}

pub open spec fn evidence_view(list: Seq<EvidenceRow>) -> Seq<EvidenceRowView> {
    Seq::new(list.len(), |i: int| list[i]@)
}

pub open spec fn evidence_of(row: JsonView) -> EvidenceRowView {
    EvidenceRowView {
        field: text_or_none(row, "field"@),
        result: text_or_none(row, "result"@),
        by_tool: flag_or(row, "by_tool"@, false),
    }
}

pub open spec fn each_evidence(rows: Seq<JsonView>) -> Seq<EvidenceRowView> {
    Seq::new(rows.len(), |i: int| evidence_of(rows[i]))
}

/// Reads what is established out of a document.
pub fn read_evidence(value: &Json) -> (list: Vec<EvidenceRow>)
    ensures
        evidence_view(list@) == each_evidence(value.model().items_at("evidence"@)),
{
    let rows = value.as_array("evidence");
    let ghost all = list_model(rows@);
    let mut list: Vec<EvidenceRow> = Vec::new();
    let mut i: usize = 0;
    while i < rows.len()
        invariant
            i <= rows.len(),
            all == list_model(rows@),
            list@.len() == i,
            forall|k: int| 0 <= k < i ==> (#[trigger] list@[k])@ == evidence_of(all[k]),
        decreases rows.len() - i,
    {
        assert(all[i as int] == rows@[i as int].model());
        list.push(
            EvidenceRow {
                field: text(&rows[i], "field"),
                result: text(&rows[i], "result"),
                by_tool: flag(&rows[i], "by_tool", false),
            },
        );
        i = i + 1;
    }
    assert(evidence_view(list@) =~= each_evidence(all));
    list
}

/// What is established, out of what `evidence --json` printed.
pub fn evidence(output: &str) -> (list: Result<Vec<EvidenceRow>, String>)
    ensures
        match json_document(output@) {
            Ok(value) => list is Ok && evidence_view(list->Ok_0@) == each_evidence(
                value.items_at("evidence"@),
            ),
            Err(words) => list is Err && list->Err_0@ == words,
        },
        forall|library_id: Seq<char>, known: Evidence|
            output@ == #[trigger] evidence_json(library_id, known) ==> list is Ok && evidence_view(
                list->Ok_0@,
            ) == seen_evidence(known),
{
    let read = parse(output);
    proof {
        assert forall|library_id: Seq<char>, known: Evidence|
            output@ == #[trigger] evidence_json(library_id, known) implies read is Ok && each_evidence(
            read->Ok_0.model().items_at("evidence"@),
        ) == seen_evidence(known) by {
            lemma_listing_is_json(library_id, known);
            lemma_same_evidence(read->Ok_0.model(), doc_value(evidence_listing(library_id, known)));
            law_listed_evidence_reads_back(library_id, known);
        }
    }
    match read {
        Ok(value) => Ok(read_evidence(&value)),
        Err(words) => Err(words),
    }
}

/// What the tool is asked for to record an answer.
pub fn record_evidence(library_id: &str, field: &str, answer: &str) -> (arguments: Vec<String>)
    ensures
        texts(arguments@) == seq![
            "evidence"@,
            library_id@,
            "--record"@,
            field@ + "="@ + answer@,
        ],
{
    let mut given = field.to_string();
    given.push_str("=");
    given.push_str(answer);
    let arguments = vec![
        "evidence".to_string(),
        library_id.to_string(),
        "--record".to_string(),
        given,
    ];
    assert(texts(arguments@) =~= seq![
        "evidence"@,
        library_id@,
        "--record"@,
        field@ + "="@ + answer@,
    ]);
    arguments
}

pub open spec fn question_text(field: Seq<char>) -> Seq<char> {
    if field == "files"@ {
        "Files copied and checked"@
    } else if field == "launch"@ {
        "The game starts"@
    } else if field == "save"@ {
        "A save loads, and a new one is kept"@
    } else {
        "Steam Cloud still syncs"@
    }
}

pub fn describe_evidence(field: &str) -> (text: &'static str)
    ensures
        text@ == question_text(field@),
{
    if same(field, "files") {
        "Files copied and checked"
    } else if same(field, "launch") {
        "The game starts"
    } else if same(field, "save") {
        "A save loads, and a new one is kept"
    } else {
        "Steam Cloud still syncs"
    }
}

/// Messages from a worker back to the window.
#[derive(Debug)]
pub enum Update {
    Libraries(Result<Scan, String>),
    Candidates(Result<Vec<Candidate>, String>),
    Plan(Result<Plan, String>),
    Storage(Result<Vec<Stored>, String>),
    Evidence(Result<Vec<EvidenceRow>, String>),
    Lutris(Result<String, String>),
    /// One line of output from a running command.
    Line(String),
    /// A phase change or progress report from a running command.
    Event(Phase),
    /// A command finished. The bool says whether it succeeded.
    Done(bool),
}

} // verus!
