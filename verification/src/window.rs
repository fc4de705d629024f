//! What the window shows and what its buttons do, as far as that is decided and not drawn.

use vstd::prelude::*;

use crate::backend::{
    candidates_view, evidence_view, libraries_view, stored_view, Candidate, CandidateView, EvidenceRow,
    EvidenceRowView, Library, LibraryView, Phase, Plan, PlanView, Stored, StoredView, Update,
};
use crate::cli::held_text;
use crate::fsops::{human_bytes, size_text};
use crate::text::{add_text, decimal, decimal_text, join, joined, lists, same, texts};

verus! {

#[derive(Debug, Clone, Copy, PartialEq, Eq, Structural)]
pub enum Action {
    Fix,
    Undo,
}

pub open spec fn action_command(action: Action) -> Seq<char> {
    match action {
        Action::Fix => "fix"@,
        Action::Undo => "undo"@,
    }
}

impl Action {
    pub fn command(self) -> (command: &'static str)
        ensures
            command@ == action_command(self),
    {
        match self {
            Action::Fix => "fix",
            Action::Undo => "undo",
        }
    }
}

#[derive(Debug)]
pub enum Screen {
    Home,
    Libraries,
    /// The tool's own dry run for a library, awaiting a decision.
    Review { id: String, action: Action, title: String },
    Games,
    Storage,
    Help,
    Running { title: String },
}

pub enum ScreenView {
    Home,
    Libraries,
    Review { id: Seq<char>, action: Action, title: Seq<char> },
    Games,
    Storage,
    Help,
    Running { title: Seq<char> },
}

impl View for Screen {
    type V = ScreenView;

    open spec fn view(&self) -> ScreenView {
        match *self {
            Screen::Home => ScreenView::Home,
            Screen::Libraries => ScreenView::Libraries,
            Screen::Review { id, action, title } => ScreenView::Review { id: id@, action, title: title@ },
            Screen::Games => ScreenView::Games,
            Screen::Storage => ScreenView::Storage,
            Screen::Help => ScreenView::Help,
            Screen::Running { title } => ScreenView::Running { title: title@ },
        }
    }
}

/// The screen that a name on the command line asks for.
pub open spec fn screen_named(name: Seq<char>) -> ScreenView {
    if name == "games"@ {
        ScreenView::Games
    } else if name == "libraries"@ {
        ScreenView::Libraries
    } else if name == "storage"@ {
        ScreenView::Storage
    } else if name == "help"@ {
        ScreenView::Help
    } else {
        ScreenView::Home
    }
}

pub fn opening_screen(name: &str) -> (screen: Screen)
    ensures
        screen@ == screen_named(name@),
{
    if same(name, "games") {
        Screen::Games
    } else if same(name, "libraries") {
        Screen::Libraries
    } else if same(name, "storage") {
        Screen::Storage
    } else if same(name, "help") {
        Screen::Help
    } else {
        Screen::Home
    }
}

/// Does a library wait for a repair, or for one to be finished?
pub open spec fn needs_repair(library: LibraryView) -> bool {
    library.state == "repair_available"@ || library.state == "interrupted"@
}

impl Library {
    /// Whether there is something to do about the library.
    pub fn actionable(&self) -> (is: bool)
        ensures
            is == needs_repair(self@),
    {
        same(self.state.as_str(), "repair_available") || same(self.state.as_str(), "interrupted")
    }
}

pub open spec fn needing(libraries: Seq<LibraryView>) -> nat
    decreases libraries.len(),
{
    if libraries.len() == 0 {
        0
    } else if needs_repair(libraries.last()) {
        needing(libraries.drop_last()) + 1
    } else {
        needing(libraries.drop_last())
    }
}

pub open spec fn missing(candidates: Seq<CandidateView>) -> nat
    decreases candidates.len(),
{
    if candidates.len() == 0 {
        0
    } else if !candidates.last().in_lutris {
        missing(candidates.drop_last()) + 1
    } else {
        missing(candidates.drop_last())
    }
}

/// What the first screen says of the libraries.
pub open spec fn libraries_text(libraries: Seq<LibraryView>) -> Seq<char> {
    if libraries.len() == 0 {
        "Looking for Steam..."@
    } else if needing(libraries) == 0 {
        decimal_text(libraries.len()) + " found, nothing needs repair"@
    } else if needing(libraries) == 1 {
        "1 library needs repair"@
    } else {
        decimal_text(needing(libraries)) + " libraries need repair"@
    }
}

pub fn libraries_status(libraries: &Vec<Library>) -> (text: String)
    ensures
        text@ == libraries_text(libraries_view(libraries@)),
{
    let ghost all = libraries_view(libraries@);
    if libraries.len() == 0 {
        return "Looking for Steam...".to_string();
    }
    let mut count: u64 = 0;
    let mut i: usize = 0;
    while i < libraries.len()
        invariant
            i <= libraries.len(),
            all == libraries_view(libraries@),
            count <= i,
            count == needing(all.take(i as int)),
        decreases libraries.len() - i,
    {
        assert(all.take(i + 1).drop_last() =~= all.take(i as int));
        assert(all.take(i + 1).last() == libraries@[i as int]@);
        if libraries[i].actionable() {
            count = count + 1;
        }
        i = i + 1;
    }
    assert(all.take(i as int) =~= all);
    if count == 0 {
        let mut text = decimal(libraries.len() as u64);
        text.push_str(" found, nothing needs repair");
        text
    } else if count == 1 {
        "1 library needs repair".to_string()
    } else {
        let mut text = decimal(count);
        text.push_str(" libraries need repair");
        text
    }
}

/// What the first screen says of games: by whether Lutris was found, whether a folder was chosen, and what
/// is missing.
pub open spec fn games_text(lutris: bool, roots: nat, candidates: Seq<CandidateView>) -> Seq<char> {
    if !lutris {
        "Lutris was not found"@
    } else if roots == 0 {
        "Choose a folder to look in"@
    } else if missing(candidates) == 1 {
        "1 game is missing from Lutris"@
    } else {
        decimal_text(missing(candidates)) + " games are missing from Lutris"@
    }
}

pub fn games_status(lutris: bool, roots: usize, candidates: &Vec<Candidate>) -> (text: String)
    ensures
        text@ == games_text(lutris, roots as nat, candidates_view(candidates@)),
{
    let ghost all = candidates_view(candidates@);
    if !lutris {
        return "Lutris was not found".to_string();
    }
    if roots == 0 {
        return "Choose a folder to look in".to_string();
    }
    let mut count: u64 = 0;
    let mut i: usize = 0;
    while i < candidates.len()
        invariant
            i <= candidates.len(),
            all == candidates_view(candidates@),
            count <= i,
            count == missing(all.take(i as int)),
        decreases candidates.len() - i,
    {
        assert(all.take(i + 1).drop_last() =~= all.take(i as int));
        assert(all.take(i + 1).last() == candidates@[i as int]@);
        if !candidates[i].in_lutris {
            count = count + 1;
        }
        i = i + 1;
    }
    assert(all.take(i as int) =~= all);
    if count == 1 {
        "1 game is missing from Lutris".to_string()
    } else {
        let mut text = decimal(count);
        text.push_str(" games are missing from Lutris");
        text
    }
}

/// What a row of the list of libraries offers.
pub open spec fn offered(state: Seq<char>) -> Option<Action> {
    if state == "repair_available"@ || state == "interrupted"@ {
        Some(Action::Fix)
    } else if state == "repaired"@ {
        Some(Action::Undo)
    } else {
        None
    }
}

pub fn offer(library: &Library) -> (action: Option<Action>)
    ensures
        action == offered(library.state@),
{
    if library.actionable() {
        Some(Action::Fix)
    } else if same(library.state.as_str(), "repaired") {
        Some(Action::Undo)
    } else {
        None
    }
}

/// What a review is called.
pub open spec fn review_title(action: Action, name: Seq<char>) -> Seq<char> {
    match action {
        Action::Fix => "Repair "@ + name,
        Action::Undo => "Move "@ + name + " back"@,
    }
}

pub fn title_for(action: Action, name: &str) -> (title: String)
    ensures
        title@ == review_title(action, name@),
{
    match action {
        Action::Fix => {
            let mut title = "Repair ".to_string();
            title.push_str(name);
            title
        },
        Action::Undo => {
            let mut title = "Move ".to_string();
            title.push_str(name);
            title.push_str(" back");
            title
        },
    }
}

/// The short mark of a state.
pub open spec fn badge_of(state: Seq<char>) -> Seq<char> {
    if state == "repair_available"@ {
        "needs repair"@
    } else if state == "repaired"@ {
        "repaired"@
    } else if state == "interrupted"@ {
        "unfinished"@
    } else if state == "disconnected"@ {
        "not connected"@
    } else if state == "dangling_link"@ {
        "broken link"@
    } else if state == "linked_elsewhere"@ {
        "linked by hand"@
    } else if state == "no_compatdata"@ {
        "no Proton data"@
    } else {
        "check this one"@
    }
}

pub fn state_badge(state: &str) -> (text: &'static str)
    ensures
        text@ == badge_of(state@),
{
    if same(state, "repair_available") {
        "needs repair"
    } else if same(state, "repaired") {
        "repaired"
    } else if same(state, "interrupted") {
        "unfinished"
    } else if same(state, "disconnected") {
        "not connected"
    } else if same(state, "dangling_link") {
        "broken link"
    } else if same(state, "linked_elsewhere") {
        "linked by hand"
    } else if same(state, "no_compatdata") {
        "no Proton data"
    } else {
        "check this one"
    }
}

/// What stands above a review: no plan is promised above an error message.
pub open spec fn review_text(review_ok: Option<bool>, action: Action) -> Seq<char> {
    if review_ok == Some(false) {
        "This library cannot be repaired as things stand. Nothing has been changed."@
    } else {
        match action {
            Action::Fix => "This is exactly what will happen. Nothing has changed yet."@,
            Action::Undo => "This copies the current data back to the game drive first."@,
        }
    }
}

pub fn review_note(review_ok: Option<bool>, action: Action) -> (text: &'static str)
    ensures
        text@ == review_text(review_ok, action),
{
    if let Some(false) = review_ok {
        "This library cannot be repaired as things stand. Nothing has been changed."
    } else {
        match action {
            Action::Fix => "This is exactly what will happen. Nothing has changed yet.",
            Action::Undo => "This copies the current data back to the game drive first.",
        }
    }
}

/// May what was reviewed be applied? Only a review that actually succeeded may.
pub fn may_apply(busy: bool, review_ok: Option<bool>) -> (may: bool)
    ensures
        may == (!busy && review_ok == Some(true)),
{
    match review_ok {
        Some(true) => !busy,
        _ => false,
    }
}

/// What the tool is asked for to show what would happen.
pub fn review_arguments(action: Action, id: &str) -> (arguments: Vec<String>)
    ensures
        texts(arguments@) == seq![action_command(action), id@, "--dry-run"@],
{
    let arguments = vec![action.command().to_string(), id.to_string(), "--dry-run".to_string()];
    assert(texts(arguments@) =~= seq![action_command(action), id@, "--dry-run"@]);
    arguments
}

/// What the tool is asked for to apply what was reviewed. The plan that was on screen is quoted back: if the
/// library has changed since, the tool refuses rather than applying to something the user never saw.
pub open spec fn apply_list(action: Action, id: Seq<char>, plan: Option<Seq<char>>) -> Seq<Seq<char>> {
    let plain = seq![action_command(action), id, "--yes"@];
    match (action, plan) {
        (Action::Fix, Some(plan)) => plain.push("--expect"@).push(plan),
        _ => plain,
    }
}

pub fn apply_arguments(action: Action, id: &str, plan_id: &Option<String>) -> (arguments: Vec<String>)
    ensures
        texts(arguments@) == apply_list(action, id@, held_text(*plan_id)),
{
    let mut arguments = vec![action.command().to_string(), id.to_string(), "--yes".to_string()];
    assert(texts(arguments@) =~= seq![action_command(action), id@, "--yes"@]);
    if let (Action::Fix, Some(plan)) = (action, plan_id) {
        add_text(&mut arguments, "--expect".to_string());
        add_text(&mut arguments, plan.clone());
    }
    arguments
}

/// What a plan moves, in words.
pub open spec fn moving_text(plan: PlanView) -> Seq<char> {
    decimal_text(plan.prefix_folders as nat) + " prefix folders for "@ + decimal_text(
        plan.installed_games as nat,
    ) + " installed games"@
}

pub fn moving_field(plan: &Plan) -> (text: String)
    ensures
        text@ == moving_text(plan@),
{
    let mut text = decimal(plan.prefix_folders);
    text.push_str(" prefix folders for ");
    text.push_str(decimal(plan.installed_games).as_str());
    text.push_str(" installed games");
    text
}

pub open spec fn including_text(plan: PlanView) -> Seq<char> {
    decimal_text(plan.unknown_folders.len()) + " with no installed game: "@ + joined(
        plan.unknown_folders,
        ", "@,
    )
}

pub fn including_field(plan: &Plan) -> (text: String)
    ensures
        text@ == including_text(plan@),
{
    let mut text = decimal(plan.unknown_folders.len() as u64);
    text.push_str(" with no installed game: ");
    text.push_str(join(&plan.unknown_folders, ", ").as_str());
    text
}

/// What a plan says about room.
pub open spec fn space_text(plan: PlanView) -> Seq<char> {
    let copy = size_text(plan.copy_bytes as nat) + " to copy plus "@ + size_text(
        plan.reserve_bytes as nat,
    ) + " spare"@;
    match (plan.available_bytes, plan.remaining_bytes) {
        (Some(available), Some(remaining)) => copy + ", needs "@ + size_text(
            (plan.copy_bytes + plan.reserve_bytes) as nat,
        ) + ". "@ + size_text(available as nat) + " free, "@ + size_text(remaining as nat)
            + " left afterwards."@,
        _ => copy + ". Free space could not be measured."@,
    }
}

pub fn space_field(plan: &Plan) -> (text: String)
    requires
        plan.copy_bytes + plan.reserve_bytes <= u64::MAX,
    ensures
        text@ == space_text(plan@),
{
    let mut text = human_bytes(plan.copy_bytes);
    text.push_str(" to copy plus ");
    text.push_str(human_bytes(plan.reserve_bytes).as_str());
    text.push_str(" spare");
    match (plan.available_bytes, plan.remaining_bytes) {
        (Some(available), Some(remaining)) => {
            text.push_str(", needs ");
            text.push_str(human_bytes(plan.copy_bytes + plan.reserve_bytes).as_str());
            text.push_str(". ");
            text.push_str(human_bytes(available).as_str());
            text.push_str(" free, ");
            text.push_str(human_bytes(remaining).as_str());
            text.push_str(" left afterwards.");
        },
        _ => text.push_str(". Free space could not be measured."),
    }
    text
}

pub open spec fn heading_of(level: Seq<char>) -> Seq<char> {
    if level == "high"@ {
        "Confident"@
    } else if level == "medium"@ {
        "Probably right"@
    } else {
        "Guesses, check before adding"@
    }
}

pub fn confidence_heading(level: &str) -> (text: &'static str)
    ensures
        text@ == heading_of(level@),
{
    if same(level, "high") {
        "Confident"
    } else if same(level, "medium") {
        "Probably right"
    } else {
        "Guesses, check before adding"
    }
}

pub open spec fn source_text(source: Seq<char>) -> Seq<char> {
    if source == "gog"@ {
        "GOG metadata"@
    } else if source == "steam"@ {
        "Steam"@
    } else if source == "linux"@ {
        "a Linux launcher"@
    } else {
        "the folder contents"@
    }
}

/// How a game runs and where it was found, in words.
pub fn origin(candidate: &Candidate) -> (text: String)
    ensures
        text@ == candidate@.runner + " runner, found from "@ + source_text(candidate@.source),
{
    let mut text = candidate.runner.clone();
    text.push_str(" runner, found from ");
    let source = candidate.source.as_str();
    if same(source, "gog") {
        text.push_str("GOG metadata");
    } else if same(source, "steam") {
        text.push_str("Steam");
    } else if same(source, "linux") {
        text.push_str("a Linux launcher");
    } else {
        text.push_str("the folder contents");
    }
    text
}

/// Is a game of this id found with this confidence?
pub open spec fn has_level(candidates: Seq<CandidateView>, id: Seq<char>, level: Seq<char>) -> bool {
    exists|i: int|
        0 <= i < candidates.len() && (#[trigger] candidates[i]).id == id && candidates[i].confidence
            == level
}

/// The ids, among the first `n` games, of those found with one level of confidence.
pub open spec fn ids_at(candidates: Seq<CandidateView>, level: Seq<char>, n: int) -> Seq<Seq<char>>
    decreases n,
{
    if n <= 0 {
        Seq::empty()
    } else {
        let before = ids_at(candidates, level, n - 1);
        if has_level(candidates, candidates[n - 1].id, level) {
            before.push(candidates[n - 1].id)
        } else {
            before
        }
    }
}

fn is_at_level(candidates: &Vec<Candidate>, id: &str, level: &str) -> (is: bool)
    ensures
        is == has_level(candidates_view(candidates@), id@, level@),
{
    let ghost all = candidates_view(candidates@);
    let mut i: usize = 0;
    while i < candidates.len()
        invariant
            i <= candidates.len(),
            all == candidates_view(candidates@),
            forall|k: int|
                0 <= k < i ==> !((#[trigger] all[k]).id == id@ && all[k].confidence == level@),
        decreases candidates.len() - i,
    {
        assert(all[i as int] == candidates@[i as int]@);
        if same(candidates[i].id.as_str(), id) && same(candidates[i].confidence.as_str(), level) {
            return true;
        }
        i = i + 1;
    }
    false
}

pub fn group(candidates: &Vec<Candidate>, level: &str) -> (ids: Vec<String>)
    ensures
        texts(ids@) == ids_at(candidates_view(candidates@), level@, candidates@.len() as int),
{
    let ghost all = candidates_view(candidates@);
    let mut ids: Vec<String> = Vec::new();
    let mut i: usize = 0;
    assert(texts(ids@) =~= ids_at(all, level@, 0));
    while i < candidates.len()
        invariant
            i <= candidates.len(),
            all == candidates_view(candidates@),
            texts(ids@) == ids_at(all, level@, i as int),
        decreases candidates.len() - i,
    {
        assert(all[i as int] == candidates@[i as int]@);
        if is_at_level(candidates, candidates[i].id.as_str(), level) {
            add_text(&mut ids, candidates[i].id.clone());
        }
        i = i + 1;
    }
    ids
}

/// May the selected games be added?
pub fn may_import(selected: usize, busy: bool, lutris: bool) -> (may: bool)
    ensures
        may == (selected > 0 && !busy && lutris),
{
    selected > 0 && !busy && lutris
}

pub open spec fn field_if_any(key: Seq<char>, value: Seq<char>) -> Seq<(Seq<char>, Seq<char>)> {
    if value.len() == 0 {
        Seq::empty()
    } else {
        seq![(key, value)]
    }
}

/// What an import says of a game: its name and runner, and of the rest what there is.
pub open spec fn import_fields(candidate: CandidateView) -> Seq<(Seq<char>, Seq<char>)> {
    seq![("name"@, candidate.name), ("runner"@, candidate.runner)] + field_if_any(
        "exe"@,
        candidate.exe,
    ) + field_if_any("appid"@, candidate.appid) + field_if_any("prefix"@, candidate.prefix)
        + field_if_any("working_dir"@, candidate.working_dir)
}

pub open spec fn fields_view(list: Seq<(String, String)>) -> Seq<(Seq<char>, Seq<char>)> {
    Seq::new(list.len(), |i: int| (list[i].0@, list[i].1@))
}

fn add_field(list: &mut Vec<(String, String)>, key: &str, value: &String)
    ensures
        fields_view(final(list)@) == fields_view(old(list)@) + field_if_any(key@, value@),
{
    let ghost before = list@;
    if value.as_str().unicode_len() > 0 {
        list.push((key.to_string(), value.clone()));
    }
    assert(fields_view(list@) =~= fields_view(before) + field_if_any(key@, value@));
}

/// The fields of a game in an import file.
pub fn fields_for_import(candidate: &Candidate) -> (list: Vec<(String, String)>)
    ensures
        fields_view(list@) == import_fields(candidate@),
{
    let mut list: Vec<(String, String)> = Vec::new();
    list.push(("name".to_string(), candidate.name.clone()));
    list.push(("runner".to_string(), candidate.runner.clone()));
    assert(fields_view(list@) =~= seq![("name"@, candidate@.name), ("runner"@, candidate@.runner)]);
    add_field(&mut list, "exe", &candidate.exe);
    add_field(&mut list, "appid", &candidate.appid);
    add_field(&mut list, "prefix", &candidate.prefix);
    add_field(&mut list, "working_dir", &candidate.working_dir);
    list
}

/// All that the window knows and shows.
#[derive(Debug)]
pub struct Session {
    pub screen: Screen,
    pub libraries: Vec<Library>,
    pub warnings: Vec<String>,
    pub complete: bool,
    pub candidates: Vec<Candidate>,
    /// What was found out about Lutris.
    pub lutris: Option<Result<String, String>>,
    pub roots: Vec<String>,
    /// The ids of the games that are to be added.
    pub selected: Vec<String>,
    pub log: Vec<String>,
    pub busy: bool,
    pub finished: Option<bool>,
    pub error: Option<String>,
    /// Whether the dry run behind the current review succeeded. Apply is available only when it did.
    pub review_ok: Option<bool>,
    /// The plan identity that dry run reported, quoted back when applying so the tool refuses if the library
    /// changed in between.
    pub plan_id: Option<String>,
    /// The reviewed plan as fields.
    pub plan: Option<Plan>,
    pub stored: Vec<Stored>,
    pub evidence: Vec<EvidenceRow>,
    pub phase: Option<Phase>,
}

pub struct SessionView {
    pub screen: ScreenView,
    pub libraries: Seq<LibraryView>,
    pub warnings: Seq<Seq<char>>,
    pub complete: bool,
    pub candidates: Seq<CandidateView>,
    pub lutris: Option<Result<Seq<char>, Seq<char>>>,
    pub roots: Seq<Seq<char>>,
    pub selected: Seq<Seq<char>>,
    pub log: Seq<Seq<char>>,
    pub busy: bool,
    pub finished: Option<bool>,
    pub error: Option<Seq<char>>,
    pub review_ok: Option<bool>,
    pub plan_id: Option<Seq<char>>,
    pub plan: Option<PlanView>,
    pub stored: Seq<StoredView>,
    pub evidence: Seq<EvidenceRowView>,
    pub phase: Option<Phase>,
}

pub open spec fn lutris_view(lutris: Result<String, String>) -> Result<Seq<char>, Seq<char>> {
    match lutris {
        Ok(text) => Ok(text@),
        Err(text) => Err(text@),
    }
}

impl View for Session {
    type V = SessionView;

    open spec fn view(&self) -> SessionView {
        SessionView {
            screen: self.screen@,
            libraries: libraries_view(self.libraries@),
            warnings: texts(self.warnings@),
            complete: self.complete,
            candidates: candidates_view(self.candidates@),
            lutris: match self.lutris {
                Some(lutris) => Some(lutris_view(lutris)),
                None => None,
            },
            roots: texts(self.roots@),
            selected: texts(self.selected@),
            log: texts(self.log@),
            busy: self.busy,
            finished: self.finished,
            error: held_text(self.error),
            review_ok: self.review_ok,
            plan_id: held_text(self.plan_id),
            plan: match self.plan {
                Some(plan) => Some(plan@),
                None => None,
            },
            stored: stored_view(self.stored@),
            evidence: evidence_view(self.evidence@),
            phase: self.phase,
        }
    }
}

pub open spec fn ids_of(candidates: Seq<CandidateView>) -> Seq<Seq<char>> {
    Seq::new(candidates.len(), |i: int| candidates[i].id)
}

/// The selected ids that are still in the list.
pub open spec fn still_listed(selected: Seq<Seq<char>>, ids: Seq<Seq<char>>) -> Seq<Seq<char>>
    decreases selected.len(),
{
    if selected.len() == 0 {
        Seq::empty()
    } else {
        let before = still_listed(selected.drop_last(), ids);
        if ids.contains(selected.last()) {
            before.push(selected.last())
        } else {
            before
        }
    }
}

/// What a message changes.
pub open spec fn after_update(session: SessionView, update: Update) -> SessionView {
    match update {
        Update::Libraries(Ok(scan)) => SessionView {
            libraries: scan@.libraries,
            warnings: scan@.warnings,
            complete: scan@.complete,
            ..session
        },
        Update::Libraries(Err(message)) => SessionView { error: Some(message@), ..session },
        Update::Candidates(Ok(rows)) => SessionView {
            selected: still_listed(session.selected, ids_of(candidates_view(rows@))),
            candidates: candidates_view(rows@),
            ..session
        },
        Update::Candidates(Err(message)) => SessionView { error: Some(message@), ..session },
        Update::Lutris(result) => SessionView { lutris: Some(lutris_view(result)), ..session },
        Update::Plan(Ok(plan)) => SessionView {
            plan_id: Some(plan@.fingerprint),
            plan: Some(plan@),
            ..session
        },
        Update::Plan(Err(_)) => SessionView { plan: None, ..session },
        Update::Storage(Ok(rows)) => SessionView { stored: stored_view(rows@), ..session },
        Update::Storage(Err(message)) => SessionView { error: Some(message@), ..session },
        Update::Evidence(Ok(rows)) => SessionView { evidence: evidence_view(rows@), ..session },
        Update::Evidence(Err(message)) => SessionView { error: Some(message@), ..session },
        Update::Line(line) => SessionView { log: session.log.push(line@), ..session },
        Update::Event(phase) => SessionView { phase: Some(phase), ..session },
        Update::Done(ok) => SessionView {
            busy: false,
            finished: Some(ok),
            review_ok: if session.screen is Review {
                Some(ok)
            } else {
                session.review_ok
            },
            ..session
        },
    }
}

/// Before a dry run or a command starts: nothing said, nothing finished.
pub open spec fn cleared(session: SessionView) -> SessionView {
    SessionView { log: Seq::empty(), error: None, finished: None, busy: true, phase: None, ..session }
}

impl Session {
    /// Takes in a message, and tells whether the libraries have to be read again.
    pub fn take(&mut self, update: Update) -> (refresh: bool)
        ensures
            final(self)@ == after_update(old(self)@, update),
            refresh == (update is Done),
    {
        match update {
            Update::Libraries(Ok(scan)) => {
                self.libraries = scan.libraries;
                self.warnings = scan.warnings;
                self.complete = scan.complete;
                false
            },
            Update::Libraries(Err(message)) => {
                self.error = Some(message);
                false
            },
            Update::Candidates(Ok(rows)) => {
                let ghost before = texts(self.selected@);
                let ghost ids = ids_of(candidates_view(rows@));
                let mut kept: Vec<String> = Vec::new();
                let mut i: usize = 0;
                assert(texts(kept@) =~= still_listed(before.take(0), ids));
                while i < self.selected.len()
                    invariant
                        i <= self.selected.len(),
                        *self == *old(self),
                        before == texts(self.selected@),
                        ids == ids_of(candidates_view(rows@)),
                        texts(kept@) == still_listed(before.take(i as int), ids),
                    decreases self.selected.len() - i,
                {
                    assert(before.take(i + 1).drop_last() =~= before.take(i as int));
                    assert(before.take(i + 1).last() == self.selected@[i as int]@);
                    if is_listed(&rows, self.selected[i].as_str()) {
                        add_text(&mut kept, self.selected[i].clone());
                    }
                    i = i + 1;
                }
                assert(before.take(i as int) =~= before);
                self.selected = kept;
                self.candidates = rows;
                false
            },
            Update::Candidates(Err(message)) => {
                self.error = Some(message);
                false
            },
            Update::Lutris(result) => {
                self.lutris = Some(result);
                false
            },
            Update::Plan(Ok(plan)) => {
                self.plan_id = Some(plan.fingerprint.clone());
                self.plan = Some(plan);
                false
            },
            Update::Plan(Err(_)) => {
                self.plan = None;
                false
            },
            Update::Storage(Ok(rows)) => {
                self.stored = rows;
                false
            },
            Update::Storage(Err(message)) => {
                self.error = Some(message);
                false
            },
            Update::Evidence(Ok(rows)) => {
                self.evidence = rows;
                false
            },
            Update::Evidence(Err(message)) => {
                self.error = Some(message);
                false
            },
            Update::Line(line) => {
                add_text(&mut self.log, line);
                false
            },
            Update::Event(phase) => {
                self.phase = Some(phase);
                false
            },
            Update::Done(ok) => {
                self.busy = false;
                self.finished = Some(ok);
                if let Screen::Review { .. } = &self.screen {
                    self.review_ok = Some(ok);
                }
                true
            },
        }
    }

    fn clear(&mut self)
        ensures
            final(self)@ == cleared(old(self)@),
    {
        self.log = Vec::new();
        assert(texts(self.log@) =~= Seq::empty());
        self.error = None;
        self.finished = None;
        self.busy = true;
        self.phase = None;
    }

    /// Goes to the review of a library: what the tool would do is shown before anything is changed.
    pub fn review(&mut self, id: &str, action: Action, title: String)
        ensures
            final(self)@ == (SessionView {
                review_ok: None,
                plan_id: None,
                plan: None,
                screen: ScreenView::Review { id: id@, action, title: title@ },
                ..cleared(old(self)@)
            }),
    {
        self.clear();
        self.review_ok = None;
        self.plan_id = None;
        self.plan = None;
        self.screen = Screen::Review { id: id.to_string(), action, title };
    }

    /// Goes to the screen of a running command.
    pub fn run(&mut self, title: String)
        ensures
            final(self)@ == (SessionView {
                screen: ScreenView::Running { title: title@ },
                ..cleared(old(self)@)
            }),
    {
        self.clear();
        self.screen = Screen::Running { title };
    }

    /// Take on a folder to scan, from either the chooser or the text field. A folder that is already listed,
    /// or that is not there, is not added. Tells whether it was.
    pub fn add_root(&mut self, path: String, is_dir: bool) -> (added: bool)
        ensures
            added == (is_dir && !old(self)@.roots.contains(path@)),
            final(self)@ == if old(self)@.roots.contains(path@) {
                old(self)@
            } else if !is_dir {
                SessionView { error: Some(path@ + " is not a folder"@), ..old(self)@ }
            } else {
                SessionView { error: None, roots: old(self)@.roots.push(path@), ..old(self)@ }
            },
    {
        if lists(&self.roots, path.as_str()) {
            return false;
        }
        if !is_dir {
            let mut text = path;
            text.push_str(" is not a folder");
            self.error = Some(text);
            return false;
        }
        self.error = None;
        add_text(&mut self.roots, path);
        true
    }
}

fn is_listed(rows: &Vec<Candidate>, id: &str) -> (is: bool)
    ensures
        is == ids_of(candidates_view(rows@)).contains(id@),
{
    let ghost ids = ids_of(candidates_view(rows@));
    let mut i: usize = 0;
    while i < rows.len()
        invariant
            i <= rows.len(),
            ids == ids_of(candidates_view(rows@)),
            forall|k: int| 0 <= k < i ==> #[trigger] ids[k] != id@,
        decreases rows.len() - i,
    {
        assert(ids[i as int] == rows@[i as int].id@);
        if same(rows[i].id.as_str(), id) {
            return true;
        }
        i = i + 1;
    }
    false
}

/// The first game of an id.
pub open spec fn place_of(candidates: Seq<CandidateView>, id: Seq<char>) -> Option<int>
    decreases candidates.len(),
{
    if candidates.len() == 0 {
        None
    } else if place_of(candidates.drop_last(), id) is Some {
        place_of(candidates.drop_last(), id)
    } else if candidates.last().id == id {
        Some(candidates.len() - 1)
    } else {
        None
    }
}

/// The game of an id as it is to be added: as it was edited, or else as it was found.
pub open spec fn game_of(
    edits: Seq<CandidateView>,
    candidates: Seq<CandidateView>,
    id: Seq<char>,
) -> Option<CandidateView> {
    match place_of(edits, id) {
        Some(at) => Some(edits[at]),
        None => match place_of(candidates, id) {
            Some(at) => Some(candidates[at]),
            None => None,
        },
    }
}

proof fn lemma_place_stays(candidates: Seq<CandidateView>, id: Seq<char>, n: int)
    requires
        0 <= n <= candidates.len(),
        place_of(candidates.take(n), id) is Some,
    ensures
        place_of(candidates, id) == place_of(candidates.take(n), id),
    decreases candidates.len(),
{
    if n == candidates.len() {
        assert(candidates.take(n) =~= candidates);
    } else {
        assert(candidates.drop_last().take(n) =~= candidates.take(n));
        lemma_place_stays(candidates.drop_last(), id, n);
    }
}

fn find_id(candidates: &Vec<Candidate>, id: &str) -> (place: Option<usize>)
    ensures
        match place_of(candidates_view(candidates@), id@) {
            Some(at) => place is Some && place->0 == at && 0 <= at < candidates@.len(),
            None => place is None,
        },
{
    let ghost all = candidates_view(candidates@);
    let mut i: usize = 0;
    while i < candidates.len()
        invariant
            i <= candidates.len(),
            all == candidates_view(candidates@),
            place_of(all.take(i as int), id@) is None,
        decreases candidates.len() - i,
    {
        assert(all.take(i + 1).drop_last() =~= all.take(i as int));
        assert(all.take(i + 1).last() == candidates@[i as int]@);
        if same(candidates[i].id.as_str(), id) {
            proof {
                lemma_place_stays(all, id@, i + 1);
            }
            return Some(i);
        }
        i = i + 1;
    }
    assert(all.take(i as int) =~= all);
    None
}

/// Looks up the game of an id, an edited one before the one that was found.
pub fn candidate<'a>(edits: &'a Vec<Candidate>, candidates: &'a Vec<Candidate>, id: &str) -> (found: Option<
    &'a Candidate,
>)
    ensures
        match game_of(candidates_view(edits@), candidates_view(candidates@), id@) {
            Some(game) => found is Some && found->0@ == game,
            None => found is None,
        },
{
    match find_id(edits, id) {
        Some(at) => Some(&edits[at]),
        None => match find_id(candidates, id) {
            Some(at) => Some(&candidates[at]),
            None => None,
        },
    }
}

/// What was reviewed can be applied only after its dry run has ended well: starting a review takes that back,
/// and nothing but the end of a dry run gives it.
pub proof fn law_apply_needs_a_finished_review(session: SessionView, update: Update)
    requires
        session.review_ok != Some(true),
        after_update(session, update).review_ok == Some(true),
    ensures
        update == Update::Done(true),
        session.screen is Review,
{
}

/// No folder is taken on twice.
pub proof fn law_roots_stay_distinct(session: SessionView, path: Seq<char>)
    requires
        session.roots.no_duplicates(),
        !session.roots.contains(path),
    ensures
        session.roots.push(path).no_duplicates(),
{
    let now = session.roots.push(path);
    assert forall|i: int, j: int| 0 <= i < now.len() && 0 <= j < now.len() && i != j implies now[i]
        != now[j] by {
        if i < session.roots.len() {
            assert(session.roots.contains(session.roots[i]));
        }
        if j < session.roots.len() {
            assert(session.roots.contains(session.roots[j]));
        }
    }
}

} // verus!
