//! How a command ends, in words.

use vstd::prelude::*;

use crate::backup::{self, Disposal};
use crate::path::{paths_view, shown, FilePath};
use crate::protocol::{Action, Event, Outcome, GROWTH_RESERVE};
use crate::reasons;
use crate::reasons::{
    copy_missing_text, copy_not_original_text, escaping_back_text, escaping_text, leads_away_text, mid_repair_text,
    no_evidence_yet_text, no_originals_text, no_proof_text, no_room_back_text, no_room_text, no_symlinks_text,
    not_a_directory_text, not_carried_all_text, not_deletable_text, nothing_to_repair_text, nothing_to_undo_text,
    plan_changed_text, same_directory_text, same_filesystem_text, unfit_destination_text, unidentified_text,
    unknown_destination_text, wrong_state_text,
};
use crate::repair::{self, Repair, Way};
use crate::safefs::{kind_label, may_remove, removal_refusal};
use crate::text::{add_text, texts};
use crate::undo::{self, Undo};

verus! {

/// What a command knows when it ends, as far as its last words need it.
#[derive(Debug)]
pub struct Facts {
    pub library: FilePath,
    pub id: String,
    pub steamapps: FilePath,
    pub compatdata: FilePath,
    /// The name of compatdata in its directory.
    pub name: FilePath,
    /// The destination, or where the link leads.
    pub target: FilePath,
    /// The directory that holds the destination.
    pub holder: FilePath,
    /// The original: where it is to go, or where an earlier run left it.
    pub backup: FilePath,
    pub backups: Vec<FilePath>,
    pub headline: String,
    /// The filesystem types of the library and of the destination.
    pub library_type: String,
    pub target_type: String,
    /// The relative links that lead out of the data.
    pub links: String,
    pub bytes: u64,
    pub free: u64,
    pub expected: String,
    pub fingerprint: String,
    /// Was data copied?
    pub copied: bool,
    /// What the data in use lacks of the original.
    pub lacking: String,
    /// What was said of the last thing that went wrong.
    pub words: String,
}

pub struct FactsView {
    pub library: Seq<u8>,
    pub id: Seq<char>,
    pub steamapps: Seq<u8>,
    pub compatdata: Seq<u8>,
    pub name: Seq<u8>,
    pub target: Seq<u8>,
    pub holder: Seq<u8>,
    pub backup: Seq<u8>,
    pub backups: Seq<Seq<u8>>,
    pub headline: Seq<char>,
    pub library_type: Seq<char>,
    pub target_type: Seq<char>,
    pub links: Seq<char>,
    pub bytes: u64,
    pub free: u64,
    pub expected: Seq<char>,
    pub fingerprint: Seq<char>,
    pub copied: bool,
    pub lacking: Seq<char>,
    pub words: Seq<char>,
}

impl View for Facts {
    type V = FactsView;

    open spec fn view(&self) -> FactsView {
        FactsView {
            library: self.library@,
            id: self.id@,
            steamapps: self.steamapps@,
            compatdata: self.compatdata@,
            name: self.name@,
            target: self.target@,
            holder: self.holder@,
            backup: self.backup@,
            backups: paths_view(self.backups@),
            headline: self.headline@,
            library_type: self.library_type@,
            target_type: self.target_type@,
            links: self.links@,
            bytes: self.bytes,
            free: self.free,
            expected: self.expected@,
            fingerprint: self.fingerprint@,
            copied: self.copied,
            lacking: self.lacking@,
            words: self.words@,
        }
    }
}

/// The last words of a command: lines where it ended well, and otherwise why it did not.
pub type Words = Result<Seq<Seq<char>>, Seq<char>>;

pub open spec fn words_view(words: Result<Vec<String>, String>) -> Words {
    match words {
        Ok(lines) => Ok(texts(lines@)),
        Err(text) => Err(text@),
    }
}

/// What keeping the destination means.
pub open spec fn keeping_lines(facts: FactsView) -> Seq<Seq<char>> {
    seq![
        "Keeping     "@ + shown(facts.target),
        "Setting aside the game drive copy as "@ + shown(facts.backup),
    ]
}

pub open spec fn nothing_changed() -> Seq<Seq<char>> {
    seq![""@, "Dry run. Nothing was changed."@]
}

pub open spec fn moved_lines(facts: FactsView) -> Seq<Seq<char>> {
    let done = seq![
        ""@,
        "Done."@,
        "  Proton data now lives at   "@ + shown(facts.target),
        "  Steam still sees it at     "@ + shown(facts.compatdata),
    ];
    if facts.copied {
        done + seq![
            ""@,
            "The original is still on the game drive. Once a game has launched and"@,
            "loaded a save, `librarybridge backup` can remove it to reclaim the space."@,
        ]
    } else {
        done
    }
}

/// How `fix` ends.
pub open spec fn fix_words(outcome: Outcome, way: Way, facts: FactsView) -> Words {
    match outcome {
        Outcome::AlreadyRepaired => Ok(
            seq!["State       already repaired, pointing at "@ + shown(facts.target), "Nothing to do."@],
        ),
        Outcome::PlanShown => Ok(Seq::empty()),
        Outcome::DryRun => match way {
            Way::Repair => Ok(nothing_changed()),
            Way::Recovery => Ok(seq![""@, "Dry run. The remaining step is to create the link."@]),
            Way::Keep => Ok(keeping_lines(facts) + nothing_changed()),
        },
        Outcome::Cancelled => Ok(seq!["Cancelled. Nothing was changed."@]),
        Outcome::Repaired => Ok(moved_lines(facts)),
        Outcome::Recovered => Ok(seq![""@, "Done. The original is still at "@ + shown(facts.backup)]),
        Outcome::Kept => Ok(
            seq![
                ""@,
                "Done. Steam reads the data at "@ + shown(facts.target),
                "The copy that was on the game drive is at "@ + shown(facts.backup),
            ],
        ),
        _ => Err(fix_refusal(outcome, facts)),
    }
}

/// Why `fix` did not do what it was asked.
pub open spec fn fix_refusal(outcome: Outcome, facts: FactsView) -> Seq<char> {
    match outcome {
        Outcome::WrongState => wrong_state_text(facts.library, facts.headline),
        Outcome::NoSymlinks => no_symlinks_text(facts.library, facts.library_type),
        Outcome::NothingToRepair => nothing_to_repair_text(facts.library, facts.library_type),
        Outcome::Unidentified => unidentified_text(facts.library),
        Outcome::SameFilesystem => same_filesystem_text(facts.target),
        Outcome::UnfitDestination => unfit_destination_text(facts.target, facts.target_type),
        Outcome::UnknownDestination => unknown_destination_text(facts.target),
        Outcome::SameDirectory => same_directory_text(facts.target),
        Outcome::EscapingLinks => escaping_text(facts.links),
        Outcome::NoRoom => no_room_text(facts.holder, facts.bytes, GROWTH_RESERVE, facts.free),
        Outcome::PlanChanged => plan_changed_text(facts.expected, facts.fingerprint),
        Outcome::NotADirectory(kind) => not_a_directory_text(facts.compatdata, kind_label(kind)),
        Outcome::LeadsAway => leads_away_text(facts.compatdata, facts.steamapps),
        Outcome::CopyMissing => copy_missing_text(facts.target, facts.backup, facts.compatdata),
        Outcome::NoProof => no_proof_text(facts.target),
        Outcome::CopyNotOriginal => copy_not_original_text(facts.target, facts.backup, facts.compatdata),
        _ => facts.words,
    }
}

fn with(first: &str, path: &FilePath) -> (text: String)
    ensures
        text@ == first@ + shown(path@),
{
    let mut text = first.to_string();
    text.push_str(path.display().as_str());
    text
}

/// What keeping the destination means, before it is done.
pub fn keeping(facts: &Facts) -> (lines: Vec<String>)
    ensures
        texts(lines@) == keeping_lines(facts@),
{
    let lines = vec![
        with("Keeping     ", &facts.target),
        with("Setting aside the game drive copy as ", &facts.backup),
    ];
    assert(texts(lines@) =~= keeping_lines(facts@));
    lines
}

fn dry_run() -> (lines: Vec<String>)
    ensures
        texts(lines@) == nothing_changed(),
{
    let lines = vec!["".to_string(), "Dry run. Nothing was changed.".to_string()];
    assert(texts(lines@) =~= nothing_changed());
    lines
}

fn cancelled() -> (lines: Vec<String>)
    ensures
        texts(lines@) == seq!["Cancelled. Nothing was changed."@],
{
    let lines = vec!["Cancelled. Nothing was changed.".to_string()];
    assert(texts(lines@) =~= seq!["Cancelled. Nothing was changed."@]);
    lines
}

fn moved(facts: &Facts) -> (lines: Vec<String>)
    ensures
        texts(lines@) == moved_lines(facts@),
{
    let mut lines = vec![
        "".to_string(),
        "Done.".to_string(),
        with("  Proton data now lives at   ", &facts.target),
        with("  Steam still sees it at     ", &facts.compatdata),
    ];
    if facts.copied {
        lines.push("".to_string());
        lines.push("The original is still on the game drive. Once a game has launched and".to_string());
        lines.push(
            "loaded a save, `librarybridge backup` can remove it to reclaim the space.".to_string(),
        );
    }
    assert(texts(lines@) =~= moved_lines(facts@));
    lines
}

/// The last words of `fix`.
pub fn end_of_fix(outcome: Outcome, way: Way, facts: &Facts) -> (words: Result<Vec<String>, String>)
    ensures
        words_view(words) == fix_words(outcome, way, facts@),
        words is Ok <==> outcome == Outcome::AlreadyRepaired || outcome == Outcome::PlanShown || outcome
            == Outcome::DryRun || outcome == Outcome::Cancelled || outcome == Outcome::Repaired || outcome
            == Outcome::Recovered || outcome == Outcome::Kept,
{
    let ghost wanted = fix_words(outcome, way, facts@);
    match outcome {
        Outcome::AlreadyRepaired => {
            let lines = vec![
                with("State       already repaired, pointing at ", &facts.target),
                "Nothing to do.".to_string(),
            ];
            assert(texts(lines@) =~= wanted->Ok_0);
            Ok(lines)
        },
        Outcome::PlanShown => {
            let lines: Vec<String> = Vec::new();
            assert(texts(lines@) =~= wanted->Ok_0);
            Ok(lines)
        },
        Outcome::DryRun => match way {
            Way::Repair => Ok(dry_run()),
            Way::Recovery => {
                let lines = vec![
                    "".to_string(),
                    "Dry run. The remaining step is to create the link.".to_string(),
                ];
                assert(texts(lines@) =~= wanted->Ok_0);
                Ok(lines)
            },
            Way::Keep => {
                let mut lines = keeping(facts);
                add_text(&mut lines, "".to_string());
                add_text(&mut lines, "Dry run. Nothing was changed.".to_string());
                assert(texts(lines@) =~= wanted->Ok_0);
                Ok(lines)
            },
        },
        Outcome::Cancelled => Ok(cancelled()),
        Outcome::Repaired => Ok(moved(facts)),
        Outcome::Recovered => {
            let lines = vec!["".to_string(), with("Done. The original is still at ", &facts.backup)];
            assert(texts(lines@) =~= wanted->Ok_0);
            Ok(lines)
        },
        Outcome::Kept => {
            let lines = vec![
                "".to_string(),
                with("Done. Steam reads the data at ", &facts.target),
                with("The copy that was on the game drive is at ", &facts.backup),
            ];
            assert(texts(lines@) =~= wanted->Ok_0);
            Ok(lines)
        },
        _ => Err(refuse_fix(outcome, facts)),
    }
}

fn refuse_fix(outcome: Outcome, facts: &Facts) -> (text: String)
    ensures
        text@ == fix_refusal(outcome, facts@),
{
    match outcome {
        Outcome::WrongState => reasons::wrong_state(&facts.library, facts.headline.as_str()),
        Outcome::NoSymlinks => reasons::no_symlinks(&facts.library, facts.library_type.as_str()),
        Outcome::NothingToRepair => reasons::nothing_to_repair(&facts.library, facts.library_type.as_str()),
        Outcome::Unidentified => reasons::unidentified(&facts.library),
        Outcome::SameFilesystem => reasons::same_filesystem(&facts.target),
        Outcome::UnfitDestination => reasons::unfit_destination(&facts.target, facts.target_type.as_str()),
        Outcome::UnknownDestination => reasons::unknown_destination(&facts.target),
        Outcome::SameDirectory => reasons::same_directory(&facts.target),
        Outcome::EscapingLinks => reasons::escaping(facts.links.as_str()),
        Outcome::NoRoom => reasons::no_room(&facts.holder, facts.bytes, GROWTH_RESERVE, facts.free),
        Outcome::PlanChanged => reasons::plan_changed(facts.expected.as_str(), facts.fingerprint.as_str()),
        Outcome::NotADirectory(kind) => reasons::not_a_directory(&facts.compatdata, kind.label()),
        Outcome::LeadsAway => reasons::leads_away(&facts.compatdata, &facts.steamapps),
        Outcome::CopyMissing => reasons::copy_missing(&facts.target, &facts.backup, &facts.compatdata),
        Outcome::NoProof => reasons::no_proof(&facts.target),
        Outcome::CopyNotOriginal => reasons::copy_not_original(&facts.target, &facts.backup, &facts.compatdata),
        _ => facts.words.clone(),
    }
}

pub open spec fn indented_paths(list: Seq<Seq<u8>>) -> Seq<Seq<char>> {
    Seq::new(list.len(), |i: int| "    "@ + shown(list[i]))
}

/// How `undo` ends.
pub open spec fn undo_words(outcome: Outcome, facts: FactsView) -> Words {
    match outcome {
        Outcome::DryRun => Ok(nothing_changed()),
        Outcome::Cancelled => Ok(seq!["Cancelled. Nothing was changed."@]),
        Outcome::Undone => Ok(
            seq![
                ""@,
                "Done. Steam is using the game drive again."@,
                "  Still on disk, delete when you are happy:"@,
                "    "@ + shown(facts.target),
            ] + indented_paths(facts.backups),
        ),
        Outcome::MidRepair => Err(mid_repair_text(facts.backup, facts.id)),
        Outcome::NothingToUndo => Err(nothing_to_undo_text(facts.headline)),
        Outcome::EscapingLinks => Err(escaping_back_text(facts.links)),
        Outcome::NoRoom => Err(no_room_back_text(facts.bytes, facts.free)),
        Outcome::NotALink(kind) => if kind == crate::safefs::Kind::Symlink {
            Err(facts.words)
        } else {
            Err(removal_refusal(facts.steamapps, facts.name, kind))
        },
        _ => Err(facts.words),
    }
}

/// The last words of `undo`.
pub fn end_of_undo(outcome: Outcome, facts: &Facts) -> (words: Result<Vec<String>, String>)
    ensures
        words_view(words) == undo_words(outcome, facts@),
        words is Ok <==> outcome == Outcome::DryRun || outcome == Outcome::Cancelled || outcome
            == Outcome::Undone,
{
    let ghost wanted = undo_words(outcome, facts@);
    match outcome {
        Outcome::DryRun => Ok(dry_run()),
        Outcome::Cancelled => Ok(cancelled()),
        Outcome::Undone => {
            let mut lines = vec![
                "".to_string(),
                "Done. Steam is using the game drive again.".to_string(),
                "  Still on disk, delete when you are happy:".to_string(),
                with("    ", &facts.target),
            ];
            let ghost first = texts(lines@);
            let ghost all = indented_paths(facts@.backups);
            let mut i: usize = 0;
            assert(texts(lines@) =~= first + all.take(0));
            while i < facts.backups.len()
                invariant
                    i <= facts.backups.len(),
                    all == indented_paths(facts@.backups),
                    texts(lines@) == first + all.take(i as int),
                decreases facts.backups.len() - i,
            {
                let line = with("    ", &facts.backups[i]);
                assert(line@ == all[i as int]);
                add_text(&mut lines, line);
                assert(texts(lines@) =~= first + all.take(i + 1));
                i = i + 1;
            }
            assert(all.take(i as int) =~= all);
            assert(texts(lines@) =~= wanted->Ok_0);
            Ok(lines)
        },
        Outcome::MidRepair => Err(reasons::mid_repair(&facts.backup, facts.id.as_str())),
        Outcome::NothingToUndo => Err(reasons::nothing_to_undo(facts.headline.as_str())),
        Outcome::EscapingLinks => Err(reasons::escaping_back(facts.links.as_str())),
        Outcome::NoRoom => Err(reasons::no_room_back(facts.bytes, facts.free)),
        Outcome::NotALink(kind) => match may_remove(&facts.steamapps, &facts.name, kind) {
            Ok(()) => Err(facts.words.clone()),
            Err(text) => Err(text),
        },
        _ => Err(facts.words.clone()),
    }
}

/// How `backup` ends.
pub open spec fn backup_words(outcome: Outcome, facts: FactsView) -> Words {
    match outcome {
        Outcome::DryRun => Ok(nothing_changed()),
        Outcome::Cancelled => Ok(seq!["Cancelled. Nothing was changed."@]),
        Outcome::Deleted => Ok(seq![""@, "Done. The data in use is at "@ + shown(facts.target)]),
        Outcome::WrongState => Err(not_deletable_text(facts.headline)),
        Outcome::NoOriginals => Err(no_originals_text(facts.library)),
        Outcome::NoEvidenceYet => Err(no_evidence_yet_text(facts.id)),
        Outcome::NotCarried => Err(not_carried_all_text(facts.backup, facts.target, facts.lacking)),
        _ => Err(facts.words),
    }
}

/// The last words of `backup`.
pub fn end_of_backup(outcome: Outcome, facts: &Facts) -> (words: Result<Vec<String>, String>)
    ensures
        words_view(words) == backup_words(outcome, facts@),
        words is Ok <==> outcome == Outcome::DryRun || outcome == Outcome::Cancelled || outcome
            == Outcome::Deleted,
{
    match outcome {
        Outcome::DryRun => Ok(dry_run()),
        Outcome::Cancelled => Ok(cancelled()),
        Outcome::Deleted => {
            let lines = vec!["".to_string(), with("Done. The data in use is at ", &facts.target)];
            assert(texts(lines@) =~= backup_words(outcome, facts@)->Ok_0);
            Ok(lines)
        },
        Outcome::WrongState => Err(reasons::not_deletable(facts.headline.as_str())),
        Outcome::NoOriginals => Err(reasons::no_originals(&facts.library)),
        Outcome::NoEvidenceYet => Err(reasons::no_evidence_yet(facts.id.as_str())),
        Outcome::NotCarried => Err(
            reasons::not_carried_all(&facts.backup, &facts.target, facts.lacking.as_str()),
        ),
        _ => Err(facts.words.clone()),
    }
}

/// `fix` succeeds exactly when its run ends well, whatever it was told.
pub proof fn law_fix_succeeds_when_it_ends_well(run: Repair, event: Event, outcome: Outcome, facts: FactsView)
    requires
        repair::next(run, event).1 == Action::Stop(outcome),
    ensures
        fix_words(outcome, run.way, facts) is Ok <==> outcome.well(),
{
}

/// `undo` succeeds exactly when its run ends well.
pub proof fn law_undo_succeeds_when_it_ends_well(run: Undo, event: Event, outcome: Outcome, facts: FactsView)
    requires
        undo::next(run, event).1 == Action::Stop(outcome),
    ensures
        undo_words(outcome, facts) is Ok <==> outcome.well(),
{
}

/// `backup` succeeds exactly when its run ends well.
pub proof fn law_backup_succeeds_when_it_ends_well(
    run: Disposal,
    event: Event,
    outcome: Outcome,
    facts: FactsView,
)
    requires
        backup::next(run, event).1 == Action::Stop(outcome),
    ensures
        backup_words(outcome, facts) is Ok <==> outcome.well(),
{
}

} // verus!
