//! What the commands say: listings, documents and reasons.

use vstd::prelude::*;
use vstd::utf8::encode_utf8;

use crate::document::{
    block, block_gaps, entry, entry_gaps, members_model, nodes_model, page, page_gaps, row, row_gaps, text_or_null,
    texts_doc, texts_node, written, Doc, Gaps, Layout, Node,
};
use crate::fsops::{human_bytes, size_text};
use crate::path::{paths_view, shown, FilePath};
use crate::protocol::{Condition, Event};
use crate::state::{Report, ReportView, State, StateView};
use crate::steam::{install_label, installs_view, Install, InstallKind, Library, LibraryView};
use crate::system::{Capability, Mount, MountView};
use crate::text::{add_text, decimal, decimal_text, join, joined, sort_texts, sorted_texts, texts};

verus! {

/// What was asked for on the command line.
#[derive(Debug)]
pub struct Options {
    pub steam_root: Option<FilePath>,
    /// Where moved data is to live, in place of the usual place.
    pub data_dir: Option<FilePath>,
    pub json: bool,
    pub dry_run: bool,
    pub force: bool,
    pub assume_yes: bool,
    /// Folders the user explicitly chose to scan. Nothing is scanned without being named here or being a
    /// known Steam library.
    pub roots: Vec<FilePath>,
    pub candidates: Vec<String>,
    pub output: Option<FilePath>,
    pub plan: Option<FilePath>,
    pub entry: Option<String>,
    pub all: bool,
    /// The plan identity the caller reviewed. If it no longer matches, the operation is refused rather
    /// than applied to something else.
    pub expect: Option<String>,
    /// An answer to record, as a field and a result with `=` between them.
    pub record: Option<String>,
    /// Resolve a destination conflict by keeping what is already at the destination and setting the
    /// library's current compatdata aside.
    pub keep_destination: bool,
    /// Resolve it the other way: set the destination aside and copy the library's current compatdata over.
    pub replace_destination: bool,
}

/// A library, what the disk shows of it, the filesystem it is on, and the names of the games in it.
#[derive(Debug)]
pub struct Listed {
    pub library: Library,
    pub report: Report,
    pub mount: Option<Mount>,
    pub titles: Vec<String>,
}

pub struct ListedView {
    pub library: LibraryView,
    pub report: ReportView,
    pub mount: Option<MountView>,
    pub titles: Seq<Seq<char>>,
}

pub open spec fn held_mount(mount: Option<Mount>) -> Option<MountView> {
    match mount {
        Some(mount) => Some(mount@),
        None => None,
    }
}

impl View for Listed {
    type V = ListedView;

    open spec fn view(&self) -> ListedView {
        ListedView {
            library: self.library@,
            report: self.report@,
            mount: held_mount(self.mount),
            titles: texts(self.titles@),
        }
    }
}

pub open spec fn listed_view(list: Seq<Listed>) -> Seq<ListedView> {
    Seq::new(list.len(), |i: int| list[i]@)
}

/// What is known of what a library's filesystem can do.
pub open spec fn capability_in(mount: Option<MountView>) -> Capability {
    match mount {
        Some(mount) => mount.capability,
        None => Capability::Unknown,
    }
}

/// What can be done about a library, in words.
pub open spec fn advice_lines(
    library: LibraryView,
    state: StateView,
    capability: Capability,
) -> Seq<Seq<char>> {
    match state {
        StateView::NotRepaired { .. } => if capability == Capability::NoSymlinks {
            seq![
                "            This filesystem has no symlinks, so the repair cannot work. Move the library to a Linux filesystem with Steam itself."@,
            ]
        } else if capability == Capability::Native {
            seq!["            Already on a Linux filesystem. No repair needed."@]
        } else {
            seq!["            run:  librarybridge fix "@ + library.id]
        },
        StateView::InterruptedAwaitingLink { backup } => seq![
            "            An earlier run stopped after moving the original to"@,
            "            "@ + shown(backup),
            "            Nothing was lost. Run:  librarybridge fix "@ + library.id,
        ],
        StateView::DanglingLink { .. } => seq![
            "            The destination is missing. If it is on another drive,"@,
            "            connect it. LibraryBridge will not change anything meanwhile."@,
        ],
        StateView::LinkedElsewhere { .. } => seq![
            "            This link was not made by LibraryBridge, so it is left alone."@,
        ],
        StateView::Repaired { .. } => seq![
            "            to reverse:  librarybridge undo "@ + library.id,
        ],
        StateView::Unusable { detail } => seq!["            "@ + detail],
        _ => Seq::empty(),
    }
}

fn with(first: &str, second: &str) -> (text: String)
    ensures
        text@ == first@ + second@,
{
    let mut text = first.to_string();
    text.push_str(second);
    text
}

pub fn advice(library: &Library, report: &Report, mount: Option<&Mount>) -> (lines: Vec<String>)
    ensures
        texts(lines@) == advice_lines(
            library@,
            report@.state,
            capability_in(
                match mount {
                    Some(mount) => Some(mount@),
                    None => None,
                },
            ),
        ),
{
    let capability = match mount {
        Some(mount) => mount.capability,
        None => Capability::Unknown,
    };
    let mut lines: Vec<String> = Vec::new();
    match &report.state {
        State::NotRepaired { .. } => match capability {
            Capability::NoSymlinks => {
                lines.push(
                    "            This filesystem has no symlinks, so the repair cannot work. Move the library to a Linux filesystem with Steam itself.".to_string(),
                );
            },
            Capability::Native => {
                lines.push(
                    "            Already on a Linux filesystem. No repair needed.".to_string(),
                );
            },
            _ => {
                lines.push(with("            run:  librarybridge fix ", library.id.as_str()));
            },
        },
        State::InterruptedAwaitingLink { backup } => {
            lines.push(
                "            An earlier run stopped after moving the original to".to_string(),
            );
            lines.push(with("            ", backup.display().as_str()));
            lines.push(
                with(
                    "            Nothing was lost. Run:  librarybridge fix ",
                    library.id.as_str(),
                ),
            );
        },
        State::DanglingLink { .. } => {
            lines.push(
                "            The destination is missing. If it is on another drive,".to_string(),
            );
            lines.push(
                "            connect it. LibraryBridge will not change anything meanwhile.".to_string(),
            );
        },
        State::LinkedElsewhere { .. } => {
            lines.push(
                "            This link was not made by LibraryBridge, so it is left alone.".to_string(),
            );
        },
        State::Repaired { .. } => {
            lines.push(with("            to reverse:  librarybridge undo ", library.id.as_str()));
        },
        State::Unusable { detail } => {
            lines.push(with("            ", detail.as_str()));
        },
        _ => {},
    }
    assert(texts(lines@) =~= advice_lines(library@, report@.state, capability));
    lines
}

pub open spec fn capability_note(capability: Capability) -> Seq<char> {
    match capability {
        Capability::NeedsRepair => "Proton data does not belong here"@,
        Capability::NoSymlinks => "no symlink support, cannot be repaired"@,
        Capability::Native => "fine for Proton"@,
        Capability::Unknown => "not recognised"@,
    }
}

fn note_of(capability: Capability) -> (note: &'static str)
    ensures
        note@ == capability_note(capability),
{
    match capability {
        Capability::NeedsRepair => "Proton data does not belong here",
        Capability::NoSymlinks => "no symlink support, cannot be repaired",
        Capability::Native => "fine for Proton",
        Capability::Unknown => "not recognised",
    }
}

pub open spec fn filesystem_line(mount: Option<MountView>) -> Seq<char> {
    match mount {
        Some(mount) => "      filesystem  "@ + mount.described() + " ("@ + capability_note(
            mount.capability,
        ) + ")"@,
        None => "      filesystem  unknown (no mount table on this system)"@,
    }
}

pub open spec fn prefix_lines(state: StateView) -> Seq<Seq<char>> {
    match state {
        StateView::NotRepaired { prefixes } => seq![
            "      compatdata  "@ + decimal_text(prefixes as nat) + " prefixes"@,
        ],
        StateView::Repaired { prefixes, .. } => seq![
            "      compatdata  "@ + decimal_text(prefixes as nat) + " prefixes"@,
        ],
        _ => Seq::empty(),
    }
}

/// At most the first three of the games, in order.
pub open spec fn games_lines(connected: bool, titles: Seq<Seq<char>>) -> Seq<Seq<char>> {
    let sorted = sorted_texts(titles);
    if !connected || sorted.len() == 0 {
        Seq::empty()
    } else if sorted.len() > 3 {
        seq![
            "      games       "@ + joined(sorted.take(3), ", "@) + ", and "@ + decimal_text(
                (sorted.len() - 3) as nat,
            ) + " more"@,
        ]
    } else {
        seq!["      games       "@ + joined(sorted, ", "@)]
    }
}

pub open spec fn link_lines(state: StateView) -> Seq<Seq<char>> {
    match state {
        StateView::Repaired { target, .. } => seq!["      moved to    "@ + shown(target)],
        StateView::LinkedElsewhere { target } => seq!["      links to    "@ + shown(target)],
        StateView::DanglingLink { target } => seq!["      links to    "@ + shown(target)],
        _ => Seq::empty(),
    }
}

/// The lines, each with the same in front.
pub open spec fn indented(front: Seq<char>, lines: Seq<Seq<char>>) -> Seq<Seq<char>> {
    Seq::new(lines.len(), |i: int| front + lines[i])
}

pub open spec fn each_shown(front: Seq<char>, paths: Seq<Seq<u8>>) -> Seq<Seq<char>> {
    Seq::new(paths.len(), |i: int| front + shown(paths[i]))
}

/// What there is to note about a library.
pub open spec fn note_lines(report: ReportView) -> Seq<Seq<char>> {
    let held = match report.existing_destination {
        Some(path) => seq!["      note        the destination already holds data: "@ + shown(path)],
        None => Seq::empty(),
    };
    let stopped = match report.interrupted_restore {
        Some(path) => seq![
            "      note        a copy back to this drive stopped part way: "@ + shown(path),
            "                  the repair is untouched; that folder is not in use"@,
        ],
        None => Seq::empty(),
    };
    let left = match report.abandoned_copy {
        Some(path) => seq![
            "      leftover    "@ + shown(path) + " (unfinished copy, safe to delete)"@,
        ],
        None => Seq::empty(),
    };
    held + stopped + left
}

/// All that a listing says about a library.
pub open spec fn library_lines(row: ListedView) -> Seq<Seq<char>> {
    let library = row.library;
    let state = row.report.state;
    seq![
        ""@,
        "  ["@ + library.id + "] "@ + shown(library.path),
        "      name        "@ + library.name(),
        filesystem_line(row.mount),
    ] + prefix_lines(state) + games_lines(library.connected, row.titles) + link_lines(state) + seq![
        "      state       "@ + state.headline(),
    ] + indented("      "@, advice_lines(library, state, capability_in(row.mount))) + each_shown(
        "      backup      "@,
        row.report.backups,
    ) + note_lines(row.report)
}

fn add_all(list: &mut Vec<String>, front: &str, lines: &Vec<String>)
    ensures
        texts(final(list)@) == texts(old(list)@) + indented(front@, texts(lines@)),
{
    let ghost before = texts(list@);
    let ghost all = indented(front@, texts(lines@));
    let mut i: usize = 0;
    assert(texts(list@) =~= before + all.take(0));
    while i < lines.len()
        invariant
            i <= lines.len(),
            all == indented(front@, texts(lines@)),
            texts(list@) == before + all.take(i as int),
        decreases lines.len() - i,
    {
        add_text(list, with(front, lines[i].as_str()));
        assert(before + all.take(i + 1) =~= (before + all.take(i as int)).push(all[i as int]));
        i = i + 1;
    }
    assert(all.take(i as int) =~= all);
}

fn add_shown(list: &mut Vec<String>, front: &str, paths: &Vec<FilePath>)
    ensures
        texts(final(list)@) == texts(old(list)@) + each_shown(front@, paths_view(paths@)),
{
    let ghost before = texts(list@);
    let ghost all = each_shown(front@, paths_view(paths@));
    let mut i: usize = 0;
    assert(texts(list@) =~= before + all.take(0));
    while i < paths.len()
        invariant
            i <= paths.len(),
            all == each_shown(front@, paths_view(paths@)),
            texts(list@) == before + all.take(i as int),
        decreases paths.len() - i,
    {
        add_text(list, with(front, paths[i].display().as_str()));
        assert(before + all.take(i + 1) =~= (before + all.take(i as int)).push(all[i as int]));
        i = i + 1;
    }
    assert(all.take(i as int) =~= all);
}

fn list_filesystem(mount: &Option<Mount>) -> (text: String)
    ensures
        text@ == filesystem_line(held_mount(*mount)),
{
    match mount {
        Some(mount) => {
            let mut text = with("      filesystem  ", mount.describe().as_str());
            text.push_str(" (");
            text.push_str(note_of(mount.capability));
            text.push_str(")");
            text
        },
        None => "      filesystem  unknown (no mount table on this system)".to_string(),
    }
}

fn add_games(list: &mut Vec<String>, connected: bool, titles: &Vec<String>)
    ensures
        texts(final(list)@) == texts(old(list)@) + games_lines(connected, texts(titles@)),
{
    let ghost before = texts(list@);
    let ghost wanted = games_lines(connected, texts(titles@));
    let sorted = sort_texts(titles);
    let ghost all = texts(sorted@);
    if connected && sorted.len() > 0 {
        if sorted.len() > 3 {
            let mut three: Vec<String> = Vec::new();
            three.push(sorted[0].clone());
            three.push(sorted[1].clone());
            three.push(sorted[2].clone());
            assert(texts(three@) =~= all.take(3));
            let mut text = with("      games       ", join(&three, ", ").as_str());
            text.push_str(", and ");
            text.push_str(decimal((sorted.len() - 3) as u64).as_str());
            text.push_str(" more");
            add_text(list, text);
        } else {
            add_text(list, with("      games       ", join(&sorted, ", ").as_str()));
        }
    }
    assert(texts(list@) =~= before + wanted);
}

fn add_prefixes(list: &mut Vec<String>, state: &State)
    ensures
        texts(final(list)@) == texts(old(list)@) + prefix_lines(state@),
{
    let ghost before = texts(list@);
    let found: Option<usize> = match state {
        State::NotRepaired { prefixes } => Some(*prefixes),
        State::Repaired { prefixes, .. } => Some(*prefixes),
        _ => None,
    };
    if let Some(prefixes) = found {
        let mut text = with("      compatdata  ", decimal(prefixes as u64).as_str());
        text.push_str(" prefixes");
        add_text(list, text);
    }
    assert(texts(list@) =~= before + prefix_lines(state@));
}

fn add_link(list: &mut Vec<String>, state: &State)
    ensures
        texts(final(list)@) == texts(old(list)@) + link_lines(state@),
{
    let ghost before = texts(list@);
    match state {
        State::Repaired { target, .. } => {
            add_text(list, with("      moved to    ", target.display().as_str()));
        },
        State::LinkedElsewhere { target } => {
            add_text(list, with("      links to    ", target.display().as_str()));
        },
        State::DanglingLink { target } => {
            add_text(list, with("      links to    ", target.display().as_str()));
        },
        _ => {},
    }
    assert(texts(list@) =~= before + link_lines(state@));
}

fn add_notes(list: &mut Vec<String>, report: &Report)
    ensures
        texts(final(list)@) == texts(old(list)@) + note_lines(report@),
{
    let ghost before = texts(list@);
    if let Some(path) = &report.existing_destination {
        add_text(
            list,
            with(
                "      note        the destination already holds data: ",
                path.display().as_str(),
            ),
        );
    }
    if let Some(path) = &report.interrupted_restore {
        add_text(
            list,
            with(
                "      note        a copy back to this drive stopped part way: ",
                path.display().as_str(),
            ),
        );
        add_text(
            list,
            "                  the repair is untouched; that folder is not in use".to_string(),
        );
    }
    if let Some(path) = &report.abandoned_copy {
        let mut text = with("      leftover    ", path.display().as_str());
        text.push_str(" (unfinished copy, safe to delete)");
        add_text(list, text);
    }
    assert(texts(list@) =~= before + note_lines(report@));
}

fn add_library(list: &mut Vec<String>, row: &Listed)
    ensures
        texts(final(list)@) == texts(old(list)@) + library_lines(row@),
{
    let ghost before = texts(list@);
    let ghost wanted = library_lines(row@);
    add_text(list, "".to_string());
    let mut title = with("  [", row.library.id.as_str());
    title.push_str("] ");
    title.push_str(row.library.path.display().as_str());
    add_text(list, title);
    add_text(list, with("      name        ", row.library.display_name().as_str()));
    add_text(list, list_filesystem(&row.mount));
    add_prefixes(list, &row.report.state);
    add_games(list, row.library.connected, &row.titles);
    add_link(list, &row.report.state);
    add_text(list, with("      state       ", row.report.state.headline()));
    let told = advice(
        &row.library,
        &row.report,
        match &row.mount {
            Some(mount) => Some(mount),
            None => None,
        },
    );
    add_all(list, "      ", &told);
    add_shown(list, "      backup      ", &row.report.backups);
    add_notes(list, &row.report);
    assert(texts(list@) =~= before + wanted);
}

/// Does a library wait for a repair, or for one to be finished?
pub open spec fn is_actionable(state: StateView) -> bool {
    state is NotRepaired || state is InterruptedAwaitingLink
}

pub open spec fn actionable_count(rows: Seq<ListedView>) -> nat
    decreases rows.len(),
{
    if rows.len() == 0 {
        0
    } else if is_actionable(rows.last().report.state) {
        actionable_count(rows.drop_last()) + 1
    } else {
        actionable_count(rows.drop_last())
    }
}

pub open spec fn all_library_lines(rows: Seq<ListedView>) -> Seq<Seq<char>>
    decreases rows.len(),
{
    if rows.len() == 0 {
        Seq::empty()
    } else {
        all_library_lines(rows.drop_last()) + library_lines(rows.last())
    }
}

/// The label of an installation, as wide as the widest, and where it is.
pub open spec fn install_line(install: (InstallKind, Seq<u8>)) -> Seq<char> {
    match install.0 {
        InstallKind::Native => "  native   "@ + shown(install.1),
        InstallKind::Flatpak => "  flatpak  "@ + shown(install.1),
    }
}

pub open spec fn install_lines(installs: Seq<(InstallKind, Seq<u8>)>) -> Seq<Seq<char>> {
    Seq::new(installs.len(), |i: int| install_line(installs[i]))
}

pub open spec fn closing_line(actionable: nat) -> Seq<char> {
    if actionable == 0 {
        "Nothing to do."@
    } else if actionable == 1 {
        "1 library can be repaired. Run `librarybridge fix <id>`."@
    } else {
        decimal_text(actionable) + " libraries can be repaired. Run `librarybridge fix <id>` for each."@
    }
}

pub open spec fn warning_lines(warnings: Seq<Seq<char>>) -> Seq<Seq<char>> {
    indented("  note: "@, warnings)
}

/// What a scan says.
pub open spec fn scan_lines(
    installs: Seq<(InstallKind, Seq<u8>)>,
    rows: Seq<ListedView>,
    warnings: Seq<Seq<char>>,
) -> Seq<Seq<char>> {
    if rows.len() == 0 {
        seq![
            "No Steam libraries found."@,
            ""@,
            "Looked for Steam in the usual places under your home directory."@,
            "If Steam is installed somewhere else, point at it directly:"@,
            "    librarybridge --steam-root /path/to/Steam scan"@,
        ] + warning_lines(warnings)
    } else {
        seq!["Steam installations"@] + install_lines(installs) + seq![""@, "Libraries"@]
            + all_library_lines(rows) + (if warnings.len() > 0 {
            seq![""@] + warning_lines(warnings)
        } else {
            Seq::empty()
        }) + seq![""@, closing_line(actionable_count(rows))]
    }
}

/// The listing of all libraries, what each one needs, and what there was to note.
pub fn scan(installs: &Vec<Install>, rows: &Vec<Listed>, warnings: &Vec<String>) -> (lines: Vec<String>)
    ensures
        texts(lines@) == scan_lines(
            installs_view(installs@),
            listed_view(rows@),
            texts(warnings@),
        ),
{
    let ghost all = listed_view(rows@);
    let ghost found = installs_view(installs@);
    let ghost wanted = scan_lines(found, all, texts(warnings@));
    let mut lines: Vec<String> = Vec::new();
    if rows.len() == 0 {
        add_text(&mut lines, "No Steam libraries found.".to_string());
        add_text(&mut lines, "".to_string());
        add_text(
            &mut lines,
            "Looked for Steam in the usual places under your home directory.".to_string(),
        );
        add_text(
            &mut lines,
            "If Steam is installed somewhere else, point at it directly:".to_string(),
        );
        add_text(&mut lines, "    librarybridge --steam-root /path/to/Steam scan".to_string());
        add_all(&mut lines, "  note: ", warnings);
        assert(texts(lines@) =~= wanted);
        return lines;
    }
    add_text(&mut lines, "Steam installations".to_string());
    let ghost head = texts(lines@);
    assert(head =~= seq!["Steam installations"@]);
    let ghost places = install_lines(found);
    let mut i: usize = 0;
    assert(head + places.take(0) =~= head);
    while i < installs.len()
        invariant
            i <= installs.len(),
            found == installs_view(installs@),
            places == install_lines(found),
            texts(lines@) == head + places.take(i as int),
        decreases installs.len() - i,
    {
        let text = match installs[i].kind {
            InstallKind::Native => with("  native   ", installs[i].root.display().as_str()),
            InstallKind::Flatpak => with("  flatpak  ", installs[i].root.display().as_str()),
        };
        assert(text@ == places[i as int]);
        add_text(&mut lines, text);
        assert(head + places.take(i + 1) =~= (head + places.take(i as int)).push(places[i as int]));
        i = i + 1;
    }
    assert(places.take(i as int) =~= places);
    add_text(&mut lines, "".to_string());
    add_text(&mut lines, "Libraries".to_string());
    let ghost before = texts(lines@);
    assert(before =~= head + places + seq![""@, "Libraries"@]);
    let mut actionable: u64 = 0;
    let mut n: usize = 0;
    assert(before + all_library_lines(all.take(0)) =~= before);
    while n < rows.len()
        invariant
            n <= rows.len(),
            all == listed_view(rows@),
            actionable <= n,
            actionable == actionable_count(all.take(n as int)),
            texts(lines@) == before + all_library_lines(all.take(n as int)),
        decreases rows.len() - n,
    {
        assert(all.take(n + 1).drop_last() =~= all.take(n as int));
        assert(all.take(n + 1).last() == rows@[n as int]@);
        add_library(&mut lines, &rows[n]);
        assert(texts(lines@) =~= before + all_library_lines(all.take(n + 1)));
        match &rows[n].report.state {
            State::NotRepaired { .. } => {
                actionable = actionable + 1;
            },
            State::InterruptedAwaitingLink { .. } => {
                actionable = actionable + 1;
            },
            _ => {},
        }
        n = n + 1;
    }
    assert(all.take(n as int) =~= all);
    if warnings.len() > 0 {
        add_text(&mut lines, "".to_string());
        add_all(&mut lines, "  note: ", warnings);
    }
    add_text(&mut lines, "".to_string());
    if actionable == 0 {
        add_text(&mut lines, "Nothing to do.".to_string());
    } else if actionable == 1 {
        add_text(
            &mut lines,
            "1 library can be repaired. Run `librarybridge fix <id>`.".to_string(),
        );
    } else {
        add_text(
            &mut lines,
            with(
                decimal(actionable).as_str(),
                " libraries can be repaired. Run `librarybridge fix <id>` for each.",
            ),
        );
    }
    assert(texts(lines@) =~= wanted);
    lines
}

/// Why no repair applies to a library, where none does.
pub open spec fn reason_against(state: StateView, mount: Option<MountView>) -> Option<Seq<char>> {
    match state {
        StateView::Disconnected => Some("the drive is not connected"@),
        StateView::Repaired { .. } => Some("already repaired, no repair needed"@),
        StateView::LinkedElsewhere { .. } => Some(
            "compatdata is a link that was not made by LibraryBridge"@,
        ),
        StateView::DanglingLink { .. } => Some("the destination of the link is missing"@),
        StateView::Unusable { detail } => Some(detail),
        StateView::InterruptedAwaitingLink { .. } => None,
        StateView::NotRepaired { .. } => filesystem_against(mount),
        StateView::NoCompatdata => filesystem_against(mount),
    }
}

pub open spec fn filesystem_against(mount: Option<MountView>) -> Option<Seq<char>> {
    match mount {
        Some(mount) => match mount.capability {
            Capability::NeedsRepair => None,
            Capability::NoSymlinks => Some(
                mount.fs_type + " has no symlink support, so the repair cannot work"@,
            ),
            Capability::Native => Some("already on a Linux filesystem, no repair needed"@),
            Capability::Unknown => Some("the filesystem could not be identified"@),
        },
        None => Some("the filesystem could not be identified"@),
    }
}

/// Why no repair applies to a library; nothing where one does.
pub fn blocking_reason(state: &State, mount: Option<&Mount>) -> (reason: Option<String>)
    ensures
        ({
            let wanted = reason_against(
                state@,
                match mount {
                    Some(mount) => Some(mount@),
                    None => None,
                },
            );
            &&& reason is Some <==> wanted is Some
            &&& reason matches Some(reason) ==> Some(reason@) == wanted
        }),
{
    match state {
        State::Disconnected => Some("the drive is not connected".to_string()),
        State::Repaired { .. } => Some("already repaired, no repair needed".to_string()),
        State::LinkedElsewhere { .. } => Some(
            "compatdata is a link that was not made by LibraryBridge".to_string(),
        ),
        State::DanglingLink { .. } => Some("the destination of the link is missing".to_string()),
        State::Unusable { detail } => Some(detail.clone()),
        State::InterruptedAwaitingLink { .. } => None,
        _ => match mount {
            Some(mount) => match mount.capability {
                Capability::NeedsRepair => None,
                Capability::NoSymlinks => Some(
                    with(
                        mount.fs_type.as_str(),
                        " has no symlink support, so the repair cannot work",
                    ),
                ),
                Capability::Native => Some(
                    "already on a Linux filesystem, no repair needed".to_string(),
                ),
                Capability::Unknown => Some("the filesystem could not be identified".to_string()),
            },
            None => Some("the filesystem could not be identified".to_string()),
        },
    }
}

/// The state of a library, as far as a command goes by it.
pub open spec fn condition_of(state: StateView) -> Condition {
    match state {
        StateView::NoCompatdata => Condition::NoCompatdata,
        StateView::NotRepaired { .. } => Condition::NotRepaired,
        StateView::Repaired { .. } => Condition::Repaired,
        StateView::InterruptedAwaitingLink { .. } => Condition::Interrupted,
        _ => Condition::Other,
    }
}

/// What a command hears of a library that was inspected.
pub fn inspected(report: &Report) -> (event: Event)
    ensures
        event == (Event::Inspected {
            condition: condition_of(report@.state),
            occupied: report@.existing_destination is Some,
            originals: report@.backups.len() > 0,
        }),
{
    let condition = match &report.state {
        State::NoCompatdata => Condition::NoCompatdata,
        State::NotRepaired { .. } => Condition::NotRepaired,
        State::Repaired { .. } => Condition::Repaired,
        State::InterruptedAwaitingLink { .. } => Condition::Interrupted,
        _ => Condition::Other,
    };
    Event::Inspected {
        condition,
        occupied: report.existing_destination.is_some(),
        originals: report.backups.len() > 0,
    }
}

/// A listing calls a library eligible exactly when `fix`, without being forced and with a destination on a
/// Linux filesystem, gets past its state and its filesystem: the two do not disagree about what would happen.
pub proof fn law_listing_agrees_with_fix(state: StateView, mount: Option<MountView>)
    ensures
        reason_against(state, mount) is None <==> match condition_of(state) {
            Condition::Interrupted => true,
            Condition::NotRepaired | Condition::NoCompatdata => crate::repair::mount_refusal(
                false,
                match mount {
                    Some(mount) => Some(mount.capability),
                    None => None,
                },
                Some(Capability::Native),
                false,
            ) is None,
            _ => false,
        },
{
}

pub open spec fn shown_list(list: Seq<Seq<u8>>) -> Seq<Seq<char>> {
    Seq::new(list.len(), |i: int| shown(list[i]))
}

fn show_all(list: &Vec<FilePath>) -> (shows: Vec<String>)
    ensures
        texts(shows@) == shown_list(paths_view(list@)),
{
    let mut shows: Vec<String> = Vec::new();
    let mut i: usize = 0;
    while i < list.len()
        invariant
            i <= list.len(),
            shows@.len() == i,
            forall|k: int| 0 <= k < i ==> (#[trigger] shows@[k])@ == shown(list@[k]@),
        decreases list.len() - i,
    {
        shows.push(list[i].display());
        i = i + 1;
    }
    assert(texts(shows@) =~= shown_list(paths_view(list@)));
    shows
}

pub open spec fn filesystem_name(mount: Option<MountView>) -> Seq<char> {
    match mount {
        Some(mount) => mount.fs_type,
        None => ""@,
    }
}

pub open spec fn shown_if_any(path: Option<Seq<u8>>) -> Option<Seq<char>> {
    match path {
        Some(path) => Some(shown(path)),
        None => None,
    }
}

/// A library in the document of a scan.
pub open spec fn library_doc(row: ListedView) -> Doc {
    let library = row.library;
    let reason = reason_against(row.report.state, row.mount);
    Doc::Table(
        entry_gaps(),
        seq![
            ("id"@, Doc::Text(library.id)),
            ("path"@, Doc::Text(shown(library.path))),
            ("name"@, Doc::Text(library.name())),
            ("steam"@, Doc::Text(install_label(library.install_kind))),
            ("filesystem"@, Doc::Text(filesystem_name(row.mount))),
            ("connected"@, Doc::Bool(library.connected)),
            ("state"@, Doc::Text(row.report.state.code())),
            ("target"@, Doc::Text(shown(library.target()))),
            ("eligible"@, Doc::Bool(reason is None)),
            ("blocking_reason"@, text_or_null(reason)),
            ("destination_occupied"@, text_or_null(shown_if_any(row.report.existing_destination))),
            ("backups"@, texts_doc(shown_list(row.report.backups))),
        ],
    )
}

pub open spec fn library_docs(rows: Seq<ListedView>) -> Seq<Doc> {
    Seq::new(rows.len(), |i: int| library_doc(rows[i]))
}

/// A scan as a document. It is complete when there was nothing to warn of.
pub open spec fn scan_doc(rows: Seq<ListedView>, warnings: Seq<Seq<char>>, version: Seq<char>) -> Doc {
    Doc::Table(
        page_gaps(),
        seq![
            ("schema"@, Doc::Number(1)),
            ("tool_version"@, Doc::Text(version)),
            ("complete"@, Doc::Bool(warnings.len() == 0)),
            ("libraries"@, Doc::List(block_gaps(), library_docs(rows))),
            ("warnings"@, texts_doc(warnings)),
        ],
    )
}

pub open spec fn scan_document(
    rows: Seq<ListedView>,
    warnings: Seq<Seq<char>>,
    version: Seq<char>,
) -> Seq<char> {
    written(scan_doc(rows, warnings, version))
}

fn library_node(row: &Listed) -> (node: Node)
    ensures
        node.model() == library_doc(row@),
{
    let library = &row.library;
    let reason = blocking_reason(
        &row.report.state,
        match &row.mount {
            Some(mount) => Some(mount),
            None => None,
        },
    );
    let eligible = reason.is_none();
    let filesystem = match &row.mount {
        Some(mount) => mount.fs_type.clone(),
        None => "".to_string(),
    };
    let occupied = match &row.report.existing_destination {
        Some(path) => Node::Text(path.display()),
        None => Node::Null,
    };
    let against = match reason {
        Some(reason) => Node::Text(reason),
        None => Node::Null,
    };
    let backups = texts_node(&show_all(&row.report.backups));
    let pairs: Vec<(String, Node)> = vec![
        ("id".to_string(), Node::Text(library.id.clone())),
        ("path".to_string(), Node::Text(library.path.display())),
        ("name".to_string(), Node::Text(library.display_name())),
        ("steam".to_string(), Node::Text(library.install_kind.label().to_string())),
        ("filesystem".to_string(), Node::Text(filesystem)),
        ("connected".to_string(), Node::Bool(library.connected)),
        ("state".to_string(), Node::Text(row.report.state.code().to_string())),
        ("target".to_string(), Node::Text(library.target().display())),
        ("eligible".to_string(), Node::Bool(eligible)),
        ("blocking_reason".to_string(), against),
        ("destination_occupied".to_string(), occupied),
        ("backups".to_string(), backups),
    ];
    assert(members_model(pairs@) =~= library_doc(row@)->Table_1);
    Node::Table(entry(), pairs)
}

/// The libraries, and whether the scan saw everything, as a document for other programs.
pub fn scan_json(rows: &Vec<Listed>, warnings: &Vec<String>, version: &str) -> (text: String)
    ensures
        text@ == scan_document(listed_view(rows@), texts(warnings@), version@),
{
    let mut items: Vec<Node> = Vec::new();
    let mut i: usize = 0;
    while i < rows.len()
        invariant
            i <= rows.len(),
            items@.len() == i,
            forall|k: int| 0 <= k < i ==> (#[trigger] items@[k]).model() == library_doc(rows@[k]@),
        decreases rows.len() - i,
    {
        items.push(library_node(&rows[i]));
        i = i + 1;
    }
    assert(nodes_model(items@) =~= library_docs(listed_view(rows@)));
    let complete = warnings.len() == 0;
    let pairs: Vec<(String, Node)> = vec![
        ("schema".to_string(), Node::Number(1)),
        ("tool_version".to_string(), Node::Text(version.to_string())),
        ("complete".to_string(), Node::Bool(complete)),
        ("libraries".to_string(), Node::List(block(), items)),
        ("warnings".to_string(), texts_node(warnings)),
    ];
    assert(members_model(pairs@) =~= scan_doc(
        listed_view(rows@),
        texts(warnings@),
        version@,
    )->Table_1);
    Node::Table(page(), pairs).document()
}

/// A directory and the bytes it takes up.
#[derive(Debug)]
pub struct Measured {
    pub path: FilePath,
    pub bytes: u64,
}

pub type MeasuredView = (Seq<u8>, u64);

pub open spec fn measured_view(list: Seq<Measured>) -> Seq<MeasuredView> {
    Seq::new(list.len(), |i: int| (list[i].path@, list[i].bytes))
}

pub open spec fn held_measure(measured: Option<Measured>) -> Option<MeasuredView> {
    match measured {
        Some(measured) => Some((measured.path@, measured.bytes)),
        None => None,
    }
}

/// What is kept on disk for a library.
#[derive(Debug)]
pub struct Stored {
    pub id: String,
    pub name: String,
    pub live: Option<Measured>,
    pub backups: Vec<Measured>,
    pub leftover: Option<Measured>,
}

pub struct StoredView {
    pub id: Seq<char>,
    pub name: Seq<char>,
    pub live: Option<MeasuredView>,
    pub backups: Seq<MeasuredView>,
    pub leftover: Option<MeasuredView>,
}

impl View for Stored {
    type V = StoredView;

    open spec fn view(&self) -> StoredView {
        StoredView {
            id: self.id@,
            name: self.name@,
            live: held_measure(self.live),
            backups: measured_view(self.backups@),
            leftover: held_measure(self.leftover),
        }
    }
}

pub open spec fn stored_view(list: Seq<Stored>) -> Seq<StoredView> {
    Seq::new(list.len(), |i: int| list[i]@)
}

/// Where a library's live data may be: where its link leads, or what is at its destination.
pub open spec fn live_place(report: ReportView) -> Option<Seq<u8>> {
    match report.state {
        StateView::Repaired { target, .. } => Some(target),
        _ => report.existing_destination,
    }
}

/// Where a library's live data may be; it counts if it is a directory.
pub fn live_path(report: &Report) -> (path: Option<FilePath>)
    ensures
        crate::state::held_path(path) == live_place(report@),
{
    match &report.state {
        State::Repaired { target, .. } => Some(target.copy()),
        _ => match &report.existing_destination {
            Some(path) => Some(path.copy()),
            None => None,
        },
    }
}

/// What an unfinished copy left behind: one onto the destination before one back to the library.
pub open spec fn leftover_place(report: ReportView) -> Option<Seq<u8>> {
    match report.abandoned_copy {
        Some(path) => Some(path),
        None => report.interrupted_restore,
    }
}

pub fn leftover_path(report: &Report) -> (path: Option<FilePath>)
    ensures
        crate::state::held_path(path) == leftover_place(report@),
{
    match &report.abandoned_copy {
        Some(path) => Some(path.copy()),
        None => match &report.interrupted_restore {
            Some(path) => Some(path.copy()),
            None => None,
        },
    }
}

/// Is there anything to say about what is kept for a library?
pub open spec fn keeps_something(row: StoredView) -> bool {
    row.live is Some || row.backups.len() > 0 || row.leftover is Some
}

pub fn is_worth_listing(row: &Stored) -> (is: bool)
    ensures
        is == keeps_something(row@),
{
    row.live.is_some() || row.backups.len() > 0 || row.leftover.is_some()
}

pub open spec fn measure_text(measured: MeasuredView) -> Seq<char> {
    shown(measured.0) + " ("@ + size_text(measured.1 as nat) + ")"@
}

pub open spec fn original_lines(list: Seq<MeasuredView>) -> Seq<Seq<char>> {
    Seq::new(list.len(), |i: int| "      original    "@ + measure_text(list[i]))
}

pub open spec fn stored_lines(row: StoredView) -> Seq<Seq<char>> {
    seq![""@, "  ["@ + row.id + "] "@ + row.name] + (match row.live {
        Some(live) => seq!["      live        "@ + measure_text(live)],
        None => Seq::empty(),
    }) + original_lines(row.backups) + (match row.leftover {
        Some(left) => seq![
            "      unfinished  "@ + measure_text(left) + ", left by a copy that stopped"@,
        ],
        None => Seq::empty(),
    })
}

pub open spec fn all_stored_lines(rows: Seq<StoredView>) -> Seq<Seq<char>>
    decreases rows.len(),
{
    if rows.len() == 0 {
        Seq::empty()
    } else {
        all_stored_lines(rows.drop_last()) + stored_lines(rows.last())
    }
}

/// What is taking up space and where, so retained originals can be found and understood before anyone
/// decides to delete one.
pub open spec fn storage_lines(rows: Seq<StoredView>) -> Seq<Seq<char>> {
    if rows.len() == 0 {
        seq!["Nothing stored by LibraryBridge yet."@]
    } else {
        all_stored_lines(rows) + seq![
            ""@,
            "Originals are kept on purpose. Once a game has launched and loaded a save from the"@,
            "live copy, `librarybridge backup` can remove them."@,
        ]
    }
}

fn measure(measured: &Measured) -> (text: String)
    ensures
        text@ == measure_text((measured.path@, measured.bytes)),
{
    let mut text = measured.path.display();
    text.push_str(" (");
    text.push_str(human_bytes(measured.bytes).as_str());
    text.push_str(")");
    text
}

fn add_stored(lines: &mut Vec<String>, row: &Stored)
    ensures
        texts(final(lines)@) == texts(old(lines)@) + stored_lines(row@),
{
    let ghost before = texts(lines@);
    let ghost wanted = stored_lines(row@);
    add_text(lines, "".to_string());
    let mut title = with("  [", row.id.as_str());
    title.push_str("] ");
    title.push_str(row.name.as_str());
    add_text(lines, title);
    if let Some(live) = &row.live {
        add_text(lines, with("      live        ", measure(live).as_str()));
    }
    let ghost head = texts(lines@);
    let ghost originals = original_lines(row@.backups);
    let mut i: usize = 0;
    assert(head + originals.take(0) =~= head);
    while i < row.backups.len()
        invariant
            i <= row.backups.len(),
            originals == original_lines(measured_view(row.backups@)),
            texts(lines@) == head + originals.take(i as int),
        decreases row.backups.len() - i,
    {
        let text = with("      original    ", measure(&row.backups[i]).as_str());
        assert(text@ == originals[i as int]);
        add_text(lines, text);
        assert(head + originals.take(i + 1) =~= (head + originals.take(i as int)).push(
            originals[i as int],
        ));
        i = i + 1;
    }
    assert(originals.take(i as int) =~= originals);
    if let Some(left) = &row.leftover {
        let mut text = with("      unfinished  ", measure(left).as_str());
        text.push_str(", left by a copy that stopped");
        add_text(lines, text);
    }
    assert(texts(lines@) =~= before + wanted);
}

/// What is kept for the libraries that something is kept for. Sizes are measured on demand rather than
/// during every scan, because walking every backup on a slow external drive is not something a listing
/// should do.
pub fn storage(rows: &Vec<Stored>) -> (lines: Vec<String>)
    ensures
        texts(lines@) == storage_lines(stored_view(rows@)),
{
    let ghost all = stored_view(rows@);
    let ghost wanted = storage_lines(all);
    let mut lines: Vec<String> = Vec::new();
    if rows.len() == 0 {
        add_text(&mut lines, "Nothing stored by LibraryBridge yet.".to_string());
        assert(texts(lines@) =~= wanted);
        return lines;
    }
    let mut i: usize = 0;
    assert(texts(lines@) =~= all_stored_lines(all.take(0)));
    while i < rows.len()
        invariant
            i <= rows.len(),
            all == stored_view(rows@),
            texts(lines@) == all_stored_lines(all.take(i as int)),
        decreases rows.len() - i,
    {
        assert(all.take(i + 1).drop_last() =~= all.take(i as int));
        assert(all.take(i + 1).last() == rows@[i as int]@);
        add_stored(&mut lines, &rows[i]);
        i = i + 1;
    }
    assert(all.take(i as int) =~= all);
    add_text(&mut lines, "".to_string());
    add_text(
        &mut lines,
        "Originals are kept on purpose. Once a game has launched and loaded a save from the".to_string(),
    );
    add_text(&mut lines, "live copy, `librarybridge backup` can remove them.".to_string());
    assert(texts(lines@) =~= wanted);
    lines
}

pub open spec fn measure_doc(measured: MeasuredView) -> Doc {
    Doc::Table(
        row_gaps(),
        seq![("path"@, Doc::Text(shown(measured.0))), ("bytes"@, Doc::Number(measured.1))],
    )
}

pub open spec fn measure_or_null(measured: Option<MeasuredView>) -> Doc {
    match measured {
        Some(measured) => measure_doc(measured),
        None => Doc::Null,
    }
}

pub open spec fn measure_docs(list: Seq<MeasuredView>) -> Seq<Doc> {
    Seq::new(list.len(), |i: int| measure_doc(list[i]))
}

/// What is kept for a library, in a document.
pub open spec fn stored_doc(row: StoredView) -> Doc {
    Doc::Table(
        entry_gaps(),
        seq![
            ("id"@, Doc::Text(row.id)),
            ("name"@, Doc::Text(row.name)),
            ("live"@, measure_or_null(row.live)),
            ("backups"@, Doc::List(row_gaps(), measure_docs(row.backups))),
            ("leftover"@, measure_or_null(row.leftover)),
        ],
    )
}

pub open spec fn stored_docs(rows: Seq<StoredView>) -> Seq<Doc> {
    Seq::new(rows.len(), |i: int| stored_doc(rows[i]))
}

/// The layout of the libraries: of none, two line feeds are left.
pub open spec fn storage_gaps(none: bool) -> Gaps {
    if none {
        Gaps { first: ""@, between: ""@, end: "\n\n  "@ }
    } else {
        block_gaps()
    }
}

pub open spec fn storage_doc(rows: Seq<StoredView>) -> Doc {
    Doc::Table(
        page_gaps(),
        seq![
            ("schema"@, Doc::Number(1)),
            ("libraries"@, Doc::List(storage_gaps(rows.len() == 0), stored_docs(rows))),
        ],
    )
}

/// What is kept, as a document.
pub open spec fn storage_document(rows: Seq<StoredView>) -> Seq<char> {
    written(storage_doc(rows))
}

fn measure_node(measured: &Measured) -> (node: Node)
    ensures
        node.model() == measure_doc((measured.path@, measured.bytes)),
{
    let pairs: Vec<(String, Node)> = vec![
        ("path".to_string(), Node::Text(measured.path.display())),
        ("bytes".to_string(), Node::Number(measured.bytes)),
    ];
    assert(members_model(pairs@) =~= measure_doc((measured.path@, measured.bytes))->Table_1);
    Node::Table(row(), pairs)
}

fn measure_node_or_null(measured: &Option<Measured>) -> (node: Node)
    ensures
        node.model() == measure_or_null(held_measure(*measured)),
{
    match measured {
        Some(measured) => measure_node(measured),
        None => Node::Null,
    }
}

fn stored_node(stored: &Stored) -> (node: Node)
    ensures
        node.model() == stored_doc(stored@),
{
    let mut backups: Vec<Node> = Vec::new();
    let mut i: usize = 0;
    while i < stored.backups.len()
        invariant
            i <= stored.backups.len(),
            backups@.len() == i,
            forall|k: int|
                0 <= k < i ==> (#[trigger] backups@[k]).model() == measure_doc(
                    (stored.backups@[k].path@, stored.backups@[k].bytes),
                ),
        decreases stored.backups.len() - i,
    {
        backups.push(measure_node(&stored.backups[i]));
        i = i + 1;
    }
    assert(nodes_model(backups@) =~= measure_docs(stored@.backups));
    let pairs: Vec<(String, Node)> = vec![
        ("id".to_string(), Node::Text(stored.id.clone())),
        ("name".to_string(), Node::Text(stored.name.clone())),
        ("live".to_string(), measure_node_or_null(&stored.live)),
        ("backups".to_string(), Node::List(row(), backups)),
        ("leftover".to_string(), measure_node_or_null(&stored.leftover)),
    ];
    assert(members_model(pairs@) =~= stored_doc(stored@)->Table_1);
    Node::Table(entry(), pairs)
}

/// What is kept, as a document for other programs.
pub fn storage_json(rows: &Vec<Stored>) -> (text: String)
    ensures
        text@ == storage_document(stored_view(rows@)),
{
    let mut items: Vec<Node> = Vec::new();
    let mut i: usize = 0;
    while i < rows.len()
        invariant
            i <= rows.len(),
            items@.len() == i,
            forall|k: int| 0 <= k < i ==> (#[trigger] items@[k]).model() == stored_doc(rows@[k]@),
        decreases rows.len() - i,
    {
        items.push(stored_node(&rows[i]));
        i = i + 1;
    }
    assert(nodes_model(items@) =~= stored_docs(stored_view(rows@)));
    let layout = if rows.len() == 0 {
        Layout { first: "", between: "", end: "\n\n  " }
    } else {
        block()
    };
    let pairs: Vec<(String, Node)> = vec![
        ("schema".to_string(), Node::Number(1)),
        ("libraries".to_string(), Node::List(layout, items)),
    ];
    assert(members_model(pairs@) =~= storage_doc(stored_view(rows@))->Table_1);
    Node::Table(page(), pairs).document()
}

} // verus!
