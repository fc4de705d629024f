//! The plan of a repair: what it is about to do, for people and for programs, and a short identity by
//! which it can be told that it is still the plan that was reviewed.

use vstd::prelude::*;
use vstd::utf8::{decode_utf8, encode_utf8, encode_utf8_decode_utf8};

use crate::document::{
    members_model, number_or_null, page, page_gaps, texts_doc, texts_node, written, Doc, Node,
};
use crate::fsops::{human_bytes, low_first, size_text};
use crate::path::{shown, FilePath};
use crate::protocol::GROWTH_RESERVE;
use crate::sha256::{digest, hex, hex_text, Sha256};
use crate::state::{Report, ReportView, State, StateView};
use crate::steam::{app_place, apps_view, has_app, install_label, AppList, InstallKind, Library, LibraryView};
use crate::system::{Mount, MountView};
use crate::text::{
    add_text, chars_of, decimal, decimal_text, join, joined, sort_texts, sorted_texts, string_of, texts,
};

verus! {

/// What is about to happen: from where to where, how much, and what it means.
#[derive(Debug)]
pub struct Plan {
    pub target: FilePath,
    /// What the original will be renamed to.
    pub backup: FilePath,
    /// What anything at the destination will be renamed to.
    pub previous: FilePath,
    pub copy_bytes: u64,
    pub available: Option<u64>,
    pub installed_games: usize,
    pub prefixes: usize,
    /// Folders with no installed game.
    pub unknown: Vec<String>,
    /// How many files have more than one name.
    pub hard_linked: usize,
    pub fingerprint: String,
}

pub struct PlanView {
    pub target: Seq<u8>,
    pub backup: Seq<u8>,
    pub previous: Seq<u8>,
    pub copy_bytes: u64,
    pub available: Option<u64>,
    pub installed_games: usize,
    pub prefixes: usize,
    pub unknown: Seq<Seq<char>>,
    pub hard_linked: usize,
    pub fingerprint: Seq<char>,
}

impl View for Plan {
    type V = PlanView;

    open spec fn view(&self) -> PlanView {
        PlanView {
            target: self.target@,
            backup: self.backup@,
            previous: self.previous@,
            copy_bytes: self.copy_bytes,
            available: self.available,
            installed_games: self.installed_games,
            prefixes: self.prefixes,
            unknown: texts(self.unknown@),
            hard_linked: self.hard_linked,
            fingerprint: self.fingerprint@,
        }
    }
}

/// The folders that no installed game is behind.
pub open spec fn unknown_among(folders: Seq<Seq<char>>, installed: AppList) -> Seq<Seq<char>>
    decreases folders.len(),
{
    if folders.len() == 0 {
        Seq::empty()
    } else {
        let before = unknown_among(folders.drop_last(), installed);
        if app_place(installed, folders.last()) is None {
            before.push(folders.last())
        } else {
            before
        }
    }
}

/// The prefix folders that no installed game is behind, in order. What the library actually holds is
/// visible before a repair is approved, rather than summarised as a number of bytes.
pub fn unknown_folders(folders: &Vec<String>, installed: &Vec<(String, String)>) -> (unknown: Vec<
    String,
>)
    ensures
        texts(unknown@) == sorted_texts(unknown_among(texts(folders@), apps_view(installed@))),
{
    let ghost all = texts(folders@);
    let mut unknown: Vec<String> = Vec::new();
    let mut i: usize = 0;
    assert(texts(unknown@) =~= unknown_among(all.take(0), apps_view(installed@)));
    while i < folders.len()
        invariant
            i <= folders.len(),
            all == texts(folders@),
            texts(unknown@) == unknown_among(all.take(i as int), apps_view(installed@)),
        decreases folders.len() - i,
    {
        assert(all.take(i + 1).drop_last() =~= all.take(i as int));
        assert(all.take(i + 1).last() == folders@[i as int]@);
        if !has_app(installed, folders[i].as_str()) {
            add_text(&mut unknown, folders[i].clone());
        }
        i = i + 1;
    }
    assert(all.take(i as int) =~= all);
    sort_texts(&unknown)
}

/// A text with a zero byte behind it.
pub open spec fn part(text: Seq<char>) -> Seq<u8> {
    encode_utf8(text) + seq![0u8]
}

/// What a plan's identity is made of: which library, from where, to where, in what state, how much data,
/// and what it contains.
pub open spec fn plan_bytes(
    library: LibraryView,
    state: StateView,
    target: Seq<u8>,
    entries: u64,
    bytes: u64,
    contents: Seq<char>,
) -> Seq<u8> {
    part(library.id) + (part(shown(library.path)) + (part(shown(library.compatdata)) + (part(
        shown(target),
    ) + (part(state.code()) + (low_first(entries) + (low_first(bytes) + encode_utf8(contents)))))))
}

pub open spec fn fingerprint_of(plan: Seq<u8>) -> Seq<char> {
    hex_text(digest(plan)).take(16)
}

fn feed_part(hasher: &mut Sha256, text: &str)
    requires
        old(hasher).wf(),
    ensures
        final(hasher).wf(),
        final(hasher)@ == old(hasher)@ + part(text@),
{
    let ghost before = hasher@;
    hasher.update(text.as_bytes());
    let zero: [u8; 1] = [0];
    assert(zero@ =~= seq![0u8]);
    hasher.update(zero.as_slice());
    assert(hasher@ =~= before + part(text@));
}

fn feed_number(hasher: &mut Sha256, n: u64)
    requires
        old(hasher).wf(),
    ensures
        final(hasher).wf(),
        final(hasher)@ == old(hasher)@ + low_first(n),
{
    let bytes: [u8; 8] = [
        n as u8,
        (n >> 8u64) as u8,
        (n >> 16u64) as u8,
        (n >> 24u64) as u8,
        (n >> 32u64) as u8,
        (n >> 40u64) as u8,
        (n >> 48u64) as u8,
        (n >> 56u64) as u8,
    ];
    assert(bytes@ =~= low_first(n));
    hasher.update(bytes.as_slice());
}

/// A short identity for what is about to happen. `contents` is the digest of the data: content changes
/// are caught even when file count and total bytes stay the same.
pub fn plan_fingerprint(
    library: &Library,
    report: &Report,
    target: &FilePath,
    entries: u64,
    bytes: u64,
    contents: &str,
) -> (fingerprint: String)
    ensures
        fingerprint@ == fingerprint_of(
            plan_bytes(library@, report@.state, target@, entries, bytes, contents@),
        ),
{
    let mut hasher = Sha256::new();
    feed_part(&mut hasher, library.id.as_str());
    feed_part(&mut hasher, library.path.display().as_str());
    feed_part(&mut hasher, library.compatdata.display().as_str());
    feed_part(&mut hasher, target.display().as_str());
    feed_part(&mut hasher, report.state.code());
    feed_number(&mut hasher, entries);
    feed_number(&mut hasher, bytes);
    hasher.update(contents.as_bytes());
    assert(hasher@ =~= plan_bytes(library@, report@.state, target@, entries, bytes, contents@));
    let sum = hasher.finish();
    let text = hex(sum.as_slice());
    let chars = chars_of(text.as_str());
    assert(chars@.subrange(0, 16) =~= chars@.take(16));
    string_of(vstd::slice::slice_subrange(chars.as_slice(), 0, 16))
}

proof fn lemma_parts_apart(a: Seq<u8>, x: Seq<u8>, b: Seq<u8>, y: Seq<u8>)
    requires
        !a.contains(0),
        !b.contains(0),
        (a + seq![0u8]) + x == (b + seq![0u8]) + y,
    ensures
        a == b,
        x == y,
{
    let left = (a + seq![0u8]) + x;
    let right = (b + seq![0u8]) + y;
    assert(left[a.len() as int] == 0);
    assert(right[b.len() as int] == 0);
    if a.len() < b.len() {
        assert(right[a.len() as int] == b[a.len() as int]);
        assert(b.contains(0));
    }
    if b.len() < a.len() {
        assert(left[b.len() as int] == a[b.len() as int]);
        assert(a.contains(0));
    }
    assert forall|i: int| 0 <= i < a.len() implies a[i] == b[i] by {
        assert(left[i] == a[i]);
        assert(right[i] == b[i]);
    }
    assert(a =~= b);
    assert(left.skip(a.len() as int + 1) =~= x);
    assert(right.skip(b.len() as int + 1) =~= y);
}

proof fn lemma_numbers_apart(m: u64, x: Seq<u8>, n: u64, y: Seq<u8>)
    requires
        low_first(m) + x == low_first(n) + y,
    ensures
        m == n,
        x == y,
{
    let left = low_first(m) + x;
    let right = low_first(n) + y;
    assert forall|i: int| 0 <= i < 8 implies low_first(m)[i] == low_first(n)[i] by {
        assert(left[i] == low_first(m)[i]);
        assert(right[i] == low_first(n)[i]);
    }
    assert(low_first(m)[0] == low_first(n)[0] && low_first(m)[1] == low_first(n)[1] && low_first(m)[2]
        == low_first(n)[2] && low_first(m)[3] == low_first(n)[3] && low_first(m)[4] == low_first(n)[4]
        && low_first(m)[5] == low_first(n)[5] && low_first(m)[6] == low_first(n)[6] && low_first(m)[7]
        == low_first(n)[7]);
    assert(m == n) by (bit_vector)
        requires
            m as u8 == n as u8,
            (m >> 8u64) as u8 == (n >> 8u64) as u8,
            (m >> 16u64) as u8 == (n >> 16u64) as u8,
            (m >> 24u64) as u8 == (n >> 24u64) as u8,
            (m >> 32u64) as u8 == (n >> 32u64) as u8,
            (m >> 40u64) as u8 == (n >> 40u64) as u8,
            (m >> 48u64) as u8 == (n >> 48u64) as u8,
            (m >> 56u64) as u8 == (n >> 56u64) as u8,
    ;
    assert(left.skip(8) =~= x);
    assert(right.skip(8) =~= y);
}

/// No text of a plan has a zero byte in it.
pub open spec fn plain_parts(library: LibraryView, state: StateView, target: Seq<u8>) -> bool {
    &&& !encode_utf8(library.id).contains(0)
    &&& !encode_utf8(shown(library.path)).contains(0)
    &&& !encode_utf8(shown(library.compatdata)).contains(0)
    &&& !encode_utf8(shown(target)).contains(0)
    &&& !encode_utf8(state.code()).contains(0)
}

/// Anything that would change the operation changes what its identity is made of.
pub proof fn law_plan_tells_operations_apart(
    l1: LibraryView,
    s1: StateView,
    t1: Seq<u8>,
    e1: u64,
    b1: u64,
    c1: Seq<char>,
    l2: LibraryView,
    s2: StateView,
    t2: Seq<u8>,
    e2: u64,
    b2: u64,
    c2: Seq<char>,
)
    requires
        plain_parts(l1, s1, t1),
        plain_parts(l2, s2, t2),
        plan_bytes(l1, s1, t1, e1, b1, c1) == plan_bytes(l2, s2, t2, e2, b2, c2),
    ensures
        l1.id == l2.id,
        shown(l1.path) == shown(l2.path),
        shown(l1.compatdata) == shown(l2.compatdata),
        shown(t1) == shown(t2),
        s1.code() == s2.code(),
        e1 == e2,
        b1 == b2,
        c1 == c2,
{
    let n1 = encode_utf8(c1);
    let m1 = low_first(b1) + n1;
    let k1 = low_first(e1) + m1;
    let j1 = part(s1.code()) + k1;
    let i1 = part(shown(t1)) + j1;
    let h1 = part(shown(l1.compatdata)) + i1;
    let g1 = part(shown(l1.path)) + h1;
    let n2 = encode_utf8(c2);
    let m2 = low_first(b2) + n2;
    let k2 = low_first(e2) + m2;
    let j2 = part(s2.code()) + k2;
    let i2 = part(shown(t2)) + j2;
    let h2 = part(shown(l2.compatdata)) + i2;
    let g2 = part(shown(l2.path)) + h2;
    lemma_parts_apart(encode_utf8(l1.id), g1, encode_utf8(l2.id), g2);
    lemma_parts_apart(encode_utf8(shown(l1.path)), h1, encode_utf8(shown(l2.path)), h2);
    lemma_parts_apart(encode_utf8(shown(l1.compatdata)), i1, encode_utf8(shown(l2.compatdata)), i2);
    lemma_parts_apart(encode_utf8(shown(t1)), j1, encode_utf8(shown(t2)), j2);
    lemma_parts_apart(encode_utf8(s1.code()), k1, encode_utf8(s2.code()), k2);
    lemma_numbers_apart(e1, m1, e2, m2);
    lemma_numbers_apart(b1, n1, b2, n2);
    encode_utf8_decode_utf8(l1.id);
    encode_utf8_decode_utf8(l2.id);
    encode_utf8_decode_utf8(shown(l1.path));
    encode_utf8_decode_utf8(shown(l2.path));
    encode_utf8_decode_utf8(shown(l1.compatdata));
    encode_utf8_decode_utf8(shown(l2.compatdata));
    encode_utf8_decode_utf8(shown(t1));
    encode_utf8_decode_utf8(shown(t2));
    encode_utf8_decode_utf8(s1.code());
    encode_utf8_decode_utf8(s2.code());
    encode_utf8_decode_utf8(c1);
    encode_utf8_decode_utf8(c2);
}

/// What a repair means beyond what it does.
pub open spec fn consequences_of(kind: InstallKind, hard_linked: usize) -> Seq<Seq<char>> {
    seq!["Game installation files stay on the game drive."@] + (if kind == InstallKind::Flatpak {
        seq![
            "The data will live inside Steam's Flatpak directory. Removing Steam and its data would remove it too."@,
        ]
    } else {
        Seq::empty()
    }) + (if hard_linked > 0 {
        seq![
            decimal_text(hard_linked as nat)
                + " files have more than one name. The copy keeps each of them one file."@,
        ]
    } else {
        Seq::empty()
    })
}

/// What would be free after the copy.
pub open spec fn remaining(available: Option<u64>, copy: u64) -> Option<u64> {
    match available {
        Some(free) => if free >= copy {
            Some((free - copy) as u64)
        } else {
            Some(0)
        },
        None => None,
    }
}

/// The plan as a document.
pub open spec fn plan_doc(library: LibraryView, state: StateView, plan: PlanView) -> Doc {
    Doc::Table(
        page_gaps(),
        seq![
            ("schema"@, Doc::Number(1)),
            ("fingerprint"@, Doc::Text(plan.fingerprint)),
            ("kind"@, Doc::Text("repair"@)),
            ("library_id"@, Doc::Text(library.id)),
            ("library"@, Doc::Text(shown(library.path))),
            ("state"@, Doc::Text(state.code())),
            ("steam"@, Doc::Text(install_label(library.install_kind))),
            ("source"@, Doc::Text(shown(library.compatdata))),
            ("destination"@, Doc::Text(shown(plan.target))),
            ("backup"@, Doc::Text(shown(plan.backup))),
            ("copy_bytes"@, Doc::Number(plan.copy_bytes)),
            ("reserve_bytes"@, Doc::Number(GROWTH_RESERVE)),
            ("available_bytes"@, number_or_null(plan.available)),
            (
                "expected_remaining_bytes"@,
                number_or_null(remaining(plan.available, plan.copy_bytes)),
            ),
            ("installed_games"@, Doc::Number(plan.installed_games as u64)),
            ("prefix_folders"@, Doc::Number(plan.prefixes as u64)),
            ("unknown_folders"@, texts_doc(plan.unknown)),
            (
                "consequences"@,
                texts_doc(consequences_of(library.install_kind, plan.hard_linked)),
            ),
        ],
    )
}

pub open spec fn plan_document(library: LibraryView, state: StateView, plan: PlanView) -> Seq<char> {
    written(plan_doc(library, state, plan))
}

fn consequences(kind: InstallKind, hard_linked: usize) -> (list: Vec<String>)
    ensures
        texts(list@) == consequences_of(kind, hard_linked),
{
    let mut list: Vec<String> = Vec::new();
    list.push("Game installation files stay on the game drive.".to_string());
    if kind == InstallKind::Flatpak {
        list.push(
            "The data will live inside Steam's Flatpak directory. Removing Steam and its data would remove it too.".to_string(),
        );
    }
    if hard_linked > 0 {
        let mut text = decimal(hard_linked as u64);
        text.push_str(" files have more than one name. The copy keeps each of them one file.");
        list.push(text);
    }
    assert(texts(list@) =~= consequences_of(kind, hard_linked));
    list
}

fn number_node(n: Option<u64>) -> (node: Node)
    ensures
        node.model() == number_or_null(n),
{
    match n {
        Some(n) => Node::Number(n),
        None => Node::Null,
    }
}

/// The reviewed plan as data, so a frontend does not have to read prose to find out what is about to
/// happen.
pub fn plan_json(library: &Library, report: &Report, plan: &Plan) -> (text: String)
    ensures
        text@ == plan_document(library@, report@.state, plan@),
{
    let left: Option<u64> = match plan.available {
        Some(free) => if free >= plan.copy_bytes {
            Some(free - plan.copy_bytes)
        } else {
            Some(0)
        },
        None => None,
    };
    let pairs: Vec<(String, Node)> = vec![
        ("schema".to_string(), Node::Number(1)),
        ("fingerprint".to_string(), Node::Text(plan.fingerprint.clone())),
        ("kind".to_string(), Node::Text("repair".to_string())),
        ("library_id".to_string(), Node::Text(library.id.clone())),
        ("library".to_string(), Node::Text(library.path.display())),
        ("state".to_string(), Node::Text(report.state.code().to_string())),
        ("steam".to_string(), Node::Text(library.install_kind.label().to_string())),
        ("source".to_string(), Node::Text(library.compatdata.display())),
        ("destination".to_string(), Node::Text(plan.target.display())),
        ("backup".to_string(), Node::Text(plan.backup.display())),
        ("copy_bytes".to_string(), Node::Number(plan.copy_bytes)),
        ("reserve_bytes".to_string(), Node::Number(GROWTH_RESERVE)),
        ("available_bytes".to_string(), number_node(plan.available)),
        ("expected_remaining_bytes".to_string(), number_node(left)),
        ("installed_games".to_string(), Node::Number(plan.installed_games as u64)),
        ("prefix_folders".to_string(), Node::Number(plan.prefixes as u64)),
        ("unknown_folders".to_string(), texts_node(&plan.unknown)),
        (
            "consequences".to_string(),
            texts_node(&consequences(library.install_kind, plan.hard_linked)),
        ),
    ];
    assert(members_model(pairs@) =~= plan_doc(library@, report@.state, plan@)->Table_1);
    Node::Table(page(), pairs).document()
}

pub open spec fn unknown_lines(unknown: Seq<Seq<char>>) -> Seq<Seq<char>> {
    if unknown.len() == 0 {
        Seq::empty()
    } else {
        seq![
            "Unknown     "@ + decimal_text(unknown.len()) + " folders with no installed game: "@
                + joined(unknown, ", "@),
        ]
    }
}

pub open spec fn shared_lines(hard_linked: usize) -> Seq<Seq<char>> {
    if hard_linked == 0 {
        Seq::empty()
    } else {
        seq![
            "Note        "@ + decimal_text(hard_linked as nat)
                + " files have more than one name; the copy keeps each of them one file"@,
        ]
    }
}

pub open spec fn filesystem_text(mount: Option<MountView>) -> Seq<char> {
    match mount {
        Some(mount) => mount.described(),
        None => "unknown"@,
    }
}

/// The plan in words.
pub open spec fn plan_lines(
    library: LibraryView,
    report: ReportView,
    mount: Option<MountView>,
    plan: PlanView,
) -> Seq<Seq<char>> {
    (if plan.available is None {
        seq!["Space       could not be checked on this system"@]
    } else {
        Seq::empty()
    }) + seq![
        "Games       "@ + decimal_text(plan.installed_games as nat) + " installed, "@ + decimal_text(
            plan.prefixes as nat,
        ) + " prefix folders"@,
    ] + unknown_lines(plan.unknown) + shared_lines(plan.hard_linked) + seq![
        "Filesystem  "@ + filesystem_text(mount),
        "Source      "@ + shown(library.compatdata),
        "Destination "@ + shown(plan.target),
        "To copy     "@ + size_text(plan.copy_bytes as nat),
    ] + (if report.existing_destination is Some {
        seq![
            "Note        a copy is already at the destination and will be renamed to "@ + shown(
                plan.previous,
            ),
        ]
    } else {
        Seq::empty()
    }) + seq![
        if report.state is NotRepaired {
            "Backup      "@ + shown(plan.backup) + " (the original, kept in place)"@
        } else {
            "Backup      not needed, this library has no Proton data yet"@
        },
        "Plan        "@ + plan.fingerprint,
        "Checks      symlink support is tested when you apply; path containment is enforced by the kernel"@,
    ]
}

fn with(first: &str, second: &str) -> (text: String)
    ensures
        text@ == first@ + second@,
{
    let mut text = first.to_string();
    text.push_str(second);
    text
}

/// The plan as it is shown before it is approved.
pub fn describe(library: &Library, report: &Report, mount: Option<&Mount>, plan: &Plan) -> (lines: Vec<
    String,
>)
    ensures
        texts(lines@) == plan_lines(
            library@,
            report@,
            match mount {
                Some(mount) => Some(mount@),
                None => None,
            },
            plan@,
        ),
{
    let ghost wanted = plan_lines(
        library@,
        report@,
        match mount {
            Some(mount) => Some(mount@),
            None => None,
        },
        plan@,
    );
    let mut lines: Vec<String> = Vec::new();
    if plan.available.is_none() {
        add_text(&mut lines, "Space       could not be checked on this system".to_string());
    }
    let mut games = with("Games       ", decimal(plan.installed_games as u64).as_str());
    games.push_str(" installed, ");
    games.push_str(decimal(plan.prefixes as u64).as_str());
    games.push_str(" prefix folders");
    add_text(&mut lines, games);
    if plan.unknown.len() > 0 {
        let mut text = with("Unknown     ", decimal(plan.unknown.len() as u64).as_str());
        text.push_str(" folders with no installed game: ");
        text.push_str(join(&plan.unknown, ", ").as_str());
        add_text(&mut lines, text);
    }
    if plan.hard_linked > 0 {
        let mut text = with("Note        ", decimal(plan.hard_linked as u64).as_str());
        text.push_str(" files have more than one name; the copy keeps each of them one file");
        add_text(&mut lines, text);
    }
    match mount {
        Some(mount) => add_text(&mut lines, with("Filesystem  ", mount.describe().as_str())),
        None => add_text(&mut lines, with("Filesystem  ", "unknown")),
    }
    add_text(&mut lines, with("Source      ", library.compatdata.display().as_str()));
    add_text(&mut lines, with("Destination ", plan.target.display().as_str()));
    add_text(&mut lines, with("To copy     ", human_bytes(plan.copy_bytes).as_str()));
    if report.existing_destination.is_some() {
        add_text(
            &mut lines,
            with(
                "Note        a copy is already at the destination and will be renamed to ",
                plan.previous.display().as_str(),
            ),
        );
    }
    match &report.state {
        State::NotRepaired { .. } => {
            let mut text = with("Backup      ", plan.backup.display().as_str());
            text.push_str(" (the original, kept in place)");
            add_text(&mut lines, text);
        },
        _ => {
            add_text(
                &mut lines,
                "Backup      not needed, this library has no Proton data yet".to_string(),
            );
        },
    }
    add_text(&mut lines, with("Plan        ", plan.fingerprint.as_str()));
    add_text(
        &mut lines,
        "Checks      symlink support is tested when you apply; path containment is enforced by the kernel".to_string(),
    );
    assert(texts(lines@) =~= wanted);
    lines
}

} // verus!
