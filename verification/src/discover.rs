//! Finding installed games that Lutris does not know about.
//!
//! Providers run in descending order of confidence. Nothing discovered here is ever executed; files are
//! only listed and read.

use vstd::prelude::*;
use vstd::utf8::encode_utf8;

use crate::cli::held_text;
use crate::path::{
    inside, is_name, last_name, law_join_adds_steps, law_names_stay_inside, lemma_name_parts, paths_view, parent_of,
        parts,
    shown, under, FilePath,
};
use crate::sort::{in_order, keys_view, lemma_order_of, order, order_of};
use crate::state::held_path;
use crate::steam::{id_of, short_id};
use crate::text::{
    add_text, ascii_lower, before_suffix, chars_of, contains, decimal, decimal_text, holds, lossy,
    lower_char, lowercase, lowercase_text, same, starts_with, texts, trim, trimmed, utf8_text,
};

verus! {

pub const MAX_DEPTH: usize = 6;

pub const MAX_ENTRIES_PER_FOLDER: usize = 40_000;

#[derive(Debug, Clone, Copy, PartialEq, Eq, Structural)]
pub enum Confidence {
    Low,
    Medium,
    High,
}

pub open spec fn confidence_label(confidence: Confidence) -> Seq<char> {
    match confidence {
        Confidence::High => "high"@,
        Confidence::Medium => "medium"@,
        Confidence::Low => "low"@,
    }
}

impl Confidence {
    pub fn label(self) -> (label: &'static str)
        ensures
            label@ == confidence_label(self),
    {
        match self {
            Confidence::High => "high",
            Confidence::Medium => "medium",
            Confidence::Low => "low",
        }
    }
}

#[derive(Debug)]
pub struct Candidate {
    pub id: String,
    pub name: String,
    pub runner: String,
    pub source: &'static str,
    pub exe: Option<FilePath>,
    pub appid: Option<String>,
    pub prefix: Option<FilePath>,
    pub working_dir: Option<FilePath>,
    pub confidence: Confidence,
    pub reasons: Vec<String>,
    pub in_lutris: bool,
    /// Whether this game can actually be imported. Detection and eligibility are different questions.
    pub eligible: bool,
    pub blocking_reason: Option<String>,
    pub filesystem_warning: Option<String>,
    /// Launch-time pitfalls that can be read off the game folder itself, independent of which filesystem
    /// holds it. These are exactly the kind of thing that makes a freshly imported game close itself
    /// instantly with a clean exit code and no error message.
    pub launch_warnings: Vec<String>,
    /// Other executables in the same folder, for when the guess is wrong.
    pub alternatives: Vec<FilePath>,
}

pub struct CandidateView {
    pub id: Seq<char>,
    pub name: Seq<char>,
    pub runner: Seq<char>,
    pub source: Seq<char>,
    pub exe: Option<Seq<u8>>,
    pub appid: Option<Seq<char>>,
    pub prefix: Option<Seq<u8>>,
    pub working_dir: Option<Seq<u8>>,
    pub confidence: Confidence,
    pub reasons: Seq<Seq<char>>,
    pub in_lutris: bool,
    pub eligible: bool,
    pub blocking_reason: Option<Seq<char>>,
    pub filesystem_warning: Option<Seq<char>>,
    pub launch_warnings: Seq<Seq<char>>,
    pub alternatives: Seq<Seq<u8>>,
}

impl View for Candidate {
    type V = CandidateView;

    open spec fn view(&self) -> CandidateView {
        CandidateView {
            id: self.id@,
            name: self.name@,
            runner: self.runner@,
            source: self.source@,
            exe: held_path(self.exe),
            appid: held_text(self.appid),
            prefix: held_path(self.prefix),
            working_dir: held_path(self.working_dir),
            confidence: self.confidence,
            reasons: texts(self.reasons@),
            in_lutris: self.in_lutris,
            eligible: self.eligible,
            blocking_reason: held_text(self.blocking_reason),
            filesystem_warning: held_text(self.filesystem_warning),
            launch_warnings: texts(self.launch_warnings@),
            alternatives: paths_view(self.alternatives@),
        }
    }
}

pub open spec fn candidates_view(list: Seq<Candidate>) -> Seq<CandidateView> {
    Seq::new(list.len(), |i: int| list[i]@)
}

/// A candidate of which nothing is known but what it is: not looked up in Lutris, and not checked.
pub open spec fn plain_candidate(
    id: Seq<char>,
    name: Seq<char>,
    runner: Seq<char>,
    source: Seq<char>,
    confidence: Confidence,
    reasons: Seq<Seq<char>>,
) -> CandidateView {
    CandidateView {
        id,
        name,
        runner,
        source,
        exe: None,
        appid: None,
        prefix: None,
        working_dir: None,
        confidence,
        reasons,
        in_lutris: false,
        eligible: true,
        blocking_reason: None,
        filesystem_warning: None,
        launch_warnings: Seq::empty(),
        alternatives: Seq::empty(),
    }
}

pub(crate) fn new_candidate(
    id: String,
    name: String,
    runner: &str,
    source: &'static str,
    confidence: Confidence,
    reasons: Vec<String>,
) -> (candidate: Candidate)
    ensures
        candidate@ == plain_candidate(
            id@,
            name@,
            runner@,
            source@,
            confidence,
            texts(reasons@),
        ),
{
    let candidate = Candidate {
        id,
        name,
        runner: runner.to_string(),
        source,
        exe: None,
        appid: None,
        prefix: None,
        working_dir: None,
        confidence,
        reasons,
        in_lutris: false,
        eligible: true,
        blocking_reason: None,
        filesystem_warning: None,
        launch_warnings: Vec::new(),
        alternatives: Vec::new(),
    };
    assert(texts(candidate.launch_warnings@) =~= Seq::empty());
    assert(paths_view(candidate.alternatives@) =~= Seq::empty());
    candidate
}

pub open spec fn letter_or_digit(c: char) -> bool {
    ('a' <= c && c <= 'z') || ('A' <= c && c <= 'Z') || ('0' <= c && c <= '9')
}

/// A text for comparing names: its ASCII letters, in lower case, and its digits.
pub open spec fn normal_name(text: Seq<char>) -> Seq<char>
    decreases text.len(),
{
    if text.len() == 0 {
        Seq::empty()
    } else if letter_or_digit(text.last()) {
        normal_name(text.drop_last()).push(lower_char(text.last()))
    } else {
        normal_name(text.drop_last())
    }
}

pub fn normalize(text: &str) -> (name: String)
    ensures
        name@ == normal_name(text@),
{
    let chars = chars_of(text);
    let mut name = String::new();
    let mut i: usize = 0;
    assert(name@ =~= normal_name(text@.take(0)));
    while i < chars.len()
        invariant
            i <= chars.len(),
            chars@ == text@,
            name@ == normal_name(text@.take(i as int)),
        decreases chars.len() - i,
    {
        assert(text@.take(i + 1).drop_last() =~= text@.take(i as int));
        let c = chars[i];
        if ('a' <= c && c <= 'z') || ('A' <= c && c <= 'Z') || ('0' <= c && c <= '9') {
            name.push(ascii_lower(c));
        }
        i = i + 1;
    }
    assert(text@.take(i as int) =~= text@);
    name
}

proof fn lemma_lower_char(c: char)
    requires
        letter_or_digit(c),
    ensures
        ({
            let l = lower_char(c);
            ('a' <= l && l <= 'z') || ('0' <= l && l <= '9')
        }),
        lower_char(lower_char(c)) == lower_char(c),
{
}

/// Normalizing a name that is normal already changes nothing.
pub proof fn law_normal_names_stay(text: Seq<char>)
    ensures
        normal_name(normal_name(text)) == normal_name(text),
    decreases text.len(),
{
    if text.len() > 0 {
        law_normal_names_stay(text.drop_last());
        let before = normal_name(text.drop_last());
        if letter_or_digit(text.last()) {
            lemma_lower_char(text.last());
            assert(before.push(lower_char(text.last())).drop_last() =~= before);
        }
    }
}

/// Folders that hold no game.
pub const NOISE_DIRS: [&'static str; 12] = [
    "redist",
    "_commonredist",
    "commonredist",
    "directx",
    "dotnet",
    "vcredist",
    "__installer",
    "__redist",
    "prerequisites",
    "prereq",
    "support",
    "steamapps",
];

pub open spec fn noise_name(name: Seq<char>) -> bool {
    "."@.is_prefix_of(name) || exists|i: int| 0 <= i < 12 && (#[trigger] NOISE_DIRS@[i])@ == name
}

/// Is a folder of this name, given in lower case, not worth looking into?
pub fn is_noise_name(name: &str) -> (is: bool)
    ensures
        is == noise_name(name@),
{
    if starts_with(name, ".") {
        return true;
    }
    let mut i: usize = 0;
    while i < 12
        invariant
            i <= 12,
            !"."@.is_prefix_of(name@),
            forall|k: int| 0 <= k < i ==> (#[trigger] NOISE_DIRS@[k])@ != name@,
        decreases 12 - i,
    {
        if same(NOISE_DIRS[i], name) {
            return true;
        }
        i = i + 1;
    }
    false
}

/// The name a path ends in, in lower case; nothing where it ends in none.
pub open spec fn lower_name(path: Seq<u8>) -> Seq<char> {
    match last_name(path) {
        Some(name) => lowercase_text(utf8_text(name)),
        None => ""@,
    }
}

pub(crate) fn name_in_lower_case(path: &FilePath) -> (name: String)
    ensures
        name@ == lower_name(path@),
{
    match path.file_name_text() {
        Some(name) => lowercase(name.as_str()),
        None => "".to_string(),
    }
}

pub fn is_noise_dir(path: &FilePath) -> (is: bool)
    ensures
        is == noise_name(lower_name(path@)),
{
    is_noise_name(name_in_lower_case(path).as_str())
}

/// The last dot of a name that does not stand in front.
pub open spec fn last_dot(name: Seq<u8>, n: int) -> Option<int>
    decreases n,
{
    if n <= 1 {
        None
    } else if name[n - 1] == 46 {
        Some(n - 1)
    } else {
        last_dot(name, n - 1)
    }
}

/// The name a path ends in, up to its last dot.
pub open spec fn stem_of(path: Seq<u8>) -> Option<Seq<u8>> {
    match last_name(path) {
        Some(name) => match last_dot(name, name.len() as int) {
            Some(dot) => Some(name.take(dot)),
            None => Some(name),
        },
        None => None,
    }
}

/// What stands behind the last dot of the name a path ends in.
pub open spec fn extension_of(path: Seq<u8>) -> Option<Seq<u8>> {
    match last_name(path) {
        Some(name) => match last_dot(name, name.len() as int) {
            Some(dot) => Some(name.skip(dot + 1)),
            None => None,
        },
        None => None,
    }
}

fn find_dot(name: &Vec<u8>) -> (dot: Option<usize>)
    ensures
        match last_dot(name@, name@.len() as int) {
            Some(at) => dot is Some && dot->0 == at && 1 <= at < name@.len(),
            None => dot is None,
        },
{
    let mut n: usize = name.len();
    while n > 1
        invariant
            n <= name.len(),
            last_dot(name@, n as int) == last_dot(name@, name@.len() as int),
        decreases n,
    {
        if name[n - 1] == 46 {
            return Some(n - 1);
        }
        n = n - 1;
    }
    None
}

impl FilePath {
    /// `Path::file_stem`.
    pub fn file_stem(&self) -> (stem: Option<Vec<u8>>)
        ensures
            match stem_of(self@) {
                Some(wanted) => stem is Some && stem->0@ == wanted,
                None => stem is None,
            },
    {
        match self.file_name() {
            Some(name) => match find_dot(&name) {
                Some(dot) => {
                    assert(name@.subrange(0, dot as int) =~= name@.take(dot as int));
                    Some(
                        vstd::slice::slice_to_vec(
                            vstd::slice::slice_subrange(name.as_slice(), 0, dot),
                        ),
                    )
                },
                None => Some(name),
            },
            None => None,
        }
    }

    /// `Path::extension`.
    pub fn extension(&self) -> (extension: Option<Vec<u8>>)
        ensures
            match extension_of(self@) {
                Some(wanted) => extension is Some && extension->0@ == wanted,
                None => extension is None,
            },
    {
        match self.file_name() {
            Some(name) => match find_dot(&name) {
                Some(dot) => {
                    let length: usize = name.len();
                    assert(name@.subrange(dot + 1, name@.len() as int) =~= name@.skip(dot + 1));
                    Some(
                        vstd::slice::slice_to_vec(
                            vstd::slice::slice_subrange(name.as_slice(), dot + 1, length),
                        ),
                    )
                },
                None => None,
            },
            None => None,
        }
    }
}

pub open spec fn lower_byte(byte: u8) -> u8 {
    if 65 <= byte <= 90 {
        (byte + 32) as u8
    } else {
        byte
    }
}

/// Is it a program for Windows, by its extension?
pub open spec fn windows_program(path: Seq<u8>) -> bool {
    match extension_of(path) {
        Some(e) => e.len() == 3 && lower_byte(e[0]) == 101 && lower_byte(e[1]) == 120 && lower_byte(e[2])
            == 101,
        None => false,
    }
}

pub fn is_windows_exe(path: &FilePath) -> (is: bool)
    ensures
        is == windows_program(path@),
{
    match path.extension() {
        Some(e) => e.len() == 3 && (e[0] == 101 || e[0] == 69) && (e[1] == 120 || e[1] == 88) && (e[2]
            == 101 || e[2] == 69),
        None => false,
    }
}

/// Executables that are never the game.
pub const NEVER: [&'static str; 16] = [
    "unins",
    "uninstall",
    "setup",
    "vcredist",
    "dxsetup",
    "dxwebsetup",
    "directx",
    "dotnetfx",
    "oalinst",
    "crashreport",
    "crashpad",
    "prereq",
    "vc_redist",
    "quicksfv",
    "cleanup",
    "dependencies",
];

/// Executables that exist alongside the game but are usually not it.
pub const UNLIKELY: [&'static str; 8] = [
    "launcher",
    "config",
    "settings",
    "editor",
    "server",
    "updater",
    "patcher",
    "benchmark",
];

/// Is an executable never the game, by its name without extension and by its path, both in lower case?
pub open spec fn never_the_game(stem: Seq<char>, full: Seq<char>) -> bool {
    exists|i: int|
        0 <= i < 16 && (holds(stem, (#[trigger] NEVER@[i])@) || holds(full, "/"@ + NEVER@[i]@))
}

pub open spec fn hardly_the_game(stem: Seq<char>) -> bool {
    exists|i: int| 0 <= i < 8 && holds(stem, (#[trigger] UNLIKELY@[i])@)
}

fn is_never_the_game(stem: &str, full: &str) -> (is: bool)
    ensures
        is == never_the_game(stem@, full@),
{
    let mut i: usize = 0;
    while i < 16
        invariant
            i <= 16,
            forall|k: int|
                0 <= k < i ==> !holds(stem@, (#[trigger] NEVER@[k])@) && !holds(
                    full@,
                    "/"@ + NEVER@[k]@,
                ),
        decreases 16 - i,
    {
        let mut inside = "/".to_string();
        inside.push_str(NEVER[i]);
        if contains(stem, NEVER[i]) || contains(full, inside.as_str()) {
            return true;
        }
        i = i + 1;
    }
    false
}

fn is_hardly_the_game(stem: &str) -> (is: bool)
    ensures
        is == hardly_the_game(stem@),
{
    let mut i: usize = 0;
    while i < 8
        invariant
            i <= 8,
            forall|k: int| 0 <= k < i ==> !holds(stem@, (#[trigger] UNLIKELY@[k])@),
        decreases 8 - i,
    {
        if contains(stem, UNLIKELY[i]) {
            return true;
        }
        i = i + 1;
    }
    false
}

pub open spec fn shipping_build(stem: Seq<char>) -> bool {
    "-win64-shipping"@.is_suffix_of(stem) || "-win32-shipping"@.is_suffix_of(stem)
}

pub open spec fn plain_start(stem: Seq<char>) -> bool {
    stem == "game"@ || stem == "start"@ || stem == "play"@
}

/// Does the executable go by the name of its folder?
pub open spec fn named_like_folder(stem: Seq<char>, folder: Seq<char>) -> bool {
    normal_name(stem) == folder && folder.len() > 0
}

/// How much speaks for an executable being the game: where it is, what it is called, and its size in
/// megabytes, of which at most twenty count.
pub open spec fn score_of(stem: Seq<char>, depth: int, folder: Seq<char>, size: u64) -> int {
    let place: int = if depth <= 1 {
        25
    } else if depth > 3 {
        -20
    } else {
        0
    };
    let named: int = if named_like_folder(stem, folder) {
        50
    } else {
        0
    };
    let shipping: int = if shipping_build(stem) {
        45
    } else {
        0
    };
    let start: int = if plain_start(stem) {
        15
    } else {
        0
    };
    let unlikely: int = if hardly_the_game(stem) {
        -35
    } else {
        0
    };
    let weight: int = if size / 1_048_576 > 20 {
        20
    } else {
        (size / 1_048_576) as int
    };
    place + named + shipping + start + unlikely + weight
}

/// What speaks for and against an executable, in words.
pub open spec fn score_reasons(stem: Seq<char>, depth: int, folder: Seq<char>) -> Seq<Seq<char>> {
    (if depth <= 1 {
        seq!["sits at the top of the game folder"@]
    } else {
        Seq::empty()
    }) + (if named_like_folder(stem, folder) {
        seq!["its name matches the folder name"@]
    } else {
        Seq::empty()
    }) + (if shipping_build(stem) {
        seq!["it is an Unreal Engine shipping build"@]
    } else {
        Seq::empty()
    }) + (if hardly_the_game(stem) {
        seq!["its name suggests a helper rather than the game"@]
    } else {
        Seq::empty()
    })
}

/// Rates an executable by its name without extension, in lower case, by how many steps it is below the
/// folder, by the folder's normal name, and by its size.
pub fn rate(stem: &str, depth: usize, folder: &str, size: u64) -> (rating: (i64, Vec<String>))
    ensures
        rating.0 == score_of(stem@, depth as int, folder@, size),
        -55 <= rating.0 <= 155,
        texts(rating.1@) == score_reasons(stem@, depth as int, folder@),
{
    let mut score: i64 = 0;
    let mut reasons: Vec<String> = Vec::new();
    if depth <= 1 {
        score = 25;
        reasons.push("sits at the top of the game folder".to_string());
    } else if depth > 3 {
        score = -20;
    }
    let normal = normalize(stem);
    if same(normal.as_str(), folder) && folder.unicode_len() > 0 {
        score = score + 50;
        reasons.push("its name matches the folder name".to_string());
    }
    if before_suffix(stem, "-win64-shipping").is_some() || before_suffix(
        stem,
        "-win32-shipping",
    ).is_some() {
        score = score + 45;
        reasons.push("it is an Unreal Engine shipping build".to_string());
    }
    if same(stem, "game") || same(stem, "start") || same(stem, "play") {
        score = score + 15;
    }
    if is_hardly_the_game(stem) {
        score = score - 35;
        reasons.push("its name suggests a helper rather than the game".to_string());
    }
    let megabytes: u64 = size / 1_048_576;
    if megabytes > 20 {
        score = score + 20;
    } else {
        score = score + megabytes as i64;
    }
    assert(texts(reasons@) =~= score_reasons(stem@, depth as int, folder@));
    (score, reasons)
}

/// An executable, and its size.
#[derive(Debug)]
pub struct Exe {
    pub path: FilePath,
    pub size: u64,
}

pub type ExeView = (Seq<u8>, u64);

pub open spec fn exes_view(list: Seq<Exe>) -> Seq<ExeView> {
    Seq::new(list.len(), |i: int| (list[i].path@, list[i].size))
}

/// How many steps a path is below a folder; nine where it is not below it.
pub open spec fn depth_below(folder: Seq<u8>, path: Seq<u8>) -> int {
    if parts(folder).is_prefix_of(parts(path)) {
        parts(path).len() - parts(folder).len()
    } else {
        9
    }
}

/// An executable that may be the game: its place in the list, how much speaks for it, and why.
pub struct Scored {
    pub place: int,
    pub score: int,
    pub reasons: Seq<Seq<char>>,
}

pub open spec fn lower_stem(path: Seq<u8>) -> Seq<char> {
    lowercase_text(utf8_text(stem_of(path)->0))
}

/// The executables that may be the game.
pub open spec fn scored(folder: Seq<u8>, key: Seq<char>, exes: Seq<ExeView>) -> Seq<Scored>
    decreases exes.len(),
{
    if exes.len() == 0 {
        Seq::empty()
    } else {
        let before = scored(folder, key, exes.drop_last());
        let (path, size) = exes.last();
        let stem = lower_stem(path);
        if never_the_game(stem, lowercase_text(shown(path))) {
            before
        } else {
            before.push(
                Scored {
                    place: exes.len() - 1,
                    score: score_of(stem, depth_below(folder, path), key, size),
                    reasons: score_reasons(stem, depth_below(folder, path), key),
                },
            )
        }
    }
}

/// The sort keys by which higher scores come first.
pub open spec fn best_first(list: Seq<Scored>) -> Seq<Seq<u32>> {
    Seq::new(list.len(), |i: int| seq![(1000 - list[i].score) as u32])
}

/// The executables, the likeliest first; of equals the first stays first.
pub open spec fn ranked(list: Seq<Scored>) -> Seq<Scored> {
    let places = order_of(best_first(list));
    Seq::new(places.len(), |i: int| list[places[i] as int])
}

/// How sure the choice of the first is: sure where there is no other and it rates well, less so where it
/// is well ahead of the second.
pub open spec fn confidence_in(list: Seq<Scored>) -> Confidence {
    let second: int = if list.len() > 1 {
        list[1].score
    } else {
        -100
    };
    if list.len() == 1 && list[0].score >= 25 {
        Confidence::High
    } else if list[0].score - second >= 30 {
        Confidence::Medium
    } else {
        Confidence::Low
    }
}

pub open spec fn choice_reasons(list: Seq<Scored>) -> Seq<Seq<char>> {
    match confidence_in(list) {
        Confidence::High => list[0].reasons.push(
            "it is the only launchable executable in the folder"@,
        ),
        Confidence::Medium => list[0].reasons,
        Confidence::Low => list[0].reasons.push(
            decimal_text(list.len()) + " executables looked plausible, so this one is a guess"@,
        ),
    }
}

pub open spec fn after_first(list: Seq<Scored>) -> Seq<Scored> {
    if list.len() > 6 {
        list.subrange(1, 6)
    } else {
        list.skip(1)
    }
}

pub open spec fn places_of(exes: Seq<ExeView>, list: Seq<Scored>) -> Seq<Seq<u8>> {
    Seq::new(list.len(), |i: int| exes[list[i].place].0)
}

/// The executable that is taken for the game, how sure that is and why, and up to five others.
pub struct ChoiceView {
    pub best: Seq<u8>,
    pub confidence: Confidence,
    pub reasons: Seq<Seq<char>>,
    pub alternatives: Seq<Seq<u8>>,
}

#[derive(Debug)]
pub struct Choice {
    pub best: FilePath,
    pub confidence: Confidence,
    pub reasons: Vec<String>,
    pub alternatives: Vec<FilePath>,
}

impl View for Choice {
    type V = ChoiceView;

    open spec fn view(&self) -> ChoiceView {
        ChoiceView {
            best: self.best@,
            confidence: self.confidence,
            reasons: texts(self.reasons@),
            alternatives: paths_view(self.alternatives@),
        }
    }
}

/// Has every executable a name?
pub open spec fn all_named(exes: Seq<ExeView>) -> bool {
    forall|i: int| 0 <= i < exes.len() ==> last_name((#[trigger] exes[i]).0) is Some
}

/// The choice among the executables of a folder, if there is one.
pub open spec fn choice_in(folder: Seq<u8>, exes: Seq<ExeView>) -> Option<ChoiceView> {
    match last_name(folder) {
        Some(name) => {
            let list = ranked(scored(folder, normal_name(utf8_text(name)), exes));
            if !all_named(exes) || list.len() == 0 {
                None
            } else {
                Some(
                    ChoiceView {
                        best: exes[list[0].place].0,
                        confidence: confidence_in(list),
                        reasons: choice_reasons(list),
                        alternatives: places_of(exes, after_first(list)),
                    },
                )
            }
        },
        None => None,
    }
}

fn depth_of(folder: &FilePath, path: &FilePath) -> (depth: usize)
    ensures
        depth == depth_below(folder@, path@),
{
    let outer = folder.parts();
    let inner = path.parts();
    if crate::path::starts_with_parts(&inner, &outer) {
        inner.len() - outer.len()
    } else {
        9
    }
}

/// Chooses the executable that is most likely the game.
pub fn pick_game(folder: &FilePath, exes: &Vec<Exe>) -> (choice: Option<Choice>)
    ensures
        match choice_in(folder@, exes_view(exes@)) {
            Some(wanted) => choice is Some && choice->0@ == wanted,
            None => choice is None,
        },
{
    let ghost all = exes_view(exes@);
    let name = match folder.file_name_text() {
        Some(name) => name,
        None => return None,
    };
    let key = normalize(name.as_str());
    let ghost list = scored(folder@, key@, all);
    let mut places: Vec<usize> = Vec::new();
    let mut scores: Vec<i64> = Vec::new();
    let mut reasons: Vec<Vec<String>> = Vec::new();
    let mut keys: Vec<Vec<u32>> = Vec::new();
    let mut i: usize = 0;
    while i < exes.len()
        invariant
            i <= exes.len(),
            all == exes_view(exes@),
            places@.len() == scored(folder@, key@, all.take(i as int)).len(),
            scores@.len() == places@.len(),
            reasons@.len() == places@.len(),
            keys@.len() == places@.len(),
            forall|k: int| 0 <= k < i ==> last_name((#[trigger] all[k]).0) is Some,
            forall|k: int|
                0 <= k < places@.len() ==> #[trigger] places@[k] == scored(
                    folder@,
                    key@,
                    all.take(i as int),
                )[k].place && places@[k] < exes@.len(),
            forall|k: int|
                0 <= k < places@.len() ==> #[trigger] scores@[k] == scored(
                    folder@,
                    key@,
                    all.take(i as int),
                )[k].score && -55 <= scores@[k] <= 155,
            forall|k: int|
                0 <= k < places@.len() ==> texts(#[trigger] reasons@[k]@) == scored(
                    folder@,
                    key@,
                    all.take(i as int),
                )[k].reasons,
            forall|k: int|
                0 <= k < places@.len() ==> (#[trigger] keys@[k])@ == seq![(1000 - scores@[k]) as u32],
        decreases exes.len() - i,
    {
        assert(all.take(i + 1).drop_last() =~= all.take(i as int));
        assert(all.take(i + 1).last() == (exes@[i as int].path@, exes@[i as int].size));
        let path = &exes[i].path;
        let stem = match path.file_stem() {
            Some(stem) => lowercase(lossy(stem.as_slice()).as_str()),
            None => {
                assert(last_name(all[i as int].0) is None);
                return None;
            },
        };
        assert(stem@ == lower_stem(path@));
        let full = lowercase(path.display().as_str());
        if !is_never_the_game(stem.as_str(), full.as_str()) {
            let (score, why) = rate(stem.as_str(), depth_of(folder, path), key.as_str(), exes[i].size);
            let rank: u32 = (1000 - score) as u32;
            let rank_key: Vec<u32> = vec![rank];
            assert(rank_key@ =~= seq![rank]);
            places.push(i);
            scores.push(score);
            reasons.push(why);
            keys.push(rank_key);
        }
        i = i + 1;
    }
    assert(all.take(i as int) =~= all);
    assert(keys_view(keys@) =~= best_first(list));
    let sorted = order(&keys);
    proof {
        lemma_order_of(best_first(list), sorted@);
    }
    let ghost best_list = ranked(list);
    if sorted.len() == 0 {
        return None;
    }
    assert(sorted@[0] < best_first(list).len());
    let first: usize = sorted[0];
    assert(best_list[0] == list[first as int]);
    let second: i64 = if sorted.len() > 1 {
        assert(sorted@[1] < best_first(list).len());
        assert(best_list[1] == list[sorted@[1] as int]);
        scores[sorted[1]]
    } else {
        -100
    };
    let mut why: Vec<String> = Vec::new();
    let mut r: usize = 0;
    while r < reasons[first].len()
        invariant
            first < reasons@.len(),
            r <= reasons@[first as int]@.len(),
            why@.len() == r,
            forall|k: int| 0 <= k < r ==> (#[trigger] why@[k])@ == reasons@[first as int]@[k]@,
        decreases reasons@[first as int]@.len() - r,
    {
        why.push(reasons[first][r].clone());
        r = r + 1;
    }
    assert(texts(why@) =~= texts(reasons@[first as int]@));
    let confidence = if sorted.len() == 1 && scores[first] >= 25 {
        add_text(&mut why, "it is the only launchable executable in the folder".to_string());
        Confidence::High
    } else if scores[first] - second >= 30 {
        Confidence::Medium
    } else {
        let mut text = decimal(sorted.len() as u64);
        text.push_str(" executables looked plausible, so this one is a guess");
        add_text(&mut why, text);
        Confidence::Low
    };
    let mut alternatives: Vec<FilePath> = Vec::new();
    let mut n: usize = 1;
    while n < sorted.len() && n < 6
        invariant
            1 <= n <= 6,
            n <= sorted@.len(),
            all == exes_view(exes@),
            places@.len() == list.len(),
            in_order(best_first(list), sorted@),
            best_list == ranked(list),
            sorted@ == order_of(best_first(list)),
            forall|k: int|
                0 <= k < places@.len() ==> #[trigger] places@[k] == list[k].place && places@[k]
                    < exes@.len(),
            alternatives@.len() == n - 1,
            forall|k: int|
                0 <= k < n - 1 ==> (#[trigger] alternatives@[k])@ == all[best_list[k + 1].place].0,
        decreases sorted.len() - n,
    {
        assert(sorted@[n as int] < best_first(list).len());
        assert(best_list[n as int] == list[sorted@[n as int] as int]);
        assert(places@[sorted@[n as int] as int] == list[sorted@[n as int] as int].place);
        alternatives.push(exes[places[sorted[n]]].path.copy());
        n = n + 1;
    }
    assert(paths_view(alternatives@) =~= places_of(all, after_first(best_list)));
    assert(places@[first as int] == list[first as int].place);
    let choice = Choice {
        best: exes[places[first]].path.copy(),
        confidence,
        reasons: why,
        alternatives,
    };
    assert(texts(choice.reasons@) =~= choice_reasons(best_list));
    Some(choice)
}

/// What a game is called: the name of its folder, or that of its executable where the folder's is too short
/// to say anything.
pub open spec fn pretty(folder: Seq<u8>, exe: Seq<u8>) -> Seq<char> {
    let folder_name = match last_name(folder) {
        Some(name) => utf8_text(name),
        None => ""@,
    };
    if encode_utf8(folder_name).len() > 2 {
        trimmed(spaced_bars(folder_name))
    } else {
        match stem_of(exe) {
            Some(stem) => utf8_text(stem),
            None => ""@,
        }
    }
}

/// The text with spaces for underscores.
pub open spec fn spaced_bars(text: Seq<char>) -> Seq<char> {
    Seq::new(
        text.len(),
        |i: int|
            if text[i] == '_' {
                ' '
            } else {
                text[i]
            },
    )
}

pub(crate) fn replace_char(text: &str, from: char, to: char) -> (out: String)
    ensures
        out@ == Seq::new(
            text@.len(),
            |i: int|
                if text@[i] == from {
                    to
                } else {
                    text@[i]
                },
        ),
{
    let chars = chars_of(text);
    let mut out = String::new();
    let ghost wanted = Seq::new(
        text@.len(),
        |i: int|
            if text@[i] == from {
                to
            } else {
                text@[i]
            },
    );
    let mut i: usize = 0;
    while i < chars.len()
        invariant
            i <= chars.len(),
            chars@ == text@,
            wanted.len() == text@.len(),
            forall|k: int| 0 <= k < wanted.len() ==> #[trigger] wanted[k] == if text@[k] == from {
                to
            } else {
                text@[k]
            },
            out@ =~= wanted.take(i as int),
        decreases chars.len() - i,
    {
        if chars[i] == from {
            out.push(to);
        } else {
            out.push(chars[i]);
        }
        i = i + 1;
    }
    assert(out@ =~= wanted);
    out
}

pub fn pretty_name(folder: &FilePath, exe: &FilePath) -> (name: String)
    ensures
        name@ == pretty(folder@, exe@),
{
    let folder_name = match folder.file_name_text() {
        Some(name) => name,
        None => "".to_string(),
    };
    if folder_name.as_str().as_bytes().len() > 2 {
        let spaced = replace_char(folder_name.as_str(), '_', ' ');
        assert(spaced@ =~= spaced_bars(folder_name@));
        trim(spaced.as_str())
    } else {
        match exe.file_stem() {
            Some(stem) => lossy(stem.as_slice()),
            None => "".to_string(),
        }
    }
}

/// The game in a folder of Windows programs, with the Wine prefix its executable is in, if it is in one.
pub open spec fn windows_game(
    folder: Seq<u8>,
    choice: ChoiceView,
    prefix: Option<Seq<u8>>,
) -> CandidateView {
    CandidateView {
        exe: Some(choice.best),
        prefix,
        working_dir: parent_of(choice.best),
        alternatives: choice.alternatives,
        ..plain_candidate(
            id_of(choice.best),
            pretty(folder, choice.best),
            "wine"@,
            "folder"@,
            choice.confidence,
            choice.reasons,
        )
    }
}

pub fn windows_candidate(folder: &FilePath, choice: Choice, prefix: Option<FilePath>) -> (candidate:
    Candidate)
    ensures
        candidate@ == windows_game(folder@, choice@, held_path(prefix)),
{
    let mut candidate = new_candidate(
        short_id(&choice.best),
        pretty_name(folder, &choice.best),
        "wine",
        "folder",
        choice.confidence,
        choice.reasons,
    );
    candidate.prefix = prefix;
    candidate.working_dir = choice.best.parent();
    candidate.exe = Some(choice.best);
    candidate.alternatives = choice.alternatives;
    candidate
}

/// Of what may be the game, what is taken for it rates at least as high as everything else, and the others
/// that are named follow in the same way.
pub proof fn law_best_executable_is_chosen(list: Seq<Scored>, i: int, j: int)
    requires
        list.len() <= usize::MAX,
        forall|k: int| 0 <= k < list.len() ==> -55 <= (#[trigger] list[k]).score <= 155,
        0 <= i < j < list.len(),
    ensures
        ranked(list).len() == list.len(),
        ranked(list)[i].score >= ranked(list)[j].score,
{
    let keys = best_first(list);
    crate::sort::lemma_some_order(keys);
    let places = order_of(keys);
    let a = places[i] as int;
    let b = places[j] as int;
    assert(places[i] < keys.len() && places[j] < keys.len());
    assert(crate::sort::ahead(keys, a, b));
    assert(keys[a][0] == (1000 - list[a].score) as u32);
    assert(keys[b][0] == (1000 - list[b].score) as u32);
    if keys[a][0] == keys[b][0] {
        assert(keys[a] =~= keys[b]);
    }
}

proof fn lemma_scored_places(folder: Seq<u8>, key: Seq<char>, exes: Seq<ExeView>)
    ensures
        scored(folder, key, exes).len() <= exes.len(),
        forall|i: int|
            0 <= i < scored(folder, key, exes).len() ==> 0 <= (#[trigger] scored(folder, key, exes)[i]).place
                < exes.len(),
    decreases exes.len(),
{
    if exes.len() > 0 {
        lemma_scored_places(folder, key, exes.drop_last());
    }
}

/// What is chosen is one of the executables.
pub proof fn lemma_choice_is_an_exe(folder: Seq<u8>, exes: Seq<ExeView>) -> (place: int)
    requires
        exes.len() <= usize::MAX,
        choice_in(folder, exes) is Some,
    ensures
        0 <= place < exes.len(),
        choice_in(folder, exes)->0.best == exes[place].0,
{
    let list = scored(folder, normal_name(utf8_text(last_name(folder)->0)), exes);
    lemma_scored_places(folder, normal_name(utf8_text(last_name(folder)->0)), exes);
    let keys = best_first(list);
    crate::sort::lemma_some_order(keys);
    let places = order_of(keys);
    assert(places[0] < keys.len());
    assert(ranked(list)[0] == list[places[0] as int]);
    list[places[0] as int].place
}

/// Does a name, in lower case, hold the name of a helper?
pub open spec fn names_a_helper(stem: Seq<char>) -> bool {
    ||| holds(stem, "launcher"@)
    ||| holds(stem, "config"@)
    ||| holds(stem, "settings"@)
    ||| holds(stem, "editor"@)
    ||| holds(stem, "server"@)
    ||| holds(stem, "updater"@)
    ||| holds(stem, "patcher"@)
    ||| holds(stem, "benchmark"@)
}

/// Is a name, in lower case, neither that of the folder, nor that of a shipping build, nor a plain start?
pub open spec fn is_ordinary(stem: Seq<char>, folder: Seq<char>) -> bool {
    &&& folder.len() > 0 ==> normal_name(stem) != folder
    &&& !"-win64-shipping"@.is_suffix_of(stem)
    &&& !"-win32-shipping"@.is_suffix_of(stem)
    &&& stem != "game"@
    &&& stem != "start"@
    &&& stem != "play"@
}

proof fn lemma_helpers_are_named(stem: Seq<char>)
    ensures
        hardly_the_game(stem) <==> names_a_helper(stem),
{
    assert(UNLIKELY@[0] == "launcher" && UNLIKELY@[1] == "config" && UNLIKELY@[2] == "settings" && UNLIKELY@[3]
        == "editor" && UNLIKELY@[4] == "server" && UNLIKELY@[5] == "updater" && UNLIKELY@[6] == "patcher"
        && UNLIKELY@[7] == "benchmark");
    if hardly_the_game(stem) {
        let i = choose|i: int| 0 <= i < 8 && holds(stem, (#[trigger] UNLIKELY@[i])@);
        assert(i == 0 || i == 1 || i == 2 || i == 3 || i == 4 || i == 5 || i == 6 || i == 7);
    }
    if names_a_helper(stem) {
        assert(holds(stem, UNLIKELY@[0]@) || holds(stem, UNLIKELY@[1]@) || holds(stem, UNLIKELY@[2]@) || holds(
            stem,
            UNLIKELY@[3]@,
        ) || holds(stem, UNLIKELY@[4]@) || holds(stem, UNLIKELY@[5]@) || holds(stem, UNLIKELY@[6]@) || holds(
            stem,
            UNLIKELY@[7]@,
        ));
    }
}

/// Of two ordinary executables at the same depth, one that is named like a launcher, an editor or another helper
/// rates lower than one that is not, whatever their sizes.
pub proof fn law_helpers_rate_lower(
    helper: Seq<char>,
    other: Seq<char>,
    depth: int,
    folder: Seq<char>,
    helper_size: u64,
    other_size: u64,
)
    requires
        names_a_helper(helper),
        !names_a_helper(other),
        is_ordinary(helper, folder),
        is_ordinary(other, folder),
    ensures
        score_of(helper, depth, folder, helper_size) < score_of(other, depth, folder, other_size),
{
    lemma_helpers_are_named(helper);
    lemma_helpers_are_named(other);
}

/// Is an executable an installer, a crash reporter or the like, by its name and by its path, both in lower case?
pub open spec fn names_a_tool(stem: Seq<char>, full: Seq<char>) -> bool {
    ||| holds(stem, "unins"@) || holds(full, "/unins"@)
    ||| holds(stem, "uninstall"@) || holds(full, "/uninstall"@)
    ||| holds(stem, "setup"@) || holds(full, "/setup"@)
    ||| holds(stem, "vcredist"@) || holds(full, "/vcredist"@)
    ||| holds(stem, "dxsetup"@) || holds(full, "/dxsetup"@)
    ||| holds(stem, "dxwebsetup"@) || holds(full, "/dxwebsetup"@)
    ||| holds(stem, "directx"@) || holds(full, "/directx"@)
    ||| holds(stem, "dotnetfx"@) || holds(full, "/dotnetfx"@)
    ||| holds(stem, "oalinst"@) || holds(full, "/oalinst"@)
    ||| holds(stem, "crashreport"@) || holds(full, "/crashreport"@)
    ||| holds(stem, "crashpad"@) || holds(full, "/crashpad"@)
    ||| holds(stem, "prereq"@) || holds(full, "/prereq"@)
    ||| holds(stem, "vc_redist"@) || holds(full, "/vc_redist"@)
    ||| holds(stem, "quicksfv"@) || holds(full, "/quicksfv"@)
    ||| holds(stem, "cleanup"@) || holds(full, "/cleanup"@)
    ||| holds(stem, "dependencies"@) || holds(full, "/dependencies"@)
}

proof fn lemma_tools_are_named(stem: Seq<char>, full: Seq<char>)
    ensures
        never_the_game(stem, full) <==> names_a_tool(stem, full),
{
    reveal_strlit("/");
    reveal_strlit("unins");
    reveal_strlit("/unins");
    assert("/"@ + "unins"@ =~= "/unins"@);
    reveal_strlit("uninstall");
    reveal_strlit("/uninstall");
    assert("/"@ + "uninstall"@ =~= "/uninstall"@);
    reveal_strlit("setup");
    reveal_strlit("/setup");
    assert("/"@ + "setup"@ =~= "/setup"@);
    reveal_strlit("vcredist");
    reveal_strlit("/vcredist");
    assert("/"@ + "vcredist"@ =~= "/vcredist"@);
    reveal_strlit("dxsetup");
    reveal_strlit("/dxsetup");
    assert("/"@ + "dxsetup"@ =~= "/dxsetup"@);
    reveal_strlit("dxwebsetup");
    reveal_strlit("/dxwebsetup");
    assert("/"@ + "dxwebsetup"@ =~= "/dxwebsetup"@);
    reveal_strlit("directx");
    reveal_strlit("/directx");
    assert("/"@ + "directx"@ =~= "/directx"@);
    reveal_strlit("dotnetfx");
    reveal_strlit("/dotnetfx");
    assert("/"@ + "dotnetfx"@ =~= "/dotnetfx"@);
    reveal_strlit("oalinst");
    reveal_strlit("/oalinst");
    assert("/"@ + "oalinst"@ =~= "/oalinst"@);
    reveal_strlit("crashreport");
    reveal_strlit("/crashreport");
    assert("/"@ + "crashreport"@ =~= "/crashreport"@);
    reveal_strlit("crashpad");
    reveal_strlit("/crashpad");
    assert("/"@ + "crashpad"@ =~= "/crashpad"@);
    reveal_strlit("prereq");
    reveal_strlit("/prereq");
    assert("/"@ + "prereq"@ =~= "/prereq"@);
    reveal_strlit("vc_redist");
    reveal_strlit("/vc_redist");
    assert("/"@ + "vc_redist"@ =~= "/vc_redist"@);
    reveal_strlit("quicksfv");
    reveal_strlit("/quicksfv");
    assert("/"@ + "quicksfv"@ =~= "/quicksfv"@);
    reveal_strlit("cleanup");
    reveal_strlit("/cleanup");
    assert("/"@ + "cleanup"@ =~= "/cleanup"@);
    reveal_strlit("dependencies");
    reveal_strlit("/dependencies");
    assert("/"@ + "dependencies"@ =~= "/dependencies"@);
    assert(NEVER@[0] == "unins" && NEVER@[1] == "uninstall" && NEVER@[2] == "setup" && NEVER@[3] == "vcredist"
        && NEVER@[4] == "dxsetup" && NEVER@[5] == "dxwebsetup" && NEVER@[6] == "directx" && NEVER@[7] == "dotnetfx"
        && NEVER@[8] == "oalinst" && NEVER@[9] == "crashreport" && NEVER@[10] == "crashpad" && NEVER@[11] == "prereq"
        && NEVER@[12] == "vc_redist" && NEVER@[13] == "quicksfv" && NEVER@[14] == "cleanup" && NEVER@[15]
        == "dependencies");
    if never_the_game(stem, full) {
        let i = choose|i: int|
            0 <= i < 16 && (holds(stem, (#[trigger] NEVER@[i])@) || holds(full, "/"@ + NEVER@[i]@));
        assert(i == 0 || i == 1 || i == 2 || i == 3 || i == 4 || i == 5 || i == 6 || i == 7 || i == 8 || i == 9 || i
            == 10 || i == 11 || i == 12 || i == 13 || i == 14 || i == 15);
    }
    if names_a_tool(stem, full) {
        assert(holds(stem, NEVER@[0]@) || holds(full, "/"@ + NEVER@[0]@) || holds(stem, NEVER@[1]@) || holds(full,
            "/"@ + NEVER@[1]@) || holds(stem, NEVER@[2]@) || holds(full, "/"@ + NEVER@[2]@) || holds(stem, NEVER@[3]@)
            || holds(full, "/"@ + NEVER@[3]@) || holds(stem, NEVER@[4]@) || holds(full, "/"@ + NEVER@[4]@)
            || holds(stem, NEVER@[5]@) || holds(full, "/"@ + NEVER@[5]@) || holds(stem, NEVER@[6]@) || holds(full,
            "/"@ + NEVER@[6]@) || holds(stem, NEVER@[7]@) || holds(full, "/"@ + NEVER@[7]@) || holds(stem, NEVER@[8]@)
            || holds(full, "/"@ + NEVER@[8]@) || holds(stem, NEVER@[9]@) || holds(full, "/"@ + NEVER@[9]@)
            || holds(stem, NEVER@[10]@) || holds(full, "/"@ + NEVER@[10]@) || holds(stem, NEVER@[11]@) || holds(full,
            "/"@ + NEVER@[11]@) || holds(stem, NEVER@[12]@) || holds(full, "/"@ + NEVER@[12]@) || holds(stem,
            NEVER@[13]@) || holds(full, "/"@ + NEVER@[13]@) || holds(stem, NEVER@[14]@) || holds(full, "/"@
            + NEVER@[14]@) || holds(stem, NEVER@[15]@) || holds(full, "/"@ + NEVER@[15]@));
    }
}

/// What one thing about an executable is worth, all else being the same: being at the top of the folder or deep in
/// it, its name, and each megabyte up to twenty. An ordinary executable of no size, one directory down, rates zero.
pub proof fn law_what_a_rating_counts(
    stem: Seq<char>,
    other: Seq<char>,
    folder: Seq<char>,
    depth: int,
    size: u64,
    other_size: u64,
)
    ensures
        is_ordinary(stem, folder) && !names_a_helper(stem) && size < 1_048_576 ==> score_of(stem, 2, folder, size) == 0,
        depth <= 1 ==> score_of(stem, depth, folder, size) == score_of(stem, 2, folder, size) + 25,
        1 < depth <= 3 ==> score_of(stem, depth, folder, size) == score_of(stem, 2, folder, size),
        depth > 3 ==> score_of(stem, depth, folder, size) == score_of(stem, 2, folder, size) - 20,
        size <= 20 * 1_048_576 && other_size <= 20 * 1_048_576 ==> score_of(stem, depth, folder, size) - score_of(
            stem,
            depth,
            folder,
            other_size,
        ) == size / 1_048_576 - other_size / 1_048_576,
        size >= 20 * 1_048_576 && other_size >= 20 * 1_048_576 ==> score_of(stem, depth, folder, size) == score_of(
            stem,
            depth,
            folder,
            other_size,
        ),
        normal_name(stem) == folder && folder.len() > 0 && is_unmarked(stem) && is_unmarked(other)
            && normal_name(other) != folder ==> score_of(stem, depth, folder, size) == score_of(
            other,
            depth,
            folder,
            size,
        ) + 50,
        ("-win64-shipping"@.is_suffix_of(stem) || "-win32-shipping"@.is_suffix_of(stem)) && !names_a_helper(stem)
            && normal_name(stem) != folder && is_ordinary(other, folder) && !names_a_helper(other) ==> score_of(
            stem,
            depth,
            folder,
            size,
        ) == score_of(other, depth, folder, size) + 45,
        (stem == "game"@ || stem == "start"@ || stem == "play"@) && normal_name(stem) != folder && is_ordinary(
            other,
            folder,
        ) && !names_a_helper(other) ==> score_of(stem, depth, folder, size) == score_of(other, depth, folder, size)
            + 15,
{
    lemma_helpers_are_named(stem);
    lemma_helpers_are_named(other);
    lemma_starts_are_plain(stem);
    lemma_starts_are_plain(other);
}

/// Does a name, in lower case, say nothing by itself?
pub open spec fn is_unmarked(stem: Seq<char>) -> bool {
    !names_a_helper(stem) && is_ordinary(stem, Seq::empty())
}

proof fn lemma_starts_are_plain(stem: Seq<char>)
    ensures
        stem == "game"@ || stem == "start"@ || stem == "play"@ ==> !names_a_helper(stem)
            && !"-win64-shipping"@.is_suffix_of(stem) && !"-win32-shipping"@.is_suffix_of(stem),
        "-win64-shipping"@.is_suffix_of(stem) || "-win32-shipping"@.is_suffix_of(stem) ==> stem != "game"@ && stem
            != "start"@ && stem != "play"@,
{
    reveal_strlit("game");
    reveal_strlit("start");
    reveal_strlit("play");
    reveal_strlit("-win64-shipping");
    reveal_strlit("-win32-shipping");
    reveal_strlit("launcher");
    reveal_strlit("config");
    reveal_strlit("settings");
    reveal_strlit("editor");
    reveal_strlit("server");
    reveal_strlit("updater");
    reveal_strlit("patcher");
    reveal_strlit("benchmark");
}

/// May an executable be the game?
pub open spec fn in_the_running(exe: ExeView) -> bool {
    !names_a_tool(lower_stem(exe.0), lowercase_text(shown(exe.0)))
}

/// How an executable rates in a folder.
pub open spec fn rating_in(folder: Seq<u8>, exe: ExeView) -> int {
    score_of(
        lower_stem(exe.0),
        depth_below(folder, exe.0),
        normal_name(utf8_text(last_name(folder)->0)),
        exe.1,
    )
}

/// Is it what is known of the executable at its place?
spec fn is_entry_of(folder: Seq<u8>, exes: Seq<ExeView>, entry: Scored) -> bool {
    &&& 0 <= entry.place < exes.len()
    &&& in_the_running(exes[entry.place])
    &&& entry.score == rating_in(folder, exes[entry.place])
    &&& -55 <= entry.score <= 155
}

proof fn lemma_scored_is_the_running(folder: Seq<u8>, exes: Seq<ExeView>)
    requires
        last_name(folder) is Some,
    ensures
        ({
            let list = scored(folder, normal_name(utf8_text(last_name(folder)->0)), exes);
            &&& list.len() <= exes.len()
            &&& forall|n: int| 0 <= n < list.len() ==> is_entry_of(folder, exes, #[trigger] list[n])
            &&& forall|m: int, n: int| 0 <= m < n < list.len()
                ==> (#[trigger] list[m]).place < (#[trigger] list[n]).place
            &&& forall|i: int|
                0 <= i < exes.len() && in_the_running(#[trigger] exes[i]) ==> exists|n: int|
                    0 <= n < list.len() && (#[trigger] list[n]).place == i
        }),
    decreases exes.len(),
{
    let key = normal_name(utf8_text(last_name(folder)->0));
    let list = scored(folder, key, exes);
    if exes.len() > 0 {
        let front = exes.drop_last();
        let before = scored(folder, key, front);
        let last = exes.last();
        lemma_scored_is_the_running(folder, front);
        lemma_tools_are_named(lower_stem(last.0), lowercase_text(shown(last.0)));
        assert forall|n: int| 0 <= n < list.len() implies is_entry_of(folder, exes, #[trigger] list[n]) by {
            if n < before.len() {
                assert(is_entry_of(folder, front, before[n]));
            }
        }
        assert forall|i: int| 0 <= i < exes.len() && in_the_running(#[trigger] exes[i]) implies exists|n: int|
            0 <= n < list.len() && (#[trigger] list[n]).place == i by {
            if i < front.len() {
                assert(in_the_running(front[i]));
                let n = choose|n: int| 0 <= n < before.len() && (#[trigger] before[n]).place == i;
                assert(list[n].place == i);
            } else {
                assert(list[before.len() as int].place == i);
            }
        }
    }
}

/// Something is chosen exactly when an executable may be the game. What is chosen may be, and rates at least as high
/// as whatever else may be; so do, among themselves, up to five others that are named after it, and none that is not
/// named rates higher than one that is.
pub proof fn law_choice_is_the_best(folder: Seq<u8>, exes: Seq<ExeView>) -> (places: Seq<int>)
    requires
        exes.len() <= usize::MAX,
        last_name(folder) is Some,
        all_named(exes),
    ensures
        choice_in(folder, exes) is Some <==> exists|i: int| 0 <= i < exes.len() && in_the_running(#[trigger] exes[i]),
        forall|i: int|
            0 <= i < exes.len() ==> (#[trigger] in_the_running(exes[i]) <==> places.contains(i)),
        forall|n: int| 0 <= n < places.len() ==> 0 <= #[trigger] places[n] < exes.len(),
        places.no_duplicates(),
        forall|m: int, n: int|
            0 <= m < n < places.len() ==> rating_in(folder, exes[#[trigger] places[m]]) >= rating_in(
                folder,
                exes[#[trigger] places[n]],
            ),
        choice_in(folder, exes) matches Some(choice) ==> {
            &&& places.len() > 0
            &&& choice.best == exes[places[0]].0
            &&& choice.alternatives.len() == if places.len() > 6 {
                5
            } else {
                places.len() - 1
            }
            &&& forall|n: int|
                0 <= n < choice.alternatives.len() ==> #[trigger] choice.alternatives[n] == exes[places[n + 1]].0
            &&& choice.confidence == Confidence::High <==> places.len() == 1 && rating_in(folder, exes[places[0]])
                >= 25
            &&& choice.confidence == Confidence::Low <==> places.len() > 1 && rating_in(folder, exes[places[0]])
                - rating_in(folder, exes[places[1]]) < 30
        },
{
    let list = scored(folder, normal_name(utf8_text(last_name(folder)->0)), exes);
    lemma_scored_is_the_running(folder, exes);
    assert forall|k: int| 0 <= k < list.len() implies -55 <= (#[trigger] list[k]).score <= 155 by {
        assert(is_entry_of(folder, exes, list[k]));
    }
    let keys = best_first(list);
    crate::sort::lemma_some_order(keys);
    let order = order_of(keys);
    let best = ranked(list);
    let places = Seq::new(order.len(), |n: int| list[order[n] as int].place);
    assert forall|n: int| 0 <= n < places.len() implies 0 <= #[trigger] places[n] < exes.len() && in_the_running(
        exes[places[n]],
    ) && best[n].score == rating_in(folder, exes[places[n]]) && best[n].place == places[n] by {
        assert(order[n] < keys.len());
        assert(is_entry_of(folder, exes, list[order[n] as int]));
    }
    assert forall|m: int, n: int| 0 <= m < n < places.len() implies rating_in(folder, exes[#[trigger] places[m]])
        >= rating_in(folder, exes[#[trigger] places[n]]) && places[m] != places[n] by {
        law_best_executable_is_chosen(list, m, n);
        assert(order[m] < keys.len() && order[n] < keys.len());
        assert(crate::sort::ahead(keys, order[m] as int, order[n] as int));
        crate::sort::lemma_before_irreflexive(keys[order[m] as int]);
        assert(order[m] != order[n]);
        let a = order[m] as int;
        let b = order[n] as int;
        assert(list[a].place != list[b].place);
    }
    assert forall|i: int| 0 <= i < exes.len() implies (#[trigger] in_the_running(exes[i]) <==> places.contains(
        i,
    )) by {
        if in_the_running(exes[i]) {
            let n = choose|n: int| 0 <= n < list.len() && (#[trigger] list[n]).place == i;
            assert(order.contains(n as usize));
            let m = choose|m: int| 0 <= m < order.len() && order[m] == n as usize;
            assert(places[m] == i);
        }
        if places.contains(i) {
            let n = choose|n: int| 0 <= n < places.len() && places[n] == i;
            assert(in_the_running(exes[places[n]]));
        }
    }
    if places.len() > 0 {
        assert(in_the_running(exes[places[0]]));
    }
    if let Some(choice) = choice_in(folder, exes) {
        assert(best[0].place == places[0]);
        if places.len() > 1 {
            assert(best[1].score == rating_in(folder, exes[places[1]]));
        }
        assert forall|n: int| 0 <= n < choice.alternatives.len() implies #[trigger] choice.alternatives[n]
            == exes[places[n + 1]].0 by {
            assert(best[n + 1].place == places[n + 1]);
        }
    }
    places
}

/// A helper is not chosen while another executable is there at the same depth that is none.
pub proof fn law_helper_is_not_chosen(folder: Seq<u8>, exes: Seq<ExeView>, helper: int, other: int)
    requires
        exes.len() <= usize::MAX,
        0 <= helper < exes.len(),
        0 <= other < exes.len(),
        choice_in(folder, exes) is Some,
        depth_below(folder, exes[helper].0) == depth_below(folder, exes[other].0),
        in_the_running(exes[other]),
        names_a_helper(lower_stem(exes[helper].0)),
        !names_a_helper(lower_stem(exes[other].0)),
        is_ordinary(lower_stem(exes[helper].0), normal_name(utf8_text(last_name(folder)->0))),
        is_ordinary(lower_stem(exes[other].0), normal_name(utf8_text(last_name(folder)->0))),
    ensures
        choice_in(folder, exes)->0.best != exes[helper].0,
{
    let places = law_choice_is_the_best(folder, exes);
    let key = normal_name(utf8_text(last_name(folder)->0));
    let n = choose|n: int| 0 <= n < places.len() && places[n] == other;
    let best = exes[places[0]];
    if best.0 == exes[helper].0 {
        law_helpers_rate_lower(
            lower_stem(best.0),
            lower_stem(exes[other].0),
            depth_below(folder, best.0),
            key,
            best.1,
            exes[other].1,
        );
        assert(rating_in(folder, exes[places[0]]) >= rating_in(folder, exes[places[n]]));
    }
}

/// What stands in a folder is one step below it, and each further name is one step more. What is elsewhere counts as
/// deep.
pub proof fn law_depth_counts_the_steps(folder: Seq<u8>, dir: Seq<u8>, name: Seq<u8>)
    requires
        is_name(name),
    ensures
        depth_below(folder, folder) == 0,
        inside(folder, dir) ==> depth_below(folder, under(dir, name)) == depth_below(folder, dir) + 1,
        !inside(folder, dir) ==> depth_below(folder, dir) == 9,
{
    lemma_name_parts(name);
    law_join_adds_steps(dir, name);
    if inside(folder, dir) {
        law_names_stay_inside(folder, dir, name);
    }
}

} // verus!
