//! Going through folders for games, and making one list of what was found.

use vstd::prelude::*;
use vstd::utf8::encode_utf8;

use crate::cli::held_text;
use crate::discover::{
    candidates_view, choice_in, exes_view, is_noise_dir, is_windows_exe, lemma_choice_is_an_exe, lower_name,
    name_in_lower_case, new_candidate, noise_name, pick_game, plain_candidate, pretty, pretty_name, replace_char, windows_program,
    Candidate, CandidateView, Choice, ChoiceView, Confidence, Exe, ExeView, MAX_DEPTH, MAX_ENTRIES_PER_FOLDER,
};
use crate::json::{json_document, list_model, parse, Json, JsonView};
use crate::path::{
    inside, is_name, is_plain_name, law_names_stay_inside, parent_of, parts, path_key, paths_view, under, under_text,
    FilePath,
};
use crate::sort::{in_order, keys_view, lemma_order_of, lemma_some_order, order, order_of};
use crate::state::held_path;
use crate::steam::{apps_view, id_of, short_id, AppList, Library, LibraryView};
use crate::system::{Capability, Mount, MountView};
use crate::text::{
    before_suffix, key_of, lists, lowercase, lowercase_text, same, starts_with, text_key, texts,
};
use crate::walk::names_view;

verus! {

/// What an entry of a folder is, links not followed.
#[derive(Debug, Clone, Copy, PartialEq, Eq, Structural)]
pub enum Sort {
    Link,
    Dir,
    File,
    Other,
}

/// How far a search for files has come: the folder it is of, the folders still to be looked into, the next
/// one last, with how deep they are, the folder that is looked into now, and the files found.
pub struct SearchView {
    pub root: Seq<u8>,
    pub folders: Seq<(Seq<u8>, int)>,
    pub here: (Seq<u8>, int),
    pub files: Seq<Seq<u8>>,
}

/// A search for all files below a folder. Links are never followed, folders that hold no game are passed
/// over, and it has an end in depth and in number.
#[derive(Debug)]
pub struct Search {
    root: FilePath,
    folders: Vec<(FilePath, usize)>,
    here: (FilePath, usize),
    files: Vec<FilePath>,
}

pub open spec fn folders_view(list: Seq<(FilePath, usize)>) -> Seq<(Seq<u8>, int)> {
    Seq::new(list.len(), |i: int| (list[i].0@, list[i].1 as int))
}

impl View for Search {
    type V = SearchView;

    closed spec fn view(&self) -> SearchView {
        SearchView {
            root: self.root@,
            folders: folders_view(self.folders@),
            here: (self.here.0@, self.here.1 as int),
            files: paths_view(self.files@),
        }
    }
}

impl SearchView {
    pub open spec fn start(folder: Seq<u8>) -> SearchView {
        SearchView {
            root: folder,
            folders: seq![(folder, 0int)],
            here: (folder, 0int),
            files: Seq::empty(),
        }
    }

    /// Is the next folder too deep, or have enough files been found?
    pub open spec fn skips(self) -> bool {
        self.folders.last().1 > MAX_DEPTH || self.files.len() > MAX_ENTRIES_PER_FOLDER
    }

    /// Without the folders in front of the next that is looked into.
    pub open spec fn skipped(self) -> SearchView
        decreases self.folders.len(),
    {
        if self.folders.len() > 0 && self.skips() {
            SearchView { folders: self.folders.drop_last(), ..self }.skipped()
        } else {
            self
        }
    }

    /// Looking into the next folder.
    pub open spec fn moved_on(self) -> SearchView {
        let rest = self.skipped();
        if rest.folders.len() == 0 {
            rest
        } else {
            SearchView { folders: rest.folders.drop_last(), here: rest.folders.last(), ..rest }
        }
    }

    /// With an entry of the folder that is looked into.
    pub open spec fn with_entry(self, name: Seq<u8>, sort: Sort) -> SearchView {
        let path = under(self.here.0, name);
        if !is_name(name) {
            self
        } else {
            match sort {
                Sort::Dir => if noise_name(lower_name(path)) {
                    self
                } else {
                    SearchView { folders: self.folders.push((path, self.here.1 + 1)), ..self }
                },
                Sort::File => SearchView { files: self.files.push(path), ..self },
                _ => self,
            }
        }
    }

    /// Does the search stay below the folder it is of?
    pub open spec fn stays_inside(self) -> bool {
        &&& inside(self.root, self.here.0)
        &&& forall|i: int| 0 <= i < self.folders.len() ==> inside(self.root, (#[trigger] self.folders[i]).0)
        &&& forall|i: int| 0 <= i < self.files.len() ==> inside(self.root, #[trigger] self.files[i])
    }
}

impl Search {
    pub closed spec fn wf(&self) -> bool {
        &&& self.here.1 <= MAX_DEPTH
        &&& forall|i: int| 0 <= i < self.folders@.len() ==> (#[trigger] self.folders@[i]).1 <= MAX_DEPTH + 1
    }

    pub fn new(folder: &FilePath) -> (search: Search)
        ensures
            search.wf(),
            search@ == SearchView::start(folder@),
    {
        let search = Search {
            root: folder.copy(),
            folders: vec![(folder.copy(), 0)],
            here: (folder.copy(), 0),
            files: Vec::new(),
        };
        assert(search@.folders =~= SearchView::start(folder@).folders);
        assert(search@.files =~= Seq::empty());
        search
    }

    /// The next folder to look into; nothing when the search is through.
    pub fn next(&mut self) -> (folder: Option<FilePath>)
        requires
            old(self).wf(),
        ensures
            final(self).wf(),
            final(self)@ == old(self)@.moved_on(),
            folder is Some <==> old(self)@.skipped().folders.len() > 0,
            folder matches Some(path) ==> path@ == final(self)@.here.0,
    {
        let ghost whole = self@.skipped();
        loop
            invariant
                self.wf(),
                self@.skipped() == whole,
                whole == old(self)@.skipped(),
            decreases self.folders@.len(),
        {
            let ghost before = self@;
            let ghost list = self.folders@;
            match self.folders.pop() {
                Some((path, depth)) => {
                    assert(list.last().0@ == before.folders.last().0);
                    assert(folders_view(self.folders@) =~= before.folders.drop_last());
                    assert forall|i: int| 0 <= i < self.folders@.len() implies (
                    #[trigger] self.folders@[i]).1 <= MAX_DEPTH + 1 by {
                        assert(self.folders@[i] == list[i]);
                    }
                    if depth <= MAX_DEPTH && self.files.len() <= MAX_ENTRIES_PER_FOLDER {
                        let given = path.copy();
                        self.here = (path, depth);
                        return Some(given);
                    }
                },
                None => {
                    assert(list.len() == 0);
                    return None;
                },
            }
        }
    }

    /// Hands in an entry of the folder that was last given out.
    pub fn found(&mut self, name: &[u8], sort: Sort)
        requires
            old(self).wf(),
        ensures
            final(self).wf(),
            final(self)@ == old(self)@.with_entry(name@, sort),
    {
        if !is_plain_name(name) {
            return;
        }
        let ghost before = self@;
        let path = self.here.0.join(&FilePath::from_bytes(name));
        let depth: usize = self.here.1;
        match sort {
            Sort::Dir => {
                if !is_noise_dir(&path) {
                    let ghost list = self.folders@;
                    let ghost view = (path@, depth + 1);
                    self.folders.push((path, depth + 1));
                    assert(folders_view(self.folders@) =~= before.folders.push(view));
                    assert forall|i: int| 0 <= i < self.folders@.len() implies (
                    #[trigger] self.folders@[i]).1 <= MAX_DEPTH + 1 by {
                        if i < list.len() {
                            assert(self.folders@[i] == list[i]);
                        }
                    }
                }
            },
            Sort::File => {
                proof {
                    crate::path::lemma_paths_push(self.files@, path);
                }
                self.files.push(path);
            },
            _ => {},
        }
    }

    /// The files that were found, if any were.
    pub fn finish(self) -> (files: Option<Vec<FilePath>>)
        ensures
            match files {
                Some(files) => files@.len() > 0 && paths_view(files@) == self@.files,
                None => self@.files.len() == 0,
            },
    {
        if self.files.len() == 0 {
            None
        } else {
            Some(self.files)
        }
    }
}

/// A link is neither followed nor taken for a file.
pub proof fn law_links_are_passed_over(search: SearchView, name: Seq<u8>)
    ensures
        search.with_entry(name, Sort::Link) == search,
{
}

/// A search begins inside its folder.
pub proof fn law_search_begins_inside(folder: Seq<u8>)
    ensures
        SearchView::start(folder).stays_inside(),
{
    assert(parts(folder).subrange(0, parts(folder).len() as int) =~= parts(folder));
}

/// A search never leaves its folder: neither looking into the next folder nor any entry that is handed in
/// leads out of it.
pub proof fn law_search_stays_inside(search: SearchView, name: Seq<u8>, sort: Sort)
    requires
        search.stays_inside(),
    ensures
        search.moved_on().stays_inside(),
        search.moved_on().root == search.root,
        search.with_entry(name, sort).stays_inside(),
        search.with_entry(name, sort).root == search.root,
{
    lemma_skipping_stays_inside(search);
    let rest = search.skipped();
    if rest.folders.len() > 0 {
        assert(inside(rest.root, rest.folders.last().0));
    }
    if is_name(name) {
        law_names_stay_inside(search.root, search.here.0, name);
        let now = search.with_entry(name, sort);
        assert forall|i: int| 0 <= i < now.folders.len() implies inside(now.root, (#[trigger] now.folders[i]).0) by {
            if i < search.folders.len() {
                assert(now.folders[i] == search.folders[i]);
            }
        }
        assert forall|i: int| 0 <= i < now.files.len() implies inside(now.root, #[trigger] now.files[i]) by {
            if i < search.files.len() {
                assert(now.files[i] == search.files[i]);
            }
        }
    }
}

proof fn lemma_skipping_stays_inside(search: SearchView)
    requires
        search.stays_inside(),
    ensures
        search.skipped().stays_inside(),
        search.skipped().root == search.root,
    decreases search.folders.len(),
{
    if search.folders.len() > 0 && search.skips() {
        let rest = SearchView { folders: search.folders.drop_last(), ..search };
        assert forall|i: int| 0 <= i < rest.folders.len() implies inside(
            rest.root,
            (#[trigger] rest.folders[i]).0,
        ) by {
            assert(rest.folders[i] == search.folders[i]);
        }
        lemma_skipping_stays_inside(rest);
    }
}

/// The folders in a root, with what they are called.
pub open spec fn folders_among(root: Seq<u8>, names: Seq<Seq<u8>>, sorts: Seq<Sort>, n: int) -> Seq<Seq<u8>>
    decreases n,
{
    if n <= 0 {
        Seq::empty()
    } else {
        let path = under(root, names[n - 1]);
        let before = folders_among(root, names, sorts, n - 1);
        if sorts[n - 1] == Sort::Dir && is_name(names[n - 1]) && !noise_name(lower_name(path)) {
            before.push(path)
        } else {
            before
        }
    }
}

pub open spec fn path_keys(list: Seq<Seq<u8>>) -> Seq<Seq<u32>> {
    Seq::new(list.len(), |i: int| path_key(list[i]))
}

/// Paths in order.
pub open spec fn paths_in_order(list: Seq<Seq<u8>>) -> Seq<Seq<u8>> {
    let places = order_of(path_keys(list));
    Seq::new(places.len(), |i: int| list[places[i] as int])
}

/// The folders of a chosen root that are examined, in order: all that are directories, links not followed,
/// but for those that hold no game.
pub fn folders_to_examine(root: &FilePath, names: &Vec<Vec<u8>>, sorts: &Vec<Sort>) -> (dirs: Vec<FilePath>)
    requires
        names@.len() == sorts@.len(),
    ensures
        paths_view(dirs@) == paths_in_order(
            folders_among(root@, names_view(names@), sorts@, names@.len() as int),
        ),
{
    let ghost all = names_view(names@);
    let mut found: Vec<FilePath> = Vec::new();
    let mut keys: Vec<Vec<u32>> = Vec::new();
    let mut i: usize = 0;
    assert(paths_view(found@) =~= folders_among(root@, all, sorts@, 0));
    while i < names.len()
        invariant
            i <= names.len(),
            names@.len() == sorts@.len(),
            all == names_view(names@),
            paths_view(found@) == folders_among(root@, all, sorts@, i as int),
            keys@.len() == found@.len(),
            forall|k: int| 0 <= k < keys@.len() ==> (#[trigger] keys@[k])@ == path_key(found@[k]@),
        decreases names.len() - i,
    {
        assert(all[i as int] == names@[i as int]@);
        if is_plain_name(names[i].as_slice()) {
            let path = root.join(&FilePath::from_bytes(names[i].as_slice()));
            let is_dir = match sorts[i] {
                Sort::Dir => true,
                _ => false,
            };
            if is_dir && !is_noise_dir(&path) {
                proof {
                    crate::path::lemma_paths_push(found@, path);
                }
                keys.push(path.key());
                found.push(path);
            }
        }
        i = i + 1;
    }
    let ghost list = paths_view(found@);
    assert(keys_view(keys@) =~= path_keys(list));
    let places = order(&keys);
    proof {
        lemma_order_of(path_keys(list), places@);
    }
    let mut dirs: Vec<FilePath> = Vec::new();
    let mut n: usize = 0;
    while n < places.len()
        invariant
            n <= places.len(),
            list == paths_view(found@),
            in_order(path_keys(list), places@),
            dirs@.len() == n,
            forall|k: int| 0 <= k < n ==> (#[trigger] dirs@[k])@ == list[places@[k] as int],
        decreases places.len() - n,
    {
        assert(places@[n as int] < path_keys(list).len());
        assert(list.len() == found@.len());
        dirs.push(found[places[n]].copy());
        n = n + 1;
    }
    assert(paths_view(dirs@) =~= paths_in_order(list));
    dirs
}

proof fn lemma_folders_are_inside(root: Seq<u8>, names: Seq<Seq<u8>>, sorts: Seq<Sort>, n: int, i: int)
    requires
        0 <= i < folders_among(root, names, sorts, n).len(),
    ensures
        inside(root, folders_among(root, names, sorts, n)[i]),
    decreases n,
{
    if n > 0 {
        let before = folders_among(root, names, sorts, n - 1);
        if i < before.len() {
            lemma_folders_are_inside(root, names, sorts, n - 1, i);
        } else {
            law_search_begins_inside(root);
            law_names_stay_inside(root, root, names[n - 1]);
        }
    }
}

proof fn lemma_folders_are_few(root: Seq<u8>, names: Seq<Seq<u8>>, sorts: Seq<Sort>, n: int)
    requires
        0 <= n,
    ensures
        folders_among(root, names, sorts, n).len() <= n,
    decreases n,
{
    if n > 0 {
        lemma_folders_are_few(root, names, sorts, n - 1);
    }
}

/// Nothing outside a chosen root is examined.
pub proof fn law_examined_folders_are_inside(root: Seq<u8>, names: Seq<Seq<u8>>, sorts: Seq<Sort>, i: int)
    requires
        names.len() == sorts.len(),
        names.len() <= usize::MAX,
        0 <= i < paths_in_order(folders_among(root, names, sorts, names.len() as int)).len(),
    ensures
        inside(root, paths_in_order(folders_among(root, names, sorts, names.len() as int))[i]),
{
    let list = folders_among(root, names, sorts, names.len() as int);
    lemma_folders_are_few(root, names, sorts, names.len() as int);
    lemma_some_order(path_keys(list));
    let places = order_of(path_keys(list));
    assert(in_order(path_keys(list), places));
    assert(places[i] < path_keys(list).len());
    lemma_folders_are_inside(root, names, sorts, names.len() as int, places[i] as int);
}

/// The games of a chosen root: those of the folders in it, or else what the root itself is.
pub fn games_of_root(children: Vec<Candidate>, own: Option<Candidate>) -> (games: Vec<Candidate>)
    ensures
        candidates_view(games@) == if children@.len() > 0 {
            candidates_view(children@)
        } else {
            match own {
                Some(game) => seq![game@],
                None => Seq::empty(),
            }
        },
{
    if children.len() > 0 {
        return children;
    }
    let mut games: Vec<Candidate> = Vec::new();
    if let Some(game) = own {
        let ghost view = game@;
        games.push(game);
        assert(candidates_view(games@) =~= seq![view]);
    } else {
        assert(candidates_view(games@) =~= Seq::empty());
    }
    games
}

pub open spec fn sum_of(counts: Seq<usize>) -> nat
    decreases counts.len(),
{
    if counts.len() == 0 {
        0
    } else {
        sum_of(counts.drop_last()) + counts.last() as nat
    }
}

/// How far a search over roots has come: so many folders of so many.
#[derive(Debug, Clone, Copy, PartialEq, Eq, Structural)]
pub struct Progress {
    pub done: u128,
    pub total: u128,
}

/// What a search has to do: a step for each folder, or for each root where no root has any.
pub open spec fn steps_of(counts: Seq<usize>) -> nat {
    if sum_of(counts) > 0 {
        sum_of(counts)
    } else {
        counts.len()
    }
}

impl Progress {
    pub open spec fn wf(self) -> bool {
        self.done <= self.total
    }

    /// Before the first folder; `counts` are the folders of each root.
    pub fn new(counts: &Vec<usize>) -> (progress: Progress)
        ensures
            progress.wf(),
            progress.done == 0,
            progress.total == steps_of(counts@),
    {
        let length: usize = counts.len();
        let mut total: u128 = 0;
        let mut i: usize = 0;
        assert(counts@.take(0) =~= Seq::empty());
        while i < counts.len()
            invariant
                i <= counts.len(),
                length == counts@.len(),
                total == sum_of(counts@.take(i as int)),
                total <= i * usize::MAX,
            decreases counts.len() - i,
        {
            assert(counts@.take(i + 1).drop_last() =~= counts@.take(i as int));
            assert(i * usize::MAX + usize::MAX == (i + 1) * usize::MAX) by (nonlinear_arith);
            assert((i + 1) * usize::MAX <= u128::MAX) by (nonlinear_arith)
                requires
                    i < usize::MAX,
                    usize::MAX <= u64::MAX,
            ;
            total = total + counts[i] as u128;
            i = i + 1;
        }
        assert(counts@.take(i as int) =~= counts@);
        if total == 0 {
            total = length as u128;
        }
        Progress { done: 0, total }
    }

    /// One more folder was examined.
    pub fn step(&mut self)
        requires
            old(self).wf(),
        ensures
            final(self).wf(),
            final(self).total == old(self).total,
            final(self).done == if old(self).done < old(self).total {
                old(self).done + 1
            } else {
                old(self).done as int
            },
    {
        if self.done < self.total {
            self.done = self.done + 1;
        }
    }

    /// The search is through.
    pub fn finish(&mut self)
        ensures
            final(self).wf(),
            final(self).total == old(self).total,
            final(self).done == old(self).total,
    {
        self.done = self.total;
    }

    /// What is shown: never more done than there is, and never of none.
    pub fn shown(&self) -> (numbers: (u128, u128))
        ensures
            numbers == (self.done, if self.total == 0 {
                1u128
            } else {
                self.total
            }),
    {
        if self.total == 0 {
            (self.done, 1)
        } else {
            (self.done, self.total)
        }
    }
}

/// Is it GOG's description of a game, by its name?
pub open spec fn gog_info_name(name: Seq<char>) -> bool {
    "goggame-"@.is_prefix_of(name) && ".info"@.is_suffix_of(name)
}

/// The first of the files that describes a game of GOG.
pub open spec fn gog_info_in(files: Seq<Seq<u8>>) -> Option<int>
    decreases files.len(),
{
    if files.len() == 0 {
        None
    } else if gog_info_in(files.drop_last()) is Some {
        gog_info_in(files.drop_last())
    } else if gog_info_name(lower_name(files.last())) {
        Some(files.len() - 1)
    } else {
        None
    }
}

proof fn lemma_gog_info_stays(files: Seq<Seq<u8>>, n: int)
    requires
        0 <= n <= files.len(),
        gog_info_in(files.take(n)) is Some,
    ensures
        gog_info_in(files) == gog_info_in(files.take(n)),
    decreases files.len(),
{
    if n < files.len() {
        assert(files.drop_last().take(n) =~= files.take(n));
        lemma_gog_info_stays(files.drop_last(), n);
    } else {
        assert(files.take(n) =~= files);
    }
}

pub fn find_gog_info(files: &Vec<FilePath>) -> (place: Option<usize>)
    ensures
        match gog_info_in(paths_view(files@)) {
            Some(at) => place is Some && place->0 == at && 0 <= at < files@.len(),
            None => place is None,
        },
{
    let ghost all = paths_view(files@);
    let mut i: usize = 0;
    while i < files.len()
        invariant
            i <= files.len(),
            all == paths_view(files@),
            gog_info_in(all.take(i as int)) is None,
        decreases files.len() - i,
    {
        assert(all.take(i + 1).drop_last() =~= all.take(i as int));
        assert(all.take(i + 1).last() == files@[i as int]@);
        let name = name_in_lower_case(&files[i]);
        if starts_with(name.as_str(), "goggame-") && before_suffix(name.as_str(), ".info").is_some() {
            proof {
                lemma_gog_info_stays(all, i + 1);
            }
            return Some(i);
        }
        i = i + 1;
    }
    assert(all.take(i as int) =~= all);
    None
}

/// The first task that is marked as the primary one, or else the first.
pub open spec fn primary_task(tasks: Seq<JsonView>) -> Option<JsonView> {
    match marked_task(tasks) {
        Some(task) => Some(task),
        None => if tasks.len() > 0 {
            Some(tasks[0])
        } else {
            None
        },
    }
}

pub open spec fn marked_task(tasks: Seq<JsonView>) -> Option<JsonView>
    decreases tasks.len(),
{
    if tasks.len() == 0 {
        None
    } else if tasks[0].flag_at("isPrimary"@) == Some(true) {
        Some(tasks[0])
    } else {
        marked_task(tasks.skip(1))
    }
}

/// The game that a description is about, and the path it gives for its executable.
pub open spec fn gog_game(info: JsonView) -> Option<(Seq<char>, Seq<char>)> {
    match info.text_at("name"@) {
        Some(name) => match primary_task(info.items_at("playTasks"@)) {
            Some(task) => match task.text_at("path"@) {
                Some(path) => Some((name, path)),
                None => None,
            },
            None => None,
        },
        None => None,
    }
}

/// Reads what a description of GOG says: the name of the game and the path of its executable.
pub fn read_gog(info: &Json) -> (game: Option<(String, String)>)
    ensures
        match gog_game(info.model()) {
            Some((name, path)) => game matches Some(found) && found.0@ == name && found.1@ == path,
            None => game is None,
        },
{
    let name = match info.string("name") {
        Some(name) => name,
        None => return None,
    };
    let tasks = info.as_array("playTasks");
    let ghost all = list_model(tasks@);
    let mut i: usize = 0;
    assert(all.skip(0) =~= all);
    while i < tasks.len()
        invariant
            i <= tasks.len(),
            all == list_model(tasks@),
            all == info.model().items_at("playTasks"@),
            Some(name@) == info.model().text_at("name"@),
            marked_task(all) == marked_task(all.skip(i as int)),
        decreases tasks.len() - i,
    {
        assert(all.skip(i as int)[0] == tasks@[i as int].model());
        assert(all.skip(i as int).skip(1) =~= all.skip(i + 1));
        if let Some(true) = tasks[i].flag("isPrimary") {
            return match tasks[i].string("path") {
                Some(path) => Some((name, path)),
                None => None,
            };
        }
        i = i + 1;
    }
    if tasks.len() == 0 {
        return None;
    }
    assert(all[0] == tasks@[0].model());
    match tasks[0].string("path") {
        Some(path) => Some((name, path)),
        None => None,
    }
}

/// The same, from the text of the description.
pub fn read_gog_text(text: &str) -> (game: Option<(String, String)>)
    ensures
        match json_document(text@) {
            Ok(info) => match gog_game(info) {
                Some((name, path)) => game matches Some(found) && found.0@ == name && found.1@ == path,
                None => game is None,
            },
            Err(_) => game is None,
        },
{
    match parse(text) {
        Ok(info) => read_gog(&info),
        Err(_) => None,
    }
}

pub open spec fn slashed(text: Seq<char>) -> Seq<char> {
    Seq::new(
        text.len(),
        |i: int|
            if text[i] == '\\' {
                '/'
            } else {
                text[i]
            },
    )
}

/// The executable that a description names, as a path below its folder.
pub fn gog_exe(folder: &FilePath, relative: &str) -> (exe: FilePath)
    ensures
        exe@ == under_text(folder@, slashed(relative@)),
{
    let turned = replace_char(relative, '\\', '/');
    assert(turned@ =~= slashed(relative@));
    folder.join_text(turned.as_str())
}

/// Does a path stay inside a root, by where both really are? The path comes out of a metadata file on disk,
/// so it is untrusted: it must not lead out of the folder being examined.
pub fn within(root: Option<&FilePath>, path: Option<&FilePath>) -> (is: bool)
    ensures
        is == (root is Some && path is Some && parts(root->0@).is_prefix_of(parts(path->0@))),
{
    match (root, path) {
        (Some(root), Some(path)) => path.starts_with(root),
        _ => false,
    }
}

/// A game that GOG describes.
pub open spec fn gog_candidate_of(
    folder: Seq<u8>,
    name: Seq<char>,
    exe: Seq<u8>,
    prefix: Option<Seq<u8>>,
) -> CandidateView {
    CandidateView {
        exe: Some(exe),
        prefix,
        working_dir: Some(
            match parent_of(exe) {
                Some(parent) => parent,
                None => folder,
            },
        ),
        ..plain_candidate(
            id_of(exe),
            name,
            if windows_program(exe) {
                "wine"@
            } else {
                "linux"@
            },
            "gog"@,
            Confidence::High,
            seq!["GOG metadata in the folder names the game and its launch executable"@],
        )
    }
}

/// The game that GOG describes, where its executable is inside the folder and is a file.
pub fn gog_candidate(
    folder: &FilePath,
    name: String,
    exe: FilePath,
    inside: bool,
    is_file: bool,
    prefix: Option<FilePath>,
) -> (candidate: Option<Candidate>)
    ensures
        candidate is Some <==> inside && is_file,
        candidate matches Some(candidate) ==> candidate@ == gog_candidate_of(
            folder@,
            name@,
            exe@,
            held_path(prefix),
        ),
{
    if !inside || !is_file {
        return None;
    }
    let runner = if is_windows_exe(&exe) {
        "wine"
    } else {
        "linux"
    };
    let reasons = vec![
        "GOG metadata in the folder names the game and its launch executable".to_string(),
    ];
    assert(texts(reasons@) =~= seq![
        "GOG metadata in the folder names the game and its launch executable"@,
    ]);
    let mut candidate = new_candidate(
        short_id(&exe),
        name,
        runner,
        "gog",
        Confidence::High,
        reasons,
    );
    candidate.prefix = prefix;
    candidate.working_dir = Some(
        match exe.parent() {
            Some(parent) => parent,
            None => folder.copy(),
        },
    );
    candidate.exe = Some(exe);
    Some(candidate)
}

/// Does it start a Linux game, by its name in lower case?
pub open spec fn launcher_name(name: Seq<char>) -> bool {
    name == "start.sh"@ || name == "run.sh"@ || ".x86_64"@.is_suffix_of(name)
}

/// The first of the files that may be run and starts a Linux game.
pub open spec fn launcher_in(files: Seq<Seq<u8>>, runnable: Seq<bool>) -> Option<int>
    decreases files.len(),
{
    if files.len() == 0 {
        None
    } else if launcher_in(files.drop_last(), runnable) is Some {
        launcher_in(files.drop_last(), runnable)
    } else if runnable[files.len() - 1] && launcher_name(lower_name(files.last())) {
        Some(files.len() - 1)
    } else {
        None
    }
}

proof fn lemma_launcher_stays(files: Seq<Seq<u8>>, runnable: Seq<bool>, n: int)
    requires
        0 <= n <= files.len(),
        launcher_in(files.take(n), runnable) is Some,
    ensures
        launcher_in(files, runnable) == launcher_in(files.take(n), runnable),
    decreases files.len(),
{
    if n < files.len() {
        assert(files.drop_last().take(n) =~= files.take(n));
        lemma_launcher_stays(files.drop_last(), runnable, n);
    } else {
        assert(files.take(n) =~= files);
    }
}

pub open spec fn linux_game(folder: Seq<u8>, launcher: Seq<u8>) -> CandidateView {
    CandidateView {
        exe: Some(launcher),
        working_dir: parent_of(launcher),
        ..plain_candidate(
            id_of(launcher),
            pretty(folder, launcher),
            "linux"@,
            "linux"@,
            Confidence::Medium,
            seq!["it has a native Linux launcher script or binary"@],
        )
    }
}

/// The Linux game in a folder, by its files and by which of them may be run.
pub fn linux_candidate(folder: &FilePath, files: &Vec<FilePath>, runnable: &Vec<bool>) -> (candidate:
    Option<Candidate>)
    requires
        files@.len() == runnable@.len(),
    ensures
        match launcher_in(paths_view(files@), runnable@) {
            Some(at) => candidate is Some && candidate->0@ == linux_game(
                folder@,
                paths_view(files@)[at],
            ),
            None => candidate is None,
        },
{
    let ghost all = paths_view(files@);
    let mut i: usize = 0;
    while i < files.len()
        invariant
            i <= files.len(),
            files@.len() == runnable@.len(),
            all == paths_view(files@),
            launcher_in(all.take(i as int), runnable@) is None,
        decreases files.len() - i,
    {
        assert(all.take(i + 1).drop_last() =~= all.take(i as int));
        assert(all.take(i + 1).last() == files@[i as int]@);
        let name = name_in_lower_case(&files[i]);
        if runnable[i] && (same(name.as_str(), "start.sh") || same(name.as_str(), "run.sh")
            || before_suffix(name.as_str(), ".x86_64").is_some()) {
            proof {
                lemma_launcher_stays(all, runnable@, i + 1);
            }
            let launcher = &files[i];
            let reasons = vec!["it has a native Linux launcher script or binary".to_string()];
            assert(texts(reasons@) =~= seq!["it has a native Linux launcher script or binary"@]);
            let mut candidate = new_candidate(
                short_id(launcher),
                pretty_name(folder, launcher),
                "linux",
                "linux",
                Confidence::Medium,
                reasons,
            );
            candidate.working_dir = launcher.parent();
            candidate.exe = Some(launcher.copy());
            return Some(candidate);
        }
        i = i + 1;
    }
    assert(all.take(i as int) =~= all);
    None
}

/// If an executable already lives inside a Wine prefix, that prefix is reused: importing a game must never
/// create a new empty prefix over an existing one. The first of the executable's ancestors that holds both
/// `drive_c` and `system.reg`.
pub fn find_prefix(ancestors: &Vec<FilePath>, is_prefix: &Vec<bool>) -> (prefix: Option<FilePath>)
    ensures
        held_path(prefix) == first_marked(paths_view(ancestors@), is_prefix@),
{
    let ghost all = paths_view(ancestors@);
    let mut i: usize = 0;
    assert(all.skip(0) =~= all);
    assert(is_prefix@.skip(0) =~= is_prefix@);
    while i < ancestors.len() && i < is_prefix.len()
        invariant
            i <= ancestors.len(),
            i <= is_prefix.len(),
            all == paths_view(ancestors@),
            first_marked(all, is_prefix@) == first_marked(
                all.skip(i as int),
                is_prefix@.skip(i as int),
            ),
        decreases ancestors.len() - i,
    {
        assert(all.skip(i as int)[0] == ancestors@[i as int]@);
        assert(is_prefix@.skip(i as int)[0] == is_prefix@[i as int]);
        if is_prefix[i] {
            return Some(ancestors[i].copy());
        }
        assert(all.skip(i as int).skip(1) =~= all.skip(i + 1));
        assert(is_prefix@.skip(i as int).skip(1) =~= is_prefix@.skip(i + 1));
        i = i + 1;
    }
    None
}

pub open spec fn first_marked(list: Seq<Seq<u8>>, marks: Seq<bool>) -> Option<Seq<u8>>
    decreases list.len(),
{
    if list.len() == 0 || marks.len() == 0 {
        None
    } else if marks[0] {
        Some(list[0])
    } else {
        first_marked(list.skip(1), marks.skip(1))
    }
}

/// A game that Lutris has.
#[derive(Debug)]
pub struct Entry {
    pub appid: Option<String>,
    pub exe: Option<FilePath>,
    pub prefix: Option<FilePath>,
    pub slug: String,
}

pub struct EntryView {
    pub appid: Option<Seq<char>>,
    pub exe: Option<Seq<u8>>,
    pub prefix: Option<Seq<u8>>,
    pub slug: Seq<char>,
}

impl View for Entry {
    type V = EntryView;

    open spec fn view(&self) -> EntryView {
        EntryView {
            appid: held_text(self.appid),
            exe: held_path(self.exe),
            prefix: held_path(self.prefix),
            slug: self.slug@,
        }
    }
}

pub open spec fn same_place(left: Option<Seq<u8>>, right: Option<Seq<u8>>) -> bool {
    left is Some && right is Some && parts(left->0) == parts(right->0)
}

/// Is a game that was found the one that Lutris has? By the app, by the executable, by sharing a prefix that
/// the executable Lutris has is in, or by the short name.
pub open spec fn is_entry(candidate: CandidateView, slug: Seq<char>, entry: EntryView) -> bool {
    ||| candidate.appid is Some && candidate.appid == entry.appid
    ||| same_place(candidate.exe, entry.exe)
    ||| same_place(candidate.prefix, entry.prefix) && entry.exe is Some && parts(
        candidate.prefix->0,
    ).is_prefix_of(parts(entry.exe->0))
    ||| entry.slug == slug
}

pub open spec fn in_entries(candidate: CandidateView, slug: Seq<char>, entries: Seq<EntryView>) -> bool {
    exists|i: int| 0 <= i < entries.len() && is_entry(candidate, slug, #[trigger] entries[i])
}

pub open spec fn entries_view(list: Seq<Entry>) -> Seq<EntryView> {
    Seq::new(list.len(), |i: int| list[i]@)
}

fn same_if_both(left: &Option<FilePath>, right: &Option<FilePath>) -> (same: bool)
    ensures
        same == same_place(held_path(*left), held_path(*right)),
{
    match (left, right) {
        (Some(left), Some(right)) => left.same_as(right),
        _ => false,
    }
}

fn matches_entry(candidate: &Candidate, slug: &str, entry: &Entry) -> (does: bool)
    ensures
        does == is_entry(candidate@, slug@, entry@),
{
    if let (Some(left), Some(right)) = (&candidate.appid, &entry.appid) {
        if same(left.as_str(), right.as_str()) {
            return true;
        }
    }
    if same_if_both(&candidate.exe, &entry.exe) {
        return true;
    }
    // Two entries sharing a Wine prefix and a game directory are the same installation seen twice.
    if same_if_both(&candidate.prefix, &entry.prefix) {
        if let (Some(prefix), Some(exe)) = (&candidate.prefix, &entry.exe) {
            if exe.starts_with(prefix) {
                return true;
            }
        }
    }
    same(entry.slug.as_str(), slug)
}

/// Does Lutris have the game? `slug` is the short name that Lutris would give it.
pub fn matches_existing(candidate: &Candidate, slug: &str, existing: &Vec<Entry>) -> (does: bool)
    ensures
        does == in_entries(candidate@, slug@, entries_view(existing@)),
{
    let ghost all = entries_view(existing@);
    let mut i: usize = 0;
    while i < existing.len()
        invariant
            i <= existing.len(),
            all == entries_view(existing@),
            forall|k: int| 0 <= k < i ==> !is_entry(candidate@, slug@, #[trigger] all[k]),
        decreases existing.len() - i,
    {
        assert(all[i as int] == existing@[i as int]@);
        if matches_entry(candidate, slug, &existing[i]) {
            return true;
        }
        i = i + 1;
    }
    false
}

/// Why a detected game cannot be imported, where it cannot.
///
/// Detection and eligibility are separate. A Steam game is worth listing so the user can see it was found,
/// and is not worth importing because Lutris already lists installed Steam games through its own Steam
/// source.
pub open spec fn blocker(source: Seq<char>, in_lutris: bool) -> Option<Seq<char>> {
    if source == "steam"@ {
        Some(
            "Lutris lists installed Steam games through its own Steam source, so importing this would create a second entry for it"@,
        )
    } else if in_lutris {
        Some("Lutris already has this game"@)
    } else {
        None
    }
}

pub fn import_blocker(source: &str, in_lutris: bool) -> (reason: Option<String>)
    ensures
        held_text(reason) == blocker(source@, in_lutris),
{
    if same(source, "steam") {
        Some(
            "Lutris lists installed Steam games through its own Steam source, so importing this would create a second entry for it".to_string(),
        )
    } else if in_lutris {
        Some("Lutris already has this game".to_string())
    } else {
        None
    }
}

/// What is to be said of the filesystem that a game's prefix, or else the game, is on.
pub open spec fn drive_warning(mount: Option<MountView>) -> Option<Seq<char>> {
    match mount {
        Some(mount) => match mount.capability {
            Capability::NeedsRepair => Some(
                "the prefix for this game is on "@ + mount.fs_type
                    + ", where Proton and Wine data does not work reliably"@,
            ),
            Capability::NoSymlinks => Some(
                "the prefix for this game is on "@ + mount.fs_type
                    + ", which cannot hold a working Wine prefix"@,
            ),
            _ => None,
        },
        None => None,
    }
}

/// The place whose filesystem matters for a game: its prefix, or else where it is.
pub fn filesystem_subject(candidate: &Candidate) -> (path: Option<FilePath>)
    ensures
        held_path(path) == match candidate@.prefix {
            Some(prefix) => Some(prefix),
            None => candidate@.working_dir,
        },
{
    match &candidate.prefix {
        Some(prefix) => Some(prefix.copy()),
        None => match &candidate.working_dir {
            Some(dir) => Some(dir.copy()),
            None => None,
        },
    }
}

/// Registering a game does not make an unusable prefix usable. Say so where the filesystem underneath is one
/// that is known to be a problem.
pub fn filesystem_warning(mount: Option<&Mount>) -> (warning: Option<String>)
    ensures
        held_text(warning) == drive_warning(crate::checks::optional_mount(mount)),
{
    match mount {
        Some(mount) => match mount.capability {
            Capability::NeedsRepair => {
                let mut text = "the prefix for this game is on ".to_string();
                text.push_str(mount.fs_type.as_str());
                text.push_str(", where Proton and Wine data does not work reliably");
                Some(text)
            },
            Capability::NoSymlinks => {
                let mut text = "the prefix for this game is on ".to_string();
                text.push_str(mount.fs_type.as_str());
                text.push_str(", which cannot hold a working Wine prefix");
                Some(text)
            },
            _ => None,
        },
        None => None,
    }
}

pub open spec fn each_lower(names: Seq<Seq<char>>) -> Seq<Seq<char>> {
    Seq::new(names.len(), |i: int| lowercase_text(names[i]))
}

pub open spec fn compiler_name(name: Seq<char>) -> bool {
    "d3dcompiler_"@.is_prefix_of(name) && ".dll"@.is_suffix_of(name)
}

pub open spec fn has_compiler(names: Seq<Seq<char>>) -> bool {
    exists|i: int| 0 <= i < names.len() && compiler_name(#[trigger] names[i])
}

pub open spec fn has_shim(names: Seq<Seq<char>>) -> bool {
    names.contains("steam_emu.ini"@) || names.contains("steam_api64.dll"@) || names.contains(
        "steamclient64.dll"@,
    )
}

/// What a game's folder says about launching it, by the names in it, in lower case.
///
/// A game that ships one of the compiler's libraries owns the loading behaviour for it, and one with a shim
/// in place of Steam needs an override.
pub open spec fn pitfalls(names: Seq<Seq<char>>) -> Seq<Seq<char>> {
    (if has_compiler(names) {
        seq![
            "This game ships its own d3dcompiler DLL. Lutris's default \"Enable D3D Extras\" option loads that family as native-only, so Wine skips the bundled copy and the game closes itself immediately with \"DLL not found\" (status c0000135). Turn OFF \"Enable D3D Extras\" in the game's Lutris runner options before running it."@,
        ]
    } else {
        Seq::empty()
    }) + (if has_shim(names) {
        seq![
            "This game is a launcher-emulation build with its own Steam API shim (found steam_emu.ini or steam_api64.dll / steamclient64.dll beside the game). If it reports \"unable to create interface ISteamUser\" or \"unable to load steamclient64.dll\" and exits, add a DLL override lsteamclient = d in the game's Lutris runner options. Note: ISteamUser is an interface, not a DLL, so that key does nothing."@,
        ]
    } else {
        Seq::empty()
    })
}

/// Problems that will only show up once the game is launched, read off the names beside its executable so
/// that a scan can warn before the user adds the game. These are the quietly fatal ones: a game that closes
/// its window immediately with exit code 0.
pub fn launch_warnings(names: &Vec<String>) -> (warnings: Vec<String>)
    ensures
        texts(warnings@) == pitfalls(each_lower(texts(names@))),
{
    let ghost all = each_lower(texts(names@));
    let mut lower: Vec<String> = Vec::new();
    let mut compiler = false;
    let mut i: usize = 0;
    while i < names.len()
        invariant
            i <= names.len(),
            all == each_lower(texts(names@)),
            lower@.len() == i,
            forall|k: int| 0 <= k < i ==> (#[trigger] lower@[k])@ == all[k],
            compiler == exists|k: int| 0 <= k < i && compiler_name(#[trigger] all[k]),
        decreases names.len() - i,
    {
        let name = lowercase(names[i].as_str());
        assert(name@ == all[i as int]);
        if starts_with(name.as_str(), "d3dcompiler_") && before_suffix(name.as_str(), ".dll").is_some() {
            compiler = true;
        }
        lower.push(name);
        i = i + 1;
    }
    assert(texts(lower@) =~= all);
    let mut warnings: Vec<String> = Vec::new();
    if compiler {
        warnings.push(
            "This game ships its own d3dcompiler DLL. Lutris's default \"Enable D3D Extras\" option loads that family as native-only, so Wine skips the bundled copy and the game closes itself immediately with \"DLL not found\" (status c0000135). Turn OFF \"Enable D3D Extras\" in the game's Lutris runner options before running it.".to_string(),
        );
    }
    if lists(&lower, "steam_emu.ini") || lists(&lower, "steam_api64.dll") || lists(
        &lower,
        "steamclient64.dll",
    ) {
        warnings.push(
            "This game is a launcher-emulation build with its own Steam API shim (found steam_emu.ini or steam_api64.dll / steamclient64.dll beside the game). If it reports \"unable to create interface ISteamUser\" or \"unable to load steamclient64.dll\" and exits, add a DLL override lsteamclient = d in the game's Lutris runner options. Note: ISteamUser is an interface, not a DLL, so that key does nothing.".to_string(),
        );
    }
    assert(texts(warnings@) =~= pitfalls(all));
    warnings
}

/// A game that Steam has installed.
pub open spec fn steam_game(library: LibraryView, app: (Seq<char>, Seq<char>)) -> CandidateView {
    CandidateView {
        appid: Some(app.0),
        working_dir: Some(under_text(library.steamapps, "common"@)),
        ..plain_candidate(
            id_of(encode_utf8("steam:"@ + app.0)),
            app.1,
            "steam"@,
            "steam"@,
            Confidence::High,
            seq![
                "Steam lists it as installed in "@ + library.name() + " (app "@ + app.0 + ")"@,
            ],
        )
    }
}

pub open spec fn all_steam_games(library: LibraryView, apps: AppList) -> Seq<CandidateView> {
    Seq::new(apps.len(), |i: int| steam_game(library, apps[i]))
}

/// The games that Steam has installed in a library.
pub fn steam_games(library: &Library, apps: &Vec<(String, String)>) -> (found: Vec<Candidate>)
    ensures
        candidates_view(found@) == all_steam_games(library@, apps_view(apps@)),
{
    let ghost wanted = all_steam_games(library@, apps_view(apps@));
    let mut found: Vec<Candidate> = Vec::new();
    let mut i: usize = 0;
    while i < apps.len()
        invariant
            i <= apps.len(),
            wanted == all_steam_games(library@, apps_view(apps@)),
            found@.len() == i,
            forall|k: int| 0 <= k < i ==> (#[trigger] found@[k])@ == wanted[k],
        decreases apps.len() - i,
    {
        let mut handle = "steam:".to_string();
        handle.push_str(apps[i].0.as_str());
        let mut reason = "Steam lists it as installed in ".to_string();
        reason.push_str(library.display_name().as_str());
        reason.push_str(" (app ");
        reason.push_str(apps[i].0.as_str());
        reason.push_str(")");
        let ghost said = reason@;
        let reasons = vec![reason];
        assert(texts(reasons@) =~= seq![said]);
        let mut candidate = new_candidate(
            short_id(&FilePath::new(handle.as_str())),
            apps[i].1.clone(),
            "steam",
            "steam",
            Confidence::High,
            reasons,
        );
        candidate.appid = Some(apps[i].0.clone());
        candidate.working_dir = Some(library.steamapps.join_text("common"));
        assert(candidate@ == wanted[i as int]);
        found.push(candidate);
        i = i + 1;
    }
    assert(candidates_view(found@) =~= wanted);
    found
}

fn copy_texts(list: &Vec<String>) -> (copy: Vec<String>)
    ensures
        texts(copy@) == texts(list@),
{
    let mut copy: Vec<String> = Vec::new();
    let mut i: usize = 0;
    while i < list.len()
        invariant
            i <= list.len(),
            copy@.len() == i,
            forall|k: int| 0 <= k < i ==> (#[trigger] copy@[k])@ == list@[k]@,
        decreases list.len() - i,
    {
        copy.push(list[i].clone());
        i = i + 1;
    }
    assert(texts(copy@) =~= texts(list@));
    copy
}

fn copy_paths(list: &Vec<FilePath>) -> (copy: Vec<FilePath>)
    ensures
        paths_view(copy@) == paths_view(list@),
{
    let mut copy: Vec<FilePath> = Vec::new();
    let mut i: usize = 0;
    while i < list.len()
        invariant
            i <= list.len(),
            copy@.len() == i,
            forall|k: int| 0 <= k < i ==> (#[trigger] copy@[k])@ == list@[k]@,
        decreases list.len() - i,
    {
        copy.push(list[i].copy());
        i = i + 1;
    }
    assert(paths_view(copy@) =~= paths_view(list@));
    copy
}

fn copy_path(path: &Option<FilePath>) -> (copy: Option<FilePath>)
    ensures
        held_path(copy) == held_path(*path),
{
    match path {
        Some(path) => Some(path.copy()),
        None => None,
    }
}

fn copy_text(text: &Option<String>) -> (copy: Option<String>)
    ensures
        held_text(copy) == held_text(*text),
{
    match text {
        Some(text) => Some(text.clone()),
        None => None,
    }
}

impl Candidate {
    pub fn copy(&self) -> (copy: Candidate)
        ensures
            copy@ == self@,
    {
        Candidate {
            id: self.id.clone(),
            name: self.name.clone(),
            runner: self.runner.clone(),
            source: self.source,
            exe: copy_path(&self.exe),
            appid: copy_text(&self.appid),
            prefix: copy_path(&self.prefix),
            working_dir: copy_path(&self.working_dir),
            confidence: self.confidence,
            reasons: copy_texts(&self.reasons),
            in_lutris: self.in_lutris,
            eligible: self.eligible,
            blocking_reason: copy_text(&self.blocking_reason),
            filesystem_warning: copy_text(&self.filesystem_warning),
            launch_warnings: copy_texts(&self.launch_warnings),
            alternatives: copy_paths(&self.alternatives),
        }
    }
}

/// A game that was found, with what the disk shows around it: the short name Lutris would give it, the
/// filesystem it is on, and the names beside its executable.
#[derive(Debug)]
pub struct Sighting {
    pub candidate: Candidate,
    pub slug: String,
    pub mount: Option<Mount>,
    pub beside: Vec<String>,
}

pub struct SightingView {
    pub candidate: CandidateView,
    pub slug: Seq<char>,
    pub mount: Option<MountView>,
    pub beside: Seq<Seq<char>>,
}

impl View for Sighting {
    type V = SightingView;

    open spec fn view(&self) -> SightingView {
        SightingView {
            candidate: self.candidate@,
            slug: self.slug@,
            mount: crate::commands::held_mount(self.mount),
            beside: texts(self.beside@),
        }
    }
}

pub open spec fn sightings_view(list: Seq<Sighting>) -> Seq<SightingView> {
    Seq::new(list.len(), |i: int| list[i]@)
}

/// Is a game inside a Steam library, where the library's own manifest already covers it?
pub open spec fn covered(candidate: CandidateView, steam_dirs: Seq<Seq<u8>>) -> bool {
    candidate.source != "steam"@ && candidate.working_dir is Some && exists|i: int|
        0 <= i < steam_dirs.len() && parts(#[trigger] steam_dirs[i]).is_prefix_of(
            parts(candidate.working_dir->0),
        )
}

/// A game with all that is to be said about it.
pub open spec fn marked(sighting: SightingView, entries: Seq<EntryView>) -> CandidateView {
    let in_lutris = in_entries(sighting.candidate, sighting.slug, entries);
    let reason = blocker(sighting.candidate.source, in_lutris);
    CandidateView {
        in_lutris,
        filesystem_warning: drive_warning(sighting.mount),
        launch_warnings: pitfalls(each_lower(sighting.beside)),
        blocking_reason: reason,
        eligible: reason is None,
        ..sighting.candidate
    }
}

/// The games that no manifest covers, with all that is to be said about them.
pub open spec fn kept(
    sightings: Seq<SightingView>,
    steam_dirs: Seq<Seq<u8>>,
    entries: Seq<EntryView>,
) -> Seq<CandidateView>
    decreases sightings.len(),
{
    if sightings.len() == 0 {
        Seq::empty()
    } else {
        let before = kept(sightings.drop_last(), steam_dirs, entries);
        if covered(sightings.last().candidate, steam_dirs) {
            before
        } else {
            before.push(marked(sightings.last(), entries))
        }
    }
}

/// The sort key of a game: the surest first, and then by name in lower case.
pub open spec fn listing_key(candidate: CandidateView) -> Seq<u32> {
    seq![
        match candidate.confidence {
            Confidence::High => 0u32,
            Confidence::Medium => 1,
            Confidence::Low => 2,
        },
    ] + text_key(lowercase_text(candidate.name))
}

pub open spec fn listing_keys(list: Seq<CandidateView>) -> Seq<Seq<u32>> {
    Seq::new(list.len(), |i: int| listing_key(list[i]))
}

pub open spec fn in_listing_order(list: Seq<CandidateView>) -> Seq<CandidateView> {
    let places = order_of(listing_keys(list));
    Seq::new(places.len(), |i: int| list[places[i] as int])
}

pub open spec fn has_id(list: Seq<CandidateView>, id: Seq<char>) -> bool {
    exists|i: int| 0 <= i < list.len() && (#[trigger] list[i]).id == id
}

/// The games without those whose id came before.
pub open spec fn each_once(list: Seq<CandidateView>) -> Seq<CandidateView>
    decreases list.len(),
{
    if list.len() == 0 {
        Seq::empty()
    } else {
        let before = each_once(list.drop_last());
        if has_id(before, list.last().id) {
            before
        } else {
            before.push(list.last())
        }
    }
}

/// The list that a scan ends with.
pub open spec fn scan_result(
    sightings: Seq<SightingView>,
    steam_dirs: Seq<Seq<u8>>,
    entries: Seq<EntryView>,
) -> Seq<CandidateView> {
    each_once(in_listing_order(kept(sightings, steam_dirs, entries)))
}

fn is_covered(candidate: &Candidate, steam_dirs: &Vec<FilePath>) -> (is: bool)
    ensures
        is == covered(candidate@, paths_view(steam_dirs@)),
{
    if same(candidate.source, "steam") {
        return false;
    }
    match &candidate.working_dir {
        Some(dir) => {
            let ghost all = paths_view(steam_dirs@);
            let mut i: usize = 0;
            while i < steam_dirs.len()
                invariant
                    i <= steam_dirs.len(),
                    all == paths_view(steam_dirs@),
                    candidate@.working_dir == Some(dir@),
                    candidate@.source != "steam"@,
                    forall|k: int|
                        0 <= k < i ==> !parts(#[trigger] all[k]).is_prefix_of(parts(dir@)),
                decreases steam_dirs.len() - i,
            {
                assert(all[i as int] == steam_dirs@[i as int]@);
                if dir.starts_with(&steam_dirs[i]) {
                    return true;
                }
                i = i + 1;
            }
            false
        },
        None => false,
    }
}

fn mark(sighting: &Sighting, existing: &Vec<Entry>) -> (candidate: Candidate)
    ensures
        candidate@ == marked(sighting@, entries_view(existing@)),
{
    let mut candidate = sighting.candidate.copy();
    candidate.in_lutris = matches_existing(&sighting.candidate, sighting.slug.as_str(), existing);
    candidate.filesystem_warning = filesystem_warning(
        match &sighting.mount {
            Some(mount) => Some(mount),
            None => None,
        },
    );
    candidate.launch_warnings = launch_warnings(&sighting.beside);
    candidate.blocking_reason = import_blocker(candidate.source, candidate.in_lutris);
    candidate.eligible = candidate.blocking_reason.is_none();
    candidate
}

fn key_for_listing(candidate: &Candidate) -> (key: Vec<u32>)
    ensures
        key@ == listing_key(candidate@),
{
    let rank: u32 = match candidate.confidence {
        Confidence::High => 0,
        Confidence::Medium => 1,
        Confidence::Low => 2,
    };
    let mut key: Vec<u32> = Vec::new();
    key.push(rank);
    let mut name = key_of(lowercase(candidate.name.as_str()).as_str());
    key.append(&mut name);
    assert(key@ =~= listing_key(candidate@));
    key
}

/// Makes one list of what was found: without what a Steam library already covers, with what Lutris has
/// marked, the surest first, and each game once. Ids identify an executable, and the same executable can be
/// reached by more than one route.
pub fn scan(sightings: &Vec<Sighting>, steam_dirs: &Vec<FilePath>, existing: &Vec<Entry>) -> (list: Vec<
    Candidate,
>)
    ensures
        candidates_view(list@) == scan_result(
            sightings_view(sightings@),
            paths_view(steam_dirs@),
            entries_view(existing@),
        ),
{
    let ghost seen = sightings_view(sightings@);
    let ghost dirs = paths_view(steam_dirs@);
    let ghost entries = entries_view(existing@);
    let mut found: Vec<Candidate> = Vec::new();
    let mut keys: Vec<Vec<u32>> = Vec::new();
    let mut i: usize = 0;
    assert(candidates_view(found@) =~= kept(seen.take(0), dirs, entries));
    while i < sightings.len()
        invariant
            i <= sightings.len(),
            seen == sightings_view(sightings@),
            dirs == paths_view(steam_dirs@),
            entries == entries_view(existing@),
            candidates_view(found@) == kept(seen.take(i as int), dirs, entries),
            keys@.len() == found@.len(),
            forall|k: int| 0 <= k < keys@.len() ==> (#[trigger] keys@[k])@ == listing_key(found@[k]@),
        decreases sightings.len() - i,
    {
        assert(seen.take(i + 1).drop_last() =~= seen.take(i as int));
        assert(seen.take(i + 1).last() == sightings@[i as int]@);
        if !is_covered(&sightings[i].candidate, steam_dirs) {
            let candidate = mark(&sightings[i], existing);
            let ghost view = candidate@;
            let ghost before = found@;
            keys.push(key_for_listing(&candidate));
            found.push(candidate);
            assert(candidates_view(found@) =~= candidates_view(before).push(view));
        }
        i = i + 1;
    }
    assert(seen.take(i as int) =~= seen);
    let ghost all = candidates_view(found@);
    assert(keys_view(keys@) =~= listing_keys(all));
    let places = order(&keys);
    proof {
        lemma_order_of(listing_keys(all), places@);
    }
    let ghost sorted = in_listing_order(all);
    let mut list: Vec<Candidate> = Vec::new();
    let mut n: usize = 0;
    assert(candidates_view(list@) =~= each_once(sorted.take(0)));
    while n < places.len()
        invariant
            n <= places.len(),
            all == candidates_view(found@),
            sorted == in_listing_order(all),
            places@ == order_of(listing_keys(all)),
            in_order(listing_keys(all), places@),
            candidates_view(list@) == each_once(sorted.take(n as int)),
        decreases places.len() - n,
    {
        assert(places@[n as int] < listing_keys(all).len());
        assert(sorted.take(n + 1).drop_last() =~= sorted.take(n as int));
        assert(sorted.take(n + 1).last() == all[places@[n as int] as int]);
        let candidate = &found[places[n]];
        let ghost so_far = candidates_view(list@);
        let mut known = false;
        let mut k: usize = 0;
        while k < list.len()
            invariant
                k <= list.len(),
                so_far == candidates_view(list@),
                known == exists|m: int| 0 <= m < k && (#[trigger] so_far[m]).id == candidate.id@,
            decreases list.len() - k,
        {
            let here = same(list[k].id.as_str(), candidate.id.as_str());
            assert(so_far[k as int].id == list@[k as int].id@);
            if here {
                known = true;
            }
            k = k + 1;
        }
        if !known {
            let copy = candidate.copy();
            let ghost view = copy@;
            let ghost before = list@;
            list.push(copy);
            assert(candidates_view(list@) =~= candidates_view(before).push(view));
        }
        n = n + 1;
    }
    assert(sorted.take(n as int) =~= sorted);
    list
}

/// No game is in the list twice.
pub proof fn law_each_game_once(list: Seq<CandidateView>)
    ensures
        forall|i: int, j: int|
            0 <= i < j < each_once(list).len() ==> (#[trigger] each_once(list)[i]).id != (
            #[trigger] each_once(list)[j]).id,
        forall|k: int| 0 <= k < list.len() ==> has_id(each_once(list), (#[trigger] list[k]).id),
    decreases list.len(),
{
    if list.len() > 0 {
        let short = list.drop_last();
        let before = each_once(short);
        let all = each_once(list);
        law_each_game_once(short);
        assert forall|i: int, j: int| 0 <= i < j < all.len() implies (#[trigger] all[i]).id != (
        #[trigger] all[j]).id by {
            if j < before.len() {
                assert(before[i].id != before[j].id);
            } else {
                assert(all[i] == before[i]);
            }
        }
        assert forall|k: int| 0 <= k < list.len() implies has_id(all, (#[trigger] list[k]).id) by {
            if k < short.len() {
                assert(has_id(before, short[k].id));
                let m = choose|m: int| 0 <= m < before.len() && (#[trigger] before[m]).id == short[k].id;
                assert(all[m].id == list[k].id);
            } else if has_id(before, list[k].id) {
            } else {
                assert(all[before.len() as int].id == list[k].id);
            }
        }
    }
}

/// A game is eligible for import exactly when nothing is said against it, and one that Lutris has or that
/// Steam lists never is.
pub proof fn law_eligible_means_unopposed(sighting: SightingView, entries: Seq<EntryView>)
    ensures
        marked(sighting, entries).eligible <==> marked(sighting, entries).blocking_reason is None,
        marked(sighting, entries).eligible ==> !marked(sighting, entries).in_lutris
            && sighting.candidate.source != "steam"@,
{
}

proof fn lemma_kept_were_sighted(
    sightings: Seq<SightingView>,
    steam_dirs: Seq<Seq<u8>>,
    entries: Seq<EntryView>,
    i: int,
) -> (k: int)
    requires
        0 <= i < kept(sightings, steam_dirs, entries).len(),
    ensures
        0 <= k < sightings.len(),
        kept(sightings, steam_dirs, entries)[i] == marked(sightings[k], entries),
        kept(sightings, steam_dirs, entries).len() <= sightings.len(),
    decreases sightings.len(),
{
    let before = kept(sightings.drop_last(), steam_dirs, entries);
    if before.len() > 0 {
        let first = lemma_kept_were_sighted(sightings.drop_last(), steam_dirs, entries, 0);
    }
    if i < before.len() {
        lemma_kept_were_sighted(sightings.drop_last(), steam_dirs, entries, i)
    } else {
        sightings.len() - 1
    }
}

proof fn lemma_once_is_listed(list: Seq<CandidateView>, i: int) -> (k: int)
    requires
        0 <= i < each_once(list).len(),
    ensures
        0 <= k < list.len(),
        each_once(list)[i] == list[k],
    decreases list.len(),
{
    let before = each_once(list.drop_last());
    if i < before.len() {
        lemma_once_is_listed(list.drop_last(), i)
    } else {
        list.len() - 1
    }
}

/// Every game that is listed was sighted: it has the executable and the folder it was sighted with, and is
/// eligible exactly when nothing speaks against it.
pub proof fn law_listed_games_were_sighted(
    sightings: Seq<SightingView>,
    steam_dirs: Seq<Seq<u8>>,
    entries: Seq<EntryView>,
    i: int,
) -> (k: int)
    requires
        sightings.len() <= usize::MAX,
        0 <= i < scan_result(sightings, steam_dirs, entries).len(),
    ensures
        0 <= k < sightings.len(),
        scan_result(sightings, steam_dirs, entries)[i] == marked(sightings[k], entries),
        scan_result(sightings, steam_dirs, entries)[i].exe == sightings[k].candidate.exe,
        scan_result(sightings, steam_dirs, entries)[i].eligible <==> scan_result(sightings, steam_dirs, entries)[i].blocking_reason is None,
{
    let all = kept(sightings, steam_dirs, entries);
    let sorted = in_listing_order(all);
    let m = lemma_once_is_listed(sorted, i);
    if all.len() > 0 {
        let first = lemma_kept_were_sighted(sightings, steam_dirs, entries, 0);
    }
    lemma_some_order(listing_keys(all));
    let places = order_of(listing_keys(all));
    assert(places[m] < listing_keys(all).len());
    lemma_kept_were_sighted(sightings, steam_dirs, entries, places[m] as int)
}

/// The Windows programs among the first `n` files, with their sizes.
pub open spec fn exes_among(files: Seq<Seq<u8>>, sizes: Seq<u64>, n: int) -> Seq<ExeView>
    decreases n,
{
    if n <= 0 {
        Seq::empty()
    } else if windows_program(files[n - 1]) {
        exes_among(files, sizes, n - 1).push((files[n - 1], sizes[n - 1]))
    } else {
        exes_among(files, sizes, n - 1)
    }
}

/// What a folder turns out to hold.
#[derive(Debug)]
pub enum Finding {
    Gog(Candidate),
    Windows(Choice),
    Linux(Candidate),
    Nothing,
}

pub enum FindingView {
    Gog(CandidateView),
    Windows(ChoiceView),
    Linux(CandidateView),
    Nothing,
}

impl View for Finding {
    type V = FindingView;

    open spec fn view(&self) -> FindingView {
        match *self {
            Finding::Gog(candidate) => FindingView::Gog(candidate@),
            Finding::Windows(choice) => FindingView::Windows(choice@),
            Finding::Linux(candidate) => FindingView::Linux(candidate@),
            Finding::Nothing => FindingView::Nothing,
        }
    }
}

/// A folder with GOG metadata is a GOG game. One with Windows programs is a Windows game, or nothing where
/// none of them is the game. Any other is a Linux game, where it has a launcher.
pub open spec fn finding_in(
    folder: Seq<u8>,
    files: Seq<Seq<u8>>,
    sizes: Seq<u64>,
    runnable: Seq<bool>,
    gog: Option<CandidateView>,
) -> FindingView {
    let exes = exes_among(files, sizes, files.len() as int);
    match gog {
        Some(candidate) => FindingView::Gog(candidate),
        None => if exes.len() > 0 {
            match choice_in(folder, exes) {
                Some(choice) => FindingView::Windows(choice),
                None => FindingView::Nothing,
            }
        } else {
            match launcher_in(files, runnable) {
                Some(at) => FindingView::Linux(linux_game(folder, files[at])),
                None => FindingView::Nothing,
            }
        },
    }
}

/// Says what a folder holds, by the files in it, their sizes, which of them can be run, and the game that
/// its GOG metadata is about.
pub fn examine_folder(
    folder: &FilePath,
    files: &Vec<FilePath>,
    sizes: &Vec<u64>,
    runnable: &Vec<bool>,
    gog: Option<Candidate>,
) -> (finding: Finding)
    requires
        files@.len() == sizes@.len(),
        files@.len() == runnable@.len(),
    ensures
        finding@ == finding_in(
            folder@,
            paths_view(files@),
            sizes@,
            runnable@,
            match gog {
                Some(candidate) => Some(candidate@),
                None => None,
            },
        ),
{
    if let Some(candidate) = gog {
        return Finding::Gog(candidate);
    }
    let ghost all = paths_view(files@);
    let mut exes: Vec<Exe> = Vec::new();
    let mut i: usize = 0;
    assert(exes_view(exes@) =~= exes_among(all, sizes@, 0));
    while i < files.len()
        invariant
            i <= files.len(),
            files@.len() == sizes@.len(),
            all == paths_view(files@),
            exes_view(exes@) == exes_among(all, sizes@, i as int),
        decreases files.len() - i,
    {
        if is_windows_exe(&files[i]) {
            let ghost before = exes@;
            let exe = Exe { path: files[i].copy(), size: sizes[i] };
            let ghost view = (exe.path@, exe.size);
            exes.push(exe);
            assert(exes_view(exes@) =~= exes_view(before).push(view));
        }
        i = i + 1;
    }
    if exes.len() > 0 {
        match pick_game(folder, &exes) {
            Some(choice) => Finding::Windows(choice),
            None => Finding::Nothing,
        }
    } else {
        assert(exes_view(exes@).len() == 0);
        match linux_candidate(folder, files, runnable) {
            Some(candidate) => Finding::Linux(candidate),
            None => Finding::Nothing,
        }
    }
}

proof fn lemma_exes_are_files(files: Seq<Seq<u8>>, sizes: Seq<u64>, n: int, i: int)
    requires
        0 <= n <= files.len(),
        0 <= i < exes_among(files, sizes, n).len(),
    ensures
        files.contains(exes_among(files, sizes, n)[i].0),
    decreases n,
{
    if n > 0 {
        let before = exes_among(files, sizes, n - 1);
        if i < before.len() {
            lemma_exes_are_files(files, sizes, n - 1, i);
        } else {
            assert(files[n - 1] == exes_among(files, sizes, n)[i].0);
        }
    }
}

proof fn lemma_exes_are_few(files: Seq<Seq<u8>>, sizes: Seq<u64>, n: int)
    requires
        0 <= n,
    ensures
        exes_among(files, sizes, n).len() <= n,
    decreases n,
{
    if n > 0 {
        lemma_exes_are_few(files, sizes, n - 1);
    }
}

proof fn lemma_launcher_is_file(files: Seq<Seq<u8>>, runnable: Seq<bool>)
    ensures
        launcher_in(files, runnable) matches Some(at) ==> 0 <= at < files.len(),
    decreases files.len(),
{
    if files.len() > 0 {
        lemma_launcher_is_file(files.drop_last(), runnable);
    }
}

/// The executable of a game that a folder's own files make is one of those files: where they are all below a
/// root, so is it.
pub proof fn law_game_is_one_of_the_files(
    root: Seq<u8>,
    folder: Seq<u8>,
    files: Seq<Seq<u8>>,
    sizes: Seq<u64>,
    runnable: Seq<bool>,
)
    requires
        files.len() <= usize::MAX,
        forall|i: int| 0 <= i < files.len() ==> inside(root, #[trigger] files[i]),
    ensures
        match finding_in(folder, files, sizes, runnable, None) {
            FindingView::Windows(choice) => files.contains(choice.best) && inside(root, choice.best),
            FindingView::Linux(candidate) => candidate.exe is Some && files.contains(candidate.exe->0) && inside(
                root,
                candidate.exe->0,
            ),
            FindingView::Gog(_) => false,
            FindingView::Nothing => true,
        },
{
    let exes = exes_among(files, sizes, files.len() as int);
    lemma_exes_are_few(files, sizes, files.len() as int);
    if exes.len() > 0 {
        if choice_in(folder, exes) is Some {
            let place = lemma_choice_is_an_exe(folder, exes);
            lemma_exes_are_files(files, sizes, files.len() as int, place);
        }
    } else {
        lemma_launcher_is_file(files, runnable);
    }
}

} // verus!
