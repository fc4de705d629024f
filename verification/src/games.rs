//! What the search for games promises.

use vstd::prelude::*;
use vstd::utf8::encode_utf8;

use crate::discover::{
    choice_in, extension_of, last_dot, letter_or_digit, lower_name, noise_name, normal_name, pretty, spaced_bars,
    stem_of, windows_game, windows_program, Candidate, CandidateView, ChoiceView, Confidence, ExeView, NOISE_DIRS,
};
use crate::json::JsonView;
use crate::path::{inside, is_name, last_name, law_name_under_path, parent_of, parts, under, FilePath, PartView};
use crate::scan::{
    blocker, covered, drive_warning, each_once, exes_among, finding_in, first_marked, folders_among, games_of_root,
    gog_candidate_of, gog_game, gog_info_in, has_id, in_listing_order, is_entry, kept, launcher_in,
    law_each_game_once, linux_game, listing_key, listing_keys, marked, marked_task, pitfalls, primary_task,
    scan_result, slashed, steam_game, steps_of, sum_of, within, EntryView, FindingView, SearchView, SightingView,
    Sort,
};
use crate::sort::{ahead, before, lemma_before_irreflexive, lemma_some_order, order_of};
use crate::steam::{id_of, LibraryView};
use crate::system::{Capability, MountView};
use crate::text::{holds, lower_char, lowercase_text, text_key, trimmed, utf8_text};

verus! {

proof fn lemma_last_dot(name: Seq<u8>, n: int)
    requires
        0 <= n <= name.len(),
    ensures
        match last_dot(name, n) {
            Some(dot) => 0 < dot < n && name[dot] == 46 && forall|i: int| dot < i < n ==> #[trigger] name[i] != 46,
            None => forall|i: int| 0 < i < n ==> #[trigger] name[i] != 46,
        },
    decreases n,
{
    if n > 1 && name[n - 1] != 46 {
        lemma_last_dot(name, n - 1);
    }
}

/// A name is its stem, a dot and its extension, which has no dot; or else, where it has no dot but one in front, it is
/// its stem.
pub proof fn law_stem_and_extension_make_the_name(path: Seq<u8>)
    ensures
        last_name(path) is None <==> stem_of(path) is None,
        last_name(path) is None ==> extension_of(path) is None,
        last_name(path) matches Some(name) ==> match extension_of(path) {
            Some(extension) => name == stem_of(path)->0.push(46) + extension && !extension.contains(46)
                && stem_of(path)->0.len() > 0,
            None => name == stem_of(path)->0 && forall|i: int| 0 < i < name.len() ==> #[trigger] name[i] != 46,
        },
{
    if let Some(name) = last_name(path) {
        lemma_last_dot(name, name.len() as int);
        if let Some(dot) = last_dot(name, name.len() as int) {
            assert(name =~= name.take(dot).push(46) + name.skip(dot + 1));
            let behind = name.skip(dot + 1);
            if behind.contains(46) {
                let i = choose|i: int| 0 <= i < behind.len() && behind[i] == 46;
                assert(name[dot + 1 + i] == 46);
            }
        }
    }
}

/// Is it the letter, in lower or upper case?
pub open spec fn is_letter(byte: u8, small: u8) -> bool {
    byte == small || byte + 32 == small
}

/// A program for Windows is one whose name ends in `.exe`, in whatever case, with something in front.
pub proof fn law_windows_programs_end_in_exe(path: Seq<u8>)
    ensures
        windows_program(path) <==> last_name(path) is Some && ({
            let name = last_name(path)->0;
            let n = name.len() as int;
            n > 4 && name[n - 4] == 46 && is_letter(name[n - 3], 101) && is_letter(name[n - 2], 120) && is_letter(
                name[n - 1],
                101,
            )
        }),
{
    if let Some(name) = last_name(path) {
        let n = name.len() as int;
        lemma_last_dot(name, n);
        if let Some(dot) = last_dot(name, n) {
            if n > 4 && name[n - 4] == 46 && is_letter(name[n - 3], 101) && is_letter(name[n - 2], 120) && is_letter(
                name[n - 1],
                101,
            ) {
                assert(dot >= n - 4);
                assert(dot == n - 4 || dot == n - 3 || dot == n - 2 || dot == n - 1);
            }
        } else if n > 4 {
            assert(name[n - 4] != 46);
        }
    }
}

proof fn lemma_normal_concat(left: Seq<char>, right: Seq<char>)
    ensures
        normal_name(left + right) == normal_name(left) + normal_name(right),
    decreases right.len(),
{
    if right.len() == 0 {
        assert(left + right =~= left);
        assert(normal_name(left) + normal_name(right) =~= normal_name(left));
    } else {
        let whole = left + right;
        assert(whole.drop_last() =~= left + right.drop_last());
        assert(whole.last() == right.last());
        lemma_normal_concat(left, right.drop_last());
        assert(normal_name(whole) =~= normal_name(left) + normal_name(right));
    }
}

/// Names are compared character by character, by letters and digits alone and in whatever case.
pub proof fn law_names_compare_by_letters_and_digits(left: Seq<char>, right: Seq<char>, c: char)
    ensures
        normal_name(left + right) == normal_name(left) + normal_name(right),
        'a' <= c <= 'z' || '0' <= c <= '9' ==> normal_name(seq![c]) == seq![c],
        'A' <= c <= 'Z' ==> normal_name(seq![c]) == seq![(c as u8 + 32) as u8 as char],
        !('a' <= c <= 'z' || 'A' <= c <= 'Z' || '0' <= c <= '9') ==> normal_name(seq![c]) == Seq::<char>::empty(),
        normal_name(Seq::<char>::empty()) == Seq::<char>::empty(),
{
    lemma_normal_concat(left, right);
    let one = seq![c];
    assert(one.drop_last() =~= Seq::empty());
    assert(normal_name(one.drop_last()) =~= Seq::empty());
    assert(letter_or_digit(c) ==> normal_name(one) =~= seq![lower_char(c)]);
}

/// A folder is passed over exactly when it is hidden or holds installers and the like, by its name in lower case.
pub proof fn law_folders_without_games_are_named(name: Seq<char>)
    ensures
        noise_name(name) <==> (name.len() > 0 && name[0] == '.') || seq![
            "redist"@,
            "_commonredist"@,
            "commonredist"@,
            "directx"@,
            "dotnet"@,
            "vcredist"@,
            "__installer"@,
            "__redist"@,
            "prerequisites"@,
            "prereq"@,
            "support"@,
            "steamapps"@,
        ].contains(name),
{
    let table = seq![
        "redist"@,
        "_commonredist"@,
        "commonredist"@,
        "directx"@,
        "dotnet"@,
        "vcredist"@,
        "__installer"@,
        "__redist"@,
        "prerequisites"@,
        "prereq"@,
        "support"@,
        "steamapps"@,
    ];
    assert(NOISE_DIRS@[0] == "redist" && NOISE_DIRS@[1] == "_commonredist" && NOISE_DIRS@[2] == "commonredist"
        && NOISE_DIRS@[3] == "directx" && NOISE_DIRS@[4] == "dotnet" && NOISE_DIRS@[5] == "vcredist" && NOISE_DIRS@[6]
        == "__installer" && NOISE_DIRS@[7] == "__redist" && NOISE_DIRS@[8] == "prerequisites" && NOISE_DIRS@[9]
        == "prereq" && NOISE_DIRS@[10] == "support" && NOISE_DIRS@[11] == "steamapps");
    assert forall|i: int| 0 <= i < 12 implies #[trigger] table[i] == NOISE_DIRS@[i]@ by {
        assert(i == 0 || i == 1 || i == 2 || i == 3 || i == 4 || i == 5 || i == 6 || i == 7 || i == 8 || i == 9 || i
            == 10 || i == 11);
    }
    reveal_strlit(".");
    if name.len() > 0 && name[0] == '.' {
        assert(name.subrange(0, 1) =~= "."@);
    }
    if "."@.is_prefix_of(name) {
        assert(name.subrange(0, 1)[0] == '.');
    }
    if table.contains(name) {
        let i = choose|i: int| 0 <= i < table.len() && table[i] == name;
        assert(NOISE_DIRS@[i]@ == name);
    }
    if exists|i: int| 0 <= i < 12 && (#[trigger] NOISE_DIRS@[i])@ == name {
        let i = choose|i: int| 0 <= i < 12 && (#[trigger] NOISE_DIRS@[i])@ == name;
        assert(table[i] == name);
    }
}

/// A game of Windows programs starts the executable that was chosen, in the directory of that executable and in the
/// prefix that it is in, under Wine; it is as sure as the choice and names the same others.
pub proof fn law_windows_game_is_the_choice(folder: Seq<u8>, choice: ChoiceView, prefix: Option<Seq<u8>>)
    ensures
        ({
            let game = windows_game(folder, choice, prefix);
            &&& game.exe == Some(choice.best)
            &&& game.working_dir == parent_of(choice.best)
            &&& game.prefix == prefix
            &&& game.confidence == choice.confidence
            &&& game.reasons == choice.reasons
            &&& game.alternatives == choice.alternatives
            &&& game.id == id_of(choice.best)
            &&& game.name == pretty(folder, choice.best)
            &&& game.runner == "wine"@
            &&& game.source == "folder"@
            &&& game.appid is None
            &&& game.eligible
            &&& !game.in_lutris
        }),
{
}

/// A game is named after its folder, underscores read as spaces, and not after its executable, unless the name of the
/// folder has no more than two bytes.
pub proof fn law_game_is_named_after_its_folder(folder: Seq<u8>, exe: Seq<u8>, other: Seq<u8>)
    ensures
        last_name(folder) is Some && encode_utf8(utf8_text(last_name(folder)->0)).len() > 2 ==> pretty(folder, exe)
            == pretty(folder, other) && pretty(folder, exe) == trimmed(spaced_bars(utf8_text(last_name(folder)->0))),
        last_name(folder) is Some && encode_utf8(utf8_text(last_name(folder)->0)).len() <= 2 && stem_of(exe) is Some
            ==> pretty(folder, exe) == utf8_text(stem_of(exe)->0),
        forall|text: Seq<char>, i: int|
            0 <= i < text.len() ==> spaced_bars(text).len() == text.len() && (#[trigger] spaced_bars(text)[i])
                == if text[i]
                == '_' {
                ' '
            } else {
                text[i]
            },
{
}

/// A search looks into the next folder unless it is more than six folders down or 40000 files were found: nothing else
/// makes it pass one over.
pub proof fn law_search_looks_everywhere(search: SearchView)
    requires
        search.folders.len() > 0,
        search.folders.last().1 <= 6,
        search.files.len() <= 40_000,
    ensures
        search.moved_on().here == search.folders.last(),
        search.moved_on().folders == search.folders.drop_last(),
        search.moved_on().files == search.files,
{
}

/// A search looks into nothing that is more than six folders down, and into nothing once it has found enough.
pub proof fn law_search_has_an_end(search: SearchView)
    ensures
        search.moved_on().files == search.files,
        search.skipped().folders.len() > 0 ==> search.moved_on().here.1 <= 6 && search.files.len() <= 40_000,
        search.moved_on().folders.len() <= search.folders.len(),
        search.folders.len() > 0 ==> search.moved_on().folders.len() < search.folders.len(),
    decreases search.folders.len(),
{
    if search.folders.len() > 0 && search.skips() {
        let shorter = SearchView { folders: search.folders.drop_last(), ..search };
        law_search_has_an_end(shorter);
        assert(search.skipped() == shorter.skipped());
        assert(search.moved_on() == shorter.moved_on());
    }
}

/// Each file in a folder that is looked into is found, and each directory in it that may hold a game is looked into
/// later, one folder further down.
pub proof fn law_entries_are_found(search: SearchView, name: Seq<u8>)
    requires
        is_name(name),
    ensures
        search.with_entry(name, Sort::File).files == search.files.push(under(search.here.0, name)),
        search.with_entry(name, Sort::File).folders == search.folders,
        !noise_name(lower_name(under(search.here.0, name))) ==> search.with_entry(name, Sort::Dir).folders
            == search.folders.push((under(search.here.0, name), search.here.1 + 1)),
        noise_name(lower_name(under(search.here.0, name))) ==> search.with_entry(name, Sort::Dir).folders
            == search.folders,
        search.with_entry(name, Sort::Dir).files == search.files,
        search.with_entry(name, Sort::Other) == search,
        SearchView::start(search.root).folders == seq![(search.root, 0int)],
{
}

/// Is a path one of the first `n` entries of a root, a directory that may hold a game?
pub open spec fn is_directory_in(root: Seq<u8>, names: Seq<Seq<u8>>, sorts: Seq<Sort>, n: int, path: Seq<u8>) -> bool {
    exists|i: int|
        0 <= i < n && sorts[i] == Sort::Dir && is_name(#[trigger] names[i]) && !noise_name(
            lower_name(under(root, names[i])),
        ) && path == under(root, names[i])
}

/// The folders of a root that are examined are exactly its directories that may hold a game.
pub proof fn law_directories_are_examined(root: Seq<u8>, names: Seq<Seq<u8>>, sorts: Seq<Sort>, n: int)
    requires
        0 <= n <= names.len(),
        names.len() == sorts.len(),
    ensures
        ({
            let list = folders_among(root, names, sorts, n);
            &&& forall|i: int|
                0 <= i < n && sorts[i] == Sort::Dir && is_name(#[trigger] names[i]) && !noise_name(
                    lower_name(under(root, names[i])),
                ) ==> list.contains(under(root, names[i]))
            &&& forall|k: int| 0 <= k < list.len() ==> is_directory_in(root, names, sorts, n, #[trigger] list[k])
        }),
    decreases n,
{
    if n > 0 {
        let before = folders_among(root, names, sorts, n - 1);
        let list = folders_among(root, names, sorts, n);
        law_directories_are_examined(root, names, sorts, n - 1);
        assert forall|i: int|
            0 <= i < n && sorts[i] == Sort::Dir && is_name(#[trigger] names[i]) && !noise_name(
                lower_name(under(root, names[i])),
            ) implies list.contains(under(root, names[i])) by {
            if i < n - 1 {
                let k = choose|k: int| 0 <= k < before.len() && before[k] == under(root, names[i]);
                assert(list[k] == under(root, names[i]));
            } else {
                assert(list[before.len() as int] == under(root, names[i]));
            }
        }
        assert forall|k: int| 0 <= k < list.len() implies is_directory_in(root, names, sorts, n,
            #[trigger] list[k]) by {
            if k < before.len() {
                assert(is_directory_in(root, names, sorts, n - 1, before[k]));
                let i = choose|i: int|
                    0 <= i < n - 1 && sorts[i] == Sort::Dir && is_name(#[trigger] names[i]) && !noise_name(
                        lower_name(under(root, names[i])),
                    ) && before[k] == under(root, names[i]);
                assert(list[k] == under(root, names[i]));
            } else {
                assert(list[k] == under(root, names[n - 1]));
            }
        }
    }
}

/// The games of a root are those of its folders, where there are any; the root itself counts only where there are none.
pub proof fn law_root_counts_last(children: Vec<Candidate>, own: Option<Candidate>, games: Vec<Candidate>)
    requires
        call_ensures(games_of_root, (children, own), games),
    ensures
        children@.len() > 0 ==> games@.len() == children@.len() && forall|i: int|
            0 <= i < children@.len() ==> (#[trigger] games@[i])@ == children@[i]@,
        children@.len() == 0 && own is Some ==> games@.len() == 1 && games@[0]@ == own->0@,
        children@.len() == 0 && own is None ==> games@.len() == 0,
{
    let list = crate::discover::candidates_view(games@);
    assert(list.len() == games@.len());
    if children@.len() > 0 {
        assert forall|i: int| 0 <= i < children@.len() implies (#[trigger] games@[i])@ == children@[i]@ by {
            assert(list[i] == games@[i]@);
        }
    } else if own is Some {
        assert(list[0] == games@[0]@);
    }
}

/// The steps of a search are the folders of all its roots together, or the roots where none has a folder.
pub proof fn law_steps_are_the_folders(left: Seq<usize>, right: Seq<usize>, count: usize)
    ensures
        sum_of(left + right) == sum_of(left) + sum_of(right),
        sum_of(seq![count]) == count,
        sum_of(left) > 0 ==> steps_of(left) == sum_of(left),
        sum_of(left) == 0 ==> steps_of(left) == left.len(),
    decreases right.len(),
{
    assert(seq![count].drop_last() =~= Seq::empty());
    assert(sum_of(seq![count].drop_last()) == 0);
    if right.len() == 0 {
        assert(left + right =~= left);
    } else {
        assert((left + right).drop_last() =~= left + right.drop_last());
        law_steps_are_the_folders(left, right.drop_last(), count);
    }
}

/// Does a name begin and end like GOG's description of a game?
pub open spec fn describes_a_game(name: Seq<char>) -> bool {
    "goggame-"@.is_prefix_of(name) && ".info"@.is_suffix_of(name)
}

/// The first file that is called like a description of GOG is taken for one.
pub proof fn law_first_description_counts(files: Seq<Seq<u8>>)
    ensures
        match gog_info_in(files) {
            Some(at) => 0 <= at < files.len() && describes_a_game(lower_name(files[at])) && forall|i: int|
                0 <= i < at ==> !describes_a_game(lower_name(#[trigger] files[i])),
            None => forall|i: int| 0 <= i < files.len() ==> !describes_a_game(lower_name(#[trigger] files[i])),
        },
    decreases files.len(),
{
    if files.len() > 0 {
        let front = files.drop_last();
        law_first_description_counts(front);
        assert forall|i: int| 0 <= i < front.len() implies front[i] == #[trigger] files[i] by {}
    }
}

/// Of the tasks in a description the first that is marked as primary counts, and where none is, the first.
pub proof fn law_primary_task_counts(tasks: Seq<JsonView>)
    ensures
        tasks.len() == 0 ==> primary_task(tasks) is None,
        (forall|i: int| 0 <= i < tasks.len() ==> (#[trigger] tasks[i]).flag_at("isPrimary"@) != Some(true))
            && tasks.len()
            > 0 ==> primary_task(tasks) == Some(tasks[0]) && marked_task(tasks) is None,
        forall|i: int|
            0 <= i < tasks.len() && (#[trigger] tasks[i]).flag_at("isPrimary"@) == Some(true) && (forall|k: int|
                0 <= k < i ==> (#[trigger] tasks[k]).flag_at("isPrimary"@) != Some(true)) ==> primary_task(tasks)
                    == Some(
                tasks[i],
            ) && marked_task(tasks) == Some(tasks[i]),
    decreases tasks.len(),
{
    if tasks.len() > 0 && tasks[0].flag_at("isPrimary"@) != Some(true) {
        let rest = tasks.skip(1);
        law_primary_task_counts(rest);
        assert(forall|i: int| 0 <= i < rest.len() ==> #[trigger] rest[i] == tasks[i + 1]);
        assert forall|i: int|
            0 <= i < tasks.len() && (#[trigger] tasks[i]).flag_at("isPrimary"@) == Some(true) && (forall|k: int|
                0 <= k < i ==> (#[trigger] tasks[k]).flag_at("isPrimary"@) != Some(true)) implies primary_task(tasks)
            == Some(tasks[i]) && marked_task(tasks) == Some(tasks[i]) by {
            assert(rest[i - 1] == tasks[i]);
            assert forall|k: int| 0 <= k < i - 1 implies (#[trigger] rest[k]).flag_at("isPrimary"@) != Some(true) by {
                assert(rest[k] == tasks[k + 1]);
            }
        }
        if forall|i: int| 0 <= i < tasks.len() ==> (#[trigger] tasks[i]).flag_at("isPrimary"@) != Some(true) {
            assert forall|i: int| 0 <= i < rest.len() implies (#[trigger] rest[i]).flag_at("isPrimary"@) != Some(
                true) by {
                assert(rest[i] == tasks[i + 1]);
            }
        }
    }
}

/// A description names a game exactly when it has a name and its primary task has a path.
pub proof fn law_description_names_the_game(info: JsonView, name: Seq<char>, task: JsonView, path: Seq<char>)
    ensures
        info.text_at("name"@) == Some(name) && primary_task(info.items_at("playTasks"@)) == Some(task) && task.text_at(
            "path"@,
        ) == Some(path) ==> gog_game(info) == Some((name, path)),
        info.text_at("name"@) is None ==> gog_game(info) is None,
        info.items_at("playTasks"@).len() == 0 ==> gog_game(info) is None,
        primary_task(info.items_at("playTasks"@)) == Some(task) && task.text_at("path"@) is None ==> gog_game(info)
            is None,
{
    law_primary_task_counts(info.items_at("playTasks"@));
}

/// A path of Windows is read with slashes for its backslashes.
pub proof fn law_backslashes_are_slashes(text: Seq<char>, i: int)
    requires
        0 <= i < text.len(),
    ensures
        slashed(text).len() == text.len(),
        text[i] == '\\' ==> slashed(text)[i] == '/',
        text[i] != '\\' ==> slashed(text)[i] == text[i],
{
}

/// A game of GOG starts the executable that the description names, under Wine where that is a program for Windows and
/// natively where not, and is as sure as can be.
pub proof fn law_described_game_is_what_is_described(
    folder: Seq<u8>,
    name: Seq<char>,
    exe: Seq<u8>,
    prefix: Option<Seq<u8>>,
)
    ensures
        ({
            let game = gog_candidate_of(folder, name, exe, prefix);
            &&& game.exe == Some(exe)
            &&& game.name == name
            &&& game.id == id_of(exe)
            &&& game.prefix == prefix
            &&& game.source == "gog"@
            &&& game.confidence == Confidence::High
            &&& windows_program(exe) ==> game.runner == "wine"@
            &&& !windows_program(exe) ==> game.runner == "linux"@
            &&& parent_of(exe) is Some ==> game.working_dir == parent_of(exe)
            &&& parent_of(exe) is None ==> game.working_dir == Some(folder)
            &&& game.eligible
        }),
{
}

/// Does a name, in lower case, start a Linux game?
pub open spec fn starts_a_game(name: Seq<char>) -> bool {
    name == "start.sh"@ || name == "run.sh"@ || ".x86_64"@.is_suffix_of(name)
}

/// The first file that may be run and is called like a launcher starts a Linux game.
pub proof fn law_first_launcher_counts(folder: Seq<u8>, files: Seq<Seq<u8>>, runnable: Seq<bool>)
    ensures
        match launcher_in(files, runnable) {
            Some(at) => {
                &&& 0 <= at < files.len()
                &&& runnable[at]
                &&& starts_a_game(lower_name(files[at]))
                &&& forall|i: int| 0 <= i < at && runnable[i] ==> !starts_a_game(lower_name(#[trigger] files[i]))
                &&& linux_game(folder, files[at]).exe == Some(files[at])
                &&& linux_game(folder, files[at]).runner == "linux"@
                &&& linux_game(folder, files[at]).source == "linux"@
                &&& linux_game(folder, files[at]).confidence == Confidence::Medium
                &&& linux_game(folder, files[at]).working_dir == parent_of(files[at])
                &&& linux_game(folder, files[at]).id == id_of(files[at])
                &&& linux_game(folder, files[at]).name == pretty(folder, files[at])
                &&& linux_game(folder, files[at]).eligible
            },
            None => forall|i: int|
                0 <= i < files.len() && runnable[i] ==> !starts_a_game(lower_name(#[trigger] files[i])),
        },
    decreases files.len(),
{
    if files.len() > 0 {
        let front = files.drop_last();
        law_first_launcher_counts(folder, front, runnable);
        assert forall|i: int| 0 <= i < front.len() implies front[i] == #[trigger] files[i] by {}
    }
}

/// The nearest directory that is a Wine prefix is the one that is used.
pub proof fn law_nearest_prefix_is_used(ancestors: Seq<Seq<u8>>, marks: Seq<bool>)
    requires
        ancestors.len() == marks.len(),
    ensures
        (forall|i: int| 0 <= i < marks.len() ==> !#[trigger] marks[i]) ==> first_marked(ancestors, marks) is None,
        forall|i: int|
            0 <= i < marks.len() && #[trigger] marks[i] && (forall|k: int| 0 <= k < i ==> !#[trigger] marks[k])
                ==> first_marked(ancestors, marks) == Some(ancestors[i]),
    decreases ancestors.len(),
{
    if ancestors.len() > 0 && !marks[0] {
        let rest = marks.skip(1);
        law_nearest_prefix_is_used(ancestors.skip(1), rest);
        assert(forall|i: int| 0 <= i < rest.len() ==> #[trigger] rest[i] == marks[i + 1]);
        assert forall|i: int|
            0 <= i < marks.len() && #[trigger] marks[i] && (forall|k: int| 0 <= k < i ==> !#[trigger] marks[k]) implies
            first_marked(ancestors, marks) == Some(ancestors[i]) by {
            assert(rest[i - 1]);
            assert forall|k: int| 0 <= k < i - 1 implies !#[trigger] rest[k] by {
                assert(!marks[k + 1]);
            }
            assert(ancestors.skip(1)[i - 1] == ancestors[i]);
        }
        if forall|i: int| 0 <= i < marks.len() ==> !#[trigger] marks[i] {
            assert forall|i: int| 0 <= i < rest.len() implies !#[trigger] rest[i] by {
                assert(!marks[i + 1]);
            }
        }
    }
}

/// Lutris has a game that is the same app, the same executable or the same short name, or that shares the prefix its
/// own executable is in; and no other.
pub proof fn law_lutris_has_what_is_the_same(candidate: CandidateView, slug: Seq<char>, entry: EntryView)
    ensures
        candidate.appid is Some && candidate.appid == entry.appid ==> is_entry(candidate, slug, entry),
        candidate.exe is Some && entry.exe is Some && parts(candidate.exe->0) == parts(entry.exe->0) ==> is_entry(
            candidate,
            slug,
            entry,
        ),
        slug == entry.slug ==> is_entry(candidate, slug, entry),
        candidate.prefix is Some && entry.prefix is Some && parts(candidate.prefix->0) == parts(entry.prefix->0)
            && entry.exe is Some && inside(candidate.prefix->0, entry.exe->0) ==> is_entry(candidate, slug, entry),
        is_entry(candidate, slug, entry) ==> slug == entry.slug || (candidate.appid is Some && candidate.appid
            == entry.appid) || (candidate.exe is Some && entry.exe is Some && parts(candidate.exe->0) == parts(
            entry.exe->0,
        )) || (candidate.prefix is Some && entry.prefix is Some && parts(candidate.prefix->0) == parts(entry.prefix->0)
            && entry.exe is Some && inside(candidate.prefix->0, entry.exe->0)),
{
}

/// A game that was found can be imported exactly when Steam does not list it and Lutris does not have it. What was found
/// of it stays as it was.
pub proof fn law_new_games_can_be_imported(sighting: SightingView, entries: Seq<EntryView>)
    ensures
        ({
            let game = marked(sighting, entries);
            &&& game.in_lutris <==> exists|i: int|
                0 <= i < entries.len() && is_entry(sighting.candidate, sighting.slug, #[trigger] entries[i])
            &&& game.eligible <==> sighting.candidate.source != "steam"@ && !game.in_lutris
            &&& game.eligible <==> game.blocking_reason is None
            &&& game.id == sighting.candidate.id
            &&& game.name == sighting.candidate.name
            &&& game.runner == sighting.candidate.runner
            &&& game.source == sighting.candidate.source
            &&& game.exe == sighting.candidate.exe
            &&& game.appid == sighting.candidate.appid
            &&& game.prefix == sighting.candidate.prefix
            &&& game.working_dir == sighting.candidate.working_dir
            &&& game.confidence == sighting.candidate.confidence
            &&& game.reasons == sighting.candidate.reasons
            &&& game.alternatives == sighting.candidate.alternatives
            &&& game.filesystem_warning is Some <==> sighting.mount is Some && (sighting.mount->0.capability
                == Capability::NeedsRepair || sighting.mount->0.capability == Capability::NoSymlinks)
        }),
{
}

/// What is said of a filesystem that Wine cannot use names it.
pub proof fn law_warning_names_the_filesystem(mount: MountView)
    ensures
        drive_warning(Some(mount)) matches Some(text) ==> holds(text, mount.fs_type),
        drive_warning(None) is None,
{
    let front = "the prefix for this game is on "@;
    if let Some(text) = drive_warning(Some(mount)) {
        let at = front.len() as int;
        assert(text.subrange(at, at + mount.fs_type.len()) =~= mount.fs_type);
    }
}

/// Is one of the names that of a compiler's library?
pub open spec fn ships_a_compiler(names: Seq<Seq<char>>) -> bool {
    exists|i: int|
        0 <= i < names.len() && "d3dcompiler_"@.is_prefix_of(#[trigger] names[i]) && ".dll"@.is_suffix_of(names[i])
}

/// Is one of the names that of something in place of Steam?
pub open spec fn ships_a_shim(names: Seq<Seq<char>>) -> bool {
    exists|i: int|
        0 <= i < names.len() && (#[trigger] names[i] == "steam_emu.ini"@ || names[i] == "steam_api64.dll"@ || names[i]
            == "steamclient64.dll"@)
}

/// A game is warned about once for the compiler's library beside it and once for what stands in place of Steam there,
/// and about nothing else.
pub proof fn law_pitfalls_are_seen(names: Seq<Seq<char>>)
    ensures
        pitfalls(names).len() == (if ships_a_compiler(names) {
            1int
        } else {
            0
        }) + (if ships_a_shim(names) {
            1int
        } else {
            0
        }),
{
    if crate::scan::has_compiler(names) {
        let i = choose|i: int| 0 <= i < names.len() && crate::scan::compiler_name(#[trigger] names[i]);
        assert("d3dcompiler_"@.is_prefix_of(names[i]));
    }
    if ships_a_compiler(names) {
        let i = choose|i: int|
            0 <= i < names.len() && "d3dcompiler_"@.is_prefix_of(#[trigger] names[i]) && ".dll"@.is_suffix_of(names[i]);
        assert(crate::scan::compiler_name(names[i]));
    }
    if crate::scan::has_shim(names) {
        if names.contains("steam_emu.ini"@) {
            let i = choose|i: int| 0 <= i < names.len() && names[i] == "steam_emu.ini"@;
            assert(names[i] == "steam_emu.ini"@);
        } else if names.contains("steam_api64.dll"@) {
            let i = choose|i: int| 0 <= i < names.len() && names[i] == "steam_api64.dll"@;
            assert(names[i] == "steam_api64.dll"@);
        } else {
            let i = choose|i: int| 0 <= i < names.len() && names[i] == "steamclient64.dll"@;
            assert(names[i] == "steamclient64.dll"@);
        }
    }
}

/// A game that Steam lists goes by its app and its name, and is never looked for among the files.
pub proof fn law_steam_games_are_listed_as_such(library: LibraryView, app: (Seq<char>, Seq<char>))
    ensures
        ({
            let game = steam_game(library, app);
            &&& game.appid == Some(app.0)
            &&& game.name == app.1
            &&& game.source == "steam"@
            &&& game.runner == "steam"@
            &&& game.confidence == Confidence::High
            &&& game.exe is None
            &&& game.working_dir is Some
            &&& parts(game.working_dir->0) == parts(library.steamapps).push(PartView::Name(encode_utf8("common"@)))
            &&& blocker(game.source, false) is Some
        }),
{
    assert(crate::path::is_name_text("common"@)) by {
        reveal_strlit("common");
    }
    crate::path::lemma_name_text_below(library.steamapps, "common"@);
}

/// A game that was not listed by Steam is left out exactly when it is inside one of Steam's directories.
pub proof fn law_games_of_steam_are_left_out(candidate: CandidateView, steam_dirs: Seq<Seq<u8>>)
    ensures
        candidate.source == "steam"@ ==> !covered(candidate, steam_dirs),
        candidate.source != "steam"@ && candidate.working_dir is Some ==> (covered(candidate,
            steam_dirs) <==> exists|i: int|
            0 <= i < steam_dirs.len() && inside(#[trigger] steam_dirs[i], candidate.working_dir->0)),
        candidate.working_dir is None ==> !covered(candidate, steam_dirs),
{
    if candidate.working_dir is Some {
        let dir = candidate.working_dir->0;
        if covered(candidate, steam_dirs) {
            let i = choose|i: int|
                0 <= i < steam_dirs.len() && parts(#[trigger] steam_dirs[i]).is_prefix_of(parts(dir));
            assert(inside(steam_dirs[i], dir));
        }
        if exists|i: int| 0 <= i < steam_dirs.len() && inside(#[trigger] steam_dirs[i], dir) {
            let i = choose|i: int| 0 <= i < steam_dirs.len() && inside(#[trigger] steam_dirs[i], dir);
            assert(parts(steam_dirs[i]).is_prefix_of(parts(dir)));
        }
    }
}

proof fn lemma_kept_has(sightings: Seq<SightingView>, steam_dirs: Seq<Seq<u8>>, entries: Seq<EntryView>, k: int)
    requires
        0 <= k < sightings.len(),
        !covered(sightings[k].candidate, steam_dirs),
    ensures
        has_id(kept(sightings, steam_dirs, entries), sightings[k].candidate.id),
    decreases sightings.len(),
{
    let front = sightings.drop_last();
    let before = kept(front, steam_dirs, entries);
    let all = kept(sightings, steam_dirs, entries);
    if k < front.len() {
        assert(front[k] == sightings[k]);
        lemma_kept_has(front, steam_dirs, entries, k);
        let n = choose|n: int| 0 <= n < before.len() && (#[trigger] before[n]).id == sightings[k].candidate.id;
        assert(all[n].id == sightings[k].candidate.id);
    } else {
        assert(all[before.len() as int].id == sightings[k].candidate.id);
    }
}

proof fn lemma_kept_len(sightings: Seq<SightingView>, steam_dirs: Seq<Seq<u8>>, entries: Seq<EntryView>)
    ensures
        kept(sightings, steam_dirs, entries).len() <= sightings.len(),
    decreases sightings.len(),
{
    if sightings.len() > 0 {
        lemma_kept_len(sightings.drop_last(), steam_dirs, entries);
    }
}

/// Every game that was sighted outside of Steam's directories is in the list.
pub proof fn law_sighted_games_are_listed(
    sightings: Seq<SightingView>,
    steam_dirs: Seq<Seq<u8>>,
    entries: Seq<EntryView>,
    k: int,
)
    requires
        sightings.len() <= usize::MAX,
        0 <= k < sightings.len(),
        !covered(sightings[k].candidate, steam_dirs),
    ensures
        has_id(scan_result(sightings, steam_dirs, entries), sightings[k].candidate.id),
{
    let all = kept(sightings, steam_dirs, entries);
    let id = sightings[k].candidate.id;
    lemma_kept_has(sightings, steam_dirs, entries, k);
    lemma_kept_len(sightings, steam_dirs, entries);
    let n = choose|n: int| 0 <= n < all.len() && (#[trigger] all[n]).id == id;
    lemma_some_order(listing_keys(all));
    let places = order_of(listing_keys(all));
    assert(places.contains(n as usize));
    let m = choose|m: int| 0 <= m < places.len() && places[m] == n as usize;
    let sorted = in_listing_order(all);
    assert(sorted[m] == all[n]);
    law_each_game_once(sorted);
    assert(has_id(each_once(sorted), sorted[m].id));
}

/// How far back a game stands by how sure it is.
pub open spec fn doubt(confidence: Confidence) -> int {
    match confidence {
        Confidence::High => 0,
        Confidence::Medium => 1,
        Confidence::Low => 2,
    }
}

/// Does a game come before another or beside it: surer, or as sure and not later by name?
pub open spec fn comes_first(left: CandidateView, right: CandidateView) -> bool {
    doubt(left.confidence) < doubt(right.confidence) || (doubt(left.confidence) == doubt(right.confidence) && !before(
        text_key(lowercase_text(right.name)),
        text_key(lowercase_text(left.name)),
    ))
}

proof fn lemma_before_antisymmetric(a: Seq<u32>, b: Seq<u32>)
    requires
        before(a, b),
    ensures
        !before(b, a),
    decreases a.len(),
{
    if a.len() > 0 && b.len() > 0 && a[0] == b[0] {
        lemma_before_antisymmetric(a.skip(1), b.skip(1));
    }
}

proof fn lemma_listing_order(left: CandidateView, right: CandidateView)
    requires
        before(listing_key(left), listing_key(right)) || listing_key(left) == listing_key(right),
    ensures
        comes_first(left, right),
{
    let a = listing_key(left);
    let b = listing_key(right);
    let x = text_key(lowercase_text(left.name));
    let y = text_key(lowercase_text(right.name));
    assert(a.skip(1) =~= x);
    assert(b.skip(1) =~= y);
    lemma_before_irreflexive(x);
    if before(a, b) && a[0] == b[0] {
        assert(before(x, y));
        lemma_before_antisymmetric(x, y);
    }
}

proof fn lemma_once_in_order(list: Seq<CandidateView>)
    requires
        forall|i: int, j: int| 0 <= i < j < list.len() ==> comes_first(#[trigger] list[i], #[trigger] list[j]),
    ensures
        forall|i: int, j: int|
            0 <= i < j < each_once(list).len() ==> comes_first(#[trigger] each_once(list)[i],
                #[trigger] each_once(list)[j]),
        forall|i: int| 0 <= i < each_once(list).len() ==> list.contains(#[trigger] each_once(list)[i]),
    decreases list.len(),
{
    if list.len() > 0 {
        let front = list.drop_last();
        let before = each_once(front);
        let all = each_once(list);
        assert(forall|i: int| 0 <= i < front.len() ==> #[trigger] front[i] == list[i]);
        lemma_once_in_order(front);
        assert forall|i: int| 0 <= i < all.len() implies list.contains(#[trigger] all[i]) by {
            if i < before.len() {
                assert(front.contains(before[i]));
                let k = choose|k: int| 0 <= k < front.len() && front[k] == before[i];
                assert(list[k] == all[i]);
            } else {
                assert(list[list.len() - 1] == all[i]);
            }
        }
        assert forall|i: int, j: int| 0 <= i < j < all.len() implies comes_first(
            #[trigger] all[i],
            #[trigger] all[j],
        ) by {
            if j < before.len() {
                assert(comes_first(before[i], before[j]));
            } else {
                assert(front.contains(before[i]));
                let k = choose|k: int| 0 <= k < front.len() && front[k] == before[i];
                assert(comes_first(list[k], list[list.len() - 1]));
            }
        }
    }
}

/// The surest games come first, and games that are equally sure by name.
pub proof fn law_surest_games_come_first(
    sightings: Seq<SightingView>,
    steam_dirs: Seq<Seq<u8>>,
    entries: Seq<EntryView>,
    i: int,
    j: int,
)
    requires
        sightings.len() <= usize::MAX,
        0 <= i < j < scan_result(sightings, steam_dirs, entries).len(),
    ensures
        comes_first(
            scan_result(sightings, steam_dirs, entries)[i],
            scan_result(sightings, steam_dirs, entries)[j],
        ),
{
    let all = kept(sightings, steam_dirs, entries);
    lemma_kept_len(sightings, steam_dirs, entries);
    let keys = listing_keys(all);
    lemma_some_order(keys);
    let places = order_of(keys);
    let sorted = in_listing_order(all);
    assert forall|m: int, n: int| 0 <= m < n < sorted.len() implies comes_first(#[trigger] sorted[m],
        #[trigger] sorted[n]) by {
        assert(places[m] < keys.len() && places[n] < keys.len());
        assert(ahead(keys, places[m] as int, places[n] as int));
        lemma_listing_order(sorted[m], sorted[n]);
    }
    lemma_once_in_order(sorted);
}

/// Is it one of the first `n` files, with its size, and a program for Windows?
pub open spec fn is_program_in(files: Seq<Seq<u8>>, sizes: Seq<u64>, n: int, exe: ExeView) -> bool {
    exists|i: int| 0 <= i < n && windows_program(#[trigger] files[i]) && exe == (files[i], sizes[i])
}

/// The executables that are looked at are exactly the programs for Windows among the files, each with its own size.
pub proof fn law_programs_are_looked_at(files: Seq<Seq<u8>>, sizes: Seq<u64>, n: int)
    requires
        0 <= n <= files.len(),
        files.len() == sizes.len(),
    ensures
        ({
            let exes = exes_among(files, sizes, n);
            &&& exes.len() <= n
            &&& forall|i: int|
                0 <= i < n && windows_program(#[trigger] files[i]) ==> exes.contains((files[i], sizes[i]))
            &&& forall|k: int| 0 <= k < exes.len() ==> is_program_in(files, sizes, n, #[trigger] exes[k])
        }),
    decreases n,
{
    if n > 0 {
        let before = exes_among(files, sizes, n - 1);
        let exes = exes_among(files, sizes, n);
        law_programs_are_looked_at(files, sizes, n - 1);
        assert forall|i: int| 0 <= i < n && windows_program(#[trigger] files[i]) implies exes.contains(
            (files[i], sizes[i]),
        ) by {
            if i < n - 1 {
                let k = choose|k: int| 0 <= k < before.len() && before[k] == (files[i], sizes[i]);
                assert(exes[k] == (files[i], sizes[i]));
            } else {
                assert(exes[before.len() as int] == (files[i], sizes[i]));
            }
        }
        assert forall|k: int| 0 <= k < exes.len() implies is_program_in(files, sizes, n, #[trigger] exes[k]) by {
            if k < before.len() {
                assert(is_program_in(files, sizes, n - 1, before[k]));
                let i = choose|i: int|
                    0 <= i < n - 1 && windows_program(#[trigger] files[i]) && before[k] == (files[i], sizes[i]);
                assert(exes[k] == (files[i], sizes[i]));
            } else {
                assert(exes[k] == (files[n - 1], sizes[n - 1]));
            }
        }
    }
}

/// A folder that GOG describes is that game, whatever else is in it. Otherwise one with programs for Windows is the game
/// that is chosen among them, and only one without any can be a Linux game.
pub proof fn law_description_comes_before_programs(
    folder: Seq<u8>,
    files: Seq<Seq<u8>>,
    sizes: Seq<u64>,
    runnable: Seq<bool>,
    gog: CandidateView,
)
    requires
        files.len() == sizes.len(),
    ensures
        finding_in(folder, files, sizes, runnable, Some(gog)) == FindingView::Gog(gog),
        (exists|i: int| 0 <= i < files.len() && windows_program(#[trigger] files[i])) ==> match finding_in(
            folder,
            files,
            sizes,
            runnable,
            None,
        ) {
            FindingView::Windows(choice) => choice_in(folder, exes_among(files, sizes, files.len() as int)) == Some(
                choice,
            ),
            FindingView::Nothing => choice_in(folder, exes_among(files, sizes, files.len() as int)) is None,
            _ => false,
        },
        !(exists|i: int| 0 <= i < files.len() && windows_program(#[trigger] files[i])) ==> match launcher_in(
            files,
            runnable,
        ) {
            Some(at) => finding_in(folder, files, sizes, runnable, None) == FindingView::Linux(
                linux_game(folder, files[at]),
            ),
            None => finding_in(folder, files, sizes, runnable, None) is Nothing,
        },
{
    let exes = exes_among(files, sizes, files.len() as int);
    law_programs_are_looked_at(files, sizes, files.len() as int);
    if exes.len() > 0 {
        assert(is_program_in(files, sizes, files.len() as int, exes[0]));
    }
    if exists|i: int| 0 <= i < files.len() && windows_program(#[trigger] files[i]) {
        let i = choose|i: int| 0 <= i < files.len() && windows_program(#[trigger] files[i]);
        assert(exes.contains((files[i], sizes[i])));
    }
}

/// A path that a description gives is taken only where it is known to be inside the folder.
pub proof fn law_described_paths_stay_inside(root: Option<&FilePath>, path: Option<&FilePath>, is: bool)
    requires
        call_ensures(within, (root, path), is),
    ensures
        is <==> root is Some && path is Some && inside(root->0@, path->0@),
{
}

/// Folders and files are judged by the last name of their path, in lower case.
pub proof fn law_names_are_judged_in_lower_case(dir: Seq<u8>, name: Seq<u8>)
    requires
        is_name(name),
    ensures
        lower_name(under(dir, name)) == lowercase_text(utf8_text(name)),
{
    law_name_under_path(dir, name);
}

} // verus!
