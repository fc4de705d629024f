//! What finding Steam, its libraries and the places for their data promises.

use vstd::prelude::*;
use vstd::utf8::{encode_utf8, is_ascii_chars, is_ascii_chars_encode_utf8};

use crate::path::{
    absolute, inside, is_name_text, last_name, law_parent_drops_the_last_step, lemma_name_text_below,
    lemma_text_goes_on, lemma_text_joins, parent_of, parts, paths_view, shown, under, under_text, FilePath, PartView,
};
use crate::steam::{
    all_folders, all_plain, ancestor_named, app_of, app_place, apps_of, data_root_of, folder_lists, folder_of,
        folders_of,
    has_install, has_library, id_of, install_candidates, installs_of, law_each_place_once, libraries_at, library_at,
    looks_like_steam, manifest_name, marked_name, match_by_path, matches_by_id, plain, plained, resolution, sanitized,
    target_in_use, without_front_bars, AppList, Install, InstallKind, LibraryView, LookedView, PlacesView, SpotView,
};
use crate::text::{all_digits, holds, law_utf8_is_kept};
use crate::vdf::{PairView, Value, ValueView};

verus! {

/// The name of the directory of Flatpak Steam.
pub open spec fn flatpak_name() -> Seq<u8> {
    encode_utf8("com.valvesoftware.Steam"@)
}

/// The steps of a path below a base.
pub open spec fn steps_below(base: Seq<u8>, path: Seq<u8>) -> Seq<PartView> {
    parts(path).skip(parts(base).len() as int)
}

proof fn lemma_step_more(base: Seq<u8>, dir: Seq<u8>, path: Seq<u8>, name: Seq<u8>)
    requires
        inside(base, dir),
        parts(path) == parts(dir).push(PartView::Name(name)),
    ensures
        inside(base, path),
        steps_below(base, path) == steps_below(base, dir).push(PartView::Name(name)),
{
    assert(parts(path).take(parts(base).len() as int) =~= parts(dir).take(parts(base).len() as int));
    assert(parts(path).subrange(0, parts(base).len() as int) =~= parts(dir).subrange(0, parts(base).len() as int));
    assert(steps_below(base, path) =~= steps_below(base, dir).push(PartView::Name(name)));
}

proof fn lemma_text_local_name()
    ensures
        is_name_text(".local"@),
{
    reveal_strlit(".local");
}

proof fn lemma_text_local_share()
    ensures
        is_name_text("share"@),
        is_ascii_chars(".local"@) && ".local"@.len() > 0 && ".local"@[0] != '/' && ".local"@.last() != '/',
        ".local/share"@ == ".local"@.push('/') + "share"@,
{
    reveal_strlit(".local/share");
    reveal_strlit(".local");
    reveal_strlit("share");
    assert(".local/share"@ =~= ".local"@.push('/') + "share"@);
}

proof fn lemma_text_local_share_steam()
    ensures
        is_name_text("Steam"@),
        is_ascii_chars(".local/share"@) && ".local/share"@.len() > 0 && ".local/share"@[0] != '/'
            && ".local/share"@.last() != '/',
        ".local/share/Steam"@ == ".local/share"@.push('/') + "Steam"@,
{
    reveal_strlit(".local/share/Steam");
    reveal_strlit(".local/share");
    reveal_strlit("Steam");
    assert(".local/share/Steam"@ =~= ".local/share"@.push('/') + "Steam"@);
}

proof fn lemma_text_steam_name()
    ensures
        is_name_text(".steam"@),
{
    reveal_strlit(".steam");
}

proof fn lemma_text_steam_steam()
    ensures
        is_name_text("steam"@),
        is_ascii_chars(".steam"@) && ".steam"@.len() > 0 && ".steam"@[0] != '/' && ".steam"@.last() != '/',
        ".steam/steam"@ == ".steam"@.push('/') + "steam"@,
{
    reveal_strlit(".steam/steam");
    reveal_strlit(".steam");
    reveal_strlit("steam");
    assert(".steam/steam"@ =~= ".steam"@.push('/') + "steam"@);
}

proof fn lemma_text_steam_root()
    ensures
        is_name_text("root"@),
        is_ascii_chars(".steam"@) && ".steam"@.len() > 0 && ".steam"@[0] != '/' && ".steam"@.last() != '/',
        ".steam/root"@ == ".steam"@.push('/') + "root"@,
{
    reveal_strlit(".steam/root");
    reveal_strlit(".steam");
    reveal_strlit("root");
    assert(".steam/root"@ =~= ".steam"@.push('/') + "root"@);
}

proof fn lemma_text_steam_debian_installation()
    ensures
        is_name_text("debian-installation"@),
        is_ascii_chars(".steam"@) && ".steam"@.len() > 0 && ".steam"@[0] != '/' && ".steam"@.last() != '/',
        ".steam/debian-installation"@ == ".steam"@.push('/') + "debian-installation"@,
{
    reveal_strlit(".steam/debian-installation");
    reveal_strlit(".steam");
    reveal_strlit("debian-installation");
    assert(".steam/debian-installation"@ =~= ".steam"@.push('/') + "debian-installation"@);
}

proof fn lemma_text_library_name()
    ensures
        is_name_text("Library"@),
{
    reveal_strlit("Library");
}

proof fn lemma_text_library_application_support()
    ensures
        is_name_text("Application Support"@),
        is_ascii_chars("Library"@) && "Library"@.len() > 0 && "Library"@[0] != '/' && "Library"@.last() != '/',
        "Library/Application Support"@ == "Library"@.push('/') + "Application Support"@,
{
    reveal_strlit("Library/Application Support");
    reveal_strlit("Library");
    reveal_strlit("Application Support");
    assert("Library/Application Support"@ =~= "Library"@.push('/') + "Application Support"@);
}

proof fn lemma_text_library_application_support_steam()
    ensures
        is_name_text("Steam"@),
        is_ascii_chars("Library/Application Support"@) && "Library/Application Support"@.len() > 0
            && "Library/Application Support"@[0] != '/' && "Library/Application Support"@.last() != '/',
        "Library/Application Support/Steam"@ == "Library/Application Support"@.push('/') + "Steam"@,
{
    reveal_strlit("Library/Application Support/Steam");
    reveal_strlit("Library/Application Support");
    reveal_strlit("Steam");
    assert("Library/Application Support/Steam"@ =~= "Library/Application Support"@.push('/') + "Steam"@);
}

proof fn lemma_text_var_name()
    ensures
        is_name_text(".var"@),
{
    reveal_strlit(".var");
}

proof fn lemma_text_var_app()
    ensures
        is_name_text("app"@),
        is_ascii_chars(".var"@) && ".var"@.len() > 0 && ".var"@[0] != '/' && ".var"@.last() != '/',
        ".var/app"@ == ".var"@.push('/') + "app"@,
{
    reveal_strlit(".var/app");
    reveal_strlit(".var");
    reveal_strlit("app");
    assert(".var/app"@ =~= ".var"@.push('/') + "app"@);
}

proof fn lemma_text_var_app_com_valvesoftware_steam()
    ensures
        is_name_text("com.valvesoftware.Steam"@),
        is_ascii_chars(".var/app"@) && ".var/app"@.len() > 0 && ".var/app"@[0] != '/' && ".var/app"@.last() != '/',
        ".var/app/com.valvesoftware.Steam"@ == ".var/app"@.push('/') + "com.valvesoftware.Steam"@,
{
    reveal_strlit(".var/app/com.valvesoftware.Steam");
    reveal_strlit(".var/app");
    reveal_strlit("com.valvesoftware.Steam");
    assert(".var/app/com.valvesoftware.Steam"@ =~= ".var/app"@.push('/') + "com.valvesoftware.Steam"@);
}

proof fn lemma_text_data_name()
    ensures
        is_name_text("data"@),
{
    reveal_strlit("data");
}

proof fn lemma_text_data_steam()
    ensures
        is_name_text("Steam"@),
        is_ascii_chars("data"@) && "data"@.len() > 0 && "data"@[0] != '/' && "data"@.last() != '/',
        "data/Steam"@ == "data"@.push('/') + "Steam"@,
{
    reveal_strlit("data/Steam");
    reveal_strlit("data");
    reveal_strlit("Steam");
    assert("data/Steam"@ =~= "data"@.push('/') + "Steam"@);
}

proof fn lemma_in_local_share_steam(base: Seq<u8>)
    ensures
        parts(under_text(base, ".local/share/Steam"@)) == parts(base) + seq![
            PartView::Name(encode_utf8(".local"@)),
            PartView::Name(encode_utf8("share"@)),
            PartView::Name(encode_utf8("Steam"@)),
        ],
{
    lemma_text_local_name();
    lemma_name_text_below(base, ".local"@);
    lemma_text_local_share();
    lemma_text_goes_on(base, ".local"@, "share"@, ".local/share"@);
    lemma_text_local_share_steam();
    lemma_text_goes_on(base, ".local/share"@, "Steam"@, ".local/share/Steam"@);
    assert(parts(under_text(base, ".local/share/Steam"@)) =~= parts(base) + seq![
        PartView::Name(encode_utf8(".local"@)),
        PartView::Name(encode_utf8("share"@)),
        PartView::Name(encode_utf8("Steam"@)),
    ]);
}

proof fn lemma_in_steam_steam(base: Seq<u8>)
    ensures
        parts(under_text(base, ".steam/steam"@)) == parts(base) + seq![
            PartView::Name(encode_utf8(".steam"@)),
            PartView::Name(encode_utf8("steam"@)),
        ],
{
    lemma_text_steam_name();
    lemma_name_text_below(base, ".steam"@);
    lemma_text_steam_steam();
    lemma_text_goes_on(base, ".steam"@, "steam"@, ".steam/steam"@);
    assert(parts(under_text(base, ".steam/steam"@)) =~= parts(base) + seq![
        PartView::Name(encode_utf8(".steam"@)),
        PartView::Name(encode_utf8("steam"@)),
    ]);
}

proof fn lemma_in_steam_root(base: Seq<u8>)
    ensures
        parts(under_text(base, ".steam/root"@)) == parts(base) + seq![
            PartView::Name(encode_utf8(".steam"@)),
            PartView::Name(encode_utf8("root"@)),
        ],
{
    lemma_text_steam_name();
    lemma_name_text_below(base, ".steam"@);
    lemma_text_steam_root();
    lemma_text_goes_on(base, ".steam"@, "root"@, ".steam/root"@);
    assert(parts(under_text(base, ".steam/root"@)) =~= parts(base) + seq![
        PartView::Name(encode_utf8(".steam"@)),
        PartView::Name(encode_utf8("root"@)),
    ]);
}

proof fn lemma_in_steam_debian_installation(base: Seq<u8>)
    ensures
        parts(under_text(base, ".steam/debian-installation"@)) == parts(base) + seq![
            PartView::Name(encode_utf8(".steam"@)),
            PartView::Name(encode_utf8("debian-installation"@)),
        ],
{
    lemma_text_steam_name();
    lemma_name_text_below(base, ".steam"@);
    lemma_text_steam_debian_installation();
    lemma_text_goes_on(base, ".steam"@, "debian-installation"@, ".steam/debian-installation"@);
    assert(parts(under_text(base, ".steam/debian-installation"@)) =~= parts(base) + seq![
        PartView::Name(encode_utf8(".steam"@)),
        PartView::Name(encode_utf8("debian-installation"@)),
    ]);
}

proof fn lemma_in_library_application_support_steam(base: Seq<u8>)
    ensures
        parts(under_text(base, "Library/Application Support/Steam"@)) == parts(base) + seq![
            PartView::Name(encode_utf8("Library"@)),
            PartView::Name(encode_utf8("Application Support"@)),
            PartView::Name(encode_utf8("Steam"@)),
        ],
{
    lemma_text_library_name();
    lemma_name_text_below(base, "Library"@);
    lemma_text_library_application_support();
    lemma_text_goes_on(base, "Library"@, "Application Support"@, "Library/Application Support"@);
    lemma_text_library_application_support_steam();
    lemma_text_goes_on(base, "Library/Application Support"@, "Steam"@, "Library/Application Support/Steam"@);
    assert(parts(under_text(base, "Library/Application Support/Steam"@)) =~= parts(base) + seq![
        PartView::Name(encode_utf8("Library"@)),
        PartView::Name(encode_utf8("Application Support"@)),
        PartView::Name(encode_utf8("Steam"@)),
    ]);
}

proof fn lemma_in_var_app_com_valvesoftware_steam(base: Seq<u8>)
    ensures
        parts(under_text(base, ".var/app/com.valvesoftware.Steam"@)) == parts(base) + seq![
            PartView::Name(encode_utf8(".var"@)),
            PartView::Name(encode_utf8("app"@)),
            PartView::Name(encode_utf8("com.valvesoftware.Steam"@)),
        ],
{
    lemma_text_var_name();
    lemma_name_text_below(base, ".var"@);
    lemma_text_var_app();
    lemma_text_goes_on(base, ".var"@, "app"@, ".var/app"@);
    lemma_text_var_app_com_valvesoftware_steam();
    lemma_text_goes_on(base, ".var/app"@, "com.valvesoftware.Steam"@, ".var/app/com.valvesoftware.Steam"@);
    assert(parts(under_text(base, ".var/app/com.valvesoftware.Steam"@)) =~= parts(base) + seq![
        PartView::Name(encode_utf8(".var"@)),
        PartView::Name(encode_utf8("app"@)),
        PartView::Name(encode_utf8("com.valvesoftware.Steam"@)),
    ]);
}

proof fn lemma_in_data_steam(base: Seq<u8>)
    ensures
        parts(under_text(base, "data/Steam"@)) == parts(base) + seq![
            PartView::Name(encode_utf8("data"@)),
            PartView::Name(encode_utf8("Steam"@)),
        ],
{
    lemma_text_data_name();
    lemma_name_text_below(base, "data"@);
    lemma_text_data_steam();
    lemma_text_goes_on(base, "data"@, "Steam"@, "data/Steam"@);
    assert(parts(under_text(base, "data/Steam"@)) =~= parts(base) + seq![
        PartView::Name(encode_utf8("data"@)),
        PartView::Name(encode_utf8("Steam"@)),
    ]);
}

proof fn lemma_in_local_share(base: Seq<u8>)
    ensures
        parts(under_text(base, ".local/share"@)) == parts(base) + seq![
            PartView::Name(encode_utf8(".local"@)),
            PartView::Name(encode_utf8("share"@)),
        ],
{
    lemma_text_local_name();
    lemma_name_text_below(base, ".local"@);
    lemma_text_local_share();
    lemma_text_goes_on(base, ".local"@, "share"@, ".local/share"@);
    assert(parts(under_text(base, ".local/share"@)) =~= parts(base) + seq![
        PartView::Name(encode_utf8(".local"@)),
        PartView::Name(encode_utf8("share"@)),
    ]);
}

proof fn lemma_flatpak_local_share_steam(home: Seq<u8>)
    ensures
        under_text(home, ".var/app/com.valvesoftware.Steam/.local/share/Steam"@) == under_text(under_text(home,
            ".var/app/com.valvesoftware.Steam"@), ".local/share/Steam"@),
{
    assert(is_ascii_chars(".var/app/com.valvesoftware.Steam"@) && ".var/app/com.valvesoftware.Steam"@.len() > 0
        && ".var/app/com.valvesoftware.Steam"@[0] != '/' && ".var/app/com.valvesoftware.Steam"@.last() != '/') by {
        reveal_strlit(".var/app/com.valvesoftware.Steam");
    }
    assert(is_ascii_chars(".local/share/Steam"@) && ".local/share/Steam"@.len() > 0
        && ".local/share/Steam"@[0] != '/') by {
        reveal_strlit(".local/share/Steam");
    }
    assert(".var/app/com.valvesoftware.Steam/.local/share/Steam"@ == ".var/app/com.valvesoftware.Steam"@.push('/')
        + ".local/share/Steam"@) by {
        reveal_strlit(".var/app/com.valvesoftware.Steam");
        reveal_strlit(".local/share/Steam");
        reveal_strlit(".var/app/com.valvesoftware.Steam/.local/share/Steam");
        assert(".var/app/com.valvesoftware.Steam/.local/share/Steam"@ =~= ".var/app/com.valvesoftware.Steam"@.push(
            '/') + ".local/share/Steam"@);
    }
    lemma_text_joins(
        home,
        ".var/app/com.valvesoftware.Steam"@,
        ".local/share/Steam"@,
        ".var/app/com.valvesoftware.Steam/.local/share/Steam"@,
    );
}

proof fn lemma_flatpak_data_steam(home: Seq<u8>)
    ensures
        under_text(home, ".var/app/com.valvesoftware.Steam/data/Steam"@) == under_text(under_text(home,
            ".var/app/com.valvesoftware.Steam"@), "data/Steam"@),
{
    assert(is_ascii_chars(".var/app/com.valvesoftware.Steam"@) && ".var/app/com.valvesoftware.Steam"@.len() > 0
        && ".var/app/com.valvesoftware.Steam"@[0] != '/' && ".var/app/com.valvesoftware.Steam"@.last() != '/') by {
        reveal_strlit(".var/app/com.valvesoftware.Steam");
    }
    assert(is_ascii_chars("data/Steam"@) && "data/Steam"@.len() > 0 && "data/Steam"@[0] != '/') by {
        reveal_strlit("data/Steam");
    }
    assert(".var/app/com.valvesoftware.Steam/data/Steam"@ == ".var/app/com.valvesoftware.Steam"@.push('/')
        + "data/Steam"@) by {
        reveal_strlit(".var/app/com.valvesoftware.Steam");
        reveal_strlit("data/Steam");
        reveal_strlit(".var/app/com.valvesoftware.Steam/data/Steam");
        assert(".var/app/com.valvesoftware.Steam/data/Steam"@ =~= ".var/app/com.valvesoftware.Steam"@.push('/')
            + "data/Steam"@);
    }
    lemma_text_joins(
        home,
        ".var/app/com.valvesoftware.Steam"@,
        "data/Steam"@,
        ".var/app/com.valvesoftware.Steam/data/Steam"@,
    );
}

proof fn lemma_other_name(text: Seq<char>)
    requires
        is_ascii_chars(text),
        text.len() < 23,
    ensures
        encode_utf8(text) != flatpak_name(),
{
    reveal_strlit("com.valvesoftware.Steam");
    is_ascii_chars_encode_utf8(text);
    is_ascii_chars_encode_utf8("com.valvesoftware.Steam"@);
    assert(encode_utf8(text).len() != flatpak_name().len());
}

proof fn lemma_other_names()
    ensures
        encode_utf8(".local"@) != flatpak_name(),
        encode_utf8("share"@) != flatpak_name(),
        encode_utf8("Steam"@) != flatpak_name(),
        encode_utf8(".steam"@) != flatpak_name(),
        encode_utf8("steam"@) != flatpak_name(),
        encode_utf8("root"@) != flatpak_name(),
        encode_utf8("debian-installation"@) != flatpak_name(),
        encode_utf8("Library"@) != flatpak_name(),
        encode_utf8("Application Support"@) != flatpak_name(),
{
    reveal_strlit(".local");
    reveal_strlit("share");
    reveal_strlit("Steam");
    reveal_strlit(".steam");
    reveal_strlit("steam");
    reveal_strlit("root");
    reveal_strlit("debian-installation");
    reveal_strlit("Library");
    reveal_strlit("Application Support");
    lemma_other_name(".local"@);
    lemma_other_name("share"@);
    lemma_other_name("Steam"@);
    lemma_other_name(".steam"@);
    lemma_other_name("steam"@);
    lemma_other_name("root"@);
    lemma_other_name("debian-installation"@);
    lemma_other_name("Library"@);
    lemma_other_name("Application Support"@);
}

/// Is a place below a base, and called Flatpak exactly when the directory of Flatpak Steam is among the steps between?
pub open spec fn is_of_its_kind(base: Seq<u8>, kind: InstallKind, place: Seq<u8>) -> bool {
    &&& inside(base, place)
    &&& kind == InstallKind::Flatpak <==> steps_below(base, place).contains(PartView::Name(flatpak_name()))
}

proof fn lemma_of_its_kind(base: Seq<u8>, kind: InstallKind, place: Seq<u8>, steps: Seq<PartView>)
    requires
        parts(place) == parts(base) + steps,
        kind == InstallKind::Flatpak <==> steps.contains(PartView::Name(flatpak_name())),
    ensures
        is_of_its_kind(base, kind, place),
{
    assert(steps_below(base, place) =~= steps);
    assert(parts(place).subrange(0, parts(base).len() as int) =~= parts(base));
}

proof fn lemma_native_places(home: Seq<u8>)
    ensures
        is_of_its_kind(home, InstallKind::Native, under_text(home, ".local/share/Steam"@)),
        is_of_its_kind(home, InstallKind::Native, under_text(home, ".steam/steam"@)),
        is_of_its_kind(home, InstallKind::Native, under_text(home, ".steam/root"@)),
        is_of_its_kind(home, InstallKind::Native, under_text(home, ".steam/debian-installation"@)),
        is_of_its_kind(home, InstallKind::Native, under_text(home, "Library/Application Support/Steam"@)),
        is_of_its_kind(home, InstallKind::Native, under_text(home, "Steam"@)),
{
    lemma_other_names();
    assert(is_name_text("Steam"@)) by {
        reveal_strlit("Steam");
    }
    lemma_name_text_below(home, "Steam"@);
    assert(parts(home).push(PartView::Name(encode_utf8("Steam"@))) =~= parts(home) + seq![
        PartView::Name(encode_utf8("Steam"@)),
    ]);
    let native = InstallKind::Native;
    lemma_of_its_kind(home, native, under_text(home, "Steam"@), seq![PartView::Name(encode_utf8("Steam"@))]);
    lemma_in_local_share_steam(home);
    lemma_in_steam_steam(home);
    lemma_in_steam_root(home);
    lemma_in_steam_debian_installation(home);
    lemma_in_library_application_support_steam(home);
    let local = PartView::Name(encode_utf8(".local"@));
    let share = PartView::Name(encode_utf8("share"@));
    let steam = PartView::Name(encode_utf8("Steam"@));
    let hidden = PartView::Name(encode_utf8(".steam"@));
    let small = PartView::Name(encode_utf8("steam"@));
    let root = PartView::Name(encode_utf8("root"@));
    let debian = PartView::Name(encode_utf8("debian-installation"@));
    let library = PartView::Name(encode_utf8("Library"@));
    let support = PartView::Name(encode_utf8("Application Support"@));
    lemma_of_its_kind(home, native, under_text(home, ".local/share/Steam"@), seq![local, share, steam]);
    lemma_of_its_kind(home, native, under_text(home, ".steam/steam"@), seq![hidden, small]);
    lemma_of_its_kind(home, native, under_text(home, ".steam/root"@), seq![hidden, root]);
    lemma_of_its_kind(home, native, under_text(home, ".steam/debian-installation"@), seq![hidden, debian]);
    lemma_of_its_kind(
        home,
        native,
        under_text(home, "Library/Application Support/Steam"@),
        seq![library, support, steam],
    );
}

proof fn lemma_inside_flatpak(home: Seq<u8>, dir: Seq<u8>, place: Seq<u8>, above: Seq<PartView>, rest: Seq<PartView>)
    requires
        above.contains(PartView::Name(flatpak_name())),
        parts(dir) == parts(home) + above,
        parts(place) == parts(dir) + rest,
    ensures
        is_of_its_kind(home, InstallKind::Flatpak, place),
{
    let i = choose|i: int| 0 <= i < above.len() && above[i] == PartView::Name(flatpak_name());
    assert((above + rest)[i] == above[i]);
    assert(parts(place) =~= parts(home) + (above + rest));
    lemma_of_its_kind(home, InstallKind::Flatpak, place, above + rest);
}

proof fn lemma_flatpak_dir(home: Seq<u8>) -> (above: Seq<PartView>)
    ensures
        above.contains(PartView::Name(flatpak_name())),
        parts(under_text(home, ".var/app/com.valvesoftware.Steam"@)) == parts(home) + above,
{
    lemma_in_var_app_com_valvesoftware_steam(home);
    let above = seq![
        PartView::Name(encode_utf8(".var"@)),
        PartView::Name(encode_utf8("app"@)),
        PartView::Name(encode_utf8("com.valvesoftware.Steam"@)),
    ];
    assert(above[2] == PartView::Name(flatpak_name()));
    above
}

proof fn lemma_flatpak_places(home: Seq<u8>)
    ensures
        is_of_its_kind(
            home,
            InstallKind::Flatpak,
            under_text(home, ".var/app/com.valvesoftware.Steam/.local/share/Steam"@),
        ),
        is_of_its_kind(home, InstallKind::Flatpak, under_text(home, ".var/app/com.valvesoftware.Steam/data/Steam"@)),
{
    let dir = under_text(home, ".var/app/com.valvesoftware.Steam"@);
    let above = lemma_flatpak_dir(home);
    lemma_flatpak_local_share_steam(home);
    lemma_flatpak_data_steam(home);
    lemma_in_local_share_steam(dir);
    lemma_in_data_steam(dir);
    let one = seq![
        PartView::Name(encode_utf8(".local"@)),
        PartView::Name(encode_utf8("share"@)),
        PartView::Name(encode_utf8("Steam"@)),
    ];
    let two = seq![PartView::Name(encode_utf8("data"@)), PartView::Name(encode_utf8("Steam"@))];
    lemma_inside_flatpak(home, dir, under_text(dir, ".local/share/Steam"@), above, one);
    lemma_inside_flatpak(home, dir, under_text(dir, "data/Steam"@), above, two);
}

/// Where Steam is looked for below a data directory or a home directory, what is inside the directory of Flatpak
/// Steam is called Flatpak, and nothing else is.
pub proof fn law_places_are_of_their_kind(xdg: Option<Seq<u8>>, home: Option<Seq<u8>>, i: int)
    requires
        0 <= i < install_candidates(None, xdg, home).len(),
    ensures
        ({
            let (kind, place) = install_candidates(None, xdg, home)[i];
            let base = if xdg is Some && i == 0 {
                xdg
            } else {
                home
            };
            base is Some && is_of_its_kind(base->0, kind, place)
        }),
{
    let list = install_candidates(None, xdg, home);
    if let Some(xdg) = xdg {
        lemma_native_places(xdg);
    }
    if let Some(home) = home {
        lemma_native_places(home);
        lemma_flatpak_places(home);
    }
    let first: int = if xdg is Some {
        1
    } else {
        0
    };
    if i >= first {
        assert(list[i] == crate::steam::home_candidates(home->0)[i - first]);
        assert(i - first == 0 || i - first == 1 || i - first == 2 || i - first == 3 || i - first == 4 || i - first == 5
            || i - first == 6);
    }
}

/// A place is listed once, whatever it is called.
pub open spec fn lists_place(list: Seq<(InstallKind, Seq<u8>)>, place: Seq<u8>) -> bool {
    exists|i: int| 0 <= i < list.len() && (#[trigger] list[i]).1 == place
}

/// Steam is looked for at each of its usual places. A root that is given is the only place.
pub proof fn law_usual_places_are_looked_at(given: Seq<u8>, xdg: Option<Seq<u8>>, home: Option<Seq<u8>>)
    ensures
        install_candidates(Some(given), xdg, home).len() == 1,
        install_candidates(Some(given), xdg, home)[0].1 == given,
        xdg matches Some(xdg) ==> lists_place(install_candidates(None, Some(xdg), home), under_text(xdg, "Steam"@)),
        home matches Some(home) ==> {
            let list = install_candidates(None, xdg, Some(home));
            &&& lists_place(list, under_text(home, ".local/share/Steam"@))
            &&& lists_place(list, under_text(home, ".steam/steam"@))
            &&& lists_place(list, under_text(home, ".steam/root"@))
            &&& lists_place(list, under_text(home, ".steam/debian-installation"@))
            &&& lists_place(list, under_text(home, "Library/Application Support/Steam"@))
            &&& lists_place(list, under_text(home, ".var/app/com.valvesoftware.Steam/.local/share/Steam"@))
            &&& lists_place(list, under_text(home, ".var/app/com.valvesoftware.Steam/data/Steam"@))
        },
{
    if let Some(xdg) = xdg {
        assert(install_candidates(None, Some(xdg), home)[0].1 == under_text(xdg, "Steam"@));
    }
    if let Some(home) = home {
        let list = install_candidates(None, xdg, Some(home));
        let first: int = if xdg is Some {
            1
        } else {
            0
        };
        assert(list[first].1 == under_text(home, ".local/share/Steam"@));
        assert(list[first + 1].1 == under_text(home, ".steam/steam"@));
        assert(list[first + 2].1 == under_text(home, ".steam/root"@));
        assert(list[first + 3].1 == under_text(home, ".steam/debian-installation"@));
        assert(list[first + 4].1 == under_text(home, "Library/Application Support/Steam"@));
        assert(list[first + 5].1 == under_text(home, ".var/app/com.valvesoftware.Steam/.local/share/Steam"@));
        assert(list[first + 6].1 == under_text(home, ".var/app/com.valvesoftware.Steam/data/Steam"@));
    }
}

/// The nearest directory of a name on the way to a path is one on the way, has that name, and none below it has; and
/// there is one exactly when the name is among the steps.
pub proof fn law_nearest_of_a_name(path: Seq<u8>, name: Seq<u8>)
    ensures
        ancestor_named(path, name) is Some <==> parts(path).contains(PartView::Name(name)),
        ancestor_named(path, name) matches Some(dir) ==> {
            &&& inside(dir, path)
            &&& parts(dir).len() > 0
            &&& parts(dir).last() == PartView::Name(name)
            &&& !steps_below(dir, path).contains(PartView::Name(name))
        },
    decreases parts(path).len(),
{
    let all = parts(path);
    if last_name(path) == Some(name) {
        assert(all[all.len() - 1] == PartView::Name(name));
        assert(steps_below(path, path) =~= Seq::empty());
        assert(all.subrange(0, all.len() as int) =~= all);
    } else {
        law_parent_drops_the_last_step(path);
        match parent_of(path) {
            Some(parent) => {
                law_nearest_of_a_name(parent, name);
                let front = parts(parent);
                if all.contains(PartView::Name(name)) {
                    let i = choose|i: int| 0 <= i < all.len() && all[i] == PartView::Name(name);
                    assert(i < all.len() - 1);
                    assert(front[i] == all[i]);
                }
                if front.contains(PartView::Name(name)) {
                    let i = choose|i: int| 0 <= i < front.len() && front[i] == PartView::Name(name);
                    assert(all[i] == front[i]);
                }
                if let Some(dir) = ancestor_named(parent, name) {
                    let n = parts(dir).len() as int;
                    assert(all.subrange(0, n) =~= front.subrange(0, n));
                    let below = steps_below(dir, path);
                    if below.contains(PartView::Name(name)) {
                        let i = choose|i: int| 0 <= i < below.len() && below[i] == PartView::Name(name);
                        assert(i < steps_below(dir, parent).len());
                        assert(steps_below(dir, parent)[i] == PartView::Name(name));
                    }
                }
            },
            None => {
                assert(!all.contains(PartView::Name(name))) by {
                    if all.contains(PartView::Name(name)) {
                        let i = choose|i: int| 0 <= i < all.len() && all[i] == PartView::Name(name);
                        assert(all[i] == all.last());
                    }
                }
            },
        }
    }
}

/// Moved data goes to the directory that was chosen, where one was. Otherwise it goes into a directory of this tool
/// below the user's data directory; for Steam in the sandbox of Flatpak, below the `data` of its own directory there,
/// which the sandbox can see.
pub proof fn law_moved_data_goes_where_it_is_seen(library: LibraryView)
    ensures
        library.places.chosen matches Some(chosen) ==> library.root() == chosen,
        library.places.chosen is None && library.install_kind == InstallKind::Native ==> parts(library.root())
            == parts(library.places.native).push(PartView::Name(encode_utf8("librarybridge"@))),
        library.places.chosen is None && library.install_kind == InstallKind::Flatpak && parts(
            library.install_root,
        ).contains(PartView::Name(flatpak_name())) ==> exists|app: Seq<u8>|
            #[trigger] inside(app, library.install_root) && parts(app).len() > 0 && parts(app).last() == PartView::Name(
                flatpak_name(),
            ) && parts(library.root()) == parts(app) + seq![
                PartView::Name(encode_utf8("data"@)),
                PartView::Name(encode_utf8("librarybridge"@)),
            ],
{
    assert(is_name_text("librarybridge"@)) by {
        reveal_strlit("librarybridge");
    }
    assert(is_name_text("data"@)) by {
        reveal_strlit("data");
    }
    lemma_name_text_below(library.places.native, "librarybridge"@);
    law_nearest_of_a_name(library.install_root, flatpak_name());
    if parts(library.install_root).contains(PartView::Name(flatpak_name())) {
        let app = ancestor_named(library.install_root, flatpak_name())->0;
        lemma_name_text_below(app, "data"@);
        lemma_name_text_below(under_text(app, "data"@), "librarybridge"@);
        assert(parts(under_text(under_text(app, "data"@), "librarybridge"@)) =~= parts(app) + seq![
            PartView::Name(encode_utf8("data"@)),
            PartView::Name(encode_utf8("librarybridge"@)),
        ]);
        assert(inside(app, library.install_root));
    }
}

/// A root that is given is called Flatpak exactly when its text holds the name of Flatpak Steam.
pub proof fn law_given_root_is_of_its_kind(given: Seq<char>, xdg: Option<Seq<u8>>, home: Option<Seq<u8>>)
    ensures
        install_candidates(Some(encode_utf8(given)), xdg, home)[0].0 == InstallKind::Flatpak <==> holds(
            given,
            "com.valvesoftware.Steam"@,
        ),
{
    law_utf8_is_kept(encode_utf8(given), given);
}

/// The data directory is what the environment names, where that is absolute, and otherwise below the home directory.
pub proof fn law_data_directory_is_absolute_or_at_home(xdg: Option<Seq<u8>>, home: Option<Seq<u8>>)
    ensures
        xdg is Some && xdg->0.len() > 0 && xdg->0[0] == 47 ==> data_root_of(xdg, home) == xdg->0,
        home is Some && (xdg is None || xdg->0.len() == 0 || xdg->0[0] != 47) ==> parts(data_root_of(xdg, home))
            == parts(home->0) + seq![PartView::Name(encode_utf8(".local"@)), PartView::Name(encode_utf8("share"@))],
{
    if let Some(home) = home {
        lemma_in_local_share(home);
    }
}

/// Is it an ASCII letter or digit, `-` or `_`?
pub open spec fn fits_a_name(c: char) -> bool {
    'a' <= c <= 'z' || 'A' <= c <= 'Z' || '0' <= c <= '9' || c == '-' || c == '_'
}

proof fn lemma_front_bars_more(name: Seq<char>)
    ensures
        without_front_bars(seq!['_'] + name) == without_front_bars(name),
{
    let longer = seq!['_'] + name;
    assert(longer[0] == '_');
    assert(longer.skip(1) =~= name);
}

proof fn lemma_front_bars_push(name: Seq<char>)
    ensures
        without_front_bars(name.push('_')) == if without_front_bars(name).len() == 0 {
            Seq::empty()
        } else {
            without_front_bars(name).push('_')
        },
    decreases name.len(),
{
    let longer = name.push('_');
    if name.len() == 0 {
        assert(longer[0] == '_');
        assert(longer.skip(1) =~= name);
        assert(without_front_bars(longer) == without_front_bars(name));
    } else if name[0] == '_' {
        assert(longer[0] == '_');
        assert(longer.skip(1) =~= name.skip(1).push('_'));
        lemma_front_bars_push(name.skip(1));
    } else {
        assert(longer[0] == name[0]);
    }
}

/// What a directory is named after a library holds letters, digits, `-` and `_` only. A name that does already, that
/// has no `_` at its ends and that is not longer than 32 characters is kept; of a longer one the first 32 are. What
/// does not fit counts as a `_`, and a `_` at either end counts as nothing. A name of which nothing is left is
/// `library`.
pub proof fn law_names_are_kept_as_far_as_they_fit(name: Seq<char>, i: int)
    ensures
        forall|k: int| 0 <= k < sanitized(name).len() ==> fits_a_name(#[trigger] sanitized(name)[k]),
        (forall|k: int| 0 <= k < name.len() ==> fits_a_name(#[trigger] name[k])) && name.len() > 0 && name[0] != '_'
            && name.last() != '_' ==> sanitized(name) == if name.len() > 32 {
            name.take(32)
        } else {
            name
        },
        0 <= i < name.len() && !fits_a_name(name[i]) ==> sanitized(name.update(i, '_')) == sanitized(name),
        sanitized(seq!['_'] + name) == sanitized(name),
        sanitized(name.push('_')) == sanitized(name),
        sanitized(Seq::empty()) == "library"@,
{
    crate::steam::law_sanitized_names_are_plain(name);
    assert(forall|c: char| #[trigger] plain(c) <==> fits_a_name(c));
    assert forall|k: int| 0 <= k < sanitized(name).len() implies fits_a_name(#[trigger] sanitized(name)[k]) by {
        assert(plain(sanitized(name)[k]));
    }
    if forall|k: int| 0 <= k < name.len() ==> fits_a_name(#[trigger] name[k]) {
        assert forall|k: int| 0 <= k < name.len() implies plained(name)[k] == name[k] by {
            assert(fits_a_name(name[k]));
        }
        assert(plained(name) =~= name);
    }
    if 0 <= i < name.len() && !fits_a_name(name[i]) {
        assert(plained(name.update(i, '_')) =~= plained(name));
    }
    assert(plained(seq!['_'] + name) =~= seq!['_'] + plained(name));
    lemma_front_bars_more(plained(name));
    assert(plained(name.push('_')) =~= plained(name).push('_'));
    lemma_front_bars_push(plained(name));
    let inner = without_front_bars(plained(name));
    assert(inner.push('_').drop_last() =~= inner);
    assert(plained(Seq::<char>::empty()) =~= Seq::empty());
}

/// The destination of a library is `compatdata` in a directory, below the place for moved data, that is named after
/// the library and its id.
pub proof fn law_destination_is_named_after_the_library(library: LibraryView)
    requires
        all_plain(library.id),
    ensures
        parts(library.target()) == parts(library.root()) + seq![
            PartView::Name(encode_utf8(sanitized(library.name()) + seq!['-'] + library.id)),
            PartView::Name(encode_utf8("compatdata"@)),
        ],
        library.label.len() > 0 ==> library.name() == library.label,
        library.label.len() == 0 && last_name(library.path) is Some ==> library.name() == shown(
            last_name(library.path)->0,
        ),
{
    let dir = sanitized(library.name()) + library.suffix();
    assert("-"@ =~= seq!['-']) by {
        reveal_strlit("-");
    }
    assert(dir =~= sanitized(library.name()) + seq!['-'] + library.id);
    crate::steam::law_sanitized_names_are_plain(library.name());
    assert(is_name_text(dir)) by {
        assert forall|i: int| 0 <= i < dir.len() implies '\0' <= #[trigger] dir[i] <= '\u{7f}' && dir[i] != '/' by {
            let n = sanitized(library.name()).len();
            if i < n {
                assert(plain(sanitized(library.name())[i]));
            } else if i > n {
                assert(plain(library.id[i - n - 1]));
            }
        }
        assert(plain(sanitized(library.name())[0]));
        assert(dir[0] == sanitized(library.name())[0]);
    }
    lemma_name_text_below(library.root(), dir);
    assert(is_name_text("compatdata"@)) by {
        reveal_strlit("compatdata");
    }
    lemma_name_text_below(under_text(library.root(), dir), "compatdata"@);
    assert(parts(library.target()) =~= parts(library.root()) + seq![
        PartView::Name(encode_utf8(sanitized(library.name()) + seq!['-'] + library.id)),
        PartView::Name(encode_utf8("compatdata"@)),
    ]);
}

/// A destination that is there and carries the library's id is the one in use, whatever the library is called now:
/// the first that does. Where none does, it is the one that a repair would make.
pub proof fn law_destination_in_use_carries_the_id(library: LibraryView, names: Seq<Seq<u8>>)
    ensures
        (forall|i: int|
            0 <= i < names.len() ==> !encode_utf8(seq!['-'] + library.id).is_suffix_of(#[trigger] names[i]))
            ==> target_in_use(library, names) == library.target(),
        forall|i: int|
            0 <= i < names.len() && encode_utf8(seq!['-'] + library.id).is_suffix_of(#[trigger] names[i]) && (forall|
                k: int,
            |
                0 <= k < i ==> !encode_utf8(seq!['-'] + library.id).is_suffix_of(#[trigger] names[k]))
                ==> target_in_use(library, names) == under_text(under(library.root(), names[i]), "compatdata"@),
    decreases names.len(),
{
    assert("-"@ =~= seq!['-']) by {
        reveal_strlit("-");
    }
    let end = encode_utf8(seq!['-'] + library.id);
    if names.len() > 0 && !end.is_suffix_of(names[0]) {
        let rest = names.skip(1);
        law_destination_in_use_carries_the_id(library, rest);
        assert(forall|i: int| 0 <= i < rest.len() ==> #[trigger] rest[i] == names[i + 1]);
        assert(marked_name(library, names) == marked_name(library, rest));
        assert forall|i: int|
            0 <= i < names.len() && end.is_suffix_of(#[trigger] names[i]) && (forall|k: int|
                0 <= k < i ==> !end.is_suffix_of(#[trigger] names[k])) implies target_in_use(library, names)
            == under_text(under(library.root(), names[i]), "compatdata"@) by {
            assert(rest[i - 1] == names[i]);
            assert forall|k: int| 0 <= k < i - 1 implies !end.is_suffix_of(#[trigger] rest[k]) by {
                assert(rest[k] == names[k + 1]);
            }
        }
    }
}

/// Steam is at a place exactly when one of its directories is there.
pub proof fn law_steam_shows_itself(steamapps: bool, capital: bool, config: bool, looks: bool)
    requires
        call_ensures(looks_like_steam, (steamapps, capital, config), looks),
    ensures
        steamapps ==> looks,
        capital ==> looks,
        config ==> looks,
        !steamapps && !capital && !config ==> !looks,
{
}

/// Of the places that were looked at, each that looks like Steam is an installation, as it was first seen there, and
/// no place is one twice.
pub proof fn law_installations_are_what_looks_like_steam(looked: Seq<LookedView>)
    ensures
        ({
            let list = installs_of(looked);
            &&& forall|i: int, j: int|
                0 <= i < j < list.len() ==> parts((#[trigger] list[i]).1) != parts((#[trigger] list[j]).1)
            &&& forall|k: int|
                0 <= k < looked.len() && (#[trigger] looked[k]).looks_like_steam ==> has_install(list,
                    looked[k].resolved)
            &&& forall|i: int| 0 <= i < list.len() ==> was_seen(looked, #[trigger] list[i])
        }),
    decreases looked.len(),
{
    if looked.len() > 0 {
        let front = looked.drop_last();
        let before = installs_of(front);
        let list = installs_of(looked);
        let last = looked.last();
        law_installations_are_what_looks_like_steam(front);
        assert forall|i: int| 0 <= i < list.len() implies was_seen(looked, #[trigger] list[i]) by {
            if i < before.len() {
                assert(was_seen(front, before[i]));
                let k = choose|k: int| #[trigger] is_first_sight(front, k, before[i]);
                assert forall|m: int| 0 <= m < k && parts((#[trigger] looked[m]).resolved) == parts(
                    looked[k].resolved,
                ) implies !looked[m].looks_like_steam by {
                    assert(front[m] == looked[m] && front[k] == looked[k]);
                }
                assert(is_first_sight(looked, k, list[i]));
            } else {
                assert forall|m: int| 0 <= m < looked.len() - 1 && parts((#[trigger] looked[m]).resolved) == parts(
                    last.resolved,
                ) implies !looked[m].looks_like_steam by {
                    if looked[m].looks_like_steam {
                        assert(front[m] == looked[m]);
                        assert(has_install(before, front[m].resolved));
                        let n = choose|n: int|
                            0 <= n < before.len() && parts((#[trigger] before[n]).1) == parts(front[m].resolved);
                        assert(parts(before[n].1) == parts(last.resolved));
                    }
                }
                assert(is_first_sight(looked, looked.len() - 1, list[i]));
            }
        }
        assert forall|k: int| 0 <= k < looked.len() && (#[trigger] looked[k]).looks_like_steam implies has_install(
            list,
            looked[k].resolved,
        ) by {
            if k < front.len() {
                assert(front[k] == looked[k]);
                assert(has_install(before, front[k].resolved));
                let n = choose|n: int|
                    0 <= n < before.len() && parts((#[trigger] before[n]).1) == parts(front[k].resolved);
                assert(parts(list[n].1) == parts(looked[k].resolved));
            } else if has_install(before, last.resolved) {
                let n = choose|n: int|
                    0 <= n < before.len() && parts((#[trigger] before[n]).1) == parts(last.resolved);
                assert(parts(list[n].1) == parts(looked[k].resolved));
            } else {
                assert(parts(list[before.len() as int].1) == parts(looked[k].resolved));
            }
        }
    }
}

pub open spec fn was_seen(looked: Seq<LookedView>, install: (InstallKind, Seq<u8>)) -> bool {
    exists|k: int| #[trigger] is_first_sight(looked, k, install)
}

/// Is place `k` the first that looks like Steam there, and is the installation as it was seen?
pub open spec fn is_first_sight(looked: Seq<LookedView>, k: int, install: (InstallKind, Seq<u8>)) -> bool {
    &&& 0 <= k < looked.len()
    &&& looked[k].looks_like_steam
    &&& install == (looked[k].kind, looked[k].resolved)
    &&& forall|m: int|
        0 <= m < k && parts((#[trigger] looked[m]).resolved) == parts(looked[k].resolved)
            ==> !looked[m].looks_like_steam
}

/// A library is where its folder is, whether it is connected or not, and keeps the label of the folder. Its games are
/// in `steamapps` there, or in `SteamApps` where only that is, and its Proton data is in `compatdata` in that.
pub proof fn law_library_is_where_its_folder_is(kind: InstallKind, root: Seq<u8>, places: PlacesView, spot: SpotView)
    ensures
        ({
            let library = library_at(kind, root, places, spot);
            &&& library.path == spot.resolved
            &&& library.id == id_of(spot.resolved)
            &&& library.label == spot.label
            &&& library.connected == spot.connected
            &&& library.install_kind == kind
            &&& library.install_root == root
            &&& library.places == places
            &&& parts(library.compatdata) == parts(library.steamapps).push(PartView::Name(encode_utf8("compatdata"@)))
            &&& parts(library.steamapps).len() == parts(spot.resolved).len() + 1
            &&& inside(spot.resolved, library.steamapps)
            &&& last_name(library.steamapps) == Some(encode_utf8("SteamApps"@)) <==> spot.capital_steamapps
                && !spot.steamapps
            &&& last_name(library.steamapps) == Some(encode_utf8("steamapps"@)) <==> !spot.capital_steamapps
                || spot.steamapps
        }),
{
    let library = library_at(kind, root, places, spot);
    assert(is_name_text("compatdata"@)) by {
        reveal_strlit("compatdata");
    }
    assert(is_name_text("SteamApps"@) && is_name_text("steamapps"@) && "SteamApps"@[0] == 'S' && "steamapps"@[0]
        == 's') by {
        reveal_strlit("SteamApps");
        reveal_strlit("steamapps");
    }
    is_ascii_chars_encode_utf8("SteamApps"@);
    is_ascii_chars_encode_utf8("steamapps"@);
    assert(encode_utf8("SteamApps"@)[0] != encode_utf8("steamapps"@)[0]);
    lemma_name_text_below(library.steamapps, "compatdata"@);
    lemma_name_text_below(spot.resolved, "SteamApps"@);
    lemma_name_text_below(spot.resolved, "steamapps"@);
    let n = parts(spot.resolved).len() as int;
    assert(parts(library.steamapps).subrange(0, n) =~= parts(spot.resolved));
}

/// Is folder `k` the first at its place?
pub open spec fn is_first_folder(spots: Seq<SpotView>, k: int) -> bool {
    0 <= k < spots.len() && forall|m: int|
        0 <= m < k ==> parts((#[trigger] spots[m]).resolved) != parts(spots[k].resolved)
}

proof fn lemma_every_folder_is_listed(
    kind: InstallKind,
    root: Seq<u8>,
    places: PlacesView,
    spots: Seq<SpotView>,
    k: int,
)
    requires
        0 <= k < spots.len(),
    ensures
        has_library(libraries_at(kind, root, places, spots), spots[k].resolved),
{
    law_each_place_once(kind, root, places, spots);
    assert(has_library(libraries_at(kind, root, places, spots), (spots[k]).resolved));
}

/// Each library that is found is the one at some folder, and the first folder at a place counts.
pub proof fn law_libraries_are_those_of_the_folders(
    kind: InstallKind,
    root: Seq<u8>,
    places: PlacesView,
    spots: Seq<SpotView>,
    i: int,
) -> (k: int)
    requires
        0 <= i < libraries_at(kind, root, places, spots).len(),
    ensures
        is_first_folder(spots, k),
        libraries_at(kind, root, places, spots)[i] == library_at(kind, root, places, spots[k]),
    decreases spots.len(),
{
    let front = spots.drop_last();
    let before = libraries_at(kind, root, places, front);
    if i < before.len() {
        let k = law_libraries_are_those_of_the_folders(kind, root, places, front, i);
        assert forall|m: int| 0 <= m < k implies parts((#[trigger] spots[m]).resolved) != parts(spots[k].resolved) by {
            assert(front[m] == spots[m]);
        }
        k
    } else {
        let k = spots.len() - 1;
        assert forall|m: int| 0 <= m < k implies parts((#[trigger] spots[m]).resolved) != parts(spots[k].resolved) by {
            assert(front[m] == spots[m]);
            lemma_every_folder_is_listed(kind, root, places, front, m);
            if parts(spots[m].resolved) == parts(spots[k].resolved) {
                let n = choose|n: int|
                    0 <= n < before.len() && parts((#[trigger] before[n]).path) == parts(front[m].resolved);
                assert(parts(before[n].path) == parts(spots[k].resolved));
            }
        }
        k
    }
}

/// Is a key a number?
pub open spec fn is_number_key(key: Seq<char>) -> bool {
    key.len() > 0 && forall|i: int| 0 <= i < key.len() ==> '0' <= #[trigger] key[i] <= '9'
}

/// Under a number stands a folder: a text is its path, and an object has its path and, where it has one, its label.
/// Under anything else stands none.
pub proof fn law_folders_stand_under_numbers(key: Seq<char>, value: ValueView, path: Seq<char>, label: Seq<char>)
    ensures
        !is_number_key(key) && key.len() > 0 ==> folder_of(key, value) is None,
        is_number_key(key) ==> folder_of(key, ValueView::Str(path)) == Some((encode_utf8(path), Seq::<char>::empty())),
        is_number_key(key) && value is Obj && value.under("path"@) == Some(ValueView::Str(path)) && value.under(
            "label"@,
        ) == Some(ValueView::Str(label)) ==> folder_of(key, value) == Some((encode_utf8(path), label)),
        is_number_key(key) && value is Obj && value.under("path"@) == Some(ValueView::Str(path)) && value.under(
            "label"@,
        ) is None ==> folder_of(key, value) == Some((encode_utf8(path), Seq::<char>::empty())),
        value is Obj && value.under("path"@) is None ==> folder_of(key, value) is None,
{
    reveal_strlit("");
    assert(""@ =~= Seq::<char>::empty());
    if !is_number_key(key) && key.len() > 0 {
        let i = choose|i: int| 0 <= i < key.len() && !('0' <= #[trigger] key[i] <= '9');
        assert(!all_digits(key));
    }
    if is_number_key(key) {
        assert(all_digits(key));
    }
}

/// The folders are those of the pairs, all of them, in their order.
pub proof fn law_every_folder_is_read(pairs: Seq<PairView>) -> (from: Seq<int>)
    ensures
        from.len() == folders_of(pairs).len(),
        forall|n: int|
            0 <= n < from.len() ==> 0 <= #[trigger] from[n] < pairs.len() && folder_of(
                pairs[from[n]].0,
                pairs[from[n]].1,
            ) == Some(folders_of(pairs)[n]),
        forall|m: int, n: int| 0 <= m < n < from.len() ==> #[trigger] from[m] < #[trigger] from[n],
        forall|k: int|
            0 <= k < pairs.len() && folder_of((#[trigger] pairs[k]).0, pairs[k].1) is Some ==> from.contains(k),
    decreases pairs.len(),
{
    if pairs.len() == 0 {
        Seq::empty()
    } else {
        let front = pairs.drop_last();
        let last = pairs.len() - 1;
        let before = law_every_folder_is_read(front);
        let from = if folder_of(pairs.last().0, pairs.last().1) is Some {
            before.push(last)
        } else {
            before
        };
        assert forall|k: int| 0 <= k < pairs.len() && folder_of((#[trigger] pairs[k]).0, pairs[k].1) is Some implies
            from.contains(k) by {
            if k < last {
                assert(front[k] == pairs[k]);
                let n = choose|n: int| 0 <= n < before.len() && before[n] == k;
                assert(from[n] == k);
            } else {
                assert(from[before.len() as int] == k);
            }
        }
        from
    }
}

/// An installation's own folder comes first, and all that its list names follow, where the list could be read.
pub proof fn law_own_folder_comes_first(root: Seq<u8>, value: Value, folders: ValueView)
    ensures
        all_folders(root, None) == seq![(root, Seq::<char>::empty())],
        value.model().under("libraryfolders"@) == Some(folders) ==> all_folders(root, Some(Ok(value))) == seq![
            (root, Seq::<char>::empty()),
        ] + folders_of(folders.pairs()),
        value.model().under("libraryfolders"@) is None ==> all_folders(root, Some(Ok(value))) == seq![
            (root, Seq::<char>::empty()),
        ],
{
    reveal_strlit("");
    assert(""@ =~= Seq::<char>::empty());
}

proof fn lemma_matches(list: Seq<LibraryView>, reference: Seq<char>)
    ensures
        ({
            let found = matches_by_id(list, reference);
            &&& forall|n: int|
                0 <= n < found.len() ==> 0 <= #[trigger] found[n] < list.len() && reference.is_prefix_of(
                    list[found[n]].id,
                )
            &&& forall|m: int, n: int| 0 <= m < n < found.len() ==> #[trigger] found[m] < #[trigger] found[n]
            &&& forall|i: int|
                0 <= i < list.len() && reference.is_prefix_of((#[trigger] list[i]).id) ==> found.contains(i)
        }),
    decreases list.len(),
{
    if list.len() > 0 {
        let front = list.drop_last();
        let before = matches_by_id(front, reference);
        let found = matches_by_id(list, reference);
        lemma_matches(front, reference);
        assert forall|i: int| 0 <= i < list.len() && reference.is_prefix_of((#[trigger] list[i]).id) implies
            found.contains(i) by {
            if i < front.len() {
                assert(front[i] == list[i]);
                let n = choose|n: int| 0 <= n < before.len() && before[n] == i;
                assert(found[n] == i);
            } else {
                assert(found[before.len() as int] == i);
            }
        }
    }
}

proof fn lemma_match_by_path(list: Seq<LibraryView>, wanted: Seq<u8>)
    ensures
        match match_by_path(list, wanted) {
            Some(i) => 0 <= i < list.len() && parts(list[i].path) == parts(wanted),
            None => forall|i: int| 0 <= i < list.len() ==> parts((#[trigger] list[i]).path) != parts(wanted),
        },
    decreases list.len(),
{
    if list.len() > 0 {
        let front = list.drop_last();
        lemma_match_by_path(front, wanted);
        if match_by_path(list, wanted) is None {
            assert forall|i: int| 0 <= i < list.len() implies parts((#[trigger] list[i]).path) != parts(wanted) by {
                if i < front.len() {
                    assert(front[i] == list[i]);
                }
            }
        }
    }
}

/// A reference names the one library whose id begins with it. Where the ids of two do, it names none; where no id
/// does, it names the library at the path, if there is one.
pub proof fn law_reference_names_one_library(list: Seq<LibraryView>, reference: Seq<char>, wanted: Seq<u8>, i: int,
    j: int)
    requires
        0 <= i < list.len(),
        0 <= j < list.len(),
        i != j,
    ensures
        reference.is_prefix_of(list[i].id) && reference.is_prefix_of(list[j].id) ==> resolution(
            list,
            reference,
            wanted,
        ) is Err,
        reference.is_prefix_of(list[i].id) && (forall|k: int|
            0 <= k < list.len() && k != i ==> !reference.is_prefix_of((#[trigger] list[k]).id)) ==> resolution(
            list,
            reference,
            wanted,
        ) == Ok::<int, Seq<char>>(i),
        (forall|k: int| 0 <= k < list.len() ==> !reference.is_prefix_of((#[trigger] list[k]).id)) ==> match resolution(
            list,
            reference,
            wanted,
        ) {
            Ok(k) => 0 <= k < list.len() && parts(list[k].path) == parts(wanted),
            Err(_) => parts(list[i].path) != parts(wanted),
        },
{
    let found = matches_by_id(list, reference);
    lemma_matches(list, reference);
    lemma_match_by_path(list, wanted);
    if reference.is_prefix_of(list[i].id) {
        assert(found.contains(i));
        let m = choose|m: int| 0 <= m < found.len() && found[m] == i;
        if reference.is_prefix_of(list[j].id) {
            assert(found.contains(j));
            let n = choose|n: int| 0 <= n < found.len() && found[n] == j;
            assert(m != n);
        } else if forall|k: int| 0 <= k < list.len() && k != i ==> !reference.is_prefix_of((#[trigger] list[k]).id) {
            assert(found[0] == i);
            if found.len() > 1 {
                assert(found[1] == i);
                assert(found[0] < found[1]);
            }
        }
    } else if found.len() > 0 {
        assert(reference.is_prefix_of(list[found[0]].id));
    }
}

/// A whole id, of which there is only one, names its library, whatever the path.
pub proof fn law_whole_id_names_its_library(list: Seq<LibraryView>, wanted: Seq<u8>, i: int)
    requires
        0 <= i < list.len(),
        forall|k: int| 0 <= k < list.len() ==> (#[trigger] list[k]).id.len() == list[i].id.len(),
        forall|k: int| 0 <= k < list.len() && k != i ==> (#[trigger] list[k]).id != list[i].id,
    ensures
        resolution(list, list[i].id, wanted) == Ok::<int, Seq<char>>(i),
{
    let id = list[i].id;
    assert(id.subrange(0, id.len() as int) =~= id);
    lemma_matches(list, id);
    let found = matches_by_id(list, id);
    assert(found.contains(i));
    assert forall|n: int| 0 <= n < found.len() implies #[trigger] found[n] == i by {
        let other = list[found[n]].id;
        assert(other.subrange(0, id.len() as int) =~= other);
        assert(id.is_prefix_of(other));
        assert(other =~= id);
    }
    if found.len() > 1 {
        assert(found[0] < found[1]);
    }
}

/// The manifests of apps are the files called `appmanifest_`, something, `.acf`.
pub proof fn law_manifests_are_named_so(name: Seq<char>, middle: Seq<char>)
    ensures
        manifest_name("appmanifest_"@ + middle + ".acf"@),
        manifest_name(name) ==> exists|inner: Seq<char>| name == #[trigger] ("appmanifest_"@ + inner) + ".acf"@,
{
    let whole = "appmanifest_"@ + middle + ".acf"@;
    reveal_strlit("appmanifest_");
    reveal_strlit(".acf");
    assert(whole.subrange(0, 12) =~= "appmanifest_"@);
    assert(whole.subrange(whole.len() - 4, whole.len() as int) =~= ".acf"@);
    if manifest_name(name) {
        let n = name.len() as int;
        assert(name.subrange(0, 12) =~= "appmanifest_"@);
        assert(name.subrange(n - 4, n) =~= ".acf"@);
        if n < 16 {
            assert(name.subrange(n - 4, n)[0] == '.');
            assert(name[n - 4] == '.');
            assert(name.subrange(0, 12)[n - 4] == name[n - 4]);
        }
        let inner = name.subrange(12, n - 4);
        assert(name =~= ("appmanifest_"@ + inner) + ".acf"@);
    }
}

proof fn lemma_app_place(list: AppList, id: Seq<char>)
    ensures
        match app_place(list, id) {
            Some(i) => 0 <= i < list.len() && list[i].0 == id,
            None => forall|i: int| 0 <= i < list.len() ==> (#[trigger] list[i]).0 != id,
        },
    decreases list.len(),
{
    if list.len() > 0 && list.last().0 != id {
        lemma_app_place(list.drop_last(), id);
        assert forall|i: int| 0 <= i < list.len() - 1 implies list[i] == list.drop_last()[i] by {}
    }
}

/// An app is among those installed exactly when a manifest is about it, and goes by the name in the last of those.
pub proof fn law_apps_are_those_of_the_manifests(manifests: Seq<ValueView>, id: Seq<char>)
    ensures
        ({
            let list = apps_of(manifests);
            &&& forall|i: int, j: int| 0 <= i < j < list.len() ==> (#[trigger] list[i]).0 != (#[trigger] list[j]).0
            &&& match app_place(list, id) {
                Some(i) => 0 <= i < list.len() && list[i].0 == id && exists|k: int|
                    #[trigger] is_last_about(manifests, k, list[i]),
                None => forall|k: int| 0 <= k < manifests.len() ==> !is_about(#[trigger] manifests[k], id),
            }
        }),
    decreases manifests.len(),
{
    let list = apps_of(manifests);
    lemma_app_place(list, id);
    if manifests.len() > 0 {
        let front = manifests.drop_last();
        let before = apps_of(front);
        law_apps_are_those_of_the_manifests(front, id);
        assert(forall|k: int| 0 <= k < front.len() ==> #[trigger] front[k] == manifests[k]);
        lemma_app_place(before, id);
        if app_place(list, id) is None {
            assert(app_place(before, id) is None) by {
                if let Some(i) = app_place(before, id) {
                    if let Some(app) = app_of(manifests.last()) {
                        lemma_app_place(before, app.0);
                    }
                    assert(list[i].0 == id);
                }
            }
            assert(!is_about(manifests.last(), id)) by {
                if let Some(app) = app_of(manifests.last()) {
                    lemma_app_place(before, app.0);
                    let at = match app_place(before, app.0) {
                        Some(place) => place,
                        None => before.len() as int,
                    };
                    assert(list[at] == app);
                }
            }
            assert forall|k: int| 0 <= k < manifests.len() implies !is_about(#[trigger] manifests[k], id) by {
                if k < front.len() {
                    assert(!is_about(front[k], id));
                }
            }
        }
        match app_of(manifests.last()) {
            Some(app) => {
                lemma_app_place(before, app.0);
                let at = match app_place(before, app.0) {
                    Some(place) => place,
                    None => before.len() as int,
                };
                assert(list[at] == app);
                assert forall|i: int, j: int| 0 <= i < j < list.len() implies (#[trigger] list[i]).0
                    != (#[trigger] list[j]).0 by {
                    assert(i != at && i < before.len() ==> list[i] == before[i]);
                    assert(j != at && j < before.len() ==> list[j] == before[j]);
                }
                if app.0 == id {
                    assert(app_place(list, id) == Some(at));
                    assert(is_last_about(manifests, manifests.len() - 1, list[at]));
                } else if app_place(before, id) is Some {
                    let i = app_place(before, id)->0;
                    assert(list[i] == before[i]);
                    assert(app_place(list, id) == Some(i));
                    lemma_still_last_about(manifests, before[i]);
                }
            },
            None => {
                if app_place(before, id) is Some {
                    let i = app_place(before, id)->0;
                    lemma_still_last_about(manifests, before[i]);
                }
            },
        }
    }
}

proof fn lemma_still_last_about(manifests: Seq<ValueView>, app: (Seq<char>, Seq<char>))
    requires
        manifests.len() > 0,
        exists|k: int| #[trigger] is_last_about(manifests.drop_last(), k, app),
        !is_about(manifests.last(), app.0),
    ensures
        exists|k: int| #[trigger] is_last_about(manifests, k, app),
{
    let front = manifests.drop_last();
    let k = choose|k: int| #[trigger] is_last_about(front, k, app);
    assert forall|m: int| k < m < manifests.len() implies !is_about(#[trigger] manifests[m], app.0) by {
        if m < front.len() {
            assert(!is_about(front[m], app.0));
        }
    }
    assert(is_last_about(manifests, k, app));
}

/// Is manifest `k` about the app, and none after it?
pub open spec fn is_last_about(manifests: Seq<ValueView>, k: int, app: (Seq<char>, Seq<char>)) -> bool {
    &&& 0 <= k < manifests.len()
    &&& app_of(manifests[k]) == Some(app)
    &&& forall|m: int| k < m < manifests.len() ==> !is_about(#[trigger] manifests[m], app.0)
}

pub open spec fn is_about(manifest: ValueView, id: Seq<char>) -> bool {
    match app_of(manifest) {
        Some(app) => app.0 == id,
        None => false,
    }
}

/// A manifest is about the app whose id and name stand under `AppState`.
pub proof fn law_manifest_names_its_app(manifest: ValueView, state: ValueView, id: Seq<char>, name: Seq<char>)
    requires
        manifest.under("AppState"@) == Some(state),
        state.under("appid"@) == Some(ValueView::Str(id)),
        state.under("name"@) == Some(ValueView::Str(name)),
    ensures
        app_of(manifest) == Some((id, name)),
{
}

/// The list of an installation's folders is looked for at each of its usual places, first beside the games.
pub proof fn law_folder_lists_are_looked_for(install: &Install, paths: Vec<FilePath>)
    requires
        call_ensures(folder_lists, (install,), paths),
    ensures
        paths_view(paths@).len() == 3,
        paths_view(paths@)[0] == under_text(install.root@, "steamapps/libraryfolders.vdf"@),
        paths_view(paths@).contains(under_text(install.root@, "config/libraryfolders.vdf"@)),
        paths_view(paths@).contains(under_text(install.root@, "SteamApps/libraryfolders.vdf"@)),
{
    let all = paths_view(paths@);
    assert(all[1] == under_text(install.root@, "config/libraryfolders.vdf"@));
    assert(all[2] == under_text(install.root@, "SteamApps/libraryfolders.vdf"@));
}

} // verus!
