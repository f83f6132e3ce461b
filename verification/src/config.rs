//! The configuration: where the packages are.

use vstd::prelude::*;
use vstd::slice::slice_subrange;

use crate::settings::{
    find_setting, read_toml, setting_at, settings_opt, toml_settings, Setting, SettingModel,
};
use crate::text::{begins, cat, cat3, chars_of, same_text, starts_with, text_of};

verus! {

broadcast use vstd::seq_lib::group_seq_properties;

/// Where the packages are.
#[derive(Debug)]
pub struct Config {
    pub void_packages: String,
}

/// The path `rest` seen from `base`: `rest` itself where it starts at the root, otherwise both
/// with one `/` between them, unless `base` is empty or ends with one.
pub open spec fn joined_path(base: Seq<char>, rest: Seq<char>) -> Seq<char> {
    if rest.len() > 0 && rest[0] == '/' {
        rest
    } else if base.len() == 0 || base.last() == '/' {
        base + rest
    } else {
        base + "/"@ + rest
    }
}

/// The path `rest` seen from `base`.
pub fn path_join(base: &str, rest: &str) -> (r: String)
    ensures
        r@ == joined_path(base@, rest@),
{
    let b = chars_of(base);
    let c = chars_of(rest);
    if c.len() > 0 && c[0] == '/' {
        text_of(c.as_slice())
    } else if b.len() == 0 || b[b.len() - 1] == '/' {
        cat(base, rest)
    } else {
        cat3(base, "/", rest)
    }
}

/// A path with the home directory in place of a `~` in front.
pub open spec fn expanded(path: Seq<char>, home: Seq<char>) -> Seq<char> {
    if starts_with(path, "~/"@) {
        joined_path(home, path.skip(2))
    } else if path == "~"@ {
        home
    } else {
        path
    }
}

/// A path with the home directory in place of a `~` in front.
pub fn expand_tilde(path: &str, home: &str) -> (r: String)
    ensures
        r@ == expanded(path@, home@),
{
    let c = chars_of(path);
    let n: usize = c.len();
    proof {
        reveal_strlit("~/");
    }
    if begins(c.as_slice(), "~/") {
        let rest = slice_subrange(c.as_slice(), 2, n);
        assert(rest@ =~= c@.skip(2));
        path_join(home, text_of(rest).as_str())
    } else if same_text(path, "~") {
        home.to_owned()
    } else {
        path.to_owned()
    }
}

/// Where the packages are by the entries of the configuration file: where it says, or in the home
/// directory.
pub open spec fn packages_dir(
    entries: Option<Seq<(Seq<char>, SettingModel)>>,
    home: Seq<char>,
) -> Seq<char> {
    let by_default = joined_path(home, "void-packages"@);
    match entries {
        Some(e) => match setting_at(e, "void_packages"@) {
            Some(SettingModel::Text(s)) => expanded(s, home),
            _ => by_default,
        },
        None => by_default,
    }
}

/// The configuration, out of the entries of its file.
pub fn config_of(entries: &Option<Vec<(String, Setting)>>, home: &str) -> (r: Config)
    ensures
        r.void_packages@ == packages_dir(settings_opt(*entries), home@),
{
    if let Some(e) = entries {
        if let Some(Setting::Text(s)) = find_setting(e, "void_packages") {
            return Config { void_packages: expand_tilde(s.as_str(), home) };
        }
    }
    Config { void_packages: path_join(home, "void-packages") }
}

/// The configuration, out of its file, or by default where there is none.
pub fn load(content: &Option<String>, home: &str) -> (r: Config)
    ensures
        r.void_packages@ == packages_dir(
            match *content {
                Some(c) => toml_settings(c@),
                None => None,
            },
            home@,
        ),
{
    let entries = match content {
        Some(c) => read_toml(c.as_str()),
        None => None,
    };
    config_of(&entries, home)
}

/// Where the configuration file is.
pub fn config_path(home: &str) -> (r: String)
    ensures
        r@ == joined_path(home@, ".config/vxpm/config.toml"@),
{
    path_join(home, ".config/vxpm/config.toml")
}

/// The configuration file that is written where there is none.
pub fn bootstrap(home: &str) -> (r: String)
    ensures
        r@ == "# VPM configuration\nvoid_packages = \""@ + home@ + "/void-packages\"\n"@,
{
    cat3("# VPM configuration\nvoid_packages = \"", home, "/void-packages\"\n")
}

/// The directories that the program used under its former name, each with the one that it uses
/// now.
pub fn migrate_legacy_paths(home: &str) -> (r: Vec<(String, String)>)
    ensures
        r@.len() == 2,
        r@[0].0@ == joined_path(home@, ".config/vpm"@),
        r@[0].1@ == joined_path(home@, ".config/vxpm"@),
        r@[1].0@ == joined_path(home@, ".cache/vpm"@),
        r@[1].1@ == joined_path(home@, ".cache/vxpm"@),
{
    let mut out: Vec<(String, String)> = Vec::new();
    out.push((path_join(home, ".config/vpm"), path_join(home, ".config/vxpm")));
    out.push((path_join(home, ".cache/vpm"), path_join(home, ".cache/vxpm")));
    out
}

/// Whether a directory moves to its new name: it is there, and nothing is in its place.
pub open spec fn is_moved(old_exists: bool, new_exists: bool) -> bool {
    old_exists && !new_exists
}

/// Whether the directories of the former and of the new name are there after a migration, by
/// whether they were before: one that moves is gone then, and there under its new name.
pub open spec fn migrated(dirs: (bool, bool)) -> (bool, bool) {
    if is_moved(dirs.0, dirs.1) {
        (false, true)
    } else {
        dirs
    }
}

/// A directory moves once: after a migration none is left to move, and another migration changes
/// nothing.
pub proof fn law_migration_happens_once(dirs: (bool, bool))
    ensures
        !is_moved(migrated(dirs).0, migrated(dirs).1),
        migrated(migrated(dirs)) == migrated(dirs),
{
}

/// Whether a directory moves to its new name.
pub fn should_migrate(old_exists: bool, new_exists: bool) -> (r: bool)
    ensures
        r == is_moved(old_exists, new_exists),
{
    old_exists && !new_exists
}

/// A path that starts at the root stays as it is.
pub proof fn law_rooted_path_stays(base: Seq<char>, rest: Seq<char>)
    requires
        rest.len() > 0,
        rest[0] == '/',
    ensures
        joined_path(base, rest) == rest,
        expanded(rest, base) == rest,
{
    reveal_strlit("~/");
    reveal_strlit("~");
    if starts_with(rest, "~/"@) {
        assert(rest.take(2)[0] == rest[0]);
        assert("~/"@[0] == '~');
    }
    assert("~"@[0] == '~');
}

/// A path that starts with `~/` is one in the home directory, and `~` is the home directory; every
/// other path stays as it is.
pub proof fn law_home_is_expanded(home: Seq<char>, rest: Seq<char>)
    requires
        home.len() > 0,
        home.last() != '/',
        rest.len() > 0,
        rest[0] != '/',
    ensures
        expanded("~/"@ + rest, home) == home + "/"@ + rest,
        expanded("~"@, home) == home,
        rest[0] != '~' ==> expanded(rest, home) == rest,
        joined_path(home, rest) == home + "/"@ + rest,
{
    reveal_strlit("~/");
    reveal_strlit("~");
    let path = "~/"@ + rest;
    assert(path.take(2) =~= "~/"@);
    assert(path.skip(2) =~= rest);
    if starts_with(rest, "~/"@) {
        assert(rest.take(2)[0] == rest[0]);
    }
}

/// The packages are where the configuration says; where it says nothing, or cannot be read, they are
/// in the home directory.
pub proof fn law_packages_dir(
    before: Seq<(Seq<char>, SettingModel)>,
    after: Seq<(Seq<char>, SettingModel)>,
    path: Seq<char>,
    home: Seq<char>,
)
    requires
        forall|i: int| 0 <= i < before.len() ==> (#[trigger] before[i]).0 != "void_packages"@,
    ensures
        packages_dir(
            Some(before + seq![("void_packages"@, SettingModel::Text(path))] + after),
            home,
        ) == expanded(path, home),
        packages_dir(Some(before), home) == joined_path(home, "void-packages"@),
        packages_dir(None, home) == joined_path(home, "void-packages"@),
{
    lemma_setting_behind(before, seq![("void_packages"@, SettingModel::Text(path))] + after);
    lemma_setting_behind(before, Seq::empty());
    let entry = seq![("void_packages"@, SettingModel::Text(path))];
    assert(before + entry + after =~= before + (entry + after));
    assert((entry + after)[0] == entry[0]);
    assert(before + Seq::empty() =~= before);
}

/// A key is looked for behind entries that do not have it.
proof fn lemma_setting_behind(
    before: Seq<(Seq<char>, SettingModel)>,
    rest: Seq<(Seq<char>, SettingModel)>,
)
    requires
        forall|i: int| 0 <= i < before.len() ==> (#[trigger] before[i]).0 != "void_packages"@,
    ensures
        setting_at(before + rest, "void_packages"@) == setting_at(rest, "void_packages"@),
    decreases before.len(),
{
    if before.len() > 0 {
        let less = before.drop_first();
        assert(before[0].0 != "void_packages"@);
        assert forall|i: int| 0 <= i < less.len() implies (#[trigger] less[i]).0
            != "void_packages"@ by {
            assert(less[i] == before[i + 1]);
        }
        lemma_setting_behind(less, rest);
        assert((before + rest).drop_first() =~= less + rest);
        assert((before + rest)[0] == before[0]);
    } else {
        assert(before + rest =~= rest);
    }
}

/// A directory moves exactly where it is there under its former name, and not yet under the new one:
/// nothing is overwritten.
pub proof fn law_migration_overwrites_nothing(old_exists: bool, new_exists: bool)
    ensures
        is_moved(old_exists, new_exists) <==> old_exists && !new_exists,
        migrated((old_exists, new_exists)).1 == (old_exists || new_exists),
{
}

} // verus!
