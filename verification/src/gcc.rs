//! The compiler: which version there is, and which versions packages require.

use vstd::prelude::*;

use crate::config::{joined_path, path_join};
use crate::bump::{lemma_trim_indented, lemma_trim_push_white};
use crate::settings::{
    find_setting, read_toml, setting_at, settings_opt, table_texts, toml_settings, Setting,
    SettingModel,
};
use crate::table::TextMap;
use crate::text::{
    cat3, chars_of, decimal, find_char, is_digit, law_decimal_reads_back, lemma_decimal, lemma_find_char,
    lemma_find_char_is, number, number_u32, parse_number, runs, split_at_char, split_char, text_of,
    text_opt, trim, trimmed,
};

verus! {

broadcast use vstd::seq_lib::group_seq_properties;

/// The compiler of the system, and what packages require of it.
#[derive(Debug)]
pub struct GccInfo {
    pub system_version: Option<(u32, u32, u32)>,
    pub requirements: TextMap<(u32, u32)>,
}

/// The number in the part `k` of a version, nothing where there is none.
pub open spec fn part_number(parts: Seq<Seq<char>>, k: int) -> Option<u32> {
    if k < parts.len() {
        match parse_number(parts[k], u32::MAX as nat) {
            Some(n) => Some(n as u32),
            None => None,
        }
    } else {
        None
    }
}

pub open spec fn or_zero(n: Option<u32>) -> u32 {
    match n {
        Some(v) => v,
        None => 0,
    }
}

/// The version that a text like `14.2.0` writes. It has to start with a number; other parts that
/// are missing or no numbers count as 0.
pub open spec fn version_tuple(s: Seq<char>) -> Option<(u32, u32, u32)> {
    let parts = split_char(s, '.');
    match part_number(parts, 0) {
        Some(major) => Some((major, or_zero(part_number(parts, 1)), or_zero(part_number(parts, 2)))),
        None => None,
    }
}

/// The version that a text like `15.0` writes, by its first two parts.
pub open spec fn major_minor(s: Seq<char>) -> Option<(u32, u32)> {
    match version_tuple(s) {
        Some((major, minor, _)) => Some((major, minor)),
        None => None,
    }
}

/// Whether a compiler of the version `system` can do what the version `required` can.
pub open spec fn is_sufficient(system: (u32, u32, u32), required: (u32, u32)) -> bool {
    system.0 > required.0 || (system.0 == required.0 && system.1 >= required.1)
}

/// The number in the part `k` of a version, nothing where there is none.
fn number_at(parts: &Vec<&[char]>, k: usize) -> (r: Option<u32>)
    ensures
        r == part_number(runs(parts@), k as int),
{
    if k < parts.len() {
        assert(runs(parts@)[k as int] == parts@[k as int]@);
        number_u32(parts[k])
    } else {
        None
    }
}

fn zero_if_none(n: Option<u32>) -> (r: u32)
    ensures
        r == or_zero(n),
{
    match n {
        Some(v) => v,
        None => 0,
    }
}

/// The version that a text writes.
pub fn parse_version_tuple(s: &str) -> (r: Option<(u32, u32, u32)>)
    ensures
        r == version_tuple(s@),
{
    let c = chars_of(s);
    let parts = split_at_char(c.as_slice(), '.');
    match number_at(&parts, 0) {
        Some(major) => Some(
            (major, zero_if_none(number_at(&parts, 1)), zero_if_none(number_at(&parts, 2))),
        ),
        None => None,
    }
}

/// The version that a text writes, by its first two parts.
pub fn parse_major_minor(s: &str) -> (r: Option<(u32, u32)>)
    ensures
        r == major_minor(s@),
{
    match parse_version_tuple(s) {
        Some((major, minor, _)) => Some((major, minor)),
        None => None,
    }
}

/// Whether a compiler of the version `system` can do what the version `required` can.
fn is_gcc_sufficient(system: (u32, u32, u32), required: (u32, u32)) -> (r: bool)
    ensures
        r == is_sufficient(system, required),
{
    if system.0 > required.0 {
        return true;
    }
    system.0 == required.0 && system.1 >= required.1
}

/// What the entries of a table of requirements ask for, by package. Entries that write no version
/// ask for nothing.
pub open spec fn required_by(entries: Seq<(Seq<char>, Option<Seq<char>>)>) -> Map<
    Seq<char>,
    (u32, u32),
>
    decreases entries.len(),
{
    if entries.len() == 0 {
        Map::empty()
    } else {
        let before = required_by(entries.drop_last());
        match entries.last().1 {
            Some(text) => match major_minor(text) {
                Some(v) => before.insert(entries.last().0, v),
                None => before,
            },
            None => before,
        }
    }
}

/// What a file of requirements asks for: its table `requirements`.
pub open spec fn requirements_in(entries: Option<Seq<(Seq<char>, SettingModel)>>) -> Map<
    Seq<char>,
    (u32, u32),
> {
    match entries {
        Some(e) => match setting_at(e, "requirements"@) {
            Some(SettingModel::Table(t)) => required_by(t),
            _ => Map::empty(),
        },
        None => Map::empty(),
    }
}

/// What the entries of a table of requirements ask for.
fn read_table(entries: &Vec<(String, Option<String>)>) -> (r: TextMap<(u32, u32)>)
    ensures
        r.wf(),
        r@ == required_by(table_texts(entries@)),
{
    let ghost all = table_texts(entries@);
    let mut map: TextMap<(u32, u32)> = TextMap::new();
    let mut i: usize = 0;
    while i < entries.len()
        invariant
            i <= entries@.len(),
            all == table_texts(entries@),
            map.wf(),
            map@ == required_by(all.take(i as int)),
        decreases entries@.len() - i,
    {
        proof {
            assert(all.take(i + 1).drop_last() =~= all.take(i as int));
            assert(all.take(i + 1).last() == all[i as int]);
        }
        if let Some(text) = &entries[i].1 {
            if let Some(v) = parse_major_minor(text.as_str()) {
                map.insert(entries[i].0.clone(), v);
            }
        }
        i += 1;
    }
    assert(all.take(i as int) =~= all);
    map
}

/// What a file of requirements asks for.
pub fn requirements_of(entries: &Option<Vec<(String, Setting)>>) -> (r: TextMap<(u32, u32)>)
    ensures
        r.wf(),
        r@ == requirements_in(settings_opt(*entries)),
{
    if let Some(e) = entries {
        if let Some(Setting::Table(t)) = find_setting(e, "requirements") {
            return read_table(t);
        }
    }
    TextMap::new()
}

/// The version that the compiler prints.
pub open spec fn printed_version(stdout: Option<Seq<char>>) -> Option<(u32, u32, u32)> {
    match stdout {
        Some(s) => version_tuple(trim(s)),
        None => None,
    }
}

impl GccInfo {
    /// The compiler, out of what it prints of its version and the file of requirements, as far as
    /// these are to be had.
    pub fn detect(stdout: &Option<String>, requirements: &Option<String>) -> (r: Self)
        ensures
            r.system_version == printed_version(text_opt(*stdout)),
            r.requirements.wf(),
            r.requirements@ == requirements_in(
                match *requirements {
                    Some(c) => toml_settings(c@),
                    None => None,
                },
            ),
    {
        let system_version = match stdout {
            Some(s) => {
                let c = chars_of(s.as_str());
                let t = text_of(trimmed(c.as_slice()));
                parse_version_tuple(t.as_str())
            },
            None => None,
        };
        let entries = match requirements {
            Some(c) => read_toml(c.as_str()),
            None => None,
        };
        GccInfo { system_version, requirements: requirements_of(&entries) }
    }

    /// Whether the package requires a newer compiler than there is. Where the version of the
    /// compiler is not known, nothing is blocked.
    pub open spec fn blocks(&self, name: Seq<char>) -> bool {
        self.system_version is Some && self.requirements@.contains_key(name) && !is_sufficient(
            self.system_version->0,
            self.requirements@[name],
        )
    }

    /// The version of the compiler.
    pub open spec fn shown_version(&self) -> Seq<char> {
        match self.system_version {
            Some((major, minor, patch)) => decimal(major as nat) + "."@ + decimal(minor as nat)
                + "."@ + decimal(patch as nat),
            None => "unknown"@,
        }
    }

    /// The version of the compiler that the package requires.
    pub open spec fn shown_requirement(&self, name: Seq<char>) -> Option<Seq<char>> {
        if self.requirements@.contains_key(name) {
            let (major, minor) = self.requirements@[name];
            Some(decimal(major as nat) + "."@ + decimal(minor as nat))
        } else {
            None
        }
    }

    /// Whether the package requires a newer compiler than there is.
    pub fn is_blocked(&self, name: &str) -> (r: bool)
        ensures
            r == self.blocks(name@),
    {
        match self.system_version {
            Some(system) => match self.requirements.get(name) {
                Some(required) => !is_gcc_sufficient(system, *required),
                None => false,
            },
            None => false,
        }
    }

    /// The version of the compiler.
    pub fn version_string(&self) -> (r: String)
        ensures
            r@ == self.shown_version(),
    {
        match self.system_version {
            Some((major, minor, patch)) => {
                let a = number(major as u64);
                let b = number(minor as u64);
                let c = number(patch as u64);
                let front = cat3(a.as_str(), ".", b.as_str());
                cat3(front.as_str(), ".", c.as_str())
            },
            None => "unknown".to_owned(),
        }
    }

    /// The version of the compiler that the package requires.
    pub fn required_version(&self, name: &str) -> (r: Option<String>)
        ensures
            text_opt(r) == self.shown_requirement(name@),
    {
        match self.requirements.get(name) {
            Some(required) => {
                let a = number(required.0 as u64);
                let b = number(required.1 as u64);
                Some(cat3(a.as_str(), ".", b.as_str()))
            },
            None => None,
        }
    }
}

/// Where the file of requirements is.
pub fn requirements_path(home: &str) -> (r: String)
    ensures
        r@ == joined_path(home@, ".config/vxpm/gcc_requirements.toml"@),
{
    path_join(home, ".config/vxpm/gcc_requirements.toml")
}

/// The file of requirements that is written where there is none.
pub fn bootstrap_config() -> (r: &'static str)
    ensures
        r@ == "# GCC version requirements for packages\n# Format: package_name = \"major.minor\"\n# Packages listed here will show a warning badge if the system GCC\n# is older than the required version, and builds will be blocked.\n\n[requirements]\n# hyprland = \"15.0\"\n# hyprland-qt-support = \"15.0\"\n"@,
{
    "# GCC version requirements for packages\n# Format: package_name = \"major.minor\"\n# Packages listed here will show a warning badge if the system GCC\n# is older than the required version, and builds will be blocked.\n\n[requirements]\n# hyprland = \"15.0\"\n# hyprland-qt-support = \"15.0\"\n"
}

/// What an older compiler can do, a newer one can: a package that is not blocked stays so when
/// the compiler is updated.
pub proof fn law_newer_compiler_suffices(
    older: (u32, u32, u32),
    newer: (u32, u32, u32),
    required: (u32, u32),
)
    requires
        is_sufficient(older, required),
        newer.0 > older.0 || (newer.0 == older.0 && newer.1 >= older.1),
    ensures
        is_sufficient(newer, required),
{
}

/// A number in front of a dot is the first part of a version.
proof fn lemma_first_part(n: nat, rest: Seq<char>)
    ensures
        split_char(decimal(n) + "."@ + rest, '.') == seq![decimal(n)] + split_char(rest, '.'),
{
    reveal_strlit(".");
    lemma_decimal(n);
    let d = decimal(n);
    let s = d + "."@ + rest;
    assert forall|j: int| 0 <= j < d.len() implies s[j] != '.' by {
        assert(is_digit(d[j]));
    }
    let k = d.len() as int;
    lemma_find_char_is(s, '.', k);
    assert(s.take(k) =~= d);
    assert(s.skip(k + 1) =~= rest);
}

/// A number is a version of one part.
proof fn lemma_last_part(n: nat)
    ensures
        split_char(decimal(n), '.') == seq![decimal(n)],
{
    lemma_decimal(n);
    let d = decimal(n);
    lemma_find_char(d, '.');
    if let Some(i) = find_char(d, '.') {
        assert(is_digit(d[i]));
    }
}

/// Three numbers with dots between them are a version.
proof fn lemma_three_parts(major: u32, minor: u32, patch: u32)
    ensures
        version_tuple(
            decimal(major as nat) + "."@ + (decimal(minor as nat) + "."@ + decimal(patch as nat)),
        ) == Some((major, minor, patch)),
{
    let (a, b, c) = (decimal(major as nat), decimal(minor as nat), decimal(patch as nat));
    let tail = b + "."@ + c;
    lemma_first_part(major as nat, tail);
    lemma_first_part(minor as nat, c);
    lemma_last_part(patch as nat);
    let parts = split_char(a + "."@ + tail, '.');
    assert(parts =~= seq![a, b, c]);
    assert(parts[0] == a && parts[1] == b && parts[2] == c);
    law_decimal_reads_back(major as nat, u32::MAX as nat);
    law_decimal_reads_back(minor as nat, u32::MAX as nat);
    law_decimal_reads_back(patch as nat, u32::MAX as nat);
}

/// A text without digits is no version.
proof fn lemma_unknown()
    ensures
        version_tuple("unknown"@) is None,
{
    reveal_strlit("unknown");
    let s = "unknown"@;
    lemma_find_char(s, '.');
    assert(split_char(s, '.') =~= seq![s]);
    assert(!is_digit(s[0]));
}

/// The version of the compiler reads back from its text: an unknown one writes no version.
pub proof fn law_version_reads_back(gcc: GccInfo)
    ensures
        version_tuple(gcc.shown_version()) == gcc.system_version,
{
    match gcc.system_version {
        Some((major, minor, patch)) => {
            lemma_three_parts(major, minor, patch);
            assert(gcc.shown_version() =~= decimal(major as nat) + "."@ + (decimal(minor as nat)
                + "."@ + decimal(patch as nat)));
        },
        None => {
            lemma_unknown();
        },
    }
}

/// What a package requires of the compiler reads back from its text.
pub proof fn law_requirement_reads_back(gcc: GccInfo, name: Seq<char>)
    requires
        gcc.requirements@.contains_key(name),
    ensures
        gcc.shown_requirement(name) is Some,
        major_minor(gcc.shown_requirement(name)->0) == Some(gcc.requirements@[name]),
{
    let (major, minor) = gcc.requirements@[name];
    let (a, b) = (major as nat, minor as nat);
    lemma_first_part(a, decimal(b));
    lemma_last_part(b);
    let parts = split_char(gcc.shown_requirement(name)->0, '.');
    assert(parts =~= seq![decimal(a), decimal(b)]);
    law_decimal_reads_back(a, u32::MAX as nat);
    law_decimal_reads_back(b, u32::MAX as nat);
}

/// A package is blocked exactly where it asks for a compiler and the one of this system is known to
/// be older: in its first number, or at the same first number in its second.
pub proof fn law_blocked_by_older_compiler(gcc: GccInfo, name: Seq<char>)
    ensures
        gcc.system_version is None || !gcc.requirements@.contains_key(name) ==> !gcc.blocks(name),
        gcc.system_version is Some && gcc.requirements@.contains_key(name) ==> {
            let (major, minor, _) = gcc.system_version->0;
            let (asked, asked_minor) = gcc.requirements@[name];
            gcc.blocks(name) <==> major < asked || (major == asked && minor < asked_minor)
        },
{
}

/// What a table of requirements asks for: each version that it writes as two numbers, for the
/// package that it names; a later entry of a package counts in place of those before, and an entry
/// that is no text asks for nothing.
pub proof fn law_requirements_are_read(
    entries: Seq<(Seq<char>, Option<Seq<char>>)>,
    name: Seq<char>,
    major: u32,
    minor: u32,
)
    ensures
        required_by(
            entries.push((name, Some(decimal(major as nat) + "."@ + decimal(minor as nat)))),
        ) == required_by(entries).insert(name, (major, minor)),
        required_by(entries.push((name, Some(decimal(major as nat))))) == required_by(
            entries,
        ).insert(name, (major, 0)),
        required_by(entries.push((name, None))) == required_by(entries),
        required_by(Seq::<(Seq<char>, Option<Seq<char>>)>::empty()) == Map::<
            Seq<char>,
            (u32, u32),
        >::empty(),
{
    let (a, b) = (major as nat, minor as nat);
    let two = decimal(a) + "."@ + decimal(b);
    lemma_first_part(a, decimal(b));
    lemma_last_part(a);
    lemma_last_part(b);
    let parts = split_char(two, '.');
    assert(parts =~= seq![decimal(a), decimal(b)]);
    law_decimal_reads_back(a, u32::MAX as nat);
    law_decimal_reads_back(b, u32::MAX as nat);
    assert(parts[0] == decimal(a) && parts[1] == decimal(b));
    assert(major_minor(two) == Some((major, minor)));
    let one = split_char(decimal(a), '.');
    assert(one =~= seq![decimal(a)]);
    assert(one[0] == decimal(a));
    assert(major_minor(decimal(a)) == Some((major, 0u32)));
    assert(entries.push((name, Some(two))).drop_last() =~= entries);
    assert(entries.push((name, Some(decimal(a)))).drop_last() =~= entries);
    assert(entries.push((name, None)).drop_last() =~= entries);
}

/// The version that a compiler prints on a line is its version; one that prints nothing has none.
pub proof fn law_printed_version_is_read(major: u32, minor: u32, patch: u32)
    ensures
        printed_version(
            Some(
                decimal(major as nat) + "."@ + (decimal(minor as nat) + "."@ + decimal(
                    patch as nat,
                )) + "\n"@,
            ),
        ) == Some((major, minor, patch)),
        printed_version(None) is None,
{
    reveal_strlit(".");
    reveal_strlit("\n");
    let (a, b, c) = (decimal(major as nat), decimal(minor as nat), decimal(patch as nat));
    let tail = b + "."@ + c;
    let s = a + "."@ + tail;
    lemma_decimal(major as nat);
    lemma_decimal(patch as nat);
    assert(is_digit(a[0]) && is_digit(c[c.len() - 1]));
    assert(s[0] == a[0] && s.last() == c[c.len() - 1]);
    assert(s + "\n"@ =~= s.push('\n'));
    lemma_trim_push_white(s, '\n');
    lemma_trim_indented(Seq::<char>::empty(), s);
    assert(Seq::<char>::empty() + s =~= s);
    lemma_three_parts(major, minor, patch);
}

/// Requirements come from the table of that name alone.
pub proof fn law_requirements_are_a_table(
    entries: Seq<(Seq<char>, SettingModel)>,
    table: Seq<(Seq<char>, Option<Seq<char>>)>,
)
    ensures
        setting_at(entries, "requirements"@) == Some(SettingModel::Table(table))
            ==> requirements_in(Some(entries)) == required_by(table),
        setting_at(entries, "requirements"@) is None ==> requirements_in(Some(entries)) == Map::<
            Seq<char>,
            (u32, u32),
        >::empty(),
        requirements_in(None) == Map::<Seq<char>, (u32, u32)>::empty(),
{
}

} // verus!
