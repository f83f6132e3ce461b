//! Settings files: tables in TOML.

use vstd::prelude::*;

use crate::text::{same_text, text_opt};

verus! {

broadcast use vstd::seq_lib::group_seq_properties;

/// A value of a settings file, as far as it is read here: a text, or a table of texts. In a table,
/// values that are no texts have none.
#[derive(Debug)]
pub enum Setting {
    Text(String),
    Table(Vec<(String, Option<String>)>),
    Other,
}

/// What a `Setting` holds.
pub enum SettingModel {
    Text(Seq<char>),
    Table(Seq<(Seq<char>, Option<Seq<char>>)>),
    Other,
}

/// The texts of the entries of a table.
pub open spec fn table_texts(v: Seq<(String, Option<String>)>) -> Seq<
    (Seq<char>, Option<Seq<char>>),
> {
    Seq::new(v.len(), |i: int| (v[i].0@, text_opt(v[i].1)))
}

impl View for Setting {
    type V = SettingModel;

    open spec fn view(&self) -> SettingModel {
        match self {
            Setting::Text(s) => SettingModel::Text(s@),
            Setting::Table(t) => SettingModel::Table(table_texts(t@)),
            Setting::Other => SettingModel::Other,
        }
    }
}

/// What the entries of a settings file hold.
pub open spec fn setting_models(v: Seq<(String, Setting)>) -> Seq<(Seq<char>, SettingModel)> {
    Seq::new(v.len(), |i: int| (v[i].0@, v[i].1@))
}

/// What the entries of a settings file hold, nothing where it could not be read.
pub open spec fn settings_opt(o: Option<Vec<(String, Setting)>>) -> Option<
    Seq<(Seq<char>, SettingModel)>,
> {
    match o {
        Some(v) => Some(setting_models(v@)),
        None => None,
    }
}

/// The entries of the table that `toml` reads in a text, nothing where the text is no TOML.
pub uninterp spec fn toml_settings(content: Seq<char>) -> Option<Seq<(Seq<char>, SettingModel)>>;

/// `<toml::Table as FromStr>::from_str`, its table taken apart: texts and tables are kept, as are
/// the texts in a table, and every other value only by its key. What it reads only has a name.
#[verifier::external_body]
pub(crate) fn read_toml(content: &str) -> (r: Option<Vec<(String, Setting)>>)
    ensures
        settings_opt(r) == toml_settings(content@),
{
    let table: toml::Table = content.parse().ok()?;
    let mut out = Vec::new();
    for (key, value) in table {
        out.push((key, match value {
            toml::Value::String(s) => Setting::Text(s),
            toml::Value::Table(t) => Setting::Table(
                t.into_iter().map(|(k, v)| (k, v.as_str().map(str::to_owned))).collect(),
            ),
            _ => Setting::Other,
        }));
    }
    Some(out)
}

/// The first value at `key`.
pub open spec fn setting_at(
    entries: Seq<(Seq<char>, SettingModel)>,
    key: Seq<char>,
) -> Option<SettingModel>
    decreases entries.len(),
{
    if entries.len() == 0 {
        None
    } else if entries[0].0 == key {
        Some(entries[0].1)
    } else {
        setting_at(entries.drop_first(), key)
    }
}

/// The value at `key`.
pub fn find_setting<'a>(entries: &'a Vec<(String, Setting)>, key: &str) -> (r: Option<&'a Setting>)
    ensures
        match r {
            Some(s) => setting_at(setting_models(entries@), key@) == Some(s@),
            None => setting_at(setting_models(entries@), key@) is None,
        },
{
    let ghost all = setting_models(entries@);
    let mut i: usize = 0;
    assert(all.skip(0) =~= all);
    while i < entries.len()
        invariant
            i <= entries@.len(),
            all == setting_models(entries@),
            setting_at(all, key@) == setting_at(all.skip(i as int), key@),
        decreases entries@.len() - i,
    {
        assert(all.skip(i as int)[0] == all[i as int]);
        assert(all.skip(i as int).drop_first() =~= all.skip(i + 1));
        if same_text(entries[i].0.as_str(), key) {
            return Some(&entries[i].1);
        }
        i += 1;
    }
    None
}

} // verus!
