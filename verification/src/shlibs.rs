//! Shared libraries: the names registered for packages, and those installed.

use vstd::prelude::*;

use crate::line::{
    is_ended, is_word, lemma_lines, lemma_relined, lemma_word, line_texts, reline, relined, reread,
};
use crate::table::TextMap;
use crate::text::{
    begins, cat3, chars_of, contains_text, ends_with, find_char, find_text, finishes, has_text,
    index_of, index_of_text, is_white, last_index_of, lemma_find_char_is, lemma_find_text,
    lemma_find_text_behind, lemma_has_text_before, lemma_rfind_char, lemma_texts_push,
    lemma_trim_end_len, lemma_words_trimmed, lines, lines_of, mentions, rfind_char, runs, same_text,
    starts_with, text_of, texts, trim, trim_end, trim_start, trim_start_text, trimmed,
    trimmed_start_text, words, words_of,
};

verus! {

broadcast use vstd::seq_lib::group_seq_properties;

/// A shared library registered for a package.
#[derive(Debug)]
pub struct ShlibEntry {
    pub soname: String,
    pub pkg_ver: String,
}

/// A registered shared library that is not installed under its registered name.
#[derive(Debug)]
pub struct SonameMismatch {
    pub registered: String,
    pub installed: String,
}

/// What a `ShlibEntry` holds.
pub struct ShlibModel {
    pub soname: Seq<char>,
    pub pkg_ver: Seq<char>,
}

/// What a `SonameMismatch` holds.
pub struct MismatchModel {
    pub registered: Seq<char>,
    pub installed: Seq<char>,
}

impl View for ShlibEntry {
    type V = ShlibModel;

    open spec fn view(&self) -> ShlibModel {
        ShlibModel { soname: self.soname@, pkg_ver: self.pkg_ver@ }
    }
}

impl View for SonameMismatch {
    type V = MismatchModel;

    open spec fn view(&self) -> MismatchModel {
        MismatchModel { registered: self.registered@, installed: self.installed@ }
    }
}

pub open spec fn shlib_models(v: Seq<ShlibEntry>) -> Seq<ShlibModel> {
    Seq::new(v.len(), |i: int| v[i]@)
}

pub open spec fn mismatch_models(v: Seq<SonameMismatch>) -> Seq<MismatchModel> {
    Seq::new(v.len(), |i: int| v[i]@)
}

// ---------------------------------------------------------------------------------------------
// The register
// ---------------------------------------------------------------------------------------------

/// What a line of the register says: a package, and a shared library of it. Its first word is the
/// library, its second the package with its version behind the last `-`. Empty lines, comments
/// and lines that lack one of these say nothing.
pub open spec fn shlib_line(line: Seq<char>) -> Option<(Seq<char>, ShlibModel)> {
    let t = trim(line);
    let w = words(t);
    if t.len() == 0 || t[0] == '#' || w.len() < 2 {
        None
    } else {
        match rfind_char(w[1], '-') {
            Some(i) => Some((w[1].take(i), ShlibModel { soname: w[0], pkg_ver: w[1] })),
            None => None,
        }
    }
}

/// The shared libraries that the lines `ls` register for the package `name`, in order.
pub open spec fn registered(ls: Seq<Seq<char>>, name: Seq<char>) -> Seq<ShlibModel>
    decreases ls.len(),
{
    if ls.len() == 0 {
        Seq::empty()
    } else {
        let before = registered(ls.drop_last(), name);
        match shlib_line(ls.last()) {
            Some((n, e)) => if n == name {
                before.push(e)
            } else {
                before
            },
            None => before,
        }
    }
}

/// What a line of the register says.
fn register_line(line: &[char]) -> (r: Option<(String, ShlibEntry)>)
    ensures
        match r {
            Some((name, e)) => shlib_line(line@) == Some((name@, e@)),
            None => shlib_line(line@) is None,
        },
{
    let t = trimmed(line);
    if t.len() == 0 || t[0] == '#' {
        return None;
    }
    let w = words_of(t);
    if w.len() < 2 {
        return None;
    }
    assert(runs(w@)[0] == w@[0]@);
    assert(runs(w@)[1] == w@[1]@);
    match last_index_of(w[1], '-') {
        Some(i) => {
            let head = vstd::slice::slice_subrange(w[1], 0, i);
            assert(head@ =~= w@[1]@.take(i as int));
            let name = text_of(head);
            let soname = text_of(w[0]);
            let pkg_ver = text_of(w[1]);
            Some((name, ShlibEntry { soname, pkg_ver }))
        },
        None => None,
    }
}

/// The register of shared libraries, by package.
pub fn parse_shlibs(content: &str) -> (r: TextMap<Vec<ShlibEntry>>)
    ensures
        r.wf(),
        forall|name: Seq<char>|
            #[trigger] r@.contains_key(name) <==> registered(lines(content@), name).len() > 0,
        forall|name: Seq<char>|
            r@.contains_key(name) ==> shlib_models((#[trigger] r@[name])@) == registered(
                lines(content@),
                name,
            ),
{
    let text = chars_of(content);
    let all = lines_of(text.as_slice());
    let ghost ls = lines(content@);
    let mut map: TextMap<Vec<ShlibEntry>> = TextMap::new();
    let mut i: usize = 0;
    while i < all.len()
        invariant
            i <= all@.len(),
            runs(all@) == ls,
            map.wf(),
            forall|name: Seq<char>|
                #[trigger] map@.contains_key(name) <==> registered(ls.take(i as int), name).len()
                    > 0,
            forall|name: Seq<char>|
                map@.contains_key(name) ==> shlib_models((#[trigger] map@[name])@) == registered(
                    ls.take(i as int),
                    name,
                ),
        decreases all@.len() - i,
    {
        proof {
            assert(runs(all@)[i as int] == all@[i as int]@);
            assert(ls.take(i + 1).drop_last() =~= ls.take(i as int));
            assert(ls.take(i + 1).last() == ls[i as int]);
        }
        let ghost before = map@;
        match register_line(all[i]) {
            Some((name, entry)) => {
                let ghost key = name@;
                let ghost value = entry@;
                map.push_at(name, entry);
                proof {
                    assert forall|n: Seq<char>| map@.contains_key(n) implies shlib_models(
                        (#[trigger] map@[n])@,
                    ) == registered(ls.take(i + 1), n) by {
                        if n == key {
                            if before.contains_key(n) {
                                assert(shlib_models(before[n]@) == registered(
                                    ls.take(i as int),
                                    n,
                                ));
                                assert(shlib_models(map@[n]@) =~= shlib_models(before[n]@).push(
                                    value,
                                ));
                            } else {
                                assert(registered(ls.take(i as int), n) =~= Seq::empty());
                                assert(shlib_models(map@[n]@) =~= seq![value]);
                                assert(registered(ls.take(i + 1), n) =~= seq![value]);
                            }
                        } else {
                            assert(before.contains_key(n));
                        }
                    }
                }
            },
            None => {},
        }
        i += 1;
    }
    assert(ls.take(i as int) =~= ls);
    map
}

// ---------------------------------------------------------------------------------------------
// What is installed
// ---------------------------------------------------------------------------------------------

/// The path that a line of a package's file list names.
pub open spec fn listed_path(line: Seq<char>) -> Seq<char> {
    trim_start_text(trim(line), " - "@)
}

/// Whether a line of a package's file list names a shared library.
pub open spec fn is_library(line: Seq<char>) -> bool {
    let path = listed_path(line);
    has_text(line, ".so"@) && (has_text(path, ".so."@) || ends_with(path, ".so"@))
}

/// The paths of the shared libraries that the lines of a file list name.
pub open spec fn library_paths(ls: Seq<Seq<char>>) -> Seq<Seq<char>>
    decreases ls.len(),
{
    if ls.len() == 0 {
        Seq::empty()
    } else {
        let before = library_paths(ls.drop_last());
        if is_library(ls.last()) {
            before.push(listed_path(ls.last()))
        } else {
            before
        }
    }
}

/// The paths of the shared libraries in the file list of a package.
pub fn shared_libraries(file_list: &str) -> (r: Vec<String>)
    ensures
        texts(r@) == library_paths(lines(file_list@)),
{
    let text = chars_of(file_list);
    let all = lines_of(text.as_slice());
    let ghost ls = lines(file_list@);
    let mut out: Vec<String> = Vec::new();
    let mut i: usize = 0;
    while i < all.len()
        invariant
            i <= all@.len(),
            runs(all@) == ls,
            texts(out@) == library_paths(ls.take(i as int)),
        decreases all@.len() - i,
    {
        proof {
            assert(runs(all@)[i as int] == all@[i as int]@);
            assert(ls.take(i + 1).drop_last() =~= ls.take(i as int));
            assert(ls.take(i + 1).last() == ls[i as int]);
        }
        let line = all[i];
        let path = trimmed_start_text(trimmed(line), " - ");
        if mentions(line, ".so") && (mentions(path, ".so.") || finishes(path, ".so")) {
            let p = text_of(path);
            proof {
                lemma_texts_push(out@, p);
            }
            out.push(p);
        }
        i += 1;
    }
    assert(ls.take(i as int) =~= ls);
    out
}

/// The name of a shared library in a line of what its dynamic section holds: the text between the
/// first `[` and the first `]` of a line about the SONAME. A line with these brackets the other
/// way round names none.
pub open spec fn soname_line(line: Seq<char>) -> Option<Seq<char>> {
    if has_text(line, "(SONAME)"@) {
        match (find_char(line, '['), find_char(line, ']')) {
            (Some(a), Some(b)) => if a < b {
                Some(line.subrange(a + 1, b))
            } else {
                None
            },
            _ => None,
        }
    } else {
        None
    }
}

/// `known` and the names in the lines `ls`, each name once.
pub open spec fn sonames_after(known: Seq<Seq<char>>, ls: Seq<Seq<char>>) -> Seq<Seq<char>>
    decreases ls.len(),
{
    if ls.len() == 0 {
        known
    } else {
        let before = sonames_after(known, ls.drop_last());
        match soname_line(ls.last()) {
            Some(n) => if before.contains(n) {
                before
            } else {
                before.push(n)
            },
            None => before,
        }
    }
}

/// The names in the dynamic sections of some files, each name once, in the order in which they
/// are first met.
pub open spec fn installed_sonames(sections: Seq<Seq<char>>) -> Seq<Seq<char>>
    decreases sections.len(),
{
    if sections.len() == 0 {
        Seq::empty()
    } else {
        sonames_after(installed_sonames(sections.drop_last()), lines(sections.last()))
    }
}

/// The name of a shared library in a line of what its dynamic section holds.
fn section_line(line: &[char]) -> (r: Option<String>)
    ensures
        match r {
            Some(s) => soname_line(line@) == Some(s@),
            None => soname_line(line@) is None,
        },
{
    if !mentions(line, "(SONAME)") {
        return None;
    }
    match (index_of(line, '['), index_of(line, ']')) {
        (Some(a), Some(b)) => if a < b {
            let name = vstd::slice::slice_subrange(line, a + 1, b);
            Some(text_of(name))
        } else {
            None
        },
        _ => None,
    }
}

/// Adds the names in one dynamic section to `known`.
fn add_sonames(known: &mut Vec<String>, section: &str)
    ensures
        texts(final(known)@) == sonames_after(texts(old(known)@), lines(section@)),
{
    let text = chars_of(section);
    let all = lines_of(text.as_slice());
    let ghost ls = lines(section@);
    let ghost start = texts(known@);
    let mut i: usize = 0;
    while i < all.len()
        invariant
            i <= all@.len(),
            runs(all@) == ls,
            texts(known@) == sonames_after(start, ls.take(i as int)),
        decreases all@.len() - i,
    {
        proof {
            assert(runs(all@)[i as int] == all@[i as int]@);
            assert(ls.take(i + 1).drop_last() =~= ls.take(i as int));
            assert(ls.take(i + 1).last() == ls[i as int]);
        }
        match section_line(all[i]) {
            Some(name) => {
                if !contains_text(known, name.as_str()) {
                    proof {
                        lemma_texts_push(known@, name);
                    }
                    known.push(name);
                }
            },
            None => {},
        }
        i += 1;
    }
    assert(ls.take(i as int) =~= ls);
}

/// The names of the shared libraries of a package, out of the dynamic sections of its files.
pub fn get_installed_sonames(sections: &Vec<String>) -> (r: Vec<String>)
    ensures
        texts(r@) == installed_sonames(texts(sections@)),
{
    let ghost all = texts(sections@);
    let mut out: Vec<String> = Vec::new();
    let mut i: usize = 0;
    assert(texts(out@) =~= Seq::empty());
    while i < sections.len()
        invariant
            i <= sections@.len(),
            all == texts(sections@),
            texts(out@) == installed_sonames(all.take(i as int)),
        decreases sections@.len() - i,
    {
        proof {
            assert(all.take(i + 1).drop_last() =~= all.take(i as int));
            assert(all.take(i + 1).last() == all[i as int]);
        }
        add_sonames(&mut out, sections[i].as_str());
        i += 1;
    }
    assert(all.take(i as int) =~= all);
    out
}

// ---------------------------------------------------------------------------------------------
// The register against what is installed
// ---------------------------------------------------------------------------------------------

/// A shared library's name without its version: `libfoo.so` of `libfoo.so.4`.
pub open spec fn base_of(soname: Seq<char>) -> Seq<char> {
    match find_text(soname, ".so."@) {
        Some(i) => soname.take(i + 3),
        None => soname,
    }
}

/// The first of `installed` with the same base as `name`, or `not found`.
pub open spec fn closest(installed: Seq<Seq<char>>, name: Seq<char>) -> Seq<char>
    decreases installed.len(),
{
    if installed.len() == 0 {
        "not found"@
    } else if base_of(installed[0]) == base_of(name) {
        installed[0]
    } else {
        closest(installed.drop_first(), name)
    }
}

/// The registered libraries that are not installed, each with the installed one of the same base.
pub open spec fn mismatches(
    entries: Seq<ShlibModel>,
    installed: Seq<Seq<char>>,
) -> Seq<MismatchModel>
    decreases entries.len(),
{
    if entries.len() == 0 {
        Seq::empty()
    } else {
        let before = mismatches(entries.drop_last(), installed);
        let name = entries.last().soname;
        if installed.contains(name) {
            before
        } else {
            before.push(MismatchModel { registered: name, installed: closest(installed, name) })
        }
    }
}

/// A shared library's name without its version.
fn soname_base(soname: &str) -> (r: String)
    ensures
        r@ == base_of(soname@),
{
    let c = chars_of(soname);
    let n: usize = c.len();
    let dot = chars_of(".so.");
    proof {
        reveal_strlit(".so.");
    }
    match index_of_text(c.as_slice(), dot.as_slice()) {
        Some(i) => {
            let head = vstd::slice::slice_subrange(c.as_slice(), 0, i + 3);
            assert(head@ =~= c@.take(i + 3));
            text_of(head)
        },
        None => text_of(c.as_slice()),
    }
}

/// The first of `installed` with the same base as `name`, or `not found`.
fn find_closest(installed: &Vec<String>, name: &str) -> (r: String)
    ensures
        r@ == closest(texts(installed@), name@),
{
    let base = soname_base(name);
    let ghost all = texts(installed@);
    let mut i: usize = 0;
    assert(all.skip(0) =~= all);
    while i < installed.len()
        invariant
            i <= installed@.len(),
            all == texts(installed@),
            base@ == base_of(name@),
            closest(all, name@) == closest(all.skip(i as int), name@),
        decreases installed@.len() - i,
    {
        assert(all.skip(i as int)[0] == all[i as int]);
        assert(all.skip(i as int).drop_first() =~= all.skip(i + 1));
        let b = soname_base(installed[i].as_str());
        if same_text(b.as_str(), base.as_str()) {
            return installed[i].clone();
        }
        i += 1;
    }
    "not found".to_owned()
}

/// The registered libraries that are not installed, each with the installed one of the same base.
pub fn check_soname_mismatches(
    shlibs: &Vec<ShlibEntry>,
    installed: &Vec<String>,
) -> (r: Vec<SonameMismatch>)
    ensures
        mismatch_models(r@) == mismatches(shlib_models(shlibs@), texts(installed@)),
{
    let ghost all = shlib_models(shlibs@);
    let ghost inst = texts(installed@);
    let mut out: Vec<SonameMismatch> = Vec::new();
    let mut i: usize = 0;
    assert(mismatch_models(out@) =~= Seq::empty());
    while i < shlibs.len()
        invariant
            i <= shlibs@.len(),
            all == shlib_models(shlibs@),
            inst == texts(installed@),
            mismatch_models(out@) == mismatches(all.take(i as int), inst),
        decreases shlibs@.len() - i,
    {
        proof {
            assert(all.take(i + 1).drop_last() =~= all.take(i as int));
            assert(all.take(i + 1).last() == all[i as int]);
        }
        let name = &shlibs[i].soname;
        if !contains_text(installed, name.as_str()) {
            let other = find_closest(installed, name.as_str());
            let m = SonameMismatch { registered: name.clone(), installed: other };
            let ghost before = out@;
            out.push(m);
            assert(mismatch_models(out@) =~= mismatch_models(before).push(m@));
        }
        i += 1;
    }
    assert(all.take(i as int) =~= all);
    out
}

/// Nothing is reported exactly where every registered library is installed.
pub proof fn law_no_mismatch_means_installed(
    entries: Seq<ShlibModel>,
    installed: Seq<Seq<char>>,
)
    ensures
        mismatches(entries, installed).len() == 0 <==> (forall|i: int|
            0 <= i < entries.len() ==> installed.contains((#[trigger] entries[i]).soname)),
    decreases entries.len(),
{
    if entries.len() > 0 {
        let front = entries.drop_last();
        law_no_mismatch_means_installed(front, installed);
        if mismatches(entries, installed).len() == 0 {
            assert forall|i: int| 0 <= i < entries.len() implies installed.contains(
                (#[trigger] entries[i]).soname,
            ) by {
                if i < front.len() {
                    assert(front[i] == entries[i]);
                }
            }
        }
        if forall|i: int|
            0 <= i < entries.len() ==> installed.contains((#[trigger] entries[i]).soname) {
            assert forall|i: int| 0 <= i < front.len() implies installed.contains(
                (#[trigger] front[i]).soname,
            ) by {
                assert(front[i] == entries[i]);
            }
            assert(installed.contains(entries[entries.len() - 1].soname));
        }
    }
}

// ---------------------------------------------------------------------------------------------
// Updating the register
// ---------------------------------------------------------------------------------------------

/// A change of the register: a library, the one in its place, and the package with its version.
pub struct UpdateModel {
    pub old_soname: Seq<char>,
    pub new_soname: Seq<char>,
    pub new_pkg_ver: Seq<char>,
}

pub open spec fn updates_of(v: Seq<(String, String, String)>) -> Seq<UpdateModel> {
    Seq::new(
        v.len(),
        |i: int|
            UpdateModel { old_soname: v[i].0@, new_soname: v[i].1@, new_pkg_ver: v[i].2@ },
    )
}

/// Whether a line registers the library `soname`: it stands first in the line, with a space or a
/// tab behind it.
pub open spec fn is_line_of(line: Seq<char>, soname: Seq<char>) -> bool {
    let t = trim(line);
    &&& starts_with(t, soname)
    &&& t.len() > soname.len()
    &&& (t[soname.len() as int] == ' ' || t[soname.len() as int] == '\t')
}

/// A line of the register after one change.
pub open spec fn updated_line(line: Seq<char>, u: UpdateModel) -> Seq<char> {
    if u.new_soname != "not found"@ && is_line_of(line, u.old_soname) {
        u.new_soname + " "@ + u.new_pkg_ver
    } else {
        line
    }
}

/// A line of the register after some changes, one after the other.
pub open spec fn after_updates(line: Seq<char>, us: Seq<UpdateModel>) -> Seq<char>
    decreases us.len(),
{
    if us.len() == 0 {
        line
    } else {
        updated_line(after_updates(line, us.drop_last()), us.last())
    }
}

pub open spec fn lines_after_updates(
    ls: Seq<Seq<char>>,
    us: Seq<UpdateModel>,
) -> Seq<Seq<char>> {
    Seq::new(ls.len(), |i: int| after_updates(ls[i], us))
}

/// A line of the register after some changes.
fn update_line(line: &str, updates: &Vec<(String, String, String)>) -> (r: String)
    ensures
        r@ == after_updates(line@, updates_of(updates@)),
{
    let ghost us = updates_of(updates@);
    let mut cur: String = line.to_owned();
    let mut i: usize = 0;
    while i < updates.len()
        invariant
            i <= updates@.len(),
            us == updates_of(updates@),
            cur@ == after_updates(line@, us.take(i as int)),
        decreases updates@.len() - i,
    {
        proof {
            assert(us.take(i + 1).drop_last() =~= us.take(i as int));
            assert(us.take(i + 1).last() == us[i as int]);
        }
        let old_soname = &updates[i].0;
        let new_soname = &updates[i].1;
        let c = chars_of(cur.as_str());
        let t = trimmed(c.as_slice());
        let o = chars_of(old_soname.as_str());
        let n: usize = o.len();
        if !same_text(new_soname.as_str(), "not found") && begins(t, old_soname.as_str())
            && t.len() > n && (t[n] == ' ' || t[n] == '\t') {
            cur = cat3(new_soname.as_str(), " ", updates[i].2.as_str());
        }
        i += 1;
    }
    assert(us.take(i as int) =~= us);
    cur
}

/// The register after some changes. A library in whose place none was found is left as it is.
pub fn update_shlibs_file(content: &str, updates: &Vec<(String, String, String)>) -> (r: String)
    ensures
        r@ == relined(content@, lines_after_updates(lines(content@), updates_of(updates@))),
{
    let all = line_texts(content);
    let ghost ls = lines(content@);
    let ghost us = updates_of(updates@);
    let ghost goal = lines_after_updates(ls, us);
    let mut out: Vec<String> = Vec::new();
    let mut i: usize = 0;
    assert(texts(out@) =~= goal.take(0));
    while i < all.len()
        invariant
            i <= all@.len(),
            texts(all@) == ls,
            us == updates_of(updates@),
            goal == lines_after_updates(ls, us),
            texts(out@) == goal.take(i as int),
        decreases all@.len() - i,
    {
        assert(texts(all@)[i as int] == all@[i as int]@);
        let s = update_line(all[i].as_str(), updates);
        proof {
            lemma_texts_push(out@, s);
        }
        out.push(s);
        i += 1;
        assert(goal.take(i as int) =~= goal.take(i - 1).push(s@));
    }
    assert(goal.take(i as int) =~= goal);
    reline(content, &out)
}

proof fn lemma_two_words(a: Seq<char>, b: Seq<char>)
    requires
        is_word(a),
        is_word(b),
    ensures
        words(a + " "@ + b) == seq![a, b],
        trim(a + " "@ + b) == a + " "@ + b,
{
    reveal_strlit(" ");
    let gap = " "@;
    let none = Seq::<char>::empty();
    let t = a + gap + b;
    assert(t =~= a + (gap + b));
    lemma_word(a, gap + b);
    assert((gap + b).drop_first() =~= b);
    assert(b + none =~= b);
    lemma_word(b, none);
    assert(trim_start(gap + b) == trim_start(b));
    lemma_words_trimmed(gap + b);
    assert(words(none) =~= Seq::<Seq<char>>::empty());
    assert(words(t) =~= seq![a, b]);
    assert(t.last() == b[b.len() - 1]);
    assert(trim_end(t) == t);
}

/// A line that a change touches registers what the change says.
pub proof fn law_update_registers(line: Seq<char>, u: UpdateModel)
    requires
        is_line_of(line, u.old_soname),
        u.new_soname != "not found"@,
        is_word(u.new_soname),
        u.new_soname[0] != '#',
        is_word(u.new_pkg_ver),
        u.new_pkg_ver.contains('-'),
    ensures
        shlib_line(updated_line(line, u)) == Some(
            (
                u.new_pkg_ver.take(rfind_char(u.new_pkg_ver, '-')->0),
                ShlibModel { soname: u.new_soname, pkg_ver: u.new_pkg_ver },
            ),
        ),
{
    lemma_two_words(u.new_soname, u.new_pkg_ver);
    lemma_rfind_char(u.new_pkg_ver, '-');
    let t = u.new_soname + " "@ + u.new_pkg_ver;
    assert(t[0] == u.new_soname[0]);
    let w = words(t);
    assert(w[0] == u.new_soname);
    assert(w[1] == u.new_pkg_ver);
}

/// A change leaves every line alone that does not register its library.
pub proof fn law_update_leaves_others(line: Seq<char>, u: UpdateModel)
    requires
        !is_line_of(line, u.old_soname),
    ensures
        updated_line(line, u) == line,
{
}

/// A changed line holds no line end, and is not empty where the line was not.
proof fn lemma_after_updates(line: Seq<char>, us: Seq<UpdateModel>)
    requires
        !line.contains('\n'),
        forall|i: int|
            0 <= i < us.len() ==> !(#[trigger] us[i]).new_soname.contains('\n')
                && !us[i].new_pkg_ver.contains('\n'),
    ensures
        !after_updates(line, us).contains('\n'),
        line.len() > 0 ==> after_updates(line, us).len() > 0,
    decreases us.len(),
{
    if us.len() > 0 {
        let front = us.drop_last();
        assert forall|i: int| 0 <= i < front.len() implies !(
        #[trigger] front[i]).new_soname.contains('\n') && !front[i].new_pkg_ver.contains('\n') by {
            assert(front[i] == us[i]);
        }
        lemma_after_updates(line, front);
        let u = us[us.len() - 1];
        assert(!u.new_soname.contains('\n') && !u.new_pkg_ver.contains('\n'));
        reveal_strlit(" ");
        let t = u.new_soname + " "@ + u.new_pkg_ver;
        if t.contains('\n') {
            let j = choose|j: int| 0 <= j < t.len() && t[j] == '\n';
            if j < u.new_soname.len() {
                assert(u.new_soname.contains(u.new_soname[j]));
            } else if j > u.new_soname.len() {
                let k = j - u.new_soname.len() - 1;
                assert(u.new_pkg_ver.contains(u.new_pkg_ver[k]));
            }
        }
    }
}

/// Changing the register keeps its lines: there are as many as before, and each reads back as the
/// line that it was, changed. The new names hold no line ends.
pub proof fn law_update_keeps_lines(content: Seq<char>, us: Seq<UpdateModel>)
    requires
        forall|i: int|
            0 <= i < us.len() ==> !(#[trigger] us[i]).new_soname.contains('\n')
                && !us[i].new_pkg_ver.contains('\n'),
    ensures
        lines(relined(content, lines_after_updates(lines(content), us))) == reread(
            lines_after_updates(lines(content), us),
            is_ended(content),
        ),
{
    let ls = lines(content);
    let out = lines_after_updates(ls, us);
    lemma_lines(content);
    assert forall|i: int| 0 <= i < out.len() implies !(#[trigger] out[i]).contains('\n') by {
        assert(!ls[i].contains('\n'));
        lemma_after_updates(ls[i], us);
    }
    if out.len() > 0 {
        assert(!ls[ls.len() - 1].contains('\n'));
        lemma_after_updates(ls.last(), us);
    }
    lemma_relined(content, out);
}

/// What a line registers is among what the lines register.
proof fn lemma_registered(ls: Seq<Seq<char>>, k: int, name: Seq<char>, e: ShlibModel)
    requires
        0 <= k < ls.len(),
        shlib_line(ls[k]) == Some((name, e)),
    ensures
        registered(ls, name).contains(e),
    decreases ls.len(),
{
    let before = registered(ls.drop_last(), name);
    let all = registered(ls, name);
    if k < ls.len() - 1 {
        assert(ls.drop_last()[k] == ls[k]);
        lemma_registered(ls.drop_last(), k, name, e);
        let i = choose|i: int| 0 <= i < before.len() && before[i] == e;
        assert(all[i] == e);
    } else {
        assert(all[all.len() - 1] == e);
    }
}

/// A change of the register reads back: where a line registers the library that the change is for,
/// the library in its place is then registered for the package that the change names.
pub proof fn law_update_reads_back(content: Seq<char>, u: UpdateModel, i: int)
    requires
        0 <= i < lines(content).len(),
        is_line_of(lines(content)[i], u.old_soname),
        u.new_soname != "not found"@,
        is_word(u.new_soname),
        u.new_soname[0] != '#',
        is_word(u.new_pkg_ver),
        u.new_pkg_ver.contains('-'),
    ensures
        registered(
            lines(relined(content, lines_after_updates(lines(content), seq![u]))),
            u.new_pkg_ver.take(rfind_char(u.new_pkg_ver, '-')->0),
        ).contains(ShlibModel { soname: u.new_soname, pkg_ver: u.new_pkg_ver }),
{
    let us = seq![u];
    let ls = lines(content);
    let new = updated_line(ls[i], u);
    assert(us.drop_last() =~= Seq::<UpdateModel>::empty());
    assert(us.last() == u);
    assert(after_updates(ls[i], us.drop_last()) == ls[i]);
    assert(after_updates(ls[i], us) == new);
    assert forall|k: int| 0 <= k < us.len() implies !(#[trigger] us[k]).new_soname.contains('\n')
        && !us[k].new_pkg_ver.contains('\n') by {
        assert(us[k] == u);
        if u.new_soname.contains('\n') {
            let j = choose|j: int| 0 <= j < u.new_soname.len() && u.new_soname[j] == '\n';
            assert(!is_white(u.new_soname[j]));
        }
        if u.new_pkg_ver.contains('\n') {
            let j = choose|j: int| 0 <= j < u.new_pkg_ver.len() && u.new_pkg_ver[j] == '\n';
            assert(!is_white(u.new_pkg_ver[j]));
        }
    }
    law_update_keeps_lines(content, us);
    law_update_registers(ls[i], u);
    let out = lines(relined(content, lines_after_updates(ls, us)));
    assert(new.last() == u.new_pkg_ver[u.new_pkg_ver.len() - 1]);
    assert(out[i] == new);
    lemma_registered(
        out,
        i,
        u.new_pkg_ver.take(rfind_char(u.new_pkg_ver, '-')->0),
        ShlibModel { soname: u.new_soname, pkg_ver: u.new_pkg_ver },
    );
}

/// Whether changes can be made in any order: their libraries are words, each of them is changed
/// once, and none is put in the place of another.
pub open spec fn are_independent(us: Seq<UpdateModel>) -> bool {
    &&& forall|j: int|
        0 <= j < us.len() ==> is_word((#[trigger] us[j]).old_soname) && is_word(us[j].new_pkg_ver)
            && (us[j].new_soname == "not found"@ || is_word(us[j].new_soname))
    &&& forall|i: int, j: int|
        0 <= i < j < us.len() ==> (#[trigger] us[i]).old_soname != (#[trigger] us[j]).old_soname
    &&& forall|i: int, j: int|
        0 <= i < us.len() && 0 <= j < us.len() ==> (#[trigger] us[i]).new_soname != (
        #[trigger] us[j]).old_soname
}

/// A line registers one library.
proof fn lemma_one_library(line: Seq<char>, a: Seq<char>, b: Seq<char>)
    requires
        is_line_of(line, a),
        is_line_of(line, b),
        is_word(a),
        is_word(b),
    ensures
        a == b,
{
    let t = trim(line);
    let na = a.len() as int;
    let nb = b.len() as int;
    if na < nb {
        assert(t.take(nb)[na] == b[na]);
    } else if nb < na {
        assert(t.take(na)[nb] == a[nb]);
    }
}

/// A new line of the register is one of its own library alone.
proof fn lemma_new_line(name: Seq<char>, ver: Seq<char>, other: Seq<char>)
    requires
        is_word(name),
        is_word(other),
        is_line_of(name + " "@ + ver, other),
    ensures
        other == name,
{
    reveal_strlit(" ");
    let s = name + " "@ + ver;
    let t = trim(s);
    assert(s[0] == name[0]);
    assert(trim_start(s) == s);
    lemma_trim_end_len(s);
    let n = name.len() as int;
    let m = other.len() as int;
    assert(t[m] == s[m]);
    assert(t.take(m) =~= s.take(m));
    if m < n {
        assert(s[m] == name[m]);
    } else if m > n {
        assert(s.take(m)[n] == ' ');
        assert(other[n] == ' ');
    } else {
        assert(s.take(n) =~= name);
    }
}

/// Lines that register none of the libraries that are changed stay as they are, and so do those of
/// libraries in whose place none was found.
pub proof fn law_updates_leave_others(line: Seq<char>, us: Seq<UpdateModel>)
    requires
        forall|j: int|
            0 <= j < us.len() && is_line_of(line, (#[trigger] us[j]).old_soname)
                ==> us[j].new_soname == "not found"@,
    ensures
        after_updates(line, us) == line,
    decreases us.len(),
{
    if us.len() > 0 {
        let front = us.drop_last();
        assert forall|j: int|
            0 <= j < front.len() && is_line_of(
                line,
                (#[trigger] front[j]).old_soname,
            ) implies front[j].new_soname == "not found"@ by {
            assert(front[j] == us[j]);
        }
        law_updates_leave_others(line, front);
        assert(us.last() == us[us.len() - 1]);
    }
}

/// Every change is written, whichever place it has among the changes: a line that registers its
/// library becomes the library in its place, a blank and the package with its version.
pub proof fn law_every_update_is_written(line: Seq<char>, us: Seq<UpdateModel>, k: int)
    requires
        are_independent(us),
        0 <= k < us.len(),
        is_line_of(line, us[k].old_soname),
        us[k].new_soname != "not found"@,
    ensures
        after_updates(line, us) == us[k].new_soname + " "@ + us[k].new_pkg_ver,
    decreases us.len(),
{
    let front = us.drop_last();
    let last = us.len() - 1;
    assert(us.last() == us[last]);
    assert forall|j: int| 0 <= j < front.len() implies #[trigger] front[j] == us[j] by {}
    if k == last {
        assert forall|j: int|
            0 <= j < front.len() && is_line_of(
                line,
                (#[trigger] front[j]).old_soname,
            ) implies front[j].new_soname == "not found"@ by {
            assert(is_word(us[j].old_soname) && is_word(us[k].old_soname));
            lemma_one_library(line, us[j].old_soname, us[k].old_soname);
            assert(us[j].old_soname != us[k].old_soname);
        }
        law_updates_leave_others(line, front);
    } else {
        assert(are_independent(front));
        law_every_update_is_written(line, front, k);
        assert(front[k] == us[k]);
        assert(is_word(us[k].old_soname) && is_word(us[last].old_soname));
        let new = us[k].new_soname + " "@ + us[k].new_pkg_ver;
        if is_line_of(new, us[last].old_soname) {
            lemma_new_line(us[k].new_soname, us[k].new_pkg_ver, us[last].old_soname);
            assert(us[k].new_soname != us[last].old_soname);
        }
    }
}

/// Changes of the register read back, any number of them: where a line at `i` registers the library
/// of the change at `k`, the same line of the new register is the library in its place, a blank and
/// the package with its version; and it is then registered for the package.
pub proof fn law_updates_read_back(content: Seq<char>, us: Seq<UpdateModel>, k: int, i: int)
    requires
        are_independent(us),
        0 <= k < us.len(),
        0 <= i < lines(content).len(),
        is_line_of(lines(content)[i], us[k].old_soname),
        us[k].new_soname != "not found"@,
    ensures
        ({
            let out = lines(relined(content, lines_after_updates(lines(content), us)));
            let ver = us[k].new_pkg_ver;
            &&& out.len() == lines(content).len()
            &&& out[i] == us[k].new_soname + " "@ + ver
            &&& us[k].new_soname[0] != '#' && ver.contains('-') ==> registered(
                out,
                ver.take(rfind_char(ver, '-')->0),
            ).contains(ShlibModel { soname: us[k].new_soname, pkg_ver: ver })
        }),
{
    let ls = lines(content);
    let new = us[k].new_soname + " "@ + us[k].new_pkg_ver;
    reveal_strlit("not found");
    assert forall|j: int| 0 <= j < us.len() implies !(#[trigger] us[j]).new_soname.contains('\n')
        && !us[j].new_pkg_ver.contains('\n') by {
        let u = us[j];
        if u.new_soname.contains('\n') {
            let x = choose|x: int| 0 <= x < u.new_soname.len() && u.new_soname[x] == '\n';
            assert(!(u.new_soname == "not found"@));
            assert(!is_white(u.new_soname[x]));
        }
        if u.new_pkg_ver.contains('\n') {
            let x = choose|x: int| 0 <= x < u.new_pkg_ver.len() && u.new_pkg_ver[x] == '\n';
            assert(!is_white(u.new_pkg_ver[x]));
        }
    }
    law_update_keeps_lines(content, us);
    law_every_update_is_written(ls[i], us, k);
    let out = lines(relined(content, lines_after_updates(ls, us)));
    assert(is_word(us[k].new_pkg_ver));
    assert(new.last() == us[k].new_pkg_ver[us[k].new_pkg_ver.len() - 1]);
    assert(!is_white(new.last()));
    assert(out[i] == new);
    if us[k].new_soname[0] != '#' && us[k].new_pkg_ver.contains('-') {
        law_update_registers(ls[i], us[k]);
        assert(updated_line(ls[i], us[k]) == new);
        lemma_registered(
            out,
            i,
            us[k].new_pkg_ver.take(rfind_char(us[k].new_pkg_ver, '-')->0),
            ShlibModel { soname: us[k].new_soname, pkg_ver: us[k].new_pkg_ver },
        );
    }
}

/// A line of the register that is made of a library, a blank or a tab and a package registers the
/// library for the package, and no other library.
pub proof fn law_line_registers_its_library(
    soname: Seq<char>,
    gap: char,
    pkg_ver: Seq<char>,
    other: Seq<char>,
)
    requires
        is_word(soname),
        gap == ' ' || gap == '\t',
        is_word(pkg_ver),
        is_word(other),
    ensures
        is_line_of(soname.push(gap) + pkg_ver, other) <==> other == soname,
        soname[0] != '#' && pkg_ver.contains('-') ==> shlib_line(soname.push(gap) + pkg_ver)
            == Some(
            (
                pkg_ver.take(rfind_char(pkg_ver, '-')->0),
                ShlibModel { soname, pkg_ver },
            ),
        ),
        soname[0] == '#' || !pkg_ver.contains('-') ==> shlib_line(soname.push(gap) + pkg_ver)
            is None,
{
    let t = soname.push(gap) + pkg_ver;
    let none = Seq::<char>::empty();
    let tail = seq![gap] + pkg_ver;
    assert(t =~= soname + tail);
    lemma_word(soname, tail);
    assert(tail.drop_first() =~= pkg_ver);
    assert(pkg_ver + none =~= pkg_ver);
    lemma_word(pkg_ver, none);
    assert(trim_start(tail) == trim_start(pkg_ver));
    lemma_words_trimmed(tail);
    assert(words(none) =~= Seq::<Seq<char>>::empty());
    assert(words(t) =~= seq![soname, pkg_ver]);
    assert(t.last() == pkg_ver[pkg_ver.len() - 1]);
    assert(trim_end(t) == t);
    assert(trim(t) == t);
    assert(t.take(soname.len() as int) =~= soname);
    assert(t[soname.len() as int] == gap);
    assert(is_line_of(t, soname));
    if is_line_of(t, other) {
        lemma_one_library(t, other, soname);
    }
    assert(t[0] == soname[0]);
    lemma_rfind_char(pkg_ver, '-');
    let w = words(t);
    assert(w[0] == soname && w[1] == pkg_ver);
}

/// What is registered for a package is each line that registers something for it, in order, and
/// nothing else.
pub proof fn law_register_is_read(ls: Seq<Seq<char>>, line: Seq<char>, name: Seq<char>)
    ensures
        shlib_line(line) is Some && (shlib_line(line)->0).0 == name ==> registered(
            ls.push(line),
            name,
        ) == registered(ls, name).push((shlib_line(line)->0).1),
        shlib_line(line) is None || (shlib_line(line)->0).0 != name ==> registered(
            ls.push(line),
            name,
        ) == registered(ls, name),
        registered(Seq::<Seq<char>>::empty(), name).len() == 0,
{
    assert(ls.push(line).drop_last() =~= ls);
}

/// A registered library is reported exactly where it is not installed, with what is installed in its
/// place.
pub proof fn law_mismatch_is_reported(
    entries: Seq<ShlibModel>,
    e: ShlibModel,
    installed: Seq<Seq<char>>,
)
    ensures
        !installed.contains(e.soname) ==> mismatches(entries.push(e), installed) == mismatches(
            entries,
            installed,
        ).push(MismatchModel { registered: e.soname, installed: closest(installed, e.soname) }),
        installed.contains(e.soname) ==> mismatches(entries.push(e), installed) == mismatches(
            entries,
            installed,
        ),
        mismatches(Seq::<ShlibModel>::empty(), installed).len() == 0,
{
    assert(entries.push(e).drop_last() =~= entries);
}

/// What is installed in place of a library is the first one that differs from it only in the
/// version behind `.so.`, and `not found` where there is none.
pub proof fn law_closest_has_same_base(installed: Seq<Seq<char>>, name: Seq<char>, i: int)
    requires
        0 <= i <= installed.len(),
        forall|j: int| 0 <= j < i ==> base_of(#[trigger] installed[j]) != base_of(name),
    ensures
        i < installed.len() && base_of(installed[i]) == base_of(name) ==> closest(installed, name)
            == installed[i],
        i == installed.len() ==> closest(installed, name) == "not found"@,
    decreases i,
{
    if i > 0 {
        let rest = installed.drop_first();
        assert(base_of(installed[0]) != base_of(name));
        assert forall|j: int| 0 <= j < i - 1 implies base_of(#[trigger] rest[j]) != base_of(
            name,
        ) by {
            assert(rest[j] == installed[j + 1]);
        }
        law_closest_has_same_base(rest, name, i - 1);
        if i < installed.len() {
            assert(rest[i - 1] == installed[i]);
        }
    }
}

/// Two versions of one library have the same base, and no other library has it.
pub proof fn law_base_leaves_out_version(
    a: Seq<char>,
    b: Seq<char>,
    v: Seq<char>,
    w: Seq<char>,
)
    requires
        !a.contains('.'),
        !b.contains('.'),
    ensures
        base_of(a + ".so."@ + v) == a + ".so"@,
        base_of(a + ".so."@ + v) == base_of(b + ".so."@ + w) <==> a == b,
        base_of(a) == a,
{
    lemma_base_of(a, v);
    lemma_base_of(b, w);
    reveal_strlit(".so");
    reveal_strlit(".so.");
    if a + ".so"@ == b + ".so"@ {
        assert((a + ".so"@).take(a.len() as int) =~= a);
        assert((b + ".so"@).take(b.len() as int) =~= b);
        assert((a + ".so"@).len() == (b + ".so"@).len());
    }
    lemma_find_text(a, ".so."@);
    if let Some(i) = find_text(a, ".so."@) {
        assert(a.subrange(i, i + 4)[0] == a[i]);
        assert(a.contains(a[i]));
    }
}

proof fn lemma_base_of(a: Seq<char>, v: Seq<char>)
    requires
        !a.contains('.'),
    ensures
        base_of(a + ".so."@ + v) == a + ".so"@,
{
    reveal_strlit(".so");
    reveal_strlit(".so.");
    let s = a + ".so."@ + v;
    let n = a.len() as int;
    assert(".so."@[0] == '.');
    lemma_find_text_behind(a, ".so."@, v);
    assert(s.take(n + 3) =~= a + ".so"@);
}

/// The name in brackets on a line.
proof fn lemma_soname_line(a: Seq<char>, name: Seq<char>, b: Seq<char>)
    requires
        !a.contains('['),
        !a.contains(']'),
        !name.contains(']'),
        has_text(a, "(SONAME)"@),
    ensures
        soname_line(a + "["@ + name + "]"@ + b) == Some(name),
{
    reveal_strlit("[");
    reveal_strlit("]");
    let line = a + "["@ + name + "]"@ + b;
    let n = a.len() as int;
    let m = n + 1 + name.len();
    assert(line =~= a + ("["@ + name + "]"@ + b));
    lemma_has_text_before(a, "["@ + name + "]"@ + b, "(SONAME)"@);
    assert(line[n] == '[');
    assert forall|j: int| 0 <= j < n implies line[j] != '[' && line[j] != ']' by {
        assert(line[j] == a[j]);
        assert(a.contains(a[j]));
    }
    lemma_find_char_is(line, '[', n);
    assert(line[m] == ']');
    assert forall|j: int| 0 <= j < m implies line[j] != ']' by {
        if j > n {
            assert(line[j] == name[j - n - 1]);
            assert(name.contains(name[j - n - 1]));
        }
    }
    lemma_find_char_is(line, ']', m);
    assert(line.subrange(n + 1, m) =~= name);
}

/// The name of an installed library is what stands in brackets on the line about it, and other lines
/// name none; every name is known once, in the order in which it is first met.
pub proof fn law_soname_is_read(
    known: Seq<Seq<char>>,
    ls: Seq<Seq<char>>,
    a: Seq<char>,
    name: Seq<char>,
    b: Seq<char>,
    other: Seq<char>,
)
    requires
        !a.contains('['),
        !a.contains(']'),
        !name.contains(']'),
        has_text(a, "(SONAME)"@),
        !has_text(other, "(SONAME)"@),
    ensures
        soname_line(a + "["@ + name + "]"@ + b) == Some(name),
        soname_line(other) is None,
        ({
            let before = sonames_after(known, ls);
            let after = sonames_after(known, ls.push(a + "["@ + name + "]"@ + b));
            &&& before.contains(name) ==> after == before
            &&& !before.contains(name) ==> after == before.push(name)
        }),
        sonames_after(known, ls.push(other)) == sonames_after(known, ls),
        sonames_after(known, Seq::<Seq<char>>::empty()) == known,
{
    let line = a + "["@ + name + "]"@ + b;
    lemma_soname_line(a, name, b);
    assert(ls.push(line).drop_last() =~= ls);
    assert(ls.push(other).drop_last() =~= ls);
}

/// The names of all files of a package are read, one file after the other.
pub proof fn law_all_files_are_read(sections: Seq<Seq<char>>, section: Seq<char>)
    ensures
        installed_sonames(sections.push(section)) == sonames_after(
            installed_sonames(sections),
            lines(section),
        ),
        installed_sonames(Seq::<Seq<char>>::empty()).len() == 0,
{
    assert(sections.push(section).drop_last() =~= sections);
}

} // verus!
