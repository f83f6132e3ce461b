//! The packages of a checkout: which there are, what is built of them and what is installed.

use vstd::prelude::*;
use vstd::slice::slice_subrange;

use crate::bump::lemma_trim_push_white;
use crate::line::is_word;
use crate::order::{
    comes_before, law_precedes_irreflexive, law_precedes_total, law_precedes_transitive, precedes,
    sort_texts, sorted, sorted_set, strictly_sorted,
};
use crate::package::{
    models, parse_template, status_of, template_package, Package, PackageModel, PackageState,
    StateModel,
};
use crate::text::{
    cat, chars_are, chars_of, contains_text, copy_opt, decimal, drop_suffix, ends_with, find_char,
    finishes, has_prefix, is_digit, is_white, last_index_of, law_decimal_reads_back, lemma_decimal,
    lemma_find_char, lemma_find_char_is, lemma_rfind_char, lemma_texts_push, lemma_with_text, lines, lines_of, number_up_to,
    parse_number, push_new, rfind_char, runs, same_text, split_at_char, split_char, starts_with,
    text_of, text_opt, texts, trim, trim_start, trimmed, without_suffix,
};
use crate::version::{
    is_newer, law_newer_irreflexive, law_newer_ranks, law_newer_transitive, version_newer,
};

verus! {

broadcast use vstd::seq_lib::group_seq_properties;

// ---------------------------------------------------------------------------------------------
// Which packages there are
// ---------------------------------------------------------------------------------------------

/// The package that a path like `srcpkgs/hyprutils/template` is about.
pub open spec fn package_in(path: Seq<char>) -> Option<Seq<char>> {
    let parts = split_char(path, '/');
    if parts.len() >= 2 {
        Some(parts[1])
    } else {
        None
    }
}

/// Whether one of the paths `ls` is about the package `name`.
pub open spec fn is_touched(ls: Seq<Seq<char>>, name: Seq<char>) -> bool {
    exists|i: int| 0 <= i < ls.len() && package_in(#[trigger] ls[i]) == Some(name)
}

/// The packages that the paths in a list of changed files are about, sorted.
pub fn discover_custom_packages(log: &str) -> (r: Vec<String>)
    ensures
        strictly_sorted(texts(r@)),
        forall|n: Seq<char>| #[trigger] texts(r@).contains(n) <==> is_touched(lines(log@), n),
{
    let text = chars_of(log);
    let all = lines_of(text.as_slice());
    let ghost ls = lines(log@);
    let mut names: Vec<String> = Vec::new();
    let mut i: usize = 0;
    while i < all.len()
        invariant
            i <= all@.len(),
            runs(all@) == ls,
            texts(names@).no_duplicates(),
            forall|n: Seq<char>| #[trigger]
                texts(names@).contains(n) <==> is_touched(ls.take(i as int), n),
        decreases all@.len() - i,
    {
        let ghost before = texts(names@);
        let ghost found = package_in(ls[i as int]);
        assert(runs(all@)[i as int] == all@[i as int]@);
        let parts = split_at_char(all[i], '/');
        if parts.len() >= 2 {
            assert(runs(parts@)[1] == parts@[1]@);
            let name = text_of(parts[1]);
            proof {
                lemma_with_text(texts(names@), name@);
            }
            push_new(&mut names, name);
        }
        i += 1;
        proof {
            let front = ls.take(i - 1);
            let now = ls.take(i as int);
            assert(now =~= front.push(ls[i - 1]));
            assert forall|n: Seq<char>| #[trigger]
                texts(names@).contains(n) <==> is_touched(now, n) by {
                assert(before.contains(n) <==> is_touched(front, n));
                lemma_touched_push(front, ls[i - 1], n);
            }
        }
    }
    assert(ls.take(i as int) =~= ls);
    sorted_set(&names)
}

proof fn lemma_touched_push(ls: Seq<Seq<char>>, line: Seq<char>, name: Seq<char>)
    ensures
        is_touched(ls.push(line), name) <==> is_touched(ls, name) || package_in(line) == Some(name),
{
    let now = ls.push(line);
    assert(now[ls.len() as int] == line);
    if is_touched(ls, name) {
        let i = choose|i: int| 0 <= i < ls.len() && package_in(#[trigger] ls[i]) == Some(name);
        assert(now[i] == ls[i]);
    }
    if is_touched(now, name) {
        let i = choose|i: int| 0 <= i < now.len() && package_in(#[trigger] now[i]) == Some(name);
        if i < ls.len() {
            assert(ls[i] == now[i]);
        }
    }
}

/// The package that a line of a short status is about, where it is new in the checkout: not
/// tracked, or added and not committed. A line is two marks, a space and a path.
pub open spec fn new_in(line: Seq<char>) -> Option<Seq<char>> {
    let parts = split_char(trim(line.skip(3)), '/');
    if line.len() < 4 || (line.take(2) != "??"@ && line.take(2) != "A "@) {
        None
    } else if parts.len() < 2 || parts[0] != "srcpkgs"@ {
        None
    } else {
        Some(parts[1])
    }
}

/// Whether one of the lines `ls` of a short status has the package `name` as new.
pub open spec fn is_new(ls: Seq<Seq<char>>, name: Seq<char>) -> bool {
    exists|i: int| 0 <= i < ls.len() && new_in(#[trigger] ls[i]) == Some(name)
}

proof fn lemma_new_push(ls: Seq<Seq<char>>, line: Seq<char>, name: Seq<char>)
    ensures
        is_new(ls.push(line), name) <==> is_new(ls, name) || new_in(line) == Some(name),
{
    let now = ls.push(line);
    assert(now[ls.len() as int] == line);
    if is_new(ls, name) {
        let i = choose|i: int| 0 <= i < ls.len() && new_in(#[trigger] ls[i]) == Some(name);
        assert(now[i] == ls[i]);
    }
    if is_new(now, name) {
        let i = choose|i: int| 0 <= i < now.len() && new_in(#[trigger] now[i]) == Some(name);
        if i < ls.len() {
            assert(ls[i] == now[i]);
        }
    }
}

/// The package that a line of a short status has as new.
fn new_package(line: &[char]) -> (r: Option<String>)
    ensures
        text_opt(r) == new_in(line@),
{
    let n: usize = line.len();
    if n < 4 {
        return None;
    }
    let marks = slice_subrange(line, 0, 2);
    assert(marks@ =~= line@.take(2));
    if !chars_are(marks, "??") && !chars_are(marks, "A ") {
        return None;
    }
    let rest = slice_subrange(line, 3, n);
    assert(rest@ =~= line@.skip(3));
    let parts = split_at_char(trimmed(rest), '/');
    if parts.len() < 2 {
        return None;
    }
    assert(runs(parts@)[0] == parts@[0]@);
    assert(runs(parts@)[1] == parts@[1]@);
    if !chars_are(parts[0], "srcpkgs") {
        return None;
    }
    Some(text_of(parts[1]))
}

/// The packages that a short status has as new and that are not among the committed ones, sorted.
pub fn discover_uncommitted_packages(status: &str, committed: &Vec<String>) -> (r: Vec<String>)
    ensures
        strictly_sorted(texts(r@)),
        forall|n: Seq<char>| #[trigger]
            texts(r@).contains(n) <==> is_new(lines(status@), n) && !texts(committed@).contains(n),
{
    let text = chars_of(status);
    let all = lines_of(text.as_slice());
    let ghost ls = lines(status@);
    let ghost known = texts(committed@);
    let mut names: Vec<String> = Vec::new();
    let mut i: usize = 0;
    while i < all.len()
        invariant
            i <= all@.len(),
            runs(all@) == ls,
            known == texts(committed@),
            texts(names@).no_duplicates(),
            forall|n: Seq<char>| #[trigger]
                texts(names@).contains(n) <==> is_new(ls.take(i as int), n) && !known.contains(n),
        decreases all@.len() - i,
    {
        let ghost before = texts(names@);
        assert(runs(all@)[i as int] == all@[i as int]@);
        match new_package(all[i]) {
            Some(name) => {
                if !contains_text(committed, name.as_str()) {
                    proof {
                        lemma_with_text(texts(names@), name@);
                    }
                    push_new(&mut names, name);
                }
            },
            None => {},
        }
        i += 1;
        proof {
            let front = ls.take(i - 1);
            let now = ls.take(i as int);
            assert(now =~= front.push(ls[i - 1]));
            assert forall|n: Seq<char>| #[trigger]
                texts(names@).contains(n) <==> is_new(now, n) && !known.contains(n) by {
                assert(before.contains(n) <==> is_new(front, n) && !known.contains(n));
                lemma_new_push(front, ls[i - 1], n);
            }
        }
    }
    assert(ls.take(i as int) =~= ls);
    sorted_set(&names)
}

/// What is known of the directory of a package.
#[derive(Debug, Clone, Copy, PartialEq, Eq, Structural)]
pub struct PackageDir {
    pub is_symlink: bool,
    pub has_template: bool,
}

/// Whether a directory is that of a real package: a subpackage is a symbolic link, and what has no
/// template is no package.
pub open spec fn is_real(dir: PackageDir) -> bool {
    !dir.is_symlink && dir.has_template
}

/// Those of the names whose directories are real packages.
pub open spec fn real_names(names: Seq<Seq<char>>, dirs: Seq<PackageDir>) -> Seq<Seq<char>>
    decreases names.len(),
{
    if names.len() == 0 {
        Seq::empty()
    } else {
        let before = real_names(names.drop_last(), dirs);
        if is_real(dirs[names.len() - 1]) {
            before.push(names.last())
        } else {
            before
        }
    }
}

/// Those of the names whose directories are real packages.
pub fn real_packages(names: &Vec<String>, dirs: &Vec<PackageDir>) -> (r: Vec<String>)
    requires
        dirs@.len() == names@.len(),
    ensures
        texts(r@) == real_names(texts(names@), dirs@),
{
    let ghost all = texts(names@);
    let mut out: Vec<String> = Vec::new();
    let mut i: usize = 0;
    assert(texts(out@) =~= real_names(all.take(0), dirs@));
    while i < names.len()
        invariant
            i <= names@.len(),
            dirs@.len() == names@.len(),
            all == texts(names@),
            texts(out@) == real_names(all.take(i as int), dirs@),
        decreases names@.len() - i,
    {
        proof {
            assert(all.take(i + 1).drop_last() =~= all.take(i as int));
            assert(all.take(i + 1).last() == names@[i as int]@);
            lemma_texts_push(out@, names@[i as int]);
        }
        if !dirs[i].is_symlink && dirs[i].has_template {
            out.push(names[i].clone());
        }
        i += 1;
    }
    assert(all.take(i as int) =~= all);
    out
}

/// A name is a real package's if and only if it is one of the names and its directory has a
/// template and is no symbolic link; and the names stay in their order.
pub proof fn law_real_packages(names: Seq<Seq<char>>, dirs: Seq<PackageDir>)
    requires
        dirs.len() == names.len(),
        strictly_sorted(names),
    ensures
        strictly_sorted(real_names(names, dirs)),
        forall|i: int|
            0 <= i < names.len() ==> (real_names(names, dirs).contains(#[trigger] names[i]) <==> is_real(
                dirs[i],
            )),
        forall|n: Seq<char>| #[trigger] real_names(names, dirs).contains(n) ==> names.contains(n),
{
    lemma_real_names(names, dirs);
    let kept = real_names(names, dirs);
    assert forall|i: int| 0 <= i < names.len() implies (kept.contains(#[trigger] names[i]) <==> is_real(
        dirs[i],
    )) by {
        if kept.contains(names[i]) {
            let k = choose|k: int|
                0 <= k < names.len() && names[k] == names[i] && is_real(dirs[k]);
            if k != i {
                law_precedes_irreflexive(names[i]);
            }
        }
    }
}

/// What a name among the real ones says of its directory, whatever the order of the names.
proof fn lemma_real_names(names: Seq<Seq<char>>, dirs: Seq<PackageDir>)
    requires
        names.len() <= dirs.len(),
        strictly_sorted(names),
    ensures
        strictly_sorted(real_names(names, dirs)),
        forall|n: Seq<char>| #[trigger]
            real_names(names, dirs).contains(n) ==> exists|k: int|
                0 <= k < names.len() && names[k] == n && is_real(dirs[k]),
        forall|k: int|
            0 <= k < names.len() && is_real(dirs[k]) ==> real_names(
                names,
                dirs,
            ).contains(#[trigger] names[k]),
    decreases names.len(),
{
    if names.len() > 0 {
        let front = names.drop_last();
        let before = real_names(front, dirs);
        let last = names.len() - 1;
        lemma_real_names(front, dirs);
        let kept = real_names(names, dirs);
        assert forall|i: int, j: int| 0 <= i < j < kept.len() implies precedes(
            #[trigger] kept[i],
            #[trigger] kept[j],
        ) by {
            if j < before.len() {
                assert(kept[i] == before[i] && kept[j] == before[j]);
            } else {
                assert(before.contains(kept[i]));
                let k = choose|k: int|
                    0 <= k < front.len() && front[k] == kept[i] && is_real(dirs[k]);
                assert(names[k] == kept[i]);
            }
        }
        assert forall|n: Seq<char>| #[trigger] kept.contains(n) implies exists|k: int|
            0 <= k < names.len() && names[k] == n && is_real(dirs[k]) by {
            if before.contains(n) {
                let k = choose|k: int|
                    0 <= k < front.len() && front[k] == n && is_real(dirs[k]);
                assert(names[k] == n);
            } else {
                assert(names[last] == n);
            }
        }
        assert forall|k: int|
            0 <= k < names.len() && is_real(dirs[k]) implies
            kept.contains(#[trigger] names[k]) by {
            if k < last {
                assert(front[k] == names[k]);
                assert(before.contains(front[k]));
                let i = choose|i: int| 0 <= i < before.len() && before[i] == front[k];
                assert(kept[i] == names[k]);
            } else {
                assert(kept[kept.len() - 1] == names[k]);
            }
        }
    }
}

/// The names of all packages, committed and not, in order.
pub fn all_names(committed: &Vec<String>, uncommitted: &Vec<String>) -> (r: Vec<String>)
    ensures
        texts(r@) == sort_texts(texts(committed@) + texts(uncommitted@)),
{
    let mut all: Vec<String> = Vec::new();
    let ghost want = texts(committed@) + texts(uncommitted@);
    let mut i: usize = 0;
    while i < committed.len()
        invariant
            i <= committed@.len(),
            texts(all@) == texts(committed@).take(i as int),
        decreases committed@.len() - i,
    {
        proof {
            lemma_texts_push(all@, committed@[i as int]);
        }
        all.push(committed[i].clone());
        i += 1;
        assert(texts(committed@).take(i as int) =~= texts(committed@).take(i - 1).push(
            committed@[i - 1]@,
        ));
    }
    assert(texts(committed@).take(i as int) =~= texts(committed@));
    let mut j: usize = 0;
    assert(texts(all@) =~= texts(committed@) + texts(uncommitted@).take(0));
    while j < uncommitted.len()
        invariant
            j <= uncommitted@.len(),
            texts(all@) == texts(committed@) + texts(uncommitted@).take(j as int),
        decreases uncommitted@.len() - j,
    {
        proof {
            lemma_texts_push(all@, uncommitted@[j as int]);
        }
        all.push(uncommitted[j].clone());
        j += 1;
        assert(texts(all@) =~= texts(committed@) + texts(uncommitted@).take(j as int));
    }
    assert(texts(all@) =~= want);
    sorted(&all)
}

/// The packages that templates describe, in order. A template that could not be read describes
/// none.
pub open spec fn described(templates: Seq<Option<String>>) -> Seq<PackageModel>
    decreases templates.len(),
{
    if templates.len() == 0 {
        Seq::empty()
    } else {
        let before = described(templates.drop_last());
        match templates.last() {
            Some(content) => before.push(template_package(content@)),
            None => before,
        }
    }
}

/// The packages that templates describe, in order.
pub fn load_packages(templates: &Vec<Option<String>>) -> (r: Vec<Package>)
    ensures
        models(r@) == described(templates@),
{
    let mut out: Vec<Package> = Vec::new();
    let mut i: usize = 0;
    assert(models(out@) =~= described(templates@.take(0)));
    while i < templates.len()
        invariant
            i <= templates@.len(),
            models(out@) == described(templates@.take(i as int)),
        decreases templates@.len() - i,
    {
        proof {
            assert(templates@.take(i + 1).drop_last() =~= templates@.take(i as int));
            assert(templates@.take(i + 1).last() == templates@[i as int]);
        }
        match &templates[i] {
            Some(content) => {
                let ghost before = out@;
                let p = parse_template(content.as_str());
                out.push(p);
                assert(models(out@) =~= models(before).push(p@));
            },
            None => {},
        }
        i += 1;
    }
    assert(templates@.take(i as int) =~= templates@);
    out
}

// ---------------------------------------------------------------------------------------------
// What is installed and built
// ---------------------------------------------------------------------------------------------

/// What a query for an installed package says: nothing where it failed or printed nothing.
pub open spec fn installed_of(success: bool, stdout: Seq<char>) -> Option<Seq<char>> {
    if success && trim(stdout).len() > 0 {
        Some(trim(stdout))
    } else {
        None
    }
}

/// The installed "name-version_revision" of a package, out of a query for it.
pub fn query_installed(success: bool, stdout: &str) -> (r: Option<String>)
    ensures
        text_opt(r) == installed_of(success, stdout@),
{
    if !success {
        return None;
    }
    let c = chars_of(stdout);
    let t = trimmed(c.as_slice());
    if t.len() == 0 {
        None
    } else {
        Some(text_of(t))
    }
}

/// The "version_revision" of a built package of `name`, out of a file name like
/// `name-version_revision.arch.xbps`. A version starts with a digit: other files are of packages
/// whose names start with this one.
pub open spec fn built_version(file: Seq<char>, name: Seq<char>) -> Option<Seq<char>> {
    let prefix = name + "-"@;
    let rest = file.skip(prefix.len() as int);
    if !starts_with(file, prefix) || !ends_with(file, ".xbps"@) {
        None
    } else if rest.len() == 0 || !is_digit(rest[0]) {
        None
    } else {
        let body = without_suffix(rest, ".xbps"@);
        match rfind_char(body, '.') {
            Some(i) => if i > 0 {
                Some(body.take(i))
            } else {
                None
            },
            None => None,
        }
    }
}

/// The "version_revision" of a built package of `name`, out of a file name.
pub fn parse_built(file: &str, name: &str) -> (r: Option<String>)
    ensures
        text_opt(r) == built_version(file@, name@),
{
    let c = chars_of(file);
    let n: usize = c.len();
    let prefix_text = cat(name, "-");
    let prefix = chars_of(prefix_text.as_str());
    if !has_prefix(c.as_slice(), prefix.as_slice()) || !finishes(c.as_slice(), ".xbps") {
        return None;
    }
    let rest = slice_subrange(c.as_slice(), prefix.len(), n);
    assert(rest@ =~= c@.skip(prefix@.len() as int));
    if rest.len() == 0 || !(rest[0] >= '0' && rest[0] <= '9') {
        return None;
    }
    let body = drop_suffix(rest, ".xbps");
    match last_index_of(body, '.') {
        Some(i) => if i > 0 {
            let v = slice_subrange(body, 0, i);
            assert(v@ =~= body@.take(i as int));
            Some(text_of(v))
        } else {
            None
        },
        None => None,
    }
}

/// The version in a "version_revision".
pub open spec fn version_part(v: Seq<char>) -> Seq<char> {
    match rfind_char(v, '_') {
        Some(i) => v.take(i),
        None => v,
    }
}

/// The revision in a "version_revision", 0 where it names none.
pub open spec fn revision_part(v: Seq<char>) -> nat {
    match rfind_char(v, '_') {
        Some(i) => match parse_number(v.skip(i + 1), u64::MAX as nat) {
            Some(n) => n,
            None => 0,
        },
        None => 0,
    }
}

/// Whether the build `a` is to be had before the build `b`: it has a newer version, or one that
/// ranks alike and a higher revision. Builds that are alike in both are told apart by their text.
pub open spec fn is_later(a: Seq<char>, b: Seq<char>) -> bool {
    if is_newer(version_part(a), version_part(b)) {
        true
    } else if is_newer(version_part(b), version_part(a)) {
        false
    } else if revision_part(a) != revision_part(b) {
        revision_part(a) > revision_part(b)
    } else {
        precedes(b, a)
    }
}

/// No build is later than itself.
pub proof fn law_later_irreflexive(a: Seq<char>)
    ensures
        !is_later(a, a),
{
    law_newer_irreflexive(version_part(a));
    law_precedes_irreflexive(a);
}

/// A build that is later than one that is later than a third is later than the third.
pub proof fn law_later_transitive(a: Seq<char>, b: Seq<char>, c: Seq<char>)
    requires
        is_later(a, b),
        is_later(b, c),
    ensures
        is_later(a, c),
{
    let x = version_part(a);
    let y = version_part(b);
    let z = version_part(c);
    if is_newer(x, y) && is_newer(y, z) {
        law_newer_transitive(x, y, z);
    } else if is_newer(x, y) {
        law_newer_ranks(x, z, y);
    } else if is_newer(y, z) {
        law_newer_ranks(y, x, z);
    } else {
        if is_newer(x, z) {
        } else if is_newer(z, x) {
            law_newer_ranks(z, y, x);
        } else if revision_part(a) == revision_part(b) && revision_part(b) == revision_part(c) {
            law_precedes_transitive(c, b, a);
        }
    }
}

/// Of two builds that differ, one is later than the other.
pub proof fn law_later_total(a: Seq<char>, b: Seq<char>)
    requires
        a != b,
    ensures
        is_later(a, b) || is_later(b, a),
{
    law_precedes_total(a, b);
}

/// The version in a "version_revision" and its revision.
fn parts_of(v: &str) -> (r: (String, u64))
    ensures
        r.0@ == version_part(v@),
        r.1 == revision_part(v@),
{
    let c = chars_of(v);
    let n: usize = c.len();
    match last_index_of(c.as_slice(), '_') {
        Some(i) => {
            let head = slice_subrange(c.as_slice(), 0, i);
            let tail = slice_subrange(c.as_slice(), i + 1, n);
            assert(head@ =~= c@.take(i as int));
            assert(tail@ =~= c@.skip(i + 1));
            let rev: u64 = match number_up_to(tail, u64::MAX) {
                Some(x) => x,
                None => 0,
            };
            (text_of(head), rev)
        },
        None => (text_of(c.as_slice()), 0),
    }
}

/// Whether the build `a` is to be had before the build `b`.
pub fn later(a: &str, b: &str) -> (r: bool)
    ensures
        r == is_later(a@, b@),
{
    let (va, ra) = parts_of(a);
    let (vb, rb) = parts_of(b);
    if version_newer(va.as_str(), vb.as_str()) {
        true
    } else if version_newer(vb.as_str(), va.as_str()) {
        false
    } else if ra != rb {
        ra > rb
    } else {
        comes_before(b, a)
    }
}

/// Whether `v` is the "version_revision" of a build of `name` among `files`.
pub open spec fn is_built(files: Seq<Seq<char>>, name: Seq<char>, v: Seq<char>) -> bool {
    exists|i: int| 0 <= i < files.len() && built_version(#[trigger] files[i], name) == Some(v)
}

/// Whether `best` is the latest build of `name` among `files`, or nothing where there is none.
#[verifier::opaque]
pub open spec fn is_latest_build(
    files: Seq<Seq<char>>,
    name: Seq<char>,
    best: Option<Seq<char>>,
) -> bool {
    match best {
        Some(b) => is_built(files, name, b) && forall|v: Seq<char>|
            #[trigger] is_built(files, name, v) ==> !is_later(v, b),
        None => forall|v: Seq<char>| !#[trigger] is_built(files, name, v),
    }
}

/// The order in which the files are found does not decide which build is the latest.
pub proof fn law_latest_build_is_unique(
    files: Seq<Seq<char>>,
    others: Seq<Seq<char>>,
    name: Seq<char>,
    a: Option<Seq<char>>,
    b: Option<Seq<char>>,
)
    requires
        forall|f: Seq<char>| #[trigger] files.contains(f) <==> others.contains(f),
        is_latest_build(files, name, a),
        is_latest_build(others, name, b),
    ensures
        a == b,
{
    reveal(is_latest_build);
    assert forall|v: Seq<char>| is_built(files, name, v) <==> is_built(others, name, v) by {
        if is_built(files, name, v) {
            let i = choose|i: int|
                0 <= i < files.len() && built_version(#[trigger] files[i], name) == Some(v);
            assert(files.contains(files[i]));
            let j = choose|j: int| 0 <= j < others.len() && others[j] == files[i];
            assert(built_version(others[j], name) == Some(v));
        }
        if is_built(others, name, v) {
            let i = choose|i: int|
                0 <= i < others.len() && built_version(#[trigger] others[i], name) == Some(v);
            assert(others.contains(others[i]));
            assert(files.contains(others[i]));
            let j = choose|j: int| 0 <= j < files.len() && files[j] == others[i];
            assert(built_version(files[j], name) == Some(v));
        }
    }
    match (a, b) {
        (Some(x), Some(y)) => {
            assert(is_built(others, name, x));
            assert(is_built(files, name, y));
            if x != y {
                law_later_total(x, y);
            }
        },
        (Some(x), None) => {
            assert(is_built(others, name, x));
        },
        (None, Some(y)) => {
            assert(is_built(files, name, y));
        },
        (None, None) => {},
    }
}

/// The "version_revision" of the latest build of `name` among `files`.
pub fn find_built_xbps(files: &Vec<String>, name: &str) -> (r: Option<String>)
    ensures
        is_latest_build(texts(files@), name@, text_opt(r)),
{
    let ghost all = texts(files@);
    let mut best: Option<String> = None;
    let mut i: usize = 0;
    assert(is_latest_build(all.take(0), name@, None)) by {
        reveal(is_latest_build);
    }
    while i < files.len()
        invariant
            i <= files@.len(),
            all == texts(files@),
            is_latest_build(all.take(i as int), name@, text_opt(best)),
        decreases files@.len() - i,
    {
        let ghost front = all.take(i as int);
        let ghost was = text_opt(best);
        let found = parse_built(files[i].as_str(), name);
        match found {
            Some(v) => {
                let better = match &best {
                    Some(b) => later(v.as_str(), b.as_str()),
                    None => true,
                };
                if better {
                    best = Some(v);
                }
            },
            None => {},
        }
        i += 1;
        proof {
            assert(all.take(i as int) =~= front.push(all[i - 1]));
            lemma_latest_push(front, all[i - 1], name@, was);
        }
    }
    assert(all.take(i as int) =~= all);
    best
}

/// The latest build when one more file is found.
proof fn lemma_latest_push(
    files: Seq<Seq<char>>,
    file: Seq<char>,
    name: Seq<char>,
    was: Option<Seq<char>>,
)
    requires
        is_latest_build(files, name, was),
    ensures
        match built_version(file, name) {
            Some(v) => if was is None || is_later(v, was->0) {
                is_latest_build(files.push(file), name, Some(v))
            } else {
                is_latest_build(files.push(file), name, was)
            },
            None => is_latest_build(files.push(file), name, was),
        },
{
    reveal(is_latest_build);
    let now = files.push(file);
    assert(now[files.len() as int] == file);
    assert forall|v: Seq<char>| #[trigger]
        is_built(now, name, v) <==> is_built(files, name, v) || built_version(file, name) == Some(
            v,
        ) by {
        if is_built(files, name, v) {
            let i = choose|i: int|
                0 <= i < files.len() && built_version(#[trigger] files[i], name) == Some(v);
            assert(now[i] == files[i]);
        }
        if is_built(now, name, v) {
            let i = choose|i: int|
                0 <= i < now.len() && built_version(#[trigger] now[i], name) == Some(v);
            if i < files.len() {
                assert(files[i] == now[i]);
            }
        }
    }
    match built_version(file, name) {
        Some(v) => {
            law_later_irreflexive(v);
            if was is Some {
                if is_later(v, was->0) {
                    assert forall|u: Seq<char>| #[trigger] is_built(now, name, u) implies !is_later(
                        u,
                        v,
                    ) by {
                        if is_later(u, v) {
                            law_later_transitive(u, v, was->0);
                        }
                    }
                }
            }
        },
        None => {},
    }
}

/// Whether the file is a build of the package `name`, and not the latest one.
#[verifier::opaque]
pub open spec fn is_replaced(files: Seq<Seq<char>>, file: Seq<char>, name: Seq<char>) -> bool {
    &&& built_version(file, name) is Some
    &&& !is_latest_build(files, name, built_version(file, name))
}

/// Whether the file is a build of one of the packages `names`, and not the latest one.
pub open spec fn is_stale(
    files: Seq<Seq<char>>,
    file: Seq<char>,
    names: Seq<Seq<char>>,
) -> bool {
    exists|k: int| 0 <= k < names.len() && is_replaced(files, file, #[trigger] names[k])
}

/// Whether the file is a build of one of the packages `names`.
pub open spec fn is_build_of(file: Seq<char>, names: Seq<Seq<char>>) -> bool {
    exists|k: int| 0 <= k < names.len() && built_version(file, #[trigger] names[k]) is Some
}

/// Whether the file is a build of the package `name`, and not the latest one.
fn replaced_build(files: &Vec<String>, file: &str, name: &str) -> (r: bool)
    ensures
        r == is_replaced(texts(files@), file@, name@),
{
    reveal(is_replaced);
    match parse_built(file, name) {
        Some(v) => {
            let best = find_built_xbps(files, name);
            proof {
                if is_latest_build(texts(files@), name@, Some(v@)) {
                    law_latest_build_is_unique(
                        texts(files@),
                        texts(files@),
                        name@,
                        text_opt(best),
                        Some(v@),
                    );
                }
            }
            match &best {
                Some(b) => !same_text(b.as_str(), v.as_str()),
                None => true,
            }
        },
        None => false,
    }
}

/// Whether the file is a build of one of the packages `names`, and not the latest one.
fn stale(files: &Vec<String>, file: &str, names: &Vec<String>) -> (r: bool)
    ensures
        r == is_stale(texts(files@), file@, texts(names@)),
{
    let ghost all = texts(files@);
    let ghost ns = texts(names@);
    let mut k: usize = 0;
    while k < names.len()
        invariant
            k <= names@.len(),
            all == texts(files@),
            ns == texts(names@),
            forall|j: int| 0 <= j < k ==> !is_replaced(all, file@, #[trigger] ns[j]),
        decreases names@.len() - k,
    {
        assert(ns[k as int] == names@[k as int]@);
        if replaced_build(files, file, names[k].as_str()) {
            return true;
        }
        k += 1;
    }
    false
}

/// Which of the files are builds of the packages `names` that a later build has replaced.
pub fn clean_old_packages(files: &Vec<String>, names: &Vec<String>) -> (r: Vec<bool>)
    ensures
        r@.len() == files@.len(),
        forall|i: int|
            0 <= i < r@.len() ==> #[trigger] r@[i] == is_stale(
                texts(files@),
                texts(files@)[i],
                texts(names@),
            ),
{
    let mut out: Vec<bool> = Vec::new();
    let mut i: usize = 0;
    while i < files.len()
        invariant
            i <= files@.len(),
            out@.len() == i,
            forall|j: int|
                0 <= j < i ==> #[trigger] out@[j] == is_stale(
                    texts(files@),
                    texts(files@)[j],
                    texts(names@),
                ),
        decreases files@.len() - i,
    {
        out.push(stale(files, files[i].as_str(), names));
        i += 1;
    }
    out
}

/// Which of the files are builds of the packages `names`.
pub fn clean_all_packages(files: &Vec<String>, names: &Vec<String>) -> (r: Vec<bool>)
    ensures
        r@.len() == files@.len(),
        forall|i: int|
            0 <= i < r@.len() ==> #[trigger] r@[i] == is_build_of(
                texts(files@)[i],
                texts(names@),
            ),
{
    let ghost ns = texts(names@);
    let mut out: Vec<bool> = Vec::new();
    let mut i: usize = 0;
    while i < files.len()
        invariant
            i <= files@.len(),
            ns == texts(names@),
            out@.len() == i,
            forall|j: int|
                0 <= j < i ==> #[trigger] out@[j] == is_build_of(texts(files@)[j], ns),
        decreases files@.len() - i,
    {
        let mut found = false;
        let mut k: usize = 0;
        while k < names.len()
            invariant
                i < files@.len(),
                k <= names@.len(),
                ns == texts(names@),
                found == exists|j: int|
                    0 <= j < k && built_version(files@[i as int]@, #[trigger] ns[j]) is Some,
            decreases names@.len() - k,
        {
            assert(ns[k as int] == names@[k as int]@);
            if parse_built(files[i].as_str(), names[k].as_str()).is_some() {
                found = true;
            }
            k += 1;
        }
        out.push(found);
        i += 1;
    }
    out
}

/// Cleaning leaves the latest build of every package in place, where no file is taken for a build
/// of two packages.
pub proof fn law_clean_keeps_latest(
    files: Seq<Seq<char>>,
    i: int,
    names: Seq<Seq<char>>,
    name: Seq<char>,
)
    requires
        0 <= i < files.len(),
        is_latest_build(files, name, built_version(files[i], name)),
        built_version(files[i], name) is Some,
        forall|k: int|
            0 <= k < names.len() && built_version(files[i], #[trigger] names[k]) is Some ==> names[k]
                == name,
    ensures
        !is_stale(files, files[i], names),
{
    reveal(is_replaced);
}

/// What is known of a package when it is looked up.
pub open spec fn new_state(
    p: PackageModel,
    installed: Option<Seq<char>>,
    built: Option<Seq<char>>,
    uncommitted: bool,
) -> StateModel {
    StateModel {
        package: p,
        installed,
        built,
        latest: None,
        status: status_of(p, installed, built, None),
        uncommitted,
        shlibs: Seq::empty(),
        soname_mismatches: Seq::empty(),
        build_log: None,
    }
}

/// What is known of the packages when they are looked up: what is installed and what is built of
/// each, and whether it is not committed.
pub fn build_package_states(
    packages: &Vec<Package>,
    installed: &Vec<Option<String>>,
    built: &Vec<Option<String>>,
    uncommitted: &Vec<String>,
) -> (r: Vec<PackageState>)
    requires
        installed@.len() == packages@.len(),
        built@.len() == packages@.len(),
    ensures
        r@.len() == packages@.len(),
        forall|i: int|
            0 <= i < r@.len() ==> (#[trigger] r@[i])@ == new_state(
                packages@[i]@,
                text_opt(installed@[i]),
                text_opt(built@[i]),
                texts(uncommitted@).contains(packages@[i].name@),
            ),
{
    let mut out: Vec<PackageState> = Vec::new();
    let mut i: usize = 0;
    while i < packages.len()
        invariant
            i <= packages@.len(),
            installed@.len() == packages@.len(),
            built@.len() == packages@.len(),
            out@.len() == i,
            forall|j: int|
                0 <= j < i ==> (#[trigger] out@[j])@ == new_state(
                    packages@[j]@,
                    text_opt(installed@[j]),
                    text_opt(built@[j]),
                    texts(uncommitted@).contains(packages@[j].name@),
                ),
        decreases packages@.len() - i,
    {
        let package = packages[i].clone();
        let none: Option<String> = None;
        let status = PackageState::compute_status(&package, &installed[i], &built[i], &none);
        let is_uncommitted = contains_text(uncommitted, package.name.as_str());
        let state = PackageState {
            package,
            installed: copy_opt(&installed[i]),
            built: copy_opt(&built[i]),
            latest: None,
            status,
            uncommitted: is_uncommitted,
            shlibs: Vec::new(),
            soname_mismatches: Vec::new(),
            build_log: None,
        };
        proof {
            assert(state.package.name@ == packages@[i as int].name@);
            assert(state@.shlibs =~= Seq::empty());
            assert(state@.soname_mismatches =~= Seq::empty());
        }
        out.push(state);
        i += 1;
    }
    out
}

// ---------------------------------------------------------------------------------------------
// What names and files say
// ---------------------------------------------------------------------------------------------

/// The first two parts of a path.
proof fn lemma_two_parts(dir: Seq<char>, name: Seq<char>, rest: Seq<char>)
    requires
        !dir.contains('/'),
        !name.contains('/'),
        rest.len() > 0 ==> rest[0] == '/',
    ensures
        split_char(dir + "/"@ + name + rest, '/').len() >= 2,
        split_char(dir + "/"@ + name + rest, '/')[0] == dir,
        split_char(dir + "/"@ + name + rest, '/')[1] == name,
{
    reveal_strlit("/");
    let s = dir + "/"@ + name + rest;
    let n = dir.len() as int;
    assert(s[n] == '/');
    assert forall|j: int| 0 <= j < n implies s[j] != '/' by {
        assert(s[j] == dir[j]);
        assert(dir.contains(dir[j]));
    }
    lemma_find_char_is(s, '/', n);
    assert(s.take(n) =~= dir);
    let t = s.skip(n + 1);
    assert(t =~= name + rest);
    let m = name.len() as int;
    if rest.len() > 0 {
        assert(t[m] == '/');
        assert forall|j: int| 0 <= j < m implies t[j] != '/' by {
            assert(t[j] == name[j]);
            assert(name.contains(name[j]));
        }
        lemma_find_char_is(t, '/', m);
        assert(t.take(m) =~= name);
    } else {
        assert(t =~= name);
        lemma_find_char(t, '/');
        if let Some(j) = find_char(t, '/') {
            assert(name.contains(name[j]));
        }
    }
    assert(split_char(t, '/')[0] == name);
    assert(split_char(s, '/') == seq![dir] + split_char(t, '/'));
}

/// A changed file is about the package in whose directory it is, at any depth; a file that is in no
/// directory is about none.
pub proof fn law_path_names_package(dir: Seq<char>, name: Seq<char>, rest: Seq<char>)
    requires
        !dir.contains('/'),
        !name.contains('/'),
        rest.len() > 0 ==> rest[0] == '/',
    ensures
        package_in(dir + "/"@ + name + rest) == Some(name),
        package_in(dir) is None,
{
    lemma_two_parts(dir, name, rest);
    lemma_find_char(dir, '/');
    if let Some(j) = find_char(dir, '/') {
        assert(dir.contains(dir[j]));
    }
}

/// A line of a short status that is two marks, a space and a path below `srcpkgs` has the package
/// as new exactly where the marks say that it is not tracked, or added.
pub proof fn law_status_line_has_new_package(
    marks: Seq<char>,
    dir: Seq<char>,
    name: Seq<char>,
    rest: Seq<char>,
)
    requires
        marks.len() == 2,
        dir.len() > 0,
        !is_white(dir[0]),
        rest.len() > 0,
        rest[0] == '/',
        !is_white(rest.last()),
        !dir.contains('/'),
        !name.contains('/'),
    ensures
        new_in(marks + " "@ + (dir + "/"@ + name + rest)) == (if (marks == "??"@ || marks
            == "A "@) && dir == "srcpkgs"@ {
            Some(name)
        } else {
            None
        }),
{
    reveal_strlit(" ");
    reveal_strlit("/");
    let path = dir + "/"@ + name + rest;
    let line = marks + " "@ + path;
    assert(line.take(2) =~= marks);
    assert(line.skip(3) =~= path);
    lemma_two_parts(dir, name, rest);
    assert(path[0] == dir[0]);
    assert(path.last() == rest.last());
    assert(trim_start(path) == path);
    assert(trim(path) == path);
}

/// A name is that of a real package exactly where its directory has a template and is no symbolic
/// link.
pub proof fn law_real_package_has_template(
    names: Seq<Seq<char>>,
    dirs: Seq<PackageDir>,
    i: int,
)
    requires
        dirs.len() == names.len(),
        strictly_sorted(names),
        0 <= i < names.len(),
    ensures
        real_names(names, dirs).contains(names[i]) <==> dirs[i].has_template
            && !dirs[i].is_symlink,
{
    law_real_packages(names, dirs);
}

/// Every template that could be read describes one package, in order; the others describe none.
pub proof fn law_readable_templates_count(templates: Seq<Option<String>>, content: String)
    ensures
        described(templates.push(Some(content))) == described(templates).push(
            template_package(content@),
        ),
        described(templates.push(None)) == described(templates),
        described(Seq::<Option<String>>::empty()).len() == 0,
{
    assert(templates.push(Some(content)).drop_last() =~= templates);
    assert(templates.push(None).drop_last() =~= templates);
}

/// What is installed is what a query that succeeded prints, without the white space around it; a
/// query that failed or printed nothing else says that nothing is.
pub proof fn law_query_is_read(w: Seq<char>, pkgver: Seq<char>)
    requires
        is_word(pkgver),
        trim_start(w).len() == 0,
    ensures
        installed_of(true, pkgver + w) == Some(pkgver),
        installed_of(true, w) is None,
        installed_of(false, pkgver + w) is None,
{
    lemma_trim_behind(pkgver, w);
    assert(trim_start(pkgver) == pkgver);
    assert(pkgver.last() == pkgver[pkgver.len() - 1]);
    assert(trim(pkgver) == pkgver);
}

/// White space behind a text is trimmed.
proof fn lemma_trim_behind(s: Seq<char>, w: Seq<char>)
    requires
        trim_start(w).len() == 0,
    ensures
        trim(s + w) == trim(s),
    decreases w.len(),
{
    if w.len() > 0 {
        let less = w.drop_first();
        lemma_trim_behind(s.push(w[0]), less);
        assert(s.push(w[0]) + less =~= s + w);
        lemma_trim_push_white(s, w[0]);
    } else {
        assert(s + w =~= s);
    }
}

/// The file `name-version_revision.arch.xbps` is a build of `name`, at that version and revision; a
/// file of which no digit follows the name is no build of it, nor is one of another kind.
pub proof fn law_file_names_build(name: Seq<char>, v: Seq<char>, arch: Seq<char>)
    requires
        v.len() > 0,
        !arch.contains('.'),
    ensures
        is_digit(v[0]) ==> built_version(name + "-"@ + (v + "."@ + arch + ".xbps"@), name) == Some(
            v,
        ),
        !is_digit(v[0]) ==> built_version(
            name + "-"@ + (v + "."@ + arch + ".xbps"@),
            name,
        ) is None,
{
    let rest = v + "."@ + arch + ".xbps"@;
    lemma_file_parts(name + "-"@, rest, v + "."@ + arch);
    lemma_before_arch(v, arch);
    assert(rest[0] == v[0]);
}

/// How the name of a file is taken apart.
proof fn lemma_file_parts(prefix: Seq<char>, rest: Seq<char>, body: Seq<char>)
    requires
        rest == body + ".xbps"@,
    ensures
        starts_with(prefix + rest, prefix),
        (prefix + rest).skip(prefix.len() as int) == rest,
        ends_with(prefix + rest, ".xbps"@),
        without_suffix(rest, ".xbps"@) == body,
{
    reveal_strlit(".xbps");
    let file = prefix + rest;
    assert(file.take(prefix.len() as int) =~= prefix);
    assert(file.skip(prefix.len() as int) =~= rest);
    assert(file.skip(file.len() - 5) =~= ".xbps"@);
    assert(rest.skip(rest.len() - 5) =~= ".xbps"@);
    assert(rest.take(rest.len() - 5) =~= body);
}

/// What stands before the last dot.
proof fn lemma_before_arch(v: Seq<char>, arch: Seq<char>)
    requires
        !arch.contains('.'),
    ensures
        rfind_char(v + "."@ + arch, '.') == Some(v.len() as int),
        (v + "."@ + arch).take(v.len() as int) == v,
{
    reveal_strlit(".");
    let body = v + "."@ + arch;
    let n = v.len() as int;
    lemma_rfind_char(body, '.');
    assert(body[n] == '.');
    let i = rfind_char(body, '.')->0;
    if i > n {
        assert(arch.contains(arch[i - n - 1]));
    }
    assert(body.take(n) =~= v);
}

/// A file that does not start with the name of a package and a `-`, or that does not end in
/// `.xbps`, is no build of it.
pub proof fn law_other_file_is_no_build(file: Seq<char>, name: Seq<char>)
    requires
        !starts_with(file, name + "-"@) || !ends_with(file, ".xbps"@),
    ensures
        built_version(file, name) is None,
{
}

/// The version and the revision in a build.
proof fn lemma_version_parts(v: Seq<char>, r: nat)
    requires
        r <= u64::MAX,
    ensures
        version_part(v + "_"@ + decimal(r)) == v,
        revision_part(v + "_"@ + decimal(r)) == r,
{
    reveal_strlit("_");
    let s = v + "_"@ + decimal(r);
    let n = v.len() as int;
    lemma_decimal(r);
    lemma_rfind_char(s, '_');
    assert(s[n] == '_');
    let i = rfind_char(s, '_')->0;
    if i > n {
        assert(is_digit(decimal(r)[i - n - 1]));
    }
    assert(s.take(n) =~= v);
    assert(s.skip(n + 1) =~= decimal(r));
    law_decimal_reads_back(r, u64::MAX as nat);
}

/// Of two builds the one of the newer version is the later one, whatever the revisions are; and at
/// the same version the one of the higher revision.
pub proof fn law_later_build(v: Seq<char>, r: nat, w: Seq<char>, q: nat)
    requires
        r <= u64::MAX,
        q <= u64::MAX,
    ensures
        is_newer(v, w) ==> is_later(v + "_"@ + decimal(r), w + "_"@ + decimal(q)) && !is_later(
            w + "_"@ + decimal(q),
            v + "_"@ + decimal(r),
        ),
        !is_newer(v, w) && !is_newer(w, v) && r > q ==> is_later(
            v + "_"@ + decimal(r),
            w + "_"@ + decimal(q),
        ) && !is_later(w + "_"@ + decimal(q), v + "_"@ + decimal(r)),
{
    lemma_version_parts(v, r);
    lemma_version_parts(w, q);
    if is_newer(v, w) {
        lemma_newer_one_way(v, w);
    }
}

/// Of two versions one at most is newer than the other.
proof fn lemma_newer_one_way(v: Seq<char>, w: Seq<char>)
    requires
        is_newer(v, w),
    ensures
        !is_newer(w, v),
{
    if is_newer(w, v) {
        law_newer_transitive(v, w, v);
        law_newer_irreflexive(v);
    }
}

/// The latest build of a package is one of its builds, and none of the files is a later one; where
/// there is no latest build, none of the files is a build of the package.
pub proof fn law_latest_build(
    files: Seq<Seq<char>>,
    name: Seq<char>,
    best: Option<Seq<char>>,
    i: int,
)
    requires
        is_latest_build(files, name, best),
        0 <= i < files.len(),
    ensures
        best is Some ==> exists|k: int|
            0 <= k < files.len() && built_version(#[trigger] files[k], name) == best,
        best is Some && built_version(files[i], name) is Some ==> !is_later(
            built_version(files[i], name)->0,
            best->0,
        ),
        best is None ==> built_version(files[i], name) is None,
{
    reveal(is_latest_build);
    if let Some(v) = built_version(files[i], name) {
        assert(is_built(files, name, v));
    }
}

/// Cleaning takes away every build of a package of which a later one is there, and no file that is
/// not a build of one of the packages.
pub proof fn law_clean_takes_older(
    files: Seq<Seq<char>>,
    i: int,
    j: int,
    names: Seq<Seq<char>>,
    name: Seq<char>,
)
    requires
        0 <= i < files.len(),
        0 <= j < files.len(),
    ensures
        names.contains(name) && built_version(files[i], name) is Some && built_version(
            files[j],
            name,
        ) is Some && is_later(built_version(files[j], name)->0, built_version(files[i], name)->0)
            ==> is_stale(files, files[i], names),
        !is_build_of(files[i], names) ==> !is_stale(files, files[i], names),
        names.contains(name) && built_version(files[i], name) is Some ==> is_build_of(
            files[i],
            names,
        ),
        (forall|k: int| 0 <= k < names.len() ==> built_version(files[i], #[trigger] names[k]) is None)
            ==> !is_build_of(files[i], names),
{
    reveal(is_replaced);
    reveal(is_latest_build);
    if names.contains(name) {
        let k = choose|k: int| 0 <= k < names.len() && names[k] == name;
        if built_version(files[j], name) is Some {
            assert(is_built(files, name, built_version(files[j], name)->0));
        }
        assert(names[k] == name);
    }
}

/// What is known of a package when it is looked up is what was found of it, and its status follows
/// from that; upstream was not asked yet.
pub proof fn law_looked_up_state(
    p: PackageModel,
    installed: Option<Seq<char>>,
    built: Option<Seq<char>>,
    uncommitted: bool,
)
    ensures
        ({
            let s = new_state(p, installed, built, uncommitted);
            &&& s.package == p
            &&& s.installed == installed
            &&& s.built == built
            &&& s.latest is None
            &&& s.uncommitted == uncommitted
            &&& s.status == status_of(p, installed, built, None)
            &&& s.build_log is None
        }),
{
}

/// A package is found by any file below its directory that a commit changed, and as new by any line
/// of a status that has it as new.
pub proof fn law_changed_file_finds_package(
    ls: Seq<Seq<char>>,
    i: int,
    dir: Seq<char>,
    name: Seq<char>,
    rest: Seq<char>,
)
    requires
        0 <= i < ls.len(),
        !dir.contains('/'),
        !name.contains('/'),
        rest.len() > 0 ==> rest[0] == '/',
    ensures
        ls[i] == dir + "/"@ + name + rest ==> is_touched(ls, name),
        new_in(ls[i]) == Some(name) ==> is_new(ls, name),
        (forall|j: int| 0 <= j < ls.len() ==> package_in(#[trigger] ls[j]) != Some(name))
            ==> !is_touched(ls, name),
        (forall|j: int| 0 <= j < ls.len() ==> new_in(#[trigger] ls[j]) != Some(name)) ==> !is_new(
            ls,
            name,
        ),
{
    law_path_names_package(dir, name, rest);
}

} // verus!
