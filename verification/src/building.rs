//! Building: the queue, its logs, and what to look at before it starts.

use vstd::prelude::*;
use vstd::slice::slice_subrange;

use crate::config::{joined_path, path_join};
use crate::line::is_word;
use crate::order::{
    comes_before, is_sorted, law_precedes_irreflexive, law_precedes_total, law_precedes_transitive,
    lemma_sort_texts, precedes, sort_texts, sorted, sorted_set, strictly_sorted,
};
use crate::package::version_newer_pub;
use crate::template::char_bytes;
use crate::text::{
    begins, cat, cat3, chars_of, contains_text, decimal, drop_suffix, ends_with, finishes, join,
    joined, last_index_of, lemma_find_char_is, lemma_rfind_char, lemma_texts_push, lemma_with_text,
    lines, lines_of, number, push_new, rfind_char, runs, same_text, starts_with, text_of, text_opt,
    texts, trim, trim_start, trimmed, without_suffix,
};
use crate::version::is_newer;
use crate::version_check::{before_char, up_to_char};

verus! {

broadcast use vstd::seq_lib::group_seq_properties;

// ---------------------------------------------------------------------------------------------
// Jobs and messages
// ---------------------------------------------------------------------------------------------

/// Where a job is.
#[derive(Debug, Clone, Copy, PartialEq, Eq, Structural)]
pub enum BuildJobStatus {
    Pending,
    Building,
    Success,
    Failed,
}

/// A package to build.
#[derive(Debug)]
pub struct BuildJob {
    pub name: String,
    pub status: BuildJobStatus,
}

/// What a `BuildJob` holds.
pub struct JobModel {
    pub name: Seq<char>,
    pub status: BuildJobStatus,
}

impl View for BuildJob {
    type V = JobModel;

    open spec fn view(&self) -> JobModel {
        JobModel { name: self.name@, status: self.status }
    }
}

pub open spec fn job_models(v: Seq<BuildJob>) -> Seq<JobModel> {
    Seq::new(v.len(), |i: int| v[i]@)
}

/// The names of jobs.
pub open spec fn job_names(v: Seq<JobModel>) -> Seq<Seq<char>> {
    Seq::new(v.len(), |i: int| v[i].name)
}

/// What a build reports.
#[derive(Debug)]
pub enum BuildMsg {
    /// A package is built now.
    Started(String),
    /// A package, and a line that its build printed.
    Output(String, String),
    /// A package that was built, and the path of its log.
    Finished(String, String),
    /// A package whose build failed, the last lines of its errors, and the path of its log.
    Failed(String, Vec<String>, String),
    /// There is nothing more to build.
    QueueComplete,
}

/// What a `BuildMsg` holds.
pub enum BuildMsgModel {
    Started(Seq<char>),
    Output(Seq<char>, Seq<char>),
    Finished(Seq<char>, Seq<char>),
    Failed(Seq<char>, Seq<Seq<char>>, Seq<char>),
    QueueComplete,
}

impl View for BuildMsg {
    type V = BuildMsgModel;

    open spec fn view(&self) -> BuildMsgModel {
        match self {
            BuildMsg::Started(n) => BuildMsgModel::Started(n@),
            BuildMsg::Output(n, l) => BuildMsgModel::Output(n@, l@),
            BuildMsg::Finished(n, p) => BuildMsgModel::Finished(n@, p@),
            BuildMsg::Failed(n, e, p) => BuildMsgModel::Failed(n@, texts(e@), p@),
            BuildMsg::QueueComplete => BuildMsgModel::QueueComplete,
        }
    }
}

// ---------------------------------------------------------------------------------------------
// History
// ---------------------------------------------------------------------------------------------

/// A build that is over.
#[derive(Debug)]
pub struct BuildHistoryEntry {
    pub name: String,
    pub success: bool,
    pub timestamp: u64,
}

/// What a `BuildHistoryEntry` holds.
pub struct HistoryModel {
    pub name: Seq<char>,
    pub success: bool,
    pub timestamp: u64,
}

impl View for BuildHistoryEntry {
    type V = HistoryModel;

    open spec fn view(&self) -> HistoryModel {
        HistoryModel { name: self.name@, success: self.success, timestamp: self.timestamp }
    }
}

/// The builds that are over, in order.
#[derive(Debug)]
pub struct BuildHistory {
    pub entries: Vec<BuildHistoryEntry>,
}

impl View for BuildHistory {
    type V = Seq<HistoryModel>;

    open spec fn view(&self) -> Seq<HistoryModel> {
        Seq::new(self.entries@.len(), |i: int| self.entries@[i]@)
    }
}

impl BuildHistory {
    pub fn new() -> (r: Self)
        ensures
            r@ == Seq::<HistoryModel>::empty(),
    {
        let r = BuildHistory { entries: Vec::new() };
        assert(r@ =~= Seq::<HistoryModel>::empty());
        r
    }

    /// Puts a build behind the others.
    pub fn record(&mut self, name: &str, success: bool, timestamp: u64)
        ensures
            final(self)@ == old(self)@.push(HistoryModel { name: name@, success, timestamp }),
    {
        let ghost before = self@;
        let entry = BuildHistoryEntry { name: name.to_owned(), success, timestamp };
        self.entries.push(entry);
        assert(self@ =~= before.push(entry@));
    }
}

// ---------------------------------------------------------------------------------------------
// Paths
// ---------------------------------------------------------------------------------------------

/// The cache directory: the one that the environment names, or that of the home directory.
pub open spec fn cache_root(xdg: Option<Seq<char>>, home: Option<Seq<char>>) -> Seq<char> {
    match (xdg, home) {
        (Some(x), _) => x,
        (None, Some(h)) => h + "/.cache"@,
        (None, None) => "/tmp"@,
    }
}

/// The path `rest` in the cache directory.
pub fn cache_path(xdg: &Option<String>, home: &Option<String>, rest: &str) -> (r: String)
    ensures
        r@ == joined_path(cache_root(text_opt(*xdg), text_opt(*home)), rest@),
{
    let root = match (xdg, home) {
        (Some(x), _) => x.clone(),
        (None, Some(h)) => cat(h.as_str(), "/.cache"),
        (None, None) => "/tmp".to_owned(),
    };
    path_join(root.as_str(), rest)
}

/// Where the history of builds is.
pub fn history_path(xdg: &Option<String>, home: &Option<String>) -> (r: String)
    ensures
        r@ == joined_path(
            cache_root(text_opt(*xdg), text_opt(*home)),
            "vxpm/build_history.json"@,
        ),
{
    cache_path(xdg, home, "vxpm/build_history.json")
}

/// Where the logs are.
pub fn log_dir(xdg: &Option<String>, home: &Option<String>) -> (r: String)
    ensures
        r@ == joined_path(cache_root(text_opt(*xdg), text_opt(*home)), "vxpm/logs"@),
{
    cache_path(xdg, home, "vxpm/logs")
}

/// Where the upstream versions that were found are kept.
pub fn versions_path(xdg: &Option<String>, home: &Option<String>) -> (r: String)
    ensures
        r@ == joined_path(cache_root(text_opt(*xdg), text_opt(*home)), "vxpm/versions.json"@),
{
    cache_path(xdg, home, "vxpm/versions.json")
}

/// The name of the log of a build.
pub open spec fn build_log_file(name: Seq<char>, timestamp: Seq<char>) -> Seq<char> {
    name + "-"@ + timestamp + ".log"@
}

/// The path of the log of a build.
pub fn build_log_path(dir: &str, name: &str, timestamp: &str) -> (r: String)
    ensures
        r@ == joined_path(dir@, build_log_file(name@, timestamp@)),
{
    let head = cat3(name, "-", timestamp);
    path_join(dir, cat(head.as_str(), ".log").as_str())
}

/// The path of the log of a bump.
pub fn bump_log_path(dir: &str, name: &str, timestamp: &str) -> (r: String)
    ensures
        r@ == joined_path(dir@, build_log_file(name@ + "-bump"@, timestamp@)),
{
    build_log_path(dir, cat(name, "-bump").as_str(), timestamp)
}

// ---------------------------------------------------------------------------------------------
// Pruning logs
// ---------------------------------------------------------------------------------------------

/// How many logs of each package are kept.
pub const KEPT_LOGS: usize = 5;

/// Where the last `n` bytes of `s` start, nothing where no character starts there.
pub open spec fn tail_start(s: Seq<char>, n: nat) -> Option<int>
    decreases s.len(),
{
    if n == 0 {
        Some(s.len() as int)
    } else if s.len() == 0 || char_bytes(s.last()) > n {
        None
    } else {
        tail_start(s.drop_last(), (n - char_bytes(s.last())) as nat)
    }
}

/// The package that a log is about, out of a file name like `name-YYYYMMDD-HHMMSS.log`: what
/// stands before the last sixteen bytes of the name without `.log`.
pub open spec fn log_package(file: Seq<char>) -> Option<Seq<char>> {
    let stem = without_suffix(file, ".log"@);
    if ends_with(file, ".log"@) && stem.len() > 0 {
        match tail_start(stem, 16) {
            Some(k) => if k > 0 {
                Some(stem.take(k))
            } else {
                None
            },
            None => None,
        }
    } else {
        None
    }
}

/// How many logs of the package `name` come after `file`.
pub open spec fn later_logs(files: Seq<Seq<char>>, name: Seq<char>, file: Seq<char>) -> nat
    decreases files.len(),
{
    if files.len() == 0 {
        0
    } else {
        later_logs(files.drop_last(), name, file) + if log_package(files.last()) == Some(name)
            && precedes(file, files.last()) {
            1nat
        } else {
            0nat
        }
    }
}

/// Whether a log goes when at most `max` logs of each package stay: there are `max` logs of its
/// package that come after it. The names of logs come in the order of their time.
pub open spec fn is_excess(files: Seq<Seq<char>>, file: Seq<char>, max: nat) -> bool {
    match log_package(file) {
        Some(name) => later_logs(files, name, file) >= max,
        None => false,
    }
}

/// How many bytes a character takes.
fn bytes_of(c: char) -> (r: u8)
    ensures
        r == char_bytes(c),
        r > 0,
{
    let n: u32 = c as u32;
    if n < 0x80 {
        1
    } else if n < 0x800 {
        2
    } else if n < 0x10000 {
        3
    } else {
        4
    }
}

/// Where the last `n` bytes of `s` start.
fn find_tail(s: &[char], n: u8) -> (r: Option<usize>)
    ensures
        match r {
            Some(k) => tail_start(s@, n as nat) == Some(k as int) && k <= s@.len(),
            None => tail_start(s@, n as nat) is None,
        },
{
    let mut k: usize = s.len();
    let mut left: u8 = n;
    assert(s@.take(k as int) =~= s@);
    while left > 0
        invariant
            k <= s@.len(),
            tail_start(s@, n as nat) == tail_start(s@.take(k as int), left as nat),
        decreases k,
    {
        if k == 0 {
            return None;
        }
        let w: u8 = bytes_of(s[k - 1]);
        assert(s@.take(k as int).last() == s@[k - 1]);
        assert(s@.take(k as int).drop_last() =~= s@.take(k - 1));
        if w > left {
            return None;
        }
        left -= w;
        k -= 1;
    }
    Some(k)
}

/// The package that a log is about.
fn package_of_log(file: &str) -> (r: Option<String>)
    ensures
        text_opt(r) == log_package(file@),
{
    let c = chars_of(file);
    if !finishes(c.as_slice(), ".log") {
        return None;
    }
    let stem = drop_suffix(c.as_slice(), ".log");
    if stem.len() == 0 {
        return None;
    }
    match find_tail(stem, 16) {
        Some(k) => if k > 0 {
            let head = slice_subrange(stem, 0, k);
            assert(head@ =~= stem@.take(k as int));
            Some(text_of(head))
        } else {
            None
        },
        None => None,
    }
}

/// How many logs of the package `name` come after `file`.
fn count_later(files: &Vec<String>, name: &str, file: &str) -> (r: usize)
    ensures
        r == later_logs(texts(files@), name@, file@),
{
    let ghost all = texts(files@);
    let mut n: usize = 0;
    let mut i: usize = 0;
    while i < files.len()
        invariant
            i <= files@.len(),
            n <= i,
            all == texts(files@),
            n == later_logs(all.take(i as int), name@, file@),
        decreases files@.len() - i,
    {
        proof {
            assert(all.take(i + 1).drop_last() =~= all.take(i as int));
            assert(all.take(i + 1).last() == all[i as int]);
        }
        let same = match package_of_log(files[i].as_str()) {
            Some(p) => same_text(p.as_str(), name),
            None => false,
        };
        if same && comes_before(file, files[i].as_str()) {
            n += 1;
        }
        i += 1;
    }
    assert(all.take(i as int) =~= all);
    n
}

/// Which of the files go, so that at most `max_per_pkg` logs of each package stay.
pub fn prune_build_logs(files: &Vec<String>, max_per_pkg: usize) -> (r: Vec<bool>)
    ensures
        r@.len() == files@.len(),
        forall|i: int|
            0 <= i < r@.len() ==> #[trigger] r@[i] == is_excess(
                texts(files@),
                texts(files@)[i],
                max_per_pkg as nat,
            ),
{
    let mut out: Vec<bool> = Vec::new();
    let mut i: usize = 0;
    while i < files.len()
        invariant
            i <= files@.len(),
            out@.len() == i,
            forall|j: int|
                0 <= j < i ==> #[trigger] out@[j] == is_excess(
                    texts(files@),
                    texts(files@)[j],
                    max_per_pkg as nat,
                ),
        decreases files@.len() - i,
    {
        let file = files[i].as_str();
        let excess = match package_of_log(file) {
            Some(name) => count_later(files, name.as_str(), file) >= max_per_pkg,
            None => false,
        };
        out.push(excess);
        i += 1;
    }
    out
}

// ---------------------------------------------------------------------------------------------
// Before a build
// ---------------------------------------------------------------------------------------------

/// Something to say before a build starts, and whether cleaning up would help.
#[derive(Debug)]
pub struct PreflightWarning {
    pub message: String,
    pub cleanable: bool,
}

/// What a `PreflightWarning` holds.
pub struct WarningModel {
    pub message: Seq<char>,
    pub cleanable: bool,
}

impl View for PreflightWarning {
    type V = WarningModel;

    open spec fn view(&self) -> WarningModel {
        WarningModel { message: self.message@, cleanable: self.cleanable }
    }
}

pub open spec fn warning_models(v: Seq<PreflightWarning>) -> Seq<WarningModel> {
    Seq::new(v.len(), |i: int| v[i]@)
}

/// The directories of a checkout with what is in the build directory of each.
pub open spec fn dir_models(v: Seq<(String, Vec<String>)>) -> Seq<(Seq<char>, Seq<Seq<char>>)> {
    Seq::new(v.len(), |i: int| (v[i].0@, texts(v[i].1@)))
}

/// What is left in the build directories of the master directories, in the order of the
/// directories.
pub open spec fn leftovers(dirs: Seq<(Seq<char>, Seq<Seq<char>>)>) -> Seq<Seq<char>>
    decreases dirs.len(),
{
    if dirs.len() == 0 {
        Seq::empty()
    } else {
        let before = leftovers(dirs.drop_last());
        if starts_with(dirs.last().0, "masterdir"@) {
            before + dirs.last().1
        } else {
            before
        }
    }
}

/// What is left in the build directories of the master directories, sorted. A clean one is empty.
pub fn dirty_masterdir_entries(dirs: &Vec<(String, Vec<String>)>) -> (r: Vec<String>)
    ensures
        texts(r@) == sort_texts(leftovers(dir_models(dirs@))),
{
    let ghost all = dir_models(dirs@);
    let mut out: Vec<String> = Vec::new();
    let mut i: usize = 0;
    assert(texts(out@) =~= Seq::empty());
    while i < dirs.len()
        invariant
            i <= dirs@.len(),
            all == dir_models(dirs@),
            texts(out@) == leftovers(all.take(i as int)),
        decreases dirs@.len() - i,
    {
        proof {
            assert(all.take(i + 1).drop_last() =~= all.take(i as int));
            assert(all.take(i + 1).last() == all[i as int]);
        }
        let name = chars_of(dirs[i].0.as_str());
        if begins(name.as_slice(), "masterdir") {
            push_all(&mut out, &dirs[i].1);
        }
        i += 1;
    }
    assert(all.take(i as int) =~= all);
    sorted(&out)
}

/// Puts the strings of `more` behind those of `out`.
pub fn push_all(out: &mut Vec<String>, more: &Vec<String>)
    ensures
        texts(final(out)@) == texts(old(out)@) + texts(more@),
{
    let ghost start = texts(out@);
    let mut i: usize = 0;
    assert(texts(out@) =~= start + texts(more@).take(0));
    while i < more.len()
        invariant
            i <= more@.len(),
            texts(out@) == start + texts(more@).take(i as int),
        decreases more@.len() - i,
    {
        proof {
            lemma_texts_push(out@, more@[i as int]);
        }
        out.push(more[i].clone());
        i += 1;
        assert(texts(out@) =~= start + texts(more@).take(i as int));
    }
    assert(texts(more@).take(i as int) =~= texts(more@));
}

/// The first `n` of the names, and how many more there are.
pub open spec fn preview(names: Seq<Seq<char>>, n: nat) -> Seq<char> {
    if names.len() <= n {
        join(names, ", "@)
    } else {
        join(names.take(n as int), ", "@) + ", +"@ + decimal((names.len() - n) as nat) + " more"@
    }
}

/// The first `n` of the names, and how many more there are.
pub fn preview_names(names: &Vec<String>, n: usize) -> (r: String)
    ensures
        r@ == preview(texts(names@), n as nat),
{
    if names.len() <= n {
        return joined(names, ", ");
    }
    let mut shown: Vec<String> = Vec::new();
    let mut i: usize = 0;
    while i < n
        invariant
            i <= n < names@.len(),
            texts(shown@) == texts(names@).take(i as int),
        decreases n - i,
    {
        proof {
            lemma_texts_push(shown@, names@[i as int]);
        }
        shown.push(names[i].clone());
        i += 1;
        assert(texts(names@).take(i as int) =~= texts(names@).take(i - 1).push(names@[i - 1]@));
    }
    let list = joined(&shown, ", ");
    let more: usize = names.len() - n;
    let count = number(more as u64);
    let front = cat3(list.as_str(), ", +", count.as_str());
    cat(front.as_str(), " more")
}

/// The version in a "name-version_revision", nothing where there is only white space.
pub open spec fn version_in(pkgver: Seq<char>) -> Option<Seq<char>> {
    let t = trim(pkgver);
    if t.len() == 0 {
        None
    } else {
        let rest = match rfind_char(t, '-') {
            Some(i) => t.skip(i + 1),
            None => t,
        };
        Some(before_char(rest, '_'))
    }
}

/// The version in a "name-version_revision": `8.20.0` of `curl-8.20.0_1`.
pub fn pkgver_version(pkgver: &str) -> (r: Option<String>)
    ensures
        text_opt(r) == version_in(pkgver@),
{
    let c = chars_of(pkgver);
    let t = trimmed(c.as_slice());
    let n: usize = t.len();
    if n == 0 {
        return None;
    }
    match last_index_of(t, '-') {
        Some(i) => {
            let rest = slice_subrange(t, i + 1, n);
            assert(rest@ =~= t@.skip(i + 1));
            Some(text_of(up_to_char(rest, '_')))
        },
        None => Some(text_of(up_to_char(t, '_'))),
    }
}

/// The version of the binary package of a dependency, out of a query for it. There is none where
/// the query failed.
pub fn binary_version(success: bool, stdout: &str) -> (r: Option<String>)
    ensures
        text_opt(r) == (if success {
            version_in(stdout@)
        } else {
            None
        }),
{
    if success {
        pkgver_version(stdout)
    } else {
        None
    }
}

/// Whether a line of `ls`, trimmed, is `name`.
pub open spec fn is_listed(ls: Seq<Seq<char>>, name: Seq<char>) -> bool {
    name.len() > 0 && exists|i: int| 0 <= i < ls.len() && trim(#[trigger] ls[i]) == name
}

/// Whether one of the lists has `name`.
pub open spec fn is_dependency(lists: Seq<Seq<char>>, name: Seq<char>) -> bool {
    exists|k: int| 0 <= k < lists.len() && is_listed(lines(#[trigger] lists[k]), name)
}

proof fn lemma_listed_push(ls: Seq<Seq<char>>, line: Seq<char>, name: Seq<char>)
    ensures
        is_listed(ls.push(line), name) <==> is_listed(ls, name) || (trim(line) == name
            && name.len() > 0),
{
    let now = ls.push(line);
    assert(now[ls.len() as int] == line);
    if is_listed(ls, name) {
        let i = choose|i: int| 0 <= i < ls.len() && trim(#[trigger] ls[i]) == name;
        assert(now[i] == ls[i]);
    }
    if is_listed(now, name) {
        let i = choose|i: int| 0 <= i < now.len() && trim(#[trigger] now[i]) == name;
        if i < ls.len() {
            assert(ls[i] == now[i]);
        }
    }
}

proof fn lemma_dependency_push(lists: Seq<Seq<char>>, list: Seq<char>, name: Seq<char>)
    ensures
        is_dependency(lists.push(list), name) <==> is_dependency(lists, name) || is_listed(
            lines(list),
            name,
        ),
{
    let now = lists.push(list);
    assert(now[lists.len() as int] == list);
    if is_dependency(lists, name) {
        let i = choose|i: int| 0 <= i < lists.len() && is_listed(lines(#[trigger] lists[i]), name);
        assert(now[i] == lists[i]);
    }
    if is_dependency(now, name) {
        let i = choose|i: int| 0 <= i < now.len() && is_listed(lines(#[trigger] now[i]), name);
        if i < lists.len() {
            assert(lists[i] == now[i]);
        }
    }
}

/// Adds the names in the lines of `list` to `deps`.
fn add_listed(deps: &mut Vec<String>, list: &str)
    requires
        texts(old(deps)@).no_duplicates(),
    ensures
        texts(final(deps)@).no_duplicates(),
        forall|n: Seq<char>| #[trigger]
            texts(final(deps)@).contains(n) <==> texts(old(deps)@).contains(n) || is_listed(
                lines(list@),
                n,
            ),
{
    let text = chars_of(list);
    let all = lines_of(text.as_slice());
    let ghost ls = lines(list@);
    let ghost start = texts(deps@);
    let mut i: usize = 0;
    while i < all.len()
        invariant
            i <= all@.len(),
            runs(all@) == ls,
            texts(deps@).no_duplicates(),
            forall|n: Seq<char>| #[trigger]
                texts(deps@).contains(n) <==> start.contains(n) || is_listed(
                    ls.take(i as int),
                    n,
                ),
        decreases all@.len() - i,
    {
        let ghost before = texts(deps@);
        assert(runs(all@)[i as int] == all@[i as int]@);
        let d = trimmed(all[i]);
        if d.len() > 0 {
            let name = text_of(d);
            proof {
                lemma_with_text(texts(deps@), name@);
            }
            push_new(deps, name);
        }
        i += 1;
        proof {
            let front = ls.take(i - 1);
            let now = ls.take(i as int);
            assert(now =~= front.push(ls[i - 1]));
            assert forall|n: Seq<char>| #[trigger]
                texts(deps@).contains(n) <==> start.contains(n) || is_listed(now, n) by {
                assert(before.contains(n) <==> start.contains(n) || is_listed(front, n));
                lemma_listed_push(front, ls[i - 1], n);
            }
        }
    }
    assert(ls.take(i as int) =~= ls);
}

/// The dependencies in the lists of the build system, without the packages that are built, sorted.
pub fn build_deps(lists: &Vec<String>, job_names: &Vec<String>) -> (r: Vec<String>)
    ensures
        strictly_sorted(texts(r@)),
        forall|n: Seq<char>| #[trigger]
            texts(r@).contains(n) <==> is_dependency(texts(lists@), n) && !texts(
                job_names@,
            ).contains(n),
{
    let ghost all = texts(lists@);
    let ghost jobs = texts(job_names@);
    let mut deps: Vec<String> = Vec::new();
    let mut k: usize = 0;
    while k < lists.len()
        invariant
            k <= lists@.len(),
            all == texts(lists@),
            texts(deps@).no_duplicates(),
            forall|n: Seq<char>| #[trigger]
                texts(deps@).contains(n) <==> is_dependency(all.take(k as int), n),
        decreases lists@.len() - k,
    {
        let ghost before = texts(deps@);
        add_listed(&mut deps, lists[k].as_str());
        k += 1;
        proof {
            let front = all.take(k - 1);
            assert(all.take(k as int) =~= front.push(all[k - 1]));
            assert forall|n: Seq<char>| #[trigger]
                texts(deps@).contains(n) <==> is_dependency(all.take(k as int), n) by {
                assert(before.contains(n) <==> is_dependency(front, n));
                lemma_dependency_push(front, all[k - 1], n);
            }
        }
    }
    assert(all.take(k as int) =~= all);
    let mut out: Vec<String> = Vec::new();
    let ghost found = texts(deps@);
    let mut i: usize = 0;
    while i < deps.len()
        invariant
            i <= deps@.len(),
            found == texts(deps@),
            found.no_duplicates(),
            jobs == texts(job_names@),
            texts(out@).no_duplicates(),
            forall|n: Seq<char>| #[trigger]
                texts(out@).contains(n) <==> found.take(i as int).contains(n) && !jobs.contains(n),
        decreases deps@.len() - i,
    {
        let ghost before = texts(out@);
        let name = &deps[i];
        proof {
            lemma_with_text(before, name@);
        }
        if !contains_text(job_names, name.as_str()) {
            push_new(&mut out, name.clone());
        }
        i += 1;
        proof {
            let front = found.take(i - 1);
            let now = found.take(i as int);
            assert(now =~= front.push(name@));
            assert forall|n: Seq<char>| #[trigger]
                texts(out@).contains(n) <==> now.contains(n) && !jobs.contains(n) by {
                assert(before.contains(n) <==> front.contains(n) && !jobs.contains(n));
                assert(now.contains(n) <==> front.contains(n) || n == name@);
            }
        }
    }
    assert(found.take(i as int) =~= found);
    sorted_set(&out)
}

/// Whether a dependency is compiled where its template is at `template` and its binary package at
/// `binary`: there is no binary package, or the template is ahead of it. Of a dependency without
/// a template nothing is said.
pub open spec fn is_compiled(template: Option<Seq<char>>, binary: Option<Seq<char>>) -> bool {
    match template {
        Some(t) => match binary {
            Some(b) => is_newer(t, b),
            None => true,
        },
        None => false,
    }
}

/// Whether a dependency is compiled.
pub fn builds_from_source(template: &Option<String>, binary: &Option<String>) -> (r: bool)
    ensures
        r == is_compiled(text_opt(*template), text_opt(*binary)),
{
    match template {
        Some(t) => match binary {
            Some(b) => version_newer_pub(t.as_str(), b.as_str()),
            None => true,
        },
        None => false,
    }
}

/// What is said of what is left in the build directories.
pub open spec fn leftover_message(left: Seq<Seq<char>>) -> Seq<char> {
    "masterdir has "@ + decimal(left.len())
        + " leftover build dir(s) from an interrupted build ("@ + preview(left, 3)
        + "); these can cause 'cannot access wrksrc' failures"@
}

/// What is said of the dependencies that are compiled.
pub open spec fn source_message(deps: Seq<Seq<char>>) -> Seq<char> {
    decimal(deps.len()) + " dependenc"@ + (if deps.len() == 1 {
        "y"@
    } else {
        "ies"@
    }) + " will build from source (no binary / repo lag): "@ + preview(deps, 4)
        + " \u{2014} expect extra compile time"@
}

/// What to say before a build starts: what is left in the build directories, which cleaning up
/// helps with, and what has to be compiled.
pub open spec fn warnings_for(left: Seq<Seq<char>>, deps: Seq<Seq<char>>) -> Seq<WarningModel> {
    (if left.len() > 0 {
        seq![WarningModel { message: leftover_message(left), cleanable: true }]
    } else {
        Seq::empty()
    }) + (if deps.len() > 0 {
        seq![WarningModel { message: source_message(deps), cleanable: false }]
    } else {
        Seq::empty()
    })
}

/// What to say before a build starts. Nothing: the build can start.
pub fn preflight(dirs: &Vec<(String, Vec<String>)>, from_source: &Vec<String>) -> (r: Vec<
    PreflightWarning,
>)
    ensures
        warning_models(r@) == warnings_for(
            sort_texts(leftovers(dir_models(dirs@))),
            texts(from_source@),
        ),
{
    let mut out: Vec<PreflightWarning> = Vec::new();
    let left = dirty_masterdir_entries(dirs);
    assert(warning_models(out@) =~= Seq::empty());
    if left.len() > 0 {
        let count = number(left.len() as u64);
        let names = preview_names(&left, 3);
        let a = cat3(
            "masterdir has ",
            count.as_str(),
            " leftover build dir(s) from an interrupted build (",
        );
        let message = cat3(
            a.as_str(),
            names.as_str(),
            "); these can cause 'cannot access wrksrc' failures",
        );
        assert(message@ =~= leftover_message(texts(left@)));
        let w = PreflightWarning { message, cleanable: true };
        out.push(w);
        assert(warning_models(out@) =~= seq![w@]);
    }
    if from_source.len() > 0 {
        let count = number(from_source.len() as u64);
        let names = preview_names(from_source, 4);
        let end = if from_source.len() == 1 {
            "y"
        } else {
            "ies"
        };
        let a = cat3(count.as_str(), " dependenc", end);
        let b = cat3(
            a.as_str(),
            " will build from source (no binary / repo lag): ",
            names.as_str(),
        );
        let message = cat(b.as_str(), " \u{2014} expect extra compile time");
        assert(message@ =~= source_message(texts(from_source@)));
        let w = PreflightWarning { message, cleanable: false };
        let ghost before = out@;
        out.push(w);
        assert(warning_models(out@) =~= warning_models(before).push(w@));
    }
    proof {
        let goal = warnings_for(sort_texts(leftovers(dir_models(dirs@))), texts(from_source@));
        assert(warning_models(out@) =~= goal);
    }
    out
}

/// What came of cleaning up.
#[derive(Debug)]
pub enum CleanOutcome {
    Cleaned,
    /// It failed, with these errors.
    Failed(String),
    /// It could not be run, for this reason.
    NotRun(String),
}

/// What is said of cleaning up that failed: the last line of its errors.
pub open spec fn clean_failure(stderr: Seq<char>) -> Seq<char> {
    let ls = lines(stderr);
    "Clean failed: "@ + (if ls.len() > 0 {
        ls.last()
    } else {
        "non-zero exit"@
    })
}

/// What is said of cleaning up.
pub fn clean_masterdir(outcome: &CleanOutcome) -> (r: String)
    ensures
        r@ == match *outcome {
            CleanOutcome::Cleaned => "Cleaned masterdir build state"@,
            CleanOutcome::Failed(e) => clean_failure(e@),
            CleanOutcome::NotRun(e) => "Clean failed: "@ + e@,
        },
{
    match outcome {
        CleanOutcome::Cleaned => "Cleaned masterdir build state".to_owned(),
        CleanOutcome::Failed(e) => {
            let text = chars_of(e.as_str());
            let all = lines_of(text.as_slice());
            if all.len() > 0 {
                let k: usize = all.len() - 1;
                assert(runs(all@)[k as int] == all@[k as int]@);
                cat("Clean failed: ", text_of(all[k]).as_str())
            } else {
                cat("Clean failed: ", "non-zero exit")
            }
        },
        CleanOutcome::NotRun(e) => cat("Clean failed: ", e.as_str()),
    }
}

// ---------------------------------------------------------------------------------------------
// The queue
// ---------------------------------------------------------------------------------------------

/// The packages that are built, and what the build at hand printed.
#[derive(Debug)]
pub struct BuildQueue {
    pub jobs: Vec<BuildJob>,
    pub current_output: Vec<String>,
    pub active: bool,
    /// Whether no further package is to be built.
    pub cancelled: bool,
}

/// What a `BuildQueue` holds.
pub struct QueueModel {
    pub jobs: Seq<JobModel>,
    pub current_output: Seq<Seq<char>>,
    pub active: bool,
    pub cancelled: bool,
}

impl View for BuildQueue {
    type V = QueueModel;

    open spec fn view(&self) -> QueueModel {
        QueueModel {
            jobs: job_models(self.jobs@),
            current_output: texts(self.current_output@),
            active: self.active,
            cancelled: self.cancelled,
        }
    }
}

/// The jobs that build `names`.
pub open spec fn pending_jobs(names: Seq<Seq<char>>) -> Seq<JobModel> {
    Seq::new(names.len(), |i: int| JobModel { name: names[i], status: BuildJobStatus::Pending })
}

/// A queue that starts with its jobs. Without jobs there is nothing to start.
pub open spec fn started(q: QueueModel) -> QueueModel {
    if q.jobs.len() == 0 {
        q
    } else {
        QueueModel { current_output: Seq::empty(), active: true, cancelled: false, ..q }
    }
}

impl BuildQueue {
    pub fn new() -> (r: Self)
        ensures
            r@ == (QueueModel {
                jobs: Seq::empty(),
                current_output: Seq::empty(),
                active: false,
                cancelled: false,
            }),
    {
        let r = BuildQueue {
            jobs: Vec::new(),
            current_output: Vec::new(),
            active: false,
            cancelled: false,
        };
        assert(r@.jobs =~= Seq::empty());
        assert(r@.current_output =~= Seq::empty());
        r
    }

    /// The jobs that build `names`, in place of those that there were.
    pub fn set_jobs(&mut self, names: &Vec<String>)
        ensures
            final(self)@ == (QueueModel { jobs: pending_jobs(texts(names@)), ..old(self)@ }),
    {
        let mut jobs: Vec<BuildJob> = Vec::new();
        let mut i: usize = 0;
        while i < names.len()
            invariant
                i <= names@.len(),
                job_models(jobs@) == pending_jobs(texts(names@).take(i as int)),
            decreases names@.len() - i,
        {
            let ghost before = jobs@;
            let job = BuildJob { name: names[i].clone(), status: BuildJobStatus::Pending };
            jobs.push(job);
            i += 1;
            proof {
                assert(job_models(jobs@) =~= job_models(before).push(job@));
                assert(pending_jobs(texts(names@).take(i as int)) =~= pending_jobs(
                    texts(names@).take(i - 1),
                ).push(job@));
            }
        }
        assert(texts(names@).take(i as int) =~= texts(names@));
        self.jobs = jobs;
    }

    /// Starts with the jobs: the names of the packages to build, in order.
    pub fn start(&mut self) -> (r: Vec<String>)
        ensures
            final(self)@ == started(old(self)@),
            texts(r@) == job_names(old(self)@.jobs),
    {
        let mut names: Vec<String> = Vec::new();
        let ghost all = job_names(self@.jobs);
        let mut i: usize = 0;
        assert(texts(names@) =~= all.take(0));
        while i < self.jobs.len()
            invariant
                i <= self.jobs@.len(),
                *self == *old(self),
                all == job_names(self@.jobs),
                texts(names@) == all.take(i as int),
            decreases self.jobs@.len() - i,
        {
            proof {
                lemma_texts_push(names@, self.jobs@[i as int].name);
            }
            names.push(self.jobs[i].name.clone());
            i += 1;
            assert(all.take(i as int) =~= all.take(i - 1).push(all[i - 1]));
        }
        assert(all.take(i as int) =~= all);
        if self.jobs.len() > 0 {
            self.active = true;
            self.current_output = Vec::new();
            self.cancelled = false;
            assert(self@.current_output =~= Seq::empty());
        }
        names
    }
}

/// What a queue wants next.
#[derive(Debug)]
pub enum BuildStep {
    /// Build this package.
    Build(String),
    /// Nothing: it is over.
    Complete,
}

/// What a `BuildStep` holds.
pub enum BuildStepModel {
    Build(Seq<char>),
    Complete,
}

impl View for BuildStep {
    type V = BuildStepModel;

    open spec fn view(&self) -> BuildStepModel {
        match self {
            BuildStep::Build(n) => BuildStepModel::Build(n@),
            BuildStep::Complete => BuildStepModel::Complete,
        }
    }
}

/// One step of a queue that is at `at`: the next package, unless it is cancelled.
pub open spec fn queue_step(names: Seq<Seq<char>>, at: nat, cancelled: bool) -> (
    nat,
    BuildStepModel,
) {
    if cancelled || at >= names.len() {
        (at, BuildStepModel::Complete)
    } else {
        (at + 1, BuildStepModel::Build(names[at as int]))
    }
}

/// One step of a queue: the next package, unless it is cancelled.
pub fn run_build_queue(names: &Vec<String>, at: &mut usize, cancelled: bool) -> (r: BuildStep)
    ensures
        (*final(at) as nat, r@) == queue_step(texts(names@), *old(at) as nat, cancelled),
{
    let n: usize = names.len();
    if cancelled || *at >= n {
        BuildStep::Complete
    } else {
        let name = names[*at].clone();
        *at = *at + 1;
        BuildStep::Build(name)
    }
}

/// What came of the build of a package.
#[derive(Debug)]
pub enum BuildOutcome {
    Succeeded,
    Failed,
    /// It could not be run or waited for, for this reason.
    Error(String),
}

/// What a `BuildOutcome` holds.
pub enum OutcomeModel {
    Succeeded,
    Failed,
    Error(Seq<char>),
}

impl View for BuildOutcome {
    type V = OutcomeModel;

    open spec fn view(&self) -> OutcomeModel {
        match self {
            BuildOutcome::Succeeded => OutcomeModel::Succeeded,
            BuildOutcome::Failed => OutcomeModel::Failed,
            BuildOutcome::Error(e) => OutcomeModel::Error(e@),
        }
    }
}

/// The last fifty lines of the errors of a build that failed.
pub open spec fn last_errors(stderr: Seq<Seq<char>>) -> Seq<Seq<char>> {
    if stderr.len() == 0 {
        seq!["Build failed with non-zero exit code"@]
    } else if stderr.len() <= 50 {
        stderr
    } else {
        stderr.skip(stderr.len() - 50)
    }
}

/// What is reported of the build of a package.
pub open spec fn report_of(
    name: Seq<char>,
    outcome: OutcomeModel,
    stderr: Seq<Seq<char>>,
    log_path: Seq<char>,
) -> BuildMsgModel {
    match outcome {
        OutcomeModel::Succeeded => BuildMsgModel::Finished(name, log_path),
        OutcomeModel::Failed => BuildMsgModel::Failed(name, last_errors(stderr), log_path),
        OutcomeModel::Error(e) => BuildMsgModel::Failed(name, seq![e], log_path),
    }
}

/// What is reported of the build of a package.
pub fn build_report(
    name: &str,
    outcome: &BuildOutcome,
    stderr: &Vec<String>,
    log_path: &str,
) -> (r: BuildMsg)
    ensures
        r@ == report_of(name@, outcome@, texts(stderr@), log_path@),
{
    match outcome {
        BuildOutcome::Succeeded => BuildMsg::Finished(name.to_owned(), log_path.to_owned()),
        BuildOutcome::Failed => {
            let errors = tail_of_errors(stderr);
            BuildMsg::Failed(name.to_owned(), errors, log_path.to_owned())
        },
        BuildOutcome::Error(e) => {
            let mut errors: Vec<String> = Vec::new();
            errors.push(e.clone());
            assert(texts(errors@) =~= seq![e@]);
            BuildMsg::Failed(name.to_owned(), errors, log_path.to_owned())
        },
    }
}

/// The last fifty lines of the errors of a build that failed.
fn tail_of_errors(stderr: &Vec<String>) -> (r: Vec<String>)
    ensures
        texts(r@) == last_errors(texts(stderr@)),
{
    let mut out: Vec<String> = Vec::new();
    let n: usize = stderr.len();
    if n == 0 {
        out.push("Build failed with non-zero exit code".to_owned());
        assert(texts(out@) =~= seq!["Build failed with non-zero exit code"@]);
        return out;
    }
    let start: usize = if n > 50 {
        n - 50
    } else {
        0
    };
    let ghost all = texts(stderr@);
    let mut i: usize = start;
    assert(texts(out@) =~= all.subrange(start as int, start as int));
    while i < n
        invariant
            start <= i <= n,
            n == stderr@.len(),
            all == texts(stderr@),
            texts(out@) == all.subrange(start as int, i as int),
        decreases n - i,
    {
        proof {
            lemma_texts_push(out@, stderr@[i as int]);
        }
        out.push(stderr[i].clone());
        i += 1;
        assert(all.subrange(start as int, i as int) =~= all.subrange(start as int, i - 1).push(
            all[i - 1],
        ));
    }
    assert(texts(out@) =~= last_errors(all));
    out
}

/// What a log gets behind the output of a build: what the build wrote as errors, warnings among
/// them, whether it failed or not, where it came to an end and has a log.
pub open spec fn log_tail(outcome: OutcomeModel, stderr: Seq<Seq<char>>, log_path: Seq<char>) -> Seq<
    Seq<char>,
> {
    if !(outcome is Error) && log_path.len() > 0 {
        Seq::new(stderr.len(), |i: int| "ERR: "@ + stderr[i])
    } else {
        Seq::empty()
    }
}

/// What a log gets behind the output of a build.
pub fn error_log_lines(outcome: &BuildOutcome, stderr: &Vec<String>, log_path: &str) -> (r: Vec<
    String,
>)
    ensures
        texts(r@) == log_tail(outcome@, texts(stderr@), log_path@),
{
    let mut out: Vec<String> = Vec::new();
    let ended = match outcome {
        BuildOutcome::Error(_) => false,
        _ => true,
    };
    let path = chars_of(log_path);
    if !ended || path.len() == 0 {
        assert(texts(out@) =~= Seq::empty());
        return out;
    }
    let ghost goal = log_tail(outcome@, texts(stderr@), log_path@);
    let mut i: usize = 0;
    assert(texts(out@) =~= goal.take(0));
    while i < stderr.len()
        invariant
            i <= stderr@.len(),
            goal.len() == stderr@.len(),
            forall|j: int| 0 <= j < goal.len() ==> #[trigger] goal[j] == "ERR: "@ + stderr@[j]@,
            texts(out@) == goal.take(i as int),
        decreases stderr@.len() - i,
    {
        let line = cat("ERR: ", stderr[i].as_str());
        proof {
            lemma_texts_push(out@, line);
        }
        out.push(line);
        i += 1;
        assert(goal.take(i as int) =~= goal.take(i - 1).push(goal[i - 1]));
    }
    assert(goal.take(i as int) =~= goal);
    out
}

/// A queue that is cancelled builds nothing more.
pub proof fn law_cancelled_queue_stops(names: Seq<Seq<char>>, at: nat)
    ensures
        queue_step(names, at, true) == (at, BuildStepModel::Complete),
{
}

/// What a queue wants in `n` steps without being cancelled.
pub open spec fn queue_run(names: Seq<Seq<char>>, n: nat) -> (nat, Seq<BuildStepModel>)
    decreases n,
{
    if n == 0 {
        (0, Seq::empty())
    } else {
        let (at, steps) = queue_run(names, (n - 1) as nat);
        let (next, step) = queue_step(names, at, false);
        (next, steps.push(step))
    }
}

/// A queue that is not cancelled builds every package once, in order, and then is complete.
pub proof fn law_queue_builds_in_order(names: Seq<Seq<char>>, n: nat)
    requires
        n <= names.len(),
    ensures
        queue_run(names, n).0 == n,
        queue_run(names, n).1.len() == n,
        forall|i: int|
            0 <= i < n ==> #[trigger] queue_run(names, n).1[i] == BuildStepModel::Build(names[i]),
        n == names.len() ==> queue_step(names, n, false).1 == BuildStepModel::Complete,
    decreases n,
{
    if n > 0 {
        law_queue_builds_in_order(names, (n - 1) as nat);
        let (at, steps) = queue_run(names, (n - 1) as nat);
        assert forall|i: int| 0 <= i < n implies #[trigger] queue_run(names, n).1[i]
            == BuildStepModel::Build(names[i]) by {
            if i < n - 1 {
                assert(queue_run(names, n).1[i] == steps[i]);
            }
        }
    }
}

// ---------------------------------------------------------------------------------------------
// What pruning keeps
// ---------------------------------------------------------------------------------------------

/// Whether the file is a log of the package `name` that stays.
pub open spec fn is_kept(
    files: Seq<Seq<char>>,
    name: Seq<char>,
    max: nat,
    file: Seq<char>,
) -> bool {
    log_package(file) == Some(name) && !is_excess(files, file, max)
}

/// How many of `some` are logs of the package `name` that stay.
pub open spec fn kept_among(
    some: Seq<Seq<char>>,
    files: Seq<Seq<char>>,
    name: Seq<char>,
    max: nat,
) -> nat
    decreases some.len(),
{
    if some.len() == 0 {
        0
    } else {
        kept_among(some.drop_last(), files, name, max) + if is_kept(files, name, max, some.last()) {
            1nat
        } else {
            0nat
        }
    }
}

/// The first in order of the logs that stay.
proof fn lemma_first_kept(
    some: Seq<Seq<char>>,
    files: Seq<Seq<char>>,
    name: Seq<char>,
    max: nat,
) -> (m: int)
    requires
        kept_among(some, files, name, max) > 0,
    ensures
        0 <= m < some.len(),
        is_kept(files, name, max, some[m]),
        forall|i: int|
            0 <= i < some.len() && is_kept(files, name, max, #[trigger] some[i]) ==> !precedes(
                some[i],
                some[m],
            ),
    decreases some.len(),
{
    let front = some.drop_last();
    let last = some.len() - 1;
    law_precedes_irreflexive(some.last());
    if kept_among(front, files, name, max) == 0 {
        assert forall|i: int|
            0 <= i < some.len() && is_kept(files, name, max, #[trigger] some[i]) implies !precedes(
            some[i],
            some[last],
        ) by {
            if i < last {
                lemma_none_kept(front, files, name, max, i);
            }
        }
        last
    } else {
        let m = lemma_first_kept(front, files, name, max);
        assert forall|i: int|
            0 <= i < last && is_kept(files, name, max, #[trigger] some[i]) implies !precedes(
            some[i],
            some[m],
        ) by {
            assert(front[i] == some[i]);
        }
        if is_kept(files, name, max, some[last]) && precedes(some[last], some[m]) {
            assert forall|i: int|
                0 <= i < some.len() && is_kept(
                    files,
                    name,
                    max,
                    #[trigger] some[i],
                ) implies !precedes(some[i], some[last]) by {
                if i < last && precedes(some[i], some[last]) {
                    law_precedes_transitive(some[i], some[last], some[m]);
                }
            }
            last
        } else {
            m
        }
    }
}

proof fn lemma_none_kept(
    some: Seq<Seq<char>>,
    files: Seq<Seq<char>>,
    name: Seq<char>,
    max: nat,
    i: int,
)
    requires
        kept_among(some, files, name, max) == 0,
        0 <= i < some.len(),
    ensures
        !is_kept(files, name, max, some[i]),
    decreases some.len(),
{
    if i < some.len() - 1 {
        lemma_none_kept(some.drop_last(), files, name, max, i);
    }
}

/// The logs that stay, but for one that comes before all of them, come after it.
proof fn lemma_kept_come_after(
    some: Seq<Seq<char>>,
    files: Seq<Seq<char>>,
    name: Seq<char>,
    max: nat,
    first: Seq<char>,
)
    requires
        some.no_duplicates(),
        forall|i: int|
            0 <= i < some.len() && is_kept(files, name, max, #[trigger] some[i]) ==> !precedes(
                some[i],
                first,
            ),
    ensures
        kept_among(some, files, name, max) <= later_logs(some, name, first) + if some.contains(
            first,
        ) {
            1nat
        } else {
            0nat
        },
    decreases some.len(),
{
    if some.len() > 0 {
        let front = some.drop_last();
        let last = some.last();
        assert forall|i: int|
            0 <= i < front.len() && is_kept(
                files,
                name,
                max,
                #[trigger] front[i],
            ) implies !precedes(front[i], first) by {
            assert(front[i] == some[i]);
        }
        lemma_kept_come_after(front, files, name, max, first);
        if last == first {
            assert(some[some.len() - 1] == first);
            assert(!front.contains(first)) by {
                if front.contains(first) {
                    let k = choose|k: int| 0 <= k < front.len() && front[k] == first;
                    assert(some[k] == some[some.len() - 1]);
                }
            }
        } else {
            assert(some.contains(first) <==> front.contains(first)) by {
                if front.contains(first) {
                    let k = choose|k: int| 0 <= k < front.len() && front[k] == first;
                    assert(some[k] == first);
                }
            }
            law_precedes_total(last, first);
            assert(some[some.len() - 1] == last);
        }
    }
}

/// Pruning keeps at most `max` logs of each package.
pub proof fn law_prune_keeps_at_most(files: Seq<Seq<char>>, name: Seq<char>, max: nat)
    requires
        files.no_duplicates(),
    ensures
        kept_among(files, files, name, max) <= max,
{
    if kept_among(files, files, name, max) > 0 {
        let m = lemma_first_kept(files, files, name, max);
        lemma_kept_come_after(files, files, name, max, files[m]);
    }
}

/// Pruning keeps the newest logs: where a log stays, so does every later one of its package.
pub proof fn law_prune_keeps_newest(
    files: Seq<Seq<char>>,
    name: Seq<char>,
    max: nat,
    older: Seq<char>,
    newer: Seq<char>,
)
    requires
        is_kept(files, name, max, older),
        log_package(newer) == Some(name),
        precedes(older, newer),
    ensures
        is_kept(files, name, max, newer),
{
    lemma_later_shrinks(files, name, older, newer);
}

proof fn lemma_later_shrinks(
    files: Seq<Seq<char>>,
    name: Seq<char>,
    older: Seq<char>,
    newer: Seq<char>,
)
    requires
        precedes(older, newer),
    ensures
        later_logs(files, name, newer) <= later_logs(files, name, older),
    decreases files.len(),
{
    if files.len() > 0 {
        lemma_later_shrinks(files.drop_last(), name, older, newer);
        if precedes(newer, files.last()) {
            law_precedes_transitive(older, newer, files.last());
        }
    }
}

/// The log of a build is taken for a log of its package, where its time takes fifteen bytes.
pub proof fn law_log_name_reads_back(name: Seq<char>, timestamp: Seq<char>)
    requires
        name.len() > 0,
        timestamp.len() == 15,
        forall|i: int| 0 <= i < 15 ==> (#[trigger] timestamp[i] as u32) < 0x80,
    ensures
        log_package(build_log_file(name, timestamp)) == Some(name),
{
    reveal_strlit(".log");
    reveal_strlit("-");
    let file = build_log_file(name, timestamp);
    let stem = name + "-"@ + timestamp;
    assert(file =~= stem + ".log"@);
    assert(file.skip(file.len() - 4) =~= ".log"@);
    assert(file.take(file.len() - 4) =~= stem);
    lemma_ascii_tail(stem, 16);
    assert(stem.take(name.len() as int) =~= name);
}

proof fn lemma_ascii_tail(s: Seq<char>, n: nat)
    requires
        n <= s.len(),
        forall|i: int| s.len() - n <= i < s.len() ==> (#[trigger] s[i] as u32) < 0x80,
    ensures
        tail_start(s, n) == Some(s.len() - n),
    decreases n,
{
    if n > 0 {
        assert((s[s.len() - 1] as u32) < 0x80);
        let front = s.drop_last();
        let k = (n - 1) as nat;
        assert forall|i: int| front.len() - k <= i < front.len() implies (#[trigger] front[i]
            as u32) < 0x80 by {
            assert(front[i] == s[i]);
        }
        lemma_ascii_tail(front, k);
    }
}

/// How many of the files are logs of the package `name`.
pub open spec fn logs_of(files: Seq<Seq<char>>, name: Seq<char>) -> nat
    decreases files.len(),
{
    if files.len() == 0 {
        0
    } else {
        logs_of(files.drop_last(), name) + if log_package(files.last()) == Some(name) {
            1nat
        } else {
            0nat
        }
    }
}

/// Pruning takes nothing away where there are not more than `max` logs of a package, and never a
/// file that is no log of a package.
pub proof fn law_prune_keeps_few(files: Seq<Seq<char>>, i: int, name: Seq<char>, max: nat)
    requires
        0 <= i < files.len(),
    ensures
        log_package(files[i]) == Some(name) && logs_of(files, name) <= max ==> !is_excess(
            files,
            files[i],
            max,
        ),
        log_package(files[i]) is None ==> !is_excess(files, files[i], max),
{
    if log_package(files[i]) == Some(name) {
        lemma_later_are_fewer(files, i, name);
    }
}

/// Fewer logs come after a log of a package than there are of it.
proof fn lemma_later_are_fewer(files: Seq<Seq<char>>, i: int, name: Seq<char>)
    requires
        0 <= i < files.len(),
        log_package(files[i]) == Some(name),
    ensures
        later_logs(files, name, files[i]) < logs_of(files, name),
    decreases files.len(),
{
    let front = files.drop_last();
    if i < front.len() {
        assert(front[i] == files[i]);
        lemma_later_are_fewer(front, i, name);
    } else {
        lemma_later_at_most(front, name, files[i]);
        law_precedes_irreflexive(files[i]);
    }
}

proof fn lemma_later_at_most(files: Seq<Seq<char>>, name: Seq<char>, file: Seq<char>)
    ensures
        later_logs(files, name, file) <= logs_of(files, name),
    decreases files.len(),
{
    if files.len() > 0 {
        lemma_later_at_most(files.drop_last(), name, file);
    }
}

/// What is reported of a build: that it finished, or that it failed with the last of its errors,
/// fifty at most, in order; always with the path of its log.
pub proof fn law_build_is_reported(
    name: Seq<char>,
    stderr: Seq<Seq<char>>,
    log_path: Seq<char>,
    reason: Seq<char>,
)
    ensures
        report_of(name, OutcomeModel::Succeeded, stderr, log_path) == BuildMsgModel::Finished(
            name,
            log_path,
        ),
        report_of(name, OutcomeModel::Error(reason), stderr, log_path) == BuildMsgModel::Failed(
            name,
            seq![reason],
            log_path,
        ),
        report_of(name, OutcomeModel::Failed, stderr, log_path) is Failed,
        report_of(name, OutcomeModel::Failed, stderr, log_path)->Failed_0 == name,
        report_of(name, OutcomeModel::Failed, stderr, log_path)->Failed_2 == log_path,
        ({
            let errors = report_of(name, OutcomeModel::Failed, stderr, log_path)->Failed_1;
            &&& 0 < stderr.len() <= 50 ==> errors == stderr
            &&& stderr.len() > 50 ==> errors.len() == 50 && forall|i: int|
                0 <= i < 50 ==> #[trigger] errors[i] == stderr[stderr.len() - 50 + i]
            &&& stderr.len() == 0 ==> errors.len() == 1
        }),
{
}

/// A log gets every line of the errors of a build that ran, in order and marked, whether it failed
/// or not.
pub proof fn law_errors_are_logged(
    ran: bool,
    stderr: Seq<Seq<char>>,
    log_path: Seq<char>,
    i: int,
)
    requires
        log_path.len() > 0,
        0 <= i < stderr.len(),
    ensures
        log_tail(if ran {
            OutcomeModel::Succeeded
        } else {
            OutcomeModel::Failed
        }, stderr, log_path).len() == stderr.len(),
        log_tail(if ran {
            OutcomeModel::Succeeded
        } else {
            OutcomeModel::Failed
        }, stderr, log_path)[i] == "ERR: "@ + stderr[i],
{
}

/// What is left over is what is in the build directories of the master directories, all of them,
/// and nothing of other directories.
pub proof fn law_leftovers(dirs: Seq<(Seq<char>, Seq<Seq<char>>)>, x: Seq<char>)
    ensures
        sort_texts(leftovers(dirs)).contains(x) <==> exists|k: int|
            0 <= k < dirs.len() && starts_with((#[trigger] dirs[k]).0, "masterdir"@)
                && dirs[k].1.contains(x),
        is_sorted(sort_texts(leftovers(dirs))),
{
    lemma_leftovers(dirs, x);
    lemma_sort_texts(leftovers(dirs));
}

proof fn lemma_leftovers(dirs: Seq<(Seq<char>, Seq<Seq<char>>)>, x: Seq<char>)
    ensures
        leftovers(dirs).contains(x) <==> exists|k: int|
            0 <= k < dirs.len() && starts_with((#[trigger] dirs[k]).0, "masterdir"@)
                && dirs[k].1.contains(x),
    decreases dirs.len(),
{
    if dirs.len() > 0 {
        let front = dirs.drop_last();
        let end = dirs[dirs.len() - 1];
        lemma_leftovers(front, x);
        let before = leftovers(front);
        let all = before + end.1;
        if before.contains(x) {
            let i = choose|i: int| 0 <= i < before.len() && before[i] == x;
            assert(all[i] == x);
            let k = choose|k: int|
                0 <= k < front.len() && starts_with((#[trigger] front[k]).0, "masterdir"@)
                    && front[k].1.contains(x);
            assert(dirs[k] == front[k]);
        }
        if end.1.contains(x) {
            let i = choose|i: int| 0 <= i < end.1.len() && end.1[i] == x;
            assert(all[before.len() + i] == x);
        }
        if all.contains(x) {
            let i = choose|i: int| 0 <= i < all.len() && all[i] == x;
            if i < before.len() {
                assert(before.contains(before[i]));
            } else {
                assert(end.1.contains(end.1[i - before.len()]));
            }
        }
        if exists|k: int|
            0 <= k < dirs.len() && starts_with((#[trigger] dirs[k]).0, "masterdir"@)
                && dirs[k].1.contains(x) {
            let k = choose|k: int|
                0 <= k < dirs.len() && starts_with((#[trigger] dirs[k]).0, "masterdir"@)
                    && dirs[k].1.contains(x);
            if k < front.len() {
                assert(front[k] == dirs[k]);
            }
        }
    }
}

/// A build waits for an answer exactly where something is left over or has to be compiled; cleaning
/// up is offered exactly where something is left over.
pub proof fn law_warnings_say_what_was_found(left: Seq<Seq<char>>, deps: Seq<Seq<char>>)
    ensures
        warnings_for(left, deps).len() == 0 <==> left.len() == 0 && deps.len() == 0,
        (exists|i: int|
            0 <= i < warnings_for(left, deps).len() && (#[trigger] warnings_for(
                left,
                deps,
            )[i]).cleanable) <==> left.len() > 0,
        (exists|i: int|
            0 <= i < warnings_for(left, deps).len() && !(#[trigger] warnings_for(
                left,
                deps,
            )[i]).cleanable) <==> deps.len() > 0,
{
    let w = warnings_for(left, deps);
    if left.len() > 0 {
        assert(w[0].cleanable);
        if deps.len() > 0 {
            assert(!w[1].cleanable);
        }
    } else if deps.len() > 0 {
        assert(!w[0].cleanable);
    }
}

/// A dependency with a template is compiled exactly where there is no binary package of it, or an
/// older one.
pub proof fn law_compiled_without_binary(template: Seq<char>, binary: Seq<char>)
    ensures
        is_compiled(Some(template), None),
        is_compiled(Some(template), Some(binary)) <==> is_newer(template, binary),
        !is_compiled(None, Some(binary)),
        !is_compiled(None, None),
{
}

/// The version of a binary package is read behind its name, without its revision.
pub proof fn law_binary_version_is_read(
    name: Seq<char>,
    version: Seq<char>,
    revision: Seq<char>,
)
    requires
        is_word(name),
        is_word(version),
        is_word(revision),
        !version.contains('-'),
        !version.contains('_'),
        !revision.contains('-'),
    ensures
        version_in(name + "-"@ + (version + "_"@ + revision)) == Some(version),
{
    reveal_strlit("-");
    reveal_strlit("_");
    let v = version + "_"@ + revision;
    let t = name + "-"@ + v;
    let n = name.len() as int;
    assert(t[0] == name[0]);
    assert(t.last() == revision[revision.len() - 1]);
    assert(trim_start(t) == t);
    assert(trim(t) == t);
    lemma_rfind_char(t, '-');
    assert(t[n] == '-');
    let i = rfind_char(t, '-')->0;
    if i > n {
        let k = i - n - 1;
        assert(v[k] == '-');
        if k < version.len() {
            assert(version.contains(version[k]));
        } else if k > version.len() {
            assert(revision.contains(revision[k - version.len() - 1]));
        }
        assert(false);
    }
    assert(t.skip(n + 1) =~= v);
    let m = version.len() as int;
    assert(v[m] == '_');
    assert forall|j: int| 0 <= j < m implies v[j] != '_' by {
        assert(v[j] == version[j]);
        assert(version.contains(version[j]));
    }
    lemma_find_char_is(v, '_', m);
    assert(v.take(m) =~= version);
}

/// What a package needs for its build is every name that stands on a line of one of the lists, and
/// nothing else.
pub proof fn law_line_is_dependency(lists: Seq<Seq<char>>, k: int, i: int)
    requires
        0 <= k < lists.len(),
        0 <= i < lines(lists[k]).len(),
        trim(lines(lists[k])[i]).len() > 0,
    ensures
        is_dependency(lists, trim(lines(lists[k])[i])),
        !is_dependency(lists, Seq::<char>::empty()),
{
    let name = trim(lines(lists[k])[i]);
    assert(trim(lines(lists[k])[i]) == name);
    assert(is_listed(lines(lists[k]), name));
}

/// A preview names all of a few names, and of more the first ones and how many there are besides.
pub proof fn law_preview_counts_the_rest(names: Seq<Seq<char>>, n: nat)
    ensures
        names.len() <= n ==> preview(names, n) == join(names, ", "@),
        names.len() > n ==> preview(names, n) == join(names.take(n as int), ", "@) + ", +"@
            + decimal((names.len() - n) as nat) + " more"@,
{
}

/// The cache is where the environment says, else in the home directory.
pub proof fn law_cache_root(xdg: Seq<char>, home: Seq<char>)
    ensures
        cache_root(Some(xdg), Some(home)) == xdg,
        cache_root(Some(xdg), None) == xdg,
        cache_root(None, Some(home)) == home + "/.cache"@,
{
}

} // verus!
