//! Upstream versions: where to ask for them, what the answers say, and how long they hold.

use vstd::prelude::*;
use vstd::slice::slice_subrange;

use crate::line::is_word;
use crate::package::{models, Package, PackageModel};
use crate::table::TextMap;
use crate::text::{
    cat, chars_of, drop_prefix, ends_with, find_char, find_text, has_text, index_of, is_white,
    lemma_find_char, lemma_find_char_is, lemma_find_text, lemma_trim_end_len, lines, lines_of,
    mentions, runs, split_at_char, split_at_text, split_char, split_text, starts_with, text_of,
    trim, trim_end, trim_start, trim_end_text,
    trimmed, trimmed_end_text, without_prefix,
};

verus! {

broadcast use vstd::seq_lib::group_seq_properties;

/// For how many seconds an answer holds.
pub const CACHE_TTL_SECS: u64 = 3600;

// ---------------------------------------------------------------------------------------------
// Where to ask
// ---------------------------------------------------------------------------------------------

/// What stands before the first `c`, or all of `s` without one.
pub open spec fn before_char(s: Seq<char>, c: char) -> Seq<char> {
    match find_char(s, c) {
        Some(i) => s.take(i),
        None => s,
    }
}

/// The owner and the repository in an address at `github.com`, without a `.git` behind it. What
/// stands behind a `>` is a file name and no part of the address.
pub open spec fn github_repo(url: Seq<char>) -> Option<(Seq<char>, Seq<char>)> {
    let parts = split_text(before_char(url, '>'), "github.com/"@);
    if parts.len() < 2 {
        None
    } else {
        let path = split_char(parts[1], '/');
        if path.len() < 2 {
            None
        } else {
            let repo = trim_end_text(path[1], ".git"@);
            if path[0].len() > 0 && repo.len() > 0 {
                Some((path[0], repo))
            } else {
                None
            }
        }
    }
}

/// The repository of a package: the first one that its source, its home page or its list of
/// changes names.
pub open spec fn repo_of(p: PackageModel) -> Option<(Seq<char>, Seq<char>)> {
    if github_repo(p.distfiles) is Some {
        github_repo(p.distfiles)
    } else if github_repo(p.homepage) is Some {
        github_repo(p.homepage)
    } else {
        github_repo(p.changelog)
    }
}

/// The texts behind a pair of strings.
pub open spec fn pair_opt(o: Option<(String, String)>) -> Option<(Seq<char>, Seq<char>)> {
    match o {
        Some((a, b)) => Some((a@, b@)),
        None => None,
    }
}

/// What stands before the first `c`, or all of `s` without one.
pub fn up_to_char(s: &[char], c: char) -> (r: &[char])
    ensures
        r@ == before_char(s@, c),
{
    match index_of(s, c) {
        Some(i) => {
            assert(s@.take(i as int) =~= s@.subrange(0, i as int));
            slice_subrange(s, 0, i)
        },
        None => s,
    }
}

/// The owner and the repository in an address at `github.com`.
pub fn parse_github_url(url: &str) -> (r: Option<(String, String)>)
    ensures
        pair_opt(r) == github_repo(url@),
{
    let c = chars_of(url);
    proof {
        reveal_strlit("github.com/");
    }
    let parts = split_at_text(up_to_char(c.as_slice(), '>'), "github.com/");
    if parts.len() < 2 {
        return None;
    }
    assert(runs(parts@)[1] == parts@[1]@);
    let path = split_at_char(parts[1], '/');
    if path.len() < 2 {
        return None;
    }
    assert(runs(path@)[0] == path@[0]@);
    assert(runs(path@)[1] == path@[1]@);
    let owner = path[0];
    let repo = trimmed_end_text(path[1], ".git");
    if owner.len() > 0 && repo.len() > 0 {
        Some((text_of(owner), text_of(repo)))
    } else {
        None
    }
}

/// The repository of a package.
pub fn extract_github_repo(p: &Package) -> (r: Option<(String, String)>)
    ensures
        pair_opt(r) == repo_of(p@),
{
    let by_source = parse_github_url(p.distfiles.as_str());
    if by_source.is_some() {
        return by_source;
    }
    let by_home = parse_github_url(p.homepage.as_str());
    if by_home.is_some() {
        return by_home;
    }
    parse_github_url(p.changelog.as_str())
}

/// Where to ask for the latest release of a repository.
pub open spec fn release_url(repo: (Seq<char>, Seq<char>)) -> Seq<char> {
    "https://api.github.com/repos/"@ + repo.0 + "/"@ + repo.1 + "/releases/latest"@
}

/// Where to ask for the tags of a repository, the newest first.
pub open spec fn tags_url(repo: (Seq<char>, Seq<char>)) -> Seq<char> {
    "https://api.github.com/repos/"@ + repo.0 + "/"@ + repo.1 + "/tags?per_page=1"@
}

fn repo_url(owner: &str, repo: &str, end: &str) -> (r: String)
    ensures
        r@ == "https://api.github.com/repos/"@ + owner@ + "/"@ + repo@ + end@,
{
    let base = cat("https://api.github.com/repos/", owner);
    let slash = cat(base.as_str(), "/");
    let path = cat(slash.as_str(), repo);
    cat(path.as_str(), end)
}

// ---------------------------------------------------------------------------------------------
// What the answers say
// ---------------------------------------------------------------------------------------------

/// The version that a tag stands for: without a `v`, then without a `release-` in front.
pub open spec fn tag_version(tag: Seq<char>) -> Seq<char> {
    without_prefix(without_prefix(tag, "v"@), "release-"@)
}

/// The version that a tag stands for.
pub fn clean_version_tag(tag: &str) -> (r: String)
    ensures
        r@ == tag_version(tag@),
{
    let c = chars_of(tag);
    text_of(drop_prefix(drop_prefix(c.as_slice(), "v"), "release-"))
}

/// The version in a line like `foo-1.0_1 update to 1.1_1`: what stands between `update to` and
/// the next one, trimmed, up to the revision.
pub open spec fn offered_in(line: Seq<char>) -> Option<Seq<char>> {
    if has_text(line, "update to"@) {
        Some(before_char(trim(split_text(line, "update to"@)[1]), '_'))
    } else {
        None
    }
}

/// The version in the first of `ls` that offers one.
pub open spec fn offered(ls: Seq<Seq<char>>) -> Option<Seq<char>>
    decreases ls.len(),
{
    if ls.len() == 0 {
        None
    } else if offered_in(ls[0]) is Some {
        offered_in(ls[0])
    } else {
        offered(ls.drop_first())
    }
}

/// The version that an update check of the build system offers, if any.
pub fn offered_version(stdout: &str) -> (r: Option<String>)
    ensures
        match r {
            Some(v) => offered(lines(stdout@)) == Some(v@),
            None => offered(lines(stdout@)) is None,
        },
{
    let text = chars_of(stdout);
    let all = lines_of(text.as_slice());
    let ghost ls = lines(stdout@);
    let mut i: usize = 0;
    assert(ls.skip(0) =~= ls);
    while i < all.len()
        invariant
            i <= all@.len(),
            runs(all@) == ls,
            ls == lines(stdout@),
            offered(ls) == offered(ls.skip(i as int)),
        decreases all@.len() - i,
    {
        proof {
            assert(runs(all@)[i as int] == all@[i as int]@);
            assert(ls.skip(i as int)[0] == ls[i as int]);
            assert(ls.skip(i as int).drop_first() =~= ls.skip(i + 1));
            reveal_strlit("update to");
            lemma_split_in_two(ls[i as int], "update to"@);
        }
        let line = all[i];
        if mentions(line, "update to") {
            let parts = split_at_text(line, "update to");
            assert(runs(parts@)[1] == parts@[1]@);
            return Some(text_of(up_to_char(trimmed(parts[1]), '_')));
        }
        i += 1;
    }
    None
}

/// A text that holds `pat` falls into at least two parts at it.
proof fn lemma_split_in_two(s: Seq<char>, pat: Seq<char>)
    requires
        pat.len() > 0,
    ensures
        has_text(s, pat) ==> split_text(s, pat).len() >= 2,
{
    if has_text(s, pat) {
        let i = find_text(s, pat)->0;
        let rest = s.skip(i + pat.len());
        assert(split_text(rest, pat).len() >= 1);
    }
}

// ---------------------------------------------------------------------------------------------
// The cache
// ---------------------------------------------------------------------------------------------

/// A version that an upstream was found to be at.
#[derive(Debug)]
pub struct CacheEntry {
    pub version: String,
    pub timestamp: u64,
}

/// What a `CacheEntry` holds.
pub struct EntryModel {
    pub version: Seq<char>,
    pub timestamp: u64,
}

impl View for CacheEntry {
    type V = EntryModel;

    open spec fn view(&self) -> EntryModel {
        EntryModel { version: self.version@, timestamp: self.timestamp }
    }
}

/// The versions that were found, by package.
#[derive(Debug)]
pub struct VersionCache {
    pub entries: TextMap<CacheEntry>,
}

impl View for VersionCache {
    type V = Map<Seq<char>, EntryModel>;

    open spec fn view(&self) -> Map<Seq<char>, EntryModel> {
        Map::new(
            |k: Seq<char>| self.entries@.contains_key(k),
            |k: Seq<char>| self.entries@[k]@,
        )
    }
}

/// Whether the cache holds a version of `name` that is not too old at `now`.
pub open spec fn is_fresh(cache: Map<Seq<char>, EntryModel>, name: Seq<char>, now: u64) -> bool {
    &&& cache.contains_key(name)
    &&& cache[name].timestamp <= now
    &&& now - cache[name].timestamp < CACHE_TTL_SECS
}

impl VersionCache {
    pub fn new() -> (r: Self)
        ensures
            r@ == Map::<Seq<char>, EntryModel>::empty(),
            r.entries.wf(),
    {
        let r = VersionCache { entries: TextMap::new() };
        assert(r@ =~= Map::<Seq<char>, EntryModel>::empty());
        r
    }

    /// The version of `name` that is not too old at `now`, and its age.
    pub fn fresh(&self, name: &str, now: u64) -> (r: Option<(String, u64)>)
        ensures
            match r {
                Some((v, age)) => is_fresh(self@, name@, now) && v@ == self@[name@].version && age
                    == now - self@[name@].timestamp,
                None => !is_fresh(self@, name@, now),
            },
    {
        match self.entries.get(name) {
            Some(entry) => {
                assert(self@[name@] == entry@);
                if entry.timestamp <= now && now - entry.timestamp < CACHE_TTL_SECS {
                    Some((entry.version.clone(), now - entry.timestamp))
                } else {
                    None
                }
            },
            None => None,
        }
    }

    /// Puts in the version that `name` was found to be at.
    pub fn store(&mut self, name: &str, version: &str, now: u64)
        ensures
            final(self)@ == old(self)@.insert(
                name@,
                EntryModel { version: version@, timestamp: now },
            ),
            old(self).entries.wf() ==> final(self).entries.wf(),
    {
        let ghost before = self@;
        let entry = CacheEntry { version: version.to_owned(), timestamp: now };
        self.entries.insert(name.to_owned(), entry);
        assert(self@ =~= before.insert(name@, entry@));
    }

    /// When an upstream was last found to be at some version.
    pub fn last_check_time(&self) -> (r: Option<u64>)
        ensures
            match r {
                Some(t) => {
                    &&& exists|i: int|
                        0 <= i < self.entries.entries@.len()
                            && #[trigger] self.entries.entries@[i].1.timestamp == t
                    &&& forall|i: int|
                        0 <= i < self.entries.entries@.len()
                            ==> #[trigger] self.entries.entries@[i].1.timestamp <= t
                },
                None => self.entries.entries@.len() == 0,
            },
    {
        let list = &self.entries.entries;
        if list.len() == 0 {
            return None;
        }
        let mut best: u64 = list[0].1.timestamp;
        let mut i: usize = 1;
        while i < list.len()
            invariant
                1 <= i <= list@.len(),
                list@ == self.entries.entries@,
                exists|k: int| 0 <= k < i && #[trigger] list@[k].1.timestamp == best,
                forall|k: int| 0 <= k < i ==> #[trigger] list@[k].1.timestamp <= best,
            decreases list@.len() - i,
        {
            if list[i].1.timestamp > best {
                best = list[i].1.timestamp;
                assert(list@[i as int].1.timestamp == best);
            }
            i += 1;
        }
        Some(best)
    }
}

// ---------------------------------------------------------------------------------------------
// A sweep over the packages
// ---------------------------------------------------------------------------------------------

/// What a sweep reports.
#[derive(Debug)]
pub enum VersionMsg {
    /// A package, the version that its upstream is at, and the age of this knowledge where it
    /// comes out of the cache.
    Found(String, String, Option<u64>),
    /// The sweep is over: how many versions were found, and whether requests were refused for
    /// their number.
    Done(usize, bool),
}

/// What a `VersionMsg` holds.
pub enum MsgModel {
    Found(Seq<char>, Seq<char>, Option<u64>),
    Done(nat, bool),
}

impl View for VersionMsg {
    type V = MsgModel;

    open spec fn view(&self) -> MsgModel {
        match self {
            VersionMsg::Found(n, v, age) => MsgModel::Found(n@, v@, *age),
            VersionMsg::Done(count, limited) => MsgModel::Done(*count as nat, *limited),
        }
    }
}

/// What a sweep waits for.
#[derive(Debug, Clone, Copy, PartialEq, Eq, Structural)]
pub enum Stage {
    /// Nothing: it can go on.
    Ready,
    /// The latest release of the package's repository.
    Release,
    /// The tags of the package's repository.
    Tags,
    /// The build system's update check of the package.
    Source,
    /// Nothing: it is over.
    Over,
}

/// What comes back to a sweep.
#[derive(Debug)]
pub enum Reply {
    /// Nothing was asked.
    Nothing,
    /// The name of the latest release or the newest tag.
    Tag(String),
    /// There is no release or tag to be had, and whether that is for too many requests.
    NoTag(bool),
    /// What the build system's update check printed.
    Printed(String),
    /// The question could not be asked or the answer not read.
    Failed,
}

/// What a `Reply` holds.
pub enum ReplyModel {
    Nothing,
    Tag(Seq<char>),
    NoTag(bool),
    Printed(Seq<char>),
    Failed,
}

impl View for Reply {
    type V = ReplyModel;

    open spec fn view(&self) -> ReplyModel {
        match self {
            Reply::Nothing => ReplyModel::Nothing,
            Reply::Tag(t) => ReplyModel::Tag(t@),
            Reply::NoTag(limited) => ReplyModel::NoTag(*limited),
            Reply::Printed(s) => ReplyModel::Printed(s@),
            Reply::Failed => ReplyModel::Failed,
        }
    }
}

/// Whether a request was refused for the number of requests, by the status of the answer.
pub open spec fn is_rate_limit(code: u16) -> bool {
    code == 403 || code == 429
}

/// What a request that was refused comes to, by the status of the answer.
pub fn refused(code: u16) -> (r: Reply)
    ensures
        r@ == ReplyModel::NoTag(is_rate_limit(code)),
{
    Reply::NoTag(code == 403 || code == 429)
}

/// What a sweep wants done.
#[derive(Debug)]
pub enum Action {
    /// Pass on a message, and go on.
    Report(VersionMsg),
    /// Ask at this address for the latest release.
    AskRelease(String),
    /// Ask at this address for the newest tag.
    AskTags(String),
    /// Have the build system check this package for updates.
    AskSource(String),
    /// Nothing: go on.
    Next,
    /// Nothing: the sweep is over.
    End,
}

/// What an `Action` holds.
pub enum ActionModel {
    Report(MsgModel),
    AskRelease(Seq<char>),
    AskTags(Seq<char>),
    AskSource(Seq<char>),
    Next,
    End,
}

impl View for Action {
    type V = ActionModel;

    open spec fn view(&self) -> ActionModel {
        match self {
            Action::Report(m) => ActionModel::Report(m@),
            Action::AskRelease(url) => ActionModel::AskRelease(url@),
            Action::AskTags(url) => ActionModel::AskTags(url@),
            Action::AskSource(name) => ActionModel::AskSource(name@),
            Action::Next => ActionModel::Next,
            Action::End => ActionModel::End,
        }
    }
}

/// A sweep over the packages that asks for the version of each.
#[derive(Debug)]
pub struct Sweep {
    /// Whether to ask although the cache has a fresh answer.
    pub force: bool,
    /// When the sweep began.
    pub now: u64,
    pub cache: VersionCache,
    /// The package that is looked at.
    pub at: usize,
    pub stage: Stage,
    /// How many versions were found.
    pub count: usize,
    /// Whether requests were refused for their number.
    pub rate_limited: bool,
}

/// What a `Sweep` holds.
pub struct SweepModel {
    pub force: bool,
    pub now: u64,
    pub cache: Map<Seq<char>, EntryModel>,
    pub at: nat,
    pub stage: Stage,
    pub count: nat,
    pub rate_limited: bool,
}

impl View for Sweep {
    type V = SweepModel;

    open spec fn view(&self) -> SweepModel {
        SweepModel {
            force: self.force,
            now: self.now,
            cache: self.cache@,
            at: self.at as nat,
            stage: self.stage,
            count: self.count as nat,
            rate_limited: self.rate_limited,
        }
    }
}

/// The sweep is at one of the packages, or behind the last one; it has found at most one version
/// for each package before; it waits for a repository's answer only where the package has one.
pub open spec fn sweep_wf(m: SweepModel, ps: Seq<PackageModel>) -> bool {
    &&& m.count <= m.at <= ps.len()
    &&& m.stage == Stage::Release || m.stage == Stage::Tags || m.stage == Stage::Source ==> m.at
        < ps.len()
    &&& m.stage == Stage::Release || m.stage == Stage::Tags ==> repo_of(ps[m.at as int]) is Some
}

/// The sweep after the version of the package at hand was found.
pub open spec fn settled(m: SweepModel, ps: Seq<PackageModel>, version: Seq<char>) -> (
    SweepModel,
    ActionModel,
) {
    let name = ps[m.at as int].name;
    (
        SweepModel {
            cache: m.cache.insert(name, EntryModel { version, timestamp: m.now }),
            at: m.at + 1,
            stage: Stage::Ready,
            count: m.count + 1,
            ..m
        },
        ActionModel::Report(MsgModel::Found(name, version, None)),
    )
}

/// The sweep while the build system is asked about the package at hand.
pub open spec fn to_source(m: SweepModel, ps: Seq<PackageModel>) -> (SweepModel, ActionModel) {
    (
        SweepModel { stage: Stage::Source, ..m },
        ActionModel::AskSource(ps[m.at as int].name),
    )
}

/// One step of a sweep. A fresh version of the cache is reported, unless the sweep is forced.
/// Otherwise the package's repository is asked, first for a release, then for a tag, and where it
/// has none or gives neither, the build system is asked.
pub open spec fn sweep_step(m: SweepModel, ps: Seq<PackageModel>, reply: ReplyModel) -> (
    SweepModel,
    ActionModel,
) {
    let p = ps[m.at as int];
    match m.stage {
        Stage::Ready => if m.at >= ps.len() {
            (
                SweepModel { stage: Stage::Over, ..m },
                ActionModel::Report(MsgModel::Done(m.count, m.rate_limited)),
            )
        } else if !m.force && is_fresh(m.cache, p.name, m.now) {
            let entry = m.cache[p.name];
            let age = (m.now - entry.timestamp) as u64;
            (
                SweepModel { at: m.at + 1, count: m.count + 1, ..m },
                ActionModel::Report(MsgModel::Found(p.name, entry.version, Some(age))),
            )
        } else {
            match repo_of(p) {
                Some(repo) => (
                    SweepModel { stage: Stage::Release, ..m },
                    ActionModel::AskRelease(release_url(repo)),
                ),
                None => to_source(m, ps),
            }
        },
        Stage::Release => match reply {
            ReplyModel::Tag(t) => settled(m, ps, tag_version(t)),
            ReplyModel::NoTag(limited) => (
                SweepModel {
                    stage: Stage::Tags,
                    rate_limited: m.rate_limited || limited,
                    ..m
                },
                ActionModel::AskTags(tags_url(repo_of(p)->0)),
            ),
            _ => to_source(m, ps),
        },
        Stage::Tags => match reply {
            ReplyModel::Tag(t) => settled(m, ps, tag_version(t)),
            ReplyModel::NoTag(limited) => to_source(
                SweepModel { rate_limited: m.rate_limited || limited, ..m },
                ps,
            ),
            _ => to_source(m, ps),
        },
        Stage::Source => {
            let version = match reply {
                ReplyModel::Printed(s) => offered(lines(s)),
                _ => None,
            };
            match version {
                Some(v) => settled(m, ps, v),
                None => (
                    SweepModel { at: m.at + 1, stage: Stage::Ready, ..m },
                    ActionModel::Next,
                ),
            }
        },
        Stage::Over => (m, ActionModel::End),
    }
}

impl Sweep {
    /// A sweep that begins now.
    pub fn start(cache: VersionCache, force: bool, now: u64) -> (r: Self)
        ensures
            r@ == (SweepModel {
                force,
                now,
                cache: cache@,
                at: 0,
                stage: Stage::Ready,
                count: 0,
                rate_limited: false,
            }),
    {
        Sweep { force, now, cache, at: 0, stage: Stage::Ready, count: 0, rate_limited: false }
    }

    /// The version of the package at hand was found.
    fn settle(&mut self, packages: &Vec<Package>, version: String) -> (r: Action)
        requires
            sweep_wf(old(self)@, models(packages@)),
            old(self).at < packages@.len(),
        ensures
            (final(self)@, r@) == settled(old(self)@, models(packages@), version@),
    {
        let n: usize = packages.len();
        let name = packages[self.at].name.clone();
        self.cache.store(name.as_str(), version.as_str(), self.now);
        self.at += 1;
        self.stage = Stage::Ready;
        self.count += 1;
        Action::Report(VersionMsg::Found(name, version, None))
    }

    /// The build system is asked about the package at hand.
    fn ask_source(&mut self, packages: &Vec<Package>) -> (r: Action)
        requires
            old(self).at < packages@.len(),
        ensures
            (final(self)@, r@) == to_source(old(self)@, models(packages@)),
    {
        self.stage = Stage::Source;
        Action::AskSource(packages[self.at].name.clone())
    }
}

/// One step of a sweep over `packages`: what to do next, given what came of the step before.
pub fn check_all_versions_streaming(
    sweep: &mut Sweep,
    packages: &Vec<Package>,
    reply: Reply,
) -> (r: Action)
    requires
        sweep_wf(old(sweep)@, models(packages@)),
    ensures
        (final(sweep)@, r@) == sweep_step(old(sweep)@, models(packages@), reply@),
        sweep_wf(final(sweep)@, models(packages@)),
{
    let n: usize = packages.len();
    match sweep.stage {
        Stage::Ready => {
            if sweep.at >= n {
                sweep.stage = Stage::Over;
                return Action::Report(VersionMsg::Done(sweep.count, sweep.rate_limited));
            }
            let p = &packages[sweep.at];
            if !sweep.force {
                if let Some((version, age)) = sweep.cache.fresh(p.name.as_str(), sweep.now) {
                    sweep.at += 1;
                    sweep.count += 1;
                    return Action::Report(VersionMsg::Found(p.name.clone(), version, Some(age)));
                }
            }
            match extract_github_repo(p) {
                Some((owner, repo)) => {
                    sweep.stage = Stage::Release;
                    Action::AskRelease(repo_url(owner.as_str(), repo.as_str(), "/releases/latest"))
                },
                None => sweep.ask_source(packages),
            }
        },
        Stage::Release => match reply {
            Reply::Tag(t) => {
                let version = clean_version_tag(t.as_str());
                sweep.settle(packages, version)
            },
            Reply::NoTag(limited) => {
                sweep.stage = Stage::Tags;
                sweep.rate_limited = sweep.rate_limited || limited;
                match extract_github_repo(&packages[sweep.at]) {
                    Some((owner, repo)) => Action::AskTags(
                        repo_url(owner.as_str(), repo.as_str(), "/tags?per_page=1"),
                    ),
                    None => Action::End,
                }
            },
            _ => sweep.ask_source(packages),
        },
        Stage::Tags => match reply {
            Reply::Tag(t) => {
                let version = clean_version_tag(t.as_str());
                sweep.settle(packages, version)
            },
            Reply::NoTag(limited) => {
                sweep.rate_limited = sweep.rate_limited || limited;
                sweep.ask_source(packages)
            },
            _ => sweep.ask_source(packages),
        },
        Stage::Source => {
            let version = match reply {
                Reply::Printed(s) => offered_version(s.as_str()),
                _ => None,
            };
            match version {
                Some(v) => sweep.settle(packages, v),
                None => {
                    sweep.at += 1;
                    sweep.stage = Stage::Ready;
                    Action::Next
                },
            }
        },
        Stage::Over => Action::End,
    }
}

/// A sweep after some replies, and what it wanted done on the way.
pub open spec fn sweep_run(m: SweepModel, ps: Seq<PackageModel>, replies: Seq<ReplyModel>) -> (
    SweepModel,
    Seq<ActionModel>,
)
    decreases replies.len(),
{
    if replies.len() == 0 {
        (m, Seq::empty())
    } else {
        let (before, done) = sweep_run(m, ps, replies.drop_last());
        let (after, action) = sweep_step(before, ps, replies.last());
        (after, done.push(action))
    }
}

/// Whether an action reports a version.
pub open spec fn is_found(action: ActionModel) -> bool {
    action is Report && action->Report_0 is Found
}

/// The package of which an action reports a version.
pub open spec fn found_name(action: ActionModel) -> Seq<char> {
    action->Report_0->Found_0
}

/// How many versions are reported among `actions`.
pub open spec fn found_among(actions: Seq<ActionModel>) -> nat
    decreases actions.len(),
{
    if actions.len() == 0 {
        0
    } else {
        found_among(actions.drop_last()) + if is_found(actions.last()) {
            1nat
        } else {
            0nat
        }
    }
}

/// Whichever of the two questions about a repository is answered with a tag, the version that is
/// reported, and that the cache then holds, is the tag without a `v` in front, and then without a
/// `release-` in front.
pub proof fn law_tag_gives_version(
    m: SweepModel,
    ps: Seq<PackageModel>,
    tag: Seq<char>,
    version: Seq<char>,
)
    requires
        m.at < ps.len(),
        m.stage == Stage::Release || m.stage == Stage::Tags,
        (tag == "v"@ + version && !starts_with(version, "release-"@)) || tag == "v"@ + (
        "release-"@ + version) || tag == "release-"@ + version || (tag == version && !starts_with(
            version,
            "v"@,
        ) && !starts_with(version, "release-"@)),
    ensures
        ({
            let (after, action) = sweep_step(m, ps, ReplyModel::Tag(tag));
            let name = ps[m.at as int].name;
            &&& action == ActionModel::Report(MsgModel::Found(name, version, None))
            &&& after.cache == m.cache.insert(name, EntryModel { version, timestamp: m.now })
            &&& after.at == m.at + 1
            &&& after.count == m.count + 1
            &&& after.stage == Stage::Ready
            &&& after.rate_limited == m.rate_limited
        }),
{
    reveal_strlit("v");
    reveal_strlit("release-");
    let r = "release-"@;
    let v = "v"@;
    assert((v + version).take(1) =~= v);
    assert((v + version).skip(1) =~= version);
    assert((v + (r + version)).take(1) =~= v);
    assert((v + (r + version)).skip(1) =~= r + version);
    assert((r + version).take(8) =~= r);
    assert((r + version).skip(8) =~= version);
    if starts_with(r + version, v) {
        assert((r + version).take(1)[0] == 'r');
        assert(v[0] == 'v');
        assert(false);
    }
}

/// A sweep counts the versions that it reports, whatever it is answered.
pub proof fn law_sweep_counts_reports(
    m: SweepModel,
    ps: Seq<PackageModel>,
    replies: Seq<ReplyModel>,
)
    ensures
        sweep_run(m, ps, replies).0.count == m.count + found_among(sweep_run(m, ps, replies).1),
    decreases replies.len(),
{
    if replies.len() > 0 {
        law_sweep_counts_reports(m, ps, replies.drop_last());
        let (before, done) = sweep_run(m, ps, replies.drop_last());
        let (after, action) = sweep_step(before, ps, replies.last());
        assert(done.push(action).drop_last() =~= done);
    }
}

/// A sweep goes through the packages in order and reports each at most once: a version that it
/// reports is that of the package at hand, and it then goes on to the next one.
pub proof fn law_sweep_reports_in_order(
    m: SweepModel,
    ps: Seq<PackageModel>,
    reply: ReplyModel,
)
    requires
        sweep_wf(m, ps),
    ensures
        match sweep_step(m, ps, reply).1 {
            ActionModel::Report(MsgModel::Found(name, _, _)) => m.at < ps.len() && name
                == ps[m.at as int].name && sweep_step(m, ps, reply).0.at == m.at + 1,
            _ => sweep_step(m, ps, reply).0.at <= m.at + 1,
        },
        sweep_step(m, ps, reply).0.at >= m.at,
{
}

/// A sweep stays in order over a whole run, and goes on only forwards.
proof fn lemma_run_wf(m: SweepModel, ps: Seq<PackageModel>, replies: Seq<ReplyModel>)
    requires
        sweep_wf(m, ps),
    ensures
        sweep_wf(sweep_run(m, ps, replies).0, ps),
        sweep_run(m, ps, replies).0.at >= m.at,
        sweep_run(m, ps, replies).0.force == m.force,
        sweep_run(m, ps, replies).1.len() == replies.len(),
    decreases replies.len(),
{
    if replies.len() > 0 {
        lemma_run_wf(m, ps, replies.drop_last());
    }
}

/// What a sweep wanted done at the step `k` of a run, by the state that it was in then.
proof fn lemma_run_at(m: SweepModel, ps: Seq<PackageModel>, replies: Seq<ReplyModel>, k: int)
    requires
        0 <= k < replies.len(),
    ensures
        sweep_run(m, ps, replies).1.len() == replies.len(),
        sweep_run(m, ps, replies).1[k] == sweep_step(
            sweep_run(m, ps, replies.take(k)).0,
            ps,
            replies[k],
        ).1,
        sweep_run(m, ps, replies.take(k + 1)).0 == sweep_step(
            sweep_run(m, ps, replies.take(k)).0,
            ps,
            replies[k],
        ).0,
    decreases replies.len(),
{
    let front = replies.drop_last();
    assert(replies.take(k + 1).drop_last() =~= replies.take(k));
    assert(replies.take(k + 1).last() == replies[k]);
    if front.len() > 0 {
        lemma_run_at(m, ps, front, if k < front.len() {
            k
        } else {
            0
        });
    }
    if k < front.len() {
        assert(front.take(k) =~= replies.take(k));
        assert(front.take(k + 1) =~= replies.take(k + 1));
        assert(front[k] == replies[k]);
    } else {
        assert(front =~= replies.take(k));
    }
}

/// Where a sweep stands never goes back.
proof fn lemma_run_forwards(
    m: SweepModel,
    ps: Seq<PackageModel>,
    replies: Seq<ReplyModel>,
    i: int,
    j: int,
)
    requires
        sweep_wf(m, ps),
        0 <= i <= j <= replies.len(),
    ensures
        sweep_run(m, ps, replies.take(i)).0.at <= sweep_run(m, ps, replies.take(j)).0.at,
    decreases j - i,
{
    if i < j {
        lemma_run_forwards(m, ps, replies, i, j - 1);
        lemma_run_at(m, ps, replies, j - 1);
        lemma_run_wf(m, ps, replies.take(j - 1));
    }
}

/// Over a whole run a sweep reports versions in the order of the packages, each package at most
/// once: of two reports the later one is of a package that stands later.
pub proof fn law_sweep_run_reports_in_order(
    m: SweepModel,
    ps: Seq<PackageModel>,
    replies: Seq<ReplyModel>,
    i: int,
    j: int,
)
    requires
        sweep_wf(m, ps),
        0 <= i < j < replies.len(),
        is_found(sweep_run(m, ps, replies).1[i]),
        is_found(sweep_run(m, ps, replies).1[j]),
    ensures
        exists|a: int, b: int|
            0 <= a < b < ps.len() && found_name(sweep_run(m, ps, replies).1[i]) == (
            #[trigger] ps[a]).name && found_name(sweep_run(m, ps, replies).1[j]) == (
            #[trigger] ps[b]).name,
{
    let a = sweep_run(m, ps, replies.take(i)).0.at as int;
    let b = sweep_run(m, ps, replies.take(j)).0.at as int;
    lemma_run_at(m, ps, replies, i);
    lemma_run_at(m, ps, replies, j);
    lemma_run_wf(m, ps, replies.take(i));
    lemma_run_wf(m, ps, replies.take(j));
    law_sweep_reports_in_order(sweep_run(m, ps, replies.take(i)).0, ps, replies[i]);
    law_sweep_reports_in_order(sweep_run(m, ps, replies.take(j)).0, ps, replies[j]);
    lemma_run_forwards(m, ps, replies, i + 1, j);
    assert(0 <= a < b < ps.len() && found_name(sweep_run(m, ps, replies).1[i]) == ps[a].name
        && found_name(sweep_run(m, ps, replies).1[j]) == ps[b].name);
}

/// How far a sweep is from its end.
pub open spec fn steps_left(m: SweepModel, ps: Seq<PackageModel>) -> int {
    4 * (ps.len() - m.at) + match m.stage {
        Stage::Ready => 3int,
        Stage::Release => 2,
        Stage::Tags => 1,
        Stage::Source => 0,
        Stage::Over => 0,
    }
}

/// A sweep ends, whatever it is answered: every step brings it nearer to its end.
pub proof fn law_sweep_ends(m: SweepModel, ps: Seq<PackageModel>, reply: ReplyModel)
    requires
        sweep_wf(m, ps),
        m.stage != Stage::Over,
    ensures
        0 <= steps_left(sweep_step(m, ps, reply).0, ps) < steps_left(m, ps),
{
}

/// A sweep that was answered often enough is over, whatever the answers were.
pub proof fn law_sweep_run_ends(m: SweepModel, ps: Seq<PackageModel>, replies: Seq<ReplyModel>)
    requires
        sweep_wf(m, ps),
        replies.len() >= steps_left(m, ps),
    ensures
        sweep_run(m, ps, replies).0.stage == Stage::Over,
{
    lemma_run_steps(m, ps, replies);
    let end = sweep_run(m, ps, replies).0;
    if end.stage != Stage::Over {
        lemma_run_wf(m, ps, replies);
        law_sweep_ends(end, ps, ReplyModel::Nothing);
    }
}

/// A sweep that is not over has come nearer to its end with each answer.
proof fn lemma_run_steps(m: SweepModel, ps: Seq<PackageModel>, replies: Seq<ReplyModel>)
    requires
        sweep_wf(m, ps),
    ensures
        ({
            let end = sweep_run(m, ps, replies).0;
            end.stage == Stage::Over || steps_left(end, ps) <= steps_left(m, ps) - replies.len()
        }),
    decreases replies.len(),
{
    if replies.len() > 0 {
        let before = sweep_run(m, ps, replies.drop_last()).0;
        lemma_run_steps(m, ps, replies.drop_last());
        lemma_run_wf(m, ps, replies.drop_last());
        if before.stage != Stage::Over {
            law_sweep_ends(before, ps, replies.last());
        }
    }
}

/// Over a whole run a forced sweep reports nothing out of the cache.
pub proof fn law_forced_run_asks(
    m: SweepModel,
    ps: Seq<PackageModel>,
    replies: Seq<ReplyModel>,
    k: int,
)
    requires
        sweep_wf(m, ps),
        m.force,
        0 <= k < replies.len(),
    ensures
        match sweep_run(m, ps, replies).1[k] {
            ActionModel::Report(MsgModel::Found(_, _, age)) => age is None,
            _ => true,
        },
{
    let at = sweep_run(m, ps, replies.take(k)).0;
    lemma_run_at(m, ps, replies, k);
    lemma_run_wf(m, ps, replies.take(k));
    law_forced_sweep_asks(at, ps, replies[k]);
}

/// A forced sweep reports nothing out of the cache.
pub proof fn law_forced_sweep_asks(m: SweepModel, ps: Seq<PackageModel>, reply: ReplyModel)
    requires
        m.force,
    ensures
        match sweep_step(m, ps, reply).1 {
            ActionModel::Report(MsgModel::Found(_, _, age)) => age is None,
            _ => true,
        },
{
}

/// A version that was found holds for an hour: a sweep that is not forced then reports it without
/// asking.
pub proof fn law_found_version_holds(
    m: SweepModel,
    ps: Seq<PackageModel>,
    version: Seq<char>,
    later: SweepModel,
    reply: ReplyModel,
)
    requires
        m.at < ps.len(),
        m.now <= later.now < m.now + 3600,
        later.cache == settled(m, ps, version).0.cache,
        later.at == m.at,
        later.stage == Stage::Ready,
        !later.force,
    ensures
        sweep_step(later, ps, reply).1 == ActionModel::Report(
            MsgModel::Found(ps[m.at as int].name, version, Some((later.now - m.now) as u64)),
        ),
{
}

/// A package that is due is asked about in turn: its repository for the latest release, then for
/// its newest tag, then the build system; where none of them knows a version, the sweep goes on to
/// the next package. That GitHub refused one of the questions is kept.
pub proof fn law_questions_come_in_turn(
    m: SweepModel,
    ps: Seq<PackageModel>,
    owner: Seq<char>,
    repo: Seq<char>,
    first: ReplyModel,
    refused_release: bool,
    refused_tags: bool,
)
    requires
        m.at < ps.len(),
        m.stage == Stage::Ready,
        m.force || !is_fresh(m.cache, ps[m.at as int].name, m.now),
        repo_of(ps[m.at as int]) == Some((owner, repo)),
    ensures
        ({
            let base = "https://api.github.com/repos/"@ + owner + "/"@ + repo;
            let (m1, a1) = sweep_step(m, ps, first);
            let (m2, a2) = sweep_step(m1, ps, ReplyModel::NoTag(refused_release));
            let (m3, a3) = sweep_step(m2, ps, ReplyModel::NoTag(refused_tags));
            let (m4, a4) = sweep_step(m3, ps, ReplyModel::Failed);
            &&& a1 == ActionModel::AskRelease(base + "/releases/latest"@)
            &&& a2 == ActionModel::AskTags(base + "/tags?per_page=1"@)
            &&& a3 == ActionModel::AskSource(ps[m.at as int].name)
            &&& a4 == ActionModel::Next
            &&& m4 == (SweepModel {
                at: m.at + 1,
                rate_limited: m.rate_limited || refused_release || refused_tags,
                ..m
            })
        }),
{
}

/// A package that is due and has no repository is asked about at the build system alone.
pub proof fn law_build_system_is_asked(m: SweepModel, ps: Seq<PackageModel>, reply: ReplyModel)
    requires
        m.at < ps.len(),
        m.stage == Stage::Ready,
        m.force || !is_fresh(m.cache, ps[m.at as int].name, m.now),
        repo_of(ps[m.at as int]) is None,
    ensures
        sweep_step(m, ps, reply).1 == ActionModel::AskSource(ps[m.at as int].name),
        sweep_step(m, ps, reply).0 == (SweepModel { stage: Stage::Source, ..m }),
{
}

/// The version that the build system offers is reported, and the cache then holds it.
pub proof fn law_offer_gives_version(
    m: SweepModel,
    ps: Seq<PackageModel>,
    output: Seq<char>,
    version: Seq<char>,
)
    requires
        m.at < ps.len(),
        m.stage == Stage::Source,
        offered(lines(output)) == Some(version),
    ensures
        ({
            let (after, action) = sweep_step(m, ps, ReplyModel::Printed(output));
            let name = ps[m.at as int].name;
            &&& action == ActionModel::Report(MsgModel::Found(name, version, None))
            &&& after == (SweepModel {
                cache: m.cache.insert(name, EntryModel { version, timestamp: m.now }),
                at: m.at + 1,
                stage: Stage::Ready,
                count: m.count + 1,
                ..m
            })
        }),
{
}

/// A version that was found an hour ago or longer is asked for again.
pub proof fn law_old_version_is_asked_again(
    m: SweepModel,
    ps: Seq<PackageModel>,
    reply: ReplyModel,
)
    requires
        m.at < ps.len(),
        m.stage == Stage::Ready,
        m.cache.contains_key(ps[m.at as int].name) ==> m.cache[ps[m.at as int].name].timestamp
            + 3600 <= m.now,
    ensures
        sweep_step(m, ps, reply).1 is AskRelease || sweep_step(m, ps, reply).1 is AskSource,
        sweep_step(m, ps, reply).0.at == m.at,
{
}

/// Behind the last package a sweep says how many versions it found and whether GitHub refused one
/// of its questions, and is over.
pub proof fn law_sweep_says_how_it_went(
    m: SweepModel,
    ps: Seq<PackageModel>,
    reply: ReplyModel,
)
    requires
        m.at >= ps.len(),
        m.stage == Stage::Ready,
    ensures
        sweep_step(m, ps, reply) == (
            SweepModel { stage: Stage::Over, ..m },
            ActionModel::Report(MsgModel::Done(m.count, m.rate_limited)),
        ),
{
}

/// Whether GitHub refuses a request for the number of requests.
pub proof fn law_refusals(code: u16)
    ensures
        is_rate_limit(code) <==> code == 403 || code == 429,
{
}

// ---------------------------------------------------------------------------------------------
// Addresses and offers
// ---------------------------------------------------------------------------------------------

/// A text that is split once.
proof fn lemma_split_once(s: Seq<char>, pat: Seq<char>, a: Seq<char>, b: Seq<char>)
    requires
        s == a + pat + b,
        pat.len() > 0,
        find_text(s, pat) == Some(a.len() as int),
        !has_text(b, pat),
    ensures
        split_text(s, pat) == seq![a, b],
{
    assert(s.take(a.len() as int) =~= a);
    assert(s.skip(a.len() as int + pat.len()) =~= b);
    assert(split_text(b, pat) == seq![b]);
    assert(split_text(s, pat) =~= seq![a, b]);
}

/// The first two parts of a path.
proof fn lemma_path_parts(owner: Seq<char>, repo: Seq<char>, rest: Seq<char>)
    requires
        !owner.contains('/'),
        !repo.contains('/'),
        rest.len() > 0 ==> rest[0] == '/',
    ensures
        split_char(owner + "/"@ + repo + rest, '/').len() >= 2,
        split_char(owner + "/"@ + repo + rest, '/')[0] == owner,
        split_char(owner + "/"@ + repo + rest, '/')[1] == repo,
{
    reveal_strlit("/");
    let s = owner + "/"@ + repo + rest;
    let n = owner.len() as int;
    assert(s[n] == '/');
    assert forall|j: int| 0 <= j < n implies s[j] != '/' by {
        assert(s[j] == owner[j]);
        assert(owner.contains(owner[j]));
    }
    lemma_find_char_is(s, '/', n);
    assert(s.take(n) =~= owner);
    let t = s.skip(n + 1);
    assert(t =~= repo + rest);
    let m = repo.len() as int;
    if rest.len() > 0 {
        assert(t[m] == '/');
        assert forall|j: int| 0 <= j < m implies t[j] != '/' by {
            assert(t[j] == repo[j]);
            assert(repo.contains(repo[j]));
        }
        lemma_find_char_is(t, '/', m);
        assert(t.take(m) =~= repo);
    } else {
        assert(t =~= repo);
        lemma_find_char(t, '/');
        if let Some(j) = find_char(t, '/') {
            assert(repo.contains(repo[j]));
        }
    }
    assert(split_char(t, '/')[0] == repo);
    assert(split_char(s, '/') == seq![owner] + split_char(t, '/'));
}

/// An address at GitHub names its owner and its repository, with or without `.git` behind it and
/// whatever stands further down the path.
pub proof fn law_address_names_repository(
    a: Seq<char>,
    owner: Seq<char>,
    repo: Seq<char>,
    git: bool,
    rest: Seq<char>,
)
    requires
        !a.contains('g'),
        owner.len() > 0,
        repo.len() > 0,
        !owner.contains('/'),
        !repo.contains('/'),
        !ends_with(repo, ".git"@),
        rest.len() > 0 ==> rest[0] == '/',
        !(a + owner + repo + rest).contains('>'),
        !has_text(owner + "/"@ + (repo + (if git {
            ".git"@
        } else {
            seq![]
        })) + rest, "github.com/"@),
    ensures
        github_repo(a + "github.com/"@ + (owner + "/"@ + (repo + (if git {
            ".git"@
        } else {
            seq![]
        })) + rest)) == Some((owner, repo)),
{
    let last = repo + (if git {
        ".git"@
    } else {
        seq![]
    });
    let b = owner + "/"@ + last + rest;
    lemma_no_mark(a, owner, repo, rest);
    lemma_mark_free(owner, repo, git, rest);
    lemma_repository_part(a, b);
    lemma_path_parts(owner, last, rest);
    lemma_git_taken_off(repo, git);
}

/// Two texts that lack a character lack it together.
proof fn lemma_lacks(a: Seq<char>, b: Seq<char>, c: char)
    ensures
        !a.contains(c) && !b.contains(c) ==> !(a + b).contains(c),
{
    if (a + b).contains(c) {
        let i = choose|i: int| 0 <= i < (a + b).len() && (a + b)[i] == c;
        if i < a.len() {
            assert(a.contains(a[i]));
        } else {
            assert(b.contains(b[i - a.len()]));
        }
    }
}

/// The path of an address holds no mark of a file name, and its repository no slash.
proof fn lemma_mark_free(owner: Seq<char>, repo: Seq<char>, git: bool, rest: Seq<char>)
    requires
        !owner.contains('>'),
        !repo.contains('>'),
        !rest.contains('>'),
        !repo.contains('/'),
    ensures
        ({
            let last = repo + (if git {
                ".git"@
            } else {
                seq![]
            });
            &&& !(owner + "/"@ + last + rest).contains('>')
            &&& !last.contains('/')
        }),
{
    reveal_strlit(".git");
    reveal_strlit("/");
    let end = if git {
        ".git"@
    } else {
        seq![]
    };
    assert(!end.contains('>') && !end.contains('/')) by {
        assert forall|i: int| 0 <= i < end.len() implies end[i] != '>' && end[i] != '/' by {}
    }
    assert(!"/"@.contains('>'));
    lemma_lacks(repo, end, '>');
    lemma_lacks(repo, end, '/');
    lemma_lacks(owner, "/"@, '>');
    lemma_lacks(owner + "/"@, repo + end, '>');
    lemma_lacks(owner + "/"@ + (repo + end), rest, '>');
}

/// What stands behind the host of an address.
#[verifier::spinoff_prover]
proof fn lemma_repository_part(a: Seq<char>, b: Seq<char>)
    requires
        !a.contains('g'),
        !a.contains('>'),
        !b.contains('>'),
        !has_text(b, "github.com/"@),
    ensures
        split_text(before_char(a + "github.com/"@ + b, '>'), "github.com/"@) == seq![a, b],
{
    reveal_strlit("github.com/");
    let pat = "github.com/"@;
    let s = a + pat + b;
    assert(!pat.contains('>'));
    lemma_lacks(a, pat, '>');
    lemma_lacks(a + pat, b, '>');
    lemma_find_char(s, '>');
    if let Some(i) = find_char(s, '>') {
        assert(s.contains(s[i]));
    }
    let n = a.len() as int;
    lemma_find_text(s, pat);
    assert(s.skip(n).take(pat.len() as int) =~= pat);
    assert(starts_with(s.skip(n), pat));
    let f = find_text(s, pat)->0;
    if f < n {
        assert(s.subrange(f, f + pat.len())[0] == s[f]);
        assert(a.contains(a[f]));
    }
    lemma_split_once(s, pat, a, b);
}

/// The parts of a text without `>` hold none.
proof fn lemma_no_mark(a: Seq<char>, b: Seq<char>, c: Seq<char>, d: Seq<char>)
    requires
        !(a + b + c + d).contains('>'),
    ensures
        !a.contains('>'),
        !b.contains('>'),
        !c.contains('>'),
        !d.contains('>'),
{
    let s = a + b + c + d;
    if a.contains('>') {
        let i = choose|i: int| 0 <= i < a.len() && a[i] == '>';
        assert(s[i] == '>');
    }
    if b.contains('>') {
        let i = choose|i: int| 0 <= i < b.len() && b[i] == '>';
        assert(s[a.len() + i] == '>');
    }
    if c.contains('>') {
        let i = choose|i: int| 0 <= i < c.len() && c[i] == '>';
        assert(s[a.len() + b.len() + i] == '>');
    }
    if d.contains('>') {
        let i = choose|i: int| 0 <= i < d.len() && d[i] == '>';
        assert(s[a.len() + b.len() + c.len() + i] == '>');
    }
}

/// One `.git` at the end of a name is taken off.
proof fn lemma_git_taken_off(repo: Seq<char>, git: bool)
    requires
        !ends_with(repo, ".git"@),
    ensures
        trim_end_text(repo + (if git {
            ".git"@
        } else {
            seq![]
        }), ".git"@) == repo,
{
    reveal_strlit(".git");
    assert(trim_end_text(repo, ".git"@) == repo);
    if git {
        let s = repo + ".git"@;
        assert(s.skip(s.len() - 4) =~= ".git"@);
        assert(ends_with(s, ".git"@));
        assert(s.take(s.len() - 4) =~= repo);
    } else {
        assert(repo + seq![] =~= repo);
    }
}

/// An address elsewhere names no repository.
pub proof fn law_other_address_names_none(url: Seq<char>)
    requires
        !has_text(before_char(url, '>'), "github.com/"@),
    ensures
        github_repo(url) is None,
{
}

/// The repository of a package is the one that its sources name; where they name none, that of its
/// home page; and where that names none, that of its list of changes.
pub proof fn law_repository_of_package(p: PackageModel)
    ensures
        github_repo(p.distfiles) is Some ==> repo_of(p) == github_repo(p.distfiles),
        github_repo(p.distfiles) is None && github_repo(p.homepage) is Some ==> repo_of(p)
            == github_repo(p.homepage),
        github_repo(p.distfiles) is None && github_repo(p.homepage) is None ==> repo_of(p)
            == github_repo(p.changelog),
{
}

/// What the build system prints offers the version that stands behind the first `update to`, up to
/// its revision.
pub proof fn law_offer_is_read(a: Seq<char>, version: Seq<char>, revision: Seq<char>)
    requires
        is_word(version),
        !version.contains('_'),
        find_text(a + "update to"@ + (" "@ + version + "_"@ + revision), "update to"@) == Some(
            a.len() as int,
        ),
        !has_text(" "@ + version + "_"@ + revision, "update to"@),
    ensures
        offered_in(a + "update to"@ + (" "@ + version + "_"@ + revision)) == Some(version),
{
    reveal_strlit("update to");
    reveal_strlit(" ");
    reveal_strlit("_");
    let b = " "@ + version + "_"@ + revision;
    let s = a + "update to"@ + b;
    lemma_split_once(s, "update to"@, a, b);
    let n = version.len() as int;
    assert(b.drop_first() =~= version + "_"@ + revision);
    let t = trim(b);
    let rest = version + "_"@ + revision;
    assert(rest[0] == version[0]);
    assert(trim_start(b) == trim_start(rest));
    assert(trim_start(rest) == rest);
    lemma_trim_end_len(rest);
    lemma_trim_end_keeps(rest, n);
    assert(t == rest.take(t.len() as int));
    assert(t[n] == rest[n] && rest[n] == '_');
    assert forall|j: int| 0 <= j < n implies t[j] != '_' by {
        assert(t[j] == rest[j] && rest[j] == version[j]);
        assert(version.contains(version[j]));
    }
    lemma_find_char_is(t, '_', n);
    assert(t.take(n) =~= version);
}

/// Trimming keeps everything up to a character that is no white space.
proof fn lemma_trim_end_keeps(s: Seq<char>, n: int)
    requires
        0 <= n < s.len(),
        !is_white(s[n]),
    ensures
        trim_end(s).len() > n,
    decreases s.len(),
{
    if is_white(s.last()) {
        assert(s.drop_last()[n] == s[n]);
        lemma_trim_end_keeps(s.drop_last(), n);
    }
}

/// The first line that offers a version decides; where no line does, nothing is offered.
pub proof fn law_first_offer_counts(ls: Seq<Seq<char>>, i: int)
    requires
        0 <= i <= ls.len(),
        forall|j: int| 0 <= j < i ==> !has_text(#[trigger] ls[j], "update to"@),
    ensures
        i < ls.len() && has_text(ls[i], "update to"@) ==> offered(ls) == offered_in(ls[i])
            && offered(ls) is Some,
        i == ls.len() ==> offered(ls) is None,
    decreases i,
{
    if i > 0 {
        let rest = ls.drop_first();
        assert(!has_text(ls[0], "update to"@));
        assert forall|j: int| 0 <= j < i - 1 implies !has_text(#[trigger] rest[j], "update to"@) by {
            assert(rest[j] == ls[j + 1]);
        }
        law_first_offer_counts(rest, i - 1);
        if i < ls.len() {
            assert(rest[i - 1] == ls[i]);
        }
    }
}

/// Where a question about a repository could not be asked, or its answer is no tag and no refusal,
/// the build system is asked next.
pub proof fn law_failed_question_goes_on(m: SweepModel, ps: Seq<PackageModel>, reply: ReplyModel)
    requires
        m.at < ps.len(),
        m.stage == Stage::Release || m.stage == Stage::Tags,
        !(reply is Tag),
        !(reply is NoTag),
    ensures
        sweep_step(m, ps, reply) == (
            SweepModel { stage: Stage::Source, ..m },
            ActionModel::AskSource(ps[m.at as int].name),
        ),
{
}

/// A package of which nobody knows a version is passed over: nothing is reported or kept of it.
pub proof fn law_unknown_version_is_passed_over(
    m: SweepModel,
    ps: Seq<PackageModel>,
    output: Seq<char>,
)
    requires
        m.at < ps.len(),
        m.stage == Stage::Source,
        offered(lines(output)) is None,
    ensures
        sweep_step(m, ps, ReplyModel::Printed(output)) == (
            SweepModel { at: m.at + 1, stage: Stage::Ready, ..m },
            ActionModel::Next,
        ),
{
}

} // verus!
