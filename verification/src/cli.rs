//! The command line: its arguments, what it prints and how it exits.

use vstd::prelude::*;

use crate::order::{comes_before, law_precedes_total, law_precedes_transitive, lemma_precedes_asymmetric, precedes};
use crate::package::{models, status_of, version_newer_pub, Package, PackageModel, Status};
use crate::table::{lemma_text_values_insert, TextMap};
use crate::text::{
    begins, cat, cat3, chars_of, same_text, starts_with, text_opt, texts,
};
use crate::version::is_newer;
use crate::version_check::{MsgModel, VersionMsg};

verus! {

broadcast use vstd::seq_lib::group_seq_properties;

// ---------------------------------------------------------------------------------------------
// Arguments
// ---------------------------------------------------------------------------------------------

/// What the program is told to do.
#[derive(Debug)]
pub enum Command {
    CheckUpdates { json: bool },
    BumpAll,
    Bump(String),
}

/// What a `Command` holds.
pub enum CommandModel {
    CheckUpdates { json: bool },
    BumpAll,
    Bump(Seq<char>),
}

impl View for Command {
    type V = CommandModel;

    open spec fn view(&self) -> CommandModel {
        match self {
            Command::CheckUpdates { json } => CommandModel::CheckUpdates { json: *json },
            Command::BumpAll => CommandModel::BumpAll,
            Command::Bump(n) => CommandModel::Bump(n@),
        }
    }
}

/// Why a command is refused.
#[derive(Debug)]
pub enum CliError {
    UnknownSubcommand(String),
    UnknownFlag(String),
    TwoPackages,
    AllAndPackage,
    NoPackage,
    UnknownPackage(String),
    NoVersion(String),
}

/// What a `CliError` holds.
pub enum ErrorModel {
    UnknownSubcommand(Seq<char>),
    UnknownFlag(Seq<char>),
    TwoPackages,
    AllAndPackage,
    NoPackage,
    UnknownPackage(Seq<char>),
    NoVersion(Seq<char>),
}

impl View for CliError {
    type V = ErrorModel;

    open spec fn view(&self) -> ErrorModel {
        match self {
            CliError::UnknownSubcommand(s) => ErrorModel::UnknownSubcommand(s@),
            CliError::UnknownFlag(s) => ErrorModel::UnknownFlag(s@),
            CliError::TwoPackages => ErrorModel::TwoPackages,
            CliError::AllAndPackage => ErrorModel::AllAndPackage,
            CliError::NoPackage => ErrorModel::NoPackage,
            CliError::UnknownPackage(s) => ErrorModel::UnknownPackage(s@),
            CliError::NoVersion(s) => ErrorModel::NoVersion(s@),
        }
    }
}

/// What is said of a command that is refused.
pub open spec fn error_text(e: ErrorModel) -> Seq<char> {
    match e {
        ErrorModel::UnknownSubcommand(s) => "unknown subcommand: "@ + s,
        ErrorModel::UnknownFlag(s) => "unknown flag: "@ + s,
        ErrorModel::TwoPackages => "bump takes a single package name (or --all)"@,
        ErrorModel::AllAndPackage => "--all and <pkg> are mutually exclusive"@,
        ErrorModel::NoPackage => "bump requires <pkg> or --all"@,
        ErrorModel::UnknownPackage(s) => "unknown package: "@ + s,
        ErrorModel::NoVersion(s) => "no upstream version resolved for "@ + s,
    }
}

impl CliError {
    /// What is said of the command.
    pub fn message(&self) -> (r: String)
        ensures
            r@ == error_text(self@),
    {
        match self {
            CliError::UnknownSubcommand(s) => cat("unknown subcommand: ", s.as_str()),
            CliError::UnknownFlag(s) => cat("unknown flag: ", s.as_str()),
            CliError::TwoPackages => "bump takes a single package name (or --all)".to_owned(),
            CliError::AllAndPackage => "--all and <pkg> are mutually exclusive".to_owned(),
            CliError::NoPackage => "bump requires <pkg> or --all".to_owned(),
            CliError::UnknownPackage(s) => cat("unknown package: ", s.as_str()),
            CliError::NoVersion(s) => cat("no upstream version resolved for ", s.as_str()),
        }
    }
}

/// The arguments of a check: nothing but `--json`.
pub open spec fn check_command(args: Seq<Seq<char>>, json: bool) -> Result<
    CommandModel,
    ErrorModel,
>
    decreases args.len(),
{
    if args.len() == 0 {
        Ok(CommandModel::CheckUpdates { json })
    } else if args[0] == "--json"@ {
        check_command(args.drop_first(), true)
    } else {
        Err(ErrorModel::UnknownFlag(args[0]))
    }
}

/// The arguments of a bump: `--all` or the name of one package.
pub open spec fn bump_command(
    args: Seq<Seq<char>>,
    all: bool,
    target: Option<Seq<char>>,
) -> Result<CommandModel, ErrorModel>
    decreases args.len(),
{
    if args.len() == 0 {
        match target {
            Some(name) => if all {
                Err(ErrorModel::AllAndPackage)
            } else {
                Ok(CommandModel::Bump(name))
            },
            None => if all {
                Ok(CommandModel::BumpAll)
            } else {
                Err(ErrorModel::NoPackage)
            },
        }
    } else if args[0] == "--all"@ {
        bump_command(args.drop_first(), true, target)
    } else if starts_with(args[0], "--"@) {
        Err(ErrorModel::UnknownFlag(args[0]))
    } else if target is Some {
        Err(ErrorModel::TwoPackages)
    } else {
        bump_command(args.drop_first(), all, Some(args[0]))
    }
}

/// What the arguments tell the program to do: the first names the command.
pub open spec fn command_of(args: Seq<Seq<char>>) -> Result<CommandModel, ErrorModel> {
    if args[0] == "check-updates"@ {
        check_command(args.drop_first(), false)
    } else if args[0] == "bump"@ {
        bump_command(args.drop_first(), false, None)
    } else {
        Err(ErrorModel::UnknownSubcommand(args[0]))
    }
}

pub open spec fn command_result(r: Result<Command, CliError>) -> Result<CommandModel, ErrorModel> {
    match r {
        Ok(c) => Ok(c@),
        Err(e) => Err(e@),
    }
}

/// The arguments of a check.
fn check_args(args: &Vec<String>) -> (r: Result<Command, CliError>)
    requires
        args@.len() > 0,
    ensures
        command_result(r) == check_command(texts(args@).drop_first(), false),
{
    let ghost all = texts(args@);
    let mut json = false;
    let mut i: usize = 1;
    assert(all.skip(1) =~= all.drop_first());
    while i < args.len()
        invariant
            1 <= i <= args@.len(),
            all == texts(args@),
            check_command(all.drop_first(), false) == check_command(all.skip(i as int), json),
        decreases args@.len() - i,
    {
        assert(all.skip(i as int)[0] == all[i as int]);
        assert(all.skip(i as int).drop_first() =~= all.skip(i + 1));
        if same_text(args[i].as_str(), "--json") {
            json = true;
        } else {
            return Err(CliError::UnknownFlag(args[i].clone()));
        }
        i += 1;
    }
    Ok(Command::CheckUpdates { json })
}

/// The arguments of a bump.
fn bump_args(args: &Vec<String>) -> (r: Result<Command, CliError>)
    requires
        args@.len() > 0,
    ensures
        command_result(r) == bump_command(texts(args@).drop_first(), false, None),
{
    let ghost all_args = texts(args@);
    let mut all = false;
    let mut target: Option<String> = None;
    let mut i: usize = 1;
    assert(all_args.skip(1) =~= all_args.drop_first());
    while i < args.len()
        invariant
            1 <= i <= args@.len(),
            all_args == texts(args@),
            bump_command(all_args.drop_first(), false, None) == bump_command(
                all_args.skip(i as int),
                all,
                text_opt(target),
            ),
        decreases args@.len() - i,
    {
        assert(all_args.skip(i as int)[0] == all_args[i as int]);
        assert(all_args.skip(i as int).drop_first() =~= all_args.skip(i + 1));
        let arg = args[i].as_str();
        let c = chars_of(arg);
        if same_text(arg, "--all") {
            all = true;
        } else if begins(c.as_slice(), "--") {
            return Err(CliError::UnknownFlag(args[i].clone()));
        } else if target.is_some() {
            return Err(CliError::TwoPackages);
        } else {
            target = Some(args[i].clone());
        }
        i += 1;
    }
    match target {
        Some(name) => if all {
            Err(CliError::AllAndPackage)
        } else {
            Ok(Command::Bump(name))
        },
        None => if all {
            Ok(Command::BumpAll)
        } else {
            Err(CliError::NoPackage)
        },
    }
}

/// What the arguments tell the program to do. The first names the command.
pub fn run(args: &Vec<String>) -> (r: Result<Command, CliError>)
    requires
        args@.len() > 0,
    ensures
        command_result(r) == command_of(texts(args@)),
{
    if same_text(args[0].as_str(), "check-updates") {
        check_args(args)
    } else if same_text(args[0].as_str(), "bump") {
        bump_args(args)
    } else {
        Err(CliError::UnknownSubcommand(args[0].clone()))
    }
}

// ---------------------------------------------------------------------------------------------
// Sweeps
// ---------------------------------------------------------------------------------------------

pub open spec fn msg_models(v: Seq<VersionMsg>) -> Seq<MsgModel> {
    Seq::new(v.len(), |i: int| v[i]@)
}

/// The versions that a sweep reports, by package; the last one counts.
pub open spec fn reported(msgs: Seq<MsgModel>) -> Map<Seq<char>, Seq<char>>
    decreases msgs.len(),
{
    if msgs.len() == 0 {
        Map::empty()
    } else {
        match msgs.last() {
            MsgModel::Found(name, version, _) => reported(msgs.drop_last()).insert(name, version),
            MsgModel::Done(_, _) => reported(msgs.drop_last()),
        }
    }
}

/// Whether a sweep reports, at its end, that requests were refused for their number.
pub open spec fn limited(msgs: Seq<MsgModel>) -> bool
    decreases msgs.len(),
{
    if msgs.len() == 0 {
        false
    } else {
        match msgs.last() {
            MsgModel::Found(_, _, _) => limited(msgs.drop_last()),
            MsgModel::Done(_, l) => l,
        }
    }
}

/// The versions that a sweep reports, and whether requests were refused for their number.
pub fn sweep_latest(msgs: &Vec<VersionMsg>) -> (r: (TextMap<String>, bool))
    ensures
        r.0.wf(),
        r.0.text_map() == reported(msg_models(msgs@)),
        r.1 == limited(msg_models(msgs@)),
{
    let ghost all = msg_models(msgs@);
    let mut latest: TextMap<String> = TextMap::new();
    let mut rate_limited = false;
    let mut i: usize = 0;
    assert(latest.text_map() =~= Map::empty());
    while i < msgs.len()
        invariant
            i <= msgs@.len(),
            all == msg_models(msgs@),
            latest.wf(),
            latest.text_map() == reported(all.take(i as int)),
            rate_limited == limited(all.take(i as int)),
        decreases msgs@.len() - i,
    {
        proof {
            assert(all.take(i + 1).drop_last() =~= all.take(i as int));
            assert(all.take(i + 1).last() == all[i as int]);
        }
        match &msgs[i] {
            VersionMsg::Found(name, version, _) => {
                proof {
                    lemma_text_values_insert(latest@, name@, *version);
                }
                latest.insert(name.clone(), version.clone());
            },
            VersionMsg::Done(_, l) => {
                rate_limited = *l;
            },
        }
        i += 1;
    }
    assert(all.take(i as int) =~= all);
    (latest, rate_limited)
}

// ---------------------------------------------------------------------------------------------
// Updates
// ---------------------------------------------------------------------------------------------

/// A package whose upstream is ahead of it.
#[derive(Debug)]
pub struct UpdateRow {
    pub name: String,
    pub current: String,
    pub latest: String,
}

/// What an `UpdateRow` holds.
pub struct RowModel {
    pub name: Seq<char>,
    pub current: Seq<char>,
    pub latest: Seq<char>,
}

impl View for UpdateRow {
    type V = RowModel;

    open spec fn view(&self) -> RowModel {
        RowModel { name: self.name@, current: self.current@, latest: self.latest@ }
    }
}

pub open spec fn row_models(v: Seq<UpdateRow>) -> Seq<RowModel> {
    Seq::new(v.len(), |i: int| v[i]@)
}

/// Whether the upstream of the package is ahead of it.
pub open spec fn has_update(p: PackageModel, latest: Map<Seq<char>, Seq<char>>) -> bool {
    latest.contains_key(p.name) && is_newer(latest[p.name], p.version)
}

/// The packages whose upstream is ahead of them, in order.
pub open spec fn updates_in(
    ps: Seq<PackageModel>,
    latest: Map<Seq<char>, Seq<char>>,
) -> Seq<RowModel>
    decreases ps.len(),
{
    if ps.len() == 0 {
        Seq::empty()
    } else {
        let before = updates_in(ps.drop_last(), latest);
        let p = ps.last();
        if has_update(p, latest) {
            before.push(RowModel { name: p.name, current: p.version, latest: latest[p.name] })
        } else {
            before
        }
    }
}

/// The packages whose upstream is ahead of them, in order.
pub fn find_updates(packages: &Vec<Package>, latest: &TextMap<String>) -> (r: Vec<UpdateRow>)
    ensures
        row_models(r@) == updates_in(models(packages@), latest.text_map()),
{
    let ghost ps = models(packages@);
    let ghost map = latest.text_map();
    let mut out: Vec<UpdateRow> = Vec::new();
    let mut i: usize = 0;
    assert(row_models(out@) =~= Seq::empty());
    while i < packages.len()
        invariant
            i <= packages@.len(),
            ps == models(packages@),
            map == latest.text_map(),
            row_models(out@) == updates_in(ps.take(i as int), map),
        decreases packages@.len() - i,
    {
        proof {
            assert(ps.take(i + 1).drop_last() =~= ps.take(i as int));
            assert(ps.take(i + 1).last() == ps[i as int]);
        }
        let p = &packages[i];
        if let Some(version) = latest.get(p.name.as_str()) {
            if version_newer_pub(version.as_str(), p.version.as_str()) {
                let row = UpdateRow {
                    name: p.name.clone(),
                    current: p.version.clone(),
                    latest: version.clone(),
                };
                let ghost before = out@;
                out.push(row);
                assert(row_models(out@) =~= row_models(before).push(row@));
            }
        }
        i += 1;
    }
    assert(ps.take(i as int) =~= ps);
    out
}

/// `s` with `x` behind the last row that does not come after it by name.
pub open spec fn insert_row(s: Seq<RowModel>, x: RowModel) -> Seq<RowModel>
    decreases s.len(),
{
    if s.len() > 0 && precedes(x.name, s.last().name) {
        insert_row(s.drop_last(), x).push(s.last())
    } else {
        s.push(x)
    }
}

/// The rows in the order of their names; rows of one name stay in order.
pub open spec fn sort_rows(s: Seq<RowModel>) -> Seq<RowModel>
    decreases s.len(),
{
    if s.len() == 0 {
        s
    } else {
        insert_row(sort_rows(s.drop_last()), s.last())
    }
}

proof fn lemma_insert_row_at(s: Seq<RowModel>, x: RowModel, k: int)
    requires
        0 <= k <= s.len(),
        forall|j: int| k <= j < s.len() ==> precedes(x.name, (#[trigger] s[j]).name),
        k == 0 || !precedes(x.name, s[k - 1].name),
    ensures
        insert_row(s, x) == s.insert(k, x),
    decreases s.len(),
{
    if k < s.len() {
        assert(precedes(x.name, s[s.len() - 1].name));
        assert forall|j: int| k <= j < s.drop_last().len() implies precedes(
            x.name,
            (#[trigger] s.drop_last()[j]).name,
        ) by {
            assert(s.drop_last()[j] == s[j]);
        }
        lemma_insert_row_at(s.drop_last(), x, k);
        assert(s.drop_last().insert(k, x).push(s.last()) =~= s.insert(k, x));
    } else {
        assert(s.insert(k, x) =~= s.push(x));
    }
}

/// The rows in the order of their names.
fn sorted_rows(rows: Vec<UpdateRow>) -> (r: Vec<UpdateRow>)
    ensures
        row_models(r@) == sort_rows(row_models(rows@)),
{
    let ghost all = row_models(rows@);
    let mut out: Vec<UpdateRow> = Vec::new();
    let mut i: usize = 0;
    assert(row_models(out@) =~= sort_rows(all.take(0)));
    while i < rows.len()
        invariant
            i <= rows@.len(),
            all == row_models(rows@),
            row_models(out@) == sort_rows(all.take(i as int)),
        decreases rows@.len() - i,
    {
        let x = UpdateRow {
            name: rows[i].name.clone(),
            current: rows[i].current.clone(),
            latest: rows[i].latest.clone(),
        };
        let mut k: usize = out.len();
        while k > 0 && comes_before(x.name.as_str(), out[k - 1].name.as_str())
            invariant
                k <= out@.len(),
                forall|j: int|
                    k <= j < out@.len() ==> precedes(x.name@, (#[trigger] row_models(out@)[j]).name),
            decreases k,
        {
            k -= 1;
        }
        let ghost before = row_models(out@);
        proof {
            lemma_insert_row_at(before, x@, k as int);
        }
        out.insert(k, x);
        assert(row_models(out@) =~= before.insert(k as int, x@));
        i += 1;
        assert(all.take(i as int).drop_last() =~= all.take(i - 1));
        assert(all.take(i as int).last() == x@);
    }
    assert(all.take(i as int) =~= all);
    out
}

/// The packages whose upstream is ahead of them, in the order of their names.
pub fn check_updates(packages: &Vec<Package>, latest: &TextMap<String>) -> (r: Vec<UpdateRow>)
    ensures
        row_models(r@) == sort_rows(updates_in(models(packages@), latest.text_map())),
{
    sorted_rows(find_updates(packages, latest))
}

/// What is printed of an update.
pub open spec fn row_text(r: RowModel) -> Seq<char> {
    r.name + " "@ + r.current + " -> "@ + r.latest
}

/// What is printed of an update, or of a bump that was done.
pub fn update_line(name: &str, current: &str, latest: &str) -> (r: String)
    ensures
        r@ == row_text(RowModel { name: name@, current: current@, latest: latest@ }),
{
    let front = cat3(name, " ", current);
    cat3(front.as_str(), " -> ", latest)
}

/// How a check exits: 2 where requests were refused for their number, else 1 where there are
/// updates and 0 where there are none.
pub fn check_exit_code(rows: usize, rate_limited: bool) -> (r: i32)
    ensures
        rate_limited ==> r == 2,
        !rate_limited && rows > 0 ==> r == 1,
        !rate_limited && rows == 0 ==> r == 0,
{
    if rate_limited {
        2
    } else if rows == 0 {
        0
    } else {
        1
    }
}

// ---------------------------------------------------------------------------------------------
// Bumps
// ---------------------------------------------------------------------------------------------

/// What a bump has to do.
#[derive(Debug)]
pub enum BumpPlan {
    /// Bump these packages to these versions.
    Bump(Vec<(String, String)>),
    /// Nothing: upstream is not ahead of the package at this version.
    UpToDate { name: String, current: String, latest: String },
}

pub open spec fn pairs(v: Seq<(String, String)>) -> Seq<(Seq<char>, Seq<char>)> {
    Seq::new(v.len(), |i: int| (v[i].0@, v[i].1@))
}

/// What a `BumpPlan` holds.
pub enum PlanModel {
    Bump(Seq<(Seq<char>, Seq<char>)>),
    UpToDate(RowModel),
}

impl View for BumpPlan {
    type V = PlanModel;

    open spec fn view(&self) -> PlanModel {
        match self {
            BumpPlan::Bump(v) => PlanModel::Bump(pairs(v@)),
            BumpPlan::UpToDate { name, current, latest } => PlanModel::UpToDate(
                RowModel { name: name@, current: current@, latest: latest@ },
            ),
        }
    }
}

/// The packages and versions of updates.
pub open spec fn bumps_of(rows: Seq<RowModel>) -> Seq<(Seq<char>, Seq<char>)> {
    Seq::new(rows.len(), |i: int| (rows[i].name, rows[i].latest))
}

/// The first of the packages called `name`, or their number where there is none.
pub open spec fn first_named(ps: Seq<PackageModel>, name: Seq<char>) -> int
    decreases ps.len(),
{
    if ps.len() == 0 {
        0
    } else if ps[0].name == name {
        0
    } else {
        1 + first_named(ps.drop_first(), name)
    }
}

/// What a bump of all packages has to do.
pub open spec fn plan_all(ps: Seq<PackageModel>, latest: Map<Seq<char>, Seq<char>>) -> PlanModel {
    PlanModel::Bump(bumps_of(updates_in(ps, latest)))
}

/// What a bump of one package has to do. The package has to be there, and its upstream version to
/// be known.
pub open spec fn plan_one(
    ps: Seq<PackageModel>,
    latest: Map<Seq<char>, Seq<char>>,
    name: Seq<char>,
) -> Result<PlanModel, ErrorModel> {
    let k = first_named(ps, name);
    if k >= ps.len() {
        Err(ErrorModel::UnknownPackage(name))
    } else if !latest.contains_key(name) {
        Err(ErrorModel::NoVersion(name))
    } else if !is_newer(latest[name], ps[k].version) {
        Ok(
            PlanModel::UpToDate(
                RowModel { name, current: ps[k].version, latest: latest[name] },
            ),
        )
    } else {
        Ok(PlanModel::Bump(seq![(name, latest[name])]))
    }
}

pub open spec fn plan_result(r: Result<BumpPlan, CliError>) -> Result<PlanModel, ErrorModel> {
    match r {
        Ok(p) => Ok(p@),
        Err(e) => Err(e@),
    }
}

/// What a bump of all packages has to do.
pub fn bump_all_targets(packages: &Vec<Package>, latest: &TextMap<String>) -> (r: BumpPlan)
    ensures
        r@ == plan_all(models(packages@), latest.text_map()),
{
    let rows = find_updates(packages, latest);
    let ghost goal = bumps_of(row_models(rows@));
    let mut out: Vec<(String, String)> = Vec::new();
    let mut i: usize = 0;
    assert(pairs(out@) =~= goal.take(0));
    while i < rows.len()
        invariant
            i <= rows@.len(),
            goal == bumps_of(row_models(rows@)),
            pairs(out@) == goal.take(i as int),
        decreases rows@.len() - i,
    {
        let ghost before = out@;
        let pair = (rows[i].name.clone(), rows[i].latest.clone());
        out.push(pair);
        i += 1;
        assert(pairs(out@) =~= pairs(before).push((pair.0@, pair.1@)));
        assert(goal.take(i as int) =~= goal.take(i - 1).push(goal[i - 1]));
    }
    assert(goal.take(i as int) =~= goal);
    BumpPlan::Bump(out)
}

/// The first of the packages called `name`, or their number where there is none.
fn find_package(packages: &Vec<Package>, name: &str) -> (r: usize)
    ensures
        r == first_named(models(packages@), name@),
        r <= packages@.len(),
{
    let ghost ps = models(packages@);
    let mut i: usize = 0;
    assert(ps.skip(0) =~= ps);
    while i < packages.len()
        invariant
            i <= packages@.len(),
            ps == models(packages@),
            first_named(ps, name@) == i + first_named(ps.skip(i as int), name@),
        decreases packages@.len() - i,
    {
        assert(ps.skip(i as int)[0] == ps[i as int]);
        assert(ps.skip(i as int).drop_first() =~= ps.skip(i + 1));
        if same_text(packages[i].name.as_str(), name) {
            return i;
        }
        i += 1;
    }
    i
}

/// What a bump of one package has to do.
pub fn bump_one_target(
    packages: &Vec<Package>,
    latest: &TextMap<String>,
    name: &str,
) -> (r: Result<BumpPlan, CliError>)
    ensures
        plan_result(r) == plan_one(models(packages@), latest.text_map(), name@),
{
    let k: usize = find_package(packages, name);
    if k >= packages.len() {
        return Err(CliError::UnknownPackage(name.to_owned()));
    }
    match latest.get(name) {
        None => Err(CliError::NoVersion(name.to_owned())),
        Some(version) => {
            let current = &packages[k].version;
            if !version_newer_pub(version.as_str(), current.as_str()) {
                return Ok(
                    BumpPlan::UpToDate {
                        name: name.to_owned(),
                        current: current.clone(),
                        latest: version.clone(),
                    },
                );
            }
            let mut out: Vec<(String, String)> = Vec::new();
            out.push((name.to_owned(), version.clone()));
            assert(pairs(out@) =~= seq![(name@, version@)]);
            Ok(BumpPlan::Bump(out))
        },
    }
}

/// What a bump has to do, out of the command, the packages and the versions that were found.
pub fn bump(
    target: &Option<String>,
    packages: &Vec<Package>,
    latest: &TextMap<String>,
) -> (r: Result<BumpPlan, CliError>)
    ensures
        plan_result(r) == match *target {
            Some(name) => plan_one(models(packages@), latest.text_map(), name@),
            None => Ok(plan_all(models(packages@), latest.text_map())),
        },
{
    match target {
        Some(name) => bump_one_target(packages, latest, name.as_str()),
        None => Ok(bump_all_targets(packages, latest)),
    }
}

/// What is said of a package that needs no bump.
pub fn up_to_date_line(name: &str, current: &str, latest: &str) -> (r: String)
    ensures
        r@ == name@ + " already at "@ + current@ + " (latest "@ + latest@ + ")"@,
{
    let a = cat3(name, " already at ", current);
    let b = cat3(a.as_str(), " (latest ", latest);
    cat(b.as_str(), ")")
}

/// What is said before a bump.
pub fn bumping_line(name: &str, version: &str, log_path: &str) -> (r: String)
    ensures
        r@ == "bumping "@ + name@ + " -> "@ + version@ + " (log: "@ + log_path@ + ")"@,
{
    let a = cat3("bumping ", name, " -> ");
    let b = cat3(a.as_str(), version, " (log: ");
    cat3(b.as_str(), log_path, ")")
}

/// What is said of a bump that failed.
pub fn bump_failed_line(name: &str, error: &str) -> (r: String)
    ensures
        r@ == "bump failed for "@ + name@ + ": "@ + error@,
{
    let a = cat3("bump failed for ", name, ": ");
    cat(a.as_str(), error)
}

/// How a bump exits: 2 where requests were refused for their number, else 1 where one of its
/// packages failed and 0 where none did.
pub fn bump_exit_code(failed: usize, rate_limited: bool) -> (r: i32)
    ensures
        rate_limited ==> r == 2,
        !rate_limited && failed > 0 ==> r == 1,
        !rate_limited && failed == 0 ==> r == 0,
{
    if rate_limited {
        2
    } else if failed > 0 {
        1
    } else {
        0
    }
}

/// A row of updates is a package with an upstream that is ahead of it.
pub proof fn law_rows_are_updates(ps: Seq<PackageModel>, latest: Map<Seq<char>, Seq<char>>)
    ensures
        forall|i: int|
            0 <= i < updates_in(ps, latest).len() ==> is_newer(
                (#[trigger] updates_in(ps, latest)[i]).latest,
                updates_in(ps, latest)[i].current,
            ),
        forall|k: int|
            0 <= k < ps.len() && has_update(#[trigger] ps[k], latest) ==> updates_in(
                ps,
                latest,
            ).contains(
                RowModel {
                    name: ps[k].name,
                    current: ps[k].version,
                    latest: latest[ps[k].name],
                },
            ),
    decreases ps.len(),
{
    if ps.len() > 0 {
        let front = ps.drop_last();
        law_rows_are_updates(front, latest);
        let rows = updates_in(ps, latest);
        let before = updates_in(front, latest);
        assert forall|i: int| 0 <= i < rows.len() implies is_newer(
            (#[trigger] rows[i]).latest,
            rows[i].current,
        ) by {
            if i < before.len() {
                assert(rows[i] == before[i]);
            }
        }
        assert forall|k: int|
            0 <= k < ps.len() && has_update(#[trigger] ps[k], latest) implies rows.contains(
            RowModel { name: ps[k].name, current: ps[k].version, latest: latest[ps[k].name] },
        ) by {
            let row = RowModel {
                name: ps[k].name,
                current: ps[k].version,
                latest: latest[ps[k].name],
            };
            if k < front.len() {
                assert(front[k] == ps[k]);
                assert(before.contains(row));
                let j = choose|j: int| 0 <= j < before.len() && before[j] == row;
                assert(rows[j] == row);
            } else {
                assert(rows[before.len() as int] == row);
            }
        }
    }
}

/// Sorting rows keeps them, and puts them in the order of their names.
pub proof fn law_rows_are_sorted(s: Seq<RowModel>)
    ensures
        sort_rows(s).to_multiset() == s.to_multiset(),
        forall|i: int, j: int|
            0 <= i < j < sort_rows(s).len() ==> !precedes(
                (#[trigger] sort_rows(s)[j]).name,
                (#[trigger] sort_rows(s)[i]).name,
            ),
    decreases s.len(),
{
    broadcast use vstd::seq_lib::group_to_multiset_ensures;

    if s.len() > 0 {
        law_rows_are_sorted(s.drop_last());
        lemma_insert_row(sort_rows(s.drop_last()), s.last());
        assert(s =~= s.drop_last().push(s.last()));
        assert(sort_rows(s).to_multiset() =~= s.to_multiset());
    }
}

proof fn lemma_insert_row(s: Seq<RowModel>, x: RowModel)
    requires
        forall|i: int, j: int|
            0 <= i < j < s.len() ==> !precedes((#[trigger] s[j]).name, (#[trigger] s[i]).name),
    ensures
        insert_row(s, x).to_multiset() == s.to_multiset().insert(x),
        insert_row(s, x).len() == s.len() + 1,
        forall|i: int, j: int|
            0 <= i < j < insert_row(s, x).len() ==> !precedes(
                (#[trigger] insert_row(s, x)[j]).name,
                (#[trigger] insert_row(s, x)[i]).name,
            ),
    decreases s.len(),
{
    broadcast use vstd::seq_lib::group_to_multiset_ensures;

    let r = insert_row(s, x);
    if s.len() > 0 && precedes(x.name, s.last().name) {
        let front = s.drop_last();
        assert forall|i: int, j: int| 0 <= i < j < front.len() implies !precedes(
            (#[trigger] front[j]).name,
            (#[trigger] front[i]).name,
        ) by {
            assert(front[i] == s[i] && front[j] == s[j]);
        }
        lemma_insert_row(front, x);
        let low = insert_row(front, x);
        assert(s =~= front.push(s.last()));
        assert forall|i: int| 0 <= i < low.len() implies !precedes(
            s.last().name,
            (#[trigger] low[i]).name,
        ) by {
            assert(low.to_multiset().contains(low[i]));
            assert(front.to_multiset().insert(x).contains(low[i]));
            if low[i] == x {
                lemma_precedes_asymmetric(x.name, s.last().name);
            } else {
                assert(front.to_multiset().contains(low[i]));
                assert(front.contains(low[i]));
                let k = choose|k: int| 0 <= k < front.len() && front[k] == low[i];
                assert(s[k] == low[i]);
                assert(!precedes(s[s.len() - 1].name, s[k].name));
            }
        }
        assert(r.to_multiset() =~= s.to_multiset().insert(x));
    } else {
        assert forall|i: int| 0 <= i < s.len() implies !precedes(x.name, (#[trigger] s[i]).name) by {
            if precedes(x.name, s[i].name) && i < s.len() - 1 {
                law_precedes_total(s[i].name, s.last().name);
                assert(!precedes(s[s.len() - 1].name, s[i].name));
                if s[i].name != s.last().name {
                    law_precedes_transitive(x.name, s[i].name, s.last().name);
                }
            }
        }
    }
}

/// The packages with an update are those whose status is that upstream is ahead, whatever is built
/// and installed of them.
pub proof fn law_updates_are_upstream_ahead(
    p: PackageModel,
    latest: Map<Seq<char>, Seq<char>>,
    installed: Option<Seq<char>>,
    built: Option<Seq<char>>,
)
    ensures
        has_update(p, latest) <==> status_of(
            p,
            installed,
            built,
            if latest.contains_key(p.name) {
                Some(latest[p.name])
            } else {
                None
            },
        ) == Status::UpstreamAhead,
{
}

/// A bump of all packages bumps what a check lists.
pub proof fn law_bump_all_does_what_check_lists(
    ps: Seq<PackageModel>,
    latest: Map<Seq<char>, Seq<char>>,
)
    ensures
        plan_all(ps, latest) == PlanModel::Bump(bumps_of(updates_in(ps, latest))),
        sort_rows(updates_in(ps, latest)).to_multiset() == updates_in(ps, latest).to_multiset(),
{
    law_rows_are_sorted(updates_in(ps, latest));
}

/// What is listed of some packages and one more: the package stands last, with its own version and
/// the one that was found, exactly where that one is newer.
pub proof fn law_listed_exactly_if_newer(
    ps: Seq<PackageModel>,
    p: PackageModel,
    latest: Map<Seq<char>, Seq<char>>,
)
    ensures
        latest.contains_key(p.name) && is_newer(latest[p.name], p.version) ==> updates_in(
            ps.push(p),
            latest,
        ) == updates_in(ps, latest).push(
            RowModel { name: p.name, current: p.version, latest: latest[p.name] },
        ),
        !(latest.contains_key(p.name) && is_newer(latest[p.name], p.version)) ==> updates_in(
            ps.push(p),
            latest,
        ) == updates_in(ps, latest),
        updates_in(Seq::<PackageModel>::empty(), latest).len() == 0,
{
    assert(ps.push(p).drop_last() =~= ps);
}

/// Every row stands for a package, with its version, and the version that was found for it.
pub proof fn law_row_is_a_package(
    ps: Seq<PackageModel>,
    latest: Map<Seq<char>, Seq<char>>,
    i: int,
)
    requires
        0 <= i < updates_in(ps, latest).len(),
    ensures
        exists|k: int|
            0 <= k < ps.len() && (#[trigger] ps[k]).name == updates_in(ps, latest)[i].name
                && ps[k].version == updates_in(ps, latest)[i].current && latest.contains_key(
                ps[k].name,
            ) && latest[ps[k].name] == updates_in(ps, latest)[i].latest,
    decreases ps.len(),
{
    if ps.len() > 0 {
        let front = ps.drop_last();
        let before = updates_in(front, latest);
        if i < before.len() {
            law_row_is_a_package(front, latest, i);
            let k = choose|k: int|
                0 <= k < front.len() && (#[trigger] front[k]).name == before[i].name
                    && front[k].version == before[i].current && latest.contains_key(front[k].name)
                    && latest[front[k].name] == before[i].latest;
            assert(ps[k] == front[k]);
        } else {
            assert(ps[ps.len() - 1] == ps.last());
        }
    }
}

/// A bump of all packages bumps each listed package to the version that is listed for it, in order.
pub proof fn law_bump_all_takes_listed_versions(
    ps: Seq<PackageModel>,
    latest: Map<Seq<char>, Seq<char>>,
    i: int,
)
    requires
        0 <= i < updates_in(ps, latest).len(),
    ensures
        plan_all(ps, latest) is Bump,
        plan_all(ps, latest)->Bump_0.len() == updates_in(ps, latest).len(),
        plan_all(ps, latest)->Bump_0[i].0 == updates_in(ps, latest)[i].name,
        plan_all(ps, latest)->Bump_0[i].1 == updates_in(ps, latest)[i].latest,
{
}

/// A package that is bumped by its name has to be there and to have a version that was found; it
/// is bumped to that version exactly where it is newer.
pub proof fn law_bump_one(
    ps: Seq<PackageModel>,
    latest: Map<Seq<char>, Seq<char>>,
    name: Seq<char>,
    k: int,
)
    requires
        0 <= k <= ps.len(),
        forall|j: int| 0 <= j < k ==> (#[trigger] ps[j]).name != name,
        k < ps.len() ==> ps[k].name == name,
    ensures
        k == ps.len() ==> plan_one(ps, latest, name) == Err::<PlanModel, ErrorModel>(
            ErrorModel::UnknownPackage(name),
        ),
        k < ps.len() && !latest.contains_key(name) ==> plan_one(ps, latest, name) == Err::<
            PlanModel,
            ErrorModel,
        >(ErrorModel::NoVersion(name)),
        k < ps.len() && latest.contains_key(name) && is_newer(latest[name], ps[k].version)
            ==> plan_one(ps, latest, name) == Ok::<PlanModel, ErrorModel>(
            PlanModel::Bump(seq![(name, latest[name])]),
        ),
        k < ps.len() && latest.contains_key(name) && !is_newer(latest[name], ps[k].version)
            ==> plan_one(ps, latest, name) == Ok::<PlanModel, ErrorModel>(
            PlanModel::UpToDate(
                RowModel { name, current: ps[k].version, latest: latest[name] },
            ),
        ),
{
    lemma_first_named_is(ps, name, k);
}

/// The first package of a name.
proof fn lemma_first_named_is(ps: Seq<PackageModel>, name: Seq<char>, k: int)
    requires
        0 <= k <= ps.len(),
        forall|j: int| 0 <= j < k ==> (#[trigger] ps[j]).name != name,
        k < ps.len() ==> ps[k].name == name,
    ensures
        first_named(ps, name) == k,
    decreases ps.len(),
{
    if k > 0 {
        let rest = ps.drop_first();
        assert(ps[0].name != name);
        assert forall|j: int| 0 <= j < k - 1 implies (#[trigger] rest[j]).name != name by {
            assert(rest[j] == ps[j + 1]);
        }
        if k < ps.len() {
            assert(rest[k - 1] == ps[k]);
        }
        lemma_first_named_is(rest, name, k - 1);
    }
}

/// Every version that a sweep reports is known under the name of its package, the last one of a
/// name in place of those before; that a sweep is done says nothing of a package, but whether
/// requests were refused.
pub proof fn law_reports_are_kept(
    msgs: Seq<MsgModel>,
    name: Seq<char>,
    version: Seq<char>,
    age: Option<u64>,
    count: nat,
    refused: bool,
)
    ensures
        reported(msgs.push(MsgModel::Found(name, version, age))) == reported(msgs).insert(
            name,
            version,
        ),
        reported(msgs.push(MsgModel::Done(count, refused))) == reported(msgs),
        limited(msgs.push(MsgModel::Found(name, version, age))) == limited(msgs),
        limited(msgs.push(MsgModel::Done(count, refused))) == refused,
        reported(Seq::<MsgModel>::empty()) == Map::<Seq<char>, Seq<char>>::empty(),
        !limited(Seq::<MsgModel>::empty()),
{
    assert(msgs.push(MsgModel::Found(name, version, age)).drop_last() =~= msgs);
    assert(msgs.push(MsgModel::Done(count, refused)).drop_last() =~= msgs);
}

/// What the arguments tell the program: a check of updates, perhaps as JSON, a bump of one package
/// or of all of them. Other commands and flags, and packages beyond the one, are refused.
pub proof fn law_commands(name: Seq<char>, other: Seq<char>, flag: Seq<char>)
    requires
        !starts_with(name, "--"@),
        !starts_with(other, "--"@),
        starts_with(flag, "--"@),
    ensures
        command_of(seq!["check-updates"@]) == Ok::<CommandModel, ErrorModel>(
            CommandModel::CheckUpdates { json: false },
        ),
        command_of(seq!["check-updates"@, "--json"@]) == Ok::<CommandModel, ErrorModel>(
            CommandModel::CheckUpdates { json: true },
        ),
        flag != "--json"@ ==> command_of(seq!["check-updates"@, flag]) == Err::<
            CommandModel,
            ErrorModel,
        >(ErrorModel::UnknownFlag(flag)),
        command_of(seq!["check-updates"@, name]) == Err::<CommandModel, ErrorModel>(
            ErrorModel::UnknownFlag(name),
        ),
        command_of(seq!["bump"@, "--all"@]) == Ok::<CommandModel, ErrorModel>(
            CommandModel::BumpAll,
        ),
        command_of(seq!["bump"@, name]) == Ok::<CommandModel, ErrorModel>(
            CommandModel::Bump(name),
        ),
        command_of(seq!["bump"@]) == Err::<CommandModel, ErrorModel>(ErrorModel::NoPackage),
        command_of(seq!["bump"@, name, other]) == Err::<CommandModel, ErrorModel>(
            ErrorModel::TwoPackages,
        ),
        command_of(seq!["bump"@, name, "--all"@]) == Err::<CommandModel, ErrorModel>(
            ErrorModel::AllAndPackage,
        ),
        command_of(seq!["bump"@, "--all"@, name]) == Err::<CommandModel, ErrorModel>(
            ErrorModel::AllAndPackage,
        ),
        flag != "--all"@ ==> command_of(seq!["bump"@, flag]) == Err::<CommandModel, ErrorModel>(
            ErrorModel::UnknownFlag(flag),
        ),
        name != "check-updates"@ && name != "bump"@ ==> command_of(seq![name]) == Err::<
            CommandModel,
            ErrorModel,
        >(ErrorModel::UnknownSubcommand(name)),
{
    reveal_strlit("check-updates");
    reveal_strlit("bump");
    reveal_strlit("--json");
    reveal_strlit("--all");
    reveal_strlit("--");
    let none = Seq::<Seq<char>>::empty();
    assert("check-updates"@[0] != "bump"@[0]);
    assert("--all"@.take(2) =~= "--"@);
    assert("--json"@.take(2) =~= "--"@);
    assert(name != "--all"@ && name != "--json"@);
    assert(other != "--all"@);
    lemma_bump_args(name, other, flag);
    assert(seq!["check-updates"@].drop_first() =~= none);
    assert(seq!["check-updates"@, "--json"@].drop_first() =~= seq!["--json"@]);
    assert(seq!["--json"@].drop_first() =~= none);
    assert(check_command(none, true) == Ok::<CommandModel, ErrorModel>(
        CommandModel::CheckUpdates { json: true },
    ));
    assert(seq!["check-updates"@, flag].drop_first() =~= seq![flag]);
    assert(seq!["check-updates"@, name].drop_first() =~= seq![name]);
}

/// The arguments of a bump.
proof fn lemma_bump_args(name: Seq<char>, other: Seq<char>, flag: Seq<char>)
    requires
        !starts_with(name, "--"@),
        !starts_with(other, "--"@),
        starts_with(flag, "--"@),
        name != "--all"@,
        other != "--all"@,
        "bump"@ != "check-updates"@,
    ensures
        command_of(seq!["bump"@, "--all"@]) == Ok::<CommandModel, ErrorModel>(
            CommandModel::BumpAll,
        ),
        command_of(seq!["bump"@, name]) == Ok::<CommandModel, ErrorModel>(
            CommandModel::Bump(name),
        ),
        command_of(seq!["bump"@]) == Err::<CommandModel, ErrorModel>(ErrorModel::NoPackage),
        command_of(seq!["bump"@, name, other]) == Err::<CommandModel, ErrorModel>(
            ErrorModel::TwoPackages,
        ),
        command_of(seq!["bump"@, name, "--all"@]) == Err::<CommandModel, ErrorModel>(
            ErrorModel::AllAndPackage,
        ),
        command_of(seq!["bump"@, "--all"@, name]) == Err::<CommandModel, ErrorModel>(
            ErrorModel::AllAndPackage,
        ),
        flag != "--all"@ ==> command_of(seq!["bump"@, flag]) == Err::<CommandModel, ErrorModel>(
            ErrorModel::UnknownFlag(flag),
        ),
{
    let none = Seq::<Seq<char>>::empty();
    let all = "--all"@;
    assert(seq!["bump"@, all].drop_first() =~= seq![all]);
    assert(seq![all].drop_first() =~= none);
    assert(bump_command(none, true, None) == Ok::<CommandModel, ErrorModel>(CommandModel::BumpAll));
    assert(seq!["bump"@, name].drop_first() =~= seq![name]);
    assert(seq![name].drop_first() =~= none);
    assert(bump_command(none, false, Some(name)) == Ok::<CommandModel, ErrorModel>(
        CommandModel::Bump(name),
    ));
    assert(seq!["bump"@].drop_first() =~= none);
    assert(seq!["bump"@, name, other].drop_first() =~= seq![name, other]);
    assert(seq![name, other].drop_first() =~= seq![other]);
    assert(bump_command(seq![other], false, Some(name)) == Err::<CommandModel, ErrorModel>(
        ErrorModel::TwoPackages,
    ));
    assert(seq!["bump"@, name, all].drop_first() =~= seq![name, all]);
    assert(seq![name, all].drop_first() =~= seq![all]);
    assert(bump_command(none, true, Some(name)) == Err::<CommandModel, ErrorModel>(
        ErrorModel::AllAndPackage,
    ));
    assert(bump_command(seq![all], false, Some(name)) == Err::<CommandModel, ErrorModel>(
        ErrorModel::AllAndPackage,
    ));
    assert(seq!["bump"@, all, name].drop_first() =~= seq![all, name]);
    assert(seq![all, name].drop_first() =~= seq![name]);
    assert(bump_command(seq![name], true, None) == Err::<CommandModel, ErrorModel>(
        ErrorModel::AllAndPackage,
    ));
    assert(seq!["bump"@, flag].drop_first() =~= seq![flag]);
}

} // verus!
