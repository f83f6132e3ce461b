//! Packages, their templates and their status.

use vstd::prelude::*;
use vstd::slice::slice_subrange;

use crate::shlibs::{
    mismatch_models, shlib_models, MismatchModel, ShlibEntry, ShlibModel, SonameMismatch,
};
use crate::table::{text_at, TextMap};
use crate::template::{
    is_name, name_like, opens, opens_value, scan_start, value_step, Scan, ScanModel,
};
use crate::text::{
    begins, chars_are, chars_of, copy_texts, decimal, ends_with, find_char, find_text, finishes,
    has_char, has_text, index_of, index_of_text, is_digit, last_index_of, lemma_decimal,
    lemma_rfind_char, lines, lines_of, mentions, number, number_u32, parse_number, push_chars, replace, replaced, rfind_char, runs, starts_with,
    strings_of, text_of, text_opt, texts, trim, trim_start_char, trimmed, trimmed_start_char, words,
    words_of,
};
use crate::version::{is_newer, version_newer};

verus! {

broadcast use vstd::seq_lib::group_seq_properties;

// ---------------------------------------------------------------------------------------------
// Packages
// ---------------------------------------------------------------------------------------------

/// What a template says of its package.
#[derive(Debug)]
pub struct Package {
    pub name: String,
    pub version: String,
    pub revision: u32,
    pub short_desc: String,
    pub homepage: String,
    pub build_style: String,
    pub makedepends: Vec<String>,
    pub hostmakedepends: Vec<String>,
    pub depends: Vec<String>,
    pub distfiles: String,
    pub changelog: String,
}

/// The texts of a package.
pub struct PackageModel {
    pub name: Seq<char>,
    pub version: Seq<char>,
    pub revision: u32,
    pub short_desc: Seq<char>,
    pub homepage: Seq<char>,
    pub build_style: Seq<char>,
    pub makedepends: Seq<Seq<char>>,
    pub hostmakedepends: Seq<Seq<char>>,
    pub depends: Seq<Seq<char>>,
    pub distfiles: Seq<char>,
    pub changelog: Seq<char>,
}

impl View for Package {
    type V = PackageModel;

    open spec fn view(&self) -> PackageModel {
        PackageModel {
            name: self.name@,
            version: self.version@,
            revision: self.revision,
            short_desc: self.short_desc@,
            homepage: self.homepage@,
            build_style: self.build_style@,
            makedepends: texts(self.makedepends@),
            hostmakedepends: texts(self.hostmakedepends@),
            depends: texts(self.depends@),
            distfiles: self.distfiles@,
            changelog: self.changelog@,
        }
    }
}

impl Clone for Package {
    fn clone(&self) -> (r: Self)
        ensures
            r@ == self@,
    {
        Package {
            name: self.name.clone(),
            version: self.version.clone(),
            revision: self.revision,
            short_desc: self.short_desc.clone(),
            homepage: self.homepage.clone(),
            build_style: self.build_style.clone(),
            makedepends: copy_texts(&self.makedepends),
            hostmakedepends: copy_texts(&self.hostmakedepends),
            depends: copy_texts(&self.depends),
            distfiles: self.distfiles.clone(),
            changelog: self.changelog.clone(),
        }
    }
}

/// The texts of a sequence of packages.
pub open spec fn models(v: Seq<Package>) -> Seq<PackageModel> {
    Seq::new(v.len(), |i: int| v[i]@)
}

// ---------------------------------------------------------------------------------------------
// Status
// ---------------------------------------------------------------------------------------------

/// Where a package stands on its way from upstream to the system.
#[derive(Debug, Clone, Copy, PartialEq, Eq, Structural)]
pub enum Status {
    UpToDate,
    UpstreamAhead,
    BuildOutdated,
    ReadyToInstall,
    BuildFailed,
}

/// The label that a status is shown with.
pub open spec fn status_label(s: Status) -> Seq<char> {
    match s {
        Status::UpToDate => "UP TO DATE"@,
        Status::UpstreamAhead => "UPSTREAM AHEAD"@,
        Status::BuildOutdated => "BUILD OUTDATED"@,
        Status::ReadyToInstall => "READY TO INSTALL"@,
        Status::BuildFailed => "BUILD FAILED"@,
    }
}

/// The hint that a status is shown with.
pub open spec fn status_hint(s: Status) -> Seq<char> {
    match s {
        Status::UpToDate => "Nothing to do."@,
        Status::UpstreamAhead => "Press t to bump the template to the upstream version."@,
        Status::BuildOutdated => "Press b to build the package."@,
        Status::ReadyToInstall => "Run xi <pkg> to install the built package."@,
        Status::BuildFailed => "Check the build log. Press b to retry."@,
    }
}

impl Status {
    /// The label that the status is shown with.
    pub fn label(&self) -> (r: &'static str)
        ensures
            r@ == status_label(*self),
    {
        match self {
            Status::UpToDate => "UP TO DATE",
            Status::UpstreamAhead => "UPSTREAM AHEAD",
            Status::BuildOutdated => "BUILD OUTDATED",
            Status::ReadyToInstall => "READY TO INSTALL",
            Status::BuildFailed => "BUILD FAILED",
        }
    }
}

/// A package with what is known of it on this system.
#[derive(Debug)]
pub struct PackageState {
    pub package: Package,
    pub installed: Option<String>,
    pub built: Option<String>,
    pub latest: Option<String>,
    pub status: Status,
    pub uncommitted: bool,
    pub shlibs: Vec<ShlibEntry>,
    pub soname_mismatches: Vec<SonameMismatch>,
    pub build_log: Option<String>,
}

/// What a `PackageState` holds.
pub struct StateModel {
    pub package: PackageModel,
    pub installed: Option<Seq<char>>,
    pub built: Option<Seq<char>>,
    pub latest: Option<Seq<char>>,
    pub status: Status,
    pub uncommitted: bool,
    pub shlibs: Seq<ShlibModel>,
    pub soname_mismatches: Seq<MismatchModel>,
    pub build_log: Option<Seq<char>>,
}

impl View for PackageState {
    type V = StateModel;

    open spec fn view(&self) -> StateModel {
        StateModel {
            package: self.package@,
            installed: text_opt(self.installed),
            built: text_opt(self.built),
            latest: text_opt(self.latest),
            status: self.status,
            uncommitted: self.uncommitted,
            shlibs: shlib_models(self.shlibs@),
            soname_mismatches: mismatch_models(self.soname_mismatches@),
            build_log: text_opt(self.build_log),
        }
    }
}

pub open spec fn state_models(v: Seq<PackageState>) -> Seq<StateModel> {
    Seq::new(v.len(), |i: int| v[i]@)
}

/// The "version_revision" of a template.
pub open spec fn template_ver_rev(p: PackageModel) -> Seq<char> {
    p.version + "_"@ + decimal(p.revision as nat)
}

/// What stands behind the last `-` of a "name-version_revision", or all of it without one.
pub open spec fn ver_rev_of(pkgver: Seq<char>) -> Seq<char> {
    match rfind_char(pkgver, '-') {
        Some(i) => pkgver.skip(i + 1),
        None => pkgver,
    }
}

/// The status of a package: the first gap on the way from upstream over the template and the
/// built package to the system.
pub open spec fn status_of(
    p: PackageModel,
    installed: Option<Seq<char>>,
    built: Option<Seq<char>>,
    latest: Option<Seq<char>>,
) -> Status {
    if latest is Some && is_newer(latest->0, p.version) {
        Status::UpstreamAhead
    } else {
        match (installed, built) {
            (None, None) => Status::BuildOutdated,
            (None, Some(_)) => Status::ReadyToInstall,
            (Some(i), Some(b)) => if b != template_ver_rev(p) {
                Status::BuildOutdated
            } else if b != ver_rev_of(i) {
                Status::ReadyToInstall
            } else {
                Status::UpToDate
            },
            (Some(i), None) => if ver_rev_of(i) != template_ver_rev(p) {
                Status::BuildOutdated
            } else {
                Status::UpToDate
            },
        }
    }
}

/// A package is up to date exactly where the version of its template is installed, where nothing
/// else is built of it, and where upstream has nothing newer.
pub proof fn law_up_to_date(
    p: PackageModel,
    installed: Option<Seq<char>>,
    built: Option<Seq<char>>,
    latest: Option<Seq<char>>,
)
    ensures
        status_of(p, installed, built, latest) == Status::UpToDate <==> {
            &&& installed is Some && ver_rev_of(installed->0) == template_ver_rev(p)
            &&& built is Some ==> built->0 == template_ver_rev(p)
            &&& latest is Some ==> !is_newer(latest->0, p.version)
        },
{
}

/// A package is behind upstream exactly where the latest version that upstream is known to have is
/// newer than that of the template, whatever is built and installed.
pub proof fn law_upstream_ahead(
    p: PackageModel,
    installed: Option<Seq<char>>,
    built: Option<Seq<char>>,
    latest: Option<Seq<char>>,
)
    ensures
        status_of(p, installed, built, latest) == Status::UpstreamAhead <==> latest is Some
            && is_newer(latest->0, p.version),
{
}

/// With nothing newer upstream, a package of which something is built and something is installed
/// needs a build exactly where what is built is not the version and revision of the template; one
/// of which nothing is built, exactly where these are not installed.
pub proof fn law_build_outdated(
    p: PackageModel,
    installed: Option<Seq<char>>,
    built: Option<Seq<char>>,
    latest: Option<Seq<char>>,
)
    requires
        latest is Some ==> !is_newer(latest->0, p.version),
    ensures
        installed is Some && built is Some ==> (status_of(p, installed, built, latest)
            == Status::BuildOutdated <==> built->0 != p.version + "_"@ + decimal(
            p.revision as nat,
        )),
        installed is Some && built is None ==> (status_of(p, installed, built, latest)
            == Status::BuildOutdated <==> ver_rev_of(installed->0) != p.version + "_"@ + decimal(
            p.revision as nat,
        )),
        installed is None ==> (status_of(p, installed, built, latest) == Status::BuildOutdated
            <==> built is None),
{
}

/// With nothing newer upstream, a package is ready to be installed exactly where the version and
/// revision of the template are built and something else is installed, or where something is built
/// and nothing is installed.
pub proof fn law_ready_to_install(
    p: PackageModel,
    installed: Option<Seq<char>>,
    built: Option<Seq<char>>,
    latest: Option<Seq<char>>,
)
    requires
        latest is Some ==> !is_newer(latest->0, p.version),
    ensures
        status_of(p, installed, built, latest) == Status::ReadyToInstall <==> built is Some && (
        installed is None || (built->0 == p.version + "_"@ + decimal(p.revision as nat)
            && ver_rev_of(installed->0) != p.version + "_"@ + decimal(p.revision as nat))),
{
}

/// The status never says that a build failed: only a build does.
pub proof fn law_status_is_no_failure(
    p: PackageModel,
    installed: Option<Seq<char>>,
    built: Option<Seq<char>>,
    latest: Option<Seq<char>>,
)
    ensures
        status_of(p, installed, built, latest) != Status::BuildFailed,
{
}

/// What is installed of a package is read behind its name, also where that holds a `-`: the version
/// and the revision of it.
pub proof fn law_installed_version_is_read(name: Seq<char>, version: Seq<char>, revision: nat)
    requires
        !version.contains('-'),
    ensures
        ver_rev_of(name + "-"@ + (version + "_"@ + decimal(revision))) == version + "_"@ + decimal(
            revision,
        ),
{
    reveal_strlit("-");
    reveal_strlit("_");
    let v = version + "_"@ + decimal(revision);
    let s = name + "-"@ + v;
    let n = name.len() as int;
    lemma_decimal(revision);
    lemma_rfind_char(s, '-');
    assert(s[n] == '-');
    let i = rfind_char(s, '-')->0;
    if i > n {
        let k = i - n - 1;
        assert(v[k] == '-');
        if k < version.len() {
            assert(version.contains(version[k]));
        } else if k > version.len() {
            assert(is_digit(decimal(revision)[k - version.len() - 1]));
        }
        assert(false);
    }
    assert(s.skip(n + 1) =~= v);
}

/// The "version_revision" of a package.
pub fn ver_rev(p: &Package) -> (r: String)
    ensures
        r@ == template_ver_rev(p@),
{
    let mut out: String = p.version.clone();
    out.append("_");
    out.append(number(p.revision as u64).as_str());
    out
}

impl PackageState {
    /// The status of a package, from its template, the installed "name-version_revision", the
    /// built "version_revision" and the latest upstream version.
    pub fn compute_status(
        package: &Package,
        installed: &Option<String>,
        built: &Option<String>,
        latest: &Option<String>,
    ) -> (r: Status)
        ensures
            r == status_of(package@, text_opt(*installed), text_opt(*built), text_opt(*latest)),
    {
        let template_ver = ver_rev(package);
        if let Some(latest_ver) = latest {
            if version_newer(latest_ver.as_str(), package.version.as_str()) {
                return Status::UpstreamAhead;
            }
        }
        match installed {
            None => match built {
                None => Status::BuildOutdated,
                Some(_) => Status::ReadyToInstall,
            },
            Some(inst_ver) => {
                let inst_short = installed_to_ver_rev(inst_ver.as_str());
                match built {
                    Some(built_ver) => {
                        if *built_ver != template_ver {
                            Status::BuildOutdated
                        } else if *built_ver != inst_short {
                            Status::ReadyToInstall
                        } else {
                            Status::UpToDate
                        }
                    },
                    None => {
                        if inst_short != template_ver {
                            Status::BuildOutdated
                        } else {
                            Status::UpToDate
                        }
                    },
                }
            },
        }
    }

    /// One-line action hint shown in the detail panel.
    pub fn action_hint(&self) -> (r: &'static str)
        ensures
            r@ == status_hint(self.status),
    {
        match &self.status {
            Status::UpToDate => "Nothing to do.",
            Status::UpstreamAhead => "Press t to bump the template to the upstream version.",
            Status::BuildOutdated => "Press b to build the package.",
            Status::ReadyToInstall => "Run xi <pkg> to install the built package.",
            Status::BuildFailed => "Check the build log. Press b to retry.",
        }
    }
}

/// Whether the version `a` is newer than `b`.
pub fn version_newer_pub(a: &str, b: &str) -> (r: bool)
    ensures
        r == is_newer(a@, b@),
{
    version_newer(a, b)
}

/// Extract "version_revision" from a pkgver like "hyprutils-0.11.0_1".
pub fn installed_to_ver_rev(pkgver: &str) -> (r: String)
    ensures
        r@ == ver_rev_of(pkgver@),
{
    let c = chars_of(pkgver);
    match last_index_of(c.as_slice(), '-') {
        Some(i) => {
            let n: usize = c.len();
            assert(c@.skip(i + 1) =~= c@.subrange(i + 1, c@.len() as int));
            text_of(slice_subrange(c.as_slice(), i + 1, n))
        },
        None => text_of(c.as_slice()),
    }
}

// ---------------------------------------------------------------------------------------------
// Templates
// ---------------------------------------------------------------------------------------------

/// `s` without the double quotes around it, where it has them at both ends.
pub open spec fn unquoted(s: Seq<char>) -> Seq<char> {
    let t = trim(s);
    if t.len() >= 2 && t[0] == '"' && t.last() == '"' {
        t.subrange(1, t.len() - 1)
    } else {
        t
    }
}

/// Whether a trimmed line holds no assignment of the package: comments, control flow, functions
/// and the commands that templates call.
#[verifier::opaque]
pub open spec fn is_skipped(t: Seq<char>) -> bool {
    ||| t.len() == 0
    ||| t[0] == '#'
    ||| starts_with(t, "if "@)
    ||| starts_with(t, "fi"@)
    ||| starts_with(t, "then"@)
    ||| starts_with(t, "else"@)
    ||| ends_with(t, "() {"@)
    ||| t == "}"@
    ||| starts_with(t, "vmove"@)
    ||| starts_with(t, "vlicense"@)
    ||| starts_with(t, "vinstall"@)
    ||| starts_with(t, "vbin"@)
    ||| starts_with(t, "vman"@)
    ||| starts_with(t, "vsed"@)
    ||| starts_with(t, "vcompletion"@)
    ||| starts_with(t, "vcopy"@)
    ||| starts_with(t, "ln "@)
    ||| starts_with(t, "sed "@)
    ||| starts_with(t, "chmod"@)
    ||| starts_with(t, "mkdir"@)
    ||| starts_with(t, "cat "@)
    ||| starts_with(t, "install "@)
    ||| starts_with(t, "rm "@)
    ||| starts_with(t, "local "@)
    ||| starts_with(t, "pkg_install"@)
    ||| (starts_with(t, "depends="@) && has_text(t, "sourcepkg"@))
}

/// `value` behind `old` and a space, or alone where `old` is empty.
pub open spec fn appended(old: Seq<char>, value: Seq<char>) -> Seq<char> {
    if old.len() == 0 {
        value
    } else {
        old.push(' ') + value
    }
}

/// An appending assignment: `rest` is what stands behind the `+=`.
pub open spec fn append_step(st: ScanModel, name: Seq<char>, rest: Seq<char>) -> ScanModel {
    let old = text_at(st.vars, name);
    if opens_value(rest) {
        ScanModel {
            vars: st.vars,
            open: Some(name),
            buf: appended(old, trim(rest.drop_first())),
        }
    } else {
        ScanModel { vars: st.vars.insert(name, appended(old, unquoted(rest))), ..st }
    }
}

/// An assignment: `rest` is what stands behind the `=`. A `$name` stands for the variable's
/// value, and assigns nothing where there is none.
pub open spec fn assign_step(st: ScanModel, name: Seq<char>, rest: Seq<char>) -> ScanModel {
    if !is_name(name) {
        st
    } else if rest.len() > 0 && rest[0] == '$' && !rest.contains('{') {
        let source = trim_start_char(rest, '$');
        if st.vars.contains_key(source) {
            ScanModel { vars: st.vars.insert(name, st.vars[source]), ..st }
        } else {
            st
        }
    } else if opens_value(rest) {
        ScanModel { vars: st.vars, open: Some(name), buf: trim(rest.drop_first()) }
    } else {
        ScanModel { vars: st.vars.insert(name, unquoted(rest)), ..st }
    }
}

/// One line of a template.
pub open spec fn template_step(st: ScanModel, line: Seq<char>) -> ScanModel {
    match st.open {
        Some(name) => value_step(st, name, line),
        None => {
            let t = trim(line);
            if is_skipped(t) {
                st
            } else {
                match find_text(t, "+="@) {
                    Some(i) => append_step(st, trim(t.take(i)), trim(t.skip(i + 2))),
                    None => match find_char(t, '=') {
                        Some(i) => assign_step(st, trim(t.take(i)), trim(t.skip(i + 1))),
                        None => st,
                    },
                }
            }
        },
    }
}

/// The state after the lines `ls`.
pub open spec fn template_scan(ls: Seq<Seq<char>>) -> ScanModel
    decreases ls.len(),
{
    if ls.len() == 0 {
        scan_start()
    } else {
        template_step(template_scan(ls.drop_last()), ls.last())
    }
}

/// The package that the variables describe. A revision that is missing or no number is 1;
/// `${version}` in `distfiles` stands for the version.
pub open spec fn package_of(vars: Map<Seq<char>, Seq<char>>) -> PackageModel {
    let version = text_at(vars, "version"@);
    PackageModel {
        name: text_at(vars, "pkgname"@),
        version,
        revision: match parse_number(text_at(vars, "revision"@), u32::MAX as nat) {
            Some(n) => n as u32,
            None => 1,
        },
        short_desc: text_at(vars, "short_desc"@),
        homepage: text_at(vars, "homepage"@),
        build_style: text_at(vars, "build_style"@),
        makedepends: words(text_at(vars, "makedepends"@)),
        hostmakedepends: words(text_at(vars, "hostmakedepends"@)),
        depends: words(text_at(vars, "depends"@)),
        distfiles: replace(text_at(vars, "distfiles"@), "${version}"@, version),
        changelog: text_at(vars, "changelog"@),
    }
}

/// The package that the template `content` describes.
pub open spec fn template_package(content: Seq<char>) -> PackageModel {
    package_of(template_scan(lines(content)).vars)
}

/// `s` without white space at its ends, and without double quotes around that.
pub fn unquote(s: &[char]) -> (r: &[char])
    ensures
        r@ == unquoted(s@),
{
    let t = trimmed(s);
    if t.len() >= 2 && t[0] == '"' && t[t.len() - 1] == '"' {
        slice_subrange(t, 1, t.len() - 1)
    } else {
        t
    }
}

/// The names in a list that white space separates.
pub fn split_deps(s: &str) -> (r: Vec<String>)
    ensures
        texts(r@) == words(s@),
{
    let c = chars_of(s);
    strings_of(&words_of(c.as_slice()))
}

/// Whether a trimmed line holds no assignment of the package.
fn skipped(t: &[char]) -> (r: bool)
    ensures
        r == is_skipped(t@),
{
    reveal(is_skipped);
    t.len() == 0 || t[0] == '#' || begins(t, "if ") || begins(t, "fi") || begins(t, "then")
        || begins(t, "else") || finishes(t, "() {") || chars_are(t, "}") || begins(t, "vmove")
        || begins(t, "vlicense") || begins(t, "vinstall") || begins(t, "vbin") || begins(t, "vman")
        || begins(t, "vsed") || begins(t, "vcompletion") || begins(t, "vcopy") || begins(t, "ln ")
        || begins(t, "sed ") || begins(t, "chmod") || begins(t, "mkdir") || begins(t, "cat ")
        || begins(t, "install ") || begins(t, "rm ") || begins(t, "local ") || begins(
        t,
        "pkg_install",
    ) || (begins(t, "depends=") && mentions(t, "sourcepkg"))
}

/// `value` behind `old` and a space, or alone where `old` is empty.
fn append_to(old: &str, value: &[char]) -> (r: Vec<char>)
    ensures
        r@ == appended(old@, value@),
{
    let mut out = chars_of(old);
    if out.len() > 0 {
        out.push(' ');
    }
    push_chars(&mut out, value);
    out
}

/// Reads an appending assignment.
fn append_line(scan: &mut Scan, name: &[char], rest: &[char])
    requires
        old(scan).vars.wf(),
        old(scan).open is None,
    ensures
        final(scan)@ == append_step(old(scan)@, name@, rest@),
        final(scan).vars.wf(),
{
    let key = text_of(name);
    let old_value = scan.vars.text_or_empty(key.as_str());
    if opens(rest) {
        assert(rest@.drop_first() =~= rest@.subrange(1, rest@.len() as int));
        let first = trimmed(slice_subrange(rest, 1, rest.len()));
        let value = append_to(old_value.as_str(), first);
        scan.open_value(name, value);
    } else {
        let value = append_to(old_value.as_str(), unquote(rest));
        scan.assign(name, value.as_slice());
    }
}

/// Reads an assignment.
fn assign_line(scan: &mut Scan, name: &[char], rest: &[char])
    requires
        old(scan).vars.wf(),
        old(scan).open is None,
    ensures
        final(scan)@ == assign_step(old(scan)@, name@, rest@),
        final(scan).vars.wf(),
{
    if !name_like(name) {
        return;
    }
    if rest.len() > 0 && rest[0] == '$' && !has_char(rest, '{') {
        let source = text_of(trimmed_start_char(rest, '$'));
        if scan.vars.contains_key(source.as_str()) {
            let value = chars_of(scan.vars.text_or_empty(source.as_str()).as_str());
            scan.assign(name, value.as_slice());
        }
        return;
    }
    if opens(rest) {
        assert(rest@.drop_first() =~= rest@.subrange(1, rest@.len() as int));
        let first = trimmed(slice_subrange(rest, 1, rest.len()));
        let mut value: Vec<char> = Vec::new();
        push_chars(&mut value, first);
        scan.open_value(name, value);
    } else {
        scan.assign(name, unquote(rest));
    }
}

/// Reads one line of a template.
fn template_line(scan: &mut Scan, line: &[char])
    requires
        old(scan).vars.wf(),
    ensures
        final(scan)@ == template_step(old(scan)@, line@),
        final(scan).vars.wf(),
{
    if scan.open.is_some() {
        scan.value_line(line);
        return;
    }
    let t = trimmed(line);
    if skipped(t) {
        return;
    }
    let n: usize = t.len();
    let plus = chars_of("+=");
    proof {
        reveal_strlit("+=");
    }
    match index_of_text(t, plus.as_slice()) {
        Some(i) => {
            assert(t@.take(i as int) =~= t@.subrange(0, i as int));
            assert(t@.skip(i + 2) =~= t@.subrange(i + 2, t@.len() as int));
            let name = trimmed(slice_subrange(t, 0, i));
            let rest = trimmed(slice_subrange(t, i + 2, n));
            append_line(scan, name, rest);
        },
        None => match index_of(t, '=') {
            Some(i) => {
                assert(t@.take(i as int) =~= t@.subrange(0, i as int));
                assert(t@.skip(i + 1) =~= t@.subrange(i + 1, t@.len() as int));
                let name = trimmed(slice_subrange(t, 0, i));
                let rest = trimmed(slice_subrange(t, i + 1, n));
                assign_line(scan, name, rest);
            },
            None => {},
        },
    }
}

/// The package that the variables describe.
fn package_from(vars: &TextMap<String>) -> (r: Package)
    ensures
        r@ == package_of(vars.text_map()),
{
    let version = vars.text_or_empty("version");
    let pattern = chars_of("${version}");
    proof {
        reveal_strlit("${version}");
    }
    let raw = chars_of(vars.text_or_empty("distfiles").as_str());
    let with = chars_of(version.as_str());
    let distfiles = replaced(raw.as_slice(), pattern.as_slice(), with.as_slice());
    let revision_text = chars_of(vars.text_or_empty("revision").as_str());
    let revision: u32 = match number_u32(revision_text.as_slice()) {
        Some(n) => n,
        None => 1,
    };
    Package {
        name: vars.text_or_empty("pkgname"),
        version,
        revision,
        short_desc: vars.text_or_empty("short_desc"),
        homepage: vars.text_or_empty("homepage"),
        build_style: vars.text_or_empty("build_style"),
        makedepends: split_deps(vars.text_or_empty("makedepends").as_str()),
        hostmakedepends: split_deps(vars.text_or_empty("hostmakedepends").as_str()),
        depends: split_deps(vars.text_or_empty("depends").as_str()),
        distfiles: text_of(distfiles.as_slice()),
        changelog: vars.text_or_empty("changelog"),
    }
}

/// Reads the lines of a template.
fn scan_template(content: &str) -> (scan: Scan)
    ensures
        scan@ == template_scan(lines(content@)),
{
    let text = chars_of(content);
    let all = lines_of(text.as_slice());
    let ghost ls = lines(content@);
    let mut scan = Scan::start();
    let mut i: usize = 0;
    assert(ls.take(0) =~= Seq::<Seq<char>>::empty());
    while i < all.len()
        invariant
            i <= all@.len(),
            runs(all@) == ls,
            scan@ == template_scan(ls.take(i as int)),
            scan.vars.wf(),
        decreases all@.len() - i,
    {
        proof {
            assert(runs(all@)[i as int] == all@[i as int]@);
            lemma_template_scan_step(ls, i as int);
        }
        template_line(&mut scan, all[i]);
        i += 1;
    }
    assert(ls.take(i as int) =~= ls);
    scan
}

proof fn lemma_template_scan_step(ls: Seq<Seq<char>>, i: int)
    requires
        0 <= i < ls.len(),
    ensures
        template_scan(ls.take(i + 1)) == template_step(template_scan(ls.take(i)), ls[i]),
{
    assert(ls.take(i + 1).drop_last() =~= ls.take(i));
    assert(ls.take(i + 1).last() == ls[i]);
}

/// Parse the text of a void-packages template into a package.
pub fn parse_template(content: &str) -> (r: Package)
    ensures
        r@ == template_package(content@),
{
    let scan = scan_template(content);
    package_from(&scan.vars)
}

} // verus!
