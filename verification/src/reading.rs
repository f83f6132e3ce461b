//! What templates say: how their lines become the fields of a package.

use vstd::prelude::*;

use crate::bump::{
    is_plain, is_value, lemma_assign_line, lemma_rename_taken_off, lemma_step,
    lemma_trim_indented, open_at, target,
};
use crate::line::{law_words_add_up, law_words_of_trimmed};
use crate::package::{
    appended, assign_step, is_skipped, package_of, template_package, template_scan, template_step,
    unquoted,
};
use crate::table::text_at;
use crate::template::{
    before_quote, byte_len, distfiles_url, expanded, is_name, lemma_byte_len_prefix,
    lemma_longest_first, longest_first,
    opens_value, raw_scan, raw_step, substitute, substitute_all, ScanModel,
};
use crate::text::{
    decimal, ends_with, find_char, find_text, has_text, is_alnum, is_digit, is_white, join,
    law_decimal_reads_back, lemma_decimal, lemma_find_char, lemma_find_char_is, lemma_find_text,
    lemma_find_text_behind, lemma_rfind_char, lines, replace, rfind_char, starts_with, trim,
    trim_char, trim_start_char, words,
};

verus! {

broadcast use vstd::seq_lib::group_seq_properties;

// ---------------------------------------------------------------------------------------------
// Single lines
// ---------------------------------------------------------------------------------------------

/// Whether `name` is a variable from which a field of the package comes.
pub open spec fn is_field(name: Seq<char>) -> bool {
    ||| name == "pkgname"@
    ||| name == "version"@
    ||| name == "revision"@
    ||| name == "short_desc"@
    ||| name == "homepage"@
    ||| name == "build_style"@
    ||| name == "makedepends"@
    ||| name == "hostmakedepends"@
    ||| name == "depends"@
    ||| name == "distfiles"@
    ||| name == "changelog"@
}

/// The letters of the fields' variables.
proof fn lemma_field(name: Seq<char>)
    requires
        is_field(name),
    ensures
        name.len() >= 4,
        is_name(name),
        !is_white(name[0]),
        !is_white(name.last()),
        forall|i: int| 0 <= i < name.len() ==> #[trigger] name[i] != '=' && name[i] != '+'
            && name[i] != '(' && name[i] != ')' && name[i] != ' ' && name[i] != '{',
        name[0] != '#',
{
    reveal_strlit("pkgname");
    reveal_strlit("version");
    reveal_strlit("revision");
    reveal_strlit("short_desc");
    reveal_strlit("homepage");
    reveal_strlit("build_style");
    reveal_strlit("makedepends");
    reveal_strlit("hostmakedepends");
    reveal_strlit("depends");
    reveal_strlit("distfiles");
    reveal_strlit("changelog");
}

/// The first letters of the fields' variables.
spec fn starts_like_field(t: Seq<char>) -> bool {
    ||| t[0] == 'p' && t[1] == 'k' && t[2] == 'g' && t[3] == 'n'
    ||| t[0] == 'v' && t[1] == 'e'
    ||| t[0] == 'r' && t[1] == 'e'
    ||| t[0] == 's' && t[1] == 'h'
    ||| t[0] == 'h' && t[1] == 'o'
    ||| t[0] == 'b' && t[1] == 'u'
    ||| t[0] == 'm' && t[1] == 'a'
    ||| t[0] == 'd' && t[1] == 'e'
    ||| t[0] == 'd' && t[1] == 'i'
    ||| t[0] == 'c' && t[1] == 'h' && t[2] == 'a'
}

proof fn lemma_field_starts(name: Seq<char>, rest: Seq<char>)
    requires
        is_field(name),
    ensures
        (name + rest).len() >= 4,
        starts_like_field(name + rest),
        starts_with(name + rest, "depends="@) ==> name == "depends"@,
{
    reveal_strlit("pkgname");
    reveal_strlit("version");
    reveal_strlit("revision");
    reveal_strlit("short_desc");
    reveal_strlit("homepage");
    reveal_strlit("build_style");
    reveal_strlit("makedepends");
    reveal_strlit("hostmakedepends");
    reveal_strlit("depends");
    reveal_strlit("distfiles");
    reveal_strlit("changelog");
    reveal_strlit("depends=");
    let t = name + rest;
    assert(t[0] == name[0] && t[1] == name[1] && t[2] == name[2] && t[3] == name[3]);
    if starts_with(t, "depends="@) {
        assert(t.take(8)[0] == 'd');
        assert(t.take(8)[1] == 'e');
    }
}

/// A text that starts with another has its letters.
proof fn lemma_starts(t: Seq<char>, p: Seq<char>)
    ensures
        starts_with(t, p) ==> forall|i: int| 0 <= i < p.len() ==> t[i] == #[trigger] p[i],
{
    if starts_with(t, p) {
        assert forall|i: int| 0 <= i < p.len() implies t[i] == #[trigger] p[i] by {
            assert(t.take(p.len() as int)[i] == t[i]);
        }
    }
}

/// No command of a template starts like a field.
proof fn lemma_no_command(t: Seq<char>, p: Seq<char>)
    requires
        t.len() >= 4,
        starts_like_field(t),
        p == "if "@ || p == "fi"@ || p == "then"@ || p == "else"@ || p == "vmove"@ || p
            == "vlicense"@ || p == "vinstall"@ || p == "vbin"@ || p == "vman"@ || p == "vsed"@ || p
            == "vcompletion"@ || p == "vcopy"@ || p == "ln "@ || p == "sed "@ || p == "chmod"@ || p
            == "mkdir"@ || p == "cat "@ || p == "install "@ || p == "rm "@ || p == "local "@ || p
            == "pkg_install"@,
    ensures
        !starts_with(t, p),
{
    reveal_strlit("if ");
    reveal_strlit("fi");
    reveal_strlit("then");
    reveal_strlit("else");
    reveal_strlit("vmove");
    reveal_strlit("vlicense");
    reveal_strlit("vinstall");
    reveal_strlit("vbin");
    reveal_strlit("vman");
    reveal_strlit("vsed");
    reveal_strlit("vcompletion");
    reveal_strlit("vcopy");
    reveal_strlit("ln ");
    reveal_strlit("sed ");
    reveal_strlit("chmod");
    reveal_strlit("mkdir");
    reveal_strlit("cat ");
    reveal_strlit("install ");
    reveal_strlit("rm ");
    reveal_strlit("local ");
    reveal_strlit("pkg_install");
    lemma_starts(t, p);
    if starts_with(t, p) {
        assert(t[0] == p[0]);
        assert(t[1] == p[1]);
        if p.len() > 2 {
            assert(t[2] == p[2]);
        }
        if p.len() > 3 {
            assert(t[3] == p[3]);
        }
    }
}

/// A line that assigns or appends to a field is not among those that are passed over, but for the
/// head of a function and what a subpackage says of its own dependencies.
proof fn lemma_field_not_skipped(name: Seq<char>, rest: Seq<char>)
    requires
        is_field(name),
        !ends_with(name + rest, "() {"@),
        name == "depends"@ ==> !has_text(name + rest, "sourcepkg"@),
    ensures
        !is_skipped(name + rest),
{
    let t = name + rest;
    reveal(is_skipped);
    reveal_strlit("}");
    lemma_field(name);
    lemma_field_starts(name, rest);
    assert(t[0] == name[0]);
    lemma_no_command(t, "if "@);
    lemma_no_command(t, "fi"@);
    lemma_no_command(t, "then"@);
    lemma_no_command(t, "else"@);
    lemma_no_command(t, "vmove"@);
    lemma_no_command(t, "vlicense"@);
    lemma_no_command(t, "vinstall"@);
    lemma_no_command(t, "vbin"@);
    lemma_no_command(t, "vman"@);
    lemma_no_command(t, "vsed"@);
    lemma_no_command(t, "vcompletion"@);
    lemma_no_command(t, "vcopy"@);
    lemma_no_command(t, "ln "@);
    lemma_no_command(t, "sed "@);
    lemma_no_command(t, "chmod"@);
    lemma_no_command(t, "mkdir"@);
    lemma_no_command(t, "cat "@);
    lemma_no_command(t, "install "@);
    lemma_no_command(t, "rm "@);
    lemma_no_command(t, "local "@);
    lemma_no_command(t, "pkg_install"@);
}

/// A part of a text that ends like a longer one.
proof fn lemma_ends_behind(a: Seq<char>, v: Seq<char>)
    requires
        a.len() > 0,
        a.last() == '=',
        forall|i: int| 0 <= i < a.len() ==> #[trigger] a[i] != '(' && a[i] != '{',
        ends_with(a + v, "() {"@),
    ensures
        ends_with(v, "() {"@),
{
    reveal_strlit("() {");
    let t = a + v;
    let k = t.len() - 4;
    let e = t.skip(k);
    assert(e[0] == '(' && e[3] == '{');
    assert(t[k] == '(' && t[k + 3] == '{');
    if k < a.len() {
        assert(a[k] == '(');
    }
    assert(v.skip(v.len() - 4) =~= e);
}

/// A line that assigns a field outside of quoted values sets its variable to the value, without the
/// double quotes around it, and nothing else.
pub proof fn law_field_line_is_read(st: ScanModel, line: Seq<char>, name: Seq<char>, v: Seq<char>)
    requires
        st.open is None,
        is_field(name),
        trim(line) == name.push('=') + v,
        is_value(v),
        name == "depends"@ ==> !has_text(name.push('=') + v, "sourcepkg"@),
    ensures
        template_step(st, line) == (ScanModel { vars: st.vars.insert(name, unquoted(v)), ..st }),
{
    let head = name.push('=');
    lemma_field(name);
    assert(head + v =~= name + (seq!['='] + v));
    if ends_with(head + v, "() {"@) {
        lemma_ends_behind(head, v);
    }
    lemma_field_not_skipped(name, seq!['='] + v);
    lemma_assign_line(st, line, name, head, v);
}

/// A value in double quotes is what stands between them.
pub proof fn law_quotes_are_taken_off(x: Seq<char>)
    requires
        !x.contains('"'),
        !x.contains('\n'),
        !has_text(x, "+="@),
    ensures
        is_value("\""@ + x + "\""@),
        unquoted("\""@ + x + "\""@) == x,
{
    reveal_strlit("\"");
    reveal_strlit("() {");
    reveal_strlit("+=");
    let v = "\""@ + x + "\""@;
    let n = v.len() as int;
    assert(v[0] == '"' && v.last() == '"');
    lemma_trim_indented(Seq::<char>::empty(), v);
    assert(Seq::<char>::empty() + v =~= v);
    assert(v.drop_first()[n - 2] == '"');
    assert(v.drop_first().contains('"'));
    assert(v.subrange(1, n - 1) =~= x);
    if v.contains('\n') {
        let i = choose|i: int| 0 <= i < v.len() && v[i] == '\n';
        assert(x[i - 1] == '\n');
    }
    if ends_with(v, "() {"@) {
        assert(v.skip(n - 4)[3] == v[n - 1]);
    }
    lemma_no_append_inside(x);
}

/// Double quotes around a text bring in no mark of an appending assignment.
proof fn lemma_no_append_inside(x: Seq<char>)
    requires
        !has_text(x, "+="@),
    ensures
        !has_text("\""@ + x + "\""@, "+="@),
{
    reveal_strlit("\"");
    reveal_strlit("+=");
    let v = "\""@ + x + "\""@;
    lemma_find_text(v, "+="@);
    lemma_find_text(x, "+="@);
    if let Some(i) = find_text(v, "+="@) {
        let sub = v.subrange(i, i + 2);
        assert(sub[0] == v[i] && sub[1] == v[i + 1]);
        assert(x[i - 1] == '+' && x[i] == '=');
        assert(x.skip(i - 1).take(2) =~= "+="@);
        assert(starts_with(x.skip(i - 1), "+="@));
    }
}

// ---------------------------------------------------------------------------------------------
// Values over several lines, and values that are appended
// ---------------------------------------------------------------------------------------------

/// A line that opens the value of a field, in double quotes that it does not close.
proof fn lemma_field_opens(st: ScanModel, line: Seq<char>, name: Seq<char>, x: Seq<char>)
    requires
        st.open is None,
        is_field(name),
        trim(line) == name.push('=') + ("\""@ + x),
        trim("\""@ + x) == "\""@ + x,
        !x.contains('"'),
        !has_text(name.push('=') + ("\""@ + x), "+="@),
        !ends_with(name.push('=') + ("\""@ + x), "() {"@),
        name == "depends"@ ==> !has_text(name.push('=') + ("\""@ + x), "sourcepkg"@),
    ensures
        template_step(st, line) == (ScanModel { vars: st.vars, open: Some(name), buf: trim(x) }),
{
    reveal_strlit("\"");
    let head = name.push('=');
    let v = "\""@ + x;
    let t = head + v;
    let n = name.len() as int;
    lemma_field(name);
    assert(t =~= name + (seq!['='] + v));
    lemma_field_not_skipped(name, seq!['='] + v);
    assert(t[n] == '=');
    assert forall|j: int| 0 <= j < n implies t[j] != '=' by {
        assert(t[j] == name[j]);
    }
    lemma_find_char_is(t, '=', n);
    assert(t.take(n) =~= name);
    assert(t.skip(n + 1) =~= v);
    assert(v[0] == '"');
    assert(v.drop_first() =~= x);
    lemma_trim_indented(Seq::<char>::empty(), name);
    assert(Seq::<char>::empty() + name =~= name);
}

/// What a scan has gathered after further lines of an open value.
proof fn lemma_value_lines(ls: Seq<Seq<char>>, mids: Seq<Seq<char>>)
    requires
        template_scan(ls).open is Some,
        forall|i: int| 0 <= i < mids.len() ==> !(#[trigger] mids[i]).contains('"'),
    ensures
        template_scan(ls + mids).open == template_scan(ls).open,
        template_scan(ls + mids).vars == template_scan(ls).vars,
        words(template_scan(ls + mids).buf) == words(template_scan(ls).buf) + words(
            join(mids, " "@),
        ),
    decreases mids.len(),
{
    reveal_strlit(" ");
    let none = Seq::<char>::empty();
    assert(words(none) =~= Seq::<Seq<char>>::empty());
    let start = template_scan(ls).buf;
    if mids.len() == 0 {
        assert(ls + mids =~= ls);
        assert(words(start) + words(join(mids, " "@)) =~= words(start));
    } else {
        let front = mids.drop_last();
        let line = mids[mids.len() - 1];
        assert forall|i: int| 0 <= i < front.len() implies !(#[trigger] front[i]).contains('"') by {
            assert(front[i] == mids[i]);
        }
        lemma_value_lines(ls, front);
        assert((ls + mids).drop_last() =~= ls + front);
        assert((ls + mids).last() == line);
        let before = template_scan(ls + front);
        let after = template_scan(ls + mids);
        assert(after.buf == before.buf.push(' ') + trim(line));
        assert(after.buf =~= before.buf + " "@ + trim(line));
        law_words_add_up(before.buf, trim(line));
        law_words_of_trimmed(line);
        if front.len() > 0 {
            assert(join(mids, " "@) == join(front, " "@) + " "@ + line);
            law_words_add_up(join(front, " "@), line);
        } else {
            assert(join(mids, " "@) == line);
            assert(words(start) + words(join(front, " "@)) =~= words(start));
        }
        assert((words(start) + words(join(front, " "@))) + words(line) =~= words(start) + words(
            join(mids, " "@),
        ));
    }
}

/// A list whose double quotes run over several lines has the words of all of these lines, up to the
/// closing quote, in order.
pub proof fn law_list_runs_over_lines(
    ls: Seq<Seq<char>>,
    first: Seq<char>,
    mids: Seq<Seq<char>>,
    last: Seq<char>,
    name: Seq<char>,
    x: Seq<char>,
)
    requires
        template_scan(ls).open is None,
        is_field(name),
        trim(first) == name.push('=') + ("\""@ + x),
        trim("\""@ + x) == "\""@ + x,
        !x.contains('"'),
        !has_text(name.push('=') + ("\""@ + x), "+="@),
        !ends_with(name.push('=') + ("\""@ + x), "() {"@),
        name == "depends"@ ==> !has_text(name.push('=') + ("\""@ + x), "sourcepkg"@),
        forall|i: int| 0 <= i < mids.len() ==> !(#[trigger] mids[i]).contains('"'),
        last.contains('"'),
    ensures
        ({
            let end = template_scan((ls.push(first) + mids).push(last));
            &&& end.open is None
            &&& words(text_at(end.vars, name)) == words(x) + words(join(mids, " "@)) + words(
                last.take(find_char(last, '"')->0),
            )
            &&& forall|other: Seq<char>|
                other != name ==> text_at(end.vars, other) == #[trigger] text_at(
                    template_scan(ls).vars,
                    other,
                )
        }),
{
    reveal_strlit(" ");
    lemma_field_opens(template_scan(ls), first, name, x);
    let one = ls.push(first);
    assert(one.drop_last() =~= ls);
    lemma_value_lines(one, mids);
    let two = one + mids;
    let all = two.push(last);
    assert(all.drop_last() =~= two);
    let mid = template_scan(two);
    let end = template_scan(all);
    lemma_find_char(last, '"');
    let b = last.take(find_char(last, '"')->0);
    assert(before_quote(last) == b);
    let value = mid.buf.push(' ') + trim(b);
    assert(value =~= mid.buf + " "@ + trim(b));
    assert(end == (ScanModel { vars: mid.vars.insert(name, trim(value)), open: None, buf: seq![] }));
    law_words_of_trimmed(value);
    law_words_add_up(mid.buf, trim(b));
    law_words_of_trimmed(b);
    law_words_of_trimmed(x);
}

/// What is appended to a field comes behind what it held: the words of the one and then those of
/// the other.
pub proof fn law_appended_words_follow(
    st: ScanModel,
    line: Seq<char>,
    name: Seq<char>,
    v: Seq<char>,
)
    requires
        st.open is None,
        is_field(name),
        trim(line) == name + "+="@ + v,
        trim(v) == v,
        !opens_value(v),
        !ends_with(name + "+="@ + v, "() {"@),
        name == "depends"@ ==> !has_text(name + "+="@ + v, "sourcepkg"@),
    ensures
        ({
            let after = template_step(st, line);
            &&& after.open is None
            &&& words(text_at(after.vars, name)) == words(text_at(st.vars, name)) + words(
                unquoted(v),
            )
            &&& forall|other: Seq<char>|
                other != name ==> text_at(after.vars, other) == #[trigger] text_at(st.vars, other)
        }),
{
    reveal_strlit("+=");
    reveal_strlit(" ");
    let t = name + "+="@ + v;
    let n = name.len() as int;
    lemma_field(name);
    assert(t =~= name + ("+="@ + v));
    lemma_field_not_skipped(name, "+="@ + v);
    lemma_name_lacks_plus(name);
    assert("+="@[0] == '+');
    lemma_find_text_behind(name, "+="@, v);
    assert(t.take(n) =~= name);
    assert(t.skip(n + 2) =~= v);
    lemma_trim_indented(Seq::<char>::empty(), name);
    assert(Seq::<char>::empty() + name =~= name);
    let old = text_at(st.vars, name);
    let new = unquoted(v);
    assert(text_at(template_step(st, line).vars, name) == appended(old, new));
    if old.len() == 0 {
        assert(words(old) =~= Seq::<Seq<char>>::empty());
        assert(words(old) + words(new) =~= words(new));
    } else {
        assert(appended(old, new) =~= old + " "@ + new);
        law_words_add_up(old, new);
    }
}

/// A line that appends to a field, with double quotes that it does not close.
proof fn lemma_append_opens(st: ScanModel, line: Seq<char>, name: Seq<char>, x: Seq<char>)
    requires
        st.open is None,
        is_field(name),
        trim(line) == name + "+="@ + ("\""@ + x),
        trim("\""@ + x) == "\""@ + x,
        !x.contains('"'),
        !ends_with(name + "+="@ + ("\""@ + x), "() {"@),
        name == "depends"@ ==> !has_text(name + "+="@ + ("\""@ + x), "sourcepkg"@),
    ensures
        template_step(st, line) == (ScanModel {
            vars: st.vars,
            open: Some(name),
            buf: appended(text_at(st.vars, name), trim(x)),
        }),
{
    reveal_strlit("+=");
    reveal_strlit("\"");
    let v = "\""@ + x;
    let t = name + "+="@ + v;
    let n = name.len() as int;
    lemma_field(name);
    assert(t =~= name + ("+="@ + v));
    lemma_field_not_skipped(name, "+="@ + v);
    lemma_name_lacks_plus(name);
    assert("+="@[0] == '+');
    lemma_find_text_behind(name, "+="@, v);
    assert(t.take(n) =~= name);
    assert(t.skip(n + 2) =~= v);
    lemma_trim_indented(Seq::<char>::empty(), name);
    assert(Seq::<char>::empty() + name =~= name);
    assert(v[0] == '"');
    assert(v.drop_first() =~= x);
}

proof fn lemma_name_lacks_plus(name: Seq<char>)
    requires
        is_field(name),
    ensures
        !name.contains('+'),
{
    lemma_field(name);
    if name.contains('+') {
        let i = choose|i: int| 0 <= i < name.len() && name[i] == '+';
        assert(name[i] != '+');
    }
}

/// A list that is appended over several lines has what it held, and then the words of all of these
/// lines, up to the closing quote, in order.
pub proof fn law_appended_list_runs_over_lines(
    ls: Seq<Seq<char>>,
    first: Seq<char>,
    mids: Seq<Seq<char>>,
    last: Seq<char>,
    name: Seq<char>,
    x: Seq<char>,
)
    requires
        template_scan(ls).open is None,
        is_field(name),
        trim(first) == name + "+="@ + ("\""@ + x),
        trim("\""@ + x) == "\""@ + x,
        !x.contains('"'),
        !ends_with(name + "+="@ + ("\""@ + x), "() {"@),
        name == "depends"@ ==> !has_text(name + "+="@ + ("\""@ + x), "sourcepkg"@),
        forall|i: int| 0 <= i < mids.len() ==> !(#[trigger] mids[i]).contains('"'),
        last.contains('"'),
    ensures
        ({
            let end = template_scan((ls.push(first) + mids).push(last));
            &&& end.open is None
            &&& words(text_at(end.vars, name)) == words(text_at(template_scan(ls).vars, name))
                + words(x) + words(join(mids, " "@)) + words(last.take(find_char(last, '"')->0))
        }),
{
    reveal_strlit(" ");
    let old = text_at(template_scan(ls).vars, name);
    lemma_append_opens(template_scan(ls), first, name, x);
    let one = ls.push(first);
    assert(one.drop_last() =~= ls);
    let start = appended(old, trim(x));
    assert(words(start) == words(old) + words(x)) by {
        law_words_of_trimmed(x);
        if old.len() == 0 {
            assert(words(old) =~= Seq::<Seq<char>>::empty());
            assert(words(old) + words(x) =~= words(x));
        } else {
            assert(start =~= old + " "@ + trim(x));
            law_words_add_up(old, trim(x));
        }
    }
    lemma_value_lines(one, mids);
    let two = one + mids;
    let all = two.push(last);
    assert(all.drop_last() =~= two);
    let mid = template_scan(two);
    lemma_find_char(last, '"');
    let b = last.take(find_char(last, '"')->0);
    assert(before_quote(last) == b);
    let value = mid.buf.push(' ') + trim(b);
    assert(value =~= mid.buf + " "@ + trim(b));
    assert(template_scan(all) == (ScanModel {
        vars: mid.vars.insert(name, trim(value)),
        open: None,
        buf: seq![],
    }));
    law_words_of_trimmed(value);
    law_words_add_up(mid.buf, trim(b));
    law_words_of_trimmed(b);
}

// ---------------------------------------------------------------------------------------------
// Whole templates
// ---------------------------------------------------------------------------------------------

/// Whether the line at `i` is what a template says of the variable `name`: it assigns it `v`
/// outside of quoted values, and no later line writes to it.
pub open spec fn says(ls: Seq<Seq<char>>, i: int, name: Seq<char>, v: Seq<char>) -> bool {
    &&& 0 <= i < ls.len()
    &&& open_at(ls.take(i)) is None
    &&& trim(ls[i]) == name.push('=') + v
    &&& forall|j: int|
        i < j < ls.len() ==> target(open_at(ls.take(j)), #[trigger] ls[j]) != Some(name)
}

/// Which value is open after some lines.
proof fn lemma_open(ls: Seq<Seq<char>>)
    ensures
        template_scan(ls).open == open_at(ls),
    decreases ls.len(),
{
    if ls.len() > 0 {
        lemma_open(ls.drop_last());
        lemma_step(template_scan(ls.drop_last()), ls.last());
    }
}

/// A variable keeps its value over lines that do not write to it.
proof fn lemma_kept(ls: Seq<Seq<char>>, i: int, k: int, name: Seq<char>)
    requires
        0 <= i < k <= ls.len(),
        forall|j: int|
            i < j < ls.len() ==> target(open_at(ls.take(j)), #[trigger] ls[j]) != Some(name),
    ensures
        text_at(template_scan(ls.take(k)).vars, name) == text_at(
            template_scan(ls.take(i + 1)).vars,
            name,
        ),
    decreases k,
{
    if k > i + 1 {
        lemma_kept(ls, i, k - 1, name);
        assert(ls.take(k).drop_last() =~= ls.take(k - 1));
        assert(ls.take(k).last() == ls[k - 1]);
        lemma_open(ls.take(k - 1));
        let st = template_scan(ls.take(k - 1));
        lemma_step(st, ls[k - 1]);
        assert(target(open_at(ls.take(k - 1)), ls[k - 1]) != Some(name));
        assert(template_step(st, ls[k - 1]).vars.contains_key(name) == st.vars.contains_key(name));
    }
}

/// What a template says of a variable is the value that it has at the end.
proof fn lemma_says(ls: Seq<Seq<char>>, i: int, name: Seq<char>, v: Seq<char>)
    requires
        says(ls, i, name, v),
        is_field(name),
        is_value(v),
        name == "depends"@ ==> !has_text(name.push('=') + v, "sourcepkg"@),
    ensures
        text_at(template_scan(ls).vars, name) == unquoted(v),
{
    lemma_open(ls.take(i));
    law_field_line_is_read(template_scan(ls.take(i)), ls[i], name, v);
    assert(ls.take(i + 1).drop_last() =~= ls.take(i));
    assert(ls.take(i + 1).last() == ls[i]);
    lemma_kept(ls, i, ls.len() as int, name);
    assert(ls.take(ls.len() as int) =~= ls);
}

/// What a template says is what its package has: each text in its own field, each list by its
/// words.
pub proof fn law_package_has_what_template_says(
    content: Seq<char>,
    i: int,
    name: Seq<char>,
    v: Seq<char>,
)
    requires
        says(lines(content), i, name, v),
        is_field(name),
        is_value(v),
        name == "depends"@ ==> !has_text(name.push('=') + v, "sourcepkg"@),
    ensures
        name == "pkgname"@ ==> template_package(content).name == unquoted(v),
        name == "version"@ ==> template_package(content).version == unquoted(v),
        name == "short_desc"@ ==> template_package(content).short_desc == unquoted(v),
        name == "homepage"@ ==> template_package(content).homepage == unquoted(v),
        name == "build_style"@ ==> template_package(content).build_style == unquoted(v),
        name == "changelog"@ ==> template_package(content).changelog == unquoted(v),
        name == "makedepends"@ ==> template_package(content).makedepends == words(unquoted(v)),
        name == "hostmakedepends"@ ==> template_package(content).hostmakedepends == words(
            unquoted(v),
        ),
        name == "depends"@ ==> template_package(content).depends == words(unquoted(v)),
        name == "distfiles"@ && !unquoted(v).contains('$') ==> template_package(content).distfiles
            == unquoted(v),
{
    lemma_says(lines(content), i, name, v);
    if name == "distfiles"@ && !unquoted(v).contains('$') {
        lemma_no_reference(unquoted(v), template_package(content).version);
    }
}

/// A number is read as it is written.
proof fn lemma_decimal_is_plain(n: nat)
    ensures
        is_plain(decimal(n)),
{
    reveal_strlit("+=");
    reveal_strlit("() {");
    let v = decimal(n);
    lemma_decimal(n);
    assert(is_digit(v[0]) && is_digit(v[v.len() - 1]));
    lemma_trim_indented(Seq::<char>::empty(), v);
    assert(Seq::<char>::empty() + v =~= v);
    if v.contains('\n') {
        let i = choose|i: int| 0 <= i < v.len() && v[i] == '\n';
        assert(is_digit(v[i]));
    }
    lemma_find_text(v, "+="@);
    if let Some(i) = find_text(v, "+="@) {
        assert(v.subrange(i, i + 2)[0] == v[i]);
        assert(is_digit(v[i]));
    }
    if ends_with(v, "() {"@) {
        let k = v.len() - 4;
        assert(v.skip(k)[0] == v[k]);
        assert(is_digit(v[k]));
    }
}

/// The revision that a template says is that of its package.
pub proof fn law_package_has_revision(content: Seq<char>, i: int, revision: u32)
    requires
        says(lines(content), i, "revision"@, decimal(revision as nat)),
    ensures
        template_package(content).revision == revision,
{
    reveal_strlit("depends");
    reveal_strlit("revision");
    assert("depends"@[0] != "revision"@[0]);
    lemma_decimal_is_plain(revision as nat);
    lemma_says(lines(content), i, "revision"@, decimal(revision as nat));
    law_decimal_reads_back(revision as nat, u32::MAX as nat);
}

/// A text without references stays as it is.
proof fn lemma_no_reference(x: Seq<char>, version: Seq<char>)
    requires
        !x.contains('$'),
    ensures
        replace(x, "${version}"@, version) == x,
{
    reveal_strlit("${version}");
    lemma_find_text(x, "${version}"@);
    if let Some(i) = find_text(x, "${version}"@) {
        assert(x.subrange(i, i + 10)[0] == '$');
        assert(x.contains(x[i]));
    }
}

/// In the sources of a template `${version}` stands for the version of the template.
pub proof fn law_sources_name_version(
    vars: Map<Seq<char>, Seq<char>>,
    a: Seq<char>,
    b: Seq<char>,
)
    requires
        text_at(vars, "distfiles"@) == a + "${version}"@ + b,
        !a.contains('$'),
        !b.contains('$'),
    ensures
        package_of(vars).distfiles == a + text_at(vars, "version"@) + b,
{
    reveal_strlit("${version}");
    law_one_reference_is_replaced(a, "${version}"@, b, text_at(vars, "version"@));
}

/// A reference in a text that holds no other gives way to its value.
pub proof fn law_one_reference_is_replaced(
    a: Seq<char>,
    pat: Seq<char>,
    b: Seq<char>,
    value: Seq<char>,
)
    requires
        pat.len() > 0,
        pat[0] == '$',
        !a.contains('$'),
        !b.contains('$'),
    ensures
        replace(a + pat + b, pat, value) == a + value + b,
{
    let s = a + pat + b;
    let n = a.len() as int;
    assert(s.skip(n).take(pat.len() as int) =~= pat);
    assert(starts_with(s.skip(n), pat));
    lemma_find_text(s, pat);
    let i = find_text(s, pat)->0;
    if i < n {
        assert(s.subrange(i, i + pat.len())[0] == s[i]);
        assert(a.contains(a[i]));
    }
    assert(i == n);
    assert(s.take(n) =~= a);
    assert(s.skip(n + pat.len()) =~= b);
    lemma_find_text(b, pat);
    if let Some(j) = find_text(b, pat) {
        assert(b.subrange(j, j + pat.len())[0] == b[j]);
        assert(b.contains(b[j]));
    }
    assert(replace(b, pat, value) == b);
    assert(replace(s, pat, value) == s.take(i) + value + replace(s.skip(i + pat.len()), pat, value));
}

/// Outside of quoted values, empty lines and comments say nothing.
pub proof fn law_comments_say_nothing(st: ScanModel, line: Seq<char>)
    requires
        st.open is None,
        trim(line).len() == 0 || trim(line)[0] == '#',
    ensures
        template_step(st, line) == st,
{
    reveal(is_skipped);
}

/// Outside of quoted values, control flow, functions and the commands that templates call say
/// nothing, whatever they hold.
pub proof fn law_commands_say_nothing(st: ScanModel, line: Seq<char>, command: Seq<char>)
    requires
        st.open is None,
        command == "if "@ || command == "fi"@ || command == "then"@ || command == "else"@
            || command == "vmove"@ || command == "vlicense"@ || command == "vinstall"@ || command
            == "vbin"@ || command == "vman"@ || command == "vsed"@ || command == "vcompletion"@
            || command == "vcopy"@ || command == "ln "@ || command == "sed "@ || command
            == "chmod"@ || command == "mkdir"@ || command == "cat "@ || command == "install "@
            || command == "rm "@ || command == "local "@ || command == "pkg_install"@,
        starts_with(trim(line), command) || ends_with(trim(line), "() {"@) || trim(line) == "}"@
            || (starts_with(trim(line), "depends="@) && has_text(trim(line), "sourcepkg"@)),
    ensures
        template_step(st, line) == st,
{
    reveal(is_skipped);
}

/// A value that is a reference to another variable is the value of that one, where it has one.
pub proof fn law_reference_copies(
    st: ScanModel,
    line: Seq<char>,
    name: Seq<char>,
    other: Seq<char>,
)
    requires
        st.open is None,
        is_field(name),
        trim(line) == name.push('=') + ("$"@ + other),
        other.len() > 0,
        other[0] != '$',
        !is_white(other.last()),
        !other.contains('{'),
        !has_text(name.push('=') + ("$"@ + other), "+="@),
        !ends_with(name.push('=') + ("$"@ + other), "() {"@),
        name == "depends"@ ==> !has_text(name.push('=') + ("$"@ + other), "sourcepkg"@),
    ensures
        template_step(st, line).open is None,
        template_step(st, line).vars == (if st.vars.contains_key(other) {
            st.vars.insert(name, st.vars[other])
        } else {
            st.vars
        }),
{
    let v = "$"@ + other;
    lemma_field_at(name, v);
    lemma_reference(other);
    assert(template_step(st, line) == assign_step(st, name, v));
}

/// A reference, and what it refers to.
proof fn lemma_reference(other: Seq<char>)
    requires
        other.len() > 0,
        other[0] != '$',
        !is_white(other.last()),
        !other.contains('{'),
    ensures
        trim("$"@ + other) == "$"@ + other,
        ("$"@ + other)[0] == '$',
        !("$"@ + other).contains('{'),
        trim_start_char("$"@ + other, '$') == other,
{
    reveal_strlit("$");
    let v = "$"@ + other;
    assert(v[0] == '$' && v.last() == other.last());
    lemma_trim_indented(Seq::<char>::empty(), v);
    assert(Seq::<char>::empty() + v =~= v);
    if v.contains('{') {
        let i = choose|i: int| 0 <= i < v.len() && v[i] == '{';
        assert(other.contains(other[i - 1]));
    }
    assert(v.drop_first() =~= other);
    assert(trim_start_char(other, '$') == other);
}

/// Where a line that assigns a field is taken apart.
proof fn lemma_field_at(name: Seq<char>, v: Seq<char>)
    requires
        is_field(name),
        !ends_with(name.push('=') + v, "() {"@),
        name == "depends"@ ==> !has_text(name.push('=') + v, "sourcepkg"@),
    ensures
        !is_skipped(name.push('=') + v),
        find_char(name.push('=') + v, '=') == Some(name.len() as int),
        trim((name.push('=') + v).take(name.len() as int)) == name,
        (name.push('=') + v).skip(name.len() as int + 1) == v,
        is_name(name),
{
    let t = name.push('=') + v;
    let n = name.len() as int;
    lemma_field(name);
    assert(t =~= name + (seq!['='] + v));
    lemma_field_not_skipped(name, seq!['='] + v);
    assert(t[n] == '=');
    assert forall|j: int| 0 <= j < n implies t[j] != '=' by {
        assert(t[j] == name[j]);
    }
    lemma_find_char_is(t, '=', n);
    assert(t.take(n) =~= name);
    assert(t.skip(n + 1) =~= v);
    lemma_trim_indented(Seq::<char>::empty(), name);
    assert(Seq::<char>::empty() + name =~= name);
}

/// A template that does not say its revision, or says one that is no number, has the revision 1.
pub proof fn law_revision_is_one_by_default(vars: Map<Seq<char>, Seq<char>>)
    requires
        !vars.contains_key("revision"@) || (exists|i: int|
            0 < i < vars["revision"@].len() && !is_digit(#[trigger] vars["revision"@][i])),
    ensures
        package_of(vars).revision == 1,
{
    if vars.contains_key("revision"@) {
        let s = vars["revision"@];
        let i = choose|i: int| 0 < i < s.len() && !is_digit(#[trigger] s[i]);
        let d = if s[0] == '+' {
            s.drop_first()
        } else {
            s
        };
        assert(s[0] == '+' ==> d[i - 1] == s[i]);
        assert(s[0] != '+' ==> d[i] == s[i]);
    } else {
        assert(text_at(vars, "revision"@).len() == 0);
    }
}

// ---------------------------------------------------------------------------------------------
// Variables with their values as written
// ---------------------------------------------------------------------------------------------

/// Outside of quoted values, a line `name=value` gives the variable its value, with the double
/// quotes taken off its ends, whatever else the template has.
pub proof fn law_raw_line_is_read(st: ScanModel, line: Seq<char>, name: Seq<char>, v: Seq<char>)
    requires
        st.open is None,
        name.len() > 0,
        is_name(name),
        trim(name) == name,
        trim(line) == name.push('=') + v,
        trim(v) == v,
        !opens_value(v),
    ensures
        raw_step(st, line) == (ScanModel { vars: st.vars.insert(name, trim_char(v, '"')), ..st }),
{
    let t = name.push('=') + v;
    let n = name.len() as int;
    lemma_name_letters(name);
    assert(t[n] == '=');
    assert(t[0] == name[0]);
    assert forall|j: int| 0 <= j < n implies t[j] != '=' by {
        assert(t[j] == name[j]);
    }
    lemma_find_char_is(t, '=', n);
    assert(t.take(n) =~= name);
    assert(t.skip(n + 1) =~= v);
}

/// What no name of a variable holds.
proof fn lemma_name_letters(name: Seq<char>)
    requires
        is_name(name),
    ensures
        forall|i: int| 0 <= i < name.len() ==> #[trigger] name[i] != '=' && name[i] != '#'
            && name[i] != '$' && name[i] != '{' && name[i] != '}',
{
    assert forall|i: int| 0 <= i < name.len() implies #[trigger] name[i] != '=' && name[i] != '#'
        && name[i] != '$' && name[i] != '{' && name[i] != '}' by {
        assert(is_alnum(name[i]) || name[i] == '_');
    }
}

// ---------------------------------------------------------------------------------------------
// References in addresses
// ---------------------------------------------------------------------------------------------

/// Where a text with one reference holds a `$`.
proof fn lemma_one_dollar(a: Seq<char>, k: Seq<char>, b: Seq<char>, i: int)
    requires
        !a.contains('$'),
        !b.contains('$'),
        !k.contains('$'),
        0 <= i < (a + ("${"@ + k + "}"@) + b).len(),
        (a + ("${"@ + k + "}"@) + b)[i] == '$',
    ensures
        i == a.len(),
{
    reveal_strlit("${");
    reveal_strlit("}");
    let mid = "${"@ + k + "}"@;
    let x = i - a.len();
    if x < 0 {
        assert(a.contains(a[i]));
    } else if x >= mid.len() {
        assert(b.contains(b[x - mid.len()]));
    } else if x > 0 {
        assert(mid[x] == '$');
        if 1 < x < mid.len() - 1 {
            assert(k.contains(k[x - 2]));
        }
    }
}

/// A text that holds one `$`, behind which `{name}` stands, is left alone by the references to
/// other names.
proof fn lemma_other_reference(a: Seq<char>, k: Seq<char>, b: Seq<char>, pat: Seq<char>)
    requires
        !a.contains('$'),
        !b.contains('$'),
        !k.contains('$'),
        pat.len() > 1,
        pat[0] == '$',
        !starts_with("${"@ + k + "}"@ + b, pat),
    ensures
        !has_text(a + ("${"@ + k + "}"@) + b, pat),
{
    let s = a + ("${"@ + k + "}"@) + b;
    let rest = "${"@ + k + "}"@ + b;
    let n = a.len() as int;
    lemma_find_text(s, pat);
    if let Some(i) = find_text(s, pat) {
        let sub = s.subrange(i, i + pat.len());
        assert(sub[0] == s[i]);
        lemma_one_dollar(a, k, b, i);
        assert(s.skip(n) =~= rest);
        assert(rest.take(pat.len() as int) =~= sub);
    }
}

/// Texts without a match stay as they are.
proof fn lemma_no_match(s: Seq<char>, pat: Seq<char>, value: Seq<char>)
    requires
        !has_text(s, pat),
    ensures
        replace(s, pat, value) == s,
{
}

/// Texts without a `$` hold no reference.
proof fn lemma_plain_text(s: Seq<char>, pat: Seq<char>)
    requires
        !s.contains('$'),
        pat.len() > 0,
        pat[0] == '$',
    ensures
        !has_text(s, pat),
{
    lemma_find_text(s, pat);
    if let Some(i) = find_text(s, pat) {
        assert(s.subrange(i, i + pat.len())[0] == s[i]);
        assert(s.contains(s[i]));
    }
}

/// What one variable does to a text that refers to `k` alone: nothing, unless it is `k`.
proof fn lemma_substitute_one(
    a: Seq<char>,
    k: Seq<char>,
    b: Seq<char>,
    key: Seq<char>,
    vars: Map<Seq<char>, Seq<char>>,
    version: Seq<char>,
)
    requires
        !a.contains('$'),
        !b.contains('$'),
        is_name(k),
        is_name(key),
        key.len() > 0,
        k != "version"@,
        !text_at(vars, k).contains('$'),
    ensures
        key != k ==> substitute(a + ("${"@ + k + "}"@) + b, key, vars, version) == a + ("${"@ + k
            + "}"@) + b,
        key == k ==> substitute(a + ("${"@ + k + "}"@) + b, key, vars, version) == a + text_at(
            vars,
            k,
        ) + b,
{
    reveal_strlit("${");
    reveal_strlit("}");
    reveal_strlit("$");
    reveal_strlit("${version}");
    lemma_name_letters(k);
    lemma_name_letters(key);
    let s = a + ("${"@ + k + "}"@) + b;
    let braced = "${"@ + key + "}"@;
    let plain = "$"@ + key;
    let raw = text_at(vars, key);
    let value = replace(raw, "${version}"@, version);
    let rest = "${"@ + k + "}"@ + b;
    assert(!k.contains('$')) by {
        if k.contains('$') {
            let i = choose|i: int| 0 <= i < k.len() && k[i] == '$';
            assert(k[i] != '$');
        }
    }
    assert(braced[0] == '$' && plain[0] == '$');
    if starts_with(rest, plain) {
        assert(rest.take(plain.len() as int)[1] == rest[1]);
        assert(rest[1] == '{');
        assert(plain[1] == key[0]);
        assert(false);
    }
    lemma_other_reference(a, k, b, plain);
    if key == k {
        lemma_plain_text(raw, "${version}"@);
        lemma_no_match(raw, "${version}"@, version);
        assert(value == raw);
        law_one_reference_is_replaced(a, braced, b, value);
        let out = a + value + b;
        assert(!out.contains('$')) by {
            if out.contains('$') {
                let i = choose|i: int| 0 <= i < out.len() && out[i] == '$';
                if i < a.len() {
                    assert(a.contains(a[i]));
                } else if i < a.len() + value.len() {
                    assert(value.contains(value[i - a.len()]));
                } else {
                    assert(b.contains(b[i - a.len() - value.len()]));
                }
            }
        }
        lemma_plain_text(out, plain);
        lemma_no_match(out, plain, value);
    } else {
        if starts_with(rest, braced) {
            lemma_same_name(k, key, b);
        }
        lemma_other_reference(a, k, b, braced);
        lemma_no_match(s, braced, value);
        lemma_no_match(s, plain, value);
    }
}

/// Names in braces at the same place are the same.
proof fn lemma_same_name(k: Seq<char>, key: Seq<char>, b: Seq<char>)
    requires
        is_name(k),
        is_name(key),
        starts_with("${"@ + k + "}"@ + b, "${"@ + key + "}"@),
    ensures
        k == key,
{
    reveal_strlit("${");
    reveal_strlit("}");
    lemma_name_letters(k);
    lemma_name_letters(key);
    let rest = "${"@ + k + "}"@ + b;
    let pat = "${"@ + key + "}"@;
    assert forall|i: int| 0 <= i < pat.len() implies rest[i] == pat[i] by {
        assert(rest.take(pat.len() as int)[i] == rest[i]);
    }
    let n = k.len() as int;
    let m = key.len() as int;
    assert(pat[2 + m] == '}');
    assert(rest[2 + n] == '}');
    if m < n {
        assert(rest[2 + m] == k[m]);
    } else if n < m {
        assert(pat[2 + n] == key[n]);
    } else {
        assert forall|i: int| 0 <= i < n implies k[i] == key[i] by {
            assert(rest[2 + i] == k[i] && pat[2 + i] == key[i]);
        }
        assert(k =~= key);
    }
}

/// What the variables do to a text without references: nothing.
proof fn lemma_substitute_none(
    s: Seq<char>,
    keys: Seq<Seq<char>>,
    vars: Map<Seq<char>, Seq<char>>,
    version: Seq<char>,
)
    requires
        !s.contains('$'),
    ensures
        substitute_all(s, keys, vars, version) == s,
    decreases keys.len(),
{
    if keys.len() > 0 {
        lemma_substitute_none(s, keys.drop_last(), vars, version);
        reveal_strlit("${");
        reveal_strlit("}");
        reveal_strlit("$");
        let key = keys.last();
        let value = replace(text_at(vars, key), "${version}"@, version);
        lemma_plain_text(s, "${"@ + key + "}"@);
        lemma_plain_text(s, "$"@ + key);
        lemma_no_match(s, "${"@ + key + "}"@, value);
        lemma_no_match(s, "$"@ + key, value);
    }
}

/// What the variables do to a text that refers to `k` alone.
proof fn lemma_substitute_all(
    a: Seq<char>,
    k: Seq<char>,
    b: Seq<char>,
    keys: Seq<Seq<char>>,
    vars: Map<Seq<char>, Seq<char>>,
    version: Seq<char>,
)
    requires
        !a.contains('$'),
        !b.contains('$'),
        is_name(k),
        k != "version"@,
        !text_at(vars, k).contains('$'),
        forall|i: int| 0 <= i < keys.len() ==> is_name(#[trigger] keys[i]) && keys[i].len() > 0,
    ensures
        substitute_all(a + ("${"@ + k + "}"@) + b, keys, vars, version) == (if keys.contains(k) {
            a + text_at(vars, k) + b
        } else {
            a + ("${"@ + k + "}"@) + b
        }),
    decreases keys.len(),
{
    if keys.len() > 0 {
        let front = keys.drop_last();
        let key = keys[keys.len() - 1];
        assert(keys.last() == key);
        assert forall|i: int| 0 <= i < front.len() implies is_name(#[trigger] front[i])
            && front[i].len() > 0 by {
            assert(front[i] == keys[i]);
        }
        lemma_substitute_all(a, k, b, front, vars, version);
        assert(keys.contains(k) <==> front.contains(k) || key == k) by {
            if keys.contains(k) && key != k {
                let i = choose|i: int| 0 <= i < keys.len() && keys[i] == k;
                assert(front[i] == k);
            }
            if front.contains(k) {
                let i = choose|i: int| 0 <= i < front.len() && front[i] == k;
                assert(keys[i] == k);
            }
        }
        if front.contains(k) {
            let out = a + text_at(vars, k) + b;
            let value = text_at(vars, k);
            assert(!out.contains('$')) by {
                if out.contains('$') {
                    let i = choose|i: int| 0 <= i < out.len() && out[i] == '$';
                    if i < a.len() {
                        assert(a.contains(a[i]));
                    } else if i < a.len() + value.len() {
                        assert(value.contains(value[i - a.len()]));
                    } else {
                        assert(b.contains(b[i - a.len() - value.len()]));
                    }
                }
            }
            let one = seq![key];
            assert(one.drop_last() =~= Seq::<Seq<char>>::empty());
            assert(substitute_all(out, one.drop_last(), vars, version) == out);
            lemma_substitute_none(out, one, vars, version);
            assert(substitute(out, key, vars, version) == out);
        } else {
            lemma_substitute_one(a, k, b, key, vars, version);
        }
    }
}

/// A reference in braces to a variable of the template, in an address that holds no other, gives
/// way to the value of the variable; one to the version gives way to the new version; and an
/// address without references stays as it is.
pub proof fn law_reference_is_resolved(
    a: Seq<char>,
    k: Seq<char>,
    b: Seq<char>,
    keys: Seq<Seq<char>>,
    vars: Map<Seq<char>, Seq<char>>,
    version: Seq<char>,
)
    requires
        !a.contains('$'),
        !b.contains('$'),
        is_name(k),
        k != "version"@ ==> keys.contains(k) && !text_at(vars, k).contains('$'),
        k == "version"@ ==> !version.contains('$'),
        forall|i: int| 0 <= i < keys.len() ==> is_name(#[trigger] keys[i]) && keys[i].len() > 0,
    ensures
        k != "version"@ ==> expanded(a + ("${"@ + k + "}"@) + b, keys, vars, version) == a
            + text_at(vars, k) + b,
        k == "version"@ ==> expanded(a + ("${"@ + k + "}"@) + b, keys, vars, version) == a
            + version + b,
        expanded(a + b, keys, vars, version) == a + b,
{
    reveal_strlit("${");
    reveal_strlit("}");
    reveal_strlit("version");
    reveal_strlit("${version}");
    let s = a + ("${"@ + k + "}"@) + b;
    let order = longest_first(keys);
    let marker = "${version}"@;
    lemma_longest_first(keys);
    lemma_name_letters(k);
    lemma_same_members(keys, order);
    assert("${"@ + "version"@ + "}"@ =~= marker);
    if k == "version"@ {
        law_one_reference_is_replaced(a, marker, b, version);
        let out = a + version + b;
        assert(!out.contains('$')) by {
            if out.contains('$') {
                let i = choose|i: int| 0 <= i < out.len() && out[i] == '$';
                if i < a.len() {
                    assert(a.contains(a[i]));
                } else if i < a.len() + version.len() {
                    assert(version.contains(version[i - a.len()]));
                } else {
                    assert(b.contains(b[i - a.len() - version.len()]));
                }
            }
        }
        lemma_substitute_none(out, order, vars, version);
    } else {
        assert(!k.contains('$')) by {
            if k.contains('$') {
                let i = choose|i: int| 0 <= i < k.len() && k[i] == '$';
                assert(k[i] != '$');
            }
        }
        if starts_with("${"@ + k + "}"@ + b, marker) {
            assert(is_name("version"@));
            lemma_same_name(k, "version"@, b);
        }
        lemma_other_reference(a, k, b, marker);
        lemma_no_match(s, marker, version);
        lemma_substitute_all(a, k, b, order, vars, version);
    }
    let whole = a + b;
    assert(!whole.contains('$')) by {
        if whole.contains('$') {
            let i = choose|i: int| 0 <= i < whole.len() && whole[i] == '$';
            if i < a.len() {
                assert(a.contains(a[i]));
            } else {
                assert(b.contains(b[i - a.len()]));
            }
        }
    }
    lemma_plain_text(whole, marker);
    lemma_no_match(whole, marker, version);
    lemma_substitute_none(whole, order, vars, version);
}

/// Putting names in order adds none and loses none.
proof fn lemma_same_members(keys: Seq<Seq<char>>, order: Seq<Seq<char>>)
    requires
        order.to_multiset() == keys.to_multiset(),
        forall|i: int| 0 <= i < keys.len() ==> is_name(#[trigger] keys[i]) && keys[i].len() > 0,
    ensures
        forall|k: Seq<char>| order.contains(k) <==> keys.contains(k),
        forall|i: int| 0 <= i < order.len() ==> is_name(#[trigger] order[i]) && order[i].len() > 0,
{
    assert forall|k: Seq<char>| order.contains(k) <==> keys.contains(k) by {
        vstd::seq_lib::to_multiset_contains(order, k);
        vstd::seq_lib::to_multiset_contains(keys, k);
    }
    assert forall|i: int| 0 <= i < order.len() implies is_name(#[trigger] order[i])
        && order[i].len() > 0 by {
        assert(order.contains(order[i]));
        let j = choose|j: int| 0 <= j < keys.len() && keys[j] == order[i];
        assert(is_name(keys[j]));
    }
}

// ---------------------------------------------------------------------------------------------
// Any number of references
// ---------------------------------------------------------------------------------------------

/// A piece of an address: a text without references, or a reference to a variable.
pub enum Piece {
    Text(Seq<char>),
    Ref(Seq<char>),
}

/// A piece as templates write it.
pub open spec fn piece_text(p: Piece) -> Seq<char> {
    match p {
        Piece::Text(t) => t,
        Piece::Ref(k) => "${"@ + k + "}"@,
    }
}

/// Pieces as templates write them.
pub open spec fn written(ps: Seq<Piece>) -> Seq<char>
    decreases ps.len(),
{
    if ps.len() == 0 {
        seq![]
    } else {
        piece_text(ps[0]) + written(ps.drop_first())
    }
}

/// What a variable stands for at a version.
pub open spec fn value_of(
    vars: Map<Seq<char>, Seq<char>>,
    version: Seq<char>,
    k: Seq<char>,
) -> Seq<char> {
    if k == "version"@ {
        version
    } else {
        replace(text_at(vars, k), "${version}"@, version)
    }
}

/// What pieces stand for at a version: each reference gives way to the value of its variable.
pub open spec fn meant(
    ps: Seq<Piece>,
    vars: Map<Seq<char>, Seq<char>>,
    version: Seq<char>,
) -> Seq<char>
    decreases ps.len(),
{
    if ps.len() == 0 {
        seq![]
    } else {
        (match ps[0] {
            Piece::Text(t) => t,
            Piece::Ref(k) => value_of(vars, version, k),
        }) + meant(ps.drop_first(), vars, version)
    }
}

/// Whether pieces are what they are taken for: the texts hold no `$`, and the references are to
/// names.
pub open spec fn are_pieces(ps: Seq<Piece>) -> bool {
    forall|i: int|
        0 <= i < ps.len() ==> match #[trigger] ps[i] {
            Piece::Text(t) => !t.contains('$'),
            Piece::Ref(k) => is_name(k),
        }
}

/// A piece with a text in place of a reference to `key`.
spec fn put_one(p: Piece, key: Seq<char>, value: Seq<char>) -> Piece {
    match p {
        Piece::Text(t) => p,
        Piece::Ref(k) => if k == key {
            Piece::Text(value)
        } else {
            p
        },
    }
}

spec fn put_all(ps: Seq<Piece>, key: Seq<char>, value: Seq<char>) -> Seq<Piece> {
    Seq::new(ps.len(), |i: int| put_one(ps[i], key, value))
}

proof fn lemma_put_all(ps: Seq<Piece>, key: Seq<char>, value: Seq<char>)
    requires
        are_pieces(ps),
        !value.contains('$'),
    ensures
        are_pieces(put_all(ps, key, value)),
        ps.len() > 0 ==> put_all(ps, key, value).drop_first() == put_all(
            ps.drop_first(),
            key,
            value,
        ),
        ps.len() > 0 ==> are_pieces(ps.drop_first()),
{
    let all = put_all(ps, key, value);
    assert forall|i: int| 0 <= i < all.len() implies match #[trigger] all[i] {
        Piece::Text(t) => !t.contains('$'),
        Piece::Ref(k) => is_name(k),
    } by {
        assert(all[i] == put_one(ps[i], key, value));
    }
    if ps.len() > 0 {
        assert(all.drop_first() =~= put_all(ps.drop_first(), key, value));
        let rest = ps.drop_first();
        assert forall|i: int| 0 <= i < rest.len() implies match #[trigger] rest[i] {
            Piece::Text(t) => !t.contains('$'),
            Piece::Ref(k) => is_name(k),
        } by {
            assert(rest[i] == ps[i + 1]);
        }
    }
}

/// A replacement passes over a character from which the pattern cannot be read.
proof fn lemma_replace_passes(s: Seq<char>, pat: Seq<char>, value: Seq<char>)
    requires
        s.len() > 0,
        pat.len() > 0,
        !starts_with(s, pat),
    ensures
        replace(s, pat, value) == seq![s[0]] + replace(s.drop_first(), pat, value),
{
    let t = s.drop_first();
    lemma_find_text(t, pat);
    match find_text(t, pat) {
        Some(i) => {
            assert(s.take(i + 1) =~= seq![s[0]] + t.take(i));
            assert(s.skip(i + 1 + pat.len()) =~= t.skip(i + pat.len()));
            let more = replace(t.skip(i + pat.len()), pat, value);
            assert(s.take(i + 1) + value + more =~= seq![s[0]] + (t.take(i) + value + more));
        },
        None => {
            assert(s =~= seq![s[0]] + t);
        },
    }
}

/// A replacement passes over a text that lacks the first character of the pattern.
proof fn lemma_replace_behind(a: Seq<char>, s: Seq<char>, pat: Seq<char>, value: Seq<char>)
    requires
        pat.len() > 0,
        !a.contains(pat[0]),
    ensures
        replace(a + s, pat, value) == a + replace(s, pat, value),
    decreases a.len(),
{
    if a.len() > 0 {
        let less = a.drop_first();
        assert(a.contains(a[0]));
        if starts_with(a + s, pat) {
            assert((a + s).take(pat.len() as int)[0] == (a + s)[0]);
        }
        assert(!less.contains(pat[0])) by {
            if less.contains(pat[0]) {
                let i = choose|i: int| 0 <= i < less.len() && less[i] == pat[0];
                assert(a[i + 1] == pat[0]);
            }
        }
        lemma_replace_passes(a + s, pat, value);
        assert((a + s).drop_first() =~= less + s);
        lemma_replace_behind(less, s, pat, value);
        assert(seq![a[0]] + (less + replace(s, pat, value)) =~= a + replace(s, pat, value));
    } else {
        assert(a + s =~= s);
        assert(a + replace(s, pat, value) =~= replace(s, pat, value));
    }
}

/// A replacement passes over a reference that is not the pattern.
proof fn lemma_replace_other(k: Seq<char>, s: Seq<char>, pat: Seq<char>, value: Seq<char>)
    requires
        is_name(k),
        pat.len() > 0,
        pat[0] == '$',
        !starts_with("${"@ + k + "}"@ + s, pat),
    ensures
        replace("${"@ + k + "}"@ + s, pat, value) == "${"@ + k + "}"@ + replace(s, pat, value),
{
    reveal_strlit("${");
    reveal_strlit("}");
    let all = "${"@ + k + "}"@ + s;
    let inner = seq!['{'] + k + seq!['}'];
    lemma_name_letters(k);
    lemma_replace_passes(all, pat, value);
    assert(all.drop_first() =~= inner + s);
    assert(!inner.contains('$')) by {
        if inner.contains('$') {
            let i = choose|i: int| 0 <= i < inner.len() && inner[i] == '$';
            if 0 < i < inner.len() - 1 {
                assert(k[i - 1] == '$');
            }
        }
    }
    lemma_replace_behind(inner, s, pat, value);
    assert(seq!['$'] + (inner + replace(s, pat, value)) =~= "${"@ + k + "}"@ + replace(
        s,
        pat,
        value,
    ));
}

/// Replacing a reference in braces replaces every one, and nothing else.
proof fn lemma_replace_braced(ps: Seq<Piece>, key: Seq<char>, value: Seq<char>)
    requires
        are_pieces(ps),
        is_name(key),
        !value.contains('$'),
    ensures
        replace(written(ps), "${"@ + key + "}"@, value) == written(put_all(ps, key, value)),
    decreases ps.len(),
{
    reveal_strlit("${");
    reveal_strlit("}");
    let pat = "${"@ + key + "}"@;
    let new = put_all(ps, key, value);
    assert(pat[0] == '$');
    lemma_put_all(ps, key, value);
    if ps.len() == 0 {
        lemma_find_text(written(ps), pat);
        assert(written(ps).len() == 0);
        assert(find_text(written(ps), pat) is None);
        assert(written(new) =~= written(ps));
    } else {
        let rest = written(ps.drop_first());
        lemma_replace_braced(ps.drop_first(), key, value);
        match ps[0] {
            Piece::Text(t) => {
                lemma_replace_behind(t, rest, pat, value);
            },
            Piece::Ref(k) => {
                let s = "${"@ + k + "}"@ + rest;
                if k == key {
                    assert(s.take(pat.len() as int) =~= pat);
                    assert(find_text(s, pat) == Some(0int));
                    assert(s.skip(pat.len() as int) =~= rest);
                    assert(s.take(0) + value + replace(rest, pat, value) =~= value + replace(
                        rest,
                        pat,
                        value,
                    ));
                } else {
                    if starts_with(s, pat) {
                        lemma_same_name(k, key, rest);
                    }
                    lemma_replace_other(k, rest, pat, value);
                }
            },
        }
    }
}

/// A reference without braces is not read where one in braces stands.
proof fn lemma_replace_plain(ps: Seq<Piece>, key: Seq<char>, value: Seq<char>)
    requires
        are_pieces(ps),
        is_name(key),
        key.len() > 0,
    ensures
        replace(written(ps), "$"@ + key, value) == written(ps),
    decreases ps.len(),
{
    reveal_strlit("${");
    reveal_strlit("$");
    let pat = "$"@ + key;
    assert(pat[0] == '$' && pat[1] == key[0]);
    lemma_name_letters(key);
    if ps.len() == 0 {
        lemma_find_text(written(ps), pat);
        assert(written(ps).len() == 0);
        assert(find_text(written(ps), pat) is None);
    } else {
        let rest = written(ps.drop_first());
        lemma_put_all(ps, key, Seq::empty());
        lemma_replace_plain(ps.drop_first(), key, value);
        match ps[0] {
            Piece::Text(t) => {
                lemma_replace_behind(t, rest, pat, value);
            },
            Piece::Ref(k) => {
                let s = "${"@ + k + "}"@ + rest;
                if starts_with(s, pat) {
                    assert(s.take(pat.len() as int)[1] == s[1]);
                    assert(s[1] == '{');
                }
                lemma_replace_other(k, rest, pat, value);
            },
        }
    }
}

/// The pieces with the values of the first variables of a list in place of the references to them.
spec fn filled(
    ps: Seq<Piece>,
    keys: Seq<Seq<char>>,
    vars: Map<Seq<char>, Seq<char>>,
    version: Seq<char>,
) -> Seq<Piece>
    decreases keys.len(),
{
    if keys.len() == 0 {
        put_all(ps, "version"@, version)
    } else {
        put_all(
            filled(ps, keys.drop_last(), vars, version),
            keys.last(),
            value_of(vars, version, keys.last()),
        )
    }
}

/// Which pieces are filled.
proof fn lemma_filled(
    ps: Seq<Piece>,
    keys: Seq<Seq<char>>,
    vars: Map<Seq<char>, Seq<char>>,
    version: Seq<char>,
    i: int,
)
    requires
        0 <= i < ps.len(),
    ensures
        filled(ps, keys, vars, version).len() == ps.len(),
        match ps[i] {
            Piece::Text(t) => filled(ps, keys, vars, version)[i] == ps[i],
            Piece::Ref(k) => if k == "version"@ || keys.contains(k) {
                filled(ps, keys, vars, version)[i] == Piece::Text(value_of(vars, version, k))
            } else {
                filled(ps, keys, vars, version)[i] == ps[i]
            },
        },
    decreases keys.len(),
{
    if keys.len() > 0 {
        let front = keys.drop_last();
        lemma_filled(ps, front, vars, version, i);
        if let Piece::Ref(k) = ps[i] {
            assert(keys.contains(k) <==> front.contains(k) || keys.last() == k) by {
                if keys.contains(k) && keys.last() != k {
                    let x = choose|x: int| 0 <= x < keys.len() && keys[x] == k;
                    assert(front[x] == k);
                }
                if front.contains(k) {
                    let x = choose|x: int| 0 <= x < front.len() && front[x] == k;
                    assert(keys[x] == k);
                }
                assert(keys[keys.len() - 1] == keys.last());
            }
        }
    }
}

/// Filled pieces are pieces, where the values hold no references.
proof fn lemma_filled_are_pieces(
    ps: Seq<Piece>,
    keys: Seq<Seq<char>>,
    vars: Map<Seq<char>, Seq<char>>,
    version: Seq<char>,
)
    requires
        are_pieces(ps),
        !version.contains('$'),
        forall|i: int|
            0 <= i < keys.len() ==> !value_of(vars, version, #[trigger] keys[i]).contains('$'),
    ensures
        are_pieces(filled(ps, keys, vars, version)),
    decreases keys.len(),
{
    if keys.len() == 0 {
        lemma_put_all(ps, "version"@, version);
    } else {
        let front = keys.drop_last();
        assert forall|i: int| 0 <= i < front.len() implies !value_of(
            vars,
            version,
            #[trigger] front[i],
        ).contains('$') by {
            assert(front[i] == keys[i]);
        }
        lemma_filled_are_pieces(ps, front, vars, version);
        assert(!value_of(vars, version, keys[keys.len() - 1]).contains('$'));
        lemma_put_all(
            filled(ps, front, vars, version),
            keys.last(),
            value_of(vars, version, keys.last()),
        );
    }
}

/// Substituting variables one after the other fills the references to them.
proof fn lemma_substitute_fills(
    ps: Seq<Piece>,
    keys: Seq<Seq<char>>,
    vars: Map<Seq<char>, Seq<char>>,
    version: Seq<char>,
)
    requires
        are_pieces(ps),
        !version.contains('$'),
        forall|i: int|
            0 <= i < keys.len() ==> is_name(#[trigger] keys[i]) && keys[i].len() > 0 && !value_of(
                vars,
                version,
                keys[i],
            ).contains('$'),
    ensures
        substitute_all(
            written(put_all(ps, "version"@, version)),
            keys,
            vars,
            version,
        ) == written(filled(ps, keys, vars, version)),
    decreases keys.len(),
{
    if keys.len() > 0 {
        let front = keys.drop_last();
        let key = keys[keys.len() - 1];
        assert(keys.last() == key);
        assert forall|i: int| 0 <= i < front.len() implies is_name(#[trigger] front[i])
            && front[i].len() > 0 && !value_of(vars, version, front[i]).contains('$') by {
            assert(front[i] == keys[i]);
        }
        lemma_substitute_fills(ps, front, vars, version);
        lemma_filled_are_pieces(ps, front, vars, version);
        let before = filled(ps, front, vars, version);
        let value = value_of(vars, version, key);
        lemma_put_all(before, key, value);
        if key == "version"@ {
            lemma_version_is_filled(ps, front, vars, version);
        } else {
            lemma_replace_braced(before, key, value);
            lemma_replace_plain(put_all(before, key, value), key, value);
        }
    }
}

/// References to the version are filled from the start.
proof fn lemma_version_is_filled(
    ps: Seq<Piece>,
    keys: Seq<Seq<char>>,
    vars: Map<Seq<char>, Seq<char>>,
    version: Seq<char>,
)
    ensures
        put_all(filled(ps, keys, vars, version), "version"@, version) == filled(
            ps,
            keys,
            vars,
            version,
        ),
{
    let all = filled(ps, keys, vars, version);
    let again = put_all(all, "version"@, version);
    if ps.len() == 0 {
        lemma_filled_len(ps, keys, vars, version);
    } else {
        lemma_filled(ps, keys, vars, version, 0);
    }
    assert forall|i: int| 0 <= i < all.len() implies again[i] == all[i] by {
        lemma_filled(ps, keys, vars, version, i);
    }
    assert(again =~= all);
}

proof fn lemma_filled_len(
    ps: Seq<Piece>,
    keys: Seq<Seq<char>>,
    vars: Map<Seq<char>, Seq<char>>,
    version: Seq<char>,
)
    ensures
        filled(ps, keys, vars, version).len() == ps.len(),
    decreases keys.len(),
{
    if keys.len() > 0 {
        lemma_filled_len(ps, keys.drop_last(), vars, version);
    }
}

/// Pieces that are all filled are what the pieces mean.
proof fn lemma_filled_means(
    ps: Seq<Piece>,
    full: Seq<Piece>,
    vars: Map<Seq<char>, Seq<char>>,
    version: Seq<char>,
)
    requires
        full.len() == ps.len(),
        forall|i: int|
            0 <= i < ps.len() ==> #[trigger] full[i] == (match ps[i] {
                Piece::Text(t) => ps[i],
                Piece::Ref(k) => Piece::Text(value_of(vars, version, k)),
            }),
    ensures
        written(full) == meant(ps, vars, version),
    decreases ps.len(),
{
    if ps.len() > 0 {
        let rest = ps.drop_first();
        let more = full.drop_first();
        assert forall|i: int| 0 <= i < rest.len() implies #[trigger] more[i] == (match rest[i] {
            Piece::Text(t) => rest[i],
            Piece::Ref(k) => Piece::Text(value_of(vars, version, k)),
        }) by {
            assert(more[i] == full[i + 1]);
            assert(rest[i] == ps[i + 1]);
        }
        lemma_filled_means(rest, more, vars, version);
        assert(full[0] == (match ps[0] {
            Piece::Text(t) => ps[0],
            Piece::Ref(k) => Piece::Text(value_of(vars, version, k)),
        }));
    }
}

/// Every reference in braces to the version or to a variable of the template gives way to its
/// value, any number of them and wherever they stand, where no value holds a reference itself.
pub proof fn law_references_are_resolved(
    ps: Seq<Piece>,
    keys: Seq<Seq<char>>,
    vars: Map<Seq<char>, Seq<char>>,
    version: Seq<char>,
)
    requires
        are_pieces(ps),
        !version.contains('$'),
        forall|i: int|
            0 <= i < keys.len() ==> is_name(#[trigger] keys[i]) && keys[i].len() > 0 && !value_of(
                vars,
                version,
                keys[i],
            ).contains('$'),
        forall|i: int|
            0 <= i < ps.len() ==> match #[trigger] ps[i] {
                Piece::Text(t) => true,
                Piece::Ref(k) => k == "version"@ || keys.contains(k),
            },
    ensures
        expanded(written(ps), keys, vars, version) == meant(ps, vars, version),
{
    reveal_strlit("${");
    reveal_strlit("}");
    reveal_strlit("version");
    reveal_strlit("${version}");
    let order = longest_first(keys);
    assert("${"@ + "version"@ + "}"@ =~= "${version}"@);
    assert(is_name("version"@));
    lemma_longest_first(keys);
    lemma_same_members(keys, order);
    assert forall|i: int| 0 <= i < order.len() implies is_name(#[trigger] order[i])
        && order[i].len() > 0 && !value_of(vars, version, order[i]).contains('$') by {
        assert(order.contains(order[i]));
        let j = choose|j: int| 0 <= j < keys.len() && keys[j] == order[i];
        assert(is_name(keys[j]));
    }
    lemma_replace_braced(ps, "version"@, version);
    lemma_substitute_fills(ps, order, vars, version);
    let full = filled(ps, order, vars, version);
    lemma_filled_len(ps, order, vars, version);
    assert forall|i: int| 0 <= i < ps.len() implies #[trigger] full[i] == (match ps[i] {
        Piece::Text(t) => ps[i],
        Piece::Ref(k) => Piece::Text(value_of(vars, version, k)),
    }) by {
        lemma_filled(ps, order, vars, version, i);
        assert(match ps[i] {
            Piece::Text(t) => true,
            Piece::Ref(k) => k == "version"@ || keys.contains(k),
        });
    }
    lemma_filled_means(ps, full, vars, version);
}

/// The address of a source is what its pieces mean, up to the name behind the last `>`, without white
/// space at its ends.
pub proof fn law_address_is_resolved(
    ps: Seq<Piece>,
    keys: Seq<Seq<char>>,
    vars: Map<Seq<char>, Seq<char>>,
    version: Seq<char>,
    url: Seq<char>,
    name: Seq<char>,
)
    requires
        are_pieces(ps),
        !version.contains('$'),
        forall|i: int|
            0 <= i < keys.len() ==> is_name(#[trigger] keys[i]) && keys[i].len() > 0 && !value_of(
                vars,
                version,
                keys[i],
            ).contains('$'),
        forall|i: int|
            0 <= i < ps.len() ==> match #[trigger] ps[i] {
                Piece::Text(t) => true,
                Piece::Ref(k) => k == "version"@ || keys.contains(k),
            },
        !name.contains('>'),
    ensures
        meant(ps, vars, version) == url + ">"@ + name ==> distfiles_url(
            written(ps),
            keys,
            vars,
            version,
        ) == trim(url),
        meant(ps, vars, version) == url && !url.contains('>') ==> distfiles_url(
            written(ps),
            keys,
            vars,
            version,
        ) == trim(url),
{
    law_references_are_resolved(ps, keys, vars, version);
    lemma_rename_taken_off(url, name);
    lemma_rfind_char(url, '>');
    if let Some(i) = rfind_char(url, '>') {
        assert(url.contains(url[i]));
    }
}

/// Whether no name of a variable can go on in `b`.
pub open spec fn ends_name(b: Seq<char>) -> bool {
    b.len() > 0 ==> !is_alnum(b[0]) && b[0] != '_'
}

/// A reference without braces is read as another name only where that name starts it.
proof fn lemma_plain_other(a: Seq<char>, k: Seq<char>, b: Seq<char>, pat: Seq<char>)
    requires
        !a.contains('$'),
        !b.contains('$'),
        !k.contains('$'),
        pat.len() > 0,
        pat[0] == '$',
        !starts_with("$"@ + k + b, pat),
    ensures
        !has_text(a + ("$"@ + k) + b, pat),
{
    reveal_strlit("$");
    let s = a + ("$"@ + k) + b;
    let rest = "$"@ + k + b;
    let n = a.len() as int;
    lemma_find_text(s, pat);
    if let Some(i) = find_text(s, pat) {
        let sub = s.subrange(i, i + pat.len());
        assert(sub[0] == s[i]);
        if i < n {
            assert(a.contains(a[i]));
        } else if i > n + k.len() {
            assert(b.contains(b[i - n - 1 - k.len()]));
        } else if i > n {
            assert(k.contains(k[i - n - 1]));
        } else {
            assert(s.skip(n) =~= rest);
            assert(rest.take(pat.len() as int) =~= sub);
        }
    }
}

/// A name that is no shorter is not read in place of another.
proof fn lemma_longer_name(k: Seq<char>, key: Seq<char>, b: Seq<char>)
    requires
        is_name(key),
        ends_name(b),
        byte_len(key) >= byte_len(k),
        key != k,
    ensures
        !starts_with("$"@ + k + b, "$"@ + key),
{
    reveal_strlit("$");
    let rest = "$"@ + k + b;
    let pat = "$"@ + key;
    if starts_with(rest, pat) {
        assert forall|i: int| 0 <= i < pat.len() implies rest[i] == pat[i] by {
            assert(rest.take(pat.len() as int)[i] == rest[i]);
        }
        let m = key.len() as int;
        let n = k.len() as int;
        if m > n {
            assert(pat[1 + n] == key[n]);
            assert(rest[1 + n] == b[0]);
            assert(is_alnum(key[n]) || key[n] == '_');
        } else {
            assert forall|i: int| 0 <= i < m implies key[i] == k[i] by {
                assert(pat[1 + i] == key[i] && rest[1 + i] == k[i]);
            }
            if m == n {
                assert(key =~= k);
            } else {
                assert(k.take(m) =~= key);
                lemma_byte_len_prefix(key, k);
            }
        }
    }
}

/// What one variable does to a text with a reference without braces to `k`.
proof fn lemma_plain_one(
    a: Seq<char>,
    k: Seq<char>,
    b: Seq<char>,
    key: Seq<char>,
    vars: Map<Seq<char>, Seq<char>>,
    version: Seq<char>,
)
    requires
        !a.contains('$'),
        !b.contains('$'),
        ends_name(b),
        is_name(k),
        k.len() > 0,
        is_name(key),
        byte_len(key) >= byte_len(k),
        key == k ==> k != "version"@,
    ensures
        key != k ==> substitute(a + ("$"@ + k) + b, key, vars, version) == a + ("$"@ + k) + b,
        key == k ==> substitute(a + ("$"@ + k) + b, key, vars, version) == a + value_of(
            vars,
            version,
            k,
        ) + b,
{
    reveal_strlit("${");
    reveal_strlit("}");
    reveal_strlit("$");
    lemma_name_letters(k);
    assert(!k.contains('$')) by {
        if k.contains('$') {
            let i = choose|i: int| 0 <= i < k.len() && k[i] == '$';
            assert(k[i] != '$');
        }
    }
    let s = a + ("$"@ + k) + b;
    let braced = "${"@ + key + "}"@;
    let plain = "$"@ + key;
    let value = replace(text_at(vars, key), "${version}"@, version);
    let rest = "$"@ + k + b;
    assert(braced[0] == '$' && plain[0] == '$');
    if starts_with(rest, braced) {
        assert(rest.take(braced.len() as int)[1] == rest[1]);
        assert(rest[1] == k[0]);
        assert(braced[1] == '{');
    }
    lemma_plain_other(a, k, b, braced);
    lemma_no_match(s, braced, value);
    if key == k {
        law_one_reference_is_replaced(a, plain, b, value);
    } else {
        lemma_longer_name(k, key, b);
        lemma_plain_other(a, k, b, plain);
        lemma_no_match(s, plain, value);
    }
}

/// What variables do, the longer names first, to a text with a reference without braces to `k`.
proof fn lemma_plain_all(
    a: Seq<char>,
    k: Seq<char>,
    b: Seq<char>,
    order: Seq<Seq<char>>,
    n: int,
    vars: Map<Seq<char>, Seq<char>>,
    version: Seq<char>,
)
    requires
        !a.contains('$'),
        !b.contains('$'),
        ends_name(b),
        is_name(k),
        k.len() > 0,
        k != "version"@,
        !value_of(vars, version, k).contains('$'),
        forall|i: int| 0 <= i < order.len() ==> is_name(#[trigger] order[i]),
        forall|i: int, j: int|
            0 <= i < j < order.len() ==> byte_len(#[trigger] order[i]) >= byte_len(
                #[trigger] order[j],
            ),
        order.contains(k),
        0 <= n <= order.len(),
    ensures
        substitute_all(a + ("$"@ + k) + b, order.take(n), vars, version) == (if order.take(
            n,
        ).contains(k) {
            a + value_of(vars, version, k) + b
        } else {
            a + ("$"@ + k) + b
        }),
    decreases n,
{
    if n > 0 {
        let front = order.take(n - 1);
        let now = order.take(n);
        let key = order[n - 1];
        assert(now.drop_last() =~= front);
        assert(now.last() == key);
        lemma_plain_all(a, k, b, order, n - 1, vars, version);
        assert(now.contains(k) <==> front.contains(k) || key == k) by {
            if now.contains(k) && key != k {
                let i = choose|i: int| 0 <= i < now.len() && now[i] == k;
                assert(front[i] == k);
            }
            if front.contains(k) {
                let i = choose|i: int| 0 <= i < front.len() && front[i] == k;
                assert(now[i] == k);
            }
            assert(now[n - 1] == key);
        }
        if front.contains(k) {
            let out = a + value_of(vars, version, k) + b;
            lemma_three_lack(a, value_of(vars, version, k), b);
            let one = seq![key];
            assert(one.drop_last() =~= Seq::<Seq<char>>::empty());
            assert(substitute_all(out, one.drop_last(), vars, version) == out);
            lemma_substitute_none(out, one, vars, version);
        } else {
            let j = choose|j: int| 0 <= j < order.len() && order[j] == k;
            assert(j >= n - 1) by {
                if j < n - 1 {
                    assert(front[j] == k);
                }
            }
            assert(byte_len(order[n - 1]) >= byte_len(order[j]));
            lemma_plain_one(a, k, b, key, vars, version);
        }
    } else {
        assert(order.take(0) =~= Seq::<Seq<char>>::empty());
    }
}

/// Texts without a `$` hold none together.
proof fn lemma_three_lack(a: Seq<char>, v: Seq<char>, b: Seq<char>)
    requires
        !a.contains('$'),
        !v.contains('$'),
        !b.contains('$'),
    ensures
        !(a + v + b).contains('$'),
{
    let out = a + v + b;
    if out.contains('$') {
        let i = choose|i: int| 0 <= i < out.len() && out[i] == '$';
        if i < a.len() {
            assert(a.contains(a[i]));
        } else if i < a.len() + v.len() {
            assert(v.contains(v[i - a.len()]));
        } else {
            assert(b.contains(b[i - a.len() - v.len()]));
        }
    }
}

/// A reference without braces to a variable of the template gives way to its value too, where the
/// name does not go on behind it: no shorter name that it starts with is read in its place.
pub proof fn law_plain_reference_is_resolved(
    a: Seq<char>,
    k: Seq<char>,
    b: Seq<char>,
    keys: Seq<Seq<char>>,
    vars: Map<Seq<char>, Seq<char>>,
    version: Seq<char>,
)
    requires
        !a.contains('$'),
        !b.contains('$'),
        ends_name(b),
        is_name(k),
        k.len() > 0,
        k != "version"@,
        keys.contains(k),
        !value_of(vars, version, k).contains('$'),
        forall|i: int| 0 <= i < keys.len() ==> is_name(#[trigger] keys[i]) && keys[i].len() > 0,
    ensures
        expanded(a + ("$"@ + k) + b, keys, vars, version) == a + value_of(vars, version, k) + b,
{
    reveal_strlit("$");
    reveal_strlit("${version}");
    let s = a + ("$"@ + k) + b;
    let order = longest_first(keys);
    let marker = "${version}"@;
    let rest = "$"@ + k + b;
    lemma_longest_first(keys);
    lemma_same_members(keys, order);
    lemma_name_letters(k);
    assert(!k.contains('$')) by {
        if k.contains('$') {
            let i = choose|i: int| 0 <= i < k.len() && k[i] == '$';
            assert(k[i] != '$');
        }
    }
    if starts_with(rest, marker) {
        assert(rest.take(marker.len() as int)[1] == rest[1]);
        assert(rest[1] == k[0]);
    }
    lemma_plain_other(a, k, b, marker);
    lemma_no_match(s, marker, version);
    assert(order.take(order.len() as int) =~= order);
    lemma_plain_all(a, k, b, order, order.len() as int, vars, version);
}

// ---------------------------------------------------------------------------------------------
// Values as written, over several lines
// ---------------------------------------------------------------------------------------------

/// What a scan for values as written has gathered after further lines of an open value.
proof fn lemma_raw_lines(ls: Seq<Seq<char>>, mids: Seq<Seq<char>>)
    requires
        raw_scan(ls).open is Some,
        forall|i: int| 0 <= i < mids.len() ==> !(#[trigger] mids[i]).contains('"'),
    ensures
        raw_scan(ls + mids).open == raw_scan(ls).open,
        raw_scan(ls + mids).vars == raw_scan(ls).vars,
        words(raw_scan(ls + mids).buf) == words(raw_scan(ls).buf) + words(join(mids, " "@)),
    decreases mids.len(),
{
    reveal_strlit(" ");
    let none = Seq::<char>::empty();
    assert(words(none) =~= Seq::<Seq<char>>::empty());
    let start = raw_scan(ls).buf;
    if mids.len() == 0 {
        assert(ls + mids =~= ls);
        assert(words(start) + words(join(mids, " "@)) =~= words(start));
    } else {
        let front = mids.drop_last();
        let line = mids[mids.len() - 1];
        assert forall|i: int| 0 <= i < front.len() implies !(#[trigger] front[i]).contains('"') by {
            assert(front[i] == mids[i]);
        }
        lemma_raw_lines(ls, front);
        assert((ls + mids).drop_last() =~= ls + front);
        assert((ls + mids).last() == line);
        let before = raw_scan(ls + front);
        let after = raw_scan(ls + mids);
        assert(after.buf =~= before.buf + " "@ + trim(line));
        law_words_add_up(before.buf, trim(line));
        law_words_of_trimmed(line);
        if front.len() > 0 {
            assert(join(mids, " "@) == join(front, " "@) + " "@ + line);
            law_words_add_up(join(front, " "@), line);
        } else {
            assert(join(mids, " "@) == line);
            assert(words(start) + words(join(front, " "@)) =~= words(start));
        }
        assert((words(start) + words(join(front, " "@))) + words(line) =~= words(start) + words(
            join(mids, " "@),
        ));
    }
}

/// A value as written whose double quotes run over several lines has the words of all of these
/// lines, up to the closing quote, in order: so every source that a template names is there.
pub proof fn law_raw_value_runs_over_lines(
    ls: Seq<Seq<char>>,
    first: Seq<char>,
    mids: Seq<Seq<char>>,
    last: Seq<char>,
    name: Seq<char>,
    x: Seq<char>,
)
    requires
        raw_scan(ls).open is None,
        name.len() > 0,
        is_name(name),
        trim(name) == name,
        trim(first) == name.push('=') + ("\""@ + x),
        trim("\""@ + x) == "\""@ + x,
        !x.contains('"'),
        forall|i: int| 0 <= i < mids.len() ==> !(#[trigger] mids[i]).contains('"'),
        last.contains('"'),
    ensures
        ({
            let end = raw_scan((ls.push(first) + mids).push(last));
            &&& end.open is None
            &&& words(text_at(end.vars, name)) == words(x) + words(join(mids, " "@)) + words(
                last.take(find_char(last, '"')->0),
            )
            &&& forall|other: Seq<char>|
                other != name ==> text_at(end.vars, other) == #[trigger] text_at(
                    raw_scan(ls).vars,
                    other,
                )
        }),
{
    reveal_strlit(" ");
    reveal_strlit("\"");
    let one = ls.push(first);
    assert(one.drop_last() =~= ls);
    let v = "\""@ + x;
    let t = name.push('=') + v;
    let n = name.len() as int;
    lemma_name_letters(name);
    assert(t[n] == '=' && t[0] == name[0]);
    assert forall|j: int| 0 <= j < n implies t[j] != '=' by {
        assert(t[j] == name[j]);
    }
    lemma_find_char_is(t, '=', n);
    assert(t.take(n) =~= name);
    assert(t.skip(n + 1) =~= v);
    assert(v[0] == '"');
    assert(v.drop_first() =~= x);
    assert(raw_scan(one) == (ScanModel {
        vars: raw_scan(ls).vars,
        open: Some(name),
        buf: trim(x),
    }));
    lemma_raw_lines(one, mids);
    let two = one + mids;
    let all = two.push(last);
    assert(all.drop_last() =~= two);
    let mid = raw_scan(two);
    lemma_find_char(last, '"');
    let b = last.take(find_char(last, '"')->0);
    assert(before_quote(last) == b);
    let value = mid.buf.push(' ') + trim(b);
    assert(value =~= mid.buf + " "@ + trim(b));
    assert(raw_scan(all) == (ScanModel {
        vars: mid.vars.insert(name, trim(value)),
        open: None,
        buf: seq![],
    }));
    law_words_of_trimmed(value);
    law_words_add_up(mid.buf, trim(b));
    law_words_of_trimmed(b);
    law_words_of_trimmed(x);
}

} // verus!
