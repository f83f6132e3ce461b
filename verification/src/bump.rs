//! What a bump does to what a template says.

use vstd::prelude::*;

use crate::line::{
    is_ended, is_line, is_word, law_words_read_back, lemma_lines, lemma_relined, reread,
};
use crate::package::{
    is_skipped, status_of, template_package, template_scan, template_step, unquoted, Status,
};
use crate::table::text_at;
use crate::template::{
    all_there, checksum_lines, checksum_value, checksums, closing_line, contents, file_name, hex,
    hex_digit, indent_of, is_checksum, is_hex, is_name, lemma_closing_line, lemma_hex_letters,
    lemma_rewrite_front, opens_checksum, opens_value, rewrite_line, rewrite_lines, rewritten,
    sha256, source_urls, without_rename, ScanModel,
};
use crate::text::{
    digits_value, ends_with, find_char, find_text, has_text, is_white, join, lemma_find_char,
    lemma_find_char_is, lemma_find_text, lemma_rfind_char, lemma_trim_end_len, lemma_trim_start_len,
    lemma_word_len, lines, rfind_char, starts_with, trim, trim_start, without_cr, word_len, words,
};
use crate::version::law_newer_irreflexive;

verus! {

broadcast use vstd::seq_lib::group_seq_properties;

/// A rewritten line holds no line end.
proof fn lemma_rewrite_line(line: Seq<char>, version: Seq<char>, checksum: Seq<char>)
    requires
        !line.contains('\n'),
        !version.contains('\n'),
        !checksum.contains('\n'),
    ensures
        !rewrite_line(line, version, checksum).contains('\n'),
{
    reveal_strlit("version=");
    reveal_strlit("revision=1");
    reveal_strlit("checksum=");
    lemma_trim_start_len(line);
    let ind = indent_of(line);
    if ind.contains('\n') {
        let j = choose|j: int| 0 <= j < ind.len() && ind[j] == '\n';
        assert(line.contains(line[j]));
    }
    lemma_no_line_end(ind, "version="@);
    lemma_no_line_end(ind + "version="@, version);
    lemma_no_line_end(ind, "revision=1"@);
    lemma_no_line_end(ind, "checksum="@);
    lemma_no_line_end(ind + "checksum="@, checksum);
}

/// Two texts without line ends, one behind the other.
proof fn lemma_no_line_end(a: Seq<char>, b: Seq<char>)
    ensures
        !a.contains('\n') && !b.contains('\n') ==> !(a + b).contains('\n'),
{
    if (a + b).contains('\n') {
        let j = choose|j: int| 0 <= j < (a + b).len() && (a + b)[j] == '\n';
        if j < a.len() {
            assert(a.contains(a[j]));
        } else {
            assert(b.contains(b[j - a.len()]));
        }
    }
}

/// What the lines of a rewritten template are like: each of them is a line of the template,
/// rewritten.
proof fn lemma_rewrite_lines(
    ls: Seq<Seq<char>>,
    version: Seq<char>,
    checksum: Seq<char>,
    j: int,
) -> (k: int)
    requires
        0 <= j < rewrite_lines(ls, version, checksum).len(),
    ensures
        0 <= k < ls.len(),
        rewrite_lines(ls, version, checksum)[j] == rewrite_line(ls[k], version, checksum),
    decreases ls.len(),
{
    lemma_closing_line(ls.drop_first());
    let n = 1 + checksum_lines(ls);
    let rest = ls.skip(n);
    let out = rewrite_lines(ls, version, checksum);
    if j == 0 {
        0
    } else {
        assert(out[j] == rewrite_lines(rest, version, checksum)[j - 1]);
        let k = lemma_rewrite_lines(rest, version, checksum, j - 1);
        assert(rest[k] == ls[k + n]);
        k + n
    }
}

/// A rewritten line is not empty where the line was not.
proof fn lemma_rewrite_fills(line: Seq<char>, version: Seq<char>, checksum: Seq<char>)
    ensures
        line.len() > 0 ==> rewrite_line(line, version, checksum).len() > 0,
        opens_checksum(line) ==> rewrite_line(line, version, checksum).len() > 0,
{
    reveal_strlit("version=");
    reveal_strlit("revision=1");
    reveal_strlit("checksum=");
    lemma_trim_start_len(line);
}

/// The last line of a rewritten template is not empty where that of the template was not.
proof fn lemma_rewrite_last(ls: Seq<Seq<char>>, version: Seq<char>, checksum: Seq<char>)
    requires
        ls.len() > 0,
    ensures
        rewrite_lines(ls, version, checksum).len() > 0,
        ls.last().len() > 0 ==> rewrite_lines(ls, version, checksum).last().len() > 0,
    decreases ls.len(),
{
    lemma_closing_line(ls.drop_first());
    lemma_rewrite_fills(ls[0], version, checksum);
    let n = 1 + checksum_lines(ls);
    let rest = ls.skip(n);
    let more = rewrite_lines(rest, version, checksum);
    let out = rewrite_lines(ls, version, checksum);
    assert(out == seq![rewrite_line(ls[0], version, checksum)] + more);
    if rest.len() > 0 {
        lemma_rewrite_last(rest, version, checksum);
        assert(rest.last() == ls.last());
        assert(out.last() == more.last());
    } else {
        assert(more =~= Seq::<Seq<char>>::empty());
        assert(out.last() == rewrite_line(ls[0], version, checksum));
        assert(!opens_checksum(ls[0]) ==> ls[0] == ls.last());
    }
}

/// The lines of a rewritten template read back as they were written. The new values hold no line
/// ends.
pub proof fn law_rewrite_keeps_lines(content: Seq<char>, version: Seq<char>, checksum: Seq<char>)
    requires
        !version.contains('\n'),
        !checksum.contains('\n'),
    ensures
        lines(rewritten(content, version, checksum)) == reread(
            rewrite_lines(lines(content), version, checksum),
            is_ended(content),
        ),
{
    let ls = lines(content);
    let out = rewrite_lines(ls, version, checksum);
    lemma_lines(content);
    assert forall|i: int| 0 <= i < out.len() implies !(#[trigger] out[i]).contains('\n') by {
        let k = lemma_rewrite_lines(ls, version, checksum, i);
        assert(!ls[k].contains('\n'));
        lemma_rewrite_line(ls[k], version, checksum);
    }
    if ls.len() > 0 {
        lemma_rewrite_last(ls, version, checksum);
    }
    lemma_relined(content, out);
}

/// Where no line of a template opens checksums that run over several lines, a rewrite keeps every
/// line in its place.
pub proof fn law_rewrite_keeps_places(
    ls: Seq<Seq<char>>,
    version: Seq<char>,
    checksum: Seq<char>,
    i: int,
)
    requires
        forall|k: int| 0 <= k < ls.len() ==> !opens_checksum(#[trigger] ls[k]),
        0 <= i < ls.len(),
    ensures
        rewrite_lines(ls, version, checksum).len() == ls.len(),
        rewrite_lines(ls, version, checksum)[i] == rewrite_line(ls[i], version, checksum),
    decreases ls.len(),
{
    let rest = ls.skip(1);
    assert(!opens_checksum(ls[0]));
    if rest.len() > 0 {
        assert forall|k: int| 0 <= k < rest.len() implies !opens_checksum(#[trigger] rest[k]) by {
            assert(rest[k] == ls[k + 1]);
        }
        law_rewrite_keeps_places(rest, version, checksum, if i > 0 {
            i - 1
        } else {
            0
        });
    } else {
        assert(rewrite_lines(rest, version, checksum).len() == 0);
    }
}

/// A bump gives each of the three assignments its new value, behind the white space that the line
/// starts with, whatever the old value was.
pub proof fn law_bump_writes_assignments(
    w: Seq<char>,
    old_value: Seq<char>,
    version: Seq<char>,
    checksum: Seq<char>,
)
    requires
        forall|i: int| 0 <= i < w.len() ==> is_white(#[trigger] w[i]),
    ensures
        rewrite_line(w + ("version="@ + old_value), version, checksum) == w + "version="@ + version,
        rewrite_line(w + ("revision="@ + old_value), version, checksum) == w + "revision="@ + "1"@,
        rewrite_line(w + ("checksum="@ + old_value), version, checksum) == w + "checksum="@
            + checksum,
{
    reveal_strlit("version=");
    reveal_strlit("revision=");
    reveal_strlit("checksum=");
    lemma_names();
    lemma_trim_head(w, "version="@, old_value);
    lemma_trim_head(w, "revision="@, old_value);
    lemma_trim_head(w, "checksum="@, old_value);
    lemma_one_head(trim(w + ("version="@ + old_value)));
    lemma_one_head(trim(w + ("revision="@ + old_value)));
    lemma_one_head(trim(w + ("checksum="@ + old_value)));
    lemma_indent_is(w, "version="@ + old_value);
    lemma_indent_is(w, "revision="@ + old_value);
    lemma_indent_is(w, "checksum="@ + old_value);
    assert(w + "revision=1"@ =~= w + "revision="@ + "1"@);
}

/// A bump leaves every other line as it is.
pub proof fn law_bump_leaves_other_lines(
    line: Seq<char>,
    version: Seq<char>,
    checksum: Seq<char>,
)
    requires
        !starts_with(trim(line), "version="@),
        !starts_with(trim(line), "revision="@),
        !starts_with(trim(line), "checksum="@),
    ensures
        rewrite_line(line, version, checksum) == line,
{
}

/// The white space in front of a text is its indentation.
proof fn lemma_indent_is(w: Seq<char>, x: Seq<char>)
    requires
        forall|i: int| 0 <= i < w.len() ==> is_white(#[trigger] w[i]),
        x.len() > 0,
        !is_white(x[0]),
    ensures
        indent_of(w + x) == w,
{
    lemma_trim_start_is(w, x);
    assert((w + x).take(w.len() as int) =~= w);
}

proof fn lemma_trim_start_is(w: Seq<char>, x: Seq<char>)
    requires
        forall|i: int| 0 <= i < w.len() ==> is_white(#[trigger] w[i]),
        x.len() > 0,
        !is_white(x[0]),
    ensures
        trim_start(w + x) == x,
    decreases w.len(),
{
    if w.len() > 0 {
        let less = w.drop_first();
        assert((w + x).drop_first() =~= less + x);
        assert forall|i: int| 0 <= i < less.len() implies is_white(#[trigger] less[i]) by {
            assert(less[i] == w[i + 1]);
        }
        assert(is_white(w[0]));
        lemma_trim_start_is(less, x);
    } else {
        assert(w + x =~= x);
    }
}

// ---------------------------------------------------------------------------------------------
// Reading back
// ---------------------------------------------------------------------------------------------

/// Whether a line of a template is one that a bump rewrites.
pub open spec fn is_rewritten(line: Seq<char>) -> bool {
    let t = trim(line);
    starts_with(t, "version="@) || starts_with(t, "revision="@) || starts_with(t, "checksum="@)
}

/// Whether `name` is one of the variables that a bump sets.
pub open spec fn is_bumped(name: Seq<char>) -> bool {
    name == "version"@ || name == "revision"@ || name == "checksum"@
}

/// The variable that a line writes to, when it is read with the value `open` still open.
pub open spec fn target(open: Option<Seq<char>>, line: Seq<char>) -> Option<Seq<char>> {
    match open {
        Some(name) => if line.contains('"') {
            Some(name)
        } else {
            None
        },
        None => {
            let t = trim(line);
            if is_skipped(t) {
                None
            } else {
                match find_text(t, "+="@) {
                    Some(i) => Some(trim(t.take(i))),
                    None => match find_char(t, '=') {
                        Some(i) => Some(trim(t.take(i))),
                        None => None,
                    },
                }
            }
        },
    }
}

/// The value that is open after a line.
pub open spec fn open_after(open: Option<Seq<char>>, line: Seq<char>) -> Option<Seq<char>> {
    match open {
        Some(name) => if line.contains('"') {
            None
        } else {
            open
        },
        None => {
            let t = trim(line);
            if is_skipped(t) {
                None
            } else {
                match find_text(t, "+="@) {
                    Some(i) => if opens_value(trim(t.skip(i + 2))) {
                        Some(trim(t.take(i)))
                    } else {
                        None
                    },
                    None => match find_char(t, '=') {
                        Some(i) => if is_name(trim(t.take(i))) && opens_value(trim(t.skip(i + 1))) {
                            Some(trim(t.take(i)))
                        } else {
                            None
                        },
                        None => None,
                    },
                }
            }
        },
    }
}

/// The value that is open after the lines `ls`.
pub open spec fn open_at(ls: Seq<Seq<char>>) -> Option<Seq<char>>
    decreases ls.len(),
{
    if ls.len() == 0 {
        None
    } else {
        open_after(open_at(ls.drop_last()), ls.last())
    }
}

/// Whether a line, read with the value `open` still open, leaves the variables of a bump to the
/// form that a bump rewrites: a line that starts with one of the three assignments stands outside
/// of quoted values and opens none but that of the checksums, and no other line writes to the three
/// variables, but for those on which the checksums run on.
#[verifier::opaque]
pub open spec fn is_tidy_line(open: Option<Seq<char>>, line: Seq<char>) -> bool {
    if is_rewritten(line) {
        &&& open is None
        &&& open_after(open, line) == (if opens_checksum(line) {
            Some("checksum"@)
        } else {
            None
        })
    } else {
        ||| open == Some("checksum"@)
        ||| match target(open, line) {
            Some(name) => !is_bumped(name),
            None => true,
        }
    }
}

/// Whether the lines of a template set the variables of a bump only in the form that a bump
/// rewrites, and close the checksums that they open.
pub open spec fn is_tidy(ls: Seq<Seq<char>>) -> bool {
    &&& forall|i: int|
        0 <= i < ls.len() ==> is_tidy_line(open_at(ls.take(i)), #[trigger] ls[i])
    &&& open_at(ls) != Some("checksum"@)
}

/// Whether a template line that assigns `v` is read as `v`, without the double quotes around it.
pub open spec fn is_value(v: Seq<char>) -> bool {
    &&& is_line(v)
    &&& trim(v) == v
    &&& !opens_value(v)
    &&& !(v.len() > 0 && v[0] == '$' && !v.contains('{'))
    &&& !has_text(v, "+="@)
    &&& !ends_with(v, "() {"@)
}

/// Whether a template line that assigns `v` is read as just `v`.
pub open spec fn is_plain(v: Seq<char>) -> bool {
    is_value(v) && unquoted(v) == v
}

/// Which value is open depends only on the lines, and a line writes to its target alone.
pub proof fn lemma_step(st: ScanModel, line: Seq<char>)
    ensures
        template_step(st, line).open == open_after(st.open, line),
        forall|k: Seq<char>|
            Some(k) != target(st.open, line) ==> {
                &&& #[trigger] template_step(st, line).vars.contains_key(k)
                    == st.vars.contains_key(k)
                &&& template_step(st, line).vars.contains_key(k) ==> template_step(
                    st,
                    line,
                ).vars[k] == st.vars[k]
            },
{
}

/// White space in front of a text that has none at its ends is trimmed.
pub proof fn lemma_trim_indented(w: Seq<char>, x: Seq<char>)
    requires
        forall|i: int| 0 <= i < w.len() ==> is_white(#[trigger] w[i]),
        x.len() > 0,
        !is_white(x[0]),
        !is_white(x.last()),
    ensures
        trim(w + x) == x,
    decreases w.len(),
{
    if w.len() == 0 {
        assert(w + x =~= x);
    } else {
        assert((w + x).drop_first() =~= w.drop_first() + x);
        assert forall|i: int| 0 <= i < w.drop_first().len() implies is_white(
            #[trigger] w.drop_first()[i],
        ) by {
            assert(is_white(w[i + 1]));
        }
        lemma_trim_indented(w.drop_first(), x);
        assert(is_white(w[0]));
    }
}

/// The indentation of a line is white space.
proof fn lemma_indent_white(line: Seq<char>)
    ensures
        forall|i: int| 0 <= i < indent_of(line).len() ==> is_white(#[trigger] indent_of(line)[i]),
    decreases line.len(),
{
    lemma_trim_start_len(line);
    if line.len() > 0 && is_white(line[0]) {
        lemma_indent_white(line.drop_first());
        lemma_trim_start_len(line.drop_first());
        assert forall|i: int| 0 <= i < indent_of(line).len() implies is_white(
            #[trigger] indent_of(line)[i],
        ) by {
            if i > 0 {
                assert(indent_of(line.drop_first())[i - 1] == indent_of(line)[i]);
            }
        }
    }
}

/// A trimmed text has no white space at its end.
proof fn lemma_value_end(v: Seq<char>)
    requires
        trim(v) == v,
    ensures
        v.len() > 0 ==> !is_white(v.last()),
{
    lemma_trim_end_len(trim_start(v));
}

/// An assignment behind white space is still there when the line is trimmed.
proof fn lemma_trim_head(w: Seq<char>, head: Seq<char>, v: Seq<char>)
    requires
        forall|i: int| 0 <= i < w.len() ==> is_white(#[trigger] w[i]),
        head.len() > 0,
        !is_white(head[0]),
        !is_white(head.last()),
    ensures
        starts_with(trim(w + (head + v)), head),
    decreases w.len() + v.len(),
{
    let x = w + (head + v);
    if w.len() > 0 {
        let less = w.drop_first();
        assert(x.drop_first() =~= less + (head + v));
        assert forall|i: int| 0 <= i < less.len() implies is_white(#[trigger] less[i]) by {
            assert(less[i] == w[i + 1]);
        }
        assert(is_white(w[0]));
        lemma_trim_head(less, head, v);
    } else if v.len() > 0 && is_white(v.last()) {
        assert(x[0] == head[0]);
        let y = w + (head + v.drop_last());
        assert(y[0] == head[0]);
        assert(x.drop_last() =~= y);
        assert(x.last() == v.last());
        lemma_trim_head(w, head, v.drop_last());
    } else {
        assert(x =~= head + v);
        assert(x[0] == head[0]);
        assert(x.last() == (if v.len() > 0 {
            v.last()
        } else {
            head.last()
        }));
        assert(x.take(head.len() as int) =~= head);
    }
}

/// What the line `name=v` does to a scan outside of quoted values, for the names of a bump.
pub proof fn lemma_assign_line(
    st: ScanModel,
    line: Seq<char>,
    name: Seq<char>,
    head: Seq<char>,
    v: Seq<char>,
)
    requires
        st.open is None,
        trim(line) == head + v,
        is_value(v),
        head == name.push('='),
        name.len() > 0,
        is_name(name),
        !is_white(name[0]),
        !is_white(name.last()),
        forall|i: int| 0 <= i < name.len() ==> #[trigger] name[i] != '=' && name[i] != '+'
            && name[i] != '(' && name[i] != ')' && name[i] != ' ' && name[i] != '{',
        !is_skipped(head + v),
    ensures
        template_step(st, line) == (ScanModel { vars: st.vars.insert(name, unquoted(v)), ..st }),
{
    reveal_strlit("+=");
    let t = head + v;
    let n = name.len() as int;
    assert(t[n] == '=');
    assert forall|j: int| 0 <= j < n implies t[j] != '=' by {
        assert(t[j] == name[j]);
    }
    lemma_find_char_is(t, '=', n);
    lemma_find_text(t, "+="@);
    lemma_find_text(v, "+="@);
    if let Some(k) = find_text(t, "+="@) {
        let sub = t.subrange(k, k + 2);
        assert(sub[0] == '+' && sub[1] == '=');
        assert(t[k] == '+' && t[k + 1] == '=');
        if k < n {
            assert(t[k] == name[k]);
        } else if k > n {
            let m = k - n - 1;
            assert(v.skip(m).take(2) =~= "+="@) by {
                assert(v[m] == t[k]);
                assert(v[m + 1] == t[k + 1]);
            }
            assert(starts_with(v.skip(m), "+="@));
        }
        assert(false);
    }
    assert(t.take(n) =~= name);
    assert(t.skip(n + 1) =~= v);
    let empty = Seq::<char>::empty();
    lemma_trim_indented(empty, name);
    assert(empty + name =~= name);
}

/// Texts that differ at an index do not start with one another.
proof fn lemma_differs(t: Seq<char>, p: Seq<char>, i: int)
    requires
        0 <= i < p.len(),
        i < t.len(),
        t[i] != p[i],
    ensures
        !starts_with(t, p),
{
    if starts_with(t, p) {
        assert(t.take(p.len() as int)[i] == t[i]);
    }
}

/// No assignment of a bump is among the lines that are skipped.
proof fn lemma_not_skipped(head: Seq<char>, v: Seq<char>)
    requires
        !ends_with(v, "() {"@),
        head == "version="@ || head == "revision="@ || head == "checksum="@,
    ensures
        !is_skipped(head + v),
{
    reveal(is_skipped);
    reveal_strlit("version=");
    reveal_strlit("revision=");
    reveal_strlit("checksum=");
    reveal_strlit("() {");
    reveal_strlit("}");
    reveal_strlit("if ");
    reveal_strlit("fi");
    reveal_strlit("then");
    reveal_strlit("else");
    reveal_strlit("vmove");
    reveal_strlit("vlicense");
    reveal_strlit("vinstall");
    reveal_strlit("vbin");
    reveal_strlit("vman");
    reveal_strlit("vsed");
    reveal_strlit("vcompletion");
    reveal_strlit("vcopy");
    reveal_strlit("ln ");
    reveal_strlit("sed ");
    reveal_strlit("chmod");
    reveal_strlit("mkdir");
    reveal_strlit("cat ");
    reveal_strlit("install ");
    reveal_strlit("rm ");
    reveal_strlit("local ");
    reveal_strlit("pkg_install");
    reveal_strlit("depends=");
    let t = head + v;
    assert(t.len() >= 8);
    assert(t[0] == head[0]);
    assert(t[1] == head[1]);
    assert(t[2] == head[2]);
    if ends_with(t, "() {"@) {
        let k = t.len() - 4;
        let e = t.skip(k);
        assert(e[0] == '(');
        assert(t[k] == '(');
        if k < head.len() {
            assert(t[k] == head[k]);
            assert(false);
        } else {
            assert(v.skip(v.len() - 4) =~= e);
            assert(false);
        }
    }
    lemma_differs(t, "if "@, 0);
    lemma_differs(t, "fi"@, 0);
    lemma_differs(t, "then"@, 0);
    lemma_differs(t, "else"@, 0);
    lemma_differs(t, "vmove"@, if head[0] == 'v' { 1 } else { 0 });
    lemma_differs(t, "vlicense"@, if head[0] == 'v' { 1 } else { 0 });
    lemma_differs(t, "vinstall"@, if head[0] == 'v' { 1 } else { 0 });
    lemma_differs(t, "vbin"@, if head[0] == 'v' { 1 } else { 0 });
    lemma_differs(t, "vman"@, if head[0] == 'v' { 1 } else { 0 });
    lemma_differs(t, "vsed"@, if head[0] == 'v' { 1 } else { 0 });
    lemma_differs(t, "vcompletion"@, if head[0] == 'v' { 1 } else { 0 });
    lemma_differs(t, "vcopy"@, if head[0] == 'v' { 1 } else { 0 });
    lemma_differs(t, "ln "@, 0);
    lemma_differs(t, "sed "@, 0);
    lemma_differs(t, "chmod"@, if head[0] == 'c' { 2 } else { 0 });
    lemma_differs(t, "mkdir"@, 0);
    lemma_differs(t, "cat "@, if head[0] == 'c' { 1 } else { 0 });
    lemma_differs(t, "install "@, 0);
    lemma_differs(t, "rm "@, if head[0] == 'r' { 1 } else { 0 });
    lemma_differs(t, "local "@, 0);
    lemma_differs(t, "pkg_install"@, 0);
    lemma_differs(t, "depends="@, 0);
}

/// What a rewritten line, white space and an assignment, does to a scan outside of quoted values.
proof fn lemma_indented_step(
    st: ScanModel,
    line: Seq<char>,
    name: Seq<char>,
    head: Seq<char>,
    v: Seq<char>,
)
    requires
        st.open is None,
        is_value(v),
        head == "version="@ || head == "revision="@ || head == "checksum="@,
        head == name.push('='),
        is_bumped(name),
    ensures
        template_step(st, indent_of(line) + (head + v)) == (ScanModel {
            vars: st.vars.insert(name, unquoted(v)),
            ..st
        }),
{
    let ind = indent_of(line);
    let x = head + v;
    lemma_indent_white(line);
    lemma_value_end(v);
    lemma_bumped_name(name);
    assert(x[0] == name[0]);
    assert(x.last() == (if v.len() > 0 {
        v.last()
    } else {
        '='
    }));
    lemma_trim_indented(ind, x);
    lemma_not_skipped(head, v);
    lemma_assign_line(st, ind + x, name, head, v);
}

/// The letters of the three variables.
proof fn lemma_bumped_name(name: Seq<char>)
    requires
        is_bumped(name),
    ensures
        name.len() > 0,
        is_name(name),
        !is_white(name[0]),
        !is_white(name.last()),
        forall|i: int| 0 <= i < name.len() ==> #[trigger] name[i] != '=' && name[i] != '+'
            && name[i] != '(' && name[i] != ')' && name[i] != ' ' && name[i] != '{',
{
    reveal_strlit("version");
    reveal_strlit("revision");
    reveal_strlit("checksum");
}

/// Of the three assignments a line starts with one at most.
proof fn lemma_one_head(t: Seq<char>)
    ensures
        starts_with(t, "version="@) ==> !starts_with(t, "revision="@) && !starts_with(
            t,
            "checksum="@,
        ),
        starts_with(t, "revision="@) ==> !starts_with(t, "checksum="@),
{
    reveal_strlit("version=");
    reveal_strlit("revision=");
    reveal_strlit("checksum=");
    if starts_with(t, "version="@) {
        assert(t.take(8)[0] == t[0]);
        lemma_differs(t, "revision="@, 0);
        lemma_differs(t, "checksum="@, 0);
    } else if starts_with(t, "revision="@) {
        assert(t.take(9)[0] == t[0]);
        lemma_differs(t, "checksum="@, 0);
    }
}

/// A line that assigns a variable of a bump, rewritten.
proof fn lemma_rewritten_line(
    line: Seq<char>,
    name: Seq<char>,
    version: Seq<char>,
    checksum: Seq<char>,
)
    requires
        is_bumped(name),
        starts_with(trim(line), name.push('=')),
    ensures
        rewrite_line(line, version, checksum) == indent_of(line) + (name.push('=') + bumped_value(
            name,
            version,
            checksum,
        )),
{
    lemma_names();
    lemma_bumped_distinct();
    lemma_one_head(trim(line));
    let v = bumped_value(name, version, checksum);
    assert(rewrite_line(line, version, checksum) =~= indent_of(line) + (name.push('=') + v));
}

/// What a rewritten line does to a scan outside of quoted values.
proof fn lemma_rewritten_step(
    st: ScanModel,
    line: Seq<char>,
    name: Seq<char>,
    version: Seq<char>,
    checksum: Seq<char>,
)
    requires
        st.open is None,
        is_bumped(name),
        starts_with(trim(line), name.push('=')),
        is_value(bumped_value(name, version, checksum)),
    ensures
        template_step(st, rewrite_line(line, version, checksum)) == (ScanModel {
            vars: st.vars.insert(name, unquoted(bumped_value(name, version, checksum))),
            ..st
        }),
{
    lemma_names();
    lemma_rewritten_line(line, name, version, checksum);
    lemma_indented_step(
        st,
        line,
        name,
        name.push('='),
        bumped_value(name, version, checksum),
    );
}

/// The texts of the three assignments.
proof fn lemma_names()
    ensures
        "version="@ == "version"@.push('='),
        "revision="@ == "revision"@.push('='),
        "checksum="@ == "checksum"@.push('='),
        is_plain("1"@),
        "1"@ == seq!['1'],
        "revision=1"@ == "revision="@ + "1"@,
{
    reveal_strlit("version=");
    reveal_strlit("version");
    reveal_strlit("revision=");
    reveal_strlit("revision");
    reveal_strlit("checksum=");
    reveal_strlit("checksum");
    reveal_strlit("revision=1");
    reveal_strlit("1");
    reveal_strlit("+=");
    reveal_strlit("() {");
    assert("version="@ =~= "version"@.push('='));
    assert("revision="@ =~= "revision"@.push('='));
    assert("checksum="@ =~= "checksum"@.push('='));
    let one = "1"@;
    assert(one =~= seq!['1']);
    assert("revision=1"@ =~= "revision="@ + "1"@);
    lemma_trim_indented(Seq::<char>::empty(), one);
    assert(Seq::<char>::empty() + one =~= one);
    lemma_find_text(one, "+="@);
}

/// What a bump writes as the value of a variable.
pub open spec fn bumped_value(
    name: Seq<char>,
    version: Seq<char>,
    checksum: Seq<char>,
) -> Seq<char> {
    if name == "version"@ {
        version
    } else if name == "revision"@ {
        "1"@
    } else {
        checksum
    }
}

/// Whether some line of `ls` assigns the variable `name` in the form that a bump rewrites.
pub open spec fn sets(ls: Seq<Seq<char>>, name: Seq<char>) -> bool {
    exists|i: int| 0 <= i < ls.len() && starts_with(trim(#[trigger] ls[i]), name.push('='))
}

/// A rewritten line assigns what the line assigned.
proof fn lemma_same_head(
    line: Seq<char>,
    name: Seq<char>,
    version: Seq<char>,
    checksum: Seq<char>,
)
    requires
        is_bumped(name),
        starts_with(trim(rewrite_line(line, version, checksum)), name.push('=')),
    ensures
        starts_with(trim(line), name.push('=')),
{
    lemma_names();
    lemma_bumped_distinct();
    if is_rewritten(line) {
        let own = own_name(line);
        lemma_own_name(line);
        lemma_rewritten_line(line, own, version, checksum);
        lemma_bumped_name(own);
        lemma_indent_white(line);
        let head = own.push('=');
        assert(head[0] == own[0]);
        lemma_trim_head(indent_of(line), head, bumped_value(own, version, checksum));
        lemma_one_head(trim(rewrite_line(line, version, checksum)));
    }
}

/// The variable that a line of a bump assigns.
spec fn own_name(line: Seq<char>) -> Seq<char> {
    let t = trim(line);
    if starts_with(t, "version="@) {
        "version"@
    } else if starts_with(t, "revision="@) {
        "revision"@
    } else {
        "checksum"@
    }
}

/// A line of a bump starts with the assignment of its own variable, and with no other.
proof fn lemma_own_name(line: Seq<char>)
    requires
        is_rewritten(line),
    ensures
        is_bumped(own_name(line)),
        starts_with(trim(line), own_name(line).push('=')),
        forall|name: Seq<char>|
            is_bumped(name) && name != own_name(line) ==> !starts_with(
                trim(line),
                #[trigger] name.push('='),
            ),
{
    lemma_names();
    lemma_one_head(trim(line));
}

/// Whether a scan has read what a bump wrote for the variable `name`.
spec fn has_read(st: ScanModel, name: Seq<char>, version: Seq<char>, checksum: Seq<char>) -> bool {
    st.vars.contains_key(name) && st.vars[name] == unquoted(bumped_value(name, version, checksum))
}

/// Whether `after` is a scan that has read one line more than `st`, a rewritten one.
spec fn follows(
    st: ScanModel,
    after: ScanModel,
    line: Seq<char>,
    name: Seq<char>,
    version: Seq<char>,
    checksum: Seq<char>,
) -> bool {
    &&& after.open == (if opens_checksum(line) {
        None
    } else {
        open_after(st.open, line)
    })
    &&& after.open != Some("checksum"@)
    &&& if starts_with(trim(line), name.push('=')) {
        has_read(after, name, version, checksum)
    } else {
        has_read(st, name, version, checksum) ==> has_read(after, name, version, checksum)
    }
}

/// What one line of a tidy template does to a scan, when it is rewritten.
proof fn lemma_tidy_step(
    st: ScanModel,
    line: Seq<char>,
    name: Seq<char>,
    version: Seq<char>,
    checksum: Seq<char>,
)
    requires
        is_tidy_line(st.open, line),
        st.open != Some("checksum"@),
        is_bumped(name),
        is_value(version),
        is_value(checksum),
    ensures
        follows(
            st,
            template_step(st, rewrite_line(line, version, checksum)),
            line,
            name,
            version,
            checksum,
        ),
{
    reveal(is_tidy_line);
    lemma_names();
    lemma_bumped_distinct();
    if is_rewritten(line) {
        lemma_own_name(line);
        lemma_rewritten_step(st, line, own_name(line), version, checksum);
    } else {
        lemma_step(st, line);
    }
}

/// What a tidy line says of the checksums.
proof fn lemma_tidy_line(open: Option<Seq<char>>, line: Seq<char>)
    requires
        is_tidy_line(open, line),
    ensures
        opens_checksum(line) ==> open_after(open, line) == Some("checksum"@),
        open == Some("checksum"@) ==> !is_rewritten(line),
{
    reveal(is_tidy_line);
}

/// The value that is open after one line more.
proof fn lemma_open_step(ls: Seq<Seq<char>>, m: int)
    requires
        0 <= m < ls.len(),
    ensures
        open_at(ls.take(m + 1)) == open_after(open_at(ls.take(m)), ls[m]),
{
    assert(ls.take(m + 1).drop_last() =~= ls.take(m));
    assert(ls.take(m + 1).last() == ls[m]);
}

/// Checksums that are open stay so as long as no line holds a double quote.
proof fn lemma_still_open(ls: Seq<Seq<char>>, i: int, m: int)
    requires
        0 <= i < m <= ls.len(),
        open_at(ls.take(i + 1)) == Some("checksum"@),
        forall|j: int| i < j < m ==> !(#[trigger] ls[j]).contains('"'),
    ensures
        open_at(ls.take(m)) == Some("checksum"@),
    decreases m,
{
    if m > i + 1 {
        lemma_still_open(ls, i, m - 1);
        lemma_open_step(ls, m - 1);
    }
}

/// Checksums that a tidy template opens are closed, where a rewrite takes them to be, and no
/// assignment of a bump stands on the lines between.
proof fn lemma_tidy_checksums(ls: Seq<Seq<char>>, i: int)
    requires
        is_tidy(ls),
        0 <= i < ls.len(),
        opens_checksum(ls[i]),
    ensures
        closing_line(ls.skip(i + 1)) is Some,
        0 <= closing_line(ls.skip(i + 1))->0 < ls.len() - i - 1,
        open_at(ls.take(i + 2 + closing_line(ls.skip(i + 1))->0)) is None,
        forall|j: int|
            i < j < i + 2 + closing_line(ls.skip(i + 1))->0 ==> !is_rewritten(#[trigger] ls[j]),
{
    let rest = ls.skip(i + 1);
    lemma_tidy_line(open_at(ls.take(i)), ls[i]);
    lemma_open_step(ls, i);
    lemma_closing_line(rest);
    match closing_line(rest) {
        Some(k) => {
            assert forall|j: int| i < j < i + 1 + k implies !(#[trigger] ls[j]).contains('"') by {
                assert(rest[j - i - 1] == ls[j]);
            }
            let m = i + 1 + k;
            assert(ls[m] == rest[k]);
            lemma_still_open(ls, i, m);
            lemma_open_step(ls, m);
            assert forall|j: int| i < j < m + 1 implies !is_rewritten(#[trigger] ls[j]) by {
                lemma_still_open(ls, i, j);
                lemma_tidy_line(open_at(ls.take(j)), ls[j]);
            }
        },
        None => {
            assert forall|j: int| i < j < ls.len() implies !(#[trigger] ls[j]).contains('"') by {
                assert(rest[j - i - 1] == ls[j]);
            }
            lemma_still_open(ls, i, ls.len() as int);
            assert(ls.take(ls.len() as int) =~= ls);
        },
    }
}

/// Whether lines set a variable, by their front and their last line.
proof fn lemma_sets_last(ls: Seq<Seq<char>>, name: Seq<char>)
    requires
        ls.len() > 0,
    ensures
        sets(ls, name) ==> sets(ls.drop_last(), name) || starts_with(
            trim(ls.last()),
            name.push('='),
        ),
{
    if sets(ls, name) && !starts_with(trim(ls.last()), name.push('=')) {
        let i = choose|i: int|
            0 <= i < ls.len() && starts_with(trim(#[trigger] ls[i]), name.push('='));
        assert(ls.drop_last()[i] == ls[i]);
    }
}

/// Lines that set no variable of a bump, behind others.
proof fn lemma_sets_more(ls: Seq<Seq<char>>, i: int, m: int, name: Seq<char>)
    requires
        0 <= i <= m <= ls.len(),
        is_bumped(name),
        forall|j: int| i <= j < m ==> !is_rewritten(#[trigger] ls[j]),
    ensures
        sets(ls.take(m), name) ==> sets(ls.take(i), name),
{
    lemma_names();
    if sets(ls.take(m), name) {
        let k = choose|k: int|
            0 <= k < m && starts_with(trim(#[trigger] ls.take(m)[k]), name.push('='));
        assert(ls.take(m)[k] == ls[k]);
        if k >= i {
            assert(!is_rewritten(ls[k]));
        }
        assert(ls.take(i)[k] == ls[k]);
    }
}

/// Whether the scan `st`, of rewritten lines, stands where the first `i` of the lines `ls` end.
#[verifier::opaque]
spec fn stands_at(
    ls: Seq<Seq<char>>,
    i: int,
    st: ScanModel,
    name: Seq<char>,
    version: Seq<char>,
    checksum: Seq<char>,
) -> bool {
    &&& 0 <= i <= ls.len()
    &&& st.open == open_at(ls.take(i))
    &&& st.open != Some("checksum"@)
    &&& sets(ls.take(i), name) ==> has_read(st, name, version, checksum)
}

/// A scan goes on past a rewritten line, and past the lines that a rewrite leaves out behind it.
proof fn lemma_stands_next(
    ls: Seq<Seq<char>>,
    i: int,
    st: ScanModel,
    after: ScanModel,
    name: Seq<char>,
    version: Seq<char>,
    checksum: Seq<char>,
)
    requires
        is_tidy(ls),
        i < ls.len(),
        is_bumped(name),
        stands_at(ls, i, st, name, version, checksum),
        follows(st, after, ls[i], name, version, checksum),
    ensures
        checksum_lines(ls.skip(i)) >= 0,
        i + 1 + checksum_lines(ls.skip(i)) <= ls.len(),
        stands_at(
            ls,
            i + 1 + checksum_lines(ls.skip(i)),
            after,
            name,
            version,
            checksum,
        ),
{
    reveal(stands_at);
    let next = i + 1 + checksum_lines(ls.skip(i));
    assert(ls.skip(i)[0] == ls[i]);
    assert(ls.skip(i).drop_first() =~= ls.skip(i + 1));
    lemma_open_step(ls, i);
    assert(ls.take(i + 1).drop_last() =~= ls.take(i));
    assert(ls.take(i + 1).last() == ls[i]);
    lemma_sets_last(ls.take(i + 1), name);
    if opens_checksum(ls[i]) {
        lemma_tidy_checksums(ls, i);
        lemma_sets_more(ls, i + 1, next, name);
    }
}

/// A line behind others, read.
proof fn lemma_scan_push(out: Seq<Seq<char>>, line: Seq<char>)
    ensures
        template_scan(out.push(line)) == template_step(template_scan(out), line),
{
    assert(out.push(line).drop_last() =~= out);
}

/// A scan of rewritten lines goes on past the next line.
proof fn lemma_stands_on(
    ls: Seq<Seq<char>>,
    i: int,
    out: Seq<Seq<char>>,
    name: Seq<char>,
    version: Seq<char>,
    checksum: Seq<char>,
)
    requires
        is_tidy(ls),
        0 <= i < ls.len(),
        is_bumped(name),
        is_value(version),
        is_value(checksum),
        stands_at(ls, i, template_scan(out), name, version, checksum),
    ensures
        checksum_lines(ls.skip(i)) >= 0,
        i + 1 + checksum_lines(ls.skip(i)) <= ls.len(),
        stands_at(
            ls,
            i + 1 + checksum_lines(ls.skip(i)),
            template_scan(out.push(rewrite_line(ls[i], version, checksum))),
            name,
            version,
            checksum,
        ),
{
    let new = rewrite_line(ls[i], version, checksum);
    let st = template_scan(out);
    assert(is_tidy_line(open_at(ls.take(i)), ls[i]));
    assert(st.open == open_at(ls.take(i)) && st.open != Some("checksum"@)) by {
        reveal(stands_at);
    }
    lemma_tidy_step(st, ls[i], name, version, checksum);
    lemma_scan_push(out, new);
    lemma_stands_next(ls, i, st, template_scan(out.push(new)), name, version, checksum);
}

/// The scan of a rewritten template from the line at `i` on, with `out` before it: a variable of the
/// bump that was set has its new value.
proof fn lemma_tidy_scan(
    ls: Seq<Seq<char>>,
    i: int,
    out: Seq<Seq<char>>,
    name: Seq<char>,
    version: Seq<char>,
    checksum: Seq<char>,
)
    requires
        is_tidy(ls),
        0 <= i <= ls.len(),
        is_bumped(name),
        is_value(version),
        is_value(checksum),
        stands_at(ls, i, template_scan(out), name, version, checksum),
    ensures
        sets(ls, name) ==> has_read(
            template_scan(out + rewrite_lines(ls.skip(i), version, checksum)),
            name,
            version,
            checksum,
        ),
    decreases ls.len() - i,
{
    if i < ls.len() {
        let next = i + 1 + checksum_lines(ls.skip(i));
        let longer = out.push(rewrite_line(ls[i], version, checksum));
        lemma_stands_on(ls, i, out, name, version, checksum);
        lemma_tidy_scan(ls, next, longer, name, version, checksum);
        lemma_rewrite_front(ls, i, out, version, checksum);
    } else {
        reveal(stands_at);
        assert(out + rewrite_lines(ls.skip(i), version, checksum) =~= out);
        assert(ls.take(i) =~= ls);
    }
}

/// The three variables of a bump are different.
proof fn lemma_bumped_distinct()
    ensures
        "version"@ != "revision"@,
        "version"@ != "checksum"@,
        "revision"@ != "checksum"@,
{
    reveal_strlit("version");
    reveal_strlit("revision");
    reveal_strlit("checksum");
    assert("version"@[0] != "revision"@[0]);
    assert("version"@[0] != "checksum"@[0]);
    assert("revision"@[0] != "checksum"@[0]);
}

/// What is known of the variable `name` after the first `k` lines of `ls`.
pub open spec fn value_after(ls: Seq<Seq<char>>, k: int, name: Seq<char>) -> Option<Seq<char>> {
    let vars = template_scan(ls.take(k)).vars;
    if vars.contains_key(name) {
        Some(vars[name])
    } else {
        None
    }
}

/// Whether the line at `i` of a template decides the variable `name`: it assigns the variable, it
/// is read outside of quoted values, and what it says holds to the end.
pub open spec fn decides(content: Seq<char>, name: Seq<char>, i: int) -> bool {
    let ls = lines(content);
    &&& 0 <= i < ls.len()
    &&& starts_with(trim(ls[i]), name.push('='))
    &&& template_scan(ls.take(i)).open is None
    &&& value_after(ls, ls.len() as int, name) == value_after(ls, i + 1, name)
}

/// The line of a template that a line of the bumped template comes from, where that assigns a
/// variable of the bump.
proof fn lemma_line_before(
    content: Seq<char>,
    version: Seq<char>,
    checksum: Seq<char>,
    name: Seq<char>,
    i: int,
) -> (line: Seq<char>)
    requires
        !version.contains('\n'),
        !checksum.contains('\n'),
        0 <= i < lines(rewritten(content, version, checksum)).len(),
        starts_with(trim(lines(rewritten(content, version, checksum))[i]), name.push('=')),
        is_bumped(name),
    ensures
        starts_with(trim(line), name.push('=')),
        ({
            let new = rewrite_line(line, version, checksum);
            let out = lines(rewritten(content, version, checksum))[i];
            out == new || out == without_cr(new)
        }),
{
    let ls = lines(content);
    let new = rewrite_lines(ls, version, checksum);
    law_rewrite_keeps_lines(content, version, checksum);
    let k = lemma_rewrite_lines(ls, version, checksum, i);
    if new[i].len() > 0 && new[i].last() == '\r' {
        assert(new[i] =~= new[i].drop_last().push('\r'));
        lemma_trim_push_white(new[i].drop_last(), '\r');
    }
    assert(trim(without_cr(new[i])) == trim(new[i]));
    lemma_same_head(ls[k], name, version, checksum);
    ls[k]
}

/// What a line of a bumped template that assigns a variable does to a scan.
proof fn lemma_bumped_step(
    st: ScanModel,
    line: Seq<char>,
    out: Seq<char>,
    name: Seq<char>,
    version: Seq<char>,
    checksum: Seq<char>,
)
    requires
        st.open is None,
        is_bumped(name),
        starts_with(trim(line), name.push('=')),
        is_value(bumped_value(name, version, checksum)),
        out == rewrite_line(line, version, checksum) || out == without_cr(
            rewrite_line(line, version, checksum),
        ),
    ensures
        template_step(st, out).vars == st.vars.insert(
            name,
            unquoted(bumped_value(name, version, checksum)),
        ),
{
    lemma_rewritten_step(st, line, name, version, checksum);
    lemma_step_without_cr(st, rewrite_line(line, version, checksum));
}

/// The value of a variable of a bump after a line of the bumped template that assigns it.
proof fn lemma_assigned(
    content: Seq<char>,
    version: Seq<char>,
    checksum: Seq<char>,
    name: Seq<char>,
    i: int,
)
    requires
        !version.contains('\n'),
        !checksum.contains('\n'),
        decides(rewritten(content, version, checksum), name, i),
        is_bumped(name),
        is_value(bumped_value(name, version, checksum)),
    ensures
        value_after(lines(rewritten(content, version, checksum)), i + 1, name) == Some(
            unquoted(bumped_value(name, version, checksum)),
        ),
{
    let out = lines(rewritten(content, version, checksum));
    let line = lemma_line_before(content, version, checksum, name, i);
    lemma_bumped_step(template_scan(out.take(i)), line, out[i], name, version, checksum);
    lemma_scan_push(out.take(i), out[i]);
    assert(out.take(i + 1) =~= out.take(i).push(out[i]));
}

/// A bumped template reads back as what it was bumped to: its package has the new version, where
/// its line at `i` decides that, and the revision 1, where its line at `j` decides it.
pub proof fn law_bump_reads_back(
    content: Seq<char>,
    version: Seq<char>,
    checksum: Seq<char>,
    i: int,
    j: int,
)
    requires
        !checksum.contains('\n'),
        is_plain(version),
    ensures
        decides(rewritten(content, version, checksum), "version"@, i) ==> template_package(
            rewritten(content, version, checksum),
        ).version == version,
        decides(rewritten(content, version, checksum), "revision"@, j) ==> template_package(
            rewritten(content, version, checksum),
        ).revision == 1,
{
    let out = lines(rewritten(content, version, checksum));
    assert(out.take(out.len() as int) =~= out);
    lemma_bumped_distinct();
    lemma_names();
    if decides(rewritten(content, version, checksum), "version"@, i) {
        lemma_assigned(content, version, checksum, "version"@, i);
    }
    if decides(rewritten(content, version, checksum), "revision"@, j) {
        lemma_assigned(content, version, checksum, "revision"@, j);
        lemma_one();
    }
}

/// The digit 1 reads as 1.
proof fn lemma_one()
    ensures
        digits_value("1"@) == 1,
        unquoted("1"@) == "1"@,
{
    lemma_names();
    let one = "1"@;
    assert(one.drop_last() =~= Seq::<char>::empty());
    assert(digits_value(Seq::<char>::empty()) == 0);
}

/// A tidy template that is bumped reads back as what it was bumped to: each of the three variables
/// that it sets has its new value, the checksums also where the old ones ran over several lines.
pub proof fn law_tidy_bump_reads_back(content: Seq<char>, version: Seq<char>, checksum: Seq<char>)
    requires
        is_tidy(lines(content)),
        is_plain(version),
        is_value(checksum),
    ensures
        sets(lines(content), "version"@) ==> template_package(
            rewritten(content, version, checksum),
        ).version == version,
        sets(lines(content), "revision"@) ==> template_package(
            rewritten(content, version, checksum),
        ).revision == 1,
        sets(lines(content), "checksum"@) ==> text_at(
            template_scan(lines(rewritten(content, version, checksum))).vars,
            "checksum"@,
        ) == unquoted(checksum),
{
    let ls = lines(content);
    let new = rewrite_lines(ls, version, checksum);
    let empty = Seq::<Seq<char>>::empty();
    lemma_names();
    lemma_bumped_distinct();
    lemma_one();
    law_rewrite_keeps_lines(content, version, checksum);
    lemma_scan_reread(new, is_ended(content), new.len() as int);
    assert(new.take(new.len() as int) =~= new);
    let out = reread(new, is_ended(content));
    assert(out.take(new.len() as int) =~= out);
    assert(ls.take(0) =~= empty);
    assert(ls.skip(0) =~= ls);
    assert(empty + new =~= new);
    reveal(stands_at);
    lemma_tidy_scan(ls, 0, empty, "version"@, version, checksum);
    lemma_tidy_scan(ls, 0, empty, "revision"@, version, checksum);
    lemma_tidy_scan(ls, 0, empty, "checksum"@, version, checksum);
}

/// After a bump to the latest upstream version the package is no longer behind upstream, whatever
/// is built and installed, where the template is tidy and sets the version, or a line at `i` of the
/// bumped template decides it.
pub proof fn law_bump_settles_upstream(
    content: Seq<char>,
    version: Seq<char>,
    checksum: Seq<char>,
    i: int,
    installed: Option<Seq<char>>,
    built: Option<Seq<char>>,
)
    requires
        is_value(checksum),
        is_plain(version),
        decides(rewritten(content, version, checksum), "version"@, i) || (is_tidy(lines(content))
            && sets(lines(content), "version"@)),
    ensures
        status_of(
            template_package(rewritten(content, version, checksum)),
            installed,
            built,
            Some(version),
        ) != Status::UpstreamAhead,
{
    if is_tidy(lines(content)) {
        law_tidy_bump_reads_back(content, version, checksum);
    }
    law_bump_reads_back(content, version, checksum, i, 0);
    law_newer_irreflexive(version);
}

/// What lines say does not change when they are read back.
proof fn lemma_scan_reread(ls: Seq<Seq<char>>, ended: bool, k: int)
    requires
        0 <= k <= ls.len(),
    ensures
        template_scan(reread(ls, ended).take(k)) == template_scan(ls.take(k)),
    decreases k,
{
    if k > 0 {
        lemma_scan_reread(ls, ended, k - 1);
        let out = reread(ls, ended);
        assert(out.take(k).drop_last() =~= out.take(k - 1));
        assert(ls.take(k).drop_last() =~= ls.take(k - 1));
        lemma_step_without_cr(template_scan(ls.take(k - 1)), ls[k - 1]);
    } else {
        assert(reread(ls, ended).take(k) =~= ls.take(k));
    }
}

/// A carriage return at the end of a line says nothing.
proof fn lemma_step_without_cr(st: ScanModel, line: Seq<char>)
    ensures
        template_step(st, without_cr(line)) == template_step(st, line),
{
    if line.len() > 0 && line.last() == '\r' {
        let front = line.drop_last();
        assert(line =~= front.push('\r'));
        lemma_trim_push_white(front, '\r');
        lemma_find_char(line, '"');
        lemma_find_char(front, '"');
        match find_char(line, '"') {
            Some(q) => {
                assert(front[q] == '"');
                lemma_find_char_is(front, '"', q);
                assert(front.take(q) =~= line.take(q));
            },
            None => {
                if front.contains('"') {
                    let q = choose|q: int| 0 <= q < front.len() && front[q] == '"';
                    assert(line[q] == '"');
                }
            },
        }
    }
}

/// White space behind a text is trimmed.
pub proof fn lemma_trim_push_white(s: Seq<char>, w: char)
    requires
        is_white(w),
    ensures
        trim(s.push(w)) == trim(s),
    decreases s.len(),
{
    let t = s.push(w);
    if s.len() == 0 {
        assert(t.drop_first() =~= s);
    } else if is_white(s[0]) {
        assert(t.drop_first() =~= s.drop_first().push(w));
        lemma_trim_push_white(s.drop_first(), w);
    } else {
        assert(t.drop_last() =~= s);
    }
}

// ---------------------------------------------------------------------------------------------
// Checksums and sources
// ---------------------------------------------------------------------------------------------

/// What a digest is written as is a checksum.
pub proof fn law_digest_is_checksum(digest: Seq<u8>)
    requires
        digest.len() > 0,
    ensures
        is_checksum(hex(digest)),
{
    lemma_hex_letters(digest);
}

/// The letters of checksums with blanks between them.
proof fn lemma_join_letters(sums: Seq<Seq<char>>)
    requires
        sums.len() > 0,
        forall|i: int| 0 <= i < sums.len() ==> is_checksum(#[trigger] sums[i]),
    ensures
        join(sums, " "@).len() > 0,
        is_hex(join(sums, " "@)[0]),
        is_hex(join(sums, " "@).last()),
        forall|i: int|
            0 <= i < join(sums, " "@).len() ==> is_hex(#[trigger] join(sums, " "@)[i]) || join(
                sums,
                " "@,
            )[i] == ' ',
    decreases sums.len(),
{
    reveal_strlit(" ");
    let end = sums[sums.len() - 1];
    assert(is_checksum(end));
    if sums.len() > 1 {
        let front = sums.drop_last();
        assert forall|i: int| 0 <= i < front.len() implies is_checksum(#[trigger] front[i]) by {
            assert(front[i] == sums[i]);
        }
        lemma_join_letters(front);
        let head = join(front, " "@);
        let all = join(sums, " "@);
        assert(all == head + " "@ + end);
        assert(all[0] == head[0]);
        assert(all.last() == end[end.len() - 1]);
        assert forall|i: int| 0 <= i < all.len() implies is_hex(#[trigger] all[i]) || all[i]
            == ' ' by {
            if i < head.len() {
                assert(all[i] == head[i]);
            } else if i > head.len() {
                assert(all[i] == end[i - head.len() - 1]);
            }
        }
    } else {
        assert(join(sums, " "@) == end);
    }
}

/// The words of checksums with blanks between them.
proof fn lemma_join_words(sums: Seq<Seq<char>>)
    requires
        forall|i: int| 0 <= i < sums.len() ==> is_checksum(#[trigger] sums[i]),
    ensures
        words(join(sums, " "@)) == sums,
{
    assert forall|i: int| 0 <= i < sums.len() implies is_word(#[trigger] sums[i]) by {
        assert(is_checksum(sums[i]));
    }
    law_words_read_back(sums);
}

/// A text of hexadecimal digits, blanks and double quotes that has no white space at its ends, and
/// does not open a value, is read as a value.
proof fn lemma_checksum_letters(v: Seq<char>)
    requires
        v.len() > 0,
        v[0] != ' ',
        v.last() != ' ',
        !opens_value(v),
        forall|i: int|
            0 <= i < v.len() ==> is_hex(#[trigger] v[i]) || v[i] == ' ' || v[i] == '"',
    ensures
        is_value(v),
{
    reveal_strlit("+=");
    reveal_strlit("() {");
    assert(is_hex(v[0]) || v[0] == '"');
    assert(is_hex(v[v.len() - 1]) || v[v.len() - 1] == '"');
    if v.contains('\n') {
        let i = choose|i: int| 0 <= i < v.len() && v[i] == '\n';
        assert(false);
    }
    lemma_find_text(v, "+="@);
    if let Some(i) = find_text(v, "+="@) {
        assert(v.subrange(i, i + 2)[0] == v[i]);
        assert(false);
    }
    if ends_with(v, "() {"@) {
        let k = v.len() - 4;
        assert(v.skip(k)[0] == v[k]);
        assert(false);
    }
    lemma_trim_indented(Seq::<char>::empty(), v);
    assert(Seq::<char>::empty() + v =~= v);
}

/// Checksums are read as they are written, one or several: the value that stands in the template
/// has them as its words.
pub proof fn law_checksums_read_back(sums: Seq<Seq<char>>)
    requires
        sums.len() > 0,
        forall|i: int| 0 <= i < sums.len() ==> is_checksum(#[trigger] sums[i]),
    ensures
        is_value(checksum_value(sums)),
        words(unquoted(checksum_value(sums))) == sums,
{
    reveal_strlit("\"");
    let all = join(sums, " "@);
    let v = checksum_value(sums);
    lemma_join_letters(sums);
    lemma_join_words(sums);
    assert(is_hex(all[0]) && is_hex(all.last()));
    if sums.len() > 1 {
        assert(v =~= seq!['"'] + all + seq!['"']);
        assert forall|i: int| 0 <= i < v.len() implies is_hex(#[trigger] v[i]) || v[i] == ' '
            || v[i] == '"' by {
            if 0 < i < v.len() - 1 {
                assert(v[i] == all[i - 1]);
            }
        }
        assert(v.drop_first()[v.len() - 2] == '"');
        assert(v.drop_first().contains('"'));
        lemma_checksum_letters(v);
        assert(v.subrange(1, v.len() - 1) =~= all);
    } else {
        lemma_checksum_letters(v);
    }
}

/// A tidy template that is bumped to checksums reads back as what it was bumped to: the version, the
/// revision 1, and each of the checksums.
pub proof fn law_bump_of_sources_reads_back(
    content: Seq<char>,
    version: Seq<char>,
    sums: Seq<Seq<char>>,
)
    requires
        is_tidy(lines(content)),
        is_plain(version),
        sums.len() > 0,
        forall|i: int| 0 <= i < sums.len() ==> is_checksum(#[trigger] sums[i]),
    ensures
        ({
            let new = rewritten(content, version, checksum_value(sums));
            &&& sets(lines(content), "version"@) ==> template_package(new).version == version
            &&& sets(lines(content), "revision"@) ==> template_package(new).revision == 1
            &&& sets(lines(content), "checksum"@) ==> words(
                text_at(template_scan(lines(new)).vars, "checksum"@),
            ) == sums
        }),
{
    law_checksums_read_back(sums);
    law_tidy_bump_reads_back(content, version, checksum_value(sums));
}

/// White space behind a text is trimmed.
proof fn lemma_trim_behind(s: Seq<char>, w: Seq<char>)
    requires
        trim_start(w).len() == 0,
    ensures
        trim(s + w) == trim(s),
        forall|i: int| 0 <= i < w.len() ==> is_white(#[trigger] w[i]),
    decreases w.len(),
{
    if w.len() > 0 {
        let less = w.drop_first();
        lemma_trim_behind(s.push(w[0]), less);
        assert(s.push(w[0]) + less =~= s + w);
        lemma_trim_push_white(s, w[0]);
        assert forall|i: int| 0 <= i < w.len() implies is_white(#[trigger] w[i]) by {
            if i > 0 {
                assert(less[i - 1] == w[i]);
            }
        }
    } else {
        assert(s + w =~= s);
    }
}

/// White space alone is trimmed to nothing.
proof fn lemma_trim_white(w: Seq<char>)
    requires
        forall|i: int| 0 <= i < w.len() ==> is_white(#[trigger] w[i]),
    ensures
        trim(w).len() == 0,
        trim_start(w).len() == 0,
    decreases w.len(),
{
    if w.len() > 0 {
        let less = w.drop_first();
        assert forall|i: int| 0 <= i < less.len() implies is_white(#[trigger] less[i]) by {
            assert(less[i] == w[i + 1]);
        }
        assert(is_white(w[0]));
        lemma_trim_white(less);
    }
}

/// The last `>` of a word with white space around it.
proof fn lemma_rename_inside(ind: Seq<char>, w: Seq<char>, tail: Seq<char>)
    requires
        forall|i: int| 0 <= i < ind.len() ==> is_white(#[trigger] ind[i]),
        forall|i: int| 0 <= i < tail.len() ==> is_white(#[trigger] tail[i]),
    ensures
        rfind_char(ind + w + tail, '>') == (match rfind_char(w, '>') {
            Some(i) => Some(ind.len() + i),
            None => None,
        }),
{
    let text = ind + w + tail;
    let k = ind.len() as int;
    lemma_rfind_char(text, '>');
    lemma_rfind_char(w, '>');
    if let Some(m) = rfind_char(text, '>') {
        if m < k {
            assert(is_white(ind[m]));
        } else if m >= k + w.len() {
            assert(is_white(tail[m - k - w.len()]));
        } else {
            assert(w[m - k] == text[m]);
        }
    }
    if let Some(i) = rfind_char(w, '>') {
        assert(text[k + i] == w[i]);
    }
}

/// A word with white space around it, without a file name behind `>`.
#[verifier::spinoff_prover]
proof fn lemma_word_address(ind: Seq<char>, w: Seq<char>, tail: Seq<char>)
    requires
        forall|i: int| 0 <= i < ind.len() ==> is_white(#[trigger] ind[i]),
        trim_start(tail).len() == 0,
        w.len() > 0,
        forall|i: int| 0 <= i < w.len() ==> !is_white(#[trigger] w[i]),
    ensures
        trim(without_rename(ind + w + tail)) == without_rename(w),
{
    let text = ind + w + tail;
    lemma_trim_behind(ind + w, tail);
    lemma_rename_inside(ind, w, tail);
    lemma_rfind_char(w, '>');
    match rfind_char(w, '>') {
        Some(i) => {
            let url = w.take(i);
            assert(text.take(ind.len() + i) =~= ind + url);
            if i > 0 {
                assert(url[0] == w[0] && url.last() == w[i - 1]);
                lemma_trim_indented(ind, url);
            } else {
                assert(ind + url =~= ind);
                lemma_trim_white(ind);
                assert(trim(ind) =~= url);
            }
        },
        None => {
            assert(w.last() == w[w.len() - 1]);
            lemma_trim_indented(ind, w);
        },
    }
}

/// The addresses in one word.
proof fn lemma_one_word(w: Seq<char>)
    ensures
        source_urls(seq![w]) == (if without_rename(w).len() == 0 {
            seq![]
        } else {
            seq![without_rename(w)]
        }),
{
    let ws = seq![w];
    let none = Seq::<Seq<char>>::empty();
    assert(ws.drop_last() =~= none);
    assert(source_urls(none) =~= none);
    assert(none.push(without_rename(w)) =~= seq![without_rename(w)]);
}

/// Of a template with one distfile the one source is what its distfiles stand for, without a file
/// name behind `>` and white space at its ends.
pub proof fn law_one_source(text: Seq<char>)
    requires
        words(text).len() == 1,
    ensures
        source_urls(words(text)) == (if trim(without_rename(text)).len() == 0 {
            seq![]
        } else {
            seq![trim(without_rename(text))]
        }),
{
    let t = trim_start(text);
    let ind = indent_of(text);
    let w = t.take(word_len(t));
    let tail = t.skip(word_len(t));
    lemma_trim_start_len(text);
    lemma_word_len(t);
    lemma_indent_white(text);
    assert(words(text) == seq![w] + words(tail));
    assert(words(tail).len() == 0);
    assert(words(text) =~= seq![w]);
    assert(trim_start(tail).len() == 0);
    assert(text =~= ind + w + tail);
    lemma_word_address(ind, w, tail);
    lemma_one_word(w);
}

/// A source is kept under the last part of its address, without what follows a `?`.
#[verifier::spinoff_prover]
pub proof fn law_source_is_named_by_address(a: Seq<char>, name: Seq<char>, query: Seq<char>)
    requires
        !name.contains('/'),
        !name.contains('?'),
        !query.contains('/'),
    ensures
        file_name(name) == name,
        file_name(a + "/"@ + name) == name,
        file_name(a + "/"@ + name + "?"@ + query) == name,
{
    reveal_strlit("/");
    reveal_strlit("?");
    let none = Seq::<char>::empty();
    lemma_rfind_char(name, '/');
    lemma_find_char(name, '?');
    if let Some(i) = rfind_char(name, '/') {
        assert(name.contains(name[i]));
    }
    if let Some(i) = find_char(name, '?') {
        assert(name.contains(name[i]));
    }
    lemma_last_part(a, name);
    let tail = name + "?"@ + query;
    if tail.contains('/') {
        let i = choose|i: int| 0 <= i < tail.len() && tail[i] == '/';
        if i < name.len() {
            assert(name.contains(name[i]));
        } else if i > name.len() {
            assert(query.contains(query[i - name.len() - 1]));
        }
    }
    lemma_last_part(a, tail);
    assert(a + "/"@ + name + "?"@ + query =~= a + "/"@ + tail);
    assert(tail[name.len() as int] == '?');
    assert forall|j: int| 0 <= j < name.len() implies tail[j] != '?' by {
        assert(tail[j] == name[j]);
        assert(name.contains(name[j]));
    }
    lemma_find_char_is(tail, '?', name.len() as int);
    assert(tail.take(name.len() as int) =~= name);
}

/// What stands behind the last `/` of an address.
proof fn lemma_last_part(a: Seq<char>, tail: Seq<char>)
    requires
        !tail.contains('/'),
    ensures
        rfind_char(a + "/"@ + tail, '/') == Some(a.len() as int),
        (a + "/"@ + tail).skip(a.len() as int + 1) == tail,
{
    reveal_strlit("/");
    let s = a + "/"@ + tail;
    lemma_rfind_char(s, '/');
    assert(s[a.len() as int] == '/');
    let i = rfind_char(s, '/')->0;
    if i > a.len() {
        assert(tail.contains(tail[i - a.len() - 1]));
    }
    assert(s.skip(a.len() as int + 1) =~= tail);
}

/// Each word of the distfiles is a source of its own, in order, without the name behind the last `>`
/// under which it is kept.
pub proof fn law_each_word_is_a_source(ws: Seq<Seq<char>>, name: Seq<char>, url: Seq<char>)
    requires
        url.len() > 0,
        !name.contains('>'),
    ensures
        !url.contains('>') ==> source_urls(ws.push(url)) == source_urls(ws).push(url),
        source_urls(ws.push(url + ">"@ + name)) == source_urls(ws).push(url),
        source_urls(ws.push(">"@ + name)) == source_urls(ws),
        source_urls(Seq::<Seq<char>>::empty()).len() == 0,
{
    assert(ws.push(url).drop_last() =~= ws);
    lemma_rfind_char(url, '>');
    if let Some(i) = rfind_char(url, '>') {
        assert(url.contains(url[i]));
    }
    let long = url + ">"@ + name;
    assert(ws.push(long).drop_last() =~= ws);
    lemma_rename_taken_off(url, name);
    let none = Seq::<char>::empty();
    assert(none + ">"@ + name =~= ">"@ + name);
    lemma_rename_taken_off(none, name);
    assert(ws.push(">"@ + name).drop_last() =~= ws);
}

/// The name behind the last `>` is taken off.
pub proof fn lemma_rename_taken_off(url: Seq<char>, name: Seq<char>)
    requires
        !name.contains('>'),
    ensures
        without_rename(url + ">"@ + name) == url,
{
    reveal_strlit(">");
    let long = url + ">"@ + name;
    lemma_rfind_char(long, '>');
    assert(long[url.len() as int] == '>');
    let i = rfind_char(long, '>')->0;
    if i > url.len() {
        assert(name.contains(name[i - url.len() - 1]));
    }
    assert(long.take(url.len() as int) =~= url);
}

/// Every source has its own checksum, at its own place.
pub proof fn law_each_source_has_its_checksum(sources: Seq<Vec<u8>>, i: int)
    requires
        0 <= i < sources.len(),
    ensures
        checksums(sources).len() == sources.len(),
        checksums(sources)[i] == hex(sha256(sources[i]@)),
{
}

/// What is downloaded for a bump is what its checksums are of, in order.
pub proof fn law_contents_are_those_downloaded(sources: Seq<Option<Vec<u8>>>, i: int)
    requires
        all_there(sources),
        0 <= i < sources.len(),
    ensures
        contents(sources).len() == sources.len(),
        sources[i] == Some(contents(sources)[i]),
{
}

/// A byte is written as two digits, the high one first, each of them the one of its value; bytes are
/// written one after the other.
pub proof fn law_bytes_are_written_in_hex(bytes: Seq<u8>, byte: u8, d: int)
    requires
        0 <= d < 16,
    ensures
        hex_digit(d) == "0123456789abcdef"@[d],
        hex(bytes.push(byte)) == hex(bytes) + seq![
            "0123456789abcdef"@[byte as int / 16],
            "0123456789abcdef"@[byte as int % 16],
        ],
        hex(Seq::<u8>::empty()).len() == 0,
{
    reveal_strlit("0123456789abcdef");
    assert(bytes.push(byte).drop_last() =~= bytes);
    lemma_hex_digit(d);
    lemma_hex_digit(byte as int / 16);
    lemma_hex_digit(byte as int % 16);
    assert(hex(bytes.push(byte)) =~= hex(bytes) + seq![
        "0123456789abcdef"@[byte as int / 16],
        "0123456789abcdef"@[byte as int % 16],
    ]);
}

proof fn lemma_hex_digit(d: int)
    requires
        0 <= d < 16,
    ensures
        hex_digit(d) == "0123456789abcdef"@[d],
{
    reveal_strlit("0123456789abcdef");
}

} // verus!
