//! Templates: reading their variables, and rewriting them for a new version.

use sha2::{Digest, Sha256};
use vstd::prelude::*;
use vstd::slice::slice_subrange;

use crate::table::{lemma_text_values_insert, text_at, TextMap};
use crate::line::{reline, relined};
use crate::text::{
    alnum, begins, cat3, chars_of, find_char, has_char, index_of, is_alnum, join, joined,
    last_index_of, lemma_find_char, lemma_texts_push, lemma_trim_start_len, lines, lines_of,
    push_chars, push_text, replace, replaced, rfind_char, runs, same_text, starts_with, text_of,
    texts, trim, trim_char, trim_start, trimmed, trimmed_char, trimmed_start, words, words_of,
};

verus! {

broadcast use vstd::seq_lib::group_seq_properties;

// ---------------------------------------------------------------------------------------------
// Scanning assignments
// ---------------------------------------------------------------------------------------------

/// What a scan over the lines of a template has gathered: the variables, and, inside a quoted
/// value that runs over several lines, the variable's name and the value so far.
pub struct ScanModel {
    pub vars: Map<Seq<char>, Seq<char>>,
    pub open: Option<Seq<char>>,
    pub buf: Seq<char>,
}

/// The state of a scan over the lines of a template.
pub struct Scan {
    pub vars: TextMap<String>,
    pub open: Option<String>,
    pub buf: Vec<char>,
}

impl View for Scan {
    type V = ScanModel;

    open spec fn view(&self) -> ScanModel {
        ScanModel {
            vars: self.vars.text_map(),
            open: match self.open {
                Some(n) => Some(n@),
                None => None,
            },
            buf: self.buf@,
        }
    }
}

/// Before the first line: no variables, and no value open.
pub open spec fn scan_start() -> ScanModel {
    ScanModel { vars: Map::empty(), open: None, buf: seq![] }
}

/// `s` up to its first double quote.
pub open spec fn before_quote(s: Seq<char>) -> Seq<char> {
    match find_char(s, '"') {
        Some(i) => s.take(i),
        None => s,
    }
}

/// A line inside a quoted value: its text, trimmed, is added behind a space; at a double quote
/// the value ends, and is stored without white space at its ends.
pub open spec fn value_step(st: ScanModel, name: Seq<char>, line: Seq<char>) -> ScanModel {
    if line.contains('"') {
        let value = st.buf.push(' ') + trim(before_quote(line));
        ScanModel { vars: st.vars.insert(name, trim(value)), open: None, buf: seq![] }
    } else {
        ScanModel { vars: st.vars, open: st.open, buf: st.buf.push(' ') + trim(line) }
    }
}

/// Whether `s` can be the name of a variable: letters, digits and underscores only.
pub open spec fn is_name(s: Seq<char>) -> bool {
    forall|i: int| 0 <= i < s.len() ==> is_alnum(#[trigger] s[i]) || s[i] == '_'
}

/// Whether `s` opens a quoted value that it does not close.
pub open spec fn opens_value(s: Seq<char>) -> bool {
    s.len() > 0 && s[0] == '"' && !s.drop_first().contains('"')
}

/// One line of a template, read for its assignment: the value stays as written, without the
/// double quotes at its ends.
pub open spec fn raw_step(st: ScanModel, line: Seq<char>) -> ScanModel {
    match st.open {
        Some(name) => value_step(st, name, line),
        None => {
            let t = trim(line);
            match find_char(t, '=') {
                Some(i) => {
                    let name = trim(t.take(i));
                    let rest = trim(t.skip(i + 1));
                    if t[0] == '#' || !is_name(name) {
                        st
                    } else if opens_value(rest) {
                        ScanModel {
                            vars: st.vars,
                            open: Some(name),
                            buf: trim(rest.drop_first()),
                        }
                    } else {
                        ScanModel {
                            vars: st.vars.insert(name, trim_char(rest, '"')),
                            open: None,
                            buf: st.buf,
                        }
                    }
                },
                None => st,
            }
        },
    }
}

/// The state after the lines `ls`.
pub open spec fn raw_scan(ls: Seq<Seq<char>>) -> ScanModel
    decreases ls.len(),
{
    if ls.len() == 0 {
        scan_start()
    } else {
        raw_step(raw_scan(ls.drop_last()), ls.last())
    }
}

/// The variables that the template `content` assigns, with their values as written.
pub open spec fn raw_vars(content: Seq<char>) -> Map<Seq<char>, Seq<char>> {
    raw_scan(lines(content)).vars
}

/// Whether `s` can be the name of a variable.
pub fn name_like(s: &[char]) -> (r: bool)
    ensures
        r == is_name(s@),
{
    let mut i: usize = 0;
    while i < s.len()
        invariant
            i <= s@.len(),
            forall|j: int| 0 <= j < i ==> is_alnum(#[trigger] s@[j]) || s@[j] == '_',
        decreases s@.len() - i,
    {
        if !(alnum(s[i]) || s[i] == '_') {
            assert(!(is_alnum(s@[i as int]) || s@[i as int] == '_'));
            return false;
        }
        i += 1;
    }
    true
}

/// Whether `s` opens a quoted value that it does not close.
pub fn opens(s: &[char]) -> (r: bool)
    ensures
        r == opens_value(s@),
{
    if s.len() == 0 || s[0] != '"' {
        return false;
    }
    assert(s@.drop_first() =~= s@.subrange(1, s@.len() as int));
    !has_char(slice_subrange(s, 1, s.len()), '"')
}

impl Scan {
    /// A scan before its first line.
    pub fn start() -> (r: Scan)
        ensures
            r@ == scan_start(),
            r.vars.wf(),
    {
        let r = Scan { vars: TextMap::new(), open: None, buf: Vec::new() };
        assert(r.vars.text_map() =~= Map::<Seq<char>, Seq<char>>::empty());
        r
    }

    /// Stores `value` in the variable `name`.
    pub fn assign(&mut self, name: &[char], value: &[char])
        requires
            old(self).vars.wf(),
        ensures
            final(self)@ == (ScanModel { vars: old(self)@.vars.insert(name@, value@), ..old(self)@ }),
            final(self).vars.wf(),
            final(self).open == old(self).open,
    {
        let v = text_of(value);
        proof {
            lemma_text_values_insert(self.vars@, name@, v);
        }
        self.vars.insert(text_of(name), v);
    }

    /// Opens a quoted value of the variable `name` that starts with `value`.
    pub fn open_value(&mut self, name: &[char], value: Vec<char>)
        ensures
            final(self)@ == (ScanModel { open: Some(name@), buf: value@, ..old(self)@ }),
            final(self).vars == old(self).vars,
    {
        self.open = Some(text_of(name));
        self.buf = value;
    }

    /// Reads a line inside a quoted value.
    pub fn value_line(&mut self, line: &[char])
        requires
            old(self).open is Some,
            old(self).vars.wf(),
        ensures
            final(self)@ == value_step(old(self)@, old(self)@.open->0, line@),
            final(self).vars.wf(),
    {
        let ghost before = *self;
        self.buf.push(' ');
        match index_of(line, '"') {
            Some(i) => {
                proof {
                    lemma_find_char(line@, '"');
                    assert(line@[i as int] == '"');
                    assert(line@.take(i as int) =~= line@.subrange(0, i as int));
                }
                let front = trimmed(slice_subrange(line, 0, i));
                push_chars(&mut self.buf, front);
                let name: String = match &self.open {
                    Some(n) => n.clone(),
                    None => String::new(),
                };
                let value = text_of(trimmed(self.buf.as_slice()));
                proof {
                    lemma_text_values_insert(self.vars@, name@, value);
                }
                self.vars.insert(name, value);
                self.buf = Vec::new();
                self.open = None;
            },
            None => {
                proof {
                    lemma_find_char(line@, '"');
                }
                push_chars(&mut self.buf, trimmed(line));
            },
        }
    }

    /// Reads one line for its assignment.
    fn raw_line(&mut self, line: &[char])
        requires
            old(self).vars.wf(),
        ensures
            final(self)@ == raw_step(old(self)@, line@),
            final(self).vars.wf(),
    {
        if self.open.is_some() {
            self.value_line(line);
            return;
        }
        let t = trimmed(line);
        match index_of(t, '=') {
            Some(i) => {
                assert(t@.take(i as int) =~= t@.subrange(0, i as int));
                assert(t@.skip(i + 1) =~= t@.subrange(i + 1, t@.len() as int));
                let n: usize = t.len();
                let name = trimmed(slice_subrange(t, 0, i));
                let rest = trimmed(slice_subrange(t, i + 1, n));
                if t[0] == '#' || !name_like(name) {
                    return;
                }
                if opens(rest) {
                    assert(rest@.drop_first() =~= rest@.subrange(1, rest@.len() as int));
                    let first = trimmed(slice_subrange(rest, 1, rest.len()));
                    let mut value: Vec<char> = Vec::new();
                    push_chars(&mut value, first);
                    self.open_value(name, value);
                } else {
                    self.assign(name, trimmed_char(rest, '"'));
                }
            },
            None => {},
        }
    }
}

/// Parse shell-style variable assignments from a template, keeping values unexpanded.
pub fn parse_template_vars(content: &str) -> (r: TextMap<String>)
    ensures
        r.text_map() == raw_vars(content@),
        r.wf(),
{
    let text = chars_of(content);
    let all = lines_of(text.as_slice());
    let ghost ls = lines(content@);
    let mut scan = Scan::start();
    let mut i: usize = 0;
    assert(ls.take(0) =~= Seq::<Seq<char>>::empty());
    while i < all.len()
        invariant
            i <= all@.len(),
            runs(all@) == ls,
            scan@ == raw_scan(ls.take(i as int)),
            scan.vars.wf(),
        decreases all@.len() - i,
    {
        assert(runs(all@)[i as int] == all@[i as int]@);
        scan.raw_line(all[i]);
        i += 1;
        assert(ls.take(i as int).drop_last() =~= ls.take(i - 1));
    }
    assert(ls.take(ls.len() as int) =~= ls);
    scan.vars
}

// ---------------------------------------------------------------------------------------------
// Where the sources of a version are
// ---------------------------------------------------------------------------------------------

/// How many bytes the UTF-8 form of `c` has.
pub open spec fn char_bytes(c: char) -> nat {
    let n = c as u32;
    if n < 0x80 {
        1
    } else if n < 0x800 {
        2
    } else if n < 0x10000 {
        3
    } else {
        4
    }
}

/// How many bytes the UTF-8 form of `s` has.
pub open spec fn byte_len(s: Seq<char>) -> nat
    decreases s.len(),
{
    if s.len() == 0 {
        0
    } else {
        byte_len(s.drop_last()) + char_bytes(s.last())
    }
}

/// `s` with `x` behind the last text that is not shorter.
pub open spec fn insert_by_length(s: Seq<Seq<char>>, x: Seq<char>) -> Seq<Seq<char>>
    decreases s.len(),
{
    if s.len() > 0 && byte_len(s.last()) < byte_len(x) {
        insert_by_length(s.drop_last(), x).push(s.last())
    } else {
        s.push(x)
    }
}

/// The texts of `s`, longer ones first, those of one length in the order that they had.
pub open spec fn longest_first(s: Seq<Seq<char>>) -> Seq<Seq<char>>
    decreases s.len(),
{
    if s.len() == 0 {
        s
    } else {
        insert_by_length(longest_first(s.drop_last()), s.last())
    }
}

/// `url` with the value of the variable `key` in place of `${key}`, and then of `$key`.
pub open spec fn substitute(
    url: Seq<char>,
    key: Seq<char>,
    vars: Map<Seq<char>, Seq<char>>,
    version: Seq<char>,
) -> Seq<char> {
    if key == "version"@ {
        url
    } else {
        let value = replace(text_at(vars, key), "${version}"@, version);
        replace(replace(url, "${"@ + key + "}"@, value), "$"@ + key, value)
    }
}

/// `url` with the variables `keys` substituted, one after the other.
pub open spec fn substitute_all(
    url: Seq<char>,
    keys: Seq<Seq<char>>,
    vars: Map<Seq<char>, Seq<char>>,
    version: Seq<char>,
) -> Seq<char>
    decreases keys.len(),
{
    if keys.len() == 0 {
        url
    } else {
        substitute(
            substitute_all(url, keys.drop_last(), vars, version),
            keys.last(),
            vars,
            version,
        )
    }
}

/// `url` up to its last `>`, behind which the name of the file to store it under may stand.
pub open spec fn without_rename(url: Seq<char>) -> Seq<char> {
    match rfind_char(url, '>') {
        Some(i) => url.take(i),
        None => url,
    }
}

/// What `raw` stands for at `version`: `${version}` first, then the other variables, the longest
/// names first, so that no name is taken for another that it begins.
pub open spec fn expanded(
    raw: Seq<char>,
    keys: Seq<Seq<char>>,
    vars: Map<Seq<char>, Seq<char>>,
    version: Seq<char>,
) -> Seq<char> {
    let base = replace(raw, "${version}"@, version);
    substitute_all(base, longest_first(keys), vars, version)
}

/// The address that `raw` stands for at `version`, without a file name behind `>` and white space
/// at its ends.
pub open spec fn distfiles_url(
    raw: Seq<char>,
    keys: Seq<Seq<char>>,
    vars: Map<Seq<char>, Seq<char>>,
    version: Seq<char>,
) -> Seq<char> {
    trim(without_rename(expanded(raw, keys, vars, version)))
}

/// The addresses among the words `ws`, each without a file name behind `>`.
pub open spec fn source_urls(ws: Seq<Seq<char>>) -> Seq<Seq<char>>
    decreases ws.len(),
{
    if ws.len() == 0 {
        seq![]
    } else {
        let front = source_urls(ws.drop_last());
        let url = without_rename(ws.last());
        if url.len() == 0 {
            front
        } else {
            front.push(url)
        }
    }
}

/// What `longest_first` does to the texts of `s`: the same texts, no shorter one before a longer
/// one.
pub proof fn lemma_longest_first(s: Seq<Seq<char>>)
    ensures
        longest_first(s).len() == s.len(),
        longest_first(s).to_multiset() == s.to_multiset(),
        forall|i: int, j: int|
            0 <= i < j < s.len() ==> byte_len(#[trigger] longest_first(s)[i]) >= byte_len(
                #[trigger] longest_first(s)[j],
            ),
    decreases s.len(),
{
    broadcast use vstd::seq_lib::group_to_multiset_ensures;

    if s.len() > 0 {
        lemma_longest_first(s.drop_last());
        lemma_insert_by_length(longest_first(s.drop_last()), s.last());
        assert(s =~= s.drop_last().push(s.last()));
    }
}

proof fn lemma_insert_by_length(s: Seq<Seq<char>>, x: Seq<char>)
    requires
        forall|i: int, j: int|
            0 <= i < j < s.len() ==> byte_len(#[trigger] s[i]) >= byte_len(#[trigger] s[j]),
    ensures
        insert_by_length(s, x).len() == s.len() + 1,
        insert_by_length(s, x).to_multiset() == s.to_multiset().insert(x),
        forall|i: int, j: int|
            0 <= i < j < s.len() + 1 ==> byte_len(#[trigger] insert_by_length(s, x)[i])
                >= byte_len(#[trigger] insert_by_length(s, x)[j]),
    decreases s.len(),
{
    broadcast use vstd::seq_lib::group_to_multiset_ensures;

    if s.len() > 0 && byte_len(s.last()) < byte_len(x) {
        let front = s.drop_last();
        lemma_insert_by_length(front, x);
        let low = insert_by_length(front, x);
        assert(s =~= front.push(s.last()));
        assert forall|i: int| 0 <= i < low.len() implies byte_len(#[trigger] low[i]) >= byte_len(
            s.last(),
        ) by {
            assert(low.to_multiset().contains(low[i]));
            assert(front.to_multiset().insert(x).contains(low[i]));
            if low[i] != x {
                assert(front.to_multiset().contains(low[i]));
                let k = choose|k: int| 0 <= k < front.len() && front[k] == low[i];
                assert(byte_len(s[k]) >= byte_len(s[s.len() - 1]));
            }
        }
        assert(insert_by_length(s, x) == low.push(s.last()));
        assert(insert_by_length(s, x).to_multiset() =~= s.to_multiset().insert(x));
    }
}

/// A text has more bytes than a text that it starts with and goes beyond.
pub proof fn lemma_byte_len_prefix(a: Seq<char>, b: Seq<char>)
    requires
        starts_with(b, a),
        a.len() < b.len(),
    ensures
        byte_len(a) < byte_len(b),
    decreases b.len(),
{
    let c = b.drop_last();
    assert(c.take(a.len() as int) =~= b.take(a.len() as int));
    if a.len() < c.len() {
        lemma_byte_len_prefix(a, c);
    } else {
        assert(a =~= c);
    }
}

/// The variables are substituted so that a name which begins another comes after it: the shorter
/// name never takes a part of the longer one.
pub proof fn law_longer_names_first(keys: Seq<Seq<char>>, i: int, j: int)
    requires
        0 <= i < keys.len(),
        0 <= j < keys.len(),
        starts_with(longest_first(keys)[j], longest_first(keys)[i]),
        longest_first(keys)[i] != longest_first(keys)[j],
    ensures
        j < i,
{
    lemma_longest_first(keys);
    let a = longest_first(keys)[i];
    let b = longest_first(keys)[j];
    if a.len() == b.len() {
        assert(b.take(a.len() as int) =~= b);
    } else {
        lemma_byte_len_prefix(a, b);
    }
}

/// How many bytes the UTF-8 form of `s` has.
fn bytes_in(s: &str) -> (r: u128)
    ensures
        r == byte_len(s@),
{
    let c = chars_of(s);
    let mut n: u128 = 0;
    let mut i: usize = 0;
    while i < c.len()
        invariant
            i <= c@.len(),
            n == byte_len(c@.take(i as int)),
            n <= 4 * i,
        decreases c@.len() - i,
    {
        let k: u32 = c[i] as u32;
        assert(c@.take(i + 1).drop_last() =~= c@.take(i as int));
        let w: u128 = if k < 0x80 {
            1
        } else if k < 0x800 {
            2
        } else if k < 0x10000 {
            3
        } else {
            4
        };
        n = n + w;
        i += 1;
    }
    assert(c@.take(c@.len() as int) =~= c@);
    n
}

/// The strings of `v`, longer ones first.
fn by_length(v: &Vec<String>) -> (r: Vec<String>)
    ensures
        texts(r@) == longest_first(texts(v@)),
{
    let mut out: Vec<String> = Vec::new();
    let mut i: usize = 0;
    let ghost all = texts(v@);
    assert(texts(out@) =~= longest_first(all.take(0)));
    while i < v.len()
        invariant
            i <= v@.len(),
            all == texts(v@),
            texts(out@) == longest_first(all.take(i as int)),
        decreases v@.len() - i,
    {
        let x: String = v[i].clone();
        let size: u128 = bytes_in(x.as_str());
        let mut k: usize = out.len();
        while k > 0 && bytes_in(out[k - 1].as_str()) < size
            invariant
                k <= out@.len(),
                size == byte_len(x@),
                forall|j: int|
                    k <= j < out@.len() ==> byte_len(#[trigger] texts(out@)[j]) < byte_len(x@),
            decreases k,
        {
            k -= 1;
        }
        let ghost before = texts(out@);
        proof {
            lemma_insert_by_length_at(before, x@, k as int);
        }
        out.insert(k, x);
        assert(texts(out@) =~= before.insert(k as int, x@));
        i += 1;
        assert(all.take(i as int).drop_last() =~= all.take(i - 1));
        assert(all.take(i as int).last() == x@);
    }
    assert(all.take(all.len() as int) =~= all);
    out
}

proof fn lemma_insert_by_length_at(s: Seq<Seq<char>>, x: Seq<char>, k: int)
    requires
        0 <= k <= s.len(),
        forall|j: int| k <= j < s.len() ==> byte_len(#[trigger] s[j]) < byte_len(x),
        k == 0 || byte_len(s[k - 1]) >= byte_len(x),
    ensures
        insert_by_length(s, x) == s.insert(k, x),
    decreases s.len(),
{
    if k < s.len() {
        assert(byte_len(s[s.len() - 1]) < byte_len(x));
        assert forall|j: int| k <= j < s.drop_last().len() implies byte_len(
            #[trigger] s.drop_last()[j],
        ) < byte_len(x) by {
            assert(s.drop_last()[j] == s[j]);
        }
        lemma_insert_by_length_at(s.drop_last(), x, k);
        assert(s.drop_last().insert(k, x).push(s.last()) =~= s.insert(k, x));
    } else {
        assert(s.insert(k, x) =~= s.push(x));
    }
}

/// The keys of a table.
fn keys_of(vars: &TextMap<String>) -> (r: Vec<String>)
    ensures
        texts(r@) == vars.keys(),
{
    let mut out: Vec<String> = Vec::new();
    let mut i: usize = 0;
    assert(texts(out@) =~= vars.keys().take(0));
    while i < vars.entries.len()
        invariant
            i <= vars.entries@.len(),
            texts(out@) == vars.keys().take(i as int),
        decreases vars.entries@.len() - i,
    {
        let k: String = vars.entries[i].0.clone();
        proof {
            lemma_texts_push(out@, k);
        }
        out.push(k);
        i += 1;
        assert(vars.keys().take(i as int) =~= vars.keys().take(i - 1).push(k@));
    }
    assert(vars.keys().take(i as int) =~= vars.keys());
    out
}

/// `url` with the value of the variable `key` substituted.
fn substituted(url: &[char], key: &str, vars: &TextMap<String>, version: &[char]) -> (r: Vec<char>)
    ensures
        r@ == substitute(url@, key@, vars.text_map(), version@),
{
    if same_text(key, "version") {
        let mut out: Vec<char> = Vec::new();
        push_chars(&mut out, url);
        return out;
    }
    proof {
        reveal_strlit("${version}");
        reveal_strlit("${");
        reveal_strlit("}");
        reveal_strlit("$");
    }
    let raw = chars_of(vars.text_or_empty(key).as_str());
    let marker = chars_of("${version}");
    let value = replaced(raw.as_slice(), marker.as_slice(), version);
    let mut braced = chars_of("${");
    push_text(&mut braced, key);
    push_text(&mut braced, "}");
    let mut plain = chars_of("$");
    push_text(&mut plain, key);
    let first = replaced(url, braced.as_slice(), value.as_slice());
    replaced(first.as_slice(), plain.as_slice(), value.as_slice())
}

/// What `raw` stands for at a new version.
fn expand(raw: &str, vars: &TextMap<String>, new_version: &str) -> (r: Vec<char>)
    ensures
        r@ == expanded(raw@, vars.keys(), vars.text_map(), new_version@),
{
    let version = chars_of(new_version);
    let start = chars_of(raw);
    let marker = chars_of("${version}");
    proof {
        reveal_strlit("${version}");
    }
    let ghost base = replace(raw@, "${version}"@, new_version@);
    let mut url = replaced(start.as_slice(), marker.as_slice(), version.as_slice());
    let keys = by_length(&keys_of(vars));
    let ghost ks = texts(keys@);
    let mut i: usize = 0;
    assert(ks.take(0) =~= Seq::<Seq<char>>::empty());
    while i < keys.len()
        invariant
            i <= keys@.len(),
            ks == texts(keys@),
            version@ == new_version@,
            url@ == substitute_all(base, ks.take(i as int), vars.text_map(), new_version@),
        decreases keys@.len() - i,
    {
        url = substituted(url.as_slice(), keys[i].as_str(), vars, version.as_slice());
        i += 1;
        assert(ks.take(i as int).drop_last() =~= ks.take(i - 1));
        assert(ks.take(i as int).last() == keys@[i - 1]@);
    }
    assert(ks.take(i as int) =~= ks);
    url
}

/// `url` up to its last `>`.
fn drop_rename(url: &[char]) -> (r: &[char])
    ensures
        r@ == without_rename(url@),
{
    let end: usize = match last_index_of(url, '>') {
        Some(k) => k,
        None => url.len(),
    };
    assert(url@.subrange(0, end as int) =~= without_rename(url@));
    slice_subrange(url, 0, end)
}

/// Resolve distfiles URL by substituting template variables with the new version.
pub fn resolve_distfiles_url(raw: &str, vars: &TextMap<String>, new_version: &str) -> (r: String)
    ensures
        r@ == distfiles_url(raw@, vars.keys(), vars.text_map(), new_version@),
{
    let url = expand(raw, vars, new_version);
    text_of(trimmed(drop_rename(url.as_slice())))
}

/// The name of the file that the address `url` ends in: what stands behind its last `/`, up to a
/// `?`.
pub open spec fn file_name(url: Seq<char>) -> Seq<char> {
    let last = match rfind_char(url, '/') {
        Some(i) => url.skip(i + 1),
        None => url,
    };
    match find_char(last, '?') {
        Some(i) => last.take(i),
        None => last,
    }
}

/// The name of the file that the address `url` ends in.
pub fn source_file_name(url: &str) -> (r: String)
    ensures
        r@ == file_name(url@),
{
    let c = chars_of(url);
    let n: usize = c.len();
    let start: usize = match last_index_of(c.as_slice(), '/') {
        Some(i) => i + 1,
        None => 0,
    };
    let last = slice_subrange(c.as_slice(), start, n);
    assert(start == 0 ==> last@ =~= url@);
    assert(start > 0 ==> last@ =~= url@.skip(start as int));
    match index_of(last, '?') {
        Some(i) => {
            assert(last@.subrange(0, i as int) =~= last@.take(i as int));
            text_of(slice_subrange(last, 0, i))
        },
        None => text_of(last),
    }
}

// ---------------------------------------------------------------------------------------------
// Checksums
// ---------------------------------------------------------------------------------------------

/// What `Sha256::digest` of the crate sha2 makes of `data`.
pub uninterp spec fn sha256(data: Seq<u8>) -> Seq<u8>;

/// `sha2::Sha256::digest`: the SHA-256 digest of `data`, of 32 bytes. Which bytes these are only
/// has a name.
#[verifier::external_body]
fn sha256_of(data: &[u8]) -> (r: Vec<u8>)
    ensures
        r@ == sha256(data@),
        r@.len() == 32,
{
    Sha256::digest(data).to_vec()
}

/// The lower case hexadecimal digit for a value below sixteen.
pub open spec fn hex_digit(d: int) -> char {
    if d < 10 {
        ('0' as u32 + d) as char
    } else {
        ('a' as u32 + d - 10) as char
    }
}

/// `bytes` in hexadecimal, two digits for each.
pub open spec fn hex(bytes: Seq<u8>) -> Seq<char>
    decreases bytes.len(),
{
    if bytes.len() == 0 {
        seq![]
    } else {
        hex(bytes.drop_last()).push(hex_digit(bytes.last() as int / 16)).push(
            hex_digit(bytes.last() as int % 16),
        )
    }
}

/// Whether a character is a lower case hexadecimal digit.
pub open spec fn is_hex(c: char) -> bool {
    ('0' <= c <= '9') || ('a' <= c <= 'f')
}

/// Whether a text can be a checksum: hexadecimal digits, and at least one of them.
pub open spec fn is_checksum(s: Seq<char>) -> bool {
    s.len() > 0 && forall|i: int| 0 <= i < s.len() ==> is_hex(#[trigger] s[i])
}

/// The letters of bytes in hexadecimal.
pub proof fn lemma_hex_letters(b: Seq<u8>)
    ensures
        forall|i: int| 0 <= i < hex(b).len() ==> is_hex(#[trigger] hex(b)[i]),
    decreases b.len(),
{
    if b.len() > 0 {
        let front = hex(b.drop_last());
        let high = hex_digit(b.last() as int / 16);
        let low = hex_digit(b.last() as int % 16);
        lemma_hex_letters(b.drop_last());
        assert(hex(b) == front.push(high).push(low));
        assert forall|i: int| 0 <= i < hex(b).len() implies is_hex(#[trigger] hex(b)[i]) by {
            if i < front.len() {
                assert(hex(b)[i] == front[i]);
            }
        }
    }
}

/// The hexadecimal digit for a value below sixteen.
fn hex_char(d: u8) -> (r: char)
    requires
        d < 16,
    ensures
        r == hex_digit(d as int),
{
    if d < 10 {
        (48 + d) as char
    } else {
        (87 + d) as char
    }
}

/// `bytes` in hexadecimal.
pub fn hex_text(bytes: &[u8]) -> (r: String)
    ensures
        r@ == hex(bytes@),
{
    let mut out: String = String::new();
    let mut i: usize = 0;
    while i < bytes.len()
        invariant
            i <= bytes@.len(),
            out@ == hex(bytes@.take(i as int)),
        decreases bytes@.len() - i,
    {
        let b: u8 = bytes[i];
        out.push(hex_char(b / 16));
        out.push(hex_char(b % 16));
        i += 1;
        assert(bytes@.take(i as int).drop_last() =~= bytes@.take(i - 1));
    }
    assert(bytes@.take(i as int) =~= bytes@);
    out
}

/// The checksum of `data`, as templates write it.
pub fn checksum_of(data: &[u8]) -> (r: String)
    ensures
        r@ == hex(sha256(data@)),
        r@.len() == 64,
        is_checksum(r@),
{
    let d = sha256_of(data);
    proof {
        lemma_hex_len(d@);
        lemma_hex_letters(d@);
    }
    hex_text(d.as_slice())
}

proof fn lemma_hex_len(b: Seq<u8>)
    ensures
        hex(b).len() == 2 * b.len(),
    decreases b.len(),
{
    if b.len() > 0 {
        lemma_hex_len(b.drop_last());
    }
}

// ---------------------------------------------------------------------------------------------
// Rewriting
// ---------------------------------------------------------------------------------------------

/// The white space that `line` starts with.
pub open spec fn indent_of(line: Seq<char>) -> Seq<char> {
    line.take(line.len() - trim_start(line).len())
}

/// A line of a template for a new version: the assignments of `version`, `revision` and
/// `checksum` get their new values, behind the white space that they had; others stay.
pub open spec fn rewrite_line(
    line: Seq<char>,
    version: Seq<char>,
    checksum: Seq<char>,
) -> Seq<char> {
    let t = trim(line);
    if starts_with(t, "version="@) {
        indent_of(line) + "version="@ + version
    } else if starts_with(t, "revision="@) {
        indent_of(line) + "revision=1"@
    } else if starts_with(t, "checksum="@) {
        indent_of(line) + "checksum="@ + checksum
    } else {
        line
    }
}

/// Whether a line assigns to `checksum` a quoted value that it does not close.
pub open spec fn opens_checksum(line: Seq<char>) -> bool {
    let t = trim(line);
    starts_with(t, "checksum="@) && opens_value(trim(t.skip(9)))
}

/// The index of the first line of `ls` that holds a double quote.
pub open spec fn closing_line(ls: Seq<Seq<char>>) -> Option<int>
    decreases ls.len(),
{
    if ls.len() == 0 {
        None
    } else if ls[0].contains('"') {
        Some(0)
    } else {
        match closing_line(ls.drop_first()) {
            Some(k) => Some(k + 1),
            None => None,
        }
    }
}

/// How many lines behind the first of `ls` belong to the quoted checksums that it opens: all up to
/// the one that closes them. Where none does, there are none.
pub open spec fn checksum_lines(ls: Seq<Seq<char>>) -> int {
    if opens_checksum(ls[0]) {
        match closing_line(ls.drop_first()) {
            Some(k) => k + 1,
            None => 0,
        }
    } else {
        0
    }
}

/// The lines `ls`, each rewritten. The new checksums take the place of all lines on which the old
/// ones stand.
pub open spec fn rewrite_lines(
    ls: Seq<Seq<char>>,
    version: Seq<char>,
    checksum: Seq<char>,
) -> Seq<Seq<char>>
    decreases ls.len(),
    via rewrite_lines_decreases
{
    if ls.len() == 0 {
        seq![]
    } else {
        seq![rewrite_line(ls[0], version, checksum)] + rewrite_lines(
            ls.skip(1 + checksum_lines(ls)),
            version,
            checksum,
        )
    }
}

#[via_fn]
proof fn rewrite_lines_decreases(ls: Seq<Seq<char>>, version: Seq<char>, checksum: Seq<char>) {
    lemma_closing_line(ls.drop_first());
}

/// What `closing_line` finds.
pub proof fn lemma_closing_line(ls: Seq<Seq<char>>)
    ensures
        match closing_line(ls) {
            Some(k) => 0 <= k < ls.len() && ls[k].contains('"') && forall|j: int|
                0 <= j < k ==> !(#[trigger] ls[j]).contains('"'),
            None => forall|j: int| 0 <= j < ls.len() ==> !(#[trigger] ls[j]).contains('"'),
        },
    decreases ls.len(),
{
    if ls.len() > 0 && !ls[0].contains('"') {
        let rest = ls.drop_first();
        lemma_closing_line(rest);
        match closing_line(rest) {
            Some(k) => {
                assert(ls[k + 1] == rest[k]);
                assert forall|j: int| 0 <= j < k + 1 implies !(#[trigger] ls[j]).contains('"') by {
                    if j > 0 {
                        assert(rest[j - 1] == ls[j]);
                    }
                }
            },
            None => {
                assert forall|j: int| 0 <= j < ls.len() implies !(#[trigger] ls[j]).contains(
                    '"',
                ) by {
                    if j > 0 {
                        assert(rest[j - 1] == ls[j]);
                    }
                }
            },
        }
    }
}

/// The rewritten lines from the one at `i` on, taken apart at their front.
pub proof fn lemma_rewrite_front(
    ls: Seq<Seq<char>>,
    i: int,
    out: Seq<Seq<char>>,
    version: Seq<char>,
    checksum: Seq<char>,
)
    requires
        0 <= i < ls.len(),
    ensures
        out + rewrite_lines(ls.skip(i), version, checksum) == out.push(
            rewrite_line(ls[i], version, checksum),
        ) + rewrite_lines(ls.skip(i + 1 + checksum_lines(ls.skip(i))), version, checksum),
{
    let rest = ls.skip(i);
    let n = checksum_lines(rest);
    let new = rewrite_line(ls[i], version, checksum);
    lemma_closing_line(rest.drop_first());
    let more = rewrite_lines(ls.skip(i + 1 + n), version, checksum);
    assert(rest[0] == ls[i]);
    assert(rest.skip(1 + n) =~= ls.skip(i + 1 + n));
    assert(rewrite_lines(rest, version, checksum) == seq![new] + more);
    assert(out.push(new) + more =~= out + (seq![new] + more));
}

/// A template for a new version: its lines rewritten, and a line end behind the last line where
/// it had one.
pub open spec fn rewritten(
    content: Seq<char>,
    version: Seq<char>,
    checksum: Seq<char>,
) -> Seq<char> {
    relined(content, rewrite_lines(lines(content), version, checksum))
}

/// A line of a template for a new version.
fn rewritten_line(line: &[char], version: &str, checksum: &str) -> (r: String)
    ensures
        r@ == rewrite_line(line@, version@, checksum@),
{
    let t = trimmed(line);
    let body = trimmed_start(line);
    proof {
        lemma_trim_start_len(line@);
    }
    let k: usize = line.len() - body.len();
    assert(line@.subrange(0, k as int) =~= indent_of(line@));
    let mut out = text_of(slice_subrange(line, 0, k));
    if begins(t, "version=") {
        out.append("version=");
        out.append(version);
        out
    } else if begins(t, "revision=") {
        out.append("revision=1");
        out
    } else if begins(t, "checksum=") {
        out.append("checksum=");
        out.append(checksum);
        out
    } else {
        text_of(line)
    }
}

/// The index of the first line that holds a double quote, among those from the one at `i`.
fn closing_line_from(all: &Vec<&[char]>, i: usize) -> (r: Option<usize>)
    requires
        i <= all@.len(),
    ensures
        match (r, closing_line(runs(all@).skip(i as int))) {
            (Some(k), Some(m)) => i <= k < all@.len() && k - i == m,
            (None, None) => true,
            _ => false,
        },
{
    let ghost rest = runs(all@).skip(i as int);
    let mut k: usize = i;
    while k < all.len()
        invariant
            i <= k <= all@.len(),
            rest == runs(all@).skip(i as int),
            forall|j: int| 0 <= j < k - i ==> !(#[trigger] rest[j]).contains('"'),
        decreases all@.len() - k,
    {
        assert(rest[k - i] == all@[k as int]@);
        if has_char(all[k], '"') {
            proof {
                lemma_closing_line(rest);
            }
            return Some(k);
        }
        k += 1;
    }
    proof {
        lemma_closing_line(rest);
    }
    None
}

/// How many of the lines behind the one at `i` belong to the quoted checksums that it opens.
fn lines_of_checksums(all: &Vec<&[char]>, i: usize) -> (r: usize)
    requires
        i < all@.len(),
    ensures
        r == checksum_lines(runs(all@).skip(i as int)),
        i + 1 + r <= all@.len(),
{
    proof {
        reveal_strlit("checksum=");
        assert(runs(all@).skip(i as int)[0] == all@[i as int]@);
        assert(runs(all@).skip(i as int).drop_first() =~= runs(all@).skip(i + 1));
    }
    let n: usize = all.len();
    let t = trimmed(all[i]);
    if !begins(t, "checksum=") {
        return 0;
    }
    let value = slice_subrange(t, 9, t.len());
    assert(value@ =~= t@.skip(9));
    if !opens(trimmed(value)) {
        return 0;
    }
    match closing_line_from(all, i + 1) {
        Some(k) => k - i,
        None => 0,
    }
}

/// Rewrite template content: update version, reset revision to 1, update checksum.
pub fn rewrite_template(content: &str, new_version: &str, new_checksum: &str) -> (r: String)
    ensures
        r@ == rewritten(content@, new_version@, new_checksum@),
{
    let text = chars_of(content);
    let all = lines_of(text.as_slice());
    let ghost ls = lines(content@);
    let mut out: Vec<String> = Vec::new();
    let mut i: usize = 0;
    let ghost goal = rewrite_lines(ls, new_version@, new_checksum@);
    assert(ls.skip(0) =~= ls);
    assert(texts(out@) + goal =~= goal);
    while i < all.len()
        invariant
            i <= all@.len(),
            runs(all@) == ls,
            goal == rewrite_lines(ls, new_version@, new_checksum@),
            texts(out@) + rewrite_lines(ls.skip(i as int), new_version@, new_checksum@) == goal,
        decreases all@.len() - i,
    {
        assert(ls[i as int] == all@[i as int]@);
        let s = rewritten_line(all[i], new_version, new_checksum);
        let n: usize = lines_of_checksums(&all, i);
        proof {
            lemma_texts_push(out@, s);
            lemma_rewrite_front(ls, i as int, texts(out@), new_version@, new_checksum@);
        }
        out.push(s);
        i = i + 1 + n;
    }
    assert(ls.skip(i as int) =~= Seq::<Seq<char>>::empty());
    assert(texts(out@) =~= goal);
    reline(content, &out)
}

// ---------------------------------------------------------------------------------------------
// Bumping
// ---------------------------------------------------------------------------------------------

/// What a bump changed.
#[derive(Debug)]
pub struct BumpResult {
    pub old_version: String,
    pub new_version: String,
}

/// The addresses from which the template's sources at `new_version` come, one for each of its
/// distfiles. There are none where the template names none.
pub fn download_urls(content: &str, new_version: &str) -> (r: Vec<String>)
    ensures
        exists|keys: Seq<Seq<char>>|
            #![trigger keys.no_duplicates()]
            keys.no_duplicates() && (forall|k: Seq<char>|
                keys.contains(k) <==> raw_vars(content@).contains_key(k)) && texts(r@)
                == source_urls(
                words(
                    expanded(
                        text_at(raw_vars(content@), "distfiles"@),
                        keys,
                        raw_vars(content@),
                        new_version@,
                    ),
                ),
            ),
{
    let vars = parse_template_vars(content);
    let raw = vars.text_or_empty("distfiles");
    let all = expand(raw.as_str(), &vars, new_version);
    proof {
        vars.lemma_keys();
        assert(vars.keys().no_duplicates());
        assert forall|k: Seq<char>|
            vars.keys().contains(k) <==> raw_vars(content@).contains_key(k) by {
            assert(vars.text_map().contains_key(k) <==> vars@.contains_key(k));
        }
    }
    let parts = words_of(all.as_slice());
    let ghost ws = words(all@);
    let mut out: Vec<String> = Vec::new();
    let mut i: usize = 0;
    assert(texts(out@) =~= source_urls(ws.take(0)));
    while i < parts.len()
        invariant
            i <= parts@.len(),
            runs(parts@) == ws,
            texts(out@) == source_urls(ws.take(i as int)),
        decreases parts@.len() - i,
    {
        assert(ws[i as int] == parts@[i as int]@);
        assert(ws.take(i + 1).drop_last() =~= ws.take(i as int));
        let url = drop_rename(parts[i]);
        if url.len() > 0 {
            let s = text_of(url);
            proof {
                lemma_texts_push(out@, s);
            }
            out.push(s);
        }
        i += 1;
    }
    assert(ws.take(i as int) =~= ws);
    out
}

/// The checksums of `sources`, one for each.
pub open spec fn checksums(sources: Seq<Vec<u8>>) -> Seq<Seq<char>> {
    Seq::new(sources.len(), |i: int| hex(sha256(sources[i]@)))
}

/// Checksums as the value of one assignment: several stand in double quotes, with blanks between
/// them.
pub open spec fn checksum_value(sums: Seq<Seq<char>>) -> Seq<char> {
    if sums.len() <= 1 {
        join(sums, " "@)
    } else {
        "\""@ + join(sums, " "@) + "\""@
    }
}

/// The checksums of `sources`, as templates write them.
fn checksums_of(sources: &Vec<Vec<u8>>) -> (r: String)
    ensures
        r@ == checksum_value(checksums(sources@)),
        forall|i: int| 0 <= i < sources@.len() ==> is_checksum(#[trigger] checksums(sources@)[i]),
{
    let mut sums: Vec<String> = Vec::new();
    let mut i: usize = 0;
    let ghost goal = checksums(sources@);
    assert(texts(sums@) =~= goal.take(0));
    while i < sources.len()
        invariant
            i <= sources@.len(),
            goal == checksums(sources@),
            texts(sums@) == goal.take(i as int),
            forall|j: int| 0 <= j < i ==> is_checksum(#[trigger] goal[j]),
        decreases sources@.len() - i,
    {
        let s = checksum_of(sources[i].as_slice());
        proof {
            lemma_texts_push(sums@, s);
        }
        sums.push(s);
        i += 1;
        assert(goal.take(i as int) =~= goal.take(i - 1).push(s@));
    }
    assert(goal.take(i as int) =~= goal);
    let all = joined(&sums, " ");
    if sums.len() <= 1 {
        all
    } else {
        cat3("\"", all.as_str(), "\"")
    }
}

/// Bump a template to a new version: the template's new text, with the version, the revision 1
/// and the checksums of `sources`, the distfiles at that version; and what changed.
pub fn bump_template(content: &str, new_version: &str, sources: &Vec<Vec<u8>>) -> (r: (
    String,
    BumpResult,
))
    ensures
        r.0@ == rewritten(content@, new_version@, checksum_value(checksums(sources@))),
        forall|i: int| 0 <= i < sources@.len() ==> is_checksum(#[trigger] checksums(sources@)[i]),
        r.1.old_version@ == text_at(raw_vars(content@), "version"@),
        r.1.new_version@ == new_version@,
{
    let vars = parse_template_vars(content);
    let checksum = checksums_of(sources);
    (
        rewrite_template(content, new_version, checksum.as_str()),
        BumpResult {
            old_version: vars.text_or_empty("version"),
            new_version: new_version.to_owned(),
        },
    )
}

/// Whether every distfile could be had.
pub open spec fn all_there(sources: Seq<Option<Vec<u8>>>) -> bool {
    forall|i: int| 0 <= i < sources.len() ==> (#[trigger] sources[i]) is Some
}

/// What the distfiles hold.
pub open spec fn contents(sources: Seq<Option<Vec<u8>>>) -> Seq<Vec<u8>> {
    Seq::new(sources.len(), |i: int| sources[i]->0)
}

/// What a bump comes to, once its distfiles were asked for: the template's new text and what
/// changed. A template without distfiles is not bumped, and neither is one of which a distfile
/// could not be had.
pub fn bump_outcome(content: &str, new_version: &str, sources: Vec<Option<Vec<u8>>>) -> (r: Option<
    (String, BumpResult),
>)
    ensures
        r is Some <==> sources@.len() > 0 && all_there(sources@),
        r matches Some(b) ==> {
            let sums = checksums(contents(sources@));
            &&& b.0@ == rewritten(content@, new_version@, checksum_value(sums))
            &&& forall|i: int| 0 <= i < sums.len() ==> is_checksum(#[trigger] sums[i])
            &&& b.1.old_version@ == text_at(raw_vars(content@), "version"@)
            &&& b.1.new_version@ == new_version@
        },
{
    if sources.len() == 0 {
        return None;
    }
    let ghost all = sources@;
    let mut rest = sources;
    let mut got: Vec<Vec<u8>> = Vec::new();
    assert(all.skip(0) =~= all);
    assert(got@ =~= contents(all).take(0));
    while rest.len() > 0
        invariant
            all == sources@,
            rest@ == all.skip(got@.len() as int),
            got@.len() <= all.len(),
            got@ == contents(all).take(got@.len() as int),
            forall|i: int| 0 <= i < got@.len() ==> (#[trigger] all[i]) is Some,
        decreases rest@.len(),
    {
        let ghost k = got@.len() as int;
        assert(rest@[0] == all[k]);
        match rest.remove(0) {
            Some(source) => {
                got.push(source);
                assert(rest@ =~= all.skip(k + 1));
                assert(got@ =~= contents(all).take(k + 1));
            },
            None => {
                assert(!all_there(all));
                return None;
            },
        }
    }
    assert(got@ =~= contents(all));
    Some(bump_template(content, new_version, &got))
}

} // verus!
