//! Text as sequences of characters: searching, splitting, trimming, replacing, joining and
//! numbers written in decimal.
//!
//! Executable functions work on slices of characters, so that a part of a text is a subslice;
//! `chars_of` and `text_of` go between those and strings.

use vstd::prelude::*;
use vstd::slice::slice_subrange;

verus! {

broadcast use vstd::seq_lib::group_seq_properties;

// ---------------------------------------------------------------------------------------------
// Strings and character slices
// ---------------------------------------------------------------------------------------------

/// The texts that a sequence of strings stands for.
pub open spec fn texts(v: Seq<String>) -> Seq<Seq<char>> {
    Seq::new(v.len(), |i: int| v[i]@)
}

/// The text behind an optional string.
pub open spec fn text_opt(o: Option<String>) -> Option<Seq<char>> {
    match o {
        Some(s) => Some(s@),
        None => None,
    }
}

/// `known` with `t` behind it, where it is not among them.
pub open spec fn with_text(known: Seq<Seq<char>>, t: Seq<char>) -> Seq<Seq<char>> {
    if known.contains(t) {
        known
    } else {
        known.push(t)
    }
}

/// The characters of `s`, in order.
pub fn chars_of(s: &str) -> (r: Vec<char>)
    ensures
        r@ == s@,
{
    let mut out: Vec<char> = Vec::new();
    for c in it: s.chars()
        invariant
            it.seq() == s@,
            out@ == s@.take(it.index()),
    {
        out.push(c);
    }
    out
}

/// `String::push` of std: puts `ch` behind what the string holds.
pub assume_specification[ String::push ](s: &mut String, ch: char)
    ensures
        final(s)@ == old(s)@.push(ch),
;

/// The string made of the characters of `c`.
pub fn text_of(c: &[char]) -> (r: String)
    ensures
        r@ == c@,
{
    let mut out: String = String::new();
    let mut i: usize = 0;
    while i < c.len()
        invariant
            i <= c@.len(),
            out@ == c@.take(i as int),
        decreases c@.len() - i,
    {
        out.push(c[i]);
        i += 1;
    }
    assert(c@.take(c@.len() as int) =~= c@);
    out
}

/// Whether two texts are the same.
pub fn same_text(a: &str, b: &str) -> (r: bool)
    ensures
        r == (a@ == b@),
{
    let x: String = a.to_owned();
    let y: String = b.to_owned();
    x == y
}

/// Whether two runs of characters are the same.
pub fn same_chars(a: &[char], b: &[char]) -> (r: bool)
    ensures
        r == (a@ == b@),
{
    if a.len() != b.len() {
        return false;
    }
    let mut i: usize = 0;
    while i < a.len()
        invariant
            i <= a@.len(),
            a@.len() == b@.len(),
            forall|j: int| 0 <= j < i ==> a@[j] == b@[j],
        decreases a@.len() - i,
    {
        if a[i] != b[i] {
            return false;
        }
        i += 1;
    }
    assert(a@ =~= b@);
    true
}

/// Whether the characters `a` spell the text `b`.
pub fn chars_are(a: &[char], b: &str) -> (r: bool)
    ensures
        r == (a@ == b@),
{
    let c = chars_of(b);
    same_chars(a, c.as_slice())
}

/// Whether some string of `v` has the text `t`.
pub fn contains_text(v: &Vec<String>, t: &str) -> (r: bool)
    ensures
        r == texts(v@).contains(t@),
{
    let mut i: usize = 0;
    while i < v.len()
        invariant
            i <= v@.len(),
            forall|j: int| 0 <= j < i ==> #[trigger] texts(v@)[j] != t@,
        decreases v@.len() - i,
    {
        if same_text(v[i].as_str(), t) {
            assert(texts(v@)[i as int] == t@);
            return true;
        }
        assert(texts(v@)[i as int] != t@);
        i += 1;
    }
    false
}

/// Puts `t` behind the strings of `known`, where it is not among them.
pub fn push_new(known: &mut Vec<String>, t: String)
    ensures
        texts(final(known)@) == with_text(texts(old(known)@), t@),
{
    if !contains_text(known, t.as_str()) {
        proof {
            lemma_texts_push(known@, t);
        }
        known.push(t);
    }
}

/// A text is added once, and nothing else.
pub proof fn lemma_with_text(known: Seq<Seq<char>>, t: Seq<char>)
    ensures
        forall|n: Seq<char>| #[trigger]
            with_text(known, t).contains(n) <==> known.contains(n) || n == t,
        known.no_duplicates() ==> with_text(known, t).no_duplicates(),
{
    let now = with_text(known, t);
    if !known.contains(t) {
        assert(now[known.len() as int] == t);
        assert forall|n: Seq<char>| #[trigger] now.contains(n) <==> known.contains(n) || n == t by {
            if known.contains(n) {
                let i = choose|i: int| 0 <= i < known.len() && known[i] == n;
                assert(now[i] == n);
            }
        }
    }
}

/// A copy of every string of `v`.
pub fn copy_texts(v: &Vec<String>) -> (r: Vec<String>)
    ensures
        r@ == v@,
{
    let mut out: Vec<String> = Vec::new();
    let mut i: usize = 0;
    while i < v.len()
        invariant
            i <= v@.len(),
            out@ == v@.take(i as int),
        decreases v@.len() - i,
    {
        out.push(v[i].clone());
        i += 1;
    }
    assert(v@.take(v@.len() as int) =~= v@);
    out
}

/// A copy of an optional string.
pub fn copy_opt(o: &Option<String>) -> (r: Option<String>)
    ensures
        r == *o,
{
    match o {
        Some(s) => Some(s.clone()),
        None => None,
    }
}

/// The texts of a sequence that grew by one string.
pub proof fn lemma_texts_push(v: Seq<String>, s: String)
    ensures
        texts(v.push(s)) == texts(v).push(s@),
{
    assert(texts(v.push(s)) =~= texts(v).push(s@));
}

// ---------------------------------------------------------------------------------------------
// Character classes
// ---------------------------------------------------------------------------------------------

/// The characters with the Unicode property White_Space.
pub open spec fn is_white(c: char) -> bool {
    let n = c as u32;
    ||| 0x9 <= n <= 0xd
    ||| n == 0x20
    ||| n == 0x85
    ||| n == 0xa0
    ||| n == 0x1680
    ||| 0x2000 <= n <= 0x200a
    ||| n == 0x2028
    ||| n == 0x2029
    ||| n == 0x202f
    ||| n == 0x205f
    ||| n == 0x3000
}

/// Whether `c` is white space.
pub fn white(c: char) -> (r: bool)
    ensures
        r == is_white(c),
{
    let n: u32 = c as u32;
    (0x9 <= n && n <= 0xd) || n == 0x20 || n == 0x85 || n == 0xa0 || n == 0x1680 || (0x2000 <= n
        && n <= 0x200a) || n == 0x2028 || n == 0x2029 || n == 0x202f || n == 0x205f || n == 0x3000
}

/// The ASCII decimal digits.
pub open spec fn is_digit(c: char) -> bool {
    '0' <= c <= '9'
}

/// The ASCII letters and digits.
pub open spec fn is_ascii_alnum(c: char) -> bool {
    is_digit(c) || ('a' <= c <= 'z') || ('A' <= c <= 'Z')
}

/// What `char::is_alphanumeric` of std answers for a character outside ASCII.
pub uninterp spec fn unicode_alphanumeric(c: char) -> bool;

/// Letters and digits: concretely for ASCII, by std's Unicode tables for the rest.
pub open spec fn is_alnum(c: char) -> bool {
    if (c as u32) < 0x80 {
        is_ascii_alnum(c)
    } else {
        unicode_alphanumeric(c)
    }
}

/// `char::is_alphanumeric` of std. Among the ASCII characters it holds for the letters and the
/// digits; beyond them its answer, taken from the Unicode tables, only has a name.
#[verifier::external_body]
pub(crate) fn alnum(c: char) -> (r: bool)
    ensures
        r == (if (c as u32) < 0x80 {
            is_ascii_alnum(c)
        } else {
            unicode_alphanumeric(c)
        }),
{
    c.is_alphanumeric()
}

/// The lower case of an ASCII character.
pub open spec fn ascii_lower(c: char) -> char {
    if 'A' <= c <= 'Z' {
        ((c as u32) + 32) as char
    } else {
        c
    }
}

/// What `str::to_lowercase` of std makes of a text with characters outside ASCII.
pub uninterp spec fn unicode_lowercase(s: Seq<char>) -> Seq<char>;

/// The lower case of a text: letter by letter for ASCII, by std's Unicode tables otherwise.
pub open spec fn lowercase(s: Seq<char>) -> Seq<char> {
    if forall|i: int| 0 <= i < s.len() ==> (#[trigger] s[i] as u32) < 0x80 {
        Seq::new(s.len(), |i: int| ascii_lower(s[i]))
    } else {
        unicode_lowercase(s)
    }
}

/// `str::to_lowercase` of std. An ASCII text is mapped letter by letter; for any other text the
/// result only has a name.
#[verifier::external_body]
pub(crate) fn to_lower(s: &str) -> (r: String)
    ensures
        r@ == (if forall|i: int| 0 <= i < s@.len() ==> (#[trigger] s@[i] as u32) < 0x80 {
            Seq::new(s@.len(), |i: int| ascii_lower(s@[i]))
        } else {
            unicode_lowercase(s@)
        }),
{
    s.to_lowercase()
}

// ---------------------------------------------------------------------------------------------
// Trimming
// ---------------------------------------------------------------------------------------------

/// `s` without its leading white space.
pub open spec fn trim_start(s: Seq<char>) -> Seq<char>
    decreases s.len(),
{
    if s.len() > 0 && is_white(s[0]) {
        trim_start(s.drop_first())
    } else {
        s
    }
}

/// `s` without its trailing white space.
pub open spec fn trim_end(s: Seq<char>) -> Seq<char>
    decreases s.len(),
{
    if s.len() > 0 && is_white(s.last()) {
        trim_end(s.drop_last())
    } else {
        s
    }
}

/// `s` without white space at either end.
pub open spec fn trim(s: Seq<char>) -> Seq<char> {
    trim_end(trim_start(s))
}

/// `s` without the characters `q` at its start.
pub open spec fn trim_start_char(s: Seq<char>, q: char) -> Seq<char>
    decreases s.len(),
{
    if s.len() > 0 && s[0] == q {
        trim_start_char(s.drop_first(), q)
    } else {
        s
    }
}

/// `s` without the characters `q` at its end.
pub open spec fn trim_end_char(s: Seq<char>, q: char) -> Seq<char>
    decreases s.len(),
{
    if s.len() > 0 && s.last() == q {
        trim_end_char(s.drop_last(), q)
    } else {
        s
    }
}

/// `s` without the characters `q` at either end.
pub open spec fn trim_char(s: Seq<char>, q: char) -> Seq<char> {
    trim_end_char(trim_start_char(s, q), q)
}

/// `s` without the copies of `pat` that it starts with.
pub open spec fn trim_start_text(s: Seq<char>, pat: Seq<char>) -> Seq<char>
    decreases s.len(),
{
    if pat.len() > 0 && starts_with(s, pat) {
        trim_start_text(s.skip(pat.len() as int), pat)
    } else {
        s
    }
}

/// `s` without the copies of `pat` that it ends with.
pub open spec fn trim_end_text(s: Seq<char>, pat: Seq<char>) -> Seq<char>
    decreases s.len(),
{
    if pat.len() > 0 && ends_with(s, pat) {
        trim_end_text(s.take(s.len() - pat.len()), pat)
    } else {
        s
    }
}

/// A trimmed text is no longer than what it was made of.
pub proof fn lemma_trim_start_len(s: Seq<char>)
    ensures
        trim_start(s).len() <= s.len(),
        trim_start(s) == s.skip(s.len() - trim_start(s).len()),
        trim_start(s).len() > 0 ==> !is_white(trim_start(s)[0]),
    decreases s.len(),
{
    if s.len() > 0 && is_white(s[0]) {
        lemma_trim_start_len(s.drop_first());
        let t = trim_start(s);
        assert(s.drop_first().skip(s.len() - 1 - t.len()) =~= s.skip(s.len() - t.len()));
    } else {
        assert(s.skip(0) =~= s);
    }
}

/// A trimmed text is a front part of what it was made of.
pub proof fn lemma_trim_end_len(s: Seq<char>)
    ensures
        trim_end(s).len() <= s.len(),
        trim_end(s) == s.take(trim_end(s).len() as int),
        trim_end(s).len() > 0 ==> !is_white(trim_end(s).last()),
    decreases s.len(),
{
    if s.len() > 0 && is_white(s.last()) {
        lemma_trim_end_len(s.drop_last());
        assert(s.drop_last().take(trim_end(s).len() as int) =~= s.take(trim_end(s).len() as int));
    } else {
        assert(s.take(s.len() as int) =~= s);
    }
}

/// `s` without its leading white space.
pub fn trimmed_start(s: &[char]) -> (r: &[char])
    ensures
        r@ == trim_start(s@),
{
    let n: usize = s.len();
    let mut i: usize = 0;
    assert(s@.skip(0) =~= s@);
    while i < n && white(s[i])
        invariant
            i <= n == s@.len(),
            trim_start(s@) == trim_start(s@.skip(i as int)),
        decreases n - i,
    {
        assert(s@.skip(i as int).drop_first() =~= s@.skip(i + 1));
        i += 1;
    }
    assert(s@.skip(i as int) =~= s@.subrange(i as int, n as int));
    slice_subrange(s, i, n)
}

/// `s` without its trailing white space.
pub fn trimmed_end(s: &[char]) -> (r: &[char])
    ensures
        r@ == trim_end(s@),
{
    let mut n: usize = s.len();
    assert(s@.take(n as int) =~= s@);
    while n > 0 && white(s[n - 1])
        invariant
            n <= s@.len(),
            trim_end(s@) == trim_end(s@.take(n as int)),
        decreases n,
    {
        assert(s@.take(n as int).drop_last() =~= s@.take(n - 1));
        n -= 1;
    }
    assert(s@.take(n as int) =~= s@.subrange(0, n as int));
    slice_subrange(s, 0, n)
}

/// `s` without white space at either end.
pub fn trimmed(s: &[char]) -> (r: &[char])
    ensures
        r@ == trim(s@),
{
    trimmed_end(trimmed_start(s))
}

/// `s` without the characters `q` at its start.
pub fn trimmed_start_char(s: &[char], q: char) -> (r: &[char])
    ensures
        r@ == trim_start_char(s@, q),
{
    let n: usize = s.len();
    let mut i: usize = 0;
    assert(s@.skip(0) =~= s@);
    while i < n && s[i] == q
        invariant
            i <= n == s@.len(),
            trim_start_char(s@, q) == trim_start_char(s@.skip(i as int), q),
        decreases n - i,
    {
        assert(s@.skip(i as int).drop_first() =~= s@.skip(i + 1));
        i += 1;
    }
    assert(s@.skip(i as int) =~= s@.subrange(i as int, n as int));
    slice_subrange(s, i, n)
}

/// `s` without the characters `q` at either end.
pub fn trimmed_char(s: &[char], q: char) -> (r: &[char])
    ensures
        r@ == trim_char(s@, q),
{
    let t = trimmed_start_char(s, q);
    let mut n: usize = t.len();
    assert(t@.take(n as int) =~= t@);
    while n > 0 && t[n - 1] == q
        invariant
            n <= t@.len(),
            trim_end_char(t@, q) == trim_end_char(t@.take(n as int), q),
        decreases n,
    {
        assert(t@.take(n as int).drop_last() =~= t@.take(n - 1));
        n -= 1;
    }
    assert(t@.take(n as int) =~= t@.subrange(0, n as int));
    slice_subrange(t, 0, n)
}

/// `s` without the copies of `pat` that it starts with.
pub fn trimmed_start_text<'a>(s: &'a [char], pat: &str) -> (r: &'a [char])
    ensures
        r@ == trim_start_text(s@, pat@),
{
    let p = chars_of(pat);
    let n: usize = s.len();
    let mut i: usize = 0;
    assert(s@.skip(0) =~= s@);
    while p.len() > 0 && has_prefix(slice_subrange(s, i, n), p.as_slice())
        invariant
            i <= n == s@.len(),
            p@ == pat@,
            trim_start_text(s@, pat@) == trim_start_text(s@.skip(i as int), pat@),
        decreases n - i,
    {
        assert(s@.subrange(i as int, n as int) =~= s@.skip(i as int));
        assert(s@.skip(i as int).skip(p@.len() as int) =~= s@.skip(i + p@.len()));
        i += p.len();
    }
    assert(s@.skip(i as int) =~= s@.subrange(i as int, n as int));
    slice_subrange(s, i, n)
}

/// `s` without the copies of `pat` that it ends with.
pub fn trimmed_end_text<'a>(s: &'a [char], pat: &str) -> (r: &'a [char])
    ensures
        r@ == trim_end_text(s@, pat@),
{
    let p = chars_of(pat);
    let mut n: usize = s.len();
    assert(s@.take(n as int) =~= s@);
    while p.len() > 0 && has_suffix(slice_subrange(s, 0, n), p.as_slice())
        invariant
            n <= s@.len(),
            p@ == pat@,
            trim_end_text(s@, pat@) == trim_end_text(s@.take(n as int), pat@),
        decreases n,
    {
        assert(s@.subrange(0, n as int) =~= s@.take(n as int));
        assert(s@.take(n as int).take(n - p@.len()) =~= s@.take(n - p@.len()));
        n -= p.len();
    }
    assert(s@.take(n as int) =~= s@.subrange(0, n as int));
    slice_subrange(s, 0, n)
}

// ---------------------------------------------------------------------------------------------
// Prefixes and suffixes
// ---------------------------------------------------------------------------------------------

/// Whether `s` starts with `pat`.
pub open spec fn starts_with(s: Seq<char>, pat: Seq<char>) -> bool {
    pat.len() <= s.len() && s.take(pat.len() as int) == pat
}

/// Whether `s` ends with `pat`.
pub open spec fn ends_with(s: Seq<char>, pat: Seq<char>) -> bool {
    pat.len() <= s.len() && s.skip(s.len() - pat.len()) == pat
}

/// `s` without `pat` in front, where it starts with `pat`.
pub open spec fn without_prefix(s: Seq<char>, pat: Seq<char>) -> Seq<char> {
    if starts_with(s, pat) {
        s.skip(pat.len() as int)
    } else {
        s
    }
}

/// `s` without `pat` at its end, where it ends with `pat`.
pub open spec fn without_suffix(s: Seq<char>, pat: Seq<char>) -> Seq<char> {
    if ends_with(s, pat) {
        s.take(s.len() - pat.len())
    } else {
        s
    }
}

/// Whether `s` starts with `pat`.
pub fn has_prefix(s: &[char], pat: &[char]) -> (r: bool)
    ensures
        r == starts_with(s@, pat@),
{
    if pat.len() > s.len() {
        return false;
    }
    assert(s@.take(pat@.len() as int) =~= s@.subrange(0, pat@.len() as int));
    same_chars(slice_subrange(s, 0, pat.len()), pat)
}

/// Whether `s` ends with `pat`.
pub fn has_suffix(s: &[char], pat: &[char]) -> (r: bool)
    ensures
        r == ends_with(s@, pat@),
{
    if pat.len() > s.len() {
        return false;
    }
    let k: usize = s.len() - pat.len();
    assert(s@.skip(k as int) =~= s@.subrange(k as int, s@.len() as int));
    same_chars(slice_subrange(s, k, s.len()), pat)
}

/// Whether `s` starts with the text `pat`.
pub fn begins(s: &[char], pat: &str) -> (r: bool)
    ensures
        r == starts_with(s@, pat@),
{
    let p = chars_of(pat);
    has_prefix(s, p.as_slice())
}

/// Whether `s` ends with the text `pat`.
pub fn finishes(s: &[char], pat: &str) -> (r: bool)
    ensures
        r == ends_with(s@, pat@),
{
    let p = chars_of(pat);
    has_suffix(s, p.as_slice())
}

/// `s` without the text `pat` in front, where it starts with it.
pub fn drop_prefix<'a>(s: &'a [char], pat: &str) -> (r: &'a [char])
    ensures
        r@ == without_prefix(s@, pat@),
{
    let p = chars_of(pat);
    if has_prefix(s, p.as_slice()) {
        assert(s@.skip(p@.len() as int) =~= s@.subrange(p@.len() as int, s@.len() as int));
        slice_subrange(s, p.len(), s.len())
    } else {
        s
    }
}

/// `s` without the text `pat` at its end, where it ends with it.
pub fn drop_suffix<'a>(s: &'a [char], pat: &str) -> (r: &'a [char])
    ensures
        r@ == without_suffix(s@, pat@),
{
    let p = chars_of(pat);
    if has_suffix(s, p.as_slice()) {
        let k: usize = s.len() - p.len();
        assert(s@.take(k as int) =~= s@.subrange(0, k as int));
        slice_subrange(s, 0, k)
    } else {
        s
    }
}

// ---------------------------------------------------------------------------------------------
// Searching
// ---------------------------------------------------------------------------------------------

/// Where `c` first occurs in `s`.
pub open spec fn find_char(s: Seq<char>, c: char) -> Option<int>
    decreases s.len(),
{
    if s.len() == 0 {
        None
    } else if s[0] == c {
        Some(0)
    } else {
        match find_char(s.drop_first(), c) {
            Some(k) => Some(k + 1),
            None => None,
        }
    }
}

/// Where `c` last occurs in `s`.
pub open spec fn rfind_char(s: Seq<char>, c: char) -> Option<int>
    decreases s.len(),
{
    if s.len() == 0 {
        None
    } else if s.last() == c {
        Some(s.len() - 1)
    } else {
        rfind_char(s.drop_last(), c)
    }
}

/// Where `pat` first occurs in `s`.
pub open spec fn find_text(s: Seq<char>, pat: Seq<char>) -> Option<int>
    decreases s.len(),
{
    if starts_with(s, pat) {
        Some(0)
    } else if s.len() == 0 {
        None
    } else {
        match find_text(s.drop_first(), pat) {
            Some(k) => Some(k + 1),
            None => None,
        }
    }
}

/// Whether `pat` occurs in `s`.
pub open spec fn has_text(s: Seq<char>, pat: Seq<char>) -> bool {
    find_text(s, pat) is Some
}

/// `find_char` gives the first index at which `c` stands, and nothing only where it stands
/// nowhere.
pub proof fn lemma_find_char(s: Seq<char>, c: char)
    ensures
        match find_char(s, c) {
            Some(i) => 0 <= i < s.len() && s[i] == c && (forall|j: int| 0 <= j < i ==> s[j] != c),
            None => forall|j: int| 0 <= j < s.len() ==> s[j] != c,
        },
    decreases s.len(),
{
    if s.len() > 0 && s[0] != c {
        lemma_find_char(s.drop_first(), c);
        assert forall|j: int|
            0 <= j < s.len() && (find_char(s, c) is None || j < find_char(s, c)->0) implies s[j]
            != c by {
            if j > 0 {
                assert(s.drop_first()[j - 1] == s[j]);
            }
        }
    }
}

/// The first index at which `c` stands is what `find_char` gives.
pub proof fn lemma_find_char_is(s: Seq<char>, c: char, i: int)
    requires
        0 <= i < s.len(),
        s[i] == c,
        forall|j: int| 0 <= j < i ==> s[j] != c,
    ensures
        find_char(s, c) == Some(i),
{
    lemma_find_char(s, c);
}

/// `rfind_char` gives the last index at which `c` stands, and nothing only where it stands
/// nowhere.
pub proof fn lemma_rfind_char(s: Seq<char>, c: char)
    ensures
        match rfind_char(s, c) {
            Some(i) => 0 <= i < s.len() && s[i] == c && (forall|j: int|
                i < j < s.len() ==> s[j] != c),
            None => forall|j: int| 0 <= j < s.len() ==> s[j] != c,
        },
    decreases s.len(),
{
    if s.len() > 0 && s.last() != c {
        lemma_rfind_char(s.drop_last(), c);
        assert forall|j: int|
            0 <= j < s.len() && (rfind_char(s, c) is None || rfind_char(s, c)->0 < j) implies s[j]
            != c by {
            if j < s.len() - 1 {
                assert(s.drop_last()[j] == s[j]);
            }
        }
    }
}

/// `find_text` gives the first index from which `pat` can be read, and nothing only where it can
/// be read from none.
pub proof fn lemma_find_text(s: Seq<char>, pat: Seq<char>)
    ensures
        match find_text(s, pat) {
            Some(i) => 0 <= i && i + pat.len() <= s.len() && s.subrange(i, i + pat.len()) == pat
                && (forall|j: int| 0 <= j < i ==> !starts_with(#[trigger] s.skip(j), pat)),
            None => forall|j: int| 0 <= j <= s.len() ==> !starts_with(#[trigger] s.skip(j), pat),
        },
    decreases s.len(),
{
    assert(s.skip(0) =~= s);
    if starts_with(s, pat) {
        assert(s.take(pat.len() as int) =~= s.subrange(0, pat.len() as int));
    } else if s.len() > 0 {
        let t = s.drop_first();
        lemma_find_text(t, pat);
        assert forall|j: int| 1 <= j <= s.len() implies #[trigger] s.skip(j) == t.skip(j - 1) by {
            assert(s.skip(j) =~= t.skip(j - 1));
        }
        match find_text(t, pat) {
            Some(k) => {
                assert(s.subrange(k + 1, k + 1 + pat.len()) =~= t.subrange(k, k + pat.len()));
            },
            None => {},
        }
    }
}

/// A text behind one that lacks its first character is found there.
pub proof fn lemma_find_text_behind(a: Seq<char>, pat: Seq<char>, b: Seq<char>)
    requires
        pat.len() > 0,
        !a.contains(pat[0]),
    ensures
        find_text(a + pat + b, pat) == Some(a.len() as int),
    decreases a.len(),
{
    let s = a + pat + b;
    if a.len() == 0 {
        assert(s.take(pat.len() as int) =~= pat);
    } else {
        let less = a.drop_first();
        assert(a.contains(a[0]));
        if starts_with(s, pat) {
            assert(s.take(pat.len() as int)[0] == s[0]);
        }
        assert(!less.contains(pat[0])) by {
            if less.contains(pat[0]) {
                let i = choose|i: int| 0 <= i < less.len() && less[i] == pat[0];
                assert(a[i + 1] == pat[0]);
            }
        }
        lemma_find_text_behind(less, pat, b);
        assert(s.drop_first() =~= less + pat + b);
    }
}

/// A text that occurs in another also occurs where more follows.
pub proof fn lemma_has_text_before(a: Seq<char>, b: Seq<char>, pat: Seq<char>)
    requires
        has_text(a, pat),
    ensures
        has_text(a + b, pat),
    decreases a.len(),
{
    if starts_with(a, pat) {
        assert((a + b).take(pat.len() as int) =~= a.take(pat.len() as int));
    } else {
        assert((a + b).drop_first() =~= a.drop_first() + b);
        lemma_has_text_before(a.drop_first(), b, pat);
    }
}

/// Where `c` first stands in `s`.
pub fn index_of(s: &[char], c: char) -> (r: Option<usize>)
    ensures
        match r {
            Some(i) => find_char(s@, c) == Some(i as int) && i < s@.len(),
            None => find_char(s@, c) is None,
        },
{
    let mut i: usize = 0;
    while i < s.len()
        invariant
            i <= s@.len(),
            forall|j: int| 0 <= j < i ==> s@[j] != c,
        decreases s@.len() - i,
    {
        if s[i] == c {
            proof {
                lemma_find_char_is(s@, c, i as int);
            }
            return Some(i);
        }
        i += 1;
    }
    proof {
        lemma_find_char(s@, c);
    }
    None
}

/// Where `c` last stands in `s`.
pub fn last_index_of(s: &[char], c: char) -> (r: Option<usize>)
    ensures
        match r {
            Some(i) => rfind_char(s@, c) == Some(i as int) && i < s@.len(),
            None => rfind_char(s@, c) is None,
        },
{
    proof {
        lemma_rfind_char(s@, c);
    }
    let mut i: usize = s.len();
    while i > 0
        invariant
            i <= s@.len(),
            forall|j: int| i <= j < s@.len() ==> s@[j] != c,
            match rfind_char(s@, c) {
                Some(k) => 0 <= k < s@.len() && s@[k] == c && (forall|j: int|
                    k < j < s@.len() ==> s@[j] != c),
                None => forall|j: int| 0 <= j < s@.len() ==> s@[j] != c,
            },
        decreases i,
    {
        i -= 1;
        if s[i] == c {
            return Some(i);
        }
    }
    None
}

/// Where `pat` first stands in `s`.
pub fn index_of_text(s: &[char], pat: &[char]) -> (r: Option<usize>)
    ensures
        match r {
            Some(i) => find_text(s@, pat@) == Some(i as int) && i + pat@.len() <= s@.len(),
            None => find_text(s@, pat@) is None,
        },
{
    proof {
        lemma_find_text(s@, pat@);
    }
    let ghost found = find_text(s@, pat@);
    let n: usize = s.len();
    let mut i: usize = 0;
    loop
        invariant
            i <= n == s@.len(),
            found == find_text(s@, pat@),
            found is Some ==> i <= found->0 && found->0 + pat@.len() <= n && s@.subrange(
                found->0,
                found->0 + pat@.len(),
            ) == pat@,
            match found {
                Some(k) => forall|j: int| 0 <= j < k ==> !starts_with(#[trigger] s@.skip(j), pat@),
                None => forall|j: int| 0 <= j <= n ==> !starts_with(#[trigger] s@.skip(j), pat@),
            },
        decreases n - i,
    {
        assert(s@.skip(i as int) =~= s@.subrange(i as int, n as int));
        if has_prefix(slice_subrange(s, i, n), pat) {
            assert(starts_with(s@.skip(i as int), pat@));
            return Some(i);
        }
        proof {
            if found == Some(i as int) {
                assert(s@.skip(i as int).take(pat@.len() as int) =~= s@.subrange(
                    i as int,
                    i + pat@.len(),
                ));
            }
        }
        if i == n {
            return None;
        }
        i += 1;
    }
}

/// Whether `c` stands in `s`.
pub fn has_char(s: &[char], c: char) -> (r: bool)
    ensures
        r == s@.contains(c),
{
    proof {
        lemma_find_char(s@, c);
    }
    match index_of(s, c) {
        Some(i) => {
            assert(s@[i as int] == c);
            true
        },
        None => false,
    }
}

/// Whether the text `pat` stands in `s`.
pub fn mentions(s: &[char], pat: &str) -> (r: bool)
    ensures
        r == has_text(s@, pat@),
{
    let p = chars_of(pat);
    index_of_text(s, p.as_slice()).is_some()
}

// ---------------------------------------------------------------------------------------------
// Splitting
// ---------------------------------------------------------------------------------------------

/// The parts of `s` between the characters `c`; at least one.
pub open spec fn split_char(s: Seq<char>, c: char) -> Seq<Seq<char>>
    decreases s.len(),
    via split_char_decreases
{
    match find_char(s, c) {
        Some(i) => seq![s.take(i)] + split_char(s.skip(i + 1), c),
        None => seq![s],
    }
}

#[via_fn]
proof fn split_char_decreases(s: Seq<char>, c: char) {
    lemma_find_char(s, c);
}

/// The parts of `s` between the copies of `pat`, read from the front; at least one.
pub open spec fn split_text(s: Seq<char>, pat: Seq<char>) -> Seq<Seq<char>>
    decreases s.len(),
    via split_text_decreases
{
    match find_text(s, pat) {
        Some(i) => if pat.len() > 0 {
            seq![s.take(i)] + split_text(s.skip(i + pat.len()), pat)
        } else {
            seq![s]
        },
        None => seq![s],
    }
}

#[via_fn]
proof fn split_text_decreases(s: Seq<char>, pat: Seq<char>) {
    lemma_find_text(s, pat);
}

/// `s` with `with` in place of each copy of `pat`, read from the front.
pub open spec fn replace(s: Seq<char>, pat: Seq<char>, with: Seq<char>) -> Seq<char>
    decreases s.len(),
    via replace_decreases
{
    match find_text(s, pat) {
        Some(i) => if pat.len() > 0 {
            s.take(i) + with + replace(s.skip(i + pat.len()), pat, with)
        } else {
            s
        },
        None => s,
    }
}

#[via_fn]
proof fn replace_decreases(s: Seq<char>, pat: Seq<char>, with: Seq<char>) {
    lemma_find_text(s, pat);
}

/// `s` without a carriage return at its end.
pub open spec fn without_cr(s: Seq<char>) -> Seq<char> {
    if s.len() > 0 && s.last() == '\r' {
        s.drop_last()
    } else {
        s
    }
}

/// The lines of `s`: each ends at a line feed, with the carriage return before it, or at the end
/// of `s`; a line end at the very end starts no further line.
pub open spec fn lines(s: Seq<char>) -> Seq<Seq<char>>
    decreases s.len(),
    via lines_decreases
{
    match find_char(s, '\n') {
        Some(i) => seq![without_cr(s.take(i))] + lines(s.skip(i + 1)),
        None => if s.len() == 0 {
            seq![]
        } else {
            seq![s]
        },
    }
}

#[via_fn]
proof fn lines_decreases(s: Seq<char>) {
    lemma_find_char(s, '\n');
}

/// How many characters stand in `s` before the first white space.
pub open spec fn word_len(s: Seq<char>) -> int
    decreases s.len(),
{
    if s.len() > 0 && !is_white(s[0]) {
        1 + word_len(s.drop_first())
    } else {
        0
    }
}

/// The runs of characters of `s` that are not white space.
pub open spec fn words(s: Seq<char>) -> Seq<Seq<char>>
    decreases s.len(),
    via words_decreases
{
    let t = trim_start(s);
    if t.len() == 0 {
        seq![]
    } else {
        seq![t.take(word_len(t))] + words(t.skip(word_len(t)))
    }
}

#[via_fn]
proof fn words_decreases(s: Seq<char>) {
    lemma_trim_start_len(s);
    let t = trim_start(s);
    lemma_word_len(t);
}

/// The bounds of `word_len`.
pub proof fn lemma_word_len(s: Seq<char>)
    ensures
        0 <= word_len(s) <= s.len(),
        s.len() > 0 && !is_white(s[0]) ==> word_len(s) > 0,
        forall|j: int| 0 <= j < word_len(s) ==> !is_white(#[trigger] s[j]),
        word_len(s) < s.len() ==> is_white(s[word_len(s)]),
    decreases s.len(),
{
    if s.len() > 0 && !is_white(s[0]) {
        lemma_word_len(s.drop_first());
        assert forall|j: int| 0 <= j < word_len(s) implies !is_white(#[trigger] s[j]) by {
            if j > 0 {
                assert(s.drop_first()[j - 1] == s[j]);
            }
        }
    }
}

/// The contents of each of a sequence of character runs.
pub open spec fn runs(v: Seq<&[char]>) -> Seq<Seq<char>> {
    Seq::new(v.len(), |i: int| v[i]@)
}

/// A string for each run of characters.
pub fn strings_of(v: &Vec<&[char]>) -> (r: Vec<String>)
    ensures
        texts(r@) == runs(v@),
{
    let mut out: Vec<String> = Vec::new();
    let mut i: usize = 0;
    assert(texts(out@) =~= runs(v@).take(0));
    while i < v.len()
        invariant
            i <= v@.len(),
            texts(out@) == runs(v@).take(i as int),
        decreases v@.len() - i,
    {
        let s = text_of(v[i]);
        proof {
            lemma_texts_push(out@, s);
        }
        out.push(s);
        i += 1;
        assert(runs(v@).take(i as int) =~= runs(v@).take(i - 1).push(s@));
    }
    assert(runs(v@).take(i as int) =~= runs(v@));
    out
}

/// The parts of `s` between the characters `c`.
pub fn split_at_char(s: &[char], c: char) -> (r: Vec<&[char]>)
    ensures
        runs(r@) == split_char(s@, c),
        r@.len() > 0,
{
    let mut out: Vec<&[char]> = Vec::new();
    let mut rest: &[char] = s;
    assert(runs(out@) + split_char(s@, c) =~= split_char(s@, c));
    loop
        invariant
            runs(out@) + split_char(rest@, c) == split_char(s@, c),
        decreases rest@.len(),
    {
        let ghost before = out@;
        let ghost cur = rest@;
        match index_of(rest, c) {
            Some(i) => {
                let head = slice_subrange(rest, 0, i);
                out.push(head);
                let n: usize = rest.len();
                rest = slice_subrange(rest, i + 1, n);
                assert(runs(out@) =~= runs(before).push(cur.take(i as int)));
                assert(rest@ =~= cur.skip(i + 1));
                assert(runs(out@) + split_char(rest@, c) =~= runs(before) + split_char(cur, c));
            },
            None => {
                out.push(rest);
                assert(runs(out@) =~= runs(before) + split_char(cur, c));
                return out;
            },
        }
    }
}

/// The parts of `s` between the copies of `pat`.
pub fn split_at_text<'a>(s: &'a [char], pat: &str) -> (r: Vec<&'a [char]>)
    requires
        pat@.len() > 0,
    ensures
        runs(r@) == split_text(s@, pat@),
        r@.len() > 0,
{
    let p = chars_of(pat);
    let mut out: Vec<&[char]> = Vec::new();
    let mut rest: &[char] = s;
    assert(runs(out@) + split_text(s@, pat@) =~= split_text(s@, pat@));
    loop
        invariant
            p@ == pat@,
            p@.len() > 0,
            runs(out@) + split_text(rest@, pat@) == split_text(s@, pat@),
        decreases rest@.len(),
    {
        let ghost before = out@;
        let ghost cur = rest@;
        match index_of_text(rest, p.as_slice()) {
            Some(i) => {
                let head = slice_subrange(rest, 0, i);
                out.push(head);
                let n: usize = rest.len();
                rest = slice_subrange(rest, i + p.len(), n);
                assert(runs(out@) =~= runs(before).push(cur.take(i as int)));
                assert(rest@ =~= cur.skip(i + p@.len()));
                assert(runs(out@) + split_text(rest@, pat@) =~= runs(before) + split_text(
                    cur,
                    pat@,
                ));
            },
            None => {
                out.push(rest);
                assert(runs(out@) =~= runs(before) + split_text(cur, pat@));
                return out;
            },
        }
    }
}

/// The lines of `s`.
pub fn lines_of(s: &[char]) -> (r: Vec<&[char]>)
    ensures
        runs(r@) == lines(s@),
{
    let mut out: Vec<&[char]> = Vec::new();
    let mut rest: &[char] = s;
    assert(runs(out@) + lines(s@) =~= lines(s@));
    loop
        invariant
            runs(out@) + lines(rest@) == lines(s@),
        decreases rest@.len(),
    {
        let ghost before = out@;
        let ghost cur = rest@;
        match index_of(rest, '\n') {
            Some(i) => {
                let end: usize = if i > 0 && rest[i - 1] == '\r' {
                    i - 1
                } else {
                    i
                };
                let head = slice_subrange(rest, 0, end);
                assert(head@ =~= without_cr(cur.take(i as int)));
                out.push(head);
                let n: usize = rest.len();
                rest = slice_subrange(rest, i + 1, n);
                assert(runs(out@) =~= runs(before).push(without_cr(cur.take(i as int))));
                assert(rest@ =~= cur.skip(i + 1));
                assert(runs(out@) + lines(rest@) =~= runs(before) + lines(cur));
            },
            None => {
                if rest.len() > 0 {
                    out.push(rest);
                }
                assert(runs(out@) =~= runs(before) + lines(cur));
                return out;
            },
        }
    }
}

/// How many characters stand in `s` before the first white space.
fn word_end(s: &[char]) -> (r: usize)
    ensures
        r == word_len(s@),
        r <= s@.len(),
{
    proof {
        lemma_word_len(s@);
    }
    let n: usize = s.len();
    let mut i: usize = 0;
    while i < n && !white(s[i])
        invariant
            i <= n == s@.len(),
            i <= word_len(s@) <= n,
            forall|j: int| 0 <= j < word_len(s@) ==> !is_white(#[trigger] s@[j]),
            word_len(s@) < n ==> is_white(s@[word_len(s@)]),
        decreases n - i,
    {
        i += 1;
    }
    i
}

/// The runs of characters of `s` that are not white space.
pub fn words_of(s: &[char]) -> (r: Vec<&[char]>)
    ensures
        runs(r@) == words(s@),
{
    let mut out: Vec<&[char]> = Vec::new();
    let mut rest: &[char] = trimmed_start(s);
    assert(runs(out@) =~= Seq::<Seq<char>>::empty());
    proof {
        lemma_words_trimmed(s@);
    }
    while rest.len() > 0
        invariant
            runs(out@) + words(rest@) == words(s@),
            trim_start(rest@) == rest@,
        decreases rest@.len(),
    {
        let ghost before = out@;
        let ghost cur = rest@;
        let i: usize = word_end(rest);
        let n: usize = rest.len();
        let head = slice_subrange(rest, 0, i);
        out.push(head);
        rest = trimmed_start(slice_subrange(rest, i, n));
        proof {
            assert(cur.subrange(i as int, n as int) =~= cur.skip(i as int));
            assert(head@ =~= cur.take(i as int));
            assert(runs(out@) =~= runs(before).push(cur.take(i as int)));
            lemma_words_step(runs(before), cur);
        }
    }
    assert(runs(out@) + words(rest@) =~= runs(out@));
    out
}

/// The first word of a text that starts with one, and the rest of its words.
proof fn lemma_words_step(before: Seq<Seq<char>>, s: Seq<char>)
    requires
        trim_start(s) == s,
        s.len() > 0,
    ensures
        trim_start(s.skip(word_len(s))).len() < s.len(),
        trim_start(trim_start(s.skip(word_len(s)))) == trim_start(s.skip(word_len(s))),
        before.push(s.take(word_len(s))) + words(trim_start(s.skip(word_len(s)))) == before
            + words(s),
{
    lemma_trim_start_len(s);
    lemma_word_len(s);
    let tail = s.skip(word_len(s));
    lemma_words_trimmed(tail);
    lemma_trim_start_len(tail);
    let w = words(tail);
    assert(words(s) == seq![s.take(word_len(s))] + w);
    assert(before.push(s.take(word_len(s))) + w =~= before + (seq![s.take(word_len(s))] + w));
}

/// White space in front changes no word.
pub proof fn lemma_words_trimmed(s: Seq<char>)
    ensures
        words(trim_start(s)) == words(s),
        trim_start(trim_start(s)) == trim_start(s),
{
    lemma_trim_start_len(s);
}

/// `s` with `with` in place of each copy of `pat`.
pub fn replaced(s: &[char], pat: &[char], with: &[char]) -> (r: Vec<char>)
    requires
        pat@.len() > 0,
    ensures
        r@ == replace(s@, pat@, with@),
{
    let mut out: Vec<char> = Vec::new();
    let mut rest: &[char] = s;
    assert(out@ + replace(s@, pat@, with@) =~= replace(s@, pat@, with@));
    loop
        invariant
            pat@.len() > 0,
            out@ + replace(rest@, pat@, with@) == replace(s@, pat@, with@),
        decreases rest@.len(),
    {
        let ghost before = out@;
        let ghost cur = rest@;
        match index_of_text(rest, pat) {
            Some(i) => {
                push_chars(&mut out, slice_subrange(rest, 0, i));
                push_chars(&mut out, with);
                let n: usize = rest.len();
                rest = slice_subrange(rest, i + pat.len(), n);
                assert(rest@ =~= cur.skip(i + pat@.len()));
                assert(out@ + replace(rest@, pat@, with@) =~= before + replace(cur, pat@, with@));
            },
            None => {
                push_chars(&mut out, rest);
                return out;
            },
        }
    }
}

/// Puts the characters of `c` behind those of `out`.
pub fn push_chars(out: &mut Vec<char>, c: &[char])
    ensures
        final(out)@ == old(out)@ + c@,
{
    let mut i: usize = 0;
    while i < c.len()
        invariant
            i <= c@.len(),
            out@ == old(out)@ + c@.take(i as int),
        decreases c@.len() - i,
    {
        out.push(c[i]);
        i += 1;
        assert(c@.take(i as int) =~= c@.take(i - 1).push(c@[i - 1]));
    }
    assert(c@.take(c@.len() as int) =~= c@);
}

/// Puts the characters of the text `t` behind those of `out`.
pub fn push_text(out: &mut Vec<char>, t: &str)
    ensures
        final(out)@ == old(out)@ + t@,
{
    let c = chars_of(t);
    push_chars(out, c.as_slice());
}

// ---------------------------------------------------------------------------------------------
// Joining
// ---------------------------------------------------------------------------------------------

/// The texts of `parts`, with `sep` between each two neighbours.
pub open spec fn join(parts: Seq<Seq<char>>, sep: Seq<char>) -> Seq<char>
    decreases parts.len(),
{
    if parts.len() == 0 {
        seq![]
    } else if parts.len() == 1 {
        parts[0]
    } else {
        join(parts.drop_last(), sep) + sep + parts.last()
    }
}

/// The texts of `parts`, with `sep` between each two neighbours.
pub fn joined(parts: &Vec<String>, sep: &str) -> (r: String)
    ensures
        r@ == join(texts(parts@), sep@),
{
    let mut out: String = String::new();
    let mut i: usize = 0;
    let ghost all = texts(parts@);
    while i < parts.len()
        invariant
            i <= parts@.len(),
            all == texts(parts@),
            out@ == join(all.take(i as int), sep@),
        decreases parts@.len() - i,
    {
        if i > 0 {
            out.append(sep);
        }
        out.append(parts[i].as_str());
        i += 1;
        assert(all.take(i as int).drop_last() =~= all.take(i - 1));
    }
    assert(all.take(all.len() as int) =~= all);
    out
}

/// The text of `a` and then that of `b`.
pub fn cat(a: &str, b: &str) -> (r: String)
    ensures
        r@ == a@ + b@,
{
    let mut out: String = a.to_owned();
    out.append(b);
    out
}

/// The texts of `a`, `b` and `c`, one behind the other.
pub fn cat3(a: &str, b: &str, c: &str) -> (r: String)
    ensures
        r@ == a@ + b@ + c@,
{
    let mut out: String = a.to_owned();
    out.append(b);
    out.append(c);
    out
}

// ---------------------------------------------------------------------------------------------
// Numbers
// ---------------------------------------------------------------------------------------------

/// The digit for a value below ten.
pub open spec fn digit_char(d: nat) -> char {
    ('0' as u32 + d) as char
}

/// The value of a digit.
pub open spec fn digit_value(c: char) -> nat {
    (c as u32 - '0' as u32) as nat
}

/// `n` written in decimal, without leading zeros.
pub open spec fn decimal(n: nat) -> Seq<char>
    decreases n,
{
    if n < 10 {
        seq![digit_char(n)]
    } else {
        decimal(n / 10).push(digit_char(n % 10))
    }
}

/// The number that the digits `s` write.
pub open spec fn digits_value(s: Seq<char>) -> nat
    decreases s.len(),
{
    if s.len() == 0 {
        0
    } else {
        digits_value(s.drop_last()) * 10 + digit_value(s.last())
    }
}

/// Whether `s` consists of digits.
pub open spec fn all_digits(s: Seq<char>) -> bool {
    forall|i: int| 0 <= i < s.len() ==> is_digit(#[trigger] s[i])
}

/// The number up to `max` that `s` writes: digits, at least one, perhaps behind one `+`.
pub open spec fn parse_number(s: Seq<char>, max: nat) -> Option<nat> {
    let d = if s.len() > 0 && s[0] == '+' {
        s.drop_first()
    } else {
        s
    };
    if d.len() > 0 && all_digits(d) && digits_value(d) <= max {
        Some(digits_value(d))
    } else {
        None
    }
}

/// The number that a longer run of digits writes is no smaller.
pub proof fn lemma_digits_value_take(s: Seq<char>, i: int, j: int)
    requires
        0 <= i <= j <= s.len(),
    ensures
        digits_value(s.take(i)) <= digits_value(s.take(j)),
    decreases j - i,
{
    if i < j {
        lemma_digits_value_take(s, i, j - 1);
        assert(s.take(j).drop_last() =~= s.take(j - 1));
    }
}

/// `n` written in decimal.
pub fn number(n: u64) -> (r: String)
    ensures
        r@ == decimal(n as nat),
{
    let mut digits: Vec<char> = Vec::new();
    let mut m: u64 = n;
    while m >= 10
        invariant
            decimal(n as nat) == decimal(m as nat) + digits@.reverse(),
        decreases m,
    {
        let d: u8 = (m % 10) as u8;
        let c: char = (48 + d) as char;
        let ghost before = digits@;
        digits.push(c);
        assert(digits@.reverse() =~= seq![c] + before.reverse());
        assert(c == digit_char((m % 10) as nat));
        assert(decimal(m as nat) + before.reverse() =~= decimal((m / 10) as nat)
            + digits@.reverse());
        m = m / 10;
    }
    let ghost before = digits@;
    let c: char = (48 + m as u8) as char;
    digits.push(c);
    assert(digits@.reverse() =~= seq![c] + before.reverse());
    assert(digits@.reverse() == decimal(n as nat));
    let mut out: String = String::new();
    let mut i: usize = digits.len();
    while i > 0
        invariant
            i <= digits@.len(),
            out@ == digits@.reverse().take(digits@.len() - i),
        decreases i,
    {
        i -= 1;
        out.push(digits[i]);
        assert(out@ =~= digits@.reverse().take(digits@.len() - i));
    }
    assert(out@ =~= digits@.reverse());
    out
}

/// The number that the digits `s` write, where it is at most `max`.
pub fn digits_up_to(s: &[char], max: u64) -> (r: Option<u64>)
    requires
        all_digits(s@),
    ensures
        match r {
            Some(v) => v == digits_value(s@) && v <= max,
            None => digits_value(s@) > max,
        },
{
    let mut v: u64 = 0;
    let mut i: usize = 0;
    while i < s.len()
        invariant
            i <= s@.len(),
            all_digits(s@),
            v == digits_value(s@.take(i as int)),
            v <= max,
        decreases s@.len() - i,
    {
        assert(is_digit(s@[i as int]));
        let d: u64 = (s[i] as u32 - 48) as u64;
        assert(s@.take(i + 1).drop_last() =~= s@.take(i as int));
        proof {
            lemma_digits_value_take(s@, i + 1, s@.len() as int);
            assert(s@.take(s@.len() as int) =~= s@);
        }
        if d > max || v > (max - d) / 10 {
            return None;
        }
        v = v * 10 + d;
        i += 1;
    }
    assert(s@.take(s@.len() as int) =~= s@);
    Some(v)
}

/// Whether every character of `s` is a digit.
pub fn are_digits(s: &[char]) -> (r: bool)
    ensures
        r == all_digits(s@),
{
    let mut i: usize = 0;
    while i < s.len()
        invariant
            i <= s@.len(),
            forall|j: int| 0 <= j < i ==> is_digit(#[trigger] s@[j]),
        decreases s@.len() - i,
    {
        if !(s[i] >= '0' && s[i] <= '9') {
            assert(!is_digit(s@[i as int]));
            return false;
        }
        i += 1;
    }
    true
}

/// The number up to `max` that `s` writes.
pub fn number_up_to(s: &[char], max: u64) -> (r: Option<u64>)
    ensures
        match r {
            Some(v) => parse_number(s@, max as nat) == Some(v as nat) && v <= max,
            None => parse_number(s@, max as nat) is None,
        },
{
    let d: &[char] = if s.len() > 0 && s[0] == '+' {
        assert(s@.drop_first() =~= s@.subrange(1, s@.len() as int));
        slice_subrange(s, 1, s.len())
    } else {
        s
    };
    if d.len() == 0 || !are_digits(d) {
        return None;
    }
    digits_up_to(d, max)
}

/// The 32-bit number that `s` writes.
pub fn number_u32(s: &[char]) -> (r: Option<u32>)
    ensures
        match r {
            Some(v) => parse_number(s@, u32::MAX as nat) == Some(v as nat),
            None => parse_number(s@, u32::MAX as nat) is None,
        },
{
    match number_up_to(s, 4294967295) {
        Some(v) => Some(v as u32),
        None => None,
    }
}

/// Reading a number back gives what was written.
pub proof fn law_decimal_reads_back(n: nat, max: nat)
    requires
        n <= max,
    ensures
        parse_number(decimal(n), max) == Some(n),
{
    lemma_decimal(n);
}

/// What `decimal` writes: digits, of the value written.
pub proof fn lemma_decimal(n: nat)
    ensures
        decimal(n).len() > 0,
        all_digits(decimal(n)),
        digits_value(decimal(n)) == n,
    decreases n,
{
    if n >= 10 {
        lemma_decimal(n / 10);
        assert(decimal(n).drop_last() =~= decimal(n / 10));
        assert(decimal(n).last() == digit_char(n % 10));
    } else {
        assert(decimal(n).drop_last() =~= Seq::<char>::empty());
        assert(digits_value(Seq::<char>::empty()) == 0);
    }
}

/// The lower case of an ASCII text is that of its letters, one by one.
pub proof fn law_lower_case_by_letter(s: Seq<char>, i: int)
    requires
        forall|j: int| 0 <= j < s.len() ==> (#[trigger] s[j] as u32) < 0x80,
        0 <= i < s.len(),
    ensures
        lowercase(s).len() == s.len(),
        'A' <= s[i] <= 'Z' ==> lowercase(s)[i] as u32 == s[i] as u32 + 32,
        !('A' <= s[i] <= 'Z') ==> lowercase(s)[i] == s[i],
{
}

} // verus!
