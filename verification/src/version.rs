//! The order of upstream versions.

use vstd::prelude::*;
use vstd::slice::slice_subrange;

use crate::text::{
    all_digits, chars_of, decimal, digits_up_to, digits_value, find_char, is_digit, lemma_decimal,
    lemma_find_char, lemma_find_char_is, runs, split_at_char, split_char,
};

verus! {

broadcast use vstd::seq_lib::group_seq_properties;

/// How many digits `p` starts with.
pub open spec fn digits_len(p: Seq<char>) -> int
    decreases p.len(),
{
    if p.len() > 0 && is_digit(p[0]) {
        1 + digits_len(p.drop_first())
    } else {
        0
    }
}

/// What a part of a version counts as: the number that it starts with, 0 where that is missing or
/// too large for 64 bits, and whether something follows the number.
pub open spec fn part_key(p: Seq<char>) -> (nat, bool) {
    let n = digits_len(p);
    let v = digits_value(p.take(n));
    (
        if v <= u64::MAX {
            v
        } else {
            0
        },
        n < p.len(),
    )
}

/// What the part `i` of the version `v` counts as; parts that are missing count as `0`.
pub open spec fn key_at(v: Seq<char>, i: int) -> (nat, bool) {
    let parts = split_char(v, '.');
    if i < parts.len() {
        part_key(parts[i])
    } else {
        (0, false)
    }
}

/// Whether the first part is the newer one: by number, and at the same number a part without a
/// suffix is newer than one with a suffix.
pub open spec fn key_newer(a: (nat, bool), b: (nat, bool)) -> bool {
    a.0 > b.0 || (a.0 == b.0 && !a.1 && b.1)
}

/// Whether `a` is newer than `b` when the parts from `i` to `n` are looked at.
pub open spec fn newer_from(a: Seq<char>, b: Seq<char>, i: int, n: int) -> bool
    decreases n - i,
{
    if i >= n {
        false
    } else if key_at(a, i) == key_at(b, i) {
        newer_from(a, b, i + 1, n)
    } else {
        key_newer(key_at(a, i), key_at(b, i))
    }
}

/// How many parts the longer of two versions has.
pub open spec fn part_count(a: Seq<char>, b: Seq<char>) -> int {
    if split_char(a, '.').len() >= split_char(b, '.').len() {
        split_char(a, '.').len() as int
    } else {
        split_char(b, '.').len() as int
    }
}

/// Whether the version `a` is newer than `b`: at the first part at which they differ, `a` has the
/// newer one.
pub open spec fn is_newer(a: Seq<char>, b: Seq<char>) -> bool {
    newer_from(a, b, 0, part_count(a, b))
}

/// Looking further than the parts that both versions have changes nothing.
proof fn lemma_newer_beyond(a: Seq<char>, b: Seq<char>, i: int, n: int)
    requires
        0 <= i,
        part_count(a, b) <= n,
    ensures
        newer_from(a, b, i, n) == newer_from(a, b, i, part_count(a, b)),
    decreases n - i,
{
    if i < n {
        lemma_newer_beyond(a, b, i + 1, n);
        if i >= part_count(a, b) {
            assert(key_at(a, i) == key_at(b, i));
        }
    }
}

proof fn lemma_newer_irreflexive_from(a: Seq<char>, i: int, n: int)
    ensures
        !newer_from(a, a, i, n),
    decreases n - i,
{
    if i < n {
        lemma_newer_irreflexive_from(a, i + 1, n);
    }
}

proof fn lemma_newer_transitive_from(a: Seq<char>, b: Seq<char>, c: Seq<char>, i: int, n: int)
    requires
        newer_from(a, b, i, n),
        newer_from(b, c, i, n),
    ensures
        newer_from(a, c, i, n),
    decreases n - i,
{
    if key_at(a, i) == key_at(b, i) && key_at(b, i) == key_at(c, i) {
        lemma_newer_transitive_from(a, b, c, i + 1, n);
    }
}

proof fn lemma_newer_negative_from(a: Seq<char>, b: Seq<char>, c: Seq<char>, i: int, n: int)
    requires
        newer_from(a, c, i, n),
    ensures
        newer_from(a, b, i, n) || newer_from(b, c, i, n),
    decreases n - i,
{
    if key_at(a, i) == key_at(b, i) && key_at(b, i) == key_at(c, i) {
        lemma_newer_negative_from(a, b, c, i + 1, n);
    }
}

/// A number of parts that covers three versions.
spec fn cover(a: Seq<char>, b: Seq<char>, c: Seq<char>) -> int {
    (split_char(a, '.').len() + split_char(b, '.').len() + split_char(c, '.').len()) as int
}

/// No version is newer than itself.
pub proof fn law_newer_irreflexive(a: Seq<char>)
    ensures
        !is_newer(a, a),
{
    lemma_newer_irreflexive_from(a, 0, part_count(a, a));
}

/// A version newer than one that is newer than a third is newer than the third.
pub proof fn law_newer_transitive(a: Seq<char>, b: Seq<char>, c: Seq<char>)
    requires
        is_newer(a, b),
        is_newer(b, c),
    ensures
        is_newer(a, c),
{
    let n = cover(a, b, c);
    lemma_newer_beyond(a, b, 0, n);
    lemma_newer_beyond(b, c, 0, n);
    lemma_newer_beyond(a, c, 0, n);
    lemma_newer_transitive_from(a, b, c, 0, n);
}

/// Two versions are never each newer than the other.
pub proof fn law_newer_asymmetric(a: Seq<char>, b: Seq<char>)
    requires
        is_newer(a, b),
    ensures
        !is_newer(b, a),
{
    if is_newer(b, a) {
        law_newer_transitive(a, b, a);
        law_newer_irreflexive(a);
    }
}

/// Where one version is newer than another, any third version is older than the first or newer
/// than the second: versions of which neither is newer rank alike.
pub proof fn law_newer_ranks(a: Seq<char>, b: Seq<char>, c: Seq<char>)
    requires
        is_newer(a, c),
    ensures
        is_newer(a, b) || is_newer(b, c),
{
    let n = cover(a, b, c);
    lemma_newer_beyond(a, b, 0, n);
    lemma_newer_beyond(b, c, 0, n);
    lemma_newer_beyond(a, c, 0, n);
    lemma_newer_negative_from(a, b, c, 0, n);
}

/// Appending a text without a dot extends the last part.
proof fn lemma_split_append(v: Seq<char>, t: Seq<char>)
    requires
        !t.contains('.'),
    ensures
        split_char(v + t, '.') == split_char(v, '.').drop_last().push(
            split_char(v, '.').last() + t,
        ),
    decreases v.len(),
{
    let w = v + t;
    lemma_find_char(v, '.');
    lemma_find_char(w, '.');
    match find_char(v, '.') {
        Some(i) => {
            assert(w[i] == '.');
            assert forall|j: int| 0 <= j < i implies w[j] != '.' by {
                assert(w[j] == v[j]);
            }
            lemma_find_char_is(w, '.', i);
            assert(w.take(i) =~= v.take(i));
            assert(w.skip(i + 1) =~= v.skip(i + 1) + t);
            lemma_split_append(v.skip(i + 1), t);
            let rest = split_char(v.skip(i + 1), '.');
            assert(rest.len() > 0);
            assert(split_char(v, '.').drop_last() =~= seq![v.take(i)] + rest.drop_last());
            assert(split_char(v, '.').last() == rest.last());
            assert(split_char(w, '.') =~= split_char(v, '.').drop_last().push(
                split_char(v, '.').last() + t,
            ));
        },
        None => {
            assert forall|j: int| 0 <= j < w.len() implies w[j] != '.' by {
                if j >= v.len() {
                    assert(w[j] == t[j - v.len()]);
                    assert(t.contains(t[j - v.len()]));
                } else {
                    assert(w[j] == v[j]);
                }
            }
            assert(find_char(w, '.') is None);
            assert(split_char(v, '.') =~= seq![v]);
            assert(split_char(w, '.') =~= seq![w]);
            assert(split_char(v, '.').drop_last().push(v + t) =~= seq![w]);
        },
    }
}

/// What `digits_len` counts.
pub proof fn lemma_digits_len(p: Seq<char>)
    ensures
        0 <= digits_len(p) <= p.len(),
        all_digits(p.take(digits_len(p))),
        digits_len(p) < p.len() ==> !is_digit(p[digits_len(p)]),
    decreases p.len(),
{
    if p.len() > 0 && is_digit(p[0]) {
        lemma_digits_len(p.drop_first());
        let n = digits_len(p);
        assert forall|i: int| 0 <= i < p.take(n).len() implies is_digit(#[trigger] p.take(n)[i]) by {
            if i > 0 {
                assert(p.drop_first().take(n - 1)[i - 1] == p.take(n)[i]);
            }
        }
    }
}

/// `digits_len` is the number of leading digits.
pub proof fn lemma_digits_len_is(p: Seq<char>, n: int)
    requires
        0 <= n <= p.len(),
        all_digits(p.take(n)),
        n < p.len() ==> !is_digit(p[n]),
    ensures
        digits_len(p) == n,
    decreases p.len(),
{
    lemma_digits_len(p);
    let m = digits_len(p);
    if m < n {
        assert(p.take(n)[m] == p[m]);
    }
    if n < m {
        assert(p.take(m)[n] == p[n]);
    }
}

/// A release is newer than its prereleases: a version whose last part is a number is newer than
/// the same version with a suffix on that number.
pub proof fn law_release_newer_than_prerelease(v: Seq<char>, suffix: Seq<char>)
    requires
        all_digits(split_char(v, '.').last()),
        suffix.len() > 0,
        !is_digit(suffix[0]),
        !suffix.contains('.'),
    ensures
        is_newer(v, v + suffix),
        !is_newer(v + suffix, v),
{
    let w = v + suffix;
    let pv = split_char(v, '.');
    let pw = split_char(w, '.');
    lemma_split_append(v, suffix);
    let k = pv.len() - 1;
    let p = pv[k];
    let q = p + suffix;
    assert(pw[k] == q);
    assert(p.take(p.len() as int) =~= p);
    lemma_digits_len_is(p, p.len() as int);
    assert(q.take(p.len() as int) =~= p);
    assert(q[p.len() as int] == suffix[0]);
    lemma_digits_len_is(q, p.len() as int);
    assert(part_count(v, w) == k + 1);
    lemma_newer_skip(v, w, 0, k, k + 1);
    assert(newer_from(v, w, k, k + 1));
    law_newer_asymmetric(v, w);
}

/// Parts that are the same decide nothing.
proof fn lemma_newer_skip(a: Seq<char>, b: Seq<char>, i: int, k: int, n: int)
    requires
        0 <= i <= k <= n,
        forall|j: int| i <= j < k ==> #[trigger] split_char(a, '.')[j] == split_char(b, '.')[j],
        k <= split_char(a, '.').len(),
        k <= split_char(b, '.').len(),
    ensures
        newer_from(a, b, i, n) == newer_from(a, b, k, n),
    decreases k - i,
{
    if i < k {
        assert(split_char(a, '.')[i] == split_char(b, '.')[i]);
        lemma_newer_skip(a, b, i + 1, k, n);
    }
}

/// What a part that starts with the digits `d` counts as.
proof fn lemma_part_key(p: Seq<char>, d: Seq<char>, tail: Seq<char>)
    requires
        p == d + tail,
        all_digits(d),
        tail.len() > 0 ==> !is_digit(tail[0]),
        digits_value(d) <= u64::MAX,
    ensures
        part_key(p) == (digits_value(d), tail.len() > 0),
{
    let n = d.len() as int;
    assert(p.take(n) =~= d);
    if tail.len() > 0 {
        assert(p[n] == tail[0]);
    }
    lemma_digits_len_is(p, n);
}

/// A number that is too large for 64 bits counts as zero.
pub proof fn law_too_large_counts_as_zero(
    a: Seq<char>,
    b: Seq<char>,
    i: int,
    x: Seq<char>,
    y: Seq<char>,
)
    requires
        0 <= i < split_char(a, '.').len(),
        i < split_char(b, '.').len(),
        forall|j: int|
            0 <= j < i ==> #[trigger] split_char(a, '.')[j] == split_char(b, '.')[j],
        split_char(a, '.')[i] == x,
        split_char(b, '.')[i] == y,
        all_digits(x),
        all_digits(y),
        digits_value(x) > u64::MAX,
        0 < digits_value(y) <= u64::MAX,
    ensures
        is_newer(b, a),
        !is_newer(a, b),
{
    let none = Seq::<char>::empty();
    let n = part_count(a, b);
    assert(x.take(x.len() as int) =~= x);
    lemma_digits_len_is(x, x.len() as int);
    assert(y + none =~= y);
    lemma_part_key(y, y, none);
    assert forall|j: int| 0 <= j < i implies #[trigger] split_char(b, '.')[j] == split_char(
        a,
        '.',
    )[j] by {}
    lemma_newer_skip(b, a, 0, i, n);
    assert(part_count(b, a) == n);
    assert(newer_from(b, a, i, n));
    law_newer_asymmetric(b, a);
}

/// The first part at which two versions differ decides: where all parts before the part `i` are
/// the same, and the part `i` is the number `x` in the one and the number `y` in the other, written
/// in decimal, the version with the greater number is the newer one.
pub proof fn law_greater_number_is_newer(
    a: Seq<char>,
    b: Seq<char>,
    i: int,
    x: nat,
    y: nat,
)
    requires
        0 <= i < split_char(a, '.').len(),
        i < split_char(b, '.').len(),
        forall|j: int|
            0 <= j < i ==> #[trigger] split_char(a, '.')[j] == split_char(b, '.')[j],
        split_char(a, '.')[i] == decimal(x),
        split_char(b, '.')[i] == decimal(y),
        y < x <= u64::MAX,
    ensures
        is_newer(a, b),
        !is_newer(b, a),
{
    let none = Seq::<char>::empty();
    lemma_decimal(x);
    lemma_decimal(y);
    assert(decimal(x) + none =~= decimal(x));
    assert(decimal(y) + none =~= decimal(y));
    law_first_difference_decides(a, b, i, decimal(x), none, decimal(y), none);
}

/// The first part at which two versions differ decides, whatever comes behind it: the greater of
/// the numbers that the parts start with, and at the same number the part that has nothing behind
/// its number.
pub proof fn law_first_difference_decides(
    a: Seq<char>,
    b: Seq<char>,
    i: int,
    x: Seq<char>,
    x_tail: Seq<char>,
    y: Seq<char>,
    y_tail: Seq<char>,
)
    requires
        0 <= i < split_char(a, '.').len(),
        i < split_char(b, '.').len(),
        forall|j: int|
            0 <= j < i ==> #[trigger] split_char(a, '.')[j] == split_char(b, '.')[j],
        split_char(a, '.')[i] == x + x_tail,
        split_char(b, '.')[i] == y + y_tail,
        all_digits(x),
        all_digits(y),
        x_tail.len() > 0 ==> !is_digit(x_tail[0]),
        y_tail.len() > 0 ==> !is_digit(y_tail[0]),
        digits_value(x) <= u64::MAX,
        digits_value(y) <= u64::MAX,
    ensures
        digits_value(x) > digits_value(y) ==> is_newer(a, b) && !is_newer(b, a),
        digits_value(x) == digits_value(y) && x_tail.len() == 0 && y_tail.len() > 0 ==> is_newer(
            a,
            b,
        ) && !is_newer(b, a),
{
    lemma_part_key(split_char(a, '.')[i], x, x_tail);
    lemma_part_key(split_char(b, '.')[i], y, y_tail);
    let n = part_count(a, b);
    lemma_newer_skip(a, b, 0, i, n);
    assert(newer_from(a, b, i, n) == (if key_at(a, i) == key_at(b, i) {
        newer_from(a, b, i + 1, n)
    } else {
        key_newer(key_at(a, i), key_at(b, i))
    }));
    if is_newer(a, b) {
        law_newer_asymmetric(a, b);
    }
}

/// Versions whose parts start with the same numbers, and have something behind them at the same
/// places, rank alike.
pub proof fn law_same_numbers_rank_alike(
    a: Seq<char>,
    b: Seq<char>,
    heads_a: Seq<Seq<char>>,
    heads_b: Seq<Seq<char>>,
    tails_a: Seq<Seq<char>>,
    tails_b: Seq<Seq<char>>,
)
    requires
        are_parts(split_char(a, '.'), heads_a, tails_a),
        are_parts(split_char(b, '.'), heads_b, tails_b),
        split_char(a, '.').len() == split_char(b, '.').len(),
        forall|j: int|
            0 <= j < heads_a.len() ==> digits_value(#[trigger] heads_a[j]) == digits_value(
                heads_b[j],
            ) && (tails_a[j].len() == 0) == (tails_b[j].len() == 0),
    ensures
        !is_newer(a, b),
        !is_newer(b, a),
{
    let n = part_count(a, b);
    assert forall|j: int| 0 <= j < n implies #[trigger] key_at(a, j) == key_at(b, j) by {
        lemma_part_key(split_char(a, '.')[j], heads_a[j], tails_a[j]);
        lemma_part_key(split_char(b, '.')[j], heads_b[j], tails_b[j]);
    }
    lemma_newer_same(a, b, 0, n);
    lemma_newer_same(b, a, 0, n);
}

/// Whether each of the parts is digits, of a number within 64 bits, and something behind them that
/// starts with no digit.
pub open spec fn are_parts(
    parts: Seq<Seq<char>>,
    heads: Seq<Seq<char>>,
    tails: Seq<Seq<char>>,
) -> bool {
    &&& heads.len() == parts.len()
    &&& tails.len() == parts.len()
    &&& forall|j: int|
        0 <= j < parts.len() ==> {
            &&& #[trigger] parts[j] == heads[j] + tails[j]
            &&& all_digits(heads[j])
            &&& digits_value(heads[j]) <= u64::MAX
            &&& tails[j].len() > 0 ==> !is_digit(tails[j][0])
        }
}

/// Parts that count alike decide nothing.
proof fn lemma_newer_same(a: Seq<char>, b: Seq<char>, i: int, n: int)
    requires
        0 <= i,
        forall|j: int| i <= j < n ==> #[trigger] key_at(a, j) == key_at(b, j),
    ensures
        !newer_from(a, b, i, n),
    decreases n - i,
{
    if i < n {
        assert(key_at(a, i) == key_at(b, i));
        lemma_newer_same(a, b, i + 1, n);
    }
}

/// The parts of a version with one more part.
proof fn lemma_split_more(v: Seq<char>, t: Seq<char>)
    requires
        !t.contains('.'),
    ensures
        split_char(v + "."@ + t, '.') == split_char(v, '.').push(t),
    decreases v.len(),
{
    reveal_strlit(".");
    let w = v + "."@ + t;
    lemma_find_char(v, '.');
    lemma_find_char(t, '.');
    match find_char(v, '.') {
        Some(i) => {
            assert(w[i] == '.');
            assert forall|j: int| 0 <= j < i implies w[j] != '.' by {
                assert(w[j] == v[j]);
            }
            lemma_find_char_is(w, '.', i);
            assert(w.take(i) =~= v.take(i));
            assert(w.skip(i + 1) =~= v.skip(i + 1) + "."@ + t);
            lemma_split_more(v.skip(i + 1), t);
            let rest = split_char(v.skip(i + 1), '.');
            assert(seq![v.take(i)] + rest.push(t) =~= (seq![v.take(i)] + rest).push(t));
        },
        None => {
            let k = v.len() as int;
            assert(w[k] == '.');
            assert forall|j: int| 0 <= j < k implies w[j] != '.' by {
                assert(w[j] == v[j]);
            }
            lemma_find_char_is(w, '.', k);
            assert(w.take(k) =~= v);
            assert(w.skip(k + 1) =~= t);
            if let Some(j) = find_char(t, '.') {
                assert(t.contains(t[j]));
            }
            assert(split_char(t, '.') =~= seq![t]);
            assert(seq![v] + seq![t] =~= seq![v].push(t));
        },
    }
}

/// A further part makes a version newer where its number is not zero; a zero changes nothing, and
/// a prerelease of zero is older.
pub proof fn law_further_part(v: Seq<char>, d: Seq<char>, tail: Seq<char>)
    requires
        all_digits(d),
        digits_value(d) <= u64::MAX,
        !tail.contains('.'),
        tail.len() > 0 ==> !is_digit(tail[0]),
    ensures
        is_newer(v + "."@ + (d + tail), v) == (digits_value(d) > 0),
        is_newer(v, v + "."@ + (d + tail)) == (digits_value(d) == 0 && tail.len() > 0),
{
    let t = d + tail;
    assert(!t.contains('.')) by {
        if t.contains('.') {
            let j = choose|j: int| 0 <= j < t.len() && t[j] == '.';
            if j < d.len() {
                assert(is_digit(d[j]));
            } else {
                assert(tail.contains(tail[j - d.len()]));
            }
        }
    }
    let w = v + "."@ + t;
    lemma_split_more(v, t);
    let k = split_char(v, '.').len() as int;
    assert(split_char(w, '.')[k] == t);
    lemma_part_key(t, d, tail);
    assert forall|j: int| 0 <= j < k implies #[trigger] split_char(w, '.')[j] == split_char(
        v,
        '.',
    )[j] by {}
    lemma_newer_skip(w, v, 0, k, k + 1);
    assert forall|j: int| 0 <= j < k implies #[trigger] split_char(v, '.')[j] == split_char(
        w,
        '.',
    )[j] by {}
    lemma_newer_skip(v, w, 0, k, k + 1);
    assert(key_at(w, k) == (digits_value(d), tail.len() > 0));
    assert(key_at(v, k) == (0nat, false));
    assert(part_count(w, v) == k + 1 && part_count(v, w) == k + 1);
    assert(!newer_from(w, v, k + 1, k + 1));
    assert(!newer_from(v, w, k + 1, k + 1));
}

/// What the part `p` of a version counts as.
fn part_of(p: &[char]) -> (r: (u64, bool))
    ensures
        (r.0 as nat, r.1) == part_key(p@),
{
    let mut n: usize = 0;
    while n < p.len() && p[n] >= '0' && p[n] <= '9'
        invariant
            n <= p@.len(),
            forall|j: int| 0 <= j < n ==> is_digit(#[trigger] p@[j]),
        decreases p@.len() - n,
    {
        n += 1;
    }
    let digits = slice_subrange(p, 0, n);
    assert(digits@ =~= p@.take(n as int));
    proof {
        lemma_digits_len_is(p@, n as int);
    }
    let v: u64 = match digits_up_to(digits, 18446744073709551615) {
        Some(v) => v,
        None => 0,
    };
    (v, n < p.len())
}

/// What the part `i` counts as, and `0` where there is no such part.
fn part_or_zero(parts: &Vec<&[char]>, i: usize) -> (r: (u64, bool))
    ensures
        (r.0 as nat, r.1) == (if i < parts@.len() {
            part_key(parts@[i as int]@)
        } else {
            (0, false)
        }),
{
    if i < parts.len() {
        part_of(parts[i])
    } else {
        (0, false)
    }
}

/// Compare two version strings: whether `a` is newer than `b`.
///
/// Parts are separated by dots and compared from left to right by the numbers that they start
/// with. A part with something behind its number ("0beta1") is a prerelease, older than the same
/// number without ("0"), so "0.45.0" is newer than "0.45.0beta1".
pub fn version_newer(a: &str, b: &str) -> (r: bool)
    ensures
        r == is_newer(a@, b@),
{
    let ca = chars_of(a);
    let cb = chars_of(b);
    let parts_a = split_at_char(ca.as_slice(), '.');
    let parts_b = split_at_char(cb.as_slice(), '.');
    let n: usize = if parts_a.len() >= parts_b.len() {
        parts_a.len()
    } else {
        parts_b.len()
    };
    assert(runs(parts_a@).len() == parts_a@.len());
    assert(runs(parts_b@).len() == parts_b@.len());
    let mut i: usize = 0;
    while i < n
        invariant
            i <= n == part_count(a@, b@),
            runs(parts_a@) == split_char(a@, '.'),
            runs(parts_b@) == split_char(b@, '.'),
            is_newer(a@, b@) == newer_from(a@, b@, i as int, n as int),
        decreases n - i,
    {
        let (na, pre_a) = part_or_zero(&parts_a, i);
        let (nb, pre_b) = part_or_zero(&parts_b, i);
        assert(key_at(a@, i as int) == (na as nat, pre_a)) by {
            if i < parts_a@.len() {
                assert(runs(parts_a@)[i as int] == parts_a@[i as int]@);
            }
        }
        assert(key_at(b@, i as int) == (nb as nat, pre_b)) by {
            if i < parts_b@.len() {
                assert(runs(parts_b@)[i as int] == parts_b@[i as int]@);
            }
        }
        if na > nb {
            return true;
        }
        if na < nb {
            return false;
        }
        if pre_a && !pre_b {
            return false;
        }
        if !pre_a && pre_b {
            return true;
        }
        i += 1;
    }
    false
}

} // verus!
