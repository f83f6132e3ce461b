//! The order of texts, and sorting by it.

use vstd::prelude::*;

use crate::text::{chars_of, texts};

verus! {

broadcast use vstd::seq_lib::group_seq_properties;

/// Whether `a` comes before `b`: at the first place where they differ, `a` has the lower code
/// point, or ends there.
pub open spec fn precedes(a: Seq<char>, b: Seq<char>) -> bool
    decreases a.len(),
{
    if b.len() == 0 {
        false
    } else if a.len() == 0 {
        true
    } else if a[0] != b[0] {
        a[0] < b[0]
    } else {
        precedes(a.drop_first(), b.drop_first())
    }
}

/// Whether each text comes no later than those behind it.
pub open spec fn is_sorted(s: Seq<Seq<char>>) -> bool {
    forall|i: int, j: int| 0 <= i < j < s.len() ==> !precedes(#[trigger] s[j], #[trigger] s[i])
}

/// Whether each text comes before those behind it.
pub open spec fn strictly_sorted(s: Seq<Seq<char>>) -> bool {
    forall|i: int, j: int| 0 <= i < j < s.len() ==> precedes(#[trigger] s[i], #[trigger] s[j])
}

/// `s` with `x` behind the last text that does not come after it.
pub open spec fn insert_text(s: Seq<Seq<char>>, x: Seq<char>) -> Seq<Seq<char>>
    decreases s.len(),
{
    if s.len() > 0 && precedes(x, s.last()) {
        insert_text(s.drop_last(), x).push(s.last())
    } else {
        s.push(x)
    }
}

/// The texts of `s` in order.
pub open spec fn sort_texts(s: Seq<Seq<char>>) -> Seq<Seq<char>>
    decreases s.len(),
{
    if s.len() == 0 {
        s
    } else {
        insert_text(sort_texts(s.drop_last()), s.last())
    }
}

/// No text comes before itself.
pub proof fn law_precedes_irreflexive(a: Seq<char>)
    ensures
        !precedes(a, a),
    decreases a.len(),
{
    if a.len() > 0 {
        law_precedes_irreflexive(a.drop_first());
    }
}

/// Of two different texts one comes before the other.
pub proof fn law_precedes_total(a: Seq<char>, b: Seq<char>)
    ensures
        a == b || precedes(a, b) || precedes(b, a),
    decreases a.len(),
{
    if a.len() > 0 && b.len() > 0 && a[0] == b[0] {
        law_precedes_total(a.drop_first(), b.drop_first());
        if a.drop_first() == b.drop_first() {
            assert(a =~= seq![a[0]] + a.drop_first());
            assert(b =~= seq![b[0]] + b.drop_first());
        }
    } else if a.len() == 0 && b.len() == 0 {
        assert(a =~= b);
    }
}

/// What comes before a text that comes before another, comes before that other.
pub proof fn law_precedes_transitive(a: Seq<char>, b: Seq<char>, c: Seq<char>)
    requires
        precedes(a, b),
        precedes(b, c),
    ensures
        precedes(a, c),
    decreases a.len(),
{
    if a.len() > 0 && a[0] == b[0] && b[0] == c[0] {
        law_precedes_transitive(a.drop_first(), b.drop_first(), c.drop_first());
    }
}

/// Two texts cannot each come before the other.
pub proof fn lemma_precedes_asymmetric(a: Seq<char>, b: Seq<char>)
    requires
        precedes(a, b),
    ensures
        !precedes(b, a),
{
    if precedes(b, a) {
        law_precedes_transitive(a, b, a);
        law_precedes_irreflexive(a);
    }
}

/// What `insert_text` does to an ordered sequence.
pub proof fn lemma_insert_text(s: Seq<Seq<char>>, x: Seq<char>)
    requires
        is_sorted(s),
    ensures
        is_sorted(insert_text(s, x)),
        insert_text(s, x).to_multiset() == s.to_multiset().insert(x),
        insert_text(s, x).len() == s.len() + 1,
    decreases s.len(),
{
    broadcast use vstd::seq_lib::group_to_multiset_ensures;

    let r = insert_text(s, x);
    if s.len() > 0 && precedes(x, s.last()) {
        let front = s.drop_last();
        lemma_insert_text(front, x);
        let low = insert_text(front, x);
        assert(r == low.push(s.last()));
        assert(s =~= front.push(s.last()));
        assert forall|i: int| 0 <= i < low.len() implies !precedes(s.last(), #[trigger] low[i]) by {
            assert(low.to_multiset().contains(low[i]));
            assert(front.to_multiset().insert(x).contains(low[i]));
            if low[i] == x {
                lemma_precedes_asymmetric(x, s.last());
            } else {
                assert(front.to_multiset().contains(low[i]));
                assert(front.contains(low[i]));
                let k = choose|k: int| 0 <= k < front.len() && front[k] == low[i];
                assert(s[k] == low[i]);
                assert(!precedes(s[s.len() - 1], s[k]));
            }
        }
        assert(is_sorted(r));
        assert(r.to_multiset() =~= s.to_multiset().insert(x));
    } else {
        assert forall|i: int| 0 <= i < s.len() implies !precedes(x, #[trigger] s[i]) by {
            if precedes(x, s[i]) && i < s.len() - 1 {
                law_precedes_total(s[i], s.last());
                assert(!precedes(s.last(), s[i]));
                if s[i] != s.last() {
                    law_precedes_transitive(x, s[i], s.last());
                }
            }
        }
    }
}

/// `sort_texts` gives an ordered sequence of the same texts, each as often as before.
pub proof fn lemma_sort_texts(s: Seq<Seq<char>>)
    ensures
        is_sorted(sort_texts(s)),
        sort_texts(s).to_multiset() == s.to_multiset(),
        sort_texts(s).len() == s.len(),
        forall|x: Seq<char>| sort_texts(s).contains(x) <==> s.contains(x),
    decreases s.len(),
{
    broadcast use vstd::seq_lib::group_to_multiset_ensures;

    if s.len() > 0 {
        lemma_sort_texts(s.drop_last());
        lemma_insert_text(sort_texts(s.drop_last()), s.last());
        assert(s =~= s.drop_last().push(s.last()));
        assert(sort_texts(s).to_multiset() =~= s.to_multiset());
    }
    assert forall|x: Seq<char>| sort_texts(s).contains(x) <==> s.contains(x) by {
        assert(sort_texts(s).to_multiset().contains(x) <==> s.to_multiset().contains(x));
    }
}

/// Sorting texts of which no two are the same gives a strictly increasing sequence.
pub proof fn lemma_sort_distinct(s: Seq<Seq<char>>)
    requires
        s.no_duplicates(),
    ensures
        strictly_sorted(sort_texts(s)),
{
    lemma_sort_texts(s);
    s.lemma_multiset_has_no_duplicates();
    sort_texts(s).lemma_multiset_has_no_duplicates_conv();
    let r = sort_texts(s);
    assert forall|i: int, j: int| 0 <= i < j < r.len() implies precedes(
        #[trigger] r[i],
        #[trigger] r[j],
    ) by {
        law_precedes_total(r[i], r[j]);
    }
}

/// Whether `a` comes before `b`.
pub fn comes_before(a: &str, b: &str) -> (r: bool)
    ensures
        r == precedes(a@, b@),
{
    let x = chars_of(a);
    let y = chars_of(b);
    let mut i: usize = 0;
    assert(x@.skip(0) =~= x@);
    assert(y@.skip(0) =~= y@);
    loop
        invariant
            i <= x@.len(),
            i <= y@.len(),
            precedes(x@, y@) == precedes(x@.skip(i as int), y@.skip(i as int)),
            x@ == a@,
            y@ == b@,
        decreases x@.len() - i,
    {
        if i == y.len() {
            return false;
        }
        if i == x.len() {
            return true;
        }
        if x[i] != y[i] {
            return x[i] < y[i];
        }
        assert(x@.skip(i as int).drop_first() =~= x@.skip(i + 1));
        assert(y@.skip(i as int).drop_first() =~= y@.skip(i + 1));
        i += 1;
    }
}

/// `insert_text` puts the text at the place found by walking from the end.
pub proof fn lemma_insert_text_at(s: Seq<Seq<char>>, x: Seq<char>, k: int)
    requires
        0 <= k <= s.len(),
        forall|j: int| k <= j < s.len() ==> precedes(x, #[trigger] s[j]),
        k == 0 || !precedes(x, s[k - 1]),
    ensures
        insert_text(s, x) == s.insert(k, x),
    decreases s.len(),
{
    if k < s.len() {
        assert(precedes(x, s.last()));
        assert forall|j: int| k <= j < s.drop_last().len() implies precedes(
            x,
            #[trigger] s.drop_last()[j],
        ) by {
            assert(s.drop_last()[j] == s[j]);
        }
        lemma_insert_text_at(s.drop_last(), x, k);
        assert(s.drop_last().insert(k, x).push(s.last()) =~= s.insert(k, x));
    } else {
        assert(s.insert(k, x) =~= s.push(x));
    }
}

/// The strings of `v` in order.
pub fn sorted(v: &Vec<String>) -> (r: Vec<String>)
    ensures
        texts(r@) == sort_texts(texts(v@)),
{
    let mut out: Vec<String> = Vec::new();
    let mut i: usize = 0;
    let ghost all = texts(v@);
    assert(texts(out@) =~= sort_texts(all.take(0)));
    while i < v.len()
        invariant
            i <= v@.len(),
            all == texts(v@),
            texts(out@) == sort_texts(all.take(i as int)),
        decreases v@.len() - i,
    {
        let x: String = v[i].clone();
        let mut k: usize = out.len();
        while k > 0 && comes_before(x.as_str(), out[k - 1].as_str())
            invariant
                k <= out@.len(),
                forall|j: int| k <= j < out@.len() ==> precedes(x@, #[trigger] texts(out@)[j]),
            decreases k,
        {
            k -= 1;
        }
        let ghost before = texts(out@);
        proof {
            lemma_insert_text_at(before, x@, k as int);
        }
        out.insert(k, x);
        assert(texts(out@) =~= before.insert(k as int, x@));
        i += 1;
        assert(all.take(i as int).drop_last() =~= all.take(i - 1));
        assert(all.take(i as int).last() == x@);
    }
    assert(all.take(all.len() as int) =~= all);
    out
}

/// Two sequences in strict order with the same texts are the same.
pub proof fn law_sorted_set_is_unique(a: Seq<Seq<char>>, b: Seq<Seq<char>>)
    requires
        strictly_sorted(a),
        strictly_sorted(b),
        forall|n: Seq<char>| #[trigger] a.contains(n) <==> b.contains(n),
    ensures
        a == b,
    decreases a.len(),
{
    if a.len() == 0 {
        if b.len() > 0 {
            assert(b.contains(b[0]));
            assert(a.contains(b[0]));
        }
    } else {
        assert(a.contains(a.last()));
        let k = choose|k: int| 0 <= k < b.len() && b[k] == a.last();
        assert(b.contains(b.last()));
        assert(a.contains(b.last()));
        let m = choose|m: int| 0 <= m < a.len() && a[m] == b.last();
        if k < b.len() - 1 {
            assert(precedes(b[k], b[b.len() - 1]));
            if m < a.len() - 1 {
                assert(precedes(a[m], a[a.len() - 1]));
                lemma_precedes_asymmetric(a.last(), b.last());
            } else {
                law_precedes_irreflexive(a.last());
            }
        }
        let x = a.drop_last();
        let y = b.drop_last();
        assert forall|n: Seq<char>| #[trigger] x.contains(n) <==> y.contains(n) by {
            if x.contains(n) {
                let i = choose|i: int| 0 <= i < x.len() && x[i] == n;
                assert(a[i] == n);
                assert(a.contains(n));
                let j = choose|j: int| 0 <= j < b.len() && b[j] == n;
                if j == b.len() - 1 {
                    assert(precedes(a[i], a[a.len() - 1]));
                    law_precedes_irreflexive(n);
                }
                assert(y[j] == n);
            }
            if y.contains(n) {
                let j = choose|j: int| 0 <= j < y.len() && y[j] == n;
                assert(b[j] == n);
                assert(b.contains(n));
                assert(a.contains(n));
                let i = choose|i: int| 0 <= i < a.len() && a[i] == n;
                if i == a.len() - 1 {
                    assert(precedes(b[j], b[b.len() - 1]));
                    law_precedes_irreflexive(n);
                }
                assert(x[i] == n);
            }
        }
        assert(strictly_sorted(x)) by {
            assert forall|i: int, j: int| 0 <= i < j < x.len() implies precedes(
                #[trigger] x[i],
                #[trigger] x[j],
            ) by {
                assert(precedes(a[i], a[j]));
            }
        }
        assert(strictly_sorted(y)) by {
            assert forall|i: int, j: int| 0 <= i < j < y.len() implies precedes(
                #[trigger] y[i],
                #[trigger] y[j],
            ) by {
                assert(precedes(b[i], b[j]));
            }
        }
        law_sorted_set_is_unique(x, y);
        assert(a =~= x.push(a.last()));
        assert(b =~= y.push(b.last()));
    }
}

/// Texts that each stand once, in order.
pub fn sorted_set(v: &Vec<String>) -> (r: Vec<String>)
    requires
        texts(v@).no_duplicates(),
    ensures
        strictly_sorted(texts(r@)),
        forall|n: Seq<char>| #[trigger] texts(r@).contains(n) <==> texts(v@).contains(n),
{
    proof {
        lemma_sort_distinct(texts(v@));
        lemma_sort_texts(texts(v@));
    }
    sorted(v)
}

/// At the first place where two texts differ the one with the lower code point comes first, and a
/// text comes before every longer one that starts with it.
pub proof fn law_first_difference_orders(
    front: Seq<char>,
    a: Seq<char>,
    b: Seq<char>,
    x: char,
    y: char,
)
    ensures
        x < y ==> precedes(front.push(x) + a, front.push(y) + b),
        precedes(front, front.push(x) + a),
        !precedes(front.push(x) + a, front),
    decreases front.len(),
{
    let s = front.push(x) + a;
    let t = front.push(y) + b;
    if front.len() > 0 {
        let less = front.drop_first();
        law_first_difference_orders(less, a, b, x, y);
        assert(s.drop_first() =~= less.push(x) + a);
        assert(t.drop_first() =~= less.push(y) + b);
        assert(s[0] == front[0] && t[0] == front[0]);
    } else {
        assert(s[0] == x && t[0] == y);
    }
}

} // verus!
