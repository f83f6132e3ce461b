//! Texts that are made of lines.

use vstd::prelude::*;

use crate::text::{
    chars_of, find_char, join, joined, lemma_find_char, lemma_find_char_is, lines, lines_of,
    is_white, lemma_trim_start_len, lemma_word_len, lemma_words_trimmed, strings_of, texts,
    trim, trim_end, trim_start, without_cr, word_len, words,
};

verus! {

broadcast use vstd::seq_lib::group_seq_properties;

/// Whether a text can be a line that reads back as itself.
pub open spec fn is_line(s: Seq<char>) -> bool {
    !s.contains('\n') && (s.len() > 0 ==> s.last() != '\r')
}

/// A join, taken apart at its front.
pub proof fn lemma_join_front(ls: Seq<Seq<char>>, sep: Seq<char>)
    requires
        ls.len() >= 2,
    ensures
        join(ls, sep) == ls[0] + sep + join(ls.drop_first(), sep),
    decreases ls.len(),
{
    if ls.len() == 2 {
        assert(ls.drop_last() =~= seq![ls[0]]);
        assert(ls.drop_first() =~= seq![ls[1]]);
        assert(join(ls.drop_last(), sep) == ls[0]);
        assert(join(ls.drop_first(), sep) == ls[1]);
        assert(join(ls, sep) =~= ls[0] + sep + join(ls.drop_first(), sep));
    } else {
        lemma_join_front(ls.drop_last(), sep);
        assert(ls.drop_last().drop_first() =~= ls.drop_first().drop_last());
        assert(join(ls, sep) =~= ls[0] + sep + join(ls.drop_first(), sep));
    }
}

/// The lines of a line, a line end and more.
pub proof fn lemma_lines_front(a: Seq<char>, rest: Seq<char>)
    requires
        !a.contains('\n'),
    ensures
        lines(a.push('\n') + rest) == seq![without_cr(a)] + lines(rest),
{
    let s = a.push('\n') + rest;
    let k = a.len() as int;
    assert(s[k] == '\n');
    assert forall|j: int| 0 <= j < k implies s[j] != '\n' by {
        assert(s[j] == a[j]);
        assert(a.contains(a[j]));
    }
    lemma_find_char_is(s, '\n', k);
    assert(s.take(k) =~= a);
    assert(s.skip(k + 1) =~= rest);
}

/// How lines read back that line ends follow, the last one too where `ended`: a carriage return in
/// front of a line end belongs to it.
pub open spec fn reread(ls: Seq<Seq<char>>, ended: bool) -> Seq<Seq<char>> {
    Seq::new(
        ls.len(),
        |i: int|
            if ended || i < ls.len() - 1 {
                without_cr(ls[i])
            } else {
                ls[i]
            },
    )
}

/// What lines joined by line ends, with one at the end, read back as.
pub proof fn lemma_lines_of_join_ended(ls: Seq<Seq<char>>)
    requires
        ls.len() > 0,
        forall|i: int| 0 <= i < ls.len() ==> !(#[trigger] ls[i]).contains('\n'),
    ensures
        lines(join(ls, "\n"@).push('\n')) == reread(ls, true),
    decreases ls.len(),
{
    reveal_strlit("\n");
    assert("\n"@ =~= seq!['\n']);
    let empty = Seq::<char>::empty();
    assert(!ls[0].contains('\n'));
    if ls.len() == 1 {
        assert(join(ls, "\n"@).push('\n') =~= ls[0].push('\n') + empty);
        lemma_lines_front(ls[0], empty);
        assert(lines(empty) =~= Seq::<Seq<char>>::empty());
        assert(reread(ls, true) =~= seq![without_cr(ls[0])] + lines(empty));
    } else {
        let tail = ls.drop_first();
        lemma_join_front(ls, "\n"@);
        assert forall|i: int| 0 <= i < tail.len() implies !(#[trigger] tail[i]).contains('\n') by {
            assert(tail[i] == ls[i + 1]);
        }
        lemma_lines_of_join_ended(tail);
        let rest = join(tail, "\n"@).push('\n');
        lemma_lines_front(ls[0], rest);
        assert(join(ls, "\n"@).push('\n') =~= ls[0].push('\n') + rest);
        assert(reread(ls, true) =~= seq![without_cr(ls[0])] + reread(tail, true));
    }
}

/// What lines joined by line ends, the last one not empty, read back as.
pub proof fn lemma_lines_of_join(ls: Seq<Seq<char>>)
    requires
        forall|i: int| 0 <= i < ls.len() ==> !(#[trigger] ls[i]).contains('\n'),
        ls.len() > 0 ==> ls.last().len() > 0,
    ensures
        lines(join(ls, "\n"@)) == reread(ls, false),
    decreases ls.len(),
{
    reveal_strlit("\n");
    assert("\n"@ =~= seq!['\n']);
    if ls.len() == 0 {
        assert(lines(join(ls, "\n"@)) =~= reread(ls, false));
    } else if ls.len() == 1 {
        assert(!ls[0].contains('\n'));
        lemma_find_char(ls[0], '\n');
        assert(lines(ls[0]) =~= seq![ls[0]]);
        assert(reread(ls, false) =~= seq![ls[0]]);
    } else {
        let tail = ls.drop_first();
        lemma_join_front(ls, "\n"@);
        assert forall|i: int| 0 <= i < tail.len() implies !(#[trigger] tail[i]).contains('\n') by {
            assert(tail[i] == ls[i + 1]);
        }
        lemma_lines_of_join(tail);
        assert(!ls[0].contains('\n'));
        let rest = join(tail, "\n"@);
        lemma_lines_front(ls[0], rest);
        assert(join(ls, "\n"@) =~= ls[0].push('\n') + rest);
        assert(reread(ls, false) =~= seq![without_cr(ls[0])] + reread(tail, false));
    }
}

/// What the lines of a text are like.
pub proof fn lemma_lines(s: Seq<char>)
    ensures
        forall|i: int| 0 <= i < lines(s).len() ==> !(#[trigger] lines(s)[i]).contains('\n'),
        s.len() > 0 ==> lines(s).len() > 0,
        s.len() == 0 ==> lines(s).len() == 0,
        s.len() > 0 && s.last() != '\n' ==> lines(s).last().len() > 0,
    decreases s.len(),
{
    lemma_find_char(s, '\n');
    match find_char(s, '\n') {
        Some(k) => {
            let rest = s.skip(k + 1);
            lemma_lines(rest);
            let first = without_cr(s.take(k));
            assert(!first.contains('\n')) by {
                if first.contains('\n') {
                    let j = choose|j: int| 0 <= j < first.len() && first[j] == '\n';
                    assert(s[j] == '\n');
                }
            }
            assert forall|i: int| 0 <= i < lines(s).len() implies !(
            #[trigger] lines(s)[i]).contains('\n') by {
                if i > 0 {
                    assert(lines(s)[i] == lines(rest)[i - 1]);
                }
            }
            if s.last() != '\n' {
                assert(rest.len() > 0);
                assert(rest.last() == s.last());
                assert(lines(s).last() == lines(rest).last());
            }
        },
        None => {
            if s.len() > 0 {
                assert(lines(s) =~= seq![s]);
                assert(!s.contains('\n'));
            }
        },
    }
}

/// Whether a text ends with a line end.
pub open spec fn is_ended(content: Seq<char>) -> bool {
    content.len() > 0 && content.last() == '\n'
}

/// The lines `ls` as a text that ends with a line end where `content` does.
pub open spec fn relined(content: Seq<char>, ls: Seq<Seq<char>>) -> Seq<char> {
    if is_ended(content) {
        join(ls, "\n"@).push('\n')
    } else {
        join(ls, "\n"@)
    }
}

/// The lines `ls` as a text that ends with a line end where `content` does.
pub fn reline(content: &str, ls: &Vec<String>) -> (r: String)
    ensures
        r@ == relined(content@, texts(ls@)),
{
    let text = chars_of(content);
    let mut r = joined(ls, "\n");
    if text.len() > 0 && text[text.len() - 1] == '\n' {
        r.push('\n');
    }
    r
}

/// The lines of `s`.
pub fn line_texts(s: &str) -> (r: Vec<String>)
    ensures
        texts(r@) == lines(s@),
{
    let text = chars_of(s);
    strings_of(&lines_of(text.as_slice()))
}

/// What a text made anew of lines reads back as, where none of them holds a line end and the last
/// one is not empty unless a line end follows it.
pub proof fn lemma_relined(content: Seq<char>, ls: Seq<Seq<char>>)
    requires
        forall|i: int| 0 <= i < ls.len() ==> !(#[trigger] ls[i]).contains('\n'),
        is_ended(content) ==> ls.len() > 0,
        is_ended(content) || ls.len() == 0 || ls.last().len() > 0,
    ensures
        lines(relined(content, ls)) == reread(ls, is_ended(content)),
{
    if is_ended(content) {
        lemma_lines_of_join_ended(ls);
    } else {
        lemma_lines_of_join(ls);
    }
}

/// A text made anew of lines has these lines, where each of them can be a line and the last one is
/// not empty unless a line end follows it.
pub proof fn law_lines_read_back(content: Seq<char>, ls: Seq<Seq<char>>)
    requires
        forall|i: int| 0 <= i < ls.len() ==> is_line(#[trigger] ls[i]),
        is_ended(content) ==> ls.len() > 0,
        is_ended(content) || ls.len() == 0 || ls.last().len() > 0,
    ensures
        lines(relined(content, ls)) == ls,
{
    lemma_relined(content, ls);
    assert(reread(ls, is_ended(content)) =~= ls);
}

// ---------------------------------------------------------------------------------------------
// Words
// ---------------------------------------------------------------------------------------------

/// Whether `s` is one word.
pub open spec fn is_word(s: Seq<char>) -> bool {
    s.len() > 0 && forall|i: int| 0 <= i < s.len() ==> !is_white(#[trigger] s[i])
}

/// The words of a word and more behind it.
pub proof fn lemma_word(s: Seq<char>, tail: Seq<char>)
    requires
        is_word(s),
        tail.len() == 0 || is_white(tail[0]),
    ensures
        words(s + tail) == seq![s] + words(tail),
        trim_start(s + tail) == s + tail,
{
    let t = s + tail;
    assert(t[0] == s[0]);
    assert(trim_start(t) == t);
    lemma_word_len(t);
    let k = word_len(t);
    assert(k == s.len()) by {
        if k < s.len() {
            assert(is_white(t[k]));
            assert(!is_white(s[k]));
        }
        if k > s.len() {
            assert(!is_white(t[s.len() as int]));
        }
    }
    assert(t.take(k) =~= s);
    assert(t.skip(k) =~= tail);
}

/// Words with blanks between them read back as these words.
pub proof fn law_words_read_back(ws: Seq<Seq<char>>)
    requires
        forall|i: int| 0 <= i < ws.len() ==> is_word(#[trigger] ws[i]),
    ensures
        words(join(ws, " "@)) == ws,
    decreases ws.len(),
{
    reveal_strlit(" ");
    let none = Seq::<char>::empty();
    assert(words(none) =~= Seq::<Seq<char>>::empty());
    if ws.len() == 0 {
        assert(words(join(ws, " "@)) =~= ws);
    } else if ws.len() == 1 {
        assert(is_word(ws[0]));
        assert(ws[0] + none =~= ws[0]);
        lemma_word(ws[0], none);
        assert(seq![ws[0]] + words(none) =~= ws);
    } else {
        let tail = ws.drop_first();
        assert forall|i: int| 0 <= i < tail.len() implies is_word(#[trigger] tail[i]) by {
            assert(tail[i] == ws[i + 1]);
        }
        law_words_read_back(tail);
        lemma_join_front(ws, " "@);
        let rest = join(tail, " "@);
        let gap = " "@ + rest;
        assert(is_word(ws[0]));
        assert(ws[0] + " "@ + rest =~= ws[0] + gap);
        lemma_word(ws[0], gap);
        lemma_words_of_gap(rest);
        assert(seq![ws[0]] + tail =~= ws);
    }
}

/// A blank in front changes no word.
proof fn lemma_words_of_gap(rest: Seq<char>)
    ensures
        words(" "@ + rest) == words(rest),
{
    reveal_strlit(" ");
    let gap = " "@ + rest;
    assert(gap.drop_first() =~= rest);
    assert(trim_start(gap) == trim_start(rest));
    lemma_words_trimmed(gap);
    lemma_words_trimmed(rest);
}

/// The words of two texts with white space between them.
pub proof fn lemma_words_between(a: Seq<char>, g: char, b: Seq<char>)
    requires
        is_white(g),
    ensures
        words(a.push(g) + b) == words(a) + words(b),
    decreases a.len(),
{
    let t = trim_start(a);
    lemma_trim_start_len(a);
    let gap = seq![g] + b;
    assert(gap.drop_first() =~= b);
    assert(trim_start(gap) == trim_start(b));
    lemma_words_trimmed(gap);
    lemma_words_trimmed(b);
    assert(a.push(g) + b =~= a + gap);
    if t.len() == 0 {
        lemma_trim_blank(a, gap);
        lemma_words_trimmed(a + gap);
        assert(words(a) + words(b) =~= words(b));
    } else {
        lemma_word_len(t);
        let n = word_len(t);
        let w = t.take(n);
        let rest = t.skip(n);
        lemma_trim_front(a, gap);
        assert(is_word(w));
        lemma_words_between(rest, g, b);
        let more = rest.push(g) + b;
        assert(t + gap =~= w + more);
        assert(more[0] == (if rest.len() > 0 {
            rest[0]
        } else {
            g
        }));
        lemma_word(w, more);
        lemma_words_trimmed(a + gap);
        assert(words(a) == seq![w] + words(rest));
        assert(seq![w] + (words(rest) + words(b)) =~= words(a) + words(b));
    }
}

/// The words of two texts with a blank between them are those of the one and those of the other.
pub proof fn law_words_add_up(a: Seq<char>, b: Seq<char>)
    ensures
        words(a + " "@ + b) == words(a) + words(b),
{
    reveal_strlit(" ");
    assert(a + " "@ + b =~= a.push(' ') + b);
    lemma_words_between(a, ' ', b);
}

/// White space at the ends of a text belongs to no word.
pub proof fn law_words_of_trimmed(s: Seq<char>)
    ensures
        words(trim(s)) == words(s),
{
    lemma_words_trimmed(s);
    lemma_words_of_trimmed_end(trim_start(s));
}

proof fn lemma_words_of_trimmed_end(s: Seq<char>)
    ensures
        words(trim_end(s)) == words(s),
    decreases s.len(),
{
    if s.len() > 0 && is_white(s.last()) {
        let front = s.drop_last();
        let none = Seq::<char>::empty();
        lemma_words_of_trimmed_end(front);
        lemma_words_between(front, s.last(), none);
        assert(front.push(s.last()) + none =~= s);
        assert(words(none) =~= Seq::<Seq<char>>::empty());
        assert(words(front) + words(none) =~= words(front));
    }
}

/// White space in front of a text, and more behind it.
proof fn lemma_trim_front(a: Seq<char>, more: Seq<char>)
    requires
        trim_start(a).len() > 0,
    ensures
        trim_start(a + more) == trim_start(a) + more,
    decreases a.len(),
{
    if a.len() > 0 && is_white(a[0]) {
        assert((a + more).drop_first() =~= a.drop_first() + more);
        lemma_trim_front(a.drop_first(), more);
    }
}

/// White space alone, and more behind it.
proof fn lemma_trim_blank(a: Seq<char>, more: Seq<char>)
    requires
        trim_start(a).len() == 0,
    ensures
        trim_start(a + more) == trim_start(more),
    decreases a.len(),
{
    if a.len() > 0 {
        assert((a + more).drop_first() =~= a.drop_first() + more);
        lemma_trim_blank(a.drop_first(), more);
    } else {
        assert(a + more =~= more);
    }
}

} // verus!
