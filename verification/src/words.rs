//! Splitting text into whitespace-separated words and joining them back with
//! single spaces (the meaning of `split_whitespace` followed by `join(" ")`).
use vstd::prelude::*;
use crate::text::push_char;

verus! {

/// Unicode `White_Space`, the set of characters that `char::is_whitespace`
/// accepts.
pub open spec fn is_space(c: char) -> bool {
    ||| '\t' <= c <= '\r'
    ||| c == ' '
    ||| c == '\u{85}'
    ||| c == '\u{a0}'
    ||| c == '\u{1680}'
    ||| '\u{2000}' <= c <= '\u{200a}'
    ||| c == '\u{2028}'
    ||| c == '\u{2029}'
    ||| c == '\u{202f}'
    ||| c == '\u{205f}'
    ||| c == '\u{3000}'
}

/// Whether `c` is a Unicode whitespace character.
pub fn is_white_space(c: char) -> (b: bool)
    ensures
        b == is_space(c),
{
    ('\t' <= c && c <= '\r') || c == ' ' || c == '\u{85}' || c == '\u{a0}' || c == '\u{1680}'
        || ('\u{2000}' <= c && c <= '\u{200a}') || c == '\u{2028}' || c == '\u{2029}' || c
        == '\u{202f}' || c == '\u{205f}' || c == '\u{3000}'
}

/// Length of the run of non-whitespace characters that `s` starts with.
pub open spec fn word_len(s: Seq<char>) -> nat
    decreases s.len(),
{
    if s.len() == 0 || is_space(s[0]) {
        0
    } else {
        1 + word_len(s.skip(1))
    }
}

/// A word is no longer than the text it starts, and not empty where the text
/// starts with a non-whitespace character.
pub proof fn lemma_word_len_bounded(s: Seq<char>)
    ensures
        word_len(s) <= s.len(),
        s.len() > 0 && !is_space(s[0]) ==> word_len(s) >= 1,
    decreases s.len(),
{
    if s.len() > 0 && !is_space(s[0]) {
        lemma_word_len_bounded(s.skip(1));
    }
}

/// The maximal runs of non-whitespace characters of `s`, in order.
pub open spec fn words(s: Seq<char>) -> Seq<Seq<char>>
    decreases s.len(),
{
    if s.len() == 0 {
        seq![]
    } else if is_space(s[0]) {
        words(s.skip(1))
    } else {
        proof {
            lemma_word_len_bounded(s);
        }
        seq![s.take(word_len(s) as int)] + words(s.skip(word_len(s) as int))
    }
}

/// The words joined, one space between each two.
pub open spec fn join_words(ws: Seq<Seq<char>>) -> Seq<char>
    decreases ws.len(),
{
    if ws.len() == 0 {
        seq![]
    } else if ws.len() == 1 {
        ws[0]
    } else {
        join_words(ws.drop_last()) + seq![' '] + ws.last()
    }
}

/// `s` with its whitespace collapsed: its words, joined by single spaces.
pub open spec fn collapsed(s: Seq<char>) -> Seq<char> {
    join_words(words(s))
}

/// A run `s[0..m]` of non-whitespace characters ended by whitespace or by the
/// end of `s` has length `word_len(s)`.
proof fn lemma_word_len_of_run(s: Seq<char>, m: int)
    requires
        0 <= m <= s.len(),
        forall|k: int| 0 <= k < m ==> !is_space(#[trigger] s[k]),
        m == s.len() || is_space(s[m]),
    ensures
        word_len(s) == m,
    decreases m,
{
    if m > 0 {
        let t = s.skip(1);
        assert forall|k: int| 0 <= k < m - 1 implies !is_space(#[trigger] t[k]) by {
            assert(t[k] == s[k + 1]);
        }
        if m - 1 < t.len() {
            assert(t[m - 1] == s[m]);
        }
        lemma_word_len_of_run(t, m - 1);
    }
}

proof fn lemma_join_push(ws: Seq<Seq<char>>, w: Seq<char>)
    ensures
        join_words(ws.push(w)) == if ws.len() == 0 {
            w
        } else {
            join_words(ws) + seq![' '] + w
        },
{
    assert(ws.push(w).drop_last() =~= ws);
}

/// Collapses the whitespace of `v`: its words, joined by single spaces.
pub fn collapse_whitespace(v: &Vec<char>) -> (r: String)
    ensures
        r@ == collapsed(v@),
        words(r@) == words(v@),
        single_spaced(r@),
{
    let n = v.len();
    let mut out = String::new();
    let mut first = true;
    let ghost mut done: Seq<Seq<char>> = seq![];
    let mut i: usize = 0;
    assert(v@.skip(0) =~= v@);
    while i < n
        invariant
            n == v@.len(),
            i <= n,
            first == (done.len() == 0),
            out@ == join_words(done),
            done + words(v@.skip(i as int)) == words(v@),
        decreases n - i,
    {
        let ghost t = v@.skip(i as int);
        if is_white_space(v[i]) {
            assert(t.skip(1) =~= v@.skip(i + 1));
            i = i + 1;
        } else {
            let start = i;
            if !first {
                push_char(&mut out, ' ');
            }
            let ghost sep: Seq<char> = if first { seq![] } else { seq![' '] };
            while i < n && !is_white_space(v[i])
                invariant
                    n == v@.len(),
                    start <= i <= n,
                    forall|k: int| start <= k < i ==> !is_space(#[trigger] v@[k]),
                    out@ == join_words(done) + sep + v@.subrange(start as int, i as int),
                decreases n - i,
            {
                push_char(&mut out, v[i]);
                i = i + 1;
                assert(v@.subrange(start as int, i as int) =~= v@.subrange(
                    start as int,
                    i - 1,
                ).push(v@[i - 1]));
            }
            proof {
                let m = i - start;
                assert forall|k: int| 0 <= k < m implies !is_space(#[trigger] t[k]) by {
                    assert(t[k] == v@[start + k]);
                }
                if m < t.len() {
                    assert(t[m] == v@[i as int]);
                }
                lemma_word_len_of_run(t, m);
                assert(t.take(m) =~= v@.subrange(start as int, i as int));
                assert(t.skip(m) =~= v@.skip(i as int));
                let w = v@.subrange(start as int, i as int);
                lemma_join_push(done, w);
                assert(done.push(w) + words(v@.skip(i as int)) =~= done + words(t));
                done = done.push(w);
            }
            first = false;
        }
    }
    assert(v@.skip(n as int) =~= Seq::<char>::empty());
    assert(done + words(v@.skip(n as int)) =~= done);
    proof {
        lemma_collapsed_keeps_words(v@);
        lemma_collapsed_single_spaced(v@);
    }
    out
}

/// Every whitespace character of `r` is a plain space that stands between two
/// non-whitespace characters: none at either end, never two in a row.
pub open spec fn single_spaced(r: Seq<char>) -> bool {
    forall|k: int|
        0 <= k < r.len() && is_space(#[trigger] r[k]) ==> r[k] == ' ' && 0 < k < r.len() - 1
            && !is_space(r[k - 1]) && !is_space(r[k + 1])
}

/// A word: non-empty, without whitespace.
pub open spec fn is_word(w: Seq<char>) -> bool {
    w.len() > 0 && forall|j: int| 0 <= j < w.len() ==> !is_space(#[trigger] w[j])
}

proof fn lemma_word_len_run(s: Seq<char>)
    ensures
        forall|j: int| 0 <= j < word_len(s) ==> !is_space(#[trigger] s[j]),
        word_len(s) < s.len() ==> is_space(s[word_len(s) as int]),
    decreases s.len(),
{
    if s.len() > 0 && !is_space(s[0]) {
        let t = s.skip(1);
        lemma_word_len_run(t);
        lemma_word_len_bounded(t);
        if word_len(s) < s.len() {
            assert(s[word_len(s) as int] == t[word_len(t) as int]);
        }
        assert forall|j: int| 0 <= j < word_len(s) implies !is_space(#[trigger] s[j]) by {
            if j > 0 {
                assert(s[j] == t[j - 1]);
            }
        }
    }
}

/// The words of `s` are words, and each of their characters is one of `s`.
proof fn lemma_words_are_words(s: Seq<char>)
    ensures
        forall|i: int| 0 <= i < words(s).len() ==> is_word(#[trigger] words(s)[i]),
        forall|i: int, j: int|
            0 <= i < words(s).len() && 0 <= j < words(s)[i].len() ==> s.contains(
                #[trigger] words(s)[i][j],
            ),
    decreases s.len(),
{
    if s.len() > 0 {
        if is_space(s[0]) {
            let t = s.skip(1);
            lemma_words_are_words(t);
            assert(words(s) == words(t));
            assert forall|i: int, j: int|
                0 <= i < words(s).len() && 0 <= j < words(s)[i].len() implies s.contains(
                #[trigger] words(s)[i][j],
            ) by {
                let k = choose|k: int| 0 <= k < t.len() && t[k] == words(t)[i][j];
                assert(s[k + 1] == t[k]);
            }
        } else {
            lemma_word_len_bounded(s);
            lemma_word_len_run(s);
            let m = word_len(s) as int;
            let t = s.skip(m);
            lemma_words_are_words(t);
            let w = s.take(m);
            assert(words(s) == seq![w] + words(t));
            assert forall|i: int| 0 <= i < words(s).len() implies is_word(#[trigger] words(s)[i]) by {
                if i == 0 {
                    assert forall|j: int| 0 <= j < w.len() implies !is_space(#[trigger] w[j]) by {
                        assert(w[j] == s[j]);
                    }
                } else {
                    assert(words(s)[i] == words(t)[i - 1]);
                }
            }
            assert forall|i: int, j: int|
                0 <= i < words(s).len() && 0 <= j < words(s)[i].len() implies s.contains(
                #[trigger] words(s)[i][j],
            ) by {
                if i == 0 {
                    assert(s[j] == w[j]);
                } else {
                    assert(words(s)[i] == words(t)[i - 1]);
                    let k = choose|k: int| 0 <= k < t.len() && t[k] == words(t)[i - 1][j];
                    assert(s[k + m] == t[k]);
                }
            }
        }
    }
}

/// Words joined by single spaces are single-spaced, and hold no character
/// but a space or one of the words' characters.
proof fn lemma_join_words(ws: Seq<Seq<char>>, x: char)
    requires
        forall|i: int| 0 <= i < ws.len() ==> is_word(#[trigger] ws[i]),
    ensures
        single_spaced(join_words(ws)),
        ws.len() > 0 ==> join_words(ws).len() > 0,
        x != ' ' && (forall|i: int| 0 <= i < ws.len() ==> !(#[trigger] ws[i]).contains(x))
            ==> !join_words(ws).contains(x),
    decreases ws.len(),
{
    if ws.len() == 1 {
        assert(is_word(ws[0]));
        if x != ' ' && !ws[0].contains(x) {
            assert(!join_words(ws).contains(x));
        }
    } else if ws.len() > 1 {
        let p = ws.drop_last();
        let w = ws.last();
        assert forall|i: int| 0 <= i < p.len() implies is_word(#[trigger] p[i]) by {
            assert(p[i] == ws[i]);
        }
        lemma_join_words(p, x);
        assert(is_word(ws[ws.len() - 1]));
        let a = join_words(p);
        let r = join_words(ws);
        assert(r == a + seq![' '] + w);
        let n = a.len();
        assert forall|k: int| 0 <= k < r.len() && is_space(#[trigger] r[k]) implies r[k] == ' '
            && 0 < k < r.len() - 1 && !is_space(r[k - 1]) && !is_space(r[k + 1]) by {
            if k < n {
                assert(r[k] == a[k]);
                assert(r[k - 1] == a[k - 1]);
                if k + 1 < n {
                    assert(r[k + 1] == a[k + 1]);
                }
            } else if k == n {
                assert(!is_space(a[n - 1]));
                assert(r[k + 1] == w[0]);
            } else {
                assert(r[k] == w[k - n - 1]);
            }
        }
        if x != ' ' && (forall|i: int| 0 <= i < ws.len() ==> !(#[trigger] ws[i]).contains(x)) {
            assert forall|i: int| 0 <= i < p.len() implies !(#[trigger] p[i]).contains(x) by {
                assert(p[i] == ws[i]);
            }
            assert(!w.contains(x)) by {
                assert(w == ws[ws.len() - 1]);
            }
            if r.contains(x) {
                let k = choose|k: int| 0 <= k < r.len() && r[k] == x;
                if k < n {
                    assert(a[k] == x);
                } else if k > n {
                    assert(w[k - n - 1] == x);
                }
            }
        }
    }
}

/// Collapsed text is single-spaced: no whitespace at either end, none but
/// plain spaces, never two in a row.
pub proof fn lemma_collapsed_single_spaced(s: Seq<char>)
    ensures
        single_spaced(collapsed(s)),
{
    lemma_words_are_words(s);
    lemma_join_words(words(s), ' ');
}

/// Collapsing whitespace adds no character but the space.
pub proof fn lemma_collapsed_chars(s: Seq<char>, x: char)
    requires
        x != ' ',
        !s.contains(x),
    ensures
        !collapsed(s).contains(x),
{
    lemma_words_are_words(s);
    let ws = words(s);
    assert forall|i: int| 0 <= i < ws.len() implies !(#[trigger] ws[i]).contains(x) by {
        if ws[i].contains(x) {
            let j = choose|j: int| 0 <= j < ws[i].len() && ws[i][j] == x;
            assert(s.contains(ws[i][j]));
        }
    }
    lemma_join_words(ws, x);
}

/// A word is its own only word.
pub proof fn lemma_words_of_word(w: Seq<char>)
    requires
        is_word(w),
    ensures
        words(w) == seq![w],
{
    lemma_word_len_of_run(w, w.len() as int);
    assert(w.take(w.len() as int) =~= w);
    assert(w.skip(w.len() as int) =~= Seq::<char>::empty());
    assert(words(w) == seq![w.take(w.len() as int)] + words(w.skip(w.len() as int)));
    assert(words(Seq::<char>::empty()) == Seq::<Seq<char>>::empty());
    assert(words(w) =~= seq![w]);
}

/// Splitting at a whitespace character: the words of `x`, a space and `y` are
/// those of `x`, then those of `y`.
pub proof fn lemma_words_split(x: Seq<char>, y: Seq<char>)
    ensures
        words(x + seq![' '] + y) == words(x) + words(y),
    decreases x.len(),
{
    let z = x + seq![' '] + y;
    if x.len() == 0 {
        assert(z.skip(1) =~= y);
        assert(words(x) + words(y) =~= words(y));
    } else if is_space(x[0]) {
        lemma_words_split(x.skip(1), y);
        assert(z.skip(1) =~= x.skip(1) + seq![' '] + y);
    } else {
        lemma_word_len_bounded(x);
        lemma_word_len_run(x);
        let m = word_len(x) as int;
        assert forall|k: int| 0 <= k < m implies !is_space(#[trigger] z[k]) by {
            assert(z[k] == x[k]);
        }
        if m < x.len() {
            assert(z[m] == x[m]);
        } else {
            assert(z[m] == ' ');
        }
        lemma_word_len_of_run(z, m);
        assert(z.take(m) =~= x.take(m));
        assert(z.skip(m) =~= x.skip(m) + seq![' '] + y);
        lemma_words_split(x.skip(m), y);
        assert(words(z) == seq![x.take(m)] + words(x.skip(m) + seq![' '] + y));
        assert(words(x) == seq![x.take(m)] + words(x.skip(m)));
        assert(words(z) =~= words(x) + words(y));
    }
}

/// The words of words joined by single spaces are those words.
proof fn lemma_words_of_join(ws: Seq<Seq<char>>)
    requires
        forall|i: int| 0 <= i < ws.len() ==> is_word(#[trigger] ws[i]),
    ensures
        words(join_words(ws)) == ws,
    decreases ws.len(),
{
    if ws.len() == 0 {
        assert(words(join_words(ws)) =~= ws);
    } else if ws.len() == 1 {
        assert(is_word(ws[0]));
        lemma_words_of_word(ws[0]);
        assert(words(join_words(ws)) =~= ws);
    } else {
        let p = ws.drop_last();
        assert forall|i: int| 0 <= i < p.len() implies is_word(#[trigger] p[i]) by {
            assert(p[i] == ws[i]);
        }
        lemma_words_of_join(p);
        assert(is_word(ws[ws.len() - 1]));
        lemma_words_of_word(ws.last());
        lemma_words_split(join_words(p), ws.last());
        assert(words(join_words(ws)) =~= ws);
    }
}

/// Collapsing whitespace twice is collapsing it once.
pub proof fn lemma_collapsed_idempotent(s: Seq<char>)
    ensures
        collapsed(collapsed(s)) == collapsed(s),
{
    lemma_words_are_words(s);
    lemma_words_of_join(words(s));
}


/// Collapsing whitespace keeps every word, in order: the words of the
/// collapsed text are the words of the text, however many there are.
pub proof fn lemma_collapsed_keeps_words(s: Seq<char>)
    ensures
        words(collapsed(s)) == words(s),
{
    lemma_words_are_words(s);
    lemma_words_of_join(words(s));
}

proof fn lemma_join_prepend(w: Seq<char>, ws: Seq<Seq<char>>)
    requires
        ws.len() > 0,
    ensures
        join_words(seq![w] + ws) == w + seq![' '] + join_words(ws),
    decreases ws.len(),
{
    let a = seq![w] + ws;
    if ws.len() == 1 {
        assert(a.drop_last() =~= seq![w]);
        assert(a.last() == ws[0]);
        assert(join_words(seq![w]) == w);
    } else {
        let p = ws.drop_last();
        lemma_join_prepend(w, p);
        assert(a.drop_last() =~= seq![w] + p);
        assert(a.last() == ws.last());
        assert(join_words(a) == join_words(seq![w] + p) + seq![' '] + ws.last());
        assert(join_words(ws) == join_words(p) + seq![' '] + ws.last());
        assert(join_words(a) =~= w + seq![' '] + join_words(ws));
    }
}

/// Single-spaced text is its words joined by single spaces.
proof fn lemma_single_spaced_is_join(t: Seq<char>)
    requires
        single_spaced(t),
    ensures
        join_words(words(t)) == t,
    decreases t.len(),
{
    if t.len() == 0 {
        assert(join_words(words(t)) =~= t);
    } else {
        if is_space(t[0]) {
            assert(false);
        }
        lemma_word_len_bounded(t);
        lemma_word_len_run(t);
        let m = word_len(t) as int;
        let w = t.take(m);
        assert(words(t) == seq![w] + words(t.skip(m)));
        if m == t.len() {
            assert(t.skip(m) =~= Seq::<char>::empty());
            assert(words(t) =~= seq![w]);
            assert(w =~= t);
        } else {
            assert(is_space(t[m]));
            assert(t[m] == ' ' && m + 1 < t.len() && !is_space(t[m + 1]));
            let u = t.skip(m);
            let t2 = t.skip(m + 1);
            assert(u[0] == t[m]);
            assert(u.skip(1) =~= t2);
            assert(words(u) == words(t2));
            assert forall|k: int| 0 <= k < t2.len() && is_space(#[trigger] t2[k]) implies t2[k]
                == ' ' && 0 < k < t2.len() - 1 && !is_space(t2[k - 1]) && !is_space(t2[k + 1]) by {
                assert(t2[k] == t[k + m + 1]);
                assert(is_space(t[k + m + 1]));
                assert(t2[k - 1] == t[k + m]);
                if k + 1 < t2.len() {
                    assert(t2[k + 1] == t[k + m + 2]);
                }
                assert(t2[0] == t[m + 1]);
            }
            lemma_single_spaced_is_join(t2);
            assert(t2[0] == t[m + 1]);
            lemma_word_len_bounded(t2);
            assert(words(t2).len() > 0);
            lemma_join_prepend(w, words(t2));
            assert(t =~= w + seq![' '] + t2);
        }
    }
}

/// Collapsed text is the one single-spaced text that has the words of `s`:
/// any single-spaced text with the same words is the collapsed text.
pub proof fn lemma_collapsed_unique(s: Seq<char>, t: Seq<char>)
    requires
        single_spaced(t),
        words(t) == words(s),
    ensures
        t == collapsed(s),
{
    lemma_single_spaced_is_join(t);
}

} // verus!
