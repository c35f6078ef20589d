//! Character-level string building blocks: pushing characters, reading a
//! string as characters, and left-to-right substring replacement.
use vstd::prelude::*;

verus! {

/// Appends one character to `s` (`String::push`).
#[verifier::external_body]
pub(crate) fn push_char(s: &mut String, c: char)
    ensures
        final(s)@ == old(s)@.push(c),
{
    s.push(c);
}

/// The characters of `s`, in order.
pub fn chars_of(s: &str) -> (v: Vec<char>)
    ensures
        v@ == s@,
{
    let mut v: Vec<char> = Vec::new();
    for c in it: s.chars()
        invariant
            v@ == it.seq().take(it.index() as int),
            it.seq() == s@,
    {
        v.push(c);
    }
    v
}

/// The string `s` with every non-overlapping occurrence of `pat`, found from
/// left to right, replaced by `rep` (the meaning of `str::replace` for a
/// non-empty pattern).
pub open spec fn replaced(s: Seq<char>, pat: Seq<char>, rep: Seq<char>) -> Seq<char>
    decreases s.len(),
{
    if s.len() == 0 || pat.len() == 0 {
        s
    } else if pat.len() <= s.len() && s.take(pat.len() as int) == pat {
        rep + replaced(s.skip(pat.len() as int), pat, rep)
    } else {
        seq![s[0]] + replaced(s.skip(1), pat, rep)
    }
}

/// Whether `pat` occurs in `v` starting at index `i`.
fn occurs_at(v: &Vec<char>, i: usize, pat: &Vec<char>) -> (b: bool)
    requires
        i <= v.len(),
    ensures
        b == (i + pat.len() <= v.len() && v@.subrange(i as int, i + pat.len()) == pat@),
{
    if pat.len() > v.len() - i {
        return false;
    }
    let mut j: usize = 0;
    while j < pat.len()
        invariant
            i + pat.len() <= v.len(),
            j <= pat.len(),
            forall|k: int| 0 <= k < j ==> v@[i + k] == pat@[k],
        decreases pat.len() - j,
    {
        if v[i + j] != pat[j] {
            assert(v@.subrange(i as int, i + pat.len())[j as int] != pat@[j as int]);
            return false;
        }
        j = j + 1;
    }
    assert(v@.subrange(i as int, i + pat.len()) =~= pat@);
    true
}

/// Replaces, from left to right, every non-overlapping occurrence of the
/// non-empty pattern `pat` in `s` by `rep`.
pub fn replace_all(s: &str, pat: &str, rep: &str) -> (r: String)
    requires
        pat@.len() > 0,
    ensures
        r@ == replaced(s@, pat@, rep@),
{
    let v = chars_of(s);
    let p = chars_of(pat);
    let n = v.len();
    let mut out = String::new();
    let mut i: usize = 0;
    assert(v@.skip(0) =~= v@);
    while i < n
        invariant
            n == v@.len(),
            v@ == s@,
            p@ == pat@,
            p@.len() > 0,
            i <= n,
            out@ + replaced(v@.skip(i as int), p@, rep@) == replaced(v@, p@, rep@),
        decreases n - i,
    {
        let ghost t = v@.skip(i as int);
        if occurs_at(&v, i, &p) {
            assert(t.take(p@.len() as int) =~= v@.subrange(i as int, i + p@.len()));
            assert(t.skip(p@.len() as int) =~= v@.skip(i + p@.len()));
            out.append(rep);
            i = i + p.len();
        } else {
            proof {
                if p@.len() <= t.len() {
                    assert(t.take(p@.len() as int) =~= v@.subrange(i as int, i + p@.len()));
                }
            }
            assert(t.skip(1) =~= v@.skip(i + 1));
            assert(t[0] == v@[i as int]);
            push_char(&mut out, v[i]);
            i = i + 1;
        }
        assert(out@ + replaced(v@.skip(i as int), p@, rep@) == replaced(v@, p@, rep@));
    }
    assert(v@.skip(n as int) =~= Seq::<char>::empty());
    out
}

/// `s` with each character `c` replaced by `f(c)`.
pub open spec fn subst(s: Seq<char>, f: spec_fn(char) -> Seq<char>) -> Seq<char>
    decreases s.len(),
{
    if s.len() == 0 {
        seq![]
    } else {
        f(s[0]) + subst(s.skip(1), f)
    }
}

/// Replacing passes over text that does not hold the pattern's first
/// character: it is kept whole.
pub proof fn lemma_replaced_passes(x: Seq<char>, t: Seq<char>, pat: Seq<char>, rep: Seq<char>)
    requires
        pat.len() > 0,
        !x.contains(pat[0]),
    ensures
        replaced(x + t, pat, rep) == x + replaced(t, pat, rep),
    decreases x.len(),
{
    if x.len() == 0 {
        assert(x + t =~= t);
        assert(x + replaced(t, pat, rep) =~= replaced(t, pat, rep));
    } else {
        let y = x.skip(1);
        assert(!y.contains(pat[0])) by {
            if y.contains(pat[0]) {
                let k = choose|k: int| 0 <= k < y.len() && y[k] == pat[0];
                assert(x[k + 1] == pat[0]);
            }
        }
        lemma_replaced_passes(y, t, pat, rep);
        let z = x + t;
        assert(z[0] == x[0]);
        assert(x[0] != pat[0]);
        if pat.len() <= z.len() {
            assert(z.take(pat.len() as int)[0] == z[0]);
        }
        assert(z.skip(1) =~= y + t);
        assert(replaced(z, pat, rep) =~= x + replaced(t, pat, rep));
    }
}

/// Replacing puts the whole replacement where the pattern stood.
pub proof fn lemma_replaced_pattern(t: Seq<char>, pat: Seq<char>, rep: Seq<char>)
    requires
        pat.len() > 0,
    ensures
        replaced(pat + t, pat, rep) == rep + replaced(t, pat, rep),
{
    let z = pat + t;
    assert(z.take(pat.len() as int) =~= pat);
    assert(z.skip(pat.len() as int) =~= t);
}

/// Whether `w` stands in `t` from index `i` on.
pub open spec fn stands_at(t: Seq<char>, i: int, w: Seq<char>) -> bool {
    0 <= i && i + w.len() <= t.len() && t.subrange(i, i + w.len()) == w
}

/// A piece of a concatenation stands in it whole, after what precedes it.
pub proof fn lemma_occurs_between(a: Seq<char>, w: Seq<char>, b: Seq<char>)
    ensures
        stands_at(a + w + b, a.len() as int, w),
{
    assert((a + w + b).subrange(a.len() as int, (a.len() + w.len()) as int) =~= w);
}

} // verus!
