//! Email headers as a map from name to value, listed in the order of their
//! names: the form in which a JSON object map writes them.
use vstd::prelude::*;
use crate::text::chars_of;

verus! {

/// Whether `a` comes before `b` in the order of strings: character by
/// character, a proper prefix first.
pub open spec fn key_less(a: Seq<char>, b: Seq<char>) -> bool
    decreases a.len(),
{
    if a.len() == 0 {
        b.len() > 0
    } else if b.len() == 0 {
        false
    } else if a[0] != b[0] {
        a[0] < b[0]
    } else {
        key_less(a.skip(1), b.skip(1))
    }
}

/// No string comes before itself.
pub proof fn lemma_key_less_irreflexive(a: Seq<char>)
    ensures
        !key_less(a, a),
    decreases a.len(),
{
    if a.len() > 0 {
        lemma_key_less_irreflexive(a.skip(1));
    }
}

/// Of two different strings, exactly one comes first.
pub proof fn lemma_key_less_total(a: Seq<char>, b: Seq<char>)
    ensures
        key_less(a, b) ==> !key_less(b, a),
        a != b ==> key_less(a, b) || key_less(b, a),
    decreases a.len(),
{
    if a.len() > 0 && b.len() > 0 {
        lemma_key_less_total(a.skip(1), b.skip(1));
        if a[0] == b[0] && a != b {
            assert(a.skip(1) != b.skip(1)) by {
                if a.skip(1) == b.skip(1) {
                    assert(a =~= seq![a[0]] + a.skip(1));
                    assert(b =~= seq![b[0]] + b.skip(1));
                }
            }
        }
    } else if a.len() == 0 && b.len() == 0 {
        assert(a =~= b);
    }
}

/// The order of strings is transitive.
pub proof fn lemma_key_less_transitive(a: Seq<char>, b: Seq<char>, c: Seq<char>)
    requires
        key_less(a, b),
        key_less(b, c),
    ensures
        key_less(a, c),
    decreases a.len(),
{
    if a.len() > 0 && b.len() > 0 && c.len() > 0 && a[0] == b[0] && b[0] == c[0] {
        lemma_key_less_transitive(a.skip(1), b.skip(1), c.skip(1));
    }
}

/// Whether `a` comes before `b` in the order of strings.
pub fn key_is_less(a: &String, b: &String) -> (r: bool)
    ensures
        r == key_less(a@, b@),
{
    let x = chars_of(a.as_str());
    let y = chars_of(b.as_str());
    let mut i: usize = 0;
    assert(x@.skip(0) =~= x@);
    assert(y@.skip(0) =~= y@);
    while i < x.len() && i < y.len() && x[i] == y[i]
        invariant
            i <= x@.len(),
            i <= y@.len(),
            key_less(x@, y@) == key_less(x@.skip(i as int), y@.skip(i as int)),
        decreases x@.len() - i,
    {
        assert(x@.skip(i as int)[0] == x@[i as int]);
        assert(y@.skip(i as int)[0] == y@[i as int]);
        assert(x@.skip(i as int).skip(1) =~= x@.skip(i + 1));
        assert(y@.skip(i as int).skip(1) =~= y@.skip(i + 1));
        i = i + 1;
    }
    if i < x.len() {
        assert(x@.skip(i as int)[0] == x@[i as int]);
    }
    if i < y.len() {
        assert(y@.skip(i as int)[0] == y@[i as int]);
    }
    if i == x.len() {
        i < y.len()
    } else if i == y.len() {
        false
    } else {
        x[i] < y[i]
    }
}

/// The map that the pairs make when inserted one after the other: where a
/// name comes twice, its last value stands.
pub open spec fn header_map(pairs: Seq<(Seq<char>, Seq<char>)>) -> Map<Seq<char>, Seq<char>>
    decreases pairs.len(),
{
    if pairs.len() == 0 {
        Map::empty()
    } else {
        header_map(pairs.drop_last()).insert(pairs.last().0, pairs.last().1)
    }
}

/// Whether the names of `entries` come in strictly increasing order.
pub open spec fn sorted_keys(entries: Seq<(Seq<char>, Seq<char>)>) -> bool {
    forall|i: int, j: int|
        0 <= i < j < entries.len() ==> key_less(#[trigger] entries[i].0, #[trigger] entries[j].0)
}

/// Whether `entries` lists the map `m`: each entry of `m` once, in the
/// order of the names.
pub open spec fn lists_map(
    entries: Seq<(Seq<char>, Seq<char>)>,
    m: Map<Seq<char>, Seq<char>>,
) -> bool {
    &&& sorted_keys(entries)
    &&& forall|i: int|
        0 <= i < entries.len() ==> m.contains_key(#[trigger] entries[i].0) && m[entries[i].0]
            == entries[i].1
    &&& forall|k: Seq<char>|
        #[trigger] m.contains_key(k) ==> exists|i: int| 0 <= i < entries.len() && entries[i].0 == k
}

/// The entries of `m` in the order of their names.
pub open spec fn map_entries(m: Map<Seq<char>, Seq<char>>) -> Seq<(Seq<char>, Seq<char>)> {
    choose|entries: Seq<(Seq<char>, Seq<char>)>| lists_map(entries, m)
}

/// A map has at most one list of its entries in the order of their names.
pub proof fn lemma_lists_map_unique(
    a: Seq<(Seq<char>, Seq<char>)>,
    b: Seq<(Seq<char>, Seq<char>)>,
    m: Map<Seq<char>, Seq<char>>,
)
    requires
        lists_map(a, m),
        lists_map(b, m),
    ensures
        a == b,
    decreases a.len(),
{
    if a.len() == 0 {
        if b.len() > 0 {
            assert(m.contains_key(b[0].0));
        }
        assert(a =~= b);
    } else {
        assert(m.contains_key(a[0].0));
        if b.len() == 0 {
            assert(false);
        }
        let x = a[0].0;
        let y = b[0].0;
        assert(m.contains_key(y));
        let j = choose|j: int| 0 <= j < b.len() && b[j].0 == x;
        let i = choose|i: int| 0 <= i < a.len() && a[i].0 == y;
        if x != y {
            lemma_key_less_total(x, y);
            assert(j != 0);
            assert(i != 0);
            assert(key_less(y, x));
            assert(key_less(x, y));
            assert(false);
        }
        let m1 = m.remove(x);
        let a1 = a.skip(1);
        let b1 = b.skip(1);
        assert forall|p: int, q: int| 0 <= p < q < a1.len() implies key_less(
            #[trigger] a1[p].0,
            #[trigger] a1[q].0,
        ) by {
            assert(a1[p] == a[p + 1] && a1[q] == a[q + 1]);
        }
        assert forall|p: int, q: int| 0 <= p < q < b1.len() implies key_less(
            #[trigger] b1[p].0,
            #[trigger] b1[q].0,
        ) by {
            assert(b1[p] == b[p + 1] && b1[q] == b[q + 1]);
        }
        assert forall|p: int| 0 <= p < a1.len() implies m1.contains_key(#[trigger] a1[p].0)
            && m1[a1[p].0] == a1[p].1 by {
            assert(a1[p] == a[p + 1]);
            assert(key_less(a[0].0, a[p + 1].0));
            lemma_key_less_irreflexive(x);
        }
        assert forall|p: int| 0 <= p < b1.len() implies m1.contains_key(#[trigger] b1[p].0)
            && m1[b1[p].0] == b1[p].1 by {
            assert(b1[p] == b[p + 1]);
            assert(key_less(b[0].0, b[p + 1].0));
            lemma_key_less_irreflexive(x);
        }
        assert forall|k: Seq<char>| #[trigger] m1.contains_key(k) implies exists|p: int|
            0 <= p < a1.len() && a1[p].0 == k by {
            let p = choose|p: int| 0 <= p < a.len() && a[p].0 == k;
            assert(p != 0);
            assert(a1[p - 1] == a[p]);
        }
        assert forall|k: Seq<char>| #[trigger] m1.contains_key(k) implies exists|p: int|
            0 <= p < b1.len() && b1[p].0 == k by {
            let p = choose|p: int| 0 <= p < b.len() && b[p].0 == k;
            assert(p != 0);
            assert(b1[p - 1] == b[p]);
        }
        lemma_lists_map_unique(a1, b1, m1);
        assert(a[0] == b[0]);
        assert(a =~= seq![a[0]] + a1);
        assert(b =~= seq![b[0]] + b1);
    }
}

/// The views of a list of string pairs.
pub open spec fn pairs_view(pairs: Seq<(String, String)>) -> Seq<(Seq<char>, Seq<char>)> {
    pairs.map_values(|p: (String, String)| (p.0@, p.1@))
}

/// Puts the entry `k: v` into the sorted list `entries` of `m`: in place of
/// the entry named `k`, or where its name belongs.
fn insert_entry(
    entries: &mut Vec<(String, String)>,
    k: String,
    v: String,
    Ghost(m): Ghost<Map<Seq<char>, Seq<char>>>,
)
    requires
        lists_map(pairs_view(old(entries)@), m),
    ensures
        lists_map(pairs_view(final(entries)@), m.insert(k@, v@)),
{
    let ghost hs = pairs_view(entries@);
    let mut p: usize = 0;
    while p < entries.len() && key_is_less(&entries[p].0, &k)
        invariant
            p <= entries@.len(),
            hs == pairs_view(entries@),
            forall|i: int| 0 <= i < p ==> key_less(#[trigger] hs[i].0, k@),
        decreases entries@.len() - p,
    {
        p = p + 1;
    }
    let ghost m2 = m.insert(k@, v@);
    if p < entries.len() && entries[p].0 == k {
        entries.set(p, (k, v));
        let ghost h2 = pairs_view(entries@);
        assert(h2 =~= hs.update(p as int, (k@, v@)));
        assert forall|i: int, j: int| 0 <= i < j < h2.len() implies key_less(
            #[trigger] h2[i].0,
            #[trigger] h2[j].0,
        ) by {
            assert(key_less(hs[i].0, hs[j].0));
        }
        assert forall|i: int| 0 <= i < h2.len() implies m2.contains_key(#[trigger] h2[i].0)
            && m2[h2[i].0] == h2[i].1 by {
            if i != p {
                if i < p {
                    assert(key_less(hs[i].0, hs[p as int].0));
                } else {
                    assert(key_less(hs[p as int].0, hs[i].0));
                }
                lemma_key_less_irreflexive(k@);
            }
        }
        assert forall|key: Seq<char>| #[trigger] m2.contains_key(key) implies exists|i: int|
            0 <= i < h2.len() && h2[i].0 == key by {
            if key == k@ {
                assert(h2[p as int].0 == key);
            } else {
                assert(m.contains_key(key));
                let i = choose|i: int| 0 <= i < hs.len() && hs[i].0 == key;
                assert(h2[i].0 == key);
            }
        }
    } else {
        proof {
            if p < hs.len() {
                lemma_key_less_total(hs[p as int].0, k@);
                assert(key_less(k@, hs[p as int].0));
            }
        }
        entries.insert(p, (k, v));
        let ghost h2 = pairs_view(entries@);
        assert(h2 =~= hs.insert(p as int, (k@, v@)));
        assert forall|i: int| p < i < h2.len() implies key_less(k@, #[trigger] h2[i].0) by {
            assert(h2[i] == hs[i - 1]);
            if i - 1 > p {
                assert(key_less(hs[p as int].0, hs[i - 1].0));
                lemma_key_less_transitive(k@, hs[p as int].0, hs[i - 1].0);
            }
        }
        assert forall|i: int, j: int| 0 <= i < j < h2.len() implies key_less(
            #[trigger] h2[i].0,
            #[trigger] h2[j].0,
        ) by {
            if j < p {
                assert(key_less(hs[i].0, hs[j].0));
            } else if j == p {
                assert(key_less(hs[i].0, k@));
            } else if i < p {
                assert(h2[j] == hs[j - 1]);
                assert(key_less(hs[i].0, k@));
                assert(key_less(k@, h2[j].0));
                lemma_key_less_transitive(hs[i].0, k@, h2[j].0);
            } else if i == p {
                assert(key_less(k@, h2[j].0));
            } else {
                assert(h2[i] == hs[i - 1] && h2[j] == hs[j - 1]);
                assert(key_less(hs[i - 1].0, hs[j - 1].0));
            }
        }
        assert forall|i: int| 0 <= i < h2.len() implies m2.contains_key(#[trigger] h2[i].0)
            && m2[h2[i].0] == h2[i].1 by {
            lemma_key_less_irreflexive(k@);
            if i < p {
                assert(key_less(hs[i].0, k@));
            } else if i > p {
                assert(key_less(k@, h2[i].0));
                assert(h2[i] == hs[i - 1]);
            }
        }
        assert forall|key: Seq<char>| #[trigger] m2.contains_key(key) implies exists|i: int|
            0 <= i < h2.len() && h2[i].0 == key by {
            if key == k@ {
                assert(h2[p as int].0 == key);
            } else {
                assert(m.contains_key(key));
                let i = choose|i: int| 0 <= i < hs.len() && hs[i].0 == key;
                if i < p {
                    assert(h2[i].0 == key);
                } else {
                    assert(h2[i + 1].0 == key);
                }
            }
        }
    }
}

/// The headers as a map (where a name comes twice, its last value stands),
/// listed in the order of their names.
pub fn sorted_headers(headers: &Vec<(String, String)>) -> (r: Vec<(String, String)>)
    ensures
        pairs_view(r@) == map_entries(header_map(pairs_view(headers@))),
{
    let ghost hv = pairs_view(headers@);
    let mut out: Vec<(String, String)> = Vec::new();
    assert(hv.take(0) =~= Seq::<(Seq<char>, Seq<char>)>::empty());
    assert(pairs_view(out@) =~= Seq::<(Seq<char>, Seq<char>)>::empty());
    for i in 0..headers.len()
        invariant
            hv == pairs_view(headers@),
            lists_map(pairs_view(out@), header_map(hv.take(i as int))),
    {
        let k = headers[i].0.clone();
        let v = headers[i].1.clone();
        assert(hv.take(i + 1).drop_last() =~= hv.take(i as int));
        assert(hv.take(i + 1).last() == hv[i as int]);
        insert_entry(&mut out, k, v, Ghost(header_map(hv.take(i as int))));
    }
    assert(hv.take(headers.len() as int) =~= hv);
    proof {
        let m = header_map(hv);
        assert(lists_map(map_entries(m), m));
        lemma_lists_map_unique(pairs_view(out@), map_entries(m), m);
    }
    out
}


/// The header map holds exactly the names of the pairs, each with the value
/// of its last pair.
pub proof fn lemma_header_map_last_wins(pairs: Seq<(Seq<char>, Seq<char>)>)
    ensures
        forall|k: Seq<char>|
            #[trigger] header_map(pairs).contains_key(k) <==> exists|i: int|
                0 <= i < pairs.len() && pairs[i].0 == k,
        forall|i: int|
            0 <= i < pairs.len() && (forall|j: int| i < j < pairs.len() ==> pairs[j].0 != pairs[i].0)
                ==> header_map(pairs)[#[trigger] pairs[i].0] == pairs[i].1,
    decreases pairs.len(),
{
    if pairs.len() > 0 {
        let p = pairs.drop_last();
        let last = pairs.last();
        lemma_header_map_last_wins(p);
        let m = header_map(pairs);
        assert(m == header_map(p).insert(last.0, last.1));
        assert forall|k: Seq<char>| #[trigger] m.contains_key(k) <==> exists|i: int|
            0 <= i < pairs.len() && pairs[i].0 == k by {
            if m.contains_key(k) {
                if k == last.0 {
                    assert(pairs[pairs.len() - 1].0 == k);
                } else {
                    let i = choose|i: int| 0 <= i < p.len() && p[i].0 == k;
                    assert(pairs[i] == p[i]);
                }
            }
            if exists|i: int| 0 <= i < pairs.len() && pairs[i].0 == k {
                let i = choose|i: int| 0 <= i < pairs.len() && pairs[i].0 == k;
                if i < p.len() {
                    assert(p[i] == pairs[i]);
                }
            }
        }
        assert forall|i: int|
            0 <= i < pairs.len() && (forall|j: int| i < j < pairs.len() ==> pairs[j].0 != pairs[i].0)
                implies m[#[trigger] pairs[i].0] == pairs[i].1 by {
            if i < p.len() {
                assert(p[i] == pairs[i]);
                assert(pairs[pairs.len() - 1].0 != pairs[i].0);
                assert forall|j: int| i < j < p.len() implies p[j].0 != p[i].0 by {
                    assert(p[j] == pairs[j]);
                }
            }
        }
    }
}

} // verus!
