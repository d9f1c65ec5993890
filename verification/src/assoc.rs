//! Small maps keyed by text: a vector of (key characters, value) pairs with
//! at most one value per key, seen as a `Map`.

use vstd::prelude::*;
use crate::text::eq_chars;

verus! {

/// The pairs with their keys seen as characters.
pub open spec fn key_views<V>(v: Seq<(Vec<char>, V)>) -> Seq<(Seq<char>, V)> {
    v.map_values(|e: (Vec<char>, V)| (e.0@, e.1))
}

/// At most one value per key.
pub open spec fn functional<V>(s: Seq<(Seq<char>, V)>) -> bool {
    forall|i: int, j: int| 0 <= i < s.len() && 0 <= j < s.len() && #[trigger] s[i].0 == #[trigger] s[j].0 ==> i == j
}

/// The pairs as a map.
pub open spec fn to_map<V>(s: Seq<(Seq<char>, V)>) -> Map<Seq<char>, V> {
    Map::new(
        |k: Seq<char>| exists|i: int| 0 <= i < s.len() && s[i].0 == k,
        |k: Seq<char>| s[choose|i: int| 0 <= i < s.len() && s[i].0 == k].1,
    )
}

/// In a functional list, the entry with a key gives its value.
pub proof fn lemma_entry_value<V>(s: Seq<(Seq<char>, V)>, i: int)
    requires
        functional(s),
        0 <= i < s.len(),
    ensures
        to_map(s).dom().contains(s[i].0),
        to_map(s)[s[i].0] == s[i].1,
{
    let k = s[i].0;
    assert(0 <= i < s.len() && s[i].0 == k);
    let j = choose|j: int| 0 <= j < s.len() && s[j].0 == k;
    assert(s[j].0 == s[i].0);
}

/// Index of the entry for key `k`, if any.
pub fn find_key<V>(v: &Vec<(Vec<char>, V)>, k: &[char]) -> (r: Option<usize>)
    ensures
        match r {
            Some(i) => i < v@.len() && v@[i as int].0@ == k@ && (functional(key_views(v@)) ==> to_map(
                key_views(v@),
            ).dom().contains(k@) && to_map(key_views(v@))[k@] == v@[i as int].1),
            None => !to_map(key_views(v@)).dom().contains(k@),
        },
{
    let ghost s = key_views(v@);
    let mut i: usize = 0;
    while i < v.len()
        invariant
            i <= v@.len(),
            s == key_views(v@),
            forall|j: int| 0 <= j < i ==> s[j].0 != k@,
        decreases v.len() - i,
    {
        if eq_chars(v[i].0.as_slice(), k) {
            proof {
                assert(s[i as int].0 == k@);
                if functional(s) {
                    lemma_entry_value(s, i as int);
                }
            }
            return Some(i);
        }
        i = i + 1;
    }
    proof {
        if to_map(s).dom().contains(k@) {
            let j = choose|j: int| 0 <= j < s.len() && s[j].0 == k@;
            assert(s[j].0 != k@);
        }
    }
    None
}

/// The entries without key `k`.
pub fn remove_key<V>(v: Vec<(Vec<char>, V)>, k: &[char]) -> (r: Vec<(Vec<char>, V)>)
    requires
        functional(key_views(v@)),
    ensures
        functional(key_views(r@)),
        to_map(key_views(r@)) == to_map(key_views(v@)).remove(k@),
{
    let ghost s0 = key_views(v@);
    let mut src = v;
    let mut out: Vec<(Vec<char>, V)> = Vec::new();
    let ghost kept: Seq<int> = seq![];
    let n = src.len();
    let mut i: usize = 0;
    assert(key_views(src@) =~= s0.skip(0));
    while src.len() > 0
        invariant
            s0.len() <= usize::MAX,
            i + src@.len() == s0.len(),
            key_views(src@) == s0.skip(i as int),
            functional(s0),
            kept.len() == out@.len(),
            forall|a: int| 0 <= a < kept.len() ==> 0 <= #[trigger] kept[a] < i && key_views(out@)[a] == s0[kept[a]]
                && s0[kept[a]].0 != k@,
            forall|a: int, b: int| 0 <= a < b < kept.len() ==> kept[a] < kept[b],
            forall|j: int| 0 <= j < i && s0[j].0 != k@ ==> exists|a: int| 0 <= a < kept.len() && #[trigger] kept[a] == j,
        decreases src.len(),
    {
        let ghost old_src = src@;
        let ghost old_kept = kept;
        let e = src.remove(0);
        proof {
            assert(key_views(old_src)[0] == (old_src[0].0@, old_src[0].1));
            assert(s0.skip(i as int)[0] == s0[i as int]);
            assert(e == old_src[0]);
            assert((e.0@, e.1) == s0[i as int]);
            assert(key_views(src@) =~= s0.skip(i + 1)) by {
                assert forall|j: int| 0 <= j < key_views(src@).len() implies key_views(src@)[j] == s0.skip(i + 1)[j] by {
                    assert(src@[j] == old_src[j + 1]);
                    assert(key_views(old_src)[j + 1] == s0.skip(i as int)[j + 1]);
                }
            }
        }
        let same = eq_chars(e.0.as_slice(), k);
        if !same {
            let ghost before = key_views(out@);
            out.push(e);
            proof {
                assert(key_views(out@) =~= before.push(s0[i as int]));
                kept = kept.push(i as int);
                assert(kept[kept.len() - 1] == i);
            }
        }
        proof {
            assert forall|j: int| 0 <= j < i + 1 && s0[j].0 != k@ implies exists|a: int| 0 <= a < kept.len() && #[trigger] kept[a] == j by {
                if j < i {
                    let a = choose|a: int| 0 <= a < old_kept.len() && #[trigger] old_kept[a] == j;
                    assert(kept[a] == j);
                } else {
                    assert(kept[kept.len() - 1] == j);
                }
            }
        }
        i = i + 1;
    }
    proof {
        let r = key_views(out@);
        assert forall|a: int, b: int| 0 <= a < r.len() && 0 <= b < r.len() && #[trigger] r[a].0 == #[trigger] r[b].0 implies a == b by {
            if a != b {
                if a < b {
                    assert(kept[a] < kept[b]);
                } else {
                    assert(kept[b] < kept[a]);
                }
                assert(s0[kept[a]].0 == s0[kept[b]].0);
            }
        }
        let target = to_map(s0).remove(k@);
        assert forall|key: Seq<char>| #[trigger] to_map(r).dom().contains(key) <==> target.dom().contains(key) by {
            if to_map(r).dom().contains(key) {
                let a = choose|a: int| 0 <= a < r.len() && r[a].0 == key;
                assert(0 <= kept[a] < s0.len() && s0[kept[a]].0 == key);
            }
            if target.dom().contains(key) {
                let j = choose|j: int| 0 <= j < s0.len() && s0[j].0 == key;
                assert(s0[j].0 != k@);
                let a = choose|a: int| 0 <= a < kept.len() && #[trigger] kept[a] == j;
                assert(r[a].0 == key);
            }
        }
        assert forall|key: Seq<char>| #[trigger] to_map(r).dom().contains(key) implies to_map(r)[key] == target[key] by {
            let a = choose|a: int| 0 <= a < r.len() && r[a].0 == key;
            lemma_entry_value(r, a);
            lemma_entry_value(s0, kept[a]);
        }
        assert(to_map(r) =~= target);
    }
    out
}

/// The entries with `k` now mapped to `val` (any previous value dropped).
pub fn set_key<V>(v: Vec<(Vec<char>, V)>, k: Vec<char>, val: V) -> (r: Vec<(Vec<char>, V)>)
    requires
        functional(key_views(v@)),
    ensures
        functional(key_views(r@)),
        to_map(key_views(r@)) == to_map(key_views(v@)).insert(k@, val),
{
    let mut rest = remove_key(v, k.as_slice());
    let ghost kv = k@;
    let ghost s1 = key_views(rest@);
    rest.push((k, val));
    proof {
        let r = key_views(rest@);
        assert(r =~= s1.push((kv, val)));
        assert(!to_map(s1).dom().contains(kv));
        assert forall|a: int, b: int| 0 <= a < r.len() && 0 <= b < r.len() && #[trigger] r[a].0 == #[trigger] r[b].0 implies a == b by {
            if a < s1.len() && b == s1.len() {
                assert(s1[a].0 == kv);
            }
            if b < s1.len() && a == s1.len() {
                assert(s1[b].0 == kv);
            }
        }
        let target = to_map(s1).insert(kv, val);
        assert forall|key: Seq<char>| #[trigger] to_map(r).dom().contains(key) <==> target.dom().contains(key) by {
            if to_map(r).dom().contains(key) {
                let a = choose|a: int| 0 <= a < r.len() && r[a].0 == key;
                if a < s1.len() {
                    assert(s1[a].0 == key);
                }
            }
            if target.dom().contains(key) {
                if key == kv {
                    assert(r[s1.len() as int].0 == key);
                } else {
                    let j = choose|j: int| 0 <= j < s1.len() && s1[j].0 == key;
                    assert(r[j].0 == key);
                }
            }
        }
        assert forall|key: Seq<char>| #[trigger] to_map(r).dom().contains(key) implies to_map(r)[key] == target[key] by {
            let a = choose|a: int| 0 <= a < r.len() && r[a].0 == key;
            lemma_entry_value(r, a);
            if a < s1.len() {
                lemma_entry_value(s1, a);
            }
        }
        assert(to_map(r) =~= target);
    }
    rest
}

/// Whether no key occurs twice.
pub fn is_functional<V>(v: &Vec<(Vec<char>, V)>) -> (b: bool)
    ensures
        b == functional(key_views(v@)),
{
    let ghost s = key_views(v@);
    let mut i: usize = 0;
    while i < v.len()
        invariant
            i <= v@.len(),
            s == key_views(v@),
            forall|a: int, b: int| 0 <= a < i && 0 <= b < v@.len() && #[trigger] s[a].0 == #[trigger] s[b].0 ==> a == b,
        decreases v.len() - i,
    {
        let mut j: usize = 0;
        while j < v.len()
            invariant
                i < v@.len(),
                j <= v@.len(),
                s == key_views(v@),
                forall|a: int, b: int| 0 <= a < i && 0 <= b < v@.len() && #[trigger] s[a].0 == #[trigger] s[b].0 ==> a == b,
                forall|b: int| 0 <= b < j && #[trigger] s[b].0 == s[i as int].0 ==> b == i,
            decreases v.len() - j,
        {
            if j != i && eq_chars(v[i].0.as_slice(), v[j].0.as_slice()) {
                assert(s[i as int].0 == s[j as int].0);
                return false;
            }
            j = j + 1;
        }
        i = i + 1;
    }
    true
}

/// A functional list is its first entry inserted into the map of the rest.
pub proof fn lemma_to_map_cons<V>(s: Seq<(Seq<char>, V)>)
    requires
        functional(s),
        s.len() > 0,
    ensures
        functional(s.drop_first()),
        to_map(s) == to_map(s.drop_first()).insert(s[0].0, s[0].1),
{
    let t = s.drop_first();
    assert forall|i: int, j: int| 0 <= i < t.len() && 0 <= j < t.len() && #[trigger] t[i].0 == #[trigger] t[j].0 implies i == j by {
        assert(t[i] == s[i + 1] && t[j] == s[j + 1]);
    }
    let target = to_map(t).insert(s[0].0, s[0].1);
    assert forall|k: Seq<char>| #[trigger] to_map(s).dom().contains(k) <==> target.dom().contains(k) by {
        if to_map(s).dom().contains(k) {
            let a = choose|a: int| 0 <= a < s.len() && s[a].0 == k;
            if a > 0 {
                assert(t[a - 1].0 == k);
            }
        }
        if target.dom().contains(k) && k != s[0].0 {
            let a = choose|a: int| 0 <= a < t.len() && t[a].0 == k;
            assert(s[a + 1].0 == k);
        }
        if k == s[0].0 {
            assert(s[0].0 == k);
        }
    }
    assert forall|k: Seq<char>| #[trigger] to_map(s).dom().contains(k) implies to_map(s)[k] == target[k] by {
        let a = choose|a: int| 0 <= a < s.len() && s[a].0 == k;
        lemma_entry_value(s, a);
        if a > 0 {
            assert(t[a - 1] == s[a]);
            lemma_entry_value(t, a - 1);
        }
    }
    assert(to_map(s) =~= target);
}

/// `base` with every entry of `over` set in it: on a key both have, the
/// value of `over` wins.
pub fn merge_prefer_right<V>(base: Vec<(Vec<char>, V)>, over: Vec<(Vec<char>, V)>) -> (r: Vec<(Vec<char>, V)>)
    requires
        functional(key_views(base@)),
        functional(key_views(over@)),
    ensures
        functional(key_views(r@)),
        to_map(key_views(r@)) == to_map(key_views(base@)).union_prefer_right(to_map(key_views(over@))),
{
    let ghost ks = key_views(over@);
    let ghost bm = to_map(key_views(base@));
    let mut r = base;
    let mut rest = over;
    proof {
        assert(ks.skip(ks.len() as int) =~= Seq::<(Seq<char>, V)>::empty());
        assert(to_map(Seq::<(Seq<char>, V)>::empty()) =~= Map::<Seq<char>, V>::empty());
        assert(bm.union_prefer_right(Map::<Seq<char>, V>::empty()) =~= bm);
    }
    while rest.len() > 0
        invariant
            functional(key_views(r@)),
            functional(ks),
            ks == key_views(over@),
            rest@.len() <= over@.len(),
            forall|i: int| 0 <= i < rest@.len() ==> #[trigger] rest@[i] == over@[i],
            to_map(key_views(r@)) == bm.union_prefer_right(to_map(ks.skip(rest@.len() as int))),
        decreases rest.len(),
    {
        let ghost m = (rest@.len() - 1) as int;
        let ghost before = to_map(key_views(r@));
        let e = rest.pop();
        match e {
            Some((k, v)) => {
                proof {
                    assert(rest@.len() == m);
                    assert((k@, v) == ks[m]);
                    let tail = ks.skip(m);
                    assert forall|i: int, j: int| 0 <= i < tail.len() && 0 <= j < tail.len() && #[trigger] tail[i].0 == #[trigger] tail[j].0 implies i == j by {
                        assert(tail[i] == ks[i + m] && tail[j] == ks[j + m]);
                    }
                    lemma_to_map_cons(tail);
                    assert(tail.drop_first() =~= ks.skip(m + 1));
                    assert(tail[0] == ks[m]);
                }
                r = set_key(r, k, v);
                proof {
                    let tail = ks.skip(m);
                    let sm = to_map(ks.skip(m + 1));
                    assert(to_map(tail) == sm.insert(ks[m].0, ks[m].1));
                    assert(bm.union_prefer_right(sm.insert(ks[m].0, ks[m].1)) =~= bm.union_prefer_right(sm).insert(ks[m].0, ks[m].1));
                }
            },
            None => {},
        }
    }
    proof {
        assert(ks.skip(0) =~= ks);
    }
    r
}

} // verus!
