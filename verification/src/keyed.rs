//! Vectors that hold at most one item per key, and the maps that they stand for.

use vstd::prelude::*;
use crate::text::{compare, TextOrder};

verus! {

/// An item that is found by a key of its own.
pub trait Keyed<K>: Sized {
    /// The item's key.
    spec fn key(&self) -> K;
}

/// An item whose key is a text.
pub trait TextKeyed: Keyed<Seq<char>> {
    /// The item's key.
    fn key_text(&self) -> (r: &str)
        ensures
            r@ == self.key(),
    ;
}

/// What a sequence of items holds by key; of two items with one key, the later counts.
pub open spec fn contents<K, T: Keyed<K>>(s: Seq<T>) -> Map<K, T>
    decreases s.len(),
{
    if s.len() == 0 {
        Map::empty()
    } else {
        contents::<K, T>(s.drop_last()).insert(s.last().key(), s.last())
    }
}

/// No key occurs twice.
pub open spec fn distinct<K, T: Keyed<K>>(s: Seq<T>) -> bool {
    forall|i: int, j: int|
        0 <= i < s.len() && 0 <= j < s.len() && i != j ==> (#[trigger] s[i]).key() != (
        #[trigger] s[j]).key()
}

/// Keys strictly ascend in the order of texts.
pub open spec fn ascending<T: Keyed<Seq<char>>>(s: Seq<T>) -> bool {
    forall|i: int, j: int|
        0 <= i < j < s.len() ==> crate::text::precedes(
            (#[trigger] s[i]).key(),
            (#[trigger] s[j]).key(),
        )
}

/// Some item carries the key.
pub open spec fn holds<K, T: Keyed<K>>(s: Seq<T>, k: K) -> bool {
    exists|i: int| 0 <= i < s.len() && (#[trigger] s[i]).key() == k
}

/// A key is in the contents exactly when some item carries it.
pub proof fn lemma_contents_holds<K, T: Keyed<K>>(s: Seq<T>, k: K)
    ensures
        contents::<K, T>(s).contains_key(k) == holds::<K, T>(s, k),
    decreases s.len(),
{
    if s.len() > 0 {
        let t = s.drop_last();
        lemma_contents_holds::<K, T>(t, k);
        if holds::<K, T>(t, k) {
            let i = choose|i: int| 0 <= i < t.len() && (#[trigger] t[i]).key() == k;
            assert(s[i].key() == k);
        }
        if holds::<K, T>(s, k) {
            let i = choose|i: int| 0 <= i < s.len() && (#[trigger] s[i]).key() == k;
            if i < t.len() {
                assert(t[i].key() == k);
            }
        }
        assert(s[s.len() - 1] == s.last());
    }
}

/// The contents of a sequence are finite.
pub proof fn lemma_contents_finite<K, T: Keyed<K>>(s: Seq<T>)
    ensures
        contents::<K, T>(s).dom().finite(),
    decreases s.len(),
{
    if s.len() > 0 {
        lemma_contents_finite::<K, T>(s.drop_last());
    }
}

/// Where keys are distinct, each item is what the contents give for its key.
pub proof fn lemma_contents_at<K, T: Keyed<K>>(s: Seq<T>, i: int)
    requires
        distinct::<K, T>(s),
        0 <= i < s.len(),
    ensures
        contents::<K, T>(s).contains_key(s[i].key()),
        contents::<K, T>(s)[s[i].key()] == s[i],
    decreases s.len(),
{
    let t = s.drop_last();
    assert(s.last() == s[s.len() - 1]);
    if i < t.len() {
        assert(distinct::<K, T>(t)) by {
            assert forall|a: int, b: int|
                0 <= a < t.len() && 0 <= b < t.len() && a != b implies (#[trigger] t[a]).key() != (
            #[trigger] t[b]).key() by {
                assert(t[a] == s[a] && t[b] == s[b]);
            }
        }
        assert(t[i] == s[i]);
        lemma_contents_at::<K, T>(t, i);
        assert(s[i].key() != s[s.len() - 1].key());
    }
}

/// A map that agrees with every item, and has no other key, is the contents.
pub proof fn lemma_contents_is<K, T: Keyed<K>>(s: Seq<T>, m: Map<K, T>)
    requires
        distinct::<K, T>(s),
        forall|i: int|
            0 <= i < s.len() ==> m.contains_key((#[trigger] s[i]).key()) && m[s[i].key()] == s[i],
        forall|k: K| m.contains_key(k) ==> holds::<K, T>(s, k),
    ensures
        contents::<K, T>(s) == m,
{
    let c = contents::<K, T>(s);
    assert forall|k: K| c.contains_key(k) == m.contains_key(k) by {
        lemma_contents_holds::<K, T>(s, k);
    }
    assert forall|k: K| c.contains_key(k) implies c[k] == m[k] by {
        lemma_contents_holds::<K, T>(s, k);
        let i = choose|i: int| 0 <= i < s.len() && (#[trigger] s[i]).key() == k;
        lemma_contents_at::<K, T>(s, i);
    }
    assert(c =~= m);
}

/// Replacing an item by one with the same key replaces that key's entry.
pub proof fn lemma_contents_update<K, T: Keyed<K>>(s: Seq<T>, i: int, x: T)
    requires
        distinct::<K, T>(s),
        0 <= i < s.len(),
        s[i].key() == x.key(),
    ensures
        distinct::<K, T>(s.update(i, x)),
        contents::<K, T>(s.update(i, x)) == contents::<K, T>(s).insert(x.key(), x),
{
    let u = s.update(i, x);
    let m = contents::<K, T>(s).insert(x.key(), x);
    assert forall|j: int| 0 <= j < u.len() implies m.contains_key((#[trigger] u[j]).key())
        && m[u[j].key()] == u[j] by {
        lemma_contents_at::<K, T>(s, j);
    }
    assert forall|k: K| m.contains_key(k) implies holds::<K, T>(u, k) by {
        if k == x.key() {
            assert(u[i].key() == k);
        } else {
            lemma_contents_holds::<K, T>(s, k);
            let j = choose|j: int| 0 <= j < s.len() && (#[trigger] s[j]).key() == k;
            assert(u[j].key() == k);
        }
    }
    lemma_contents_is::<K, T>(u, m);
}

/// Inserting an item with a new key adds that key's entry, wherever it goes.
pub proof fn lemma_contents_insert<K, T: Keyed<K>>(s: Seq<T>, i: int, x: T)
    requires
        distinct::<K, T>(s),
        0 <= i <= s.len(),
        !holds::<K, T>(s, x.key()),
    ensures
        distinct::<K, T>(s.insert(i, x)),
        contents::<K, T>(s.insert(i, x)) == contents::<K, T>(s).insert(x.key(), x),
{
    let u = s.insert(i, x);
    let m = contents::<K, T>(s).insert(x.key(), x);
    assert forall|j: int| 0 <= j < u.len() && j != i implies (#[trigger] u[j]).key() != x.key()
        && u[j] == s[if j < i { j } else { j - 1 }] by {
        assert(s[if j < i { j } else { j - 1 }].key() != x.key());
    }
    assert forall|j: int| 0 <= j < u.len() implies m.contains_key((#[trigger] u[j]).key())
        && m[u[j].key()] == u[j] by {
        if j != i {
            lemma_contents_at::<K, T>(s, if j < i { j } else { j - 1 });
        }
    }
    assert forall|k: K| m.contains_key(k) implies holds::<K, T>(u, k) by {
        if k == x.key() {
            assert(u[i].key() == k);
        } else {
            lemma_contents_holds::<K, T>(s, k);
            let j = choose|j: int| 0 <= j < s.len() && (#[trigger] s[j]).key() == k;
            assert(u[if j < i { j } else { j + 1 }].key() == k);
        }
    }
    assert(distinct::<K, T>(u)) by {
        assert forall|a: int, b: int|
            0 <= a < u.len() && 0 <= b < u.len() && a != b implies (#[trigger] u[a]).key() != (
        #[trigger] u[b]).key() by {
            if a != i && b != i {
                let a1 = if a < i { a } else { a - 1 };
                let b1 = if b < i { b } else { b - 1 };
                assert(s[a1].key() != s[b1].key());
            }
        }
    }
    lemma_contents_is::<K, T>(u, m);
}

/// Ascending keys are distinct.
pub proof fn lemma_ascending_distinct<T: Keyed<Seq<char>>>(s: Seq<T>)
    requires
        ascending(s),
    ensures
        distinct::<Seq<char>, T>(s),
{
    assert forall|i: int, j: int|
        0 <= i < s.len() && 0 <= j < s.len() && i != j implies (#[trigger] s[i]).key() != (
    #[trigger] s[j]).key() by {
        crate::text::lemma_precedes_irreflexive(s[i].key());
        if i < j {
            assert(crate::text::precedes(s[i].key(), s[j].key()));
        } else {
            assert(crate::text::precedes(s[j].key(), s[i].key()));
        }
    }
}

/// An ascending sequence is determined by its contents.
pub proof fn lemma_ascending_unique<T: Keyed<Seq<char>>>(a: Seq<T>, b: Seq<T>)
    requires
        ascending(a),
        ascending(b),
        contents::<Seq<char>, T>(a) == contents::<Seq<char>, T>(b),
    ensures
        a == b,
    decreases a.len(),
{
    lemma_ascending_distinct(a);
    lemma_ascending_distinct(b);
    if a.len() == 0 {
        if b.len() > 0 {
            lemma_contents_at::<Seq<char>, T>(b, 0);
        }
        assert(a =~= b);
    } else {
        let n = a.len() - 1;
        lemma_contents_at::<Seq<char>, T>(a, n);
        lemma_contents_holds::<Seq<char>, T>(b, a[n].key());
        let j = choose|j: int| 0 <= j < b.len() && (#[trigger] b[j]).key() == a[n].key();
        let last = b.len() - 1;
        lemma_contents_at::<Seq<char>, T>(b, last);
        lemma_contents_at::<Seq<char>, T>(b, j);
        if j < last {
            assert(crate::text::precedes(b[j].key(), b[last].key()));
            lemma_contents_holds::<Seq<char>, T>(a, b[last].key());
            let i = choose|i: int| 0 <= i < a.len() && (#[trigger] a[i]).key() == b[last].key();
            if i < n {
                assert(crate::text::precedes(a[i].key(), a[n].key()));
                crate::text::lemma_precedes_asymmetric(a[n].key(), b[last].key());
            } else {
                crate::text::lemma_precedes_irreflexive(a[n].key());
            }
        }
        let (ta, tb) = (a.drop_last(), b.drop_last());
        assert(ascending(ta)) by {
            assert forall|i: int, k: int| 0 <= i < k < ta.len() implies crate::text::precedes(
                (#[trigger] ta[i]).key(),
                (#[trigger] ta[k]).key(),
            ) by {
                assert(crate::text::precedes(a[i].key(), a[k].key()));
            }
        }
        assert(ascending(tb)) by {
            assert forall|i: int, k: int| 0 <= i < k < tb.len() implies crate::text::precedes(
                (#[trigger] tb[i]).key(),
                (#[trigger] tb[k]).key(),
            ) by {
                assert(crate::text::precedes(b[i].key(), b[k].key()));
            }
        }
        let k = a[n].key();
        lemma_contents_drop_last(a);
        lemma_contents_drop_last(b);
        lemma_ascending_unique(ta, tb);
        assert(a =~= ta.push(a[n]));
        assert(b =~= tb.push(b[last]));
    }
}

/// Without its last item, a sequence holds what it held but for that item's key.
proof fn lemma_contents_drop_last<T: Keyed<Seq<char>>>(a: Seq<T>)
    requires
        ascending(a),
        a.len() > 0,
    ensures
        contents::<Seq<char>, T>(a.drop_last()) == contents::<Seq<char>, T>(a).remove(
            a.last().key(),
        ),
{
    let t = a.drop_last();
    let k = a.last().key();
    lemma_ascending_distinct(a);
    lemma_contents_holds::<Seq<char>, T>(t, k);
    if holds::<Seq<char>, T>(t, k) {
        let i = choose|i: int| 0 <= i < t.len() && (#[trigger] t[i]).key() == k;
        assert(a[i].key() != a[a.len() - 1].key());
    }
    assert(contents::<Seq<char>, T>(t) =~= contents::<Seq<char>, T>(a).remove(k));
}

/// Find the item with a given key.
pub fn find<T: TextKeyed>(v: &Vec<T>, k: &str) -> (r: Option<usize>)
    requires
        ascending(v@),
    ensures
        match r {
            Some(i) => i < v@.len() && v@[i as int].key() == k@ && contents::<Seq<char>, T>(
                v@,
            ).contains_key(k@) && contents::<Seq<char>, T>(v@)[k@] == v@[i as int],
            None => !contents::<Seq<char>, T>(v@).contains_key(k@),
        },
{
    proof {
        lemma_ascending_distinct(v@);
        lemma_contents_holds::<Seq<char>, T>(v@, k@);
    }
    let mut i: usize = 0;
    while i < v.len()
        invariant
            i <= v@.len(),
            distinct::<Seq<char>, T>(v@),
            forall|j: int| 0 <= j < i ==> (#[trigger] v@[j]).key() != k@,
        decreases v@.len() - i,
    {
        if matches!(compare(v[i].key_text(), k), TextOrder::Same) {
            proof {
                lemma_contents_at::<Seq<char>, T>(v@, i as int);
            }
            return Some(i);
        }
        i = i + 1;
    }
    None
}

/// Put an item in its place, over any item that has its key.
pub fn put<T: TextKeyed>(v: &mut Vec<T>, x: T)
    requires
        ascending(old(v)@),
    ensures
        ascending(final(v)@),
        contents::<Seq<char>, T>(final(v)@) == contents::<Seq<char>, T>(old(v)@).insert(x.key(), x),
{
    let ghost s = v@;
    let ghost k = x.key();
    proof {
        lemma_ascending_distinct(s);
    }
    let mut i: usize = 0;
    while i < v.len()
        invariant_except_break
            v@ == s,
            x.key() == k,
            i <= s.len(),
            forall|j: int| 0 <= j < i ==> crate::text::precedes((#[trigger] s[j]).key(), k),
        ensures
            v@ == s,
            x.key() == k,
            i <= s.len(),
            forall|j: int| 0 <= j < i ==> crate::text::precedes((#[trigger] s[j]).key(), k),
            i < s.len() ==> s[i as int].key() == k || crate::text::precedes(k, s[i as int].key()),
        decreases s.len() - i,
    {
        match compare(v[i].key_text(), x.key_text()) {
            TextOrder::Before => {
                i = i + 1;
            },
            _ => {
                break;
            },
        }
    }
    if i < v.len() && matches!(compare(v[i].key_text(), x.key_text()), TextOrder::Same) {
        proof {
            lemma_contents_update::<Seq<char>, T>(s, i as int, x);
            let u = s.update(i as int, x);
            assert(ascending(u)) by {
                assert forall|a: int, b: int| 0 <= a < b < u.len() implies crate::text::precedes(
                    (#[trigger] u[a]).key(),
                    (#[trigger] u[b]).key(),
                ) by {
                    assert(crate::text::precedes(s[a].key(), s[b].key()));
                }
            }
        }
        v.set(i, x);
    } else {
        proof {
            assert forall|j: int| i <= j < s.len() implies crate::text::precedes(
                k,
                (#[trigger] s[j]).key(),
            ) by {
                if j > i {
                    assert(crate::text::precedes(s[i as int].key(), s[j].key()));
                    crate::text::lemma_precedes_transitive(k, s[i as int].key(), s[j].key());
                }
            }
            assert(!holds::<Seq<char>, T>(s, k)) by {
                crate::text::lemma_precedes_irreflexive(k);
            }
            lemma_contents_insert::<Seq<char>, T>(s, i as int, x);
            let u = s.insert(i as int, x);
            assert(ascending(u)) by {
                assert forall|a: int, b: int| 0 <= a < b < u.len() implies crate::text::precedes(
                    (#[trigger] u[a]).key(),
                    (#[trigger] u[b]).key(),
                ) by {
                    let a1 = if a < i { a } else { a - 1 };
                    let b1 = if b < i { b } else { b - 1 };
                    if a != i && b != i {
                        assert(crate::text::precedes(s[a1].key(), s[b1].key()));
                    } else if a == i {
                        assert(crate::text::precedes(k, s[b1].key()));
                    } else {
                        assert(crate::text::precedes(s[a1].key(), k));
                    }
                }
            }
        }
        v.insert(i, x);
    }
}

} // verus!
