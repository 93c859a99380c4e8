//! The order of identifiers: by character, as `str` orders them.

use vstd::prelude::*;

verus! {

/// How two texts stand to each other.
#[derive(Clone, Copy, Debug, PartialEq, Eq, Structural)]
pub enum TextOrder {
    /// The first comes strictly before the second.
    Before,
    /// They hold the same characters.
    Same,
    /// The first comes strictly after the second.
    After,
}

/// `a` comes strictly before `b`: at the first place where they differ it has the smaller
/// character, or it ends there and `b` does not.
pub open spec fn precedes(a: Seq<char>, b: Seq<char>) -> bool
    decreases a.len(),
{
    if b.len() == 0 {
        false
    } else if a.len() == 0 {
        true
    } else if a[0] == b[0] {
        precedes(a.drop_first(), b.drop_first())
    } else {
        a[0] < b[0]
    }
}

/// Nothing comes before itself.
pub proof fn lemma_precedes_irreflexive(a: Seq<char>)
    ensures
        !precedes(a, a),
    decreases a.len(),
{
    if a.len() > 0 {
        lemma_precedes_irreflexive(a.drop_first());
    }
}

/// The order is transitive.
pub proof fn lemma_precedes_transitive(a: Seq<char>, b: Seq<char>, c: Seq<char>)
    requires
        precedes(a, b),
        precedes(b, c),
    ensures
        precedes(a, c),
    decreases a.len(),
{
    if a.len() > 0 && a[0] == b[0] && b[0] == c[0] {
        lemma_precedes_transitive(a.drop_first(), b.drop_first(), c.drop_first());
    }
}

/// Of two different texts, one comes before the other.
pub proof fn lemma_precedes_total(a: Seq<char>, b: Seq<char>)
    ensures
        precedes(a, b) || a == b || precedes(b, a),
    decreases a.len(),
{
    if a.len() == 0 {
        if b.len() == 0 {
            assert(a =~= b);
        }
    } else if b.len() > 0 && a[0] == b[0] {
        lemma_precedes_total(a.drop_first(), b.drop_first());
        if a.drop_first() == b.drop_first() {
            assert(a =~= seq![a[0]] + a.drop_first());
            assert(b =~= seq![b[0]] + b.drop_first());
        }
    }
}

/// No two texts come before each other.
pub proof fn lemma_precedes_asymmetric(a: Seq<char>, b: Seq<char>)
    ensures
        !(precedes(a, b) && precedes(b, a)),
{
    if precedes(a, b) && precedes(b, a) {
        lemma_precedes_transitive(a, b, a);
        lemma_precedes_irreflexive(a);
    }
}

/// A common beginning does not matter: what follows it decides.
proof fn lemma_precedes_prefix(a: Seq<char>, b: Seq<char>, i: int)
    requires
        0 <= i <= a.len(),
        i <= b.len(),
        a.take(i) == b.take(i),
    ensures
        precedes(a, b) == precedes(a.skip(i), b.skip(i)),
    decreases i,
{
    if i == 0 {
        assert(a.skip(0) =~= a);
        assert(b.skip(0) =~= b);
    } else {
        assert(a[0] == a.take(i)[0]);
        assert(b[0] == b.take(i)[0]);
        let (ta, tb) = (a.drop_first(), b.drop_first());
        assert(ta.take(i - 1) =~= a.take(i).drop_first());
        assert(tb.take(i - 1) =~= b.take(i).drop_first());
        lemma_precedes_prefix(ta, tb, i - 1);
        assert(ta.skip(i - 1) =~= a.skip(i));
        assert(tb.skip(i - 1) =~= b.skip(i));
    }
}

/// Compare two texts character by character.
pub fn compare(a: &str, b: &str) -> (r: TextOrder)
    ensures
        r is Before <==> precedes(a@, b@),
        r is Same <==> a@ == b@,
        r is After <==> precedes(b@, a@),
{
    let mut left = a.chars();
    let mut right = b.chars();
    let ghost mut i: int = 0;
    loop
        invariant
            0 <= i <= a@.len(),
            i <= b@.len(),
            a@.take(i) == b@.take(i),
            vstd::std_specs::iter::IteratorSpec::remaining(&left) == a@.skip(i),
            vstd::std_specs::iter::IteratorSpec::remaining(&right) == b@.skip(i),
        decreases a@.len() - i,
    {
        proof {
            lemma_precedes_prefix(a@, b@, i);
            lemma_precedes_prefix(b@, a@, i);
            lemma_precedes_asymmetric(a@, b@);
            lemma_precedes_irreflexive(a@);
            assert(a@ == b@ ==> a@.skip(i) == b@.skip(i));
            assert(a@ =~= a@.take(i) + a@.skip(i));
            assert(b@ =~= b@.take(i) + b@.skip(i));
        }
        match (left.next(), right.next()) {
            (None, None) => {
                assert(a@.skip(i) =~= b@.skip(i));
                return TextOrder::Same;
            },
            (None, Some(_)) => {
                return TextOrder::Before;
            },
            (Some(_), None) => {
                return TextOrder::After;
            },
            (Some(x), Some(y)) => {
                if x < y {
                    return TextOrder::Before;
                }
                if x != y {
                    return TextOrder::After;
                }
                proof {
                    assert(a@.take(i + 1) =~= a@.take(i).push(x));
                    assert(b@.take(i + 1) =~= b@.take(i).push(y));
                    assert(a@.skip(i + 1) =~= a@.skip(i).drop_first());
                    assert(b@.skip(i + 1) =~= b@.skip(i).drop_first());
                    i = i + 1;
                }
            },
        }
    }
}

/// The first place where two texts differ decides: the one with the smaller code point there
/// comes first.
pub proof fn law_first_difference_decides(a: Seq<char>, b: Seq<char>, i: int)
    requires
        0 <= i < a.len(),
        i < b.len(),
        forall|j: int| 0 <= j < i ==> a[j] == b[j],
        a[i] != b[i],
    ensures
        precedes(a, b) <==> (a[i] as int) < (b[i] as int),
{
    assert(a.take(i) =~= b.take(i));
    lemma_precedes_prefix(a, b, i);
    assert(a.skip(i)[0] == a[i] && b.skip(i)[0] == b[i]);
}

/// A text comes before every longer one that begins with it, and no text before a shorter one
/// that it begins with.
pub proof fn law_beginnings_come_first(a: Seq<char>, b: Seq<char>)
    requires
        a.len() < b.len(),
        forall|j: int| 0 <= j < a.len() ==> a[j] == b[j],
    ensures
        precedes(a, b),
        !precedes(b, a),
{
    let n = a.len() as int;
    assert(a.take(n) =~= b.take(n));
    lemma_precedes_prefix(a, b, n);
    lemma_precedes_prefix(b, a, n);
}

} // verus!
