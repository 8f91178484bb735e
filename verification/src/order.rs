//! Lexicographic order on integer keys: every preference order of the
//! battle (destinations, chase plans, targets) compares keys this way.
use vstd::prelude::*;
use core::cmp::Ordering;

verus! {

/// Lexicographic order of two keys (compared up to the shorter one).
pub open spec fn lex_order(a: Seq<i128>, b: Seq<i128>) -> Ordering
    decreases a.len(),
{
    if a.len() == 0 || b.len() == 0 {
        Ordering::Equal
    } else if a[0] < b[0] {
        Ordering::Less
    } else if a[0] > b[0] {
        Ordering::Greater
    } else {
        lex_order(a.drop_first(), b.drop_first())
    }
}

/// The opposite ordering.
pub open spec fn flip(o: Ordering) -> Ordering {
    match o {
        Ordering::Less => Ordering::Greater,
        Ordering::Greater => Ordering::Less,
        Ordering::Equal => Ordering::Equal,
    }
}

/// Swapping the keys flips the order.
pub proof fn lemma_lex_antisymmetric(a: Seq<i128>, b: Seq<i128>)
    ensures
        lex_order(b, a) == flip(lex_order(a, b)),
    decreases a.len(),
{
    if a.len() > 0 && b.len() > 0 && a[0] == b[0] {
        lemma_lex_antisymmetric(a.drop_first(), b.drop_first());
    }
}

/// Keys of equal length are ordered `Equal` exactly when they are equal.
pub proof fn lemma_lex_equal(a: Seq<i128>, b: Seq<i128>)
    requires
        a.len() == b.len(),
    ensures
        (lex_order(a, b) == Ordering::Equal) <==> (a == b),
    decreases a.len(),
{
    if a.len() == 0 {
        assert(a =~= b);
    } else if a[0] == b[0] {
        lemma_lex_equal(a.drop_first(), b.drop_first());
        if a.drop_first() == b.drop_first() {
            assert(a =~= b) by {
                assert forall|i: int| 0 <= i < a.len() implies a[i] == b[i] by {
                    if i > 0 {
                        assert(a[i] == a.drop_first()[i - 1]);
                        assert(b[i] == b.drop_first()[i - 1]);
                    }
                }
            }
        }
        if a == b {
            assert(a.drop_first() == b.drop_first());
        }
    }
}

/// `Less` is transitive.
pub proof fn lemma_lex_transitive(a: Seq<i128>, b: Seq<i128>, c: Seq<i128>)
    requires
        a.len() == b.len(),
        b.len() == c.len(),
        lex_order(a, b) == Ordering::Less,
        lex_order(b, c) == Ordering::Less,
    ensures
        lex_order(a, c) == Ordering::Less,
    decreases a.len(),
{
    if a[0] == b[0] && b[0] == c[0] {
        lemma_lex_transitive(a.drop_first(), b.drop_first(), c.drop_first());
    }
}

/// A key comes strictly before another when they agree before position `i`
/// and it is smaller at `i`.
pub proof fn lemma_key_lt_at(a: Seq<i128>, b: Seq<i128>, i: int)
    requires
        0 <= i < a.len(),
        i < b.len(),
        forall|j: int| 0 <= j < i ==> a[j] == b[j],
        a[i] < b[i],
    ensures
        key_lt(a, b),
    decreases i,
{
    if i > 0 {
        assert(a[0] == b[0]);
        assert forall|j: int| 0 <= j < i - 1 implies a.drop_first()[j] == b.drop_first()[j] by {
            assert(a[j + 1] == b[j + 1]);
        }
        lemma_key_lt_at(a.drop_first(), b.drop_first(), i - 1);
    }
}

/// A key strictly before another is no larger at its first position, and
/// when the two agree there, the rest of it comes strictly before the rest
/// of the other.
pub proof fn lemma_key_lt_head(a: Seq<i128>, b: Seq<i128>)
    requires
        key_lt(a, b),
    ensures
        a.len() > 0,
        b.len() > 0,
        a[0] <= b[0],
        a[0] == b[0] ==> key_lt(a.drop_first(), b.drop_first()),
{
}

/// The key from position `i` on.
pub open spec fn key_from(s: Seq<i128>, i: usize) -> Seq<i128> {
    s.skip(i as int)
}

/// The key from position `i + 1` on.
pub open spec fn key_after(s: Seq<i128>, i: usize) -> Seq<i128> {
    s.skip(i as int + 1)
}

/// Element `i` of a key.
pub open spec fn key_at(s: Seq<i128>, i: usize) -> i128 {
    s[i as int]
}

/// `a` comes strictly before `b`.
pub open spec fn key_lt(a: Seq<i128>, b: Seq<i128>) -> bool {
    lex_order(a, b) == Ordering::Less
}

/// No two keys come strictly before each other.
pub proof fn lemma_key_lt_asymmetric(a: Seq<i128>, b: Seq<i128>)
    ensures
        !(key_lt(a, b) && key_lt(b, a)),
{
    lemma_lex_antisymmetric(a, b);
}

/// Whether key `a` comes strictly before key `b` (keys of equal length).
pub fn key_less(a: &[i128], b: &[i128]) -> (r: bool)
    requires
        a@.len() == b@.len(),
    ensures
        r == key_lt(a@, b@),
{
    match lex_compare(a, b) {
        Ordering::Less => true,
        _ => false,
    }
}

/// Compares two keys of equal length lexicographically.
pub fn lex_compare(a: &[i128], b: &[i128]) -> (r: Ordering)
    requires
        a@.len() == b@.len(),
    ensures
        r == lex_order(a@, b@),
{
    let mut i: usize = 0;
    assert(key_from(a@, i) =~= a@);
    assert(key_from(b@, i) =~= b@);
    while i < a.len()
        invariant
            0 <= i <= a@.len(),
            a@.len() == b@.len(),
            lex_order(a@, b@) == lex_order(key_from(a@, i), key_from(b@, i)),
        decreases a@.len() - i,
    {
        let ghost sa = key_from(a@, i);
        let ghost sb = key_from(b@, i);
        assert(sa[0] == key_at(a@, i));
        assert(sb[0] == key_at(b@, i));
        if a[i] < b[i] {
            return Ordering::Less;
        }
        if a[i] > b[i] {
            return Ordering::Greater;
        }
        assert(sa.drop_first() =~= key_after(a@, i));
        assert(sb.drop_first() =~= key_after(b@, i));
        i = i + 1;
    }
    Ordering::Equal
}

} // verus!
