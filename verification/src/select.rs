//! Picking the entry with the smallest key.
use vstd::prelude::*;
use crate::arith::ix;
use crate::order::{key_less, key_lt, lemma_lex_antisymmetric, lemma_lex_equal, lemma_lex_transitive};

verus! {

/// Entry `i` has a key and it is smaller than every other entry's key.
pub open spec fn is_strict_min(keys: Seq<Option<Vec<i128>>>, i: int) -> bool {
    &&& 0 <= i < keys.len()
    &&& keys[i] is Some
    &&& forall|j: int| 0 <= j < keys.len() && j != i && (#[trigger] keys[j]) is Some ==> key_lt(keys[i]->0@, keys[j]->0@)
}

/// Keys that are present have length `n` and are pairwise different.
pub open spec fn keys_distinct(keys: Seq<Option<Vec<i128>>>, n: nat) -> bool {
    &&& forall|i: int| 0 <= i < keys.len() && (#[trigger] keys[i]) is Some ==> keys[i]->0@.len() == n
    &&& forall|i: int, j: int| 0 <= i < j < keys.len() && (#[trigger] keys[i]) is Some && (#[trigger] keys[j]) is Some ==> keys[i]->0@ != keys[j]->0@
}

/// The position of the smallest present key, or `None` if no key is present.
pub(crate) fn argmin_key(keys: &Vec<Option<Vec<i128>>>, n: Ghost<nat>) -> (r: Option<usize>)
    requires
        keys_distinct(keys@, n@),
    ensures
        r matches Some(i) ==> is_strict_min(keys@, ix(i)),
        r is None ==> forall|j: int| 0 <= j < keys@.len() ==> (#[trigger] keys@[j]) is None,
{
    let mut best: Option<usize> = None;
    let mut i: usize = 0;
    while i < keys.len()
        invariant
            0 <= i <= keys@.len(),
            keys_distinct(keys@, n@),
            best matches Some(b) ==> b < i && keys@[ix(b)] is Some && forall|j: int| 0 <= j < i && j != ix(b) && (#[trigger] keys@[j]) is Some ==> key_lt(keys@[ix(b)]->0@, keys@[j]->0@),
            best is None ==> forall|j: int| 0 <= j < i ==> (#[trigger] keys@[j]) is None,
        decreases keys@.len() - i,
    {
        match &keys[i] {
            Some(k) => {
                match best {
                    None => {
                        best = Some(i);
                    },
                    Some(b) => {
                        let bk = keys[b].as_ref().unwrap();
                        if key_less(k.as_slice(), bk.as_slice()) {
                            proof {
                                assert forall|j: int| 0 <= j < i + 1 && j != ix(i) && (#[trigger] keys@[j]) is Some implies key_lt(k@, keys@[j]->0@) by {
                                    if j != ix(b) {
                                        lemma_lex_transitive(k@, bk@, keys@[j]->0@);
                                    }
                                }
                            }
                            best = Some(i);
                        } else {
                            proof {
                                if ix(b) < ix(i) {
                                    assert(keys@[ix(b)]->0@ != keys@[ix(i)]->0@);
                                }
                                lemma_lex_equal(bk@, k@);
                                lemma_lex_antisymmetric(k@, bk@);
                            }
                        }
                    },
                }
            },
            None => {},
        }
        i = i + 1;
    }
    best
}

} // verus!
