//! Lemmas about duplicate-free sequences viewed as sets of their elements.

use vstd::prelude::*;

verus! {

/// Prepending a fresh element to a duplicate-free sequence keeps it
/// duplicate free and adds exactly that element to the set of elements.
pub proof fn lemma_prepend_distinct<A>(s: Seq<A>, x: A)
    requires
        s.no_duplicates(),
        !s.contains(x),
    ensures
        (seq![x] + s).no_duplicates(),
        (seq![x] + s).to_set() == s.to_set().insert(x),
        (seq![x] + s).len() == s.len() + 1,
{
    let s2 = seq![x] + s;
    assert(s2[0] == x);
    assert(forall|j: int| 1 <= j < s2.len() ==> s2[j] == s[j - 1]);
    assert(s2.no_duplicates()) by {
        assert forall|j: int, k: int| 0 <= j < k < s2.len() implies s2[j] != s2[k] by {
            if j == 0 {
                assert(s2[k] == s[k - 1]);
                assert(s.contains(s[k - 1]));
            }
        }
    }
    assert(s2.to_set() =~= s.to_set().insert(x)) by {
        assert(s2.contains(x));
        assert forall|y: A| s2.to_set().contains(y) && y != x implies s.to_set().contains(y) by {
            let j = choose|j: int| 0 <= j < s2.len() && s2[j] == y;
            assert(s[j - 1] == y);
            assert(s.contains(y));
        }
        assert forall|y: A| s.to_set().contains(y) implies s2.to_set().contains(y) by {
            let j = choose|j: int| 0 <= j < s.len() && s[j] == y;
            assert(s2[j + 1] == y);
            assert(s2.contains(y));
        }
    }
}

/// Dropping the last element of a duplicate-free sequence removes exactly
/// that element from the set of elements.
pub proof fn lemma_drop_last_distinct<A>(s: Seq<A>)
    requires
        s.no_duplicates(),
        s.len() > 0,
    ensures
        s.drop_last().no_duplicates(),
        s.drop_last().to_set() == s.to_set().remove(s.last()),
        !s.drop_last().contains(s.last()),
{
    let s2 = s.drop_last();
    assert(s2.to_set() =~= s.to_set().remove(s.last())) by {
        assert forall|y: A| s2.to_set().contains(y) implies s.to_set().contains(y) && y
            != s.last() by {
            let j = choose|j: int| 0 <= j < s2.len() && s2[j] == y;
            assert(s[j] == y);
            assert(s.contains(y));
        }
        assert forall|y: A| s.to_set().contains(y) && y != s.last() implies s2.to_set().contains(
            y,
        ) by {
            let j = choose|j: int| 0 <= j < s.len() && s[j] == y;
            assert(j != s.len() - 1);
            assert(s2[j] == y);
            assert(s2.contains(y));
        }
    }
    if s2.contains(s.last()) {
        let j = choose|j: int| 0 <= j < s2.len() && s2[j] == s.last();
        assert(s[j] == s[s.len() - 1]);
        assert(false);
    }
}

/// Removing the first occurrence of a value from a duplicate-free sequence
/// removes exactly that value from the set of elements.
pub proof fn lemma_remove_value_distinct<A>(s: Seq<A>, x: A)
    requires
        s.no_duplicates(),
    ensures
        s.remove_value(x).no_duplicates(),
        s.remove_value(x).to_set() == s.to_set().remove(x),
        s.contains(x) ==> s.remove_value(x).len() == s.len() - 1,
        !s.contains(x) ==> s.remove_value(x) == s,
{
    s.index_of_first_ensures(x);
    if s.contains(x) {
        let i = s.index_of_first(x).unwrap();
        let s2 = s.remove(i);
        assert(forall|j: int| 0 <= j < i ==> s2[j] == s[j]);
        assert(forall|j: int| i <= j < s2.len() ==> s2[j] == s[j + 1]);
        assert(s2.no_duplicates()) by {
            assert forall|j: int, k: int| 0 <= j < k < s2.len() implies s2[j] != s2[k] by {
                let j0: int = if j < i { j } else { j + 1 };
                let k0: int = if k < i { k } else { k + 1 };
                assert(s2[j] == s[j0] && s2[k] == s[k0]);
            }
        }
        assert(s2.to_set() =~= s.to_set().remove(x)) by {
            assert forall|y: A| s2.to_set().contains(y) implies s.to_set().contains(y) && y
                != x by {
                let j = choose|j: int| 0 <= j < s2.len() && s2[j] == y;
                let j0: int = if j < i { j } else { j + 1 };
                assert(s[j0] == y);
                assert(s.contains(y));
                assert(j0 != i);
                assert(s[i] == x);
            }
            assert forall|y: A| s.to_set().contains(y) && y != x implies s2.to_set().contains(
                y,
            ) by {
                let j0 = choose|j0: int| 0 <= j0 < s.len() && s[j0] == y;
                assert(j0 != i);
                let j: int = if j0 < i { j0 } else { j0 - 1 };
                assert(s2[j] == y);
                assert(s2.contains(y));
            }
        }
    } else {
        assert(s.to_set() =~= s.to_set().remove(x)) by {
            assert(!s.to_set().contains(x));
        }
    }
}

/// Taking one more element extends the set of elements taken by exactly
/// that element.
pub proof fn lemma_take_push_to_set<A>(s: Seq<A>, i: int)
    requires
        0 <= i < s.len(),
    ensures
        s.take(i + 1).to_set() == s.take(i).to_set().insert(s[i]),
{
    let a = s.take(i);
    let b = s.take(i + 1);
    assert(b[i] == s[i]);
    assert(b.contains(s[i]));
    assert(b.to_set() =~= a.to_set().insert(s[i])) by {
        assert forall|x: A| b.to_set().contains(x) && x != s[i] implies a.to_set().contains(x) by {
            let j = choose|j: int| 0 <= j < b.len() && b[j] == x;
            assert(j < i);
            assert(a[j] == x);
            assert(a.contains(x));
        }
        assert forall|x: A| a.to_set().contains(x) implies b.to_set().contains(x) by {
            let j = choose|j: int| 0 <= j < a.len() && a[j] == x;
            assert(b[j] == x);
            assert(b.contains(x));
        }
    }
}

/// Removing index `i` of a duplicate-free sequence by swapping in the last
/// element keeps the elements distinct and removes exactly `s[i]` from the
/// set of elements.
pub proof fn lemma_swap_remove_distinct<A>(s: Seq<A>, i: int)
    requires
        0 <= i < s.len(),
        s.no_duplicates(),
    ensures
        s.update(i, s.last()).drop_last().no_duplicates(),
        s.update(i, s.last()).drop_last().to_set() == s.to_set().remove(s[i]),
{
    let s2 = s.update(i, s.last()).drop_last();
    assert(s2.len() == s.len() - 1);
    assert(forall|j: int| 0 <= j < s2.len() && j != i ==> s2[j] == s[j]);
    assert(i < s.len() - 1 ==> s2[i] == s.last());
    assert(s2.no_duplicates()) by {
        assert forall|j: int, k: int| 0 <= j < k < s2.len() implies s2[j] != s2[k] by {
            if j == i {
                assert(s2[j] == s.last() && s2[k] == s[k] && k < s.len() - 1);
            } else if k == i {
                assert(s2[k] == s.last() && s2[j] == s[j] && j < s.len() - 1);
            }
        }
    }
    assert(s2.to_set() =~= s.to_set().remove(s[i])) by {
        assert forall|x: A| s2.to_set().contains(x) implies s.to_set().contains(x) && x
            != s[i] by {
            let j = choose|j: int| 0 <= j < s2.len() && s2[j] == x;
            if j == i {
                assert(s[s.len() - 1] == x);
                assert(s.contains(x));
                assert(i < s.len() - 1);
            } else {
                assert(s[j] == x);
                assert(s.contains(x));
            }
        }
        assert forall|x: A| s.to_set().contains(x) && x != s[i] implies s2.to_set().contains(
            x,
        ) by {
            let j = choose|j: int| 0 <= j < s.len() && s[j] == x;
            if j == s.len() - 1 {
                if i < s.len() - 1 {
                    assert(s2[i] == x);
                    assert(s2.contains(x));
                }
            } else {
                assert(s2[j] == x);
                assert(s2.contains(x));
            }
        }
    }
}

} // verus!
