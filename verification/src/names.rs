//! Sorted, duplicate-free name lists.
//!
//! Every output list of the affected-set computation is kept strictly sorted
//! in lexicographic order, which makes it both ascending and free of
//! duplicates, and pins the list down uniquely once its membership is fixed.

use vstd::prelude::*;
use crate::strings::lex_lt;
use crate::strings::str_eq;
use crate::strings::str_lex_lt;
use crate::strings::lemma_lex_lt_connected;
use crate::strings::lemma_lex_lt_transitive;

verus! {

/// Each entry comes strictly before the next: ascending order, no duplicates.
pub open spec fn strictly_sorted_names(s: Seq<String>) -> bool {
    forall|i: int, j: int| 0 <= i < j < s.len() ==> lex_lt(s[i]@, s[j]@)
}

/// Whether some entry of `s` spells out the characters `x`.
pub open spec fn names_contain(s: Seq<String>, x: Seq<char>) -> bool {
    exists|i: int| 0 <= i < s.len() && s[i]@ == x
}

/// Inserts `s` at its place in a strictly sorted list, keeping the list
/// strictly sorted; a name already present is not added again.
pub fn push_sorted(v: &mut Vec<String>, s: String)
    requires
        strictly_sorted_names(old(v)@),
    ensures
        strictly_sorted_names(final(v)@),
        forall|x: Seq<char>|
            #[trigger] names_contain(final(v)@, x) <==> (names_contain(old(v)@, x) || x == s@),
{
    let n = v.len();
    let mut k: usize = 0;
    loop
        invariant
            k <= n,
            n == v@.len(),
            v@ == old(v)@,
            strictly_sorted_names(v@),
            forall|t: int| 0 <= t < k ==> lex_lt(v@[t]@, s@),
        ensures
            k <= n,
            v@ == old(v)@,
            forall|t: int| 0 <= t < k ==> lex_lt(v@[t]@, s@),
            k < n ==> !lex_lt(v@[k as int]@, s@),
        decreases n - k,
    {
        if k >= n {
            break;
        }
        if !str_lex_lt(v[k].as_str(), s.as_str()) {
            break;
        }
        k += 1;
    }
    if k < n && str_eq(v[k].as_str(), s.as_str()) {
        proof {
            assert(names_contain(v@, s@));
            assert forall|x: Seq<char>|
                #[trigger] names_contain(v@, x) <==> (names_contain(old(v)@, x) || x == s@) by {
                if x == s@ {
                    assert(names_contain(v@, x));
                }
            }
        }
        return;
    }
    proof {
        if k < n {
            lemma_lex_lt_connected(s@, v@[k as int]@);
            assert(lex_lt(s@, v@[k as int]@));
        }
    }
    let ghost before = v@;
    v.insert(k, s);
    proof {
        before.insert_ensures(k as int, s);
        assert forall|i: int, j: int| 0 <= i < j < v@.len() implies lex_lt(v@[i]@, v@[j]@) by {
            let ki = k as int;
            if i < ki && j < ki {
                assert(v@[i] == before[i] && v@[j] == before[j]);
            } else if i < ki && j == ki {
                assert(v@[i] == before[i] && v@[j] == s);
            } else if i < ki && j > ki {
                assert(v@[i] == before[i] && v@[j] == before[j - 1]);
                assert(lex_lt(before[i]@, s@));
                assert(lex_lt(s@, before[j - 1]@)) by {
                    if j - 1 == ki {
                    } else {
                        assert(lex_lt(before[ki]@, before[j - 1]@));
                        lemma_lex_lt_transitive(s@, before[ki]@, before[j - 1]@);
                    }
                }
                lemma_lex_lt_transitive(before[i]@, s@, before[j - 1]@);
            } else if i == ki && j > ki {
                assert(v@[i] == s && v@[j] == before[j - 1]);
                if j - 1 > ki {
                    assert(lex_lt(before[ki]@, before[j - 1]@));
                    lemma_lex_lt_transitive(s@, before[ki]@, before[j - 1]@);
                }
            } else {
                assert(i > ki && j > ki);
                assert(v@[i] == before[i - 1] && v@[j] == before[j - 1]);
            }
        }
        assert forall|x: Seq<char>|
            #[trigger] names_contain(v@, x) <==> (names_contain(before, x) || x == s@) by {
            if names_contain(v@, x) {
                let i = choose|i: int| 0 <= i < v@.len() && v@[i]@ == x;
                if i < k as int {
                    assert(before[i]@ == x);
                    assert(names_contain(before, x));
                } else if i == k as int {
                    assert(x == s@);
                } else {
                    assert(before[i - 1]@ == x);
                    assert(names_contain(before, x));
                }
            }
            if names_contain(before, x) {
                let i = choose|i: int| 0 <= i < before.len() && before[i]@ == x;
                if i < k as int {
                    assert(v@[i]@ == x);
                } else {
                    assert(v@[i + 1]@ == x);
                }
                assert(names_contain(v@, x));
            }
            if x == s@ {
                assert(v@[k as int]@ == x);
                assert(names_contain(v@, x));
            }
        }
    }
}

} // verus!
