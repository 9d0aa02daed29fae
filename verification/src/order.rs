//! The lexicographic order of strings, character by character.

use crate::text::views;
use vstd::prelude::*;
use vstd::std_specs::iter::IteratorSpec;

verus! {

/// `a` and `b` agree on their first `k` characters, and there `a` ends while
/// `b` goes on, or `a` holds the smaller character.
pub open spec fn parts_at(a: Seq<char>, b: Seq<char>, k: int) -> bool {
    &&& 0 <= k <= a.len()
    &&& k < b.len()
    &&& forall|j: int| 0 <= j < k ==> a[j] == b[j]
    &&& k < a.len() ==> (a[k] as u32) < (b[k] as u32)
}

/// `a` comes before `b` in the lexicographic order: `a` is a proper prefix of
/// `b`, or at the first place where they differ `a` holds the character with
/// the smaller code.
pub open spec fn lex_lt(a: Seq<char>, b: Seq<char>) -> bool {
    exists|k: int| parts_at(a, b, k)
}

/// Each string of `s` comes before the next, so that `s` is in order and
/// holds nothing twice.
pub open spec fn increasing(s: Seq<Seq<char>>) -> bool {
    forall|i: int, j: int| 0 <= i < j < s.len() ==> lex_lt(s[i], s[j])
}

/// How one string stands to another in the lexicographic order.
#[derive(Debug, Clone, Copy, PartialEq, Eq, Structural)]
pub enum Rank {
    Before,
    Same,
    After,
}

/// No string comes before itself.
pub proof fn lemma_lex_lt_irreflexive(a: Seq<char>)
    ensures
        !lex_lt(a, a),
{
}

/// Of two strings at most one comes before the other.
pub proof fn lemma_lex_lt_asymmetric(a: Seq<char>, b: Seq<char>)
    requires
        lex_lt(a, b),
    ensures
        !lex_lt(b, a),
{
    if lex_lt(b, a) {
        let k = choose|k: int| parts_at(a, b, k);
        let m = choose|m: int| parts_at(b, a, m);
        assert(k == m);
    }
}

/// What comes before a string that comes before a third comes before the
/// third.
pub proof fn lemma_lex_lt_transitive(a: Seq<char>, b: Seq<char>, c: Seq<char>)
    requires
        lex_lt(a, b),
        lex_lt(b, c),
    ensures
        lex_lt(a, c),
{
    let k = choose|k: int| parts_at(a, b, k);
    let m = choose|m: int| parts_at(b, c, m);
    if k <= m {
        assert(parts_at(a, c, k));
    } else {
        assert(parts_at(a, c, m));
    }
}

/// Compares `a` with `b` in the lexicographic order.
pub fn rank(a: &str, b: &str) -> (r: Rank)
    ensures
        r == Rank::Before <==> lex_lt(a@, b@),
        r == Rank::Same <==> a@ == b@,
        r == Rank::After <==> lex_lt(b@, a@),
{
    let mut x = a.chars();
    let mut y = b.chars();
    let ghost mut i: int = 0;
    loop
        invariant
            0 <= i <= a@.len(),
            i <= b@.len(),
            x.remaining() == a@.skip(i),
            y.remaining() == b@.skip(i),
            forall|j: int| 0 <= j < i ==> a@[j] == b@[j],
        decreases a@.len() - i,
    {
        let p = x.next();
        let q = y.next();
        match (p, q) {
            (None, None) => {
                proof {
                    assert(a@ =~= b@);
                    lemma_lex_lt_irreflexive(a@);
                }
                return Rank::Same;
            },
            (None, Some(_)) => {
                proof {
                    assert(parts_at(a@, b@, i));
                    lemma_lex_lt_asymmetric(a@, b@);
                }
                return Rank::Before;
            },
            (Some(_), None) => {
                proof {
                    assert(parts_at(b@, a@, i));
                    lemma_lex_lt_asymmetric(b@, a@);
                }
                return Rank::After;
            },
            (Some(c), Some(d)) => {
                let u: u32 = c as u32;
                let v: u32 = d as u32;
                if u < v {
                    proof {
                        assert(parts_at(a@, b@, i));
                        lemma_lex_lt_asymmetric(a@, b@);
                    }
                    return Rank::Before;
                }
                if v < u {
                    proof {
                        assert(parts_at(b@, a@, i));
                        lemma_lex_lt_asymmetric(b@, a@);
                    }
                    return Rank::After;
                }
                proof {
                    vstd::utf8::char_u32_cast(c, u);
                    vstd::utf8::char_u32_cast(d, v);
                    i = i + 1;
                }
            },
        }
    }
}

/// Looks for `s` in the ordered list `list`, by bisection. Returns the
/// number of strings that come before `s`, which is the place of `s` in the
/// list where it is one of them, and whether it is one of them.
pub fn position(list: &Vec<String>, s: &str) -> (r: (usize, bool))
    requires
        increasing(views(list@)),
    ensures
        r.0 <= list.len(),
        forall|j: int| 0 <= j < r.0 ==> lex_lt(#[trigger] views(list@)[j], s@),
        forall|j: int|
            r.0 <= j < list.len() && !(r.1 && j == r.0) ==> lex_lt(
                s@,
                #[trigger] views(list@)[j],
            ),
        r.1 <==> views(list@).contains(s@),
        r.1 ==> r.0 < list.len() && views(list@)[r.0 as int] == s@,
{
    let ghost names = views(list@);
    let mut low: usize = 0;
    let mut high: usize = list.len();
    while low < high
        invariant
            low <= high <= list.len(),
            names == views(list@),
            increasing(names),
            forall|j: int| 0 <= j < low ==> lex_lt(#[trigger] names[j], s@),
            forall|j: int| high <= j < names.len() ==> lex_lt(s@, #[trigger] names[j]),
        decreases high - low,
    {
        let middle = low + (high - low) / 2;
        match rank(list[middle].as_str(), s) {
            Rank::Before => {
                proof {
                    assert forall|j: int| 0 <= j < middle + 1 implies lex_lt(
                        #[trigger] names[j],
                        s@,
                    ) by {
                        if j < middle {
                            lemma_lex_lt_transitive(names[j], names[middle as int], s@);
                        }
                    }
                }
                low = middle + 1;
            },
            Rank::Same => {
                proof {
                    assert(names[middle as int] == s@);
                }
                return (middle, true);
            },
            Rank::After => {
                proof {
                    assert forall|j: int| middle <= j < names.len() implies lex_lt(
                        s@,
                        #[trigger] names[j],
                    ) by {
                        if middle < j {
                            lemma_lex_lt_transitive(s@, names[middle as int], names[j]);
                        }
                    }
                }
                high = middle;
            },
        }
    }
    proof {
        lemma_lex_lt_irreflexive(s@);
    }
    (low, false)
}

/// Puts `s` at its place in the ordered list `list`, unless it is one of its
/// strings already.
pub fn insert(list: &mut Vec<String>, s: &str)
    requires
        increasing(views(old(list)@)),
    ensures
        increasing(views(final(list)@)),
        forall|t: Seq<char>| #[trigger]
            views(final(list)@).contains(t) <==> views(old(list)@).contains(t) || t == s@,
{
    let (k, found) = position(list, s);
    if !found {
        let ghost before = views(list@);
        list.insert(k, s.to_owned());
        proof {
            let after = views(list@);
            assert(after =~= before.insert(k as int, s@));
            before.insert_ensures(k as int, s@);
            assert forall|i: int, j: int| 0 <= i < j < after.len() implies lex_lt(
                after[i],
                after[j],
            ) by {
                if i < k && k < j {
                    lemma_lex_lt_transitive(after[i], s@, after[j]);
                }
            }
            assert forall|t: Seq<char>| #[trigger]
                after.contains(t) <==> before.contains(t) || t == s@ by {
                if after.contains(t) {
                    let j = choose|j: int| 0 <= j < after.len() && after[j] == t;
                    if j < k {
                        assert(before[j] == t);
                    } else if j > k {
                        assert(before[j - 1] == t);
                    }
                }
                if before.contains(t) {
                    let j = choose|j: int| 0 <= j < before.len() && before[j] == t;
                    if j < k {
                        assert(after[j] == t);
                    } else {
                        assert(after[j + 1] == t);
                    }
                }
                if t == s@ {
                    assert(after[k as int] == t);
                }
            }
        }
    }
}

} // verus!
