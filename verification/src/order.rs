//! Lexicographic order on character sequences (the order of `String`'s `Ord`:
//! UTF-8 byte order and code-point order agree), and sorted sets of sequences.
use vstd::prelude::*;
use crate::text::views;

verus! {

/// `a` sorts before `b`, comparing from position `i` on.
pub open spec fn lex_lt_from(a: Seq<char>, b: Seq<char>, i: int) -> bool
    decreases b.len() - i,
{
    if i < 0 || i >= b.len() {
        false
    } else if i >= a.len() {
        true
    } else if a[i] != b[i] {
        a[i] < b[i]
    } else {
        lex_lt_from(a, b, i + 1)
    }
}

/// `a` sorts strictly before `b`.
pub open spec fn lex_lt(a: Seq<char>, b: Seq<char>) -> bool {
    lex_lt_from(a, b, 0)
}

/// Every element sorts strictly before every later one (sorted, no repeats).
pub open spec fn strictly_sorted(s: Seq<Seq<char>>) -> bool {
    forall|i: int, j: int| 0 <= i < j < s.len() ==> lex_lt(#[trigger] s[i], #[trigger] s[j])
}

proof fn lemma_irreflexive_from(a: Seq<char>, i: int)
    requires
        0 <= i,
    ensures
        !lex_lt_from(a, a, i),
    decreases a.len() - i,
{
    if i < a.len() {
        lemma_irreflexive_from(a, i + 1);
    }
}

pub proof fn lemma_irreflexive(a: Seq<char>)
    ensures
        !lex_lt(a, a),
{
    lemma_irreflexive_from(a, 0);
}

proof fn lemma_transitive_from(a: Seq<char>, b: Seq<char>, c: Seq<char>, i: int)
    requires
        lex_lt_from(a, b, i),
        lex_lt_from(b, c, i),
    ensures
        lex_lt_from(a, c, i),
    decreases b.len() - i,
{
    if i < a.len() && a[i] == b[i] && b[i] == c[i] {
        lemma_transitive_from(a, b, c, i + 1);
    }
}

pub proof fn lemma_transitive(a: Seq<char>, b: Seq<char>, c: Seq<char>)
    requires
        lex_lt(a, b),
        lex_lt(b, c),
    ensures
        lex_lt(a, c),
{
    lemma_transitive_from(a, b, c, 0);
}

proof fn lemma_total_from(a: Seq<char>, b: Seq<char>, i: int)
    requires
        0 <= i <= a.len(),
        i <= b.len(),
        forall|k: int| 0 <= k < i ==> a[k] == b[k],
        a != b,
    ensures
        lex_lt_from(a, b, i) || lex_lt_from(b, a, i),
    decreases a.len() - i,
{
    if i == a.len() {
        if i == b.len() {
            assert(a =~= b);
        }
    } else if i < b.len() && a[i] == b[i] {
        lemma_total_from(a, b, i + 1);
    }
}

proof fn lemma_prefix_first_from(a: Seq<char>, x: Seq<char>, i: int)
    requires
        0 <= i <= a.len(),
        x.len() > 0,
    ensures
        lex_lt_from(a, a + x, i),
    decreases a.len() - i,
{
    if i < a.len() {
        assert((a + x)[i] == a[i]);
        lemma_prefix_first_from(a, x, i + 1);
    }
}

/// A proper prefix sorts before every longer sequence that extends it, and
/// never after it (as `String`'s order has it: "nord" < "nord-light").
pub proof fn proper_prefix_sorts_first(a: Seq<char>, x: Seq<char>)
    requires
        x.len() > 0,
    ensures
        lex_lt(a, a + x),
        !lex_lt(a + x, a),
{
    lemma_prefix_first_from(a, x, 0);
    if lex_lt(a + x, a) {
        lemma_transitive(a, a + x, a);
        lemma_irreflexive(a);
    }
}

proof fn lemma_first_difference_from(a: Seq<char>, b: Seq<char>, k: int, i: int)
    requires
        0 <= i <= k < a.len(),
        k < b.len(),
        forall|j: int| i <= j < k ==> a[j] == b[j],
        a[k] < b[k],
    ensures
        lex_lt_from(a, b, i),
    decreases k - i,
{
    if i < k {
        lemma_first_difference_from(a, b, k, i + 1);
    }
}

/// Two sequences are ordered by the first position where they differ, by the
/// characters' code points there.
pub proof fn first_difference_decides(a: Seq<char>, b: Seq<char>, k: int)
    requires
        0 <= k < a.len(),
        k < b.len(),
        forall|j: int| 0 <= j < k ==> a[j] == b[j],
        a[k] < b[k],
    ensures
        lex_lt(a, b),
        !lex_lt(b, a),
{
    lemma_first_difference_from(a, b, k, 0);
    if lex_lt(b, a) {
        lemma_transitive(a, b, a);
        lemma_irreflexive(a);
    }
}

/// Two different sequences are ordered one way or the other.
pub proof fn lemma_total(a: Seq<char>, b: Seq<char>)
    requires
        a != b,
    ensures
        lex_lt(a, b) || lex_lt(b, a),
{
    lemma_total_from(a, b, 0);
}

/// A strictly sorted sequence is determined by the set of its elements.
pub proof fn lemma_sorted_unique(a: Seq<Seq<char>>, b: Seq<Seq<char>>)
    requires
        strictly_sorted(a),
        strictly_sorted(b),
        a.to_set() == b.to_set(),
    ensures
        a == b,
    decreases a.len(),
{
    if a.len() == 0 {
        if b.len() > 0 {
            assert(a.to_set().contains(b[0]));
        }
        assert(a =~= b);
    } else {
        assert(b.to_set().contains(a[0]));
        let j = choose|j: int| 0 <= j < b.len() && b[j] == a[0];
        assert(a.to_set().contains(b[0]));
        let i = choose|i: int| 0 <= i < a.len() && a[i] == b[0];
        if j > 0 {
            assert(lex_lt(b[0], b[j]));
            if i > 0 {
                assert(lex_lt(a[0], a[i]));
                lemma_transitive(a[0], a[i], a[0]);
            }
            lemma_irreflexive(a[0]);
        }
        assert(a[0] == b[0]);
        let a1 = a.drop_first();
        let b1 = b.drop_first();
        assert forall|x: Seq<char>| a1.to_set().contains(x) implies b1.to_set().contains(x) by {
            let k = choose|k: int| 0 <= k < a1.len() && a1[k] == x;
            assert(a.to_set().contains(x));
            let m = choose|m: int| 0 <= m < b.len() && b[m] == x;
            if m == 0 {
                assert(lex_lt(a[0], a[k + 1]));
                lemma_irreflexive(a[0]);
            }
            assert(b1[m - 1] == x);
        }
        assert forall|x: Seq<char>| b1.to_set().contains(x) implies a1.to_set().contains(x) by {
            let k = choose|k: int| 0 <= k < b1.len() && b1[k] == x;
            assert(b.to_set().contains(x));
            let m = choose|m: int| 0 <= m < a.len() && a[m] == x;
            if m == 0 {
                assert(lex_lt(b[0], b[k + 1]));
                lemma_irreflexive(b[0]);
            }
            assert(a1[m - 1] == x);
        }
        assert(a1.to_set() =~= b1.to_set());
        lemma_sorted_unique(a1, b1);
        assert(a =~= b) by {
            assert forall|k: int| 0 <= k < a.len() implies a[k] == b[k] by {
                if k > 0 {
                    assert(a[k] == a1[k - 1]);
                }
            }
        }
    }
}

/// Whether `a` sorts strictly before `b`.
pub fn lex_less(a: &[char], b: &[char]) -> (r: bool)
    ensures
        r == lex_lt(a@, b@),
{
    let mut i: usize = 0;
    while i < a.len() && i < b.len()
        invariant
            i <= a.len(),
            i <= b.len(),
            lex_lt(a@, b@) == lex_lt_from(a@, b@, i as int),
        decreases a.len() - i,
    {
        if a[i] != b[i] {
            return a[i] < b[i];
        }
        i = i + 1;
    }
    i < b.len()
}

/// Adds `x` to a strictly sorted vector unless it is there already, keeping it
/// strictly sorted.
pub fn insert_sorted(v: &mut Vec<Vec<char>>, x: Vec<char>)
    requires
        strictly_sorted(views(old(v)@)),
    ensures
        strictly_sorted(views(final(v)@)),
        views(final(v)@).to_set() == views(old(v)@).to_set().insert(x@),
{
    let ghost s = views(v@);
    let mut p: usize = 0;
    while p < v.len() && lex_less(v[p].as_slice(), x.as_slice())
        invariant
            p <= v.len(),
            s == views(v@),
            strictly_sorted(s),
            forall|k: int| 0 <= k < p ==> lex_lt(#[trigger] s[k], x@),
        decreases v.len() - p,
    {
        assert(v@[p as int]@ == s[p as int]);
        p = p + 1;
    }
    if p < v.len() {
        assert(v@[p as int]@ == s[p as int]);
        if crate::text::chars_equal(v[p].as_slice(), x.as_slice()) {
            assert(s.to_set().insert(x@) =~= s.to_set());
            return;
        }
        assert(!lex_lt(s[p as int], x@));
        proof {
            lemma_total(s[p as int], x@);
        }
        assert(lex_lt(x@, s[p as int]));
    }
    let ghost xv = x@;
    v.insert(p, x);
    let ghost t = views(v@);
    assert(t =~= s.insert(p as int, xv));
    assert forall|i: int, j: int| 0 <= i < j < t.len() implies lex_lt(#[trigger] t[i], #[trigger] t[j]) by {
        if j < p {
        } else if j == p {
        } else if i < p {
            assert(t[j] == s[j - 1]);
            if j - 1 == p {
            } else {
                assert(lex_lt(s[p as int], s[j - 1]));
                lemma_transitive(xv, s[p as int], s[j - 1]);
            }
            lemma_transitive(t[i], xv, t[j]);
        } else if i == p {
            assert(t[j] == s[j - 1]);
            if j - 1 > p {
                assert(lex_lt(s[p as int], s[j - 1]));
                lemma_transitive(xv, s[p as int], s[j - 1]);
            }
        } else {
            assert(t[i] == s[i - 1]);
            assert(t[j] == s[j - 1]);
        }
    }
    assert forall|e: Seq<char>| t.to_set().contains(e) <==> s.to_set().insert(xv).contains(e) by {
        if t.to_set().contains(e) {
            let k = choose|k: int| 0 <= k < t.len() && t[k] == e;
            if k < p {
                assert(s[k] == e);
            } else if k > p {
                assert(s[k - 1] == e);
            }
        }
        if s.to_set().contains(e) {
            let k = choose|k: int| 0 <= k < s.len() && s[k] == e;
            if k < p {
                assert(t[k] == e);
            } else {
                assert(t[k + 1] == e);
            }
        }
        if e == xv {
            assert(t[p as int] == e);
        }
    }
    assert(t.to_set() =~= s.to_set().insert(xv));
}

} // verus!
