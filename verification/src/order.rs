//! The order of identifiers (character by character, as strings compare) and
//! sorted sets of names.

use vstd::prelude::*;

use crate::ast::has_name;

verus! {

/// `a` comes before `b`: lexicographic order of the characters' code points
pub open spec fn str_lt(a: Seq<char>, b: Seq<char>) -> bool
    decreases a.len(),
{
    if a.len() == 0 {
        b.len() > 0
    } else if b.len() == 0 {
        false
    } else if a[0] != b[0] {
        (a[0] as int) < (b[0] as int)
    } else {
        str_lt(a.drop_first(), b.drop_first())
    }
}

/// The names are in strictly increasing order
pub open spec fn strictly_sorted(s: Seq<String>) -> bool {
    forall|i: int, j: int| 0 <= i < j < s.len() ==> str_lt(s[i]@, s[j]@)
}

/// No string comes before itself
pub proof fn lemma_str_lt_irreflexive(a: Seq<char>)
    ensures
        !str_lt(a, a),
    decreases a.len(),
{
    if a.len() > 0 {
        lemma_str_lt_irreflexive(a.drop_first());
    }
}

/// The order is transitive
pub proof fn lemma_str_lt_transitive(a: Seq<char>, b: Seq<char>, c: Seq<char>)
    requires
        str_lt(a, b),
        str_lt(b, c),
    ensures
        str_lt(a, c),
    decreases a.len(),
{
    if a.len() > 0 && b.len() > 0 && c.len() > 0 {
        if a[0] == b[0] && b[0] == c[0] {
            lemma_str_lt_transitive(a.drop_first(), b.drop_first(), c.drop_first());
        }
    }
}

/// Two strings are equal or one comes before the other
pub proof fn lemma_str_lt_total(a: Seq<char>, b: Seq<char>)
    ensures
        a == b || str_lt(a, b) || str_lt(b, a),
    decreases a.len(),
{
    if a.len() == 0 && b.len() == 0 {
        assert(a =~= b);
    } else if a.len() > 0 && b.len() > 0 && a[0] == b[0] {
        lemma_str_lt_total(a.drop_first(), b.drop_first());
        if a.drop_first() == b.drop_first() {
            assert(a =~= seq![a[0]] + a.drop_first());
            assert(b =~= seq![b[0]] + b.drop_first());
        }
    } else if a.len() > 0 && b.len() > 0 {
        assert(a[0] != b[0]);
        assert((a[0] as int) != (b[0] as int));
    }
}

/// Does `a` come before `b`?
pub fn str_less(a: &str, b: &str) -> (r: bool)
    ensures
        r == str_lt(a@, b@),
{
    let n = a.unicode_len();
    let m = b.unicode_len();
    let mut i: usize = 0;
    assert(a@.skip(0) =~= a@);
    assert(b@.skip(0) =~= b@);
    while i < n && i < m
        invariant
            n == a@.len(),
            m == b@.len(),
            i <= n,
            i <= m,
            str_lt(a@, b@) == str_lt(a@.skip(i as int), b@.skip(i as int)),
        decreases n - i,
    {
        let ca = a.get_char(i);
        let cb = b.get_char(i);
        if ca != cb {
            return (ca as u32) < (cb as u32);
        }
        assert(a@.skip(i as int).drop_first() =~= a@.skip(i as int + 1));
        assert(b@.skip(i as int).drop_first() =~= b@.skip(i as int + 1));
        i = i + 1;
    }
    i == n && i < m
}

/// Inserts a name into a strictly sorted set of names
pub fn sorted_insert(v: &mut Vec<String>, x: String)
    requires
        strictly_sorted(old(v)@),
    ensures
        strictly_sorted(final(v)@),
        forall|n: Seq<char>| has_name(final(v)@, n) <==> (has_name(old(v)@, n) || n == x@),
{
    let mut i: usize = 0;
    while i < v.len() && str_less(v[i].as_str(), x.as_str())
        invariant
            i <= v@.len(),
            v@ == old(v)@,
            strictly_sorted(v@),
            forall|j: int| 0 <= j < i ==> str_lt(v@[j]@, x@),
        decreases v@.len() - i,
    {
        i = i + 1;
    }
    if i < v.len() && crate::tokens::str_eq(v[i].as_str(), x.as_str()) {
        assert(v@[i as int]@ == x@);
        assert(has_name(v@, x@));
        return;
    }
    let ghost old_v = v@;
    proof {
        if i < old_v.len() {
            lemma_str_lt_total(old_v[i as int]@, x@);
            assert forall|k: int| i <= k < old_v.len() implies str_lt(x@, old_v[k]@) by {
                if k > i {
                    lemma_str_lt_transitive(x@, old_v[i as int]@, old_v[k]@);
                }
            }
        }
    }
    v.insert(i, x);
    proof {
        assert forall|a: int, b: int| 0 <= a < b < v@.len() implies str_lt(v@[a]@, v@[b]@) by {
            if b < i {
            } else if a < i && b == i {
            } else if a < i && b > i {
                assert(str_lt(old_v[a]@, old_v[b - 1]@));
            } else if a == i {
            } else {
                assert(str_lt(old_v[a - 1]@, old_v[b - 1]@));
            }
        }
        assert forall|n: Seq<char>| has_name(v@, n) <==> (has_name(old_v, n) || n == x@) by {
            if has_name(v@, n) {
                let k = choose|k: int| 0 <= k < v@.len() && v@[k]@ == n;
                if k < i {
                    assert(old_v[k]@ == n);
                } else if k > i {
                    assert(old_v[k - 1]@ == n);
                }
            }
            if has_name(old_v, n) {
                let k = choose|k: int| 0 <= k < old_v.len() && old_v[k]@ == n;
                if k < i {
                    assert(v@[k]@ == n);
                } else {
                    assert(v@[k + 1]@ == n);
                }
            }
            if n == x@ {
                assert(v@[i as int]@ == n);
            }
        }
        assert(old_v == old(v)@);
        assert(forall|n: Seq<char>| #[trigger] has_name(v@, n) <==> (has_name(old(v)@, n) || n == x@));
    }
}

} // verus!
