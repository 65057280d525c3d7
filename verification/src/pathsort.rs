//! Lexicographic ordering of path strings, and the sort that makes the
//! directory scan's image order deterministic.

use vstd::prelude::*;
use vstd::seq_lib::group_to_multiset_ensures;
use vstd::multiset::group_multiset_axioms;

verus! {

/// `a` is lexicographically at most `b`: `a` is a prefix of `b`, or at the
/// first differing position `a` has the character with the smaller code point.
pub open spec fn lex_le(a: Seq<char>, b: Seq<char>) -> bool
    decreases a.len(),
{
    if a.len() == 0 {
        true
    } else if b.len() == 0 {
        false
    } else if (a[0] as u32) < (b[0] as u32) {
        true
    } else if (b[0] as u32) < (a[0] as u32) {
        false
    } else {
        lex_le(a.skip(1), b.skip(1))
    }
}

/// Law: any two strings are ordered one way or the other.
pub proof fn lemma_lex_le_total(a: Seq<char>, b: Seq<char>)
    ensures
        lex_le(a, b) || lex_le(b, a),
    decreases a.len(),
{
    if a.len() == 0 {
        assert(lex_le(a, b));
    } else if b.len() == 0 {
        assert(lex_le(b, a));
    } else if (a[0] as u32) < (b[0] as u32) {
        assert(lex_le(a, b));
    } else if (b[0] as u32) < (a[0] as u32) {
        assert(lex_le(b, a));
    } else {
        lemma_lex_le_total(a.skip(1), b.skip(1));
        assert(lex_le(a, b) == lex_le(a.skip(1), b.skip(1)));
        assert(lex_le(b, a) == lex_le(b.skip(1), a.skip(1)));
    }
}

/// Law: the order is transitive.
pub proof fn lemma_lex_le_trans(a: Seq<char>, b: Seq<char>, c: Seq<char>)
    requires
        lex_le(a, b),
        lex_le(b, c),
    ensures
        lex_le(a, c),
    decreases a.len(),
{
    if a.len() == 0 {
        assert(lex_le(a, c));
    } else if b.len() == 0 || c.len() == 0 {
        // lex_le(a, b) and lex_le(b, c) leave no such case
    } else if (a[0] as u32) == (b[0] as u32) && (b[0] as u32) == (c[0] as u32) {
        assert(lex_le(a, b) == lex_le(a.skip(1), b.skip(1)));
        assert(lex_le(b, c) == lex_le(b.skip(1), c.skip(1)));
        lemma_lex_le_trans(a.skip(1), b.skip(1), c.skip(1));
        assert(lex_le(a, c) == lex_le(a.skip(1), c.skip(1)));
    } else {
        assert((a[0] as u32) <= (b[0] as u32));
        assert((b[0] as u32) <= (c[0] as u32));
        assert((a[0] as u32) < (c[0] as u32));
        assert(lex_le(a, c));
    }
}

/// Two characters with the same code point are the same character.
proof fn lemma_char_code_eq(c: char, d: char)
    requires
        c as u32 == d as u32,
    ensures
        c == d,
{
}

/// Law: two strings ordered both ways are equal.
pub proof fn lemma_lex_le_antisymmetric(a: Seq<char>, b: Seq<char>)
    requires
        lex_le(a, b),
        lex_le(b, a),
    ensures
        a == b,
    decreases a.len(),
{
    if a.len() == 0 {
        assert(b.len() == 0);
        assert(a =~= b);
    } else {
        assert(b.len() > 0);
        assert((a[0] as u32) == (b[0] as u32));
        assert(lex_le(a, b) == lex_le(a.skip(1), b.skip(1)));
        assert(lex_le(b, a) == lex_le(b.skip(1), a.skip(1)));
        lemma_lex_le_antisymmetric(a.skip(1), b.skip(1));
        assert(a =~= b) by {
            lemma_char_code_eq(a[0], b[0]);
            assert(a[0] == b[0]);
            assert(forall|i: int|
                1 <= i < a.len() ==> a[i] == a.skip(1)[i - 1] && b[i] == b.skip(1)[i - 1]);
        }
    }
}

/// Compare two strings in lexicographic order.
pub fn str_le(a: &str, b: &str) -> (r: bool)
    ensures
        r == lex_le(a@, b@),
{
    let alen = a.unicode_len();
    let blen = b.unicode_len();
    proof {
        assert(a@.skip(0) =~= a@);
        assert(b@.skip(0) =~= b@);
    }
    let mut i: usize = 0;
    loop
        invariant
            i <= alen,
            i <= blen,
            alen == a@.len(),
            blen == b@.len(),
            lex_le(a@, b@) == lex_le(a@.skip(i as int), b@.skip(i as int)),
        decreases alen - i,
    {
        if i == alen {
            return true;
        }
        if i == blen {
            return false;
        }
        let ca = a.get_char(i) as u32;
        let cb = b.get_char(i) as u32;
        if ca < cb {
            return true;
        }
        if cb < ca {
            return false;
        }
        proof {
            assert(a@.skip(i as int).skip(1) =~= a@.skip(i as int + 1));
            assert(b@.skip(i as int).skip(1) =~= b@.skip(i as int + 1));
        }
        i = i + 1;
    }
}

/// Every path is at most every later one.
pub open spec fn sorted_by_path(s: Seq<String>) -> bool {
    forall|i: int, j: int| 0 <= i < j < s.len() ==> lex_le(#[trigger] s[i]@, #[trigger] s[j]@)
}

/// Every path string is at most every later one.
pub open spec fn sorted_views(s: Seq<Seq<char>>) -> bool {
    forall|i: int, j: int| 0 <= i < j < s.len() ==> lex_le(#[trigger] s[i], #[trigger] s[j])
}

/// Law: two sorted arrangements of the same path strings are the same
/// arrangement, so a run over an unchanged directory always lays the images
/// out in the same order.
pub proof fn lemma_sorted_order_unique(a: Seq<Seq<char>>, b: Seq<Seq<char>>)
    requires
        sorted_views(a),
        sorted_views(b),
        a.to_multiset() == b.to_multiset(),
    ensures
        a == b,
    decreases a.len(),
{
    broadcast use group_to_multiset_ensures, group_multiset_axioms;

    assert(a.len() == a.to_multiset().len());
    assert(b.len() == b.to_multiset().len());
    assert(a.len() == b.len());
    if a.len() == 0 {
        assert(a =~= b);
    } else {
        // each first element occurs in the other sequence
        assert(a.contains(a[0]));
        assert(b.to_multiset().count(a[0]) > 0);
        assert(b.contains(a[0]));
        let k = choose|k: int| 0 <= k < b.len() && b[k] == a[0];
        assert(b.contains(b[0]));
        assert(a.to_multiset().count(b[0]) > 0);
        assert(a.contains(b[0]));
        let m = choose|m: int| 0 <= m < a.len() && a[m] == b[0];
        // each first element is at most the other, so they are equal
        if k > 0 {
            assert(lex_le(b[0], b[k]));
        }
        if m > 0 {
            assert(lex_le(a[0], a[m]));
        }
        lemma_lex_le_total(a[0], b[0]);
        lemma_lex_le_antisymmetric(a[0], b[0]);
        assert(a[0] == b[0]);
        // the tails hold the same strings and are sorted
        assert(a.drop_first() =~= a.remove(0));
        assert(b.drop_first() =~= b.remove(0));
        assert(a.remove(0).to_multiset() == a.to_multiset().remove(a[0]));
        assert(b.remove(0).to_multiset() == b.to_multiset().remove(b[0]));
        assert(sorted_views(a.drop_first())) by {
            assert(forall|i: int|
                0 <= i < a.drop_first().len() ==> (#[trigger] a.drop_first()[i]) == a[i + 1]);
        }
        assert(sorted_views(b.drop_first())) by {
            assert(forall|i: int|
                0 <= i < b.drop_first().len() ==> (#[trigger] b.drop_first()[i]) == b[i + 1]);
        }
        lemma_sorted_order_unique(a.drop_first(), b.drop_first());
        assert(a =~= b) by {
            assert(forall|i: int|
                1 <= i < a.len() ==> a[i] == a.drop_first()[i - 1] && b[i] == b.drop_first()[i
                    - 1]);
        }
    }
}

/// Taking one entry out and putting it back elsewhere keeps the same entries.
proof fn lemma_take_out_and_reinsert<A>(prev: Seq<A>, i: int, j: int)
    requires
        0 <= i < prev.len(),
        0 <= j <= prev.len() - 1,
    ensures
        prev.remove(i).insert(j, prev[i]).to_multiset() == prev.to_multiset(),
{
    broadcast use group_to_multiset_ensures, group_multiset_axioms;

    assert(prev.contains(prev[i]));
    assert(prev.to_multiset().count(prev[i]) > 0);
    assert(prev.remove(i).to_multiset() == prev.to_multiset().remove(prev[i]));
    assert(prev.remove(i).insert(j, prev[i]).to_multiset() == prev.remove(i).to_multiset().insert(
        prev[i],
    ));
    assert(prev.to_multiset().remove(prev[i]).insert(prev[i]) =~= prev.to_multiset());
}

/// Sort the paths ascending by their full lexicographic order, keeping
/// exactly the same paths. The order is total, so runs over an unchanged
/// list always produce the same order.
pub fn sort_paths(paths: &mut Vec<String>)
    ensures
        sorted_by_path(final(paths)@),
        final(paths)@.to_multiset() == old(paths)@.to_multiset(),
{
    if paths.len() <= 1 {
        return ;
    }
    let mut i: usize = 1;
    while i < paths.len()
        invariant
            1 <= i <= paths@.len(),
            sorted_by_path(paths@.take(i as int)),
            paths@.to_multiset() == old(paths)@.to_multiset(),
        decreases paths@.len() - i,
    {
        let ghost prev = paths@;
        let s = paths.remove(i);
        proof {
            assert(forall|m: int| 0 <= m < i ==> prev.remove(i as int)[m] == prev[m]);
        }
        let mut j: usize = i;
        while j > 0 && !str_le(paths[j - 1].as_str(), s.as_str())
            invariant
                j <= i,
                i < prev.len(),
                paths@ == prev.remove(i as int),
                s == prev[i as int],
                forall|m: int| 0 <= m < i ==> (#[trigger] paths@[m]) == prev[m],
                forall|k: int| j <= k < i ==> lex_le(s@, (#[trigger] prev[k])@),
            decreases j,
        {
            proof {
                lemma_lex_le_total(prev[j - 1]@, s@);
            }
            j = j - 1;
        }
        let ghost jj = j as int;
        let ghost mid = paths@;
        paths.insert(j, s);
        proof {
            lemma_take_out_and_reinsert(prev, i as int, jj);
            let cur = paths@;
            assert(forall|k: int| 0 <= k < jj ==> (#[trigger] cur[k]) == mid[k]);
            assert(forall|k: int| jj < k <= i ==> (#[trigger] cur[k]) == mid[k - 1]);
            assert(cur[jj] == s);
            assert forall|p: int, q: int| 0 <= p < q < i + 1 implies lex_le(
                (#[trigger] cur[p])@,
                (#[trigger] cur[q])@,
            ) by {
                if q < jj {
                    assert(cur[p] == prev[p] && cur[q] == prev[q]);
                } else if p < jj && q == jj {
                    // the loop above stopped because the path before the slot
                    // is at most the inserted one
                    assert(lex_le(prev[jj - 1]@, s@));
                    if p < jj - 1 {
                        lemma_lex_le_trans(prev[p]@, prev[jj - 1]@, s@);
                    }
                } else if p == jj && q > jj {
                    assert(lex_le(s@, prev[q - 1]@));
                } else if p < jj && q > jj {
                    assert(cur[p] == prev[p] && cur[q] == prev[q - 1]);
                } else if p > jj {
                    assert(cur[p] == prev[p - 1] && cur[q] == prev[q - 1]);
                }
            }
            assert(sorted_by_path(cur.take(i as int + 1))) by {
                assert(forall|k: int| 0 <= k <= i ==> (#[trigger] cur.take(i as int + 1)[k])
                    == cur[k]);
            }
        }
        i = i + 1;
    }
    proof {
        assert(paths@.take(i as int) =~= paths@);
    }
}

/// Every entry's path string is at most every later one's.
pub open spec fn sorted_by_key<T>(s: Seq<(String, T)>) -> bool {
    forall|i: int, j: int|
        0 <= i < j < s.len() ==> lex_le((#[trigger] s[i]).0@, (#[trigger] s[j]).0@)
}

/// Sort entries ascending by the full lexicographic order of their path
/// string, keeping exactly the same entries; each payload travels with its
/// path. This lets a caller order entries by a path's text while keeping
/// hold of the entry itself.
pub fn sort_keyed<T>(items: &mut Vec<(String, T)>)
    ensures
        sorted_by_key(final(items)@),
        final(items)@.to_multiset() == old(items)@.to_multiset(),
{
    if items.len() <= 1 {
        return ;
    }
    let mut i: usize = 1;
    while i < items.len()
        invariant
            1 <= i <= items@.len(),
            sorted_by_key(items@.take(i as int)),
            items@.to_multiset() == old(items)@.to_multiset(),
        decreases items@.len() - i,
    {
        let ghost prev = items@;
        let s = items.remove(i);
        proof {
            assert(forall|m: int| 0 <= m < i ==> prev.remove(i as int)[m] == prev[m]);
        }
        let mut j: usize = i;
        while j > 0 && !str_le(items[j - 1].0.as_str(), s.0.as_str())
            invariant
                j <= i,
                i < prev.len(),
                items@ == prev.remove(i as int),
                s == prev[i as int],
                forall|m: int| 0 <= m < i ==> (#[trigger] items@[m]) == prev[m],
                forall|k: int| j <= k < i ==> lex_le(s.0@, (#[trigger] prev[k]).0@),
            decreases j,
        {
            proof {
                lemma_lex_le_total(prev[j - 1].0@, s.0@);
            }
            j = j - 1;
        }
        let ghost jj = j as int;
        let ghost mid = items@;
        items.insert(j, s);
        proof {
            lemma_take_out_and_reinsert(prev, i as int, jj);
            let cur = items@;
            assert(forall|k: int| 0 <= k < jj ==> (#[trigger] cur[k]) == mid[k]);
            assert(forall|k: int| jj < k <= i ==> (#[trigger] cur[k]) == mid[k - 1]);
            assert(cur[jj] == s);
            assert forall|p: int, q: int| 0 <= p < q < i + 1 implies lex_le(
                (#[trigger] cur[p]).0@,
                (#[trigger] cur[q]).0@,
            ) by {
                if q < jj {
                    assert(cur[p] == prev[p] && cur[q] == prev[q]);
                } else if p < jj && q == jj {
                    // the loop above stopped because the path before the slot
                    // is at most the inserted one
                    assert(lex_le(prev[jj - 1].0@, s.0@));
                    if p < jj - 1 {
                        lemma_lex_le_trans(prev[p].0@, prev[jj - 1].0@, s.0@);
                    }
                } else if p == jj && q > jj {
                    assert(lex_le(s.0@, (prev[q - 1]).0@));
                } else if p < jj && q > jj {
                    assert(cur[p] == prev[p] && cur[q] == prev[q - 1]);
                } else if p > jj {
                    assert(cur[p] == prev[p - 1] && cur[q] == prev[q - 1]);
                }
            }
            assert(sorted_by_key(cur.take(i as int + 1))) by {
                assert(forall|k: int| 0 <= k <= i ==> (#[trigger] cur.take(i as int + 1)[k])
                    == cur[k]);
            }
        }
        i = i + 1;
    }
    proof {
        assert(items@.take(i as int) =~= items@);
    }
}

} // verus!
