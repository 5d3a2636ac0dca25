//! Ordering of entries by descending use count, ties broken by position:
//! the order in which the launcher presents its entries at start.

use vstd::prelude::*;

verus! {

/// The identity sequence `0, 1, …, n-1`.
pub open spec fn ident_seq(n: nat) -> Seq<usize> {
    Seq::new(n, |i: int| i as usize)
}

/// Strict order on entry positions: higher count first, and among equal
/// counts the earlier position first.
pub open spec fn pos_before(counts: Seq<u32>, a: usize, b: usize) -> bool {
    counts[a as int] > counts[b as int] || (counts[a as int] == counts[b as int] && a < b)
}

/// Whether `r` lists positions in strictly descending-count order.
pub open spec fn count_sorted(counts: Seq<u32>, r: Seq<usize>) -> bool {
    forall|i: int, j: int| 0 <= i < j < r.len() ==> pos_before(counts, r[i], r[j])
}

/// The positions `0..counts.len()` ordered by descending count, ties kept
/// in position order. The result is the unique such arrangement.
#[verifier::loop_isolation(false)]
pub fn sort_positions_by_count(counts: &Vec<u32>) -> (r: Vec<usize>)
    ensures
        r@.len() == counts@.len(),
        r@.to_multiset() == ident_seq(counts@.len()).to_multiset(),
        forall|k: int| 0 <= k < r@.len() ==> r@[k] < counts@.len(),
        count_sorted(counts@, r@),
{
    broadcast use vstd::seq_lib::group_to_multiset_ensures;

    let n = counts.len();
    let mut r: Vec<usize> = Vec::new();
    proof {
        assert(ident_seq(0) =~= Seq::<usize>::empty());
        assert(r@.to_multiset() =~= ident_seq(0).to_multiset());
    }
    let mut x: usize = 0;
    while x < n
        invariant
            x <= n,
            n == counts@.len(),
            r@.len() == x,
            r@.to_multiset() == ident_seq(x as nat).to_multiset(),
            forall|k: int| 0 <= k < r@.len() ==> r@[k] < x,
            count_sorted(counts@, r@),
        decreases n - x,
    {
        let cx = counts[x];
        let mut p: usize = r.len();
        while p > 0 && counts[r[p - 1]] < cx
            invariant
                p <= r@.len(),
                forall|k: int| p <= k < r@.len() ==> counts@[r@[k] as int] < cx,
            decreases p,
        {
            p -= 1;
        }
        let ghost r0 = r@;
        r.insert(p, x);
        proof {
            assert(r@.remove(p as int) =~= r0);
            assert(r@.to_multiset().remove(x) =~= r0.to_multiset());
            assert(r@[p as int] == x);
            assert(r@.to_multiset().count(x) > 0);
            assert(r@.to_multiset() =~= r0.to_multiset().insert(x));
            assert(ident_seq((x + 1) as nat).drop_last() =~= ident_seq(x as nat));
            assert(ident_seq((x + 1) as nat) =~= ident_seq(x as nat).push(x));
            assert(ident_seq((x + 1) as nat).to_multiset() =~= ident_seq(
                x as nat,
            ).to_multiset().insert(x));
            assert forall|k: int| 0 <= k < p implies counts@[(#[trigger] r0[k]) as int] >= cx by {
                if k < p - 1 {
                    assert(pos_before(counts@, r0[k], r0[p - 1]));
                }
            }
            assert forall|i: int, j: int| 0 <= i < j < r@.len() implies pos_before(
                counts@,
                r@[i],
                r@[j],
            ) by {
                if j < p {
                    assert(r@[i] == r0[i] && r@[j] == r0[j]);
                } else if i > p {
                    assert(r@[i] == r0[i - 1] && r@[j] == r0[j - 1]);
                } else if i < p && j == p {
                    assert(r@[i] == r0[i]);
                    assert(counts@[r0[i] as int] >= cx);
                    assert(r0[i] < x);
                } else if i == p && j > p {
                    assert(r@[j] == r0[j - 1]);
                    assert(counts@[r0[j - 1] as int] < cx);
                } else if i < p && j > p {
                    assert(r@[i] == r0[i] && r@[j] == r0[j - 1]);
                    assert(counts@[r0[j - 1] as int] < cx);
                    assert(counts@[r0[i] as int] >= cx);
                }
            }
        }
        x += 1;
    }
    r
}

/// Lexicographic order on character sequences, by code point.
pub open spec fn lex_le(a: Seq<char>, b: Seq<char>) -> bool
    decreases a.len(),
{
    if a.len() == 0 {
        true
    } else if b.len() == 0 {
        false
    } else if (a[0] as int) < (b[0] as int) {
        true
    } else if a[0] == b[0] {
        lex_le(a.drop_first(), b.drop_first())
    } else {
        false
    }
}

/// The order is total: one of the two ways round always holds.
pub proof fn lemma_lex_total(a: Seq<char>, b: Seq<char>)
    ensures
        lex_le(a, b) || lex_le(b, a),
    decreases a.len(),
{
    if a.len() > 0 && b.len() > 0 && a[0] == b[0] {
        lemma_lex_total(a.drop_first(), b.drop_first());
    }
}

/// The order is transitive.
pub proof fn lemma_lex_trans(a: Seq<char>, b: Seq<char>, c: Seq<char>)
    requires
        lex_le(a, b),
        lex_le(b, c),
    ensures
        lex_le(a, c),
    decreases a.len(),
{
    if a.len() > 0 && b.len() > 0 && c.len() > 0 && a[0] == b[0] && b[0] == c[0] {
        lemma_lex_trans(a.drop_first(), b.drop_first(), c.drop_first());
    }
}

/// Compare two character slices lexicographically.
pub fn lex_le_exec(a: &[char], b: &[char]) -> (r: bool)
    ensures
        r == lex_le(a@, b@),
{
    let mut i: usize = 0;
    let an = a.len();
    let bn = b.len();
    proof {
        assert(a@.skip(0) =~= a@);
        assert(b@.skip(0) =~= b@);
    }
    while i < an && i < bn
        invariant
            i <= an && i <= bn,
            an == a@.len() && bn == b@.len(),
            forall|j: int| 0 <= j < i ==> a@[j] == b@[j],
            lex_le(a@, b@) == lex_le(a@.skip(i as int), b@.skip(i as int)),
            lex_le(b@, a@) == lex_le(b@.skip(i as int), a@.skip(i as int)),
        decreases an - i,
    {
        let x = crate::text::char_code(a[i]);
        let y = crate::text::char_code(b[i]);
        proof {
            let sa = a@.skip(i as int);
            let sb = b@.skip(i as int);
            assert(sa[0] == a@[i as int] && sb[0] == b@[i as int]);
            assert(sa.drop_first() =~= a@.skip(i + 1));
            assert(sb.drop_first() =~= b@.skip(i + 1));
        }
        if x < y {
            return true;
        }
        if y < x {
            proof {
                assert(!lex_le(a@.skip(i as int), b@.skip(i as int)));
            }
            return false;
        }
        i += 1;
    }
    proof {
        if i >= an {
            assert(a@.skip(i as int).len() == 0);
        } else {
            assert(b@.skip(i as int).len() == 0);
            assert(a@.skip(i as int).len() > 0);
        }
    }
    i >= an
}

/// Arrange positions so that their keys come in lexicographic order;
/// the result is a permutation of all positions.
#[verifier::loop_isolation(false)]
pub fn sort_positions_by_key(keys: &Vec<Vec<char>>) -> (r: Vec<usize>)
    ensures
        r@.len() == keys@.len(),
        r@.to_multiset() == ident_seq(keys@.len()).to_multiset(),
        forall|k: int| 0 <= k < r@.len() ==> r@[k] < keys@.len(),
        forall|i: int, j: int|
            0 <= i < j < r@.len() ==> lex_le(keys@[r@[i] as int]@, keys@[r@[j] as int]@),
{
    broadcast use vstd::seq_lib::group_to_multiset_ensures;

    let n = keys.len();
    let mut r: Vec<usize> = Vec::new();
    proof {
        assert(ident_seq(0) =~= Seq::<usize>::empty());
        assert(r@.to_multiset() =~= ident_seq(0).to_multiset());
    }
    let mut x: usize = 0;
    while x < n
        invariant
            x <= n,
            n == keys@.len(),
            r@.len() == x,
            r@.to_multiset() == ident_seq(x as nat).to_multiset(),
            forall|k: int| 0 <= k < r@.len() ==> r@[k] < x,
            forall|i: int, j: int|
                0 <= i < j < r@.len() ==> lex_le(keys@[r@[i] as int]@, keys@[r@[j] as int]@),
        decreases n - x,
    {
        let kx = &keys[x];
        let mut p: usize = r.len();
        while p > 0 && !lex_le_exec(keys[r[p - 1]].as_slice(), kx.as_slice())
            invariant
                p <= r@.len(),
                forall|k: int|
                    p <= k < r@.len() ==> !lex_le(keys@[(#[trigger] r@[k]) as int]@, keys@[x as int]@),
            decreases p,
        {
            p -= 1;
        }
        let ghost r0 = r@;
        r.insert(p, x);
        proof {
            assert(r@.remove(p as int) =~= r0);
            assert(r@.to_multiset().remove(x) =~= r0.to_multiset());
            assert(r@[p as int] == x);
            assert(r@.to_multiset().count(x) > 0);
            assert(r@.to_multiset() =~= r0.to_multiset().insert(x));
            assert(ident_seq((x + 1) as nat).drop_last() =~= ident_seq(x as nat));
            assert(ident_seq((x + 1) as nat) =~= ident_seq(x as nat).push(x));
            assert(ident_seq((x + 1) as nat).to_multiset() =~= ident_seq(
                x as nat,
            ).to_multiset().insert(x));
            let kxv = keys@[x as int]@;
            assert forall|k: int| 0 <= k < p implies lex_le(
                keys@[(#[trigger] r0[k]) as int]@,
                kxv,
            ) by {
                if k < p - 1 {
                    assert(lex_le(keys@[r0[k] as int]@, keys@[r0[p - 1] as int]@));
                    lemma_lex_trans(keys@[r0[k] as int]@, keys@[r0[p - 1] as int]@, kxv);
                }
            }
            assert forall|k: int| p <= k < r0.len() implies lex_le(
                kxv,
                keys@[(#[trigger] r0[k]) as int]@,
            ) by {
                lemma_lex_total(keys@[r0[k] as int]@, kxv);
            }
            assert forall|i: int, j: int| 0 <= i < j < r@.len() implies lex_le(
                keys@[r@[i] as int]@,
                keys@[r@[j] as int]@,
            ) by {
                if j < p {
                    assert(r@[i] == r0[i] && r@[j] == r0[j]);
                } else if i > p {
                    assert(r@[i] == r0[i - 1] && r@[j] == r0[j - 1]);
                } else if i < p && j == p {
                    assert(r@[i] == r0[i]);
                } else if i == p && j > p {
                    assert(r@[j] == r0[j - 1]);
                } else if i < p && j > p {
                    assert(r@[i] == r0[i] && r@[j] == r0[j - 1]);
                }
            }
        }
        x += 1;
    }
    r
}

} // verus!
