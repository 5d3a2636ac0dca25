//! Subsequence scoring of entry labels against a query, with bonuses for
//! contiguous and word-boundary matches, and the ranking it induces.

use vstd::prelude::*;
use crate::order::ident_seq;
use crate::order::pos_before;
use crate::order::sort_positions_by_count;
use crate::text::lower_char;
use crate::text::to_lower_char;

verus! {

/// A small score increment, saturating at the top of `u32`.
pub open spec fn sat_add(a: u32, b: u32) -> u32 {
    if a + b > u32::MAX {
        u32::MAX
    } else {
        (a + b) as u32
    }
}

/// Whether position `ti` of the label starts a word.
pub open spec fn is_boundary(t: Seq<char>, ti: int) -> bool {
    ti == 0 || t[ti - 1] == ' ' || t[ti - 1] == '-' || t[ti - 1] == '_' || t[ti - 1] == '.'
        || t[ti - 1] == '/'
}

/// The points one matched character earns.
pub open spec fn char_points(t: Seq<char>, ti: int, contig: bool) -> u32 {
    (1 + if contig {
        2int
    } else {
        0int
    } + if is_boundary(t, ti) {
        3int
    } else {
        0int
    }) as u32
}

/// Greedy subsequence scoring, walking the label left to right: each query
/// character must occur, case-folded, in order; matched characters earn
/// points, with bonuses when contiguous or on a word boundary.
pub open spec fn score_rec(
    q: Seq<char>,
    t: Seq<char>,
    qi: int,
    ti: int,
    contig: bool,
    acc: u32,
) -> Option<u32>
    decreases t.len() - ti,
{
    if qi >= q.len() {
        Some(acc)
    } else if ti >= t.len() || ti < 0 {
        None
    } else if lower_char(t[ti]) == lower_char(q[qi]) {
        score_rec(q, t, qi + 1, ti + 1, true, sat_add(acc, char_points(t, ti, contig)))
    } else {
        score_rec(q, t, qi, ti + 1, false, acc)
    }
}

/// The score of a label against a query; `None` when the query is not a
/// case-folded subsequence of the label.
pub open spec fn score_spec(q: Seq<char>, t: Seq<char>) -> Option<u32> {
    score_rec(q, t, 0, 0, false, 0)
}

/// Compute the score of one label.
pub fn score(q: &[char], t: &[char]) -> (r: Option<u32>)
    ensures
        r == score_spec(q@, t@),
{
    let mut qi: usize = 0;
    let mut ti: usize = 0;
    let mut contig: bool = false;
    let mut acc: u32 = 0;
    while qi < q.len() && ti < t.len()
        invariant
            qi <= q@.len(),
            ti <= t@.len(),
            score_spec(q@, t@) == score_rec(q@, t@, qi as int, ti as int, contig, acc),
        decreases t@.len() - ti,
    {
        let tc = to_lower_char(t[ti]);
        let qc = to_lower_char(q[qi]);
        if tc == qc {
            let boundary: bool = if ti == 0 {
                true
            } else {
                let prev = t[ti - 1];
                prev == ' ' || prev == '-' || prev == '_' || prev == '.' || prev == '/'
            };
            let mut points: u32 = 1;
            if contig {
                points += 2;
            }
            if boundary {
                points += 3;
            }
            proof {
                assert(points == char_points(t@, ti as int, contig));
            }
            if acc > u32::MAX - points {
                acc = u32::MAX;
            } else {
                acc += points;
            }
            qi += 1;
            ti += 1;
            contig = true;
        } else {
            ti += 1;
            contig = false;
        }
    }
    if qi >= q.len() {
        Some(acc)
    } else {
        None
    }
}

/// Whether the query matches the label at all.
pub open spec fn is_match(q: Seq<char>, t: Seq<char>) -> bool {
    score_spec(q, t) is Some
}

/// The score of a match, as a plain number.
pub open spec fn score_of(q: Seq<char>, t: Seq<char>) -> u32
    recommends
        is_match(q, t),
{
    score_spec(q, t)->Some_0
}

/// The order the ranking puts two matching labels in: higher score first,
/// equal scores keep the input order.
pub open spec fn rank_before(q: Seq<char>, labels: Seq<Seq<char>>, a: usize, b: usize) -> bool {
    score_of(q, labels[a as int]) > score_of(q, labels[b as int]) || (score_of(
        q,
        labels[a as int],
    ) == score_of(q, labels[b as int]) && a < b)
}

/// Rank labels against a query: non-matching labels are left out, the
/// rest are ordered by descending score, ties keeping the input order.
/// An empty query keeps every label in the input order.
#[verifier::loop_isolation(false)]
pub fn rank(q: &[char], labels: &Vec<Vec<char>>) -> (r: Vec<usize>)
    ensures
        forall|k: int|
            0 <= k < r@.len() ==> (#[trigger] r@[k]) < labels@.len() && is_match(
                q@,
                labels@[r@[k] as int]@,
            ),
        forall|i: usize|
            i < labels@.len() && is_match(q@, labels@[i as int]@) ==> r@.contains(i),
        forall|a: int, b: int|
            0 <= a < b < r@.len() ==> rank_before(q@, labels@.map_values(|l: Vec<char>| l@), r@[a], r@[b]),
        q@.len() == 0 ==> r@ == ident_seq(labels@.len()),
{
    broadcast use vstd::seq_lib::group_to_multiset_ensures;

    let n = labels.len();
    if q.len() == 0 {
        let mut r: Vec<usize> = Vec::new();
        let mut i: usize = 0;
        while i < n
            invariant
                i <= n,
                r@ =~= ident_seq(i as nat),
            decreases n - i,
        {
            r.push(i);
            proof {
                assert(r@ =~= ident_seq((i + 1) as nat));
            }
            i += 1;
        }
        proof {
            assert forall|i0: usize|
                i0 < labels@.len() && is_match(q@, labels@[i0 as int]@) implies r@.contains(
                i0,
            ) by {
                assert(r@[i0 as int] == i0);
            }
        }
        return r;
    }
    let mut matched: Vec<usize> = Vec::new();
    let mut scores: Vec<u32> = Vec::new();
    let mut i: usize = 0;
    while i < n
        invariant
            i <= n,
            n == labels@.len(),
            matched@.len() == scores@.len(),
            forall|k: int| 0 <= k < matched@.len() ==> (#[trigger] matched@[k]) < i,
            forall|k: int|
                0 <= k < matched@.len() ==> is_match(
                    q@,
                    labels@[(#[trigger] matched@[k]) as int]@,
                ),
            forall|k: int|
                0 <= k < matched@.len() ==> (#[trigger] scores@[k]) == score_of(
                    q@,
                    labels@[matched@[k] as int]@,
                ),
            forall|a: int, b: int|
                0 <= a < b < matched@.len() ==> (#[trigger] matched@[a]) < (
                #[trigger] matched@[b]),
            forall|j: usize|
                j < i && is_match(q@, labels@[j as int]@) ==> matched@.contains(j),
        decreases n - i,
    {
        match score(q, labels[i].as_slice()) {
            Some(sc) => {
                let ghost m0 = matched@;
                let ghost s0 = scores@;
                matched.push(i);
                scores.push(sc);
                proof {
                    assert(matched@ =~= m0.push(i));
                    assert(scores@ =~= s0.push(sc));
                    assert(sc == score_of(q@, labels@[i as int]@));
                    assert forall|k: int|
                        0 <= k < matched@.len() implies (#[trigger] matched@[k]) < i + 1
                        && is_match(q@, labels@[matched@[k] as int]@) && scores@[k] == score_of(
                        q@,
                        labels@[matched@[k] as int]@,
                    ) by {
                        if k < m0.len() {
                            assert(matched@[k] == m0[k]);
                            assert(scores@[k] == s0[k]);
                        } else {
                            assert(matched@[k] == i);
                            assert(scores@[k] == sc);
                        }
                    }
                    assert forall|a: int, b: int|
                        0 <= a < b < matched@.len() implies matched@[a] < matched@[b] by {
                        if b < m0.len() {
                            assert(matched@[a] == m0[a] && matched@[b] == m0[b]);
                        } else {
                            assert(matched@[b] == i);
                            assert(matched@[a] == m0[a]);
                            assert(m0[a] < i);
                        }
                    }
                    assert forall|j: usize|
                        j < i + 1 && is_match(q@, labels@[j as int]@) implies matched@.contains(
                        j,
                    ) by {
                        if j < i {
                            assert(m0.contains(j));
                            let k = choose|k: int| 0 <= k < m0.len() && m0[k] == j;
                            assert(matched@[k] == j);
                        } else {
                            assert(matched@[matched@.len() - 1] == j);
                        }
                    }
                }
            },
            None => {
            },
        }
        i += 1;
    }
    let order = sort_positions_by_count(&scores);
    let m = matched.len();
    let mut r: Vec<usize> = Vec::new();
    let mut k: usize = 0;
    while k < m
        invariant
            k <= m,
            r@.len() == k,
            order@.len() == m,
            forall|j: int| 0 <= j < k ==> r@[j] == matched@[order@[j] as int],
        decreases m - k,
    {
        r.push(matched[order[k]]);
        k += 1;
    }
    proof {
        let lv = labels@.map_values(|l: Vec<char>| l@);
        assert forall|a: int, b: int| 0 <= a < b < r@.len() implies rank_before(
            q@,
            lv,
            r@[a],
            r@[b],
        ) by {
            assert(pos_before(scores@, order@[a], order@[b]));
            assert(r@[a] == matched@[order@[a] as int]);
            assert(r@[b] == matched@[order@[b] as int]);
            if scores@[order@[a] as int] == scores@[order@[b] as int] {
                assert(order@[a] < order@[b]);
                assert(matched@[order@[a] as int] < matched@[order@[b] as int]);
            }
        }
        assert forall|i0: usize|
            i0 < labels@.len() && is_match(q@, labels@[i0 as int]@) implies r@.contains(
            i0,
        ) by {
            assert(matched@.contains(i0));
            let k0 = choose|k0: int| 0 <= k0 < matched@.len() && matched@[k0] == i0;
            assert(ident_seq(m as nat)[k0] == k0 as usize);
            assert(ident_seq(m as nat).contains(k0 as usize));
            assert(order@.to_multiset().contains(k0 as usize));
            assert(order@.contains(k0 as usize));
            let j0 = choose|j0: int| 0 <= j0 < order@.len() && order@[j0] == k0 as usize;
            assert(r@[j0] == i0);
        }
    }
    r
}

} // verus!
