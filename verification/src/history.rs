//! Bounded command history and most-recently-used counts, together with
//! their newline-separated persistence formats.

use vstd::prelude::*;
use crate::text::clone_chars;
use crate::text::eq_chars;
use crate::text::trim_spec;
use crate::text::trim_spaces;

verus! {

/// A table of use counts, keyed by entry description; storage order is
/// the order of first insertion.
pub struct MruMap {
    entries: Vec<(Vec<char>, u32)>,
}

/// The view of an MRU table: description and use count, in storage order.
pub open spec fn mru_view(entries: Seq<(Vec<char>, u32)>) -> Seq<(Seq<char>, u32)> {
    entries.map_values(|e: (Vec<char>, u32)| (e.0@, e.1))
}

/// The count stored for a key, or zero when the key is absent.
pub open spec fn mru_count_of(v: Seq<(Seq<char>, u32)>, k: Seq<char>) -> u32
    decreases v.len(),
{
    if v.len() == 0 {
        0
    } else if v[0].0 == k {
        v[0].1
    } else {
        mru_count_of(v.drop_first(), k)
    }
}

/// The same table with the count for `k` raised by one (saturating),
/// the key being appended when absent.
pub open spec fn mru_bump_spec(v: Seq<(Seq<char>, u32)>, k: Seq<char>) -> Seq<
    (Seq<char>, u32),
>
    decreases v.len(),
{
    if v.len() == 0 {
        seq![(k, 1u32)]
    } else if v[0].0 == k {
        seq![(v[0].0, if v[0].1 == u32::MAX { u32::MAX } else { (v[0].1 + 1) as u32 })]
            + v.drop_first()
    } else {
        seq![v[0]] + mru_bump_spec(v.drop_first(), k)
    }
}

impl View for MruMap {
    type V = Seq<(Seq<char>, u32)>;

    closed spec fn view(&self) -> Seq<(Seq<char>, u32)> {
        mru_view(self.entries@)
    }
}

impl MruMap {
    /// An empty table.
    pub fn new() -> (r: MruMap)
        ensures
            r@ == Seq::<(Seq<char>, u32)>::empty(),
    {
        let r = MruMap { entries: Vec::new() };
        proof {
            assert(r@ =~= Seq::<(Seq<char>, u32)>::empty());
        }
        r
    }

    /// The number of entries.
    pub fn len(&self) -> (r: usize)
        ensures
            r == self@.len(),
    {
        self.entries.len()
    }

    /// The count recorded for a description, zero when absent.
    pub fn count_of(&self, k: &[char]) -> (r: u32)
        ensures
            r == mru_count_of(self@, k@),
    {
        proof {
            assert(self@.subrange(0, self@.len() as int) =~= self@);
        }
        let mut i: usize = 0;
        while i < self.entries.len()
            invariant
                i <= self.entries@.len(),
                mru_count_of(self@, k@) == mru_count_of(self@.subrange(i as int, self@.len() as int), k@),
            decreases self.entries@.len() - i,
        {
            proof {
                let tail = self@.subrange(i as int, self@.len() as int);
                assert(tail[0] == self@[i as int]);
                assert(tail.drop_first() =~= self@.subrange(i + 1, self@.len() as int));
            }
            if eq_chars(self.entries[i].0.as_slice(), k) {
                return self.entries[i].1;
            }
            i += 1;
        }
        proof {
            assert(self@.subrange(self@.len() as int, self@.len() as int).len() == 0);
        }
        0
    }

    /// Raise the count for a description by one (saturating), adding the
    /// entry when it is new.
    #[verifier::loop_isolation(false)]
    pub fn bump(&mut self, k: &[char])
        ensures
            final(self)@ == mru_bump_spec(old(self)@, k@),
    {
        let ghost orig = old(self)@;
        let mut i: usize = 0;
        while i < self.entries.len()
            invariant
                i <= self.entries@.len(),
                self@ == orig,
                forall|j: int| 0 <= j < i ==> orig[j].0 != k@,
            decreases self.entries@.len() - i,
        {
            if eq_chars(self.entries[i].0.as_slice(), k) {
                let c = self.entries[i].1;
                let bumped: u32 = if c == u32::MAX {
                    u32::MAX
                } else {
                    c + 1
                };
                let desc = clone_chars(&self.entries[i].0);
                self.entries.set(i, (desc, bumped));
                proof {
                    lemma_bump_at(orig, k@, i as int);
                    assert(self@ =~= orig.update(
                        i as int,
                        (orig[i as int].0, if orig[i as int].1 == u32::MAX {
                            u32::MAX
                        } else {
                            (orig[i as int].1 + 1) as u32
                        }),
                    ));
                    assert(self@ == mru_bump_spec(orig, k@));
                }
                return ;
            }
            i += 1;
        }
        let mut kv: Vec<char> = Vec::new();
        kv.extend_from_slice(k);
        proof {
            assert(kv@ =~= k@);
        }
        self.entries.push((kv, 1));
        proof {
            lemma_bump_absent(orig, k@);
            assert(self@ =~= orig.push((k@, 1u32)));
        }
    }
}

/// Build a table from records as read back from the count file.
pub fn mru_from_entries(entries: Vec<(Vec<char>, u32)>) -> (r: MruMap)
    ensures
        r@ == mru_view(entries@),
{
    MruMap { entries }
}

/// Bumping a key present first at position `i` updates that entry in place.
proof fn lemma_bump_at(v: Seq<(Seq<char>, u32)>, k: Seq<char>, i: int)
    requires
        0 <= i < v.len(),
        v[i].0 == k,
        forall|j: int| 0 <= j < i ==> v[j].0 != k,
    ensures
        mru_bump_spec(v, k) == v.update(
            i,
            (v[i].0, if v[i].1 == u32::MAX {
                u32::MAX
            } else {
                (v[i].1 + 1) as u32
            }),
        ),
    decreases v.len(),
{
    if i == 0 {
        assert(mru_bump_spec(v, k) =~= v.update(
            0,
            (v[0].0, if v[0].1 == u32::MAX {
                u32::MAX
            } else {
                (v[0].1 + 1) as u32
            }),
        ));
    } else {
        lemma_bump_at(v.drop_first(), k, i - 1);
        assert(mru_bump_spec(v, k) =~= v.update(
            i,
            (v[i].0, if v[i].1 == u32::MAX {
                u32::MAX
            } else {
                (v[i].1 + 1) as u32
            }),
        ));
    }
}

/// Bumping an absent key appends it with count one.
proof fn lemma_bump_absent(v: Seq<(Seq<char>, u32)>, k: Seq<char>)
    requires
        forall|j: int| 0 <= j < v.len() ==> v[j].0 != k,
    ensures
        mru_bump_spec(v, k) == v.push((k, 1u32)),
    decreases v.len(),
{
    if v.len() == 0 {
        assert(mru_bump_spec(v, k) =~= v.push((k, 1u32)));
    } else {
        lemma_bump_absent(v.drop_first(), k);
        assert(mru_bump_spec(v, k) =~= v.push((k, 1u32)));
    }
}

impl MruMap {
    /// The records ordered for the count file: by descending count, ties
    /// in storage order.
    pub fn sorted_entries(&self) -> (r: Vec<(Vec<char>, u32)>)
        ensures
            exists|ord: Seq<usize>|
                #![trigger ord.to_multiset()]
                ord.len() == self@.len() && ord.to_multiset() == crate::order::ident_seq(
                    self@.len(),
                ).to_multiset() && crate::order::count_sorted(
                    self@.map_values(|e: (Seq<char>, u32)| e.1),
                    ord,
                ) && mru_view(r@).len() == self@.len() && (forall|k: int|
                    0 <= k < r@.len() ==> mru_view(r@)[k] == self@[(#[trigger] ord[k]) as int]),
    {
        let mut counts: Vec<u32> = Vec::new();
        let mut i: usize = 0;
        while i < self.entries.len()
            invariant
                i <= self.entries@.len(),
                counts@.len() == i,
                forall|k: int| 0 <= k < i ==> counts@[k] == self@[k].1,
            decreases self.entries@.len() - i,
        {
            counts.push(self.entries[i].1);
            i += 1;
        }
        let order = crate::order::sort_positions_by_count(&counts);
        let mut r: Vec<(Vec<char>, u32)> = Vec::new();
        let mut k: usize = 0;
        while k < order.len()
            invariant
                k <= order@.len(),
                order@.len() == self.entries@.len(),
                counts@.len() == self.entries@.len(),
                forall|j: int| 0 <= j < order@.len() ==> order@[j] < self.entries@.len(),
                r@.len() == k,
                forall|j: int|
                    0 <= j < k ==> #[trigger] mru_view(r@)[j] == self@[order@[j] as int],
            decreases order@.len() - k,
        {
            let idx = order[k];
            let desc = clone_chars(&self.entries[idx].0);
            let cnt = self.entries[idx].1;
            let ghost r0 = r@;
            r.push((desc, cnt));
            proof {
                assert(mru_view(r@)[k as int] == (desc@, cnt));
                assert(forall|j: int|
                    0 <= j < k ==> #[trigger] mru_view(r@)[j] == mru_view(r0)[j]);
            }
            k += 1;
        }
        proof {
            let cs = self@.map_values(|e: (Seq<char>, u32)| e.1);
            assert(counts@ =~= cs);
        }
        r
    }

    /// The count file text for this table: records sorted by descending
    /// count, ties keeping storage order.
    pub fn to_lines(&self) -> (r: String)
        ensures
            exists|es: Seq<(Seq<char>, u32)>, ord: Seq<usize>|
                #![trigger crate::persist::mru_unparse(es), ord.to_multiset()]
                r@ == crate::persist::mru_unparse(es) && ord.len() == self@.len()
                    && ord.to_multiset() == crate::order::ident_seq(self@.len()).to_multiset()
                    && crate::order::count_sorted(
                    self@.map_values(|e: (Seq<char>, u32)| e.1),
                    ord,
                ) && es.len() == self@.len() && (forall|k: int|
                    0 <= k < es.len() ==> es[k] == self@[(#[trigger] ord[k]) as int]),
    {
        let entries = self.sorted_entries();
        crate::persist::mru_to_lines(&entries)
    }
}

/// A bounded list of submitted queries, oldest first.
pub struct HistoryLog {
    items: Vec<Vec<char>>,
    cap: usize,
}

/// The view of a history: its queries, oldest first.
pub open spec fn hist_view(items: Seq<Vec<char>>) -> Seq<Seq<char>> {
    items.map_values(|q: Vec<char>| q@)
}

/// `s` with every occurrence of `q` removed, order kept.
pub open spec fn remove_all(s: Seq<Seq<char>>, q: Seq<char>) -> Seq<Seq<char>>
    decreases s.len(),
{
    if s.len() == 0 {
        Seq::empty()
    } else if s[0] == q {
        remove_all(s.drop_first(), q)
    } else {
        seq![s[0]] + remove_all(s.drop_first(), q)
    }
}

/// The stored history after a submission of `q` (already trimmed):
/// any earlier occurrence moves to the end, and the oldest entries are
/// dropped so that at most `cap` remain. An empty query, or a cap of
/// zero, leaves the history empty of it.
pub open spec fn hist_push_spec(s: Seq<Seq<char>>, cap: nat, q: Seq<char>) -> Seq<Seq<char>> {
    if cap == 0 || q.len() == 0 {
        s
    } else {
        let moved = remove_all(s, q).push(q);
        if moved.len() > cap {
            moved.subrange(moved.len() - cap, moved.len() as int)
        } else {
            moved
        }
    }
}

impl View for HistoryLog {
    type V = Seq<Seq<char>>;

    closed spec fn view(&self) -> Seq<Seq<char>> {
        hist_view(self.items@)
    }
}

impl HistoryLog {
    /// The configured bound.
    pub closed spec fn spec_cap(&self) -> nat {
        self.cap as nat
    }

    /// An empty history with the given bound.
    pub fn new(cap: usize) -> (r: HistoryLog)
        ensures
            r@ == Seq::<Seq<char>>::empty(),
            r.spec_cap() == cap,
    {
        let r = HistoryLog { items: Vec::new(), cap };
        proof {
            assert(r@ =~= Seq::<Seq<char>>::empty());
        }
        r
    }

    /// The configured bound.
    pub fn cap(&self) -> (r: usize)
        ensures
            r == self.spec_cap(),
    {
        self.cap
    }

    /// The number of stored queries.
    pub fn len(&self) -> (r: usize)
        ensures
            r == self@.len(),
    {
        self.items.len()
    }

    /// The query at a position, oldest first.
    pub fn item_at(&self, i: usize) -> (r: Vec<char>)
        requires
            i < self@.len(),
        ensures
            r@ == self@[i as int],
    {
        clone_chars(&self.items[i])
    }

    /// Record a submission: the query is trimmed, an existing occurrence
    /// moves to the end, and the oldest entries are dropped beyond the
    /// bound.
    pub fn submit(&mut self, q: &[char])
        ensures
            final(self)@ == hist_push_spec(old(self)@, old(self).spec_cap(), trim_spec(q@)),
            final(self).spec_cap() == old(self).spec_cap(),
    {
        let t = trim_spaces(q);
        if self.cap == 0 || t.len() == 0 {
            return ;
        }
        let ghost orig = old(self)@;
        let ghost tq = t@;
        let mut kept = remove_matching(&self.items, t.as_slice());
        kept.push(t);
        let ghost moved = remove_all(orig, tq).push(tq);
        proof {
            assert(hist_view(kept@) =~= moved);
        }
        drop_front_to_cap(&mut kept, self.cap);
        self.items = kept;
        proof {
            assert(self@ == hist_push_spec(orig, self.cap as nat, tq));
        }
    }
}

/// The stored queries that differ from `t`, in order.
pub fn remove_matching(items: &Vec<Vec<char>>, t: &[char]) -> (r: Vec<Vec<char>>)
    ensures
        hist_view(r@) == remove_all(hist_view(items@), t@),
{
    let ghost orig = hist_view(items@);
    let mut kept: Vec<Vec<char>> = Vec::new();
    let mut i: usize = 0;
    while i < items.len()
        invariant
            i <= items@.len(),
            orig == hist_view(items@),
            hist_view(kept@) == remove_all(orig.subrange(0, i as int), t@),
        decreases items@.len() - i,
    {
        proof {
            lemma_remove_all_snoc(orig.subrange(0, i as int), orig[i as int], t@);
            assert(orig.subrange(0, i + 1) =~= orig.subrange(0, i as int).push(orig[i as int]));
        }
        if !eq_chars(items[i].as_slice(), t) {
            let it = clone_chars(&items[i]);
            kept.push(it);
            proof {
                assert(hist_view(kept@) =~= remove_all(orig.subrange(0, i as int), t@).push(
                    orig[i as int],
                ));
            }
        }
        i += 1;
    }
    proof {
        assert(orig.subrange(0, orig.len() as int) =~= orig);
    }
    kept
}

/// Drop the oldest entries until at most `cap` remain.
fn drop_front_to_cap(v: &mut Vec<Vec<char>>, cap: usize)
    requires
        cap >= 1,
    ensures
        hist_view(final(v)@) == if hist_view(old(v)@).len() > cap {
            hist_view(old(v)@).subrange(
                hist_view(old(v)@).len() - cap,
                hist_view(old(v)@).len() as int,
            )
        } else {
            hist_view(old(v)@)
        },
{
    let ghost moved = hist_view(old(v)@);
    proof {
        assert(moved.subrange(0, moved.len() as int) =~= moved);
    }
    while v.len() > cap
        invariant
            cap >= 1,
            v@.len() <= moved.len(),
            moved.len() > cap ==> v@.len() >= cap,
            moved.len() <= cap ==> v@.len() == moved.len(),
            hist_view(v@) == moved.subrange(moved.len() - v@.len(), moved.len() as int),
        decreases v@.len(),
    {
        let ghost kv0 = v@;
        v.remove(0);
        proof {
            assert(v@ =~= kv0.drop_first());
            assert(hist_view(v@) =~= hist_view(kv0).drop_first());
            assert(hist_view(kv0).drop_first() =~= moved.subrange(
                moved.len() - kv0.len() + 1,
                moved.len() as int,
            ));
        }
    }
    proof {
        if moved.len() > cap {
            assert(v@.len() == cap);
        }
    }
}

impl HistoryLog {
    /// Build a history from queries read back from the file: the newest
    /// entries within the bound are kept.
    pub fn from_items(mut items: Vec<Vec<char>>, cap: usize) -> (r: HistoryLog)
        ensures
            r.spec_cap() == cap,
            cap >= 1 ==> r@ == (if hist_view(items@).len() > cap {
                hist_view(items@).subrange(
                    hist_view(items@).len() - cap,
                    hist_view(items@).len() as int,
                )
            } else {
                hist_view(items@)
            }),
            cap == 0 ==> r@ == Seq::<Seq<char>>::empty(),
    {
        if cap == 0 {
            let r = HistoryLog { items: Vec::new(), cap };
            proof {
                assert(r@ =~= Seq::<Seq<char>>::empty());
            }
            return r;
        }
        drop_front_to_cap(&mut items, cap);
        HistoryLog { items, cap }
    }

    /// The history file text: one query per line, oldest first.
    pub fn to_lines(&self) -> (r: String)
        ensures
            r@ == crate::persist::hist_unparse(self@),
    {
        crate::persist::hist_to_lines(&self.items)
    }
}

/// A sequence without repeated entries.
pub open spec fn distinct(s: Seq<Seq<char>>) -> bool {
    forall|i: int, j: int| 0 <= i < j < s.len() ==> s[i] != s[j]
}

/// What removal leaves behind: no occurrence of the query, only entries
/// that were already there, and no new repetition.
pub proof fn lemma_remove_all_props(s: Seq<Seq<char>>, q: Seq<char>)
    ensures
        forall|k: int| 0 <= k < remove_all(s, q).len() ==> #[trigger] remove_all(s, q)[k] != q,
        forall|k: int|
            0 <= k < remove_all(s, q).len() ==> s.contains(#[trigger] remove_all(s, q)[k]),
        distinct(s) ==> distinct(remove_all(s, q)),
    decreases s.len(),
{
    if s.len() > 0 {
        lemma_remove_all_props(s.drop_first(), q);
        let r = remove_all(s, q);
        let rr = remove_all(s.drop_first(), q);
        assert(forall|k: int|
            0 <= k < s.drop_first().len() ==> s.drop_first()[k] == s[k + 1]);
        assert forall|k: int| 0 <= k < rr.len() implies s.contains(#[trigger] rr[k]) by {
            assert(s.drop_first().contains(rr[k]));
            let w = choose|w: int| 0 <= w < s.drop_first().len() && s.drop_first()[w] == rr[k];
            assert(s[w + 1] == rr[k]);
        }
        if s[0] != q {
            assert(r == seq![s[0]] + rr);
            assert(forall|k: int| 0 <= k < r.len() ==> #[trigger] r[k] != q);
            assert(forall|k: int| 0 <= k < r.len() ==> s.contains(#[trigger] r[k]));
            if distinct(s) {
                assert(distinct(s.drop_first()));
                assert forall|i: int, j: int| 0 <= i < j < r.len() implies r[i] != r[j] by {
                    if i == 0 {
                        assert(r[0] == s[0]);
                        assert(s.drop_first().contains(r[j]));
                        let w = choose|w: int|
                            0 <= w < s.drop_first().len() && s.drop_first()[w] == r[j];
                        assert(s[w + 1] == r[j]);
                        assert(s[0] != s[w + 1]);
                    } else {
                        assert(r[i] == rr[i - 1] && r[j] == rr[j - 1]);
                    }
                }
            }
        } else {
            assert(distinct(s) ==> distinct(s.drop_first()));
        }
    }
}

/// Law: a submission never leaves a duplicate behind. An existing entry
/// moves to the end instead of appearing twice.
pub proof fn lemma_submit_keeps_distinct(s: Seq<Seq<char>>, cap: nat, q: Seq<char>)
    requires
        distinct(s),
    ensures
        distinct(hist_push_spec(s, cap, q)),
{
    if cap == 0 || q.len() == 0 {
    } else {
        lemma_remove_all_props(s, q);
        let moved = remove_all(s, q).push(q);
        assert forall|i: int, j: int| 0 <= i < j < moved.len() implies moved[i] != moved[j] by {
            if j == moved.len() - 1 {
                assert(moved[j] == q);
                assert(moved[i] == remove_all(s, q)[i]);
            } else {
                assert(moved[i] == remove_all(s, q)[i] && moved[j] == remove_all(s, q)[j]);
            }
        }
        if moved.len() > cap {
            let r = moved.subrange(moved.len() - cap, moved.len() as int);
            assert forall|i: int, j: int| 0 <= i < j < r.len() implies r[i] != r[j] by {
                assert(r[i] == moved[moved.len() - cap + i]);
                assert(r[j] == moved[moved.len() - cap + j]);
            }
        }
    }
}

/// Removing from a sequence extended at the end.
pub proof fn lemma_remove_all_snoc(s: Seq<Seq<char>>, x: Seq<char>, q: Seq<char>)
    ensures
        remove_all(s.push(x), q) == if x == q {
            remove_all(s, q)
        } else {
            remove_all(s, q).push(x)
        },
    decreases s.len(),
{
    if s.len() == 0 {
        let sp = s.push(x);
        assert(sp[0] == x);
        assert(s =~= Seq::<Seq<char>>::empty());
        assert(sp.drop_first() =~= s);
        assert(remove_all(s, q) == Seq::<Seq<char>>::empty());
        if x == q {
            assert(remove_all(sp, q) == remove_all(sp.drop_first(), q));
            assert(remove_all(sp, q) == remove_all(s, q));
        } else {
            assert(remove_all(sp, q) == seq![x] + remove_all(sp.drop_first(), q));
            assert(remove_all(sp, q) =~= remove_all(s, q).push(x));
        }
    } else {
        lemma_remove_all_snoc(s.drop_first(), x, q);
        let sp = s.push(x);
        assert(sp.drop_first() =~= s.drop_first().push(x));
        assert(sp[0] == s[0]);
        if s[0] == q {
            assert(remove_all(sp, q) == remove_all(s.drop_first().push(x), q));
            assert(remove_all(s, q) == remove_all(s.drop_first(), q));
        } else {
            assert(remove_all(sp, q) == seq![s[0]] + remove_all(s.drop_first().push(x), q));
            assert(remove_all(s, q) == seq![s[0]] + remove_all(s.drop_first(), q));
            if x != q {
                assert(seq![s[0]] + remove_all(s.drop_first(), q).push(x) =~= (seq![s[0]]
                    + remove_all(s.drop_first(), q)).push(x));
            }
        }
    }
}

} // verus!
