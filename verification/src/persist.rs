//! The launcher's two text file formats: use counts as `description|count`
//! lines, and history as one query per line. Reading back what was written
//! gives the same records; this is stated and proved below.

use vstd::prelude::*;
use crate::text::chars_to_string;
use crate::text::digits_of;
use crate::text::find_first;
use crate::text::first_index_of;
use crate::text::is_digit;
use crate::text::lemma_digits_of_value;
use crate::text::lemma_first_index_at;
use crate::text::parse_u32;
use crate::text::parse_u32_spec;
use crate::text::str_chars;
use crate::text::u32_digits;

verus! {

/// `s` can stand on one line of a file: it holds no newline.
pub open spec fn line_ok(s: Seq<char>) -> bool {
    forall|i: int| 0 <= i < s.len() ==> s[i] != '\n'
}

/// A description the count file format can carry: no newline and no
/// separator bar.
pub open spec fn mru_key_ok(s: Seq<char>) -> bool {
    line_ok(s) && (forall|i: int| 0 <= i < s.len() ==> s[i] != '|')
}

/// One record of the count file.
pub open spec fn mru_line(e: (Seq<char>, u32)) -> Seq<char> {
    e.0 + seq!['|'] + digits_of(e.1 as nat) + seq!['\n']
}

/// The text of a whole count file, records in order.
pub open spec fn mru_unparse(v: Seq<(Seq<char>, u32)>) -> Seq<char>
    decreases v.len(),
{
    if v.len() == 0 {
        Seq::empty()
    } else {
        mru_line(v[0]) + mru_unparse(v.drop_first())
    }
}

/// One line of the count file read back; `None` for a malformed line,
/// which a reader skips.
pub open spec fn mru_parse_line(line: Seq<char>) -> Option<(Seq<char>, u32)> {
    let p = first_index_of(line, '|');
    if 0 <= p < line.len() {
        match parse_u32_spec(line.subrange(p + 1, line.len() as int)) {
            Some(c) => Some((line.subrange(0, p), c)),
            None => None,
        }
    } else {
        None
    }
}

/// The records of a count file text, malformed lines skipped.
#[verifier::opaque]
pub open spec fn mru_parse(s: Seq<char>) -> Seq<(Seq<char>, u32)>
    decreases s.len(),
{
    if s.len() == 0 {
        Seq::empty()
    } else {
        let n = first_index_of(s, '\n');
        if 0 <= n < s.len() {
            let line = s.subrange(0, n);
            let rest = s.subrange(n + 1, s.len() as int);
            match mru_parse_line(line) {
                Some(e) => seq![e] + mru_parse(rest),
                None => mru_parse(rest),
            }
        } else {
            match mru_parse_line(s) {
                Some(e) => seq![e],
                None => Seq::empty(),
            }
        }
    }
}

/// The text of a whole history file, oldest query first.
pub open spec fn hist_unparse(v: Seq<Seq<char>>) -> Seq<char>
    decreases v.len(),
{
    if v.len() == 0 {
        Seq::empty()
    } else {
        v[0] + seq!['\n'] + hist_unparse(v.drop_first())
    }
}

/// The queries of a history file text, one per line.
#[verifier::opaque]
pub open spec fn hist_parse(s: Seq<char>) -> Seq<Seq<char>>
    decreases s.len(),
{
    if s.len() == 0 {
        Seq::empty()
    } else {
        let n = first_index_of(s, '\n');
        if 0 <= n < s.len() {
            seq![s.subrange(0, n)] + hist_parse(s.subrange(n + 1, s.len() as int))
        } else {
            seq![s]
        }
    }
}

/// Append one count record to a growing text.
fn push_mru_line(out: &mut Vec<char>, desc: &[char], count: u32)
    ensures
        final(out)@ == old(out)@ + mru_line((desc@, count)),
{
    let ghost o0 = out@;
    out.extend_from_slice(desc);
    out.push('|');
    let digits = u32_digits(count);
    let mut i: usize = 0;
    while i < digits.len()
        invariant
            i <= digits@.len(),
            out@ == o0 + desc@ + seq!['|'] + digits@.subrange(0, i as int),
        decreases digits@.len() - i,
    {
        out.push(digits[i]);
        i += 1;
        proof {
            assert(out@ =~= o0 + desc@ + seq!['|'] + digits@.subrange(0, i as int));
        }
    }
    out.push('\n');
    proof {
        assert(digits@.subrange(0, digits@.len() as int) =~= digits@);
        assert(out@ =~= o0 + mru_line((desc@, count)));
    }
}

/// Unparsing distributes over appending one record.
proof fn lemma_mru_unparse_snoc(v: Seq<(Seq<char>, u32)>, e: (Seq<char>, u32))
    ensures
        mru_unparse(v.push(e)) == mru_unparse(v) + mru_line(e),
    decreases v.len(),
{
    if v.len() == 0 {
        assert(v.push(e)[0] == e);
        assert(v.push(e).drop_first() =~= v);
        assert(mru_unparse(v.push(e)) == mru_line(e) + mru_unparse(v));
        assert(mru_line(e) + mru_unparse(v) =~= mru_unparse(v) + mru_line(e));
    } else {
        lemma_mru_unparse_snoc(v.drop_first(), e);
        assert(v.push(e).drop_first() =~= v.drop_first().push(e));
        assert(v.push(e)[0] == v[0]);
        assert(mru_unparse(v.push(e)) == mru_line(v[0]) + mru_unparse(v.drop_first().push(e)));
        assert(mru_line(v[0]) + (mru_unparse(v.drop_first()) + mru_line(e)) =~= (mru_line(v[0])
            + mru_unparse(v.drop_first())) + mru_line(e));
    }
}

/// Write count records as file text.
pub fn mru_to_lines(entries: &Vec<(Vec<char>, u32)>) -> (r: String)
    ensures
        r@ == mru_unparse(crate::history::mru_view(entries@)),
{
    let ghost v = crate::history::mru_view(entries@);
    let mut out: Vec<char> = Vec::new();
    proof {
        assert(v.subrange(0, 0) =~= Seq::<(Seq<char>, u32)>::empty());
        assert(out@ =~= Seq::<char>::empty() + mru_unparse(v.subrange(0, 0)));
        assert(out@ =~= mru_unparse(v.subrange(0, 0)));
    }
    let mut i: usize = 0;
    while i < entries.len()
        invariant
            i <= entries@.len(),
            v == crate::history::mru_view(entries@),
            out@ == mru_unparse(v.subrange(0, i as int)),
        decreases entries@.len() - i,
    {
        push_mru_line(&mut out, entries[i].0.as_slice(), entries[i].1);
        proof {
            lemma_mru_unparse_snoc(v.subrange(0, i as int), v[i as int]);
            assert(v.subrange(0, i + 1) =~= v.subrange(0, i as int).push(v[i as int]));
        }
        i += 1;
    }
    proof {
        assert(v.subrange(0, v.len() as int) =~= v);
    }
    chars_to_string(&out)
}

/// Read count records back from file text.
pub fn mru_from_lines(s: &str) -> (r: Vec<(Vec<char>, u32)>)
    ensures
        crate::history::mru_view(r@) == mru_parse(s@),
{
    let cs = str_chars(s);
    parse_mru_slice(cs.as_slice())
}

/// Read count records from a character slice.
#[verifier::rlimit(60)]
#[verifier::spinoff_prover]
fn parse_mru_slice(s: &[char]) -> (r: Vec<(Vec<char>, u32)>)
    ensures
        crate::history::mru_view(r@) == mru_parse(s@),
    decreases s@.len(),
{
    proof {
        reveal(mru_parse);
    }
    if s.len() == 0 {
        let r: Vec<(Vec<char>, u32)> = Vec::new();
        proof {
            assert(crate::history::mru_view(r@) =~= mru_parse(s@));
        }
        return r;
    }
    let n = find_first(s, '\n');
    let line: &[char] = &s[0..n];
    let e_opt = parse_mru_line_exec(line);
    let mut tail: Vec<(Vec<char>, u32)>;
    if n < s.len() {
        let rest: &[char] = &s[n + 1..s.len()];
        tail = parse_mru_slice(rest);
    } else {
        let empty: &[char] = &s[0..0];
        tail = parse_mru_slice(empty);
        proof {
            assert(line@ =~= s@);
            assert(crate::history::mru_view(tail@) =~= Seq::<(Seq<char>, u32)>::empty());
        }
    }
    match e_opt {
        Some(e) => {
            let mut r: Vec<(Vec<char>, u32)> = Vec::new();
            r.push(e);
            r.append(&mut tail);
            proof {
                assert(crate::history::mru_view(r@) =~= mru_parse(s@));
            }
            r
        },
        None => {
            proof {
                assert(crate::history::mru_view(tail@) =~= mru_parse(s@));
            }
            tail
        },
    }
}

/// Read one count line; `None` for a malformed one.
fn parse_mru_line_exec(line: &[char]) -> (r: Option<(Vec<char>, u32)>)
    ensures
        match r {
            Some(e) => mru_parse_line(line@) == Some((e.0@, e.1)),
            None => mru_parse_line(line@) is None,
        },
{
    let p = find_first(line, '|');
    if p < line.len() {
        let count_part: &[char] = &line[p + 1..line.len()];
        match parse_u32(count_part) {
            Some(c) => {
                let mut desc: Vec<char> = Vec::new();
                let head: &[char] = &line[0..p];
                desc.extend_from_slice(head);
                proof {
                    assert(desc@ =~= line@.subrange(0, p as int));
                }
                Some((desc, c))
            },
            None => None,
        }
    } else {
        None
    }
}

/// Append one history record to a growing text.
fn push_hist_line(out: &mut Vec<char>, q: &[char])
    ensures
        final(out)@ == old(out)@ + q@ + seq!['\n'],
{
    out.extend_from_slice(q);
    out.push('\n');
    proof {
        assert(out@ =~= old(out)@ + q@ + seq!['\n']);
    }
}

/// Unparsing distributes over appending one query.
proof fn lemma_hist_unparse_snoc(v: Seq<Seq<char>>, q: Seq<char>)
    ensures
        hist_unparse(v.push(q)) == hist_unparse(v) + q + seq!['\n'],
    decreases v.len(),
{
    if v.len() == 0 {
        assert(v.push(q)[0] == q);
        assert(v.push(q).drop_first() =~= v);
        assert(hist_unparse(v.push(q)) == q + seq!['\n'] + hist_unparse(v));
        assert(q + seq!['\n'] + hist_unparse(v) =~= hist_unparse(v) + q + seq!['\n']);
    } else {
        lemma_hist_unparse_snoc(v.drop_first(), q);
        assert(v.push(q).drop_first() =~= v.drop_first().push(q));
        assert(v.push(q)[0] == v[0]);
        assert(hist_unparse(v.push(q)) == v[0] + seq!['\n'] + hist_unparse(
            v.drop_first().push(q),
        ));
        assert(v[0] + seq!['\n'] + (hist_unparse(v.drop_first()) + q + seq!['\n']) =~= (v[0]
            + seq!['\n'] + hist_unparse(v.drop_first())) + q + seq!['\n']);
    }
}

/// Write history records as file text.
pub fn hist_to_lines(items: &Vec<Vec<char>>) -> (r: String)
    ensures
        r@ == hist_unparse(crate::history::hist_view(items@)),
{
    let ghost v = crate::history::hist_view(items@);
    let mut out: Vec<char> = Vec::new();
    proof {
        assert(v.subrange(0, 0) =~= Seq::<Seq<char>>::empty());
        assert(out@ =~= hist_unparse(v.subrange(0, 0)));
    }
    let mut i: usize = 0;
    while i < items.len()
        invariant
            i <= items@.len(),
            v == crate::history::hist_view(items@),
            out@ == hist_unparse(v.subrange(0, i as int)),
        decreases items@.len() - i,
    {
        push_hist_line(&mut out, items[i].as_slice());
        proof {
            lemma_hist_unparse_snoc(v.subrange(0, i as int), v[i as int]);
            assert(v.subrange(0, i + 1) =~= v.subrange(0, i as int).push(v[i as int]));
            assert(out@ =~= hist_unparse(v.subrange(0, i + 1)));
        }
        i += 1;
    }
    proof {
        assert(v.subrange(0, v.len() as int) =~= v);
    }
    chars_to_string(&out)
}

/// Read history records back from file text.
pub fn hist_from_lines(s: &str) -> (r: Vec<Vec<char>>)
    ensures
        crate::history::hist_view(r@) == hist_parse(s@),
{
    let cs = str_chars(s);
    parse_hist_slice(cs.as_slice())
}

/// Read history records from a character slice.
fn parse_hist_slice(s: &[char]) -> (r: Vec<Vec<char>>)
    ensures
        crate::history::hist_view(r@) == hist_parse(s@),
    decreases s@.len(),
{
    proof {
        reveal(hist_parse);
    }
    if s.len() == 0 {
        let r: Vec<Vec<char>> = Vec::new();
        proof {
            assert(crate::history::hist_view(r@) =~= hist_parse(s@));
        }
        return r;
    }
    let n = find_first(s, '\n');
    let mut line: Vec<char> = Vec::new();
    let head: &[char] = &s[0..n];
    line.extend_from_slice(head);
    proof {
        assert(line@ =~= s@.subrange(0, n as int));
    }
    if n < s.len() {
        let rest: &[char] = &s[n + 1..s.len()];
        let mut tail = parse_hist_slice(rest);
        let mut r: Vec<Vec<char>> = Vec::new();
        r.push(line);
        r.append(&mut tail);
        proof {
            assert(crate::history::hist_view(r@) =~= hist_parse(s@));
        }
        r
    } else {
        let mut r: Vec<Vec<char>> = Vec::new();
        proof {
            assert(line@ =~= s@);
        }
        r.push(line);
        proof {
            assert(crate::history::hist_view(r@) =~= hist_parse(s@));
        }
        r
    }
}

/// Parsing a well-formed record off the front of a text.
proof fn lemma_mru_record(e: (Seq<char>, u32), t: Seq<char>)
    requires
        mru_key_ok(e.0),
    ensures
        mru_parse(mru_line(e) + t) == seq![(e.0, e.1)] + mru_parse(t),
{
    reveal(mru_parse);
    let body = e.0 + seq!['|'] + digits_of(e.1 as nat);
    let s = mru_line(e) + t;
    lemma_digits_of_value(e.1 as nat);
    assert(forall|i: int|
        0 <= i < digits_of(e.1 as nat).len() ==> is_digit(#[trigger] digits_of(e.1 as nat)[i]));
    assert(s =~= body + seq!['\n'] + t);
    assert forall|j: int| 0 <= j < body.len() implies s[j] != '\n' by {
        assert(s[j] == body[j]);
        if j < e.0.len() {
            assert(body[j] == e.0[j]);
        } else if j == e.0.len() {
            assert(body[j] == '|');
        } else {
            assert(body[j] == digits_of(e.1 as nat)[j - e.0.len() - 1]);
            assert(is_digit(body[j]));
        }
    }
    assert(s[body.len() as int] == '\n');
    lemma_first_index_at(s, '\n', body.len() as int);
    assert(s.subrange(0, body.len() as int) =~= body);
    assert(s.subrange(body.len() as int + 1, s.len() as int) =~= t);
    assert forall|j: int| 0 <= j < e.0.len() implies body[j] != '|' by {
        assert(body[j] == e.0[j]);
    }
    assert(body[e.0.len() as int] == '|');
    lemma_first_index_at(body, '|', e.0.len() as int);
    assert(body.subrange(0, e.0.len() as int) =~= e.0);
    assert(body.subrange(e.0.len() as int + 1, body.len() as int) =~= digits_of(e.1 as nat));
    assert(parse_u32_spec(digits_of(e.1 as nat)) == Some(e.1));
    assert(mru_parse_line(body) == Some((e.0, e.1)));
}

/// Every description of the record list can stand in the count file.
pub open spec fn mru_keys_ok(v: Seq<(Seq<char>, u32)>) -> bool {
    forall|k: int| 0 <= k < v.len() ==> mru_key_ok((#[trigger] v[k]).0)
}

/// Law: reading back a written count file gives the same records, for
/// every record list whose descriptions hold no newline and no bar.
#[verifier::rlimit(100)]
#[verifier::spinoff_prover]
pub proof fn lemma_mru_round_trip(v: Seq<(Seq<char>, u32)>)
    requires
        mru_keys_ok(v),
    ensures
        mru_parse(mru_unparse(v)) == v,
    decreases v.len(),
{
    if v.len() == 0 {
        reveal(mru_parse);
    }
    if v.len() > 0 {
        let e = v[0];
        assert(mru_unparse(v) == mru_line(e) + mru_unparse(v.drop_first()));
        assert(mru_key_ok(e.0));
        lemma_mru_record(e, mru_unparse(v.drop_first()));
        assert forall|k: int| 0 <= k < v.drop_first().len() implies mru_key_ok(
            (#[trigger] v.drop_first()[k]).0,
        ) by {
            assert(v.drop_first()[k] == v[k + 1]);
        }
        assert(mru_keys_ok(v.drop_first()));
        lemma_mru_round_trip(v.drop_first());
        assert((e.0, e.1) == e);
        assert(mru_parse(mru_unparse(v)) == seq![e] + v.drop_first());
        assert(seq![e] + v.drop_first() =~= v);
    }
}

/// Parsing one line off the front of a history text.
proof fn lemma_hist_record(q: Seq<char>, t: Seq<char>)
    requires
        line_ok(q),
    ensures
        hist_parse(q + seq!['\n'] + t) == seq![q] + hist_parse(t),
{
    reveal(hist_parse);
    let s = q + seq!['\n'] + t;
    assert forall|j: int| 0 <= j < q.len() implies s[j] != '\n' by {
        assert(s[j] == q[j]);
    }
    assert(s[q.len() as int] == '\n');
    lemma_first_index_at(s, '\n', q.len() as int);
    assert(s.subrange(0, q.len() as int) =~= q);
    assert(s.subrange(q.len() as int + 1, s.len() as int) =~= t);
}

/// Every query of the list can stand on one line of the history file.
pub open spec fn lines_ok(v: Seq<Seq<char>>) -> bool {
    forall|k: int| 0 <= k < v.len() ==> line_ok(#[trigger] v[k])
}

/// Law: reading back a written history file gives the same queries, for
/// every query list whose entries hold no newline.
#[verifier::rlimit(100)]
#[verifier::spinoff_prover]
pub proof fn lemma_hist_round_trip(v: Seq<Seq<char>>)
    requires
        lines_ok(v),
    ensures
        hist_parse(hist_unparse(v)) == v,
    decreases v.len(),
{
    if v.len() == 0 {
        reveal(hist_parse);
    }
    if v.len() > 0 {
        let q = v[0];
        assert(line_ok(q));
        lemma_hist_record(q, hist_unparse(v.drop_first()));
        assert forall|k: int| 0 <= k < v.drop_first().len() implies line_ok(
            #[trigger] v.drop_first()[k],
        ) by {
            assert(v.drop_first()[k] == v[k + 1]);
        }
        assert(lines_ok(v.drop_first()));
        lemma_hist_round_trip(v.drop_first());
        assert(hist_unparse(v) == q + seq!['\n'] + hist_unparse(v.drop_first()));
        assert(hist_parse(hist_unparse(v)) == seq![q] + v.drop_first());
        assert(seq![q] + v.drop_first() =~= v);
    }
}

} // verus!
