//! Web search routing and script-filter activation text: the remainder
//! after a keyword, percent-encoding, and template substitution.

use vstd::prelude::*;
use crate::text::char_code;
use crate::text::digit_char;
use crate::text::is_digit;
use crate::text::starts_with_chars;

verus! {

/// What follows the keyword in a query it claims: empty for the bare
/// keyword, else the text after the separating space.
pub open spec fn kw_remainder(kw: Seq<char>, q: Seq<char>) -> Seq<char> {
    if q == kw {
        Seq::empty()
    } else {
        q.subrange(kw.len() as int + 1, q.len() as int)
    }
}

/// The remainder of a claimed query.
pub fn kw_remainder_exec(kw: &[char], q: &[char]) -> (r: Vec<char>)
    requires
        crate::mode::kw_matches(kw@, q@),
    ensures
        r@ == kw_remainder(kw@, q@),
{
    let mut r: Vec<char> = Vec::new();
    if q.len() == kw.len() {
        proof {
            assert(q@.subrange(0, kw@.len() as int) =~= q@);
            assert(q@ == kw@);
        }
        return r;
    }
    proof {
        assert(q@ != kw@);
    }
    let tail: &[char] = &q[kw.len() + 1..q.len()];
    r.extend_from_slice(tail);
    proof {
        assert(r@ =~= q@.subrange(kw@.len() as int + 1, q@.len() as int));
    }
    r
}

/// The hexadecimal digit for a value below sixteen, upper case.
pub open spec fn hex_char(d: nat) -> char {
    if d < 10 {
        digit_char(d)
    } else {
        (((d - 10) + 65) as u8) as char
    }
}

/// Whether a character passes through percent-encoding unchanged.
pub open spec fn is_unreserved(c: char) -> bool {
    ('a' <= c && c <= 'z') || ('A' <= c && c <= 'Z') || is_digit(c) || c == '-' || c == '.' || c
        == '_' || c == '~'
}

/// One character percent-encoded: unreserved characters stay; other
/// ASCII characters become `%XX`; characters beyond ASCII pass through
/// unchanged.
pub open spec fn pct_char(c: char) -> Seq<char> {
    if is_unreserved(c) {
        seq![c]
    } else if (c as int) < 128 {
        let hi = hex_char(((c as int) / 16) as nat);
        let lo = hex_char(((c as int) % 16) as nat);
        seq!['%', hi, lo]
    } else {
        seq![c]
    }
}

/// A text percent-encoded character by character.
pub open spec fn pct_encode(s: Seq<char>) -> Seq<char>
    decreases s.len(),
{
    if s.len() == 0 {
        Seq::empty()
    } else {
        pct_char(s[0]) + pct_encode(s.drop_first())
    }
}

/// Encoding distributes over appending one character.
proof fn lemma_pct_snoc(s: Seq<char>, c: char)
    ensures
        pct_encode(s.push(c)) == pct_encode(s) + pct_char(c),
    decreases s.len(),
{
    if s.len() == 0 {
        assert(s.push(c)[0] == c);
        assert(s.push(c).drop_first() =~= s);
        assert(pct_char(c) + pct_encode(s) =~= pct_encode(s) + pct_char(c));
    } else {
        lemma_pct_snoc(s.drop_first(), c);
        assert(s.push(c).drop_first() =~= s.drop_first().push(c));
        assert(s.push(c)[0] == s[0]);
        assert(pct_char(s[0]) + (pct_encode(s.drop_first()) + pct_char(c)) =~= (pct_char(s[0])
            + pct_encode(s.drop_first())) + pct_char(c));
    }
}

/// Percent-encode a text.
pub fn pct_encode_exec(s: &[char]) -> (r: Vec<char>)
    ensures
        r@ == pct_encode(s@),
{
    let mut out: Vec<char> = Vec::new();
    proof {
        assert(s@.subrange(0, 0) =~= Seq::<char>::empty());
        assert(out@ =~= pct_encode(s@.subrange(0, 0)));
    }
    let mut i: usize = 0;
    while i < s.len()
        invariant
            i <= s@.len(),
            out@ == pct_encode(s@.subrange(0, i as int)),
        decreases s@.len() - i,
    {
        let c = s[i];
        let u = char_code(c);
        let unres = (97 <= u && u <= 122) || (65 <= u && u <= 90) || (48 <= u && u <= 57) || c
            == '-' || c == '.' || c == '_' || c == '~';
        if unres {
            out.push(c);
        } else if u < 128 {
            out.push('%');
            let hi = (u / 16) as u8;
            let lo = (u % 16) as u8;
            out.push(
                if hi < 10 {
                    (hi + 48) as char
                } else {
                    (hi - 10 + 65) as char
                },
            );
            out.push(
                if lo < 10 {
                    (lo + 48) as char
                } else {
                    (lo - 10 + 65) as char
                },
            );
        } else {
            out.push(c);
        }
        proof {
            lemma_pct_snoc(s@.subrange(0, i as int), s@[i as int]);
            assert(s@.subrange(0, i + 1) =~= s@.subrange(0, i as int).push(s@[i as int]));
            assert(out@ =~= pct_encode(s@.subrange(0, i + 1)));
        }
        i += 1;
    }
    proof {
        assert(s@.subrange(0, s@.len() as int) =~= s@);
    }
    out
}

/// The position of the first occurrence of `p` in `s`, or `s.len()` when
/// it does not occur.
pub open spec fn first_sub_at(s: Seq<char>, p: Seq<char>) -> int {
    if exists|k: int|
        0 <= k <= s.len() - p.len() && #[trigger] s.subrange(k, k + p.len() as int) == p {
        choose|k: int|
            0 <= k <= s.len() - p.len() && #[trigger] s.subrange(k, k + p.len() as int) == p && (
            forall|j: int| 0 <= j < k ==> #[trigger] s.subrange(j, j + p.len() as int) != p)
    } else {
        s.len() as int
    }
}

/// `first_sub_at` is pinned down by a witness position.
pub proof fn lemma_first_sub_at(s: Seq<char>, p: Seq<char>, k: int)
    requires
        0 <= k <= s.len(),
        forall|j: int|
            0 <= j < k && j <= s.len() - p.len() ==> #[trigger] s.subrange(j, j + p.len() as int)
                != p,
        k <= s.len() - p.len() ==> s.subrange(k, k + p.len() as int) == p,
        k > s.len() - p.len() ==> k == s.len(),
    ensures
        first_sub_at(s, p) == k,
{
    if k <= s.len() - p.len() {
        assert(0 <= k <= s.len() - p.len() && s.subrange(k, k + p.len() as int) == p && (forall|
            j: int,
        | 0 <= j < k ==> #[trigger] s.subrange(j, j + p.len() as int) != p));
        let m = choose|m: int|
            0 <= m <= s.len() - p.len() && #[trigger] s.subrange(m, m + p.len() as int) == p && (
            forall|j: int| 0 <= j < m ==> #[trigger] s.subrange(j, j + p.len() as int) != p);
        if m < k {
            assert(s.subrange(m, m + p.len() as int) != p);
        }
        if k < m {
            assert(s.subrange(k, k + p.len() as int) != p);
        }
    } else {
        assert(forall|j: int|
            0 <= j <= s.len() - p.len() ==> #[trigger] s.subrange(j, j + p.len() as int) != p);
    }
}

/// The text with the first occurrence of `pat` replaced by `repl`; the
/// text itself when `pat` does not occur.
pub open spec fn subst_first(s: Seq<char>, pat: Seq<char>, repl: Seq<char>) -> Seq<char> {
    let k = first_sub_at(s, pat);
    if k <= s.len() - pat.len() && s.subrange(k, k + pat.len() as int) == pat {
        s.subrange(0, k) + repl + s.subrange(k + pat.len() as int, s.len() as int)
    } else {
        s
    }
}

/// Replace the first occurrence of a pattern.
pub fn subst_first_exec(s: &[char], pat: &[char], repl: &[char]) -> (r: Vec<char>)
    requires
        pat@.len() >= 1,
    ensures
        r@ == subst_first(s@, pat@, repl@),
{
    let n = s.len();
    let m = pat.len();
    if m > n {
        proof {
            lemma_first_sub_at(s@, pat@, s@.len() as int);
        }
        let mut out: Vec<char> = Vec::new();
        out.extend_from_slice(s);
        proof {
            assert(out@ =~= subst_first(s@, pat@, repl@));
        }
        return out;
    }
    let mut k: usize = 0;
    while k <= n - m
        invariant
            n == s@.len(),
            m == pat@.len(),
            1 <= m <= n,
            k <= n - m + 1,
            forall|j: int| 0 <= j < k ==> #[trigger] s@.subrange(j, j + pat@.len() as int) != pat@,
        decreases n - k,
    {
        let window: &[char] = &s[k..n];
        if starts_with_chars(window, pat) {
            proof {
                assert(window@ =~= s@.subrange(k as int, n as int));
                assert(window@.subrange(0, m as int) =~= s@.subrange(k as int, k + m));
                lemma_first_sub_at(s@, pat@, k as int);
            }
            let mut out: Vec<char> = Vec::new();
            let head: &[char] = &s[0..k];
            out.extend_from_slice(head);
            out.extend_from_slice(repl);
            let tail: &[char] = &s[k + m..n];
            out.extend_from_slice(tail);
            proof {
                assert(out@ =~= subst_first(s@, pat@, repl@));
            }
            return out;
        }
        proof {
            assert(window@ =~= s@.subrange(k as int, n as int));
            assert(window@.subrange(0, m as int) =~= s@.subrange(k as int, k + m));
        }
        k += 1;
    }
    proof {
        assert(forall|j: int|
            0 <= j <= s@.len() - pat@.len() ==> #[trigger] s@.subrange(j, j + pat@.len() as int)
                != pat@);
        lemma_first_sub_at(s@, pat@, s@.len() as int);
    }
    let mut out: Vec<char> = Vec::new();
    out.extend_from_slice(s);
    proof {
        assert(out@ =~= subst_first(s@, pat@, repl@));
    }
    out
}

/// The URL a web search opens: the template with its query slot filled
/// by the percent-encoded remainder.
pub open spec fn search_url(template: Seq<char>, remainder: Seq<char>) -> Seq<char> {
    subst_first(template, "{query}"@, pct_encode(remainder))
}

/// Build the URL for a web search.
pub fn search_url_exec(template: &[char], remainder: &[char]) -> (r: Vec<char>)
    ensures
        r@ == search_url(template@, remainder@),
{
    let enc = pct_encode_exec(remainder);
    let pat = crate::text::str_chars("{query}");
    proof {
        reveal_strlit("{query}");
    }
    subst_first_exec(template, pat.as_slice(), enc.as_slice())
}

/// The command a script-filter action runs: the template with its value
/// slot filled by the chosen item's value.
pub open spec fn action_command(template: Seq<char>, value: Seq<char>) -> Seq<char> {
    subst_first(template, "{value}"@, value)
}

/// Build the command for a script-filter action.
pub fn action_command_exec(template: &[char], value: &[char]) -> (r: Vec<char>)
    ensures
        r@ == action_command(template@, value@),
{
    let pat = crate::text::str_chars("{value}");
    proof {
        reveal_strlit("{value}");
    }
    subst_first_exec(template, pat.as_slice(), value)
}

} // verus!
