//! Currency conversion intents: the trigger-prefixed grammar for explicit
//! and bare amounts, the supported code table, the rate cache with its
//! one-hour validity window, and exact scaled conversion arithmetic.

use vstd::prelude::*;
use crate::text::all_digits;
use crate::text::char_code;
use crate::text::chars_value;
use crate::text::eq_chars;
use crate::text::is_digit;
use crate::text::lemma_value_prefix_le;
use crate::text::lower_chars;
use crate::text::lower_seq;
use crate::text::starts_with;
use crate::text::starts_with_chars;

verus! {

/// A decimal amount: `man` scaled down by ten to the `scale`.
#[derive(Clone, Copy, PartialEq, Eq, Structural, Debug)]
pub struct Amount {
    pub man: u64,
    pub scale: u32,
}

/// An explicit conversion request: amount, source and target code.
pub struct ConvertRequest {
    pub amount: Amount,
    pub from: Vec<char>,
    pub to: Vec<char>,
}

/// The specification view of an explicit request.
pub ghost struct ReqV {
    pub man: nat,
    pub scale: nat,
    pub from: Seq<char>,
    pub to: Seq<char>,
}

/// The specification view of a bare-amount request before expansion:
/// amount and source code.
pub ghost struct BareV {
    pub man: nat,
    pub scale: nat,
    pub from: Seq<char>,
}

impl View for ConvertRequest {
    type V = ReqV;

    open spec fn view(&self) -> ReqV {
        ReqV {
            man: self.amount.man as nat,
            scale: self.amount.scale as nat,
            from: self.from@,
            to: self.to@,
        }
    }
}

/// The number of consecutive non-space characters from `from` on.
pub open spec fn nonspace_run(s: Seq<char>, from: int) -> int
    decreases s.len() - from,
{
    if from < 0 || from >= s.len() || s[from] == ' ' {
        0
    } else {
        1 + nonspace_run(s, from + 1)
    }
}

/// The run length stays within the sequence.
pub proof fn lemma_nonspace_run_bounds(s: Seq<char>, from: int)
    requires
        0 <= from <= s.len(),
    ensures
        0 <= nonspace_run(s, from),
        from + nonspace_run(s, from) <= s.len(),
    decreases s.len() - from,
{
    if from < s.len() && s[from] != ' ' {
        lemma_nonspace_run_bounds(s, from + 1);
    }
}

/// The query text split at spaces into maximal non-space runs.
pub open spec fn split_ws(s: Seq<char>) -> Seq<Seq<char>>
    decreases s.len(),
    via split_ws_dec
{
    if s.len() == 0 {
        Seq::empty()
    } else if s[0] == ' ' {
        split_ws(s.drop_first())
    } else {
        let n = nonspace_run(s, 0);
        seq![s.subrange(0, n)] + split_ws(s.subrange(n, s.len() as int))
    }
}

#[via_fn]
proof fn split_ws_dec(s: Seq<char>) {
    if s.len() > 0 && s[0] != ' ' {
        lemma_nonspace_run_bounds(s, 0);
        lemma_nonspace_run_bounds(s, 1);
        assert(nonspace_run(s, 0) == 1 + nonspace_run(s, 1));
        assert(nonspace_run(s, 0) >= 1);
    }
}

/// Split a character slice at spaces.
pub fn split_ws_exec(s: &[char]) -> (r: Vec<Vec<char>>)
    ensures
        crate::history::hist_view(r@) == split_ws(s@),
    decreases s@.len(),
{
    if s.len() == 0 {
        let r: Vec<Vec<char>> = Vec::new();
        proof {
            assert(crate::history::hist_view(r@) =~= split_ws(s@));
        }
        return r;
    }
    if s[0] == ' ' {
        let rest: &[char] = &s[1..s.len()];
        proof {
            assert(rest@ =~= s@.drop_first());
        }
        let r = split_ws_exec(rest);
        return r;
    }
    let n = nonspace_run_exec(s, 0);
    proof {
        lemma_nonspace_run_bounds(s@, 1);
        assert(nonspace_run(s@, 0) == 1 + nonspace_run(s@, 1));
        assert(n >= 1);
    }
    let mut head: Vec<char> = Vec::new();
    let head_sl: &[char] = &s[0..n];
    head.extend_from_slice(head_sl);
    proof {
        assert(head@ =~= s@.subrange(0, n as int));
    }
    let tail_sl: &[char] = &s[n..s.len()];
    let mut tail = split_ws_exec(tail_sl);
    let mut r: Vec<Vec<char>> = Vec::new();
    r.push(head);
    r.append(&mut tail);
    proof {
        assert(tail_sl@ =~= s@.subrange(n as int, s@.len() as int));
        assert(crate::history::hist_view(r@) =~= split_ws(s@));
    }
    r
}

/// Count consecutive non-space characters from a position.
pub fn nonspace_run_exec(s: &[char], from: usize) -> (r: usize)
    requires
        from <= s@.len(),
    ensures
        r == nonspace_run(s@, from as int),
        from + r <= s@.len(),
    decreases s@.len() - from,
{
    if from >= s.len() {
        return 0;
    }
    if s[from] == ' ' {
        return 0;
    }
    let rest = nonspace_run_exec(s, from + 1);
    rest + 1
}

/// Whether `c` is an ASCII letter.
pub open spec fn is_alpha(c: char) -> bool {
    ('a' <= c && c <= 'z') || ('A' <= c && c <= 'Z')
}

/// Whether every character of `s` is an ASCII letter.
pub open spec fn all_alpha(s: Seq<char>) -> bool {
    forall|i: int| 0 <= i < s.len() ==> is_alpha(#[trigger] s[i])
}

/// Test that a slice is all ASCII letters.
pub fn all_alpha_exec(s: &[char]) -> (r: bool)
    ensures
        r == all_alpha(s@),
{
    let mut i: usize = 0;
    while i < s.len()
        invariant
            i <= s@.len(),
            forall|j: int| 0 <= j < i ==> is_alpha(#[trigger] s@[j]),
        decreases s@.len() - i,
    {
        let u = char_code(s[i]);
        if !((97 <= u && u <= 122) || (65 <= u && u <= 90)) {
            proof {
                assert(!is_alpha(s@[i as int]));
            }
            return false;
        }
        i += 1;
    }
    true
}

/// ASCII upper-casing of one character.
pub open spec fn upper_char(c: char) -> char {
    if 'a' <= c && c <= 'z' {
        ((c as u8) - 32) as char
    } else {
        c
    }
}

/// ASCII upper-casing of a sequence.
pub open spec fn upper_seq(s: Seq<char>) -> Seq<char> {
    s.map_values(|c: char| upper_char(c))
}

/// Upper-case a character slice (ASCII only).
pub fn upper_chars(s: &[char]) -> (r: Vec<char>)
    ensures
        r@ == upper_seq(s@),
{
    let mut r: Vec<char> = Vec::new();
    let mut i: usize = 0;
    while i < s.len()
        invariant
            i <= s@.len(),
            r@ == upper_seq(s@.subrange(0, i as int)),
        decreases s@.len() - i,
    {
        let c = s[i];
        let u = char_code(c);
        if 97 <= u && u <= 122 {
            r.push(((c as u8) - 32) as char);
        } else {
            r.push(c);
        }
        i += 1;
        proof {
            assert(r@ =~= upper_seq(s@.subrange(0, i as int)));
        }
    }
    proof {
        assert(s@.subrange(0, s@.len() as int) =~= s@);
    }
    r
}

/// The number of consecutive digits of `s` from position `from` on.
pub open spec fn digit_run(s: Seq<char>, from: int) -> int
    decreases s.len() - from,
{
    if from < 0 || from >= s.len() || !is_digit(s[from]) {
        0
    } else {
        1 + digit_run(s, from + 1)
    }
}

/// Count consecutive digits from a position.
pub fn digit_run_exec(s: &[char], from: usize) -> (r: usize)
    requires
        from <= s@.len(),
    ensures
        r == digit_run(s@, from as int),
        from + r <= s@.len(),
    decreases s@.len() - from,
{
    if from >= s.len() {
        return 0;
    }
    let u = char_code(s[from]);
    if u < 48 || u > 57 {
        proof {
            assert(!is_digit(s@[from as int]));
        }
        return 0;
    }
    proof {
        assert(is_digit(s@[from as int]));
    }
    let rest = digit_run_exec(s, from + 1);
    rest + 1
}

/// A supported currency code (upper case).
pub open spec fn is_code(c: Seq<char>) -> bool {
    c == "USD"@ || c == "EUR"@ || c == "GBP"@ || c == "JPY"@ || c == "CHF"@ || c == "CAD"@
        || c == "AUD"@
}

/// Test a slice against the supported code table.
pub fn is_code_exec(t: &[char]) -> (r: bool)
    ensures
        r == is_code(t@),
{
    if eq_chars(t, crate::text::str_chars("USD").as_slice()) {
        return true;
    }
    if eq_chars(t, crate::text::str_chars("EUR").as_slice()) {
        return true;
    }
    if eq_chars(t, crate::text::str_chars("GBP").as_slice()) {
        return true;
    }
    if eq_chars(t, crate::text::str_chars("JPY").as_slice()) {
        return true;
    }
    if eq_chars(t, crate::text::str_chars("CHF").as_slice()) {
        return true;
    }
    if eq_chars(t, crate::text::str_chars("CAD").as_slice()) {
        return true;
    }
    if eq_chars(t, crate::text::str_chars("AUD").as_slice()) {
        return true;
    }
    false
}

/// The code for a currency named in words, lower case.
pub open spec fn code_for_word(w: Seq<char>) -> Option<Seq<char>> {
    if w == "dollar"@ || w == "dollars"@ {
        Some("USD"@)
    } else if w == "euro"@ || w == "euros"@ {
        Some("EUR"@)
    } else if w == "pound"@ || w == "pounds"@ {
        Some("GBP"@)
    } else if w == "yen"@ {
        Some("JPY"@)
    } else if w == "franc"@ || w == "francs"@ {
        Some("CHF"@)
    } else {
        None
    }
}

/// The code a currency token stands for: a supported code in any case,
/// or a currency word name; `None` otherwise.
pub open spec fn code_of_token(t: Seq<char>) -> Option<Seq<char>> {
    if is_code(upper_seq(t)) {
        Some(upper_seq(t))
    } else {
        code_for_word(lower_seq(t))
    }
}

/// Resolve a currency token to its code.
pub fn code_of_token_exec(t: &[char]) -> (r: Option<Vec<char>>)
    ensures
        match r {
            Some(c) => code_of_token(t@) == Some(c@),
            None => code_of_token(t@) is None,
        },
{
    let up = upper_chars(t);
    if is_code_exec(up.as_slice()) {
        return Some(up);
    }
    let lo = lower_chars(t);
    let lw = lo.as_slice();
    if eq_chars(lw, crate::text::str_chars("dollar").as_slice()) || eq_chars(
        lw,
        crate::text::str_chars("dollars").as_slice(),
    ) {
        return Some(crate::text::str_chars("USD"));
    }
    if eq_chars(lw, crate::text::str_chars("euro").as_slice()) || eq_chars(
        lw,
        crate::text::str_chars("euros").as_slice(),
    ) {
        return Some(crate::text::str_chars("EUR"));
    }
    if eq_chars(lw, crate::text::str_chars("pound").as_slice()) || eq_chars(
        lw,
        crate::text::str_chars("pounds").as_slice(),
    ) {
        return Some(crate::text::str_chars("GBP"));
    }
    if eq_chars(lw, crate::text::str_chars("yen").as_slice()) {
        return Some(crate::text::str_chars("JPY"));
    }
    if eq_chars(lw, crate::text::str_chars("franc").as_slice()) || eq_chars(
        lw,
        crate::text::str_chars("francs").as_slice(),
    ) {
        return Some(crate::text::str_chars("CHF"));
    }
    None
}

/// A digit string read as a `u64`; requires the characters to be digits.
fn parse_digits_u64(s: &[char]) -> (r: Option<u64>)
    requires
        all_digits(s@),
        s@.len() >= 1,
    ensures
        match r {
            Some(v) => v == chars_value(s@) && chars_value(s@) <= u64::MAX,
            None => chars_value(s@) > u64::MAX,
        },
{
    let mut acc: u64 = 0;
    let mut i: usize = 0;
    while i < s.len()
        invariant
            i <= s@.len(),
            all_digits(s@),
            acc == chars_value(s@.subrange(0, i as int)),
        decreases s@.len() - i,
    {
        let c = s[i];
        let u = char_code(c);
        let d: u64 = (u - 48) as u64;
        let wide: u128 = (acc as u128) * 10 + (d as u128);
        proof {
            assert(is_digit(s@[i as int]));
            assert(d == crate::text::digit_val(s@[i as int]));
            let pref = s@.subrange(0, i + 1);
            assert(pref.drop_last() =~= s@.subrange(0, i as int));
            assert(pref.last() == s@[i as int]);
            assert(chars_value(pref) == acc * 10 + d);
        }
        if wide > 0xffff_ffff_ffff_ffff {
            proof {
                lemma_value_prefix_le(s@, i + 1);
            }
            return None;
        }
        acc = wide as u64;
        i += 1;
    }
    proof {
        assert(s@.subrange(0, s@.len() as int) =~= s@);
    }
    Some(acc)
}

/// A parsed amount token: value, fraction digits, and what follows the
/// number (an attached currency code, possibly empty). `None` when the
/// token is not `digits[.digits][letters]`, when more than eighteen
/// fraction digits are given, or when the value does not fit.
pub open spec fn amount_tok(t: Seq<char>) -> Option<(nat, nat, Seq<char>)> {
    let d1 = digit_run(t, 0);
    if d1 == 0 {
        None
    } else if d1 == t.len() {
        amount_val(t.subrange(0, d1), 0, Seq::empty())
    } else if t[d1] == '.' {
        let d2 = digit_run(t, d1 + 1);
        let rest = t.subrange(d1 + 1 + d2, t.len() as int);
        if d2 == 0 || d2 > 18 || !all_alpha(rest) {
            None
        } else {
            amount_val(
                t.subrange(0, d1) + t.subrange(d1 + 1, d1 + 1 + d2),
                d2 as nat,
                rest,
            )
        }
    } else {
        let rest = t.subrange(d1, t.len() as int);
        if all_alpha(rest) {
            amount_val(t.subrange(0, d1), 0, rest)
        } else {
            None
        }
    }
}

/// The amount when its digits fit a `u64`.
pub open spec fn amount_val(digits: Seq<char>, scale: nat, rest: Seq<char>) -> Option<
    (nat, nat, Seq<char>),
> {
    if chars_value(digits) <= u64::MAX {
        Some((chars_value(digits), scale, rest))
    } else {
        None
    }
}

/// Parse one amount token.
pub fn amount_tok_exec(t: &[char]) -> (r: Option<(Amount, Vec<char>)>)
    ensures
        match r {
            Some((a, rest)) => amount_tok(t@) == Some(
                (a.man as nat, a.scale as nat, rest@),
            ),
            None => amount_tok(t@) is None,
        },
{
    let d1 = digit_run_exec(t, 0);
    if d1 == 0 {
        return None;
    }
    proof {
        lemma_digit_run_digits(t@, 0);
    }
    if d1 == t.len() {
        let whole: &[char] = &t[0..d1];
        match parse_digits_u64(whole) {
            Some(v) => {
                let rest: Vec<char> = Vec::new();
                proof {
                    assert(rest@ =~= Seq::<char>::empty());
                }
                return Some((Amount { man: v, scale: 0 }, rest));
            },
            None => {
                return None;
            },
        }
    }
    if t[d1] == '.' {
        let d2 = digit_run_exec(t, d1 + 1);
        let rest_sl: &[char] = &t[d1 + 1 + d2..t.len()];
        if d2 == 0 || d2 > 18 || !all_alpha_exec(rest_sl) {
            return None;
        }
        let mut digits: Vec<char> = Vec::new();
        let whole_sl: &[char] = &t[0..d1];
        let frac_sl: &[char] = &t[d1 + 1..d1 + 1 + d2];
        digits.extend_from_slice(whole_sl);
        digits.extend_from_slice(frac_sl);
        proof {
            lemma_digit_run_digits(t@, d1 + 1);
            assert(digits@ =~= t@.subrange(0, d1 as int) + t@.subrange(
                d1 + 1,
                d1 + 1 + d2,
            ));
            assert(all_digits(digits@));
        }
        match parse_digits_u64(digits.as_slice()) {
            Some(v) => {
                let mut rest: Vec<char> = Vec::new();
                rest.extend_from_slice(rest_sl);
                proof {
                    assert(rest@ =~= t@.subrange(d1 + 1 + d2, t@.len() as int));
                }
                Some((Amount { man: v, scale: d2 as u32 }, rest))
            },
            None => None,
        }
    } else {
        let rest_sl: &[char] = &t[d1..t.len()];
        if !all_alpha_exec(rest_sl) {
            return None;
        }
        let whole_sl: &[char] = &t[0..d1];
        match parse_digits_u64(whole_sl) {
            Some(v) => {
                let mut rest: Vec<char> = Vec::new();
                rest.extend_from_slice(rest_sl);
                proof {
                    assert(rest@ =~= t@.subrange(d1 as int, t@.len() as int));
                }
                Some((Amount { man: v, scale: 0 }, rest))
            },
            None => None,
        }
    }
}

/// A digit run consists of digits.
pub proof fn lemma_digit_run_digits(s: Seq<char>, from: int)
    requires
        0 <= from <= s.len(),
    ensures
        from + digit_run(s, from) <= s.len(),
        forall|j: int| from <= j < from + digit_run(s, from) ==> is_digit(#[trigger] s[j]),
    decreases s.len() - from,
{
    if from < s.len() && is_digit(s[from]) {
        lemma_digit_run_digits(s, from + 1);
    }
}

/// Whether a token reads `to` or `in`, in any case.
pub open spec fn is_to_or_in(t: Seq<char>) -> bool {
    lower_seq(t) == "to"@ || lower_seq(t) == "in"@
}

/// Test a token for `to` or `in`.
pub fn is_to_or_in_exec(t: &[char]) -> (r: bool)
    ensures
        r == is_to_or_in(t@),
{
    let lo = lower_chars(t);
    eq_chars(lo.as_slice(), crate::text::str_chars("to").as_slice()) || eq_chars(
        lo.as_slice(),
        crate::text::str_chars("in").as_slice(),
    )
}

/// An explicit conversion intent: after the trigger prefix, an amount
/// (with an attached or separate source code, else the default), the word
/// `to` or `in`, and a target; both codes must be supported and must
/// differ.
pub open spec fn parse_explicit_spec(
    q: Seq<char>,
    trigger: Seq<char>,
    default_cur: Seq<char>,
) -> Option<ReqV> {
    if !starts_with(q, trigger) {
        None
    } else {
        let toks = split_ws(q.subrange(trigger.len() as int, q.len() as int));
        if toks.len() == 3 {
            match amount_tok(toks[0]) {
                Some((man, scale, att)) => {
                    let fromc = if att.len() == 0 {
                        Some(default_cur)
                    } else {
                        code_of_token(att)
                    };
                    if is_to_or_in(toks[1]) {
                        match (fromc, code_of_token(toks[2])) {
                            (Some(f), Some(t2)) => if f != t2 {
                                Some(ReqV { man, scale, from: f, to: t2 })
                            } else {
                                None
                            },
                            _ => None,
                        }
                    } else {
                        None
                    }
                },
                None => None,
            }
        } else if toks.len() == 4 {
            match amount_tok(toks[0]) {
                Some((man, scale, att)) => {
                    if att.len() == 0 && is_to_or_in(toks[2]) {
                        match (code_of_token(toks[1]), code_of_token(toks[3])) {
                            (Some(f), Some(t2)) => if f != t2 {
                                Some(ReqV { man, scale, from: f, to: t2 })
                            } else {
                                None
                            },
                            _ => None,
                        }
                    } else {
                        None
                    }
                },
                None => None,
            }
        } else {
            None
        }
    }
}

/// A bare-amount intent: after the trigger prefix, one amount with an
/// attached, separate or defaulted source code, and nothing more.
pub open spec fn parse_bare_spec(
    q: Seq<char>,
    trigger: Seq<char>,
    default_cur: Seq<char>,
) -> Option<BareV> {
    if !starts_with(q, trigger) {
        None
    } else {
        let toks = split_ws(q.subrange(trigger.len() as int, q.len() as int));
        if toks.len() == 1 {
            match amount_tok(toks[0]) {
                Some((man, scale, att)) => {
                    if att.len() == 0 {
                        Some(BareV { man, scale, from: default_cur })
                    } else {
                        match code_of_token(att) {
                            Some(f) => Some(BareV { man, scale, from: f }),
                            None => None,
                        }
                    }
                },
                None => None,
            }
        } else if toks.len() == 2 {
            match amount_tok(toks[0]) {
                Some((man, scale, att)) => {
                    if att.len() == 0 {
                        match code_of_token(toks[1]) {
                            Some(f) => Some(BareV { man, scale, from: f }),
                            None => None,
                        }
                    } else {
                        None
                    }
                },
                None => None,
            }
        } else {
            None
        }
    }
}

/// A bare trigger, with at most one trailing space: the help row.
pub open spec fn is_trigger_help(q: Seq<char>, trigger: Seq<char>) -> bool {
    trigger.len() > 0 && (q == trigger || q == trigger + seq![' '])
}

/// Test for the bare trigger.
pub fn is_trigger_help_exec(q: &[char], trigger: &[char]) -> (r: bool)
    ensures
        r == is_trigger_help(q@, trigger@),
{
    if trigger.len() == 0 {
        return false;
    }
    if eq_chars(q, trigger) {
        return true;
    }
    let qn = q.len();
    let tn = trigger.len();
    if qn > tn && qn - 1 == tn && q[qn - 1] == ' ' {
        let head: &[char] = &q[0..qn - 1];
        let he = eq_chars(head, trigger);
        proof {
            if q@ == trigger@ + seq![' '] {
                assert(q@.subrange(0, q@.len() - 1) =~= trigger@);
            }
            if he {
                assert(q@ =~= trigger@ + seq![' ']);
            }
        }
        return he;
    }
    proof {
        if q@ == trigger@ + seq![' '] {
            assert(q@.len() == trigger@.len() + 1);
            assert((trigger@ + seq![' '])[trigger@.len() as int] == ' ');
            assert(q@[q@.len() - 1] == ' ');
        }
    }
    false
}

/// Parse an explicit conversion intent.
pub fn parse_explicit_exec(q: &[char], trigger: &[char], default_cur: &[char]) -> (r: Option<
    ConvertRequest,
>)
    ensures
        match r {
            Some(req) => parse_explicit_spec(q@, trigger@, default_cur@) == Some(req@),
            None => parse_explicit_spec(q@, trigger@, default_cur@) is None,
        },
{
    if !starts_with_chars(q, trigger) {
        return None;
    }
    let rest: &[char] = &q[trigger.len()..q.len()];
    proof {
        assert(rest@ =~= q@.subrange(trigger@.len() as int, q@.len() as int));
    }
    let toks = split_ws_exec(rest);
    let ghost tv = split_ws(q@.subrange(trigger@.len() as int, q@.len() as int));
    if toks.len() == 3 {
        let am = amount_tok_exec(toks[0].as_slice());
        match am {
            Some((amount, att)) => {
                if !is_to_or_in_exec(toks[1].as_slice()) {
                    return None;
                }
                let fromc: Option<Vec<char>> = if att.len() == 0 {
                    let mut d: Vec<char> = Vec::new();
                    d.extend_from_slice(default_cur);
                    proof {
                        assert(d@ =~= default_cur@);
                    }
                    Some(d)
                } else {
                    code_of_token_exec(att.as_slice())
                };
                match (fromc, code_of_token_exec(toks[2].as_slice())) {
                    (Some(f), Some(t2)) => {
                        if eq_chars(f.as_slice(), t2.as_slice()) {
                            None
                        } else {
                            Some(ConvertRequest { amount, from: f, to: t2 })
                        }
                    },
                    _ => None,
                }
            },
            None => None,
        }
    } else if toks.len() == 4 {
        let am = amount_tok_exec(toks[0].as_slice());
        match am {
            Some((amount, att)) => {
                if att.len() > 0 {
                    return None;
                }
                if !is_to_or_in_exec(toks[2].as_slice()) {
                    return None;
                }
                match (
                    code_of_token_exec(toks[1].as_slice()),
                    code_of_token_exec(toks[3].as_slice()),
                ) {
                    (Some(f), Some(t2)) => {
                        if eq_chars(f.as_slice(), t2.as_slice()) {
                            None
                        } else {
                            Some(ConvertRequest { amount, from: f, to: t2 })
                        }
                    },
                    _ => None,
                }
            },
            None => None,
        }
    } else {
        None
    }
}

/// Parse a bare-amount intent; the result carries the amount and the
/// source code.
pub fn parse_bare_exec(q: &[char], trigger: &[char], default_cur: &[char]) -> (r: Option<
    (Amount, Vec<char>),
>)
    ensures
        match r {
            Some((a, f)) => parse_bare_spec(q@, trigger@, default_cur@) == Some(
                BareV { man: a.man as nat, scale: a.scale as nat, from: f@ },
            ),
            None => parse_bare_spec(q@, trigger@, default_cur@) is None,
        },
{
    if !starts_with_chars(q, trigger) {
        return None;
    }
    let rest: &[char] = &q[trigger.len()..q.len()];
    proof {
        assert(rest@ =~= q@.subrange(trigger@.len() as int, q@.len() as int));
    }
    let toks = split_ws_exec(rest);
    if toks.len() == 1 {
        match amount_tok_exec(toks[0].as_slice()) {
            Some((amount, att)) => {
                if att.len() == 0 {
                    let mut d: Vec<char> = Vec::new();
                    d.extend_from_slice(default_cur);
                    proof {
                        assert(d@ =~= default_cur@);
                    }
                    Some((amount, d))
                } else {
                    match code_of_token_exec(att.as_slice()) {
                        Some(f) => Some((amount, f)),
                        None => None,
                    }
                }
            },
            None => None,
        }
    } else if toks.len() == 2 {
        match amount_tok_exec(toks[0].as_slice()) {
            Some((amount, att)) => {
                if att.len() > 0 {
                    return None;
                }
                match code_of_token_exec(toks[1].as_slice()) {
                    Some(f) => Some((amount, f)),
                    None => None,
                }
            },
            None => None,
        }
    } else {
        None
    }
}

/// How long a fetched rate stays valid, in seconds.
pub const RATE_TTL_SECS: u64 = 3600;

/// A cached exchange rate: source, target, rate in millionths, and the
/// time it was fetched.
pub struct RateCache {
    entries: Vec<(Vec<char>, Vec<char>, u64, u64)>,
}

/// The view of the cache: one record per pair, in insertion order.
pub open spec fn cache_view(entries: Seq<(Vec<char>, Vec<char>, u64, u64)>) -> Seq<
    (Seq<char>, Seq<char>, u64, u64),
> {
    entries.map_values(|e: (Vec<char>, Vec<char>, u64, u64)| (e.0@, e.1@, e.2, e.3))
}

/// The rate stored for a pair, fresh at time `now`, if any.
pub open spec fn cache_lookup_spec(
    v: Seq<(Seq<char>, Seq<char>, u64, u64)>,
    from: Seq<char>,
    to: Seq<char>,
    now: u64,
) -> Option<u64>
    decreases v.len(),
{
    if v.len() == 0 {
        None
    } else if v[0].0 == from && v[0].1 == to {
        if v[0].3 <= now && now - v[0].3 < RATE_TTL_SECS {
            Some(v[0].2)
        } else {
            None
        }
    } else {
        cache_lookup_spec(v.drop_first(), from, to, now)
    }
}

/// The cache after storing a rate for a pair: the pair's record is
/// replaced, or appended when new — last write wins.
pub open spec fn cache_put_spec(
    v: Seq<(Seq<char>, Seq<char>, u64, u64)>,
    from: Seq<char>,
    to: Seq<char>,
    rate: u64,
    now: u64,
) -> Seq<(Seq<char>, Seq<char>, u64, u64)>
    decreases v.len(),
{
    if v.len() == 0 {
        seq![(from, to, rate, now)]
    } else if v[0].0 == from && v[0].1 == to {
        seq![(from, to, rate, now)] + v.drop_first()
    } else {
        seq![v[0]] + cache_put_spec(v.drop_first(), from, to, rate, now)
    }
}

impl View for RateCache {
    type V = Seq<(Seq<char>, Seq<char>, u64, u64)>;

    closed spec fn view(&self) -> Seq<(Seq<char>, Seq<char>, u64, u64)> {
        cache_view(self.entries@)
    }
}

impl RateCache {
    /// An empty cache.
    pub fn new() -> (r: RateCache)
        ensures
            r@ == Seq::<(Seq<char>, Seq<char>, u64, u64)>::empty(),
    {
        let r = RateCache { entries: Vec::new() };
        proof {
            assert(r@ =~= Seq::<(Seq<char>, Seq<char>, u64, u64)>::empty());
        }
        r
    }

    /// The fresh rate stored for a pair, if any.
    pub fn lookup(&self, from: &[char], to: &[char], now: u64) -> (r: Option<u64>)
        ensures
            r == cache_lookup_spec(self@, from@, to@, now),
    {
        proof {
            assert(self@.subrange(0, self@.len() as int) =~= self@);
        }
        let mut i: usize = 0;
        while i < self.entries.len()
            invariant
                i <= self.entries@.len(),
                cache_lookup_spec(self@, from@, to@, now) == cache_lookup_spec(
                    self@.subrange(i as int, self@.len() as int),
                    from@,
                    to@,
                    now,
                ),
            decreases self.entries@.len() - i,
        {
            proof {
                let tail = self@.subrange(i as int, self@.len() as int);
                assert(tail[0] == self@[i as int]);
                assert(tail.drop_first() =~= self@.subrange(i + 1, self@.len() as int));
            }
            let e = &self.entries[i];
            if eq_chars(e.0.as_slice(), from) && eq_chars(e.1.as_slice(), to) {
                if e.3 <= now && now - e.3 < RATE_TTL_SECS {
                    return Some(e.2);
                } else {
                    return None;
                }
            }
            i += 1;
        }
        proof {
            assert(self@.subrange(self@.len() as int, self@.len() as int).len() == 0);
        }
        None
    }

    /// Store a rate for a pair; an earlier record for the pair is
    /// replaced.
    #[verifier::loop_isolation(false)]
    pub fn put(&mut self, from: &[char], to: &[char], rate: u64, now: u64)
        ensures
            final(self)@ == cache_put_spec(old(self)@, from@, to@, rate, now),
    {
        let ghost orig = old(self)@;
        let mut i: usize = 0;
        while i < self.entries.len()
            invariant
                i <= self.entries@.len(),
                self@ == orig,
                forall|j: int| 0 <= j < i ==> !(orig[j].0 == from@ && orig[j].1 == to@),
            decreases self.entries@.len() - i,
        {
            let hit = eq_chars(self.entries[i].0.as_slice(), from) && eq_chars(
                self.entries[i].1.as_slice(),
                to,
            );
            if hit {
                let mut fv: Vec<char> = Vec::new();
                fv.extend_from_slice(from);
                let mut tv: Vec<char> = Vec::new();
                tv.extend_from_slice(to);
                proof {
                    assert(fv@ =~= from@);
                    assert(tv@ =~= to@);
                }
                self.entries.set(i, (fv, tv, rate, now));
                proof {
                    lemma_cache_put_at(orig, from@, to@, rate, now, i as int);
                    assert(self@ =~= orig.update(i as int, (from@, to@, rate, now)));
                }
                return ;
            }
            i += 1;
        }
        let mut fv: Vec<char> = Vec::new();
        fv.extend_from_slice(from);
        let mut tv: Vec<char> = Vec::new();
        tv.extend_from_slice(to);
        proof {
            assert(fv@ =~= from@);
            assert(tv@ =~= to@);
        }
        self.entries.push((fv, tv, rate, now));
        proof {
            lemma_cache_put_absent(orig, from@, to@, rate, now);
            assert(self@ =~= orig.push((from@, to@, rate, now)));
        }
    }
}

/// Storing over the pair's first record updates it in place.
proof fn lemma_cache_put_at(
    v: Seq<(Seq<char>, Seq<char>, u64, u64)>,
    from: Seq<char>,
    to: Seq<char>,
    rate: u64,
    now: u64,
    i: int,
)
    requires
        0 <= i < v.len(),
        v[i].0 == from && v[i].1 == to,
        forall|j: int| 0 <= j < i ==> !(v[j].0 == from && v[j].1 == to),
    ensures
        cache_put_spec(v, from, to, rate, now) == v.update(i, (from, to, rate, now)),
    decreases v.len(),
{
    if i == 0 {
        assert(cache_put_spec(v, from, to, rate, now) =~= v.update(0, (from, to, rate, now)));
    } else {
        lemma_cache_put_at(v.drop_first(), from, to, rate, now, i - 1);
        assert(cache_put_spec(v, from, to, rate, now) =~= v.update(i, (from, to, rate, now)));
    }
}

/// Storing a new pair appends its record.
proof fn lemma_cache_put_absent(
    v: Seq<(Seq<char>, Seq<char>, u64, u64)>,
    from: Seq<char>,
    to: Seq<char>,
    rate: u64,
    now: u64,
)
    requires
        forall|j: int| 0 <= j < v.len() ==> !(v[j].0 == from && v[j].1 == to),
    ensures
        cache_put_spec(v, from, to, rate, now) == v.push((from, to, rate, now)),
    decreases v.len(),
{
    if v.len() == 0 {
        assert(cache_put_spec(v, from, to, rate, now) =~= v.push((from, to, rate, now)));
    } else {
        lemma_cache_put_absent(v.drop_first(), from, to, rate, now);
        assert(cache_put_spec(v, from, to, rate, now) =~= v.push((from, to, rate, now)));
    }
}

/// Ten to the `n`.
pub open spec fn pow10(n: nat) -> nat
    decreases n,
{
    if n == 0 {
        1
    } else {
        10 * pow10((n - 1) as nat)
    }
}

/// Compute ten to the `n` for exponents up to eighteen.
pub fn pow10_exec(n: u32) -> (r: u64)
    requires
        n <= 18,
    ensures
        r == pow10(n as nat),
    decreases n,
{
    if n == 0 {
        1
    } else {
        let p = pow10_exec(n - 1);
        proof {
            lemma_pow10_bound((n - 1) as nat);
        }
        10 * p
    }
}

/// Ten to any power is at most ten to any higher power.
proof fn lemma_pow10_mono(a: nat, b: nat)
    requires
        a <= b,
    ensures
        pow10(a) <= pow10(b),
    decreases b,
{
    if a < b {
        lemma_pow10_mono(a, (b - 1) as nat);
    }
}

/// The value of ten to the seventeenth.
proof fn lemma_pow10_17()
    ensures
        pow10(17) == 100000000000000000,
{
    assert(pow10(0) == 1);
    assert(pow10(1) == 10);
    assert(pow10(2) == 100);
    assert(pow10(3) == 1000);
    assert(pow10(4) == 10000);
    assert(pow10(5) == 100000);
    assert(pow10(6) == 1000000);
    assert(pow10(7) == 10000000);
    assert(pow10(8) == 100000000);
    assert(pow10(9) == 1000000000);
    assert(pow10(10) == 10000000000);
    assert(pow10(11) == 100000000000);
    assert(pow10(12) == 1000000000000);
    assert(pow10(13) == 10000000000000);
    assert(pow10(14) == 100000000000000);
    assert(pow10(15) == 1000000000000000);
    assert(pow10(16) == 10000000000000000);
    assert(pow10(17) == 100000000000000000);
}

/// Ten to the seventeenth still fits well under the `u64` bound.
proof fn lemma_pow10_bound(n: nat)
    requires
        n <= 17,
    ensures
        pow10(n) <= 100000000000000000,
{
    lemma_pow10_mono(n, 17);
    lemma_pow10_17();
}

/// The converted value in millionths of the target currency:
/// `man / 10^scale` multiplied by `rate / 10^6`, rounded down.
pub open spec fn convert_spec(man: nat, scale: nat, rate: u64) -> nat {
    ((man * rate) / pow10(scale) as int) as nat
}

/// Convert an amount at a rate given in millionths. `None` when the
/// result does not fit, or the scale is out of range.
pub fn convert_micro(amount: Amount, rate: u64) -> (r: Option<u64>)
    ensures
        match r {
            Some(v) => amount.scale <= 18 && v == convert_spec(
                amount.man as nat,
                amount.scale as nat,
                rate,
            ),
            None => amount.scale > 18 || convert_spec(
                amount.man as nat,
                amount.scale as nat,
                rate,
            ) > u64::MAX,
        },
{
    if amount.scale > 18 {
        return None;
    }
    let p = pow10_exec(amount.scale);
    proof {
        assert(p >= 1) by {
            lemma_pow10_pos(amount.scale as nat);
        }
    }
    proof {
        assert((amount.man as int) * (rate as int) <= (u64::MAX as int) * (
        u64::MAX as int)) by (nonlinear_arith)
            requires
                amount.man <= u64::MAX,
                rate <= u64::MAX,
        ;
    }
    let prod: u128 = (amount.man as u128) * (rate as u128);
    let q: u128 = prod / (p as u128);
    proof {
        assert(q == convert_spec(amount.man as nat, amount.scale as nat, rate));
    }
    if q > 0xffff_ffff_ffff_ffff {
        None
    } else {
        Some(q as u64)
    }
}

/// Ten to any power is positive.
proof fn lemma_pow10_pos(n: nat)
    ensures
        pow10(n) >= 1,
    decreases n,
{
    if n > 0 {
        lemma_pow10_pos((n - 1) as nat);
    }
}

/// The displayed form of a value in millionths: whole part, a point, and
/// two fraction digits, rounded down.
pub open spec fn money_display(v: u64) -> Seq<char> {
    crate::text::digits_of((v / 1000000) as nat) + seq!['.'] + seq![
        crate::text::digit_char((v / 100000) as nat % 10),
        crate::text::digit_char((v / 10000) as nat % 10),
    ]
}

/// Format a value in millionths with two fraction digits.
pub fn format_micro(v: u64) -> (r: Vec<char>)
    ensures
        r@ == money_display(v),
{
    let whole = v / 1000000;
    let mut r = crate::text::u64_digits(whole);
    r.push('.');
    let d1 = ((v / 100000) % 10) as u8;
    let d2 = ((v / 10000) % 10) as u8;
    r.push((d1 + 48) as char);
    r.push((d2 + 48) as char);
    proof {
        assert(r@ =~= money_display(v));
    }
    r
}

} // verus!
