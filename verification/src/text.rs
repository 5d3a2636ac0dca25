//! Character-level text utilities shared by the parsers and formatters:
//! case folding, decimal numbers, and small sequence helpers.

use vstd::prelude::*;

verus! {

/// Relies on String::push: appends exactly one character to the string.
#[verifier::external_body]
pub fn push_char(s: &mut String, c: char)
    ensures
        final(s)@ == old(s)@.push(c),
{
    s.push(c);
}

/// The Unicode code point of a character.
pub fn char_code(c: char) -> (u: u32)
    ensures
        u == c as int,
        u <= 0x10FFFF,
{
    proof {
        vstd::utf8::char_is_scalar(c);
    }
    c as u32
}

/// Collect the characters of a string slice into a vector.
pub fn str_chars(s: &str) -> (r: Vec<char>)
    ensures
        r@ == s@,
{
    let n = s.unicode_len();
    let mut r: Vec<char> = Vec::new();
    let mut i: usize = 0;
    while i < n
        invariant
            n == s@.len(),
            i <= n,
            r@ == s@.subrange(0, i as int),
        decreases n - i,
    {
        r.push(s.get_char(i));
        i += 1;
        proof {
            assert(r@ =~= s@.subrange(0, i as int));
        }
    }
    proof {
        assert(r@ =~= s@);
    }
    r
}

/// Build a string from a slice of characters.
pub fn chars_to_string(v: &[char]) -> (r: String)
    ensures
        r@ == v@,
{
    let mut r = String::new();
    let mut i: usize = 0;
    while i < v.len()
        invariant
            i <= v@.len(),
            r@ == v@.subrange(0, i as int),
        decreases v@.len() - i,
    {
        push_char(&mut r, v[i]);
        i += 1;
        proof {
            assert(r@ =~= v@.subrange(0, i as int));
        }
    }
    proof {
        assert(r@ =~= v@);
    }
    r
}

/// Copy a character vector.
pub fn clone_chars(v: &Vec<char>) -> (r: Vec<char>)
    ensures
        r@ == v@,
{
    let mut r: Vec<char> = Vec::new();
    let mut i: usize = 0;
    while i < v.len()
        invariant
            i <= v@.len(),
            r@ == v@.subrange(0, i as int),
        decreases v@.len() - i,
    {
        r.push(v[i]);
        i += 1;
        proof {
            assert(r@ =~= v@.subrange(0, i as int));
        }
    }
    proof {
        assert(r@ =~= v@);
    }
    r
}

/// Whether two character sequences are equal.
pub fn eq_chars(a: &[char], b: &[char]) -> (r: bool)
    ensures
        r == (a@ == b@),
{
    if a.len() != b.len() {
        proof {
            assert(a@ != b@);
        }
        return false;
    }
    let mut i: usize = 0;
    while i < a.len()
        invariant
            a@.len() == b@.len(),
            i <= a@.len(),
            forall|j: int| 0 <= j < i ==> a@[j] == b@[j],
        decreases a@.len() - i,
    {
        if a[i] != b[i] {
            return false;
        }
        i += 1;
    }
    proof {
        assert(a@ =~= b@);
    }
    true
}

/// Whether `s` begins with the prefix `p`.
pub open spec fn starts_with(s: Seq<char>, p: Seq<char>) -> bool {
    s.len() >= p.len() && s.subrange(0, p.len() as int) == p
}

/// Test a prefix of a character sequence.
pub fn starts_with_chars(s: &[char], p: &[char]) -> (r: bool)
    ensures
        r == starts_with(s@, p@),
{
    if s.len() < p.len() {
        return false;
    }
    let mut i: usize = 0;
    while i < p.len()
        invariant
            s@.len() >= p@.len(),
            i <= p@.len(),
            forall|j: int| 0 <= j < i ==> s@[j] == p@[j],
        decreases p@.len() - i,
    {
        if s[i] != p[i] {
            proof {
                assert(s@.subrange(0, p@.len() as int)[i as int] != p@[i as int]);
            }
            return false;
        }
        i += 1;
    }
    proof {
        assert(s@.subrange(0, p@.len() as int) =~= p@);
    }
    true
}

/// The position of the last occurrence of `c` in `s`, if any.
pub open spec fn last_index_of(s: Seq<char>, c: char) -> Option<int> {
    if exists|i: int| 0 <= i < s.len() && s[i] == c {
        let i = choose|i: int|
            0 <= i < s.len() && s[i] == c && (forall|j: int| i < j < s.len() ==> s[j] != c);
        Some(i)
    } else {
        None
    }
}

/// Find the last occurrence of a character.
pub fn find_last(s: &[char], c: char) -> (r: Option<usize>)
    ensures
        match r {
            Some(i) => 0 <= i < s@.len() && s@[i as int] == c && (forall|j: int|
                i < j < s@.len() ==> s@[j] != c),
            None => forall|j: int| 0 <= j < s@.len() ==> s@[j] != c,
        },
{
    let mut i: usize = s.len();
    while i > 0
        invariant
            i <= s@.len(),
            forall|j: int| i <= j < s@.len() ==> s@[j] != c,
        decreases i,
    {
        i -= 1;
        if s[i] == c {
            return Some(i);
        }
    }
    None
}

/// The position of the first occurrence of `c` in `s`, or `s.len()` when
/// `c` does not occur.
pub open spec fn first_index_of(s: Seq<char>, c: char) -> int {
    if exists|i: int| 0 <= i < s.len() && s[i] == c {
        choose|i: int| 0 <= i < s.len() && s[i] == c && (forall|j: int| 0 <= j < i ==> s[j] != c)
    } else {
        s.len() as int
    }
}

/// `first_index_of` is pinned down by a witness position.
pub proof fn lemma_first_index_at(s: Seq<char>, c: char, k: int)
    requires
        0 <= k <= s.len(),
        forall|j: int| 0 <= j < k ==> s[j] != c,
        k < s.len() ==> s[k] == c,
    ensures
        first_index_of(s, c) == k,
{
    if k < s.len() {
        assert(0 <= k < s.len() && s[k] == c && (forall|j: int| 0 <= j < k ==> s[j] != c));
        let m = choose|i: int|
            0 <= i < s.len() && s[i] == c && (forall|j: int| 0 <= j < i ==> s[j] != c);
        if m < k {
            assert(s[m] != c);
        }
        if k < m {
            assert(s[k] != c);
        }
    } else {
        assert(forall|i: int| 0 <= i < s.len() ==> s[i] != c);
    }
}

/// Scan for the first occurrence of a character.
pub fn find_first(s: &[char], c: char) -> (r: usize)
    ensures
        r == first_index_of(s@, c),
        r <= s@.len(),
        r < s@.len() ==> s@[r as int] == c,
        forall|j: int| 0 <= j < r ==> s@[j] != c,
{
    let mut i: usize = 0;
    while i < s.len()
        invariant
            i <= s@.len(),
            forall|j: int| 0 <= j < i ==> s@[j] != c,
        decreases s@.len() - i,
    {
        if s[i] == c {
            proof {
                lemma_first_index_at(s@, c, i as int);
            }
            return i;
        }
        i += 1;
    }
    proof {
        lemma_first_index_at(s@, c, s@.len() as int);
    }
    s.len()
}

/// ASCII lower-casing of one character; other characters are unchanged.
pub open spec fn lower_char(c: char) -> char {
    if 'A' <= c && c <= 'Z' {
        ((c as u8) + 32) as char
    } else {
        c
    }
}

/// ASCII lower-casing of a whole sequence.
pub open spec fn lower_seq(s: Seq<char>) -> Seq<char> {
    s.map_values(|c: char| lower_char(c))
}

/// Lower-case one character (ASCII only).
pub fn to_lower_char(c: char) -> (r: char)
    ensures
        r == lower_char(c),
{
    let u = char_code(c);
    if 65 <= u && u <= 90 {
        ((c as u8) + 32) as char
    } else {
        c
    }
}

/// Lower-case a character slice (ASCII only).
pub fn lower_chars(s: &[char]) -> (r: Vec<char>)
    ensures
        r@ == lower_seq(s@),
{
    let mut r: Vec<char> = Vec::new();
    let mut i: usize = 0;
    while i < s.len()
        invariant
            i <= s@.len(),
            r@ == lower_seq(s@.subrange(0, i as int)),
        decreases s@.len() - i,
    {
        r.push(to_lower_char(s[i]));
        i += 1;
        proof {
            assert(r@ =~= lower_seq(s@.subrange(0, i as int)));
        }
    }
    proof {
        assert(s@.subrange(0, s@.len() as int) =~= s@);
    }
    r
}

/// Whether `c` is a decimal digit.
pub open spec fn is_digit(c: char) -> bool {
    '0' <= c && c <= '9'
}

/// The numeric value of a digit character.
pub open spec fn digit_val(c: char) -> nat
    recommends
        is_digit(c),
{
    ((c as int) - 48) as nat
}

/// The digit character for a value below ten.
pub open spec fn digit_char(d: nat) -> char
    recommends
        d < 10,
{
    ((d + 48) as u8) as char
}

/// Whether every character of `s` is a decimal digit.
pub open spec fn all_digits(s: Seq<char>) -> bool {
    forall|i: int| 0 <= i < s.len() ==> is_digit(#[trigger] s[i])
}

/// The value of a sequence of decimal digits, most significant first.
pub open spec fn chars_value(s: Seq<char>) -> nat
    decreases s.len(),
{
    if s.len() == 0 {
        0
    } else {
        chars_value(s.drop_last()) * 10 + digit_val(s.last())
    }
}

/// The canonical decimal representation of a number, without leading zeros.
pub open spec fn digits_of(n: nat) -> Seq<char>
    decreases n,
{
    if n < 10 {
        seq![digit_char(n)]
    } else {
        digits_of(n / 10).push(digit_char(n % 10))
    }
}

/// Reading back the canonical representation gives the number itself,
/// and the representation consists of digits only.
pub proof fn lemma_digits_of_value(n: nat)
    ensures
        chars_value(digits_of(n)) == n,
        all_digits(digits_of(n)),
        digits_of(n).len() >= 1,
    decreases n,
{
    if n < 10 {
        let s = digits_of(n);
        assert(s =~= seq![digit_char(n)]);
        assert(s.drop_last() =~= Seq::<char>::empty());
        assert(chars_value(s.drop_last()) == 0);
        assert(s.last() == digit_char(n));
        assert(digit_char(n) as int == n + 48);
        assert(digit_val(digit_char(n)) == n);
        assert(chars_value(s) == chars_value(s.drop_last()) * 10 + digit_val(s.last()));
    } else {
        lemma_digits_of_value(n / 10);
        let d = digits_of(n);
        assert(d == digits_of(n / 10).push(digit_char(n % 10)));
        assert(d.drop_last() =~= digits_of(n / 10));
        assert(d.last() == digit_char(n % 10));
        assert(chars_value(d) == chars_value(digits_of(n / 10)) * 10 + digit_val(
            digit_char(n % 10),
        ));
        assert(n / 10 * 10 + n % 10 == n) by {
            vstd::arithmetic::div_mod::lemma_fundamental_div_mod(n as int, 10);
        }
        assert(forall|i: int|
            0 <= i < d.len() ==> is_digit(#[trigger] d[i]) == if i < d.len() - 1 {
                is_digit(digits_of(n / 10)[i])
            } else {
                is_digit(digit_char(n % 10))
            });
    }
}

/// A digit prefix never exceeds the value of the whole digit string.
pub proof fn lemma_value_prefix_le(s: Seq<char>, i: int)
    requires
        all_digits(s),
        0 <= i <= s.len(),
    ensures
        chars_value(s.subrange(0, i)) <= chars_value(s),
    decreases s.len() - i,
{
    if i < s.len() {
        lemma_value_prefix_le(s, i + 1);
        let a = s.subrange(0, i);
        let b = s.subrange(0, i + 1);
        assert(b.drop_last() =~= a);
        assert(chars_value(b) == chars_value(a) * 10 + digit_val(b.last()));
        assert(chars_value(a) <= chars_value(a) * 10);
    } else {
        assert(s.subrange(0, i) =~= s);
    }
}

/// A decimal digit string read as a `u32`; `None` when empty, when a
/// non-digit occurs, or when the value does not fit.
pub open spec fn parse_u32_spec(s: Seq<char>) -> Option<u32> {
    if s.len() > 0 && all_digits(s) && chars_value(s) <= u32::MAX {
        Some(chars_value(s) as u32)
    } else {
        None
    }
}

/// Parse a slice of characters as a decimal `u32`.
pub fn parse_u32(s: &[char]) -> (r: Option<u32>)
    ensures
        r == parse_u32_spec(s@),
{
    if s.len() == 0 {
        return None;
    }
    let mut acc: u64 = 0;
    let mut i: usize = 0;
    while i < s.len()
        invariant
            i <= s@.len(),
            s@.len() > 0,
            forall|j: int| 0 <= j < i ==> is_digit(#[trigger] s@[j]),
            acc == chars_value(s@.subrange(0, i as int)),
            acc <= u32::MAX,
        decreases s@.len() - i,
    {
        let c = s[i];
        let u = char_code(c);
        if u < 48 || u > 57 {
            proof {
                assert(!is_digit(s@[i as int]));
            }
            return None;
        }
        let d: u64 = (u - 48) as u64;
        let next: u64 = acc * 10 + d;
        proof {
            assert(is_digit(s@[i as int]));
            assert(d == digit_val(s@[i as int]));
            let p = s@.subrange(0, i + 1);
            assert(p.drop_last() =~= s@.subrange(0, i as int));
            assert(p.last() == s@[i as int]);
            assert(chars_value(p) == acc * 10 + digit_val(s@[i as int]));
        }
        if next > 0xffff_ffff {
            proof {
                if all_digits(s@) {
                    assert(chars_value(s@.subrange(0, i + 1)) == next);
                    lemma_value_prefix_le(s@, i + 1);
                }
            }
            return None;
        }
        acc = next;
        i += 1;
    }
    proof {
        assert(s@.subrange(0, s@.len() as int) =~= s@);
        assert(all_digits(s@));
    }
    Some(acc as u32)
}

/// The canonical decimal string of a `u32`.
pub fn u32_digits(n: u32) -> (r: Vec<char>)
    ensures
        r@ == digits_of(n as nat),
    decreases n,
{
    if n < 10 {
        let mut v: Vec<char> = Vec::new();
        v.push(((n as u8) + 48) as char);
        proof {
            assert(v@ =~= seq![digit_char(n as nat)]);
        }
        v
    } else {
        let mut r = u32_digits(n / 10);
        r.push((((n % 10) as u8) + 48) as char);
        proof {
            assert(r@ =~= digits_of((n / 10) as nat).push(digit_char((n % 10) as nat)));
        }
        r
    }
}

/// The canonical decimal string of a `u64`.
pub fn u64_digits(n: u64) -> (r: Vec<char>)
    ensures
        r@ == digits_of(n as nat),
    decreases n,
{
    if n < 10 {
        let mut v: Vec<char> = Vec::new();
        v.push(((n as u8) + 48) as char);
        proof {
            assert(v@ =~= seq![digit_char(n as nat)]);
        }
        v
    } else {
        let mut r = u64_digits(n / 10);
        r.push((((n % 10) as u8) + 48) as char);
        proof {
            assert(r@ =~= digits_of((n / 10) as nat).push(digit_char((n % 10) as nat)));
        }
        r
    }
}

/// Whether `c` is a space.
pub open spec fn is_space(c: char) -> bool {
    c == ' '
}

/// The number of leading spaces of `s`.
pub open spec fn leading_spaces(s: Seq<char>) -> int {
    if exists|i: int| 0 <= i < s.len() && !is_space(s[i]) {
        let i = choose|i: int|
            0 <= i < s.len() && !is_space(s[i]) && (forall|j: int| 0 <= j < i ==> is_space(s[j]));
        i
    } else {
        s.len() as int
    }
}

/// `s` with leading and trailing spaces removed.
pub open spec fn trim_spec(s: Seq<char>) -> Seq<char> {
    let a = leading_spaces(s);
    let rev_trim = leading_spaces(s.reverse());
    if a == s.len() {
        Seq::empty()
    } else {
        s.subrange(a, s.len() - rev_trim)
    }
}

/// Remove leading and trailing spaces from a character slice.
pub fn trim_spaces(s: &[char]) -> (r: Vec<char>)
    ensures
        r@ == trim_spec(s@),
{
    let n = s.len();
    let mut a: usize = 0;
    while a < n && s[a] == ' '
        invariant
            n == s@.len(),
            a <= n,
            forall|j: int| 0 <= j < a ==> is_space(s@[j]),
        decreases n - a,
    {
        a += 1;
    }
    if a == n {
        proof {
            assert(forall|i: int| 0 <= i < s@.len() ==> is_space(s@[i]));
            assert(leading_spaces(s@) == s@.len());
        }
        let r: Vec<char> = Vec::new();
        proof {
            assert(r@ =~= trim_spec(s@));
        }
        return r;
    }
    proof {
        let i0 = a as int;
        assert(0 <= i0 < s@.len() && !is_space(s@[i0]) && (forall|j: int|
            0 <= j < i0 ==> is_space(s@[j])));
        let w = leading_spaces(s@);
        assert(w == i0) by {
            let c = choose|i: int|
                0 <= i < s@.len() && !is_space(s@[i]) && (forall|j: int|
                    0 <= j < i ==> is_space(s@[j]));
            if c < i0 {
                assert(is_space(s@[c]));
            }
            if i0 < c {
                assert(is_space(s@[i0]));
            }
        }
    }
    let mut b: usize = n;
    while b > a && s[b - 1] == ' '
        invariant
            n == s@.len(),
            a < n,
            a <= b <= n,
            !is_space(s@[a as int]),
            forall|j: int| b <= j < n ==> is_space(s@[j]),
        decreases b,
    {
        b -= 1;
    }
    proof {
        let rv = s@.reverse();
        let k0 = (n - b) as int;
        assert(!is_space(s@[(b - 1) as int]));
        assert(rv[k0] == s@[n - 1 - k0]);
        assert(!is_space(rv[k0]));
        assert(forall|j: int| 0 <= j < k0 ==> is_space(#[trigger] rv[j]) == is_space(
            s@[n - 1 - j],
        ));
        let w = leading_spaces(rv);
        assert(w == k0) by {
            assert(0 <= k0 < rv.len() && !is_space(rv[k0]) && (forall|j: int|
                0 <= j < k0 ==> is_space(rv[j])));
            let c = choose|i: int|
                0 <= i < rv.len() && !is_space(rv[i]) && (forall|j: int|
                    0 <= j < i ==> is_space(rv[j]));
            if c < k0 {
                assert(is_space(rv[c]));
            }
            if k0 < c {
                assert(is_space(rv[k0]));
            }
        }
    }
    let mut r: Vec<char> = Vec::new();
    let mut i: usize = a;
    while i < b
        invariant
            a <= i <= b <= n,
            n == s@.len(),
            r@ == s@.subrange(a as int, i as int),
        decreases b - i,
    {
        r.push(s[i]);
        i += 1;
        proof {
            assert(r@ =~= s@.subrange(a as int, i as int));
        }
    }
    proof {
        assert(r@ =~= trim_spec(s@));
    }
    r
}

} // verus!
