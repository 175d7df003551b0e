//! Text helpers shared by the modules: decimal rendering of integers,
//! whitespace trimming and comparisons of strings by their characters.

use vstd::prelude::*;
use vstd::string::*;

verus! {

/// The ASCII digit of a value below ten.
pub open spec fn digit_char(d: nat) -> char {
    if d == 0 { '0' } else if d == 1 { '1' } else if d == 2 { '2' } else if d == 3 { '3' } else if d == 4 { '4' }
    else if d == 5 { '5' } else if d == 6 { '6' } else if d == 7 { '7' } else if d == 8 { '8' } else { '9' }
}

/// Decimal digits of a natural number, most significant first, no leading zeros.
pub open spec fn dec_nat(n: nat) -> Seq<char>
    decreases n,
{
    if n < 10 {
        seq![digit_char(n)]
    } else {
        dec_nat(n / 10).push(digit_char(n % 10))
    }
}

/// Decimal rendering of an integer, with a leading '-' when negative.
pub open spec fn dec_int(i: int) -> Seq<char> {
    if i < 0 {
        seq!['-'] + dec_nat((-i) as nat)
    } else {
        dec_nat(i as nat)
    }
}

/// The ASCII digit of `d`, which is below ten.
fn digit_of(d: u64) -> (c: char)
    requires
        d < 10,
    ensures
        c == digit_char(d as nat),
{
    if d == 0 { '0' } else if d == 1 { '1' } else if d == 2 { '2' } else if d == 3 { '3' } else if d == 4 { '4' }
    else if d == 5 { '5' } else if d == 6 { '6' } else if d == 7 { '7' } else if d == 8 { '8' } else { '9' }
}

/// The decimal digits of `n`, as `u64`'s `Display` writes them.
pub fn u64_to_string(n: u64) -> (s: String)
    ensures
        s@ == dec_nat(n as nat),
    decreases n,
{
    if n < 10 {
        let mut s = String::new();
        push_char(&mut s, digit_of(n));
        assert(s@ =~= dec_nat(n as nat));
        s
    } else {
        let mut s = u64_to_string(n / 10);
        push_char(&mut s, digit_of(n % 10));
        s
    }
}

/// The decimal digits of `n` with a leading '-' when it is negative, as
/// `i64`'s `Display` writes them.
pub fn i64_to_string(n: i64) -> (s: String)
    ensures
        s@ == dec_int(n as int),
{
    if n < 0 {
        let m: u64 = ((-(n + 1)) as u64) + 1;
        assert(m as int == -(n as int));
        let mut s = String::new();
        push_char(&mut s, '-');
        let digits = u64_to_string(m);
        s.append(digits.as_str());
        assert(s@ =~= dec_int(n as int));
        s
    } else {
        u64_to_string(n as u64)
    }
}

/// The Unicode White_Space property: the 25 code points U+0009..U+000D,
/// U+0020, U+0085, U+00A0, U+1680, U+2000..U+200A, U+2028, U+2029,
/// U+202F, U+205F and U+3000.
pub open spec fn unicode_white_space(c: char) -> bool {
    let x = c as u32;
    (0x09 <= x <= 0x0D) || x == 0x20 || x == 0x85 || x == 0xA0 || x == 0x1680 || (0x2000 <= x <= 0x200A)
        || x == 0x2028 || x == 0x2029 || x == 0x202F || x == 0x205F || x == 0x3000
}

/// Whether `c` is white space, as `char::is_whitespace` decides it: the
/// White_Space property of the Unicode Character Database.
pub fn char_is_whitespace(c: char) -> (b: bool)
    ensures
        b == unicode_white_space(c),
{
    let x = c as u32;
    (0x09 <= x && x <= 0x0D) || x == 0x20 || x == 0x85 || x == 0xA0 || x == 0x1680 || (0x2000 <= x && x <= 0x200A)
        || x == 0x2028 || x == 0x2029 || x == 0x202F || x == 0x205F || x == 0x3000
}

/// `String::push`: the character is appended.
#[verifier::external_body]
pub fn push_char(s: &mut String, c: char)
    ensures
        final(s)@ == old(s)@.push(c),
{
    s.push(c)
}

/// An ASCII decimal digit.
pub open spec fn is_dec_digit(c: char) -> bool {
    '0' <= c && c <= '9'
}

/// The value of a string of decimal digits.
pub open spec fn digits_value(s: Seq<char>) -> int
    decreases s.len(),
{
    if s.len() == 0 {
        0
    } else {
        digits_value(s.drop_last()) * 10 + (s.last() as int - '0' as int)
    }
}

/// One or more decimal digits and nothing else.
pub open spec fn all_dec_digits(s: Seq<char>) -> bool {
    s.len() > 0 && forall|i: int| 0 <= i < s.len() ==> is_dec_digit(#[trigger] s[i])
}

/// The number that base-10 `from_str_radix` reads from `s`: an optional
/// `+` (or `-` for a signed type) followed by one or more digits and
/// nothing else; `None` for anything else. The range check of the target
/// type comes on top of this.
pub open spec fn dec_parse(s: Seq<char>, signed: bool) -> Option<int> {
    if s.len() > 0 && s[0] == '+' {
        if all_dec_digits(s.drop_first()) { Some(digits_value(s.drop_first())) } else { None }
    } else if signed && s.len() > 0 && s[0] == '-' {
        if all_dec_digits(s.drop_first()) { Some(-digits_value(s.drop_first())) } else { None }
    } else if all_dec_digits(s) {
        Some(digits_value(s))
    } else {
        None
    }
}

/// `s.parse::<i32>()` succeeds with this value, or fails on `None`.
pub open spec fn parse_i32_spec(s: Seq<char>) -> Option<i32> {
    match dec_parse(s, true) {
        Some(v) => if i32::MIN <= v <= i32::MAX { Some(v as i32) } else { None },
        None => None,
    }
}

/// `s.parse::<u16>()` succeeds with this value, or fails on `None`.
pub open spec fn parse_u16_spec(s: Seq<char>) -> Option<u16> {
    match dec_parse(s, false) {
        Some(v) => if 0 <= v <= u16::MAX { Some(v as u16) } else { None },
        None => None,
    }
}

/// `s.parse::<u64>()` succeeds with this value, or fails on `None`.
pub open spec fn parse_u64_spec(s: Seq<char>) -> Option<u64> {
    match dec_parse(s, false) {
        Some(v) => if 0 <= v <= u64::MAX { Some(v as u64) } else { None },
        None => None,
    }
}

/// `s.parse::<usize>()` succeeds with this value, or fails on `None`.
pub open spec fn parse_usize_spec(s: Seq<char>) -> Option<usize> {
    match dec_parse(s, false) {
        Some(v) => if 0 <= v <= usize::MAX { Some(v as usize) } else { None },
        None => None,
    }
}

/// `str::parse::<i32>`, as its documentation describes base-10 parsing.
#[verifier::external_body]
pub fn parse_i32(s: &str) -> (r: Option<i32>)
    ensures
        r == parse_i32_spec(s@),
{
    s.parse::<i32>().ok()
}

/// Name for the text of the error that `str::parse::<u16>` reports for `s`.
pub uninterp spec fn u16_parse_error(s: Seq<char>) -> Seq<char>;

/// `str::parse::<u16>`, as its documentation describes base-10 parsing,
/// with the error rendered by its `Display`.
#[verifier::external_body]
pub fn parse_u16(s: &str) -> (r: Result<u16, String>)
    ensures
        match r {
            Ok(v) => parse_u16_spec(s@) == Some(v),
            Err(e) => parse_u16_spec(s@) is None && e@ == u16_parse_error(s@),
        },
{
    match s.parse::<u16>() {
        Ok(v) => Ok(v),
        Err(e) => Err(e.to_string()),
    }
}

/// `str::parse::<u64>`, as its documentation describes base-10 parsing.
#[verifier::external_body]
pub fn parse_u64(s: &str) -> (r: Option<u64>)
    ensures
        r == parse_u64_spec(s@),
{
    s.parse::<u64>().ok()
}

/// `str::parse::<usize>`, as its documentation describes base-10 parsing.
#[verifier::external_body]
pub fn parse_usize(s: &str) -> (r: Option<usize>)
    ensures
        r == parse_usize_spec(s@),
{
    s.parse::<usize>().ok()
}

/// Number of leading characters of `s` that satisfy `p`.
pub open spec fn lead_count(s: Seq<char>, p: spec_fn(char) -> bool) -> nat
    decreases s.len(),
{
    if s.len() > 0 && p(s[0]) {
        1 + lead_count(s.drop_first(), p)
    } else {
        0
    }
}

/// Number of trailing characters of `s` that satisfy `p`.
pub open spec fn trail_count(s: Seq<char>, p: spec_fn(char) -> bool) -> nat
    decreases s.len(),
{
    if s.len() > 0 && p(s.last()) {
        1 + trail_count(s.drop_last(), p)
    } else {
        0
    }
}

/// `s` without its leading and trailing characters that satisfy `p`
/// (what `str::trim_matches` does with a char predicate).
pub open spec fn strip_both(s: Seq<char>, p: spec_fn(char) -> bool) -> Seq<char> {
    let a = lead_count(s, p);
    if a == s.len() {
        Seq::empty()
    } else {
        s.subrange(a as int, s.len() - trail_count(s, p))
    }
}

/// `s` without leading and trailing Unicode white space (`str::trim`).
pub open spec fn trim_spec(s: Seq<char>) -> Seq<char> {
    strip_both(s, |c: char| unicode_white_space(c))
}

/// `s` without leading and trailing slashes (`str::trim_matches('/')`).
pub open spec fn trim_slashes_spec(s: Seq<char>) -> Seq<char> {
    strip_both(s, |c: char| c == '/')
}

proof fn lemma_lead_count_bound(s: Seq<char>, p: spec_fn(char) -> bool)
    ensures
        lead_count(s, p) <= s.len(),
        forall|k: int| 0 <= k < lead_count(s, p) ==> p(#[trigger] s[k]),
        lead_count(s, p) < s.len() ==> !p(s[lead_count(s, p) as int]),
    decreases s.len(),
{
    if s.len() > 0 && p(s[0]) {
        lemma_lead_count_bound(s.drop_first(), p);
        assert forall|k: int| 0 <= k < lead_count(s, p) implies p(#[trigger] s[k]) by {
            if k > 0 {
                assert(s[k] == s.drop_first()[k - 1]);
            }
        }
    }
}

proof fn lemma_lead_count_exact(s: Seq<char>, p: spec_fn(char) -> bool, a: nat)
    requires
        a <= s.len(),
        forall|k: int| 0 <= k < a ==> p(#[trigger] s[k]),
        a < s.len() ==> !p(s[a as int]),
    ensures
        lead_count(s, p) == a,
    decreases s.len(),
{
    if a > 0 {
        assert(p(s[0]));
        assert forall|k: int| 0 <= k < a - 1 implies p(#[trigger] s.drop_first()[k]) by {
            assert(s.drop_first()[k] == s[k + 1]);
        }
        if a < s.len() {
            assert(s.drop_first()[a - 1] == s[a as int]);
        }
        lemma_lead_count_exact(s.drop_first(), p, (a - 1) as nat);
    }
}

proof fn lemma_trail_count_exact(s: Seq<char>, p: spec_fn(char) -> bool, b: nat)
    requires
        b <= s.len(),
        forall|k: int| s.len() - b <= k < s.len() ==> p(#[trigger] s[k]),
        b < s.len() ==> !p(s[s.len() - b - 1]),
    ensures
        trail_count(s, p) == b,
    decreases s.len(),
{
    if b > 0 {
        assert(p(s[s.len() - 1]));
        let t = s.drop_last();
        assert forall|k: int| t.len() - (b - 1) <= k < t.len() implies p(#[trigger] t[k]) by {
            assert(t[k] == s[k]);
        }
        if b < s.len() {
            assert(t[t.len() - (b - 1) - 1] == s[s.len() - b - 1]);
        }
        lemma_trail_count_exact(t, p, (b - 1) as nat);
    }
}

/// Strips leading and trailing white space from `s`.
pub fn trim_str(s: &str) -> (r: String)
    ensures
        r@ == trim_spec(s@),
{
    let ghost p = |c: char| unicode_white_space(c);
    let n = s.unicode_len();
    let mut a: usize = 0;
    while a < n
        invariant
            n == s@.len(),
            p == (|c: char| unicode_white_space(c)),
            a <= n,
            forall|k: int| 0 <= k < a ==> p(#[trigger] s@[k]),
        ensures
            a <= n,
            forall|k: int| 0 <= k < a ==> p(#[trigger] s@[k]),
            a < n ==> !p(s@[a as int]),
        decreases n - a,
    {
        if !char_is_whitespace(s.get_char(a)) {
            break;
        }
        a = a + 1;
    }
    proof {
        lemma_lead_count_exact(s@, p, a as nat);
    }
    if a == n {
        return String::new();
    }
    let mut b: usize = n;
    while b > a
        invariant
            n == s@.len(),
            p == (|c: char| unicode_white_space(c)),
            a < n,
            a <= b <= n,
            !p(s@[a as int]),
            forall|k: int| b <= k < n ==> p(#[trigger] s@[k]),
        ensures
            a < b <= n,
            forall|k: int| b <= k < n ==> p(#[trigger] s@[k]),
            !p(s@[b - 1]),
        decreases b,
    {
        if !char_is_whitespace(s.get_char(b - 1)) {
            break;
        }
        b = b - 1;
    }
    proof {
        assert(b > a);
        lemma_trail_count_exact(s@, p, (n - b) as nat);
    }
    String::from_str(s.substring_char(a, b))
}

/// Strips leading and trailing '/' characters from `s`.
pub fn trim_slashes(s: &str) -> (r: String)
    ensures
        r@ == trim_slashes_spec(s@),
{
    let ghost p = |c: char| c == '/';
    let n = s.unicode_len();
    let mut a: usize = 0;
    while a < n
        invariant
            n == s@.len(),
            p == (|c: char| c == '/'),
            a <= n,
            forall|k: int| 0 <= k < a ==> p(#[trigger] s@[k]),
        ensures
            a <= n,
            forall|k: int| 0 <= k < a ==> p(#[trigger] s@[k]),
            a < n ==> !p(s@[a as int]),
        decreases n - a,
    {
        if s.get_char(a) != '/' {
            break;
        }
        a = a + 1;
    }
    proof {
        lemma_lead_count_exact(s@, p, a as nat);
    }
    if a == n {
        return String::new();
    }
    let mut b: usize = n;
    while b > a
        invariant
            n == s@.len(),
            p == (|c: char| c == '/'),
            a < n,
            a <= b <= n,
            !p(s@[a as int]),
            forall|k: int| b <= k < n ==> p(#[trigger] s@[k]),
        ensures
            a < b <= n,
            forall|k: int| b <= k < n ==> p(#[trigger] s@[k]),
            !p(s@[b - 1]),
        decreases b,
    {
        if s.get_char(b - 1) != '/' {
            break;
        }
        b = b - 1;
    }
    proof {
        lemma_trail_count_exact(s@, p, (n - b) as nat);
    }
    String::from_str(s.substring_char(a, b))
}

/// Whether two strings hold the same characters.
pub fn str_eq(a: &str, b: &str) -> (r: bool)
    ensures
        r == (a@ == b@),
{
    let n = a.unicode_len();
    let m = b.unicode_len();
    if n != m {
        return false;
    }
    let mut i: usize = 0;
    while i < n
        invariant
            n == a@.len(),
            m == b@.len(),
            n == m,
            i <= n,
            forall|k: int| 0 <= k < i ==> a@[k] == b@[k],
        decreases n - i,
    {
        if a.get_char(i) != b.get_char(i) {
            return false;
        }
        i = i + 1;
    }
    assert(a@ =~= b@);
    true
}

/// Whether `s` starts with `prefix`.
pub fn str_starts_with(s: &str, prefix: &str) -> (r: bool)
    ensures
        r == (prefix@.len() <= s@.len() && s@.subrange(0, prefix@.len() as int) == prefix@),
{
    let n = s.unicode_len();
    let m = prefix.unicode_len();
    if m > n {
        return false;
    }
    let mut i: usize = 0;
    while i < m
        invariant
            n == s@.len(),
            m == prefix@.len(),
            m <= n,
            i <= m,
            forall|k: int| 0 <= k < i ==> s@[k] == prefix@[k],
        decreases m - i,
    {
        if s.get_char(i) != prefix.get_char(i) {
            return false;
        }
        i = i + 1;
    }
    assert(s@.subrange(0, m as int) =~= prefix@);
    true
}

} // verus!
