//! Verified helpers shared across the crate: saturating counters, merging of
//! optional timestamps, decimal formatting and parsing, and whitespace
//! tokenization.

use vstd::prelude::*;

verus! {

/// `a + b` capped at `u64::MAX`. Accumulated counters saturate instead of
/// overflowing, which keeps every accumulation step total.
pub open spec fn sat_add(a: u64, b: u64) -> u64 {
    if a + b > u64::MAX {
        u64::MAX
    } else {
        (a + b) as u64
    }
}

/// Saturating addition of two counters, exactly `sat_add`.
pub fn add_capped(a: u64, b: u64) -> (r: u64)
    ensures
        r == sat_add(a, b),
{
    if a > u64::MAX - b {
        u64::MAX
    } else {
        a + b
    }
}

/// The larger of two counters.
pub open spec fn max64(a: u64, b: u64) -> u64 {
    if a >= b {
        a
    } else {
        b
    }
}

/// The earlier of two optional timestamps; an absent value is the identity.
pub open spec fn opt_min(a: Option<u64>, b: Option<u64>) -> Option<u64> {
    match (a, b) {
        (Option::None, x) => x,
        (x, Option::None) => x,
        (Option::Some(x), Option::Some(y)) => Option::Some(if x <= y { x } else { y }),
    }
}

/// The later of two optional timestamps; an absent value is the identity.
pub open spec fn opt_max(a: Option<u64>, b: Option<u64>) -> Option<u64> {
    match (a, b) {
        (Option::None, x) => x,
        (x, Option::None) => x,
        (Option::Some(x), Option::Some(y)) => Option::Some(if x >= y { x } else { y }),
    }
}

/// Merges two optional timestamps, keeping the earlier one.
pub fn merge_min(a: Option<u64>, b: Option<u64>) -> (r: Option<u64>)
    ensures
        r == opt_min(a, b),
{
    match (a, b) {
        (Option::None, x) => x,
        (x, Option::None) => x,
        (Option::Some(x), Option::Some(y)) => Option::Some(
            if x <= y {
                x
            } else {
                y
            },
        ),
    }
}

/// Merges two optional timestamps, keeping the later one.
pub fn merge_max(a: Option<u64>, b: Option<u64>) -> (r: Option<u64>)
    ensures
        r == opt_max(a, b),
{
    match (a, b) {
        (Option::None, x) => x,
        (x, Option::None) => x,
        (Option::Some(x), Option::Some(y)) => Option::Some(
            if x >= y {
                x
            } else {
                y
            },
        ),
    }
}

/// The character for one decimal digit.
pub open spec fn digit_char(d: int) -> char {
    if d == 0 {
        '0'
    } else if d == 1 {
        '1'
    } else if d == 2 {
        '2'
    } else if d == 3 {
        '3'
    } else if d == 4 {
        '4'
    } else if d == 5 {
        '5'
    } else if d == 6 {
        '6'
    } else if d == 7 {
        '7'
    } else if d == 8 {
        '8'
    } else {
        '9'
    }
}

/// The decimal rendering of a natural number, most significant digit first,
/// with no leading zeros (a single `0` for zero).
pub open spec fn dec_str(n: nat) -> Seq<char>
    decreases n,
{
    if n < 10 {
        seq![digit_char(n as int)]
    } else {
        dec_str(n / 10) + seq![digit_char((n % 10) as int)]
    }
}

fn digit_str(d: u64) -> (r: &'static str)
    requires
        d < 10,
    ensures
        r@ == seq![digit_char(d as int)],
{
    proof {
        reveal_strlit("0");
        reveal_strlit("1");
        reveal_strlit("2");
        reveal_strlit("3");
        reveal_strlit("4");
        reveal_strlit("5");
        reveal_strlit("6");
        reveal_strlit("7");
        reveal_strlit("8");
        reveal_strlit("9");
    }
    let r = if d == 0 {
        "0"
    } else if d == 1 {
        "1"
    } else if d == 2 {
        "2"
    } else if d == 3 {
        "3"
    } else if d == 4 {
        "4"
    } else if d == 5 {
        "5"
    } else if d == 6 {
        "6"
    } else if d == 7 {
        "7"
    } else if d == 8 {
        "8"
    } else {
        "9"
    };
    proof {
        assert(r@ =~= seq![digit_char(d as int)]);
    }
    r
}

/// Renders a counter in decimal, exactly `dec_str`.
pub fn u64_to_string(n: u64) -> (r: String)
    ensures
        r@ == dec_str(n as nat),
    decreases n,
{
    if n < 10 {
        digit_str(n).to_owned()
    } else {
        let mut s = u64_to_string(n / 10);
        s.append(digit_str(n % 10));
        s
    }
}

/// Whether `c` is a decimal digit.
pub open spec fn is_dec_digit(c: char) -> bool {
    ('0' as u32) <= (c as u32) && (c as u32) <= ('9' as u32)
}

/// The numeric value of a decimal digit character.
pub open spec fn digit_val(c: char) -> int {
    (c as u32) as int - ('0' as u32) as int
}

/// The value of a sequence of decimal digit characters, read most significant
/// digit first; the empty sequence has value zero.
pub open spec fn dec_val(s: Seq<char>) -> int
    decreases s.len(),
{
    if s.len() == 0 {
        0
    } else {
        dec_val(s.drop_last()) * 10 + digit_val(s.last())
    }
}

/// Whether every character of `s` is a decimal digit.
pub open spec fn all_dec_digits(s: Seq<char>) -> bool {
    forall|i: int| 0 <= i < s.len() ==> is_dec_digit(s[i])
}

/// The digit portion of an integer literal: everything after an optional
/// leading plus sign.
pub open spec fn digits_of(s: Seq<char>) -> Seq<char> {
    if s.len() > 0 && s[0] == '+' {
        s.drop_first()
    } else {
        s
    }
}

/// Whether `s` parses as an unsigned 64-bit integer: an optional leading plus
/// sign, then at least one decimal digit, with a value that fits in `u64`.
pub open spec fn u64_parse_ok(s: Seq<char>) -> bool {
    let d = digits_of(s);
    d.len() >= 1 && all_dec_digits(d) && dec_val(d) <= u64::MAX
}

proof fn lemma_dec_val_nonneg(s: Seq<char>)
    requires
        all_dec_digits(s),
    ensures
        dec_val(s) >= 0,
    decreases s.len(),
{
    if s.len() > 0 {
        lemma_dec_val_nonneg(s.drop_last());
    }
}

proof fn lemma_dec_val_mono(s: Seq<char>, k: int)
    requires
        0 <= k <= s.len(),
        all_dec_digits(s),
    ensures
        dec_val(s) >= dec_val(s.take(k)),
    decreases s.len() - k,
{
    if k == s.len() {
        assert(s.take(k) =~= s);
    } else {
        assert(s.take(k + 1).drop_last() =~= s.take(k));
        assert(all_dec_digits(s.take(k))) by {
            assert(forall|i: int| 0 <= i < k ==> s.take(k)[i] == s[i]);
        }
        lemma_dec_val_nonneg(s.take(k));
        lemma_dec_val_mono(s, k + 1);
    }
}

/// Parses an unsigned 64-bit integer: returns the value exactly when the text
/// is an optional plus sign followed by decimal digits whose value fits.
pub fn parse_u64(s: &str) -> (r: Option<u64>)
    ensures
        r is Some <==> u64_parse_ok(s@),
        u64_parse_ok(s@) ==> r == Option::Some(dec_val(digits_of(s@)) as u64),
{
    let n = s.unicode_len();
    let mut i: usize = 0;
    if n > 0 && s.get_char(0) == '+' {
        i = 1;
    }
    let ghost start = i as int;
    let ghost d = s@.subrange(start, n as int);
    proof {
        assert(digits_of(s@) =~= d);
    }
    if i >= n {
        return Option::None;
    }
    let mut acc: u64 = 0;
    while i < n
        invariant
            0 <= start <= i <= n,
            n == s@.len(),
            d == s@.subrange(start, n as int),
            d == digits_of(s@),
            all_dec_digits(d.take(i - start)),
            acc == dec_val(d.take(i - start)),
        decreases n - i,
    {
        let c = s.get_char(i);
        let u = c as u32;
        proof {
            assert(d[i - start] == s@[i as int]);
        }
        if u < 48 || u > 57 {
            proof {
                assert(0 <= i - start < d.len());
                assert(!is_dec_digit(d[i - start]));
                assert(!all_dec_digits(d));
            }
            return Option::None;
        }
        let dv = (u - 48) as u64;
        proof {
            assert(d.take(i - start + 1).drop_last() =~= d.take(i - start));
            assert(d.take(i - start + 1).last() == d[i - start]);
            assert(dv == digit_val(d[i - start]));
        }
        if acc > (u64::MAX - dv) / 10 {
            proof {
                lemma_dec_val_nonneg(d.take(i - start));
                assert(dec_val(d.take(i - start + 1)) > u64::MAX);
                if all_dec_digits(d) {
                    lemma_dec_val_mono(d, i - start + 1);
                }
            }
            return Option::None;
        }
        acc = acc * 10 + dv;
        i = i + 1;
    }
    proof {
        assert(d.take(n - start) =~= d);
    }
    Option::Some(acc)
}

/// Whether `c` has the Unicode white-space property, the separator used for
/// word splitting.
pub open spec fn is_ws(c: char) -> bool {
    let u = c as u32;
    u == 0x09 || u == 0x0A || u == 0x0B || u == 0x0C || u == 0x0D || u == 0x20 || u == 0x85 || u
        == 0xA0 || u == 0x1680 || (0x2000 <= u && u <= 0x200A) || u == 0x2028 || u == 0x2029 || u
        == 0x202F || u == 0x205F || u == 0x3000
}

/// Whether `c` is white space, exactly `is_ws`.
pub fn is_ws_char(c: char) -> (r: bool)
    ensures
        r == is_ws(c),
{
    let u = c as u32;
    u == 0x09 || u == 0x0A || u == 0x0B || u == 0x0C || u == 0x0D || u == 0x20 || u == 0x85 || u
        == 0xA0 || u == 0x1680 || (0x2000 <= u && u <= 0x200A) || u == 0x2028 || u == 0x2029 || u
        == 0x202F || u == 0x205F || u == 0x3000
}

/// One step of tokenization: white space closes the current token if it is
/// nonempty; any other character extends it.
pub open spec fn tok_step(ts: Seq<Seq<char>>, cur: Seq<char>, c: char) -> (Seq<Seq<char>>, Seq<
    char,
>) {
    if is_ws(c) {
        if cur.len() == 0 {
            (ts, cur)
        } else {
            (ts.push(cur), Seq::empty())
        }
    } else {
        (ts, cur.push(c))
    }
}

/// Folds `tok_step` over `s` from the left.
pub open spec fn tok_fold(s: Seq<char>) -> (Seq<Seq<char>>, Seq<char>)
    decreases s.len(),
{
    if s.len() == 0 {
        (Seq::empty(), Seq::empty())
    } else {
        let p = tok_fold(s.drop_last());
        tok_step(p.0, p.1, s.last())
    }
}

/// The tokens of `s`: maximal nonempty runs of non-white-space characters, in
/// order. Empty input yields no tokens.
pub open spec fn tokens(s: Seq<char>) -> Seq<Seq<char>> {
    let p = tok_fold(s);
    if p.1.len() == 0 {
        p.0
    } else {
        p.0.push(p.1)
    }
}

/// Relies on `String::push`: appends the one character at the end.
#[verifier::external_body]
pub(crate) fn push_char(s: &mut String, c: char)
    ensures
        final(s)@ == old(s)@.push(c),
{
    s.push(c);
}

/// Splits `s` into its white-space-separated tokens, exactly `tokens`.
pub fn tokenize(s: &str) -> (r: Vec<String>)
    ensures
        r.deep_view() == tokens(s@),
{
    let n = s.unicode_len();
    let mut out: Vec<String> = Vec::new();
    let mut cur = String::new();
    let mut i: usize = 0;
    while i < n
        invariant
            i <= n,
            n == s@.len(),
            (out.deep_view(), cur@) == tok_fold(s@.take(i as int)),
        decreases n - i,
    {
        let c = s.get_char(i);
        let ghost old_dv = out.deep_view();
        let ghost old_cur = cur@;
        if is_ws_char(c) {
            if !cur.as_str().is_empty() {
                out.push(cur);
                cur = String::new();
                proof {
                    assert(out.deep_view() =~= old_dv.push(old_cur));
                }
            }
        } else {
            push_char(&mut cur, c);
        }
        proof {
            assert(s@.take(i + 1).drop_last() =~= s@.take(i as int));
            assert(s@.take(i + 1).last() == s@[i as int]);
        }
        i = i + 1;
    }
    proof {
        assert(s@.take(n as int) =~= s@);
    }
    if !cur.as_str().is_empty() {
        let ghost old_dv = out.deep_view();
        let ghost old_cur = cur@;
        out.push(cur);
        proof {
            assert(out.deep_view() =~= old_dv.push(old_cur));
        }
    }
    out
}

} // verus!
