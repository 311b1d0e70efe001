//! Character-level text utilities shared by the tokenizer, the command
//! parser and the record decoder.

use vstd::prelude::*;

verus! {

use vstd::string::StrSliceExecFns;

/// Relies on `str::chars`: yields the characters of the string in order.
#[verifier::external_body]
pub fn chars_of(s: &str) -> (r: Vec<char>)
    ensures
        r@ == s@,
{
    s.chars().collect()
}

/// Relies on `String as FromIterator<char>`: collecting characters builds
/// the string of exactly those characters in order.
#[verifier::external_body]
pub fn string_from_chars(v: &Vec<char>) -> (r: String)
    ensures
        r@ == v@,
{
    v.iter().collect()
}

/// ASCII lower-casing of one character; every other character is kept.
pub open spec fn lower_char(c: char) -> char {
    match c {
        'A' => 'a',
        'B' => 'b',
        'C' => 'c',
        'D' => 'd',
        'E' => 'e',
        'F' => 'f',
        'G' => 'g',
        'H' => 'h',
        'I' => 'i',
        'J' => 'j',
        'K' => 'k',
        'L' => 'l',
        'M' => 'm',
        'N' => 'n',
        'O' => 'o',
        'P' => 'p',
        'Q' => 'q',
        'R' => 'r',
        'S' => 's',
        'T' => 't',
        'U' => 'u',
        'V' => 'v',
        'W' => 'w',
        'X' => 'x',
        'Y' => 'y',
        'Z' => 'z',
        _ => c,
    }
}

/// ASCII lower-casing of a character sequence.
pub open spec fn ascii_lower(s: Seq<char>) -> Seq<char> {
    Seq::new(s.len(), |i: int| lower_char(s[i]))
}

/// Lower-cases the ASCII letters of a character vector.
pub fn lower_chars(v: &Vec<char>) -> (r: Vec<char>)
    ensures
        r@ == ascii_lower(v@),
{
    let mut out: Vec<char> = Vec::new();
    let mut i: usize = 0;
    while i < v.len()
        invariant
            i <= v.len(),
            out@.len() == i,
            forall|m: int| 0 <= m < i ==> out@[m] == lower_char(v@[m]),
        decreases v.len() - i,
    {
        let c = v[i];
        let l: char = match c {
            'A' => 'a',
            'B' => 'b',
            'C' => 'c',
            'D' => 'd',
            'E' => 'e',
            'F' => 'f',
            'G' => 'g',
            'H' => 'h',
            'I' => 'i',
            'J' => 'j',
            'K' => 'k',
            'L' => 'l',
            'M' => 'm',
            'N' => 'n',
            'O' => 'o',
            'P' => 'p',
            'Q' => 'q',
            'R' => 'r',
            'S' => 's',
            'T' => 't',
            'U' => 'u',
            'V' => 'v',
            'W' => 'w',
            'X' => 'x',
            'Y' => 'y',
            'Z' => 'z',
            _ => c,
        };
        out.push(l);
        i = i + 1;
    }
    proof {
        assert(out@ =~= ascii_lower(v@));
    }
    out
}

/// Compares a character vector with a string slice, true exactly when
/// they hold the same characters.
pub fn chars_eq_str(a: &Vec<char>, s: &str) -> (r: bool)
    ensures
        r == (a@ == s@),
{
    let n = s.unicode_len();
    if a.len() != n {
        return false;
    }
    let mut i: usize = 0;
    while i < n
        invariant
            i <= n,
            n == s@.len(),
            a@.len() == n,
            forall|m: int| 0 <= m < i ==> a@[m] == s@[m],
        decreases n - i,
    {
        if a[i] != s.get_char(i) {
            return false;
        }
        i = i + 1;
    }
    proof {
        assert(a@ =~= s@);
    }
    true
}

/// Whether a character is an ASCII decimal digit.
pub open spec fn is_digit(c: char) -> bool {
    '0' <= c && c <= '9'
}

/// The numeric value of an ASCII decimal digit.
pub open spec fn digit_value(c: char) -> int {
    c as u32 - '0' as u32
}

/// Whether every character of a sequence is an ASCII decimal digit.
pub open spec fn all_digits(s: Seq<char>) -> bool {
    forall|i: int| 0 <= i < s.len() ==> is_digit(#[trigger] s[i])
}

/// The number denoted by a sequence of decimal digits, most significant
/// first.
pub open spec fn digits_value(s: Seq<char>) -> int
    decreases s.len(),
{
    if s.len() == 0 {
        0
    } else {
        digits_value(s.drop_last()) * 10 + digit_value(s.last())
    }
}

/// The n-th power of ten.
pub open spec fn pow10(n: nat) -> int
    decreases n,
{
    if n == 0 {
        1
    } else {
        10 * pow10((n - 1) as nat)
    }
}

/// Reads the decimal number written in `t` between `from` (inclusive) and
/// `to` (exclusive): defined exactly when that range is non-empty and all
/// digits.  A run of at most 18 digits always fits in a `u64`.
pub fn parse_digits(t: &Vec<char>, from: usize, to: usize) -> (r: Option<u64>)
    requires
        from <= to <= t@.len(),
        to - from <= 18,
    ensures
        ({
            let s = t@.subrange(from as int, to as int);
            &&& (r is Some <==> (from < to && all_digits(s)))
            &&& (r is Some ==> r->0 == digits_value(s) && digits_value(s) < pow10(
                (to - from) as nat,
            ))
        }),
{
    if from == to {
        return None;
    }
    let mut value: u64 = 0;
    let mut i: usize = from;
    proof {
        assert(t@.subrange(from as int, from as int) =~= Seq::<char>::empty());
        lemma_pow10_le_18(0);
    }
    while i < to
        invariant
            from <= i <= to <= t@.len(),
            to - from <= 18,
            all_digits(t@.subrange(from as int, i as int)),
            value == digits_value(t@.subrange(from as int, i as int)),
            value < pow10((i - from) as nat),
            pow10((i - from) as nat) <= pow10(18),
        decreases to - i,
    {
        let c = t[i];
        if !('0' <= c && c <= '9') {
            proof {
                let s = t@.subrange(from as int, to as int);
                assert(s[i - from] == c);
                assert(!is_digit(s[i - from]));
            }
            return None;
        }
        let d: u64 = ((c as u32) - ('0' as u32)) as u64;
        proof {
            let prev = t@.subrange(from as int, i as int);
            let next = t@.subrange(from as int, i + 1);
            assert(next.drop_last() =~= prev);
            assert(next.last() == c);
            assert(pow10(((i + 1) - from) as nat) == 10 * pow10((i - from) as nat));
            lemma_pow10_le_18(((i + 1) - from) as nat);
            lemma_pow10_18_value();
        }
        value = value * 10 + d;
        i = i + 1;
    }
    proof {
        let s = t@.subrange(from as int, to as int);
        assert(forall|m: int| 0 <= m < s.len() ==> is_digit(#[trigger] s[m]));
    }
    Some(value)
}

/// Powers of ten grow with the exponent, up to the 18 digits a token may
/// carry.
proof fn lemma_pow10_le_18(n: nat)
    requires
        n <= 18,
    ensures
        pow10(n) <= pow10(18),
    decreases 18 - n,
{
    if n < 18 {
        lemma_pow10_le_18(n + 1);
        lemma_pow10_positive(n);
    }
}

/// Powers of ten grow with the exponent.
pub proof fn lemma_pow10_increases(a: nat, b: nat)
    requires
        a <= b,
    ensures
        pow10(a) <= pow10(b),
    decreases b - a,
{
    if a < b {
        lemma_pow10_increases(a, (b - 1) as nat);
        lemma_pow10_positive((b - 1) as nat);
    }
}

/// A nested vector of characters and its deep view agree element by
/// element with the plain views.
pub proof fn lemma_deep_view_chars(toks: &Vec<Vec<char>>)
    ensures
        toks.deep_view().len() == toks@.len(),
        forall|m: int| 0 <= m < toks@.len() ==> #[trigger] toks.deep_view()[m] == toks@[m]@,
{
    assert forall|m: int| 0 <= m < toks@.len() implies #[trigger] toks.deep_view()[m] == toks@[m]@ by {
        assert(toks.deep_view()[m] =~= toks@[m]@);
    }
}

/// Powers of ten are strictly positive.
pub proof fn lemma_pow10_positive(n: nat)
    ensures
        pow10(n) >= 1,
    decreases n,
{
    if n > 0 {
        lemma_pow10_positive((n - 1) as nat);
    }
}

/// The largest digit run a token may carry still fits in a `u64`.
pub proof fn lemma_pow10_18_value()
    ensures
        pow10(18) == 0x0de0b6b3a7640000,
{
    reveal_with_fuel(pow10, 19);
}

} // verus!
