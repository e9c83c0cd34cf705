//! Verified text utilities: decimal parsing and rendering of unsigned
//! integers, string comparison, and JSON string escaping.  Sources transmit
//! counts and sizes as text, and one provider expects a JSON request body,
//! so these routines carry the numeric-coercion and framing rules of the
//! crate.

use vstd::prelude::*;
use vstd::string::StrSliceExecFns;

verus! {

/// Relies on std's `String::push`: appends one character to the string.
#[verifier::external_body]
pub(crate) fn push_char(s: &mut String, c: char)
    ensures
        final(s)@ == old(s)@.push(c),
{
    s.push(c);
}

/// Whether a character is an ASCII decimal digit.
pub open spec fn is_digit(c: char) -> bool {
    48 <= (c as u32) <= 57
}

/// The numeric value of an ASCII decimal digit.
pub open spec fn digit_val(c: char) -> nat {
    ((c as u32) - 48) as nat
}

/// Whether every character of the sequence is an ASCII decimal digit.
pub open spec fn all_digits(s: Seq<char>) -> bool {
    forall|i: int| 0 <= i < s.len() ==> is_digit(#[trigger] s[i])
}

/// The value of a sequence of decimal digits, most significant first.
pub open spec fn digits_value(s: Seq<char>) -> nat
    decreases s.len(),
{
    if s.len() == 0 {
        0
    } else {
        digits_value(s.drop_last()) * 10 + digit_val(s.last())
    }
}

/// Ten to the given power.
pub open spec fn pow10(n: nat) -> nat
    decreases n,
{
    if n == 0 {
        1
    } else {
        10 * pow10((n - 1) as nat)
    }
}

/// A digit sequence whose first digit is not a zero is worth at least ten
/// to one less than its length.
pub proof fn lemma_digits_value_ge_pow10(s: Seq<char>)
    requires
        all_digits(s),
        s.len() > 0,
        digit_val(s[0]) >= 1,
    ensures
        digits_value(s) >= pow10((s.len() - 1) as nat),
    decreases s.len(),
{
    if s.len() == 1 {
        assert(s.last() == s[0]);
    } else {
        assert(s.drop_last()[0] == s[0]);
        lemma_digits_value_ge_pow10(s.drop_last());
        assert(digits_value(s.drop_last()) * 10 >= pow10((s.len() - 2) as nat) * 10)
            by (nonlinear_arith)
            requires
                digits_value(s.drop_last()) >= pow10((s.len() - 2) as nat),
        ;
    }
}

/// A leading zero digit does not change the value of a digit sequence.
proof fn lemma_digits_value_drop_leading_zero(s: Seq<char>)
    requires
        s.len() > 0,
        digit_val(s[0]) == 0,
    ensures
        digits_value(s) == digits_value(s.drop_first()),
    decreases s.len(),
{
    if s.len() == 1 {
        assert(s.last() == s[0]);
        assert(digits_value(s.drop_last()) == 0);
        assert(digits_value(s.drop_first()) == 0);
    } else {
        assert(s.drop_last()[0] == s[0]);
        lemma_digits_value_drop_leading_zero(s.drop_last());
        assert(s.drop_last().drop_first() =~= s.drop_first().drop_last());
        assert(s.drop_first().last() == s.last());
    }
}

/// Any number of leading zero digits may be dropped from a digit sequence.
pub proof fn lemma_digits_value_skip_zeros(s: Seq<char>, k: int)
    requires
        0 <= k <= s.len(),
        forall|j: int| 0 <= j < k ==> digit_val(#[trigger] s[j]) == 0,
    ensures
        digits_value(s) == digits_value(s.skip(k)),
    decreases k,
{
    if k == 0 {
        assert(s.skip(0) =~= s);
    } else {
        lemma_digits_value_drop_leading_zero(s);
        assert(s.drop_first() =~= s.skip(1));
        lemma_digits_value_skip_zeros(s.skip(1), k - 1);
        assert(s.skip(1).skip(k - 1) =~= s.skip(k));
    }
}

/// The digit sequence a decimal parse reads: the whole input, or what
/// follows a single leading plus sign.
pub open spec fn unsigned_digits(s: Seq<char>) -> Seq<char> {
    if s.len() > 0 && s[0] == '+' {
        s.drop_first()
    } else {
        s
    }
}

/// What parsing an unsigned decimal of at most `max` yields: the digits'
/// value when the input is an optional plus sign followed by one or more
/// decimal digits and the value fits, and nothing otherwise.  These are the
/// inputs `str::parse` accepts for an unsigned integer type.
pub open spec fn parse_unsigned_spec(s: Seq<char>, max: nat) -> Option<nat> {
    let digits = unsigned_digits(s);
    if digits.len() > 0 && all_digits(digits) && digits_value(digits) <= max {
        Some(digits_value(digits))
    } else {
        None
    }
}

/// Parses an unsigned decimal number of at most `u64::MAX`, accepting
/// exactly what `str::parse::<u64>` accepts.
pub fn parse_u64(s: &str) -> (r: Option<u64>)
    ensures
        r matches Some(v) ==> parse_unsigned_spec(s@, u64::MAX as nat) == Some(v as nat),
        r is None ==> parse_unsigned_spec(s@, u64::MAX as nat) is None,
{
    let len = s.unicode_len();
    let start: usize = if len > 0 && s.get_char(0) == '+' {
        1
    } else {
        0
    };
    let ghost digits = unsigned_digits(s@);
    proof {
        assert(s@.skip(start as int) =~= digits);
    }
    if start == len {
        return None;
    }
    // Every remaining character must be a decimal digit.
    let mut i: usize = start;
    while i < len
        invariant
            start <= i <= len,
            len == s@.len(),
            digits == unsigned_digits(s@),
            digits =~= s@.skip(start as int),
            forall|j: int| start <= j < i ==> is_digit(#[trigger] s@[j]),
        decreases len - i,
    {
        let c = s.get_char(i);
        let u = c as u32;
        if !(48 <= u && u <= 57) {
            proof {
                assert(digits[i - start] == s@[i as int]);
                assert(!is_digit(digits[i - start]));
                assert(!all_digits(digits));
            }
            return None;
        }
        i = i + 1;
    }
    proof {
        assert(all_digits(digits)) by {
            assert(forall|j: int|
                0 <= j < digits.len() ==> is_digit(#[trigger] digits[j]) == is_digit(
                    s@[j + start],
                ));
        }
    }
    // Skip leading zeros; they do not change the value.
    let mut k: usize = start;
    while k < len && (s.get_char(k) as u32) == 48
        invariant
            start <= k <= len,
            len == s@.len(),
            forall|j: int| start <= j < k ==> digit_val(#[trigger] s@[j]) == 0,
        decreases len - k,
    {
        k = k + 1;
    }
    proof {
        assert(forall|j: int|
            0 <= j < k - start ==> digit_val(#[trigger] digits[j]) == digit_val(s@[j + start]));
        lemma_digits_value_skip_zeros(digits, k - start);
        assert(digits.skip(k - start) =~= s@.skip(k as int));
    }
    // More than 20 significant digits cannot fit in a u64.
    if len - k > 20 {
        proof {
            assert(digit_val(s@[k as int]) >= 1);
            lemma_digits_value_ge_pow10(s@.skip(k as int));
            lemma_pow10_increases(20, (len - k - 1) as nat);
            lemma_pow10_20();
        }
        return None;
    }
    // At most 20 significant digits: the value fits in a u128.
    let mut acc: u128 = 0;
    let mut j: usize = k;
    while j < len
        invariant
            k <= j <= len,
            len == s@.len(),
            forall|i2: int| start <= i2 < len ==> is_digit(#[trigger] s@[i2]),
            start <= k,
            len - k <= 20,
            acc == digits_value(s@.subrange(k as int, j as int)),
            acc < pow10((j - k) as nat),
        decreases len - j,
    {
        let c = s.get_char(j);
        let d = (c as u32) - 48;
        proof {
            lemma_pow10_increases((j - k) as nat, 20);
            lemma_pow10_20();
            assert(s@.subrange(k as int, j + 1).drop_last() =~= s@.subrange(k as int, j as int));
            assert(s@.subrange(k as int, j + 1).last() == s@[j as int]);
        }
        acc = acc * 10 + (d as u128);
        j = j + 1;
    }
    proof {
        assert(s@.subrange(k as int, len as int) =~= s@.skip(k as int));
    }
    if acc > u64::MAX as u128 {
        None
    } else {
        Some(acc as u64)
    }
}

/// Parses an unsigned decimal number of at most `u32::MAX`, accepting
/// exactly what `str::parse::<u32>` accepts.
pub fn parse_u32(s: &str) -> (r: Option<u32>)
    ensures
        r matches Some(v) ==> parse_unsigned_spec(s@, u32::MAX as nat) == Some(v as nat),
        r is None ==> parse_unsigned_spec(s@, u32::MAX as nat) is None,
{
    match parse_u64(s) {
        Some(v) => {
            if v <= u32::MAX as u64 {
                Some(v as u32)
            } else {
                None
            }
        },
        None => None,
    }
}

/// Ten to a larger power is at least ten to a smaller one.
pub proof fn lemma_pow10_increases(m: nat, n: nat)
    requires
        m <= n,
    ensures
        pow10(m) <= pow10(n),
    decreases n,
{
    if m < n {
        lemma_pow10_increases(m, (n - 1) as nat);
        assert(pow10((n - 1) as nat) <= 10 * pow10((n - 1) as nat));
    }
}

/// The concrete value of ten to the twentieth, which exceeds `u64::MAX`,
/// and of the smaller powers the crate computes with.
pub proof fn lemma_pow10_20()
    ensures
        pow10(20) == 0x56bc75e2d63100000,
        pow10(19) == 10000000000000000000,
        pow10(9) == 1000000000,
        pow10(6) == 1000000,
    decreases 0nat,
{
    reveal_with_fuel(pow10, 21);
}

/// The product of a 64-bit-ranged integer part and a unit multiplier stays
/// far below the 128-bit range.
pub proof fn lemma_pow10_29()
    ensures
        pow10(29) == 100000000000000000000000000000,
    decreases 0nat,
{
    reveal_with_fuel(pow10, 30);
}

/// Ten to the sum of two powers is the product of ten to each.
pub proof fn lemma_pow10_adds(m: nat, n: nat)
    ensures
        pow10(m + n) == pow10(m) * pow10(n),
    decreases m,
{
    if m == 0 {
        assert(pow10(n) == 1 * pow10(n));
    } else {
        lemma_pow10_adds((m - 1) as nat, n);
        assert(10 * pow10((m - 1) as nat + n) == (10 * pow10((m - 1) as nat)) * pow10(n))
            by (nonlinear_arith)
            requires
                pow10((m - 1) as nat + n) == pow10((m - 1) as nat) * pow10(n),
        ;
    }
}

/// Ten to the given power, as a machine word.
pub(crate) fn pow10_u64(n: u64) -> (r: u64)
    requires
        n <= 19,
    ensures
        r == pow10(n as nat),
{
    proof {
        lemma_pow10_20();
    }
    let mut r: u64 = 1;
    let mut i: u64 = 0;
    while i < n
        invariant
            0 <= i <= n <= 19,
            r == pow10(i as nat),
        decreases n - i,
    {
        proof {
            lemma_pow10_increases((i + 1) as nat, 19);
            lemma_pow10_20();
        }
        r = r * 10;
        i = i + 1;
    }
    r
}

/// Ten to any power is positive.
pub proof fn lemma_pow10_pos(n: nat)
    ensures
        pow10(n) >= 1,
    decreases n,
{
    if n > 0 {
        lemma_pow10_pos((n - 1) as nat);
    }
}

/// Whether every character of a string is an ASCII decimal digit.
pub fn check_all_digits(s: &str) -> (r: bool)
    ensures
        r == all_digits(s@),
{
    let len = s.unicode_len();
    let mut i: usize = 0;
    while i < len
        invariant
            0 <= i <= len,
            len == s@.len(),
            forall|j: int| 0 <= j < i ==> is_digit(#[trigger] s@[j]),
        decreases len - i,
    {
        let c = s.get_char(i);
        let u = c as u32;
        if !(48 <= u && u <= 57) {
            proof {
                assert(!is_digit(s@[i as int]));
            }
            return false;
        }
        i = i + 1;
    }
    true
}

/// The value of a digit string as an exact 128-bit number, or nothing when
/// it exceeds the 64-bit range.
pub(crate) fn digits_u128(s: &str) -> (r: Option<u128>)
    requires
        all_digits(s@),
    ensures
        r matches Some(v) ==> v == digits_value(s@) && v < pow10(20),
        r is None ==> digits_value(s@) > u64::MAX,
{
    let len = s.unicode_len();
    // Skip leading zeros; they do not change the value.
    let mut k: usize = 0;
    while k < len && (s.get_char(k) as u32) == 48
        invariant
            0 <= k <= len,
            len == s@.len(),
            forall|j: int| 0 <= j < k ==> digit_val(#[trigger] s@[j]) == 0,
        decreases len - k,
    {
        k = k + 1;
    }
    proof {
        lemma_digits_value_skip_zeros(s@, k as int);
    }
    // More than 20 significant digits cannot fit in a u64.
    if len - k > 20 {
        proof {
            assert(digit_val(s@[k as int]) >= 1);
            lemma_digits_value_ge_pow10(s@.skip(k as int));
            lemma_pow10_increases(20, (len - k - 1) as nat);
            lemma_pow10_20();
        }
        return None;
    }
    let mut acc: u128 = 0;
    let mut j: usize = k;
    while j < len
        invariant
            k <= j <= len,
            len == s@.len(),
            all_digits(s@),
            len - k <= 20,
            acc == digits_value(s@.subrange(k as int, j as int)),
            acc < pow10((j - k) as nat),
        decreases len - j,
    {
        let c = s.get_char(j);
        let d = (c as u32) - 48;
        proof {
            assert(is_digit(s@[j as int]));
            lemma_pow10_increases((j - k) as nat, 20);
            lemma_pow10_20();
            assert(s@.subrange(k as int, j + 1).drop_last() =~= s@.subrange(k as int, j as int));
            assert(s@.subrange(k as int, j + 1).last() == s@[j as int]);
        }
        acc = acc * 10 + (d as u128);
        j = j + 1;
    }
    proof {
        assert(s@.subrange(k as int, len as int) =~= s@.skip(k as int));
        lemma_pow10_increases((len - k) as nat, 20);
        lemma_pow10_20();
    }
    Some(acc)
}

/// The value of the first `cap` digits of a fraction, each worth its
/// decimal place under ten to `cap`; digits beyond `cap` are truncated.
pub open spec fn frac_value(fr: Seq<char>, cap: nat) -> nat
    decreases fr.len(),
{
    if fr.len() == 0 || cap == 0 {
        0
    } else {
        digit_val(fr[0]) * pow10((cap - 1) as nat) + frac_value(fr.drop_first(), (cap - 1) as nat)
    }
}

/// A fraction is worth less than one whole unit of ten to `cap`.
pub proof fn lemma_frac_value_lt_pow10(fr: Seq<char>, cap: nat)
    requires
        all_digits(fr),
    ensures
        frac_value(fr, cap) < pow10(cap),
    decreases fr.len(),
{
    if fr.len() == 0 || cap == 0 {
        lemma_pow10_pos(cap);
    } else {
        lemma_pow10_pos(cap);
        assert(all_digits(fr.drop_first())) by {
            assert(forall|j: int|
                0 <= j < fr.drop_first().len() ==> #[trigger] fr.drop_first()[j] == fr[j + 1]);
        }
        lemma_frac_value_lt_pow10(fr.drop_first(), (cap - 1) as nat);
        assert(is_digit(fr[0]));
        assert(digit_val(fr[0]) * pow10((cap - 1) as nat) <= 9 * pow10((cap - 1) as nat))
            by (nonlinear_arith)
            requires
                digit_val(fr[0]) <= 9,
        ;
    }
}

/// The value of a fraction string under ten to `cap`.
pub(crate) fn frac_digits_value(s: &str, cap: u64) -> (r: u64)
    requires
        all_digits(s@),
        cap <= 9,
    ensures
        r == frac_value(s@, cap as nat),
{
    let len = s.unicode_len();
    let mut fv: u64 = 0;
    let mut i: usize = 0;
    proof {
        lemma_frac_value_lt_pow10(s@, cap as nat);
        lemma_pow10_increases(cap as nat, 9);
        lemma_pow10_20();
        assert(s@.skip(0) =~= s@);
    }
    while i < len && (i as u64) < cap
        invariant
            0 <= i <= len,
            i <= cap <= 9,
            len == s@.len(),
            all_digits(s@),
            frac_value(s@, cap as nat) == fv + frac_value(s@.skip(i as int), (cap - i) as nat),
            frac_value(s@, cap as nat) < pow10(cap as nat),
            pow10(cap as nat) <= 1000000000,
        decreases len - i,
    {
        let c = s.get_char(i);
        let d = ((c as u32) - 48) as u64;
        let place = pow10_u64(cap - (i as u64) - 1);
        proof {
            assert(is_digit(s@[i as int]));
            assert(s@.skip(i as int)[0] == s@[i as int]);
            assert(s@.skip(i as int).drop_first() =~= s@.skip(i + 1));
            assert(frac_value(s@.skip(i as int), (cap - i) as nat) == digit_val(s@[i as int])
                * pow10((cap - i - 1) as nat) + frac_value(s@.skip(i + 1), (cap - i - 1) as nat));
            lemma_pow10_increases((cap - i - 1) as nat, cap as nat);
            assert(d * place <= 9 * place) by (nonlinear_arith)
                requires
                    d <= 9,
                    place >= 0,
            ;
            assert(fv + d * place <= frac_value(s@, cap as nat));
        }
        fv = fv + d * place;
        i = i + 1;
    }
    proof {
        assert(frac_value(s@.skip(i as int), (cap - i) as nat) == 0);
    }
    fv
}

/// Whether two strings hold the same characters.
pub fn str_eq(a: &str, b: &str) -> (r: bool)
    ensures
        r == (a@ == b@),
{
    let alen = a.unicode_len();
    let blen = b.unicode_len();
    if alen != blen {
        return false;
    }
    let mut i: usize = 0;
    while i < alen
        invariant
            0 <= i <= alen,
            alen == a@.len(),
            alen == b@.len(),
            forall|j: int| 0 <= j < i ==> a@[j] == b@[j],
        decreases alen - i,
    {
        if a.get_char(i) != b.get_char(i) {
            return false;
        }
        i = i + 1;
    }
    proof {
        assert(a@ =~= b@);
    }
    true
}

/// The character for a decimal digit value.
pub open spec fn digit_char(d: nat) -> char {
    if d == 0 {
        '0'
    } else if d == 1 {
        '1'
    } else if d == 2 {
        '2'
    } else if d == 3 {
        '3'
    } else if d == 4 {
        '4'
    } else if d == 5 {
        '5'
    } else if d == 6 {
        '6'
    } else if d == 7 {
        '7'
    } else if d == 8 {
        '8'
    } else {
        '9'
    }
}

/// The decimal rendering of an unsigned number, most significant digit
/// first, with no leading zeros (a lone zero for zero).
pub open spec fn dec_digits(n: nat) -> Seq<char>
    decreases n,
{
    if n < 10 {
        seq![digit_char(n)]
    } else {
        dec_digits(n / 10).push(digit_char(n % 10))
    }
}

fn digit_char_exec(d: u32) -> (c: char)
    requires
        d < 10,
    ensures
        c == digit_char(d as nat),
{
    match d {
        0 => '0',
        1 => '1',
        2 => '2',
        3 => '3',
        4 => '4',
        5 => '5',
        6 => '6',
        7 => '7',
        8 => '8',
        _ => '9',
    }
}

/// Appends the decimal rendering of `n` to `out`.
pub fn append_u32(out: &mut String, n: u32)
    ensures
        final(out)@ == old(out)@ + dec_digits(n as nat),
    decreases n,
{
    if n < 10 {
        push_char(out, digit_char_exec(n));
        proof {
            assert(old(out)@.push(digit_char(n as nat)) =~= old(out)@ + dec_digits(n as nat));
        }
    } else {
        append_u32(out, n / 10);
        push_char(out, digit_char_exec(n % 10));
        proof {
            assert((old(out)@ + dec_digits((n / 10) as nat)).push(digit_char((n % 10) as nat))
                =~= old(out)@ + dec_digits(n as nat));
        }
    }
}

/// The character for a hexadecimal digit value, in lower case.
pub open spec fn hex_digit(d: nat) -> char {
    if d < 10 {
        digit_char(d)
    } else if d == 10 {
        'a'
    } else if d == 11 {
        'b'
    } else if d == 12 {
        'c'
    } else if d == 13 {
        'd'
    } else if d == 14 {
        'e'
    } else {
        'f'
    }
}

fn hex_digit_exec(d: u32) -> (c: char)
    requires
        d < 16,
    ensures
        c == hex_digit(d as nat),
{
    if d < 10 {
        digit_char_exec(d)
    } else {
        match d {
            10 => 'a',
            11 => 'b',
            12 => 'c',
            13 => 'd',
            14 => 'e',
            _ => 'f',
        }
    }
}

/// How one character is written inside a JSON string literal: quote and
/// backslash are escaped, the named control characters use their short
/// escapes, any other control character uses a `\u00..` escape, and every
/// other character stands for itself.
pub open spec fn escape_char(c: char) -> Seq<char> {
    if c == '"' {
        seq!['\\', '"']
    } else if c == '\\' {
        seq!['\\', '\\']
    } else if c == '\u{8}' {
        seq!['\\', 'b']
    } else if c == '\t' {
        seq!['\\', 't']
    } else if c == '\n' {
        seq!['\\', 'n']
    } else if c == '\u{c}' {
        seq!['\\', 'f']
    } else if c == '\r' {
        seq!['\\', 'r']
    } else if (c as u32) < 32 {
        seq!['\\', 'u', '0', '0', hex_digit(((c as u32) / 16) as nat), hex_digit(
            ((c as u32) % 16) as nat,
        )]
    } else {
        seq![c]
    }
}

/// The body of a JSON string literal holding the given text.
pub open spec fn json_escaped(s: Seq<char>) -> Seq<char>
    decreases s.len(),
{
    if s.len() == 0 {
        Seq::empty()
    } else {
        json_escaped(s.drop_last()) + escape_char(s.last())
    }
}

/// Appends `s`, escaped as the body of a JSON string literal, to `out`.
pub fn append_json_escaped(out: &mut String, s: &str)
    ensures
        final(out)@ == old(out)@ + json_escaped(s@),
{
    let len = s.unicode_len();
    let mut i: usize = 0;
    proof {
        assert(old(out)@ + json_escaped(s@.subrange(0, 0)) =~= old(out)@);
    }
    while i < len
        invariant
            0 <= i <= len,
            len == s@.len(),
            out@ == old(out)@ + json_escaped(s@.subrange(0, i as int)),
        decreases len - i,
    {
        let c = s.get_char(i);
        let u = c as u32;
        if c == '"' {
            push_char(out, '\\');
            push_char(out, '"');
        } else if c == '\\' {
            push_char(out, '\\');
            push_char(out, '\\');
        } else if u == 8 {
            push_char(out, '\\');
            push_char(out, 'b');
        } else if c == '\t' {
            push_char(out, '\\');
            push_char(out, 't');
        } else if c == '\n' {
            push_char(out, '\\');
            push_char(out, 'n');
        } else if u == 12 {
            push_char(out, '\\');
            push_char(out, 'f');
        } else if c == '\r' {
            push_char(out, '\\');
            push_char(out, 'r');
        } else if u < 32 {
            push_char(out, '\\');
            push_char(out, 'u');
            push_char(out, '0');
            push_char(out, '0');
            push_char(out, hex_digit_exec(u / 16));
            push_char(out, hex_digit_exec(u % 16));
        } else {
            push_char(out, c);
        }
        proof {
            assert(s@.subrange(0, i + 1).drop_last() =~= s@.subrange(0, i as int));
            assert(s@.subrange(0, i + 1).last() == s@[i as int]);
            assert(out@ =~= old(out)@ + json_escaped(s@.subrange(0, i + 1)));
        }
        i = i + 1;
    }
    proof {
        assert(s@.subrange(0, len as int) =~= s@);
    }
}

} // verus!
