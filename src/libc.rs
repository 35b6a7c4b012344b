//! The C runtime primitives that foreign object code calls, stated over the
//! bytes of a C string: a string is handed over as its content (the bytes
//! before the terminator), and the terminator is modelled by `with_nul`.
use vstd::prelude::*;

verus! {

/// The buffer a C string occupies: its content followed by the terminator.
pub open spec fn with_nul(s: Seq<u8>) -> Seq<u8> {
    s.push(0u8)
}

/// ASCII lowercase of one byte; other bytes are left alone.
pub open spec fn ascii_lower(b: u8) -> u8 {
    if 65 <= b <= 90 {
        (b + 32) as u8
    } else {
        b
    }
}

/// A byte string with every byte lowercased.
pub open spec fn folded(s: Seq<u8>) -> Seq<u8> {
    s.map_values(|b: u8| ascii_lower(b))
}

/// Three-way lexicographic comparison of byte strings: -1, 0 or 1.
pub open spec fn lex_cmp(a: Seq<u8>, b: Seq<u8>) -> int
    decreases a.len(),
{
    if a.len() == 0 {
        if b.len() == 0 {
            0
        } else {
            -1
        }
    } else if b.len() == 0 {
        1
    } else if a[0] < b[0] {
        -1
    } else if a[0] > b[0] {
        1
    } else {
        lex_cmp(a.drop_first(), b.drop_first())
    }
}

pub open spec fn cased(s: Seq<u8>, fold: bool) -> Seq<u8> {
    if fold {
        folded(s)
    } else {
        s
    }
}

fn lower_byte(b: u8) -> (r: u8)
    ensures
        r == ascii_lower(b),
{
    if 65 <= b && b <= 90 {
        b + 32
    } else {
        b
    }
}

/// Compares the first `na` bytes of `a` with the first `nb` bytes of `b`,
/// lowercasing each byte first when `fold` is set.
fn compare_prefixes(a: &[u8], b: &[u8], na: usize, nb: usize, fold: bool) -> (r: i32)
    requires
        na <= a@.len(),
        nb <= b@.len(),
    ensures
        r as int == lex_cmp(cased(a@.take(na as int), fold), cased(b@.take(nb as int), fold)),
{
    let ghost sa = cased(a@.take(na as int), fold);
    let ghost sb = cased(b@.take(nb as int), fold);
    assert(sa.skip(0) =~= sa);
    assert(sb.skip(0) =~= sb);
    let mut i: usize = 0;
    while i < na && i < nb
        invariant
            i <= na <= a@.len(),
            i <= nb <= b@.len(),
            sa == cased(a@.take(na as int), fold),
            sb == cased(b@.take(nb as int), fold),
            lex_cmp(sa, sb) == lex_cmp(sa.skip(i as int), sb.skip(i as int)),
        decreases na - i,
    {
        let x = if fold {
            lower_byte(a[i])
        } else {
            a[i]
        };
        let y = if fold {
            lower_byte(b[i])
        } else {
            b[i]
        };
        assert(sa.skip(i as int)[0] == x);
        assert(sb.skip(i as int)[0] == y);
        if x < y {
            return -1;
        }
        if x > y {
            return 1;
        }
        assert(sa.skip(i as int).drop_first() =~= sa.skip(i + 1));
        assert(sb.skip(i as int).drop_first() =~= sb.skip(i + 1));
        i = i + 1;
    }
    if i == na && i == nb {
        0
    } else if i == na {
        -1
    } else {
        1
    }
}

/// `strcmp`: byte-wise lexicographic comparison of two C strings, as -1, 0 or 1.
pub fn strcmp(a: &[u8], b: &[u8]) -> (r: i32)
    ensures
        r as int == lex_cmp(a@, b@),
{
    assert(a@.take(a@.len() as int) =~= a@);
    assert(b@.take(b@.len() as int) =~= b@);
    compare_prefixes(a, b, a.len(), b.len(), false)
}

/// `strcasecmp`: lexicographic comparison after lowercasing each byte.
pub fn strcasecmp(a: &[u8], b: &[u8]) -> (r: i32)
    ensures
        r as int == lex_cmp(folded(a@), folded(b@)),
{
    assert(a@.take(a@.len() as int) =~= a@);
    assert(b@.take(b@.len() as int) =~= b@);
    compare_prefixes(a, b, a.len(), b.len(), true)
}

/// `strncasecmp`: case-insensitive comparison of exactly the first `n` bytes
/// of each string; both strings must hold at least `n` bytes.
pub fn strncasecmp(a: &[u8], b: &[u8], n: usize) -> (r: i32)
    requires
        n <= a@.len(),
        n <= b@.len(),
    ensures
        r as int == lex_cmp(folded(a@.take(n as int)), folded(b@.take(n as int))),
{
    compare_prefixes(a, b, n, n, true)
}

/// `strchr`: index of the first occurrence of the byte `ch as u8` in the
/// buffer of `s`, terminator included; `None` stands for the null pointer.
pub fn strchr(s: &[u8], ch: i32) -> (r: Option<usize>)
    ensures
        match r {
            Some(i) => {
                &&& i <= s@.len()
                &&& with_nul(s@)[i as int] == ch as u8
                &&& forall|j: int| 0 <= j < i ==> with_nul(s@)[j] != ch as u8
            },
            None => forall|j: int| 0 <= j <= s@.len() ==> with_nul(s@)[j] != ch as u8,
        },
{
    #[verifier::truncate]
    let c = ch as u8;
    let mut i: usize = 0;
    while i < s.len()
        invariant
            i <= s@.len(),
            c == ch as u8,
            forall|j: int| 0 <= j < i ==> with_nul(s@)[j] != c,
        decreases s@.len() - i,
    {
        if s[i] == c {
            return Some(i);
        }
        i = i + 1;
    }
    if c == 0 {
        Some(s.len())
    } else {
        None
    }
}

/// `strrchr`: index of the last occurrence of the byte `ch as u8` in the
/// buffer of `s`, terminator included; `None` stands for the null pointer.
pub fn strrchr(s: &[u8], ch: i32) -> (r: Option<usize>)
    ensures
        match r {
            Some(i) => {
                &&& i <= s@.len()
                &&& with_nul(s@)[i as int] == ch as u8
                &&& forall|j: int| i < j <= s@.len() ==> with_nul(s@)[j] != ch as u8
            },
            None => forall|j: int| 0 <= j <= s@.len() ==> with_nul(s@)[j] != ch as u8,
        },
{
    #[verifier::truncate]
    let c = ch as u8;
    if c == 0 {
        return Some(s.len());
    }
    let mut i: usize = s.len();
    while i > 0
        invariant
            i <= s@.len(),
            c == ch as u8,
            c != 0,
            forall|j: int| i <= j <= s@.len() ==> with_nul(s@)[j] != c,
        decreases i,
    {
        if s[i - 1] == c {
            return Some(i - 1);
        }
        i = i - 1;
    }
    None
}

/// `strdup`: a fresh copy of the string's buffer, terminator included.
pub fn strdup(s: &[u8]) -> (r: Vec<u8>)
    ensures
        r@ == with_nul(s@),
{
    let mut r: Vec<u8> = Vec::new();
    let mut i: usize = 0;
    while i < s.len()
        invariant
            i <= s@.len(),
            r@ == s@.take(i as int),
        decreases s@.len() - i,
    {
        r.push(s[i]);
        i = i + 1;
        assert(r@ =~= s@.take(i as int));
    }
    assert(s@.take(s@.len() as int) =~= s@);
    r.push(0);
    r
}

/// Whether a byte is an ASCII decimal digit.
pub open spec fn is_digit(b: u8) -> bool {
    48 <= b <= 57
}

/// A nonempty run of decimal digits.
pub open spec fn all_digits(s: Seq<u8>) -> bool {
    s.len() > 0 && forall|i: int| 0 <= i < s.len() ==> is_digit(#[trigger] s[i])
}

/// The number a run of decimal digits spells.
pub open spec fn digits_value(s: Seq<u8>) -> int
    decreases s.len(),
{
    if s.len() == 0 {
        0
    } else {
        digits_value(s.drop_last()) * 10 + (s.last() - 48)
    }
}

/// The integer a whole string spells in decimal, with an optional sign;
/// `None` where the string is anything else.
pub open spec fn decimal_value(s: Seq<u8>) -> Option<int> {
    if s.len() > 0 && s[0] == 45 && all_digits(s.drop_first()) {
        Some(-digits_value(s.drop_first()))
    } else if s.len() > 0 && s[0] == 43 && all_digits(s.drop_first()) {
        Some(digits_value(s.drop_first()))
    } else if all_digits(s) {
        Some(digits_value(s))
    } else {
        None
    }
}

proof fn lemma_digits_value_monotone(s: Seq<u8>, k: int)
    requires
        0 <= k <= s.len(),
        forall|i: int| 0 <= i < s.len() ==> is_digit(#[trigger] s[i]),
    ensures
        0 <= digits_value(s.take(k)) <= digits_value(s),
    decreases s.len(),
{
    if s.len() == k {
        assert(s.take(k) =~= s);
        lemma_digits_value_nonneg(s);
    } else {
        let t = s.drop_last();
        assert(t.take(k) =~= s.take(k));
        assert forall|i: int| 0 <= i < t.len() implies is_digit(#[trigger] t[i]) by {
            assert(t[i] == s[i]);
        }
        lemma_digits_value_monotone(t, k);
        assert(is_digit(s[s.len() - 1]));
    }
}

proof fn lemma_digits_value_nonneg(s: Seq<u8>)
    requires
        forall|i: int| 0 <= i < s.len() ==> is_digit(#[trigger] s[i]),
    ensures
        digits_value(s) >= 0,
    decreases s.len(),
{
    if s.len() > 0 {
        let t = s.drop_last();
        assert forall|i: int| 0 <= i < t.len() implies is_digit(#[trigger] t[i]) by {
            assert(t[i] == s[i]);
        }
        lemma_digits_value_nonneg(t);
        assert(is_digit(s[s.len() - 1]));
    }
}

/// `atoi`: the `i32` that the whole string spells in decimal, with an
/// optional sign, and 0 for anything else (other text, or out of range).
pub fn atoi(s: &[u8]) -> (r: i32)
    ensures
        match decimal_value(s@) {
            Some(v) => if i32::MIN <= v <= i32::MAX {
                r as int == v
            } else {
                r == 0
            },
            None => r == 0,
        },
{
    let n = s.len();
    let negative = n > 0 && s[0] == 45;
    let start: usize = if n > 0 && (s[0] == 45 || s[0] == 43) {
        1
    } else {
        0
    };
    let ghost digits = s@.subrange(start as int, n as int);
    assert(start == 1 ==> digits =~= s@.drop_first());
    assert(start == 0 ==> digits =~= s@);
    assert(start == 1 ==> !is_digit(s@[0]));
    assert(decimal_value(s@) == if all_digits(digits) {
        Some(if negative { -digits_value(digits) } else { digits_value(digits) })
    } else {
        None::<int>
    });
    if start == n {
        return 0;
    }
    let mut acc: i64 = 0;
    let mut i: usize = start;
    while i < n
        invariant
            start <= i <= n == s@.len(),
            digits == s@.subrange(start as int, n as int),
            forall|j: int| start <= j < i ==> is_digit(#[trigger] s@[j]),
            acc as int == digits_value(digits.take(i - start)),
            0 <= acc <= 0x8000_0000,
            decimal_value(s@) == if all_digits(digits) {
                Some(if negative { -digits_value(digits) } else { digits_value(digits) })
            } else {
                None::<int>
            },
        decreases n - i,
    {
        let b = s[i];
        if b < 48 || b > 57 {
            assert(!is_digit(digits[i - start]));
            return 0;
        }
        let ghost prefix = digits.take(i + 1 - start);
        assert(prefix.drop_last() =~= digits.take(i - start));
        acc = acc * 10 + (b - 48) as i64;
        i = i + 1;
        if acc > 0x8000_0000 {
            proof {
                if all_digits(digits) {
                    lemma_digits_value_monotone(digits, i - start);
                }
            }
            return 0;
        }
    }
    assert(digits.take(n - start) =~= digits);
    assert forall|j: int| 0 <= j < digits.len() implies is_digit(#[trigger] digits[j]) by {
        assert(digits[j] == s@[start + j]);
    }
    let value: i64 = if negative {
        -acc
    } else {
        acc
    };
    if value > 0x7fff_ffff {
        0
    } else {
        value as i32
    }
}

/// `abs`: the absolute value, where `i32::MIN` maps to itself as the
/// machine's two's-complement negation gives it.
pub fn abs(n: i32) -> (r: i32)
    ensures
        n == i32::MIN ==> r == i32::MIN,
        n != i32::MIN ==> r as int == (if n < 0 {
            -n
        } else {
            n as int
        }),
{
    if n == i32::MIN {
        n
    } else if n < 0 {
        -n
    } else {
        n
    }
}

/// `toupper`: ASCII lowercase letters map to their capitals; any other value
/// is returned unchanged.
pub fn toupper(n: i32) -> (r: i32)
    ensures
        r == (if 97 <= n <= 122 {
            n - 32
        } else {
            n as int
        }),
{
    if 97 <= n && n <= 122 {
        n - 32
    } else {
        n
    }
}

/// Whether a value is a Unicode scalar value.
pub open spec fn is_scalar(c: int) -> bool {
    0 <= c <= 0x10FFFF && !(0xD800 <= c <= 0xDFFF)
}

/// The code point that `putchar` writes for `c`: `c` itself where it is a
/// Unicode scalar value, `'#'` otherwise.
pub fn putchar_code(c: i32) -> (r: u32)
    ensures
        is_scalar(c as int) ==> r == c,
        !is_scalar(c as int) ==> r == 35,
        is_scalar(r as int),
{
    if 0 <= c && c <= 0x10FFFF && !(0xD800 <= c && c <= 0xDFFF) {
        c as u32
    } else {
        35
    }
}

/// Cycles of the time-stamp counter taken as one microsecond: an empirical,
/// uncalibrated figure, so the clock it gives is coarse.
pub const CYCLES_PER_US: u64 = 50000;

/// `cpu_time_us`: a cycle count turned into approximate microseconds.
pub fn cycles_to_us(cycles: u64) -> (r: u64)
    ensures
        r == cycles / CYCLES_PER_US,
{
    cycles / CYCLES_PER_US
}

} // verus!
