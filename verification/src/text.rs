//! Conversions between strings, characters, decimal numbers and UTF-16.
use vstd::prelude::*;

verus! {

/// The characters of `s`, in order.
pub fn chars_of(s: &str) -> (res: Vec<char>)
    ensures
        res@ == s@,
{
    broadcast use vstd::string::axiom_spec_iter;

    let mut out: Vec<char> = Vec::new();
    for c in it: s.chars()
        invariant
            it.seq() == s@,
            out@ == it.seq().take(it.index() as int),
    {
        out.push(c);
        assert(out@ =~= it.seq().take(it.index() + 1));
    }
    assert(out@ =~= s@);
    out
}

/// Calls `String::from_iter` on the characters: the string made of them, in order.
#[verifier::external_body]
pub(crate) fn string_from_chars(chars: &Vec<char>) -> (res: String)
    ensures
        res@ == chars@,
{
    String::from_iter(chars.iter())
}

/// Calls `char::from_u32` on a Unicode scalar value, which its documentation
/// promises to turn into the character with that value.
#[verifier::external_body]
pub(crate) fn char_from_scalar(x: u32) -> (c: char)
    requires
        x < 0xD800 || (0xE000 <= x <= 0x10FFFF),
    ensures
        c as u32 == x,
{
    char::from_u32(x).unwrap()
}

pub open spec fn digit_char(d: nat) -> char {
    if d == 0 {
        '0'
    } else if d == 1 {
        '1'
    } else if d == 2 {
        '2'
    } else if d == 3 {
        '3'
    } else if d == 4 {
        '4'
    } else if d == 5 {
        '5'
    } else if d == 6 {
        '6'
    } else if d == 7 {
        '7'
    } else if d == 8 {
        '8'
    } else {
        '9'
    }
}

/// The decimal digits of `n`, most significant first, without leading zeros.
pub open spec fn decimal(n: nat) -> Seq<char>
    decreases n,
{
    if n < 10 {
        seq![digit_char(n)]
    } else {
        decimal(n / 10).push(digit_char(n % 10))
    }
}

/// How `format!("{}")` writes an integer: a minus sign for negative numbers, then the digits.
pub open spec fn signed_decimal(n: int) -> Seq<char> {
    if n < 0 {
        seq!['-'] + decimal((-n) as nat)
    } else {
        decimal(n as nat)
    }
}

fn digit(d: u64) -> (c: char)
    requires
        d < 10,
    ensures
        c == digit_char(d as nat),
{
    match d {
        0 => '0',
        1 => '1',
        2 => '2',
        3 => '3',
        4 => '4',
        5 => '5',
        6 => '6',
        7 => '7',
        8 => '8',
        _ => '9',
    }
}

/// The decimal digits of `n`.
pub fn decimal_chars(n: u64) -> (res: Vec<char>)
    ensures
        res@ == decimal(n as nat),
    decreases n,
{
    if n < 10 {
        let mut v: Vec<char> = Vec::new();
        v.push(digit(n));
        assert(v@ =~= decimal(n as nat));
        v
    } else {
        let mut v = decimal_chars(n / 10);
        v.push(digit(n % 10));
        v
    }
}

/// Writes `n` in decimal, as `format!("{n}")` does.
pub fn format_i64(n: i64) -> (res: String)
    ensures
        res@ == signed_decimal(n as int),
{
    if n < 0 {
        let magnitude: u64 = if n == i64::MIN {
            0x8000_0000_0000_0000u64
        } else {
            (-n) as u64
        };
        let mut v: Vec<char> = Vec::new();
        v.push('-');
        let digits = decimal_chars(magnitude);
        let mut i: usize = 0;
        while i < digits.len()
            invariant
                v@ == seq!['-'] + digits@.take(i as int),
                i <= digits@.len(),
            decreases digits@.len() - i,
        {
            v.push(digits[i]);
            i = i + 1;
            assert(v@ =~= seq!['-'] + digits@.take(i as int));
        }
        assert(digits@.take(digits@.len() as int) =~= digits@);
        string_from_chars(&v)
    } else {
        let digits = decimal_chars(n as u64);
        string_from_chars(&digits)
    }
}

// UTF-16 //
////////////

/// The UTF-16 code units of a character: one unit below U+10000, otherwise a surrogate pair.
pub open spec fn utf16_units(c: char) -> Seq<u16> {
    let x = c as u32;
    if x < 0x10000 {
        seq![x as u16]
    } else {
        let y = (x - 0x10000) as u32;
        seq![(0xD800 + (y >> 10u32)) as u16, (0xDC00 + (y & 0x3FFu32)) as u16]
    }
}

/// The code units of a string, each as two big-endian bytes.
pub open spec fn utf16_be_bytes(s: Seq<char>) -> Seq<u8>
    decreases s.len(),
{
    if s.len() == 0 {
        Seq::empty()
    } else {
        utf16_be_bytes(s.drop_last()) + units_be_bytes(utf16_units(s.last()))
    }
}

pub open spec fn units_be_bytes(units: Seq<u16>) -> Seq<u8>
    decreases units.len(),
{
    if units.len() == 0 {
        Seq::empty()
    } else {
        units_be_bytes(units.drop_last()) + seq![
            (units.last() >> 8u16) as u8,
            units.last() as u8,
        ]
    }
}

proof fn lemma_char_range(c: char)
    ensures
        (c as u32) < 0xD800 || (0xE000 <= (c as u32) <= 0x10FFFF),
{
}

/// Appends the UTF-16 code units of `c`, each as two big-endian bytes.
fn push_utf16_be(out: &mut Vec<u8>, c: char)
    ensures
        final(out)@ == old(out)@ + units_be_bytes(utf16_units(c)),
{
    let x = c as u32;
    proof {
        lemma_char_range(c);
    }
    if x < 0x10000 {
        let u = x as u16;
        out.push((u >> 8) as u8);
        out.push(u as u8);
        proof {
            reveal_with_fuel(units_be_bytes, 3);
            let units = utf16_units(c);
            assert(units.drop_last() =~= Seq::<u16>::empty());
            assert(out@ =~= old(out)@ + units_be_bytes(units));
        }
    } else {
        let y = x - 0x10000;
        assert((y >> 10u32) < 0x400 && (y & 0x3FFu32) < 0x400) by (bit_vector)
            requires
                y <= 0xFFFFF,
        ;
        let hi = (0xD800 + (y >> 10)) as u16;
        let lo = (0xDC00 + (y & 0x3FF)) as u16;
        out.push((hi >> 8) as u8);
        out.push(hi as u8);
        out.push((lo >> 8) as u8);
        out.push(lo as u8);
        proof {
            reveal_with_fuel(units_be_bytes, 3);
            let units = utf16_units(c);
            assert(units.drop_last().drop_last() =~= Seq::<u16>::empty());
            assert(units.drop_last() =~= seq![hi]);
            assert(out@ =~= old(out)@ + units_be_bytes(units));
        }
    }
}

/// Appends the UTF-16 code units of a string, each as two big-endian bytes.
pub fn push_str_utf16_be(out: &mut Vec<u8>, s: &str)
    ensures
        final(out)@ == old(out)@ + utf16_be_bytes(s@),
{
    let chars = chars_of(s);
    let mut i: usize = 0;
    while i < chars.len()
        invariant
            chars@ == s@,
            i <= chars@.len(),
            out@ == old(out)@ + utf16_be_bytes(chars@.take(i as int)),
        decreases chars@.len() - i,
    {
        push_utf16_be(out, chars[i]);
        i = i + 1;
        assert(chars@.take(i as int).drop_last() =~= chars@.take(i - 1));
    }
    assert(chars@.take(chars@.len() as int) =~= chars@);
}

// Comparing strings //
////////////////////////

/// Whether two strings hold the same characters.
pub fn str_eq(a: &str, b: &str) -> (res: bool)
    ensures
        res == (a@ == b@),
{
    let x = chars_of(a);
    let y = chars_of(b);
    if x.len() != y.len() {
        return false;
    }
    let mut i: usize = 0;
    while i < x.len()
        invariant
            x@ == a@,
            y@ == b@,
            x@.len() == y@.len(),
            i <= x@.len(),
            forall|j: int| 0 <= j < i ==> x@[j] == y@[j],
        decreases x@.len() - i,
    {
        if x[i] != y[i] {
            return false;
        }
        i = i + 1;
    }
    assert(x@ =~= y@);
    true
}

/// Whether `a` comes before `b` in the lexicographic order of their
/// characters; this is the order of their UTF-8 bytes, which `String`'s `<` uses.
pub open spec fn chars_lt(a: Seq<char>, b: Seq<char>) -> bool
    decreases a.len(),
{
    if a.len() == 0 {
        b.len() > 0
    } else if b.len() == 0 {
        false
    } else if a[0] != b[0] {
        (a[0] as u32) < (b[0] as u32)
    } else {
        chars_lt(a.skip(1), b.skip(1))
    }
}

/// Whether `a` comes before `b`, character by character.
pub fn str_lt(a: &str, b: &str) -> (res: bool)
    ensures
        res == chars_lt(a@, b@),
{
    let x = chars_of(a);
    let y = chars_of(b);
    let mut i: usize = 0;
    assert(a@.skip(0) =~= a@ && b@.skip(0) =~= b@);
    while i < x.len() && i < y.len()
        invariant
            x@ == a@,
            y@ == b@,
            i <= x@.len(),
            i <= y@.len(),
            chars_lt(a@, b@) == chars_lt(a@.skip(i as int), b@.skip(i as int)),
        decreases x@.len() - i,
    {
        assert(a@.skip(i as int)[0] == x@[i as int] && b@.skip(i as int)[0] == y@[i as int]);
        if x[i] != y[i] {
            return (x[i] as u32) < (y[i] as u32);
        }
        assert(a@.skip(i as int).skip(1) =~= a@.skip(i + 1));
        assert(b@.skip(i as int).skip(1) =~= b@.skip(i + 1));
        i = i + 1;
    }
    i == x.len() && i < y.len()
}

/// No string comes before itself, and of two strings at most one comes first.
pub proof fn lemma_chars_lt_asym(a: Seq<char>, b: Seq<char>)
    ensures
        !(chars_lt(a, b) && chars_lt(b, a)),
    decreases a.len(),
{
    if a.len() > 0 && b.len() > 0 && a[0] == b[0] {
        lemma_chars_lt_asym(a.skip(1), b.skip(1));
    }
}

/// The order of strings is transitive.
pub proof fn lemma_chars_lt_trans(a: Seq<char>, b: Seq<char>, c: Seq<char>)
    requires
        chars_lt(a, b),
        chars_lt(b, c),
    ensures
        chars_lt(a, c),
    decreases a.len(),
{
    if a.len() > 0 && b.len() > 0 && c.len() > 0 && a[0] == b[0] && b[0] == c[0] {
        lemma_chars_lt_trans(a.skip(1), b.skip(1), c.skip(1));
    }
}

/// Of two different strings, one comes before the other.
pub proof fn lemma_chars_lt_total(a: Seq<char>, b: Seq<char>)
    requires
        !chars_lt(a, b),
        !chars_lt(b, a),
    ensures
        a == b,
    decreases a.len(),
{
    if a.len() > 0 && b.len() > 0 {
        if a[0] == b[0] {
            lemma_chars_lt_total(a.skip(1), b.skip(1));
            assert(a =~= seq![a[0]] + a.skip(1));
            assert(b =~= seq![b[0]] + b.skip(1));
        } else {
            vstd::utf8::char_u32_cast(a[0], a[0] as u32);
            vstd::utf8::char_u32_cast(b[0], b[0] as u32);
        }
    } else {
        assert(a =~= b);
    }
}

/// Whether `s` begins with `prefix`.
pub fn starts_with(s: &str, prefix: &str) -> (res: bool)
    ensures
        res == (prefix@.len() <= s@.len() && s@.subrange(0, prefix@.len() as int) == prefix@),
{
    let x = chars_of(s);
    let y = chars_of(prefix);
    if y.len() > x.len() {
        return false;
    }
    let mut i: usize = 0;
    while i < y.len()
        invariant
            x@ == s@,
            y@ == prefix@,
            y@.len() <= x@.len(),
            i <= y@.len(),
            forall|j: int| 0 <= j < i ==> x@[j] == y@[j],
        decreases y@.len() - i,
    {
        if x[i] != y[i] {
            assert(s@.subrange(0, prefix@.len() as int)[i as int] != prefix@[i as int]);
            return false;
        }
        i = i + 1;
    }
    assert(s@.subrange(0, prefix@.len() as int) =~= prefix@);
    true
}

// Parsing integers //
///////////////////////

pub open spec fn is_digit(c: char) -> bool {
    '0' <= c <= '9'
}

pub open spec fn all_digits(s: Seq<char>) -> bool {
    forall|i: int| 0 <= i < s.len() ==> is_digit(#[trigger] s[i])
}

/// The value of a string of decimal digits.
pub open spec fn digits_value(s: Seq<char>) -> nat
    decreases s.len(),
{
    if s.len() == 0 {
        0
    } else {
        digits_value(s.drop_last()) * 10 + ((s.last() as u32 - '0' as u32) as nat)
    }
}

/// What `str::parse::<i32>` reads: an optional `+` or `-`, then at least one
/// decimal digit and nothing else, with a value that fits in an `i32`.
pub open spec fn parse_i32_spec(s: Seq<char>) -> Option<i32> {
    let signed = s.len() > 0 && (s[0] == '+' || s[0] == '-');
    let digits = if signed {
        s.skip(1)
    } else {
        s
    };
    let v: int = if signed && s[0] == '-' {
        -(digits_value(digits) as int)
    } else {
        digits_value(digits) as int
    };
    if digits.len() > 0 && all_digits(digits) && i32::MIN <= v <= i32::MAX {
        Some(v as i32)
    } else {
        None
    }
}

proof fn lemma_digits_step(t: Seq<char>, c: char, acc: u64)
    requires
        is_digit(c),
        acc as int == if digits_value(t) < 0x1_0000_0000 {
            digits_value(t) as int
        } else {
            0x1_0000_0000int
        },
    ensures
        ({
            let v = acc * 10 + (c as u32 - '0' as u32);
            let capped = if v < 0x1_0000_0000 {
                v
            } else {
                0x1_0000_0000int
            };
            capped == if digits_value(t.push(c)) < 0x1_0000_0000 {
                digits_value(t.push(c)) as int
            } else {
                0x1_0000_0000int
            }
        }),
{
    assert(t.push(c).drop_last() =~= t);
    let d = (c as u32 - '0' as u32) as int;
    assert(0 <= d <= 9);
    if digits_value(t) >= 0x1_0000_0000 {
        assert(digits_value(t) * 10 + d >= 0x1_0000_0000) by (nonlinear_arith)
            requires
                digits_value(t) >= 0x1_0000_0000,
                d >= 0,
        ;
    }
}

/// Parses a decimal `i32`, as `str::parse::<i32>` does.
pub fn parse_i32(s: &str) -> (res: Option<i32>)
    ensures
        res == parse_i32_spec(s@),
{
    let chars = chars_of(s);
    let n = chars.len();
    let signed = n > 0 && (chars[0] == '+' || chars[0] == '-');
    let negative = signed && chars[0] == '-';
    let start: usize = if signed {
        1
    } else {
        0
    };
    let ghost digits = if signed {
        s@.skip(1)
    } else {
        s@
    };
    assert(signed == (s@.len() > 0 && (s@[0] == '+' || s@[0] == '-')));
    if start >= n {
        return None;
    }
    // the value, capped at 2^32 so that it cannot overflow
    let mut acc: u64 = 0;
    let mut i: usize = start;
    assert(digits.take(0) =~= Seq::<char>::empty());
    while i < n
        invariant
            chars@ == s@,
            n == chars@.len(),
            start <= i <= n,
            start == (if s@.len() > 0 && (s@[0] == '+' || s@[0] == '-') {
                1usize
            } else {
                0usize
            }),
            digits == s@.skip(start as int),
            all_digits(digits.take(i - start)),
            acc as int == if digits_value(digits.take(i - start)) < 0x1_0000_0000 {
                digits_value(digits.take(i - start)) as int
            } else {
                0x1_0000_0000int
            },
        decreases n - i,
    {
        let c = chars[i];
        if !('0' <= c && c <= '9') {
            assert(digits[i - start] == c);
            assert(!is_digit(digits[i - start]));
            assert(!all_digits(digits));
            return None;
        }
        proof {
            lemma_digits_step(digits.take(i - start), c, acc);
            assert(digits.take(i - start).push(c) =~= digits.take(i + 1 - start));
        }
        let v = acc * 10 + (c as u64 - '0' as u64);
        acc = if v < 0x1_0000_0000 {
            v
        } else {
            0x1_0000_0000
        };
        i = i + 1;
    }
    assert(digits.take(n - start) =~= digits);
    if negative {
        if acc <= 0x8000_0000 {
            Some((0 - (acc as i64)) as i32)
        } else {
            None
        }
    } else {
        if acc <= 0x7fff_ffff {
            Some(acc as i32)
        } else {
            None
        }
    }
}

/// What `str::parse::<i64>` reads: an optional `+` or `-`, then at least one
/// decimal digit and nothing else, with a value that fits in an `i64`.
pub open spec fn parse_i64_spec(s: Seq<char>) -> Option<i64> {
    let signed = s.len() > 0 && (s[0] == '+' || s[0] == '-');
    let digits = if signed {
        s.skip(1)
    } else {
        s
    };
    let v: int = if signed && s[0] == '-' {
        -(digits_value(digits) as int)
    } else {
        digits_value(digits) as int
    };
    if digits.len() > 0 && all_digits(digits) && i64::MIN <= v <= i64::MAX {
        Some(v as i64)
    } else {
        None
    }
}

/// Parses a decimal `i64`, as `str::parse::<i64>` does.
pub fn parse_i64(s: &str) -> (res: Option<i64>)
    ensures
        res == parse_i64_spec(s@),
{
    let chars = chars_of(s);
    let n = chars.len();
    let signed = n > 0 && (chars[0] == '+' || chars[0] == '-');
    let negative = signed && chars[0] == '-';
    let start: usize = if signed {
        1
    } else {
        0
    };
    let ghost digits = if signed {
        s@.skip(1)
    } else {
        s@
    };
    assert(signed == (s@.len() > 0 && (s@[0] == '+' || s@[0] == '-')));
    if start >= n {
        return None;
    }
    // the value, capped at 2^64 so that it cannot overflow
    let mut acc: u128 = 0;
    let mut i: usize = start;
    assert(digits.take(0) =~= Seq::<char>::empty());
    while i < n
        invariant
            chars@ == s@,
            n == chars@.len(),
            start <= i <= n,
            start == (if s@.len() > 0 && (s@[0] == '+' || s@[0] == '-') {
                1usize
            } else {
                0usize
            }),
            digits == s@.skip(start as int),
            all_digits(digits.take(i - start)),
            acc as int == if digits_value(digits.take(i - start)) < 0x1_0000_0000_0000_0000 {
                digits_value(digits.take(i - start)) as int
            } else {
                0x1_0000_0000_0000_0000int
            },
        decreases n - i,
    {
        let c = chars[i];
        if !('0' <= c && c <= '9') {
            assert(digits[i - start] == c);
            assert(!is_digit(digits[i - start]));
            assert(!all_digits(digits));
            return None;
        }
        proof {
            lemma_digits_step_wide(digits.take(i - start), c, acc);
            assert(digits.take(i - start).push(c) =~= digits.take(i + 1 - start));
        }
        let v = acc * 10 + (c as u128 - '0' as u128);
        acc = if v < 0x1_0000_0000_0000_0000 {
            v
        } else {
            0x1_0000_0000_0000_0000
        };
        i = i + 1;
    }
    assert(digits.take(n - start) =~= digits);
    if negative {
        if acc <= 0x8000_0000_0000_0000 {
            Some((0 - (acc as i128)) as i64)
        } else {
            None
        }
    } else {
        if acc <= 0x7fff_ffff_ffff_ffff {
            Some(acc as i64)
        } else {
            None
        }
    }
}

/// What `str::parse::<u64>` reads: an optional `+`, then at least one decimal
/// digit and nothing else, with a value that fits in a `u64`.
pub open spec fn parse_u64_spec(s: Seq<char>) -> Option<u64> {
    let digits = if s.len() > 0 && s[0] == '+' {
        s.skip(1)
    } else {
        s
    };
    if digits.len() > 0 && all_digits(digits) && digits_value(digits) <= u64::MAX {
        Some(digits_value(digits) as u64)
    } else {
        None
    }
}

proof fn lemma_digits_step_wide(t: Seq<char>, c: char, acc: u128)
    requires
        is_digit(c),
        acc as int == if digits_value(t) < 0x1_0000_0000_0000_0000 {
            digits_value(t) as int
        } else {
            0x1_0000_0000_0000_0000int
        },
    ensures
        ({
            let v = acc * 10 + (c as u32 - '0' as u32);
            let capped = if v < 0x1_0000_0000_0000_0000 {
                v
            } else {
                0x1_0000_0000_0000_0000int
            };
            capped == if digits_value(t.push(c)) < 0x1_0000_0000_0000_0000 {
                digits_value(t.push(c)) as int
            } else {
                0x1_0000_0000_0000_0000int
            }
        }),
{
    assert(t.push(c).drop_last() =~= t);
    let d = (c as u32 - '0' as u32) as int;
    assert(0 <= d <= 9);
    if digits_value(t) >= 0x1_0000_0000_0000_0000 {
        assert(digits_value(t) * 10 + d >= 0x1_0000_0000_0000_0000) by (nonlinear_arith)
            requires
                digits_value(t) >= 0x1_0000_0000_0000_0000,
                d >= 0,
        ;
    }
}

/// Parses a decimal `u64`, as `str::parse::<u64>` does.
pub fn parse_u64(s: &str) -> (res: Option<u64>)
    ensures
        res == parse_u64_spec(s@),
{
    let chars = chars_of(s);
    let n = chars.len();
    let start: usize = if n > 0 && chars[0] == '+' {
        1
    } else {
        0
    };
    let ghost digits = s@.skip(start as int);
    if start >= n {
        return None;
    }
    // the value, capped at 2^64 so that it cannot overflow
    let mut acc: u128 = 0;
    let mut i: usize = start;
    assert(digits.take(0) =~= Seq::<char>::empty());
    while i < n
        invariant
            chars@ == s@,
            n == chars@.len(),
            start <= i <= n,
            start < n,
            start == (if s@.len() > 0 && s@[0] == '+' {
                1usize
            } else {
                0usize
            }),
            digits == s@.skip(start as int),
            all_digits(digits.take(i - start)),
            acc as int == if digits_value(digits.take(i - start)) < 0x1_0000_0000_0000_0000 {
                digits_value(digits.take(i - start)) as int
            } else {
                0x1_0000_0000_0000_0000int
            },
        decreases n - i,
    {
        let c = chars[i];
        if !('0' <= c && c <= '9') {
            assert(digits[i - start] == c);
            assert(!is_digit(digits[i - start]));
            assert(!all_digits(digits));
            return None;
        }
        proof {
            lemma_digits_step_wide(digits.take(i - start), c, acc);
            assert(digits.take(i - start).push(c) =~= digits.take(i + 1 - start));
        }
        let v = acc * 10 + (c as u128 - '0' as u128);
        acc = if v < 0x1_0000_0000_0000_0000 {
            v
        } else {
            0x1_0000_0000_0000_0000
        };
        i = i + 1;
    }
    assert(digits.take(n - start) =~= digits);
    assert(start == 0 ==> digits =~= s@);
    if acc <= 0xffff_ffff_ffff_ffff {
        Some(acc as u64)
    } else {
        None
    }
}

/// The pieces of a string between the occurrences of `sep`, as `str::split` gives them.
pub open spec fn split_on(s: Seq<char>, sep: char) -> Seq<Seq<char>>
    decreases s.len(),
{
    if s.len() == 0 {
        seq![Seq::empty()]
    } else {
        let r = split_on(s.drop_last(), sep);
        if s.last() == sep {
            r.push(Seq::empty())
        } else {
            r.update(r.len() - 1, r.last().push(s.last()))
        }
    }
}

pub proof fn lemma_split_on_nonempty(s: Seq<char>, sep: char)
    ensures
        split_on(s, sep).len() >= 1,
    decreases s.len(),
{
    if s.len() > 0 {
        lemma_split_on_nonempty(s.drop_last(), sep);
    }
}

/// Splits a string at each `sep`.
pub fn split_str(s: &str, sep: char) -> (res: Vec<String>)
    ensures
        res@.len() == split_on(s@, sep).len(),
        forall|i: int| 0 <= i < res@.len() ==> (#[trigger] res@[i])@ == split_on(s@, sep)[i],
{
    let chars = chars_of(s);
    let mut done: Vec<String> = Vec::new();
    let mut cur: Vec<char> = Vec::new();
    let mut i: usize = 0;
    while i < chars.len()
        invariant
            chars@ == s@,
            i <= chars@.len(),
            done@.len() + 1 == split_on(chars@.take(i as int), sep).len(),
            forall|j: int|
                0 <= j < done@.len() ==> (#[trigger] done@[j])@ == split_on(
                    chars@.take(i as int),
                    sep,
                )[j],
            cur@ == split_on(chars@.take(i as int), sep).last(),
        decreases chars@.len() - i,
    {
        let c = chars[i];
        proof {
            assert(chars@.take(i + 1).drop_last() =~= chars@.take(i as int));
            lemma_split_on_nonempty(chars@.take(i as int), sep);
        }
        if c == sep {
            done.push(string_from_chars(&cur));
            cur = Vec::new();
        } else {
            cur.push(c);
        }
        i = i + 1;
    }
    assert(chars@.take(chars@.len() as int) =~= chars@);
    done.push(string_from_chars(&cur));
    done
}

/// A piece without the separator splits into itself.
pub proof fn lemma_split_no_sep(w: Seq<char>, sep: char)
    requires
        !w.contains(sep),
    ensures
        split_on(w, sep) == seq![w],
    decreases w.len(),
{
    if w.len() > 0 {
        let t = w.drop_last();
        assert(!t.contains(sep)) by {
            if t.contains(sep) {
                let i = choose|i: int| 0 <= i < t.len() && t[i] == sep;
                assert(w[i] == sep);
            }
        }
        lemma_split_no_sep(t, sep);
        assert(w.last() != sep) by {
            assert(w[w.len() - 1] == w.last());
        }
        assert(t.push(w.last()) =~= w);
    } else {
        assert(w =~= Seq::<char>::empty());
    }
}

/// Splitting around a separator splits both sides.
pub proof fn lemma_split_concat(a: Seq<char>, b: Seq<char>, sep: char)
    ensures
        split_on(a + seq![sep] + b, sep) == split_on(a, sep) + split_on(b, sep),
    decreases b.len(),
{
    lemma_split_on_nonempty(a, sep);
    if b.len() == 0 {
        assert(a + seq![sep] + b =~= a + seq![sep]);
        assert((a + seq![sep]).drop_last() =~= a);
        assert(split_on(a, sep) + split_on(b, sep) =~= split_on(a, sep).push(Seq::empty()));
    } else {
        let bt = b.drop_last();
        lemma_split_concat(a, bt, sep);
        lemma_split_on_nonempty(bt, sep);
        let whole = a + seq![sep] + b;
        assert(whole.drop_last() =~= a + seq![sep] + bt);
        assert(whole.last() == b.last());
        let r = split_on(a, sep) + split_on(bt, sep);
        if b.last() == sep {
            assert(r.push(Seq::empty()) =~= split_on(a, sep) + split_on(bt, sep).push(Seq::empty()));
        } else {
            let sb = split_on(bt, sep);
            assert(r.update(r.len() - 1, r.last().push(b.last())) =~= split_on(a, sep) + sb.update(
                sb.len() - 1,
                sb.last().push(b.last()),
            ));
        }
    }
}

/// Appending text without the separator extends the last piece.
pub proof fn lemma_split_extend(x: Seq<char>, w: Seq<char>, sep: char)
    requires
        !w.contains(sep),
    ensures
        split_on(x + w, sep) == split_on(x, sep).update(
            split_on(x, sep).len() - 1,
            split_on(x, sep).last() + w,
        ),
    decreases w.len(),
{
    lemma_split_on_nonempty(x, sep);
    if w.len() == 0 {
        assert(x + w =~= x);
        let s = split_on(x, sep);
        assert(s.update(s.len() - 1, s.last() + w) =~= s);
    } else {
        let wt = w.drop_last();
        assert(!wt.contains(sep)) by {
            if wt.contains(sep) {
                let i = choose|i: int| 0 <= i < wt.len() && wt[i] == sep;
                assert(w[i] == sep);
            }
        }
        assert(w.last() != sep) by {
            assert(w[w.len() - 1] == w.last());
        }
        lemma_split_extend(x, wt, sep);
        assert((x + w).drop_last() =~= x + wt);
        assert((x + w).last() == w.last());
        let s = split_on(x, sep);
        let r = s.update(s.len() - 1, s.last() + wt);
        assert(wt.push(w.last()) =~= w);
        assert((s.last() + wt).push(w.last()) =~= s.last() + w);
        assert(r.last() == s.last() + wt);
        assert(r.update(r.len() - 1, r.last().push(w.last())) =~= s.update(s.len() - 1, s.last() + w));
    }
}

} // verus!
