//! Character-level text helpers shared by the parsing and storage modules:
//! conversions between strings and character vectors, case folding, and
//! verified decimal / hexadecimal formatting and parsing.

use vstd::prelude::*;

verus! {

/// Relies on `str::chars` and `Iterator::collect`: yields exactly the
/// characters of the string, in order.
#[verifier::external_body]
pub fn string_to_chars(s: &str) -> (r: Vec<char>)
    ensures
        r@ == s@,
{
    s.chars().collect()
}

/// Relies on `Iterator::collect` for `String`: builds the string holding
/// exactly these characters, in order.
#[verifier::external_body]
pub fn chars_to_string(v: &Vec<char>) -> (r: String)
    ensures
        r@ == v@,
{
    v.iter().collect()
}

/// What `str::to_lowercase` returns: a function of the characters alone.
pub uninterp spec fn lower_of(s: Seq<char>) -> Seq<char>;

/// Relies on `str::to_lowercase`: the result depends on the characters
/// alone, and an empty string stays empty.
#[verifier::external_body]
pub fn to_lowercase(s: &str) -> (r: String)
    ensures
        r@ == lower_of(s@),
        s@.len() == 0 ==> r@.len() == 0,
{
    s.to_lowercase()
}

/// Whether `c` is an ASCII decimal digit.
pub open spec fn spec_is_digit(c: char) -> bool {
    '0' as u32 <= c as u32 && c as u32 <= '9' as u32
}

/// Numeric value of an ASCII decimal digit.
pub open spec fn spec_digit_val(c: char) -> nat {
    (c as u32 - '0' as u32) as nat
}

pub fn is_digit(c: char) -> (r: bool)
    ensures
        r == spec_is_digit(c),
{
    let u = c as u32;
    '0' as u32 <= u && u <= '9' as u32
}

/// The character for a value below sixteen, as `{:x}` formatting writes it.
pub open spec fn spec_digit_char(d: u64) -> char
    recommends
        d < 16,
{
    if d == 0 {
        '0'
    } else if d == 1 {
        '1'
    } else if d == 2 {
        '2'
    } else if d == 3 {
        '3'
    } else if d == 4 {
        '4'
    } else if d == 5 {
        '5'
    } else if d == 6 {
        '6'
    } else if d == 7 {
        '7'
    } else if d == 8 {
        '8'
    } else if d == 9 {
        '9'
    } else if d == 10 {
        'a'
    } else if d == 11 {
        'b'
    } else if d == 12 {
        'c'
    } else if d == 13 {
        'd'
    } else if d == 14 {
        'e'
    } else {
        'f'
    }
}

pub fn digit_char(d: u64) -> (c: char)
    requires
        d < 16,
    ensures
        c == spec_digit_char(d),
{
    if d == 0 {
        '0'
    } else if d == 1 {
        '1'
    } else if d == 2 {
        '2'
    } else if d == 3 {
        '3'
    } else if d == 4 {
        '4'
    } else if d == 5 {
        '5'
    } else if d == 6 {
        '6'
    } else if d == 7 {
        '7'
    } else if d == 8 {
        '8'
    } else if d == 9 {
        '9'
    } else if d == 10 {
        'a'
    } else if d == 11 {
        'b'
    } else if d == 12 {
        'c'
    } else if d == 13 {
        'd'
    } else if d == 14 {
        'e'
    } else {
        'f'
    }
}

/// Lower-case hexadecimal digits of `n`, most significant first, with no
/// leading zeros — the same text that `{:x}` formatting produces.
pub open spec fn hex_seq(n: u64) -> Seq<char>
    decreases n,
{
    if n < 16 {
        seq![spec_digit_char(n)]
    } else {
        hex_seq(n / 16).push(spec_digit_char(n % 16))
    }
}

/// Decimal digits of `n`, most significant first, with no leading zeros.
pub open spec fn dec_seq(n: u64) -> Seq<char>
    decreases n,
{
    if n < 10 {
        seq![spec_digit_char(n)]
    } else {
        dec_seq(n / 10).push(spec_digit_char(n % 10))
    }
}

pub fn push_hex(n: u64, out: &mut Vec<char>)
    ensures
        final(out)@ == old(out)@ + hex_seq(n),
    decreases n,
{
    if n >= 16 {
        push_hex(n / 16, out);
        out.push(digit_char(n % 16));
        assert(out@ =~= old(out)@ + hex_seq(n));
    } else {
        out.push(digit_char(n));
        assert(out@ =~= old(out)@ + hex_seq(n));
    }
}

pub fn push_dec(n: u64, out: &mut Vec<char>)
    ensures
        final(out)@ == old(out)@ + dec_seq(n),
    decreases n,
{
    if n >= 10 {
        push_dec(n / 10, out);
        out.push(digit_char(n % 10));
        assert(out@ =~= old(out)@ + dec_seq(n));
    } else {
        out.push(digit_char(n));
        assert(out@ =~= old(out)@ + dec_seq(n));
    }
}

/// `n` written in decimal.
pub fn u64_to_dec_string(n: u64) -> (r: String)
    ensures
        r@ == dec_seq(n),
{
    let mut out: Vec<char> = Vec::new();
    push_dec(n, &mut out);
    chars_to_string(&out)
}

/// A signed value written in decimal: a minus sign when negative, then the
/// digits of the magnitude.
pub open spec fn dec_seq_i64(n: i64) -> Seq<char> {
    if n >= 0 {
        dec_seq(n as u64)
    } else {
        seq!['-'] + dec_seq((-(n as int)) as u64)
    }
}

/// `n` written in decimal, with a minus sign when negative.
pub fn i64_to_dec_string(n: i64) -> (r: String)
    ensures
        r@ == dec_seq_i64(n),
{
    let mut out: Vec<char> = Vec::new();
    if n >= 0 {
        push_dec(n as u64, &mut out);
    } else {
        out.push('-');
        let magnitude: u64 = if n == i64::MIN {
            0x8000_0000_0000_0000u64
        } else {
            (-n) as u64
        };
        push_dec(magnitude, &mut out);
        proof {
            assert(out@ =~= seq!['-'] + dec_seq(magnitude));
        }
    }
    chars_to_string(&out)
}

/// The value of a sequence of decimal digits, most significant first.
pub open spec fn dec_val(s: Seq<char>) -> nat
    decreases s.len(),
{
    if s.len() == 0 {
        0
    } else {
        dec_val(s.drop_last()) * 10 + spec_digit_val(s.last())
    }
}

/// Whether every character of `s` is an ASCII decimal digit.
pub open spec fn all_digits(s: Seq<char>) -> bool {
    forall|i: int| 0 <= i < s.len() ==> spec_is_digit(#[trigger] s[i])
}

/// Parses `s[from..to]` as an unsigned decimal number. Returns `None` when
/// the range is empty, holds a non-digit, or the value exceeds `u64`.
pub fn parse_u64_range(s: &Vec<char>, from: usize, to: usize) -> (r: Option<u64>)
    requires
        from <= to <= s@.len(),
    ensures
        match r {
            Some(v) => all_digits(s@.subrange(from as int, to as int)) && from < to && v
                == dec_val(s@.subrange(from as int, to as int)),
            None => from == to || !all_digits(s@.subrange(from as int, to as int)) || dec_val(
                s@.subrange(from as int, to as int),
            ) > u64::MAX,
        },
{
    if from == to {
        return None;
    }
    let mut acc: u64 = 0;
    let mut i: usize = from;
    while i < to
        invariant
            from <= i <= to <= s@.len(),
            all_digits(s@.subrange(from as int, i as int)),
            acc == dec_val(s@.subrange(from as int, i as int)),
        decreases to - i,
    {
        let c = s[i];
        if !is_digit(c) {
            assert(s@.subrange(from as int, to as int)[i - from] == c);
            return None;
        }
        let d: u64 = (c as u32 - '0' as u32) as u64;
        if acc > (u64::MAX - d) / 10 {
            proof {
                let pre = s@.subrange(from as int, (i + 1) as int);
                assert(pre.drop_last() =~= s@.subrange(from as int, i as int));
                lemma_dec_val_monotone(pre, s@.subrange(from as int, to as int));
            }
            return None;
        }
        proof {
            let pre = s@.subrange(from as int, (i + 1) as int);
            assert(pre.drop_last() =~= s@.subrange(from as int, i as int));
            assert(pre.last() == s@[i as int]);
        }
        acc = acc * 10 + d;
        i = i + 1;
    }
    assert(s@.subrange(from as int, to as int) =~= s@.subrange(from as int, i as int));
    Some(acc)
}

/// A digit string's value only grows as the string is extended.
proof fn lemma_dec_val_monotone(p: Seq<char>, s: Seq<char>)
    requires
        p.len() <= s.len(),
        forall|i: int| 0 <= i < p.len() ==> p[i] == s[i],
    ensures
        dec_val(p) <= dec_val(s),
    decreases s.len(),
{
    if p.len() == s.len() {
        assert(p =~= s);
    } else {
        lemma_dec_val_monotone(p, s.drop_last());
    }
}

} // verus!
