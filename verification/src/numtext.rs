use vstd::prelude::*;

verus! {

/// The character for one decimal digit.
pub open spec fn digit_char(d: int) -> char {
    if d == 0 {
        '0'
    } else if d == 1 {
        '1'
    } else if d == 2 {
        '2'
    } else if d == 3 {
        '3'
    } else if d == 4 {
        '4'
    } else if d == 5 {
        '5'
    } else if d == 6 {
        '6'
    } else if d == 7 {
        '7'
    } else if d == 8 {
        '8'
    } else {
        '9'
    }
}

/// The digit value of a character, if it is a decimal digit.
pub open spec fn char_digit(c: char) -> Option<int> {
    if c == '0' {
        Some(0int)
    } else if c == '1' {
        Some(1int)
    } else if c == '2' {
        Some(2int)
    } else if c == '3' {
        Some(3int)
    } else if c == '4' {
        Some(4int)
    } else if c == '5' {
        Some(5int)
    } else if c == '6' {
        Some(6int)
    } else if c == '7' {
        Some(7int)
    } else if c == '8' {
        Some(8int)
    } else if c == '9' {
        Some(9int)
    } else {
        None
    }
}

/// Decimal representation of a non-negative integer, most significant digit first.
pub open spec fn dec_u(n: int) -> Seq<char>
    decreases n,
{
    if n < 10 {
        seq![digit_char(n)]
    } else {
        dec_u(n / 10) + seq![digit_char(n % 10)]
    }
}

/// Decimal representation of an integer, with a leading minus sign when negative.
pub open spec fn dec_i(n: int) -> Seq<char> {
    if n >= 0 {
        dec_u(n)
    } else {
        seq!['-'] + dec_u(-n)
    }
}

/// Left-to-right accumulation of decimal digits; `None` on a non-digit.
pub open spec fn parse_u_rec(s: Seq<char>, acc: int) -> Option<int>
    decreases s.len(),
{
    if s.len() == 0 {
        Some(acc)
    } else {
        match char_digit(s[0]) {
            None => None,
            Some(d) => parse_u_rec(s.skip(1), acc * 10 + d),
        }
    }
}

/// A non-empty, all-digit sequence as a non-negative integer.
pub open spec fn parse_uint(s: Seq<char>) -> Option<int> {
    if s.len() == 0 {
        None
    } else {
        parse_u_rec(s, 0)
    }
}

/// A decimal integer with an optional leading minus sign.
pub open spec fn parse_int(s: Seq<char>) -> Option<int> {
    if s.len() > 0 && s[0] == '-' {
        match parse_uint(s.skip(1)) {
            Some(m) => Some(-m),
            None => None,
        }
    } else {
        parse_uint(s)
    }
}

pub proof fn lemma_digit_roundtrip(d: int)
    requires
        0 <= d < 10,
    ensures
        char_digit(digit_char(d)) == Some(d),
{
}

pub proof fn lemma_parse_digit_step(c: char, acc: int, d: int)
    requires
        char_digit(c) == Some(d),
    ensures
        parse_u_rec(seq![c], acc) == Some(acc * 10 + d),
{
    assert(seq![c].skip(1) =~= Seq::<char>::empty());
    assert(parse_u_rec(Seq::<char>::empty(), acc * 10 + d) == Some(acc * 10 + d));
}

pub proof fn lemma_parse_u_rec_append(s1: Seq<char>, s2: Seq<char>, acc: int, m: int)
    requires
        parse_u_rec(s1, acc) == Some(m),
    ensures
        parse_u_rec(s1 + s2, acc) == parse_u_rec(s2, m),
    decreases s1.len(),
{
    if s1.len() == 0 {
        assert(s1 + s2 =~= s2);
    } else {
        assert((s1 + s2)[0] == s1[0]);
        assert((s1 + s2).skip(1) =~= s1.skip(1) + s2);
        let d = char_digit(s1[0]).unwrap();
        lemma_parse_u_rec_append(s1.skip(1), s2, acc * 10 + d, m);
    }
}

pub proof fn lemma_parse_u_rec_lower(s: Seq<char>, acc: int, v: int)
    requires
        acc >= 0,
        parse_u_rec(s, acc) == Some(v),
    ensures
        v >= acc,
    decreases s.len(),
{
    if s.len() > 0 {
        let d = char_digit(s[0]).unwrap();
        lemma_parse_u_rec_lower(s.skip(1), acc * 10 + d, v);
    }
}

pub proof fn lemma_dec_u_first_digit(n: int)
    requires
        n >= 0,
    ensures
        dec_u(n).len() >= 1,
        char_digit(dec_u(n)[0]) is Some,
    decreases n,
{
    if n >= 10 {
        lemma_dec_u_first_digit(n / 10);
        assert(dec_u(n)[0] == dec_u(n / 10)[0]);
    }
}

pub proof fn lemma_dec_u_digits_only(n: int)
    requires
        n >= 0,
    ensures
        forall|i: int| 0 <= i < dec_u(n).len() ==> char_digit(#[trigger] dec_u(n)[i]) is Some,
    decreases n,
{
    if n < 10 {
    } else {
        lemma_dec_u_digits_only(n / 10);
        let j = dec_u(n);
        let p = dec_u(n / 10);
        assert forall|i: int| 0 <= i < j.len() implies char_digit(#[trigger] j[i]) is Some by {
            if i < p.len() {
                assert(j[i] == p[i]);
            } else {
                assert(j[i] == digit_char(n % 10));
            }
        }
    }
}

pub proof fn lemma_parse_dec_u(n: int)
    requires
        n >= 0,
    ensures
        parse_u_rec(dec_u(n), 0) == Some(n),
        parse_uint(dec_u(n)) == Some(n),
    decreases n,
{
    lemma_dec_u_first_digit(n);
    if n < 10 {
        lemma_digit_roundtrip(n);
        lemma_parse_digit_step(digit_char(n), 0, n);
    } else {
        lemma_parse_dec_u(n / 10);
        lemma_parse_u_rec_append(dec_u(n / 10), seq![digit_char(n % 10)], 0, n / 10);
        lemma_digit_roundtrip(n % 10);
        lemma_parse_digit_step(digit_char(n % 10), n / 10, n % 10);
        assert((n / 10) * 10 + n % 10 == n) by (nonlinear_arith);
    }
}

/// Rendering an integer and parsing it back yields the same integer.
pub proof fn lemma_parse_dec_i(n: int)
    ensures
        parse_int(dec_i(n)) == Some(n),
{
    if n >= 0 {
        lemma_parse_dec_u(n);
        lemma_dec_u_first_digit(n);
    } else {
        lemma_parse_dec_u(-n);
        lemma_dec_u_first_digit(-n);
        assert(dec_i(n)[0] == '-');
        assert(dec_i(n).skip(1) =~= dec_u(-n));
    }
}

fn digit_str(d: u32) -> (r: &'static str)
    requires
        d < 10,
    ensures
        r@ == seq![digit_char(d as int)],
{
    proof {
        reveal_strlit("0");
        reveal_strlit("1");
        reveal_strlit("2");
        reveal_strlit("3");
        reveal_strlit("4");
        reveal_strlit("5");
        reveal_strlit("6");
        reveal_strlit("7");
        reveal_strlit("8");
        reveal_strlit("9");
    }
    let r = if d == 0 {
        "0"
    } else if d == 1 {
        "1"
    } else if d == 2 {
        "2"
    } else if d == 3 {
        "3"
    } else if d == 4 {
        "4"
    } else if d == 5 {
        "5"
    } else if d == 6 {
        "6"
    } else if d == 7 {
        "7"
    } else if d == 8 {
        "8"
    } else {
        "9"
    };
    proof {
        assert(r@ =~= seq![digit_char(d as int)]);
    }
    r
}

/// A `u32` in decimal.
pub fn u32_dec(n: u32) -> (s: String)
    ensures
        s@ == dec_u(n as int),
    decreases n,
{
    if n < 10 {
        let mut s = String::new();
        s.append(digit_str(n));
        proof {
            assert(s@ =~= seq![digit_char(n as int)]);
        }
        s
    } else {
        let mut s = u32_dec(n / 10);
        s.append(digit_str(n % 10));
        proof {
            assert(s@ =~= dec_u((n / 10) as int) + seq![digit_char((n % 10) as int)]);
        }
        s
    }
}

/// An `i32` in decimal, with a minus sign when negative.
pub fn i32_dec(n: i32) -> (s: String)
    ensures
        s@ == dec_i(n as int),
{
    if n >= 0 {
        u32_dec(n as u32)
    } else {
        let m64: i64 = -(n as i64);
        let mag: u32 = m64 as u32;
        let mut s = String::new();
        proof {
            reveal_strlit("-");
        }
        s.append("-");
        let digits = u32_dec(mag);
        s.append(digits.as_str());
        proof {
            assert(s@ =~= seq!['-'] + dec_u(mag as int));
        }
        s
    }
}

/// Zero-padding on the left to a minimum width.
pub open spec fn pad_zeros(s: Seq<char>, w: int) -> Seq<char>
    decreases w - s.len(),
{
    if s.len() >= w || w <= 0 {
        s
    } else {
        pad_zeros(seq!['0'] + s, w)
    }
}

/// A year as at least four characters, sign first, zero-padded.
pub open spec fn year_text(y: int) -> Seq<char> {
    if y >= 0 {
        pad_zeros(dec_u(y), 4)
    } else {
        seq!['-'] + pad_zeros(dec_u(-y), 3)
    }
}

/// A month as exactly two characters for values 1 to 12.
pub open spec fn month_text(m: int) -> Seq<char> {
    pad_zeros(dec_u(m), 2)
}

fn pad_str(digits: String, w: usize) -> (s: String)
    requires
        w <= 4,
    ensures
        s@ == pad_zeros(digits@, w as int),
{
    let n = digits.as_str().unicode_len();
    if n >= w {
        return digits;
    }
    let mut s = String::new();
    let mut k = w - n;
    proof {
        reveal_strlit("0");
    }
    while k > 0
        invariant
            k <= w,
            w <= 4,
            n == digits@.len(),
            n < w,
            s@.len() == w - n - k,
            forall|i: int| 0 <= i < s@.len() ==> s@[i] == '0',
            "0"@ == seq!['0'],
        decreases k,
    {
        s.append("0");
        k = k - 1;
    }
    s.append(digits.as_str());
    proof {
        lemma_pad_zeros_shape(digits@, w as int);
    }
    s
}

proof fn lemma_pad_zeros_shape(s: Seq<char>, w: int)
    ensures
        s.len() >= w ==> pad_zeros(s, w) == s,
        s.len() < w ==> {
            let p = pad_zeros(s, w);
            &&& p.len() == w
            &&& (forall|i: int| 0 <= i < w - s.len() ==> p[i] == '0')
            &&& (forall|i: int| w - s.len() <= i < w ==> p[i] == s[i - (w - s.len())])
        },
    decreases w - s.len(),
{
    if s.len() < w && w > 0 {
        lemma_pad_zeros_shape(seq!['0'] + s, w);
    }
}

/// The year part of an archive directory.
pub fn year_string(y: i32) -> (s: String)
    ensures
        s@ == year_text(y as int),
{
    if y >= 0 {
        let d = u32_dec(y as u32);
        let p = pad_str(d, 4);
        proof {
            assert(p@ =~= year_text(y as int));
        }
        p
    } else {
        let m64: i64 = -(y as i64);
        let mag: u32 = m64 as u32;
        let d = u32_dec(mag);
        let p = pad_str(d, 3);
        let mut s = String::new();
        proof {
            reveal_strlit("-");
        }
        s.append("-");
        s.append(p.as_str());
        proof {
            assert(s@ =~= seq!['-'] + pad_zeros(dec_u(mag as int), 3));
        }
        s
    }
}

/// The month part of an archive directory.
pub fn month_string(m: u32) -> (s: String)
    ensures
        s@ == month_text(m as int),
{
    let d = u32_dec(m);
    let p = pad_str(d, 2);
    proof {
        assert(p@ =~= month_text(m as int));
    }
    p
}

/// Parses a decimal integer that fits in `i64`; mirrors `parse_int` exactly,
/// answering `None` also when the value lies outside the `i64` range.
pub fn parse_i64_str(s: &str) -> (r: Option<i64>)
    ensures
        match r {
            Some(v) => parse_int(s@) == Some(v as int),
            None => parse_int(s@) is None || (match parse_int(s@) {
                Some(v) => v < i64::MIN || v > i64::MAX,
                None => false,
            }),
        },
{
    match parse_mag(s) {
        None => None,
        Some((neg, mag)) => {
            if neg {
                if mag > 9223372036854775808u128 {
                    None
                } else if mag == 9223372036854775808u128 {
                    Some(i64::MIN)
                } else {
                    Some(-(mag as i64))
                }
            } else {
                if mag > i64::MAX as u128 {
                    None
                } else {
                    Some(mag as i64)
                }
            }
        },
    }
}

/// Parses a decimal integer that fits in `i32`; `None` outside the range.
pub fn parse_i32_str(s: &str) -> (r: Option<i32>)
    ensures
        match r {
            Some(v) => parse_int(s@) == Some(v as int),
            None => parse_int(s@) is None || (match parse_int(s@) {
                Some(v) => v < i32::MIN || v > i32::MAX,
                None => false,
            }),
        },
{
    match parse_mag(s) {
        None => None,
        Some((neg, mag)) => {
            if neg {
                if mag > 2147483648u128 {
                    None
                } else if mag == 2147483648u128 {
                    Some(i32::MIN)
                } else {
                    Some(-(mag as i32))
                }
            } else {
                if mag > i32::MAX as u128 {
                    None
                } else {
                    Some(mag as i32)
                }
            }
        },
    }
}

/// Sign and magnitude of a decimal string; the magnitude is exact up to
/// 2^64 and saturates above it, in which case `None` is returned by the
/// range checks of the callers anyway.
fn parse_mag(s: &str) -> (r: Option<(bool, u128)>)
    ensures
        match r {
            Some((neg, mag)) => {
                &&& (mag <= 0xFFFF_FFFF_FFFF_FFFFu128 ==> parse_int(s@) == Some(
                    if neg {
                        -(mag as int)
                    } else {
                        mag as int
                    },
                ))
                &&& (mag > 0xFFFF_FFFF_FFFF_FFFFu128 ==> (match parse_int(s@) {
                    Some(v) => v > 0xFFFF_FFFF_FFFF_FFFF || v < -0xFFFF_FFFF_FFFF_FFFF,
                    None => false,
                }))
            },
            None => parse_int(s@) is None,
        },
{
    let n = s.unicode_len();
    if n == 0 {
        return None;
    }
    let neg = s.get_char(0) == '-';
    let d0: usize = if neg {
        1
    } else {
        0
    };
    if n == d0 {
        // a bare minus sign has no digits
        proof {
            assert(s@.skip(1).len() == 0);
        }
        return None;
    }
    let ghost digits: Seq<char> = s@.skip(d0 as int);
    let mut i: usize = d0;
    let mut acc: u128 = 0;
    let mut sat: bool = false;
    proof {
        assert(s@.subrange(d0 as int, d0 as int) =~= Seq::<char>::empty());
    }
    while i < n
        invariant
            d0 <= i <= n,
            d0 <= 1,
            n == s@.len(),
            n > d0,
            neg ==> s@[0] == '-' && d0 == 1,
            !neg ==> s@[0] != '-' && d0 == 0,
            digits == s@.skip(d0 as int),
            !sat ==> acc <= 0xFFFF_FFFF_FFFF_FFFFu128 && parse_u_rec(
                s@.subrange(d0 as int, i as int),
                0,
            ) == Some(acc as int),
            sat ==> acc == 0x1_0000_0000_0000_0000u128 && (match parse_u_rec(
                s@.subrange(d0 as int, i as int),
                0,
            ) {
                Some(m) => m > 0xFFFF_FFFF_FFFF_FFFF,
                None => false,
            }),
        decreases n - i,
    {
        let c = s.get_char(i);
        let d: u128 = match c {
            '0' => 0,
            '1' => 1,
            '2' => 2,
            '3' => 3,
            '4' => 4,
            '5' => 5,
            '6' => 6,
            '7' => 7,
            '8' => 8,
            '9' => 9,
            _ => {
                proof {
                    let pre = s@.subrange(d0 as int, i as int);
                    let rest = s@.subrange(i as int, n as int);
                    let mval = parse_u_rec(pre, 0).unwrap();
                    assert(pre + rest =~= digits);
                    lemma_parse_u_rec_append(pre, rest, 0, mval);
                    assert(rest[0] == c);
                    assert(char_digit(c) is None);
                    assert(s@.skip(0) =~= s@);
                    if d0 == 1 {
                        assert(s@[0] == '-');
                    }
                }
                return None;
            },
        };
        proof {
            let pre = s@.subrange(d0 as int, i as int);
            let step = s@.subrange(d0 as int, i + 1);
            let mval = parse_u_rec(pre, 0).unwrap();
            assert(step =~= pre + seq![s@[i as int]]);
            lemma_parse_u_rec_append(pre, seq![s@[i as int]], 0, mval);
            assert(char_digit(s@[i as int]) == Some(d as int));
            lemma_parse_digit_step(s@[i as int], mval, d as int);
            assert(parse_u_rec(step, 0) == Some(mval * 10 + d));
        }
        if sat {
            // the magnitude can only grow with more digits
        } else {
            acc = acc * 10 + d;
            if acc > 0xFFFF_FFFF_FFFF_FFFFu128 {
                sat = true;
                acc = 0x1_0000_0000_0000_0000u128;
            }
        }
        i = i + 1;
    }
    proof {
        assert(s@.subrange(d0 as int, n as int) =~= digits);
        assert(s@.skip(0) =~= s@);
        if d0 == 1 {
            assert(s@[0] == '-');
        } else {
            assert(s@[0] != '-');
        }
    }
    Some((neg, acc))
}

} // verus!
