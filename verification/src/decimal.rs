//! Whole numbers as decimal text, read and written.

use vstd::prelude::*;
use vstd::string::*;

verus! {

/// An ASCII digit.
pub open spec fn is_digit(b: u8) -> bool {
    48 <= b && b <= 57
}

/// The number that a row of digits denotes; leading zeros count for nothing
/// and the empty row denotes zero.
pub open spec fn magnitude(digits: Seq<u8>) -> nat
    decreases digits.len(),
{
    if digits.len() == 0 {
        0
    } else {
        (magnitude(digits.drop_last()) * 10 + (digits.last() - 48)) as nat
    }
}

/// The number of sign bytes that `s` starts with: one for a `+` or `-`.
pub open spec fn sign_len(s: Seq<u8>) -> int {
    if s.len() > 0 && (s[0] == 43 || s[0] == 45) {
        1
    } else {
        0
    }
}

/// `s` is number text: an optional sign, then one digit or more and
/// nothing else. A sign alone is no number.
pub open spec fn is_number(s: Seq<u8>) -> bool {
    &&& sign_len(s) < s.len()
    &&& forall|i: int| sign_len(s) <= i < s.len() ==> is_digit(#[trigger] s[i])
}

/// The number that number text denotes.
pub open spec fn number_value(s: Seq<u8>) -> int {
    let m = magnitude(s.subrange(sign_len(s), s.len() as int));
    if s.len() > 0 && s[0] == 45 {
        -m
    } else {
        m as int
    }
}

/// What `s` reads as within the bounds `lo` to `hi`: its value where it is
/// number text and the value lies within them.
pub open spec fn number_within(s: Seq<u8>, lo: int, hi: int) -> Option<int> {
    if is_number(s) && lo <= number_value(s) <= hi {
        Some(number_value(s))
    } else {
        None
    }
}

/// More digits never denote less.
proof fn lemma_magnitude_grows(digits: Seq<u8>, k: int)
    requires
        0 <= k <= digits.len(),
        forall|i: int| 0 <= i < digits.len() ==> is_digit(#[trigger] digits[i]),
    ensures
        magnitude(digits.subrange(0, k)) <= magnitude(digits),
    decreases digits.len() - k,
{
    if k == digits.len() {
        assert(digits.subrange(0, k) =~= digits);
    } else {
        let longer = digits.subrange(0, k + 1);
        assert(longer.drop_last() =~= digits.subrange(0, k));
        assert(longer.last() == digits[k]);
        lemma_magnitude_grows(digits, k + 1);
    }
}

/// The magnitude of the digits of `bytes` from `from` on, where they are all
/// digits and denote at most `limit`.
fn read_magnitude(bytes: &[u8], from: usize, limit: u64) -> (res: Option<u64>)
    requires
        from <= bytes.len(),
        limit <= 0x8000_0000_0000_0000,
    ensures
        ({
            let digits = bytes@.subrange(from as int, bytes.len() as int);
            let all = forall|i: int| from <= i < bytes.len() ==> is_digit(#[trigger] bytes@[i]);
            match res {
                Some(m) => all && m == magnitude(digits) && m <= limit,
                None => !all || magnitude(digits) > limit,
            }
        }),
{
    let ghost digits = bytes@.subrange(from as int, bytes.len() as int);
    let mut acc: u64 = 0;
    let mut i: usize = from;
    while i < bytes.len()
        invariant
            from <= i <= bytes.len(),
            limit <= 0x8000_0000_0000_0000,
            digits == bytes@.subrange(from as int, bytes.len() as int),
            forall|j: int| from <= j < i ==> is_digit(#[trigger] bytes@[j]),
            acc == magnitude(digits.subrange(0, i - from)),
            acc <= limit,
        decreases bytes.len() - i,
    {
        let b = bytes[i];
        if b < 48 || b > 57 {
            return None;
        }
        let wide: u128 = (acc as u128) * 10 + ((b - 48) as u128);
        proof {
            let longer = digits.subrange(0, i + 1 - from);
            assert(longer.drop_last() =~= digits.subrange(0, i - from));
            assert(longer.last() == b);
            assert(wide == magnitude(longer));
            if wide > limit {
                if forall|j: int| from <= j < bytes.len() ==> is_digit(#[trigger] bytes@[j]) {
                    assert forall|j: int| 0 <= j < digits.len() implies is_digit(
                        #[trigger] digits[j],
                    ) by {
                        assert(digits[j] == bytes@[from + j]);
                    }
                    lemma_magnitude_grows(digits, i + 1 - from);
                }
            }
        }
        if wide > limit as u128 {
            return None;
        }
        acc = wide as u64;
        i += 1;
    }
    assert(digits.subrange(0, i - from) =~= digits);
    Some(acc)
}

/// Reads number text as a 64-bit number.
pub fn read_i64(text: &str) -> (res: Option<i64>)
    ensures
        match res {
            Some(v) => number_within(text.spec_bytes(), i64::MIN as int, i64::MAX as int)
                == Some(v as int),
            None => number_within(text.spec_bytes(), i64::MIN as int, i64::MAX as int) is None,
        },
{
    let bytes = text.as_bytes();
    if bytes.len() == 0 {
        return None;
    }
    let negative = bytes[0] == 45;
    let from: usize = if bytes[0] == 43 || bytes[0] == 45 {
        1
    } else {
        0
    };
    if from == bytes.len() {
        return None;
    }
    let limit: u64 = if negative {
        0x8000_0000_0000_0000
    } else {
        0x7fff_ffff_ffff_ffff
    };
    match read_magnitude(bytes, from, limit) {
        None => None,
        Some(m) => {
            if negative {
                if m == 0x8000_0000_0000_0000 {
                    Some(i64::MIN)
                } else {
                    Some(-(m as i64))
                }
            } else {
                Some(m as i64)
            }
        },
    }
}

/// Reads number text as a 32-bit number.
pub fn read_i32(text: &str) -> (res: Option<i32>)
    ensures
        match res {
            Some(v) => number_within(text.spec_bytes(), i32::MIN as int, i32::MAX as int)
                == Some(v as int),
            None => number_within(text.spec_bytes(), i32::MIN as int, i32::MAX as int) is None,
        },
{
    match read_i64(text) {
        None => None,
        Some(v) => {
            if -0x8000_0000 <= v && v <= 0x7fff_ffff {
                Some(v as i32)
            } else {
                None
            }
        },
    }
}

/// The character for a digit's value.
pub open spec fn digit_char(d: int) -> char {
    if d == 0 {
        '0'
    } else if d == 1 {
        '1'
    } else if d == 2 {
        '2'
    } else if d == 3 {
        '3'
    } else if d == 4 {
        '4'
    } else if d == 5 {
        '5'
    } else if d == 6 {
        '6'
    } else if d == 7 {
        '7'
    } else if d == 8 {
        '8'
    } else {
        '9'
    }
}

/// The digits of `n` in decimal, most significant first, without leading
/// zeros; zero is written `0`.
pub open spec fn decimal_digits(n: nat) -> Seq<char>
    decreases n,
{
    if n < 10 {
        seq![digit_char(n as int)]
    } else {
        decimal_digits(n / 10).push(digit_char((n % 10) as int))
    }
}

/// `v` in decimal, with a `-` before a negative number.
pub open spec fn decimal_text(v: int) -> Seq<char> {
    if v < 0 {
        seq!['-'] + decimal_digits((-v) as nat)
    } else {
        decimal_digits(v as nat)
    }
}

/// The text of one digit.
fn digit_text(d: u64) -> (res: &'static str)
    requires
        d < 10,
    ensures
        res@ == seq![digit_char(d as int)],
{
    proof {
        reveal_strlit("0");
        reveal_strlit("1");
        reveal_strlit("2");
        reveal_strlit("3");
        reveal_strlit("4");
        reveal_strlit("5");
        reveal_strlit("6");
        reveal_strlit("7");
        reveal_strlit("8");
        reveal_strlit("9");
    }
    let res = if d == 0 {
        "0"
    } else if d == 1 {
        "1"
    } else if d == 2 {
        "2"
    } else if d == 3 {
        "3"
    } else if d == 4 {
        "4"
    } else if d == 5 {
        "5"
    } else if d == 6 {
        "6"
    } else if d == 7 {
        "7"
    } else if d == 8 {
        "8"
    } else {
        "9"
    };
    assert(res@ =~= seq![digit_char(d as int)]);
    res
}

/// Appends the digits of `n` to `out`.
fn write_digits(out: &mut String, n: u64)
    ensures
        final(out)@ == old(out)@ + decimal_digits(n as nat),
    decreases n,
{
    if n >= 10 {
        write_digits(out, n / 10);
    }
    out.append(digit_text(n % 10));
    assert(out@ =~= old(out)@ + decimal_digits(n as nat));
}

/// Appends `v` in decimal to `out`.
pub fn write_i64(out: &mut String, v: i64)
    ensures
        final(out)@ == old(out)@ + decimal_text(v as int),
{
    if v < 0 {
        proof {
            reveal_strlit("-");
        }
        out.append("-");
        let m: u64 = if v == i64::MIN {
            0x8000_0000_0000_0000
        } else {
            (-v) as u64
        };
        write_digits(out, m);
        assert(out@ =~= old(out)@ + decimal_text(v as int));
    } else {
        write_digits(out, v as u64);
    }
}

/// Decimal text is not empty and begins with a digit or with `-`.
pub proof fn lemma_decimal_begins(v: int)
    ensures
        decimal_text(v).len() > 0,
        decimal_text(v)[0] == '-' || ('0' <= decimal_text(v)[0] && decimal_text(v)[0] <= '9'),
{
    if v >= 0 {
        lemma_digits_begin(v as nat);
    }
}

proof fn lemma_digits_begin(n: nat)
    ensures
        decimal_digits(n).len() > 0,
        '0' <= decimal_digits(n)[0] && decimal_digits(n)[0] <= '9',
    decreases n,
{
    if n >= 10 {
        lemma_digits_begin(n / 10);
    }
}

} // verus!
