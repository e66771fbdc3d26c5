//! Text helpers shared by the phases: viewing ASCII bytes as characters,
//! rendering integers in decimal, and reading a digit run as a 32-bit
//! signed value.

use vstd::prelude::*;
use vstd::string::StringExecFns;

verus! {

/// View of a byte sequence as characters, one character per byte.
pub open spec fn chars_of_bytes(s: Seq<u8>) -> Seq<char> {
    s.map_values(|b: u8| b as char)
}

/// Relies on std's `String::from_utf8`: bytes below 128 decode to the
/// characters with the same code points.
#[verifier::external_body]
pub(crate) fn ascii_string(bytes: &Vec<u8>) -> (r: String)
    requires
        forall|i: int| 0 <= i < bytes@.len() ==> bytes@[i] < 128,
    ensures
        r@ == chars_of_bytes(bytes@),
{
    String::from_utf8(bytes.clone()).unwrap_or_default()
}

/// A copy of the bytes of `code` in the span `[start, start + length)`.
pub(crate) fn bytes_of_span(code: &Vec<u8>, start: usize, length: usize) -> (r: Vec<u8>)
    requires
        start + length <= code@.len(),
    ensures
        r@ == code@.subrange(start as int, start + length),
{
    let mut v: Vec<u8> = Vec::new();
    let n: usize = code.len();
    let end: usize = start + length;
    let mut i: usize = start;
    while i < end
        invariant
            start <= i <= end,
            end == start + length,
            end <= n == code@.len(),
            v@ == code@.subrange(start as int, i as int),
        decreases end - i,
    {
        v.push(code[i]);
        proof {
            assert(v@ =~= code@.subrange(start as int, i + 1));
        }
        i = i + 1;
    }
    v
}

/// Whether every byte of the span `[start, start + length)` is ASCII.
pub(crate) fn span_is_ascii(code: &Vec<u8>, start: usize, length: usize) -> (r: bool)
    requires
        start + length <= code@.len(),
    ensures
        r == forall|i: int| start <= i < start + length ==> #[trigger] code@[i] < 128,
{
    let n: usize = code.len();
    let end: usize = start + length;
    let mut i: usize = start;
    while i < end
        invariant
            start <= i <= end,
            end == start + length,
            end <= n == code@.len(),
            forall|j: int| start <= j < i ==> #[trigger] code@[j] < 128,
        decreases end - i,
    {
        if code[i] >= 128 {
            return false;
        }
        i = i + 1;
    }
    true
}

/// The character for one decimal digit value.
pub open spec fn spec_digit_char(d: int) -> char {
    if d == 0 {
        '0'
    } else if d == 1 {
        '1'
    } else if d == 2 {
        '2'
    } else if d == 3 {
        '3'
    } else if d == 4 {
        '4'
    } else if d == 5 {
        '5'
    } else if d == 6 {
        '6'
    } else if d == 7 {
        '7'
    } else if d == 8 {
        '8'
    } else {
        '9'
    }
}

/// The decimal digits of a non-negative value, most significant first.
pub open spec fn spec_dec_digits(n: nat) -> Seq<char>
    decreases n,
{
    if n < 10 {
        seq![spec_digit_char(n as int)]
    } else {
        spec_dec_digits(n / 10).push(spec_digit_char((n % 10) as int))
    }
}

/// The decimal rendering of a value, with a leading minus sign when it
/// is negative.
pub open spec fn spec_int_dec(v: int) -> Seq<char> {
    if v < 0 {
        seq!['-'] + spec_dec_digits((-v) as nat)
    } else {
        spec_dec_digits(v as nat)
    }
}

fn digit_str(d: u64) -> (r: &'static str)
    requires
        d < 10,
    ensures
        r@ == seq![spec_digit_char(d as int)],
{
    proof {
        reveal_strlit("0");
        reveal_strlit("1");
        reveal_strlit("2");
        reveal_strlit("3");
        reveal_strlit("4");
        reveal_strlit("5");
        reveal_strlit("6");
        reveal_strlit("7");
        reveal_strlit("8");
        reveal_strlit("9");
    }
    match d {
        0 => "0",
        1 => "1",
        2 => "2",
        3 => "3",
        4 => "4",
        5 => "5",
        6 => "6",
        7 => "7",
        8 => "8",
        _ => "9",
    }
}

/// Renders `n` in decimal.
pub fn u64_to_string(n: u64) -> (s: String)
    ensures
        s@ == spec_dec_digits(n as nat),
    decreases n,
{
    if n < 10 {
        digit_str(n).to_owned()
    } else {
        let mut s = u64_to_string(n / 10);
        s.append(digit_str(n % 10));
        proof {
            assert(s@ =~= spec_dec_digits((n / 10) as nat).push(spec_digit_char(n as int % 10)));
        }
        s
    }
}

/// Renders `v` in decimal, with a minus sign when it is negative.
pub fn i32_to_string(v: i32) -> (s: String)
    ensures
        s@ == spec_int_dec(v as int),
{
    if v >= 0 {
        u64_to_string(v as u64)
    } else {
        let m: i64 = -(v as i64);
        let mut s = "-".to_owned();
        s.append(u64_to_string(m as u64).as_str());
        proof {
            reveal_strlit("-");
            assert(s@ =~= seq!['-'] + spec_dec_digits((-(v as int)) as nat));
        }
        s
    }
}

/// The numeric value of a run of decimal digit bytes, read left to right.
pub open spec fn spec_digits_val(s: Seq<u8>) -> int
    decreases s.len(),
{
    if s.len() == 0 {
        0
    } else {
        spec_digits_val(s.drop_last()) * 10 + s.last() - 48
    }
}

/// A digit run's value is non-negative.
pub proof fn lemma_digits_val_nonneg(s: Seq<u8>)
    requires
        forall|i: int| 0 <= i < s.len() ==> 48 <= #[trigger] s[i] <= 57,
    ensures
        spec_digits_val(s) >= 0,
    decreases s.len(),
{
    if s.len() > 0 {
        lemma_digits_val_nonneg(s.drop_last());
    }
}

/// Reads a digit run as an `i32`: the value when it fits, `None` when it
/// exceeds `i32::MAX` (the run carries no sign, so no value is negative).
pub fn parse_i32_digits(digits: &Vec<u8>) -> (r: Option<i32>)
    requires
        digits@.len() >= 1,
        forall|i: int| 0 <= i < digits@.len() ==> 48 <= #[trigger] digits@[i] <= 57,
    ensures
        match r {
            Some(v) => v as int == spec_digits_val(digits@) && spec_digits_val(digits@)
                <= i32::MAX,
            None => spec_digits_val(digits@) > i32::MAX,
        },
{
    let mut acc: u64 = 0;
    let mut overflow: bool = false;
    let mut i: usize = 0;
    while i < digits.len()
        invariant
            0 <= i <= digits@.len(),
            forall|j: int| 0 <= j < digits@.len() ==> 48 <= #[trigger] digits@[j] <= 57,
            !overflow ==> acc as int == spec_digits_val(digits@.take(i as int)) && acc
                <= i32::MAX,
            overflow ==> spec_digits_val(digits@.take(i as int)) > i32::MAX,
        decreases digits@.len() - i,
    {
        let d: u64 = (digits[i] - 48) as u64;
        proof {
            assert(digits@.take(i as int + 1).drop_last() =~= digits@.take(i as int));
            assert(digits@.take(i as int + 1).last() == digits@[i as int]);
        }
        if !overflow {
            acc = acc * 10 + d;
            if acc > i32::MAX as u64 {
                overflow = true;
            }
        } else {
            proof {
                let pre = digits@.take(i as int);
                lemma_digits_val_nonneg(pre);
                assert(spec_digits_val(digits@.take(i as int + 1)) == spec_digits_val(pre) * 10
                    + digits@[i as int] - 48);
                assert(spec_digits_val(pre) * 10 >= spec_digits_val(pre));
            }
        }
        i = i + 1;
    }
    proof {
        assert(digits@.take(digits@.len() as int) =~= digits@);
    }
    if overflow {
        None
    } else {
        Some(acc as i32)
    }
}

} // verus!
