//! Character-level building blocks: hex digits, zero-padded hex labels,
//! decimal numerals, and small verified string utilities.

use vstd::prelude::*;
use vstd::string::StrSliceExecFns;

verus! {

/// The lowercase hex digit for a value below sixteen.
pub open spec fn hex_digit_char(v: nat) -> char
    recommends
        v < 16,
{
    if v == 0 {
        '0'
    } else if v == 1 {
        '1'
    } else if v == 2 {
        '2'
    } else if v == 3 {
        '3'
    } else if v == 4 {
        '4'
    } else if v == 5 {
        '5'
    } else if v == 6 {
        '6'
    } else if v == 7 {
        '7'
    } else if v == 8 {
        '8'
    } else if v == 9 {
        '9'
    } else if v == 10 {
        'a'
    } else if v == 11 {
        'b'
    } else if v == 12 {
        'c'
    } else if v == 13 {
        'd'
    } else if v == 14 {
        'e'
    } else {
        'f'
    }
}

/// A byte as two lowercase hex digits.
pub open spec fn byte_hex_chars(b: u8) -> Seq<char> {
    seq![hex_digit_char((b / 16) as nat), hex_digit_char((b % 16) as nat)]
}

/// The lowercase hex numeral of `n`, zero-padded on the left to at least
/// `min_width` digits (more digits appear when `n` needs them).
pub open spec fn hex_label(n: nat, min_width: nat) -> Seq<char>
    decreases n, min_width,
{
    if n < 16 && min_width <= 1 {
        seq![hex_digit_char(n)]
    } else {
        hex_label(n / 16, if min_width == 0 {
            0
        } else {
            (min_width - 1) as nat
        }) + seq![hex_digit_char(n % 16)]
    }
}

/// The decimal numeral of `n`, most significant digit first.  Digits zero
/// to nine coincide with the low hex digits.
pub open spec fn dec_digits(n: nat) -> Seq<char>
    decreases n,
{
    if n < 10 {
        seq![hex_digit_char(n)]
    } else {
        dec_digits(n / 10) + seq![hex_digit_char(n % 10)]
    }
}

/// Appends one character to a string.
///
/// Relies on `String::push`: it appends exactly the given character.
#[verifier::external_body]
pub(crate) fn push_char(s: &mut String, c: char)
    ensures
        final(s)@ == old(s)@.push(c),
{
    s.push(c);
}

/// The lowercase hex digit character for a value below sixteen.
pub fn hex_char_of(v: u8) -> (c: char)
    requires
        v < 16,
    ensures
        c == hex_digit_char(v as nat),
{
    if v == 0 {
        '0'
    } else if v == 1 {
        '1'
    } else if v == 2 {
        '2'
    } else if v == 3 {
        '3'
    } else if v == 4 {
        '4'
    } else if v == 5 {
        '5'
    } else if v == 6 {
        '6'
    } else if v == 7 {
        '7'
    } else if v == 8 {
        '8'
    } else if v == 9 {
        '9'
    } else if v == 10 {
        'a'
    } else if v == 11 {
        'b'
    } else if v == 12 {
        'c'
    } else if v == 13 {
        'd'
    } else if v == 14 {
        'e'
    } else {
        'f'
    }
}

/// Appends the two hex digits of a byte.
pub fn push_hex_byte(out: &mut String, b: u8)
    ensures
        final(out)@ == old(out)@ + byte_hex_chars(b),
{
    let hi = hex_char_of(b / 16);
    push_char(out, hi);
    let lo = hex_char_of(b % 16);
    push_char(out, lo);
    assert(out@ =~= old(out)@ + byte_hex_chars(b));
}

/// Appends the hex numeral of `n`, zero-padded to at least `min_width` digits.
pub fn push_hex_label(out: &mut String, n: u64, min_width: usize)
    ensures
        final(out)@ == old(out)@ + hex_label(n as nat, min_width as nat),
    decreases n, min_width,
{
    if n < 16 && min_width <= 1 {
        let c = hex_char_of(n as u8);
        push_char(out, c);
        assert(out@ =~= old(out)@ + hex_label(n as nat, min_width as nat));
    } else {
        let next_width: usize = if min_width == 0 {
            0
        } else {
            min_width - 1
        };
        push_hex_label(out, n / 16, next_width);
        let c = hex_char_of((n % 16) as u8);
        push_char(out, c);
        assert(out@ =~= old(out)@ + hex_label(n as nat, min_width as nat));
    }
}

/// Whether a character is a decimal digit.
pub open spec fn is_dec_digit(c: char) -> bool {
    48 <= c as u32 <= 57
}

/// The value of a decimal digit character.
pub open spec fn digit_val(c: char) -> nat
    recommends
        is_dec_digit(c),
{
    (c as u32 - 48) as nat
}

/// Whether every character of `s` is a decimal digit.
pub open spec fn all_dec_digits(s: Seq<char>) -> bool {
    forall|i: int| 0 <= i < s.len() ==> is_dec_digit(s[i])
}

/// The value of a string of decimal digits, most significant first.
pub open spec fn dec_val(s: Seq<char>) -> nat
    recommends
        all_dec_digits(s),
    decreases s.len(),
{
    if s.len() == 0 {
        0
    } else {
        dec_val(s.drop_last()) * 10 + digit_val(s.last())
    }
}

/// The digits of a numeral: an optional leading `+` sign is dropped.
pub open spec fn numeral_digits(s: Seq<char>) -> Seq<char> {
    if s.len() > 0 && s[0] == '+' {
        s.skip(1)
    } else {
        s
    }
}

/// Whether `s` is a decimal numeral: at least one digit after an optional
/// leading `+` sign, and nothing else.
pub open spec fn is_numeral(s: Seq<char>) -> bool {
    numeral_digits(s).len() >= 1 && all_dec_digits(numeral_digits(s))
}

/// The value of a numeral.
pub open spec fn numeral_val(s: Seq<char>) -> nat
    recommends
        is_numeral(s),
{
    dec_val(numeral_digits(s))
}

/// Whether `s` is a numeral whose value fits in a `u64`.
pub open spec fn fits_u64(s: Seq<char>) -> bool {
    is_numeral(s) && numeral_val(s) <= u64::MAX
}

/// Whether `s` is a numeral whose value fits in a `usize`.
pub open spec fn fits_usize(s: Seq<char>) -> bool {
    is_numeral(s) && numeral_val(s) <= usize::MAX
}

/// The value of a digit string never shrinks when more digits follow.
pub proof fn lemma_dec_val_prefix(s: Seq<char>, j: int)
    requires
        0 <= j <= s.len(),
    ensures
        dec_val(s.take(j)) <= dec_val(s),
    decreases s.len(),
{
    if j == s.len() {
        assert(s.take(j) =~= s);
    } else {
        assert(s.take(j) =~= s.drop_last().take(j));
        lemma_dec_val_prefix(s.drop_last(), j);
    }
}

/// Whether two string slices hold the same characters.
pub fn str_eq(a: &str, b: &str) -> (r: bool)
    ensures
        r == (a@ == b@),
{
    let an = a.unicode_len();
    let bn = b.unicode_len();
    if an != bn {
        return false;
    }
    let mut k: usize = 0;
    while k < an
        invariant
            k <= an,
            an == a@.len(),
            an == b@.len(),
            forall|t: int| 0 <= t < k ==> a@[t] == b@[t],
        decreases an - k,
    {
        let ca = a.get_char(k);
        let cb = b.get_char(k);
        if ca != cb {
            return false;
        }
        k = k + 1;
    }
    proof {
        assert(a@ =~= b@);
    }
    true
}

/// Parses a decimal numeral (an optional `+` sign, then digits) into a
/// `u64`.  Returns `None` exactly when the string is not such a numeral or
/// its value does not fit.
pub fn parse_u64(s: &str) -> (r: Option<u64>)
    ensures
        r is Some <==> fits_u64(s@),
        r is Some ==> r->Some_0 == numeral_val(s@),
{
    let n = s.unicode_len();
    let mut i: usize = 0;
    if n > 0 && s.get_char(0) == '+' {
        i = 1;
    }
    if i >= n {
        return None;
    }
    let ghost d = numeral_digits(s@);
    proof {
        assert(d.len() == n - i);
        assert(forall|k: int| 0 <= k < d.len() ==> d[k] == s@[k + i]);
    }
    let mut acc: u64 = 0;
    let mut j: usize = i;
    proof {
        assert(d.take(0) =~= Seq::<char>::empty());
    }
    while j < n
        invariant
            i <= j <= n,
            n == s@.len(),
            d == numeral_digits(s@),
            d.len() == n - i,
            forall|k: int| 0 <= k < d.len() ==> d[k] == s@[k + i],
            all_dec_digits(d.take(j - i)),
            acc == dec_val(d.take(j - i)),
        decreases n - j,
    {
        let c = s.get_char(j);
        let u = c as u32;
        if u < 48 || u > 57 {
            proof {
                assert(!is_dec_digit(d[j - i]));
            }
            return None;
        }
        let dv: u64 = (u - 48) as u64;
        proof {
            assert(d.take(j - i + 1).drop_last() =~= d.take(j - i));
            assert(d.take(j - i + 1).last() == d[j - i]);
            assert(dec_val(d.take(j - i + 1)) == acc * 10 + dv);
        }
        let next = match acc.checked_mul(10) {
            Some(m) => m.checked_add(dv),
            None => None,
        };
        match next {
            Some(v) => {
                acc = v;
            },
            None => {
                proof {
                    lemma_dec_val_prefix(d, j - i + 1);
                }
                return None;
            },
        }
        proof {
            assert(all_dec_digits(d.take(j + 1 - i)));
        }
        j = j + 1;
    }
    proof {
        assert(d.take(j - i) =~= d);
    }
    Some(acc)
}

/// Parses a decimal numeral into a `usize`.  Returns `None` exactly when
/// the string is not a numeral or its value does not fit.
pub fn parse_usize(s: &str) -> (r: Option<usize>)
    ensures
        r is Some <==> fits_usize(s@),
        r is Some ==> r->Some_0 == numeral_val(s@),
{
    match parse_u64(s) {
        Some(v) => if v <= (usize::MAX as u64) {
            Some(v as usize)
        } else {
            None
        },
        None => None,
    }
}

/// Appends the decimal numeral of `n`.
pub fn push_decimal(out: &mut String, n: u64)
    ensures
        final(out)@ == old(out)@ + dec_digits(n as nat),
    decreases n,
{
    if n < 10 {
        let c = hex_char_of(n as u8);
        push_char(out, c);
        assert(out@ =~= old(out)@ + dec_digits(n as nat));
    } else {
        push_decimal(out, n / 10);
        let c = hex_char_of((n % 10) as u8);
        push_char(out, c);
        assert(out@ =~= old(out)@ + dec_digits(n as nat));
    }
}

} // verus!
