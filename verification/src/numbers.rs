//! Decimal numbers as the catalogue pages write them: reading a count and
//! writing one back.

use vstd::prelude::*;
use crate::text::{chars_of, push_char};

verus! {

/// Why a piece of text is not a count.
#[derive(Debug, Clone, Copy, PartialEq, Eq, Structural)]
pub enum ParseCountError {
    /// The text is empty.
    Empty,
    /// The text holds something other than an optional leading `+` and digits.
    InvalidDigit,
    /// The digits denote a number above `usize::MAX`.
    Overflow,
}

/// An ASCII decimal digit.
pub open spec fn is_digit(c: char) -> bool {
    '0' <= c && c <= '9'
}

/// The value of an ASCII decimal digit.
pub open spec fn digit_value(c: char) -> nat
    recommends
        is_digit(c),
{
    (c as int - '0' as int) as nat
}

/// The character that writes the digit `d`.
pub open spec fn digit_char(d: nat) -> char
    recommends
        d < 10,
{
    (d + '0' as int) as char
}

/// Reading `ds` from left to right, starting from the value `acc`: each digit
/// multiplies the value so far by ten and adds itself; the first character that
/// is no digit is an error, and so is the first step whose value leaves `usize`.
pub open spec fn scan_digits(acc: nat, ds: Seq<char>) -> Result<usize, ParseCountError>
    decreases ds.len(),
{
    if ds.len() == 0 {
        if acc <= usize::MAX {
            Ok(acc as usize)
        } else {
            Err(ParseCountError::Overflow)
        }
    } else if !is_digit(ds[0]) {
        Err(ParseCountError::InvalidDigit)
    } else if acc * 10 + digit_value(ds[0]) > usize::MAX {
        Err(ParseCountError::Overflow)
    } else {
        scan_digits(acc * 10 + digit_value(ds[0]), ds.drop_first())
    }
}

/// What reading `s` as an unsigned count gives: an empty text is `Empty`; a text
/// that is a lone `+` is an `InvalidDigit`; otherwise a leading `+` is dropped
/// and the rest is read digit by digit from the left.
pub open spec fn count_of(s: Seq<char>) -> Result<usize, ParseCountError> {
    if s.len() == 0 {
        Err(ParseCountError::Empty)
    } else if s[0] == '+' && s.len() == 1 {
        Err(ParseCountError::InvalidDigit)
    } else if s[0] == '+' {
        scan_digits(0, s.drop_first())
    } else {
        scan_digits(0, s)
    }
}

/// Reads a count written in decimal, as the listing pages write view counts.
pub fn parse_count(text: &str) -> (r: Result<usize, ParseCountError>)
    ensures
        r == count_of(text@),
{
    let cs = chars_of(text);
    let n = cs.len();
    if n == 0 {
        return Err(ParseCountError::Empty);
    }
    let first = cs[0];
    if first == '+' && n == 1 {
        return Err(ParseCountError::InvalidDigit);
    }
    let mut i: usize = if first == '+' { 1 } else { 0 };
    let ghost start = i as int;
    assert(text@.subrange(0, n as int) =~= text@);
    assert(text@.subrange(1, n as int) =~= text@.drop_first());
    let mut acc: usize = 0;
    while i < n
        invariant
            n == text@.len(),
            cs@ == text@,
            0 <= start <= i <= n,
            count_of(text@) == scan_digits(0, text@.subrange(start, n as int)),
            scan_digits(0, text@.subrange(start, n as int)) == scan_digits(
                acc as nat,
                text@.subrange(i as int, n as int),
            ),
        decreases n - i,
    {
        let c = cs[i];
        let ghost rest = text@.subrange(i as int, n as int);
        assert(rest[0] == c);
        assert(rest.drop_first() =~= text@.subrange(i + 1, n as int));
        if !('0' <= c && c <= '9') {
            return Err(ParseCountError::InvalidDigit);
        }
        let d: u32 = (c as u32) - ('0' as u32);
        assert(d as nat == digit_value(c));
        match acc.checked_mul(10) {
            None => {
                return Err(ParseCountError::Overflow);
            },
            Some(m) => match m.checked_add(d as usize) {
                None => {
                    return Err(ParseCountError::Overflow);
                },
                Some(next) => {
                    acc = next;
                },
            },
        }
        i = i + 1;
    }
    Ok(acc)
}


/// The shortest decimal writing of `n`: no sign, no leading zero.
pub open spec fn decimal_digits(n: nat) -> Seq<char>
    decreases n,
{
    if n < 10 {
        seq![digit_char(n)]
    } else {
        decimal_digits(n / 10).push(digit_char(n % 10))
    }
}

/// The character that writes the digit `d`, which is below ten.
pub fn digit_to_char(d: u32) -> (c: char)
    requires
        d < 10,
    ensures
        c == digit_char(d as nat),
        is_digit(c),
        digit_value(c) == d,
{
    let b: u8 = 48 + (d as u8);
    b as char
}

/// Appends the shortest decimal writing of `n` to `out`.
pub fn write_decimal(out: &mut String, n: u64)
    ensures
        final(out)@ == old(out)@ + decimal_digits(n as nat),
    decreases n,
{
    if n >= 10 {
        write_decimal(out, n / 10);
    }
    let c = digit_to_char((n % 10) as u32);
    push_char(out, c);
    assert(final(out)@ =~= old(out)@ + decimal_digits(n as nat));
}

/// Writes `n` in decimal, as `usize`'s `Display` does.
pub fn decimal_text(n: usize) -> (r: String)
    ensures
        r@ == decimal_digits(n as nat),
{
    let mut out = String::new();
    write_decimal(&mut out, n as u64);
    assert(out@ =~= decimal_digits(n as nat));
    out
}

/// `count` zeros.
pub open spec fn zeros(count: int) -> Seq<char> {
    Seq::new(if count > 0 { count as nat } else { 0 }, |_k: int| '0')
}

/// `n` in decimal, padded on the left with zeros to at least `width` digits,
/// as the `{:0width}` format writes it.
pub open spec fn padded_digits(n: nat, width: nat) -> Seq<char> {
    zeros(width - decimal_digits(n).len()) + decimal_digits(n)
}

/// Appends `n` in decimal, padded on the left with zeros to at least `width`
/// digits.
pub fn write_padded(out: &mut String, n: u64, width: usize)
    ensures
        final(out)@ == old(out)@ + padded_digits(n as nat, width as nat),
{
    let digits = decimal_text_u64(n);
    let len = digits.as_str().unicode_len();
    let mut k: usize = len;
    let ghost start = out@;
    while k < width
        invariant
            len == decimal_digits(n as nat).len(),
            len <= k,
            k > len ==> k <= width,
            out@ == start + zeros(k - len),
        decreases width - k,
    {
        push_char(out, '0');
        assert(out@ =~= start + zeros(k + 1 - len));
        k = k + 1;
    }
    assert(out@ =~= start + zeros(width - len)) by {
        if k > width {
            assert(k == len);
            assert(zeros(k - len) =~= zeros(width - len));
        }
    }
    out.append(digits.as_str());
    assert(out@ =~= start + padded_digits(n as nat, width as nat));
}

/// Writes `n` in decimal.
pub fn decimal_text_u64(n: u64) -> (r: String)
    ensures
        r@ == decimal_digits(n as nat),
{
    let mut out = String::new();
    write_decimal(&mut out, n);
    assert(out@ =~= decimal_digits(n as nat));
    out
}

/// Every character of `ds` is a decimal digit.
pub open spec fn all_digits(ds: Seq<char>) -> bool {
    forall|k: int| 0 <= k < ds.len() ==> #[trigger] is_digit(ds[k])
}

/// The value of the digits `ds` read from the left after the value `acc`,
/// without any bound.
pub open spec fn digits_value(acc: nat, ds: Seq<char>) -> nat
    decreases ds.len(),
{
    if ds.len() == 0 {
        acc
    } else {
        digits_value(acc * 10 + digit_value(ds[0]), ds.drop_first())
    }
}

proof fn lemma_digits_value_grows(acc: nat, ds: Seq<char>)
    requires
        all_digits(ds),
    ensures
        digits_value(acc, ds) >= acc,
    decreases ds.len(),
{
    if ds.len() > 0 {
        assert(is_digit(ds[0]));
        assert(all_digits(ds.drop_first())) by {
            assert forall|k: int| 0 <= k < ds.drop_first().len() implies #[trigger] is_digit(
                ds.drop_first()[k],
            ) by {
                assert(ds.drop_first()[k] == ds[k + 1]);
                assert(is_digit(ds[k + 1]));
            }
        }
        lemma_digits_value_grows(acc * 10 + digit_value(ds[0]), ds.drop_first());
    }
}

proof fn lemma_scan_is_value(acc: nat, ds: Seq<char>)
    requires
        all_digits(ds),
    ensures
        scan_digits(acc, ds) == (if digits_value(acc, ds) <= usize::MAX {
            Ok::<usize, ParseCountError>(digits_value(acc, ds) as usize)
        } else {
            Err::<usize, ParseCountError>(ParseCountError::Overflow)
        }),
    decreases ds.len(),
{
    if ds.len() > 0 {
        assert(is_digit(ds[0]));
        let next = acc * 10 + digit_value(ds[0]);
        assert(all_digits(ds.drop_first())) by {
            assert forall|k: int| 0 <= k < ds.drop_first().len() implies #[trigger] is_digit(
                ds.drop_first()[k],
            ) by {
                assert(ds.drop_first()[k] == ds[k + 1]);
                assert(is_digit(ds[k + 1]));
            }
        }
        lemma_digits_value_grows(next, ds.drop_first());
        lemma_scan_is_value(next, ds.drop_first());
    }
}

proof fn lemma_digits_value_push(acc: nat, ds: Seq<char>, c: char)
    ensures
        digits_value(acc, ds.push(c)) == digits_value(acc, ds) * 10 + digit_value(c),
    decreases ds.len(),
{
    if ds.len() == 0 {
        assert(ds.push(c).drop_first() =~= Seq::<char>::empty());
        assert(ds.push(c)[0] == c);
        assert(digits_value(acc * 10 + digit_value(c), Seq::<char>::empty()) == acc * 10
            + digit_value(c));
    } else {
        assert(ds.push(c).drop_first() =~= ds.drop_first().push(c));
        assert(ds.push(c)[0] == ds[0]);
        lemma_digits_value_push(acc * 10 + digit_value(ds[0]), ds.drop_first(), c);
    }
}

proof fn lemma_decimal_digits_value(n: nat)
    ensures
        all_digits(decimal_digits(n)),
        decimal_digits(n).len() > 0,
        digits_value(0, decimal_digits(n)) == n,
    decreases n,
{
    if n < 10 {
        assert(digit_value(digit_char(n)) == n);
        assert(decimal_digits(n).drop_first() =~= Seq::<char>::empty());
        assert(digits_value(digit_value(digit_char(n)), Seq::<char>::empty()) == n);
    } else {
        lemma_decimal_digits_value(n / 10);
        let c = digit_char(n % 10);
        assert(digit_value(c) == n % 10);
        lemma_digits_value_push(0, decimal_digits(n / 10), c);
        assert((n / 10) * 10 + n % 10 == n) by (nonlinear_arith);
        let ds = decimal_digits(n);
        assert forall|k: int| 0 <= k < ds.len() implies #[trigger] is_digit(ds[k]) by {
            if k < ds.len() - 1 {
                assert(ds[k] == decimal_digits(n / 10)[k]);
            }
        }
    }
}

/// Reading back the decimal writing of a count gives that count.
pub proof fn lemma_count_of_decimal(n: usize)
    ensures
        count_of(decimal_digits(n as nat)) == Ok::<usize, ParseCountError>(n),
{
    lemma_decimal_digits_value(n as nat);
    let ds = decimal_digits(n as nat);
    assert(is_digit(ds[0]));
    lemma_scan_is_value(0, ds);
}

proof fn lemma_scan_not_digits(acc: nat, ds: Seq<char>)
    requires
        !all_digits(ds),
    ensures
        scan_digits(acc, ds) is Err,
    decreases ds.len(),
{
    if ds.len() > 0 && is_digit(ds[0]) && acc * 10 + digit_value(ds[0]) <= usize::MAX {
        let k = choose|k: int| 0 <= k < ds.len() && !is_digit(ds[k]);
        assert(k != 0);
        assert(ds.drop_first()[k - 1] == ds[k]);
        lemma_scan_not_digits(acc * 10 + digit_value(ds[0]), ds.drop_first());
    }
}

/// The digits of a count text: the text without a leading `+`.
pub open spec fn count_digits(s: Seq<char>) -> Seq<char> {
    if s.len() > 0 && s[0] == '+' {
        s.drop_first()
    } else {
        s
    }
}

/// A text reads as a count exactly where, after an optional leading `+`, it is
/// one or more decimal digits whose value fits in `usize`; the count is that
/// value.
pub proof fn lemma_count_of_ok(s: Seq<char>)
    ensures
        count_of(s) is Ok <==> (count_digits(s).len() > 0 && all_digits(count_digits(s))
            && digits_value(0, count_digits(s)) <= usize::MAX),
        count_of(s) matches Ok(v) ==> v == digits_value(0, count_digits(s)),
{
    let ds = count_digits(s);
    if s.len() > 0 && ds.len() > 0 {
        if all_digits(ds) {
            lemma_scan_is_value(0, ds);
        } else {
            lemma_scan_not_digits(0, ds);
        }
    }
}

/// Ten to the power `w`.
pub open spec fn pow10(w: nat) -> nat
    decreases w,
{
    if w == 0 {
        1
    } else {
        10 * pow10((w - 1) as nat)
    }
}

/// A number below ten to the power `w` takes at most `w` digits.
pub proof fn lemma_decimal_len(n: nat, w: nat)
    requires
        w >= 1,
        n < pow10(w),
    ensures
        decimal_digits(n).len() <= w,
    decreases w,
{
    if n >= 10 {
        assert(w > 1) by {
            if w == 1 {
                assert(pow10(0) == 1);
            }
        }
        let p = pow10((w - 1) as nat);
        assert(n / 10 < p) by (nonlinear_arith)
            requires
                n < 10 * p,
        ;
        lemma_decimal_len(n / 10, (w - 1) as nat);
    }
}

proof fn lemma_zeros_prefix(k: int, ds: Seq<char>)
    ensures
        digits_value(0, zeros(k) + ds) == digits_value(0, ds),
        all_digits(ds) ==> all_digits(zeros(k) + ds),
    decreases (if k > 0 { k } else { 0 }),
{
    if k <= 0 {
        assert(zeros(k) + ds =~= ds);
    } else {
        let s = zeros(k) + ds;
        assert(s[0] == '0');
        assert(s.drop_first() =~= zeros(k - 1) + ds);
        lemma_zeros_prefix(k - 1, ds);
        if all_digits(ds) {
            assert forall|m: int| 0 <= m < s.len() implies #[trigger] is_digit(s[m]) by {
                if m > 0 {
                    assert(s[m] == s.drop_first()[m - 1]);
                }
            }
        }
    }
}

/// A number written with zero padding reads back as that number, and takes
/// exactly the padded width when its digits fit in it.
pub proof fn lemma_padded_reads_back(n: usize, w: nat)
    ensures
        all_digits(padded_digits(n as nat, w)),
        padded_digits(n as nat, w).len() > 0,
        digits_value(0, padded_digits(n as nat, w)) == n,
        count_of(padded_digits(n as nat, w)) == Ok::<usize, ParseCountError>(n),
        decimal_digits(n as nat).len() <= w ==> padded_digits(n as nat, w).len() == w,
{
    let ds = decimal_digits(n as nat);
    lemma_decimal_digits_value(n as nat);
    lemma_zeros_prefix(w - ds.len(), ds);
    let p = padded_digits(n as nat, w);
    assert(is_digit(p[0]));
    lemma_scan_is_value(0, p);
}

} // verus!
