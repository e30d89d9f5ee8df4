//! Decimal numbers: as they are written into control sequences, and as they are
//! read from environment variables.

use vstd::arithmetic::div_mod;
use vstd::arithmetic::power;
use vstd::prelude::*;

verus! {

/// The decimal digits of `n`, as ASCII bytes, without leading zeros.
pub open spec fn decimal(n: nat) -> Seq<u8>
    decreases n,
{
    if n < 10 {
        seq![(0x30 + n) as u8]
    } else {
        decimal(n / 10).push((0x30 + n % 10) as u8)
    }
}

/// Appends the decimal digits of `n`.
pub fn push_decimal(buf: &mut Vec<u8>, n: usize)
    ensures
        final(buf)@ == old(buf)@ + decimal(n as nat),
    decreases n,
{
    let ghost before = buf@;
    if n >= 10 {
        push_decimal(buf, n / 10);
    }
    let digit: u8 = (n % 10) as u8;
    buf.push(0x30 + digit);
    assert(buf@ =~= before + decimal(n as nat));
}

/// The number that a row of decimal digits stands for.
pub open spec fn digits_value(digits: Seq<char>) -> nat
    decreases digits.len(),
{
    if digits.len() == 0 {
        0
    } else {
        digits_value(digits.drop_last()) * 10 + (digits.last() as nat - '0' as nat) as nat
    }
}

/// Whether a text is a row of one or more ASCII digits.
pub open spec fn is_digits(text: Seq<char>) -> bool {
    text.len() > 0 && forall|i: int| 0 <= i < text.len() ==> '0' <= #[trigger] text[i] <= '9'
}

/// The number that an unsigned decimal text stands for: an optional `+`, then one
/// or more digits, and no more than `max`.
pub open spec fn unsigned_value(text: Seq<char>, max: nat) -> Option<nat> {
    let digits = if text.len() > 0 && text[0] == '+' {
        text.skip(1)
    } else {
        text
    };
    if is_digits(digits) && digits_value(digits) <= max {
        Some(digits_value(digits))
    } else {
        None
    }
}

/// The number that a signed decimal text stands for: an optional `+` or `-`, then
/// one or more digits, within the range of an `i32`.
pub open spec fn signed_value(text: Seq<char>) -> Option<int> {
    if text.len() > 0 && text[0] == '-' {
        let digits = text.skip(1);
        if is_digits(digits) && -digits_value(digits) >= i32::MIN {
            Some(-digits_value(digits))
        } else {
            None
        }
    } else {
        match unsigned_value(text, i32::MAX as nat) {
            Some(v) => Some(v as int),
            None => None,
        }
    }
}

/// A number that was written can be read again.
pub proof fn law_decimal_reads_back(n: nat)
    ensures
        is_digits(decimal(n).map_values(|b: u8| b as char)),
        digits_value(decimal(n).map_values(|b: u8| b as char)) == n,
    decreases n,
{
    let text = decimal(n).map_values(|b: u8| b as char);
    if n >= 10 {
        law_decimal_reads_back(n / 10);
        let before = decimal(n / 10).map_values(|b: u8| b as char);
        assert(text.drop_last() =~= before);
        assert(text.last() as nat == 0x30 + n % 10);
        assert(digits_value(text) == (n / 10) * 10 + n % 10);
        assert forall|i: int| 0 <= i < text.len() implies '0' <= #[trigger] text[i] <= '9' by {
            if i < before.len() {
                assert(text[i] == before[i]);
            }
        }
    } else {
        assert(text.drop_last() =~= Seq::<char>::empty());
        assert(text.last() as nat == 0x30 + n);
        assert(digits_value(Seq::<char>::empty()) == 0);
    }
}

/// More digits do not make a number smaller.
proof fn lemma_digits_value_grows(digits: Seq<char>, k: int)
    requires
        0 <= k <= digits.len(),
    ensures
        digits_value(digits.take(k)) <= digits_value(digits),
    decreases digits.len() - k,
{
    if k == digits.len() {
        assert(digits.take(k) =~= digits);
    } else {
        lemma_digits_value_grows(digits, k + 1);
        assert(digits.take(k + 1).drop_last() =~= digits.take(k));
    }
}

/// The number that the digits of `text` from position `from` on stand for, unless
/// it is more than `max`.
fn parse_digits(text: &str, from: usize, max: u64) -> (value: Option<u64>)
    requires
        from <= text@.len(),
    ensures
        match value {
            Some(v) => is_digits(text@.skip(from as int)) && v == digits_value(
                text@.skip(from as int),
            ) && v <= max,
            None => !is_digits(text@.skip(from as int)) || digits_value(text@.skip(from as int))
                > max,
        },
{
    let ghost digits = text@.skip(from as int);
    let len: usize = text.unicode_len();
    if from == len {
        return None;
    }
    let mut value: u64 = 0;
    let mut i: usize = from;
    assert(digits.take(0) =~= Seq::<char>::empty());
    while i < len
        invariant
            from <= i <= len,
            len == text@.len(),
            digits == text@.skip(from as int),
            value == digits_value(digits.take(i - from)),
            value <= max,
            forall|k: int| 0 <= k < i - from ==> '0' <= #[trigger] digits[k] <= '9',
        decreases len - i,
    {
        let c: char = text.get_char(i);
        assert(c == digits[i - from]);
        if c < '0' || c > '9' {
            return None;
        }
        let digit: u64 = c as u64 - '0' as u64;
        proof {
            let next = digits.take(i - from + 1);
            assert(next.drop_last() =~= digits.take(i - from));
            assert(next.last() == c);
            lemma_digits_value_grows(digits, i - from + 1);
        }
        if digit > max || value > max / 10 || value * 10 > max - digit {
            return None;
        }
        value = value * 10 + digit;
        i = i + 1;
    }
    assert(digits.take(len - from) =~= digits);
    Some(value)
}

/// Reads an unsigned decimal number that is no more than `max`.
pub fn parse_unsigned(text: &str, max: u64) -> (value: Option<u64>)
    ensures
        match value {
            Some(v) => unsigned_value(text@, max as nat) == Some(v as nat),
            None => unsigned_value(text@, max as nat) is None,
        },
{
    if text.unicode_len() > 0 && text.get_char(0) == '+' {
        parse_digits(text, 1, max)
    } else {
        assert(text@.skip(0) =~= text@);
        parse_digits(text, 0, max)
    }
}

/// Reads a signed decimal number in the range of an `i32`.
pub fn parse_signed(text: &str) -> (value: Option<i32>)
    ensures
        match value {
            Some(v) => signed_value(text@) == Some(v as int),
            None => signed_value(text@) is None,
        },
{
    if text.unicode_len() > 0 && text.get_char(0) == '-' {
        match parse_digits(text, 1, 2147483648) {
            Some(v) => Some((-(v as i64)) as i32),
            None => None,
        }
    } else {
        match parse_unsigned(text, 2147483647) {
            Some(v) => Some(v as i32),
            None => None,
        }
    }
}

/// `v` is written with these digits in base ten: each stands for its own place,
/// and there is no digit to the left of them but zeros.
pub open spec fn has_digits(v: nat, digits: Seq<int>) -> bool {
    &&& v < power::pow(10, digits.len())
    &&& forall|i: int|
        0 <= i < digits.len() ==> #[trigger] digits[i] == (v as int / power::pow(
            10,
            (digits.len() - 1 - i) as nat,
        )) % 10
}

/// One digit more, on the right.
proof fn lemma_one_more_digit(v: nat, digits: Seq<int>, digit: int)
    requires
        has_digits(v, digits),
        0 <= digit < 10,
    ensures
        has_digits((v * 10 + digit) as nat, digits.push(digit)),
{
    let all = digits.push(digit);
    let w = v * 10 + digit;
    let len = digits.len();
    reveal(power::pow);
    assert(power::pow(10, len + 1) == 10 * power::pow(10, len));
    assert forall|i: int| 0 <= i < all.len() implies #[trigger] all[i] == (w / power::pow(
        10,
        (all.len() - 1 - i) as nat,
    )) % 10 by {
        if i < len {
            let k = (len - 1 - i) as nat;
            assert(digits[i] == (v as int / power::pow(10, k)) % 10);
            assert(power::pow(10, k + 1) == 10 * power::pow(10, k));
            power::lemma_pow_positive(10, k);
            div_mod::lemma_div_denominator(w, 10, power::pow(10, k));
            assert(w / 10 == v);
        } else {
            assert(power::pow(10, 0) == 1);
        }
    }
}

/// The digits without the last one are those of a tenth.
proof fn lemma_one_digit_less(v: nat, digits: Seq<int>)
    requires
        has_digits(v, digits),
        digits.len() > 0,
    ensures
        has_digits(v / 10, digits.drop_last()),
        digits.last() == v % 10,
{
    let rest = digits.drop_last();
    reveal(power::pow);
    let len = rest.len();
    assert(power::pow(10, len + 1) == 10 * power::pow(10, len));
    assert forall|i: int| 0 <= i < rest.len() implies #[trigger] rest[i] == ((v / 10) as int
        / power::pow(10, (rest.len() - 1 - i) as nat)) % 10 by {
        let k = (len - 1 - i) as nat;
        assert(digits[i] == (v as int / power::pow(10, k + 1)) % 10);
        assert(power::pow(10, k + 1) == 10 * power::pow(10, k));
        power::lemma_pow_positive(10, k);
        div_mod::lemma_div_denominator(v as int, 10, power::pow(10, k));
    }
    assert(digits[len as int] == (v as int / power::pow(10, 0)) % 10);
    assert(power::pow(10, 0) == 1);
}

/// Digits stand for one number only.
pub proof fn law_digits_name_one_number(v: nat, w: nat, digits: Seq<int>)
    requires
        has_digits(v, digits),
        has_digits(w, digits),
    ensures
        v == w,
    decreases digits.len(),
{
    if digits.len() == 0 {
        power::lemma_pow0(10);
    } else {
        lemma_one_digit_less(v, digits);
        lemma_one_digit_less(w, digits);
        law_digits_name_one_number(v / 10, w / 10, digits.drop_last());
    }
}

/// What ASCII digits stand for, one by one.
pub open spec fn digits_of(bytes: Seq<u8>) -> Seq<int> {
    Seq::new(bytes.len(), |i: int| bytes[i] - 0x30)
}

/// What the digits of a text stand for, one by one.
pub open spec fn digits_in(text: Seq<char>) -> Seq<int> {
    Seq::new(text.len(), |i: int| text[i] as int - 0x30)
}

/// A number is written with its digits in base ten, without a leading zero.
pub proof fn law_decimal_has_its_digits(n: nat)
    ensures
        decimal(n).len() > 0,
        has_digits(n, digits_of(decimal(n))),
        forall|i: int|
            0 <= i < decimal(n).len() ==> 0x30 <= #[trigger] decimal(n)[i] <= 0x39,
        n >= 10 ==> decimal(n)[0] != 0x30,
        n < 10 ==> decimal(n).len() == 1,
    decreases n,
{
    reveal(power::pow);
    let d = digits_of(decimal(n));
    if n < 10 {
        assert(power::pow(10, 0) == 1);
        assert(power::pow(10, 1) == 10 * power::pow(10, 0));
        assert(d =~= seq![n as int]);
    } else {
        law_decimal_has_its_digits(n / 10);
        lemma_one_more_digit(n / 10, digits_of(decimal(n / 10)), (n % 10) as int);
        assert(d =~= digits_of(decimal(n / 10)).push((n % 10) as int));
    }
}

/// What `push_decimal` appends are the digits of the number, as ASCII bytes and
/// without a leading zero; what was there stays.
pub proof fn law_push_decimal_appends_digits(buf: &mut Vec<u8>, n: usize)
    requires
        call_ensures(push_decimal, (buf, n), ()),
    ensures
        ({
            let len = old(buf)@.len() as int;
            let added = final(buf)@.skip(len);
            &&& final(buf)@.len() > len
            &&& final(buf)@.take(len) == old(buf)@
            &&& has_digits(n as nat, digits_of(added))
            &&& forall|i: int| 0 <= i < added.len() ==> 0x30 <= #[trigger] added[i] <= 0x39
            &&& added.len() == 1 || added[0] != 0x30
        }),
{
    law_decimal_has_its_digits(n as nat);
    let len = old(buf)@.len() as int;
    assert(final(buf)@.skip(len) =~= decimal(n as nat));
    assert(final(buf)@.take(len) =~= old(buf)@);
}

/// The digits of a text are those of the number that it stands for.
proof fn lemma_value_has_digits(digits: Seq<char>)
    requires
        forall|i: int| 0 <= i < digits.len() ==> '0' <= #[trigger] digits[i] <= '9',
    ensures
        has_digits(digits_value(digits), digits_in(digits)),
    decreases digits.len(),
{
    if digits.len() == 0 {
        power::lemma_pow0(10);
    } else {
        let before = digits.drop_last();
        assert forall|i: int| 0 <= i < before.len() implies '0' <= #[trigger] before[i] <= '9' by {
            assert(before[i] == digits[i]);
        }
        lemma_value_has_digits(before);
        assert('0' <= digits[digits.len() - 1] <= '9');
        let digit = digits.last() as int - 0x30;
        lemma_one_more_digit(digits_value(before), digits_in(before), digit);
        assert(digits_in(digits) =~= digits_in(before).push(digit));
    }
}

/// The text after its sign, if it begins with `sign`.
pub open spec fn after_sign(text: Seq<char>, sign: char) -> Seq<char> {
    if text.len() > 0 && text[0] == sign {
        text.skip(1)
    } else {
        text
    }
}

/// A text that is one or more of the digits from `0` to `9`, and nothing else, and
/// that stands for `v`.
pub open spec fn is_number(digits: Seq<char>, v: nat) -> bool {
    &&& digits.len() > 0
    &&& forall|i: int| 0 <= i < digits.len() ==> '0' <= #[trigger] digits[i] <= '9'
    &&& has_digits(v, digits_in(digits))
}

/// A number is read exactly if the text is one, after a `+` where there is one, and
/// if it is not too large; then it is that number.
pub proof fn law_unsigned_is_read(text: &str, max: u64, value: Option<u64>)
    requires
        call_ensures(parse_unsigned, (text, max), value),
    ensures
        value matches Some(v) ==> v <= max && is_number(after_sign(text@, '+'), v as nat),
        value is None ==> forall|v: nat|
            v <= max ==> !#[trigger] is_number(after_sign(text@, '+'), v),
{
    lemma_unsigned_is_number(text@, max as nat);
}

/// A text has a value exactly if it is a number that is not too large.
pub(crate) proof fn lemma_unsigned_is_number(text: Seq<char>, max: nat)
    ensures
        unsigned_value(text, max) matches Some(v) ==> v <= max && is_number(
            after_sign(text, '+'),
            v,
        ),
        unsigned_value(text, max) is None ==> forall|v: nat|
            v <= max ==> !#[trigger] is_number(after_sign(text, '+'), v),
{
    let digits = after_sign(text, '+');
    if is_digits(digits) {
        lemma_value_has_digits(digits);
        assert forall|v: nat| #[trigger] is_number(digits, v) implies v == digits_value(digits) by {
            law_digits_name_one_number(v, digits_value(digits), digits_in(digits));
        }
    }
}

/// A signed number is read exactly if the text is one, after a `+` or a `-` where
/// there is one, and if it is in the range of an `i32`; a `-` makes it negative.
pub proof fn law_signed_is_read(text: &str, value: Option<i32>)
    requires
        call_ensures(parse_signed, (text,), value),
    ensures
        text@.len() > 0 && text@[0] == '-' ==> {
            &&& value matches Some(v) ==> v <= 0 && is_number(text@.skip(1), (-(v as int)) as nat)
            &&& value is None ==> forall|v: nat|
                v <= 0x8000_0000 ==> !#[trigger] is_number(text@.skip(1), v)
        },
        !(text@.len() > 0 && text@[0] == '-') ==> {
            &&& value matches Some(v) ==> v >= 0 && is_number(after_sign(text@, '+'), v as nat)
            &&& value is None ==> forall|v: nat|
                v <= 0x7fff_ffff ==> !#[trigger] is_number(after_sign(text@, '+'), v)
        },
{
    lemma_signed_is_number(text@);
}

/// A text has a signed value exactly if it is a number in the range of an `i32`.
pub(crate) proof fn lemma_signed_is_number(text: Seq<char>)
    ensures
        text.len() > 0 && text[0] == '-' ==> {
            &&& signed_value(text) matches Some(v) ==> -0x8000_0000 <= v <= 0 && is_number(
                text.skip(1),
                (-v) as nat,
            )
            &&& signed_value(text) is None ==> forall|v: nat|
                v <= 0x8000_0000 ==> !#[trigger] is_number(text.skip(1), v)
        },
        !(text.len() > 0 && text[0] == '-') ==> {
            &&& signed_value(text) matches Some(v) ==> 0 <= v <= 0x7fff_ffff && is_number(
                after_sign(text, '+'),
                v as nat,
            )
            &&& signed_value(text) is None ==> forall|v: nat|
                v <= 0x7fff_ffff ==> !#[trigger] is_number(after_sign(text, '+'), v)
        },
{
    if text.len() > 0 && text[0] == '-' {
        let digits = text.skip(1);
        if is_digits(digits) {
            lemma_value_has_digits(digits);
            assert forall|v: nat| #[trigger] is_number(digits, v) implies v == digits_value(
                digits,
            ) by {
                law_digits_name_one_number(v, digits_value(digits), digits_in(digits));
            }
        }
    } else {
        lemma_unsigned_is_number(text, i32::MAX as nat);
    }
}

} // verus!
