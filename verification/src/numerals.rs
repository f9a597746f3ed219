//! Numbers that are written in digits.
use crate::text::{chars_of, decimal, decimal_of, digit, is_digit};
use vstd::prelude::*;

verus! {

/// Whether a text consists of digits.
pub open spec fn is_number(s: Seq<char>) -> bool {
    s.len() > 0 && forall|i: int| 0 <= i < s.len() ==> is_digit(#[trigger] s[i])
}

/// The number that digits stand for.
pub open spec fn number_of(s: Seq<char>) -> nat
    decreases s.len(),
{
    if s.len() == 0 {
        0
    } else {
        number_of(s.drop_last()) * 10 + (s.last() as int - 48) as nat
    }
}

/// The number that a text stands for, if it is one and is not greater than `max`.
pub open spec fn number_in(s: Seq<char>, max: i64) -> Option<i64> {
    if is_number(s) && number_of(s) <= max {
        Some(number_of(s) as i64)
    } else {
        None
    }
}

/// More digits make no smaller number.
proof fn lemma_number_grows(s: Seq<char>, n: int)
    requires
        is_number(s),
        0 <= n <= s.len(),
    ensures
        number_of(s.take(n)) <= number_of(s),
    decreases s.len(),
{
    if n == s.len() {
        assert(s.take(n) == s);
    } else {
        let rest = s.drop_last();
        assert(rest.take(n) == s.take(n));
        if n > 0 {
            assert forall|i: int| 0 <= i < rest.len() implies is_digit(#[trigger] rest[i]) by {
                assert(rest[i] == s[i]);
            }
            lemma_number_grows(rest, n);
        }
    }
}

/// The number that a text stands for, if it is one and is not greater than `max`.
pub fn number_up_to(s: &str, max: i64) -> (r: Option<i64>)
    ensures
        r == number_in(s@, max),
{
    let chars = chars_of(s);
    if chars.len() == 0 || max < 0 {
        return None;
    }
    let mut n: i64 = 0;
    let mut i: usize = 0;
    while i < chars.len()
        invariant
            i <= chars@.len(),
            chars@ == s@,
            chars@.len() > 0,
            0 <= n <= max,
            n == number_of(chars@.take(i as int)),
            forall|j: int| 0 <= j < i ==> is_digit(#[trigger] chars@[j]),
        decreases chars@.len() - i,
    {
        let c = chars[i];
        if c < '0' || c > '9' {
            assert(!is_digit(chars@[i as int]));
            return None;
        }
        let d: i64 = (c as u32 - 48) as i64;
        let ghost next = chars@.take(i + 1);
        assert(next.drop_last() == chars@.take(i as int));
        assert(number_of(next) == n * 10 + d);
        if d > max || n > (max - d) / 10 {
            proof {
                if is_number(s@) {
                    lemma_number_grows(s@, i + 1);
                }
            }
            return None;
        }
        n = n * 10 + d;
        i = i + 1;
    }
    assert(chars@.take(chars@.len() as int) == chars@);
    Some(n)
}

/// A numeral is read as the number that it was written for.
pub proof fn numerals_are_read_back(n: nat)
    ensures
        is_number(decimal(n)),
        number_of(decimal(n)) == n,
    decreases n,
{
    if n < 10 {
        let s = decimal(n);
        assert(s == seq![digit(n)]);
        assert(s.drop_last() == Seq::<char>::empty());
        assert(number_of(s.drop_last()) == 0);
    } else {
        let rest = decimal(n / 10);
        numerals_are_read_back(n / 10);
        assert(decimal(n).drop_last() == rest);
        assert forall|i: int| 0 <= i < decimal(n).len() implies is_digit(
            #[trigger] decimal(n)[i],
        ) by {
            if i < rest.len() {
                assert(decimal(n)[i] == rest[i]);
            }
        }
    }
}

/// One more digit makes ten times the number and the digit.
pub proof fn digits_count_by_ten(s: Seq<char>, c: char)
    requires
        '0' <= c <= '9',
    ensures
        number_of(s.push(c)) == 10 * number_of(s) + (c as int - '0' as int),
        number_of(Seq::empty()) == 0,
{
    assert(s.push(c).drop_last() == s);
}

/// A text is read as a number if and only if it is made of digits and the number is not too great.
pub proof fn numbers_are_read_up_to_a_limit(s: &str, max: i64, r: Option<i64>)
    requires
        call_ensures(number_up_to, (s, max), r),
    ensures
        r is Some <==> 0 < s@.len() && number_of(s@) <= max && forall|i: int|
            0 <= i < s@.len() ==> '0' <= #[trigger] s@[i] <= '9',
        r is Some ==> r->0 == number_of(s@),
{
}

/// A number is written in digits that read back as it, without a leading zero.
pub proof fn numbers_are_written_in_digits(n: u64, r: String)
    requires
        call_ensures(decimal_of, (n,), r),
    ensures
        number_of(r@) == n,
        r@.len() > 0,
        forall|i: int| 0 <= i < r@.len() ==> '0' <= #[trigger] r@[i] <= '9',
        r@[0] == '0' ==> n == 0 && r@.len() == 1,
{
    numerals_are_read_back(n as nat);
    lemma_no_leading_zero(n as nat);
}

/// Only the numeral of zero begins with a zero.
proof fn lemma_no_leading_zero(n: nat)
    ensures
        decimal(n)[0] == '0' ==> n == 0 && decimal(n).len() == 1,
    decreases n,
{
    if n >= 10 {
        lemma_no_leading_zero(n / 10);
        assert(decimal(n)[0] == decimal(n / 10)[0]) by {
            crate::text::decimal_is_digits(n / 10);
        }
    }
}

} // verus!
