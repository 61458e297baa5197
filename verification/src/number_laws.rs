//! What every numeral stands for.
use vstd::prelude::*;

use crate::number;

verus! {

/// A numeral is written digit by digit, the last one being the units.
pub proof fn law_numerals_are_decimal(tens: nat, units: nat)
    requires
        units < 10,
    ensures
        number::decimal(units).len() == 1,
        number::decimal(units)[0] as int == '0' as int + units,
        tens > 0 ==> number::decimal(10 * tens + units) == number::decimal(tens)
            + number::decimal(units),
{
    let n = 10 * tens + units;
    assert(n / 10 == tens && n % 10 == units);
    if tens > 0 {
        assert(number::decimal(n) =~= number::decimal(tens) + number::decimal(units));
    }
}

/// One character is a number exactly if it is a digit.
pub proof fn law_a_digit_is_a_number(c: char, max: nat)
    ensures
        number::unsigned(seq![c], max) == (if '0' as int <= c as int <= '9' as int && c as int
            - '0' as int <= max {
            Some((c as int - '0' as int) as nat)
        } else {
            None
        }),
        number::unsigned(Seq::empty(), max) is None,
{
    let s = seq![c];
    assert(s.drop_last() =~= Seq::empty());
    assert(number::value_of(s.drop_last()) == 0);
    assert(s.last() == c);
    assert(number::all_digits(s) <==> number::is_digit(s[0]));
    if c == '+' {
        assert(s.skip(1) =~= Seq::empty());
    }
}

/// A further digit makes a number ten times as large and adds itself; what is
/// too large, and what has anything but digits behind it, is no number.
pub proof fn law_a_further_digit_counts_tenfold(s: Seq<char>, c: char, max: nat)
    requires
        s.len() > 0,
        s != seq!['+'],
    ensures
        number::unsigned(s.push(c), max) == (match number::unsigned(s, max) {
            Some(n) => if '0' as int <= c as int <= '9' as int && 10 * n + (c as int
                - '0' as int) <= max {
                Some((10 * n + (c as int - '0' as int)) as nat)
            } else {
                None
            },
            None => None,
        }),
{
    let t = s.push(c);
    assert(t[0] == s[0]);
    if s[0] == '+' {
        assert(s.len() > 1) by {
            if s.len() == 1 {
                assert(s =~= seq!['+']);
            }
        }
        assert(t.skip(1) =~= s.skip(1).push(c));
        lemma_further_digit(s.skip(1), c, max);
    } else {
        lemma_further_digit(s, c, max);
    }
}

proof fn lemma_further_digit(s: Seq<char>, c: char, max: nat)
    requires
        s.len() > 0,
    ensures
        number::magnitude(s.push(c), max) == (match number::magnitude(s, max) {
            Some(n) => if '0' as int <= c as int <= '9' as int && 10 * n + (c as int
                - '0' as int) <= max {
                Some((10 * n + (c as int - '0' as int)) as nat)
            } else {
                None
            },
            None => None,
        }),
{
    let t = s.push(c);
    assert(t.drop_last() =~= s);
    assert(t.last() == c);
    if number::all_digits(t) {
        assert forall|k: int| 0 <= k < s.len() implies number::is_digit(#[trigger] s[k]) by {
            assert(t[k] == s[k]);
        }
        assert(number::is_digit(t[s.len() as int]));
    }
    if number::all_digits(s) && number::is_digit(c) {
        assert forall|k: int| 0 <= k < t.len() implies number::is_digit(#[trigger] t[k]) by {
            if k < s.len() {
                assert(t[k] == s[k]);
            }
        }
    }
}

/// A plus sign in front changes nothing, but there is at most one.
pub proof fn law_one_plus_sign_may_stand_in_front(s: Seq<char>, max: nat)
    ensures
        number::unsigned(seq!['+'] + s, max) == (if s.len() > 0 && s[0] == '+' {
            None
        } else {
            number::unsigned(s, max)
        }),
{
    assert((seq!['+'] + s).skip(1) =~= s);
    if s.len() > 0 && s[0] == '+' {
        assert(!number::is_digit(s[0]));
    }
}

/// A signed number is an unsigned one, or one behind a minus sign; it fits 64
/// bits.
pub proof fn law_signed_numbers_fit_64_bits(s: Seq<char>)
    ensures
        s.len() == 0 || s[0] != '-' ==> number::signed(s) == (match number::unsigned(
            s,
            0x7fff_ffff_ffff_ffff,
        ) {
            Some(n) => Some(n as int),
            None => None,
        }),
        number::signed(seq!['-'] + s) == (if s.len() > 0 && s[0] == '+' {
            None
        } else {
            match number::unsigned(s, 0x8000_0000_0000_0000) {
                Some(n) => Some(-(n as int)),
                None => None,
            }
        }),
{
    assert((seq!['-'] + s).skip(1) =~= s);
    if s.len() > 0 && s[0] == '+' {
        assert(!number::is_digit(s[0]));
    }
}

} // verus!
