use vstd::prelude::*;
use vstd::string::*;

verus! {

/// The decimal digit character for `d` in `0 ..= 9`.
pub open spec fn spec_digit_char(d: int) -> char {
    if d == 0 {
        '0'
    } else if d == 1 {
        '1'
    } else if d == 2 {
        '2'
    } else if d == 3 {
        '3'
    } else if d == 4 {
        '4'
    } else if d == 5 {
        '5'
    } else if d == 6 {
        '6'
    } else if d == 7 {
        '7'
    } else if d == 8 {
        '8'
    } else {
        '9'
    }
}

/// The decimal digit string of a non-negative number, most significant digit
/// first, without leading zeros (a single zero for 0).
pub open spec fn spec_decimal(n: int) -> Seq<char>
    decreases n,
{
    if n < 10 {
        seq![spec_digit_char(n)]
    } else {
        spec_decimal(n / 10).push(spec_digit_char(n % 10))
    }
}

/// A two-character, zero-padded decimal rendering of `n` in `0 ..= 99`.
pub open spec fn spec_two_digit(n: int) -> Seq<char> {
    seq![spec_digit_char(n / 10), spec_digit_char(n % 10)]
}

/// The `HH:MM` rendering of an hour and minute, both zero-padded.
pub open spec fn spec_time_string(hour: int, minute: int) -> Seq<char> {
    spec_two_digit(hour) + seq![':'] + spec_two_digit(minute)
}

/// Append the digit character for `d`.
pub fn push_digit(s: &mut String, d: u64)
    requires
        d < 10,
    ensures
        final(s)@ == old(s)@.push(spec_digit_char(d as int)),
{
    proof {
        reveal_strlit("0");
        reveal_strlit("1");
        reveal_strlit("2");
        reveal_strlit("3");
        reveal_strlit("4");
        reveal_strlit("5");
        reveal_strlit("6");
        reveal_strlit("7");
        reveal_strlit("8");
        reveal_strlit("9");
    }
    if d == 0 {
        s.append("0");
        proof {
            assert(old(s)@ + "0"@ =~= old(s)@.push('0'));
        }
    } else if d == 1 {
        s.append("1");
        proof {
            assert(old(s)@ + "1"@ =~= old(s)@.push('1'));
        }
    } else if d == 2 {
        s.append("2");
        proof {
            assert(old(s)@ + "2"@ =~= old(s)@.push('2'));
        }
    } else if d == 3 {
        s.append("3");
        proof {
            assert(old(s)@ + "3"@ =~= old(s)@.push('3'));
        }
    } else if d == 4 {
        s.append("4");
        proof {
            assert(old(s)@ + "4"@ =~= old(s)@.push('4'));
        }
    } else if d == 5 {
        s.append("5");
        proof {
            assert(old(s)@ + "5"@ =~= old(s)@.push('5'));
        }
    } else if d == 6 {
        s.append("6");
        proof {
            assert(old(s)@ + "6"@ =~= old(s)@.push('6'));
        }
    } else if d == 7 {
        s.append("7");
        proof {
            assert(old(s)@ + "7"@ =~= old(s)@.push('7'));
        }
    } else if d == 8 {
        s.append("8");
        proof {
            assert(old(s)@ + "8"@ =~= old(s)@.push('8'));
        }
    } else {
        s.append("9");
        proof {
            assert(old(s)@ + "9"@ =~= old(s)@.push('9'));
        }
    }
}

/// The decimal string of `n`, as `u64::to_string` renders it.
pub fn u64_to_dec_string(n: u64) -> (r: String)
    ensures
        r@ == spec_decimal(n as int),
    decreases n,
{
    if n < 10 {
        let mut s = String::new();
        push_digit(&mut s, n);
        proof {
            assert(Seq::<char>::empty().push(spec_digit_char(n as int)) =~= seq![
                spec_digit_char(n as int),
            ]);
        }
        s
    } else {
        let mut s = u64_to_dec_string(n / 10);
        push_digit(&mut s, n % 10);
        s
    }
}

/// The zero-padded two-digit string of `n` in `0 ..= 99`.
pub fn two_digit_string(n: u64) -> (r: String)
    requires
        n < 100,
    ensures
        r@ == spec_two_digit(n as int),
{
    let mut s = String::new();
    push_digit(&mut s, n / 10);
    push_digit(&mut s, n % 10);
    proof {
        assert(Seq::<char>::empty().push(spec_digit_char(n as int / 10)).push(
            spec_digit_char(n as int % 10),
        ) =~= spec_two_digit(n as int));
    }
    s
}

/// The `HH:MM` string of an hour and minute.
pub fn time_string(hour: u64, minute: u64) -> (r: String)
    requires
        hour < 100,
        minute < 100,
    ensures
        r@ == spec_time_string(hour as int, minute as int),
{
    let mut s = two_digit_string(hour);
    proof {
        reveal_strlit(":");
    }
    s.append(":");
    let m = two_digit_string(minute);
    let s2 = s.concat(m.as_str());
    proof {
        assert((spec_two_digit(hour as int) + ":"@) + spec_two_digit(minute as int)
            =~= spec_time_string(hour as int, minute as int));
    }
    s2
}

/// The two-digit year suffix: the last two decimal digits, zero padded, as
/// dropping the century from a four-digit year leaves them.
pub fn year_suffix(year: u64) -> (r: String)
    requires
        1000 <= year <= 9999,
    ensures
        r@ == spec_two_digit((year % 100) as int),
{
    two_digit_string(year % 100)
}

} // verus!
