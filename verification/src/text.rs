//! Decimal rendering of the integers that appear in cache keys, URLs and
//! period stamps, with the exact digit sequences pinned down in specs.

use vstd::prelude::*;
use vstd::string::StringExecFns;

verus! {

pub open spec fn digit_char(n: int) -> char
    recommends
        0 <= n <= 9,
{
    if n == 0 {
        '0'
    } else if n == 1 {
        '1'
    } else if n == 2 {
        '2'
    } else if n == 3 {
        '3'
    } else if n == 4 {
        '4'
    } else if n == 5 {
        '5'
    } else if n == 6 {
        '6'
    } else if n == 7 {
        '7'
    } else if n == 8 {
        '8'
    } else {
        '9'
    }
}

/// The decimal digits of `n`, most significant first: what `{}` prints for an
/// unsigned integer.
pub open spec fn dec_digits(n: int) -> Seq<char>
    recommends
        0 <= n,
    decreases n,
{
    if n < 10 {
        seq![digit_char(n)]
    } else {
        dec_digits(n / 10) + seq![digit_char(n % 10)]
    }
}

/// What `{}` prints for a signed integer.
pub open spec fn dec_int(n: int) -> Seq<char> {
    if n < 0 {
        seq!['-'] + dec_digits(-n)
    } else {
        dec_digits(n)
    }
}

/// What `{:02}` prints: at least two digits, zero-padded.
pub open spec fn dec_two_digits(n: int) -> Seq<char>
    recommends
        0 <= n,
{
    if n < 10 {
        seq!['0'] + dec_digits(n)
    } else {
        dec_digits(n)
    }
}

/// What a four-digit zero-padded year prints as.
pub open spec fn dec_four_digits(n: int) -> Seq<char>
    recommends
        0 <= n,
{
    if n < 10 {
        seq!['0', '0', '0'] + dec_digits(n)
    } else if n < 100 {
        seq!['0', '0'] + dec_digits(n)
    } else if n < 1000 {
        seq!['0'] + dec_digits(n)
    } else {
        dec_digits(n)
    }
}

fn push_digit(out: &mut String, d: u64)
    requires
        d < 10,
    ensures
        final(out)@ == old(out)@ + seq![digit_char(d as int)],
{
    if d == 0 {
        proof {
            reveal_strlit("0");
            assert(("0")@ =~= seq![digit_char(0)]);
        }
        out.append("0");
    } else if d == 1 {
        proof {
            reveal_strlit("1");
            assert(("1")@ =~= seq![digit_char(1)]);
        }
        out.append("1");
    } else if d == 2 {
        proof {
            reveal_strlit("2");
            assert(("2")@ =~= seq![digit_char(2)]);
        }
        out.append("2");
    } else if d == 3 {
        proof {
            reveal_strlit("3");
            assert(("3")@ =~= seq![digit_char(3)]);
        }
        out.append("3");
    } else if d == 4 {
        proof {
            reveal_strlit("4");
            assert(("4")@ =~= seq![digit_char(4)]);
        }
        out.append("4");
    } else if d == 5 {
        proof {
            reveal_strlit("5");
            assert(("5")@ =~= seq![digit_char(5)]);
        }
        out.append("5");
    } else if d == 6 {
        proof {
            reveal_strlit("6");
            assert(("6")@ =~= seq![digit_char(6)]);
        }
        out.append("6");
    } else if d == 7 {
        proof {
            reveal_strlit("7");
            assert(("7")@ =~= seq![digit_char(7)]);
        }
        out.append("7");
    } else if d == 8 {
        proof {
            reveal_strlit("8");
            assert(("8")@ =~= seq![digit_char(8)]);
        }
        out.append("8");
    } else {
        proof {
            reveal_strlit("9");
            assert(("9")@ =~= seq![digit_char(9)]);
        }
        out.append("9");
    }
}

/// Append the decimal digits of `n`, as `{}` prints an unsigned integer.
pub fn push_u64(out: &mut String, n: u64)
    ensures
        final(out)@ == old(out)@ + dec_digits(n as int),
    decreases n,
{
    if n < 10 {
        push_digit(out, n);
    } else {
        push_u64(out, n / 10);
        push_digit(out, n % 10);
        assert(out@ =~= old(out)@ + dec_digits(n as int));
    }
}

/// Append the decimal rendering of `n`, as `{}` prints a signed integer.
pub fn push_i64(out: &mut String, n: i64)
    ensures
        final(out)@ == old(out)@ + dec_int(n as int),
{
    if n < 0 {
        proof {
            reveal_strlit("-");
            assert(("-")@ =~= seq!['-']);
        }
        out.append("-");
        let m: u64 = ((-(n + 1)) as u64) + 1;
        assert(m as int == -(n as int));
        push_u64(out, m);
        assert(out@ =~= old(out)@ + dec_int(n as int));
    } else {
        push_u64(out, n as u64);
    }
}

/// Append `n` as `{:02}` prints it.
pub fn push_two_digits(out: &mut String, n: u64)
    ensures
        final(out)@ == old(out)@ + dec_two_digits(n as int),
{
    if n < 10 {
        proof {
            reveal_strlit("0");
            assert(("0")@ =~= seq!['0']);
        }
        out.append("0");
        push_digit(out, n);
        assert(out@ =~= old(out)@ + dec_two_digits(n as int));
    } else {
        push_u64(out, n);
    }
}

/// Append `n` as a four-digit zero-padded year prints.
pub fn push_four_digits(out: &mut String, n: u64)
    ensures
        final(out)@ == old(out)@ + dec_four_digits(n as int),
{
    if n < 10 {
        proof {
            reveal_strlit("000");
            assert(("000")@ =~= seq!['0', '0', '0']);
        }
        out.append("000");
        push_digit(out, n);
        assert(out@ =~= old(out)@ + dec_four_digits(n as int));
    } else if n < 100 {
        proof {
            reveal_strlit("00");
            assert(("00")@ =~= seq!['0', '0']);
        }
        out.append("00");
        push_u64(out, n);
        assert(out@ =~= old(out)@ + dec_four_digits(n as int));
    } else if n < 1000 {
        proof {
            reveal_strlit("0");
            assert(("0")@ =~= seq!['0']);
        }
        out.append("0");
        push_u64(out, n);
        assert(out@ =~= old(out)@ + dec_four_digits(n as int));
    } else {
        push_u64(out, n);
    }
}

} // verus!
