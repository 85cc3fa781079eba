//! Durations written as `HH:MM:SS`.

use vstd::prelude::*;
use vstd::string::*;

verus! {

/// The decimal digit for `d`.
pub open spec fn digit(d: int) -> char {
    if d == 0 {
        '0'
    } else if d == 1 {
        '1'
    } else if d == 2 {
        '2'
    } else if d == 3 {
        '3'
    } else if d == 4 {
        '4'
    } else if d == 5 {
        '5'
    } else if d == 6 {
        '6'
    } else if d == 7 {
        '7'
    } else if d == 8 {
        '8'
    } else {
        '9'
    }
}

/// `n` in decimal digits, without leading zeros.
pub open spec fn decimal(n: nat) -> Seq<char>
    decreases n,
{
    if n < 10 {
        seq![digit(n as int)]
    } else {
        decimal(n / 10).push(digit((n % 10) as int))
    }
}

/// One part of a duration: `n` in decimal, with a minus sign in front
/// where the duration is negative and the part is not zero, filled up with
/// a zero in front where that gives fewer than two characters.
pub open spec fn clock_part(negative: bool, n: nat) -> Seq<char> {
    if n == 0 {
        seq!['0', '0']
    } else if negative {
        seq!['-'] + decimal(n)
    } else if n < 10 {
        seq!['0'] + decimal(n)
    } else {
        decimal(n)
    }
}

/// A duration of `seconds` as hours, minutes and seconds with colons
/// between them. The hours are the whole hours of the duration, however
/// many; the minutes are what is left of whole minutes, the seconds what is
/// left of seconds. The parts of a negative duration are negative.
pub open spec fn clock_text(seconds: int) -> Seq<char> {
    let size: nat = if seconds < 0 {
        (-seconds) as nat
    } else {
        seconds as nat
    };
    clock_part(seconds < 0, size / 3600) + seq![':'] + clock_part(seconds < 0, (size / 60) % 60)
        + seq![':'] + clock_part(seconds < 0, size % 60)
}

/// The digit for `d` as a string.
fn digit_str(d: u64) -> (r: &'static str)
    requires
        d < 10,
    ensures
        r@ == seq![digit(d as int)],
{
    proof {
        reveal_strlit("0");
        reveal_strlit("1");
        reveal_strlit("2");
        reveal_strlit("3");
        reveal_strlit("4");
        reveal_strlit("5");
        reveal_strlit("6");
        reveal_strlit("7");
        reveal_strlit("8");
        reveal_strlit("9");
    }
    let r = if d == 0 {
        "0"
    } else if d == 1 {
        "1"
    } else if d == 2 {
        "2"
    } else if d == 3 {
        "3"
    } else if d == 4 {
        "4"
    } else if d == 5 {
        "5"
    } else if d == 6 {
        "6"
    } else if d == 7 {
        "7"
    } else if d == 8 {
        "8"
    } else {
        "9"
    };
    assert(r@ =~= seq![digit(d as int)]);
    r
}

/// Appends `n` in decimal digits to `out`.
fn push_decimal(out: &mut String, n: u64)
    ensures
        final(out)@ == old(out)@ + decimal(n as nat),
    decreases n,
{
    if n >= 10 {
        push_decimal(out, n / 10);
    }
    out.append(digit_str(n % 10));
    proof {
        if n >= 10 {
            assert(old(out)@ + decimal((n / 10) as nat) + seq![digit((n % 10) as int)] =~= old(out)@
                + decimal((n / 10) as nat).push(digit((n % 10) as int)));
        }
    }
}

/// Appends one part of a duration to `out`.
fn push_clock_part(out: &mut String, negative: bool, n: u64)
    ensures
        final(out)@ == old(out)@ + clock_part(negative, n as nat),
{
    proof {
        reveal_strlit("00");
        reveal_strlit("-");
        reveal_strlit("0");
    }
    if n == 0 {
        out.append("00");
        assert(out@ =~= old(out)@ + seq!['0', '0']);
    } else if negative {
        out.append("-");
        push_decimal(out, n);
        assert(out@ =~= old(out)@ + (seq!['-'] + decimal(n as nat)));
    } else if n < 10 {
        out.append("0");
        push_decimal(out, n);
        assert(out@ =~= old(out)@ + (seq!['0'] + decimal(n as nat)));
    } else {
        push_decimal(out, n);
    }
}

/// Writes a duration of `size` seconds, negative where `negative` says so.
pub(crate) fn clock_string(negative: bool, size: u64) -> (r: String)
    ensures
        r@ == clock_part(negative, (size / 3600) as nat) + seq![':'] + clock_part(
            negative,
            ((size / 60) % 60) as nat,
        ) + seq![':'] + clock_part(negative, (size % 60) as nat),
{
    proof {
        reveal_strlit(":");
    }
    let mut out = String::new();
    push_clock_part(&mut out, negative, size / 3600);
    out.append(":");
    push_clock_part(&mut out, negative, (size / 60) % 60);
    out.append(":");
    push_clock_part(&mut out, negative, size % 60);
    proof {
        let hours = clock_part(negative, (size / 3600) as nat);
        let minutes = clock_part(negative, ((size / 60) % 60) as nat);
        let seconds = clock_part(negative, (size % 60) as nat);
        assert(out@ =~= hours + seq![':'] + minutes + seq![':'] + seconds);
    }
    out
}

/// Writes a duration in seconds as `HH:MM:SS`. The hours are not wrapped
/// at 24; each part has at least two characters.
pub fn fmt_duration(seconds: i64) -> (r: String)
    ensures
        r@ == clock_text(seconds as int),
{
    if seconds < 0 {
        let size: u64 = (-(seconds + 1)) as u64 + 1;
        clock_string(true, size)
    } else {
        clock_string(false, seconds as u64)
    }
}

} // verus!
