use vstd::prelude::*;

verus! {

pub open spec fn digit_char(d: int) -> char {
    if d == 0 {
        '0'
    } else if d == 1 {
        '1'
    } else if d == 2 {
        '2'
    } else if d == 3 {
        '3'
    } else if d == 4 {
        '4'
    } else if d == 5 {
        '5'
    } else if d == 6 {
        '6'
    } else if d == 7 {
        '7'
    } else if d == 8 {
        '8'
    } else {
        '9'
    }
}

/// `n` in decimal, without leading zeros.
pub open spec fn decimal_text(n: nat) -> Seq<char>
    decreases n,
{
    if n < 10 {
        seq![digit_char(n as int)]
    } else {
        decimal_text(n / 10).push(digit_char((n % 10) as int))
    }
}

/// `n` in decimal, with a leading zero below ten.
pub open spec fn padded_text(n: nat) -> Seq<char> {
    if n < 10 {
        seq!['0', digit_char(n as int)]
    } else {
        decimal_text(n)
    }
}

/// `secs` as minutes and seconds, `MM:SS`; the minutes take more digits when
/// there are a hundred or more.
pub open spec fn time_text(secs: nat) -> Seq<char> {
    padded_text(secs / 60) + seq![':'] + padded_text(secs % 60)
}

fn digit_str(d: u64) -> (r: &'static str)
    requires
        d < 10,
    ensures
        r@ == seq![digit_char(d as int)],
{
    proof {
        reveal_strlit("0");
        reveal_strlit("1");
        reveal_strlit("2");
        reveal_strlit("3");
        reveal_strlit("4");
        reveal_strlit("5");
        reveal_strlit("6");
        reveal_strlit("7");
        reveal_strlit("8");
        reveal_strlit("9");
    }
    let r = if d == 0 {
        "0"
    } else if d == 1 {
        "1"
    } else if d == 2 {
        "2"
    } else if d == 3 {
        "3"
    } else if d == 4 {
        "4"
    } else if d == 5 {
        "5"
    } else if d == 6 {
        "6"
    } else if d == 7 {
        "7"
    } else if d == 8 {
        "8"
    } else {
        "9"
    };
    assert(r@ =~= seq![digit_char(d as int)]);
    r
}

fn push_decimal(out: &mut String, n: u64)
    ensures
        final(out)@ == old(out)@ + decimal_text(n as nat),
    decreases n,
{
    if n >= 10 {
        push_decimal(out, n / 10);
    }
    out.append(digit_str(n % 10));
    proof {
        if n >= 10 {
            assert(old(out)@ + decimal_text(n as nat) =~= old(out)@ + decimal_text((n / 10) as nat)
                + seq![digit_char((n % 10) as int)]);
        }
    }
}

fn push_padded(out: &mut String, n: u64)
    ensures
        final(out)@ == old(out)@ + padded_text(n as nat),
{
    if n < 10 {
        proof {
            reveal_strlit("0");
        }
        out.append("0");
        out.append(digit_str(n));
        assert(final(out)@ =~= old(out)@ + padded_text(n as nat));
    } else {
        push_decimal(out, n);
    }
}

/// Shows a number of seconds as `MM:SS`.
pub fn format_time(secs: u64) -> (r: String)
    ensures
        r@ == time_text(secs as nat),
{
    let mut out = String::new();
    push_padded(&mut out, secs / 60);
    proof {
        reveal_strlit(":");
    }
    out.append(":");
    push_padded(&mut out, secs % 60);
    assert(out@ =~= time_text(secs as nat));
    out
}

} // verus!
