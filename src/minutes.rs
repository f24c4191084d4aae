use vstd::arithmetic::div_mod::{
    lemma_div_denominator, lemma_fundamental_div_mod, lemma_fundamental_div_mod_converse_div,
};
use vstd::prelude::*;

verus! {

/// Why a minutes entry does not start the countdown.
#[derive(PartialEq, Eq, Structural, Clone, Copy, Debug)]
pub enum StartError {
    /// The text is not a decimal number.
    ParseFailure,
    /// The number is zero or negative.
    NonPositiveValue,
}

pub open spec fn is_digit(c: char) -> bool {
    '0' <= c && c <= '9'
}

pub open spec fn all_digits(s: Seq<char>) -> bool {
    forall|i: int| 0 <= i < s.len() ==> is_digit(#[trigger] s[i])
}

pub open spec fn digit_value(c: char) -> int {
    c as int - '0' as int
}

/// The integer that a run of decimal digits writes, most significant first.
pub open spec fn digits_value(s: Seq<char>) -> int
    decreases s.len(),
{
    if s.len() == 0 {
        0
    } else {
        digits_value(s.drop_last()) * 10 + digit_value(s.last())
    }
}

pub open spec fn pow10(n: nat) -> int
    decreases n,
{
    if n == 0 {
        1
    } else {
        10 * pow10((n - 1) as nat)
    }
}

/// Index of the first decimal point, or the length when there is none.
pub open spec fn point_index(s: Seq<char>) -> int
    decreases s.len(),
{
    if s.len() == 0 || s[0] == '.' {
        0
    } else {
        1 + point_index(s.drop_first())
    }
}

pub open spec fn is_negative(t: Seq<char>) -> bool {
    t.len() > 0 && t[0] == '-'
}

/// The text without its sign.
pub open spec fn magnitude_text(t: Seq<char>) -> Seq<char> {
    if t.len() > 0 && (t[0] == '+' || t[0] == '-') {
        t.drop_first()
    } else {
        t
    }
}

/// What stands before the decimal point.
pub open spec fn whole_digits(t: Seq<char>) -> Seq<char> {
    let m = magnitude_text(t);
    m.take(point_index(m))
}

/// What stands after the decimal point (empty when there is none).
pub open spec fn fraction_digits(t: Seq<char>) -> Seq<char> {
    let m = magnitude_text(t);
    let p = point_index(m);
    if p < m.len() {
        m.skip(p + 1)
    } else {
        Seq::empty()
    }
}

/// An optional sign, digits, and at most one decimal point, with at least one digit.
pub open spec fn is_decimal_text(t: Seq<char>) -> bool {
    &&& all_digits(whole_digits(t))
    &&& all_digits(fraction_digits(t))
    &&& whole_digits(t).len() + fraction_digits(t).len() > 0
}

/// The magnitude written in `t`, times ten to the number of fraction digits.
pub open spec fn scaled_value(t: Seq<char>) -> int {
    digits_value(whole_digits(t) + fraction_digits(t))
}

/// Whole seconds in the minutes written in `t`, rounded toward zero and
/// capped at the largest `u64`.
pub open spec fn seconds_in(t: Seq<char>) -> int {
    let s = (60 * scaled_value(t)) / pow10(fraction_digits(t).len());
    if s > u64::MAX {
        u64::MAX as int
    } else {
        s
    }
}

/// The countdown length, in seconds, that the minutes entry `t` asks for.
pub open spec fn minutes_text_result(t: Seq<char>) -> Result<u64, StartError> {
    if !is_decimal_text(t) {
        Err(StartError::ParseFailure)
    } else if is_negative(t) || scaled_value(t) == 0 {
        Err(StartError::NonPositiveValue)
    } else {
        Ok(seconds_in(t) as u64)
    }
}

/// What `str::trim` makes of a text.
pub uninterp spec fn trimmed(s: Seq<char>) -> Seq<char>;

/// Relies on `str::trim`: leading and trailing whitespace removed, a result
/// that depends on the characters alone.
#[verifier::external_body]
pub(crate) fn trim_text<'a>(s: &'a str) -> (r: &'a str)
    ensures
        r@ == trimmed(s@),
{
    s.trim()
}

pub proof fn lemma_pow10_positive(n: nat)
    ensures
        pow10(n) > 0,
    decreases n,
{
    if n > 0 {
        lemma_pow10_positive((n - 1) as nat);
    }
}

proof fn lemma_digits_value_nonneg(s: Seq<char>)
    requires
        all_digits(s),
    ensures
        digits_value(s) >= 0,
    decreases s.len(),
{
    if s.len() > 0 {
        assert(all_digits(s.drop_last())) by {
            assert forall|i: int| 0 <= i < s.drop_last().len() implies is_digit(
                #[trigger] s.drop_last()[i],
            ) by {
                assert(s.drop_last()[i] == s[i]);
            }
        }
        lemma_digits_value_nonneg(s.drop_last());
        assert(is_digit(s[s.len() - 1]));
    }
}

/// Reading two runs of digits one after the other.
proof fn lemma_digits_value_concat(a: Seq<char>, b: Seq<char>)
    ensures
        digits_value(a + b) == digits_value(a) * pow10(b.len()) + digits_value(b),
    decreases b.len(),
{
    if b.len() == 0 {
        assert(a + b =~= a);
    } else {
        let b0 = b.drop_last();
        assert((a + b).drop_last() =~= a + b0);
        assert((a + b).last() == b.last());
        lemma_digits_value_concat(a, b0);
        let x = digits_value(a);
        let p = pow10(b0.len());
        let y = digits_value(b0);
        assert((x * p + y) * 10 == x * (10 * p) + y * 10) by (nonlinear_arith);
    }
}

proof fn lemma_div_shift(a: int, y: int, p: int)
    requires
        p > 0,
    ensures
        (a * p + y) / p == a + y / p,
{
    lemma_fundamental_div_mod(y, p);
    assert(a * p + y == (a + y / p) * p + y % p) by (nonlinear_arith)
        requires
            y == p * (y / p) + y % p,
    ;
    lemma_fundamental_div_mod_converse_div(a * p + y, p, a + y / p, y % p);
}

proof fn lemma_point_index(s: Seq<char>, i: int)
    requires
        0 <= i <= s.len(),
        forall|j: int| 0 <= j < i ==> s[j] != '.',
        i == s.len() || s[i] == '.',
    ensures
        point_index(s) == i,
    decreases i,
{
    if i > 0 {
        let r = s.drop_first();
        assert forall|j: int| 0 <= j < i - 1 implies r[j] != '.' by {
            assert(r[j] == s[j + 1]);
        }
        if i < s.len() {
            assert(r[i - 1] == s[i]);
        }
        lemma_point_index(r, i - 1);
    }
}

fn digits_in(text: &str, from: usize, to: usize) -> (r: bool)
    requires
        from <= to <= text@.len(),
    ensures
        r == all_digits(text@.subrange(from as int, to as int)),
{
    let mut i = from;
    while i < to
        invariant
            from <= i <= to <= text@.len(),
            all_digits(text@.subrange(from as int, i as int)),
        decreases to - i,
    {
        let c = text.get_char(i);
        if !('0' <= c && c <= '9') {
            assert(text@.subrange(from as int, to as int)[i - from] == c);
            return false;
        }
        assert forall|j: int| 0 <= j < i + 1 - from implies is_digit(
            #[trigger] text@.subrange(from as int, i + 1)[j],
        ) by {
            if j < i - from {
                assert(text@.subrange(from as int, i + 1)[j] == text@.subrange(
                    from as int,
                    i as int,
                )[j]);
            }
        }
        i = i + 1;
    }
    true
}

/// The integer written by the digits `text[from..to]`, capped at the largest `u64`.
fn capped_digits_value(text: &str, from: usize, to: usize) -> (r: u64)
    requires
        from <= to <= text@.len(),
        all_digits(text@.subrange(from as int, to as int)),
    ensures
        r == if digits_value(text@.subrange(from as int, to as int)) > u64::MAX {
            u64::MAX as int
        } else {
            digits_value(text@.subrange(from as int, to as int))
        },
{
    let ghost whole = text@.subrange(from as int, to as int);
    let mut acc: u64 = 0;
    let mut i = from;
    while i < to
        invariant
            from <= i <= to <= text@.len(),
            whole == text@.subrange(from as int, to as int),
            all_digits(whole),
            acc == if digits_value(text@.subrange(from as int, i as int)) > u64::MAX {
                u64::MAX as int
            } else {
                digits_value(text@.subrange(from as int, i as int))
            },
        decreases to - i,
    {
        let c = text.get_char(i);
        let ghost prefix = text@.subrange(from as int, i as int);
        let ghost next = text@.subrange(from as int, i + 1);
        assert(c == whole[i - from]);
        assert(next.drop_last() =~= prefix);
        assert(all_digits(prefix)) by {
            assert forall|j: int| 0 <= j < prefix.len() implies is_digit(#[trigger] prefix[j]) by {
                assert(prefix[j] == whole[j]);
            }
        }
        proof {
            lemma_digits_value_nonneg(prefix);
        }
        let d = (c as u32 - '0' as u32) as u64;
        assert(d == digit_value(c));
        assert(digits_value(next) == digits_value(prefix) * 10 + d);
        if acc > (u64::MAX - d) / 10 {
            assert(digits_value(prefix) * 10 + d > u64::MAX) by (nonlinear_arith)
                requires
                    acc > (u64::MAX - d) / 10,
                    acc <= digits_value(prefix),
                    0 <= d <= 9,
            ;
            acc = u64::MAX;
        } else {
            acc = acc * 10 + d;
        }
        i = i + 1;
    }
    assert(text@.subrange(from as int, i as int) == whole);
    acc
}

/// Whole seconds in `60 * 0.text[from..to]` minutes, that is the digits read
/// as a fraction of a minute, rounded toward zero.
fn fraction_seconds(text: &str, from: usize, to: usize) -> (r: u64)
    requires
        from <= to <= text@.len(),
        all_digits(text@.subrange(from as int, to as int)),
    ensures
        r == (60 * digits_value(text@.subrange(from as int, to as int))) / pow10(
            (to - from) as nat,
        ),
        r < 60,
{
    let ghost all = text@.subrange(from as int, to as int);
    let mut acc: u64 = 0;
    let mut i = to;
    assert(text@.subrange(to as int, to as int) =~= Seq::<char>::empty());
    while i > from
        invariant
            from <= i <= to <= text@.len(),
            all == text@.subrange(from as int, to as int),
            all_digits(all),
            acc < 60,
            acc == (60 * digits_value(text@.subrange(i as int, to as int))) / pow10(
                (to - i) as nat,
            ),
        decreases i - from,
    {
        let c = text.get_char(i - 1);
        assert(c == all[i - 1 - from]);
        let d = (c as u32 - '0' as u32) as u64;
        assert(d == digit_value(c));
        let ghost tail = text@.subrange(i as int, to as int);
        let ghost longer = text@.subrange(i - 1, to as int);
        assert(longer =~= seq![c] + tail);
        let ghost p = pow10((to - i) as nat);
        let ghost y = digits_value(tail);
        proof {
            lemma_digits_value_concat(seq![c], tail);
            assert(seq![c].drop_last() =~= Seq::<char>::empty());
            assert(digits_value(Seq::<char>::empty()) == 0);
            assert(seq![c].last() == c);
            assert(digits_value(seq![c]) == d);
            lemma_pow10_positive((to - i) as nat);
            assert(pow10((to - (i - 1)) as nat) == 10 * p);
            assert(all_digits(tail)) by {
                assert forall|j: int| 0 <= j < tail.len() implies is_digit(#[trigger] tail[j]) by {
                    assert(tail[j] == all[j + i - from]);
                }
            }
            lemma_digits_value_nonneg(tail);
            let x = 60 * (d * p + y);
            assert(x == (60 * d) * p + 60 * y) by (nonlinear_arith)
                requires
                    x == 60 * (d * p + y),
            ;
            assert(x >= 0) by (nonlinear_arith)
                requires
                    x == (60 * d) * p + 60 * y,
                    d >= 0,
                    p > 0,
                    y >= 0,
            ;
            lemma_div_denominator(x, p, 10);
            assert(p * 10 == 10 * p);
            lemma_div_shift(60 * d, 60 * y, p);
        }
        acc = (60 * d + acc) / 10;
        i = i - 1;
    }
    acc
}

/// Reads a minutes entry: an optional sign, then decimal digits with at most
/// one decimal point. Gives the whole seconds that the entry asks for.
pub fn parse_minutes(text: &str) -> (r: Result<u64, StartError>)
    ensures
        r == minutes_text_result(text@),
{
    let n = text.unicode_len();
    let mut start: usize = 0;
    let mut negative = false;
    if n > 0 {
        let c = text.get_char(0);
        if c == '+' || c == '-' {
            start = 1;
            negative = c == '-';
        }
    }
    let ghost m = magnitude_text(text@);
    assert(m =~= text@.subrange(start as int, n as int));
    let mut p = start;
    while p < n && text.get_char(p) != '.'
        invariant
            start <= p <= n,
            n == text@.len(),
            forall|j: int| start <= j < p ==> text@[j] != '.',
        decreases n - p,
    {
        p = p + 1;
    }
    let frac_start = if p < n {
        p + 1
    } else {
        n
    };
    proof {
        assert forall|j: int| 0 <= j < p - start implies m[j] != '.' by {
            assert(m[j] == text@[j + start]);
        }
        if p < n {
            assert(m[p - start] == text@[p as int]);
        }
        lemma_point_index(m, p - start);
        assert(whole_digits(text@) =~= text@.subrange(start as int, p as int));
        assert(fraction_digits(text@) =~= text@.subrange(frac_start as int, n as int));
    }
    if !digits_in(text, start, p) || !digits_in(text, frac_start, n) || (p - start) + (n
        - frac_start) == 0 {
        return Err(StartError::ParseFailure);
    }
    let whole = capped_digits_value(text, start, p);
    let frac = capped_digits_value(text, frac_start, n);
    let ghost w = digits_value(whole_digits(text@));
    let ghost f = digits_value(fraction_digits(text@));
    let ghost k = fraction_digits(text@).len();
    proof {
        lemma_digits_value_nonneg(whole_digits(text@));
        lemma_digits_value_nonneg(fraction_digits(text@));
        lemma_digits_value_concat(whole_digits(text@), fraction_digits(text@));
        lemma_pow10_positive(k);
        assert(scaled_value(text@) == w * pow10(k) + f);
        assert(w * pow10(k) >= 0) by (nonlinear_arith)
            requires
                w >= 0,
                pow10(k) > 0,
        ;
        assert(w > 0 ==> w * pow10(k) > 0) by (nonlinear_arith)
            requires
                w >= 0,
                pow10(k) > 0,
        ;
    }
    assert(negative == is_negative(text@));
    assert(whole == 0 <==> w == 0);
    assert(frac == 0 <==> f == 0);
    assert(w == 0 ==> w * pow10(k) == 0) by (nonlinear_arith);
    if negative || (whole == 0 && frac == 0) {
        return Err(StartError::NonPositiveValue);
    }
    let part = fraction_seconds(text, frac_start, n);
    proof {
        let pk = pow10(k);
        assert(60 * (w * pk + f) == (60 * w) * pk + 60 * f) by (nonlinear_arith);
        lemma_div_shift(60 * w, 60 * f, pk);
    }
    assert((60 * scaled_value(text@)) / pow10(k) == 60 * w + part);
    if whole > (u64::MAX - part) / 60 {
        assert(60 * w + part > u64::MAX) by (nonlinear_arith)
            requires
                whole > (u64::MAX - part) / 60,
                whole <= w,
                part < 60,
        ;
        Ok(u64::MAX)
    } else {
        Ok(60 * whole + part)
    }
}

} // verus!
