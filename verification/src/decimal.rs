//! Decimal numbers in text: counts, and times with up to nine decimals.
//!
//! A time is written as its whole seconds and, where it has any, a point and
//! its decimals without zeros at the end. It is read from digits, a point and
//! more digits; decimals beyond the ninth round to the nearest nanosecond,
//! a half upwards.

use vstd::prelude::*;

use crate::grid::TICKS_PER_SECOND;

verus! {

/// Whether `c` is one of the digits 0 to 9.
pub open spec fn is_digit(c: char) -> bool {
    0x30 <= c as u32 <= 0x39
}

/// The number that the digit `c` stands for.
pub open spec fn digit_of(c: char) -> nat
    recommends
        is_digit(c),
{
    (c as u32 - 0x30) as nat
}

/// The digit that stands for `d`.
pub open spec fn digit_char(d: nat) -> char
    recommends
        d < 10,
{
    ((d + 0x30) as u8) as char
}

/// The number that a sequence of digits stands for; 0 for none.
pub open spec fn digits_value(s: Seq<char>) -> nat
    decreases s.len(),
{
    if s.len() == 0 {
        0
    } else {
        digits_value(s.drop_last()) * 10 + digit_of(s.last())
    }
}

/// `n` in decimal digits, without zeros in front.
pub open spec fn digits(n: nat) -> Seq<char>
    decreases n,
{
    if n < 10 {
        seq![digit_char(n)]
    } else {
        digits(n / 10).push(digit_char(n % 10))
    }
}

/// The last `width` decimal digits of `n`, with zeros in front where `n` is short.
pub open spec fn fixed_digits(n: nat, width: nat) -> Seq<char>
    decreases width,
{
    if width == 0 {
        Seq::empty()
    } else {
        fixed_digits(n / 10, (width - 1) as nat).push(digit_char(n % 10))
    }
}

/// `f` as `width` decimals, without the zeros at the end; nothing for 0.
pub open spec fn fraction_text(f: nat, width: nat) -> Seq<char>
    decreases width,
{
    if width == 0 || f == 0 {
        Seq::empty()
    } else if f % 10 == 0 {
        fraction_text(f / 10, (width - 1) as nat)
    } else {
        fixed_digits(f, width)
    }
}

/// A time of `t` nanoseconds, written in seconds.
pub open spec fn time_text(t: nat) -> Seq<char> {
    let whole = t / (TICKS_PER_SECOND as nat);
    let f = t % (TICKS_PER_SECOND as nat);
    if f == 0 {
        digits(whole)
    } else {
        digits(whole) + seq!['.'] + fraction_text(f, 9)
    }
}

/// Ten to the power of `k`.
pub open spec fn pow10(k: nat) -> nat
    decreases k,
{
    if k == 0 {
        1
    } else {
        10 * pow10((k - 1) as nat)
    }
}

/// The first position at or after `i` that holds no digit, or the length of
/// `s` if there is none.
pub open spec fn digit_run_end(s: Seq<char>, i: int) -> int
    decreases s.len() - i,
{
    if 0 <= i < s.len() && is_digit(s[i]) {
        digit_run_end(s, i + 1)
    } else {
        i
    }
}

/// The nanoseconds that the decimals `frac` stand for: the first nine as they
/// are, and one more where the tenth is 5 or above.
pub open spec fn fraction_ticks(frac: Seq<char>) -> nat {
    let kept = if frac.len() > 9 {
        frac.take(9)
    } else {
        frac
    };
    let up: nat = if frac.len() > 9 && digit_of(frac[9]) >= 5 {
        1
    } else {
        0
    };
    digits_value(kept) * pow10((9 - kept.len()) as nat) + up
}

/// Where the digits of the number that starts at `i` end, its decimals included.
pub open spec fn number_end(s: Seq<char>, i: int) -> int {
    let e = digit_run_end(s, i);
    if e < s.len() && s[e] == '.' {
        digit_run_end(s, e + 1)
    } else {
        e
    }
}

/// The time in nanoseconds that the number at `i` stands for.
pub open spec fn number_value(s: Seq<char>, i: int) -> nat {
    let e = digit_run_end(s, i);
    let frac = if e < number_end(s, i) {
        s.subrange(e + 1, number_end(s, i))
    } else {
        Seq::empty()
    };
    digits_value(s.subrange(i, e)) * (TICKS_PER_SECOND as nat) + fraction_ticks(frac)
}

/// Whether a time can be read at `i`: there is a digit, and the value fits.
pub open spec fn number_ok(s: Seq<char>, i: int) -> bool {
    i < digit_run_end(s, i) && number_value(s, i) <= u64::MAX
}

/// The count that the digits at `i` stand for.
pub open spec fn count_value(s: Seq<char>, i: int) -> nat {
    digits_value(s.subrange(i, digit_run_end(s, i)))
}

/// Whether a count can be read at `i`: there is a digit, and the value fits.
pub open spec fn count_ok(s: Seq<char>, i: int) -> bool {
    i < digit_run_end(s, i) && count_value(s, i) <= usize::MAX
}

/// A run of digits ends within the text, holds nothing but digits, and
/// is followed by none.
pub proof fn lemma_digit_run_end(s: Seq<char>, i: int)
    requires
        0 <= i <= s.len(),
    ensures
        i <= digit_run_end(s, i) <= s.len(),
        forall|j: int| i <= j < digit_run_end(s, i) ==> is_digit(#[trigger] s[j]),
        digit_run_end(s, i) < s.len() ==> !is_digit(s[digit_run_end(s, i)]),
    decreases s.len() - i,
{
    if i < s.len() && is_digit(s[i]) {
        lemma_digit_run_end(s, i + 1);
    }
}

/// One more digit multiplies the value by ten and adds the digit.
pub proof fn lemma_digits_value_step(s: Seq<char>, i: int, j: int)
    requires
        0 <= i <= j < s.len(),
    ensures
        digits_value(s.subrange(i, j + 1)) == digits_value(s.subrange(i, j)) * 10 + digit_of(s[j]),
{
    let t = s.subrange(i, j + 1);
    assert(t.drop_last() == s.subrange(i, j));
    assert(t.last() == s[j]);
}

/// More digits never stand for less.
pub proof fn lemma_digits_value_grows(s: Seq<char>, i: int, j: int, e: int)
    requires
        0 <= i <= j <= e <= s.len(),
    ensures
        digits_value(s.subrange(i, j)) <= digits_value(s.subrange(i, e)),
    decreases e - j,
{
    if j < e {
        lemma_digits_value_grows(s, i, j, e - 1);
        lemma_digits_value_step(s, i, e - 1);
        let a = digits_value(s.subrange(i, e - 1));
        assert(a <= a * 10 + digit_of(s[e - 1])) by (nonlinear_arith)
            requires
                a >= 0,
                digit_of(s[e - 1]) >= 0,
        ;
    }
}

/// Whether `c` is a digit.
pub(crate) fn is_digit_char(c: char) -> (b: bool)
    ensures
        b == is_digit(c),
{
    let u: u32 = c as u32;
    0x30 <= u && u <= 0x39
}

/// Skips digits from `i` on.
pub(crate) fn skip_digits(s: &Vec<char>, i: usize) -> (j: usize)
    requires
        i <= s.len(),
    ensures
        j == digit_run_end(s@, i as int),
        i <= j <= s.len(),
{
    let mut j: usize = i;
    while j < s.len() && is_digit_char(s[j])
        invariant
            i <= j <= s.len(),
            digit_run_end(s@, i as int) == digit_run_end(s@, j as int),
        decreases s.len() - j,
    {
        j += 1;
    }
    j
}

/// The value of the digits `s[i..e]`, or `None` where it is above `limit`.
fn read_digits(s: &Vec<char>, i: usize, e: usize, limit: u64) -> (r: Option<u64>)
    requires
        i <= e <= s.len(),
        forall|j: int| i <= j < e ==> is_digit(#[trigger] s@[j]),
    ensures
        match r {
            Some(v) => v == digits_value(s@.subrange(i as int, e as int)) && v <= limit,
            None => digits_value(s@.subrange(i as int, e as int)) > limit,
        },
{
    let mut acc: u64 = 0;
    let mut j: usize = i;
    while j < e
        invariant
            i <= j <= e <= s.len(),
            forall|k: int| i <= k < e ==> is_digit(#[trigger] s@[k]),
            acc == digits_value(s@.subrange(i as int, j as int)),
            acc <= limit,
        decreases e - j,
    {
        let c: u32 = s[j] as u32;
        let d: u64 = (c - 0x30) as u64;
        proof {
            lemma_digits_value_step(s@, i as int, j as int);
            lemma_digits_value_grows(s@, i as int, j + 1, e as int);
        }
        if d > limit || acc > (limit - d) / 10 {
            return None;
        }
        acc = acc * 10 + d;
        j += 1;
    }
    Some(acc)
}

/// Reads the count at `i`: its value and where its digits end.
pub(crate) fn read_count(s: &Vec<char>, i: usize) -> (r: Option<(usize, usize)>)
    requires
        i <= s.len(),
    ensures
        r is Some == count_ok(s@, i as int),
        r matches Some((v, e)) ==> v == count_value(s@, i as int) && e == digit_run_end(
            s@,
            i as int,
        ) && i < e <= s.len(),
{
    let e = skip_digits(s, i);
    if e == i {
        return None;
    }
    proof {
        lemma_digit_run_end(s@, i as int);
    }
    match read_digits(s, i, e, usize::MAX as u64) {
        Some(v) => Some((v as usize, e)),
        None => None,
    }
}

/// Reads the decimals `s[from..to]` as nanoseconds.
fn read_fraction(s: &Vec<char>, from: usize, to: usize) -> (f: u64)
    requires
        from <= to <= s.len(),
        forall|j: int| from <= j < to ==> is_digit(#[trigger] s@[j]),
    ensures
        f == fraction_ticks(s@.subrange(from as int, to as int)),
        f <= TICKS_PER_SECOND,
{
    let ghost frac = s@.subrange(from as int, to as int);
    let kept_end: usize = if to - from > 9 {
        from + 9
    } else {
        to
    };
    let ghost kept = s@.subrange(from as int, kept_end as int);
    assert(kept == if frac.len() > 9 {
        frac.take(9)
    } else {
        frac
    });
    let mut f: u64 = 0;
    let mut p: usize = 0;
    while from + p < kept_end
        invariant
            from <= kept_end <= to <= s.len(),
            kept_end - from <= 9,
            from + p <= kept_end,
            forall|j: int| from <= j < to ==> is_digit(#[trigger] s@[j]),
            f == digits_value(s@.subrange(from as int, from + p)),
            f < pow10(p as nat),
        decreases kept_end - from - p,
    {
        let c: u32 = s[from + p] as u32;
        proof {
            lemma_digits_value_step(s@, from as int, from + p);
            lemma_pow10_bound((p + 1) as nat);
        }
        f = f * 10 + (c - 0x30) as u64;
        p += 1;
    }
    let ghost digits_read = f;
    let ghost k = p;
    proof {
        lemma_pow10_bound(0);
        assert(digits_read * 1 == digits_read);
    }
    while p < 9
        invariant
            k <= p <= 9,
            f == digits_read * pow10((p - k) as nat),
            f < pow10(p as nat),
        decreases 9 - p,
    {
        proof {
            lemma_pow10_bound((p + 1) as nat);
            let q = pow10((p - k) as nat);
            assert(digits_read * (10 * q) == (digits_read * q) * 10) by (nonlinear_arith);
        }
        f = f * 10;
        p += 1;
    }
    proof {
        lemma_pow10_bound(9);
    }
    if to - from > 9 && s[from + 9] as u32 >= 0x35 {
        assert(frac[9] == s@[from + 9]);
        f = f + 1;
    }
    f
}

/// Reads the time at `i`: its value in nanoseconds and where the number ends.
pub(crate) fn read_number(s: &Vec<char>, i: usize) -> (r: Option<(u64, usize)>)
    requires
        i <= s.len(),
    ensures
        r is Some == number_ok(s@, i as int),
        r matches Some((v, e)) ==> v == number_value(s@, i as int) && e == number_end(
            s@,
            i as int,
        ) && i < e <= s.len(),
{
    let e1 = skip_digits(s, i);
    if e1 == i {
        return None;
    }
    proof {
        lemma_digit_run_end(s@, i as int);
    }
    let mut e2: usize = e1;
    let mut f: u64 = 0;
    if e1 < s.len() && s[e1] == '.' {
        e2 = skip_digits(s, e1 + 1);
        proof {
            lemma_digit_run_end(s@, e1 + 1);
        }
        f = read_fraction(s, e1 + 1, e2);
    } else {
        proof {
            let none = Seq::<char>::empty();
            assert(digits_value(none) == 0);
            let scale = pow10((9 - none.len()) as nat);
            assert(0 * scale == 0) by (nonlinear_arith);
            assert(fraction_ticks(none) == 0);
        }
    }
    let ghost whole_value = digits_value(s@.subrange(i as int, e1 as int));
    match read_digits(s, i, e1, u64::MAX / TICKS_PER_SECOND) {
        Some(whole) => {
            let total: u128 = whole as u128 * TICKS_PER_SECOND as u128 + f as u128;
            if total > u64::MAX as u128 {
                None
            } else {
                Some((total as u64, e2))
            }
        },
        None => {
            assert(whole_value * 1_000_000_000 > u64::MAX) by (nonlinear_arith)
                requires
                    whole_value > u64::MAX / 1_000_000_000,
            ;
            None
        },
    }
}

/// The powers of ten up to the ninth.
pub proof fn lemma_pow10_bound(k: nat)
    requires
        k <= 9,
    ensures
        pow10(k) <= 1_000_000_000,
        k > 0 ==> pow10(k) == 10 * pow10((k - 1) as nat),
        pow10(9) == 1_000_000_000,
        pow10(0) == 1,
{
    reveal_with_fuel(pow10, 11);
}

/// The digit that stands for `d`.
fn digit_to_char(d: u64) -> (c: char)
    requires
        d < 10,
    ensures
        c == digit_char(d as nat),
{
    (d as u8 + 0x30) as char
}

/// Appends `n` in decimal digits.
pub(crate) fn push_digits(out: &mut String, n: u64)
    ensures
        final(out)@ == old(out)@ + digits(n as nat),
    decreases n,
{
    if n >= 10 {
        push_digits(out, n / 10);
    }
    out.push(digit_to_char(n % 10));
    proof {
        if n >= 10 {
            assert(final(out)@ =~= old(out)@ + digits(n as nat));
        } else {
            assert(final(out)@ =~= old(out)@ + digits(n as nat));
        }
    }
}

/// Appends the last `width` digits of `n`.
fn push_fixed_digits(out: &mut String, n: u64, width: usize)
    ensures
        final(out)@ == old(out)@ + fixed_digits(n as nat, width as nat),
    decreases width,
{
    if width > 0 {
        push_fixed_digits(out, n / 10, width - 1);
        out.push(digit_to_char(n % 10));
    }
    assert(final(out)@ =~= old(out)@ + fixed_digits(n as nat, width as nat));
}

/// Appends `f` as `width` decimals without the zeros at the end.
fn push_fraction(out: &mut String, f: u64, width: usize)
    ensures
        final(out)@ == old(out)@ + fraction_text(f as nat, width as nat),
    decreases width,
{
    if width == 0 || f == 0 {
        assert(final(out)@ =~= old(out)@ + fraction_text(f as nat, width as nat));
    } else if f % 10 == 0 {
        push_fraction(out, f / 10, width - 1);
    } else {
        push_fixed_digits(out, f, width);
    }
}

/// Appends the time `t`, in seconds.
pub(crate) fn push_time(out: &mut String, t: u64)
    ensures
        final(out)@ == old(out)@ + time_text(t as nat),
{
    let whole: u64 = t / TICKS_PER_SECOND;
    let f: u64 = t % TICKS_PER_SECOND;
    push_digits(out, whole);
    if f != 0 {
        out.push('.');
        push_fraction(out, f, 9);
        assert(final(out)@ =~= old(out)@ + time_text(t as nat));
    }
}

} // verus!
