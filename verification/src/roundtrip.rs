//! What is written is read back: the proof that the grammar gives, for the
//! text of any annotation, that annotation.

use vstd::prelude::*;
use crate::decimal::{
    count_ok, count_value, digit_run_end, digits, digits_value,
    fixed_digits, fraction_text, fraction_ticks, is_digit, lemma_pow10_bound, number_end,
    number_ok, number_value, pow10, time_text,
};
use crate::grammar::{
    after, count_field, file_at, head_at, index_field, interval_at, intervals_at, keyword,
    quote_body, quote_end, text_field, text_ok, tier_at, tier_head_at, tiers_at, time_field,
    Parsed,
};
use crate::grid::{IntervalView, TextGrid, TierView, TICKS_PER_SECOND};
use crate::layout::{
    escaped, file_text, global_end, head_text, interval_text, intervals_text, latest_end, quoted,
    tier_head_text, tier_text, tiers_text, GLOBAL_XMAX, HEAD, INTERVAL_OPEN, INTERVAL_TEXT,
    INTERVAL_XMAX, INTERVAL_XMIN, ITEMS, TIER_COUNT, TIER_NAME, TIER_OPEN, TIER_SIZE, TIER_XMAX,
    TIER_XMIN,
};
use crate::text::{is_space, lemma_space_run_end, space_run_end};

verus! {

/// Whether `x` stands in `s` at `p`.
pub open spec fn holds(s: Seq<char>, p: int, x: Seq<char>) -> bool {
    0 <= p && p + x.len() <= s.len() && s.subrange(p, p + x.len()) == x
}

/// Where `a + b` stands, `a` stands, and `b` after it.
proof fn lemma_holds_split(s: Seq<char>, p: int, a: Seq<char>, b: Seq<char>)
    requires
        holds(s, p, a + b),
    ensures
        holds(s, p, a),
        holds(s, p + a.len(), b),
{
    let ab = s.subrange(p, p + (a + b).len());
    assert(s.subrange(p, p + a.len()) =~= a) by {
        assert forall|i: int| 0 <= i < a.len() implies s.subrange(p, p + a.len())[i] == a[i] by {
            assert(ab[i] == (a + b)[i]);
        }
    }
    assert(s.subrange(p + a.len(), p + a.len() + b.len()) =~= b) by {
        assert forall|i: int| 0 <= i < b.len() implies s.subrange(
            p + a.len(),
            p + a.len() + b.len(),
        )[i] == b[i] by {
            assert(ab[a.len() + i] == (a + b)[a.len() + i]);
        }
    }
}

/// Where `x` stands, its characters stand one by one.
proof fn lemma_holds_at(s: Seq<char>, p: int, x: Seq<char>, i: int)
    requires
        holds(s, p, x),
        0 <= i < x.len(),
    ensures
        s[p + i] == x[i],
{
    assert(s.subrange(p, p + x.len())[i] == x[i]);
}

/// A run of white space ends where something else stands, or the text ends.
proof fn lemma_space_run_is(s: Seq<char>, q: int, e: int)
    requires
        0 <= q <= e <= s.len(),
        forall|j: int| q <= j < e ==> is_space(#[trigger] s[j]),
        e == s.len() || !is_space(s[e]),
    ensures
        space_run_end(s, q) == e,
    decreases e - q,
{
    if q < e {
        lemma_space_run_is(s, q + 1, e);
    }
}

/// A run of digits ends where something else stands, or the text ends.
proof fn lemma_digit_run_is(s: Seq<char>, q: int, e: int)
    requires
        0 <= q <= e <= s.len(),
        forall|j: int| q <= j < e ==> is_digit(#[trigger] s[j]),
        e == s.len() || !is_digit(s[e]),
    ensures
        digit_run_end(s, q) == e,
    decreases e - q,
{
    if q < e {
        lemma_digit_run_is(s, q + 1, e);
    }
}

/// Whether the fixed part `pat`, standing in `s` at `p`, can only be read
/// up to its own end: it ends with something other than white space, or
/// something other than white space follows it, or the text ends with it.
pub open spec fn ends_clean(s: Seq<char>, p: int, pat: Seq<char>) -> bool {
    ||| p + pat.len() == s.len()
    ||| (p + pat.len() < s.len() && !is_space(s[p + pat.len()]))
    ||| (pat.len() > 0 && !is_space(pat.last()))
}

/// Where the matching of `pat` stands after `i` of its characters.
spec fn reached(p: int, pat: Seq<char>, i: int) -> int {
    if i > 0 && is_space(pat[i - 1]) {
        p + space_run_end(pat, i)
    } else {
        p + i
    }
}

/// A fixed part of the layout is matched by itself, from any of its
/// characters on.
proof fn lemma_keyword_from(s: Seq<char>, p: int, pat: Seq<char>, i: int)
    requires
        holds(s, p, pat),
        ends_clean(s, p, pat),
        0 <= i <= pat.len(),
    ensures
        keyword(s, reached(p, pat, i), pat, i) == (Parsed::Done { value: (), end: p + pat.len() }),
    decreases pat.len() - i,
{
    let q = reached(p, pat, i);
    if i == pat.len() {
        if i > 0 && is_space(pat[i - 1]) {
            assert(space_run_end(pat, i) == i);
        }
    } else if is_space(pat[i]) {
        let b = space_run_end(pat, i + 1);
        lemma_space_run_end(pat, i + 1);
        assert(space_run_end(pat, i) == b);
        // the run of white space of `pat` from `i` on stands in `s` too
        assert forall|j: int| p + i <= j < p + b implies is_space(#[trigger] s[j]) by {
            lemma_holds_at(s, p, pat, j - p);
        }
        if b < pat.len() {
            lemma_holds_at(s, p, pat, b);
        }
        if i > 0 && is_space(pat[i - 1]) {
            assert(q == p + b);
            lemma_space_run_is(s, p + b, p + b);
        } else {
            assert(q == p + i);
            lemma_space_run_is(s, p + i, p + b);
        }
        assert(space_run_end(s, q) == p + b);
        assert(reached(p, pat, i + 1) == p + b);
        lemma_keyword_from(s, p, pat, i + 1);
    } else {
        if i > 0 && is_space(pat[i - 1]) {
            assert(space_run_end(pat, i) == i);
        }
        assert(q == p + i);
        lemma_holds_at(s, p, pat, i);
        assert(reached(p, pat, i + 1) == p + i + 1);
        lemma_keyword_from(s, p, pat, i + 1);
    }
}

/// A fixed part of the layout is matched by itself.
proof fn lemma_keyword(s: Seq<char>, p: int, pat: Seq<char>)
    requires
        holds(s, p, pat),
        ends_clean(s, p, pat),
    ensures
        keyword(s, p, pat, 0) == (Parsed::Done { value: (), end: p + pat.len() }),
{
    lemma_keyword_from(s, p, pat, 0);
}

/// The digits of a number are digits, and stand for the number.
proof fn lemma_digits(n: nat)
    ensures
        digits(n).len() >= 1,
        forall|i: int| 0 <= i < digits(n).len() ==> is_digit(#[trigger] digits(n)[i]),
        digits_value(digits(n)) == n,
    decreases n,
{
    if n < 10 {
        let d = digits(n);
        assert(d.drop_last() =~= Seq::<char>::empty());
        assert(digits_value(d.drop_last()) == 0);
    } else {
        lemma_digits(n / 10);
        let d = digits(n);
        assert(d.drop_last() =~= digits(n / 10));
    }
}

/// A number below the `width`-th power of ten is what its last `width`
/// digits stand for.
proof fn lemma_fixed_digits(n: nat, width: nat)
    requires
        n < pow10(width),
    ensures
        fixed_digits(n, width).len() == width,
        forall|i: int| 0 <= i < width ==> is_digit(#[trigger] fixed_digits(n, width)[i]),
        digits_value(fixed_digits(n, width)) == n,
    decreases width,
{
    if width > 0 {
        lemma_fixed_digits(n / 10, (width - 1) as nat);
        let d = fixed_digits(n, width);
        assert(d.drop_last() =~= fixed_digits(n / 10, (width - 1) as nat));
    }
}

/// The decimals written for a part of a second are digits, at least one
/// and at most `width`, and stand for that part once scaled to `width`
/// decimals.
proof fn lemma_fraction_text(f: nat, width: nat)
    requires
        0 < f < pow10(width),
    ensures
        1 <= fraction_text(f, width).len() <= width,
        forall|i: int|
            0 <= i < fraction_text(f, width).len() ==> is_digit(
                #[trigger] fraction_text(f, width)[i],
            ),
        digits_value(fraction_text(f, width)) * pow10(
            (width - fraction_text(f, width).len()) as nat,
        ) == f,
    decreases width,
{
    if f % 10 == 0 {
        lemma_fraction_text(f / 10, (width - 1) as nat);
        let x = fraction_text(f / 10, (width - 1) as nat);
        let v = digits_value(x);
        let small = pow10((width - 1 - x.len()) as nat);
        assert(pow10((width - x.len()) as nat) == 10 * small);
        assert(v * (10 * small) == 10 * (v * small)) by (nonlinear_arith);
    } else {
        lemma_fixed_digits(f, width);
        assert(pow10(0) == 1);
        assert(digits_value(fixed_digits(f, width)) * 1 == f);
    }
}

/// A count that was written is read back.
proof fn lemma_count_reads(s: Seq<char>, p: int, n: nat)
    requires
        holds(s, p, digits(n)),
        n <= usize::MAX,
        p + digits(n).len() == s.len() || !is_digit(s[p + digits(n).len()]),
    ensures
        count_ok(s, p),
        count_value(s, p) == n,
        digit_run_end(s, p) == p + digits(n).len(),
{
    lemma_digits(n);
    let e = p + digits(n).len();
    assert forall|j: int| p <= j < e implies is_digit(#[trigger] s[j]) by {
        lemma_holds_at(s, p, digits(n), j - p);
    }
    lemma_digit_run_is(s, p, e);
}

/// A time that was written is read back.
proof fn lemma_time_reads(s: Seq<char>, p: int, t: nat)
    requires
        holds(s, p, time_text(t)),
        t <= u64::MAX,
        p + time_text(t).len() == s.len() || (!is_digit(s[p + time_text(t).len()]) && s[p
            + time_text(t).len()] != '.'),
    ensures
        number_ok(s, p),
        number_value(s, p) == t,
        number_end(s, p) == p + time_text(t).len(),
{
    let whole = t / (TICKS_PER_SECOND as nat);
    let f = t % (TICKS_PER_SECOND as nat);
    let w = digits(whole);
    lemma_digits(whole);
    lemma_pow10_bound(9);
    let e1 = p + w.len();
    if f == 0 {
        assert forall|j: int| p <= j < e1 implies is_digit(#[trigger] s[j]) by {
            lemma_holds_at(s, p, w, j - p);
        }
        lemma_digit_run_is(s, p, e1);
        assert(number_end(s, p) == e1);
        let none = Seq::<char>::empty();
        assert(digits_value(none) == 0);
        let scale = pow10((9 - none.len()) as nat);
        assert(0 * scale == 0) by (nonlinear_arith);
        assert(fraction_ticks(none) == 0);
    } else {
        let x = fraction_text(f, 9);
        lemma_fraction_text(f, 9);
        assert(time_text(t) == (w + seq!['.']) + x);
        lemma_holds_split(s, p, w + seq!['.'], x);
        lemma_holds_split(s, p, w, seq!['.']);
        lemma_holds_at(s, e1, seq!['.'], 0);
        assert(s[e1] == '.');
        assert forall|j: int| p <= j < e1 implies is_digit(#[trigger] s[j]) by {
            lemma_holds_at(s, p, w, j - p);
        }
        lemma_digit_run_is(s, p, e1);
        let e2 = e1 + 1 + x.len();
        assert forall|j: int| e1 + 1 <= j < e2 implies is_digit(#[trigger] s[j]) by {
            lemma_holds_at(s, e1 + 1, x, j - (e1 + 1));
        }
        lemma_digit_run_is(s, e1 + 1, e2);
        assert(number_end(s, p) == e2);
        assert(s.subrange(e1 + 1, e2) == x);
        assert(fraction_ticks(x) == f);
    }
    assert(s.subrange(p, e1) == w);
}

/// A quoted text that was written is read back, from its content on.
proof fn lemma_quote_reads(s: Seq<char>, i: int, t: Seq<char>)
    requires
        holds(s, i, escaped(t) + seq!['"']),
        i + escaped(t).len() + 1 == s.len() || s[i + escaped(t).len() + 1] != '"',
    ensures
        quote_end(s, i) == i + escaped(t).len(),
        quote_body(s, i) == t,
    decreases t.len(),
{
    let x = escaped(t) + seq!['"'];
    if t.len() == 0 {
        lemma_holds_at(s, i, x, 0);
        assert(quote_body(s, i) =~= t);
    } else {
        let rest = t.drop_first();
        if t[0] == '"' {
            assert(x =~= seq!['"', '"'] + (escaped(rest) + seq!['"']));
            lemma_holds_split(s, i, seq!['"', '"'], escaped(rest) + seq!['"']);
            lemma_holds_at(s, i, seq!['"', '"'], 0);
            lemma_holds_at(s, i, seq!['"', '"'], 1);
            lemma_quote_reads(s, i + 2, rest);
            assert(quote_body(s, i) =~= t);
        } else {
            assert(x =~= seq![t[0]] + (escaped(rest) + seq!['"']));
            lemma_holds_split(s, i, seq![t[0]], escaped(rest) + seq!['"']);
            lemma_holds_at(s, i, seq![t[0]], 0);
            lemma_quote_reads(s, i + 1, rest);
            assert(quote_body(s, i) =~= t);
        }
    }
}

/// A quoted text that was written is read back.
proof fn lemma_text_reads(s: Seq<char>, p: int, t: Seq<char>)
    requires
        holds(s, p, quoted(t)),
        p + quoted(t).len() == s.len() || s[p + quoted(t).len()] != '"',
    ensures
        text_ok(s, p),
        quote_body(s, p + 1) == t,
        quote_end(s, p + 1) + 1 == p + quoted(t).len(),
{
    assert(quoted(t) =~= seq!['"'] + (escaped(t) + seq!['"']));
    lemma_holds_split(s, p, seq!['"'], escaped(t) + seq!['"']);
    lemma_holds_at(s, p, seq!['"'], 0);
    lemma_quote_reads(s, p + 1, t);
}

/// How the fixed parts of the layout start and end.
proof fn lemma_layout()
    ensures
        GLOBAL_XMAX@.len() > 0 && GLOBAL_XMAX@[0] == '\n',
        TIER_COUNT@.len() > 0 && TIER_COUNT@[0] == '\n',
        ITEMS@.len() > 0 && ITEMS@[0] == '\n' && ITEMS@.last() == ':',
        TIER_OPEN@.len() > 0 && TIER_OPEN@[0] == '\n',
        TIER_NAME@.len() > 0 && TIER_NAME@[0] == ']',
        TIER_XMIN@.len() > 0 && TIER_XMIN@[0] == '\n',
        TIER_XMAX@.len() > 0 && TIER_XMAX@[0] == '\n',
        TIER_SIZE@.len() > 0 && TIER_SIZE@[0] == '\n',
        INTERVAL_OPEN@.len() > 0 && INTERVAL_OPEN@[0] == '\n',
        INTERVAL_XMIN@.len() > 0 && INTERVAL_XMIN@[0] == ']',
        INTERVAL_XMAX@.len() > 0 && INTERVAL_XMAX@[0] == '\n',
        INTERVAL_TEXT@.len() > 0 && INTERVAL_TEXT@[0] == '\n',
{
    reveal_strlit("\nxmax = ");
    reveal_strlit("\ntiers? <exists>\nsize = ");
    reveal_strlit("\nitem []:");
    reveal_strlit("\n    item [");
    reveal_strlit("]:\n        class = \"IntervalTier\"\n        name = ");
    reveal_strlit("\n        xmin = ");
    reveal_strlit("\n        xmax = ");
    reveal_strlit("\n        intervals: size = ");
    reveal_strlit("\n            intervals [");
    reveal_strlit("]:\n                xmin = ");
    reveal_strlit("\n                xmax = ");
    reveal_strlit("\n                text = ");
}

/// Whether a line break stands in `s` at `e`.
pub open spec fn line_ends(s: Seq<char>, e: int) -> bool {
    0 <= e < s.len() && s[e] == '\n'
}

/// A fixed part and the time after it are read back.
proof fn lemma_time_field(s: Seq<char>, p: int, pat: Seq<char>, t: nat)
    requires
        holds(s, p, pat + time_text(t)),
        t <= u64::MAX,
        line_ends(s, p + pat.len() + time_text(t).len()),
    ensures
        time_field(s, p, pat) == (Parsed::Done {
            value: t,
            end: p + pat.len() + time_text(t).len(),
        }),
{
    lemma_holds_split(s, p, pat, time_text(t));
    lemma_digits(t / (TICKS_PER_SECOND as nat));
    let x = time_text(t);
    assert(x[0] == digits(t / (TICKS_PER_SECOND as nat))[0]);
    lemma_holds_at(s, p + pat.len(), x, 0);
    lemma_keyword(s, p, pat);
    lemma_time_reads(s, p + pat.len(), t);
}

/// A fixed part and the count after it are read back.
proof fn lemma_count_field(s: Seq<char>, p: int, pat: Seq<char>, n: nat)
    requires
        holds(s, p, pat + digits(n)),
        n <= usize::MAX,
        p + pat.len() + digits(n).len() == s.len() || !is_digit(s[p + pat.len() + digits(n).len()]),
    ensures
        count_field(s, p, pat) == (Parsed::Done { value: n, end: p + pat.len() + digits(n).len() }),
        index_field(s, p, pat, n) == (Parsed::Done {
            value: (),
            end: p + pat.len() + digits(n).len(),
        }),
{
    lemma_holds_split(s, p, pat, digits(n));
    lemma_digits(n);
    lemma_holds_at(s, p + pat.len(), digits(n), 0);
    lemma_keyword(s, p, pat);
    lemma_count_reads(s, p + pat.len(), n);
}

/// A fixed part and the quoted text after it are read back.
proof fn lemma_text_field(s: Seq<char>, p: int, pat: Seq<char>, t: Seq<char>)
    requires
        holds(s, p, pat + quoted(t)),
        line_ends(s, p + pat.len() + quoted(t).len()),
    ensures
        text_field(s, p, pat) == (Parsed::Done { value: t, end: p + pat.len() + quoted(t).len() }),
{
    lemma_holds_split(s, p, pat, quoted(t));
    lemma_holds_at(s, p + pat.len(), quoted(t), 0);
    lemma_keyword(s, p, pat);
    lemma_text_reads(s, p + pat.len(), t);
}

/// Whether the times of `iv` are times that an interval can hold.
pub open spec fn interval_fits(iv: IntervalView) -> bool {
    iv.xmin <= u64::MAX && iv.xmax <= u64::MAX
}

/// Whether `intervals` are intervals that a tier can hold.
pub open spec fn intervals_fit(intervals: Seq<IntervalView>) -> bool {
    intervals.len() <= usize::MAX && forall|j: int|
        0 <= j < intervals.len() ==> interval_fits(#[trigger] intervals[j])
}

/// Whether `tiers` are tiers that an annotation can hold.
pub open spec fn tiers_fit(tiers: Seq<TierView>) -> bool {
    tiers.len() <= usize::MAX && forall|k: int|
        0 <= k < tiers.len() ==> intervals_fit((#[trigger] tiers[k]).intervals)
}

/// The block of an interval starts with a line break.
proof fn lemma_interval_text_starts(iv: IntervalView, j: nat)
    ensures
        interval_text(iv, j).len() > 0,
        interval_text(iv, j)[0] == '\n',
{
    lemma_layout();
}

/// The block of an interval is read back.
proof fn lemma_interval(s: Seq<char>, p: int, iv: IntervalView, j: nat)
    requires
        holds(s, p, interval_text(iv, j)),
        interval_fits(iv),
        j < usize::MAX,
        line_ends(s, p + interval_text(iv, j).len()),
    ensures
        interval_at(s, p, j) == (Parsed::Done { value: iv, end: p + interval_text(iv, j).len() }),
{
    lemma_layout();
    let a = INTERVAL_OPEN@ + digits(j + 1);
    let b = INTERVAL_XMIN@ + time_text(iv.xmin);
    let c = INTERVAL_XMAX@ + time_text(iv.xmax);
    let d = INTERVAL_TEXT@ + quoted(iv.text);
    assert(interval_text(iv, j) =~= a + (b + (c + d)));
    lemma_holds_split(s, p, a, b + (c + d));
    let p1 = p + a.len();
    lemma_holds_split(s, p1, b, c + d);
    let p2 = p1 + b.len();
    lemma_holds_split(s, p2, c, d);
    let p3 = p2 + c.len();
    lemma_holds_at(s, p1, b, 0);
    lemma_holds_at(s, p2, c, 0);
    lemma_holds_at(s, p3, d, 0);
    lemma_count_field(s, p, INTERVAL_OPEN@, j + 1);
    lemma_time_field(s, p1, INTERVAL_XMIN@, iv.xmin);
    lemma_time_field(s, p2, INTERVAL_XMAX@, iv.xmax);
    lemma_text_field(s, p3, INTERVAL_TEXT@, iv.text);
}

/// The blocks of intervals, where there are any, start with a line break.
proof fn lemma_intervals_text_starts(intervals: Seq<IntervalView>, from: nat)
    requires
        from < intervals.len(),
    ensures
        intervals_text(intervals, from).len() > 0,
        intervals_text(intervals, from)[0] == '\n',
{
    lemma_interval_text_starts(intervals[from as int], from);
}

/// The blocks of the intervals of a tier are read back.
proof fn lemma_intervals(s: Seq<char>, p: int, intervals: Seq<IntervalView>, from: nat)
    requires
        from <= intervals.len(),
        intervals_fit(intervals),
        holds(s, p, intervals_text(intervals, from)),
        line_ends(s, p + intervals_text(intervals, from).len()),
    ensures
        intervals_at(s, p, from, intervals.len()) == (Parsed::Done {
            value: intervals.subrange(from as int, intervals.len() as int),
            end: p + intervals_text(intervals, from).len(),
        }),
    decreases intervals.len() - from,
{
    if from < intervals.len() {
        let iv = intervals[from as int];
        let x = interval_text(iv, from);
        let rest = intervals_text(intervals, from + 1);
        lemma_holds_split(s, p, x, rest);
        let p1 = p + x.len();
        if from + 1 < intervals.len() {
            lemma_intervals_text_starts(intervals, from + 1);
            lemma_holds_at(s, p1, rest, 0);
        }
        lemma_interval(s, p, iv, from);
        lemma_intervals(s, p1, intervals, from + 1);
        assert(seq![iv] + intervals.subrange(from as int + 1, intervals.len() as int)
            =~= intervals.subrange(from as int, intervals.len() as int));
    } else {
        assert(intervals.subrange(from as int, intervals.len() as int) =~= Seq::<
            IntervalView,
        >::empty());
    }
}

/// The latest end of intervals that fit is a time that fits.
proof fn lemma_latest_end_fits(intervals: Seq<IntervalView>)
    requires
        intervals_fit(intervals),
    ensures
        latest_end(intervals) <= u64::MAX,
    decreases intervals.len(),
{
    if intervals.len() > 0 {
        let before = intervals.drop_last();
        assert forall|j: int| 0 <= j < before.len() implies interval_fits(
            #[trigger] before[j],
        ) by {
            assert(before[j] == intervals[j]);
        }
        lemma_latest_end_fits(before);
        assert(interval_fits(intervals[intervals.len() - 1]));
    }
}

/// The latest end of tiers that fit is a time that fits.
proof fn lemma_global_end_fits(tiers: Seq<TierView>)
    requires
        tiers_fit(tiers),
    ensures
        global_end(tiers) <= u64::MAX,
    decreases tiers.len(),
{
    if tiers.len() > 0 {
        let before = tiers.drop_last();
        assert forall|k: int| 0 <= k < before.len() implies intervals_fit(
            (#[trigger] before[k]).intervals,
        ) by {
            assert(before[k] == tiers[k]);
        }
        lemma_global_end_fits(before);
        assert(intervals_fit(tiers[tiers.len() - 1].intervals));
        lemma_latest_end_fits(tiers.last().intervals);
    }
}

/// The block of a tier starts with a line break.
proof fn lemma_tier_text_starts(t: TierView, k: nat)
    ensures
        tier_text(t, k).len() > 0,
        tier_text(t, k)[0] == '\n',
{
    lemma_layout();
}

/// The block of a tier is read back.
proof fn lemma_tier(s: Seq<char>, p: int, t: TierView, k: nat)
    requires
        holds(s, p, tier_text(t, k)),
        intervals_fit(t.intervals),
        k < usize::MAX,
        line_ends(s, p + tier_text(t, k).len()),
    ensures
        tier_at(s, p, k) == (Parsed::Done { value: t, end: p + tier_text(t, k).len() }),
{
    lemma_layout();
    lemma_latest_end_fits(t.intervals);
    let a = TIER_OPEN@ + digits(k + 1);
    let b = TIER_NAME@ + quoted(t.name);
    let c = TIER_XMIN@ + time_text(0);
    let d = TIER_XMAX@ + time_text(latest_end(t.intervals));
    let e = TIER_SIZE@ + digits(t.intervals.len());
    let f = intervals_text(t.intervals, 0);
    assert(tier_head_text(t, k) =~= a + (b + (c + (d + e))));
    assert(tier_text(t, k) =~= a + (b + (c + (d + (e + f)))));
    lemma_holds_split(s, p, a, b + (c + (d + (e + f))));
    let p1 = p + a.len();
    lemma_holds_split(s, p1, b, c + (d + (e + f)));
    let p2 = p1 + b.len();
    lemma_holds_split(s, p2, c, d + (e + f));
    let p3 = p2 + c.len();
    lemma_holds_split(s, p3, d, e + f);
    let p4 = p3 + d.len();
    lemma_holds_split(s, p4, e, f);
    let p5 = p4 + e.len();
    lemma_holds_at(s, p1, b, 0);
    lemma_holds_at(s, p2, c, 0);
    lemma_holds_at(s, p3, d, 0);
    lemma_holds_at(s, p4, e, 0);
    if t.intervals.len() > 0 {
        lemma_intervals_text_starts(t.intervals, 0);
        lemma_holds_at(s, p5, f, 0);
    }
    lemma_count_field(s, p, TIER_OPEN@, k + 1);
    lemma_text_field(s, p1, TIER_NAME@, t.name);
    lemma_time_field(s, p2, TIER_XMIN@, 0);
    lemma_time_field(s, p3, TIER_XMAX@, latest_end(t.intervals));
    lemma_count_field(s, p4, TIER_SIZE@, t.intervals.len());
    assert(tier_head_at(s, p, k) == (Parsed::Done {
        value: (t.name, t.intervals.len()),
        end: p5,
    }));
    lemma_intervals(s, p5, t.intervals, 0);
    assert(t.intervals.subrange(0, t.intervals.len() as int) =~= t.intervals);
}

/// The blocks of the tiers of an annotation are read back.
proof fn lemma_tiers(s: Seq<char>, p: int, tiers: Seq<TierView>, from: nat)
    requires
        from <= tiers.len(),
        tiers_fit(tiers),
        holds(s, p, tiers_text(tiers, from)),
        line_ends(s, p + tiers_text(tiers, from).len()),
    ensures
        tiers_at(s, p, from, tiers.len()) == (Parsed::Done {
            value: tiers.subrange(from as int, tiers.len() as int),
            end: p + tiers_text(tiers, from).len(),
        }),
    decreases tiers.len() - from,
{
    if from < tiers.len() {
        let t = tiers[from as int];
        let x = tier_text(t, from);
        let rest = tiers_text(tiers, from + 1);
        lemma_holds_split(s, p, x, rest);
        let p1 = p + x.len();
        if from + 1 < tiers.len() {
            lemma_tier_text_starts(tiers[from as int + 1], from + 1);
            lemma_holds_at(s, p1, rest, 0);
        }
        lemma_tier(s, p, t, from);
        lemma_tiers(s, p1, tiers, from + 1);
        assert(seq![t] + tiers.subrange(from as int + 1, tiers.len() as int) =~= tiers.subrange(
            from as int,
            tiers.len() as int,
        ));
    } else {
        assert(tiers.subrange(from as int, tiers.len() as int) =~= Seq::<TierView>::empty());
    }
}

/// The header starts with something other than white space.
proof fn lemma_head_starts()
    ensures
        HEAD@.len() > 0,
        !is_space(HEAD@[0]),
{
    reveal_strlit("File type = \"ooTextFile\"\nObject class = \"TextGrid\"\n\nxmin = ");
}

/// The header of a file is read back.
proof fn lemma_head(s: Seq<char>, p: int, tiers: Seq<TierView>)
    requires
        holds(s, p, head_text(tiers)),
        tiers_fit(tiers),
        line_ends(s, p + head_text(tiers).len()),
    ensures
        head_at(s, p) == (Parsed::Done { value: tiers.len(), end: p + head_text(tiers).len() }),
{
    lemma_layout();
    lemma_global_end_fits(tiers);
    let a = HEAD@ + time_text(0);
    let b = GLOBAL_XMAX@ + time_text(global_end(tiers));
    let c = TIER_COUNT@ + digits(tiers.len());
    let d = ITEMS@;
    assert(head_text(tiers) =~= a + (b + (c + d)));
    lemma_holds_split(s, p, a, b + (c + d));
    let p1 = p + a.len();
    lemma_holds_split(s, p1, b, c + d);
    let p2 = p1 + b.len();
    lemma_holds_split(s, p2, c, d);
    let p3 = p2 + c.len();
    lemma_holds_at(s, p1, b, 0);
    lemma_holds_at(s, p2, c, 0);
    lemma_holds_at(s, p3, d, 0);
    lemma_time_field(s, p, HEAD@, 0);
    lemma_time_field(s, p1, GLOBAL_XMAX@, global_end(tiers));
    lemma_count_field(s, p2, TIER_COUNT@, tiers.len());
    lemma_keyword(s, p3, ITEMS@);
}

/// What is written is read back: for every annotation, the grammar gives
/// for its text that annotation, tier by tier and interval by interval, with
/// the same names, times and labels in the same order.
pub proof fn lemma_round_trip(tiers: Seq<TierView>)
    requires
        tiers_fit(tiers),
    ensures
        file_at(file_text(tiers)) == (Parsed::Done {
            value: tiers,
            end: file_text(tiers).len() as int,
        }),
{
    let s = file_text(tiers);
    let h = head_text(tiers);
    let f = tiers_text(tiers, 0);
    let g = seq!['\n'];
    assert(s =~= h + (f + g));
    assert(s.subrange(0, s.len() as int) =~= s);
    lemma_holds_split(s, 0, h, f + g);
    let p4 = h.len() as int;
    lemma_holds_split(s, p4, f, g);
    let p5 = p4 + f.len();
    lemma_holds_at(s, p5, g, 0);
    if tiers.len() > 0 {
        lemma_tier_text_starts(tiers[0], 0);
        lemma_holds_at(s, p4, f, 0);
    }
    assert(space_run_end(s, 0) == 0) by {
        lemma_head_starts();
        assert(h.len() > 0 && h[0] == HEAD@[0]);
        lemma_holds_at(s, 0, h, 0);
    }
    lemma_head(s, 0, tiers);
    lemma_tiers(s, p4, tiers, 0);
    assert(tiers.subrange(0, tiers.len() as int) =~= tiers);
    lemma_space_run_is(s, p5, p5 + 1);
}

/// The annotations that are held are annotations that fit.
pub proof fn lemma_held_fits(tg: TextGrid)
    ensures
        tiers_fit(tg@),
{
    assert(tg@.len() == tg.items.len());
    assert forall|k: int| 0 <= k < tg@.len() implies intervals_fit(
        (#[trigger] tg@[k]).intervals,
    ) by {
        let tier = tg.items@[k];
        assert(tg@[k] == tier@);
        assert(tier@.intervals.len() == tier.intervals.len());
        assert forall|j: int| 0 <= j < tier@.intervals.len() implies interval_fits(
            #[trigger] tier@.intervals[j],
        ) by {
            assert(tier@.intervals[j] == tier.intervals@[j]@);
        }
    }
}

} // verus!
