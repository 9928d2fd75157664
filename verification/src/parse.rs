//! Reading the text of a file as an annotation.

use vstd::prelude::*;
use crate::decimal::{read_count, read_number};
use crate::grammar::{
    after, count_field, file_at, fragment_at, head_at, index_field, interval_at, intervals_at,
    keyword, quote_body, quote_end, text_field, text_ok, tier_at, tier_head_at, tiers_at,
    time_field, ParseErrorKind, Parsed, FRAGMENT_LEN,
};
use crate::grid::{
    interval_views, tier_views, IntervalView, TextGrid, TextGridInterval, TextGridIntervals,
    TierView,
};
use crate::layout::{
    GLOBAL_XMAX, HEAD, INTERVAL_OPEN, INTERVAL_TEXT, INTERVAL_XMAX, INTERVAL_XMIN, ITEMS,
    TIER_COUNT, TIER_NAME, TIER_OPEN, TIER_SIZE, TIER_XMAX, TIER_XMIN,
};
use crate::text::{chars_of, is_space_char, skip_space, string_of_range};

verus! {

/// Why a text is not an annotation file: the kind of the fault, the position
/// of the character at which it was found, and the text that stands there.
#[derive(Debug)]
pub struct ParseError {
    pub kind: ParseErrorKind,
    pub position: usize,
    pub fragment: String,
}

/// A fault found while reading, and where.
pub struct Fault {
    pub kind: ParseErrorKind,
    pub at: usize,
}

/// Whether the outcome `x` is the fault `f`.
pub open spec fn fails<T>(x: Parsed<T>, f: Fault) -> bool {
    x == (Parsed::<T>::Failed { kind: f.kind, at: f.at as int })
}

/// Matches the fixed part `pat` at `p`.
fn expect(s: &Vec<char>, p: usize, pat: &str) -> (r: Result<usize, Fault>)
    requires
        p <= s.len(),
    ensures
        match r {
            Ok(e) => e <= s.len() && keyword(s@, p as int, pat@, 0) == (Parsed::Done {
                value: (),
                end: e as int,
            }),
            Err(f) => f.at <= s.len() && fails(keyword(s@, p as int, pat@, 0), f),
        },
{
    let pat_chars = chars_of(pat);
    let mut q: usize = p;
    let mut i: usize = 0;
    while i < pat_chars.len()
        invariant
            i <= pat_chars.len(),
            q <= s.len(),
            pat_chars@ == pat@,
            keyword(s@, p as int, pat@, 0) == keyword(s@, q as int, pat@, i as int),
        decreases pat_chars.len() - i,
    {
        let c = pat_chars[i];
        if is_space_char(c) {
            q = skip_space(s, q);
        } else if q < s.len() && s[q] == c {
            q += 1;
        } else {
            return Err(Fault { kind: ParseErrorKind::Structure, at: q });
        }
        i += 1;
    }
    Ok(q)
}

/// Reads the fixed part `pat` and the time after it.
fn read_time_field(s: &Vec<char>, p: usize, pat: &str) -> (r: Result<(u64, usize), Fault>)
    requires
        p <= s.len(),
    ensures
        match r {
            Ok((v, e)) => e <= s.len() && time_field(s@, p as int, pat@) == (Parsed::Done {
                value: v as nat,
                end: e as int,
            }),
            Err(f) => f.at <= s.len() && fails(time_field(s@, p as int, pat@), f),
        },
{
    let q = expect(s, p, pat)?;
    match read_number(s, q) {
        Some((v, e)) => Ok((v, e)),
        None => Err(Fault { kind: ParseErrorKind::Number, at: q }),
    }
}

/// Reads the fixed part `pat` and the count after it.
fn read_count_field(s: &Vec<char>, p: usize, pat: &str) -> (r: Result<(usize, usize), Fault>)
    requires
        p <= s.len(),
    ensures
        match r {
            Ok((v, e)) => e <= s.len() && count_field(s@, p as int, pat@) == (Parsed::Done {
                value: v as nat,
                end: e as int,
            }),
            Err(f) => f.at <= s.len() && fails(count_field(s@, p as int, pat@), f),
        },
{
    let q = expect(s, p, pat)?;
    match read_count(s, q) {
        Some((v, e)) => Ok((v, e)),
        None => Err(Fault { kind: ParseErrorKind::Structure, at: q }),
    }
}

/// Reads the fixed part `pat` and the number `expected` after it.
fn read_index_field(s: &Vec<char>, p: usize, pat: &str, expected: usize) -> (r: Result<
    usize,
    Fault,
>)
    requires
        p <= s.len(),
    ensures
        match r {
            Ok(e) => e <= s.len() && index_field(s@, p as int, pat@, expected as nat) == (
            Parsed::Done { value: (), end: e as int }),
            Err(f) => f.at <= s.len() && fails(
                index_field(s@, p as int, pat@, expected as nat),
                f,
            ),
        },
{
    let q = expect(s, p, pat)?;
    match read_count(s, q) {
        Some((v, e)) => {
            if v == expected {
                Ok(e)
            } else {
                Err(Fault { kind: ParseErrorKind::Structure, at: q })
            }
        },
        None => Err(Fault { kind: ParseErrorKind::Structure, at: q }),
    }
}

/// Reads the quoted text at `p`: its content and the position after it.
fn read_quoted(s: &Vec<char>, p: usize) -> (r: Option<(String, usize)>)
    requires
        p <= s.len(),
    ensures
        r is Some == text_ok(s@, p as int),
        r matches Some((t, e)) ==> t@ == quote_body(s@, p + 1) && e == quote_end(s@, p + 1) + 1
            && e <= s.len(),
{
    if p >= s.len() || s[p] != '"' {
        return None;
    }
    let mut t = String::new();
    let mut i: usize = p + 1;
    assert(t@ + quote_body(s@, i as int) =~= quote_body(s@, p + 1));
    while i < s.len()
        invariant
            p < i <= s.len(),
            s@[p as int] == '"',
            quote_end(s@, p + 1) == quote_end(s@, i as int),
            t@ + quote_body(s@, i as int) == quote_body(s@, p + 1),
        decreases s.len() - i,
    {
        let c = s[i];
        let ghost before = t@;
        if c != '"' {
            t.push(c);
            assert(t@ + quote_body(s@, i + 1) =~= before + (seq![c] + quote_body(s@, i + 1)));
            i += 1;
        } else if i + 1 < s.len() && s[i + 1] == '"' {
            t.push('"');
            assert(t@ + quote_body(s@, i + 2) =~= before + (seq!['"'] + quote_body(s@, i + 2)));
            i += 2;
        } else {
            assert(quote_body(s@, i as int) =~= Seq::<char>::empty());
            assert(t@ =~= t@ + quote_body(s@, i as int));
            assert(quote_end(s@, i as int) == i);
            return Some((t, i + 1));
        }
    }
    None
}

/// Reads the fixed part `pat` and the quoted text after it.
fn read_text_field(s: &Vec<char>, p: usize, pat: &str) -> (r: Result<(String, usize), Fault>)
    requires
        p <= s.len(),
    ensures
        match r {
            Ok((t, e)) => e <= s.len() && text_field(s@, p as int, pat@) == (Parsed::Done {
                value: t@,
                end: e as int,
            }),
            Err(f) => f.at <= s.len() && fails(text_field(s@, p as int, pat@), f),
        },
{
    let q = expect(s, p, pat)?;
    match read_quoted(s, q) {
        Some((t, e)) => Ok((t, e)),
        None => Err(Fault { kind: ParseErrorKind::Text, at: q }),
    }
}

/// Reads the block of an interval, the `j`-th of its tier counting from 0.
fn read_interval(s: &Vec<char>, p: usize, j: usize) -> (r: Result<(TextGridInterval, usize), Fault>)
    requires
        p <= s.len(),
        j < usize::MAX,
    ensures
        match r {
            Ok((iv, e)) => e <= s.len() && interval_at(s@, p as int, j as nat) == (Parsed::Done {
                value: iv@,
                end: e as int,
            }),
            Err(f) => f.at <= s.len() && fails(interval_at(s@, p as int, j as nat), f),
        },
{
    let p1 = read_index_field(s, p, INTERVAL_OPEN, j + 1)?;
    let (xmin, p2) = read_time_field(s, p1, INTERVAL_XMIN)?;
    let (xmax, p3) = read_time_field(s, p2, INTERVAL_XMAX)?;
    let (text, p4) = read_text_field(s, p3, INTERVAL_TEXT)?;
    Ok((TextGridInterval { xmin, xmax, text }, p4))
}

/// Reads the blocks of `count` intervals.
fn read_intervals(s: &Vec<char>, p: usize, count: usize) -> (r: Result<
    (Vec<TextGridInterval>, usize),
    Fault,
>)
    requires
        p <= s.len(),
    ensures
        match r {
            Ok((ivs, e)) => e <= s.len() && intervals_at(s@, p as int, 0, count as nat) == (
            Parsed::Done { value: interval_views(ivs@), end: e as int }),
            Err(f) => f.at <= s.len() && fails(intervals_at(s@, p as int, 0, count as nat), f),
        },
{
    let mut ivs: Vec<TextGridInterval> = Vec::new();
    let mut q: usize = p;
    let mut j: usize = 0;
    assert(interval_views(ivs@) =~= Seq::<IntervalView>::empty());
    assert(after(interval_views(ivs@), intervals_at(s@, q as int, 0, count as nat))
        == intervals_at(s@, p as int, 0, count as nat)) by {
        lemma_after_nothing(intervals_at(s@, q as int, 0, count as nat));
    }
    while j < count
        invariant
            j <= count,
            q <= s.len(),
            after(interval_views(ivs@), intervals_at(s@, q as int, j as nat, count as nat))
                == intervals_at(s@, p as int, 0, count as nat),
        decreases count - j,
    {
        let ghost front = interval_views(ivs@);
        match read_interval(s, q, j) {
            Ok((iv, e)) => {
                proof {
                    lemma_after_after(
                        front,
                        iv@,
                        intervals_at(s@, e as int, (j + 1) as nat, count as nat),
                    );
                    assert(interval_views(ivs@.push(iv)) =~= front.push(iv@));
                }
                ivs.push(iv);
                q = e;
            },
            Err(f) => {
                return Err(f);
            },
        }
        j += 1;
    }
    proof {
        assert(interval_views(ivs@) + Seq::<IntervalView>::empty() =~= interval_views(ivs@));
    }
    Ok((ivs, q))
}

/// Nothing before a value leaves it as it is.
proof fn lemma_after_nothing<T>(x: Parsed<Seq<T>>)
    ensures
        after(Seq::<T>::empty(), x) == x,
{
    match x {
        Parsed::Failed { kind, at } => {},
        Parsed::Done { value, end } => {
            assert(Seq::<T>::empty() + value =~= value);
        },
    }
}

/// Putting `front` before what has `item` before it puts both before it.
proof fn lemma_after_after<T>(front: Seq<T>, item: T, x: Parsed<Seq<T>>)
    ensures
        after(front, after(seq![item], x)) == after(front.push(item), x),
{
    match x {
        Parsed::Failed { kind, at } => {},
        Parsed::Done { value, end } => {
            assert(front + (seq![item] + value) =~= front.push(item) + value);
        },
    }
}

/// Reads the block of a tier, the `k`-th counting from 0.
fn read_tier(s: &Vec<char>, p: usize, k: usize) -> (r: Result<(TextGridIntervals, usize), Fault>)
    requires
        p <= s.len(),
        k < usize::MAX,
    ensures
        match r {
            Ok((t, e)) => e <= s.len() && tier_at(s@, p as int, k as nat) == (Parsed::Done {
                value: t@,
                end: e as int,
            }),
            Err(f) => f.at <= s.len() && fails(tier_at(s@, p as int, k as nat), f),
        },
{
    let p1 = read_index_field(s, p, TIER_OPEN, k + 1)?;
    let (name, p2) = read_text_field(s, p1, TIER_NAME)?;
    let (_, p3) = read_time_field(s, p2, TIER_XMIN)?;
    let (_, p4) = read_time_field(s, p3, TIER_XMAX)?;
    let (count, p5) = read_count_field(s, p4, TIER_SIZE)?;
    assert(tier_head_at(s@, p as int, k as nat) == (Parsed::Done {
        value: (name@, count as nat),
        end: p5 as int,
    }));
    let (intervals, p6) = read_intervals(s, p5, count)?;
    Ok((TextGridIntervals { name, intervals }, p6))
}

/// Reads the blocks of `count` tiers.
fn read_tiers(s: &Vec<char>, p: usize, count: usize) -> (r: Result<
    (Vec<TextGridIntervals>, usize),
    Fault,
>)
    requires
        p <= s.len(),
    ensures
        match r {
            Ok((tiers, e)) => e <= s.len() && tiers_at(s@, p as int, 0, count as nat) == (
            Parsed::Done { value: tier_views(tiers@), end: e as int }),
            Err(f) => f.at <= s.len() && fails(tiers_at(s@, p as int, 0, count as nat), f),
        },
{
    let mut tiers: Vec<TextGridIntervals> = Vec::new();
    let mut q: usize = p;
    let mut k: usize = 0;
    assert(tier_views(tiers@) =~= Seq::<TierView>::empty());
    assert(after(tier_views(tiers@), tiers_at(s@, q as int, 0, count as nat)) == tiers_at(
        s@,
        p as int,
        0,
        count as nat,
    )) by {
        lemma_after_nothing(tiers_at(s@, q as int, 0, count as nat));
    }
    while k < count
        invariant
            k <= count,
            q <= s.len(),
            after(tier_views(tiers@), tiers_at(s@, q as int, k as nat, count as nat)) == tiers_at(
                s@,
                p as int,
                0,
                count as nat,
            ),
        decreases count - k,
    {
        let ghost front = tier_views(tiers@);
        match read_tier(s, q, k) {
            Ok((t, e)) => {
                proof {
                    lemma_after_after(front, t@, tiers_at(s@, e as int, (k + 1) as nat, count as nat));
                    assert(tier_views(tiers@.push(t)) =~= front.push(t@));
                }
                tiers.push(t);
                q = e;
            },
            Err(f) => {
                return Err(f);
            },
        }
        k += 1;
    }
    proof {
        assert(tier_views(tiers@) + Seq::<TierView>::empty() =~= tier_views(tiers@));
    }
    Ok((tiers, q))
}

/// Reads the header: the number of tiers and the position after it.
fn read_head(s: &Vec<char>, p: usize) -> (r: Result<(usize, usize), Fault>)
    requires
        p <= s.len(),
    ensures
        match r {
            Ok((count, e)) => e <= s.len() && head_at(s@, p as int) == (Parsed::Done {
                value: count as nat,
                end: e as int,
            }),
            Err(f) => f.at <= s.len() && fails(head_at(s@, p as int), f),
        },
{
    let (_, p1) = read_time_field(s, p, HEAD)?;
    let (_, p2) = read_time_field(s, p1, GLOBAL_XMAX)?;
    let (count, p3) = read_count_field(s, p2, TIER_COUNT)?;
    let p4 = expect(s, p3, ITEMS)?;
    Ok((count, p4))
}

/// Reads a whole file.
fn read_file(s: &Vec<char>) -> (r: Result<TextGrid, Fault>)
    ensures
        match r {
            Ok(tg) => file_at(s@) == (Parsed::Done { value: tg@, end: s@.len() as int }),
            Err(f) => f.at <= s.len() && fails(file_at(s@), f),
        },
{
    let p0 = skip_space(s, 0);
    let (count, p1) = read_head(s, p0)?;
    let (items, p2) = read_tiers(s, p1, count)?;
    let p3 = skip_space(s, p2);
    if p3 < s.len() {
        Err(Fault { kind: ParseErrorKind::Structure, at: p3 })
    } else {
        Ok(TextGrid { items })
    }
}

/// Reads the text of a file as an annotation.
///
/// The annotation is the one that the grammar gives for `text`. Where the
/// grammar gives none, the fault is reported with its kind, the position of
/// the character at which it was found, and the text that stands there.
pub fn parse_text(text: &str) -> (r: Result<TextGrid, ParseError>)
    ensures
        match r {
            Ok(tg) => file_at(text@) == (Parsed::Done { value: tg@, end: text@.len() as int }),
            Err(e) => file_at(text@) == (Parsed::<Seq<TierView>>::Failed {
                kind: e.kind,
                at: e.position as int,
            }) && e.position <= text@.len() && e.fragment@ == fragment_at(
                text@,
                e.position as int,
            ),
        },
{
    let s = chars_of(text);
    match read_file(&s) {
        Ok(tg) => Ok(tg),
        Err(f) => {
            let to: usize = if s.len() - f.at >= FRAGMENT_LEN {
                f.at + FRAGMENT_LEN
            } else {
                s.len()
            };
            let fragment = string_of_range(&s, f.at, to);
            Err(ParseError { kind: f.kind, position: f.at, fragment })
        },
    }
}

} // verus!
