//! The grammar of an annotation file: what is read from a given text.
//!
//! The text is read from left to right. A fixed part of the layout is
//! matched character by character, except that white space in it stands for
//! any run of white space in the text, an empty one included. The counts in
//! the text say how many blocks follow, and each block carries its number.

use vstd::prelude::*;
use crate::decimal::{
    count_ok, count_value, digit_run_end, number_end, number_ok, number_value,
};
use crate::grid::{IntervalView, TierView};
use crate::layout::{
    GLOBAL_XMAX, HEAD, INTERVAL_OPEN, INTERVAL_TEXT, INTERVAL_XMAX, INTERVAL_XMIN, ITEMS,
    TIER_COUNT, TIER_NAME, TIER_OPEN, TIER_SIZE, TIER_XMAX, TIER_XMIN,
};
use crate::text::{is_space, space_run_end};

verus! {

/// What was wrong with a text that could not be read.
#[derive(Debug, Clone, Copy, PartialEq, Eq, Structural)]
pub enum ParseErrorKind {
    /// The text does not continue as the layout of a file does: a fixed part,
    /// a count or the number of a block is missing or wrong, or text follows
    /// the last block.
    Structure,
    /// A time is not a number, or is too large.
    Number,
    /// A name or a label is not a quoted text, or its quotation never ends.
    Text,
}

/// The outcome of reading one part of a text: a value and the position
/// after it, or a fault and the position where it was found.
pub enum Parsed<T> {
    Done { value: T, end: int },
    Failed { kind: ParseErrorKind, at: int },
}

/// Matches `pat[i..]` at `p`.
pub open spec fn keyword(s: Seq<char>, p: int, pat: Seq<char>, i: int) -> Parsed<()>
    decreases pat.len() - i,
{
    if i < 0 || i >= pat.len() {
        Parsed::Done { value: (), end: p }
    } else if is_space(pat[i]) {
        keyword(s, space_run_end(s, p), pat, i + 1)
    } else if 0 <= p < s.len() && s[p] == pat[i] {
        keyword(s, p + 1, pat, i + 1)
    } else {
        Parsed::Failed { kind: ParseErrorKind::Structure, at: p }
    }
}

/// The fixed part `pat`, then a time.
pub open spec fn time_field(s: Seq<char>, p: int, pat: Seq<char>) -> Parsed<nat> {
    match keyword(s, p, pat, 0) {
        Parsed::Failed { kind, at } => Parsed::Failed { kind, at },
        Parsed::Done { value: _, end } => if number_ok(s, end) {
            Parsed::Done { value: number_value(s, end), end: number_end(s, end) }
        } else {
            Parsed::Failed { kind: ParseErrorKind::Number, at: end }
        },
    }
}

/// The fixed part `pat`, then a count.
pub open spec fn count_field(s: Seq<char>, p: int, pat: Seq<char>) -> Parsed<nat> {
    match keyword(s, p, pat, 0) {
        Parsed::Failed { kind, at } => Parsed::Failed { kind, at },
        Parsed::Done { value: _, end } => if count_ok(s, end) {
            Parsed::Done { value: count_value(s, end), end: digit_run_end(s, end) }
        } else {
            Parsed::Failed { kind: ParseErrorKind::Structure, at: end }
        },
    }
}

/// The fixed part `pat`, then the number `expected`.
pub open spec fn index_field(s: Seq<char>, p: int, pat: Seq<char>, expected: nat) -> Parsed<()> {
    match keyword(s, p, pat, 0) {
        Parsed::Failed { kind, at } => Parsed::Failed { kind, at },
        Parsed::Done { value: _, end } => if count_ok(s, end) && count_value(s, end) == expected {
            Parsed::Done { value: (), end: digit_run_end(s, end) }
        } else {
            Parsed::Failed { kind: ParseErrorKind::Structure, at: end }
        },
    }
}

/// Where the quoted text whose content starts at `i` closes: the position of
/// the first quotation mark at or after `i` that is not one of a pair, or the
/// length of `s` if there is none.
pub open spec fn quote_end(s: Seq<char>, i: int) -> int
    decreases s.len() - i,
{
    if i < 0 || i >= s.len() {
        s.len() as int
    } else if s[i] != '"' {
        quote_end(s, i + 1)
    } else if i + 1 < s.len() && s[i + 1] == '"' {
        quote_end(s, i + 2)
    } else {
        i
    }
}

/// The content of the quoted text from `i` to where it closes, each pair of
/// quotation marks read as one.
pub open spec fn quote_body(s: Seq<char>, i: int) -> Seq<char>
    decreases s.len() - i,
{
    if i < 0 || i >= s.len() {
        Seq::empty()
    } else if s[i] != '"' {
        seq![s[i]] + quote_body(s, i + 1)
    } else if i + 1 < s.len() && s[i + 1] == '"' {
        seq!['"'] + quote_body(s, i + 2)
    } else {
        Seq::empty()
    }
}

/// Whether a quoted text stands at `p`: it opens there and closes later.
pub open spec fn text_ok(s: Seq<char>, p: int) -> bool {
    0 <= p < s.len() && s[p] == '"' && quote_end(s, p + 1) < s.len()
}

/// The fixed part `pat`, then a quoted text.
pub open spec fn text_field(s: Seq<char>, p: int, pat: Seq<char>) -> Parsed<Seq<char>> {
    match keyword(s, p, pat, 0) {
        Parsed::Failed { kind, at } => Parsed::Failed { kind, at },
        Parsed::Done { value: _, end } => if text_ok(s, end) {
            Parsed::Done { value: quote_body(s, end + 1), end: quote_end(s, end + 1) + 1 }
        } else {
            Parsed::Failed { kind: ParseErrorKind::Text, at: end }
        },
    }
}

/// `x` with `front` before its value.
pub open spec fn after<T>(front: Seq<T>, x: Parsed<Seq<T>>) -> Parsed<Seq<T>> {
    match x {
        Parsed::Failed { kind, at } => Parsed::Failed { kind, at },
        Parsed::Done { value, end } => Parsed::Done { value: front + value, end },
    }
}

/// The block of an interval, the `j`-th of its tier counting from 0.
pub open spec fn interval_at(s: Seq<char>, p: int, j: nat) -> Parsed<IntervalView> {
    match index_field(s, p, INTERVAL_OPEN@, j + 1) {
        Parsed::Failed { kind, at } => Parsed::Failed { kind, at },
        Parsed::Done { value: _, end: p1 } => match time_field(s, p1, INTERVAL_XMIN@) {
            Parsed::Failed { kind, at } => Parsed::Failed { kind, at },
            Parsed::Done { value: xmin, end: p2 } => match time_field(s, p2, INTERVAL_XMAX@) {
                Parsed::Failed { kind, at } => Parsed::Failed { kind, at },
                Parsed::Done { value: xmax, end: p3 } => match text_field(s, p3, INTERVAL_TEXT@) {
                    Parsed::Failed { kind, at } => Parsed::Failed { kind, at },
                    Parsed::Done { value: text, end: p4 } => Parsed::Done {
                        value: IntervalView { xmin, xmax, text },
                        end: p4,
                    },
                },
            },
        },
    }
}

/// The blocks of the intervals from the `from`-th to the `count`-th.
pub open spec fn intervals_at(s: Seq<char>, p: int, from: nat, count: nat) -> Parsed<
    Seq<IntervalView>,
>
    decreases count - from,
{
    if from >= count {
        Parsed::Done { value: Seq::empty(), end: p }
    } else {
        match interval_at(s, p, from) {
            Parsed::Failed { kind, at } => Parsed::Failed { kind, at },
            Parsed::Done { value, end } => after(seq![value], intervals_at(s, end, from + 1, count)),
        }
    }
}

/// What stands in the block of a tier, the `k`-th counting from 0, before its
/// intervals: its name and the number of its intervals.
pub open spec fn tier_head_at(s: Seq<char>, p: int, k: nat) -> Parsed<(Seq<char>, nat)> {
    match index_field(s, p, TIER_OPEN@, k + 1) {
        Parsed::Failed { kind, at } => Parsed::Failed { kind, at },
        Parsed::Done { value: _, end: p1 } => match text_field(s, p1, TIER_NAME@) {
            Parsed::Failed { kind, at } => Parsed::Failed { kind, at },
            Parsed::Done { value: name, end: p2 } => match time_field(s, p2, TIER_XMIN@) {
                Parsed::Failed { kind, at } => Parsed::Failed { kind, at },
                Parsed::Done { value: _, end: p3 } => match time_field(s, p3, TIER_XMAX@) {
                    Parsed::Failed { kind, at } => Parsed::Failed { kind, at },
                    Parsed::Done { value: _, end: p4 } => match count_field(s, p4, TIER_SIZE@) {
                        Parsed::Failed { kind, at } => Parsed::Failed { kind, at },
                        Parsed::Done { value: count, end: p5 } => Parsed::Done {
                            value: (name, count),
                            end: p5,
                        },
                    },
                },
            },
        },
    }
}

/// The block of a tier, the `k`-th counting from 0.
pub open spec fn tier_at(s: Seq<char>, p: int, k: nat) -> Parsed<TierView> {
    match tier_head_at(s, p, k) {
        Parsed::Failed { kind, at } => Parsed::Failed { kind, at },
        Parsed::Done { value: head, end: p1 } => match intervals_at(s, p1, 0, head.1) {
            Parsed::Failed { kind, at } => Parsed::Failed { kind, at },
            Parsed::Done { value: intervals, end: p2 } => Parsed::Done {
                value: TierView { name: head.0, intervals },
                end: p2,
            },
        },
    }
}

/// The blocks of the tiers from the `from`-th to the `count`-th.
pub open spec fn tiers_at(s: Seq<char>, p: int, from: nat, count: nat) -> Parsed<Seq<TierView>>
    decreases count - from,
{
    if from >= count {
        Parsed::Done { value: Seq::empty(), end: p }
    } else {
        match tier_at(s, p, from) {
            Parsed::Failed { kind, at } => Parsed::Failed { kind, at },
            Parsed::Done { value, end } => after(seq![value], tiers_at(s, end, from + 1, count)),
        }
    }
}

/// The header of a file: the number of its tiers.
pub open spec fn head_at(s: Seq<char>, p: int) -> Parsed<nat> {
    match time_field(s, p, HEAD@) {
        Parsed::Failed { kind, at } => Parsed::Failed { kind, at },
        Parsed::Done { value: _, end: p1 } => match time_field(s, p1, GLOBAL_XMAX@) {
            Parsed::Failed { kind, at } => Parsed::Failed { kind, at },
            Parsed::Done { value: _, end: p2 } => match count_field(s, p2, TIER_COUNT@) {
                Parsed::Failed { kind, at } => Parsed::Failed { kind, at },
                Parsed::Done { value: count, end: p3 } => match keyword(s, p3, ITEMS@, 0) {
                    Parsed::Failed { kind, at } => Parsed::Failed { kind, at },
                    Parsed::Done { value: _, end: p4 } => Parsed::Done { value: count, end: p4 },
                },
            },
        },
    }
}

/// A whole file: white space, the header, the tiers it announces, white
/// space, and nothing more.
pub open spec fn file_at(s: Seq<char>) -> Parsed<Seq<TierView>> {
    match head_at(s, space_run_end(s, 0)) {
        Parsed::Failed { kind, at } => Parsed::Failed { kind, at },
        Parsed::Done { value: count, end: p1 } => match tiers_at(s, p1, 0, count) {
            Parsed::Failed { kind, at } => Parsed::Failed { kind, at },
            Parsed::Done { value: tiers, end: p2 } => if space_run_end(s, p2) >= s.len() {
                Parsed::Done { value: tiers, end: s.len() as int }
            } else {
                Parsed::Failed { kind: ParseErrorKind::Structure, at: space_run_end(s, p2) }
            },
        },
    }
}

/// How many characters of the text a fault report quotes at most.
pub const FRAGMENT_LEN: usize = 32;

/// The part of `s` that a fault at `at` quotes.
pub open spec fn fragment_at(s: Seq<char>, at: int) -> Seq<char> {
    if at + FRAGMENT_LEN <= s.len() {
        s.subrange(at, at + FRAGMENT_LEN)
    } else {
        s.subrange(at, s.len() as int)
    }
}

} // verus!
