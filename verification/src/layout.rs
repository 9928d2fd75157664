//! The text of an annotation file: what is written for a given annotation.
//!
//! A file is a header, then one block for each tier, then one block for each
//! of its intervals. The fixed parts are the constants below; between them
//! stand counts, times and quoted texts. A quotation mark inside a text is
//! written twice.

use vstd::prelude::*;
use crate::decimal::{digits, time_text};
use crate::grid::{IntervalView, TierView};

verus! {

/// The start of a file, up to the time at which the annotation begins.
pub const HEAD: &'static str = "File type = \"ooTextFile\"\nObject class = \"TextGrid\"\n\nxmin = ";

/// Before the time at which the annotation ends.
pub const GLOBAL_XMAX: &'static str = "\nxmax = ";

/// Before the number of tiers.
pub const TIER_COUNT: &'static str = "\ntiers? <exists>\nsize = ";

/// Before the blocks of the tiers.
pub const ITEMS: &'static str = "\nitem []:";

/// The start of the block of a tier, up to its number.
pub const TIER_OPEN: &'static str = "\n    item [";

/// Between the number of a tier and its name.
pub const TIER_NAME: &'static str = "]:\n        class = \"IntervalTier\"\n        name = ";

/// Before the time at which a tier begins.
pub const TIER_XMIN: &'static str = "\n        xmin = ";

/// Before the time at which a tier ends.
pub const TIER_XMAX: &'static str = "\n        xmax = ";

/// Before the number of intervals of a tier.
pub const TIER_SIZE: &'static str = "\n        intervals: size = ";

/// The start of the block of an interval, up to its number.
pub const INTERVAL_OPEN: &'static str = "\n            intervals [";

/// Between the number of an interval and the time at which it begins.
pub const INTERVAL_XMIN: &'static str = "]:\n                xmin = ";

/// Before the time at which an interval ends.
pub const INTERVAL_XMAX: &'static str = "\n                xmax = ";

/// Before the label of an interval.
pub const INTERVAL_TEXT: &'static str = "\n                text = ";

/// `t` with each quotation mark written twice.
pub open spec fn escaped(t: Seq<char>) -> Seq<char>
    decreases t.len(),
{
    if t.len() == 0 {
        Seq::empty()
    } else if t[0] == '"' {
        seq!['"', '"'] + escaped(t.drop_first())
    } else {
        seq![t[0]] + escaped(t.drop_first())
    }
}

/// `t` as a quoted text.
pub open spec fn quoted(t: Seq<char>) -> Seq<char> {
    seq!['"'] + escaped(t) + seq!['"']
}

/// The latest end among `intervals`; 0 where there is none.
pub open spec fn latest_end(intervals: Seq<IntervalView>) -> nat
    decreases intervals.len(),
{
    if intervals.len() == 0 {
        0
    } else {
        let before = latest_end(intervals.drop_last());
        if intervals.last().xmax > before {
            intervals.last().xmax
        } else {
            before
        }
    }
}

/// The latest end among all intervals of `tiers`; 0 where there is none.
pub open spec fn global_end(tiers: Seq<TierView>) -> nat
    decreases tiers.len(),
{
    if tiers.len() == 0 {
        0
    } else {
        let before = global_end(tiers.drop_last());
        let here = latest_end(tiers.last().intervals);
        if here > before {
            here
        } else {
            before
        }
    }
}

/// The block of the interval `iv`, the `j`-th of its tier counting from 0.
pub open spec fn interval_text(iv: IntervalView, j: nat) -> Seq<char> {
    INTERVAL_OPEN@ + digits(j + 1) + INTERVAL_XMIN@ + time_text(iv.xmin) + INTERVAL_XMAX@
        + time_text(iv.xmax) + INTERVAL_TEXT@ + quoted(iv.text)
}

/// The blocks of `intervals[from..]`.
pub open spec fn intervals_text(intervals: Seq<IntervalView>, from: nat) -> Seq<char>
    decreases intervals.len() - from,
{
    if from >= intervals.len() {
        Seq::empty()
    } else {
        interval_text(intervals[from as int], from) + intervals_text(intervals, from + 1)
    }
}

/// What stands in the block of the tier `t`, the `k`-th counting from 0,
/// before its intervals.
pub open spec fn tier_head_text(t: TierView, k: nat) -> Seq<char> {
    TIER_OPEN@ + digits(k + 1) + TIER_NAME@ + quoted(t.name) + TIER_XMIN@ + time_text(0)
        + TIER_XMAX@ + time_text(latest_end(t.intervals)) + TIER_SIZE@ + digits(
        t.intervals.len(),
    )
}

/// The block of the tier `t`, the `k`-th counting from 0.
pub open spec fn tier_text(t: TierView, k: nat) -> Seq<char> {
    tier_head_text(t, k) + intervals_text(t.intervals, 0)
}

/// The blocks of `tiers[from..]`.
pub open spec fn tiers_text(tiers: Seq<TierView>, from: nat) -> Seq<char>
    decreases tiers.len() - from,
{
    if from >= tiers.len() {
        Seq::empty()
    } else {
        tier_text(tiers[from as int], from) + tiers_text(tiers, from + 1)
    }
}

/// The header of the file of `tiers`.
pub open spec fn head_text(tiers: Seq<TierView>) -> Seq<char> {
    HEAD@ + time_text(0) + GLOBAL_XMAX@ + time_text(global_end(tiers)) + TIER_COUNT@ + digits(
        tiers.len(),
    ) + ITEMS@
}

/// The file of `tiers`.
pub open spec fn file_text(tiers: Seq<TierView>) -> Seq<char> {
    head_text(tiers) + tiers_text(tiers, 0) + seq!['\n']
}

/// Whether `tiers` can be written: there is a tier, and none is empty, so
/// that every extent in the file is the end of some interval.
pub open spec fn writable(tiers: Seq<TierView>) -> bool {
    tiers.len() > 0 && forall|k: int| 0 <= k < tiers.len() ==> (#[trigger] tiers[k]).intervals.len()
        > 0
}

} // verus!
