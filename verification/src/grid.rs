//! The tiered annotation: named tiers of labelled time intervals.
//!
//! Times are whole nanoseconds, so that every comparison and every
//! difference of two times is exact.

use vstd::prelude::*;

verus! {

/// Nanoseconds in one second: the scale of every time in an annotation.
pub const TICKS_PER_SECOND: u64 = 1_000_000_000;

/// What an interval is: a span of time and its label.
pub struct IntervalView {
    pub xmin: nat,
    pub xmax: nat,
    pub text: Seq<char>,
}

/// What a tier is: its name and its intervals, in order.
pub struct TierView {
    pub name: Seq<char>,
    pub intervals: Seq<IntervalView>,
}

/// A labelled span of time, from `xmin` to `xmax` in nanoseconds.
#[derive(Debug)]
pub struct TextGridInterval {
    pub xmin: u64,
    pub xmax: u64,
    pub text: String,
}

/// A named tier: intervals in the order of the file.
#[derive(Debug)]
pub struct TextGridIntervals {
    pub name: String,
    pub intervals: Vec<TextGridInterval>,
}

/// An annotation: its tiers in the order of the file. Where there are two or
/// more, the first is the word tier; the last is the phone tier.
#[derive(Debug)]
pub struct TextGrid {
    pub items: Vec<TextGridIntervals>,
}

/// What each of `intervals` is, in order.
pub open spec fn interval_views(intervals: Seq<TextGridInterval>) -> Seq<IntervalView> {
    Seq::new(intervals.len(), |i: int| intervals[i]@)
}

/// What each of `tiers` is, in order.
pub open spec fn tier_views(tiers: Seq<TextGridIntervals>) -> Seq<TierView> {
    Seq::new(tiers.len(), |i: int| tiers[i]@)
}

impl View for TextGridInterval {
    type V = IntervalView;

    open spec fn view(&self) -> IntervalView {
        IntervalView { xmin: self.xmin as nat, xmax: self.xmax as nat, text: self.text@ }
    }
}

impl View for TextGridIntervals {
    type V = TierView;

    open spec fn view(&self) -> TierView {
        TierView { name: self.name@, intervals: interval_views(self.intervals@) }
    }
}

impl View for TextGrid {
    type V = Seq<TierView>;

    open spec fn view(&self) -> Seq<TierView> {
        tier_views(self.items@)
    }
}

impl Clone for TextGridInterval {
    fn clone(&self) -> (r: Self)
        ensures
            r@ == self@,
    {
        TextGridInterval { xmin: self.xmin, xmax: self.xmax, text: self.text.clone() }
    }
}

impl Clone for TextGridIntervals {
    fn clone(&self) -> (r: Self)
        ensures
            r@ == self@,
    {
        let mut intervals: Vec<TextGridInterval> = Vec::new();
        let mut i: usize = 0;
        while i < self.intervals.len()
            invariant
                i <= self.intervals.len(),
                intervals.len() == i,
                forall|j: int| 0 <= j < i ==> (#[trigger] intervals[j])@ == self.intervals[j]@,
            decreases self.intervals.len() - i,
        {
            intervals.push(self.intervals[i].clone());
            i += 1;
        }
        let r = TextGridIntervals { name: self.name.clone(), intervals };
        assert(r@.intervals =~= self@.intervals);
        r
    }
}

impl Clone for TextGrid {
    fn clone(&self) -> (r: Self)
        ensures
            r@ == self@,
    {
        let mut items: Vec<TextGridIntervals> = Vec::new();
        let mut i: usize = 0;
        while i < self.items.len()
            invariant
                i <= self.items.len(),
                items.len() == i,
                forall|j: int| 0 <= j < i ==> (#[trigger] items[j])@ == self.items[j]@,
            decreases self.items.len() - i,
        {
            items.push(self.items[i].clone());
            i += 1;
        }
        let r = TextGrid { items };
        assert(r@ =~= self@);
        r
    }
}

} // verus!
