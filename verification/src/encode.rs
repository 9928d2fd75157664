//! Writing an annotation as the text of a file.

use vstd::prelude::*;
use crate::decimal::{push_digits, push_time};
use crate::grammar::{file_at, Parsed};
use crate::grid::{interval_views, TextGrid, TextGridInterval, TextGridIntervals, TierView};
use crate::roundtrip::{lemma_held_fits, lemma_round_trip};
use crate::layout::{
    escaped, file_text, global_end, head_text, interval_text, intervals_text, latest_end, quoted,
    tier_head_text, tier_text, tiers_text, writable, GLOBAL_XMAX, HEAD, INTERVAL_OPEN,
    INTERVAL_TEXT, INTERVAL_XMAX, INTERVAL_XMIN, ITEMS, TIER_COUNT, TIER_NAME, TIER_OPEN,
    TIER_SIZE, TIER_XMAX, TIER_XMIN,
};
use crate::text::chars_of;

verus! {

/// Why an annotation cannot be written.
#[derive(Debug, Clone, Copy, PartialEq, Eq, Structural)]
pub enum EncodeError {
    /// The annotation has no tier, so the file would have no extent.
    NoTiers,
    /// The tier at this index has no interval, so it would have no extent.
    EmptyTier(usize),
}

/// Whether `e` says why `tiers` cannot be written: there is no tier, or
/// the first tier without intervals is the one it names.
pub open spec fn refuses(tiers: Seq<TierView>, e: EncodeError) -> bool {
    match e {
        EncodeError::NoTiers => tiers.len() == 0,
        EncodeError::EmptyTier(k) => k < tiers.len() && tiers[k as int].intervals.len() == 0
            && forall|j: int| 0 <= j < k ==> (#[trigger] tiers[j]).intervals.len() > 0,
    }
}

/// Appends `t` as a quoted text.
fn push_quoted(out: &mut String, t: &str)
    ensures
        final(out)@ == old(out)@ + quoted(t@),
{
    let chars = chars_of(t);
    let ghost start = out@;
    out.push('"');
    let mut i: usize = 0;
    assert(chars@.skip(0) == chars@);
    assert(out@ == start + seq!['"']);
    while i < chars.len()
        invariant
            i <= chars.len(),
            chars@ == t@,
            out@ + escaped(chars@.skip(i as int)) == start + seq!['"'] + escaped(chars@),
        decreases chars.len() - i,
    {
        let c = chars[i];
        let ghost before = out@;
        proof {
            assert(chars@.skip(i as int).drop_first() == chars@.skip(i + 1));
            assert(chars@.skip(i as int)[0] == c);
        }
        if c == '"' {
            out.push('"');
            out.push('"');
            assert(out@ + escaped(chars@.skip(i + 1)) =~= before + (seq!['"', '"'] + escaped(
                chars@.skip(i + 1),
            )));
        } else {
            out.push(c);
            assert(out@ + escaped(chars@.skip(i + 1)) =~= before + (seq![c] + escaped(
                chars@.skip(i + 1),
            )));
        }
        i += 1;
    }
    assert(escaped(chars@.skip(i as int)) =~= Seq::<char>::empty());
    assert(out@ =~= out@ + Seq::<char>::empty());
    out.push('"');
    assert(out@ =~= start + quoted(t@));
}

/// The latest end among `intervals`.
fn latest_end_of(intervals: &Vec<TextGridInterval>) -> (m: u64)
    ensures
        m == latest_end(interval_views(intervals@)),
{
    let ghost all = interval_views(intervals@);
    let mut m: u64 = 0;
    let mut i: usize = 0;
    while i < intervals.len()
        invariant
            i <= intervals.len(),
            all == interval_views(intervals@),
            m == latest_end(all.take(i as int)),
        decreases intervals.len() - i,
    {
        proof {
            assert(all.take(i + 1).drop_last() == all.take(i as int));
            assert(all.take(i + 1).last() == intervals@[i as int]@);
        }
        if intervals[i].xmax > m {
            m = intervals[i].xmax;
        }
        i += 1;
    }
    assert(all.take(i as int) == all);
    m
}

/// The latest end among all intervals of `tg`.
fn global_end_of(tg: &TextGrid) -> (m: u64)
    ensures
        m == global_end(tg@),
{
    let mut m: u64 = 0;
    let mut i: usize = 0;
    while i < tg.items.len()
        invariant
            i <= tg.items.len(),
            m == global_end(tg@.take(i as int)),
        decreases tg.items.len() - i,
    {
        proof {
            assert(tg@.take(i + 1).drop_last() == tg@.take(i as int));
            assert(tg@.take(i + 1).last() == tg.items@[i as int]@);
        }
        let here = latest_end_of(&tg.items[i].intervals);
        if here > m {
            m = here;
        }
        i += 1;
    }
    assert(tg@.take(i as int) == tg@);
    m
}

/// Appends the block of `iv`, the `j`-th interval of its tier counting from 0.
fn push_interval(out: &mut String, iv: &TextGridInterval, j: usize)
    requires
        j < usize::MAX,
    ensures
        final(out)@ == old(out)@ + interval_text(iv@, j as nat),
{
    let ghost start = out@;
    out.append(INTERVAL_OPEN);
    push_digits(out, (j + 1) as u64);
    out.append(INTERVAL_XMIN);
    push_time(out, iv.xmin);
    out.append(INTERVAL_XMAX);
    push_time(out, iv.xmax);
    out.append(INTERVAL_TEXT);
    push_quoted(out, iv.text.as_str());
    assert(out@ =~= start + interval_text(iv@, j as nat));
}

/// Appends the block of `tier`, the `k`-th tier counting from 0.
fn push_tier(out: &mut String, tier: &TextGridIntervals, k: usize)
    requires
        k < usize::MAX,
    ensures
        final(out)@ == old(out)@ + tier_text(tier@, k as nat),
{
    let ghost start = out@;
    out.append(TIER_OPEN);
    push_digits(out, (k + 1) as u64);
    out.append(TIER_NAME);
    push_quoted(out, tier.name.as_str());
    out.append(TIER_XMIN);
    push_time(out, 0);
    out.append(TIER_XMAX);
    push_time(out, latest_end_of(&tier.intervals));
    out.append(TIER_SIZE);
    push_digits(out, tier.intervals.len() as u64);
    assert(out@ =~= start + tier_head_text(tier@, k as nat));
    let ghost head_done = out@;
    let mut j: usize = 0;
    while j < tier.intervals.len()
        invariant
            j <= tier.intervals.len(),
            out@ + intervals_text(tier@.intervals, j as nat) == head_done + intervals_text(
                tier@.intervals,
                0,
            ),
        decreases tier.intervals.len() - j,
    {
        let ghost before = out@;
        push_interval(out, &tier.intervals[j], j);
        assert(out@ + intervals_text(tier@.intervals, (j + 1) as nat) =~= before + intervals_text(
            tier@.intervals,
            j as nat,
        ));
        j += 1;
    }
    assert(out@ =~= out@ + intervals_text(tier@.intervals, j as nat));
    assert(out@ =~= start + tier_text(tier@, k as nat));
}

/// The index of the first tier without intervals, if there is one.
fn first_empty_tier(tg: &TextGrid) -> (r: Option<usize>)
    ensures
        match r {
            Some(k) => k < tg@.len() && tg@[k as int].intervals.len() == 0 && forall|j: int|
                0 <= j < k ==> (#[trigger] tg@[j]).intervals.len() > 0,
            None => forall|j: int| 0 <= j < tg@.len() ==> (#[trigger] tg@[j]).intervals.len() > 0,
        },
{
    let mut k: usize = 0;
    while k < tg.items.len()
        invariant
            k <= tg.items.len(),
            forall|j: int| 0 <= j < k ==> (#[trigger] tg@[j]).intervals.len() > 0,
        decreases tg.items.len() - k,
    {
        if tg.items[k].intervals.len() == 0 {
            return Some(k);
        }
        k += 1;
    }
    None
}

/// Writes `tg` as the text of a file.
///
/// An annotation without tiers, or with a tier without intervals, has no
/// extent to declare and is refused: the first such fault is reported.
/// The text that is written is read back as the same annotation.
pub fn textgrid_to_string(tg: &TextGrid) -> (r: Result<String, EncodeError>)
    ensures
        match r {
            Ok(text) => writable(tg@) && text@ == file_text(tg@) && file_at(text@) == (
            Parsed::Done { value: tg@, end: text@.len() as int }),
            Err(e) => refuses(tg@, e),
        },
{
    proof {
        lemma_held_fits(*tg);
        lemma_round_trip(tg@);
    }
    if tg.items.len() == 0 {
        return Err(EncodeError::NoTiers);
    }
    if let Some(k) = first_empty_tier(tg) {
        return Err(EncodeError::EmptyTier(k));
    }
    let mut out = String::new();
    out.append(HEAD);
    push_time(&mut out, 0);
    out.append(GLOBAL_XMAX);
    push_time(&mut out, global_end_of(tg));
    out.append(TIER_COUNT);
    push_digits(&mut out, tg.items.len() as u64);
    out.append(ITEMS);
    assert(out@ =~= head_text(tg@));
    let mut k: usize = 0;
    while k < tg.items.len()
        invariant
            k <= tg.items.len(),
            out@ + tiers_text(tg@, k as nat) == head_text(tg@) + tiers_text(tg@, 0),
        decreases tg.items.len() - k,
    {
        let ghost before = out@;
        push_tier(&mut out, &tg.items[k], k);
        assert(out@ + tiers_text(tg@, (k + 1) as nat) =~= before + tiers_text(tg@, k as nat));
        k += 1;
    }
    assert(out@ =~= out@ + tiers_text(tg@, k as nat));
    out.push('\n');
    assert(out@ =~= file_text(tg@));
    Ok(out)
}

} // verus!
