//! Writing the chosen replacements into the phone tier.

use vstd::prelude::*;
use crate::grid::{interval_views, IntervalView, TextGrid, TextGridInterval, TierView};
use crate::text::{chars_of, split_tokens, string_views, tokens};

verus! {

/// Why the choices of an item cannot be applied to its annotation.
#[derive(Debug, Clone, Copy, PartialEq, Eq, Structural)]
pub enum StateError {
    /// There are not as many choices as matches.
    Mismatch,
    /// The choice for the match at this index names an option that does not
    /// exist, or one that would write beyond the end of the tier.
    OutOfRange(usize),
}

/// The token that keeps the label that is there.
pub open spec fn keep() -> Seq<char> {
    seq!['*']
}

/// `labels` with the tokens `toks` written from position `at` on, but for
/// the tokens that keep what is there.
pub open spec fn overwritten(labels: Seq<Seq<char>>, at: int, toks: Seq<Seq<char>>) -> Seq<
    Seq<char>,
> {
    Seq::new(
        labels.len(),
        |q: int|
            if at <= q < at + toks.len() && toks[q - at] != keep() {
                toks[q - at]
            } else {
                labels[q]
            },
    )
}

/// Whether the choice for the `k`-th match can be applied to `len` labels.
pub open spec fn fits(
    len: nat,
    marks: Seq<usize>,
    chosen: Seq<Option<usize>>,
    options: Seq<Seq<char>>,
    k: int,
) -> bool {
    match chosen[k] {
        None => true,
        Some(o) => o < options.len() && marks[k] + tokens(options[o as int]).len() <= len,
    }
}

/// Whether every choice can be applied to `len` labels: there is a choice
/// for each match, and each fits.
pub open spec fn all_fit(
    len: nat,
    marks: Seq<usize>,
    chosen: Seq<Option<usize>>,
    options: Seq<Seq<char>>,
) -> bool {
    chosen.len() == marks.len() && forall|k: int|
        0 <= k < marks.len() ==> fits(len, marks, chosen, options, k)
}

/// Whether `e` says why the choices cannot be applied to `len` labels:
/// their number is wrong, or the first choice that does not fit is the one
/// it names.
pub open spec fn refuses(
    len: nat,
    marks: Seq<usize>,
    chosen: Seq<Option<usize>>,
    options: Seq<Seq<char>>,
    e: StateError,
) -> bool {
    match e {
        StateError::Mismatch => chosen.len() != marks.len(),
        StateError::OutOfRange(k) => chosen.len() == marks.len() && k < marks.len() && !fits(
            len,
            marks,
            chosen,
            options,
            k as int,
        ) && forall|j: int| 0 <= j < k ==> fits(len, marks, chosen, options, j),
    }
}

/// `labels` after the choices for the first `k` matches have been applied,
/// one after the other.
pub open spec fn rewritten(
    labels: Seq<Seq<char>>,
    marks: Seq<usize>,
    chosen: Seq<Option<usize>>,
    options: Seq<Seq<char>>,
    k: int,
) -> Seq<Seq<char>>
    decreases k,
{
    if k <= 0 {
        labels
    } else {
        let before = rewritten(labels, marks, chosen, options, k - 1);
        match chosen[k - 1] {
            None => before,
            Some(o) => overwritten(before, marks[k - 1] as int, tokens(options[o as int])),
        }
    }
}

/// The labels of `intervals`, in order.
pub open spec fn labels_of(intervals: Seq<IntervalView>) -> Seq<Seq<char>> {
    Seq::new(intervals.len(), |i: int| intervals[i].text)
}

/// `intervals` with `labels` in place of their own.
pub open spec fn relabelled(intervals: Seq<IntervalView>, labels: Seq<Seq<char>>) -> Seq<
    IntervalView,
> {
    Seq::new(
        intervals.len(),
        |i: int| IntervalView { xmin: intervals[i].xmin, xmax: intervals[i].xmax, text: labels[i] },
    )
}

/// The labels of the phone tier of `tiers`, which is the last; none where
/// there is no tier.
pub open spec fn phone_labels(tiers: Seq<TierView>) -> Seq<Seq<char>> {
    if tiers.len() == 0 {
        Seq::empty()
    } else {
        labels_of(tiers.last().intervals)
    }
}

/// `tiers` with `labels` as the labels of the phone tier.
pub open spec fn with_phone_labels(tiers: Seq<TierView>, labels: Seq<Seq<char>>) -> Seq<TierView> {
    if tiers.len() == 0 {
        tiers
    } else {
        tiers.update(
            tiers.len() - 1,
            TierView {
                name: tiers.last().name,
                intervals: relabelled(tiers.last().intervals, labels),
            },
        )
    }
}

/// `tiers` after all the choices have been applied to the phone tier.
pub open spec fn applied(
    tiers: Seq<TierView>,
    marks: Seq<usize>,
    chosen: Seq<Option<usize>>,
    options: Seq<Seq<char>>,
) -> Seq<TierView> {
    with_phone_labels(
        tiers,
        rewritten(phone_labels(tiers), marks, chosen, options, marks.len() as int),
    )
}

/// Whether `t` is the token that keeps the label that is there.
fn is_keep(t: &str) -> (b: bool)
    ensures
        b == (t@ == keep()),
{
    let c = chars_of(t);
    if c.len() == 1 && c[0] == '*' {
        assert(c@ =~= keep());
        true
    } else {
        false
    }
}

/// The labels of `tier` as strings of their own.
fn copy_labels(tier: &Vec<TextGridInterval>) -> (r: Vec<String>)
    ensures
        string_views(r@) == labels_of(interval_views(tier@)),
{
    let mut r: Vec<String> = Vec::new();
    let mut i: usize = 0;
    while i < tier.len()
        invariant
            i <= tier.len(),
            r.len() == i,
            forall|j: int| 0 <= j < i ==> (#[trigger] r[j])@ == tier[j].text@,
        decreases tier.len() - i,
    {
        r.push(tier[i].text.clone());
        i += 1;
    }
    assert(string_views(r@) =~= labels_of(interval_views(tier@)));
    r
}

/// Writes the tokens of one option into `labels` from position `at` on.
fn write_option(labels: &mut Vec<String>, at: usize, toks: &Vec<String>)
    requires
        at + toks.len() <= old(labels).len(),
    ensures
        final(labels).len() == old(labels).len(),
        string_views(final(labels)@) == overwritten(
            string_views(old(labels)@),
            at as int,
            string_views(toks@),
        ),
{
    let ghost start = string_views(labels@);
    let ghost ts = string_views(toks@);
    let mut j: usize = 0;
    while j < toks.len()
        invariant
            j <= toks.len(),
            at + toks.len() <= labels.len(),
            labels.len() == start.len(),
            ts == string_views(toks@),
            forall|q: int|
                0 <= q < labels.len() ==> (#[trigger] labels[q])@ == if at <= q < at + j && ts[q
                    - at] != keep() {
                    ts[q - at]
                } else {
                    start[q]
                },
        decreases toks.len() - j,
    {
        if !is_keep(toks[j].as_str()) {
            labels.set(at + j, toks[j].clone());
        }
        j += 1;
    }
    assert(string_views(labels@) =~= overwritten(start, at as int, ts));
}

/// `tier` with `labels` in place of its own.
fn relabel(tier: &Vec<TextGridInterval>, labels: &Vec<String>) -> (r: Vec<TextGridInterval>)
    requires
        labels.len() == tier.len(),
    ensures
        interval_views(r@) == relabelled(interval_views(tier@), string_views(labels@)),
{
    let mut r: Vec<TextGridInterval> = Vec::new();
    let mut i: usize = 0;
    while i < tier.len()
        invariant
            i <= tier.len(),
            labels.len() == tier.len(),
            r.len() == i,
            forall|j: int|
                0 <= j < i ==> (#[trigger] r[j])@ == (IntervalView {
                    xmin: tier[j].xmin as nat,
                    xmax: tier[j].xmax as nat,
                    text: labels[j]@,
                }),
        decreases tier.len() - i,
    {
        r.push(TextGridInterval { xmin: tier[i].xmin, xmax: tier[i].xmax, text: labels[i].clone() });
        i += 1;
    }
    assert(interval_views(r@) =~= relabelled(interval_views(tier@), string_views(labels@)));
    r
}

/// Applies the chosen replacements to a copy of the annotation.
///
/// `marks` are the positions of the matches in the phone tier, the last
/// tier of `tg`; `chosen` holds for each match the index among `options`
/// of the replacement that was chosen for it, if any. The choices are
/// applied in the order of the matches: each token of the option takes
/// the place of the label at its position from the match on, but for the
/// token `*`, which leaves the label as it is. Nothing else changes.
///
/// Where the choices cannot be applied, nothing is returned but the first
/// fault: a choice for each match is needed, and each must name an option
/// that exists and that ends within the tier.
pub fn apply_choices(
    tg: &TextGrid,
    marks: &Vec<usize>,
    chosen: &Vec<Option<usize>>,
    options: &Vec<String>,
) -> (r: Result<TextGrid, StateError>)
    ensures
        match r {
            Ok(new_tg) => all_fit(
                phone_labels(tg@).len(),
                marks@,
                chosen@,
                string_views(options@),
            ) && new_tg@ == applied(tg@, marks@, chosen@, string_views(options@)),
            Err(e) => refuses(
                phone_labels(tg@).len(),
                marks@,
                chosen@,
                string_views(options@),
                e,
            ),
        },
{
    if chosen.len() != marks.len() {
        return Err(StateError::Mismatch);
    }
    let ghost opts = string_views(options@);
    let mut labels: Vec<String> = if tg.items.len() == 0 {
        Vec::new()
    } else {
        copy_labels(&tg.items[tg.items.len() - 1].intervals)
    };
    assert(string_views(labels@) =~= phone_labels(tg@));
    let mut k: usize = 0;
    while k < marks.len()
        invariant
            k <= marks.len(),
            chosen.len() == marks.len(),
            opts == string_views(options@),
            labels.len() == phone_labels(tg@).len(),
            string_views(labels@) == rewritten(phone_labels(tg@), marks@, chosen@, opts, k as int),
            forall|j: int| 0 <= j < k ==> fits(phone_labels(tg@).len(), marks@, chosen@, opts, j),
        decreases marks.len() - k,
    {
        match chosen[k] {
            None => {},
            Some(o) => {
                if o >= options.len() {
                    return Err(StateError::OutOfRange(k));
                }
                let toks = split_tokens(options[o].as_str());
                if toks.len() > labels.len() || marks[k] > labels.len() - toks.len() {
                    return Err(StateError::OutOfRange(k));
                }
                write_option(&mut labels, marks[k], &toks);
            },
        }
        k += 1;
    }
    let mut new_tg = tg.clone();
    if new_tg.items.len() > 0 {
        let last = new_tg.items.len() - 1;
        let intervals = relabel(&new_tg.items[last].intervals, &labels);
        new_tg.items[last].intervals = intervals;
        assert(new_tg@ =~= applied(tg@, marks@, chosen@, opts));
    } else {
        assert(new_tg@ =~= applied(tg@, marks@, chosen@, opts));
    }
    Ok(new_tg)
}

/// A token other than `*` takes the place of the label at its position.
pub proof fn lemma_token_written(labels: Seq<Seq<char>>, at: int, toks: Seq<Seq<char>>, j: int)
    requires
        0 <= at,
        0 <= j < toks.len(),
        at + j < labels.len(),
        toks[j] != keep(),
    ensures
        overwritten(labels, at, toks)[at + j] == toks[j],
{
}

/// The token `*` leaves the label at its position as it is, and so does
/// an option at every position that it does not reach.
pub proof fn lemma_label_kept(labels: Seq<Seq<char>>, at: int, toks: Seq<Seq<char>>, q: int)
    requires
        0 <= q < labels.len(),
        !(at <= q < at + toks.len()) || toks[q - at] == keep(),
    ensures
        overwritten(labels, at, toks)[q] == labels[q],
{
}

/// Where one match alone has a choice, the labels are rewritten by that
/// option alone, at that match.
pub proof fn lemma_single_choice(
    labels: Seq<Seq<char>>,
    marks: Seq<usize>,
    chosen: Seq<Option<usize>>,
    options: Seq<Seq<char>>,
    k: int,
    upto: int,
)
    requires
        chosen.len() == marks.len(),
        0 <= k < marks.len(),
        0 <= upto <= marks.len(),
        chosen[k] is Some,
        forall|j: int| 0 <= j < marks.len() && j != k ==> chosen[j] is None,
    ensures
        rewritten(labels, marks, chosen, options, upto) == if upto <= k {
            labels
        } else {
            overwritten(labels, marks[k] as int, tokens(options[chosen[k]->0 as int]))
        },
    decreases upto,
{
    if upto > 0 {
        lemma_single_choice(labels, marks, chosen, options, k, upto - 1);
    }
}

/// Whether the choice for the `k`-th match writes at position `q`: an
/// option is chosen for the match, it reaches `q`, and its token there is
/// not the one that keeps the label.
pub open spec fn writes_at(
    marks: Seq<usize>,
    chosen: Seq<Option<usize>>,
    options: Seq<Seq<char>>,
    k: int,
    q: int,
) -> bool {
    match chosen[k] {
        None => false,
        Some(o) => {
            let toks = tokens(options[o as int]);
            marks[k] <= q < marks[k] + toks.len() && toks[q - marks[k]] != keep()
        },
    }
}

/// Applying choices leaves as many labels as there were.
pub proof fn lemma_rewritten_length(
    labels: Seq<Seq<char>>,
    marks: Seq<usize>,
    chosen: Seq<Option<usize>>,
    options: Seq<Seq<char>>,
    upto: int,
)
    ensures
        rewritten(labels, marks, chosen, options, upto).len() == labels.len(),
    decreases upto,
{
    if upto > 0 {
        lemma_rewritten_length(labels, marks, chosen, options, upto - 1);
    }
}

/// A label at which no choice writes is left as it is: every position
/// that no chosen option reaches, and every position at which each chosen
/// option that reaches it has the token `*`.
pub proof fn lemma_unwritten_label_kept(
    labels: Seq<Seq<char>>,
    marks: Seq<usize>,
    chosen: Seq<Option<usize>>,
    options: Seq<Seq<char>>,
    upto: int,
    q: int,
)
    requires
        0 <= q < labels.len(),
        forall|k: int| 0 <= k < upto ==> !writes_at(marks, chosen, options, k, q),
    ensures
        rewritten(labels, marks, chosen, options, upto)[q] == labels[q],
    decreases upto,
{
    if upto > 0 {
        lemma_unwritten_label_kept(labels, marks, chosen, options, upto - 1, q);
        lemma_rewritten_length(labels, marks, chosen, options, upto - 1);
        assert(!writes_at(marks, chosen, options, upto - 1, q));
    }
}

/// A label at which a choice writes, and no choice for a later match,
/// is the token of that choice: where no other chosen match writes at a
/// position, the one that does decides the label there.
pub proof fn lemma_last_writer_decides(
    labels: Seq<Seq<char>>,
    marks: Seq<usize>,
    chosen: Seq<Option<usize>>,
    options: Seq<Seq<char>>,
    upto: int,
    k: int,
    q: int,
)
    requires
        0 <= q < labels.len(),
        0 <= k < upto,
        writes_at(marks, chosen, options, k, q),
        forall|j: int| k < j < upto ==> !writes_at(marks, chosen, options, j, q),
    ensures
        rewritten(labels, marks, chosen, options, upto)[q] == tokens(
            options[chosen[k]->0 as int],
        )[q - marks[k]],
    decreases upto,
{
    lemma_rewritten_length(labels, marks, chosen, options, upto - 1);
    if k < upto - 1 {
        lemma_last_writer_decides(labels, marks, chosen, options, upto - 1, k, q);
        assert(!writes_at(marks, chosen, options, upto - 1, q));
    }
}

} // verus!
