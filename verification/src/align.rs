//! Which word each phone belongs to, from the times of two tiers.

use vstd::prelude::*;
use crate::grid::{interval_views, IntervalView, TextGridInterval};

verus! {

/// The time that `a` and `b` share.
pub open spec fn overlap(a: IntervalView, b: IntervalView) -> nat {
    let from = if a.xmin > b.xmin {
        a.xmin
    } else {
        b.xmin
    };
    let to = if a.xmax < b.xmax {
        a.xmax
    } else {
        b.xmax
    };
    if to > from {
        (to - from) as nat
    } else {
        0
    }
}

/// The time that `a` lasts.
pub open spec fn duration(a: IntervalView) -> nat {
    if a.xmax > a.xmin {
        (a.xmax - a.xmin) as nat
    } else {
        0
    }
}

/// Whether `word` covers `phone`: they share more than four fifths of the
/// time that the phone lasts.
pub open spec fn covers(word: IntervalView, phone: IntervalView) -> bool {
    duration(phone) > 0 && 5 * overlap(word, phone) > 4 * duration(phone)
}

/// The words given to the phones from the `p`-th on, when the sweep stands
/// at the `w`-th word: as long as the word covers the phone, the phone gets
/// the word and the next phone is tried; else the next word is tried. The
/// sweep ends with the words or with the phones.
pub open spec fn sweep(words: Seq<IntervalView>, phones: Seq<IntervalView>, w: int, p: int) -> Seq<
    int,
>
    decreases words.len() - w, phones.len() - p,
{
    if w < 0 || p < 0 || w >= words.len() || p >= phones.len() {
        Seq::empty()
    } else if covers(words[w], phones[p]) {
        seq![w] + sweep(words, phones, w, p + 1)
    } else {
        sweep(words, phones, w + 1, p)
    }
}

/// The word of every phone, where the sweep gives every phone a word.
pub open spec fn alignment(words: Seq<IntervalView>, phones: Seq<IntervalView>) -> Option<
    Seq<int>,
> {
    let given = sweep(words, phones, 0, 0);
    if given.len() == phones.len() {
        Some(given)
    } else {
        None
    }
}

/// The numbers in `v`, in order.
pub open spec fn as_ints(v: Seq<usize>) -> Seq<int> {
    Seq::new(v.len(), |i: int| v[i] as int)
}

/// The sweep gives words to phones one after the other, never more than
/// there are phones; each phone gets a word that covers it, and no phone
/// gets an earlier word than the phone before it.
pub proof fn lemma_sweep_sound(
    words: Seq<IntervalView>,
    phones: Seq<IntervalView>,
    w: int,
    p: int,
)
    requires
        0 <= w,
        0 <= p,
    ensures
        sweep(words, phones, w, p).len() <= if p <= phones.len() {
            phones.len() - p
        } else {
            0
        },
        forall|i: int|
            0 <= i < sweep(words, phones, w, p).len() ==> {
                let given = #[trigger] sweep(words, phones, w, p)[i];
                w <= given < words.len() && covers(words[given], phones[p + i])
            },
        forall|i: int, j: int|
            0 <= i <= j < sweep(words, phones, w, p).len() ==> sweep(words, phones, w, p)[i]
                <= sweep(words, phones, w, p)[j],
    decreases words.len() - w, phones.len() - p,
{
    if w >= words.len() || p >= phones.len() {
    } else if covers(words[w], phones[p]) {
        lemma_sweep_sound(words, phones, w, p + 1);
        let rest = sweep(words, phones, w, p + 1);
        let all = sweep(words, phones, w, p);
        assert(all == seq![w] + rest);
        assert forall|i: int| 0 <= i < all.len() implies {
            let given = #[trigger] all[i];
            w <= given < words.len() && covers(words[given], phones[p + i])
        } by {
            if i > 0 {
                assert(all[i] == rest[i - 1]);
            }
        }
        assert forall|i: int, j: int| 0 <= i <= j < all.len() implies all[i] <= all[j] by {
            if i > 0 {
                assert(all[i] == rest[i - 1]);
                assert(all[j] == rest[j - 1]);
            } else if j > 0 {
                assert(all[j] == rest[j - 1]);
            }
        }
    } else {
        lemma_sweep_sound(words, phones, w + 1, p);
    }
}

/// Whether `word` covers `phone`.
pub fn covers_interval(word: &TextGridInterval, phone: &TextGridInterval) -> (b: bool)
    ensures
        b == covers(word@, phone@),
{
    if phone.xmax <= phone.xmin {
        return false;
    }
    let from: u64 = if word.xmin > phone.xmin {
        word.xmin
    } else {
        phone.xmin
    };
    let to: u64 = if word.xmax < phone.xmax {
        word.xmax
    } else {
        phone.xmax
    };
    let shared: u64 = if to > from {
        to - from
    } else {
        0
    };
    let lasts: u64 = phone.xmax - phone.xmin;
    5 * (shared as u128) > 4 * (lasts as u128)
}

/// Gives every phone the word it belongs to, by its index among `words`.
///
/// The words are tried in order against the phones in order, as `sweep`
/// says. Where that leaves a phone without a word there is no alignment:
/// the result is never a part of one.
pub fn align(words: &Vec<TextGridInterval>, phones: &Vec<TextGridInterval>) -> (r: Option<
    Vec<usize>,
>)
    ensures
        match r {
            Some(given) => alignment(interval_views(words@), interval_views(phones@)) == Some(
                as_ints(given@),
            ),
            None => alignment(interval_views(words@), interval_views(phones@)) is None,
        },
        r matches Some(given) ==> given.len() == phones.len() && forall|i: int|
            0 <= i < given.len() ==> (#[trigger] given[i]) < words.len() && covers(
                words[given[i] as int]@,
                phones[i]@,
            ),
{
    let ghost ws = interval_views(words@);
    let ghost ps = interval_views(phones@);
    let mut given: Vec<usize> = Vec::new();
    let mut w: usize = 0;
    let mut p: usize = 0;
    assert(as_ints(given@) + sweep(ws, ps, 0, 0) =~= sweep(ws, ps, 0, 0));
    while w < words.len() && p < phones.len()
        invariant
            w <= words.len(),
            p <= phones.len(),
            ws == interval_views(words@),
            ps == interval_views(phones@),
            as_ints(given@) + sweep(ws, ps, w as int, p as int) == sweep(ws, ps, 0, 0),
        decreases (words.len() - w) + (phones.len() - p),
    {
        if covers_interval(&words[w], &phones[p]) {
            let ghost front = as_ints(given@);
            given.push(w);
            assert(as_ints(given@) + sweep(ws, ps, w as int, p + 1) =~= front + (seq![w as int]
                + sweep(ws, ps, w as int, p + 1)));
            p += 1;
        } else {
            w += 1;
        }
    }
    assert(as_ints(given@) + Seq::<int>::empty() =~= as_ints(given@));
    proof {
        lemma_sweep_sound(ws, ps, 0, 0);
    }
    if given.len() == phones.len() {
        assert forall|i: int| 0 <= i < given.len() implies (#[trigger] given[i]) < words.len()
            && covers(words[given[i] as int]@, phones[i]@) by {
            assert(sweep(ws, ps, 0, 0)[i] == given[i] as int);
        }
        Some(given)
    } else {
        None
    }
}

} // verus!
