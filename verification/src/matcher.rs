//! Where a rule matches in the phone tier, and how a match is shown.

use vstd::prelude::*;
use crate::align::{align, alignment, as_ints};
use crate::grid::{interval_views, IntervalView, TextGrid, TextGridInterval, TierView};
use crate::rules::ReplaceRule;
use crate::text::{
    chars_of, joined, split_tokens, string_of_range, string_views, tokens, trim, trim_bounds,
};

verus! {

/// The labels of the `arity` phones from the `i`-th on.
pub open spec fn window(phones: Seq<IntervalView>, i: int, arity: nat) -> Seq<Seq<char>> {
    Seq::new(arity, |j: int| phones[i + j].text)
}

/// Whether a window of `arity` phones starts at `i` whose labels are the
/// tokens of one of `terms`.
pub open spec fn matches_at(
    terms: Seq<Seq<char>>,
    arity: nat,
    phones: Seq<IntervalView>,
    i: int,
) -> bool {
    arity >= 1 && 0 <= i && i + arity <= phones.len() && exists|t: int|
        0 <= t < terms.len() && #[trigger] tokens(terms[t]) == window(phones, i, arity)
}

/// `s` up to its first colon, or all of `s` if it has none.
pub open spec fn before_colon(s: Seq<char>) -> Seq<char>
    decreases s.len(),
{
    if s.len() == 0 || s[0] == ':' {
        Seq::empty()
    } else {
        seq![s[0]] + before_colon(s.drop_first())
    }
}

/// `a` with each run of equal numbers reduced to one.
pub open spec fn collapsed(a: Seq<int>) -> Seq<int>
    decreases a.len(),
{
    if a.len() == 0 {
        Seq::empty()
    } else if a.len() >= 2 && a[a.len() - 2] == a.last() {
        collapsed(a.drop_last())
    } else {
        collapsed(a.drop_last()).push(a.last())
    }
}

/// The labels of the words `which`, each up to its first colon.
pub open spec fn word_names(words: Seq<IntervalView>, which: Seq<int>) -> Seq<Seq<char>> {
    Seq::new(which.len(), |k: int| before_colon(words[which[k]].text))
}

/// The words that the window at `i` spans, in brackets and followed by a
/// space; nothing where there is no alignment.
pub open spec fn words_part(
    words: Seq<IntervalView>,
    given: Option<Seq<int>>,
    i: int,
    arity: nat,
) -> Seq<char> {
    match given {
        None => Seq::empty(),
        Some(a) => seq!['('] + joined(word_names(words, collapsed(a.subrange(i, i + arity))))
            + seq![')', ' '],
    }
}

/// The labels of the phones from `from` up to `to`, each followed by a space.
pub open spec fn spaced_labels(phones: Seq<IntervalView>, from: int, to: int) -> Seq<char>
    decreases to - from,
{
    if to <= from {
        Seq::empty()
    } else {
        spaced_labels(phones, from, to - 1) + phones[to - 1].text + seq![' ']
    }
}

/// Where the phones shown before the window at `i` start.
pub open spec fn before_from(i: int) -> int {
    if i >= 2 {
        i - 2
    } else {
        0
    }
}

/// Where the phones shown after the window at `i` start: after the window,
/// but not after the last phone.
pub open spec fn after_from(i: int, arity: nat, len: int) -> int {
    if i + arity <= len - 1 {
        i + arity
    } else {
        len - 1
    }
}

/// Where the phones shown after the window at `i` end.
pub open spec fn after_to(i: int, arity: nat, len: int) -> int {
    if i + arity + 2 <= len {
        i + arity + 2
    } else {
        len
    }
}

/// The window at `i` between square brackets, followed by a space.
pub open spec fn window_part(phones: Seq<IntervalView>, i: int, arity: nat) -> Seq<char> {
    seq!['['] + joined(window(phones, i, arity)) + seq![']', ' ']
}

/// How the match at `i` is shown: the words it spans, up to two phones
/// before it, the window, up to two phones after it, without white space at
/// either end.
pub open spec fn title(
    words: Seq<IntervalView>,
    phones: Seq<IntervalView>,
    given: Option<Seq<int>>,
    i: int,
    arity: nat,
) -> Seq<char> {
    trim(
        words_part(words, given, i, arity) + spaced_labels(phones, before_from(i), i)
            + window_part(phones, i, arity) + spaced_labels(
            phones,
            after_from(i, arity, phones.len() as int),
            after_to(i, arity, phones.len() as int),
        ),
    )
}

/// The ranges of phones shown around the window at `i`: those before it as
/// `(from, to)`, then those after it as `(from, to)`.
pub fn context_ranges(i: usize, arity: usize, len: usize) -> (r: (usize, usize, usize, usize))
    requires
        arity >= 1,
        i + arity <= len,
    ensures
        r.0 == before_from(i as int),
        r.1 == i,
        r.2 == after_from(i as int, arity as nat, len as int),
        r.3 == after_to(i as int, arity as nat, len as int),
        r.0 <= r.1 <= r.0 + 2,
        r.2 <= r.3 <= r.2 + 2,
        r.3 <= len,
{
    let b0: usize = if i >= 2 {
        i - 2
    } else {
        0
    };
    let a0: usize = if i + arity <= len - 1 {
        i + arity
    } else {
        len - 1
    };
    let a1: usize = if len - (i + arity) >= 2 {
        i + arity + 2
    } else {
        len
    };
    (b0, i, a0, a1)
}

/// The alignment that `given` holds, if any.
pub open spec fn given_view(given: Option<Vec<usize>>) -> Option<Seq<int>> {
    match given {
        None => None,
        Some(a) => Some(as_ints(a@)),
    }
}

/// Appends the labels of `phones[from..to]`, each followed by a space.
fn push_spaced(out: &mut String, phones: &Vec<TextGridInterval>, from: usize, to: usize)
    requires
        from <= to <= phones.len(),
    ensures
        final(out)@ == old(out)@ + spaced_labels(interval_views(phones@), from as int, to as int),
{
    let ghost start = out@;
    let ghost ps = interval_views(phones@);
    let mut k: usize = from;
    assert(out@ =~= start + spaced_labels(ps, from as int, k as int));
    while k < to
        invariant
            from <= k <= to <= phones.len(),
            ps == interval_views(phones@),
            out@ == start + spaced_labels(ps, from as int, k as int),
        decreases to - k,
    {
        let ghost before = out@;
        out.append(phones[k].text.as_str());
        out.push(' ');
        assert(out@ =~= start + (spaced_labels(ps, from as int, k as int) + ps[k as int].text
            + seq![' ']));
        k += 1;
    }
}

/// Appends the window at `i` in square brackets, followed by a space.
fn push_window(out: &mut String, phones: &Vec<TextGridInterval>, i: usize, arity: usize)
    requires
        i + arity <= phones.len(),
    ensures
        final(out)@ == old(out)@ + window_part(interval_views(phones@), i as int, arity as nat),
{
    let ghost start = out@;
    let ghost win = window(interval_views(phones@), i as int, arity as nat);
    out.push('[');
    let mut j: usize = 0;
    assert(win.take(0) =~= Seq::<Seq<char>>::empty());
    assert(out@ =~= start + seq!['['] + joined(win.take(0)));
    while j < arity
        invariant
            j <= arity,
            i + arity <= phones.len(),
            win == window(interval_views(phones@), i as int, arity as nat),
            out@ == start + seq!['['] + joined(win.take(j as int)),
        decreases arity - j,
    {
        proof {
            assert(win.take(j + 1).drop_last() =~= win.take(j as int));
            assert(win.take(j + 1).last() == phones@[i + j]@.text);
        }
        if j > 0 {
            out.push(' ');
        }
        out.append(phones[i + j].text.as_str());
        assert(out@ =~= start + seq!['['] + joined(win.take(j + 1)));
        j += 1;
    }
    assert(win.take(j as int) =~= win);
    out.push(']');
    out.push(' ');
    assert(out@ =~= start + window_part(interval_views(phones@), i as int, arity as nat));
}

/// Appends `label` up to its first colon.
fn push_before_colon(out: &mut String, label: &str)
    ensures
        final(out)@ == old(out)@ + before_colon(label@),
{
    let ghost start = out@;
    let chars = chars_of(label);
    let mut k: usize = 0;
    assert(chars@.skip(0) =~= chars@);
    while k < chars.len() && chars[k] != ':'
        invariant
            k <= chars.len(),
            chars@ == label@,
            out@ + before_colon(chars@.skip(k as int)) == start + before_colon(chars@),
        decreases chars.len() - k,
    {
        let ghost before = out@;
        proof {
            assert(chars@.skip(k as int).drop_first() =~= chars@.skip(k + 1));
            assert(chars@.skip(k as int)[0] == chars@[k as int]);
        }
        out.push(chars[k]);
        assert(out@ + before_colon(chars@.skip(k + 1)) =~= before + (seq![chars@[k as int]]
            + before_colon(chars@.skip(k + 1))));
        k += 1;
    }
    proof {
        if k < chars.len() {
            assert(chars@.skip(k as int)[0] == chars@[k as int]);
        }
        assert(before_colon(chars@.skip(k as int)) =~= Seq::<char>::empty());
        assert(out@ =~= out@ + before_colon(chars@.skip(k as int)));
    }
}

/// Something collapsed is not nothing.
proof fn lemma_collapsed_nonempty(a: Seq<int>)
    ensures
        (collapsed(a).len() == 0) == (a.len() == 0),
    decreases a.len(),
{
    if a.len() > 0 {
        lemma_collapsed_nonempty(a.drop_last());
    }
}

/// Appends the words that the window at `i` spans, in brackets and
/// followed by a space.
fn push_words(
    out: &mut String,
    words: &Vec<TextGridInterval>,
    given: &Vec<usize>,
    i: usize,
    arity: usize,
)
    requires
        i + arity <= given.len(),
        forall|k: int| 0 <= k < given.len() ==> (#[trigger] given[k]) < words.len(),
    ensures
        final(out)@ == old(out)@ + words_part(
            interval_views(words@),
            Some(as_ints(given@)),
            i as int,
            arity as nat,
        ),
{
    let ghost start = out@;
    let ghost ws = interval_views(words@);
    let ghost sub = as_ints(given@).subrange(i as int, i + arity);
    out.push('(');
    let mut j: usize = 0;
    assert(sub.take(0) =~= Seq::<int>::empty());
    assert(word_names(ws, collapsed(sub.take(0))) =~= Seq::<Seq<char>>::empty());
    assert(out@ =~= start + seq!['('] + joined(word_names(ws, collapsed(sub.take(0)))));
    while j < arity
        invariant
            j <= arity,
            i + arity <= given.len(),
            forall|k: int| 0 <= k < given.len() ==> (#[trigger] given[k]) < words.len(),
            ws == interval_views(words@),
            sub == as_ints(given@).subrange(i as int, i + arity),
            out@ == start + seq!['('] + joined(word_names(ws, collapsed(sub.take(j as int)))),
        decreases arity - j,
    {
        let w = given[i + j];
        let ghost seen = collapsed(sub.take(j as int));
        proof {
            lemma_collapsed_nonempty(sub.take(j as int));
            assert(sub.take(j + 1).drop_last() =~= sub.take(j as int));
            assert(sub.take(j + 1).last() == w as int);
            if j > 0 {
                assert(sub.take(j + 1)[j - 1] == given[i + j - 1] as int);
            }
        }
        if j > 0 && given[i + j - 1] == w {
            assert(collapsed(sub.take(j + 1)) == seen);
        } else {
            assert(collapsed(sub.take(j + 1)) == seen.push(w as int));
            let ghost names = word_names(ws, seen);
            let ghost more = word_names(ws, seen.push(w as int));
            proof {
                assert(more.drop_last() =~= names);
                assert(more.last() == before_colon(words@[w as int]@.text));
            }
            if j > 0 {
                out.push(' ');
            } else {
                assert(joined(more) =~= Seq::<char>::empty() + more.last());
            }
            push_before_colon(out, words[w].text.as_str());
            assert(out@ =~= start + seq!['('] + joined(more));
        }
        j += 1;
    }
    assert(sub.take(j as int) =~= sub);
    out.push(')');
    out.push(' ');
    assert(out@ =~= start + words_part(ws, Some(as_ints(given@)), i as int, arity as nat));
}

/// How the match at `i` is shown.
fn title_of(
    words: &Vec<TextGridInterval>,
    phones: &Vec<TextGridInterval>,
    given: &Option<Vec<usize>>,
    i: usize,
    arity: usize,
) -> (r: String)
    requires
        arity >= 1,
        i + arity <= phones.len(),
        given matches Some(a) ==> a.len() == phones.len() && forall|k: int|
            0 <= k < a.len() ==> (#[trigger] a[k]) < words.len(),
    ensures
        r@ == title(
            interval_views(words@),
            interval_views(phones@),
            given_view(*given),
            i as int,
            arity as nat,
        ),
{
    let mut out = String::new();
    match given {
        Some(a) => {
            push_words(&mut out, words, a, i, arity);
        },
        None => {},
    }
    let (b0, b1, a0, a1) = context_ranges(i, arity, phones.len());
    push_spaced(&mut out, phones, b0, b1);
    push_window(&mut out, phones, i, arity);
    push_spaced(&mut out, phones, a0, a1);
    let ghost ws = interval_views(words@);
    let ghost ps = interval_views(phones@);
    assert(out@ =~= words_part(ws, given_view(*given), i as int, arity as nat) + spaced_labels(
        ps,
        before_from(i as int),
        i as int,
    ) + window_part(ps, i as int, arity as nat) + spaced_labels(
        ps,
        after_from(i as int, arity as nat, ps.len() as int),
        after_to(i as int, arity as nat, ps.len() as int),
    ));
    let chars = chars_of(out.as_str());
    let (from, to) = trim_bounds(&chars);
    string_of_range(&chars, from, to)
}

/// Whether the labels of the window at `i` are `term`, token by token.
fn window_is(term: &Vec<String>, phones: &Vec<TextGridInterval>, i: usize, arity: usize) -> (b:
    bool)
    requires
        i + arity <= phones.len(),
    ensures
        b == (string_views(term@) == window(interval_views(phones@), i as int, arity as nat)),
{
    let ghost win = window(interval_views(phones@), i as int, arity as nat);
    if term.len() != arity {
        assert(string_views(term@).len() != win.len());
        return false;
    }
    let mut j: usize = 0;
    while j < arity
        invariant
            j <= arity,
            term.len() == arity,
            i + arity <= phones.len(),
            win == window(interval_views(phones@), i as int, arity as nat),
            forall|k: int| 0 <= k < j ==> term@[k]@ == #[trigger] win[k],
        decreases arity - j,
    {
        if term[j] != phones[i + j].text {
            assert(string_views(term@)[j as int] != win[j as int]);
            return false;
        }
        j += 1;
    }
    assert(string_views(term@) =~= win);
    true
}

/// Finds the matches of a rule in the phone tier, and shows each.
///
/// `terms` are the label sequences that the rule looks for and `arity` is
/// the number of labels that it spans. A match is a position at which a
/// window of `arity` phones carries the tokens of one of the terms as its
/// labels. Every match is reported, once, in ascending order, with its
/// title; windows may overlap. `given` says which word each phone belongs
/// to, where that is known.
pub fn find_in_tier(
    terms: &Vec<String>,
    arity: usize,
    words: &Vec<TextGridInterval>,
    phones: &Vec<TextGridInterval>,
    given: &Option<Vec<usize>>,
) -> (r: (Vec<usize>, Vec<String>))
    requires
        given matches Some(a) ==> a.len() == phones.len() && forall|k: int|
            0 <= k < a.len() ==> (#[trigger] a[k]) < words.len(),
    ensures
        r.0.len() == r.1.len(),
        forall|a: int, b: int| 0 <= a < b < r.0.len() ==> r.0[a] < r.0[b],
        forall|k: int|
            0 <= k < r.0.len() ==> matches_at(
                string_views(terms@),
                arity as nat,
                interval_views(phones@),
                #[trigger] r.0[k] as int,
            ),
        forall|i: int|
            matches_at(string_views(terms@), arity as nat, interval_views(phones@), i)
                ==> exists|k: int| 0 <= k < r.0.len() && #[trigger] r.0[k] == i,
        forall|k: int|
            0 <= k < r.0.len() ==> (#[trigger] r.1[k])@ == title(
                interval_views(words@),
                interval_views(phones@),
                given_view(*given),
                r.0[k] as int,
                arity as nat,
            ),
{
    let mut found: Vec<usize> = Vec::new();
    let mut titles: Vec<String> = Vec::new();
    if arity == 0 || phones.len() < arity {
        return (found, titles);
    }
    let ghost ts = string_views(terms@);
    let ghost ps = interval_views(phones@);
    let ghost ws = interval_views(words@);
    let mut split: Vec<Vec<String>> = Vec::new();
    let mut t: usize = 0;
    while t < terms.len()
        invariant
            t <= terms.len(),
            split.len() == t,
            forall|u: int| 0 <= u < t ==> string_views((#[trigger] split[u])@) == tokens(terms[u]@),
        decreases terms.len() - t,
    {
        split.push(split_tokens(terms[t].as_str()));
        t += 1;
    }
    let last: usize = phones.len() - arity;
    let mut i: usize = 0;
    while i <= last
        invariant
            arity >= 1,
            last == phones.len() - arity,
            i <= last + 1,
            ts == string_views(terms@),
            ps == interval_views(phones@),
            ws == interval_views(words@),
            split.len() == terms.len(),
            forall|u: int|
                0 <= u < terms.len() ==> string_views((#[trigger] split[u])@) == tokens(terms[u]@),
            given matches Some(a) ==> a.len() == phones.len() && forall|k: int|
                0 <= k < a.len() ==> (#[trigger] a[k]) < words.len(),
            found.len() == titles.len(),
            forall|a: int, b: int| 0 <= a < b < found.len() ==> found[a] < found[b],
            forall|k: int| 0 <= k < found.len() ==> (#[trigger] found[k]) < i,
            forall|k: int|
                0 <= k < found.len() ==> matches_at(ts, arity as nat, ps, #[trigger] found[k] as int),
            forall|x: int|
                x < i && matches_at(ts, arity as nat, ps, x) ==> exists|k: int|
                    0 <= k < found.len() && #[trigger] found[k] == x,
            forall|k: int|
                0 <= k < found.len() ==> (#[trigger] titles[k])@ == title(
                    ws,
                    ps,
                    given_view(*given),
                    found[k] as int,
                    arity as nat,
                ),
        decreases last + 1 - i,
    {
        let mut hit: bool = false;
        let mut u: usize = 0;
        while u < split.len() && !hit
            invariant
                u <= split.len(),
                arity >= 1,
                split.len() == terms.len(),
                i + arity <= phones.len(),
                ts == string_views(terms@),
                ps == interval_views(phones@),
                forall|v: int|
                    0 <= v < terms.len() ==> string_views((#[trigger] split[v])@) == tokens(
                        terms[v]@,
                    ),
                hit ==> matches_at(ts, arity as nat, ps, i as int),
                !hit ==> forall|v: int|
                    0 <= v < u ==> #[trigger] tokens(ts[v]) != window(ps, i as int, arity as nat),
            decreases
                    split.len() - u + if hit {
                        0int
                    } else {
                        1int
                    },
        {
            if window_is(&split[u], phones, i, arity) {
                assert(tokens(ts[u as int]) == window(ps, i as int, arity as nat));
                hit = true;
            } else {
                u += 1;
            }
        }
        let ghost old_found = found@;
        if hit {
            let shown = title_of(words, phones, given, i, arity);
            found.push(i);
            titles.push(shown);
            assert forall|x: int| x < i + 1 && matches_at(ts, arity as nat, ps, x) implies exists|
                k: int,
            |
                0 <= k < found.len() && #[trigger] found[k] == x by {
                if x < i {
                    let k = choose|k: int| 0 <= k < old_found.len() && #[trigger] old_found[k] == x;
                    assert(found[k] == x);
                } else {
                    assert(found[found.len() - 1] == x);
                }
            }
        }
        i += 1;
    }
    assert forall|x: int| matches_at(ts, arity as nat, ps, x) implies exists|k: int|
        0 <= k < found.len() && #[trigger] found[k] == x by {
        assert(x < i);
    }
    (found, titles)
}

/// Whether `found` and `titles` are the matches of a rule in the annotation
/// `tiers`, and how they are shown: `found` holds every position of the last
/// tier at which the rule matches, once, in ascending order, and `titles`
/// holds the title of each, with the words of the first tier where the
/// phones are aligned with them.
pub open spec fn marks_of(
    terms: Seq<Seq<char>>,
    arity: nat,
    tiers: Seq<TierView>,
    found: Seq<int>,
    titles: Seq<Seq<char>>,
) -> bool {
    let words = tiers[0].intervals;
    let phones = tiers.last().intervals;
    &&& found.len() == titles.len()
    &&& forall|a: int, b: int| 0 <= a < b < found.len() ==> found[a] < found[b]
    &&& forall|k: int| 0 <= k < found.len() ==> matches_at(terms, arity, phones, #[trigger] found[k])
    &&& forall|i: int|
        matches_at(terms, arity, phones, i) ==> exists|k: int|
            0 <= k < found.len() && #[trigger] found[k] == i
    &&& forall|k: int|
        0 <= k < found.len() ==> #[trigger] titles[k] == title(
            words,
            phones,
            alignment(words, phones),
            found[k],
            arity,
        )
}

/// Finds the matches of `rule` in the annotation `tg`, and shows each.
///
/// The phone tier is the last tier and the word tier is the first. The
/// phones are aligned with the words; where every phone belongs to a word,
/// the titles name the words. An annotation without tiers has no match.
pub fn find_marks(rule: &ReplaceRule, tg: &TextGrid) -> (r: (Vec<usize>, Vec<String>))
    ensures
        tg@.len() == 0 ==> r.0.len() == 0 && r.1.len() == 0,
        tg@.len() > 0 ==> marks_of(
            rule@.search_terms,
            rule@.arity,
            tg@,
            as_ints(r.0@),
            string_views(r.1@),
        ),
{
    if tg.items.len() == 0 {
        return (Vec::new(), Vec::new());
    }
    let words = &tg.items[0].intervals;
    let phones = &tg.items[tg.items.len() - 1].intervals;
    let given = align(words, phones);
    let r = find_in_tier(&rule.search_terms, rule.term_seq_length, words, phones, &given);
    proof {
        let a = as_ints(r.0@);
        let found = r.0;
        assert forall|i: int|
            matches_at(rule@.search_terms, rule@.arity, tg@.last().intervals, i) implies exists|
            k: int,
        | 0 <= k < a.len() && #[trigger] a[k] == i by {
            let k = choose|k: int| 0 <= k < found.len() && #[trigger] found[k] == i;
            assert(a[k] == i);
        }
    }
    r
}

} // verus!
