//! The files of a scan, the matches found in each, and what is selected.

use vstd::prelude::*;
use crate::align::as_ints;
use crate::{encode, rewrite};
use crate::audio::SoundCommand;
use crate::charset::{detected_text, parse_textgrid};
use crate::encode::{textgrid_to_string, EncodeError};
use crate::grammar::{file_at, Parsed};
use crate::grid::{TextGrid, TierView};
use crate::layout::{file_text, writable};
use crate::matcher::{find_marks, marks_of, matches_at};
use crate::parse::ParseError;
use crate::rewrite::{all_fit, applied, apply_choices, phone_labels, StateError};
use crate::rules::{all_span, ReplaceRule};
use crate::text::{
    extension, file_stem, has_extension, same_without_case, stem, string_views,
};

verus! {

/// A file of a scan: its annotation, the matches of the rule in it, and
/// the replacement chosen for each.
#[derive(Debug)]
pub struct ItemRecord {
    /// Where the annotation file is.
    pub tg_file: String,
    /// The name of the file without its extension.
    pub tg_stem: String,
    /// The annotation: as it was read, or as it was last written.
    pub tg_content: TextGrid,
    /// Where the recording that belongs to it is, if there is a place for it.
    pub wav_file: Option<String>,
    /// Where the rule matches in the phone tier, in ascending order.
    pub found_mark_idxs: Vec<usize>,
    /// How each match is shown.
    pub found_mark_titles: Vec<String>,
    /// The replacements that the rule offers.
    pub replace_options: Vec<String>,
    /// The number of labels that the rule spans.
    pub term_seq_length: usize,
    /// The replacement chosen for each match, by its index, if any.
    pub selected_options: Vec<Option<usize>>,
    /// The choices as they were when the file was last saved.
    pub original_options: Vec<Option<usize>>,
    /// Whether the choices differ from those last saved.
    pub dirty: bool,
}

/// The files of the last scan and the selection in them.
#[derive(Debug)]
pub struct SessionItems {
    pub items: Vec<ItemRecord>,
    /// The item that is selected, by its index.
    pub selected_item: Option<usize>,
    /// For each item, the match that is selected in it, by its index.
    pub selected_mark: Vec<Option<usize>>,
}

/// Whether two choices are the same.
fn same_choice(a: Option<usize>, b: Option<usize>) -> (r: bool)
    ensures
        r == (a == b),
{
    match (a, b) {
        (None, None) => true,
        (Some(x), Some(y)) => x == y,
        _ => false,
    }
}

/// Whether two lists of choices are the same.
pub fn same_choices(a: &Vec<Option<usize>>, b: &Vec<Option<usize>>) -> (r: bool)
    ensures
        r == (a@ == b@),
{
    if a.len() != b.len() {
        return false;
    }
    let mut i: usize = 0;
    while i < a.len()
        invariant
            i <= a.len(),
            a.len() == b.len(),
            forall|j: int| 0 <= j < i ==> a[j] == b[j],
        decreases a.len() - i,
    {
        if !same_choice(a[i], b[i]) {
            return false;
        }
        i += 1;
    }
    assert(a@ =~= b@);
    true
}

/// A copy of a list of choices.
fn copy_choices(a: &Vec<Option<usize>>) -> (r: Vec<Option<usize>>)
    ensures
        r@ == a@,
{
    let mut r: Vec<Option<usize>> = Vec::new();
    let mut i: usize = 0;
    while i < a.len()
        invariant
            i <= a.len(),
            r@ == a@.take(i as int),
        decreases a.len() - i,
    {
        r.push(a[i]);
        assert(r@ =~= a@.take(i + 1));
        i += 1;
    }
    assert(a@.take(i as int) =~= a@);
    r
}

/// As many choices as asked for, none of them made.
fn no_choices(n: usize) -> (r: Vec<Option<usize>>)
    ensures
        r.len() == n,
        forall|i: int| 0 <= i < n ==> r[i] is None,
{
    let mut r: Vec<Option<usize>> = Vec::new();
    let mut i: usize = 0;
    while i < n
        invariant
            i <= n,
            r.len() == i,
            forall|j: int| 0 <= j < i ==> r[j] is None,
        decreases n - i,
    {
        r.push(None);
        i += 1;
    }
    r
}

/// A copy of a list of strings.
pub(crate) fn copy_strings(a: &Vec<String>) -> (r: Vec<String>)
    ensures
        string_views(r@) == string_views(a@),
        r.len() == a.len(),
{
    let mut r: Vec<String> = Vec::new();
    let mut i: usize = 0;
    while i < a.len()
        invariant
            i <= a.len(),
            r.len() == i,
            forall|j: int| 0 <= j < i ==> (#[trigger] r[j])@ == a[j]@,
        decreases a.len() - i,
    {
        r.push(a[i].clone());
        i += 1;
    }
    assert(string_views(r@) =~= string_views(a@));
    r
}

/// The extension of the files that are annotations.
pub const ANNOTATION_EXTENSION: &'static str = "textgrid";

/// Whether a file of this name is read by a scan: its extension is that of
/// an annotation, in letters of either case.
pub open spec fn names_annotation(name: Seq<char>) -> bool {
    match extension(name) {
        Some(e) => same_without_case(e, ANNOTATION_EXTENSION@),
        None => false,
    }
}

/// Whether a file of this name, which is the last part of its path, is
/// read by a scan.
pub fn is_annotation_name(name: &str) -> (b: bool)
    ensures
        b == names_annotation(name@),
{
    has_extension(name, ANNOTATION_EXTENSION)
}

/// What a file of a scan came to.
#[derive(Debug)]
pub enum ScanOutcome {
    /// The name of the file is not that of an annotation: it is not read.
    Skipped,
    /// The rule matches in the file: it is the last item of the session now.
    Listed,
    /// The file is an annotation, and the rule does not match in it.
    NoMatch,
    /// The file is no annotation: the scan goes on without it.
    Unreadable(ParseError),
}

impl ItemRecord {
    /// Whether the item is as a scan leaves it and as the selection keeps
    /// it: there is a match, each match has its title and its choices, and
    /// `dirty` says whether the choices differ from those last saved.
    pub open spec fn wf(&self) -> bool {
        &&& self.found_mark_idxs.len() > 0
        &&& self.found_mark_titles.len() == self.found_mark_idxs.len()
        &&& self.selected_options.len() == self.found_mark_idxs.len()
        &&& self.original_options.len() == self.found_mark_idxs.len()
        &&& self.dirty == (self.selected_options@ != self.original_options@)
    }

    /// Whether the item can be saved whatever is chosen in it: it is well
    /// formed, every match lies in the phone tier with all the labels that
    /// the rule spans, every replacement has as many tokens, and every
    /// choice names a replacement.
    pub open spec fn sound(&self) -> bool {
        &&& self.wf()
        &&& self.term_seq_length >= 1
        &&& forall|k: int|
            0 <= k < self.found_mark_idxs.len() ==> (#[trigger] self.found_mark_idxs[k])
                + self.term_seq_length <= phone_labels(self.tg_content@).len()
        &&& all_span(string_views(self.replace_options@), self.term_seq_length as nat)
        &&& forall|k: int|
            0 <= k < self.selected_options.len() ==> ((#[trigger] self.selected_options[k]) matches Some(
                o,
            ) ==> o < self.replace_options.len())
    }

    /// Whether a replacement is chosen for no match, and none was.
    pub open spec fn untouched(&self) -> bool {
        &&& !self.dirty
        &&& forall|k: int| 0 <= k < self.selected_options.len() ==> self.selected_options[k] is None
        &&& forall|k: int| 0 <= k < self.original_options.len() ==> self.original_options[k] is None
    }
}

impl SessionItems {
    /// Whether each item has its selected match, and what is selected exists.
    pub open spec fn wf(&self) -> bool {
        &&& self.selected_mark.len() == self.items.len()
        &&& forall|i: int| 0 <= i < self.items.len() ==> (#[trigger] self.items[i]).wf()
        &&& (self.selected_item matches Some(i) ==> i < self.items.len())
        &&& forall|i: int|
            0 <= i < self.items.len() ==> ((#[trigger] self.selected_mark[i]) matches Some(m)
                ==> m < self.items[i].found_mark_idxs.len())
    }

    /// Whether every item can be saved whatever is chosen in it.
    pub open spec fn sound(&self) -> bool {
        forall|i: int| 0 <= i < self.items.len() ==> (#[trigger] self.items[i]).sound()
    }

    /// A session without items.
    pub fn new() -> (s: SessionItems)
        ensures
            s.items.len() == 0,
            s.selected_item is None,
            s.selected_mark.len() == 0,
            s.wf(),
            s.sound(),
    {
        SessionItems { items: Vec::new(), selected_item: None, selected_mark: Vec::new() }
    }

    /// Lists a file of a scan, where the rule matches in it.
    ///
    /// The matches are those that `find_marks` gives for the rule and the
    /// annotation. Where there is one, the file becomes the last item of
    /// the session, with no replacement chosen and its first match
    /// selected, and the first item of the session is selected. Where there
    /// is none, nothing changes. The result says whether the file was
    /// listed.
    pub fn add_file(
        &mut self,
        rule: &ReplaceRule,
        tg_file: String,
        tg_stem: String,
        wav_file: Option<String>,
        tg: TextGrid,
    ) -> (listed: bool)
        ensures
            !listed ==> *final(self) == *old(self) && forall|i: int|
                !(tg@.len() > 0 && matches_at(
                    rule@.search_terms,
                    rule@.arity,
                    tg@.last().intervals,
                    i,
                )),
            listed ==> {
                let item = final(self).items@.last();
                &&& final(self).items@.drop_last() == old(self).items@
                &&& final(self).items.len() == old(self).items.len() + 1
                &&& final(self).selected_mark@ == old(self).selected_mark@.push(Some(0usize))
                &&& final(self).selected_item == Some(0usize)
                &&& item.tg_file@ == tg_file@
                &&& item.tg_stem@ == tg_stem@
                &&& item.wav_file == wav_file
                &&& item.tg_content@ == tg@
                &&& item.term_seq_length == rule.term_seq_length
                &&& string_views(item.replace_options@) == rule@.replace_options
                &&& item.wf()
                &&& item.untouched()
                &&& tg@.len() > 0
                &&& marks_of(
                    rule@.search_terms,
                    rule@.arity,
                    tg@,
                    as_ints(item.found_mark_idxs@),
                    string_views(item.found_mark_titles@),
                )
            },
            old(self).wf() ==> final(self).wf(),
            old(self).sound() && rule@.wf() ==> final(self).sound(),
    {
        let (found, titles) = find_marks(rule, &tg);
        if found.len() == 0 {
            return false;
        }
        let n = found.len();
        let item = ItemRecord {
            tg_file,
            tg_stem,
            tg_content: tg,
            wav_file,
            found_mark_idxs: found,
            found_mark_titles: titles,
            replace_options: copy_strings(&rule.replace_options),
            term_seq_length: rule.term_seq_length,
            selected_options: no_choices(n),
            original_options: no_choices(n),
            dirty: false,
        };
        assert(item.selected_options@ =~= item.original_options@);
        proof {
            if rule@.wf() {
                let phones = tg@.last().intervals;
                assert(phone_labels(tg@).len() == phones.len());
                assert forall|k: int| 0 <= k < item.found_mark_idxs.len() implies (
                #[trigger] item.found_mark_idxs[k]) + item.term_seq_length <= phones.len() by {
                    assert(as_ints(item.found_mark_idxs@)[k] == item.found_mark_idxs[k]);
                    assert(matches_at(
                        rule@.search_terms,
                        rule@.arity,
                        phones,
                        as_ints(item.found_mark_idxs@)[k],
                    ));
                }
                assert(item.sound());
            }
        }
        self.items.push(item);
        self.selected_item = Some(0);
        self.selected_mark.push(Some(0));
        assert(final(self).items@.drop_last() =~= old(self).items@);
        true
    }

    /// Reads one file of a scan and lists it where the rule matches in it.
    ///
    /// `tg_name` is the name of the file, the last part of its path
    /// `tg_file`. Only a file whose name is that of an annotation is read;
    /// the item is known by that name without its extension. A file that
    /// is no annotation is reported as such and leaves the session as it
    /// is, so that a scan can go on with the next file.
    pub fn scan_file(
        &mut self,
        rule: &ReplaceRule,
        tg_file: String,
        tg_name: &str,
        wav_file: Option<String>,
        bytes: &[u8],
    ) -> (r: ScanOutcome)
        requires
            bytes@.len() <= usize::MAX / 8,
        ensures
            r is Skipped == !names_annotation(tg_name@),
            match r {
                ScanOutcome::Skipped => *final(self) == *old(self),
                ScanOutcome::Listed => {
                    let item = final(self).items@.last();
                    &&& final(self).items.len() == old(self).items.len() + 1
                    &&& final(self).items@.drop_last() == old(self).items@
                    &&& final(self).selected_mark@ == old(self).selected_mark@.push(Some(0usize))
                    &&& final(self).selected_item == Some(0usize)
                    &&& file_at(detected_text(bytes@)) == (Parsed::Done {
                        value: item.tg_content@,
                        end: detected_text(bytes@).len() as int,
                    })
                    &&& item.tg_file@ == tg_file@
                    &&& item.tg_stem@ == stem(tg_name@)
                    &&& item.wav_file == wav_file
                    &&& item.term_seq_length == rule.term_seq_length
                    &&& string_views(item.replace_options@) == rule@.replace_options
                    &&& item.wf()
                    &&& item.untouched()
                    &&& item.tg_content@.len() > 0
                    &&& marks_of(
                        rule@.search_terms,
                        rule@.arity,
                        item.tg_content@,
                        as_ints(item.found_mark_idxs@),
                        string_views(item.found_mark_titles@),
                    )
                },
                ScanOutcome::NoMatch => {
                    &&& *final(self) == *old(self)
                    &&& file_at(detected_text(bytes@)) matches Parsed::Done { value: tiers, end }
                    &&& forall|i: int|
                        !(tiers.len() > 0 && matches_at(
                            rule@.search_terms,
                            rule@.arity,
                            tiers.last().intervals,
                            i,
                        ))
                },
                ScanOutcome::Unreadable(e) => *final(self) == *old(self) && file_at(
                    detected_text(bytes@),
                ) == (Parsed::<Seq<TierView>>::Failed { kind: e.kind, at: e.position as int }),
            },
            old(self).wf() ==> final(self).wf(),
            old(self).sound() && rule@.wf() ==> final(self).sound(),
    {
        if !is_annotation_name(tg_name) {
            return ScanOutcome::Skipped;
        }
        let tg_stem = file_stem(tg_name);
        match parse_textgrid(bytes) {
            Ok(tg) => {
                if self.add_file(rule, tg_file, tg_stem, wav_file, tg) {
                    ScanOutcome::Listed
                } else {
                    ScanOutcome::NoMatch
                }
            },
            Err(e) => ScanOutcome::Unreadable(e),
        }
    }
}

/// Milliseconds of lead before a match when it is played.
pub const PLAY_LEAD_MS: u64 = 300;

/// Milliseconds added to the length of a match when it is played: the lead
/// before it and the tail after it.
pub const PLAY_EXTRA_MS: u64 = 900;

/// Nanoseconds in a millisecond.
pub const TICKS_PER_MS: u64 = 1_000_000;

/// Where the part played for a match starts, in milliseconds: the lead
/// before the start of the match, but not before the start of the file.
pub open spec fn play_start_ms(xmin: nat) -> int {
    let at = xmin as int / TICKS_PER_MS as int;
    if at >= PLAY_LEAD_MS {
        at - PLAY_LEAD_MS
    } else {
        0
    }
}

/// How long the part played for a match is, in whole milliseconds: the
/// time from the start of its first phone to the end of its last, and the
/// extra; nothing where that is less than nothing.
pub open spec fn play_window_ms(xmin: nat, xmax: nat) -> int {
    if xmax >= xmin {
        PLAY_EXTRA_MS + (xmax - xmin) / TICKS_PER_MS as int
    } else {
        let short = (xmin - xmax + TICKS_PER_MS - 1) / TICKS_PER_MS as int;
        if short <= PLAY_EXTRA_MS {
            PLAY_EXTRA_MS - short
        } else {
            0
        }
    }
}

impl SessionItems {
    /// Whether a match is selected that can be played: an item and a match
    /// in it are selected, the item has a recording, and the window of the
    /// match lies in the phone tier.
    pub open spec fn playable(&self) -> bool {
        &&& self.selected_item matches Some(i)
        &&& i < self.items.len()
        &&& i < self.selected_mark.len()
        &&& self.selected_mark[i as int] matches Some(m)
        &&& m < self.items[i as int].found_mark_idxs.len()
        &&& self.items[i as int].wav_file is Some
        &&& self.items[i as int].tg_content@.len() > 0
        &&& self.items[i as int].term_seq_length >= 1
        &&& self.items[i as int].found_mark_idxs[m as int] + self.items[i as int].term_seq_length
            <= self.items[i as int].tg_content@.last().intervals.len()
    }

    /// Selects the item at `index`, or none where there is no such item.
    /// The result says whether the selection changed.
    pub fn select_item(&mut self, index: usize) -> (changed: bool)
        ensures
            final(self).items == old(self).items,
            final(self).selected_mark == old(self).selected_mark,
            final(self).selected_item == if index < old(self).items.len() {
                Some(index)
            } else {
                None
            },
            changed == (final(self).selected_item != old(self).selected_item),
            old(self).wf() ==> final(self).wf(),
    {
        let new_val: Option<usize> = if index < self.items.len() {
            Some(index)
        } else {
            None
        };
        let changed = !same_choice(self.selected_item, new_val);
        self.selected_item = new_val;
        changed
    }

    /// Selects the item after the selected one, where there is one.
    pub fn next_item(&mut self) -> (changed: bool)
        ensures
            final(self).items == old(self).items,
            final(self).selected_mark == old(self).selected_mark,
            final(self).selected_item == match old(self).selected_item {
                Some(i) => if i + 1 < old(self).items.len() {
                    Some((i + 1) as usize)
                } else {
                    Some(i)
                },
                None => None,
            },
            changed == (final(self).selected_item != old(self).selected_item),
            old(self).wf() ==> final(self).wf(),
    {
        match self.selected_item {
            Some(i) => {
                if i < self.items.len() && i + 1 < self.items.len() {
                    self.selected_item = Some(i + 1);
                    true
                } else {
                    false
                }
            },
            None => false,
        }
    }

    /// Selects the item before the selected one, where there is one.
    pub fn prev_item(&mut self) -> (changed: bool)
        ensures
            final(self).items == old(self).items,
            final(self).selected_mark == old(self).selected_mark,
            final(self).selected_item == match old(self).selected_item {
                Some(i) => if i > 0 {
                    Some((i - 1) as usize)
                } else {
                    Some(i)
                },
                None => None,
            },
            changed == (final(self).selected_item != old(self).selected_item),
            old(self).wf() ==> final(self).wf(),
    {
        match self.selected_item {
            Some(i) => {
                if i > 0 {
                    self.selected_item = Some(i - 1);
                    true
                } else {
                    false
                }
            },
            None => false,
        }
    }

    /// The index of the selected item, where it exists and has its place
    /// among the selected matches.
    fn current_item(&self) -> (r: Option<usize>)
        ensures
            r == self.current(),
    {
        match self.selected_item {
            Some(i) => {
                if i < self.items.len() && i < self.selected_mark.len() {
                    Some(i)
                } else {
                    None
                }
            },
            None => None,
        }
    }

    /// The index of the selected item, where it exists and has its place
    /// among the selected matches.
    pub open spec fn current(&self) -> Option<usize> {
        match self.selected_item {
            Some(i) => if i < self.items.len() && i < self.selected_mark.len() {
                Some(i)
            } else {
                None
            },
            None => None,
        }
    }

    /// Selects the match at `index` in the selected item, or none where it
    /// has no such match. Without a selected item nothing changes.
    pub fn select_mark(&mut self, index: usize) -> (changed: bool)
        ensures
            final(self).items == old(self).items,
            final(self).selected_item == old(self).selected_item,
            final(self).selected_mark@ == match old(self).current() {
                Some(i) => old(self).selected_mark@.update(
                    i as int,
                    if index < old(self).items[i as int].found_mark_idxs.len() {
                        Some(index)
                    } else {
                        None
                    },
                ),
                None => old(self).selected_mark@,
            },
            changed == (final(self).selected_mark@ != old(self).selected_mark@),
            old(self).wf() ==> final(self).wf(),
    {
        match self.current_item() {
            Some(i) => {
                let new_val: Option<usize> = if index < self.items[i].found_mark_idxs.len() {
                    Some(index)
                } else {
                    None
                };
                let changed = !same_choice(self.selected_mark[i], new_val);
                self.selected_mark.set(i, new_val);
                proof {
                    if !changed {
                        assert(final(self).selected_mark@ =~= old(self).selected_mark@);
                    } else {
                        assert(final(self).selected_mark@[i as int] != old(self).selected_mark@[i as int]);
                    }
                }
                changed
            },
            None => false,
        }
    }

    /// What selecting the next match comes to: the next match of the
    /// selected item; after its last match, the first match of the next
    /// item; else what is selected stays.
    pub open spec fn after_next_mark(&self) -> (Option<usize>, Seq<Option<usize>>) {
        match self.current() {
            Some(i) => match self.selected_mark[i as int] {
                Some(m) => if m + 1 < self.items[i as int].found_mark_idxs.len() {
                    (self.selected_item, self.selected_mark@.update(i as int, Some((m + 1) as usize)))
                } else if i + 1 < self.items.len() && i + 1 < self.selected_mark.len() && m + 1
                    == self.items[i as int].found_mark_idxs.len() {
                    (Some((i + 1) as usize), self.selected_mark@.update(i + 1, Some(0usize)))
                } else {
                    (self.selected_item, self.selected_mark@)
                },
                None => (self.selected_item, self.selected_mark@),
            },
            None => (self.selected_item, self.selected_mark@),
        }
    }

    /// Selects the match after the selected one, in the next item where
    /// the selected one is the last of its item.
    pub fn next_mark(&mut self) -> (changed: bool)
        ensures
            final(self).items == old(self).items,
            (final(self).selected_item, final(self).selected_mark@) == old(self).after_next_mark(),
            changed == (final(self).selected_item != old(self).selected_item
                || final(self).selected_mark@ != old(self).selected_mark@),
            old(self).wf() ==> final(self).wf(),
    {
        match self.current_item() {
            Some(i) => {
                match self.selected_mark[i] {
                    Some(m) => {
                        let n = self.items[i].found_mark_idxs.len();
                        if m < n && m + 1 < n {
                            self.selected_mark.set(i, Some(m + 1));
                            assert(final(self).selected_mark@[i as int] != old(self).selected_mark@[i as int]);
                            true
                        } else if i + 1 < self.items.len() && i + 1 < self.selected_mark.len() && m
                            < n && m + 1 == n {
                            self.selected_item = Some(i + 1);
                            self.selected_mark.set(i + 1, Some(0));
                            true
                        } else {
                            false
                        }
                    },
                    None => false,
                }
            },
            None => false,
        }
    }

    /// What selecting the match before comes to: the match before in the
    /// selected item; before its first match, the last match of the item
    /// before; else what is selected stays.
    pub open spec fn after_prev_mark(&self) -> (Option<usize>, Seq<Option<usize>>) {
        match self.current() {
            Some(i) => match self.selected_mark[i as int] {
                Some(m) => if m > 0 {
                    (self.selected_item, self.selected_mark@.update(i as int, Some((m - 1) as usize)))
                } else if i > 0 && self.items[i - 1].found_mark_idxs.len() > 0 {
                    (
                        Some((i - 1) as usize),
                        self.selected_mark@.update(
                            i - 1,
                            Some((self.items[i - 1].found_mark_idxs.len() - 1) as usize),
                        ),
                    )
                } else {
                    (self.selected_item, self.selected_mark@)
                },
                None => (self.selected_item, self.selected_mark@),
            },
            None => (self.selected_item, self.selected_mark@),
        }
    }

    /// Selects the match before the selected one, in the item before where
    /// the selected one is the first of its item.
    pub fn prev_mark(&mut self) -> (changed: bool)
        ensures
            final(self).items == old(self).items,
            (final(self).selected_item, final(self).selected_mark@) == old(self).after_prev_mark(),
            changed == (final(self).selected_item != old(self).selected_item
                || final(self).selected_mark@ != old(self).selected_mark@),
            old(self).wf() ==> final(self).wf(),
    {
        match self.current_item() {
            Some(i) => {
                match self.selected_mark[i] {
                    Some(m) => {
                        if m > 0 {
                            self.selected_mark.set(i, Some(m - 1));
                            assert(final(self).selected_mark@[i as int] != old(self).selected_mark@[i as int]);
                            true
                        } else if i > 0 && self.items[i - 1].found_mark_idxs.len() > 0 {
                            let last = self.items[i - 1].found_mark_idxs.len() - 1;
                            self.selected_item = Some(i - 1);
                            self.selected_mark.set(i - 1, Some(last));
                            true
                        } else {
                            false
                        }
                    },
                    None => false,
                }
            },
            None => false,
        }
    }

    /// The command that plays the selected match at `volume`, if a match
    /// is selected that can be played: the recording of the item, from a
    /// little before the first phone of the match to a little after its
    /// last.
    pub fn play_selected(&self, volume: u32) -> (r: Option<SoundCommand>)
        ensures
            r is Some == self.playable(),
            r matches Some(cmd) ==> {
                let item = self.items[self.selected_item->0 as int];
                let at = item.found_mark_idxs[self.selected_mark[self.selected_item->0 as int]->0 as int];
                let phones = item.tg_content@.last().intervals;
                &&& cmd matches SoundCommand::Play(file, start, window, v)
                &&& file@ == item.wav_file->0@
                &&& v == volume
                &&& start == play_start_ms(phones[at as int].xmin)
                &&& window == play_window_ms(
                    phones[at as int].xmin,
                    phones[at + item.term_seq_length - 1].xmax,
                )
            },
    {
        let i = match self.current_item() {
            Some(i) => i,
            None => {
                return None;
            },
        };
        let m = match self.selected_mark[i] {
            Some(m) => m,
            None => {
                return None;
            },
        };
        let item = &self.items[i];
        if m >= item.found_mark_idxs.len() || item.tg_content.items.len() == 0
            || item.term_seq_length == 0 {
            return None;
        }
        let file = match &item.wav_file {
            Some(f) => f.clone(),
            None => {
                return None;
            },
        };
        let at = item.found_mark_idxs[m];
        let tier = &item.tg_content.items[item.tg_content.items.len() - 1];
        assert(tier@ == item.tg_content@.last());
        let phones = &tier.intervals;
        if item.term_seq_length > phones.len() || at > phones.len() - item.term_seq_length {
            return None;
        }
        let first = &phones[at];
        let last = &phones[at + item.term_seq_length - 1];
        assert(first@ == tier@.intervals[at as int]);
        assert(last@ == tier@.intervals[at + item.term_seq_length - 1]);
        let begin_ms: u64 = first.xmin / TICKS_PER_MS;
        let start: u64 = if begin_ms >= PLAY_LEAD_MS {
            begin_ms - PLAY_LEAD_MS
        } else {
            0
        };
        let window: u64 = if last.xmax >= first.xmin {
            PLAY_EXTRA_MS + (last.xmax - first.xmin) / TICKS_PER_MS
        } else {
            let short: u64 = (((first.xmin - last.xmax) as u128 + TICKS_PER_MS as u128 - 1)
                / TICKS_PER_MS as u128) as u64;
            if short <= PLAY_EXTRA_MS {
                PLAY_EXTRA_MS - short
            } else {
                0
            }
        };
        Some(SoundCommand::Play(file, start, window, volume))
    }
}

/// What saving an item takes: whether the file is first copied to its
/// backup, the annotation with the choices applied, and its text, to be
/// written in the place of the file.
#[derive(Debug)]
pub struct SavePlan {
    pub backup: bool,
    pub annotation: TextGrid,
    pub text: String,
}

/// What is to be done next to save an item.
#[derive(Debug, Clone, Copy, PartialEq, Eq, Structural)]
pub enum SaveStep {
    /// Copy the file to its backup.
    CopyBackup,
    /// Write the text in the place of the file.
    Write,
    /// The item is saved.
    Done,
    /// The item is not saved, and keeps its unsaved choices.
    Failed,
}

impl SavePlan {
    /// Whether the plan is that of `item`: it holds the annotation of the
    /// item with its choices applied, and the text of that annotation.
    pub open spec fn is_for(&self, item: &ItemRecord) -> bool {
        self.annotation@ == item.rewritten_view() && self.text@ == file_text(item.rewritten_view())
    }

    /// The first step of the plan: the copy where one is due, else the
    /// writing.
    pub fn first_step(&self) -> (step: SaveStep)
        ensures
            step == if self.backup {
                SaveStep::CopyBackup
            } else {
                SaveStep::Write
            },
    {
        if self.backup {
            SaveStep::CopyBackup
        } else {
            SaveStep::Write
        }
    }

    /// The step after the attempt to copy the file to its backup: the
    /// file is written only where the copy was made.
    pub fn after_backup(&self, copied: bool) -> (step: SaveStep)
        ensures
            step == if copied {
                SaveStep::Write
            } else {
                SaveStep::Failed
            },
    {
        if copied {
            SaveStep::Write
        } else {
            SaveStep::Failed
        }
    }
}

/// Why an item cannot be saved.
#[derive(Debug, Clone, Copy, PartialEq, Eq, Structural)]
pub enum SaveError {
    /// Its choices cannot be applied to its annotation.
    Choices(StateError),
    /// Its annotation cannot be written.
    Unwritable(EncodeError),
}

/// Whether a file is copied to its backup before it is written: where
/// backups are asked for and the file has none yet.
pub open spec fn backup_due(auto_backup: bool, backup_exists: bool) -> bool {
    auto_backup && !backup_exists
}

/// A file is copied to its backup at most once: where a save is followed
/// by another, and the copy that the first asked for was made, the second
/// asks for none; and once a backup exists no save asks for one, whatever
/// the setting.
pub proof fn lemma_one_backup(auto_backup: bool, backup_exists: bool, later: bool)
    ensures
        !backup_due(auto_backup, backup_exists || backup_due(auto_backup, backup_exists)),
        !backup_due(later, true),
{
}

impl ItemRecord {
    /// Whether `other` is this item but for the choices, those last saved
    /// and the mark of unsaved choices.
    pub open spec fn same_but_choices(&self, other: &ItemRecord) -> bool {
        self.same_but_saved(other) && self.tg_content == other.tg_content
    }

    /// Whether `other` is this item but for what a save changes: the
    /// annotation, the choices, those last saved and the mark of unsaved
    /// choices.
    pub open spec fn same_but_saved(&self, other: &ItemRecord) -> bool {
        &&& self.tg_file == other.tg_file
        &&& self.tg_stem == other.tg_stem
        &&& self.wav_file == other.wav_file
        &&& self.found_mark_idxs == other.found_mark_idxs
        &&& self.found_mark_titles == other.found_mark_titles
        &&& self.replace_options == other.replace_options
        &&& self.term_seq_length == other.term_seq_length
    }

    /// Whether every choice of the item can be applied to its annotation.
    pub open spec fn choices_fit(&self) -> bool {
        all_fit(
            phone_labels(self.tg_content@).len(),
            self.found_mark_idxs@,
            self.selected_options@,
            string_views(self.replace_options@),
        )
    }

    /// The annotation of the item with its choices applied.
    pub open spec fn rewritten_view(&self) -> Seq<TierView> {
        applied(
            self.tg_content@,
            self.found_mark_idxs@,
            self.selected_options@,
            string_views(self.replace_options@),
        )
    }

    /// Plans the saving of the item.
    ///
    /// An item without unsaved choices needs nothing: no copy is made and
    /// nothing is written. For any other the plan holds its annotation
    /// with the choices applied and the text of that annotation, and says
    /// whether the file is to be copied to its backup first: where backups
    /// are asked for and there is none yet. The item itself stays as it is
    /// until the text was written. An item whose choices cannot be applied,
    /// or whose annotation cannot be written, is refused.
    pub fn plan_save(&self, auto_backup: bool, backup_exists: bool) -> (r: Result<
        Option<SavePlan>,
        SaveError,
    >)
        ensures
            match r {
                Ok(None) => !self.dirty,
                Ok(Some(plan)) => self.dirty && self.choices_fit() && writable(
                    self.rewritten_view(),
                ) && plan.is_for(self) && plan.backup == backup_due(auto_backup, backup_exists),
                Err(SaveError::Choices(e)) => self.dirty && rewrite::refuses(
                    phone_labels(self.tg_content@).len(),
                    self.found_mark_idxs@,
                    self.selected_options@,
                    string_views(self.replace_options@),
                    e,
                ),
                Err(SaveError::Unwritable(e)) => self.dirty && self.choices_fit()
                    && encode::refuses(self.rewritten_view(), e),
            },
            self.sound() ==> !(r matches Err(SaveError::Choices(_))),
    {
        proof {
            if self.sound() {
                lemma_sound_item_fits(*self);
            }
        }
        if !self.dirty {
            return Ok(None);
        }
        let new_tg = match apply_choices(
            &self.tg_content,
            &self.found_mark_idxs,
            &self.selected_options,
            &self.replace_options,
        ) {
            Ok(tg) => tg,
            Err(e) => {
                return Err(SaveError::Choices(e));
            },
        };
        match textgrid_to_string(&new_tg) {
            Ok(text) => Ok(
                Some(SavePlan { backup: auto_backup && !backup_exists, annotation: new_tg, text }),
            ),
            Err(e) => Err(SaveError::Unwritable(e)),
        }
    }

    /// The step after the attempt to write the text of `plan`. Where it
    /// was written, the annotation of the plan takes the place of the
    /// annotation of the item, whole, and the choices of the item are the
    /// saved ones from now on: with the plan of this item, the item holds
    /// its annotation with the choices applied, which is what was written.
    /// Where it was not written, the item is as it was.
    pub fn after_write(&mut self, plan: SavePlan, written: bool) -> (step: SaveStep)
        ensures
            written ==> step == SaveStep::Done && final(self).same_but_saved(old(self))
                && final(self).tg_content@ == plan.annotation@
                && final(self).selected_options == old(self).selected_options
                && final(self).original_options@ == old(self).selected_options@
                && !final(self).dirty,
            written && plan.is_for(old(self)) ==> final(self).tg_content@
                == old(self).rewritten_view(),
            !written ==> step == SaveStep::Failed && *final(self) == *old(self),
            old(self).wf() ==> final(self).wf(),
            old(self).sound() && plan.is_for(old(self)) ==> final(self).sound(),
    {
        if written {
            self.commit_save(plan);
            SaveStep::Done
        } else {
            SaveStep::Failed
        }
    }

    /// Takes note that the text of `plan` was written: the annotation of
    /// the plan takes the place of the annotation of the item, and the
    /// choices of the item are the saved ones from now on.
    pub fn commit_save(&mut self, plan: SavePlan)
        ensures
            final(self).same_but_saved(old(self)),
            final(self).tg_content@ == plan.annotation@,
            plan.is_for(old(self)) ==> final(self).tg_content@ == old(self).rewritten_view(),
            final(self).selected_options == old(self).selected_options,
            final(self).original_options@ == old(self).selected_options@,
            !final(self).dirty,
            old(self).wf() ==> final(self).wf(),
            old(self).sound() && plan.is_for(old(self)) ==> final(self).sound(),
    {
        proof {
            lemma_rewrite_keeps_length(*old(self));
        }
        self.tg_content = plan.annotation;
        self.original_options = copy_choices(&self.selected_options);
        self.dirty = false;
    }
}

/// The annotation of an item with its choices applied has as many tiers,
/// and as many phones, as the annotation of the item.
pub proof fn lemma_rewrite_keeps_length(item: ItemRecord)
    ensures
        item.rewritten_view().len() == item.tg_content@.len(),
        phone_labels(item.rewritten_view()).len() == phone_labels(item.tg_content@).len(),
{
}

impl SessionItems {
    /// The selected item and the selected match in it, where both exist
    /// and the match has its place among the choices.
    pub open spec fn chosen_place(&self) -> Option<(usize, usize)> {
        match self.current() {
            Some(i) => match self.selected_mark[i as int] {
                Some(m) => if m < self.items[i as int].selected_options.len() {
                    Some((i, m))
                } else {
                    None
                },
                None => None,
            },
            None => None,
        }
    }

    /// Chooses a replacement for the selected match, by its index among
    /// the options of the item, or none.
    ///
    /// Without a selected match, and where the choice is what it was,
    /// nothing changes and nothing is returned. An index that names no
    /// option is refused, with the index of the match. Else the choice is
    /// made, the item is marked as having unsaved choices exactly when its
    /// choices differ from those last saved, and its choices and that mark
    /// are returned.
    pub fn choose_a_replace_option(&mut self, option: Option<usize>) -> (r: Result<
        Option<(Vec<Option<usize>>, bool)>,
        StateError,
    >)
        ensures
            final(self).selected_item == old(self).selected_item,
            final(self).selected_mark == old(self).selected_mark,
            final(self).items.len() == old(self).items.len(),
            match old(self).chosen_place() {
                None => r == Ok::<Option<(Vec<Option<usize>>, bool)>, StateError>(None)
                    && final(self).items == old(self).items,
                Some((i, m)) => {
                    let before = old(self).items[i as int];
                    let item = final(self).items[i as int];
                    if option matches Some(o) && o >= before.replace_options.len() {
                        r == Err::<Option<(Vec<Option<usize>>, bool)>, StateError>(
                            StateError::OutOfRange(m),
                        ) && final(self).items == old(self).items
                    } else if before.selected_options[m as int] == option {
                        r == Ok::<Option<(Vec<Option<usize>>, bool)>, StateError>(None)
                            && final(self).items == old(self).items
                    } else {
                        &&& r matches Ok(Some((choices, dirty)))
                        &&& choices@ == item.selected_options@
                        &&& dirty == item.dirty
                        &&& item.selected_options@ == before.selected_options@.update(
                            m as int,
                            option,
                        )
                        &&& item.original_options == before.original_options
                        &&& item.dirty == (item.selected_options@ != item.original_options@)
                        &&& item.same_but_choices(&before)
                        &&& forall|j: int|
                            0 <= j < old(self).items.len() && j != i ==> final(self).items[j]
                                == old(self).items[j]
                    }
                },
            },
            old(self).wf() ==> final(self).wf(),
            old(self).sound() ==> final(self).sound(),
    {
        let i = match self.current_item() {
            Some(i) => i,
            None => {
                return Ok(None);
            },
        };
        let m = match self.selected_mark[i] {
            Some(m) => m,
            None => {
                return Ok(None);
            },
        };
        if m >= self.items[i].selected_options.len() {
            return Ok(None);
        }
        match option {
            Some(o) => {
                if o >= self.items[i].replace_options.len() {
                    return Err(StateError::OutOfRange(m));
                }
            },
            None => {},
        }
        if same_choice(self.items[i].selected_options[m], option) {
            return Ok(None);
        }
        self.items[i].selected_options.set(m, option);
        let dirty = !same_choices(&self.items[i].selected_options, &self.items[i].original_options);
        self.items[i].dirty = dirty;
        let choices = copy_choices(&self.items[i].selected_options);
        Ok(Some((choices, dirty)))
    }
}

/// The choices of a sound item can be applied to its annotation: saving
/// it does not fail on them.
pub proof fn lemma_sound_item_fits(item: ItemRecord)
    requires
        item.sound(),
    ensures
        item.choices_fit(),
{
    let len = phone_labels(item.tg_content@).len();
    let options = string_views(item.replace_options@);
    assert forall|k: int| 0 <= k < item.found_mark_idxs@.len() implies rewrite::fits(
        len,
        item.found_mark_idxs@,
        item.selected_options@,
        options,
        k,
    ) by {
        match item.selected_options@[k] {
            None => {},
            Some(o) => {
                assert(item.selected_options[k] == Some(o));
                assert(crate::text::tokens(options[o as int]).len() == item.term_seq_length);
                assert(item.found_mark_idxs[k] + item.term_seq_length <= len);
            },
        }
    }
}

} // verus!
