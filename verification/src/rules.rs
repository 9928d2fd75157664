//! Replacement rules: what to look for in the phone tier, and what may
//! stand in its place.

use vstd::prelude::*;
use crate::decimal::{
    digits_value, is_digit, is_digit_char, lemma_digits_value_grows, lemma_digits_value_step,
};
use crate::text::{
    chars_of, is_blank, join_tokens, joined, lemma_tokens_of_entry, split_tokens,
    string_of_range, string_views, tokens, trim, trim_bounds,
};

verus! {

/// What a rule is.
pub struct RuleView {
    pub name: Seq<char>,
    pub arity: nat,
    pub search_terms: Seq<Seq<char>>,
    pub replace_options: Seq<Seq<char>>,
}

/// A rule: a name, the number of consecutive labels that it spans, the
/// label sequences that it looks for and those that may replace them. A
/// sequence is written as its tokens with white space between them; in a
/// replacement the token `*` keeps the label that is there.
#[derive(Debug)]
pub struct ReplaceRule {
    pub rule_name: String,
    pub term_seq_length: usize,
    pub search_terms: Vec<String>,
    pub replace_options: Vec<String>,
}

impl View for ReplaceRule {
    type V = RuleView;

    open spec fn view(&self) -> RuleView {
        RuleView {
            name: self.rule_name@,
            arity: self.term_seq_length as nat,
            search_terms: string_views(self.search_terms@),
            replace_options: string_views(self.replace_options@),
        }
    }
}

/// Whether each sequence of `list` has `arity` tokens.
pub open spec fn all_span(list: Seq<Seq<char>>, arity: nat) -> bool {
    forall|i: int| 0 <= i < list.len() ==> tokens(#[trigger] list[i]).len() == arity
}

impl RuleView {
    /// Whether the rule spans at least one label, and each of its
    /// sequences has as many tokens as the rule spans labels.
    pub open spec fn wf(self) -> bool {
        &&& self.arity >= 1
        &&& all_span(self.search_terms, self.arity)
        &&& all_span(self.replace_options, self.arity)
    }
}

/// What each of `rules` is, in order.
pub open spec fn rule_views(rules: Seq<ReplaceRule>) -> Seq<RuleView> {
    Seq::new(rules.len(), |i: int| rules[i]@)
}

/// Why a change to the rules was refused.
#[derive(Debug, Clone, Copy, PartialEq, Eq, Structural)]
pub enum ValidationError {
    /// What follows the comma of a rule's name is not a number.
    BadArity,
    /// A rule must span at least one label.
    ZeroArity,
    /// A rule's name must not be blank and must not hold a comma.
    InvalidName,
    /// The rules already hold this name, or the rule this sequence.
    Duplicate,
    /// The sequence has not as many tokens as the rule spans labels.
    TokenCount,
}

/// What a change means for those who show the state.
#[derive(Debug, Clone, Copy, PartialEq, Eq, Structural)]
pub enum Sync {
    /// Nothing changed.
    Nothing,
    /// What is selected changed.
    Selection,
    /// The rules changed.
    State,
}

/// The first position at or after `from` at which `list` holds `x`, or the
/// length of `list` if there is none.
pub open spec fn index_of(list: Seq<Seq<char>>, x: Seq<char>, from: int) -> int
    decreases list.len() - from,
{
    if from < 0 || from >= list.len() {
        list.len() as int
    } else if list[from] == x {
        from
    } else {
        index_of(list, x, from + 1)
    }
}

/// Where something is found in a list lies in the list, or at its end.
pub proof fn lemma_index_of(list: Seq<Seq<char>>, x: Seq<char>, from: int)
    requires
        0 <= from <= list.len(),
    ensures
        from <= index_of(list, x, from) <= list.len(),
        index_of(list, x, from) < list.len() ==> list[index_of(list, x, from)] == x,
    decreases list.len() - from,
{
    if from < list.len() && list[from] != x {
        lemma_index_of(list, x, from + 1);
    }
}

/// The first position at or after `from` at which `s` holds `c`, or the
/// length of `s` if there is none.
pub open spec fn char_index(s: Seq<char>, c: char, from: int) -> int
    decreases s.len() - from,
{
    if from < 0 || from >= s.len() {
        s.len() as int
    } else if s[from] == c {
        from
    } else {
        char_index(s, c, from + 1)
    }
}

/// The number that `s` stands for as the arity of a rule: digits, with or
/// without a plus sign before them, that stand for a number that fits.
pub open spec fn arity_of(s: Seq<char>) -> Option<nat> {
    let d = if s.len() > 0 && s[0] == '+' {
        s.drop_first()
    } else {
        s
    };
    number_of(d)
}

/// The number that the digits `d` stand for, where they are digits, at
/// least one, and the number fits.
pub open spec fn number_of(d: Seq<char>) -> Option<nat> {
    if d.len() > 0 && (forall|i: int| 0 <= i < d.len() ==> is_digit(#[trigger] d[i]))
        && digits_value(d) <= usize::MAX {
        Some(digits_value(d))
    } else {
        None
    }
}

/// What a request for a rule asks for: a name and an arity. A request
/// with one comma is a name and a number, each without the white space
/// around it; any other is a name as it stands, with arity 1.
pub open spec fn rule_request(s: Seq<char>) -> Result<(Seq<char>, nat), ValidationError> {
    let c = char_index(s, ',', 0);
    if c < s.len() && char_index(s, ',', c + 1) >= s.len() {
        match arity_of(trim(s.subrange(c + 1, s.len() as int))) {
            None => Err(ValidationError::BadArity),
            Some(n) => if n == 0 {
                Err(ValidationError::ZeroArity)
            } else {
                Ok((trim(s.take(c)), n))
            },
        }
    } else {
        Ok((s, 1))
    }
}

/// The names of `rules`, in order.
pub open spec fn rule_names(rules: Seq<RuleView>) -> Seq<Seq<char>> {
    Seq::new(rules.len(), |i: int| rules[i].name)
}

/// The first of `list` where it holds anything.
pub open spec fn first_of(list: Seq<Seq<char>>) -> Option<usize> {
    if list.len() > 0 {
        Some(0usize)
    } else {
        None
    }
}

/// Finds `x` in `list`.
pub(crate) fn position_of(list: &Vec<String>, x: &String) -> (r: usize)
    ensures
        r == index_of(string_views(list@), x@, 0),
        r <= list.len(),
{
    let mut i: usize = 0;
    while i < list.len()
        invariant
            i <= list.len(),
            index_of(string_views(list@), x@, 0) == index_of(string_views(list@), x@, i as int),
        decreases list.len() - i,
    {
        if list[i] == *x {
            return i;
        }
        i += 1;
    }
    i
}

/// Finds `c` in `s` from `from` on.
pub(crate) fn find_char(s: &Vec<char>, c: char, from: usize) -> (r: usize)
    requires
        from <= s.len(),
    ensures
        r == char_index(s@, c, from as int),
        from <= r <= s.len(),
{
    let mut i: usize = from;
    while i < s.len()
        invariant
            from <= i <= s.len(),
            char_index(s@, c, from as int) == char_index(s@, c, i as int),
        decreases s.len() - i,
    {
        if s[i] == c {
            return i;
        }
        i += 1;
    }
    i
}

/// Reads the digits `s[start..to]` as a number.
fn read_number_of(s: &Vec<char>, start: usize, to: usize) -> (r: Option<usize>)
    requires
        start <= to <= s.len(),
    ensures
        match r {
            Some(n) => number_of(s@.subrange(start as int, to as int)) == Some(n as nat),
            None => number_of(s@.subrange(start as int, to as int)) is None,
        },
{
    let ghost d = s@.subrange(start as int, to as int);
    if start == to {
        return None;
    }
    let mut acc: usize = 0;
    let mut i: usize = start;
    assert(s@.subrange(start as int, start as int) =~= Seq::<char>::empty());
    while i < to
        invariant
            start <= i <= to <= s.len(),
            d == s@.subrange(start as int, to as int),
            forall|j: int| start <= j < i ==> is_digit(#[trigger] s@[j]),
            acc == digits_value(s@.subrange(start as int, i as int)),
        decreases to - i,
    {
        if !is_digit_char(s[i]) {
            assert(!is_digit(d[i - start]));
            return None;
        }
        let c: u32 = s[i] as u32;
        let v: usize = (c - 0x30) as usize;
        proof {
            lemma_digits_value_step(s@, start as int, i as int);
            lemma_digits_value_grows(s@, start as int, i + 1, to as int);
        }
        if acc > (usize::MAX - v) / 10 {
            assert(digits_value(d) > usize::MAX);
            return None;
        }
        acc = acc * 10 + v;
        i += 1;
    }
    assert forall|j: int| 0 <= j < d.len() implies is_digit(#[trigger] d[j]) by {
        assert(d[j] == s@[start + j]);
    }
    Some(acc)
}

/// Reads `s[from..to]` as the arity of a rule.
fn read_arity(s: &Vec<char>, from: usize, to: usize) -> (r: Option<usize>)
    requires
        from <= to <= s.len(),
    ensures
        match r {
            Some(n) => arity_of(s@.subrange(from as int, to as int)) == Some(n as nat),
            None => arity_of(s@.subrange(from as int, to as int)) is None,
        },
{
    let ghost whole = s@.subrange(from as int, to as int);
    let start: usize = if from < to && s[from] == '+' {
        from + 1
    } else {
        from
    };
    proof {
        let d = s@.subrange(start as int, to as int);
        if from < to {
            assert(whole[0] == s@[from as int]);
        }
        if start > from {
            assert(whole.drop_first() =~= d);
        } else {
            assert(whole =~= d);
        }
    }
    read_number_of(s, start, to)
}

/// Reads a request for a rule: its name and its arity.
pub fn read_rule_request(request: &str) -> (r: Result<(String, usize), ValidationError>)
    ensures
        match r {
            Ok((name, arity)) => rule_request(request@) == Ok::<
                (Seq<char>, nat),
                ValidationError,
            >((name@, arity as nat)),
            Err(e) => rule_request(request@) == Err::<(Seq<char>, nat), ValidationError>(e),
        },
{
    let s = chars_of(request);
    let c = find_char(&s, ',', 0);
    if c < s.len() && find_char(&s, ',', c + 1) >= s.len() {
        let mut tail: Vec<char> = Vec::new();
        let mut i: usize = c + 1;
        while i < s.len()
            invariant
                c + 1 <= i <= s.len(),
                tail@ == s@.subrange(c + 1, i as int),
            decreases s.len() - i,
        {
            tail.push(s[i]);
            assert(tail@ =~= s@.subrange(c + 1, i + 1));
            i += 1;
        }
        let (a, b) = trim_bounds(&tail);
        match read_arity(&tail, a, b) {
            None => Err(ValidationError::BadArity),
            Some(n) => {
                if n == 0 {
                    Err(ValidationError::ZeroArity)
                } else {
                    let mut head: Vec<char> = Vec::new();
                    let mut j: usize = 0;
                    while j < c
                        invariant
                            j <= c <= s.len(),
                            head@ == s@.take(j as int),
                        decreases c - j,
                    {
                        head.push(s[j]);
                        assert(head@ =~= s@.take(j + 1));
                        j += 1;
                    }
                    let (x, y) = trim_bounds(&head);
                    Ok((string_of_range(&head, x, y), n))
                }
            },
        }
    } else {
        Ok((String::from_str(request), 1))
    }
}

/// A sequence as it is kept: its tokens with one space between each two.
pub open spec fn entry_of(input: Seq<char>) -> Seq<char> {
    joined(tokens(input))
}

/// What adding the sequence `input` to `list` comes to: the list, what is
/// selected in it, and what that means. A blank input changes nothing; a
/// sequence that the list holds is selected; a new one must have `arity`
/// tokens and becomes the last and the selected one.
pub open spec fn list_add(
    list: Seq<Seq<char>>,
    selected: Option<usize>,
    arity: nat,
    input: Seq<char>,
) -> (Seq<Seq<char>>, Option<usize>, Result<Sync, ValidationError>) {
    let at = index_of(list, entry_of(input), 0);
    if trim(input).len() == 0 {
        (list, selected, Ok(Sync::Nothing))
    } else if at < list.len() {
        (list, Some(at as usize), Ok(Sync::Selection))
    } else if tokens(input).len() != arity {
        (list, selected, Err(ValidationError::TokenCount))
    } else {
        (list.push(entry_of(input)), Some(list.len() as usize), Ok(Sync::State))
    }
}

/// What is selected after the entry at some index has left a list that is
/// `len` long now: the same as before, or the last where that is no more.
pub open spec fn kept_selection(selected: Option<usize>, len: nat) -> Option<usize> {
    match selected {
        Some(s) => if s >= len {
            if len == 0 {
                None
            } else {
                Some((len - 1) as usize)
            }
        } else {
            Some(s)
        },
        None => None,
    }
}

/// What removing the entry at `index` from `list` comes to.
pub open spec fn list_remove(list: Seq<Seq<char>>, selected: Option<usize>, index: usize) -> (
    Seq<Seq<char>>,
    Option<usize>,
    Sync,
) {
    if index < list.len() {
        (
            list.remove(index as int),
            kept_selection(selected, (list.len() - 1) as nat),
            Sync::State,
        )
    } else {
        (list, selected, Sync::Nothing)
    }
}

/// What putting the sequence `input` in the place of the entry at `index`
/// comes to. A blank input and an index without an entry change nothing;
/// the sequence must have `arity` tokens and be new to the list.
pub open spec fn list_rename(list: Seq<Seq<char>>, arity: nat, index: usize, input: Seq<char>) -> (
    Seq<Seq<char>>,
    Result<Sync, ValidationError>,
) {
    if trim(input).len() == 0 || index >= list.len() {
        (list, Ok(Sync::Nothing))
    } else if tokens(input).len() != arity {
        (list, Err(ValidationError::TokenCount))
    } else if index_of(list, entry_of(input), 0) < list.len() {
        (list, Err(ValidationError::Duplicate))
    } else {
        (list.update(index as int, entry_of(input)), Ok(Sync::State))
    }
}

/// What selecting the entry at `index` comes to: it is selected where it
/// exists, and nothing is selected where it does not.
pub open spec fn list_select(len: nat, selected: Option<usize>, index: usize) -> (
    Option<usize>,
    Sync,
) {
    let now = if index < len {
        Some(index)
    } else {
        None
    };
    (
        now,
        if now != selected {
            Sync::Selection
        } else {
            Sync::Nothing
        },
    )
}

/// Adds the sequence `input` to `list`.
pub(crate) fn add_entry(list: &mut Vec<String>, selected: Option<usize>, arity: usize, input: &str) -> (r: (
    Option<usize>,
    Result<Sync, ValidationError>,
))
    ensures
        (string_views(final(list)@), r.0, r.1) == list_add(
            string_views(old(list)@),
            selected,
            arity as nat,
            input@,
        ),
        final(list).len() == string_views(final(list)@).len(),
{
    let chars = chars_of(input);
    if is_blank(&chars) {
        return (selected, Ok(Sync::Nothing));
    }
    let toks = split_tokens(input);
    let entry = join_tokens(&toks);
    let at = position_of(list, &entry);
    if at < list.len() {
        (Some(at), Ok(Sync::Selection))
    } else if toks.len() != arity {
        assert(string_views(toks@).len() == toks.len());
        (selected, Err(ValidationError::TokenCount))
    } else {
        assert(string_views(toks@).len() == toks.len());
        let n = list.len();
        list.push(entry);
        assert(string_views(final(list)@) =~= string_views(old(list)@).push(entry_of(input@)));
        (Some(n), Ok(Sync::State))
    }
}

/// Removes the entry at `index` from `list`.
pub(crate) fn remove_entry(list: &mut Vec<String>, selected: Option<usize>, index: usize) -> (r: (
    Option<usize>,
    Sync,
))
    ensures
        (string_views(final(list)@), r.0, r.1) == list_remove(
            string_views(old(list)@),
            selected,
            index,
        ),
{
    if index < list.len() {
        list.remove(index);
        assert(string_views(final(list)@) =~= string_views(old(list)@).remove(index as int));
        let now = match selected {
            Some(s) => {
                if s >= list.len() {
                    if list.len() == 0 {
                        None
                    } else {
                        Some(list.len() - 1)
                    }
                } else {
                    Some(s)
                }
            },
            None => None,
        };
        (now, Sync::State)
    } else {
        (selected, Sync::Nothing)
    }
}

/// Puts the sequence `input` in the place of the entry at `index`.
pub(crate) fn rename_entry(list: &mut Vec<String>, arity: usize, index: usize, input: &str) -> (r: Result<
    Sync,
    ValidationError,
>)
    ensures
        (string_views(final(list)@), r) == list_rename(
            string_views(old(list)@),
            arity as nat,
            index,
            input@,
        ),
{
    let chars = chars_of(input);
    if is_blank(&chars) || index >= list.len() {
        return Ok(Sync::Nothing);
    }
    let toks = split_tokens(input);
    assert(string_views(toks@).len() == toks.len());
    if toks.len() != arity {
        return Err(ValidationError::TokenCount);
    }
    let entry = join_tokens(&toks);
    if position_of(list, &entry) < list.len() {
        return Err(ValidationError::Duplicate);
    }
    list.set(index, entry);
    assert(string_views(final(list)@) =~= string_views(old(list)@).update(
        index as int,
        entry_of(input@),
    ));
    Ok(Sync::State)
}

/// Selects the entry at `index` of a list that is `len` long.
pub(crate) fn select_entry(len: usize, selected: Option<usize>, index: usize) -> (r: (Option<usize>, Sync))
    ensures
        r == list_select(len as nat, selected, index),
{
    let now: Option<usize> = if index < len {
        Some(index)
    } else {
        None
    };
    let same = match (now, selected) {
        (None, None) => true,
        (Some(a), Some(b)) => a == b,
        _ => false,
    };
    (
        now,
        if same {
            Sync::Nothing
        } else {
            Sync::Selection
        },
    )
}

/// Finds the first of `rules` that has the name `name`.
pub(crate) fn position_of_name(rules: &Vec<ReplaceRule>, name: &String) -> (r: usize)
    ensures
        r == index_of(rule_names(rule_views(rules@)), name@, 0),
        r <= rules.len(),
{
    let ghost names = rule_names(rule_views(rules@));
    let mut i: usize = 0;
    while i < rules.len()
        invariant
            i <= rules.len(),
            names == rule_names(rule_views(rules@)),
            index_of(names, name@, 0) == index_of(names, name@, i as int),
        decreases rules.len() - i,
    {
        assert(names[i as int] == rules[i as int].rule_name@);
        if rules[i].rule_name == *name {
            return i;
        }
        i += 1;
    }
    i
}

/// A list whose sequences all have `arity` tokens keeps that through
/// every addition, removal and change.
pub proof fn lemma_lists_keep_span(
    list: Seq<Seq<char>>,
    selected: Option<usize>,
    arity: nat,
    index: usize,
    input: Seq<char>,
)
    requires
        all_span(list, arity),
    ensures
        all_span(list_add(list, selected, arity, input).0, arity),
        all_span(list_remove(list, selected, index).0, arity),
        all_span(list_rename(list, arity, index, input).0, arity),
{
    lemma_tokens_of_entry(input);
    let added = list_add(list, selected, arity, input).0;
    assert forall|i: int| 0 <= i < added.len() implies tokens(#[trigger] added[i]).len()
        == arity by {
        if i < list.len() {
            assert(added[i] == list[i]);
        }
    }
    let removed = list_remove(list, selected, index).0;
    assert forall|i: int| 0 <= i < removed.len() implies tokens(#[trigger] removed[i]).len()
        == arity by {
        if index < list.len() {
            if i < index {
                assert(removed[i] == list[i]);
            } else {
                assert(removed[i] == list[i + 1]);
            }
        }
    }
    let renamed = list_rename(list, arity, index, input).0;
    assert forall|i: int| 0 <= i < renamed.len() implies tokens(#[trigger] renamed[i]).len()
        == arity by {
        if i != index {
            assert(renamed[i] == list[i]);
        }
    }
}

} // verus!
