//! The project: the two folders, the rules, and what is selected among them.

use vstd::prelude::*;
use crate::rules::{
    add_entry, char_index, find_char, first_of, index_of, kept_selection, lemma_index_of,
    lemma_lists_keep_span,
    list_add, list_remove, list_rename, list_select, position_of_name, read_rule_request,
    remove_entry, rename_entry, rule_names, rule_request, rule_views, select_entry, ReplaceRule,
    RuleView, Sync, ValidationError,
};
use crate::text::{chars_of, is_blank, trim};

verus! {

/// Which of the two folders of a project is meant.
#[derive(Debug, Clone, Copy, PartialEq, Eq, Structural)]
pub enum FolderKind {
    /// The folder of the annotation files.
    TextGrid,
    /// The folder of the recordings.
    Wav,
}

/// Why a scan cannot start.
#[derive(Debug, Clone, Copy, PartialEq, Eq, Structural)]
pub enum ScanError {
    /// The folder of the annotation files is not set.
    NoFolder,
    /// No rule is selected.
    NoRule,
    /// The selected rule does not exist.
    RuleOutOfRange,
}

/// The state of a project.
#[derive(Debug)]
pub struct AppProjectState {
    pub tg_folder: Option<String>,
    pub wav_folder: Option<String>,
    pub rules: Vec<ReplaceRule>,
    /// The selected rule, by its index.
    pub selected_rule_idx: Option<usize>,
    /// The selected sequence to look for of the selected rule, by its index.
    pub selected_term_idx: Option<usize>,
    /// The selected replacement of the selected rule, by its index.
    pub selected_opt_idx: Option<usize>,
}

/// What the state of a project is.
pub struct ProjectView {
    pub tg_folder: Option<Seq<char>>,
    pub wav_folder: Option<Seq<char>>,
    pub rules: Seq<RuleView>,
    pub selected_rule: Option<usize>,
    pub selected_term: Option<usize>,
    pub selected_opt: Option<usize>,
}

/// What `name` holds, where there is one.
pub open spec fn name_view(name: Option<String>) -> Option<Seq<char>> {
    match name {
        Some(n) => Some(n@),
        None => None,
    }
}

impl View for AppProjectState {
    type V = ProjectView;

    open spec fn view(&self) -> ProjectView {
        ProjectView {
            tg_folder: name_view(self.tg_folder),
            wav_folder: name_view(self.wav_folder),
            rules: rule_views(self.rules@),
            selected_rule: self.selected_rule_idx,
            selected_term: self.selected_term_idx,
            selected_opt: self.selected_opt_idx,
        }
    }
}

impl ProjectView {
    /// Whether every rule is well formed, and the selected rule exists.
    pub open spec fn wf(self) -> bool {
        &&& forall|r: int| 0 <= r < self.rules.len() ==> (#[trigger] self.rules[r]).wf()
        &&& (self.selected_rule matches Some(r) ==> r < self.rules.len())
    }

    /// The index of the selected rule, where that rule exists.
    pub open spec fn active(self) -> Option<usize> {
        match self.selected_rule {
            Some(r) => if r < self.rules.len() {
                Some(r)
            } else {
                None
            },
            None => None,
        }
    }

    /// The project with the rule at `r` selected, and the first of its
    /// sequences and the first of its replacements.
    pub open spec fn with_rule_selected(self, r: usize) -> ProjectView {
        ProjectView {
            selected_rule: Some(r),
            selected_term: first_of(self.rules[r as int].search_terms),
            selected_opt: first_of(self.rules[r as int].replace_options),
            ..self
        }
    }

    /// What a request for a rule comes to. A blank request changes
    /// nothing. A request for a name that a rule has selects the first
    /// such rule. Any other adds a rule of that name and arity, without
    /// sequences, and selects it.
    pub open spec fn add_rule(self, request: Seq<char>) -> (ProjectView, Result<
        Sync,
        ValidationError,
    >) {
        if trim(request).len() == 0 {
            (self, Ok(Sync::Nothing))
        } else {
            match rule_request(request) {
                Err(e) => (self, Err(e)),
                Ok((name, arity)) => {
                    let at = index_of(rule_names(self.rules), name, 0);
                    if at < self.rules.len() {
                        if self.selected_rule == Some(at as usize) {
                            (self, Ok(Sync::Nothing))
                        } else {
                            (self.with_rule_selected(at as usize), Ok(Sync::Selection))
                        }
                    } else {
                        (
                            ProjectView {
                                rules: self.rules.push(
                                    RuleView {
                                        name,
                                        arity,
                                        search_terms: Seq::empty(),
                                        replace_options: Seq::empty(),
                                    },
                                ),
                                selected_rule: Some(self.rules.len() as usize),
                                selected_term: None,
                                selected_opt: None,
                                ..self
                            },
                            Ok(Sync::State),
                        )
                    }
                },
            }
        }
    }

    /// What giving the rule at `index` the name `name` comes to. The name
    /// must not be blank, hold no comma, and be new to the rules. An index
    /// without a rule changes nothing.
    pub open spec fn rename_rule(self, index: usize, name: Seq<char>) -> (ProjectView, Result<
        Sync,
        ValidationError,
    >) {
        if trim(name).len() == 0 || char_index(name, ',', 0) < name.len() {
            (self, Err(ValidationError::InvalidName))
        } else if index >= self.rules.len() {
            (self, Ok(Sync::Nothing))
        } else if index_of(rule_names(self.rules), name, 0) < self.rules.len() {
            (self, Err(ValidationError::Duplicate))
        } else {
            (
                ProjectView {
                    rules: self.rules.update(
                        index as int,
                        RuleView { name, ..self.rules[index as int] },
                    ),
                    ..self
                },
                Ok(Sync::State),
            )
        }
    }

    /// What removing the rule at `index` comes to. Where the selected rule
    /// is no more, the last rule is selected, and none of its sequences.
    pub open spec fn remove_rule(self, index: usize) -> (ProjectView, Sync) {
        if index < self.rules.len() {
            let rules = self.rules.remove(index as int);
            match self.selected_rule {
                Some(r) => if r >= rules.len() {
                    (
                        ProjectView {
                            rules,
                            selected_rule: kept_selection(self.selected_rule, rules.len()),
                            selected_term: None,
                            selected_opt: None,
                            ..self
                        },
                        Sync::State,
                    )
                } else {
                    (ProjectView { rules, ..self }, Sync::State)
                },
                None => (ProjectView { rules, ..self }, Sync::State),
            }
        } else {
            (self, Sync::Nothing)
        }
    }

    /// What selecting the rule at `index` comes to. An index without a rule
    /// leaves nothing selected.
    pub open spec fn select_rule(self, index: usize) -> (ProjectView, Sync) {
        if index >= self.rules.len() {
            (
                ProjectView { selected_rule: None, selected_term: None, selected_opt: None, ..self },
                Sync::Selection,
            )
        } else if self.selected_rule == Some(index) {
            (self, Sync::Nothing)
        } else {
            (self.with_rule_selected(index), Sync::Selection)
        }
    }

    /// The project with `terms` as the sequences that the rule at `r`
    /// looks for.
    pub open spec fn with_terms(self, r: usize, terms: Seq<Seq<char>>) -> ProjectView {
        ProjectView {
            rules: self.rules.update(
                r as int,
                RuleView { search_terms: terms, ..self.rules[r as int] },
            ),
            ..self
        }
    }

    /// The project with `options` as the replacements of the rule at `r`.
    pub open spec fn with_options(self, r: usize, options: Seq<Seq<char>>) -> ProjectView {
        ProjectView {
            rules: self.rules.update(
                r as int,
                RuleView { replace_options: options, ..self.rules[r as int] },
            ),
            ..self
        }
    }

    /// What adding a sequence to look for to the selected rule comes to.
    pub open spec fn add_search_term(self, input: Seq<char>) -> (ProjectView, Result<
        Sync,
        ValidationError,
    >) {
        match self.active() {
            None => (self, Ok(Sync::Nothing)),
            Some(r) => {
                let rule = self.rules[r as int];
                let x = list_add(rule.search_terms, self.selected_term, rule.arity, input);
                (ProjectView { selected_term: x.1, ..self.with_terms(r, x.0) }, x.2)
            },
        }
    }

    /// What removing a sequence to look for from the selected rule comes to.
    pub open spec fn remove_search_term(self, index: usize) -> (ProjectView, Sync) {
        match self.active() {
            None => (self, Sync::Nothing),
            Some(r) => {
                let x = list_remove(self.rules[r as int].search_terms, self.selected_term, index);
                (ProjectView { selected_term: x.1, ..self.with_terms(r, x.0) }, x.2)
            },
        }
    }

    /// What changing a sequence to look for of the selected rule comes to.
    pub open spec fn rename_search_term(self, index: usize, input: Seq<char>) -> (
        ProjectView,
        Result<Sync, ValidationError>,
    ) {
        match self.active() {
            None => (self, Ok(Sync::Nothing)),
            Some(r) => {
                let rule = self.rules[r as int];
                let x = list_rename(rule.search_terms, rule.arity, index, input);
                (self.with_terms(r, x.0), x.1)
            },
        }
    }

    /// What selecting a sequence to look for of the selected rule comes to.
    pub open spec fn select_search_term(self, index: usize) -> (ProjectView, Sync) {
        match self.active() {
            None => (self, Sync::Nothing),
            Some(r) => {
                let x = list_select(
                    self.rules[r as int].search_terms.len(),
                    self.selected_term,
                    index,
                );
                (ProjectView { selected_term: x.0, ..self }, x.1)
            },
        }
    }

    /// What adding a replacement to the selected rule comes to.
    pub open spec fn add_replace_option(self, input: Seq<char>) -> (ProjectView, Result<
        Sync,
        ValidationError,
    >) {
        match self.active() {
            None => (self, Ok(Sync::Nothing)),
            Some(r) => {
                let rule = self.rules[r as int];
                let x = list_add(rule.replace_options, self.selected_opt, rule.arity, input);
                (ProjectView { selected_opt: x.1, ..self.with_options(r, x.0) }, x.2)
            },
        }
    }

    /// What removing a replacement from the selected rule comes to.
    pub open spec fn remove_replace_option(self, index: usize) -> (ProjectView, Sync) {
        match self.active() {
            None => (self, Sync::Nothing),
            Some(r) => {
                let x = list_remove(self.rules[r as int].replace_options, self.selected_opt, index);
                (ProjectView { selected_opt: x.1, ..self.with_options(r, x.0) }, x.2)
            },
        }
    }

    /// What changing a replacement of the selected rule comes to.
    pub open spec fn rename_replace_option(self, index: usize, input: Seq<char>) -> (
        ProjectView,
        Result<Sync, ValidationError>,
    ) {
        match self.active() {
            None => (self, Ok(Sync::Nothing)),
            Some(r) => {
                let rule = self.rules[r as int];
                let x = list_rename(rule.replace_options, rule.arity, index, input);
                (self.with_options(r, x.0), x.1)
            },
        }
    }

    /// What selecting a replacement of the selected rule comes to.
    pub open spec fn select_replace_option(self, index: usize) -> (ProjectView, Sync) {
        match self.active() {
            None => (self, Sync::Nothing),
            Some(r) => {
                let x = list_select(
                    self.rules[r as int].replace_options.len(),
                    self.selected_opt,
                    index,
                );
                (ProjectView { selected_opt: x.0, ..self }, x.1)
            },
        }
    }

    /// What opening a folder comes to: it is the folder of its kind, and
    /// where the folder of the other kind is not set, `beside` takes its
    /// place, if there is one.
    pub open spec fn open_folder(
        self,
        kind: FolderKind,
        folder: Seq<char>,
        beside: Option<Seq<char>>,
    ) -> ProjectView {
        match kind {
            FolderKind::TextGrid => ProjectView {
                tg_folder: Some(folder),
                wav_folder: if self.wav_folder is None {
                    beside
                } else {
                    self.wav_folder
                },
                ..self
            },
            FolderKind::Wav => ProjectView {
                wav_folder: Some(folder),
                tg_folder: if self.tg_folder is None {
                    beside
                } else {
                    self.tg_folder
                },
                ..self
            },
        }
    }
}

/// The first of a list, by its index, where the list holds anything.
fn first_index(len: usize) -> (r: Option<usize>)
    ensures
        r == if len > 0 {
            Some(0usize)
        } else {
            None
        },
{
    if len > 0 {
        Some(0)
    } else {
        None
    }
}

impl AppProjectState {
    /// A project without folders and without rules.
    pub fn new() -> (p: AppProjectState)
        ensures
            p@ == (ProjectView {
                tg_folder: None,
                wav_folder: None,
                rules: Seq::empty(),
                selected_rule: None,
                selected_term: None,
                selected_opt: None,
            }),
    {
        let p = AppProjectState {
            tg_folder: None,
            wav_folder: None,
            rules: Vec::new(),
            selected_rule_idx: None,
            selected_term_idx: None,
            selected_opt_idx: None,
        };
        assert(p@.rules =~= Seq::<RuleView>::empty());
        p
    }

    /// The index of the selected rule, where that rule exists.
    pub fn active_rule(&self) -> (r: Option<usize>)
        ensures
            r == self@.active(),
    {
        match self.selected_rule_idx {
            Some(r) => {
                if r < self.rules.len() {
                    Some(r)
                } else {
                    None
                }
            },
            None => None,
        }
    }

    /// The index of the rule to scan with: the selected rule. A scan needs
    /// the folder of the annotation files and a selected rule that exists;
    /// the first that is missing is reported.
    pub fn scan_rule(&self) -> (r: Result<usize, ScanError>)
        ensures
            r == if self.tg_folder is None {
                Err::<usize, ScanError>(ScanError::NoFolder)
            } else {
                match self.selected_rule_idx {
                    None => Err::<usize, ScanError>(ScanError::NoRule),
                    Some(i) => if i >= self.rules.len() {
                        Err::<usize, ScanError>(ScanError::RuleOutOfRange)
                    } else {
                        Ok::<usize, ScanError>(i)
                    },
                }
            },
    {
        if self.tg_folder.is_none() {
            return Err(ScanError::NoFolder);
        }
        match self.selected_rule_idx {
            None => Err(ScanError::NoRule),
            Some(i) => {
                if i >= self.rules.len() {
                    Err(ScanError::RuleOutOfRange)
                } else {
                    Ok(i)
                }
            },
        }
    }

    /// Selects the rule at `r` with the first of its sequences and the
    /// first of its replacements.
    fn select_with_firsts(&mut self, r: usize)
        requires
            r < old(self).rules.len(),
        ensures
            final(self)@ == old(self)@.with_rule_selected(r),
    {
        self.selected_rule_idx = Some(r);
        self.selected_term_idx = first_index(self.rules[r].search_terms.len());
        self.selected_opt_idx = first_index(self.rules[r].replace_options.len());
    }

    /// Adds the rule that `request` asks for, or selects it where the
    /// rules hold one of its name.
    pub fn add_rule(&mut self, request: &str) -> (r: Result<Sync, ValidationError>)
        ensures
            (final(self)@, r) == old(self)@.add_rule(request@),
    {
        let chars = chars_of(request);
        if is_blank(&chars) {
            return Ok(Sync::Nothing);
        }
        let (name, arity) = match read_rule_request(request) {
            Ok(x) => x,
            Err(e) => {
                return Err(e);
            },
        };
        let at = position_of_name(&self.rules, &name);
        if at < self.rules.len() {
            let same = match self.selected_rule_idx {
                Some(r) => r == at,
                None => false,
            };
            if same {
                Ok(Sync::Nothing)
            } else {
                self.select_with_firsts(at);
                Ok(Sync::Selection)
            }
        } else {
            let n = self.rules.len();
            let rule = ReplaceRule {
                rule_name: name,
                term_seq_length: arity,
                search_terms: Vec::new(),
                replace_options: Vec::new(),
            };
            assert(rule@.search_terms =~= Seq::<Seq<char>>::empty());
            assert(rule@.replace_options =~= Seq::<Seq<char>>::empty());
            self.rules.push(rule);
            self.selected_rule_idx = Some(n);
            self.selected_term_idx = None;
            self.selected_opt_idx = None;
            assert(final(self)@.rules =~= old(self)@.rules.push(rule@));
            Ok(Sync::State)
        }
    }

    /// Gives the rule at `index` the name `name`.
    pub fn rename_rule(&mut self, index: usize, name: &str) -> (r: Result<Sync, ValidationError>)
        ensures
            (final(self)@, r) == old(self)@.rename_rule(index, name@),
    {
        let chars = chars_of(name);
        if is_blank(&chars) || find_char(&chars, ',', 0) < chars.len() {
            return Err(ValidationError::InvalidName);
        }
        if index >= self.rules.len() {
            return Ok(Sync::Nothing);
        }
        let new_name = String::from_str(name);
        if position_of_name(&self.rules, &new_name) < self.rules.len() {
            return Err(ValidationError::Duplicate);
        }
        self.rules[index].rule_name = new_name;
        assert(final(self)@.rules =~= old(self)@.rules.update(
            index as int,
            RuleView { name: name@, ..old(self)@.rules[index as int] },
        ));
        Ok(Sync::State)
    }

    /// Removes the rule at `index`.
    pub fn remove_rule(&mut self, index: usize) -> (r: Sync)
        ensures
            (final(self)@, r) == old(self)@.remove_rule(index),
    {
        if index >= self.rules.len() {
            return Sync::Nothing;
        }
        self.rules.remove(index);
        assert(rule_views(self.rules@) =~= old(self)@.rules.remove(index as int));
        match self.selected_rule_idx {
            Some(r) => {
                if r >= self.rules.len() {
                    self.selected_rule_idx = if self.rules.len() == 0 {
                        None
                    } else {
                        Some(self.rules.len() - 1)
                    };
                    self.selected_term_idx = None;
                    self.selected_opt_idx = None;
                }
            },
            None => {},
        }
        Sync::State
    }

    /// Selects the rule at `index`, or none where there is no such rule.
    pub fn select_rule(&mut self, index: usize) -> (r: Sync)
        ensures
            (final(self)@, r) == old(self)@.select_rule(index),
    {
        if index >= self.rules.len() {
            self.selected_rule_idx = None;
            self.selected_term_idx = None;
            self.selected_opt_idx = None;
            return Sync::Selection;
        }
        let same = match self.selected_rule_idx {
            Some(r) => r == index,
            None => false,
        };
        if same {
            Sync::Nothing
        } else {
            self.select_with_firsts(index);
            Sync::Selection
        }
    }

    /// Adds a sequence to look for to the selected rule.
    pub fn add_search_term(&mut self, input: &str) -> (r: Result<Sync, ValidationError>)
        ensures
            (final(self)@, r) == old(self)@.add_search_term(input@),
    {
        match self.active_rule() {
            None => Ok(Sync::Nothing),
            Some(i) => {
                let arity = self.rules[i].term_seq_length;
                let (selected, r) = add_entry(
                    &mut self.rules[i].search_terms,
                    self.selected_term_idx,
                    arity,
                    input,
                );
                self.selected_term_idx = selected;
                assert(final(self)@.rules =~= old(self)@.with_terms(
                    i,
                    final(self).rules[i as int]@.search_terms,
                ).rules);
                r
            },
        }
    }

    /// Removes the sequence to look for at `index` from the selected rule.
    pub fn remove_search_term(&mut self, index: usize) -> (r: Sync)
        ensures
            (final(self)@, r) == old(self)@.remove_search_term(index),
    {
        match self.active_rule() {
            None => Sync::Nothing,
            Some(i) => {
                let (selected, r) = remove_entry(
                    &mut self.rules[i].search_terms,
                    self.selected_term_idx,
                    index,
                );
                self.selected_term_idx = selected;
                assert(final(self)@.rules =~= old(self)@.with_terms(
                    i,
                    final(self).rules[i as int]@.search_terms,
                ).rules);
                r
            },
        }
    }

    /// Puts `input` in the place of the sequence to look for at `index`
    /// of the selected rule.
    pub fn rename_search_term(&mut self, index: usize, input: &str) -> (r: Result<
        Sync,
        ValidationError,
    >)
        ensures
            (final(self)@, r) == old(self)@.rename_search_term(index, input@),
    {
        match self.active_rule() {
            None => Ok(Sync::Nothing),
            Some(i) => {
                let arity = self.rules[i].term_seq_length;
                let r = rename_entry(&mut self.rules[i].search_terms, arity, index, input);
                assert(final(self)@.rules =~= old(self)@.with_terms(
                    i,
                    final(self).rules[i as int]@.search_terms,
                ).rules);
                r
            },
        }
    }

    /// Selects the sequence to look for at `index` of the selected rule.
    pub fn select_search_term(&mut self, index: usize) -> (r: Sync)
        ensures
            (final(self)@, r) == old(self)@.select_search_term(index),
    {
        match self.active_rule() {
            None => Sync::Nothing,
            Some(i) => {
                let (selected, r) = select_entry(
                    self.rules[i].search_terms.len(),
                    self.selected_term_idx,
                    index,
                );
                self.selected_term_idx = selected;
                r
            },
        }
    }

    /// Adds a replacement to the selected rule.
    pub fn add_replace_option(&mut self, input: &str) -> (r: Result<Sync, ValidationError>)
        ensures
            (final(self)@, r) == old(self)@.add_replace_option(input@),
    {
        match self.active_rule() {
            None => Ok(Sync::Nothing),
            Some(i) => {
                let arity = self.rules[i].term_seq_length;
                let (selected, r) = add_entry(
                    &mut self.rules[i].replace_options,
                    self.selected_opt_idx,
                    arity,
                    input,
                );
                self.selected_opt_idx = selected;
                assert(final(self)@.rules =~= old(self)@.with_options(
                    i,
                    final(self).rules[i as int]@.replace_options,
                ).rules);
                r
            },
        }
    }

    /// Removes the replacement at `index` from the selected rule.
    pub fn remove_replace_option(&mut self, index: usize) -> (r: Sync)
        ensures
            (final(self)@, r) == old(self)@.remove_replace_option(index),
    {
        match self.active_rule() {
            None => Sync::Nothing,
            Some(i) => {
                let (selected, r) = remove_entry(
                    &mut self.rules[i].replace_options,
                    self.selected_opt_idx,
                    index,
                );
                self.selected_opt_idx = selected;
                assert(final(self)@.rules =~= old(self)@.with_options(
                    i,
                    final(self).rules[i as int]@.replace_options,
                ).rules);
                r
            },
        }
    }

    /// Puts `input` in the place of the replacement at `index` of the
    /// selected rule.
    pub fn rename_replace_option(&mut self, index: usize, input: &str) -> (r: Result<
        Sync,
        ValidationError,
    >)
        ensures
            (final(self)@, r) == old(self)@.rename_replace_option(index, input@),
    {
        match self.active_rule() {
            None => Ok(Sync::Nothing),
            Some(i) => {
                let arity = self.rules[i].term_seq_length;
                let r = rename_entry(&mut self.rules[i].replace_options, arity, index, input);
                assert(final(self)@.rules =~= old(self)@.with_options(
                    i,
                    final(self).rules[i as int]@.replace_options,
                ).rules);
                r
            },
        }
    }

    /// Selects the replacement at `index` of the selected rule.
    pub fn select_replace_option(&mut self, index: usize) -> (r: Sync)
        ensures
            (final(self)@, r) == old(self)@.select_replace_option(index),
    {
        match self.active_rule() {
            None => Sync::Nothing,
            Some(i) => {
                let (selected, r) = select_entry(
                    self.rules[i].replace_options.len(),
                    self.selected_opt_idx,
                    index,
                );
                self.selected_opt_idx = selected;
                r
            },
        }
    }

    /// Opens `folder` as the folder of its kind. Where the folder of the
    /// other kind is not set yet, `beside` takes its place: the folder
    /// where the files of the other kind are looked for by default.
    pub fn open_folder(&mut self, kind: FolderKind, folder: String, beside: Option<String>)
        ensures
            final(self)@ == old(self)@.open_folder(kind, folder@, name_view(beside)),
    {
        match kind {
            FolderKind::TextGrid => {
                self.tg_folder = Some(folder);
                if self.wav_folder.is_none() {
                    self.wav_folder = beside;
                }
            },
            FolderKind::Wav => {
                self.wav_folder = Some(folder);
                if self.tg_folder.is_none() {
                    self.tg_folder = beside;
                }
            },
        }
    }
}

/// A project in which every rule is well formed and the selected rule
/// exists stays so through every change: each rule spans at least one
/// label, and each of its sequences has as many tokens. (A rule is added
/// only where the rules can still be counted.)
pub proof fn lemma_project_stays_well_formed(
    p: ProjectView,
    index: usize,
    input: Seq<char>,
    kind: FolderKind,
    beside: Option<Seq<char>>,
)
    requires
        p.wf(),
    ensures
        p.rules.len() < usize::MAX ==> p.add_rule(input).0.wf(),
        p.rename_rule(index, input).0.wf(),
        p.remove_rule(index).0.wf(),
        p.select_rule(index).0.wf(),
        p.add_search_term(input).0.wf(),
        p.remove_search_term(index).0.wf(),
        p.rename_search_term(index, input).0.wf(),
        p.select_search_term(index).0.wf(),
        p.add_replace_option(input).0.wf(),
        p.remove_replace_option(index).0.wf(),
        p.rename_replace_option(index, input).0.wf(),
        p.select_replace_option(index).0.wf(),
        p.open_folder(kind, input, beside).wf(),
{
    lemma_rules_stay_well_formed(p, index, input);
    match p.active() {
        None => {},
        Some(r) => {
            let rule = p.rules[r as int];
            assert(rule.wf());
            lemma_lists_keep_span(rule.search_terms, p.selected_term, rule.arity, index, input);
            lemma_lists_keep_span(rule.replace_options, p.selected_opt, rule.arity, index, input);
            lemma_with_terms(p, r, list_add(rule.search_terms, p.selected_term, rule.arity, input).0);
            lemma_with_terms(p, r, list_remove(rule.search_terms, p.selected_term, index).0);
            lemma_with_terms(p, r, list_rename(rule.search_terms, rule.arity, index, input).0);
            lemma_with_options(
                p,
                r,
                list_add(rule.replace_options, p.selected_opt, rule.arity, input).0,
            );
            lemma_with_options(p, r, list_remove(rule.replace_options, p.selected_opt, index).0);
            lemma_with_options(p, r, list_rename(rule.replace_options, rule.arity, index, input).0);
        },
    }
}

/// Other sequences to look for, each with as many tokens as the rule
/// spans labels, leave the rules well formed.
proof fn lemma_with_terms(p: ProjectView, r: usize, terms: Seq<Seq<char>>)
    requires
        p.wf(),
        r < p.rules.len(),
        crate::rules::all_span(terms, p.rules[r as int].arity),
    ensures
        forall|k: int|
            0 <= k < p.rules.len() ==> (#[trigger] p.with_terms(r, terms).rules[k]).wf(),
        p.with_terms(r, terms).rules.len() == p.rules.len(),
{
    let q = p.with_terms(r, terms);
    assert forall|k: int| 0 <= k < p.rules.len() implies (#[trigger] q.rules[k]).wf() by {
        assert(p.rules[k].wf());
    }
}

/// Other replacements, each with as many tokens as the rule spans labels,
/// leave the rules well formed.
proof fn lemma_with_options(p: ProjectView, r: usize, options: Seq<Seq<char>>)
    requires
        p.wf(),
        r < p.rules.len(),
        crate::rules::all_span(options, p.rules[r as int].arity),
    ensures
        forall|k: int|
            0 <= k < p.rules.len() ==> (#[trigger] p.with_options(r, options).rules[k]).wf(),
        p.with_options(r, options).rules.len() == p.rules.len(),
{
    let q = p.with_options(r, options);
    assert forall|k: int| 0 <= k < p.rules.len() implies (#[trigger] q.rules[k]).wf() by {
        assert(p.rules[k].wf());
    }
}

/// Adding, renaming and removing a rule leave the rules well formed.
proof fn lemma_rules_stay_well_formed(p: ProjectView, index: usize, input: Seq<char>)
    requires
        p.wf(),
    ensures
        p.rules.len() < usize::MAX ==> p.add_rule(input).0.wf(),
        p.rename_rule(index, input).0.wf(),
        p.remove_rule(index).0.wf(),
{
    let added = p.add_rule(input).0;
    if let Ok((name, arity)) = rule_request(input) {
        lemma_index_of(rule_names(p.rules), name, 0);
    }
    assert forall|k: int| 0 <= k < added.rules.len() implies (#[trigger] added.rules[k]).wf() by {
        if k < p.rules.len() {
            assert(p.rules[k].wf());
            assert(added.rules[k] == p.rules[k]);
        }
    }
    let renamed = p.rename_rule(index, input).0;
    assert forall|k: int| 0 <= k < renamed.rules.len() implies (#[trigger] renamed.rules[k]).wf() by {
        assert(p.rules[k].wf());
    }
    let removed = p.remove_rule(index).0;
    assert forall|k: int| 0 <= k < removed.rules.len() implies (#[trigger] removed.rules[k]).wf() by {
        if index < p.rules.len() {
            if k < index {
                assert(p.rules[k].wf());
                assert(removed.rules[k] == p.rules[k]);
            } else {
                assert(p.rules[k + 1].wf());
                assert(removed.rules[k] == p.rules[k + 1]);
            }
        } else {
            assert(p.rules[k].wf());
        }
    }
}

} // verus!
