use textgrid_relabel::project::{AppProjectState, FolderKind, ScanError};
use textgrid_relabel::rules::{read_rule_request, Sync, ValidationError};
use textgrid_relabel::settings::{AppSettings, Entry, Stored};
use textgrid_relabel::text::{is_space_char, join_tokens, split_tokens};

fn names(p: &AppProjectState) -> Vec<(String, usize)> {
    p.rules.iter().map(|r| (r.rule_name.clone(), r.term_seq_length)).collect()
}

fn selection(p: &AppProjectState) -> (Option<usize>, Option<usize>, Option<usize>) {
    (p.selected_rule_idx, p.selected_term_idx, p.selected_opt_idx)
}

#[test]
fn a_request_for_a_rule_is_a_name_and_an_arity() {
    assert_eq!(read_rule_request("flap"), Ok(("flap".to_string(), 1)));
    assert_eq!(read_rule_request(" flap , 2 "), Ok(("flap".to_string(), 2)));
    assert_eq!(read_rule_request("flap,+3"), Ok(("flap".to_string(), 3)));
    assert_eq!(read_rule_request("flap,007"), Ok(("flap".to_string(), 7)));
    assert_eq!(read_rule_request(",1"), Ok(("".to_string(), 1)));
    assert_eq!(read_rule_request(" a b "), Ok((" a b ".to_string(), 1)));
    assert_eq!(read_rule_request("a,b,c"), Ok(("a,b,c".to_string(), 1)));
    assert_eq!(read_rule_request("a,1,"), Ok(("a,1,".to_string(), 1)));
    assert_eq!(read_rule_request("flap,0"), Err(ValidationError::ZeroArity));
    assert_eq!(read_rule_request("flap,+0"), Err(ValidationError::ZeroArity));
    for bad in ["flap,", "flap,two", "flap,-1", "flap,1.5", "flap,1 2", "flap,+", "flap,++1", "flap,99999999999999999999999"] {
        assert_eq!(read_rule_request(bad), Err(ValidationError::BadArity), "{}", bad);
    }
    assert_eq!(read_rule_request(&format!("x,{}", usize::MAX)), Ok(("x".to_string(), usize::MAX)));
}

#[test]
fn rules_are_added_once_and_selected() {
    let mut p = AppProjectState::new();
    assert_eq!(p.add_rule("   "), Ok(Sync::Nothing));
    assert_eq!(p.add_rule("flap,2"), Ok(Sync::State));
    assert_eq!(p.add_rule("stop"), Ok(Sync::State));
    assert_eq!(names(&p), vec![("flap".to_string(), 2), ("stop".to_string(), 1)]);
    assert_eq!(selection(&p), (Some(1), None, None));
    assert_eq!(p.add_rule("stop"), Ok(Sync::Nothing));
    assert_eq!(p.add_search_term("t"), Ok(Sync::State));
    assert_eq!(p.add_rule("flap , 9"), Ok(Sync::Selection));
    assert_eq!(selection(&p), (Some(0), None, None));
    assert_eq!(p.add_rule("stop"), Ok(Sync::Selection));
    assert_eq!(selection(&p), (Some(1), Some(0), None));
    assert_eq!(p.add_rule("x,0"), Err(ValidationError::ZeroArity));
    assert_eq!(p.add_rule("x,y"), Err(ValidationError::BadArity));
    assert_eq!(names(&p).len(), 2);
}

#[test]
fn rules_are_renamed_removed_and_selected() {
    let mut p = AppProjectState::new();
    for r in ["a", "b,2", "c"] {
        p.add_rule(r).unwrap();
    }
    assert_eq!(p.rename_rule(0, " "), Err(ValidationError::InvalidName));
    assert_eq!(p.rename_rule(0, "x,1"), Err(ValidationError::InvalidName));
    assert_eq!(p.rename_rule(9, "x,1"), Err(ValidationError::InvalidName));
    assert_eq!(p.rename_rule(0, "b"), Err(ValidationError::Duplicate));
    assert_eq!(p.rename_rule(0, "a"), Err(ValidationError::Duplicate));
    assert_eq!(p.rename_rule(3, "z"), Ok(Sync::Nothing));
    assert_eq!(p.rename_rule(1, " z "), Ok(Sync::State));
    assert_eq!(names(&p), vec![("a".to_string(), 1), (" z ".to_string(), 2), ("c".to_string(), 1)]);

    assert_eq!(p.select_rule(2), Sync::Nothing);
    assert_eq!(p.select_rule(0), Sync::Selection);
    assert_eq!(selection(&p), (Some(0), None, None));
    assert_eq!(p.select_rule(3), Sync::Selection);
    assert_eq!(selection(&p), (None, None, None));
    assert_eq!(p.select_rule(3), Sync::Selection);

    p.select_rule(2);
    p.add_search_term("t").unwrap();
    assert_eq!(p.remove_rule(3), Sync::Nothing);
    assert_eq!(p.remove_rule(0), Sync::State);
    assert_eq!(selection(&p), (Some(1), None, None));
    assert_eq!(p.remove_rule(0), Sync::State);
    assert_eq!(names(&p), vec![("c".to_string(), 1)]);
    assert_eq!(selection(&p), (Some(0), None, None));
    assert_eq!(p.remove_rule(0), Sync::State);
    assert_eq!(selection(&p), (None, None, None));
}

#[test]
fn sequences_have_as_many_tokens_as_the_rule_spans() {
    let mut p = AppProjectState::new();
    assert_eq!(p.add_search_term("t er"), Ok(Sync::Nothing));
    p.add_rule("flap,2").unwrap();
    assert_eq!(p.add_search_term("  "), Ok(Sync::Nothing));
    assert_eq!(p.add_search_term("t"), Err(ValidationError::TokenCount));
    assert_eq!(p.add_search_term("t er x"), Err(ValidationError::TokenCount));
    assert_eq!(p.add_search_term("  t \t er "), Ok(Sync::State));
    assert_eq!(p.add_search_term("d er"), Ok(Sync::State));
    assert_eq!(p.rules[0].search_terms, vec!["t er".to_string(), "d er".to_string()]);
    assert_eq!(p.selected_term_idx, Some(1));
    assert_eq!(p.add_search_term("t   er"), Ok(Sync::Selection));
    assert_eq!(p.selected_term_idx, Some(0));

    assert_eq!(p.rename_search_term(0, "d er"), Err(ValidationError::Duplicate));
    assert_eq!(p.rename_search_term(0, "d"), Err(ValidationError::TokenCount));
    assert_eq!(p.rename_search_term(2, "d"), Ok(Sync::Nothing));
    assert_eq!(p.rename_search_term(0, " "), Ok(Sync::Nothing));
    assert_eq!(p.rename_search_term(0, "t  axr"), Ok(Sync::State));
    assert_eq!(p.rules[0].search_terms, vec!["t axr".to_string(), "d er".to_string()]);

    assert_eq!(p.select_search_term(0), Sync::Nothing);
    assert_eq!(p.select_search_term(1), Sync::Selection);
    assert_eq!(p.select_search_term(2), Sync::Selection);
    assert_eq!(p.selected_term_idx, None);
    p.select_search_term(1);
    assert_eq!(p.remove_search_term(2), Sync::Nothing);
    assert_eq!(p.remove_search_term(0), Sync::State);
    assert_eq!(p.selected_term_idx, Some(0));
    assert_eq!(p.remove_search_term(0), Sync::State);
    assert_eq!(p.selected_term_idx, None);
    assert!(p.rules[0].search_terms.is_empty());
}

#[test]
fn replacements_are_kept_like_sequences() {
    let mut p = AppProjectState::new();
    p.add_rule("flap,2").unwrap();
    assert_eq!(p.add_replace_option("dx"), Err(ValidationError::TokenCount));
    assert_eq!(p.add_replace_option("* dx"), Ok(Sync::State));
    assert_eq!(p.add_replace_option("dx  er"), Ok(Sync::State));
    assert_eq!(p.add_replace_option("*  dx"), Ok(Sync::Selection));
    assert_eq!(selection(&p), (Some(0), None, Some(0)));
    assert_eq!(p.rename_replace_option(1, "* dx"), Err(ValidationError::Duplicate));
    assert_eq!(p.rename_replace_option(1, "* *"), Ok(Sync::State));
    assert_eq!(p.rules[0].replace_options, vec!["* dx".to_string(), "* *".to_string()]);
    assert!(p.rules[0].search_terms.is_empty());
    assert_eq!(p.select_replace_option(1), Sync::Selection);
    assert_eq!(p.select_replace_option(1), Sync::Nothing);
    assert_eq!(p.remove_replace_option(0), Sync::State);
    assert_eq!(selection(&p), (Some(0), None, Some(0)));
    assert_eq!(p.rules[0].replace_options, vec!["* *".to_string()]);
    // a rule selected again shows the first of each
    p.add_search_term("a b").unwrap();
    p.add_rule("other").unwrap();
    assert_eq!(p.select_rule(0), Sync::Selection);
    assert_eq!(selection(&p), (Some(0), Some(0), Some(0)));
}

#[test]
fn a_folder_brings_its_neighbour_where_that_is_not_set() {
    let mut p = AppProjectState::new();
    assert_eq!(p.scan_rule(), Err(ScanError::NoFolder));
    p.open_folder(FolderKind::TextGrid, "/d/TextGrid".to_string(), Some("/d/wav".to_string()));
    assert_eq!((p.tg_folder.clone(), p.wav_folder.clone()), (Some("/d/TextGrid".to_string()), Some("/d/wav".to_string())));
    p.open_folder(FolderKind::TextGrid, "/e/tg".to_string(), Some("/e/wav".to_string()));
    assert_eq!((p.tg_folder.clone(), p.wav_folder.clone()), (Some("/e/tg".to_string()), Some("/d/wav".to_string())));
    p.open_folder(FolderKind::Wav, "/f/wav".to_string(), None);
    assert_eq!((p.tg_folder.clone(), p.wav_folder.clone()), (Some("/e/tg".to_string()), Some("/f/wav".to_string())));
    let mut q = AppProjectState::new();
    q.open_folder(FolderKind::Wav, "/d/wav".to_string(), Some("/d/TextGrid".to_string()));
    assert_eq!((q.tg_folder.clone(), q.wav_folder.clone()), (Some("/d/TextGrid".to_string()), Some("/d/wav".to_string())));
    let mut r = AppProjectState::new();
    r.open_folder(FolderKind::TextGrid, "/".to_string(), None);
    assert_eq!((r.tg_folder.clone(), r.wav_folder.clone()), (Some("/".to_string()), None));

    assert_eq!(p.scan_rule(), Err(ScanError::NoRule));
    p.add_rule("a").unwrap();
    assert_eq!(p.scan_rule(), Ok(0));
    p.selected_rule_idx = Some(1);
    assert_eq!(p.scan_rule(), Err(ScanError::RuleOutOfRange));
    assert_eq!(p.active_rule(), None);
    assert_eq!(p.add_search_term("x"), Ok(Sync::Nothing));
}

fn entry(key: &str, value: Stored) -> Entry {
    Entry { key: key.to_string(), value }
}

#[test]
fn settings_have_their_defaults() {
    let s = AppSettings::load_from_store(&vec![]);
    assert_eq!(s.theme, "cupcake");
    assert_eq!(s.sound_device, None);
    assert_eq!(s.volume_factor, 1000);
    assert_eq!((s.auto_backup, s.auto_next, s.auto_play, s.auto_scroll), (false, true, true, true));
    // a value of another kind counts as none
    let s = AppSettings::load_from_store(&vec![
        entry("appSettings.theme", Stored::Number(3)),
        entry("appSettings.sound_device", Stored::Null),
        entry("appSettings.volume_factor", Stored::Text("loud".to_string())),
        entry("appSettings.auto_backup", Stored::Null),
        entry("appSettings.auto_next", Stored::Number(0)),
        entry("appSettings.auto_play", Stored::Text("false".to_string())),
        entry("auto_scroll", Stored::Flag(false)),
    ]);
    assert_eq!(s.theme, "cupcake");
    assert_eq!(s.sound_device, None);
    assert_eq!(s.volume_factor, 1000);
    assert_eq!((s.auto_backup, s.auto_next, s.auto_play, s.auto_scroll), (false, true, true, true));
}

#[test]
fn settings_are_stored_under_their_keys() {
    let mut s = AppSettings::load_from_store(&vec![
        entry("appSettings.auto_scroll", Stored::Flag(false)),
        entry("appSettings.theme", Stored::Text("dark".to_string())),
        entry("appSettings.theme", Stored::Text("later".to_string())),
        entry("appSettings.sound_device", Stored::Text("B".to_string())),
        entry("appSettings.volume_factor", Stored::Number(250)),
        entry("appSettings.auto_backup", Stored::Flag(true)),
        entry("appSettings.auto_next", Stored::Flag(false)),
        entry("appSettings.auto_play", Stored::Flag(false)),
    ]);
    assert_eq!(s.theme, "dark");
    assert_eq!(s.sound_device, Some("B".to_string()));
    assert_eq!(s.volume_factor, 250);
    assert_eq!((s.auto_backup, s.auto_next, s.auto_play, s.auto_scroll), (true, false, false, false));
    assert_eq!(
        s.save_to_store(),
        vec![
            entry("appSettings.theme", Stored::Text("dark".to_string())),
            entry("appSettings.sound_device", Stored::Text("B".to_string())),
            entry("appSettings.volume_factor", Stored::Number(250)),
            entry("appSettings.auto_backup", Stored::Flag(true)),
            entry("appSettings.auto_next", Stored::Flag(false)),
            entry("appSettings.auto_play", Stored::Flag(false)),
            entry("appSettings.auto_scroll", Stored::Flag(false)),
        ]
    );
    s.update_settings("light".to_string(), 1500, false, true, false, true);
    assert_eq!(s.theme, "light");
    assert_eq!(s.sound_device, Some("B".to_string()));
    assert_eq!(s.volume_factor, 1500);
    assert_eq!((s.auto_backup, s.auto_next, s.auto_play, s.auto_scroll), (false, true, false, true));
    s.select_audio_output_device("C".to_string());
    assert_eq!(s.sound_device, Some("C".to_string()));
    assert_eq!(s.theme, "light");
    let back = AppSettings::load_from_store(&s.save_to_store());
    assert_eq!(back.save_to_store(), s.save_to_store());
    let none = AppSettings::load_from_store(&vec![]);
    assert_eq!(none.save_to_store()[1], entry("appSettings.sound_device", Stored::Null));
}

#[test]
fn tokens_are_what_white_space_parts() {
    let views = |s: &str| split_tokens(s);
    assert_eq!(views(" a  b\tc\n"), vec!["a".to_string(), "b".to_string(), "c".to_string()]);
    assert_eq!(views(""), Vec::<String>::new());
    assert_eq!(views(" \u{3000}\u{a0} "), Vec::<String>::new());
    assert_eq!(views("a\u{2003}b"), vec!["a".to_string(), "b".to_string()]);
    assert_eq!(views("a\u{200b}b"), vec!["a\u{200b}b".to_string()]);
    assert_eq!(join_tokens(&views(" x   y ")), "x y");
    assert_eq!(join_tokens(&vec![]), "");
    assert_eq!(join_tokens(&vec!["solo".to_string()]), "solo");
    for c in (0..=0x10FFFFu32).filter_map(char::from_u32) {
        assert_eq!(is_space_char(c), c.is_whitespace(), "{:?}", c);
    }
    for c in ['\u{0}', ' ', '\t', '\n', '\u{b}', '\u{c}', '\r', '\u{85}', '\u{a0}', '\u{1680}', '\u{2000}', '\u{200a}', '\u{200b}', '\u{2028}', '\u{2029}', '\u{202f}', '\u{205f}', '\u{3000}', '\u{feff}', 'a', '\u{1c}', '\u{180e}'] {
        assert_eq!(is_space_char(c), c.is_whitespace(), "{:?}", c);
    }
}

#[test]
fn a_kept_sequence_has_the_tokens_it_was_given() {
    for given in ["", " ", "a", "  a  ", "a b", " t\t er\n x ", "a\u{3000}b  c", "*  dx"] {
        let tokens = split_tokens(given);
        assert_eq!(split_tokens(&join_tokens(&tokens)), tokens, "{:?}", given);
    }
}
