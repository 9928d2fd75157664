use textgrid_relabel::audio::SoundCommand;
use textgrid_relabel::encode::EncodeError;
use textgrid_relabel::grid::{TextGrid, TextGridInterval, TextGridIntervals};
use textgrid_relabel::rewrite::StateError;
use textgrid_relabel::rules::ReplaceRule;
use textgrid_relabel::session::{
    is_annotation_name, same_choices, SaveError, SaveStep, ScanOutcome, SessionItems,
};
use textgrid_relabel::text::{file_stem, has_extension};

fn ms(xmin_ms: u64, xmax_ms: u64, text: &str) -> TextGridInterval {
    TextGridInterval { xmin: xmin_ms * 1_000_000, xmax: xmax_ms * 1_000_000, text: text.to_string() }
}

fn sample(labels: &[&str]) -> TextGrid {
    let n = labels.len() as u64;
    TextGrid {
        items: vec![
            TextGridIntervals { name: "words".to_string(), intervals: vec![ms(1000, 1000 + 200 * n, "word")] },
            TextGridIntervals {
                name: "phones".to_string(),
                intervals: labels
                    .iter()
                    .enumerate()
                    .map(|(i, l)| ms(1000 + 200 * i as u64, 1200 + 200 * i as u64, l))
                    .collect(),
            },
        ],
    }
}

fn phone_labels(tg: &TextGrid) -> Vec<String> {
    tg.items.last().unwrap().intervals.iter().map(|iv| iv.text.clone()).collect()
}

fn flap_rule() -> ReplaceRule {
    ReplaceRule {
        rule_name: "flap".to_string(),
        term_seq_length: 2,
        search_terms: vec!["t er".to_string(), "d er".to_string()],
        replace_options: vec!["dx er".to_string(), "* axr".to_string()],
    }
}

fn scanned() -> SessionItems {
    let mut s = SessionItems::new();
    assert!(s.add_file(
        &flap_rule(),
        "/tg/a.TextGrid".to_string(),
        "a".to_string(),
        Some("/wav/a.wav".to_string()),
        sample(&["b", "t", "er", "d", "er"]),
    ));
    assert!(!s.add_file(&flap_rule(), "/tg/b.TextGrid".to_string(), "b".to_string(), None, sample(&["x", "y"])));
    assert!(s.add_file(&flap_rule(), "/tg/c.TextGrid".to_string(), "c".to_string(), None, sample(&["t", "er"])));
    s
}

#[test]
fn a_scan_lists_the_files_in_which_the_rule_matches() {
    let s = scanned();
    assert_eq!(s.items.len(), 2);
    assert_eq!(s.selected_item, Some(0));
    assert_eq!(s.selected_mark, vec![Some(0), Some(0)]);
    let a = &s.items[0];
    assert_eq!(a.tg_file, "/tg/a.TextGrid");
    assert_eq!(a.tg_stem, "a");
    assert_eq!(a.wav_file, Some("/wav/a.wav".to_string()));
    assert_eq!(a.found_mark_idxs, vec![1, 3]);
    assert_eq!(a.found_mark_titles, vec!["(word) b [t er] d er".to_string(), "(word) t er [d er] er".to_string()]);
    assert_eq!(a.replace_options, vec!["dx er".to_string(), "* axr".to_string()]);
    assert_eq!(a.term_seq_length, 2);
    assert_eq!(a.selected_options, vec![None, None]);
    assert_eq!(a.original_options, vec![None, None]);
    assert!(!a.dirty);
    assert_eq!(s.items[1].found_mark_idxs, vec![0]);
}

#[test]
fn a_file_that_is_no_annotation_is_skipped() {
    let mut s = scanned();
    let outcome = s.scan_file(&flap_rule(), "/tg/d.TextGrid".to_string(), "d.TextGrid", None, b"not a grid");
    match outcome {
        ScanOutcome::Unreadable(e) => assert_eq!(e.position, 0),
        other => panic!("{:?}", other),
    }
    assert_eq!(s.items.len(), 2);
    let text = textgrid_relabel::encode::textgrid_to_string(&sample(&["d", "er"])).unwrap();
    // a file of another name is not read, whatever it holds
    for name in ["e.wav", "e.TextGrid.bak", "TextGrid", ".textgrid", "e.textgrid.", "e.textgri", "etextgrid", ""] {
        let outcome = s.scan_file(&flap_rule(), format!("/tg/{}", name), name, None, text.as_bytes());
        assert!(matches!(outcome, ScanOutcome::Skipped), "{}", name);
        assert_eq!(s.items.len(), 2);
    }
    let outcome = s.scan_file(&flap_rule(), "/tg/e.v2.TEXTgrid".to_string(), "e.v2.TEXTgrid", None, text.as_bytes());
    assert!(matches!(outcome, ScanOutcome::Listed));
    assert_eq!(s.items.len(), 3);
    assert_eq!(s.items[2].tg_stem, "e.v2");
    assert_eq!(s.items[2].tg_file, "/tg/e.v2.TEXTgrid");
    assert_eq!(s.selected_mark, vec![Some(0), Some(0), Some(0)]);
    let text = textgrid_relabel::encode::textgrid_to_string(&sample(&["d", "d"])).unwrap();
    let outcome = s.scan_file(&flap_rule(), "/tg/f.TextGrid".to_string(), "f.TextGrid", None, text.as_bytes());
    assert!(matches!(outcome, ScanOutcome::NoMatch));
    assert_eq!(s.items.len(), 3);
}

#[test]
fn items_are_selected_within_the_list() {
    let mut s = scanned();
    assert!(!s.select_item(0));
    assert!(s.select_item(1));
    assert_eq!(s.selected_item, Some(1));
    assert!(!s.next_item());
    assert_eq!(s.selected_item, Some(1));
    assert!(s.prev_item());
    assert_eq!(s.selected_item, Some(0));
    assert!(!s.prev_item());
    assert!(s.next_item());
    assert_eq!(s.selected_item, Some(1));
    assert!(s.select_item(2));
    assert_eq!(s.selected_item, None);
    assert!(!s.next_item());
    assert!(!s.prev_item());
    assert_eq!(s.selected_item, None);
}

#[test]
fn marks_are_selected_across_items() {
    let mut s = scanned();
    assert!(s.next_mark());
    assert_eq!((s.selected_item, s.selected_mark.clone()), (Some(0), vec![Some(1), Some(0)]));
    assert!(s.next_mark());
    assert_eq!((s.selected_item, s.selected_mark.clone()), (Some(1), vec![Some(1), Some(0)]));
    assert!(!s.next_mark());
    assert!(s.prev_mark());
    assert_eq!((s.selected_item, s.selected_mark.clone()), (Some(0), vec![Some(1), Some(0)]));
    assert!(s.prev_mark());
    assert_eq!((s.selected_item, s.selected_mark.clone()), (Some(0), vec![Some(0), Some(0)]));
    assert!(!s.prev_mark());
    assert!(s.select_mark(1));
    assert!(!s.select_mark(1));
    assert!(s.select_mark(2));
    assert_eq!(s.selected_mark, vec![None, Some(0)]);
    assert!(!s.next_mark());
    assert!(!s.prev_mark());
    s.select_item(9);
    assert!(!s.select_mark(0));
    assert!(!s.next_mark());
}

#[test]
fn a_choice_marks_the_item_until_it_is_what_was_saved() {
    let mut s = scanned();
    assert_eq!(s.choose_a_replace_option(None), Ok(None));
    assert_eq!(s.choose_a_replace_option(Some(1)), Ok(Some((vec![Some(1), None], true))));
    assert!(s.items[0].dirty);
    assert_eq!(s.choose_a_replace_option(Some(1)), Ok(None));
    assert_eq!(s.choose_a_replace_option(Some(2)), Err(StateError::OutOfRange(0)));
    assert_eq!(s.items[0].selected_options, vec![Some(1), None]);
    assert_eq!(s.choose_a_replace_option(None), Ok(Some((vec![None, None], false))));
    assert!(!s.items[0].dirty);
    s.select_mark(1);
    assert_eq!(s.choose_a_replace_option(Some(0)), Ok(Some((vec![None, Some(0)], true))));
    assert_eq!(s.items[0].original_options, vec![None, None]);
    assert!(!s.items[1].dirty);
    s.select_mark(5);
    assert_eq!(s.choose_a_replace_option(Some(0)), Ok(None));
    s.select_item(5);
    assert_eq!(s.choose_a_replace_option(Some(0)), Ok(None));
}

#[test]
fn a_file_is_copied_to_its_backup_once() {
    let mut s = scanned();
    assert!(s.items[0].plan_save(true, false).unwrap().is_none());
    s.choose_a_replace_option(Some(1)).unwrap();
    let plan = s.items[0].plan_save(true, false).unwrap().unwrap();
    assert!(plan.backup);
    assert!(plan.text.contains("text = \"t\"\n"));
    assert!(plan.text.contains("text = \"axr\"\n"));
    assert_eq!(plan.text.matches("text = \"er\"\n").count(), 1);
    // until the file is written the item holds the annotation that was read
    assert_eq!(phone_labels(&s.items[0].tg_content), vec!["b", "t", "er", "d", "er"]);
    assert_eq!(phone_labels(&plan.annotation), vec!["b", "t", "axr", "d", "er"]);
    // the file was written and its backup exists now
    let written = plan.text.clone();
    s.items[0].commit_save(plan);
    assert!(!s.items[0].dirty);
    assert_eq!(s.items[0].original_options, vec![Some(1), None]);
    assert_eq!(s.items[0].selected_options, vec![Some(1), None]);
    assert!(s.items[0].plan_save(true, true).unwrap().is_none());
    // the annotation of the item is the one that was written
    assert_eq!(phone_labels(&s.items[0].tg_content), vec!["b", "t", "axr", "d", "er"]);
    assert_eq!(textgrid_relabel::encode::textgrid_to_string(&s.items[0].tg_content).unwrap(), written);
    assert_eq!(s.items[0].tg_content.items[0].intervals[0].text, "word");
    assert_eq!(s.items[0].found_mark_idxs, vec![1, 3]);
    // another choice is saved without another copy
    s.choose_a_replace_option(Some(0)).unwrap();
    let plan = s.items[0].plan_save(true, true).unwrap().unwrap();
    assert!(!plan.backup);
    assert_eq!(phone_labels(&plan.annotation), vec!["b", "dx", "er", "d", "er"]);
    assert!(plan.text.contains("text = \"dx\"\n"));
    assert!(!s.items[0].plan_save(false, false).unwrap().unwrap().backup);
    // a write that failed leaves the item as it was
    assert!(s.items[0].dirty);
    assert!(s.items[0].plan_save(true, false).unwrap().unwrap().backup);
}

#[test]
fn a_file_is_written_only_after_its_backup() {
    let mut s = scanned();
    s.choose_a_replace_option(Some(0)).unwrap();
    let plan = s.items[0].plan_save(true, false).unwrap().unwrap();
    assert_eq!(plan.first_step(), SaveStep::CopyBackup);
    assert_eq!(plan.after_backup(false), SaveStep::Failed);
    assert_eq!(plan.after_backup(true), SaveStep::Write);
    assert_eq!(s.items[0].after_write(plan, false), SaveStep::Failed);
    assert!(s.items[0].dirty);
    assert_eq!(s.items[0].original_options, vec![None, None]);
    assert_eq!(phone_labels(&s.items[0].tg_content), vec!["b", "t", "er", "d", "er"]);
    let plan = s.items[0].plan_save(true, true).unwrap().unwrap();
    assert_eq!(s.items[0].after_write(plan, true), SaveStep::Done);
    assert!(!s.items[0].dirty);
    assert_eq!(s.items[0].original_options, vec![Some(0), None]);
    assert_eq!(phone_labels(&s.items[0].tg_content), vec!["b", "dx", "er", "d", "er"]);
    s.choose_a_replace_option(None).unwrap();
    let plan = s.items[0].plan_save(true, true).unwrap().unwrap();
    assert_eq!(plan.first_step(), SaveStep::Write);
    let plan = s.items[0].plan_save(false, false).unwrap().unwrap();
    assert_eq!(plan.first_step(), SaveStep::Write);
}

#[test]
fn an_item_that_cannot_be_saved_says_why() {
    let mut s = scanned();
    s.choose_a_replace_option(Some(0)).unwrap();
    s.items[0].replace_options = vec!["a b c d e".to_string()];
    assert_eq!(s.items[0].plan_save(false, false).unwrap_err(), SaveError::Choices(StateError::OutOfRange(0)));
    s.items[0].replace_options = vec!["a b".to_string()];
    s.items[0].tg_content.items[0].intervals.clear();
    assert_eq!(s.items[0].plan_save(false, false).unwrap_err(), SaveError::Unwritable(EncodeError::EmptyTier(0)));
}

#[test]
fn a_match_is_played_with_a_lead_and_a_tail() {
    let mut s = scanned();
    assert_eq!(
        format!("{:?}", s.play_selected(800)),
        format!("{:?}", Some(SoundCommand::Play("/wav/a.wav".to_string(), 900, 1300, 800)))
    );
    s.next_mark();
    assert_eq!(
        format!("{:?}", s.play_selected(1000)),
        format!("{:?}", Some(SoundCommand::Play("/wav/a.wav".to_string(), 1300, 1300, 1000)))
    );
    // parts of a millisecond are dropped
    s.items[0].tg_content.items[1].intervals[3].xmin = 1_234_567_890;
    s.items[0].tg_content.items[1].intervals[4].xmax = 2_000_000_000;
    match s.play_selected(1).unwrap() {
        SoundCommand::Play(_, start, window, _) => assert_eq!((start, window), (934, 1665)),
        other => panic!("{:?}", other),
    }
    // a match near the start of the file starts with the file
    s.items[0].tg_content.items[1].intervals[3].xmin = 299_999_999;
    match s.play_selected(1).unwrap() {
        SoundCommand::Play(_, start, window, _) => assert_eq!((start, window), (0, 2600)),
        other => panic!("{:?}", other),
    }
    // a match that ends before it starts is cut from the tail
    s.items[0].tg_content.items[1].intervals[3].xmin = 2_000_000_001;
    match s.play_selected(1).unwrap() {
        SoundCommand::Play(_, start, window, _) => assert_eq!((start, window), (1700, 899)),
        other => panic!("{:?}", other),
    }
    s.items[0].tg_content.items[1].intervals[3].xmin = 9_000_000_000;
    match s.play_selected(1).unwrap() {
        SoundCommand::Play(_, _, window, _) => assert_eq!(window, 0),
        other => panic!("{:?}", other),
    }
    // the item without a recording plays nothing
    s.select_item(1);
    assert!(s.play_selected(1000).is_none());
    s.select_item(7);
    assert!(s.play_selected(1000).is_none());
}

#[test]
fn choices_are_compared_one_by_one() {
    assert!(same_choices(&vec![], &vec![]));
    assert!(same_choices(&vec![None, Some(3)], &vec![None, Some(3)]));
    assert!(!same_choices(&vec![None, Some(3)], &vec![None, Some(4)]));
    assert!(!same_choices(&vec![None], &vec![None, None]));
    assert!(!same_choices(&vec![Some(0)], &vec![None]));
}

#[test]
fn what_a_scan_lists_can_be_saved_whatever_is_chosen() {
    let mut s = scanned();
    for item in 0..2 {
        s.select_item(item);
        let marks = s.items[item].found_mark_idxs.len();
        for mark in 0..marks {
            s.select_mark(mark);
            for option in [Some(0), Some(1), None, Some(1)] {
                s.choose_a_replace_option(option).unwrap();
                let plan = s.items[item].plan_save(false, false).unwrap();
                assert_eq!(plan.is_some(), s.items[item].dirty);
            }
        }
    }
    assert_eq!(s.items[0].selected_options, vec![Some(1), Some(1)]);
    let plan = s.items[0].plan_save(true, false).unwrap().unwrap();
    assert_eq!(plan.text.matches("text = \"axr\"\n").count(), 2);
    assert_eq!(plan.text.matches("text = \"er\"\n").count(), 0);
    assert_eq!(plan.text.matches("text = \"t\"\n").count(), 1);
    assert_eq!(plan.text.matches("text = \"d\"\n").count(), 1);
}

#[test]
fn a_scan_reads_the_files_named_as_annotations() {
    let names = [
        "a.TextGrid", "a.textgrid", "a.TEXTGRID", "a.b.TextGrid", "a.TextGrid.bak", "a.wav", "TextGrid",
        ".TextGrid", "..TextGrid", "a.", "a..", "", ".", "a.textgriD", "a.textgrid ", "a. textgrid",
        "a.te\u{17f}tgrid", "a.\u{212a}extgrid", "a.TextGr\u{130}d", "a.textgr\u{131}d", "\u{e9}.textgrid",
    ];
    for name in names {
        let path = std::path::Path::new(name);
        let by_std = path.extension().and_then(|e| e.to_str()).map(|e| e.to_lowercase())
            == Some("textgrid".to_string());
        assert_eq!(is_annotation_name(name), by_std, "{:?}", name);
        if path.file_name().is_some() {
            assert_eq!(Some(file_stem(name).as_str()), path.file_stem().and_then(|s| s.to_str()), "{:?}", name);
        }
    }
    assert!(is_annotation_name("a.TextGrid"));
    assert!(!is_annotation_name("a.TextGrid.bak"));
    assert_eq!(file_stem("a.b.TextGrid"), "a.b");
    assert!(has_extension("x.WAV", "wav"));
    assert!(has_extension("x.wav", "WaV"));
    assert!(!has_extension("x.wav", "wa"));
    assert!(!has_extension("x.wav", ""));
}

#[test]
fn no_other_letter_counts_as_a_letter_of_the_extension() {
    // lower case by the full rules differs from lower case of A to Z only
    // where neither gives a letter of the extension
    for c in (0..=0x10FFFFu32).filter_map(char::from_u32) {
        let full: String = c.to_lowercase().collect();
        let plain = c.to_ascii_lowercase().to_string();
        let counts = |s: &str| s.len() == 1 && "textgrid".contains(s);
        assert_eq!(counts(&full), counts(&plain), "{:?}", c);
        if counts(&full) {
            assert_eq!(full, plain);
        }
    }
}
