use textgrid_relabel::grid::{TextGrid, TextGridInterval, TextGridIntervals};
use textgrid_relabel::rewrite::{apply_choices, StateError};

fn tier_of(name: &str, labels: &[&str]) -> TextGridIntervals {
    TextGridIntervals {
        name: name.to_string(),
        intervals: labels
            .iter()
            .enumerate()
            .map(|(i, l)| TextGridInterval { xmin: 10 * i as u64, xmax: 10 * (i as u64 + 1), text: l.to_string() })
            .collect(),
    }
}

fn labels_of(tier: &TextGridIntervals) -> Vec<String> {
    tier.intervals.iter().map(|iv| iv.text.clone()).collect()
}

fn options(list: &[&str]) -> Vec<String> {
    list.iter().map(|o| o.to_string()).collect()
}

#[test]
fn a_star_keeps_the_label_and_a_token_replaces_it() {
    let tg = TextGrid { items: vec![tier_of("words", &["w", "v"]), tier_of("phones", &["a", "t", "b", "c"])] };
    let new_tg = apply_choices(&tg, &vec![1], &vec![Some(0)], &options(&["* dx"])).unwrap();
    assert_eq!(labels_of(&new_tg.items[1]), vec!["a", "t", "dx", "c"]);
    // nothing else changes
    assert_eq!(labels_of(&new_tg.items[0]), vec!["w", "v"]);
    assert_eq!(new_tg.items[1].name, "phones");
    for (old, new) in tg.items[1].intervals.iter().zip(new_tg.items[1].intervals.iter()) {
        assert_eq!((old.xmin, old.xmax), (new.xmin, new.xmax));
    }
    // and the annotation that was handed in is as it was
    assert_eq!(labels_of(&tg.items[1]), vec!["a", "t", "b", "c"]);
}

#[test]
fn a_match_without_a_choice_is_left_alone() {
    let tg = TextGrid { items: vec![tier_of("phones", &["a", "b", "a", "b"])] };
    let new_tg = apply_choices(&tg, &vec![0, 2], &vec![None, Some(1)], &options(&["x y", "p *"])).unwrap();
    assert_eq!(labels_of(&new_tg.items[0]), vec!["a", "b", "p", "b"]);
    let same = apply_choices(&tg, &vec![0, 2], &vec![None, None], &options(&["x y"])).unwrap();
    assert_eq!(labels_of(&same.items[0]), vec!["a", "b", "a", "b"]);
}

#[test]
fn choices_apply_in_the_order_of_the_matches() {
    let tg = TextGrid { items: vec![tier_of("phones", &["a", "a", "a"])] };
    let new_tg =
        apply_choices(&tg, &vec![0, 1], &vec![Some(0), Some(1)], &options(&["x y", "* z"])).unwrap();
    assert_eq!(labels_of(&new_tg.items[0]), vec!["x", "y", "z"]);
    let new_tg =
        apply_choices(&tg, &vec![0, 1], &vec![Some(0), Some(2)], &options(&["x y", "* z", "q *"])).unwrap();
    assert_eq!(labels_of(&new_tg.items[0]), vec!["x", "q", "a"]);
}

#[test]
fn choices_that_do_not_fit_are_refused() {
    let tg = TextGrid { items: vec![tier_of("phones", &["a", "b", "c"])] };
    let opts = options(&["x y", "x"]);
    assert_eq!(apply_choices(&tg, &vec![0, 1], &vec![Some(0)], &opts).unwrap_err(), StateError::Mismatch);
    assert_eq!(apply_choices(&tg, &vec![0], &vec![], &opts).unwrap_err(), StateError::Mismatch);
    assert_eq!(
        apply_choices(&tg, &vec![0, 1], &vec![Some(0), Some(2)], &opts).unwrap_err(),
        StateError::OutOfRange(1)
    );
    // the option would write beyond the last phone
    assert_eq!(
        apply_choices(&tg, &vec![0, 2], &vec![None, Some(0)], &opts).unwrap_err(),
        StateError::OutOfRange(1)
    );
    assert_eq!(
        apply_choices(&tg, &vec![usize::MAX], &vec![Some(1)], &opts).unwrap_err(),
        StateError::OutOfRange(0)
    );
    // the same option fits one position earlier, and a shorter one fits at the end
    assert!(apply_choices(&tg, &vec![1], &vec![Some(0)], &opts).is_ok());
    assert!(apply_choices(&tg, &vec![2], &vec![Some(1)], &opts).is_ok());
    // a match beyond the tier is no fault as long as nothing is chosen for it
    assert!(apply_choices(&tg, &vec![7], &vec![None], &opts).is_ok());
}

#[test]
fn without_tiers_nothing_can_be_written() {
    let tg = TextGrid { items: vec![] };
    assert_eq!(apply_choices(&tg, &vec![], &vec![], &options(&["x"])).unwrap().items.len(), 0);
    assert_eq!(
        apply_choices(&tg, &vec![0], &vec![Some(0)], &options(&["x"])).unwrap_err(),
        StateError::OutOfRange(0)
    );
    // an option without tokens writes nothing, anywhere
    assert!(apply_choices(&tg, &vec![0], &vec![Some(0)], &options(&["  "])).is_ok());
}
