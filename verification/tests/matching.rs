use textgrid_relabel::align::{align, covers_interval};
use textgrid_relabel::grid::{TextGrid, TextGridInterval, TextGridIntervals};
use textgrid_relabel::matcher::{context_ranges, find_in_tier, find_marks};
use textgrid_relabel::rules::ReplaceRule;

fn iv(xmin_ms: u64, xmax_ms: u64, text: &str) -> TextGridInterval {
    TextGridInterval { xmin: xmin_ms * 1_000_000, xmax: xmax_ms * 1_000_000, text: text.to_string() }
}

fn phones_of(labels: &[&str]) -> Vec<TextGridInterval> {
    labels.iter().enumerate().map(|(i, l)| iv(200 * i as u64, 200 * (i as u64 + 1), l)).collect()
}

fn rule(arity: usize, terms: &[&str]) -> ReplaceRule {
    ReplaceRule {
        rule_name: "r".to_string(),
        term_seq_length: arity,
        search_terms: terms.iter().map(|t| t.to_string()).collect(),
        replace_options: vec![],
    }
}

fn grid(words: Vec<TextGridInterval>, phones: Vec<TextGridInterval>) -> TextGrid {
    TextGrid {
        items: vec![
            TextGridIntervals { name: "words".to_string(), intervals: words },
            TextGridIntervals { name: "phones".to_string(), intervals: phones },
        ],
    }
}

#[test]
fn a_word_covers_a_phone_above_four_fifths() {
    let phone = TextGridInterval { xmin: 0, xmax: 200_000_000, text: "p".to_string() };
    let word = |xmax: u64| TextGridInterval { xmin: 0, xmax, text: "w".to_string() };
    assert!(!covers_interval(&word(160_000_000), &phone));
    assert!(covers_interval(&word(160_000_001), &phone));
    assert!(covers_interval(&word(900_000_000), &phone));
    assert!(!covers_interval(&word(0), &phone));
    // a phone that lasts no time is covered by nothing
    let point = TextGridInterval { xmin: 5, xmax: 5, text: "p".to_string() };
    assert!(!covers_interval(&word(10), &point));
    let backwards = TextGridInterval { xmin: 9, xmax: 5, text: "p".to_string() };
    assert!(!covers_interval(&word(10), &backwards));
    // the largest times do not overflow
    let big = TextGridInterval { xmin: 0, xmax: u64::MAX, text: "p".to_string() };
    assert!(covers_interval(&word(u64::MAX), &big));
}

#[test]
fn every_phone_gets_its_word_or_none_does() {
    let words = vec![iv(0, 400, "a"), iv(400, 1000, "b")];
    let phones = phones_of(&["s", "t", "r", "eh", "s"]);
    assert_eq!(align(&words, &phones), Some(vec![0, 0, 1, 1, 1]));
    // the last phone lies outside every word
    let short = vec![iv(0, 400, "a"), iv(400, 800, "b")];
    assert_eq!(align(&short, &phones), None);
    // no phones: every phone has its word
    assert_eq!(align(&words, &vec![]), Some(vec![]));
    assert_eq!(align(&vec![], &phones), None);
    // a word that comes too late for a phone is never tried against it again
    let late = vec![iv(200, 1000, "b"), iv(0, 200, "a")];
    assert_eq!(align(&late, &phones), None);
}

#[test]
fn matches_come_in_order_and_none_is_missed() {
    let tg = grid(vec![iv(0, 1000, "stress")], phones_of(&["s", "t", "r", "eh", "s"]));
    let (found, titles) = find_marks(&rule(1, &["s"]), &tg);
    assert_eq!(found, vec![0, 4]);
    assert_eq!(titles, vec!["(stress) [s] t r".to_string(), "(stress) r eh [s] s".to_string()]);
}

#[test]
fn the_context_stops_at_the_ends_of_the_tier() {
    assert_eq!(context_ranges(0, 1, 5), (0, 0, 1, 3));
    assert_eq!(context_ranges(1, 1, 5), (0, 1, 2, 4));
    assert_eq!(context_ranges(2, 1, 5), (0, 2, 3, 5));
    assert_eq!(context_ranges(3, 1, 5), (1, 3, 4, 5));
    assert_eq!(context_ranges(4, 1, 5), (2, 4, 4, 5));
    assert_eq!(context_ranges(3, 2, 5), (1, 3, 4, 5));
    assert_eq!(context_ranges(0, 5, 5), (0, 0, 4, 5));
    assert_eq!(context_ranges(0, 1, 1), (0, 0, 0, 1));
}

#[test]
fn a_title_names_the_words_once_each_up_to_the_colon() {
    let tg = grid(
        vec![iv(0, 400, "a:1"), iv(400, 1000, "b:x:y")],
        phones_of(&["s", "t", "r", "eh", "s"]),
    );
    let (found, titles) = find_marks(&rule(2, &["t r", "r eh"]), &tg);
    assert_eq!(found, vec![1, 2]);
    assert_eq!(titles, vec!["(a b) s [t r] eh s".to_string(), "(b) s t [r eh] s".to_string()]);
}

#[test]
fn without_alignment_a_title_names_no_words() {
    let tg = grid(vec![iv(0, 150, "a")], phones_of(&["s", "t", "r", "eh", "s"]));
    let (found, titles) = find_marks(&rule(1, &["r"]), &tg);
    assert_eq!(found, vec![2]);
    assert_eq!(titles, vec!["s t [r] eh s".to_string()]);
}

#[test]
fn a_single_tier_is_its_own_word_tier() {
    let tg = TextGrid {
        items: vec![TextGridIntervals { name: "p".to_string(), intervals: phones_of(&["a", "b", "a"]) }],
    };
    let (found, titles) = find_marks(&rule(1, &["b"]), &tg);
    assert_eq!(found, vec![1]);
    assert_eq!(titles, vec!["(b) a [b] a".to_string()]);
    // with three tiers the last is the phone tier
    let tg = TextGrid {
        items: vec![
            TextGridIntervals { name: "w".to_string(), intervals: vec![iv(0, 600, "w")] },
            TextGridIntervals { name: "x".to_string(), intervals: phones_of(&["b", "b", "b"]) },
            TextGridIntervals { name: "p".to_string(), intervals: phones_of(&["a", "b", "a"]) },
        ],
    };
    assert_eq!(find_marks(&rule(1, &["b"]), &tg).0, vec![1]);
    assert_eq!(find_marks(&rule(1, &["b"]), &TextGrid { items: vec![] }), (vec![], vec![]));
}

#[test]
fn windows_may_overlap() {
    let phones = phones_of(&["a", "a", "a", "b"]);
    let (found, titles) = find_in_tier(&vec!["a a".to_string()], 2, &vec![], &phones, &None);
    assert_eq!(found, vec![0, 1]);
    assert_eq!(titles, vec!["[a a] a b".to_string(), "a [a a] b".to_string()]);
}

#[test]
fn a_term_matches_by_its_tokens() {
    let phones = phones_of(&["s", "t", "r"]);
    let none: Option<Vec<usize>> = None;
    let find = |arity: usize, terms: &[&str]| {
        find_in_tier(&terms.iter().map(|t| t.to_string()).collect(), arity, &vec![], &phones, &none).0
    };
    assert_eq!(find(2, &["  t \t r  "]), vec![1]);
    assert_eq!(find(2, &["t"]), Vec::<usize>::new());
    assert_eq!(find(1, &["t r"]), Vec::<usize>::new());
    assert_eq!(find(0, &["t"]), Vec::<usize>::new());
    assert_eq!(find(4, &["s t r x"]), Vec::<usize>::new());
    assert_eq!(find(3, &["s t r"]), vec![0]);
    assert_eq!(find(1, &["r", "s", "r"]), vec![0, 2]);
    assert_eq!(find(1, &[]), Vec::<usize>::new());
    assert_eq!(find(1, &[""]), Vec::<usize>::new());
}

#[test]
fn a_title_is_trimmed() {
    let phones = vec![iv(0, 1, " "), iv(1, 2, "x"), iv(2, 3, "")];
    let (found, titles) = find_in_tier(&vec!["x".to_string()], 1, &vec![], &phones, &None);
    assert_eq!(found, vec![1]);
    assert_eq!(titles, vec!["[x]".to_string()]);
}

#[test]
fn a_given_alignment_is_used_as_it_is() {
    let words = vec![iv(0, 1, "one"), iv(1, 2, "two:b"), iv(2, 3, "")];
    let phones = phones_of(&["a", "b", "c", "d"]);
    let given = Some(vec![0, 1, 1, 2]);
    let (found, titles) = find_in_tier(&vec!["a b c d".to_string()], 4, &words, &phones, &given);
    assert_eq!(found, vec![0]);
    assert_eq!(titles, vec!["(one two ) [a b c d] d".to_string()]);
    let given = Some(vec![1, 0, 1, 1]);
    let (_, titles) = find_in_tier(&vec!["a b c".to_string()], 3, &words, &phones, &given);
    assert_eq!(titles, vec!["(two one two) [a b c] d".to_string()]);
}
