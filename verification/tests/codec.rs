use textgrid_relabel::charset::parse_textgrid;
use textgrid_relabel::encode::{textgrid_to_string, EncodeError};
use textgrid_relabel::grammar::ParseErrorKind;
use textgrid_relabel::grid::{TextGrid, TextGridInterval, TextGridIntervals};
use textgrid_relabel::parse::parse_text;

fn interval(xmin: u64, xmax: u64, text: &str) -> TextGridInterval {
    TextGridInterval { xmin, xmax, text: text.to_string() }
}

fn two_tiers() -> TextGrid {
    TextGrid {
        items: vec![
            TextGridIntervals {
                name: "words".to_string(),
                intervals: vec![interval(0, 500_000_000, "so"), interval(500_000_000, 1_250_000_000, "")],
            },
            TextGridIntervals {
                name: "phones".to_string(),
                intervals: vec![
                    interval(0, 200_000_000, "s"),
                    interval(200_000_000, 500_000_000, "ow"),
                    interval(500_000_000, 1_250_000_000, "sil"),
                ],
            },
        ],
    }
}

const TWO_TIERS_TEXT: &str = "File type = \"ooTextFile\"\nObject class = \"TextGrid\"\n\nxmin = 0\nxmax = 1.25\ntiers? <exists>\nsize = 2\nitem []:\n    item [1]:\n        class = \"IntervalTier\"\n        name = \"words\"\n        xmin = 0\n        xmax = 1.25\n        intervals: size = 2\n            intervals [1]:\n                xmin = 0\n                xmax = 0.5\n                text = \"so\"\n            intervals [2]:\n                xmin = 0.5\n                xmax = 1.25\n                text = \"\"\n    item [2]:\n        class = \"IntervalTier\"\n        name = \"phones\"\n        xmin = 0\n        xmax = 1.25\n        intervals: size = 3\n            intervals [1]:\n                xmin = 0\n                xmax = 0.2\n                text = \"s\"\n            intervals [2]:\n                xmin = 0.2\n                xmax = 0.5\n                text = \"ow\"\n            intervals [3]:\n                xmin = 0.5\n                xmax = 1.25\n                text = \"sil\"\n";

fn same(a: &TextGrid, b: &TextGrid) -> bool {
    a.items.len() == b.items.len()
        && a.items.iter().zip(b.items.iter()).all(|(x, y)| {
            x.name == y.name
                && x.intervals.len() == y.intervals.len()
                && x.intervals
                    .iter()
                    .zip(y.intervals.iter())
                    .all(|(p, q)| p.xmin == q.xmin && p.xmax == q.xmax && p.text == q.text)
        })
}

#[test]
fn writes_the_layout_exactly() {
    assert_eq!(textgrid_to_string(&two_tiers()).unwrap(), TWO_TIERS_TEXT);
}

#[test]
fn reads_what_it_wrote() {
    let tg = two_tiers();
    let text = textgrid_to_string(&tg).unwrap();
    let back = parse_text(&text).unwrap();
    assert!(same(&tg, &back));
    assert_eq!(textgrid_to_string(&back).unwrap(), text);
}

fn one_interval_file(xmin: &str, xmax: &str, text: &str) -> String {
    format!(
        "File type = \"ooTextFile\"\nObject class = \"TextGrid\"\n\nxmin = 0\nxmax = 1\ntiers? <exists>\nsize = 1\nitem []:\n    item [1]:\n        class = \"IntervalTier\"\n        name = \"phones\"\n        xmin = 0\n        xmax = 1\n        intervals: size = 1\n            intervals [1]:\n                xmin = {}\n                xmax = {}\n                text = {}\n",
        xmin, xmax, text
    )
}

#[test]
fn reads_the_layout_of_other_writers() {
    let text = "\r\nFile type = \"ooTextFile\"\r\nObject class = \"TextGrid\"\r\n\r\nxmin = 0 \r\nxmax = 1 \r\ntiers? <exists> \r\nsize = 1 \r\nitem []: \r\n    item [1]:\r\n        class = \"IntervalTier\" \r\n        name = \"phones\" \r\n        xmin = 0 \r\n        xmax = 1 \r\n        intervals: size = 1 \r\n        intervals [1]:\r\n\t\txmin=0 \r\n\t\txmax=1 \r\n\t\ttext=\"a\" \r\n\r\n";
    let tg = parse_text(text).unwrap();
    assert_eq!(tg.items.len(), 1);
    assert_eq!(tg.items[0].name, "phones");
    assert_eq!(tg.items[0].intervals.len(), 1);
    assert_eq!(tg.items[0].intervals[0].xmin, 0);
    assert_eq!(tg.items[0].intervals[0].xmax, 1_000_000_000);
    assert_eq!(tg.items[0].intervals[0].text, "a");
}

#[test]
fn a_quotation_mark_in_a_label_is_written_twice() {
    let tg = TextGrid {
        items: vec![TextGridIntervals {
            name: "a \"b\"".to_string(),
            intervals: vec![interval(0, 1, "\""), interval(1, 2, "say \"hi\" ")],
        }],
    };
    let text = textgrid_to_string(&tg).unwrap();
    assert!(text.contains("name = \"a \"\"b\"\"\"\n"));
    assert!(text.contains("text = \"\"\"\"\n"));
    assert!(text.contains("text = \"say \"\"hi\"\" \"\n"));
    let back = parse_text(&text).unwrap();
    assert!(same(&tg, &back));
}

#[test]
fn a_label_may_span_lines_and_hold_what_looks_like_layout() {
    let tg = TextGrid {
        items: vec![TextGridIntervals {
            name: "n".to_string(),
            intervals: vec![interval(0, 5, "a\n    item [2]:\n text = \"x\"")],
        }],
    };
    let back = parse_text(&textgrid_to_string(&tg).unwrap()).unwrap();
    assert!(same(&tg, &back));
}

#[test]
fn times_are_written_without_needless_zeros() {
    let cases: Vec<(u64, &str)> = vec![
        (0, "0"),
        (1, "0.000000001"),
        (1_500_000_000, "1.5"),
        (10_000_000_000, "10"),
        (123_456_789_012, "123.456789012"),
        (1_000_000_010, "1.00000001"),
        (999_999_999, "0.999999999"),
        (u64::MAX, "18446744073.709551615"),
    ];
    for (t, written) in cases {
        let tg = TextGrid {
            items: vec![TextGridIntervals { name: "n".to_string(), intervals: vec![interval(t, t, "x")] }],
        };
        let text = textgrid_to_string(&tg).unwrap();
        assert!(text.contains(&format!("                xmin = {}\n", written)), "{}", text);
        assert!(text.starts_with(&format!(
            "File type = \"ooTextFile\"\nObject class = \"TextGrid\"\n\nxmin = 0\nxmax = {}\n",
            written
        )));
        let back = parse_text(&text).unwrap();
        assert_eq!(back.items[0].intervals[0].xmin, t);
        assert_eq!(back.items[0].intervals[0].xmax, t);
    }
}

#[test]
fn times_are_read_to_the_nearest_nanosecond() {
    let cases: Vec<(&str, u64)> = vec![
        ("0", 0),
        ("007", 7_000_000_000),
        ("1.", 1_000_000_000),
        ("0.5", 500_000_000),
        ("0.52999999999999992", 530_000_000),
        ("2.0000000004", 2_000_000_000),
        ("2.0000000005", 2_000_000_001),
        ("2.00000000049999", 2_000_000_000),
        ("0.9999999995", 1_000_000_000),
        ("18446744073.709551615", u64::MAX),
    ];
    for (written, t) in cases {
        let tg = parse_text(&one_interval_file(written, "1", "\"x\"")).unwrap();
        assert_eq!(tg.items[0].intervals[0].xmin, t, "{}", written);
    }
}

#[test]
fn a_time_that_is_no_number_is_a_number_fault() {
    for bad in ["abc", "-1", ".5", "18446744073.709551616", "99999999999", "1e3x"] {
        let text = one_interval_file(bad, "1", "\"x\"");
        let e = parse_text(&text).unwrap_err();
        if bad == "1e3x" {
            // the number ends before the letter, where the layout does not go on
            assert_eq!(e.kind, ParseErrorKind::Structure);
            assert_eq!(e.position, text.find("e3x").unwrap());
            continue;
        }
        assert_eq!(e.kind, ParseErrorKind::Number, "{}", bad);
        assert_eq!(e.position, text.find(&format!("{}\n                xmax", bad)).unwrap());
    }
}

#[test]
fn a_fault_carries_its_place_and_the_text_there() {
    let text = "File type = \"ooTextFile\"\nObject class = \"Sound\"\n";
    let e = parse_text(text).unwrap_err();
    assert_eq!(e.kind, ParseErrorKind::Structure);
    assert_eq!(e.position, 41);
    assert_eq!(e.fragment, "Sound\"\n");

    let long = one_interval_file("0", "1", "\"x\" and then something that does not belong here at all");
    let e = parse_text(&long).unwrap_err();
    assert_eq!(e.kind, ParseErrorKind::Structure);
    assert_eq!(e.position, long.find("and then").unwrap());
    assert_eq!(e.fragment, "and then something that does not");
    assert_eq!(e.fragment.chars().count(), 32);

    let e = parse_text("").unwrap_err();
    assert_eq!(e.kind, ParseErrorKind::Structure);
    assert_eq!(e.position, 0);
    assert_eq!(e.fragment, "");
}

#[test]
fn a_position_counts_characters() {
    let text = one_interval_file("0", "1", "\"\u{e9}\u{4e2d}\" x");
    let e = parse_text(&text).unwrap_err();
    assert_eq!(e.kind, ParseErrorKind::Structure);
    assert_eq!(e.position, text.chars().count() - 2);
    assert_eq!(e.fragment, "x\n");
}

#[test]
fn a_text_that_never_closes_is_a_text_fault() {
    let text = one_interval_file("0", "1", "\"abc");
    let e = parse_text(&text).unwrap_err();
    assert_eq!(e.kind, ParseErrorKind::Text);
    assert_eq!(e.position, text.find("\"abc").unwrap());
    assert_eq!(e.fragment, "\"abc\n");

    let text = one_interval_file("0", "1", "abc");
    let e = parse_text(&text).unwrap_err();
    assert_eq!(e.kind, ParseErrorKind::Text);
    assert_eq!(e.position, text.find("abc").unwrap());
}

#[test]
fn the_counts_say_how_many_blocks_follow() {
    let good = one_interval_file("0", "1", "\"x\"");
    // one tier announced too many
    let text = good.replace("\nsize = 1\n", "\nsize = 2\n");
    let e = parse_text(&text).unwrap_err();
    assert_eq!(e.kind, ParseErrorKind::Structure);
    assert_eq!(e.position, text.chars().count());
    // one interval announced too few: the second is text after the last block
    let text = two_tiers_text_with("        intervals: size = 3\n", "        intervals: size = 2\n");
    let e = parse_text(&text).unwrap_err();
    assert_eq!(e.kind, ParseErrorKind::Structure);
    assert_eq!(e.position, text.find("intervals [3]").unwrap());
    // a block with the wrong number
    let text = good.replace("item [1]:", "item [2]:");
    let e = parse_text(&text).unwrap_err();
    assert_eq!(e.kind, ParseErrorKind::Structure);
    assert_eq!(e.position, text.find("2]:").unwrap());
    // a count that is no number
    let text = good.replace("\nsize = 1\n", "\nsize = one\n");
    let e = parse_text(&text).unwrap_err();
    assert_eq!(e.kind, ParseErrorKind::Structure);
    assert_eq!(e.position, text.find("one").unwrap());
    // no tiers at all
    let text = "File type = \"ooTextFile\"\nObject class = \"TextGrid\"\n\nxmin = 0\nxmax = 0\ntiers? <exists>\nsize = 0\nitem []:\n";
    assert_eq!(parse_text(text).unwrap().items.len(), 0);
}

fn two_tiers_text_with(from: &str, to: &str) -> String {
    TWO_TIERS_TEXT.replace(from, to)
}

#[test]
fn a_tier_of_another_class_is_not_read() {
    let text = one_interval_file("0", "1", "\"x\"").replace("IntervalTier", "TextTier");
    let e = parse_text(&text).unwrap_err();
    assert_eq!(e.kind, ParseErrorKind::Structure);
    assert_eq!(e.position, text.find("TextTier").unwrap());
}

#[test]
fn an_annotation_without_extent_is_not_written() {
    assert_eq!(textgrid_to_string(&TextGrid { items: vec![] }).unwrap_err(), EncodeError::NoTiers);
    let mut tg = two_tiers();
    tg.items[1].intervals.clear();
    assert_eq!(textgrid_to_string(&tg).unwrap_err(), EncodeError::EmptyTier(1));
    tg.items[0].intervals.clear();
    assert_eq!(textgrid_to_string(&tg).unwrap_err(), EncodeError::EmptyTier(0));
}

#[test]
fn the_extent_is_the_latest_end() {
    let tg = TextGrid {
        items: vec![
            TextGridIntervals { name: "a".to_string(), intervals: vec![interval(0, 3_000_000_000, "x"), interval(0, 2_000_000_000, "y")] },
            TextGridIntervals { name: "b".to_string(), intervals: vec![interval(0, 1_000_000_000, "z")] },
        ],
    };
    let text = textgrid_to_string(&tg).unwrap();
    assert!(text.starts_with("File type = \"ooTextFile\"\nObject class = \"TextGrid\"\n\nxmin = 0\nxmax = 3\n"));
    assert!(text.contains("        name = \"a\"\n        xmin = 0\n        xmax = 3\n"));
    assert!(text.contains("        name = \"b\"\n        xmin = 0\n        xmax = 1\n"));
}

#[test]
fn bytes_are_read_in_the_encoding_they_are_in() {
    let tg = two_tiers();
    // UTF-8
    let back = parse_textgrid(TWO_TIERS_TEXT.as_bytes()).unwrap();
    assert!(same(&tg, &back));
    // UTF-8 with a byte order mark
    let mut bytes = vec![0xEF, 0xBB, 0xBF];
    bytes.extend_from_slice(TWO_TIERS_TEXT.as_bytes());
    assert!(same(&tg, &parse_textgrid(&bytes).unwrap()));
    // UTF-16, little and big endian, with a byte order mark
    let mut le = vec![0xFF, 0xFE];
    let mut be = vec![0xFE, 0xFF];
    for unit in TWO_TIERS_TEXT.encode_utf16() {
        le.extend_from_slice(&unit.to_le_bytes());
        be.extend_from_slice(&unit.to_be_bytes());
    }
    assert!(same(&tg, &parse_textgrid(&le).unwrap()));
    assert!(same(&tg, &parse_textgrid(&be).unwrap()));
}

#[test]
fn labels_beyond_ascii_are_read_from_utf8() {
    let mut tg = two_tiers();
    tg.items[0].intervals[0].text = "\u{4e2d}\u{6587} caf\u{e9}".to_string();
    tg.items[1].intervals[0].text = "t\u{283}".to_string();
    let text = textgrid_to_string(&tg).unwrap();
    let back = parse_textgrid(text.as_bytes()).unwrap();
    assert!(same(&tg, &back));
}

#[test]
fn bytes_that_are_no_annotation_are_a_fault() {
    let e = parse_textgrid(b"RIFF\x00\x00\x00\x00WAVEfmt ").unwrap_err();
    assert_eq!(e.kind, ParseErrorKind::Structure);
    assert_eq!(e.position, 0);
}
