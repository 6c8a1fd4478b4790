use rs_bom::books::book_at;
use rs_bom::canonical::{merge_references, sort_references, Ranking};
use rs_bom::citation::{
    book_name_from_capture, extract_book_name, extract_number, extract_range, parse_clause,
};
use rs_bom::{
    BOMError, RangeCollection, RangeType, ReferenceFault, VerseRangeReference, VerseReference, Work,
};

fn canonical(input: &str) -> String {
    let mut parsed = input
        .parse::<RangeCollection>()
        .unwrap_or_else(|_| panic!("Input {} should have parsed without error", input));
    parsed.canonicalize();
    parsed.to_canonical_string()
}

fn formatted(input: &str) -> String {
    match input.parse::<RangeCollection>() {
        Ok(parsed) => parsed.to_canonical_string(),
        Err(_) => panic!("Input '{}' should have parsed without error", input),
    }
}

fn fault(input: &str) -> ReferenceFault {
    match RangeCollection::new(input) {
        Err(BOMError::ReferenceError(fault)) => fault,
        Err(other) => panic!("unexpected error {:?}", other),
        Ok(parsed) => panic!("{} should not parse, got {}", input, parsed.to_canonical_string()),
    }
}

fn chars(s: &str) -> Vec<char> {
    s.chars().collect()
}

fn chapters(work: Work, book_index: usize, start: usize, end: usize) -> VerseRangeReference {
    VerseRangeReference { range_type: RangeType::StartEndChapter { start, end }, book_index, work }
}

fn verses(
    work: Work,
    book_index: usize,
    chapter: usize,
    start: usize,
    end: usize,
) -> VerseRangeReference {
    VerseRangeReference {
        range_type: RangeType::StartEndVerse { chapter, start, end },
        book_index,
        work,
    }
}

fn assert_roundtrip(input: &str) {
    assert_eq!(
        formatted(input),
        input,
        "Roundtrip from string -> parsed -> string failed"
    );
}

#[test]
fn reference_collection_canonicalization() {
    let cases = vec![
        // Spacing
        ("  Alma  3   :  16 ", "Alma 3:16"),
        // Joining ranges, ordering of books and chapters
        (
            "Alma 3:18–19, 16–17; Mosiah 3:18",
            "Mosiah 3:18; Alma 3:16–19",
        ),
        (
            "1 Nephi 1; 1 Nephi 2; 1 Nephi 1:1-3; 1 Nephi 5:6",
            "1 Ne. 1–2; 5:6",
        ),
        ("Alma 3:18–19, 16–17; Alma 3; Alma 4", "Alma 3–4"),
        ("Alma 3:16, 17, 18–19", "Alma 3:16–19"),
        ("Alma 3:16, 18, 19", "Alma 3:16, 18–19"),
        ("Alma 16, 18, 19", "Alma 16, 18–19"),
        ("1 Nephi 1; 2 Nephi 1", "1 Ne. 1; 2 Ne. 1"),
        ("Genesis 1; 1 Nephi 1", "Gen. 1; 1 Ne. 1"), // Make sure that same chapter index across different works is not joined.
        // Convert to en-dashes
        ("Alma 3:16-17", "Alma 3:16–17"),
        ("Alma 3:16—17", "Alma 3:16–17"),
        // Move to abbreviations
        ("Moroni 1:1", "Moro. 1:1"),
        ("Moroni 1:1", "Moro. 1:1"),
        ("Mormon 1:1", "Morm. 1:1"),
        ("4 Nephi 1:1", "4 Ne. 1:1"),
        ("3 Nephi 1:1", "3 Ne. 1:1"),
        ("Helaman 1:1", "Hel. 1:1"),
        ("Words of Mormon 1:1", "W of M 1:1"),
        ("2 Nephi 1:1", "2 Ne. 1:1"),
        ("1 Nephi 1:1", "1 Ne. 1:1"),
    ];

    for (input, expected) in cases {
        let parsed = input.parse::<RangeCollection>();
        if let Ok(mut parsed) = parsed {
            parsed.canonicalize();
            let formatted = parsed.to_canonical_string();
            assert_eq!(formatted, expected, "Canonicalization failed");
        } else {
            assert!(false, "Input {} should have parsed without error", input);
        }
    }
}

#[test]
fn reference_reference_collection_canonicalization() {
    let cases = vec![
        ("  Alma  3   :  16 ", "Alma 3:16"),
        (
            "Alma 3:18–19, 16–17; Mosiah 3:18",
            "Mosiah 3:18; Alma 3:16–19",
        ),
        ("Alma 3:18–19, 16–17; Alma 3; Alma 4", "Alma 3–4"),
        ("Alma 3:16, 17, 18–19", "Alma 3:16–19"),
        ("Alma 3:16, 18, 19", "Alma 3:16, 18–19"),
        ("Alma 16, 18, 19", "Alma 16, 18–19"),
        ("Alma 3:16-17", "Alma 3:16–17"),
        ("Alma 3:16—17", "Alma 3:16–17"),
        ("Moroni 1:1", "Moro. 1:1"),
        ("Moroni 1:1", "Moro. 1:1"),
        ("Mormon 1:1", "Morm. 1:1"),
        ("4 Nephi 1:1", "4 Ne. 1:1"),
        ("3 Nephi 1:1", "3 Ne. 1:1"),
        ("Helaman 1:1", "Hel. 1:1"),
        ("Words of Mormon 1:1", "W of M 1:1"),
        ("2 Nephi 1:1", "2 Ne. 1:1"),
        ("1 Nephi 1:1", "1 Ne. 1:1"),
    ];

    for (input, expected) in cases {
        let parsed = input.parse::<RangeCollection>();
        if let Ok(mut parsed) = parsed {
            parsed.canonicalize();
            let formatted = parsed.to_canonical_string();
            assert_eq!(formatted, expected, "Canonicalization failed");
        } else {
            assert!(false, "Input {} should have parsed without error", input);
        }
    }
}

#[test]
fn roundtrip_0() {
    assert_roundtrip("Alma 3:16");
}

#[test]
fn roundtrip_1() {
    assert_roundtrip("Alma 3:16–17");
}

#[test]
fn roundtrip_2() {
    assert_roundtrip("Alma 3:16, 18");
}

#[test]
fn roundtrip_3() {
    assert_roundtrip("Alma 3:16, 18–20; 13:2–4, 7–8");
}

#[test]
fn roundtrip_4() {
    assert_roundtrip("Alma 5–8");
}

#[test]
fn roundtrip_5() {
    assert_roundtrip("Alma 8");
}

#[test]
fn roundtrip_6() {
    assert_roundtrip("Alma 8, 10");
}

#[test]
fn roundtrip_7() {
    assert_roundtrip("Alma 32:31; Mosiah 1:1; 3:2");
}

#[test]
fn roundtrip_9() {
    assert_roundtrip("1 Ne. 1:1");
}

#[test]
fn roundtrip_11() {
    assert_roundtrip("2 Ne. 1:1");
}

#[test]
fn roundtrip_13() {
    assert_roundtrip("W of M 1:1");
}

#[test]
fn roundtrip_15() {
    assert_roundtrip("Hel. 1:1");
}

#[test]
fn roundtrip_17() {
    assert_roundtrip("3 Ne. 1:1");
}

#[test]
fn roundtrip_19() {
    assert_roundtrip("4 Ne. 1:1");
}

#[test]
fn roundtrip_20() {
    assert_roundtrip("Morm. 1:1");
}

#[test]
fn roundtrip_22() {
    assert_roundtrip("Moro. 1:1");
}

#[test]
fn roundtrip_bible_0() {
    assert_roundtrip("John 3");
}

#[test]
fn roundtrip_bible_1() {
    assert_roundtrip("John 1–3");
}

#[test]
fn roundtrip_bible_2() {
    assert_roundtrip("John 3:16");
}

#[test]
fn roundtrip_bible_3() {
    assert_roundtrip("John 3:16–17");
}

#[test]
fn roundtrip_bible_4() {
    assert_roundtrip("John 6:14, 44");
}

#[test]
fn roundtrip_bible_5() {
    assert_roundtrip("Gen. 6:14");
}

#[test]
fn formatting_is_a_fixed_point_after_one_pass() {
    let inputs = [
        "Alma 3:16-17",
        "  Alma  3   :  16 ",
        "Alma 3:18–19, 16–17; Mosiah 3:18",
        "1 Nephi 1; 1 Nephi 2; 1 Nephi 1:1-3; 1 Nephi 5:6",
        "Alma 3:5; Alma 4",
        "Alma 3; 4:5",
        "Alma 3:5; Alma 4; Alma 3:6",
        "Alma 3:5; Mosiah 1; Mosiah 3:6",
        "Alma 3; 1000:5",
        "Genesis 1; 1 Nephi 1; Song of Solomon 2:1—3",
        "Alma +5:+6",
        "Alma 007",
        "Alma 3; 4, 5-6",
    ];
    for input in inputs {
        let once = formatted(input);
        let twice = formatted(&once);
        assert_eq!(twice, once, "formatting {} is not stable", input);
    }
    assert_eq!(formatted("Alma 3:16-17"), "Alma 3:16–17");
    assert_eq!(formatted("Alma 3:16–17"), "Alma 3:16–17");
}

#[test]
fn chapter_is_repeated_only_when_it_changes_within_a_book() {
    assert_eq!(formatted("Alma 3:5; Alma 4"), "Alma 3:5, 4");
    assert_eq!(formatted("Alma 3; 4:5"), "Alma 3; 4:5");
    assert_eq!(formatted("Alma 3:5; Alma 4; Alma 3:6"), "Alma 3:5, 4, 6");
    assert_eq!(formatted("Alma 3:5; Alma 4:6"), "Alma 3:5; 4:6");
    assert_eq!(formatted("Alma 3:5; Mosiah 1; Mosiah 3:6"), "Alma 3:5; Mosiah 1; 3:6");
    assert_eq!(formatted("Alma 3; 1000:5"), "Alma 3; 1000:5");
    assert_eq!(formatted("Alma 3:5; Mosiah 3:6"), "Alma 3:5; Mosiah 3:6");
    assert_eq!(formatted("Genesis 1:1; Matthew 1:1"), "Gen. 1:1; Matt. 1:1");
}

#[test]
fn book_is_carried_over_from_the_clause_before() {
    assert_eq!(formatted("Alma 3:5; 4:6"), "Alma 3:5; 4:6");
    assert_eq!(formatted("Alma 3; 4"), "Alma 3, 4");
    assert_eq!(formatted("Alma 3; 4, 6-7"), "Alma 3, 4, 6–7");
    assert_eq!(formatted("Genesis 3; 4:1"), "Gen. 3; 4:1");
    assert_eq!(
        fault("3:5; Alma 4"),
        ReferenceFault::BookNameNotFound { text: "3".to_string() }
    );
    assert_eq!(fault("4"), ReferenceFault::BookNameNotFound { text: "4".to_string() });
}

#[test]
fn canonicalization_idempotence() {
    let inputs = [
        "Alma 3:18–19, 16–17; Mosiah 3:18",
        "1 Nephi 1; 1 Nephi 2; 1 Nephi 1:1-3; 1 Nephi 5:6",
        "Alma 3:18–19, 16–17; Alma 3; Alma 4",
        "Alma 16, 18, 19",
        "Genesis 1; 1 Nephi 1",
        "Alma 9, 1-5, 2-3, 7-8, 6",
        "Alma 3:9, 1-5, 2-3, 7-8, 6; 4:1",
    ];
    for input in inputs {
        let mut parsed = input.parse::<RangeCollection>().unwrap();
        parsed.canonicalize();
        let once = parsed.to_canonical_string();
        parsed.canonicalize();
        assert_eq!(parsed.to_canonical_string(), once, "{} is not stable", input);
    }
}

#[test]
fn merge_correctness() {
    assert_eq!(canonical("Alma 3:18–19, 16–17; Mosiah 3:18"), "Mosiah 3:18; Alma 3:16–19");
    assert_eq!(canonical("Alma 3:18–19, 16–17; Alma 3; Alma 4"), "Alma 3–4");
    assert_eq!(canonical("Alma 16, 18, 19"), "Alma 16, 18–19");
    assert_eq!(canonical("Genesis 1; 1 Nephi 1"), "Gen. 1; 1 Ne. 1");
    assert_eq!(canonical("Alma 9, 1-5, 2-3, 7-8, 6"), "Alma 1–9");
    assert_eq!(canonical("Alma 5, 1-2, 8"), "Alma 1–2, 5, 8");
    assert_eq!(canonical("Alma 3:1-5, 3-9, 11"), "Alma 3:1–9, 11");
    assert_eq!(canonical("Alma 18446744073709551615; Alma 1"), "Alma 1, 18446744073709551615");
}

#[test]
fn touching_clauses_collapse_as_the_merge_rule_says() {
    // The verses of a chapter that follows a chapter range are taken for covered.
    assert_eq!(canonical("Alma 1-5; Alma 6:1"), "Alma 1–5");
    // A chapter range that follows a verse range takes its place.
    assert_eq!(canonical("Alma 3:1; Alma 4-5"), "Alma 4–5");
    // Verse ranges of neighbouring chapters join on the first chapter.
    assert_eq!(canonical("Alma 3:1-5; 4:2-3"), "Alma 3:1–5");
    // A second pass may merge what the first left apart.
    let mut parsed = RangeCollection::new("Alma 3:1-2, 5-6; Alma 3").unwrap();
    parsed.canonicalize();
    assert_eq!(parsed.to_canonical_string(), "Alma 3:1–2, 3");
    parsed.canonicalize();
    assert_eq!(parsed.to_canonical_string(), "Alma 3");
    assert_eq!(canonical("Alma 3:1–2, 3"), "Alma 3:1–3");
}

#[test]
fn sort_keeps_equal_clauses_in_the_order_they_came() {
    let w = Work::BookOfMormon;
    let input = vec![
        verses(w, 8, 3, 18, 19),
        verses(w, 8, 3, 16, 17),
        chapters(w, 8, 3, 3),
        chapters(w, 8, 4, 4),
        verses(w, 7, 3, 18, 18),
        chapters(Work::OldTestament, 8, 3, 3),
    ];
    assert_eq!(
        sort_references(&input),
        vec![
            verses(w, 7, 3, 18, 18),
            verses(w, 8, 3, 16, 17),
            verses(w, 8, 3, 18, 19),
            chapters(w, 8, 3, 3),
            chapters(Work::OldTestament, 8, 3, 3),
            chapters(w, 8, 4, 4),
        ]
    );
    assert_eq!(sort_references(&vec![]), vec![]);
}

#[test]
fn ranks_follow_the_case_table() {
    let w = Work::BookOfMormon;
    assert_eq!(verses(w, 1, 9, 9, 9).compare(&verses(w, 2, 1, 1, 1)), Ranking::Less);
    assert_eq!(verses(w, 1, 2, 1, 1).compare(&verses(w, 1, 1, 9, 9)), Ranking::Greater);
    assert_eq!(verses(w, 1, 2, 1, 5).compare(&verses(w, 1, 2, 1, 6)), Ranking::Less);
    assert_eq!(verses(w, 1, 2, 1, 5).compare(&verses(w, 1, 2, 1, 5)), Ranking::Equal);
    assert_eq!(chapters(w, 1, 2, 5).compare(&chapters(w, 1, 2, 4)), Ranking::Greater);
    assert_eq!(chapters(w, 1, 2, 5).compare(&chapters(w, 1, 3, 4)), Ranking::Less);
    assert_eq!(verses(w, 1, 3, 1, 1).compare(&chapters(w, 1, 3, 3)), Ranking::Equal);
    assert_eq!(verses(w, 1, 3, 9, 9).compare(&chapters(w, 1, 3, 3)), Ranking::Equal);
    assert_eq!(verses(w, 1, 3, 1, 1).compare(&chapters(w, 1, 3, 5)), Ranking::Less);
    assert_eq!(chapters(w, 1, 3, 5).compare(&verses(w, 1, 3, 1, 1)), Ranking::Greater);
    assert_eq!(verses(w, 1, 4, 1, 1).compare(&chapters(w, 1, 3, 5)), Ranking::Greater);
    assert_eq!(chapters(w, 1, 3, 5).compare(&verses(w, 1, 4, 1, 1)), Ranking::Less);
    assert_eq!(
        chapters(Work::OldTestament, 1, 3, 5).compare(&chapters(Work::NewTestament, 1, 3, 5)),
        Ranking::Equal
    );
}

#[test]
fn merge_step_cases() {
    let w = Work::BookOfMormon;
    assert_eq!(chapters(w, 1, 1, 2).merge_with(&chapters(w, 1, 3, 4)), Some(chapters(w, 1, 1, 4)));
    assert_eq!(chapters(w, 1, 1, 2).merge_with(&chapters(w, 1, 4, 4)), None);
    assert_eq!(chapters(w, 1, 1, 9).merge_with(&chapters(w, 1, 2, 3)), Some(chapters(w, 1, 1, 9)));
    assert_eq!(chapters(w, 1, 2, 3).merge_with(&chapters(w, 1, 1, 9)), None);
    assert_eq!(chapters(w, 1, 1, 2).merge_with(&chapters(w, 2, 2, 3)), None);
    assert_eq!(
        chapters(w, 1, 1, 2).merge_with(&chapters(Work::OldTestament, 1, 2, 3)),
        None
    );
    assert_eq!(
        verses(w, 1, 3, 1, 2).merge_with(&verses(w, 1, 3, 3, 4)),
        Some(verses(w, 1, 3, 1, 4))
    );
    assert_eq!(verses(w, 1, 3, 1, 2).merge_with(&verses(w, 1, 3, 4, 5)), None);
    assert_eq!(
        verses(w, 1, 3, 1, 2).merge_with(&chapters(w, 1, 3, 3)),
        Some(chapters(w, 1, 3, 3))
    );
    assert_eq!(
        chapters(w, 1, 3, 3).merge_with(&verses(w, 1, 3, 1, 2)),
        Some(chapters(w, 1, 3, 3))
    );
    let top = usize::MAX;
    assert_eq!(chapters(w, 1, 1, top).merge_with(&chapters(w, 1, top, top)), Some(chapters(w, 1, 1, top)));
    assert_eq!(chapters(w, 1, 0, 0).merge_with(&chapters(w, 1, 0, 0)), Some(chapters(w, 1, 0, 0)));
    assert_eq!(
        merge_references(&vec![chapters(w, 1, 1, 2), chapters(w, 1, 3, 3), chapters(w, 1, 5, 5)]),
        vec![chapters(w, 1, 1, 3), chapters(w, 1, 5, 5)]
    );
}

#[test]
fn rejections() {
    assert!(RangeCollection::new("").is_err());
    assert!(RangeCollection::new("100:5").is_err());
    assert!(RangeCollection::new("1 Nephi 1: 5-1").is_err());
    assert!(RangeCollection::new("Alma 5:5-6-").is_err());
    assert!(RangeCollection::new("1 Nephi 1: 5-5").is_err());
    assert!(RangeCollection::new("1 Nephi 1:1, 1:2").is_err());
    assert!(RangeCollection::new("Ephraim 5").is_err());
    assert!(RangeCollection::new("alma 5").is_err());
    assert!(RangeCollection::new("Alma5").is_err());
    assert!(RangeCollection::new("Alma").is_err());
    assert!(RangeCollection::new("Alma 3;").is_err());
    assert!(RangeCollection::new("Alma 3,").is_err());
    assert!(RangeCollection::new("Alma -3").is_err());
    assert!(RangeCollection::new("Alma 3.5").is_err());
    assert!(RangeCollection::new("Alma 99999999999999999999999999").is_err());
}

#[test]
fn each_fault_names_its_text() {
    assert_eq!(fault(""), ReferenceFault::BookNameNotFound { text: "".to_string() });
    assert_eq!(fault("100:5"), ReferenceFault::BookNameNotFound { text: "100".to_string() });
    assert_eq!(
        fault(" Ephraim 5 "),
        ReferenceFault::BookNameNotFound { text: " Ephraim 5 ".to_string() }
    );
    assert_eq!(
        fault("1 Nephi 1: 5-1"),
        ReferenceFault::InvalidRange { text: " 5-1".to_string() }
    );
    assert_eq!(
        fault("1 Nephi 1: 5-5"),
        ReferenceFault::InvalidRange { text: " 5-5".to_string() }
    );
    assert_eq!(
        fault("Alma 5:5-6-"),
        ReferenceFault::TooManyDashes { text: "5-6-".to_string() }
    );
    assert_eq!(
        fault("Alma 5:5–6—7"),
        ReferenceFault::TooManyDashes { text: "5–6—7".to_string() }
    );
    assert_eq!(fault("1 Nephi 1:1, 1:2"), ReferenceFault::TooManyColons);
    assert_eq!(
        fault("Alma 5: x "),
        ReferenceFault::InvalidNumber { text: "x".to_string() }
    );
    assert_eq!(fault("Alma 5:"), ReferenceFault::InvalidNumber { text: "".to_string() });
    assert_eq!(fault("Alma 3; :5"), ReferenceFault::InvalidNumber { text: "".to_string() });
    assert_eq!(fault("Alma :5"), ReferenceFault::BookNameNotFound { text: "Alma ".to_string() });
    assert_eq!(
        RangeCollection::new("Alma 5:5-6-").unwrap_err().message(),
        "Reference error: Too many dashes (-) found in 5-6-"
    );
    assert_eq!(
        fault("1 Nephi 1: 5-1").message(),
        "Range is invalid:  5-1"
    );
    assert_eq!(fault("1 Nephi 1:1, 1:2").message(), "More than 1 ':' in a single citation");
    assert_eq!(fault("Alma x").message(), "Unable to parse number from x");
    assert_eq!(fault("Nephi 1").message(), "Book name not found as expected in Nephi 1");
    assert_eq!(
        ReferenceFault::NoReferences { text: "x".to_string() }.message(),
        "Unable to parse any references from string: x"
    );
}

#[test]
fn numbers_and_ranges() {
    assert_eq!(extract_number(&chars(" 12 ")), Ok(12));
    assert_eq!(extract_number(&chars("+12")), Ok(12));
    assert_eq!(extract_number(&chars("0012")), Ok(12));
    assert_eq!(extract_number(&chars("0")), Ok(0));
    assert_eq!(extract_number(&chars("\u{a0}7\t")), Ok(7));
    assert_eq!(
        extract_number(&chars(" 1 2 ")),
        Err(ReferenceFault::InvalidNumber { text: "1 2".to_string() })
    );
    assert_eq!(
        extract_number(&chars("-1")),
        Err(ReferenceFault::InvalidNumber { text: "-1".to_string() })
    );
    assert_eq!(
        extract_number(&chars("+")),
        Err(ReferenceFault::InvalidNumber { text: "+".to_string() })
    );
    assert_eq!(extract_number(&chars(&usize::MAX.to_string())), Ok(usize::MAX));
    assert!(extract_number(&chars("18446744073709551616")).is_err() || usize::MAX as u128 > u64::MAX as u128);
    assert_eq!(extract_range(&chars("5")), Ok((5, 5)));
    assert_eq!(extract_range(&chars(" 5 - 7 ")), Ok((5, 7)));
    assert_eq!(extract_range(&chars("5–7")), Ok((5, 7)));
    assert_eq!(extract_range(&chars("5—7")), Ok((5, 7)));
    assert_eq!(
        extract_range(&chars("7-5")),
        Err(ReferenceFault::InvalidRange { text: "7-5".to_string() })
    );
    assert_eq!(
        extract_range(&chars("5-")),
        Err(ReferenceFault::InvalidNumber { text: "".to_string() })
    );
    assert_eq!(
        extract_range(&chars("x-y")),
        Err(ReferenceFault::InvalidNumber { text: "x".to_string() })
    );
}

#[test]
fn book_names() {
    assert_eq!(extract_book_name(&chars("Alma 5")), Ok((4, 8, Work::BookOfMormon)));
    assert_eq!(extract_book_name(&chars("  Alma   5")), Ok((6, 8, Work::BookOfMormon)));
    assert_eq!(extract_book_name(&chars("1 Ne. 5")), Ok((5, 0, Work::BookOfMormon)));
    assert_eq!(extract_book_name(&chars("Words of Mormon 1")), Ok((15, 6, Work::BookOfMormon)));
    assert_eq!(extract_book_name(&chars("Song of Solomon 2")), Ok((15, 21, Work::OldTestament)));
    assert_eq!(extract_book_name(&chars("3 John 1")), Ok((6, 24, Work::NewTestament)));
    assert_eq!(extract_book_name(&chars("Revelation 22")), Ok((10, 26, Work::NewTestament)));
    assert!(extract_book_name(&chars("Alma")).is_err());
    assert!(extract_book_name(&chars("ALMA 5")).is_err());
    assert!(extract_book_name(&chars("Alma and 5")).is_err());
    assert_eq!(
        book_name_from_capture(&chars(" Alma 5"), Some("Alma ".to_string())),
        Some((5, 8, Work::BookOfMormon))
    );
    assert_eq!(book_name_from_capture(&chars(" Alma 5"), Some("Mosiah".to_string())), None);
    assert_eq!(book_name_from_capture(&chars(" Alma 5"), Some("Nobody".to_string())), None);
    assert_eq!(book_name_from_capture(&chars(" Alma 5"), None), None);
}

#[test]
fn clauses() {
    let w = Work::BookOfMormon;
    assert_eq!(
        parse_clause(&chars("Alma 3, 5-6"), None),
        Ok(vec![chapters(w, 8, 3, 3), chapters(w, 8, 5, 6)])
    );
    assert_eq!(
        parse_clause(&chars(" 3 : 1, 4-5"), Some((7, w))),
        Ok(vec![verses(w, 7, 3, 1, 1), verses(w, 7, 3, 4, 5)])
    );
    assert_eq!(
        parse_clause(&chars("Alma 3:1"), Some((7, w))),
        Ok(vec![verses(w, 8, 3, 1, 1)])
    );
    assert_eq!(parse_clause(&chars("1:2:3"), Some((7, w))), Err(ReferenceFault::TooManyColons));
}

#[test]
fn links() {
    let reference = VerseReference::new(Work::BookOfMormon, 6, 1, 18);
    assert_eq!(
        reference.url(),
        Some(
            "https://www.churchofjesuschrist.org/study/scriptures/bofm/w-of-m/1?lang=eng&id=p18-p18#p18"
                .to_string()
        )
    );
    assert_eq!(
        RangeCollection::new("John 3:16-17; Alma 5").unwrap().url(),
        Some(
            "https://www.churchofjesuschrist.org/study/scriptures/nt/john/3?lang=eng&id=p16-p17#p16"
                .to_string()
        )
    );
    assert_eq!(
        RangeCollection::new("1 Samuel 17:4").unwrap().url(),
        Some(
            "https://www.churchofjesuschrist.org/study/scriptures/ot/1-sam/17?lang=eng&id=p4-p4#p4"
                .to_string()
        )
    );
    assert_eq!(RangeCollection::new("Alma 5; John 3:16").unwrap().url(), None);
    assert_eq!(
        RangeCollection::from_verse_ref(&reference).to_canonical_string(),
        "W of M 1:18"
    );
}

#[test]
fn pattern_finds_every_short_name() {
    for row in 0..81 {
        let book = book_at(row);
        let name_len = book.short_name.chars().count();
        for rest in ["3", "12:4", "3–4, 7"] {
            let clause = format!("{} {}", book.short_name, rest);
            assert_eq!(
                extract_book_name(&chars(&clause)),
                Ok((name_len, book.book_index, book.work)),
                "{}",
                clause
            );
            let clause = format!(" {} {}", book.short_name, rest);
            assert_eq!(
                extract_book_name(&chars(&clause)),
                Ok((name_len + 1, book.book_index, book.work)),
                "{}",
                clause
            );
        }
    }
    for digits in ["", "4", "12", "007"] {
        assert!(extract_book_name(&chars(digits)).is_err());
        assert!(extract_book_name(&chars(&format!(" {}", digits))).is_err());
    }
}

#[test]
fn written_form_reads_back() {
    let w = Work::BookOfMormon;
    let cases = [
        ("Alma 3:5; Alma 4", vec![verses(w, 8, 3, 5, 5), verses(w, 8, 3, 4, 4)]),
        (
            "Alma 3; 4:5; Alma 6-7",
            vec![chapters(w, 8, 3, 3), verses(w, 8, 4, 5, 5), verses(w, 8, 4, 6, 7)],
        ),
        (
            "Alma 3:5; Mosiah 1; Mosiah 3:6",
            vec![verses(w, 8, 3, 5, 5), chapters(w, 7, 1, 1), verses(w, 7, 3, 6, 6)],
        ),
    ];
    for (input, expected) in cases {
        let written = formatted(input);
        assert_eq!(formatted(&written), written);
        let mut read: Vec<VerseRangeReference> = Vec::new();
        let mut previous = None;
        for part in written.split(';') {
            let clauses = parse_clause(&chars(part), previous).unwrap();
            previous = clauses.last().map(|r| (r.book_index, r.work));
            read.extend(clauses);
        }
        assert_eq!(read, expected, "{}", input);
    }
}
