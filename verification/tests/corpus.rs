use rs_bom::gutenberg::{
    parse_corpus, update_book_with_chunk, ChunkType, CorpusFault, ParseError, Parser,
};
use rs_bom::{
    BOMParser, Book, Chapter, RangeCollection, Verse, VerseReference, VerseWithReference, Work, BOM,
};

const NEPHI_1_1: &str = "I, Nephi, having been born of goodly parents, therefore I was\n\
taught somewhat in all the learning of my father; and having seen\n\
many afflictions in the course of my days, nevertheless, having\n\
been highly favored of the Lord in all my days; yea, having had a\n\
great knowledge of the goodness and the mysteries of God,\n\
therefore I make a record of my proceedings in my days.";

const NEPHI_2_15: &str = "And my father dwelt in a tent.";

const NEPHI_3_1: &str = "And it came to pass that I, Nephi, returned from speaking with\n\
the Lord, to the tent of my father.";

const NEPHI_3_3: &str = "For behold, Laban hath the record of the Jews and also a\n\
genealogy of my forefathers, and they are engraven upon plates of\n\
brass.";

const NEPHI_3_4: &str = "Wherefore, the Lord hath commanded me that thou and thy\n\
brothers should go unto the house of Laban, and seek the records,\n\
and bring them down hither into the wilderness.";

const NEPHI_3_5: &str = "And now, behold thy brothers murmur, saying it is a hard thing\n\
which I have required of them; but behold I have not required it\n\
of them, but it is a commandment of the Lord.";

fn verse_text(short_title: &str, chapter: usize, verse: usize) -> String {
    if short_title == "1 Nephi" {
        match (chapter, verse) {
            (1, 1) => return NEPHI_1_1.to_string(),
            (2, 15) => return NEPHI_2_15.to_string(),
            (3, 1) => return NEPHI_3_1.to_string(),
            (3, 3) => return NEPHI_3_3.to_string(),
            (3, 4) => return NEPHI_3_4.to_string(),
            (3, 5) => return NEPHI_3_5.to_string(),
            _ => {}
        }
    }
    format!(
        "And it came to pass that these are the words of chapter {} and verse {}.",
        chapter, verse
    )
}

fn push_book(
    out: &mut Vec<String>,
    title: &str,
    description: Option<&str>,
    short_title: &str,
    verses_per_chapter: &[usize],
) {
    out.push(title.to_string());
    if let Some(d) = description {
        out.push(d.to_string());
    }
    let with_headings = verses_per_chapter.len() > 1;
    for (index, count) in verses_per_chapter.iter().enumerate() {
        let chapter = index + 1;
        if with_headings {
            out.push(format!("{} {}\nChapter {}", short_title, chapter, chapter));
        }
        for verse in 1..=*count {
            out.push(format!(
                "{} {}:{}\n {} {}",
                short_title,
                chapter,
                verse,
                verse,
                verse_text(short_title, chapter, verse)
            ));
        }
    }
}

/// A corpus in the layout of the Gutenberg text: the first nine books, with
/// the chapters and verses that the tests below look at in their true places.
fn reference_text() -> String {
    let mut blocks: Vec<String> = Vec::new();
    push_book(
        &mut blocks,
        "THE FIRST BOOK OF NEPHI",
        Some("HIS REIGN AND MINISTRY\nAn account of Lehi and his wife Sariah."),
        "1 Nephi",
        &[20, 24, 31, 38, 22],
    );
    push_book(&mut blocks, "THE SECOND BOOK OF NEPHI", None, "2 Nephi", &[2, 1]);
    push_book(&mut blocks, "THE BOOK OF JACOB", None, "Jacob", &[1, 1]);
    push_book(&mut blocks, "THE BOOK OF ENOS", None, "Enos", &[3]);
    push_book(&mut blocks, "THE BOOK OF JAROM", None, "Jarom", &[2]);
    push_book(&mut blocks, "THE BOOK OF OMNI", None, "Omni", &[2]);
    push_book(&mut blocks, "THE WORDS OF MORMON", None, "Words of Mormon", &[2]);
    push_book(&mut blocks, "THE BOOK OF MOSIAH", None, "Mosiah", &[1, 1, 2]);
    let mut alma = vec![1usize; 62];
    alma.push(17);
    push_book(
        &mut blocks,
        "THE BOOK OF ALMA",
        Some("The account of Alma, who was the son of Alma."),
        "Alma",
        &alma,
    );
    blocks.join("\n\n")
}

fn reference_bom() -> BOM {
    parse_corpus(&reference_text()).unwrap()
}

fn small_bom(books: Vec<Book>) -> BOM {
    BOM {
        title: "test title".to_string(),
        subtitle: "test subtitle".to_string(),
        translator: "test translator".to_string(),
        last_updated: "test updated".to_string(),
        language: "test language".to_string(),
        title_page_text: "test title page".to_string(),
        witness_testimonies: vec![],
        books,
    }
}

fn hello() -> Verse {
    Verse { text: "hello".to_string() }
}

fn invalid(reason: CorpusFault) -> Result<BOM, ParseError> {
    Err(ParseError::CorpusInvalid(reason))
}

fn fault_of(text: &str) -> CorpusFault {
    match parse_corpus(text) {
        Err(ParseError::CorpusInvalid(fault)) => fault,
        other => panic!("expected an invalid corpus, got {:?}", other.map(|b| b.books.len())),
    }
}

#[test]
fn verse_matching_bad_reference() {
    let bom = reference_bom();
    let reference = VerseReference {
        work: Work::BookOfMormon,
        book_index: 1,
        chapter_index: 0,
        verse_index: 0,
    };

    assert_eq!(bom.verse_matching(&reference), None);
}

#[test]
fn verse_matching_good_reference() {
    let bom = reference_bom();
    let reference = VerseReference {
        work: Work::BookOfMormon,
        book_index: 0,
        chapter_index: 2,
        verse_index: 15,
    };

    assert_eq!(
        bom.verse_matching(&reference),
        Some(VerseWithReference {
            book_title: "1 Nephi".to_string(),
            reference: reference.clone(),
            text: "And my father dwelt in a tent.",
        })
    );
}

#[test]
fn verses_matching_bad_reference() {
    let bom = reference_bom();
    let reference: RangeCollection = "1 Nephi 0: 1".parse().unwrap();
    assert_eq!(bom.verses_matching(&reference).len(), 0);
}

#[test]
fn display_verse() {
    let bom = reference_bom();
    let reference = VerseReference::new(Work::BookOfMormon, 0, 1, 1);
    let verse = bom.verse_matching(&reference).unwrap();
    assert_eq!(
        verse.to_plain_string(),
        "1 Nephi 1:1\nI, Nephi, having been born of goodly parents, therefore I was \
        taught somewhat in all the learning of my father; and having seen \
        many afflictions in the course of my days, nevertheless, having \
        been highly favored of the Lord in all my days; yea, having had a \
        great knowledge of the goodness and the mysteries of God, \
        therefore I make a record of my proceedings in my days."
    )
}

#[test]
fn verses_matching_good_reference_verse_ranges() {
    let bom = reference_bom();
    let reference = "1 Nephi 3: 3-5".parse::<RangeCollection>();

    assert!(reference.is_ok());
    let reference = reference.unwrap();
    let verses: Vec<VerseWithReference> = bom.verses_matching(&reference);
    assert_eq!(verses.len(), 3);
    assert_eq!(
        verses,
        vec![
            VerseWithReference {
                book_title: "1 Nephi".to_string(),
                reference: VerseReference {
                    work: Work::BookOfMormon,
                    book_index: 0,
                    chapter_index: 3,
                    verse_index: 3,
                },
                text: "For behold, Laban hath the record of the Jews and also a \
                genealogy of my forefathers, and they are engraven upon plates of \
                brass.",
            },
            VerseWithReference {
                book_title: "1 Nephi".to_string(),
                reference: VerseReference {
                    work: Work::BookOfMormon,
                    book_index: 0,
                    chapter_index: 3,
                    verse_index: 4,
                },
                text: "Wherefore, the Lord hath commanded me that thou and thy \
                brothers should go unto the house of Laban, and seek the records, \
                and bring them down hither into the wilderness.",
            },
            VerseWithReference {
                book_title: "1 Nephi".to_string(),
                reference: VerseReference {
                    work: Work::BookOfMormon,
                    book_index: 0,
                    chapter_index: 3,
                    verse_index: 5,
                },
                text: "And now, behold thy brothers murmur, saying it is a hard thing \
                which I have required of them; but behold I have not required it \
                of them, but it is a commandment of the Lord.",
            }
        ]
    );
}

#[test]
fn verses_matching_good_reference_chapter_ranges() {
    let bom = reference_bom();
    let reference = "1 Nephi 3-5".parse::<RangeCollection>();

    assert!(reference.is_ok());
    let reference = reference.unwrap();
    let verses: Vec<VerseWithReference> = bom.verses_matching(&reference);
    assert_eq!(verses.len(), 91);
    assert_eq!(
        verses.first().unwrap(),
        &VerseWithReference {
            book_title: "1 Nephi".to_string(),
            reference: VerseReference {
                work: Work::BookOfMormon,
                book_index: 0,
                chapter_index: 3,
                verse_index: 1,
            },
            text: "And it came to pass that I, Nephi, returned from speaking with \
            the Lord, to the tent of my father.",
        }
    );
}

#[test]
fn error_for_empty_document() {
    let parser = Parser::new("");
    assert!(parser.parse().is_err())
}

#[test]
fn error_for_invalid_path() {
    let parser = Parser::new("testing123");
    assert!(parser.parse().is_err())
}

#[test]
fn error_for_invalid_document() {
    let parser = Parser::new("This is not the text of a corpus.\n\nIt has two paragraphs.");
    assert!(parser.parse().is_err())
}

#[test]
fn is_valid_huge_chapter() {
    let bom = reference_bom();
    let parsed = "Alma 1000".parse::<RangeCollection>().unwrap();
    assert!(!parsed.is_valid(&bom));
}

#[test]
fn is_valid_last_verse_in_chapter() {
    let bom = reference_bom();
    let parsed = "Alma 63:17".parse::<RangeCollection>().unwrap();
    assert!(parsed.is_valid(&bom));
}

#[test]
fn is_valid_behind_last_verse_in_chapter() {
    let bom = reference_bom();
    let parsed = "Alma 63:18".parse::<RangeCollection>().unwrap();
    assert!(!parsed.is_valid(&bom));
    let parsed = "Alma 63:17-18".parse::<RangeCollection>().unwrap();
    assert!(!parsed.is_valid(&bom));
    let parsed = "Alma 64".parse::<RangeCollection>().unwrap();
    assert!(!parsed.is_valid(&bom));
    let parsed = "Alma 63".parse::<RangeCollection>().unwrap();
    assert!(parsed.is_valid(&bom));
}

#[test]
fn zero_is_never_valid() {
    let bom = reference_bom();
    for case in ["1 Nephi 0:1", "1 Nephi 5:0", "1 Nephi 0", "1 Nephi 0-2"] {
        match case.parse::<RangeCollection>() {
            Ok(parsed) => assert!(!parsed.is_valid(&bom), "{} should not be valid", case),
            Err(_) => {}
        }
    }
    assert!(!VerseReference::new(Work::BookOfMormon, 0, 0, 1).is_valid(&bom));
    assert!(!VerseReference::new(Work::BookOfMormon, 0, 1, 0).is_valid(&bom));
    assert!(VerseReference::new(Work::BookOfMormon, 0, 1, 1).is_valid(&bom));
    assert!(!VerseReference::new(Work::BookOfMormon, 9, 1, 1).is_valid(&bom));
}

fn assert_illegal(case: &str) {
    let bom = reference_bom();
    match case.parse::<RangeCollection>() {
        Ok(parsed) => assert!(
            !parsed.is_valid(&bom),
            "Should have failed to validate reference {}",
            case
        ),
        Err(_) => {}
    }
}

#[test]
fn illegal_0() {
    assert_illegal("Alma 100:5");
}

#[test]
fn illegal_1() {
    assert_illegal("");
}

#[test]
fn illegal_2() {
    assert_illegal("100:5");
}

#[test]
fn illegal_3() {
    assert_illegal("23 Nephi: 11, 5");
}

#[test]
fn illegal_4() {
    assert_illegal("Ephraim 1:1");
}

#[test]
fn illegal_5() {
    assert_illegal("MeNephi 1:1");
}

#[test]
fn illegal_6() {
    assert_illegal("1 Nephi 5:100");
}

#[test]
fn illegal_7() {
    assert_illegal("1 Nephi 1: 5-1");
}

#[test]
fn illegal_8() {
    assert_illegal("1 Nephi 1: 5-5");
}

#[test]
fn illegal_9() {
    assert_illegal("1 Nephi 0: 1");
}

#[test]
fn illegal_10() {
    assert_illegal("1 Nephi 5: 0");
}

#[test]
fn illegal_11() {
    assert_illegal("1 Nephi 1:1, 1:2");
}

#[test]
fn illegal_12() {
    assert_illegal("1 Nephi 1:1; 1 Nephi 5: 0");
}

#[test]
fn illegal_13() {
    assert_illegal("Ephraim 5");
}

#[test]
fn illegal_14() {
    assert_illegal("Alma 5:5-6-");
}

#[test]
fn empty_verse_iter() {
    let bom = small_bom(vec![]);

    let num_iterations = bom.verses().len();
    assert_eq!(num_iterations, 0);
}

#[test]
fn single_book_chapter_verse_iter() {
    let bom = small_bom(vec![Book {
        title: "Testing".to_string(),
        short_title: None,
        description: None,
        chapters: vec![Chapter { verses: vec![hello()] }],
    }]);

    let verses: Vec<_> = bom.verses();
    let num_iterations = verses.len();
    assert_eq!(num_iterations, 1);
    assert_eq!(
        verses[0],
        VerseWithReference {
            book_title: "Testing".to_string(),
            reference: VerseReference {
                work: Work::BookOfMormon,
                book_index: 0,
                chapter_index: 1,
                verse_index: 1,
            },
            text: "hello"
        }
    )
}

#[test]
fn multiple_book_chapter_verse_iter() {
    let bom = small_bom(vec![
        Book {
            title: "Testing".to_string(),
            short_title: None,
            description: None,
            chapters: vec![
                Chapter { verses: vec![hello(), hello()] },
                Chapter { verses: vec![hello(), hello()] },
            ],
        },
        Book {
            title: "Testing2".to_string(),
            short_title: None,
            description: None,
            chapters: vec![
                Chapter { verses: vec![hello(), hello()] },
                Chapter { verses: vec![hello(), hello()] },
            ],
        },
    ]);

    let verses: Vec<_> = bom.verses();
    let num_iterations = verses.len();
    assert_eq!(num_iterations, 8);

    let mut prev_chap = 0;
    let mut prev_verse = 0;
    let mut prev_book = 0;
    for v in verses {
        if v.reference.book_index < prev_book {
            assert!(false, "Next book should be >= previous book");
        } else if v.reference.book_index == prev_book {
            if v.reference.chapter_index < prev_chap {
                assert!(false, "Next chapter should be >= previous chapter");
            } else if v.reference.chapter_index == prev_chap {
                if v.reference.verse_index <= prev_verse {
                    assert!(
                        false,
                        "In the same chapter, next verse should be >= previous verse"
                    );
                }
            }
        }

        prev_chap = v.reference.chapter_index;
        prev_verse = v.reference.verse_index;
        prev_book = v.reference.book_index;
    }
}

#[test]
fn walk_visits_every_verse_in_order() {
    let bom = reference_bom();
    let verses = bom.verses();
    assert_eq!(verses.len(), 135 + 3 + 2 + 3 + 2 + 2 + 2 + 4 + 62 + 17);
    assert_eq!(verses[0].reference, VerseReference::new(Work::BookOfMormon, 0, 1, 1));
    assert_eq!(verses[20].reference, VerseReference::new(Work::BookOfMormon, 0, 2, 1));
    assert_eq!(verses[135].reference, VerseReference::new(Work::BookOfMormon, 1, 1, 1));
    assert_eq!(verses[135].book_title, "2 Nephi");
    let last = verses.last().unwrap();
    assert_eq!(last.reference, VerseReference::new(Work::BookOfMormon, 8, 63, 17));
    assert_eq!(last.book_title, "Alma");
}

#[test]
fn walk_ends_at_a_book_without_chapters() {
    let bom = small_bom(vec![
        Book {
            title: "One".to_string(),
            short_title: Some("1".to_string()),
            description: None,
            chapters: vec![Chapter { verses: vec![hello()] }],
        },
        Book { title: "Two".to_string(), short_title: None, description: None, chapters: vec![] },
        Book {
            title: "Three".to_string(),
            short_title: None,
            description: None,
            chapters: vec![Chapter { verses: vec![hello()] }],
        },
    ]);
    let verses = bom.verses();
    assert_eq!(verses.len(), 1);
    assert_eq!(verses[0].book_title, "1");
}

#[test]
fn parsed_tree_matches_the_text() {
    let bom = reference_bom();
    assert_eq!(bom.title, "The Book of Mormon");
    assert_eq!(bom.language, "en");
    assert_eq!(bom.witness_testimonies.len(), 2);
    assert_eq!(bom.witness_testimonies[0].title, "THE TESTIMONY OF THREE WITNESSES");
    assert_eq!(bom.books.len(), 9);
    let nephi = &bom.books[0];
    assert_eq!(nephi.title, "THE FIRST BOOK OF NEPHI");
    assert_eq!(nephi.short_title.as_deref(), Some("1 Nephi"));
    assert_eq!(
        nephi.description.as_deref(),
        Some("HIS REIGN AND MINISTRY\nAn account of Lehi and his wife Sariah.")
    );
    assert_eq!(nephi.chapters.len(), 5);
    assert_eq!(nephi.chapters[3].verses.len(), 38);
    let enos = &bom.books[3];
    assert_eq!(enos.description, None);
    assert_eq!(enos.chapters.len(), 1);
    assert_eq!(enos.chapters[0].verses.len(), 3);
    assert_eq!(bom.books[6].short_title.as_deref(), Some("Words of Mormon"));
    assert_eq!(bom.books[8].chapters.len(), 63);
    assert_eq!(bom.books[8].chapters[62].verses.len(), 17);
}

#[test]
fn verse_text_is_stored_on_one_line() {
    let bom = reference_bom();
    let text = &bom.books[0].chapters[2].verses[2].text;
    assert!(!text.contains('\n'));
    assert_eq!(
        text,
        "For behold, Laban hath the record of the Jews and also a genealogy of my \
         forefathers, and they are engraven upon plates of brass."
    );
}

#[test]
fn skipped_verse_number_is_a_mismatch() {
    let text = "THE BOOK OF ENOS\n\n\
                Enos 1:1\n 1 Behold, it came to pass that I, Enos.\n\n\
                Enos 1:3\n 3 And my soul hungered before my Maker.";
    assert_eq!(
        parse_corpus(text).map(|b| b.books.len()),
        invalid(CorpusFault::VerseNumberMismatch {
            expected: 2,
            found: 3,
            text: "Enos 1:3\n 3 And my soul hungered before my Maker.".to_string(),
        })
        .map(|b| b.books.len())
    );
    assert_eq!(
        fault_of(text).message(),
        "Parser thought this verse was 2 but text says it's verse 3: \
         Enos 1:3\n 3 And my soul hungered before my Maker."
    );
}

#[test]
fn first_verse_must_be_verse_one() {
    let text = "THE BOOK OF ENOS\n\nEnos 1:2\n 2 Behold, it came to pass that I, Enos.";
    assert!(matches!(
        fault_of(text),
        CorpusFault::VerseNumberMismatch { expected: 1, found: 2, .. }
    ));
    let text = "THE BOOK OF ENOS\n\nEnos 1:0\n 0 Behold, it came to pass that I, Enos.";
    assert!(matches!(
        fault_of(text),
        CorpusFault::VerseNumberMismatch { expected: 1, found: 0, .. }
    ));
}

#[test]
fn empty_text_holds_no_books() {
    assert_eq!(fault_of(""), CorpusFault::NoBooksFound);
    assert_eq!(fault_of("\n\n\n\n"), CorpusFault::NoBooksFound);
    assert_eq!(
        parse_corpus("").unwrap_err().message(),
        "Corpus invalid: No books found"
    );
}

#[test]
fn verses_before_any_book_are_passed_over() {
    let text = "Enos 1:1\n 1 Behold, it came to pass that I, Enos.";
    assert_eq!(fault_of(text), CorpusFault::NoBooksFound);
}

#[test]
fn misplaced_blocks_are_faults() {
    assert_eq!(
        fault_of("THE BOOK OF ENOS\n\nTHE BOOK OF JAROM"),
        CorpusFault::MisplacedBookTitle { text: "THE BOOK OF JAROM".to_string() }
    );
    assert_eq!(
        fault_of("An account of something."),
        CorpusFault::MisplacedBookDescription { text: "An account of something.".to_string() }
    );
    assert_eq!(
        fault_of("THE BOOK OF ALMA\n\nAlma 1\nChapter 1\n\nAlma 2\nChapter 2"),
        CorpusFault::MisplacedChapterStart { text: "Alma 2\nChapter 2".to_string() }
    );
    assert_eq!(
        fault_of(
            "THE BOOK OF ENOS\n\nEnos 1:1\n 1 Behold, it came to pass that I, Enos.\n\n\
             and some words that belong to nothing"
        ),
        CorpusFault::MisplacedBookDescription {
            text: "and some words that belong to nothing".to_string()
        }
    );
}

#[test]
fn unreadable_verse_number_is_unrecognized() {
    let block = "Enos 1:1\n \u{0661} Behold, it came to pass that I, Enos.";
    assert_eq!(ChunkType::new(block), ChunkType::Unrecognized);
    let text = format!("THE BOOK OF ENOS\n\n{}", block);
    assert_eq!(fault_of(&text), CorpusFault::UnrecognizedBlock { text: block.to_string() });
    assert_eq!(
        fault_of(&text).message(),
        format!("Unrecognized line: {}", block)
    );
}

#[test]
fn verse_behind_a_refused_block_is_misplaced() {
    let mut bom = small_bom(vec![]);
    let block = "Enos 1:1\n 1 Behold, it came to pass that I, Enos.";
    let result = update_book_with_chunk(block, &ChunkType::Unrecognized, &mut bom);
    assert_eq!(
        result,
        Err(ParseError::CorpusInvalid(CorpusFault::MisplacedVerse { text: block.to_string() }))
    );
    assert_eq!(
        result.unwrap_err().message(),
        format!("Corpus invalid: Verse in incorrect location: {}", block)
    );
}

#[test]
fn chunks_are_told_apart() {
    assert_eq!(ChunkType::new("THE BOOK OF ALMA"), ChunkType::BookTitle);
    assert_eq!(ChunkType::new("The Book of Alma"), ChunkType::BookDescription);
    assert_eq!(ChunkType::new("THE BOOK\nOF ALMA"), ChunkType::BookDescription);
    assert_eq!(ChunkType::new("Alma 5\nChapter 5"), ChunkType::ChapterStart);
    assert_eq!(ChunkType::new("3 Nephi 12\nChapter 12"), ChunkType::ChapterStart);
    assert_eq!(ChunkType::new("Alma 5\nChapter five"), ChunkType::BookDescription);
    assert_eq!(
        ChunkType::new("Alma 5:7\n 7 Behold, he changed\ntheir hearts."),
        ChunkType::Verse {
            short_title: "Alma".to_string(),
            verse: "Behold, he changed\ntheir hearts.".to_string(),
            verse_num: 7,
        }
    );
    assert_eq!(
        ChunkType::new("Alma 5:7\n 7 too short"),
        ChunkType::BookDescription
    );
    assert_eq!(ChunkType::new(""), ChunkType::BookDescription);
}

#[test]
fn title_needs_one_line_in_upper_case() {
    assert!(ChunkType::is_title("ALMA", "ALMA"));
    assert!(!ChunkType::is_title("Alma", "ALMA"));
    assert!(!ChunkType::is_title("AL\nMA", "AL\nMA"));
    assert!(ChunkType::is_title("ALMA\n", "ALMA\n"));
    assert!(!ChunkType::is_title("", ""));
}

#[test]
fn verse_parts_decide_the_chunk() {
    let some = |s: &str| Some(s.to_string());
    assert_eq!(
        ChunkType::from_verse_parts(some("Alma"), some("12"), some("text")),
        ChunkType::Verse { short_title: "Alma".to_string(), verse: "text".to_string(), verse_num: 12 }
    );
    assert_eq!(
        ChunkType::from_verse_parts(some("Alma"), some("x"), some("text")),
        ChunkType::Unrecognized
    );
    assert_eq!(
        ChunkType::from_verse_parts(some("Alma"), some(" 1"), some("text")),
        ChunkType::Unrecognized
    );
    assert_eq!(
        ChunkType::from_verse_parts(None, some("1"), some("text")),
        ChunkType::BookDescription
    );
    assert_eq!(
        ChunkType::from_verse_parts(some("Alma"), None, some("text")),
        ChunkType::BookDescription
    );
    assert_eq!(
        ChunkType::from_verse_parts(some("Alma"), some("1"), None),
        ChunkType::BookDescription
    );
}

#[test]
fn a_fault_leaves_the_books_alone() {
    let mut bom = reference_bom();
    let before = bom.verses().len();
    let block = "Alma 63:19\n 19 And thus ended the account of Alma.";
    let previous = ChunkType::ChapterStart;
    assert!(update_book_with_chunk(block, &previous, &mut bom).is_err());
    assert_eq!(bom.verses().len(), before);
    assert_eq!(bom.books[8].chapters.len(), 63);
    let block = "Alma 63:18\n 18 And thus ended the account of Alma.";
    assert!(update_book_with_chunk(block, &previous, &mut bom).is_ok());
    assert_eq!(bom.verses().len(), before + 1);
}

#[test]
fn verse_as_html() {
    let bom = reference_bom();
    let reference = VerseReference::new(Work::BookOfMormon, 0, 2, 15);
    let verse = bom.verse_matching(&reference).unwrap();
    assert_eq!(
        verse.to_html_string(),
        "<h3><a href=\"https://www.churchofjesuschrist.org/study/scriptures/bofm/1-ne/2?lang=eng&id=p15-p15#p15\">1 Nephi 2:15</a></h3> <p>And my father dwelt in a tent.</p>"
    );
}

#[test]
fn long_title_stands_in_for_a_missing_short_title() {
    let bom = small_bom(vec![Book {
        title: "Testing".to_string(),
        short_title: None,
        description: None,
        chapters: vec![Chapter { verses: vec![hello()] }],
    }]);
    let verse = bom.verse_matching(&VerseReference::default()).unwrap();
    assert_eq!(verse.to_plain_string(), "Testing 1:1\nhello");
}

#[test]
fn expansion_follows_the_clauses() {
    let bom = reference_bom();
    let parsed = RangeCollection::new("1 Nephi 5:21-22; 2 Nephi 1-2; Alma 63:18; Enos 1:2").unwrap();
    let refs = parsed.verse_refs(&bom);
    assert_eq!(
        refs,
        vec![
            VerseReference::new(Work::BookOfMormon, 0, 5, 21),
            VerseReference::new(Work::BookOfMormon, 0, 5, 22),
            VerseReference::new(Work::BookOfMormon, 1, 1, 1),
            VerseReference::new(Work::BookOfMormon, 1, 1, 2),
            VerseReference::new(Work::BookOfMormon, 1, 2, 1),
            VerseReference::new(Work::BookOfMormon, 3, 1, 2),
        ]
    );
    let verses = bom.verses_matching(&parsed);
    assert_eq!(verses.len(), refs.len());
    for (verse, reference) in verses.iter().zip(refs.iter()) {
        assert_eq!(&verse.reference, reference);
    }
}

#[test]
fn lib_verse_matching_bad_reference() {
    let bom = Parser::new(&reference_text()).parse().unwrap();
    let reference = VerseReference::new(Work::BookOfMormon, 1, 0, 0);

    assert_eq!(bom.verse_matching(&reference), None);
}

#[test]
fn lib_verse_matching_good_reference() {
    let bom = Parser::new(&reference_text()).parse().unwrap();
    let reference = VerseReference::new(Work::BookOfMormon, 0, 2, 15);

    assert_eq!(
        bom.verse_matching(&reference),
        Some(VerseWithReference {
            book_title: "1 Nephi".to_string(),
            reference: reference.clone(),
            text: "And my father dwelt in a tent.",
        })
    );
}

#[test]
fn lib_verses_matching_bad_reference() {
    let bom = Parser::new(&reference_text()).parse().unwrap();
    let reference = RangeCollection::new("1 Nephi 0: 1").unwrap();
    assert_eq!(bom.verses_matching(&reference).len(), 0);
    assert_eq!(reference.verse_refs(&bom).len(), 0);
}

#[test]
fn lib_verses_matching_good_reference_verse_ranges() {
    let bom = Parser::new(&reference_text()).parse().unwrap();
    let reference = RangeCollection::new("1 Nephi 3: 3-5");

    assert!(reference.is_ok());
    let reference = reference.unwrap();
    let verses: Vec<VerseWithReference> = bom.verses_matching(&reference);
    assert_eq!(verses.len(), 3);
    assert_eq!(
        verses,
        vec![
            VerseWithReference {
                book_title: "1 Nephi".to_string(),
                reference: VerseReference::new(Work::BookOfMormon, 0, 3, 3),
                text: "For behold, Laban hath the record of the Jews and also a \
                genealogy of my forefathers, and they are engraven upon plates of \
                brass.",
            },
            VerseWithReference {
                book_title: "1 Nephi".to_string(),
                reference: VerseReference::new(Work::BookOfMormon, 0, 3, 4),
                text: "Wherefore, the Lord hath commanded me that thou and thy \
                brothers should go unto the house of Laban, and seek the records, \
                and bring them down hither into the wilderness.",
            },
            VerseWithReference {
                book_title: "1 Nephi".to_string(),
                reference: VerseReference::new(Work::BookOfMormon, 0, 3, 5),
                text: "And now, behold thy brothers murmur, saying it is a hard thing \
                which I have required of them; but behold I have not required it \
                of them, but it is a commandment of the Lord.",
            }
        ]
    );
}

#[test]
fn lib_verses_matching_good_reference_chapter_ranges() {
    let bom = Parser::new(&reference_text()).parse().unwrap();
    let reference = RangeCollection::new("1 Nephi 3-5");

    assert!(reference.is_ok());
    let reference = reference.unwrap();
    let verses: Vec<VerseWithReference> = bom.verses_matching(&reference);
    assert_eq!(verses.len(), 91);
    assert_eq!(
        verses.first().unwrap(),
        &VerseWithReference {
            book_title: "1 Nephi".to_string(),
            reference: VerseReference::new(Work::BookOfMormon, 0, 3, 1),
            text: "And it came to pass that I, Nephi, returned from speaking with \
            the Lord, to the tent of my father.",
        }
    );
}
