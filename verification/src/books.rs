//! The table of books that a citation can name.

use vstd::prelude::*;
use crate::reference::Work;
use crate::text::{chars_of, same_text};

verus! {

/// What is known of one book: the work it belongs to, its names and its
/// position in that work.
#[derive(Debug, Clone, Copy)]
pub struct BookData {
    pub work: Work,
    pub long_name: &'static str,
    pub short_name: &'static str,
    pub url_name: &'static str,
    pub book_index: usize,
}

impl BookData {
    pub fn new(
        work: Work,
        long_name: &'static str,
        short_name: &'static str,
        url_name: &'static str,
        book_index: usize,
    ) -> (r: BookData)
        ensures
            r == (BookData { work, long_name, short_name, url_name, book_index }),
    {
        BookData { work, long_name, short_name, url_name, book_index }
    }
}

/// Number of rows in the table.
pub const BOOK_TABLE_LEN: usize = 81;

/// Number of books in `work`.
pub open spec fn book_count(work: Work) -> nat {
    match work {
        Work::OldTestament => 39,
        Work::NewTestament => 27,
        Work::BookOfMormon => 15,
    }
}

/// Row of the table at which the books of `work` begin.
pub open spec fn first_row(work: Work) -> nat {
    match work {
        Work::OldTestament => 0,
        Work::NewTestament => 39,
        Work::BookOfMormon => 66,
    }
}

/// Whether `work` has a book at position `book_index`.
pub open spec fn known_book(work: Work, book_index: usize) -> bool {
    book_index < book_count(work)
}

/// Rows 0 to 8 of the table.
pub open spec fn rows_from_0(k: int) -> BookData {
    if k == 0 {
        BookData { work: Work::OldTestament, long_name: "Genesis", short_name: "Gen.", url_name: "gen", book_index: 0 }
    } else if k == 1 {
        BookData { work: Work::OldTestament, long_name: "Exodus", short_name: "Ex.", url_name: "ex", book_index: 1 }
    } else if k == 2 {
        BookData { work: Work::OldTestament, long_name: "Leviticus", short_name: "Lev.", url_name: "lev", book_index: 2 }
    } else if k == 3 {
        BookData { work: Work::OldTestament, long_name: "Numbers", short_name: "Num.", url_name: "num", book_index: 3 }
    } else if k == 4 {
        BookData { work: Work::OldTestament, long_name: "Deuteronomy", short_name: "Deut.", url_name: "deut", book_index: 4 }
    } else if k == 5 {
        BookData { work: Work::OldTestament, long_name: "Joshua", short_name: "Josh.", url_name: "josh", book_index: 5 }
    } else if k == 6 {
        BookData { work: Work::OldTestament, long_name: "Judges", short_name: "Judg.", url_name: "judg", book_index: 6 }
    } else if k == 7 {
        BookData { work: Work::OldTestament, long_name: "Ruth", short_name: "Ruth", url_name: "ruth", book_index: 7 }
    } else {
        BookData { work: Work::OldTestament, long_name: "1 Samuel", short_name: "1 Sam.", url_name: "1-sam", book_index: 8 }
    }
}

fn read_rows_from_0(k: usize) -> (r: BookData)
    requires
        0 <= k <= 8,
    ensures
        r == rows_from_0(k as int),
{
    match k {
        0 => BookData::new(Work::OldTestament, "Genesis", "Gen.", "gen", 0),
        1 => BookData::new(Work::OldTestament, "Exodus", "Ex.", "ex", 1),
        2 => BookData::new(Work::OldTestament, "Leviticus", "Lev.", "lev", 2),
        3 => BookData::new(Work::OldTestament, "Numbers", "Num.", "num", 3),
        4 => BookData::new(Work::OldTestament, "Deuteronomy", "Deut.", "deut", 4),
        5 => BookData::new(Work::OldTestament, "Joshua", "Josh.", "josh", 5),
        6 => BookData::new(Work::OldTestament, "Judges", "Judg.", "judg", 6),
        7 => BookData::new(Work::OldTestament, "Ruth", "Ruth", "ruth", 7),
        _ => BookData::new(Work::OldTestament, "1 Samuel", "1 Sam.", "1-sam", 8),
    }
}

/// Rows 9 to 17 of the table.
pub open spec fn rows_from_9(k: int) -> BookData {
    if k == 9 {
        BookData { work: Work::OldTestament, long_name: "2 Samuel", short_name: "2 Sam.", url_name: "2-sam", book_index: 9 }
    } else if k == 10 {
        BookData { work: Work::OldTestament, long_name: "1 Kings", short_name: "1 Kgs.", url_name: "1-kgs", book_index: 10 }
    } else if k == 11 {
        BookData { work: Work::OldTestament, long_name: "2 Kings", short_name: "2 Kgs.", url_name: "2-kgs", book_index: 11 }
    } else if k == 12 {
        BookData { work: Work::OldTestament, long_name: "1 Chronicles", short_name: "1 Chron.", url_name: "1-chron", book_index: 12 }
    } else if k == 13 {
        BookData { work: Work::OldTestament, long_name: "2 Chronicles", short_name: "2 Chron.", url_name: "2-chron", book_index: 13 }
    } else if k == 14 {
        BookData { work: Work::OldTestament, long_name: "Ezra", short_name: "Ezra", url_name: "ezra", book_index: 14 }
    } else if k == 15 {
        BookData { work: Work::OldTestament, long_name: "Nehemiah", short_name: "Neh.", url_name: "neh", book_index: 15 }
    } else if k == 16 {
        BookData { work: Work::OldTestament, long_name: "Esther", short_name: "Esth.", url_name: "esth", book_index: 16 }
    } else {
        BookData { work: Work::OldTestament, long_name: "Job", short_name: "Job", url_name: "job", book_index: 17 }
    }
}

fn read_rows_from_9(k: usize) -> (r: BookData)
    requires
        9 <= k <= 17,
    ensures
        r == rows_from_9(k as int),
{
    match k {
        9 => BookData::new(Work::OldTestament, "2 Samuel", "2 Sam.", "2-sam", 9),
        10 => BookData::new(Work::OldTestament, "1 Kings", "1 Kgs.", "1-kgs", 10),
        11 => BookData::new(Work::OldTestament, "2 Kings", "2 Kgs.", "2-kgs", 11),
        12 => BookData::new(Work::OldTestament, "1 Chronicles", "1 Chron.", "1-chron", 12),
        13 => BookData::new(Work::OldTestament, "2 Chronicles", "2 Chron.", "2-chron", 13),
        14 => BookData::new(Work::OldTestament, "Ezra", "Ezra", "ezra", 14),
        15 => BookData::new(Work::OldTestament, "Nehemiah", "Neh.", "neh", 15),
        16 => BookData::new(Work::OldTestament, "Esther", "Esth.", "esth", 16),
        _ => BookData::new(Work::OldTestament, "Job", "Job", "job", 17),
    }
}

/// Rows 18 to 26 of the table.
pub open spec fn rows_from_18(k: int) -> BookData {
    if k == 18 {
        BookData { work: Work::OldTestament, long_name: "Psalms", short_name: "Ps.", url_name: "ps", book_index: 18 }
    } else if k == 19 {
        BookData { work: Work::OldTestament, long_name: "Proverbs", short_name: "Prov.", url_name: "prov", book_index: 19 }
    } else if k == 20 {
        BookData { work: Work::OldTestament, long_name: "Ecclesiastes", short_name: "Eccl.", url_name: "eccl", book_index: 20 }
    } else if k == 21 {
        BookData { work: Work::OldTestament, long_name: "Song of Solomon", short_name: "Song.", url_name: "song", book_index: 21 }
    } else if k == 22 {
        BookData { work: Work::OldTestament, long_name: "Isaiah", short_name: "Isa.", url_name: "isa", book_index: 22 }
    } else if k == 23 {
        BookData { work: Work::OldTestament, long_name: "Jeremiah", short_name: "Jer.", url_name: "jer", book_index: 23 }
    } else if k == 24 {
        BookData { work: Work::OldTestament, long_name: "Lamentations", short_name: "Lam.", url_name: "lam", book_index: 24 }
    } else if k == 25 {
        BookData { work: Work::OldTestament, long_name: "Ezekiel", short_name: "Ezek.", url_name: "ezek", book_index: 25 }
    } else {
        BookData { work: Work::OldTestament, long_name: "Daniel", short_name: "Dan.", url_name: "dan", book_index: 26 }
    }
}

fn read_rows_from_18(k: usize) -> (r: BookData)
    requires
        18 <= k <= 26,
    ensures
        r == rows_from_18(k as int),
{
    match k {
        18 => BookData::new(Work::OldTestament, "Psalms", "Ps.", "ps", 18),
        19 => BookData::new(Work::OldTestament, "Proverbs", "Prov.", "prov", 19),
        20 => BookData::new(Work::OldTestament, "Ecclesiastes", "Eccl.", "eccl", 20),
        21 => BookData::new(Work::OldTestament, "Song of Solomon", "Song.", "song", 21),
        22 => BookData::new(Work::OldTestament, "Isaiah", "Isa.", "isa", 22),
        23 => BookData::new(Work::OldTestament, "Jeremiah", "Jer.", "jer", 23),
        24 => BookData::new(Work::OldTestament, "Lamentations", "Lam.", "lam", 24),
        25 => BookData::new(Work::OldTestament, "Ezekiel", "Ezek.", "ezek", 25),
        _ => BookData::new(Work::OldTestament, "Daniel", "Dan.", "dan", 26),
    }
}

/// Rows 27 to 35 of the table.
pub open spec fn rows_from_27(k: int) -> BookData {
    if k == 27 {
        BookData { work: Work::OldTestament, long_name: "Hosea", short_name: "Hosea", url_name: "hosea", book_index: 27 }
    } else if k == 28 {
        BookData { work: Work::OldTestament, long_name: "Joel", short_name: "Joel", url_name: "joel", book_index: 28 }
    } else if k == 29 {
        BookData { work: Work::OldTestament, long_name: "Amos", short_name: "Amos", url_name: "amos", book_index: 29 }
    } else if k == 30 {
        BookData { work: Work::OldTestament, long_name: "Obadiah", short_name: "Obad.", url_name: "obad", book_index: 30 }
    } else if k == 31 {
        BookData { work: Work::OldTestament, long_name: "Jonah", short_name: "Jonah", url_name: "jonah", book_index: 31 }
    } else if k == 32 {
        BookData { work: Work::OldTestament, long_name: "Micah", short_name: "Micah", url_name: "micah", book_index: 32 }
    } else if k == 33 {
        BookData { work: Work::OldTestament, long_name: "Nahum", short_name: "Nahum", url_name: "nahum", book_index: 33 }
    } else if k == 34 {
        BookData { work: Work::OldTestament, long_name: "Habakkuk", short_name: "Hab.", url_name: "hab", book_index: 34 }
    } else {
        BookData { work: Work::OldTestament, long_name: "Zephaniah", short_name: "Zeph.", url_name: "zeph", book_index: 35 }
    }
}

fn read_rows_from_27(k: usize) -> (r: BookData)
    requires
        27 <= k <= 35,
    ensures
        r == rows_from_27(k as int),
{
    match k {
        27 => BookData::new(Work::OldTestament, "Hosea", "Hosea", "hosea", 27),
        28 => BookData::new(Work::OldTestament, "Joel", "Joel", "joel", 28),
        29 => BookData::new(Work::OldTestament, "Amos", "Amos", "amos", 29),
        30 => BookData::new(Work::OldTestament, "Obadiah", "Obad.", "obad", 30),
        31 => BookData::new(Work::OldTestament, "Jonah", "Jonah", "jonah", 31),
        32 => BookData::new(Work::OldTestament, "Micah", "Micah", "micah", 32),
        33 => BookData::new(Work::OldTestament, "Nahum", "Nahum", "nahum", 33),
        34 => BookData::new(Work::OldTestament, "Habakkuk", "Hab.", "hab", 34),
        _ => BookData::new(Work::OldTestament, "Zephaniah", "Zeph.", "zeph", 35),
    }
}

/// Rows 36 to 44 of the table.
pub open spec fn rows_from_36(k: int) -> BookData {
    if k == 36 {
        BookData { work: Work::OldTestament, long_name: "Haggai", short_name: "Hag.", url_name: "hag", book_index: 36 }
    } else if k == 37 {
        BookData { work: Work::OldTestament, long_name: "Zechariah", short_name: "Zech.", url_name: "zech", book_index: 37 }
    } else if k == 38 {
        BookData { work: Work::OldTestament, long_name: "Malachi", short_name: "Mal.", url_name: "mal", book_index: 38 }
    } else if k == 39 {
        BookData { work: Work::NewTestament, long_name: "Matthew", short_name: "Matt.", url_name: "matt", book_index: 0 }
    } else if k == 40 {
        BookData { work: Work::NewTestament, long_name: "Mark", short_name: "Mark", url_name: "mark", book_index: 1 }
    } else if k == 41 {
        BookData { work: Work::NewTestament, long_name: "Luke", short_name: "Luke", url_name: "luke", book_index: 2 }
    } else if k == 42 {
        BookData { work: Work::NewTestament, long_name: "John", short_name: "John", url_name: "john", book_index: 3 }
    } else if k == 43 {
        BookData { work: Work::NewTestament, long_name: "Acts", short_name: "Acts", url_name: "acts", book_index: 4 }
    } else {
        BookData { work: Work::NewTestament, long_name: "Romans", short_name: "Rom.", url_name: "rom", book_index: 5 }
    }
}

fn read_rows_from_36(k: usize) -> (r: BookData)
    requires
        36 <= k <= 44,
    ensures
        r == rows_from_36(k as int),
{
    match k {
        36 => BookData::new(Work::OldTestament, "Haggai", "Hag.", "hag", 36),
        37 => BookData::new(Work::OldTestament, "Zechariah", "Zech.", "zech", 37),
        38 => BookData::new(Work::OldTestament, "Malachi", "Mal.", "mal", 38),
        39 => BookData::new(Work::NewTestament, "Matthew", "Matt.", "matt", 0),
        40 => BookData::new(Work::NewTestament, "Mark", "Mark", "mark", 1),
        41 => BookData::new(Work::NewTestament, "Luke", "Luke", "luke", 2),
        42 => BookData::new(Work::NewTestament, "John", "John", "john", 3),
        43 => BookData::new(Work::NewTestament, "Acts", "Acts", "acts", 4),
        _ => BookData::new(Work::NewTestament, "Romans", "Rom.", "rom", 5),
    }
}

/// Rows 45 to 53 of the table.
pub open spec fn rows_from_45(k: int) -> BookData {
    if k == 45 {
        BookData { work: Work::NewTestament, long_name: "1 Corinthians", short_name: "1 Cor.", url_name: "1-cor", book_index: 6 }
    } else if k == 46 {
        BookData { work: Work::NewTestament, long_name: "2 Corinthians", short_name: "2 Cor.", url_name: "2-cor", book_index: 7 }
    } else if k == 47 {
        BookData { work: Work::NewTestament, long_name: "Galatians", short_name: "Gal.", url_name: "gal", book_index: 8 }
    } else if k == 48 {
        BookData { work: Work::NewTestament, long_name: "Ephesians", short_name: "Eph.", url_name: "eph", book_index: 9 }
    } else if k == 49 {
        BookData { work: Work::NewTestament, long_name: "Philippians", short_name: "Philip.", url_name: "philip", book_index: 10 }
    } else if k == 50 {
        BookData { work: Work::NewTestament, long_name: "Colossians", short_name: "Col.", url_name: "col", book_index: 11 }
    } else if k == 51 {
        BookData { work: Work::NewTestament, long_name: "1 Thessalonians", short_name: "1 Thes.", url_name: "1-thes", book_index: 12 }
    } else if k == 52 {
        BookData { work: Work::NewTestament, long_name: "2 Thessalonians", short_name: "2 Thes.", url_name: "2-thes", book_index: 13 }
    } else {
        BookData { work: Work::NewTestament, long_name: "1 Timothy", short_name: "1 Tim.", url_name: "1-tim", book_index: 14 }
    }
}

fn read_rows_from_45(k: usize) -> (r: BookData)
    requires
        45 <= k <= 53,
    ensures
        r == rows_from_45(k as int),
{
    match k {
        45 => BookData::new(Work::NewTestament, "1 Corinthians", "1 Cor.", "1-cor", 6),
        46 => BookData::new(Work::NewTestament, "2 Corinthians", "2 Cor.", "2-cor", 7),
        47 => BookData::new(Work::NewTestament, "Galatians", "Gal.", "gal", 8),
        48 => BookData::new(Work::NewTestament, "Ephesians", "Eph.", "eph", 9),
        49 => BookData::new(Work::NewTestament, "Philippians", "Philip.", "philip", 10),
        50 => BookData::new(Work::NewTestament, "Colossians", "Col.", "col", 11),
        51 => BookData::new(Work::NewTestament, "1 Thessalonians", "1 Thes.", "1-thes", 12),
        52 => BookData::new(Work::NewTestament, "2 Thessalonians", "2 Thes.", "2-thes", 13),
        _ => BookData::new(Work::NewTestament, "1 Timothy", "1 Tim.", "1-tim", 14),
    }
}

/// Rows 54 to 62 of the table.
pub open spec fn rows_from_54(k: int) -> BookData {
    if k == 54 {
        BookData { work: Work::NewTestament, long_name: "2 Timothy", short_name: "2 Tim.", url_name: "2-tim", book_index: 15 }
    } else if k == 55 {
        BookData { work: Work::NewTestament, long_name: "Titus", short_name: "Titus", url_name: "titus", book_index: 16 }
    } else if k == 56 {
        BookData { work: Work::NewTestament, long_name: "Philemon", short_name: "Philem.", url_name: "philem", book_index: 17 }
    } else if k == 57 {
        BookData { work: Work::NewTestament, long_name: "Hebrews", short_name: "Heb.", url_name: "heb", book_index: 18 }
    } else if k == 58 {
        BookData { work: Work::NewTestament, long_name: "James", short_name: "James", url_name: "james", book_index: 19 }
    } else if k == 59 {
        BookData { work: Work::NewTestament, long_name: "1 Peter", short_name: "1 Pet.", url_name: "1-pet", book_index: 20 }
    } else if k == 60 {
        BookData { work: Work::NewTestament, long_name: "2 Peter", short_name: "2 Pet.", url_name: "2-pet", book_index: 21 }
    } else if k == 61 {
        BookData { work: Work::NewTestament, long_name: "1 John", short_name: "1 Jn.", url_name: "1-jn", book_index: 22 }
    } else {
        BookData { work: Work::NewTestament, long_name: "2 John", short_name: "2 Jn.", url_name: "2-jn", book_index: 23 }
    }
}

fn read_rows_from_54(k: usize) -> (r: BookData)
    requires
        54 <= k <= 62,
    ensures
        r == rows_from_54(k as int),
{
    match k {
        54 => BookData::new(Work::NewTestament, "2 Timothy", "2 Tim.", "2-tim", 15),
        55 => BookData::new(Work::NewTestament, "Titus", "Titus", "titus", 16),
        56 => BookData::new(Work::NewTestament, "Philemon", "Philem.", "philem", 17),
        57 => BookData::new(Work::NewTestament, "Hebrews", "Heb.", "heb", 18),
        58 => BookData::new(Work::NewTestament, "James", "James", "james", 19),
        59 => BookData::new(Work::NewTestament, "1 Peter", "1 Pet.", "1-pet", 20),
        60 => BookData::new(Work::NewTestament, "2 Peter", "2 Pet.", "2-pet", 21),
        61 => BookData::new(Work::NewTestament, "1 John", "1 Jn.", "1-jn", 22),
        _ => BookData::new(Work::NewTestament, "2 John", "2 Jn.", "2-jn", 23),
    }
}

/// Rows 63 to 71 of the table.
pub open spec fn rows_from_63(k: int) -> BookData {
    if k == 63 {
        BookData { work: Work::NewTestament, long_name: "3 John", short_name: "3 Jn.", url_name: "3-jn", book_index: 24 }
    } else if k == 64 {
        BookData { work: Work::NewTestament, long_name: "Jude", short_name: "Jude", url_name: "jude", book_index: 25 }
    } else if k == 65 {
        BookData { work: Work::NewTestament, long_name: "Revelation", short_name: "Rev.", url_name: "rev", book_index: 26 }
    } else if k == 66 {
        BookData { work: Work::BookOfMormon, long_name: "1 Nephi", short_name: "1 Ne.", url_name: "1-ne", book_index: 0 }
    } else if k == 67 {
        BookData { work: Work::BookOfMormon, long_name: "2 Nephi", short_name: "2 Ne.", url_name: "2-ne", book_index: 1 }
    } else if k == 68 {
        BookData { work: Work::BookOfMormon, long_name: "Jacob", short_name: "Jacob", url_name: "jacob", book_index: 2 }
    } else if k == 69 {
        BookData { work: Work::BookOfMormon, long_name: "Enos", short_name: "Enos", url_name: "enos", book_index: 3 }
    } else if k == 70 {
        BookData { work: Work::BookOfMormon, long_name: "Jarom", short_name: "Jarom", url_name: "jarom", book_index: 4 }
    } else {
        BookData { work: Work::BookOfMormon, long_name: "Omni", short_name: "Omni", url_name: "omni", book_index: 5 }
    }
}

fn read_rows_from_63(k: usize) -> (r: BookData)
    requires
        63 <= k <= 71,
    ensures
        r == rows_from_63(k as int),
{
    match k {
        63 => BookData::new(Work::NewTestament, "3 John", "3 Jn.", "3-jn", 24),
        64 => BookData::new(Work::NewTestament, "Jude", "Jude", "jude", 25),
        65 => BookData::new(Work::NewTestament, "Revelation", "Rev.", "rev", 26),
        66 => BookData::new(Work::BookOfMormon, "1 Nephi", "1 Ne.", "1-ne", 0),
        67 => BookData::new(Work::BookOfMormon, "2 Nephi", "2 Ne.", "2-ne", 1),
        68 => BookData::new(Work::BookOfMormon, "Jacob", "Jacob", "jacob", 2),
        69 => BookData::new(Work::BookOfMormon, "Enos", "Enos", "enos", 3),
        70 => BookData::new(Work::BookOfMormon, "Jarom", "Jarom", "jarom", 4),
        _ => BookData::new(Work::BookOfMormon, "Omni", "Omni", "omni", 5),
    }
}

/// Rows 72 to 80 of the table.
pub open spec fn rows_from_72(k: int) -> BookData {
    if k == 72 {
        BookData { work: Work::BookOfMormon, long_name: "Words of Mormon", short_name: "W of M", url_name: "w-of-m", book_index: 6 }
    } else if k == 73 {
        BookData { work: Work::BookOfMormon, long_name: "Mosiah", short_name: "Mosiah", url_name: "mosiah", book_index: 7 }
    } else if k == 74 {
        BookData { work: Work::BookOfMormon, long_name: "Alma", short_name: "Alma", url_name: "alma", book_index: 8 }
    } else if k == 75 {
        BookData { work: Work::BookOfMormon, long_name: "Helaman", short_name: "Hel.", url_name: "hel", book_index: 9 }
    } else if k == 76 {
        BookData { work: Work::BookOfMormon, long_name: "3 Nephi", short_name: "3 Ne.", url_name: "3-ne", book_index: 10 }
    } else if k == 77 {
        BookData { work: Work::BookOfMormon, long_name: "4 Nephi", short_name: "4 Ne.", url_name: "4-ne", book_index: 11 }
    } else if k == 78 {
        BookData { work: Work::BookOfMormon, long_name: "Mormon", short_name: "Morm.", url_name: "morm", book_index: 12 }
    } else if k == 79 {
        BookData { work: Work::BookOfMormon, long_name: "Ether", short_name: "Ether", url_name: "ether", book_index: 13 }
    } else {
        BookData { work: Work::BookOfMormon, long_name: "Moroni", short_name: "Moro.", url_name: "moro", book_index: 14 }
    }
}

fn read_rows_from_72(k: usize) -> (r: BookData)
    requires
        72 <= k <= 80,
    ensures
        r == rows_from_72(k as int),
{
    match k {
        72 => BookData::new(Work::BookOfMormon, "Words of Mormon", "W of M", "w-of-m", 6),
        73 => BookData::new(Work::BookOfMormon, "Mosiah", "Mosiah", "mosiah", 7),
        74 => BookData::new(Work::BookOfMormon, "Alma", "Alma", "alma", 8),
        75 => BookData::new(Work::BookOfMormon, "Helaman", "Hel.", "hel", 9),
        76 => BookData::new(Work::BookOfMormon, "3 Nephi", "3 Ne.", "3-ne", 10),
        77 => BookData::new(Work::BookOfMormon, "4 Nephi", "4 Ne.", "4-ne", 11),
        78 => BookData::new(Work::BookOfMormon, "Mormon", "Morm.", "morm", 12),
        79 => BookData::new(Work::BookOfMormon, "Ether", "Ether", "ether", 13),
        _ => BookData::new(Work::BookOfMormon, "Moroni", "Moro.", "moro", 14),
    }
}

/// Row `k` of the table: the works in turn, and the books of each in their order.
pub open spec fn book_row(k: int) -> BookData {
    if k <= 8 {
        rows_from_0(k)
    } else if k <= 17 {
        rows_from_9(k)
    } else if k <= 26 {
        rows_from_18(k)
    } else if k <= 35 {
        rows_from_27(k)
    } else if k <= 44 {
        rows_from_36(k)
    } else if k <= 53 {
        rows_from_45(k)
    } else if k <= 62 {
        rows_from_54(k)
    } else if k <= 71 {
        rows_from_63(k)
    } else {
        rows_from_72(k)
    }
}

/// Reads row `k` of the table.
pub fn book_at(k: usize) -> (r: BookData)
    requires
        k < BOOK_TABLE_LEN,
    ensures
        r == book_row(k as int),
{
    if k <= 8 {
        read_rows_from_0(k)
    } else if k <= 17 {
        read_rows_from_9(k)
    } else if k <= 26 {
        read_rows_from_18(k)
    } else if k <= 35 {
        read_rows_from_27(k)
    } else if k <= 44 {
        read_rows_from_36(k)
    } else if k <= 53 {
        read_rows_from_45(k)
    } else if k <= 62 {
        read_rows_from_54(k)
    } else if k <= 71 {
        read_rows_from_63(k)
    } else {
        read_rows_from_72(k)
    }
}

/// The rows are laid out work by work: row `first_row(work) + i` describes book
/// `i` of `work`.
pub proof fn lemma_table_layout(work: Work, book_index: usize)
    requires
        known_book(work, book_index),
    ensures
        first_row(work) + book_index < BOOK_TABLE_LEN,
        book_row(first_row(work) + book_index).work == work,
        book_row(first_row(work) + book_index).book_index == book_index,
{
}

/// Every row describes a book that its work has.
pub proof fn lemma_rows_are_known(k: int)
    requires
        0 <= k < BOOK_TABLE_LEN,
    ensures
        known_book(book_row(k).work, book_row(k).book_index),
        first_row(book_row(k).work) + book_row(k).book_index == k,
{
}

/// The row that describes book `book_index` of `work`, if the work has such a book.
pub fn find_book(work: Work, book_index: usize) -> (r: Option<BookData>)
    ensures
        r is Some == known_book(work, book_index),
        r matches Some(b) ==> b == book_row(first_row(work) + book_index) && b.work == work
            && b.book_index == book_index,
{
    let (first, count): (usize, usize) = match work {
        Work::OldTestament => (0, 39),
        Work::NewTestament => (39, 27),
        Work::BookOfMormon => (66, 15),
    };
    if book_index < count {
        proof {
            lemma_table_layout(work, book_index);
        }
        Some(book_at(first + book_index))
    } else {
        None
    }
}

/// Whether `name` is the long or the short name of row `k`.
pub open spec fn row_is_named(k: int, name: Seq<char>) -> bool {
    book_row(k).long_name@ == name || book_row(k).short_name@ == name
}

/// The first row at or behind row `from` that `name` names.
pub open spec fn first_named_row_from(name: Seq<char>, from: int) -> Option<int>
    decreases BOOK_TABLE_LEN - from,
{
    if from < 0 || from >= BOOK_TABLE_LEN {
        None
    } else if row_is_named(from, name) {
        Some(from)
    } else {
        first_named_row_from(name, from + 1)
    }
}

/// The first row of the table that `name` names. The match is exact and
/// minds case.
pub open spec fn first_named_row(name: Seq<char>) -> Option<int> {
    first_named_row_from(name, 0)
}

/// A row that is found lies in the table and bears the name.
pub proof fn lemma_first_named_row(name: Seq<char>, from: int)
    requires
        0 <= from,
    ensures
        first_named_row_from(name, from) matches Some(k) ==> from <= k < BOOK_TABLE_LEN
            && row_is_named(k, name),
    decreases BOOK_TABLE_LEN - from,
{
    if from < BOOK_TABLE_LEN && !row_is_named(from, name) {
        lemma_first_named_row(name, from + 1);
    }
}

/// The first row of the table that `name` names, if there is one.
pub fn book_data_from_candidate_title(name: &[char]) -> (r: Option<BookData>)
    ensures
        match r {
            Some(b) => first_named_row(name@) matches Some(k) && b == book_row(k),
            None => first_named_row(name@) is None,
        },
{
    let mut k: usize = 0;
    while k < BOOK_TABLE_LEN
        invariant
            k <= BOOK_TABLE_LEN,
            first_named_row(name@) == first_named_row_from(name@, k as int),
        decreases BOOK_TABLE_LEN - k,
    {
        let row = book_at(k);
        let long_name = chars_of(row.long_name);
        let short_name = chars_of(row.short_name);
        if same_text(long_name.as_slice(), name) || same_text(short_name.as_slice(), name) {
            return Some(row);
        }
        k += 1;
    }
    None
}

impl Work {
    /// The name of the work as it stands in a link.
    pub open spec fn url_text(&self) -> Seq<char> {
        match *self {
            Work::OldTestament => "ot"@,
            Work::NewTestament => "nt"@,
            Work::BookOfMormon => "bofm"@,
        }
    }

    pub fn url_name(&self) -> (r: &'static str)
        ensures
            r@ == self.url_text(),
    {
        match self {
            Self::OldTestament => "ot",
            Self::NewTestament => "nt",
            Self::BookOfMormon => "bofm",
        }
    }
}

proof fn lemma_first_named_row_skips(name: Seq<char>, from: int, k: int)
    requires
        0 <= from <= k < BOOK_TABLE_LEN,
        forall|j: int| from <= j < k ==> !(#[trigger] row_is_named(j, name)),
        row_is_named(k, name),
    ensures
        first_named_row_from(name, from) == Some(k),
    decreases k - from,
{
    if from < k {
        assert(!row_is_named(from, name));
        lemma_first_named_row_skips(name, from + 1, k);
    }
}

/// Looking a book up under its short name finds that very book.
pub proof fn lemma_short_name_names_its_row(k: int)
    requires
        0 <= k < BOOK_TABLE_LEN,
    ensures
        first_named_row(book_row(k).short_name@) == Some(k),
        plain_name(book_row(k).short_name@),
{
    lemma_table_spelled_out();
    assert(plain_name(book_row(k).short_name@));
    lemma_first_named_row_skips(book_row(k).short_name@, 0, k);
}

/// Whether `c` may stand in a book name: a letter, a digit, a space or a
/// full stop.
pub open spec fn is_name_char(c: char) -> bool {
    let n = c as u32;
    ||| 0x41 <= n <= 0x5A
    ||| 0x61 <= n <= 0x7A
    ||| 0x30 <= n <= 0x39
    ||| n == 0x20
    ||| n == 0x2E
}

/// Whether `name` is made of name characters and neither begins nor ends
/// with a space.
pub open spec fn plain_name(name: Seq<char>) -> bool {
    &&& name.len() > 0
    &&& forall|i: int| 0 <= i < name.len() ==> is_name_char(#[trigger] name[i])
    &&& name[0] != ' '
    &&& name.last() != ' '
}

/// The character of `name` at position `i`, as a number; `-1` where `name`
/// is too short.
pub open spec fn letter_at(name: Seq<char>, i: int) -> int {
    if 0 <= i < name.len() {
        name[i] as int
    } else {
        -1
    }
}

/// The length of `name` and its first five characters.
pub open spec fn initials(name: Seq<char>) -> (int, int, int, int, int, int) {
    (
        name.len() as int,
        letter_at(name, 0),
        letter_at(name, 1),
        letter_at(name, 2),
        letter_at(name, 3),
        letter_at(name, 4),
    )
}

/// What the table holds, letter by letter: every short name is plain, and no
/// short name is a name of an earlier row.
#[verifier::spinoff_prover]
#[verifier::rlimit(50)]
proof fn lemma_table_spelled_out()
    ensures
        forall|k: int| 0 <= k < BOOK_TABLE_LEN ==> plain_name(#[trigger] book_row(k).short_name@),
        forall|j: int, k: int|
            0 <= j < k < BOOK_TABLE_LEN ==> !(#[trigger] row_is_named(j, book_row(k).short_name@)),
{
    reveal_strlit("Genesis");
    assert(initials("Genesis"@) == (7int, 'G' as int, 'e' as int, 'n' as int, 'e' as int, 's' as int));
    reveal_strlit("Gen.");
    assert(initials("Gen."@) == (4int, 'G' as int, 'e' as int, 'n' as int, '.' as int, -1int));
    reveal_strlit("Exodus");
    assert(initials("Exodus"@) == (6int, 'E' as int, 'x' as int, 'o' as int, 'd' as int, 'u' as int));
    reveal_strlit("Ex.");
    assert(initials("Ex."@) == (3int, 'E' as int, 'x' as int, '.' as int, -1int, -1int));
    reveal_strlit("Leviticus");
    assert(initials("Leviticus"@) == (9int, 'L' as int, 'e' as int, 'v' as int, 'i' as int, 't' as int));
    reveal_strlit("Lev.");
    assert(initials("Lev."@) == (4int, 'L' as int, 'e' as int, 'v' as int, '.' as int, -1int));
    reveal_strlit("Numbers");
    assert(initials("Numbers"@) == (7int, 'N' as int, 'u' as int, 'm' as int, 'b' as int, 'e' as int));
    reveal_strlit("Num.");
    assert(initials("Num."@) == (4int, 'N' as int, 'u' as int, 'm' as int, '.' as int, -1int));
    reveal_strlit("Deuteronomy");
    assert(initials("Deuteronomy"@) == (11int, 'D' as int, 'e' as int, 'u' as int, 't' as int, 'e' as int));
    reveal_strlit("Deut.");
    assert(initials("Deut."@) == (5int, 'D' as int, 'e' as int, 'u' as int, 't' as int, '.' as int));
    reveal_strlit("Joshua");
    assert(initials("Joshua"@) == (6int, 'J' as int, 'o' as int, 's' as int, 'h' as int, 'u' as int));
    reveal_strlit("Josh.");
    assert(initials("Josh."@) == (5int, 'J' as int, 'o' as int, 's' as int, 'h' as int, '.' as int));
    reveal_strlit("Judges");
    assert(initials("Judges"@) == (6int, 'J' as int, 'u' as int, 'd' as int, 'g' as int, 'e' as int));
    reveal_strlit("Judg.");
    assert(initials("Judg."@) == (5int, 'J' as int, 'u' as int, 'd' as int, 'g' as int, '.' as int));
    reveal_strlit("Ruth");
    assert(initials("Ruth"@) == (4int, 'R' as int, 'u' as int, 't' as int, 'h' as int, -1int));
    reveal_strlit("1 Samuel");
    assert(initials("1 Samuel"@) == (8int, '1' as int, ' ' as int, 'S' as int, 'a' as int, 'm' as int));
    reveal_strlit("1 Sam.");
    assert(initials("1 Sam."@) == (6int, '1' as int, ' ' as int, 'S' as int, 'a' as int, 'm' as int));
    reveal_strlit("2 Samuel");
    assert(initials("2 Samuel"@) == (8int, '2' as int, ' ' as int, 'S' as int, 'a' as int, 'm' as int));
    reveal_strlit("2 Sam.");
    assert(initials("2 Sam."@) == (6int, '2' as int, ' ' as int, 'S' as int, 'a' as int, 'm' as int));
    reveal_strlit("1 Kings");
    assert(initials("1 Kings"@) == (7int, '1' as int, ' ' as int, 'K' as int, 'i' as int, 'n' as int));
    reveal_strlit("1 Kgs.");
    assert(initials("1 Kgs."@) == (6int, '1' as int, ' ' as int, 'K' as int, 'g' as int, 's' as int));
    reveal_strlit("2 Kings");
    assert(initials("2 Kings"@) == (7int, '2' as int, ' ' as int, 'K' as int, 'i' as int, 'n' as int));
    reveal_strlit("2 Kgs.");
    assert(initials("2 Kgs."@) == (6int, '2' as int, ' ' as int, 'K' as int, 'g' as int, 's' as int));
    reveal_strlit("1 Chronicles");
    assert(initials("1 Chronicles"@) == (12int, '1' as int, ' ' as int, 'C' as int, 'h' as int, 'r' as int));
    reveal_strlit("1 Chron.");
    assert(initials("1 Chron."@) == (8int, '1' as int, ' ' as int, 'C' as int, 'h' as int, 'r' as int));
    reveal_strlit("2 Chronicles");
    assert(initials("2 Chronicles"@) == (12int, '2' as int, ' ' as int, 'C' as int, 'h' as int, 'r' as int));
    reveal_strlit("2 Chron.");
    assert(initials("2 Chron."@) == (8int, '2' as int, ' ' as int, 'C' as int, 'h' as int, 'r' as int));
    reveal_strlit("Ezra");
    assert(initials("Ezra"@) == (4int, 'E' as int, 'z' as int, 'r' as int, 'a' as int, -1int));
    reveal_strlit("Nehemiah");
    assert(initials("Nehemiah"@) == (8int, 'N' as int, 'e' as int, 'h' as int, 'e' as int, 'm' as int));
    reveal_strlit("Neh.");
    assert(initials("Neh."@) == (4int, 'N' as int, 'e' as int, 'h' as int, '.' as int, -1int));
    reveal_strlit("Esther");
    assert(initials("Esther"@) == (6int, 'E' as int, 's' as int, 't' as int, 'h' as int, 'e' as int));
    reveal_strlit("Esth.");
    assert(initials("Esth."@) == (5int, 'E' as int, 's' as int, 't' as int, 'h' as int, '.' as int));
    reveal_strlit("Job");
    assert(initials("Job"@) == (3int, 'J' as int, 'o' as int, 'b' as int, -1int, -1int));
    reveal_strlit("Psalms");
    assert(initials("Psalms"@) == (6int, 'P' as int, 's' as int, 'a' as int, 'l' as int, 'm' as int));
    reveal_strlit("Ps.");
    assert(initials("Ps."@) == (3int, 'P' as int, 's' as int, '.' as int, -1int, -1int));
    reveal_strlit("Proverbs");
    assert(initials("Proverbs"@) == (8int, 'P' as int, 'r' as int, 'o' as int, 'v' as int, 'e' as int));
    reveal_strlit("Prov.");
    assert(initials("Prov."@) == (5int, 'P' as int, 'r' as int, 'o' as int, 'v' as int, '.' as int));
    reveal_strlit("Ecclesiastes");
    assert(initials("Ecclesiastes"@) == (12int, 'E' as int, 'c' as int, 'c' as int, 'l' as int, 'e' as int));
    reveal_strlit("Eccl.");
    assert(initials("Eccl."@) == (5int, 'E' as int, 'c' as int, 'c' as int, 'l' as int, '.' as int));
    reveal_strlit("Song of Solomon");
    assert(initials("Song of Solomon"@) == (15int, 'S' as int, 'o' as int, 'n' as int, 'g' as int, ' ' as int));
    reveal_strlit("Song.");
    assert(initials("Song."@) == (5int, 'S' as int, 'o' as int, 'n' as int, 'g' as int, '.' as int));
    reveal_strlit("Isaiah");
    assert(initials("Isaiah"@) == (6int, 'I' as int, 's' as int, 'a' as int, 'i' as int, 'a' as int));
    reveal_strlit("Isa.");
    assert(initials("Isa."@) == (4int, 'I' as int, 's' as int, 'a' as int, '.' as int, -1int));
    reveal_strlit("Jeremiah");
    assert(initials("Jeremiah"@) == (8int, 'J' as int, 'e' as int, 'r' as int, 'e' as int, 'm' as int));
    reveal_strlit("Jer.");
    assert(initials("Jer."@) == (4int, 'J' as int, 'e' as int, 'r' as int, '.' as int, -1int));
    reveal_strlit("Lamentations");
    assert(initials("Lamentations"@) == (12int, 'L' as int, 'a' as int, 'm' as int, 'e' as int, 'n' as int));
    reveal_strlit("Lam.");
    assert(initials("Lam."@) == (4int, 'L' as int, 'a' as int, 'm' as int, '.' as int, -1int));
    reveal_strlit("Ezekiel");
    assert(initials("Ezekiel"@) == (7int, 'E' as int, 'z' as int, 'e' as int, 'k' as int, 'i' as int));
    reveal_strlit("Ezek.");
    assert(initials("Ezek."@) == (5int, 'E' as int, 'z' as int, 'e' as int, 'k' as int, '.' as int));
    reveal_strlit("Daniel");
    assert(initials("Daniel"@) == (6int, 'D' as int, 'a' as int, 'n' as int, 'i' as int, 'e' as int));
    reveal_strlit("Dan.");
    assert(initials("Dan."@) == (4int, 'D' as int, 'a' as int, 'n' as int, '.' as int, -1int));
    reveal_strlit("Hosea");
    assert(initials("Hosea"@) == (5int, 'H' as int, 'o' as int, 's' as int, 'e' as int, 'a' as int));
    reveal_strlit("Joel");
    assert(initials("Joel"@) == (4int, 'J' as int, 'o' as int, 'e' as int, 'l' as int, -1int));
    reveal_strlit("Amos");
    assert(initials("Amos"@) == (4int, 'A' as int, 'm' as int, 'o' as int, 's' as int, -1int));
    reveal_strlit("Obadiah");
    assert(initials("Obadiah"@) == (7int, 'O' as int, 'b' as int, 'a' as int, 'd' as int, 'i' as int));
    reveal_strlit("Obad.");
    assert(initials("Obad."@) == (5int, 'O' as int, 'b' as int, 'a' as int, 'd' as int, '.' as int));
    reveal_strlit("Jonah");
    assert(initials("Jonah"@) == (5int, 'J' as int, 'o' as int, 'n' as int, 'a' as int, 'h' as int));
    reveal_strlit("Micah");
    assert(initials("Micah"@) == (5int, 'M' as int, 'i' as int, 'c' as int, 'a' as int, 'h' as int));
    reveal_strlit("Nahum");
    assert(initials("Nahum"@) == (5int, 'N' as int, 'a' as int, 'h' as int, 'u' as int, 'm' as int));
    reveal_strlit("Habakkuk");
    assert(initials("Habakkuk"@) == (8int, 'H' as int, 'a' as int, 'b' as int, 'a' as int, 'k' as int));
    reveal_strlit("Hab.");
    assert(initials("Hab."@) == (4int, 'H' as int, 'a' as int, 'b' as int, '.' as int, -1int));
    reveal_strlit("Zephaniah");
    assert(initials("Zephaniah"@) == (9int, 'Z' as int, 'e' as int, 'p' as int, 'h' as int, 'a' as int));
    reveal_strlit("Zeph.");
    assert(initials("Zeph."@) == (5int, 'Z' as int, 'e' as int, 'p' as int, 'h' as int, '.' as int));
    reveal_strlit("Haggai");
    assert(initials("Haggai"@) == (6int, 'H' as int, 'a' as int, 'g' as int, 'g' as int, 'a' as int));
    reveal_strlit("Hag.");
    assert(initials("Hag."@) == (4int, 'H' as int, 'a' as int, 'g' as int, '.' as int, -1int));
    reveal_strlit("Zechariah");
    assert(initials("Zechariah"@) == (9int, 'Z' as int, 'e' as int, 'c' as int, 'h' as int, 'a' as int));
    reveal_strlit("Zech.");
    assert(initials("Zech."@) == (5int, 'Z' as int, 'e' as int, 'c' as int, 'h' as int, '.' as int));
    reveal_strlit("Malachi");
    assert(initials("Malachi"@) == (7int, 'M' as int, 'a' as int, 'l' as int, 'a' as int, 'c' as int));
    reveal_strlit("Mal.");
    assert(initials("Mal."@) == (4int, 'M' as int, 'a' as int, 'l' as int, '.' as int, -1int));
    reveal_strlit("Matthew");
    assert(initials("Matthew"@) == (7int, 'M' as int, 'a' as int, 't' as int, 't' as int, 'h' as int));
    reveal_strlit("Matt.");
    assert(initials("Matt."@) == (5int, 'M' as int, 'a' as int, 't' as int, 't' as int, '.' as int));
    reveal_strlit("Mark");
    assert(initials("Mark"@) == (4int, 'M' as int, 'a' as int, 'r' as int, 'k' as int, -1int));
    reveal_strlit("Luke");
    assert(initials("Luke"@) == (4int, 'L' as int, 'u' as int, 'k' as int, 'e' as int, -1int));
    reveal_strlit("John");
    assert(initials("John"@) == (4int, 'J' as int, 'o' as int, 'h' as int, 'n' as int, -1int));
    reveal_strlit("Acts");
    assert(initials("Acts"@) == (4int, 'A' as int, 'c' as int, 't' as int, 's' as int, -1int));
    reveal_strlit("Romans");
    assert(initials("Romans"@) == (6int, 'R' as int, 'o' as int, 'm' as int, 'a' as int, 'n' as int));
    reveal_strlit("Rom.");
    assert(initials("Rom."@) == (4int, 'R' as int, 'o' as int, 'm' as int, '.' as int, -1int));
    reveal_strlit("1 Corinthians");
    assert(initials("1 Corinthians"@) == (13int, '1' as int, ' ' as int, 'C' as int, 'o' as int, 'r' as int));
    reveal_strlit("1 Cor.");
    assert(initials("1 Cor."@) == (6int, '1' as int, ' ' as int, 'C' as int, 'o' as int, 'r' as int));
    reveal_strlit("2 Corinthians");
    assert(initials("2 Corinthians"@) == (13int, '2' as int, ' ' as int, 'C' as int, 'o' as int, 'r' as int));
    reveal_strlit("2 Cor.");
    assert(initials("2 Cor."@) == (6int, '2' as int, ' ' as int, 'C' as int, 'o' as int, 'r' as int));
    reveal_strlit("Galatians");
    assert(initials("Galatians"@) == (9int, 'G' as int, 'a' as int, 'l' as int, 'a' as int, 't' as int));
    reveal_strlit("Gal.");
    assert(initials("Gal."@) == (4int, 'G' as int, 'a' as int, 'l' as int, '.' as int, -1int));
    reveal_strlit("Ephesians");
    assert(initials("Ephesians"@) == (9int, 'E' as int, 'p' as int, 'h' as int, 'e' as int, 's' as int));
    reveal_strlit("Eph.");
    assert(initials("Eph."@) == (4int, 'E' as int, 'p' as int, 'h' as int, '.' as int, -1int));
    reveal_strlit("Philippians");
    assert(initials("Philippians"@) == (11int, 'P' as int, 'h' as int, 'i' as int, 'l' as int, 'i' as int));
    reveal_strlit("Philip.");
    assert(initials("Philip."@) == (7int, 'P' as int, 'h' as int, 'i' as int, 'l' as int, 'i' as int));
    reveal_strlit("Colossians");
    assert(initials("Colossians"@) == (10int, 'C' as int, 'o' as int, 'l' as int, 'o' as int, 's' as int));
    reveal_strlit("Col.");
    assert(initials("Col."@) == (4int, 'C' as int, 'o' as int, 'l' as int, '.' as int, -1int));
    reveal_strlit("1 Thessalonians");
    assert(initials("1 Thessalonians"@) == (15int, '1' as int, ' ' as int, 'T' as int, 'h' as int, 'e' as int));
    reveal_strlit("1 Thes.");
    assert(initials("1 Thes."@) == (7int, '1' as int, ' ' as int, 'T' as int, 'h' as int, 'e' as int));
    reveal_strlit("2 Thessalonians");
    assert(initials("2 Thessalonians"@) == (15int, '2' as int, ' ' as int, 'T' as int, 'h' as int, 'e' as int));
    reveal_strlit("2 Thes.");
    assert(initials("2 Thes."@) == (7int, '2' as int, ' ' as int, 'T' as int, 'h' as int, 'e' as int));
    reveal_strlit("1 Timothy");
    assert(initials("1 Timothy"@) == (9int, '1' as int, ' ' as int, 'T' as int, 'i' as int, 'm' as int));
    reveal_strlit("1 Tim.");
    assert(initials("1 Tim."@) == (6int, '1' as int, ' ' as int, 'T' as int, 'i' as int, 'm' as int));
    reveal_strlit("2 Timothy");
    assert(initials("2 Timothy"@) == (9int, '2' as int, ' ' as int, 'T' as int, 'i' as int, 'm' as int));
    reveal_strlit("2 Tim.");
    assert(initials("2 Tim."@) == (6int, '2' as int, ' ' as int, 'T' as int, 'i' as int, 'm' as int));
    reveal_strlit("Titus");
    assert(initials("Titus"@) == (5int, 'T' as int, 'i' as int, 't' as int, 'u' as int, 's' as int));
    reveal_strlit("Philemon");
    assert(initials("Philemon"@) == (8int, 'P' as int, 'h' as int, 'i' as int, 'l' as int, 'e' as int));
    reveal_strlit("Philem.");
    assert(initials("Philem."@) == (7int, 'P' as int, 'h' as int, 'i' as int, 'l' as int, 'e' as int));
    reveal_strlit("Hebrews");
    assert(initials("Hebrews"@) == (7int, 'H' as int, 'e' as int, 'b' as int, 'r' as int, 'e' as int));
    reveal_strlit("Heb.");
    assert(initials("Heb."@) == (4int, 'H' as int, 'e' as int, 'b' as int, '.' as int, -1int));
    reveal_strlit("James");
    assert(initials("James"@) == (5int, 'J' as int, 'a' as int, 'm' as int, 'e' as int, 's' as int));
    reveal_strlit("1 Peter");
    assert(initials("1 Peter"@) == (7int, '1' as int, ' ' as int, 'P' as int, 'e' as int, 't' as int));
    reveal_strlit("1 Pet.");
    assert(initials("1 Pet."@) == (6int, '1' as int, ' ' as int, 'P' as int, 'e' as int, 't' as int));
    reveal_strlit("2 Peter");
    assert(initials("2 Peter"@) == (7int, '2' as int, ' ' as int, 'P' as int, 'e' as int, 't' as int));
    reveal_strlit("2 Pet.");
    assert(initials("2 Pet."@) == (6int, '2' as int, ' ' as int, 'P' as int, 'e' as int, 't' as int));
    reveal_strlit("1 John");
    assert(initials("1 John"@) == (6int, '1' as int, ' ' as int, 'J' as int, 'o' as int, 'h' as int));
    reveal_strlit("1 Jn.");
    assert(initials("1 Jn."@) == (5int, '1' as int, ' ' as int, 'J' as int, 'n' as int, '.' as int));
    reveal_strlit("2 John");
    assert(initials("2 John"@) == (6int, '2' as int, ' ' as int, 'J' as int, 'o' as int, 'h' as int));
    reveal_strlit("2 Jn.");
    assert(initials("2 Jn."@) == (5int, '2' as int, ' ' as int, 'J' as int, 'n' as int, '.' as int));
    reveal_strlit("3 John");
    assert(initials("3 John"@) == (6int, '3' as int, ' ' as int, 'J' as int, 'o' as int, 'h' as int));
    reveal_strlit("3 Jn.");
    assert(initials("3 Jn."@) == (5int, '3' as int, ' ' as int, 'J' as int, 'n' as int, '.' as int));
    reveal_strlit("Jude");
    assert(initials("Jude"@) == (4int, 'J' as int, 'u' as int, 'd' as int, 'e' as int, -1int));
    reveal_strlit("Revelation");
    assert(initials("Revelation"@) == (10int, 'R' as int, 'e' as int, 'v' as int, 'e' as int, 'l' as int));
    reveal_strlit("Rev.");
    assert(initials("Rev."@) == (4int, 'R' as int, 'e' as int, 'v' as int, '.' as int, -1int));
    reveal_strlit("1 Nephi");
    assert(initials("1 Nephi"@) == (7int, '1' as int, ' ' as int, 'N' as int, 'e' as int, 'p' as int));
    reveal_strlit("1 Ne.");
    assert(initials("1 Ne."@) == (5int, '1' as int, ' ' as int, 'N' as int, 'e' as int, '.' as int));
    reveal_strlit("2 Nephi");
    assert(initials("2 Nephi"@) == (7int, '2' as int, ' ' as int, 'N' as int, 'e' as int, 'p' as int));
    reveal_strlit("2 Ne.");
    assert(initials("2 Ne."@) == (5int, '2' as int, ' ' as int, 'N' as int, 'e' as int, '.' as int));
    reveal_strlit("Jacob");
    assert(initials("Jacob"@) == (5int, 'J' as int, 'a' as int, 'c' as int, 'o' as int, 'b' as int));
    reveal_strlit("Enos");
    assert(initials("Enos"@) == (4int, 'E' as int, 'n' as int, 'o' as int, 's' as int, -1int));
    reveal_strlit("Jarom");
    assert(initials("Jarom"@) == (5int, 'J' as int, 'a' as int, 'r' as int, 'o' as int, 'm' as int));
    reveal_strlit("Omni");
    assert(initials("Omni"@) == (4int, 'O' as int, 'm' as int, 'n' as int, 'i' as int, -1int));
    reveal_strlit("Words of Mormon");
    assert(initials("Words of Mormon"@) == (15int, 'W' as int, 'o' as int, 'r' as int, 'd' as int, 's' as int));
    reveal_strlit("W of M");
    assert(initials("W of M"@) == (6int, 'W' as int, ' ' as int, 'o' as int, 'f' as int, ' ' as int));
    reveal_strlit("Mosiah");
    assert(initials("Mosiah"@) == (6int, 'M' as int, 'o' as int, 's' as int, 'i' as int, 'a' as int));
    reveal_strlit("Alma");
    assert(initials("Alma"@) == (4int, 'A' as int, 'l' as int, 'm' as int, 'a' as int, -1int));
    reveal_strlit("Helaman");
    assert(initials("Helaman"@) == (7int, 'H' as int, 'e' as int, 'l' as int, 'a' as int, 'm' as int));
    reveal_strlit("Hel.");
    assert(initials("Hel."@) == (4int, 'H' as int, 'e' as int, 'l' as int, '.' as int, -1int));
    reveal_strlit("3 Nephi");
    assert(initials("3 Nephi"@) == (7int, '3' as int, ' ' as int, 'N' as int, 'e' as int, 'p' as int));
    reveal_strlit("3 Ne.");
    assert(initials("3 Ne."@) == (5int, '3' as int, ' ' as int, 'N' as int, 'e' as int, '.' as int));
    reveal_strlit("4 Nephi");
    assert(initials("4 Nephi"@) == (7int, '4' as int, ' ' as int, 'N' as int, 'e' as int, 'p' as int));
    reveal_strlit("4 Ne.");
    assert(initials("4 Ne."@) == (5int, '4' as int, ' ' as int, 'N' as int, 'e' as int, '.' as int));
    reveal_strlit("Mormon");
    assert(initials("Mormon"@) == (6int, 'M' as int, 'o' as int, 'r' as int, 'm' as int, 'o' as int));
    reveal_strlit("Morm.");
    assert(initials("Morm."@) == (5int, 'M' as int, 'o' as int, 'r' as int, 'm' as int, '.' as int));
    reveal_strlit("Ether");
    assert(initials("Ether"@) == (5int, 'E' as int, 't' as int, 'h' as int, 'e' as int, 'r' as int));
    reveal_strlit("Moroni");
    assert(initials("Moroni"@) == (6int, 'M' as int, 'o' as int, 'r' as int, 'o' as int, 'n' as int));
    reveal_strlit("Moro.");
    assert(initials("Moro."@) == (5int, 'M' as int, 'o' as int, 'r' as int, 'o' as int, '.' as int));
}

} // verus!
