//! Parser for the Project Gutenberg text of the Book of Mormon.
//!
//! The text is cut into blocks at blank lines. Each block is a book title, a
//! book description, a chapter heading or a verse, and the blocks must follow
//! each other in an order that makes a book.

use vstd::prelude::*;
use crate::corpus::{filled, Book, BookText, Chapter, Verse, WitnessTestimony, BOM};
use crate::patterns::{
    pattern_group, pattern_matches, regex_captures, regex_is_match, to_uppercase, uppercase,
};
use crate::text::{
    blocks, chars_of, count_lines, decimal, fold_lines, folded, line_count, parse_number,
    push_decimal, push_str, read_number, same_text, split_blocks, string_of, text_of, texts,
};

verus! {

/// Why a text was refused as a corpus.
#[derive(Debug, Clone, PartialEq, Eq)]
pub enum CorpusFault {
    /// A book title that does not follow a verse.
    MisplacedBookTitle { text: String },
    /// A book description that does not follow a book title.
    MisplacedBookDescription { text: String },
    /// A chapter heading that follows another chapter heading.
    MisplacedChapterStart { text: String },
    /// A verse that follows a block that was refused.
    MisplacedVerse { text: String },
    /// A verse whose number is not the next one of its chapter.
    VerseNumberMismatch { expected: usize, found: usize, text: String },
    /// A block that has the shape of a verse but no readable number.
    UnrecognizedBlock { text: String },
    /// The text holds no book.
    NoBooksFound,
}

/// A [`CorpusFault`] as plain text.
pub enum CorpusFaultText {
    MisplacedBookTitle(Seq<char>),
    MisplacedBookDescription(Seq<char>),
    MisplacedChapterStart(Seq<char>),
    MisplacedVerse(Seq<char>),
    VerseNumberMismatch { expected: usize, found: usize, text: Seq<char> },
    UnrecognizedBlock(Seq<char>),
    NoBooksFound,
}

impl View for CorpusFault {
    type V = CorpusFaultText;

    open spec fn view(&self) -> CorpusFaultText {
        match *self {
            CorpusFault::MisplacedBookTitle { text } => CorpusFaultText::MisplacedBookTitle(text@),
            CorpusFault::MisplacedBookDescription { text } => {
                CorpusFaultText::MisplacedBookDescription(text@)
            },
            CorpusFault::MisplacedChapterStart { text } => CorpusFaultText::MisplacedChapterStart(
                text@,
            ),
            CorpusFault::MisplacedVerse { text } => CorpusFaultText::MisplacedVerse(text@),
            CorpusFault::VerseNumberMismatch { expected, found, text } => {
                CorpusFaultText::VerseNumberMismatch { expected, found, text: text@ }
            },
            CorpusFault::UnrecognizedBlock { text } => CorpusFaultText::UnrecognizedBlock(text@),
            CorpusFault::NoBooksFound => CorpusFaultText::NoBooksFound,
        }
    }
}

/// Errors when parsing the Gutenberg text.
#[derive(Debug, Clone, PartialEq, Eq)]
pub enum ParseError {
    /// The text of the corpus could not be read.
    CorpusNotFound,
    /// The text does not have the structure of a corpus.
    CorpusInvalid(CorpusFault),
}

/// What a fault says of itself.
pub open spec fn fault_message(fault: CorpusFaultText) -> Seq<char> {
    match fault {
        CorpusFaultText::MisplacedBookTitle(text) => "Book title in incorrect location: "@ + text,
        CorpusFaultText::MisplacedBookDescription(text) => {
            "Book description in incorrect location: "@ + text
        },
        CorpusFaultText::MisplacedChapterStart(text) => "Chapter start in incorrect location: "@
            + text,
        CorpusFaultText::MisplacedVerse(text) => "Verse in incorrect location: "@ + text,
        CorpusFaultText::VerseNumberMismatch { expected, found, text } => {
            "Parser thought this verse was "@ + decimal(expected as nat)
                + " but text says it's verse "@ + decimal(found as nat) + ": "@ + text
        },
        CorpusFaultText::UnrecognizedBlock(text) => "Unrecognized line: "@ + text,
        CorpusFaultText::NoBooksFound => "No books found"@,
    }
}

impl CorpusFault {
    /// The fault in words; see [`fault_message`].
    pub fn message(&self) -> (r: String)
        ensures
            r@ == fault_message(self@),
    {
        let mut out: Vec<char> = Vec::new();
        match self {
            CorpusFault::MisplacedBookTitle { text } => {
                push_str(&mut out, "Book title in incorrect location: ");
                push_str(&mut out, text.as_str());
            },
            CorpusFault::MisplacedBookDescription { text } => {
                push_str(&mut out, "Book description in incorrect location: ");
                push_str(&mut out, text.as_str());
            },
            CorpusFault::MisplacedChapterStart { text } => {
                push_str(&mut out, "Chapter start in incorrect location: ");
                push_str(&mut out, text.as_str());
            },
            CorpusFault::MisplacedVerse { text } => {
                push_str(&mut out, "Verse in incorrect location: ");
                push_str(&mut out, text.as_str());
            },
            CorpusFault::VerseNumberMismatch { expected, found, text } => {
                push_str(&mut out, "Parser thought this verse was ");
                push_decimal(&mut out, *expected);
                push_str(&mut out, " but text says it's verse ");
                push_decimal(&mut out, *found);
                push_str(&mut out, ": ");
                push_str(&mut out, text.as_str());
            },
            CorpusFault::UnrecognizedBlock { text } => {
                push_str(&mut out, "Unrecognized line: ");
                push_str(&mut out, text.as_str());
            },
            CorpusFault::NoBooksFound => {
                push_str(&mut out, "No books found");
            },
        }
        proof {
            assert(out@ =~= fault_message(self@));
        }
        string_of(out.as_slice())
    }
}

impl ParseError {
    /// What the error says of itself.
    pub open spec fn message_text(&self) -> Seq<char> {
        match *self {
            ParseError::CorpusNotFound => "Gutenberg corpus not found"@,
            ParseError::CorpusInvalid(fault) => "Corpus invalid: "@ + fault_message(fault@),
        }
    }

    /// The error in words.
    pub fn message(&self) -> (r: String)
        ensures
            r@ == self.message_text(),
    {
        let mut out: Vec<char> = Vec::new();
        match self {
            ParseError::CorpusNotFound => {
                push_str(&mut out, "Gutenberg corpus not found");
            },
            ParseError::CorpusInvalid(fault) => {
                push_str(&mut out, "Corpus invalid: ");
                let reason = fault.message();
                push_str(&mut out, reason.as_str());
            },
        }
        proof {
            assert(out@ =~= self.message_text());
        }
        string_of(out.as_slice())
    }
}

/// A chapter heading: an optional number, a name and the chapter, and on the
/// next line the word `Chapter` with its number.
pub const CHAPTER_START: &'static str = "^(\\d+\\s+)?[A-Za-z]+\\s+\\d+\\nChapter\\s+(?P<num>\\d+)$";

/// A verse: the running head with short title, chapter and verse, and on the
/// next line the verse number and the text.
pub const VERSE: &'static str =
    "(?s)^(?P<short_title>\\d?[\\sA-Za-z]{4,})\\s+\\d{1,2}:\\d{1,2}\\n\\s+(?P<num>\\d{1,2})\\s+(?P<text>.{17,})$";

/// The group of [`VERSE`] that holds the short title of the book.
pub const SHORT_TITLE_GROUP: &'static str = "short_title";

/// The group of [`VERSE`] that holds the verse number.
pub const NUMBER_GROUP: &'static str = "num";

/// The group of [`VERSE`] that holds the text of the verse.
pub const TEXT_GROUP: &'static str = "text";

/// What a block of the text is.
#[derive(Debug, Clone, PartialEq, Eq)]
pub enum ChunkType {
    BookTitle,
    BookDescription,
    ChapterStart,
    Verse { short_title: String, verse: String, verse_num: usize },
    Unrecognized,
}

/// A [`ChunkType`] as plain text.
pub enum ChunkText {
    BookTitle,
    BookDescription,
    ChapterStart,
    Verse { short_title: Seq<char>, verse: Seq<char>, verse_num: usize },
    Unrecognized,
}

impl View for ChunkType {
    type V = ChunkText;

    open spec fn view(&self) -> ChunkText {
        match *self {
            ChunkType::BookTitle => ChunkText::BookTitle,
            ChunkType::BookDescription => ChunkText::BookDescription,
            ChunkType::ChapterStart => ChunkText::ChapterStart,
            ChunkType::Verse { short_title, verse, verse_num } => ChunkText::Verse {
                short_title: short_title@,
                verse: verse@,
                verse_num,
            },
            ChunkType::Unrecognized => ChunkText::Unrecognized,
        }
    }
}

/// Whether a block is a book title: a single line that is its own upper-case
/// form, `upper`.
pub open spec fn is_book_title(s: Seq<char>, upper: Seq<char>) -> bool {
    line_count(s) == 1 && upper == s
}

/// What a block is that is neither a title nor a chapter heading, given the
/// three parts of a verse as far as they were found in it: a verse where all
/// three were found and the number reads as one, unrecognized where the
/// number does not, and a book description where a part is missing.
pub open spec fn verse_chunk(
    short_title: Option<Seq<char>>,
    number: Option<Seq<char>>,
    text: Option<Seq<char>>,
) -> ChunkText {
    match (short_title, number, text) {
        (Some(t), Some(n), Some(x)) => match parse_number(n) {
            Some(v) => ChunkText::Verse { short_title: t, verse: x, verse_num: v },
            None => ChunkText::Unrecognized,
        },
        _ => ChunkText::BookDescription,
    }
}

/// What the block `s` is. The tests are made in this order: book title,
/// chapter heading, verse.
pub open spec fn classify(s: Seq<char>) -> ChunkText {
    if is_book_title(s, uppercase(s)) {
        ChunkText::BookTitle
    } else if pattern_matches(CHAPTER_START@, s) {
        ChunkText::ChapterStart
    } else {
        verse_chunk(
            pattern_group(VERSE@, s, SHORT_TITLE_GROUP@),
            pattern_group(VERSE@, s, NUMBER_GROUP@),
            pattern_group(VERSE@, s, TEXT_GROUP@),
        )
    }
}

impl ChunkType {
    /// Tells whether `s` is a book title, given its upper-case form.
    pub fn is_title(s: &str, upper: &str) -> (r: bool)
        ensures
            r == is_book_title(s@, upper@),
    {
        let chars = chars_of(s);
        let upper_chars = chars_of(upper);
        count_lines(chars.as_slice()) == 1 && same_text(upper_chars.as_slice(), chars.as_slice())
    }

    /// Builds the chunk from the three parts of a verse; see [`verse_chunk`].
    pub fn from_verse_parts(
        short_title: Option<String>,
        number: Option<String>,
        text: Option<String>,
    ) -> (r: ChunkType)
        ensures
            r@ == verse_chunk(text_of(short_title), text_of(number), text_of(text)),
    {
        match (short_title, number, text) {
            (Some(t), Some(n), Some(x)) => {
                let digits = chars_of(n.as_str());
                match read_number(digits.as_slice()) {
                    Some(v) => ChunkType::Verse { short_title: t, verse: x, verse_num: v },
                    None => ChunkType::Unrecognized,
                }
            },
            _ => ChunkType::BookDescription,
        }
    }

    /// Classifies the block `s`; see [`classify`].
    pub fn new(s: &str) -> (r: ChunkType)
        ensures
            r@ == classify(s@),
    {
        let upper = to_uppercase(s);
        if ChunkType::is_title(s, upper.as_str()) {
            ChunkType::BookTitle
        } else if regex_is_match(CHAPTER_START, s) {
            ChunkType::ChapterStart
        } else {
            let groups: Vec<&str> = vec![SHORT_TITLE_GROUP, NUMBER_GROUP, TEXT_GROUP];
            let mut found = regex_captures(VERSE, s, &groups);
            proof {
                assert(groups@[0]@ == SHORT_TITLE_GROUP@);
                assert(groups@[1]@ == NUMBER_GROUP@);
                assert(groups@[2]@ == TEXT_GROUP@);
                assert(text_of(found@[0]) == pattern_group(VERSE@, s@, SHORT_TITLE_GROUP@));
                assert(text_of(found@[1]) == pattern_group(VERSE@, s@, NUMBER_GROUP@));
                assert(text_of(found@[2]) == pattern_group(VERSE@, s@, TEXT_GROUP@));
            }
            let text = found.pop().unwrap();
            let number = found.pop().unwrap();
            let short_title = found.pop().unwrap();
            ChunkType::from_verse_parts(short_title, number, text)
        }
    }
}

/// `books` with an empty chapter put behind the chapters of its last book;
/// unchanged where there is no book.
pub open spec fn with_chapter_opened(books: Seq<BookText>) -> Seq<BookText> {
    if books.len() == 0 {
        books
    } else {
        let last = books.last();
        books.update(
            books.len() - 1,
            BookText { chapters: last.chapters.push(Seq::empty()), ..last },
        )
    }
}

/// The number that the next verse of a chapter with `count` verses must bear.
pub open spec fn next_verse_number(count: nat) -> usize {
    if count < usize::MAX {
        (count + 1) as usize
    } else {
        usize::MAX
    }
}

/// `books` with the short title of its last book set and, where that book
/// has a chapter, with the verse put behind the verses of its last chapter,
/// its text on one line. `books` must hold a book.
pub open spec fn with_verse_placed(books: Seq<BookText>, short_title: Seq<char>, verse: Seq<char>)
    -> Seq<BookText> {
    let last = books.last();
    if last.chapters.len() == 0 {
        books.update(books.len() - 1, BookText { short_title: Some(short_title), ..last })
    } else {
        books.update(
            books.len() - 1,
            BookText {
                short_title: Some(short_title),
                chapters: last.chapters.update(
                    last.chapters.len() - 1,
                    last.chapters.last().push(fold_lines(verse)),
                ),
                ..last
            },
        )
    }
}

/// `books` with a verse put behind the verses of the last chapter of its last
/// book, and with that book's short title set.
///
/// Where there is no book, nothing changes. Where the last book has no
/// chapter, only its short title is set. The verse must bear the number that
/// follows the count of verses in the chapter; its text is stored on one line.
pub open spec fn with_verse_added(
    books: Seq<BookText>,
    short_title: Seq<char>,
    verse: Seq<char>,
    verse_num: usize,
    s: Seq<char>,
) -> Result<Seq<BookText>, CorpusFaultText> {
    if books.len() == 0 {
        Ok(books)
    } else if books.last().chapters.len() > 0 && books.last().chapters.last().len() + 1
        != verse_num {
        Err(
            CorpusFaultText::VerseNumberMismatch {
                expected: next_verse_number(books.last().chapters.last().len()),
                found: verse_num,
                text: s,
            },
        )
    } else {
        Ok(with_verse_placed(books, short_title, verse))
    }
}

/// The books after the block `s`, which is a `chunk`, has been taken in
/// behind a block that was a `previous`; or the fault that the block causes.
///
/// A book title must follow a verse and opens a book. A book description
/// must follow a book title and is attached to the last book. A chapter
/// heading must follow a title, a description or a verse and opens a chapter
/// in the last book. A verse may follow any block that was taken in; behind a
/// title or a description it opens a chapter first. An unrecognized block is
/// a fault.
pub open spec fn step(books: Seq<BookText>, previous: ChunkText, s: Seq<char>, chunk: ChunkText)
    -> Result<Seq<BookText>, CorpusFaultText> {
    match chunk {
        ChunkText::BookTitle => if previous is Verse {
            Ok(
                books.push(
                    BookText {
                        title: s,
                        short_title: None,
                        description: None,
                        chapters: Seq::empty(),
                    },
                ),
            )
        } else {
            Err(CorpusFaultText::MisplacedBookTitle(s))
        },
        ChunkText::BookDescription => if previous is BookTitle {
            if books.len() == 0 {
                Ok(books)
            } else {
                Ok(
                    books.update(
                        books.len() - 1,
                        BookText { description: Some(s), ..books.last() },
                    ),
                )
            }
        } else {
            Err(CorpusFaultText::MisplacedBookDescription(s))
        },
        ChunkText::ChapterStart => if previous is BookTitle || previous is BookDescription
            || previous is Verse {
            Ok(with_chapter_opened(books))
        } else {
            Err(CorpusFaultText::MisplacedChapterStart(s))
        },
        ChunkText::Verse { short_title, verse, verse_num } => if previous is Unrecognized {
            Err(CorpusFaultText::MisplacedVerse(s))
        } else if previous is BookTitle || previous is BookDescription {
            with_verse_added(with_chapter_opened(books), short_title, verse, verse_num, s)
        } else {
            with_verse_added(books, short_title, verse, verse_num, s)
        },
        ChunkText::Unrecognized => Err(CorpusFaultText::UnrecognizedBlock(s)),
    }
}

/// Whether two corpora carry the same front matter.
pub open spec fn same_front_matter(a: &BOM, b: &BOM) -> bool {
    &&& a.title == b.title
    &&& a.subtitle == b.subtitle
    &&& a.translator == b.translator
    &&& a.last_updated == b.last_updated
    &&& a.language == b.language
    &&& a.title_page_text == b.title_page_text
    &&& a.witness_testimonies == b.witness_testimonies
}

/// Classifies the block `s` and takes it into `bom`; see [`step`].
///
/// On a fault `bom` keeps the books it had.
pub fn update_book_with_chunk(s: &str, previous_chunk: &ChunkType, bom: &mut BOM) -> (r: Result<
    ChunkType,
    ParseError,
>)
    ensures
        same_front_matter(final(bom), old(bom)),
        match r {
            Ok(chunk) => chunk@ == classify(s@) && step(old(bom)@, previous_chunk@, s@, classify(s@))
                == Ok::<Seq<BookText>, CorpusFaultText>(final(bom)@),
            Err(ParseError::CorpusInvalid(fault)) => final(bom)@ == old(bom)@ && step(
                old(bom)@,
                previous_chunk@,
                s@,
                classify(s@),
            ) == Err::<Seq<BookText>, CorpusFaultText>(fault@),
            Err(ParseError::CorpusNotFound) => false,
        },
{
    let chunk = ChunkType::new(s);
    let ghost before = bom@;
    match &chunk {
        ChunkType::BookTitle => match previous_chunk {
            ChunkType::Verse { .. } => {
                let book = Book {
                    title: s.to_owned(),
                    short_title: None,
                    description: None,
                    chapters: Vec::new(),
                };
                bom.books.push(book);
                proof {
                    assert(bom@ =~= before.push(book@));
                    assert(book@.chapters =~= Seq::<Seq<Seq<char>>>::empty());
                }
            },
            _ => {
                return Err(
                    ParseError::CorpusInvalid(
                        CorpusFault::MisplacedBookTitle { text: s.to_owned() },
                    ),
                );
            },
        },
        ChunkType::BookDescription => match previous_chunk {
            ChunkType::BookTitle => {
                if let Some(mut book) = bom.books.pop() {
                    let ghost last = book@;
                    book.description = Some(s.to_owned());
                    proof {
                        assert(book@.chapters =~= last.chapters);
                    }
                    bom.books.push(book);
                    proof {
                        assert(last == before.last());
                        assert(bom@ =~= before.update(
                            before.len() - 1,
                            BookText { description: Some(s@), ..last },
                        ));
                    }
                } else {
                    proof {
                        assert(bom@ =~= before);
                    }
                }
            },
            _ => {
                return Err(
                    ParseError::CorpusInvalid(
                        CorpusFault::MisplacedBookDescription { text: s.to_owned() },
                    ),
                );
            },
        },
        ChunkType::ChapterStart => match previous_chunk {
            ChunkType::BookTitle | ChunkType::BookDescription | ChunkType::Verse { .. } => {
                open_chapter(bom);
            },
            _ => {
                return Err(
                    ParseError::CorpusInvalid(
                        CorpusFault::MisplacedChapterStart { text: s.to_owned() },
                    ),
                );
            },
        },
        ChunkType::Verse { short_title, verse, verse_num } => {
            let opens = match previous_chunk {
                ChunkType::BookTitle | ChunkType::BookDescription => true,
                ChunkType::ChapterStart | ChunkType::Verse { .. } => false,
                ChunkType::Unrecognized => {
                    return Err(
                        ParseError::CorpusInvalid(
                            CorpusFault::MisplacedVerse { text: s.to_owned() },
                        ),
                    );
                },
            };
            let n_books = bom.books.len();
            if n_books > 0 {
                let book = &bom.books[n_books - 1];
                let n_chapters = book.chapters.len();
                if opens || n_chapters > 0 {
                    let count: usize = if opens {
                        0
                    } else {
                        book.chapters[n_chapters - 1].verses.len()
                    };
                    proof {
                        if !opens {
                            assert(before.last().chapters.last().len() == count);
                        } else {
                            assert(with_chapter_opened(before).last().chapters.last().len() == 0);
                        }
                    }
                    if count == usize::MAX || count + 1 != *verse_num {
                        let expected: usize = if count == usize::MAX {
                            count
                        } else {
                            count + 1
                        };
                        return Err(
                            ParseError::CorpusInvalid(
                                CorpusFault::VerseNumberMismatch {
                                    expected,
                                    found: *verse_num,
                                    text: s.to_owned(),
                                },
                            ),
                        );
                    }
                }
            }
            if opens {
                open_chapter(bom);
            }
            add_verse(bom, short_title.as_str(), verse.as_str());
        },
        ChunkType::Unrecognized => {
            return Err(
                ParseError::CorpusInvalid(CorpusFault::UnrecognizedBlock { text: s.to_owned() }),
            );
        },
    }
    Ok(chunk)
}

/// Opens an empty chapter in the last book, if there is a book.
fn open_chapter(bom: &mut BOM)
    ensures
        same_front_matter(final(bom), old(bom)),
        final(bom)@ == with_chapter_opened(old(bom)@),
{
    let ghost before = bom@;
    if let Some(mut book) = bom.books.pop() {
        let ghost last = book@;
        let chapter = Chapter { verses: Vec::new() };
        proof {
            assert(chapter@ =~= Seq::<Seq<char>>::empty());
        }
        book.chapters.push(chapter);
        proof {
            assert(book@.chapters =~= last.chapters.push(Seq::empty()));
        }
        bom.books.push(book);
        proof {
            assert(last == before.last());
            assert(bom@ =~= with_chapter_opened(before));
        }
    } else {
        proof {
            assert(bom@ =~= before);
        }
    }
}

/// Sets the short title of the last book and puts the verse behind the verses
/// of its last chapter, as far as there is a book and a chapter.
fn add_verse(bom: &mut BOM, short_title: &str, verse: &str)
    ensures
        same_front_matter(final(bom), old(bom)),
        old(bom)@.len() == 0 ==> final(bom)@ == old(bom)@,
        old(bom)@.len() > 0 ==> final(bom)@ == with_verse_placed(old(bom)@, short_title@, verse@),
{
    let ghost before = bom@;
    if let Some(mut book) = bom.books.pop() {
        let ghost last = book@;
        proof {
            assert(last == before.last());
        }
        book.short_title = Some(short_title.to_owned());
        proof {
            assert(book@.chapters =~= last.chapters);
        }
        if let Some(mut chapter) = book.chapters.pop() {
            let ghost verses = chapter@;
            proof {
                assert(verses == last.chapters.last());
            }
            let raw = chars_of(verse);
            let line = folded(raw.as_slice());
            let stored = Verse { text: string_of(line.as_slice()) };
            chapter.verses.push(stored);
            proof {
                assert(chapter@ =~= verses.push(fold_lines(verse@)));
            }
            book.chapters.push(chapter);
            proof {
                assert(book@.chapters =~= last.chapters.update(
                    last.chapters.len() - 1,
                    verses.push(fold_lines(verse@)),
                ));
            }
        }
        bom.books.push(book);
        proof {
            assert(bom@ =~= before.update(before.len() - 1, book@));
        }
    } else {
        proof {
            assert(bom@ =~= before);
        }
    }
}

/// The books that the blocks `chunks[i..]` make when they are taken in one by
/// one, starting from `books` behind a block that was a `previous`; or the
/// first fault. A text that leaves no book is a fault.
pub open spec fn corpus_from(
    chunks: Seq<Seq<char>>,
    i: int,
    books: Seq<BookText>,
    previous: ChunkText,
) -> Result<Seq<BookText>, CorpusFaultText>
    decreases chunks.len() - i,
{
    if i < 0 || i >= chunks.len() {
        if books.len() == 0 {
            Err(CorpusFaultText::NoBooksFound)
        } else {
            Ok(books)
        }
    } else {
        match step(books, previous, chunks[i], classify(chunks[i])) {
            Err(e) => Err(e),
            Ok(next) => corpus_from(chunks, i + 1, next, classify(chunks[i])),
        }
    }
}

/// What stands for the block before the first one: a verse, so that a book
/// title is what may come first.
pub open spec fn before_first_block() -> ChunkText {
    ChunkText::Verse { short_title: Seq::empty(), verse: Seq::empty(), verse_num: 0 }
}

/// The books that the text `s` holds, or the first fault in it.
pub open spec fn corpus_of(s: Seq<char>) -> Result<Seq<BookText>, CorpusFaultText> {
    corpus_from(blocks(s), 0, Seq::empty(), before_first_block())
}

/// What holds of the books behind a block of a given kind: they are filled;
/// behind a title or a description the last book has no chapter yet; behind
/// a chapter heading it has one; behind a verse its last chapter has a verse.
pub open spec fn settled(books: Seq<BookText>, previous: ChunkText) -> bool {
    &&& filled(books)
    &&& match previous {
        ChunkText::BookTitle | ChunkText::BookDescription => books.len() > 0
            && books.last().chapters.len() == 0,
        ChunkText::ChapterStart => books.len() == 0 || books.last().chapters.len() > 0,
        ChunkText::Verse { .. } => books.len() == 0 || (books.last().chapters.len() > 0
            && books.last().chapters.last().len() > 0),
        ChunkText::Unrecognized => true,
    }
}

/// Taking a block in leaves the books settled.
proof fn lemma_step_keeps_settled(
    books: Seq<BookText>,
    previous: ChunkText,
    s: Seq<char>,
    chunk: ChunkText,
)
    requires
        settled(books, previous),
    ensures
        step(books, previous, s, chunk) matches Ok(next) ==> settled(next, chunk),
{
    match step(books, previous, s, chunk) {
        Err(e) => {},
        Ok(next) => {
            match chunk {
                ChunkText::BookTitle => {
                    assert(next.last().chapters.len() == 0);
                    assert forall|b: int| 0 <= b < next.len() - 1 implies (
                    #[trigger] next[b]).chapters.len() > 0 by {
                        assert(next[b] == books[b]);
                    }
                    assert forall|b: int, c: int|
                        0 <= b < next.len() && 0 <= c < next[b].chapters.len() && !(b == next.len()
                            - 1 && c == next[b].chapters.len() - 1) implies (
                    #[trigger] next[b].chapters[c]).len() > 0 by {
                        assert(next[b] == books[b]);
                    }
                },
                ChunkText::BookDescription => {
                    assert forall|b: int| 0 <= b < next.len() - 1 implies (
                    #[trigger] next[b]).chapters.len() > 0 by {
                        assert(next[b] == books[b]);
                    }
                },
                ChunkText::ChapterStart => {
                    lemma_opening_keeps_filled(books);
                },
                ChunkText::Verse { short_title, verse, verse_num } => {
                    let opened = if previous is BookTitle || previous is BookDescription {
                        lemma_opening_keeps_filled(books);
                        with_chapter_opened(books)
                    } else {
                        books
                    };
                    if opened.len() > 0 {
                        assert(opened.last().chapters.len() > 0);
                        let last = opened.last();
                        let grown = last.chapters.last().push(fold_lines(verse));
                        assert(next.last().chapters.last() == grown);
                        assert forall|b: int| 0 <= b < next.len() - 1 implies (
                        #[trigger] next[b]).chapters.len() > 0 by {
                            assert(next[b] == opened[b]);
                        }
                        assert forall|b: int, c: int|
                            0 <= b < next.len() && 0 <= c < next[b].chapters.len() && !(b
                                == next.len() - 1 && c == next[b].chapters.len() - 1) implies (
                        #[trigger] next[b].chapters[c]).len() > 0 by {
                            if b < next.len() - 1 {
                                assert(next[b] == opened[b]);
                            } else {
                                assert(next[b].chapters[c] == opened[b].chapters[c]);
                            }
                        }
                    }
                },
                ChunkText::Unrecognized => {},
            }
        },
    }
}

/// Opening a chapter behind a chapter that has a verse, or in a book that
/// has none, leaves the books filled.
proof fn lemma_opening_keeps_filled(books: Seq<BookText>)
    requires
        filled(books),
        books.len() > 0 ==> books.last().chapters.len() == 0 || books.last().chapters.last().len()
            > 0,
    ensures
        filled(with_chapter_opened(books)),
        books.len() > 0 ==> with_chapter_opened(books).last().chapters.len() > 0
            && with_chapter_opened(books).last().chapters.last().len() == 0
            && with_chapter_opened(books).len() == books.len(),
        books.len() == 0 ==> with_chapter_opened(books) == books,
{
    let next = with_chapter_opened(books);
    if books.len() > 0 {
        assert forall|b: int| 0 <= b < next.len() - 1 implies (#[trigger] next[b]).chapters.len()
            > 0 by {
            assert(next[b] == books[b]);
        }
        assert forall|b: int, c: int|
            0 <= b < next.len() && 0 <= c < next[b].chapters.len() && !(b == next.len() - 1 && c
                == next[b].chapters.len() - 1) implies (#[trigger] next[b].chapters[c]).len()
            > 0 by {
            if b < next.len() - 1 {
                assert(next[b] == books[b]);
            } else {
                assert(next[b].chapters[c] == books[b].chapters[c]);
            }
        }
    }
}

proof fn lemma_corpus_is_filled(
    chunks: Seq<Seq<char>>,
    i: int,
    books: Seq<BookText>,
    previous: ChunkText,
)
    requires
        0 <= i <= chunks.len(),
        settled(books, previous),
    ensures
        corpus_from(chunks, i, books, previous) matches Ok(all) ==> filled(all) && all.len() > 0,
    decreases chunks.len() - i,
{
    if i < chunks.len() {
        lemma_step_keeps_settled(books, previous, chunks[i], classify(chunks[i]));
        match step(books, previous, chunks[i], classify(chunks[i])) {
            Err(e) => {},
            Ok(next) => {
                lemma_corpus_is_filled(chunks, i + 1, next, classify(chunks[i]));
            },
        }
    }
}

/// In a corpus that was parsed there is at least one book, every book but
/// the last has a chapter, and every chapter but the last chapter of the
/// last book has a verse.
pub proof fn law_parsed_corpus_is_filled(s: Seq<char>)
    ensures
        corpus_of(s) matches Ok(books) ==> books.len() > 0 && filled(books),
{
    lemma_corpus_is_filled(blocks(s), 0, Seq::empty(), before_first_block());
}

/// A text without blocks holds no books.
pub proof fn law_empty_text_holds_no_books()
    ensures
        corpus_of(Seq::empty()) == Err::<Seq<BookText>, CorpusFaultText>(
            CorpusFaultText::NoBooksFound,
        ),
{
    assert(blocks(Seq::empty()) =~= Seq::<Seq<char>>::empty());
}

/// A verse whose number does not follow the count of verses in the chapter
/// it falls into is refused, and the fault names the number that was due and
/// the number that was found.
pub proof fn law_skipped_verse_is_refused(
    books: Seq<BookText>,
    previous: ChunkText,
    s: Seq<char>,
    short_title: Seq<char>,
    verse: Seq<char>,
    verse_num: usize,
)
    requires
        books.len() > 0,
        previous is ChapterStart || previous is Verse,
        books.last().chapters.len() > 0,
        verse_num != books.last().chapters.last().len() + 1,
    ensures
        step(books, previous, s, (ChunkText::Verse { short_title, verse, verse_num })) == Err::<
            Seq<BookText>,
            CorpusFaultText,
        >(
            (CorpusFaultText::VerseNumberMismatch {
                expected: next_verse_number(books.last().chapters.last().len()),
                found: verse_num,
                text: s,
            }),
        ),
{
}

/// The first verse of a chapter that a verse opens behind a book title or a
/// book description must bear the number one.
pub proof fn law_first_verse_is_verse_one(
    books: Seq<BookText>,
    previous: ChunkText,
    s: Seq<char>,
    short_title: Seq<char>,
    verse: Seq<char>,
    verse_num: usize,
)
    requires
        books.len() > 0,
        previous is BookTitle || previous is BookDescription,
        verse_num != 1,
    ensures
        step(books, previous, s, (ChunkText::Verse { short_title, verse, verse_num })) == Err::<
            Seq<BookText>,
            CorpusFaultText,
        >((CorpusFaultText::VerseNumberMismatch { expected: 1, found: verse_num, text: s })),
{
    let opened = with_chapter_opened(books);
    assert(opened.last().chapters.last() =~= Seq::<Seq<char>>::empty());
}

/// Whether `bom` carries the front matter of the Gutenberg edition.
pub open spec fn has_standard_front_matter(bom: &BOM) -> bool {
    &&& bom.title@ == "The Book of Mormon"@
    &&& bom.subtitle@ == "Another Testament of Jesus Christ"@
    &&& bom.translator@ == "Joseph Smith, Jr."@
    &&& bom.last_updated@ == "February 1, 2013"@
    &&& bom.language@ == "en"@
    &&& bom.title_page_text@ == TITLE_PAGE_TEXT@
    &&& bom.witness_testimonies@.len() == 2
    &&& bom.witness_testimonies@[0].title@ == THREE_WITNESS_TITLE@
    &&& bom.witness_testimonies@[0].text@ == THREE_WITNESS_TEXT@
    &&& bom.witness_testimonies@[0].signatures@ == THREE_WITNESS_SIGNATURES@
    &&& bom.witness_testimonies@[1].title@ == EIGHT_WITNESS_TITLE@
    &&& bom.witness_testimonies@[1].text@ == EIGHT_WITNESS_TEXT@
    &&& bom.witness_testimonies@[1].signatures@ == EIGHT_WITNESS_SIGNATURES@
}

/// Parses the text of a corpus; see [`corpus_of`].
pub fn parse_corpus(text: &str) -> (r: Result<BOM, ParseError>)
    ensures
        match r {
            Ok(bom) => corpus_of(text@) == Ok::<Seq<BookText>, CorpusFaultText>(bom@)
                && has_standard_front_matter(&bom),
            Err(ParseError::CorpusInvalid(fault)) => corpus_of(text@) == Err::<
                Seq<BookText>,
                CorpusFaultText,
            >(fault@),
            Err(ParseError::CorpusNotFound) => false,
        },
{
    let mut witness_testimonies: Vec<WitnessTestimony> = Vec::new();
    witness_testimonies.push(
        WitnessTestimony {
            title: THREE_WITNESS_TITLE.to_owned(),
            text: THREE_WITNESS_TEXT.to_owned(),
            signatures: THREE_WITNESS_SIGNATURES.to_owned(),
        },
    );
    witness_testimonies.push(
        WitnessTestimony {
            title: EIGHT_WITNESS_TITLE.to_owned(),
            text: EIGHT_WITNESS_TEXT.to_owned(),
            signatures: EIGHT_WITNESS_SIGNATURES.to_owned(),
        },
    );
    let mut bom = BOM {
        title: "The Book of Mormon".to_owned(),
        subtitle: "Another Testament of Jesus Christ".to_owned(),
        translator: "Joseph Smith, Jr.".to_owned(),
        last_updated: "February 1, 2013".to_owned(),
        language: "en".to_owned(),
        title_page_text: TITLE_PAGE_TEXT.to_owned(),
        witness_testimonies,
        books: Vec::new(),
    };
    let ghost fresh = bom;
    let chars = chars_of(text);
    let chunks = split_blocks(chars.as_slice());
    let mut previous_chunk = ChunkType::Verse {
        short_title: String::new(),
        verse: String::new(),
        verse_num: 0,
    };
    proof {
        assert(bom@ =~= Seq::<BookText>::empty());
        assert(previous_chunk@ == before_first_block());
    }
    let mut i: usize = 0;
    while i < chunks.len()
        invariant
            i <= chunks@.len(),
            texts(chunks@) == blocks(text@),
            same_front_matter(&bom, &fresh),
            corpus_of(text@) == corpus_from(blocks(text@), i as int, bom@, previous_chunk@),
        decreases chunks@.len() - i,
    {
        let block = string_of(chunks[i].as_slice());
        proof {
            assert(texts(chunks@)[i as int] == chunks@[i as int]@);
        }
        match update_book_with_chunk(block.as_str(), &previous_chunk, &mut bom) {
            Ok(chunk) => {
                previous_chunk = chunk;
            },
            Err(e) => {
                return Err(e);
            },
        }
        i += 1;
    }
    if bom.books.len() == 0 {
        return Err(ParseError::CorpusInvalid(CorpusFault::NoBooksFound));
    }
    Ok(bom)
}

/// Something that can produce a corpus.
pub trait BOMParser {
    /// What is returned when parsing fails.
    type Err;

    /// Parses into a corpus.
    fn parse(self) -> Result<BOM, Self::Err>;
}

/// Parses a corpus out of the text that it was given.
pub struct Parser {
    text: String,
}

impl Parser {
    /// A parser for `text`, which holds the corpus as one text that begins
    /// with the title of the first book.
    #[must_use]
    pub fn new(text: &str) -> (r: Self)
        ensures
            r.text() == text@,
    {
        Self { text: text.to_owned() }
    }

    /// The text that the parser was given.
    pub closed spec fn text(&self) -> Seq<char> {
        self.text@
    }
}

impl BOMParser for Parser {
    type Err = ParseError;

    fn parse(self) -> (r: Result<BOM, ParseError>)
        ensures
            match r {
                Ok(bom) => corpus_of(self.text()) == Ok::<Seq<BookText>, CorpusFaultText>(bom@)
                    && has_standard_front_matter(&bom),
                Err(ParseError::CorpusInvalid(fault)) => corpus_of(self.text()) == Err::<
                    Seq<BookText>,
                    CorpusFaultText,
                >(fault@),
                Err(ParseError::CorpusNotFound) => false,
            },
    {
        parse_corpus(self.text.as_str())
    }
}

/// The title page.
pub const TITLE_PAGE_TEXT: &'static str = "THE BOOK OF MORMON

An Account Written

BY THE HAND OF MORMON

UPON PLATES

TAKEN FROM THE PLATES OF NEPHI


Wherefore, it is an abridgment of the record of the people of
Nephi, and also of the Lamanites--Written to the Lamanites, who
are a remnant of the house of Israel; and also to Jew and
Gentile--Written by way of commandment, and also by the spirit of
prophecy and of revelation--Written and sealed up, and hid up
unto the Lord, that they might not be destroyed--To come forth by
the gift and power of God unto the interpretation thereof--Sealed
by the hand of Moroni, and hid up unto the Lord, to come forth in
due time by way of the Gentile--The interpretation thereof by the
gift of God.

An abridgment taken from the Book of Ether also, which is a
record of the people of Jared, who were scattered at the time the
Lord confounded the language of the people, when they were
building a tower to get to heaven--Which is to show unto the
remnant of the House of Israel what great things the Lord hath
done for their fathers; and that they may know the covenants of
the Lord, that they are not cast off forever--And also to the
convincing of the Jew and Gentile that JESUS is the CHRIST, the
ETERNAL GOD, manifesting himself unto all nations--And now, if
there are faults they are the mistakes of men; wherefore, condemn
not the things of God, that ye may be found spotless at the
judgment-seat of Christ.

TRANSLATED BY JOSEPH SMITH, JUN.";

/// Heading of the first testimony.
pub const THREE_WITNESS_TITLE: &'static str = "THE TESTIMONY OF THREE WITNESSES";

/// Text of the first testimony.
pub const THREE_WITNESS_TEXT: &'static str = "Be it known unto all nations, kindreds, tongues, and people, unto
whom this work shall come: That we, through the grace of God the
Father, and our Lord Jesus Christ, have seen the plates which
contain this record, which is a record of the people of Nephi,
and also of the Lamanites, their brethren, and also of the people
of Jared, who came from the tower of which hath been spoken. And
we also know that they have been translated by the gift and power
of God, for his voice hath declared it unto us; wherefore we know
of a surety that the work is true. And we also testify that we
have seen the engravings which are upon the plates; and they have
been shown unto us by the power of God, and not of man. And we
declare with words of soberness, that an angel of God came down
from heaven, and he brought and laid before our eyes, that we
beheld and saw the plates, and the engravings thereon; and we
know that it is by the grace of God the Father, and our Lord
Jesus Christ, that we beheld and bear record that these things
are true. And it is marvelous in our eyes. Nevertheless, the
voice of the Lord commanded us that we should bear record of it;
wherefore, to be obedient unto the commandments of God, we bear
testimony of these things. And we know that if we are faithful
in Christ, we shall rid our garments of the blood of all men, and
be found spotless before the judgment-seat of Christ, and shall
dwell with him eternally in the heavens. And the honor be to the
Father, and to the Son, and to the Holy Ghost, which is one God.
Amen.";

/// Who signed the first testimony.
pub const THREE_WITNESS_SIGNATURES: &'static str = "OLIVER COWDERY
DAVID WHITMER
MARTIN HARRIS";

/// Heading of the second testimony.
pub const EIGHT_WITNESS_TITLE: &'static str = "THE TESTIMONY OF EIGHT WITNESSES";

/// Text of the second testimony.
pub const EIGHT_WITNESS_TEXT: &'static str = "Be it known unto all nations, kindreds, tongues, and people, unto
whom this work shall come: That Joseph Smith, Jun., the
translator of this work, has shown unto us the plates of which
hath been spoken, which have the appearance of gold; and as many
of the leaves as the said Smith has translated we did handle with
our hands; and we also saw the engravings thereon, all of which
has the appearance of ancient work, and of curious workmanship.
And this we bear record with words of soberness, that the said
Smith has shown unto us, for we have seen and hefted, and know of
a surety that the said Smith has got the plates of which we have
spoken. And we give our names unto the world, to witness unto
the world that which we have seen. And we lie not, God bearing
witness of it.";

/// Who signed the second testimony.
pub const EIGHT_WITNESS_SIGNATURES: &'static str = "CHRISTIAN WHITMER
JACOB WHITMER
PETER WHITMER, JUN.
JOHN WHITMER
HIRAM PAGE
JOSEPH SMITH, SEN.
HYRUM SMITH
SAMUEL H. SMITH";

} // verus!
