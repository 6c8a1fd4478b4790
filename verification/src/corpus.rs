//! The corpus: books, chapters and verses, and how a verse is looked up.

use vstd::prelude::*;
use crate::books::known_book;
use crate::collection::{
    expansion_of_all, lemma_expansion_of_all_exists, url_text, RangeCollection,
};
use crate::reference::{RangeType, VerseRangeReference};
use crate::text::{decimal, push_decimal, push_str, string_of};
use crate::reference::{VerseReference, Work};
use crate::text::text_of;

verus! {

/// One verse: its text. Its number is its place in the chapter.
#[derive(Debug, Clone)]
pub struct Verse {
    pub text: String,
}

/// One chapter: its verses in order.
#[derive(Debug, Clone)]
pub struct Chapter {
    pub verses: Vec<Verse>,
}

/// One book.
#[derive(Debug, Clone)]
pub struct Book {
    pub title: String,
    pub short_title: Option<String>,
    pub description: Option<String>,
    pub chapters: Vec<Chapter>,
}

/// A testimony printed in the front matter.
#[derive(Debug, Clone)]
pub struct WitnessTestimony {
    pub title: String,
    pub text: String,
    pub signatures: String,
}

/// A parsed corpus: front matter and the books in order.
#[derive(Debug, Clone)]
pub struct BOM {
    pub title: String,
    pub subtitle: String,
    pub translator: String,
    pub last_updated: String,
    pub language: String,
    pub title_page_text: String,
    pub witness_testimonies: Vec<WitnessTestimony>,
    pub books: Vec<Book>,
}

/// What a book holds, as plain text: each chapter is the sequence of its
/// verses' texts.
pub struct BookText {
    pub title: Seq<char>,
    pub short_title: Option<Seq<char>>,
    pub description: Option<Seq<char>>,
    pub chapters: Seq<Seq<Seq<char>>>,
}

impl View for Verse {
    type V = Seq<char>;

    open spec fn view(&self) -> Seq<char> {
        self.text@
    }
}

impl View for Chapter {
    type V = Seq<Seq<char>>;

    open spec fn view(&self) -> Seq<Seq<char>> {
        Seq::new(self.verses@.len(), |i: int| self.verses@[i]@)
    }
}

impl View for Book {
    type V = BookText;

    open spec fn view(&self) -> BookText {
        BookText {
            title: self.title@,
            short_title: text_of(self.short_title),
            description: text_of(self.description),
            chapters: Seq::new(self.chapters@.len(), |i: int| self.chapters@[i]@),
        }
    }
}

impl View for BOM {
    type V = Seq<BookText>;

    /// The books of the corpus; the front matter is left out.
    open spec fn view(&self) -> Seq<BookText> {
        Seq::new(self.books@.len(), |i: int| self.books@[i]@)
    }
}

/// Whether `books` has a verse at book `b` (from zero), chapter `c` and verse
/// `v` (both from one).
pub open spec fn has_verse(books: Seq<BookText>, b: int, c: int, v: int) -> bool {
    &&& 0 <= b < books.len()
    &&& 1 <= c <= books[b].chapters.len()
    &&& 1 <= v <= books[b].chapters[c - 1].len()
}

/// Whether `books` has chapter `c` (from one) in book `b` (from zero).
pub open spec fn has_chapter(books: Seq<BookText>, b: int, c: int) -> bool {
    &&& 0 <= b < books.len()
    &&& 1 <= c <= books[b].chapters.len()
}

/// The title under which a book's verses are shown: the short title where
/// the book has one, else the long title.
pub open spec fn display_title(book: BookText) -> Seq<char> {
    match book.short_title {
        Some(t) => t,
        None => book.title,
    }
}

impl VerseReference {
    /// Whether the reference points at a verse of `bom`.
    pub fn is_valid(&self, bom: &BOM) -> (r: bool)
        ensures
            r == has_verse(
                bom@,
                self.book_index as int,
                self.chapter_index as int,
                self.verse_index as int,
            ),
    {
        if self.chapter_index == 0 || self.verse_index == 0 {
            return false;
        }
        if self.book_index >= bom.books.len() {
            return false;
        }
        let book = &bom.books[self.book_index];
        if self.chapter_index > book.chapters.len() {
            return false;
        }
        let chapter = &book.chapters[self.chapter_index - 1];
        self.verse_index <= chapter.verses.len()
    }
}

/// The text of a verse together with its reference.
#[derive(Debug, PartialEq, Eq)]
pub struct VerseWithReference<'v> {
    /// Title of the book, so that the verse can be shown without the corpus.
    pub book_title: String,
    pub reference: VerseReference,
    pub text: &'v str,
}

/// The clause that covers the single verse `r` of the Book of Mormon.
pub open spec fn single_verse_clause(r: VerseReference) -> VerseRangeReference {
    VerseRangeReference {
        range_type: RangeType::StartEndVerse {
            chapter: r.chapter_index,
            start: r.verse_index,
            end: r.verse_index,
        },
        book_index: r.book_index,
        work: Work::BookOfMormon,
    }
}

/// The heading of a verse: title, chapter and verse.
pub open spec fn heading_text(title: Seq<char>, r: VerseReference) -> Seq<char> {
    title + " "@ + decimal(r.chapter_index as nat) + ":"@ + decimal(r.verse_index as nat)
}

/// A verse as plain text: its heading, and on the next line its text.
pub open spec fn plain_text(title: Seq<char>, r: VerseReference, text: Seq<char>) -> Seq<char> {
    heading_text(title, r) + "\n"@ + text
}

/// A verse as HTML: its heading as a link to the verse, then its text as a
/// paragraph.
pub open spec fn html_text(title: Seq<char>, r: VerseReference, text: Seq<char>) -> Seq<char> {
    "<h3><a href=\""@ + url_text(single_verse_clause(r)).unwrap() + "\">"@ + heading_text(title, r)
        + "</a></h3> <p>"@ + text + "</p>"@
}

impl<'v> VerseWithReference<'v> {
    fn push_heading(&self, out: &mut Vec<char>)
        ensures
            final(out)@ == old(out)@ + heading_text(self.book_title@, self.reference),
    {
        push_str(out, self.book_title.as_str());
        push_str(out, " ");
        push_decimal(out, self.reference.chapter_index);
        push_str(out, ":");
        push_decimal(out, self.reference.verse_index);
        proof {
            assert(out@ =~= old(out)@ + heading_text(self.book_title@, self.reference));
        }
    }

    /// The verse as HTML; see [`html_text`].
    pub fn to_html_string(&self) -> (r: String)
        requires
            known_book(Work::BookOfMormon, self.reference.book_index),
        ensures
            r@ == html_text(self.book_title@, self.reference, self.text@),
    {
        let mut out: Vec<char> = Vec::new();
        push_str(&mut out, "<h3><a href=\"");
        match self.reference.url() {
            Some(link) => {
                push_str(&mut out, link.as_str());
            },
            None => {},
        }
        push_str(&mut out, "\">");
        self.push_heading(&mut out);
        push_str(&mut out, "</a></h3> <p>");
        push_str(&mut out, self.text);
        push_str(&mut out, "</p>");
        proof {
            assert(out@ =~= html_text(self.book_title@, self.reference, self.text@));
        }
        string_of(out.as_slice())
    }

    /// The verse as plain text; see [`plain_text`].
    pub fn to_plain_string(&self) -> (r: String)
        ensures
            r@ == plain_text(self.book_title@, self.reference, self.text@),
    {
        let mut out: Vec<char> = Vec::new();
        self.push_heading(&mut out);
        push_str(&mut out, "\n");
        push_str(&mut out, self.text);
        proof {
            assert(out@ =~= plain_text(self.book_title@, self.reference, self.text@));
        }
        string_of(out.as_slice())
    }
}

impl BOM {
    /// The verse that `r` points at, or `None` where `r` points at nothing.
    #[must_use]
    pub fn verse_matching(&self, r: &VerseReference) -> (found: Option<VerseWithReference<'_>>)
        ensures
            found is Some == has_verse(
                self@,
                r.book_index as int,
                r.chapter_index as int,
                r.verse_index as int,
            ),
            found matches Some(v) ==> {
                &&& v.reference == *r
                &&& v.book_title@ == display_title(self@[r.book_index as int])
                &&& v.text@ == self@[r.book_index as int].chapters[r.chapter_index - 1][r.verse_index
                    - 1]
            },
    {
        if r.is_valid(self) {
            let book = &self.books[r.book_index];
            let verse = &book.chapters[r.chapter_index - 1].verses[r.verse_index - 1];
            let book_title = match &book.short_title {
                Some(t) => t.clone(),
                None => book.title.clone(),
            };
            Some(VerseWithReference { book_title, reference: *r, text: verse.text.as_str() })
        } else {
            None
        }
    }
}

/// Whether `item` shows the verse of `books` that `r` points at: it carries
/// `r`, the title under which the book is shown, and the text of the verse.
pub open spec fn shows(books: Seq<BookText>, item: VerseWithReference<'_>, r: VerseReference) -> bool {
    &&& has_verse(books, r.book_index as int, r.chapter_index as int, r.verse_index as int)
    &&& item.reference == r
    &&& item.book_title@ == display_title(books[r.book_index as int])
    &&& item.text@ == books[r.book_index as int].chapters[r.chapter_index - 1][r.verse_index - 1]
}

/// The reference to the place `(b, c, v)`: book `b` counted from zero,
/// chapter `c` and verse `v` counted from one.
pub open spec fn place(b: int, c: int, v: int) -> VerseReference {
    VerseReference {
        work: Work::BookOfMormon,
        book_index: b as usize,
        chapter_index: c as usize,
        verse_index: v as usize,
    }
}

/// The references to the verses of `books` from book `b`, chapter `c`, verse
/// `v` onwards, in the order of the text. The walk ends where the place it
/// has come to holds no verse: behind the last book, or at a book without
/// chapters or a chapter without verses.
pub open spec fn verses_from(books: Seq<BookText>, b: int, c: int, v: int) -> Seq<VerseReference>
    decreases
        books.len() - b,
        (if has_chapter(books, b, c) {
            books[b].chapters.len() - c
        } else {
            0
        }),
        (if has_verse(books, b, c, v) {
            books[b].chapters[c - 1].len() - v
        } else {
            0
        }),
{
    if !has_verse(books, b, c, v) {
        Seq::empty()
    } else {
        let rest = if v < books[b].chapters[c - 1].len() {
            verses_from(books, b, c, v + 1)
        } else if c < books[b].chapters.len() {
            verses_from(books, b, c + 1, 1)
        } else {
            verses_from(books, b + 1, 1, 1)
        };
        seq![place(b, c, v)] + rest
    }
}

/// The references to all verses of `books`, in the order of the text.
pub open spec fn all_verses(books: Seq<BookText>) -> Seq<VerseReference> {
    verses_from(books, 0, 1, 1)
}

/// Whether every book but the last has a chapter, and every chapter but the
/// last chapter of the last book has a verse.
pub open spec fn filled(books: Seq<BookText>) -> bool {
    &&& forall|b: int| 0 <= b < books.len() - 1 ==> (#[trigger] books[b]).chapters.len() > 0
    &&& forall|b: int, c: int|
        0 <= b < books.len() && 0 <= c < books[b].chapters.len() && !(b == books.len() - 1 && c
            == books[b].chapters.len() - 1) ==> (#[trigger] books[b].chapters[c]).len() > 0
}

/// Whether the place `(b, c, v)` lies at or before the place `(b2, c2, v2)`
/// in the order of the text.
pub open spec fn at_or_before(b: int, c: int, v: int, b2: int, c2: int, v2: int) -> bool {
    b < b2 || (b == b2 && (c < c2 || (c == c2 && v <= v2)))
}

/// In books that are filled, the walk from a verse comes by every verse
/// behind it.
pub proof fn lemma_walk_reaches(
    books: Seq<BookText>,
    b: int,
    c: int,
    v: int,
    b2: int,
    c2: int,
    v2: int,
)
    requires
        filled(books),
        has_verse(books, b, c, v),
        has_verse(books, b2, c2, v2),
        at_or_before(b, c, v, b2, c2, v2),
        books.len() <= usize::MAX,
        books[b2].chapters.len() <= usize::MAX,
        books[b2].chapters[c2 - 1].len() <= usize::MAX,
    ensures
        verses_from(books, b, c, v).contains(place(b2, c2, v2)),
    decreases
        books.len() - b,
        (if has_chapter(books, b, c) {
            books[b].chapters.len() - c
        } else {
            0
        }),
        (if has_verse(books, b, c, v) {
            books[b].chapters[c - 1].len() - v
        } else {
            0
        }),
{
    let target = place(b2, c2, v2);
    let walk = verses_from(books, b, c, v);
    if b == b2 && c == c2 && v == v2 {
        assert(walk[0] == target);
    } else {
        let rest = if v < books[b].chapters[c - 1].len() {
            lemma_walk_reaches(books, b, c, v + 1, b2, c2, v2);
            verses_from(books, b, c, v + 1)
        } else if c < books[b].chapters.len() {
            assert(books[b].chapters[c].len() > 0 || (b == b2 && c + 1 == c2));
            lemma_walk_reaches(books, b, c + 1, 1, b2, c2, v2);
            verses_from(books, b, c + 1, 1)
        } else {
            assert(b < b2);
            assert(books[b + 1].chapters.len() > 0 || b + 1 == b2);
            assert(books[b + 1].chapters[0].len() > 0 || (b + 1 == b2 && c2 == 1));
            lemma_walk_reaches(books, b + 1, 1, 1, b2, c2, v2);
            verses_from(books, b + 1, 1, 1)
        };
        let at = choose|i: int| 0 <= i < rest.len() && rest[i] == target;
        assert(walk[at + 1] == rest[at]);
    }
}

/// The walk through a corpus in which every book but the last has a chapter,
/// and every chapter but the last of the last book a verse, comes by every
/// verse of the corpus.
pub proof fn law_walk_is_complete(bom: &BOM, b: int, c: int, v: int)
    requires
        filled(bom@),
        has_verse(bom@, b, c, v),
    ensures
        all_verses(bom@).contains(place(b, c, v)),
{
    let books = bom@;
    assert(books.len() == bom.books.len());
    assert(books[b].chapters.len() == bom.books@[b].chapters.len());
    assert(books[b].chapters[c - 1].len() == bom.books@[b].chapters@[c - 1].verses.len());
    if books[0].chapters.len() == 0 {
        assert(b == 0);
    } else if books[0].chapters[0].len() == 0 {
        assert(b == 0 && c == 1);
    } else {
        lemma_walk_reaches(books, 0, 1, 1, b, c, v);
    }
}

impl BOM {
    /// All verses of the corpus, in the order of the text; see [`all_verses`].
    pub fn verses(&self) -> (out: Vec<VerseWithReference<'_>>)
        ensures
            out@.len() == all_verses(self@).len(),
            forall|i: int| 0 <= i < out@.len() ==> shows(self@, #[trigger] out@[i], all_verses(self@)[i]),
    {
        let mut out: Vec<VerseWithReference<'_>> = Vec::new();
        let mut b: usize = 0;
        let mut c: usize = 1;
        let mut v: usize = 1;
        let ghost all = all_verses(self@);
        loop
            invariant
                all == all_verses(self@),
                all == all.take(out@.len() as int) + verses_from(self@, b as int, c as int, v as int),
                out@.len() <= all.len(),
                forall|i: int| 0 <= i < out@.len() ==> shows(self@, #[trigger] out@[i], all[i]),
            ensures
                out@.len() == all.len(),
                forall|i: int| 0 <= i < out@.len() ==> shows(self@, #[trigger] out@[i], all[i]),
            decreases
                    self@.len() - b,
                    (if has_chapter(self@, b as int, c as int) {
                        self@[b as int].chapters.len() - c
                    } else {
                        0
                    }),
                    (if has_verse(self@, b as int, c as int, v as int) {
                        self@[b as int].chapters[c - 1].len() - v
                    } else {
                        0
                    }),
        {
            let position = VerseReference::new(Work::BookOfMormon, b, c, v);
            let item = match self.verse_matching(&position) {
                Some(item) => item,
                None => {
                    proof {
                        assert(all.take(out@.len() as int) + Seq::<VerseReference>::empty()
                            =~= all.take(out@.len() as int));
                    }
                    break ;
                },
            };
            let ghost n = out@.len() as int;
            proof {
                let rest = verses_from(self@, b as int, c as int, v as int);
                assert(rest[0] == position);
                assert(all[n] == position);
            }
            out.push(item);
            let book = &self.books[b];
            let chapter_len = book.chapters[c - 1].verses.len();
            let ghost old_b = b;
            let ghost old_c = c;
            let ghost old_v = v;
            if v < chapter_len {
                v += 1;
            } else if c < book.chapters.len() {
                v = 1;
                c += 1;
            } else {
                assert(b < self.books.len());
                v = 1;
                c = 1;
                b += 1;
            }
            proof {
                let rest = verses_from(self@, old_b as int, old_c as int, old_v as int);
                let next = verses_from(self@, b as int, c as int, v as int);
                assert(rest == seq![position] + next);
                assert(all.take(n) + (seq![position] + next) =~= all.take(n + 1) + next);
            }
        }
        out
    }

    /// The verses that the collection covers, clause after clause and in order
    /// within each clause. A clause that is not valid in this corpus covers
    /// nothing.
    pub fn verses_matching(&self, range_collection: &RangeCollection) -> (out: Vec<
        VerseWithReference<'_>,
    >)
        ensures
            out@.len() == expansion_of_all(self@, range_collection@).len(),
            forall|i: int|
                0 <= i < out@.len() ==> shows(
                    self@,
                    #[trigger] out@[i],
                    expansion_of_all(self@, range_collection@)[i],
                ),
    {
        let refs = range_collection.verse_refs(self);
        let mut out: Vec<VerseWithReference<'_>> = Vec::new();
        let mut i: usize = 0;
        while i < refs.len()
            invariant
                i <= refs@.len(),
                refs@ == expansion_of_all(self@, range_collection@),
                out@.len() == i,
                forall|j: int| 0 <= j < out@.len() ==> shows(self@, #[trigger] out@[j], refs@[j]),
            decreases refs@.len() - i,
        {
            proof {
                lemma_expansion_of_all_exists(self, range_collection@, i as int);
            }
            if let Some(item) = self.verse_matching(&refs[i]) {
                out.push(item);
            }
            i += 1;
        }
        out
    }
}

} // verus!
