//! A parsed citation: an ordered collection of clauses that can be checked
//! against a corpus, expanded into single verses, put into canonical form and
//! written out again.

use vstd::prelude::*;
use crate::books::{book_row, find_book, first_row, known_book};
use crate::canonical::{
    canonical_form, lemma_canonical_form_well_formed, merge_references, sort_references,
};
use crate::citation::{canonical_text, parse_citation, parse_references, render_references};
use crate::corpus::{has_chapter, has_verse, single_verse_clause, BookText, BOM};
use crate::error::{BOMError, FaultText};
use crate::reference::{well_formed, RangeType, VerseRangeReference, VerseReference, Work};
use crate::text::{chars_of, decimal, push_decimal, push_str, string_of};

verus! {

/// Whether both ends of the clause exist in `books`.
pub open spec fn range_is_valid(books: Seq<BookText>, r: VerseRangeReference) -> bool {
    match r.range_type {
        RangeType::StartEndChapter { start, end } => {
            &&& has_chapter(books, r.book_index as int, start as int)
            &&& has_chapter(books, r.book_index as int, end as int)
        },
        RangeType::StartEndVerse { chapter, start, end } => {
            &&& has_verse(books, r.book_index as int, chapter as int, start as int)
            &&& has_verse(books, r.book_index as int, chapter as int, end as int)
        },
    }
}

/// Zero is never a chapter or a verse: a clause with a zero in it is not valid
/// in any corpus.
pub proof fn law_zero_is_never_valid(books: Seq<BookText>, r: VerseRangeReference)
    requires
        range_is_valid(books, r),
    ensures
        match r.range_type {
            RangeType::StartEndChapter { start, end } => start >= 1 && end >= 1,
            RangeType::StartEndVerse { chapter, start, end } => chapter >= 1 && start >= 1 && end
                >= 1,
        },
{
}

/// Verses `from..=to` of chapter `c` of book `b`, in order.
pub open spec fn verse_run(b: usize, c: usize, from: int, to: int) -> Seq<VerseReference> {
    Seq::new(
        if to >= from {
            (to - from + 1) as nat
        } else {
            0
        },
        |i: int|
            VerseReference {
                work: Work::BookOfMormon,
                book_index: b,
                chapter_index: c,
                verse_index: (from + i) as usize,
            },
    )
}

/// All verses of chapters `from..=to` of book `b`, in order.
pub open spec fn chapter_run(books: Seq<BookText>, b: usize, from: int, to: int) -> Seq<
    VerseReference,
>
    decreases to - from + 1,
{
    if from > to {
        Seq::empty()
    } else {
        chapter_run(books, b, from, to - 1) + verse_run(
            b,
            to as usize,
            1,
            books[b as int].chapters[to - 1].len() as int,
        )
    }
}

/// The verses that a clause covers, in order; none where the clause is not valid.
pub open spec fn expansion(books: Seq<BookText>, r: VerseRangeReference) -> Seq<VerseReference> {
    if !range_is_valid(books, r) {
        Seq::empty()
    } else {
        match r.range_type {
            RangeType::StartEndChapter { start, end } => chapter_run(
                books,
                r.book_index,
                start as int,
                end as int,
            ),
            RangeType::StartEndVerse { chapter, start, end } => verse_run(
                r.book_index,
                chapter,
                start as int,
                end as int,
            ),
        }
    }
}

/// The verses that the clauses cover, clause after clause.
pub open spec fn expansion_of_all(books: Seq<BookText>, refs: Seq<VerseRangeReference>) -> Seq<
    VerseReference,
>
    decreases refs.len(),
{
    if refs.len() == 0 {
        Seq::empty()
    } else {
        expansion_of_all(books, refs.drop_last()) + expansion(books, refs.last())
    }
}

impl VerseRangeReference {
    /// Whether both ends of the clause exist in `bom`.
    pub fn is_valid(&self, bom: &BOM) -> (r: bool)
        ensures
            r == range_is_valid(bom@, *self),
    {
        if self.book_index >= bom.books.len() {
            return false;
        }
        let book = &bom.books[self.book_index];
        match self.range_type {
            RangeType::StartEndChapter { start, end } => {
                start != 0 && end != 0 && start <= book.chapters.len() && end
                    <= book.chapters.len()
            },
            RangeType::StartEndVerse { chapter, start, end } => {
                if chapter == 0 || start == 0 || end == 0 || chapter > book.chapters.len() {
                    return false;
                }
                let verses = &book.chapters[chapter - 1].verses;
                start <= verses.len() && end <= verses.len()
            },
        }
    }
}

fn push_verse_run(out: &mut Vec<VerseReference>, b: usize, c: usize, from: usize, to: usize)
    requires
        from >= 1,
    ensures
        final(out)@ == old(out)@ + verse_run(b, c, from as int, to as int),
{
    if from > to {
        proof {
            assert(old(out)@ + verse_run(b, c, from as int, to as int) =~= old(out)@);
        }
        return ;
    }
    let count: usize = to - from + 1;
    let mut i: usize = 0;
    let ghost run = verse_run(b, c, from as int, to as int);
    while i < count
        invariant
            i <= count,
            count == to - from + 1,
            from >= 1,
            run == verse_run(b, c, from as int, to as int),
            out@ == old(out)@ + run.take(i as int),
        decreases count - i,
    {
        out.push(
            VerseReference {
                work: Work::BookOfMormon,
                book_index: b,
                chapter_index: c,
                verse_index: from + i,
            },
        );
        proof {
            assert((old(out)@ + run.take(i as int)).push(run[i as int]) =~= old(out)@ + run.take(
                i + 1,
            ));
        }
        i += 1;
    }
    proof {
        assert(run.take(i as int) =~= run);
    }
}

impl VerseRangeReference {
    /// The verses that the clause covers in `bom`, in order; none where the
    /// clause is not valid. Every reference names the corpus's own work.
    pub fn verse_refs(&self, bom: &BOM) -> (out: Vec<VerseReference>)
        ensures
            out@ == expansion(bom@, *self),
    {
        let mut out: Vec<VerseReference> = Vec::new();
        if !self.is_valid(bom) {
            return out;
        }
        let b = self.book_index;
        let book = &bom.books[b];
        match self.range_type {
            RangeType::StartEndChapter { start, end } => {
                let mut done: usize = start - 1;
                while done < end
                    invariant
                        1 <= start <= book.chapters@.len(),
                        end <= book.chapters@.len(),
                        start - 1 <= done,
                        done <= end || done == start - 1,
                        b < bom.books@.len(),
                        *book == bom.books@[b as int],
                        out@ == chapter_run(bom@, b, start as int, done as int),
                    decreases end - done,
                {
                    let n = book.chapters[done].verses.len();
                    proof {
                        assert(bom@[b as int].chapters[done as int].len() == n);
                    }
                    push_verse_run(&mut out, b, done + 1, 1, n);
                    done += 1;
                }
                proof {
                    if start > end {
                        assert(chapter_run(bom@, b, start as int, end as int)
                            =~= Seq::<VerseReference>::empty());
                        assert(chapter_run(bom@, b, start as int, done as int)
                            =~= Seq::<VerseReference>::empty());
                    }
                }
            },
            RangeType::StartEndVerse { chapter, start, end } => {
                push_verse_run(&mut out, b, chapter, start, end);
                proof {
                    assert(Seq::<VerseReference>::empty() + verse_run(
                        b,
                        chapter,
                        start as int,
                        end as int,
                    ) =~= verse_run(b, chapter, start as int, end as int));
                }
            },
        }
        out
    }
}

/// Every verse that a clause covers exists in the corpus.
pub proof fn lemma_expansion_exists(bom: &BOM, r: VerseRangeReference, i: int)
    requires
        0 <= i < expansion(bom@, r).len(),
    ensures
        has_verse(
            bom@,
            expansion(bom@, r)[i].book_index as int,
            expansion(bom@, r)[i].chapter_index as int,
            expansion(bom@, r)[i].verse_index as int,
        ),
{
    match r.range_type {
        RangeType::StartEndChapter { start, end } => {
            lemma_chapter_run_exists(bom, r.book_index, start as int, end as int, i);
        },
        RangeType::StartEndVerse { chapter, .. } => {
            assert(bom@[r.book_index as int].chapters[chapter - 1].len()
                == bom.books@[r.book_index as int].chapters@[chapter - 1].verses.len());
        },
    }
}

proof fn lemma_chapter_run_exists(bom: &BOM, b: usize, from: int, to: int, i: int)
    requires
        0 <= b < bom@.len(),
        1 <= from,
        to <= bom@[b as int].chapters.len(),
        0 <= i < chapter_run(bom@, b, from, to).len(),
    ensures
        has_verse(
            bom@,
            chapter_run(bom@, b, from, to)[i].book_index as int,
            chapter_run(bom@, b, from, to)[i].chapter_index as int,
            chapter_run(bom@, b, from, to)[i].verse_index as int,
        ),
    decreases to - from + 1,
{
    if from <= to {
        let front = chapter_run(bom@, b, from, to - 1);
        if i < front.len() {
            lemma_chapter_run_exists(bom, b, from, to - 1, i);
        } else {
            assert(bom@[b as int].chapters.len() == bom.books@[b as int].chapters.len());
            assert(bom@[b as int].chapters[to - 1].len() == bom.books@[b as int].chapters@[to
                - 1].verses.len());
        }
    }
}

/// Every verse that a collection covers exists in the corpus.
pub proof fn lemma_expansion_of_all_exists(bom: &BOM, refs: Seq<VerseRangeReference>, i: int)
    requires
        0 <= i < expansion_of_all(bom@, refs).len(),
    ensures
        has_verse(
            bom@,
            expansion_of_all(bom@, refs)[i].book_index as int,
            expansion_of_all(bom@, refs)[i].chapter_index as int,
            expansion_of_all(bom@, refs)[i].verse_index as int,
        ),
    decreases refs.len(),
{
    if refs.len() > 0 {
        let front = expansion_of_all(bom@, refs.drop_last());
        if i < front.len() {
            lemma_expansion_of_all_exists(bom, refs.drop_last(), i);
        } else {
            lemma_expansion_exists(bom, refs.last(), i - front.len());
        }
    }
}

/// The link to a verse range: the work, the book and the chapter, then the
/// first and the last verse. A chapter range has no link.
pub open spec fn url_text(r: VerseRangeReference) -> Option<Seq<char>> {
    match r.range_type {
        RangeType::StartEndVerse { chapter, start, end } => Some(
            "https://www.churchofjesuschrist.org/study/scriptures/"@ + r.work.url_text() + "/"@
                + book_row(first_row(r.work) + r.book_index).url_name@ + "/"@ + decimal(
                chapter as nat,
            ) + "?lang=eng&id=p"@ + decimal(start as nat) + "-p"@ + decimal(end as nat) + "#p"@
                + decimal(start as nat),
        ),
        RangeType::StartEndChapter { .. } => None,
    }
}

/// A collection of clauses that may cover ranges of verses or of chapters.
#[derive(Debug)]
pub struct RangeCollection {
    refs: Vec<VerseRangeReference>,
}

impl View for RangeCollection {
    type V = Seq<VerseRangeReference>;

    closed spec fn view(&self) -> Seq<VerseRangeReference> {
        self.refs@
    }
}

impl RangeCollection {
    #[verifier::type_invariant]
    spec fn inv(&self) -> bool {
        well_formed(self.refs@)
    }

    /// Reads the citation `s`.
    ///
    /// A citation that reads well need not be valid: whether its chapters and
    /// verses exist in a corpus is what [`RangeCollection::is_valid`] tells.
    pub fn new(s: &str) -> (r: Result<Self, BOMError>)
        ensures
            match r {
                Ok(collection) => parse_citation(s@) == Ok::<
                    Seq<VerseRangeReference>,
                    FaultText,
                >(collection@) && well_formed(collection@),
                Err(BOMError::ReferenceError(fault)) => parse_citation(s@) == Err::<
                    Seq<VerseRangeReference>,
                    FaultText,
                >(fault@),
                Err(BOMError::TextParsingError { .. }) => false,
            },
    {
        let chars = chars_of(s);
        match parse_references(chars.as_slice()) {
            Ok(refs) => Ok(Self { refs }),
            Err(fault) => Err(BOMError::ReferenceError(fault)),
        }
    }

    /// The citation in its canonical written form: short book names, en
    /// dashes, one space behind each separator.
    pub fn to_canonical_string(&self) -> (r: String)
        ensures
            r@ == canonical_text(self@),
    {
        proof {
            use_type_invariant(self);
        }
        let out = render_references(&self.refs);
        string_of(out.as_slice())
    }

    /// The collection that covers the single verse `verseref` of the Book of Mormon.
    pub fn from_verse_ref(verseref: &VerseReference) -> (r: Self)
        requires
            known_book(Work::BookOfMormon, verseref.book_index),
        ensures
            r@ == seq![single_verse_clause(*verseref)],
            well_formed(r@),
    {
        let mut refs: Vec<VerseRangeReference> = Vec::new();
        refs.push(
            VerseRangeReference {
                range_type: RangeType::StartEndVerse {
                    chapter: verseref.chapter_index,
                    start: verseref.verse_index,
                    end: verseref.verse_index,
                },
                book_index: verseref.book_index,
                work: Work::BookOfMormon,
            },
        );
        let r = Self { refs };
        proof {
            assert(r@ =~= seq![single_verse_clause(*verseref)]);
        }
        r
    }

    /// The link to the first clause where that is a verse range; `None` where
    /// it is a chapter range.
    pub fn url(&self) -> (r: Option<String>)
        ensures
            match r {
                Some(link) => url_text(self@[0]) == Some(link@),
                None => url_text(self@[0]) is None,
            },
    {
        proof {
            use_type_invariant(self);
        }
        let first = &self.refs[0];
        match first.range_type {
            RangeType::StartEndVerse { chapter, start, end } => {
                let book = match find_book(first.work, first.book_index) {
                    Some(b) => b,
                    None => {
                        return None;
                    },
                };
                let mut out: Vec<char> = Vec::new();
                push_str(&mut out, "https://www.churchofjesuschrist.org/study/scriptures/");
                push_str(&mut out, first.work.url_name());
                push_str(&mut out, "/");
                push_str(&mut out, book.url_name);
                push_str(&mut out, "/");
                push_decimal(&mut out, chapter);
                push_str(&mut out, "?lang=eng&id=p");
                push_decimal(&mut out, start);
                push_str(&mut out, "-p");
                push_decimal(&mut out, end);
                push_str(&mut out, "#p");
                push_decimal(&mut out, start);
                proof {
                    assert(out@ =~= url_text(*first).unwrap());
                }
                Some(string_of(out.as_slice()))
            },
            RangeType::StartEndChapter { .. } => None,
        }
    }

    /// Whether every clause is valid in `bom`: all the books, chapters and
    /// verses that the clauses name as their ends exist there.
    #[must_use]
    pub fn is_valid(&self, bom: &BOM) -> (r: bool)
        ensures
            r == forall|i: int| 0 <= i < self@.len() ==> range_is_valid(bom@, #[trigger] self@[i]),
    {
        let mut i: usize = 0;
        while i < self.refs.len()
            invariant
                i <= self.refs@.len(),
                forall|j: int| 0 <= j < i ==> range_is_valid(bom@, #[trigger] self.refs@[j]),
            decreases self.refs@.len() - i,
        {
            if !self.refs[i].is_valid(bom) {
                proof {
                    assert(!range_is_valid(bom@, self@[i as int]));
                }
                return false;
            }
            i += 1;
        }
        true
    }

    /// The verses that the collection covers in `bom`, clause after clause.
    pub fn verse_refs(&self, bom: &BOM) -> (out: Vec<VerseReference>)
        ensures
            out@ == expansion_of_all(bom@, self@),
    {
        let mut out: Vec<VerseReference> = Vec::new();
        let mut i: usize = 0;
        proof {
            assert(self.refs@.take(0) =~= Seq::<VerseRangeReference>::empty());
        }
        while i < self.refs.len()
            invariant
                i <= self.refs@.len(),
                out@ == expansion_of_all(bom@, self.refs@.take(i as int)),
            decreases self.refs@.len() - i,
        {
            let mut part = self.refs[i].verse_refs(bom);
            proof {
                assert(self.refs@.take(i + 1).drop_last() =~= self.refs@.take(i as int));
                assert(self.refs@.take(i + 1).last() == self.refs@[i as int]);
            }
            out.append(&mut part);
            i += 1;
        }
        proof {
            assert(self.refs@.take(i as int) =~= self.refs@);
        }
        out
    }

    /// Puts the collection into canonical form: the clauses are sorted, and
    /// clauses that touch are merged.
    pub fn canonicalize(&mut self)
        ensures
            final(self)@ == canonical_form(old(self)@),
            well_formed(final(self)@),
    {
        proof {
            use_type_invariant(&*self);
            lemma_canonical_form_well_formed(self.refs@);
        }
        let sorted = sort_references(&self.refs);
        self.refs = merge_references(&sorted);
    }
}

impl core::str::FromStr for RangeCollection {
    type Err = BOMError;

    /// Reads the citation `s`; see [`RangeCollection::new`].
    fn from_str(s: &str) -> (r: Result<Self, BOMError>)
        ensures
            match r {
                Ok(collection) => parse_citation(s@) == Ok::<
                    Seq<VerseRangeReference>,
                    FaultText,
                >(collection@) && well_formed(collection@),
                Err(BOMError::ReferenceError(fault)) => parse_citation(s@) == Err::<
                    Seq<VerseRangeReference>,
                    FaultText,
                >(fault@),
                Err(BOMError::TextParsingError { .. }) => false,
            },
    {
        RangeCollection::new(s)
    }
}

impl VerseReference {
    /// The link to this verse of the Book of Mormon.
    pub fn url(&self) -> (r: Option<String>)
        requires
            known_book(Work::BookOfMormon, self.book_index),
        ensures
            r matches Some(link) && Some(link@) == url_text(single_verse_clause(*self)),
    {
        let range_collection = RangeCollection::from_verse_ref(self);
        range_collection.url()
    }
}

} // verus!
