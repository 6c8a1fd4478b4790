//! Addresses into a corpus: single verses and ranges of chapters or verses.

use vstd::prelude::*;
use crate::books::known_book;

verus! {

/// A volume of scripture that a reference can point into.
#[derive(Debug, PartialEq, Eq, Clone, Copy, Structural)]
pub enum Work {
    OldTestament,
    NewTestament,
    BookOfMormon,
}

/// Everything needed to identify a single verse.
#[derive(Debug, PartialEq, Eq, Clone, Copy, Structural)]
pub struct VerseReference {
    pub work: Work,
    /// Position of the book within its work, counted from zero.
    pub book_index: usize,
    /// Chapter number, counted from one.
    pub chapter_index: usize,
    /// Verse number, counted from one.
    pub verse_index: usize,
}

impl VerseReference {
    /// Builds a reference from its parts.
    #[must_use]
    pub fn new(work: Work, book_index: usize, chapter_index: usize, verse_index: usize) -> (r: Self)
        ensures
            r == (VerseReference { work, book_index, chapter_index, verse_index }),
    {
        Self { work, book_index, chapter_index, verse_index }
    }
}

impl Default for VerseReference {
    /// The first verse of the first chapter of the first book.
    fn default() -> (r: Self)
        ensures
            r == (VerseReference {
                work: Work::BookOfMormon,
                book_index: 0,
                chapter_index: 1,
                verse_index: 1,
            }),
    {
        Self { work: Work::BookOfMormon, book_index: 0, chapter_index: 1, verse_index: 1 }
    }
}

/// The span that one clause of a citation covers. Both ends are inclusive.
#[derive(Debug, PartialEq, Eq, Clone, Copy, Structural)]
pub enum RangeType {
    /// Verses `start..=end` of one chapter.
    StartEndVerse { chapter: usize, start: usize, end: usize },
    /// Whole chapters `start..=end`.
    StartEndChapter { start: usize, end: usize },
}

impl RangeType {
    /// First and last chapter touched; a verse range touches only its own chapter.
    pub open spec fn chapter_span(&self) -> (usize, usize) {
        match *self {
            RangeType::StartEndChapter { start, end } => (start, end),
            RangeType::StartEndVerse { chapter, .. } => (chapter, chapter),
        }
    }

    /// First and last verse of a verse range; `None` for whole chapters.
    pub open spec fn verse_span(&self) -> Option<(usize, usize)> {
        match *self {
            RangeType::StartEndChapter { .. } => None,
            RangeType::StartEndVerse { start, end, .. } => Some((start, end)),
        }
    }

    /// Whether the range runs forwards: its start does not lie after its end.
    pub open spec fn ordered(&self) -> bool {
        match *self {
            RangeType::StartEndChapter { start, end } => start <= end,
            RangeType::StartEndVerse { start, end, .. } => start <= end,
        }
    }

    #[verifier::when_used_as_spec(chapter_span)]
    pub fn chapter_range(&self) -> (r: (usize, usize))
        ensures
            r == self.chapter_span(),
    {
        match self {
            Self::StartEndChapter { start, end } => (*start, *end),
            Self::StartEndVerse { chapter, .. } => (*chapter, *chapter),
        }
    }

    #[verifier::when_used_as_spec(verse_span)]
    pub fn verse_range(&self) -> (r: Option<(usize, usize)>)
        ensures
            r == self.verse_span(),
    {
        match self {
            Self::StartEndChapter { .. } => None,
            Self::StartEndVerse { start, end, .. } => Some((*start, *end)),
        }
    }
}

/// One clause of a citation: a range inside one book of one work.
#[derive(Debug, PartialEq, Eq, Clone, Copy, Structural)]
pub struct VerseRangeReference {
    pub range_type: RangeType,
    pub book_index: usize,
    pub work: Work,
}

impl VerseRangeReference {
    /// Whether the clause names a book that its work has and runs forwards.
    pub open spec fn sound(&self) -> bool {
        known_book(self.work, self.book_index) && self.range_type.ordered()
    }
}

/// What holds of the clauses of every collection: there is at least one, and
/// each is sound.
pub open spec fn well_formed(refs: Seq<VerseRangeReference>) -> bool {
    &&& refs.len() > 0
    &&& forall|i: int| 0 <= i < refs.len() ==> (#[trigger] refs[i]).sound()
}

} // verus!
