//! The written form of a citation: how a collection is rendered, and how text
//! is read into a collection.

use vstd::prelude::*;
use crate::books::{
    book_data_from_candidate_title, book_row, find_book, first_named_row, first_row, known_book,
    lemma_first_named_row, lemma_rows_are_known,
};
use crate::error::{agrees, FaultText, ReferenceFault};
use crate::patterns::{pattern_group, regex_captures};
use crate::reference::{well_formed, RangeType, VerseRangeReference, Work};
use crate::text::{
    chars_of, copy_range, decimal, find, first_occurrence, parse_number, push_decimal, push_str,
    read_number, split, split_on, string_of, text_of, texts, trim, trimmed,
};

verus! {

/// Separates the clauses of a citation.
pub const CITATION_DELIM: char = ';';

/// Separates the chapters or verses listed in one clause.
pub const VERSE_CHUNK_DELIM: char = ',';

/// Separates the chapter from the verses.
pub const CHAPTER_VERSE_DELIM: char = ':';

/// The en dash, written between the ends of a range.
pub const RANGE_DELIM_CANONICAL: char = '\u{2013}';

/// The hyphen, read as a range delimiter.
pub const RANGE_DELIM_NON_CANONICAL1: char = '-';

/// The em dash, read as a range delimiter.
pub const RANGE_DELIM_NON_CANONICAL2: char = '\u{2014}';

/// Whether clause `i` opens a new book: it is the first clause, or its work and
/// book are not those of the clause before it.
pub open spec fn opens_book(refs: Seq<VerseRangeReference>, i: int) -> bool {
    i == 0 || refs[i - 1].work != refs[i].work || refs[i - 1].book_index != refs[i].book_index
}

/// The chapter that was written last before clause `i` within the book that
/// clause `i - 1` belongs to, if a chapter was written there at all.
pub open spec fn chapter_in_force(refs: Seq<VerseRangeReference>, i: int) -> Option<usize>
    decreases i,
{
    if i <= 0 {
        None
    } else {
        match refs[i - 1].range_type {
            RangeType::StartEndVerse { chapter, .. } => Some(chapter),
            RangeType::StartEndChapter { .. } => if opens_book(refs, i - 1) {
                None
            } else {
                chapter_in_force(refs, i - 1)
            },
        }
    }
}

/// A range as it is written: one number, or two with an en dash between them.
pub open spec fn span_text(start: usize, end: usize) -> Seq<char> {
    if start == end {
        decimal(start as nat)
    } else {
        decimal(start as nat).push(RANGE_DELIM_CANONICAL) + decimal(end as nat)
    }
}

/// The short name of the book that the clause names.
pub open spec fn short_name_of(r: VerseRangeReference) -> Seq<char> {
    book_row(first_row(r.work) + r.book_index).short_name@
}

/// What clause `i` writes of its book: the short name where the clause
/// opens a book, behind `"; "` unless the clause is the first.
pub open spec fn book_text(refs: Seq<VerseRangeReference>, i: int) -> Seq<char> {
    if opens_book(refs, i) {
        (if i != 0 {
            "; "@
        } else {
            Seq::empty()
        }) + short_name_of(refs[i]) + " "@
    } else {
        Seq::empty()
    }
}

/// What clause `i` writes of its range. A chapter range writes its span,
/// behind `", "` where it continues a book. A verse range that continues a
/// book in the chapter in force writes `", "` and its span; any other verse
/// range writes its chapter and a colon before its span, behind `"; "` where
/// it continues a book.
pub open spec fn range_text(refs: Seq<VerseRangeReference>, i: int) -> Seq<char> {
    let opens = opens_book(refs, i);
    match refs[i].range_type {
        RangeType::StartEndChapter { start, end } => (if opens {
            Seq::empty()
        } else {
            ", "@
        }) + span_text(start, end),
        RangeType::StartEndVerse { chapter, start, end } => (if !opens && chapter_in_force(refs, i)
            == Some(chapter) {
            ", "@
        } else {
            (if opens {
                Seq::empty()
            } else {
                "; "@
            }) + decimal(chapter as nat).push(CHAPTER_VERSE_DELIM)
        }) + span_text(start, end),
    }
}

/// What clause `i` adds to the text: its book, then its range.
pub open spec fn clause_text(refs: Seq<VerseRangeReference>, i: int) -> Seq<char> {
    book_text(refs, i) + range_text(refs, i)
}

/// The text of the first `n` clauses.
pub open spec fn text_of_clauses(refs: Seq<VerseRangeReference>, n: int) -> Seq<char>
    decreases n,
{
    if n <= 0 {
        Seq::empty()
    } else {
        text_of_clauses(refs, n - 1) + clause_text(refs, n - 1)
    }
}

/// The canonical written form of a collection.
pub open spec fn canonical_text(refs: Seq<VerseRangeReference>) -> Seq<char> {
    text_of_clauses(refs, refs.len() as int)
}

fn push_span(out: &mut Vec<char>, start: usize, end: usize)
    ensures
        final(out)@ == old(out)@ + span_text(start, end),
{
    push_decimal(out, start);
    if start != end {
        out.push(RANGE_DELIM_CANONICAL);
        push_decimal(out, end);
        proof {
            assert((old(out)@ + decimal(start as nat)).push(RANGE_DELIM_CANONICAL) + decimal(
                end as nat,
            ) =~= old(out)@ + span_text(start, end));
        }
    }
}

fn push_book(out: &mut Vec<char>, refs: &Vec<VerseRangeReference>, i: usize)
    requires
        i < refs@.len(),
        known_book(refs@[i as int].work, refs@[i as int].book_index),
    ensures
        final(out)@ == old(out)@ + book_text(refs@, i as int),
{
    let r = refs[i];
    let opens = i == 0 || refs[i - 1].work != r.work || refs[i - 1].book_index != r.book_index;
    if opens {
        if i != 0 {
            push_str(out, "; ");
        }
        match find_book(r.work, r.book_index) {
            Some(book) => {
                push_str(out, book.short_name);
            },
            None => {},
        }
        push_str(out, " ");
    }
    proof {
        assert(out@ =~= old(out)@ + book_text(refs@, i as int));
    }
}

fn push_range(
    out: &mut Vec<char>,
    refs: &Vec<VerseRangeReference>,
    i: usize,
    in_force: Option<usize>,
)
    requires
        i < refs@.len(),
        in_force == chapter_in_force(refs@, i as int),
    ensures
        final(out)@ == old(out)@ + range_text(refs@, i as int),
{
    let r = refs[i];
    let opens = i == 0 || refs[i - 1].work != r.work || refs[i - 1].book_index != r.book_index;
    match r.range_type {
        RangeType::StartEndChapter { start, end } => {
            if !opens {
                push_str(out, ", ");
            }
            push_span(out, start, end);
            proof {
                assert(out@ =~= old(out)@ + range_text(refs@, i as int));
            }
        },
        RangeType::StartEndVerse { chapter, start, end } => {
            if !opens && in_force == Some(chapter) {
                push_str(out, ", ");
            } else {
                if !opens {
                    push_str(out, "; ");
                }
                push_decimal(out, chapter);
                out.push(CHAPTER_VERSE_DELIM);
            }
            push_span(out, start, end);
            proof {
                assert(out@ =~= old(out)@ + range_text(refs@, i as int));
            }
        },
    }
}

/// Writes the clauses in canonical form; see [`canonical_text`].
pub fn render_references(refs: &Vec<VerseRangeReference>) -> (out: Vec<char>)
    requires
        forall|i: int|
            0 <= i < refs@.len() ==> known_book((#[trigger] refs@[i]).work, refs@[i].book_index),
    ensures
        out@ == canonical_text(refs@),
{
    let mut out: Vec<char> = Vec::new();
    let mut in_force: Option<usize> = None;
    let mut i: usize = 0;
    while i < refs.len()
        invariant
            i <= refs@.len(),
            forall|i: int|
                0 <= i < refs@.len() ==> known_book((#[trigger] refs@[i]).work, refs@[i].book_index),
            out@ == text_of_clauses(refs@, i as int),
            in_force == chapter_in_force(refs@, i as int),
        decreases refs@.len() - i,
    {
        let ghost before = out@;
        push_book(&mut out, refs, i);
        push_range(&mut out, refs, i, in_force);
        proof {
            assert(out@ =~= before + clause_text(refs@, i as int));
        }
        let opens = i == 0 || refs[i - 1].work != refs[i].work || refs[i - 1].book_index
            != refs[i].book_index;
        in_force = match refs[i].range_type {
            RangeType::StartEndVerse { chapter, .. } => Some(chapter),
            RangeType::StartEndChapter { .. } => if opens {
                None
            } else {
                in_force
            },
        };
        i += 1;
    }
    out
}

/// What may be a book name at the start of a clause: an optional digit and
/// space, letters and spaces, an optional full stop, and whitespace behind it.
pub const POSSIBLE_BOOK_NAME: &'static str = "^(?P<name>(\\d\\s)?[A-Za-z ]+\\.?)\\s+";

/// The group of [`POSSIBLE_BOOK_NAME`] that holds the name.
pub const BOOK_NAME_GROUP: &'static str = "name";

/// The characters that may stand between the two ends of a range.
pub open spec fn range_delims() -> Seq<char> {
    seq![RANGE_DELIM_CANONICAL, RANGE_DELIM_NON_CANONICAL1, RANGE_DELIM_NON_CANONICAL2]
}

/// The number that `s` writes once the whitespace around it is taken off.
pub open spec fn number_of(s: Seq<char>) -> Result<usize, FaultText> {
    match parse_number(trim(s)) {
        Some(n) => Ok(n),
        None => Err(FaultText::InvalidNumber(trim(s))),
    }
}

/// The span that `s` writes: one number, or two numbers around one dash of
/// which the first is below the second.
pub open spec fn range_of(s: Seq<char>) -> Result<(usize, usize), FaultText> {
    let parts = split(s, range_delims());
    if parts.len() == 1 {
        match number_of(parts[0]) {
            Ok(n) => Ok((n, n)),
            Err(e) => Err(e),
        }
    } else if parts.len() == 2 {
        match number_of(parts[0]) {
            Err(e) => Err(e),
            Ok(lower) => match number_of(parts[1]) {
                Err(e) => Err(e),
                Ok(upper) => if lower >= upper {
                    Err(FaultText::InvalidRange(s))
                } else {
                    Ok((lower, upper))
                },
            },
        }
    } else {
        Err(FaultText::TooManyDashes(s))
    }
}

/// The book that the candidate name `captured` names, with the position in
/// `s` at which the name ends: the candidate, without the whitespace around
/// it, must be a long or short name of the table and must stand in `s`.
pub open spec fn named_book(s: Seq<char>, captured: Option<Seq<char>>) -> Option<
    (int, usize, Work),
> {
    match captured {
        None => None,
        Some(candidate) => match first_named_row(trim(candidate)) {
            None => None,
            Some(k) => match first_occurrence(s, trim(candidate)) {
                None => None,
                Some(at) => Some(
                    (at + trim(candidate).len(), book_row(k).book_index, book_row(k).work),
                ),
            },
        },
    }
}

/// The candidate for a book name that the pattern [`POSSIBLE_BOOK_NAME`] finds
/// at the start of a text.
pub open spec fn pattern_finder() -> spec_fn(Seq<char>) -> Option<Seq<char>> {
    |text: Seq<char>| pattern_group(POSSIBLE_BOOK_NAME@, text, BOOK_NAME_GROUP@)
}

/// The book named at the start of `s`, with the position at which the name
/// ends, where `finder` finds the candidate in `s` without the whitespace
/// around it.
pub open spec fn book_name_with(
    finder: spec_fn(Seq<char>) -> Option<Seq<char>>,
    s: Seq<char>,
) -> Option<(int, usize, Work)> {
    named_book(s, finder(trim(s)))
}

/// The book named at the start of `s`, with the position at which the name ends.
pub open spec fn book_name_of(s: Seq<char>) -> Option<(int, usize, Work)> {
    book_name_with(pattern_finder(), s)
}

/// The book that a clause speaks of: the one it names or, where it names
/// none, the one of the clause before it.
pub open spec fn book_for(
    finder: spec_fn(Seq<char>) -> Option<Seq<char>>,
    s: Seq<char>,
    previous: Option<(usize, Work)>,
) -> Result<(int, usize, Work), FaultText> {
    match book_name_with(finder, s) {
        Some(found) => Ok(found),
        None => match previous {
            Some((book_index, work)) => Ok((0, book_index, work)),
            None => Err(FaultText::BookNameNotFound(s)),
        },
    }
}

/// The spans that `chunks[i..]` write, put behind `done`; the first fault in
/// order where a chunk writes none.
pub open spec fn ranges_from(chunks: Seq<Seq<char>>, i: int, done: Seq<(usize, usize)>) -> Result<
    Seq<(usize, usize)>,
    FaultText,
>
    decreases chunks.len() - i,
{
    if i < 0 || i >= chunks.len() {
        Ok(done)
    } else {
        match range_of(chunks[i]) {
            Err(e) => Err(e),
            Ok(span) => ranges_from(chunks, i + 1, done.push(span)),
        }
    }
}

/// The spans that the chunks write, in order.
pub open spec fn ranges_of(chunks: Seq<Seq<char>>) -> Result<Seq<(usize, usize)>, FaultText> {
    ranges_from(chunks, 0, Seq::empty())
}

/// One chapter range of book `book_index` of `work` for each span.
pub open spec fn chapter_clauses(spans: Seq<(usize, usize)>, book_index: usize, work: Work) -> Seq<
    VerseRangeReference,
> {
    Seq::new(
        spans.len(),
        |i: int|
            VerseRangeReference {
                range_type: RangeType::StartEndChapter { start: spans[i].0, end: spans[i].1 },
                book_index,
                work,
            },
    )
}

/// One verse range of chapter `chapter` for each span.
pub open spec fn verse_clauses(
    spans: Seq<(usize, usize)>,
    chapter: usize,
    book_index: usize,
    work: Work,
) -> Seq<VerseRangeReference> {
    Seq::new(
        spans.len(),
        |i: int|
            VerseRangeReference {
                range_type: RangeType::StartEndVerse {
                    chapter,
                    start: spans[i].0,
                    end: spans[i].1,
                },
                book_index,
                work,
            },
    )
}

/// The clauses that one `;`-separated part of a citation writes, where
/// `finder` finds the candidates for book names.
///
/// Without a colon the part lists chapters, separated by commas, behind an
/// optional book name. With one colon it gives a chapter, behind an optional
/// book name, and behind the colon a list of verses. More colons are a fault.
#[verifier::opaque]
pub open spec fn clause_with(
    finder: spec_fn(Seq<char>) -> Option<Seq<char>>,
    citation: Seq<char>,
    previous: Option<(usize, Work)>,
) -> Result<Seq<VerseRangeReference>, FaultText> {
    let parts = split(citation, seq![CHAPTER_VERSE_DELIM]);
    if parts.len() == 1 {
        let chunks = split(citation, seq![VERSE_CHUNK_DELIM]);
        match book_for(finder, chunks[0], previous) {
            Err(e) => Err(e),
            Ok((end, book_index, work)) => match ranges_of(
                chunks.update(0, chunks[0].skip(end)),
            ) {
                Err(e) => Err(e),
                Ok(spans) => Ok(chapter_clauses(spans, book_index, work)),
            },
        }
    } else if parts.len() == 2 {
        match book_for(finder, parts[0], previous) {
            Err(e) => Err(e),
            Ok((end, book_index, work)) => match number_of(parts[0].skip(end)) {
                Err(e) => Err(e),
                Ok(chapter) => match ranges_of(split(parts[1], seq![VERSE_CHUNK_DELIM])) {
                    Err(e) => Err(e),
                    Ok(spans) => Ok(verse_clauses(spans, chapter, book_index, work)),
                },
            },
        }
    } else {
        Err(FaultText::TooManyColons)
    }
}

/// The clauses that one `;`-separated part of a citation writes.
pub open spec fn clause_of(citation: Seq<char>, previous: Option<(usize, Work)>) -> Result<
    Seq<VerseRangeReference>,
    FaultText,
> {
    clause_with(pattern_finder(), citation, previous)
}

/// The book and work of the last clause read so far.
pub open spec fn last_book(refs: Seq<VerseRangeReference>) -> Option<(usize, Work)> {
    if refs.len() > 0 {
        Some((refs.last().book_index, refs.last().work))
    } else {
        None
    }
}

/// The clauses that `citations[i..]` write, put behind `done`; the first fault
/// in order where a part writes none.
pub open spec fn clauses_from(
    finder: spec_fn(Seq<char>) -> Option<Seq<char>>,
    citations: Seq<Seq<char>>,
    i: int,
    done: Seq<VerseRangeReference>,
) -> Result<Seq<VerseRangeReference>, FaultText>
    decreases citations.len() - i,
{
    if i < 0 || i >= citations.len() {
        Ok(done)
    } else {
        match clause_with(finder, citations[i], last_book(done)) {
            Err(e) => Err(e),
            Ok(more) => clauses_from(finder, citations, i + 1, done + more),
        }
    }
}

/// The clauses that the citation `s` writes, in the order in which it writes
/// them, or the first fault found, where `finder` finds the candidates for
/// book names.
pub open spec fn parse_with(finder: spec_fn(Seq<char>) -> Option<Seq<char>>, s: Seq<char>) -> Result<
    Seq<VerseRangeReference>,
    FaultText,
> {
    match clauses_from(finder, split(s, seq![CITATION_DELIM]), 0, Seq::empty()) {
        Err(e) => Err(e),
        Ok(refs) => if refs.len() == 0 {
            Err(FaultText::NoReferences(s))
        } else {
            Ok(refs)
        },
    }
}

/// The clauses that the citation `s` writes, in the order in which it writes
/// them, or the first fault found.
pub open spec fn parse_citation(s: Seq<char>) -> Result<Seq<VerseRangeReference>, FaultText> {
    parse_with(pattern_finder(), s)
}

/// Reads a number that may have whitespace around it.
pub fn extract_number(s: &[char]) -> (r: Result<usize, ReferenceFault>)
    ensures
        agrees(r, number_of(s@)),
{
    let t = trimmed(s);
    match read_number(t.as_slice()) {
        Some(n) => Ok(n),
        None => Err(ReferenceFault::InvalidNumber { text: string_of(t.as_slice()) }),
    }
}

/// Reads a span: one number, or two with a dash between them.
pub fn extract_range(s: &[char]) -> (r: Result<(usize, usize), ReferenceFault>)
    ensures
        agrees(r, range_of(s@)),
        r matches Ok(span) ==> span.0 <= span.1,
{
    let delims: Vec<char> = vec![
        RANGE_DELIM_CANONICAL,
        RANGE_DELIM_NON_CANONICAL1,
        RANGE_DELIM_NON_CANONICAL2,
    ];
    proof {
        assert(delims@ =~= range_delims());
    }
    let parts = split_on(s, delims.as_slice());
    proof {
        assert(texts(parts@).len() == parts@.len());
    }
    if parts.len() == 1 {
        proof {
            assert(texts(parts@)[0] == parts@[0]@);
        }
        let n = extract_number(parts[0].as_slice())?;
        Ok((n, n))
    } else if parts.len() == 2 {
        proof {
            assert(texts(parts@)[0] == parts@[0]@);
            assert(texts(parts@)[1] == parts@[1]@);
        }
        let lower = extract_number(parts[0].as_slice())?;
        let upper = extract_number(parts[1].as_slice())?;
        if lower >= upper {
            return Err(ReferenceFault::InvalidRange { text: string_of(s) });
        }
        Ok((lower, upper))
    } else {
        Err(ReferenceFault::TooManyDashes { text: string_of(s) })
    }
}

/// Decides which book a candidate name names; see [`named_book`].
pub fn book_name_from_capture(s: &[char], captured: Option<String>) -> (r: Option<
    (usize, usize, Work),
>)
    ensures
        match r {
            Some((end, book_index, work)) => {
                &&& named_book(s@, text_of(captured)) == Some((end as int, book_index, work))
                &&& end <= s@.len()
                &&& known_book(work, book_index)
            },
            None => named_book(s@, text_of(captured)) is None,
        },
{
    let candidate = match captured {
        Some(c) => c,
        None => {
            return None;
        },
    };
    let candidate_chars = chars_of(candidate.as_str());
    let name = trimmed(candidate_chars.as_slice());
    let book = match book_data_from_candidate_title(name.as_slice()) {
        Some(b) => b,
        None => {
            return None;
        },
    };
    proof {
        lemma_first_named_row(name@, 0);
        lemma_rows_are_known(first_named_row(name@).unwrap());
    }
    let total = s.len();
    match find(s, name.as_slice()) {
        Some(at) => {
            assert(at + name@.len() <= total);
            Some((at + name.len(), book.book_index, book.work))
        },
        None => None,
    }
}

/// Finds the book name at the start of `s`.
pub fn extract_book_name(s: &[char]) -> (r: Result<(usize, usize, Work), ReferenceFault>)
    ensures
        match r {
            Ok((end, book_index, work)) => {
                &&& book_name_of(s@) == Some((end as int, book_index, work))
                &&& end <= s@.len()
                &&& known_book(work, book_index)
            },
            Err(e) => book_name_of(s@) is None && e@ == FaultText::BookNameNotFound(s@),
        },
{
    let s_trimmed = trimmed(s);
    let text = string_of(s_trimmed.as_slice());
    let groups: Vec<&str> = vec![BOOK_NAME_GROUP];
    let mut found = regex_captures(POSSIBLE_BOOK_NAME, text.as_str(), &groups);
    proof {
        assert(groups@[0]@ == BOOK_NAME_GROUP@);
        assert(text_of(found@[0]) == pattern_group(
            POSSIBLE_BOOK_NAME@,
            trim(s@),
            BOOK_NAME_GROUP@,
        ));
    }
    let captured = found.pop().unwrap();
    match book_name_from_capture(s, captured) {
        Some(found) => Ok(found),
        None => Err(ReferenceFault::BookNameNotFound { text: string_of(s) }),
    }
}

fn extract_ranges(chunks: &Vec<Vec<char>>) -> (r: Result<Vec<(usize, usize)>, ReferenceFault>)
    ensures
        match r {
            Ok(spans) => ranges_of(texts(chunks@)) == Ok::<Seq<(usize, usize)>, FaultText>(spans@)
                && spans@.len() == chunks@.len() && forall|i: int|
                0 <= i < spans@.len() ==> (#[trigger] spans@[i]).0 <= spans@[i].1,
            Err(e) => ranges_of(texts(chunks@)) == Err::<Seq<(usize, usize)>, FaultText>(e@),
        },
{
    let mut spans: Vec<(usize, usize)> = Vec::new();
    let mut i: usize = 0;
    while i < chunks.len()
        invariant
            i <= chunks@.len(),
            spans@.len() == i,
            ranges_of(texts(chunks@)) == ranges_from(texts(chunks@), i as int, spans@),
            forall|j: int| 0 <= j < spans@.len() ==> (#[trigger] spans@[j]).0 <= spans@[j].1,
        decreases chunks@.len() - i,
    {
        proof {
            assert(texts(chunks@)[i as int] == chunks@[i as int]@);
        }
        match extract_range(chunks[i].as_slice()) {
            Ok(span) => {
                spans.push(span);
            },
            Err(e) => {
                return Err(e);
            },
        }
        i += 1;
    }
    Ok(spans)
}

/// Whether the book handed on from the clause before, if there is one, is a
/// book of the table.
pub open spec fn previous_is_known(previous: Option<(usize, Work)>) -> bool {
    match previous {
        Some((book_index, work)) => known_book(work, book_index),
        None => true,
    }
}

/// Reads one `;`-separated part of a citation; see [`clause_of`]. The
/// clauses that it reads are sound if the book handed on is known.
pub fn parse_clause(citation: &[char], previous: Option<(usize, Work)>) -> (r: Result<
    Vec<VerseRangeReference>,
    ReferenceFault,
>)
    ensures
        match r {
            Ok(refs) => clause_of(citation@, previous) == Ok::<
                Seq<VerseRangeReference>,
                FaultText,
            >(refs@) && refs@.len() > 0 && (previous_is_known(previous) ==> forall|i: int|
                0 <= i < refs@.len() ==> (#[trigger] refs@[i]).sound()),
            Err(e) => clause_of(citation@, previous) == Err::<Seq<VerseRangeReference>, FaultText>(
                e@,
            ),
        },
{
    let colon: Vec<char> = vec![CHAPTER_VERSE_DELIM];
    let comma: Vec<char> = vec![VERSE_CHUNK_DELIM];
    proof {
        reveal(clause_with);
        assert(colon@ =~= seq![CHAPTER_VERSE_DELIM]);
        assert(comma@ =~= seq![VERSE_CHUNK_DELIM]);
    }
    let parts = split_on(citation, colon.as_slice());
    proof {
        assert(texts(parts@).len() == parts@.len());
    }
    if parts.len() == 1 {
        let mut chunks = split_on(citation, comma.as_slice());
        let ghost whole = texts(chunks@);
        proof {
            assert(whole[0] == chunks@[0]@);
        }
        let (end, book_index, work) = match extract_book_name(chunks[0].as_slice()) {
            Ok(found) => found,
            Err(e) => match previous {
                Some((book_index, work)) => (0, book_index, work),
                None => {
                    return Err(e);
                },
            },
        };
        let rest = copy_range(chunks[0].as_slice(), end, chunks[0].len());
        proof {
            assert(rest@ =~= whole[0].skip(end as int));
        }
        chunks[0] = rest;
        proof {
            assert(texts(chunks@) =~= whole.update(0, whole[0].skip(end as int)));
        }
        let spans = extract_ranges(&chunks)?;
        let mut refs: Vec<VerseRangeReference> = Vec::new();
        let mut i: usize = 0;
        while i < spans.len()
            invariant
                i <= spans@.len(),
                refs@.len() == i,
                forall|j: int| 0 <= j < spans@.len() ==> (#[trigger] spans@[j]).0 <= spans@[j].1,
                forall|j: int|
                    0 <= j < i ==> (#[trigger] refs@[j]) == chapter_clauses(
                        spans@,
                        book_index,
                        work,
                    )[j],
            decreases spans@.len() - i,
        {
            refs.push(
                VerseRangeReference {
                    book_index,
                    range_type: RangeType::StartEndChapter { start: spans[i].0, end: spans[i].1 },
                    work,
                },
            );
            i += 1;
        }
        proof {
            assert(refs@ =~= chapter_clauses(spans@, book_index, work));
            if previous_is_known(previous) {
                assert forall|j: int| 0 <= j < refs@.len() implies (#[trigger] refs@[j]).sound() by {
                    assert(spans@[j].0 <= spans@[j].1);
                }
            }
        }
        Ok(refs)
    } else if parts.len() == 2 {
        proof {
            assert(texts(parts@)[0] == parts@[0]@);
            assert(texts(parts@)[1] == parts@[1]@);
        }
        let book_chapter = parts[0].as_slice();
        let (end, book_index, work) = match extract_book_name(book_chapter) {
            Ok(found) => found,
            Err(e) => match previous {
                Some((book_index, work)) => (0, book_index, work),
                None => {
                    return Err(e);
                },
            },
        };
        let chapter_text = copy_range(book_chapter, end, book_chapter.len());
        proof {
            assert(chapter_text@ =~= book_chapter@.skip(end as int));
        }
        let chapter = extract_number(chapter_text.as_slice())?;
        let chunks = split_on(parts[1].as_slice(), comma.as_slice());
        let spans = extract_ranges(&chunks)?;
        let mut refs: Vec<VerseRangeReference> = Vec::new();
        let mut i: usize = 0;
        while i < spans.len()
            invariant
                i <= spans@.len(),
                refs@.len() == i,
                forall|j: int| 0 <= j < spans@.len() ==> (#[trigger] spans@[j]).0 <= spans@[j].1,
                forall|j: int|
                    0 <= j < i ==> (#[trigger] refs@[j]) == verse_clauses(
                        spans@,
                        chapter,
                        book_index,
                        work,
                    )[j],
            decreases spans@.len() - i,
        {
            refs.push(
                VerseRangeReference {
                    book_index,
                    range_type: RangeType::StartEndVerse {
                        chapter,
                        start: spans[i].0,
                        end: spans[i].1,
                    },
                    work,
                },
            );
            i += 1;
        }
        proof {
            assert(refs@ =~= verse_clauses(spans@, chapter, book_index, work));
            if previous_is_known(previous) {
                assert forall|j: int| 0 <= j < refs@.len() implies (#[trigger] refs@[j]).sound() by {
                    assert(spans@[j].0 <= spans@[j].1);
                }
            }
        }
        Ok(refs)
    } else {
        Err(ReferenceFault::TooManyColons)
    }
}

/// Reads a citation into its clauses; see [`parse_citation`].
pub fn parse_references(s: &[char]) -> (r: Result<Vec<VerseRangeReference>, ReferenceFault>)
    ensures
        match r {
            Ok(refs) => parse_citation(s@) == Ok::<Seq<VerseRangeReference>, FaultText>(refs@)
                && well_formed(refs@),
            Err(e) => parse_citation(s@) == Err::<Seq<VerseRangeReference>, FaultText>(e@),
        },
{
    let semicolon: Vec<char> = vec![CITATION_DELIM];
    proof {
        assert(semicolon@ =~= seq![CITATION_DELIM]);
    }
    let citations = split_on(s, semicolon.as_slice());
    let ghost parts = texts(citations@);
    let mut refs: Vec<VerseRangeReference> = Vec::new();
    let mut i: usize = 0;
    while i < citations.len()
        invariant
            i <= citations@.len(),
            parts == texts(citations@),
            parts == split(s@, seq![CITATION_DELIM]),
            clauses_from(pattern_finder(), parts, 0, Seq::empty()) == clauses_from(
                pattern_finder(),
                parts,
                i as int,
                refs@,
            ),
            forall|j: int| 0 <= j < refs@.len() ==> (#[trigger] refs@[j]).sound(),
        decreases citations@.len() - i,
    {
        let n = refs.len();
        let previous = if n > 0 {
            Some((refs[n - 1].book_index, refs[n - 1].work))
        } else {
            None
        };
        proof {
            assert(parts[i as int] == citations@[i as int]@);
            if n > 0 {
                assert(refs@[n - 1].sound());
            }
        }
        match parse_clause(citations[i].as_slice(), previous) {
            Ok(mut more) => {
                refs.append(&mut more);
            },
            Err(e) => {
                return Err(e);
            },
        }
        i += 1;
    }
    if refs.len() == 0 {
        return Err(ReferenceFault::NoReferences { text: string_of(s) });
    }
    Ok(refs)
}

} // verus!
