//! What is read back from the written form of a collection.
//!
//! The written form leaves out what the reader can supply: the book where it
//! is the book of the clause before, and the chapter where the verses of one
//! chapter follow each other. This module proves that reading the written
//! form gives the collection back, up to one change that the written form
//! cannot show, and that the written form of what was read is the same text
//! again.

use vstd::prelude::*;
use crate::books::{
    book_row, first_named_row, first_row, is_name_char, known_book, lemma_first_named_row,
    lemma_rows_are_known, lemma_short_name_names_its_row, lemma_table_layout, BOOK_TABLE_LEN,
};
use crate::citation::{
    book_for, book_name_with, canonical_text, chapter_clauses, chapter_in_force, clause_text,
    clause_with, clauses_from, last_book, number_of, opens_book, parse_with,
    range_delims, range_of, ranges_from, ranges_of, short_name_of, span_text, text_of_clauses,
    verse_clauses, CHAPTER_VERSE_DELIM, CITATION_DELIM, RANGE_DELIM_CANONICAL, VERSE_CHUNK_DELIM,
};
use crate::error::FaultText;
use crate::reference::{well_formed, RangeType, VerseRangeReference, Work};
use crate::text::{
    all_digits, decimal, digit_value, first_occurrence, first_occurrence_from, free_of,
    is_whitespace, lemma_decimal,
    lemma_decimal_reads_back, lemma_split_concat, lemma_split_prefix, lemma_split_whole,
    lemma_trim_after_space, lemma_trim_tight, occurs_at, split, trim,
};

verus! {

/// Clause `i` as it is read back: a chapter range that continues a book
/// behind the verses of a chapter is read as verses of that chapter; every
/// other clause is read as it stands.
pub open spec fn reread_clause(refs: Seq<VerseRangeReference>, i: int) -> VerseRangeReference {
    match refs[i].range_type {
        RangeType::StartEndChapter { start, end } => if !opens_book(refs, i) && chapter_in_force(
            refs,
            i,
        ) is Some {
            VerseRangeReference {
                range_type: RangeType::StartEndVerse {
                    chapter: chapter_in_force(refs, i).unwrap(),
                    start,
                    end,
                },
                book_index: refs[i].book_index,
                work: refs[i].work,
            }
        } else {
            refs[i]
        },
        RangeType::StartEndVerse { .. } => refs[i],
    }
}

/// The collection as it is read back from its written form.
pub open spec fn reread(refs: Seq<VerseRangeReference>) -> Seq<VerseRangeReference> {
    Seq::new(refs.len(), |i: int| reread_clause(refs, i))
}

/// Reading back changes neither where books open nor which chapter is in force.
proof fn lemma_reread_keeps_state(refs: Seq<VerseRangeReference>, i: int)
    requires
        0 <= i <= refs.len(),
    ensures
        chapter_in_force(reread(refs), i) == chapter_in_force(refs, i),
        i < refs.len() ==> opens_book(reread(refs), i) == opens_book(refs, i),
    decreases i,
{
    if i > 0 {
        lemma_reread_keeps_state(refs, i - 1);
    }
}

/// What was read back is written as the collection itself is written.
pub proof fn lemma_reread_is_written_alike(refs: Seq<VerseRangeReference>, n: int)
    requires
        0 <= n <= refs.len(),
    ensures
        text_of_clauses(reread(refs), n) == text_of_clauses(refs, n),
    decreases n,
{
    if n > 0 {
        lemma_reread_is_written_alike(refs, n - 1);
        lemma_reread_keeps_state(refs, n - 1);
        assert(clause_text(reread(refs), n - 1) == clause_text(refs, n - 1));
    }
}

/// Whether the written form of clause `i` begins a new part of the
/// citation: the clause opens a book, or it is a verse range of a chapter
/// that is not in force.
pub open spec fn starts_group(refs: Seq<VerseRangeReference>, i: int) -> bool {
    opens_book(refs, i) || match refs[i].range_type {
        RangeType::StartEndVerse { chapter, .. } => chapter_in_force(refs, i) != Some(chapter),
        RangeType::StartEndChapter { .. } => false,
    }
}

/// The span of clause `i` as it is written.
pub open spec fn span_of(refs: Seq<VerseRangeReference>, i: int) -> Seq<char> {
    match refs[i].range_type {
        RangeType::StartEndChapter { start, end } => span_text(start, end),
        RangeType::StartEndVerse { start, end, .. } => span_text(start, end),
    }
}

/// The numbers of the span of clause `i`.
pub open spec fn bounds_of(refs: Seq<VerseRangeReference>, i: int) -> (usize, usize) {
    match refs[i].range_type {
        RangeType::StartEndChapter { start, end } => (start, end),
        RangeType::StartEndVerse { start, end, .. } => (start, end),
    }
}

/// The book name that clause `g` writes, with the space behind it; nothing
/// where the clause opens no book.
pub open spec fn name_part(refs: Seq<VerseRangeReference>, g: int) -> Seq<char> {
    if opens_book(refs, g) {
        short_name_of(refs[g]).push(' ')
    } else {
        Seq::empty()
    }
}

/// The chapter that a verse range writes, with the colon behind it.
pub open spec fn chapter_part(refs: Seq<VerseRangeReference>, g: int) -> Seq<char> {
    match refs[g].range_type {
        RangeType::StartEndVerse { chapter, .. } => decimal(chapter as nat).push(
            CHAPTER_VERSE_DELIM,
        ),
        RangeType::StartEndChapter { .. } => Seq::empty(),
    }
}

/// What stands in front of the first span of the part that clause `g`
/// begins: the space behind the semicolon, the book name and the chapter.
pub open spec fn group_head(refs: Seq<VerseRangeReference>, g: int) -> Seq<char> {
    (if g != 0 {
        seq![' ']
    } else {
        Seq::empty()
    }) + name_part(refs, g) + chapter_part(refs, g)
}

/// The spans of clauses `g..n` as they are written in one part: with a comma
/// and a space between them.
pub open spec fn group_body(refs: Seq<VerseRangeReference>, g: int, n: int) -> Seq<char>
    decreases n - g,
{
    if n <= g + 1 {
        span_of(refs, g)
    } else {
        group_body(refs, g, n - 1) + seq![VERSE_CHUNK_DELIM, ' '] + span_of(refs, n - 1)
    }
}

/// The part of the written form that holds clauses `g..n`, without the
/// semicolon in front of it.
pub open spec fn group_piece(refs: Seq<VerseRangeReference>, g: int, n: int) -> Seq<char> {
    group_head(refs, g) + group_body(refs, g, n)
}

/// The clause that begins the part in which clause `n - 1` is written.
pub open spec fn group_start(refs: Seq<VerseRangeReference>, n: int) -> int
    decreases n,
{
    if n <= 1 {
        0
    } else if starts_group(refs, n - 1) {
        n - 1
    } else {
        group_start(refs, n - 1)
    }
}

/// The part in which a clause is written begins at or before the clause, with
/// a clause that begins a part, and no clause between the two begins one.
proof fn lemma_group_start(refs: Seq<VerseRangeReference>, n: int)
    requires
        1 <= n <= refs.len(),
    ensures
        0 <= group_start(refs, n) < n,
        starts_group(refs, group_start(refs, n)),
        forall|j: int| group_start(refs, n) < j < n ==> !starts_group(refs, j),
    decreases n,
{
    if n > 1 && !starts_group(refs, n - 1) {
        lemma_group_start(refs, n - 1);
    }
}

/// What clause `i` adds to the text, seen as the beginning or the
/// continuation of a part.
proof fn lemma_clause_text_shape(refs: Seq<VerseRangeReference>, i: int)
    requires
        0 <= i < refs.len(),
    ensures
        starts_group(refs, i) && i == 0 ==> clause_text(refs, i) == group_piece(refs, i, i + 1),
        starts_group(refs, i) && i != 0 ==> clause_text(refs, i) == seq![CITATION_DELIM]
            + group_piece(refs, i, i + 1),
        !starts_group(refs, i) ==> clause_text(refs, i) == seq![VERSE_CHUNK_DELIM, ' '] + span_of(
            refs,
            i,
        ),
{
    reveal_strlit("; ");
    reveal_strlit(", ");
    reveal_strlit(" ");
    assert("; "@ =~= seq![CITATION_DELIM, ' ']);
    assert(", "@ =~= seq![VERSE_CHUNK_DELIM, ' ']);
    assert(" "@ =~= seq![' ']);
    if starts_group(refs, i) {
        if i == 0 {
            assert(clause_text(refs, i) =~= group_piece(refs, i, i + 1));
        } else {
            assert(clause_text(refs, i) =~= seq![CITATION_DELIM] + group_piece(refs, i, i + 1));
        }
    } else {
        assert(clause_text(refs, i) =~= seq![VERSE_CHUNK_DELIM, ' '] + span_of(refs, i));
    }
}

/// The written form of the first `n` clauses is the written form of the
/// clauses before the last part, a semicolon, and the last part.
proof fn lemma_text_ends_with_group(refs: Seq<VerseRangeReference>, n: int)
    requires
        1 <= n <= refs.len(),
    ensures
        group_start(refs, n) == 0 ==> text_of_clauses(refs, n) == group_piece(refs, 0, n),
        group_start(refs, n) != 0 ==> text_of_clauses(refs, n) == text_of_clauses(
            refs,
            group_start(refs, n),
        ) + seq![CITATION_DELIM] + group_piece(refs, group_start(refs, n), n),
    decreases n,
{
    let g = group_start(refs, n);
    lemma_group_start(refs, n);
    lemma_clause_text_shape(refs, n - 1);
    if starts_group(refs, n - 1) || n == 1 {
        assert(g == n - 1);
        if g == 0 {
            assert(text_of_clauses(refs, 0) =~= Seq::<char>::empty());
            assert(text_of_clauses(refs, n) =~= group_piece(refs, 0, n));
        } else {
            assert(text_of_clauses(refs, n) =~= text_of_clauses(refs, g) + seq![CITATION_DELIM]
                + group_piece(refs, g, n));
        }
    } else {
        lemma_text_ends_with_group(refs, n - 1);
        assert(group_start(refs, n - 1) == g);
        assert(group_piece(refs, g, n) =~= group_piece(refs, g, n - 1) + seq![
            VERSE_CHUNK_DELIM,
            ' ',
        ] + span_of(refs, n - 1));
        if g == 0 {
            assert(text_of_clauses(refs, n) =~= group_piece(refs, 0, n));
        } else {
            assert(text_of_clauses(refs, n) =~= text_of_clauses(refs, g) + seq![CITATION_DELIM]
                + group_piece(refs, g, n));
        }
    }
}

/// The decimal form of a number is free of every character that is no digit,
/// and neither begins nor ends with whitespace.
proof fn lemma_decimal_is_plain(n: nat, delims: Seq<char>)
    requires
        forall|c: char| delims.contains(c) ==> digit_value(c) is None,
    ensures
        decimal(n).len() > 0,
        free_of(decimal(n), delims),
        !is_whitespace(decimal(n)[0]),
        !is_whitespace(decimal(n).last()),
        all_digits(decimal(n)),
{
    lemma_decimal(n);
    let d = decimal(n);
    assert(digit_value(d[0]) is Some);
    assert(digit_value(d[d.len() - 1]) is Some);
    assert forall|i: int| 0 <= i < d.len() implies !delims.contains(#[trigger] d[i]) by {
        assert(digit_value(d[i]) is Some);
    }
}

/// A written span is free of every character that is neither a digit nor the
/// en dash, and neither begins nor ends with whitespace.
proof fn lemma_span_is_plain(start: usize, end: usize, delims: Seq<char>)
    requires
        forall|c: char| delims.contains(c) ==> digit_value(c) is None,
        !delims.contains(RANGE_DELIM_CANONICAL),
    ensures
        span_text(start, end).len() > 0,
        free_of(span_text(start, end), delims),
        !is_whitespace(span_text(start, end)[0]),
        !is_whitespace(span_text(start, end).last()),
        digit_value(span_text(start, end)[0]) is Some,
{
    lemma_decimal_is_plain(start as nat, delims);
    lemma_decimal_is_plain(end as nat, delims);
    let t = span_text(start, end);
    let a = decimal(start as nat);
    let b = decimal(end as nat);
    assert(digit_value(a[0]) is Some);
    if start != end {
        assert(t =~= a.push(RANGE_DELIM_CANONICAL) + b);
        assert(t[0] == a[0]);
        assert(t.last() == b.last());
        assert forall|i: int| 0 <= i < t.len() implies !delims.contains(#[trigger] t[i]) by {
            if i < a.len() {
                assert(t[i] == a[i]);
            } else if i == a.len() {
                assert(t[i] == RANGE_DELIM_CANONICAL);
            } else {
                assert(t[i] == b[i - a.len() - 1]);
            }
        }
    }
}

/// A written span, with or without a space in front of it, reads back as the
/// numbers it was written from.
proof fn lemma_span_reads_back(lead: bool, start: usize, end: usize)
    requires
        start <= end,
    ensures
        range_of(
            (if lead {
                seq![' ']
            } else {
                Seq::empty()
            }) + span_text(start, end),
        ) == Ok::<(usize, usize), FaultText>((start, end)),
{
    let dashes = range_delims();
    let space: Seq<char> = if lead {
        seq![' ']
    } else {
        Seq::empty()
    };
    let a = decimal(start as nat);
    let b = decimal(end as nat);
    assert forall|c: char| dashes.contains(c) implies digit_value(c) is None by {
        assert(c == dashes[0] || c == dashes[1] || c == dashes[2]);
    }
    lemma_decimal_is_plain(start as nat, dashes);
    lemma_decimal_is_plain(end as nat, dashes);
    lemma_decimal_reads_back(start);
    lemma_decimal_reads_back(end);
    let first = space + a;
    assert forall|i: int| 0 <= i < first.len() implies !dashes.contains(#[trigger] first[i]) by {
        if lead && i == 0 {
            assert(first[i] == ' ');
            assert(forall|j: int| 0 <= j < dashes.len() ==> dashes[j] != ' ');
        } else {
            assert(first[i] == a[i - space.len()]);
        }
    }
    if lead {
        lemma_trim_after_space(a);
    } else {
        assert(first =~= a);
        lemma_trim_tight(a);
    }
    assert(number_of(first) == Ok::<usize, FaultText>(start));
    lemma_trim_tight(b);
    assert(number_of(b) == Ok::<usize, FaultText>(end));
    let text = space + span_text(start, end);
    if start == end {
        assert(text =~= first);
        lemma_split_whole(first, dashes);
    } else {
        assert(text =~= first + seq![RANGE_DELIM_CANONICAL] + b);
        assert(dashes[0] == RANGE_DELIM_CANONICAL);
        lemma_split_concat(first, RANGE_DELIM_CANONICAL, b, dashes);
        lemma_split_whole(first, dashes);
        lemma_split_whole(b, dashes);
        assert(split(text, dashes) =~= seq![first, b]);
    }
}

/// The chapter under which the part that clause `g` begins lists its spans:
/// the chapter of a verse range, none for a chapter range.
pub open spec fn group_chapter(refs: Seq<VerseRangeReference>, g: int) -> Option<usize> {
    match refs[g].range_type {
        RangeType::StartEndVerse { chapter, .. } => Some(chapter),
        RangeType::StartEndChapter { .. } => None,
    }
}

/// Clause `j` as the part that clause `g` begins is read: in the book of
/// clause `g`, and under its chapter where it has one.
pub open spec fn read_in_group(
    refs: Seq<VerseRangeReference>,
    g: int,
    j: int,
) -> VerseRangeReference {
    VerseRangeReference {
        range_type: match group_chapter(refs, g) {
            Some(chapter) => RangeType::StartEndVerse {
                chapter,
                start: bounds_of(refs, j).0,
                end: bounds_of(refs, j).1,
            },
            None => RangeType::StartEndChapter {
                start: bounds_of(refs, j).0,
                end: bounds_of(refs, j).1,
            },
        },
        book_index: refs[g].book_index,
        work: refs[g].work,
    }
}

/// In one part all clauses lie in one book, and each is read back as the part
/// is read: as a chapter range where the part begins with one, as verses of
/// the part's chapter where it begins with a verse range.
proof fn lemma_group_shape(refs: Seq<VerseRangeReference>, g: int, n: int)
    requires
        0 <= g < n <= refs.len(),
        starts_group(refs, g),
        forall|j: int| g < j < n ==> !starts_group(refs, j),
    ensures
        chapter_in_force(refs, n) == group_chapter(refs, g),
        group_chapter(refs, g) is None ==> opens_book(refs, g),
        forall|j: int| g <= j < n ==> #[trigger] reread_clause(refs, j) == read_in_group(refs, g, j),
    decreases n - g,
{
    if n > g + 1 {
        assert forall|j: int| g < j < n - 1 implies !starts_group(refs, j) by {}
        lemma_group_shape(refs, g, n - 1);
        assert(!starts_group(refs, n - 1));
        assert(reread_clause(refs, n - 2) == read_in_group(refs, g, n - 2));
        assert(reread_clause(refs, n - 1) == read_in_group(refs, g, n - 1));
        assert forall|j: int| g <= j < n implies #[trigger] reread_clause(refs, j)
            == read_in_group(refs, g, j) by {
            if j < n - 1 {
                assert(reread_clause(refs, j) == read_in_group(refs, g, j));
            }
        }
    }
}

/// The chunks of a part: its spans, each behind a space, but for the first
/// where `first_lead` is not set.
pub open spec fn group_chunks(
    refs: Seq<VerseRangeReference>,
    g: int,
    n: int,
    first_lead: bool,
) -> Seq<Seq<char>> {
    Seq::new(
        (n - g) as nat,
        |j: int|
            (if j == 0 && !first_lead {
                Seq::empty()
            } else {
                seq![' ']
            }) + span_of(refs, g + j),
    )
}

/// The numbers of the spans of clauses `g..n`.
pub open spec fn group_spans(refs: Seq<VerseRangeReference>, g: int, n: int) -> Seq<
    (usize, usize),
> {
    Seq::new((n - g) as nat, |j: int| bounds_of(refs, g + j))
}

/// Splitting the spans of a part at the commas gives its chunks.
proof fn lemma_body_splits(refs: Seq<VerseRangeReference>, g: int, n: int)
    requires
        0 <= g < n <= refs.len(),
    ensures
        split(group_body(refs, g, n), seq![VERSE_CHUNK_DELIM]) == group_chunks(refs, g, n, false),
        free_of(group_body(refs, g, n), seq![CITATION_DELIM]),
        free_of(group_body(refs, g, n), seq![CHAPTER_VERSE_DELIM]),
        group_body(refs, g, n).len() > 0,
        digit_value(group_body(refs, g, n)[0]) is Some,
    decreases n - g,
{
    let comma = seq![VERSE_CHUNK_DELIM];
    let semicolon = seq![CITATION_DELIM];
    let colon = seq![CHAPTER_VERSE_DELIM];
    assert forall|c: char| comma.contains(c) implies digit_value(c) is None by {
        assert(c == comma[0]);
    }
    assert forall|c: char| semicolon.contains(c) implies digit_value(c) is None by {
        assert(c == semicolon[0]);
    }
    assert forall|c: char| colon.contains(c) implies digit_value(c) is None by {
        assert(c == colon[0]);
    }
    assert(!comma.contains(RANGE_DELIM_CANONICAL)) by {
        assert(forall|j: int| 0 <= j < comma.len() ==> comma[j] != RANGE_DELIM_CANONICAL);
    }
    assert(!semicolon.contains(RANGE_DELIM_CANONICAL)) by {
        assert(forall|j: int| 0 <= j < semicolon.len() ==> semicolon[j] != RANGE_DELIM_CANONICAL);
    }
    assert(!colon.contains(RANGE_DELIM_CANONICAL)) by {
        assert(forall|j: int| 0 <= j < colon.len() ==> colon[j] != RANGE_DELIM_CANONICAL);
    }
    let last = span_of(refs, n - 1);
    let (start, end) = bounds_of(refs, n - 1);
    assert(last == span_text(start, end));
    lemma_span_is_plain(start, end, comma);
    lemma_span_is_plain(start, end, semicolon);
    lemma_span_is_plain(start, end, colon);
    if n <= g + 1 {
        lemma_split_whole(last, comma);
        assert(group_chunks(refs, g, n, false) =~= seq![last]) by {
            assert(group_chunks(refs, g, n, false)[0] =~= last);
        }
    } else {
        lemma_body_splits(refs, g, n - 1);
        let front = group_body(refs, g, n - 1);
        let tail = seq![' '] + last;
        let body = group_body(refs, g, n);
        assert(body =~= front + seq![VERSE_CHUNK_DELIM] + tail);
        assert(comma[0] == VERSE_CHUNK_DELIM);
        lemma_split_concat(front, VERSE_CHUNK_DELIM, tail, comma);
        assert forall|i: int| 0 <= i < tail.len() implies !comma.contains(#[trigger] tail[i]) by {
            if i == 0 {
                assert(forall|j: int| 0 <= j < comma.len() ==> comma[j] != ' ');
            } else {
                assert(tail[i] == last[i - 1]);
            }
        }
        lemma_split_whole(tail, comma);
        assert(group_chunks(refs, g, n, false) =~= group_chunks(refs, g, n - 1, false) + seq![tail])
            by {
            let whole = group_chunks(refs, g, n, false);
            let before = group_chunks(refs, g, n - 1, false);
            assert(whole.len() == before.len() + 1);
            assert forall|j: int| 0 <= j < whole.len() implies whole[j] == (before + seq![tail])[j] by {
                if j < before.len() {
                    assert(whole[j] =~= before[j]);
                } else {
                    assert(whole[j] =~= tail);
                }
            }
        }
        assert forall|i: int| 0 <= i < body.len() implies !semicolon.contains(#[trigger] body[i])
            && !colon.contains(body[i]) by {
            if i < front.len() {
                assert(body[i] == front[i]);
            } else if i == front.len() {
                assert(body[i] == VERSE_CHUNK_DELIM);
                assert(forall|j: int| 0 <= j < semicolon.len() ==> semicolon[j] != body[i]);
                assert(forall|j: int| 0 <= j < colon.len() ==> colon[j] != body[i]);
            } else if i == front.len() + 1 {
                assert(body[i] == ' ');
                assert(forall|j: int| 0 <= j < semicolon.len() ==> semicolon[j] != body[i]);
                assert(forall|j: int| 0 <= j < colon.len() ==> colon[j] != body[i]);
            } else {
                assert(body[i] == last[i - front.len() - 2]);
            }
        }
        assert(body[0] == front[0]);
    }
}

/// Chunks that each read as a span read together as the spans in order.
proof fn lemma_chunks_read_back(chunks: Seq<Seq<char>>, spans: Seq<(usize, usize)>, i: int)
    requires
        chunks.len() == spans.len(),
        0 <= i <= chunks.len(),
        forall|j: int|
            0 <= j < chunks.len() ==> #[trigger] range_of(chunks[j]) == Ok::<
                (usize, usize),
                FaultText,
            >(spans[j]),
    ensures
        ranges_from(chunks, i, spans.take(i)) == Ok::<Seq<(usize, usize)>, FaultText>(spans),
    decreases chunks.len() - i,
{
    if i < chunks.len() {
        assert(range_of(chunks[i]) == Ok::<(usize, usize), FaultText>(spans[i]));
        assert(spans.take(i).push(spans[i]) =~= spans.take(i + 1));
        lemma_chunks_read_back(chunks, spans, i + 1);
    } else {
        assert(spans.take(i) =~= spans);
    }
}

/// The chunks of a part read as the spans of its clauses.
proof fn lemma_group_chunks_read_back(
    refs: Seq<VerseRangeReference>,
    g: int,
    n: int,
    first_lead: bool,
)
    requires
        0 <= g < n <= refs.len(),
        well_formed(refs),
    ensures
        ranges_of(group_chunks(refs, g, n, first_lead)) == Ok::<Seq<(usize, usize)>, FaultText>(
            group_spans(refs, g, n),
        ),
{
    let chunks = group_chunks(refs, g, n, first_lead);
    let spans = group_spans(refs, g, n);
    assert forall|j: int| 0 <= j < chunks.len() implies #[trigger] range_of(chunks[j]) == Ok::<
        (usize, usize),
        FaultText,
    >(spans[j]) by {
        let (start, end) = bounds_of(refs, g + j);
        assert(refs[g + j].sound());
        lemma_span_reads_back(!(j == 0 && !first_lead), start, end);
    }
    lemma_chunks_read_back(chunks, spans, 0);
    assert(spans.take(0) =~= Seq::<(usize, usize)>::empty());
}

/// What the reading of a written form asks of the finder of book names: in
/// a text that begins with a short name of the table, a space and a digit it
/// finds that name, and in a text made of digits it finds nothing.
pub open spec fn finds_names(finder: spec_fn(Seq<char>) -> Option<Seq<char>>) -> bool {
    &&& forall|k: int, rest: Seq<char>|
        0 <= k < BOOK_TABLE_LEN && rest.len() > 0 && digit_value(rest[0]) is Some
            ==> #[trigger] finder(book_row(k).short_name@.push(' ') + rest) == Some(
            book_row(k).short_name@,
        )
    &&& forall|digits: Seq<char>| all_digits(digits) ==> (#[trigger] finder(digits)) is None
}

/// A space or nothing.
pub open spec fn lead_text(lead: bool) -> Seq<char> {
    if lead {
        seq![' ']
    } else {
        Seq::empty()
    }
}

/// A character of a name that is no space is no whitespace.
proof fn lemma_name_char_is_no_whitespace(c: char)
    requires
        is_name_char(c),
        c != ' ',
    ensures
        !is_whitespace(c),
{
    assert(' ' as u32 == 0x20);
    assert(c as u32 != 0x20);
}

/// A short name at the start of a clause, behind at most one space and in
/// front of a space and a number, names its book and ends where it ends.
proof fn lemma_name_is_found(
    finder: spec_fn(Seq<char>) -> Option<Seq<char>>,
    k: int,
    lead: bool,
    rest: Seq<char>,
)
    requires
        finds_names(finder),
        0 <= k < BOOK_TABLE_LEN,
        rest.len() > 0,
        digit_value(rest[0]) is Some,
        !is_whitespace(rest.last()),
    ensures
        book_name_with(finder, lead_text(lead) + book_row(k).short_name@.push(' ') + rest)
            == Some(
            (
                (lead_text(lead).len() + book_row(k).short_name@.len()) as int,
                book_row(k).book_index,
                book_row(k).work,
            ),
        ),
{
    let name = book_row(k).short_name@;
    lemma_short_name_names_its_row(k);
    let w = name.push(' ') + rest;
    let s = lead_text(lead) + w;
    assert(is_name_char(name[0]));
    assert(is_name_char(name[name.len() - 1]));
    lemma_name_char_is_no_whitespace(name[0]);
    lemma_name_char_is_no_whitespace(name[name.len() - 1]);
    assert(w[0] == name[0]);
    assert(w.last() == rest.last());
    if lead {
        lemma_trim_after_space(w);
        assert(s =~= seq![' '] + w);
    } else {
        lemma_trim_tight(w);
        assert(s =~= w);
    }
    assert(trim(s) == w);
    assert(finder(w) == Some(name));
    lemma_trim_tight(name);
    let at = lead_text(lead).len() as int;
    assert(s.subrange(at, at + name.len()) =~= name);
    assert(occurs_at(s, name, at));
    if lead {
        assert(s.subrange(0, name.len() as int)[0] == ' ');
        assert(!occurs_at(s, name, 0));
        assert(first_occurrence_from(s, name, 1) == Some(1int));
        assert(first_occurrence_from(s, name, 0) == Some(1int));
    } else {
        assert(first_occurrence_from(s, name, 0) == Some(0int));
    }
    assert(first_occurrence(s, name) == Some(at));
    assert(s =~= lead_text(lead) + book_row(k).short_name@.push(' ') + rest);
}

/// A number behind one space reads back.
proof fn lemma_number_reads_back(n: usize)
    ensures
        number_of(seq![' '] + decimal(n as nat)) == Ok::<usize, FaultText>(n),
{
    let none: Seq<char> = Seq::empty();
    lemma_decimal_is_plain(n as nat, none);
    lemma_decimal_reads_back(n);
    lemma_trim_after_space(decimal(n as nat));
}

/// The head of a part is free of semicolons and commas, and free of colons
/// but for the one behind the chapter.
proof fn lemma_head_is_plain(refs: Seq<VerseRangeReference>, g: int, d: char)
    requires
        0 <= g < refs.len(),
        well_formed(refs),
        d == CITATION_DELIM || d == VERSE_CHUNK_DELIM || d == CHAPTER_VERSE_DELIM,
    ensures
        free_of(lead_text(g != 0) + name_part(refs, g), seq![d]),
        d != CHAPTER_VERSE_DELIM ==> free_of(group_head(refs, g), seq![d]),
        refs[g].range_type is StartEndChapter ==> group_head(refs, g) == lead_text(g != 0)
            + name_part(refs, g),
{
    let delims = seq![d];
    let front = lead_text(g != 0) + name_part(refs, g);
    assert(refs[g].sound());
    let k = first_row(refs[g].work) + refs[g].book_index;
    lemma_table_layout(refs[g].work, refs[g].book_index);
    lemma_short_name_names_its_row(k);
    let name = book_row(k).short_name@;
    assert forall|i: int| 0 <= i < front.len() implies !delims.contains(#[trigger] front[i]) by {
        assert(forall|j: int| 0 <= j < delims.len() ==> delims[j] == d);
        if g != 0 && i == 0 {
            assert(front[i] == ' ');
        } else if opens_book(refs, g) {
            let at = i - lead_text(g != 0).len();
            if at < name.len() {
                assert(front[i] == name[at]);
                assert(is_name_char(name[at]));
            } else {
                assert(front[i] == ' ');
            }
        }
    }
    match refs[g].range_type {
        RangeType::StartEndVerse { chapter, .. } => {
            if d != CHAPTER_VERSE_DELIM {
                assert forall|c: char| delims.contains(c) implies digit_value(c) is None by {
                    assert(c == delims[0]);
                }
                lemma_decimal_is_plain(chapter as nat, delims);
                let head = group_head(refs, g);
                let digits = decimal(chapter as nat);
                assert(head =~= front + digits.push(CHAPTER_VERSE_DELIM));
                assert forall|i: int| 0 <= i < head.len() implies !delims.contains(
                    #[trigger] head[i],
                ) by {
                    assert(forall|j: int| 0 <= j < delims.len() ==> delims[j] == d);
                    if i < front.len() {
                        assert(head[i] == front[i]);
                    } else if i < front.len() + digits.len() {
                        assert(head[i] == digits[i - front.len()]);
                    } else {
                        assert(head[i] == CHAPTER_VERSE_DELIM);
                    }
                }
            }
        },
        RangeType::StartEndChapter { .. } => {
            assert(group_head(refs, g) =~= front);
        },
    }
}

/// The clauses `g..n` as they are read back.
pub open spec fn reread_group(refs: Seq<VerseRangeReference>, g: int, n: int) -> Seq<
    VerseRangeReference,
> {
    reread(refs).subrange(g, n)
}

/// The commas cut a part that begins with a chapter range into its chunks,
/// of which the first begins with the head of the part; and the part holds no
/// colon.
proof fn lemma_chapter_group_splits(refs: Seq<VerseRangeReference>, g: int, n: int)
    requires
        well_formed(refs),
        0 <= g < n <= refs.len(),
        refs[g].range_type is StartEndChapter,
        opens_book(refs, g),
    ensures
        split(group_piece(refs, g, n), seq![CHAPTER_VERSE_DELIM]) == seq![group_piece(refs, g, n)],
        split(group_piece(refs, g, n), seq![VERSE_CHUNK_DELIM]) == group_chunks(
            refs,
            g,
            n,
            false,
        ).update(0, group_head(refs, g) + span_of(refs, g)),
        group_head(refs, g) == lead_text(g != 0) + short_name_of(refs[g]).push(' '),
{
    let colon = seq![CHAPTER_VERSE_DELIM];
    let comma = seq![VERSE_CHUNK_DELIM];
    let head = group_head(refs, g);
    let body = group_body(refs, g, n);
    let piece = group_piece(refs, g, n);
    lemma_body_splits(refs, g, n);
    lemma_head_is_plain(refs, g, CHAPTER_VERSE_DELIM);
    lemma_head_is_plain(refs, g, VERSE_CHUNK_DELIM);
    assert forall|i: int| 0 <= i < piece.len() implies !colon.contains(#[trigger] piece[i]) by {
        if i < head.len() {
            assert(piece[i] == head[i]);
        } else {
            assert(piece[i] == body[i - head.len()]);
        }
    }
    lemma_split_whole(piece, colon);
    lemma_split_prefix(head, body, comma);
    let cut = split(body, comma);
    assert(cut == group_chunks(refs, g, n, false));
    assert(cut[0] =~= span_of(refs, g));
}

/// The first chunk of a part that begins with a chapter range names the
/// book, and behind the name stands the first span.
proof fn lemma_chapter_group_front_reads_back(
    finder: spec_fn(Seq<char>) -> Option<Seq<char>>,
    refs: Seq<VerseRangeReference>,
    g: int,
    previous: Option<(usize, Work)>,
)
    requires
        finds_names(finder),
        well_formed(refs),
        0 <= g < refs.len(),
        refs[g].range_type is StartEndChapter,
        opens_book(refs, g),
    ensures
        book_for(
            finder,
            lead_text(g != 0) + short_name_of(refs[g]).push(' ') + span_of(refs, g),
            previous,
        ) matches Ok((at, book_index, work)) && book_index == refs[g].book_index && work
            == refs[g].work && (lead_text(g != 0) + short_name_of(refs[g]).push(' ') + span_of(
            refs,
            g,
        )).skip(at) == seq![' '] + span_of(refs, g),
{
    assert(refs[g].sound());
    let work = refs[g].work;
    let book_index = refs[g].book_index;
    let k = first_row(work) + book_index;
    lemma_table_layout(work, book_index);
    let name = book_row(k).short_name@;
    let lead = g != 0;
    let (start, end) = bounds_of(refs, g);
    let none: Seq<char> = Seq::empty();
    lemma_span_is_plain(start, end, none);
    lemma_name_is_found(finder, k, lead, span_of(refs, g));
    let first = lead_text(lead) + name.push(' ') + span_of(refs, g);
    let at = (lead_text(lead).len() + name.len()) as int;
    assert(book_for(finder, first, previous) == Ok::<(int, usize, Work), FaultText>(
        (at, book_index, work),
    ));
    assert(first.skip(at) =~= seq![' '] + span_of(refs, g));
}

/// The chunks of a part that begins with a chapter range read as the clauses
/// of the part are read back.
proof fn lemma_chapter_group_clauses(refs: Seq<VerseRangeReference>, g: int, n: int)
    requires
        well_formed(refs),
        0 <= g < n <= refs.len(),
        starts_group(refs, g),
        forall|j: int| g < j < n ==> !starts_group(refs, j),
        refs[g].range_type is StartEndChapter,
    ensures
        opens_book(refs, g),
        group_chunks(refs, g, n, false).update(0, seq![' '] + span_of(refs, g)) == group_chunks(
            refs,
            g,
            n,
            true,
        ),
        ranges_of(group_chunks(refs, g, n, true)) == Ok::<Seq<(usize, usize)>, FaultText>(
            group_spans(refs, g, n),
        ),
        chapter_clauses(group_spans(refs, g, n), refs[g].book_index, refs[g].work) == reread_group(
            refs,
            g,
            n,
        ),
{
    lemma_group_shape(refs, g, n);
    lemma_group_chunks_read_back(refs, g, n, true);
    let plain = group_chunks(refs, g, n, false);
    let led = group_chunks(refs, g, n, true);
    let rest = plain.update(0, seq![' '] + span_of(refs, g));
    assert(rest.len() == led.len());
    assert forall|j: int| 0 <= j < rest.len() implies rest[j] == led[j] by {
        if j > 0 {
            assert(rest[j] == plain[j]);
            assert(plain[j] =~= led[j]);
        } else {
            assert(led[0] =~= seq![' '] + span_of(refs, g));
        }
    }
    assert(rest =~= led);
    let spans = group_spans(refs, g, n);
    let read = chapter_clauses(spans, refs[g].book_index, refs[g].work);
    let wanted = reread_group(refs, g, n);
    assert(read.len() == wanted.len());
    assert forall|j: int| 0 <= j < read.len() implies read[j] == wanted[j] by {
        assert(wanted[j] == reread(refs)[g + j]);
        assert(reread_clause(refs, g + j) == read_in_group(refs, g, g + j));
    }
    assert(read =~= wanted);
}

/// A part that begins with a chapter range reads back.
proof fn lemma_chapter_group_reads_back(
    finder: spec_fn(Seq<char>) -> Option<Seq<char>>,
    refs: Seq<VerseRangeReference>,
    g: int,
    n: int,
    previous: Option<(usize, Work)>,
)
    requires
        finds_names(finder),
        well_formed(refs),
        0 <= g < n <= refs.len(),
        starts_group(refs, g),
        forall|j: int| g < j < n ==> !starts_group(refs, j),
        refs[g].range_type is StartEndChapter,
    ensures
        clause_with(finder, group_piece(refs, g, n), previous) == Ok::<
            Seq<VerseRangeReference>,
            FaultText,
        >(reread_group(refs, g, n)),
{
    reveal(clause_with);
    lemma_chapter_group_clauses(refs, g, n);
    lemma_chapter_group_splits(refs, g, n);
    lemma_chapter_group_front_reads_back(finder, refs, g, previous);
    let piece = group_piece(refs, g, n);
    let chunks = split(piece, seq![VERSE_CHUNK_DELIM]);
    let first = lead_text(g != 0) + short_name_of(refs[g]).push(' ') + span_of(refs, g);
    assert(split(piece, seq![CHAPTER_VERSE_DELIM]).len() == 1);
    assert(chunks[0] == first);
    match book_for(finder, first, previous) {
        Ok((at, book_index, work)) => {
            assert(chunks.update(0, chunks[0].skip(at)) =~= group_chunks(refs, g, n, true));
        },
        Err(e) => {},
    }
}

/// What stands in front of the colon of a part that begins with a verse
/// range: the space behind the semicolon, the book name and the chapter.
pub open spec fn verse_group_front(refs: Seq<VerseRangeReference>, g: int) -> Seq<char> {
    lead_text(g != 0) + name_part(refs, g) + decimal(group_chapter(refs, g).unwrap() as nat)
}

/// The colon cuts a part that begins with a verse range in two: the book and
/// the chapter in front of it, the verses behind it.
proof fn lemma_verse_group_splits(refs: Seq<VerseRangeReference>, g: int, n: int)
    requires
        well_formed(refs),
        0 <= g < n <= refs.len(),
        refs[g].range_type is StartEndVerse,
    ensures
        split(group_piece(refs, g, n), seq![CHAPTER_VERSE_DELIM]) == seq![
            verse_group_front(refs, g),
            group_body(refs, g, n),
        ],
{
    let colon = seq![CHAPTER_VERSE_DELIM];
    let body = group_body(refs, g, n);
    let piece = group_piece(refs, g, n);
    let chapter = group_chapter(refs, g).unwrap();
    let digits = decimal(chapter as nat);
    let front = lead_text(g != 0) + name_part(refs, g);
    let first = verse_group_front(refs, g);
    lemma_body_splits(refs, g, n);
    lemma_head_is_plain(refs, g, CHAPTER_VERSE_DELIM);
    assert forall|c: char| colon.contains(c) implies digit_value(c) is None by {
        assert(c == colon[0]);
    }
    lemma_decimal_is_plain(chapter as nat, colon);
    assert(piece =~= first + seq![CHAPTER_VERSE_DELIM] + body);
    assert(colon[0] == CHAPTER_VERSE_DELIM);
    lemma_split_concat(first, CHAPTER_VERSE_DELIM, body, colon);
    assert forall|i: int| 0 <= i < first.len() implies !colon.contains(#[trigger] first[i]) by {
        if i < front.len() {
            assert(first[i] == front[i]);
        } else {
            assert(first[i] == digits[i - front.len()]);
        }
    }
    lemma_split_whole(first, colon);
    lemma_split_whole(body, colon);
    assert(split(piece, colon) =~= seq![first, body]);
}

/// What stands in front of the colon names the book, or leaves it to the
/// clause before, and gives the chapter.
proof fn lemma_verse_group_front_reads_back(
    finder: spec_fn(Seq<char>) -> Option<Seq<char>>,
    refs: Seq<VerseRangeReference>,
    g: int,
    previous: Option<(usize, Work)>,
)
    requires
        finds_names(finder),
        well_formed(refs),
        0 <= g < refs.len(),
        refs[g].range_type is StartEndVerse,
        !opens_book(refs, g) ==> previous == Some((refs[g].book_index, refs[g].work)),
    ensures
        book_for(finder, verse_group_front(refs, g), previous) matches Ok((at, book_index, work))
            && book_index == refs[g].book_index && work == refs[g].work && number_of(
            verse_group_front(refs, g).skip(at),
        ) == Ok::<usize, FaultText>(group_chapter(refs, g).unwrap()),
{
    assert(refs[g].sound());
    let work = refs[g].work;
    let book_index = refs[g].book_index;
    let chapter = group_chapter(refs, g).unwrap();
    let digits = decimal(chapter as nat);
    let lead = g != 0;
    let first = verse_group_front(refs, g);
    let none: Seq<char> = Seq::empty();
    lemma_decimal_is_plain(chapter as nat, none);
    lemma_number_reads_back(chapter);
    if opens_book(refs, g) {
        let k = first_row(work) + book_index;
        lemma_table_layout(work, book_index);
        let name = book_row(k).short_name@;
        lemma_name_is_found(finder, k, lead, digits);
        assert(first =~= lead_text(lead) + name.push(' ') + digits);
        let at = (lead_text(lead).len() + name.len()) as int;
        assert(book_for(finder, first, previous) == Ok::<(int, usize, Work), FaultText>(
            (at, book_index, work),
        ));
        assert(first.skip(at) =~= seq![' '] + digits);
    } else {
        assert(lead);
        assert(first =~= seq![' '] + digits);
        lemma_trim_after_space(digits);
        assert(finder(digits) is None);
        assert(book_name_with(finder, first) is None);
        assert(book_for(finder, first, previous) == Ok::<(int, usize, Work), FaultText>(
            (0int, book_index, work),
        ));
        assert(first.skip(0) =~= seq![' '] + digits);
    }
}

/// The verses of a part read as the clauses of the part are read back.
proof fn lemma_verse_group_clauses(refs: Seq<VerseRangeReference>, g: int, n: int)
    requires
        well_formed(refs),
        0 <= g < n <= refs.len(),
        starts_group(refs, g),
        forall|j: int| g < j < n ==> !starts_group(refs, j),
        refs[g].range_type is StartEndVerse,
    ensures
        ranges_of(split(group_body(refs, g, n), seq![VERSE_CHUNK_DELIM])) == Ok::<
            Seq<(usize, usize)>,
            FaultText,
        >(group_spans(refs, g, n)),
        verse_clauses(
            group_spans(refs, g, n),
            group_chapter(refs, g).unwrap(),
            refs[g].book_index,
            refs[g].work,
        ) == reread_group(refs, g, n),
{
    lemma_group_shape(refs, g, n);
    lemma_body_splits(refs, g, n);
    lemma_group_chunks_read_back(refs, g, n, false);
    let spans = group_spans(refs, g, n);
    let read = verse_clauses(spans, group_chapter(refs, g).unwrap(), refs[g].book_index, refs[g].work);
    let wanted = reread_group(refs, g, n);
    assert(read.len() == wanted.len());
    assert forall|j: int| 0 <= j < read.len() implies read[j] == wanted[j] by {
        assert(wanted[j] == reread(refs)[g + j]);
        assert(reread_clause(refs, g + j) == read_in_group(refs, g, g + j));
    }
    assert(read =~= wanted);
}

/// A part that begins with a verse range reads back, if the clause before
/// it supplies the book where the part names none.
proof fn lemma_verse_group_reads_back(
    finder: spec_fn(Seq<char>) -> Option<Seq<char>>,
    refs: Seq<VerseRangeReference>,
    g: int,
    n: int,
    previous: Option<(usize, Work)>,
)
    requires
        finds_names(finder),
        well_formed(refs),
        0 <= g < n <= refs.len(),
        starts_group(refs, g),
        forall|j: int| g < j < n ==> !starts_group(refs, j),
        refs[g].range_type is StartEndVerse,
        !opens_book(refs, g) ==> previous == Some((refs[g].book_index, refs[g].work)),
    ensures
        clause_with(finder, group_piece(refs, g, n), previous) == Ok::<
            Seq<VerseRangeReference>,
            FaultText,
        >(reread_group(refs, g, n)),
{
    reveal(clause_with);
    lemma_verse_group_splits(refs, g, n);
    lemma_verse_group_front_reads_back(finder, refs, g, previous);
    lemma_verse_group_clauses(refs, g, n);
    let parts = split(group_piece(refs, g, n), seq![CHAPTER_VERSE_DELIM]);
    assert(parts.len() == 2);
    assert(parts[0] == verse_group_front(refs, g));
    assert(parts[1] == group_body(refs, g, n));
}

/// Reading parts one by one: the parts before the last, then the last.
proof fn lemma_clauses_compose(
    finder: spec_fn(Seq<char>) -> Option<Seq<char>>,
    parts: Seq<Seq<char>>,
    last: Seq<char>,
    i: int,
    done: Seq<VerseRangeReference>,
)
    requires
        0 <= i <= parts.len(),
    ensures
        clauses_from(finder, parts.push(last), i, done) == match clauses_from(
            finder,
            parts,
            i,
            done,
        ) {
            Err(e) => Err(e),
            Ok(read) => match clause_with(finder, last, last_book(read)) {
                Err(e) => Err(e),
                Ok(more) => Ok(read + more),
            },
        },
    decreases parts.len() - i,
{
    let all = parts.push(last);
    if i < parts.len() {
        assert(all[i] == parts[i]);
        match clause_with(finder, parts[i], last_book(done)) {
            Err(e) => {},
            Ok(more) => {
                lemma_clauses_compose(finder, parts, last, i + 1, done + more);
            },
        }
    } else {
        assert(all[i] == last);
        match clause_with(finder, last, last_book(done)) {
            Err(e) => {},
            Ok(more) => {
                assert(clauses_from(finder, all, i + 1, done + more) == Ok::<
                    Seq<VerseRangeReference>,
                    FaultText,
                >(done + more));
            },
        }
    }
}

/// The written form of the first `n` clauses reads back as these clauses are
/// read back.
proof fn lemma_text_reads_back(
    finder: spec_fn(Seq<char>) -> Option<Seq<char>>,
    refs: Seq<VerseRangeReference>,
    n: int,
)
    requires
        finds_names(finder),
        well_formed(refs),
        1 <= n <= refs.len(),
    ensures
        clauses_from(
            finder,
            split(text_of_clauses(refs, n), seq![CITATION_DELIM]),
            0,
            Seq::empty(),
        ) == Ok::<Seq<VerseRangeReference>, FaultText>(reread(refs).take(n)),
    decreases n,
{
    let semicolon = seq![CITATION_DELIM];
    let g = group_start(refs, n);
    lemma_group_start(refs, n);
    lemma_text_ends_with_group(refs, n);
    let piece = group_piece(refs, g, n);
    let head = group_head(refs, g);
    let body = group_body(refs, g, n);
    lemma_head_is_plain(refs, g, CITATION_DELIM);
    lemma_body_splits(refs, g, n);
    assert forall|i: int| 0 <= i < piece.len() implies !semicolon.contains(#[trigger] piece[i]) by {
        if i < head.len() {
            assert(piece[i] == head[i]);
        } else {
            assert(piece[i] == body[i - head.len()]);
        }
    }
    lemma_split_whole(piece, semicolon);
    let empty: Seq<VerseRangeReference> = Seq::empty();
    let before: Seq<Seq<char>> = if g == 0 {
        Seq::empty()
    } else {
        split(text_of_clauses(refs, g), semicolon)
    };
    let read: Seq<VerseRangeReference> = reread(refs).take(g);
    if g == 0 {
        assert(split(text_of_clauses(refs, n), semicolon) =~= before.push(piece));
        assert(read =~= empty);
        assert(clauses_from(finder, before, 0, empty) == Ok::<Seq<VerseRangeReference>, FaultText>(
            read,
        ));
    } else {
        assert(semicolon[0] == CITATION_DELIM);
        lemma_split_concat(text_of_clauses(refs, g), CITATION_DELIM, piece, semicolon);
        assert(split(text_of_clauses(refs, n), semicolon) =~= before.push(piece));
        lemma_text_reads_back(finder, refs, g);
    }
    let previous = last_book(read);
    if !opens_book(refs, g) {
        assert(g > 0);
        assert(read.last() == reread(refs)[g - 1]);
        assert(reread_clause(refs, g - 1).book_index == refs[g - 1].book_index);
        assert(reread_clause(refs, g - 1).work == refs[g - 1].work);
        assert(previous == Some((refs[g].book_index, refs[g].work)));
    }
    match refs[g].range_type {
        RangeType::StartEndChapter { .. } => {
            lemma_chapter_group_reads_back(finder, refs, g, n, previous);
        },
        RangeType::StartEndVerse { .. } => {
            lemma_verse_group_reads_back(finder, refs, g, n, previous);
        },
    }
    lemma_clauses_compose(finder, before, piece, 0, empty);
    assert(read + reread_group(refs, g, n) =~= reread(refs).take(n));
}

/// What is read from the written form of a collection is the collection as
/// it is read back, and is written as the collection is written, whatever
/// finder of book names is at work, if only it finds the short names of the
/// table.
pub proof fn law_written_form_reads_back(
    finder: spec_fn(Seq<char>) -> Option<Seq<char>>,
    refs: Seq<VerseRangeReference>,
)
    requires
        finds_names(finder),
        well_formed(refs),
    ensures
        parse_with(finder, canonical_text(refs)) == Ok::<Seq<VerseRangeReference>, FaultText>(
            reread(refs),
        ),
        canonical_text(reread(refs)) == canonical_text(refs),
{
    lemma_text_reads_back(finder, refs, refs.len() as int);
    assert(reread(refs).take(refs.len() as int) =~= reread(refs));
    lemma_reread_is_written_alike(refs, refs.len() as int);
}

/// Spans that were read run forwards.
proof fn lemma_ranges_run_forwards(chunks: Seq<Seq<char>>, i: int, done: Seq<(usize, usize)>)
    requires
        0 <= i <= chunks.len(),
        forall|j: int| 0 <= j < done.len() ==> (#[trigger] done[j]).0 <= done[j].1,
    ensures
        ranges_from(chunks, i, done) matches Ok(spans) ==> spans.len() == done.len() + chunks.len()
            - i && forall|j: int| 0 <= j < spans.len() ==> (#[trigger] spans[j]).0 <= spans[j].1,
    decreases chunks.len() - i,
{
    if i < chunks.len() {
        match range_of(chunks[i]) {
            Err(e) => {},
            Ok(span) => {
                let more = done.push(span);
                assert forall|j: int| 0 <= j < more.len() implies (#[trigger] more[j]).0
                    <= more[j].1 by {
                    if j < done.len() {
                        assert(more[j] == done[j]);
                    }
                }
                lemma_ranges_run_forwards(chunks, i + 1, more);
            },
        }
    }
}

/// The book that a clause speaks of is a book of the table, if the book of
/// the clause before it is one.
proof fn lemma_book_is_known(
    finder: spec_fn(Seq<char>) -> Option<Seq<char>>,
    s: Seq<char>,
    previous: Option<(usize, Work)>,
)
    requires
        previous matches Some((book_index, work)) ==> known_book(work, book_index),
    ensures
        book_for(finder, s, previous) matches Ok((end, book_index, work)) ==> known_book(
            work,
            book_index,
        ),
{
    match finder(trim(s)) {
        Some(candidate) => {
            lemma_first_named_row(trim(candidate), 0);
            match first_named_row(trim(candidate)) {
                Some(k) => {
                    lemma_rows_are_known(k);
                },
                None => {},
            }
        },
        None => {},
    }
}

/// The clauses that one part of a citation writes are sound, and there is at
/// least one.
proof fn lemma_clause_is_sound(
    finder: spec_fn(Seq<char>) -> Option<Seq<char>>,
    citation: Seq<char>,
    previous: Option<(usize, Work)>,
)
    requires
        previous matches Some((book_index, work)) ==> known_book(work, book_index),
    ensures
        clause_with(finder, citation, previous) matches Ok(refs) ==> refs.len() > 0 && forall|
            j: int,
        | 0 <= j < refs.len() ==> (#[trigger] refs[j]).sound(),
{
    reveal(clause_with);
    let none: Seq<(usize, usize)> = Seq::empty();
    let parts = split(citation, seq![CHAPTER_VERSE_DELIM]);
    if parts.len() == 1 {
        let chunks = split(citation, seq![VERSE_CHUNK_DELIM]);
        lemma_book_is_known(finder, chunks[0], previous);
        match book_for(finder, chunks[0], previous) {
            Err(e) => {},
            Ok((end, book_index, work)) => {
                lemma_ranges_run_forwards(chunks.update(0, chunks[0].skip(end)), 0, none);
            },
        }
    } else if parts.len() == 2 {
        lemma_book_is_known(finder, parts[0], previous);
        lemma_ranges_run_forwards(split(parts[1], seq![VERSE_CHUNK_DELIM]), 0, none);
    }
}

/// The clauses that the parts of a citation write are sound.
proof fn lemma_clauses_are_sound(
    finder: spec_fn(Seq<char>) -> Option<Seq<char>>,
    citations: Seq<Seq<char>>,
    i: int,
    done: Seq<VerseRangeReference>,
)
    requires
        0 <= i <= citations.len(),
        forall|j: int| 0 <= j < done.len() ==> (#[trigger] done[j]).sound(),
    ensures
        clauses_from(finder, citations, i, done) matches Ok(refs) ==> forall|j: int|
            0 <= j < refs.len() ==> (#[trigger] refs[j]).sound(),
    decreases citations.len() - i,
{
    if i < citations.len() {
        if done.len() > 0 {
            assert(done[done.len() - 1].sound());
        }
        lemma_clause_is_sound(finder, citations[i], last_book(done));
        match clause_with(finder, citations[i], last_book(done)) {
            Err(e) => {},
            Ok(more) => {
                let all = done + more;
                assert forall|j: int| 0 <= j < all.len() implies (#[trigger] all[j]).sound() by {
                    if j < done.len() {
                        assert(all[j] == done[j]);
                    } else {
                        assert(all[j] == more[j - done.len()]);
                    }
                }
                lemma_clauses_are_sound(finder, citations, i + 1, all);
            },
        }
    }
}

/// What is read from a citation is well formed.
pub proof fn lemma_parsed_is_well_formed(
    finder: spec_fn(Seq<char>) -> Option<Seq<char>>,
    s: Seq<char>,
)
    ensures
        parse_with(finder, s) matches Ok(refs) ==> well_formed(refs),
{
    let none: Seq<VerseRangeReference> = Seq::empty();
    lemma_clauses_are_sound(finder, split(s, seq![CITATION_DELIM]), 0, none);
}

/// Formatting is a fixed point after one pass: the written form of what was
/// read from a citation reads as a collection that is written in the same
/// way, whatever finder of book names is at work, if only it finds the short
/// names of the table.
pub proof fn law_formatting_is_a_fixed_point(
    finder: spec_fn(Seq<char>) -> Option<Seq<char>>,
    s: Seq<char>,
    refs: Seq<VerseRangeReference>,
)
    requires
        finds_names(finder),
        parse_with(finder, s) == Ok::<Seq<VerseRangeReference>, FaultText>(refs),
    ensures
        parse_with(finder, canonical_text(refs)) matches Ok(again) && canonical_text(again)
            == canonical_text(refs),
{
    lemma_parsed_is_well_formed(finder, s);
    law_written_form_reads_back(finder, refs);
}

} // verus!
