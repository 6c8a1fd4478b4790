//! Ordering of citation clauses and the sort-and-merge that puts a collection
//! into canonical form.

use vstd::prelude::*;
use crate::reference::{well_formed, RangeType, VerseRangeReference};

verus! {

/// Outcome of comparing two values.
#[derive(Debug, PartialEq, Eq, Clone, Copy, Structural)]
pub enum Ranking {
    Less,
    Equal,
    Greater,
}

/// How two numbers compare.
pub open spec fn rank_numbers(a: int, b: int) -> Ranking {
    if a < b {
        Ranking::Less
    } else if a == b {
        Ranking::Equal
    } else {
        Ranking::Greater
    }
}

/// How two ranges of the same book compare.
///
/// Two verse ranges compare by chapter, then start, then end; two chapter
/// ranges by start, then end. A verse range against a chapter range compares
/// its chapter with the other's start and, if these agree, with the other's
/// end, so every verse range of chapter `c` ranks equal to the whole chapter
/// `c`.
pub open spec fn rank_ranges(a: RangeType, b: RangeType) -> Ranking {
    match (a, b) {
        (
            RangeType::StartEndVerse { chapter: c, start: s, end: e },
            RangeType::StartEndVerse { chapter: oc, start: os, end: oe },
        ) => if c != oc {
            rank_numbers(c as int, oc as int)
        } else if s != os {
            rank_numbers(s as int, os as int)
        } else {
            rank_numbers(e as int, oe as int)
        },
        (
            RangeType::StartEndVerse { chapter: c, .. },
            RangeType::StartEndChapter { start: os, end: oe },
        ) => if c != os {
            rank_numbers(c as int, os as int)
        } else {
            rank_numbers(c as int, oe as int)
        },
        (
            RangeType::StartEndChapter { start: s, end: e },
            RangeType::StartEndVerse { chapter: oc, .. },
        ) => if s != oc {
            rank_numbers(s as int, oc as int)
        } else {
            rank_numbers(e as int, oc as int)
        },
        (
            RangeType::StartEndChapter { start: s, end: e },
            RangeType::StartEndChapter { start: os, end: oe },
        ) => if s != os {
            rank_numbers(s as int, os as int)
        } else {
            rank_numbers(e as int, oe as int)
        },
    }
}

/// How two clauses compare: by book index, then by range. The work plays no part.
pub open spec fn rank_references(a: VerseRangeReference, b: VerseRangeReference) -> Ranking {
    if a.book_index != b.book_index {
        rank_numbers(a.book_index as int, b.book_index as int)
    } else {
        rank_ranges(a.range_type, b.range_type)
    }
}

/// Compares two numbers.
pub fn compare_numbers(a: usize, b: usize) -> (r: Ranking)
    ensures
        r == rank_numbers(a as int, b as int),
{
    if a < b {
        Ranking::Less
    } else if a == b {
        Ranking::Equal
    } else {
        Ranking::Greater
    }
}

impl RangeType {
    /// Compares two ranges of the same book.
    pub fn compare(&self, other: &Self) -> (r: Ranking)
        ensures
            r == rank_ranges(*self, *other),
    {
        match (self, other) {
            (
                Self::StartEndVerse { chapter: c, start: s, end: e },
                Self::StartEndVerse { chapter: oc, start: os, end: oe },
            ) => match compare_numbers(*c, *oc) {
                Ranking::Equal => match compare_numbers(*s, *os) {
                    Ranking::Equal => compare_numbers(*e, *oe),
                    other_rank => other_rank,
                },
                other_rank => other_rank,
            },
            (Self::StartEndVerse { chapter: c, .. }, Self::StartEndChapter { start: os, end: oe }) => {
                match compare_numbers(*c, *os) {
                    Ranking::Equal => compare_numbers(*c, *oe),
                    other_rank => other_rank,
                }
            },
            (Self::StartEndChapter { start: s, end: e }, Self::StartEndVerse { chapter: oc, .. }) => {
                match compare_numbers(*s, *oc) {
                    Ranking::Equal => compare_numbers(*e, *oc),
                    other_rank => other_rank,
                }
            },
            (
                Self::StartEndChapter { start: s, end: e },
                Self::StartEndChapter { start: os, end: oe },
            ) => match compare_numbers(*s, *os) {
                Ranking::Equal => compare_numbers(*e, *oe),
                other_rank => other_rank,
            },
        }
    }
}

impl VerseRangeReference {
    /// Compares two clauses.
    pub fn compare(&self, other: &Self) -> (r: Ranking)
        ensures
            r == rank_references(*self, *other),
    {
        match compare_numbers(self.book_index, other.book_index) {
            Ranking::Equal => self.range_type.compare(&other.range_type),
            other_rank => other_rank,
        }
    }
}

/// The three outcomes mirror each other when the arguments are swapped.
pub proof fn lemma_rank_antisymmetric(a: VerseRangeReference, b: VerseRangeReference)
    ensures
        rank_references(a, b) is Less <==> rank_references(b, a) is Greater,
        rank_references(a, b) is Equal <==> rank_references(b, a) is Equal,
{
}

/// `s` with `x` put in behind the last element that does not rank above it.
/// `s` is meant to be in order already.
pub open spec fn insert_in_order(s: Seq<VerseRangeReference>, x: VerseRangeReference) -> Seq<
    VerseRangeReference,
>
    decreases s.len(),
{
    if s.len() > 0 && rank_references(s.last(), x) is Greater {
        insert_in_order(s.drop_last(), x).push(s.last())
    } else {
        s.push(x)
    }
}

/// The clauses of `s` in ascending order, each put in place in turn from the
/// left. Clauses that rank equal keep the order in which they came.
pub open spec fn sorted_references(s: Seq<VerseRangeReference>) -> Seq<VerseRangeReference>
    decreases s.len(),
{
    if s.len() == 0 {
        s
    } else {
        insert_in_order(sorted_references(s.drop_last()), s.last())
    }
}

/// Whether clause `next` touches the chapters of `current`: same work, same
/// book, and its first chapter lies in `current`'s chapters or right behind them.
pub open spec fn collapsible(current: VerseRangeReference, next: VerseRangeReference) -> bool {
    &&& next.work == current.work
    &&& next.book_index == current.book_index
    &&& current.range_type.chapter_span().0 <= next.range_type.chapter_span().0
    &&& next.range_type.chapter_span().0 <= current.range_type.chapter_span().1 + 1
}

pub open spec fn min_of(a: usize, b: usize) -> usize {
    if a <= b {
        a
    } else {
        b
    }
}

pub open spec fn max_of(a: usize, b: usize) -> usize {
    if a >= b {
        a
    } else {
        b
    }
}

/// The clause that takes the place of `current` when `next` is merged into
/// it, or `None` when the two stay apart.
///
/// Collapsible chapter ranges join into their union. Collapsible verse ranges
/// join into their union on `current`'s chapter when `next` starts inside
/// `current`'s verses or right behind them. Of a chapter range and a verse
/// range that are collapsible the chapter range remains.
pub open spec fn merge_step(current: VerseRangeReference, next: VerseRangeReference) -> Option<
    VerseRangeReference,
> {
    if !collapsible(current, next) {
        None
    } else {
        let cc = current.range_type.chapter_span();
        let nc = next.range_type.chapter_span();
        match (next.range_type.verse_span(), current.range_type.verse_span()) {
            (None, None) => Some(
                VerseRangeReference {
                    book_index: current.book_index,
                    work: current.work,
                    range_type: RangeType::StartEndChapter {
                        start: min_of(cc.0, nc.0),
                        end: max_of(cc.1, nc.1),
                    },
                },
            ),
            (Some(nv), Some(cv)) => if cv.0 <= nv.0 && nv.0 <= cv.1 + 1 {
                Some(
                    VerseRangeReference {
                        book_index: current.book_index,
                        work: current.work,
                        range_type: RangeType::StartEndVerse {
                            chapter: cc.0,
                            start: min_of(cv.0, nv.0),
                            end: max_of(cv.1, nv.1),
                        },
                    },
                )
            } else {
                None
            },
            (None, Some(_)) => Some(
                VerseRangeReference {
                    book_index: current.book_index,
                    work: current.work,
                    range_type: RangeType::StartEndChapter { start: nc.0, end: nc.1 },
                },
            ),
            (Some(_), None) => Some(current),
        }
    }
}

/// `out` after clause `next` has been merged into its last clause or, where
/// the two stay apart, put behind it.
pub open spec fn absorb(out: Seq<VerseRangeReference>, next: VerseRangeReference) -> Seq<
    VerseRangeReference,
> {
    if out.len() == 0 {
        out.push(next)
    } else {
        match merge_step(out.last(), next) {
            Some(joined) => out.drop_last().push(joined),
            None => out.push(next),
        }
    }
}

/// One pass over `s` from the left that merges each clause into the one before it
/// where [`merge_step`] allows.
pub open spec fn merged_references(s: Seq<VerseRangeReference>) -> Seq<VerseRangeReference>
    decreases s.len(),
{
    if s.len() == 0 {
        s
    } else {
        absorb(merged_references(s.drop_last()), s.last())
    }
}

/// The canonical form of a collection: sorted, then merged.
pub open spec fn canonical_form(s: Seq<VerseRangeReference>) -> Seq<VerseRangeReference> {
    merged_references(sorted_references(s))
}

/// Putting a clause in adds it and keeps all others.
pub proof fn lemma_insert_in_order_members(s: Seq<VerseRangeReference>, x: VerseRangeReference)
    ensures
        insert_in_order(s, x).len() == s.len() + 1,
        insert_in_order(s, x).to_multiset() == s.to_multiset().insert(x),
    decreases s.len(),
{
    broadcast use vstd::seq_lib::group_to_multiset_ensures;

    if s.len() > 0 && rank_references(s.last(), x) is Greater {
        lemma_insert_in_order_members(s.drop_last(), x);
        assert(s.drop_last().push(s.last()) =~= s);
        assert(s.to_multiset() == s.drop_last().to_multiset().insert(s.last()));
        assert(s.drop_last().to_multiset().insert(x).insert(s.last()) =~= s.drop_last().to_multiset().insert(
            s.last(),
        ).insert(x));
    }
}

/// Sorting rearranges the clauses: none is lost, none is added.
pub proof fn law_sorting_rearranges(s: Seq<VerseRangeReference>)
    ensures
        sorted_references(s).len() == s.len(),
        sorted_references(s).to_multiset() == s.to_multiset(),
    decreases s.len(),
{
    broadcast use vstd::seq_lib::group_to_multiset_ensures;

    if s.len() > 0 {
        law_sorting_rearranges(s.drop_last());
        lemma_insert_in_order_members(sorted_references(s.drop_last()), s.last());
        assert(s.drop_last().push(s.last()) =~= s);
    }
}

/// Whether no clause of `s` ranks above the clause that follows it.
pub open spec fn neighbours_in_order(s: Seq<VerseRangeReference>) -> bool {
    forall|i: int| 0 <= i < s.len() - 1 ==> !(#[trigger] rank_references(s[i], s[i + 1]) is Greater)
}

/// Putting a clause into a sequence whose neighbours are in order leaves the
/// neighbours in order.
pub proof fn lemma_insert_keeps_order(s: Seq<VerseRangeReference>, x: VerseRangeReference)
    requires
        neighbours_in_order(s),
    ensures
        neighbours_in_order(insert_in_order(s, x)),
        insert_in_order(s, x).len() == s.len() + 1,
        insert_in_order(s, x).last() == x || (s.len() > 0 && insert_in_order(s, x).last()
            == s.last()),
    decreases s.len(),
{
    let t = insert_in_order(s, x);
    if s.len() > 0 && rank_references(s.last(), x) is Greater {
        let front = s.drop_last();
        assert forall|i: int| 0 <= i < front.len() - 1 implies !(#[trigger] rank_references(
            front[i],
            front[i + 1],
        ) is Greater) by {
            assert(front[i] == s[i] && front[i + 1] == s[i + 1]);
            assert(!(rank_references(s[i], s[i + 1]) is Greater));
        }
        lemma_insert_keeps_order(front, x);
        let u = insert_in_order(front, x);
        assert(t == u.push(s.last()));
        assert forall|i: int| 0 <= i < t.len() - 1 implies !(#[trigger] rank_references(
            t[i],
            t[i + 1],
        ) is Greater) by {
            if i < u.len() - 1 {
                assert(t[i] == u[i] && t[i + 1] == u[i + 1]);
                assert(!(rank_references(u[i], u[i + 1]) is Greater));
            } else {
                assert(t[i] == u.last());
                assert(t[i + 1] == s.last());
                if u.last() == x {
                    lemma_rank_antisymmetric(s.last(), x);
                } else {
                    assert(u.last() == front.last());
                    assert(front.last() == s[s.len() - 2]);
                    assert(!(rank_references(s[s.len() - 2], s[s.len() - 2 + 1]) is Greater));
                }
            }
        }
    } else {
        assert forall|i: int| 0 <= i < t.len() - 1 implies !(#[trigger] rank_references(
            t[i],
            t[i + 1],
        ) is Greater) by {
            if i < s.len() - 1 {
                assert(t[i] == s[i] && t[i + 1] == s[i + 1]);
                assert(!(rank_references(s[i], s[i + 1]) is Greater));
            }
        }
    }
}

/// After sorting, no clause ranks above the clause that follows it.
pub proof fn law_sorting_orders_neighbours(s: Seq<VerseRangeReference>)
    ensures
        neighbours_in_order(sorted_references(s)),
    decreases s.len(),
{
    if s.len() > 0 {
        law_sorting_orders_neighbours(s.drop_last());
        lemma_insert_keeps_order(sorted_references(s.drop_last()), s.last());
    }
}

/// Sorting leaves alone a sequence whose neighbours are in order already.
pub proof fn lemma_sort_keeps_ordered(s: Seq<VerseRangeReference>)
    requires
        neighbours_in_order(s),
    ensures
        sorted_references(s) == s,
    decreases s.len(),
{
    if s.len() > 0 {
        let front = s.drop_last();
        assert forall|i: int| 0 <= i < front.len() - 1 implies !(#[trigger] rank_references(
            front[i],
            front[i + 1],
        ) is Greater) by {
            assert(front[i] == s[i] && front[i + 1] == s[i + 1]);
            assert(!(rank_references(s[i], s[i + 1]) is Greater));
        }
        lemma_sort_keeps_ordered(front);
        if front.len() > 0 {
            assert(front.last() == s[s.len() - 2]);
            assert(!(rank_references(s[s.len() - 2], s[s.len() - 2 + 1]) is Greater));
        }
        assert(front.push(s.last()) =~= s);
    }
}

/// Whether no clause of `s` can be merged into the clause before it.
pub open spec fn neighbours_apart(s: Seq<VerseRangeReference>) -> bool {
    forall|i: int| 0 <= i < s.len() - 1 ==> (#[trigger] merge_step(s[i], s[i + 1])) is None
}

/// Merging leaves alone a sequence in which no clause can be merged into the
/// clause before it.
pub proof fn lemma_merge_keeps_apart(s: Seq<VerseRangeReference>)
    requires
        neighbours_apart(s),
    ensures
        merged_references(s) == s,
    decreases s.len(),
{
    if s.len() > 0 {
        let front = s.drop_last();
        assert forall|i: int| 0 <= i < front.len() - 1 implies (#[trigger] merge_step(
            front[i],
            front[i + 1],
        )) is None by {
            assert(front[i] == s[i] && front[i + 1] == s[i + 1]);
            assert(merge_step(s[i], s[i + 1]) is None);
        }
        lemma_merge_keeps_apart(front);
        if front.len() > 0 {
            assert(front.last() == s[s.len() - 2]);
            assert(merge_step(s[s.len() - 2], s[s.len() - 2 + 1]) is None);
        }
        assert(front.push(s.last()) =~= s);
    }
}

/// Whether `s` is in canonical form already: it has a clause, no clause ranks
/// above the one that follows it, and no clause can be merged into the one
/// before it.
pub open spec fn is_canonical(s: Seq<VerseRangeReference>) -> bool {
    s.len() > 0 && neighbours_in_order(s) && neighbours_apart(s)
}

/// Canonicalizing a collection that is in canonical form already changes
/// nothing.
pub proof fn law_canonical_form_is_fixed(s: Seq<VerseRangeReference>)
    requires
        is_canonical(s),
    ensures
        canonical_form(s) == s,
{
    lemma_sort_keeps_ordered(s);
    lemma_merge_keeps_apart(s);
}

/// Whether `a` and `b` are of one kind, both chapter ranges or both verse
/// ranges, unless they lie in books of different index.
pub open spec fn akin(a: VerseRangeReference, b: VerseRangeReference) -> bool {
    a.book_index == b.book_index ==> (a.range_type is StartEndVerse) == (
    b.range_type is StartEndVerse)
}

/// Whether no book index of `s` has both chapter ranges and verse ranges.
pub open spec fn unmixed(s: Seq<VerseRangeReference>) -> bool {
    forall|i: int, j: int|
        0 <= i < s.len() && 0 <= j < s.len() ==> akin(#[trigger] s[i], #[trigger] s[j])
}

/// Whether `a` does not rank above `b`.
pub open spec fn in_order(a: VerseRangeReference, b: VerseRangeReference) -> bool {
    !(rank_references(a, b) is Greater)
}

/// Whether no clause of `s` ranks above any clause behind it.
pub open spec fn fully_ordered(s: Seq<VerseRangeReference>) -> bool {
    forall|i: int, j: int| 0 <= i < j < s.len() ==> in_order(#[trigger] s[i], #[trigger] s[j])
}

/// Among clauses that are akin the order is transitive.
pub proof fn lemma_order_transitive(
    a: VerseRangeReference,
    b: VerseRangeReference,
    c: VerseRangeReference,
)
    requires
        akin(a, b),
        akin(b, c),
        in_order(a, b),
        in_order(b, c),
    ensures
        in_order(a, c),
{
}

/// What merging makes of two clauses that are akin is of their kind and in
/// their book, and stays in order with what stood before the first and with
/// every clause that does not rank below the two.
proof fn lemma_merge_step_of_akin(
    before: VerseRangeReference,
    current: VerseRangeReference,
    next: VerseRangeReference,
    bound: VerseRangeReference,
)
    requires
        akin(before, current),
        akin(current, next),
        akin(current, bound),
        akin(next, bound),
        merge_step(current, next) is Some,
    ensures
        merge_step(current, next).unwrap().book_index == current.book_index,
        (merge_step(current, next).unwrap().range_type is StartEndVerse) == (
        current.range_type is StartEndVerse),
        in_order(before, current) ==> in_order(before, merge_step(current, next).unwrap()),
        merge_step(before, current) is None ==> merge_step(
            before,
            merge_step(current, next).unwrap(),
        ) is None,
        in_order(current, bound) && in_order(next, bound) ==> in_order(
            merge_step(current, next).unwrap(),
            bound,
        ),
{
}

/// Every clause of `insert_in_order(s, x)` is `x` or a clause of `s`.
proof fn lemma_insert_in_order_from(s: Seq<VerseRangeReference>, x: VerseRangeReference, k: int)
    requires
        0 <= k < insert_in_order(s, x).len(),
    ensures
        insert_in_order(s, x)[k] == x || exists|j: int|
            0 <= j < s.len() && #[trigger] s[j] == insert_in_order(s, x)[k],
    decreases s.len(),
{
    if s.len() > 0 && rank_references(s.last(), x) is Greater {
        lemma_insert_in_order_members(s.drop_last(), x);
        let u = insert_in_order(s.drop_last(), x);
        if k < u.len() {
            lemma_insert_in_order_from(s.drop_last(), x, k);
            if u[k] != x {
                let j = choose|j: int|
                    0 <= j < s.drop_last().len() && #[trigger] s.drop_last()[j] == u[k];
                assert(s[j] == u[k]);
            }
        } else {
            assert(s[s.len() - 1] == insert_in_order(s, x)[k]);
        }
    } else {
        if k < s.len() {
            assert(s[k] == insert_in_order(s, x)[k]);
        }
    }
}

/// Putting a clause into a fully ordered, unmixed sequence leaves the
/// sequence fully ordered and unmixed, if the clause is akin to all of it.
proof fn lemma_insert_keeps_fully_ordered(s: Seq<VerseRangeReference>, x: VerseRangeReference)
    requires
        fully_ordered(s),
        unmixed(s.push(x)),
    ensures
        fully_ordered(insert_in_order(s, x)),
        unmixed(insert_in_order(s, x)),
    decreases s.len(),
{
    let t = insert_in_order(s, x);
    let sx = s.push(x);
    lemma_insert_in_order_members(s, x);
    assert forall|k: int| 0 <= k < t.len() implies sx.contains(#[trigger] t[k]) by {
        lemma_insert_in_order_from(s, x, k);
        if t[k] == x {
            assert(sx[s.len() as int] == t[k]);
        } else {
            let j = choose|j: int| 0 <= j < s.len() && #[trigger] s[j] == t[k];
            assert(sx[j] == t[k]);
        }
    }
    assert forall|i: int, j: int| 0 <= i < t.len() && 0 <= j < t.len() implies akin(
        #[trigger] t[i],
        #[trigger] t[j],
    ) by {
        assert(sx.contains(t[i]));
        assert(sx.contains(t[j]));
        let a = choose|a: int| 0 <= a < sx.len() && sx[a] == t[i];
        let b = choose|b: int| 0 <= b < sx.len() && sx[b] == t[j];
        assert(akin(sx[a], sx[b]));
    }
    assert forall|i: int| 0 <= i < s.len() implies akin(#[trigger] s[i], x) by {
        assert(akin(sx[i], sx[s.len() as int]));
    }
    assert forall|i: int, j: int| 0 <= i < s.len() && 0 <= j < s.len() implies akin(
        #[trigger] s[i],
        #[trigger] s[j],
    ) by {
        assert(akin(sx[i], sx[j]));
    }
    if s.len() > 0 && rank_references(s.last(), x) is Greater {
        let front = s.drop_last();
        assert forall|i: int, j: int| 0 <= i < j < front.len() implies in_order(
            #[trigger] front[i],
            #[trigger] front[j],
        ) by {
            assert(in_order(s[i], s[j]));
        }
        let fx = front.push(x);
        assert forall|i: int, j: int| 0 <= i < fx.len() && 0 <= j < fx.len() implies akin(
            #[trigger] fx[i],
            #[trigger] fx[j],
        ) by {
            let a = if i < front.len() {
                i
            } else {
                s.len() as int
            };
            let b = if j < front.len() {
                j
            } else {
                s.len() as int
            };
            assert(fx[i] == sx[a] && fx[j] == sx[b]);
            assert(akin(sx[a], sx[b]));
        }
        lemma_insert_keeps_fully_ordered(front, x);
        lemma_insert_in_order_members(front, x);
        let u = insert_in_order(front, x);
        assert forall|i: int, j: int| 0 <= i < j < t.len() implies in_order(
            #[trigger] t[i],
            #[trigger] t[j],
        ) by {
            if j < u.len() {
                assert(in_order(u[i], u[j]));
            } else {
                assert(t[j] == s.last());
                lemma_insert_in_order_from(front, x, i);
                if u[i] == x {
                    lemma_rank_antisymmetric(s.last(), x);
                } else {
                    let a = choose|a: int| 0 <= a < front.len() && #[trigger] front[a] == u[i];
                    assert(in_order(s[a], s[s.len() - 1]));
                }
            }
        }
    } else {
        assert forall|i: int, j: int| 0 <= i < j < t.len() implies in_order(
            #[trigger] t[i],
            #[trigger] t[j],
        ) by {
            if j < s.len() {
                assert(in_order(s[i], s[j]));
            } else if i < s.len() - 1 {
                assert(in_order(s[i], s[s.len() - 1]));
                assert(akin(s[i], s[s.len() - 1]));
                assert(akin(s[s.len() - 1], x));
                lemma_order_transitive(s[i], s.last(), x);
            }
        }
    }
}

/// Every clause of the sorted sequence is a clause of the sequence.
proof fn lemma_sorted_from(s: Seq<VerseRangeReference>, k: int)
    requires
        0 <= k < sorted_references(s).len(),
    ensures
        exists|j: int| 0 <= j < s.len() && #[trigger] s[j] == sorted_references(s)[k],
{
    broadcast use vstd::seq_lib::group_to_multiset_ensures;

    law_sorting_rearranges(s);
    let t = sorted_references(s);
    assert(t.to_multiset().count(t[k]) > 0);
    assert(s.to_multiset().count(t[k]) > 0);
    assert(s.contains(t[k]));
}

/// Sorting an unmixed sequence puts it fully in order and leaves it unmixed.
pub proof fn lemma_sorted_fully_ordered(s: Seq<VerseRangeReference>)
    requires
        unmixed(s),
    ensures
        fully_ordered(sorted_references(s)),
        unmixed(sorted_references(s)),
    decreases s.len(),
{
    if s.len() > 0 {
        let front = s.drop_last();
        assert forall|i: int, j: int| 0 <= i < front.len() && 0 <= j < front.len() implies akin(
            #[trigger] front[i],
            #[trigger] front[j],
        ) by {
            assert(akin(s[i], s[j]));
        }
        lemma_sorted_fully_ordered(front);
        law_sorting_rearranges(front);
        let sf = sorted_references(front);
        let sx = sf.push(s.last());
        assert forall|i: int, j: int| 0 <= i < sx.len() && 0 <= j < sx.len() implies akin(
            #[trigger] sx[i],
            #[trigger] sx[j],
        ) by {
            let a = if i < sf.len() {
                lemma_sorted_from(front, i);
                choose|a: int| 0 <= a < front.len() && #[trigger] front[a] == sf[i]
            } else {
                s.len() - 1
            };
            let b = if j < sf.len() {
                lemma_sorted_from(front, j);
                choose|b: int| 0 <= b < front.len() && #[trigger] front[b] == sf[j]
            } else {
                s.len() - 1
            };
            assert(sx[i] == s[a] && sx[j] == s[b]);
            assert(akin(s[a], s[b]));
        }
        lemma_insert_keeps_fully_ordered(sf, s.last());
    }
}

/// Whether `bound` is akin to every clause of `s` and ranks below none.
pub open spec fn bounds(s: Seq<VerseRangeReference>, bound: VerseRangeReference) -> bool {
    forall|i: int| 0 <= i < s.len() ==> akin(#[trigger] s[i], bound) && in_order(s[i], bound)
}

/// Whether `a` lies in the book, and is of the kind, of `b`.
pub open spec fn alike(a: VerseRangeReference, b: VerseRangeReference) -> bool {
    a.book_index == b.book_index && (a.range_type is StartEndVerse) == (
    b.range_type is StartEndVerse)
}

/// Whether each clause of `s` is akin to the clause that follows it.
pub open spec fn neighbours_akin(s: Seq<VerseRangeReference>) -> bool {
    forall|i: int| 0 <= i < s.len() - 1 ==> akin(#[trigger] s[i], s[i + 1])
}

/// Taking in a clause keeps the neighbours in order, apart and akin.
proof fn lemma_absorb_keeps_neighbours(m: Seq<VerseRangeReference>, x: VerseRangeReference)
    requires
        m.len() > 0,
        neighbours_in_order(m),
        neighbours_apart(m),
        neighbours_akin(m),
        akin(m.last(), x),
        in_order(m.last(), x),
    ensures
        neighbours_in_order(absorb(m, x)),
        neighbours_apart(absorb(m, x)),
        neighbours_akin(absorb(m, x)),
        absorb(m, x).len() > 0,
        alike(absorb(m, x).last(), m.last()) || absorb(m, x).last() == x,
{
    let t = absorb(m, x);
    let current = m.last();
    match merge_step(current, x) {
        Some(joined) => {
            lemma_merge_step_of_akin(current, current, x, x);
            assert(t == m.drop_last().push(joined));
            if m.len() >= 2 {
                let before = m[m.len() - 2];
                assert(akin(m[m.len() - 2], m[m.len() - 2 + 1]));
                assert(!(rank_references(m[m.len() - 2], m[m.len() - 2 + 1]) is Greater));
                assert(merge_step(m[m.len() - 2], m[m.len() - 2 + 1]) is None);
                lemma_merge_step_of_akin(before, current, x, x);
            }
            assert forall|i: int| 0 <= i < t.len() - 1 implies !(#[trigger] rank_references(
                t[i],
                t[i + 1],
            ) is Greater) by {
                if i < t.len() - 2 {
                    assert(t[i] == m[i] && t[i + 1] == m[i + 1]);
                    assert(!(rank_references(m[i], m[i + 1]) is Greater));
                }
            }
            assert forall|i: int| 0 <= i < t.len() - 1 implies (#[trigger] merge_step(
                t[i],
                t[i + 1],
            )) is None by {
                if i < t.len() - 2 {
                    assert(t[i] == m[i] && t[i + 1] == m[i + 1]);
                    assert(merge_step(m[i], m[i + 1]) is None);
                }
            }
            assert forall|i: int| 0 <= i < t.len() - 1 implies akin(#[trigger] t[i], t[i + 1]) by {
                if i < t.len() - 2 {
                    assert(t[i] == m[i] && t[i + 1] == m[i + 1]);
                    assert(akin(m[i], m[i + 1]));
                }
            }
        },
        None => {
            assert(t == m.push(x));
            assert forall|i: int| 0 <= i < t.len() - 1 implies !(#[trigger] rank_references(
                t[i],
                t[i + 1],
            ) is Greater) by {
                if i < t.len() - 2 {
                    assert(t[i] == m[i] && t[i + 1] == m[i + 1]);
                    assert(!(rank_references(m[i], m[i + 1]) is Greater));
                }
            }
            assert forall|i: int| 0 <= i < t.len() - 1 implies (#[trigger] merge_step(
                t[i],
                t[i + 1],
            )) is None by {
                if i < t.len() - 2 {
                    assert(t[i] == m[i] && t[i + 1] == m[i + 1]);
                    assert(merge_step(m[i], m[i + 1]) is None);
                }
            }
            assert forall|i: int| 0 <= i < t.len() - 1 implies akin(#[trigger] t[i], t[i + 1]) by {
                if i < t.len() - 2 {
                    assert(t[i] == m[i] && t[i + 1] == m[i + 1]);
                    assert(akin(m[i], m[i + 1]));
                }
            }
        },
    }
}

/// What stands last after a clause was taken in does not rank above a clause
/// that neither the last clause before nor the clause taken in ranks above.
proof fn lemma_absorb_keeps_bound(
    m: Seq<VerseRangeReference>,
    x: VerseRangeReference,
    bound: VerseRangeReference,
)
    requires
        m.len() > 0,
        akin(m.last(), x),
        akin(m.last(), bound),
        akin(x, bound),
        in_order(m.last(), bound),
        in_order(x, bound),
    ensures
        in_order(absorb(m, x).last(), bound),
{
    if merge_step(m.last(), x) is Some {
        lemma_merge_step_of_akin(m.last(), m.last(), x, bound);
    }
}

/// Merging a fully ordered, unmixed sequence leaves a sequence of which no
/// clause ranks above the next and none can be merged into the one before it.
proof fn lemma_merged_is_canonical(s: Seq<VerseRangeReference>)
    requires
        fully_ordered(s),
        unmixed(s),
    ensures
        neighbours_in_order(merged_references(s)),
        neighbours_apart(merged_references(s)),
        neighbours_akin(merged_references(s)),
        s.len() > 0 ==> merged_references(s).len() > 0 && exists|j: int|
            0 <= j < s.len() && alike(merged_references(s).last(), #[trigger] s[j]),
        forall|bound: VerseRangeReference| #[trigger]
            bounds(s, bound) && s.len() > 0 ==> in_order(merged_references(s).last(), bound),
    decreases s.len(),
{
    if s.len() > 0 {
        let front = s.drop_last();
        let x = s.last();
        assert(x == s[s.len() - 1]);
        assert forall|i: int, j: int| 0 <= i < j < front.len() implies in_order(
            #[trigger] front[i],
            #[trigger] front[j],
        ) by {
            assert(in_order(s[i], s[j]));
        }
        assert forall|i: int, j: int| 0 <= i < front.len() && 0 <= j < front.len() implies akin(
            #[trigger] front[i],
            #[trigger] front[j],
        ) by {
            assert(akin(s[i], s[j]));
        }
        lemma_merged_is_canonical(front);
        let m = merged_references(front);
        let t = merged_references(s);
        assert(t == absorb(m, x));
        if front.len() == 0 {
            assert(m.len() == 0);
            assert(t =~= seq![x]);
            assert(alike(t.last(), s[s.len() - 1]));
            assert forall|bound: VerseRangeReference| #[trigger] bounds(s, bound) implies in_order(
                t.last(),
                bound,
            ) by {
                assert(in_order(s[s.len() - 1], bound));
            }
        } else {
            let w = choose|j: int| 0 <= j < front.len() && alike(m.last(), #[trigger] front[j]);
            assert(front[w] == s[w]);
            assert(akin(s[w], s[s.len() - 1]));
            assert forall|i: int| 0 <= i < front.len() implies akin(#[trigger] front[i], x)
                && in_order(front[i], x) by {
                assert(in_order(s[i], s[s.len() - 1]));
                assert(akin(s[i], s[s.len() - 1]));
            }
            assert(bounds(front, x));
            lemma_absorb_keeps_neighbours(m, x);
            if alike(t.last(), m.last()) {
                assert(alike(t.last(), s[w]));
            } else {
                assert(alike(t.last(), s[s.len() - 1]));
            }
            assert forall|bound: VerseRangeReference| #[trigger] bounds(s, bound) implies in_order(
                t.last(),
                bound,
            ) by {
                assert forall|i: int| 0 <= i < front.len() implies akin(#[trigger] front[i], bound)
                    && in_order(front[i], bound) by {
                    assert(akin(s[i], bound) && in_order(s[i], bound));
                }
                assert(bounds(front, bound));
                assert(akin(s[w], bound));
                assert(akin(s[s.len() - 1], bound) && in_order(s[s.len() - 1], bound));
                lemma_absorb_keeps_bound(m, x, bound);
            }
        }
    }
}

/// The canonical form of an unmixed collection is in canonical form.
pub proof fn lemma_canonical_form_is_canonical(s: Seq<VerseRangeReference>)
    requires
        s.len() > 0,
        unmixed(s),
    ensures
        is_canonical(canonical_form(s)),
{
    law_sorting_rearranges(s);
    lemma_sorted_fully_ordered(s);
    lemma_merged_is_canonical(sorted_references(s));
}

/// Canonicalizing twice gives what canonicalizing once gives, for a
/// collection in which no book index has both chapter ranges and verse
/// ranges.
pub proof fn law_canonicalize_is_idempotent(s: Seq<VerseRangeReference>)
    requires
        s.len() > 0,
        unmixed(s),
    ensures
        canonical_form(canonical_form(s)) == canonical_form(s),
{
    lemma_canonical_form_is_canonical(s);
    law_canonical_form_is_fixed(canonical_form(s));
}

/// Sorting keeps every clause sound.
pub proof fn lemma_sorted_sound(s: Seq<VerseRangeReference>)
    requires
        forall|i: int| 0 <= i < s.len() ==> (#[trigger] s[i]).sound(),
    ensures
        forall|i: int|
            0 <= i < sorted_references(s).len() ==> (#[trigger] sorted_references(s)[i]).sound(),
{
    broadcast use vstd::seq_lib::group_to_multiset_ensures;

    law_sorting_rearranges(s);
    let t = sorted_references(s);
    assert forall|i: int| 0 <= i < t.len() implies (#[trigger] t[i]).sound() by {
        assert(t.to_multiset().count(t[i]) > 0);
        assert(s.to_multiset().count(t[i]) > 0);
        assert(s.contains(t[i]));
        let j = choose|j: int| 0 <= j < s.len() && s[j] == t[i];
        assert(s[j].sound());
    }
}

/// What merging joins out of sound clauses is sound.
pub proof fn lemma_merge_step_sound(current: VerseRangeReference, next: VerseRangeReference)
    requires
        current.sound(),
        next.sound(),
    ensures
        merge_step(current, next) matches Some(joined) ==> joined.sound(),
{
}

/// Merging keeps every clause sound, loses at most all clauses but one, and
/// adds none.
pub proof fn lemma_merged_sound(s: Seq<VerseRangeReference>)
    requires
        forall|i: int| 0 <= i < s.len() ==> (#[trigger] s[i]).sound(),
    ensures
        forall|i: int|
            0 <= i < merged_references(s).len() ==> (#[trigger] merged_references(s)[i]).sound(),
        merged_references(s).len() <= s.len(),
        s.len() > 0 ==> merged_references(s).len() > 0,
    decreases s.len(),
{
    if s.len() > 0 {
        let front = s.drop_last();
        assert forall|i: int| 0 <= i < front.len() implies (#[trigger] front[i]).sound() by {
            assert(front[i] == s[i]);
        }
        lemma_merged_sound(front);
        let m = merged_references(front);
        if m.len() > 0 {
            assert(m.last() == m[m.len() - 1]);
            lemma_merge_step_sound(m.last(), s.last());
        }
        let t = merged_references(s);
        assert forall|i: int| 0 <= i < t.len() implies (#[trigger] t[i]).sound() by {
            if i < t.len() - 1 {
                assert(t[i] == m[i]);
            }
        }
    }
}

/// The canonical form of a well-formed collection is well formed.
pub proof fn lemma_canonical_form_well_formed(s: Seq<VerseRangeReference>)
    requires
        well_formed(s),
    ensures
        well_formed(canonical_form(s)),
        canonical_form(s).len() <= s.len(),
{
    law_sorting_rearranges(s);
    lemma_sorted_sound(s);
    lemma_merged_sound(sorted_references(s));
}

/// Puts `x` into the ordered vector `out`.
pub fn insert_reference(out: &mut Vec<VerseRangeReference>, x: VerseRangeReference)
    ensures
        final(out)@ == insert_in_order(old(out)@, x),
{
    let mut j: usize = out.len();
    proof {
        assert(out@.take(j as int) =~= out@);
        assert(out@.skip(j as int) =~= Seq::<VerseRangeReference>::empty());
    }
    while j > 0 && out[j - 1].compare(&x) == Ranking::Greater
        invariant
            j <= out@.len(),
            out@ == old(out)@,
            insert_in_order(out@, x) == insert_in_order(out@.take(j as int), x) + out@.skip(
                j as int,
            ),
        decreases j,
    {
        proof {
            let t = out@.take(j as int);
            assert(t.last() == out@[j - 1]);
            assert(t.drop_last() =~= out@.take(j - 1));
            assert(insert_in_order(t, x) == insert_in_order(out@.take(j - 1), x).push(
                out@[j - 1],
            ));
            assert(insert_in_order(out@.take(j - 1), x).push(out@[j - 1]) + out@.skip(j as int)
                =~= insert_in_order(out@.take(j - 1), x) + out@.skip(j - 1));
        }
        j -= 1;
    }
    proof {
        let t = out@.take(j as int);
        if j > 0 {
            assert(t.last() == out@[j - 1]);
        }
        assert(insert_in_order(t, x) == t.push(x));
        assert(t.push(x) + out@.skip(j as int) =~= out@.insert(j as int, x));
    }
    out.insert(j, x);
}

/// Sorts the clauses; see [`sorted_references`].
pub fn sort_references(refs: &Vec<VerseRangeReference>) -> (out: Vec<VerseRangeReference>)
    ensures
        out@ == sorted_references(refs@),
{
    let mut out: Vec<VerseRangeReference> = Vec::new();
    let mut i: usize = 0;
    proof {
        assert(refs@.take(0) =~= Seq::<VerseRangeReference>::empty());
    }
    while i < refs.len()
        invariant
            i <= refs@.len(),
            out@ == sorted_references(refs@.take(i as int)),
        decreases refs@.len() - i,
    {
        let x = refs[i];
        insert_reference(&mut out, x);
        proof {
            assert(refs@.take(i + 1).drop_last() =~= refs@.take(i as int));
            assert(refs@.take(i + 1).last() == x);
        }
        i += 1;
    }
    proof {
        assert(refs@.take(i as int) =~= refs@);
    }
    out
}

impl VerseRangeReference {
    /// Merges `next` into `self` where the two collapse; see [`merge_step`].
    pub fn merge_with(&self, next: &Self) -> (r: Option<Self>)
        ensures
            r == merge_step(*self, *next),
    {
        let cc = self.range_type.chapter_range();
        let nc = next.range_type.chapter_range();
        let same_work = next.work == self.work;
        let same_book = next.book_index == self.book_index;
        let touching = nc.0 >= cc.0 && (nc.0 <= cc.1 || nc.0 - 1 == cc.1);
        if !(same_work && same_book && touching) {
            return None;
        }
        match (next.range_type.verse_range(), self.range_type.verse_range()) {
            (None, None) => {
                let start = if cc.0 <= nc.0 { cc.0 } else { nc.0 };
                let end = if cc.1 >= nc.1 { cc.1 } else { nc.1 };
                Some(
                    VerseRangeReference {
                        book_index: self.book_index,
                        work: self.work,
                        range_type: RangeType::StartEndChapter { start, end },
                    },
                )
            },
            (Some(nv), Some(cv)) => {
                if nv.0 >= cv.0 && (nv.0 <= cv.1 || nv.0 - 1 == cv.1) {
                    let start = if cv.0 <= nv.0 { cv.0 } else { nv.0 };
                    let end = if cv.1 >= nv.1 { cv.1 } else { nv.1 };
                    Some(
                        VerseRangeReference {
                            book_index: self.book_index,
                            work: self.work,
                            range_type: RangeType::StartEndVerse { chapter: cc.0, start, end },
                        },
                    )
                } else {
                    None
                }
            },
            (None, Some(_)) => Some(
                VerseRangeReference {
                    book_index: self.book_index,
                    work: self.work,
                    range_type: RangeType::StartEndChapter { start: nc.0, end: nc.1 },
                },
            ),
            (Some(_), None) => Some(*self),
        }
    }
}

/// Merges neighbouring clauses in one pass; see [`merged_references`].
pub fn merge_references(refs: &Vec<VerseRangeReference>) -> (out: Vec<VerseRangeReference>)
    ensures
        out@ == merged_references(refs@),
{
    let mut out: Vec<VerseRangeReference> = Vec::new();
    let mut i: usize = 0;
    proof {
        assert(refs@.take(0) =~= Seq::<VerseRangeReference>::empty());
    }
    while i < refs.len()
        invariant
            i <= refs@.len(),
            out@ == merged_references(refs@.take(i as int)),
        decreases refs@.len() - i,
    {
        let next = refs[i];
        proof {
            assert(refs@.take(i + 1).drop_last() =~= refs@.take(i as int));
            assert(refs@.take(i + 1).last() == next);
        }
        let n = out.len();
        if n == 0 {
            out.push(next);
        } else {
            match out[n - 1].merge_with(&next) {
                Some(joined) => {
                    out.pop();
                    out.push(joined);
                },
                None => {
                    out.push(next);
                },
            }
        }
        i += 1;
    }
    proof {
        assert(refs@.take(i as int) =~= refs@);
    }
    out
}

} // verus!
